use game_information_counter::frame::{add_boss_tags, tag_names};
use game_information_counter::nicknames::{NicknameAssigner, FORGET_AFTER};
use game_information_counter::scalar::Scalar;
use game_information_counter::tags::{
    boss_tags, bought_tags, has_own_name, named_rows, native_tags, retry_due, DrawnBar, Sight, Spot,
    Tag, TagSlot,
};

const SECOND: u64 = 1_000_000_000;
const NOW: u64 = 1_000 * SECOND;

fn handle(index: u32) -> u64 {
    index as u64
}

fn viewers(names: &[&str]) -> Vec<String> {
    names.iter().map(|s| s.to_string()).collect()
}

#[test]
fn names_do_not_repeat_while_viewers_last() {
    let mut a = NicknameAssigner::new();
    let visible = vec![handle(1), handle(2), handle(3)];
    let names: Vec<String> =
        a.assign(&visible, &viewers(&["alpha", "beta", "gamma"]), 1, NOW).into_iter().flatten().collect();
    assert_eq!(names.len(), 3);
    let mut sorted = names.clone();
    sorted.sort();
    sorted.dedup();
    assert_eq!(sorted.len(), 3, "all three names differ: {names:?}");
}

#[test]
fn a_name_is_never_shown_on_two_enemies_at_once() {
    let mut a = NicknameAssigner::new();
    let viewers = vec!["alpha".to_string()];
    let (one, two) = (handle(1), handle(2));

    assert_eq!(a.assign(&vec![one], &viewers, 1, NOW), vec![Some("alpha".into())]);
    assert_eq!(a.assign(&vec![two], &viewers, 1, NOW), vec![Some("alpha".into())]);
    let both = a.assign(&vec![one, two], &viewers, 1, NOW);
    assert_eq!(both.iter().filter(|n| n.as_deref() == Some("alpha")).count(), 1, "{both:?}");
    assert!(both.contains(&None), "the enemy too many gets no label: {both:?}");
}

#[test]
fn extra_enemies_stay_unnamed_instead_of_duplicating() {
    let mut a = NicknameAssigner::new();
    let visible = vec![handle(1), handle(2), handle(3)];
    let names = a.assign(&visible, &viewers(&["solo"]), 1, NOW);
    assert_eq!(names, vec![Some("solo".to_string()), None, None]);

    let mut a = NicknameAssigner::new();
    let names = a.assign(&visible, &viewers(&["one", "two"]), 1, NOW);
    assert_eq!(names.iter().filter(|n| n.is_some()).count(), 2);
    assert_eq!(names[2], None);
}

#[test]
fn same_enemy_keeps_its_name() {
    let mut a = NicknameAssigner::new();
    let people = viewers(&["alpha", "beta"]);
    let first = a.assign(&vec![handle(1), handle(2)], &people, 1, NOW);
    let second = a.assign(&vec![handle(1), handle(2)], &people, 1, NOW + SECOND);
    assert!(first.iter().all(Option::is_some), "two viewers are enough for two enemies");
    assert_eq!(first, second, "names must not jump between frames");

    let third = a.assign(&vec![handle(2)], &people, 1, NOW + 2 * SECOND);
    assert_eq!(third, vec![second[1].clone()]);
}

#[test]
fn viewer_who_left_is_dropped() {
    let mut a = NicknameAssigner::new();
    let first = a.assign(&vec![handle(1)], &viewers(&["alpha"]), 1, NOW);
    assert_eq!(first, vec![Some("alpha".to_string())]);

    let second = a.assign(&vec![handle(1)], &viewers(&["beta"]), 2, NOW + SECOND);
    assert_eq!(second, vec![Some("beta".to_string())]);

    let third = a.assign(&vec![handle(1)], &viewers(&["beta"]), 2, NOW + 2 * SECOND);
    assert_eq!(third, vec![Some("beta".to_string())]);
}

#[test]
fn recently_shown_names_yield_to_others() {
    let mut a = NicknameAssigner::new();
    let people = viewers(&["alpha", "beta", "gamma"]);

    let first = a.assign(&vec![handle(1)], &people, 1, NOW);
    let second = a.assign(&vec![handle(2)], &people, 1, NOW + SECOND);
    let third = a.assign(&vec![handle(3)], &people, 1, NOW + 2 * SECOND);
    let mut all: Vec<String> = first.into_iter().chain(second).chain(third).flatten().collect();
    all.sort();
    all.dedup();
    assert_eq!(all.len(), 3, "three enemies, three viewers");
}

#[test]
fn cooldown_never_blocks_everything() {
    let mut a = NicknameAssigner::new();
    let people = viewers(&["solo"]);
    assert_eq!(a.assign(&vec![handle(1)], &people, 1, NOW), vec![Some("solo".to_string())]);
    assert_eq!(
        a.assign(&vec![handle(2)], &people, 1, NOW + SECOND),
        vec![Some("solo".to_string())],
        "one enemy is in view: the only viewer has to name it"
    );
}

#[test]
fn forgotten_enemies_are_evicted() {
    let mut a = NicknameAssigner::new();
    a.assign(&vec![handle(1)], &viewers(&["alpha"]), 1, NOW);
    assert_eq!(a.assigned.len(), 1);
    a.assign(&vec![], &viewers(&["alpha"]), 1, NOW + FORGET_AFTER + SECOND);
    assert!(a.assigned.is_empty());
}

#[test]
fn no_viewers_means_no_names() {
    let mut a = NicknameAssigner::new();
    assert!(a.assign(&vec![handle(1)], &vec![], 1, NOW).is_empty());
}

fn s(x: f32) -> Scalar {
    Scalar::from_bits(x.to_bits())
}

fn spot(x: f32, y: f32) -> Spot {
    Spot { x: s(x), y: s(y) }
}

fn slot(h: u64, age: f32, at: Spot) -> TagSlot {
    TagSlot { handle: Some(h), visible: true, age: s(age), at, own_name: false }
}

#[test]
fn tags_follow_the_bars_that_are_drawn() {
    let slots = vec![
        slot(1, 0.0, spot(500.0, 500.0)),
        slot(2, 9.0, spot(500.0, 500.0)),
        slot(3, 0.0, spot(500.0, 500.0)),
        TagSlot { own_name: true, ..slot(4, 0.0, spot(1.0, 1.0)) },
    ];
    let drawn = vec![DrawnBar { handle: Some(3), visible: true, at: spot(700.0, 600.0) }];
    let tags = native_tags(&slots, &drawn, &vec![], &vec![], true);
    assert_eq!(tags.len(), 2);
    assert_eq!(tags[0].handle, 1);
    assert_eq!(tags[1], Tag { handle: 3, at: spot(700.0, 600.0) });
    let named = native_tags(&slots, &drawn, &vec![4], &vec![1], true);
    assert_eq!(named.iter().map(|t| t.handle).collect::<Vec<_>>(), vec![3, 4], "bought ones always, bosses never");
    assert!(native_tags(&slots, &drawn, &vec![1], &vec![], false).is_empty());
}

#[test]
fn bought_creatures_are_labeled_once() {
    let tags = vec![Tag { handle: 1, at: spot(5.0, 5.0) }];
    let screen = spot(1920.0, 1080.0);
    let sights = vec![
        Some(Sight { hp: 10, at: Some(spot(1.0, 1.0)) }),
        Some(Sight { hp: 10, at: Some(spot(100.0, 100.0)) }),
        Some(Sight { hp: 0, at: Some(spot(100.0, 100.0)) }),
        Some(Sight { hp: 5, at: Some(spot(5000.0, 100.0)) }),
        None,
    ];
    let out = bought_tags(&tags, &vec![1, 2, 3, 4, 5], &sights, screen);
    assert_eq!(out.iter().map(|t| t.handle).collect::<Vec<_>>(), vec![2], "the first has a tag already");
}

#[test]
fn bosses_get_no_second_label() {
    assert_eq!(boss_tags(&vec![Some(4), None, Some(4), Some(5)]), vec![4, 5]);
    let mut tags = vec![Tag { handle: 4, at: spot(5.0, 5.0) }];
    add_boss_tags(&mut tags, &vec![Tag { handle: 4, at: spot(1.0, 1.0) }, Tag { handle: 5, at: spot(2.0, 2.0) }]);
    assert_eq!(tags, vec![Tag { handle: 4, at: spot(5.0, 5.0) }, Tag { handle: 5, at: spot(2.0, 2.0) }]);
}

#[test]
fn a_buyer_names_the_enemy() {
    let owners = vec![None, Some("buyer".to_string()), None];
    let names = vec![Some("one".to_string()), Some("two".to_string()), None];
    assert_eq!(
        tag_names(&owners, &names),
        vec![(0, "one".to_string()), (1, "buyer".to_string())]
    );
    assert_eq!(tag_names(&owners, &vec![]), vec![(1, "buyer".to_string())]);
}

#[test]
fn rows_with_a_name_keep_it() {
    let named = named_rows(&vec![(10, 5), (11, -1), (12, 0)]);
    assert!(has_own_name(&named, Some(10)));
    assert!(!has_own_name(&named, Some(11)));
    assert!(!has_own_name(&named, None));
    assert!(!has_own_name(&named, Some(-10)));
    assert!(retry_due(None, 5));
    assert!(!retry_due(Some(5), 6));
    assert!(retry_due(Some(5), 5 + SECOND));
}

#[test]
fn whoever_wears_a_name_keeps_it() {
    let mut a = NicknameAssigner::new();
    let people = viewers(&["solo"]);
    assert_eq!(a.assign(&vec![handle(1)], &people, 1, NOW), vec![Some("solo".to_string())]);
    let both = a.assign(&vec![handle(2), handle(1)], &people, 1, NOW + SECOND);
    assert_eq!(both, vec![None, Some("solo".to_string())], "the newcomer stands first and takes nothing");
    let again = a.assign(&vec![handle(1), handle(2)], &people, 1, NOW + 2 * SECOND);
    assert_eq!(again, vec![Some("solo".to_string()), None]);

    let mut a = NicknameAssigner::new();
    assert_eq!(a.assign(&vec![handle(1)], &people, 1, NOW), vec![Some("solo".to_string())]);
    assert_eq!(a.assign(&vec![handle(2)], &people, 1, NOW + SECOND), vec![Some("solo".to_string())]);
    let back = a.assign(&vec![handle(1), handle(2)], &people, 1, NOW + 2 * SECOND);
    assert_eq!(back, vec![None, Some("solo".to_string())], "the one who came back has lost it");
}

#[test]
fn a_name_rests_from_when_it_was_last_shown() {
    let mut a = NicknameAssigner::new();
    let people = viewers(&["alpha", "beta", "gamma"]);
    // One enemy keeps its name for longer than a name rests.
    for k in 0..12 {
        let got = a.assign(&vec![handle(1)], &people, 1, NOW + k * 10 * SECOND);
        assert_eq!(got, vec![Some("alpha".to_string())]);
    }
    let later = NOW + 111 * SECOND;
    let second = a.assign(&vec![handle(2)], &people, 1, later);
    let third = a.assign(&vec![handle(3)], &people, 1, later + SECOND);
    assert_eq!((second, third), (vec![Some("beta".to_string())], vec![Some("gamma".to_string())]));
    let fourth = a.assign(&vec![handle(2), handle(3), handle(4)], &people, 1, later + 2 * SECOND);
    assert_eq!(fourth[2], Some("alpha".to_string()), "the only one who is free");
    assert_eq!(a.shown_at.len(), 3, "all three were shown a moment ago");
}
