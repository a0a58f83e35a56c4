use game_information_counter::damage::{Creature, DamageWatch, HitBy, Shot, World};
use game_information_counter::effect_state::{apply_once, Foe, Game, Item, Player, Target};
use game_information_counter::effects::{
    about, default_secs, effect_table, entry, group, harmful, key_of, label, survives_death, Effect,
    Rejected, FLASK_FP_FIRST, FLASK_HP_LAST, MAX_SECS, RUNE_GAIN_TENTHS, RUNE_LOSS_TENTHS,
    SWAY_AMPLITUDE_TENTHS, SWAY_PERIOD_SECS,
};
use game_information_counter::i18n::Locales;
use game_information_counter::scalar::Scalar;
use game_information_counter::timed_effects::{
    camera_values, start_timed, EffectState, Restore, RuneSums,
};

const SECOND: u64 = 1_000_000_000;

fn s(x: f32) -> Scalar {
    Scalar::from_bits(x.to_bits())
}

fn f(x: Scalar) -> f32 {
    f32::from_bits(x.bits)
}

fn no_game() -> Game {
    Game { speed: None, player: None, target: Target::NoWorld }
}

fn player() -> Player {
    Player {
        hp: 50,
        max_hp: 400,
        fp: 3,
        max_fp: 80,
        stamina: 90,
        max_stamina: 101,
        runes: 1000,
        max_hp_flask: 4,
        max_fp_flask: 2,
        items: vec![
            Item { goods: true, id: 1001, pot_group: 0, quantity: 2 },
            Item { goods: true, id: 1051, pot_group: 1, quantity: 1 },
            Item { goods: true, id: 9, pot_group: 2, quantity: 7 },
        ],
        pots: vec![2, 1, 7],
    }
}

fn game() -> Game {
    Game {
        speed: Some(s(1.0)),
        player: Some(player()),
        target: Target::Found(Foe { hp: 100, max_hp: 1000, max_uncapped_hp: 1000 }),
    }
}

fn world() -> World {
    World { player: None, shots: vec![], creatures: vec![] }
}

fn sums() -> RuneSums {
    RuneSums {
        pending: s(0.0),
        whole: 0,
        rest: s(0.0),
        dealt: s(0.0),
        taken: s(0.0),
        dealt_text: "0".into(),
        taken_text: "0".into(),
    }
}

#[test]
fn table_is_well_formed() {
    for e in effect_table() {
        assert!(!e.key.is_empty(), "an empty key");
        assert!(!e.label.is_empty(), "{} has no label", e.key);
        assert!(e.default_secs <= MAX_SECS, "{} is longer than the limit", e.key);
        assert_eq!(
            effect_table().iter().filter(|o| o.key == e.key).count(),
            1,
            "key {} stands there twice",
            e.key
        );
    }
}

#[test]
fn every_effect_has_a_branch() {
    for e in effect_table() {
        let mut g = no_game();
        let err = if e.default_secs > 0 {
            start_timed(e.effect, 0, &g, &None).err()
        } else {
            apply_once(e.effect, &mut g).err()
        };
        assert!(!matches!(err, Some(Rejected::Unknown)), "effect {} is not carried out", e.key);
    }
}

#[test]
fn two_effects_of_one_group_cannot_stack() {
    assert_eq!(group("stamina_half"), group("stamina_none"));
    assert_eq!(group("slow"), group("fast"));
    assert_ne!(group("slow"), group("stamina_half"));
    for e in effect_table() {
        assert_eq!(
            group(e.key).is_empty(),
            e.default_secs == 0,
            "the group of effect {} does not fit its kind",
            e.key
        );
    }
}

#[test]
fn unknown_key_is_rejected() {
    let mut st = EffectState::new();
    let r = st.apply("нет-такого", 0, "", 0, &mut no_game(), &None, &world(), &Locales::new());
    assert!(matches!(r, Err(Rejected::Unknown)));
    assert!(key_of("нет-такого").is_none());
    assert!(key_of("slow").is_some());
}

#[test]
fn timed_and_instant_are_told_apart() {
    assert_eq!(default_secs("heal"), 0);
    assert!(default_secs("slow") > 0);
    assert_eq!(default_secs("нет-такого"), 0);
}

#[test]
fn only_the_rune_exchange_survives_death() {
    assert!(survives_death("rune_trade"));
    let table = effect_table();
    let spared: Vec<&str> = table.iter().map(|e| e.key).filter(|k| survives_death(k)).collect();
    assert_eq!(spared, vec!["rune_trade"], "more than one is spared: {spared:?}");
    for e in table {
        if survives_death(e.key) {
            assert!(e.default_secs > 0, "{} is instant: there is nothing to survive", e.key);
        }
    }
}

#[test]
fn flask_ranges_do_not_overlap() {
    assert!(FLASK_HP_LAST < FLASK_FP_FIRST);
}

#[test]
fn rune_exchange_pays_less_than_it_charges() {
    let gain = RUNE_GAIN_TENTHS as f32 / 10.0;
    let loss = RUNE_LOSS_TENTHS as f32 / 10.0;
    let net = |dealt: f32, taken: f32| dealt * gain - taken * loss;
    assert_eq!(net(1000.0, 0.0), 600.0);
    assert_eq!(net(0.0, 1000.0), -800.0);
    assert!(net(500.0, 500.0) < 0.0);
    assert!(net(1.0, 1.0) < 0.0, "taking has to cost more than dealing pays");
}

#[test]
fn sway_swings_both_ways_and_returns_to_one() {
    let period = SWAY_PERIOD_SECS as f32;
    let amplitude = SWAY_AMPLITUDE_TENTHS as f32 / 10.0;
    let factor = |secs: f32| {
        let phase = secs * std::f32::consts::TAU / period;
        1.0 + amplitude * phase.sin()
    };
    assert!((factor(0.0) - 1.0).abs() < 1e-5, "at zero the view is as it was");
    assert!((factor(period) - 1.0).abs() < 1e-4, "after a period it is back");
    let (mut lo, mut hi) = (f32::MAX, f32::MIN);
    for ms in 0..(period * 1000.0) as u32 {
        let f = factor(ms as f32 / 1000.0);
        lo = lo.min(f);
        hi = hi.max(f);
    }
    assert!(lo < 1.0 - amplitude + 0.01, "does not reach down: {lo}");
    assert!(hi > 1.0 + amplitude - 0.01, "does not reach up: {hi}");
}

#[test]
fn instant_effects_do_what_they_say() {
    let mut g = game();
    assert!(apply_once(Effect::Heal, &mut g).is_ok());
    assert_eq!(g.player.as_ref().unwrap().hp, 400);
    assert!(apply_once(Effect::OneHp, &mut g).is_ok());
    assert_eq!(g.player.as_ref().unwrap().hp, 1);
    assert!(apply_once(Effect::RestoreFp, &mut g).is_ok());
    assert_eq!(g.player.as_ref().unwrap().fp, 80);
    assert!(apply_once(Effect::FlaskGift, &mut g).is_ok());
    let q: Vec<u32> = g.player.as_ref().unwrap().items.iter().map(|i| i.quantity).collect();
    assert_eq!(q, vec![4, 2, 7], "a gift stays within the maximum");
    assert!(apply_once(Effect::BossHeal, &mut g).is_ok());
    assert!(matches!(g.target, Target::Found(t) if t.hp == 1000));
    assert!(apply_once(Effect::BossHp, &mut g).is_ok());
    assert!(matches!(g.target, Target::Found(t) if t.max_hp > 1000));
    g.target = Target::Absent;
    assert!(matches!(apply_once(Effect::BossHeal, &mut g), Err(Rejected::NoBoss)));
    let mut none = no_game();
    assert!(matches!(apply_once(Effect::Heal, &mut none), Err(Rejected::NoPlayer)));
    assert!(matches!(start_timed(Effect::CameraSway, 0, &none, &None), Err(Rejected::NoParams)));
}

#[test]
fn reasons_are_told_apart() {
    let l = Locales::new();
    let all = [Rejected::Unknown, Rejected::NoPlayer, Rejected::NoBoss, Rejected::NoParams];
    let texts: Vec<String> = all.iter().map(|r| r.reason(&l)).collect();
    assert_eq!(texts[0], "No such effect in the list.");
    assert_eq!(texts[1], "The player is not in the world yet.");
    assert_eq!(texts[2], "No boss on screen - no target.");
    assert_eq!(texts[3], "The game data is still loading.");
}

#[test]
fn a_timed_effect_runs_and_is_undone() {
    let l = Locales::new();
    let mut st = EffectState::new();
    let mut g = game();
    assert!(st.apply("slow", 10, "r1", 0, &mut g, &None, &world(), &l).is_ok());
    assert!(st.apply("stamina_half", 10, "r2", 0, &mut g, &None, &world(), &l).is_ok());
    st.tick(SECOND, &sums(), &mut g, &l);
    assert_eq!(g.speed.map(f), Some(0.5));
    assert_eq!(g.player.as_ref().unwrap().stamina, 50);
    assert_eq!(st.count(), 2);
    st.tick(10 * SECOND, &sums(), &mut g, &l);
    assert_eq!(st.count(), 0);
    assert_eq!(g.speed.map(f), Some(1.0));
    assert_eq!(g.player.as_ref().unwrap().max_stamina, 101);
}

#[test]
fn a_second_purchase_takes_the_first_over() {
    let l = Locales::new();
    let mut st = EffectState::new();
    let mut g = game();
    assert!(st.apply("slow", 100, "r1", 0, &mut g, &None, &world(), &l).is_ok());
    assert!(st.apply("fast", 10, "r2", SECOND, &mut g, &None, &world(), &l).is_ok());
    assert_eq!(st.count(), 1, "purchases never stack");
    assert_eq!(st.active[0].until, 100 * SECOND, "a short one does not cut a long one");
    assert_eq!(st.active[0].redemption_id, "r2");
    let (ids, _) = st.revert_all(2 * SECOND, &sums(), &mut g, &l);
    assert_eq!(ids, vec!["r2"]);
    assert_eq!(st.count(), 0);
}

#[test]
fn death_spares_the_rune_exchange() {
    let l = Locales::new();
    let mut st = EffectState::new();
    let mut g = game();
    assert!(st.apply("rune_trade", 60, "runes", 0, &mut g, &None, &world(), &l).is_ok());
    assert!(st.apply("flask_lock", 60, "flasks", 0, &mut g, &None, &world(), &l).is_ok());
    st.tick(1, &sums(), &mut g, &l);
    let locked: Vec<u32> = g.player.as_ref().unwrap().items.iter().map(|i| i.quantity).collect();
    assert_eq!(locked, vec![0, 0, 7]);
    let (ids, _) = st.revert_on_death(2, &sums(), &mut g, &l);
    assert_eq!(ids, vec!["flasks"]);
    assert_eq!(st.count(), 1);
    assert!(matches!(st.active[0].restore, Restore::Runes(_)));
    let back: Vec<u32> = g.player.as_ref().unwrap().items.iter().map(|i| i.quantity).collect();
    assert_eq!(back, vec![2, 1, 7]);
}

#[test]
fn runes_are_paid_in_batches() {
    let l = Locales::new();
    let mut st = EffectState::new();
    let mut g = game();
    let seen = World { player: Some((1, 100)), shots: vec![], creatures: vec![Creature { handle: 2, hp: 50, hit_by: HitBy::Creature(1) }] };
    assert!(st.apply("rune_trade", 60, "runes", 0, &mut g, &None, &seen, &l).is_ok());
    let hit = World { player: Some((1, 90)), shots: vec![], creatures: vec![Creature { handle: 2, hp: 20, hit_by: HitBy::Creature(1) }] };
    let d = st.poll_runes(100_000_000, &hit, true).unwrap();
    assert_eq!(d.dealt, vec![30]);
    assert_eq!(d.taken, 10);
    let mut owed = sums();
    owed.pending = s(10.5);
    owed.whole = 10;
    owed.rest = s(0.5);
    st.tick(SECOND, &owed, &mut g, &l);
    assert_eq!(g.player.as_ref().unwrap().runes, 1000, "not yet");
    st.tick(3 * SECOND, &owed, &mut g, &l);
    assert_eq!(g.player.as_ref().unwrap().runes, 1010);
    assert_eq!(st.runes().unwrap().net, 10);
}

#[test]
fn the_camera_sways_and_comes_back() {
    let l = Locales::new();
    let mut st = EffectState::new();
    let mut g = game();
    let rows = Some(vec![(5, s(43.0)), (6, s(50.0))]);
    assert!(st.apply("camera_sway", 10, "c", 0, &mut g, &rows, &world(), &l).is_ok());
    assert_eq!(st.take_note().as_deref(), Some("camera rows: 2"));
    assert!(st.take_note().is_none());
    let w = st.tick(SECOND, &sums(), &mut g, &l).unwrap();
    assert_eq!(w.since, Some(0));
    assert_eq!(w.rows.len(), 2);
    let w = st.tick(10 * SECOND, &sums(), &mut g, &l).unwrap();
    assert_eq!(w.since, None);
    let values = camera_values(&w.rows, &vec![5, 7, 6]);
    assert_eq!(values.iter().map(|v| v.map(f)).collect::<Vec<_>>(), vec![Some(43.0), None, None]);
}

#[test]
fn the_first_look_counts_nothing() {
    let mut w = DamageWatch::new();
    let at = |hp: i32, mine: i32, by: HitBy, shots: Vec<Shot>| World {
        player: Some((1, mine)),
        shots,
        creatures: vec![Creature { handle: 2, hp, hit_by: by }],
    };
    let d = w.poll(0, &at(100, 50, HitBy::Creature(1), vec![]), true);
    assert!(d.dealt.is_empty() && d.taken == 0);
    let d = w.poll(100_000_000, &at(80, 45, HitBy::Creature(1), vec![]), true);
    assert_eq!((d.dealt, d.taken), (vec![20], 5));
    let d = w.poll(200_000_000, &at(70, 45, HitBy::Creature(9), vec![]), true);
    assert!(d.dealt.is_empty(), "somebody else's blow");
    let d = w.poll(300_000_000, &at(60, 45, HitBy::Shot(7), vec![Shot { handle: 7, owner: Some(1) }]), true);
    assert_eq!(d.dealt, vec![10], "a shot is its owner's");
    let d = w.poll(400_000_000, &at(50, 45, HitBy::Creature(1), vec![]), false);
    assert!(d.dealt.is_empty(), "nothing counts in a menu");
    let d = w.poll(5_000_000_000, &at(10, 45, HitBy::Creature(1), vec![]), true);
    assert!(d.dealt.is_empty(), "after a gap everything is looked at anew");
}

#[test]
fn labels_come_from_the_table() {
    let l = Locales::new();
    let e = entry("flask_lock").unwrap();
    assert_eq!(label(&l, "flask_lock"), e.label.split("##").next().unwrap());
    assert_eq!(about(&l, "flask_lock"), e.about.split("##").next().unwrap());
    assert!(harmful("flask_lock") && !harmful("heal") && !harmful("x"));
    assert!(entry("x").is_none());
}
