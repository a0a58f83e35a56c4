use std::collections::HashMap;

use game_information_counter::damage::World;
use game_information_counter::config::{Config, ViewerSource};
use game_information_counter::effect_state::{Game, Target};
use game_information_counter::effects::Rejected;
use game_information_counter::frame::{
    assign_key, damage_counts, fight_names, names_wanted, published_valid, set_nearest, suppressed,
    Captured, KeyPress, Play,
};
use game_information_counter::boss_list::{Gap, Row};
use game_information_counter::bosses::Point;
use game_information_counter::hud::{Event, Hud, Reply};
use game_information_counter::i18n::Locales;
use game_information_counter::outcomes::{
    after_spawn, after_spawn_tick, clear_effects, end_effects_on_death, on_turn, refund_all,
    sample_card, settle_effect, spawn_allowed, spawns_cleared, switch_off, test_purchase,
    test_reward, try_effect, Step,
};
use game_information_counter::panel::Snapshot;
use game_information_counter::rewards::{
    connection_notice, enable_all_rewards, on_event, on_status, publish_reward, sweep_unfulfilled,
    Link, RewardEntry, RewardEvent, Status,
};
use game_information_counter::scalar::Scalar;
use game_information_counter::till::{
    card_timing, expired_cooldowns, meddles_with_play, upsert_purchase, viewer_to_blame, Action,
    CardLife, Command, Found, PurchaseEvent, Redemption, Scene, Till, Verdict,
    VIEWER_BLAME_WINDOW,
};
use game_information_counter::timed_effects::{EffectState, RuneSums};
use game_information_counter::viewers::{Crowd, HELIX_FRESH};

const SECOND: u64 = 1_000_000_000;
const NOW: u64 = 1_000 * SECOND;

fn s(x: f32) -> Scalar {
    Scalar::from_bits(x.to_bits())
}

#[test]
fn an_expired_cooldown_is_reported_once() {
    let mut map = HashMap::new();
    map.insert(1, (NOW - SECOND, "done".to_string()));
    map.insert(2, (NOW + 30 * SECOND, "running".to_string()));

    let out = expired_cooldowns(&mut map, NOW);
    assert_eq!(out, vec![(1, "done".to_string())]);
    assert!(expired_cooldowns(&mut map, NOW).is_empty());
    assert!(map.contains_key(&2));
}

fn effect(key: &str) -> Action {
    Action::Effect { key: key.to_string(), secs: 0, in_boss: true, cooldown_secs: 0 }
}

#[test]
fn only_meddling_starts_the_blame_window() {
    assert!(meddles_with_play(&Action::Press { key: "Space".to_string() }));
    assert!(meddles_with_play(&Action::Hold { key: "W".to_string(), duration_ms: 500 }));
    assert!(meddles_with_play(&effect("flask_lock")), "taking the flasks gets in the way");
    assert!(!meddles_with_play(&effect("heal")), "healing is no cause of death");
    assert!(
        !meddles_with_play(&Action::SpawnEnemy { key: "x".to_string(), delay_secs: 0, cooldown_secs: 0 }),
        "an enemy counts by being there, not by the time"
    );
}

#[test]
fn connection_notices_fire_only_on_a_real_change() {
    let l = Locales::new();
    let on = Status::Connected { login: "me".into() };
    let err = Status::Error { message: "boom".into(), retry_in_secs: 5 };

    assert!(connection_notice(false, false, &on, &l).is_some(), "the first connection");
    let first = connection_notice(false, false, &on, &l);
    let again = connection_notice(false, true, &on, &l);
    assert_ne!(first, again, "coming back is other news");

    assert!(connection_notice(true, false, &err, &l).is_some(), "lost");
    assert!(connection_notice(true, false, &Status::Disabled, &l).is_none(), "switched off by hand");
    assert!(connection_notice(true, true, &on, &l).is_none(), "as it was");
    assert!(connection_notice(false, true, &err, &l).is_none(), "neither then nor now");
    assert_eq!(again.as_deref(), Some("Twitch connection restored"));
}

fn card(label: &str, viewer: &str, cost: u32) -> PurchaseEvent {
    PurchaseEvent {
        viewer: viewer.to_string(),
        label: label.to_string(),
        cost,
        at: NOW,
        countdown_to: None,
        life: None,
        redemption_id: String::new(),
    }
}

#[test]
fn different_labels_both_stay() {
    let mut list = Vec::new();
    upsert_purchase(&mut list, 30, card("Прыжок", "alpha", 100));
    upsert_purchase(&mut list, 30, card("Эффект", "beta", 200));
    assert_eq!(list.len(), 2);
}

#[test]
fn same_label_merges_into_one_with_latest_data() {
    let mut list = Vec::new();
    upsert_purchase(&mut list, 30, card("Прыжок", "alpha", 100));
    upsert_purchase(&mut list, 30, card("Другое", "gamma", 50));
    upsert_purchase(&mut list, 30, card("Прыжок", "beta", 150));
    assert_eq!(list.len(), 2, "equal labels have to merge into one card");
    let jump = list.last().expect("the last entry is the one just merged");
    assert_eq!(jump.label, "Прыжок");
    assert_eq!(jump.viewer, "beta", "whoever bought last is shown");
    assert_eq!(jump.cost, 150);
}

#[test]
fn cap_still_trims_the_oldest() {
    let mut list = Vec::new();
    for i in 0..5 {
        upsert_purchase(&mut list, 3, card(&format!("Награда {i}"), "v", 10));
    }
    assert_eq!(list.len(), 3);
    assert_eq!(list[0].label, "Награда 2", "the first two had to go");
}

#[test]
fn a_card_outlives_its_countdown() {
    let spawn = Action::SpawnEnemy { key: "x".into(), delay_secs: 60, cooldown_secs: 0 };
    assert_eq!(
        card_timing(Some(&spawn), NOW),
        (Some(CardLife { secs: 60, and_shared: true }), Some(NOW + 60 * SECOND))
    );
    let long = Action::Effect { key: "slow".into(), secs: 60_000, in_boss: true, cooldown_secs: 0 };
    assert_eq!(
        card_timing(Some(&long), NOW),
        (Some(CardLife { secs: 600, and_shared: false }), Some(NOW + 600 * SECOND))
    );
    assert_eq!(card_timing(Some(&effect("heal")), NOW), (None, None));
    let heal = Action::Effect { key: "heal".into(), secs: 30, in_boss: true, cooldown_secs: 0 };
    assert_eq!(card_timing(Some(&heal), NOW), (None, None), "it works at once");
    let unknown = Action::Effect { key: "x".into(), secs: 30, in_boss: true, cooldown_secs: 0 };
    assert_eq!(card_timing(Some(&unknown), NOW), (None, None));
    let table = card_timing(Some(&effect("slow")), NOW).0;
    assert_eq!(table, Some(CardLife { secs: 100, and_shared: false }));
    assert_eq!(card_timing(None, NOW), (None, None));
}

fn redemption() -> Redemption {
    Redemption {
        viewer: "ann".into(),
        reward_id: "R".into(),
        reward_title: "Title".into(),
        cost: 50,
        redemption_id: "X".into(),
    }
}

fn found(enabled: bool, cooldown_secs: u16) -> Option<Found> {
    Some(Found {
        id: 3,
        enabled,
        caption: "Caption".into(),
        action: effect("slow"),
        allowed_in_boss: false,
        cooldown_secs,
    })
}

const PLAY: Scene = Scene { gameplay: true, in_hub: false, boss_fight: false };

fn refunds(t: &Till) -> usize {
    t.commands.iter().filter(|c| matches!(c, Command::Refund { reward_id, redemption_id } if reward_id == "R" && redemption_id == "X")).count()
}

#[test]
fn refused_purchases_are_paid_back() {
    let l = Locales::new();
    let cases = [
        (found(false, 0), PLAY, Verdict::SwitchedOff),
        (found(true, 0), Scene { gameplay: false, ..PLAY }, Verdict::NotPlaying),
        (found(true, 0), Scene { in_hub: true, ..PLAY }, Verdict::InHub),
        (found(true, 0), Scene { boss_fight: true, ..PLAY }, Verdict::BossFight),
    ];
    for (f, scene, want) in cases {
        let mut t = Till::new(true);
        assert_eq!(t.redeem(&redemption(), &f, scene, NOW, &l), want);
        assert_eq!(refunds(&t), 1, "{want:?}");
        assert!(t.purchases.is_empty(), "{want:?}");
        assert!(t.purchase_log.is_empty());
    }
}

#[test]
fn foreign_rewards_are_only_shown() {
    let mut t = Till::new(true);
    assert_eq!(t.redeem(&redemption(), &None, PLAY, NOW, &Locales::new()), Verdict::Foreign);
    assert!(t.commands.is_empty());
    assert_eq!(t.purchases.len(), 1);
    assert_eq!(t.purchases[0].label, "Title");
}

#[test]
fn a_cooldown_holds_and_ends() {
    let l = Locales::new();
    let mut t = Till::new(true);
    let f = found(true, 10);
    assert_eq!(t.redeem(&redemption(), &f, PLAY, NOW, &l), Verdict::Accepted);
    t.settle(&redemption(), f.as_ref().unwrap(), true, NOW);
    assert_eq!(t.purchase_log, vec!["ann \u{b7} Caption (50)"]);
    assert!(matches!(&t.commands[0], Command::EnableReward { reward_id, on: false } if reward_id == "R"));
    let again = t.redeem(&redemption(), &f, PLAY, NOW + 3 * SECOND, &l);
    assert_eq!(again, Verdict::Cooling(8));
    assert_eq!(t.reward_notice.as_deref(), Some("Caption: on cooldown, seconds left: 8"));
    assert_eq!(refunds(&t), 1);
    t.end_cooldowns(NOW + 10 * SECOND);
    assert!(matches!(t.commands.back(), Some(Command::EnableReward { on: true, .. })));
    assert!(t.reward_cooldown.is_empty());
    assert_eq!(t.redeem(&redemption(), &f, PLAY, NOW + 10 * SECOND, &l), Verdict::Accepted);
}

#[test]
fn a_full_queue_pays_back() {
    let l = Locales::new();
    let mut t = Till::new(true);
    let f = found(true, 10);
    assert_eq!(t.redeem(&redemption(), &f, PLAY, NOW, &l), Verdict::Accepted);
    t.settle(&redemption(), f.as_ref().unwrap(), false, NOW);
    assert_eq!(refunds(&t), 1);
    assert!(t.purchase_log.is_empty() && t.reward_cooldown.is_empty());
}

#[test]
fn burnt_out_cards_go() {
    let mut t = Till::new(true);
    t.push_purchase("a".into(), "one".into(), 1, NOW);
    t.push_purchase("b".into(), "two".into(), 1, NOW);
    t.purchases_dirty = false;
    t.sweep_cards(&vec![true, true], false);
    assert!(!t.purchases_dirty);
    t.sweep_cards(&vec![false, true], false);
    assert!(t.purchases_dirty);
    assert_eq!(t.purchases.len(), 1);
    assert_eq!(t.purchases[0].label, "two");
}

#[test]
fn the_log_is_bounded() {
    let mut t = Till::new(true);
    for i in 0..35 {
        t.log_purchase("v", &format!("{i}"), 1);
    }
    assert_eq!(t.purchase_log.len(), 30);
    assert_eq!(t.purchase_log[0], "v \u{b7} 5 (1)");
}

#[test]
fn nothing_is_shown_or_hidden_while_switched_off() {
    let mut t = Till::new(false);
    t.enable_reward("R", true);
    assert!(t.commands.is_empty());
    t.refund("R", "");
    t.fulfill("", "X");
    assert!(t.commands.is_empty());
}

fn reward(id: u32, reward_id: &str, enabled: bool) -> RewardEntry {
    RewardEntry { id, reward_id: reward_id.into(), reward_title: format!(" title {id} "), cost: 5, enabled, synced: 1 }
}

#[test]
fn connecting_sweeps_and_shows_rewards() {
    let l = Locales::new();
    let rewards = vec![reward(1, "A", true), reward(2, "", true), reward(3, "C", false)];
    let mut t = Till::new(true);
    let mut link = Link { was_connected: false, ever_connected: false };
    let on = Status::Connected { login: "me".into() };
    on_status(&mut link, &rewards, &mut t, &on, vec!["held".into()], NOW, &l);
    assert!(link.was_connected && link.ever_connected);
    assert_eq!(t.commands.len(), 2);
    assert!(matches!(&t.commands[0], Command::SweepUnfulfilled { rewards, skip } if rewards == &["A", "C"] && skip == &["held"]));
    assert!(matches!(&t.commands[1], Command::EnableReward { reward_id, on: true } if reward_id == "A"));
    assert_eq!(t.purchases[0].label, "Twitch connected");
    on_status(&mut link, &rewards, &mut t, &on, vec![], NOW, &l);
    assert_eq!(t.commands.len(), 2, "nothing more while it holds");
    on_status(&mut link, &rewards, &mut t, &Status::NotConfigured, vec![], NOW, &l);
    assert_eq!(t.purchases.last().unwrap().label, "Twitch connection lost");
    enable_all_rewards(&rewards, &mut t, false);
    assert_eq!(t.commands.len(), 4);
    sweep_unfulfilled(&vec![reward(2, "", true)], &mut t, vec![]);
    assert_eq!(t.commands.len(), 4, "no reward is known to Twitch");
}

#[test]
fn events_about_rewards_are_taken_down() {
    let l = Locales::new();
    let mut rewards = vec![reward(1, "A", true), reward(2, "", true)];
    let mut t = Till::new(true);
    assert!(on_event(&mut rewards, &mut t, &RewardEvent::Created { local_id: 2, reward_id: "B".into(), mark: 9 }, &l));
    assert_eq!((rewards[1].reward_id.as_str(), rewards[1].synced), ("B", 9));
    assert_eq!(t.reward_notice.as_deref(), Some("the reward was created on Twitch"));
    assert!(on_event(&mut rewards, &mut t, &RewardEvent::Updated { local_id: 1, mark: 7 }, &l));
    assert_eq!(t.reward_notice.as_deref(), Some("updated on Twitch: title 1"));
    assert_eq!(rewards[0].synced, 7);
    let marks = vec![("A".to_string(), 7), ("B".to_string(), 11), ("Z".to_string(), 1)];
    assert!(on_event(&mut rewards, &mut t, &RewardEvent::Synced { marks: marks.clone() }, &l));
    assert_eq!(rewards[1].synced, 11);
    assert!(!on_event(&mut rewards, &mut t, &RewardEvent::Synced { marks }, &l), "nothing new");
    assert!(!on_event(&mut rewards, &mut t, &RewardEvent::Failed { local_id: 1, reason: "no".into() }, &l));
    assert_eq!(t.reward_notice.as_deref(), Some(" title 1 : no"));
    assert!(!on_event(&mut rewards, &mut t, &RewardEvent::RefundFailed { reason: "why".into() }, &l));
    assert_eq!(t.reward_notice.as_deref(), Some("why"));
    assert!(!on_event(&mut rewards, &mut t, &RewardEvent::Notice { text: "note".into() }, &l));
    assert_eq!(t.reward_notice.as_deref(), Some("note"));
    assert!(!on_event(&mut rewards, &mut t, &RewardEvent::Updated { local_id: 77, mark: 7 }, &l));
    assert_eq!(t.reward_notice.as_deref(), Some("updated on Twitch: "));
}

#[test]
fn a_reward_is_created_once() {
    let l = Locales::new();
    let rewards = vec![reward(1, "A", true), reward(2, "", true)];
    let mut t = Till::new(true);
    publish_reward(&rewards, &mut t, 2, 5, &l);
    assert!(matches!(&t.commands[0], Command::CreateReward { local_id: 2, title, cost: 5, mark: 5 } if title == "title 2"));
    publish_reward(&rewards, &mut t, 1, 6, &l);
    assert!(matches!(&t.commands[1], Command::UpdateReward { local_id: 1, reward_id, title, .. } if reward_id == "A" && title == "title 1"));
    publish_reward(&rewards, &mut t, 9, 6, &l);
    assert_eq!(t.commands.len(), 2);
}

#[test]
fn the_full_list_of_viewers_counts_for_more() {
    let block = vec!["bot".to_string()];
    let list = |names: &[&str]| names.iter().map(|n| n.to_string()).collect::<Vec<String>>();
    let mut c = Crowd::new();
    assert!(c.set_channel(&Some("ch".into())));
    assert!(!c.set_channel(&Some("ch".into())));
    assert!(c.update(list(&["Ann", "BOT", "Ёж"]), true, ViewerSource::Auto, &block, NOW));
    assert_eq!(c.viewers, vec!["Ann", "Ёж"]);
    let before = c.viewers_gen;
    assert!(!c.update(list(&["x"]), false, ViewerSource::Auto, &block, NOW + HELIX_FRESH - 1));
    assert_eq!(c.viewers_gen, before);
    assert!(c.update(list(&["x"]), false, ViewerSource::Auto, &block, NOW + HELIX_FRESH));
    assert_eq!(c.viewers_gen, before + 1);
    assert!(!c.update(list(&["y"]), false, ViewerSource::App, &block, NOW + 2 * HELIX_FRESH));
    assert!(!c.update(list(&["y"]), true, ViewerSource::Chat, &block, NOW + 2 * HELIX_FRESH));
    c.reblock(&vec!["x".to_string()]);
    assert!(c.viewers.is_empty());
    c.update(list(&["y"]), true, ViewerSource::App, &vec!["ёж".to_string()], NOW);
    c.refresh();
    assert!(c.viewers.is_empty() && c.helix_chatters_at.is_none());
    assert!(c.set_channel(&None));
    c.update(list(&["Ёж", "y"]), true, ViewerSource::App, &vec![], NOW);
    c.drop_blocked(&vec!["ёж".to_string()]);
    assert_eq!(c.viewers, vec!["y"], "the block holds in any case");
}

fn snapshot() -> Snapshot {
    Snapshot {
        valid: true,
        deaths: 0,
        deaths_on_boss: 0,
        viewer_deaths: 0,
        level: 0,
        runes: 0,
        runes_total: 0,
        play_time_ms: 0,
        ng_lvl: 0,
        deathless_secs: 0,
        map_explored: (0, 0),
        bosses_named: (0, 0),
        bosses_all: (0, 0),
        total_attempts: 0,
        boss_name: None,
        attempts: 0,
        attempt_secs: 0,
        nearest_boss: None,
        in_cutscene: false,
        menu_open: false,
        boss_fight_active: false,
        in_hub: false,
        player_dead: false,
    }
}

#[test]
fn a_death_is_blamed_once() {
    let mut p = Play::new();
    p.note_meddling(&effect("flask_lock"), NOW);
    let mut dead = snapshot();
    dead.player_dead = true;
    let d = p.see(&dead, true, false, NOW + SECOND);
    assert!(d.died && d.blame && d.dead);
    let d = p.see(&dead, true, false, NOW + SECOND);
    assert!(!d.died && !d.blame && d.dead);
    p.see(&snapshot(), true, false, NOW + SECOND);
    let d = p.see(&dead, true, false, NOW + VIEWER_BLAME_WINDOW);
    assert!(d.died && !d.blame, "too long ago");
    assert!(viewer_to_blame(true, None, NOW));
    assert!(!viewer_to_blame(false, None, NOW));
}

#[test]
fn play_is_left_once() {
    let mut p = Play::new();
    assert!(!p.see(&snapshot(), true, false, NOW).left_play);
    assert!(p.scene().gameplay);
    let mut menu = snapshot();
    menu.menu_open = true;
    menu.in_hub = true;
    assert!(p.see(&menu, true, false, NOW).left_play);
    assert!(!p.see(&menu, true, false, NOW).left_play);
    assert!(p.scene().in_hub && !p.scene().gameplay);
    p.see(&snapshot(), true, false, NOW);
    assert!(p.see(&snapshot(), false, false, NOW).left_play, "another window is in front");
    p.toggle_settings();
    assert!(!p.see(&snapshot(), true, false, NOW).left_play);
    assert!(!p.scene().gameplay, "the settings window stops play");
    assert!(!damage_counts(&menu) && damage_counts(&snapshot()));
}

#[test]
fn the_switch_that_stops_everything_spares_the_settings() {
    let mut c = Config::default();
    c.overlay_enabled = false;
    c.web_enabled = false;
    c.debug = false;
    let mut p = Play::new();
    assert!(p.asleep(&c));
    assert!(p.toggle_settings());
    assert!(!p.asleep(&c));
    p.capture_key_for = Some(4);
    assert!(p.close_settings());
    assert_eq!(p.capture_key_for, None);
    assert!(!p.close_settings());
    p.gameplay_active = true;
    p.sleep();
    assert!(!p.gameplay_active);
    assert!(!p.starts_web(true, false));
    assert!(p.starts_web(true, true));
    assert!(!p.starts_web(true, true), "only once");
}

#[test]
fn the_panel_hides_with_the_games_own() {
    let mut c = Config::default();
    c.hide_in_menu = true;
    c.hide_in_cutscene = false;
    let mut menu = snapshot();
    menu.menu_open = true;
    assert!(suppressed(false, &c, &menu));
    assert!(!suppressed(true, &c, &menu));
    let mut scene = snapshot();
    scene.in_cutscene = true;
    assert!(!suppressed(false, &c, &scene));
    assert!(published_valid(true, true, true, false));
    assert!(!published_valid(true, true, false, false));
    assert!(published_valid(false, false, false, true));
    c.enemy_tags = true;
    assert!(names_wanted(&c, 0, true, &snapshot()));
    assert!(!names_wanted(&c, 0, false, &snapshot()));
    assert!(!names_wanted(&c, 5, false, &menu));
}

#[test]
fn the_nearest_boss_waits_for_the_fight_to_end() {
    let row = Row {
        remembrance: false,
        name: "Margit".into(),
        place: "p".into(),
        gap: Some(Gap { dist: s(10.0), dy: s(1.0), reach: s(10.05) }),
        here: true,
        killed: false,
        count: 1,
        map: (60, 1, 1),
        pos: Point { x: s(0.0), y: s(0.0), z: s(0.0) },
    };
    let rows = vec![row];
    let mut c = Config::default();
    c.show_nearest_boss = true;
    c.nearest_radius = s(100.0);
    let mut snap = snapshot();
    set_nearest(&mut snap, &c, &rows);
    assert_eq!(snap.nearest_boss.as_ref().map(|n| n.name.as_str()), Some("Margit"));
    let mut fight = snapshot();
    fight.boss_fight_active = true;
    set_nearest(&mut fight, &c, &rows);
    assert!(fight.nearest_boss.is_none());
    c.nearest_radius = s(5.0);
    set_nearest(&mut snap, &c, &rows);
    assert!(snap.nearest_boss.is_none());
    assert_eq!(fight_names("one\ntwo"), vec!["one", "two"]);
}

#[test]
fn a_key_is_captured_only_if_it_is_really_down() {
    let key = |name: &str, pressed, down| KeyPress { name: name.into(), pressed, down };
    let own = vec!["F7".to_string(), "F8".to_string()];
    let mut p = Play::new();
    assert!(matches!(p.capture_key(false, &vec![], &own), Captured::Cancelled));
    p.capture_key_for = Some(3);
    let stuck = vec![key("F7", true, true), key("F8", true, true), key("Alt", true, false), key("W", false, true)];
    assert!(matches!(p.capture_key(false, &stuck, &own), Captured::Waiting));
    let real = vec![key("F7", true, true), key("W", true, true), key("Q", true, true)];
    assert!(matches!(p.capture_key(false, &real, &own), Captured::Key(3, k) if k == "W"));
    assert_eq!(p.capture_key_for, None);
    p.capture_key_for = Some(3);
    assert!(matches!(p.capture_key(true, &real, &own), Captured::Cancelled));
    assert_eq!(p.capture_key_for, None);
    let mut a = Action::Hold { key: "A".into(), duration_ms: 7 };
    assign_key(&mut a, "W".into());
    assert!(matches!(a, Action::Hold { key, duration_ms: 7 } if key == "W"));
    let mut e = effect("slow");
    assign_key(&mut e, "W".into());
    assert!(matches!(e, Action::Effect { key, .. } if key == "slow"));
}

fn no_game() -> Game {
    Game { speed: Some(s(1.0)), player: None, target: Target::NoWorld }
}

fn sums() -> RuneSums {
    RuneSums {
        pending: s(0.0),
        whole: 0,
        rest: s(0.0),
        dealt: s(0.0),
        taken: s(0.0),
        dealt_text: "0".into(),
        taken_text: "0".into(),
    }
}

fn world() -> World {
    World { player: None, shots: vec![], creatures: vec![] }
}

#[test]
fn effects_are_answered() {
    let l = Locales::new();
    let mut t = Till::new(true);
    let mut st = EffectState::new();
    let mut g = no_game();
    let r = try_effect(&mut t, &mut st, &effect("heal"), "R", "X", NOW, &mut g, &None, &world(), &l);
    assert!(matches!(r, Some(Err(Rejected::NoPlayer))));
    assert_eq!(refunds(&t), 1);
    assert_eq!(t.reward_notice.as_deref(), Some("The player is not in the world yet."));
    let r = try_effect(&mut t, &mut st, &effect("slow"), "R", "X", NOW, &mut g, &None, &world(), &l);
    assert!(matches!(r, Some(Ok(()))));
    assert!(t.reward_notice.is_none());
    assert!(matches!(t.commands.back(), Some(Command::Fulfill { .. })));
    let press = Action::Press { key: "W".into() };
    assert!(try_effect(&mut t, &mut st, &press, "R", "X", NOW, &mut g, &None, &world(), &l).is_none());
    let before = t.commands.len();
    settle_effect(&mut t, Ok(()), "", "test#1", &l);
    assert_eq!(t.commands.len(), before, "a trial never reaches Twitch");
    t.push_purchase_at("v".into(), "l".into(), 1, None, None, "X".into(), NOW);
    clear_effects(&mut t, &mut st, NOW, &sums(), &mut g, &l);
    assert_eq!(t.reward_notice.as_deref(), Some("effects cleared: 1"));
    assert!(t.purchases.is_empty());
    assert_eq!(st.count(), 0);
}

#[test]
fn death_and_switching_off_end_effects() {
    let l = Locales::new();
    let mut t = Till::new(true);
    let mut st = EffectState::new();
    let mut g = no_game();
    let apply = |st: &mut EffectState, g: &mut Game, k: &str, id: &str| {
        assert!(st.apply(k, 60, id, NOW, g, &None, &world(), &Locales::new()).is_ok());
    };
    apply(&mut st, &mut g, "slow", "S");
    apply(&mut st, &mut g, "rune_trade", "T");
    t.push_purchase_at("v".into(), "slow".into(), 1, None, None, "S".into(), NOW);
    t.push_purchase_at("v".into(), "runes".into(), 1, None, None, "T".into(), NOW);
    end_effects_on_death(&mut t, &mut st, NOW, &sums(), &mut g, &l);
    assert_eq!(t.purchases.len(), 1);
    assert_eq!(t.purchases[0].redemption_id, "T");
    assert_eq!(st.count(), 1);
    switch_off(&mut t, &mut st, &vec![("R".into(), "X".into())], NOW, &sums(), &mut g, &l);
    assert_eq!(refunds(&t), 1);
    assert!(t.purchases.is_empty());
    assert_eq!(st.count(), 0);
}

#[test]
fn spawns_are_answered_when_they_come() {
    let l = Locales::new();
    let mut t = Till::new(true);
    assert!(spawn_allowed(true, true) && spawn_allowed(false, false) && !spawn_allowed(false, true));
    after_spawn(&mut t, Err("limit".into()), "R", "X");
    assert_eq!(refunds(&t), 1);
    assert_eq!(t.reward_notice.as_deref(), Some("limit"));
    after_spawn(&mut t, Ok(()), "R", "Y");
    assert!(t.reward_notice.is_none());
    assert_eq!(t.commands.len(), 1, "done is told later");
    after_spawn_tick(&mut t, &vec![("R".into(), "X".into())], &vec![("R".into(), "Y".into())], Some("note".into()));
    assert_eq!(refunds(&t), 2);
    assert!(matches!(t.commands.back(), Some(Command::Fulfill { redemption_id, .. }) if redemption_id == "Y"));
    assert_eq!(t.reward_notice.as_deref(), Some("note"));
    refund_all(&mut t, &vec![("R".into(), "X".into()), ("".into(), "X".into())]);
    assert_eq!(refunds(&t), 3);
    spawns_cleared(&mut t, 4, &l);
    assert_eq!(t.reward_notice.as_deref(), Some("spawned enemies removed: 4"));
    let before = t.commands.len();
    assert_eq!(on_turn(&mut t, &effect("slow"), "R", "X"), Step::Effect);
    assert_eq!(on_turn(&mut t, &Action::SpawnEnemy { key: "x".into(), delay_secs: 0, cooldown_secs: 0 }, "R", "X"), Step::Spawn);
    assert_eq!(t.commands.len(), before);
    assert_eq!(on_turn(&mut t, &Action::Press { key: "W".into() }, "R", "X"), Step::Done);
    assert_eq!(t.commands.len(), before + 1);
}

#[test]
fn trials_are_numbered() {
    let l = Locales::new();
    let mut t = Till::new(true);
    let mut n = 0;
    let id = test_reward(&mut t, &mut n, "Slow", 10, &effect("slow"), NOW, &l);
    assert_eq!(id, "test#1");
    assert_eq!(t.purchases[0].redemption_id, "test#1");
    assert!(t.purchases[0].countdown_to.is_some());
    test_purchase(&mut t, &mut n, NOW, &l);
    assert_eq!(t.purchases[1].label, "Display check #2");
    assert_eq!(t.purchase_log, vec!["Test \u{b7} Display check #2 (100)"]);
    let c = sample_card(NOW, &l);
    assert_eq!((c.at, c.countdown_to), (NOW - 400_000_000, Some(NOW + 3 * SECOND)));
    assert_eq!(c.label, "Channel point reward");
}

#[test]
fn a_frame_of_the_network() {
    let l = Locales::new();
    let c = Config::default();
    let mut h = Hud::new(vec![reward(1, "R", true)], true);
    let on = Status::Connected { login: "me".into() };
    assert!(h.begin(true, &Some("ch".into()), &on, &vec![], NOW, &l));
    assert!(!h.begin(true, &Some("ch".into()), &on, &vec![], NOW, &l));
    h.play.gameplay_active = true;
    let sent = h.till.commands.len();
    let e = Event::Redemption { purchase: redemption(), found: found(true, 5) };
    assert_eq!(h.handle(&e, &c, NOW, &l), Reply::Queue);
    h.queued(&redemption(), found(true, 5).as_ref().unwrap(), true, NOW);
    assert_eq!(h.till.commands.len(), sent + 1, "the reward is hidden while it cools down");
    let e = Event::Chatters { list: vec!["ann".into()], helix: true };
    assert_eq!(h.handle(&e, &c, NOW, &l), Reply::Nothing);
    assert_eq!(h.crowd.viewers, vec!["ann"]);
    let e = Event::Reward(RewardEvent::Updated { local_id: 1, mark: 5 });
    assert_eq!(h.handle(&e, &c, NOW, &l), Reply::Save);
    h.finish(&vec![true, false], true, NOW + 5 * SECOND);
    assert_eq!(h.till.purchases.len(), 1);
    assert!(matches!(h.till.commands.back(), Some(Command::EnableReward { on: true, .. })));
}

#[test]
fn the_till_stays_in_order() {
    let l = Locales::new();
    let mut t = Till::new(true);
    for i in 0..40u32 {
        let mut f = found(true, 30).unwrap();
        f.id = i % 3;
        f.caption = format!("reward {}", i % 35);
        let f = Some(f);
        let at = NOW + u64::from(i) * 11 * SECOND;
        if t.redeem(&redemption(), &f, PLAY, at, &l) == Verdict::Accepted {
            t.settle(&redemption(), f.as_ref().unwrap(), i % 5 != 0, at);
        }
        t.end_cooldowns(at);
        let mut labels: Vec<&str> = t.purchases.iter().map(|p| p.label.as_str()).collect();
        labels.sort();
        labels.dedup();
        assert_eq!(labels.len(), t.purchases.len(), "each label is on one card");
        assert!(t.reward_cooldown.len() <= 3 && t.reward_cooldown.keys().all(|id| *id < 3));
        assert!(t.purchases.len() <= 30 && t.purchase_log.len() <= 30);
    }
}

#[test]
fn all_cooldowns_that_are_over_come_back_in_any_order() {
    let mut t = Till::new(true);
    for id in 0..6u32 {
        t.reward_cooldown.insert(id, (NOW + u64::from(id) * SECOND, format!("R{id}")));
    }
    t.end_cooldowns(NOW + 3 * SECOND);
    let mut shown: Vec<String> = t
        .commands
        .iter()
        .map(|c| match c {
            Command::EnableReward { reward_id, on: true } => reward_id.clone(),
            _ => panic!("nothing else is asked"),
        })
        .collect();
    shown.sort();
    assert_eq!(shown, ["R0", "R1", "R2", "R3"]);
    let mut left: Vec<u32> = t.reward_cooldown.keys().copied().collect();
    left.sort();
    assert_eq!(left, [4, 5]);
    t.end_cooldowns(NOW + 3 * SECOND);
    assert_eq!(t.commands.len(), 4, "each is reported once");
}
