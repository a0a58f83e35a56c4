use game_information_counter::config::{Config, Layout};
use game_information_counter::frame::demo_fight;
use game_information_counter::i18n::Locales;
use game_information_counter::labels::{
    clip, clip_name, clip_w, fmt_hms, fmt_mmss, group_digits, height_mark, joined_name, pad_key,
    split_boss_counter, strip_name, wrap_name,
};
use game_information_counter::layout::{
    debug_copy, debug_head, draw, draw_allies, draw_purchase_toasts, Ally, Ink, Part, Piece, Space,
};
use game_information_counter::panel::{
    ally_label, content, debug_line, grab, place, progress_label, right_text, Chrome, Content,
    DebugLine, Figures, NearestBoss, PadDrag, PanelPin, Snapshot,
};
use game_information_counter::scalar::Scalar;
use game_information_counter::till::PurchaseEvent;

fn s(x: f32) -> Scalar {
    Scalar::from_bits(x.to_bits())
}

fn f(x: Scalar) -> f32 {
    f32::from_bits(x.bits)
}

fn snapshot() -> Snapshot {
    Snapshot {
        valid: false,
        deaths: 0,
        deaths_on_boss: 0,
        viewer_deaths: 0,
        level: 0,
        runes: 0,
        runes_total: 0,
        play_time_ms: 0,
        ng_lvl: 0,
        deathless_secs: 0,
        map_explored: (0, 0),
        bosses_named: (0, 0),
        bosses_all: (0, 0),
        total_attempts: 0,
        boss_name: None,
        attempts: 0,
        attempt_secs: 0,
        nearest_boss: None,
        in_cutscene: false,
        menu_open: false,
        boss_fight_active: false,
        in_hub: false,
        player_dead: false,
    }
}

fn figures(snap: &Snapshot) -> Figures {
    let hours = snap.play_time_ms as f32 / 3_600_000.0;
    let killed = snap.bosses_all.0 as f32;
    Figures {
        map_percent: "0".into(),
        bosses_per_hour: format!("{:.1}", killed / hours),
        deaths_per_hour: format!("{:.1}", snap.deaths as f32 / hours),
        attempts_per_boss: format!("{:.1}", snap.total_attempts as f32 / killed),
        nearest_meters: snap.nearest_boss.as_ref().map_or(String::new(), |n| format!("{:.0}", f(n.dist))),
        nearest_height: snap.nearest_boss.as_ref().map_or(String::new(), |n| format!("{:.0}", f(n.dy).abs())),
    }
}

fn shown(snap: &Snapshot, c: &Config) -> Content {
    content(snap, c, &figures(snap), &Locales::new(), true)
}

#[test]
fn hms_pads_minutes_and_seconds() {
    assert_eq!(fmt_hms(0), "0:00:00");
    assert_eq!(fmt_hms(61_000), "0:01:01");
    assert_eq!(fmt_hms(3_600_000), "1:00:00");
    assert_eq!(fmt_hms(359_999_999), "99:59:59");
}

#[test]
fn mmss_never_goes_negative() {
    assert_eq!(fmt_mmss(0.0f64 as i128), "0:00");
    assert_eq!(fmt_mmss(-5.0f64 as i128), "0:00");
    assert_eq!(fmt_mmss(65.9f64 as i128), "1:05");
}

#[test]
fn splits_boss_counter_at_the_slash() {
    let split = |t: &str| split_boss_counter(t);
    assert_eq!(split("17/206"), ("17".to_string(), "/206".to_string()));
    assert_eq!(split("0/0"), ("0".to_string(), "/0".to_string()));
    assert_eq!(split("206"), ("206".to_string(), "".to_string()));
}

#[test]
fn digits_group_by_three() {
    assert_eq!(group_digits(0), "0");
    assert_eq!(group_digits(999), "999");
    assert_eq!(group_digits(1_000), "1 000");
    assert_eq!(group_digits(1_234_567), "1 234 567");
    assert!(group_digits(1_234_567).is_ascii());
    assert_eq!(group_digits(u32::MAX).replace(' ', ""), u32::MAX.to_string());
}

#[test]
fn toggles_remove_items() {
    let snap = snapshot();
    let mut c = Config::default();
    let full = shown(&snap, &c).items.len();
    c.show_deaths = false;
    c.show_level = false;
    assert_eq!(shown(&snap, &c).items.len(), full - 2);
}

#[test]
fn ng_item_only_past_the_first_playthrough() {
    let mut snap = snapshot();
    let mut c = Config::default();
    c.show_ng = true;
    assert!(!shown(&snap, &c).items.iter().any(|i| i.label == "NG+"));
    snap.ng_lvl = 1;
    assert!(shown(&snap, &c).items.iter().any(|i| i.label == "NG+"));
}

#[test]
fn each_pad_owns_its_drag() {
    assert_ne!(pad_key("##panel_xy"), pad_key("##toast_xy"));
    assert_eq!(pad_key("##panel_xy"), pad_key("##panel_xy"));
}

#[test]
fn the_key_of_a_pad_is_its_hash() {
    assert_eq!(pad_key(""), 0xcbf29ce484222325);
    assert_eq!(pad_key("a"), 0xaf63dc4c8601ec8c);
}

#[test]
fn second_boss_name_is_opt_in() {
    let mut snap = snapshot();
    snap.boss_name = Some("Первый
Второй".into());
    let mut c = Config::default();
    assert_eq!(shown(&snap, &c).boss.as_deref(), Some("Первый"), "only the first unless asked");
    c.show_all_boss_names = true;
    assert_eq!(shown(&snap, &c).boss.as_deref(), Some("Первый
Второй"));
}

#[test]
fn preview_sample_fills_the_fight_block() {
    let mut snap = snapshot();
    demo_fight(&mut snap, &Locales::new());
    let c = Config::default();
    let ct = shown(&snap, &c);
    assert!(ct.boss.is_some(), "the sample has no boss");
    assert_eq!(ct.fight.len(), 2, "the sample has no attempt and no clock");
    assert_eq!((snap.attempts, snap.attempt_secs, snap.deaths_on_boss), (3, 84, 2));
}

#[test]
fn fight_block_needs_a_boss() {
    let mut snap = snapshot();
    let c = Config::default();
    assert!(!shown(&snap, &c).has_fight(), "no fight without a boss");
    snap.boss_name = Some("Марджит".into());
    assert!(shown(&snap, &c).has_fight());
}

#[test]
fn progress_survives_an_empty_registry() {
    let snap = snapshot();
    let c = Config::default();
    let p = shown(&snap, &c).progress.expect("bosses are on by default");
    assert_eq!(p.text, "0/0");
    let ratio = p.killed as f32 / p.total.max(1) as f32;
    assert!(ratio.is_finite() && ratio == 0.0, "{ratio}");
}

#[test]
fn every_layout_has_content() {
    let mut snap = snapshot();
    snap.level = 45;
    snap.deaths = 73;
    snap.boss_name = Some("Марджит".into());
    let mut c = Config::default();
    for layout in [Layout::A, Layout::B, Layout::D] {
        c.layout = layout;
        let ct = shown(&snap, &c);
        assert!(!ct.is_empty(), "{layout:?}");
        assert!(ct.has_fight(), "{layout:?}");
        assert!(!draw(&ct, &c, &Locales::new()).is_empty());
    }
}

#[test]
fn fight_rows_are_ordinary_metrics() {
    let mut snap = snapshot();
    snap.boss_name = Some("Марджит".into());
    snap.attempts = 3;
    snap.attempt_secs = 84;
    let c = Config::default();
    let fight = shown(&snap, &c).fight;
    assert_eq!(fight.len(), 2);
    assert_eq!(fight[0].label, "DEATHS");
    assert_eq!(fight[0].value, "2");
    assert_eq!(fight[1].label, "FIGHT TIME");
    assert_eq!(fight[1].value, "1:24");
    let only_timer = Config { show_attempts: false, ..Config::default() };
    assert_eq!(shown(&snap, &only_timer).fight.len(), 1);
    let neither = Config { show_attempts: false, show_fight_timer: false, ..Config::default() };
    assert!(shown(&snap, &neither).fight.is_empty());
}

#[test]
fn kill_and_death_rate_combine_with_playtime() {
    let mut c = Config::default();
    c.show_boss_kill_rate = true;
    c.show_death_rate = true;
    let mut snap = snapshot();
    snap.play_time_ms = 0;
    assert!(!shown(&snap, &c).items.iter().any(|i| i.label == "BOSSES / HOUR"));

    snap.play_time_ms = 3_600_000;
    snap.deaths = 10;
    snap.bosses_named = (5, 165);
    snap.bosses_all = (5, 400);
    let items = shown(&snap, &c).items;
    assert!(items.iter().any(|i| i.label == "BOSSES / HOUR" && i.value == "5.0"));
    assert!(items.iter().any(|i| i.label == "DEATHS / HOUR" && i.value == "10.0"));
}

#[test]
fn avg_attempts_needs_a_kill_to_divide_by() {
    let mut c = Config::default();
    c.show_avg_attempts = true;
    let mut snap = snapshot();
    snap.total_attempts = 12;
    snap.bosses_named = (0, 165);
    snap.bosses_all = (0, 400);
    assert!(!shown(&snap, &c).items.iter().any(|i| i.label == "ATTEMPTS / BOSS"), "nothing to divide by");

    snap.bosses_named = (4, 165);
    snap.bosses_all = (4, 400);
    let items = shown(&snap, &c).items;
    assert!(items.iter().any(|i| i.label == "ATTEMPTS / BOSS" && i.value == "3.0"));
}

#[test]
fn boss_deaths_start_from_zero() {
    let mut c = Config::default();
    c.show_deaths_on_boss = true;
    let mut snap = snapshot();
    snap.deaths_on_boss = 3;
    snap.attempts = 1;
    let items = shown(&snap, &c).items;
    assert!(items.iter().any(|i| i.label == "DEATHS ON BOSSES" && i.value == "3"));

    snap.boss_name = Some("Марджит".into());
    let fight = shown(&snap, &c).fight;
    assert!(fight.iter().any(|i| i.label == "DEATHS" && i.value == "0"));

    snap.attempts = 4;
    let fight = shown(&snap, &c).fight;
    assert!(fight.iter().any(|i| i.label == "DEATHS" && i.value == "3"));
}

fn placed(pos: f32, win: f32, screen: f32, pinned: bool) -> (f32, bool) {
    let (x, p) = place(s(pos), s((screen - win).max(0.0)), pinned);
    (f(x), p)
}

#[test]
fn a_panel_pinned_to_the_edge_stays_there() {
    assert_eq!(placed(100.0, 300.0, 1920.0, false), (100.0, false));
    let (x, pinned) = placed(1700.0, 300.0, 1920.0, false);
    assert_eq!((x, pinned), (1620.0, true));
    assert_eq!(placed(1700.0, 200.0, 1920.0, pinned), (1720.0, true));
    assert_eq!(placed(100.0, 3000.0, 1920.0, false), (0.0, true));
    assert_eq!(placed(-5.0, 300.0, 1920.0, false), (0.0, false));
}

#[test]
fn moving_the_panel_by_hand_lets_it_go() {
    let mut pin = PanelPin::new();
    let at = |p: (Scalar, Scalar)| (f(p.0), f(p.1));
    assert_eq!(at(pin.place_panel(s(1700.0), s(10.0), s(1620.0), s(900.0))), (1620.0, 10.0));
    assert_eq!(at(pin.place_panel(s(1700.0), s(10.0), s(1720.0), s(900.0))), (1720.0, 10.0));
    assert_eq!(at(pin.place_panel(s(1500.0), s(10.0), s(1720.0), s(900.0))), (1500.0, 10.0));
}

#[test]
fn a_long_boss_name_wraps_by_words() {
    assert_eq!(wrap_name("Godrick the Grafted", 12), "Godrick the
Grafted");
    assert_eq!(wrap_name("Godrick the Grafted", 0), "Godrick the Grafted", "0 does not wrap");
    assert_eq!(wrap_name("Margit", 3), "Margit", "a word stays whole, even a long one");
    assert_eq!(wrap_name("Godrick the Grafted
Margit", 12), "Godrick the
Grafted
Margit");
    assert!(
        wrap_name("Malenia, Blade of Miquella", 12).lines().count() > 1,
        "a long name has to be wrapped"
    );
}

fn mark(dy: f32, arrows: bool) -> String {
    height_mark(s(dy), &format!("{:.0}", dy.abs()), arrows)
}

#[test]
fn height_is_marked_only_when_it_matters() {
    assert_eq!(mark(0.0, true), "");
    assert_eq!(mark(1.9, true), "", "a step is no floor");
    assert_eq!(mark(-1.9, true), "");

    assert_eq!(mark(14.0, true), " \u{2191}14");
    assert_eq!(mark(-8.4, true), " \u{2193}8");

    assert_eq!(mark(14.0, false), " +14", "without an arrow a sign");
    assert_eq!(mark(-8.4, false), " -8");
}

#[test]
fn texts_are_clipped_by_characters() {
    assert_eq!(clip("Привет", 6), "Привет");
    assert_eq!(clip("Привет", 3), "При...");
    assert_eq!(clip_name("Margit", 0), "Margit");
    assert_eq!(joined_name("a\nb"), "a \u{b7} b");
    assert_eq!(strip_name("straße\nмаргит"), "STRASSE \u{b7} МАРГИТ");
    assert_eq!(clip_w("abc", true, &vec![false, false, false]), "abc");
}

fn item_count(parts: &[Part]) -> usize {
    parts
        .iter()
        .map(|p| match p {
            Part::Row { .. } => 1,
            Part::Cells { values, .. } => values.len(),
            Part::Strip { pieces, .. } => pieces.iter().filter(|p| matches!(p, Piece::Pair { .. })).count(),
            _ => 0,
        })
        .sum()
}

#[test]
fn every_layout_shows_every_metric() {
    let mut snap = snapshot();
    snap.boss_name = Some("one\ntwo".into());
    snap.nearest_boss = Some(NearestBoss { name: "Margit".into(), dist: s(12.4), dy: s(14.0) });
    let mut c = Config::default();
    c.show_nearest_boss = true;
    c.show_all_boss_names = true;
    c.show_boss_bar = true;
    let l = Locales::new();
    let ct = shown(&snap, &c);
    assert_eq!(ct.nearest.as_ref().map(|n| n.value.as_str()), Some("12m \u{2191}14"));
    let all = ct.items.len() + ct.fight.len();
    c.layout = Layout::A;
    assert_eq!(item_count(&draw(&ct, &c, &l)), all + 1);
    c.layout = Layout::B;
    assert_eq!(item_count(&draw(&ct, &c, &l)), all);
    c.layout = Layout::D;
    let parts = draw(&ct, &c, &l);
    assert_eq!(item_count(&parts), all + 1);
    assert!(matches!(&parts[0], Part::Row { after: Space::Section, ink: Ink::Metric, .. }));
    assert!(matches!(&parts[1], Part::Rule));
    assert!(matches!(&parts[2], Part::Header { label, killed, rest } if *label == progress_label(&l) && killed == "0" && rest == "/0"));
    assert!(matches!(&parts[3], Part::Bar { killed: 0, total: 0 }));
    let names: Vec<(&str, Space)> = parts
        .iter()
        .filter_map(|p| match p {
            Part::BossName { text, after } => Some((text.as_str(), *after)),
            _ => None,
        })
        .collect();
    assert_eq!(names, vec![("ONE", Space::Small), ("TWO", Space::Line)]);
    assert!(matches!(parts.last(), Some(Part::Row { ink: Ink::Fight, after: Space::Nothing, .. })));
}

#[test]
fn an_empty_panel_has_no_parts() {
    let ct = Content { items: vec![], nearest: None, progress: None, boss: None, fight: vec![] };
    assert!(ct.is_empty());
    assert!(draw(&ct, &Config::default(), &Locales::new()).is_empty());
}

#[test]
fn cards_show_the_newest_first() {
    let card = |viewer: &str, label: &str, cost| PurchaseEvent {
        viewer: viewer.into(),
        label: label.into(),
        cost,
        at: 0,
        countdown_to: None,
        life: None,
        redemption_id: String::new(),
    };
    let events = vec![card("a", "old", 5), card("b", "dead", 5), card("a very very long nickname", "new", 0)];
    let out = draw_purchase_toasts(
        &events,
        &vec![true, false, true],
        &vec![Some((s(2.4), "3".into())), None, Some((s(0.01), "1".into()))],
        &Locales::new(),
    );
    let got: Vec<(usize, &str, &str, &str)> =
        out.iter().map(|t| (t.slot, t.who.as_str(), t.what.as_str(), t.right.as_str())).collect();
    assert_eq!(got, vec![(0, "a very very long n...", "new", ""), (2, "a", "old", "3 s")]);
    assert_eq!(right_text(&None, 70, &Locales::new()), "70");
}

#[test]
fn allies_are_listed_with_their_senders() {
    let ally = |viewer: &str, max_hp| Ally { viewer: viewer.into(), name: "wolf".into(), whole_secs: "9".into(), hp: 4, max_hp };
    let out = draw_allies(&vec![ally("ann", 10), ally("", 0)], &Locales::new());
    assert_eq!((out[0].who.as_str(), out[0].left.as_str(), out[0].hp, out[0].of), ("ann - wolf", "9 s", 4, 10));
    assert_eq!((out[1].who.as_str(), out[1].of), ("wolf", 1));
    assert_eq!(ally_label("", "wolf"), "wolf");
}

#[test]
fn the_debug_window_tells_its_lines_apart() {
    let head = debug_head(true, 12, false);
    assert_eq!(head, "valid true | кадр 12 | панель видна");
    assert_eq!(debug_head(false, 0, true), "valid false | кадр 0 | панель скрыта");
    assert_eq!(debug_copy("h", &vec!["# a".into(), "  b".into()]), "h\n# a\n  b");
    assert!(matches!(debug_line("# a"), DebugLine::Heading(t) if t == "a"));
    assert!(matches!(debug_line("  b"), DebugLine::Detail(t) if t == "b"));
    assert!(matches!(debug_line("c"), DebugLine::Plain(t) if t == "c"));
}

#[test]
fn a_drag_belongs_to_its_pad() {
    let mut drag: Option<PadDrag> = None;
    grab(&mut drag, "##a", true, (s(1.0), s(2.0)), (10, 10));
    assert_eq!(drag.as_ref().map(|d| d.owner), Some(pad_key("##a")));
    grab(&mut drag, "##b", false, (s(1.0), s(2.0)), (10, 10));
    assert_eq!(drag.as_ref().map(|d| d.owner), Some(pad_key("##a")), "another pad does not let go of it");
    grab(&mut drag, "##a", false, (s(1.0), s(2.0)), (10, 10));
    assert!(drag.is_none());
}

#[test]
fn cards_and_panel_have_frames_of_their_own() {
    let mut c = Config::default();
    c.panel_opacity = s(0.25);
    c.toast_opacity = s(0.75);
    assert_eq!(f(Chrome::panel(&c).fill), 0.25);
    assert_eq!(f(Chrome::toast(&c).fill), 0.75);
}
