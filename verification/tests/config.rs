use game_information_counter::config::{
    color_to_hex, parse_bool, parse_boss_count, parse_color, parse_key, parse_layout,
    parse_nick_list, parse_panel_style, parse_viewer_source, tmp_path, BossCount, Config,
    Decoded, Layout, PanelStyle, ViewerSource,
};
use game_information_counter::ini::{assignments, line_assignment, rewrite_values};
use game_information_counter::scalar::Scalar;
use game_information_counter::values::{Shown, TEMPLATE};

fn s(x: f32) -> Scalar {
    Scalar::from_bits(x.to_bits())
}

fn f(x: Scalar) -> f32 {
    f32::from_bits(x.bits)
}

fn key_names() -> Vec<String> {
    ["F5", "F6", "F7", "F8", "F9", "Home"].iter().map(|k| k.to_string()).collect()
}

fn apply(c: &mut Config, text: &str) {
    let decoded: Vec<Decoded> = assignments(text)
        .into_iter()
        .map(|(_, v)| Decoded {
            number: v.parse::<f32>().ok().map(s),
            protected: false,
            revealed: v,
        })
        .collect();
    c.apply(text, &decoded, &key_names());
}

fn pairs(list: &[(&str, &str)]) -> Vec<(String, String)> {
    list.iter().map(|(k, v)| (k.to_string(), v.to_string())).collect()
}

fn scaled(c: &mut Config, k: f32) {
    let sizes = [c.label_size, c.value_size, c.counter_size, c.boss_name_size, c.attempt_size];
    c.apply_scale(s(k), sizes.map(|x| s(f(x) * k)));
}

#[test]
fn every_file_gets_its_own_tmp_name() {
    let names = ["game_information_counter.ini", "game_information_counter.stats", "game_information_counter.rewards", "game_information_counter.twitch"];
    let tmps: Vec<String> = names.iter().map(|n| tmp_path(n)).collect();
    for (i, a) in tmps.iter().enumerate() {
        assert_ne!(a, names[i], "the temporary file is the file itself: {a:?}");
        for b in &tmps[i + 1..] {
            assert_ne!(a, b, "two files share a temporary one: {a:?}");
        }
    }
}

#[test]
fn template_round_trips_to_defaults() {
    let mut c = Config::default();
    apply(&mut c, TEMPLATE);
    let d = Config::default();
    assert_eq!(c.overlay_enabled, d.overlay_enabled);
    assert_eq!(c.web_enabled, d.web_enabled);
    assert_eq!(c.web_port, d.web_port);
    assert_eq!(c.startup_delay_ms, d.startup_delay_ms);
    assert_eq!(c.boss_count, d.boss_count);
    assert_eq!(c.layout, d.layout);
    assert_eq!(c.show_runes_total, d.show_runes_total);
    assert_eq!(c.show_deathless, d.show_deathless);
    assert_eq!(c.show_deaths_on_boss, d.show_deaths_on_boss);
    assert_eq!(c.show_boss_kill_rate, d.show_boss_kill_rate);
    assert_eq!(c.show_death_rate, d.show_death_rate);
    assert_eq!(c.show_avg_attempts, d.show_avg_attempts);
    assert_eq!(c.show_boss_bar, d.show_boss_bar);
    assert_eq!(c.show_map_explored, d.show_map_explored);
    assert_eq!(c.hide_in_menu, d.hide_in_menu);
    assert_eq!(c.panel_x, d.panel_x);
    assert_eq!(c.panel_opacity, d.panel_opacity);
    assert_eq!(c.debug, d.debug);
    assert_eq!(c.accent_color, d.accent_color);
    assert_eq!(c.label_color, d.label_color);
    assert_eq!(c.value_color, d.value_color);
    assert_eq!(c.label_size, d.label_size);
    assert_eq!(c.value_size, d.value_size);
    assert_eq!(c.counter_size, d.counter_size);
    assert_eq!(c.boss_name_size, d.boss_name_size);
    assert_eq!(c.attempt_size, d.attempt_size);
    assert_eq!(c.web_attempt_size, d.web_attempt_size);
    assert_eq!(c.web_opacity, d.web_opacity);
    assert_eq!(c.web_layout, d.web_layout);
    assert_eq!(c.web_border_opacity, d.web_border_opacity);
    assert_eq!(c.web_label_size, d.web_label_size);
    assert_eq!(c.web_counter_size, d.web_counter_size);
    assert_eq!(c.spawn_limit, d.spawn_limit);
    assert_eq!(c.spawn_radius_m, d.spawn_radius_m);
    assert_eq!(c.spawn_in_front, d.spawn_in_front);
    assert_eq!(c.spawn_in_boss, d.spawn_in_boss);
    assert_eq!(c.settings_key, d.settings_key);
    assert_eq!(c.boss_list_key, d.boss_list_key);
    assert_eq!(c.boss_list_radius, d.boss_list_radius);
    assert_eq!(c.enemy_tag_say, d.enemy_tag_say);
    assert_eq!(c.lang, d.lang);
    assert!(c.font_path.to_ascii_lowercase().ends_with("pala.ttf"));
}

#[test]
fn junk_values_leave_defaults_alone() {
    let mut c = Config::default();
    apply(&mut c, "web_port = не число\npanel_x = \naccent_color = ZZZZZZ\nboss_count = maybe\nunknown_key = 5");
    let d = Config::default();
    assert_eq!(c.web_port, d.web_port);
    assert_eq!(c.panel_x, d.panel_x);
    assert_eq!(c.accent_color, d.accent_color);
    assert_eq!(c.boss_count, d.boss_count);
}

#[test]
fn comments_and_sections_are_skipped() {
    let mut c = Config::default();
    apply(&mut c, "; web_port = 1\n# web_port = 2\n[web_port = 3]\nweb_port = 9001");
    assert_eq!(c.web_port, 9001);
}

#[test]
fn parse_color_handles_rgb_rgba_and_junk() {
    assert_eq!(parse_color("FF0000"), Some([255, 0, 0, 255]));
    assert_eq!(parse_color("#00FF0080").map(|c| c[3] as f32 / 255.0 > 0.4 && (c[3] as f32 / 255.0) < 0.6), Some(true));
    assert_eq!(parse_color("F"), None);
    assert_eq!(parse_color(""), None);
}

#[test]
fn colors_read_as_they_were_written() {
    for c in [[0, 0, 0, 0], [255, 16, 9, 170], [1, 2, 3, 254]] {
        assert_eq!(parse_color(&color_to_hex(c)), Some(c));
    }
    assert_eq!(color_to_hex([255, 16, 9, 170]), "FF1009AA");
    assert_eq!(parse_color(" #0a0B0c "), Some([10, 11, 12, 255]));
    for junk in ["##0a0B0c", "0a0B0c7", "FF00001", "0a0B0c7g", "+F+F+F", "0a0B0c7700", "0a0B0c\u{416}", "#"] {
        assert_eq!(parse_color(junk), None, "{junk}");
    }
}

#[test]
fn bools_accept_the_usual_spellings() {
    for s in ["1", "true", "TRUE", "yes", "on"] {
        assert_eq!(parse_bool(s), Some(true), "{s}");
    }
    for s in ["0", "false", "no", "off"] {
        assert_eq!(parse_bool(s), Some(false), "{s}");
    }
    assert_eq!(parse_bool("ага"), None);
}

#[test]
fn rewrite_keeps_everything_it_did_not_touch() {
    let text = "; коммент
[panel]
panel_x = 24
; panel_y = 99
panel_y = 48
";
    let out = rewrite_values(text, &pairs(&[("panel_x", "100")]));
    assert!(out.contains("panel_x = 100"));
    assert!(out.contains("; коммент"), "{out}");
    assert!(out.contains("[panel]"), "{out}");
    assert!(out.contains("; panel_y = 99"), "a line that is a comment must not change: {out}");
    assert!(out.contains("panel_y = 48"), "{out}");
}

#[test]
fn rewrite_appends_keys_the_file_lacks() {
    let out = rewrite_values("panel_x = 24
", &pairs(&[("show_deaths", "false")]));
    assert!(out.contains("show_deaths = false"), "{out}");
    assert!(out.contains("[added]"), "{out}");
    let out2 = rewrite_values(&out, &pairs(&[("show_level", "false")]));
    assert_eq!(out2.matches("[added]").count(), 1, "{out2}");
}

#[test]
fn saved_values_load_back() {
    let text = rewrite_values(
        TEMPLATE,
        &vec![
            ("show_deaths".to_string(), "false".to_string()),
            ("panel_x".to_string(), "300".to_string()),
            ("accent_color".to_string(), color_to_hex([255, 0, 0, 255])),
        ],
    );
    let mut c = Config::default();
    apply(&mut c, &text);
    assert!(!c.show_deaths);
    assert_eq!(f(c.panel_x), 300.0);
    assert_eq!(c.accent_color, [255, 0, 0, 255]);
}

fn written(c: &Config) -> Vec<(String, String)> {
    c.all_values()
        .into_iter()
        .map(|(k, v)| {
            let text = match v {
                Shown::Text(t) => t,
                Shown::Number(n) => format!("{}", f(n)),
                Shown::Secret(t) => t,
            };
            (k.to_string(), text)
        })
        .collect()
}

#[test]
fn reset_writes_every_value_back_to_defaults() {
    let d = Config::default();
    let text = rewrite_values(TEMPLATE, &written(&d));
    let mut c = Config::default();
    c.show_deaths = false;
    c.panel_x = s(999.0);
    c.hide_in_menu = false;
    apply(&mut c, &text);
    assert!(c.show_deaths);
    assert_eq!(c.panel_x, d.panel_x);
    assert_eq!(c.accent_color, d.accent_color);
    assert_eq!(c.hide_in_menu, d.hide_in_menu);
}

#[test]
fn a_reset_is_read_back_from_any_file() {
    let mut w = Config::default();
    w.layout = Layout::B;
    w.panel_style = PanelStyle::BarRight;
    w.viewers_source = ViewerSource::Chat;
    w.boss_count = BossCount::Named;
    w.accent_color = [1, 2, 3, 4];
    w.panel_x = s(0.1);
    w.spawn_limit = 77;
    w.twitch_channel = "some channel".to_string();
    w.viewer_block = vec!["alpha".to_string(), "beta".to_string()];
    let keys: Vec<String> = written(&w).into_iter().map(|(k, _)| k).collect();
    let mut sorted = keys.clone();
    sorted.sort();
    sorted.dedup();
    assert_eq!(sorted.len(), keys.len(), "no key is written twice");
    let text = rewrite_values("layout = d\n[old]\nspawn_limit = 3\nlayout = a\n", &written(&w));
    let mut c = Config::default();
    apply(&mut c, &text);
    assert_eq!(c.layout, Layout::B);
    assert_eq!(c.panel_style, PanelStyle::BarRight);
    assert_eq!(c.viewers_source, ViewerSource::Chat);
    assert_eq!(c.boss_count, BossCount::Named);
    assert_eq!(c.accent_color, [1, 2, 3, 4]);
    assert_eq!(c.panel_x, s(0.1));
    assert_eq!(c.spawn_limit, 77);
    assert_eq!(c.twitch_channel, "some channel");
    assert_eq!(c.viewer_block, vec!["alpha", "beta"]);
    assert_eq!(written(&c), written(&w));
}

#[test]
fn panel_style_parses_every_variant() {
    for (text, want) in [
        ("frame", PanelStyle::Frame),
        ("bare", PanelStyle::Bare),
        ("bar", PanelStyle::Bar),
        ("bar_right", PanelStyle::BarRight),
    ] {
        let mut c = Config::default();
        apply(&mut c, &format!("panel_style = {text}"));
        assert_eq!(c.panel_style, want, "{text}");
    }
    let mut c = Config::default();
    c.panel_style = PanelStyle::Bar;
    apply(&mut c, "panel_style = zzz");
    assert_eq!(c.panel_style, PanelStyle::Bar, "junk does not change the frame");
}

#[test]
fn layout_parses_all_three() {
    for (text, want) in [("a", Layout::A), ("B", Layout::B), ("d", Layout::D)] {
        let mut c = Config::default();
        apply(&mut c, &format!("layout = {text}"));
        assert_eq!(c.layout, want, "{text}");
    }
    let mut c = Config::default();
    apply(&mut c, "layout = zzz");
    assert_eq!(c.layout, Config::default().layout);
}

#[test]
fn words_read_as_they_were_written() {
    for l in [Layout::A, Layout::B, Layout::D] {
        assert_eq!(parse_layout(l.as_key()), Some(l));
    }
    for p in [PanelStyle::Frame, PanelStyle::Bare, PanelStyle::Bar, PanelStyle::BarRight] {
        assert_eq!(parse_panel_style(p.as_key()), Some(p));
    }
    for v in [ViewerSource::Auto, ViewerSource::App, ViewerSource::Chat] {
        assert_eq!(parse_viewer_source(v.as_key()), Some(v));
    }
    for b in [BossCount::Named, BossCount::All] {
        assert_eq!(parse_boss_count(b.as_key()), Some(b));
    }
    assert_eq!(parse_panel_style(" None "), Some(PanelStyle::Bare));
    assert_eq!(parse_viewer_source("helix"), Some(ViewerSource::App));
    assert_eq!(parse_viewer_source("x"), None);
}

#[test]
fn old_title_size_key_still_works() {
    let mut c = Config::default();
    apply(&mut c, "title_size = 31");
    assert_eq!(f(c.counter_size), 31.0);
}

#[test]
fn the_old_key_for_fights_is_turned_round() {
    let mut c = Config::default();
    apply(&mut c, "spawn_block_in_boss = true");
    assert!(!c.spawn_in_boss);
    apply(&mut c, "spawn_block_in_boss = false");
    assert!(c.spawn_in_boss);
}

#[test]
fn web_settings_are_independent() {
    let mut c = Config::default();
    apply(&mut c, "panel_opacity = 0.9\nweb_opacity = 0.2\nlayout = d\nweb_layout = b");
    assert_eq!(f(c.panel_opacity), 0.9);
    assert_eq!(f(c.web_opacity), 0.2);
    assert_eq!(c.layout, Layout::D);
    assert_eq!(c.web_layout, Layout::B);
}

#[test]
fn web_font_sizes_are_independent_of_overlay() {
    let mut c = Config::default();
    apply(&mut c, "value_size = 40\nweb_value_size = 15");
    assert_eq!(f(c.value_size), 40.0);
    assert_eq!(f(c.web_value_size), 15.0);
}

#[test]
fn block_list_round_trips_through_the_ini() {
    let mut c = Config::default();
    apply(&mut c, "viewer_block = Alpha, beta ,,GAMMA");
    assert_eq!(c.viewer_block, vec!["alpha", "beta", "gamma"]);
    let saved = c.viewer_block.join(",");
    let mut back = Config::default();
    apply(&mut back, &format!("viewer_block = {saved}"));
    assert_eq!(back.viewer_block, c.viewer_block);
    let mut empty = Config::default();
    apply(&mut empty, "viewer_block =");
    assert!(empty.viewer_block.is_empty());
}

#[test]
fn nicknames_are_lowered_by_unicode() {
    assert_eq!(parse_nick_list("ИВАН, Straße,ẞ"), vec!["иван", "straße", "ß"]);
}

#[test]
fn attempt_size_is_independent() {
    let mut c = Config::default();
    apply(&mut c, "value_size = 40\nattempt_size = 12\nweb_value_size = 9\nweb_attempt_size = 30");
    assert_eq!(f(c.value_size), 40.0);
    assert_eq!(f(c.attempt_size), 12.0);
    assert_eq!(f(c.web_value_size), 9.0);
    assert_eq!(f(c.web_attempt_size), 30.0);
}

#[test]
fn apply_scale_multiplies_font_sizes_and_is_reversible() {
    let base = Config::default();
    let mut c = Config::default();
    scaled(&mut c, 1.5);
    assert!((f(c.value_size) - f(base.value_size) * 1.5).abs() < 0.01);
    assert!((f(c.attempt_size) - f(base.attempt_size) * 1.5).abs() < 0.01);
    scaled(&mut c, 1.0 / 1.5);
    assert!((f(c.value_size) - f(base.value_size)).abs() < 0.01);
    assert!((f(c.label_size) - f(base.label_size)).abs() < 0.01);
}

#[test]
fn apply_scale_ignores_degenerate_input() {
    let base = Config::default();
    let mut c = Config::default();
    scaled(&mut c, 0.0);
    scaled(&mut c, -1.0);
    scaled(&mut c, f32::NAN);
    scaled(&mut c, 1.0);
    assert_eq!(c.value_size, base.value_size);
    scaled(&mut c, f32::INFINITY);
    assert_eq!(c.value_size, base.value_size);
}

#[test]
fn load_bakes_ui_scale_into_font_sizes() {
    let mut c = Config::default();
    apply(&mut c, "ui_scale = 2.0\nvalue_size = 18");
    let k = f(c.ui_scale);
    scaled(&mut c, k);
    assert!((f(c.value_size) - 36.0).abs() < 0.01);
}

#[test]
fn ui_scale_from_ini_is_clamped() {
    let mut c = Config::default();
    apply(&mut c, "ui_scale = 0");
    assert!(f(c.ui_scale) >= 0.1);
    let mut c2 = Config::default();
    apply(&mut c2, "ui_scale = -5");
    assert!(f(c2.ui_scale) >= 0.1);
    let mut c3 = Config::default();
    apply(&mut c3, "ui_scale = 99");
    assert_eq!(f(c3.ui_scale), 10.0);
    apply(&mut c3, "ui_scale = nan");
    assert_eq!(f(c3.ui_scale), 10.0);
}

#[test]
fn the_last_line_for_a_key_counts() {
    let mut c = Config::default();
    apply(&mut c, "web_port = 1\nweb_port = 2\nweb_port = x\n");
    assert_eq!(c.web_port, 2);
}

#[test]
fn lines_without_an_assignment_are_passed_over() {
    let line = |t: &str| line_assignment(&t.chars().collect());
    assert_eq!(line(" a = b = c "), Some(("a".to_string(), "b = c".to_string())));
    assert_eq!(line("# a = b"), None);
    assert_eq!(line("  ; a = b"), None);
    assert_eq!(line("nothing"), None);
}

#[test]
fn keys_are_found_in_any_case() {
    assert_eq!(parse_key("f7", &key_names()).as_deref(), Some("F7"));
    assert_eq!(parse_key("HOME", &key_names()).as_deref(), Some("Home"));
    assert_eq!(parse_key("F77", &key_names()), None);
}

#[test]
fn a_value_is_set_only_if_there_is_one() {
    let mut x = 5;
    game_information_counter::config::set(&mut x, None);
    assert_eq!(x, 5);
    game_information_counter::config::set(&mut x, Some(6));
    assert_eq!(x, 6);
}

#[test]
fn the_font_signature_follows_what_the_atlas_depends_on() {
    let c = Config::default();
    let sizes: Vec<String> = c.font_sizes().iter().map(|x| format!("{}", f(*x))).collect();
    let a = c.font_signature("en", &sizes);
    assert!(a.starts_with(&format!("en|{}|", c.font_path)), "{a}");
    assert_ne!(a, c.font_signature("ru", &sizes));
    assert_eq!(c.font_sizes().len(), 7);
}

#[test]
fn defaults_hold() {
    let d = Config::default();
    assert_eq!(d.web_port, 7777);
    assert!(!d.web_enabled);
    assert!(!d.enemy_tag_say);
    assert_eq!(d.layout, Layout::D);
}

#[test]
fn every_default_holds() {
    let d = Config::default();
    assert_eq!(f(d.web_opacity), 0.65);
    assert_eq!(f(d.web_border_opacity), 0.85);
    assert_eq!(f(d.web_scale), 2.3);
    assert_eq!(f(d.web_panel_rounding), 8.0);
    assert_eq!(f(d.web_border_width), 1.6);
    assert_eq!(f(d.web_label_size), 14.0);
    assert_eq!(f(d.web_value_size), 15.0);
    assert_eq!(f(d.web_counter_size), 20.0);
    assert_eq!(f(d.web_boss_name_size), 14.0);
    assert_eq!(f(d.web_attempt_size), 15.0);
    assert_eq!(f(d.web_toast_label_size), 14.0);
    assert_eq!(f(d.web_toast_value_size), 15.0);
    assert_eq!(f(d.web_toast_width), 340.0);
    assert_eq!(f(d.web_toast_opacity), 0.65);
    assert_eq!(f(d.web_toast_border_opacity), 0.85);
    assert_eq!(f(d.web_toast_rounding), 8.0);
    assert_eq!(f(d.web_toast_border_width), 1.6);
    assert_eq!(f(d.web_tracking), 0.0);
    assert_eq!(f(d.web_line_gap), 0.0);
    assert_eq!(f(d.panel_rounding), 5.0);
    assert_eq!(f(d.border_width), 1.0);
    assert_eq!(f(d.panel_x), 24.0);
    assert_eq!(f(d.panel_y), 24.0);
    assert_eq!(f(d.panel_opacity), 0.3);
    assert_eq!(f(d.border_opacity), 0.9);
    assert_eq!(f(d.ui_scale), 1.0);
    assert_eq!(f(d.label_size), 16.0);
    assert_eq!(f(d.value_size), 18.0);
    assert_eq!(f(d.counter_size), 22.0);
    assert_eq!(f(d.boss_name_size), 16.0);
    assert_eq!(f(d.attempt_size), 18.0);
    assert_eq!(f(d.toast_label_size), 18.0);
    assert_eq!(f(d.toast_value_size), 18.0);
    assert_eq!(f(d.toast_width), 340.0);
    assert_eq!(f(d.toast_opacity), 0.3);
    assert_eq!(f(d.toast_border_opacity), 0.8);
    assert_eq!(f(d.toast_rounding), 5.0);
    assert_eq!(f(d.toast_border_width), 1.0);
    assert_eq!(f(d.tracking), 1.1);
    assert_eq!(f(d.line_gap), 4.0);
    assert_eq!(f(d.toast_x), 1520.0);
    assert_eq!(f(d.toast_y), 24.0);
    assert_eq!(f(d.boss_tag_offset_x), -70.0);
    assert_eq!(f(d.boss_tag_offset_y), -20.0);
    assert_eq!(f(d.enemy_tag_offset_x), -70.0);
    assert_eq!(f(d.enemy_tag_height), -20.0);
    assert_eq!(f(d.enemy_tag_size), 18.0);
    assert_eq!(f(d.enemy_say_offset_x), 0.0);
    assert_eq!(f(d.enemy_say_offset_y), -35.0);
    assert_eq!(f(d.enemy_say_secs), 10.0);
    assert_eq!(f(d.twitch_notify_secs), 10.0);
    assert_eq!(f(d.ally_x), 24.0);
    assert_eq!(f(d.ally_y), 300.0);
    assert_eq!(f(d.spawn_radius_m), 5.0);
    assert_eq!(f(d.boss_list_radius), 500.0);
    assert_eq!(f(d.nearest_radius), 200.0);
    assert!(d.overlay_enabled);
    assert!(!d.web_enabled);
    assert!(d.show_level);
    assert!(d.show_deaths);
    assert!(d.show_bosses);
    assert!(d.show_nearest_boss);
    assert!(d.show_boss_name);
    assert!(!d.show_all_boss_names);
    assert!(d.show_attempts);
    assert!(d.show_fight_timer);
    assert!(!d.show_runes);
    assert!(!d.show_runes_total);
    assert!(!d.show_playtime);
    assert!(!d.show_ng);
    assert!(!d.show_deathless);
    assert!(!d.show_map_explored);
    assert!(!d.show_deaths_on_boss);
    assert!(!d.show_boss_kill_rate);
    assert!(!d.show_death_rate);
    assert!(!d.show_avg_attempts);
    assert!(d.show_boss_bar);
    assert!(d.hide_in_cutscene);
    assert!(d.hide_in_menu);
    assert!(!d.debug);
    assert!(!d.twitch_enabled);
    assert!(d.twitch_notify_hud);
    assert!(!d.rewards_notice_seen);
    assert!(!d.secrets_plain);
    assert!(!d.show_viewer_kills);
    assert!(d.enemy_tags);
    assert!(d.enemy_tags_bosses);
    assert!(d.enemy_tags_mobs);
    assert!(!d.enemy_tag_say);
    assert!(!d.debug_spawn);
    assert!(d.show_allies);
    assert!(d.spawn_in_front);
    assert!(!d.spawn_in_boss);
    assert!(d.ally_spawn_in_boss);
    assert_eq!(d.web_port, 7777);
    assert_eq!(d.startup_delay_ms, 10_000);
    assert_eq!(d.boss_name_wrap, 18);
    assert_eq!(d.spawn_limit, 10);
    assert_eq!(d.accent_color, [0xDE, 0xB8, 0x70, 0xFF]);
    assert_eq!(d.label_color, [0xC2, 0xC2, 0xD1, 0xFF]);
    assert_eq!(d.value_color, [0xF2, 0xEB, 0xD6, 0xFF]);
    assert_eq!(d.enemy_tag_color, [0xE8, 0xD7, 0xA8, 0xFF]);
    assert_eq!(d.font_path, "C:\\Windows\\Fonts\\pala.ttf");
    assert_eq!((d.lang.as_str(), d.settings_key.as_str(), d.boss_list_key.as_str()), ("auto", "F7", "F8"));
    let mut c = Config::default();
    apply(&mut c, TEMPLATE);
    assert_eq!(written(&c), written(&d), "the file that is written first reads as the defaults");
}

#[test]
fn saving_twice_changes_nothing_more() {
    let values = pairs(&[("panel_x", "100"), ("show_level", "  no "), ("[odd", ""), ("lang", "en")]);
    for text in ["", "panel_x = 1", "panel_x=1\r\n; lang = ru\r\nlang=ru", "[added]\n\n", "a\r", "[odd = 3"] {
        let once = rewrite_values(text, &values);
        assert_ne!(once, text);
        assert_eq!(rewrite_values(&once, &values), once, "{text:?}");
    }
}

#[test]
fn two_files_in_one_act_in_turn() {
    let first = "panel_x = 5\nlang = ru\nshow_level = false";
    let second = "panel_x = 7\nshow_level = nonsense\ndebug = true\n";
    for first in [first.to_string(), format!("{first}\n"), format!("{first}\r"), String::new()] {
        let mut turns = Config::default();
        apply(&mut turns, &first);
        apply(&mut turns, second);
        let mut whole = Config::default();
        apply(&mut whole, &format!("{first}\n{second}"));
        assert_eq!(written(&whole), written(&turns));
        assert_eq!(whole.panel_x, s(7.0));
    }
}

#[test]
fn a_reset_is_written_again_as_it_was() {
    let d = Config::default();
    let mut c = Config::default();
    apply(&mut c, "panel_x = 5\nviewer_block = one, two\nui_scale = 3\n");
    assert_ne!(written(&c), written(&d));
    let text = rewrite_values("viewer_block = one, two\n", &written(&d));
    apply(&mut c, &text);
    assert_eq!(written(&c), written(&d));
    assert!(c.viewer_block.is_empty());
}
