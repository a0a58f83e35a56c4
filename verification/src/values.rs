//! Writing the settings out: the values that the settings window changes, the sizes
//! that the font depends on, and the file that is written when there is none.

use vstd::prelude::*;
use crate::config::{
    bool_key, color_text, color_to_hex, count_key, layout_key, source_key, style_key, Config,
};
use crate::scalar::Scalar;
use crate::text::{decimal, decimal_of, join, joined, string_of, texts};

verus! {

/// A value to be written to the settings file: a finished text, a number for which
/// the host writes the text, or a secret that the host protects first.
pub enum Shown {
    Text(String),
    Number(Scalar),
    Secret(String),
}

/// A value to be written, by the texts it holds.
pub enum ShownText {
    Text(Seq<char>),
    Number(Scalar),
    Secret(Seq<char>),
}

impl Shown {
    pub open spec fn text(self) -> ShownText {
        match self {
            Shown::Text(s) => ShownText::Text(s@),
            Shown::Number(n) => ShownText::Number(n),
            Shown::Secret(s) => ShownText::Secret(s@),
        }
    }
}

/// A list of values to be written, by the texts it holds.
pub open spec fn shown_texts(v: Seq<(&'static str, Shown)>) -> Seq<(Seq<char>, ShownText)> {
    v.map_values(|p: (&'static str, Shown)| (p.0@, p.1.text()))
}

/// How a switch is written.
#[verifier::opaque]
pub open spec fn switch(b: bool) -> ShownText {
    ShownText::Text(bool_key(b))
}

fn put(v: &mut Vec<(&'static str, Shown)>, key: &'static str, value: Shown)
    ensures
        shown_texts(final(v)@) == shown_texts(old(v)@).push((key@, value.text())),
{
    v.push((key, value));
    assert(shown_texts(v@) == shown_texts(old(v)@).push((key@, value.text())));
}

fn put_text(v: &mut Vec<(&'static str, Shown)>, key: &'static str, value: &str)
    ensures
        shown_texts(final(v)@) == shown_texts(old(v)@).push((key@, ShownText::Text(value@))),
{
    put(v, key, Shown::Text(value.to_string()));
}

fn put_flag(v: &mut Vec<(&'static str, Shown)>, key: &'static str, value: bool)
    ensures
        shown_texts(final(v)@) == shown_texts(old(v)@).push((key@, switch(value))),
{
    proof {
        reveal(switch);
    }
    if value {
        put_text(v, key, "true");
    } else {
        put_text(v, key, "false");
    }
}

impl Config {
    /// What the panel shows.
    pub open spec fn switches_values(self, v: Seq<(Seq<char>, ShownText)>) -> Seq<
        (Seq<char>, ShownText),
    > {
        v
            .push(("show_bosses"@, switch(self.show_bosses)))
            .push(("show_nearest_boss"@, switch(self.show_nearest_boss)))
            .push(("show_deaths"@, switch(self.show_deaths)))
            .push(("show_level"@, switch(self.show_level)))
            .push(("show_runes"@, switch(self.show_runes)))
            .push(("show_runes_total"@, switch(self.show_runes_total)))
            .push(("show_playtime"@, switch(self.show_playtime)))
            .push(("show_ng"@, switch(self.show_ng)))
    }

    fn put_switches(&self, v: &mut Vec<(&'static str, Shown)>)
        ensures
            shown_texts(final(v)@) == self.switches_values(shown_texts(old(v)@)),
    {
        put_flag(v, "show_bosses", self.show_bosses);
        put_flag(v, "show_nearest_boss", self.show_nearest_boss);
        put_flag(v, "show_deaths", self.show_deaths);
        put_flag(v, "show_level", self.show_level);
        put_flag(v, "show_runes", self.show_runes);
        put_flag(v, "show_runes_total", self.show_runes_total);
        put_flag(v, "show_playtime", self.show_playtime);
        put_flag(v, "show_ng", self.show_ng);
    }

    /// Totals and the boss being fought.
    pub open spec fn totals_values(self, v: Seq<(Seq<char>, ShownText)>) -> Seq<
        (Seq<char>, ShownText),
    > {
        v
            .push(("show_deathless"@, switch(self.show_deathless)))
            .push(("show_deaths_on_boss"@, switch(self.show_deaths_on_boss)))
            .push(("show_boss_kill_rate"@, switch(self.show_boss_kill_rate)))
            .push(("show_death_rate"@, switch(self.show_death_rate)))
            .push(("show_avg_attempts"@, switch(self.show_avg_attempts)))
            .push(("show_boss_bar"@, switch(self.show_boss_bar)))
            .push(("show_boss_name"@, switch(self.show_boss_name)))
            .push(("show_all_boss_names"@, switch(self.show_all_boss_names)))
            .push(("show_attempts"@, switch(self.show_attempts)))
            .push(("show_fight_timer"@, switch(self.show_fight_timer)))
            .push(("show_map_explored"@, switch(self.show_map_explored)))
    }

    fn put_totals(&self, v: &mut Vec<(&'static str, Shown)>)
        ensures
            shown_texts(final(v)@) == self.totals_values(shown_texts(old(v)@)),
    {
        put_flag(v, "show_deathless", self.show_deathless);
        put_flag(v, "show_deaths_on_boss", self.show_deaths_on_boss);
        put_flag(v, "show_boss_kill_rate", self.show_boss_kill_rate);
        put_flag(v, "show_death_rate", self.show_death_rate);
        put_flag(v, "show_avg_attempts", self.show_avg_attempts);
        put_flag(v, "show_boss_bar", self.show_boss_bar);
        put_flag(v, "show_boss_name", self.show_boss_name);
        put_flag(v, "show_all_boss_names", self.show_all_boss_names);
        put_flag(v, "show_attempts", self.show_attempts);
        put_flag(v, "show_fight_timer", self.show_fight_timer);
        put_flag(v, "show_map_explored", self.show_map_explored);
    }

    /// Layouts and frames.
    pub open spec fn frames_values(self, v: Seq<(Seq<char>, ShownText)>) -> Seq<
        (Seq<char>, ShownText),
    > {
        v
            .push(("layout"@, ShownText::Text(layout_key(self.layout))))
            .push(("panel_style"@, ShownText::Text(style_key(self.panel_style))))
            .push(("panel_rounding"@, ShownText::Number(self.panel_rounding)))
            .push(("border_width"@, ShownText::Number(self.border_width)))
            .push(("web_panel_style"@, ShownText::Text(style_key(self.web_panel_style))))
            .push(("web_panel_rounding"@, ShownText::Number(self.web_panel_rounding)))
            .push(("web_border_width"@, ShownText::Number(self.web_border_width)))
    }

    fn put_frames(&self, v: &mut Vec<(&'static str, Shown)>)
        ensures
            shown_texts(final(v)@) == self.frames_values(shown_texts(old(v)@)),
    {
        put_text(v, "layout", self.layout.as_key());
        put_text(v, "panel_style", self.panel_style.as_key());
        put(v, "panel_rounding", Shown::Number(self.panel_rounding));
        put(v, "border_width", Shown::Number(self.border_width));
        put_text(v, "web_panel_style", self.web_panel_style.as_key());
        put(v, "web_panel_rounding", Shown::Number(self.web_panel_rounding));
        put(v, "web_border_width", Shown::Number(self.web_border_width));
    }

    /// The widget in OBS.
    pub open spec fn widget_values(self, v: Seq<(Seq<char>, ShownText)>) -> Seq<
        (Seq<char>, ShownText),
    > {
        v
            .push(("web_layout"@, ShownText::Text(layout_key(self.web_layout))))
            .push(("web_opacity"@, ShownText::Number(self.web_opacity)))
            .push(("web_border_opacity"@, ShownText::Number(self.web_border_opacity)))
            .push(("web_scale"@, ShownText::Number(self.web_scale)))
            .push(("web_label_size"@, ShownText::Number(self.web_label_size)))
            .push(("web_value_size"@, ShownText::Number(self.web_value_size)))
            .push(("web_counter_size"@, ShownText::Number(self.web_counter_size)))
            .push(("web_boss_name_size"@, ShownText::Number(self.web_boss_name_size)))
            .push(("web_attempt_size"@, ShownText::Number(self.web_attempt_size)))
    }

    fn put_widget(&self, v: &mut Vec<(&'static str, Shown)>)
        ensures
            shown_texts(final(v)@) == self.widget_values(shown_texts(old(v)@)),
    {
        put_text(v, "web_layout", self.web_layout.as_key());
        put(v, "web_opacity", Shown::Number(self.web_opacity));
        put(v, "web_border_opacity", Shown::Number(self.web_border_opacity));
        put(v, "web_scale", Shown::Number(self.web_scale));
        put(v, "web_label_size", Shown::Number(self.web_label_size));
        put(v, "web_value_size", Shown::Number(self.web_value_size));
        put(v, "web_counter_size", Shown::Number(self.web_counter_size));
        put(v, "web_boss_name_size", Shown::Number(self.web_boss_name_size));
        put(v, "web_attempt_size", Shown::Number(self.web_attempt_size));
    }

    /// The card in OBS.
    pub open spec fn widget_card_values(self, v: Seq<(Seq<char>, ShownText)>) -> Seq<
        (Seq<char>, ShownText),
    > {
        v
            .push(("web_toast_label_size"@, ShownText::Number(self.web_toast_label_size)))
            .push(("web_toast_value_size"@, ShownText::Number(self.web_toast_value_size)))
            .push(("web_toast_width"@, ShownText::Number(self.web_toast_width)))
            .push(("web_toast_style"@, ShownText::Text(style_key(self.web_toast_style))))
            .push(("web_toast_opacity"@, ShownText::Number(self.web_toast_opacity)))
            .push(("web_toast_border_opacity"@, ShownText::Number(self.web_toast_border_opacity)))
            .push(("web_toast_rounding"@, ShownText::Number(self.web_toast_rounding)))
            .push(("web_toast_border_width"@, ShownText::Number(self.web_toast_border_width)))
            .push(("web_tracking"@, ShownText::Number(self.web_tracking)))
            .push(("web_line_gap"@, ShownText::Number(self.web_line_gap)))
    }

    fn put_widget_card(&self, v: &mut Vec<(&'static str, Shown)>)
        ensures
            shown_texts(final(v)@) == self.widget_card_values(shown_texts(old(v)@)),
    {
        put(v, "web_toast_label_size", Shown::Number(self.web_toast_label_size));
        put(v, "web_toast_value_size", Shown::Number(self.web_toast_value_size));
        put(v, "web_toast_width", Shown::Number(self.web_toast_width));
        put_text(v, "web_toast_style", self.web_toast_style.as_key());
        put(v, "web_toast_opacity", Shown::Number(self.web_toast_opacity));
        put(v, "web_toast_border_opacity", Shown::Number(self.web_toast_border_opacity));
        put(v, "web_toast_rounding", Shown::Number(self.web_toast_rounding));
        put(v, "web_toast_border_width", Shown::Number(self.web_toast_border_width));
        put(v, "web_tracking", Shown::Number(self.web_tracking));
        put(v, "web_line_gap", Shown::Number(self.web_line_gap));
    }

    /// The panel and its fonts.
    pub open spec fn panel_values(self, v: Seq<(Seq<char>, ShownText)>) -> Seq<
        (Seq<char>, ShownText),
    > {
        v
            .push(("boss_count"@, ShownText::Text(count_key(self.boss_count))))
            .push(("panel_x"@, ShownText::Number(self.panel_x)))
            .push(("panel_y"@, ShownText::Number(self.panel_y)))
            .push(("ui_scale"@, ShownText::Number(self.ui_scale)))
            .push(("panel_opacity"@, ShownText::Number(self.panel_opacity)))
            .push(("border_opacity"@, ShownText::Number(self.border_opacity)))
            .push(("label_size"@, ShownText::Number(self.label_size)))
            .push(("value_size"@, ShownText::Number(self.value_size)))
            .push(("counter_size"@, ShownText::Number(self.counter_size)))
            .push(("boss_name_size"@, ShownText::Number(self.boss_name_size)))
            .push(("boss_name_wrap"@, ShownText::Text(decimal(self.boss_name_wrap as nat))))
            .push(("attempt_size"@, ShownText::Number(self.attempt_size)))
    }

    fn put_panel(&self, v: &mut Vec<(&'static str, Shown)>)
        ensures
            shown_texts(final(v)@) == self.panel_values(shown_texts(old(v)@)),
    {
        put_text(v, "boss_count", self.boss_count.as_key());
        put(v, "panel_x", Shown::Number(self.panel_x));
        put(v, "panel_y", Shown::Number(self.panel_y));
        put(v, "ui_scale", Shown::Number(self.ui_scale));
        put(v, "panel_opacity", Shown::Number(self.panel_opacity));
        put(v, "border_opacity", Shown::Number(self.border_opacity));
        put(v, "label_size", Shown::Number(self.label_size));
        put(v, "value_size", Shown::Number(self.value_size));
        put(v, "counter_size", Shown::Number(self.counter_size));
        put(v, "boss_name_size", Shown::Number(self.boss_name_size));
        put_text(v, "boss_name_wrap", &string_of(&decimal_of(self.boss_name_wrap as u64)));
        put(v, "attempt_size", Shown::Number(self.attempt_size));
    }

    /// The card over the game.
    pub open spec fn card_values(self, v: Seq<(Seq<char>, ShownText)>) -> Seq<
        (Seq<char>, ShownText),
    > {
        v
            .push(("toast_label_size"@, ShownText::Number(self.toast_label_size)))
            .push(("toast_value_size"@, ShownText::Number(self.toast_value_size)))
            .push(("toast_width"@, ShownText::Number(self.toast_width)))
            .push(("toast_style"@, ShownText::Text(style_key(self.toast_style))))
            .push(("toast_opacity"@, ShownText::Number(self.toast_opacity)))
            .push(("toast_border_opacity"@, ShownText::Number(self.toast_border_opacity)))
            .push(("toast_rounding"@, ShownText::Number(self.toast_rounding)))
            .push(("toast_border_width"@, ShownText::Number(self.toast_border_width)))
            .push(("tracking"@, ShownText::Number(self.tracking)))
            .push(("line_gap"@, ShownText::Number(self.line_gap)))
    }

    fn put_card(&self, v: &mut Vec<(&'static str, Shown)>)
        ensures
            shown_texts(final(v)@) == self.card_values(shown_texts(old(v)@)),
    {
        put(v, "toast_label_size", Shown::Number(self.toast_label_size));
        put(v, "toast_value_size", Shown::Number(self.toast_value_size));
        put(v, "toast_width", Shown::Number(self.toast_width));
        put_text(v, "toast_style", self.toast_style.as_key());
        put(v, "toast_opacity", Shown::Number(self.toast_opacity));
        put(v, "toast_border_opacity", Shown::Number(self.toast_border_opacity));
        put(v, "toast_rounding", Shown::Number(self.toast_rounding));
        put(v, "toast_border_width", Shown::Number(self.toast_border_width));
        put(v, "tracking", Shown::Number(self.tracking));
        put(v, "line_gap", Shown::Number(self.line_gap));
    }

    /// Colors and what hides the panel.
    pub open spec fn look_values(self, v: Seq<(Seq<char>, ShownText)>) -> Seq<
        (Seq<char>, ShownText),
    > {
        v
            .push(("accent_color"@, ShownText::Text(color_text(self.accent_color))))
            .push(("label_color"@, ShownText::Text(color_text(self.label_color))))
            .push(("value_color"@, ShownText::Text(color_text(self.value_color))))
            .push(("overlay_enabled"@, switch(self.overlay_enabled)))
            .push(("hide_in_cutscene"@, switch(self.hide_in_cutscene)))
            .push(("hide_in_menu"@, switch(self.hide_in_menu)))
            .push(("debug"@, switch(self.debug)))
            .push(("lang"@, ShownText::Text(self.lang@)))
    }

    fn put_look(&self, v: &mut Vec<(&'static str, Shown)>)
        ensures
            shown_texts(final(v)@) == self.look_values(shown_texts(old(v)@)),
    {
        put_text(v, "accent_color", &color_to_hex(self.accent_color));
        put_text(v, "label_color", &color_to_hex(self.label_color));
        put_text(v, "value_color", &color_to_hex(self.value_color));
        put_flag(v, "overlay_enabled", self.overlay_enabled);
        put_flag(v, "hide_in_cutscene", self.hide_in_cutscene);
        put_flag(v, "hide_in_menu", self.hide_in_menu);
        put_flag(v, "debug", self.debug);
        put_text(v, "lang", &self.lang);
    }

    /// Twitch.
    pub open spec fn twitch_values(self, v: Seq<(Seq<char>, ShownText)>) -> Seq<
        (Seq<char>, ShownText),
    > {
        v
            .push(("twitch_enabled"@, switch(self.twitch_enabled)))
            .push(("twitch_client_id"@, ShownText::Secret(self.twitch_client_id@)))
            .push(("twitch_notify_hud"@, switch(self.twitch_notify_hud)))
            .push(("toast_x"@, ShownText::Number(self.toast_x)))
            .push(("toast_y"@, ShownText::Number(self.toast_y)))
            .push(("rewards_notice_seen"@, switch(self.rewards_notice_seen)))
            .push(("twitch_channel"@, ShownText::Text(self.twitch_channel@)))
    }

    fn put_twitch(&self, v: &mut Vec<(&'static str, Shown)>)
        ensures
            shown_texts(final(v)@) == self.twitch_values(shown_texts(old(v)@)),
    {
        put_flag(v, "twitch_enabled", self.twitch_enabled);
        put(v, "twitch_client_id", Shown::Secret(self.twitch_client_id.clone()));
        put_flag(v, "twitch_notify_hud", self.twitch_notify_hud);
        put(v, "toast_x", Shown::Number(self.toast_x));
        put(v, "toast_y", Shown::Number(self.toast_y));
        put_flag(v, "rewards_notice_seen", self.rewards_notice_seen);
        put_text(v, "twitch_channel", &self.twitch_channel);
    }

    /// Nicknames over enemies.
    pub open spec fn nicknames_values(self, v: Seq<(Seq<char>, ShownText)>) -> Seq<
        (Seq<char>, ShownText),
    > {
        v
            .push(("show_viewer_kills"@, switch(self.show_viewer_kills)))
            .push(("enemy_tags"@, switch(self.enemy_tags)))
            .push(("enemy_tags_bosses"@, switch(self.enemy_tags_bosses)))
            .push(("enemy_tags_mobs"@, switch(self.enemy_tags_mobs)))
            .push(("boss_tag_offset_x"@, ShownText::Number(self.boss_tag_offset_x)))
            .push(("boss_tag_offset_y"@, ShownText::Number(self.boss_tag_offset_y)))
            .push(("enemy_tag_offset_x"@, ShownText::Number(self.enemy_tag_offset_x)))
            .push(("enemy_tag_height"@, ShownText::Number(self.enemy_tag_height)))
            .push(("enemy_tag_size"@, ShownText::Number(self.enemy_tag_size)))
            .push(("enemy_tag_say"@, switch(self.enemy_tag_say)))
            .push(("enemy_say_offset_x"@, ShownText::Number(self.enemy_say_offset_x)))
            .push(("enemy_say_offset_y"@, ShownText::Number(self.enemy_say_offset_y)))
            .push(("enemy_say_secs"@, ShownText::Number(self.enemy_say_secs)))
    }

    fn put_nicknames(&self, v: &mut Vec<(&'static str, Shown)>)
        ensures
            shown_texts(final(v)@) == self.nicknames_values(shown_texts(old(v)@)),
    {
        put_flag(v, "show_viewer_kills", self.show_viewer_kills);
        put_flag(v, "enemy_tags", self.enemy_tags);
        put_flag(v, "enemy_tags_bosses", self.enemy_tags_bosses);
        put_flag(v, "enemy_tags_mobs", self.enemy_tags_mobs);
        put(v, "boss_tag_offset_x", Shown::Number(self.boss_tag_offset_x));
        put(v, "boss_tag_offset_y", Shown::Number(self.boss_tag_offset_y));
        put(v, "enemy_tag_offset_x", Shown::Number(self.enemy_tag_offset_x));
        put(v, "enemy_tag_height", Shown::Number(self.enemy_tag_height));
        put(v, "enemy_tag_size", Shown::Number(self.enemy_tag_size));
        put_flag(v, "enemy_tag_say", self.enemy_tag_say);
        put(v, "enemy_say_offset_x", Shown::Number(self.enemy_say_offset_x));
        put(v, "enemy_say_offset_y", Shown::Number(self.enemy_say_offset_y));
        put(v, "enemy_say_secs", Shown::Number(self.enemy_say_secs));
    }

    /// Viewers.
    pub open spec fn viewers_values(self, v: Seq<(Seq<char>, ShownText)>) -> Seq<
        (Seq<char>, ShownText),
    > {
        v
            .push(("viewers_source"@, ShownText::Text(source_key(self.viewers_source))))
            .push(("viewer_block"@, ShownText::Text(join(texts(self.viewer_block@), ","@))))
            .push(("viewer_bots_off"@, ShownText::Text(join(texts(self.viewer_bots_off@), ","@))))
            .push(("viewer_bots_extra"@, ShownText::Text(join(texts(self.viewer_bots_extra@), ","@))))
            .push(("enemy_tag_color"@, ShownText::Text(color_text(self.enemy_tag_color))))
            .push(("twitch_notify_secs"@, ShownText::Number(self.twitch_notify_secs)))
    }

    fn put_viewers(&self, v: &mut Vec<(&'static str, Shown)>)
        ensures
            shown_texts(final(v)@) == self.viewers_values(shown_texts(old(v)@)),
    {
        put_text(v, "viewers_source", self.viewers_source.as_key());
        put_text(v, "viewer_block", &string_of(&joined(&self.viewer_block, ",")));
        put_text(v, "viewer_bots_off", &string_of(&joined(&self.viewer_bots_off, ",")));
        put_text(v, "viewer_bots_extra", &string_of(&joined(&self.viewer_bots_extra, ",")));
        put_text(v, "enemy_tag_color", &color_to_hex(self.enemy_tag_color));
        put(v, "twitch_notify_secs", Shown::Number(self.twitch_notify_secs));
    }

    /// Enemies and allies that viewers send.
    pub open spec fn spawn_values(self, v: Seq<(Seq<char>, ShownText)>) -> Seq<
        (Seq<char>, ShownText),
    > {
        v
            .push(("spawn_limit"@, ShownText::Text(decimal(self.spawn_limit as nat))))
            .push(("debug_spawn"@, switch(self.debug_spawn)))
            .push(("show_allies"@, switch(self.show_allies)))
            .push(("ally_x"@, ShownText::Number(self.ally_x)))
            .push(("ally_y"@, ShownText::Number(self.ally_y)))
            .push(("spawn_radius_m"@, ShownText::Number(self.spawn_radius_m)))
            .push(("spawn_in_front"@, switch(self.spawn_in_front)))
            .push(("spawn_in_boss"@, switch(self.spawn_in_boss)))
            .push(("ally_spawn_in_boss"@, switch(self.ally_spawn_in_boss)))
            .push(("boss_list_radius"@, ShownText::Number(self.boss_list_radius)))
            .push(("nearest_radius"@, ShownText::Number(self.nearest_radius)))
    }

    fn put_spawn(&self, v: &mut Vec<(&'static str, Shown)>)
        ensures
            shown_texts(final(v)@) == self.spawn_values(shown_texts(old(v)@)),
    {
        put_text(v, "spawn_limit", &string_of(&decimal_of(self.spawn_limit as u64)));
        put_flag(v, "debug_spawn", self.debug_spawn);
        put_flag(v, "show_allies", self.show_allies);
        put(v, "ally_x", Shown::Number(self.ally_x));
        put(v, "ally_y", Shown::Number(self.ally_y));
        put(v, "spawn_radius_m", Shown::Number(self.spawn_radius_m));
        put_flag(v, "spawn_in_front", self.spawn_in_front);
        put_flag(v, "spawn_in_boss", self.spawn_in_boss);
        put_flag(v, "ally_spawn_in_boss", self.ally_spawn_in_boss);
        put(v, "boss_list_radius", Shown::Number(self.boss_list_radius));
        put(v, "nearest_radius", Shown::Number(self.nearest_radius));
    }

    /// The values that the settings window can change, with their keys.
    pub open spec fn shown_values(self) -> Seq<(Seq<char>, ShownText)> {
        let v: Seq<(Seq<char>, ShownText)> = self.switches_values(Seq::empty());
        let v: Seq<(Seq<char>, ShownText)> = self.totals_values(v);
        let v: Seq<(Seq<char>, ShownText)> = self.frames_values(v);
        let v: Seq<(Seq<char>, ShownText)> = self.widget_values(v);
        let v: Seq<(Seq<char>, ShownText)> = self.widget_card_values(v);
        let v: Seq<(Seq<char>, ShownText)> = self.panel_values(v);
        let v: Seq<(Seq<char>, ShownText)> = self.card_values(v);
        let v: Seq<(Seq<char>, ShownText)> = self.look_values(v);
        let v: Seq<(Seq<char>, ShownText)> = self.twitch_values(v);
        let v: Seq<(Seq<char>, ShownText)> = self.nicknames_values(v);
        let v: Seq<(Seq<char>, ShownText)> = self.viewers_values(v);
        let v: Seq<(Seq<char>, ShownText)> = self.spawn_values(v);
        v
    }

    /// Every value that the settings window can change, with its key: what a reset
    /// writes to the file, so that no old line brings an old value back.
    pub fn all_values(&self) -> (r: Vec<(&'static str, Shown)>)
        ensures
            shown_texts(r@) == self.shown_values(),
    {
        let mut v: Vec<(&'static str, Shown)> = Vec::new();
        assert(shown_texts(v@) == Seq::<(Seq<char>, ShownText)>::empty());
        self.put_switches(&mut v);
        self.put_totals(&mut v);
        self.put_frames(&mut v);
        self.put_widget(&mut v);
        self.put_widget_card(&mut v);
        self.put_panel(&mut v);
        self.put_card(&mut v);
        self.put_look(&mut v);
        self.put_twitch(&mut v);
        self.put_nicknames(&mut v);
        self.put_viewers(&mut v);
        self.put_spawn(&mut v);
        v
    }

    /// The font sizes that the font atlas depends on.
    pub open spec fn atlas_sizes(self) -> Seq<Scalar> {
        seq![
            self.label_size,
            self.value_size,
            self.counter_size,
            self.boss_name_size,
            self.attempt_size,
            self.toast_value_size.larger(self.toast_label_size),
            self.enemy_tag_size,
        ]
    }

    /// The font sizes that the font atlas depends on, in the order in which
    /// `font_signature` takes their texts.
    pub fn font_sizes(&self) -> (r: Vec<Scalar>)
        ensures
            r@ == self.atlas_sizes(),
    {
        let v: Vec<Scalar> = vec![
            self.label_size,
            self.value_size,
            self.counter_size,
            self.boss_name_size,
            self.attempt_size,
            self.toast_value_size.max(self.toast_label_size),
            self.enemy_tag_size,
        ];
        assert(v@ == self.atlas_sizes());
        v
    }

    /// The text by which two states of the font atlas are told apart.
    pub open spec fn atlas_signature(self, active: Seq<char>, sizes: Seq<Seq<char>>) -> Seq<char> {
        join(seq![active, self.font_path@] + sizes, "|"@)
    }

    /// All that the font atlas depends on, as one text: as long as it stays the same
    /// the atlas need not be built again. `active` is the interface language, whose
    /// letters the atlas holds, and `sizes` are the texts of `font_sizes`.
    pub fn font_signature(&self, active: &str, sizes: &Vec<String>) -> (r: String)
        ensures
            r@ == self.atlas_signature(active@, texts(sizes@)),
    {
        let mut parts: Vec<String> = Vec::new();
        parts.push(active.to_string());
        parts.push(self.font_path.clone());
        for i in 0..sizes.len()
            invariant
                texts(parts@) == seq![active@, self.font_path@] + texts(sizes@).take(i as int),
        {
            let ghost before = parts@;
            parts.push(sizes[i].clone());
            proof {
                assert(texts(parts@) == texts(before).push(sizes@[i as int]@));
                assert(texts(sizes@).take(i + 1) == texts(sizes@).take(i as int).push(
                    sizes@[i as int]@,
                ));
                assert(texts(parts@) == seq![active@, self.font_path@] + texts(sizes@).take(i + 1));
            }
        }
        assert(texts(sizes@).take(sizes@.len() as int) == texts(sizes@));
        string_of(&joined(&parts, "|"))
    }

    /// Whether scaling by `k` changes font sizes: it does not for what is no positive
    /// finite number, nor for 1 or the number just below it.
    pub open spec fn scales(k: Scalar) -> bool {
        &&& k.rank() > 0
        &&& k.magnitude() < 0x7F80_0000
        &&& k.bits != 0x3F80_0000
        &&& k.bits != 0x3F7F_FFFF
    }

    /// The settings after scaling by `k`.
    pub open spec fn scaled_by(self, k: Scalar, scaled: Seq<Scalar>) -> Config {
        if Config::scales(k) {
            Config {
                label_size: scaled[0],
                value_size: scaled[1],
                counter_size: scaled[2],
                boss_name_size: scaled[3],
                attempt_size: scaled[4],
                ..self
            }
        } else {
            self
        }
    }

    /// Scales the font sizes by `k`. `scaled` is what the host made of them: the
    /// labels, the values, the counter, the boss name and the attempts, each times
    /// `k`. A scale that makes no sense changes nothing.
    pub fn apply_scale(&mut self, k: Scalar, scaled: [Scalar; 5])
        ensures
            *final(self) == old(self).scaled_by(k, scaled@),
    {
        if k.order() > 0 && k.bits % 0x8000_0000 < 0x7F80_0000 && k.bits != 0x3F80_0000 && k.bits
            != 0x3F7F_FFFF {
            self.label_size = scaled[0];
            self.value_size = scaled[1];
            self.counter_size = scaled[2];
            self.boss_name_size = scaled[3];
            self.attempt_size = scaled[4];
        }
    }
}

/// The settings file that is written when there is none.
pub const TEMPLATE: &'static str = r##"; Game Information Counter - a stats HUD for Elden Ring streams.
;
; Edit this file by hand, or press F7 in game: the settings window writes here.
; The interface text lives in the locale folder next to the DLL - drop another
; file in there to add a language.

[output]

; The overlay drawn on top of the game.
overlay_enabled = true

; A web page for an OBS Browser Source, at http://127.0.0.1:<port>/
; Two separate sources: /hud for the stats, /toasts for viewer purchases.
web_enabled = false
web_port = 7777

; Wait before the overlay starts, ms. Raise it if the game hangs on
; startup, lower it if the HUD takes too long to appear.
startup_delay_ms = 10000

; Interface language: auto, or the name of a file in the locale folder.
; auto follows the language the game itself speaks (the Steam per-game setting).
lang = auto

; A window with raw values, drawn even when the HUD is hidden.
; Turn it on if the HUD never shows up.
debug = false

[show]

; The numbers on the panel.
show_level = true
show_deaths = true
show_bosses = true
show_runes = false
show_runes_total = false
show_playtime = false
show_ng = false
show_deathless = false

; Visited play regions, as a percent.
show_map_explored = false

; The progress bar under the boss counter, separately from the counter.
show_boss_bar = true

; The closest boss that is still alive, and how far away he is.
show_nearest_boss = true

; These three appear only while a boss health bar is on screen.
show_boss_name = true
show_attempts = true
show_fight_timer = true

; Both names of a twin boss, one per line, instead of only the first.
show_all_boss_names = false

; Deaths on bosses over the whole history, and how many of those the viewers
; caused (their enemy killed you, or their meddling did).
show_deaths_on_boss = false
show_viewer_kills = false

; Pace: bosses per hour, deaths per hour, deaths per killed boss.
show_boss_kill_rate = false
show_death_rate = false
show_avg_attempts = false

; Which bosses count towards X/Y.
;   named - the named ones only
;   all   - every GameAreaParam row, minibosses and repeats included
; Both numbers come from the game itself, so a mod that adds bosses raises the
; total on its own.
boss_count = all

[panel]

; Panel layout.
;   a - values large, labels under them, two columns
;   b - one horizontal strip
;   d - a list: label on the left, value on the right
layout = d

; Panel frame.
;   frame     - a border all around
;   bare      - no background and no lines, text only
;   bar       - dark fill and an accent bar on the left
;   bar_right - the same bar on the right
panel_style = frame

; Corner radius and gold line width, pixels (both scaled by ui_scale).
panel_rounding = 5
border_width = 1.0

; Where the panel sits, pixels. Drag it in F7 -> Panel.
panel_x = 24
panel_y = 24

; Plate fill and gold line brightness, 0 to 1.
panel_opacity = 0.3
border_opacity = 0.9

; Scales the whole panel: spacing, lines and font sizes alike.
ui_scale = 1.0

; Hide the HUD during cutscenes and while a game menu is open.
hide_in_cutscene = true
hide_in_menu = true

[colors]

; RRGGBB or RRGGBBAA. Shared by the panel and the OBS widget.
accent_color = DEB870
label_color = C2C2D1
value_color = F2EBD6

[fonts]

; Any TTF. Only the glyphs the interface actually needs are baked, so a font
; without Cyrillic (or without CJK) shows those languages as question marks.
font_path = C:\Windows\Fonts\pala.ttf

; Font sizes on the panel, pixels before ui_scale.
label_size = 16
value_size = 18
counter_size = 22
boss_name_size = 16

; Boss names longer than this wrap onto the next line. 0 - never wrap.
boss_name_wrap = 18

; The "deaths / fight time" rows, which have their own size.
attempt_size = 18

; Space between letters in labels and between rows, pixels.
tracking = 1.1
line_gap = 4

[toast]

; The "a viewer bought ..." card over the game.
twitch_notify_hud = true

; Where the card sits, pixels. Drag it in F7 -> Panel.
toast_x = 1520
toast_y = 24

; How long the card stays up, seconds. A timed effect keeps its card for as
; long as it runs.
twitch_notify_secs = 10

; The card has its own frame, sizes and colors - it sits in a corner, away from
; the panel. Values are the same as the panel ones above.
toast_style = bar
toast_rounding = 5
toast_border_width = 1.0
toast_opacity = 0.3
toast_border_opacity = 0.8
toast_label_size = 18
toast_value_size = 18

; The card never grows wider than this, pixels.
toast_width = 340

[obs]

; The widget hangs over an OBS scene, not over the game, so it is configured
; apart from the overlay. The keys mean the same as the ones above.
web_opacity = 0.65
web_border_opacity = 0.85
web_scale = 2.3
web_layout = d
web_panel_style = frame
web_panel_rounding = 8
web_border_width = 1.6
web_label_size = 14
web_value_size = 15
web_counter_size = 20
web_boss_name_size = 14
web_attempt_size = 15
web_tracking = 0
web_line_gap = 0

; The purchase card in OBS: its own source, its own size.
web_toast_style = frame
web_toast_rounding = 8
web_toast_border_width = 1.6
web_toast_opacity = 0.65
web_toast_border_opacity = 0.85
web_toast_label_size = 14
web_toast_value_size = 15
web_toast_width = 340

[twitch]

; Viewers spend channel points and something happens in the game.
;
; How to turn it on:
;   1. dev.twitch.tv/console/apps/create - register an application.
;      Client Type must be Public, OAuth Redirect URL - http://localhost
;   2. Paste the Client ID below. Plain text is fine: on the first run the mod
;      rewrites it encrypted (enc:...) against your Windows account, and such a
;      line is unreadable on any other machine.
;   3. Set twitch_enabled = true. No restart needed.
;   4. In game: F7 -> Twitch -> Connect. A code appears for twitch.tv/activate.
;   5. Create the rewards on the Twitch dashboard, or in F7 -> Rewards.
;
; The token is saved next to this file, encrypted the same way. Do not share
; either file: on your machine they work.
twitch_enabled = false
twitch_client_id =

; The channel whose chat is read for viewer nicknames. Name or a full link.
; No authorization needed for this - Twitch chat is read anonymously.
twitch_channel =

; The "rewards need Twitch" notice was dismissed. Set to 0 to see it again.
rewards_notice_seen = false

; Where the viewer list comes from.
;   auto - the app while it answers, chat otherwise
;   app  - the app only: everyone, lurkers included (needs moderator:read:chatters)
;   chat - chat only: whoever types
viewers_source = auto

; Viewers that never get labeled, comma separated.
viewer_block =

; Chat bots and the streamer never get labeled. The built-in list is edited in
; F7 -> Twitch -> Viewers; only your changes to it live here.
viewer_bots_off =
viewer_bots_extra =

[spawn]

; How many spawned enemies may be in the world at once.
spawn_limit = 10



debug_spawn = false

; Show summoned allies with their health and time left.
show_allies = true
ally_x = 24
ally_y = 300

; How far from the player it appears, meters.
spawn_radius_m = 5

; Put it in front of the camera instead of anywhere around the player.
spawn_in_front = true

; Allow spawning while a boss health bar is on screen.
spawn_in_boss = false
ally_spawn_in_boss = true

; How far the boss list looks for nearby bosses, meters.
boss_list_radius = 500

; How far the nearest boss is still shown on the panel, in meters.
nearest_radius = 200

[nicknames]

; Viewer nicknames over enemies.
enemy_tags = true
enemy_tags_mobs = true
enemy_tags_bosses = true

; Label size and color.
enemy_tag_size = 18
enemy_tag_color = E8D7A8

; Label offset from the enemy health bar. Given in the game's UI units
; (1920x1080) and rescaled to your resolution on its own.
enemy_tag_offset_x = -70
enemy_tag_height = -20

; The same for a boss, whose label is placed above his head.
boss_tag_offset_x = -70
boss_tag_offset_y = -20

; The viewer's last chat message, under their nickname. Off by default:
; this is someone else's text on your stream.
enemy_tag_say = false
enemy_say_offset_x = 0
enemy_say_offset_y = -35

; How long the message stays up, counted from when it first appeared.
enemy_say_secs = 10

[keys]

; The settings window and the boss list.
settings_key = F7
boss_list_key = F8
"##;

} // verus!
