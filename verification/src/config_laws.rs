//! What holds of the settings and the file they are kept in: what is written there is read
//! back.

use vstd::prelude::*;
use crate::config::{
    bool_from, bool_key, channel, channels, color, color_from, color_text,
    count_from, count_key, count_word, either, flag, hex_char, hex_digit, inverted, is_last, last,
    layout_from, layout_key, layout_word, lowercase, nick_list, nicks, nicks_in, number, scale, secret,
    source_from, source_key, source_word, style_from, style_key, style_word, unhashed, whole,
    words, BossCount, Config, Entry, Layout, PanelStyle, ViewerSource, GREATEST_SCALE, LEAST_SCALE,
};
use crate::scalar::Scalar;
use crate::text::{
    ascii_lower, decimal, decimal_reads_back, fields, is_white, join, lemma_first_at, lemma_first_at_is, lower,
    texts, trim, trim_end, trim_start,
};
use crate::values::{switch, ShownText};

verus! {

// ---------------------------------------------------------------------------
// Words
// ---------------------------------------------------------------------------

proof fn lemma_plain(s: Seq<char>)
    requires
        s.len() > 0,
        !is_white(s[0]),
        !is_white(s.last()),
        forall|i: int| 0 <= i < s.len() ==> lower(#[trigger] s[i]) == s[i],
    ensures
        trim(s) == s,
        ascii_lower(s) == s,
        ascii_lower(trim(s)) == s,
{
    assert(trim_start(s) == s);
    assert(trim_end(s) == s);
    assert(ascii_lower(s) == s);
}

/// The word of a layout reads as that layout.
pub proof fn layouts_read_back(x: Layout)
    ensures
        layout_from(layout_key(x)) == Some(x),
{
    reveal_strlit("a");
    reveal_strlit("b");
    reveal_strlit("d");
    lemma_plain(layout_key(x));
    assert("a"@[0] == 'a' && "b"@[0] == 'b' && "d"@[0] == 'd');
}

/// The word of a frame reads as that frame.
pub proof fn frames_read_back(x: PanelStyle)
    ensures
        style_from(style_key(x)) == Some(x),
{
    reveal_strlit("frame");
    reveal_strlit("bare");
    reveal_strlit("none");
    reveal_strlit("bar");
    reveal_strlit("bar_left");
    reveal_strlit("bar_right");
    reveal_strlit("barright");
    lemma_plain(style_key(x));
    assert("frame"@[0] == 'f' && "bare"@[0] == 'b' && "none"@[0] == 'n' && "bar"@[0] == 'b');
    assert("frame"@.len() == 5 && "bare"@.len() == 4 && "none"@.len() == 4 && "bar"@.len() == 3);
    assert("bar_left"@.len() == 8 && "bar_right"@.len() == 9 && "barright"@.len() == 8);
}

/// The word of a source of viewers reads as that source.
pub proof fn sources_read_back(x: ViewerSource)
    ensures
        source_from(source_key(x)) == Some(x),
{
    reveal_strlit("auto");
    reveal_strlit("app");
    reveal_strlit("chat");
    reveal_strlit("helix");
    reveal_strlit("link");
    lemma_plain(source_key(x));
    assert("auto"@.len() == 4 && "app"@.len() == 3 && "chat"@.len() == 4 && "helix"@.len() == 5);
    assert("auto"@[0] == 'a' && "chat"@[0] == 'c' && "link"@[0] == 'l');
}

/// The word of a set of bosses reads as that set.
pub proof fn counts_read_back(x: BossCount)
    ensures
        count_from(count_key(x)) == Some(x),
{
    reveal_strlit("named");
    reveal_strlit("all");
    lemma_plain(count_key(x));
    assert("named"@.len() == 5 && "all"@.len() == 3);
}

/// The word of a switch reads as that switch.
pub proof fn switches_read_back(x: bool)
    ensures
        bool_from(bool_key(x)) == Some(x),
{
    reveal_strlit("1");
    reveal_strlit("true");
    reveal_strlit("yes");
    reveal_strlit("on");
    reveal_strlit("0");
    reveal_strlit("false");
    reveal_strlit("no");
    reveal_strlit("off");
    lemma_plain(bool_key(x));
    assert("true"@.len() == 4 && "false"@.len() == 5);
    assert("1"@.len() == 1 && "yes"@.len() == 3 && "on"@.len() == 2);
}

proof fn lemma_hex(d: nat)
    requires
        d < 16,
    ensures
        hex_digit(hex_char(d)) == Some(d),
        hex_char(d) != '#',
        !is_white(hex_char(d)),
{
}

proof fn lemma_channel(n: nat)
    requires
        n < 256,
    ensures
        channel(hex_char(n / 16), hex_char(n % 16)) == Some(n),
{
    lemma_hex(n / 16);
    lemma_hex(n % 16);
    assert(n / 16 * 16 + n % 16 == n);
}

/// A color that was written reads as the same color.
pub proof fn colors_read_back(x: [u8; 4])
    ensures
        color_from(color_text(x)) == Some(channels(x)),
{
    let s = color_text(x);
    assert(s.len() == 8);
    let (r, g, b, a) = (x@[0] as nat, x@[1] as nat, x@[2] as nat, x@[3] as nat);
    lemma_channel(r);
    lemma_channel(g);
    lemma_channel(b);
    lemma_channel(a);
    lemma_hex(r / 16);
    lemma_hex(a % 16);
    assert(s[0] == hex_char(r / 16) && s[1] == hex_char(r % 16));
    assert(s[2] == hex_char(g / 16) && s[3] == hex_char(g % 16));
    assert(s[4] == hex_char(b / 16) && s[5] == hex_char(b % 16));
    assert(s[6] == hex_char(a / 16) && s[7] == hex_char(a % 16));
    assert(s.last() == s[7]);
    assert(trim_start(s) == s);
    assert(trim_end(s) == s);
    assert(unhashed(s) == s);
    assert(channels(x) == seq![r, g, b, a]);
}

// ---------------------------------------------------------------------------
// A key
// ---------------------------------------------------------------------------

/// A line says what was written.
pub open spec fn says(e: Entry, v: ShownText) -> bool {
    match v {
        ShownText::Text(s) => e.value == s,
        ShownText::Number(n) => e.number == Some(n),
        ShownText::Secret(s) => e.revealed == s,
    }
}

/// The lines tell what was written under a key: some line does, and none says otherwise.
#[verifier::opaque]
pub open spec fn told(es: Seq<Entry>, key: Seq<char>, v: ShownText) -> bool {
    &&& exists|i: int| 0 <= i < es.len() && (#[trigger] es[i]).key == key
    &&& forall|i: int| 0 <= i < es.len() && (#[trigger] es[i]).key == key ==> says(es[i], v)
}

/// The lines tell all that was written.
pub open spec fn all_told(es: Seq<Entry>, vs: Seq<(Seq<char>, ShownText)>) -> bool {
    forall|i: int| 0 <= i < vs.len() ==> told(es, (#[trigger] vs[i]).0, vs[i].1)
}

/// No line uses a key that only old files have: `title_size` and `spawn_block_in_boss`
/// still read the settings that have other keys now.
pub open spec fn no_old_keys(es: Seq<Entry>) -> bool {
    forall|i: int|
        0 <= i < es.len() ==> (#[trigger] es[i]).key != "title_size"@ && es[i].key
            != "spawn_block_in_boss"@
}

proof fn lemma_last<T>(es: Seq<Entry>, read: spec_fn(Entry) -> Option<T>, before: T, x: T)
    requires
        forall|i: int|
            0 <= i < es.len() ==> read(#[trigger] es[i]) is None || read(es[i]) == Some(x),
    ensures
        last(es, read, before) == x || last(es, read, before) == before,
        (exists|i: int| 0 <= i < es.len() && read(#[trigger] es[i]) == Some(x)) ==> last(
            es,
            read,
            before,
        ) == x,
    decreases es.len(),
{
    reveal(last);
    if es.len() > 0 {
        let front = es.drop_last();
        assert forall|i: int| 0 <= i < front.len() implies read(#[trigger] front[i]) is None
            || read(front[i]) == Some(x) by {
            assert(front[i] == es[i]);
        }
        lemma_last(front, read, before, x);
        assert(read(es[es.len() - 1]) is None || read(es[es.len() - 1]) == Some(x));
        if exists|i: int| 0 <= i < es.len() && read(#[trigger] es[i]) == Some(x) {
            let i = choose|i: int| 0 <= i < es.len() && read(#[trigger] es[i]) == Some(x);
            if i < front.len() {
                assert(read(front[i]) == Some(x));
            }
        }
    }
}

proof fn lemma_told<T>(
    now: T,
    es: Seq<Entry>,
    read: spec_fn(Entry) -> Option<T>,
    before: T,
    key: Seq<char>,
    v: ShownText,
    x: T,
)
    requires
        is_last(now, es, read, before),
        told(es, key, v),
        forall|i: int|
            0 <= i < es.len() ==> if (#[trigger] es[i]).key == key {
                says(es[i], v) ==> read(es[i]) == Some(x)
            } else {
                read(es[i]) is None
            },
    ensures
        now == x,
{
    reveal(is_last);
    reveal(told);
    assert forall|i: int| 0 <= i < es.len() implies read(#[trigger] es[i]) is None || read(es[i])
        == Some(x) by {
        if es[i].key == key {
            assert(says(es[i], v));
        }
    }
    let i = choose|i: int| 0 <= i < es.len() && (#[trigger] es[i]).key == key;
    assert(read(es[i]) == Some(x));
    lemma_last(es, read, before, x);
}

proof fn lemma_flag(now: bool, es: Seq<Entry>, before: bool, key: Seq<char>, x: bool)
    requires
        is_last(now, es, flag(key), before),
        told(es, key, switch(x)),
    ensures
        now == x,
{
    reveal(flag);
    reveal(switch);
    switches_read_back(x);
    lemma_told(now, es, flag(key), before, key, switch(x), x);
}

proof fn lemma_in_boss(now: bool, es: Seq<Entry>, before: bool, x: bool)
    requires
        is_last(
            now,
            es,
            either(flag("spawn_in_boss"@), inverted("spawn_block_in_boss"@)),
            before,
        ),
        told(es, "spawn_in_boss"@, switch(x)),
        no_old_keys(es),
    ensures
        now == x,
{
    reveal(flag);
    reveal(inverted);
    reveal(switch);
    switches_read_back(x);
    lemma_told(
        now,
        es,
        either(flag("spawn_in_boss"@), inverted("spawn_block_in_boss"@)),
        before,
        "spawn_in_boss"@,
        switch(x),
        x,
    );
}

proof fn lemma_number(now: Scalar, es: Seq<Entry>, before: Scalar, key: Seq<char>, x: Scalar)
    requires
        is_last(now, es, number(key), before),
        told(es, key, ShownText::Number(x)),
    ensures
        now == x,
{
    reveal(number);
    lemma_told(now, es, number(key), before, key, ShownText::Number(x), x);
}

proof fn lemma_counter(now: Scalar, es: Seq<Entry>, before: Scalar, x: Scalar)
    requires
        is_last(now, es, either(number("counter_size"@), number("title_size"@)), before),
        told(es, "counter_size"@, ShownText::Number(x)),
        no_old_keys(es),
    ensures
        now == x,
{
    reveal(number);
    lemma_told(
        now,
        es,
        either(number("counter_size"@), number("title_size"@)),
        before,
        "counter_size"@,
        ShownText::Number(x),
        x,
    );
}

proof fn lemma_scale(now: Scalar, es: Seq<Entry>, before: Scalar, key: Seq<char>, x: Scalar)
    requires
        is_last(now, es, scale(key), before),
        told(es, key, ShownText::Number(x)),
    ensures
        !x.is_nan() ==> now == x.bounded(
            Scalar { bits: LEAST_SCALE },
            Scalar { bits: GREATEST_SCALE },
        ),
{
    reveal(scale);
    if !x.is_nan() {
        lemma_told(
            now,
            es,
            scale(key),
            before,
            key,
            ShownText::Number(x),
            x.bounded(Scalar { bits: LEAST_SCALE }, Scalar { bits: GREATEST_SCALE }),
        );
    }
}

proof fn lemma_layout(now: Layout, es: Seq<Entry>, before: Layout, key: Seq<char>, x: Layout)
    requires
        is_last(now, es, layout_word(key), before),
        told(es, key, ShownText::Text(layout_key(x))),
    ensures
        now == x,
{
    reveal(layout_word);
    layouts_read_back(x);
    lemma_told(now, es, layout_word(key), before, key, ShownText::Text(layout_key(x)), x);
}

proof fn lemma_style(
    now: PanelStyle,
    es: Seq<Entry>,
    before: PanelStyle,
    key: Seq<char>,
    x: PanelStyle,
)
    requires
        is_last(now, es, style_word(key), before),
        told(es, key, ShownText::Text(style_key(x))),
    ensures
        now == x,
{
    reveal(style_word);
    frames_read_back(x);
    lemma_told(now, es, style_word(key), before, key, ShownText::Text(style_key(x)), x);
}

proof fn lemma_count(
    now: BossCount,
    es: Seq<Entry>,
    before: BossCount,
    key: Seq<char>,
    x: BossCount,
)
    requires
        is_last(now, es, count_word(key), before),
        told(es, key, ShownText::Text(count_key(x))),
    ensures
        now == x,
{
    reveal(count_word);
    counts_read_back(x);
    lemma_told(now, es, count_word(key), before, key, ShownText::Text(count_key(x)), x);
}

proof fn lemma_source(
    now: ViewerSource,
    es: Seq<Entry>,
    before: ViewerSource,
    key: Seq<char>,
    x: ViewerSource,
)
    requires
        is_last(now, es, source_word(key), before),
        told(es, key, ShownText::Text(source_key(x))),
    ensures
        now == x,
{
    reveal(source_word);
    sources_read_back(x);
    lemma_told(now, es, source_word(key), before, key, ShownText::Text(source_key(x)), x);
}

proof fn lemma_color(now: [u8; 4], es: Seq<Entry>, before: [u8; 4], key: Seq<char>, x: [u8; 4])
    requires
        is_last(channels(now), es, color(key), channels(before)),
        told(es, key, ShownText::Text(color_text(x))),
    ensures
        channels(now) == channels(x),
{
    reveal(color);
    colors_read_back(x);
    lemma_told(
        channels(now),
        es,
        color(key),
        channels(before),
        key,
        ShownText::Text(color_text(x)),
        channels(x),
    );
}

proof fn lemma_words(
    now: Seq<char>,
    es: Seq<Entry>,
    before: Seq<char>,
    key: Seq<char>,
    x: Seq<char>,
)
    requires
        is_last(now, es, words(key), before),
        told(es, key, ShownText::Text(x)),
    ensures
        now == x,
{
    reveal(words);
    lemma_told(now, es, words(key), before, key, ShownText::Text(x), x);
}

proof fn lemma_secret(
    now: Seq<char>,
    es: Seq<Entry>,
    before: Seq<char>,
    key: Seq<char>,
    x: Seq<char>,
)
    requires
        is_last(now, es, secret(key), before),
        told(es, key, ShownText::Secret(x)),
    ensures
        now == x,
{
    reveal(secret);
    lemma_told(now, es, secret(key), before, key, ShownText::Secret(x), x);
}

proof fn lemma_nicks(
    now: Seq<Seq<char>>,
    es: Seq<Entry>,
    before: Seq<Seq<char>>,
    key: Seq<char>,
    x: Seq<char>,
)
    requires
        is_last(now, es, nicks(key), before),
        told(es, key, ShownText::Text(x)),
    ensures
        now == nick_list(x),
{
    reveal(nicks);
    lemma_told(now, es, nicks(key), before, key, ShownText::Text(x), nick_list(x));
}

proof fn lemma_whole(now: u32, es: Seq<Entry>, before: u32, key: Seq<char>, x: u32)
    requires
        is_last(now, es, whole(key), before),
        told(es, key, ShownText::Text(decimal(x as nat))),
    ensures
        now == x,
{
    reveal(whole);
    decimal_reads_back(x as nat, u32::MAX as nat);
    lemma_told(now, es, whole(key), before, key, ShownText::Text(decimal(x as nat)), x);
}

// ---------------------------------------------------------------------------
// All of them
// ---------------------------------------------------------------------------

/// What the panel shows.
pub open spec fn switches_restored(c: Config, w: Config) -> bool {
    &&& c.show_bosses == w.show_bosses
    &&& c.show_nearest_boss == w.show_nearest_boss
    &&& c.show_deaths == w.show_deaths
    &&& c.show_level == w.show_level
    &&& c.show_runes == w.show_runes
    &&& c.show_runes_total == w.show_runes_total
    &&& c.show_playtime == w.show_playtime
    &&& c.show_ng == w.show_ng
}

proof fn lemma_switches(
    c: Config,
    w: Config,
    before: Config,
    es: Seq<Entry>,
    names: Seq<Seq<char>>,
    v: Seq<(Seq<char>, ShownText)>,
)
    requires
        c.follows(before, es, names),
        all_told(es, w.switches_values(v)),
        no_old_keys(es),
    ensures
        all_told(es, v),
        switches_restored(c, w),
{
    let all = w.switches_values(v);
    let n = v.len() as int;
    assert forall|i: int| 0 <= i < v.len() implies told(es, (#[trigger] v[i]).0, v[i].1) by {
        assert(all[i] == v[i]);
    }
    assert(all[n + 0] == ("show_bosses"@, switch(w.show_bosses)));
    lemma_flag(c.show_bosses, es, before.show_bosses, "show_bosses"@, w.show_bosses);
    assert(all[n + 1] == ("show_nearest_boss"@, switch(w.show_nearest_boss)));
    lemma_flag(c.show_nearest_boss, es, before.show_nearest_boss, "show_nearest_boss"@, w.show_nearest_boss);
    assert(all[n + 2] == ("show_deaths"@, switch(w.show_deaths)));
    lemma_flag(c.show_deaths, es, before.show_deaths, "show_deaths"@, w.show_deaths);
    assert(all[n + 3] == ("show_level"@, switch(w.show_level)));
    lemma_flag(c.show_level, es, before.show_level, "show_level"@, w.show_level);
    assert(all[n + 4] == ("show_runes"@, switch(w.show_runes)));
    lemma_flag(c.show_runes, es, before.show_runes, "show_runes"@, w.show_runes);
    assert(all[n + 5] == ("show_runes_total"@, switch(w.show_runes_total)));
    lemma_flag(c.show_runes_total, es, before.show_runes_total, "show_runes_total"@, w.show_runes_total);
    assert(all[n + 6] == ("show_playtime"@, switch(w.show_playtime)));
    lemma_flag(c.show_playtime, es, before.show_playtime, "show_playtime"@, w.show_playtime);
    assert(all[n + 7] == ("show_ng"@, switch(w.show_ng)));
    lemma_flag(c.show_ng, es, before.show_ng, "show_ng"@, w.show_ng);
}

/// Totals and the boss being fought.
pub open spec fn totals_restored(c: Config, w: Config) -> bool {
    &&& c.show_deathless == w.show_deathless
    &&& c.show_deaths_on_boss == w.show_deaths_on_boss
    &&& c.show_boss_kill_rate == w.show_boss_kill_rate
    &&& c.show_death_rate == w.show_death_rate
    &&& c.show_avg_attempts == w.show_avg_attempts
    &&& c.show_boss_bar == w.show_boss_bar
    &&& c.show_boss_name == w.show_boss_name
    &&& c.show_all_boss_names == w.show_all_boss_names
    &&& c.show_attempts == w.show_attempts
    &&& c.show_fight_timer == w.show_fight_timer
    &&& c.show_map_explored == w.show_map_explored
}

#[verifier::rlimit(60)]
proof fn lemma_totals(
    c: Config,
    w: Config,
    before: Config,
    es: Seq<Entry>,
    names: Seq<Seq<char>>,
    v: Seq<(Seq<char>, ShownText)>,
)
    requires
        c.follows(before, es, names),
        all_told(es, w.totals_values(v)),
        no_old_keys(es),
    ensures
        all_told(es, v),
        totals_restored(c, w),
{
    let all = w.totals_values(v);
    let n = v.len() as int;
    assert forall|i: int| 0 <= i < v.len() implies told(es, (#[trigger] v[i]).0, v[i].1) by {
        assert(all[i] == v[i]);
    }
    assert(all[n + 0] == ("show_deathless"@, switch(w.show_deathless)));
    lemma_flag(c.show_deathless, es, before.show_deathless, "show_deathless"@, w.show_deathless);
    assert(all[n + 1] == ("show_deaths_on_boss"@, switch(w.show_deaths_on_boss)));
    lemma_flag(c.show_deaths_on_boss, es, before.show_deaths_on_boss, "show_deaths_on_boss"@, w.show_deaths_on_boss);
    assert(all[n + 2] == ("show_boss_kill_rate"@, switch(w.show_boss_kill_rate)));
    lemma_flag(c.show_boss_kill_rate, es, before.show_boss_kill_rate, "show_boss_kill_rate"@, w.show_boss_kill_rate);
    assert(all[n + 3] == ("show_death_rate"@, switch(w.show_death_rate)));
    lemma_flag(c.show_death_rate, es, before.show_death_rate, "show_death_rate"@, w.show_death_rate);
    assert(all[n + 4] == ("show_avg_attempts"@, switch(w.show_avg_attempts)));
    lemma_flag(c.show_avg_attempts, es, before.show_avg_attempts, "show_avg_attempts"@, w.show_avg_attempts);
    assert(all[n + 5] == ("show_boss_bar"@, switch(w.show_boss_bar)));
    lemma_flag(c.show_boss_bar, es, before.show_boss_bar, "show_boss_bar"@, w.show_boss_bar);
    assert(all[n + 6] == ("show_boss_name"@, switch(w.show_boss_name)));
    lemma_flag(c.show_boss_name, es, before.show_boss_name, "show_boss_name"@, w.show_boss_name);
    assert(all[n + 7] == ("show_all_boss_names"@, switch(w.show_all_boss_names)));
    lemma_flag(c.show_all_boss_names, es, before.show_all_boss_names, "show_all_boss_names"@, w.show_all_boss_names);
    assert(all[n + 8] == ("show_attempts"@, switch(w.show_attempts)));
    lemma_flag(c.show_attempts, es, before.show_attempts, "show_attempts"@, w.show_attempts);
    assert(all[n + 9] == ("show_fight_timer"@, switch(w.show_fight_timer)));
    lemma_flag(c.show_fight_timer, es, before.show_fight_timer, "show_fight_timer"@, w.show_fight_timer);
    assert(all[n + 10] == ("show_map_explored"@, switch(w.show_map_explored)));
    lemma_flag(c.show_map_explored, es, before.show_map_explored, "show_map_explored"@, w.show_map_explored);
}

/// Layouts and frames.
pub open spec fn frames_restored(c: Config, w: Config) -> bool {
    &&& c.layout == w.layout
    &&& c.panel_style == w.panel_style
    &&& c.panel_rounding == w.panel_rounding
    &&& c.border_width == w.border_width
    &&& c.web_panel_style == w.web_panel_style
    &&& c.web_panel_rounding == w.web_panel_rounding
    &&& c.web_border_width == w.web_border_width
}

proof fn lemma_frames(
    c: Config,
    w: Config,
    before: Config,
    es: Seq<Entry>,
    names: Seq<Seq<char>>,
    v: Seq<(Seq<char>, ShownText)>,
)
    requires
        c.follows(before, es, names),
        all_told(es, w.frames_values(v)),
        no_old_keys(es),
    ensures
        all_told(es, v),
        frames_restored(c, w),
{
    let all = w.frames_values(v);
    let n = v.len() as int;
    assert forall|i: int| 0 <= i < v.len() implies told(es, (#[trigger] v[i]).0, v[i].1) by {
        assert(all[i] == v[i]);
    }
    assert(all[n + 0] == ("layout"@, ShownText::Text(layout_key(w.layout))));
    lemma_layout(c.layout, es, before.layout, "layout"@, w.layout);
    assert(all[n + 1] == ("panel_style"@, ShownText::Text(style_key(w.panel_style))));
    lemma_style(c.panel_style, es, before.panel_style, "panel_style"@, w.panel_style);
    assert(all[n + 2] == ("panel_rounding"@, ShownText::Number(w.panel_rounding)));
    lemma_number(c.panel_rounding, es, before.panel_rounding, "panel_rounding"@, w.panel_rounding);
    assert(all[n + 3] == ("border_width"@, ShownText::Number(w.border_width)));
    lemma_number(c.border_width, es, before.border_width, "border_width"@, w.border_width);
    assert(all[n + 4] == ("web_panel_style"@, ShownText::Text(style_key(w.web_panel_style))));
    lemma_style(c.web_panel_style, es, before.web_panel_style, "web_panel_style"@, w.web_panel_style);
    assert(all[n + 5] == ("web_panel_rounding"@, ShownText::Number(w.web_panel_rounding)));
    lemma_number(c.web_panel_rounding, es, before.web_panel_rounding, "web_panel_rounding"@, w.web_panel_rounding);
    assert(all[n + 6] == ("web_border_width"@, ShownText::Number(w.web_border_width)));
    lemma_number(c.web_border_width, es, before.web_border_width, "web_border_width"@, w.web_border_width);
}

/// The widget in OBS.
pub open spec fn widget_restored(c: Config, w: Config) -> bool {
    &&& c.web_layout == w.web_layout
    &&& c.web_opacity == w.web_opacity
    &&& c.web_border_opacity == w.web_border_opacity
    &&& c.web_scale == w.web_scale
    &&& c.web_label_size == w.web_label_size
    &&& c.web_value_size == w.web_value_size
    &&& c.web_counter_size == w.web_counter_size
    &&& c.web_boss_name_size == w.web_boss_name_size
    &&& c.web_attempt_size == w.web_attempt_size
}

proof fn lemma_widget(
    c: Config,
    w: Config,
    before: Config,
    es: Seq<Entry>,
    names: Seq<Seq<char>>,
    v: Seq<(Seq<char>, ShownText)>,
)
    requires
        c.follows(before, es, names),
        all_told(es, w.widget_values(v)),
        no_old_keys(es),
    ensures
        all_told(es, v),
        widget_restored(c, w),
{
    let all = w.widget_values(v);
    let n = v.len() as int;
    assert forall|i: int| 0 <= i < v.len() implies told(es, (#[trigger] v[i]).0, v[i].1) by {
        assert(all[i] == v[i]);
    }
    assert(all[n + 0] == ("web_layout"@, ShownText::Text(layout_key(w.web_layout))));
    lemma_layout(c.web_layout, es, before.web_layout, "web_layout"@, w.web_layout);
    assert(all[n + 1] == ("web_opacity"@, ShownText::Number(w.web_opacity)));
    lemma_number(c.web_opacity, es, before.web_opacity, "web_opacity"@, w.web_opacity);
    assert(all[n + 2] == ("web_border_opacity"@, ShownText::Number(w.web_border_opacity)));
    lemma_number(c.web_border_opacity, es, before.web_border_opacity, "web_border_opacity"@, w.web_border_opacity);
    assert(all[n + 3] == ("web_scale"@, ShownText::Number(w.web_scale)));
    lemma_number(c.web_scale, es, before.web_scale, "web_scale"@, w.web_scale);
    assert(all[n + 4] == ("web_label_size"@, ShownText::Number(w.web_label_size)));
    lemma_number(c.web_label_size, es, before.web_label_size, "web_label_size"@, w.web_label_size);
    assert(all[n + 5] == ("web_value_size"@, ShownText::Number(w.web_value_size)));
    lemma_number(c.web_value_size, es, before.web_value_size, "web_value_size"@, w.web_value_size);
    assert(all[n + 6] == ("web_counter_size"@, ShownText::Number(w.web_counter_size)));
    lemma_number(c.web_counter_size, es, before.web_counter_size, "web_counter_size"@, w.web_counter_size);
    assert(all[n + 7] == ("web_boss_name_size"@, ShownText::Number(w.web_boss_name_size)));
    lemma_number(c.web_boss_name_size, es, before.web_boss_name_size, "web_boss_name_size"@, w.web_boss_name_size);
    assert(all[n + 8] == ("web_attempt_size"@, ShownText::Number(w.web_attempt_size)));
    lemma_number(c.web_attempt_size, es, before.web_attempt_size, "web_attempt_size"@, w.web_attempt_size);
}

/// The card in OBS.
pub open spec fn widget_card_restored(c: Config, w: Config) -> bool {
    &&& c.web_toast_label_size == w.web_toast_label_size
    &&& c.web_toast_value_size == w.web_toast_value_size
    &&& c.web_toast_width == w.web_toast_width
    &&& c.web_toast_style == w.web_toast_style
    &&& c.web_toast_opacity == w.web_toast_opacity
    &&& c.web_toast_border_opacity == w.web_toast_border_opacity
    &&& c.web_toast_rounding == w.web_toast_rounding
    &&& c.web_toast_border_width == w.web_toast_border_width
    &&& c.web_tracking == w.web_tracking
    &&& c.web_line_gap == w.web_line_gap
}

proof fn lemma_widget_card(
    c: Config,
    w: Config,
    before: Config,
    es: Seq<Entry>,
    names: Seq<Seq<char>>,
    v: Seq<(Seq<char>, ShownText)>,
)
    requires
        c.follows(before, es, names),
        all_told(es, w.widget_card_values(v)),
        no_old_keys(es),
    ensures
        all_told(es, v),
        widget_card_restored(c, w),
{
    let all = w.widget_card_values(v);
    let n = v.len() as int;
    assert forall|i: int| 0 <= i < v.len() implies told(es, (#[trigger] v[i]).0, v[i].1) by {
        assert(all[i] == v[i]);
    }
    assert(all[n + 0] == ("web_toast_label_size"@, ShownText::Number(w.web_toast_label_size)));
    lemma_number(c.web_toast_label_size, es, before.web_toast_label_size, "web_toast_label_size"@, w.web_toast_label_size);
    assert(all[n + 1] == ("web_toast_value_size"@, ShownText::Number(w.web_toast_value_size)));
    lemma_number(c.web_toast_value_size, es, before.web_toast_value_size, "web_toast_value_size"@, w.web_toast_value_size);
    assert(all[n + 2] == ("web_toast_width"@, ShownText::Number(w.web_toast_width)));
    lemma_number(c.web_toast_width, es, before.web_toast_width, "web_toast_width"@, w.web_toast_width);
    assert(all[n + 3] == ("web_toast_style"@, ShownText::Text(style_key(w.web_toast_style))));
    lemma_style(c.web_toast_style, es, before.web_toast_style, "web_toast_style"@, w.web_toast_style);
    assert(all[n + 4] == ("web_toast_opacity"@, ShownText::Number(w.web_toast_opacity)));
    lemma_number(c.web_toast_opacity, es, before.web_toast_opacity, "web_toast_opacity"@, w.web_toast_opacity);
    assert(all[n + 5] == ("web_toast_border_opacity"@, ShownText::Number(w.web_toast_border_opacity)));
    lemma_number(c.web_toast_border_opacity, es, before.web_toast_border_opacity, "web_toast_border_opacity"@, w.web_toast_border_opacity);
    assert(all[n + 6] == ("web_toast_rounding"@, ShownText::Number(w.web_toast_rounding)));
    lemma_number(c.web_toast_rounding, es, before.web_toast_rounding, "web_toast_rounding"@, w.web_toast_rounding);
    assert(all[n + 7] == ("web_toast_border_width"@, ShownText::Number(w.web_toast_border_width)));
    lemma_number(c.web_toast_border_width, es, before.web_toast_border_width, "web_toast_border_width"@, w.web_toast_border_width);
    assert(all[n + 8] == ("web_tracking"@, ShownText::Number(w.web_tracking)));
    lemma_number(c.web_tracking, es, before.web_tracking, "web_tracking"@, w.web_tracking);
    assert(all[n + 9] == ("web_line_gap"@, ShownText::Number(w.web_line_gap)));
    lemma_number(c.web_line_gap, es, before.web_line_gap, "web_line_gap"@, w.web_line_gap);
}

/// The panel and its fonts.
pub open spec fn panel_restored(c: Config, w: Config) -> bool {
    &&& c.boss_count == w.boss_count
    &&& c.panel_x == w.panel_x
    &&& c.panel_y == w.panel_y
    &&& (!w.ui_scale.is_nan() ==> c.ui_scale == w.ui_scale.bounded(
        Scalar { bits: LEAST_SCALE },
        Scalar { bits: GREATEST_SCALE },
    ))
    &&& c.panel_opacity == w.panel_opacity
    &&& c.border_opacity == w.border_opacity
    &&& c.label_size == w.label_size
    &&& c.value_size == w.value_size
    &&& c.counter_size == w.counter_size
    &&& c.boss_name_size == w.boss_name_size
    &&& c.boss_name_wrap == w.boss_name_wrap
    &&& c.attempt_size == w.attempt_size
}

proof fn lemma_panel(
    c: Config,
    w: Config,
    before: Config,
    es: Seq<Entry>,
    names: Seq<Seq<char>>,
    v: Seq<(Seq<char>, ShownText)>,
)
    requires
        c.follows(before, es, names),
        all_told(es, w.panel_values(v)),
        no_old_keys(es),
    ensures
        all_told(es, v),
        panel_restored(c, w),
{
    let all = w.panel_values(v);
    let n = v.len() as int;
    assert forall|i: int| 0 <= i < v.len() implies told(es, (#[trigger] v[i]).0, v[i].1) by {
        assert(all[i] == v[i]);
    }
    assert(all[n + 0] == ("boss_count"@, ShownText::Text(count_key(w.boss_count))));
    lemma_count(c.boss_count, es, before.boss_count, "boss_count"@, w.boss_count);
    assert(all[n + 1] == ("panel_x"@, ShownText::Number(w.panel_x)));
    lemma_number(c.panel_x, es, before.panel_x, "panel_x"@, w.panel_x);
    assert(all[n + 2] == ("panel_y"@, ShownText::Number(w.panel_y)));
    lemma_number(c.panel_y, es, before.panel_y, "panel_y"@, w.panel_y);
    assert(all[n + 3] == ("ui_scale"@, ShownText::Number(w.ui_scale)));
    lemma_scale(c.ui_scale, es, before.ui_scale, "ui_scale"@, w.ui_scale);
    assert(all[n + 4] == ("panel_opacity"@, ShownText::Number(w.panel_opacity)));
    lemma_number(c.panel_opacity, es, before.panel_opacity, "panel_opacity"@, w.panel_opacity);
    assert(all[n + 5] == ("border_opacity"@, ShownText::Number(w.border_opacity)));
    lemma_number(c.border_opacity, es, before.border_opacity, "border_opacity"@, w.border_opacity);
    assert(all[n + 6] == ("label_size"@, ShownText::Number(w.label_size)));
    lemma_number(c.label_size, es, before.label_size, "label_size"@, w.label_size);
    assert(all[n + 7] == ("value_size"@, ShownText::Number(w.value_size)));
    lemma_number(c.value_size, es, before.value_size, "value_size"@, w.value_size);
    assert(all[n + 8] == ("counter_size"@, ShownText::Number(w.counter_size)));
    lemma_counter(c.counter_size, es, before.counter_size, w.counter_size);
    assert(all[n + 9] == ("boss_name_size"@, ShownText::Number(w.boss_name_size)));
    lemma_number(c.boss_name_size, es, before.boss_name_size, "boss_name_size"@, w.boss_name_size);
    assert(all[n + 10] == ("boss_name_wrap"@, ShownText::Text(decimal(w.boss_name_wrap as nat))));
    lemma_whole(c.boss_name_wrap, es, before.boss_name_wrap, "boss_name_wrap"@, w.boss_name_wrap);
    assert(all[n + 11] == ("attempt_size"@, ShownText::Number(w.attempt_size)));
    lemma_number(c.attempt_size, es, before.attempt_size, "attempt_size"@, w.attempt_size);
}

/// The card over the game.
pub open spec fn card_restored(c: Config, w: Config) -> bool {
    &&& c.toast_label_size == w.toast_label_size
    &&& c.toast_value_size == w.toast_value_size
    &&& c.toast_width == w.toast_width
    &&& c.toast_style == w.toast_style
    &&& c.toast_opacity == w.toast_opacity
    &&& c.toast_border_opacity == w.toast_border_opacity
    &&& c.toast_rounding == w.toast_rounding
    &&& c.toast_border_width == w.toast_border_width
    &&& c.tracking == w.tracking
    &&& c.line_gap == w.line_gap
}

proof fn lemma_card(
    c: Config,
    w: Config,
    before: Config,
    es: Seq<Entry>,
    names: Seq<Seq<char>>,
    v: Seq<(Seq<char>, ShownText)>,
)
    requires
        c.follows(before, es, names),
        all_told(es, w.card_values(v)),
        no_old_keys(es),
    ensures
        all_told(es, v),
        card_restored(c, w),
{
    let all = w.card_values(v);
    let n = v.len() as int;
    assert forall|i: int| 0 <= i < v.len() implies told(es, (#[trigger] v[i]).0, v[i].1) by {
        assert(all[i] == v[i]);
    }
    assert(all[n + 0] == ("toast_label_size"@, ShownText::Number(w.toast_label_size)));
    lemma_number(c.toast_label_size, es, before.toast_label_size, "toast_label_size"@, w.toast_label_size);
    assert(all[n + 1] == ("toast_value_size"@, ShownText::Number(w.toast_value_size)));
    lemma_number(c.toast_value_size, es, before.toast_value_size, "toast_value_size"@, w.toast_value_size);
    assert(all[n + 2] == ("toast_width"@, ShownText::Number(w.toast_width)));
    lemma_number(c.toast_width, es, before.toast_width, "toast_width"@, w.toast_width);
    assert(all[n + 3] == ("toast_style"@, ShownText::Text(style_key(w.toast_style))));
    lemma_style(c.toast_style, es, before.toast_style, "toast_style"@, w.toast_style);
    assert(all[n + 4] == ("toast_opacity"@, ShownText::Number(w.toast_opacity)));
    lemma_number(c.toast_opacity, es, before.toast_opacity, "toast_opacity"@, w.toast_opacity);
    assert(all[n + 5] == ("toast_border_opacity"@, ShownText::Number(w.toast_border_opacity)));
    lemma_number(c.toast_border_opacity, es, before.toast_border_opacity, "toast_border_opacity"@, w.toast_border_opacity);
    assert(all[n + 6] == ("toast_rounding"@, ShownText::Number(w.toast_rounding)));
    lemma_number(c.toast_rounding, es, before.toast_rounding, "toast_rounding"@, w.toast_rounding);
    assert(all[n + 7] == ("toast_border_width"@, ShownText::Number(w.toast_border_width)));
    lemma_number(c.toast_border_width, es, before.toast_border_width, "toast_border_width"@, w.toast_border_width);
    assert(all[n + 8] == ("tracking"@, ShownText::Number(w.tracking)));
    lemma_number(c.tracking, es, before.tracking, "tracking"@, w.tracking);
    assert(all[n + 9] == ("line_gap"@, ShownText::Number(w.line_gap)));
    lemma_number(c.line_gap, es, before.line_gap, "line_gap"@, w.line_gap);
}

/// Colors and what hides the panel.
pub open spec fn look_restored(c: Config, w: Config) -> bool {
    &&& channels(c.accent_color) == channels(w.accent_color)
    &&& channels(c.label_color) == channels(w.label_color)
    &&& channels(c.value_color) == channels(w.value_color)
    &&& c.overlay_enabled == w.overlay_enabled
    &&& c.hide_in_cutscene == w.hide_in_cutscene
    &&& c.hide_in_menu == w.hide_in_menu
    &&& c.debug == w.debug
    &&& c.lang@ == w.lang@
}

proof fn lemma_look(
    c: Config,
    w: Config,
    before: Config,
    es: Seq<Entry>,
    names: Seq<Seq<char>>,
    v: Seq<(Seq<char>, ShownText)>,
)
    requires
        c.follows(before, es, names),
        all_told(es, w.look_values(v)),
        no_old_keys(es),
    ensures
        all_told(es, v),
        look_restored(c, w),
{
    let all = w.look_values(v);
    let n = v.len() as int;
    assert forall|i: int| 0 <= i < v.len() implies told(es, (#[trigger] v[i]).0, v[i].1) by {
        assert(all[i] == v[i]);
    }
    assert(all[n + 0] == ("accent_color"@, ShownText::Text(color_text(w.accent_color))));
    lemma_color(c.accent_color, es, before.accent_color, "accent_color"@, w.accent_color);
    assert(all[n + 1] == ("label_color"@, ShownText::Text(color_text(w.label_color))));
    lemma_color(c.label_color, es, before.label_color, "label_color"@, w.label_color);
    assert(all[n + 2] == ("value_color"@, ShownText::Text(color_text(w.value_color))));
    lemma_color(c.value_color, es, before.value_color, "value_color"@, w.value_color);
    assert(all[n + 3] == ("overlay_enabled"@, switch(w.overlay_enabled)));
    lemma_flag(c.overlay_enabled, es, before.overlay_enabled, "overlay_enabled"@, w.overlay_enabled);
    assert(all[n + 4] == ("hide_in_cutscene"@, switch(w.hide_in_cutscene)));
    lemma_flag(c.hide_in_cutscene, es, before.hide_in_cutscene, "hide_in_cutscene"@, w.hide_in_cutscene);
    assert(all[n + 5] == ("hide_in_menu"@, switch(w.hide_in_menu)));
    lemma_flag(c.hide_in_menu, es, before.hide_in_menu, "hide_in_menu"@, w.hide_in_menu);
    assert(all[n + 6] == ("debug"@, switch(w.debug)));
    lemma_flag(c.debug, es, before.debug, "debug"@, w.debug);
    assert(all[n + 7] == ("lang"@, ShownText::Text(w.lang@)));
    lemma_words(c.lang@, es, before.lang@, "lang"@, w.lang@);
}

/// Twitch.
pub open spec fn twitch_restored(c: Config, w: Config) -> bool {
    &&& c.twitch_enabled == w.twitch_enabled
    &&& c.twitch_client_id@ == w.twitch_client_id@
    &&& c.twitch_notify_hud == w.twitch_notify_hud
    &&& c.toast_x == w.toast_x
    &&& c.toast_y == w.toast_y
    &&& c.rewards_notice_seen == w.rewards_notice_seen
    &&& c.twitch_channel@ == w.twitch_channel@
}

proof fn lemma_twitch(
    c: Config,
    w: Config,
    before: Config,
    es: Seq<Entry>,
    names: Seq<Seq<char>>,
    v: Seq<(Seq<char>, ShownText)>,
)
    requires
        c.follows(before, es, names),
        all_told(es, w.twitch_values(v)),
        no_old_keys(es),
    ensures
        all_told(es, v),
        twitch_restored(c, w),
{
    let all = w.twitch_values(v);
    let n = v.len() as int;
    assert forall|i: int| 0 <= i < v.len() implies told(es, (#[trigger] v[i]).0, v[i].1) by {
        assert(all[i] == v[i]);
    }
    assert(all[n + 0] == ("twitch_enabled"@, switch(w.twitch_enabled)));
    lemma_flag(c.twitch_enabled, es, before.twitch_enabled, "twitch_enabled"@, w.twitch_enabled);
    assert(all[n + 1] == ("twitch_client_id"@, ShownText::Secret(w.twitch_client_id@)));
    lemma_secret(c.twitch_client_id@, es, before.twitch_client_id@, "twitch_client_id"@, w.twitch_client_id@);
    assert(all[n + 2] == ("twitch_notify_hud"@, switch(w.twitch_notify_hud)));
    lemma_flag(c.twitch_notify_hud, es, before.twitch_notify_hud, "twitch_notify_hud"@, w.twitch_notify_hud);
    assert(all[n + 3] == ("toast_x"@, ShownText::Number(w.toast_x)));
    lemma_number(c.toast_x, es, before.toast_x, "toast_x"@, w.toast_x);
    assert(all[n + 4] == ("toast_y"@, ShownText::Number(w.toast_y)));
    lemma_number(c.toast_y, es, before.toast_y, "toast_y"@, w.toast_y);
    assert(all[n + 5] == ("rewards_notice_seen"@, switch(w.rewards_notice_seen)));
    lemma_flag(c.rewards_notice_seen, es, before.rewards_notice_seen, "rewards_notice_seen"@, w.rewards_notice_seen);
    assert(all[n + 6] == ("twitch_channel"@, ShownText::Text(w.twitch_channel@)));
    lemma_words(c.twitch_channel@, es, before.twitch_channel@, "twitch_channel"@, w.twitch_channel@);
}

/// Nicknames over enemies.
pub open spec fn nicknames_restored(c: Config, w: Config) -> bool {
    &&& c.show_viewer_kills == w.show_viewer_kills
    &&& c.enemy_tags == w.enemy_tags
    &&& c.enemy_tags_bosses == w.enemy_tags_bosses
    &&& c.enemy_tags_mobs == w.enemy_tags_mobs
    &&& c.boss_tag_offset_x == w.boss_tag_offset_x
    &&& c.boss_tag_offset_y == w.boss_tag_offset_y
    &&& c.enemy_tag_offset_x == w.enemy_tag_offset_x
    &&& c.enemy_tag_height == w.enemy_tag_height
    &&& c.enemy_tag_size == w.enemy_tag_size
    &&& c.enemy_tag_say == w.enemy_tag_say
    &&& c.enemy_say_offset_x == w.enemy_say_offset_x
    &&& c.enemy_say_offset_y == w.enemy_say_offset_y
    &&& c.enemy_say_secs == w.enemy_say_secs
}

proof fn lemma_nicknames(
    c: Config,
    w: Config,
    before: Config,
    es: Seq<Entry>,
    names: Seq<Seq<char>>,
    v: Seq<(Seq<char>, ShownText)>,
)
    requires
        c.follows(before, es, names),
        all_told(es, w.nicknames_values(v)),
        no_old_keys(es),
    ensures
        all_told(es, v),
        nicknames_restored(c, w),
{
    let all = w.nicknames_values(v);
    let n = v.len() as int;
    assert forall|i: int| 0 <= i < v.len() implies told(es, (#[trigger] v[i]).0, v[i].1) by {
        assert(all[i] == v[i]);
    }
    assert(all[n + 0] == ("show_viewer_kills"@, switch(w.show_viewer_kills)));
    lemma_flag(c.show_viewer_kills, es, before.show_viewer_kills, "show_viewer_kills"@, w.show_viewer_kills);
    assert(all[n + 1] == ("enemy_tags"@, switch(w.enemy_tags)));
    lemma_flag(c.enemy_tags, es, before.enemy_tags, "enemy_tags"@, w.enemy_tags);
    assert(all[n + 2] == ("enemy_tags_bosses"@, switch(w.enemy_tags_bosses)));
    lemma_flag(c.enemy_tags_bosses, es, before.enemy_tags_bosses, "enemy_tags_bosses"@, w.enemy_tags_bosses);
    assert(all[n + 3] == ("enemy_tags_mobs"@, switch(w.enemy_tags_mobs)));
    lemma_flag(c.enemy_tags_mobs, es, before.enemy_tags_mobs, "enemy_tags_mobs"@, w.enemy_tags_mobs);
    assert(all[n + 4] == ("boss_tag_offset_x"@, ShownText::Number(w.boss_tag_offset_x)));
    lemma_number(c.boss_tag_offset_x, es, before.boss_tag_offset_x, "boss_tag_offset_x"@, w.boss_tag_offset_x);
    assert(all[n + 5] == ("boss_tag_offset_y"@, ShownText::Number(w.boss_tag_offset_y)));
    lemma_number(c.boss_tag_offset_y, es, before.boss_tag_offset_y, "boss_tag_offset_y"@, w.boss_tag_offset_y);
    assert(all[n + 6] == ("enemy_tag_offset_x"@, ShownText::Number(w.enemy_tag_offset_x)));
    lemma_number(c.enemy_tag_offset_x, es, before.enemy_tag_offset_x, "enemy_tag_offset_x"@, w.enemy_tag_offset_x);
    assert(all[n + 7] == ("enemy_tag_height"@, ShownText::Number(w.enemy_tag_height)));
    lemma_number(c.enemy_tag_height, es, before.enemy_tag_height, "enemy_tag_height"@, w.enemy_tag_height);
    assert(all[n + 8] == ("enemy_tag_size"@, ShownText::Number(w.enemy_tag_size)));
    lemma_number(c.enemy_tag_size, es, before.enemy_tag_size, "enemy_tag_size"@, w.enemy_tag_size);
    assert(all[n + 9] == ("enemy_tag_say"@, switch(w.enemy_tag_say)));
    lemma_flag(c.enemy_tag_say, es, before.enemy_tag_say, "enemy_tag_say"@, w.enemy_tag_say);
    assert(all[n + 10] == ("enemy_say_offset_x"@, ShownText::Number(w.enemy_say_offset_x)));
    lemma_number(c.enemy_say_offset_x, es, before.enemy_say_offset_x, "enemy_say_offset_x"@, w.enemy_say_offset_x);
    assert(all[n + 11] == ("enemy_say_offset_y"@, ShownText::Number(w.enemy_say_offset_y)));
    lemma_number(c.enemy_say_offset_y, es, before.enemy_say_offset_y, "enemy_say_offset_y"@, w.enemy_say_offset_y);
    assert(all[n + 12] == ("enemy_say_secs"@, ShownText::Number(w.enemy_say_secs)));
    lemma_number(c.enemy_say_secs, es, before.enemy_say_secs, "enemy_say_secs"@, w.enemy_say_secs);
}

/// Viewers.
pub open spec fn viewers_restored(c: Config, w: Config) -> bool {
    &&& c.viewers_source == w.viewers_source
    &&& texts(c.viewer_block@) == nick_list(join(texts(w.viewer_block@), ","@))
    &&& texts(c.viewer_bots_off@) == nick_list(join(texts(w.viewer_bots_off@), ","@))
    &&& texts(c.viewer_bots_extra@) == nick_list(join(texts(w.viewer_bots_extra@), ","@))
    &&& channels(c.enemy_tag_color) == channels(w.enemy_tag_color)
    &&& c.twitch_notify_secs == w.twitch_notify_secs
}

proof fn lemma_viewers(
    c: Config,
    w: Config,
    before: Config,
    es: Seq<Entry>,
    names: Seq<Seq<char>>,
    v: Seq<(Seq<char>, ShownText)>,
)
    requires
        c.follows(before, es, names),
        all_told(es, w.viewers_values(v)),
        no_old_keys(es),
    ensures
        all_told(es, v),
        viewers_restored(c, w),
{
    let all = w.viewers_values(v);
    let n = v.len() as int;
    assert forall|i: int| 0 <= i < v.len() implies told(es, (#[trigger] v[i]).0, v[i].1) by {
        assert(all[i] == v[i]);
    }
    assert(all[n + 0] == ("viewers_source"@, ShownText::Text(source_key(w.viewers_source))));
    lemma_source(c.viewers_source, es, before.viewers_source, "viewers_source"@, w.viewers_source);
    assert(all[n + 1] == ("viewer_block"@, ShownText::Text(join(texts(w.viewer_block@), ","@))));
    lemma_nicks(texts(c.viewer_block@), es, texts(before.viewer_block@), "viewer_block"@, join(texts(w.viewer_block@), ","@));
    assert(all[n + 2] == ("viewer_bots_off"@, ShownText::Text(join(texts(w.viewer_bots_off@), ","@))));
    lemma_nicks(texts(c.viewer_bots_off@), es, texts(before.viewer_bots_off@), "viewer_bots_off"@, join(texts(w.viewer_bots_off@), ","@));
    assert(all[n + 3] == ("viewer_bots_extra"@, ShownText::Text(join(texts(w.viewer_bots_extra@), ","@))));
    lemma_nicks(texts(c.viewer_bots_extra@), es, texts(before.viewer_bots_extra@), "viewer_bots_extra"@, join(texts(w.viewer_bots_extra@), ","@));
    assert(all[n + 4] == ("enemy_tag_color"@, ShownText::Text(color_text(w.enemy_tag_color))));
    lemma_color(c.enemy_tag_color, es, before.enemy_tag_color, "enemy_tag_color"@, w.enemy_tag_color);
    assert(all[n + 5] == ("twitch_notify_secs"@, ShownText::Number(w.twitch_notify_secs)));
    lemma_number(c.twitch_notify_secs, es, before.twitch_notify_secs, "twitch_notify_secs"@, w.twitch_notify_secs);
}

/// Enemies and allies that viewers send.
pub open spec fn spawn_restored(c: Config, w: Config) -> bool {
    &&& c.spawn_limit == w.spawn_limit
    &&& c.debug_spawn == w.debug_spawn
    &&& c.show_allies == w.show_allies
    &&& c.ally_x == w.ally_x
    &&& c.ally_y == w.ally_y
    &&& c.spawn_radius_m == w.spawn_radius_m
    &&& c.spawn_in_front == w.spawn_in_front
    &&& c.spawn_in_boss == w.spawn_in_boss
    &&& c.ally_spawn_in_boss == w.ally_spawn_in_boss
    &&& c.boss_list_radius == w.boss_list_radius
    &&& c.nearest_radius == w.nearest_radius
}

proof fn lemma_spawn(
    c: Config,
    w: Config,
    before: Config,
    es: Seq<Entry>,
    names: Seq<Seq<char>>,
    v: Seq<(Seq<char>, ShownText)>,
)
    requires
        c.follows(before, es, names),
        all_told(es, w.spawn_values(v)),
        no_old_keys(es),
    ensures
        all_told(es, v),
        spawn_restored(c, w),
{
    let all = w.spawn_values(v);
    let n = v.len() as int;
    assert forall|i: int| 0 <= i < v.len() implies told(es, (#[trigger] v[i]).0, v[i].1) by {
        assert(all[i] == v[i]);
    }
    assert(all[n + 0] == ("spawn_limit"@, ShownText::Text(decimal(w.spawn_limit as nat))));
    lemma_whole(c.spawn_limit, es, before.spawn_limit, "spawn_limit"@, w.spawn_limit);
    assert(all[n + 1] == ("debug_spawn"@, switch(w.debug_spawn)));
    lemma_flag(c.debug_spawn, es, before.debug_spawn, "debug_spawn"@, w.debug_spawn);
    assert(all[n + 2] == ("show_allies"@, switch(w.show_allies)));
    lemma_flag(c.show_allies, es, before.show_allies, "show_allies"@, w.show_allies);
    assert(all[n + 3] == ("ally_x"@, ShownText::Number(w.ally_x)));
    lemma_number(c.ally_x, es, before.ally_x, "ally_x"@, w.ally_x);
    assert(all[n + 4] == ("ally_y"@, ShownText::Number(w.ally_y)));
    lemma_number(c.ally_y, es, before.ally_y, "ally_y"@, w.ally_y);
    assert(all[n + 5] == ("spawn_radius_m"@, ShownText::Number(w.spawn_radius_m)));
    lemma_number(c.spawn_radius_m, es, before.spawn_radius_m, "spawn_radius_m"@, w.spawn_radius_m);
    assert(all[n + 6] == ("spawn_in_front"@, switch(w.spawn_in_front)));
    lemma_flag(c.spawn_in_front, es, before.spawn_in_front, "spawn_in_front"@, w.spawn_in_front);
    assert(all[n + 7] == ("spawn_in_boss"@, switch(w.spawn_in_boss)));
    lemma_in_boss(c.spawn_in_boss, es, before.spawn_in_boss, w.spawn_in_boss);
    assert(all[n + 8] == ("ally_spawn_in_boss"@, switch(w.ally_spawn_in_boss)));
    lemma_flag(c.ally_spawn_in_boss, es, before.ally_spawn_in_boss, "ally_spawn_in_boss"@, w.ally_spawn_in_boss);
    assert(all[n + 9] == ("boss_list_radius"@, ShownText::Number(w.boss_list_radius)));
    lemma_number(c.boss_list_radius, es, before.boss_list_radius, "boss_list_radius"@, w.boss_list_radius);
    assert(all[n + 10] == ("nearest_radius"@, ShownText::Number(w.nearest_radius)));
    lemma_number(c.nearest_radius, es, before.nearest_radius, "nearest_radius"@, w.nearest_radius);
}

/// Every value that the settings window can change is as it was when it was written. The
/// scale comes back within its bounds, and the list of the blocked as it reads.
pub open spec fn restored(c: Config, w: Config) -> bool {
    &&& switches_restored(c, w)
    &&& totals_restored(c, w)
    &&& frames_restored(c, w)
    &&& widget_restored(c, w)
    &&& widget_card_restored(c, w)
    &&& panel_restored(c, w)
    &&& card_restored(c, w)
    &&& look_restored(c, w)
    &&& twitch_restored(c, w)
    &&& nicknames_restored(c, w)
    &&& viewers_restored(c, w)
    &&& spawn_restored(c, w)
}

/// What a reset writes is read back, whatever the settings were before and whatever else the
/// file says: no value comes back from an old line. `es` are the lines of the file, which
/// tell of every key what `w` has written there.
pub proof fn written_values_are_restored(
    c: Config,
    w: Config,
    before: Config,
    es: Seq<Entry>,
    names: Seq<Seq<char>>,
)
    requires
        c.follows(before, es, names),
        all_told(es, w.shown_values()),
        no_old_keys(es),
    ensures
        restored(c, w),
{
    let v0: Seq<(Seq<char>, ShownText)> = Seq::empty();
    let v1 = w.switches_values(v0);
    let v2 = w.totals_values(v1);
    let v3 = w.frames_values(v2);
    let v4 = w.widget_values(v3);
    let v5 = w.widget_card_values(v4);
    let v6 = w.panel_values(v5);
    let v7 = w.card_values(v6);
    let v8 = w.look_values(v7);
    let v9 = w.twitch_values(v8);
    let v10 = w.nicknames_values(v9);
    let v11 = w.viewers_values(v10);
    let v12 = w.spawn_values(v11);
    lemma_spawn(c, w, before, es, names, v11);
    lemma_viewers(c, w, before, es, names, v10);
    lemma_nicknames(c, w, before, es, names, v9);
    lemma_twitch(c, w, before, es, names, v8);
    lemma_look(c, w, before, es, names, v7);
    lemma_card(c, w, before, es, names, v6);
    lemma_panel(c, w, before, es, names, v5);
    lemma_widget_card(c, w, before, es, names, v4);
    lemma_widget(c, w, before, es, names, v3);
    lemma_frames(c, w, before, es, names, v2);
    lemma_totals(c, w, before, es, names, v1);
    lemma_switches(c, w, before, es, names, v0);
}

// ---------------------------------------------------------------------------
// Others
// ---------------------------------------------------------------------------

/// A setting that no line reads stays as it was: unknown keys and values that make no sense
/// change nothing.
pub proof fn lines_that_do_not_read_change_nothing<T>(
    es: Seq<Entry>,
    read: spec_fn(Entry) -> Option<T>,
    before: T,
)
    requires
        forall|i: int| 0 <= i < es.len() ==> read(#[trigger] es[i]) is None,
    ensures
        last(es, read, before) == before,
{
    lemma_last(es, read, before, before);
}

/// The scale of the panel stays within its bounds, whatever the file says.
pub proof fn the_scale_stays_within_bounds(
    c: Config,
    before: Config,
    es: Seq<Entry>,
    names: Seq<Seq<char>>,
)
    requires
        c.follows(before, es, names),
        (Scalar { bits: LEAST_SCALE }).at_most(before.ui_scale),
        before.ui_scale.at_most(Scalar { bits: GREATEST_SCALE }),
    ensures
        (Scalar { bits: LEAST_SCALE }).at_most(c.ui_scale),
        c.ui_scale.at_most(Scalar { bits: GREATEST_SCALE }),
{
    reveal(is_last);
    lemma_scale_bounds(es, before.ui_scale);
}

proof fn lemma_scale_bounds(es: Seq<Entry>, before: Scalar)
    requires
        (Scalar { bits: LEAST_SCALE }).at_most(before),
        before.at_most(Scalar { bits: GREATEST_SCALE }),
    ensures
        (Scalar { bits: LEAST_SCALE }).at_most(last(es, scale("ui_scale"@), before)),
        last(es, scale("ui_scale"@), before).at_most(Scalar { bits: GREATEST_SCALE }),
    decreases es.len(),
{
    reveal(last);
    reveal(scale);
    if es.len() > 0 {
        lemma_scale_bounds(es.drop_last(), before);
    }
}

/// Files that differ have temporary files that differ, and none is its own.
pub proof fn every_file_has_its_own_temporary(a: Seq<char>, b: Seq<char>)
    ensures
        a != b ==> a + ".tmp"@ != b + ".tmp"@,
        a + ".tmp"@ != a,
{
    reveal_strlit(".tmp");
    assert((a + ".tmp"@).len() == a.len() + 4);
    if a + ".tmp"@ == b + ".tmp"@ {
        assert((a + ".tmp"@).len() == b.len() + 4);
        assert((a + ".tmp"@).take(a.len() as int) == a);
        assert((b + ".tmp"@).take(b.len() as int) == b);
    }
}

proof fn lemma_join_front(v: Seq<Seq<char>>, sep: Seq<char>)
    requires
        v.len() > 1,
    ensures
        join(v, sep) == v[0] + sep + join(v.skip(1), sep),
    decreases v.len(),
{
    let rest = v.skip(1);
    if v.len() == 2 {
        assert(v.drop_last().len() == 1);
        assert(v.drop_last()[0] == v[0]);
        assert(rest.len() == 1 && rest[0] == v[1]);
        assert(join(v.drop_last(), sep) == v[0]);
    } else {
        lemma_join_front(v.drop_last(), sep);
        assert(v.drop_last().skip(1) == rest.drop_last());
        assert(rest.last() == v.last());
        assert(v.drop_last()[0] == v[0]);
        assert(v[0] + sep + join(rest.drop_last(), sep) + sep + v.last() =~= v[0] + sep + (join(
            rest.drop_last(),
            sep,
        ) + sep + v.last()));
    }
}

proof fn lemma_fields_of_join(v: Seq<Seq<char>>)
    requires
        v.len() > 0,
        forall|i: int, k: int|
            0 <= i < v.len() && 0 <= k < v[i].len() ==> #[trigger] v[i][k] != ',',
    ensures
        fields(join(v, ","@), ',') == v,
    decreases v.len(),
{
    reveal_strlit(",");
    let s = join(v, ","@);
    if v.len() == 1 {
        assert(s == v[0]);
        assert forall|j: int| 0 <= j < s.len() implies s[j] != ',' by {
            assert(v[0][j] != ',');
        }
        lemma_first_at_is(s, ',', s.len() as int);
        assert(seq![s] == v);
    } else {
        let rest = v.skip(1);
        lemma_join_front(v, ","@);
        let n = v[0].len() as int;
        assert forall|j: int| 0 <= j < n implies s[j] != ',' by {
            assert(v[0][j] != ',');
            assert(s[j] == v[0][j]);
        }
        assert(s[n] == ',');
        lemma_first_at_is(s, ',', n);
        assert(s.take(n) == v[0]);
        assert(s.skip(n + 1) == join(rest, ","@));
        assert forall|i: int, k: int| 0 <= i < rest.len() && 0 <= k < rest[i].len() implies
            #[trigger] rest[i][k] != ',' by {
            assert(v[i + 1][k] != ',');
        }
        lemma_fields_of_join(rest);
        assert(seq![v[0]] + rest == v);
    }
}

proof fn lemma_nicks_in(v: Seq<Seq<char>>)
    requires
        forall|i: int| 0 <= i < v.len() ==> reads_as_itself(#[trigger] v[i]),
    ensures
        nicks_in(v) == v,
    decreases v.len(),
{
    if v.len() > 0 {
        assert(reads_as_itself(v[v.len() - 1]));
        assert forall|i: int| 0 <= i < v.drop_last().len() implies reads_as_itself(
            #[trigger] v.drop_last()[i],
        ) by {
            assert(v.drop_last()[i] == v[i]);
        }
        lemma_nicks_in(v.drop_last());
        assert(v.drop_last().push(v.last()) == v);
    }
}

/// A nickname that stands in a list as it is: not blank, and in lower case.
pub open spec fn reads_as_itself(n: Seq<char>) -> bool {
    trim(n).len() > 0 && n.len() > 0 && lowercase(trim(n)) == n
}

/// A list of the blocked that was written is read back, if its nicknames have no commas and
/// read as themselves. An empty one is read back too.
pub proof fn blocked_nicknames_read_back(v: Seq<Seq<char>>)
    ensures
        (forall|i: int, k: int|
            0 <= i < v.len() && 0 <= k < v[i].len() ==> #[trigger] v[i][k] != ',') && (forall|
            i: int,
        |
            0 <= i < v.len() ==> reads_as_itself(#[trigger] v[i])) ==> nick_list(join(v, ","@)) == v,
{
    if (forall|i: int, k: int|
        0 <= i < v.len() && 0 <= k < v[i].len() ==> #[trigger] v[i][k] != ',') && (forall|i: int|
        0 <= i < v.len() ==> reads_as_itself(#[trigger] v[i])) {
        if v.len() == 0 {
            let s = join(v, ","@);
            assert(s.len() == 0);
            lemma_first_at(s, ',');
            assert(fields(s, ',') == seq![s]);
            assert(seq![s].drop_last() == Seq::<Seq<char>>::empty());
            assert(trim(s).len() == 0);
            assert(nicks_in(seq![s]) == nicks_in(seq![s].drop_last()));
        } else {
            lemma_fields_of_join(v);
            lemma_nicks_in(v);
        }
    }
}

} // verus!
