//! What the panel says: every number under its own name, times and names as they are read.

use vstd::prelude::*;
use crate::bosses::opt_text;
use crate::boss_list::two_digits;
use crate::config::{BossCount, Config};
use crate::i18n::{translated, Locales};
use crate::labels::{clipped_text, fitting, grouped, height_text, hms, mmss, wrapped_name};
use crate::panel::{
    added, axis_after, boss_title, counted, fight_items, item_texts, metric, nearest_item,
    panel_items, placed, right_of, ally_name, Content, Figures, ItemText, Snapshot,
};
use crate::scalar::Scalar;
use crate::text::{decimal, digits_value, is_digit, lemma_decimal, lines};

verus! {

// ---------------------------------------------------------------------------
// The metrics
// ---------------------------------------------------------------------------

/// One for a switch that is on.
pub open spec fn one_if(on: bool) -> int {
    if on {
        1
    } else {
        0
    }
}

/// What the panel can show of the game.
pub enum Metric {
    Deaths,
    BossDeaths,
    ViewerKills,
    Level,
    Runes,
    RunesTotal,
    PlayTime,
    NewGame,
    Deathless,
    MapShare,
    BossRate,
    DeathRate,
    Attempts,
}

/// The metrics stand in this order.
pub open spec fn place_in_order(m: Metric) -> int {
    match m {
        Metric::Deaths => 0,
        Metric::BossDeaths => 1,
        Metric::ViewerKills => 2,
        Metric::Level => 3,
        Metric::Runes => 4,
        Metric::RunesTotal => 5,
        Metric::PlayTime => 6,
        Metric::NewGame => 7,
        Metric::Deathless => 8,
        Metric::MapShare => 9,
        Metric::BossRate => 10,
        Metric::DeathRate => 11,
        Metric::Attempts => 12,
    }
}

/// A metric is shown: it is switched on, and there is something to tell. Without play time there
/// is no rate, without a kill no average, and the first playthrough has no number.
pub open spec fn is_shown(m: Metric, s: Snapshot, c: Config) -> bool {
    match m {
        Metric::Deaths => c.show_deaths,
        Metric::BossDeaths => c.show_deaths_on_boss,
        Metric::ViewerKills => c.show_viewer_kills,
        Metric::Level => c.show_level,
        Metric::Runes => c.show_runes,
        Metric::RunesTotal => c.show_runes_total,
        Metric::PlayTime => c.show_playtime,
        Metric::NewGame => c.show_ng && s.ng_lvl >= 1,
        Metric::Deathless => c.show_deathless,
        Metric::MapShare => c.show_map_explored,
        Metric::BossRate => c.show_boss_kill_rate && s.play_time_ms >= 1,
        Metric::DeathRate => c.show_death_rate && s.play_time_ms >= 1,
        Metric::Attempts => c.show_avg_attempts && (if c.boss_count == BossCount::Named {
            s.bosses_named.0
        } else {
            s.bosses_all.0
        }) >= 1,
    }
}

/// The metric at a place of the order.
pub open spec fn metric_at(k: int) -> Metric {
    if k == 0 {
        Metric::Deaths
    } else if k == 1 {
        Metric::BossDeaths
    } else if k == 2 {
        Metric::ViewerKills
    } else if k == 3 {
        Metric::Level
    } else if k == 4 {
        Metric::Runes
    } else if k == 5 {
        Metric::RunesTotal
    } else if k == 6 {
        Metric::PlayTime
    } else if k == 7 {
        Metric::NewGame
    } else if k == 8 {
        Metric::Deathless
    } else if k == 9 {
        Metric::MapShare
    } else if k == 10 {
        Metric::BossRate
    } else if k == 11 {
        Metric::DeathRate
    } else {
        Metric::Attempts
    }
}

/// How many of the first `k` metrics are shown.
pub open spec fn shown_of(k: int, s: Snapshot, c: Config) -> int
    decreases k,
{
    if k <= 0 {
        0
    } else {
        shown_of(k - 1, s, c) + one_if(is_shown(metric_at(k - 1), s, c))
    }
}

/// The words for a metric, and its short ones.
pub open spec fn words_for(m: Metric) -> (Seq<char>, Seq<char>) {
    match m {
        Metric::Deaths => ("DEATHS"@, "deaths"@),
        Metric::BossDeaths => ("DEATHS ON BOSSES"@, "boss deaths"@),
        Metric::ViewerKills => ("VIEWER KILLS"@, "by viewers"@),
        Metric::Level => ("LEVEL"@, "lvl"@),
        Metric::Runes => ("RUNES"@, "runes"@),
        Metric::RunesTotal => ("RUNES TOTAL"@, "total"@),
        Metric::PlayTime => ("PLAYTIME"@, "time"@),
        Metric::NewGame => ("NG+"@, "NG+"@),
        Metric::Deathless => ("DEATHLESS"@, "deathless"@),
        Metric::MapShare => ("MAP"@, "map"@),
        Metric::BossRate => ("BOSSES / HOUR"@, "b/h"@),
        Metric::DeathRate => ("DEATHS / HOUR"@, "d/h"@),
        Metric::Attempts => ("ATTEMPTS / BOSS"@, "att./boss"@),
    }
}

/// The number that a metric is about, as a text.
pub open spec fn value_shown(m: Metric, s: Snapshot, f: Figures) -> Seq<char> {
    match m {
        Metric::Deaths => decimal(s.deaths as nat),
        Metric::BossDeaths => decimal(s.deaths_on_boss as nat),
        Metric::ViewerKills => decimal(s.viewer_deaths as nat),
        Metric::Level => decimal(s.level as nat),
        Metric::Runes => grouped(decimal(s.runes as nat), decimal(s.runes as nat).len() as int),
        Metric::RunesTotal => grouped(decimal(s.runes_total as nat), decimal(s.runes_total as nat).len() as int),
        Metric::PlayTime => hms(s.play_time_ms as nat),
        Metric::NewGame => decimal(s.ng_lvl as nat),
        Metric::Deathless => mmss(s.deathless_secs as int),
        Metric::MapShare => f.map_percent@ + "%"@,
        Metric::BossRate => f.bosses_per_hour@,
        Metric::DeathRate => f.deaths_per_hour@,
        Metric::Attempts => f.attempts_per_boss@,
    }
}

proof fn lemma_added(v: Seq<ItemText>, on: bool, item: ItemText)
    ensures
        added(v, on, item).len() == v.len() + one_if(on),
        forall|i: int| 0 <= i < v.len() ==> #[trigger] added(v, on, item)[i] == v[i],
        on ==> added(v, on, item)[v.len() as int] == item,
{
    reveal(added);
}

/// A metric as it is shown: under its own words and with its own number.
pub open spec fn shown_as(m: Metric, s: Snapshot, f: Figures, l: Locales) -> ItemText {
    ItemText {
        label: if m is NewGame {
            words_for(m).0
        } else {
            translated(l, words_for(m).0)
        },
        short: if m is NewGame {
            words_for(m).1
        } else {
            translated(l, words_for(m).1)
        },
        value: value_shown(m, s, f),
    }
}

spec fn items_upto(k: int, s: Snapshot, c: Config, f: Figures, l: Locales) -> Seq<ItemText>
    decreases k,
{
    if k <= 0 {
        Seq::empty()
    } else {
        added(
            items_upto(k - 1, s, c, f, l),
            is_shown(metric_at(k - 1), s, c),
            shown_as(metric_at(k - 1), s, f, l),
        )
    }
}

proof fn lemma_items_upto(k: int, j: int, s: Snapshot, c: Config, f: Figures, l: Locales)
    requires
        0 <= k,
    ensures
        items_upto(k, s, c, f, l).len() == shown_of(k, s, c),
        (0 <= j < k && is_shown(metric_at(j), s, c)) ==> 0 <= shown_of(j, s, c) < shown_of(k, s, c)
            && items_upto(k, s, c, f, l)[shown_of(j, s, c)] == shown_as(metric_at(j), s, f, l),
    decreases k,
{
    if k > 0 {
        lemma_items_upto(k - 1, j, s, c, f, l);
        lemma_added(
            items_upto(k - 1, s, c, f, l),
            is_shown(metric_at(k - 1), s, c),
            shown_as(metric_at(k - 1), s, f, l),
        );
    }
}

proof fn lemma_all_items(s: Snapshot, c: Config, f: Figures, l: Locales)
    ensures
        panel_items(s, c, f, l) == items_upto(13, s, c, f, l),
{
    let v1 = items_upto(1, s, c, f, l);
    let v2 = items_upto(2, s, c, f, l);
    let v3 = items_upto(3, s, c, f, l);
    let v4 = items_upto(4, s, c, f, l);
    let v5 = items_upto(5, s, c, f, l);
    let v6 = items_upto(6, s, c, f, l);
    let v7 = items_upto(7, s, c, f, l);
    let v8 = items_upto(8, s, c, f, l);
    let v9 = items_upto(9, s, c, f, l);
    let v10 = items_upto(10, s, c, f, l);
    let v11 = items_upto(11, s, c, f, l);
    let v12 = items_upto(12, s, c, f, l);
    let v13 = items_upto(13, s, c, f, l);
    assert(items_upto(0, s, c, f, l) == Seq::<ItemText>::empty());
    assert(v1 == added(Seq::<ItemText>::empty(), c.show_deaths, metric(l, "DEATHS"@, "deaths"@, decimal(s.deaths as nat))));
    assert(v2 == added(v1, c.show_deaths_on_boss, metric(l, "DEATHS ON BOSSES"@, "boss deaths"@, decimal(s.deaths_on_boss as nat))));
    assert(v3 == added(v2, c.show_viewer_kills, metric(l, "VIEWER KILLS"@, "by viewers"@, decimal(s.viewer_deaths as nat))));
    assert(v4 == added(v3, c.show_level, metric(l, "LEVEL"@, "lvl"@, decimal(s.level as nat))));
    assert(v5 == added(v4, c.show_runes, metric(l, "RUNES"@, "runes"@, grouped(decimal(s.runes as nat), decimal(s.runes as nat).len() as int))));
    assert(v6 == added(v5, c.show_runes_total, metric(l, "RUNES TOTAL"@, "total"@, grouped(decimal(s.runes_total as nat), decimal(s.runes_total as nat).len() as int))));
    assert(v7 == added(v6, c.show_playtime, metric(l, "PLAYTIME"@, "time"@, hms(s.play_time_ms as nat))));
    assert(v8 == added(v7, c.show_ng && s.ng_lvl > 0, (ItemText { label: "NG+"@, short: "NG+"@, value: decimal(s.ng_lvl as nat) })));
    assert(v9 == added(v8, c.show_deathless, metric(l, "DEATHLESS"@, "deathless"@, mmss(s.deathless_secs as int))));
    assert(v10 == added(v9, c.show_map_explored, metric(l, "MAP"@, "map"@, f.map_percent@ + "%"@)));
    assert(v11 == added(v10, c.show_boss_kill_rate && s.play_time_ms > 0, metric(l, "BOSSES / HOUR"@, "b/h"@, f.bosses_per_hour@)));
    assert(v12 == added(v11, c.show_death_rate && s.play_time_ms > 0, metric(l, "DEATHS / HOUR"@, "d/h"@, f.deaths_per_hour@)));
    assert(v13 == added(v12, c.show_avg_attempts && counted(s, c).0 > 0, metric(l, "ATTEMPTS / BOSS"@, "att./boss"@, f.attempts_per_boss@)));
}

/// Every metric that is shown stands in its place, under its own words and with its own number;
/// and as many are shown as are switched on and have something to tell.
pub proof fn every_metric_has_its_number(m: Metric, s: Snapshot, c: Config, f: Figures, l: Locales)
    ensures
        panel_items(s, c, f, l).len() == shown_of(13, s, c),
        is_shown(m, s, c) ==> 0 <= shown_of(place_in_order(m), s, c) < shown_of(13, s, c)
            && panel_items(s, c, f, l)[shown_of(place_in_order(m), s, c)] == shown_as(m, s, f, l),
        c.show_deaths ==> panel_items(s, c, f, l)[0].value == decimal(s.deaths as nat),
{
    lemma_all_items(s, c, f, l);
    assert(metric_at(place_in_order(m)) == m);
    lemma_items_upto(13, place_in_order(m), s, c, f, l);
    lemma_items_upto(13, 0, s, c, f, l);
    assert(metric_at(0) is Deaths);
    assert(shown_of(0, s, c) == 0);
}

proof fn lemma_same_items(k: int, s: Snapshot, u: Snapshot, c: Config, f: Figures, l: Locales)
    requires
        forall|m: Metric| #[trigger] is_shown(m, s, c) == is_shown(m, u, c),
        forall|m: Metric|
            is_shown(m, s, c) ==> #[trigger] value_shown(m, s, f) == value_shown(m, u, f),
    ensures
        items_upto(k, s, c, f, l) == items_upto(k, u, c, f, l),
    decreases k,
{
    if k > 0 {
        lemma_same_items(k - 1, s, u, c, f, l);
        let m = metric_at(k - 1);
        assert(is_shown(m, s, c) == is_shown(m, u, c));
        if is_shown(m, s, c) {
            assert(value_shown(m, s, f) == value_shown(m, u, f));
        } else {
            reveal(added);
        }
    }
}

/// What is not shown makes no difference: two games that differ only in numbers whose metrics
/// are switched off give the same metrics.
pub proof fn hidden_numbers_do_not_show(s: Snapshot, u: Snapshot, c: Config, f: Figures, l: Locales)
    requires
        forall|m: Metric| #[trigger] is_shown(m, s, c) == is_shown(m, u, c),
        forall|m: Metric|
            is_shown(m, s, c) ==> #[trigger] value_shown(m, s, f) == value_shown(m, u, f),
    ensures
        panel_items(s, c, f, l) == panel_items(u, c, f, l),
{
    lemma_all_items(s, c, f, l);
    lemma_all_items(u, c, f, l);
    lemma_same_items(13, s, u, c, f, l);
}

/// Deaths on bosses do not show while they are switched off.
pub proof fn boss_deaths_do_not_show(s: Snapshot, n: u32, c: Config, f: Figures, l: Locales)
    requires
        !c.show_deaths_on_boss,
    ensures
        panel_items(s, c, f, l) == panel_items(
            Snapshot { deaths_on_boss: n, ..s },
            c,
            f,
            l,
        ),
{
    hidden_numbers_do_not_show(s, Snapshot { deaths_on_boss: n, ..s }, c, f, l);
}

/// The fight: deaths on this boss are one less than the attempts, beginning with none, and the
/// time is that of this attempt. They are shown only while a boss is fought, each if it is
/// switched on.
pub proof fn what_a_fight_shows(s: Snapshot, c: Config, l: Locales)
    ensures
        fight_items(s, c, l).len() == one_if(s.boss_name is Some && c.show_attempts) + one_if(
            s.boss_name is Some && c.show_fight_timer,
        ),
        (s.boss_name is Some && c.show_attempts && s.attempts >= 1) ==> fight_items(
            s,
            c,
            l,
        )[0].value == decimal((s.attempts - 1) as nat),
        (s.boss_name is Some && c.show_attempts && s.attempts == 0) ==> fight_items(
            s,
            c,
            l,
        )[0].value == decimal(0),
        (s.boss_name is Some && c.show_attempts) ==> fight_items(s, c, l)[0].label == translated(
            l,
            "DEATHS##fight"@,
        ),
        (s.boss_name is Some && c.show_fight_timer) ==> {
            let i = fight_items(s, c, l)[one_if(c.show_attempts)];
            i.value == mmss(s.attempt_secs as int) && i.label == translated(l, "FIGHT TIME"@)
        },
{
    reveal(added);
}

/// The boss being fought is shown by name only if that is switched on: by the first of their
/// names, or by all if those are asked for; long ones are broken between words.
pub proof fn whose_name_is_shown(s: Snapshot, c: Config)
    ensures
        boss_title(s, c) is Some <==> s.boss_name is Some && c.show_boss_name,
        (s.boss_name is Some && c.show_boss_name && c.show_all_boss_names) ==> boss_title(s, c)
            == Some(wrapped_name(s.boss_name.unwrap()@, c.boss_name_wrap as int)),
        (s.boss_name is Some && c.show_boss_name && !c.show_all_boss_names && lines(
            s.boss_name.unwrap()@,
        ).len() > 0) ==> boss_title(s, c) == Some(
            wrapped_name(lines(s.boss_name.unwrap()@)[0], c.boss_name_wrap as int),
        ),
        (s.boss_name is Some && c.boss_name_wrap == 0 && c.show_all_boss_names
            && c.show_boss_name) ==> boss_title(s, c) == Some(s.boss_name.unwrap()@),
{
}

/// The nearest boss is shown with the meters along the ground and the sign for their height;
/// only if that is switched on and there is one.
pub proof fn the_nearest_boss_is_shown(
    s: Snapshot,
    c: Config,
    f: Figures,
    l: Locales,
    arrows: bool,
)
    ensures
        nearest_item(s, c, f, l, arrows) is Some <==> c.show_nearest_boss
            && s.nearest_boss is Some,
        nearest_item(s, c, f, l, arrows) matches Some(i) ==> {
            let n = s.nearest_boss.unwrap();
            let meters = f.nearest_meters@ + translated(l, "m"@);
            &&& i.label == wrapped_name(n.name@, c.boss_name_wrap as int)
            &&& c.boss_name_wrap == 0 ==> i.short == n.name@ && i.label == n.name@
            &&& c.boss_name_wrap > 0 && n.name@.len() <= c.boss_name_wrap ==> i.short == n.name@
            &&& i.value.len() >= meters.len()
            &&& i.value.take(meters.len() as int) == meters
            &&& i.value.skip(meters.len() as int) == height_text(n.dy, f.nearest_height@, arrows)
        },
{
    match nearest_item(s, c, f, l, arrows) {
        Some(i) => {
            let n = s.nearest_boss.unwrap();
            let meters = f.nearest_meters@ + translated(l, "m"@);
            let h = height_text(n.dy, f.nearest_height@, arrows);
            assert(i.value == meters + h);
            assert(i.value.take(meters.len() as int) == meters);
            assert(i.value.skip(meters.len() as int) == h);
        },
        None => {},
    }
}

/// The counter of bosses shows the killed and all of the set that was chosen, with a slash
/// between them, and only if it is switched on.
pub proof fn the_counter_counts_the_chosen_set(
    r: Content,
    s: Snapshot,
    c: Config,
    f: Figures,
    l: Locales,
    arrows: bool,
)
    requires
        r.shows(s, c, f, l, arrows),
    ensures
        r.progress is Some <==> c.show_bosses,
        r.progress matches Some(p) ==> {
            &&& c.boss_count == BossCount::Named ==> (p.killed, p.total) == s.bosses_named
            &&& c.boss_count == BossCount::All ==> (p.killed, p.total) == s.bosses_all
            &&& p.text@ == decimal(p.killed as nat) + "/"@ + decimal(p.total as nat)
        },
        item_texts(r.items@) == panel_items(s, c, f, l),
        item_texts(r.fight@) == fight_items(s, c, l),
        opt_text(r.boss) == boss_title(s, c),
{
}

// ---------------------------------------------------------------------------
// Times and numbers
// ---------------------------------------------------------------------------

proof fn lemma_digits_lead(s: Seq<char>)
    ensures
        digits_value(seq!['0'] + s) == digits_value(s),
    decreases s.len(),
{
    let t = seq!['0'] + s;
    if s.len() == 0 {
        assert(t.drop_last() == Seq::<char>::empty());
        assert(t.last() == '0');
        assert(digits_value(Seq::<char>::empty()) == 0);
        assert(digits_value(t) == 0);
        assert(s == Seq::<char>::empty());
    } else {
        assert(t.drop_last() == seq!['0'] + s.drop_last());
        assert(t.last() == s.last());
        lemma_digits_lead(s.drop_last());
    }
}

/// Two digits at least, and they are the number.
pub proof fn two_digits_are_the_number(n: nat)
    ensures
        two_digits(n).len() >= 2,
        digits_value(two_digits(n)) == n,
        n < 100 ==> two_digits(n).len() == 2,
        forall|i: int| 0 <= i < two_digits(n).len() ==> is_digit(#[trigger] two_digits(n)[i]),
{
    lemma_decimal(n);
    lemma_digits_lead(decimal(n));
    if n < 10 {
        assert forall|i: int| 0 <= i < two_digits(n).len() implies is_digit(
            #[trigger] two_digits(n)[i],
        ) by {
            if i > 0 {
                assert(two_digits(n)[i] == decimal(n)[i - 1]);
            }
        }
    } else {
        lemma_decimal(n / 10);
        assert(decimal(n).len() == decimal(n / 10).len() + 1);
        if n < 100 {
            assert(decimal(n / 10).len() == 1);
        }
    }
}

/// A time is told in hours, minutes and seconds that make it up, with less than sixty of
/// either.
pub proof fn hours_minutes_seconds(ms: nat) -> (t: (nat, nat, nat))
    ensures
        hms(ms) == decimal(t.0) + ":"@ + two_digits(t.1) + ":"@ + two_digits(t.2),
        t.1 < 60,
        t.2 < 60,
        (t.0 * 3600 + t.1 * 60 + t.2) * 1000 <= ms < (t.0 * 3600 + t.1 * 60 + t.2 + 1) * 1000,
{
    let total: nat = ms / 1000;
    (total / 3600, total / 60 % 60, total % 60)
}

/// A time of a fight is told in minutes and seconds that make it up; less than nothing is
/// nothing.
pub proof fn minutes_and_seconds(secs: int) -> (t: (nat, nat))
    requires
        secs <= u64::MAX,
    ensures
        mmss(secs) == decimal(t.0) + ":"@ + two_digits(t.1),
        t.1 < 60,
        secs >= 0 ==> t.0 * 60 + t.1 == secs,
        secs < 0 ==> t.0 == 0 && t.1 == 0,
{
    let total: int = if secs < 0 {
        0
    } else {
        secs
    };
    ((total / 60) as nat, (total % 60) as nat)
}

proof fn lemma_groups(s: Seq<char>, k: int)
    requires
        0 <= k <= s.len(),
        forall|i: int| 0 <= i < s.len() ==> #[trigger] s[i] != ' ',
    ensures
        ({
            let n: int = s.len() as int;
            let all: int = n + (n - 1) / 3;
            let g = grouped(s, k);
            &&& k >= 1 ==> g.len() == k + (n - 1) / 3 - (n - k) / 3
            &&& k == 0 ==> g.len() == 0
            &&& forall|q: int|
                0 <= q < g.len() ==> (#[trigger] g[q] == ' ' <==> (all - 1 - q) % 4 == 3)
        }),
    decreases k,
{
    let n: int = s.len() as int;
    let all: int = n + (n - 1) / 3;
    if k > 0 {
        let i: int = k - 1;
        lemma_groups(s, i);
        let b = grouped(s, i);
        let g = grouped(s, k);
        assert(s[i] != ' ');
        let m: int = (n - i) / 3;
        let r: int = (n - i) % 3;
        assert(n - i == 3 * m + r);
        if i > 0 && r == 0 {
            assert((n - k) / 3 == m - 1) by (nonlinear_arith)
                requires
                    n - i == 3 * m,
                    k == i + 1,
            ;
            assert(all - 1 - b.len() == 4 * m - 1);
            assert((all - 1 - b.len()) % 4 == 3);
            assert((all - 1 - (b.len() + 1)) % 4 == 2);
        } else if i > 0 {
            assert((n - k) / 3 == m) by (nonlinear_arith)
                requires
                    n - i == 3 * m + r,
                    1 <= r < 3,
                    k == i + 1,
            ;
            assert(all - 1 - b.len() == 4 * m + r - 1);
        } else {
            let m0: int = (n - 1) / 3;
            let r0: int = (n - 1) % 3;
            assert(n - 1 == 3 * m0 + r0);
            assert(all - 1 == 4 * m0 + r0);
        }
        assert forall|q: int| 0 <= q < g.len() implies (#[trigger] g[q] == ' ' <==> (all - 1 - q)
            % 4 == 3) by {
            if q < b.len() {
                assert(g[q] == b[q]);
            }
        }
    }
}

/// Long numbers are told in groups of three digits, counted from the end, with one space
/// before each full group but the first.
pub proof fn digits_stand_in_threes(n: nat, q: int)
    requires
        0 <= q < grouped(decimal(n), decimal(n).len() as int).len(),
    ensures
        ({
            let g = grouped(decimal(n), decimal(n).len() as int);
            &&& g[g.len() - 1 - q] == ' ' <==> q % 4 == 3
            &&& g[0] != ' '
        }),
{
    lemma_decimal(n);
    let s = decimal(n);
    assert forall|i: int| 0 <= i < s.len() implies #[trigger] s[i] != ' ' by {
        assert(is_digit(s[i]));
    }
    lemma_groups(s, s.len() as int);
    let g = grouped(s, s.len() as int);
    let len: int = s.len() as int;
    let m0: int = (len - 1) / 3;
    let r0: int = (len - 1) % 3;
    assert(len - 1 == 3 * m0 + r0);
    assert(g.len() - 1 == 4 * m0 + r0);
    assert(g[g.len() - 1 - q] == ' ' <==> (g.len() - 1 - (g.len() - 1 - q)) % 4 == 3);
    assert(g[0] == ' ' <==> (g.len() - 1) % 4 == 3);
}

/// A difference in height is told only from two meters on, upwards and downwards with signs of
/// their own, and by the meters that it is.
pub proof fn heights_point_the_right_way(dy: Scalar, meters: Seq<char>, arrows: bool)
    requires
        !dy.is_nan(),
    ensures
        height_text(dy, meters, arrows).len() == 0 <==> (Scalar { bits: 0xC000_0000 }).below(dy)
            && dy.below(Scalar { bits: 0x4000_0000 }),
        (Scalar { bits: 0x4000_0000 }).at_most(dy) ==> height_text(dy, meters, arrows) == seq![
            ' ',
            if arrows {
                '\u{2191}'
            } else {
                '+'
            },
        ] + meters,
        dy.at_most(Scalar { bits: 0xC000_0000 }) ==> height_text(dy, meters, arrows) == seq![
            ' ',
            if arrows {
                '\u{2193}'
            } else {
                '-'
            },
        ] + meters,
{
}

/// A text that is cut is its beginning with three dots; one that is short enough is whole.
pub proof fn cutting_keeps_the_beginning(s: Seq<char>, max: int)
    requires
        0 <= max,
    ensures
        s.len() <= max ==> clipped_text(s, max) == s,
        s.len() > max ==> clipped_text(s, max).len() == max + 3 && clipped_text(s, max).take(max)
            == s.take(max) && clipped_text(s, max).skip(max) == seq!['.', '.', '.'],
{
    reveal_strlit("...");
    if s.len() > max {
        assert(clipped_text(s, max).take(max) == s.take(max));
        assert(clipped_text(s, max).skip(max) == seq!['.', '.', '.']);
    }
}

/// As many characters fit as there are beginnings, one after another, that are not too wide.
pub proof fn what_fits(too_wide: Seq<bool>)
    ensures
        0 <= fitting(too_wide) <= too_wide.len(),
        forall|i: int| 0 <= i < fitting(too_wide) ==> !#[trigger] too_wide[i],
        fitting(too_wide) < too_wide.len() ==> too_wide[fitting(too_wide)],
    decreases too_wide.len(),
{
    if too_wide.len() > 0 && !too_wide[0] {
        what_fits(too_wide.skip(1));
        assert forall|i: int| 0 <= i < fitting(too_wide) implies !#[trigger] too_wide[i] by {
            if i > 0 {
                assert(too_wide[i] == too_wide.skip(1)[i - 1]);
            }
        }
    }
}

// ---------------------------------------------------------------------------
// Cards, allies, and where the panel stands
// ---------------------------------------------------------------------------

/// On the right of a card stand the seconds while a countdown runs, and else the price, if
/// there was one.
pub proof fn seconds_before_the_price(left: Option<(Scalar, String)>, cost: u32, l: Locales)
    ensures
        (left is Some && (Scalar { bits: 0x3D4C_CCCD }).below(left.unwrap().0)) ==> right_of(
            left,
            cost,
            l,
        ) == left.unwrap().1@ + " "@ + translated(l, "s"@),
        (left is None || left.unwrap().0.at_most(Scalar { bits: 0x3D4C_CCCD })) ==> (if cost == 0 {
            right_of(left, cost, l).len() == 0
        } else {
            right_of(left, cost, l) == decimal(cost as nat)
        }),
{
}

/// An ally is called by who sent them and by what they are; by the latter alone if nobody did.
pub proof fn allies_are_called_by_their_sender(viewer: Seq<char>, name: Seq<char>)
    ensures
        viewer.len() == 0 ==> ally_name(viewer, name) == name,
        0 < viewer.len() <= 14 ==> ally_name(viewer, name) == viewer + " - "@ + name,
        viewer.len() > 14 ==> ally_name(viewer, name) == viewer.take(14) + "..."@ + " - "@ + name,
{
    reveal_strlit("...");
}

/// The panel stands where it was put, as long as it is on the screen: never before its
/// beginning, and never beyond where it still fits.
pub proof fn the_panel_stays_on_the_screen(pos: Scalar, edge: Scalar, pinned: bool)
    requires
        !pos.is_nan(),
        !edge.is_nan(),
        (Scalar { bits: 0 }).at_most(edge),
    ensures
        (Scalar { bits: 0 }).at_most(placed(pos, edge, pinned).0),
        placed(pos, edge, pinned).0.at_most(edge),
        (!pinned && (Scalar { bits: 0 }).at_most(pos) && pos.at_most(edge)) ==> placed(
            pos,
            edge,
            pinned,
        ).0 == pos && !placed(pos, edge, pinned).1,
        pinned ==> placed(pos, edge, pinned) == (edge, true),
        edge.below(pos) ==> placed(pos, edge, pinned) == (edge, true),
{
}

/// A drag is held to one axis only with Shift, from a movement of more than six on: to the one
/// along which it went farther. Once chosen it stays, and without Shift it is free again.
pub proof fn shift_holds_a_drag(axis: u8, travel: (i64, i64), shift: bool)
    requires
        axis <= 2,
    ensures
        !shift ==> axis_after(axis, travel, shift) == 0,
        (shift && axis != 0) ==> axis_after(axis, travel, shift) == axis,
        (shift && axis == 0 && -6 <= travel.0 <= 6 && -6 <= travel.1 <= 6) ==> axis_after(
            axis,
            travel,
            shift,
        ) == 0,
        (shift && axis == 0 && travel.0 > 6 && -travel.0 <= travel.1 <= travel.0) ==> axis_after(
            axis,
            travel,
            shift,
        ) == 1,
        (shift && axis == 0 && travel.1 > 6 && -travel.1 < travel.0 < travel.1) ==> axis_after(
            axis,
            travel,
            shift,
        ) == 2,
{
}

} // verus!
