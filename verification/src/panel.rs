//! What the panel shows, whatever its layout, and where it stands.

use vstd::prelude::*;
use crate::bosses::opt_text;
use crate::config::{BossCount, Config, PanelStyle};
use crate::i18n::{t, translated, Locales};
use crate::labels::{
    clip, clip_name, clipped_text, fmt_hms, fmt_mmss, fnv, group_digits, grouped, height_mark,
    height_text, hms, mmss, pad_key, wrap_name, wrapped_name,
};
use crate::scalar::Scalar;
use crate::text::{
    append, append_text, chars_of, cut, decimal, decimal_of, lines, lines_of, runs, string_of,
};

verus! {

/// The nearest boss: his name, how far he is and how far up or down.
pub struct NearestBoss {
    pub name: String,
    pub dist: Scalar,
    pub dy: Scalar,
}

/// What is known of the game at a moment. Times in seconds are whole ones.
pub struct Snapshot {
    /// The game was read at all.
    pub valid: bool,
    pub deaths: u32,
    pub deaths_on_boss: u32,
    pub viewer_deaths: u32,
    pub level: u32,
    pub runes: u32,
    pub runes_total: u32,
    pub play_time_ms: u32,
    pub ng_lvl: u32,
    pub deathless_secs: i128,
    /// Regions visited, and all.
    pub map_explored: (u32, u32),
    /// Bosses killed, and all, of those with a name.
    pub bosses_named: (u32, u32),
    pub bosses_all: (u32, u32),
    pub total_attempts: u32,
    /// The boss being fought; of two the names stand on two lines.
    pub boss_name: Option<String>,
    pub attempts: u32,
    pub attempt_secs: i128,
    pub nearest_boss: Option<NearestBoss>,
    pub in_cutscene: bool,
    pub menu_open: bool,
    pub boss_fight_active: bool,
    /// The player is in Roundtable Hold.
    pub in_hub: bool,
    pub player_dead: bool,
}

/// The texts of numbers with a fraction, which the host writes: the share of the map in
/// whole percent, the rates with one decimal, and the nearest boss in whole meters.
pub struct Figures {
    pub map_percent: String,
    pub bosses_per_hour: String,
    pub deaths_per_hour: String,
    pub attempts_per_boss: String,
    pub nearest_meters: String,
    pub nearest_height: String,
}

/// A metric: a label, its short form for the strip, and a value.
pub struct Item {
    pub label: String,
    pub short: String,
    pub value: String,
}

/// A metric by its texts.
pub struct ItemText {
    pub label: Seq<char>,
    pub short: Seq<char>,
    pub value: Seq<char>,
}

/// The boss counter: its text, and the numbers for its bar.
pub struct Progress {
    pub text: String,
    pub killed: u32,
    pub total: u32,
}

/// Everything that the panel shows.
pub struct Content {
    pub items: Vec<Item>,
    /// The nearest living boss. It stands above the counter and not among the metrics: it
    /// says where to go and not how things are.
    pub nearest: Option<Item>,
    pub progress: Option<Progress>,
    /// The boss being fought.
    pub boss: Option<String>,
    /// The metrics of the fight.
    pub fight: Vec<Item>,
}

impl Item {
    pub open spec fn text(self) -> ItemText {
        ItemText { label: self.label@, short: self.short@, value: self.value@ }
    }
}

pub open spec fn item_texts(v: Seq<Item>) -> Seq<ItemText> {
    v.map_values(|i: Item| i.text())
}

/// A metric with translated labels.
pub open spec fn metric(l: Locales, label: Seq<char>, short: Seq<char>, value: Seq<char>) -> ItemText {
    ItemText { label: translated(l, label), short: translated(l, short), value }
}

/// The list with one more metric if it is switched on.
#[verifier::opaque]
pub open spec fn added(v: Seq<ItemText>, on: bool, item: ItemText) -> Seq<ItemText> {
    if on {
        v.push(item)
    } else {
        v
    }
}

/// The bosses killed, and all, of the set that is shown.
pub open spec fn counted(s: Snapshot, c: Config) -> (u32, u32) {
    match c.boss_count {
        BossCount::Named => s.bosses_named,
        BossCount::All => s.bosses_all,
    }
}

/// The metrics in their order.
pub open spec fn panel_items(s: Snapshot, c: Config, f: Figures, l: Locales) -> Seq<ItemText> {
    let v: Seq<ItemText> = Seq::empty();
    let v: Seq<ItemText> = added(
        v,
        c.show_deaths,
        metric(l, "DEATHS"@, "deaths"@, decimal(s.deaths as nat)),
    );
    let v: Seq<ItemText> = added(
        v,
        c.show_deaths_on_boss,
        metric(l, "DEATHS ON BOSSES"@, "boss deaths"@, decimal(s.deaths_on_boss as nat)),
    );
    let v: Seq<ItemText> = added(
        v,
        c.show_viewer_kills,
        metric(l, "VIEWER KILLS"@, "by viewers"@, decimal(s.viewer_deaths as nat)),
    );
    let v: Seq<ItemText> = added(
        v,
        c.show_level,
        metric(l, "LEVEL"@, "lvl"@, decimal(s.level as nat)),
    );
    let v: Seq<ItemText> = added(
        v,
        c.show_runes,
        metric(
            l,
            "RUNES"@,
            "runes"@,
            grouped(decimal(s.runes as nat), decimal(s.runes as nat).len() as int),
        ),
    );
    let v: Seq<ItemText> = added(
        v,
        c.show_runes_total,
        metric(
            l,
            "RUNES TOTAL"@,
            "total"@,
            grouped(decimal(s.runes_total as nat), decimal(s.runes_total as nat).len() as int),
        ),
    );
    let v: Seq<ItemText> = added(
        v,
        c.show_playtime,
        metric(l, "PLAYTIME"@, "time"@, hms(s.play_time_ms as nat)),
    );
    let v: Seq<ItemText> = added(
        v,
        c.show_ng && s.ng_lvl > 0,
        ItemText { label: "NG+"@, short: "NG+"@, value: decimal(s.ng_lvl as nat) },
    );
    let v: Seq<ItemText> = added(
        v,
        c.show_deathless,
        metric(l, "DEATHLESS"@, "deathless"@, mmss(s.deathless_secs as int)),
    );
    let v: Seq<ItemText> = added(
        v,
        c.show_map_explored,
        metric(l, "MAP"@, "map"@, f.map_percent@ + "%"@),
    );
    let v: Seq<ItemText> = added(
        v,
        c.show_boss_kill_rate && s.play_time_ms > 0,
        metric(l, "BOSSES / HOUR"@, "b/h"@, f.bosses_per_hour@),
    );
    let v: Seq<ItemText> = added(
        v,
        c.show_death_rate && s.play_time_ms > 0,
        metric(l, "DEATHS / HOUR"@, "d/h"@, f.deaths_per_hour@),
    );
    added(
        v,
        c.show_avg_attempts && counted(s, c).0 > 0,
        metric(l, "ATTEMPTS / BOSS"@, "att./boss"@, f.attempts_per_boss@),
    )
}

/// The metrics of the fight: deaths on this boss, which start from nothing, and the time.
pub open spec fn fight_items(s: Snapshot, c: Config, l: Locales) -> Seq<ItemText> {
    let v: Seq<ItemText> = Seq::empty();
    let v: Seq<ItemText> = added(
        v,
        s.boss_name is Some && c.show_attempts,
        metric(
            l,
            "DEATHS##fight"@,
            "deaths##fight"@,
            decimal(
                (if s.attempts > 0 {
                    s.attempts - 1
                } else {
                    0
                }) as nat,
            ),
        ),
    );
    added(
        v,
        s.boss_name is Some && c.show_fight_timer,
        metric(l, "FIGHT TIME"@, "fight"@, mmss(s.attempt_secs as int)),
    )
}

/// The nearest boss as a metric: a long name is wrapped, or cut for the strip.
pub open spec fn nearest_item(
    s: Snapshot,
    c: Config,
    f: Figures,
    l: Locales,
    arrows: bool,
) -> Option<ItemText> {
    match s.nearest_boss {
        Some(n) => if c.show_nearest_boss {
            Some(
                ItemText {
                    label: wrapped_name(n.name@, c.boss_name_wrap as int),
                    short: if c.boss_name_wrap == 0 {
                        n.name@
                    } else {
                        clipped_text(n.name@, c.boss_name_wrap as int)
                    },
                    value: f.nearest_meters@ + translated(l, "m"@) + height_text(
                        n.dy,
                        f.nearest_height@,
                        arrows,
                    ),
                },
            )
        } else {
            None
        },
        None => None,
    }
}

/// The first line of a text.
pub open spec fn first_line(s: Seq<char>) -> Seq<char> {
    if lines(s).len() > 0 {
        lines(s)[0]
    } else {
        Seq::empty()
    }
}

/// The boss being fought: both names of a pair only if they are asked for.
pub open spec fn boss_title(s: Snapshot, c: Config) -> Option<Seq<char>> {
    match s.boss_name {
        Some(n) => if !c.show_boss_name {
            None
        } else if c.show_all_boss_names {
            Some(wrapped_name(n@, c.boss_name_wrap as int))
        } else {
            Some(wrapped_name(first_line(n@), c.boss_name_wrap as int))
        },
        None => None,
    }
}

impl Content {
    /// What the panel shows.
    pub open spec fn shows(
        self,
        s: Snapshot,
        c: Config,
        f: Figures,
        l: Locales,
        arrows: bool,
    ) -> bool {
        &&& item_texts(self.items@) == panel_items(s, c, f, l)
        &&& item_texts(self.fight@) == fight_items(s, c, l)
        &&& match self.nearest {
            Some(i) => nearest_item(s, c, f, l, arrows) == Some(i.text()),
            None => nearest_item(s, c, f, l, arrows) is None,
        }
        &&& match self.progress {
            Some(p) => c.show_bosses && p.killed == counted(s, c).0 && p.total == counted(s, c).1
                && p.text@ == decimal(p.killed as nat) + "/"@ + decimal(p.total as nat),
            None => !c.show_bosses,
        }
        &&& opt_text(self.boss) == boss_title(s, c)
    }

    /// Something of a fight is shown.
    pub open spec fn shows_fight(self) -> bool {
        self.boss is Some || self.fight@.len() > 0
    }

    /// There is nothing to show.
    pub open spec fn shows_nothing(self) -> bool {
        self.items@.len() == 0 && self.progress is None && self.boss is None && self.fight@.len()
            == 0
    }

    /// Whether anything of a fight is shown.
    pub fn has_fight(&self) -> (r: bool)
        ensures
            r == self.shows_fight(),
    {
        self.boss.is_some() || self.fight.len() > 0
    }

    /// Whether there is nothing to show. The nearest boss alone does not bring the panel up.
    pub fn is_empty(&self) -> (r: bool)
        ensures
            r == self.shows_nothing(),
    {
        self.items.len() == 0 && self.progress.is_none() && !self.has_fight()
    }
}

fn add_plain(v: &mut Vec<Item>, on: bool, label: &str, short: &str, value: String)
    ensures
        item_texts(final(v)@) == added(
            item_texts(old(v)@),
            on,
            (ItemText { label: label@, short: short@, value: value@ }),
        ),
{
    proof {
        reveal(added);
    }
    if on {
        let i: Item = Item { label: label.to_string(), short: short.to_string(), value };
        let ghost text = i.text();
        v.push(i);
        assert(item_texts(v@) == item_texts(old(v)@).push(text));
    }
}

fn put(v: &mut Vec<Item>, l: &Locales, on: bool, label: &str, short: &str, value: String)
    ensures
        item_texts(final(v)@) == added(
            item_texts(old(v)@),
            on,
            metric(*l, label@, short@, value@),
        ),
{
    proof {
        reveal(added);
    }
    if on {
        let i: Item = Item { label: t(l, label), short: t(l, short), value };
        let ghost text = i.text();
        v.push(i);
        assert(item_texts(v@) == item_texts(old(v)@).push(text));
    }
}

fn number(n: u32) -> (r: String)
    ensures
        r@ == decimal(n as nat),
{
    string_of(&decimal_of(n as u64))
}

fn make_items(s: &Snapshot, c: &Config, f: &Figures, l: &Locales) -> (r: Vec<Item>)
    ensures
        item_texts(r@) == panel_items(*s, *c, *f, *l),
{
    let mut v: Vec<Item> = Vec::new();
    assert(item_texts(v@) == Seq::<ItemText>::empty());
    put(&mut v, l, c.show_deaths, "DEATHS", "deaths", number(s.deaths));
    put(
        &mut v,
        l,
        c.show_deaths_on_boss,
        "DEATHS ON BOSSES",
        "boss deaths",
        number(s.deaths_on_boss),
    );
    put(&mut v, l, c.show_viewer_kills, "VIEWER KILLS", "by viewers", number(s.viewer_deaths));
    put(&mut v, l, c.show_level, "LEVEL", "lvl", number(s.level));
    put(&mut v, l, c.show_runes, "RUNES", "runes", group_digits(s.runes));
    put(&mut v, l, c.show_runes_total, "RUNES TOTAL", "total", group_digits(s.runes_total));
    put(&mut v, l, c.show_playtime, "PLAYTIME", "time", fmt_hms(s.play_time_ms));
    add_plain(&mut v, c.show_ng && s.ng_lvl > 0, "NG+", "NG+", number(s.ng_lvl));
    put(&mut v, l, c.show_deathless, "DEATHLESS", "deathless", fmt_mmss(s.deathless_secs));
    let mut percent: Vec<char> = chars_of(&f.map_percent);
    append_text(&mut percent, "%");
    put(&mut v, l, c.show_map_explored, "MAP", "map", string_of(&percent));
    put(
        &mut v,
        l,
        c.show_boss_kill_rate && s.play_time_ms > 0,
        "BOSSES / HOUR",
        "b/h",
        f.bosses_per_hour.clone(),
    );
    put(
        &mut v,
        l,
        c.show_death_rate && s.play_time_ms > 0,
        "DEATHS / HOUR",
        "d/h",
        f.deaths_per_hour.clone(),
    );
    let killed: u32 = killed_and_all(s, c).0;
    put(
        &mut v,
        l,
        c.show_avg_attempts && killed > 0,
        "ATTEMPTS / BOSS",
        "att./boss",
        f.attempts_per_boss.clone(),
    );
    v
}

/// The bosses killed, and all, of the set that is shown.
pub fn killed_and_all(s: &Snapshot, c: &Config) -> (r: (u32, u32))
    ensures
        r == counted(*s, *c),
{
    match c.boss_count {
        BossCount::Named => s.bosses_named,
        BossCount::All => s.bosses_all,
    }
}

fn make_fight(s: &Snapshot, c: &Config, l: &Locales) -> (r: Vec<Item>)
    ensures
        item_texts(r@) == fight_items(*s, *c, *l),
{
    let mut v: Vec<Item> = Vec::new();
    assert(item_texts(v@) == Seq::<ItemText>::empty());
    let fighting: bool = s.boss_name.is_some();
    put(
        &mut v,
        l,
        fighting && c.show_attempts,
        "DEATHS##fight",
        "deaths##fight",
        number(s.attempts.saturating_sub(1)),
    );
    put(
        &mut v,
        l,
        fighting && c.show_fight_timer,
        "FIGHT TIME",
        "fight",
        fmt_mmss(s.attempt_secs),
    );
    v
}

fn make_nearest(s: &Snapshot, c: &Config, f: &Figures, l: &Locales, arrows: bool) -> (r: Option<
    Item,
>)
    ensures
        match r {
            Some(i) => nearest_item(*s, *c, *f, *l, arrows) == Some(i.text()),
            None => nearest_item(*s, *c, *f, *l, arrows) is None,
        },
{
    if !c.show_nearest_boss {
        return None;
    }
    match &s.nearest_boss {
        Some(n) => {
            let mut v: Vec<char> = chars_of(&f.nearest_meters);
            append_text(&mut v, &t(l, "m"));
            append_text(&mut v, &height_mark(n.dy, &f.nearest_height, arrows));
            let i: Item = Item {
                label: wrap_name(&n.name, c.boss_name_wrap as usize),
                short: clip_name(&n.name, c.boss_name_wrap as usize),
                value: string_of(&v),
            };
            Some(i)
        },
        None => None,
    }
}

fn make_title(s: &Snapshot, c: &Config) -> (r: Option<String>)
    ensures
        opt_text(r) == boss_title(*s, *c),
{
    match &s.boss_name {
        Some(n) => {
            if !c.show_boss_name {
                None
            } else if c.show_all_boss_names {
                Some(wrap_name(n, c.boss_name_wrap as usize))
            } else {
                let ls: Vec<Vec<char>> = lines_of(n);
                assert(runs(ls@).len() == ls.len());
                let first: String = if ls.len() > 0 {
                    assert(runs(ls@)[0] == ls@[0]@);
                    string_of(&ls[0])
                } else {
                    String::new()
                };
                assert(first@ == first_line(n@));
                Some(wrap_name(&first, c.boss_name_wrap as usize))
            }
        },
        None => None,
    }
}

/// What the panel shows: everything gathered once, whatever the layout. `arrows` says
/// whether the font has arrows.
pub fn content(s: &Snapshot, c: &Config, f: &Figures, l: &Locales, arrows: bool) -> (r: Content)
    ensures
        r.shows(*s, *c, *f, *l, arrows),
{
    let progress: Option<Progress> = if c.show_bosses {
        let (killed, total): (u32, u32) = killed_and_all(s, c);
        let mut v: Vec<char> = decimal_of(killed as u64);
        append_text(&mut v, "/");
        append(&mut v, &decimal_of(total as u64));
        Some(Progress { text: string_of(&v), killed, total })
    } else {
        None
    };
    Content {
        items: make_items(s, c, f, l),
        nearest: make_nearest(s, c, f, l, arrows),
        progress,
        boss: make_title(s, c),
        fight: make_fight(s, c, l),
    }
}

/// A metric that is switched off is gone, and one that is switched on is there.
pub proof fn switches_add_and_remove(v: Seq<ItemText>, item: ItemText)
    ensures
        added(v, false, item) == v,
        added(v, true, item) == v.push(item),
{
    reveal(added);
}

/// Without a boss there is nothing of a fight.
pub proof fn a_fight_needs_a_boss(s: Snapshot, c: Config, l: Locales)
    requires
        s.boss_name is None,
    ensures
        fight_items(s, c, l).len() == 0,
        boss_title(s, c) is None,
{
    reveal(added);
}

/// The label of the boss counter.
pub fn progress_label(l: &Locales) -> (r: String)
    ensures
        r@ == translated(*l, "BOSSES"@),
{
    t(l, "BOSSES")
}

// ---------------------------------------------------------------------------
// The frame
// ---------------------------------------------------------------------------

/// The frame of a plate. The panel and the purchase card have one each.
#[derive(Clone, Copy, Debug, PartialEq, Eq, Structural)]
pub struct Chrome {
    pub style: PanelStyle,
    pub fill: Scalar,
    pub border: Scalar,
    pub rounding: Scalar,
    pub width: Scalar,
}

impl Chrome {
    pub fn panel(c: &Config) -> (r: Chrome)
        ensures
            r == (Chrome {
                style: c.panel_style,
                fill: c.panel_opacity,
                border: c.border_opacity,
                rounding: c.panel_rounding,
                width: c.border_width,
            }),
    {
        Chrome {
            style: c.panel_style,
            fill: c.panel_opacity,
            border: c.border_opacity,
            rounding: c.panel_rounding,
            width: c.border_width,
        }
    }

    pub fn toast(c: &Config) -> (r: Chrome)
        ensures
            r == (Chrome {
                style: c.toast_style,
                fill: c.toast_opacity,
                border: c.toast_border_opacity,
                rounding: c.toast_rounding,
                width: c.toast_border_width,
            }),
    {
        Chrome {
            style: c.toast_style,
            fill: c.toast_opacity,
            border: c.toast_border_opacity,
            rounding: c.toast_rounding,
            width: c.toast_border_width,
        }
    }
}

// ---------------------------------------------------------------------------
// Where the panel stands
// ---------------------------------------------------------------------------

/// Where the panel stands along one axis and whether it is pinned to the far edge. `edge`
/// is how far it can go on the screen, at least 0. A pinned panel stays at the edge even
/// when it shrinks.
pub open spec fn placed(pos: Scalar, edge: Scalar, pinned: bool) -> (Scalar, bool) {
    if pinned || edge.below(pos) {
        (edge, true)
    } else {
        (pos.larger(Scalar { bits: 0 }), false)
    }
}

pub fn place(pos: Scalar, edge: Scalar, pinned: bool) -> (r: (Scalar, bool))
    ensures
        r == placed(pos, edge, pinned),
{
    if pinned || edge.lt(pos) {
        (edge, true)
    } else {
        (pos.max(Scalar { bits: 0 }), false)
    }
}

/// Where the panel is pinned, and the position for which that was decided.
#[derive(Clone, Copy, Debug, PartialEq, Eq, Structural)]
pub struct PanelPin {
    pub x: Scalar,
    pub y: Scalar,
    pub pinned_x: bool,
    pub pinned_y: bool,
}

/// Two positions are the same number.
pub open spec fn same_number(a: Scalar, b: Scalar) -> bool {
    a.at_most(b) && b.at_most(a)
}

/// The panel has been placed, and it is kept where it is pinned.
pub open spec fn panel_placed(
    before: PanelPin,
    after: PanelPin,
    at: (Scalar, Scalar),
    edge: (Scalar, Scalar),
    r: (Scalar, Scalar),
) -> bool {
    let moved: bool = !same_number(before.x, at.0) || !same_number(before.y, at.1);
    let px: (Scalar, bool) = placed(at.0, edge.0, !moved && before.pinned_x);
    let py: (Scalar, bool) = placed(at.1, edge.1, !moved && before.pinned_y);
    &&& r == (px.0, py.0)
    &&& after.pinned_x == px.1
    &&& after.pinned_y == py.1
    &&& moved ==> after.x == at.0 && after.y == at.1
    &&& !moved ==> after.x == before.x && after.y == before.y
}

impl PanelPin {
    /// Not pinned, and decided for no position at all.
    pub fn new() -> (r: PanelPin)
        ensures
            r.x.is_nan(),
            r.y.is_nan(),
            !r.pinned_x,
            !r.pinned_y,
    {
        PanelPin {
            x: Scalar { bits: 0x7FC0_0000 },
            y: Scalar { bits: 0x7FC0_0000 },
            pinned_x: false,
            pinned_y: false,
        }
    }

    /// Places the panel. Moving it by hand undoes the pinning.
    pub fn place_panel(&mut self, x: Scalar, y: Scalar, edge_x: Scalar, edge_y: Scalar) -> (r: (
        Scalar,
        Scalar,
    ))
        ensures
            panel_placed(*old(self), *final(self), (x, y), (edge_x, edge_y), r),
    {
        let same_x: bool = self.x.le(x) && x.le(self.x);
        let same_y: bool = self.y.le(y) && y.le(self.y);
        if !same_x || !same_y {
            self.x = x;
            self.y = y;
            self.pinned_x = false;
            self.pinned_y = false;
        }
        let (ax, px): (Scalar, bool) = place(x, edge_x, self.pinned_x);
        let (ay, py): (Scalar, bool) = place(y, edge_y, self.pinned_y);
        self.pinned_x = px;
        self.pinned_y = py;
        (ax, ay)
    }
}

/// A panel that reached the edge stays there when it shrinks, as long as nobody moves it.
pub proof fn a_pinned_panel_stays_at_the_edge(pos: Scalar, edge: Scalar, wider: Scalar)
    requires
        edge.below(pos),
    ensures
        placed(pos, edge, false) == (edge, true),
        placed(pos, wider, placed(pos, edge, false).1) == (wider, true),
{
}

// ---------------------------------------------------------------------------
// Dragging a handle
// ---------------------------------------------------------------------------

/// A handle being dragged. There is one for all handles, so it knows whose it is.
#[derive(Clone, Copy, Debug)]
pub struct PadDrag {
    pub owner: u64,
    /// Where the object was when it was grabbed.
    pub start: (Scalar, Scalar),
    /// The axis to which the drag is held: 0 for none, 1 for across, 2 for up and down.
    pub axis: u8,
    /// The place on the screen to which the cursor is pinned.
    pub anchor: (i32, i32),
    /// Where the cursor was at the end of the last frame.
    pub last: (i32, i32),
    /// How far the mouse has moved in all.
    pub travel: (i64, i64),
}

/// The size of a movement.
pub open spec fn size_of(n: i64) -> int {
    if n < 0 {
        -n
    } else {
        n as int
    }
}

/// A sum brought into 64 bits.
pub open spec fn summed(a: i64, b: int) -> i64 {
    if a + b > i64::MAX {
        i64::MAX
    } else if a + b < i64::MIN {
        i64::MIN
    } else {
        (a + b) as i64
    }
}

/// The axis after a movement: with Shift the first one that moves noticeably, without it
/// none.
pub open spec fn axis_after(axis: u8, travel: (i64, i64), shift: bool) -> u8 {
    if !shift {
        0
    } else if axis == 0 && (size_of(travel.0) > 6 || size_of(travel.1) > 6) {
        if size_of(travel.0) >= size_of(travel.1) {
            1
        } else {
            2
        }
    } else {
        axis
    }
}

/// Whose drag it is after a frame in which the handle `id` is or is not held: a foreign
/// drag is not inherited, and only one's own is ended.
pub open spec fn grabbed(
    drag: Option<PadDrag>,
    id: Seq<char>,
    active: bool,
    at: (Scalar, Scalar),
    cursor: (i32, i32),
) -> Option<PadDrag> {
    let key: u64 = fnv(vstd::utf8::encode_utf8(id));
    let mine: bool = drag is Some && drag.unwrap().owner == key;
    if active {
        if mine {
            drag
        } else {
            Some(
                PadDrag {
                    owner: key,
                    start: at,
                    axis: 0,
                    anchor: cursor,
                    last: cursor,
                    travel: (0, 0),
                },
            )
        }
    } else if mine {
        None
    } else {
        drag
    }
}

/// Begins, goes on with or ends a drag.
pub fn grab(
    drag: &mut Option<PadDrag>,
    id: &str,
    active: bool,
    at: (Scalar, Scalar),
    cursor: (i32, i32),
)
    ensures
        *final(drag) == grabbed(*old(drag), id@, active, at, cursor),
{
    let key: u64 = pad_key(id);
    let mine: bool = match drag {
        Some(d) => d.owner == key,
        None => false,
    };
    if active {
        if !mine {
            *drag = Some(
                PadDrag {
                    owner: key,
                    start: at,
                    axis: 0,
                    anchor: cursor,
                    last: cursor,
                    travel: (0, 0),
                },
            );
        }
    } else if mine {
        *drag = None;
    }
}

fn sum(a: i64, b: i64) -> (r: i64)
    ensures
        r == summed(a, b as int),
{
    match a.checked_add(b) {
        Some(n) => n,
        None => if b > 0 {
            i64::MAX
        } else {
            i64::MIN
        },
    }
}

fn size(n: i64) -> (r: u64)
    ensures
        r == size_of(n),
{
    if n == i64::MIN {
        0x8000_0000_0000_0000
    } else if n < 0 {
        (-n) as u64
    } else {
        n as u64
    }
}

impl PadDrag {
    /// Moves the drag by what the cursor moved since the last frame; `after` is where the
    /// cursor is once it has been put back. Returns whether the object moves across and
    /// whether it moves up and down.
    pub fn moved(&mut self, cursor: (i32, i32), after: (i32, i32), shift: bool) -> (r: (
        bool,
        bool,
    ))
        ensures
            final(self).owner == old(self).owner,
            final(self).start == old(self).start,
            final(self).anchor == old(self).anchor,
            final(self).last == after,
            final(self).travel.0 == summed(old(self).travel.0, cursor.0 - old(self).last.0),
            final(self).travel.1 == summed(old(self).travel.1, cursor.1 - old(self).last.1),
            final(self).axis == axis_after(old(self).axis, final(self).travel, shift),
            r.0 == (final(self).axis != 2),
            r.1 == (final(self).axis != 1),
    {
        self.travel = (
            sum(self.travel.0, cursor.0 as i64 - self.last.0 as i64),
            sum(self.travel.1, cursor.1 as i64 - self.last.1 as i64),
        );
        self.last = after;
        let (dx, dy): (u64, u64) = (size(self.travel.0), size(self.travel.1));
        if shift {
            if self.axis == 0 && (dx > 6 || dy > 6) {
                self.axis = if dx >= dy {
                    1
                } else {
                    2
                };
            }
        } else {
            self.axis = 0;
        }
        (self.axis != 2, self.axis != 1)
    }
}

// ---------------------------------------------------------------------------
// Cards and lists
// ---------------------------------------------------------------------------

/// The encoding of 0.05: a countdown that has less left is over.
pub const COUNTDOWN_OVER: u32 = 0x3D4C_CCCD;

/// What stands on the right of a card: the seconds until something happens, else the price,
/// else nothing.
pub open spec fn right_of(left: Option<(Scalar, String)>, cost: u32, l: Locales) -> Seq<char> {
    if left is Some && (Scalar { bits: COUNTDOWN_OVER }).below(left.unwrap().0) {
        left.unwrap().1@ + " "@ + translated(l, "s"@)
    } else if cost == 0 {
        Seq::empty()
    } else {
        decimal(cost as nat)
    }
}

/// What stands on the right of a purchase card. `left` is how many seconds are left, with the
/// text of the whole ones.
pub fn right_text(left: &Option<(Scalar, String)>, cost: u32, l: &Locales) -> (r: String)
    ensures
        r@ == right_of(*left, cost, *l),
{
    match left {
        Some((secs, whole)) => {
            if (Scalar { bits: COUNTDOWN_OVER }).lt(*secs) {
                let mut v: Vec<char> = chars_of(whole);
                append_text(&mut v, " ");
                append_text(&mut v, &t(l, "s"));
                return string_of(&v);
            }
        },
        None => {},
    }
    if cost == 0 {
        String::new()
    } else {
        number(cost)
    }
}

/// How an ally is called in the list: by who sent it and what it is, or only by what it is.
pub open spec fn ally_name(viewer: Seq<char>, name: Seq<char>) -> Seq<char> {
    if clipped_text(viewer, 14).len() == 0 {
        name
    } else {
        clipped_text(viewer, 14) + " - "@ + name
    }
}

/// How an ally is called in the list.
pub fn ally_label(viewer: &str, name: &str) -> (r: String)
    ensures
        r@ == ally_name(viewer@, name@),
{
    let who: String = clip(viewer, 14);
    let mut v: Vec<char> = chars_of(&who);
    if v.len() == 0 {
        return name.to_string();
    }
    append_text(&mut v, " - ");
    append_text(&mut v, name);
    string_of(&v)
}

/// A line of the window with raw values.
pub enum DebugLine {
    /// The heading of a section.
    Heading(String),
    /// A line that belongs to the one before.
    Detail(String),
    Plain(String),
}

/// What is said of a line.
pub open spec fn is_line_kind(line: Seq<char>, r: DebugLine) -> bool {
    match r {
        DebugLine::Heading(s) => line.len() >= 2 && line[0] == '#' && line[1] == ' ' && s@
            == line.skip(2),
        DebugLine::Detail(s) => line.len() >= 2 && line[0] == ' ' && line[1] == ' ' && s@
            == line.skip(2),
        DebugLine::Plain(s) => s@ == line && !(line.len() >= 2 && line[1] == ' ' && (line[0] == '#'
            || line[0] == ' ')),
    }
}

/// What kind of line it is: `# ` before a heading, two spaces before a detail.
pub fn debug_line(line: &str) -> (r: DebugLine)
    ensures
        is_line_kind(line@, r),
{
    let v: Vec<char> = chars_of(line);
    if v.len() >= 2 && v[1] == ' ' && (v[0] == '#' || v[0] == ' ') {
        let tail: Vec<char> = cut(&v, 2, v.len());
        assert(tail@ == line@.skip(2));
        if v[0] == '#' {
            DebugLine::Heading(string_of(&tail))
        } else {
            DebugLine::Detail(string_of(&tail))
        }
    } else {
        DebugLine::Plain(line.to_string())
    }
}

} // verus!
