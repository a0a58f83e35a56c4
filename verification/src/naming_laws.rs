//! What holds of the turn in which viewers' names are given, of names on several lines, of the
//! diagnostics, and of what a frame hands to a purchase.

use vstd::arithmetic::div_mod::{lemma_add_mod_noop, lemma_mod_twice};
use vstd::prelude::*;
use crate::frame::{after_seeing, Play};
use crate::hud::{news_card, scene_of};
use crate::labels::{with_words, wrapped_line, words};
use crate::nicknames::{free_name, pick, swept, Ties};
use crate::panel::Snapshot;
use crate::probe::{
    block_of, first_alive, map_of, named_count, raised_numbers, unknown_of, with_name, with_place,
    Sighting,
};
use crate::bosses::{Boss, Cell};
use crate::registry::{TableName, TableRow};
use crate::text::decimal;

verus! {

// ---------------------------------------------------------------------------
// The turn
// ---------------------------------------------------------------------------

/// The viewer some steps further in turn.
pub open spec fn in_turn(viewers: Seq<Seq<char>>, cursor: int, k: int) -> Seq<char> {
    viewers[(cursor + k) % viewers.len() as int]
}

proof fn lemma_next_in_turn(cursor: int, k: int, len: int)
    requires
        len > 0,
    ensures
        ((cursor + 1) % len + k) % len == (cursor + 1 + k) % len,
{
    lemma_add_mod_noop(cursor + 1, k, len);
    lemma_add_mod_noop((cursor + 1) % len, k, len);
    lemma_mod_twice(cursor + 1, len);
}

proof fn lemma_pick(
    viewers: Seq<Seq<char>>,
    used: Seq<Seq<char>>,
    shown: Map<Seq<char>, u64>,
    cursor: int,
    fresh: bool,
    n: int,
    k: int,
)
    requires
        viewers.len() > 0,
        0 <= k < n,
        !used.contains(in_turn(viewers, cursor, k)),
        fresh ==> !shown.contains_key(in_turn(viewers, cursor, k)),
        forall|j: int|
            0 <= j < k ==> used.contains(#[trigger] in_turn(viewers, cursor, j)) || (fresh
                && shown.contains_key(in_turn(viewers, cursor, j))),
    ensures
        pick(viewers, used, shown, cursor, fresh, n) == (
            Some(in_turn(viewers, cursor, k)),
            (cursor + k + 1) % viewers.len() as int,
        ),
    decreases n,
{
    let len: int = viewers.len() as int;
    let next: int = (cursor + 1) % len;
    if k == 0 {
        assert(in_turn(viewers, cursor, 0) == viewers[cursor % len]);
    } else {
        assert(in_turn(viewers, cursor, 0) == viewers[cursor % len]);
        assert forall|j: int| 0 <= j < k - 1 implies used.contains(
            #[trigger] in_turn(viewers, next, j),
        ) || (fresh && shown.contains_key(in_turn(viewers, next, j))) by {
            lemma_next_in_turn(cursor, j, len);
            assert(in_turn(viewers, next, j) == in_turn(viewers, cursor, j + 1));
        }
        lemma_next_in_turn(cursor, k - 1, len);
        assert(in_turn(viewers, next, k - 1) == in_turn(viewers, cursor, k));
        lemma_pick(viewers, used, shown, next, fresh, n - 1, k - 1);
        lemma_next_in_turn(cursor, k, len);
    }
}

proof fn lemma_pick_none(
    viewers: Seq<Seq<char>>,
    used: Seq<Seq<char>>,
    shown: Map<Seq<char>, u64>,
    cursor: int,
    fresh: bool,
    n: int,
)
    requires
        viewers.len() > 0,
        n >= 0,
        forall|i: int|
            0 <= i < viewers.len() ==> used.contains(#[trigger] viewers[i]) || (fresh
                && shown.contains_key(viewers[i])),
    ensures
        pick(viewers, used, shown, cursor, fresh, n).0 is None,
    decreases n,
{
    if n > 0 {
        let len: int = viewers.len() as int;
        let at: int = cursor % len;
        assert(0 <= at < len);
        assert(used.contains(viewers[at]) || (fresh && shown.contains_key(viewers[at])));
        lemma_pick_none(viewers, used, shown, (cursor + 1) % len, fresh, n - 1);
    }
}

/// The next name is that of the first viewer in turn who is neither on the screen nor resting,
/// and the turn goes on behind them.
pub proof fn names_go_in_turn(
    viewers: Seq<Seq<char>>,
    used: Seq<Seq<char>>,
    shown: Map<Seq<char>, u64>,
    cursor: int,
    k: int,
)
    requires
        0 <= k < viewers.len(),
        !used.contains(in_turn(viewers, cursor, k)),
        !shown.contains_key(in_turn(viewers, cursor, k)),
        forall|j: int|
            0 <= j < k ==> used.contains(#[trigger] in_turn(viewers, cursor, j))
                || shown.contains_key(in_turn(viewers, cursor, j)),
    ensures
        free_name(viewers, used, shown, cursor) == (
            Some(in_turn(viewers, cursor, k)),
            (cursor + k + 1) % viewers.len() as int,
        ),
{
    lemma_pick(viewers, used, shown, cursor, true, viewers.len() as int, k);
}

/// Where all rest, somebody who is not on the screen is named all the same; and where all are
/// on the screen nobody is named twice.
pub proof fn a_small_chat_does_not_run_out(
    viewers: Seq<Seq<char>>,
    used: Seq<Seq<char>>,
    shown: Map<Seq<char>, u64>,
    cursor: int,
    v: int,
)
    requires
        0 <= v < viewers.len(),
    ensures
        !used.contains(viewers[v]) ==> free_name(viewers, used, shown, cursor).0 is Some,
        free_name(viewers, used, shown, cursor).0 matches Some(n) ==> !used.contains(n)
            && viewers.contains(n),
        (!used.contains(viewers[v]) && !shown.contains_key(viewers[v])) ==> !shown.contains_key(
            free_name(viewers, used, shown, cursor).0.unwrap(),
        ),
{
    let n: int = viewers.len() as int;
    lemma_picked(viewers, used, shown, cursor, true, n);
    let (name, at) = pick(viewers, used, shown, cursor, true, n);
    lemma_picked(viewers, used, shown, at, false, n);
    if !used.contains(viewers[v]) {
        lemma_some_step(viewers, used, shown, at, false, v);
        if !shown.contains_key(viewers[v]) {
            lemma_some_step(viewers, used, shown, cursor, true, v);
        }
    }
}

proof fn lemma_picked(
    viewers: Seq<Seq<char>>,
    used: Seq<Seq<char>>,
    shown: Map<Seq<char>, u64>,
    cursor: int,
    fresh: bool,
    n: int,
)
    requires
        viewers.len() > 0,
    ensures
        pick(viewers, used, shown, cursor, fresh, n).0 matches Some(name) ==> viewers.contains(name)
            && !used.contains(name) && (fresh ==> !shown.contains_key(name)),
    decreases n,
{
    if n > 0 {
        let len: int = viewers.len() as int;
        assert(0 <= cursor % len < len);
        assert(viewers.contains(viewers[cursor % len]));
        lemma_picked(viewers, used, shown, (cursor + 1) % len, fresh, n - 1);
    }
}

proof fn lemma_some_step(
    viewers: Seq<Seq<char>>,
    used: Seq<Seq<char>>,
    shown: Map<Seq<char>, u64>,
    cursor: int,
    fresh: bool,
    v: int,
)
    requires
        0 <= v < viewers.len(),
        !used.contains(viewers[v]),
        fresh ==> !shown.contains_key(viewers[v]),
    ensures
        pick(viewers, used, shown, cursor, fresh, viewers.len() as int).0 is Some,
{
    let len: int = viewers.len() as int;
    let k: int = (v - cursor) % len;
    lemma_add_mod_noop(cursor, v - cursor, len);
    lemma_add_mod_noop(cursor, k, len);
    lemma_mod_twice(v - cursor, len);
    assert((cursor + k) % len == v % len);
    assert(v % len == v) by (nonlinear_arith)
        requires
            0 <= v < len,
    ;
    assert(0 <= k < len);
    lemma_until(viewers, used, shown, cursor, fresh, len, k);
}

proof fn lemma_until(
    viewers: Seq<Seq<char>>,
    used: Seq<Seq<char>>,
    shown: Map<Seq<char>, u64>,
    cursor: int,
    fresh: bool,
    n: int,
    k: int,
)
    requires
        viewers.len() > 0,
        0 <= k < n,
        !used.contains(in_turn(viewers, cursor, k)),
        fresh ==> !shown.contains_key(in_turn(viewers, cursor, k)),
    ensures
        pick(viewers, used, shown, cursor, fresh, n).0 is Some,
    decreases n,
{
    let len: int = viewers.len() as int;
    assert(in_turn(viewers, cursor, 0) == viewers[cursor % len]);
    if k > 0 {
        let next: int = (cursor + 1) % len;
        lemma_next_in_turn(cursor, k - 1, len);
        assert(in_turn(viewers, next, k - 1) == in_turn(viewers, cursor, k));
        lemma_until(viewers, used, shown, next, fresh, n - 1, k - 1);
    }
}

/// Where everybody is on the screen, no name is left.
pub proof fn no_name_twice(
    viewers: Seq<Seq<char>>,
    used: Seq<Seq<char>>,
    shown: Map<Seq<char>, u64>,
    cursor: int,
)
    requires
        viewers.len() > 0,
        forall|i: int| 0 <= i < viewers.len() ==> used.contains(#[trigger] viewers[i]),
    ensures
        free_name(viewers, used, shown, cursor).0 is None,
{
    let n: int = viewers.len() as int;
    lemma_pick_none(viewers, used, shown, cursor, true, n);
    let at = pick(viewers, used, shown, cursor, true, n).1;
    lemma_pick_none(viewers, used, shown, at, false, n);
}

/// An enemy keeps its name for thirty seconds out of sight, and loses it before that only if
/// its viewer is gone from a new list. A name rests for ninety seconds after it was shown.
pub proof fn how_long_names_last(
    t: Ties,
    viewers: Seq<Seq<char>>,
    generation: u64,
    now: u64,
    h: u64,
    name: Seq<char>,
)
    ensures
        ({
            let u = swept(t, viewers, generation, now);
            &&& u.assigned.contains_key(h) <==> {
                &&& t.assigned.contains_key(h)
                &&& now < t.assigned[h].1 + 30_000_000_000
                &&& (t.seen_gen == generation || viewers.contains(t.assigned[h].0))
            }
            &&& u.assigned.contains_key(h) ==> u.assigned[h] == t.assigned[h]
            &&& u.shown.contains_key(name) <==> t.shown.contains_key(name) && now < t.shown[name]
                + 90_000_000_000
            &&& u.shown.contains_key(name) ==> u.shown[name] == t.shown[name]
            &&& u.seen_gen == generation
            &&& u.cursor == t.cursor
        }),
{
}

// ---------------------------------------------------------------------------
// Names on several lines
// ---------------------------------------------------------------------------

/// No line of a name is longer than what is allowed, unless it is a single word.
pub proof fn lines_are_short_enough(line: Seq<char>, max: int, k: int)
    requires
        0 <= k < wrapped_line(line, max).len(),
        max >= 0,
    ensures
        wrapped_line(line, max)[k].len() <= max || words(line).contains(wrapped_line(line, max)[k]),
{
    lemma_short(words(line), max);
}

proof fn lemma_short(ws: Seq<Seq<char>>, max: int)
    requires
        max >= 0,
    ensures
        forall|k: int|
            0 <= k < with_words(ws, max).done.len() ==> is_short(
                #[trigger] with_words(ws, max).done[k],
                ws,
                max,
            ),
        is_short(with_words(ws, max).current, ws, max),
    decreases ws.len(),
{
    if ws.len() > 0 {
        let front = ws.drop_last();
        lemma_short(front, max);
        let before = with_words(front, max);
        let out = with_words(ws, max);
        assert(ws[ws.len() - 1] == ws.last());
        assert forall|x: Seq<char>| is_short(x, front, max) implies #[trigger] is_short(
            x,
            ws,
            max,
        ) by {
            if front.contains(x) {
                let i = choose|i: int| 0 <= i < front.len() && front[i] == x;
                assert(ws[i] == x);
            }
        }
        assert forall|k: int| 0 <= k < out.done.len() implies is_short(
            #[trigger] out.done[k],
            ws,
            max,
        ) by {
            if k < before.done.len() {
                assert(out.done[k] == before.done[k]);
                assert(is_short(before.done[k], front, max));
            } else {
                assert(is_short(before.current, front, max));
            }
        }
        assert(ws.contains(ws.last()));
    }
}

/// A line is short enough, or one of the words.
pub open spec fn is_short(line: Seq<char>, ws: Seq<Seq<char>>, max: int) -> bool {
    line.len() <= max || ws.contains(line)
}

// ---------------------------------------------------------------------------
// Diagnostics
// ---------------------------------------------------------------------------

/// Told as unknown are exactly the flags that the table lacks.
pub proof fn what_the_table_lacks(fs: Seq<u32>, table: Map<u32, TableRow>, flag: u32)
    ensures
        unknown_of(fs, table).contains(flag) <==> fs.contains(flag) && !table.contains_key(flag),
    decreases fs.len(),
{
    if fs.len() > 0 {
        let front = fs.drop_last();
        let n: int = fs.len() - 1;
        what_the_table_lacks(front, table, flag);
        let before = unknown_of(front, table);
        let out = unknown_of(fs, table);
        assert(fs[n] == fs.last());
        if fs.contains(flag) {
            let i = choose|i: int| 0 <= i < fs.len() && fs[i] == flag;
            if i < n {
                assert(front[i] == flag);
                assert(front.contains(flag));
            }
        }
        if front.contains(flag) {
            let i = choose|i: int| 0 <= i < front.len() && front[i] == flag;
            assert(fs[i] == flag);
        }
        if before.contains(flag) {
            let k = choose|k: int| 0 <= k < before.len() && before[k] == flag;
            assert(out[k] == flag);
        }
        if !table.contains_key(fs[n]) {
            assert(out[before.len() as int] == fs[n]);
        }
        if out.contains(flag) {
            let k = choose|k: int| 0 <= k < out.len() && out[k] == flag;
            if k < before.len() {
                assert(before[k] == flag);
                assert(before.contains(flag));
            } else {
                assert(fs[n] == flag);
            }
        }
    }
}

/// One flag more, one name more if the table gives one: a text of its own, or the number of a
/// text that the game has.
pub proof fn names_are_counted(fs: Seq<u32>, table: Map<u32, TableRow>, ids: Set<u32>, flag: u32)
    ensures
        named_count(fs, table, ids) <= fs.len(),
        !table.contains_key(flag) ==> named_count(fs.push(flag), table, ids) == named_count(
            fs,
            table,
            ids,
        ),
        table.contains_key(flag) ==> match table[flag].name {
            TableName::Text(_) => named_count(fs.push(flag), table, ids) == named_count(
                fs,
                table,
                ids,
            ) + 1,
            TableName::Id(n) => named_count(fs.push(flag), table, ids) - named_count(
                fs,
                table,
                ids,
            ) == if ids.contains(n) {
                1int
            } else {
                0
            },
        },
    decreases fs.len(),
{
    assert(fs.push(flag).drop_last() == fs);
    if fs.len() > 0 {
        names_are_counted(fs.drop_last(), table, ids, flag);
    }
}

/// A flag belongs to the map of the last area that has it.
pub proof fn the_map_of_a_flag(areas: Seq<(u32, Cell)>, i: int)
    requires
        0 <= i < areas.len(),
        forall|j: int| i < j < areas.len() ==> (#[trigger] areas[j]).0 != areas[i].0,
    ensures
        map_of(areas, areas[i].0) == Some(areas[i].1),
    decreases areas.len(),
{
    let n: int = areas.len() - 1;
    assert(areas[n] == areas.last());
    if i < n {
        let front = areas.drop_last();
        assert(front[i] == areas[i]);
        assert forall|j: int| i < j < front.len() implies (#[trigger] front[j]).0
            != front[i].0 by {
            assert(front[j] == areas[j]);
        }
        assert(areas[n].0 != areas[i].0);
        the_map_of_a_flag(front, i);
    }
}

/// Every boss counts once, with a name and with a place as he has them.
pub proof fn bosses_are_counted(bs: Seq<Boss>, b: Boss)
    ensures
        with_name(bs.push(b)) - with_name(bs) == if b.name is Some {
            1int
        } else {
            0
        },
        with_place(bs.push(b)) - with_place(bs) == if b.place is Some {
            1int
        } else {
            0
        },
{
    assert(bs.push(b).drop_last() == bs);
}

/// The boss worth a look is the first in the order who lives.
pub proof fn the_first_who_lives(
    bs: Seq<Boss>,
    near: Seq<Option<Sighting>>,
    order: Seq<usize>,
    k: int,
)
    requires
        0 <= k < order.len(),
        !near[order[k] as int].unwrap().killed,
        forall|j: int| 0 <= j < k ==> near[(#[trigger] order[j]) as int].unwrap().killed,
    ensures
        first_alive(bs, near, order) == Some(bs[order[k] as int].flag),
    decreases order.len(),
{
    if k > 0 {
        let rest = order.skip(1);
        assert(near[order[0] as int].unwrap().killed);
        assert(rest[k - 1] == order[k]);
        assert forall|j: int| 0 <= j < k - 1 implies near[(
        #[trigger] rest[j]) as int].unwrap().killed by {
            assert(rest[j] == order[j + 1]);
        }
        the_first_who_lives(bs, near, rest, k - 1);
    }
}

/// The block of a flag begins at a whole thousand, and the flag is in it.
pub proof fn the_block_of_a_flag(flag: u32)
    ensures
        block_of(flag) % 1000 == 0,
        block_of(flag) <= flag < block_of(flag) + 1000,
{
}

/// Every flag that is up is among those told as raised, and nothing is told of more flags than
/// there are.
pub proof fn what_is_raised(up: Seq<bool>, n: int, i: int)
    requires
        0 <= i < n <= up.len(),
        up[i],
    ensures
        raised_numbers(up, n).contains(decimal(i as nat)),
        raised_numbers(up, n).len() <= n,
    decreases n,
{
    let before = raised_numbers(up, n - 1);
    let out = raised_numbers(up, n);
    lemma_raised_len(up, n);
    if i < n - 1 {
        what_is_raised(up, n - 1, i);
        let k = choose|k: int| 0 <= k < before.len() && before[k] == decimal(i as nat);
        assert(out[k] == before[k]);
    } else {
        assert(out[before.len() as int] == decimal(i as nat));
    }
}

proof fn lemma_raised_len(up: Seq<bool>, n: int)
    requires
        0 <= n,
    ensures
        raised_numbers(up, n).len() <= n,
    decreases n,
{
    if n > 0 {
        lemma_raised_len(up, n - 1);
    }
}

// ---------------------------------------------------------------------------
// From a frame to a purchase
// ---------------------------------------------------------------------------

/// A purchase is judged by what the last frame showed.
pub proof fn purchases_are_judged_by_the_frame(p: Play, s: Snapshot, focused: bool)
    ensures
        scene_of(after_seeing(p, s, focused)).boss_fight == s.boss_fight_active,
        scene_of(after_seeing(p, s, focused)).in_hub == s.in_hub,
        scene_of(after_seeing(p, s, focused)).gameplay <==> s.valid && focused && !s.menu_open
            && !s.in_cutscene && !p.settings_open,
{
}

/// The card that tells of the connection costs nothing, has no countdown and can be refunded
/// to nobody.
pub proof fn news_cost_nothing(text: Seq<char>, now: u64)
    ensures
        news_card(text, now).label == text,
        news_card(text, now).at == now,
        news_card(text, now).cost == 0,
        news_card(text, now).countdown_to is None,
        news_card(text, now).redemption_id.len() == 0,
{
}

} // verus!
