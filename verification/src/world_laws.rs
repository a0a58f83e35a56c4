//! Numbers, places, names and labels: what holds of how the world is read.

use vstd::prelude::*;
use crate::bosses::{
    blocks_apart, cell_of_player, comparable_cells, entity_cell, first_pin, grace_offers,
    graces_of, marker_offers, marker_rank, nearest_grace, neighbour_grace, offer, offers_for, opt_text,
    place_at, sub_name, sub_text, tab_text, Bonfire, Cell, GraceMarker, GraceText, Marker, Offer,
    SubCategory, Tab,
};
use crate::learned::{
    after_distance, after_fight, after_flags, after_world, first_risen, on_arena, to_watch,
    LoreText, Near,
};
use crate::registry::{
    area_bosses, boss_of, chr_text, id_in, model_of, name_id, npc_text, row_at, table_line,
    table_of, table_text, table_value, Area, AreaFacts, NameText, Sources,
};
use crate::scalar::Scalar;
use crate::tags::{
    any_shows, bar_at, draws_name, each_once, has_label, kept_in, label_of, labels, looks_again,
    native_labels, slot_shows, with_bought, DrawnBar, Sight, Spot, Tag, TagSlot,
};
use crate::text::{
    decimal, decimal_reads_back, is_digit, is_white, lemma_decimal, lemma_first_at_is,
    lemma_trim_end, lemma_trim_start, split_once, starts_with, trim,
};

verus! {

// ---------------------------------------------------------------------------
// Numbers
// ---------------------------------------------------------------------------

/// Numbers are ordered as their encodings are: without a sign upwards, with one downwards, and
/// those with a sign before those without. Nothing is ordered with what is no number.
pub proof fn numbers_are_in_order(a: u32, b: u32)
    ensures
        ({
            let x = Scalar { bits: a };
            let y = Scalar { bits: b };
            &&& (a <= 0x7F80_0000 && b <= 0x7F80_0000) ==> (x.below(y) <==> a < b) && (x.at_most(y)
                <==> a <= b)
            &&& (0x8000_0000 <= a <= 0xFF80_0000 && 0x8000_0000 <= b <= 0xFF80_0000) ==> (x.below(y)
                <==> a > b) && (x.at_most(y) <==> a >= b)
            &&& (0x8000_0000 < a <= 0xFF80_0000 && b <= 0x7F80_0000) ==> x.below(y) && !y.at_most(x)
            &&& (a == 0x8000_0000 && b == 0) ==> x.at_most(y) && y.at_most(x)
            &&& (0x7F80_0000 < a < 0x8000_0000 || a > 0xFF80_0000) ==> !x.below(y) && !x.at_most(y)
                && !y.below(x) && !y.at_most(x)
        }),
{
}

/// A number within the bounds is left alone, one beyond a bound becomes that bound, and what
/// is no number stays.
pub proof fn bounds_move_only_what_is_beyond(x: Scalar, low: Scalar, high: Scalar)
    requires
        low.at_most(high),
    ensures
        (low.at_most(x) && x.at_most(high)) ==> x.bounded(low, high) == x,
        x.below(low) ==> x.bounded(low, high) == low,
        high.below(x) ==> x.bounded(low, high) == high,
        !x.at_most(x) ==> x.bounded(low, high) == x,
{
}

/// The larger of two numbers is one of them and neither is above it; against what is no number
/// the number wins.
pub proof fn the_larger_of_two(x: Scalar, y: Scalar)
    ensures
        x.larger(y) == x || x.larger(y) == y,
        (x.at_most(x) && y.at_most(y)) ==> x.at_most(x.larger(y)) && y.at_most(x.larger(y)),
        (!x.at_most(x) && y.at_most(y)) ==> x.larger(y) == y,
        (x.at_most(x) && !y.at_most(y)) ==> x.larger(y) == x,
{
}

// ---------------------------------------------------------------------------
// Labels over enemies
// ---------------------------------------------------------------------------

/// Who gets a label of those whom the game tags: without the switch nobody. An enemy whose tag
/// is up and at most a second and a half old gets one if they were bought, boss or not; a boss
/// who was not bought never does, and nobody over whom the game writes a name itself. One whose
/// tag is down or older never does, bought or not.
pub proof fn who_is_labelled(
    ts: Seq<TagSlot>,
    drawn: Seq<DrawnBar>,
    always: Seq<u64>,
    bosses: Seq<u64>,
    mobs: bool,
    h: u64,
)
    ensures
        has_label(native_labels(ts, drawn, always, bosses, mobs), h) <==> mobs && exists|i: int|
            {
                &&& 0 <= i < ts.len()
                &&& (#[trigger] ts[i]).handle == Some(h)
                &&& ts[i].visible
                &&& ts[i].age.at_most(Scalar { bits: 0x3FC0_0000 })
                &&& (always.contains(h) || (!bosses.contains(h) && !ts[i].own_name))
            },
{
    if mobs {
        lemma_labelled(ts, drawn, always, bosses, h);
    }
    let out = native_labels(ts, drawn, always, bosses, mobs);
    if mobs && !any_shows(ts) {
        assert(!has_label(out, h));
        assert forall|i: int| 0 <= i < ts.len() implies !((#[trigger] ts[i]).handle == Some(h)
            && ts[i].visible && ts[i].age.at_most(Scalar { bits: 0x3FC0_0000 })) by {
            assert(!slot_shows(ts[i]));
        }
    }
}

proof fn lemma_labelled(
    ts: Seq<TagSlot>,
    drawn: Seq<DrawnBar>,
    always: Seq<u64>,
    bosses: Seq<u64>,
    h: u64,
)
    ensures
        has_label(labels(ts, drawn, always, bosses), h) <==> exists|i: int|
            {
                &&& 0 <= i < ts.len()
                &&& (#[trigger] ts[i]).handle == Some(h)
                &&& ts[i].visible
                &&& ts[i].age.at_most(Scalar { bits: 0x3FC0_0000 })
                &&& (always.contains(h) || (!bosses.contains(h) && !ts[i].own_name))
            },
    decreases ts.len(),
{
    if ts.len() > 0 {
        let front = ts.drop_last();
        let n: int = ts.len() - 1;
        lemma_labelled(front, drawn, always, bosses, h);
        let before = labels(front, drawn, always, bosses);
        let out = labels(ts, drawn, always, bosses);
        assert(ts[n] == ts.last());
        if has_label(out, h) {
            let k = choose|k: int| 0 <= k < out.len() && (#[trigger] out[k]).handle == h;
            if k < before.len() {
                assert(before[k].handle == h);
                assert(has_label(before, h));
                let i = choose|i: int|
                    {
                        &&& 0 <= i < front.len()
                        &&& (#[trigger] front[i]).handle == Some(h)
                        &&& front[i].visible
                        &&& front[i].age.at_most(Scalar { bits: 0x3FC0_0000 })
                        &&& (always.contains(h) || (!bosses.contains(h) && !front[i].own_name))
                    };
                assert(ts[i] == front[i]);
            } else {
                assert(ts[n].handle == Some(h));
            }
        }
        if exists|i: int|
            {
                &&& 0 <= i < ts.len()
                &&& (#[trigger] ts[i]).handle == Some(h)
                &&& ts[i].visible
                &&& ts[i].age.at_most(Scalar { bits: 0x3FC0_0000 })
                &&& (always.contains(h) || (!bosses.contains(h) && !ts[i].own_name))
            } {
            let i = choose|i: int|
                {
                    &&& 0 <= i < ts.len()
                    &&& (#[trigger] ts[i]).handle == Some(h)
                    &&& ts[i].visible
                    &&& ts[i].age.at_most(Scalar { bits: 0x3FC0_0000 })
                    &&& (always.contains(h) || (!bosses.contains(h) && !ts[i].own_name))
                };
            if i < n {
                assert(front[i] == ts[i]);
                assert(has_label(before, h));
                let k = choose|k: int| 0 <= k < before.len() && (#[trigger] before[k]).handle == h;
                assert(out[k].handle == h);
            } else {
                assert(out[before.len() as int].handle == h);
            }
        }
    }
}

/// A label stands where the enemy's bar is drawn, and where the tag stands if no bar of theirs
/// is; but never nearer to an edge than the game puts its bars. A place within is kept.
pub proof fn where_a_label_stands(t: TagSlot, drawn: Seq<DrawnBar>, h: u64)
    requires
        t.handle == Some(h),
    ensures
        label_of(t, drawn).handle == h,
        (forall|i: int|
            0 <= i < drawn.len() ==> !((#[trigger] drawn[i]).visible && drawn[i].handle == Some(h)))
            ==> label_of(t, drawn).at == kept_in(t.at),
        (exists|i: int|
            0 <= i < drawn.len() && (#[trigger] drawn[i]).visible && drawn[i].handle == Some(h))
            ==> exists|i: int|
            0 <= i < drawn.len() && (#[trigger] drawn[i]).visible && drawn[i].handle == Some(h)
                && label_of(t, drawn).at == kept_in(drawn[i].at),
{
    lemma_bar_at(drawn, h);
}

proof fn lemma_bar_at(drawn: Seq<DrawnBar>, h: u64)
    ensures
        match bar_at(drawn, h) {
            Some(p) => exists|i: int|
                0 <= i < drawn.len() && (#[trigger] drawn[i]).visible && drawn[i].handle == Some(h)
                    && drawn[i].at == p,
            None => forall|i: int|
                0 <= i < drawn.len() ==> !((#[trigger] drawn[i]).visible && drawn[i].handle == Some(
                    h,
                )),
        },
    decreases drawn.len(),
{
    if drawn.len() > 0 && !(drawn[0].visible && drawn[0].handle == Some(h)) {
        let rest = drawn.skip(1);
        lemma_bar_at(rest, h);
        match bar_at(rest, h) {
            Some(p) => {
                let i = choose|i: int|
                    0 <= i < rest.len() && (#[trigger] rest[i]).visible && rest[i].handle == Some(h)
                        && rest[i].at == p;
                assert(drawn[i + 1] == rest[i]);
            },
            None => {
                assert forall|i: int| 0 <= i < drawn.len() implies !((#[trigger] drawn[i]).visible
                    && drawn[i].handle == Some(h)) by {
                    if i > 0 {
                        assert(drawn[i] == rest[i - 1]);
                    }
                }
            },
        }
    }
}

/// A place well within the screen is kept as it is; one at an edge moves inwards, to 131.5 or
/// 1788.5 across and to 174 or 1019 down.
pub proof fn labels_keep_from_the_edges(p: Spot)
    ensures
        ({
            let left = Scalar { bits: 0x4303_8000 };
            let right = Scalar { bits: 0x44DF_9000 };
            let top = Scalar { bits: 0x432E_0000 };
            let bottom = Scalar { bits: 0x447E_C000 };
            &&& (left.at_most(p.x) && p.x.at_most(right)) ==> kept_in(p).x == p.x
            &&& (top.at_most(p.y) && p.y.at_most(bottom)) ==> kept_in(p).y == p.y
            &&& p.x.below(left) ==> kept_in(p).x == left
            &&& right.below(p.x) ==> kept_in(p).x == right
            &&& p.y.below(top) ==> kept_in(p).y == top
            &&& bottom.below(p.y) ==> kept_in(p).y == bottom
        }),
{
}

/// Whatever was bought, lives, and has its head on the screen, has a label: the game's or one
/// of its own, which stands at the head. A corpse, or one beyond the screen, gets none.
pub proof fn what_was_bought_is_labelled(
    tags: Seq<Tag>,
    always: Seq<u64>,
    sights: Seq<Option<Sight>>,
    screen: Spot,
)
    requires
        sights.len() == always.len(),
    ensures
        forall|i: int|
            0 <= i < always.len() && is_seen(#[trigger] sights[i], screen) ==> has_label(
                tags,
                always[i],
            ) || has_label(with_bought(tags, always, sights, screen), always[i]),
        forall|k: int|
            0 <= k < with_bought(tags, always, sights, screen).len() ==> exists|i: int|
                0 <= i < always.len() && is_seen(#[trigger] sights[i], screen) && always[i] == (
                #[trigger] with_bought(tags, always, sights, screen)[k]).handle
                    && sights[i].unwrap().at == Some(
                    with_bought(tags, always, sights, screen)[k].at,
                ),
    decreases always.len(),
{
    if always.len() > 0 {
        let n: int = always.len() - 1;
        let a = always.drop_last();
        let s = sights.drop_last();
        what_was_bought_is_labelled(tags, a, s, screen);
        let before = with_bought(tags, a, s, screen);
        let out = with_bought(tags, always, sights, screen);
        assert(always[n] == always.last() && sights[n] == sights.last());
        assert forall|k: int| 0 <= k < before.len() implies out[k] == before[k] by {}
        assert forall|h: u64| has_label(before, h) implies #[trigger] has_label(out, h) by {
            let k = choose|k: int| 0 <= k < before.len() && (#[trigger] before[k]).handle == h;
            assert(out[k].handle == h);
        }
        assert forall|i: int| 0 <= i < always.len() && is_seen(
            #[trigger] sights[i],
            screen,
        ) implies has_label(tags, always[i]) || has_label(out, always[i]) by {
            if i < n {
                assert(s[i] == sights[i] && a[i] == always[i]);
            } else if !has_label(tags, always[n]) && !has_label(before, always[n]) {
                assert(out[before.len() as int].handle == always[n]);
            }
        }
        assert forall|k: int| 0 <= k < out.len() implies exists|i: int|
            0 <= i < always.len() && is_seen(#[trigger] sights[i], screen) && always[i] == (
            #[trigger] out[k]).handle && sights[i].unwrap().at == Some(out[k].at) by {
            if k < before.len() {
                assert(before[k] == out[k]);
                let i = choose|i: int|
                    0 <= i < a.len() && is_seen(#[trigger] s[i], screen) && a[i]
                        == before[k].handle && s[i].unwrap().at == Some(before[k].at);
                assert(sights[i] == s[i] && always[i] == a[i]);
            } else {
                assert(is_seen(sights[n], screen));
            }
        }
    }
}

/// A creature lives and its head is within the screen.
pub open spec fn is_seen(s: Option<Sight>, screen: Spot) -> bool {
    match s {
        Some(s) => s.hp >= 1 && match s.at {
            Some(p) => !p.x.below(Scalar { bits: 0 }) && !p.y.below(Scalar { bits: 0 })
                && !screen.x.below(p.x) && !screen.y.below(p.y),
            None => false,
        },
        None => false,
    }
}

/// Every boss of the fight is labelled once: the list holds exactly those in the slots, and
/// none of them twice.
pub proof fn every_boss_is_labelled_once(hs: Seq<Option<u64>>)
    ensures
        forall|h: u64| #[trigger] each_once(hs).contains(h) <==> hs.contains(Some(h)),
        each_once(hs).no_duplicates(),
    decreases hs.len(),
{
    if hs.len() > 0 {
        let front = hs.drop_last();
        let n: int = hs.len() - 1;
        every_boss_is_labelled_once(front);
        let before = each_once(front);
        let out = each_once(hs);
        assert(hs[n] == hs.last());
        assert forall|h: u64| #[trigger] out.contains(h) <==> hs.contains(Some(h)) by {
            if hs.contains(Some(h)) {
                let i = choose|i: int| 0 <= i < hs.len() && hs[i] == Some(h);
                if i < n {
                    assert(front[i] == Some(h));
                    assert(before.contains(h));
                    let k = choose|k: int| 0 <= k < before.len() && before[k] == h;
                    assert(out[k] == h);
                } else if !before.contains(h) {
                    assert(out[before.len() as int] == h);
                }
            }
            if out.contains(h) {
                let k = choose|k: int| 0 <= k < out.len() && out[k] == h;
                if k < before.len() {
                    assert(before[k] == h);
                    assert(before.contains(h));
                    let i = choose|i: int| 0 <= i < front.len() && front[i] == Some(h);
                    assert(hs[i] == Some(h));
                } else {
                    assert(hs[n] == Some(h));
                }
            }
        }
    }
}

/// The game writes a name over the creatures whose rows have one, and over no creature without
/// a row.
pub proof fn whom_the_game_names(named: Set<u32>, npc: i32)
    ensures
        !draws_name(named, None),
        npc < 0 ==> !draws_name(named, Some(npc)),
        npc >= 0 ==> (draws_name(named, Some(npc)) <==> named.contains(npc as u32)),
{
}

/// The named rows are looked for at once, and then twice a second.
pub proof fn how_often_rows_are_looked_for(t: u64, now: u64)
    ensures
        looks_again(None, now),
        now < t + 500_000_000 ==> !looks_again(Some(t), now),
        now >= t + 500_000_000 ==> looks_again(Some(t), now),
{
}

// ---------------------------------------------------------------------------
// Cells and places
// ---------------------------------------------------------------------------

/// An entity's number begins with its map: two digits of the area, two of the block.
pub proof fn numbers_name_maps(area: u8, block: u8, rest: u32, expect: u8)
    requires
        block < 100,
        rest < 10_000,
        area < 100,
    ensures
        ({
            let id: int = area * 1_000_000 + block * 10_000 + rest;
            &&& (10 <= area <= 45 && (expect == area || expect >= 60)) ==> entity_cell(
                id as u32,
                expect,
            ) == Some((area, block, 0u8))
            &&& (area < 10 || area > 45 || (expect != area && expect < 60)) ==> entity_cell(
                id as u32,
                expect,
            ) is None
        }),
{
    let id: int = area * 1_000_000 + block * 10_000 + rest;
    assert(id / 1_000_000 == area) by (nonlinear_arith)
        requires
            id == area * 1_000_000 + block * 10_000 + rest,
            block < 100,
            rest < 10_000,
            0 <= block,
            0 <= rest,
    ;
    assert(id / 10_000 == area * 100 + block) by (nonlinear_arith)
        requires
            id == area * 1_000_000 + block * 10_000 + rest,
            0 <= rest < 10_000,
    ;
    assert((area * 100 + block) % 100 == block) by (nonlinear_arith)
        requires
            0 <= block < 100,
            area >= 0,
    ;
}

/// Numbers of the open world, which are longer, name no map.
pub proof fn long_numbers_name_no_map(id: u32, expect: u8)
    requires
        id >= 100_000_000,
    ensures
        entity_cell(id, expect) is None,
{
}

/// Two places can be compared on one map, and across the tiles of one part of the open world;
/// it does not matter which comes first.
pub proof fn what_can_be_compared(a: Cell, b: Cell)
    ensures
        comparable_cells(a, a),
        comparable_cells(a, b) == comparable_cells(b, a),
        a.0 != b.0 ==> !comparable_cells(a, b),
        (a.0 == b.0 && a.0 >= 60) ==> comparable_cells(a, b),
        (a.0 < 60 && a != b) ==> !comparable_cells(a, b),
{
}

/// A player in no block stands in the cell of origin; any other stands in their own.
pub proof fn where_a_player_stands(current: i32, here: Cell, origin: Cell)
    ensures
        current == -1 ==> cell_of_player(current, here, origin) == origin,
        current != -1 ==> cell_of_player(current, here, origin) == here,
{
}

proof fn lemma_nearest(map: Cell, gs: Seq<GraceText>, squares: Seq<Scalar>, n: int)
    requires
        0 <= n <= gs.len(),
        squares.len() == gs.len(),
        forall|j: int| 0 <= j < gs.len() ==> (#[trigger] squares[j]).at_most(squares[j]),
    ensures
        match nearest_grace(map, gs, squares, n) {
            Some(k) => 0 <= k < n && comparable_cells(map, gs[k].cell) && forall|j: int|
                0 <= j < n && comparable_cells(map, (#[trigger] gs[j]).cell)
                    ==> squares[k].at_most(squares[j]),
            None => forall|j: int| 0 <= j < n ==> !comparable_cells(map, (#[trigger] gs[j]).cell),
        },
    decreases n,
{
    if n > 0 {
        lemma_nearest(map, gs, squares, n - 1);
        assert(squares[n - 1].at_most(squares[n - 1]));
        match nearest_grace(map, gs, squares, n - 1) {
            Some(k) => {
                assert(squares[k].at_most(squares[k]));
            },
            None => {},
        }
    }
}

proof fn lemma_neighbour(map: Cell, gs: Seq<GraceText>, n: int)
    requires
        0 <= n <= gs.len(),
    ensures
        match neighbour_grace(map, gs, n) {
            Some(k) => 0 <= k < n && gs[k].cell.0 == map.0 && forall|j: int|
                0 <= j < n && (#[trigger] gs[j]).cell.0 == map.0 ==> blocks_apart(gs[k].cell, map)
                    <= blocks_apart(gs[j].cell, map),
            None => forall|j: int| 0 <= j < n ==> (#[trigger] gs[j]).cell.0 != map.0,
        },
    decreases n,
{
    if n > 0 {
        lemma_neighbour(map, gs, n - 1);
    }
}

/// A place belongs to the location of the site of grace that is nearest of those it can be
/// compared with.
pub proof fn a_place_belongs_to_the_nearest_grace(
    map: Cell,
    gs: Seq<GraceText>,
    squares: Seq<Scalar>,
    i: int,
)
    requires
        squares.len() == gs.len(),
        forall|j: int| 0 <= j < gs.len() ==> (#[trigger] squares[j]).at_most(squares[j]),
        0 <= i < gs.len(),
        comparable_cells(map, gs[i].cell),
    ensures
        exists|k: int|
            0 <= k < gs.len() && place_at(map, gs, squares) == Some((#[trigger] gs[k]).place)
                && comparable_cells(map, gs[k].cell) && squares[k].at_most(squares[i]),
        (forall|j: int|
            0 <= j < gs.len() && j != i && comparable_cells(map, (#[trigger] gs[j]).cell)
                ==> squares[i].below(squares[j])) ==> place_at(map, gs, squares) == Some(
            gs[i].place,
        ),
{
    lemma_nearest(map, gs, squares, gs.len() as int);
    let k = nearest_grace(map, gs, squares, gs.len() as int).unwrap();
    assert(gs[k].place == gs[k].place);
}

/// Off the open world a map without a site of grace takes the location of the map of its area
/// that is fewest blocks away; the open world takes none.
pub proof fn a_map_without_grace_asks_its_neighbours(
    map: Cell,
    gs: Seq<GraceText>,
    squares: Seq<Scalar>,
    i: int,
)
    requires
        squares.len() == gs.len(),
        forall|j: int| 0 <= j < gs.len() ==> (#[trigger] squares[j]).at_most(squares[j]),
        forall|j: int| 0 <= j < gs.len() ==> !comparable_cells(map, (#[trigger] gs[j]).cell),
        0 <= i < gs.len(),
        gs[i].cell.0 == map.0,
    ensures
        map.0 >= 60 ==> place_at(map, gs, squares) is None,
        map.0 < 60 ==> exists|k: int|
            0 <= k < gs.len() && place_at(map, gs, squares) == Some((#[trigger] gs[k]).place)
                && gs[k].cell.0 == map.0 && (gs[k].cell.1 - map.1 <= gs[i].cell.1 - map.1
                || gs[k].cell.1 - map.1 <= map.1 - gs[i].cell.1) && (map.1 - gs[k].cell.1
                <= gs[i].cell.1 - map.1 || map.1 - gs[k].cell.1 <= map.1 - gs[i].cell.1),
{
    lemma_nearest(map, gs, squares, gs.len() as int);
    lemma_neighbour(map, gs, gs.len() as int);
    let k = neighbour_grace(map, gs, gs.len() as int).unwrap();
    assert(gs[k].place == gs[k].place);
}

proof fn lemma_tab_text(tabs: Seq<Tab>, i: int)
    requires
        0 <= i < tabs.len(),
        tabs[i].text is Some,
        forall|j: int|
            i < j < tabs.len() ==> (#[trigger] tabs[j]).id != tabs[i].id || tabs[j].text is None,
    ensures
        tab_text(tabs, tabs[i].id) == Some(tabs[i].text.unwrap()@),
    decreases tabs.len(),
{
    let n: int = tabs.len() - 1;
    assert(tabs.last() == tabs[n]);
    if i < n {
        let front = tabs.drop_last();
        assert(front[i] == tabs[i]);
        assert forall|j: int| i < j < front.len() implies (#[trigger] front[j]).id != front[i].id
            || front[j].text is None by {
            assert(front[j] == tabs[j]);
        }
        lemma_tab_text(front, i);
    }
}

/// A location is named by the last part of the game's list that has its number and a name: its
/// own text, or, where it has none, the text of its tab.
pub proof fn how_a_location_is_named(tabs: Seq<Tab>, subs: Seq<SubCategory>, i: int)
    requires
        0 <= i < subs.len(),
        forall|j: int| i < j < subs.len() ==> (#[trigger] subs[j]).id != subs[i].id,
    ensures
        subs[i].text is Some ==> sub_text(tabs, subs, subs[i].id) == Some(
            subs[i].text.unwrap()@,
        ),
        forall|t: int|
            0 <= t < tabs.len() && subs[i].text is None && (#[trigger] tabs[t]).id == subs[i].tab
                && tabs[t].text is Some && (forall|j: int|
                t < j < tabs.len() ==> (#[trigger] tabs[j]).id != tabs[t].id || tabs[j].text is None)
                ==> sub_text(tabs, subs, subs[i].id) == Some(tabs[t].text.unwrap()@),
    decreases subs.len(),
{
    let n: int = subs.len() - 1;
    assert(subs.last() == subs[n]);
    assert forall|t: int|
        0 <= t < tabs.len() && subs[i].text is None && (#[trigger] tabs[t]).id == subs[i].tab
            && tabs[t].text is Some && (forall|j: int|
            t < j < tabs.len() ==> (#[trigger] tabs[j]).id != tabs[t].id || tabs[j].text
                is None) implies sub_name(tabs, subs[i]) == Some(tabs[t].text.unwrap()@) by {
        lemma_tab_text(tabs, t);
    }
    if i < n {
        let front = subs.drop_last();
        assert(front[i] == subs[i]);
        assert forall|j: int| i < j < front.len() implies (#[trigger] front[j]).id
            != front[i].id by {
            assert(front[j] == subs[j]);
        }
        how_a_location_is_named(tabs, front, i);
        assert(subs[n].id != subs[i].id);
    }
}

/// Every site of grace whose location has a name is known, where it stands and under that
/// name; one in a dungeon on the map that its number names. There are no others.
pub proof fn which_graces_are_known(tabs: Seq<Tab>, subs: Seq<SubCategory>, fires: Seq<Bonfire>)
    ensures
        forall|i: int|
            0 <= i < fires.len() && sub_text(tabs, subs, (#[trigger] fires[i]).sub_category)
                is Some ==> exists|k: int|
                0 <= k < graces_of(tabs, subs, fires).len() && is_grace_of(
                    #[trigger] graces_of(tabs, subs, fires)[k],
                    fires[i],
                    tabs,
                    subs,
                ),
        graces_of(tabs, subs, fires).len() <= fires.len(),
        forall|k: int|
            0 <= k < graces_of(tabs, subs, fires).len() ==> exists|i: int|
                0 <= i < fires.len() && is_grace_of(
                    #[trigger] graces_of(tabs, subs, fires)[k],
                    #[trigger] fires[i],
                    tabs,
                    subs,
                ),
    decreases fires.len(),
{
    if fires.len() > 0 {
        let n: int = fires.len() - 1;
        let front = fires.drop_last();
        which_graces_are_known(tabs, subs, front);
        let before = graces_of(tabs, subs, front);
        let out = graces_of(tabs, subs, fires);
        assert(fires[n] == fires.last());
        assert forall|i: int|
            0 <= i < fires.len() && sub_text(tabs, subs, (#[trigger] fires[i]).sub_category)
                is Some implies exists|k: int|
            0 <= k < out.len() && is_grace_of(#[trigger] out[k], fires[i], tabs, subs) by {
            if i < n {
                assert(front[i] == fires[i]);
                let k = choose|k: int|
                    0 <= k < before.len() && is_grace_of(
                        #[trigger] before[k],
                        front[i],
                        tabs,
                        subs,
                    );
                assert(out[k] == before[k]);
            } else {
                assert(is_grace_of(out[before.len() as int], fires[n], tabs, subs));
            }
        }
        assert forall|k: int| 0 <= k < out.len() implies exists|i: int|
            0 <= i < fires.len() && is_grace_of(
                #[trigger] out[k],
                #[trigger] fires[i],
                tabs,
                subs,
            ) by {
            if k < before.len() {
                assert(out[k] == before[k]);
                let i = choose|i: int|
                    0 <= i < front.len() && is_grace_of(
                        before[k],
                        #[trigger] front[i],
                        tabs,
                        subs,
                    );
                assert(fires[i] == front[i]);
            } else {
                assert(is_grace_of(out[k], fires[n], tabs, subs));
            }
        }
    }
}

/// A site of grace is what a row of the game's table says.
pub open spec fn is_grace_of(
    g: GraceText,
    f: Bonfire,
    tabs: Seq<Tab>,
    subs: Seq<SubCategory>,
) -> bool {
    &&& g.pos == f.pos
    &&& sub_text(tabs, subs, f.sub_category) == Some(g.place)
    &&& entity_cell(f.entity, f.cell.0) matches Some(c) ==> g.cell == c
    &&& entity_cell(f.entity, f.cell.0) is None ==> g.cell == f.cell
}

// ---------------------------------------------------------------------------
// Names on offer
// ---------------------------------------------------------------------------

/// One marker, one flag: what is offered. A marker's own flag counts most, unless it is a
/// reward's; a flag that it mentions besides counts least.
pub open spec fn offered_by_marker(o: Offer, m: Marker) -> bool {
    &&& o.flag != 0
    &&& m.text is Some
    &&& o.name == m.text.unwrap()@
    &&& ({
        ||| o.flag == m.flag && o.rank == 0 && m.icon != 373
        ||| o.flag == m.flag && o.rank == 2 && m.icon == 373
        ||| m.side_flags@.contains(o.flag) && o.rank == 3
    })
}

proof fn lemma_offers_for(flags: Seq<u32>, rank: u8, text: Option<String>, o: Offer)
    ensures
        offers_for(flags, rank, text).contains(o) <==> o.flag != 0 && flags.contains(o.flag)
            && o.rank == rank && text is Some && o.name == text.unwrap()@,
    decreases flags.len(),
{
    if flags.len() > 0 {
        let front = flags.drop_last();
        let n: int = flags.len() - 1;
        lemma_offers_for(front, rank, text, o);
        lemma_offer(flags.last(), rank, text, o);
        lemma_in_both(offers_for(front, rank, text), offer(flags.last(), rank, text), o);
        assert(flags[n] == flags.last());
        assert(flags.contains(o.flag) <==> front.contains(o.flag) || flags.last() == o.flag) by {
            if flags.contains(o.flag) {
                let i = choose|i: int| 0 <= i < flags.len() && flags[i] == o.flag;
                if i < n {
                    assert(front[i] == o.flag);
                }
            }
            if front.contains(o.flag) {
                let i = choose|i: int| 0 <= i < front.len() && front[i] == o.flag;
                assert(flags[i] == o.flag);
            }
        }
    }
}

proof fn lemma_offer(flag: u32, rank: u8, text: Option<String>, o: Offer)
    ensures
        offer(flag, rank, text).contains(o) <==> o.flag != 0 && flag == o.flag && o.rank == rank
            && text is Some && o.name == text.unwrap()@,
{
    let s = offer(flag, rank, text);
    if text is Some && flag != 0 {
        assert(s[0] == Offer { flag, rank, name: text.unwrap()@ });
        if s.contains(o) {
            assert(o == s[0]);
        }
        if flag == o.flag && o.rank == rank && o.name == text.unwrap()@ {
            assert(s[0] == o);
        }
    }
}

proof fn lemma_in_both<A>(a: Seq<A>, b: Seq<A>, x: A)
    ensures
        (a + b).contains(x) <==> a.contains(x) || b.contains(x),
{
    if a.contains(x) {
        let i = choose|i: int| 0 <= i < a.len() && a[i] == x;
        assert((a + b)[i] == x);
    }
    if b.contains(x) {
        let i = choose|i: int| 0 <= i < b.len() && b[i] == x;
        assert((a + b)[a.len() + i] == x);
    }
    if (a + b).contains(x) {
        let i = choose|i: int| 0 <= i < (a + b).len() && (a + b)[i] == x;
        if i < a.len() {
            assert(a[i] == x);
        } else {
            assert(b[i - a.len()] == x);
        }
    }
}

/// The markers offer exactly what each of them offers.
pub proof fn what_markers_offer(ms: Seq<Marker>, o: Offer)
    ensures
        marker_offers(ms).contains(o) <==> exists|i: int|
            0 <= i < ms.len() && offered_by_marker(o, #[trigger] ms[i]),
    decreases ms.len(),
{
    if ms.len() > 0 {
        let front = ms.drop_last();
        let n: int = ms.len() - 1;
        let m = ms.last();
        what_markers_offer(front, o);
        let rank = marker_rank(m.icon);
        lemma_offer(m.flag, rank, m.text, o);
        lemma_offers_for(m.side_flags@, 3, m.text, o);
        lemma_in_both(marker_offers(front), offer(m.flag, rank, m.text), o);
        lemma_in_both(
            marker_offers(front) + offer(m.flag, rank, m.text),
            offers_for(m.side_flags@, 3, m.text),
            o,
        );
        assert(ms[n] == m);
        if exists|i: int| 0 <= i < front.len() && offered_by_marker(o, #[trigger] front[i]) {
            let i = choose|i: int|
                0 <= i < front.len() && offered_by_marker(o, #[trigger] front[i]);
            assert(offered_by_marker(o, ms[i]));
        }
        if exists|i: int| 0 <= i < ms.len() && offered_by_marker(o, #[trigger] ms[i]) {
            let i = choose|i: int| 0 <= i < ms.len() && offered_by_marker(o, #[trigger] ms[i]);
            if i < n {
                assert(offered_by_marker(o, front[i]));
            }
        }
        if offered_by_marker(o, m) {
            assert(offered_by_marker(o, ms[n]));
        }
    }
}

/// A site of grace offers its text for its two flags, after a marker's own flag and before
/// everything else.
pub proof fn what_graces_offer(gs: Seq<GraceMarker>, o: Offer)
    ensures
        grace_offers(gs).contains(o) <==> o.flag != 0 && o.rank == 1 && exists|i: int|
            0 <= i < gs.len() && (#[trigger] gs[i]).text is Some && gs[i].text.unwrap()@ == o.name
                && (gs[i].flag == o.flag || gs[i].cleared_flag == o.flag),
    decreases gs.len(),
{
    if gs.len() > 0 {
        let front = gs.drop_last();
        let n: int = gs.len() - 1;
        let g = gs.last();
        what_graces_offer(front, o);
        lemma_offer(g.flag, 1, g.text, o);
        lemma_offer(g.cleared_flag, 1, g.text, o);
        lemma_in_both(grace_offers(front), offer(g.flag, 1, g.text), o);
        lemma_in_both(
            grace_offers(front) + offer(g.flag, 1, g.text),
            offer(g.cleared_flag, 1, g.text),
            o,
        );
        assert(gs[n] == g);
        assert forall|i: int| 0 <= i < n implies #[trigger] gs[i] == front[i] by {}
        assert forall|i: int| 0 <= i < n implies #[trigger] front[i] == gs[i] by {}
    }
}

/// A flag is pinned where the first marker with it as its own stands.
pub proof fn where_a_flag_is_pinned(ms: Seq<Marker>, i: int)
    requires
        0 <= i < ms.len(),
        ms[i].flag != 0,
        forall|j: int| 0 <= j < i ==> (#[trigger] ms[j]).flag != ms[i].flag,
    ensures
        first_pin(ms, ms[i].flag) == Some(ms[i].cell),
    decreases ms.len(),
{
    let n: int = ms.len() - 1;
    let front = ms.drop_last();
    assert(ms[n] == ms.last());
    if i < n {
        assert(front[i] == ms[i]);
        assert forall|j: int| 0 <= j < i implies (#[trigger] front[j]).flag != front[i].flag by {
            assert(front[j] == ms[j]);
        }
        where_a_flag_is_pinned(front, i);
    } else {
        assert forall|j: int| 0 <= j < front.len() implies (#[trigger] front[j]).flag
            != ms[i].flag by {
            assert(front[j] == ms[j]);
        }
        lemma_no_pin(front, ms[i].flag);
    }
}

proof fn lemma_no_pin(ms: Seq<Marker>, flag: u32)
    requires
        forall|j: int| 0 <= j < ms.len() ==> (#[trigger] ms[j]).flag != flag,
    ensures
        first_pin(ms, flag) is None,
    decreases ms.len(),
{
    if ms.len() > 0 {
        let front = ms.drop_last();
        assert(ms[ms.len() - 1] == ms.last());
        assert forall|j: int| 0 <= j < front.len() implies (#[trigger] front[j]).flag != flag by {
            assert(front[j] == ms[j]);
        }
        lemma_no_pin(front, flag);
    }
}

// ---------------------------------------------------------------------------
// The registry
// ---------------------------------------------------------------------------

/// A model's number is its row's without the last four digits, and its name's number is
/// nine hundred million and a thousand times the model.
pub proof fn models_and_their_names(model: u32, rest: u32)
    requires
        model <= 400_000,
        rest < 10_000,
    ensures
        model_of((model * 10_000 + rest) as u32) == model,
        name_id(model) == 900_000_000 + model * 1000,
{
    assert((model * 10_000 + rest) / 10_000 == model) by (nonlinear_arith)
        requires
            0 <= rest < 10_000,
            model >= 0,
    ;
}

/// Whatever the model, its name's number fits into 32 bits with a sign, and is what is said
/// but for whole turns.
pub proof fn name_numbers_wrap(chr: u32)
    ensures
        -0x8000_0000 <= name_id(chr) < 0x8000_0000,
        (name_id(chr) - (900_000_000 + chr * 1000)) % 0x1_0000_0000 == 0,
{
}

/// A creature is called by its model if it has one that is named, then by its name, then by
/// its role.
pub proof fn what_a_creature_is_called(
    npc: u32,
    model: Option<Seq<char>>,
    name: Option<Seq<char>>,
    role: Option<Seq<char>>,
)
    ensures
        chr_text(0, model) is None,
        npc > 0 ==> chr_text(npc, model) == model,
        (model_of(npc) > 0 && model is Some) ==> npc_text(npc, model, name, role) == model,
        ((model_of(npc) == 0 || model is None) && name is Some) ==> npc_text(
            npc,
            model,
            name,
            role,
        ) == name,
        ((model_of(npc) == 0 || model is None) && name is None) ==> npc_text(
            npc,
            model,
            name,
            role,
        ) == role,
{
}

/// What the table of names says is read as it is written: a text in quotes as that text, a
/// number as the number of a text.
pub proof fn table_names_are_read(s: Seq<char>, n: u32)
    ensures
        table_value(seq!['"'] + s + seq!['"']) == Some(NameText::Text(s)),
        table_value(decimal(n as nat)) == Some(NameText::Id(n)),
{
    let q = seq!['"'] + s + seq!['"'];
    assert(q[0] == '"' && q.last() == '"');
    assert(q.subrange(1, q.len() - 1) == s);
    decimal_reads_back(n as nat, u32::MAX as nat);
    lemma_decimal(n as nat);
    assert(is_digit(decimal(n as nat)[0]));
}

/// A line of the table is read as it is written: the flag, the name in quotes or the number of
/// its text, and the mark of a remembrance.
pub proof fn table_lines_are_read(flag: u32, s: Seq<char>, n: u32)
    ensures
        ({
            let f = decimal(flag as nat) + seq![' '];
            let q = seq!['"'] + s + seq!['"'];
            let d = decimal(n as nat);
            &&& table_line(f + q) == Some((flag, (NameText::Text(s), false)))
            &&& table_line(f + (q + seq![' ', 'R'])) == Some((flag, (NameText::Text(s), true)))
            &&& table_line(f + d) == Some((flag, (NameText::Id(n), false)))
            &&& table_line(f + (d + seq![' ', 'R'])) == Some((flag, (NameText::Id(n), true)))
        }),
{
    let q = seq!['"'] + s + seq!['"'];
    let d = decimal(n as nat);
    table_names_are_read(s, n);
    lemma_decimal(n as nat);
    assert(is_digit(d[0]) && is_digit(d[d.len() - 1]));
    assert(q[0] == '"' && q[q.len() - 1] == '"');
    lemma_table_line(flag, q);
    lemma_table_line(flag, d);
}

proof fn lemma_table_line(flag: u32, v: Seq<char>)
    requires
        v.len() > 0,
        !is_white(v[0]),
        !is_white(v[v.len() - 1]),
        v[v.len() - 1] != 'R',
        table_value(v) is Some,
    ensures
        table_line(decimal(flag as nat) + seq![' '] + v) == Some(
            (flag, (table_value(v).unwrap(), false)),
        ),
        table_line(decimal(flag as nat) + seq![' '] + (v + seq![' ', 'R'])) == Some(
            (flag, (table_value(v).unwrap(), true)),
        ),
{
    let d = decimal(flag as nat);
    lemma_decimal(flag as nat);
    decimal_reads_back(flag as nat, u32::MAX as nat);
    assert(is_digit(d[0]) && is_digit(d[d.len() - 1]));
    lemma_trim_tight(d);
    lemma_trim_tight(v);
    let w = v + seq![' ', 'R'];
    assert(w[w.len() - 1] == 'R' && w[0] == v[0]);
    lemma_trim_tight(w);
    assert(w.take(w.len() - 2) == v);
    lemma_split_line(d, v);
    lemma_split_line(d, w);
}

proof fn lemma_split_line(d: Seq<char>, v: Seq<char>)
    requires
        d.len() > 0,
        v.len() > 0,
        forall|i: int| 0 <= i < d.len() ==> is_digit(#[trigger] d[i]),
        !is_white(v[v.len() - 1]),
    ensures
        split_once(d + seq![' '] + v, ' ') == Some((d, v)),
        !starts_with(d + seq![' '] + v, '#'),
        trim(d + seq![' '] + v).len() > 0,
{
    let s = d + seq![' '] + v;
    let n: int = d.len() as int;
    assert forall|j: int| 0 <= j < n implies s[j] != ' ' by {
        assert(is_digit(d[j]));
    }
    assert(s[n] == ' ');
    lemma_first_at_is(s, ' ', n);
    assert(s.take(n) == d);
    assert(s.skip(n + 1) == v);
    assert(is_digit(d[0]));
    assert(s[0] == d[0] && s[s.len() - 1] == v[v.len() - 1]);
    lemma_trim_tight(s);
}

proof fn lemma_trim_tight(s: Seq<char>)
    requires
        s.len() > 0,
        !is_white(s[0]),
        !is_white(s[s.len() - 1]),
    ensures
        trim(s) == s,
{
    lemma_trim_start(s, 0);
    assert(s.skip(0) == s);
    lemma_trim_end(s, s.len() as int);
    assert(s.take(s.len() as int) == s);
}

/// A comment in the table is passed over.
pub proof fn comments_say_nothing(line: Seq<char>)
    requires
        line.len() > 0,
        line[0] == '#',
    ensures
        table_line(line) is None,
{
}

/// Of the lines for a flag the last one counts, and nothing is known of a flag without one.
pub proof fn the_last_line_counts(ls: Seq<Seq<char>>, i: int, flag: u32)
    requires
        0 <= i < ls.len(),
        forall|j: int|
            i < j < ls.len() ==> (table_line(#[trigger] ls[j]) is None || table_line(
                ls[j],
            ).unwrap().0 != flag),
    ensures
        (table_line(ls[i]) is Some && table_line(ls[i]).unwrap().0 == flag) ==> table_of(
            ls,
        ).contains_key(flag) && table_of(ls)[flag] == table_line(ls[i]).unwrap().1,
        (i == 0 && (table_line(ls[0]) is None || table_line(ls[0]).unwrap().0 != flag))
            ==> !table_of(ls).contains_key(flag),
    decreases ls.len(),
{
    let front = ls.drop_last();
    let n: int = ls.len() - 1;
    assert(ls[n] == ls.last());
    if i < n {
        assert(front[i] == ls[i]);
        assert forall|j: int| i < j < front.len() implies (table_line(#[trigger] front[j]) is None
            || table_line(front[j]).unwrap().0 != flag) by {
            assert(front[j] == ls[j]);
        }
        the_last_line_counts(front, i, flag);
    } else if i == 0 {
        assert(front == Seq::<Seq<char>>::empty());
        assert(table_of(front) == Map::<u32, (NameText, bool)>::empty());
    }
}

/// What the table gives: the text itself, or what the game's texts hold under its number.
pub proof fn what_the_table_gives(n: u32, s: Seq<char>, r: bool, text: Option<Seq<char>>)
    ensures
        table_text(None, text) is None,
        table_text(Some((NameText::Text(s), r)), text) == Some(s),
        table_text(Some((NameText::Id(n), r)), text) == text,
        id_in(None) is None,
        id_in(Some((NameText::Text(s), r))) is None,
        id_in(Some((NameText::Id(n), r))) == Some(n),
{
}

/// Where a boss's name comes from: from a fight, else from the table, else from markers and
/// sites of grace; and from nowhere else. He stands where his area stands, and his remembrance
/// is what the table says.
pub proof fn where_names_come_from(s: Sources, a: Area, f: AreaFacts)
    ensures
        ({
            let b = boss_of(s, a, f);
            let listed = table_text(row_at(s.table@, a.flag), opt_text(f.text));
            &&& b.flag == a.flag && b.map == a.map && b.pos == a.pos
            &&& s.learned@.contains_key(a.flag) ==> b.name == Some(s.learned@[a.flag]@)
            &&& (!s.learned@.contains_key(a.flag) && listed is Some) ==> b.name == listed
            &&& (!s.learned@.contains_key(a.flag) && listed is None && s.names@.contains_key(a.flag))
                ==> b.name == Some(s.names@[a.flag]@)
            &&& (!s.learned@.contains_key(a.flag) && listed is None && !s.names@.contains_key(
                a.flag,
            )) ==> b.name is None
            &&& s.table@.contains_key(a.flag) ==> b.remembrance == s.table@[a.flag].remembrance
            &&& !s.table@.contains_key(a.flag) ==> !b.remembrance
        }),
{
}

/// Every area with a flag has its row, and an area without one has none.
pub proof fn every_area_has_its_row(s: Sources, areas: Seq<Area>, facts: Seq<AreaFacts>)
    requires
        areas.len() == facts.len(),
    ensures
        forall|i: int|
            0 <= i < areas.len() && (#[trigger] areas[i]).flag != 0 ==> area_bosses(
                s,
                areas,
                facts,
            ).contains(boss_of(s, areas[i], facts[i])),
        forall|k: int|
            0 <= k < area_bosses(s, areas, facts).len() ==> (#[trigger] area_bosses(
                s,
                areas,
                facts,
            )[k]).flag != 0,
        area_bosses(s, areas, facts).len() <= areas.len(),
        (forall|i: int| 0 <= i < areas.len() ==> (#[trigger] areas[i]).flag != 0) ==> area_bosses(
            s,
            areas,
            facts,
        ).len() == areas.len(),
    decreases areas.len(),
{
    if areas.len() > 0 {
        let a = areas.drop_last();
        let f = facts.drop_last();
        let n: int = areas.len() - 1;
        every_area_has_its_row(s, a, f);
        let before = area_bosses(s, a, f);
        let out = area_bosses(s, areas, facts);
        assert(areas[n] == areas.last() && facts[n] == facts.last());
        assert forall|i: int| 0 <= i < areas.len() && (#[trigger] areas[i]).flag
            != 0 implies out.contains(boss_of(s, areas[i], facts[i])) by {
            if i < n {
                assert(a[i] == areas[i] && f[i] == facts[i]);
                assert(before.contains(boss_of(s, a[i], f[i])));
                let k = choose|k: int|
                    0 <= k < before.len() && before[k] == boss_of(s, a[i], f[i]);
                assert(out[k] == before[k]);
            } else {
                assert(out[before.len() as int] == boss_of(s, areas[n], facts[n]));
            }
        }
        assert forall|k: int| 0 <= k < out.len() implies (#[trigger] out[k]).flag != 0 by {
            if k < before.len() {
                assert(out[k] == before[k]);
            }
        }
        if forall|i: int| 0 <= i < areas.len() ==> (#[trigger] areas[i]).flag != 0 {
            assert forall|i: int| 0 <= i < a.len() implies (#[trigger] a[i]).flag != 0 by {
                assert(a[i] == areas[i]);
            }
        }
    }
}

// ---------------------------------------------------------------------------
// What is learned in fights
// ---------------------------------------------------------------------------

/// Watched are exactly the bosses without a name, not yet beaten, within a thousand meters.
pub proof fn who_is_watched(near: Seq<Near>, flag: u32)
    ensures
        to_watch(near).contains(flag) <==> exists|i: int|
            {
                &&& 0 <= i < near.len()
                &&& (#[trigger] near[i]).flag == flag
                &&& !near[i].named
                &&& !near[i].up
                &&& near[i].dist is Some
                &&& near[i].dist.unwrap().at_most(Scalar { bits: 0x447A_0000 })
            },
    decreases near.len(),
{
    if near.len() > 0 {
        let front = near.drop_last();
        let n: int = near.len() - 1;
        who_is_watched(front, flag);
        let before = to_watch(front);
        let out = to_watch(near);
        assert(near[n] == near.last());
        assert forall|i: int| 0 <= i < n implies #[trigger] near[i] == front[i] by {}
        assert forall|i: int| 0 <= i < n implies #[trigger] front[i] == near[i] by {}
        if before.contains(flag) {
            let k = choose|k: int| 0 <= k < before.len() && before[k] == flag;
            assert(out[k] == flag);
        }
        if out.contains(flag) {
            let k = choose|k: int| 0 <= k < out.len() && out[k] == flag;
            if k < before.len() {
                assert(before[k] == flag);
                assert(before.contains(flag));
            } else {
                assert(near[n].flag == flag);
            }
        }
        if near[n].flag == flag && out.len() > before.len() {
            assert(out[before.len() as int] == flag);
        }
    }
}

proof fn lemma_first_risen(watch: Seq<u32>, up: Seq<bool>, i: int)
    requires
        watch.len() == up.len(),
        0 <= i < watch.len(),
        up[i],
        forall|j: int| 0 <= j < i ==> !(#[trigger] up[j]),
    ensures
        first_risen(watch, up) == Some(watch[i]),
    decreases watch.len(),
{
    let n: int = watch.len() - 1;
    if i < n {
        assert(watch.drop_last()[i] == watch[i] && up.drop_last()[i] == up[i]);
        assert forall|j: int| 0 <= j < i implies !(#[trigger] up.drop_last()[j]) by {
            assert(up.drop_last()[j] == up[j]);
        }
        lemma_first_risen(watch.drop_last(), up.drop_last(), i);
    } else {
        lemma_none_risen(watch.drop_last(), up.drop_last());
    }
}

proof fn lemma_none_risen(watch: Seq<u32>, up: Seq<bool>)
    requires
        watch.len() == up.len(),
        forall|j: int| 0 <= j < up.len() ==> !(#[trigger] up[j]),
    ensures
        first_risen(watch, up) is None,
    decreases watch.len(),
{
    if watch.len() > 0 {
        assert(!up[up.len() - 1]);
        assert forall|j: int| 0 <= j < up.drop_last().len() implies !(
        #[trigger] up.drop_last()[j]) by {
            assert(!up[j]);
        }
        lemma_none_risen(watch.drop_last(), up.drop_last());
    }
}

/// The flag that rises while the game shows a name gets that name: the first of the watched
/// that is up. Then the watch is over, and nothing else is learned from this fight.
pub proof fn the_flag_that_rises_is_named(
    s: LoreText,
    names: Seq<Seq<char>>,
    now: u64,
    up: Seq<bool>,
    near: Option<Seq<Near>>,
    i: int,
)
    requires
        s.learned is Some,
        names.len() > 0,
        s.watched_at is Some,
        now <= s.watched_at.unwrap() + 3_000_000_000,
        !s.named,
        up.len() == s.watched.len(),
        0 <= i < up.len(),
        up[i],
        forall|j: int| 0 <= j < i ==> !(#[trigger] up[j]),
    ensures
        ({
            let (t, learned) = after_fight(s, names, now, Some(up), near);
            &&& learned
            &&& t.learned == Some(s.learned.unwrap().insert(s.watched[i], names[0]))
            &&& t.watched.len() == 0
            &&& t.named
            &&& t.watched_at == Some(now)
        }),
{
    lemma_first_risen(s.watched, up, i);
}

/// After a pause of more than three seconds the watch begins anew, with those who are to be
/// watched now, and whatever the old flags say names nobody by flag.
pub proof fn a_pause_begins_a_new_watch(
    s: LoreText,
    name: Seq<char>,
    now: u64,
    up: Seq<bool>,
    near: Seq<Near>,
)
    requires
        s.watched_at matches Some(t) ==> now > t + 3_000_000_000,
    ensures
        ({
            let (t, learned, done) = after_flags(s, name, now, Some(up), Some(near));
            &&& !learned && !done
            &&& t.watched == to_watch(near)
            &&& t.watched_at == Some(now)
            &&& !t.named
            &&& t.learned == s.learned
        }),
{
}

proof fn lemma_on_arena(near: Seq<Near>, n: int)
    requires
        0 <= n <= near.len(),
    ensures
        match on_arena(near, n) {
            Some(k) => 0 <= k < n && in_arena(near[k]) && forall|j: int|
                0 <= j < n && in_arena(#[trigger] near[j]) ==> near[k].dist.unwrap().at_most(
                    near[j].dist.unwrap(),
                ),
            None => forall|j: int| 0 <= j < n ==> !in_arena(#[trigger] near[j]),
        },
    decreases n,
{
    if n > 0 {
        lemma_on_arena(near, n - 1);
    }
}

/// A boss is within a hundred and fifty meters.
pub open spec fn in_arena(b: Near) -> bool {
    b.dist is Some && b.dist.unwrap().at_most(Scalar { bits: 0x4316_0000 })
}

/// Where no flag decides, the nearest boss within a hundred and fifty meters gets the name that
/// the game shows, unless he has it already; and if nobody is so near, nothing is learned.
pub proof fn otherwise_the_nearest_is_named(s: LoreText, name: Seq<char>, near: Seq<Near>)
    requires
        s.learned is Some,
    ensures
        ({
            let (t, learned) = after_distance(s, name, Some(near));
            &&& (forall|j: int| 0 <= j < near.len() ==> !in_arena(#[trigger] near[j])) ==> t == s
                && !learned
            &&& (exists|j: int| 0 <= j < near.len() && in_arena(#[trigger] near[j])) ==> exists|
                k: int,
            |
                {
                    &&& 0 <= k < near.len()
                    &&& in_arena(#[trigger] near[k])
                    &&& t.learned.unwrap().contains_key(near[k].flag)
                    &&& t.learned.unwrap()[near[k].flag] == name
                    &&& t.learned.unwrap() == s.learned.unwrap().insert(near[k].flag, name)
                    &&& learned <==> t.learned != s.learned
                    &&& forall|j: int|
                        0 <= j < near.len() && in_arena(#[trigger] near[j])
                            ==> near[k].dist.unwrap().at_most(near[j].dist.unwrap())
                }
            &&& t.watched == s.watched && t.watched_at == s.watched_at && t.named == s.named
        }),
{
    lemma_on_arena(near, near.len() as int);
    match on_arena(near, near.len() as int) {
        Some(k) => {
            let m = s.learned.unwrap();
            let f = near[k].flag;
            if m.contains_key(f) && m[f] == name {
                assert(m.insert(f, name) =~= m);
            } else if m.insert(f, name) == m {
                assert(m.contains_key(f) && m[f] == name);
            }
            assert(in_arena(near[k]));
        },
        None => {},
    }
}

/// A frame teaches one name at most, the one that the game shows first; without a name, or
/// before the file was read, nothing.
pub proof fn a_frame_teaches_the_shown_name(
    s: LoreText,
    names: Seq<Seq<char>>,
    now: u64,
    up: Option<Seq<bool>>,
    near: Option<Seq<Near>>,
)
    ensures
        ({
            let (t, learned) = after_fight(s, names, now, up, near);
            &&& (names.len() == 0 || s.learned is None) ==> t == s && !learned
            &&& !learned ==> t.learned == s.learned
            &&& learned ==> s.learned is Some && exists|f: u32|
                t.learned == Some(#[trigger] s.learned.unwrap().insert(f, names[0]))
        }),
{
}

/// The loaded world teaches the names of those that are asked for, each once, and replaces no
/// name; what it counts is how many it taught.
pub proof fn what_the_world_teaches(
    s: LoreText,
    wanted: Set<u32>,
    cs: Seq<(u32, Option<String>)>,
    f: u32,
)
    requires
        s.learned is Some,
    ensures
        ({
            let (t, n) = after_world(s, wanted, cs);
            &&& t.learned is Some
            &&& s.learned.unwrap().contains_key(f) ==> t.learned.unwrap().contains_key(f)
                && t.learned.unwrap()[f] == s.learned.unwrap()[f]
            &&& (!wanted.contains(f) && !s.learned.unwrap().contains_key(f))
                ==> !t.learned.unwrap().contains_key(f)
            &&& forall|i: int|
                0 <= i < cs.len() && wanted.contains(f) && (#[trigger] cs[i]).0 == f && cs[i].1
                    is Some ==> t.learned.unwrap().contains_key(f)
            &&& (t.learned.unwrap().contains_key(f) && !s.learned.unwrap().contains_key(f))
                ==> exists|i: int|
                0 <= i < cs.len() && (#[trigger] cs[i]).0 == f && cs[i].1 is Some
                    && t.learned.unwrap()[f] == cs[i].1.unwrap()@
            &&& n >= 0 && (n == 0 ==> t == s)
            &&& t.watched == s.watched && t.watched_at == s.watched_at && t.named == s.named
        }),
    decreases cs.len(),
{
    if cs.len() > 0 {
        let front = cs.drop_last();
        let n: int = cs.len() - 1;
        what_the_world_teaches(s, wanted, front, f);
        let t = after_world(s, wanted, front).0;
        let u = after_world(s, wanted, cs).0;
        assert(cs[n] == cs.last());
        assert forall|i: int| 0 <= i < n implies #[trigger] cs[i] == front[i] by {}
        assert forall|i: int| 0 <= i < n implies #[trigger] front[i] == cs[i] by {}
        if u.learned.unwrap().contains_key(f) && !s.learned.unwrap().contains_key(f) {
            if t.learned.unwrap().contains_key(f) {
                let i = choose|i: int|
                    0 <= i < front.len() && (#[trigger] front[i]).0 == f && front[i].1 is Some
                        && t.learned.unwrap()[f] == front[i].1.unwrap()@;
                assert(cs[i] == front[i]);
            } else {
                assert(cs[n].0 == f);
            }
        }
    }
}

} // verus!
