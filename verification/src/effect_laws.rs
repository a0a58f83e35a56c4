//! What bought effects do to the game: to whoever buys them, while they run and when they are
//! over.

use vstd::prelude::*;
use crate::effect_state::{is_flask, GameState, Item};
use crate::effects::{group_of, Effect};
use crate::i18n::Locales;
use crate::scalar::Scalar;
use crate::timed_effects::{
    after_frame, charge_of, doomed_ids, game_after, groups_differ, is_over, locked_pots,
    ActiveState, Force, RestoreState, RuneSums,
};

verus! {

// ---------------------------------------------------------------------------
// The parts of the game
// ---------------------------------------------------------------------------

/// What an effect takes down is what it changes.
pub open spec fn fits(a: ActiveState) -> bool {
    match a.restore {
        RestoreState::Speed => a.effect == Effect::Slow || a.effect == Effect::Fast,
        RestoreState::Stamina(_) => a.effect == Effect::StaminaHalf || a.effect
            == Effect::StaminaNone,
        RestoreState::Fov(_) => a.effect == Effect::CameraSway,
        RestoreState::Runes(_) => a.effect == Effect::RuneTrade,
        RestoreState::Flasks(_, _) => a.effect == Effect::FlaskLock,
    }
}

/// The effects that run are in order: one of each group, each with what it takes down.
pub open spec fn in_order(active: Seq<ActiveState>) -> bool {
    &&& groups_differ(active)
    &&& forall|i: int| 0 <= i < active.len() ==> fits(#[trigger] active[i])
}

spec fn kind(r: RestoreState) -> int {
    match r {
        RestoreState::Speed => 0,
        RestoreState::Stamina(_) => 1,
        RestoreState::Fov(_) => 2,
        RestoreState::Runes(_) => 3,
        RestoreState::Flasks(_, _) => 4,
    }
}

/// Two games agree in what effects of a kind change.
spec fn same_part(k: int, a: GameState, b: GameState) -> bool {
    &&& a.player is Some == b.player is Some
    &&& a.speed is Some == b.speed is Some
    &&& k == 0 ==> a.speed == b.speed
    &&& (k == 1 && a.player is Some) ==> a.player.unwrap().max_stamina
        == b.player.unwrap().max_stamina && a.player.unwrap().stamina == b.player.unwrap().stamina
    &&& (k == 3 && a.player is Some) ==> a.player.unwrap().runes == b.player.unwrap().runes
    &&& (k == 4 && a.player is Some) ==> a.player.unwrap().items == b.player.unwrap().items
        && a.player.unwrap().pots == b.player.unwrap().pots
}

proof fn lemma_untouched(
    active: Seq<ActiveState>,
    now: u64,
    force: Force,
    g: GameState,
    sums: RuneSums,
    l: Locales,
    k: int,
)
    requires
        forall|i: int| 0 <= i < active.len() ==> kind((#[trigger] active[i]).restore) != k,
    ensures
        same_part(k, after_frame(active, now, force, g, sums, l).game, g),
    decreases active.len(),
{
    if active.len() > 0 {
        let front = active.drop_last();
        assert forall|i: int| 0 <= i < front.len() implies kind((#[trigger] front[i]).restore)
            != k by {
            assert(front[i] == active[i]);
        }
        lemma_untouched(front, now, force, g, sums, l, k);
        assert(kind(active[active.len() - 1].restore) != k);
    }
}

proof fn lemma_kinds_differ(active: Seq<ActiveState>, i: int, j: int)
    requires
        in_order(active),
        0 <= i < active.len(),
        0 <= j < active.len(),
        i != j,
    ensures
        kind(active[i].restore) != kind(active[j].restore),
{
    assert(fits(active[i]) && fits(active[j]));
    if i < j {
        assert(group_of(active[i].effect) != group_of(active[j].effect));
    } else {
        assert(group_of(active[j].effect) != group_of(active[i].effect));
    }
}

proof fn lemma_front_in_order(active: Seq<ActiveState>)
    requires
        in_order(active),
        active.len() > 0,
    ensures
        in_order(active.drop_last()),
{
    let front = active.drop_last();
    assert forall|i: int| 0 <= i < front.len() implies fits(#[trigger] front[i]) && group_of(
        front[i].effect,
    ) is Some by {
        assert(front[i] == active[i]);
        assert(fits(active[i]));
        assert(group_of(active[i].effect) is Some);
    }
    assert forall|i: int, j: int| 0 <= i < j < front.len() implies group_of(
        (#[trigger] front[i]).effect,
    ) != group_of((#[trigger] front[j]).effect) by {
        assert(group_of(active[i].effect) != group_of(active[j].effect));
    }
}

/// What a frame does to the part of the game that an effect changes is the work of that
/// effect alone.
proof fn lemma_own_part(
    active: Seq<ActiveState>,
    now: u64,
    force: Force,
    g: GameState,
    sums: RuneSums,
    l: Locales,
    i: int,
)
    requires
        in_order(active),
        0 <= i < active.len(),
        force == Force::Due || is_over(active[i], now, force),
    ensures
        same_part(
            kind(active[i].restore),
            after_frame(active, now, force, g, sums, l).game,
            game_after(active[i], now, is_over(active[i], now, force), g, sums),
        ),
    decreases active.len(),
{
    let front = active.drop_last();
    let n: int = active.len() - 1;
    let f = after_frame(front, now, force, g, sums, l);
    let k = kind(active[i].restore);
    lemma_front_in_order(active);
    if i == n {
        assert forall|j: int| 0 <= j < front.len() implies kind((#[trigger] front[j]).restore)
            != k by {
            lemma_kinds_differ(active, j, n);
        }
        lemma_untouched(front, now, force, g, sums, l, k);
    } else {
        assert(front[i] == active[i]);
        lemma_own_part(front, now, force, g, sums, l, i);
        lemma_kinds_differ(active, i, n);
    }
}

// ---------------------------------------------------------------------------
// While an effect runs
// ---------------------------------------------------------------------------

/// Slow motion slows the game down and fast forward speeds it up, on every frame on which
/// they run: to a half of the normal speed, and to one and a half.
pub proof fn speed_goes_the_way_it_was_bought(
    active: Seq<ActiveState>,
    now: u64,
    g: GameState,
    sums: RuneSums,
    l: Locales,
    i: int,
)
    requires
        in_order(active),
        0 <= i < active.len(),
        now < active[i].until,
        g.speed is Some,
    ensures
        after_frame(active, now, Force::Due, g, sums, l).game.speed is Some,
        active[i].effect == Effect::Slow ==> after_frame(
            active,
            now,
            Force::Due,
            g,
            sums,
            l,
        ).game.speed.unwrap().below(Scalar { bits: 0x3F80_0000 }) && after_frame(
            active,
            now,
            Force::Due,
            g,
            sums,
            l,
        ).game.speed.unwrap().bits == 0x3F00_0000,
        active[i].effect == Effect::Fast ==> (Scalar { bits: 0x3F80_0000 }).below(
            after_frame(active, now, Force::Due, g, sums, l).game.speed.unwrap(),
        ) && after_frame(active, now, Force::Due, g, sums, l).game.speed.unwrap().bits
            == 0x3FC0_0000,
{
    assert(fits(active[i]));
    lemma_own_part(active, now, Force::Due, g, sums, l, i);
}

/// With half stamina the greatest stamina is half of what it was, and with none it is 1; the
/// stamina itself is never beyond it, and never grows by it.
pub proof fn stamina_is_cut(
    active: Seq<ActiveState>,
    now: u64,
    g: GameState,
    sums: RuneSums,
    l: Locales,
    i: int,
    saved: i32,
)
    requires
        in_order(active),
        0 <= i < active.len(),
        now < active[i].until,
        active[i].restore == RestoreState::Stamina(saved),
        g.player is Some,
    ensures
        ({
            let p = after_frame(active, now, Force::Due, g, sums, l).game.player;
            &&& p is Some
            &&& active[i].effect == Effect::StaminaNone ==> p.unwrap().max_stamina == 1
            &&& (active[i].effect == Effect::StaminaHalf && saved >= 2) ==> saved - 1 <= 2
                * p.unwrap().max_stamina <= saved
            &&& p.unwrap().max_stamina >= 1
            &&& p.unwrap().stamina <= p.unwrap().max_stamina
            &&& p.unwrap().stamina <= g.player.unwrap().stamina
            &&& (p.unwrap().stamina == g.player.unwrap().stamina || p.unwrap().stamina
                == p.unwrap().max_stamina)
        }),
{
    assert(fits(active[i]));
    lemma_own_part(active, now, Force::Due, g, sums, l, i);
}

proof fn lemma_charge(charges: Seq<(u32, u32)>, id: u32)
    ensures
        charge_of(charges, id) is Some <==> exists|k: int|
            0 <= k < charges.len() && (#[trigger] charges[k]).0 == id,
        charge_of(charges, id) matches Some(q) ==> charges.contains((id, q)),
    decreases charges.len(),
{
    if charges.len() > 0 {
        if charges[0].0 == id {
            assert(charges[0] == (id, charges[0].1));
        } else {
            let rest = charges.skip(1);
            lemma_charge(rest, id);
            if exists|k: int| 0 <= k < charges.len() && (#[trigger] charges[k]).0 == id {
                let k = choose|k: int| 0 <= k < charges.len() && (#[trigger] charges[k]).0 == id;
                assert(rest[k - 1].0 == id);
            }
            if exists|k: int| 0 <= k < rest.len() && (#[trigger] rest[k]).0 == id {
                let k = choose|k: int| 0 <= k < rest.len() && (#[trigger] rest[k]).0 == id;
                assert(charges[k + 1].0 == id);
            }
            match charge_of(rest, id) {
                Some(q) => {
                    let k = choose|k: int| 0 <= k < rest.len() && rest[k] == (id, q);
                    assert(charges[k + 1] == (id, q));
                },
                None => {},
            }
        }
    }
}

/// While flasks are locked, every flask that was taken down is empty; all other items are as
/// they were, and no item comes or goes.
pub proof fn locked_flasks_are_empty(
    active: Seq<ActiveState>,
    now: u64,
    g: GameState,
    sums: RuneSums,
    l: Locales,
    i: int,
    charges: Seq<(u32, u32)>,
    pots: Seq<(usize, u32)>,
    k: int,
)
    requires
        in_order(active),
        0 <= i < active.len(),
        now < active[i].until,
        active[i].restore == RestoreState::Flasks(charges, pots),
        g.player is Some,
        0 <= k < g.player.unwrap().items.len(),
    ensures
        ({
            let p = after_frame(active, now, Force::Due, g, sums, l).game.player;
            let was = g.player.unwrap().items[k];
            let taken_down = exists|c: int| 0 <= c < charges.len() && (#[trigger] charges[c]).0 == was.id;
            &&& p is Some
            &&& p.unwrap().items.len() == g.player.unwrap().items.len()
            &&& (is_flask(was) && taken_down) ==> p.unwrap().items[k] == (Item {
                quantity: 0,
                ..was
            })
            &&& (!is_flask(was) || !taken_down) ==> p.unwrap().items[k] == was
        }),
{
    assert(fits(active[i]));
    lemma_own_part(active, now, Force::Due, g, sums, l, i);
    lemma_charge(charges, g.player.unwrap().items[k].id);
}

proof fn lemma_pots(pots: Seq<u32>, saved: Seq<(usize, u32)>, over: bool)
    requires
        forall|a: int, b: int|
            0 <= a < b < saved.len() ==> (#[trigger] saved[a]).0 != (#[trigger] saved[b]).0,
    ensures
        locked_pots(pots, saved, over).len() == pots.len(),
        forall|c: int|
            0 <= c < saved.len() && (#[trigger] saved[c]).0 < pots.len() ==> locked_pots(
                pots,
                saved,
                over,
            )[saved[c].0 as int] == if over {
                saved[c].1
            } else {
                0
            },
        forall|h: int|
            0 <= h < pots.len() && (forall|c: int|
                0 <= c < saved.len() ==> (#[trigger] saved[c]).0 != h) ==> #[trigger] locked_pots(
                pots,
                saved,
                over,
            )[h] == pots[h],
    decreases saved.len(),
{
    if saved.len() > 0 {
        let front = saved.drop_last();
        assert forall|a: int, b: int| 0 <= a < b < front.len() implies (#[trigger] front[a]).0 != (
        #[trigger] front[b]).0 by {
            assert(saved[a].0 != saved[b].0);
        }
        lemma_pots(pots, front, over);
        let before = locked_pots(pots, front, over);
        let out = locked_pots(pots, saved, over);
        assert forall|c: int| 0 <= c < saved.len() && (#[trigger] saved[c]).0 < pots.len() implies out[saved[c].0 as int]
            == if over {
            saved[c].1
        } else {
            0
        } by {
            if c < front.len() {
                assert(front[c] == saved[c]);
                assert(saved[c].0 != saved[saved.len() - 1].0);
            }
        }
        assert forall|h: int|
            0 <= h < pots.len() && (forall|c: int|
                0 <= c < saved.len() ==> (#[trigger] saved[c]).0 != h) implies #[trigger] out[h]
            == pots[h] by {
            assert(saved[saved.len() - 1].0 != h);
            assert forall|c: int| 0 <= c < front.len() implies (#[trigger] front[c]).0 != h by {
                assert(saved[c].0 != h);
            }
            assert(before[h] == pots[h]);
        }
    }
}

/// While flasks are locked the vessels that were taken down are gone, and when it is over
/// they are back as they were; all other vessels are left alone throughout.
pub proof fn locked_vessels_are_gone(
    active: Seq<ActiveState>,
    now: u64,
    force: Force,
    g: GameState,
    sums: RuneSums,
    l: Locales,
    i: int,
    charges: Seq<(u32, u32)>,
    pots: Seq<(usize, u32)>,
    h: int,
)
    requires
        in_order(active),
        0 <= i < active.len(),
        force == Force::Due || is_over(active[i], now, force),
        active[i].restore == RestoreState::Flasks(charges, pots),
        forall|a: int, b: int|
            0 <= a < b < pots.len() ==> (#[trigger] pots[a]).0 != (#[trigger] pots[b]).0,
        g.player is Some,
        0 <= h < g.player.unwrap().pots.len(),
    ensures
        ({
            let p = after_frame(active, now, force, g, sums, l).game.player;
            &&& p is Some
            &&& p.unwrap().pots.len() == g.player.unwrap().pots.len()
            &&& forall|c: int|
                0 <= c < pots.len() && (#[trigger] pots[c]).0 == h ==> p.unwrap().pots[h] == if force
                    == Force::Due && now < active[i].until {
                    0
                } else {
                    pots[c].1
                }
            &&& (forall|c: int| 0 <= c < pots.len() ==> (#[trigger] pots[c]).0 != h)
                ==> p.unwrap().pots[h] == g.player.unwrap().pots[h]
        }),
{
    assert(fits(active[i]));
    let over = is_over(active[i], now, force);
    lemma_own_part(active, now, force, g, sums, l, i);
    lemma_pots(g.player.unwrap().pots, pots, over);
}

/// While the rune exchange runs, and when it ends, runes are paid or charged: never before
/// three seconds have passed since the last time, but always at the end; and then as many as
/// are owed, down to none and up to the most that can be held.
pub proof fn runes_are_paid_in_batches(
    active: Seq<ActiveState>,
    now: u64,
    force: Force,
    g: GameState,
    sums: RuneSums,
    l: Locales,
    i: int,
)
    requires
        in_order(active),
        0 <= i < active.len(),
        active[i].restore is Runes,
        force == Force::Due || is_over(active[i], now, force),
        g.player is Some,
    ensures
        ({
            let p = after_frame(active, now, force, g, sums, l).game.player;
            let r = active[i].restore->Runes_0;
            let over = force == Force::All || (force == Force::Due && active[i].until <= now);
            let owed = g.player.unwrap().runes + sums.whole;
            &&& p is Some
            &&& (!over && now < r.flushed + 3_000_000_000) ==> p.unwrap().runes
                == g.player.unwrap().runes
            &&& (over || now >= r.flushed + 3_000_000_000) ==> {
                &&& 0 <= owed <= u32::MAX ==> p.unwrap().runes == owed
                &&& owed < 0 ==> p.unwrap().runes == 0
                &&& owed > u32::MAX ==> p.unwrap().runes == u32::MAX
            }
        }),
{
    assert(fits(active[i]));
    lemma_own_part(active, now, force, g, sums, l, i);
}

/// Effects change nothing of the player's health, focus and limits, and nothing of the boss;
/// and what no running effect is about stays as it is.
pub proof fn effects_mind_their_own_business(
    active: Seq<ActiveState>,
    now: u64,
    force: Force,
    g: GameState,
    sums: RuneSums,
    l: Locales,
)
    ensures
        ({
            let out = after_frame(active, now, force, g, sums, l).game;
            &&& out.target == g.target
            &&& out.speed is Some == g.speed is Some
            &&& out.player is Some == g.player is Some
            &&& g.player is Some ==> {
                let (p, q) = (g.player.unwrap(), out.player.unwrap());
                &&& q.hp == p.hp && q.max_hp == p.max_hp
                &&& q.fp == p.fp && q.max_fp == p.max_fp
                &&& q.max_hp_flask == p.max_hp_flask && q.max_fp_flask == p.max_fp_flask
                &&& (forall|i: int| 0 <= i < active.len() ==> !((#[trigger] active[i]).restore is Stamina))
                    ==> q.stamina == p.stamina && q.max_stamina == p.max_stamina
                &&& (forall|i: int| 0 <= i < active.len() ==> !((#[trigger] active[i]).restore is Runes))
                    ==> q.runes == p.runes
                &&& (forall|i: int| 0 <= i < active.len() ==> !((#[trigger] active[i]).restore is Flasks))
                    ==> q.items == p.items && q.pots == p.pots
            }
            &&& (forall|i: int| 0 <= i < active.len() ==> !((#[trigger] active[i]).restore is Speed))
                ==> out.speed == g.speed
        }),
    decreases active.len(),
{
    if active.len() > 0 {
        let front = active.drop_last();
        effects_mind_their_own_business(front, now, force, g, sums, l);
        let n: int = active.len() - 1;
        assert(active.last() == active[n]);
        if forall|i: int| 0 <= i < active.len() ==> !((#[trigger] active[i]).restore is Stamina) {
            assert forall|i: int| 0 <= i < front.len() implies !((
            #[trigger] front[i]).restore is Stamina) by {
                assert(front[i] == active[i]);
            }
        }
        if forall|i: int| 0 <= i < active.len() ==> !((#[trigger] active[i]).restore is Runes) {
            assert forall|i: int| 0 <= i < front.len() implies !((
            #[trigger] front[i]).restore is Runes) by {
                assert(front[i] == active[i]);
            }
        }
        if forall|i: int| 0 <= i < active.len() ==> !((#[trigger] active[i]).restore is Flasks) {
            assert forall|i: int| 0 <= i < front.len() implies !((
            #[trigger] front[i]).restore is Flasks) by {
                assert(front[i] == active[i]);
            }
        }
        if forall|i: int| 0 <= i < active.len() ==> !((#[trigger] active[i]).restore is Speed) {
            assert forall|i: int| 0 <= i < front.len() implies !((
            #[trigger] front[i]).restore is Speed) by {
                assert(front[i] == active[i]);
            }
        }
    }
}

// ---------------------------------------------------------------------------
// When an effect is over
// ---------------------------------------------------------------------------

/// An effect that is over is undone on that frame: the speed is normal, the greatest stamina
/// is what it was, and every flask that was taken down has its charges back. It is over when
/// its time is up; when all are undone; and when the player dies, unless it is the rune
/// exchange.
pub proof fn an_effect_that_is_over_is_undone(
    active: Seq<ActiveState>,
    now: u64,
    force: Force,
    g: GameState,
    sums: RuneSums,
    l: Locales,
    i: int,
)
    requires
        in_order(active),
        0 <= i < active.len(),
        (force == Force::Due && now >= active[i].until) || force == Force::All || (force
            == Force::ExceptSurvivors && active[i].effect != Effect::RuneTrade),
    ensures
        ({
            let out = after_frame(active, now, force, g, sums, l).game;
            &&& (active[i].restore is Speed && g.speed is Some) ==> out.speed == Some(
                Scalar { bits: 0x3F80_0000 },
            )
            &&& active[i].restore matches RestoreState::Stamina(saved) ==> (g.player is Some
                ==> out.player.unwrap().max_stamina == saved && out.player.unwrap().stamina
                <= g.player.unwrap().stamina)
            &&& active[i].restore matches RestoreState::Flasks(charges, _) ==> (g.player is Some
                ==> forall|k: int|
                #![trigger g.player.unwrap().items[k]]
                0 <= k < g.player.unwrap().items.len() && is_flask(g.player.unwrap().items[k])
                    && (exists|c: int|
                    0 <= c < charges.len() && (#[trigger] charges[c]).0
                        == g.player.unwrap().items[k].id) ==> charges.contains(
                    (
                        g.player.unwrap().items[k].id,
                        out.player.unwrap().items[k].quantity,
                    ),
                ))
        }),
{
    assert(fits(active[i]));
    lemma_own_part(active, now, force, g, sums, l, i);
    match active[i].restore {
        RestoreState::Flasks(charges, _) => {
            if g.player is Some {
                assert forall|k: int|
                    #![trigger g.player.unwrap().items[k]]
                    0 <= k < g.player.unwrap().items.len() && is_flask(g.player.unwrap().items[k])
                        && (exists|c: int|
                        0 <= c < charges.len() && (#[trigger] charges[c]).0
                            == g.player.unwrap().items[k].id) implies charges.contains(
                    (
                        g.player.unwrap().items[k].id,
                        after_frame(
                            active,
                            now,
                            force,
                            g,
                            sums,
                            l,
                        ).game.player.unwrap().items[k].quantity,
                    ),
                ) by {
                    lemma_charge(charges, g.player.unwrap().items[k].id);
                }
            }
        },
        _ => {},
    }
}

/// Where an effect that goes on stands after the frame.
proof fn lemma_stays(
    active: Seq<ActiveState>,
    now: u64,
    force: Force,
    g: GameState,
    sums: RuneSums,
    l: Locales,
    i: int,
) -> (k: int)
    requires
        0 <= i < active.len(),
        !is_over(active[i], now, force),
    ensures
        0 <= k <= i,
        k < after_frame(active, now, force, g, sums, l).kept.len(),
        ({
            let a = after_frame(active, now, force, g, sums, l).kept[k];
            &&& a.effect == active[i].effect
            &&& a.redemption_id == active[i].redemption_id
            &&& a.started == active[i].started
            &&& a.until == active[i].until
            &&& !(a.restore is Runes) || force != Force::Due ==> a.restore == active[i].restore
            &&& (a.restore is Runes) == (active[i].restore is Runes)
        }),
    decreases active.len(),
{
    let front = active.drop_last();
    let f = after_frame(front, now, force, g, sums, l);
    lemma_kept_at_most(front, now, force, g, sums, l);
    if i == active.len() - 1 {
        f.kept.len() as int
    } else {
        assert(front[i] == active[i]);
        lemma_stays(front, now, force, g, sums, l, i)
    }
}

proof fn lemma_kept_at_most(
    active: Seq<ActiveState>,
    now: u64,
    force: Force,
    g: GameState,
    sums: RuneSums,
    l: Locales,
)
    ensures
        after_frame(active, now, force, g, sums, l).kept.len() <= active.len(),
    decreases active.len(),
{
    if active.len() > 0 {
        lemma_kept_at_most(active.drop_last(), now, force, g, sums, l);
    }
}

/// Where an effect after the frame comes from.
proof fn lemma_comes_from(
    active: Seq<ActiveState>,
    now: u64,
    force: Force,
    g: GameState,
    sums: RuneSums,
    l: Locales,
    k: int,
) -> (i: int)
    requires
        0 <= k < after_frame(active, now, force, g, sums, l).kept.len(),
    ensures
        0 <= i < active.len(),
        !is_over(active[i], now, force),
        after_frame(active, now, force, g, sums, l).kept[k].effect == active[i].effect,
        after_frame(active, now, force, g, sums, l).kept[k].until == active[i].until,
        after_frame(active, now, force, g, sums, l).kept[k].redemption_id
            == active[i].redemption_id,
        kind(after_frame(active, now, force, g, sums, l).kept[k].restore) == kind(
            active[i].restore,
        ),
    decreases active.len(),
{
    let front = active.drop_last();
    let f = after_frame(front, now, force, g, sums, l);
    if k < f.kept.len() {
        let i = lemma_comes_from(front, now, force, g, sums, l, k);
        assert(active[i] == front[i]);
        i
    } else {
        active.len() - 1
    }
}

/// An effect runs until its time is up, and not a frame longer: while it has time left it
/// stays with its purchase and its end, and afterwards nothing of its kind is left.
pub proof fn an_effect_runs_until_its_time(
    active: Seq<ActiveState>,
    now: u64,
    g: GameState,
    sums: RuneSums,
    l: Locales,
    i: int,
)
    requires
        in_order(active),
        0 <= i < active.len(),
    ensures
        now < active[i].until <==> exists|k: int|
            0 <= k < after_frame(active, now, Force::Due, g, sums, l).kept.len() && (
            #[trigger] after_frame(active, now, Force::Due, g, sums, l).kept[k]).effect
                == active[i].effect,
        forall|k: int|
            0 <= k < after_frame(active, now, Force::Due, g, sums, l).kept.len() ==> now < (
            #[trigger] after_frame(active, now, Force::Due, g, sums, l).kept[k]).until,
{
    let kept = after_frame(active, now, Force::Due, g, sums, l).kept;
    if now < active[i].until {
        let k = lemma_stays(active, now, Force::Due, g, sums, l, i);
        assert(kept[k].effect == active[i].effect);
    } else if exists|k: int| 0 <= k < kept.len() && (#[trigger] kept[k]).effect == active[i].effect {
        let k = choose|k: int| 0 <= k < kept.len() && (#[trigger] kept[k]).effect == active[i].effect;
        let j = lemma_comes_from(active, now, Force::Due, g, sums, l, k);
        if j < i {
            assert(group_of(active[j].effect) != group_of(active[i].effect));
        } else if i < j {
            assert(group_of(active[i].effect) != group_of(active[j].effect));
        }
    }
    assert forall|k: int| 0 <= k < kept.len() implies now < (#[trigger] kept[k]).until by {
        let j = lemma_comes_from(active, now, Force::Due, g, sums, l, k);
    }
}

/// A death ends every effect but the rune exchange, which goes on untouched.
pub proof fn a_death_spares_the_rune_exchange_alone(
    active: Seq<ActiveState>,
    now: u64,
    g: GameState,
    sums: RuneSums,
    l: Locales,
    i: int,
)
    requires
        0 <= i < active.len(),
    ensures
        active[i].effect == Effect::RuneTrade ==> after_frame(
            active,
            now,
            Force::ExceptSurvivors,
            g,
            sums,
            l,
        ).kept.contains(active[i]),
        forall|k: int|
            0 <= k < after_frame(active, now, Force::ExceptSurvivors, g, sums, l).kept.len()
                ==> (#[trigger] after_frame(
                active,
                now,
                Force::ExceptSurvivors,
                g,
                sums,
                l,
            ).kept[k]).effect == Effect::RuneTrade,
{
    let kept = after_frame(active, now, Force::ExceptSurvivors, g, sums, l).kept;
    if active[i].effect == Effect::RuneTrade {
        let k = lemma_stays(active, now, Force::ExceptSurvivors, g, sums, l, i);
        assert(kept[k] == active[i]);
    }
    assert forall|k: int| 0 <= k < kept.len() implies (#[trigger] kept[k]).effect
        == Effect::RuneTrade by {
        let j = lemma_comes_from(active, now, Force::ExceptSurvivors, g, sums, l, k);
    }
}

/// The cards that go when effects are cut short are those of the purchases behind exactly
/// these effects: of all of them, or of all but the rune exchange.
pub proof fn the_cards_of_cut_effects_go(active: Seq<ActiveState>, id: Seq<char>)
    ensures
        doomed_ids(active, Force::All).contains(id) <==> id.len() > 0 && exists|i: int|
            0 <= i < active.len() && (#[trigger] active[i]).redemption_id == id,
        doomed_ids(active, Force::ExceptSurvivors).contains(id) <==> id.len() > 0 && exists|i: int|
            0 <= i < active.len() && (#[trigger] active[i]).redemption_id == id
                && active[i].effect != Effect::RuneTrade,
    decreases active.len(),
{
    lemma_doomed(active, Force::All, id);
    lemma_doomed(active, Force::ExceptSurvivors, id);
}

proof fn lemma_doomed(active: Seq<ActiveState>, force: Force, id: Seq<char>)
    ensures
        doomed_ids(active, force).contains(id) <==> id.len() > 0 && exists|i: int|
            0 <= i < active.len() && (#[trigger] active[i]).redemption_id == id && (force
                == Force::All || active[i].effect != Effect::RuneTrade),
    decreases active.len(),
{
    if active.len() > 0 {
        let front = active.drop_last();
        lemma_doomed(front, force, id);
        let before = doomed_ids(front, force);
        let out = doomed_ids(active, force);
        let n: int = active.len() - 1;
        let here = |i: int|
            active[i].redemption_id == id && (force == Force::All || active[i].effect
                != Effect::RuneTrade);
        if out.contains(id) {
            let k = choose|k: int| 0 <= k < out.len() && out[k] == id;
            if k < before.len() {
                assert(before[k] == id);
                assert(before.contains(id));
                let i = choose|i: int|
                    0 <= i < front.len() && (#[trigger] front[i]).redemption_id == id && (force
                        == Force::All || front[i].effect != Effect::RuneTrade);
                assert(active[i] == front[i]);
            } else {
                assert(active[n].redemption_id == id);
            }
        }
        if id.len() > 0 && exists|i: int|
            0 <= i < active.len() && (#[trigger] active[i]).redemption_id == id && (force
                == Force::All || active[i].effect != Effect::RuneTrade) {
            let i = choose|i: int|
                0 <= i < active.len() && (#[trigger] active[i]).redemption_id == id && (force
                    == Force::All || active[i].effect != Effect::RuneTrade);
            if i < n {
                assert(front[i] == active[i]);
                assert(before.contains(id));
                let k = choose|k: int| 0 <= k < before.len() && before[k] == id;
                assert(out[k] == id);
            } else {
                assert(out[before.len() as int] == id);
            }
        }
    }
}

/// What is written to the camera's table are the values that were taken down: swaying since
/// the start while the effect runs, and just as they were when it is over. Without the effect
/// nothing is written.
pub proof fn the_camera_sways_and_settles(
    active: Seq<ActiveState>,
    now: u64,
    force: Force,
    g: GameState,
    sums: RuneSums,
    l: Locales,
)
    requires
        in_order(active),
    ensures
        (forall|i: int| 0 <= i < active.len() ==> (#[trigger] active[i]).effect != Effect::CameraSway)
            ==> after_frame(active, now, force, g, sums, l).camera is None,
        forall|i: int|
            0 <= i < active.len() && (#[trigger] active[i]).effect == Effect::CameraSway
                ==> after_frame(active, now, force, g, sums, l).camera == Some(
                (
                    active[i].restore->Fov_0,
                    if force == Force::Due && now < active[i].until {
                        Some(active[i].started)
                    } else {
                        None
                    },
                ),
            ),
    decreases active.len(),
{
    if active.len() > 0 {
        let front = active.drop_last();
        let n: int = active.len() - 1;
        lemma_front_in_order(active);
        the_camera_sways_and_settles(front, now, force, g, sums, l);
        assert(fits(active[n]));
        assert(active.last() == active[n]);
        if active[n].effect == Effect::CameraSway {
            assert forall|i: int| 0 <= i < front.len() implies (#[trigger] front[i]).effect
                != Effect::CameraSway by {
                assert(group_of(active[i].effect) != group_of(active[n].effect));
            }
        } else {
            if forall|i: int| 0 <= i < active.len() ==> (#[trigger] active[i]).effect
                != Effect::CameraSway {
                assert forall|i: int| 0 <= i < front.len() implies (#[trigger] front[i]).effect
                    != Effect::CameraSway by {
                    assert(front[i] == active[i]);
                }
            }
            assert forall|i: int|
                0 <= i < active.len() && (#[trigger] active[i]).effect
                    == Effect::CameraSway implies after_frame(
                active,
                now,
                force,
                g,
                sums,
                l,
            ).camera == Some(
                (
                    active[i].restore->Fov_0,
                    if force == Force::Due && now < active[i].until {
                        Some(active[i].started)
                    } else {
                        None
                    },
                ),
            ) by {
                assert(front[i] == active[i]);
            }
        }
    }
}

} // verus!
