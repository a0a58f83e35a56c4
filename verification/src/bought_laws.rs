//! From the purchase of an effect to what the player feels of it.

use vstd::prelude::*;
use crate::damage::World;
use crate::effect_laws::{
    an_effect_that_is_over_is_undone, fits, in_order, speed_goes_the_way_it_was_bought,
};
use crate::effect_state::{is_flask, once, GameState, Item, PlayerState};
use crate::effects::{
    effect_named, effect_text, group_of, the_table_is_well_formed, Effect, Rejected,
};
use crate::i18n::Locales;
use crate::scalar::Scalar;
use crate::timed_effects::{
    active_states, applied, camera_rows, flask_charges, flask_groups, group_at, lemma_group_at,
    pot_counts, ran, starting, trade_runs, ActiveState, CameraWrite, EffectState, Force,
    RestoreState, RuneSums,
};

verus! {

// ---------------------------------------------------------------------------
// The table
// ---------------------------------------------------------------------------

/// What each word of a reward stands for: the effects on the player's speed, on their stamina,
/// on the camera, on flasks and on runes last for a while, and all others work at once. Only
/// healing, focus, gifts of flasks and the exchange of runes do no harm.
pub proof fn every_effect_is_what_it_is_called(key: Seq<char>, e: Effect)
    requires
        effect_named(key) == Some(e),
    ensures
        key == "slow"@ <==> e == Effect::Slow,
        key == "fast"@ <==> e == Effect::Fast,
        key == "stamina_half"@ <==> e == Effect::StaminaHalf,
        key == "stamina_none"@ <==> e == Effect::StaminaNone,
        key == "camera_sway"@ <==> e == Effect::CameraSway,
        key == "flask_lock"@ <==> e == Effect::FlaskLock,
        key == "rune_trade"@ <==> e == Effect::RuneTrade,
        key == "heal"@ <==> e == Effect::Heal,
        key == "restore_fp"@ <==> e == Effect::RestoreFp,
        key == "flask_gift"@ <==> e == Effect::FlaskGift,
        key == "one_hp"@ <==> e == Effect::OneHp,
        key == "boss_heal"@ <==> e == Effect::BossHeal,
        key == "boss_hp"@ <==> e == Effect::BossHp,
        effect_text(e).key == key,
        effect_text(e).harmful <==> !(key == "heal"@ || key == "restore_fp"@ || key
            == "flask_gift"@ || key == "rune_trade"@),
        effect_text(e).default_secs == (if key == "slow"@ || key == "fast"@ {
            100
        } else if key == "camera_sway"@ {
            120
        } else if key == "flask_lock"@ {
            90
        } else if key == "stamina_half"@ || key == "stamina_none"@ || key == "rune_trade"@ {
            180
        } else {
            0int
        }),
{
    the_table_is_well_formed(e, Effect::Slow);
    the_table_is_well_formed(e, Effect::Fast);
    the_table_is_well_formed(e, Effect::StaminaHalf);
    the_table_is_well_formed(e, Effect::StaminaNone);
    the_table_is_well_formed(e, Effect::CameraSway);
    the_table_is_well_formed(e, Effect::FlaskLock);
    the_table_is_well_formed(e, Effect::RuneTrade);
    the_table_is_well_formed(e, Effect::Heal);
    the_table_is_well_formed(e, Effect::RestoreFp);
    the_table_is_well_formed(e, Effect::FlaskGift);
    the_table_is_well_formed(e, Effect::OneHp);
    the_table_is_well_formed(e, Effect::BossHeal);
    the_table_is_well_formed(e, Effect::BossHp);
}

// ---------------------------------------------------------------------------
// Effects without a duration
// ---------------------------------------------------------------------------

/// Effects on the player's body: a heal makes the health full, focus is made full, and one
/// leaves a single point of health. Everything else of the game stays as it is, and without a
/// player they are refused.
pub proof fn health_and_focus(g: GameState, h: GameState)
    ensures
        once(Effect::Heal, g) == Ok::<GameState, Rejected>(h) ==> g.player is Some
            && h.player.unwrap().hp == g.player.unwrap().max_hp && once(Effect::Heal, h) == Ok::<
            GameState,
            Rejected,
        >(h) && h.player.unwrap() == (PlayerState {
            hp: h.player.unwrap().hp,
            ..g.player.unwrap()
        }),
        once(Effect::RestoreFp, g) == Ok::<GameState, Rejected>(h) ==> g.player is Some
            && h.player.unwrap().fp == g.player.unwrap().max_fp && h.player.unwrap() == (
        PlayerState { fp: h.player.unwrap().fp, ..g.player.unwrap() }),
        once(Effect::OneHp, g) == Ok::<GameState, Rejected>(h) ==> g.player is Some
            && h.player.unwrap().hp == 1 && h.player.unwrap() == (PlayerState {
            hp: 1,
            ..g.player.unwrap()
        }),
        forall|e: Effect|
            (e == Effect::Heal || e == Effect::RestoreFp || e == Effect::OneHp || e
                == Effect::FlaskGift) ==> {
                &&& (g.player is None <==> #[trigger] once(e, g) is Err)
                &&& (once(e, g) is Err ==> once(e, g) == Err::<GameState, Rejected>(
                    Rejected::NoPlayer,
                ))
                &&& (once(e, g) == Ok::<GameState, Rejected>(h) ==> h.speed == g.speed && h.target
                    == g.target && h.player is Some)
            },
{
}

/// A gift of flasks adds three charges to every flask, or fills it to the player's limit for
/// its kind, and changes no other item.
pub proof fn gifts_add_three_charges(g: GameState, h: GameState, k: int)
    requires
        once(Effect::FlaskGift, g) == Ok::<GameState, Rejected>(h),
        0 <= k < g.player.unwrap().items.len(),
    ensures
        h.player.unwrap().items.len() == g.player.unwrap().items.len(),
        h.player.unwrap() == (PlayerState { items: h.player.unwrap().items, ..g.player.unwrap() }),
        ({
            let was = g.player.unwrap().items[k];
            let is = h.player.unwrap().items[k];
            let red = was.goods && 1000 <= was.id <= 1025;
            let blue = was.goods && 1050 <= was.id <= 1075;
            let limit = if red {
                g.player.unwrap().max_hp_flask as int
            } else {
                g.player.unwrap().max_fp_flask as int
            };
            &&& !(red || blue) ==> is == was
            &&& is == (Item { quantity: is.quantity, ..was })
            &&& (red || blue) && was.quantity + 3 <= limit ==> is.quantity == was.quantity + 3
            &&& (red || blue) && was.quantity + 3 > limit ==> is.quantity == limit
        }),
{
}

/// Healing the boss makes its health full; swelling it makes its greatest health four times
/// as large, as far as a number can hold it, and heals a tenth of that, but never beyond it.
/// Nothing else changes. Without a boss both are refused, and so they are without a world.
pub proof fn bosses_are_healed_and_swollen(g: GameState, h: GameState, e: Effect)
    requires
        e == Effect::BossHeal || e == Effect::BossHp,
    ensures
        once(e, g) is Ok <==> g.target is Found,
        g.target is Absent ==> once(e, g) == Err::<GameState, Rejected>(Rejected::NoBoss),
        g.target is NoWorld ==> once(e, g) == Err::<GameState, Rejected>(Rejected::NoPlayer),
        once(e, g) == Ok::<GameState, Rejected>(h) ==> {
            let was = g.target->Found_0;
            let is = h.target->Found_0;
            &&& h.target is Found
            &&& h.player == g.player
            &&& h.speed == g.speed
            &&& e == Effect::BossHeal ==> is.hp == is.max_hp && is.max_hp == was.max_hp
                && is.max_uncapped_hp == was.max_uncapped_hp
            &&& (e == Effect::BossHp && 0 <= was.max_hp <= 500_000_000) ==> is.max_hp == 4
                * was.max_hp
            &&& (e == Effect::BossHp && was.max_hp > 600_000_000) ==> is.max_hp == i32::MAX
            &&& e == Effect::BossHp ==> is.hp <= is.max_hp && is.max_uncapped_hp >= is.max_hp
                && is.max_uncapped_hp >= was.max_uncapped_hp && (is.max_uncapped_hp == is.max_hp
                || is.max_uncapped_hp == was.max_uncapped_hp)
            &&& (e == Effect::BossHp && was.max_hp >= 0 && 0 <= was.hp <= was.max_hp) ==> is.hp
                == is.max_hp || is.hp - was.hp == is.max_hp / 10
            &&& (e == Effect::BossHp && 0 <= was.max_hp <= 500_000_000 && 0 <= was.hp
                <= was.max_hp) ==> is.hp - was.hp == is.max_hp / 10
        },
{
}

// ---------------------------------------------------------------------------
// Starting
// ---------------------------------------------------------------------------

/// A number and its charges are those of a flask.
pub open spec fn is_of_a_flask(items: Seq<Item>, charge: (u32, u32)) -> bool {
    exists|k: int|
        0 <= k < items.len() && is_flask(#[trigger] items[k]) && charge == (
            items[k].id,
            items[k].quantity,
        )
}

proof fn lemma_flask_charges(items: Seq<Item>)
    ensures
        forall|k: int|
            0 <= k < items.len() && is_flask(#[trigger] items[k]) ==> flask_charges(items).contains(
                (items[k].id, items[k].quantity),
            ),
        forall|c: int|
            0 <= c < flask_charges(items).len() ==> is_of_a_flask(
                items,
                #[trigger] flask_charges(items)[c],
            ),
    decreases items.len(),
{
    if items.len() > 0 {
        let front = items.drop_last();
        let n: int = items.len() - 1;
        lemma_flask_charges(front);
        let before = flask_charges(front);
        let out = flask_charges(items);
        assert forall|k: int| 0 <= k < items.len() && is_flask(#[trigger] items[k]) implies out.contains(
            (items[k].id, items[k].quantity),
        ) by {
            if k < n {
                assert(front[k] == items[k]);
                assert(before.contains((items[k].id, items[k].quantity)));
                let c = choose|c: int|
                    0 <= c < before.len() && before[c] == (items[k].id, items[k].quantity);
                assert(out[c] == before[c]);
            } else {
                assert(out[before.len() as int] == (items[k].id, items[k].quantity));
            }
        }
        assert forall|c: int| 0 <= c < out.len() implies is_of_a_flask(items, #[trigger] out[c]) by {
            if c < before.len() {
                assert(out[c] == before[c]);
                let k = choose|k: int|
                    0 <= k < front.len() && is_flask(#[trigger] front[k]) && before[c] == (
                        front[k].id,
                        front[k].quantity,
                    );
                assert(items[k] == front[k]);
            } else {
                assert(items[n] == items.last());
            }
        }
    }
}

proof fn lemma_flask_groups(items: Seq<Item>)
    ensures
        flask_groups(items).no_duplicates(),
        forall|k: int|
            0 <= k < items.len() && is_flask(#[trigger] items[k]) && items[k].pot_group >= 0
                ==> flask_groups(items).contains(items[k].pot_group as usize),
    decreases items.len(),
{
    if items.len() > 0 {
        let front = items.drop_last();
        let n: int = items.len() - 1;
        lemma_flask_groups(front);
        let before = flask_groups(front);
        let out = flask_groups(items);
        assert(items[n] == items.last());
        assert forall|k: int|
            0 <= k < items.len() && is_flask(#[trigger] items[k]) && items[k].pot_group
                >= 0 implies out.contains(items[k].pot_group as usize) by {
            if k < n {
                assert(front[k] == items[k]);
                assert(before.contains(items[k].pot_group as usize));
                let c = choose|c: int|
                    0 <= c < before.len() && before[c] == items[k].pot_group as usize;
                assert(out[c] == before[c]);
            } else if !before.contains(items[k].pot_group as usize) {
                assert(out[before.len() as int] == items[k].pot_group as usize);
            }
        }
        assert(out.no_duplicates());
    }
}

proof fn lemma_pot_counts(groups: Seq<usize>, pots: Seq<u32>)
    requires
        groups.no_duplicates(),
    ensures
        forall|c: int|
            0 <= c < pot_counts(groups, pots).len() ==> (#[trigger] pot_counts(groups, pots)[c]).0
                < pots.len() && pot_counts(groups, pots)[c].1 == pots[pot_counts(
                groups,
                pots,
            )[c].0 as int] && groups.contains(pot_counts(groups, pots)[c].0),
        forall|a: int, b: int|
            0 <= a < b < pot_counts(groups, pots).len() ==> (#[trigger] pot_counts(
                groups,
                pots,
            )[a]).0 != (#[trigger] pot_counts(groups, pots)[b]).0,
        forall|i: int|
            0 <= i < groups.len() && (#[trigger] groups[i]) < pots.len() ==> pot_counts(
                groups,
                pots,
            ).contains((groups[i], pots[groups[i] as int])),
    decreases groups.len(),
{
    if groups.len() > 0 {
        let front = groups.drop_last();
        let n: int = groups.len() - 1;
        assert forall|i: int, j: int|
            0 <= i < front.len() && 0 <= j < front.len() && i != j implies front[i]
            != front[j] by {
            assert(groups[i] != groups[j]);
        }
        lemma_pot_counts(front, pots);
        let before = pot_counts(front, pots);
        let out = pot_counts(groups, pots);
        assert(groups[n] == groups.last());
        assert forall|c: int| 0 <= c < out.len() implies (#[trigger] out[c]).0 < pots.len()
            && out[c].1 == pots[out[c].0 as int] && groups.contains(out[c].0) by {
            if c < before.len() {
                assert(out[c] == before[c]);
                assert(front.contains(before[c].0));
                let i = choose|i: int| 0 <= i < front.len() && front[i] == before[c].0;
                assert(groups[i] == out[c].0);
            } else {
                assert(groups[n] == out[c].0);
            }
        }
        assert forall|a: int, b: int| 0 <= a < b < out.len() implies (#[trigger] out[a]).0 != (
        #[trigger] out[b]).0 by {
            assert(out[a] == before[a]);
            if b < before.len() {
                assert(out[b] == before[b]);
            } else {
                assert(front.contains(before[a].0));
                let i = choose|i: int| 0 <= i < front.len() && front[i] == before[a].0;
                assert(groups[i] != groups[n]);
            }
        }
        assert forall|i: int| 0 <= i < groups.len() && (#[trigger] groups[i])
            < pots.len() implies out.contains((groups[i], pots[groups[i] as int])) by {
            if i < n {
                assert(front[i] == groups[i]);
                assert(before.contains((front[i], pots[front[i] as int])));
                let c = choose|c: int|
                    0 <= c < before.len() && before[c] == (front[i], pots[front[i] as int]);
                assert(out[c] == before[c]);
            } else {
                assert(out[before.len() as int] == (groups[n], pots[groups[n] as int]));
            }
        }
    }
}

/// What an effect takes down at its start is what the game shows then: the greatest stamina,
/// every row of the camera, and of the flasks every charge and every group of vessels that
/// exists, each once. An exchange of runes begins with nothing. The start is refused only
/// where the game lacks what has to be changed.
pub proof fn what_is_taken_down(
    e: Effect,
    now: u64,
    g: GameState,
    camera: Option<Seq<(u32, Scalar)>>,
)
    requires
        group_of(e) is Some,
    ensures
        match starting(e, now, g, camera) {
            Ok(r) => {
                &&& fits(ActiveState { effect: e, redemption_id: Seq::empty(), started: now, until: now, restore: r })
                &&& r is Speed ==> g.speed is Some
                &&& r matches RestoreState::Stamina(saved) ==> g.player is Some && saved
                    == g.player.unwrap().max_stamina
                &&& r matches RestoreState::Fov(rows) ==> camera == Some(rows) && rows.len() > 0
                &&& r matches RestoreState::Runes(x) ==> x.net == 0 && x.pending.bits == 0
                    && x.dealt.bits == 0 && x.taken.bits == 0 && x.flushed == now
                &&& r matches RestoreState::Flasks(charges, pots) ==> {
                    let items = g.player.unwrap().items;
                    let all = g.player.unwrap().pots;
                    &&& g.player is Some
                    &&& forall|k: int|
                        0 <= k < items.len() && is_flask(#[trigger] items[k]) ==> charges.contains(
                            (items[k].id, items[k].quantity),
                        )
                    &&& forall|c: int|
                        0 <= c < charges.len() ==> is_of_a_flask(items, #[trigger] charges[c])
                    &&& forall|k: int|
                        0 <= k < items.len() && is_flask(#[trigger] items[k]) && 0
                            <= items[k].pot_group < all.len() ==> pots.contains(
                            (items[k].pot_group as usize, all[items[k].pot_group as int]),
                        )
                    &&& forall|c: int|
                        0 <= c < pots.len() ==> (#[trigger] pots[c]).0 < all.len() && pots[c].1
                            == all[pots[c].0 as int]
                    &&& forall|a: int, b: int|
                        0 <= a < b < pots.len() ==> (#[trigger] pots[a]).0 != (#[trigger] pots[b]).0
                }
            },
            Err(why) => {
                &&& why == Rejected::NoPlayer || why == Rejected::NoParams
                &&& why == Rejected::NoParams ==> e == Effect::CameraSway && (camera is None
                    || camera.unwrap().len() == 0)
                &&& why == Rejected::NoPlayer ==> (if e == Effect::Slow || e == Effect::Fast {
                    g.speed is None
                } else {
                    e != Effect::CameraSway && e != Effect::RuneTrade && g.player is None
                })
            },
        },
{
    if g.player is Some {
        let p = g.player.unwrap();
        lemma_flask_charges(p.items);
        lemma_flask_groups(p.items);
        let groups = flask_groups(p.items);
        lemma_pot_counts(groups, p.pots);
        let pots = pot_counts(groups, p.pots);
        assert forall|k: int|
            0 <= k < p.items.len() && is_flask(#[trigger] p.items[k]) && 0 <= p.items[k].pot_group
                < p.pots.len() implies pots.contains(
            (p.items[k].pot_group as usize, p.pots[p.items[k].pot_group as int]),
        ) by {
            assert(groups.contains(p.items[k].pot_group as usize));
            let i = choose|i: int|
                0 <= i < groups.len() && groups[i] == p.items[k].pot_group as usize;
            assert(groups[i] < p.pots.len());
        }
    }
}

/// A purchase of an effect that is known leaves the effects in order, and it is there then:
/// with its purchase, and until so many seconds from now as were bought, or as the table says
/// where none were; ten minutes at most. Where one of its group ran longer, that end stays.
/// All effects of other groups are as they were, and the game is not touched yet.
pub proof fn a_purchase_runs_as_long_as_it_was_bought(
    before: EffectState,
    after: EffectState,
    game: GameState,
    next: GameState,
    key: Seq<char>,
    secs: u16,
    id: Seq<char>,
    now: u64,
    camera: Option<Vec<(u32, Scalar)>>,
    world: World,
    l: Locales,
    r: Result<(), Rejected>,
    e: Effect,
) -> (k: int)
    requires
        in_order(active_states(before.active@)),
        applied(before, after, game, next, key, secs, id, now, camera, world, l, r),
        effect_named(key) == Some(e),
        group_of(e) is Some,
        r is Ok,
        now + 600_000_000_000 <= u64::MAX,
    ensures
        in_order(active_states(after.active@)),
        next == game,
        0 <= k < active_states(after.active@).len(),
        active_states(after.active@)[k].effect == e,
        active_states(after.active@)[k].redemption_id == id,
        active_states(after.active@)[k].until >= now + (if secs == 0 {
            effect_text(e).default_secs as int
        } else if secs <= 600 {
            secs as int
        } else {
            600
        }) * 1_000_000_000,
        (forall|i: int|
            0 <= i < active_states(before.active@).len() ==> group_of(
                (#[trigger] active_states(before.active@)[i]).effect,
            ) != group_of(e)) ==> active_states(after.active@)[k].started == now
            && active_states(after.active@)[k].until == now + (if secs == 0 {
            effect_text(e).default_secs as int
        } else if secs <= 600 {
            secs as int
        } else {
            600
        }) * 1_000_000_000 && active_states(after.active@).len() == active_states(
            before.active@,
        ).len() + 1,
        forall|i: int|
            0 <= i < active_states(before.active@).len() ==> (if group_of(
                (#[trigger] active_states(before.active@)[i]).effect,
            ) == group_of(e) {
                &&& active_states(after.active@).len() == active_states(before.active@).len()
                &&& active_states(after.active@)[k].restore == active_states(
                    before.active@,
                )[i].restore
                &&& active_states(after.active@)[k].until >= active_states(before.active@)[i].until
                &&& active_states(after.active@)[k].started == active_states(
                    before.active@,
                )[i].started
            } else {
                active_states(after.active@).contains(active_states(before.active@)[i])
            }),
{
    let all = active_states(before.active@);
    let out = active_states(after.active@);
    let k = group_at(all, group_of(e));
    lemma_group_at(all, group_of(e));
    the_table_is_well_formed(e, e);
    assert(effect_text(e).default_secs > 0);
    if k < all.len() {
        let until = out[k].until;
        assert(fits(all[k]));
        assert(out == all.update(k, out[k]));
        assert forall|i: int| 0 <= i < out.len() implies fits(#[trigger] out[i]) && group_of(
            out[i].effect,
        ) is Some by {
            assert(fits(all[i]));
            assert(group_of(all[i].effect) is Some);
        }
        assert forall|i: int, j: int| 0 <= i < j < out.len() implies group_of(
            (#[trigger] out[i]).effect,
        ) != group_of((#[trigger] out[j]).effect) by {
            assert(group_of(all[i].effect) != group_of(all[j].effect));
        }
        assert forall|i: int| 0 <= i < all.len() && i != k implies group_of(
            (#[trigger] all[i]).effect,
        ) != group_of(e) && out.contains(all[i]) by {
            if i < k {
                assert(group_of(all[i].effect) != group_of(all[k].effect));
            } else {
                assert(group_of(all[k].effect) != group_of(all[i].effect));
            }
            assert(out[i] == all[i]);
        }
        k
    } else {
        what_is_taken_down(e, now, game, camera_rows(camera));
        let n: int = all.len() as int;
        assert(out == all.push(out[n]));
        assert forall|i: int| 0 <= i < out.len() implies fits(#[trigger] out[i]) && group_of(
            out[i].effect,
        ) is Some by {
            if i < n {
                assert(fits(all[i]));
                assert(group_of(all[i].effect) is Some);
            }
        }
        assert forall|i: int, j: int| 0 <= i < j < out.len() implies group_of(
            (#[trigger] out[i]).effect,
        ) != group_of((#[trigger] out[j]).effect) by {
            assert(out[i] == all[i]);
            if j < n {
                assert(group_of(all[i].effect) != group_of(all[j].effect));
            } else {
                assert(group_of(all[i].effect) != group_of(e));
            }
        }
        assert forall|i: int| 0 <= i < all.len() implies group_of((#[trigger] all[i]).effect)
            != group_of(e) && out.contains(all[i]) by {
            assert(out[i] == all[i]);
        }
        n
    }
}

/// A purchase that is refused changes neither the effects that run nor the game, and an
/// unknown one is always refused.
pub proof fn a_refused_effect_changes_nothing(
    before: EffectState,
    after: EffectState,
    game: GameState,
    next: GameState,
    key: Seq<char>,
    secs: u16,
    id: Seq<char>,
    now: u64,
    camera: Option<Vec<(u32, Scalar)>>,
    world: World,
    l: Locales,
    r: Result<(), Rejected>,
)
    requires
        applied(before, after, game, next, key, secs, id, now, camera, world, l, r),
    ensures
        r is Err ==> after == before && next == game,
        r == Err::<(), Rejected>(Rejected::Unknown) <==> forall|e: Effect|
            #[trigger] effect_text(e).key != key,
{
    match effect_named(key) {
        Some(e) => {
            every_effect_is_what_it_is_called(key, e);
            the_table_is_well_formed(e, e);
            assert(effect_text(e).key == key);
            if group_of(e) is Some {
                what_is_taken_down(e, now, game, camera_rows(camera));
            }
        },
        None => {
            assert forall|e: Effect| #[trigger] effect_text(e).key != key by {
                the_table_is_well_formed(e, e);
            }
        },
    }
}

// ---------------------------------------------------------------------------
// Bought, felt, and undone
// ---------------------------------------------------------------------------

/// Whoever buys fast forward makes the game faster than normal on every frame until their
/// seconds are over, and whoever buys slow motion makes it slower.
pub proof fn bought_speed_is_felt(
    s0: EffectState,
    s1: EffectState,
    s2: EffectState,
    g0: GameState,
    g1: GameState,
    g2: GameState,
    g3: GameState,
    key: Seq<char>,
    secs: u16,
    id: Seq<char>,
    now: u64,
    then: u64,
    camera: Option<Vec<(u32, Scalar)>>,
    world: World,
    l: Locales,
    r: Result<(), Rejected>,
    sums: RuneSums,
    written: Option<CameraWrite>,
)
    requires
        in_order(active_states(s0.active@)),
        applied(s0, s1, g0, g1, key, secs, id, now, camera, world, l, r),
        r is Ok,
        1 <= secs <= 600,
        now + 600_000_000_000 <= u64::MAX,
        ran(s1, s2, g2, g3, then, Force::Due, sums, l, written),
        then < now + secs * 1_000_000_000,
        g2.speed is Some,
    ensures
        key == "fast"@ ==> g3.speed is Some && (Scalar { bits: 0x3F80_0000 }).below(
            g3.speed.unwrap(),
        ),
        key == "slow"@ ==> g3.speed is Some && g3.speed.unwrap().below(
            Scalar { bits: 0x3F80_0000 },
        ),
{
    if key == "fast"@ || key == "slow"@ {
        the_table_is_well_formed(Effect::Fast, Effect::Slow);
        the_table_is_well_formed(Effect::Slow, Effect::Slow);
        let e = effect_named(key).unwrap();
        every_effect_is_what_it_is_called(key, e);
        let k = a_purchase_runs_as_long_as_it_was_bought(
            s0,
            s1,
            g0,
            g1,
            key,
            secs,
            id,
            now,
            camera,
            world,
            l,
            r,
            e,
        );
        let all = active_states(s1.active@);
        speed_goes_the_way_it_was_bought(all, then, g2, sums, l, k);
    }
}

/// What was taken down at the start is back in the game when all effects are undone: bought
/// stamina effects leave the greatest stamina exactly as it was, whatever the game did with
/// it meanwhile.
pub proof fn undoing_gives_the_stamina_back(
    s0: EffectState,
    s1: EffectState,
    s2: EffectState,
    g0: GameState,
    g1: GameState,
    g2: GameState,
    g3: GameState,
    key: Seq<char>,
    secs: u16,
    id: Seq<char>,
    now: u64,
    then: u64,
    camera: Option<Vec<(u32, Scalar)>>,
    world: World,
    l: Locales,
    r: Result<(), Rejected>,
    sums: RuneSums,
    written: Option<CameraWrite>,
    force: Force,
)
    requires
        in_order(active_states(s0.active@)),
        forall|i: int|
            0 <= i < active_states(s0.active@).len() ==> !((#[trigger] active_states(
                s0.active@,
            )[i]).restore is Stamina),
        key == "stamina_half"@ || key == "stamina_none"@,
        applied(s0, s1, g0, g1, key, secs, id, now, camera, world, l, r),
        r is Ok,
        now + 600_000_000_000 <= u64::MAX,
        ran(s1, s2, g2, g3, then, force, sums, l, written),
        force != Force::Due,
        g2.player is Some,
    ensures
        g0.player is Some,
        g3.player is Some,
        g3.player.unwrap().max_stamina == g0.player.unwrap().max_stamina,
{
    the_table_is_well_formed(Effect::StaminaHalf, Effect::StaminaNone);
    the_table_is_well_formed(Effect::StaminaNone, Effect::StaminaNone);
    let e = effect_named(key).unwrap();
    every_effect_is_what_it_is_called(key, e);
    let all = active_states(s0.active@);
    let out = active_states(s1.active@);
    let n = group_at(all, group_of(e));
    lemma_group_at(all, group_of(e));
    if n < all.len() {
        assert(fits(all[n]));
    }
    what_is_taken_down(e, now, g0, camera_rows(camera));
    let k = a_purchase_runs_as_long_as_it_was_bought(
        s0,
        s1,
        g0,
        g1,
        key,
        secs,
        id,
        now,
        camera,
        world,
        l,
        r,
        e,
    );
    assert(out[n].effect == e);
    an_effect_that_is_over_is_undone(out, then, force, g2, sums, l, n);
    crate::effect_laws::effects_mind_their_own_business(out, then, force, g2, sums, l);
}

/// A look at the damage is taken exactly while an exchange of runes has time left.
pub proof fn damage_counts_while_runes_are_exchanged(active: Seq<ActiveState>, now: u64)
    requires
        in_order(active),
    ensures
        trade_runs(active, now) <==> exists|i: int|
            0 <= i < active.len() && (#[trigger] active[i]).effect == Effect::RuneTrade && now
                < active[i].until,
{
    assert forall|i: int| 0 <= i < active.len() implies ((#[trigger] active[i]).restore is Runes
        <==> active[i].effect == Effect::RuneTrade) by {
        assert(fits(active[i]));
    }
    if trade_runs(active, now) {
        let i = choose|i: int|
            0 <= i < active.len() && (#[trigger] active[i]).restore is Runes && active[i].until
                > now;
        assert(active[i].effect == Effect::RuneTrade);
    }
}

} // verus!
