//! Which blows count: every loss of health that is not another's doing, once.

use vstd::prelude::*;
use crate::damage::{
    after_poll, attacker, looked_at, remembered, with_shots, Creature, HitBy, Shot, WatchState,
    World,
};

verus! {

/// No creature stands twice in a list.
pub open spec fn creatures_differ(cs: Seq<Creature>) -> bool {
    forall|i: int, j: int|
        0 <= i < j < cs.len() ==> (#[trigger] cs[i]).handle != (#[trigger] cs[j]).handle
}

/// No shot stands twice in a list.
pub open spec fn shots_differ(ss: Seq<Shot>) -> bool {
    forall|i: int, j: int|
        0 <= i < j < ss.len() ==> (#[trigger] ss[i]).handle != (#[trigger] ss[j]).handle
}

/// A shot belongs to a creature: it is in the air with that owner; or it is not in the air
/// with any owner, and was less than three seconds ago with that one.
pub open spec fn belongs_to(w: WatchState, now: u64, ss: Seq<Shot>, shot: u64, owner: u64) -> bool {
    ||| exists|j: int|
        0 <= j < ss.len() && (#[trigger] ss[j]).handle == shot && ss[j].owner == Some(owner)
    ||| {
        &&& forall|j: int| 0 <= j < ss.len() && (#[trigger] ss[j]).handle == shot ==> ss[j].owner is None
        &&& w.bullets.contains_key(shot)
        &&& w.bullets[shot].0 == owner
        &&& now < w.bullets[shot].1 + 3_000_000_000
    }
}

/// A blow is not known to be another's: no other creature dealt it, by hand or by a shot.
pub open spec fn is_ours(w: WatchState, now: u64, ss: Seq<Shot>, me: u64, by: HitBy) -> bool {
    match by {
        HitBy::Creature(h) => h == me,
        HitBy::Shot(b) => forall|o: u64| #[trigger] belongs_to(w, now, ss, b, o) ==> o == me,
        HitBy::Other => true,
    }
}

/// What a creature has lost by the player: the difference to the health it was remembered
/// with, down to and beyond its death.
pub open spec fn lost_to_us(w: WatchState, now: u64, ss: Seq<Shot>, me: u64, c: Creature) -> int {
    if c.handle != me && w.last_hp.contains_key(c.handle) && c.hp < w.last_hp[c.handle].0
        && is_ours(w, now, ss, me, c.hit_by) {
        w.last_hp[c.handle].0 - c.hp
    } else {
        0
    }
}

/// What some creatures have lost by the player.
pub open spec fn all_lost(
    w: WatchState,
    now: u64,
    ss: Seq<Shot>,
    me: u64,
    cs: Seq<Creature>,
) -> int
    decreases cs.len(),
{
    if cs.len() == 0 {
        0
    } else {
        all_lost(w, now, ss, me, cs.drop_last()) + lost_to_us(w, now, ss, me, cs.last())
    }
}

/// The sum of some blows.
pub open spec fn total(hits: Seq<u32>) -> int
    decreases hits.len(),
{
    if hits.len() == 0 {
        0
    } else {
        total(hits.drop_last()) + hits.last()
    }
}

proof fn lemma_with_shots(m: Map<u64, (u64, u64)>, ss: Seq<Shot>, now: u64, b: u64)
    requires
        shots_differ(ss),
    ensures
        forall|j: int|
            0 <= j < ss.len() && (#[trigger] ss[j]).handle == b && ss[j].owner is Some ==> with_shots(
                m,
                ss,
                now,
            ).contains_key(b) && with_shots(m, ss, now)[b] == (ss[j].owner.unwrap(), now),
        (forall|j: int| 0 <= j < ss.len() && (#[trigger] ss[j]).handle == b ==> ss[j].owner is None)
            ==> with_shots(m, ss, now).contains_key(b) == m.contains_key(b) && (m.contains_key(b)
            ==> with_shots(m, ss, now)[b] == m[b]),
    decreases ss.len(),
{
    if ss.len() > 0 {
        let front = ss.drop_last();
        let n: int = ss.len() - 1;
        assert forall|i: int, j: int| 0 <= i < j < front.len() implies (
        #[trigger] front[i]).handle != (#[trigger] front[j]).handle by {
            assert(ss[i].handle != ss[j].handle);
        }
        lemma_with_shots(m, front, now, b);
        assert(ss[n] == ss.last());
        assert forall|j: int|
            0 <= j < ss.len() && (#[trigger] ss[j]).handle == b
                && ss[j].owner is Some implies with_shots(m, ss, now).contains_key(b)
            && with_shots(m, ss, now)[b] == (ss[j].owner.unwrap(), now) by {
            if j < n {
                assert(front[j] == ss[j]);
                assert(ss[j].handle != ss[n].handle);
            }
        }
        if forall|j: int| 0 <= j < ss.len() && (#[trigger] ss[j]).handle == b ==> ss[j].owner is None {
            assert forall|j: int|
                0 <= j < front.len() && (#[trigger] front[j]).handle
                    == b implies front[j].owner is None by {
                assert(front[j] == ss[j]);
            }
        }
    }
}

/// Whose a blow is, told from the shots that are remembered.
proof fn lemma_ours(w: WatchState, now: u64, ss: Seq<Shot>, me: u64, by: HitBy)
    requires
        shots_differ(ss),
    ensures
        is_ours(w, now, ss, me, by) <==> match attacker(
            remembered(with_shots(w.bullets, ss, now), now),
            by,
        ) {
            Some(who) => who == me,
            None => true,
        },
{
    match by {
        HitBy::Shot(b) => {
            lemma_with_shots(w.bullets, ss, now, b);
            let all = with_shots(w.bullets, ss, now);
            let kept = remembered(all, now);
            if exists|j: int| 0 <= j < ss.len() && (#[trigger] ss[j]).handle == b && ss[j].owner is Some {
                let j = choose|j: int|
                    0 <= j < ss.len() && (#[trigger] ss[j]).handle == b && ss[j].owner is Some;
                let o = ss[j].owner.unwrap();
                assert(all[b] == (o, now));
                assert(kept.contains_key(b));
                assert(belongs_to(w, now, ss, b, o));
                assert forall|p: u64| #[trigger] belongs_to(w, now, ss, b, p) implies p == o by {
                    let i = choose|i: int|
                        0 <= i < ss.len() && (#[trigger] ss[i]).handle == b && ss[i].owner == Some(
                            p,
                        );
                    if i < j {
                        assert(ss[i].handle != ss[j].handle);
                    } else if j < i {
                        assert(ss[j].handle != ss[i].handle);
                    }
                }
            } else {
                assert forall|j: int|
                    0 <= j < ss.len() && (#[trigger] ss[j]).handle
                        == b implies ss[j].owner is None by {}
                if kept.contains_key(b) {
                    let o = w.bullets[b].0;
                    assert(belongs_to(w, now, ss, b, o));
                }
            }
        },
        _ => {},
    }
}

proof fn lemma_looked(
    w: WatchState,
    now: u64,
    ss: Seq<Shot>,
    cs: Seq<Creature>,
    me: u64,
    frame: u64,
)
    requires
        shots_differ(ss),
        creatures_differ(cs),
    ensures
        ({
            let (seen, hits) = looked_at(
                w.last_hp,
                remembered(with_shots(w.bullets, ss, now), now),
                cs,
                me,
                frame,
            );
            &&& total(hits) == all_lost(w, now, ss, me, cs)
            &&& forall|h: u64|
                (forall|i: int| 0 <= i < cs.len() ==> (#[trigger] cs[i]).handle != h)
                    ==> #[trigger] seen.contains_key(h) == w.last_hp.contains_key(h) && (
                seen.contains_key(h) ==> seen[h] == w.last_hp[h])
            &&& forall|i: int|
                0 <= i < cs.len() && (#[trigger] cs[i]).handle != me ==> if w.last_hp.contains_key(
                    cs[i].handle,
                ) && w.last_hp[cs[i].handle].0 > 0 && cs[i].hp <= 0 {
                    !seen.contains_key(cs[i].handle)
                } else {
                    seen.contains_key(cs[i].handle) && seen[cs[i].handle] == (cs[i].hp, frame)
                }
            &&& forall|i: int|
                0 <= i < cs.len() && lost_to_us(w, now, ss, me, #[trigger] cs[i]) > 0
                    ==> hits.contains(lost_to_us(w, now, ss, me, cs[i]) as u32)
        }),
    decreases cs.len(),
{
    let bullets = remembered(with_shots(w.bullets, ss, now), now);
    if cs.len() > 0 {
        let front = cs.drop_last();
        let n: int = cs.len() - 1;
        let c = cs.last();
        assert(cs[n] == c);
        assert forall|i: int, j: int| 0 <= i < j < front.len() implies (
        #[trigger] front[i]).handle != (#[trigger] front[j]).handle by {
            assert(cs[i].handle != cs[j].handle);
        }
        lemma_looked(w, now, ss, front, me, frame);
        lemma_ours(w, now, ss, me, c.hit_by);
        let (before, hits) = looked_at(w.last_hp, bullets, front, me, frame);
        let (seen, more) = looked_at(w.last_hp, bullets, cs, me, frame);
        assert forall|i: int| 0 <= i < front.len() implies (#[trigger] front[i]).handle
            != c.handle by {
            assert(cs[i].handle != cs[n].handle);
        }
        assert(before.contains_key(c.handle) == w.last_hp.contains_key(c.handle));
        let x = lost_to_us(w, now, ss, me, c);
        if x > 0 {
            assert(more == hits.push(x as u32));
            assert(more.drop_last() == hits);
        } else {
            assert(more == hits);
        }
        assert forall|h: u64|
            (forall|i: int| 0 <= i < cs.len() ==> (#[trigger] cs[i]).handle
                != h) implies #[trigger] seen.contains_key(h) == w.last_hp.contains_key(h) && (
        seen.contains_key(h) ==> seen[h] == w.last_hp[h]) by {
            assert(cs[n].handle != h);
            assert forall|i: int| 0 <= i < front.len() implies (#[trigger] front[i]).handle != h by {
                assert(cs[i].handle != h);
            }
            assert(before.contains_key(h) == w.last_hp.contains_key(h));
        }
        assert forall|i: int| 0 <= i < cs.len() && (#[trigger] cs[i]).handle != me implies if w.last_hp.contains_key(
            cs[i].handle,
        ) && w.last_hp[cs[i].handle].0 > 0 && cs[i].hp <= 0 {
            !seen.contains_key(cs[i].handle)
        } else {
            seen.contains_key(cs[i].handle) && seen[cs[i].handle] == (cs[i].hp, frame)
        } by {
            if i < n {
                assert(front[i] == cs[i]);
                assert(cs[i].handle != cs[n].handle);
            }
        }
        assert forall|i: int|
            0 <= i < cs.len() && lost_to_us(w, now, ss, me, #[trigger] cs[i])
                > 0 implies more.contains(lost_to_us(w, now, ss, me, cs[i]) as u32) by {
            if i < n {
                assert(front[i] == cs[i]);
                let y = lost_to_us(w, now, ss, me, cs[i]) as u32;
                assert(hits.contains(y));
                let k = choose|k: int| 0 <= k < hits.len() && hits[k] == y;
                assert(more[k] == y);
            } else {
                assert(more[hits.len() as int] == x as u32);
            }
        }
    }
}

/// A look that counts, less than four tenths of a second after the last one: the blows dealt
/// add up to what all the creatures together have lost by the player, killing blows included,
/// and each such loss is one of the blows.
pub proof fn every_blow_of_ours_counts(
    w: WatchState,
    now: u64,
    world: World,
    me: u64,
    hp: i32,
    last: u64,
)
    requires
        world.player == Some((me, hp)),
        w.last_poll == Some(last),
        now < last + 400_000_000,
        creatures_differ(world.creatures@),
        shots_differ(world.shots@),
    ensures
        total(after_poll(w, now, world, true).1) == all_lost(
            w,
            now,
            world.shots@,
            me,
            world.creatures@,
        ),
        forall|i: int|
            0 <= i < world.creatures@.len() && lost_to_us(
                w,
                now,
                world.shots@,
                me,
                #[trigger] world.creatures@[i],
            ) > 0 ==> after_poll(w, now, world, true).1.contains(
                lost_to_us(w, now, world.shots@, me, world.creatures@[i]) as u32,
            ),
{
    lemma_looked(w, now, world.shots@, world.creatures@, me, w.frame.wrapping_add(1));
}

/// What the player took is what they lost since the last look, while they were alive; healing
/// counts for nothing, and so does everything after a pause of four tenths of a second.
pub proof fn losses_of_the_player_count(w: WatchState, now: u64, world: World, me: u64, hp: i32)
    requires
        world.player == Some((me, hp)),
    ensures
        ({
            let taken = after_poll(w, now, world, true).2;
            let fresh = w.last_poll is Some && now < w.last_poll.unwrap() + 400_000_000;
            &&& taken >= 0
            &&& (fresh && w.player_hp is Some && w.player_hp.unwrap() > 0 && hp
                <= w.player_hp.unwrap()) ==> taken == w.player_hp.unwrap() - hp
            &&& (!fresh || w.player_hp is None || w.player_hp.unwrap() <= 0 || hp
                >= w.player_hp.unwrap()) ==> taken == 0
            &&& after_poll(w, now, world, true).0.player_hp == Some(hp)
        }),
{
}

/// After a look every creature in the world is remembered with the health it shows, unless it
/// has just died; whoever is not in the world is forgotten. A look that does not count
/// remembers the same and reports nothing.
pub proof fn a_look_remembers_what_it_saw(
    w: WatchState,
    now: u64,
    world: World,
    me: u64,
    hp: i32,
    last: u64,
    h: u64,
)
    requires
        world.player == Some((me, hp)),
        w.last_poll == Some(last),
        now < last + 400_000_000,
        creatures_differ(world.creatures@),
        shots_differ(world.shots@),
        forall|k: u64| #[trigger] w.last_hp.contains_key(k) ==> w.last_hp[k].1 == w.frame && k
            != me,
    ensures
        after_poll(w, now, world, false).0 == after_poll(w, now, world, true).0,
        after_poll(w, now, world, false).1.len() == 0,
        after_poll(w, now, world, false).2 == 0,
        after_poll(w, now, world, true).0.last_poll == Some(now),
        ({
            let seen = after_poll(w, now, world, true).0.last_hp;
            &&& forall|i: int|
                0 <= i < world.creatures@.len() && (#[trigger] world.creatures@[i]).handle == h && h
                    != me ==> {
                    let c = world.creatures@[i];
                    if w.last_hp.contains_key(h) && w.last_hp[h].0 > 0 && c.hp <= 0 {
                        !seen.contains_key(h)
                    } else {
                        seen.contains_key(h) && seen[h].0 == c.hp
                    }
                }
            &&& (forall|i: int|
                0 <= i < world.creatures@.len() ==> (#[trigger] world.creatures@[i]).handle != h)
                ==> !seen.contains_key(h)
        }),
{
    let frame = w.frame.wrapping_add(1);
    assert(frame != w.frame);
    lemma_looked(w, now, world.shots@, world.creatures@, me, frame);
    assert(after_poll(w, now, world, false).0 == after_poll(w, now, world, true).0);
    let seen = looked_at(
        w.last_hp,
        remembered(with_shots(w.bullets, world.shots@, now), now),
        world.creatures@,
        me,
        frame,
    ).0;
    if forall|i: int|
        0 <= i < world.creatures@.len() ==> (#[trigger] world.creatures@[i]).handle != h {
        assert(seen.contains_key(h) == w.last_hp.contains_key(h));
    }
}

/// While the player is not in the world nothing is kept and nothing counts, and after a pause
/// of four tenths of a second nothing of before counts.
pub proof fn a_pause_forgets_everything(w: WatchState, v: WatchState, now: u64, world: World, count: bool)
    requires
        w.last_poll is None || now >= w.last_poll.unwrap() + 400_000_000,
        v.last_poll is None || now >= v.last_poll.unwrap() + 400_000_000,
        v.frame == w.frame,
    ensures
        after_poll(w, now, world, count) == after_poll(v, now, world, count),
        world.player is None ==> after_poll(w, now, world, count).0.last_hp == Map::<
            u64,
            (i32, u64),
        >::empty() && after_poll(w, now, world, count).0.bullets == Map::<u64, (u64, u64)>::empty()
            && after_poll(w, now, world, count).0.player_hp is None && after_poll(
            w,
            now,
            world,
            count,
        ).1.len() == 0 && after_poll(w, now, world, count).2 == 0,
{
}

/// A game that loads, with no player in the world, wipes the memory whenever it happens.
pub proof fn loading_forgets_everything(w: WatchState, now: u64, world: World, count: bool)
    requires
        world.player is None,
    ensures
        after_poll(w, now, world, count).0.last_hp == Map::<u64, (i32, u64)>::empty(),
        after_poll(w, now, world, count).0.bullets == Map::<u64, (u64, u64)>::empty(),
        after_poll(w, now, world, count).0.player_hp is None,
        after_poll(w, now, world, count).1.len() == 0,
        after_poll(w, now, world, count).2 == 0,
{
}

} // verus!
