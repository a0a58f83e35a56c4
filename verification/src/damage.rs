//! Watching the health of everyone in the world: how much damage the player dealt and
//! took since the last look. A blow is the player's until the opposite is proved, and
//! proof is only another creature, named as the attacker or as the owner of the shot.

use std::collections::HashMap;

use vstd::prelude::*;
use vstd::std_specs::iter::IteratorSpec;

verus! {

broadcast use vstd::std_specs::hash::group_hash_axioms;

/// A pause this long between two looks, in nanoseconds, makes the remembered health
/// worthless: the game may have loaded in between.
pub const RESYNC_GAP: u64 = 400_000_000;

/// How long it is remembered whose a shot was after it has left the world, in
/// nanoseconds.
pub const BULLET_MEMORY: u64 = 3_000_000_000;

/// What hit a creature last.
#[derive(Clone, Copy, Debug, PartialEq, Eq, Structural)]
pub enum HitBy {
    /// A creature, by its handle.
    Creature(u64),
    /// A shot, by its handle.
    Shot(u64),
    /// Nobody knows: poison, fire, a fall.
    Other,
}

/// A creature in the world.
#[derive(Clone, Copy, Debug, PartialEq, Eq, Structural)]
pub struct Creature {
    pub handle: u64,
    pub hp: i32,
    pub hit_by: HitBy,
}

/// A shot in the air, with its owner if it has one.
#[derive(Clone, Copy, Debug, PartialEq, Eq, Structural)]
pub struct Shot {
    pub handle: u64,
    pub owner: Option<u64>,
}

/// What the game shows of the world at a look. The player is missing while the game
/// loads.
pub struct World {
    pub player: Option<(u64, i32)>,
    pub shots: Vec<Shot>,
    pub creatures: Vec<Creature>,
}

/// Damage since the last look: the single blows dealt, and what was taken.
pub struct Damage {
    pub dealt: Vec<u32>,
    pub taken: u32,
}

/// What is remembered between two looks.
pub struct DamageWatch {
    /// The health of a creature, and the look at which it was seen.
    pub last_hp: HashMap<u64, (i32, u64)>,
    /// The owner of a shot, and when it was last seen.
    pub bullets: HashMap<u64, (u64, u64)>,
    pub player_hp: Option<i32>,
    pub frame: u64,
    pub last_poll: Option<u64>,
}

/// The same, by its maps.
pub struct WatchState {
    pub last_hp: Map<u64, (i32, u64)>,
    pub bullets: Map<u64, (u64, u64)>,
    pub player_hp: Option<i32>,
    pub frame: u64,
    pub last_poll: Option<u64>,
}

impl DamageWatch {
    pub open spec fn state(self) -> WatchState {
        WatchState {
            last_hp: self.last_hp@,
            bullets: self.bullets@,
            player_hp: self.player_hp,
            frame: self.frame,
            last_poll: self.last_poll,
        }
    }
}

/// What was remembered is out of date.
pub open spec fn poll_is_stale(last: Option<u64>, now: u64) -> bool {
    last is None || now >= last.unwrap() + RESYNC_GAP
}

/// What the player lost since the last look. More health is healing and counts for
/// nothing, and so does everything after death.
pub open spec fn player_loss(before: Option<i32>, hp: i32) -> int {
    match before {
        Some(prev) => if prev > 0 && hp < prev {
            prev - hp
        } else {
            0
        },
        None => 0,
    }
}

/// The owners of shots after seeing some in the air at `now`.
pub open spec fn with_shots(
    m: Map<u64, (u64, u64)>,
    shots: Seq<Shot>,
    now: u64,
) -> Map<u64, (u64, u64)>
    decreases shots.len(),
{
    if shots.len() == 0 {
        m
    } else {
        let before: Map<u64, (u64, u64)> = with_shots(m, shots.drop_last(), now);
        match shots.last().owner {
            Some(o) => before.insert(shots.last().handle, (o, now)),
            None => before,
        }
    }
}

/// A shot that was seen recently enough.
pub open spec fn is_recent(seen: u64, now: u64) -> bool {
    now < seen + BULLET_MEMORY
}

/// The owners of the shots that are still remembered at `now`.
pub open spec fn remembered(m: Map<u64, (u64, u64)>, now: u64) -> Map<u64, (u64, u64)> {
    Map::new(|h: u64| m.contains_key(h) && is_recent(m[h].1, now), |h: u64| m[h])
}

/// The creature behind a blow, where it is known.
pub open spec fn attacker(bullets: Map<u64, (u64, u64)>, by: HitBy) -> Option<u64> {
    match by {
        HitBy::Creature(h) => Some(h),
        HitBy::Shot(b) => if bullets.contains_key(b) {
            Some(bullets[b].0)
        } else {
            None
        },
        HitBy::Other => None,
    }
}

/// What looking at some creatures does: the health that is remembered, and the blows
/// that count. A creature that died is forgotten at once, before its handle goes to
/// another; the blow that killed it still counts.
pub open spec fn looked_at(
    m: Map<u64, (i32, u64)>,
    bullets: Map<u64, (u64, u64)>,
    creatures: Seq<Creature>,
    me: u64,
    frame: u64,
) -> (Map<u64, (i32, u64)>, Seq<u32>)
    decreases creatures.len(),
{
    if creatures.len() == 0 {
        (m, Seq::empty())
    } else {
        let (before, hits) = looked_at(m, bullets, creatures.drop_last(), me, frame);
        let c: Creature = creatures.last();
        if c.handle == me {
            (before, hits)
        } else if !before.contains_key(c.handle) {
            (before.insert(c.handle, (c.hp, frame)), hits)
        } else {
            let prev: i32 = before[c.handle].0;
            let someone_else: bool = match attacker(bullets, c.hit_by) {
                Some(who) => who != me,
                None => false,
            };
            (
                if c.hp <= 0 && prev > 0 {
                    before.remove(c.handle)
                } else {
                    before.insert(c.handle, (c.hp, frame))
                },
                if c.hp < prev && !someone_else {
                    hits.push((prev - c.hp) as u32)
                } else {
                    hits
                },
            )
        }
    }
}

/// The creatures that were seen at this look.
pub open spec fn seen_now(m: Map<u64, (i32, u64)>, frame: u64) -> Map<u64, (i32, u64)> {
    Map::new(|h: u64| m.contains_key(h) && m[h].1 == frame, |h: u64| m[h])
}

/// One look: what is remembered after it, the blows dealt and the damage taken.
pub open spec fn after_poll(w: WatchState, now: u64, world: World, count: bool) -> (
    WatchState,
    Seq<u32>,
    int,
) {
    let stale: bool = poll_is_stale(w.last_poll, now);
    let last_hp: Map<u64, (i32, u64)> = if stale {
        Map::empty()
    } else {
        w.last_hp
    };
    let bullets: Map<u64, (u64, u64)> = if stale {
        Map::empty()
    } else {
        w.bullets
    };
    let player_hp: Option<i32> = if stale {
        None
    } else {
        w.player_hp
    };
    let frame: u64 = w.frame.wrapping_add(1);
    match world.player {
        None => (
            WatchState {
                last_hp: Map::empty(),
                bullets: Map::empty(),
                player_hp: None,
                frame,
                last_poll: Some(now),
            },
            Seq::empty(),
            0,
        ),
        Some((me, hp)) => {
            let flying: Map<u64, (u64, u64)> = remembered(
                with_shots(bullets, world.shots@, now),
                now,
            );
            let (seen, hits) = looked_at(last_hp, flying, world.creatures@, me, frame);
            (
                WatchState {
                    last_hp: seen_now(seen, frame),
                    bullets: flying,
                    player_hp: Some(hp),
                    frame,
                    last_poll: Some(now),
                },
                if count {
                    hits
                } else {
                    Seq::empty()
                },
                if count {
                    player_loss(player_hp, hp)
                } else {
                    0
                },
            )
        },
    }
}

fn keep_recent(m: &HashMap<u64, (u64, u64)>, now: u64) -> (r: HashMap<u64, (u64, u64)>)
    ensures
        r@ == remembered(m@, now),
{
    let mut r: HashMap<u64, (u64, u64)> = HashMap::new();
    for (h, v) in it: m.iter()
        invariant
            it.seq() == vstd::std_specs::hash::spec_hash_map_iter(m).remaining(),
            forall|k: u64| #[trigger]
                r@.contains_key(k) <==> exists|i: int|
                    0 <= i < it.index() && *(#[trigger] it.seq()[i]).0 == k && is_recent(
                        it.seq()[i].1.1,
                        now,
                    ),
            forall|k: u64| #[trigger] r@.contains_key(k) ==> m@.contains_key(k) && r@[k] == m@[k],
    {
        let ghost n = it.index();
        let ghost before = r@;
        assert(it.seq()[n] == (h, v));
        assert(m@.contains_key(*h) && m@[*h] == *v) by {
            let s = vstd::std_specs::hash::spec_hash_map_iter(m).remaining();
            assert(m@.contains_key(*s[n].0));
            assert(m@[*s[n].0] == *s[n].1);
        }
        if now < v.1 || now - v.1 < BULLET_MEMORY {
            r.insert(*h, *v);
        }
        proof {
            assert forall|k: u64| #[trigger] r@.contains_key(k) <==> exists|i: int|
                0 <= i < n + 1 && *(#[trigger] it.seq()[i]).0 == k && is_recent(
                    it.seq()[i].1.1,
                    now,
                ) by {
                if before.contains_key(k) {
                    let i = choose|i: int|
                        0 <= i < n && *(#[trigger] it.seq()[i]).0 == k && is_recent(
                            it.seq()[i].1.1,
                            now,
                        );
                    assert(0 <= i < n + 1);
                }
                if k == *h && is_recent(v.1, now) {
                    assert(*it.seq()[n].0 == k);
                }
            }
        }
    }
    proof {
        let s = vstd::std_specs::hash::spec_hash_map_iter(m).remaining();
        assert forall|k: u64| r@.contains_key(k) <==> remembered(m@, now).contains_key(k) by {
            if r@.contains_key(k) {
                let i = choose|i: int|
                    0 <= i < s.len() && *(#[trigger] s[i]).0 == k && is_recent(s[i].1.1, now);
                assert(m@.contains_key(*s[i].0));
                assert(m@[*s[i].0] == *s[i].1);
            }
            if m@.contains_key(k) && is_recent(m@[k].1, now) {
                assert(s.contains((&k, &m@[k])));
                let i = choose|i: int| 0 <= i < s.len() && s[i] == (&k, &m@[k]);
                assert(*s[i].0 == k);
            }
        }
        assert(r@ =~= remembered(m@, now));
    }
    r
}

fn keep_seen(m: &HashMap<u64, (i32, u64)>, frame: u64) -> (r: HashMap<u64, (i32, u64)>)
    ensures
        r@ == seen_now(m@, frame),
{
    let mut r: HashMap<u64, (i32, u64)> = HashMap::new();
    for (h, v) in it: m.iter()
        invariant
            it.seq() == vstd::std_specs::hash::spec_hash_map_iter(m).remaining(),
            forall|k: u64| #[trigger]
                r@.contains_key(k) <==> exists|i: int|
                    0 <= i < it.index() && *(#[trigger] it.seq()[i]).0 == k && it.seq()[i].1.1
                        == frame,
            forall|k: u64| #[trigger] r@.contains_key(k) ==> m@.contains_key(k) && r@[k] == m@[k],
    {
        let ghost n = it.index();
        let ghost before = r@;
        assert(it.seq()[n] == (h, v));
        assert(m@.contains_key(*h) && m@[*h] == *v) by {
            let s = vstd::std_specs::hash::spec_hash_map_iter(m).remaining();
            assert(m@.contains_key(*s[n].0));
            assert(m@[*s[n].0] == *s[n].1);
        }
        if v.1 == frame {
            r.insert(*h, *v);
        }
        proof {
            assert forall|k: u64| #[trigger] r@.contains_key(k) <==> exists|i: int|
                0 <= i < n + 1 && *(#[trigger] it.seq()[i]).0 == k && it.seq()[i].1.1
                    == frame by {
                if before.contains_key(k) {
                    let i = choose|i: int|
                        0 <= i < n && *(#[trigger] it.seq()[i]).0 == k && it.seq()[i].1.1
                            == frame;
                    assert(0 <= i < n + 1);
                }
                if k == *h && v.1 == frame {
                    assert(*it.seq()[n].0 == k);
                }
            }
        }
    }
    proof {
        let s = vstd::std_specs::hash::spec_hash_map_iter(m).remaining();
        assert forall|k: u64| r@.contains_key(k) <==> seen_now(m@, frame).contains_key(k) by {
            if r@.contains_key(k) {
                let i = choose|i: int|
                    0 <= i < s.len() && *(#[trigger] s[i]).0 == k && s[i].1.1 == frame;
                assert(m@.contains_key(*s[i].0));
                assert(m@[*s[i].0] == *s[i].1);
            }
            if m@.contains_key(k) && m@[k].1 == frame {
                assert(s.contains((&k, &m@[k])));
                let i = choose|i: int| 0 <= i < s.len() && s[i] == (&k, &m@[k]);
                assert(*s[i].0 == k);
            }
        }
        assert(r@ =~= seen_now(m@, frame));
    }
    r
}

impl DamageWatch {
    /// Nothing is remembered.
    pub fn new() -> (r: DamageWatch)
        ensures
            r.state() == (WatchState {
                last_hp: Map::empty(),
                bullets: Map::empty(),
                player_hp: None,
                frame: 0,
                last_poll: None,
            }),
    {
        DamageWatch {
            last_hp: HashMap::new(),
            bullets: HashMap::new(),
            player_hp: None,
            frame: 0,
            last_poll: None,
        }
    }

    fn look(&mut self, creatures: &Vec<Creature>, me: u64) -> (hits: Vec<u32>)
        ensures
            (final(self).last_hp@, hits@) == looked_at(
                old(self).last_hp@,
                old(self).bullets@,
                creatures@,
                me,
                old(self).frame,
            ),
            final(self).bullets@ == old(self).bullets@,
            final(self).player_hp == old(self).player_hp,
            final(self).frame == old(self).frame,
            final(self).last_poll == old(self).last_poll,
    {
        let mut hits: Vec<u32> = Vec::new();
        for i in 0..creatures.len()
            invariant
                (self.last_hp@, hits@) == looked_at(
                    old(self).last_hp@,
                    old(self).bullets@,
                    creatures@.take(i as int),
                    me,
                    old(self).frame,
                ),
                self.bullets@ == old(self).bullets@,
                self.player_hp == old(self).player_hp,
                self.frame == old(self).frame,
                self.last_poll == old(self).last_poll,
        {
            let c: Creature = creatures[i];
            proof {
                assert(creatures@.take(i + 1).drop_last() == creatures@.take(i as int));
                assert(creatures@.take(i + 1).last() == c);
            }
            if c.handle != me {
                let prev: Option<i32> = match self.last_hp.get(&c.handle) {
                    Some(v) => Some(v.0),
                    None => None,
                };
                match prev {
                    None => {
                        self.last_hp.insert(c.handle, (c.hp, self.frame));
                    },
                    Some(prev) => {
                        if c.hp <= 0 && prev > 0 {
                            self.last_hp.remove(&c.handle);
                        } else {
                            self.last_hp.insert(c.handle, (c.hp, self.frame));
                        }
                        let who: Option<u64> = match c.hit_by {
                            HitBy::Creature(h) => Some(h),
                            HitBy::Shot(b) => match self.bullets.get(&b) {
                                Some(o) => Some(o.0),
                                None => None,
                            },
                            HitBy::Other => None,
                        };
                        let someone_else: bool = match who {
                            Some(h) => h != me,
                            None => false,
                        };
                        if c.hp < prev && !someone_else {
                            hits.push((prev as i64 - c.hp as i64) as u32);
                        }
                    },
                }
            }
        }
        assert(creatures@.take(creatures@.len() as int) == creatures@);
        hits
    }

    fn note_shots(&mut self, shots: &Vec<Shot>, now: u64)
        ensures
            final(self).state() == (WatchState {
                bullets: remembered(with_shots(old(self).bullets@, shots@, now), now),
                ..old(self).state()
            }),
    {
        for i in 0..shots.len()
            invariant
                self.state() == (WatchState {
                    bullets: with_shots(old(self).bullets@, shots@.take(i as int), now),
                    ..old(self).state()
                }),
        {
            proof {
                assert(shots@.take(i + 1).drop_last() == shots@.take(i as int));
            }
            match shots[i].owner {
                Some(o) => {
                    self.bullets.insert(shots[i].handle, (o, now));
                },
                None => {},
            }
        }
        assert(shots@.take(shots@.len() as int) == shots@);
        let kept: HashMap<u64, (u64, u64)> = keep_recent(&self.bullets, now);
        self.bullets = kept;
    }

    /// Looks at the world: the damage that the player dealt and took since the last look.
    /// Everything that changes health counts, poison and falls included. With
    /// `count = false` everything is noted but nothing counts: in menus the world is
    /// reset, and that would read as blows.
    pub fn poll(&mut self, now: u64, world: &World, count: bool) -> (r: Damage)
        ensures
            (final(self).state(), r.dealt@, r.taken as int) == after_poll(
                old(self).state(),
                now,
                *world,
                count,
            ),
    {
        let stale: bool = match self.last_poll {
            Some(t) => now >= t && now - t >= RESYNC_GAP,
            None => true,
        };
        self.last_poll = Some(now);
        if stale {
            self.last_hp = HashMap::new();
            self.bullets = HashMap::new();
            self.player_hp = None;
        }
        self.frame = self.frame.wrapping_add(1);
        match world.player {
            None => {
                self.last_hp = HashMap::new();
                self.bullets = HashMap::new();
                self.player_hp = None;
                Damage { dealt: Vec::new(), taken: 0 }
            },
            Some((me, hp)) => {
                let taken: u32 = match self.player_hp {
                    Some(prev) => if prev > 0 && hp < prev {
                        (prev as i64 - hp as i64) as u32
                    } else {
                        0
                    },
                    None => 0,
                };
                self.player_hp = Some(hp);
                self.note_shots(&world.shots, now);
                let dealt: Vec<u32> = self.look(&world.creatures, me);
                let kept: HashMap<u64, (i32, u64)> = keep_seen(&self.last_hp, self.frame);
                self.last_hp = kept;
                if count {
                    Damage { dealt, taken }
                } else {
                    Damage { dealt: Vec::new(), taken: 0 }
                }
            },
        }
    }
}

/// The first look counts nothing: there is nothing to compare with.
pub proof fn the_first_look_counts_nothing(w: WatchState, now: u64, world: World, count: bool)
    requires
        poll_is_stale(w.last_poll, now),
        forall|i: int, j: int|
            0 <= i < j < world.creatures@.len() ==> (#[trigger] world.creatures@[i]).handle != (
            #[trigger] world.creatures@[j]).handle,
    ensures
        after_poll(w, now, world, count).1.len() == 0,
        after_poll(w, now, world, count).2 == 0,
{
    match world.player {
        Some((me, hp)) => {
            let flying = remembered(with_shots(Map::empty(), world.shots@, now), now);
            lemma_new_creatures(
                flying,
                world.creatures@,
                me,
                w.frame.wrapping_add(1),
            );
        },
        None => {},
    }
}

proof fn lemma_new_creatures(
    bullets: Map<u64, (u64, u64)>,
    creatures: Seq<Creature>,
    me: u64,
    frame: u64,
)
    requires
        forall|i: int, j: int|
            0 <= i < j < creatures.len() ==> (#[trigger] creatures[i]).handle != (
            #[trigger] creatures[j]).handle,
    ensures
        looked_at(Map::empty(), bullets, creatures, me, frame).1.len() == 0,
        forall|h: u64| #[trigger]
            looked_at(Map::empty(), bullets, creatures, me, frame).0.contains_key(h)
                ==> exists|i: int| 0 <= i < creatures.len() && (#[trigger] creatures[i]).handle
                == h,
    decreases creatures.len(),
{
    if creatures.len() > 0 {
        let front = creatures.drop_last();
        assert forall|i: int, j: int| 0 <= i < j < front.len() implies (
        #[trigger] front[i]).handle != (#[trigger] front[j]).handle by {
            assert(front[i] == creatures[i] && front[j] == creatures[j]);
        }
        lemma_new_creatures(bullets, front, me, frame);
        let c = creatures.last();
        let before = looked_at(Map::empty(), bullets, front, me, frame).0;
        if before.contains_key(c.handle) {
            let i = choose|i: int| 0 <= i < front.len() && (#[trigger] front[i]).handle == c.handle;
            assert(creatures[i].handle != creatures[creatures.len() - 1].handle);
        }
        let after = looked_at(Map::empty(), bullets, creatures, me, frame).0;
        assert forall|h: u64| #[trigger] after.contains_key(h) implies exists|i: int|
            0 <= i < creatures.len() && (#[trigger] creatures[i]).handle == h by {
            if before.contains_key(h) {
                let i = choose|i: int| 0 <= i < front.len() && (#[trigger] front[i]).handle == h;
                assert(creatures[i].handle == h);
            } else {
                assert(creatures[creatures.len() - 1].handle == h);
            }
        }
    }
}

/// Only what is in the world is remembered: whoever was not met at a look is forgotten,
/// so that nobody who comes back later seems to have lost health.
pub proof fn only_the_living_world_is_remembered(
    w: WatchState,
    now: u64,
    world: World,
    count: bool,
    h: u64,
)
    requires
        after_poll(w, now, world, count).0.last_hp.contains_key(h),
        forall|k: u64| #[trigger] w.last_hp.contains_key(k) ==> w.last_hp[k].1 == w.frame,
    ensures
        exists|i: int|
            0 <= i < world.creatures@.len() && (#[trigger] world.creatures@[i]).handle == h,
{
    let frame = w.frame.wrapping_add(1);
    let last = if poll_is_stale(w.last_poll, now) {
        Map::empty()
    } else {
        w.last_hp
    };
    let bullets = if poll_is_stale(w.last_poll, now) {
        Map::empty()
    } else {
        w.bullets
    };
    match world.player {
        Some((me, hp)) => {
            let flying = remembered(with_shots(bullets, world.shots@, now), now);
            assert(forall|k: u64| #[trigger] last.contains_key(k) ==> last[k].1 != frame);
            lemma_seen(last, flying, world.creatures@, me, frame, h);
        },
        None => {},
    }
}

proof fn lemma_seen(
    m: Map<u64, (i32, u64)>,
    bullets: Map<u64, (u64, u64)>,
    creatures: Seq<Creature>,
    me: u64,
    frame: u64,
    h: u64,
)
    requires
        forall|k: u64| #[trigger] m.contains_key(k) ==> m[k].1 != frame,
        seen_now(looked_at(m, bullets, creatures, me, frame).0, frame).contains_key(h),
    ensures
        exists|i: int| 0 <= i < creatures.len() && (#[trigger] creatures[i]).handle == h,
    decreases creatures.len(),
{
    if creatures.len() > 0 {
        let front = creatures.drop_last();
        let before = looked_at(m, bullets, front, me, frame).0;
        if creatures.last().handle == h {
            assert(creatures[creatures.len() - 1].handle == h);
        } else {
            assert(seen_now(before, frame).contains_key(h));
            lemma_seen(m, bullets, front, me, frame, h);
            let i = choose|i: int| 0 <= i < front.len() && (#[trigger] front[i]).handle == h;
            assert(creatures[i].handle == h);
        }
    }
}

} // verus!
