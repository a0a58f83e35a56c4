//! Which enemies get a label, and where. The host reads what the game shows and turns
//! places in the world and in the interface into pixels; who is labeled, and how far a
//! label is kept from the edges, is decided here.

use std::collections::HashSet;

use vstd::prelude::*;
use crate::scalar::Scalar;

verus! {

broadcast use vstd::std_specs::hash::group_hash_axioms;

/// The encoding of 1.5: a tag that was not updated for so many seconds is not shown.
pub const TAG_FADES: u32 = 0x3FC0_0000;

/// The encodings of 131.5 and 1788.5: how far to the left and to the right the middle of
/// a health bar can stand, in a width of 1920. The bar is 141 wide and the game keeps it
/// 61 from the edge.
pub const BAR_LEFT: u32 = 0x4303_8000;

pub const BAR_RIGHT: u32 = 0x44DF_9000;

/// The encodings of 174 and 1019: how high and how low a health bar can stand, in a height
/// of 1080.
pub const BAR_TOP: u32 = 0x432E_0000;

pub const BAR_BOTTOM: u32 = 0x447E_C000;

/// How often the rows with a name of their own are looked for while the game has not
/// loaded them, in nanoseconds.
pub const NAMED_RETRY: u64 = 500_000_000;

/// A place on the screen or in the interface.
#[derive(Clone, Copy, Debug, PartialEq, Eq, Structural)]
pub struct Spot {
    pub x: Scalar,
    pub y: Scalar,
}

/// A tag of the game over an enemy.
#[derive(Clone, Copy, Debug, PartialEq, Eq, Structural)]
pub struct TagSlot {
    /// The enemy, if the slot is taken.
    pub handle: Option<u64>,
    pub visible: bool,
    /// How long ago it was updated, in seconds.
    pub age: Scalar,
    pub at: Spot,
    /// The game draws a name of its own over this enemy.
    pub own_name: bool,
}

/// A health bar as the game really draws it.
#[derive(Clone, Copy, Debug, PartialEq, Eq, Structural)]
pub struct DrawnBar {
    pub handle: Option<u64>,
    pub visible: bool,
    pub at: Spot,
}

/// A label over an enemy.
#[derive(Clone, Copy, Debug, PartialEq, Eq, Structural)]
pub struct Tag {
    pub handle: u64,
    pub at: Spot,
}

/// A creature that was bought: its health, and where its head is on the screen, if that is
/// before the camera at all.
#[derive(Clone, Copy, Debug, PartialEq, Eq, Structural)]
pub struct Sight {
    pub hp: i32,
    pub at: Option<Spot>,
}

/// The game shows this tag.
pub open spec fn slot_shows(t: TagSlot) -> bool {
    t.visible && t.age.at_most(Scalar { bits: TAG_FADES }) && t.handle is Some
}

/// Some tag is shown.
pub open spec fn any_shows(ts: Seq<TagSlot>) -> bool {
    exists|i: int| 0 <= i < ts.len() && slot_shows(#[trigger] ts[i])
}

/// This tag gets a label: one that was bought always, a boss never, because his name
/// stands elsewhere, and nobody over whom the game draws a name itself.
pub open spec fn labeled(t: TagSlot, always: Seq<u64>, bosses: Seq<u64>) -> bool {
    slot_shows(t) && (always.contains(t.handle.unwrap()) || (!bosses.contains(t.handle.unwrap())
        && !t.own_name))
}

/// Where the game draws the bar of an enemy, by the first bar of theirs.
pub open spec fn bar_at(drawn: Seq<DrawnBar>, handle: u64) -> Option<Spot>
    decreases drawn.len(),
{
    if drawn.len() == 0 {
        None
    } else if drawn[0].visible && drawn[0].handle == Some(handle) {
        Some(drawn[0].at)
    } else {
        bar_at(drawn.skip(1), handle)
    }
}

/// A place kept from the edges as the game keeps its bars.
pub open spec fn kept_in(p: Spot) -> Spot {
    Spot {
        x: p.x.bounded(Scalar { bits: BAR_LEFT }, Scalar { bits: BAR_RIGHT }),
        y: p.y.bounded(Scalar { bits: BAR_TOP }, Scalar { bits: BAR_BOTTOM }),
    }
}

/// The label of a tag, where the bar is drawn or else where the tag stands.
pub open spec fn label_of(t: TagSlot, drawn: Seq<DrawnBar>) -> Tag {
    Tag {
        handle: t.handle.unwrap(),
        at: kept_in(
            match bar_at(drawn, t.handle.unwrap()) {
                Some(p) => p,
                None => t.at,
            },
        ),
    }
}

/// The labels of some tags.
pub open spec fn labels(
    ts: Seq<TagSlot>,
    drawn: Seq<DrawnBar>,
    always: Seq<u64>,
    bosses: Seq<u64>,
) -> Seq<Tag>
    decreases ts.len(),
{
    if ts.len() == 0 {
        Seq::empty()
    } else {
        let before: Seq<Tag> = labels(ts.drop_last(), drawn, always, bosses);
        if labeled(ts.last(), always, bosses) {
            before.push(label_of(ts.last(), drawn))
        } else {
            before
        }
    }
}

/// The labels over enemies that the game shows.
pub open spec fn native_labels(
    ts: Seq<TagSlot>,
    drawn: Seq<DrawnBar>,
    always: Seq<u64>,
    bosses: Seq<u64>,
    mobs: bool,
) -> Seq<Tag> {
    if mobs && any_shows(ts) {
        labels(ts, drawn, always, bosses)
    } else {
        Seq::empty()
    }
}

/// The game draws a name of its own over a creature with this row.
pub open spec fn draws_name(named: Set<u32>, npc: Option<i32>) -> bool {
    npc is Some && npc.unwrap() >= 0 && named.contains(npc.unwrap() as u32)
}

/// It is time to look for the named rows.
pub open spec fn looks_again(last: Option<u64>, now: u64) -> bool {
    last is None || now >= last.unwrap() + NAMED_RETRY
}

fn contains(v: &Vec<u64>, h: u64) -> (r: bool)
    ensures
        r == v@.contains(h),
{
    for i in 0..v.len()
        invariant
            forall|j: int| 0 <= j < i ==> v@[j] != h,
    {
        if v[i] == h {
            return true;
        }
    }
    false
}

fn shows(t: &TagSlot) -> (r: bool)
    ensures
        r == slot_shows(*t),
{
    t.visible && t.age.le(Scalar { bits: TAG_FADES }) && t.handle.is_some()
}

fn at_bar(drawn: &Vec<DrawnBar>, handle: u64) -> (r: Option<Spot>)
    ensures
        r == bar_at(drawn@, handle),
{
    assert(drawn@.skip(0) == drawn@);
    for i in 0..drawn.len()
        invariant
            bar_at(drawn@, handle) == bar_at(drawn@.skip(i as int), handle),
    {
        assert(drawn@.skip(i as int)[0] == drawn@[i as int]);
        assert(drawn@.skip(i as int).skip(1) == drawn@.skip(i + 1));
        let hit: bool = match drawn[i].handle {
            Some(h) => h == handle,
            None => false,
        };
        if drawn[i].visible && hit {
            return Some(drawn[i].at);
        }
    }
    None
}

/// The labels over enemies that the game shows, in units of the game's interface. `always`
/// are the enemies that viewers bought: over them the buyer's name stands whatever the
/// rules say. Without `mobs` nobody whom the game shows gets one.
pub fn native_tags(
    slots: &Vec<TagSlot>,
    drawn: &Vec<DrawnBar>,
    always: &Vec<u64>,
    bosses: &Vec<u64>,
    mobs: bool,
) -> (r: Vec<Tag>)
    ensures
        r@ == native_labels(slots@, drawn@, always@, bosses@, mobs),
{
    let mut r: Vec<Tag> = Vec::new();
    if !mobs {
        return r;
    }
    for i in 0..slots.len()
        invariant
            r@ == labels(slots@.take(i as int), drawn@, always@, bosses@),
    {
        let t: &TagSlot = &slots[i];
        proof {
            assert(slots@.take(i + 1).drop_last() == slots@.take(i as int));
            assert(slots@.take(i + 1).last() == *t);
        }
        match t.handle {
            Some(h) => {
                if shows(t) && (contains(always, h) || (!contains(bosses, h) && !t.own_name)) {
                    let p: Spot = match at_bar(drawn, h) {
                        Some(p) => p,
                        None => t.at,
                    };
                    r.push(
                        Tag {
                            handle: h,
                            at: Spot {
                                x: p.x.clamp(
                                    Scalar { bits: BAR_LEFT },
                                    Scalar { bits: BAR_RIGHT },
                                ),
                                y: p.y.clamp(
                                    Scalar { bits: BAR_TOP },
                                    Scalar { bits: BAR_BOTTOM },
                                ),
                            },
                        },
                    );
                }
            },
            None => {},
        }
    }
    assert(slots@.take(slots@.len() as int) == slots@);
    proof {
        if !any_shows(slots@) {
            lemma_no_labels(slots@, drawn@, always@, bosses@);
        }
    }
    r
}

proof fn lemma_no_labels(
    ts: Seq<TagSlot>,
    drawn: Seq<DrawnBar>,
    always: Seq<u64>,
    bosses: Seq<u64>,
)
    requires
        !any_shows(ts),
    ensures
        labels(ts, drawn, always, bosses) == Seq::<Tag>::empty(),
    decreases ts.len(),
{
    if ts.len() > 0 {
        let front = ts.drop_last();
        assert(!slot_shows(ts[ts.len() - 1]));
        assert forall|i: int| 0 <= i < front.len() implies !slot_shows(#[trigger] front[i]) by {
            assert(front[i] == ts[i]);
        }
        lemma_no_labels(front, drawn, always, bosses);
    }
}

/// Whether one of the labels is over the enemy.
pub open spec fn has_label(tags: Seq<Tag>, h: u64) -> bool {
    exists|i: int| 0 <= i < tags.len() && (#[trigger] tags[i]).handle == h
}

/// A bought creature is seen: it lives, and its head is within the screen. A corpse is not
/// labeled, and nobody is labeled at the edge of the screen who is beyond it.
pub open spec fn in_sight(s: Option<Sight>, screen: Spot) -> Option<Spot> {
    match s {
        Some(s) => if s.hp <= 0 {
            None
        } else {
            match s.at {
                Some(p) => if p.x.below(Scalar { bits: 0 }) || screen.x.below(p.x) || p.y.below(
                    Scalar { bits: 0 },
                ) || screen.y.below(p.y) {
                    None
                } else {
                    Some(p)
                },
                None => None,
            }
        },
        None => None,
    }
}

/// The labels for bought creatures over whom there is none yet.
pub open spec fn with_bought(
    tags: Seq<Tag>,
    always: Seq<u64>,
    sights: Seq<Option<Sight>>,
    screen: Spot,
) -> Seq<Tag>
    decreases always.len(),
{
    if always.len() == 0 {
        Seq::empty()
    } else {
        let before: Seq<Tag> = with_bought(tags, always.drop_last(), sights.drop_last(), screen);
        let h: u64 = always.last();
        match in_sight(sights.last(), screen) {
            Some(p) => if has_label(tags, h) || has_label(before, h) {
                before
            } else {
                before.push(Tag { handle: h, at: p })
            },
            None => before,
        }
    }
}

fn labels_over(tags: &Vec<Tag>, h: u64) -> (r: bool)
    ensures
        r == has_label(tags@, h),
{
    for i in 0..tags.len()
        invariant
            forall|j: int| 0 <= j < i ==> (#[trigger] tags@[j]).handle != h,
    {
        if tags[i].handle == h {
            return true;
        }
    }
    false
}

/// The labels for bought creatures to whom the game gave no tag, in pixels: the game makes
/// tags only for aiming and fresh damage, and what was paid for has to be shown. `sights`
/// is what the host sees of each.
pub fn bought_tags(
    tags: &Vec<Tag>,
    always: &Vec<u64>,
    sights: &Vec<Option<Sight>>,
    screen: Spot,
) -> (r: Vec<Tag>)
    requires
        sights.len() == always.len(),
    ensures
        r@ == with_bought(tags@, always@, sights@, screen),
{
    let mut r: Vec<Tag> = Vec::new();
    for i in 0..always.len()
        invariant
            sights.len() == always.len(),
            r@ == with_bought(tags@, always@.take(i as int), sights@.take(i as int), screen),
    {
        proof {
            assert(always@.take(i + 1).drop_last() == always@.take(i as int));
            assert(sights@.take(i + 1).drop_last() == sights@.take(i as int));
        }
        match sights[i] {
            Some(s) => {
                match s.at {
                    Some(p) => {
                        let outside: bool = p.x.lt(Scalar { bits: 0 }) || screen.x.lt(p.x)
                            || p.y.lt(Scalar { bits: 0 }) || screen.y.lt(p.y);
                        if s.hp > 0 && !outside && !labels_over(tags, always[i]) && !labels_over(
                            &r,
                            always[i],
                        ) {
                            r.push(Tag { handle: always[i], at: p });
                        }
                    },
                    None => {},
                }
            },
            None => {},
        }
    }
    assert(always@.take(always@.len() as int) == always@);
    assert(sights@.take(sights@.len() as int) == sights@);
    r
}

/// The handles of a list of slots, each once, in order.
pub open spec fn each_once(hs: Seq<Option<u64>>) -> Seq<u64>
    decreases hs.len(),
{
    if hs.len() == 0 {
        Seq::empty()
    } else {
        let before: Seq<u64> = each_once(hs.drop_last());
        match hs.last() {
            Some(h) => if before.contains(h) {
                before
            } else {
                before.push(h)
            },
            None => before,
        }
    }
}

/// The bosses to label, each once: one boss in two entries would get two labels in one
/// place.
pub fn boss_tags(slots: &Vec<Option<u64>>) -> (r: Vec<u64>)
    ensures
        r@ == each_once(slots@),
{
    let mut r: Vec<u64> = Vec::new();
    for i in 0..slots.len()
        invariant
            r@ == each_once(slots@.take(i as int)),
    {
        assert(slots@.take(i + 1).drop_last() == slots@.take(i as int));
        match slots[i] {
            Some(h) => {
                if !contains(&r, h) {
                    r.push(h);
                }
            },
            None => {},
        }
    }
    assert(slots@.take(slots@.len() as int) == slots@);
    r
}

/// Bought creatures are labeled once at most, and never where the game labels them.
pub proof fn bought_labels_never_repeat(
    tags: Seq<Tag>,
    always: Seq<u64>,
    sights: Seq<Option<Sight>>,
    screen: Spot,
)
    requires
        sights.len() == always.len(),
    ensures
        forall|i: int|
            0 <= i < with_bought(tags, always, sights, screen).len() ==> !has_label(
                tags,
                (#[trigger] with_bought(tags, always, sights, screen)[i]).handle,
            ),
        forall|i: int, j: int|
            0 <= i < j < with_bought(tags, always, sights, screen).len() ==> (
            #[trigger] with_bought(tags, always, sights, screen)[i]).handle != (
            #[trigger] with_bought(tags, always, sights, screen)[j]).handle,
    decreases always.len(),
{
    if always.len() > 0 {
        bought_labels_never_repeat(tags, always.drop_last(), sights.drop_last(), screen);
        let before = with_bought(tags, always.drop_last(), sights.drop_last(), screen);
        let out = with_bought(tags, always, sights, screen);
        assert forall|i: int, j: int| 0 <= i < j < out.len() implies (#[trigger] out[i]).handle != (
        #[trigger] out[j]).handle by {
            assert(out[i] == before[i]);
            if j < before.len() {
                assert(out[j] == before[j]);
            }
        }
        assert forall|i: int| 0 <= i < out.len() implies !has_label(
            tags,
            (#[trigger] out[i]).handle,
        ) by {
            if i < before.len() {
                assert(out[i] == before[i]);
            }
        }
    }
}

/// The rows of the game's table of creatures that have a name of their own.
pub fn named_rows(rows: &Vec<(u32, i32)>) -> (r: HashSet<u32>)
    ensures
        forall|id: u32| #[trigger]
            r@.contains(id) <==> exists|i: int|
                0 <= i < rows@.len() && (#[trigger] rows@[i]).0 == id && rows@[i].1 > 0,
{
    let mut r: HashSet<u32> = HashSet::new();
    for i in 0..rows.len()
        invariant
            forall|id: u32| #[trigger]
                r@.contains(id) <==> exists|j: int|
                    0 <= j < i && (#[trigger] rows@[j]).0 == id && rows@[j].1 > 0,
    {
        let ghost before = r@;
        if rows[i].1 > 0 {
            r.insert(rows[i].0);
        }
        proof {
            assert forall|id: u32| #[trigger] r@.contains(id) <==> exists|j: int|
                0 <= j < i + 1 && (#[trigger] rows@[j]).0 == id && rows@[j].1 > 0 by {
                if before.contains(id) {
                    let j = choose|j: int|
                        0 <= j < i && (#[trigger] rows@[j]).0 == id && rows@[j].1 > 0;
                    assert(0 <= j < i + 1);
                }
                if id == rows@[i as int].0 && rows@[i as int].1 > 0 {
                    assert(rows@[i as int].0 == id);
                }
            }
        }
    }
    r
}

/// Whether the game draws a name of its own over a creature, by the number of its row.
pub fn has_own_name(named: &HashSet<u32>, npc: Option<i32>) -> (r: bool)
    ensures
        r == draws_name(named@, npc),
{
    match npc {
        Some(id) => id >= 0 && named.contains(&(id as u32)),
        None => false,
    }
}

/// Whether it is time to look for the named rows again.
pub fn retry_due(last: Option<u64>, now: u64) -> (r: bool)
    ensures
        r == looks_again(last, now),
{
    match last {
        Some(t) => now >= t && now - t >= NAMED_RETRY,
        None => true,
    }
}

} // verus!
