//! Which viewer is tied to which enemy. The tie is kept between frames: a name that
//! jumps from enemy to enemy reads as flicker. And no name is ever shown twice at once:
//! where there are fewer viewers than enemies, some enemies stay without a name.

use std::collections::HashMap;

use vstd::prelude::*;
use vstd::std_specs::iter::IteratorSpec;
use crate::nickname_laws::{what_is_shown_is_tied, who_wears_a_name_keeps_it};
use crate::text::{chars_of, has_text, same, texts};

verus! {

broadcast use vstd::std_specs::hash::group_hash_axioms;

/// How long an enemy that is out of sight keeps its name, in nanoseconds.
pub const FORGET_AFTER: u64 = 30_000_000_000;

/// How long a name rests after it was last shown, leaving the turn to others, in nanoseconds.
pub const NAME_COOLDOWN: u64 = 90_000_000_000;

/// The ties between enemies and viewers.
pub struct NicknameAssigner {
    /// The name of an enemy, and when it was last seen.
    pub assigned: HashMap<u64, (String, u64)>,
    /// Where in the list of viewers the next name is taken.
    pub cursor: usize,
    /// The generation of the list for which the ties were last checked.
    pub seen_gen: u64,
    /// When a name was last shown.
    pub shown_at: Vec<(String, u64)>,
    /// Which enemy was the last to show a name.
    pub worn_by: Vec<(String, u64)>,
}

/// The names of enemies by their texts.
pub open spec fn ties(m: Map<u64, (String, u64)>) -> Map<u64, (Seq<char>, u64)> {
    m.map_values(|v: (String, u64)| (v.0@, v.1))
}

/// Names and moments by their texts.
pub open spec fn moments(v: Seq<(String, u64)>) -> Seq<(Seq<char>, u64)> {
    v.map_values(|p: (String, u64)| (p.0@, p.1))
}

/// A list of names and moments as a map.
pub open spec fn shown_map(s: Seq<(Seq<char>, u64)>) -> Map<Seq<char>, u64>
    decreases s.len(),
{
    if s.len() == 0 {
        Map::empty()
    } else {
        shown_map(s.drop_last()).insert(s.last().0, s.last().1)
    }
}

/// No name stands twice in the list.
pub open spec fn names_once(s: Seq<(Seq<char>, u64)>) -> bool {
    forall|i: int, j: int| 0 <= i < j < s.len() ==> (#[trigger] s[i]).0 != (#[trigger] s[j]).0
}

/// What is known between two frames.
pub struct Ties {
    pub assigned: Map<u64, (Seq<char>, u64)>,
    pub cursor: int,
    pub shown: Map<Seq<char>, u64>,
    pub worn: Map<Seq<char>, u64>,
    pub seen_gen: u64,
}

impl NicknameAssigner {
    pub open spec fn wf(self) -> bool {
        &&& names_once(moments(self.shown_at@))
        &&& names_once(moments(self.worn_by@))
        &&& self.cursor < usize::MAX
    }

    pub open spec fn state(self) -> Ties {
        Ties {
            assigned: ties(self.assigned@),
            cursor: self.cursor as int,
            shown: shown_map(moments(self.shown_at@)),
            worn: shown_map(moments(self.worn_by@)),
            seen_gen: self.seen_gen,
        }
    }
}

/// The enemies that were seen recently enough.
pub open spec fn recent(m: Map<u64, (Seq<char>, u64)>, now: u64) -> Map<u64, (Seq<char>, u64)> {
    Map::new(|h: u64| m.contains_key(h) && now < m[h].1 + FORGET_AFTER, |h: u64| m[h])
}

/// The enemies whose viewers are in the list.
pub open spec fn present(
    m: Map<u64, (Seq<char>, u64)>,
    viewers: Seq<Seq<char>>,
) -> Map<u64, (Seq<char>, u64)> {
    Map::new(|h: u64| m.contains_key(h) && viewers.contains(m[h].0), |h: u64| m[h])
}

/// The names that still rest.
pub open spec fn resting(m: Map<Seq<char>, u64>, now: u64) -> Map<Seq<char>, u64> {
    Map::new(|n: Seq<char>| m.contains_key(n) && now < m[n] + NAME_COOLDOWN, |n: Seq<char>| m[n])
}

/// The names whose last enemy is still tied to them.
pub open spec fn still_worn(
    w: Map<Seq<char>, u64>,
    m: Map<u64, (Seq<char>, u64)>,
) -> Map<Seq<char>, u64> {
    Map::new(
        |n: Seq<char>| w.contains_key(n) && m.contains_key(w[n]) && m[w[n]].0 == n,
        |n: Seq<char>| w[n],
    )
}

/// The next name in turn within `n` steps that is not used in this frame and, if `fresh`,
/// does not rest; and where the turn stands after it.
pub open spec fn pick(
    viewers: Seq<Seq<char>>,
    used: Seq<Seq<char>>,
    shown: Map<Seq<char>, u64>,
    cursor: int,
    fresh: bool,
    n: int,
) -> (Option<Seq<char>>, int)
    decreases n,
{
    if n <= 0 {
        (None, cursor)
    } else {
        let name: Seq<char> = viewers[cursor % viewers.len() as int];
        let next: int = (cursor + 1) % viewers.len() as int;
        if used.contains(name) || (fresh && shown.contains_key(name)) {
            pick(viewers, used, shown, next, fresh, n - 1)
        } else {
            (Some(name), next)
        }
    }
}

/// The next free name: first one that does not rest, and only then any that is not used,
/// because otherwise a small chat would run out of names.
pub open spec fn free_name(
    viewers: Seq<Seq<char>>,
    used: Seq<Seq<char>>,
    shown: Map<Seq<char>, u64>,
    cursor: int,
) -> (Option<Seq<char>>, int) {
    let (name, at) = pick(viewers, used, shown, cursor, true, viewers.len() as int);
    match name {
        Some(n) => (Some(n), at),
        None => pick(viewers, used, shown, at, false, viewers.len() as int),
    }
}

/// An enemy stands once among the visible ones.
pub open spec fn once_at(visible: Seq<u64>, i: int) -> bool {
    &&& 0 <= i < visible.len()
    &&& forall|j: int| 0 <= j < visible.len() && j != i ==> #[trigger] visible[j] != visible[i]
}

/// The enemy is the last that showed the name it is tied to.
pub open spec fn wears(t: Ties, h: u64) -> bool {
    &&& t.assigned.contains_key(h)
    &&& t.worn.contains_key(t.assigned[h].0)
    &&& t.worn[t.assigned[h].0] == h
}

/// Of two visible enemies with the same name the first is the one to keep it: the one that
/// showed it last, or else the one that comes first.
pub open spec fn ahead(t: Ties, visible: Seq<u64>, i: int, j: int) -> bool {
    if wears(t, visible[i]) != wears(t, visible[j]) {
        wears(t, visible[i])
    } else {
        i < j
    }
}

/// Two visible enemies are tied to the same name.
pub open spec fn rivals(t: Ties, visible: Seq<u64>, i: int, j: int) -> bool {
    &&& t.assigned.contains_key(visible[i])
    &&& t.assigned.contains_key(visible[j])
    &&& t.assigned[visible[i]].0 == t.assigned[visible[j]].0
}

/// A visible enemy keeps its name: it has one, and it is ahead of all others that have it.
pub open spec fn keeps(t: Ties, visible: Seq<u64>, i: int) -> bool {
    &&& t.assigned.contains_key(visible[i])
    &&& forall|j: int|
        0 <= j < visible.len() && j != i && #[trigger] rivals(t, visible, i, j) ==> ahead(
            t,
            visible,
            i,
            j,
        )
}

/// The name that a visible enemy keeps.
pub open spec fn kept_name(t: Ties, visible: Seq<u64>, i: int) -> Option<Seq<char>> {
    if keeps(t, visible, i) {
        Some(t.assigned[visible[i]].0)
    } else {
        None
    }
}

/// The names that the first `k` visible enemies keep. They are set aside before any other
/// name is given.
pub open spec fn kept_names(t: Ties, visible: Seq<u64>, k: int) -> Seq<Seq<char>>
    decreases k,
{
    if k <= 0 {
        Seq::empty()
    } else {
        match kept_name(t, visible, k - 1) {
            Some(n) => kept_names(t, visible, k - 1).push(n),
            None => kept_names(t, visible, k - 1),
        }
    }
}

/// A frame in the making: the ties, the names that are not free, and the names given.
pub struct Round {
    pub ties: Ties,
    pub used: Seq<Seq<char>>,
    pub names: Seq<Option<Seq<char>>>,
}

/// One more enemy. It shows the name it keeps; otherwise it gets the next free one, if
/// there is one.
pub open spec fn with_enemy(
    r: Round,
    h: u64,
    kept: Option<Seq<char>>,
    viewers: Seq<Seq<char>>,
    now: u64,
) -> Round {
    let m: Map<u64, (Seq<char>, u64)> = r.ties.assigned;
    match kept {
        Some(n) => Round {
            ties: Ties {
                assigned: m.insert(h, (n, now)),
                shown: r.ties.shown.insert(n, now),
                worn: r.ties.worn.insert(n, h),
                ..r.ties
            },
            used: r.used,
            names: r.names.push(Some(n)),
        },
        None => {
            let (name, cursor) = free_name(viewers, r.used, r.ties.shown, r.ties.cursor);
            match name {
                Some(n) => Round {
                    ties: Ties {
                        assigned: m.insert(h, (n, now)),
                        cursor,
                        shown: r.ties.shown.insert(n, now),
                        worn: r.ties.worn.insert(n, h),
                        ..r.ties
                    },
                    used: r.used.push(n),
                    names: r.names.push(Some(n)),
                },
                None => Round {
                    ties: Ties { assigned: m.remove(h), cursor, ..r.ties },
                    used: r.used,
                    names: r.names.push(None),
                },
            }
        },
    }
}

/// The first `k` enemies of a frame.
pub open spec fn with_first(
    start: Ties,
    visible: Seq<u64>,
    viewers: Seq<Seq<char>>,
    now: u64,
    k: int,
) -> Round
    decreases k,
{
    if k <= 0 {
        Round {
            ties: start,
            used: kept_names(start, visible, visible.len() as int),
            names: Seq::empty(),
        }
    } else {
        with_enemy(
            with_first(start, visible, viewers, now, k - 1),
            visible[k - 1],
            kept_name(start, visible, k - 1),
            viewers,
            now,
        )
    }
}

/// All enemies of a frame.
pub open spec fn with_enemies(
    start: Ties,
    visible: Seq<u64>,
    viewers: Seq<Seq<char>>,
    now: u64,
) -> Round {
    with_first(start, visible, viewers, now, visible.len() as int)
}

/// The ties that stay when a frame begins: enemies out of sight for long are forgotten, and
/// so are viewers who left when the list has changed.
pub open spec fn kept_ties(
    m: Map<u64, (Seq<char>, u64)>,
    viewers: Seq<Seq<char>>,
    changed: bool,
    now: u64,
) -> Map<u64, (Seq<char>, u64)> {
    if changed {
        present(recent(m, now), viewers)
    } else {
        recent(m, now)
    }
}

/// What is left when a frame begins with the list of a generation: the ties that stay, and
/// names that have rested are free again.
pub open spec fn swept(t: Ties, viewers: Seq<Seq<char>>, generation: u64, now: u64) -> Ties {
    let assigned: Map<u64, (Seq<char>, u64)> = kept_ties(
        t.assigned,
        viewers,
        t.seen_gen != generation,
        now,
    );
    Ties {
        assigned,
        cursor: t.cursor,
        shown: resting(t.shown, now),
        worn: still_worn(t.worn, assigned),
        seen_gen: generation,
    }
}

/// The names given by their texts.
pub open spec fn given(v: Seq<Option<String>>) -> Seq<Option<Seq<char>>> {
    v.map_values(
        |o: Option<String>|
            match o {
                Some(s) => Some(s@),
                None => None,
            },
    )
}

// ---------------------------------------------------------------------------
// Lists of names
// ---------------------------------------------------------------------------

proof fn lemma_shown_map(s: Seq<(Seq<char>, u64)>, n: Seq<char>)
    ensures
        shown_map(s).contains_key(n) <==> exists|i: int|
            0 <= i < s.len() && (#[trigger] s[i]).0 == n,
    decreases s.len(),
{
    if s.len() > 0 {
        let front = s.drop_last();
        lemma_shown_map(front, n);
        if shown_map(front).contains_key(n) {
            let i = choose|i: int| 0 <= i < front.len() && (#[trigger] front[i]).0 == n;
            assert(s[i].0 == n);
        }
        if s.last().0 == n {
            assert(s[s.len() - 1].0 == n);
        }
        if exists|i: int| 0 <= i < s.len() && (#[trigger] s[i]).0 == n {
            let i = choose|i: int| 0 <= i < s.len() && (#[trigger] s[i]).0 == n;
            if i < front.len() {
                assert(front[i].0 == n);
            }
        }
    }
}

proof fn lemma_shown_value(s: Seq<(Seq<char>, u64)>, i: int)
    requires
        names_once(s),
        0 <= i < s.len(),
    ensures
        shown_map(s).contains_key(s[i].0),
        shown_map(s)[s[i].0] == s[i].1,
    decreases s.len(),
{
    let front = s.drop_last();
    if i < front.len() {
        assert(names_once(front)) by {
            assert forall|a: int, b: int| 0 <= a < b < front.len() implies (
            #[trigger] front[a]).0 != (#[trigger] front[b]).0 by {
                assert(front[a] == s[a] && front[b] == s[b]);
            }
        }
        assert(front[i] == s[i]);
        lemma_shown_value(front, i);
        assert(s[i].0 != s[s.len() - 1].0);
    }
}

proof fn lemma_shown_update(s: Seq<(Seq<char>, u64)>, i: int, now: u64)
    requires
        names_once(s),
        0 <= i < s.len(),
    ensures
        names_once(s.update(i, (s[i].0, now))),
        shown_map(s.update(i, (s[i].0, now))) == shown_map(s).insert(s[i].0, now),
{
    let u = s.update(i, (s[i].0, now));
    assert(names_once(u)) by {
        assert forall|a: int, b: int| 0 <= a < b < u.len() implies (#[trigger] u[a]).0 != (
        #[trigger] u[b]).0 by {
            assert(s[a].0 != s[b].0);
        }
    }
    let target = shown_map(s).insert(s[i].0, now);
    assert forall|n: Seq<char>| shown_map(u).contains_key(n) <==> target.contains_key(n) by {
        lemma_shown_map(u, n);
        lemma_shown_map(s, n);
        if shown_map(u).contains_key(n) {
            let k = choose|k: int| 0 <= k < u.len() && (#[trigger] u[k]).0 == n;
            assert(s[k].0 == n);
        }
        if shown_map(s).contains_key(n) {
            let k = choose|k: int| 0 <= k < s.len() && (#[trigger] s[k]).0 == n;
            assert(u[k].0 == n);
        }
        if n == s[i].0 {
            assert(u[i].0 == n);
        }
    }
    assert forall|n: Seq<char>| shown_map(u).contains_key(n) implies shown_map(u)[n]
        == target[n] by {
        lemma_shown_map(u, n);
        let k = choose|k: int| 0 <= k < u.len() && (#[trigger] u[k]).0 == n;
        lemma_shown_value(u, k);
        lemma_shown_value(s, k);
        if k != i {
            if k < i {
                assert(s[k].0 != s[i].0);
            } else {
                assert(s[i].0 != s[k].0);
            }
        }
    }
    assert(shown_map(u) =~= target);
}

fn is_shown(v: &Vec<(String, u64)>, name: &str) -> (r: bool)
    ensures
        r == shown_map(moments(v@)).contains_key(name@),
{
    let n: Vec<char> = chars_of(name);
    let ghost s = moments(v@);
    proof {
        lemma_shown_map(s, name@);
    }
    for i in 0..v.len()
        invariant
            n@ == name@,
            s == moments(v@),
            shown_map(s).contains_key(name@) <==> exists|i: int|
                0 <= i < s.len() && (#[trigger] s[i]).0 == name@,
            forall|j: int| 0 <= j < i ==> (#[trigger] s[j]).0 != name@,
    {
        assert(s[i as int].0 == v@[i as int].0@);
        if same(&n, &v[i].0) {
            return true;
        }
    }
    false
}

fn put_shown(v: &mut Vec<(String, u64)>, name: &str, now: u64)
    requires
        names_once(moments(old(v)@)),
    ensures
        names_once(moments(final(v)@)),
        shown_map(moments(final(v)@)) == shown_map(moments(old(v)@)).insert(name@, now),
{
    let n: Vec<char> = chars_of(name);
    let ghost s = moments(v@);
    let len: usize = v.len();
    for i in 0..len
        invariant
            len == v.len(),
            n@ == name@,
            s == moments(v@),
            names_once(s),
            s == moments(old(v)@),
            forall|j: int| 0 <= j < i ==> (#[trigger] s[j]).0 != name@,
    {
        assert(s[i as int].0 == v@[i as int].0@);
        if same(&n, &v[i].0) {
            proof {
                lemma_shown_update(s, i as int, now);
            }
            v[i] = (name.to_string(), now);
            assert(moments(v@) == s.update(i as int, (s[i as int].0, now)));
            return;
        }
    }
    v.push((name.to_string(), now));
    proof {
        let next = moments(v@);
        assert(next == s.push((name@, now)));
        assert(next.drop_last() == s);
        assert forall|a: int, b: int| 0 <= a < b < next.len() implies (#[trigger] next[a]).0 != (
        #[trigger] next[b]).0 by {
            assert(next[a] == s[a]);
            if b < s.len() {
                assert(next[b] == s[b]);
            }
        }
    }
}

fn keep_resting(v: &Vec<(String, u64)>, now: u64) -> (r: Vec<(String, u64)>)
    requires
        names_once(moments(v@)),
    ensures
        names_once(moments(r@)),
        shown_map(moments(r@)) == resting(shown_map(moments(v@)), now),
{
    let ghost s = moments(v@);
    let mut r: Vec<(String, u64)> = Vec::new();
    proof {
        assert(moments(r@) == Seq::<(Seq<char>, u64)>::empty());
        assert(s.take(0) == Seq::<(Seq<char>, u64)>::empty());
        assert(shown_map(moments(r@)) =~= resting(shown_map(s.take(0)), now));
    }
    for i in 0..v.len()
        invariant
            s == moments(v@),
            names_once(s),
            names_once(moments(r@)),
            shown_map(moments(r@)) == resting(shown_map(s.take(i as int)), now),
    {
        let ghost before = moments(r@);
        let ghost front = s.take(i as int);
        let ghost next = s.take(i + 1);
        proof {
            assert(next.drop_last() == front);
            assert(next.last() == (v@[i as int].0@, v@[i as int].1));
            // This name has not come before.
            lemma_shown_map(front, next.last().0);
            if shown_map(front).contains_key(next.last().0) {
                let j = choose|j: int|
                    0 <= j < front.len() && (#[trigger] front[j]).0 == next.last().0;
                assert(s[j].0 != s[i as int].0);
            }
        }
        if now < v[i].1 || now - v[i].1 < NAME_COOLDOWN {
            r.push((v[i].0.clone(), v[i].1));
            proof {
                let after = moments(r@);
                assert(after == before.push(next.last()));
                assert(after.drop_last() == before);
                lemma_shown_map(before, next.last().0);
                assert(names_once(after)) by {
                    assert forall|a: int, b: int| 0 <= a < b < after.len() implies (
                    #[trigger] after[a]).0 != (#[trigger] after[b]).0 by {
                        assert(after[a] == before[a]);
                        if b < before.len() {
                            assert(after[b] == before[b]);
                        } else if after[a].0 == after[b].0 {
                            assert(before[a].0 == next.last().0);
                            assert(shown_map(before).contains_key(next.last().0));
                        }
                    }
                }
                assert(shown_map(after) =~= resting(shown_map(next), now));
            }
        } else {
            assert(shown_map(before) =~= resting(shown_map(next), now));
        }
    }
    assert(s.take(s.len() as int) == s);
    r
}

fn keep_worn(v: &Vec<(String, u64)>, m: &HashMap<u64, (String, u64)>) -> (r: Vec<(String, u64)>)
    requires
        names_once(moments(v@)),
    ensures
        names_once(moments(r@)),
        shown_map(moments(r@)) == still_worn(shown_map(moments(v@)), ties(m@)),
{
    let ghost s = moments(v@);
    let ghost t = ties(m@);
    let mut r: Vec<(String, u64)> = Vec::new();
    proof {
        assert(moments(r@) == Seq::<(Seq<char>, u64)>::empty());
        assert(s.take(0) == Seq::<(Seq<char>, u64)>::empty());
        assert(shown_map(moments(r@)) =~= still_worn(shown_map(s.take(0)), t));
    }
    for i in 0..v.len()
        invariant
            s == moments(v@),
            t == ties(m@),
            names_once(s),
            names_once(moments(r@)),
            shown_map(moments(r@)) == still_worn(shown_map(s.take(i as int)), t),
    {
        let ghost before = moments(r@);
        let ghost front = s.take(i as int);
        let ghost next = s.take(i + 1);
        proof {
            assert(next.drop_last() == front);
            assert(next.last() == (v@[i as int].0@, v@[i as int].1));
            // This name has not come before.
            lemma_shown_map(front, next.last().0);
            if shown_map(front).contains_key(next.last().0) {
                let j = choose|j: int|
                    0 <= j < front.len() && (#[trigger] front[j]).0 == next.last().0;
                assert(s[j].0 != s[i as int].0);
            }
        }
        let tied: bool = match m.get(&v[i].1) {
            Some(have) => same(&chars_of(&have.0), &v[i].0),
            None => false,
        };
        assert(tied == (t.contains_key(next.last().1) && t[next.last().1].0 == next.last().0));
        if tied {
            r.push((v[i].0.clone(), v[i].1));
            proof {
                let after = moments(r@);
                assert(after == before.push(next.last()));
                assert(after.drop_last() == before);
                lemma_shown_map(before, next.last().0);
                assert(names_once(after)) by {
                    assert forall|a: int, b: int| 0 <= a < b < after.len() implies (
                    #[trigger] after[a]).0 != (#[trigger] after[b]).0 by {
                        assert(after[a] == before[a]);
                        if b < before.len() {
                            assert(after[b] == before[b]);
                        } else if after[a].0 == after[b].0 {
                            assert(before[a].0 == next.last().0);
                            assert(shown_map(before).contains_key(next.last().0));
                        }
                    }
                }
                assert(shown_map(after) =~= still_worn(shown_map(next), t));
            }
        } else {
            assert(shown_map(before) =~= still_worn(shown_map(next), t));
        }
    }
    assert(s.take(s.len() as int) == s);
    r
}

fn is_worn_by(v: &Vec<(String, u64)>, name: &str, h: u64) -> (r: bool)
    requires
        names_once(moments(v@)),
    ensures
        r == (shown_map(moments(v@)).contains_key(name@) && shown_map(moments(v@))[name@] == h),
{
    let n: Vec<char> = chars_of(name);
    let ghost s = moments(v@);
    proof {
        lemma_shown_map(s, name@);
    }
    for i in 0..v.len()
        invariant
            n@ == name@,
            s == moments(v@),
            names_once(s),
            shown_map(s).contains_key(name@) <==> exists|i: int|
                0 <= i < s.len() && (#[trigger] s[i]).0 == name@,
            forall|j: int| 0 <= j < i ==> (#[trigger] s[j]).0 != name@,
    {
        assert(s[i as int].0 == v@[i as int].0@);
        if same(&n, &v[i].0) {
            proof {
                lemma_shown_value(s, i as int);
            }
            return v[i].1 == h;
        }
    }
    false
}

// ---------------------------------------------------------------------------
// Giving names
// ---------------------------------------------------------------------------

/// The ties that stay: enemies seen recently and, if the list has changed, viewers who
/// are still there.
fn keep_ties(
    m: &HashMap<u64, (String, u64)>,
    viewers: &Vec<String>,
    changed: bool,
    now: u64,
) -> (r: HashMap<u64, (String, u64)>)
    ensures
        ties(r@) == kept_ties(ties(m@), texts(viewers@), changed, now),
{
    let ghost target = kept_ties(ties(m@), texts(viewers@), changed, now);
    let mut r: HashMap<u64, (String, u64)> = HashMap::new();
    for (h, v) in it: m.iter()
        invariant
            it.seq() == vstd::std_specs::hash::spec_hash_map_iter(m).remaining(),
            target == kept_ties(ties(m@), texts(viewers@), changed, now),
            forall|k: u64| #[trigger]
                r@.contains_key(k) <==> exists|i: int|
                    0 <= i < it.index() && *(#[trigger] it.seq()[i]).0 == k
                        && target.contains_key(k),
            forall|k: u64| #[trigger]
                r@.contains_key(k) ==> (r@[k].0@, r@[k].1) == ties(m@)[k],
    {
        let ghost n = it.index();
        let ghost before = r@;
        assert(it.seq()[n] == (h, v));
        assert(m@.contains_key(*h) && m@[*h] == *v) by {
            let s = vstd::std_specs::hash::spec_hash_map_iter(m).remaining();
            assert(m@.contains_key(*s[n].0));
            assert(m@[*s[n].0] == *s[n].1);
        }
        let stays: bool = (now < v.1 || now - v.1 < FORGET_AFTER) && (!changed || has_text(
            viewers,
            &v.0,
        ));
        assert(stays == target.contains_key(*h));
        if stays {
            r.insert(*h, (v.0.clone(), v.1));
        }
        proof {
            assert forall|k: u64| #[trigger] r@.contains_key(k) <==> exists|i: int|
                0 <= i < n + 1 && *(#[trigger] it.seq()[i]).0 == k && target.contains_key(k) by {
                if before.contains_key(k) {
                    let i = choose|i: int|
                        0 <= i < n && *(#[trigger] it.seq()[i]).0 == k && target.contains_key(k);
                    assert(0 <= i < n + 1);
                }
                if k == *h && stays {
                    assert(*it.seq()[n].0 == k);
                }
            }
        }
    }
    proof {
        let s = vstd::std_specs::hash::spec_hash_map_iter(m).remaining();
        assert forall|k: u64| ties(r@).contains_key(k) <==> target.contains_key(k) by {
            if target.contains_key(k) {
                assert(m@.contains_key(k));
                assert(s.contains((&k, &m@[k])));
                let i = choose|i: int| 0 <= i < s.len() && s[i] == (&k, &m@[k]);
                assert(*s[i].0 == k);
                assert(r@.contains_key(k));
            }
            if r@.contains_key(k) {
                let i = choose|i: int|
                    0 <= i < s.len() && *(#[trigger] s[i]).0 == k && target.contains_key(k);
            }
        }
        assert(ties(r@) =~= target);
    }
    r
}

impl NicknameAssigner {
    /// Nobody is tied to anybody.
    pub fn new() -> (r: NicknameAssigner)
        ensures
            r.wf(),
            r.state() == (Ties {
                assigned: Map::empty(),
                cursor: 0,
                shown: Map::empty(),
                worn: Map::empty(),
                seen_gen: 0,
            }),
    {
        let r: NicknameAssigner = NicknameAssigner {
            assigned: HashMap::new(),
            cursor: 0,
            seen_gen: 0,
            shown_at: Vec::new(),
            worn_by: Vec::new(),
        };
        assert(ties(r.assigned@) =~= Map::empty());
        r
    }

    /// The next name in turn within as many steps as there are viewers.
    fn pick_name(&mut self, viewers: &Vec<String>, used: &Vec<String>, fresh: bool) -> (r: Option<
        usize,
    >)
        requires
            old(self).wf(),
            viewers.len() > 0,
        ensures
            final(self).wf(),
            final(self).assigned == old(self).assigned,
            final(self).seen_gen == old(self).seen_gen,
            final(self).shown_at == old(self).shown_at,
            final(self).worn_by == old(self).worn_by,
            ({
                let p: (Option<Seq<char>>, int) = pick(
                    texts(viewers@),
                    texts(used@),
                    old(self).state().shown,
                    old(self).cursor as int,
                    fresh,
                    viewers@.len() as int,
                );
                &&& final(self).cursor == p.1
                &&& match r {
                    Some(i) => i < viewers.len() && p.0 == Some(viewers@[i as int]@),
                    None => p.0 is None,
                }
            }),
    {
        let n: usize = viewers.len();
        let mut left: usize = n;
        let ghost vs = texts(viewers@);
        let ghost us = texts(used@);
        let ghost shown = self.state().shown;
        while left > 0
            invariant
                n == viewers.len(),
                n > 0,
                left <= n,
                self.wf(),
                self.assigned == old(self).assigned,
                self.seen_gen == old(self).seen_gen,
                self.shown_at == old(self).shown_at,
                self.worn_by == old(self).worn_by,
                vs == texts(viewers@),
                us == texts(used@),
                shown == self.state().shown,
                pick(vs, us, shown, old(self).cursor as int, fresh, n as int) == pick(
                    vs,
                    us,
                    shown,
                    self.cursor as int,
                    fresh,
                    left as int,
                ),
            decreases left,
        {
            let i: usize = self.cursor % n;
            self.cursor = (self.cursor + 1) % n;
            left = left - 1;
            assert(vs[i as int] == viewers@[i as int]@);
            if !has_text(used, &viewers[i]) && !(fresh && is_shown(&self.shown_at, &viewers[i])) {
                return Some(i);
            }
        }
        None
    }

    /// The next free name: preferably one that does not rest, but never one that is used
    /// in this frame.
    fn take_free(&mut self, viewers: &Vec<String>, used: &Vec<String>, now: u64) -> (r: Option<
        String,
    >)
        requires
            old(self).wf(),
            viewers.len() > 0,
        ensures
            final(self).wf(),
            final(self).assigned == old(self).assigned,
            final(self).seen_gen == old(self).seen_gen,
            final(self).worn_by == old(self).worn_by,
            ({
                let p: (Option<Seq<char>>, int) = free_name(
                    texts(viewers@),
                    texts(used@),
                    old(self).state().shown,
                    old(self).cursor as int,
                );
                &&& final(self).cursor == p.1
                &&& match r {
                    Some(s) => p.0 == Some(s@) && final(self).state().shown == old(
                        self,
                    ).state().shown.insert(s@, now),
                    None => p.0 is None && final(self).state().shown == old(self).state().shown,
                }
            }),
    {
        let mut found: Option<usize> = self.pick_name(viewers, used, true);
        if found.is_none() {
            found = self.pick_name(viewers, used, false);
        }
        match found {
            Some(i) => {
                put_shown(&mut self.shown_at, &viewers[i], now);
                Some(viewers[i].clone())
            },
            None => None,
        }
    }

    fn is_worn(&self, h: u64) -> (r: bool)
        requires
            self.wf(),
        ensures
            r == wears(self.state(), h),
    {
        match self.assigned.get(&h) {
            Some(v) => is_worn_by(&self.worn_by, &v.0, h),
            None => false,
        }
    }

    /// The name that a visible enemy keeps.
    fn name_to_keep(&self, visible: &Vec<u64>, i: usize) -> (r: Option<String>)
        requires
            self.wf(),
            i < visible.len(),
        ensures
            match r {
                Some(s) => kept_name(self.state(), visible@, i as int) == Some(s@),
                None => kept_name(self.state(), visible@, i as int) is None,
            },
    {
        let ghost t = self.state();
        let name: String = match self.assigned.get(&visible[i]) {
            Some(v) => v.0.clone(),
            None => {
                return None;
            },
        };
        assert(t.assigned[visible@[i as int]].0 == name@);
        let mine: Vec<char> = chars_of(&name);
        let worn: bool = self.is_worn(visible[i]);
        for j in 0..visible.len()
            invariant
                self.wf(),
                i < visible.len(),
                t == self.state(),
                t.assigned.contains_key(visible@[i as int]),
                t.assigned[visible@[i as int]].0 == name@,
                mine@ == name@,
                worn == wears(t, visible@[i as int]),
                forall|k: int|
                    0 <= k < j && k != i && #[trigger] rivals(t, visible@, i as int, k) ==> ahead(
                        t,
                        visible@,
                        i as int,
                        k,
                    ),
        {
            let rival: bool = match self.assigned.get(&visible[j]) {
                Some(v) => same(&mine, &v.0),
                None => false,
            };
            assert(rival == rivals(t, visible@, i as int, j as int));
            if rival && j != i {
                let other: bool = self.is_worn(visible[j]);
                let first: bool = if worn != other {
                    worn
                } else {
                    i < j
                };
                if !first {
                    assert(!ahead(t, visible@, i as int, j as int));
                    return None;
                }
            }
        }
        Some(name)
    }

    /// Gives names to the enemies that are visible. First the names that enemies keep are
    /// set aside, and then the others are given. Without viewers nobody gets a name, and
    /// nobody stays tied.
    pub fn assign(
        &mut self,
        visible: &Vec<u64>,
        viewers: &Vec<String>,
        viewers_gen: u64,
        now: u64,
    ) -> (r: Vec<Option<String>>)
        requires
            old(self).wf(),
        ensures
            final(self).wf(),
            if viewers.len() == 0 {
                &&& r.len() == 0
                &&& final(self).state() == (Ties { assigned: Map::empty(), ..old(self).state() })
            } else {
                let round: Round = with_enemies(
                    swept(old(self).state(), texts(viewers@), viewers_gen, now),
                    visible@,
                    texts(viewers@),
                    now,
                );
                &&& given(r@) == round.names
                &&& final(self).state() == round.ties
            },
            viewers.len() > 0 ==> r.len() == visible.len() && final(self).seen_gen == viewers_gen,
            // An enemy is tied to the name it shows.
            viewers.len() > 0 ==> forall|i: int| #[trigger]
                once_at(visible@, i) ==> match given(r@)[i] {
                    Some(n) => wears(final(self).state(), visible@[i])
                        && final(self).state().assigned[visible@[i]] == (n, now),
                    None => !final(self).state().assigned.contains_key(visible@[i]),
                },
            // And as long as it is not forgotten and the list is the same, it shows it again.
            viewers.len() > 0 && viewers_gen == old(self).seen_gen ==> forall|i: int| #[trigger]
                once_at(visible@, i) && wears(old(self).state(), visible@[i]) && now < old(
                    self,
                ).state().assigned[visible@[i]].1 + FORGET_AFTER ==> given(r@)[i] == Some(
                    old(self).state().assigned[visible@[i]].0,
                ),
    {
        if viewers.len() == 0 {
            self.assigned = HashMap::new();
            assert(ties(self.assigned@) =~= Map::empty());
            return Vec::new();
        }
        let ghost vs = texts(viewers@);
        let changed: bool = self.seen_gen != viewers_gen;
        let kept: HashMap<u64, (String, u64)> = keep_ties(&self.assigned, viewers, changed, now);
        let worn: Vec<(String, u64)> = keep_worn(&self.worn_by, &kept);
        self.assigned = kept;
        self.worn_by = worn;
        self.seen_gen = viewers_gen;
        let still: Vec<(String, u64)> = keep_resting(&self.shown_at, now);
        self.shown_at = still;
        let ghost start = self.state();
        assert(start == swept(old(self).state(), vs, viewers_gen, now));
        let mut keep: Vec<Option<String>> = Vec::new();
        let mut used: Vec<String> = Vec::new();
        assert(texts(used@) == Seq::<Seq<char>>::empty());
        for i in 0..visible.len()
            invariant
                self.wf(),
                self.seen_gen == viewers_gen,
                start == self.state(),
                keep.len() == i,
                forall|k: int|
                    0 <= k < i ==> #[trigger] given(keep@)[k] == kept_name(start, visible@, k),
                texts(used@) == kept_names(start, visible@, i as int),
        {
            let ghost keep_before = keep@;
            let ghost used_before = used@;
            let name: Option<String> = self.name_to_keep(visible, i);
            match &name {
                Some(n) => {
                    used.push(n.clone());
                    assert(texts(used@) == texts(used_before).push(n@));
                },
                None => {},
            }
            keep.push(name);
            assert forall|k: int| 0 <= k < i + 1 implies #[trigger] given(keep@)[k] == kept_name(
                start,
                visible@,
                k,
            ) by {
                if k < i {
                    assert(given(keep@)[k] == given(keep_before)[k]);
                }
            }
        }
        let mut result: Vec<Option<String>> = Vec::new();
        assert(given(result@) == Seq::<Option<Seq<char>>>::empty());
        for i in 0..visible.len()
            invariant
                viewers.len() > 0,
                vs == texts(viewers@),
                self.wf(),
                keep.len() == visible.len(),
                forall|k: int|
                    0 <= k < visible@.len() ==> #[trigger] given(keep@)[k] == kept_name(
                        start,
                        visible@,
                        k,
                    ),
                self.state() == with_first(start, visible@, vs, now, i as int).ties,
                texts(used@) == with_first(start, visible@, vs, now, i as int).used,
                given(result@) == with_first(start, visible@, vs, now, i as int).names,
                result.len() == i,
                self.seen_gen == viewers_gen,
        {
            let h: u64 = visible[i];
            let ghost before = with_first(start, visible@, vs, now, i as int);
            let ghost next = with_first(start, visible@, vs, now, i + 1);
            let ghost used_before = used@;
            let ghost result_before = result@;
            let ghost assigned_before = self.assigned@;
            proof {
                assert(given(keep@)[i as int] == kept_name(start, visible@, i as int));
                assert(next == with_enemy(
                    before,
                    h,
                    kept_name(start, visible@, i as int),
                    vs,
                    now,
                ));
            }
            match &keep[i] {
                Some(name) => {
                    self.assigned.insert(h, (name.clone(), now));
                    put_shown(&mut self.shown_at, name, now);
                    put_shown(&mut self.worn_by, name, h);
                    result.push(Some(name.clone()));
                    proof {
                        assert(ties(self.assigned@) =~= ties(assigned_before).insert(
                            h,
                            (name@, now),
                        ));
                        assert(given(result@) == given(result_before).push(Some(name@)));
                    }
                },
                None => match self.take_free(viewers, &used, now) {
                    Some(name) => {
                        self.assigned.insert(h, (name.clone(), now));
                        put_shown(&mut self.worn_by, &name, h);
                        used.push(name.clone());
                        result.push(Some(name));
                        proof {
                            assert(ties(self.assigned@) =~= ties(assigned_before).insert(
                                h,
                                (name@, now),
                            ));
                            assert(texts(used@) == texts(used_before).push(name@));
                            assert(given(result@) == given(result_before).push(Some(name@)));
                        }
                    },
                    None => {
                        self.assigned.remove(&h);
                        result.push(None);
                        proof {
                            assert(ties(self.assigned@) =~= ties(assigned_before).remove(h));
                            assert(given(result@) == given(result_before).push(None));
                        }
                    },
                },
            }
        }
        proof {
            assert forall|i: int| #[trigger] once_at(visible@, i) implies match given(result@)[i] {
                Some(n) => wears(self.state(), visible@[i]) && self.state().assigned[visible@[i]]
                    == (n, now),
                None => !self.state().assigned.contains_key(visible@[i]),
            } by {
                what_is_shown_is_tied(start, visible@, vs, now, i);
            }
            if viewers_gen == old(self).seen_gen {
                assert forall|i: int| #[trigger]
                    once_at(visible@, i) && wears(old(self).state(), visible@[i]) && now < old(
                        self,
                    ).state().assigned[visible@[i]].1 + FORGET_AFTER implies given(result@)[i]
                    == Some(old(self).state().assigned[visible@[i]].0) by {
                    who_wears_a_name_keeps_it(old(self).state(), visible@, vs, now, i);
                }
            }
        }
        result
    }
}

} // verus!
