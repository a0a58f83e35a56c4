//! What holds of the names over enemies in every frame and between frames.

use vstd::arithmetic::div_mod::{lemma_mod_bound, lemma_small_mod};
use vstd::prelude::*;
use crate::nicknames::{
    ahead, free_name, keeps, kept_name, kept_names, once_at, pick, rivals, swept, wears, with_enemies,
    with_enemy, with_first, Round, Ties, FORGET_AFTER,
};

verus! {

proof fn lemma_pick(
    viewers: Seq<Seq<char>>,
    used: Seq<Seq<char>>,
    shown: Map<Seq<char>, u64>,
    cursor: int,
    fresh: bool,
    n: int,
)
    requires
        viewers.len() > 0,
        cursor >= 0,
    ensures
        pick(viewers, used, shown, cursor, fresh, n).1 >= 0,
        pick(viewers, used, shown, cursor, fresh, n).0 matches Some(name) ==> !used.contains(name)
            && viewers.contains(name) && (fresh ==> !shown.contains_key(name)),
        pick(viewers, used, shown, cursor, fresh, n).0 is None && !fresh ==> forall|k: int|
            0 <= k < n ==> used.contains(#[trigger] viewers[(cursor + k) % viewers.len() as int]),
    decreases n,
{
    let len = viewers.len() as int;
    if n > 0 {
        let name = viewers[cursor % len];
        let next = (cursor + 1) % len;
        lemma_mod_bound(cursor, len);
        lemma_mod_bound(cursor + 1, len);
        assert(viewers.contains(name));
        if used.contains(name) || (fresh && shown.contains_key(name)) {
            lemma_pick(viewers, used, shown, next, fresh, n - 1);
            if pick(viewers, used, shown, cursor, fresh, n).0 is None && !fresh {
                assert forall|k: int| 0 <= k < n implies used.contains(
                    #[trigger] viewers[(cursor + k) % len],
                ) by {
                    if k > 0 {
                        assert((next + (k - 1)) % len == (cursor + k) % len) by {
                            vstd::arithmetic::div_mod::lemma_add_mod_noop_right(
                                k - 1,
                                cursor + 1,
                                len,
                            );
                        }
                        assert(used.contains(viewers[(next + (k - 1)) % len]));
                    }
                }
            }
        }
    }
}

proof fn lemma_free_name(
    viewers: Seq<Seq<char>>,
    used: Seq<Seq<char>>,
    shown: Map<Seq<char>, u64>,
    cursor: int,
)
    requires
        viewers.len() > 0,
        cursor >= 0,
    ensures
        free_name(viewers, used, shown, cursor).1 >= 0,
        free_name(viewers, used, shown, cursor).0 matches Some(name) ==> !used.contains(name)
            && viewers.contains(name),
        free_name(viewers, used, shown, cursor).0 is None ==> forall|i: int|
            0 <= i < viewers.len() ==> used.contains(#[trigger] viewers[i]),
{
    let len = viewers.len() as int;
    lemma_pick(viewers, used, shown, cursor, true, len);
    let at = pick(viewers, used, shown, cursor, true, len).1;
    lemma_pick(viewers, used, shown, at, false, len);
    if free_name(viewers, used, shown, cursor).0 is None {
        assert forall|i: int| 0 <= i < len implies used.contains(#[trigger] viewers[i]) by {
            let k = (i - at) % len;
            lemma_mod_bound(i - at, len);
            assert((at + k) % len == i) by {
                vstd::arithmetic::div_mod::lemma_add_mod_noop_right(at, i - at, len);
                lemma_small_mod(i as nat, len as nat);
            }
            assert(used.contains(viewers[(at + k) % len]));
        }
    }
}

/// Two enemies that keep their names keep different names.
proof fn lemma_keepers_differ(t: Ties, visible: Seq<u64>, i: int, j: int)
    requires
        0 <= i < visible.len(),
        0 <= j < visible.len(),
        i != j,
        keeps(t, visible, i),
        keeps(t, visible, j),
    ensures
        kept_name(t, visible, i) != kept_name(t, visible, j),
{
    if kept_name(t, visible, i) == kept_name(t, visible, j) {
        assert(rivals(t, visible, i, j));
        assert(rivals(t, visible, j, i));
    }
}

/// The names set aside are those of the enemies that keep theirs.
proof fn lemma_kept_names(t: Ties, visible: Seq<u64>, k: int, n: Seq<char>)
    requires
        0 <= k <= visible.len(),
    ensures
        kept_names(t, visible, k).contains(n) <==> exists|i: int|
            0 <= i < k && #[trigger] kept_name(t, visible, i) == Some(n),
    decreases k,
{
    if k > 0 {
        lemma_kept_names(t, visible, k - 1, n);
        let b = kept_names(t, visible, k - 1);
        let r = kept_names(t, visible, k);
        if b.contains(n) {
            let a = choose|a: int| 0 <= a < b.len() && b[a] == n;
            assert(r[a] == n);
            let i = choose|i: int| 0 <= i < k - 1 && #[trigger] kept_name(t, visible, i) == Some(n);
            assert(0 <= i < k);
        }
        if kept_name(t, visible, k - 1) == Some(n) {
            assert(r[b.len() as int] == n);
        }
        if r.contains(n) && !b.contains(n) {
            let a = choose|a: int| 0 <= a < r.len() && r[a] == n;
            if a < b.len() {
                assert(b[a] == n);
            }
            assert(kept_name(t, visible, k - 1) == Some(n));
        }
        if exists|i: int| 0 <= i < k && #[trigger] kept_name(t, visible, i) == Some(n) {
            let i = choose|i: int| 0 <= i < k && #[trigger] kept_name(t, visible, i) == Some(n);
            assert(i < k - 1 || i == k - 1);
        }
    }
}

/// What holds of the first `k` enemies of a frame.
spec fn round_ok(start: Ties, visible: Seq<u64>, viewers: Seq<Seq<char>>, now: u64, k: int) -> bool {
    let r: Round = with_first(start, visible, viewers, now, k);
    let aside: Seq<Seq<char>> = kept_names(start, visible, visible.len() as int);
    &&& r.names.len() == k
    &&& r.ties.cursor >= 0
    &&& forall|n: Seq<char>| #[trigger] aside.contains(n) ==> r.used.contains(n)
    &&& forall|i: int|
        #![trigger r.names[i]]
        0 <= i < k && r.names[i] is Some ==> r.used.contains(r.names[i].unwrap())
    &&& forall|i: int|
        #![trigger r.names[i]]
        0 <= i < k ==> match kept_name(start, visible, i) {
            Some(n) => r.names[i] == Some(n),
            None => r.names[i] is Some ==> !aside.contains(r.names[i].unwrap())
                && viewers.contains(r.names[i].unwrap()),
        }
    &&& forall|n: Seq<char>| #[trigger]
        r.used.contains(n) && !aside.contains(n) ==> exists|j: int|
            0 <= j < k && #[trigger] r.names[j] == Some(n)
    &&& forall|i: int, j: int|
        0 <= i < j < k && (#[trigger] r.names[i]) is Some ==> #[trigger] r.names[j] != r.names[i]
}

proof fn lemma_round(start: Ties, visible: Seq<u64>, viewers: Seq<Seq<char>>, now: u64, k: int)
    requires
        viewers.len() > 0,
        start.cursor >= 0,
        0 <= k <= visible.len(),
    ensures
        round_ok(start, visible, viewers, now, k),
    decreases k,
{
    let r = with_first(start, visible, viewers, now, k);
    let aside = kept_names(start, visible, visible.len() as int);
    if k > 0 {
        lemma_round(start, visible, viewers, now, k - 1);
        let b = with_first(start, visible, viewers, now, k - 1);
        let h = visible[k - 1];
        let kept = kept_name(start, visible, k - 1);
        lemma_free_name(viewers, b.used, b.ties.shown, b.ties.cursor);
        assert(r == with_enemy(b, h, kept, viewers, now));
        let last = r.names[k - 1];
        assert forall|i: int| 0 <= i < k - 1 implies #[trigger] r.names[i] == b.names[i] by {}
        assert forall|n: Seq<char>| b.used.contains(n) implies #[trigger] r.used.contains(n) by {
            let a = choose|a: int| 0 <= a < b.used.len() && b.used[a] == n;
            assert(r.used[a] == n);
        }
        assert forall|n: Seq<char>| #[trigger] aside.contains(n) implies r.used.contains(n) by {
            assert(b.used.contains(n));
        }
        match kept {
            Some(n) => {
                lemma_kept_names(start, visible, visible.len() as int, n);
                assert(kept_name(start, visible, k - 1) == Some(n));
                assert(aside.contains(n));
                assert(last == Some(n));
            },
            None => {
                if last is Some {
                    let n = last.unwrap();
                    assert(r.used[b.used.len() as int] == n);
                    assert(!b.used.contains(n));
                }
            },
        }
        assert forall|i: int|
            #![trigger r.names[i]]
            0 <= i < k && r.names[i] is Some implies r.used.contains(r.names[i].unwrap()) by {
            if i < k - 1 {
                assert(r.names[i] == b.names[i]);
                assert(b.used.contains(b.names[i].unwrap()));
            }
        }
        assert forall|i: int|
            #![trigger r.names[i]]
            0 <= i < k implies match kept_name(start, visible, i) {
            Some(n) => r.names[i] == Some(n),
            None => r.names[i] is Some ==> !aside.contains(r.names[i].unwrap())
                && viewers.contains(r.names[i].unwrap()),
        } by {
            if i < k - 1 {
                assert(r.names[i] == b.names[i]);
            }
        }
        assert forall|n: Seq<char>| #[trigger]
            r.used.contains(n) && !aside.contains(n) implies exists|j: int|
            0 <= j < k && #[trigger] r.names[j] == Some(n) by {
            let a = choose|a: int| 0 <= a < r.used.len() && r.used[a] == n;
            if a < b.used.len() {
                assert(b.used[a] == n);
                assert(b.used.contains(n));
                let j = choose|j: int| 0 <= j < k - 1 && #[trigger] b.names[j] == Some(n);
                assert(r.names[j] == Some(n));
            } else {
                assert(r.names[k - 1] == Some(n));
            }
        }
        assert forall|i: int, j: int|
            0 <= i < j < k && (#[trigger] r.names[i]) is Some implies #[trigger] r.names[j]
            != r.names[i] by {
            assert(r.names[i] == b.names[i]);
            if j < k - 1 {
                assert(r.names[j] == b.names[j]);
            } else if r.names[j] == r.names[i] {
                let n = r.names[i].unwrap();
                assert(b.used.contains(n));
                if kept is Some {
                    assert(aside.contains(n));
                    if keeps(start, visible, i) {
                        lemma_keepers_differ(start, visible, i, j);
                    }
                }
            }
        }
    } else {
        assert forall|n: Seq<char>| #[trigger]
            r.used.contains(n) && !aside.contains(n) implies exists|j: int|
            0 <= j < k && #[trigger] r.names[j] == Some(n) by {}
    }
}

/// A name is never shown on two enemies at once.
pub proof fn names_never_repeat(
    start: Ties,
    visible: Seq<u64>,
    viewers: Seq<Seq<char>>,
    now: u64,
    i: int,
    j: int,
)
    requires
        viewers.len() > 0,
        start.cursor >= 0,
        0 <= i < j < visible.len(),
        with_enemies(start, visible, viewers, now).names[i] is Some,
    ensures
        with_enemies(start, visible, viewers, now).names.len() == visible.len(),
        with_enemies(start, visible, viewers, now).names[j] != with_enemies(
            start,
            visible,
            viewers,
            now,
        ).names[i],
{
    lemma_round(start, visible, viewers, now, visible.len() as int);
}

/// The names of the first enemies are not changed by the later ones.
proof fn lemma_prefix(
    start: Ties,
    visible: Seq<u64>,
    viewers: Seq<Seq<char>>,
    now: u64,
    k: int,
    m: int,
)
    requires
        viewers.len() > 0,
        start.cursor >= 0,
        0 <= k <= m <= visible.len(),
    ensures
        with_first(start, visible, viewers, now, k).names == with_first(
            start,
            visible,
            viewers,
            now,
            m,
        ).names.take(k),
    decreases m,
{
    lemma_round(start, visible, viewers, now, m);
    let r = with_first(start, visible, viewers, now, m);
    if k == m {
        assert(r.names.take(k) == r.names);
    } else {
        lemma_prefix(start, visible, viewers, now, k, m - 1);
        lemma_round(start, visible, viewers, now, m - 1);
        let b = with_first(start, visible, viewers, now, m - 1);
        assert(r.names.take(k) == b.names.take(k));
    }
}

/// An enemy stays without a name only where every viewer's name is shown on another enemy
/// of the frame.
pub proof fn unnamed_only_when_all_names_are_shown(
    start: Ties,
    visible: Seq<u64>,
    viewers: Seq<Seq<char>>,
    now: u64,
    i: int,
    v: int,
)
    requires
        viewers.len() > 0,
        start.cursor >= 0,
        0 <= i < visible.len(),
        0 <= v < viewers.len(),
        with_enemies(start, visible, viewers, now).names[i] is None,
    ensures
        exists|j: int|
            0 <= j < visible.len() && #[trigger] with_enemies(
                start,
                visible,
                viewers,
                now,
            ).names[j] == Some(viewers[v]),
{
    let len = visible.len() as int;
    let r = with_first(start, visible, viewers, now, len);
    let n = with_first(start, visible, viewers, now, i + 1);
    let b = with_first(start, visible, viewers, now, i);
    let name = viewers[v];
    lemma_round(start, visible, viewers, now, len);
    lemma_round(start, visible, viewers, now, i + 1);
    lemma_round(start, visible, viewers, now, i);
    lemma_prefix(start, visible, viewers, now, i + 1, len);
    lemma_prefix(start, visible, viewers, now, i, len);
    assert(n.names[i] == r.names[i]);
    assert(n == with_enemy(b, visible[i], kept_name(start, visible, i), viewers, now));
    assert(kept_name(start, visible, i) is None);
    lemma_free_name(viewers, b.used, b.ties.shown, b.ties.cursor);
    assert(b.used.contains(viewers[v]));
    lemma_kept_names(start, visible, len, name);
    if kept_names(start, visible, len).contains(name) {
        let j = choose|j: int| 0 <= j < len && #[trigger] kept_name(start, visible, j) == Some(name);
        assert(r.names[j] == Some(name));
    } else {
        let j = choose|j: int| 0 <= j < i && #[trigger] b.names[j] == Some(name);
        assert(r.names[j] == b.names[j]);
    }
}

/// Only viewers are shown, as long as only viewers were tied before; and whenever the
/// list of viewers has changed that is the case.
pub proof fn only_viewers_are_shown(
    start: Ties,
    visible: Seq<u64>,
    viewers: Seq<Seq<char>>,
    now: u64,
)
    requires
        viewers.len() > 0,
        start.cursor >= 0,
        forall|h: u64| #[trigger]
            start.assigned.contains_key(h) ==> viewers.contains(start.assigned[h].0),
    ensures
        forall|i: int|
            #![trigger with_enemies(start, visible, viewers, now).names[i]]
            0 <= i < visible.len() && with_enemies(start, visible, viewers, now).names[i] is Some
                ==> viewers.contains(
                with_enemies(start, visible, viewers, now).names[i].unwrap(),
            ),
        forall|h: u64| #[trigger]
            with_enemies(start, visible, viewers, now).ties.assigned.contains_key(h)
                ==> viewers.contains(
                with_enemies(start, visible, viewers, now).ties.assigned[h].0,
            ),
{
    let len = visible.len() as int;
    lemma_round(start, visible, viewers, now, len);
    let r = with_first(start, visible, viewers, now, len);
    assert forall|i: int|
        #![trigger r.names[i]]
        0 <= i < len && r.names[i] is Some implies viewers.contains(r.names[i].unwrap()) by {
        assert(start.assigned.contains_key(visible[i]) || kept_name(start, visible, i) is None);
    }
    lemma_only_viewers(start, visible, viewers, now, len);
}

proof fn lemma_only_viewers(
    start: Ties,
    visible: Seq<u64>,
    viewers: Seq<Seq<char>>,
    now: u64,
    k: int,
)
    requires
        viewers.len() > 0,
        start.cursor >= 0,
        0 <= k <= visible.len(),
        forall|h: u64| #[trigger]
            start.assigned.contains_key(h) ==> viewers.contains(start.assigned[h].0),
    ensures
        forall|h: u64| #[trigger]
            with_first(start, visible, viewers, now, k).ties.assigned.contains_key(h)
                ==> viewers.contains(
                with_first(start, visible, viewers, now, k).ties.assigned[h].0,
            ),
    decreases k,
{
    if k > 0 {
        lemma_only_viewers(start, visible, viewers, now, k - 1);
        lemma_round(start, visible, viewers, now, k - 1);
        let b = with_first(start, visible, viewers, now, k - 1);
        lemma_free_name(viewers, b.used, b.ties.shown, b.ties.cursor);
        assert(start.assigned.contains_key(visible[k - 1]) || kept_name(start, visible, k - 1) is None);
    }
}

/// After a change of the list nobody is tied to a viewer who left.
pub proof fn a_viewer_who_left_is_dropped(
    t: Ties,
    viewers: Seq<Seq<char>>,
    generation: u64,
    now: u64,
    h: u64,
)
    requires
        t.seen_gen != generation,
        swept(t, viewers, generation, now).assigned.contains_key(h),
    ensures
        viewers.contains(swept(t, viewers, generation, now).assigned[h].0),
{
}

/// What is tied after the first `k` enemies to one of them: what it shows, and it is the last
/// to show it.
proof fn lemma_tied(
    start: Ties,
    visible: Seq<u64>,
    viewers: Seq<Seq<char>>,
    now: u64,
    i: int,
    k: int,
)
    requires
        viewers.len() > 0,
        start.cursor >= 0,
        once_at(visible, i),
        i < k <= visible.len(),
    ensures
        ({
            let r: Round = with_first(start, visible, viewers, now, k);
            match with_enemies(start, visible, viewers, now).names[i] {
                Some(n) => r.ties.assigned.contains_key(visible[i]) && r.ties.assigned[visible[i]]
                    == (n, now) && r.ties.worn.contains_key(n) && r.ties.worn[n] == visible[i],
                None => !r.ties.assigned.contains_key(visible[i]),
            }
        }),
    decreases k,
{
    let len = visible.len() as int;
    let all = with_first(start, visible, viewers, now, len);
    let r = with_first(start, visible, viewers, now, k);
    let b = with_first(start, visible, viewers, now, k - 1);
    lemma_round(start, visible, viewers, now, len);
    lemma_round(start, visible, viewers, now, k);
    lemma_round(start, visible, viewers, now, k - 1);
    lemma_prefix(start, visible, viewers, now, k, len);
    assert(r == with_enemy(b, visible[k - 1], kept_name(start, visible, k - 1), viewers, now));
    assert(all.names.take(k)[k - 1] == all.names[k - 1]);
    assert(r.names[k - 1] == all.names[k - 1]);
    if k - 1 > i {
        lemma_tied(start, visible, viewers, now, i, k - 1);
        assert(visible[k - 1] != visible[i]);
        if all.names[i] is Some {
            assert(all.names[k - 1] != all.names[i]);
        }
    }
}

/// After a frame an enemy is tied to the name it shows, and is the last to show it.
pub proof fn what_is_shown_is_tied(
    start: Ties,
    visible: Seq<u64>,
    viewers: Seq<Seq<char>>,
    now: u64,
    i: int,
)
    requires
        viewers.len() > 0,
        start.cursor >= 0,
        once_at(visible, i),
    ensures
        ({
            let r: Round = with_enemies(start, visible, viewers, now);
            match r.names[i] {
                Some(n) => wears(r.ties, visible[i]) && r.ties.assigned[visible[i]] == (n, now),
                None => !r.ties.assigned.contains_key(visible[i]),
            }
        }),
{
    lemma_tied(start, visible, viewers, now, i, visible.len() as int);
}

/// The enemy that was the last to show its name shows it again, if it was seen recently and
/// the list of viewers is the same.
pub proof fn who_wears_a_name_keeps_it(
    t: Ties,
    visible: Seq<u64>,
    viewers: Seq<Seq<char>>,
    now: u64,
    i: int,
)
    requires
        viewers.len() > 0,
        t.cursor >= 0,
        once_at(visible, i),
        wears(t, visible[i]),
        now < t.assigned[visible[i]].1 + FORGET_AFTER,
    ensures
        with_enemies(swept(t, viewers, t.seen_gen, now), visible, viewers, now).names[i] == Some(
            t.assigned[visible[i]].0,
        ),
{
    let h = visible[i];
    let n = t.assigned[h].0;
    let s = swept(t, viewers, t.seen_gen, now);
    assert(s.assigned.contains_key(h) && s.assigned[h].0 == n);
    assert(s.worn.contains_key(n) && s.worn[n] == h);
    assert forall|k: int|
        0 <= k < visible.len() && k != i && #[trigger] rivals(s, visible, i, k) implies ahead(
        s,
        visible,
        i,
        k,
    ) by {
        assert(visible[k] != visible[i]);
        assert(!wears(s, visible[k]));
    }
    assert(kept_name(s, visible, i) == Some(n));
    lemma_round(s, visible, viewers, now, visible.len() as int);
    assert(with_enemies(s, visible, viewers, now).names[i] == Some(n));
}

/// Names do not jump between frames: an enemy that showed a name shows it again in the next
/// frame, if it is visible before it is forgotten and the list of viewers is the same,
/// whoever else is visible and in whatever order.
pub proof fn an_enemy_keeps_its_name(
    start: Ties,
    first: Seq<u64>,
    second: Seq<u64>,
    viewers: Seq<Seq<char>>,
    now: u64,
    later: u64,
    i: int,
    j: int,
)
    requires
        viewers.len() > 0,
        start.cursor >= 0,
        once_at(first, i),
        once_at(second, j),
        first[i] == second[j],
        later < now + FORGET_AFTER,
        with_enemies(start, first, viewers, now).names[i] is Some,
    ensures
        with_enemies(
            swept(
                with_enemies(start, first, viewers, now).ties,
                viewers,
                start.seen_gen,
                later,
            ),
            second,
            viewers,
            later,
        ).names[j] == with_enemies(start, first, viewers, now).names[i],
{
    let r = with_enemies(start, first, viewers, now);
    lemma_round(start, first, viewers, now, first.len() as int);
    what_is_shown_is_tied(start, first, viewers, now, i);
    lemma_generation(start, first, viewers, now, first.len() as int);
    who_wears_a_name_keeps_it(r.ties, second, viewers, later, j);
}

proof fn lemma_generation(
    start: Ties,
    visible: Seq<u64>,
    viewers: Seq<Seq<char>>,
    now: u64,
    k: int,
)
    ensures
        with_first(start, visible, viewers, now, k).ties.seen_gen == start.seen_gen,
    decreases k,
{
    if k > 0 {
        lemma_generation(start, visible, viewers, now, k - 1);
    }
}

/// If the same enemies are visible again before they are forgotten, and the list of viewers
/// is the same, each shows what it showed, and those without a name stay without one.
pub proof fn the_same_enemies_keep_their_names(
    start: Ties,
    visible: Seq<u64>,
    viewers: Seq<Seq<char>>,
    now: u64,
    later: u64,
)
    requires
        viewers.len() > 0,
        start.cursor >= 0,
        forall|i: int| 0 <= i < visible.len() ==> #[trigger] once_at(visible, i),
        later < now + FORGET_AFTER,
    ensures
        with_enemies(
            swept(
                with_enemies(start, visible, viewers, now).ties,
                viewers,
                start.seen_gen,
                later,
            ),
            visible,
            viewers,
            later,
        ).names == with_enemies(start, visible, viewers, now).names,
{
    let len = visible.len() as int;
    let first = with_enemies(start, visible, viewers, now);
    let t = swept(first.ties, viewers, start.seen_gen, later);
    let second = with_enemies(t, visible, viewers, later);
    lemma_round(start, visible, viewers, now, len);
    lemma_round(t, visible, viewers, later, len);
    lemma_generation(start, visible, viewers, now, len);
    assert forall|i: int| 0 <= i < len implies #[trigger] second.names[i] == first.names[i] by {
        assert(once_at(visible, i));
        if first.names[i] is Some {
            an_enemy_keeps_its_name(start, visible, visible, viewers, now, later, i, i);
        } else {
            lemma_tied(start, visible, viewers, now, i, len);
            assert(!t.assigned.contains_key(visible[i]));
            if second.names[i] is Some {
                // Every viewer's name is on an enemy that keeps it.
                let n = second.names[i].unwrap();
                assert(kept_name(t, visible, i) is None);
                assert(viewers.contains(n));
                let v = choose|v: int| 0 <= v < viewers.len() && viewers[v] == n;
                unnamed_only_when_all_names_are_shown(start, visible, viewers, now, i, v);
                let j = choose|j: int| 0 <= j < len && #[trigger] first.names[j] == Some(viewers[v]);
                assert(once_at(visible, j));
                an_enemy_keeps_its_name(start, visible, visible, viewers, now, later, j, j);
                assert(second.names[j] == Some(n));
                if i < j {
                    assert(second.names[j] != second.names[i]);
                } else {
                    assert(second.names[i] != second.names[j]);
                }
            }
        }
    }
    assert(second.names =~= first.names);
}

} // verus!
