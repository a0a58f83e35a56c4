//! Sorting by keys. A key is a list of integers; keys are compared from the front,
//! and of two equal keys the one that came first stays first.

use vstd::prelude::*;

verus! {

/// `a` comes before `b`: at the first place where they differ `a` has the smaller
/// number or has ended.
pub open spec fn key_before(a: Seq<i64>, b: Seq<i64>) -> bool
    decreases a.len(),
{
    if b.len() == 0 {
        false
    } else if a.len() == 0 {
        true
    } else if a[0] != b[0] {
        a[0] < b[0]
    } else {
        key_before(a.skip(1), b.skip(1))
    }
}

/// The keys behind a list of vectors.
pub open spec fn keys_of(v: Seq<Vec<i64>>) -> Seq<Seq<i64>> {
    v.map_values(|k: Vec<i64>| k@)
}

/// Item `i` belongs before item `j`: by key, or by place where the keys are equal.
pub open spec fn belongs_before(keys: Seq<Seq<i64>>, i: int, j: int) -> bool {
    key_before(keys[i], keys[j]) || (keys[i] == keys[j] && i < j)
}

/// `p` lists every item once, in the order of their keys.
pub open spec fn is_sorted_order(keys: Seq<Seq<i64>>, p: Seq<usize>) -> bool {
    &&& p.len() == keys.len()
    &&& forall|i: int| 0 <= i < p.len() ==> (#[trigger] p[i]) < keys.len()
    &&& forall|i: int, j: int|
        0 <= i < j < p.len() ==> belongs_before(
            keys,
            #[trigger] p[i] as int,
            #[trigger] p[j] as int,
        )
}

/// The items picked out in the order `p`.
pub open spec fn arranged<T>(s: Seq<T>, p: Seq<usize>) -> Seq<T> {
    Seq::new(p.len(), |i: int| s[p[i] as int])
}

pub proof fn lemma_key_irreflexive(a: Seq<i64>)
    ensures
        !key_before(a, a),
    decreases a.len(),
{
    if a.len() > 0 {
        lemma_key_irreflexive(a.skip(1));
    }
}

pub proof fn lemma_key_transitive(a: Seq<i64>, b: Seq<i64>, c: Seq<i64>)
    requires
        key_before(a, b),
        key_before(b, c),
    ensures
        key_before(a, c),
    decreases a.len(),
{
    if a.len() > 0 && a[0] == b[0] && b[0] == c[0] {
        lemma_key_transitive(a.skip(1), b.skip(1), c.skip(1));
    }
}

pub proof fn lemma_key_total(a: Seq<i64>, b: Seq<i64>)
    ensures
        key_before(a, b) || key_before(b, a) || a == b,
    decreases a.len(),
{
    if a.len() > 0 && b.len() > 0 {
        lemma_key_total(a.skip(1), b.skip(1));
        if a[0] == b[0] && a.skip(1) == b.skip(1) {
            assert(a == seq![a[0]] + a.skip(1));
            assert(b == seq![b[0]] + b.skip(1));
        }
    } else if a.len() == 0 && b.len() == 0 {
        assert(a == b);
    }
}

pub proof fn lemma_key_asymmetric(a: Seq<i64>, b: Seq<i64>)
    requires
        key_before(a, b),
    ensures
        !key_before(b, a),
        a != b,
{
    if key_before(b, a) {
        lemma_key_transitive(a, b, a);
    }
    lemma_key_irreflexive(a);
}

pub proof fn lemma_belongs_transitive(keys: Seq<Seq<i64>>, i: int, j: int, k: int)
    requires
        belongs_before(keys, i, j),
        belongs_before(keys, j, k),
    ensures
        belongs_before(keys, i, k),
{
    if key_before(keys[i], keys[j]) && key_before(keys[j], keys[k]) {
        lemma_key_transitive(keys[i], keys[j], keys[k]);
    }
}

/// Whether `a` comes before `b`.
pub fn comes_before(a: &Vec<i64>, b: &Vec<i64>) -> (r: bool)
    ensures
        r == key_before(a@, b@),
{
    let mut i: usize = 0;
    assert(a@.skip(0) == a@ && b@.skip(0) == b@);
    loop
        invariant
            i <= a.len(),
            i <= b.len(),
            key_before(a@, b@) == key_before(a@.skip(i as int), b@.skip(i as int)),
        decreases a.len() - i,
    {
        if i >= b.len() {
            return false;
        }
        if i >= a.len() {
            return true;
        }
        if a[i] != b[i] {
            return a[i] < b[i];
        }
        assert(a@.skip(i as int).skip(1) == a@.skip(i + 1));
        assert(b@.skip(i as int).skip(1) == b@.skip(i + 1));
        i = i + 1;
    }
}

/// The order in which the items come when sorted by their keys.
pub fn sorted_order(keys: &Vec<Vec<i64>>) -> (p: Vec<usize>)
    ensures
        is_sorted_order(keys_of(keys@), p@),
{
    let mut p: Vec<usize> = Vec::new();
    let ghost ks = keys_of(keys@);
    for i in 0..keys.len()
        invariant
            ks == keys_of(keys@),
            p.len() == i,
            forall|a: int| 0 <= a < p.len() ==> (#[trigger] p@[a]) < i,
            forall|a: int, b: int|
                0 <= a < b < p.len() ==> belongs_before(
                    ks,
                    #[trigger] p@[a] as int,
                    #[trigger] p@[b] as int,
                ),
    {
        let mut at: usize = 0;
        while at < p.len() && !comes_before(&keys[i], &keys[p[at]])
            invariant
                ks == keys_of(keys@),
                i < keys.len(),
                at <= p.len(),
                p.len() == i,
                forall|a: int| 0 <= a < p.len() ==> (#[trigger] p@[a]) < i,
                forall|a: int|
                    0 <= a < at ==> !key_before(ks[i as int], ks[#[trigger] p@[a] as int]),
            decreases p.len() - at,
        {
            at = at + 1;
        }
        let ghost before = p@;
        p.insert(at, i);
        proof {
            assert(p@ == before.insert(at as int, i));
            assert forall|a: int, b: int| 0 <= a < b < p.len() implies belongs_before(
                ks,
                #[trigger] p@[a] as int,
                #[trigger] p@[b] as int,
            ) by {
                if b == at {
                    let x = before[a] as int;
                    lemma_key_total(ks[x], ks[i as int]);
                    assert(!key_before(ks[i as int], ks[x]));
                } else if a == at {
                    let y = before[b - 1] as int;
                    let f = before[at as int] as int;
                    assert(key_before(ks[i as int], ks[f]));
                    if b - 1 > at {
                        assert(belongs_before(ks, before[at as int] as int, before[b - 1] as int));
                        if key_before(ks[f], ks[y]) {
                            lemma_key_transitive(ks[i as int], ks[f], ks[y]);
                        }
                    }
                } else {
                    let x = if a < at { a } else { a - 1 };
                    let y = if b < at { b } else { b - 1 };
                    assert(p@[a] == before[x] && p@[b] == before[y]);
                    assert(belongs_before(ks, before[x] as int, before[y] as int));
                }
            }
            assert forall|a: int| 0 <= a < p.len() implies (#[trigger] p@[a]) < i + 1 by {
                if a < at {
                    assert(p@[a] == before[a]);
                } else if a > at {
                    assert(p@[a] == before[a - 1]);
                }
            }
        }
    }
    p
}

/// Sorting leaves nothing out and takes nothing twice: every item stands at exactly
/// one place of the order.
pub proof fn every_item_is_placed(keys: Seq<Seq<i64>>, p: Seq<usize>, i: int)
    requires
        is_sorted_order(keys, p),
        0 <= i < keys.len(),
    ensures
        exists|a: int| 0 <= a < p.len() && #[trigger] p[a] == i,
        forall|a: int, b: int|
            0 <= a < b < p.len() ==> #[trigger] p[a] != #[trigger] p[b],
{
    assert forall|a: int, b: int| 0 <= a < b < p.len() implies #[trigger] p[a] != #[trigger] p[
        b] by {
        assert(belongs_before(keys, p[a] as int, p[b] as int));
        lemma_key_irreflexive(keys[p[a] as int]);
    }
    let n = keys.len();
    let q = Seq::new(n, |a: int| p[a] as int);
    assert(q.no_duplicates());
    q.unique_seq_to_set();
    let all = vstd::set_lib::set_int_range(0, n as int);
    vstd::set_lib::lemma_int_range(0, n as int);
    assert(q.to_set().subset_of(all)) by {
        assert forall|x: int| q.to_set().contains(x) implies all.contains(x) by {
            let a = choose|a: int| 0 <= a < q.len() && q[a] == x;
            assert(p[a] < keys.len());
        }
    }
    vstd::set_lib::lemma_subset_equality(q.to_set(), all);
    assert(all.contains(i));
    assert(q.contains(i));
    let a = choose|a: int| 0 <= a < q.len() && q[a] == i;
    assert(p[a] == i);
}

/// There is only one sorted order.
pub proof fn sorted_order_is_unique(keys: Seq<Seq<i64>>, p: Seq<usize>, q: Seq<usize>)
    requires
        is_sorted_order(keys, p),
        is_sorted_order(keys, q),
    ensures
        p == q,
{
    if p != q {
        // The first place where they differ.
        let k = first_difference(p, q, 0);
        lemma_first_difference(p, q, 0);
        every_item_is_placed(keys, q, p[k] as int);
        every_item_is_placed(keys, p, q[k] as int);
        let a = choose|a: int| 0 <= a < q.len() && #[trigger] q[a] == p[k];
        let b = choose|b: int| 0 <= b < p.len() && #[trigger] p[b] == q[k];
        if a < k {
            assert(p[a] == q[a]);
            assert(false);
        }
        if b < k {
            assert(q[b] == p[b]);
            assert(false);
        }
        assert(belongs_before(keys, q[k] as int, q[a] as int));
        assert(belongs_before(keys, p[k] as int, p[b] as int));
        lemma_belongs_transitive(keys, p[k] as int, q[k] as int, p[k] as int);
        lemma_key_irreflexive(keys[p[k] as int]);
    }
}

spec fn first_difference(p: Seq<usize>, q: Seq<usize>, from: int) -> int
    decreases p.len() - from,
{
    if from >= p.len() || p[from] != q[from] {
        from
    } else {
        first_difference(p, q, from + 1)
    }
}

proof fn lemma_first_difference(p: Seq<usize>, q: Seq<usize>, from: int)
    requires
        p.len() == q.len(),
        p != q,
        0 <= from <= p.len(),
        forall|i: int| 0 <= i < from ==> p[i] == q[i],
    ensures
        from <= first_difference(p, q, from) < p.len(),
        p[first_difference(p, q, from)] != q[first_difference(p, q, from)],
        forall|i: int| 0 <= i < first_difference(p, q, from) ==> p[i] == q[i],
    decreases p.len() - from,
{
    if from >= p.len() {
        assert(p == q);
    } else if p[from] == q[from] {
        lemma_first_difference(p, q, from + 1);
    }
}

} // verus!
