//! The list of bosses as it is read: the nearest location first, the living before the dead,
//! and nobody left out.

use vstd::prelude::*;
use crate::boss_list::{
    codes, collapsed, is_coded, lemma_namesake_at, map_code, namesake_at, namesakes, nearest_row,
    nearest_told, place_key, place_reach, row_key, row_keys, row_of, row_reach, rows_sorted,
    serves, two_digits, with_namesake, Gap, RowText,
};
use crate::bosses::Boss;
use crate::order::{
    arranged, belongs_before, is_sorted_order, key_before, lemma_key_asymmetric,
    lemma_key_irreflexive,
};
use crate::scalar::Scalar;
use crate::text::{decimal, fields, is_digit, lemma_decimal, lemma_first_at_is};

verus! {

// ---------------------------------------------------------------------------
// The order
// ---------------------------------------------------------------------------

/// Of two keys in order, the first number in which they differ is smaller in the first.
proof fn lemma_numbers_grow(a: Seq<i64>, b: Seq<i64>, n: int)
    requires
        !key_before(b, a),
        0 <= n < a.len(),
        n < b.len(),
        a.take(n) == b.take(n),
    ensures
        a[n] <= b[n],
        a[n] == b[n] ==> !key_before(b.skip(n + 1), a.skip(n + 1)),
    decreases n,
{
    if n > 0 {
        assert(a.take(n)[0] == a[0] && b.take(n)[0] == b[0]);
        assert(a.skip(1).take(n - 1) == a.take(n).skip(1));
        assert(b.skip(1).take(n - 1) == b.take(n).skip(1));
        lemma_numbers_grow(a.skip(1), b.skip(1), n - 1);
        assert(a.skip(1).skip(n) == a.skip(n + 1));
        assert(b.skip(1).skip(n) == b.skip(n + 1));
    }
}

/// The keys of two rows of a sorted list.
proof fn lemma_keys_of(rs: Seq<RowText>, out: Seq<RowText>, i: int, j: int)
    requires
        rows_sorted(rs, out),
        0 <= i < j < out.len(),
    ensures
        !key_before(row_key(rs, out[j]), row_key(rs, out[i])),
{
    let p = choose|p: Seq<usize>|
        is_sorted_order(row_keys(rs), p) && out == #[trigger] arranged(rs, p);
    let keys = row_keys(rs);
    let (x, y) = (p[i] as int, p[j] as int);
    assert(x < keys.len() && y < keys.len());
    assert(belongs_before(keys, p[i] as int, p[j] as int));
    assert(keys[x] == row_key(rs, rs[x]) && keys[y] == row_key(rs, rs[y]));
    assert(out[i] == rs[x] && out[j] == rs[y]);
    if key_before(keys[x], keys[y]) {
        lemma_key_asymmetric(keys[x], keys[y]);
    } else {
        lemma_key_irreflexive(keys[x]);
    }
}

proof fn lemma_place_reach(rs: Seq<RowText>, place: Seq<char>)
    ensures
        !place_reach(rs, place).is_nan(),
        place_reach(rs, place).rank() <= 0x7F7F_FFFF,
        forall|m: int|
            0 <= m < rs.len() && !(#[trigger] rs[m]).killed && rs[m].place == place
                ==> !row_reach(rs[m]).below(place_reach(rs, place)),
        place_reach(rs, place).bits == 0x7F7F_FFFF || exists|m: int|
            0 <= m < rs.len() && !(#[trigger] rs[m]).killed && rs[m].place == place && row_reach(
                rs[m],
            ) == place_reach(rs, place),
    decreases rs.len(),
{
    if rs.len() > 0 {
        let front = rs.drop_last();
        let n: int = rs.len() - 1;
        lemma_place_reach(front, place);
        assert(rs[n] == rs.last());
        assert forall|m: int|
            0 <= m < rs.len() && !(#[trigger] rs[m]).killed && rs[m].place
                == place implies !row_reach(rs[m]).below(place_reach(rs, place)) by {
            if m < n {
                assert(front[m] == rs[m]);
            }
        }
        if exists|m: int|
            0 <= m < front.len() && !(#[trigger] front[m]).killed && front[m].place == place
                && row_reach(front[m]) == place_reach(front, place) {
            let m = choose|m: int|
                0 <= m < front.len() && !(#[trigger] front[m]).killed && front[m].place == place
                    && row_reach(front[m]) == place_reach(front, place);
            assert(rs[m] == front[m]);
        }
    }
}

/// Of two locations with names the one whose nearest living boss is nearer comes first: no
/// living boss of the later one is nearer than every living boss of the earlier one. The dead
/// bring nothing nearer, and a location without the living comes after all that have some whose
/// distance is known.
pub proof fn nearer_locations_come_first(
    rs: Seq<RowText>,
    out: Seq<RowText>,
    i: int,
    j: int,
    m: int,
)
    requires
        rows_sorted(rs, out),
        0 <= i < j < out.len(),
        is_coded(out[i].place) == is_coded(out[j].place),
        0 <= m < rs.len(),
        !rs[m].killed,
        rs[m].place == out[j].place,
        rs[m].gap is Some,
        rs[m].gap.unwrap().reach.below(Scalar { bits: 0x7F7F_FFFF }),
    ensures
        exists|k: int|
            0 <= k < rs.len() && !(#[trigger] rs[k]).killed && rs[k].place == out[i].place
                && rs[k].gap is Some && rs[k].gap.unwrap().reach.at_most(
                rs[m].gap.unwrap().reach,
            ),
{
    let a = row_key(rs, out[i]);
    let b = row_key(rs, out[j]);
    lemma_keys_of(rs, out, i, j);
    assert(a[0] == b[0]);
    assert(a.take(1) == b.take(1));
    lemma_numbers_grow(a, b, 1);
    let x = place_reach(rs, out[i].place);
    let y = place_reach(rs, out[j].place);
    lemma_place_reach(rs, out[i].place);
    lemma_place_reach(rs, out[j].place);
    assert(a[1] == x.rank() as i64 && b[1] == y.rank() as i64);
    assert(!row_reach(rs[m]).below(y));
    assert(x.rank() <= y.rank() <= row_reach(rs[m]).rank());
    assert(x.bits != 0x7F7F_FFFF);
    let k = choose|k: int|
        0 <= k < rs.len() && !(#[trigger] rs[k]).killed && rs[k].place == out[i].place
            && row_reach(rs[k]) == x;
    assert(rs[k].gap is Some);
}

/// Locations with names come before those that are known by the code of their map alone.
pub proof fn named_locations_come_first(rs: Seq<RowText>, out: Seq<RowText>, i: int, j: int)
    requires
        rows_sorted(rs, out),
        0 <= i < j < out.len(),
        is_coded(out[i].place),
    ensures
        is_coded(out[j].place),
{
    let a = row_key(rs, out[i]);
    let b = row_key(rs, out[j]);
    lemma_keys_of(rs, out, i, j);
    assert(a.take(0) == b.take(0));
    lemma_numbers_grow(a, b, 0);
    assert(a[0] == 1 && b[0] == if is_coded(out[j].place) {
        1i64
    } else {
        0i64
    });
}

/// Within a location the living come before the dead; of two who both live or are both dead
/// the one who is nearer along the ground comes first; and those equally near stand by name.
pub proof fn within_a_location(rs: Seq<RowText>, out: Seq<RowText>, i: int, j: int)
    requires
        rows_sorted(rs, out),
        0 <= i < j < out.len(),
        out[i].place == out[j].place,
    ensures
        out[i].killed ==> out[j].killed,
        (out[i].killed == out[j].killed && out[i].gap is Some && out[j].gap is Some)
            ==> !out[j].gap.unwrap().dist.below(out[i].gap.unwrap().dist),
        (out[i].killed == out[j].killed && out[i].gap is None && out[j].gap is Some)
            ==> !out[j].gap.unwrap().dist.below(Scalar { bits: 0x7F7F_FFFF }),
        (out[i].killed == out[j].killed && out[i].gap == out[j].gap) ==> !key_before(
            codes(out[j].name),
            codes(out[i].name),
        ),
{
    let a = row_key(rs, out[i]);
    let b = row_key(rs, out[j]);
    lemma_keys_of(rs, out, i, j);
    let pk = place_key(rs, out[i].place);
    let n: int = pk.len() as int;
    assert(a.take(n) == pk);
    assert(b.take(n) == pk);
    lemma_numbers_grow(a, b, n);
    if out[i].killed == out[j].killed {
        assert(a.take(n + 1) == pk.push(a[n]));
        assert(b.take(n + 1) == pk.push(b[n]));
        lemma_numbers_grow(a, b, n + 1);
        assert(a.skip(n + 2) == codes(out[i].name));
        assert(b.skip(n + 2) == codes(out[j].name));
    }
}

// ---------------------------------------------------------------------------
// Namesakes
// ---------------------------------------------------------------------------

/// How many bosses of one state some rows stand for.
pub open spec fn bosses_in(rs: Seq<RowText>, killed: bool) -> int
    decreases rs.len(),
{
    if rs.len() == 0 {
        0
    } else {
        bosses_in(rs.drop_last(), killed) + if rs.last().killed == killed {
            rs.last().count
        } else {
            0
        }
    }
}

proof fn lemma_bosses_update(rs: Seq<RowText>, k: int, r: RowText, killed: bool)
    requires
        0 <= k < rs.len(),
        r.killed == rs[k].killed,
    ensures
        bosses_in(rs.update(k, r), killed) == bosses_in(rs, killed) + if r.killed == killed {
            r.count - rs[k].count
        } else {
            0
        },
    decreases rs.len(),
{
    let out = rs.update(k, r);
    if k < rs.len() - 1 {
        lemma_bosses_update(rs.drop_last(), k, r, killed);
        assert(out.drop_last() == rs.drop_last().update(k, r));
    } else {
        assert(out.drop_last() == rs.drop_last());
    }
}

/// Showing namesakes as one keeps the progress: as many living and as many dead are counted as
/// there were. Only rows that agree in name, location and state are shown as one, and such rows
/// always are.
pub proof fn merging_keeps_the_progress(rs: Seq<RowText>, killed: bool, a: RowText, b: RowText)
    requires
        forall|i: int| 0 <= i < rs.len() ==> (#[trigger] rs[i]).count == 1,
    ensures
        bosses_in(collapsed(rs), killed) == bosses_in(rs, killed),
        namesakes(a, b) <==> a.name == b.name && a.place == b.place && a.killed == b.killed,
    decreases rs.len(),
{
    if rs.len() > 0 {
        let front = rs.drop_last();
        assert forall|i: int| 0 <= i < front.len() implies (#[trigger] front[i]).count == 1 by {
            assert(front[i] == rs[i]);
        }
        merging_keeps_the_progress(front, killed, a, b);
        let before = collapsed(front);
        let r = rs.last();
        assert(rs[rs.len() - 1].count == 1);
        lemma_namesake_at(before, r);
        let k = namesake_at(before, r);
        if k < before.len() {
            lemma_bosses_update(before, k, with_namesake(before[k], r), killed);
        } else {
            assert(before.push(r).drop_last() == before);
        }
    }
}

/// A row that stands for several is in the player's location if any of them is, and shows
/// where the first of them stands; what else it shows is of the first of them too.
pub proof fn a_merged_row_shows_the_first(rs: Seq<RowText>, i: int)
    requires
        0 <= i < collapsed(rs).len(),
    ensures
        collapsed(rs)[i].here <==> exists|m: int|
            0 <= m < rs.len() && namesakes(#[trigger] rs[m], collapsed(rs)[i]) && rs[m].here,
        exists|m: int|
            {
                &&& 0 <= m < rs.len()
                &&& namesakes(#[trigger] rs[m], collapsed(rs)[i])
                &&& rs[m].map == collapsed(rs)[i].map
                &&& rs[m].pos == collapsed(rs)[i].pos
                &&& rs[m].remembrance == collapsed(rs)[i].remembrance
                &&& forall|k: int| 0 <= k < m ==> !namesakes(#[trigger] rs[k], collapsed(rs)[i])
            },
    decreases rs.len(),
{
    let front = rs.drop_last();
    let n: int = rs.len() - 1;
    let before = collapsed(front);
    let out = collapsed(rs);
    let r = rs.last();
    assert(rs[n] == r);
    lemma_namesake_at(before, r);
    let j = namesake_at(before, r);
    if i < before.len() {
        a_merged_row_shows_the_first(front, i);
        assert(namesakes(out[i], before[i]));
        let m = choose|m: int|
            {
                &&& 0 <= m < front.len()
                &&& namesakes(#[trigger] front[m], before[i])
                &&& front[m].map == before[i].map
                &&& front[m].pos == before[i].pos
                &&& front[m].remembrance == before[i].remembrance
                &&& forall|k: int| 0 <= k < m ==> !namesakes(#[trigger] front[k], before[i])
            };
        assert(rs[m] == front[m]);
        assert forall|k: int| 0 <= k < m implies !namesakes(#[trigger] rs[k], out[i]) by {
            assert(front[k] == rs[k]);
        }
        if i == j {
            if before[i].here {
                let h = choose|h: int|
                    0 <= h < front.len() && namesakes(#[trigger] front[h], before[i])
                        && front[h].here;
                assert(rs[h] == front[h]);
            }
            if r.here {
                assert(namesakes(rs[n], out[i]));
            }
            if exists|h: int| 0 <= h < rs.len() && namesakes(#[trigger] rs[h], out[i]) && rs[h].here {
                let h = choose|h: int|
                    0 <= h < rs.len() && namesakes(#[trigger] rs[h], out[i]) && rs[h].here;
                if h < n {
                    assert(front[h] == rs[h]);
                }
            }
        } else {
            assert(out[i] == before[i]);
            assert(!namesakes(r, out[i])) by {
                if namesakes(r, out[i]) {
                    crate::boss_list::namesakes_are_shown_as_one(front);
                    if j < before.len() {
                        if i < j {
                            assert(!namesakes(before[i], before[j]));
                        } else {
                            assert(!namesakes(before[j], before[i]));
                        }
                    } else {
                        assert(!namesakes(before[i], r));
                    }
                }
            }
            if before[i].here {
                let h = choose|h: int|
                    0 <= h < front.len() && namesakes(#[trigger] front[h], before[i])
                        && front[h].here;
                assert(rs[h] == front[h]);
            }
            if exists|h: int| 0 <= h < rs.len() && namesakes(#[trigger] rs[h], out[i]) && rs[h].here {
                let h = choose|h: int|
                    0 <= h < rs.len() && namesakes(#[trigger] rs[h], out[i]) && rs[h].here;
                assert(h < n);
                assert(front[h] == rs[h]);
            }
        }
    } else {
        assert(out[i] == r);
        assert forall|k: int| 0 <= k < n implies !namesakes(#[trigger] rs[k], out[i]) by {
            crate::boss_list::namesakes_are_shown_as_one(front);
            assert(front[k] == rs[k]);
            let b = choose|b: int|
                0 <= b < before.len() && namesakes(front[k], #[trigger] before[b]);
            assert(!namesakes(before[b], r));
        }
        assert(namesakes(rs[n], out[i]));
    }
}

// ---------------------------------------------------------------------------
// The rows
// ---------------------------------------------------------------------------

proof fn lemma_no_dash(n: nat)
    ensures
        forall|i: int| 0 <= i < decimal(n).len() ==> #[trigger] decimal(n)[i] != '_',
        forall|i: int| 0 <= i < two_digits(n).len() ==> #[trigger] two_digits(n)[i] != '_',
        two_digits(n).len() >= 2,
        decimal(n).len() > 0,
{
    lemma_decimal(n);
    assert forall|i: int| 0 <= i < decimal(n).len() implies #[trigger] decimal(n)[i] != '_' by {
        assert(is_digit(decimal(n)[i]));
    }
    if n < 10 {
        assert forall|i: int| 0 <= i < two_digits(n).len() implies #[trigger] two_digits(n)[i]
            != '_' by {
            if i > 0 {
                assert(two_digits(n)[i] == decimal(n)[i - 1]);
            }
        }
    } else {
        lemma_decimal(n / 10);
    }
}

/// Every row is of its boss: their name, or else the word for one; their location, or else the
/// code of their map, which is known as such by its letter and its three parts; whether they
/// are dead, and whether a remembrance is theirs. It is here if the player is in the same named
/// location, or if the boss is within the radius, height included.
pub proof fn a_row_tells_of_its_boss(
    b: Boss,
    gap: Option<Gap>,
    killed: bool,
    my_place: Option<Seq<char>>,
    radius: Scalar,
    word: Seq<char>,
)
    ensures
        ({
            let r = row_of(b, gap, killed, my_place, radius, word);
            &&& r.killed == killed
            &&& r.gap == gap
            &&& r.count == 1
            &&& r.remembrance == b.remembrance
            &&& r.map == b.map && r.pos == b.pos
            &&& b.name is Some ==> r.name == b.name.unwrap()@
            &&& b.name is None ==> r.name == word
            &&& b.place is Some ==> r.place == b.place.unwrap()@
            &&& b.place is None ==> r.place == map_code(b.map) && is_coded(r.place) && r.place[0]
                == 'm'
            &&& (gap is Some && gap.unwrap().reach.at_most(radius)) ==> r.here
            &&& (b.place is Some && my_place == Some(b.place.unwrap()@)) ==> r.here
            &&& ((gap is None || radius.below(gap.unwrap().reach)) && (my_place is None || b.place is None
                || my_place != Some(b.place.unwrap()@))) ==> !r.here
        }),
{
    let c = b.map;
    let x = decimal(c.0 as nat);
    let y = two_digits(c.1 as nat);
    let z = two_digits(c.2 as nat);
    lemma_no_dash(c.0 as nat);
    lemma_no_dash(c.1 as nat);
    lemma_no_dash(c.2 as nat);
    let s = map_code(c);
    assert(s == seq!['m'] + x + seq!['_'] + y + seq!['_'] + z);
    let p: int = 1 + x.len() as int;
    assert(s[p] == '_');
    assert forall|i: int| 0 <= i < p implies s[i] != '_' by {
        if i > 0 {
            assert(s[i] == x[i - 1]);
        }
    }
    lemma_first_at_is(s, '_', p);
    let t = s.skip(p + 1);
    assert(t == y + seq!['_'] + z);
    let q: int = y.len() as int;
    assert(t[q] == '_');
    assert forall|i: int| 0 <= i < q implies t[i] != '_' by {
        assert(t[i] == y[i]);
    }
    lemma_first_at_is(t, '_', q);
    let u = t.skip(q + 1);
    assert(u == z);
    lemma_first_at_is(u, '_', u.len() as int);
    assert(fields(u, '_') == seq![u]);
    assert(fields(t, '_') == seq![t.take(q)] + fields(u, '_'));
    assert(fields(s, '_') == seq![s.take(p)] + fields(t, '_'));
    assert(s[0] == 'm');
}

/// A list serves for a second, and only for the radius that it was made for.
pub proof fn a_list_serves_for_a_second(
    at: Option<u64>,
    made_for: Scalar,
    now: u64,
    radius: Scalar,
)
    ensures
        at is None ==> !serves(at, made_for, now, radius),
        (at is Some && now >= at.unwrap() + 1_000_000_000) ==> !serves(at, made_for, now, radius),
        (made_for.below(radius) || radius.below(made_for)) ==> !serves(at, made_for, now, radius),
        (at is Some && now < at.unwrap() + 1_000_000_000 && made_for == radius && !radius.is_nan())
            ==> serves(at, made_for, now, radius),
{
}

// ---------------------------------------------------------------------------
// The nearest
// ---------------------------------------------------------------------------

/// The boss that the panel points to lives, is within the radius, and nobody who is is nearer;
/// of those equally near it is the first of the list. It is told by name, with how far along
/// the ground and how far up or down. Nobody is told of only if nobody living is within the
/// radius.
pub proof fn the_nearest_boss(rs: Seq<RowText>, radius: Scalar)
    ensures
        match nearest_told(rs, radius) {
            Some((name, dist, dy)) => exists|k: int|
                {
                    &&& 0 <= k < rs.len()
                    &&& !(#[trigger] rs[k]).killed
                    &&& rs[k].name == name
                    &&& rs[k].gap is Some
                    &&& rs[k].gap.unwrap().dist == dist
                    &&& rs[k].gap.unwrap().dy == dy
                    &&& rs[k].gap.unwrap().reach.at_most(radius)
                    &&& forall|i: int|
                        0 <= i < rs.len() && !(#[trigger] rs[i]).killed && rs[i].gap is Some ==> {
                            &&& !rs[i].gap.unwrap().reach.below(rs[k].gap.unwrap().reach)
                            &&& i < k ==> !rs[i].gap.unwrap().reach.at_most(
                                rs[k].gap.unwrap().reach,
                            )
                        }
                },
            None => forall|i: int|
                0 <= i < rs.len() && !(#[trigger] rs[i]).killed && rs[i].gap is Some
                    ==> !rs[i].gap.unwrap().reach.at_most(radius),
        },
{
    lemma_nearest(rs, radius, rs.len() as int);
    match nearest_row(rs, radius, rs.len() as int) {
        Some(k) => {
            assert(!rs[k].killed);
        },
        None => {},
    }
}

proof fn lemma_nearest(rs: Seq<RowText>, radius: Scalar, n: int)
    requires
        0 <= n <= rs.len(),
    ensures
        match nearest_row(rs, radius, n) {
            Some(k) => {
                &&& 0 <= k < n
                &&& !rs[k].killed
                &&& rs[k].gap is Some
                &&& rs[k].gap.unwrap().reach.at_most(radius)
                &&& forall|i: int|
                    0 <= i < n && !(#[trigger] rs[i]).killed && rs[i].gap is Some ==> {
                        &&& !rs[i].gap.unwrap().reach.below(rs[k].gap.unwrap().reach)
                        &&& i < k ==> !rs[i].gap.unwrap().reach.at_most(
                            rs[k].gap.unwrap().reach,
                        )
                    }
            },
            None => forall|i: int|
                0 <= i < n && !(#[trigger] rs[i]).killed && rs[i].gap is Some
                    ==> !rs[i].gap.unwrap().reach.at_most(radius),
        },
    decreases n,
{
    if n > 0 {
        lemma_nearest(rs, radius, n - 1);
    }
}

} // verus!
