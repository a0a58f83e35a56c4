//! The list of bosses on the screen: its rows, their order, and the nearest of them.

use vstd::prelude::*;
use crate::bosses::{opt_text, Boss, Cell, Point};
use crate::order::{
    arranged, belongs_before, is_sorted_order, key_before, keys_of, lemma_key_irreflexive,
    sorted_order,
};
use crate::scalar::Scalar;
use crate::text::{append, chars_of, decimal, decimal_of, fields, same, split_fields, starts_with, string_of};

verus! {

/// How often the list is made anew, in nanoseconds: its flags change every few minutes.
pub const POLL: u64 = 1_000_000_000;

/// The encoding of the greatest finite number, which stands for "nobody knows how far".
pub const FARTHEST: u32 = 0x7F7F_FFFF;

/// How far a boss is from the player: along the ground, up or down, and both together.
#[derive(Clone, Copy, Debug, PartialEq, Eq, Structural)]
pub struct Gap {
    pub dist: Scalar,
    pub dy: Scalar,
    pub reach: Scalar,
}

/// A row of the list.
pub struct Row {
    pub name: String,
    pub place: String,
    /// How far he is, where that can be compared at all.
    pub gap: Option<Gap>,
    /// In the player's location, or simply near.
    pub here: bool,
    pub killed: bool,
    /// A remembrance is given for him.
    pub remembrance: bool,
    /// How many like him there are in this location.
    pub count: usize,
    /// Where he stands, so that the distance can be computed again.
    pub map: Cell,
    pub pos: Point,
}

/// A row by its texts.
pub struct RowText {
    pub name: Seq<char>,
    pub place: Seq<char>,
    pub gap: Option<Gap>,
    pub here: bool,
    pub killed: bool,
    pub remembrance: bool,
    pub count: int,
    pub map: Cell,
    pub pos: Point,
}

impl Row {
    pub open spec fn text(self) -> RowText {
        RowText {
            name: self.name@,
            place: self.place@,
            gap: self.gap,
            here: self.here,
            killed: self.killed,
            remembrance: self.remembrance,
            count: self.count as int,
            map: self.map,
            pos: self.pos,
        }
    }

    /// The same row again.
    pub fn copy(&self) -> (r: Row)
        ensures
            r.text() == self.text(),
    {
        Row {
            name: self.name.clone(),
            place: self.place.clone(),
            gap: self.gap,
            here: self.here,
            killed: self.killed,
            remembrance: self.remembrance,
            count: self.count,
            map: self.map,
            pos: self.pos,
        }
    }
}

pub open spec fn row_texts(v: Seq<Row>) -> Seq<RowText> {
    v.map_values(|r: Row| r.text())
}

// ---------------------------------------------------------------------------
// Making the rows
// ---------------------------------------------------------------------------

/// A number with at least two digits.
pub open spec fn two_digits(n: nat) -> Seq<char> {
    if n < 10 {
        seq!['0'] + decimal(n)
    } else {
        decimal(n)
    }
}

/// The code of a map, such as `m30_17_00`.
pub open spec fn map_code(c: Cell) -> Seq<char> {
    seq!['m'] + decimal(c.0 as nat) + seq!['_'] + two_digits(c.1 as nat) + seq!['_'] + two_digits(
        c.2 as nat,
    )
}

/// The row of a boss. A boss without a name is called by `word`, a location without
/// one by the code of its map.
pub open spec fn row_of(
    b: Boss,
    gap: Option<Gap>,
    killed: bool,
    my_place: Option<Seq<char>>,
    radius: Scalar,
    word: Seq<char>,
) -> RowText {
    RowText {
        name: match opt_text(b.name) {
            Some(n) => n,
            None => word,
        },
        place: match opt_text(b.place) {
            Some(p) => p,
            None => map_code(b.map),
        },
        gap,
        here: (my_place is Some && my_place == opt_text(b.place)) || (gap is Some
            && gap.unwrap().reach.at_most(radius)),
        killed,
        remembrance: b.remembrance,
        count: 1,
        map: b.map,
        pos: b.pos,
    }
}

pub open spec fn all_rows(
    bs: Seq<Boss>,
    gaps: Seq<Option<Gap>>,
    killed: Seq<bool>,
    my_place: Option<Seq<char>>,
    radius: Scalar,
    word: Seq<char>,
) -> Seq<RowText> {
    Seq::new(bs.len(), |i: int| row_of(bs[i], gaps[i], killed[i], my_place, radius, word))
}

/// A number with at least two digits.
pub fn padded(n: u64) -> (r: Vec<char>)
    ensures
        r@ == two_digits(n as nat),
{
    let mut r: Vec<char> = Vec::new();
    if n < 10 {
        r.push('0');
    }
    append(&mut r, &decimal_of(n));
    assert(r@ == two_digits(n as nat));
    r
}

/// The code of a map, such as `m30_17_00`.
pub fn code_of(c: Cell) -> (r: String)
    ensures
        r@ == map_code(c),
{
    let mut r: Vec<char> = Vec::new();
    r.push('m');
    append(&mut r, &decimal_of(c.0 as u64));
    r.push('_');
    append(&mut r, &padded(c.1 as u64));
    r.push('_');
    append(&mut r, &padded(c.2 as u64));
    assert(r@ == map_code(c));
    string_of(&r)
}

fn make_row(
    b: &Boss,
    gap: Option<Gap>,
    killed: bool,
    my_place: &Option<String>,
    radius: Scalar,
    word: &str,
) -> (r: Row)
    ensures
        r.text() == row_of(*b, gap, killed, opt_text(*my_place), radius, word@),
{
    let same_place: bool = match (my_place, &b.place) {
        (Some(a), Some(c)) => same(&chars_of(a), c),
        _ => false,
    };
    let near: bool = match gap {
        Some(g) => g.reach.le(radius),
        None => false,
    };
    Row {
        name: match &b.name {
            Some(n) => n.clone(),
            None => word.to_string(),
        },
        place: match &b.place {
            Some(p) => p.clone(),
            None => code_of(b.map),
        },
        gap,
        here: same_place || near,
        killed,
        remembrance: b.remembrance,
        count: 1,
        map: b.map,
        pos: b.pos,
    }
}

// ---------------------------------------------------------------------------
// The order of the rows
// ---------------------------------------------------------------------------

/// Whether a location is only the code of a map.
pub open spec fn is_coded(place: Seq<char>) -> bool {
    starts_with(place, 'm') && fields(place, '_').len() == 3
}

pub fn coded(place: &str) -> (r: bool)
    ensures
        r == is_coded(place@),
{
    let v: Vec<char> = chars_of(place);
    let parts: Vec<Vec<char>> = split_fields(&v, '_');
    proof {
        assert(crate::text::runs(parts@).len() == parts.len());
    }
    v.len() > 0 && v[0] == 'm' && parts.len() == 3
}

/// How far a row is, height included, or the farthest there is if nobody knows.
pub open spec fn row_reach(r: RowText) -> Scalar {
    match r.gap {
        Some(g) => g.reach,
        None => Scalar { bits: FARTHEST },
    }
}

/// How near a location is: the least distance to a living boss there.
pub open spec fn place_reach(rs: Seq<RowText>, place: Seq<char>) -> Scalar
    decreases rs.len(),
{
    if rs.len() == 0 {
        Scalar { bits: FARTHEST }
    } else {
        let before: Scalar = place_reach(rs.drop_last(), place);
        let r: RowText = rs.last();
        if !r.killed && r.place == place && row_reach(r).below(before) {
            row_reach(r)
        } else {
            before
        }
    }
}

/// A text as numbers that order it.
pub open spec fn codes(s: Seq<char>) -> Seq<i64> {
    s.map_values(|c: char| c as u32 as i64)
}

/// What orders the rows by location: those that are only codes last, then the nearest
/// first, then by name.
pub open spec fn place_key(rs: Seq<RowText>, place: Seq<char>) -> Seq<i64> {
    seq![
        if is_coded(place) {
            1i64
        } else {
            0i64
        },
        place_reach(rs, place).rank() as i64,
    ] + codes(place) + seq![-1i64]
}

/// What orders the rows: the location, and within it the living first, then the
/// nearest along the ground, then by name.
pub open spec fn row_key(rs: Seq<RowText>, r: RowText) -> Seq<i64> {
    place_key(rs, r.place) + seq![
        if r.killed {
            1i64
        } else {
            0i64
        },
        (match r.gap {
            Some(g) => g.dist,
            None => Scalar { bits: FARTHEST },
        }).rank() as i64,
    ] + codes(r.name)
}

pub open spec fn row_keys(rs: Seq<RowText>) -> Seq<Seq<i64>> {
    rs.map_values(|r: RowText| row_key(rs, r))
}

/// `out` are the rows `rs` in their order.
pub open spec fn rows_sorted(rs: Seq<RowText>, out: Seq<RowText>) -> bool {
    exists|p: Seq<usize>| is_sorted_order(row_keys(rs), p) && out == #[trigger] arranged(rs, p)
}

fn append_codes(v: &mut Vec<i64>, s: &str)
    ensures
        final(v)@ == old(v)@ + codes(s@),
{
    let w: Vec<char> = chars_of(s);
    for i in 0..w.len()
        invariant
            w@ == s@,
            v@ == old(v)@ + codes(s@.take(i as int)),
    {
        v.push(w[i] as u32 as i64);
        assert(codes(s@.take(i + 1)) == codes(s@.take(i as int)).push(s@[i as int] as u32 as i64));
        assert(old(v)@ + codes(s@.take(i + 1)) == (old(v)@ + codes(s@.take(i as int))).push(
            s@[i as int] as u32 as i64,
        ));
    }
    assert(s@.take(s@.len() as int) == s@);
}

fn reach_of(r: &Row) -> (x: Scalar)
    ensures
        x == row_reach(r.text()),
{
    match r.gap {
        Some(g) => g.reach,
        None => Scalar { bits: FARTHEST },
    }
}

fn reach_of_place(rows: &Vec<Row>, place: &str) -> (x: Scalar)
    ensures
        x == place_reach(row_texts(rows@), place@),
{
    let wanted: Vec<char> = chars_of(place);
    let mut x: Scalar = Scalar { bits: FARTHEST };
    let ghost rs = row_texts(rows@);
    for i in 0..rows.len()
        invariant
            rs == row_texts(rows@),
            wanted@ == place@,
            x == place_reach(rs.take(i as int), place@),
    {
        assert(rs.take(i + 1).drop_last() == rs.take(i as int));
        assert(rs.take(i + 1).last() == rows@[i as int].text());
        if !rows[i].killed && same(&wanted, &rows[i].place) {
            let y: Scalar = reach_of(&rows[i]);
            if y.lt(x) {
                x = y;
            }
        }
    }
    assert(rs.take(rs.len() as int) == rs);
    x
}

fn key_of_row(rows: &Vec<Row>, i: usize) -> (k: Vec<i64>)
    requires
        i < rows.len(),
    ensures
        k@ == row_key(row_texts(rows@), rows@[i as int].text()),
{
    let r: &Row = &rows[i];
    let mut k: Vec<i64> = Vec::new();
    if coded(&r.place) {
        k.push(1);
    } else {
        k.push(0);
    }
    k.push(reach_of_place(rows, &r.place).order());
    append_codes(&mut k, &r.place);
    k.push(-1);
    assert(k@ == place_key(row_texts(rows@), r.place@));
    if r.killed {
        k.push(1);
    } else {
        k.push(0);
    }
    let d: Scalar = match r.gap {
        Some(g) => g.dist,
        None => Scalar { bits: FARTHEST },
    };
    k.push(d.order());
    append_codes(&mut k, &r.name);
    assert(k@ == row_key(row_texts(rows@), r.text()));
    k
}

/// Puts the rows in their order: by location, and within it the living, the near and
/// then the alphabet. A location is never torn apart.
pub fn sort_rows(rows: &mut Vec<Row>)
    ensures
        rows_sorted(row_texts(old(rows)@), row_texts(final(rows)@)),
{
    let ghost rs = row_texts(rows@);
    let mut keys: Vec<Vec<i64>> = Vec::new();
    for i in 0..rows.len()
        invariant
            rs == row_texts(rows@),
            keys.len() == i,
            forall|j: int| 0 <= j < i ==> (#[trigger] keys@[j])@ == row_key(rs, rs[j]),
    {
        keys.push(key_of_row(rows, i));
    }
    assert(keys_of(keys@) == row_keys(rs));
    let p: Vec<usize> = sorted_order(&keys);
    let mut out: Vec<Row> = Vec::new();
    for i in 0..p.len()
        invariant
            rs == row_texts(rows@),
            p.len() == rows.len(),
            is_sorted_order(row_keys(rs), p@),
            out.len() == i,
            forall|j: int| 0 <= j < i ==> (#[trigger] out@[j]).text() == rs[p@[j] as int],
    {
        assert(p@[i as int] < row_keys(rs).len());
        out.push(rows[p[i]].copy());
    }
    assert(row_texts(out@) == arranged(rs, p@));
    *rows = out;
}

proof fn lemma_shared_prefix(a: Seq<i64>, b: Seq<i64>, c: Seq<i64>, n: int)
    requires
        0 <= n <= a.len(),
        n <= c.len(),
        a.take(n) == c.take(n),
        !key_before(b, a),
        !key_before(c, b),
    ensures
        n <= b.len(),
        b.take(n) == a.take(n),
    decreases n,
{
    if n > 0 {
        assert(a.take(n)[0] == a[0] && c.take(n)[0] == c[0]);
        assert(b.len() > 0);
        assert(b[0] == a[0]);
        assert(a.skip(1).take(n - 1) == a.take(n).skip(1));
        assert(c.skip(1).take(n - 1) == c.take(n).skip(1));
        lemma_shared_prefix(a.skip(1), b.skip(1), c.skip(1), n - 1);
        assert(b.take(n) == seq![b[0]] + b.skip(1).take(n - 1));
        assert(a.take(n) == seq![a[0]] + a.skip(1).take(n - 1));
    }
}

/// Characters with the same number are the same.
pub proof fn lemma_char_number(c: char, d: char)
    ensures
        c as u32 as i64 == d as u32 as i64 ==> c == d,
{
}

/// A key that begins with the key of a location belongs to a row of that location.
proof fn lemma_place_of_key(rs: Seq<RowText>, a: RowText, b: RowText)
    requires
        place_key(rs, a.place).len() <= row_key(rs, b).len(),
        row_key(rs, b).take(place_key(rs, a.place).len() as int) == place_key(rs, a.place),
    ensures
        a.place == b.place,
{
    let x = place_key(rs, a.place);
    let y = row_key(rs, b);
    let n: int = a.place.len() as int;
    let m: int = b.place.len() as int;
    assert forall|i: int| 0 <= i < x.len() implies x[i] == y[i] by {
        assert(y.take(x.len() as int)[i] == y[i]);
    }
    assert(x[n + 2] == -1);
    assert(y[m + 2] == -1);
    if n < m {
        assert(y[n + 2] == codes(b.place)[n]);
        assert(y[n + 2] >= 0);
    } else if m < n {
        assert(x[m + 2] == codes(a.place)[m]);
        assert(x[m + 2] >= 0);
    }
    assert forall|i: int| 0 <= i < n implies a.place[i] == b.place[i] by {
        assert(x[i + 2] == codes(a.place)[i]);
        assert(y[i + 2] == codes(b.place)[i]);
        let (c, d) = (a.place[i], b.place[i]);
        lemma_char_number(c, d);
        assert(c as u32 as i64 == d as u32 as i64);
        assert(c as u32 == d as u32);
    }
    assert(a.place == b.place);
}

/// A location is never torn apart: between two rows of one location there are only
/// rows of that location.
pub proof fn a_place_never_appears_twice(
    rs: Seq<RowText>,
    out: Seq<RowText>,
    i: int,
    j: int,
    k: int,
)
    requires
        rows_sorted(rs, out),
        0 <= i < j < k < out.len(),
        out[i].place == out[k].place,
    ensures
        out[j].place == out[i].place,
{
    let p = choose|p: Seq<usize>|
        is_sorted_order(row_keys(rs), p) && out == #[trigger] arranged(rs, p);
    let keys = row_keys(rs);
    let (x, y, z) = (p[i] as int, p[j] as int, p[k] as int);
    assert(x < keys.len() && y < keys.len() && z < keys.len());
    assert(belongs_before(keys, p[i] as int, p[j] as int));
    assert(belongs_before(keys, p[j] as int, p[k] as int));
    let a = row_key(rs, rs[x]);
    let b = row_key(rs, rs[y]);
    let c = row_key(rs, rs[z]);
    assert(keys[x] == a && keys[y] == b && keys[z] == c);
    if key_before(a, b) {
        crate::order::lemma_key_asymmetric(a, b);
    } else {
        lemma_key_irreflexive(a);
    }
    if key_before(b, c) {
        crate::order::lemma_key_asymmetric(b, c);
    } else {
        lemma_key_irreflexive(b);
    }
    let pk = place_key(rs, rs[x].place);
    let n: int = pk.len() as int;
    assert(a.take(n) == pk);
    assert(c.take(n) == pk);
    lemma_shared_prefix(a, b, c, n);
    lemma_place_of_key(rs, rs[x], rs[y]);
}

/// Locations that are only codes come after all those with a name.
pub proof fn coded_places_come_last(rs: Seq<RowText>, out: Seq<RowText>, i: int, j: int)
    requires
        rows_sorted(rs, out),
        0 <= i < j < out.len(),
        is_coded(out[i].place),
    ensures
        is_coded(out[j].place),
{
    let p = choose|p: Seq<usize>|
        is_sorted_order(row_keys(rs), p) && out == #[trigger] arranged(rs, p);
    let keys = row_keys(rs);
    let (x, y) = (p[i] as int, p[j] as int);
    assert(x < keys.len() && y < keys.len());
    assert(belongs_before(keys, p[i] as int, p[j] as int));
    let a = row_key(rs, rs[x]);
    let b = row_key(rs, rs[y]);
    assert(keys[x] == a && keys[y] == b);
    assert(a[0] == 1);
    assert(b[0] == if is_coded(rs[y].place) { 1i64 } else { 0i64 });
}

/// Sorting keeps the rows: every row of the one list stands in the other.
pub proof fn sorting_keeps_every_row(rs: Seq<RowText>, out: Seq<RowText>, i: int)
    requires
        rows_sorted(rs, out),
        0 <= i < rs.len(),
    ensures
        out.len() == rs.len(),
        exists|a: int| 0 <= a < out.len() && #[trigger] out[a] == rs[i],
{
    let p = choose|p: Seq<usize>|
        is_sorted_order(row_keys(rs), p) && out == #[trigger] arranged(rs, p);
    crate::order::every_item_is_placed(row_keys(rs), p, i);
    let a = choose|a: int| 0 <= a < p.len() && #[trigger] p[a] == i;
    assert(out[a] == rs[i]);
}

// ---------------------------------------------------------------------------
// Namesakes
// ---------------------------------------------------------------------------

/// Two rows that are shown as one: the same name in the same location, both living or
/// both dead.
pub open spec fn namesakes(a: RowText, b: RowText) -> bool {
    a.name == b.name && a.place == b.place && a.killed == b.killed
}

/// A row with a namesake: one more, as near as the nearer of them.
pub open spec fn with_namesake(a: RowText, b: RowText) -> RowText {
    RowText {
        gap: if row_reach(b).below(row_reach(a)) {
            b.gap
        } else {
            a.gap
        },
        here: a.here || b.here,
        count: a.count + 1,
        ..a
    }
}

/// Where the first namesake of a row stands, or the number of rows.
pub open spec fn namesake_at(rs: Seq<RowText>, r: RowText) -> int
    decreases rs.len(),
{
    if rs.len() == 0 || namesakes(rs[0], r) {
        0
    } else {
        1 + namesake_at(rs.skip(1), r)
    }
}

/// The rows with namesakes shown as one, where the first of them stood.
pub open spec fn collapsed(rs: Seq<RowText>) -> Seq<RowText>
    decreases rs.len(),
{
    if rs.len() == 0 {
        Seq::empty()
    } else {
        let before: Seq<RowText> = collapsed(rs.drop_last());
        let k: int = namesake_at(before, rs.last());
        if k < before.len() {
            before.update(k, with_namesake(before[k], rs.last()))
        } else {
            before.push(rs.last())
        }
    }
}

/// How many bosses some rows stand for.
pub open spec fn total_count(rs: Seq<RowText>) -> int
    decreases rs.len(),
{
    if rs.len() == 0 {
        0
    } else {
        total_count(rs.drop_last()) + rs.last().count
    }
}

/// How many of the rows are namesakes of one.
pub open spec fn group_size(rs: Seq<RowText>, r: RowText) -> nat
    decreases rs.len(),
{
    if rs.len() == 0 {
        0
    } else {
        group_size(rs.drop_last(), r) + if namesakes(rs.last(), r) {
            1nat
        } else {
            0nat
        }
    }
}

/// A row is as near as the nearest of its namesakes: it has the distances of one of them, and
/// none is nearer.
#[verifier::opaque]
pub open spec fn as_near_as_any(rs: Seq<RowText>, r: RowText) -> bool {
    &&& exists|m: int| 0 <= m < rs.len() && namesakes(#[trigger] rs[m], r) && rs[m].gap == r.gap
    &&& forall|m: int|
        0 <= m < rs.len() && namesakes(#[trigger] rs[m], r) ==> !row_reach(rs[m]).below(row_reach(r))
}

/// Every row stands for one boss.
pub open spec fn one_each(rs: Seq<RowText>) -> bool {
    forall|i: int| 0 <= i < rs.len() ==> (#[trigger] rs[i]).count == 1
}

/// `out` are the rows `rs` with all namesakes of a location shown as one.
pub open spec fn is_merged(rs: Seq<RowText>, out: Seq<RowText>) -> bool {
    // No two rows are namesakes.
    &&& forall|i: int, j: int|
        0 <= i < j < out.len() ==> !namesakes(#[trigger] out[i], #[trigger] out[j])
    // Every row of before has its namesake.
    &&& forall|m: int|
        0 <= m < rs.len() ==> exists|i: int|
            0 <= i < out.len() && namesakes(#[trigger] rs[m], #[trigger] out[i])
    // And each is as near as the nearest of them and counts them all.
    &&& forall|i: int| 0 <= i < out.len() ==> as_near_as_any(rs, #[trigger] out[i])
    &&& one_each(rs) ==> forall|i: int|
        0 <= i < out.len() ==> (#[trigger] out[i]).count == group_size(rs, out[i])
}

pub proof fn lemma_namesake_at(rs: Seq<RowText>, r: RowText)
    ensures
        0 <= namesake_at(rs, r) <= rs.len(),
        namesake_at(rs, r) < rs.len() ==> namesakes(rs[namesake_at(rs, r)], r),
        forall|i: int| 0 <= i < namesake_at(rs, r) ==> !namesakes(#[trigger] rs[i], r),
    decreases rs.len(),
{
    if rs.len() > 0 && !namesakes(rs[0], r) {
        lemma_namesake_at(rs.skip(1), r);
        assert forall|i: int| 0 <= i < namesake_at(rs, r) implies !namesakes(
            #[trigger] rs[i],
            r,
        ) by {
            if i > 0 {
                assert(rs[i] == rs.skip(1)[i - 1]);
            }
        }
    }
}

proof fn lemma_group_size(rs: Seq<RowText>, a: RowText, b: RowText)
    requires
        namesakes(a, b),
    ensures
        group_size(rs, a) == group_size(rs, b),
    decreases rs.len(),
{
    if rs.len() > 0 {
        lemma_group_size(rs.drop_last(), a, b);
    }
}

proof fn lemma_no_group(rs: Seq<RowText>, r: RowText)
    requires
        forall|m: int| 0 <= m < rs.len() ==> !namesakes(#[trigger] rs[m], r),
    ensures
        group_size(rs, r) == 0,
    decreases rs.len(),
{
    if rs.len() > 0 {
        let front = rs.drop_last();
        assert forall|m: int| 0 <= m < front.len() implies !namesakes(#[trigger] front[m], r) by {
            assert(front[m] == rs[m]);
        }
        lemma_no_group(front, r);
        assert(!namesakes(rs[rs.len() - 1], r));
    }
}

proof fn lemma_still_near(rs: Seq<RowText>, front: Seq<RowText>, r: RowText)
    requires
        rs.len() > 0,
        front == rs.drop_last(),
        as_near_as_any(front, r),
        !namesakes(rs.last(), r),
    ensures
        as_near_as_any(rs, r),
{
    reveal(as_near_as_any);
    let m = choose|m: int|
        0 <= m < front.len() && namesakes(#[trigger] front[m], r) && front[m].gap == r.gap;
    assert(rs[m] == front[m]);
    assert forall|m: int| 0 <= m < rs.len() && namesakes(#[trigger] rs[m], r) implies !row_reach(
        rs[m],
    ).below(row_reach(r)) by {
        assert(m < front.len());
        assert(front[m] == rs[m]);
    }
}

proof fn lemma_near_with_one(rs: Seq<RowText>, front: Seq<RowText>, old_row: RowText)
    requires
        rs.len() > 0,
        front == rs.drop_last(),
        as_near_as_any(front, old_row),
        namesakes(old_row, rs.last()),
    ensures
        as_near_as_any(rs, with_namesake(old_row, rs.last())),
{
    reveal(as_near_as_any);
    let r = rs.last();
    let merged = with_namesake(old_row, r);
    let m = choose|m: int|
        0 <= m < front.len() && namesakes(#[trigger] front[m], old_row) && front[m].gap
            == old_row.gap;
    assert(rs[m] == front[m]);
    assert(rs[rs.len() - 1] == r);
    assert(namesakes(rs[m], merged));
    assert(namesakes(rs[rs.len() - 1], merged));
    assert forall|m: int| 0 <= m < rs.len() && namesakes(#[trigger] rs[m], merged) implies !row_reach(
        rs[m],
    ).below(row_reach(merged)) by {
        if m < front.len() {
            assert(front[m] == rs[m]);
            assert(namesakes(front[m], old_row));
            assert(!row_reach(front[m]).below(row_reach(old_row)));
        }
    }
}

proof fn lemma_near_alone(rs: Seq<RowText>, front: Seq<RowText>)
    requires
        rs.len() > 0,
        front == rs.drop_last(),
        forall|m: int| 0 <= m < front.len() ==> !namesakes(#[trigger] front[m], rs.last()),
    ensures
        as_near_as_any(rs, rs.last()),
{
    reveal(as_near_as_any);
    let r = rs.last();
    assert(rs[rs.len() - 1] == r && namesakes(rs[rs.len() - 1], r));
    assert forall|m: int| 0 <= m < rs.len() && namesakes(#[trigger] rs[m], r) implies !row_reach(
        rs[m],
    ).below(row_reach(r)) by {
        if m < front.len() {
            assert(!namesakes(front[m], r));
        }
    }
}

proof fn lemma_merged_with_one(rs: Seq<RowText>)
    requires
        rs.len() > 0,
        is_merged(rs.drop_last(), collapsed(rs.drop_last())),
        namesake_at(collapsed(rs.drop_last()), rs.last()) < collapsed(rs.drop_last()).len(),
    ensures
        is_merged(rs, collapsed(rs)),
{
    let front = rs.drop_last();
    let r = rs.last();
    let before = collapsed(front);
    let out = collapsed(rs);
    let k = namesake_at(before, r);
    lemma_namesake_at(before, r);
    if one_each(rs) {
        assert(rs[rs.len() - 1].count == 1);
        assert forall|i: int| 0 <= i < front.len() implies (#[trigger] front[i]).count == 1 by {
            assert(front[i] == rs[i]);
        }
    }
    let old_row = before[k];
    let merged = with_namesake(old_row, r);
    assert(out == before.update(k, merged));
    assert(namesakes(merged, old_row) && namesakes(merged, r));
    assert forall|i: int, j: int| 0 <= i < j < out.len() implies !namesakes(
        #[trigger] out[i],
        #[trigger] out[j],
    ) by {
        assert(!namesakes(before[i], before[j]));
    }
    assert forall|m: int| 0 <= m < rs.len() implies exists|i: int|
        0 <= i < out.len() && namesakes(#[trigger] rs[m], #[trigger] out[i]) by {
        if m < front.len() {
            assert(front[m] == rs[m]);
            let i = choose|i: int|
                0 <= i < before.len() && namesakes(front[m], #[trigger] before[i]);
            assert(namesakes(rs[m], out[i]));
        } else {
            assert(namesakes(rs[m], out[k]));
        }
    }
    assert forall|i: int| 0 <= i < out.len() implies as_near_as_any(
        rs,
        #[trigger] out[i],
    ) by {
        if i != k {
            assert(out[i] == before[i]);
            assert(as_near_as_any(front, before[i]));
            assert(!namesakes(r, out[i])) by {
                if i < k {
                    assert(!namesakes(before[i], before[k]));
                } else {
                    assert(!namesakes(before[k], before[i]));
                }
            }
            lemma_still_near(rs, front, out[i]);
        } else {
            assert(as_near_as_any(front, before[k]));
            lemma_near_with_one(rs, front, old_row);
        }
    }
    if one_each(rs) {
        assert forall|i: int| 0 <= i < out.len() implies (#[trigger] out[i]).count
            == group_size(rs, out[i]) by {
            assert(before[i].count == group_size(front, before[i]));
            if i == k {
                lemma_group_size(front, merged, old_row);
            } else if i < k {
                assert(!namesakes(before[i], before[k]));
            } else {
                assert(!namesakes(before[k], before[i]));
            }
        }
    }
}

proof fn lemma_merged_with_none(rs: Seq<RowText>)
    requires
        rs.len() > 0,
        is_merged(rs.drop_last(), collapsed(rs.drop_last())),
        namesake_at(collapsed(rs.drop_last()), rs.last()) >= collapsed(rs.drop_last()).len(),
    ensures
        is_merged(rs, collapsed(rs)),
{
    let front = rs.drop_last();
    let r = rs.last();
    let before = collapsed(front);
    let out = collapsed(rs);
    let k = namesake_at(before, r);
    lemma_namesake_at(before, r);
    if one_each(rs) {
        assert(rs[rs.len() - 1].count == 1);
        assert forall|i: int| 0 <= i < front.len() implies (#[trigger] front[i]).count == 1 by {
            assert(front[i] == rs[i]);
        }
    }
    assert(out == before.push(r));
    assert forall|i: int| 0 <= i < before.len() implies !namesakes(
        #[trigger] before[i],
        r,
    ) by {}
    assert forall|m: int| 0 <= m < front.len() implies !namesakes(#[trigger] front[m], r) by {
        let i = choose|i: int|
            0 <= i < before.len() && namesakes(front[m], #[trigger] before[i]);
        assert(!namesakes(before[i], r));
    }
    assert forall|i: int, j: int| 0 <= i < j < out.len() implies !namesakes(
        #[trigger] out[i],
        #[trigger] out[j],
    ) by {
        assert(out[i] == before[i]);
        if j < before.len() {
            assert(out[j] == before[j]);
        } else {
            assert(!namesakes(before[i], r));
        }
    }
    assert forall|m: int| 0 <= m < rs.len() implies exists|i: int|
        0 <= i < out.len() && namesakes(#[trigger] rs[m], #[trigger] out[i]) by {
        if m < front.len() {
            assert(front[m] == rs[m]);
            let i = choose|i: int|
                0 <= i < before.len() && namesakes(front[m], #[trigger] before[i]);
            assert(namesakes(rs[m], out[i]));
        } else {
            assert(namesakes(rs[m], out[before.len() as int]));
        }
    }
    assert forall|i: int| 0 <= i < out.len() implies as_near_as_any(
        rs,
        #[trigger] out[i],
    ) by {
        if i < before.len() {
            assert(out[i] == before[i]);
            assert(as_near_as_any(front, before[i]));
            assert(!namesakes(before[i], r));
            lemma_still_near(rs, front, out[i]);
        } else {
            lemma_near_alone(rs, front);
        }
    }
    if one_each(rs) {
        lemma_no_group(front, r);
        assert forall|i: int| 0 <= i < out.len() implies (#[trigger] out[i]).count
            == group_size(rs, out[i]) by {
            if i < before.len() {
                assert(out[i] == before[i]);
                assert(before[i].count == group_size(front, before[i]));
                assert(!namesakes(before[i], r));
            }
        }
    }
}

/// All namesakes of a location are shown as one row, wherever they stood: with their count,
/// and with the distances of the nearest of them.
pub proof fn namesakes_are_shown_as_one(rs: Seq<RowText>)
    ensures
        is_merged(rs, collapsed(rs)),
        collapsed(rs).len() <= rs.len(),
    decreases rs.len(),
{
    if rs.len() > 0 {
        let before = collapsed(rs.drop_last());
        namesakes_are_shown_as_one(rs.drop_last());
        lemma_namesake_at(before, rs.last());
        if namesake_at(before, rs.last()) < before.len() {
            lemma_merged_with_one(rs);
        } else {
            lemma_merged_with_none(rs);
        }
    } else {
        assert(is_merged(rs, collapsed(rs)));
    }
}

fn find_namesake(rows: &Vec<Row>, r: &Row) -> (k: usize)
    ensures
        k == namesake_at(row_texts(rows@), r.text()),
        k <= rows.len(),
{
    let ghost rs = row_texts(rows@);
    let name: Vec<char> = chars_of(&r.name);
    let place: Vec<char> = chars_of(&r.place);
    let mut k: usize = 0;
    assert(rs.skip(0) == rs);
    while k < rows.len()
        invariant
            k <= rows.len(),
            rs == row_texts(rows@),
            name@ == r.name@,
            place@ == r.place@,
            namesake_at(rs, r.text()) == k + namesake_at(rs.skip(k as int), r.text()),
        decreases rows.len() - k,
    {
        assert(rs.skip(k as int)[0] == rows@[k as int].text());
        if same(&name, &rows[k].name) && same(&place, &rows[k].place) && rows[k].killed == r.killed {
            return k;
        }
        assert(rs.skip(k as int).skip(1) == rs.skip(k + 1));
        k = k + 1;
    }
    k
}

/// Shows the namesakes of a location as one row with a count, wherever they stand in the
/// list: within a location it is sorted by distance, so others may stand between them. The
/// dead and the living stay apart: otherwise the progress of a location would be shown
/// wrongly.
pub fn collapse(rows: &mut Vec<Row>)
    requires
        forall|i: int|
            0 <= i < old(rows).len() ==> (#[trigger] old(rows)@[i]).count + old(rows).len()
                <= usize::MAX,
    ensures
        row_texts(final(rows)@) == collapsed(row_texts(old(rows)@)),
        is_merged(row_texts(old(rows)@), row_texts(final(rows)@)),
{
    let ghost rs = row_texts(rows@);
    let mut out: Vec<Row> = Vec::new();
    assert(row_texts(out@) == collapsed(rs.take(0)));
    for i in 0..rows.len()
        invariant
            rs == row_texts(rows@),
            forall|j: int|
                0 <= j < rows.len() ==> (#[trigger] rows@[j]).count + rows.len() <= usize::MAX,
            row_texts(out@) == collapsed(rs.take(i as int)),
            forall|j: int|
                0 <= j < out.len() ==> (#[trigger] out@[j]).count + rows.len() <= usize::MAX + i,
    {
        let r: &Row = &rows[i];
        let ghost before = out@;
        proof {
            assert(rs.take(i + 1).drop_last() == rs.take(i as int));
            assert(rs.take(i + 1).last() == r.text());
        }
        let k: usize = find_namesake(&out, r);
        if k < out.len() {
            let first: &Row = &out[k];
            assert(first.count + rows.len() <= usize::MAX + i);
            let nearer: bool = reach_of(r).lt(reach_of(first));
            let merged: Row = Row {
                name: first.name.clone(),
                place: first.place.clone(),
                gap: if nearer {
                    r.gap
                } else {
                    first.gap
                },
                here: first.here || r.here,
                killed: first.killed,
                remembrance: first.remembrance,
                count: first.count + 1,
                map: first.map,
                pos: first.pos,
            };
            let ghost text = merged.text();
            assert(text == with_namesake(row_texts(before)[k as int], r.text()));
            out[k] = merged;
            assert(row_texts(out@) == row_texts(before).update(k as int, text));
        } else {
            out.push(r.copy());
            assert(out@.last().text() == r.text());
            assert(row_texts(out@) == row_texts(before).push(r.text()));
            assert(out@.last().count == rows@[i as int].count);
        }
    }
    assert(rs.take(rs.len() as int) == rs);
    proof {
        namesakes_are_shown_as_one(rs);
    }
    *rows = out;
}

/// Every boss is counted: rows of one boss each are shown as rows whose counts add up
/// to as many.
pub proof fn collapsing_counts_everyone(rs: Seq<RowText>)
    requires
        one_each(rs),
    ensures
        total_count(collapsed(rs)) == rs.len(),
    decreases rs.len(),
{
    if rs.len() > 0 {
        let front = rs.drop_last();
        assert forall|i: int| 0 <= i < front.len() implies (#[trigger] front[i]).count == 1 by {
            assert(front[i] == rs[i]);
        }
        collapsing_counts_everyone(front);
        assert(rs[rs.len() - 1].count == 1);
        let before = collapsed(front);
        let out = collapsed(rs);
        lemma_namesake_at(before, rs.last());
        let k = namesake_at(before, rs.last());
        if k < before.len() {
            lemma_total_update(before, k, with_namesake(before[k], rs.last()));
        } else {
            assert(out.drop_last() == before);
        }
    }
}

proof fn lemma_total_update(rs: Seq<RowText>, k: int, r: RowText)
    requires
        0 <= k < rs.len(),
    ensures
        total_count(rs.update(k, r)) == total_count(rs) - rs[k].count + r.count,
    decreases rs.len(),
{
    let out = rs.update(k, r);
    if k < rs.len() - 1 {
        lemma_total_update(rs.drop_last(), k, r);
        assert(out.drop_last() == rs.drop_last().update(k, r));
    } else {
        assert(out.drop_last() == rs.drop_last());
    }
}

/// The row of before that each row of the list begins with.
spec fn origins(rs: Seq<RowText>) -> Seq<int>
    decreases rs.len(),
{
    if rs.len() == 0 {
        Seq::empty()
    } else {
        let before: Seq<RowText> = collapsed(rs.drop_last());
        if namesake_at(before, rs.last()) < before.len() {
            origins(rs.drop_last())
        } else {
            origins(rs.drop_last()).push(rs.len() - 1)
        }
    }
}

proof fn lemma_origins(rs: Seq<RowText>)
    ensures
        origins(rs).len() == collapsed(rs).len(),
        forall|i: int|
            0 <= i < origins(rs).len() ==> 0 <= #[trigger] origins(rs)[i] < rs.len() && namesakes(
                rs[origins(rs)[i]],
                collapsed(rs)[i],
            ),
        forall|i: int, j: int|
            0 <= i < j < origins(rs).len() ==> #[trigger] origins(rs)[i] < #[trigger] origins(rs)[j],
    decreases rs.len(),
{
    if rs.len() > 0 {
        let front = rs.drop_last();
        lemma_origins(front);
        let before = collapsed(front);
        let out = collapsed(rs);
        let a = origins(front);
        let b = origins(rs);
        lemma_namesake_at(before, rs.last());
        assert forall|i: int| 0 <= i < b.len() implies 0 <= #[trigger] b[i] < rs.len() && namesakes(
            rs[b[i]],
            out[i],
        ) by {
            if i < a.len() {
                assert(b[i] == a[i]);
                assert(rs[b[i]] == front[a[i]]);
                assert(namesakes(front[a[i]], before[i]));
            }
        }
        assert forall|i: int, j: int| 0 <= i < j < b.len() implies #[trigger] b[i]
            < #[trigger] b[j] by {
            assert(b[i] == a[i]);
            if j < a.len() {
                assert(b[j] == a[j]);
            }
        }
    }
}

/// Merging keeps the order of the list: of a sorted list no location is torn apart by it, and
/// those that are only codes still come last.
pub proof fn merging_keeps_locations_together(
    rs: Seq<RowText>,
    sorted: Seq<RowText>,
    i: int,
    j: int,
    k: int,
)
    requires
        rows_sorted(rs, sorted),
        0 <= i < j < k < collapsed(sorted).len(),
    ensures
        collapsed(sorted)[i].place == collapsed(sorted)[k].place ==> collapsed(sorted)[j].place
            == collapsed(sorted)[i].place,
        is_coded(collapsed(sorted)[i].place) ==> is_coded(collapsed(sorted)[k].place),
{
    lemma_origins(sorted);
    let o = origins(sorted);
    let (a, b, c) = (o[i], o[j], o[k]);
    assert(a < b && b < c);
    let out = collapsed(sorted);
    assert(sorted[a].place == out[i].place && sorted[b].place == out[j].place && sorted[c].place
        == out[k].place);
    if out[i].place == out[k].place {
        a_place_never_appears_twice(rs, sorted, a, b, c);
    }
    if is_coded(out[i].place) {
        coded_places_come_last(rs, sorted, a, c);
    }
}

// ---------------------------------------------------------------------------
// The list as a whole
// ---------------------------------------------------------------------------

/// Whether a list made at `at` for `made_for` still serves at `now` for `radius`. The
/// radius counts too: otherwise its slider would do nothing for a whole second.
pub open spec fn serves(at: Option<u64>, made_for: Scalar, now: u64, radius: Scalar) -> bool {
    at is Some && now < at.unwrap() + POLL && made_for.at_most(radius) && radius.at_most(made_for)
}

/// Whether a list still serves.
pub fn still_serves(at: Option<u64>, made_for: Scalar, now: u64, radius: Scalar) -> (r: bool)
    ensures
        r == serves(at, made_for, now, radius),
{
    match at {
        Some(t) => now.saturating_sub(t) < POLL && made_for.le(radius) && radius.le(made_for),
        None => false,
    }
}

/// `out` is the finished list of the rows `all`: sorted, and namesakes shown as one.
pub open spec fn is_list_of(all: Seq<RowText>, out: Seq<RowText>) -> bool {
    exists|sorted: Seq<RowText>|
        rows_sorted(all, sorted) && out == #[trigger] collapsed(sorted) && one_each(sorted)
            && is_merged(sorted, out)
}

/// The rows of all bosses in their order, with namesakes shown as one. `gaps` and
/// `killed` are what the host found for each boss, `my_place` is the player's location.
pub fn rows(
    bosses: &Vec<Boss>,
    gaps: &Vec<Option<Gap>>,
    killed: &Vec<bool>,
    my_place: &Option<String>,
    radius: Scalar,
    word: &str,
) -> (r: Vec<Row>)
    requires
        gaps.len() == bosses.len(),
        killed.len() == bosses.len(),
        bosses.len() < usize::MAX,
    ensures
        is_list_of(
            all_rows(bosses@, gaps@, killed@, opt_text(*my_place), radius, word@),
            row_texts(r@),
        ),
{
    let ghost all = all_rows(bosses@, gaps@, killed@, opt_text(*my_place), radius, word@);
    let mut r: Vec<Row> = Vec::new();
    for i in 0..bosses.len()
        invariant
            gaps.len() == bosses.len(),
            killed.len() == bosses.len(),
            all == all_rows(bosses@, gaps@, killed@, opt_text(*my_place), radius, word@),
            r.len() == i,
            forall|j: int| 0 <= j < i ==> (#[trigger] r@[j]).text() == all[j],
    {
        r.push(make_row(&bosses[i], gaps[i], killed[i], my_place, radius, word));
    }
    assert(row_texts(r@) == all);
    sort_rows(&mut r);
    let ghost sorted = row_texts(r@);
    proof {
        let p = choose|p: Seq<usize>|
            is_sorted_order(row_keys(all), p) && sorted == #[trigger] arranged(all, p);
        assert forall|i: int| 0 <= i < r.len() implies (#[trigger] r@[i]).count + r.len()
            <= usize::MAX by {
            assert(sorted[i] == r@[i].text());
            assert(p.len() == row_keys(all).len());
            assert(sorted.len() == p.len());
            assert(p[i] < row_keys(all).len());
            assert(arranged(all, p)[i] == all[p[i] as int]);
            assert(r@.len() == bosses@.len());
        }
    }
    collapse(&mut r);
    r
}

/// A row of a finished list with its distance computed again, if it could be.
pub open spec fn with_gap(r: RowText, gap: Option<Option<Gap>>) -> RowText {
    RowText {
        gap: match gap {
            Some(g) => g,
            None => r.gap,
        },
        ..r
    }
}

/// Computes the distances of a finished list again; the order of its rows stays, since
/// a list that moves under the cursor cannot be read. Without a player the last known
/// distances stay too.
pub fn refresh_distances(rows: &mut Vec<Row>, gaps: &Option<Vec<Option<Gap>>>)
    requires
        gaps matches Some(g) ==> g.len() == old(rows).len(),
    ensures
        final(rows).len() == old(rows).len(),
        forall|i: int|
            0 <= i < final(rows).len() ==> (#[trigger] final(rows)@[i]).text() == with_gap(
                old(rows)@[i].text(),
                match *gaps {
                    Some(g) => Some(g@[i]),
                    None => None,
                },
            ),
{
    match gaps {
        Some(g) => {
            let n: usize = rows.len();
            for i in 0..n
                invariant
                    n == rows.len(),
                    g.len() == rows.len(),
                    rows.len() == old(rows).len(),
                    *gaps == Some(*g),
                    forall|j: int|
                        0 <= j < i ==> (#[trigger] rows@[j]).text() == (RowText {
                            gap: g@[j],
                            ..old(rows)@[j].text()
                        }),
                    forall|j: int|
                        i <= j < rows.len() ==> #[trigger] rows@[j] == old(rows)@[j],
            {
                let mut r: Row = rows[i].copy();
                r.gap = g[i];
                rows[i] = r;
            }
        },
        None => {},
    }
}

/// The nearest living boss among the first `n` rows within the radius; of equally near
/// ones the first.
pub open spec fn nearest_row(rs: Seq<RowText>, radius: Scalar, n: int) -> Option<int>
    decreases n,
{
    if n <= 0 {
        None
    } else {
        let before: Option<int> = nearest_row(rs, radius, n - 1);
        let r: RowText = rs[n - 1];
        if r.killed || r.gap is None || !r.gap.unwrap().reach.at_most(radius) {
            before
        } else {
            match before {
                Some(k) => if r.gap.unwrap().reach.below(rs[k].gap.unwrap().reach) {
                    Some(n - 1)
                } else {
                    before
                },
                None => Some(n - 1),
            }
        }
    }
}

/// What is told of the nearest living boss within the radius: his name, how far he is along
/// the ground, and how far up or down.
pub open spec fn nearest_told(rs: Seq<RowText>, radius: Scalar) -> Option<
    (Seq<char>, Scalar, Scalar),
> {
    match nearest_row(rs, radius, rs.len() as int) {
        Some(k) => Some((rs[k].name, rs[k].gap.unwrap().dist, rs[k].gap.unwrap().dy)),
        None => None,
    }
}

/// The nearest living boss within the radius: his name, how far he is along the ground,
/// and how far up or down. Height counts when choosing: a boss a kilometer below is not
/// near.
pub fn nearest(rows: &Vec<Row>, radius: Scalar) -> (r: Option<(String, Scalar, Scalar)>)
    ensures
        match nearest_row(row_texts(rows@), radius, rows@.len() as int) {
            Some(k) => r is Some && r.unwrap().0@ == rows@[k].name@ && rows@[k].gap is Some
                && r.unwrap().1 == rows@[k].gap.unwrap().dist && r.unwrap().2
                == rows@[k].gap.unwrap().dy,
            None => r is None,
        },
        nearest_told(row_texts(rows@), radius) == match r {
            Some(n) => Some((n.0@, n.1, n.2)),
            None => None,
        },
{
    let ghost rs = row_texts(rows@);
    let mut best: Option<(usize, Gap)> = None;
    for i in 0..rows.len()
        invariant
            rs == row_texts(rows@),
            match best {
                Some((k, g)) => k < i && rows@[k as int].gap == Some(g) && nearest_row(
                    rs,
                    radius,
                    i as int,
                ) == Some(k as int),
                None => nearest_row(rs, radius, i as int) is None,
            },
    {
        assert(rs[i as int] == rows@[i as int].text());
        if !rows[i].killed {
            match rows[i].gap {
                Some(g) => {
                    if g.reach.le(radius) {
                        let take: bool = match best {
                            Some((_, b)) => g.reach.lt(b.reach),
                            None => true,
                        };
                        proof {
                            match best {
                                Some((k, b)) => {
                                    assert(rs[k as int] == rows@[k as int].text());
                                },
                                None => {},
                            }
                        }
                        if take {
                            best = Some((i, g));
                        }
                    }
                },
                None => {},
            }
        }
    }
    match best {
        Some((k, g)) => Some((rows[k].name.clone(), g.dist, g.dy)),
        None => None,
    }
}

/// Nobody living within the radius is nearer than the nearest, and there is a nearest
/// whenever anybody living is within the radius.
pub proof fn nobody_is_nearer(rs: Seq<RowText>, radius: Scalar, i: int)
    requires
        0 <= i < rs.len(),
        !rs[i].killed,
        rs[i].gap is Some,
        rs[i].gap.unwrap().reach.at_most(radius),
    ensures
        match nearest_row(rs, radius, rs.len() as int) {
            Some(k) => 0 <= k < rs.len() && !rs[k].killed && rs[k].gap is Some
                && rs[k].gap.unwrap().reach.at_most(rs[i].gap.unwrap().reach),
            None => false,
        },
{
    lemma_nearest_row(rs, radius, rs.len() as int);
}

proof fn lemma_nearest_row(rs: Seq<RowText>, radius: Scalar, n: int)
    requires
        0 <= n <= rs.len(),
    ensures
        match nearest_row(rs, radius, n) {
            Some(k) => {
                &&& 0 <= k < n
                &&& !rs[k].killed
                &&& rs[k].gap is Some
                &&& rs[k].gap.unwrap().reach.at_most(radius)
                &&& forall|i: int|
                    #![trigger rs[i]]
                    0 <= i < n && !rs[i].killed && rs[i].gap is Some
                        && rs[i].gap.unwrap().reach.at_most(radius)
                        ==> rs[k].gap.unwrap().reach.at_most(rs[i].gap.unwrap().reach)
            },
            None => forall|i: int|
                #![trigger rs[i]]
                0 <= i < n && !rs[i].killed && rs[i].gap is Some
                    ==> !rs[i].gap.unwrap().reach.at_most(radius),
        },
    decreases n,
{
    if n > 0 {
        lemma_nearest_row(rs, radius, n - 1);
    }
}

/// No boss of the registry has a name.
pub open spec fn is_nameless(registry: Option<Vec<Boss>>) -> bool {
    registry is None || forall|i: int|
        0 <= i < registry.unwrap().len() ==> (#[trigger] registry.unwrap()@[i]).name is None
}

/// Whether the registry has to be built: there is none yet, or it was built too early. The
/// game loads its table of bosses before its texts, so one without a single name was, and so
/// was an empty one.
pub fn needs_build(registry: &Option<Vec<Boss>>) -> (r: bool)
    ensures
        r == is_nameless(*registry),
{
    match registry {
        Some(bs) => {
            for i in 0..bs.len()
                invariant
                    *registry == Some(*bs),
                    forall|j: int| 0 <= j < i ==> (#[trigger] bs@[j]).name is None,
            {
                if bs[i].name.is_some() {
                    assert(registry.unwrap()@[i as int].name is Some);
                    return false;
                }
            }
            true
        },
        None => true,
    }
}

} // verus!
