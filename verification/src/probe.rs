//! Diagnostics of the list of bosses: how many the registry knows, where their names come
//! from, and by which flags the nearest are judged. A line that begins with `# ` is a
//! heading, one that begins with two blanks belongs to its section.

use std::collections::{HashMap, HashSet};

use vstd::prelude::*;
use crate::boss_list::{code_of, map_code};
use crate::bosses::{Boss, Cell};
use crate::order::{is_sorted_order, keys_of, sorted_order, sorted_order_is_unique};
use crate::registry::{remembrance_flags, TableName, TableRow};
use crate::scalar::Scalar;
use crate::text::{
    append, append_text, chars_of, decimal, decimal_of, join, joined, string_of, texts,
};

verus! {

broadcast use vstd::std_specs::hash::group_hash_axioms;

/// How many of the nearest bosses are shown.
pub const NEAR_SHOWN: usize = 6;

/// How many raised flags are shown.
pub const RAISED_SHOWN: usize = 48;

/// How far a boss is, that number in whole meters, and whether he is dead.
pub struct Sighting {
    pub dist: Scalar,
    pub meters: String,
    pub killed: bool,
}

// ---------------------------------------------------------------------------
// Flags
// ---------------------------------------------------------------------------

/// A sorted list with one number more, unless it is there already.
pub open spec fn sorted_in(fs: Seq<u32>, f: u32) -> Seq<u32>
    decreases fs.len(),
{
    if fs.len() == 0 || f < fs[0] {
        seq![f] + fs
    } else if f == fs[0] {
        fs
    } else {
        seq![fs[0]] + sorted_in(fs.skip(1), f)
    }
}

/// The flags of defeat in some areas, each once and sorted. Zero is no flag.
pub open spec fn flags_of(areas: Seq<(u32, Cell)>) -> Seq<u32>
    decreases areas.len(),
{
    if areas.len() == 0 {
        Seq::empty()
    } else if areas.last().0 == 0 {
        flags_of(areas.drop_last())
    } else {
        sorted_in(flags_of(areas.drop_last()), areas.last().0)
    }
}

/// The map of a flag, by the last area that has it.
pub open spec fn map_of(areas: Seq<(u32, Cell)>, flag: u32) -> Option<Cell>
    decreases areas.len(),
{
    if areas.len() == 0 {
        None
    } else if areas.last().0 == flag {
        Some(areas.last().1)
    } else {
        map_of(areas.drop_last(), flag)
    }
}

/// The flags that the table does not know.
pub open spec fn unknown_of(fs: Seq<u32>, table: Map<u32, TableRow>) -> Seq<u32>
    decreases fs.len(),
{
    if fs.len() == 0 {
        Seq::empty()
    } else if table.contains_key(fs.last()) {
        unknown_of(fs.drop_last(), table)
    } else {
        unknown_of(fs.drop_last(), table).push(fs.last())
    }
}

/// The table gives a name for the flag: a name of its own, or the number of a text that the
/// game has.
pub open spec fn gives_name(table: Map<u32, TableRow>, ids: Set<u32>, flag: u32) -> bool {
    table.contains_key(flag) && match table[flag].name {
        TableName::Id(n) => ids.contains(n),
        TableName::Text(_) => true,
    }
}

/// How many flags the table gives a name for.
pub open spec fn named_count(fs: Seq<u32>, table: Map<u32, TableRow>, ids: Set<u32>) -> nat
    decreases fs.len(),
{
    if fs.len() == 0 {
        0
    } else {
        named_count(fs.drop_last(), table, ids) + if gives_name(table, ids, fs.last()) {
            1nat
        } else {
            0nat
        }
    }
}

/// A flag with the code of its map.
pub open spec fn flag_entry(areas: Seq<(u32, Cell)>, flag: u32) -> Seq<char> {
    decimal(flag as nat) + " "@ + match map_of(areas, flag) {
        Some(c) => map_code(c),
        None => "?"@,
    }
}

pub open spec fn flag_entries(areas: Seq<(u32, Cell)>, fs: Seq<u32>) -> Seq<Seq<char>> {
    fs.map_values(|f: u32| flag_entry(areas, f))
}

/// The smaller of two numbers.
pub open spec fn fewer(a: int, b: int) -> int {
    if a < b {
        a
    } else {
        b
    }
}

/// Lines of a section with `n` parts each.
pub open spec fn part_lines(parts: Seq<Seq<char>>, n: int, sep: Seq<char>) -> Seq<Seq<char>>
    decreases parts.len(),
{
    if parts.len() == 0 || n <= 0 {
        Seq::empty()
    } else {
        let k: int = fewer(n, parts.len() as int);
        seq!["  "@ + join(parts.take(k), sep)] + part_lines(parts.skip(k), n, sep)
    }
}

/// What is said of the table: how many flags it knows and names, and which it does not know.
pub open spec fn coverage(
    areas: Seq<(u32, Cell)>,
    table: Map<u32, TableRow>,
    ids: Set<u32>,
) -> Seq<Seq<char>> {
    let fs: Seq<u32> = flags_of(areas);
    let unknown: Seq<u32> = unknown_of(fs, table);
    let head: Seq<char> = "  таблица знает "@ + decimal((fs.len() - unknown.len()) as nat) + "/"@
        + decimal(fs.len()) + " | с именем "@ + decimal(named_count(fs, table, ids));
    if unknown.len() == 0 {
        seq![head]
    } else {
        seq![head, "  без имени: "@ + decimal(unknown.len())] + part_lines(
            flag_entries(areas, unknown),
            2,
            " | "@,
        )
    }
}

fn insert_flag(fs: &mut Vec<u32>, f: u32)
    ensures
        final(fs)@ == sorted_in(old(fs)@, f),
{
    let ghost all = fs@;
    let mut k: usize = 0;
    assert(all.skip(0) == all);
    assert(all.take(0) + sorted_in(all.skip(0), f) == sorted_in(all, f));
    while k < fs.len() && fs[k] < f
        invariant
            k <= fs.len(),
            fs@ == all,
            all.take(k as int) + sorted_in(all.skip(k as int), f) == sorted_in(all, f),
        decreases fs.len() - k,
    {
        proof {
            let rest = all.skip(k as int);
            assert(rest[0] == all[k as int]);
            assert(rest.skip(1) == all.skip(k + 1));
            assert(sorted_in(rest, f) == seq![rest[0]] + sorted_in(rest.skip(1), f));
            assert(all.take(k + 1) + sorted_in(all.skip(k + 1), f) =~= all.take(k as int) + (
            seq![rest[0]] + sorted_in(rest.skip(1), f)));
        }
        k = k + 1;
    }
    proof {
        let rest = all.skip(k as int);
        if k < fs.len() {
            assert(rest[0] == all[k as int]);
        }
        if k < fs.len() && all[k as int] == f {
            assert(sorted_in(rest, f) == rest);
            assert(all.take(k as int) + rest == all);
        } else {
            assert(sorted_in(rest, f) == seq![f] + rest);
            assert(all.take(k as int) + (seq![f] + rest) =~= all.insert(k as int, f));
        }
    }
    if k == fs.len() || fs[k] != f {
        fs.insert(k, f);
    }
}

fn list_flags(areas: &Vec<(u32, Cell)>) -> (r: Vec<u32>)
    ensures
        r@ == flags_of(areas@),
{
    let mut r: Vec<u32> = Vec::new();
    assert(areas@.take(0).len() == 0);
    for i in 0..areas.len()
        invariant
            r@ == flags_of(areas@.take(i as int)),
    {
        assert(areas@.take(i + 1).drop_last() == areas@.take(i as int));
        assert(areas@.take(i + 1).last() == areas@[i as int]);
        if areas[i].0 != 0 {
            insert_flag(&mut r, areas[i].0);
        }
    }
    assert(areas@.take(areas@.len() as int) == areas@);
    r
}

fn find_map(areas: &Vec<(u32, Cell)>, flag: u32) -> (r: Option<Cell>)
    ensures
        r == map_of(areas@, flag),
{
    let mut i: usize = areas.len();
    assert(areas@.take(i as int) == areas@);
    while i > 0
        invariant
            i <= areas.len(),
            map_of(areas@, flag) == map_of(areas@.take(i as int), flag),
        decreases i,
    {
        assert(areas@.take(i as int).drop_last() == areas@.take(i - 1));
        assert(areas@.take(i as int).last() == areas@[i - 1]);
        if areas[i - 1].0 == flag {
            return Some(areas[i - 1].1);
        }
        i = i - 1;
    }
    None
}

fn lines_of_parts(parts: &Vec<String>, n: usize, sep: &str) -> (r: Vec<String>)
    requires
        n > 0,
    ensures
        texts(r@) == part_lines(texts(parts@), n as int, sep@),
{
    let ghost all = texts(parts@);
    let mut r: Vec<String> = Vec::new();
    let mut i: usize = 0;
    assert(all.skip(0) == all);
    assert(texts(r@) + part_lines(all.skip(0), n as int, sep@) == part_lines(all, n as int, sep@));
    while i < parts.len()
        invariant
            n > 0,
            i <= parts.len(),
            all == texts(parts@),
            texts(r@) + part_lines(all.skip(i as int), n as int, sep@) == part_lines(
                all,
                n as int,
                sep@,
            ),
        decreases parts.len() - i,
    {
        let k: usize = if n < parts.len() - i {
            n
        } else {
            parts.len() - i
        };
        let mut chunk: Vec<String> = Vec::new();
        for j in 0..k
            invariant
                i + k <= parts.len(),
                chunk.len() == j,
                forall|x: int| 0 <= x < j ==> (#[trigger] chunk@[x])@ == parts@[i + x]@,
        {
            chunk.push(parts[i + j].clone());
        }
        let mut v: Vec<char> = chars_of("  ");
        append(&mut v, &joined(&chunk, sep));
        let ghost was = r@;
        let line: String = string_of(&v);
        let ghost text = line@;
        r.push(line);
        proof {
            let rest = all.skip(i as int);
            assert(texts(chunk@) == rest.take(k as int));
            assert(rest.skip(k as int) == all.skip(i + k));
            assert(texts(r@) == texts(was).push(text));
            assert(texts(r@) + part_lines(rest.skip(k as int), n as int, sep@) =~= texts(was) + (
            seq![text] + part_lines(rest.skip(k as int), n as int, sep@)));
        }
        i = i + k;
    }
    assert(all.skip(i as int).len() == 0);
    assert(texts(r@) + Seq::<Seq<char>>::empty() == texts(r@));
    r
}

fn push_all(out: &mut Vec<String>, more: &Vec<String>)
    ensures
        texts(final(out)@) == texts(old(out)@) + texts(more@),
{
    assert(texts(out@) + texts(more@).take(0) == texts(out@));
    for i in 0..more.len()
        invariant
            texts(out@) == texts(old(out)@) + texts(more@).take(i as int),
    {
        let ghost was = out@;
        out.push(more[i].clone());
        assert(texts(out@) == texts(was).push(more@[i as int]@));
        assert(texts(more@).take(i + 1) == texts(more@).take(i as int).push(more@[i as int]@));
        assert(texts(old(out)@) + texts(more@).take(i as int).push(more@[i as int]@) =~= (texts(
            old(out)@,
        ) + texts(more@).take(i as int)).push(more@[i as int]@));
    }
    assert(texts(more@).take(more@.len() as int) == texts(more@));
}

fn push_line(out: &mut Vec<String>, line: String)
    ensures
        texts(final(out)@) == texts(old(out)@).push(line@),
{
    let ghost was = out@;
    let ghost text = line@;
    out.push(line);
    assert(texts(out@) == texts(was).push(text));
}

fn coverage_lines(
    areas: &Vec<(u32, Cell)>,
    table: &HashMap<u32, TableRow>,
    ids: &HashSet<u32>,
) -> (r: Vec<String>)
    ensures
        texts(r@) == coverage(areas@, table@, ids@),
{
    let fs: Vec<u32> = list_flags(areas);
    let mut unknown: Vec<u32> = Vec::new();
    let mut named: usize = 0;
    assert(fs@.take(0).len() == 0);
    for i in 0..fs.len()
        invariant
            unknown@ == unknown_of(fs@.take(i as int), table@),
            unknown.len() <= i,
            named == named_count(fs@.take(i as int), table@, ids@),
            named <= i,
    {
        let f: u32 = fs[i];
        assert(fs@.take(i + 1).drop_last() == fs@.take(i as int));
        assert(fs@.take(i + 1).last() == f);
        match table.get(&f) {
            None => {
                unknown.push(f);
            },
            Some(row) => {
                let has: bool = match &row.name {
                    TableName::Id(n) => ids.contains(n),
                    TableName::Text(_) => true,
                };
                if has {
                    named = named + 1;
                }
            },
        }
    }
    assert(fs@.take(fs@.len() as int) == fs@);
    let mut v: Vec<char> = chars_of("  таблица знает ");
    append(&mut v, &decimal_of((fs.len() - unknown.len()) as u64));
    append_text(&mut v, "/");
    append(&mut v, &decimal_of(fs.len() as u64));
    append_text(&mut v, " | с именем ");
    append(&mut v, &decimal_of(named as u64));
    let mut out: Vec<String> = Vec::new();
    push_line(&mut out, string_of(&v));
    let ghost head = v@;
    if unknown.len() == 0 {
        assert(texts(out@) == seq![head]);
        return out;
    }
    let mut v: Vec<char> = chars_of("  без имени: ");
    append(&mut v, &decimal_of(unknown.len() as u64));
    let ghost second = v@;
    push_line(&mut out, string_of(&v));
    assert(texts(out@) == seq![head, second]);
    let mut parts: Vec<String> = Vec::new();
    for i in 0..unknown.len()
        invariant
            parts.len() == i,
            forall|j: int|
                0 <= j < i ==> (#[trigger] parts@[j])@ == flag_entry(areas@, unknown@[j]),
    {
        let mut p: Vec<char> = decimal_of(unknown[i] as u64);
        append_text(&mut p, " ");
        match find_map(areas, unknown[i]) {
            Some(c) => append_text(&mut p, &code_of(c)),
            None => append_text(&mut p, "?"),
        }
        parts.push(string_of(&p));
    }
    assert(texts(parts@) == flag_entries(areas@, unknown@));
    push_all(&mut out, &lines_of_parts(&parts, 2, " | "));
    out
}

// ---------------------------------------------------------------------------
// The registry
// ---------------------------------------------------------------------------

/// How many bosses have a name.
pub open spec fn with_name(bs: Seq<Boss>) -> nat
    decreases bs.len(),
{
    if bs.len() == 0 {
        0
    } else {
        with_name(bs.drop_last()) + if bs.last().name is Some {
            1nat
        } else {
            0nat
        }
    }
}

/// How many bosses have a place.
pub open spec fn with_place(bs: Seq<Boss>) -> nat
    decreases bs.len(),
{
    if bs.len() == 0 {
        0
    } else {
        with_place(bs.drop_last()) + if bs.last().place is Some {
            1nat
        } else {
            0nat
        }
    }
}

pub open spec fn registry_line(bs: Seq<Boss>) -> Seq<char> {
    "  в реестре "@ + decimal(bs.len()) + " | с именем "@ + decimal(with_name(bs))
        + " | с местом "@ + decimal(with_place(bs))
}

fn registry_text(bs: &Vec<Boss>) -> (r: String)
    ensures
        r@ == registry_line(bs@),
{
    let mut named: usize = 0;
    let mut placed: usize = 0;
    assert(bs@.take(0).len() == 0);
    for i in 0..bs.len()
        invariant
            named == with_name(bs@.take(i as int)),
            placed == with_place(bs@.take(i as int)),
            named <= i,
            placed <= i,
    {
        assert(bs@.take(i + 1).drop_last() == bs@.take(i as int));
        assert(bs@.take(i + 1).last() == bs@[i as int]);
        if bs[i].name.is_some() {
            named = named + 1;
        }
        if bs[i].place.is_some() {
            placed = placed + 1;
        }
    }
    assert(bs@.take(bs@.len() as int) == bs@);
    let mut v: Vec<char> = chars_of("  в реестре ");
    append(&mut v, &decimal_of(bs.len() as u64));
    append_text(&mut v, " | с именем ");
    append(&mut v, &decimal_of(named as u64));
    append_text(&mut v, " | с местом ");
    append(&mut v, &decimal_of(placed as u64));
    string_of(&v)
}

// ---------------------------------------------------------------------------
// The nearest
// ---------------------------------------------------------------------------

/// The bosses whose distance is known.
pub open spec fn sighted(near: Seq<Option<Sighting>>) -> Seq<usize>
    decreases near.len(),
{
    if near.len() == 0 {
        Seq::empty()
    } else if near.last() is Some {
        sighted(near.drop_last()).push((near.len() - 1) as usize)
    } else {
        sighted(near.drop_last())
    }
}

/// What they are sorted by.
pub open spec fn sight_keys(near: Seq<Option<Sighting>>, seen: Seq<usize>) -> Seq<Seq<i64>> {
    seen.map_values(|k: usize| seq![near[k as int].unwrap().dist.rank() as i64])
}

/// The bosses whose distance is known, the nearest first.
pub open spec fn by_distance(near: Seq<Option<Sighting>>) -> Seq<usize> {
    let seen: Seq<usize> = sighted(near);
    let p: Seq<usize> = choose|p: Seq<usize>| is_sorted_order(sight_keys(near, seen), p);
    Seq::new(p.len(), |i: int| seen[p[i] as int])
}

pub open spec fn near_line(b: Boss, s: Sighting) -> Seq<char> {
    "  "@ + decimal(b.flag as nat) + " "@ + (if s.killed {
        "убит"@
    } else {
        "жив"@
    }) + " "@ + s.meters@ + "м "@ + match b.name {
        Some(n) => n@,
        None => "?"@,
    }
}

pub open spec fn near_lines(
    bs: Seq<Boss>,
    near: Seq<Option<Sighting>>,
    order: Seq<usize>,
) -> Seq<Seq<char>> {
    order.map_values(|k: usize| near_line(bs[k as int], near[k as int].unwrap()))
}

/// The flag of the first living boss in some order.
pub open spec fn first_alive(
    bs: Seq<Boss>,
    near: Seq<Option<Sighting>>,
    order: Seq<usize>,
) -> Option<u32>
    decreases order.len(),
{
    if order.len() == 0 {
        None
    } else if !near[order[0] as int].unwrap().killed {
        Some(bs[order[0] as int].flag)
    } else {
        first_alive(bs, near, order.skip(1))
    }
}

proof fn lemma_sighted(near: Seq<Option<Sighting>>)
    requires
        near.len() <= usize::MAX,
    ensures
        forall|i: int|
            0 <= i < sighted(near).len() ==> (#[trigger] sighted(near)[i]) < near.len()
                && near[sighted(near)[i] as int] is Some,
        sighted(near).len() <= near.len(),
    decreases near.len(),
{
    if near.len() > 0 {
        let front = near.drop_last();
        lemma_sighted(front);
        assert forall|i: int| 0 <= i < sighted(near).len() implies (#[trigger] sighted(
            near,
        )[i]) < near.len() && near[sighted(near)[i] as int] is Some by {
            if i < sighted(front).len() {
                assert(sighted(near)[i] == sighted(front)[i]);
                assert(front[sighted(front)[i] as int] is Some);
            }
        }
    }
}

fn order_of(near: &Vec<Option<Sighting>>) -> (r: Vec<usize>)
    ensures
        r@ == by_distance(near@),
        forall|i: int|
            0 <= i < r@.len() ==> (#[trigger] r@[i]) < near@.len() && near@[r@[i] as int] is Some,
{
    let mut seen: Vec<usize> = Vec::new();
    let mut keys: Vec<Vec<i64>> = Vec::new();
    assert(near@.take(0).len() == 0);
    for i in 0..near.len()
        invariant
            seen@ == sighted(near@.take(i as int)),
            keys.len() == seen.len(),
            forall|j: int|
                0 <= j < keys.len() ==> (#[trigger] keys@[j])@ == seq![
                    near@[seen@[j] as int].unwrap().dist.rank() as i64,
                ],
    {
        assert(near@.take(i + 1).drop_last() == near@.take(i as int));
        assert(near@.take(i + 1).last() == near@[i as int]);
        match &near[i] {
            Some(s) => {
                let mut key: Vec<i64> = Vec::new();
                key.push(s.dist.order());
                assert(key@ == seq![s.dist.rank() as i64]);
                seen.push(i);
                keys.push(key);
            },
            None => {},
        }
    }
    assert(near@.take(near@.len() as int) == near@);
    proof {
        lemma_sighted(near@);
        assert(keys_of(keys@) == sight_keys(near@, seen@));
    }
    let p: Vec<usize> = sorted_order(&keys);
    let mut r: Vec<usize> = Vec::new();
    for i in 0..p.len()
        invariant
            p.len() == seen.len(),
            forall|j: int| 0 <= j < p.len() ==> (#[trigger] p@[j]) < seen.len(),
            r.len() == i,
            forall|j: int| 0 <= j < i ==> (#[trigger] r@[j]) == seen@[p@[j] as int],
    {
        r.push(seen[p[i]]);
    }
    proof {
        let ks = sight_keys(near@, seen@);
        let q = choose|q: Seq<usize>| is_sorted_order(ks, q);
        sorted_order_is_unique(ks, p@, q);
        assert(r@ == by_distance(near@));
    }
    r
}

fn near_text(b: &Boss, s: &Sighting) -> (r: String)
    ensures
        r@ == near_line(*b, *s),
{
    let mut v: Vec<char> = chars_of("  ");
    append(&mut v, &decimal_of(b.flag as u64));
    append_text(&mut v, " ");
    append_text(
        &mut v,
        if s.killed {
            "убит"
        } else {
            "жив"
        },
    );
    append_text(&mut v, " ");
    append_text(&mut v, &s.meters);
    append_text(&mut v, "м ");
    match &b.name {
        Some(n) => append_text(&mut v, n),
        None => append_text(&mut v, "?"),
    }
    string_of(&v)
}

// ---------------------------------------------------------------------------
// All of it
// ---------------------------------------------------------------------------

/// The flags for which a remembrance is given.
pub open spec fn remembered(table: Map<u32, TableRow>) -> Set<u32> {
    table.dom().filter(|f: u32| table[f].remembrance)
}

/// All lines, as far as the game can be read.
pub open spec fn probed(
    areas: Option<Vec<(u32, Cell)>>,
    table: Map<u32, TableRow>,
    ids: Set<u32>,
    bosses: Option<Vec<Boss>>,
    near: Option<Vec<Option<Sighting>>>,
) -> Seq<Seq<char>> {
    let title: Seq<Seq<char>> = seq!["# БОССЫ"@];
    match areas {
        None => title + seq!["  парамы не резолвятся"@],
        Some(a) => {
            let known: Seq<Seq<char>> = title + coverage(a@, table, ids) + seq![
                "  с воспоминанием: "@ + decimal(remembered(table).len()),
            ];
            match bosses {
                None => known + seq!["  реестр не строится"@],
                Some(bs) => {
                    let listed: Seq<Seq<char>> = known + seq![registry_line(bs@)];
                    match near {
                        None => listed,
                        Some(n) => listed + near_lines(
                            bs@,
                            n@,
                            by_distance(n@).take(
                                fewer(NEAR_SHOWN as int, by_distance(n@).len() as int),
                            ),
                        ),
                    }
                },
            }
        },
    }
}

/// The boss whose block of flags is worth a look.
pub open spec fn suspect(
    areas: Option<Vec<(u32, Cell)>>,
    bosses: Option<Vec<Boss>>,
    near: Option<Vec<Option<Sighting>>>,
) -> Option<u32> {
    match (areas, bosses, near) {
        (Some(_), Some(bs), Some(n)) => first_alive(bs@, n@, by_distance(n@)),
        _ => None,
    }
}

/// The diagnostics. `areas` are the flags and maps of the game's areas, `ids` the numbers of
/// the names that the game has a text for, `near` how far each boss is. Returns the lines,
/// and the flag of the nearest living boss: what is raised around it is told by `raised`.
pub fn probe(
    areas: &Option<Vec<(u32, Cell)>>,
    table: &HashMap<u32, TableRow>,
    ids: &HashSet<u32>,
    bosses: &Option<Vec<Boss>>,
    near: &Option<Vec<Option<Sighting>>>,
) -> (r: (Vec<String>, Option<u32>))
    requires
        bosses is Some && near is Some ==> bosses.unwrap()@.len() == near.unwrap()@.len(),
    ensures
        texts(r.0@) == probed(*areas, table@, ids@, *bosses, *near),
        r.1 == suspect(*areas, *bosses, *near),
{
    let mut out: Vec<String> = Vec::new();
    push_line(&mut out, "# БОССЫ".to_string());
    assert(texts(out@) == seq!["# БОССЫ"@]);
    let a: &Vec<(u32, Cell)> = match areas {
        Some(a) => a,
        None => {
            push_line(&mut out, "  парамы не резолвятся".to_string());
            assert(texts(out@) == seq!["# БОССЫ"@] + seq!["  парамы не резолвятся"@]);
            return (out, None);
        },
    };
    push_all(&mut out, &coverage_lines(a, table, ids));
    let flags: HashSet<u32> = remembrance_flags(table);
    assert(flags@ =~= remembered(table@));
    let mut v: Vec<char> = chars_of("  с воспоминанием: ");
    append(&mut v, &decimal_of(flags.len() as u64));
    let ghost before = texts(out@);
    push_line(&mut out, string_of(&v));
    assert(texts(out@) == before + seq![v@]);
    let bs: &Vec<Boss> = match bosses {
        Some(bs) => bs,
        None => {
            let ghost before = texts(out@);
            push_line(&mut out, "  реестр не строится".to_string());
            assert(texts(out@) == before + seq!["  реестр не строится"@]);
            return (out, None);
        },
    };
    let ghost before = texts(out@);
    push_line(&mut out, registry_text(bs));
    assert(texts(out@) == before + seq![registry_line(bs@)]);
    let n: &Vec<Option<Sighting>> = match near {
        Some(n) => n,
        None => {
            return (out, None);
        },
    };
    let order: Vec<usize> = order_of(n);
    let shown: usize = if order.len() < NEAR_SHOWN {
        order.len()
    } else {
        NEAR_SHOWN
    };
    let ghost before = texts(out@);
    let ghost all = near_lines(bs@, n@, order@.take(shown as int));
    assert(before + all.take(0) == before);
    for i in 0..shown
        invariant
            shown <= order.len(),
            bs.len() == n.len(),
            forall|j: int|
                0 <= j < order@.len() ==> (#[trigger] order@[j]) < n@.len() && n@[order@[j] as int] is Some,
            all == near_lines(bs@, n@, order@.take(shown as int)),
            texts(out@) == before + all.take(i as int),
    {
        let k: usize = order[i];
        assert(order@.take(shown as int)[i as int] == k);
        assert(n@[k as int] is Some);
        match &n[k] {
            Some(s) => {
                push_line(&mut out, near_text(&bs[k], s));
                assert(all[i as int] == near_line(bs@[k as int], *s));
                assert(all.take(i + 1) == all.take(i as int).push(all[i as int]));
                assert(before + all.take(i + 1) =~= (before + all.take(i as int)).push(
                    all[i as int],
                ));
            },
            None => {},
        }
    }
    assert(all.take(shown as int) == all);
    let mut i: usize = 0;
    assert(order@.skip(0) == order@);
    while i < order.len()
        invariant
            i <= order.len(),
            bs.len() == n.len(),
            forall|j: int|
                0 <= j < order@.len() ==> (#[trigger] order@[j]) < n@.len() && n@[order@[j] as int] is Some,
            order@ == by_distance(n@),
            areas is Some,
            *bosses == Some(*bs),
            *near == Some(*n),
            texts(out@) == probed(*areas, table@, ids@, *bosses, *near),
            first_alive(bs@, n@, order@) == first_alive(bs@, n@, order@.skip(i as int)),
        decreases order.len() - i,
    {
        let k: usize = order[i];
        assert(order@.skip(i as int)[0] == k);
        assert(order@.skip(i as int).skip(1) == order@.skip(i + 1));
        assert(n@[k as int] is Some);
        match &n[k] {
            Some(s) => {
                if !s.killed {
                    return (out, Some(bs[k].flag));
                }
            },
            None => {},
        }
        i = i + 1;
    }
    (out, None)
}

// ---------------------------------------------------------------------------
// Raised flags
// ---------------------------------------------------------------------------

/// The numbers of the first `n` flags of a block that are raised.
pub open spec fn raised_numbers(up: Seq<bool>, n: int) -> Seq<Seq<char>>
    decreases n,
{
    if n <= 0 {
        Seq::empty()
    } else if up[n - 1] {
        raised_numbers(up, n - 1).push(decimal((n - 1) as nat))
    } else {
        raised_numbers(up, n - 1)
    }
}

/// The first flag of a block of a thousand.
pub open spec fn block_of(flag: u32) -> int {
    flag - flag % 1000
}

/// What is told of the raised flags of a block.
pub open spec fn raised_lines(flag: u32, up: Seq<bool>) -> Seq<Seq<char>> {
    let all: Seq<Seq<char>> = raised_numbers(up, up.len() as int);
    seq!["  подняты в "@ + decimal((flag / 1000) as nat) + "xxx:"@] + part_lines(
        all.take(fewer(RAISED_SHOWN as int, all.len() as int)),
        12,
        " "@,
    )
}

/// The first flag of the block of a thousand around `flag`.
pub fn block_start(flag: u32) -> (r: u32)
    ensures
        r == block_of(flag),
{
    flag / 1000 * 1000
}

/// What the game has raised in the block of a thousand flags around `flag`: if a kill raises
/// another flag than the game's table names, it is among these. `up` are the flags of the
/// block; the first of those raised are told.
pub fn raised(flag: u32, up: &Vec<bool>) -> (r: Vec<String>)
    ensures
        texts(r@) == raised_lines(flag, up@),
{
    let mut v: Vec<char> = chars_of("  подняты в ");
    append(&mut v, &decimal_of((flag / 1000) as u64));
    append_text(&mut v, "xxx:");
    let mut out: Vec<String> = Vec::new();
    push_line(&mut out, string_of(&v));
    assert(texts(out@) == seq![v@]);
    let mut parts: Vec<String> = Vec::new();
    let ghost mut all: Seq<Seq<char>> = Seq::empty();
    assert(texts(parts@) == all.take(0));
    for i in 0..up.len()
        invariant
            all == raised_numbers(up@, i as int),
            parts.len() <= RAISED_SHOWN,
            texts(parts@) == all.take(fewer(RAISED_SHOWN as int, all.len() as int)),
    {
        if up[i] {
            let ghost was = parts@;
            let ghost next = all.push(decimal(i as nat));
            if parts.len() < RAISED_SHOWN {
                let p: String = string_of(&decimal_of(i as u64));
                parts.push(p);
                proof {
                    assert(texts(was).len() == was.len());
                    assert(all.len() < RAISED_SHOWN);
                    assert(texts(parts@) == texts(was).push(decimal(i as nat)));
                    assert(all.take(all.len() as int) == all);
                    assert(next.take(next.len() as int) == next);
                }
            } else {
                proof {
                    assert(texts(was).len() == was.len());
                    assert(next.take(RAISED_SHOWN as int) == all.take(RAISED_SHOWN as int));
                }
            }
            proof {
                all = next;
            }
        }
    }
    push_all(&mut out, &lines_of_parts(&parts, 12, " "));
    out
}

// ---------------------------------------------------------------------------
// Laws
// ---------------------------------------------------------------------------

/// The list of flags is sorted.
pub open spec fn increasing(fs: Seq<u32>) -> bool {
    forall|i: int, j: int| 0 <= i < j < fs.len() ==> (#[trigger] fs[i]) < (#[trigger] fs[j])
}

proof fn lemma_sorted_in(fs: Seq<u32>, f: u32)
    requires
        increasing(fs),
    ensures
        increasing(sorted_in(fs, f)),
        forall|g: u32| #[trigger]
            sorted_in(fs, f).contains(g) <==> fs.contains(g) || g == f,
    decreases fs.len(),
{
    let out = sorted_in(fs, f);
    if fs.len() == 0 || f < fs[0] {
        assert(out == seq![f] + fs);
        assert(out[0] == f);
        assert forall|g: u32| #[trigger] out.contains(g) <==> fs.contains(g) || g == f by {
            if fs.contains(g) {
                let i = choose|i: int| 0 <= i < fs.len() && fs[i] == g;
                assert(out[i + 1] == g);
            }
        }
    } else if f != fs[0] {
        let rest = fs.skip(1);
        assert(increasing(rest)) by {
            assert forall|i: int, j: int| 0 <= i < j < rest.len() implies (#[trigger] rest[i]) < (
            #[trigger] rest[j]) by {
                assert(rest[i] == fs[i + 1] && rest[j] == fs[j + 1]);
            }
        }
        lemma_sorted_in(rest, f);
        let tail = sorted_in(rest, f);
        assert(out == seq![fs[0]] + tail);
        assert forall|i: int, j: int| 0 <= i < j < out.len() implies (#[trigger] out[i]) < (
        #[trigger] out[j]) by {
            if i == 0 {
                assert(tail.contains(tail[j - 1]));
                if rest.contains(tail[j - 1]) {
                    let k = choose|k: int| 0 <= k < rest.len() && rest[k] == tail[j - 1];
                    assert(fs[k + 1] == tail[j - 1]);
                }
            } else {
                assert(out[i] == tail[i - 1] && out[j] == tail[j - 1]);
            }
        }
        assert forall|g: u32| #[trigger] out.contains(g) <==> fs.contains(g) || g == f by {
            if fs.contains(g) {
                let i = choose|i: int| 0 <= i < fs.len() && fs[i] == g;
                if i == 0 {
                    assert(out[0] == g);
                } else {
                    assert(rest[i - 1] == g);
                    assert(tail.contains(g));
                }
            }
            if tail.contains(g) {
                let i = choose|i: int| 0 <= i < tail.len() && tail[i] == g;
                assert(out[i + 1] == g);
                if rest.contains(g) {
                    let k = choose|k: int| 0 <= k < rest.len() && rest[k] == g;
                    assert(fs[k + 1] == g);
                }
            }
            if out.contains(g) {
                let i = choose|i: int| 0 <= i < out.len() && out[i] == g;
                if i == 0 {
                    assert(fs[0] == g);
                } else {
                    assert(tail[i - 1] == g);
                }
            }
            assert(tail.contains(f));
        }
    }
}

/// The list of flags is sorted and holds each flag of the areas once, and no other.
pub proof fn every_flag_is_listed_once(areas: Seq<(u32, Cell)>)
    ensures
        increasing(flags_of(areas)),
        forall|f: u32| #[trigger]
            flags_of(areas).contains(f) <==> f != 0 && exists|i: int|
                0 <= i < areas.len() && (#[trigger] areas[i]).0 == f,
    decreases areas.len(),
{
    if areas.len() > 0 {
        let front = areas.drop_last();
        every_flag_is_listed_once(front);
        lemma_sorted_in(flags_of(front), areas.last().0);
        assert forall|f: u32| #[trigger] flags_of(areas).contains(f) <==> f != 0 && exists|i: int|
            0 <= i < areas.len() && (#[trigger] areas[i]).0 == f by {
            if flags_of(front).contains(f) {
                let i = choose|i: int| 0 <= i < front.len() && (#[trigger] front[i]).0 == f;
                assert(areas[i].0 == f);
            }
            if areas.last().0 == f && f != 0 {
                assert(areas[areas.len() - 1].0 == f);
            }
            if f != 0 && exists|i: int| 0 <= i < areas.len() && (#[trigger] areas[i]).0 == f {
                let i = choose|i: int| 0 <= i < areas.len() && (#[trigger] areas[i]).0 == f;
                if i < front.len() {
                    assert(front[i].0 == f);
                }
            }
        }
    }
}

} // verus!
