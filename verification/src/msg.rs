//! The game's texts. The game holds them in buffers; a buffer has a header, groups of
//! consecutive ids, a table of offsets and the strings themselves in UTF-16.

use vstd::prelude::*;
use crate::bosses::opt_text;
use crate::utf16::{decode, decoded, until_zero, units_before_zero};

verus! {

/// The buffer with the names of places and of markers on the map.
pub const PLACE_NAME: usize = 19;

/// The buffer with the names of enemies and bosses.
pub const NPC_NAME: usize = 18;

/// No string is longer than this many units.
pub const MAX_CHARS: usize = 512;

/// An offset beyond this is an address: the game turns offsets into addresses when it
/// loads a buffer.
pub const ABSOLUTE: u64 = 0x100_0000;

// ---------------------------------------------------------------------------
// Numbers in a buffer
// ---------------------------------------------------------------------------

/// The number in some bytes, the lowest first.
pub open spec fn number(b: Seq<u8>) -> nat
    decreases b.len(),
{
    if b.len() == 0 {
        0
    } else {
        b[0] as nat + 256 * number(b.skip(1))
    }
}

/// A number of `n` bytes at a place in a buffer, if it is all there.
pub open spec fn number_at(b: Seq<u8>, at: int, n: int) -> Option<nat> {
    if 0 <= at && at + n <= b.len() {
        Some(number(b.subrange(at, at + n)))
    } else {
        None
    }
}

/// A number of 32 bits with a sign.
pub open spec fn with_sign(n: nat) -> int {
    if n >= 0x8000_0000 {
        n - 0x1_0000_0000
    } else {
        n as int
    }
}

proof fn lemma_number_bound(b: Seq<u8>)
    ensures
        b.len() == 2 ==> number(b) < 0x1_0000,
        b.len() == 4 ==> number(b) < 0x1_0000_0000,
        b.len() == 8 ==> number(b) < 0x1_0000_0000_0000_0000,
{
    reveal_with_fuel(number, 9);
}

fn read(b: &Vec<u8>, at: u64, n: u64) -> (r: Option<u64>)
    requires
        n == 2 || n == 4 || n == 8,
    ensures
        match r {
            Some(x) => number_at(b@, at as int, n as int) == Some(x as nat),
            None => number_at(b@, at as int, n as int) is None,
        },
{
    let len: u64 = b.len() as u64;
    if n > len || at > len - n {
        return None;
    }
    let from: usize = at as usize;
    let ghost s = b@.subrange(at as int, at + n);
    let mut i: usize = n as usize;
    let mut x: u64 = 0;
    proof {
        assert(s.skip(n as int) == Seq::<u8>::empty());
    }
    while i > 0
        invariant
            i <= n,
            n == 2 || n == 4 || n == 8,
            from == at,
            at + n <= b.len(),
            s == b@.subrange(at as int, at + n),
            x == number(s.skip(i as int)),
            x < pow256(n - i),
        decreases i,
    {
        i = i - 1;
        let byte: u8 = b[from + i];
        proof {
            assert(s.skip(i as int)[0] == byte);
            assert(s.skip(i as int).skip(1) == s.skip(i + 1));
            reveal_with_fuel(pow256, 9);
        }
        assert(byte + 256 * x < pow256(n - i)) by {
            reveal_with_fuel(pow256, 9);
        }
        assert(pow256(n - i) <= 0x1_0000_0000_0000_0000) by {
            reveal_with_fuel(pow256, 9);
        }
        x = byte as u64 + 256 * x;
    }
    assert(s.skip(0) == s);
    Some(x)
}

spec fn pow256(n: int) -> int
    decreases n,
{
    if n <= 0 {
        1
    } else {
        256 * pow256(n - 1)
    }
}

// ---------------------------------------------------------------------------
// A buffer
// ---------------------------------------------------------------------------

/// The header of a buffer: how many groups and strings there are, and where the table of
/// offsets is. A buffer without groups or with numbers beyond all reason is out of date
/// and must not be walked.
pub open spec fn header_of(groups: u32, strings: u32, raw: u64) -> bool {
    groups != 0 && groups <= 0x10_0000 && strings <= 0x20_0000 && raw != 0
}

/// Whether the numbers of a header make sense.
pub fn header(groups: u32, strings: u32, raw: u64) -> (r: bool)
    ensures
        r == header_of(groups, strings, raw),
{
    groups != 0 && groups <= 0x10_0000 && strings <= 0x20_0000 && raw != 0
}

/// Where an offset leads within a buffer that stands at `base`, unless it leads before it.
pub open spec fn place_in(base: u64, off: u64) -> Option<int> {
    if off <= ABSOLUTE {
        Some(off as int)
    } else if off >= base {
        Some(off - base)
    } else {
        None
    }
}

/// The entry with the number `n` of the table of offsets.
pub open spec fn offset_in(b: Seq<u8>, base: u64, raw: u64, n: int) -> Option<nat> {
    match place_in(base, raw) {
        Some(table) => number_at(b, table + 8 * n, 8),
        None => None,
    }
}

/// The string at an offset.
pub open spec fn string_in(b: Seq<u8>, base: u64, off: u64) -> Option<Seq<char>> {
    match place_in(base, off) {
        Some(at) => if off == 0 {
            None
        } else {
            string_text(units_in(b, at, MAX_CHARS as int))
        },
        None => None,
    }
}

/// The address that an offset means for a buffer at `base`, unless it is beyond all memory.
pub open spec fn address_of(base: u64, off: u64) -> Option<int> {
    if off > ABSOLUTE {
        Some(off as int)
    } else if base + off <= u64::MAX {
        Some(base + off)
    } else {
        None
    }
}

/// The address that an offset means for a buffer at `base`.
pub fn address(base: u64, off: u64) -> (r: Option<u64>)
    ensures
        match r {
            Some(a) => address_of(base, off) == Some(a as int),
            None => address_of(base, off) is None,
        },
{
    if off > ABSOLUTE {
        Some(off)
    } else {
        base.checked_add(off)
    }
}

/// A group of consecutive ids and the number of their first string.
#[derive(Clone, Copy, Debug, PartialEq, Eq, Structural)]
pub struct Group {
    pub string_index: i32,
    pub first_id: i32,
    pub last_id: i32,
}

/// Whether the id belongs to the group.
pub open spec fn in_group(g: Group, id: i32) -> bool {
    g.first_id <= id <= g.last_id
}

/// The number of the string with the id, by the first group that the id belongs to.
pub open spec fn string_number(gs: Seq<Group>, strings: u32, id: i32) -> Option<int>
    decreases gs.len(),
{
    if gs.len() == 0 {
        None
    } else if in_group(gs[0], id) {
        let n: int = gs[0].string_index + (id - gs[0].first_id);
        if 0 <= n < strings {
            Some(n)
        } else {
            None
        }
    } else {
        string_number(gs.skip(1), strings, id)
    }
}

/// The number of the string with the id.
pub fn string_index(groups: &Vec<Group>, strings: u32, id: i32) -> (r: Option<u32>)
    ensures
        match r {
            Some(n) => string_number(groups@, strings, id) == Some(n as int),
            None => string_number(groups@, strings, id) is None,
        },
{
    assert(groups@.skip(0) == groups@);
    for k in 0..groups.len()
        invariant
            string_number(groups@, strings, id) == string_number(
                groups@.skip(k as int),
                strings,
                id,
            ),
    {
        let g: Group = groups[k];
        proof {
            assert(groups@.skip(k as int)[0] == g);
            assert(groups@.skip(k as int).skip(1) == groups@.skip(k + 1));
        }
        if g.first_id <= id && id <= g.last_id {
            let n: i64 = g.string_index as i64 + (id as i64 - g.first_id as i64);
            if 0 <= n && n < strings as i64 {
                return Some(n as u32);
            }
            return None;
        }
    }
    None
}

/// The text of a string up to its zero. An empty one means that there is no entry, not an
/// empty name.
pub open spec fn string_text(units: Seq<u16>) -> Option<Seq<char>> {
    let n: int = units_before_zero(units, MAX_CHARS as int);
    if n == 0 {
        None
    } else {
        Some(decoded(units.take(n)))
    }
}

/// The text of a string up to its zero.
pub fn utf16(units: &Vec<u16>) -> (r: Option<String>)
    ensures
        opt_text(r) == string_text(units@),
{
    let v: Vec<u16> = until_zero(units, MAX_CHARS);
    proof {
        lemma_units_before_zero(units@, MAX_CHARS as int);
    }
    if v.len() == 0 {
        None
    } else {
        Some(decode(&v))
    }
}

proof fn lemma_units_before_zero(s: Seq<u16>, limit: int)
    ensures
        0 <= units_before_zero(s, limit) <= s.len(),
    decreases limit,
{
    if !(limit <= 0 || s.len() == 0 || s[0] == 0) {
        lemma_units_before_zero(s.skip(1), limit - 1);
    }
}

/// The groups of a buffer, as many as `n` and as there are.
pub open spec fn groups_in(b: Seq<u8>, n: int) -> Seq<Group>
    decreases n,
{
    if n <= 0 {
        Seq::empty()
    } else {
        let before: Seq<Group> = groups_in(b, n - 1);
        let at: int = 0x28 + 16 * (n - 1);
        match (number_at(b, at, 4), number_at(b, at + 4, 4), number_at(b, at + 8, 4)) {
            (Some(i), Some(first), Some(last)) => before.push(
                Group {
                    string_index: with_sign(i) as i32,
                    first_id: with_sign(first) as i32,
                    last_id: with_sign(last) as i32,
                },
            ),
            _ => before,
        }
    }
}

/// The units from a place in a buffer to its end, at most `n`.
pub open spec fn units_in(b: Seq<u8>, at: int, n: int) -> Seq<u16>
    decreases n,
{
    if n <= 0 {
        Seq::empty()
    } else {
        let before: Seq<u16> = units_in(b, at, n - 1);
        match number_at(b, at + 2 * (n - 1), 2) {
            Some(u) => before.push(u as u16),
            None => before,
        }
    }
}

/// The text with an id in a buffer that stands at `base`.
pub open spec fn text_in(b: Seq<u8>, base: u64, id: i32) -> Option<Seq<char>> {
    match (number_at(b, 0x0C, 4), number_at(b, 0x10, 4), number_at(b, 0x18, 8)) {
        (Some(groups), Some(strings), Some(raw)) => if id <= 0 || !header_of(
            groups as u32,
            strings as u32,
            raw as u64,
        ) {
            None
        } else {
            match string_number(groups_in(b, groups as int), strings as u32, id) {
                Some(n) => match offset_in(b, base, raw as u64, n) {
                    Some(off) => string_in(b, base, off as u64),
                    None => None,
                },
                None => None,
            }
        },
        _ => None,
    }
}

fn signed_of(x: u64) -> (r: i32)
    requires
        x < 0x1_0000_0000,
    ensures
        r == with_sign(x as nat),
{
    if x >= 0x8000_0000 {
        (x as i64 - 0x1_0000_0000) as i32
    } else {
        x as i32
    }
}

proof fn lemma_number_at_bound(b: Seq<u8>, at: int, n: int)
    requires
        n == 2 || n == 4 || n == 8,
    ensures
        number_at(b, at, n) matches Some(x) ==> (n == 2 ==> x < 0x1_0000) && (n == 4 ==> x
            < 0x1_0000_0000) && (n == 8 ==> x < 0x1_0000_0000_0000_0000),
{
    if 0 <= at && at + n <= b.len() {
        lemma_number_bound(b.subrange(at, at + n));
    }
}

fn read_groups(b: &Vec<u8>, n: u32) -> (r: Vec<Group>)
    requires
        n <= 0x10_0000,
    ensures
        r@ == groups_in(b@, n as int),
{
    let mut r: Vec<Group> = Vec::new();
    for k in 0..n
        invariant
            n <= 0x10_0000,
            r@ == groups_in(b@, k as int),
    {
        let at: u64 = 0x28 + 16 * k as u64;
        proof {
            lemma_number_at_bound(b@, at as int, 4);
            lemma_number_at_bound(b@, at + 4, 4);
            lemma_number_at_bound(b@, at + 8, 4);
        }
        match (read(b, at, 4), read(b, at + 4, 4), read(b, at + 8, 4)) {
            (Some(i), Some(first), Some(last)) => {
                r.push(
                    Group {
                        string_index: signed_of(i),
                        first_id: signed_of(first),
                        last_id: signed_of(last),
                    },
                );
            },
            _ => {},
        }
    }
    r
}

fn read_units(b: &Vec<u8>, at: u64) -> (r: Vec<u16>)
    ensures
        r@ == units_in(b@, at as int, MAX_CHARS as int),
{
    let mut r: Vec<u16> = Vec::new();
    let len: usize = b.len();
    for k in 0..MAX_CHARS
        invariant
            len == b@.len(),
            r@ == units_in(b@, at as int, k as int),
    {
        proof {
            lemma_number_at_bound(b@, at + 2 * k, 2);
        }
        let unit: Option<u64> = match at.checked_add(2 * k as u64) {
            Some(p) => read(b, p, 2),
            None => None,
        };
        match unit {
            Some(u) => {
                r.push(u as u16);
            },
            None => {},
        }
    }
    r
}

fn spot(base: u64, off: u64) -> (r: Option<u64>)
    ensures
        match r {
            Some(p) => place_in(base, off) == Some(p as int),
            None => place_in(base, off) is None,
        },
{
    if off > ABSOLUTE {
        off.checked_sub(base)
    } else {
        Some(off)
    }
}

/// The text with an id in a buffer that stands at `base`. Addresses that lead out of the
/// buffer, and numbers beyond its end, are read as if there were no entry.
pub fn lookup(b: &Vec<u8>, base: u64, id: i32) -> (r: Option<String>)
    ensures
        opt_text(r) == text_in(b@, base, id),
{
    proof {
        lemma_number_at_bound(b@, 0x0C, 4);
        lemma_number_at_bound(b@, 0x10, 4);
        lemma_number_at_bound(b@, 0x18, 8);
    }
    let len: usize = b.len();
    match (read(b, 0x0C, 4), read(b, 0x10, 4), read(b, 0x18, 8)) {
        (Some(groups), Some(strings), Some(raw)) => {
            if id <= 0 || !header(groups as u32, strings as u32, raw) {
                return None;
            }
            let gs: Vec<Group> = read_groups(b, groups as u32);
            let n: u32 = match string_index(&gs, strings as u32, id) {
                Some(n) => n,
                None => {
                    return None;
                },
            };
            let table: u64 = match spot(base, raw) {
                Some(p) => p,
                None => {
                    return None;
                },
            };
            let entry: Option<u64> = match table.checked_add(8 * n as u64) {
                Some(p) => read(b, p, 8),
                None => None,
            };
            proof {
                lemma_number_at_bound(b@, table + 8 * n, 8);
                assert(len == b@.len());
            }
            match entry {
                Some(off) => {
                    if off == 0 {
                        return None;
                    }
                    match spot(base, off) {
                        Some(p) => utf16(&read_units(b, p)),
                        None => None,
                    }
                },
                None => None,
            }
        },
        _ => None,
    }
}

/// The numbers of the buffers for one kind of text.
pub open spec fn layers_of(slot: int) -> Seq<int> {
    seq![slot, slot + 310, slot + 410]
}

/// The first of three texts that there is.
pub open spec fn layered(
    base: Option<Seq<char>>,
    first: Option<Seq<char>>,
    second: Option<Seq<char>>,
) -> Option<Seq<char>> {
    if base is Some {
        base
    } else if first is Some {
        first
    } else {
        second
    }
}

/// The numbers of the buffers that hold one kind of text: the base game and its two
/// additions.
pub fn layers(slot: usize) -> (r: [usize; 3])
    requires
        slot <= usize::MAX - 410,
    ensures
        r@.map_values(|n: usize| n as int) == layers_of(slot as int),
{
    let r: [usize; 3] = [slot, slot + 310, slot + 410];
    assert(r@.map_values(|n: usize| n as int) =~= layers_of(slot as int));
    r
}

/// A text of the base game or, where it has none, of its additions: what each of the
/// `layers` holds.
pub fn text_layered(base: Option<String>, first: Option<String>, second: Option<String>) -> (r:
    Option<String>)
    ensures
        opt_text(r) == layered(opt_text(base), opt_text(first), opt_text(second)),
{
    match base {
        Some(s) => Some(s),
        None => match first {
            Some(s) => Some(s),
            None => second,
        },
    }
}

/// The first text that is found in any buffer.
pub open spec fn first_text(found: Seq<Option<String>>) -> Option<Seq<char>>
    decreases found.len(),
{
    if found.len() == 0 {
        None
    } else if found[0] is Some {
        opt_text(found[0])
    } else {
        first_text(found.skip(1))
    }
}

/// A text with an id, of those that the buffers hold.
pub open spec fn found_anywhere(id: i32, found: Seq<Option<String>>) -> Option<Seq<char>> {
    if id <= 0 {
        None
    } else {
        first_text(found)
    }
}

/// A text whose buffer is not known beforehand: `found` is what each buffer holds.
pub fn text_anywhere(id: i32, found: &Vec<Option<String>>) -> (r: Option<String>)
    ensures
        opt_text(r) == found_anywhere(id, found@),
{
    if id <= 0 {
        return None;
    }
    assert(found@.skip(0) == found@);
    for i in 0..found.len()
        invariant
            first_text(found@) == first_text(found@.skip(i as int)),
            id > 0,
    {
        assert(found@.skip(i as int)[0] == found@[i as int]);
        assert(found@.skip(i as int).skip(1) == found@.skip(i + 1));
        match &found[i] {
            Some(s) => {
                return Some(s.clone());
            },
            None => {},
        }
    }
    None
}

} // verus!
