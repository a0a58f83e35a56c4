//! What holds of input, of the game's texts and of text in UTF-16.

use vstd::prelude::*;
use crate::input::{
    held_from, holds_release, is_captured, is_down, is_focused, let_go, opened, pressing,
    release_only, releasing, told_bytes, told_size, wide,
};
use crate::msg::{
    address_of, found_anywhere, groups_in, header_of, layered, layers_of, number, number_at,
    place_in, string_number, string_text, text_in, units_in, with_sign, Group,
};
use crate::utf16::{decoded, encoded, units_before_zero};

verus! {

// ---------------------------------------------------------------------------
// Input
// ---------------------------------------------------------------------------

/// A frame holds the input for a quarter of a second and no longer; once it is let go it is
/// the game's at once.
pub proof fn how_long_input_is_held(now: u64, later: u64)
    requires
        now + 250 <= u64::MAX,
        now <= later,
    ensures
        later < now + 250 ==> is_captured(held_from(now), later),
        later >= now + 250 ==> !is_captured(held_from(now), later),
        !is_captured(let_go(), later),
{
}

/// Of a mouse event every release of a button reaches the game, and nothing else of it does:
/// whatever is not buttons, wheel or movement is as it was.
pub proof fn releases_of_buttons_stay(e: Seq<u8>, size: int, i: int)
    requires
        48 <= size <= e.len(),
        e[0] == 0 && e[1] == 0 && e[2] == 0 && e[3] == 0,
        0 <= i < e.len(),
    ensures
        release_only(e, size).len() == e.len(),
        (i < 28 || i >= 44) ==> release_only(e, size)[i] == e[i],
        release_only(e, size)[28] & 0xAA == e[28] & 0xAA,
        release_only(e, size)[28] & 0x55 == 0,
        release_only(e, size)[29] & 0x02 == e[29] & 0x02,
        release_only(e, size)[29] & 0xFD == 0,
        30 <= i < 44 ==> release_only(e, size)[i] == 0,
        holds_release(e, size) <==> release_only(e, size)[28] != 0 || release_only(e, size)[29]
            != 0,
{
    let (a, b) = (e[28], e[29]);
    assert((a & 0xAA) & 0xAA == a & 0xAA && (a & 0xAA) & 0x55 == 0) by (bit_vector);
    assert((b & 0x02) & 0x02 == b & 0x02 && (b & 0x02) & 0xFD == 0) by (bit_vector);
}

/// Of a key only its release reaches the game, and that as it is.
pub proof fn releases_of_keys_stay(e: Seq<u8>, size: int)
    requires
        27 <= size <= e.len(),
        e[0] == 1 && e[1] == 0 && e[2] == 0 && e[3] == 0,
    ensures
        release_only(e, size) == e,
        size >= 40 ==> (holds_release(e, size) <==> e[26] & 0x01 != 0),
        size < 40 ==> !holds_release(e, size),
{
}

/// Input that is not held, or is only asked for its size, reaches the game as it is. Of input
/// that is held the game learns nothing but releases.
pub proof fn what_the_game_is_told(captured: bool, command: u32, got: u32, data: Seq<u8>)
    ensures
        (!captured || command != 0x1000_0003 || got == 0xFFFF_FFFF) ==> told_size(
            captured,
            command,
            got,
            Some(data),
        ) == got && told_bytes(captured, command, got, data) == data,
        told_size(captured, command, got, None) == got,
        (captured && command == 0x1000_0003 && got != 0xFFFF_FFFF && !holds_release(
            data,
            got as int,
        )) ==> told_size(captured, command, got, Some(data)) == 0,
        (captured && command == 0x1000_0003 && got != 0xFFFF_FFFF && holds_release(
            data,
            got as int,
        )) ==> told_size(captured, command, got, Some(data)) == got && told_bytes(
            captured,
            command,
            got,
            data,
        ) == release_only(data, got as int),
{
}

/// A key goes down and up by the same scan code; going up is the flag 2, an extended key the
/// flag 1, and every event says by the flag 8 that it is a scan code.
pub proof fn keys_go_down_and_up(scan: u32, extended: bool)
    ensures
        pressing(scan, extended).scan == releasing(scan, extended).scan,
        releasing(scan, extended).flags == pressing(scan, extended).flags + 2,
        pressing(scan, true).flags == 9,
        pressing(scan, false).flags == 8,
        scan < 256 ==> pressing(scan, extended).scan == scan,
{
}

/// Two keys with different scan codes are different keys.
pub proof fn keys_do_not_mix(a: u32, b: u32, extended: bool)
    requires
        a < 256,
        b < 256,
        a != b,
    ensures
        pressing(a, extended) != pressing(b, extended),
        pressing(a, true) != pressing(a, false),
{
    assert(pressing(a, extended).scan == a && pressing(b, extended).scan == b);
    assert(pressing(a, true).flags != pressing(a, false).flags);
}

/// The game has the focus exactly if there is a window in front and its process is the game's.
pub proof fn when_the_game_has_the_focus(window: u64, owner: u32, own: u32)
    ensures
        is_focused(0, owner, own) == false,
        owner != own ==> !is_focused(window, owner, own),
        (window != 0 && owner == own && own != 0) ==> is_focused(window, owner, own),
{
}

/// A key is down by the highest bit of its state.
pub proof fn when_a_key_is_down(state: u16)
    ensures
        is_down(state as i16) <==> state >= 0x8000,
{
    assert(((state as i16) < 0) <==> state >= 0x8000) by (bit_vector);
}

/// A link to a page is opened as it is written.
pub proof fn pages_are_opened(rest: Seq<char>)
    ensures
        opened("http://"@ + rest) == Some(encoded("http://"@ + rest) + seq![0u16]),
        opened("https://"@ + rest) == Some(encoded("https://"@ + rest) + seq![0u16]),
{
    let a = "http://"@ + rest;
    let b = "https://"@ + rest;
    assert(a.take("http://"@.len() as int) == "http://"@);
    assert(b.take("https://"@.len() as int) == "https://"@);
    assert(wide(a) == encoded(a) + seq![0u16]);
    assert(wide(b) == encoded(b) + seq![0u16]);
}

/// Whatever does not begin with the letters `http` is not opened, be it a file or a program.
pub proof fn nothing_else_is_opened(url: Seq<char>)
    requires
        url.len() < 5 || url.take(4) != seq!['h', 't', 't', 'p'] || (url[4] != ':' && url[4]
            != 's'),
    ensures
        opened(url) is None,
{
    reveal_strlit("http://");
    reveal_strlit("https://");
    if opened(url) is Some {
        if crate::input::begins_with(url, "http://"@) {
            let t = url.take("http://"@.len() as int);
            assert(t[0] == url[0] && t[1] == url[1] && t[2] == url[2] && t[3] == url[3] && t[4]
                == url[4]);
        } else {
            let t = url.take("https://"@.len() as int);
            assert(t[0] == url[0] && t[1] == url[1] && t[2] == url[2] && t[3] == url[3] && t[4]
                == url[4]);
        }
        assert(url.take(4) =~= seq!['h', 't', 't', 'p']);
    }
}

// ---------------------------------------------------------------------------
// Text in UTF-16
// ---------------------------------------------------------------------------

/// A text ends at its first zero, or at the limit, or with the units.
pub proof fn a_text_ends_at_its_zero(s: Seq<u16>, limit: int)
    requires
        limit >= 0,
    ensures
        0 <= units_before_zero(s, limit) <= s.len(),
        units_before_zero(s, limit) <= limit,
        forall|i: int| 0 <= i < units_before_zero(s, limit) ==> #[trigger] s[i] != 0,
        units_before_zero(s, limit) < s.len() && units_before_zero(s, limit) < limit ==> s[
        units_before_zero(s, limit)] == 0,
    decreases limit,
{
    if !(limit <= 0 || s.len() == 0 || s[0] == 0) {
        a_text_ends_at_its_zero(s.skip(1), limit - 1);
        assert forall|i: int| 0 <= i < units_before_zero(s, limit) implies #[trigger] s[i]
            != 0 by {
            if i > 0 {
                assert(s[i] == s.skip(1)[i - 1]);
            }
        }
    }
}

/// A unit that is half of nothing is shown as the replacement character, and what follows it is
/// read as if it were not there.
pub proof fn halves_are_replaced(u: u16, rest: Seq<u16>)
    ensures
        0xDC00 <= u <= 0xDFFF ==> decoded(seq![u] + rest) == seq!['\u{fffd}'] + decoded(rest),
        (0xD800 <= u <= 0xDBFF && (rest.len() == 0 || rest[0] < 0xDC00 || rest[0] > 0xDFFF))
            ==> decoded(seq![u] + rest) == seq!['\u{fffd}'] + decoded(rest),
        (u < 0xD800 || u > 0xDFFF) ==> decoded(seq![u] + rest) == seq![u as char] + decoded(rest),
{
    let s = seq![u] + rest;
    assert(s[0] == u);
    assert(s.skip(1) == rest);
    if rest.len() > 0 {
        assert(s[1] == rest[0]);
    }
}

// ---------------------------------------------------------------------------
// The game's texts
// ---------------------------------------------------------------------------

/// A number stands with its lowest byte first.
pub proof fn the_lowest_byte_comes_first(b: Seq<u8>, at: int)
    ensures
        (0 <= at && at + 2 <= b.len()) ==> number_at(b, at, 2) == Some(
            (b[at] + 256 * b[at + 1]) as nat,
        ),
        (0 <= at && at + 4 <= b.len()) ==> number_at(b, at, 4) == Some(
            (b[at] + 0x100 * b[at + 1] + 0x1_0000 * b[at + 2] + 0x100_0000 * b[at + 3]) as nat,
        ),
        (0 <= at && at + 8 <= b.len()) ==> number_at(b, at, 8) == Some(
            (number_at(b, at, 4).unwrap() + 0x1_0000_0000 * number_at(b, at + 4, 4).unwrap()) as nat,
        ),
        at + 2 > b.len() ==> number_at(b, at, 2) is None,
        at + 4 > b.len() ==> number_at(b, at, 4) is None,
        at + 8 > b.len() ==> number_at(b, at, 8) is None,
{
    if 0 <= at && at + 2 <= b.len() {
        lemma_number_step(b, at, 2);
        lemma_number_step(b, at + 1, 1);
    }
    if 0 <= at && at + 4 <= b.len() {
        lemma_number_four(b, at);
    }
    if 0 <= at && at + 8 <= b.len() {
        lemma_number_four(b, at + 4);
        lemma_number_step(b, at, 8);
        lemma_number_step(b, at + 1, 7);
        lemma_number_step(b, at + 2, 6);
        lemma_number_step(b, at + 3, 5);
    }
}

proof fn lemma_number_four(b: Seq<u8>, at: int)
    requires
        0 <= at && at + 4 <= b.len(),
    ensures
        number(b.subrange(at, at + 4)) == b[at] + 0x100 * b[at + 1] + 0x1_0000 * b[at + 2]
            + 0x100_0000 * b[at + 3],
{
    lemma_number_step(b, at, 4);
    lemma_number_step(b, at + 1, 3);
    lemma_number_step(b, at + 2, 2);
    lemma_number_step(b, at + 3, 1);
}

proof fn lemma_number_step(b: Seq<u8>, at: int, n: int)
    requires
        0 <= at,
        0 < n,
        at + n <= b.len(),
    ensures
        number(b.subrange(at, at + n)) == b[at] + 256 * number(b.subrange(at + 1, at + n)),
        n == 1 ==> number(b.subrange(at + 1, at + n)) == 0,
{
    let s = b.subrange(at, at + n);
    assert(s[0] == b[at]);
    assert(s.skip(1) == b.subrange(at + 1, at + n));
}

/// A number of 32 bits with the highest one set is negative.
pub proof fn the_highest_bit_is_the_sign(n: u32)
    ensures
        n < 0x8000_0000 ==> with_sign(n as nat) == n,
        n >= 0x8000_0000 ==> with_sign(n as nat) == n - 0x1_0000_0000 && with_sign(n as nat) < 0,
{
}

/// A buffer is walked only with some groups, at most a million or so of them, at most twice as
/// many strings, and a table of offsets.
pub proof fn which_buffers_are_walked(groups: u32, strings: u32, raw: u64)
    ensures
        groups == 0 ==> !header_of(groups, strings, raw),
        raw == 0 ==> !header_of(groups, strings, raw),
        groups > 1_048_576 ==> !header_of(groups, strings, raw),
        strings > 2_097_152 ==> !header_of(groups, strings, raw),
        (1 <= groups <= 1_048_576 && strings <= 2_097_152 && raw != 0) ==> header_of(
            groups,
            strings,
            raw,
        ),
{
}

/// A small offset counts from the start of the buffer, a large one is an address: either way
/// what is read is what stands there.
pub proof fn what_an_offset_means(base: u64, off: u64)
    ensures
        off <= 16_777_216 ==> place_in(base, off) == Some(off as int),
        (off > 16_777_216 && off >= base) ==> place_in(base, off) == Some(off - base),
        (off > 16_777_216 && off < base) ==> place_in(base, off) is None,
        off > 16_777_216 ==> address_of(base, off) == Some(off as int),
        (off <= 16_777_216 && base + off <= u64::MAX) ==> address_of(base, off) == Some(base + off),
        (place_in(base, off) is Some && address_of(base, off) is Some) ==> address_of(
            base,
            off,
        ).unwrap() == base + place_in(base, off).unwrap(),
{
}

/// A string is counted from the first of its group: by the first group that holds its id. An id
/// in no group has no string.
pub proof fn strings_are_counted_from_their_group(gs: Seq<Group>, strings: u32, id: i32, k: int)
    requires
        0 <= k <= gs.len(),
        forall|j: int|
            0 <= j < k ==> id < (#[trigger] gs[j]).first_id || id > gs[j].last_id,
        k < gs.len() ==> gs[k].first_id <= id <= gs[k].last_id,
    ensures
        k == gs.len() ==> string_number(gs, strings, id) is None,
        k < gs.len() ==> {
            let n = gs[k].string_index + (id - gs[k].first_id);
            &&& (0 <= n < strings) ==> string_number(gs, strings, id) == Some(n)
            &&& (n < 0 || n >= strings) ==> string_number(gs, strings, id) is None
        },
    decreases gs.len(),
{
    if k > 0 {
        let rest = gs.skip(1);
        assert(id < gs[0].first_id || id > gs[0].last_id);
        assert forall|j: int| 0 <= j < k - 1 implies id < (#[trigger] rest[j]).first_id || id
            > rest[j].last_id by {
            assert(rest[j] == gs[j + 1]);
        }
        if k < gs.len() {
            assert(rest[k - 1] == gs[k]);
        }
        strings_are_counted_from_their_group(rest, strings, id, k - 1);
    }
}

/// The groups of a buffer stand one after another from its fortieth byte on, sixteen bytes
/// each: the first string, the first id, the last id.
pub proof fn groups_stand_in_a_row(b: Seq<u8>, n: int, k: int)
    requires
        0 <= k < n,
        40 + 16 * n <= b.len(),
    ensures
        groups_in(b, n).len() == n,
        groups_in(b, n)[k].string_index == with_sign(
            number_at(b, 40 + 16 * k, 4).unwrap(),
        ) as i32,
        groups_in(b, n)[k].first_id == with_sign(number_at(b, 44 + 16 * k, 4).unwrap()) as i32,
        groups_in(b, n)[k].last_id == with_sign(number_at(b, 48 + 16 * k, 4).unwrap()) as i32,
    decreases n,
{
    if n > 1 {
        if k < n - 1 {
            groups_stand_in_a_row(b, n - 1, k);
        } else {
            groups_stand_in_a_row(b, n - 1, 0);
        }
    } else {
        assert(groups_in(b, 0) == Seq::<Group>::empty());
    }
}

/// The units of a string stand one after another, two bytes each.
pub proof fn units_stand_in_a_row(b: Seq<u8>, at: int, n: int, k: int)
    requires
        0 <= at,
        0 <= k < n,
        at + 2 * n <= b.len(),
    ensures
        units_in(b, at, n).len() == n,
        units_in(b, at, n)[k] == b[at + 2 * k] + 256 * b[at + 2 * k + 1],
    decreases n,
{
    the_lowest_byte_comes_first(b, at + 2 * (n - 1));
    if n > 1 {
        if k < n - 1 {
            units_stand_in_a_row(b, at, n - 1, k);
        } else {
            units_stand_in_a_row(b, at, n - 1, 0);
        }
    } else {
        assert(units_in(b, at, 0) == Seq::<u16>::empty());
    }
}

/// A string is its units before the first zero, of the first five hundred and twelve; one
/// without any is no string.
pub proof fn a_string_is_its_units(units: Seq<u16>, k: int)
    requires
        0 <= k <= units.len(),
        k <= 512,
        forall|i: int| 0 <= i < k ==> #[trigger] units[i] != 0,
        k == 512 || k == units.len() || units[k] == 0,
    ensures
        k == 0 ==> string_text(units) is None,
        k > 0 ==> string_text(units) == Some(decoded(units.take(k))),
{
    a_text_ends_at_its_zero(units, 512);
    let n = units_before_zero(units, 512);
    if n < k {
        assert(units[n] != 0);
    } else if k < n {
        assert(units[k] != 0);
    }
}

/// A text is found through its group and the table of offsets: where the numbers of the header
/// make sense and the table's entry is there, it is the string that the entry leads to. Ids
/// from zero down have no text.
pub proof fn how_a_text_is_found(
    b: Seq<u8>,
    base: u64,
    id: i32,
    groups: u32,
    strings: u32,
    raw: u64,
    n: int,
    off: u64,
    at: int,
)
    requires
        number_at(b, 12, 4) == Some(groups as nat),
        number_at(b, 16, 4) == Some(strings as nat),
        number_at(b, 24, 8) == Some(raw as nat),
        header_of(groups, strings, raw),
        string_number(groups_in(b, groups as int), strings, id) == Some(n),
        place_in(base, raw) is Some,
        number_at(b, place_in(base, raw).unwrap() + 8 * n, 8) == Some(off as nat),
        place_in(base, off) == Some(at),
    ensures
        id <= 0 ==> text_in(b, base, id) is None,
        (id > 0 && off != 0) ==> text_in(b, base, id) == string_text(units_in(b, at, 512)),
        (id > 0 && off == 0) ==> text_in(b, base, id) is None,
{
}

/// A buffer whose header makes no sense gives no text.
pub proof fn an_implausible_buffer_gives_nothing(
    b: Seq<u8>,
    base: u64,
    id: i32,
    groups: u32,
    strings: u32,
    raw: u64,
)
    requires
        number_at(b, 12, 4) == Some(groups as nat),
        number_at(b, 16, 4) == Some(strings as nat),
        number_at(b, 24, 8) == Some(raw as nat),
        groups == 0 || groups > 1_048_576 || strings > 2_097_152 || raw == 0,
    ensures
        text_in(b, base, id) is None,
{
}

/// The additions to the game hold their texts three hundred and ten and four hundred and ten
/// buffers further on, and are asked in that order after the base game.
pub proof fn additions_come_after_the_game(
    slot: int,
    base: Option<Seq<char>>,
    first: Option<Seq<char>>,
    second: Option<Seq<char>>,
)
    ensures
        layers_of(slot).len() == 3,
        layers_of(slot)[0] == slot,
        layers_of(slot)[1] == slot + 310,
        layers_of(slot)[2] == slot + 410,
        base is Some ==> layered(base, first, second) == base,
        (base is None && first is Some) ==> layered(base, first, second) == first,
        (base is None && first is None) ==> layered(base, first, second) == second,
{
}

/// Wherever a text is, it is found: the first that any buffer holds.
pub proof fn the_first_text_is_taken(id: i32, found: Seq<Option<String>>, k: int)
    requires
        0 <= k < found.len(),
        found[k] is Some,
        forall|j: int| 0 <= j < k ==> (#[trigger] found[j]) is None,
    ensures
        id > 0 ==> found_anywhere(id, found) == Some(found[k].unwrap()@),
        id <= 0 ==> found_anywhere(id, found) is None,
    decreases found.len(),
{
    if k > 0 {
        let rest = found.skip(1);
        assert(found[0] is None);
        assert(rest[k - 1] == found[k]);
        assert forall|j: int| 0 <= j < k - 1 implies (#[trigger] rest[j]) is None by {
            assert(rest[j] == found[j + 1]);
        }
        the_first_text_is_taken(id, rest, k - 1);
    }
}

} // verus!
