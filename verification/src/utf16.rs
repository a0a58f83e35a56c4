//! Text in UTF-16, as the game and the clipboard hold it.

use vstd::prelude::*;
use crate::text::{chars_of, string_of};

verus! {

/// `char::from_u32` gives the character with a number, and `None` for numbers that no
/// character has: those beyond 0x10FFFF and the surrogates.
pub assume_specification[ char::from_u32 ](u: u32) -> (r: Option<char>)
    ensures
        match r {
            Some(c) => c as u32 == u,
            None => u > 0x10FFFF || 0xD800 <= u <= 0xDFFF,
        },
;

/// The first half of a pair.
pub open spec fn is_high(u: u16) -> bool {
    0xD800 <= u <= 0xDBFF
}

/// The second half of a pair.
pub open spec fn is_low(u: u16) -> bool {
    0xDC00 <= u <= 0xDFFF
}

/// The character that a pair stands for.
pub open spec fn paired(high: u16, low: u16) -> char {
    (0x10000 + (high - 0xD800) * 0x400 + (low - 0xDC00)) as char
}

/// The text that some units stand for. Halves without their partner become the
/// replacement character.
pub open spec fn decoded(s: Seq<u16>) -> Seq<char>
    decreases s.len(),
{
    if s.len() == 0 {
        Seq::empty()
    } else if is_high(s[0]) && s.len() > 1 && is_low(s[1]) {
        seq![paired(s[0], s[1])] + decoded(s.skip(2))
    } else if is_high(s[0]) || is_low(s[0]) {
        seq!['\u{fffd}'] + decoded(s.skip(1))
    } else {
        seq![s[0] as char] + decoded(s.skip(1))
    }
}

/// The units of a character.
pub open spec fn units_of(c: char) -> Seq<u16> {
    let u: int = c as u32 as int;
    if u < 0x10000 {
        seq![u as u16]
    } else {
        seq![
            (0xD800 + (u - 0x10000) / 0x400) as u16,
            (0xDC00 + (u - 0x10000) % 0x400) as u16,
        ]
    }
}

/// The units of a text.
pub open spec fn encoded(s: Seq<char>) -> Seq<u16>
    decreases s.len(),
{
    if s.len() == 0 {
        Seq::empty()
    } else {
        encoded(s.drop_last()) + units_of(s.last())
    }
}

/// The text that some units stand for.
pub fn decode(units: &Vec<u16>) -> (r: String)
    ensures
        r@ == decoded(units@),
{
    let mut out: Vec<char> = Vec::new();
    let mut i: usize = 0;
    assert(units@.skip(0) == units@);
    assert(out@ + decoded(units@) == decoded(units@));
    while i < units.len()
        invariant
            i <= units.len(),
            out@ + decoded(units@.skip(i as int)) == decoded(units@),
        decreases units.len() - i,
    {
        let u: u16 = units[i];
        let ghost rest = units@.skip(i as int);
        let ghost before = out@;
        let mut step: usize = 1;
        let mut c: char = '\u{fffd}';
        if 0xD800 <= u && u <= 0xDBFF {
            if units.len() - i > 1 && 0xDC00 <= units[i + 1] && units[i + 1] <= 0xDFFF {
                let n: u32 = 0x10000 + (u as u32 - 0xD800) * 0x400 + (units[i + 1] as u32
                    - 0xDC00);
                match char::from_u32(n) {
                    Some(x) => {
                        c = x;
                    },
                    None => {},
                }
                step = 2;
                proof {
                    assert(rest[1] == units@[i + 1]);
                    assert(c as u32 == n);
                    vstd::utf8::char_u32_cast(c, n);
                    assert(n == 0x10000 + (rest[0] - 0xD800) * 0x400 + (rest[1] - 0xDC00));
                }
                assert(c == paired(rest[0], rest[1]));
            }
        } else if 0xDC00 <= u && u <= 0xDFFF {
        } else {
            match char::from_u32(u as u32) {
                Some(x) => {
                    c = x;
                },
                None => {},
            }
            proof {
                assert(c as u32 == u);
                vstd::utf8::char_u32_cast(c, u as u32);
            }
            assert(c == u as char);
        }
        out.push(c);
        proof {
            assert(decoded(rest) == seq![c] + decoded(rest.skip(step as int)));
            assert(rest.skip(step as int) == units@.skip(i + step));
            assert(out@ + decoded(rest.skip(step as int)) == before + decoded(rest));
        }
        i = i + step;
    }
    assert(out@ + decoded(units@.skip(i as int)) == out@);
    string_of(&out)
}

/// The units of a text.
pub fn encode(s: &str) -> (r: Vec<u16>)
    ensures
        r@ == encoded(s@),
{
    let v: Vec<char> = chars_of(s);
    let mut r: Vec<u16> = Vec::new();
    for i in 0..v.len()
        invariant
            v@ == s@,
            r@ == encoded(s@.take(i as int)),
    {
        let c: char = v[i];
        let ghost before = r@;
        proof {
            vstd::utf8::char_is_scalar(c);
            assert(s@.take(i + 1).drop_last() == s@.take(i as int));
        }
        let u: u32 = c as u32;
        if u < 0x10000 {
            r.push(u as u16);
            assert(r@ == before + units_of(c));
        } else {
            r.push((0xD800 + (u - 0x10000) / 0x400) as u16);
            r.push((0xDC00 + (u - 0x10000) % 0x400) as u16);
            assert(r@ == before + units_of(c));
        }
    }
    assert(s@.take(s@.len() as int) == s@);
    r
}

proof fn lemma_decoded_char(c: char, rest: Seq<u16>)
    ensures
        decoded(units_of(c) + rest) == seq![c] + decoded(rest),
        forall|i: int| 0 <= i < units_of(c).len() && c != '\0' ==> #[trigger] units_of(c)[i] != 0,
{
    vstd::utf8::char_is_scalar(c);
    let u: int = c as u32 as int;
    let s = units_of(c) + rest;
    if u < 0x10000 {
        assert(s[0] == u as u16);
        assert(s.skip(1) == rest);
        assert(u as u16 as char == c);
    } else {
        let d: int = u - 0x10000;
        let (h, l) = (units_of(c)[0], units_of(c)[1]);
        assert(d / 0x400 < 0x400 && d % 0x400 < 0x400);
        assert(h == 0xD800 + d / 0x400 && l == 0xDC00 + d % 0x400);
        assert(s[0] == h && s[1] == l);
        assert(s.skip(2) == rest);
        assert((h - 0xD800) * 0x400 + (l - 0xDC00) == d);
        assert(paired(h, l) == c);
    }
}

proof fn lemma_decoded_encoded(s: Seq<char>, rest: Seq<u16>)
    ensures
        decoded(encoded(s) + rest) == s + decoded(rest),
    decreases s.len(),
{
    if s.len() == 0 {
        assert(encoded(s) + rest == rest);
        assert(s + decoded(rest) == decoded(rest));
    } else {
        let front = s.drop_last();
        lemma_decoded_encoded(front, units_of(s.last()) + rest);
        lemma_decoded_char(s.last(), rest);
        assert(encoded(s) + rest == encoded(front) + (units_of(s.last()) + rest));
        assert(front + (seq![s.last()] + decoded(rest)) == s + decoded(rest));
    }
}

/// Text survives the way into UTF-16 and back.
pub proof fn text_survives_utf16(s: Seq<char>)
    ensures
        decoded(encoded(s)) == s,
{
    lemma_decoded_encoded(s, Seq::empty());
    assert(encoded(s) + Seq::<u16>::empty() == encoded(s));
    assert(s + decoded(Seq::<u16>::empty()) == s);
}

/// Text without zeros has no zero units.
pub proof fn lemma_no_zero_units(s: Seq<char>)
    requires
        forall|i: int| 0 <= i < s.len() ==> #[trigger] s[i] != '\0',
    ensures
        forall|i: int| 0 <= i < encoded(s).len() ==> #[trigger] encoded(s)[i] != 0,
    decreases s.len(),
{
    if s.len() > 0 {
        let front = s.drop_last();
        assert forall|i: int| 0 <= i < front.len() implies #[trigger] front[i] != '\0' by {
            assert(front[i] == s[i]);
        }
        lemma_no_zero_units(front);
        assert(s[s.len() - 1] != '\0');
        lemma_decoded_char(s.last(), Seq::empty());
        assert forall|i: int| 0 <= i < encoded(s).len() implies #[trigger] encoded(s)[i] != 0 by {
            if i < encoded(front).len() {
                assert(encoded(s)[i] == encoded(front)[i]);
            } else {
                assert(encoded(s)[i] == units_of(s.last())[i - encoded(front).len()]);
            }
        }
    }
}

/// How many units stand before the first zero, up to a limit.
pub open spec fn units_before_zero(s: Seq<u16>, limit: int) -> int
    decreases limit,
{
    if limit <= 0 || s.len() == 0 || s[0] == 0 {
        0
    } else {
        1 + units_before_zero(s.skip(1), limit - 1)
    }
}

/// The units before the first zero, no more than `limit`.
pub fn until_zero(units: &Vec<u16>, limit: usize) -> (r: Vec<u16>)
    ensures
        r@ == units@.take(units_before_zero(units@, limit as int)),
        r.len() <= limit,
{
    let mut r: Vec<u16> = Vec::new();
    let mut i: usize = 0;
    assert(units@.skip(0) == units@);
    while i < limit && i < units.len() && units[i] != 0
        invariant
            i <= units.len(),
            i <= limit,
            r@ == units@.take(i as int),
            units_before_zero(units@, limit as int) == i + units_before_zero(
                units@.skip(i as int),
                limit - i,
            ),
        decreases units.len() - i,
    {
        assert(units@.skip(i as int)[0] == units@[i as int]);
        assert(units@.skip(i as int).skip(1) == units@.skip(i + 1));
        r.push(units[i]);
        assert(units@.take(i + 1) == units@.take(i as int).push(units@[i as int]));
        i = i + 1;
    }
    proof {
        if i < units.len() {
            assert(units@.skip(i as int)[0] == units@[i as int]);
        }
    }
    r
}

} // verus!
