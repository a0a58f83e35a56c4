//! Input: keeping it from the game while the settings window is open, keys that viewers
//! press, and the clipboard.

use vstd::prelude::*;
use crate::text::{chars_of, cut, same};
use crate::utf16::{decode, decoded, encode, encoded, until_zero, units_before_zero};

verus! {

/// How far ahead each frame holds the input, in milliseconds.
pub const CAPTURE_LEASE_MS: u64 = 250;

/// The command that asks for the content of an event.
pub const RID_INPUT: u32 = 0x1000_0003;

/// The kinds of events.
pub const RIM_TYPEMOUSE: u8 = 0;

pub const RIM_TYPEKEYBOARD: u8 = 1;

/// The longest text that is taken from the clipboard, in units.
pub const CLIPBOARD_MAX: usize = 65536;

/// A key is sent by its scan code.
pub const KEYEVENTF_SCANCODE: u32 = 0x0008;

// ---------------------------------------------------------------------------
// Whose input it is
// ---------------------------------------------------------------------------

/// Until when the input belongs to the settings window, in milliseconds since the start;
/// 0 for not at all. A moment and not a switch: if frames stop coming with the window
/// open, the game gets its input back by itself.
#[derive(Clone, Copy, Debug, PartialEq, Eq, Structural)]
pub struct Capture {
    pub until_ms: u64,
}

/// The hold of a frame.
pub open spec fn held_from(now_ms: u64) -> Capture {
    Capture { until_ms: (now_ms + CAPTURE_LEASE_MS) as u64 }
}

/// No hold.
pub open spec fn let_go() -> Capture {
    Capture { until_ms: 0 }
}

/// Holds the input for a while; called on every frame with the window open.
pub fn hold_capture(capture: &mut Capture, now_ms: u64)
    requires
        now_ms + CAPTURE_LEASE_MS <= u64::MAX,
    ensures
        *final(capture) == held_from(now_ms),
{
    capture.until_ms = now_ms + CAPTURE_LEASE_MS;
}

/// Gives the input back at once.
pub fn release_capture(capture: &mut Capture)
    ensures
        *final(capture) == let_go(),
{
    capture.until_ms = 0;
}

/// Whether the input belongs to the settings window.
pub open spec fn is_captured(c: Capture, now_ms: u64) -> bool {
    c.until_ms != 0 && now_ms < c.until_ms
}

/// Whether the input belongs to the settings window.
pub fn capturing(capture: &Capture, now_ms: u64) -> (r: bool)
    ensures
        r == is_captured(*capture, now_ms),
{
    capture.until_ms != 0 && now_ms < capture.until_ms
}

/// A hold runs out by itself: it lasts while frames come, and ends a quarter of a second
/// after the last one.
pub proof fn a_hold_runs_out(now_ms: u64, later_ms: u64)
    requires
        now_ms <= later_ms,
        now_ms + CAPTURE_LEASE_MS <= u64::MAX,
    ensures
        is_captured(held_from(now_ms), later_ms) <==> later_ms < now_ms + 250,
        !is_captured(let_go(), later_ms),
{
}

// ---------------------------------------------------------------------------
// Events
// ---------------------------------------------------------------------------

/// The event is of a kind: the first four bytes are its number.
pub open spec fn is_kind(e: Seq<u8>, kind: u8) -> bool {
    e.len() >= 4 && e[0] == kind && e[1] == 0 && e[2] == 0 && e[3] == 0
}

/// A mouse event with nothing but releases of buttons: the buttons that were pressed, the
/// wheel and the movement are gone.
pub open spec fn mouse_release(e: Seq<u8>) -> Seq<u8> {
    Seq::new(
        e.len(),
        |i: int|
            if i == 28 {
                e[i] & 0xAA
            } else if i == 29 {
                e[i] & 0x02
            } else if 30 <= i < 44 {
                0
            } else {
                e[i]
            },
    )
}

/// What is left of an event of which only releases may reach the game.
pub open spec fn release_only(e: Seq<u8>, size: int) -> Seq<u8> {
    if is_kind(e, RIM_TYPEMOUSE) && size >= 48 {
        mouse_release(e)
    } else {
        e
    }
}

/// Whether an event holds a release at all. One that is cut short is hidden.
pub open spec fn holds_release(e: Seq<u8>, size: int) -> bool {
    if is_kind(e, RIM_TYPEKEYBOARD) {
        size >= 40 && e[26] & 0x01 != 0
    } else if is_kind(e, RIM_TYPEMOUSE) {
        size >= 48 && (e[28] & 0xAA != 0 || e[29] & 0x02 != 0)
    } else {
        false
    }
}

/// Leaves of an event only releases: hiding everything would keep down whatever was down
/// when the window opened. Returns whether anything is left for the game.
pub fn keep_release_only(entry: &mut Vec<u8>, size: usize) -> (r: bool)
    requires
        size <= old(entry).len(),
    ensures
        r == holds_release(old(entry)@, size as int),
        final(entry)@ == release_only(old(entry)@, size as int),
{
    if entry.len() < 4 || entry[1] != 0 || entry[2] != 0 || entry[3] != 0 {
        return false;
    }
    if entry[0] == RIM_TYPEKEYBOARD {
        return size >= 40 && entry[26] & 0x01 != 0;
    }
    if entry[0] != RIM_TYPEMOUSE || size < 48 {
        return false;
    }
    let low: u8 = entry[28] & 0xAA;
    let high: u8 = entry[29] & 0x02;
    entry[28] = low;
    entry[29] = high;
    for i in 30..44usize
        invariant
            entry.len() == old(entry).len(),
            entry.len() >= 48,
            low == old(entry)@[28] & 0xAA,
            high == old(entry)@[29] & 0x02,
            forall|j: int|
                0 <= j < entry.len() ==> #[trigger] entry@[j] == if j == 28 {
                    low
                } else if j == 29 {
                    high
                } else if 30 <= j < i {
                    0
                } else {
                    old(entry)@[j]
                },
    {
        entry[i] = 0;
    }
    assert(entry@ == mouse_release(old(entry)@));
    low != 0 || high != 0
}

/// Only releases of the event may reach the game.
pub open spec fn is_held(captured: bool, command: u32, got: u32) -> bool {
    captured && command == RID_INPUT && got != u32::MAX
}

/// What the game is told about an event of `got` bytes.
pub open spec fn told_size(captured: bool, command: u32, got: u32, data: Option<Seq<u8>>) -> u32 {
    if is_held(captured, command, got) && data is Some && !holds_release(
        data.unwrap(),
        got as int,
    ) {
        0
    } else {
        got
    }
}

/// What the game is given of an event of `got` bytes.
pub open spec fn told_bytes(captured: bool, command: u32, got: u32, data: Seq<u8>) -> Seq<u8> {
    if is_held(captured, command, got) {
        release_only(data, got as int)
    } else {
        data
    }
}

/// What the game is told about an event of `got` bytes: that there is none where the
/// input is held and nothing is left of it.
pub fn raw_input(captured: bool, command: u32, got: u32, data: &mut Option<Vec<u8>>) -> (r: u32)
    requires
        *old(data) is Some && got != u32::MAX ==> got <= old(data).unwrap().len(),
    ensures
        r == told_size(
            captured,
            command,
            got,
            match *old(data) {
                Some(d) => Some(d@),
                None => None,
            },
        ),
        (*final(data) is Some) == (*old(data) is Some),
        *final(data) is Some ==> final(data).unwrap()@ == told_bytes(
            captured,
            command,
            got,
            old(data).unwrap()@,
        ),
{
    if captured && command == RID_INPUT && got != u32::MAX {
        match data {
            Some(d) => {
                if !keep_release_only(d, got as usize) {
                    return 0;
                }
            },
            None => {},
        }
    }
    got
}

/// A mouse event that reaches the game moves nothing and presses nothing.
pub proof fn releases_carry_no_movement(e: Seq<u8>, size: int, i: int)
    requires
        is_kind(e, RIM_TYPEMOUSE),
        48 <= size <= e.len(),
    ensures
        30 <= i < 44 ==> release_only(e, size)[i] == 0,
        release_only(e, size)[28] & 0x55 == 0,
        release_only(e, size)[29] & 0xFD == 0,
{
    let (a, b) = (e[28], e[29]);
    assert((a & 0xAA) & 0x55 == 0) by (bit_vector);
    assert((b & 0x02) & 0xFD == 0) by (bit_vector);
}

// ---------------------------------------------------------------------------
// Keys
// ---------------------------------------------------------------------------

/// An event of the keyboard to be sent.
#[derive(Clone, Copy, Debug, PartialEq, Eq, Structural)]
pub struct KeyEvent {
    pub scan: u16,
    pub flags: u32,
}

/// The event for a key: its scan code, which does not depend on the layout of the
/// keyboard, and flags that say whether it goes up (2) and whether it is one of the
/// extended keys (1).
pub open spec fn key_event(scan: u32, extended: bool, up: bool) -> KeyEvent {
    KeyEvent {
        scan: (scan as int % 256) as u16,
        flags: (8 + (if up {
            2int
        } else {
            0
        }) + (if extended {
            1int
        } else {
            0
        })) as u32,
    }
}

/// The event that presses a key.
pub open spec fn pressing(scan: u32, extended: bool) -> KeyEvent {
    key_event(scan, extended, false)
}

/// The event that releases a key.
pub open spec fn releasing(scan: u32, extended: bool) -> KeyEvent {
    key_event(scan, extended, true)
}

/// The window in front is one of the game's.
pub open spec fn is_focused(window: u64, owner: u32, own: u32) -> bool {
    window != 0 && owner != 0 && owner == own
}

/// The key is down.
pub open spec fn is_down(state: i16) -> bool {
    state < 0
}

fn send_key(scan: u32, extended: bool, up: bool) -> (r: KeyEvent)
    ensures
        r == key_event(scan, extended, up),
{
    let mut flags: u32 = KEYEVENTF_SCANCODE;
    if up {
        flags = flags + 2;
    }
    if extended {
        flags = flags + 1;
    }
    KeyEvent { scan: (scan % 256) as u16, flags }
}

/// The event that presses a key.
pub fn key_down(scan: u32, extended: bool) -> (r: KeyEvent)
    ensures
        r == pressing(scan, extended),
{
    send_key(scan, extended, false)
}

/// The event that releases a key.
pub fn key_up(scan: u32, extended: bool) -> (r: KeyEvent)
    ensures
        r == releasing(scan, extended),
{
    send_key(scan, extended, true)
}

/// Whether the window in front belongs to the game. Processes are compared and not
/// windows, because the game has more than one.
pub fn game_focused(window: u64, owner: u32, own: u32) -> (r: bool)
    ensures
        r == is_focused(window, owner, own),
{
    window != 0 && owner != 0 && owner == own
}

/// Whether a key is down, by the state that the system gives: its highest bit.
pub fn physically_down(state: i16) -> (r: bool)
    ensures
        r == is_down(state),
{
    state < 0
}

// ---------------------------------------------------------------------------
// Links
// ---------------------------------------------------------------------------

/// A text begins with another.
pub open spec fn begins_with(s: Seq<char>, p: Seq<char>) -> bool {
    p.len() <= s.len() && s.take(p.len() as int) == p
}

/// The text and a zero, as the system wants it.
pub open spec fn wide(s: Seq<char>) -> Seq<u16> {
    encoded(s).push(0)
}

fn starts(s: &Vec<char>, p: &str) -> (r: bool)
    ensures
        r == begins_with(s@, p@),
{
    let n: usize = chars_of(p).len();
    if n > s.len() {
        return false;
    }
    let head: Vec<char> = cut(s, 0, n);
    assert(head@ == s@.take(n as int));
    same(&head, p)
}

/// What is opened for a link.
pub open spec fn opened(url: Seq<char>) -> Option<Seq<u16>> {
    if begins_with(url, "http://"@) || begins_with(url, "https://"@) {
        Some(wide(url))
    } else {
        None
    }
}

/// A link to be opened in the browser. Only `http` and `https` are let through: the system
/// would run a program just as well.
pub fn open_url(url: &str) -> (r: Option<Vec<u16>>)
    ensures
        match r {
            Some(w) => opened(url@) == Some(w@),
            None => opened(url@) is None,
        },
{
    let v: Vec<char> = chars_of(url);
    if !starts(&v, "http://") && !starts(&v, "https://") {
        return None;
    }
    let mut w: Vec<u16> = encode(url);
    w.push(0);
    Some(w)
}

// ---------------------------------------------------------------------------
// The clipboard
// ---------------------------------------------------------------------------

/// The clipboard, for the fields of the settings window.
pub struct Clipboard;

impl Clipboard {
    /// The text in the units of the clipboard, up to the first zero.
    pub fn get(units: &Vec<u16>) -> (r: String)
        ensures
            r@ == decoded(units@.take(units_before_zero(units@, CLIPBOARD_MAX as int))),
    {
        decode(&until_zero(units, CLIPBOARD_MAX))
    }

    /// The units to put into the clipboard for a text.
    pub fn set(value: &str) -> (r: Vec<u16>)
        ensures
            r@ == wide(value@),
    {
        let mut w: Vec<u16> = encode(value);
        w.push(0);
        w
    }
}

proof fn lemma_zero_after(s: Seq<u16>, limit: int)
    requires
        forall|i: int| 0 <= i < s.len() ==> #[trigger] s[i] != 0,
        s.len() <= limit,
    ensures
        units_before_zero(s.push(0), limit) == s.len(),
    decreases s.len(),
{
    let t = s.push(0);
    if s.len() > 0 {
        assert(s[0] != 0);
        assert(t[0] == s[0]);
        assert(t.skip(1) == s.skip(1).push(0));
        assert forall|i: int| 0 <= i < s.skip(1).len() implies #[trigger] s.skip(1)[i] != 0 by {
            assert(s[i + 1] != 0);
        }
        lemma_zero_after(s.skip(1), limit - 1);
    }
}

/// What was put into the clipboard is read back, as far as it holds no zero and is not
/// longer than what is taken.
pub proof fn the_clipboard_gives_back_what_was_put(s: Seq<char>)
    requires
        forall|i: int| 0 <= i < s.len() ==> #[trigger] s[i] != '\0',
        encoded(s).len() <= CLIPBOARD_MAX,
    ensures
        decoded(wide(s).take(units_before_zero(wide(s), CLIPBOARD_MAX as int))) == s,
{
    crate::utf16::lemma_no_zero_units(s);
    lemma_zero_after(encoded(s), CLIPBOARD_MAX as int);
    assert(wide(s).take(encoded(s).len() as int) == encoded(s));
    crate::utf16::text_survives_utf16(s);
}

} // verus!
