//! The settings: their defaults, how lines of the settings file change them, and
//! how they are written back.
//!
//! `Config::default` is the only source of default values. Numbers with a fraction
//! are held by their encoding; whoever reads the file decodes them from their text.

use vstd::prelude::*;
use crate::ini::{assignments, file_assignments};
use crate::scalar::Scalar;
use crate::text::{
    append_text, ascii_lower, chars_of, copied, cut, fields, lowered_text, pair_texts, parsed,
    runs, same, split_fields, starts_with, string_of, texts, trim, trimmed, unsigned,
};

verus! {

/// The name of the settings file.
pub const FILE_NAME: &'static str = "game_information_counter.ini";

/// The panel's layout.
#[derive(Clone, Copy, Debug, PartialEq, Eq, Structural)]
pub enum Layout {
    /// Large values with small labels under them, in two columns.
    A,
    /// One horizontal strip.
    B,
    /// A list: label on the left, value on the right.
    D,
}

/// The panel's frame.
#[derive(Clone, Copy, Debug, PartialEq, Eq, Structural)]
pub enum PanelStyle {
    /// A dark fill and a border all around.
    Frame,
    /// Nothing but the text with its shadow.
    Bare,
    /// A dark fill and an accent bar on the left.
    Bar,
    /// The same with the bar on the right.
    BarRight,
}

/// Where the viewers for the labels over enemies come from.
#[derive(Clone, Copy, Debug, PartialEq, Eq, Structural)]
pub enum ViewerSource {
    /// The application while it answers, the chat otherwise.
    Auto,
    /// The application only.
    App,
    /// The chat only: whoever writes there.
    Chat,
}

/// Which of the two sets of bosses is shown.
#[derive(Clone, Copy, Debug, PartialEq, Eq, Structural)]
pub enum BossCount {
    /// Those with a name to show.
    Named,
    /// All that have a flag for their defeat.
    All,
}

/// The word for a layout in the settings file.
pub open spec fn layout_key(l: Layout) -> Seq<char> {
    match l {
        Layout::A => "a"@,
        Layout::B => "b"@,
        Layout::D => "d"@,
    }
}

/// The layout that a word stands for, in any case and with white space round it.
pub open spec fn layout_from(s: Seq<char>) -> Option<Layout> {
    let w: Seq<char> = ascii_lower(trim(s));
    if w == "a"@ {
        Some(Layout::A)
    } else if w == "b"@ {
        Some(Layout::B)
    } else if w == "d"@ {
        Some(Layout::D)
    } else {
        None
    }
}

/// The word for a frame in the settings file.
pub open spec fn style_key(p: PanelStyle) -> Seq<char> {
    match p {
        PanelStyle::Frame => "frame"@,
        PanelStyle::Bare => "bare"@,
        PanelStyle::Bar => "bar"@,
        PanelStyle::BarRight => "bar_right"@,
    }
}

/// The frame that a word stands for, in any case and with white space round it.
pub open spec fn style_from(s: Seq<char>) -> Option<PanelStyle> {
    let w: Seq<char> = ascii_lower(trim(s));
    if w == "frame"@ {
        Some(PanelStyle::Frame)
    } else if w == "bare"@ || w == "none"@ {
        Some(PanelStyle::Bare)
    } else if w == "bar"@ || w == "bar_left"@ {
        Some(PanelStyle::Bar)
    } else if w == "bar_right"@ || w == "barright"@ {
        Some(PanelStyle::BarRight)
    } else {
        None
    }
}

/// The word for a source of viewers in the settings file.
pub open spec fn source_key(v: ViewerSource) -> Seq<char> {
    match v {
        ViewerSource::Auto => "auto"@,
        ViewerSource::App => "app"@,
        ViewerSource::Chat => "chat"@,
    }
}

/// The source of viewers that a word stands for, in any case and with white space
/// round it.
pub open spec fn source_from(s: Seq<char>) -> Option<ViewerSource> {
    let w: Seq<char> = ascii_lower(trim(s));
    if w == "auto"@ {
        Some(ViewerSource::Auto)
    } else if w == "app"@ || w == "helix"@ {
        Some(ViewerSource::App)
    } else if w == "chat"@ || w == "link"@ {
        Some(ViewerSource::Chat)
    } else {
        None
    }
}

/// The word for a set of bosses in the settings file.
pub open spec fn count_key(b: BossCount) -> Seq<char> {
    match b {
        BossCount::Named => "named"@,
        BossCount::All => "all"@,
    }
}

/// The set of bosses that a word stands for, in any case.
pub open spec fn count_from(s: Seq<char>) -> Option<BossCount> {
    let w: Seq<char> = ascii_lower(s);
    if w == "named"@ {
        Some(BossCount::Named)
    } else if w == "all"@ {
        Some(BossCount::All)
    } else {
        None
    }
}

/// The word for a switch.
pub open spec fn bool_key(b: bool) -> Seq<char> {
    if b {
        "true"@
    } else {
        "false"@
    }
}

/// What a word says of a switch, in any case.
pub open spec fn bool_from(s: Seq<char>) -> Option<bool> {
    let w: Seq<char> = ascii_lower(s);
    if w == "1"@ || w == "true"@ || w == "yes"@ || w == "on"@ {
        Some(true)
    } else if w == "0"@ || w == "false"@ || w == "no"@ || w == "off"@ {
        Some(false)
    } else {
        None
    }
}

/// The text in lower case by Unicode's rules, as `str::to_lowercase` gives it.
pub uninterp spec fn lowercase(s: Seq<char>) -> Seq<char>;

/// `str::to_lowercase` depends on the text alone. On ASCII text it changes the
/// capital letters only.
#[verifier::external_body]
pub(crate) fn to_lowercase(s: &str) -> (r: String)
    ensures
        r@ == lowercase(s@),
        (forall|i: int| 0 <= i < s@.len() ==> (#[trigger] s@[i] as u32) < 128) ==> r@ == ascii_lower(
            s@,
        ),
{
    s.to_lowercase()
}

/// Those of the nicknames between the commas that are not blank, in lower case.
pub open spec fn nicks_in(fs: Seq<Seq<char>>) -> Seq<Seq<char>>
    decreases fs.len(),
{
    if fs.len() == 0 {
        Seq::empty()
    } else {
        let n: Seq<char> = lowercase(trim(fs.last()));
        if trim(fs.last()).len() == 0 || n.len() == 0 {
            nicks_in(fs.drop_last())
        } else {
            nicks_in(fs.drop_last()).push(n)
        }
    }
}

/// A list of nicknames separated by commas.
pub open spec fn nick_list(s: Seq<char>) -> Seq<Seq<char>> {
    nicks_in(fields(s, ','))
}

/// The value of a hexadecimal digit.
pub open spec fn hex_digit(c: char) -> Option<nat> {
    if '0' <= c <= '9' {
        Some((c as u32 - '0' as u32) as nat)
    } else if 'a' <= c <= 'f' {
        Some((c as u32 - 'a' as u32 + 10) as nat)
    } else if 'A' <= c <= 'F' {
        Some((c as u32 - 'A' as u32 + 10) as nat)
    } else {
        None
    }
}

/// A color channel written as two hexadecimal digits.
pub open spec fn channel(a: char, b: char) -> Option<nat> {
    match (hex_digit(a), hex_digit(b)) {
        (Some(x), Some(y)) => Some(x * 16 + y),
        _ => None,
    }
}

/// The text without a leading `#`.
pub open spec fn unhashed(s: Seq<char>) -> Seq<char> {
    if starts_with(s, '#') {
        s.skip(1)
    } else {
        s
    }
}

/// The color written as `RRGGBB` or `RRGGBBAA`, with an optional `#` before it; without
/// `AA` it is opaque.
pub open spec fn color_from(s: Seq<char>) -> Option<Seq<nat>> {
    let t: Seq<char> = unhashed(trim(s));
    if t.len() != 6 && t.len() != 8 {
        None
    } else {
        let a: Option<nat> = if t.len() == 6 {
            Some(255)
        } else {
            channel(t[6], t[7])
        };
        match (channel(t[0], t[1]), channel(t[2], t[3]), channel(t[4], t[5]), a) {
            (Some(r), Some(g), Some(b), Some(a)) => Some(seq![r, g, b, a]),
            _ => None,
        }
    }
}

/// The channels of a color as numbers.
pub open spec fn channels(c: [u8; 4]) -> Seq<nat> {
    seq![c@[0] as nat, c@[1] as nat, c@[2] as nat, c@[3] as nat]
}

/// The capital hexadecimal digit for `d` in `0..16`.
pub open spec fn hex_char(d: nat) -> char {
    if d < 10 {
        ('0' as u32 + d) as char
    } else {
        ('A' as u32 + d - 10) as char
    }
}

/// A channel as two hexadecimal digits.
pub open spec fn channel_text(n: nat) -> Seq<char> {
    seq![hex_char(n / 16), hex_char(n % 16)]
}

/// A color as `RRGGBBAA`.
pub open spec fn color_text(c: [u8; 4]) -> Seq<char> {
    channel_text(c@[0] as nat) + channel_text(c@[1] as nat) + channel_text(c@[2] as nat)
        + channel_text(c@[3] as nat)
}

/// The first of the names that reads as `name` in some case.
pub open spec fn named(names: Seq<Seq<char>>, name: Seq<char>) -> Option<Seq<char>>
    decreases names.len(),
{
    if names.len() == 0 {
        None
    } else if ascii_lower(names[0]) == ascii_lower(name) {
        Some(names[0])
    } else {
        named(names.skip(1), name)
    }
}

/// What the host made of the value on a line of the settings file: the number it
/// reads as, and the secret it stands for.
pub struct Decoded {
    pub number: Option<Scalar>,
    pub protected: bool,
    pub revealed: String,
}

/// A line of the settings file with what the host made of its value.
pub struct Entry {
    pub key: Seq<char>,
    pub value: Seq<char>,
    pub number: Option<Scalar>,
    pub protected: bool,
    pub revealed: Seq<char>,
}

/// The lines of a settings file with what the host made of their values.
pub open spec fn entries(text: Seq<char>, decoded: Seq<Decoded>) -> Seq<Entry> {
    let a: Seq<(Seq<char>, Seq<char>)> = file_assignments(text);
    Seq::new(
        a.len(),
        |i: int|
            (Entry {
                key: a[i].0,
                value: a[i].1,
                number: decoded[i].number,
                protected: decoded[i].protected,
                revealed: decoded[i].revealed@,
            }),
    )
}

/// What a setting becomes after some lines: the last reading of it, or what it was
/// before if there is none.
#[verifier::opaque]
pub open spec fn last<T>(es: Seq<Entry>, read: spec_fn(Entry) -> Option<T>, before: T) -> T
    decreases es.len(),
{
    if es.len() == 0 {
        before
    } else {
        match read(es.last()) {
            Some(v) => v,
            None => last(es.drop_last(), read, before),
        }
    }
}

/// `now` is what a setting becomes after some lines.
#[verifier::opaque]
pub open spec fn is_last<T>(
    now: T,
    es: Seq<Entry>,
    read: spec_fn(Entry) -> Option<T>,
    before: T,
) -> bool {
    now == last(es, read, before)
}

/// Reads a switch under the given key.
#[verifier::opaque]
pub open spec fn flag(key: Seq<char>) -> spec_fn(Entry) -> Option<bool> {
    |e: Entry|
        if e.key == key {
            bool_from(e.value)
        } else {
            None
        }
}

/// Reads a switch with its sense turned round.
#[verifier::opaque]
pub open spec fn inverted(key: Seq<char>) -> spec_fn(Entry) -> Option<bool> {
    |e: Entry|
        if e.key == key {
            match bool_from(e.value) {
                Some(b) => Some(!b),
                None => None,
            }
        } else {
            None
        }
}

/// Reads a whole number of 16 bits.
#[verifier::opaque]
pub open spec fn port(key: Seq<char>) -> spec_fn(Entry) -> Option<u16> {
    |e: Entry|
        if e.key == key {
            match unsigned(e.value, u16::MAX as nat) {
                Some(n) => Some(n as u16),
                None => None,
            }
        } else {
            None
        }
}

/// Reads a whole number of 32 bits.
#[verifier::opaque]
pub open spec fn whole(key: Seq<char>) -> spec_fn(Entry) -> Option<u32> {
    |e: Entry|
        if e.key == key {
            match unsigned(e.value, u32::MAX as nat) {
                Some(n) => Some(n as u32),
                None => None,
            }
        } else {
            None
        }
}

/// Reads a number.
#[verifier::opaque]
pub open spec fn number(key: Seq<char>) -> spec_fn(Entry) -> Option<Scalar> {
    |e: Entry|
        if e.key == key {
            e.number
        } else {
            None
        }
}

/// Reads a scale: brought between 0.1 and 10, so that nothing vanishes and nothing
/// is divided by zero. What is no number is passed over.
#[verifier::opaque]
pub open spec fn scale(key: Seq<char>) -> spec_fn(Entry) -> Option<Scalar> {
    |e: Entry|
        if e.key == key {
            match e.number {
                Some(x) => if x.is_nan() {
                    None
                } else {
                    Some(x.bounded(Scalar { bits: LEAST_SCALE }, Scalar { bits: GREATEST_SCALE }))
                },
                None => None,
            }
        } else {
            None
        }
}

/// Reads a layout.
#[verifier::opaque]
pub open spec fn layout_word(key: Seq<char>) -> spec_fn(Entry) -> Option<Layout> {
    |e: Entry|
        if e.key == key {
            layout_from(e.value)
        } else {
            None
        }
}

/// Reads a frame.
#[verifier::opaque]
pub open spec fn style_word(key: Seq<char>) -> spec_fn(Entry) -> Option<PanelStyle> {
    |e: Entry|
        if e.key == key {
            style_from(e.value)
        } else {
            None
        }
}

/// Reads a set of bosses.
#[verifier::opaque]
pub open spec fn count_word(key: Seq<char>) -> spec_fn(Entry) -> Option<BossCount> {
    |e: Entry|
        if e.key == key {
            count_from(e.value)
        } else {
            None
        }
}

/// Reads a source of viewers.
#[verifier::opaque]
pub open spec fn source_word(key: Seq<char>) -> spec_fn(Entry) -> Option<ViewerSource> {
    |e: Entry|
        if e.key == key {
            source_from(e.value)
        } else {
            None
        }
}

/// Reads a color.
#[verifier::opaque]
pub open spec fn color(key: Seq<char>) -> spec_fn(Entry) -> Option<Seq<nat>> {
    |e: Entry|
        if e.key == key {
            color_from(e.value)
        } else {
            None
        }
}

/// Reads a text as it is.
#[verifier::opaque]
pub open spec fn words(key: Seq<char>) -> spec_fn(Entry) -> Option<Seq<char>> {
    |e: Entry|
        if e.key == key {
            Some(e.value)
        } else {
            None
        }
}

/// Reads a secret.
#[verifier::opaque]
pub open spec fn secret(key: Seq<char>) -> spec_fn(Entry) -> Option<Seq<char>> {
    |e: Entry|
        if e.key == key {
            Some(e.revealed)
        } else {
            None
        }
}

/// Notices a secret that stands there unprotected.
#[verifier::opaque]
pub open spec fn unprotected(key: Seq<char>) -> spec_fn(Entry) -> Option<bool> {
    |e: Entry|
        if e.key == key && trim(e.value).len() > 0 && !e.protected {
            Some(true)
        } else {
            None
        }
}

/// Reads the name of a key of the keyboard.
#[verifier::opaque]
pub open spec fn key_name(key: Seq<char>, names: Seq<Seq<char>>) -> spec_fn(Entry) -> Option<
    Seq<char>,
> {
    |e: Entry|
        if e.key == key {
            named(names, e.value)
        } else {
            None
        }
}

/// Reads a list of nicknames.
#[verifier::opaque]
pub open spec fn nicks(key: Seq<char>) -> spec_fn(Entry) -> Option<Seq<Seq<char>>> {
    |e: Entry|
        if e.key == key {
            Some(nick_list(e.value))
        } else {
            None
        }
}

/// Reads a setting that has two keys; where both read it, the second counts.
pub open spec fn either<T>(
    a: spec_fn(Entry) -> Option<T>,
    b: spec_fn(Entry) -> Option<T>,
) -> spec_fn(Entry) -> Option<T> {
    |e: Entry|
        match b(e) {
            Some(v) => Some(v),
            None => a(e),
        }
}

/// The encoding of 0.1.
pub const LEAST_SCALE: u32 = 0x3DCCCCCD;

/// The encoding of 10.
pub const GREATEST_SCALE: u32 = 0x41200000;

/// Replaces a value if there is a new one.
pub fn set<T>(field: &mut T, parsed: Option<T>)
    ensures
        *final(field) == match parsed {
            Some(v) => v,
            None => *old(field),
        },
{
    match parsed {
        Some(v) => {
            *field = v;
        },
        None => {},
    }
}

impl Layout {
    pub fn as_key(self) -> (r: &'static str)
        ensures
            r@ == layout_key(self),
    {
        match self {
            Layout::A => "a",
            Layout::B => "b",
            Layout::D => "d",
        }
    }
}

impl PanelStyle {
    pub fn as_key(self) -> (r: &'static str)
        ensures
            r@ == style_key(self),
    {
        match self {
            PanelStyle::Frame => "frame",
            PanelStyle::Bare => "bare",
            PanelStyle::Bar => "bar",
            PanelStyle::BarRight => "bar_right",
        }
    }
}

impl ViewerSource {
    pub fn as_key(self) -> (r: &'static str)
        ensures
            r@ == source_key(self),
    {
        match self {
            ViewerSource::Auto => "auto",
            ViewerSource::App => "app",
            ViewerSource::Chat => "chat",
        }
    }
}

impl BossCount {
    pub fn as_key(self) -> (r: &'static str)
        ensures
            r@ == count_key(self),
    {
        match self {
            BossCount::Named => "named",
            BossCount::All => "all",
        }
    }
}

/// What a word says of a switch, in any case; `None` for any other word.
pub fn parse_bool(s: &str) -> (r: Option<bool>)
    ensures
        r == bool_from(s@),
{
    let w: Vec<char> = lowered_text(&chars_of(s));
    if same(&w, "1") || same(&w, "true") || same(&w, "yes") || same(&w, "on") {
        Some(true)
    } else if same(&w, "0") || same(&w, "false") || same(&w, "no") || same(&w, "off") {
        Some(false)
    } else {
        None
    }
}

/// The layout that a word stands for.
pub fn parse_layout(s: &str) -> (r: Option<Layout>)
    ensures
        r == layout_from(s@),
{
    let w: Vec<char> = lowered_text(&trimmed(&chars_of(s)));
    if same(&w, "a") {
        Some(Layout::A)
    } else if same(&w, "b") {
        Some(Layout::B)
    } else if same(&w, "d") {
        Some(Layout::D)
    } else {
        None
    }
}

/// The frame that a word stands for.
pub fn parse_panel_style(s: &str) -> (r: Option<PanelStyle>)
    ensures
        r == style_from(s@),
{
    let w: Vec<char> = lowered_text(&trimmed(&chars_of(s)));
    if same(&w, "frame") {
        Some(PanelStyle::Frame)
    } else if same(&w, "bare") || same(&w, "none") {
        Some(PanelStyle::Bare)
    } else if same(&w, "bar") || same(&w, "bar_left") {
        Some(PanelStyle::Bar)
    } else if same(&w, "bar_right") || same(&w, "barright") {
        Some(PanelStyle::BarRight)
    } else {
        None
    }
}

/// The source of viewers that a word stands for.
pub fn parse_viewer_source(s: &str) -> (r: Option<ViewerSource>)
    ensures
        r == source_from(s@),
{
    let w: Vec<char> = lowered_text(&trimmed(&chars_of(s)));
    if same(&w, "auto") {
        Some(ViewerSource::Auto)
    } else if same(&w, "app") || same(&w, "helix") {
        Some(ViewerSource::App)
    } else if same(&w, "chat") || same(&w, "link") {
        Some(ViewerSource::Chat)
    } else {
        None
    }
}

/// The set of bosses that a word stands for.
pub fn parse_boss_count(s: &str) -> (r: Option<BossCount>)
    ensures
        r == count_from(s@),
{
    let w: Vec<char> = lowered_text(&chars_of(s));
    if same(&w, "named") {
        Some(BossCount::Named)
    } else if same(&w, "all") {
        Some(BossCount::All)
    } else {
        None
    }
}

/// A list of nicknames separated by commas, in lower case and without blanks.
pub fn parse_nick_list(s: &str) -> (r: Vec<String>)
    ensures
        texts(r@) == nick_list(s@),
{
    let fs: Vec<Vec<char>> = split_fields(&chars_of(s), ',');
    let mut r: Vec<String> = Vec::new();
    assert(texts(r@) == nicks_in(runs(fs@).take(0)));
    for i in 0..fs.len()
        invariant
            texts(r@) == nicks_in(runs(fs@).take(i as int)),
    {
        let ghost before = r@;
        let t: Vec<char> = trimmed(&fs[i]);
        proof {
            let next = runs(fs@).take(i + 1);
            assert(next.drop_last() == runs(fs@).take(i as int));
            assert(next.last() == fs@[i as int]@);
        }
        if t.len() > 0 {
            let n: String = to_lowercase(&string_of(&t));
            if chars_of(&n).len() > 0 {
                r.push(n);
                assert(texts(r@) == texts(before).push(n@));
            }
        }
    }
    assert(runs(fs@).take(fs@.len() as int) == runs(fs@));
    r
}

fn hex_value(c: char) -> (r: Option<u8>)
    ensures
        match r {
            Some(d) => hex_digit(c) == Some(d as nat) && d < 16,
            None => hex_digit(c) is None,
        },
{
    if '0' <= c && c <= '9' {
        Some(c as u8 - 48)
    } else if 'a' <= c && c <= 'f' {
        Some(c as u8 - 97 + 10)
    } else if 'A' <= c && c <= 'F' {
        Some(c as u8 - 65 + 10)
    } else {
        None
    }
}

fn channel_value(a: char, b: char) -> (r: Option<u8>)
    ensures
        match r {
            Some(n) => channel(a, b) == Some(n as nat),
            None => channel(a, b) is None,
        },
{
    match (hex_value(a), hex_value(b)) {
        (Some(x), Some(y)) => Some(x * 16 + y),
        _ => None,
    }
}

/// The color written as `RRGGBB` or `RRGGBBAA`, with an optional `#`; `None` for
/// anything else.
pub fn parse_color(s: &str) -> (r: Option<[u8; 4]>)
    ensures
        match r {
            Some(c) => color_from(s@) == Some(channels(c)),
            None => color_from(s@) is None,
        },
        // It is a color if and only if it is six or eight hexadecimal digits.
        ({
            let h: Seq<char> = unhashed(trim(s@));
            r is Some <==> (h.len() == 6 || h.len() == 8) && forall|i: int|
                0 <= i < h.len() ==> hex_digit(#[trigger] h[i]) is Some
        }),
{
    let all: Vec<char> = trimmed(&chars_of(s));
    let k: usize = if all.len() > 0 && all[0] == '#' {
        1
    } else {
        0
    };
    let t: Vec<char> = cut(&all, k, all.len());
    assert(t@ == unhashed(trim(s@)));
    if t.len() != 6 && t.len() != 8 {
        return None;
    }
    let a: Option<u8> = if t.len() == 6 {
        Some(255)
    } else {
        channel_value(t[6], t[7])
    };
    match (channel_value(t[0], t[1]), channel_value(t[2], t[3]), channel_value(t[4], t[5]), a) {
        (Some(r), Some(g), Some(b), Some(a)) => {
            let c: [u8; 4] = [r, g, b, a];
            assert(channels(c) == seq![r as nat, g as nat, b as nat, a as nat]);
            Some(c)
        },
        _ => None,
    }
}

fn hex_character(d: u8) -> (r: char)
    requires
        d < 16,
    ensures
        r == hex_char(d as nat),
{
    if d < 10 {
        (48 + d) as char
    } else {
        (65 + (d - 10)) as char
    }
}

/// A color in the form in which it is read.
pub fn color_to_hex(c: [u8; 4]) -> (r: String)
    ensures
        r@ == color_text(c),
{
    let mut v: Vec<char> = Vec::new();
    v.push(hex_character(c[0] / 16));
    v.push(hex_character(c[0] % 16));
    v.push(hex_character(c[1] / 16));
    v.push(hex_character(c[1] % 16));
    v.push(hex_character(c[2] / 16));
    v.push(hex_character(c[2] % 16));
    v.push(hex_character(c[3] / 16));
    v.push(hex_character(c[3] % 16));
    assert(v@ == color_text(c));
    string_of(&v)
}

/// The key of the keyboard that is meant by `name`, in any case: the first of
/// `names` that reads so.
pub fn parse_key(name: &str, names: &Vec<String>) -> (r: Option<String>)
    ensures
        match r {
            Some(k) => named(texts(names@), name@) == Some(k@),
            None => named(texts(names@), name@) is None,
        },
{
    let wanted: String = string_of(&lowered_text(&chars_of(name)));
    let ghost all = texts(names@);
    assert(all.skip(0) == all);
    for i in 0..names.len()
        invariant
            all == texts(names@),
            wanted@ == ascii_lower(name@),
            named(all, name@) == named(all.skip(i as int), name@),
    {
        assert(all.skip(i as int)[0] == names@[i as int]@);
        assert(all.skip(i as int).skip(1) == all.skip(i + 1));
        let have: Vec<char> = lowered_text(&chars_of(&names[i]));
        if same(&have, &wanted) {
            return Some(names[i].clone());
        }
    }
    None
}

/// The name of the temporary file through which a file is written. The suffix goes
/// after the whole name: files that differ in their extension alone must not share
/// one.
pub fn tmp_path(path: &str) -> (r: String)
    ensures
        r@ == path@ + ".tmp"@,
{
    let mut v: Vec<char> = chars_of(path);
    append_text(&mut v, ".tmp");
    string_of(&v)
}

/// A line of the settings file on its way into a setting.
struct Line {
    key: Vec<char>,
    value: String,
    number: Option<Scalar>,
    protected: bool,
    revealed: String,
}

impl Line {
    spec fn entry(self) -> Entry {
        Entry {
            key: self.key@,
            value: self.value@,
            number: self.number,
            protected: self.protected,
            revealed: self.revealed@,
        }
    }
}

proof fn lemma_is_last_of_one<T>(now: T, e: Entry, read: spec_fn(Entry) -> Option<T>, before: T)
    requires
        now == match read(e) {
            Some(v) => v,
            None => before,
        },
    ensures
        is_last(now, seq![e], read, before),
{
    reveal(last);
    reveal(is_last);
    assert(seq![e].drop_last() == Seq::<Entry>::empty());
    assert(last(Seq::<Entry>::empty(), read, before) == before);
}

broadcast proof fn is_last_of_none<T>(now: T, read: spec_fn(Entry) -> Option<T>)
    ensures
        #[trigger] is_last(now, Seq::<Entry>::empty(), read, now),
{
    reveal(last);
    reveal(is_last);
}

broadcast proof fn is_last_of_push<T>(
    c: T,
    b: T,
    a: T,
    es: Seq<Entry>,
    e: Entry,
    read: spec_fn(Entry) -> Option<T>,
)
    requires
        #[trigger] is_last(b, es, read, a),
        #[trigger] is_last(c, seq![e], read, b),
    ensures
        is_last(c, es.push(e), read, a),
{
    reveal(last);
    reveal(is_last);
    assert(es.push(e).drop_last() == es);
    assert(seq![e].drop_last() == Seq::<Entry>::empty());
    assert(last(Seq::<Entry>::empty(), read, b) == b);
}

fn flag_after(line: &Line, key: &str, before: bool) -> (r: bool)
    ensures
        is_last(r, seq![line.entry()], flag(key@), before),
{
    proof {
        reveal(flag);
    }
    let r: bool = if same(&line.key, key) {
        match parse_bool(&line.value) {
            Some(v) => v,
            None => before,
        }
    } else {
        before
    };
    proof {
        lemma_is_last_of_one(r, line.entry(), flag(key@), before);
    }
    r
}

fn port_after(line: &Line, key: &str, before: u16) -> (r: u16)
    ensures
        is_last(r, seq![line.entry()], port(key@), before),
{
    proof {
        reveal(port);
    }
    let r: u16 = if same(&line.key, key) {
        match parsed(&chars_of(&line.value), u16::MAX as u64) {
            Some(v) => v as u16,
            None => before,
        }
    } else {
        before
    };
    proof {
        lemma_is_last_of_one(r, line.entry(), port(key@), before);
    }
    r
}

fn whole_after(line: &Line, key: &str, before: u32) -> (r: u32)
    ensures
        is_last(r, seq![line.entry()], whole(key@), before),
{
    proof {
        reveal(whole);
    }
    let r: u32 = if same(&line.key, key) {
        match parsed(&chars_of(&line.value), u32::MAX as u64) {
            Some(v) => v as u32,
            None => before,
        }
    } else {
        before
    };
    proof {
        lemma_is_last_of_one(r, line.entry(), whole(key@), before);
    }
    r
}

fn number_after(line: &Line, key: &str, before: Scalar) -> (r: Scalar)
    ensures
        is_last(r, seq![line.entry()], number(key@), before),
{
    proof {
        reveal(number);
    }
    let r: Scalar = if same(&line.key, key) {
        match line.number {
            Some(v) => v,
            None => before,
        }
    } else {
        before
    };
    proof {
        lemma_is_last_of_one(r, line.entry(), number(key@), before);
    }
    r
}

fn scale_after(line: &Line, key: &str, before: Scalar) -> (r: Scalar)
    ensures
        is_last(r, seq![line.entry()], scale(key@), before),
{
    proof {
        reveal(scale);
    }
    let r: Scalar = if same(&line.key, key) {
        match line.number {
            Some(x) => if x.nan() {
                before
            } else {
                x.clamp(Scalar { bits: LEAST_SCALE }, Scalar { bits: GREATEST_SCALE })
            },
            None => before,
        }
    } else {
        before
    };
    proof {
        lemma_is_last_of_one(r, line.entry(), scale(key@), before);
    }
    r
}

fn layout_after(line: &Line, key: &str, before: Layout) -> (r: Layout)
    ensures
        is_last(r, seq![line.entry()], layout_word(key@), before),
{
    proof {
        reveal(layout_word);
    }
    let r: Layout = if same(&line.key, key) {
        match parse_layout(&line.value) {
            Some(v) => v,
            None => before,
        }
    } else {
        before
    };
    proof {
        lemma_is_last_of_one(r, line.entry(), layout_word(key@), before);
    }
    r
}

fn style_after(line: &Line, key: &str, before: PanelStyle) -> (r: PanelStyle)
    ensures
        is_last(r, seq![line.entry()], style_word(key@), before),
{
    proof {
        reveal(style_word);
    }
    let r: PanelStyle = if same(&line.key, key) {
        match parse_panel_style(&line.value) {
            Some(v) => v,
            None => before,
        }
    } else {
        before
    };
    proof {
        lemma_is_last_of_one(r, line.entry(), style_word(key@), before);
    }
    r
}

fn count_after(line: &Line, key: &str, before: BossCount) -> (r: BossCount)
    ensures
        is_last(r, seq![line.entry()], count_word(key@), before),
{
    proof {
        reveal(count_word);
    }
    let r: BossCount = if same(&line.key, key) {
        match parse_boss_count(&line.value) {
            Some(v) => v,
            None => before,
        }
    } else {
        before
    };
    proof {
        lemma_is_last_of_one(r, line.entry(), count_word(key@), before);
    }
    r
}

fn source_after(line: &Line, key: &str, before: ViewerSource) -> (r: ViewerSource)
    ensures
        is_last(r, seq![line.entry()], source_word(key@), before),
{
    proof {
        reveal(source_word);
    }
    let r: ViewerSource = if same(&line.key, key) {
        match parse_viewer_source(&line.value) {
            Some(v) => v,
            None => before,
        }
    } else {
        before
    };
    proof {
        lemma_is_last_of_one(r, line.entry(), source_word(key@), before);
    }
    r
}

fn color_after(line: &Line, key: &str, before: [u8; 4]) -> (r: [u8; 4])
    ensures
        is_last(channels(r), seq![line.entry()], color(key@), channels(before)),
{
    proof {
        reveal(color);
    }
    let r: [u8; 4] = if same(&line.key, key) {
        match parse_color(&line.value) {
            Some(v) => v,
            None => before,
        }
    } else {
        before
    };
    proof {
        lemma_is_last_of_one(channels(r), line.entry(), color(key@), channels(before));
    }
    r
}

fn words_after(line: &Line, key: &str, before: &String) -> (r: String)
    ensures
        is_last(r@, seq![line.entry()], words(key@), before@),
{
    proof {
        reveal(words);
    }
    let r: String = if same(&line.key, key) {
        line.value.clone()
    } else {
        before.clone()
    };
    proof {
        lemma_is_last_of_one(r@, line.entry(), words(key@), before@);
    }
    r
}

fn secret_after(line: &Line, key: &str, before: &String) -> (r: String)
    ensures
        is_last(r@, seq![line.entry()], secret(key@), before@),
{
    proof {
        reveal(secret);
    }
    let r: String = if same(&line.key, key) {
        line.revealed.clone()
    } else {
        before.clone()
    };
    proof {
        lemma_is_last_of_one(r@, line.entry(), secret(key@), before@);
    }
    r
}

fn key_after(line: &Line, key: &str, names: &Vec<String>, before: &String) -> (r: String)
    ensures
        is_last(r@, seq![line.entry()], key_name(key@, texts(names@)), before@),
{
    proof {
        reveal(key_name);
    }
    let r: String = if same(&line.key, key) {
        match parse_key(&line.value, names) {
            Some(v) => v,
            None => before.clone(),
        }
    } else {
        before.clone()
    };
    proof {
        lemma_is_last_of_one(r@, line.entry(), key_name(key@, texts(names@)), before@);
    }
    r
}

fn nicks_after(line: &Line, key: &str, before: &Vec<String>) -> (r: Vec<String>)
    ensures
        is_last(texts(r@), seq![line.entry()], nicks(key@), texts(before@)),
{
    proof {
        reveal(nicks);
    }
    let r: Vec<String> = if same(&line.key, key) {
        parse_nick_list(&line.value)
    } else {
        copied(before)
    };
    proof {
        lemma_is_last_of_one(texts(r@), line.entry(), nicks(key@), texts(before@));
    }
    r
}

fn unprotected_after(line: &Line, key: &str, before: bool) -> (r: bool)
    ensures
        is_last(r, seq![line.entry()], unprotected(key@), before),
{
    proof {
        reveal(unprotected);
    }
    let bare: bool = same(&line.key, key) && trimmed(&chars_of(&line.value)).len() > 0
        && !line.protected;
    proof {
        lemma_is_last_of_one(bare || before, line.entry(), unprotected(key@), before);
    }
    bare || before
}

/// A number that has two keys.
fn either_number_after(line: &Line, a: &str, b: &str, before: Scalar) -> (r: Scalar)
    ensures
        is_last(r, seq![line.entry()], either(number(a@), number(b@)), before),
{
    proof {
        reveal(number);
    }
    let r: Scalar = if same(&line.key, a) || same(&line.key, b) {
        match line.number {
            Some(v) => v,
            None => before,
        }
    } else {
        before
    };
    proof {
        lemma_is_last_of_one(r, line.entry(), either(number(a@), number(b@)), before);
    }
    r
}

/// A switch that has a second key with the opposite sense.
fn either_flag_after(line: &Line, a: &str, b: &str, before: bool) -> (r: bool)
    ensures
        is_last(r, seq![line.entry()], either(flag(a@), inverted(b@)), before),
{
    proof {
        reveal(flag);
        reveal(inverted);
    }
    let value: Option<bool> = parse_bool(&line.value);
    let r: bool = if same(&line.key, b) {
        match value {
            Some(v) => !v,
            None => before,
        }
    } else if same(&line.key, a) {
        match value {
            Some(v) => v,
            None => before,
        }
    } else {
        before
    };
    proof {
        lemma_is_last_of_one(r, line.entry(), either(flag(a@), inverted(b@)), before);
    }
    r
}

/// All settings. Each field is named after its key in the settings file.
#[derive(Clone)]
pub struct Config {
    // What is put out, and how.
    /// The panel drawn over the game.
    pub overlay_enabled: bool,
    /// The web page for an OBS browser source. Off by default: a port is not taken unasked.
    pub web_enabled: bool,
    /// The port of the web page.
    pub web_port: u16,
    /// The wait before the overlay is set up, in milliseconds.
    pub startup_delay_ms: u32,
    /// The interface language: a file of the `locale` folder without its extension, or `auto`
    /// for the language of the game.
    pub lang: String,
    /// A window with raw values, drawn whatever is hidden.
    pub debug: bool,

    // What is shown.
    /// The level.
    pub show_level: bool,
    /// The deaths.
    pub show_deaths: bool,
    /// The bosses killed, out of all.
    pub show_bosses: bool,
    /// The runes held.
    pub show_runes: bool,
    /// The runes collected in all.
    pub show_runes_total: bool,
    /// The time played.
    pub show_playtime: bool,
    /// The New Game+ cycle.
    pub show_ng: bool,
    /// The time since the last death.
    pub show_deathless: bool,
    /// The share of play regions visited.
    pub show_map_explored: bool,
    /// The progress bar under the boss counter, apart from the counter itself.
    pub show_boss_bar: bool,
    /// The nearest living boss, while within `nearest_radius`.
    pub show_nearest_boss: bool,
    /// The name of the boss being fought.
    pub show_boss_name: bool,
    /// The deaths on the boss being fought.
    pub show_attempts: bool,
    /// How long the fight has lasted.
    pub show_fight_timer: bool,
    /// Both names of a twin boss instead of the first.
    pub show_all_boss_names: bool,
    /// The deaths on bosses over the whole history.
    pub show_deaths_on_boss: bool,
    /// The deaths that the viewers caused.
    pub show_viewer_kills: bool,
    /// Bosses per hour.
    pub show_boss_kill_rate: bool,
    /// Deaths per hour.
    pub show_death_rate: bool,
    /// Attempts per boss killed.
    pub show_avg_attempts: bool,
    /// Which bosses count.
    pub boss_count: BossCount,

    // The panel over the game.
    /// Layout of the panel.
    pub layout: Layout,
    /// Frame of the panel.
    pub panel_style: PanelStyle,
    /// Corner radius of the panel, before `ui_scale`.
    pub panel_rounding: Scalar,
    /// Width of the panel's gold line, before `ui_scale`.
    pub border_width: Scalar,
    /// Where the panel stands.
    pub panel_x: Scalar,
    /// Where the panel stands.
    pub panel_y: Scalar,
    /// Plate fill of the panel, from 0 to 1.
    pub panel_opacity: Scalar,
    /// Brightness of the panel's gold line.
    pub border_opacity: Scalar,
    /// Scales the whole panel: spacing, lines and font sizes alike. Kept within 0.1 and 10.
    pub ui_scale: Scalar,
    /// Hide the panel during cutscenes.
    pub hide_in_cutscene: bool,
    /// Hide the panel while a game menu is open.
    pub hide_in_menu: bool,

    // Colors, as red, green, blue and alpha in 255ths.
    /// The gold.
    pub accent_color: [u8; 4],
    /// The labels.
    pub label_color: [u8; 4],
    /// The values.
    pub value_color: [u8; 4],

    // The font and its sizes on the panel, in pixels.
    /// The font file.
    pub font_path: String,
    /// The labels.
    pub label_size: Scalar,
    /// The values.
    pub value_size: Scalar,
    /// The boss counter, the largest number of the panel. Also read from its former key
    /// `title_size`.
    pub counter_size: Scalar,
    /// The boss name.
    pub boss_name_size: Scalar,
    /// A boss name longer than this many characters goes on on the next line; 0 never does.
    pub boss_name_wrap: u32,
    /// The attempt rows.
    pub attempt_size: Scalar,
    /// Space between letters of the labels.
    pub tracking: Scalar,
    /// Space between rows of the panel.
    pub line_gap: Scalar,

    // The card that shows a purchase over the game.
    /// The purchase card over the game.
    pub twitch_notify_hud: bool,
    /// Where the top card stands.
    pub toast_x: Scalar,
    /// Where the top card stands.
    pub toast_y: Scalar,
    /// How long a purchase card stays up.
    pub twitch_notify_secs: Scalar,
    /// Frame of the purchase card.
    pub toast_style: PanelStyle,
    /// Corner radius of the purchase card.
    pub toast_rounding: Scalar,
    /// Width of the gold line of the purchase card.
    pub toast_border_width: Scalar,
    /// Plate fill of the purchase card.
    pub toast_opacity: Scalar,
    /// Brightness of the gold line of the purchase card.
    pub toast_border_opacity: Scalar,
    /// The buyer and the countdown on the purchase card.
    pub toast_label_size: Scalar,
    /// The reward on the purchase card.
    pub toast_value_size: Scalar,
    /// Width of the purchase card.
    pub toast_width: Scalar,

    // The widget in OBS. It hangs over a scene of its own, so everything about it is set apart
    // from the panel.
    /// Plate fill of the widget, from 0 to 1.
    pub web_opacity: Scalar,
    /// Brightness of the widget's gold line.
    pub web_border_opacity: Scalar,
    /// A factor over all sizes of the widget.
    pub web_scale: Scalar,
    /// Layout of the widget.
    pub web_layout: Layout,
    /// Frame of the widget.
    pub web_panel_style: PanelStyle,
    /// Corner radius of the widget, before `web_scale`.
    pub web_panel_rounding: Scalar,
    /// Width of the widget's gold line.
    pub web_border_width: Scalar,
    /// Font size of the labels in the widget.
    pub web_label_size: Scalar,
    /// Font size of the values in the widget.
    pub web_value_size: Scalar,
    /// Font size of the boss counter in the widget.
    pub web_counter_size: Scalar,
    /// Font size of the boss name in the widget.
    pub web_boss_name_size: Scalar,
    /// Font size of the attempt rows in the widget.
    pub web_attempt_size: Scalar,
    /// Space between letters of the widget's labels.
    pub web_tracking: Scalar,
    /// Space between rows of the widget.
    pub web_line_gap: Scalar,
    /// Frame of the card in OBS.
    pub web_toast_style: PanelStyle,
    /// Corner radius of the card in OBS.
    pub web_toast_rounding: Scalar,
    /// Width of the gold line of the card in OBS.
    pub web_toast_border_width: Scalar,
    /// Plate fill of the card in OBS.
    pub web_toast_opacity: Scalar,
    /// Brightness of the gold line of the card in OBS.
    pub web_toast_border_opacity: Scalar,
    /// Font size of the buyer and the countdown on the card in OBS.
    pub web_toast_label_size: Scalar,
    /// Font size of the reward on the card in OBS.
    pub web_toast_value_size: Scalar,
    /// Width of the card in OBS, before `web_scale`.
    pub web_toast_width: Scalar,

    // Twitch and its viewers.
    /// The main switch. Off by default: without a registered application there is nothing to
    /// do.
    pub twitch_enabled: bool,
    /// The application's Client ID, revealed. The file holds it protected.
    pub twitch_client_id: String,
    /// The Client ID stood in the file unprotected, so the file has to be written again. Not a
    /// setting of the file.
    pub secrets_plain: bool,
    /// The channel whose chat is read for nicknames.
    pub twitch_channel: String,
    /// The notice that rewards need Twitch was dismissed.
    pub rewards_notice_seen: bool,
    /// Where the list of viewers comes from.
    pub viewers_source: ViewerSource,
    /// Viewers that never get labeled, in lower case.
    pub viewer_block: Vec<String>,
    /// Built-in bots that count as ordinary viewers.
    pub viewer_bots_off: Vec<String>,
    /// Bots beside the built-in ones.
    pub viewer_bots_extra: Vec<String>,

    // Enemies and allies that viewers send, and the bosses around.
    /// How many spawned enemies may be in the world at once.
    pub spawn_limit: u32,
    /// Raw values of the spawner.
    pub debug_spawn: bool,
    /// Summoned allies with their health and the time they have left.
    pub show_allies: bool,
    /// Where the list of allies stands.
    pub ally_x: Scalar,
    /// Where the list of allies stands.
    pub ally_y: Scalar,
    /// How far from the player an enemy appears, in meters.
    pub spawn_radius_m: Scalar,
    /// In front of the camera instead of anywhere around the player.
    pub spawn_in_front: bool,
    /// Allow spawning during a boss fight. Also read, the other way round, from its former key
    /// `spawn_block_in_boss`.
    pub spawn_in_boss: bool,
    /// The same for summoned allies.
    pub ally_spawn_in_boss: bool,
    /// What counts as near in the boss list, in meters.
    pub boss_list_radius: Scalar,
    /// Beyond this the nearest boss is not shown on the panel, in meters.
    pub nearest_radius: Scalar,

    // Nicknames over enemies.
    /// Nicknames of viewers over enemies.
    pub enemy_tags: bool,
    /// Nicknames over ordinary enemies.
    pub enemy_tags_mobs: bool,
    /// Nicknames over bosses too.
    pub enemy_tags_bosses: bool,
    /// Font size of the labels over enemies.
    pub enemy_tag_size: Scalar,
    /// Color of the labels over enemies.
    pub enemy_tag_color: [u8; 4],
    /// Shift of an enemy's label, in units of the game's interface.
    pub enemy_tag_offset_x: Scalar,
    /// Shift of an enemy's label, in units of the game's interface.
    pub enemy_tag_height: Scalar,
    /// Shift of a boss's label from above its head.
    pub boss_tag_offset_x: Scalar,
    /// Shift of a boss's label from above its head.
    pub boss_tag_offset_y: Scalar,
    /// The viewer's last chat message under their nickname. Off by default: it is someone
    /// else's text on the stream.
    pub enemy_tag_say: bool,
    /// Shift of the message from the nickname.
    pub enemy_say_offset_x: Scalar,
    /// Shift of the message from the nickname.
    pub enemy_say_offset_y: Scalar,
    /// How long the message stays up, counted from when it first appeared.
    pub enemy_say_secs: Scalar,

    // Keys of the keyboard, by their names.
    /// Opens and closes the settings window.
    pub settings_key: String,
    /// Opens and closes the list of living bosses.
    pub boss_list_key: String,
}

impl Default for Config {
    fn default() -> (r: Config)
        ensures
            r.overlay_enabled == true,
            r.web_enabled == false,
            r.web_port == 7777,
            r.startup_delay_ms == 10000,
            r.lang@ == "auto"@,
            r.debug == false,
            r.show_level == true,
            r.show_deaths == true,
            r.show_bosses == true,
            r.show_runes == false,
            r.show_runes_total == false,
            r.show_playtime == false,
            r.show_ng == false,
            r.show_deathless == false,
            r.show_map_explored == false,
            r.show_boss_bar == true,
            r.show_nearest_boss == true,
            r.show_boss_name == true,
            r.show_attempts == true,
            r.show_fight_timer == true,
            r.show_all_boss_names == false,
            r.show_deaths_on_boss == false,
            r.show_viewer_kills == false,
            r.show_boss_kill_rate == false,
            r.show_death_rate == false,
            r.show_avg_attempts == false,
            r.boss_count == BossCount::All,
            r.layout == Layout::D,
            r.panel_style == PanelStyle::Frame,
            r.panel_rounding.bits == 0x40A00000,
            r.border_width.bits == 0x3F800000,
            r.panel_x.bits == 0x41C00000,
            r.panel_y.bits == 0x41C00000,
            r.panel_opacity.bits == 0x3E99999A,
            r.border_opacity.bits == 0x3F666666,
            r.ui_scale.bits == 0x3F800000,
            r.hide_in_cutscene == true,
            r.hide_in_menu == true,
            r.accent_color@ == seq![0xDEu8, 0xB8u8, 0x70u8, 0xFFu8],
            r.label_color@ == seq![0xC2u8, 0xC2u8, 0xD1u8, 0xFFu8],
            r.value_color@ == seq![0xF2u8, 0xEBu8, 0xD6u8, 0xFFu8],
            r.font_path@ == "C:\\Windows\\Fonts\\pala.ttf"@,
            r.label_size.bits == 0x41800000,
            r.value_size.bits == 0x41900000,
            r.counter_size.bits == 0x41B00000,
            r.boss_name_size.bits == 0x41800000,
            r.boss_name_wrap == 18,
            r.attempt_size.bits == 0x41900000,
            r.tracking.bits == 0x3F8CCCCD,
            r.line_gap.bits == 0x40800000,
            r.twitch_notify_hud == true,
            r.toast_x.bits == 0x44BE0000,
            r.toast_y.bits == 0x41C00000,
            r.twitch_notify_secs.bits == 0x41200000,
            r.toast_style == PanelStyle::Bar,
            r.toast_rounding.bits == 0x40A00000,
            r.toast_border_width.bits == 0x3F800000,
            r.toast_opacity.bits == 0x3E99999A,
            r.toast_border_opacity.bits == 0x3F4CCCCD,
            r.toast_label_size.bits == 0x41900000,
            r.toast_value_size.bits == 0x41900000,
            r.toast_width.bits == 0x43AA0000,
            r.web_opacity.bits == 0x3F266666,
            r.web_border_opacity.bits == 0x3F59999A,
            r.web_scale.bits == 0x40133333,
            r.web_layout == Layout::D,
            r.web_panel_style == PanelStyle::Frame,
            r.web_panel_rounding.bits == 0x41000000,
            r.web_border_width.bits == 0x3FCCCCCD,
            r.web_label_size.bits == 0x41600000,
            r.web_value_size.bits == 0x41700000,
            r.web_counter_size.bits == 0x41A00000,
            r.web_boss_name_size.bits == 0x41600000,
            r.web_attempt_size.bits == 0x41700000,
            r.web_tracking.bits == 0x00000000,
            r.web_line_gap.bits == 0x00000000,
            r.web_toast_style == PanelStyle::Frame,
            r.web_toast_rounding.bits == 0x41000000,
            r.web_toast_border_width.bits == 0x3FCCCCCD,
            r.web_toast_opacity.bits == 0x3F266666,
            r.web_toast_border_opacity.bits == 0x3F59999A,
            r.web_toast_label_size.bits == 0x41600000,
            r.web_toast_value_size.bits == 0x41700000,
            r.web_toast_width.bits == 0x43AA0000,
            r.twitch_enabled == false,
            r.twitch_client_id@ == Seq::<char>::empty(),
            r.secrets_plain == false,
            r.twitch_channel@ == Seq::<char>::empty(),
            r.rewards_notice_seen == false,
            r.viewers_source == ViewerSource::Auto,
            r.viewer_block@.len() == 0,
            r.viewer_bots_off@.len() == 0,
            r.viewer_bots_extra@.len() == 0,
            r.spawn_limit == 10,
            r.debug_spawn == false,
            r.show_allies == true,
            r.ally_x.bits == 0x41C00000,
            r.ally_y.bits == 0x43960000,
            r.spawn_radius_m.bits == 0x40A00000,
            r.spawn_in_front == true,
            r.spawn_in_boss == false,
            r.ally_spawn_in_boss == true,
            r.boss_list_radius.bits == 0x43FA0000,
            r.nearest_radius.bits == 0x43480000,
            r.enemy_tags == true,
            r.enemy_tags_mobs == true,
            r.enemy_tags_bosses == true,
            r.enemy_tag_size.bits == 0x41900000,
            r.enemy_tag_color@ == seq![0xE8u8, 0xD7u8, 0xA8u8, 0xFFu8],
            r.enemy_tag_offset_x.bits == 0xC28C0000,
            r.enemy_tag_height.bits == 0xC1A00000,
            r.boss_tag_offset_x.bits == 0xC28C0000,
            r.boss_tag_offset_y.bits == 0xC1A00000,
            r.enemy_tag_say == false,
            r.enemy_say_offset_x.bits == 0x00000000,
            r.enemy_say_offset_y.bits == 0xC20C0000,
            r.enemy_say_secs.bits == 0x41200000,
            r.settings_key@ == "F7"@,
            r.boss_list_key@ == "F8"@,
    {
        Config {
            overlay_enabled: true,
            web_enabled: false,
            web_port: 7777,
            startup_delay_ms: 10000,
            lang: "auto".to_string(),
            debug: false,
            show_level: true,
            show_deaths: true,
            show_bosses: true,
            show_runes: false,
            show_runes_total: false,
            show_playtime: false,
            show_ng: false,
            show_deathless: false,
            show_map_explored: false,
            show_boss_bar: true,
            show_nearest_boss: true,
            show_boss_name: true,
            show_attempts: true,
            show_fight_timer: true,
            show_all_boss_names: false,
            show_deaths_on_boss: false,
            show_viewer_kills: false,
            show_boss_kill_rate: false,
            show_death_rate: false,
            show_avg_attempts: false,
            boss_count: BossCount::All,
            layout: Layout::D,
            panel_style: PanelStyle::Frame,
            panel_rounding: Scalar { bits: 0x40A00000 },  // 5.0
            border_width: Scalar { bits: 0x3F800000 },  // 1.0
            panel_x: Scalar { bits: 0x41C00000 },  // 24.0
            panel_y: Scalar { bits: 0x41C00000 },  // 24.0
            panel_opacity: Scalar { bits: 0x3E99999A },  // 0.3
            border_opacity: Scalar { bits: 0x3F666666 },  // 0.9
            ui_scale: Scalar { bits: 0x3F800000 },  // 1.0
            hide_in_cutscene: true,
            hide_in_menu: true,
            accent_color: [0xDE, 0xB8, 0x70, 0xFF],
            label_color: [0xC2, 0xC2, 0xD1, 0xFF],
            value_color: [0xF2, 0xEB, 0xD6, 0xFF],
            font_path: "C:\\Windows\\Fonts\\pala.ttf".to_string(),
            label_size: Scalar { bits: 0x41800000 },  // 16.0
            value_size: Scalar { bits: 0x41900000 },  // 18.0
            counter_size: Scalar { bits: 0x41B00000 },  // 22.0
            boss_name_size: Scalar { bits: 0x41800000 },  // 16.0
            boss_name_wrap: 18,
            attempt_size: Scalar { bits: 0x41900000 },  // 18.0
            tracking: Scalar { bits: 0x3F8CCCCD },  // 1.1
            line_gap: Scalar { bits: 0x40800000 },  // 4.0
            twitch_notify_hud: true,
            toast_x: Scalar { bits: 0x44BE0000 },  // 1520.0
            toast_y: Scalar { bits: 0x41C00000 },  // 24.0
            twitch_notify_secs: Scalar { bits: 0x41200000 },  // 10.0
            toast_style: PanelStyle::Bar,
            toast_rounding: Scalar { bits: 0x40A00000 },  // 5.0
            toast_border_width: Scalar { bits: 0x3F800000 },  // 1.0
            toast_opacity: Scalar { bits: 0x3E99999A },  // 0.3
            toast_border_opacity: Scalar { bits: 0x3F4CCCCD },  // 0.8
            toast_label_size: Scalar { bits: 0x41900000 },  // 18.0
            toast_value_size: Scalar { bits: 0x41900000 },  // 18.0
            toast_width: Scalar { bits: 0x43AA0000 },  // 340.0
            web_opacity: Scalar { bits: 0x3F266666 },  // 0.65
            web_border_opacity: Scalar { bits: 0x3F59999A },  // 0.85
            web_scale: Scalar { bits: 0x40133333 },  // 2.3
            web_layout: Layout::D,
            web_panel_style: PanelStyle::Frame,
            web_panel_rounding: Scalar { bits: 0x41000000 },  // 8.0
            web_border_width: Scalar { bits: 0x3FCCCCCD },  // 1.6
            web_label_size: Scalar { bits: 0x41600000 },  // 14.0
            web_value_size: Scalar { bits: 0x41700000 },  // 15.0
            web_counter_size: Scalar { bits: 0x41A00000 },  // 20.0
            web_boss_name_size: Scalar { bits: 0x41600000 },  // 14.0
            web_attempt_size: Scalar { bits: 0x41700000 },  // 15.0
            web_tracking: Scalar { bits: 0x00000000 },  // 0.0
            web_line_gap: Scalar { bits: 0x00000000 },  // 0.0
            web_toast_style: PanelStyle::Frame,
            web_toast_rounding: Scalar { bits: 0x41000000 },  // 8.0
            web_toast_border_width: Scalar { bits: 0x3FCCCCCD },  // 1.6
            web_toast_opacity: Scalar { bits: 0x3F266666 },  // 0.65
            web_toast_border_opacity: Scalar { bits: 0x3F59999A },  // 0.85
            web_toast_label_size: Scalar { bits: 0x41600000 },  // 14.0
            web_toast_value_size: Scalar { bits: 0x41700000 },  // 15.0
            web_toast_width: Scalar { bits: 0x43AA0000 },  // 340.0
            twitch_enabled: false,
            twitch_client_id: String::new(),
            secrets_plain: false,
            twitch_channel: String::new(),
            rewards_notice_seen: false,
            viewers_source: ViewerSource::Auto,
            viewer_block: Vec::new(),
            viewer_bots_off: Vec::new(),
            viewer_bots_extra: Vec::new(),
            spawn_limit: 10,
            debug_spawn: false,
            show_allies: true,
            ally_x: Scalar { bits: 0x41C00000 },  // 24.0
            ally_y: Scalar { bits: 0x43960000 },  // 300.0
            spawn_radius_m: Scalar { bits: 0x40A00000 },  // 5.0
            spawn_in_front: true,
            spawn_in_boss: false,
            ally_spawn_in_boss: true,
            boss_list_radius: Scalar { bits: 0x43FA0000 },  // 500.0
            nearest_radius: Scalar { bits: 0x43480000 },  // 200.0
            enemy_tags: true,
            enemy_tags_mobs: true,
            enemy_tags_bosses: true,
            enemy_tag_size: Scalar { bits: 0x41900000 },  // 18.0
            enemy_tag_color: [0xE8, 0xD7, 0xA8, 0xFF],
            enemy_tag_offset_x: Scalar { bits: 0xC28C0000 },  // -70.0
            enemy_tag_height: Scalar { bits: 0xC1A00000 },  // -20.0
            boss_tag_offset_x: Scalar { bits: 0xC28C0000 },  // -70.0
            boss_tag_offset_y: Scalar { bits: 0xC1A00000 },  // -20.0
            enemy_tag_say: false,
            enemy_say_offset_x: Scalar { bits: 0x00000000 },  // 0.0
            enemy_say_offset_y: Scalar { bits: 0xC20C0000 },  // -35.0
            enemy_say_secs: Scalar { bits: 0x41200000 },  // 10.0
            settings_key: "F7".to_string(),
            boss_list_key: "F8".to_string(),
        }
    }
}

impl Config {
    /// The settings are what the lines `es` make of `before`: each one its last
    /// valid reading, or what it was.
    pub open spec fn follows(self, before: Config, es: Seq<Entry>, names: Seq<Seq<char>>) -> bool {
        &&& is_last(self.overlay_enabled, es, flag("overlay_enabled"@), before.overlay_enabled)
        &&& is_last(self.web_enabled, es, flag("web_enabled"@), before.web_enabled)
        &&& is_last(self.web_port, es, port("web_port"@), before.web_port)
        &&& is_last(self.startup_delay_ms, es, whole("startup_delay_ms"@), before.startup_delay_ms)
        &&& is_last(self.lang@, es, words("lang"@), before.lang@)
        &&& is_last(self.debug, es, flag("debug"@), before.debug)
        &&& is_last(self.show_level, es, flag("show_level"@), before.show_level)
        &&& is_last(self.show_deaths, es, flag("show_deaths"@), before.show_deaths)
        &&& is_last(self.show_bosses, es, flag("show_bosses"@), before.show_bosses)
        &&& is_last(self.show_runes, es, flag("show_runes"@), before.show_runes)
        &&& is_last(self.show_runes_total, es, flag("show_runes_total"@), before.show_runes_total)
        &&& is_last(self.show_playtime, es, flag("show_playtime"@), before.show_playtime)
        &&& is_last(self.show_ng, es, flag("show_ng"@), before.show_ng)
        &&& is_last(self.show_deathless, es, flag("show_deathless"@), before.show_deathless)
        &&& is_last(self.show_map_explored, es, flag("show_map_explored"@), before.show_map_explored)
        &&& is_last(self.show_boss_bar, es, flag("show_boss_bar"@), before.show_boss_bar)
        &&& is_last(self.show_nearest_boss, es, flag("show_nearest_boss"@), before.show_nearest_boss)
        &&& is_last(self.show_boss_name, es, flag("show_boss_name"@), before.show_boss_name)
        &&& is_last(self.show_attempts, es, flag("show_attempts"@), before.show_attempts)
        &&& is_last(self.show_fight_timer, es, flag("show_fight_timer"@), before.show_fight_timer)
        &&& is_last(self.show_all_boss_names, es, flag("show_all_boss_names"@), before.show_all_boss_names)
        &&& is_last(self.show_deaths_on_boss, es, flag("show_deaths_on_boss"@), before.show_deaths_on_boss)
        &&& is_last(self.show_viewer_kills, es, flag("show_viewer_kills"@), before.show_viewer_kills)
        &&& is_last(self.show_boss_kill_rate, es, flag("show_boss_kill_rate"@), before.show_boss_kill_rate)
        &&& is_last(self.show_death_rate, es, flag("show_death_rate"@), before.show_death_rate)
        &&& is_last(self.show_avg_attempts, es, flag("show_avg_attempts"@), before.show_avg_attempts)
        &&& is_last(self.boss_count, es, count_word("boss_count"@), before.boss_count)
        &&& is_last(self.layout, es, layout_word("layout"@), before.layout)
        &&& is_last(self.panel_style, es, style_word("panel_style"@), before.panel_style)
        &&& is_last(self.panel_rounding, es, number("panel_rounding"@), before.panel_rounding)
        &&& is_last(self.border_width, es, number("border_width"@), before.border_width)
        &&& is_last(self.panel_x, es, number("panel_x"@), before.panel_x)
        &&& is_last(self.panel_y, es, number("panel_y"@), before.panel_y)
        &&& is_last(self.panel_opacity, es, number("panel_opacity"@), before.panel_opacity)
        &&& is_last(self.border_opacity, es, number("border_opacity"@), before.border_opacity)
        &&& is_last(self.ui_scale, es, scale("ui_scale"@), before.ui_scale)
        &&& is_last(self.hide_in_cutscene, es, flag("hide_in_cutscene"@), before.hide_in_cutscene)
        &&& is_last(self.hide_in_menu, es, flag("hide_in_menu"@), before.hide_in_menu)
        &&& is_last(channels(self.accent_color), es, color("accent_color"@), channels(before.accent_color))
        &&& is_last(channels(self.label_color), es, color("label_color"@), channels(before.label_color))
        &&& is_last(channels(self.value_color), es, color("value_color"@), channels(before.value_color))
        &&& is_last(self.font_path@, es, words("font_path"@), before.font_path@)
        &&& is_last(self.label_size, es, number("label_size"@), before.label_size)
        &&& is_last(self.value_size, es, number("value_size"@), before.value_size)
        &&& is_last(self.counter_size, es, either(number("counter_size"@), number("title_size"@)), before.counter_size)
        &&& is_last(self.boss_name_size, es, number("boss_name_size"@), before.boss_name_size)
        &&& is_last(self.boss_name_wrap, es, whole("boss_name_wrap"@), before.boss_name_wrap)
        &&& is_last(self.attempt_size, es, number("attempt_size"@), before.attempt_size)
        &&& is_last(self.tracking, es, number("tracking"@), before.tracking)
        &&& is_last(self.line_gap, es, number("line_gap"@), before.line_gap)
        &&& is_last(self.twitch_notify_hud, es, flag("twitch_notify_hud"@), before.twitch_notify_hud)
        &&& is_last(self.toast_x, es, number("toast_x"@), before.toast_x)
        &&& is_last(self.toast_y, es, number("toast_y"@), before.toast_y)
        &&& is_last(self.twitch_notify_secs, es, number("twitch_notify_secs"@), before.twitch_notify_secs)
        &&& is_last(self.toast_style, es, style_word("toast_style"@), before.toast_style)
        &&& is_last(self.toast_rounding, es, number("toast_rounding"@), before.toast_rounding)
        &&& is_last(self.toast_border_width, es, number("toast_border_width"@), before.toast_border_width)
        &&& is_last(self.toast_opacity, es, number("toast_opacity"@), before.toast_opacity)
        &&& is_last(self.toast_border_opacity, es, number("toast_border_opacity"@), before.toast_border_opacity)
        &&& is_last(self.toast_label_size, es, number("toast_label_size"@), before.toast_label_size)
        &&& is_last(self.toast_value_size, es, number("toast_value_size"@), before.toast_value_size)
        &&& is_last(self.toast_width, es, number("toast_width"@), before.toast_width)
        &&& is_last(self.web_opacity, es, number("web_opacity"@), before.web_opacity)
        &&& is_last(self.web_border_opacity, es, number("web_border_opacity"@), before.web_border_opacity)
        &&& is_last(self.web_scale, es, number("web_scale"@), before.web_scale)
        &&& is_last(self.web_layout, es, layout_word("web_layout"@), before.web_layout)
        &&& is_last(self.web_panel_style, es, style_word("web_panel_style"@), before.web_panel_style)
        &&& is_last(self.web_panel_rounding, es, number("web_panel_rounding"@), before.web_panel_rounding)
        &&& is_last(self.web_border_width, es, number("web_border_width"@), before.web_border_width)
        &&& is_last(self.web_label_size, es, number("web_label_size"@), before.web_label_size)
        &&& is_last(self.web_value_size, es, number("web_value_size"@), before.web_value_size)
        &&& is_last(self.web_counter_size, es, number("web_counter_size"@), before.web_counter_size)
        &&& is_last(self.web_boss_name_size, es, number("web_boss_name_size"@), before.web_boss_name_size)
        &&& is_last(self.web_attempt_size, es, number("web_attempt_size"@), before.web_attempt_size)
        &&& is_last(self.web_tracking, es, number("web_tracking"@), before.web_tracking)
        &&& is_last(self.web_line_gap, es, number("web_line_gap"@), before.web_line_gap)
        &&& is_last(self.web_toast_style, es, style_word("web_toast_style"@), before.web_toast_style)
        &&& is_last(self.web_toast_rounding, es, number("web_toast_rounding"@), before.web_toast_rounding)
        &&& is_last(self.web_toast_border_width, es, number("web_toast_border_width"@), before.web_toast_border_width)
        &&& is_last(self.web_toast_opacity, es, number("web_toast_opacity"@), before.web_toast_opacity)
        &&& is_last(self.web_toast_border_opacity, es, number("web_toast_border_opacity"@), before.web_toast_border_opacity)
        &&& is_last(self.web_toast_label_size, es, number("web_toast_label_size"@), before.web_toast_label_size)
        &&& is_last(self.web_toast_value_size, es, number("web_toast_value_size"@), before.web_toast_value_size)
        &&& is_last(self.web_toast_width, es, number("web_toast_width"@), before.web_toast_width)
        &&& is_last(self.twitch_enabled, es, flag("twitch_enabled"@), before.twitch_enabled)
        &&& is_last(self.twitch_client_id@, es, secret("twitch_client_id"@), before.twitch_client_id@)
        &&& is_last(self.secrets_plain, es, unprotected("twitch_client_id"@), before.secrets_plain)
        &&& is_last(self.twitch_channel@, es, words("twitch_channel"@), before.twitch_channel@)
        &&& is_last(self.rewards_notice_seen, es, flag("rewards_notice_seen"@), before.rewards_notice_seen)
        &&& is_last(self.viewers_source, es, source_word("viewers_source"@), before.viewers_source)
        &&& is_last(texts(self.viewer_block@), es, nicks("viewer_block"@), texts(before.viewer_block@))
        &&& is_last(texts(self.viewer_bots_off@), es, nicks("viewer_bots_off"@), texts(before.viewer_bots_off@))
        &&& is_last(texts(self.viewer_bots_extra@), es, nicks("viewer_bots_extra"@), texts(before.viewer_bots_extra@))
        &&& is_last(self.spawn_limit, es, whole("spawn_limit"@), before.spawn_limit)
        &&& is_last(self.debug_spawn, es, flag("debug_spawn"@), before.debug_spawn)
        &&& is_last(self.show_allies, es, flag("show_allies"@), before.show_allies)
        &&& is_last(self.ally_x, es, number("ally_x"@), before.ally_x)
        &&& is_last(self.ally_y, es, number("ally_y"@), before.ally_y)
        &&& is_last(self.spawn_radius_m, es, number("spawn_radius_m"@), before.spawn_radius_m)
        &&& is_last(self.spawn_in_front, es, flag("spawn_in_front"@), before.spawn_in_front)
        &&& is_last(self.spawn_in_boss, es, either(flag("spawn_in_boss"@), inverted("spawn_block_in_boss"@)), before.spawn_in_boss)
        &&& is_last(self.ally_spawn_in_boss, es, flag("ally_spawn_in_boss"@), before.ally_spawn_in_boss)
        &&& is_last(self.boss_list_radius, es, number("boss_list_radius"@), before.boss_list_radius)
        &&& is_last(self.nearest_radius, es, number("nearest_radius"@), before.nearest_radius)
        &&& is_last(self.enemy_tags, es, flag("enemy_tags"@), before.enemy_tags)
        &&& is_last(self.enemy_tags_mobs, es, flag("enemy_tags_mobs"@), before.enemy_tags_mobs)
        &&& is_last(self.enemy_tags_bosses, es, flag("enemy_tags_bosses"@), before.enemy_tags_bosses)
        &&& is_last(self.enemy_tag_size, es, number("enemy_tag_size"@), before.enemy_tag_size)
        &&& is_last(channels(self.enemy_tag_color), es, color("enemy_tag_color"@), channels(before.enemy_tag_color))
        &&& is_last(self.enemy_tag_offset_x, es, number("enemy_tag_offset_x"@), before.enemy_tag_offset_x)
        &&& is_last(self.enemy_tag_height, es, number("enemy_tag_height"@), before.enemy_tag_height)
        &&& is_last(self.boss_tag_offset_x, es, number("boss_tag_offset_x"@), before.boss_tag_offset_x)
        &&& is_last(self.boss_tag_offset_y, es, number("boss_tag_offset_y"@), before.boss_tag_offset_y)
        &&& is_last(self.enemy_tag_say, es, flag("enemy_tag_say"@), before.enemy_tag_say)
        &&& is_last(self.enemy_say_offset_x, es, number("enemy_say_offset_x"@), before.enemy_say_offset_x)
        &&& is_last(self.enemy_say_offset_y, es, number("enemy_say_offset_y"@), before.enemy_say_offset_y)
        &&& is_last(self.enemy_say_secs, es, number("enemy_say_secs"@), before.enemy_say_secs)
        &&& is_last(self.settings_key@, es, key_name("settings_key"@, names), before.settings_key@)
        &&& is_last(self.boss_list_key@, es, key_name("boss_list_key"@, names), before.boss_list_key@)
    }

    proof fn lemma_follows_push(
        self,
        b: Config,
        a: Config,
        es: Seq<Entry>,
        e: Entry,
        names: Seq<Seq<char>>,
    )
        requires
            b.follows(a, es, names),
            self.follows(b, seq![e], names),
        ensures
            self.follows(a, es.push(e), names),
    {
        broadcast use is_last_of_push;

    }

    /// The settings after one line: what it says goes into the setting that it
    /// names, if it names one and says something of it.
    fn assigned(&self, line: &Line, names: &Vec<String>) -> (r: Config)
        ensures
            r.follows(*self, seq![line.entry()], texts(names@)),
    {
        Config {
            overlay_enabled: flag_after(line, "overlay_enabled", self.overlay_enabled),
            web_enabled: flag_after(line, "web_enabled", self.web_enabled),
            web_port: port_after(line, "web_port", self.web_port),
            startup_delay_ms: whole_after(line, "startup_delay_ms", self.startup_delay_ms),
            lang: words_after(line, "lang", &self.lang),
            debug: flag_after(line, "debug", self.debug),
            show_level: flag_after(line, "show_level", self.show_level),
            show_deaths: flag_after(line, "show_deaths", self.show_deaths),
            show_bosses: flag_after(line, "show_bosses", self.show_bosses),
            show_runes: flag_after(line, "show_runes", self.show_runes),
            show_runes_total: flag_after(line, "show_runes_total", self.show_runes_total),
            show_playtime: flag_after(line, "show_playtime", self.show_playtime),
            show_ng: flag_after(line, "show_ng", self.show_ng),
            show_deathless: flag_after(line, "show_deathless", self.show_deathless),
            show_map_explored: flag_after(line, "show_map_explored", self.show_map_explored),
            show_boss_bar: flag_after(line, "show_boss_bar", self.show_boss_bar),
            show_nearest_boss: flag_after(line, "show_nearest_boss", self.show_nearest_boss),
            show_boss_name: flag_after(line, "show_boss_name", self.show_boss_name),
            show_attempts: flag_after(line, "show_attempts", self.show_attempts),
            show_fight_timer: flag_after(line, "show_fight_timer", self.show_fight_timer),
            show_all_boss_names: flag_after(line, "show_all_boss_names", self.show_all_boss_names),
            show_deaths_on_boss: flag_after(line, "show_deaths_on_boss", self.show_deaths_on_boss),
            show_viewer_kills: flag_after(line, "show_viewer_kills", self.show_viewer_kills),
            show_boss_kill_rate: flag_after(line, "show_boss_kill_rate", self.show_boss_kill_rate),
            show_death_rate: flag_after(line, "show_death_rate", self.show_death_rate),
            show_avg_attempts: flag_after(line, "show_avg_attempts", self.show_avg_attempts),
            boss_count: count_after(line, "boss_count", self.boss_count),
            layout: layout_after(line, "layout", self.layout),
            panel_style: style_after(line, "panel_style", self.panel_style),
            panel_rounding: number_after(line, "panel_rounding", self.panel_rounding),
            border_width: number_after(line, "border_width", self.border_width),
            panel_x: number_after(line, "panel_x", self.panel_x),
            panel_y: number_after(line, "panel_y", self.panel_y),
            panel_opacity: number_after(line, "panel_opacity", self.panel_opacity),
            border_opacity: number_after(line, "border_opacity", self.border_opacity),
            ui_scale: scale_after(line, "ui_scale", self.ui_scale),
            hide_in_cutscene: flag_after(line, "hide_in_cutscene", self.hide_in_cutscene),
            hide_in_menu: flag_after(line, "hide_in_menu", self.hide_in_menu),
            accent_color: color_after(line, "accent_color", self.accent_color),
            label_color: color_after(line, "label_color", self.label_color),
            value_color: color_after(line, "value_color", self.value_color),
            font_path: words_after(line, "font_path", &self.font_path),
            label_size: number_after(line, "label_size", self.label_size),
            value_size: number_after(line, "value_size", self.value_size),
            counter_size: either_number_after(line, "counter_size", "title_size", self.counter_size),
            boss_name_size: number_after(line, "boss_name_size", self.boss_name_size),
            boss_name_wrap: whole_after(line, "boss_name_wrap", self.boss_name_wrap),
            attempt_size: number_after(line, "attempt_size", self.attempt_size),
            tracking: number_after(line, "tracking", self.tracking),
            line_gap: number_after(line, "line_gap", self.line_gap),
            twitch_notify_hud: flag_after(line, "twitch_notify_hud", self.twitch_notify_hud),
            toast_x: number_after(line, "toast_x", self.toast_x),
            toast_y: number_after(line, "toast_y", self.toast_y),
            twitch_notify_secs: number_after(line, "twitch_notify_secs", self.twitch_notify_secs),
            toast_style: style_after(line, "toast_style", self.toast_style),
            toast_rounding: number_after(line, "toast_rounding", self.toast_rounding),
            toast_border_width: number_after(line, "toast_border_width", self.toast_border_width),
            toast_opacity: number_after(line, "toast_opacity", self.toast_opacity),
            toast_border_opacity: number_after(line, "toast_border_opacity", self.toast_border_opacity),
            toast_label_size: number_after(line, "toast_label_size", self.toast_label_size),
            toast_value_size: number_after(line, "toast_value_size", self.toast_value_size),
            toast_width: number_after(line, "toast_width", self.toast_width),
            web_opacity: number_after(line, "web_opacity", self.web_opacity),
            web_border_opacity: number_after(line, "web_border_opacity", self.web_border_opacity),
            web_scale: number_after(line, "web_scale", self.web_scale),
            web_layout: layout_after(line, "web_layout", self.web_layout),
            web_panel_style: style_after(line, "web_panel_style", self.web_panel_style),
            web_panel_rounding: number_after(line, "web_panel_rounding", self.web_panel_rounding),
            web_border_width: number_after(line, "web_border_width", self.web_border_width),
            web_label_size: number_after(line, "web_label_size", self.web_label_size),
            web_value_size: number_after(line, "web_value_size", self.web_value_size),
            web_counter_size: number_after(line, "web_counter_size", self.web_counter_size),
            web_boss_name_size: number_after(line, "web_boss_name_size", self.web_boss_name_size),
            web_attempt_size: number_after(line, "web_attempt_size", self.web_attempt_size),
            web_tracking: number_after(line, "web_tracking", self.web_tracking),
            web_line_gap: number_after(line, "web_line_gap", self.web_line_gap),
            web_toast_style: style_after(line, "web_toast_style", self.web_toast_style),
            web_toast_rounding: number_after(line, "web_toast_rounding", self.web_toast_rounding),
            web_toast_border_width: number_after(line, "web_toast_border_width", self.web_toast_border_width),
            web_toast_opacity: number_after(line, "web_toast_opacity", self.web_toast_opacity),
            web_toast_border_opacity: number_after(line, "web_toast_border_opacity", self.web_toast_border_opacity),
            web_toast_label_size: number_after(line, "web_toast_label_size", self.web_toast_label_size),
            web_toast_value_size: number_after(line, "web_toast_value_size", self.web_toast_value_size),
            web_toast_width: number_after(line, "web_toast_width", self.web_toast_width),
            twitch_enabled: flag_after(line, "twitch_enabled", self.twitch_enabled),
            twitch_client_id: secret_after(line, "twitch_client_id", &self.twitch_client_id),
            secrets_plain: unprotected_after(line, "twitch_client_id", self.secrets_plain),
            twitch_channel: words_after(line, "twitch_channel", &self.twitch_channel),
            rewards_notice_seen: flag_after(line, "rewards_notice_seen", self.rewards_notice_seen),
            viewers_source: source_after(line, "viewers_source", self.viewers_source),
            viewer_block: nicks_after(line, "viewer_block", &self.viewer_block),
            viewer_bots_off: nicks_after(line, "viewer_bots_off", &self.viewer_bots_off),
            viewer_bots_extra: nicks_after(line, "viewer_bots_extra", &self.viewer_bots_extra),
            spawn_limit: whole_after(line, "spawn_limit", self.spawn_limit),
            debug_spawn: flag_after(line, "debug_spawn", self.debug_spawn),
            show_allies: flag_after(line, "show_allies", self.show_allies),
            ally_x: number_after(line, "ally_x", self.ally_x),
            ally_y: number_after(line, "ally_y", self.ally_y),
            spawn_radius_m: number_after(line, "spawn_radius_m", self.spawn_radius_m),
            spawn_in_front: flag_after(line, "spawn_in_front", self.spawn_in_front),
            spawn_in_boss: either_flag_after(line, "spawn_in_boss", "spawn_block_in_boss", self.spawn_in_boss),
            ally_spawn_in_boss: flag_after(line, "ally_spawn_in_boss", self.ally_spawn_in_boss),
            boss_list_radius: number_after(line, "boss_list_radius", self.boss_list_radius),
            nearest_radius: number_after(line, "nearest_radius", self.nearest_radius),
            enemy_tags: flag_after(line, "enemy_tags", self.enemy_tags),
            enemy_tags_mobs: flag_after(line, "enemy_tags_mobs", self.enemy_tags_mobs),
            enemy_tags_bosses: flag_after(line, "enemy_tags_bosses", self.enemy_tags_bosses),
            enemy_tag_size: number_after(line, "enemy_tag_size", self.enemy_tag_size),
            enemy_tag_color: color_after(line, "enemy_tag_color", self.enemy_tag_color),
            enemy_tag_offset_x: number_after(line, "enemy_tag_offset_x", self.enemy_tag_offset_x),
            enemy_tag_height: number_after(line, "enemy_tag_height", self.enemy_tag_height),
            boss_tag_offset_x: number_after(line, "boss_tag_offset_x", self.boss_tag_offset_x),
            boss_tag_offset_y: number_after(line, "boss_tag_offset_y", self.boss_tag_offset_y),
            enemy_tag_say: flag_after(line, "enemy_tag_say", self.enemy_tag_say),
            enemy_say_offset_x: number_after(line, "enemy_say_offset_x", self.enemy_say_offset_x),
            enemy_say_offset_y: number_after(line, "enemy_say_offset_y", self.enemy_say_offset_y),
            enemy_say_secs: number_after(line, "enemy_say_secs", self.enemy_say_secs),
            settings_key: key_after(line, "settings_key", names, &self.settings_key),
            boss_list_key: key_after(line, "boss_list_key", names, &self.boss_list_key),
        }
    }

    /// Takes the settings from the text of a file, line by line. `decoded` is what
    /// the host made of the value on each line that assigns one, and `names` are the
    /// names of the keys of the keyboard. Unknown keys and values that make no sense
    /// are passed over.
    pub fn apply(&mut self, text: &str, decoded: &Vec<Decoded>, names: &Vec<String>)
        requires
            decoded.len() == file_assignments(text@).len(),
        ensures
            final(self).follows(*old(self), entries(text@, decoded@), texts(names@)),
    {
        let pairs: Vec<(String, String)> = assignments(text);
        let ghost es = entries(text@, decoded@);
        assert(pair_texts(pairs@).len() == pairs.len());
        broadcast use is_last_of_none;

        proof {
            assert(es.take(0) == Seq::<Entry>::empty());
        }
        for i in 0..pairs.len()
            invariant
                pair_texts(pairs@) == file_assignments(text@),
                decoded.len() == pairs.len(),
                es == entries(text@, decoded@),
                self.follows(*old(self), es.take(i as int), texts(names@)),
        {
            let line: Line = Line {
                key: chars_of(&pairs[i].0),
                value: pairs[i].1.clone(),
                number: decoded[i].number,
                protected: decoded[i].protected,
                revealed: decoded[i].revealed.clone(),
            };
            let ghost before = *self;
            *self = self.assigned(&line, names);
            proof {
                assert(pair_texts(pairs@)[i as int] == (pairs@[i as int].0@, pairs@[i as int].1@));
                assert(line.entry() == es[i as int]);
                self.lemma_follows_push(
                    before,
                    *old(self),
                    es.take(i as int),
                    line.entry(),
                    texts(names@),
                );
                assert(es.take(i + 1) == es.take(i as int).push(es[i as int]));
            }
        }
        assert(es.take(pairs@.len() as int) == es);
    }
}

} // verus!
