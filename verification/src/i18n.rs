//! The language of the interface. The English text of the code is the key of its
//! translation; translations are files, one for each language, and the name of the
//! file is the code of the language. What has no translation stays English, so no
//! broken file can break the interface.

use vstd::prelude::*;
use crate::boss_list::codes;
use crate::order::{is_sorted_order, keys_of, sorted_order};
use crate::text::{
    append, append_text, ascii_lower, chars_of, cut, fields, lines, lines_of, lowered_text,
    pair_texts, runs, same, split_at_first, split_fields, split_once, starts_with, string_of,
    texts, trim, trimmed,
};

verus! {

/// The setting that means "as in the game".
pub const AUTO: &'static str = "auto";

/// A language.
pub struct Language {
    /// The name of its file without the extension.
    pub code: String,
    /// What it is called in the settings.
    pub name: String,
    /// What Steam calls it, in lower case.
    pub steam: Vec<String>,
    /// The translations, by the English texts; of two for one text the later counts.
    pub pairs: Vec<(String, String)>,
    /// The ranges of letters that it needs.
    pub ranges: Vec<u32>,
}

/// A file of a language, taken apart.
pub struct Parsed {
    pub name: Option<String>,
    pub steam: Vec<String>,
    pub pairs: Vec<(String, String)>,
}

/// The languages there are and the one in use. `languages` is `None` until the folder
/// has been read, and `active` is `None` where the English text of the code is shown.
pub struct Locales {
    pub languages: Option<Vec<Language>>,
    pub active: Option<usize>,
}

/// A file of the `locale` folder: its name and its text.
pub struct LocaleFile {
    pub file_name: String,
    pub text: String,
}

// ---------------------------------------------------------------------------
// Files
// ---------------------------------------------------------------------------

/// The text without byte order marks at its start.
pub open spec fn unmarked(s: Seq<char>) -> Seq<char>
    decreases s.len(),
{
    if starts_with(s, '\u{feff}') {
        unmarked(s.skip(1))
    } else {
        s
    }
}

/// What a line of the file says: a key and a value, split at the first equals sign.
/// Blank lines, comments and sections say nothing, nor do lines that lack a key or a
/// value.
pub open spec fn locale_line(line: Seq<char>) -> Option<(Seq<char>, Seq<char>)> {
    let t: Seq<char> = trim(unmarked(line));
    if t.len() == 0 || starts_with(t, ';') || starts_with(t, '[') {
        None
    } else {
        match split_once(t, '=') {
            Some((k, v)) => if trim(k).len() > 0 && trim(v).len() > 0 {
                Some((trim(k), trim(v)))
            } else {
                None
            },
            None => None,
        }
    }
}

/// What some lines say, in order.
pub open spec fn locale_entries(ls: Seq<Seq<char>>) -> Seq<(Seq<char>, Seq<char>)>
    decreases ls.len(),
{
    if ls.len() == 0 {
        Seq::empty()
    } else {
        match locale_line(ls.last()) {
            Some(e) => locale_entries(ls.drop_last()).push(e),
            None => locale_entries(ls.drop_last()),
        }
    }
}

/// The last value under a key.
pub open spec fn last_value(es: Seq<(Seq<char>, Seq<char>)>, key: Seq<char>) -> Option<Seq<char>>
    decreases es.len(),
{
    if es.len() == 0 {
        None
    } else if es.last().0 == key {
        Some(es.last().1)
    } else {
        last_value(es.drop_last(), key)
    }
}

/// Whether a key is about the language itself.
pub open spec fn is_own_key(key: Seq<char>) -> bool {
    key == "_name"@ || key == "_steam"@
}

/// The translations among the entries.
pub open spec fn translations(es: Seq<(Seq<char>, Seq<char>)>) -> Seq<(Seq<char>, Seq<char>)>
    decreases es.len(),
{
    if es.len() == 0 {
        Seq::empty()
    } else if is_own_key(es.last().0) {
        translations(es.drop_last())
    } else {
        translations(es.drop_last()).push(es.last())
    }
}

/// Those fields that are not blank, in lower case.
pub open spec fn steam_names(fs: Seq<Seq<char>>) -> Seq<Seq<char>>
    decreases fs.len(),
{
    if fs.len() == 0 {
        Seq::empty()
    } else {
        let n: Seq<char> = ascii_lower(trim(fs.last()));
        if n.len() == 0 {
            steam_names(fs.drop_last())
        } else {
            steam_names(fs.drop_last()).push(n)
        }
    }
}

/// What Steam calls the language, by what the file says of it.
pub open spec fn steam_of(value: Option<Seq<char>>) -> Seq<Seq<char>> {
    match value {
        Some(v) => steam_names(fields(v, ',')),
        None => Seq::empty(),
    }
}

impl Parsed {
    /// What the entries of a file come to.
    pub open spec fn holds(self, es: Seq<(Seq<char>, Seq<char>)>) -> bool {
        &&& match self.name {
            Some(n) => last_value(es, "_name"@) == Some(n@),
            None => last_value(es, "_name"@) is None,
        }
        &&& texts(self.steam@) == steam_of(last_value(es, "_steam"@))
        &&& pair_texts(self.pairs@) == translations(es)
    }
}

fn entry_on(line: &Vec<char>) -> (r: Option<(Vec<char>, Vec<char>)>)
    ensures
        match r {
            Some((k, v)) => locale_line(line@) == Some((k@, v@)),
            None => locale_line(line@) is None,
        },
{
    let mut n: usize = 0;
    assert(line@.skip(0) == line@);
    while n < line.len() && line[n] == '\u{feff}'
        invariant
            n <= line.len(),
            unmarked(line@) == unmarked(line@.skip(n as int)),
        decreases line.len() - n,
    {
        assert(line@.skip(n as int).skip(1) == line@.skip(n + 1));
        n = n + 1;
    }
    let bare: Vec<char> = cut(line, n, line.len());
    assert(bare@ == line@.skip(n as int));
    let t: Vec<char> = trimmed(&bare);
    if t.len() == 0 || t[0] == ';' || t[0] == '[' {
        return None;
    }
    match split_at_first(&t, '=') {
        Some((k, v)) => {
            let key: Vec<char> = trimmed(&k);
            let value: Vec<char> = trimmed(&v);
            if key.len() > 0 && value.len() > 0 {
                Some((key, value))
            } else {
                None
            }
        },
        None => None,
    }
}

fn steam_list(value: &Vec<char>) -> (r: Vec<String>)
    ensures
        texts(r@) == steam_names(fields(value@, ',')),
{
    let fs: Vec<Vec<char>> = split_fields(value, ',');
    let mut r: Vec<String> = Vec::new();
    assert(texts(r@) == steam_names(runs(fs@).take(0)));
    for i in 0..fs.len()
        invariant
            texts(r@) == steam_names(runs(fs@).take(i as int)),
    {
        let ghost before = r@;
        proof {
            let next = runs(fs@).take(i + 1);
            assert(next.drop_last() == runs(fs@).take(i as int));
            assert(next.last() == fs@[i as int]@);
        }
        let n: Vec<char> = lowered_text(&trimmed(&fs[i]));
        if n.len() > 0 {
            let s: String = string_of(&n);
            r.push(s);
            assert(texts(r@) == texts(before).push(s@));
        }
    }
    assert(runs(fs@).take(fs@.len() as int) == runs(fs@));
    r
}

/// Takes the text of a file apart, line by line.
pub fn parse(text: &str) -> (r: Parsed)
    ensures
        r.holds(locale_entries(lines(text@))),
{
    let ls: Vec<Vec<char>> = lines_of(text);
    let mut p: Parsed = Parsed { name: None, steam: Vec::new(), pairs: Vec::new() };
    proof {
        assert(locale_entries(runs(ls@).take(0)) == Seq::<(Seq<char>, Seq<char>)>::empty());
        assert(texts(p.steam@) == Seq::<Seq<char>>::empty());
        assert(pair_texts(p.pairs@) == Seq::<(Seq<char>, Seq<char>)>::empty());
    }
    for i in 0..ls.len()
        invariant
            p.holds(locale_entries(runs(ls@).take(i as int))),
    {
        let ghost before = locale_entries(runs(ls@).take(i as int));
        proof {
            let next = runs(ls@).take(i + 1);
            assert(next.drop_last() == runs(ls@).take(i as int));
            assert(next.last() == ls@[i as int]@);
        }
        match entry_on(&ls[i]) {
            Some((key, value)) => {
                let ghost es = before.push((key@, value@));
                proof {
                    assert(es.drop_last() == before);
                    reveal_strlit("_name");
                    reveal_strlit("_steam");
                    assert("_name"@.len() != "_steam"@.len());
                }
                if same(&key, "_name") {
                    p.name = Some(string_of(&value));
                } else if same(&key, "_steam") {
                    p.steam = steam_list(&value);
                } else {
                    let ghost old_pairs = p.pairs@;
                    p.pairs.push((string_of(&key), string_of(&value)));
                    assert(pair_texts(p.pairs@) == pair_texts(old_pairs).push((key@, value@)));
                }
                assert(p.holds(es));
            },
            None => {},
        }
    }
    assert(runs(ls@).take(ls@.len() as int) == runs(ls@));
    p
}

// ---------------------------------------------------------------------------
// Ranges of letters
// ---------------------------------------------------------------------------

/// The letters that are always needed: Latin for the text of the code, Cyrillic because
/// the game brings names in it.
pub open spec fn is_base(u: int) -> bool {
    0x20 <= u <= 0xFF || 0x0400 <= u <= 0x052F
}

/// Whether a text holds the character with a number.
pub open spec fn has_char(s: Seq<char>, u: int) -> bool {
    exists|i: int| 0 <= i < s.len() && #[trigger] s[i] as u32 == u
}

/// The characters that a language needs: the base, and all in its texts that are not
/// control characters.
pub open spec fn is_needed(
    pairs: Seq<(Seq<char>, Seq<char>)>,
    name: Seq<char>,
    u: int,
) -> bool {
    is_base(u) || (u >= 0x20 && (has_char(name, u) || exists|k: int|
        0 <= k < pairs.len() && has_char((#[trigger] pairs[k]).1, u)))
}

/// The first number of a range.
pub open spec fn range_start(r: Seq<u32>, k: int) -> u32 {
    r[2 * k]
}

/// The last number of a range.
pub open spec fn range_end(r: Seq<u32>, k: int) -> u32 {
    r[2 * k + 1]
}

/// Whether one of the first `n` ranges holds the number.
pub open spec fn covered(r: Seq<u32>, n: int, u: int) -> bool {
    exists|k: int| 0 <= k < n && #[trigger] range_start(r, k) <= u <= range_end(r, k)
}

/// The first `n` ranges are in order, and between two of them something is left out.
pub open spec fn ranges_apart(r: Seq<u32>, n: int) -> bool {
    &&& forall|k: int|
        0 <= k < n ==> 0x20 <= #[trigger] range_start(r, k) <= range_end(r, k) <= 0x10FFFF
    &&& forall|k: int|
        1 <= k < n ==> range_end(r, k - 1) + 1 < #[trigger] range_start(r, k)
}

/// Ranges as the font wants them: pairs of a first and a last number, in order, none
/// touching another, and a zero at the end.
pub open spec fn ranges_valid(r: Seq<u32>) -> bool {
    r.len() % 2 == 1 && r.last() == 0 && ranges_apart(r, (r.len() as int - 1) / 2)
}

fn mark(marks: &mut Vec<bool>, s: &str)
    requires
        old(marks).len() == 0x110000,
    ensures
        final(marks).len() == 0x110000,
        forall|u: int|
            0 <= u < 0x110000 ==> #[trigger] final(marks)@[u] == (old(marks)@[u] || has_char(
                s@,
                u,
            )),
{
    let v: Vec<char> = chars_of(s);
    for i in 0..v.len()
        invariant
            v@ == s@,
            marks.len() == 0x110000,
            old(marks).len() == 0x110000,
            forall|u: int|
                0 <= u < 0x110000 ==> #[trigger] marks@[u] == (old(marks)@[u] || has_char(
                    s@.take(i as int),
                    u,
                )),
    {
        let c: char = v[i];
        proof {
            vstd::utf8::char_is_scalar(c);
        }
        let at: usize = c as u32 as usize;
        let ghost before = marks@;
        marks[at] = true;
        proof {
            let now = s@.take(i as int);
            let next = s@.take(i + 1);
            assert forall|u: int| 0 <= u < 0x110000 implies #[trigger] marks@[u] == (old(marks)@[u]
                || has_char(next, u)) by {
                assert(before[u] == (old(marks)@[u] || has_char(now, u)));
                if has_char(now, u) {
                    let j = choose|j: int| 0 <= j < now.len() && #[trigger] now[j] as u32 == u;
                    assert(next[j] as u32 == u);
                }
                if u == at {
                    assert(next[i as int] as u32 == u);
                }
                if has_char(next, u) {
                    let j = choose|j: int| 0 <= j < next.len() && #[trigger] next[j] as u32 == u;
                    if j < i {
                        assert(now[j] as u32 == u);
                    }
                }
            }
        }
    }
    assert(s@.take(s@.len() as int) == s@);
}

/// The last range made longer by one number.
proof fn lemma_range_grows(a: Seq<u32>, b: Seq<u32>, n: int, u: u32)
    requires
        n >= 1,
        a.len() == 2 * n,
        ranges_apart(a, n),
        a[2 * n - 1] + 1 == u,
        u < 0x110000,
        b == a.update(2 * n - 1, u),
    ensures
        ranges_apart(b, n),
        forall|w: int| #[trigger] covered(b, n, w) <==> covered(a, n, w) || w == u,
{
    assert forall|k: int| 0 <= k < n implies #[trigger] range_start(b, k) == range_start(a, k) && (
    k < n - 1 ==> range_end(b, k) == range_end(a, k)) by {}
    assert(range_end(b, n - 1) == u && range_end(a, n - 1) + 1 == u);
    assert(range_start(a, n - 1) <= range_end(a, n - 1));
    assert(ranges_apart(b, n)) by {
        assert forall|k: int| 0 <= k < n implies 0x20 <= #[trigger] range_start(b, k) <= range_end(
            b,
            k,
        ) <= 0x10FFFF by {
            assert(0x20 <= range_start(a, k) <= range_end(a, k) <= 0x10FFFF);
        }
        assert forall|k: int| 1 <= k < n implies range_end(b, k - 1) + 1 < #[trigger] range_start(
            b,
            k,
        ) by {
            assert(range_end(a, k - 1) + 1 < range_start(a, k));
            assert(range_start(b, k - 1) == range_start(a, k - 1));
        }
    }
    assert forall|w: int| #[trigger] covered(b, n, w) <==> covered(a, n, w) || w == u by {
        if covered(a, n, w) {
            let k = choose|k: int| 0 <= k < n && #[trigger] range_start(a, k) <= w <= range_end(a, k);
            assert(range_start(b, k) <= w <= range_end(b, k));
        }
        if w == u {
            assert(range_start(b, n - 1) <= w <= range_end(b, n - 1));
        }
        if covered(b, n, w) && w != u {
            let k = choose|k: int| 0 <= k < n && #[trigger] range_start(b, k) <= w <= range_end(b, k);
            assert(range_start(a, k) <= w <= range_end(a, k));
        }
    }
}

/// A range of one number added.
proof fn lemma_range_begins(a: Seq<u32>, b: Seq<u32>, n: int, u: u32)
    requires
        n >= 0,
        a.len() == 2 * n,
        ranges_apart(a, n),
        n > 0 ==> a[2 * n - 1] + 1 < u,
        0x20 <= u < 0x110000,
        b == a.push(u).push(u),
    ensures
        ranges_apart(b, n + 1),
        forall|w: int| #[trigger] covered(b, n + 1, w) <==> covered(a, n, w) || w == u,
{
    assert forall|k: int| 0 <= k < n implies #[trigger] range_start(b, k) == range_start(a, k)
        && range_end(b, k) == range_end(a, k) by {}
    assert(range_start(b, n) == u && range_end(b, n) == u);
    assert(ranges_apart(b, n + 1)) by {
        assert forall|k: int| 0 <= k < n + 1 implies 0x20 <= #[trigger] range_start(b, k)
            <= range_end(b, k) <= 0x10FFFF by {
            if k < n {
                assert(0x20 <= range_start(a, k) <= range_end(a, k) <= 0x10FFFF);
            }
        }
        assert forall|k: int| 1 <= k < n + 1 implies range_end(b, k - 1) + 1
            < #[trigger] range_start(b, k) by {
            assert(range_start(b, k - 1) == range_start(a, k - 1));
            if k < n {
                assert(range_end(a, k - 1) + 1 < range_start(a, k));
            } else {
                assert(range_end(a, k - 1) == a[2 * n - 1]);
            }
        }
    }
    assert forall|w: int| #[trigger] covered(b, n + 1, w) <==> covered(a, n, w) || w == u by {
        if covered(a, n, w) {
            let k = choose|k: int| 0 <= k < n && #[trigger] range_start(a, k) <= w <= range_end(a, k);
            assert(range_start(b, k) <= w <= range_end(b, k));
        }
        if w == u {
            assert(range_start(b, n) <= w <= range_end(b, n));
        }
        if covered(b, n + 1, w) && w != u {
            let k = choose|k: int|
                0 <= k < n + 1 && #[trigger] range_start(b, k) <= w <= range_end(b, k);
            assert(range_start(a, k) <= w <= range_end(a, k));
        }
    }
}

/// What stands behind the ranges does not matter to them.
proof fn lemma_ranges_end(a: Seq<u32>, b: Seq<u32>, n: int)
    requires
        n >= 0,
        a.len() == 2 * n,
        ranges_apart(a, n),
        b == a.push(0),
    ensures
        ranges_apart(b, n),
        forall|w: int| #[trigger] covered(b, n, w) <==> covered(a, n, w),
{
    assert forall|k: int| 0 <= k < n implies #[trigger] range_start(b, k) == range_start(a, k)
        && range_end(b, k) == range_end(a, k) by {}
    assert forall|k: int| 1 <= k < n implies range_end(b, k - 1) + 1 < #[trigger] range_start(
        b,
        k,
    ) by {
        assert(range_end(a, k - 1) + 1 < range_start(a, k));
        assert(range_start(b, k - 1) == range_start(a, k - 1));
    }
    assert forall|w: int| #[trigger] covered(b, n, w) <==> covered(a, n, w) by {
        if covered(a, n, w) {
            let k = choose|k: int| 0 <= k < n && #[trigger] range_start(a, k) <= w <= range_end(a, k);
            assert(range_start(b, k) <= w <= range_end(b, k));
        }
        if covered(b, n, w) {
            let k = choose|k: int| 0 <= k < n && #[trigger] range_start(b, k) <= w <= range_end(b, k);
            assert(range_start(a, k) <= w <= range_end(a, k));
        }
    }
}

/// The ranges of the marked numbers from 0x20 on.
fn ranges_of_marks(marks: &Vec<bool>) -> (r: Vec<u32>)
    requires
        marks.len() == 0x110000,
    ensures
        ranges_valid(r@),
        forall|u: int|
            0x20 <= u < 0x110000 ==> (#[trigger] marks@[u] <==> covered(
                r@,
                (r@.len() as int - 1) / 2,
                u,
            )),
{
    let mut r: Vec<u32> = Vec::new();
    let ghost mut n: int = 0;
    for u in 0x20u32..0x110000u32
        invariant
            marks.len() == 0x110000,
            n >= 0,
            r.len() == 2 * n,
            ranges_apart(r@, n),
            n > 0 ==> r@[2 * n - 1] < u,
            forall|w: int| 0x20 <= w < u ==> (#[trigger] marks@[w] <==> covered(r@, n, w)),
            forall|w: int| w >= u ==> !(#[trigger] covered(r@, n, w)),
    {
        let ghost before = r@;
        if marks[u as usize] {
            let len: usize = r.len();
            if len > 0 && r[len - 1] + 1 == u {
                r[len - 1] = u;
                proof {
                    lemma_range_grows(before, r@, n, u);
                }
            } else {
                r.push(u);
                r.push(u);
                proof {
                    lemma_range_begins(before, r@, n, u);
                    n = n + 1;
                }
            }
        }
    }
    let ghost before = r@;
    r.push(0);
    proof {
        lemma_ranges_end(before, r@, n);
        assert((r@.len() as int - 1) / 2 == n);
    }
    r
}

/// The ranges of letters that a language needs: exactly its characters, in ranges that
/// the font accepts whatever the file holds.
pub fn ranges_of(pairs: &Vec<(String, String)>, name: &str) -> (r: Vec<u32>)
    ensures
        ranges_valid(r@),
        forall|u: int|
            0 <= u <= 0x10FFFF ==> (covered(r@, (r@.len() as int - 1) / 2, u)
                <==> #[trigger] is_needed(pair_texts(pairs@), name@, u)),
{
    let mut marks: Vec<bool> = vec![false; 0x110000];
    for u in 0x20usize..0x100usize
        invariant
            marks.len() == 0x110000,
            forall|w: int| 0 <= w < 0x110000 ==> #[trigger] marks@[w] == (0x20 <= w < u),
    {
        marks[u] = true;
    }
    for u in 0x0400usize..0x0530usize
        invariant
            marks.len() == 0x110000,
            forall|w: int|
                0 <= w < 0x110000 ==> #[trigger] marks@[w] == (0x20 <= w <= 0xFF || 0x0400 <= w
                    < u),
    {
        marks[u] = true;
    }
    let ghost base = marks@;
    let ghost ps = pair_texts(pairs@);
    mark(&mut marks, name);
    for i in 0..pairs.len()
        invariant
            ps == pair_texts(pairs@),
            marks.len() == 0x110000,
            forall|u: int|
                0 <= u < 0x110000 ==> #[trigger] marks@[u] == (is_base(u) || has_char(name@, u)
                    || exists|k: int| 0 <= k < i && has_char((#[trigger] ps[k]).1, u)),
    {
        let ghost before = marks@;
        mark(&mut marks, &pairs[i].1);
        proof {
            assert forall|u: int| 0 <= u < 0x110000 implies #[trigger] marks@[u] == (is_base(u)
                || has_char(name@, u) || exists|k: int|
                0 <= k < i + 1 && has_char((#[trigger] ps[k]).1, u)) by {
                assert(before[u] == (is_base(u) || has_char(name@, u) || exists|k: int|
                    0 <= k < i && has_char((#[trigger] ps[k]).1, u)));
                assert(ps[i as int].1 == pairs@[i as int].1@);
                if has_char(pairs@[i as int].1@, u) {
                    assert(has_char(ps[i as int].1, u));
                }
            }
        }
    }
    let r: Vec<u32> = ranges_of_marks(&marks);
    proof {
        let n = (r@.len() as int - 1) / 2;
        assert forall|u: int| 0 <= u <= 0x10FFFF implies (covered(r@, n, u) <==> #[trigger] is_needed(
            ps,
            name@,
            u,
        )) by {
            assert(marks@[u] == (is_base(u) || has_char(name@, u) || exists|k: int|
                0 <= k < ps.len() && has_char((#[trigger] ps[k]).1, u)));
            if u < 0x20 {
                if covered(r@, n, u) {
                    let k = choose|k: int|
                        0 <= k < n && #[trigger] range_start(r@, k) <= u <= range_end(r@, k);
                }
            }
        }
    }
    r
}

// ---------------------------------------------------------------------------
// Languages
// ---------------------------------------------------------------------------

impl Language {
    /// The language that a file with this code and text makes.
    pub open spec fn is_built(self, code: Seq<char>, text: Seq<char>) -> bool {
        let es: Seq<(Seq<char>, Seq<char>)> = locale_entries(lines(text));
        &&& self.code@ == code
        &&& self.name@ == match last_value(es, "_name"@) {
            Some(n) => n,
            None => code,
        }
        &&& texts(self.steam@) == steam_of(last_value(es, "_steam"@))
        &&& pair_texts(self.pairs@) == translations(es)
        &&& ranges_valid(self.ranges@)
        &&& forall|u: int|
            0 <= u <= 0x10FFFF ==> (covered(
                self.ranges@,
                (self.ranges@.len() as int - 1) / 2,
                u,
            ) <==> #[trigger] is_needed(pair_texts(self.pairs@), self.name@, u))
    }

    /// Whether the language is the one that the game speaks: by what Steam calls it, or
    /// by a game language that begins with its code.
    pub open spec fn fits(self, game: Seq<char>) -> bool {
        texts(self.steam@).contains(game) || (game.len() > 0 && self.code@.len() <= game.len()
            && game.take(self.code@.len() as int) == self.code@)
    }

    pub fn fits_game(&self, game: &str) -> (r: bool)
        ensures
            r == self.fits(game@),
    {
        let g: Vec<char> = chars_of(game);
        for i in 0..self.steam.len()
            invariant
                g@ == game@,
                forall|j: int| 0 <= j < i ==> (#[trigger] self.steam@[j])@ != game@,
        {
            if same(&g, &self.steam[i]) {
                assert(texts(self.steam@)[i as int] == game@);
                return true;
            }
        }
        proof {
            if texts(self.steam@).contains(game@) {
                let j = choose|j: int|
                    0 <= j < texts(self.steam@).len() && texts(self.steam@)[j] == game@;
                assert(self.steam@[j]@ == game@);
            }
        }
        let code: Vec<char> = chars_of(&self.code);
        if g.len() > 0 && code.len() <= g.len() {
            let head: Vec<char> = cut(&g, 0, code.len());
            assert(head@ == game@.take(self.code@.len() as int));
            same(&head, &self.code)
        } else {
            false
        }
    }
}

/// Makes a language of a file.
pub fn build(code: &str, text: &str) -> (r: Language)
    ensures
        r.is_built(code@, text@),
{
    let p: Parsed = parse(text);
    let name: String = match p.name {
        Some(n) => n,
        None => code.to_string(),
    };
    let ranges: Vec<u32> = ranges_of(&p.pairs, &name);
    Language { code: code.to_string(), name, steam: p.steam, pairs: p.pairs, ranges }
}

/// Where the last `c` stands, or -1.
pub open spec fn last_at(s: Seq<char>, c: char) -> int
    decreases s.len(),
{
    if s.len() == 0 {
        -1
    } else if s.last() == c {
        s.len() - 1
    } else {
        last_at(s.drop_last(), c)
    }
}

/// The code of the language whose file has this name: what stands before the last dot,
/// if `ini` in any case stands after it and something before it.
pub open spec fn file_code(name: Seq<char>) -> Option<Seq<char>> {
    let k: int = last_at(name, '.');
    if k > 0 && ascii_lower(name.skip(k + 1)) == "ini"@ {
        Some(name.take(k))
    } else {
        None
    }
}

/// The codes and texts of the files of languages.
pub open spec fn language_files(fs: Seq<LocaleFile>) -> Seq<(Seq<char>, Seq<char>)>
    decreases fs.len(),
{
    if fs.len() == 0 {
        Seq::empty()
    } else {
        match file_code(fs.last().file_name@) {
            Some(c) => language_files(fs.drop_last()).push((c, fs.last().text@)),
            None => language_files(fs.drop_last()),
        }
    }
}

/// What orders the languages: their codes.
pub open spec fn code_keys(fs: Seq<(Seq<char>, Seq<char>)>) -> Seq<Seq<i64>> {
    fs.map_values(|f: (Seq<char>, Seq<char>)| codes(f.0))
}

/// `v` are the languages of the files, in the order of their codes.
pub open spec fn languages_of(fs: Seq<LocaleFile>, v: Seq<Language>) -> bool {
    exists|p: Seq<usize>| #[trigger]
        is_sorted_order(code_keys(language_files(fs)), p) && v.len() == p.len() && forall|i: int|
            0 <= i < v.len() ==> (#[trigger] v[i]).is_built(
                language_files(fs)[p[i] as int].0,
                language_files(fs)[p[i] as int].1,
            )
}

fn code_of_file(name: &str) -> (r: Option<String>)
    ensures
        match r {
            Some(c) => file_code(name@) == Some(c@),
            None => file_code(name@) is None,
        },
{
    let v: Vec<char> = chars_of(name);
    let mut n: usize = v.len();
    assert(v@.take(n as int) == v@);
    while n > 0 && v[n - 1] != '.'
        invariant
            n <= v.len(),
            last_at(v@, '.') == last_at(v@.take(n as int), '.'),
        decreases n,
    {
        assert(v@.take(n as int).drop_last() == v@.take(n - 1));
        n = n - 1;
    }
    if n <= 1 {
        return None;
    }
    let ext: Vec<char> = cut(&v, n, v.len());
    let stem: Vec<char> = cut(&v, 0, n - 1);
    assert(last_at(v@, '.') == n - 1);
    assert(ext@ == v@.skip(n as int));
    assert(stem@ == v@.take(n - 1));
    if same(&lowered_text(&ext), "ini") {
        Some(string_of(&stem))
    } else {
        None
    }
}

fn codes_of(s: &str) -> (r: Vec<i64>)
    ensures
        r@ == codes(s@),
{
    let w: Vec<char> = chars_of(s);
    let mut r: Vec<i64> = Vec::new();
    for i in 0..w.len()
        invariant
            w@ == s@,
            r@ == codes(s@.take(i as int)),
    {
        r.push(w[i] as u32 as i64);
        assert(r@ == codes(s@.take(i + 1)));
    }
    assert(s@.take(s@.len() as int) == s@);
    r
}

/// The languages of the files, in the order of their codes: the order of a folder
/// depends on the file system, and the list in the settings must not jump.
pub fn read_dir(files: &Vec<LocaleFile>) -> (r: Vec<Language>)
    ensures
        languages_of(files@, r@),
{
    let mut found: Vec<(String, usize)> = Vec::new();
    let mut keys: Vec<Vec<i64>> = Vec::new();
    assert(language_files(files@.take(0)) == Seq::<(Seq<char>, Seq<char>)>::empty());
    for i in 0..files.len()
        invariant
            found.len() == keys.len(),
            found.len() == language_files(files@.take(i as int)).len(),
            forall|j: int|
                0 <= j < found.len() ==> {
                    &&& (#[trigger] found@[j]).1 < files.len()
                    &&& found@[j].0@ == language_files(files@.take(i as int))[j].0
                    &&& files@[found@[j].1 as int].text@ == language_files(
                        files@.take(i as int),
                    )[j].1
                },
            forall|j: int| 0 <= j < keys.len() ==> (#[trigger] keys@[j])@ == codes(found@[j].0@),
    {
        proof {
            let next = files@.take(i + 1);
            assert(next.drop_last() == files@.take(i as int));
            assert(next.last() == files@[i as int]);
        }
        match code_of_file(&files[i].file_name) {
            Some(code) => {
                keys.push(codes_of(&code));
                found.push((code, i));
            },
            None => {},
        }
    }
    let ghost fs = language_files(files@);
    assert(files@.take(files@.len() as int) == files@);
    assert(keys_of(keys@) == code_keys(fs));
    let p: Vec<usize> = sorted_order(&keys);
    let mut out: Vec<Language> = Vec::new();
    for i in 0..p.len()
        invariant
            fs == language_files(files@),
            found.len() == fs.len(),
            is_sorted_order(code_keys(fs), p@),
            forall|j: int|
                0 <= j < found.len() ==> {
                    &&& (#[trigger] found@[j]).1 < files.len()
                    &&& found@[j].0@ == fs[j].0
                    &&& files@[found@[j].1 as int].text@ == fs[j].1
                },
            out.len() == i,
            forall|j: int|
                0 <= j < i ==> (#[trigger] out@[j]).is_built(
                    fs[p@[j] as int].0,
                    fs[p@[j] as int].1,
                ),
    {
        assert(p@[i as int] < code_keys(fs).len());
        let k: usize = p[i];
        out.push(build(&found[k].0, &files[found[k].1].text));
    }
    out
}

/// Where the `##` that begins a key's explanation first stands, or the length.
pub open spec fn hash_at(s: Seq<char>) -> int
    decreases s.len(),
{
    if s.len() < 2 {
        s.len() as int
    } else if s[0] == '#' && s[1] == '#' {
        0
    } else {
        1 + hash_at(s.skip(1))
    }
}

/// The text without its explanation.
pub open spec fn plain_text(s: Seq<char>) -> Seq<char> {
    s.take(hash_at(s))
}

proof fn lemma_hash_at(s: Seq<char>)
    ensures
        0 <= hash_at(s) <= s.len(),
        forall|i: int|
            0 <= i < hash_at(s) && i + 1 < s.len() ==> !(#[trigger] s[i] == '#' && s[i + 1]
                == '#'),
    decreases s.len(),
{
    if s.len() >= 2 && !(s[0] == '#' && s[1] == '#') {
        lemma_hash_at(s.skip(1));
        assert forall|i: int| 0 <= i < hash_at(s) && i + 1 < s.len() implies !(#[trigger] s[i]
            == '#' && s[i + 1] == '#') by {
            if i > 0 {
                assert(s.skip(1)[i - 1] == s[i]);
                assert(s.skip(1)[i] == s[i + 1]);
            }
        }
    }
}

/// The key without its explanation: what the viewer sees.
pub fn plain(en: &str) -> (r: String)
    ensures
        r@ == plain_text(en@),
{
    let v: Vec<char> = chars_of(en);
    let mut k: usize = 0;
    assert(v@.skip(0) == v@);
    while k < v.len() && v.len() - k > 1 && !(v[k] == '#' && v[k + 1] == '#')
        invariant
            k <= v.len(),
            hash_at(v@) == k + hash_at(v@.skip(k as int)),
        decreases v.len() - k,
    {
        assert(v@.skip(k as int).skip(1) == v@.skip(k + 1));
        k = k + 1;
    }
    let to: usize = if k < v.len() && v.len() - k > 1 {
        k
    } else {
        v.len()
    };
    let r: Vec<char> = cut(&v, 0, to);
    assert(r@ == plain_text(en@));
    string_of(&r)
}

/// The explanation never reaches the screen: what is left of a key holds no `##`.
pub proof fn the_explanation_never_reaches_the_screen(s: Seq<char>, i: int)
    requires
        0 <= i < plain_text(s).len() - 1,
    ensures
        !(plain_text(s)[i] == '#' && plain_text(s)[i + 1] == '#'),
{
    lemma_hash_at(s);
    assert(plain_text(s)[i] == s[i]);
    assert(plain_text(s)[i + 1] == s[i + 1]);
}

/// The language in use.
pub open spec fn current_language(l: Locales) -> Option<Language> {
    match (l.active, l.languages) {
        (Some(i), Some(v)) => if i < v@.len() {
            Some(v@[i as int])
        } else {
            None
        },
        _ => None,
    }
}

/// The translation of an English text, or the text itself without its explanation.
pub open spec fn translated(l: Locales, en: Seq<char>) -> Seq<char> {
    match current_language(l) {
        Some(lang) => match last_value(pair_texts(lang.pairs@), en) {
            Some(s) => s,
            None => plain_text(en),
        },
        None => plain_text(en),
    }
}

/// The first language that fits the game.
pub open spec fn first_fit(v: Seq<Language>, game: Seq<char>) -> Option<usize>
    decreases v.len(),
{
    if v.len() == 0 {
        None
    } else {
        match first_fit(v.drop_last(), game) {
            Some(i) => Some(i),
            None => if v.last().fits(game) {
                Some((v.len() - 1) as usize)
            } else {
                None
            },
        }
    }
}

/// The first language with the code, in any case.
pub open spec fn first_coded(v: Seq<Language>, code: Seq<char>) -> Option<usize>
    decreases v.len(),
{
    if v.len() == 0 {
        None
    } else {
        match first_coded(v.drop_last(), code) {
            Some(i) => Some(i),
            None => if ascii_lower(v.last().code@) == ascii_lower(code) {
                Some((v.len() - 1) as usize)
            } else {
                None
            },
        }
    }
}

/// The languages there are.
pub open spec fn known_languages(l: Locales) -> Seq<Language> {
    match l.languages {
        Some(v) => v@,
        None => Seq::empty(),
    }
}

/// The language that a setting chooses: for `auto` the one that the game speaks,
/// otherwise the one with the code.
pub open spec fn chosen(v: Seq<Language>, setting: Seq<char>, game: Seq<char>) -> Option<usize> {
    let code: Seq<char> = trim(setting);
    if ascii_lower(code) == "auto"@ {
        first_fit(v, ascii_lower(game))
    } else {
        first_coded(v, code)
    }
}

impl Locales {
    /// Nothing has been read yet.
    pub fn new() -> (r: Locales)
        ensures
            r.languages is None,
            r.active is None,
    {
        Locales { languages: None, active: None }
    }
}

/// The folder has been read, now or before.
pub open spec fn is_loaded(before: Locales, after: Locales, files: Seq<LocaleFile>) -> bool {
    &&& after.active == before.active
    &&& before.languages is Some ==> after.languages == before.languages
    &&& before.languages is None ==> after.languages is Some && languages_of(
        files,
        after.languages.unwrap()@,
    )
}

/// The languages to choose from.
pub open spec fn choices(l: Locales) -> Seq<(Seq<char>, Seq<char>)> {
    known_languages(l).map_values(|l: Language| (l.code@, l.name@))
}

/// The code of the language in use.
pub open spec fn active_code(l: Locales) -> Seq<char> {
    match current_language(l) {
        Some(l) => l.code@,
        None => "en"@,
    }
}

/// The ranges of letters for the language in use.
pub open spec fn ranges_for(l: Locales) -> Seq<u32> {
    match current_language(l) {
        Some(l) => l.ranges@,
        None => seq![0x20u32, 0xFFu32, 0x0400u32, 0x052Fu32, 0u32],
    }
}

/// Takes the languages of the `locale` folder. Only the first call counts.
pub fn load(locales: &mut Locales, files: &Vec<LocaleFile>)
    ensures
        is_loaded(*old(locales), *final(locales), files@),
{
    if locales.languages.is_none() {
        locales.languages = Some(read_dir(files));
    }
}

/// The languages to choose from, by their codes and names. Empty if there is no folder:
/// then the interface is English.
pub fn languages(locales: &Locales) -> (r: Vec<(String, String)>)
    ensures
        pair_texts(r@) == choices(*locales),
{
    let mut r: Vec<(String, String)> = Vec::new();
    match &locales.languages {
        Some(v) => {
            for i in 0..v.len()
                invariant
                    r.len() == i,
                    forall|j: int|
                        0 <= j < i ==> (#[trigger] r@[j]).0@ == v@[j].code@ && r@[j].1@
                            == v@[j].name@,
            {
                r.push((v[i].code.clone(), v[i].name.clone()));
            }
        },
        None => {},
    }
    assert(pair_texts(r@) == choices(*locales));
    r
}

/// Chooses the language by a setting. `game` is the language that the game speaks, or
/// empty where nobody knows.
pub fn apply(locales: &mut Locales, setting: &str, game: &str)
    ensures
        final(locales).languages == old(locales).languages,
        final(locales).active == chosen(known_languages(*old(locales)), setting@, game@),
{
    let code: Vec<char> = trimmed(&chars_of(setting));
    let small: Vec<char> = lowered_text(&code);
    let auto: bool = same(&small, "auto");
    let spoken: String = string_of(&lowered_text(&chars_of(game)));
    let wanted: String = string_of(&small);
    let mut found: Option<usize> = None;
    match &locales.languages {
        Some(v) => {
            for i in 0..v.len()
                invariant
                    auto == (ascii_lower(trim(setting@)) == "auto"@),
                    wanted@ == ascii_lower(trim(setting@)),
                    spoken@ == ascii_lower(game@),
                    found == if auto {
                        first_fit(v@.take(i as int), ascii_lower(game@))
                    } else {
                        first_coded(v@.take(i as int), trim(setting@))
                    },
            {
                proof {
                    assert(v@.take(i + 1).drop_last() == v@.take(i as int));
                    assert(v@.take(i + 1).last() == v@[i as int]);
                }
                let hit: bool = if auto {
                    v[i].fits_game(&spoken)
                } else {
                    same(&lowered_text(&chars_of(&v[i].code)), &wanted)
                };
                if found.is_none() && hit {
                    found = Some(i);
                }
            }
            assert(v@.take(v@.len() as int) == v@);
        },
        None => {},
    }
    locales.active = found;
}

/// The code of the language in use; `en` where the text of the code is shown.
pub fn active(locales: &Locales) -> (r: String)
    ensures
        r@ == active_code(*locales),
{
    match (&locales.languages, locales.active) {
        (Some(v), Some(i)) => {
            if i < v.len() {
                return v[i].code.clone();
            }
        },
        _ => {},
    }
    "en".to_string()
}

/// The translation of an English text. What follows `##` in it only tells apart texts
/// that are the same in English; it is never shown.
pub fn t(locales: &Locales, en: &str) -> (r: String)
    ensures
        r@ == translated(*locales, en@),
{
    match (&locales.languages, locales.active) {
        (Some(v), Some(i)) => {
            if i < v.len() {
                let key: Vec<char> = chars_of(en);
                let ps: &Vec<(String, String)> = &v[i].pairs;
                let ghost all = pair_texts(ps@);
                let mut n: usize = ps.len();
                assert(all.take(n as int) == all);
                while n > 0
                    invariant
                        n <= ps.len(),
                        key@ == en@,
                        all == pair_texts(ps@),
                        last_value(all, en@) == last_value(all.take(n as int), en@),
                        i < v.len(),
                        *ps == v@[i as int].pairs,
                        current_language(*locales) == Some(v@[i as int]),
                    decreases n,
                {
                    assert(all.take(n as int).drop_last() == all.take(n - 1));
                    assert(all.take(n as int).last() == (ps@[n - 1].0@, ps@[n - 1].1@));
                    if same(&key, &ps[n - 1].0) {
                        return ps[n - 1].1.clone();
                    }
                    n = n - 1;
                }
            }
        },
        _ => {},
    }
    plain(en)
}

/// The ranges of letters that the font needs.
pub fn glyph_ranges(locales: &Locales) -> (r: Vec<u32>)
    ensures
        r@ == ranges_for(*locales),
{
    match (&locales.languages, locales.active) {
        (Some(v), Some(i)) => {
            if i < v.len() {
                let ranges: &Vec<u32> = &v[i].ranges;
                let mut r: Vec<u32> = Vec::new();
                for k in 0..ranges.len()
                    invariant
                        r@ == ranges@.take(k as int),
                {
                    r.push(ranges[k]);
                    assert(ranges@.take(k + 1) == ranges@.take(k as int).push(ranges@[k as int]));
                }
                assert(ranges@.take(ranges@.len() as int) == ranges@);
                return r;
            }
        },
        _ => {},
    }
    let r: Vec<u32> = vec![0x20u32, 0xFFu32, 0x0400u32, 0x052Fu32, 0u32];
    assert(r@ == seq![0x20u32, 0xFFu32, 0x0400u32, 0x052Fu32, 0u32]);
    r
}

// ---------------------------------------------------------------------------
// Updates
// ---------------------------------------------------------------------------

/// Whether some pair has the key.
pub open spec fn has_pair(ps: Seq<(Seq<char>, Seq<char>)>, key: Seq<char>) -> bool {
    exists|i: int| 0 <= i < ps.len() && (#[trigger] ps[i]).0 == key
}

/// The translations of the built-in file that the one on the disk lacks.
pub open spec fn lacking(
    have: Seq<(Seq<char>, Seq<char>)>,
    ours: Seq<(Seq<char>, Seq<char>)>,
) -> Seq<(Seq<char>, Seq<char>)>
    decreases ours.len(),
{
    if ours.len() == 0 {
        Seq::empty()
    } else if has_pair(have, ours.last().0) {
        lacking(have, ours.drop_last())
    } else {
        lacking(have, ours.drop_last()).push(ours.last())
    }
}

/// Lines for some translations.
pub open spec fn locale_lines(ps: Seq<(Seq<char>, Seq<char>)>) -> Seq<char>
    decreases ps.len(),
{
    if ps.len() == 0 {
        Seq::empty()
    } else {
        locale_lines(ps.drop_last()) + ps.last().0 + " = "@ + ps.last().1 + seq!['\n']
    }
}

/// The translations in the text of a file.
pub open spec fn file_pairs(text: Seq<char>) -> Seq<(Seq<char>, Seq<char>)> {
    translations(locale_entries(lines(text)))
}

/// What a file on the disk becomes after an update: the translations that it lacks are
/// added at its end. `None` if it lacks nothing.
pub open spec fn updated(disk: Seq<char>, built_in: Seq<char>) -> Option<Seq<char>> {
    let missing: Seq<(Seq<char>, Seq<char>)> = lacking(file_pairs(disk), file_pairs(built_in));
    if missing.len() == 0 {
        None
    } else {
        Some(disk + "\n; --- added by a mod update ---\n"@ + locale_lines(missing))
    }
}

fn has_key(ps: &Vec<(String, String)>, key: &str) -> (r: bool)
    ensures
        r == has_pair(pair_texts(ps@), key@),
{
    let k: Vec<char> = chars_of(key);
    for i in 0..ps.len()
        invariant
            k@ == key@,
            forall|j: int| 0 <= j < i ==> (#[trigger] pair_texts(ps@)[j]).0 != key@,
    {
        assert(pair_texts(ps@)[i as int] == (ps@[i as int].0@, ps@[i as int].1@));
        if same(&k, &ps[i].0) {
            return true;
        }
    }
    false
}

/// Adds to a file on the disk what it lacks of the built-in one: otherwise new texts
/// would stay English after an update, and what the user changed must not be lost.
/// Returns the new text of the file, or `None` if it lacks nothing.
pub fn sync_built_in(disk: &str, built_in: &str) -> (r: Option<String>)
    ensures
        match r {
            Some(s) => updated(disk@, built_in@) == Some(s@),
            None => updated(disk@, built_in@) is None,
        },
{
    let have: Parsed = parse(disk);
    let ours: Parsed = parse(built_in);
    let ghost hs = pair_texts(have.pairs@);
    let ghost os = pair_texts(ours.pairs@);
    let mut any: bool = false;
    let mut add: Vec<char> = Vec::new();
    for i in 0..ours.pairs.len()
        invariant
            hs == pair_texts(have.pairs@),
            os == pair_texts(ours.pairs@),
            any == (lacking(hs, os.take(i as int)).len() > 0),
            add@ == locale_lines(lacking(hs, os.take(i as int))),
    {
        let ghost before = lacking(hs, os.take(i as int));
        proof {
            assert(os.take(i + 1).drop_last() == os.take(i as int));
            assert(os.take(i + 1).last() == (ours.pairs@[i as int].0@, ours.pairs@[i as int].1@));
        }
        if !has_key(&have.pairs, &ours.pairs[i].0) {
            any = true;
            append_text(&mut add, &ours.pairs[i].0);
            append_text(&mut add, " = ");
            append_text(&mut add, &ours.pairs[i].1);
            add.push('\n');
            proof {
                let next = lacking(hs, os.take(i + 1));
                assert(next.drop_last() == before);
                assert(add@ == locale_lines(next));
            }
        }
    }
    assert(os.take(os.len() as int) == os);
    if any {
        let mut out: Vec<char> = chars_of(disk);
        append_text(&mut out, "\n; --- added by a mod update ---\n");
        append(&mut out, &add);
        Some(string_of(&out))
    } else {
        None
    }
}

} // verus!
