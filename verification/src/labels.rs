//! Short texts of the panel: times, numbers, names.

use vstd::prelude::*;
use crate::boss_list::{padded, two_digits};
use crate::i18n::t;
use crate::scalar::Scalar;
use crate::text::{
    append, append_text, chars_of, cut, decimal, decimal_of, first_at, find_from, is_digit,
    is_white, join, joined, lemma_decimal, line_body, lines, lines_of, runs, string_of, texts,
    trim_end, trim_start, trimmed_end, white,
};

verus! {

// ---------------------------------------------------------------------------
// Numbers and times
// ---------------------------------------------------------------------------

/// Hours, minutes and seconds of a time in milliseconds. Hours are not turned into days.
pub open spec fn hms(ms: nat) -> Seq<char> {
    let total: nat = ms / 1000;
    decimal(total / 3600) + ":"@ + two_digits(total / 60 % 60) + ":"@ + two_digits(total % 60)
}

pub fn fmt_hms(ms: u32) -> (r: String)
    ensures
        r@ == hms(ms as nat),
{
    let total: u32 = ms / 1000;
    let mut v: Vec<char> = decimal_of((total / 3600) as u64);
    append_text(&mut v, ":");
    append(&mut v, &padded(((total / 60) % 60) as u64));
    append_text(&mut v, ":");
    append(&mut v, &padded((total % 60) as u64));
    string_of(&v)
}

/// Minutes and seconds of a time in whole seconds; less than nothing counts as nothing.
pub open spec fn mmss(secs: int) -> Seq<char> {
    let total: int = if secs < 0 {
        0
    } else if secs > u64::MAX {
        u64::MAX as int
    } else {
        secs
    };
    decimal((total / 60) as nat) + ":"@ + two_digits((total % 60) as nat)
}

pub fn fmt_mmss(secs: i128) -> (r: String)
    ensures
        r@ == mmss(secs as int),
{
    let total: u64 = if secs < 0 {
        0
    } else if secs > u64::MAX as i128 {
        u64::MAX
    } else {
        secs as u64
    };
    let mut v: Vec<char> = decimal_of(total / 60);
    append_text(&mut v, ":");
    append(&mut v, &padded(total % 60));
    string_of(&v)
}

/// The first `k` digits of `s` with a space before every group of three that counts from
/// the end.
pub open spec fn grouped(s: Seq<char>, k: int) -> Seq<char>
    decreases k,
{
    if k <= 0 {
        Seq::empty()
    } else {
        let i: int = k - 1;
        let before: Seq<char> = grouped(s, i);
        if i > 0 && (s.len() - i) % 3 == 0 {
            before.push(' ').push(s[i])
        } else {
            before.push(s[i])
        }
    }
}

/// A number with its digits in groups of three. The space is an ordinary one: any other
/// may be missing in the font.
pub fn group_digits(n: u32) -> (r: String)
    ensures
        r@ == grouped(decimal(n as nat), decimal(n as nat).len() as int),
{
    let s: Vec<char> = decimal_of(n as u64);
    let mut out: Vec<char> = Vec::new();
    for i in 0..s.len()
        invariant
            s@ == decimal(n as nat),
            out@ == grouped(s@, i as int),
    {
        if i > 0 && (s.len() - i) % 3 == 0 {
            out.push(' ');
        }
        out.push(s[i]);
    }
    string_of(&out)
}

/// The text without spaces.
pub open spec fn unspaced(s: Seq<char>) -> Seq<char>
    decreases s.len(),
{
    if s.len() == 0 {
        Seq::empty()
    } else if s.last() == ' ' {
        unspaced(s.drop_last())
    } else {
        unspaced(s.drop_last()).push(s.last())
    }
}

/// Grouping only adds spaces: without them the digits are the number, and nothing but
/// digits and ordinary spaces is shown.
pub proof fn grouping_keeps_the_digits(n: nat)
    ensures
        unspaced(grouped(decimal(n), decimal(n).len() as int)) == decimal(n),
        forall|i: int|
            0 <= i < grouped(decimal(n), decimal(n).len() as int).len() ==> is_digit(
                #[trigger] grouped(decimal(n), decimal(n).len() as int)[i],
            ) || grouped(decimal(n), decimal(n).len() as int)[i] == ' ',
{
    lemma_decimal(n);
    lemma_grouped(decimal(n), decimal(n).len() as int);
    assert(decimal(n).take(decimal(n).len() as int) == decimal(n));
}

proof fn lemma_grouped(s: Seq<char>, k: int)
    requires
        0 <= k <= s.len(),
        forall|i: int| 0 <= i < s.len() ==> is_digit(#[trigger] s[i]),
    ensures
        unspaced(grouped(s, k)) == s.take(k),
        forall|i: int|
            0 <= i < grouped(s, k).len() ==> is_digit(#[trigger] grouped(s, k)[i]) || grouped(
                s,
                k,
            )[i] == ' ',
    decreases k,
{
    if k > 0 {
        lemma_grouped(s, k - 1);
        let b = grouped(s, k - 1);
        assert(is_digit(s[k - 1]));
        assert(b.push(' ').drop_last() == b);
        assert(b.push(s[k - 1]).drop_last() == b);
        assert(b.push(' ').push(s[k - 1]).drop_last() == b.push(' '));
        assert(unspaced(b.push(' ')) == unspaced(b));
        assert(s.take(k) == s.take(k - 1).push(s[k - 1]));
    }
}

// ---------------------------------------------------------------------------
// The boss counter and the difference in height
// ---------------------------------------------------------------------------

/// Cuts `17/206` before its slash, so that the two parts can have different colors.
pub fn split_boss_counter(text: &str) -> (r: (String, String))
    ensures
        r.0@ == text@.take(first_at(text@, '/')),
        r.1@ == text@.skip(first_at(text@, '/')),
{
    let v: Vec<char> = chars_of(text);
    let k: usize = find_from(&v, '/', 0);
    assert(v@.skip(0) == v@);
    let a: Vec<char> = cut(&v, 0, k);
    let b: Vec<char> = cut(&v, k, v.len());
    assert(a@ == text@.take(k as int));
    assert(b@ == text@.skip(k as int));
    (string_of(&a), string_of(&b))
}

/// The encoding of 2: a smaller difference in height is no other floor.
pub const HEIGHT_MATTERS: u32 = 0x4000_0000;

/// A number is less than 2 in either direction.
pub open spec fn is_level(dy: Scalar) -> bool {
    Scalar { bits: (dy.bits as int % 0x8000_0000) as u32 }.below(Scalar { bits: HEIGHT_MATTERS })
}

/// The difference in height behind a distance: nothing where it does not matter, else the
/// direction and the meters. `meters` is the text of the difference without its sign.
pub open spec fn height_text(dy: Scalar, meters: Seq<char>, arrows: bool) -> Seq<char> {
    if is_level(dy) {
        Seq::empty()
    } else {
        let up: bool = Scalar { bits: 0 }.below(dy);
        seq![
            ' ',
            if arrows {
                if up {
                    '\u{2191}'
                } else {
                    '\u{2193}'
                }
            } else if up {
                '+'
            } else {
                '-'
            },
        ] + meters
    }
}

/// The difference in height behind a distance. Without arrows in the font a sign stands
/// for them.
pub fn height_mark(dy: Scalar, meters: &str, arrows: bool) -> (r: String)
    ensures
        r@ == height_text(dy, meters@, arrows),
{
    let size: Scalar = Scalar { bits: dy.bits % 0x8000_0000 };
    if size.lt(Scalar { bits: HEIGHT_MATTERS }) {
        return String::new();
    }
    let up: bool = Scalar { bits: 0 }.lt(dy);
    let mut v: Vec<char> = Vec::new();
    v.push(' ');
    v.push(
        if arrows {
            if up {
                '\u{2191}'
            } else {
                '\u{2193}'
            }
        } else if up {
            '+'
        } else {
            '-'
        },
    );
    append_text(&mut v, meters);
    assert(v@ == height_text(dy, meters@, arrows));
    string_of(&v)
}

// ---------------------------------------------------------------------------
// Words
// ---------------------------------------------------------------------------

/// Where the first white space stands, or the length.
pub open spec fn white_at(s: Seq<char>) -> int
    decreases s.len(),
{
    if s.len() == 0 || is_white(s[0]) {
        0
    } else {
        1 + white_at(s.skip(1))
    }
}

/// The words of a text: its longest runs without white space.
pub open spec fn words(s: Seq<char>) -> Seq<Seq<char>>
    decreases s.len(),
{
    let t: Seq<char> = trim_start(s);
    let n: int = white_at(t);
    if 0 < n <= t.len() <= s.len() {
        seq![t.take(n)] + words(t.skip(n))
    } else {
        Seq::empty()
    }
}

proof fn lemma_white_at(s: Seq<char>)
    ensures
        0 <= white_at(s) <= s.len(),
        white_at(s) < s.len() ==> is_white(s[white_at(s)]),
        forall|i: int| 0 <= i < white_at(s) ==> !is_white(#[trigger] s[i]),
    decreases s.len(),
{
    if s.len() > 0 && !is_white(s[0]) {
        lemma_white_at(s.skip(1));
        assert forall|i: int| 0 <= i < white_at(s) implies !is_white(#[trigger] s[i]) by {
            if i > 0 {
                assert(s[i] == s.skip(1)[i - 1]);
            }
        }
    }
}

proof fn lemma_white_at_is(s: Seq<char>, k: int)
    requires
        0 <= k <= s.len(),
        k < s.len() ==> is_white(s[k]),
        forall|i: int| 0 <= i < k ==> !is_white(#[trigger] s[i]),
    ensures
        white_at(s) == k,
{
    lemma_white_at(s);
    let n = white_at(s);
    if n < k {
        assert(!is_white(s[n]));
    }
    if k < n {
        assert(!is_white(s[k]));
    }
}

proof fn lemma_trim_start_len(s: Seq<char>)
    ensures
        trim_start(s).len() <= s.len(),
        trim_start(s).len() > 0 ==> !is_white(trim_start(s)[0]),
    decreases s.len(),
{
    if s.len() > 0 && is_white(s[0]) {
        lemma_trim_start_len(s.skip(1));
    }
}

proof fn lemma_trim_start_concat(a: Seq<char>, b: Seq<char>)
    ensures
        trim_start(a).len() > 0 ==> trim_start(a + b) == trim_start(a) + b,
        trim_start(a).len() == 0 ==> trim_start(a + b) == trim_start(b),
    decreases a.len(),
{
    let s = a + b;
    if a.len() == 0 {
        assert(s == b);
    } else if is_white(a[0]) {
        assert(s[0] == a[0]);
        assert(s.skip(1) == a.skip(1) + b);
        lemma_trim_start_concat(a.skip(1), b);
    } else {
        assert(s[0] == a[0]);
        assert(trim_start(s) == s);
    }
}

/// White space between two texts keeps their words apart.
proof fn lemma_words_apart(a: Seq<char>, w: char, b: Seq<char>)
    requires
        is_white(w),
    ensures
        words(a + seq![w] + b) == words(a) + words(b),
    decreases a.len(),
{
    let tail = seq![w] + b;
    let s = a + seq![w] + b;
    assert(s == a + tail);
    let ta = trim_start(a);
    lemma_trim_start_concat(a, tail);
    lemma_trim_start_len(a);
    assert(trim_start(tail) == trim_start(b)) by {
        assert(tail[0] == w);
        assert(tail.skip(1) == b);
    }
    if ta.len() == 0 {
        assert(white_at(ta) == 0);
        assert(words(a) == Seq::<Seq<char>>::empty());
        let tb = trim_start(b);
        lemma_trim_start_len(b);
        assert(words(s) == words(b));
        assert(words(a) + words(b) == words(b));
    } else {
        let ts = ta + tail;
        assert(trim_start(s) == ts);
        lemma_white_at(ta);
        let n = white_at(ta);
        assert(n > 0) by {
            if n == 0 {
                assert(is_white(ta[0]));
            }
        }
        assert forall|i: int| 0 <= i < n implies !is_white(#[trigger] ts[i]) by {
            assert(ts[i] == ta[i]);
        }
        assert(n < ts.len() && is_white(ts[n])) by {
            if n < ta.len() {
                assert(ts[n] == ta[n]);
            } else {
                assert(ts[n] == w);
            }
        }
        lemma_white_at_is(ts, n);
        assert(ts.take(n) == ta.take(n));
        let ra = ta.skip(n);
        assert(ts.skip(n) == ra + seq![w] + b);
        lemma_words_apart(ra, w, b);
        assert(words(a) == seq![ta.take(n)] + words(ra));
        assert(words(s) == seq![ta.take(n)] + words(ts.skip(n)));
        assert(seq![ta.take(n)] + (words(ra) + words(b)) == words(a) + words(b));
    }
}

/// A text without white space is one word.
proof fn lemma_one_word(s: Seq<char>)
    requires
        s.len() > 0,
        forall|i: int| 0 <= i < s.len() ==> !is_white(#[trigger] s[i]),
    ensures
        words(s) == seq![s],
{
    assert(!is_white(s[0]));
    lemma_white_at_is(s, s.len() as int);
    assert(s.take(s.len() as int) == s);
    assert(s.skip(s.len() as int) == Seq::<char>::empty());
    lemma_no_words();
}

proof fn lemma_no_words()
    ensures
        words(Seq::<char>::empty()) == Seq::<Seq<char>>::empty(),
{
    let e = Seq::<char>::empty();
    assert(trim_start(e) == e);
    assert(white_at(e) == 0);
}

/// Words have no white space in them, and are not empty.
proof fn lemma_words_are_words(s: Seq<char>, k: int)
    requires
        0 <= k < words(s).len(),
    ensures
        words(s)[k].len() > 0,
        forall|i: int| 0 <= i < words(s)[k].len() ==> !is_white(#[trigger] words(s)[k][i]),
    decreases s.len(),
{
    let t = trim_start(s);
    let n = white_at(t);
    lemma_white_at(t);
    if k == 0 {
        assert(words(s)[0] == t.take(n));
        assert forall|i: int| 0 <= i < words(s)[k].len() implies !is_white(
            #[trigger] words(s)[k][i],
        ) by {
            assert(words(s)[0][i] == t[i]);
        }
    } else {
        assert(words(s)[k] == words(t.skip(n))[k - 1]);
        lemma_words_are_words(t.skip(n), k - 1);
    }
}

/// The words of a text.
fn split_words(v: &Vec<char>) -> (r: Vec<Vec<char>>)
    ensures
        runs(r@) == words(v@),
{
    let mut r: Vec<Vec<char>> = Vec::new();
    let mut at: usize = 0;
    assert(v@.skip(0) == v@);
    assert(runs(r@) + words(v@) == words(v@));
    loop
        invariant
            at <= v.len(),
            runs(r@) + words(v@.skip(at as int)) == words(v@),
        decreases v.len() - at,
    {
        let ghost rest = v@.skip(at as int);
        let mut from: usize = at;
        assert(rest == v@.skip(from as int));
        while from < v.len() && white(v[from])
            invariant
                at <= from <= v.len(),
                trim_start(rest) == trim_start(v@.skip(from as int)),
            decreases v.len() - from,
        {
            assert(v@.skip(from as int)[0] == v@[from as int]);
            assert(v@.skip(from as int).skip(1) == v@.skip(from + 1));
            from = from + 1;
        }
        let ghost t = v@.skip(from as int);
        proof {
            if from < v.len() {
                assert(t[0] == v@[from as int]);
            }
            assert(trim_start(t) == t);
        }
        let mut to: usize = from;
        while to < v.len() && !white(v[to])
            invariant
                from <= to <= v.len(),
                t == v@.skip(from as int),
                forall|i: int| 0 <= i < to - from ==> !is_white(#[trigger] t[i]),
            decreases v.len() - to,
        {
            assert(t[to - from] == v@[to as int]);
            to = to + 1;
        }
        proof {
            if to < v.len() {
                assert(t[to - from] == v@[to as int]);
            }
            lemma_white_at_is(t, to - from);
        }
        if to == from {
            proof {
                assert(words(rest) == Seq::<Seq<char>>::empty());
                assert(runs(r@) + words(rest) == runs(r@));
            }
            return r;
        }
        let word: Vec<char> = cut(v, from, to);
        let ghost before = r@;
        r.push(word);
        proof {
            assert(word@ == t.take(to - from));
            assert(v@.skip(to as int) == t.skip(to - from));
            assert(words(rest) == seq![word@] + words(t.skip(to - from)));
            assert(runs(r@) == runs(before).push(word@));
            assert(runs(r@) + words(v@.skip(to as int)) == runs(before) + (seq![word@] + words(
                t.skip(to - from),
            )));
        }
        at = to;
    }
}

/// A line in the making: the lines that are full, and the one that is being filled.
pub struct Wrapped {
    pub done: Seq<Seq<char>>,
    pub current: Seq<char>,
}

/// One more word: on the current line if there is room, else on the next. A word that is
/// longer than a line is not cut.
pub open spec fn with_word(w: Wrapped, word: Seq<char>, max: int) -> Wrapped {
    if w.current.len() == 0 {
        Wrapped { done: w.done, current: word }
    } else if w.current.len() + 1 + word.len() <= max {
        Wrapped { done: w.done, current: w.current.push(' ') + word }
    } else {
        Wrapped { done: w.done.push(w.current), current: word }
    }
}

pub open spec fn with_words(ws: Seq<Seq<char>>, max: int) -> Wrapped
    decreases ws.len(),
{
    if ws.len() == 0 {
        Wrapped { done: Seq::empty(), current: Seq::empty() }
    } else {
        with_word(with_words(ws.drop_last(), max), ws.last(), max)
    }
}

/// The lines that a line becomes.
pub open spec fn wrapped_line(line: Seq<char>, max: int) -> Seq<Seq<char>> {
    let w: Wrapped = with_words(words(line), max);
    w.done.push(w.current)
}

pub open spec fn wrapped_lines(ls: Seq<Seq<char>>, max: int) -> Seq<Seq<char>>
    decreases ls.len(),
{
    if ls.len() == 0 {
        Seq::empty()
    } else {
        wrapped_lines(ls.drop_last(), max) + wrapped_line(ls.last(), max)
    }
}

/// A name on lines of at most `max` characters, as far as its words allow; with 0 it stays
/// as it is.
pub open spec fn wrapped_name(name: Seq<char>, max: int) -> Seq<char> {
    if max == 0 {
        name
    } else {
        join(wrapped_lines(lines(name), max), "\n"@)
    }
}

fn wrap_line(line: &Vec<char>, max: usize, out: &mut Vec<String>)
    ensures
        texts(final(out)@) == texts(old(out)@) + wrapped_line(line@, max as int),
{
    let ws: Vec<Vec<char>> = split_words(line);
    let mut current: Vec<char> = Vec::new();
    let ghost start = texts(out@);
    assert(start + Seq::<Seq<char>>::empty() == start);
    for i in 0..ws.len()
        invariant
            texts(out@) == start + with_words(runs(ws@).take(i as int), max as int).done,
            current@ == with_words(runs(ws@).take(i as int), max as int).current,
    {
        let word: &Vec<char> = &ws[i];
        let ghost before = with_words(runs(ws@).take(i as int), max as int);
        proof {
            let next = runs(ws@).take(i + 1);
            assert(next.drop_last() == runs(ws@).take(i as int));
            assert(next.last() == word@);
        }
        if current.len() == 0 {
            append(&mut current, word);
            assert(current@ == word@);
        } else {
            let room: bool = current.len() < max && word.len() < max - current.len();
            if room {
                current.push(' ');
                append(&mut current, word);
            } else {
                let ghost was = out@;
                out.push(string_of(&current));
                proof {
                    assert(texts(out@) == texts(was).push(current@));
                    assert(texts(out@) == start + before.done.push(current@));
                }
                current = Vec::new();
                append(&mut current, word);
                assert(current@ == word@);
            }
        }
    }
    assert(runs(ws@).take(ws@.len() as int) == runs(ws@));
    let ghost was = out@;
    out.push(string_of(&current));
    proof {
        assert(texts(out@) == texts(was).push(current@));
        let w = with_words(words(line@), max as int);
        assert(texts(out@) == start + w.done.push(w.current));
    }
}

/// Breaks a long name between its words, so that the panel does not grow with it. Line
/// breaks that are there stay.
pub fn wrap_name(name: &str, max: usize) -> (r: String)
    ensures
        r@ == wrapped_name(name@, max as int),
{
    if max == 0 {
        return name.to_string();
    }
    let ls: Vec<Vec<char>> = lines_of(name);
    let mut out: Vec<String> = Vec::new();
    assert(texts(out@) == wrapped_lines(runs(ls@).take(0), max as int));
    for i in 0..ls.len()
        invariant
            texts(out@) == wrapped_lines(runs(ls@).take(i as int), max as int),
    {
        proof {
            let next = runs(ls@).take(i + 1);
            assert(next.drop_last() == runs(ls@).take(i as int));
            assert(next.last() == ls@[i as int]@);
        }
        wrap_line(&ls[i], max, &mut out);
    }
    assert(runs(ls@).take(ls@.len() as int) == runs(ls@));
    string_of(&joined(&out, "\n"))
}

/// All words of some lines.
pub open spec fn words_of_all(ls: Seq<Seq<char>>) -> Seq<Seq<char>>
    decreases ls.len(),
{
    if ls.len() == 0 {
        Seq::empty()
    } else {
        words_of_all(ls.drop_last()) + words(ls.last())
    }
}

proof fn lemma_words_of_all_concat(a: Seq<Seq<char>>, b: Seq<Seq<char>>)
    ensures
        words_of_all(a + b) == words_of_all(a) + words_of_all(b),
    decreases b.len(),
{
    if b.len() == 0 {
        assert(a + b == a);
        assert(words_of_all(a) + words_of_all(b) == words_of_all(a));
    } else {
        assert((a + b).drop_last() == a + b.drop_last());
        lemma_words_of_all_concat(a, b.drop_last());
        assert(words_of_all(a) + (words_of_all(b.drop_last()) + words(b.last())) == (words_of_all(a)
            + words_of_all(b.drop_last())) + words(b.last()));
    }
}

/// Wrapping words keeps them, in order, and fills lines only as far as there is room.
proof fn lemma_with_words(ws: Seq<Seq<char>>, max: int)
    requires
        forall|k: int|
            0 <= k < ws.len() ==> (#[trigger] ws[k]).len() > 0 && forall|i: int|
                0 <= i < ws[k].len() ==> !is_white(#[trigger] ws[k][i]),
    ensures
        words_of_all(with_words(ws, max).done) + words(with_words(ws, max).current) == ws,
        ws.len() > 0 ==> with_words(ws, max).current.len() > 0,
        ws.len() == 0 ==> with_words(ws, max).done.len() == 0,
        with_words(ws, max).current.len() > max ==> words(with_words(ws, max).current).len() <= 1,
        forall|k: int|
            0 <= k < with_words(ws, max).done.len() ==> (#[trigger] with_words(
                ws,
                max,
            ).done[k]).len() <= max || words(with_words(ws, max).done[k]).len() <= 1,
    decreases ws.len(),
{
    lemma_no_words();
    if ws.len() == 0 {
        assert(words_of_all(Seq::<Seq<char>>::empty()) + words(Seq::<char>::empty()) == ws);
    } else {
        let front = ws.drop_last();
        let word = ws.last();
        assert(ws[ws.len() - 1] == word);
        assert forall|k: int| 0 <= k < front.len() implies (#[trigger] front[k]).len() > 0
            && forall|i: int| 0 <= i < front[k].len() ==> !is_white(#[trigger] front[k][i]) by {
            assert(front[k] == ws[k]);
        }
        lemma_with_words(front, max);
        let w = with_words(front, max);
        let n = with_words(ws, max);
        lemma_one_word(word);
        if w.current.len() == 0 {
            assert(front.len() == 0);
            assert(n.current == word);
            assert(words_of_all(n.done) + words(n.current) == ws) by {
                assert(n.done.len() == 0);
                assert(words_of_all(n.done) == Seq::<Seq<char>>::empty());
                assert(Seq::<Seq<char>>::empty() + seq![word] == ws);
            }
        } else if w.current.len() + 1 + word.len() <= max {
            lemma_words_apart(w.current, ' ', word);
            assert(n.current == w.current + seq![' '] + word);
            assert(words_of_all(w.done) + (words(w.current) + seq![word]) == (words_of_all(w.done)
                + words(w.current)) + seq![word]);
            assert(front + seq![word] == ws);
        } else {
            assert(n.done.drop_last() == w.done);
            assert(words_of_all(n.done) == words_of_all(w.done) + words(w.current));
            assert(front + seq![word] == ws);
            assert forall|k: int| 0 <= k < n.done.len() implies (#[trigger] n.done[k]).len() <= max
                || words(n.done[k]).len() <= 1 by {
                if k < w.done.len() {
                    assert(n.done[k] == w.done[k]);
                }
            }
        }
    }
}

proof fn lemma_wrapped_lines(ls: Seq<Seq<char>>, max: int)
    ensures
        words_of_all(wrapped_lines(ls, max)) == words_of_all(ls),
        forall|k: int|
            0 <= k < wrapped_lines(ls, max).len() ==> (#[trigger] wrapped_lines(
                ls,
                max,
            )[k]).len() <= max || words(wrapped_lines(ls, max)[k]).len() <= 1,
    decreases ls.len(),
{
    if ls.len() > 0 {
        let line = ls.last();
        lemma_wrapped_lines(ls.drop_last(), max);
        assert forall|k: int| 0 <= k < words(line).len() implies (#[trigger] words(line)[k]).len()
            > 0 && forall|i: int|
            0 <= i < words(line)[k].len() ==> !is_white(#[trigger] words(line)[k][i]) by {
            lemma_words_are_words(line, k);
        }
        lemma_with_words(words(line), max);
        let before = wrapped_lines(ls.drop_last(), max);
        let these = wrapped_line(line, max);
        let w = with_words(words(line), max);
        assert(these.drop_last() == w.done);
        assert(words_of_all(these) == words(line));
        lemma_words_of_all_concat(before, these);
        let out = wrapped_lines(ls, max);
        assert forall|k: int| 0 <= k < out.len() implies (#[trigger] out[k]).len() <= max || words(
            out[k],
        ).len() <= 1 by {
            if k < before.len() {
                assert(out[k] == before[k]);
            } else if k < before.len() + w.done.len() {
                assert(out[k] == w.done[k - before.len()]);
            } else {
                assert(out[k] == w.current);
            }
        }
    }
}

proof fn lemma_words_of_join(ls: Seq<Seq<char>>)
    ensures
        words(join(ls, "\n"@)) == words_of_all(ls),
    decreases ls.len(),
{
    reveal_strlit("\n");
    assert("\n"@ == seq!['\n']);
    lemma_no_words();
    if ls.len() == 0 {
    } else if ls.len() == 1 {
        assert(ls.drop_last() == Seq::<Seq<char>>::empty());
        assert(words_of_all(ls.drop_last()) + words(ls[0]) == words(ls[0]));
    } else {
        lemma_words_of_join(ls.drop_last());
        lemma_words_apart(join(ls.drop_last(), "\n"@), '\n', ls.last());
    }
}

/// The words of a text are the words of its lines.
proof fn lemma_words_of_lines(s: Seq<char>)
    ensures
        words(s) == words_of_all(lines(s)),
    decreases s.len(),
{
    let ls = lines(s);
    let ps = crate::text::pieces(s, '\n');
    crate::text::lemma_first_at(s, '\n');
    let k = first_at(s, '\n');
    lemma_no_words();
    if s.len() == 0 {
        assert(ls == Seq::<Seq<char>>::empty());
        assert(s == Seq::<char>::empty());
    } else if k < s.len() {
        let p = s.take(k + 1);
        let rest = s.skip(k + 1);
        lemma_words_of_lines(rest);
        assert(ps == seq![p] + crate::text::pieces(rest, '\n'));
        assert(ls == seq![line_body(p)] + lines(rest));
        lemma_words_of_all_concat(seq![line_body(p)], lines(rest));
        assert(words_of_all(seq![line_body(p)]) == words(line_body(p))) by {
            assert(seq![line_body(p)].drop_last() == Seq::<Seq<char>>::empty());
            assert(words_of_all(Seq::<Seq<char>>::empty()) + words(line_body(p)) == words(
                line_body(p),
            ));
        }
        let head = s.take(k);
        assert(s == head + seq!['\n'] + rest);
        lemma_words_apart(head, '\n', rest);
        assert(p.drop_last() == head);
        assert(words(line_body(p)) == words(head)) by {
            if head.len() > 0 && head.last() == '\r' {
                let h = head.drop_last();
                assert(head == h + seq!['\r'] + Seq::<char>::empty());
                lemma_words_apart(h, '\r', Seq::empty());
                assert(words(h) + words(Seq::<char>::empty()) == words(h));
            }
        }
    } else {
        assert(ps == seq![s]);
        assert(line_body(s) == s) by {
            assert(s[s.len() - 1] != '\n');
        }
        assert(ls == seq![s]);
        assert(seq![s].drop_last() == Seq::<Seq<char>>::empty());
        assert(words_of_all(Seq::<Seq<char>>::empty()) + words(s) == words(s));
    }
}

/// Wrapping keeps all words in their order, cuts none of them, and makes no line longer
/// than the limit that has more than one word.
pub proof fn wrapping_keeps_the_words(name: Seq<char>, max: int)
    requires
        max > 0,
    ensures
        words(wrapped_name(name, max)) == words(name),
        forall|k: int|
            0 <= k < wrapped_lines(lines(name), max).len() ==> (#[trigger] wrapped_lines(
                lines(name),
                max,
            )[k]).len() <= max || words(wrapped_lines(lines(name), max)[k]).len() <= 1,
{
    lemma_words_of_lines(name);
    lemma_wrapped_lines(lines(name), max);
    lemma_words_of_join(wrapped_lines(lines(name), max));
}

// ---------------------------------------------------------------------------
// Cutting
// ---------------------------------------------------------------------------

/// At most `max` characters, and three dots where some are left out. The dots are three
/// full stops: an ellipsis may be missing in the font.
pub open spec fn clipped_text(s: Seq<char>, max: int) -> Seq<char> {
    if s.len() <= max {
        s
    } else {
        s.take(max) + "..."@
    }
}

/// A name cut to `max` characters; with 0 it stays as it is.
pub open spec fn name_cut(name: Seq<char>, max: int) -> Seq<char> {
    if max == 0 {
        name
    } else {
        clipped_text(name, max)
    }
}

pub fn clip(s: &str, max: usize) -> (r: String)
    ensures
        r@ == clipped_text(s@, max as int),
{
    let v: Vec<char> = chars_of(s);
    if v.len() <= max {
        return s.to_string();
    }
    let mut r: Vec<char> = cut(&v, 0, max);
    assert(r@ == s@.take(max as int));
    append_text(&mut r, "...");
    string_of(&r)
}

/// The same limit for a label on one line, which is cut and not wrapped; 0 leaves it as it
/// is.
pub fn clip_name(name: &str, max: usize) -> (r: String)
    ensures
        r@ == name_cut(name@, max as int),
{
    if max == 0 {
        name.to_string()
    } else {
        clip(name, max)
    }
}

/// How many characters fit: up to the first beginning that is too wide.
pub open spec fn fitting(too_wide: Seq<bool>) -> int
    decreases too_wide.len(),
{
    if too_wide.len() == 0 || too_wide[0] {
        0
    } else {
        1 + fitting(too_wide.skip(1))
    }
}

/// A text cut to a width.
pub open spec fn cut_to_width(text: Seq<char>, fits: bool, too_wide: Seq<bool>) -> Seq<char> {
    if fits {
        text
    } else {
        let n: int = fitting(too_wide);
        trim_end(
            text.take(
                if n == 0 {
                    0
                } else {
                    n - 1
                },
            ),
        ) + "..."@
    }
}

/// A text cut to a width: as it is if it `fits`, else its longest beginning that fits with
/// the dots. `too_wide` says of each beginning, from the empty one on, whether it is too
/// wide.
pub fn clip_w(text: &str, fits: bool, too_wide: &Vec<bool>) -> (r: String)
    requires
        too_wide.len() <= text@.len(),
    ensures
        r@ == cut_to_width(text@, fits, too_wide@),
{
    if fits {
        return text.to_string();
    }
    let v: Vec<char> = chars_of(text);
    let mut n: usize = 0;
    assert(too_wide@.skip(0) == too_wide@);
    while n < too_wide.len() && !too_wide[n]
        invariant
            n <= too_wide.len(),
            fitting(too_wide@) == n + fitting(too_wide@.skip(n as int)),
        decreases too_wide.len() - n,
    {
        assert(too_wide@.skip(n as int)[0] == too_wide@[n as int]);
        assert(too_wide@.skip(n as int).skip(1) == too_wide@.skip(n + 1));
        n = n + 1;
    }
    proof {
        if n < too_wide.len() {
            assert(too_wide@.skip(n as int)[0] == too_wide@[n as int]);
        }
    }
    let end: usize = if n == 0 {
        0
    } else {
        n - 1
    };
    let head: Vec<char> = cut(&v, 0, end);
    assert(head@ == text@.take(end as int));
    let mut r: Vec<char> = trimmed_end(&head);
    append_text(&mut r, "...");
    string_of(&r)
}

/// The text in upper case by Unicode's rules, as `str::to_uppercase` gives it.
pub uninterp spec fn uppercase(s: Seq<char>) -> Seq<char>;

/// `str::to_uppercase` depends on the text alone.
#[verifier::external_body]
pub(crate) fn to_uppercase(s: &str) -> (r: String)
    ensures
        r@ == uppercase(s@),
{
    s.to_uppercase()
}

/// The names of a boss on one line.
pub open spec fn one_line_name(name: Seq<char>) -> Seq<char> {
    join(lines(name), " \u{b7} "@)
}

/// The names of a boss for the strip, which has one line only.
pub fn joined_name(name: &str) -> (r: String)
    ensures
        r@ == one_line_name(name@),
{
    let ls: Vec<Vec<char>> = lines_of(name);
    let mut v: Vec<String> = Vec::new();
    for i in 0..ls.len()
        invariant
            v.len() == i,
            forall|j: int| 0 <= j < i ==> (#[trigger] v@[j])@ == ls@[j]@,
    {
        v.push(string_of(&ls[i]));
    }
    assert(texts(v@) == runs(ls@));
    string_of(&joined(&v, " \u{b7} "))
}

/// The names of a boss for the strip, in capitals.
pub fn strip_name(name: &str) -> (r: String)
    ensures
        r@ == uppercase(one_line_name(name@)),
{
    to_uppercase(&joined_name(name))
}

// ---------------------------------------------------------------------------
// Handles
// ---------------------------------------------------------------------------

/// The 64-bit FNV-1a hash of some bytes.
pub open spec fn fnv(b: Seq<u8>) -> u64
    decreases b.len(),
{
    if b.len() == 0 {
        0xcbf2_9ce4_8422_2325
    } else {
        (fnv(b.drop_last()) ^ (b.last() as u64)).wrapping_mul(0x100_0000_01b3)
    }
}

/// The key of the owner of a handle: only to tell two handles apart.
pub fn pad_key(id: &str) -> (r: u64)
    ensures
        r == fnv(vstd::utf8::encode_utf8(id@)),
{
    let b: &[u8] = id.as_bytes();
    let mut h: u64 = 0xcbf2_9ce4_8422_2325;
    for i in 0..b.len()
        invariant
            h == fnv(b@.take(i as int)),
    {
        assert(b@.take(i + 1).drop_last() == b@.take(i as int));
        h = (h ^ (b[i] as u64)).wrapping_mul(0x100_0000_01b3);
    }
    assert(b@.take(b@.len() as int) == b@);
    h
}

} // verus!
