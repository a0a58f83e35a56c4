//! Text as sequences of characters: the small vocabulary that the settings
//! file, the translations and the panel labels are all described in.

use vstd::prelude::*;

verus! {

/// `String::push` appends one character to the end of the string.
pub assume_specification[ String::push ](s: &mut String, c: char)
    ensures
        final(s)@ == old(s)@.push(c),
;

/// The characters that Unicode marks `White_Space`.
pub open spec fn is_white(c: char) -> bool {
    let u: u32 = c as u32;
    ||| 0x09 <= u <= 0x0D
    ||| u == 0x20
    ||| u == 0x85
    ||| u == 0xA0
    ||| u == 0x1680
    ||| 0x2000 <= u <= 0x200A
    ||| u == 0x2028
    ||| u == 0x2029
    ||| u == 0x202F
    ||| u == 0x205F
    ||| u == 0x3000
}

/// `s` without its leading white space.
pub open spec fn trim_start(s: Seq<char>) -> Seq<char>
    decreases s.len(),
{
    if s.len() > 0 && is_white(s[0]) {
        trim_start(s.skip(1))
    } else {
        s
    }
}

/// `s` without its trailing white space.
pub open spec fn trim_end(s: Seq<char>) -> Seq<char>
    decreases s.len(),
{
    if s.len() > 0 && is_white(s.last()) {
        trim_end(s.drop_last())
    } else {
        s
    }
}

/// `s` without white space at either end.
pub open spec fn trim(s: Seq<char>) -> Seq<char> {
    trim_end(trim_start(s))
}

/// Where `c` first stands in `s`, or the length of `s` if it does not occur.
pub open spec fn first_at(s: Seq<char>, c: char) -> int
    decreases s.len(),
{
    if s.len() == 0 || s[0] == c {
        0
    } else {
        1 + first_at(s.skip(1), c)
    }
}

/// The text before and after the first `c`, if there is one.
pub open spec fn split_once(s: Seq<char>, c: char) -> Option<(Seq<char>, Seq<char>)> {
    let i: int = first_at(s, c);
    if i < s.len() {
        Some((s.take(i), s.skip(i + 1)))
    } else {
        None
    }
}

/// The text cut after every `c`: each piece but possibly the last ends with `c`,
/// and no piece is empty.
pub open spec fn pieces(s: Seq<char>, c: char) -> Seq<Seq<char>>
    decreases s.len(),
{
    if s.len() == 0 {
        Seq::empty()
    } else if 0 <= first_at(s, c) < s.len() {
        seq![s.take(first_at(s, c) + 1)] + pieces(s.skip(first_at(s, c) + 1), c)
    } else {
        seq![s]
    }
}

/// The fields between the separators `c`: one more than there are separators.
pub open spec fn fields(s: Seq<char>, c: char) -> Seq<Seq<char>>
    decreases s.len(),
{
    if 0 <= first_at(s, c) < s.len() {
        seq![s.take(first_at(s, c))] + fields(s.skip(first_at(s, c) + 1), c)
    } else {
        seq![s]
    }
}

/// `s` without the character `c` at its end, if it stands there.
pub open spec fn strip_end(s: Seq<char>, c: char) -> Seq<char> {
    if s.len() > 0 && s.last() == c {
        s.drop_last()
    } else {
        s
    }
}

/// A piece without its line ending (`\n` or `\r\n`).
pub open spec fn line_body(piece: Seq<char>) -> Seq<char> {
    if piece.len() > 0 && piece.last() == '\n' {
        strip_end(piece.drop_last(), '\r')
    } else {
        piece
    }
}

/// The lines of a text, without their endings.
pub open spec fn lines(s: Seq<char>) -> Seq<Seq<char>> {
    pieces(s, '\n').map_values(|p: Seq<char>| line_body(p))
}

/// Whether the text begins with `c`.
pub open spec fn starts_with(s: Seq<char>, c: char) -> bool {
    s.len() > 0 && s[0] == c
}

/// An ASCII capital letter made small; any other character as it is.
pub open spec fn lower(c: char) -> char {
    if 'A' <= c <= 'Z' {
        (c as u32 + 32) as char
    } else {
        c
    }
}

/// The text with its ASCII capital letters made small.
pub open spec fn ascii_lower(s: Seq<char>) -> Seq<char> {
    s.map_values(|c: char| lower(c))
}

/// The texts of a list of strings.
pub open spec fn texts(v: Seq<String>) -> Seq<Seq<char>> {
    v.map_values(|s: String| s@)
}

/// Pairs of strings as the texts they hold.
pub open spec fn pair_texts(v: Seq<(String, String)>) -> Seq<(Seq<char>, Seq<char>)> {
    v.map_values(|p: (String, String)| (p.0@, p.1@))
}

/// The texts of a list of character vectors.
pub open spec fn runs(v: Seq<Vec<char>>) -> Seq<Seq<char>> {
    v.map_values(|s: Vec<char>| s@)
}

/// The texts one after another with `sep` between neighbours.
pub open spec fn join(v: Seq<Seq<char>>, sep: Seq<char>) -> Seq<char>
    decreases v.len(),
{
    if v.len() == 0 {
        Seq::empty()
    } else if v.len() == 1 {
        v[0]
    } else {
        join(v.drop_last(), sep) + sep + v.last()
    }
}

/// The digit character for `d` in `0..10`.
pub open spec fn digit(d: nat) -> char {
    ('0' as u32 + d) as char
}

/// The decimal digits of `n`, without leading zeros.
pub open spec fn decimal(n: nat) -> Seq<char>
    decreases n,
{
    if n < 10 {
        seq![digit(n)]
    } else {
        decimal(n / 10).push(digit(n % 10))
    }
}

/// Whether `c` is one of `0..9`.
pub open spec fn is_digit(c: char) -> bool {
    '0' <= c <= '9'
}

/// The number that a run of digits stands for.
pub open spec fn digits_value(s: Seq<char>) -> nat
    decreases s.len(),
{
    if s.len() == 0 {
        0
    } else {
        digits_value(s.drop_last()) * 10 + (s.last() as u32 - '0' as u32) as nat
    }
}

/// The text without one leading plus sign.
pub open spec fn unsigned_part(s: Seq<char>) -> Seq<char> {
    if starts_with(s, '+') {
        s.skip(1)
    } else {
        s
    }
}

/// The unsigned integer written in `s`: decimal digits, at least one, after an
/// optional plus sign, and no more than `max`.
pub open spec fn unsigned(s: Seq<char>, max: nat) -> Option<nat> {
    let d: Seq<char> = unsigned_part(s);
    if d.len() > 0 && (forall|i: int| 0 <= i < d.len() ==> is_digit(#[trigger] d[i]))
        && digits_value(d) <= max {
        Some(digits_value(d))
    } else {
        None
    }
}

pub proof fn lemma_first_at(s: Seq<char>, c: char)
    ensures
        0 <= first_at(s, c) <= s.len(),
        first_at(s, c) < s.len() ==> s[first_at(s, c)] == c,
        forall|i: int| 0 <= i < first_at(s, c) ==> s[i] != c,
    decreases s.len(),
{
    if s.len() > 0 && s[0] != c {
        lemma_first_at(s.skip(1), c);
        assert forall|i: int| 0 <= i < first_at(s, c) implies s[i] != c by {
            if i > 0 {
                assert(s[i] == s.skip(1)[i - 1]);
            }
        }
    }
}

/// The first place of `c` is determined by what stands there and before it.
pub proof fn lemma_first_at_is(s: Seq<char>, c: char, i: int)
    requires
        0 <= i <= s.len(),
        forall|j: int| 0 <= j < i ==> s[j] != c,
        i < s.len() ==> s[i] == c,
    ensures
        first_at(s, c) == i,
{
    lemma_first_at(s, c);
    if first_at(s, c) < i {
        assert(s[first_at(s, c)] != c);
    }
}

/// The characters of a string as a vector.
pub fn chars_of(s: &str) -> (r: Vec<char>)
    ensures
        r@ == s@,
{
    let mut r: Vec<char> = Vec::new();
    for c in it: s.chars()
        invariant
            r@ == s@.take(it.index()),
            it.seq() == s@,
    {
        r.push(c);
        assert(s@.take(it.index() + 1) == s@.take(it.index()).push(c));
    }
    assert(s@.take(s@.len() as int) == s@);
    r
}

/// The string made of the given characters.
pub fn string_of(v: &Vec<char>) -> (r: String)
    ensures
        r@ == v@,
{
    let mut r: String = String::new();
    for i in 0..v.len()
        invariant
            r@ == v@.take(i as int),
    {
        r.push(v[i]);
        assert(v@.take(i + 1) == v@.take(i as int).push(v@[i as int]));
    }
    assert(v@.take(v@.len() as int) == v@);
    r
}

/// Whether a run of characters reads as the given string.
pub fn same(a: &Vec<char>, b: &str) -> (r: bool)
    ensures
        r == (a@ == b@),
{
    let mut i: usize = 0;
    for c in it: b.chars()
        invariant
            i == it.index(),
            i <= a.len(),
            it.seq() == b@,
            a@.take(i as int) == b@.take(i as int),
    {
        if i >= a.len() {
            return false;
        }
        if a[i] != c {
            assert(a@[i as int] != b@[i as int]);
            return false;
        }
        assert(a@.take(i + 1) == a@.take(i as int).push(c));
        assert(b@.take(i + 1) == b@.take(i as int).push(c));
        i = i + 1;
    }
    assert(b@.take(b@.len() as int) == b@);
    if i == a.len() {
        assert(a@.take(i as int) == a@);
    }
    i == a.len()
}

/// Part of a run of characters.
pub fn cut(v: &Vec<char>, from: usize, to: usize) -> (r: Vec<char>)
    requires
        from <= to <= v.len(),
    ensures
        r@ == v@.subrange(from as int, to as int),
{
    let mut r: Vec<char> = Vec::new();
    for i in from..to
        invariant
            from <= i <= to <= v.len(),
            r@ == v@.subrange(from as int, i as int),
    {
        r.push(v[i]);
        assert(v@.subrange(from as int, i + 1) == v@.subrange(from as int, i as int).push(
            v@[i as int],
        ));
    }
    r
}

/// Appends a run of characters.
pub fn append(v: &mut Vec<char>, w: &Vec<char>)
    ensures
        final(v)@ == old(v)@ + w@,
{
    for i in 0..w.len()
        invariant
            v@ == old(v)@ + w@.take(i as int),
    {
        v.push(w[i]);
        assert(w@.take(i + 1) == w@.take(i as int).push(w@[i as int]));
        assert(old(v)@ + w@.take(i + 1) == (old(v)@ + w@.take(i as int)).push(w@[i as int]));
    }
    assert(w@.take(w@.len() as int) == w@);
}

/// Appends the characters of a string.
pub fn append_text(v: &mut Vec<char>, s: &str)
    ensures
        final(v)@ == old(v)@ + s@,
{
    let w: Vec<char> = chars_of(s);
    append(v, &w);
}

/// Whether `c` is white space.
pub fn white(c: char) -> (r: bool)
    ensures
        r == is_white(c),
{
    let u: u32 = c as u32;
    (0x09 <= u && u <= 0x0D) || u == 0x20 || u == 0x85 || u == 0xA0 || u == 0x1680 || (0x2000 <= u
        && u <= 0x200A) || u == 0x2028 || u == 0x2029 || u == 0x202F || u == 0x205F || u == 0x3000
}

pub proof fn lemma_trim_start(s: Seq<char>, k: int)
    requires
        0 <= k <= s.len(),
        forall|i: int| 0 <= i < k ==> is_white(#[trigger] s[i]),
        k < s.len() ==> !is_white(s[k]),
    ensures
        trim_start(s) == s.skip(k),
    decreases k,
{
    if k > 0 {
        assert(is_white(s[0]));
        assert forall|i: int| 0 <= i < k - 1 implies is_white(#[trigger] s.skip(1)[i]) by {
            assert(is_white(s[i + 1]));
        }
        lemma_trim_start(s.skip(1), k - 1);
        assert(s.skip(1).skip(k - 1) == s.skip(k));
    } else {
        assert(s.skip(0) == s);
    }
}

pub proof fn lemma_trim_end(s: Seq<char>, k: int)
    requires
        0 <= k <= s.len(),
        forall|i: int| k <= i < s.len() ==> is_white(#[trigger] s[i]),
        k > 0 ==> !is_white(s[k - 1]),
    ensures
        trim_end(s) == s.take(k),
    decreases s.len() - k,
{
    if k < s.len() {
        assert(is_white(s[s.len() - 1]));
        lemma_trim_end(s.drop_last(), k);
        assert(s.drop_last().take(k) == s.take(k));
    } else {
        assert(s.take(k) == s);
    }
}

/// How many leading characters are white space.
fn white_prefix(v: &Vec<char>) -> (k: usize)
    ensures
        k <= v.len(),
        forall|i: int| 0 <= i < k ==> is_white(#[trigger] v@[i]),
        k < v.len() ==> !is_white(v@[k as int]),
{
    let mut k: usize = 0;
    while k < v.len() && white(v[k])
        invariant
            k <= v.len(),
            forall|i: int| 0 <= i < k ==> is_white(#[trigger] v@[i]),
        decreases v.len() - k,
    {
        k = k + 1;
    }
    k
}

/// The text without its leading white space.
pub fn trimmed_start(v: &Vec<char>) -> (r: Vec<char>)
    ensures
        r@ == trim_start(v@),
{
    let k: usize = white_prefix(v);
    proof {
        lemma_trim_start(v@, k as int);
        assert(v@.subrange(k as int, v@.len() as int) == v@.skip(k as int));
    }
    cut(v, k, v.len())
}

/// The text without its trailing white space.
pub fn trimmed_end(v: &Vec<char>) -> (r: Vec<char>)
    ensures
        r@ == trim_end(v@),
{
    let mut k: usize = v.len();
    while k > 0 && white(v[k - 1])
        invariant
            k <= v.len(),
            forall|i: int| k <= i < v.len() ==> is_white(#[trigger] v@[i]),
        decreases k,
    {
        k = k - 1;
    }
    proof {
        lemma_trim_end(v@, k as int);
        assert(v@.subrange(0, k as int) == v@.take(k as int));
    }
    cut(v, 0, k)
}

/// The text without white space at either end.
pub fn trimmed(v: &Vec<char>) -> (r: Vec<char>)
    ensures
        r@ == trim(v@),
{
    trimmed_end(&trimmed_start(v))
}

/// Where `c` first stands at or after `from`, or the length.
pub fn find_from(v: &Vec<char>, c: char, from: usize) -> (r: usize)
    requires
        from <= v.len(),
    ensures
        from <= r <= v.len(),
        r - from == first_at(v@.skip(from as int), c),
{
    let mut i: usize = from;
    while i < v.len() && v[i] != c
        invariant
            from <= i <= v.len(),
            forall|j: int| from <= j < i ==> v@[j] != c,
        decreases v.len() - i,
    {
        i = i + 1;
    }
    proof {
        let s = v@.skip(from as int);
        assert forall|j: int| 0 <= j < i - from implies s[j] != c by {
            assert(s[j] == v@[j + from]);
        }
        lemma_first_at_is(s, c, i - from);
    }
    i
}

/// The text before and after the first `c`, if there is one.
pub fn split_at_first(v: &Vec<char>, c: char) -> (r: Option<(Vec<char>, Vec<char>)>)
    ensures
        match r {
            Some((a, b)) => split_once(v@, c) == Some((a@, b@)),
            None => split_once(v@, c) is None,
        },
{
    let i: usize = find_from(v, c, 0);
    assert(v@.skip(0) == v@);
    if i < v.len() {
        let a: Vec<char> = cut(v, 0, i);
        let b: Vec<char> = cut(v, i + 1, v.len());
        assert(a@ == v@.take(i as int));
        assert(b@ == v@.skip(i + 1));
        Some((a, b))
    } else {
        None
    }
}

/// The text cut after every `c`.
pub fn split_after(v: &Vec<char>, c: char) -> (r: Vec<Vec<char>>)
    ensures
        runs(r@) == pieces(v@, c),
{
    let mut r: Vec<Vec<char>> = Vec::new();
    let mut from: usize = 0;
    assert(v@.skip(0) == v@);
    assert(runs(r@) + pieces(v@, c) == pieces(v@, c));
    while from < v.len()
        invariant
            from <= v.len(),
            runs(r@) + pieces(v@.skip(from as int), c) == pieces(v@, c),
        decreases v.len() - from,
    {
        let i: usize = find_from(v, c, from);
        let ghost rest = v@.skip(from as int);
        let to: usize = if i < v.len() {
            i + 1
        } else {
            i
        };
        let piece: Vec<char> = cut(v, from, to);
        let ghost before = r@;
        r.push(piece);
        proof {
            assert(piece@ == rest.take(to - from));
            assert(v@.skip(to as int) == rest.skip(to - from));
            assert(runs(r@) == runs(before).push(piece@));
            if i < v.len() {
                assert(pieces(rest, c) == seq![piece@] + pieces(rest.skip(to - from), c));
            } else {
                assert(piece@ == rest);
                assert(pieces(rest.skip(to - from), c) == Seq::<Seq<char>>::empty());
                assert(pieces(rest, c) == seq![piece@] + pieces(rest.skip(to - from), c));
            }
            assert(runs(r@) + pieces(v@.skip(to as int), c) == runs(before) + (seq![piece@]
                + pieces(rest.skip(to - from), c)));
        }
        from = to;
    }
    assert(runs(r@) + pieces(v@.skip(from as int), c) == runs(r@));
    r
}

/// The fields between the separators `c`.
pub fn split_fields(v: &Vec<char>, c: char) -> (r: Vec<Vec<char>>)
    ensures
        runs(r@) == fields(v@, c),
{
    let mut r: Vec<Vec<char>> = Vec::new();
    let mut from: usize = 0;
    assert(v@.skip(0) == v@);
    assert(runs(r@) + fields(v@, c) == fields(v@, c));
    loop
        invariant
            from <= v.len(),
            runs(r@) + fields(v@.skip(from as int), c) == fields(v@, c),
        decreases v.len() - from,
    {
        let i: usize = find_from(v, c, from);
        let ghost rest = v@.skip(from as int);
        let piece: Vec<char> = cut(v, from, i);
        let ghost before = r@;
        r.push(piece);
        proof {
            assert(piece@ == rest.take(i - from));
            assert(runs(r@) == runs(before).push(piece@));
            if i < v.len() {
                assert(v@.skip(i + 1) == rest.skip(i - from + 1));
                assert(fields(rest, c) == seq![piece@] + fields(rest.skip(i - from + 1), c));
                assert(runs(r@) + fields(v@.skip(i + 1), c) == runs(before) + fields(rest, c));
            } else {
                assert(piece@ == rest);
                assert(runs(r@) == runs(before) + fields(rest, c));
            }
        }
        if i >= v.len() {
            return r;
        }
        from = i + 1;
    }
}

/// A piece without its line ending.
pub fn without_ending(piece: &Vec<char>) -> (r: Vec<char>)
    ensures
        r@ == line_body(piece@),
{
    let n: usize = piece.len();
    let mut to: usize = n;
    if n > 0 && piece[n - 1] == '\n' {
        to = n - 1;
        if to > 0 && piece[to - 1] == '\r' {
            to = to - 1;
        }
    }
    let r: Vec<char> = cut(piece, 0, to);
    assert(r@ == line_body(piece@));
    r
}

/// The lines of a text, without their endings.
pub fn lines_of(s: &str) -> (r: Vec<Vec<char>>)
    ensures
        runs(r@) == lines(s@),
{
    let all: Vec<Vec<char>> = split_after(&chars_of(s), '\n');
    let mut r: Vec<Vec<char>> = Vec::new();
    for i in 0..all.len()
        invariant
            runs(all@) == pieces(s@, '\n'),
            r.len() == i,
            forall|j: int| 0 <= j < i ==> (#[trigger] r@[j])@ == line_body(all@[j]@),
    {
        r.push(without_ending(&all[i]));
    }
    proof {
        assert forall|j: int| 0 <= j < r.len() implies runs(r@)[j] == lines(s@)[j] by {
            assert(runs(all@)[j] == all@[j]@);
            assert(r@[j]@ == line_body(all@[j]@));
        }
        assert(runs(all@).len() == all.len());
        assert(runs(r@) == lines(s@));
    }
    r
}

/// An ASCII capital letter made small; any other character as it is.
pub fn lowered(c: char) -> (r: char)
    ensures
        r == lower(c),
{
    if 'A' <= c && c <= 'Z' {
        (c as u8 + 32) as char
    } else {
        c
    }
}

/// The text with its ASCII capital letters made small.
pub fn lowered_text(v: &Vec<char>) -> (r: Vec<char>)
    ensures
        r@ == ascii_lower(v@),
{
    let mut r: Vec<char> = Vec::new();
    for i in 0..v.len()
        invariant
            r@ == ascii_lower(v@.take(i as int)),
    {
        r.push(lowered(v[i]));
        assert(r@ == ascii_lower(v@.take(i + 1)));
    }
    assert(v@.take(v@.len() as int) == v@);
    r
}

/// The texts one after another with `sep` between neighbours.
pub fn joined(v: &Vec<String>, sep: &str) -> (r: Vec<char>)
    ensures
        r@ == join(texts(v@), sep@),
{
    let mut r: Vec<char> = Vec::new();
    for i in 0..v.len()
        invariant
            r@ == join(texts(v@).take(i as int), sep@),
    {
        if i > 0 {
            append_text(&mut r, sep);
        }
        append_text(&mut r, &v[i]);
        proof {
            let t = texts(v@).take(i + 1);
            assert(t.drop_last() == texts(v@).take(i as int));
            assert(t.last() == v@[i as int]@);
            if i == 0 {
                assert(r@ == t[0]);
            }
        }
    }
    assert(texts(v@).take(v@.len() as int) == texts(v@));
    r
}

/// The decimal digits of a number.
pub fn decimal_of(n: u64) -> (r: Vec<char>)
    ensures
        r@ == decimal(n as nat),
    decreases n,
{
    let d: char = (48 + (n % 10) as u8) as char;
    let mut r: Vec<char> = if n < 10 {
        Vec::new()
    } else {
        decimal_of(n / 10)
    };
    r.push(d);
    assert(n < 10 ==> r@ == seq![d]);
    r
}

pub proof fn lemma_digits_value_step(s: Seq<char>, i: int)
    requires
        0 <= i < s.len(),
    ensures
        digits_value(s.take(i + 1)) == digits_value(s.take(i)) * 10 + (s[i] as u32
            - '0' as u32) as nat,
{
    assert(s.take(i + 1).drop_last() == s.take(i));
}

pub proof fn lemma_digits_value_grows(s: Seq<char>, i: int)
    requires
        0 <= i <= s.len(),
    ensures
        digits_value(s.take(i)) <= digits_value(s),
    decreases s.len() - i,
{
    if i < s.len() {
        lemma_digits_value_step(s, i);
        lemma_digits_value_grows(s, i + 1);
    } else {
        assert(s.take(i) == s);
    }
}

/// The unsigned integer written in the text, no more than `max`.
pub fn parsed(v: &Vec<char>, max: u64) -> (r: Option<u64>)
    ensures
        match r {
            Some(n) => unsigned(v@, max as nat) == Some(n as nat),
            None => unsigned(v@, max as nat) is None,
        },
{
    let start: usize = if v.len() > 0 && v[0] == '+' {
        1
    } else {
        0
    };
    let d: Vec<char> = cut(v, start, v.len());
    assert(d@ == unsigned_part(v@));
    if d.len() == 0 {
        return None;
    }
    let mut n: u64 = 0;
    for i in 0..d.len()
        invariant
            d@ == unsigned_part(v@),
            forall|j: int| 0 <= j < i ==> is_digit(#[trigger] d@[j]),
            n == digits_value(d@.take(i as int)),
            n <= max,
    {
        let c: char = d[i];
        if !('0' <= c && c <= '9') {
            assert(!is_digit(d@[i as int]));
            return None;
        }
        let x: u64 = (c as u8 - 48) as u64;
        proof {
            lemma_digits_value_step(d@, i as int);
            lemma_digits_value_grows(d@, i + 1);
        }
        let tens: Option<u64> = n.checked_mul(10);
        match tens {
            None => {
                return None;
            },
            Some(t) => match t.checked_add(x) {
                None => {
                    return None;
                },
                Some(next) => {
                    if next > max {
                        return None;
                    }
                    n = next;
                },
            },
        }
    }
    assert(d@.take(d@.len() as int) == d@);
    Some(n)
}

/// The decimal digits of a number are digits, the number is what they stand for,
/// and there is at least one.
pub proof fn lemma_decimal(n: nat)
    ensures
        decimal(n).len() > 0,
        digits_value(decimal(n)) == n,
        forall|i: int| 0 <= i < decimal(n).len() ==> is_digit(#[trigger] decimal(n)[i]),
    decreases n,
{
    if n < 10 {
        assert(decimal(n).drop_last() == Seq::<char>::empty());
        assert(digits_value(Seq::<char>::empty()) == 0);
    } else {
        lemma_decimal(n / 10);
        assert(decimal(n).drop_last() == decimal(n / 10));
        assert forall|i: int| 0 <= i < decimal(n).len() implies is_digit(
            #[trigger] decimal(n)[i],
        ) by {
            if i < decimal(n / 10).len() {
                assert(decimal(n)[i] == decimal(n / 10)[i]);
            }
        }
    }
}

/// A number written in decimal reads back as itself.
pub proof fn decimal_reads_back(n: nat, max: nat)
    requires
        n <= max,
    ensures
        unsigned(decimal(n), max) == Some(n),
{
    lemma_decimal(n);
    assert(is_digit(decimal(n)[0]));
}

/// The same list again.
pub fn copied(v: &Vec<String>) -> (r: Vec<String>)
    ensures
        texts(r@) == texts(v@),
        r.len() == v.len(),
{
    let mut r: Vec<String> = Vec::new();
    for i in 0..v.len()
        invariant
            r.len() == i,
            forall|j: int| 0 <= j < i ==> (#[trigger] r@[j])@ == v@[j]@,
    {
        r.push(v[i].clone());
    }
    assert(texts(r@) == texts(v@));
    r
}

/// Whether a text is among some others.
pub fn has_text(v: &Vec<String>, name: &str) -> (r: bool)
    ensures
        r == texts(v@).contains(name@),
{
    let n: Vec<char> = chars_of(name);
    for i in 0..v.len()
        invariant
            n@ == name@,
            forall|j: int| 0 <= j < i ==> (#[trigger] texts(v@)[j]) != name@,
    {
        assert(texts(v@)[i as int] == v@[i as int]@);
        if same(&n, &v[i]) {
            return true;
        }
    }
    false
}

} // verus!
