//! What saving into the settings file keeps and what it changes.

use vstd::prelude::*;
use crate::ini::{
    added_gap, assigned, assignment, file_assignments, has_added_heading, has_key,
    is_added_heading, missing_lines, piece_body, piece_key, rewritten, rewritten_piece,
    rewritten_pieces, setting_line, some_missing, value_of,
};
use crate::text::{
    first_at, is_white, lemma_first_at, lemma_first_at_is, line_body, lines, pieces, split_once,
    starts_with, strip_end, trim, trim_end, trim_start,
};

verus! {

/// A text on one line.
pub open spec fn one_line(s: Seq<char>) -> bool {
    forall|i: int| 0 <= i < s.len() ==> #[trigger] s[i] != '\n'
}

/// A key that a line of the file can hold: on one line, without `=` or white space
/// round it, and not taken for a comment or a section.
pub open spec fn writable_key(k: Seq<char>) -> bool {
    &&& one_line(k)
    &&& trim(k) == k
    &&& (forall|i: int| 0 <= i < k.len() ==> #[trigger] k[i] != '=')
    &&& !starts_with(k, ';')
    &&& !starts_with(k, '#')
    &&& !starts_with(k, '[')
}

/// A value that a line of the file can hold: on one line, without white space round it.
pub open spec fn writable_value(v: Seq<char>) -> bool {
    one_line(v) && trim(v) == v
}

/// Pairs that can be saved: writable, and no key twice.
pub open spec fn writable(pairs: Seq<(Seq<char>, Seq<char>)>) -> bool {
    &&& forall|i: int|
        0 <= i < pairs.len() ==> writable_key((#[trigger] pairs[i]).0) && writable_value(pairs[i].1)
    &&& forall|i: int, j: int|
        0 <= i < j < pairs.len() ==> (#[trigger] pairs[i]).0 != (#[trigger] pairs[j]).0
}

/// All the values that a list of assignments gives to one key, in order.
pub open spec fn values(a: Seq<(Seq<char>, Seq<char>)>, key: Seq<char>) -> Seq<Seq<char>>
    decreases a.len(),
{
    if a.len() == 0 {
        Seq::empty()
    } else if a.last().0 == key {
        values(a.drop_last(), key).push(a.last().1)
    } else {
        values(a.drop_last(), key)
    }
}

/// How many lines are the heading of the added settings.
pub open spec fn headings(ls: Seq<Seq<char>>) -> nat
    decreases ls.len(),
{
    if ls.len() == 0 {
        0
    } else {
        headings(ls.drop_last()) + if is_added_heading(ls.last()) {
            1nat
        } else {
            0nat
        }
    }
}

/// A piece with its line ending.
pub open spec fn closed_piece(p: Seq<char>) -> bool {
    p.len() > 0 && p.last() == '\n' && one_line(p.drop_last())
}

/// Pieces one after another.
pub open spec fn flat(ps: Seq<Seq<char>>) -> Seq<char>
    decreases ps.len(),
{
    if ps.len() == 0 {
        Seq::empty()
    } else {
        flat(ps.drop_last()) + ps.last()
    }
}

pub proof fn lemma_pieces_closed(p: Seq<char>, rest: Seq<char>)
    requires
        closed_piece(p),
    ensures
        pieces(p + rest, '\n') == seq![p] + pieces(rest, '\n'),
{
    let s = p + rest;
    let n: int = p.len() - 1;
    assert forall|i: int| 0 <= i < n implies s[i] != '\n' by {
        assert(p.drop_last()[i] != '\n');
    }
    lemma_first_at_is(s, '\n', n);
    assert(s.take(n + 1) == p);
    assert(s.skip(n + 1) == rest);
}

pub proof fn lemma_pieces_open(p: Seq<char>)
    requires
        p.len() > 0,
        one_line(p),
    ensures
        pieces(p, '\n') == seq![p],
{
    lemma_first_at_is(p, '\n', p.len() as int);
}

pub proof fn lemma_pieces_flat(ps: Seq<Seq<char>>, rest: Seq<char>)
    requires
        forall|i: int| 0 <= i < ps.len() ==> closed_piece(#[trigger] ps[i]),
    ensures
        pieces(flat(ps) + rest, '\n') == ps + pieces(rest, '\n'),
    decreases ps.len(),
{
    if ps.len() == 0 {
        assert(flat(ps) + rest == rest);
        assert(ps + pieces(rest, '\n') == pieces(rest, '\n'));
    } else {
        let front = ps.drop_last();
        assert(closed_piece(ps[ps.len() - 1]));
        assert forall|i: int| 0 <= i < front.len() implies closed_piece(#[trigger] front[i]) by {
            assert(closed_piece(ps[i]));
        }
        assert(flat(ps) + rest == flat(front) + (ps.last() + rest));
        lemma_pieces_flat(front, ps.last() + rest);
        lemma_pieces_closed(ps.last(), rest);
        assert(front + (seq![ps.last()] + pieces(rest, '\n')) == ps + pieces(rest, '\n'));
    }
}

/// Every piece but the last has its line ending; the last may lack it.
pub proof fn lemma_pieces_shape(s: Seq<char>)
    ensures
        forall|i: int| 0 <= i < pieces(s, '\n').len() - 1 ==> closed_piece(#[trigger] pieces(s, '\n')[i]),
        pieces(s, '\n').len() > 0 ==> closed_piece(pieces(s, '\n').last()) || (one_line(
            pieces(s, '\n').last(),
        ) && pieces(s, '\n').last().len() > 0),
    decreases s.len(),
{
    lemma_first_at(s, '\n');
    let ps = pieces(s, '\n');
    let k: int = first_at(s, '\n');
    if s.len() > 0 {
        if k < s.len() {
            let p = s.take(k + 1);
            let rest = s.skip(k + 1);
            assert(closed_piece(p));
            lemma_pieces_shape(rest);
            let tail = pieces(rest, '\n');
            assert(ps == seq![p] + tail);
            assert forall|i: int| 0 <= i < ps.len() - 1 implies closed_piece(#[trigger] ps[i]) by {
                if i > 0 {
                    assert(ps[i] == tail[i - 1]);
                }
            }
            if tail.len() > 0 {
                assert(ps.last() == tail.last());
            } else {
                assert(ps.last() == p);
            }
        } else {
            assert forall|i: int| 0 <= i < s.len() implies #[trigger] s[i] != '\n' by {}
            assert(ps.last() == s);
        }
    }
}

pub proof fn lemma_trim_push(s: Seq<char>, w: char)
    requires
        is_white(w),
    ensures
        trim(s.push(w)) == trim(s),
    decreases s.len(),
{
    let t = s.push(w);
    if s.len() == 0 {
        assert(t.skip(1) == s);
    } else if is_white(s[0]) {
        assert(t.skip(1) == s.skip(1).push(w));
        lemma_trim_push(s.skip(1), w);
    } else {
        assert(t.drop_last() == s);
    }
}

proof fn lemma_trim_strip(s: Seq<char>, w: char)
    requires
        is_white(w),
    ensures
        trim(strip_end(s, w)) == trim(s),
{
    if s.len() > 0 && s.last() == w {
        assert(s == s.drop_last().push(w));
        lemma_trim_push(s.drop_last(), w);
    }
}

proof fn lemma_trim_body(p: Seq<char>)
    ensures
        trim(line_body(p)) == trim(p),
        trim(piece_body(p)) == trim(p),
        assignment(line_body(p)) == assignment(p),
        is_added_heading(line_body(p)) == is_added_heading(p),
{
    lemma_trim_strip(p, '\n');
    lemma_trim_strip(strip_end(p, '\n'), '\r');
}

/// The end of a text without trailing white space, and where it stands.
pub proof fn lemma_trim_end_is_prefix(s: Seq<char>) -> (k: int)
    ensures
        0 <= k <= s.len(),
        trim_end(s) == s.take(k),
        forall|i: int| k <= i < s.len() ==> is_white(#[trigger] s[i]),
        k > 0 ==> !is_white(s[k - 1]),
    decreases s.len(),
{
    if s.len() > 0 && is_white(s.last()) {
        let k = lemma_trim_end_is_prefix(s.drop_last());
        assert(s.drop_last().take(k) == s.take(k));
        assert forall|i: int| k <= i < s.len() implies is_white(#[trigger] s[i]) by {
            if i < s.len() - 1 {
                assert(s[i] == s.drop_last()[i]);
            }
        }
        k
    } else {
        assert(s.take(s.len() as int) == s);
        s.len() as int
    }
}

pub proof fn lemma_trim_start_is_suffix(s: Seq<char>) -> (k: int)
    ensures
        0 <= k <= s.len(),
        trim_start(s) == s.skip(k),
        trim_start(s).len() > 0 ==> !is_white(trim_start(s)[0]),
    decreases s.len(),
{
    if s.len() > 0 && is_white(s[0]) {
        let k = lemma_trim_start_is_suffix(s.skip(1));
        assert(s.skip(1).skip(k) == s.skip(k + 1));
        k + 1
    } else {
        assert(s.skip(0) == s);
        0
    }
}

/// The key on a line is the key that the line assigns.
proof fn lemma_key_is_assigned(p: Seq<char>)
    ensures
        assignment(p) matches Some((k, v)) ==> piece_key(p) == Some(k),
        piece_key(p) matches Some(k) ==> starts_with(k, '[') || (assignment(p) is Some
            && assignment(p).unwrap().0 == k),
{
    lemma_trim_body(p);
    let b = piece_body(p);
    let t = trim_start(b);
    let k0 = lemma_trim_start_is_suffix(b);
    let m = lemma_trim_end_is_prefix(t);
    let u = trim(p);
    assert(u == t.take(m));
    if t.len() > 0 {
        assert(!is_white(t[0]));
        assert(m > 0);
        assert(u[0] == t[0]);
    }
    lemma_first_at(t, '=');
    lemma_first_at(u, '=');
    let i = first_at(t, '=');
    if i < t.len() {
        assert(!is_white('='));
        assert(m > i) by {
            if m <= i {
                assert(is_white(t[i]));
            }
        }
        assert forall|j: int| 0 <= j < i implies u[j] != '=' by {
            assert(u[j] == t[j]);
        }
        assert(u[i] == '=');
        lemma_first_at_is(u, '=', i);
        assert(u.take(i) == t.take(i));
        let key = trim(t.take(i));
        if starts_with(t, '[') {
            let c = t.take(i);
            assert(i > 0);
            assert(c[0] == '[');
            assert(!is_white('['));
            assert(trim_start(c) == c);
            let z = lemma_trim_end_is_prefix(c);
            assert(z > 0) by {
                if z == 0 {
                    assert(is_white(c[0]));
                }
            }
            assert(key[0] == '[');
        }
    } else {
        if first_at(u, '=') < u.len() {
            assert(t[first_at(u, '=')] == '=');
        }
    }
}

pub proof fn lemma_trimmed_ends(s: Seq<char>)
    requires
        trim(s) == s,
        s.len() > 0,
    ensures
        !is_white(s[0]),
        !is_white(s[s.len() - 1]),
        trim_start(s) == s,
{
    let a = lemma_trim_start_is_suffix(s);
    let b = lemma_trim_end_is_prefix(trim_start(s));
    assert(a == 0 && b == s.len());
}

/// A text that ends in no white space is left alone by trimming its end.
proof fn lemma_trim_end_same(s: Seq<char>)
    requires
        s.len() > 0,
        !is_white(s[s.len() - 1]),
    ensures
        trim_end(s) == s,
{
}

/// The value after the equals sign.
pub proof fn lemma_trim_value(v: Seq<char>)
    requires
        trim(v) == v,
    ensures
        trim(seq![' '] + v) == v,
{
    let s = seq![' '] + v;
    assert(is_white(s[0]));
    assert(s.skip(1) == v);
}

/// A line written for a setting without the white space round it: where its equals
/// sign stands and what surrounds it.
pub proof fn lemma_setting_trimmed(k: Seq<char>, v: Seq<char>)
    requires
        trim(k) == k,
        forall|i: int| 0 <= i < k.len() ==> #[trigger] k[i] != '=',
        trim(v) == v,
    ensures
        split_once(trim(setting_line(k, v)), '=') is Some,
        trim(split_once(trim(setting_line(k, v)), '=').unwrap().0) == k,
        trim(split_once(trim(setting_line(k, v)), '=').unwrap().1) == v,
        trim(setting_line(k, v))[0] == (if k.len() > 0 { k[0] } else { '=' }),
{
    let line = setting_line(k, v);
    // Without the space before an empty key's equals sign and after an empty value's.
    let head: Seq<char> = if k.len() > 0 { k.push(' ') } else { Seq::empty() };
    let tail: Seq<char> = if v.len() > 0 { seq![' '] + v } else { Seq::empty() };
    let u = head.push('=') + tail;
    assert(trim(line) == u) by {
        let t = head.push('=') + (seq![' '] + v);
        assert(trim_start(line) == t) by {
            if k.len() > 0 {
                lemma_trimmed_ends(k);
                assert(line == t);
                assert(line[0] == k[0]);
            } else {
                assert(line.skip(1) == t);
                assert(line[0] == ' ');
                assert(t[0] == '=');
                assert(trim_start(t) == t);
            }
        }
        if v.len() > 0 {
            lemma_trimmed_ends(v);
            assert(t == u);
            assert(t[t.len() - 1] == v[v.len() - 1]);
            lemma_trim_end_same(t);
        } else {
            assert(t.drop_last() == u);
            assert(t.last() == ' ');
            assert(u[u.len() - 1] == '=');
            lemma_trim_end_same(u);
        }
    }
    let e: int = head.len() as int;
    assert(u[e] == '=');
    assert forall|j: int| 0 <= j < e implies u[j] != '=' by {
        if j < k.len() {
            assert(u[j] == k[j]);
        }
    }
    lemma_first_at_is(u, '=', e);
    assert(u.take(e) == head);
    assert(u.skip(e + 1) == tail);
    assert(trim(head) == k) by {
        if k.len() > 0 {
            lemma_trim_push(k, ' ');
        } else {
            assert(head == k);
        }
    }
    assert(trim(tail) == v) by {
        if v.len() > 0 {
            lemma_trim_value(v);
        } else {
            assert(tail == v);
        }
    }
}

pub proof fn lemma_setting_one_line(k: Seq<char>, v: Seq<char>)
    requires
        one_line(k),
        one_line(v),
    ensures
        one_line(setting_line(k, v)),
{
    let line = setting_line(k, v);
    let n: int = k.len() as int;
    assert forall|i: int| 0 <= i < line.len() implies #[trigger] line[i] != '\n' by {
        if i < n {
            assert(line[i] == k[i]);
        } else if i < n + 3 {
            assert(line[i] == seq![' ', '=', ' '][i - n]);
        } else {
            assert(line[i] == v[i - n - 3]);
        }
    }
}

/// A line written for a setting assigns that value to that key.
pub proof fn lemma_setting_line(k: Seq<char>, v: Seq<char>, ending: Seq<char>)
    requires
        writable_key(k),
        writable_value(v),
        ending == Seq::<char>::empty() || ending == seq!['\n'] || ending == seq!['\r'] || ending
            == seq!['\r', '\n'],
    ensures
        assignment(setting_line(k, v) + ending) == Some((k, v)),
        !is_added_heading(setting_line(k, v) + ending),
        ending.len() > 0 && ending.last() == '\n' ==> closed_piece(setting_line(k, v) + ending),
        !(ending.len() > 0 && ending.last() == '\n') ==> one_line(setting_line(k, v) + ending)
            && (setting_line(k, v) + ending).len() > 0,
{
    let line = setting_line(k, v);
    let p = line + ending;
    assert(trim(p) == trim(line)) by {
        if ending.len() == 0 {
            assert(p == line);
        } else if ending.len() == 1 {
            assert(p == line.push(ending[0]));
            lemma_trim_push(line, ending[0]);
        } else {
            assert(p == line.push('\r').push('\n'));
            lemma_trim_push(line.push('\r'), '\n');
            lemma_trim_push(line, '\r');
        }
    }
    lemma_setting_trimmed(k, v);
    lemma_setting_one_line(k, v);
    lemma_first_at(trim(line), '=');
    assert(!is_added_heading(p)) by {
        reveal_strlit("[added]");
        let u = trim(line);
        if u == "[added]"@ {
            assert(u[first_at(u, '=')] == '=');
        }
    }
    if ending.len() == 2 {
        assert(p.drop_last() == line.push('\r'));
    } else if ending.len() == 1 {
        assert(p.drop_last() == line);
    }
}

pub proof fn lemma_value_of(pairs: Seq<(Seq<char>, Seq<char>)>, key: Seq<char>)
    ensures
        value_of(pairs, key) matches Some(v) ==> exists|i: int|
            0 <= i < pairs.len() && #[trigger] pairs[i] == (key, v),
        value_of(pairs, key) is None ==> forall|i: int|
            0 <= i < pairs.len() ==> (#[trigger] pairs[i]).0 != key,
    decreases pairs.len(),
{
    if pairs.len() > 0 && pairs[0].0 != key {
        let rest = pairs.skip(1);
        lemma_value_of(rest, key);
        match value_of(pairs, key) {
            Some(v) => {
                let i = choose|i: int| 0 <= i < rest.len() && #[trigger] rest[i] == (key, v);
                assert(pairs[i + 1] == (key, v));
            },
            None => {
                assert forall|i: int| 0 <= i < pairs.len() implies (#[trigger] pairs[i]).0
                    != key by {
                    if i > 0 {
                        assert(pairs[i] == rest[i - 1]);
                    }
                }
            },
        }
    } else if pairs.len() > 0 {
        assert(pairs[0] == (key, pairs[0].1));
    }
}

/// A piece after saving keeps its line ending and its key, and assigns the saved
/// value if its key was saved.
proof fn lemma_rewritten_piece(p: Seq<char>, pairs: Seq<(Seq<char>, Seq<char>)>)
    requires
        writable(pairs),
        closed_piece(p) || (one_line(p) && p.len() > 0),
    ensures
        closed_piece(p) ==> closed_piece(rewritten_piece(p, pairs)),
        !closed_piece(p) ==> one_line(rewritten_piece(p, pairs)) && rewritten_piece(p, pairs).len()
            > 0,
        is_added_heading(rewritten_piece(p, pairs)) == is_added_heading(p),
        match assignment(p) {
            Some((k, v)) => assignment(rewritten_piece(p, pairs)) == Some(
                (
                    k,
                    match value_of(pairs, k) {
                        Some(w) => w,
                        None => v,
                    },
                ),
            ),
            None => assignment(rewritten_piece(p, pairs)) is None,
        },
{
    lemma_key_is_assigned(p);
    match piece_key(p) {
        Some(k) => {
            lemma_value_of(pairs, k);
            match value_of(pairs, k) {
                Some(v) => {
                    let i = choose|i: int| 0 <= i < pairs.len() && #[trigger] pairs[i] == (k, v);
                    assert(writable_key(pairs[i].0) && writable_value(pairs[i].1));
                    let ending = p.skip(piece_body(p).len() as int);
                    let b1 = strip_end(p, '\n');
                    if closed_piece(p) {
                        assert(b1 == p.drop_last());
                        if b1.len() > 0 && b1.last() == '\r' {
                            assert(ending == seq!['\r', '\n']);
                        } else {
                            assert(ending == seq!['\n']);
                        }
                    } else {
                        assert(p.last() != '\n');
                        if b1.len() > 0 && b1.last() == '\r' {
                            assert(ending == seq!['\r']);
                        } else {
                            assert(ending == Seq::<char>::empty());
                        }
                    }
                    lemma_setting_line(k, v, ending);
                    assert(!is_added_heading(p)) by {
                        lemma_trim_body(p);
                        reveal_strlit("[added]");
                        assert(assignment(p) is Some);
                        let u = trim(p);
                        assert(u[0] == '[' ==> starts_with(u, '['));
                    }
                },
                None => {},
            }
        },
        None => {},
    }
}

pub proof fn lemma_assigned_concat(a: Seq<Seq<char>>, b: Seq<Seq<char>>)
    ensures
        assigned(a + b) == assigned(a) + assigned(b),
    decreases b.len(),
{
    if b.len() == 0 {
        assert(a + b == a);
        assert(assigned(a) + assigned(b) == assigned(a));
    } else {
        assert((a + b).drop_last() == a + b.drop_last());
        assert((a + b).last() == b.last());
        lemma_assigned_concat(a, b.drop_last());
        match assignment(b.last()) {
            Some(x) => {
                assert((assigned(a) + assigned(b.drop_last())).push(x) == assigned(a) + assigned(
                    b.drop_last(),
                ).push(x));
            },
            None => {},
        }
    }
}

proof fn lemma_headings_concat(a: Seq<Seq<char>>, b: Seq<Seq<char>>)
    ensures
        headings(a + b) == headings(a) + headings(b),
    decreases b.len(),
{
    if b.len() == 0 {
        assert(a + b == a);
    } else {
        assert((a + b).drop_last() == a + b.drop_last());
        assert((a + b).last() == b.last());
        lemma_headings_concat(a, b.drop_last());
    }
}

proof fn lemma_values_concat(
    a: Seq<(Seq<char>, Seq<char>)>,
    b: Seq<(Seq<char>, Seq<char>)>,
    key: Seq<char>,
)
    ensures
        values(a + b, key) == values(a, key) + values(b, key),
    decreases b.len(),
{
    if b.len() == 0 {
        assert(a + b == a);
        assert(values(a, key) + values(b, key) == values(a, key));
    } else {
        assert((a + b).drop_last() == a + b.drop_last());
        assert((a + b).last() == b.last());
        lemma_values_concat(a, b.drop_last(), key);
        if b.last().0 == key {
            assert((values(a, key) + values(b.drop_last(), key)).push(b.last().1) == values(a, key)
                + values(b.drop_last(), key).push(b.last().1));
        }
    }
}

/// Lines and pieces assign the same and hold the same headings.
pub proof fn lemma_lines_as_pieces(ps: Seq<Seq<char>>)
    ensures
        assigned(ps.map_values(|p: Seq<char>| line_body(p))) == assigned(ps),
        headings(ps.map_values(|p: Seq<char>| line_body(p))) == headings(ps),
    decreases ps.len(),
{
    let ls = ps.map_values(|p: Seq<char>| line_body(p));
    if ps.len() > 0 {
        assert(ls.drop_last() == ps.drop_last().map_values(|p: Seq<char>| line_body(p)));
        lemma_lines_as_pieces(ps.drop_last());
        lemma_trim_body(ps.last());
    } else {
        assert(ls == ps);
    }
}

/// The pieces after saving, as a list.
pub open spec fn rewritten_list(ps: Seq<Seq<char>>, pairs: Seq<(Seq<char>, Seq<char>)>) -> Seq<Seq<char>> {
    ps.map_values(|p: Seq<char>| rewritten_piece(p, pairs))
}

pub proof fn lemma_rewritten_flat(ps: Seq<Seq<char>>, pairs: Seq<(Seq<char>, Seq<char>)>)
    ensures
        rewritten_pieces(ps, pairs) == flat(rewritten_list(ps, pairs)),
    decreases ps.len(),
{
    let qs = rewritten_list(ps, pairs);
    if ps.len() > 0 {
        assert(qs.drop_last() == rewritten_list(ps.drop_last(), pairs));
        lemma_rewritten_flat(ps.drop_last(), pairs);
    }
}

/// What the pieces after saving assign, and how many headings they hold.
proof fn lemma_rewritten_list(
    ps: Seq<Seq<char>>,
    pairs: Seq<(Seq<char>, Seq<char>)>,
    key: Seq<char>,
)
    requires
        writable(pairs),
        forall|i: int|
            0 <= i < ps.len() ==> closed_piece(#[trigger] ps[i]) || (one_line(ps[i]) && ps[i].len()
                > 0),
    ensures
        headings(rewritten_list(ps, pairs)) == headings(ps),
        match value_of(pairs, key) {
            Some(v) => (forall|i: int|
                0 <= i < values(assigned(rewritten_list(ps, pairs)), key).len() ==> #[trigger] values(
                    assigned(rewritten_list(ps, pairs)),
                    key,
                )[i] == v) && (values(assigned(rewritten_list(ps, pairs)), key).len() > 0
                <==> has_key(ps, key)),
            None => values(assigned(rewritten_list(ps, pairs)), key) == values(assigned(ps), key),
        },
    decreases ps.len(),
{
    let qs = rewritten_list(ps, pairs);
    lemma_value_of(pairs, key);
    if ps.len() > 0 {
        let front = ps.drop_last();
        assert(qs.drop_last() == rewritten_list(front, pairs));
        assert forall|i: int| 0 <= i < front.len() implies closed_piece(#[trigger] front[i]) || (
        one_line(front[i]) && front[i].len() > 0) by {
            assert(front[i] == ps[i]);
        }
        lemma_rewritten_list(front, pairs, key);
        let p = ps.last();
        assert(ps[ps.len() - 1] == p);
        lemma_rewritten_piece(p, pairs);
        lemma_key_is_assigned(p);
        let aq = assigned(qs);
        let af = assigned(qs.drop_last());
        match assignment(p) {
            Some((k, v)) => {
                assert(aq.drop_last() == af);
                assert(assigned(ps).drop_last() == assigned(front));
            },
            None => {},
        }
        if value_of(pairs, key) is Some {
            let i = choose|i: int|
                0 <= i < pairs.len() && #[trigger] pairs[i] == (
                    key,
                    value_of(pairs, key).unwrap(),
                );
            assert(writable_key(pairs[i].0));
            // The last piece has the key exactly if it assigns to it.
            assert(piece_key(p) == Some(key) <==> (assignment(p) is Some && assignment(p).unwrap().0
                == key));
            if has_key(ps, key) {
                let j = choose|j: int| 0 <= j < ps.len() && piece_key(#[trigger] ps[j]) == Some(
                    key,
                );
                if j < front.len() {
                    assert(piece_key(front[j]) == Some(key));
                    assert(has_key(front, key));
                }
            }
            if has_key(front, key) {
                let j = choose|j: int| 0 <= j < front.len() && piece_key(#[trigger] front[j])
                    == Some(key);
                assert(piece_key(ps[j]) == Some(key));
            }
            if piece_key(p) == Some(key) {
                assert(piece_key(ps[ps.len() - 1]) == Some(key));
            }
        }
    } else {
        assert(qs == ps);
    }
}

/// The pieces of the added lines: what they assign.
proof fn lemma_missing_lines(
    ps: Seq<Seq<char>>,
    pairs: Seq<(Seq<char>, Seq<char>)>,
    key: Seq<char>,
) -> (added: Seq<Seq<char>>)
    requires
        writable(pairs),
    ensures
        missing_lines(ps, pairs) == flat(added),
        forall|i: int| 0 <= i < added.len() ==> closed_piece(#[trigger] added[i]),
        headings(added) == 0,
        values(assigned(added), key) == match value_of(pairs, key) {
            Some(v) => if has_key(ps, key) {
                Seq::<Seq<char>>::empty()
            } else {
                seq![v]
            },
            None => Seq::<Seq<char>>::empty(),
        },
    decreases pairs.len(),
{
    if pairs.len() == 0 {
        Seq::empty()
    } else {
        let front = pairs.drop_last();
        let last = pairs.last();
        assert(pairs[pairs.len() - 1] == last);
        assert(writable(front)) by {
            assert forall|i: int| 0 <= i < front.len() implies writable_key((#[trigger] front[i]).0)
                && writable_value(front[i].1) by {
                assert(front[i] == pairs[i]);
            }
            assert forall|i: int, j: int| 0 <= i < j < front.len() implies (#[trigger] front[i]).0
                != (#[trigger] front[j]).0 by {
                assert(front[i] == pairs[i] && front[j] == pairs[j]);
            }
        }
        let before = lemma_missing_lines(ps, front, key);
        lemma_value_of(front, key);
        lemma_value_of(pairs, key);
        // The last pair is the one with the key, or does not matter to it.
        if last.0 == key {
            assert(value_of(front, key) is None) by {
                if value_of(front, key) is Some {
                    let i = choose|i: int|
                        0 <= i < front.len() && #[trigger] front[i] == (
                            key,
                            value_of(front, key).unwrap(),
                        );
                    assert(pairs[i].0 == pairs[pairs.len() - 1].0);
                }
            }
            assert(value_of(pairs, key) == Some(last.1)) by {
                let i = choose|i: int|
                    0 <= i < pairs.len() && #[trigger] pairs[i] == (
                        key,
                        value_of(pairs, key).unwrap(),
                    );
                if i < front.len() {
                    assert(front[i] == pairs[i]);
                }
            }
        } else {
            assert(value_of(pairs, key) == value_of(front, key)) by {
                if value_of(pairs, key) is Some {
                    let i = choose|i: int|
                        0 <= i < pairs.len() && #[trigger] pairs[i] == (
                            key,
                            value_of(pairs, key).unwrap(),
                        );
                    assert(front[i] == pairs[i]);
                    let j = choose|j: int|
                        0 <= j < front.len() && #[trigger] front[j] == (
                            key,
                            value_of(front, key).unwrap(),
                        );
                    assert(pairs[j] == front[j]);
                    assert(i == j) by {
                        if i < j {
                            assert(pairs[i].0 != pairs[j].0);
                        }
                        if j < i {
                            assert(pairs[j].0 != pairs[i].0);
                        }
                    }
                } else if value_of(front, key) is Some {
                    let j = choose|j: int|
                        0 <= j < front.len() && #[trigger] front[j] == (
                            key,
                            value_of(front, key).unwrap(),
                        );
                    assert(pairs[j].0 == key);
                }
            }
        }
        if has_key(ps, last.0) {
            before
        } else {
            lemma_setting_line(last.0, last.1, seq!['\n']);
            let line = setting_line(last.0, last.1) + seq!['\n'];
            assert(line == setting_line(last.0, last.1).push('\n'));
            let added = before.push(line);
            assert(added.drop_last() == before);
            assert(assigned(added) == assigned(before).push((last.0, last.1)));
            assert(assigned(added).drop_last() == assigned(before));
            added
        }
    }
}

spec fn no_break(s: Seq<char>, from: int, to: int) -> bool
    decreases to - from,
{
    from >= to || (s[from] != '\n' && no_break(s, from + 1, to))
}

proof fn lemma_no_break(s: Seq<char>, from: int, to: int, i: int)
    requires
        no_break(s, from, to),
        from <= i < to,
    ensures
        s[i] != '\n',
    decreases to - from,
{
    if i > from {
        lemma_no_break(s, from + 1, to, i);
    }
}

/// The heading for added settings as pieces: it assigns nothing and holds no key.
pub proof fn lemma_heading_pieces() -> (h: Seq<Seq<char>>)
    ensures
        flat(h) == "\n[added]\n; Settings changed in game that had no line in this file yet.\n"@,
        forall|i: int| 0 <= i < h.len() ==> closed_piece(#[trigger] h[i]),
        forall|i: int| 0 <= i < h.len() ==> piece_key(#[trigger] h[i]) is None,
        assigned(h) == Seq::<(Seq<char>, Seq<char>)>::empty(),
        headings(h) == 1,
{
    let s = "\n[added]\n; Settings changed in game that had no line in this file yet.\n"@;
    reveal_strlit("\n[added]\n; Settings changed in game that had no line in this file yet.\n");
    reveal_strlit("[added]");
    let n: int = s.len() as int;
    let a = s.take(1);
    let b = s.subrange(1, 9);
    let c = s.skip(9);
    let h = seq![a, b, c];
    assert(s[0] == '\n' && s[8] == '\n' && s[n - 1] == '\n');
    assert(no_break(s, 1, 8)) by {
        reveal_with_fuel(no_break, 10);
    }
    assert(no_break(s, 9, n - 1)) by {
        reveal_with_fuel(no_break, 70);
    }
    assert(closed_piece(a));
    assert(closed_piece(b)) by {
        assert forall|i: int| 0 <= i < b.drop_last().len() implies #[trigger] b.drop_last()[i]
            != '\n' by {
            lemma_no_break(s, 1, 8, i + 1);
        }
    }
    assert(closed_piece(c)) by {
        assert forall|i: int| 0 <= i < c.drop_last().len() implies #[trigger] c.drop_last()[i]
            != '\n' by {
            lemma_no_break(s, 9, n - 1, i + 9);
        }
    }
    assert(h.drop_last() == seq![a, b]);
    assert(seq![a, b].drop_last() == seq![a]);
    assert(seq![a].drop_last() == Seq::<Seq<char>>::empty());
    reveal_with_fuel(flat, 4);
    assert(flat(h) == a + b + c);
    assert(a + b + c == s);
    // A blank line.
    assert(trim(a).len() == 0) by {
        assert(a.skip(1).len() == 0);
        assert(trim_start(a) == trim_start(a.skip(1)));
    }
    // The heading itself.
    assert(trim(b) == "[added]"@) by {
        assert(b == "[added]"@.push('\n'));
        lemma_trim_push("[added]"@, '\n');
        assert(trim_start("[added]"@) == "[added]"@);
        assert(trim_end("[added]"@) == "[added]"@);
    }
    // A comment.
    assert(starts_with(trim(c), ';')) by {
        assert(c[0] == ';');
        assert(trim_start(c) == c);
        let z = lemma_trim_end_is_prefix(c);
        if z == 0 {
            assert(is_white(c[0]));
        }
    }
    assert(piece_key(a) is None) by {
        assert(a.drop_last().len() == 0);
        assert(piece_body(a).len() == 0);
        assert(trim_start(piece_body(a)).len() == 0);
        lemma_first_at(trim_start(piece_body(a)), '=');
    }
    assert(piece_key(b) is None) by {
        let t = "[added]"@;
        assert(b == t.push('\n'));
        assert(b.drop_last() == t);
        assert(piece_body(b) == t);
        assert(trim_start(t) == t);
        lemma_first_at(t, '=');
        let i = first_at(t, '=');
        assert(i < 7 ==> t[i] == '=');
    }
    assert(piece_key(c) is None) by {
        assert(c.drop_last()[0] == ';');
        assert(piece_body(c).len() > 0 && piece_body(c)[0] == ';');
        assert(trim_start(piece_body(c)) == piece_body(c));
    }
    reveal_with_fuel(assigned, 4);
    reveal_with_fuel(headings, 4);
    h
}

/// The pieces of the file after saving: those of the old text, each with its new
/// value if its key was saved, and then those that were added.
proof fn lemma_rewritten(text: Seq<char>, pairs: Seq<(Seq<char>, Seq<char>)>, key: Seq<char>)
    requires
        writable(pairs),
    ensures
        values(file_assignments(rewritten(text, pairs)), key) == values(
            assigned(rewritten_list(pieces(text, '\n'), pairs)),
            key,
        ) + match value_of(pairs, key) {
            Some(v) => if has_key(pieces(text, '\n'), key) {
                Seq::<Seq<char>>::empty()
            } else {
                seq![v]
            },
            None => Seq::<Seq<char>>::empty(),
        },
        headings(lines(rewritten(text, pairs))) == headings(lines(text)) + if some_missing(
            pieces(text, '\n'),
            pairs,
        ) && !has_added_heading(lines(text)) {
            1nat
        } else {
            0nat
        },
{
    let ps = pieces(text, '\n');
    let qs = rewritten_list(ps, pairs);
    let out = rewritten(text, pairs);
    let os = pieces(out, '\n');
    lemma_lines_as_pieces(ps);
    lemma_lines_as_pieces(os);
    lemma_pieces_shape(text);
    lemma_rewritten_flat(ps, pairs);
    assert forall|i: int| 0 <= i < ps.len() implies closed_piece(#[trigger] ps[i]) || (one_line(
        ps[i],
    ) && ps[i].len() > 0) by {
        if i == ps.len() - 1 {
            assert(ps[i] == ps.last());
        }
    }
    lemma_rewritten_list(ps, pairs, key);
    assert forall|i: int| 0 <= i < qs.len() implies (closed_piece(ps[i]) ==> closed_piece(
        #[trigger] qs[i],
    )) && (!closed_piece(ps[i]) ==> one_line(qs[i]) && qs[i].len() > 0) by {
        assert(closed_piece(ps[i]) || (one_line(ps[i]) && ps[i].len() > 0));
        lemma_rewritten_piece(ps[i], pairs);
    }
    let any = some_missing(ps, pairs);
    let is_headed = has_added_heading(lines(text));
    let added = lemma_missing_lines(ps, pairs, key);
    let heading = lemma_heading_pieces();
    let none = Seq::<Seq<char>>::empty();
    let h = if is_headed { none } else { heading };
    // What follows the old text.
    let tail = if any { h + added } else { none };
    assert(!any ==> values(assigned(added), key) == none) by {
        if !any && value_of(pairs, key) is Some {
            lemma_value_of(pairs, key);
            let i = choose|i: int|
                0 <= i < pairs.len() && #[trigger] pairs[i] == (
                    key,
                    value_of(pairs, key).unwrap(),
                );
            assert(has_key(ps, pairs[i].0));
        }
    }
    assert(assigned(none) == Seq::<(Seq<char>, Seq<char>)>::empty());
    assert(headings(none) == 0);
    lemma_assigned_concat(h, added);
    lemma_headings_concat(h, added);
    lemma_values_concat(assigned(h), assigned(added), key);
    assert(values(assigned(h), key) == none);
    assert(none + values(assigned(added), key) == values(assigned(added), key));
    assert(values(assigned(tail), key) == values(assigned(added), key));
    assert(forall|i: int| 0 <= i < tail.len() ==> closed_piece(#[trigger] tail[i]));
    lemma_flat_concat(h, added);
    lemma_pieces_flat(tail, Seq::empty());
    assert(flat(tail) + Seq::<char>::empty() == flat(tail));
    assert(tail + pieces(Seq::<char>::empty(), '\n') == tail);
    let kept = flat(qs);
    let open = qs.len() > 0 && !closed_piece(ps.last());
    // The pieces that were there, the last one closed if something follows it.
    if !open {
        assert forall|i: int| 0 <= i < qs.len() implies closed_piece(#[trigger] qs[i]) by {
            assert(closed_piece(ps[i])) by {
                if i == ps.len() - 1 {
                    assert(ps[i] == ps.last());
                }
            }
        }
        assert(any ==> out == kept + flat(tail)) by {
            if any {
                if qs.len() > 0 {
                    let q = qs[qs.len() - 1];
                    assert(closed_piece(q));
                    assert(kept.last() == q.last());
                }
                assert(added_gap(kept, is_headed) == flat(h));
                assert(kept + flat(h) + flat(added) == kept + (flat(h) + flat(added)));
            }
        }
        assert(!any ==> out == kept + flat(tail));
        lemma_pieces_flat(qs, flat(tail));
        assert(os == qs + tail);
        lemma_assigned_concat(qs, tail);
        lemma_headings_concat(qs, tail);
        lemma_values_concat(assigned(qs), assigned(tail), key);
    } else {
        let front = qs.drop_last();
        let q = qs.last();
        assert(q == qs[qs.len() - 1]);
        assert(one_line(q) && q.len() > 0) by {
            assert(!closed_piece(ps[ps.len() - 1]));
        }
        assert forall|i: int| 0 <= i < front.len() implies closed_piece(#[trigger] front[i]) by {
            assert(front[i] == qs[i]);
            assert(closed_piece(ps[i]));
        }
        let q2 = if any { q.push('\n') } else { q };
        lemma_trim_push(q, '\n');
        assert(assigned(front.push(q2)) == assigned(qs)) by {
            assert(front.push(q2).drop_last() == front);
            assert(assignment(q2) == assignment(q));
        }
        assert(headings(front.push(q2)) == headings(qs)) by {
            assert(front.push(q2).drop_last() == front);
        }
        if any {
            assert(q2.drop_last() == q);
            assert(closed_piece(q2));
            assert(kept.last() == q.last());
            assert(q[q.len() - 1] != '\n');
            assert(added_gap(kept, is_headed) == seq!['\n'] + flat(h));
            assert(out == flat(front) + (q2 + flat(tail)));
            lemma_pieces_flat(front, q2 + flat(tail));
            lemma_pieces_closed(q2, flat(tail));
            assert(os == front.push(q2) + tail);
        } else {
            assert(out == flat(front) + q);
            lemma_pieces_flat(front, q);
            lemma_pieces_open(q);
            assert(os == front.push(q2) + tail);
        }
        lemma_assigned_concat(front.push(q2), tail);
        lemma_headings_concat(front.push(q2), tail);
        lemma_values_concat(assigned(qs), assigned(tail), key);
    }
}

pub proof fn lemma_flat_concat(a: Seq<Seq<char>>, b: Seq<Seq<char>>)
    ensures
        flat(a + b) == flat(a) + flat(b),
    decreases b.len(),
{
    if b.len() == 0 {
        assert(a + b == a);
        assert(flat(a) + flat(b) == flat(a));
    } else {
        assert((a + b).drop_last() == a + b.drop_last());
        lemma_flat_concat(a, b.drop_last());
        assert(flat(a) + (flat(b.drop_last()) + b.last()) == (flat(a) + flat(b.drop_last()))
            + b.last());
    }
}

/// What was saved is read back: after saving, every assignment to a saved key gives
/// it the saved value, and there is at least one.
pub proof fn saved_values_are_read_back(
    text: Seq<char>,
    pairs: Seq<(Seq<char>, Seq<char>)>,
    i: int,
)
    requires
        writable(pairs),
        0 <= i < pairs.len(),
    ensures
        values(file_assignments(rewritten(text, pairs)), pairs[i].0).len() > 0,
        forall|j: int|
            0 <= j < values(file_assignments(rewritten(text, pairs)), pairs[i].0).len()
                ==> #[trigger] values(file_assignments(rewritten(text, pairs)), pairs[i].0)[j]
                == pairs[i].1,
{
    let key = pairs[i].0;
    lemma_value_of(pairs, key);
    assert(value_of(pairs, key) == Some(pairs[i].1)) by {
        let j = choose|j: int|
            0 <= j < pairs.len() && #[trigger] pairs[j] == (key, value_of(pairs, key).unwrap());
        if i < j {
            assert(pairs[i].0 != pairs[j].0);
        }
        if j < i {
            assert(pairs[j].0 != pairs[i].0);
        }
    }
    let ps = pieces(text, '\n');
    lemma_pieces_shape(text);
    assert forall|j: int| 0 <= j < ps.len() implies closed_piece(#[trigger] ps[j]) || (one_line(
        ps[j],
    ) && ps[j].len() > 0) by {
        if j == ps.len() - 1 {
            assert(ps[j] == ps.last());
        }
    }
    lemma_rewritten_list(ps, pairs, key);
    lemma_rewritten(text, pairs, key);
}

/// Saving leaves every other key alone: the values that the file gives to a key that
/// was not saved are the same before and after, in the same order.
pub proof fn saving_keeps_other_keys(
    text: Seq<char>,
    pairs: Seq<(Seq<char>, Seq<char>)>,
    key: Seq<char>,
)
    requires
        writable(pairs),
        forall|i: int| 0 <= i < pairs.len() ==> (#[trigger] pairs[i]).0 != key,
    ensures
        values(file_assignments(rewritten(text, pairs)), key) == values(
            file_assignments(text),
            key,
        ),
{
    lemma_value_of(pairs, key);
    let ps = pieces(text, '\n');
    lemma_pieces_shape(text);
    assert forall|j: int| 0 <= j < ps.len() implies closed_piece(#[trigger] ps[j]) || (one_line(
        ps[j],
    ) && ps[j].len() > 0) by {
        if j == ps.len() - 1 {
            assert(ps[j] == ps.last());
        }
    }
    lemma_rewritten_list(ps, pairs, key);
    lemma_rewritten(text, pairs, key);
    lemma_lines_as_pieces(ps);
    assert(values(assigned(ps), key) + Seq::<Seq<char>>::empty() == values(assigned(ps), key));
}

/// The heading for added settings is written at most once in the life of a file:
/// saving adds one only where the file has none, and then exactly one.
pub proof fn the_heading_is_added_once(text: Seq<char>, pairs: Seq<(Seq<char>, Seq<char>)>)
    requires
        writable(pairs),
    ensures
        headings(lines(rewritten(text, pairs))) == headings(lines(text)) + if some_missing(
            pieces(text, '\n'),
            pairs,
        ) && headings(lines(text)) == 0 {
            1nat
        } else {
            0nat
        },
{
    lemma_rewritten(text, pairs, Seq::empty());
    lemma_headings_some(lines(text));
}

proof fn lemma_headings_some(ls: Seq<Seq<char>>)
    ensures
        has_added_heading(ls) <==> headings(ls) > 0,
    decreases ls.len(),
{
    if ls.len() > 0 {
        lemma_headings_some(ls.drop_last());
        if has_added_heading(ls) {
            let i = choose|i: int| 0 <= i < ls.len() && is_added_heading(#[trigger] ls[i]);
            if i < ls.len() - 1 {
                assert(is_added_heading(ls.drop_last()[i]));
            }
        }
        if has_added_heading(ls.drop_last()) {
            let i = choose|i: int|
                0 <= i < ls.drop_last().len() && is_added_heading(#[trigger] ls.drop_last()[i]);
            assert(is_added_heading(ls[i]));
        }
        if is_added_heading(ls.last()) {
            assert(is_added_heading(ls[ls.len() - 1]));
        }
    }
}

} // verus!
