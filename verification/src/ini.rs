//! The settings file: `key = value` lines, comments that start with `;` or `#`,
//! and `[sections]` that are only there for the reader.

use vstd::prelude::*;
use crate::text::{
    append, append_text, chars_of, cut, lines, lines_of, pair_texts, pieces, runs, same,
    split_after, split_at_first, split_once, starts_with, string_of, strip_end, trim,
    trim_start, trimmed, trimmed_start,
};

verus! {

/// What one line assigns: the key and the value, without the white space round
/// them. Blank lines, comments, sections and lines without `=` assign nothing.
pub open spec fn assignment(line: Seq<char>) -> Option<(Seq<char>, Seq<char>)> {
    let t: Seq<char> = trim(line);
    if t.len() == 0 || starts_with(t, ';') || starts_with(t, '#') || starts_with(t, '[') {
        None
    } else {
        match split_once(t, '=') {
            Some((k, v)) => Some((trim(k), trim(v))),
            None => None,
        }
    }
}

/// The assignments that a list of lines makes, in order.
pub open spec fn assigned(ls: Seq<Seq<char>>) -> Seq<(Seq<char>, Seq<char>)>
    decreases ls.len(),
{
    if ls.len() == 0 {
        Seq::empty()
    } else {
        match assignment(ls.last()) {
            Some(a) => assigned(ls.drop_last()).push(a),
            None => assigned(ls.drop_last()),
        }
    }
}

/// The assignments of a whole file, in order.
pub open spec fn file_assignments(text: Seq<char>) -> Seq<(Seq<char>, Seq<char>)> {
    assigned(lines(text))
}

/// The value of the first pair with the given key.
pub open spec fn value_of(pairs: Seq<(Seq<char>, Seq<char>)>, key: Seq<char>) -> Option<Seq<char>>
    decreases pairs.len(),
{
    if pairs.len() == 0 {
        None
    } else if pairs[0].0 == key {
        Some(pairs[0].1)
    } else {
        value_of(pairs.skip(1), key)
    }
}

/// A piece of the file without its line ending, whichever part of one it has.
pub open spec fn piece_body(piece: Seq<char>) -> Seq<char> {
    strip_end(strip_end(piece, '\n'), '\r')
}

/// The key that stands on a piece of the file, if it is neither a comment nor
/// without `=`.
pub open spec fn piece_key(piece: Seq<char>) -> Option<Seq<char>> {
    let t: Seq<char> = trim_start(piece_body(piece));
    if starts_with(t, ';') || starts_with(t, '#') {
        None
    } else {
        match split_once(t, '=') {
            Some((k, _)) => Some(trim(k)),
            None => None,
        }
    }
}

/// A line that assigns `value` to `key`.
pub open spec fn setting_line(key: Seq<char>, value: Seq<char>) -> Seq<char> {
    key + seq![' ', '=', ' '] + value
}

/// A piece of the file after saving `pairs`: a line with one of their keys gets
/// the new value and keeps its line ending; any other is left as it is.
pub open spec fn rewritten_piece(
    piece: Seq<char>,
    pairs: Seq<(Seq<char>, Seq<char>)>,
) -> Seq<char> {
    match piece_key(piece) {
        Some(k) => match value_of(pairs, k) {
            Some(v) => setting_line(k, v) + piece.skip(piece_body(piece).len() as int),
            None => piece,
        },
        None => piece,
    }
}

/// Some pieces of the file after saving `pairs`, one after another.
pub open spec fn rewritten_pieces(
    ps: Seq<Seq<char>>,
    pairs: Seq<(Seq<char>, Seq<char>)>,
) -> Seq<char>
    decreases ps.len(),
{
    if ps.len() == 0 {
        Seq::empty()
    } else {
        rewritten_pieces(ps.drop_last(), pairs) + rewritten_piece(ps.last(), pairs)
    }
}

/// Whether one of the pieces has the key.
pub open spec fn has_key(ps: Seq<Seq<char>>, key: Seq<char>) -> bool {
    exists|i: int| 0 <= i < ps.len() && piece_key(#[trigger] ps[i]) == Some(key)
}

/// The lines for those of `pairs` whose key no piece has.
pub open spec fn missing_lines(
    ps: Seq<Seq<char>>,
    pairs: Seq<(Seq<char>, Seq<char>)>,
) -> Seq<char>
    decreases pairs.len(),
{
    if pairs.len() == 0 {
        Seq::empty()
    } else if has_key(ps, pairs.last().0) {
        missing_lines(ps, pairs.drop_last())
    } else {
        missing_lines(ps, pairs.drop_last()) + setting_line(pairs.last().0, pairs.last().1).push(
            '\n',
        )
    }
}

/// Whether some key of `pairs` stands on none of the pieces.
pub open spec fn some_missing(ps: Seq<Seq<char>>, pairs: Seq<(Seq<char>, Seq<char>)>) -> bool {
    exists|i: int| 0 <= i < pairs.len() && !has_key(ps, (#[trigger] pairs[i]).0)
}

/// Whether a line is the heading of the settings that were added in game.
pub open spec fn is_added_heading(line: Seq<char>) -> bool {
    trim(line) == "[added]"@
}

pub open spec fn has_added_heading(ls: Seq<Seq<char>>) -> bool {
    exists|i: int| 0 <= i < ls.len() && is_added_heading(#[trigger] ls[i])
}

/// What stands between the old text and the added lines: a line ending if the
/// old text lacks one, and the heading if it has none yet.
pub open spec fn added_gap(kept: Seq<char>, headed: bool) -> Seq<char> {
    (if kept.len() > 0 && kept.last() != '\n' {
        seq!['\n']
    } else {
        Seq::empty()
    }) + (if headed {
        Seq::empty()
    } else {
        "\n[added]\n; Settings changed in game that had no line in this file yet.\n"@
    })
}

/// The file after saving `pairs`.
pub open spec fn rewritten(
    text: Seq<char>,
    pairs: Seq<(Seq<char>, Seq<char>)>,
) -> Seq<char> {
    let ps: Seq<Seq<char>> = pieces(text, '\n');
    let kept: Seq<char> = rewritten_pieces(ps, pairs);
    if some_missing(ps, pairs) {
        kept + added_gap(kept, has_added_heading(lines(text))) + missing_lines(ps, pairs)
    } else {
        kept
    }
}

/// What one line assigns.
pub fn line_assignment(line: &Vec<char>) -> (r: Option<(String, String)>)
    ensures
        match r {
            Some((k, v)) => assignment(line@) == Some((k@, v@)),
            None => assignment(line@) is None,
        },
{
    let t: Vec<char> = trimmed(line);
    if t.len() == 0 || t[0] == ';' || t[0] == '#' || t[0] == '[' {
        return None;
    }
    match split_at_first(&t, '=') {
        Some((k, v)) => Some((string_of(&trimmed(&k)), string_of(&trimmed(&v)))),
        None => None,
    }
}

/// The assignments of a whole file, in order.
pub fn assignments(text: &str) -> (r: Vec<(String, String)>)
    ensures
        pair_texts(r@) == file_assignments(text@),
{
    let ls: Vec<Vec<char>> = lines_of(text);
    let mut r: Vec<(String, String)> = Vec::new();
    assert(pair_texts(r@) == assigned(runs(ls@).take(0)));
    for i in 0..ls.len()
        invariant
            pair_texts(r@) == assigned(runs(ls@).take(i as int)),
    {
        let ghost before = r@;
        let a: Option<(String, String)> = line_assignment(&ls[i]);
        proof {
            let next = runs(ls@).take(i + 1);
            assert(next.drop_last() == runs(ls@).take(i as int));
            assert(next.last() == ls@[i as int]@);
        }
        match a {
            Some(p) => {
                r.push(p);
                assert(pair_texts(r@) == pair_texts(before).push((p.0@, p.1@)));
            },
            None => {},
        }
    }
    assert(runs(ls@).take(ls@.len() as int) == runs(ls@));
    r
}

/// Where a piece's line ending begins.
fn body_len(piece: &Vec<char>) -> (r: usize)
    ensures
        r == piece_body(piece@).len(),
        r <= piece.len(),
        piece_body(piece@) == piece@.take(r as int),
{
    let mut n: usize = piece.len();
    if n > 0 && piece[n - 1] == '\n' {
        n = n - 1;
    }
    assert(strip_end(piece@, '\n') == piece@.take(n as int));
    if n > 0 && piece[n - 1] == '\r' {
        n = n - 1;
    }
    assert(piece_body(piece@) == piece@.take(n as int));
    n
}

/// The key that stands on a piece of the file.
fn key_on(piece: &Vec<char>) -> (r: Option<Vec<char>>)
    ensures
        match r {
            Some(k) => piece_key(piece@) == Some(k@),
            None => piece_key(piece@) is None,
        },
{
    let n: usize = body_len(piece);
    let body: Vec<char> = cut(piece, 0, n);
    assert(body@ == piece_body(piece@));
    let t: Vec<char> = trimmed_start(&body);
    if t.len() > 0 && (t[0] == ';' || t[0] == '#') {
        return None;
    }
    match split_at_first(&t, '=') {
        Some((k, _)) => Some(trimmed(&k)),
        None => None,
    }
}

/// The index of the first pair with the given key.
fn find_pair(pairs: &Vec<(String, String)>, key: &Vec<char>) -> (r: Option<usize>)
    ensures
        match r {
            Some(i) => i < pairs.len() && pairs@[i as int].0@ == key@ && value_of(
                pair_texts(pairs@),
                key@,
            ) == Some(pairs@[i as int].1@),
            None => value_of(pair_texts(pairs@), key@) is None,
        },
{
    let ghost all = pair_texts(pairs@);
    assert(all.skip(0) == all);
    for i in 0..pairs.len()
        invariant
            all == pair_texts(pairs@),
            value_of(all, key@) == value_of(all.skip(i as int), key@),
    {
        assert(all.skip(i as int).skip(1) == all.skip(i + 1));
        assert(all.skip(i as int)[0] == (pairs@[i as int].0@, pairs@[i as int].1@));
        if same(key, &pairs[i].0) {
            return Some(i);
        }
    }
    None
}

/// Appends a line that assigns `value` to `key`.
fn append_setting(out: &mut Vec<char>, key: &str, value: &str)
    ensures
        final(out)@ == old(out)@ + setting_line(key@, value@),
{
    append_text(out, key);
    out.push(' ');
    out.push('=');
    out.push(' ');
    append_text(out, value);
    assert(out@ == old(out)@ + setting_line(key@, value@));
}

/// The pieces of the file after saving `pairs`, one after another.
fn rewrite_pieces(ps: &Vec<Vec<char>>, pairs: &Vec<(String, String)>) -> (r: Vec<char>)
    ensures
        r@ == rewritten_pieces(runs(ps@), pair_texts(pairs@)),
{
    let mut out: Vec<char> = Vec::new();
    for i in 0..ps.len()
        invariant
            out@ == rewritten_pieces(runs(ps@).take(i as int), pair_texts(pairs@)),
    {
        let ghost before = out@;
        let piece: &Vec<char> = &ps[i];
        proof {
            let next = runs(ps@).take(i + 1);
            assert(next.drop_last() == runs(ps@).take(i as int));
            assert(next.last() == piece@);
        }
        let found: Option<usize> = match key_on(piece) {
            Some(k) => find_pair(pairs, &k),
            None => None,
        };
        match found {
            Some(j) => {
                append_setting(&mut out, &pairs[j].0, &pairs[j].1);
                let n: usize = body_len(piece);
                let ending: Vec<char> = cut(piece, n, piece.len());
                append(&mut out, &ending);
                assert(ending@ == piece@.skip(n as int));
                assert(out@ == before + (setting_line(pairs@[j as int].0@, pairs@[j as int].1@)
                    + ending@));
            },
            None => {
                append(&mut out, piece);
            },
        }
    }
    assert(runs(ps@).take(ps@.len() as int) == runs(ps@));
    out
}

/// Whether one of the pieces has the key.
fn some_has_key(ps: &Vec<Vec<char>>, key: &str) -> (r: bool)
    ensures
        r == has_key(runs(ps@), key@),
{
    for i in 0..ps.len()
        invariant
            forall|j: int| 0 <= j < i ==> piece_key(#[trigger] runs(ps@)[j]) != Some(key@),
    {
        assert(runs(ps@)[i as int] == ps@[i as int]@);
        match key_on(&ps[i]) {
            Some(k) => {
                if same(&k, key) {
                    return true;
                }
            },
            None => {},
        }
    }
    false
}

/// The lines for those of `pairs` whose key no piece has, and whether there are any.
fn lines_for_missing(ps: &Vec<Vec<char>>, pairs: &Vec<(String, String)>) -> (r: (bool, Vec<char>))
    ensures
        r.0 == some_missing(runs(ps@), pair_texts(pairs@)),
        r.1@ == missing_lines(runs(ps@), pair_texts(pairs@)),
{
    let mut any: bool = false;
    let mut out: Vec<char> = Vec::new();
    let ghost all = pair_texts(pairs@);
    for i in 0..pairs.len()
        invariant
            all == pair_texts(pairs@),
            any == some_missing(runs(ps@), all.take(i as int)),
            out@ == missing_lines(runs(ps@), all.take(i as int)),
    {
        let ghost before = out@;
        let ghost next = all.take(i + 1);
        assert(next.drop_last() == all.take(i as int));
        assert(next.last() == (pairs@[i as int].0@, pairs@[i as int].1@));
        if !some_has_key(ps, &pairs[i].0) {
            assert(!has_key(runs(ps@), next[i as int].0));
            any = true;
            append_setting(&mut out, &pairs[i].0, &pairs[i].1);
            out.push('\n');
            assert(out@ == before + setting_line(next.last().0, next.last().1).push('\n'));
        } else {
            proof {
                if any {
                    let j = choose|j: int|
                        0 <= j < i && !has_key(runs(ps@), (#[trigger] all.take(i as int)[j]).0);
                    assert(!has_key(runs(ps@), next[j].0));
                } else {
                    assert forall|j: int| 0 <= j < next.len() implies has_key(
                        runs(ps@),
                        (#[trigger] next[j]).0,
                    ) by {
                        if j < i {
                            assert(next[j] == all.take(i as int)[j]);
                        }
                    }
                }
            }
        }
    }
    assert(all.take(pairs@.len() as int) == all);
    (any, out)
}

/// Whether one of the lines is the heading of the added settings.
fn headed(ls: &Vec<Vec<char>>) -> (r: bool)
    ensures
        r == has_added_heading(runs(ls@)),
{
    for i in 0..ls.len()
        invariant
            forall|j: int| 0 <= j < i ==> !is_added_heading(#[trigger] runs(ls@)[j]),
    {
        assert(runs(ls@)[i as int] == ls@[i as int]@);
        if same(&trimmed(&ls[i]), "[added]") {
            return true;
        }
    }
    false
}

/// Saves `pairs` into the text of a settings file. Lines with one of the keys get
/// the new value in place; keys that the file lacks are added at its end, under a
/// heading that is written only once. Everything else stays as it is: comments,
/// other keys, their order and the line endings.
pub fn rewrite_values(text: &str, pairs: &Vec<(String, String)>) -> (r: String)
    ensures
        r@ == rewritten(text@, pair_texts(pairs@)),
{
    let ps: Vec<Vec<char>> = split_after(&chars_of(text), '\n');
    let mut out: Vec<char> = rewrite_pieces(&ps, pairs);
    let (any, missing) = lines_for_missing(&ps, pairs);
    let ghost kept = out@;
    if any {
        if out.len() > 0 && out[out.len() - 1] != '\n' {
            out.push('\n');
        }
        if !headed(&lines_of(text)) {
            append_text(
                &mut out,
                "\n[added]\n; Settings changed in game that had no line in this file yet.\n",
            );
        }
        append(&mut out, &missing);
        proof {
            let gap = added_gap(kept, has_added_heading(lines(text@)));
            assert(out@ == kept + gap + missing@);
        }
    }
    string_of(&out)
}

} // verus!
