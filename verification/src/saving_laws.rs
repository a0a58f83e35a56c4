//! Saving the same settings twice.

use vstd::prelude::*;
use crate::i18n_laws::lemma_flat_of_pieces;
use crate::ini::{
    added_gap, has_added_heading, has_key, missing_lines, piece_body, piece_key, rewritten,
    rewritten_piece, setting_line, some_missing, value_of,
};
use crate::ini_laws::{
    closed_piece, flat, lemma_flat_concat, lemma_heading_pieces, lemma_pieces_closed, lemma_pieces_flat,
    lemma_pieces_open, lemma_pieces_shape, lemma_rewritten_flat, lemma_setting_one_line,
    lemma_trim_push, lemma_trimmed_ends, lemma_value_of, one_line, rewritten_list,
};
use crate::text::{lemma_first_at_is, lines, pieces, starts_with, strip_end, trim, trim_start};

verus! {

/// A key that a line can be found by again: on one line, without `=` or white space round
/// it, and not taken for a comment.
pub open spec fn findable_key(k: Seq<char>) -> bool {
    &&& one_line(k)
    &&& trim(k) == k
    &&& (forall|i: int| 0 <= i < k.len() ==> #[trigger] k[i] != '=')
    &&& !starts_with(k, ';')
    &&& !starts_with(k, '#')
}

/// A value that ends where its line does.
pub open spec fn endable_value(v: Seq<char>) -> bool {
    one_line(v) && !(v.len() > 0 && v.last() == '\r')
}

/// Pairs that are found again after saving: no key twice.
pub open spec fn findable(pairs: Seq<(Seq<char>, Seq<char>)>) -> bool {
    &&& forall|i: int|
        0 <= i < pairs.len() ==> findable_key((#[trigger] pairs[i]).0) && endable_value(pairs[i].1)
    &&& forall|i: int, j: int|
        0 <= i < j < pairs.len() ==> (#[trigger] pairs[i]).0 != (#[trigger] pairs[j]).0
}

/// A line ending, or a part of one.
spec fn is_ending(e: Seq<char>) -> bool {
    e == Seq::<char>::empty() || e == seq!['\n'] || e == seq!['\r'] || e == seq!['\r', '\n']
}

/// A piece as it comes out of a text.
spec fn is_piece(p: Seq<char>) -> bool {
    closed_piece(p) || (one_line(p) && p.len() > 0)
}

proof fn lemma_ending(p: Seq<char>)
    ensures
        p == piece_body(p) + p.skip(piece_body(p).len() as int),
        is_ending(p.skip(piece_body(p).len() as int)),
        (p.len() > 0 && p.last() == '\n') <==> (p.skip(piece_body(p).len() as int).len() > 0
            && p.skip(piece_body(p).len() as int).last() == '\n'),
{
    let b1 = strip_end(p, '\n');
    let b = piece_body(p);
    let e = p.skip(b.len() as int);
    assert(p == b + e);
    if p.len() > 0 && p.last() == '\n' {
        if b1.len() > 0 && b1.last() == '\r' {
            assert(e == seq!['\r', '\n']);
        } else {
            assert(e == seq!['\n']);
        }
    } else {
        if b1.len() > 0 && b1.last() == '\r' {
            assert(e == seq!['\r']);
        } else {
            assert(e == Seq::<char>::empty());
        }
    }
}

/// The key of a line that was written for it.
proof fn lemma_written_key(k: Seq<char>, v: Seq<char>, e: Seq<char>)
    requires
        findable_key(k),
        endable_value(v),
        is_ending(e),
    ensures
        piece_body(setting_line(k, v) + e) == setting_line(k, v),
        piece_key(setting_line(k, v) + e) == Some(k),
        (setting_line(k, v) + e).skip(setting_line(k, v).len() as int) == e,
        e.len() > 0 && e.last() == '\n' ==> closed_piece(setting_line(k, v) + e),
        !(e.len() > 0 && e.last() == '\n') ==> one_line(setting_line(k, v) + e) && (setting_line(
            k,
            v,
        ) + e).len() > 0,
{
    let line = setting_line(k, v);
    let p = line + e;
    lemma_setting_one_line(k, v);
    assert(line.len() == k.len() + 3 + v.len());
    assert(line[line.len() - 1] != '\n');
    assert(line[line.len() - 1] != '\r') by {
        if v.len() > 0 {
            assert(line[line.len() - 1] == v[v.len() - 1]);
        } else {
            assert(line[line.len() - 1] == ' ');
        }
    }
    assert(p.skip(line.len() as int) == e);
    assert(piece_body(p) == line) by {
        if e.len() == 0 {
            assert(p == line);
        } else if e == seq!['\n'] {
            assert(p.drop_last() == line);
        } else if e == seq!['\r'] {
            assert(p.drop_last() == line);
        } else {
            assert(p.drop_last() == line.push('\r'));
            assert(line.push('\r').drop_last() == line);
        }
    }
    assert(closed_piece(p) || one_line(p)) by {
        if e.len() == 2 {
            assert(p.drop_last() == line.push('\r'));
        } else if e.len() == 1 {
            assert(p.drop_last() == line);
        } else {
            assert(p == line);
        }
    }
    let head: Seq<char> = if k.len() > 0 {
        k.push(' ')
    } else {
        Seq::empty()
    };
    let t = trim_start(line);
    assert(t == head + seq!['=', ' '] + v) by {
        if k.len() > 0 {
            lemma_trimmed_ends(k);
            assert(line[0] == k[0]);
            assert(line == head + seq!['=', ' '] + v);
        } else {
            let u = head + seq!['=', ' '] + v;
            assert(line[0] == ' ');
            assert(line.skip(1) == u);
            assert(u[0] == '=');
            assert(trim_start(u) == u);
        }
    }
    let n: int = head.len() as int;
    assert(t[n] == '=');
    assert forall|j: int| 0 <= j < n implies t[j] != '=' by {
        if j < k.len() {
            assert(t[j] == k[j]);
        }
    }
    lemma_first_at_is(t, '=', n);
    assert(t.take(n) == head);
    assert(trim(head) == k) by {
        if k.len() > 0 {
            lemma_trim_push(k, ' ');
        } else {
            assert(head == k);
        }
    }
    if k.len() > 0 {
        assert(t[0] == k[0]);
    }
}

/// A saved line is found by its key and left alone by saving the same again.
proof fn lemma_piece_again(p: Seq<char>, pairs: Seq<(Seq<char>, Seq<char>)>)
    requires
        findable(pairs),
        is_piece(p),
    ensures
        is_piece(rewritten_piece(p, pairs)),
        closed_piece(p) <==> closed_piece(rewritten_piece(p, pairs)),
        piece_key(rewritten_piece(p, pairs)) == piece_key(p),
        rewritten_piece(rewritten_piece(p, pairs), pairs) == rewritten_piece(p, pairs),
{
    assert(closed_piece(p) <==> p.last() == '\n') by {
        if p.last() == '\n' && !closed_piece(p) {
            assert(p[p.len() - 1] != '\n');
        }
    }
    lemma_ending(p);
    match piece_key(p) {
        Some(k) => {
            lemma_value_of(pairs, k);
            match value_of(pairs, k) {
                Some(v) => {
                    let i = choose|i: int| 0 <= i < pairs.len() && #[trigger] pairs[i] == (k, v);
                    assert(findable_key(pairs[i].0) && endable_value(pairs[i].1));
                    let e = p.skip(piece_body(p).len() as int);
                    lemma_written_key(k, v, e);
                    let q = setting_line(k, v) + e;
                    if one_line(q) {
                        assert(q[q.len() - 1] != '\n');
                    }
                },
                None => {},
            }
        },
        None => {},
    }
}

/// A line without its ending is found and left alone as with it.
proof fn lemma_closed_again(q: Seq<char>, pairs: Seq<(Seq<char>, Seq<char>)>)
    requires
        one_line(q),
        q.len() > 0,
        rewritten_piece(q, pairs) == q,
    ensures
        closed_piece(q.push('\n')),
        piece_key(q.push('\n')) == piece_key(q),
        rewritten_piece(q.push('\n'), pairs) == q.push('\n'),
{
    let p = q.push('\n');
    assert(p.drop_last() == q);
    assert(q[q.len() - 1] != '\n');
    assert(piece_body(p) == piece_body(q));
    let n: int = piece_body(q).len() as int;
    lemma_ending(q);
    assert(p.skip(n) == q.skip(n).push('\n'));
    match piece_key(q) {
        Some(k) => match value_of(pairs, k) {
            Some(v) => {
                assert(setting_line(k, v) + q.skip(n).push('\n') == (setting_line(k, v) + q.skip(
                    n,
                )).push('\n'));
            },
            None => {},
        },
        None => {},
    }
}

/// The lines that are added, as a list.
spec fn added_list(ps: Seq<Seq<char>>, pairs: Seq<(Seq<char>, Seq<char>)>) -> Seq<Seq<char>>
    decreases pairs.len(),
{
    if pairs.len() == 0 {
        Seq::empty()
    } else if has_key(ps, pairs.last().0) {
        added_list(ps, pairs.drop_last())
    } else {
        added_list(ps, pairs.drop_last()).push(
            setting_line(pairs.last().0, pairs.last().1) + seq!['\n'],
        )
    }
}

proof fn lemma_added_list(ps: Seq<Seq<char>>, pairs: Seq<(Seq<char>, Seq<char>)>)
    ensures
        missing_lines(ps, pairs) == flat(added_list(ps, pairs)),
        forall|j: int|
            0 <= j < added_list(ps, pairs).len() ==> exists|i: int|
                0 <= i < pairs.len() && #[trigger] added_list(ps, pairs)[j] == setting_line(
                    (#[trigger] pairs[i]).0,
                    pairs[i].1,
                ) + seq!['\n'],
        forall|i: int|
            0 <= i < pairs.len() && !has_key(ps, (#[trigger] pairs[i]).0) ==> exists|j: int|
                0 <= j < added_list(ps, pairs).len() && #[trigger] added_list(ps, pairs)[j]
                    == setting_line(pairs[i].0, pairs[i].1) + seq!['\n'],
    decreases pairs.len(),
{
    if pairs.len() > 0 {
        let front = pairs.drop_last();
        let out = added_list(ps, pairs);
        let before = added_list(ps, front);
        let last = setting_line(pairs.last().0, pairs.last().1) + seq!['\n'];
        lemma_added_list(ps, front);
        if !has_key(ps, pairs.last().0) {
            assert(out.drop_last() == before);
            assert(last == setting_line(pairs.last().0, pairs.last().1).push('\n'));
        }
        assert forall|j: int| 0 <= j < out.len() implies exists|i: int|
            0 <= i < pairs.len() && #[trigger] out[j] == setting_line(
                (#[trigger] pairs[i]).0,
                pairs[i].1,
            ) + seq!['\n'] by {
            if j < before.len() {
                assert(out[j] == before[j]);
                let i = choose|i: int|
                    0 <= i < front.len() && before[j] == setting_line(
                        (#[trigger] front[i]).0,
                        front[i].1,
                    ) + seq!['\n'];
                assert(pairs[i] == front[i]);
            } else {
                assert(out[j] == last);
                assert(pairs[pairs.len() - 1] == pairs.last());
            }
        }
        assert forall|i: int|
            0 <= i < pairs.len() && !has_key(ps, (#[trigger] pairs[i]).0) implies exists|j: int|
            0 <= j < out.len() && #[trigger] out[j] == setting_line(pairs[i].0, pairs[i].1)
                + seq!['\n'] by {
            if i < front.len() {
                assert(front[i] == pairs[i]);
                let j = choose|j: int|
                    0 <= j < before.len() && #[trigger] before[j] == setting_line(
                        front[i].0,
                        front[i].1,
                    ) + seq!['\n'];
                assert(out[j] == before[j]);
            } else {
                assert(out[out.len() - 1] == last);
            }
        }
    }
}

/// The value that is saved under a key is that of its only pair.
proof fn lemma_only_value(pairs: Seq<(Seq<char>, Seq<char>)>, i: int)
    requires
        findable(pairs),
        0 <= i < pairs.len(),
    ensures
        value_of(pairs, pairs[i].0) == Some(pairs[i].1),
{
    let key = pairs[i].0;
    lemma_value_of(pairs, key);
    let j = choose|j: int|
        0 <= j < pairs.len() && #[trigger] pairs[j] == (key, value_of(pairs, key).unwrap());
    if i < j {
        assert(pairs[i].0 != pairs[j].0);
    }
    if j < i {
        assert(pairs[j].0 != pairs[i].0);
    }
}

/// A piece that saving the same again leaves alone.
#[verifier::opaque]
spec fn is_settled(p: Seq<char>, pairs: Seq<(Seq<char>, Seq<char>)>) -> bool {
    rewritten_piece(p, pairs) == p
}

/// Saving changes nothing in a text whose pieces are settled and hold every key.
proof fn lemma_settled(text: Seq<char>, pairs: Seq<(Seq<char>, Seq<char>)>)
    requires
        forall|i: int|
            0 <= i < pieces(text, '\n').len() ==> is_settled(
                #[trigger] pieces(text, '\n')[i],
                pairs,
            ),
        forall|i: int|
            0 <= i < pairs.len() ==> has_key(pieces(text, '\n'), (#[trigger] pairs[i]).0),
    ensures
        rewritten(text, pairs) == text,
{
    let ps = pieces(text, '\n');
    lemma_rewritten_flat(ps, pairs);
    assert(rewritten_list(ps, pairs) == ps) by {
        reveal(is_settled);
        assert forall|i: int| 0 <= i < ps.len() implies rewritten_list(ps, pairs)[i] == ps[i] by {
            assert(is_settled(ps[i], pairs));
        }
    }
    lemma_flat_of_pieces(text);
}

/// Pieces that were there, the last one closed if something follows it.
spec fn closed_up(qs: Seq<Seq<char>>, any: bool) -> Seq<Seq<char>> {
    if any && qs.len() > 0 && !closed_piece(qs.last()) {
        qs.drop_last().push(qs.last().push('\n'))
    } else {
        qs
    }
}

/// The pieces of a text that is put together of pieces, a heading and added lines.
proof fn lemma_pieces_joined(
    qs: Seq<Seq<char>>,
    any: bool,
    is_headed: bool,
    h: Seq<Seq<char>>,
    added: Seq<Seq<char>>,
)
    requires
        forall|i: int| 0 <= i < qs.len() - 1 ==> closed_piece(#[trigger] qs[i]),
        qs.len() > 0 ==> is_piece(qs.last()),
        forall|i: int| 0 <= i < h.len() ==> closed_piece(#[trigger] h[i]),
        forall|i: int| 0 <= i < added.len() ==> closed_piece(#[trigger] added[i]),
        flat(h) == if is_headed {
            Seq::<char>::empty()
        } else {
            "\n[added]\n; Settings changed in game that had no line in this file yet.\n"@
        },
    ensures
        any ==> pieces(flat(qs) + added_gap(flat(qs), is_headed) + flat(added), '\n') == closed_up(
            qs,
            any,
        ) + (h + added),
        !any ==> pieces(flat(qs), '\n') == qs,
{
    let kept = flat(qs);
    let none = Seq::<Seq<char>>::empty();
    let tail = if any {
        h + added
    } else {
        none
    };
    assert(forall|i: int| 0 <= i < tail.len() ==> closed_piece(#[trigger] tail[i]));
    let out = if any {
        kept + added_gap(kept, is_headed) + flat(added)
    } else {
        kept
    };
    let os = pieces(out, '\n');
    lemma_flat_concat(h, added);
    lemma_pieces_flat(tail, Seq::empty());
    assert(flat(tail) + Seq::<char>::empty() == flat(tail));
    assert(tail + pieces(Seq::<char>::empty(), '\n') == tail);
    if qs.len() == 0 || closed_piece(qs.last()) {
        assert forall|i: int| 0 <= i < qs.len() implies closed_piece(#[trigger] qs[i]) by {
            if i == qs.len() - 1 {
                assert(qs[i] == qs.last());
            }
        }
        if any {
            if qs.len() > 0 {
                assert(kept.last() == qs.last().last());
            }
            assert(added_gap(kept, is_headed) == flat(h));
            assert(kept + flat(h) + flat(added) == kept + (flat(h) + flat(added)));
        }
        assert(out == kept + flat(tail));
        lemma_pieces_flat(qs, flat(tail));
        assert(os == qs + tail);
        assert(qs + none == qs);
    } else {
        let front = qs.drop_last();
        let q = qs.last();
        assert(one_line(q) && q.len() > 0);
        assert forall|i: int| 0 <= i < front.len() implies closed_piece(#[trigger] front[i]) by {
            assert(front[i] == qs[i]);
        }
        if any {
            let q2 = q.push('\n');
            assert(q2.drop_last() == q);
            assert(closed_piece(q2));
            assert(kept.last() == q.last());
            assert(q[q.len() - 1] != '\n');
            assert(added_gap(kept, is_headed) == seq!['\n'] + flat(h));
            assert(out == flat(front) + (q2 + flat(tail)));
            lemma_pieces_flat(front, q2 + flat(tail));
            lemma_pieces_closed(q2, flat(tail));
            assert(os == front.push(q2) + tail);
        } else {
            assert(out == flat(front) + q);
            lemma_pieces_flat(front, q);
            lemma_pieces_open(q);
            assert(os == qs);
        }
    }
}

/// The old pieces after saving are settled, closed up or not, and keep their keys.
proof fn lemma_old_pieces(
    ps: Seq<Seq<char>>,
    pairs: Seq<(Seq<char>, Seq<char>)>,
    any: bool,
)
    requires
        findable(pairs),
        forall|i: int| 0 <= i < ps.len() - 1 ==> closed_piece(#[trigger] ps[i]),
        ps.len() > 0 ==> is_piece(ps.last()),
    ensures
        forall|i: int|
            0 <= i < ps.len() - 1 ==> closed_piece(#[trigger] rewritten_list(ps, pairs)[i]),
        ps.len() > 0 ==> is_piece(rewritten_list(ps, pairs).last()),
        closed_up(rewritten_list(ps, pairs), any).len() == ps.len(),
        forall|i: int|
            0 <= i < ps.len() ==> is_settled(
                #[trigger] closed_up(rewritten_list(ps, pairs), any)[i],
                pairs,
            ) && piece_key(closed_up(rewritten_list(ps, pairs), any)[i]) == piece_key(ps[i]),
{
    reveal(is_settled);
    let qs = rewritten_list(ps, pairs);
    let rs = closed_up(qs, any);
    assert forall|i: int| 0 <= i < ps.len() - 1 implies closed_piece(#[trigger] qs[i]) by {
        assert(closed_piece(ps[i]));
        lemma_piece_again(ps[i], pairs);
    }
    if ps.len() > 0 {
        assert(qs.last() == rewritten_piece(ps.last(), pairs));
        lemma_piece_again(ps.last(), pairs);
    }
    assert forall|i: int| 0 <= i < ps.len() implies is_settled(#[trigger] rs[i], pairs)
        && piece_key(rs[i]) == piece_key(ps[i]) by {
        if i < ps.len() - 1 {
            assert(closed_piece(ps[i]));
        } else {
            assert(ps[i] == ps.last());
        }
        lemma_piece_again(ps[i], pairs);
        assert(qs[i] == rewritten_piece(ps[i], pairs));
        if i == ps.len() - 1 && any && !closed_piece(qs.last()) {
            lemma_closed_again(qs[i], pairs);
        }
    }
}

/// The added pieces are settled.
proof fn lemma_new_pieces(ps: Seq<Seq<char>>, pairs: Seq<(Seq<char>, Seq<char>)>)
    requires
        findable(pairs),
    ensures
        missing_lines(ps, pairs) == flat(added_list(ps, pairs)),
        forall|j: int|
            0 <= j < added_list(ps, pairs).len() ==> closed_piece(
                #[trigger] added_list(ps, pairs)[j],
            ) && is_settled(added_list(ps, pairs)[j], pairs),
        forall|i: int|
            0 <= i < pairs.len() && !has_key(ps, (#[trigger] pairs[i]).0) ==> has_key(
                added_list(ps, pairs),
                pairs[i].0,
            ),
{
    let added = added_list(ps, pairs);
    lemma_added_list(ps, pairs);
    assert forall|j: int| 0 <= j < added.len() implies closed_piece(#[trigger] added[j])
        && is_settled(added[j], pairs) by {
        reveal(is_settled);
        let i = choose|i: int|
            0 <= i < pairs.len() && added[j] == setting_line((#[trigger] pairs[i]).0, pairs[i].1)
                + seq!['\n'];
        lemma_written_key(pairs[i].0, pairs[i].1, seq!['\n']);
        lemma_only_value(pairs, i);
    }
    assert forall|i: int|
        0 <= i < pairs.len() && !has_key(ps, (#[trigger] pairs[i]).0) implies has_key(
        added,
        pairs[i].0,
    ) by {
        let j = choose|j: int|
            0 <= j < added.len() && #[trigger] added[j] == setting_line(pairs[i].0, pairs[i].1)
                + seq!['\n'];
        lemma_written_key(pairs[i].0, pairs[i].1, seq!['\n']);
        assert(piece_key(added[j]) == Some(pairs[i].0));
    }
}

proof fn lemma_has_key_in(whole: Seq<Seq<char>>, part: Seq<Seq<char>>, from: int, key: Seq<char>)
    requires
        has_key(part, key),
        0 <= from <= from + part.len() <= whole.len(),
        forall|i: int| 0 <= i < part.len() ==> piece_key(whole[from + i]) == piece_key(#[trigger] part[i]),
    ensures
        has_key(whole, key),
{
    let j = choose|j: int| 0 <= j < part.len() && piece_key(#[trigger] part[j]) == Some(key);
    assert(piece_key(whole[from + j]) == Some(key));
}

/// Saving the same settings twice is saving them once: the second time nothing in the file
/// changes.
pub proof fn saving_twice_is_saving_once(text: Seq<char>, pairs: Seq<(Seq<char>, Seq<char>)>)
    requires
        findable(pairs),
    ensures
        rewritten(rewritten(text, pairs), pairs) == rewritten(text, pairs),
{
    let ps = pieces(text, '\n');
    let qs = rewritten_list(ps, pairs);
    let out = rewritten(text, pairs);
    let os = pieces(out, '\n');
    let any = some_missing(ps, pairs);
    let is_headed = has_added_heading(lines(text));
    lemma_pieces_shape(text);
    lemma_rewritten_flat(ps, pairs);
    lemma_old_pieces(ps, pairs, any);
    lemma_new_pieces(ps, pairs);
    let added = added_list(ps, pairs);
    let rs = closed_up(qs, any);
    let heading = lemma_heading_pieces();
    let h = if is_headed {
        Seq::<Seq<char>>::empty()
    } else {
        heading
    };
    lemma_pieces_joined(qs, any, is_headed, h, added);
    assert(any ==> os == rs + (h + added));
    assert(!any ==> os == rs);
    assert forall|i: int| 0 <= i < os.len() implies is_settled(#[trigger] os[i], pairs) by {
        if i < rs.len() {
            assert(os[i] == rs[i]);
        } else if i < rs.len() + h.len() {
            let m: int = i - rs.len();
            assert(os[i] == h[m]);
            assert(piece_key(h[m]) is None);
            reveal(is_settled);
        } else {
            let m: int = i - rs.len() - h.len();
            assert(os[i] == added[m]);
        }
    }
    assert forall|i: int| 0 <= i < pairs.len() implies has_key(os, (#[trigger] pairs[i]).0) by {
        let key = pairs[i].0;
        if has_key(ps, key) {
            assert forall|j: int| 0 <= j < ps.len() implies piece_key(os[0 + j]) == piece_key(
                #[trigger] ps[j],
            ) by {
                assert(os[j] == rs[j]);
            }
            lemma_has_key_in(os, ps, 0, key);
        } else {
            let from: int = (rs.len() + h.len()) as int;
            assert forall|j: int| 0 <= j < added.len() implies piece_key(os[from + j]) == piece_key(
                #[trigger] added[j],
            ) by {
                assert(os[from + j] == added[j]);
            }
            lemma_has_key_in(os, added, from, key);
        }
    }
    lemma_settled(out, pairs);
}

} // verus!
