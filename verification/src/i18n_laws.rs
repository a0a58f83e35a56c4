//! What an update keeps and adds in the file of a language.

use vstd::prelude::*;
use crate::i18n::{
    file_pairs, has_pair, is_own_key, lacking, locale_entries, locale_line, locale_lines,
    translations, unmarked, updated,
};
use crate::ini::setting_line;
use crate::ini_laws::{
    closed_piece, flat, lemma_flat_concat, lemma_pieces_flat, lemma_pieces_shape,
    lemma_setting_one_line, lemma_setting_trimmed, lemma_trim_end_is_prefix, lemma_trim_push,
    lemma_trim_start_is_suffix, one_line,
};
use crate::text::{
    first_at, is_white, lemma_first_at, line_body, lines, pieces, starts_with, trim, trim_end,
    trim_start,
};

verus! {

/// A translation that a line can hold.
spec fn writable_pair(k: Seq<char>, v: Seq<char>) -> bool {
    &&& one_line(k) && one_line(v)
    &&& trim(k) == k && trim(v) == v
    &&& k.len() > 0 && v.len() > 0
    &&& (forall|i: int| 0 <= i < k.len() ==> #[trigger] k[i] != '=')
    &&& !starts_with(k, ';')
    &&& !starts_with(k, '[')
    &&& !starts_with(k, '\u{feff}')
    &&& !is_own_key(k)
}

proof fn lemma_trim_twice(s: Seq<char>)
    ensures
        trim(trim(s)) == trim(s),
        trim(s).len() > 0 ==> !is_white(trim(s)[0]),
{
    let a = lemma_trim_start_is_suffix(s);
    let t = trim_start(s);
    let b = lemma_trim_end_is_prefix(t);
    let u = trim(s);
    assert(u == t.take(b));
    if u.len() > 0 {
        assert(u[0] == t[0]);
        assert(trim_start(u) == u);
        assert(u[u.len() - 1] == t[b - 1]);
        assert(trim_end(u) == u);
    }
}

proof fn lemma_unmarked_push(s: Seq<char>, w: char)
    requires
        is_white(w),
    ensures
        trim(unmarked(s.push(w))) == trim(unmarked(s)),
    decreases s.len(),
{
    let t = s.push(w);
    if s.len() == 0 {
        lemma_trim_push(s, w);
        assert(unmarked(s) == s);
        assert(t[0] == w);
        assert(unmarked(t) == t);
    } else if s[0] == '\u{feff}' {
        assert(t.skip(1) == s.skip(1).push(w));
        lemma_unmarked_push(s.skip(1), w);
    } else {
        lemma_trim_push(s, w);
    }
}

/// The line ending does not matter to what a line says.
proof fn lemma_closing_keeps(p: Seq<char>)
    requires
        one_line(p),
    ensures
        locale_line(line_body(p.push('\n'))) == locale_line(line_body(p)),
{
    assert(p.push('\n').drop_last() == p);
    assert(line_body(p) == p) by {
        if p.len() > 0 {
            assert(p[p.len() - 1] != '\n');
        }
    }
    if p.len() > 0 && p.last() == '\r' {
        assert(p == p.drop_last().push('\r'));
        lemma_unmarked_push(p.drop_last(), '\r');
    }
}

proof fn lemma_unmarked_is_suffix(s: Seq<char>) -> (k: int)
    ensures
        0 <= k <= s.len(),
        unmarked(s) == s.skip(k),
    decreases s.len(),
{
    if starts_with(s, '\u{feff}') {
        let k = lemma_unmarked_is_suffix(s.skip(1));
        assert(s.skip(1).skip(k) == s.skip(k + 1));
        k + 1
    } else {
        assert(s.skip(0) == s);
        0
    }
}

/// What a line says can be written on a line again.
proof fn lemma_said_is_writable(l: Seq<char>)
    requires
        one_line(l),
        locale_line(l) is Some,
        !starts_with(locale_line(l).unwrap().0, '\u{feff}'),
        !is_own_key(locale_line(l).unwrap().0),
    ensures
        writable_pair(locale_line(l).unwrap().0, locale_line(l).unwrap().1),
{
    let a = lemma_unmarked_is_suffix(l);
    let s = unmarked(l);
    let b = lemma_trim_start_is_suffix(s);
    let c = lemma_trim_end_is_prefix(trim_start(s));
    let t = trim(s);
    lemma_trim_twice(s);
    lemma_first_at(t, '=');
    let i = first_at(t, '=');
    assert forall|j: int| 0 <= j < t.len() implies #[trigger] t[j] != '\n' by {
        assert(t[j] == l[a + b + j]);
    }
    let (x, y) = (t.take(i), t.skip(i + 1));
    let k = trim(x);
    let v = trim(y);
    lemma_trim_twice(x);
    lemma_trim_twice(y);
    let (x1, x2) = (lemma_trim_start_is_suffix(x), lemma_trim_end_is_prefix(trim_start(x)));
    let (y1, y2) = (lemma_trim_start_is_suffix(y), lemma_trim_end_is_prefix(trim_start(y)));
    assert forall|j: int| 0 <= j < k.len() implies #[trigger] k[j] != '\n' && k[j] != '=' by {
        assert(k[j] == x[x1 + j]);
        assert(x[x1 + j] == t[x1 + j]);
    }
    assert forall|j: int| 0 <= j < v.len() implies #[trigger] v[j] != '\n' by {
        assert(v[j] == y[y1 + j]);
        assert(y[y1 + j] == t[i + 1 + y1 + j]);
    }
    // The key begins as the line does.
    assert(i > 0) by {
        if i == 0 {
            assert(x.len() == 0);
        }
    }
    assert(x[0] == t[0]);
    assert(trim_start(x) == x);
    assert(k[0] == t[0]);
}

proof fn lemma_written_line(k: Seq<char>, v: Seq<char>)
    requires
        writable_pair(k, v),
    ensures
        closed_piece(setting_line(k, v).push('\n')),
        locale_line(line_body(setting_line(k, v).push('\n'))) == Some((k, v)),
{
    let line = setting_line(k, v);
    lemma_setting_one_line(k, v);
    lemma_setting_trimmed(k, v);
    assert(line.push('\n').drop_last() == line);
    lemma_closing_keeps(line);
    assert(line[0] == k[0]);
    assert(unmarked(line) == line);
    assert(line_body(line) == line) by {
        assert(line[line.len() - 1] != '\n');
    }
    lemma_first_at(trim(line), '=');
}

proof fn lemma_entries_concat(a: Seq<Seq<char>>, b: Seq<Seq<char>>)
    ensures
        locale_entries(a + b) == locale_entries(a) + locale_entries(b),
    decreases b.len(),
{
    if b.len() == 0 {
        assert(a + b == a);
        assert(locale_entries(a) + locale_entries(b) == locale_entries(a));
    } else {
        assert((a + b).drop_last() == a + b.drop_last());
        lemma_entries_concat(a, b.drop_last());
        match locale_line(b.last()) {
            Some(x) => {
                assert((locale_entries(a) + locale_entries(b.drop_last())).push(x)
                    == locale_entries(a) + locale_entries(b.drop_last()).push(x));
            },
            None => {},
        }
    }
}

proof fn lemma_translations_concat(
    a: Seq<(Seq<char>, Seq<char>)>,
    b: Seq<(Seq<char>, Seq<char>)>,
)
    ensures
        translations(a + b) == translations(a) + translations(b),
    decreases b.len(),
{
    if b.len() == 0 {
        assert(a + b == a);
        assert(translations(a) + translations(b) == translations(a));
    } else {
        assert((a + b).drop_last() == a + b.drop_last());
        lemma_translations_concat(a, b.drop_last());
        if !is_own_key(b.last().0) {
            assert((translations(a) + translations(b.drop_last())).push(b.last())
                == translations(a) + translations(b.drop_last()).push(b.last()));
        }
    }
}

/// The bodies of some pieces.
spec fn bodies(ps: Seq<Seq<char>>) -> Seq<Seq<char>> {
    ps.map_values(|p: Seq<char>| line_body(p))
}

/// The added lines as pieces.
proof fn lemma_added_pieces(ms: Seq<(Seq<char>, Seq<char>)>) -> (ps: Seq<Seq<char>>)
    requires
        forall|i: int| 0 <= i < ms.len() ==> writable_pair((#[trigger] ms[i]).0, ms[i].1),
    ensures
        flat(ps) == locale_lines(ms),
        forall|i: int| 0 <= i < ps.len() ==> closed_piece(#[trigger] ps[i]),
        locale_entries(bodies(ps)) == ms,
        translations(ms) == ms,
    decreases ms.len(),
{
    if ms.len() == 0 {
        let ps = Seq::<Seq<char>>::empty();
        assert(bodies(ps) == ps);
        assert(locale_entries(ps) == ms);
        assert(translations(ms) == ms);
        ps
    } else {
        let front = ms.drop_last();
        let (k, v) = ms.last();
        assert(ms[ms.len() - 1] == (k, v));
        assert forall|i: int| 0 <= i < front.len() implies writable_pair(
            (#[trigger] front[i]).0,
            front[i].1,
        ) by {
            assert(front[i] == ms[i]);
        }
        let before = lemma_added_pieces(front);
        lemma_written_line(k, v);
        let line = setting_line(k, v).push('\n');
        let ps = before.push(line);
        assert(ps.drop_last() == before);
        assert(bodies(ps).drop_last() == bodies(before));
        assert(bodies(ps).last() == line_body(line));
        reveal_strlit(" = ");
        assert(" = "@ == seq![' ', '=', ' ']);
        assert(line == k + " = "@ + v + seq!['\n']);
        assert(flat(ps) == locale_lines(ms)) by {
            let a = locale_lines(front);
            assert(a + line == a + k + " = "@ + v + seq!['\n']);
        }
        assert(front.push((k, v)) == ms);
        ps
    }
}

/// Every translation of a file stands on one of its lines.
proof fn lemma_pair_has_line(ls: Seq<Seq<char>>, i: int) -> (j: int)
    requires
        0 <= i < translations(locale_entries(ls)).len(),
    ensures
        0 <= j < ls.len(),
        locale_line(ls[j]) == Some(translations(locale_entries(ls))[i]),
        !is_own_key(translations(locale_entries(ls))[i].0),
    decreases ls.len(),
{
    let front = ls.drop_last();
    match locale_line(ls.last()) {
        Some(e) => {
            let es = locale_entries(front);
            assert(es.push(e).drop_last() == es);
            if i < translations(es).len() {
                assert(translations(es.push(e))[i] == translations(es)[i]);
                let j = lemma_pair_has_line(front, i);
                assert(ls[j] == front[j]);
                j
            } else {
                ls.len() - 1
            }
        },
        None => {
            let j = lemma_pair_has_line(front, i);
            assert(ls[j] == front[j]);
            j
        },
    }
}

proof fn lemma_lacking_from(
    have: Seq<(Seq<char>, Seq<char>)>,
    ours: Seq<(Seq<char>, Seq<char>)>,
    i: int,
) -> (j: int)
    requires
        0 <= i < lacking(have, ours).len(),
    ensures
        0 <= j < ours.len(),
        ours[j] == lacking(have, ours)[i],
    decreases ours.len(),
{
    let front = ours.drop_last();
    if i < lacking(have, front).len() {
        let j = lemma_lacking_from(have, front, i);
        assert(ours[j] == front[j]);
        j
    } else {
        ours.len() - 1
    }
}

proof fn lemma_lacking_has(
    have: Seq<(Seq<char>, Seq<char>)>,
    ours: Seq<(Seq<char>, Seq<char>)>,
    i: int,
)
    requires
        0 <= i < ours.len(),
        !has_pair(have, ours[i].0),
    ensures
        has_pair(lacking(have, ours), ours[i].0),
    decreases ours.len(),
{
    let front = ours.drop_last();
    let out = lacking(have, ours);
    if i < front.len() {
        assert(front[i] == ours[i]);
        lemma_lacking_has(have, front, i);
        let j = choose|j: int|
            0 <= j < lacking(have, front).len() && (#[trigger] lacking(have, front)[j]).0
                == ours[i].0;
        assert(out[j] == lacking(have, front)[j]);
    } else {
        assert(out[out.len() - 1] == ours[i]);
    }
}

spec fn no_break(s: Seq<char>, from: int, to: int) -> bool
    decreases to - from,
{
    from >= to || (s[from] != '\n' && no_break(s, from + 1, to))
}

proof fn lemma_no_break(s: Seq<char>, from: int, to: int, i: int)
    requires
        no_break(s, from, to),
        from <= i < to,
    ensures
        s[i] != '\n',
    decreases to - from,
{
    if i > from {
        lemma_no_break(s, from + 1, to, i);
    }
}

/// What stands between the old text and the added lines: the end of a line, and a
/// comment.
proof fn lemma_note() -> (c: Seq<char>)
    ensures
        "\n; --- added by a mod update ---\n"@ == seq!['\n'] + c,
        closed_piece(c),
        locale_line(line_body(c)) is None,
        closed_piece(seq!['\n']),
        locale_line(line_body(seq!['\n'])) is None,
{
    let s = "\n; --- added by a mod update ---\n"@;
    reveal_strlit("\n; --- added by a mod update ---\n");
    let n: int = s.len() as int;
    let c = s.skip(1);
    assert(no_break(s, 1, n - 1)) by {
        reveal_with_fuel(no_break, 40);
    }
    assert(s[n - 1] == '\n');
    assert forall|i: int| 0 <= i < c.drop_last().len() implies #[trigger] c.drop_last()[i]
        != '\n' by {
        lemma_no_break(s, 1, n - 1, i + 1);
    }
    assert(c.last() == '\n');
    assert(s == seq!['\n'] + c);
    let b = line_body(c);
    assert(c.drop_last().last() == '-');
    assert(b == c.drop_last());
    assert(b[0] == ';');
    assert(unmarked(b) == b);
    assert(trim_start(b) == b);
    let z = lemma_trim_end_is_prefix(b);
    assert(trim(b)[0] == ';') by {
        if z == 0 {
            assert(is_white(b[0]));
        }
    }
    let e = seq!['\n'];
    assert(e.drop_last().len() == 0);
    assert(line_body(e).len() == 0);
    assert(unmarked(line_body(e)) == line_body(e));
    assert(trim(line_body(e)).len() == 0);
    c
}

/// An update loses nothing and brings everything: after it the file holds the
/// translations that it had, unchanged and in their order, and behind them those of the
/// built-in file that it lacked, so that every text of the built-in file is translated.
pub proof fn an_update_only_adds(disk: Seq<char>, built_in: Seq<char>)
    requires
        updated(disk, built_in) is Some,
        forall|i: int|
            0 <= i < file_pairs(built_in).len() ==> !starts_with(
                (#[trigger] file_pairs(built_in)[i]).0,
                '\u{feff}',
            ),
    ensures
        file_pairs(updated(disk, built_in).unwrap()) == file_pairs(disk) + lacking(
            file_pairs(disk),
            file_pairs(built_in),
        ),
        forall|i: int|
            0 <= i < file_pairs(built_in).len() ==> has_pair(
                file_pairs(updated(disk, built_in).unwrap()),
                (#[trigger] file_pairs(built_in)[i]).0,
            ),
{
    let have = file_pairs(disk);
    let ours = file_pairs(built_in);
    let ms = lacking(have, ours);
    let out = updated(disk, built_in).unwrap();
    // What is added can be written.
    assert forall|i: int| 0 <= i < ms.len() implies writable_pair(
        (#[trigger] ms[i]).0,
        ms[i].1,
    ) by {
        let j = lemma_lacking_from(have, ours, i);
        let ls = lines(built_in);
        let k = lemma_pair_has_line(ls, j);
        assert(one_line(ls[k])) by {
            lemma_line_is_one(built_in, k);
        }
        lemma_said_is_writable(ls[k]);
    }
    let ps = lemma_added_pieces(ms);
    let c = lemma_note();
    let old_pieces = pieces(disk, '\n');
    lemma_pieces_shape(disk);
    let nl = seq!['\n'];
    let none = Seq::<(Seq<char>, Seq<char>)>::empty();
    let open = old_pieces.len() > 0 && !closed_piece(old_pieces.last());
    // The pieces of the new text.
    let start = if open {
        old_pieces.drop_last().push(old_pieces.last() + nl)
    } else {
        old_pieces.push(nl)
    };
    assert forall|i: int| 0 <= i < start.len() implies closed_piece(#[trigger] start[i]) by {
        if i < old_pieces.len() - 1 {
            assert(closed_piece(old_pieces[i]));
        } else if open {
            assert((old_pieces.last() + nl).drop_last() == old_pieces.last());
        } else if i == old_pieces.len() - 1 {
            assert(start[i] == old_pieces.last());
        }
    }
    lemma_flat_of_pieces(disk);
    assert(flat(start) == disk + nl) by {
        if open {
            assert(start.drop_last() == old_pieces.drop_last());
            assert(flat(old_pieces) == flat(old_pieces.drop_last()) + old_pieces.last());
            assert(flat(start) == disk + nl);
        } else {
            assert(start.drop_last() == old_pieces);
        }
    }
    let all = start + seq![c] + ps;
    lemma_flat_concat(start, seq![c]);
    lemma_flat_concat(start + seq![c], ps);
    assert(flat(seq![c]) == c) by {
        assert(seq![c].drop_last() == Seq::<Seq<char>>::empty());
        assert(flat(Seq::<Seq<char>>::empty()) == Seq::<char>::empty());
        assert(Seq::<char>::empty() + c == c);
    }
    assert(flat(all) == out) by {
        assert(disk + nl + c == disk + (nl + c));
    }
    assert forall|i: int| 0 <= i < all.len() implies closed_piece(#[trigger] all[i]) by {
        if i < start.len() {
            assert(all[i] == start[i]);
        } else if i == start.len() {
            assert(all[i] == c);
        } else {
            assert(all[i] == ps[i - start.len() - 1]);
        }
    }
    lemma_pieces_flat(all, Seq::empty());
    assert(flat(all) + Seq::<char>::empty() == flat(all));
    assert(all + pieces(Seq::<char>::empty(), '\n') == all);
    assert(pieces(out, '\n') == all);
    // What they say.
    let old_lines = lines(disk);
    assert(lines(out) == bodies(start) + seq![line_body(c)] + bodies(ps));
    lemma_entries_concat(bodies(start) + seq![line_body(c)], bodies(ps));
    lemma_entries_concat(bodies(start), seq![line_body(c)]);
    assert(locale_entries(seq![line_body(c)]) == none) by {
        assert(seq![line_body(c)].drop_last() == Seq::<Seq<char>>::empty());
        assert(locale_entries(Seq::<Seq<char>>::empty()) == none);
    }
    assert(locale_entries(bodies(start)) == locale_entries(old_lines)) by {
        if open {
            let p = old_pieces.last();
            lemma_closing_keeps(p);
            assert(p + nl == p.push('\n'));
            assert(bodies(start).drop_last() == old_lines.drop_last());
            assert(bodies(start).last() == line_body(p.push('\n')));
            assert(old_lines.last() == line_body(p));
        } else {
            assert(bodies(start).drop_last() == old_lines);
            assert(bodies(start).last() == line_body(nl));
        }
    }
    assert(locale_entries(old_lines) + none == locale_entries(old_lines));
    assert(locale_entries(lines(out)) == locale_entries(old_lines) + ms);
    lemma_translations_concat(locale_entries(old_lines), ms);
    assert forall|i: int| 0 <= i < ours.len() implies has_pair(
        file_pairs(out),
        (#[trigger] ours[i]).0,
    ) by {
        let key = ours[i].0;
        if has_pair(have, key) {
            let j = choose|j: int| 0 <= j < have.len() && (#[trigger] have[j]).0 == key;
            assert(file_pairs(out)[j] == have[j]);
        } else {
            lemma_lacking_has(have, ours, i);
            let j = choose|j: int| 0 <= j < ms.len() && (#[trigger] ms[j]).0 == key;
            assert(file_pairs(out)[have.len() + j] == ms[j]);
        }
    }
}

proof fn lemma_line_is_one(text: Seq<char>, k: int)
    requires
        0 <= k < lines(text).len(),
    ensures
        one_line(lines(text)[k]),
{
    lemma_pieces_shape(text);
    let ps = pieces(text, '\n');
    let p = ps[k];
    assert(closed_piece(p) || one_line(p)) by {
        if k == ps.len() - 1 {
            assert(p == ps.last());
        }
    }
    let b = lines(text)[k];
    assert(b == line_body(p));
    assert forall|i: int| 0 <= i < b.len() implies #[trigger] b[i] != '\n' by {
        if closed_piece(p) {
            assert(p.drop_last()[i] != '\n');
            assert(b[i] == p[i]);
        } else {
            assert(p[p.len() - 1] != '\n');
            assert(b[i] == p[i]);
        }
    }
}

/// The pieces of a text are all of it.
pub proof fn lemma_flat_of_pieces(s: Seq<char>)
    ensures
        flat(pieces(s, '\n')) == s,
    decreases s.len(),
{
    lemma_first_at(s, '\n');
    if s.len() > 0 {
        let k = first_at(s, '\n');
        if k < s.len() {
            let p = s.take(k + 1);
            let rest = s.skip(k + 1);
            lemma_flat_of_pieces(rest);
            lemma_flat_concat(seq![p], pieces(rest, '\n'));
            assert(flat(seq![p]) == p) by {
                assert(seq![p].drop_last() == Seq::<Seq<char>>::empty());
                assert(flat(Seq::<Seq<char>>::empty()) == Seq::<char>::empty());
                assert(Seq::<char>::empty() + p == p);
            }
            assert(p + rest == s);
        } else {
            assert(seq![s].drop_last() == Seq::<Seq<char>>::empty());
            assert(flat(Seq::<Seq<char>>::empty()) == Seq::<char>::empty());
            assert(Seq::<char>::empty() + s == s);
        }
    }
}

} // verus!
