//! Two settings files put one after the other.

use vstd::prelude::*;
use crate::config::{entries, is_last, last, Config, Decoded, Entry};
use crate::i18n_laws::lemma_flat_of_pieces;
use crate::ini::{assigned, assignment, file_assignments};
use crate::ini_laws::{
    closed_piece, flat, lemma_assigned_concat, lemma_lines_as_pieces, lemma_pieces_closed,
    lemma_pieces_flat, lemma_pieces_shape, lemma_trim_push,
};
use crate::text::{is_white, pieces, trim, trim_start};

verus! {

/// Two texts with a line break between them.
pub open spec fn joined(a: Seq<char>, b: Seq<char>) -> Seq<char> {
    a.push('\n') + b
}

/// Two texts with a line break between them assign what the first assigns and then what the
/// second does.
pub proof fn joined_texts_assign_in_turn(a: Seq<char>, b: Seq<char>)
    ensures
        file_assignments(joined(a, b)) == file_assignments(a) + file_assignments(b),
{
    let ps = pieces(a, '\n');
    let qs = pieces(b, '\n');
    let os = pieces(joined(a, b), '\n');
    lemma_pieces_shape(a);
    lemma_flat_of_pieces(a);
    lemma_lines_as_pieces(ps);
    lemma_lines_as_pieces(qs);
    lemma_lines_as_pieces(os);
    if ps.len() == 0 || closed_piece(ps.last()) {
        // The break makes a blank line.
        let blank = seq!['\n'];
        assert(closed_piece(blank)) by {
            assert(blank.drop_last().len() == 0);
        }
        assert forall|i: int| 0 <= i < ps.len() implies closed_piece(#[trigger] ps[i]) by {
            if i == ps.len() - 1 {
                assert(ps[i] == ps.last());
            }
        }
        assert(joined(a, b) == a + (blank + b));
        lemma_pieces_flat(ps, blank + b);
        lemma_pieces_closed(blank, b);
        assert(os == ps + (seq![blank] + qs));
        lemma_assigned_concat(ps, seq![blank] + qs);
        lemma_assigned_concat(seq![blank], qs);
        assert(assignment(blank) is None) by {
            assert(is_white(blank[0]));
            assert(blank.skip(1).len() == 0);
            assert(trim_start(blank.skip(1)).len() == 0);
            assert(trim(blank).len() == 0);
        }
        assert(seq![blank].drop_last().len() == 0);
        assert(assigned(seq![blank].drop_last()).len() == 0);
        assert(assigned(seq![blank]).len() == 0);
        assert(assigned(seq![blank]) + assigned(qs) == assigned(qs));
    } else {
        // The break ends the last line.
        let front = ps.drop_last();
        let p = ps.last();
        let closed = p.push('\n');
        assert(closed.drop_last() == p);
        assert(closed_piece(closed));
        assert forall|i: int| 0 <= i < front.len() implies closed_piece(#[trigger] front[i]) by {
            assert(front[i] == ps[i]);
        }
        assert(joined(a, b) == flat(front) + (closed + b));
        lemma_pieces_flat(front, closed + b);
        lemma_pieces_closed(closed, b);
        assert(os == front.push(closed) + qs);
        lemma_assigned_concat(front.push(closed), qs);
        lemma_trim_push(p, '\n');
        assert(assignment(closed) == assignment(p));
        assert(front.push(closed).drop_last() == front);
        assert(assigned(front.push(closed)) == assigned(ps));
    }
}

proof fn lemma_last_concat<T>(
    es: Seq<Entry>,
    fs: Seq<Entry>,
    read: spec_fn(Entry) -> Option<T>,
    before: T,
)
    ensures
        last(es + fs, read, before) == last(fs, read, last(es, read, before)),
    decreases fs.len(),
{
    reveal(last);
    if fs.len() == 0 {
        assert(es + fs == es);
    } else {
        assert((es + fs).drop_last() == es + fs.drop_last());
        assert((es + fs).last() == fs.last());
        lemma_last_concat(es, fs.drop_last(), read, before);
    }
}

broadcast proof fn is_last_of_both<T>(
    c: T,
    b: T,
    a: T,
    es: Seq<Entry>,
    fs: Seq<Entry>,
    read: spec_fn(Entry) -> Option<T>,
)
    requires
        #[trigger] is_last(b, es, read, a),
        is_last(c, fs, read, b),
    ensures
        #[trigger] is_last(c, es + fs, read, a),
{
    reveal(is_last);
    lemma_last_concat(es, fs, read, a);
}

broadcast proof fn is_last_of_second<T>(
    c: T,
    b: T,
    a: T,
    es: Seq<Entry>,
    fs: Seq<Entry>,
    read: spec_fn(Entry) -> Option<T>,
)
    requires
        #[trigger] is_last(b, es, read, a),
        #[trigger] is_last(c, es + fs, read, a),
    ensures
        is_last(c, fs, read, b),
{
    reveal(is_last);
    lemma_last_concat(es, fs, read, a);
}

proof fn lemma_follows_both(
    c: Config,
    b: Config,
    a: Config,
    es: Seq<Entry>,
    fs: Seq<Entry>,
    names: Seq<Seq<char>>,
)
    requires
        b.follows(a, es, names),
        c.follows(b, fs, names),
    ensures
        c.follows(a, es + fs, names),
{
    broadcast use is_last_of_both;

}

proof fn lemma_follows_second(
    c: Config,
    b: Config,
    a: Config,
    es: Seq<Entry>,
    fs: Seq<Entry>,
    names: Seq<Seq<char>>,
)
    requires
        b.follows(a, es, names),
        c.follows(a, es + fs, names),
    ensures
        c.follows(b, fs, names),
{
    broadcast use is_last_of_second;

}

/// One file of two texts with a line break between them makes of the settings exactly what
/// the two texts make of them in turn.
pub proof fn joined_files_apply_in_turn(
    before: Config,
    between: Config,
    after: Config,
    a: Seq<char>,
    da: Seq<Decoded>,
    b: Seq<char>,
    db: Seq<Decoded>,
    names: Seq<Seq<char>>,
)
    requires
        da.len() == file_assignments(a).len(),
        db.len() == file_assignments(b).len(),
        between.follows(before, entries(a, da), names),
    ensures
        (da + db).len() == file_assignments(joined(a, b)).len(),
        after.follows(before, entries(joined(a, b), da + db), names) <==> after.follows(
            between,
            entries(b, db),
            names,
        ),
{
    joined_texts_assign_in_turn(a, b);
    let es = entries(a, da);
    let fs = entries(b, db);
    assert(entries(joined(a, b), da + db) == es + fs);
    if after.follows(between, fs, names) {
        lemma_follows_both(after, between, before, es, fs, names);
    }
    if after.follows(before, es + fs, names) {
        lemma_follows_second(after, between, before, es, fs, names);
    }
}

} // verus!
