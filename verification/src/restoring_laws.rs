//! What a reset wrote is written again as it was.

use vstd::prelude::*;
use crate::config::{
    channels, color_text, entries, nick_list, Config, Decoded, GREATEST_SCALE, LEAST_SCALE,
};
use crate::config_laws::{
    card_restored, frames_restored, look_restored, nicknames_restored, no_old_keys, panel_restored,
    restored, says, spawn_restored, switches_restored, told, totals_restored, twitch_restored,
    viewers_restored, widget_card_restored, widget_restored, written_values_are_restored,
};
use crate::ini::{assigned, file_assignments, rewritten, setting_line};
use crate::ini_laws::{
    closed_piece, flat, lemma_lines_as_pieces, lemma_pieces_flat, lemma_setting_line, writable_key,
    writable_value,
};
use crate::reset_laws::{
    a_reset_is_read_back, host_reads_back, no_key_is_written_twice, saved_pairs, texts_of_values,
};
use crate::scalar::Scalar;
use crate::text::{join, pieces, texts};
use crate::values::ShownText;

verus! {

/// The scale of the panel is one that the file can hold.
pub open spec fn scale_in_bounds(w: Config) -> bool {
    !w.ui_scale.is_nan() && w.ui_scale.bounded(
        Scalar { bits: LEAST_SCALE },
        Scalar { bits: GREATEST_SCALE },
    ) == w.ui_scale
}

/// The lists of nicknames are as a file gives them.
pub open spec fn lists_read_as_themselves(w: Config) -> bool {
    &&& nick_list(join(texts(w.viewer_block@), ","@)) == texts(w.viewer_block@)
    &&& nick_list(join(texts(w.viewer_bots_off@), ","@)) == texts(w.viewer_bots_off@)
    &&& nick_list(join(texts(w.viewer_bots_extra@), ","@)) == texts(w.viewer_bots_extra@)
}

proof fn lemma_color_text(a: [u8; 4], b: [u8; 4])
    requires
        channels(a) == channels(b),
    ensures
        color_text(a) == color_text(b),
{
}

proof fn lemma_switches_again(c: Config, w: Config, v: Seq<(Seq<char>, ShownText)>)
    requires
        switches_restored(c, w),
    ensures
        c.switches_values(v) == w.switches_values(v),
{
}

proof fn lemma_totals_again(c: Config, w: Config, v: Seq<(Seq<char>, ShownText)>)
    requires
        totals_restored(c, w),
    ensures
        c.totals_values(v) == w.totals_values(v),
{
}

proof fn lemma_frames_again(c: Config, w: Config, v: Seq<(Seq<char>, ShownText)>)
    requires
        frames_restored(c, w),
    ensures
        c.frames_values(v) == w.frames_values(v),
{
}

proof fn lemma_widget_again(c: Config, w: Config, v: Seq<(Seq<char>, ShownText)>)
    requires
        widget_restored(c, w),
    ensures
        c.widget_values(v) == w.widget_values(v),
{
}

proof fn lemma_widget_card_again(c: Config, w: Config, v: Seq<(Seq<char>, ShownText)>)
    requires
        widget_card_restored(c, w),
    ensures
        c.widget_card_values(v) == w.widget_card_values(v),
{
}

proof fn lemma_panel_again(c: Config, w: Config, v: Seq<(Seq<char>, ShownText)>)
    requires
        panel_restored(c, w),
        scale_in_bounds(w),
    ensures
        c.panel_values(v) == w.panel_values(v),
{
}

proof fn lemma_card_again(c: Config, w: Config, v: Seq<(Seq<char>, ShownText)>)
    requires
        card_restored(c, w),
    ensures
        c.card_values(v) == w.card_values(v),
{
}

proof fn lemma_look_again(c: Config, w: Config, v: Seq<(Seq<char>, ShownText)>)
    requires
        look_restored(c, w),
    ensures
        c.look_values(v) == w.look_values(v),
{
    lemma_color_text(c.accent_color, w.accent_color);
    lemma_color_text(c.label_color, w.label_color);
    lemma_color_text(c.value_color, w.value_color);
}

proof fn lemma_twitch_again(c: Config, w: Config, v: Seq<(Seq<char>, ShownText)>)
    requires
        twitch_restored(c, w),
    ensures
        c.twitch_values(v) == w.twitch_values(v),
{
}

proof fn lemma_nicknames_again(c: Config, w: Config, v: Seq<(Seq<char>, ShownText)>)
    requires
        nicknames_restored(c, w),
    ensures
        c.nicknames_values(v) == w.nicknames_values(v),
{
}

proof fn lemma_viewers_again(c: Config, w: Config, v: Seq<(Seq<char>, ShownText)>)
    requires
        viewers_restored(c, w),
        lists_read_as_themselves(w),
    ensures
        c.viewers_values(v) == w.viewers_values(v),
{
    lemma_color_text(c.enemy_tag_color, w.enemy_tag_color);
}

proof fn lemma_spawn_again(c: Config, w: Config, v: Seq<(Seq<char>, ShownText)>)
    requires
        spawn_restored(c, w),
    ensures
        c.spawn_values(v) == w.spawn_values(v),
{
}

/// Settings that were restored would be written again as they were: every key has the same
/// value, if the scale and the lists of nicknames are such as a file gives.
pub proof fn what_was_restored_is_written_again(c: Config, w: Config)
    requires
        restored(c, w),
        scale_in_bounds(w),
        lists_read_as_themselves(w),
    ensures
        c.shown_values() == w.shown_values(),
{
    let v0 = Seq::<(Seq<char>, ShownText)>::empty();
    lemma_switches_again(c, w, v0);
    let v1 = w.switches_values(v0);
    lemma_totals_again(c, w, v1);
    let v2 = w.totals_values(v1);
    lemma_frames_again(c, w, v2);
    let v3 = w.frames_values(v2);
    lemma_widget_again(c, w, v3);
    let v4 = w.widget_values(v3);
    lemma_widget_card_again(c, w, v4);
    let v5 = w.widget_card_values(v4);
    lemma_panel_again(c, w, v5);
    let v6 = w.panel_values(v5);
    lemma_card_again(c, w, v6);
    let v7 = w.card_values(v6);
    lemma_look_again(c, w, v7);
    let v8 = w.look_values(v7);
    lemma_twitch_again(c, w, v8);
    let v9 = w.twitch_values(v8);
    lemma_nicknames_again(c, w, v9);
    let v10 = w.nicknames_values(v9);
    lemma_viewers_again(c, w, v10);
    let v11 = w.viewers_values(v10);
    lemma_spawn_again(c, w, v11);
}

/// A reset is read back as it was: the settings that come out of the file it was saved to
/// have every value of it, under every key.
pub proof fn a_reset_is_written_again(
    w: Config,
    before: Config,
    c: Config,
    text: Seq<char>,
    written: Seq<Seq<char>>,
    decoded: Seq<Decoded>,
    names: Seq<Seq<char>>,
)
    requires
        texts_of_values(w, written),
        host_reads_back(w, written, rewritten(text, saved_pairs(w, written)), decoded),
        no_old_keys(entries(rewritten(text, saved_pairs(w, written)), decoded)),
        c.follows(before, entries(rewritten(text, saved_pairs(w, written)), decoded), names),
        scale_in_bounds(w),
        lists_read_as_themselves(w),
    ensures
        c.shown_values() == w.shown_values(),
{
    a_reset_is_read_back(w, before, c, text, written, decoded, names);
    what_was_restored_is_written_again(c, w);
}

// ---------------------------------------------------------------------------
// A file of nothing else
// ---------------------------------------------------------------------------

/// A file of one line for each pair.
pub open spec fn listed(pairs: Seq<(Seq<char>, Seq<char>)>) -> Seq<char>
    decreases pairs.len(),
{
    if pairs.len() == 0 {
        Seq::empty()
    } else {
        listed(pairs.drop_last()) + setting_line(pairs.last().0, pairs.last().1).push('\n')
    }
}

spec fn listed_pieces(pairs: Seq<(Seq<char>, Seq<char>)>) -> Seq<Seq<char>> {
    pairs.map_values(|p: (Seq<char>, Seq<char>)| setting_line(p.0, p.1) + seq!['\n'])
}

proof fn lemma_listed(pairs: Seq<(Seq<char>, Seq<char>)>)
    requires
        forall|i: int|
            0 <= i < pairs.len() ==> writable_key((#[trigger] pairs[i]).0) && writable_value(
                pairs[i].1,
            ),
    ensures
        listed(pairs) == flat(listed_pieces(pairs)),
        assigned(listed_pieces(pairs)) == pairs,
        forall|i: int| 0 <= i < pairs.len() ==> closed_piece(#[trigger] listed_pieces(pairs)[i]),
    decreases pairs.len(),
{
    let ps = listed_pieces(pairs);
    if pairs.len() > 0 {
        let front = pairs.drop_last();
        let last = pairs.last();
        assert(pairs[pairs.len() - 1] == last);
        assert forall|i: int| 0 <= i < front.len() implies writable_key((#[trigger] front[i]).0)
            && writable_value(front[i].1) by {
            assert(front[i] == pairs[i]);
        }
        lemma_listed(front);
        lemma_setting_line(last.0, last.1, seq!['\n']);
        assert(setting_line(last.0, last.1) + seq!['\n'] == setting_line(last.0, last.1).push(
            '\n',
        ));
        assert(ps.drop_last() == listed_pieces(front));
        assert(front.push(last) == pairs);
        assert forall|i: int| 0 <= i < pairs.len() implies closed_piece(#[trigger] ps[i]) by {
            if i < front.len() {
                assert(ps[i] == listed_pieces(front)[i]);
            }
        }
    }
}

/// A file of one line for each pair assigns exactly the pairs.
pub proof fn a_listed_file_assigns_its_pairs(pairs: Seq<(Seq<char>, Seq<char>)>)
    requires
        forall|i: int|
            0 <= i < pairs.len() ==> writable_key((#[trigger] pairs[i]).0) && writable_value(
                pairs[i].1,
            ),
    ensures
        file_assignments(listed(pairs)) == pairs,
{
    let ps = listed_pieces(pairs);
    lemma_listed(pairs);
    lemma_pieces_flat(ps, Seq::empty());
    assert(flat(ps) + Seq::<char>::empty() == flat(ps));
    assert(ps + pieces(Seq::<char>::empty(), '\n') == ps);
    lemma_lines_as_pieces(ps);
}

/// All the values of some settings, written one to a line, are read back into any others:
/// under every key they have the same value then.
pub proof fn all_values_read_back(
    w: Config,
    before: Config,
    c: Config,
    written: Seq<Seq<char>>,
    decoded: Seq<Decoded>,
    names: Seq<Seq<char>>,
)
    requires
        texts_of_values(w, written),
        host_reads_back(w, written, listed(saved_pairs(w, written)), decoded),
        c.follows(before, entries(listed(saved_pairs(w, written)), decoded), names),
        scale_in_bounds(w),
        lists_read_as_themselves(w),
    ensures
        c.shown_values() == w.shown_values(),
{
    let vs = w.shown_values();
    let pairs = saved_pairs(w, written);
    let es = entries(listed(pairs), decoded);
    no_key_is_written_twice(w);
    assert forall|i: int| 0 <= i < pairs.len() implies writable_key((#[trigger] pairs[i]).0)
        && writable_value(pairs[i].1) by {
        assert(writable_key(vs[i].0));
        assert(writable_value(written[i]));
    }
    a_listed_file_assigns_its_pairs(pairs);
    assert(no_old_keys(es)) by {
        assert forall|i: int| 0 <= i < es.len() implies (#[trigger] es[i]).key != "title_size"@
            && es[i].key != "spawn_block_in_boss"@ by {
            assert(es[i].key == vs[i].0);
        }
    }
    assert forall|i: int| 0 <= i < vs.len() implies told(es, (#[trigger] vs[i]).0, vs[i].1) by {
        reveal(told);
        assert(es[i].key == vs[i].0);
        assert forall|k: int| 0 <= k < es.len() && (#[trigger] es[k]).key == vs[i].0 implies says(
            es[k],
            vs[i].1,
        ) by {
            assert(es[k].key == vs[k].0);
            assert(k == i) by {
                if k < i {
                    assert(vs[k].0 != vs[i].0);
                } else if i < k {
                    assert(vs[i].0 != vs[k].0);
                }
            }
            assert(file_assignments(listed(pairs))[k] == (vs[i].0, written[i]));
            assert(writable_value(written[i]));
        }
    }
    written_values_are_restored(c, w, before, es, names);
    what_was_restored_is_written_again(c, w);
}

} // verus!
