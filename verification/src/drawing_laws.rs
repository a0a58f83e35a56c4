//! What holds of the parts of the panel, of the purchase cards and of the list of allies.

use vstd::prelude::*;
use crate::config::Layout;
use crate::i18n::{translated, Locales};
use crate::labels::{clipped_text, uppercase};
use crate::layout::{
    ally_shown, boss_rows, cell_rows, columns, debug_text, fight_block, fights, head, list,
    list_rows, newest, panel_parts, Ally, AllyRow, ContentText, Ink, PartText, PieceText, Space,
    ToastText,
};
use crate::panel::{ally_name, right_of, ItemText};
use crate::scalar::Scalar;
use crate::text::{first_at, join, lemma_first_at, lines};
use crate::till::PurchaseEvent;

verus! {

/// The panel is there exactly if there is a metric, the counter or a fight to show: the
/// nearest boss alone does not bring it up.
pub proof fn when_there_is_a_panel(ct: ContentText, layout: Layout, bar: bool, l: Locales)
    ensures
        (ct.items.len() == 0 && ct.progress is None && ct.boss is None && ct.fight.len() == 0)
            ==> panel_parts(ct, layout, bar, l).len() == 0,
        (ct.items.len() > 0 || ct.progress is Some) ==> panel_parts(ct, layout, bar, l).len() > 0,
        ct.fight.len() > 0 ==> panel_parts(ct, layout, bar, l).len() > 0,
{
    lemma_cells(ct.items, Ink::Metric);
    lemma_cells(ct.fight, Ink::Fight);
}

proof fn lemma_cells(items: Seq<ItemText>, ink: Ink)
    ensures
        cell_rows(items, ink).len() == (items.len() + 1) / 2,
    decreases items.len(),
{
    if items.len() > 1 {
        lemma_cells(items.skip(2), ink);
    }
}

/// In two columns the metrics stand two by two: every even one on the left, the one after it
/// on its right, each above its own label.
pub proof fn metrics_stand_two_by_two(items: Seq<ItemText>, ink: Ink, k: int)
    requires
        0 <= 2 * k < items.len(),
    ensures
        cell_rows(items, ink).len() == (items.len() + 1) / 2,
        ({
            let left = (items[2 * k].label, items[2 * k].value);
            &&& 2 * k + 1 < items.len() ==> cell_rows(items, ink)[k] == PartText::Cells(
                seq![left, (items[2 * k + 1].label, items[2 * k + 1].value)],
                ink,
            )
            &&& 2 * k + 1 == items.len() ==> cell_rows(items, ink)[k] == PartText::Cells(
                seq![left],
                ink,
            )
        }),
    decreases items.len(),
{
    lemma_cells(items, ink);
    if k > 0 {
        let rest = items.skip(2);
        metrics_stand_two_by_two(rest, ink, k - 1);
        assert(rest[2 * (k - 1)] == items[2 * k]);
        if 2 * k + 1 < items.len() {
            assert(rest[2 * (k - 1) + 1] == items[2 * k + 1]);
        }
        assert(cell_rows(items, ink)[k] == cell_rows(rest, ink)[k - 1]);
    }
}

/// In a list every metric is a row of its own, in order, with its label and its value.
pub proof fn every_metric_is_a_row(items: Seq<ItemText>, ink: Ink, last: Space, k: int)
    requires
        0 <= k < items.len(),
    ensures
        list_rows(items, ink, last).len() == items.len(),
        k < items.len() - 1 ==> list_rows(items, ink, last)[k] == PartText::Row(
            lines(items[k].label),
            items[k].value,
            ink,
            Space::Line,
        ),
        k == items.len() - 1 ==> list_rows(items, ink, last)[k] == PartText::Row(
            lines(items[k].label),
            items[k].value,
            ink,
            last,
        ),
{
}

/// Where the metrics stand in the panel: above them what belongs to the nearest boss and the
/// counter, below them the fight.
pub proof fn the_order_of_the_panel(ct: ContentText, bar: bool, l: Locales, k: int)
    requires
        0 <= 2 * k < ct.items.len(),
    ensures
        ({
            let near: int = if ct.nearest is Some {
                2
            } else {
                0
            };
            let counter: int = if ct.progress is None {
                0
            } else if bar {
                2
            } else {
                1
            };
            let two = panel_parts(ct, Layout::A, bar, l);
            let one = panel_parts(ct, Layout::D, bar, l);
            &&& two[near + counter + k] == cell_rows(ct.items, Ink::Metric)[k]
            &&& one[near + counter + k] matches PartText::Row(label, value, ink, _) && label
                == lines(ct.items[k].label) && value == ct.items[k].value && ink == Ink::Metric
        }),
{
    lemma_cells(ct.items, Ink::Metric);
    let last = if fights(ct) {
        Space::Line
    } else {
        Space::Nothing
    };
    let rows = list_rows(ct.items, Ink::Metric, last);
    every_metric_is_a_row(ct.items, Ink::Metric, last, k);
    let n: int = head(ct, bar, l).len() as int;
    assert(columns(ct, bar, l)[n + k] == cell_rows(ct.items, Ink::Metric)[k]);
    assert(list(ct, bar, l)[n + k] == rows[k]);
}

/// The head of the panel: the nearest boss is the first row, with a rule below; then the
/// counter, split before its slash, and the bar with its two numbers if it is switched on.
pub proof fn the_head_of_the_panel(ct: ContentText, layout: Layout, bar: bool, l: Locales)
    requires
        layout != Layout::B,
        ct.items.len() > 0 || ct.progress is Some || ct.boss is Some || ct.fight.len() > 0,
    ensures
        ({
            let ps = panel_parts(ct, layout, bar, l);
            let near: int = if ct.nearest is Some {
                2
            } else {
                0
            };
            &&& ct.nearest matches Some(i) ==> {
                &&& ps.len() >= 2
                &&& ps[0] == PartText::Row(lines(i.label), i.value, Ink::Metric, Space::Section)
                &&& ps[1] == PartText::Rule
            }
            &&& ct.progress matches Some((text, killed, total)) ==> {
                &&& ps.len() > near
                &&& ps[near] matches PartText::Header(label, left, right) && label == translated(
                    l,
                    "BOSSES"@,
                ) && left + right == text && (forall|i: int|
                    0 <= i < left.len() ==> #[trigger] left[i] != '/') && (right.len() > 0
                    ==> right[0] == '/')
                &&& bar ==> ps.len() > near + 1 && ps[near + 1] == PartText::Bar(killed, total)
            }
        }),
{
    let h = head(ct, bar, l);
    let ps = panel_parts(ct, layout, bar, l);
    assert(ps.len() >= h.len());
    assert forall|i: int| 0 <= i < h.len() implies ps[i] == #[trigger] h[i] by {}
    if ct.nearest is Some {
        assert(ps[0] == h[0] && ps[1] == h[1]);
    }
    if ct.progress is Some {
        let text = ct.progress.unwrap().0;
        lemma_first_at(text, '/');
        let k = first_at(text, '/');
        assert(text.take(k) + text.skip(k) =~= text);
        let near: int = if ct.nearest is Some {
            2
        } else {
            0
        };
        assert(ps[near] == h[near]);
        if bar {
            assert(ps[near + 1] == h[near + 1]);
        }
    }
}

/// A bar is drawn only if it is switched on and there is a counter.
pub proof fn no_bar_unless_asked(ct: ContentText, layout: Layout, l: Locales, i: int)
    requires
        0 <= i < panel_parts(ct, layout, false, l).len(),
    ensures
        !(panel_parts(ct, layout, false, l)[i] is Bar),
{
    lemma_no_bar_in_cells(ct.items, Ink::Metric);
    lemma_no_bar_in_cells(ct.fight, Ink::Fight);
}

proof fn lemma_no_bar_in_cells(items: Seq<ItemText>, ink: Ink)
    ensures
        forall|i: int| 0 <= i < cell_rows(items, ink).len() ==> #[trigger] cell_rows(items, ink)[i]
            is Cells,
    decreases items.len(),
{
    if items.len() > 1 {
        lemma_no_bar_in_cells(items.skip(2), ink);
    }
}

/// The fight stands below everything else: each line of the boss's name in capitals, then the
/// metrics of the fight. A line parts it from what is above, if anything is.
pub proof fn the_fight_stands_below(ct: ContentText, cells: bool, i: int)
    requires
        ct.boss is Some || ct.fight.len() > 0,
        0 <= i < boss_rows(ct.boss).len(),
    ensures
        ({
            let fb = fight_block(ct, cells);
            let parted = ct.items.len() > 0 || ct.progress is Some;
            let d: int = if parted {
                1
            } else {
                0
            };
            &&& parted ==> fb[0] == PartText::Divider
            &&& boss_rows(ct.boss).len() == lines(ct.boss.unwrap()).len()
            &&& fb[d + i] matches PartText::BossName(name, _) && name == uppercase(
                lines(ct.boss.unwrap())[i],
            )
        }),
{
}

/// On the strip everything stands on one line, under its short label, after the counter; and a
/// fight on a second, after the boss's name.
pub proof fn everything_on_one_line(ct: ContentText, bar: bool, l: Locales, k: int)
    requires
        0 <= k < ct.items.len(),
    ensures
        ({
            let ps = panel_parts(ct, Layout::B, bar, l);
            let c: int = if ct.progress is Some {
                1
            } else {
                0
            };
            &&& ps.len() == if ct.boss is Some || ct.fight.len() > 0 {
                3nat
            } else {
                1nat
            }
            &&& ps[0] matches PartText::Strip(pieces, ink) && ink == Ink::Metric && pieces.len()
                == c + ct.items.len() && pieces[c + k] == PieceText::Pair(
                ct.items[k].short,
                ct.items[k].value,
            ) && (ct.progress matches Some((text, _, _)) ==> pieces[0] == PieceText::Counter(text))
            &&& ct.fight.len() > 0 ==> ps[1] == PartText::Divider && (ps[2] matches PartText::Strip(
                pieces,
                ink,
            ) && ink == Ink::Fight && pieces.len() == (if ct.boss is Some {
                1int
            } else {
                0
            }) + ct.fight.len() && pieces.last() == PieceText::Pair(
                ct.fight.last().short,
                ct.fight.last().value,
            ))
        }),
{
}

/// The newest purchase has the first place, the one before it the second, and so on. A card
/// that is no longer up leaves its place empty, and each shows its own viewer, its own reward
/// and its own price or time.
pub proof fn cards_stand_newest_first(
    es: Seq<PurchaseEvent>,
    alive: Seq<bool>,
    left: Seq<Option<(Scalar, String)>>,
    l: Locales,
    n: int,
)
    requires
        alive.len() == es.len(),
        left.len() == es.len(),
        0 <= n <= es.len(),
    ensures
        forall|k: int|
            es.len() - n <= k < es.len() && #[trigger] alive[k] ==> newest(
                es,
                alive,
                left,
                l,
                n,
            ).contains(
                (ToastText {
                    slot: es.len() - 1 - k,
                    who: clipped_text(es[k].viewer@, 18),
                    what: es[k].label@,
                    right: right_of(left[k], es[k].cost, l),
                }),
            ),
        forall|a: int|
            0 <= a < newest(es, alive, left, l, n).len() ==> {
                let t = #[trigger] newest(es, alive, left, l, n)[a];
                &&& 0 <= t.slot < n
                &&& alive[es.len() - 1 - t.slot]
            },
        forall|a: int, b: int|
            0 <= a < b < newest(es, alive, left, l, n).len() ==> (#[trigger] newest(
                es,
                alive,
                left,
                l,
                n,
            )[a]).slot < (#[trigger] newest(es, alive, left, l, n)[b]).slot,
    decreases n,
{
    if n > 0 {
        cards_stand_newest_first(es, alive, left, l, n - 1);
        let before = newest(es, alive, left, l, n - 1);
        let out = newest(es, alive, left, l, n);
        assert forall|a: int| 0 <= a < before.len() implies out[a] == before[a] by {}
        assert forall|k: int| es.len() - n <= k < es.len() && #[trigger] alive[k] implies out.contains(
            (ToastText {
                slot: es.len() - 1 - k,
                who: clipped_text(es[k].viewer@, 18),
                what: es[k].label@,
                right: right_of(left[k], es[k].cost, l),
            }),
        ) by {
            let t = ToastText {
                slot: es.len() - 1 - k,
                who: clipped_text(es[k].viewer@, 18),
                what: es[k].label@,
                right: right_of(left[k], es[k].cost, l),
            };
            if k > es.len() - n {
                assert(before.contains(t));
                let a = choose|a: int| 0 <= a < before.len() && before[a] == t;
                assert(out[a] == t);
            } else {
                assert(out[before.len() as int] == t);
            }
        }
        assert forall|a: int| 0 <= a < out.len() implies ({
            let t = #[trigger] out[a];
            &&& 0 <= t.slot < n
            &&& alive[es.len() - 1 - t.slot]
        }) by {
            if a < before.len() {
                assert(out[a] == before[a]);
            }
        }
        assert forall|a: int, b: int| 0 <= a < b < out.len() implies (#[trigger] out[a]).slot < (
        #[trigger] out[b]).slot by {
            assert(out[a] == before[a]);
            if b < before.len() {
                assert(out[b] == before[b]);
            }
        }
    }
}

/// An ally's bar is its own health out of its own, and never out of nothing.
pub proof fn the_bar_of_an_ally(a: Ally, r: AllyRow, l: Locales)
    requires
        ally_shown(a, r, l),
    ensures
        r.hp == a.hp,
        r.of >= 1,
        a.max_hp >= 1 ==> r.of == a.max_hp,
        a.max_hp < 1 ==> r.of == 1,
        r.who@ == ally_name(a.viewer@, a.name@),
        r.left@.len() > a.whole_secs@.len(),
        r.left@.take(a.whole_secs@.len() as int) == a.whole_secs@,
{
    reveal_strlit(" ");
    assert(r.left@.take(a.whole_secs@.len() as int) =~= a.whole_secs@);
}

/// The window with raw values begins with the line that is given, and holds all the others, one
/// below the other.
pub proof fn raw_values_are_copied(first: Seq<char>, probe: Seq<Seq<char>>)
    ensures
        debug_text(first, probe) == first + (seq!['\n'] + join(probe, seq!['\n'])),
{
    reveal_strlit("\n");
    assert("\n"@ =~= seq!['\n']);
    assert(debug_text(first, probe) =~= first + (seq!['\n'] + join(probe, seq!['\n'])));
}

} // verus!
