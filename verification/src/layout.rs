//! What the panel, the purchase cards and the lists are made of, part by part. Where each
//! part ends up on the screen depends on measured texts and is the host's.

use vstd::prelude::*;
use crate::config::{Config, Layout};
use crate::i18n::{t, translated, Locales};
use crate::labels::{
    clip, clipped_text, one_line_name, split_boss_counter, strip_name, to_uppercase, uppercase,
};
use crate::panel::{
    ally_label, ally_name, item_texts, progress_label, right_of, right_text, Content, Item,
    ItemText,
};
use crate::scalar::Scalar;
use crate::text::{
    append, append_text, chars_of, decimal, decimal_of, first_at, join, joined, lines,
    lines_of, pair_texts, runs, string_of, texts,
};
use crate::till::PurchaseEvent;

verus! {

/// How much room is left below a part.
#[derive(Clone, Copy, Debug, PartialEq, Eq, Structural)]
pub enum Space {
    Nothing,
    /// Less than between lines: the names of a pair belong together.
    Small,
    /// As between lines.
    Line,
    /// As around a section.
    Section,
}

/// How large a value is: as those of the metrics, or as those of the fight.
#[derive(Clone, Copy, Debug, PartialEq, Eq, Structural)]
pub enum Ink {
    Metric,
    Fight,
}

/// A piece of the strip.
pub enum Piece {
    Counter(String),
    Name(String),
    Pair { label: String, value: String },
}

/// A part of the panel, from top to bottom.
pub enum Part {
    /// A label on the left and a value on the right; a long label goes on below.
    Row { label: Vec<String>, value: String, ink: Ink, after: Space },
    /// A rule across the panel.
    Rule,
    /// The heading of the boss counter.
    Header { label: String, killed: String, rest: String },
    /// The bar of the boss counter.
    Bar { killed: u32, total: u32 },
    /// One or two values side by side, their labels below them.
    Cells { values: Vec<(String, String)>, ink: Ink },
    /// A line between the metrics and the fight.
    Divider,
    BossName { text: String, after: Space },
    /// Everything on one line.
    Strip { pieces: Vec<Piece>, ink: Ink },
}

/// A piece by its texts.
pub enum PieceText {
    Counter(Seq<char>),
    Name(Seq<char>),
    Pair(Seq<char>, Seq<char>),
}

/// A part by its texts.
pub enum PartText {
    Row(Seq<Seq<char>>, Seq<char>, Ink, Space),
    Rule,
    Header(Seq<char>, Seq<char>, Seq<char>),
    Bar(u32, u32),
    Cells(Seq<(Seq<char>, Seq<char>)>, Ink),
    Divider,
    BossName(Seq<char>, Space),
    Strip(Seq<PieceText>, Ink),
}

impl Piece {
    pub open spec fn text(self) -> PieceText {
        match self {
            Piece::Counter(s) => PieceText::Counter(s@),
            Piece::Name(s) => PieceText::Name(s@),
            Piece::Pair { label, value } => PieceText::Pair(label@, value@),
        }
    }
}

pub open spec fn piece_texts(v: Seq<Piece>) -> Seq<PieceText> {
    v.map_values(|p: Piece| p.text())
}

impl Part {
    pub open spec fn text(self) -> PartText {
        match self {
            Part::Row { label, value, ink, after } => PartText::Row(
                texts(label@),
                value@,
                ink,
                after,
            ),
            Part::Rule => PartText::Rule,
            Part::Header { label, killed, rest } => PartText::Header(label@, killed@, rest@),
            Part::Bar { killed, total } => PartText::Bar(killed, total),
            Part::Cells { values, ink } => PartText::Cells(pair_texts(values@), ink),
            Part::Divider => PartText::Divider,
            Part::BossName { text, after } => PartText::BossName(text@, after),
            Part::Strip { pieces, ink } => PartText::Strip(piece_texts(pieces@), ink),
        }
    }
}

pub open spec fn part_texts(v: Seq<Part>) -> Seq<PartText> {
    v.map_values(|p: Part| p.text())
}

/// The content by its texts.
pub struct ContentText {
    pub items: Seq<ItemText>,
    pub nearest: Option<ItemText>,
    /// The counter's text, and the numbers for its bar.
    pub progress: Option<(Seq<char>, u32, u32)>,
    pub boss: Option<Seq<char>>,
    pub fight: Seq<ItemText>,
}

impl Content {
    pub open spec fn text(self) -> ContentText {
        ContentText {
            items: item_texts(self.items@),
            nearest: match self.nearest {
                Some(i) => Some(i.text()),
                None => None,
            },
            progress: match self.progress {
                Some(p) => Some((p.text@, p.killed, p.total)),
                None => None,
            },
            boss: match self.boss {
                Some(b) => Some(b@),
                None => None,
            },
            fight: item_texts(self.fight@),
        }
    }
}

// ---------------------------------------------------------------------------
// The parts
// ---------------------------------------------------------------------------

/// The list with one more part if it is there.
pub open spec fn also(ps: Seq<PartText>, on: bool, p: PartText) -> Seq<PartText> {
    if on {
        ps.push(p)
    } else {
        ps
    }
}

pub open spec fn row_of(i: ItemText, ink: Ink, after: Space) -> PartText {
    PartText::Row(lines(i.label), i.value, ink, after)
}

/// Rows of a list; below the last there is `last`.
pub open spec fn list_rows(items: Seq<ItemText>, ink: Ink, last: Space) -> Seq<PartText> {
    Seq::new(
        items.len(),
        |i: int|
            row_of(
                items[i],
                ink,
                if i == items.len() - 1 {
                    last
                } else {
                    Space::Line
                },
            ),
    )
}

/// The metrics two by two.
pub open spec fn cell_rows(items: Seq<ItemText>, ink: Ink) -> Seq<PartText>
    decreases items.len(),
{
    if items.len() == 0 {
        Seq::empty()
    } else if items.len() == 1 {
        seq![PartText::Cells(seq![(items[0].label, items[0].value)], ink)]
    } else {
        seq![
            PartText::Cells(
                seq![(items[0].label, items[0].value), (items[1].label, items[1].value)],
                ink,
            ),
        ] + cell_rows(items.skip(2), ink)
    }
}

/// The names of a boss, one on each line, in capitals.
pub open spec fn name_rows(ls: Seq<Seq<char>>) -> Seq<PartText> {
    Seq::new(
        ls.len(),
        |i: int|
            PartText::BossName(
                uppercase(ls[i]),
                if i == ls.len() - 1 {
                    Space::Line
                } else {
                    Space::Small
                },
            ),
    )
}

pub open spec fn boss_rows(boss: Option<Seq<char>>) -> Seq<PartText> {
    match boss {
        Some(n) => name_rows(lines(n)),
        None => Seq::empty(),
    }
}

/// Whether anything of a fight is shown.
pub open spec fn fights(ct: ContentText) -> bool {
    ct.boss is Some || ct.fight.len() > 0
}

/// The head of the panel: the nearest boss with a rule below, then the counter, then its bar.
pub open spec fn head(ct: ContentText, bar: bool, l: Locales) -> Seq<PartText> {
    let near: Seq<PartText> = match ct.nearest {
        Some(i) => seq![row_of(i, Ink::Metric, Space::Section), PartText::Rule],
        None => Seq::empty(),
    };
    match ct.progress {
        Some((text, killed, total)) => {
            let k: int = first_at(text, '/');
            let counter: PartText = PartText::Header(
                translated(l, "BOSSES"@),
                text.take(k),
                text.skip(k),
            );
            also(near.push(counter), bar, PartText::Bar(killed, total))
        },
        None => near,
    }
}

/// The fight below everything else: the boss by name and the metrics of the fight.
pub open spec fn fight_block(ct: ContentText, cells: bool) -> Seq<PartText> {
    if !fights(ct) {
        Seq::empty()
    } else {
        also(
            Seq::empty(),
            ct.items.len() > 0 || ct.progress is Some,
            PartText::Divider,
        ) + boss_rows(ct.boss) + if cells {
            cell_rows(ct.fight, Ink::Fight)
        } else {
            list_rows(ct.fight, Ink::Fight, Space::Nothing)
        }
    }
}

/// Two columns: half as high as a list.
pub open spec fn columns(ct: ContentText, bar: bool, l: Locales) -> Seq<PartText> {
    head(ct, bar, l) + cell_rows(ct.items, Ink::Metric) + fight_block(ct, true)
}

/// A list.
pub open spec fn list(ct: ContentText, bar: bool, l: Locales) -> Seq<PartText> {
    head(ct, bar, l) + list_rows(
        ct.items,
        Ink::Metric,
        if fights(ct) {
            Space::Line
        } else {
            Space::Nothing
        },
    ) + fight_block(ct, false)
}

pub open spec fn pairs_of(items: Seq<ItemText>) -> Seq<PieceText> {
    items.map_values(|i: ItemText| PieceText::Pair(i.short, i.value))
}

/// A strip: everything on one line, and a fight on a second.
pub open spec fn strip(ct: ContentText) -> Seq<PartText> {
    let counter: Seq<PieceText> = match ct.progress {
        Some((text, _, _)) => seq![PieceText::Counter(text)],
        None => Seq::empty(),
    };
    let first: Seq<PartText> = seq![PartText::Strip(counter + pairs_of(ct.items), Ink::Metric)];
    if !fights(ct) {
        first
    } else {
        let name: Seq<PieceText> = match ct.boss {
            Some(n) => seq![PieceText::Name(uppercase(one_line_name(n)))],
            None => Seq::empty(),
        };
        first + seq![PartText::Divider, PartText::Strip(name + pairs_of(ct.fight), Ink::Fight)]
    }
}

/// The parts of the panel; none if there is nothing to show. The nearest boss alone does not
/// bring the panel up.
pub open spec fn panel_parts(ct: ContentText, layout: Layout, bar: bool, l: Locales) -> Seq<PartText> {
    if ct.items.len() == 0 && ct.progress is None && !fights(ct) {
        Seq::empty()
    } else {
        match layout {
            Layout::A => columns(ct, bar, l),
            Layout::B => strip(ct),
            Layout::D => list(ct, bar, l),
        }
    }
}

fn put(out: &mut Vec<Part>, p: Part)
    ensures
        part_texts(final(out)@) == part_texts(old(out)@).push(p.text()),
{
    let ghost was = out@;
    let ghost text = p.text();
    out.push(p);
    assert(part_texts(out@) == part_texts(was).push(text));
}

fn put_row(out: &mut Vec<Part>, i: &Item, ink: Ink, after: Space)
    ensures
        part_texts(final(out)@) == part_texts(old(out)@).push(row_of(i.text(), ink, after)),
{
    let ls: Vec<Vec<char>> = lines_of(&i.label);
    let mut label: Vec<String> = Vec::new();
    for k in 0..ls.len()
        invariant
            label.len() == k,
            forall|j: int| 0 <= j < k ==> (#[trigger] label@[j])@ == ls@[j]@,
    {
        label.push(string_of(&ls[k]));
    }
    assert(texts(label@) == runs(ls@));
    put(out, Part::Row { label, value: i.value.clone(), ink, after });
}

fn put_rows(out: &mut Vec<Part>, items: &Vec<Item>, ink: Ink, last: Space)
    ensures
        part_texts(final(out)@) == part_texts(old(out)@) + list_rows(
            item_texts(items@),
            ink,
            last,
        ),
{
    let ghost rows = list_rows(item_texts(items@), ink, last);
    assert(part_texts(out@) + rows.take(0) == part_texts(out@));
    for i in 0..items.len()
        invariant
            rows == list_rows(item_texts(items@), ink, last),
            part_texts(out@) == part_texts(old(out)@) + rows.take(i as int),
    {
        let after: Space = if i == items.len() - 1 {
            last
        } else {
            Space::Line
        };
        put_row(out, &items[i], ink, after);
        assert(rows[i as int] == row_of(items@[i as int].text(), ink, after));
        assert(rows.take(i + 1) == rows.take(i as int).push(rows[i as int]));
        assert(part_texts(old(out)@) + rows.take(i + 1) =~= (part_texts(old(out)@) + rows.take(
            i as int,
        )).push(rows[i as int]));
    }
    assert(rows.take(items@.len() as int) == rows);
}

fn cell(i: &Item) -> (r: (String, String))
    ensures
        (r.0@, r.1@) == (i.text().label, i.text().value),
{
    (i.label.clone(), i.value.clone())
}

fn put_cells(out: &mut Vec<Part>, items: &Vec<Item>, ink: Ink)
    ensures
        part_texts(final(out)@) == part_texts(old(out)@) + cell_rows(item_texts(items@), ink),
{
    let ghost all = item_texts(items@);
    let ghost goal = part_texts(out@) + cell_rows(all, ink);
    let mut i: usize = 0;
    assert(all.skip(0) == all);
    while i < items.len()
        invariant
            i <= items.len(),
            all == item_texts(items@),
            part_texts(out@) + cell_rows(all.skip(i as int), ink) == goal,
        decreases items.len() - i,
    {
        let ghost was = part_texts(out@);
        let ghost rest = all.skip(i as int);
        let mut values: Vec<(String, String)> = Vec::new();
        values.push(cell(&items[i]));
        assert(rest[0] == items@[i as int].text());
        if i + 1 < items.len() {
            values.push(cell(&items[i + 1]));
            assert(rest[1] == items@[i + 1].text());
            let p: Part = Part::Cells { values, ink };
            let ghost text = p.text();
            assert(pair_texts(values@) == seq![
                (rest[0].label, rest[0].value),
                (rest[1].label, rest[1].value),
            ]);
            put(out, p);
            proof {
                assert(rest.skip(2) == all.skip(i + 2));
                assert(was.push(text) + cell_rows(rest.skip(2), ink) =~= was + (seq![text]
                    + cell_rows(rest.skip(2), ink)));
            }
            i = i + 2;
        } else {
            let p: Part = Part::Cells { values, ink };
            let ghost text = p.text();
            assert(pair_texts(values@) == seq![(rest[0].label, rest[0].value)]);
            put(out, p);
            proof {
                assert(rest.len() == 1);
                assert(all.skip(i + 1).len() == 0);
                assert(was.push(text) + Seq::<PartText>::empty() =~= was + seq![text]);
            }
            i = i + 1;
        }
    }
    assert(all.skip(i as int).len() == 0);
    assert(part_texts(out@) + Seq::<PartText>::empty() == part_texts(out@));
}

fn put_names(out: &mut Vec<Part>, boss: &Option<String>)
    ensures
        part_texts(final(out)@) == part_texts(old(out)@) + boss_rows(
            match *boss {
                Some(b) => Some(b@),
                None => None,
            },
        ),
{
    let name: &String = match boss {
        Some(n) => n,
        None => {
            assert(part_texts(out@) + Seq::<PartText>::empty() == part_texts(out@));
            return;
        },
    };
    let ls: Vec<Vec<char>> = lines_of(name);
    let ghost rows = name_rows(lines(name@));
    assert(part_texts(out@) + rows.take(0) == part_texts(out@));
    for i in 0..ls.len()
        invariant
            runs(ls@) == lines(name@),
            rows == name_rows(lines(name@)),
            part_texts(out@) == part_texts(old(out)@) + rows.take(i as int),
    {
        let after: Space = if i == ls.len() - 1 {
            Space::Line
        } else {
            Space::Small
        };
        let text: String = to_uppercase(&string_of(&ls[i]));
        assert(runs(ls@)[i as int] == ls@[i as int]@);
        assert(rows[i as int] == PartText::BossName(text@, after));
        put(out, Part::BossName { text, after });
        assert(rows.take(i + 1) == rows.take(i as int).push(rows[i as int]));
        assert(part_texts(old(out)@) + rows.take(i + 1) =~= (part_texts(old(out)@) + rows.take(
            i as int,
        )).push(rows[i as int]));
    }
    assert(runs(ls@).len() == ls@.len());
    assert(rows.take(ls@.len() as int) == rows);
}

fn put_head(out: &mut Vec<Part>, ct: &Content, bar: bool, l: &Locales)
    ensures
        part_texts(final(out)@) == part_texts(old(out)@) + head(ct.text(), bar, *l),
{
    let ghost start = part_texts(out@);
    let ghost mut near: Seq<PartText> = Seq::empty();
    assert(start + near == start);
    match &ct.nearest {
        Some(i) => {
            put_row(out, i, Ink::Metric, Space::Section);
            put(out, Part::Rule);
            proof {
                near = seq![row_of(i.text(), Ink::Metric, Space::Section), PartText::Rule];
                assert(part_texts(out@) == start + near);
            }
        },
        None => {},
    }
    match &ct.progress {
        Some(p) => {
            let (killed, rest) = split_boss_counter(&p.text);
            let counter: Part = Part::Header { label: progress_label(l), killed, rest };
            let ghost text = counter.text();
            put(out, counter);
            assert(part_texts(out@) == start + near.push(text));
            if bar {
                put(out, Part::Bar { killed: p.killed, total: p.total });
                assert(part_texts(out@) == start + near.push(text).push(
                    PartText::Bar(p.killed, p.total),
                ));
            }
        },
        None => {},
    }
}

fn put_fight(out: &mut Vec<Part>, ct: &Content, cells: bool)
    ensures
        part_texts(final(out)@) == part_texts(old(out)@) + fight_block(ct.text(), cells),
{
    let ghost start = part_texts(out@);
    assert(ct.text().fight.len() == ct.fight@.len());
    assert(ct.text().items.len() == ct.items@.len());
    if !ct.has_fight() {
        assert(start + Seq::<PartText>::empty() == start);
        return;
    }
    let ghost mut line: Seq<PartText> = Seq::empty();
    assert(start + line == start);
    if ct.items.len() > 0 || ct.progress.is_some() {
        put(out, Part::Divider);
        proof {
            line = line.push(PartText::Divider);
            assert(part_texts(out@) == start + line);
        }
    }
    put_names(out, &ct.boss);
    let ghost names = boss_rows(ct.text().boss);
    assert(part_texts(out@) == start + (line + names));
    if cells {
        put_cells(out, &ct.fight, Ink::Fight);
    } else {
        put_rows(out, &ct.fight, Ink::Fight, Space::Nothing);
    }
    proof {
        let tail = if cells {
            cell_rows(ct.text().fight, Ink::Fight)
        } else {
            list_rows(ct.text().fight, Ink::Fight, Space::Nothing)
        };
        assert(start + (line + names) + tail =~= start + (line + names + tail));
    }
}

/// The parts of the panel in two columns.
pub fn layout_a(ct: &Content, bar: bool, l: &Locales) -> (r: Vec<Part>)
    ensures
        part_texts(r@) == columns(ct.text(), bar, *l),
{
    let mut out: Vec<Part> = Vec::new();
    put_head(&mut out, ct, bar, l);
    assert(part_texts(out@) =~= head(ct.text(), bar, *l));
    put_cells(&mut out, &ct.items, Ink::Metric);
    put_fight(&mut out, ct, true);
    out
}

/// The parts of the panel as a list.
pub fn layout_d(ct: &Content, bar: bool, l: &Locales) -> (r: Vec<Part>)
    ensures
        part_texts(r@) == list(ct.text(), bar, *l),
{
    assert(ct.text().fight.len() == ct.fight@.len());
    let mut out: Vec<Part> = Vec::new();
    put_head(&mut out, ct, bar, l);
    assert(part_texts(out@) =~= head(ct.text(), bar, *l));
    let last: Space = if ct.has_fight() {
        Space::Line
    } else {
        Space::Nothing
    };
    put_rows(&mut out, &ct.items, Ink::Metric, last);
    put_fight(&mut out, ct, false);
    out
}

fn put_pairs(pieces: &mut Vec<Piece>, items: &Vec<Item>)
    ensures
        piece_texts(final(pieces)@) == piece_texts(old(pieces)@) + pairs_of(item_texts(items@)),
{
    let ghost pairs = pairs_of(item_texts(items@));
    assert(piece_texts(pieces@) + pairs.take(0) == piece_texts(pieces@));
    for i in 0..items.len()
        invariant
            pairs == pairs_of(item_texts(items@)),
            piece_texts(pieces@) == piece_texts(old(pieces)@) + pairs.take(i as int),
    {
        let ghost was = pieces@;
        let p: Piece = Piece::Pair { label: items[i].short.clone(), value: items[i].value.clone() };
        let ghost text = p.text();
        pieces.push(p);
        proof {
            assert(item_texts(items@)[i as int] == items@[i as int].text());
            assert(pairs[i as int] == text);
            assert(piece_texts(pieces@) == piece_texts(was).push(text));
            assert(pairs.take(i + 1) == pairs.take(i as int).push(text));
            assert(piece_texts(old(pieces)@) + pairs.take(i + 1) =~= (piece_texts(old(pieces)@)
                + pairs.take(i as int)).push(text));
        }
    }
    assert(pairs.take(items@.len() as int) == pairs);
}

/// The parts of the panel as a strip.
pub fn layout_b(ct: &Content) -> (r: Vec<Part>)
    ensures
        part_texts(r@) == strip(ct.text()),
{
    assert(ct.text().fight.len() == ct.fight@.len());
    let mut out: Vec<Part> = Vec::new();
    let mut pieces: Vec<Piece> = Vec::new();
    let ghost mut counter: Seq<PieceText> = Seq::empty();
    match &ct.progress {
        Some(p) => {
            pieces.push(Piece::Counter(p.text.clone()));
            proof {
                counter = seq![PieceText::Counter(p.text@)];
            }
        },
        None => {},
    }
    assert(piece_texts(pieces@) == counter);
    put_pairs(&mut pieces, &ct.items);
    let first: Part = Part::Strip { pieces, ink: Ink::Metric };
    let ghost first_text = first.text();
    put(&mut out, first);
    assert(part_texts(out@) == seq![first_text]);
    if ct.has_fight() {
        let mut pieces: Vec<Piece> = Vec::new();
        let ghost mut name: Seq<PieceText> = Seq::empty();
        match &ct.boss {
            Some(n) => {
                pieces.push(Piece::Name(strip_name(n)));
                proof {
                    name = seq![PieceText::Name(uppercase(one_line_name(n@)))];
                }
            },
            None => {},
        }
        assert(piece_texts(pieces@) == name);
        put_pairs(&mut pieces, &ct.fight);
        let second: Part = Part::Strip { pieces, ink: Ink::Fight };
        let ghost second_text = second.text();
        put(&mut out, Part::Divider);
        put(&mut out, second);
        assert(part_texts(out@) == seq![first_text] + seq![PartText::Divider, second_text]);
    }
    out
}

/// The parts of the panel in the layout of the settings.
pub fn draw(ct: &Content, c: &Config, l: &Locales) -> (r: Vec<Part>)
    ensures
        part_texts(r@) == panel_parts(ct.text(), c.layout, c.show_boss_bar, *l),
{
    assert(ct.text().fight.len() == ct.fight@.len());
    assert(ct.text().items.len() == ct.items@.len());
    if ct.is_empty() {
        let out: Vec<Part> = Vec::new();
        assert(part_texts(out@) == Seq::<PartText>::empty());
        return out;
    }
    match c.layout {
        Layout::A => layout_a(ct, c.show_boss_bar, l),
        Layout::B => layout_b(ct),
        Layout::D => layout_d(ct, c.show_boss_bar, l),
    }
}

// ---------------------------------------------------------------------------
// Cards and lists
// ---------------------------------------------------------------------------

/// A purchase card on the screen.
pub struct Toast {
    /// Its place in the pile, counted from the newest.
    pub slot: usize,
    pub who: String,
    pub what: String,
    pub right: String,
}

/// A purchase card by its texts.
pub struct ToastText {
    pub slot: int,
    pub who: Seq<char>,
    pub what: Seq<char>,
    pub right: Seq<char>,
}

pub open spec fn toast_texts(v: Seq<Toast>) -> Seq<ToastText> {
    v.map_values(
        |t: Toast| ToastText { slot: t.slot as int, who: t.who@, what: t.what@, right: t.right@ },
    )
}

/// The cards of the `n` newest purchases that are still up, the newest first.
pub open spec fn newest(
    es: Seq<PurchaseEvent>,
    alive: Seq<bool>,
    left: Seq<Option<(Scalar, String)>>,
    l: Locales,
    n: int,
) -> Seq<ToastText>
    decreases n,
{
    if n <= 0 {
        Seq::empty()
    } else {
        let before: Seq<ToastText> = newest(es, alive, left, l, n - 1);
        let k: int = es.len() - n;
        if alive[k] {
            before.push(
                ToastText {
                    slot: n - 1,
                    who: clipped_text(es[k].viewer@, 18),
                    what: es[k].label@,
                    right: right_of(left[k], es[k].cost, l),
                },
            )
        } else {
            before
        }
    }
}

/// The purchase cards from top to bottom. `alive` tells which are still up, `left` how long
/// their countdowns still run.
pub fn draw_purchase_toasts(
    events: &Vec<PurchaseEvent>,
    alive: &Vec<bool>,
    left: &Vec<Option<(Scalar, String)>>,
    l: &Locales,
) -> (r: Vec<Toast>)
    requires
        alive.len() == events.len(),
        left.len() == events.len(),
    ensures
        toast_texts(r@) == newest(events@, alive@, left@, *l, events@.len() as int),
{
    let mut r: Vec<Toast> = Vec::new();
    assert(toast_texts(r@) == newest(events@, alive@, left@, *l, 0));
    for i in 0..events.len()
        invariant
            alive.len() == events.len(),
            left.len() == events.len(),
            toast_texts(r@) == newest(events@, alive@, left@, *l, i as int),
    {
        let k: usize = events.len() - 1 - i;
        if alive[k] {
            let ghost was = r@;
            let toast: Toast = Toast {
                slot: i,
                who: clip(&events[k].viewer, 18),
                what: events[k].label.clone(),
                right: right_text(&left[k], events[k].cost, l),
            };
            let ghost text = ToastText {
                slot: i as int,
                who: toast.who@,
                what: toast.what@,
                right: toast.right@,
            };
            r.push(toast);
            assert(toast_texts(r@) == toast_texts(was).push(text));
        }
    }
    r
}

/// An ally: who sent it, what it is, how many seconds it stays, as the host writes them, and
/// its health.
pub struct Ally {
    pub viewer: String,
    pub name: String,
    pub whole_secs: String,
    pub hp: i32,
    pub max_hp: i32,
}

/// A line of the list of allies; the bar is `hp` of `of`, which is never zero.
pub struct AllyRow {
    pub who: String,
    pub left: String,
    pub hp: i32,
    pub of: i32,
}

/// A line of the list says what there is to say of an ally.
pub open spec fn ally_shown(a: Ally, r: AllyRow, l: Locales) -> bool {
    &&& r.who@ == ally_name(a.viewer@, a.name@)
    &&& r.left@ == a.whole_secs@ + " "@ + translated(l, "s"@)
    &&& r.hp == a.hp
    &&& r.of == if a.max_hp > 1 {
        a.max_hp
    } else {
        1
    }
}

/// The list of allies, in their order.
pub fn draw_allies(allies: &Vec<Ally>, l: &Locales) -> (r: Vec<AllyRow>)
    ensures
        r@.len() == allies@.len(),
        forall|i: int| 0 <= i < r@.len() ==> ally_shown(allies@[i], #[trigger] r@[i], *l),
{
    let mut r: Vec<AllyRow> = Vec::new();
    for i in 0..allies.len()
        invariant
            r@.len() == i,
            forall|j: int| 0 <= j < i ==> ally_shown(allies@[j], #[trigger] r@[j], *l),
    {
        let a: &Ally = &allies[i];
        let mut left: Vec<char> = chars_of(&a.whole_secs);
        append_text(&mut left, " ");
        append_text(&mut left, &t(l, "s"));
        r.push(
            AllyRow {
                who: ally_label(&a.viewer, &a.name),
                left: string_of(&left),
                hp: a.hp,
                of: if a.max_hp > 1 {
                    a.max_hp
                } else {
                    1
                },
            },
        );
    }
    r
}

/// The first line of the window with raw values.
pub open spec fn debug_title(valid: bool, frames: u64, suppressed: bool) -> Seq<char> {
    "valid "@ + (if valid {
        "true"@
    } else {
        "false"@
    }) + " | кадр "@ + decimal(frames as nat) + " | панель "@ + if suppressed {
        "скрыта"@
    } else {
        "видна"@
    }
}

/// The first line of the window with raw values: whether the game could be read, the number
/// of the frame, and whether the panel is shown.
pub fn debug_head(valid: bool, frames: u64, suppressed: bool) -> (r: String)
    ensures
        r@ == debug_title(valid, frames, suppressed),
{
    let mut v: Vec<char> = chars_of("valid ");
    append_text(
        &mut v,
        if valid {
            "true"
        } else {
            "false"
        },
    );
    append_text(&mut v, " | кадр ");
    append(&mut v, &decimal_of(frames));
    append_text(&mut v, " | панель ");
    append_text(
        &mut v,
        if suppressed {
            "скрыта"
        } else {
            "видна"
        },
    );
    string_of(&v)
}

/// All of that window as a text.
pub open spec fn debug_text(head: Seq<char>, probe: Seq<Seq<char>>) -> Seq<char> {
    head + "\n"@ + join(probe, "\n"@)
}

/// All of that window as a text that can be copied.
pub fn debug_copy(head: &str, probe: &Vec<String>) -> (r: String)
    ensures
        r@ == debug_text(head@, texts(probe@)),
{
    let mut v: Vec<char> = chars_of(head);
    append_text(&mut v, "\n");
    append(&mut v, &joined(probe, "\n"));
    string_of(&v)
}

// ---------------------------------------------------------------------------
// Laws
// ---------------------------------------------------------------------------

pub open spec fn piece_value(p: PieceText) -> Seq<Seq<char>> {
    match p {
        PieceText::Pair(_, v) => seq![v],
        _ => Seq::empty(),
    }
}

pub open spec fn piece_values(ps: Seq<PieceText>) -> Seq<Seq<char>>
    decreases ps.len(),
{
    if ps.len() == 0 {
        Seq::empty()
    } else {
        piece_values(ps.drop_last()) + piece_value(ps.last())
    }
}

/// The values of metrics that a part shows.
pub open spec fn part_value(p: PartText) -> Seq<Seq<char>> {
    match p {
        PartText::Row(_, v, _, _) => seq![v],
        PartText::Cells(cs, _) => cs.map_values(|c: (Seq<char>, Seq<char>)| c.1),
        PartText::Strip(ps, _) => piece_values(ps),
        _ => Seq::empty(),
    }
}

/// The values of metrics that some parts show, in their order.
pub open spec fn part_values(ps: Seq<PartText>) -> Seq<Seq<char>>
    decreases ps.len(),
{
    if ps.len() == 0 {
        Seq::empty()
    } else {
        part_values(ps.drop_last()) + part_value(ps.last())
    }
}

pub open spec fn item_values(items: Seq<ItemText>) -> Seq<Seq<char>> {
    items.map_values(|i: ItemText| i.value)
}

proof fn lemma_part_values_concat(a: Seq<PartText>, b: Seq<PartText>)
    ensures
        part_values(a + b) == part_values(a) + part_values(b),
    decreases b.len(),
{
    if b.len() == 0 {
        assert(a + b == a);
        assert(part_values(a) + part_values(b) == part_values(a));
    } else {
        lemma_part_values_concat(a, b.drop_last());
        assert((a + b).drop_last() == a + b.drop_last());
        assert((a + b).last() == b.last());
        assert(part_values(a) + (part_values(b.drop_last()) + part_value(b.last())) =~= part_values(
            a,
        ) + part_values(b.drop_last()) + part_value(b.last()));
    }
}

proof fn lemma_one_part(p: PartText)
    ensures
        part_values(seq![p]) == part_value(p),
{
    assert(seq![p].drop_last() == Seq::<PartText>::empty());
    assert(part_values(Seq::<PartText>::empty()) + part_value(p) == part_value(p));
}

proof fn lemma_silent(ps: Seq<PartText>)
    requires
        forall|i: int| 0 <= i < ps.len() ==> part_value(#[trigger] ps[i]).len() == 0,
    ensures
        part_values(ps) == Seq::<Seq<char>>::empty(),
    decreases ps.len(),
{
    if ps.len() > 0 {
        assert(part_value(ps[ps.len() - 1]).len() == 0);
        lemma_silent(ps.drop_last());
        assert(part_values(ps) =~= Seq::<Seq<char>>::empty());
    }
}

proof fn lemma_list_values(ps: Seq<PartText>, items: Seq<ItemText>)
    requires
        ps.len() == items.len(),
        forall|i: int| 0 <= i < ps.len() ==> part_value(#[trigger] ps[i]) == seq![items[i].value],
    ensures
        part_values(ps) == item_values(items),
    decreases ps.len(),
{
    if ps.len() > 0 {
        let n = ps.len() - 1;
        lemma_list_values(ps.drop_last(), items.drop_last());
        assert(part_value(ps[n as int]) == seq![items[n as int].value]);
        assert(item_values(items) =~= item_values(items.drop_last()) + seq![
            items[n as int].value,
        ]);
    } else {
        assert(part_values(ps) =~= item_values(items));
    }
}

proof fn lemma_cell_values(items: Seq<ItemText>, ink: Ink)
    ensures
        part_values(cell_rows(items, ink)) == item_values(items),
    decreases items.len(),
{
    if items.len() == 0 {
        assert(part_values(cell_rows(items, ink)) =~= item_values(items));
    } else if items.len() == 1 {
        let p = PartText::Cells(seq![(items[0].label, items[0].value)], ink);
        lemma_one_part(p);
        assert(part_value(p) =~= item_values(items));
    } else {
        let p = PartText::Cells(
            seq![(items[0].label, items[0].value), (items[1].label, items[1].value)],
            ink,
        );
        lemma_one_part(p);
        lemma_cell_values(items.skip(2), ink);
        lemma_part_values_concat(seq![p], cell_rows(items.skip(2), ink));
        assert(part_value(p) + item_values(items.skip(2)) =~= item_values(items));
    }
}

proof fn lemma_piece_values(start: Seq<PieceText>, items: Seq<ItemText>)
    requires
        piece_values(start).len() == 0,
    ensures
        piece_values(start + pairs_of(items)) == item_values(items),
    decreases items.len(),
{
    let all = start + pairs_of(items);
    if items.len() == 0 {
        assert(all == start);
        assert(piece_values(all) =~= item_values(items));
    } else {
        lemma_piece_values(start, items.drop_last());
        assert(all.drop_last() == start + pairs_of(items.drop_last()));
        assert(all.last() == PieceText::Pair(items.last().short, items.last().value));
        assert(item_values(items) =~= item_values(items.drop_last()) + seq![items.last().value]);
    }
}

proof fn lemma_head_values(ct: ContentText, bar: bool, l: Locales)
    ensures
        part_values(head(ct, bar, l)) == match ct.nearest {
            Some(i) => seq![i.value],
            None => Seq::empty(),
        },
{
    let near: Seq<PartText> = match ct.nearest {
        Some(i) => seq![row_of(i, Ink::Metric, Space::Section), PartText::Rule],
        None => Seq::empty(),
    };
    let want: Seq<Seq<char>> = match ct.nearest {
        Some(i) => seq![i.value],
        None => Seq::empty(),
    };
    assert(part_values(near) == want) by {
        match ct.nearest {
            Some(i) => {
                let row = row_of(i, Ink::Metric, Space::Section);
                assert(near.drop_last() == seq![row]);
                lemma_one_part(row);
                assert(part_values(near) =~= want);
            },
            None => {},
        }
    }
    match ct.progress {
        Some((text, killed, total)) => {
            let k = first_at(text, '/');
            let counter = PartText::Header(translated(l, "BOSSES"@), text.take(k), text.skip(k));
            let one = near.push(counter);
            assert(one.drop_last() == near);
            assert(part_values(one) =~= want);
            let two = one.push(PartText::Bar(killed, total));
            assert(two.drop_last() == one);
            assert(part_values(two) =~= want);
        },
        None => {},
    }
}

proof fn lemma_fight_values(ct: ContentText, cells: bool)
    ensures
        part_values(fight_block(ct, cells)) == item_values(ct.fight),
{
    if fights(ct) {
        let line = also(
            Seq::empty(),
            ct.items.len() > 0 || ct.progress is Some,
            PartText::Divider,
        );
        let names = boss_rows(ct.boss);
        let tail = if cells {
            cell_rows(ct.fight, Ink::Fight)
        } else {
            list_rows(ct.fight, Ink::Fight, Space::Nothing)
        };
        lemma_silent(line);
        lemma_silent(names);
        if cells {
            lemma_cell_values(ct.fight, Ink::Fight);
        } else {
            lemma_list_values(tail, ct.fight);
        }
        lemma_part_values_concat(line, names);
        lemma_part_values_concat(line + names, tail);
        assert(part_values(fight_block(ct, cells)) =~= item_values(ct.fight));
    } else {
        assert(part_values(fight_block(ct, cells)) =~= item_values(ct.fight));
    }
}

/// Whatever the layout, every metric is shown once and in its order: the nearest boss first,
/// for which only the strip has no room, then the metrics, then those of the fight.
pub proof fn every_layout_shows_every_metric(ct: ContentText, layout: Layout, bar: bool, l: Locales)
    requires
        ct.items.len() > 0 || ct.progress is Some || fights(ct),
    ensures
        part_values(panel_parts(ct, layout, bar, l)) == (if ct.nearest is Some && layout
            != Layout::B {
            seq![ct.nearest.unwrap().value]
        } else {
            Seq::empty()
        }) + item_values(ct.items) + item_values(ct.fight),
{
    let near: Seq<Seq<char>> = if ct.nearest is Some && layout != Layout::B {
        seq![ct.nearest.unwrap().value]
    } else {
        Seq::empty()
    };
    match layout {
        Layout::A => {
            lemma_head_values(ct, bar, l);
            lemma_cell_values(ct.items, Ink::Metric);
            lemma_fight_values(ct, true);
            let cells = cell_rows(ct.items, Ink::Metric);
            lemma_part_values_concat(head(ct, bar, l), cells);
            lemma_part_values_concat(head(ct, bar, l) + cells, fight_block(ct, true));
        },
        Layout::D => {
            lemma_head_values(ct, bar, l);
            let last = if fights(ct) {
                Space::Line
            } else {
                Space::Nothing
            };
            let rows = list_rows(ct.items, Ink::Metric, last);
            lemma_list_values(rows, ct.items);
            lemma_fight_values(ct, false);
            lemma_part_values_concat(head(ct, bar, l), rows);
            lemma_part_values_concat(head(ct, bar, l) + rows, fight_block(ct, false));
        },
        Layout::B => {
            let counter: Seq<PieceText> = match ct.progress {
                Some((text, _, _)) => seq![PieceText::Counter(text)],
                None => Seq::empty(),
            };
            assert(piece_values(counter).len() == 0) by {
                if counter.len() > 0 {
                    assert(counter.drop_last() == Seq::<PieceText>::empty());
                    assert(piece_values(counter.drop_last()).len() == 0);
                    assert(piece_value(counter.last()).len() == 0);
                }
            }
            lemma_piece_values(counter, ct.items);
            let one = PartText::Strip(counter + pairs_of(ct.items), Ink::Metric);
            lemma_one_part(one);
            if fights(ct) {
                let name: Seq<PieceText> = match ct.boss {
                    Some(n) => seq![PieceText::Name(uppercase(one_line_name(n)))],
                    None => Seq::empty(),
                };
                assert(piece_values(name).len() == 0) by {
                    if name.len() > 0 {
                        assert(name.drop_last() == Seq::<PieceText>::empty());
                    assert(piece_values(name.drop_last()).len() == 0);
                    assert(piece_value(name.last()).len() == 0);
                    }
                }
                lemma_piece_values(name, ct.fight);
                let two = PartText::Strip(name + pairs_of(ct.fight), Ink::Fight);
                let below = seq![PartText::Divider, two];
                assert(below.drop_last() == seq![PartText::Divider]);
                lemma_one_part(PartText::Divider);
                assert(part_values(below) =~= item_values(ct.fight));
                lemma_part_values_concat(seq![one], below);
                assert(near + item_values(ct.items) + item_values(ct.fight) =~= item_values(
                    ct.items,
                ) + item_values(ct.fight));
            } else {
                assert(near + item_values(ct.items) + item_values(ct.fight) =~= item_values(
                    ct.items,
                ));
            }
        },
    }
}

} // verus!
