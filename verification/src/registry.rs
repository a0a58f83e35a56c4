//! The registry of bosses: the table of their names and one entry for each flag of a
//! defeat.

use std::collections::{HashMap, HashSet};

use vstd::prelude::*;
use vstd::std_specs::iter::IteratorSpec;
use crate::bosses::{
    boss_texts, copy_text, grace_texts, is_tiled, opt_text, place_at, place_of, tiled, Boss,
    BossText, Cell, Grace, Point,
};
use crate::scalar::Scalar;
use crate::text::{
    cut, lines, lines_of, parsed, runs, split_at_first, split_once, starts_with, string_of, trim,
    trimmed, unsigned,
};

verus! {

broadcast use vstd::std_specs::hash::group_hash_axioms;

/// What the table says of a boss's name: the id of the game's own text for it, or the
/// name itself.
pub enum TableName {
    Id(u32),
    Text(String),
}

/// What the table says of a boss: his name, and whether a remembrance is given for him.
pub struct TableRow {
    pub name: TableName,
    pub remembrance: bool,
}

/// A name of the table by its text.
pub enum NameText {
    Id(u32),
    Text(Seq<char>),
}

impl TableRow {
    pub open spec fn text(self) -> (NameText, bool) {
        (
            match self.name {
                TableName::Id(n) => NameText::Id(n),
                TableName::Text(s) => NameText::Text(s@),
            },
            self.remembrance,
        )
    }
}

/// The rows of a table by their texts.
pub open spec fn row_texts(m: Map<u32, TableRow>) -> Map<u32, (NameText, bool)> {
    m.map_values(|r: TableRow| r.text())
}

/// Whether the text ends with a blank and a capital R.
pub open spec fn ends_with_mark(s: Seq<char>) -> bool {
    s.len() >= 2 && s[s.len() - 2] == ' ' && s[s.len() - 1] == 'R'
}

/// A name of the table: a text in quotes, or the number of a text.
pub open spec fn table_value(s: Seq<char>) -> Option<NameText> {
    if s.len() >= 2 && s[0] == '"' && s.last() == '"' {
        Some(NameText::Text(s.subrange(1, s.len() - 1)))
    } else {
        match unsigned(s, u32::MAX as nat) {
            Some(n) => Some(NameText::Id(n as u32)),
            None => None,
        }
    }
}

/// A line of the table: a flag, a blank, a name, and an `R` at the end if a
/// remembrance is given. Comments, blank lines and lines that read otherwise are
/// passed over.
pub open spec fn table_line(line: Seq<char>) -> Option<(u32, (NameText, bool))> {
    if starts_with(line, '#') || trim(line).len() == 0 {
        None
    } else {
        match split_once(line, ' ') {
            Some((f, v)) => match unsigned(trim(f), u32::MAX as nat) {
                Some(flag) => {
                    let all: Seq<char> = trim(v);
                    let body: Seq<char> = if ends_with_mark(all) {
                        trim(all.take(all.len() - 2))
                    } else {
                        all
                    };
                    match table_value(body) {
                        Some(name) => Some((flag as u32, (name, ends_with_mark(all)))),
                        None => None,
                    }
                },
                None => None,
            },
            None => None,
        }
    }
}

/// The table in some lines; of two lines for one flag the later counts.
pub open spec fn table_of(ls: Seq<Seq<char>>) -> Map<u32, (NameText, bool)>
    decreases ls.len(),
{
    if ls.len() == 0 {
        Map::empty()
    } else {
        match table_line(ls.last()) {
            Some((flag, row)) => table_of(ls.drop_last()).insert(flag, row),
            None => table_of(ls.drop_last()),
        }
    }
}

fn parse_value(v: &Vec<char>) -> (r: Option<TableName>)
    ensures
        match r {
            Some(TableName::Id(n)) => table_value(v@) == Some(NameText::Id(n)),
            Some(TableName::Text(s)) => table_value(v@) == Some(NameText::Text(s@)),
            None => table_value(v@) is None,
        },
{
    let n: usize = v.len();
    if n >= 2 && v[0] == '"' && v[n - 1] == '"' {
        Some(TableName::Text(string_of(&cut(v, 1, n - 1))))
    } else {
        match parsed(v, u32::MAX as u64) {
            Some(id) => Some(TableName::Id(id as u32)),
            None => None,
        }
    }
}

fn parse_table_line(line: &Vec<char>) -> (r: Option<(u32, TableRow)>)
    ensures
        match r {
            Some((flag, row)) => table_line(line@) == Some((flag, row.text())),
            None => table_line(line@) is None,
        },
{
    if (line.len() > 0 && line[0] == '#') || trimmed(line).len() == 0 {
        return None;
    }
    match split_at_first(line, ' ') {
        Some((f, v)) => match parsed(&trimmed(&f), u32::MAX as u64) {
            Some(flag) => {
                let all: Vec<char> = trimmed(&v);
                let n: usize = all.len();
                let remembrance: bool = n >= 2 && all[n - 2] == ' ' && all[n - 1] == 'R';
                let body: Vec<char> = if remembrance {
                    let head: Vec<char> = cut(&all, 0, n - 2);
                    assert(head@ == all@.take(all@.len() - 2));
                    trimmed(&head)
                } else {
                    all
                };
                match parse_value(&body) {
                    Some(name) => Some((flag as u32, TableRow { name, remembrance })),
                    None => None,
                }
            },
            None => None,
        },
        None => None,
    }
}

/// The table of boss names, by the flags of their defeats.
pub fn table(text: &str) -> (r: HashMap<u32, TableRow>)
    ensures
        row_texts(r@) == table_of(lines(text@)),
{
    let ls: Vec<Vec<char>> = lines_of(text);
    let mut r: HashMap<u32, TableRow> = HashMap::new();
    assert(row_texts(r@) == table_of(runs(ls@).take(0)));
    for i in 0..ls.len()
        invariant
            row_texts(r@) == table_of(runs(ls@).take(i as int)),
    {
        let ghost before = r@;
        proof {
            let next = runs(ls@).take(i + 1);
            assert(next.drop_last() == runs(ls@).take(i as int));
            assert(next.last() == ls@[i as int]@);
        }
        match parse_table_line(&ls[i]) {
            Some((flag, row)) => {
                let ghost text = row.text();
                r.insert(flag, row);
                assert(row_texts(r@) == row_texts(before).insert(flag, text));
            },
            None => {},
        }
    }
    assert(runs(ls@).take(ls@.len() as int) == runs(ls@));
    r
}

/// The flags of the bosses for whom a remembrance is given.
pub fn remembrance_flags(table: &HashMap<u32, TableRow>) -> (r: HashSet<u32>)
    ensures
        forall|f: u32| #[trigger]
            r@.contains(f) <==> table@.contains_key(f) && table@[f].remembrance,
{
    let mut r: HashSet<u32> = HashSet::new();
    for (f, row) in it: table.iter()
        invariant
            forall|f: u32| #[trigger]
                r@.contains(f) <==> exists|i: int|
                    0 <= i < it.index() && *(#[trigger] it.seq()[i]).0 == f
                        && it.seq()[i].1.remembrance,
            it.seq() == vstd::std_specs::hash::spec_hash_map_iter(table).remaining(),
    {
        let ghost k = it.index();
        let ghost before = r@;
        assert(it.seq()[k] == (f, row));
        if row.remembrance {
            r.insert(*f);
        }
        proof {
            assert forall|g: u32| #[trigger] r@.contains(g) <==> exists|i: int|
                0 <= i < k + 1 && *(#[trigger] it.seq()[i]).0 == g
                    && it.seq()[i].1.remembrance by {
                if before.contains(g) {
                    let i = choose|i: int|
                        0 <= i < k && *(#[trigger] it.seq()[i]).0 == g
                            && it.seq()[i].1.remembrance;
                    assert(0 <= i < k + 1);
                }
                if g == *f && row.remembrance {
                    assert(*it.seq()[k].0 == g);
                }
            }
        }
    }
    proof {
        let v = vstd::std_specs::hash::spec_hash_map_iter(table).remaining();
        assert forall|f: u32| #[trigger] r@.contains(f) <==> table@.contains_key(f)
            && table@[f].remembrance by {
            if table@.contains_key(f) && table@[f].remembrance {
                assert(v.contains((&f, &table@[f])));
                let i = choose|i: int| 0 <= i < v.len() && v[i] == (&f, &table@[f]);
                assert(*v[i].0 == f);
            }
            if r@.contains(f) {
                let i = choose|i: int|
                    0 <= i < v.len() && *(#[trigger] v[i]).0 == f && v[i].1.remembrance;
                assert(table@.contains_key(*v[i].0));
            }
        }
    }
    r
}

/// The number of a creature's name in the game's texts, by its model:
/// `900000000 + model * 1000`, wrapped into 32 bits with a sign.
pub open spec fn name_id(chr: u32) -> int {
    let n: int = (900_000_000 + chr * 1000) % 0x1_0000_0000;
    if n >= 0x8000_0000 {
        n - 0x1_0000_0000
    } else {
        n
    }
}

pub fn name_id_of(chr: u32) -> (r: i32)
    ensures
        r == name_id(chr),
{
    let n: u64 = (900_000_000 + chr as u64 * 1000) % 0x1_0000_0000;
    if n >= 0x8000_0000 {
        (n as i64 - 0x1_0000_0000) as i32
    } else {
        n as i32
    }
}

/// A creature's name by its model and what the texts hold for it.
pub open spec fn chr_text(chr: u32, text: Option<Seq<char>>) -> Option<Seq<char>> {
    if chr > 0 {
        text
    } else {
        None
    }
}

/// The model of a creature by the number of its row.
pub open spec fn model_of(npc: u32) -> int {
    npc as int / 10000
}

/// A creature's name by the number of its row and what the texts hold for it.
pub open spec fn npc_text(
    npc: u32,
    model_text: Option<Seq<char>>,
    name_text: Option<Seq<char>>,
    role_text: Option<Seq<char>>,
) -> Option<Seq<char>> {
    if npc >= 10000 && model_text is Some {
        model_text
    } else if name_text is Some {
        name_text
    } else {
        role_text
    }
}

/// The id in a row of the table.
pub open spec fn id_in(row: Option<(NameText, bool)>) -> Option<u32> {
    match row {
        Some((NameText::Id(n), _)) => Some(n),
        _ => None,
    }
}

/// A creature's name by its model: `text` is what the game's texts hold under the
/// number of that model.
pub fn chr_name(chr: u32, text: Option<String>) -> (r: Option<String>)
    ensures
        opt_text(r) == chr_text(chr, opt_text(text)),
{
    if chr > 0 {
        text
    } else {
        None
    }
}

/// The model of a creature by the number of its row: the leading digits.
pub fn npc_model(npc: u32) -> (r: u32)
    ensures
        r == model_of(npc),
{
    npc / 10000
}

/// A creature's name by the number of its row: what the texts hold for its model, then
/// for its name, then for its role.
pub fn npc_name(
    npc: u32,
    model_text: Option<String>,
    name_text: Option<String>,
    role_text: Option<String>,
) -> (r: Option<String>)
    ensures
        opt_text(r) == npc_text(
            npc,
            opt_text(model_text),
            opt_text(name_text),
            opt_text(role_text),
        ),
{
    match chr_name(npc_model(npc), model_text) {
        Some(s) => Some(s),
        None => match name_text {
            Some(s) => Some(s),
            None => role_text,
        },
    }
}

/// The name that the table gives: `text` is what the game's texts hold under its id.
pub open spec fn table_text(row: Option<(NameText, bool)>, text: Option<Seq<char>>) -> Option<
    Seq<char>,
> {
    match row {
        Some((NameText::Id(_), _)) => text,
        Some((NameText::Text(s), _)) => Some(s),
        None => None,
    }
}

/// The row of the table for a flag.
pub open spec fn row_at(m: Map<u32, TableRow>, flag: u32) -> Option<(NameText, bool)> {
    if m.contains_key(flag) {
        Some(m[flag].text())
    } else {
        None
    }
}

/// The id under which the game's texts hold the name of a flag's boss, if the table
/// gives one.
pub fn table_id(table: &HashMap<u32, TableRow>, flag: u32) -> (r: Option<u32>)
    ensures
        r == id_in(row_at(table@, flag)),
{
    match table.get(&flag) {
        Some(row) => match &row.name {
            TableName::Id(n) => Some(*n),
            TableName::Text(_) => None,
        },
        None => None,
    }
}

/// The name of a boss from the table.
pub fn table_name(table: &HashMap<u32, TableRow>, flag: u32, text: &Option<String>) -> (r: Option<
    String,
>)
    ensures
        opt_text(r) == table_text(row_at(table@, flag), opt_text(*text)),
{
    match table.get(&flag) {
        Some(row) => match &row.name {
            TableName::Id(_) => copy_text(text),
            TableName::Text(s) => Some(s.clone()),
        },
        None => None,
    }
}

// ---------------------------------------------------------------------------
// One boss for each flag
// ---------------------------------------------------------------------------

/// Where the boss with the flag stands in the list, or the length of the list.
pub open spec fn flag_at(bs: Seq<BossText>, flag: u32) -> int
    decreases bs.len(),
{
    if bs.len() == 0 || bs[0].flag == flag {
        0
    } else {
        1 + flag_at(bs.skip(1), flag)
    }
}

/// The list with one more row: a new flag is added; a known one stays as it is, unless
/// it stands on a tile and the new row on a map of its own.
pub open spec fn with_boss(bs: Seq<BossText>, b: BossText) -> Seq<BossText> {
    let k: int = flag_at(bs, b.flag);
    if k < bs.len() {
        if is_tiled(bs[k].map.0) && !is_tiled(b.map.0) {
            bs.update(k, b)
        } else {
            bs
        }
    } else {
        bs.push(b)
    }
}

/// The list of some rows.
pub open spec fn with_bosses(rows: Seq<BossText>) -> Seq<BossText>
    decreases rows.len(),
{
    if rows.len() == 0 {
        Seq::empty()
    } else {
        with_boss(with_bosses(rows.drop_last()), rows.last())
    }
}

pub proof fn lemma_flag_at(bs: Seq<BossText>, flag: u32)
    ensures
        0 <= flag_at(bs, flag) <= bs.len(),
        flag_at(bs, flag) < bs.len() ==> bs[flag_at(bs, flag)].flag == flag,
        forall|i: int| 0 <= i < flag_at(bs, flag) ==> (#[trigger] bs[i]).flag != flag,
    decreases bs.len(),
{
    if bs.len() > 0 && bs[0].flag != flag {
        lemma_flag_at(bs.skip(1), flag);
        assert forall|i: int| 0 <= i < flag_at(bs, flag) implies (#[trigger] bs[i]).flag
            != flag by {
            if i > 0 {
                assert(bs[i] == bs.skip(1)[i - 1]);
            }
        }
    }
}

/// One flag of a defeat is one boss. A second row for the same flag usually describes
/// the way in on the big map; the row on a map of its own wins, because there the boss
/// really stands.
pub fn one_per_flag(acc: Vec<Boss>, b: Boss) -> (r: Vec<Boss>)
    ensures
        boss_texts(r@) == with_boss(boss_texts(acc@), b.text()),
{
    let mut acc: Vec<Boss> = acc;
    let ghost bs = boss_texts(acc@);
    let mut k: usize = 0;
    assert(bs.skip(0) == bs);
    while k < acc.len() && acc[k].flag != b.flag
        invariant
            k <= acc.len(),
            bs == boss_texts(acc@),
            flag_at(bs, b.flag) == k + flag_at(bs.skip(k as int), b.flag),
        decreases acc.len() - k,
    {
        assert(bs.skip(k as int)[0] == acc@[k as int].text());
        assert(bs.skip(k as int).skip(1) == bs.skip(k + 1));
        k = k + 1;
    }
    proof {
        if k < acc.len() {
            assert(bs.skip(k as int)[0] == acc@[k as int].text());
        }
        assert(flag_at(bs, b.flag) == k);
    }
    let ghost text = b.text();
    if k < acc.len() {
        if tiled(acc[k].map.0) && !tiled(b.map.0) {
            acc[k] = b;
            assert(boss_texts(acc@) == bs.update(k as int, text));
        }
    } else {
        acc.push(b);
        assert(boss_texts(acc@) == bs.push(text));
    }
    acc
}

/// No flag stands twice in the list.
pub open spec fn flags_differ(bs: Seq<BossText>) -> bool {
    forall|i: int, j: int|
        0 <= i < j < bs.len() ==> (#[trigger] bs[i]).flag != (#[trigger] bs[j]).flag
}

proof fn lemma_flags_differ(rows: Seq<BossText>)
    ensures
        flags_differ(with_bosses(rows)),
    decreases rows.len(),
{
    if rows.len() > 0 {
        let bs = with_bosses(rows.drop_last());
        let b = rows.last();
        let out = with_bosses(rows);
        lemma_flags_differ(rows.drop_last());
        lemma_flag_at(bs, b.flag);
        assert(out == with_boss(bs, b));
        assert forall|i: int, j: int| 0 <= i < j < out.len() implies (#[trigger] out[i]).flag != (
        #[trigger] out[j]).flag by {
            if j < bs.len() {
                assert(out[i].flag == bs[i].flag && out[j].flag == bs[j].flag);
            } else {
                assert(out[i].flag == bs[i].flag);
            }
        }
    }
}

/// Where the boss of a row stands in the list.
proof fn lemma_row_is_listed(rows: Seq<BossText>, i: int) -> (k: int)
    requires
        0 <= i < rows.len(),
    ensures
        0 <= k < with_bosses(rows).len(),
        with_bosses(rows)[k].flag == rows[i].flag,
        !is_tiled(rows[i].map.0) ==> !is_tiled(with_bosses(rows)[k].map.0),
    decreases rows.len(),
{
    let front = rows.drop_last();
    let bs = with_bosses(front);
    let b = rows.last();
    lemma_flag_at(bs, b.flag);
    assert(with_bosses(rows) == with_boss(bs, b));
    if i < front.len() {
        assert(rows[i] == front[i]);
        lemma_row_is_listed(front, i)
    } else {
        flag_at(bs, b.flag)
    }
}

/// The row that a boss of the list comes from.
proof fn lemma_listed_is_a_row(rows: Seq<BossText>, k: int) -> (i: int)
    requires
        0 <= k < with_bosses(rows).len(),
    ensures
        0 <= i < rows.len(),
        rows[i] == with_bosses(rows)[k],
    decreases rows.len(),
{
    let front = rows.drop_last();
    let bs = with_bosses(front);
    let out = with_bosses(rows);
    assert(out == with_boss(bs, rows.last()));
    lemma_flag_at(bs, rows.last().flag);
    if k < bs.len() && out[k] == bs[k] {
        let i = lemma_listed_is_a_row(front, k);
        assert(rows[i] == front[i]);
        i
    } else {
        rows.len() - 1
    }
}

/// One flag means one boss, whichever row came first; every flag of the rows has its
/// boss; every boss is one of the rows; and he stands on a map of his own if any row
/// of his flag does.
pub proof fn one_flag_means_one_boss(rows: Seq<BossText>)
    ensures
        flags_differ(with_bosses(rows)),
        forall|i: int|
            0 <= i < rows.len() ==> exists|k: int|
                0 <= k < with_bosses(rows).len() && (#[trigger] with_bosses(rows)[k]).flag == (
                #[trigger] rows[i]).flag,
        forall|k: int|
            0 <= k < with_bosses(rows).len() ==> exists|i: int|
                0 <= i < rows.len() && #[trigger] rows[i] == #[trigger] with_bosses(rows)[k],
        forall|i: int, k: int|
            0 <= i < rows.len() && 0 <= k < with_bosses(rows).len() && (
            #[trigger] rows[i]).flag == (#[trigger] with_bosses(rows)[k]).flag && !is_tiled(
                rows[i].map.0,
            ) ==> !is_tiled(with_bosses(rows)[k].map.0),
{
    let out = with_bosses(rows);
    lemma_flags_differ(rows);
    assert forall|i: int| 0 <= i < rows.len() implies exists|k: int|
        0 <= k < out.len() && (#[trigger] out[k]).flag == (#[trigger] rows[i]).flag by {
        let k = lemma_row_is_listed(rows, i);
        assert(out[k].flag == rows[i].flag);
    }
    assert forall|k: int| 0 <= k < out.len() implies exists|i: int|
        0 <= i < rows.len() && #[trigger] rows[i] == #[trigger] out[k] by {
        let i = lemma_listed_is_a_row(rows, k);
        assert(rows[i] == out[k]);
    }
    assert forall|i: int, k: int|
        0 <= i < rows.len() && 0 <= k < out.len() && (#[trigger] rows[i]).flag == (
        #[trigger] out[k]).flag && !is_tiled(rows[i].map.0) implies !is_tiled(out[k].map.0) by {
        let m = lemma_row_is_listed(rows, i);
        assert(m == k) by {
            if m < k {
                assert(out[m].flag != out[k].flag);
            } else if k < m {
                assert(out[k].flag != out[m].flag);
            }
        }
    }
}

/// Where the first row of a flag on a map of its own stands, or the number of rows.
pub open spec fn own_at(rows: Seq<BossText>, flag: u32) -> int
    decreases rows.len(),
{
    if rows.len() == 0 || (rows[0].flag == flag && !is_tiled(rows[0].map.0)) {
        0
    } else {
        1 + own_at(rows.skip(1), flag)
    }
}

/// The row that the boss of a flag is described by: the first on a map of its own, or else
/// the first of all.
pub open spec fn kept_row(rows: Seq<BossText>, flag: u32) -> BossText {
    if own_at(rows, flag) < rows.len() {
        rows[own_at(rows, flag)]
    } else {
        rows[flag_at(rows, flag)]
    }
}

proof fn lemma_own_at(rows: Seq<BossText>, flag: u32)
    ensures
        0 <= own_at(rows, flag) <= rows.len(),
        own_at(rows, flag) < rows.len() ==> rows[own_at(rows, flag)].flag == flag && !is_tiled(
            rows[own_at(rows, flag)].map.0,
        ),
        forall|i: int|
            0 <= i < own_at(rows, flag) && (#[trigger] rows[i]).flag == flag ==> is_tiled(
                rows[i].map.0,
            ),
    decreases rows.len(),
{
    if rows.len() > 0 && !(rows[0].flag == flag && !is_tiled(rows[0].map.0)) {
        lemma_own_at(rows.skip(1), flag);
        assert forall|i: int|
            0 <= i < own_at(rows, flag) && (#[trigger] rows[i]).flag == flag implies is_tiled(
            rows[i].map.0,
        ) by {
            if i > 0 {
                assert(rows[i] == rows.skip(1)[i - 1]);
            }
        }
    }
}

/// One more row changes what is first only for its own flag, and only where there was none.
proof fn lemma_one_more_row(rows: Seq<BossText>, flag: u32)
    requires
        rows.len() > 0,
    ensures
        flag_at(rows, flag) == if flag_at(rows.drop_last(), flag) < rows.len() - 1
            || rows.last().flag == flag {
            flag_at(rows.drop_last(), flag)
        } else {
            rows.len() as int
        },
        own_at(rows, flag) == if own_at(rows.drop_last(), flag) < rows.len() - 1 || (
        rows.last().flag == flag && !is_tiled(rows.last().map.0)) {
            own_at(rows.drop_last(), flag)
        } else {
            rows.len() as int
        },
{
    let front = rows.drop_last();
    lemma_flag_at(rows, flag);
    lemma_flag_at(front, flag);
    lemma_own_at(rows, flag);
    lemma_own_at(front, flag);
    let (a, b) = (flag_at(rows, flag), flag_at(front, flag));
    let (c, d) = (own_at(rows, flag), own_at(front, flag));
    assert(forall|i: int| 0 <= i < front.len() ==> #[trigger] front[i] == rows[i]);
    if a < b {
        assert(front[a].flag != flag);
    }
    if b < a && b < front.len() {
        assert(rows[b].flag != flag);
    }
    if c < d {
        assert(front[c] == rows[c]);
    }
    if d < c && d < front.len() {
        assert(rows[d] == front[d]);
    }
}

/// The list is in the order in which its flags first came, and each boss in it is described
/// by the first row of the flag on a map of its own, or, where all are tiles of the big map,
/// by the first of all.
pub proof fn the_list_keeps_the_first_rows(rows: Seq<BossText>)
    ensures
        flags_differ(with_bosses(rows)),
        forall|i: int, j: int|
            0 <= i < j < with_bosses(rows).len() ==> flag_at(
                rows,
                (#[trigger] with_bosses(rows)[i]).flag,
            ) < flag_at(rows, (#[trigger] with_bosses(rows)[j]).flag),
        forall|k: int|
            0 <= k < with_bosses(rows).len() ==> #[trigger] with_bosses(rows)[k] == kept_row(
                rows,
                with_bosses(rows)[k].flag,
            ) && flag_at(rows, with_bosses(rows)[k].flag) < rows.len(),
        forall|flag: u32|
            #[trigger] flag_at(rows, flag) < rows.len() <==> flag_at(with_bosses(rows), flag)
                < with_bosses(rows).len(),
    decreases rows.len(),
{
    lemma_flags_differ(rows);
    if rows.len() > 0 {
        let front = rows.drop_last();
        let bs = with_bosses(front);
        let b = rows.last();
        let out = with_bosses(rows);
        the_list_keeps_the_first_rows(front);
        lemma_flag_at(bs, b.flag);
        lemma_flag_at(front, b.flag);
        lemma_own_at(front, b.flag);
        let k0 = flag_at(bs, b.flag);
        assert(out == with_boss(bs, b));
        assert(flag_at(front, b.flag) < front.len() <==> k0 < bs.len());
        assert forall|i: int, j: int| 0 <= i < j < out.len() implies flag_at(
            rows,
            (#[trigger] out[i]).flag,
        ) < flag_at(rows, (#[trigger] out[j]).flag) by {
            lemma_one_more_row(rows, out[i].flag);
            lemma_one_more_row(rows, out[j].flag);
            lemma_flag_at(front, out[i].flag);
            lemma_flag_at(front, out[j].flag);
            assert(out[i].flag == bs[i].flag);
            if j < bs.len() {
                assert(out[j].flag == bs[j].flag);
                assert(flag_at(front, bs[i].flag) < flag_at(front, bs[j].flag));
            } else {
                assert(flag_at(front, bs[i].flag) < front.len());
            }
        }
        assert forall|k: int| 0 <= k < out.len() implies #[trigger] out[k] == kept_row(
            rows,
            out[k].flag,
        ) && flag_at(rows, out[k].flag) < rows.len() by {
            lemma_one_more_row(rows, out[k].flag);
            lemma_own_at(front, out[k].flag);
            lemma_flag_at(front, out[k].flag);
            if k < bs.len() {
                assert(out[k].flag == bs[k].flag);
                assert(bs[k] == kept_row(front, bs[k].flag));
                assert(k == k0 <==> bs[k].flag == b.flag);
            }
        }
        assert forall|flag: u32| #[trigger]
            flag_at(rows, flag) < rows.len() <==> flag_at(out, flag) < out.len() by {
            lemma_one_more_row(rows, flag);
            lemma_flag_at(front, flag);
            lemma_flag_at(bs, flag);
            lemma_flag_at(out, flag);
            assert(flag_at(front, flag) < front.len() <==> flag_at(bs, flag) < bs.len());
            if flag_at(bs, flag) < bs.len() {
                assert(out[flag_at(bs, flag)].flag == flag);
            }
            if flag_at(out, flag) < out.len() {
                let m = flag_at(out, flag);
                if m < bs.len() {
                    assert(bs[m].flag == flag);
                }
            }
            if b.flag == flag && k0 >= bs.len() {
                assert(out[bs.len() as int].flag == flag);
            }
        }
    }
}

// ---------------------------------------------------------------------------
// The registry
// ---------------------------------------------------------------------------

/// A row of the game's table of boss areas.
pub struct Area {
    pub flag: u32,
    pub map: Cell,
    pub pos: Point,
}

/// What the host found out for an area: the game's text for its name in the table, and
/// the squared distances to the sites of grace from its place and from the cell of its
/// marker.
pub struct AreaFacts {
    pub text: Option<String>,
    pub squares: Vec<Scalar>,
    pub pin_squares: Vec<Scalar>,
}

/// All that is known of names and places beside the areas themselves.
pub struct Sources {
    /// Names learned in fights.
    pub learned: HashMap<u32, String>,
    /// The table of names.
    pub table: HashMap<u32, TableRow>,
    /// Names from markers and sites of grace.
    pub names: HashMap<u32, String>,
    /// Cells of markers.
    pub pins: HashMap<u32, Cell>,
    pub graces: Vec<Grace>,
}

/// The name of a flag in a map of names.
pub open spec fn name_in(m: Map<u32, String>, flag: u32) -> Option<Seq<char>> {
    if m.contains_key(flag) {
        Some(m[flag]@)
    } else {
        None
    }
}

/// The first of two texts that there is.
pub open spec fn or_text(a: Option<Seq<char>>, b: Option<Seq<char>>) -> Option<Seq<char>> {
    if a is Some {
        a
    } else {
        b
    }
}

/// The boss of an area. What was learned in a fight names him first, then the table,
/// then markers and sites of grace: the text of a marker is the name of a place, and
/// belongs to a boss only where the flags happen to agree.
pub open spec fn boss_of(s: Sources, a: Area, f: AreaFacts) -> BossText {
    BossText {
        flag: a.flag,
        name: or_text(
            name_in(s.learned@, a.flag),
            or_text(
                table_text(row_at(s.table@, a.flag), opt_text(f.text)),
                name_in(s.names@, a.flag),
            ),
        ),
        map: a.map,
        pos: a.pos,
        place: or_text(
            place_at(a.map, grace_texts(s.graces@), f.squares@),
            if s.pins@.contains_key(a.flag) {
                place_at(s.pins@[a.flag], grace_texts(s.graces@), f.pin_squares@)
            } else {
                None
            },
        ),
        remembrance: match row_at(s.table@, a.flag) {
            Some((_, r)) => r,
            None => false,
        },
    }
}

/// The rows of all areas that have a flag.
pub open spec fn area_bosses(s: Sources, areas: Seq<Area>, facts: Seq<AreaFacts>) -> Seq<BossText>
    decreases areas.len(),
{
    if areas.len() == 0 {
        Seq::empty()
    } else {
        let before: Seq<BossText> = area_bosses(s, areas.drop_last(), facts.drop_last());
        if areas.last().flag == 0 {
            before
        } else {
            before.push(boss_of(s, areas.last(), facts.last()))
        }
    }
}

fn name_of(m: &HashMap<u32, String>, flag: u32) -> (r: Option<String>)
    ensures
        opt_text(r) == name_in(m@, flag),
{
    match m.get(&flag) {
        Some(s) => Some(s.clone()),
        None => None,
    }
}

fn or_else(a: Option<String>, b: Option<String>) -> (r: Option<String>)
    ensures
        opt_text(r) == or_text(opt_text(a), opt_text(b)),
{
    match a {
        Some(s) => Some(s),
        None => b,
    }
}

fn boss_in(s: &Sources, a: &Area, f: &AreaFacts) -> (r: Boss)
    requires
        f.squares.len() == s.graces.len(),
        f.pin_squares.len() == s.graces.len(),
    ensures
        r.text() == boss_of(*s, *a, *f),
{
    let place: Option<String> = place_of(a.map, &s.graces, &f.squares);
    let pinned: Option<String> = match s.pins.get(&a.flag) {
        Some(pin) => place_of(*pin, &s.graces, &f.pin_squares),
        None => None,
    };
    let remembrance: bool = match s.table.get(&a.flag) {
        Some(row) => row.remembrance,
        None => false,
    };
    Boss {
        flag: a.flag,
        name: or_else(
            name_of(&s.learned, a.flag),
            or_else(table_name(&s.table, a.flag, &f.text), name_of(&s.names, a.flag)),
        ),
        map: a.map,
        pos: a.pos,
        place: or_else(place, pinned),
        remembrance,
    }
}

/// The whole registry: one boss for each flag of a defeat in the game's table of boss
/// areas, with the name and the location that are known for him.
pub fn build(s: &Sources, areas: &Vec<Area>, facts: &Vec<AreaFacts>) -> (r: Vec<Boss>)
    requires
        facts.len() == areas.len(),
        forall|i: int|
            0 <= i < facts.len() ==> (#[trigger] facts@[i]).squares.len() == s.graces.len()
                && facts@[i].pin_squares.len() == s.graces.len(),
    ensures
        boss_texts(r@) == with_bosses(area_bosses(*s, areas@, facts@)),
{
    let mut r: Vec<Boss> = Vec::new();
    assert(boss_texts(r@) == with_bosses(area_bosses(*s, areas@.take(0), facts@.take(0))));
    for i in 0..areas.len()
        invariant
            facts.len() == areas.len(),
            forall|i: int|
                0 <= i < facts.len() ==> (#[trigger] facts@[i]).squares.len() == s.graces.len()
                    && facts@[i].pin_squares.len() == s.graces.len(),
            boss_texts(r@) == with_bosses(
                area_bosses(*s, areas@.take(i as int), facts@.take(i as int)),
            ),
    {
        proof {
            assert(areas@.take(i + 1).drop_last() == areas@.take(i as int));
            assert(facts@.take(i + 1).drop_last() == facts@.take(i as int));
            let before = area_bosses(*s, areas@.take(i as int), facts@.take(i as int));
            let b = boss_of(*s, areas@[i as int], facts@[i as int]);
            assert(before.push(b).drop_last() == before);
        }
        if areas[i].flag != 0 {
            let b: Boss = boss_in(s, &areas[i], &facts[i]);
            r = one_per_flag(r, b);
        }
    }
    assert(areas@.take(areas@.len() as int) == areas@);
    assert(facts@.take(facts@.len() as int) == facts@);
    r
}

} // verus!
