//! Boss names learned in fights. A boss that a mod adds usually has no marker and no
//! site of grace, so no table names him. During the fight the game itself shows his
//! name; what is left is to tell which boss it belongs to.

use std::collections::{HashMap, HashSet};

use vstd::prelude::*;
use vstd::std_specs::iter::IteratorSpec;
use crate::boss_list::codes;
use crate::bosses::name_texts;
use crate::ini_laws::{
    closed_piece, flat, lemma_pieces_flat, lemma_pieces_open, lemma_trim_push, lemma_trim_value,
    lemma_trimmed_ends, one_line,
};
use crate::order::{
    belongs_before, is_sorted_order, key_before, keys_of, lemma_key_irreflexive, sorted_order,
};
use crate::scalar::Scalar;
use crate::text::{
    append_text, chars_of, decimal, decimal_of, decimal_reads_back, is_digit, join, joined,
    lemma_decimal, line_body, lines, lines_of, parsed, pieces, runs, same, split_at_first,
    split_once, string_of, texts, trim, trim_end, trim_start, trimmed, unsigned,
};

verus! {

broadcast use vstd::std_specs::hash::group_hash_axioms;

/// The name of the file with the learned names.
pub const LEARNED_FILE: &'static str = "game_information_counter.bosses";

/// The encoding of 150: farther than this many meters a name is not given away, because
/// the player stands on the arena and not beside it.
pub const LEARN_RADIUS: u32 = 0x4316_0000;

/// The encoding of 1000: farther than this many meters a flag is somebody else's.
pub const WATCH_RADIUS: u32 = 0x447A_0000;

/// After a pause this long, in nanoseconds, the watched flags are out of date: a fight
/// is looked at on every frame, so a pause is its end.
pub const WATCH_GAP: u64 = 3_000_000_000;

/// A boss of the registry as he stands to the player.
#[derive(Clone, Copy)]
pub struct Near {
    pub flag: u32,
    /// Some source knows his name.
    pub named: bool,
    /// The flag of his defeat is up.
    pub up: bool,
    /// How far he is along the ground, where that can be compared.
    pub dist: Option<Scalar>,
}

/// What has been learned, and the flags that are watched in this fight.
pub struct Lore {
    /// The names by the flags of defeats; `None` until the file has been read.
    pub learned: Option<HashMap<u32, String>>,
    /// The bosses without a name nearby whose flags were down when the fight began.
    pub watched: Vec<u32>,
    /// When they were last looked at.
    pub watched_at: Option<u64>,
    /// This fight has named somebody already.
    pub named: bool,
}

/// The same by its texts.
pub struct LoreText {
    pub learned: Option<Map<u32, Seq<char>>>,
    pub watched: Seq<u32>,
    pub watched_at: Option<u64>,
    pub named: bool,
}

impl Lore {
    pub open spec fn text(self) -> LoreText {
        LoreText {
            learned: match self.learned {
                Some(m) => Some(name_texts(m@)),
                None => None,
            },
            watched: self.watched@,
            watched_at: self.watched_at,
            named: self.named,
        }
    }
}

// ---------------------------------------------------------------------------
// The file
// ---------------------------------------------------------------------------

/// A line of the file: a flag, an equals sign, a name. Anything else is passed over.
pub open spec fn learned_line(line: Seq<char>) -> Option<(u32, Seq<char>)> {
    match split_once(line, '=') {
        Some((f, n)) => match unsigned(trim(f), u32::MAX as nat) {
            Some(flag) => if trim(n).len() > 0 {
                Some((flag as u32, trim(n)))
            } else {
                None
            },
            None => None,
        },
        None => None,
    }
}

/// The names in some lines; of two for one flag the later counts.
pub open spec fn learned_of(ls: Seq<Seq<char>>) -> Map<u32, Seq<char>>
    decreases ls.len(),
{
    if ls.len() == 0 {
        Map::empty()
    } else {
        match learned_line(ls.last()) {
            Some((flag, name)) => learned_of(ls.drop_last()).insert(flag, name),
            None => learned_of(ls.drop_last()),
        }
    }
}

/// Reads the file. A broken line is passed over: the file is edited by hand.
pub fn parse_learned(text: &str) -> (r: HashMap<u32, String>)
    ensures
        name_texts(r@) == learned_of(lines(text@)),
{
    let ls: Vec<Vec<char>> = lines_of(text);
    let mut r: HashMap<u32, String> = HashMap::new();
    assert(name_texts(r@) == learned_of(runs(ls@).take(0)));
    for i in 0..ls.len()
        invariant
            name_texts(r@) == learned_of(runs(ls@).take(i as int)),
    {
        let ghost before = r@;
        proof {
            let next = runs(ls@).take(i + 1);
            assert(next.drop_last() == runs(ls@).take(i as int));
            assert(next.last() == ls@[i as int]@);
        }
        match split_at_first(&ls[i], '=') {
            Some((f, n)) => {
                let name: Vec<char> = trimmed(&n);
                match parsed(&trimmed(&f), u32::MAX as u64) {
                    Some(flag) => {
                        if name.len() > 0 {
                            let s: String = string_of(&name);
                            r.insert(flag as u32, s);
                            assert(name_texts(r@) == name_texts(before).insert(flag as u32, s@));
                        }
                    },
                    None => {},
                }
            },
            None => {},
        }
    }
    assert(runs(ls@).take(ls@.len() as int) == runs(ls@));
    r
}

/// The line for a name.
pub open spec fn flag_line(flag: u32, name: Seq<char>) -> Seq<char> {
    decimal(flag as nat) + seq![' ', '=', ' '] + name
}

/// One text comes before another by the numbers of their characters.
pub open spec fn text_before(a: Seq<char>, b: Seq<char>) -> bool {
    key_before(codes(a), codes(b))
}

/// `ls` are the lines for a map of names, each once, in order.
pub open spec fn lines_for(m: Map<u32, Seq<char>>, ls: Seq<Seq<char>>) -> bool {
    &&& forall|i: int, j: int|
        0 <= i < j < ls.len() ==> text_before(#[trigger] ls[i], #[trigger] ls[j])
    &&& forall|i: int|
        0 <= i < ls.len() ==> exists|f: u32| #[trigger]
            m.contains_key(f) && #[trigger] ls[i] == flag_line(f, m[f])
    &&& forall|f: u32| #[trigger] m.contains_key(f) ==> ls.contains(flag_line(f, m[f]))
}

fn line_for(flag: u32, name: &str) -> (r: String)
    ensures
        r@ == flag_line(flag, name@),
{
    let mut v: Vec<char> = decimal_of(flag as u64);
    v.push(' ');
    v.push('=');
    v.push(' ');
    append_text(&mut v, name);
    assert(v@ == flag_line(flag, name@));
    string_of(&v)
}

fn codes_of(s: &str) -> (r: Vec<i64>)
    ensures
        r@ == codes(s@),
{
    let w: Vec<char> = chars_of(s);
    let mut r: Vec<i64> = Vec::new();
    for i in 0..w.len()
        invariant
            w@ == s@,
            r@ == codes(s@.take(i as int)),
    {
        r.push(w[i] as u32 as i64);
        assert(r@ == codes(s@.take(i + 1)));
    }
    assert(s@.take(s@.len() as int) == s@);
    r
}

/// Before the equals sign of a line stands its flag.
proof fn lemma_flag_line(f: u32, name: Seq<char>)
    ensures
        crate::text::first_at(flag_line(f, name), '=') == decimal(f as nat).len() + 1,
        flag_line(f, name).take(decimal(f as nat).len() as int + 1) == decimal(f as nat).push(' '),
        flag_line(f, name).skip(decimal(f as nat).len() as int + 2) == seq![' '] + name,
{
    let d = decimal(f as nat);
    let s = flag_line(f, name);
    crate::text::lemma_decimal(f as nat);
    assert forall|j: int| 0 <= j < d.len() + 1 implies s[j] != '=' by {
        if j < d.len() {
            assert(s[j] == d[j]);
            assert(crate::text::is_digit(d[j]));
        }
    }
    crate::text::lemma_first_at_is(s, '=', d.len() as int + 1);
    assert(s.take(d.len() as int + 1) == d.push(' '));
    assert(s.skip(d.len() as int + 2) == seq![' '] + name);
}

proof fn lemma_flag_line_differs(f: u32, g: u32, a: Seq<char>, b: Seq<char>)
    requires
        f != g,
    ensures
        flag_line(f, a) != flag_line(g, b),
{
    if flag_line(f, a) == flag_line(g, b) {
        lemma_flag_line(f, a);
        lemma_flag_line(g, b);
        let x = decimal(f as nat);
        let y = decimal(g as nat);
        assert(x.len() == y.len());
        assert(x.push(' ') == y.push(' '));
        assert(x.push(' ').drop_last() == x);
        assert(y.push(' ').drop_last() == y);
        crate::text::lemma_decimal(f as nat);
        crate::text::lemma_decimal(g as nat);
        assert(crate::text::digits_value(x) == f);
    }
}

/// The text of the file: one line for each name, in order.
pub fn learned_text(m: &HashMap<u32, String>) -> (r: String)
    ensures
        exists|ls: Seq<Seq<char>>|
            lines_for(name_texts(m@), ls) && r@ == #[trigger] join(ls, "\n"@),
{
    let mut all: Vec<String> = Vec::new();
    let mut keys: Vec<Vec<i64>> = Vec::new();
    for (f, name) in it: m.iter()
        invariant
            it.seq() == vstd::std_specs::hash::spec_hash_map_iter(m).remaining(),
            all.len() == it.index(),
            keys.len() == it.index(),
            forall|i: int|
                0 <= i < it.index() ==> (#[trigger] all@[i])@ == flag_line(
                    *it.seq()[i].0,
                    it.seq()[i].1@,
                ),
            forall|i: int| 0 <= i < it.index() ==> (#[trigger] keys@[i])@ == codes(all@[i]@),
    {
        let line: String = line_for(*f, name);
        keys.push(codes_of(&line));
        all.push(line);
    }
    let ghost v = vstd::std_specs::hash::spec_hash_map_iter(m).remaining();
    let p: Vec<usize> = sorted_order(&keys);
    let mut out: Vec<String> = Vec::new();
    for i in 0..p.len()
        invariant
            keys.len() == all.len(),
            p.len() == all.len(),
            is_sorted_order(keys_of(keys@), p@),
            out.len() == i,
            forall|j: int| 0 <= j < i ==> (#[trigger] out@[j])@ == all@[p@[j] as int]@,
    {
        assert(p@[i as int] < keys_of(keys@).len());
        out.push(all[p[i]].clone());
    }
    let r: String = string_of(&joined(&out, "\n"));
    proof {
        let ls = texts(out@);
        let t = name_texts(m@);
        let ks = keys_of(keys@);
        assert forall|i: int| 0 <= i < v.len() implies t.contains_key(*(#[trigger] v[i]).0)
            && t[*v[i].0] == v[i].1@ by {
            assert(m@.contains_key(*v[i].0));
            assert(m@[*v[i].0] == *v[i].1);
        }
        assert forall|i: int, j: int| 0 <= i < j < ls.len() implies text_before(
            #[trigger] ls[i],
            #[trigger] ls[j],
        ) by {
            let a = p@[i] as int;
            let b = p@[j] as int;
            assert(p@[i] < ks.len() && p@[j] < ks.len());
            assert(belongs_before(ks, p@[i] as int, p@[j] as int));
            assert(ks[a] == codes(all@[a]@) && ks[b] == codes(all@[b]@));
            assert(ls[i] == all@[a]@ && ls[j] == all@[b]@);
            if ks[a] == ks[b] {
                // Two lines are never the same, because their flags differ.
                lemma_codes_equal(all@[a]@, all@[b]@);
                lemma_key_irreflexive(ks[a]);
                assert(a != b);
                let fa = *v[a].0;
                let fb = *v[b].0;
                if fa == fb {
                    assert(v[a] == v[b]) by {
                        assert(m@[*v[a].0] == *v[a].1);
                        assert(m@[*v[b].0] == *v[b].1);
                    }
                    assert(v.no_duplicates());
                } else {
                    lemma_flag_line_differs(fa, fb, v[a].1@, v[b].1@);
                }
            }
        }
        assert forall|i: int| 0 <= i < ls.len() implies exists|f: u32| #[trigger]
            t.contains_key(f) && #[trigger] ls[i] == flag_line(f, t[f]) by {
            let a = p@[i] as int;
            assert(p@[i] < ks.len());
            assert(ls[i] == all@[a]@);
            assert(t.contains_key(*v[a].0));
        }
        assert forall|f: u32| #[trigger] t.contains_key(f) implies ls.contains(
            flag_line(f, t[f]),
        ) by {
            assert(m@.contains_key(f));
            assert(v.contains((&f, &m@[f])));
            let a = choose|a: int| 0 <= a < v.len() && v[a] == (&f, &m@[f]);
            crate::order::every_item_is_placed(ks, p@, a);
            let i = choose|i: int| 0 <= i < p@.len() && #[trigger] p@[i] == a;
            assert(ls[i] == all@[a]@);
        }
        assert(lines_for(t, ls));
    }
    r
}

proof fn lemma_codes_equal(a: Seq<char>, b: Seq<char>)
    requires
        codes(a) == codes(b),
    ensures
        a == b,
{
    assert(codes(a).len() == a.len() && codes(b).len() == b.len());
    assert forall|i: int| 0 <= i < a.len() implies a[i] == b[i] by {
        assert(codes(a)[i] == codes(b)[i]);
        let (c, d) = (a[i], b[i]);
        crate::boss_list::lemma_char_number(c, d);
        assert(codes(a)[i] == c as u32 as i64);
        assert(codes(b)[i] == d as u32 as i64);
    }
    assert(a == b);
}

// ---------------------------------------------------------------------------
// Learning
// ---------------------------------------------------------------------------

/// The first of the watched flags that is up.
pub open spec fn first_risen(watch: Seq<u32>, up: Seq<bool>) -> Option<u32>
    decreases watch.len(),
{
    if watch.len() == 0 {
        None
    } else {
        match first_risen(watch.drop_last(), up.drop_last()) {
            Some(f) => Some(f),
            None => if up.last() {
                Some(watch.last())
            } else {
                None
            },
        }
    }
}

/// Who of the watched has risen. If anybody has, the whole watch is over, because one
/// fight gives one name: if two flags rose in one frame, the second would get the same
/// name on the next.
pub fn pick_risen(watch: &mut Vec<u32>, up: &Vec<bool>) -> (r: Option<u32>)
    requires
        up.len() == old(watch).len(),
    ensures
        r == first_risen(old(watch)@, up@),
        r is Some ==> final(watch)@.len() == 0,
        r is None ==> final(watch)@ == old(watch)@,
{
    let mut found: Option<u32> = None;
    for i in 0..up.len()
        invariant
            up.len() == watch.len(),
            watch@ == old(watch)@,
            found == first_risen(watch@.take(i as int), up@.take(i as int)),
    {
        assert(watch@.take(i + 1).drop_last() == watch@.take(i as int));
        assert(up@.take(i + 1).drop_last() == up@.take(i as int));
        if found.is_none() && up[i] {
            found = Some(watch[i]);
        }
    }
    assert(watch@.take(watch@.len() as int) == watch@);
    assert(up@.take(up@.len() as int) == up@);
    if found.is_some() {
        watch.clear();
    }
    found
}

/// The flags to watch from now on: bosses nearby without a name whose flags are down.
pub open spec fn to_watch(near: Seq<Near>) -> Seq<u32>
    decreases near.len(),
{
    if near.len() == 0 {
        Seq::empty()
    } else {
        let b: Near = near.last();
        if !b.named && !b.up && b.dist is Some && b.dist.unwrap().at_most(
            Scalar { bits: WATCH_RADIUS },
        ) {
            to_watch(near.drop_last()).push(b.flag)
        } else {
            to_watch(near.drop_last())
        }
    }
}

/// The nearest of the first `n` bosses within the arena; of equally near ones the first.
pub open spec fn on_arena(near: Seq<Near>, n: int) -> Option<int>
    decreases n,
{
    if n <= 0 {
        None
    } else {
        let before: Option<int> = on_arena(near, n - 1);
        let b: Near = near[n - 1];
        if b.dist is None || !b.dist.unwrap().at_most(Scalar { bits: LEARN_RADIUS }) {
            before
        } else {
            match before {
                Some(k) => if b.dist.unwrap().below(near[k].dist.unwrap()) {
                    Some(n - 1)
                } else {
                    before
                },
                None => Some(n - 1),
            }
        }
    }
}

/// The watched flags are out of date.
pub open spec fn is_stale(at: Option<u64>, now: u64) -> bool {
    at is None || now > at.unwrap() + WATCH_GAP
}

/// What learning by flag does: the state after it, whether a name was learned, and
/// whether this fight needs nothing more.
pub open spec fn after_flags(
    s: LoreText,
    name: Seq<char>,
    now: u64,
    up: Option<Seq<bool>>,
    near: Option<Seq<Near>>,
) -> (LoreText, bool, bool) {
    match up {
        None => (s, false, false),
        Some(up) => if is_stale(s.watched_at, now) {
            match near {
                Some(near) => (
                    LoreText {
                        watched: to_watch(near),
                        watched_at: Some(now),
                        named: false,
                        ..s
                    },
                    false,
                    false,
                ),
                None => (s, false, false),
            }
        } else if s.named {
            (LoreText { watched_at: Some(now), ..s }, false, true)
        } else {
            match first_risen(s.watched, up) {
                Some(f) => (
                    LoreText {
                        learned: Some(s.learned.unwrap().insert(f, name)),
                        watched: Seq::empty(),
                        watched_at: Some(now),
                        named: true,
                    },
                    true,
                    true,
                ),
                None => (LoreText { watched_at: Some(now), ..s }, false, false),
            }
        },
    }
}

/// What learning by distance does: the state after it and whether a name was learned.
pub open spec fn after_distance(s: LoreText, name: Seq<char>, near: Option<Seq<Near>>) -> (
    LoreText,
    bool,
) {
    match near {
        None => (s, false),
        Some(near) => match on_arena(near, near.len() as int) {
            Some(k) => {
                let f: u32 = near[k].flag;
                let m: Map<u32, Seq<char>> = s.learned.unwrap();
                if m.contains_key(f) && m[f] == name {
                    (s, false)
                } else {
                    (LoreText { learned: Some(m.insert(f, name)), ..s }, true)
                }
            },
            None => (s, false),
        },
    }
}

/// What a frame of a fight teaches: first the flag that rose while the game showed the
/// name, which needs no distance at all, and otherwise the nearest boss.
pub open spec fn after_fight(
    s: LoreText,
    names: Seq<Seq<char>>,
    now: u64,
    up: Option<Seq<bool>>,
    near: Option<Seq<Near>>,
) -> (LoreText, bool) {
    if names.len() == 0 || s.learned is None {
        (s, false)
    } else {
        let (t, learned, done) = after_flags(s, names[0], now, up, near);
        if done {
            (t, learned)
        } else {
            after_distance(t, names[0], near)
        }
    }
}

pub open spec fn flags_up(up: Option<Vec<bool>>) -> Option<Seq<bool>> {
    match up {
        Some(v) => Some(v@),
        None => None,
    }
}

pub open spec fn nearby(near: Option<Vec<Near>>) -> Option<Seq<Near>> {
    match near {
        Some(v) => Some(v@),
        None => None,
    }
}

fn watch_list(near: &Vec<Near>) -> (r: Vec<u32>)
    ensures
        r@ == to_watch(near@),
{
    let mut r: Vec<u32> = Vec::new();
    for i in 0..near.len()
        invariant
            r@ == to_watch(near@.take(i as int)),
    {
        assert(near@.take(i + 1).drop_last() == near@.take(i as int));
        let b: &Near = &near[i];
        let close: bool = match b.dist {
            Some(d) => d.le(Scalar { bits: WATCH_RADIUS }),
            None => false,
        };
        if !b.named && !b.up && close {
            r.push(b.flag);
        }
    }
    assert(near@.take(near@.len() as int) == near@);
    r
}

fn arena_boss(near: &Vec<Near>) -> (r: Option<u32>)
    ensures
        match on_arena(near@, near@.len() as int) {
            Some(k) => r == Some(near@[k].flag),
            None => r is None,
        },
{
    let mut best: Option<(usize, Scalar)> = None;
    for i in 0..near.len()
        invariant
            match best {
                Some((k, d)) => k < i && near@[k as int].dist == Some(d) && on_arena(
                    near@,
                    i as int,
                ) == Some(k as int),
                None => on_arena(near@, i as int) is None,
            },
    {
        match near[i].dist {
            Some(d) => {
                if d.le(Scalar { bits: LEARN_RADIUS }) {
                    let take: bool = match best {
                        Some((_, b)) => d.lt(b),
                        None => true,
                    };
                    if take {
                        best = Some((i, d));
                    }
                }
            },
            None => {},
        }
    }
    match best {
        Some((k, _)) => Some(near[k].flag),
        None => None,
    }
}

impl Lore {
    /// Nothing has been read yet.
    pub fn new() -> (r: Lore)
        ensures
            r.learned is None,
            r.watched@.len() == 0,
            r.watched_at is None,
            !r.named,
    {
        Lore { learned: None, watched: Vec::new(), watched_at: None, named: false }
    }

    fn insert(&mut self, flag: u32, name: &str)
        requires
            old(self).learned is Some,
        ensures
            final(self).text() == (LoreText {
                learned: Some(old(self).text().learned.unwrap().insert(flag, name@)),
                ..old(self).text()
            }),
    {
        let m: Option<HashMap<u32, String>> = self.learned.take();
        match m {
            Some(m) => {
                let mut m: HashMap<u32, String> = m;
                let ghost before = m@;
                let s: String = name.to_string();
                m.insert(flag, s);
                assert(name_texts(m@) == name_texts(before).insert(flag, s@));
                self.learned = Some(m);
            },
            None => {},
        }
    }

    fn knows(&self, flag: u32, name: &str) -> (r: bool)
        requires
            self.learned is Some,
        ensures
            r == (self.text().learned.unwrap().contains_key(flag)
                && self.text().learned.unwrap()[flag] == name@),
    {
        match &self.learned {
            Some(m) => match m.get(&flag) {
                Some(have) => same(&chars_of(have), name),
                None => false,
            },
            None => false,
        }
    }

    /// Ties the name to the flag that rose while the game showed it. Returns whether a
    /// name was learned and whether this fight needs nothing more.
    fn learn_by_flag(
        &mut self,
        name: &str,
        now: u64,
        up: &Option<Vec<bool>>,
        near: &Option<Vec<Near>>,
    ) -> (r: (bool, bool))
        requires
            old(self).learned is Some,
            up matches Some(v) ==> v.len() == old(self).watched.len(),
        ensures
            (final(self).text(), r.0, r.1) == after_flags(
                old(self).text(),
                name@,
                now,
                flags_up(*up),
                nearby(*near),
            ),
    {
        match up {
            None => (false, false),
            Some(up) => {
                let stale: bool = match self.watched_at {
                    Some(t) => now.saturating_sub(t) > WATCH_GAP,
                    None => true,
                };
                if stale {
                    match near {
                        Some(near) => {
                            self.watched = watch_list(near);
                            self.watched_at = Some(now);
                            self.named = false;
                        },
                        None => {},
                    }
                    return (false, false);
                }
                self.watched_at = Some(now);
                if self.named {
                    return (false, true);
                }
                match pick_risen(&mut self.watched, up) {
                    Some(flag) => {
                        self.named = true;
                        self.insert(flag, name);
                        assert(self.watched@ == Seq::<u32>::empty());
                        (true, true)
                    },
                    None => (false, false),
                }
            },
        }
    }
}

/// The names of a file have been taken over.
pub open spec fn after_reading(s: LoreText, text: Seq<char>) -> LoreText {
    LoreText { learned: Some(learned_of(lines(text))), ..s }
}

/// All learned names are forgotten.
pub open spec fn forgotten(s: LoreText) -> LoreText {
    LoreText {
        learned: match s.learned {
            Some(_) => Some(Map::empty()),
            None => None,
        },
        ..s
    }
}

/// Takes over the names of the file.
pub fn init(lore: &mut Lore, text: &str)
    ensures
        final(lore).text() == after_reading(old(lore).text(), text@),
{
    lore.learned = Some(parse_learned(text));
}

/// Ties the name that the game shows to a boss. Called on every frame of a fight.
/// `up` are the states of the watched flags, `near` the bosses as they stand to the
/// player, as far as the game tells. Returns whether a name was learned, so that
/// the file has to be written and the registry built again.
pub fn learn(
    lore: &mut Lore,
    names: &Vec<String>,
    now: u64,
    up: &Option<Vec<bool>>,
    near: &Option<Vec<Near>>,
) -> (r: bool)
    requires
        up matches Some(v) ==> v.len() == old(lore).watched.len(),
    ensures
        (final(lore).text(), r) == after_fight(
            old(lore).text(),
            texts(names@),
            now,
            flags_up(*up),
            nearby(*near),
        ),
{
    assert(texts(names@).len() == names.len());
    if names.len() == 0 {
        return false;
    }
    assert(texts(names@)[0] == names@[0]@);
    if lore.learned.is_none() {
        return false;
    }
    let (learned, done) = lore.learn_by_flag(&names[0], now, up, near);
    if done {
        return learned;
    }
    assert(lore.learned is Some);
    match near {
        None => false,
        Some(near) => match arena_boss(near) {
            Some(flag) => {
                if lore.knows(flag, &names[0]) {
                    false
                } else {
                    lore.insert(flag, &names[0]);
                    true
                }
            },
            None => false,
        },
    }
}

/// Takes the names of creatures that the game has loaded: the entity id of a boss
/// is the flag of his defeat. `wanted` are the flags without a name, and each
/// creature comes with what the game's texts call it. Returns how many names were
/// learned.
pub fn learn_from_world(
    lore: &mut Lore,
    wanted: &HashSet<u32>,
    creatures: &Vec<(u32, Option<String>)>,
) -> (r: usize)
    ensures
        (final(lore).text(), r as int) == after_world(
            old(lore).text(),
            wanted@,
            creatures@,
        ),
{
    let mut added: usize = 0;
    if lore.learned.is_none() {
        return 0;
    }
    assert(creatures@.take(0).len() == 0);
    for i in 0..creatures.len()
        invariant
            lore.learned is Some,
            added <= i,
            (lore.text(), added as int) == after_world(
                old(lore).text(),
                wanted@,
                creatures@.take(i as int),
            ),
            old(lore).learned is Some,
    {
        let ghost next = creatures@.take(i + 1);
        assert(next.drop_last() == creatures@.take(i as int));
        assert(next.last() == creatures@[i as int]);
        let id: u32 = creatures[i].0;
        let known: bool = match &lore.learned {
            Some(m) => m.contains_key(&id),
            None => true,
        };
        assert(known == lore.text().learned.unwrap().contains_key(id));
        if wanted.contains(&id) && !known {
            match &creatures[i].1 {
                Some(name) => {
                    lore.insert(id, name);
                    added = added + 1;
                },
                None => {},
            }
        }
    }
    assert(creatures@.take(creatures@.len() as int) == creatures@);
    added
}

/// Forgets all learned names, so that the list goes back to what the tables know.
pub fn forget_learned(lore: &mut Lore)
    ensures
        final(lore).text() == forgotten(old(lore).text()),
{
    if lore.learned.is_some() {
        let m: HashMap<u32, String> = HashMap::new();
        assert(name_texts(m@) == Map::<u32, Seq<char>>::empty());
        lore.learned = Some(m);
    }
}

/// How many names have been learned.
pub fn learned_count(lore: &Lore) -> (r: usize)
    ensures
        r == match lore.learned {
            Some(m) => m@.len(),
            None => 0,
        },
{
    match &lore.learned {
        Some(m) => m.len(),
        None => 0,
    }
}

/// What loaded creatures teach: the state after it and how many names were learned.
pub open spec fn after_world(
    s: LoreText,
    wanted: Set<u32>,
    creatures: Seq<(u32, Option<String>)>,
) -> (LoreText, int)
    decreases creatures.len(),
{
    if creatures.len() == 0 || s.learned is None {
        (s, 0)
    } else {
        let (t, n) = after_world(s, wanted, creatures.drop_last());
        let (id, name) = creatures.last();
        if wanted.contains(id) && !t.learned.unwrap().contains_key(id) && name is Some {
            (
                LoreText { learned: Some(t.learned.unwrap().insert(id, name.unwrap()@)), ..t },
                n + 1,
            )
        } else {
            (t, n)
        }
    }
}

/// One fight gives one name by flag: after a flag has named a boss, further frames of
/// the same fight change nothing but the time of the last look.
pub proof fn a_fight_names_one_boss(
    s: LoreText,
    names: Seq<Seq<char>>,
    now: u64,
    up: Seq<bool>,
    near: Option<Seq<Near>>,
)
    requires
        s.learned is Some,
        s.named,
        !is_stale(s.watched_at, now),
        names.len() > 0,
    ensures
        after_fight(s, names, now, Some(up), near) == (
            LoreText { watched_at: Some(now), ..s },
            false,
        ),
{
}

/// What is learned is never lost in a fight: a name may be replaced, but its flag stays.
pub proof fn fights_keep_what_was_learned(
    s: LoreText,
    names: Seq<Seq<char>>,
    now: u64,
    up: Option<Seq<bool>>,
    near: Option<Seq<Near>>,
    flag: u32,
)
    requires
        s.learned is Some,
        s.learned.unwrap().contains_key(flag),
    ensures
        after_fight(s, names, now, up, near).0.learned is Some,
        after_fight(s, names, now, up, near).0.learned.unwrap().contains_key(flag),
{
}

/// A name that a line of the file can hold: on one line, not blank, and without white
/// space round it.
pub open spec fn writable_name(n: Seq<char>) -> bool {
    one_line(n) && n.len() > 0 && trim(n) == n
}

proof fn lemma_flag_line_reads(f: u32, n: Seq<char>)
    requires
        writable_name(n),
    ensures
        learned_line(flag_line(f, n)) == Some((f, n)),
        one_line(flag_line(f, n)),
        line_body(flag_line(f, n)) == flag_line(f, n),
        line_body(flag_line(f, n).push('\n')) == flag_line(f, n),
        flag_line(f, n).len() > 0,
{
    let s = flag_line(f, n);
    let d = decimal(f as nat);
    lemma_flag_line(f, n);
    lemma_decimal(f as nat);
    lemma_trim_value(n);
    assert(trim(d.push(' ')) == d) by {
        lemma_trim_push(d, ' ');
        assert(is_digit(d[0]) && is_digit(d[d.len() - 1]));
        assert(trim_start(d) == d);
        assert(trim_end(d) == d);
    }
    decimal_reads_back(f as nat, u32::MAX as nat);
    assert forall|i: int| 0 <= i < s.len() implies #[trigger] s[i] != '\n' by {
        if i < d.len() {
            assert(s[i] == d[i] && is_digit(d[i]));
        } else if i >= d.len() + 3 {
            assert(s[i] == n[i - d.len() - 3]);
        }
    }
    lemma_trimmed_ends(n);
    assert(s.last() == n[n.len() - 1]);
    assert(s.push('\n').drop_last() == s);
}

/// The lines of the file are the lines that were joined.
proof fn lemma_lines_of_join(ls: Seq<Seq<char>>)
    requires
        forall|i: int|
            0 <= i < ls.len() ==> one_line(#[trigger] ls[i]) && ls[i].len() > 0 && line_body(ls[i])
                == ls[i] && line_body(ls[i].push('\n')) == ls[i],
    ensures
        lines(join(ls, "\n"@)) == ls,
{
    reveal_strlit("\n");
    let nl = "\n"@;
    assert(nl == seq!['\n']);
    if ls.len() == 0 {
        assert(lines(join(ls, nl)) == ls);
    } else {
        let front = ls.drop_last();
        let closed = front.map_values(|l: Seq<char>| l.push('\n'));
        lemma_join_as_flat(ls);
        assert forall|i: int| 0 <= i < closed.len() implies closed_piece(#[trigger] closed[i]) by {
            assert(closed[i] == ls[i].push('\n'));
            assert(ls[i].push('\n').drop_last() == ls[i]);
        }
        lemma_pieces_flat(closed, ls.last());
        assert(ls[ls.len() - 1] == ls.last());
        lemma_pieces_open(ls.last());
        let ps = closed + seq![ls.last()];
        assert(pieces(join(ls, nl), '\n') == ps);
        assert forall|i: int| 0 <= i < ls.len() implies line_body(#[trigger] ps[i]) == ls[i] by {
            if i < front.len() {
                assert(ps[i] == ls[i].push('\n'));
            }
        }
        assert(lines(join(ls, nl)) == ls);
    }
}

proof fn lemma_join_as_flat(ls: Seq<Seq<char>>)
    requires
        ls.len() > 0,
    ensures
        join(ls, seq!['\n']) == flat(
            ls.drop_last().map_values(|l: Seq<char>| l.push('\n')),
        ) + ls.last(),
    decreases ls.len(),
{
    let front = ls.drop_last();
    let closed = front.map_values(|l: Seq<char>| l.push('\n'));
    if ls.len() == 1 {
        assert(flat(closed) == Seq::<char>::empty());
        assert(flat(closed) + ls.last() == ls[0]);
    } else {
        lemma_join_as_flat(front);
        assert(closed.drop_last() == front.drop_last().map_values(|l: Seq<char>| l.push('\n')));
        assert(closed.last() == front.last().push('\n'));
        assert(join(front, seq!['\n']) + seq!['\n'] == flat(closed));
    }
}

proof fn lemma_learned_of(m: Map<u32, Seq<char>>, ls: Seq<Seq<char>>)
    requires
        forall|i: int|
            0 <= i < ls.len() ==> exists|f: u32| #[trigger]
                m.contains_key(f) && #[trigger] ls[i] == flag_line(f, m[f]),
        forall|f: u32| #[trigger] m.contains_key(f) ==> writable_name(m[f]),
    ensures
        forall|f: u32| #[trigger]
            learned_of(ls).contains_key(f) ==> m.contains_key(f) && learned_of(ls)[f] == m[f],
        forall|f: u32|
            #[trigger] m.contains_key(f) && ls.contains(flag_line(f, m[f])) ==> learned_of(
                ls,
            ).contains_key(f),
    decreases ls.len(),
{
    if ls.len() > 0 {
        let front = ls.drop_last();
        assert forall|i: int| 0 <= i < front.len() implies exists|f: u32| #[trigger]
            m.contains_key(f) && #[trigger] front[i] == flag_line(f, m[f]) by {
            assert(front[i] == ls[i]);
        }
        lemma_learned_of(m, front);
        let g = choose|g: u32| #[trigger]
            m.contains_key(g) && ls[ls.len() - 1] == flag_line(g, m[g]);
        lemma_flag_line_reads(g, m[g]);
        assert(learned_of(ls) == learned_of(front).insert(g, m[g]));
        assert forall|f: u32| #[trigger] m.contains_key(f) && ls.contains(
            flag_line(f, m[f]),
        ) implies learned_of(ls).contains_key(f) by {
            let i = choose|i: int| 0 <= i < ls.len() && ls[i] == flag_line(f, m[f]);
            if i < front.len() {
                assert(front[i] == flag_line(f, m[f]));
                assert(front.contains(flag_line(f, m[f])));
            } else if f != g {
                lemma_flag_line_differs(f, g, m[f], m[g]);
            }
        }
    }
}

/// What was learned is read back from the file as it was written.
pub proof fn learned_names_are_read_back(m: Map<u32, Seq<char>>, ls: Seq<Seq<char>>)
    requires
        lines_for(m, ls),
        forall|f: u32| #[trigger] m.contains_key(f) ==> writable_name(m[f]),
    ensures
        learned_of(lines(join(ls, "\n"@))) == m,
{
    assert forall|i: int| 0 <= i < ls.len() implies one_line(#[trigger] ls[i]) && ls[i].len() > 0
        && line_body(ls[i]) == ls[i] && line_body(ls[i].push('\n')) == ls[i] by {
        let f = choose|f: u32| #[trigger] m.contains_key(f) && ls[i] == flag_line(f, m[f]);
        lemma_flag_line_reads(f, m[f]);
    }
    lemma_lines_of_join(ls);
    lemma_learned_of(m, ls);
    assert(learned_of(ls) =~= m);
}

} // verus!
