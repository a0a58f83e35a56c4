//! Bosses: who there is, what they are called and where they stand. All of it comes
//! from the game's own tables, so a mod that adds bosses makes the list grow by
//! itself. The host reads the tables and the texts and computes distances; what
//! follows from them is decided here.

use std::collections::HashMap;

use vstd::prelude::*;
use crate::scalar::Scalar;

verus! {

broadcast use vstd::std_specs::hash::group_hash_axioms;

/// The icon of a marker for a reward ("Godrick's Great Rune"). It hangs on the same
/// flag as the boss and would name him after the rune.
pub const REWARD_ICON: u16 = 373;

/// A cell of the map: area, block and region, or area and grid coordinates.
pub type Cell = (u8, u8, u8);

/// A place within a cell, in meters.
#[derive(Clone, Copy, Debug, PartialEq, Eq, Structural)]
pub struct Point {
    pub x: Scalar,
    pub y: Scalar,
    pub z: Scalar,
}

/// A boss: what does not change during a session.
pub struct Boss {
    /// The event flag of his defeat.
    pub flag: u32,
    /// `None` if no source knows his name. He stays on the list all the same:
    /// otherwise nothing could learn it.
    pub name: Option<String>,
    /// The map he stands on.
    pub map: Cell,
    pub pos: Point,
    /// The location he stands in, if the game knows it.
    pub place: Option<String>,
    /// A remembrance is given for him.
    pub remembrance: bool,
}

/// A boss by the texts that describe him.
pub struct BossText {
    pub flag: u32,
    pub name: Option<Seq<char>>,
    pub map: Cell,
    pub pos: Point,
    pub place: Option<Seq<char>>,
    pub remembrance: bool,
}

/// The text behind an optional string.
pub open spec fn opt_text(s: Option<String>) -> Option<Seq<char>> {
    match s {
        Some(s) => Some(s@),
        None => None,
    }
}

impl Boss {
    pub open spec fn text(self) -> BossText {
        BossText {
            flag: self.flag,
            name: opt_text(self.name),
            map: self.map,
            pos: self.pos,
            place: opt_text(self.place),
            remembrance: self.remembrance,
        }
    }
}

/// The bosses of a list by their texts.
pub open spec fn boss_texts(v: Seq<Boss>) -> Seq<BossText> {
    v.map_values(|b: Boss| b.text())
}

/// The texts of a map of strings.
pub open spec fn name_texts(m: Map<u32, String>) -> Map<u32, Seq<char>> {
    m.map_values(|s: String| s@)
}

/// A copy of an optional string.
pub fn copy_text(s: &Option<String>) -> (r: Option<String>)
    ensures
        opt_text(r) == opt_text(*s),
{
    match s {
        Some(t) => Some(t.clone()),
        None => None,
    }
}

// ---------------------------------------------------------------------------
// Cells
// ---------------------------------------------------------------------------

/// Whether an area is cut into tiles, so that its cells are coordinates and not maps
/// of their own.
pub open spec fn is_tiled(area: u8) -> bool {
    area >= 60
}

pub fn tiled(area: u8) -> (r: bool)
    ensures
        r == is_tiled(area),
{
    area >= 60
}

/// The map that an entity stands on by its id, which begins with the map's number:
/// `10001950` stands on `m10_00_00`. Ids of the open world are longer and do not read
/// so; areas outside `10..=45` are no maps. The area has to be the one that the game
/// named, unless that is a tile of the open world, where the way in stands.
pub open spec fn entity_cell(id: u32, expect_area: u8) -> Option<Cell> {
    let area: int = id as int / 1_000_000;
    let block: int = id as int / 10_000 % 100;
    if id < 100_000_000 && 10 <= area <= 45 && (area == expect_area || is_tiled(expect_area)) {
        Some((area as u8, block as u8, 0u8))
    } else {
        None
    }
}

pub fn cell_of_entity(id: u32, expect_area: u8) -> (r: Option<Cell>)
    ensures
        r == entity_cell(id, expect_area),
{
    if id >= 100_000_000 {
        return None;
    }
    let area: u8 = (id / 1_000_000) as u8;
    let block: u8 = ((id / 10_000) % 100) as u8;
    if area < 10 || area > 45 {
        return None;
    }
    if area == expect_area || tiled(expect_area) {
        Some((area, block, 0))
    } else {
        None
    }
}

/// Whether places in two cells can be compared: in the open world across the tiles
/// of one area, elsewhere only on the same map, because there coordinates are local.
pub open spec fn comparable_cells(from: Cell, to: Cell) -> bool {
    if is_tiled(from.0) {
        is_tiled(to.0) && from.0 == to.0
    } else {
        from == to
    }
}

pub fn comparable(from: Cell, to: Cell) -> (r: bool)
    ensures
        r == comparable_cells(from, to),
{
    if tiled(from.0) {
        tiled(to.0) && from.0 == to.0
    } else {
        from.0 == to.0 && from.1 == to.1 && from.2 == to.2
    }
}

/// The cell of a player in a block, or in none.
pub open spec fn cell_of_player(current: i32, current_cell: Cell, origin_cell: Cell) -> Cell {
    if current == -1 {
        origin_cell
    } else {
        current_cell
    }
}

/// The cell that the player's coordinates are relative to: the block they are in, or
/// the one of origin where they belong to none.
pub fn player_cell(current: i32, current_cell: Cell, origin_cell: Cell) -> (r: Cell)
    ensures
        r == cell_of_player(current, current_cell, origin_cell),
{
    if current == -1 {
        origin_cell
    } else {
        current_cell
    }
}

// ---------------------------------------------------------------------------
// Names from map markers and sites of grace
// ---------------------------------------------------------------------------

/// A marker on the map: its text, its icon, the flag that hides the text, further
/// flags that it mentions, and the cell it stands in.
pub struct Marker {
    pub text: Option<String>,
    pub icon: u16,
    pub flag: u32,
    pub side_flags: Vec<u32>,
    pub cell: Cell,
}

/// A site of grace as a source of names.
pub struct GraceMarker {
    pub text: Option<String>,
    pub flag: u32,
    pub cleared_flag: u32,
}

/// A name offered for a flag. The lower the rank the more it is trusted.
pub struct Offer {
    pub flag: u32,
    pub rank: u8,
    pub name: Seq<char>,
}

/// How far a marker's own flag is trusted: 0, or 2 for a reward's marker.
pub open spec fn marker_rank(icon: u16) -> u8 {
    if icon == REWARD_ICON {
        2
    } else {
        0
    }
}

/// The offer that a text makes for a flag: none without a text or without a flag.
pub open spec fn offer(flag: u32, rank: u8, text: Option<String>) -> Seq<Offer> {
    match text {
        Some(s) => if flag != 0 {
            seq![Offer { flag, rank, name: s@ }]
        } else {
            Seq::empty()
        },
        None => Seq::empty(),
    }
}

/// The offers of a text for several flags of the same rank.
pub open spec fn offers_for(flags: Seq<u32>, rank: u8, text: Option<String>) -> Seq<Offer>
    decreases flags.len(),
{
    if flags.len() == 0 {
        Seq::empty()
    } else {
        offers_for(flags.drop_last(), rank, text) + offer(flags.last(), rank, text)
    }
}

/// The offers of the markers: each for its own flag, and with rank 3 for the others.
pub open spec fn marker_offers(ms: Seq<Marker>) -> Seq<Offer>
    decreases ms.len(),
{
    if ms.len() == 0 {
        Seq::empty()
    } else {
        let m: Marker = ms.last();
        marker_offers(ms.drop_last()) + offer(m.flag, marker_rank(m.icon), m.text) + offers_for(
            m.side_flags@,
            3,
            m.text,
        )
    }
}

/// The offers of the sites of grace, with rank 1.
pub open spec fn grace_offers(gs: Seq<GraceMarker>) -> Seq<Offer>
    decreases gs.len(),
{
    if gs.len() == 0 {
        Seq::empty()
    } else {
        let g: GraceMarker = gs.last();
        grace_offers(gs.drop_last()) + offer(g.flag, 1, g.text) + offer(g.cleared_flag, 1, g.text)
    }
}

/// The offer that wins for a flag: the first of the lowest rank.
pub open spec fn best_offer(offers: Seq<Offer>, flag: u32) -> Option<Offer>
    decreases offers.len(),
{
    if offers.len() == 0 {
        None
    } else {
        let o: Offer = offers.last();
        match best_offer(offers.drop_last(), flag) {
            Some(b) => if o.flag == flag && o.rank < b.rank {
                Some(o)
            } else {
                Some(b)
            },
            None => if o.flag == flag {
                Some(o)
            } else {
                None
            },
        }
    }
}

/// The cell of the first marker with the flag.
pub open spec fn first_pin(ms: Seq<Marker>, flag: u32) -> Option<Cell>
    decreases ms.len(),
{
    if ms.len() == 0 {
        None
    } else {
        match first_pin(ms.drop_last(), flag) {
            Some(c) => Some(c),
            None => if flag != 0 && ms.last().flag == flag {
                Some(ms.last().cell)
            } else {
                None
            },
        }
    }
}

/// The maps hold the winning offer of every flag.
pub open spec fn holds_best(
    names: Map<u32, String>,
    ranks: Map<u32, u8>,
    offers: Seq<Offer>,
) -> bool {
    forall|f: u32|
        {
            &&& #[trigger] names.contains_key(f) == (best_offer(offers, f) is Some)
            &&& ranks.contains_key(f) == (best_offer(offers, f) is Some)
            &&& names.contains_key(f) ==> names[f]@ == best_offer(offers, f).unwrap().name
                && ranks[f] == best_offer(offers, f).unwrap().rank
        }
}

/// The map holds the cell of the first marker of every flag.
pub open spec fn holds_pins(pins: Map<u32, Cell>, ms: Seq<Marker>) -> bool {
    forall|f: u32|
        {
            &&& #[trigger] pins.contains_key(f) == (first_pin(ms, f) is Some)
            &&& pins.contains_key(f) ==> Some(pins[f]) == first_pin(ms, f)
        }
}

/// The map holds the name of the winning offer of every flag.
pub open spec fn holds_names(names: Map<u32, String>, offers: Seq<Offer>) -> bool {
    forall|f: u32|
        {
            &&& #[trigger] names.contains_key(f) == (best_offer(offers, f) is Some)
            &&& names.contains_key(f) ==> names[f]@ == best_offer(offers, f).unwrap().name
        }
}

fn put_offer(
    names: &mut HashMap<u32, String>,
    ranks: &mut HashMap<u32, u8>,
    flag: u32,
    rank: u8,
    text: &Option<String>,
    Ghost(offers): Ghost<Seq<Offer>>,
)
    requires
        holds_best(old(names)@, old(ranks)@, offers),
    ensures
        holds_best(final(names)@, final(ranks)@, offers + offer(flag, rank, *text)),
{
    match text {
        Some(name) => {
            if flag != 0 {
                let ghost next = offers + offer(flag, rank, *text);
                proof {
                    assert(next.drop_last() == offers);
                    assert(next.last() == (Offer { flag, rank, name: name@ }));
                    assert(names@.contains_key(flag) == (best_offer(offers, flag) is Some));
                }
                let keep: bool = match ranks.get(&flag) {
                    Some(have) => *have <= rank,
                    None => false,
                };
                if !keep {
                    names.insert(flag, name.clone());
                    ranks.insert(flag, rank);
                }
                proof {
                    assert forall|f: u32|
                        {
                            &&& #[trigger] names@.contains_key(f) == (best_offer(next, f) is Some)
                            &&& ranks@.contains_key(f) == (best_offer(next, f) is Some)
                            &&& names@.contains_key(f) ==> names@[f]@ == best_offer(
                                next,
                                f,
                            ).unwrap().name && ranks@[f] == best_offer(next, f).unwrap().rank
                        } by {
                        assert(old(names)@.contains_key(f) == (best_offer(offers, f) is Some));
                    }
                }
            } else {
                assert(offers + offer(flag, rank, *text) == offers);
            }
        },
        None => {
            assert(offers + offer(flag, rank, *text) == offers);
        },
    }
}

/// The name of every flag, and the cell of its marker. A name comes from the source
/// that is trusted most, and of several such sources from the first: a marker's own
/// flag, then a site of grace, then a reward's marker, then the other flags that a
/// marker mentions.
pub fn names_and_pins(markers: &Vec<Marker>, graces: &Vec<GraceMarker>) -> (r: (
    HashMap<u32, String>,
    HashMap<u32, Cell>,
))
    ensures
        holds_names(r.0@, marker_offers(markers@) + grace_offers(graces@)),
        holds_pins(r.1@, markers@),
{
    let mut names: HashMap<u32, String> = HashMap::new();
    let mut ranks: HashMap<u32, u8> = HashMap::new();
    let mut pins: HashMap<u32, Cell> = HashMap::new();
    for i in 0..markers.len()
        invariant
            holds_best(names@, ranks@, marker_offers(markers@.take(i as int))),
            holds_pins(pins@, markers@.take(i as int)),
    {
        let m: &Marker = &markers[i];
        let ghost so_far = markers@.take(i as int);
        let ghost next = markers@.take(i + 1);
        assert(next.drop_last() == so_far && next.last() == *m);
        let rank: u8 = if m.icon == REWARD_ICON {
            2
        } else {
            0
        };
        let ghost base = marker_offers(so_far);
        put_offer(&mut names, &mut ranks, m.flag, rank, &m.text, Ghost(base));
        let ghost own = base + offer(m.flag, rank, m.text);
        let ghost pins_before = pins@;
        if m.flag != 0 && !pins.contains_key(&m.flag) {
            pins.insert(m.flag, m.cell);
        }
        proof {
            assert forall|f: u32|
                {
                    &&& #[trigger] pins@.contains_key(f) == (first_pin(next, f) is Some)
                    &&& pins@.contains_key(f) ==> Some(pins@[f]) == first_pin(next, f)
                } by {
                assert(pins_before.contains_key(f) == (first_pin(so_far, f) is Some));
                assert(pins_before.contains_key(m.flag) == (first_pin(so_far, m.flag) is Some));
            }
            assert(own + offers_for(m.side_flags@.take(0), 3, m.text) == own);
        }
        for j in 0..m.side_flags.len()
            invariant
                holds_best(
                    names@,
                    ranks@,
                    own + offers_for(m.side_flags@.take(j as int), 3, m.text),
                ),
                holds_pins(pins@, next),
        {
            let ghost sides = offers_for(m.side_flags@.take(j as int), 3, m.text);
            put_offer(
                &mut names,
                &mut ranks,
                m.side_flags[j],
                3,
                &m.text,
                Ghost(own + sides),
            );
            proof {
                let more = m.side_flags@.take(j + 1);
                assert(more.drop_last() == m.side_flags@.take(j as int));
                assert(own + offers_for(more, 3, m.text) == own + sides + offer(
                    m.side_flags@[j as int],
                    3,
                    m.text,
                ));
            }
        }
        assert(m.side_flags@.take(m.side_flags@.len() as int) == m.side_flags@);
    }
    assert(markers@.take(markers@.len() as int) == markers@);
    let ghost all = marker_offers(markers@);
    assert(all + grace_offers(graces@.take(0)) == all);
    for i in 0..graces.len()
        invariant
            holds_best(names@, ranks@, all + grace_offers(graces@.take(i as int))),
    {
        let g: &GraceMarker = &graces[i];
        let ghost base = grace_offers(graces@.take(i as int));
        put_offer(&mut names, &mut ranks, g.flag, 1, &g.text, Ghost(all + base));
        put_offer(
            &mut names,
            &mut ranks,
            g.cleared_flag,
            1,
            &g.text,
            Ghost(all + base + offer(g.flag, 1, g.text)),
        );
        proof {
            let next = graces@.take(i + 1);
            assert(next.drop_last() == graces@.take(i as int) && next.last() == *g);
            assert(all + grace_offers(next) == all + base + offer(g.flag, 1, g.text) + offer(
                g.cleared_flag,
                1,
                g.text,
            ));
        }
    }
    assert(graces@.take(graces@.len() as int) == graces@);
    (names, pins)
}

/// The winning offer is one of those for the flag, none has a lower rank, and those
/// before it have higher ones.
pub proof fn the_best_offer_is_the_first_of_the_lowest_rank(offers: Seq<Offer>, flag: u32)
    ensures
        match best_offer(offers, flag) {
            Some(b) => exists|i: int|
                #![trigger offers[i]]
                0 <= i < offers.len() && offers[i] == b && b.flag == flag && (forall|j: int|
                    #![trigger offers[j]]
                    0 <= j < offers.len() && offers[j].flag == flag ==> b.rank <= offers[j].rank
                        && (j < i ==> b.rank < offers[j].rank)),
            None => forall|j: int|
                #![trigger offers[j]]
                0 <= j < offers.len() ==> offers[j].flag != flag,
        },
    decreases offers.len(),
{
    if offers.len() > 0 {
        let front = offers.drop_last();
        let n: int = front.len() as int;
        the_best_offer_is_the_first_of_the_lowest_rank(front, flag);
        match best_offer(front, flag) {
            Some(b) => {
                let i = choose|i: int|
                    #![trigger front[i]]
                    0 <= i < front.len() && front[i] == b && b.flag == flag && (forall|j: int|
                        #![trigger front[j]]
                        0 <= j < front.len() && front[j].flag == flag ==> b.rank <= front[j].rank
                            && (j < i ==> b.rank < front[j].rank));
                let o = offers.last();
                if o.flag == flag && o.rank < b.rank {
                    assert(offers[n] == o);
                    assert forall|j: int|
                        #![trigger offers[j]]
                        0 <= j < offers.len() && offers[j].flag == flag implies o.rank
                        <= offers[j].rank && (j < n ==> o.rank < offers[j].rank) by {
                        if j < n {
                            assert(offers[j] == front[j]);
                        }
                    }
                } else {
                    assert(offers[i] == b);
                    assert forall|j: int|
                        #![trigger offers[j]]
                        0 <= j < offers.len() && offers[j].flag == flag implies b.rank
                        <= offers[j].rank && (j < i ==> b.rank < offers[j].rank) by {
                        if j < n {
                            assert(offers[j] == front[j]);
                        }
                    }
                }
            },
            None => {
                assert forall|j: int|
                    #![trigger offers[j]]
                    0 <= j < n implies offers[j].flag != flag by {
                    assert(offers[j] == front[j]);
                }
                assert(offers[n] == offers.last());
            },
        }
    }
}

// ---------------------------------------------------------------------------
// Places
// ---------------------------------------------------------------------------

/// A tab of the game's list of sites of grace.
pub struct Tab {
    pub id: u16,
    pub text: Option<String>,
}

/// A part of a tab.
pub struct SubCategory {
    pub id: i32,
    pub text: Option<String>,
    pub tab: u16,
}

/// A site of grace as the game's tables have it.
pub struct Bonfire {
    pub entity: u32,
    pub cell: Cell,
    pub pos: Point,
    pub sub_category: i32,
}

/// Where a site of grace stands and the location that it belongs to.
pub struct Grace {
    pub cell: Cell,
    pub pos: Point,
    pub place: String,
}

/// A site of grace by its text.
pub struct GraceText {
    pub cell: Cell,
    pub pos: Point,
    pub place: Seq<char>,
}

impl Grace {
    pub open spec fn text(self) -> GraceText {
        GraceText { cell: self.cell, pos: self.pos, place: self.place@ }
    }
}

pub open spec fn grace_texts(v: Seq<Grace>) -> Seq<GraceText> {
    v.map_values(|g: Grace| g.text())
}

/// The text of the last tab with the id that has one.
pub open spec fn tab_text(tabs: Seq<Tab>, id: u16) -> Option<Seq<char>>
    decreases tabs.len(),
{
    if tabs.len() == 0 {
        None
    } else if tabs.last().id == id && tabs.last().text is Some {
        opt_text(tabs.last().text)
    } else {
        tab_text(tabs.drop_last(), id)
    }
}

/// The name of a part of a tab: its own, or else the tab's.
pub open spec fn sub_name(tabs: Seq<Tab>, sub: SubCategory) -> Option<Seq<char>> {
    if sub.text is Some {
        opt_text(sub.text)
    } else {
        tab_text(tabs, sub.tab)
    }
}

/// The name of the last part with the id that has one.
pub open spec fn sub_text(tabs: Seq<Tab>, subs: Seq<SubCategory>, id: i32) -> Option<Seq<char>>
    decreases subs.len(),
{
    if subs.len() == 0 {
        None
    } else if subs.last().id == id && sub_name(tabs, subs.last()) is Some {
        sub_name(tabs, subs.last())
    } else {
        sub_text(tabs, subs.drop_last(), id)
    }
}

/// The sites of grace whose location has a name. One in a dungeon stands on the map
/// that its entity id names, because the game puts it into the cell of the way in.
pub open spec fn graces_of(
    tabs: Seq<Tab>,
    subs: Seq<SubCategory>,
    fires: Seq<Bonfire>,
) -> Seq<GraceText>
    decreases fires.len(),
{
    if fires.len() == 0 {
        Seq::empty()
    } else {
        let f: Bonfire = fires.last();
        let before: Seq<GraceText> = graces_of(tabs, subs, fires.drop_last());
        match sub_text(tabs, subs, f.sub_category) {
            Some(place) => before.push(
                GraceText {
                    cell: match entity_cell(f.entity, f.cell.0) {
                        Some(c) => c,
                        None => f.cell,
                    },
                    pos: f.pos,
                    place,
                },
            ),
            None => before,
        }
    }
}

fn text_of_tab(tabs: &Vec<Tab>, id: u16) -> (r: Option<String>)
    ensures
        opt_text(r) == tab_text(tabs@, id),
{
    let mut n: usize = tabs.len();
    assert(tabs@.take(n as int) == tabs@);
    while n > 0
        invariant
            n <= tabs.len(),
            tab_text(tabs@, id) == tab_text(tabs@.take(n as int), id),
        decreases n,
    {
        assert(tabs@.take(n as int).last() == tabs@[n - 1]);
        assert(tabs@.take(n as int).drop_last() == tabs@.take(n - 1));
        if tabs[n - 1].id == id && tabs[n - 1].text.is_some() {
            return copy_text(&tabs[n - 1].text);
        }
        n = n - 1;
    }
    None
}

fn text_of_sub(tabs: &Vec<Tab>, subs: &Vec<SubCategory>, id: i32) -> (r: Option<String>)
    ensures
        opt_text(r) == sub_text(tabs@, subs@, id),
{
    let mut n: usize = subs.len();
    assert(subs@.take(n as int) == subs@);
    while n > 0
        invariant
            n <= subs.len(),
            sub_text(tabs@, subs@, id) == sub_text(tabs@, subs@.take(n as int), id),
        decreases n,
    {
        assert(subs@.take(n as int).last() == subs@[n - 1]);
        assert(subs@.take(n as int).drop_last() == subs@.take(n - 1));
        if subs[n - 1].id == id {
            let name: Option<String> = if subs[n - 1].text.is_some() {
                copy_text(&subs[n - 1].text)
            } else {
                text_of_tab(tabs, subs[n - 1].tab)
            };
            if name.is_some() {
                return name;
            }
        }
        n = n - 1;
    }
    None
}

/// The sites of grace with their locations, as the game itself divides them in its
/// list of places to travel to.
pub fn graces(tabs: &Vec<Tab>, subs: &Vec<SubCategory>, fires: &Vec<Bonfire>) -> (r: Vec<Grace>)
    ensures
        grace_texts(r@) == graces_of(tabs@, subs@, fires@),
{
    let mut r: Vec<Grace> = Vec::new();
    assert(grace_texts(r@) == graces_of(tabs@, subs@, fires@.take(0)));
    for i in 0..fires.len()
        invariant
            grace_texts(r@) == graces_of(tabs@, subs@, fires@.take(i as int)),
    {
        let f: &Bonfire = &fires[i];
        let ghost before = r@;
        proof {
            let next = fires@.take(i + 1);
            assert(next.drop_last() == fires@.take(i as int) && next.last() == *f);
        }
        match text_of_sub(tabs, subs, f.sub_category) {
            Some(place) => {
                let cell: Cell = match cell_of_entity(f.entity, f.cell.0) {
                    Some(c) => c,
                    None => f.cell,
                };
                let g: Grace = Grace { cell, pos: f.pos, place };
                r.push(g);
                assert(grace_texts(r@) == grace_texts(before).push(g.text()));
            },
            None => {},
        }
    }
    assert(fires@.take(fires@.len() as int) == fires@);
    r
}

/// The nearest of the first `n` sites of grace that can be compared with the map, by
/// their squared distances; of equally near ones the first.
pub open spec fn nearest_grace(
    map: Cell,
    gs: Seq<GraceText>,
    squares: Seq<Scalar>,
    n: int,
) -> Option<int>
    decreases n,
{
    if n <= 0 {
        None
    } else {
        let before: Option<int> = nearest_grace(map, gs, squares, n - 1);
        if !comparable_cells(map, gs[n - 1].cell) {
            before
        } else {
            match before {
                Some(k) => if squares[n - 1].below(squares[k]) {
                    Some(n - 1)
                } else {
                    before
                },
                None => Some(n - 1),
            }
        }
    }
}

/// How many blocks apart two cells are.
pub open spec fn blocks_apart(a: Cell, b: Cell) -> int {
    if a.1 >= b.1 {
        a.1 - b.1
    } else {
        b.1 - a.1
    }
}

/// Of the first `n` sites of grace in the map's area, the one whose block is closest
/// to the map's; of equally close ones the first.
pub open spec fn neighbour_grace(map: Cell, gs: Seq<GraceText>, n: int) -> Option<int>
    decreases n,
{
    if n <= 0 {
        None
    } else {
        let before: Option<int> = neighbour_grace(map, gs, n - 1);
        if gs[n - 1].cell.0 != map.0 {
            before
        } else {
            match before {
                Some(k) => if blocks_apart(gs[n - 1].cell, map) < blocks_apart(gs[k].cell, map) {
                    Some(n - 1)
                } else {
                    before
                },
                None => Some(n - 1),
            }
        }
    }
}

/// The location of a place on a map: that of the nearest site of grace. A map of its
/// own without one takes the location of a neighbouring map of its area; the open
/// world does not, because there an area is half the game.
pub open spec fn place_at(map: Cell, gs: Seq<GraceText>, squares: Seq<Scalar>) -> Option<Seq<char>> {
    match nearest_grace(map, gs, squares, gs.len() as int) {
        Some(k) => Some(gs[k].place),
        None => if is_tiled(map.0) {
            None
        } else {
            match neighbour_grace(map, gs, gs.len() as int) {
                Some(k) => Some(gs[k].place),
                None => None,
            }
        },
    }
}

/// The location of a place on a map. `squares` are the squared distances from that
/// place to the sites of grace, along the ground.
pub fn place_of(map: Cell, graces: &Vec<Grace>, squares: &Vec<Scalar>) -> (r: Option<String>)
    requires
        squares.len() == graces.len(),
    ensures
        opt_text(r) == place_at(map, grace_texts(graces@), squares@),
{
    let ghost gs = grace_texts(graces@);
    let mut best: Option<usize> = None;
    for i in 0..graces.len()
        invariant
            gs == grace_texts(graces@),
            squares.len() == graces.len(),
            match best {
                Some(k) => k < i && nearest_grace(map, gs, squares@, i as int) == Some(k as int),
                None => nearest_grace(map, gs, squares@, i as int) is None,
            },
    {
        assert(gs[i as int].cell == graces@[i as int].cell);
        if comparable(map, graces[i].cell) {
            match best {
                Some(k) => {
                    if squares[i].lt(squares[k]) {
                        best = Some(i);
                    }
                },
                None => {
                    best = Some(i);
                },
            }
        }
    }
    match best {
        Some(k) => {
            assert(gs[k as int].place == graces@[k as int].place@);
            return Some(graces[k].place.clone());
        },
        None => {},
    }
    if tiled(map.0) {
        return None;
    }
    let mut close: Option<usize> = None;
    for i in 0..graces.len()
        invariant
            gs == grace_texts(graces@),
            match close {
                Some(k) => k < i && neighbour_grace(map, gs, i as int) == Some(k as int),
                None => neighbour_grace(map, gs, i as int) is None,
            },
    {
        assert(gs[i as int].cell == graces@[i as int].cell);
        if graces[i].cell.0 == map.0 {
            match close {
                Some(k) => {
                    assert(gs[k as int].cell == graces@[k as int].cell);
                    if apart(graces[i].cell, map) < apart(graces[k].cell, map) {
                        close = Some(i);
                    }
                },
                None => {
                    close = Some(i);
                },
            }
        }
    }
    match close {
        Some(k) => {
            assert(gs[k as int].place == graces@[k as int].place@);
            Some(graces[k].place.clone())
        },
        None => None,
    }
}

fn apart(a: Cell, b: Cell) -> (r: u8)
    ensures
        r == blocks_apart(a, b),
{
    if a.1 >= b.1 {
        a.1 - b.1
    } else {
        b.1 - a.1
    }
}

/// A location always comes from a site of grace that can be compared with the map or,
/// off the open world, lies in the same area. So the open world never borrows from
/// another area.
pub proof fn a_place_comes_from_the_same_area(
    map: Cell,
    gs: Seq<GraceText>,
    squares: Seq<Scalar>,
)
    requires
        squares.len() == gs.len(),
    ensures
        place_at(map, gs, squares) matches Some(p) ==> exists|k: int|
            0 <= k < gs.len() && (#[trigger] gs[k]).place == p && gs[k].cell.0 == map.0,
        place_at(map, gs, squares) is None ==> forall|k: int|
            0 <= k < gs.len() ==> (#[trigger] gs[k]).cell.0 != map.0,
{
    lemma_place_area(map, gs, squares, gs.len() as int);
    let n = gs.len() as int;
    match nearest_grace(map, gs, squares, n) {
        Some(k) => {
            assert(gs[k].cell.0 == map.0);
        },
        None => {
            match neighbour_grace(map, gs, n) {
                Some(k) => {
                    assert(gs[k].cell.0 == map.0);
                },
                None => {},
            }
        },
    }
}

proof fn lemma_place_area(map: Cell, gs: Seq<GraceText>, squares: Seq<Scalar>, n: int)
    requires
        0 <= n <= gs.len(),
    ensures
        nearest_grace(map, gs, squares, n) matches Some(k) ==> 0 <= k < n && comparable_cells(
            map,
            gs[k].cell,
        ),
        nearest_grace(map, gs, squares, n) is None ==> forall|k: int|
            0 <= k < n ==> !comparable_cells(map, (#[trigger] gs[k]).cell),
        neighbour_grace(map, gs, n) matches Some(k) ==> 0 <= k < n && gs[k].cell.0 == map.0,
        neighbour_grace(map, gs, n) is None ==> forall|k: int|
            0 <= k < n ==> (#[trigger] gs[k]).cell.0 != map.0,
    decreases n,
{
    if n > 0 {
        lemma_place_area(map, gs, squares, n - 1);
    }
}

} // verus!
