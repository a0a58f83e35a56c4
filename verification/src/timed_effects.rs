//! Timed effects: starting them, keeping them up on every frame, and undoing them.

use vstd::prelude::*;
use crate::damage::{after_poll, Damage, DamageWatch, WatchState, World};
use crate::effect_state::{
    apply_once, is_flask, once, Game, GameState, Item, Player, PlayerState,
};
use crate::effects::{
    effect_group, effect_named, effect_of, effect_text, group_of, row, Effect, Group, Rejected,
    FAST_SPEED, FLASK_FP_FIRST, FLASK_FP_LAST, FLASK_HP_FIRST, FLASK_HP_LAST, MAX_SECS,
    NORMAL_SPEED, RUNE_BATCH, SLOW_SPEED,
};
use crate::i18n::{t, translated, Locales};
use crate::scalar::Scalar;
use crate::text::{append, append_text, chars_of, decimal, decimal_of, string_of};

verus! {

/// Where the rune exchange stands. The sums are the host's.
#[derive(Clone, Copy, Debug, PartialEq, Eq, Structural)]
pub struct Runes {
    /// Runes that are owed but not paid yet.
    pub pending: Scalar,
    /// Runes paid in all, less runes charged.
    pub net: i64,
    /// Damage dealt in all.
    pub dealt: Scalar,
    /// Damage taken in all.
    pub taken: Scalar,
    /// When runes were last paid.
    pub flushed: u64,
}

/// What to put back when the time is up: one variant for each group.
pub enum Restore {
    /// The speed goes back to normal.
    Speed,
    /// The greatest stamina as it was before.
    Stamina(i32),
    /// The field of view of every row of the camera's table.
    Fov(Vec<(u32, Scalar)>),
    Runes(Runes),
    /// The charges of the flasks by their ids, and the vessels of their groups.
    Flasks(Vec<(u32, u32)>, Vec<(usize, u32)>),
}

/// What to put back, by its lists.
pub enum RestoreState {
    Speed,
    Stamina(i32),
    Fov(Seq<(u32, Scalar)>),
    Runes(Runes),
    Flasks(Seq<(u32, u32)>, Seq<(usize, u32)>),
}

/// An effect that is running.
pub struct Active {
    pub effect: Effect,
    /// The purchase that it runs for, whose card goes when the effect is cut short.
    pub redemption_id: String,
    pub started: u64,
    pub until: u64,
    pub restore: Restore,
}

/// An effect that is running, by its texts and lists.
pub struct ActiveState {
    pub effect: Effect,
    pub redemption_id: Seq<char>,
    pub started: u64,
    pub until: u64,
    pub restore: RestoreState,
}

impl Restore {
    pub open spec fn state(self) -> RestoreState {
        match self {
            Restore::Speed => RestoreState::Speed,
            Restore::Stamina(n) => RestoreState::Stamina(n),
            Restore::Fov(v) => RestoreState::Fov(v@),
            Restore::Runes(r) => RestoreState::Runes(r),
            Restore::Flasks(a, b) => RestoreState::Flasks(a@, b@),
        }
    }
}

impl Active {
    pub open spec fn state(self) -> ActiveState {
        ActiveState {
            effect: self.effect,
            redemption_id: self.redemption_id@,
            started: self.started,
            until: self.until,
            restore: self.restore.state(),
        }
    }
}

pub open spec fn active_states(v: Seq<Active>) -> Seq<ActiveState> {
    v.map_values(|a: Active| a.state())
}

/// Why effects are undone before their time.
#[derive(Clone, Copy, Debug, PartialEq, Eq, Structural)]
pub enum Force {
    /// An ordinary frame: only those whose time is up.
    Due,
    /// All of them.
    All,
    /// The player died: all but those that survive death.
    ExceptSurvivors,
}

/// The effects that are running.
pub struct EffectState {
    pub active: Vec<Active>,
    /// Watches the damage for the rune exchange.
    pub watch: DamageWatch,
    /// How the last purchase ended, for the settings window.
    pub note: Option<String>,
}

/// What the host computed for the rune exchange on this frame: what is owed with the
/// damage of this frame, the whole runes in it and what is left without them, the damage
/// in all, and the texts for that damage.
pub struct RuneSums {
    pub pending: Scalar,
    pub whole: i64,
    pub rest: Scalar,
    pub dealt: Scalar,
    pub taken: Scalar,
    pub dealt_text: String,
    pub taken_text: String,
}

/// The camera's table has to be written: the field of view of every row, swaying since a
/// moment, or just as it was.
pub struct CameraWrite {
    pub rows: Vec<(u32, Scalar)>,
    pub since: Option<u64>,
}

// ---------------------------------------------------------------------------
// Starting
// ---------------------------------------------------------------------------

/// The charges of the flasks among the items.
pub open spec fn flask_charges(items: Seq<Item>) -> Seq<(u32, u32)>
    decreases items.len(),
{
    if items.len() == 0 {
        Seq::empty()
    } else if is_flask(items.last()) {
        flask_charges(items.drop_last()).push((items.last().id, items.last().quantity))
    } else {
        flask_charges(items.drop_last())
    }
}

/// The groups of vessels that the flasks belong to, each once.
pub open spec fn flask_groups(items: Seq<Item>) -> Seq<usize>
    decreases items.len(),
{
    if items.len() == 0 {
        Seq::empty()
    } else {
        let before: Seq<usize> = flask_groups(items.drop_last());
        let i: Item = items.last();
        if is_flask(i) && i.pot_group >= 0 && !before.contains(i.pot_group as usize) {
            before.push(i.pot_group as usize)
        } else {
            before
        }
    }
}

/// How many vessels there are of those groups that exist.
pub open spec fn pot_counts(groups: Seq<usize>, pots: Seq<u32>) -> Seq<(usize, u32)>
    decreases groups.len(),
{
    if groups.len() == 0 {
        Seq::empty()
    } else if groups.last() < pots.len() {
        pot_counts(groups.drop_last(), pots).push((groups.last(), pots[groups.last() as int]))
    } else {
        pot_counts(groups.drop_last(), pots)
    }
}

/// What has to be put back after an effect that starts now, or why it cannot start.
pub open spec fn starting(
    e: Effect,
    now: u64,
    g: GameState,
    camera: Option<Seq<(u32, Scalar)>>,
) -> Result<RestoreState, Rejected> {
    match e {
        Effect::Slow | Effect::Fast => if g.speed is Some {
            Ok(RestoreState::Speed)
        } else {
            Err(Rejected::NoPlayer)
        },
        Effect::StaminaHalf | Effect::StaminaNone => match g.player {
            Some(p) => Ok(RestoreState::Stamina(p.max_stamina)),
            None => Err(Rejected::NoPlayer),
        },
        Effect::CameraSway => match camera {
            Some(rows) => if rows.len() > 0 {
                Ok(RestoreState::Fov(rows))
            } else {
                Err(Rejected::NoParams)
            },
            None => Err(Rejected::NoParams),
        },
        Effect::RuneTrade => Ok(
            RestoreState::Runes(
                Runes {
                    pending: Scalar { bits: 0 },
                    net: 0,
                    dealt: Scalar { bits: 0 },
                    taken: Scalar { bits: 0 },
                    flushed: now,
                },
            ),
        ),
        Effect::FlaskLock => match g.player {
            Some(p) => Ok(
                RestoreState::Flasks(
                    flask_charges(p.items),
                    pot_counts(flask_groups(p.items), p.pots),
                ),
            ),
            None => Err(Rejected::NoPlayer),
        },
        _ => Err(Rejected::Unknown),
    }
}

pub open spec fn camera_rows(c: Option<Vec<(u32, Scalar)>>) -> Option<Seq<(u32, Scalar)>> {
    match c {
        Some(v) => Some(v@),
        None => None,
    }
}

fn flask(i: &Item) -> (r: bool)
    ensures
        r == is_flask(*i),
{
    i.goods && ((FLASK_HP_FIRST <= i.id && i.id <= FLASK_HP_LAST) || (FLASK_FP_FIRST <= i.id
        && i.id <= FLASK_FP_LAST))
}

fn flask_snapshot(p: &Player) -> (r: (Vec<(u32, u32)>, Vec<(usize, u32)>))
    ensures
        r.0@ == flask_charges(p.items@),
        r.1@ == pot_counts(flask_groups(p.items@), p.pots@),
{
    let mut charges: Vec<(u32, u32)> = Vec::new();
    let mut groups: Vec<usize> = Vec::new();
    for k in 0..p.items.len()
        invariant
            charges@ == flask_charges(p.items@.take(k as int)),
            groups@ == flask_groups(p.items@.take(k as int)),
    {
        let i: Item = p.items[k];
        proof {
            assert(p.items@.take(k + 1).drop_last() == p.items@.take(k as int));
            assert(p.items@.take(k + 1).last() == i);
        }
        if flask(&i) {
            charges.push((i.id, i.quantity));
            if i.pot_group >= 0 {
                let g: usize = i.pot_group as usize;
                let mut known: bool = false;
                for j in 0..groups.len()
                    invariant
                        known == groups@.take(j as int).contains(g),
                {
                    proof {
                        let next = groups@.take(j + 1);
                        assert(next == groups@.take(j as int).push(groups@[j as int]));
                        if groups@.take(j as int).contains(g) {
                            let a = choose|a: int|
                                0 <= a < j && groups@.take(j as int)[a] == g;
                            assert(next[a] == g);
                        }
                        if groups@[j as int] == g {
                            assert(next[j as int] == g);
                        }
                    }
                    if groups[j] == g {
                        known = true;
                    }
                }
                assert(groups@.take(groups@.len() as int) == groups@);
                if !known {
                    groups.push(g);
                }
            }
        }
    }
    assert(p.items@.take(p.items@.len() as int) == p.items@);
    let mut pots: Vec<(usize, u32)> = Vec::new();
    for j in 0..groups.len()
        invariant
            pots@ == pot_counts(groups@.take(j as int), p.pots@),
    {
        assert(groups@.take(j + 1).drop_last() == groups@.take(j as int));
        let g: usize = groups[j];
        if g < p.pots.len() {
            pots.push((g, p.pots[g]));
        }
    }
    assert(groups@.take(groups@.len() as int) == groups@);
    (charges, pots)
}

fn copy_rows(rows: &Vec<(u32, Scalar)>) -> (r: Vec<(u32, Scalar)>)
    ensures
        r@ == rows@,
{
    let mut r: Vec<(u32, Scalar)> = Vec::new();
    for i in 0..rows.len()
        invariant
            r@ == rows@.take(i as int),
    {
        r.push(rows[i]);
        assert(rows@.take(i + 1) == rows@.take(i as int).push(rows@[i as int]));
    }
    assert(rows@.take(rows@.len() as int) == rows@);
    r
}

/// Takes down what has to be put back after an effect that starts now.
pub fn start_timed(
    e: Effect,
    now: u64,
    game: &Game,
    camera: &Option<Vec<(u32, Scalar)>>,
) -> (r: Result<Restore, Rejected>)
    ensures
        match r {
            Ok(x) => starting(e, now, game.state(), camera_rows(*camera)) == Ok::<
                RestoreState,
                Rejected,
            >(x.state()),
            Err(why) => starting(e, now, game.state(), camera_rows(*camera)) == Err::<
                RestoreState,
                Rejected,
            >(why),
        },
{
    match e {
        Effect::Slow | Effect::Fast => if game.speed.is_some() {
            Ok(Restore::Speed)
        } else {
            Err(Rejected::NoPlayer)
        },
        Effect::StaminaHalf | Effect::StaminaNone => match &game.player {
            Some(p) => Ok(Restore::Stamina(p.max_stamina)),
            None => Err(Rejected::NoPlayer),
        },
        Effect::CameraSway => match camera {
            Some(rows) => if rows.len() > 0 {
                Ok(Restore::Fov(copy_rows(rows)))
            } else {
                Err(Rejected::NoParams)
            },
            None => Err(Rejected::NoParams),
        },
        Effect::RuneTrade => Ok(
            Restore::Runes(
                Runes {
                    pending: Scalar { bits: 0 },
                    net: 0,
                    dealt: Scalar { bits: 0 },
                    taken: Scalar { bits: 0 },
                    flushed: now,
                },
            ),
        ),
        Effect::FlaskLock => match &game.player {
            Some(p) => {
                let (charges, pots) = flask_snapshot(p);
                Ok(Restore::Flasks(charges, pots))
            },
            None => Err(Rejected::NoPlayer),
        },
        _ => Err(Rejected::Unknown),
    }
}

// ---------------------------------------------------------------------------
// One frame
// ---------------------------------------------------------------------------

/// Whether an effect ends on this frame.
pub open spec fn is_over(a: ActiveState, now: u64, force: Force) -> bool {
    match force {
        Force::Due => a.until <= now,
        Force::All => true,
        Force::ExceptSurvivors => a.effect != Effect::RuneTrade,
    }
}

/// The greatest stamina while an effect runs: half, but at least 1, or 1.
pub open spec fn stamina_limit(e: Effect, saved: i32) -> i32 {
    if e == Effect::StaminaHalf && saved >= 2 {
        (saved / 2) as i32
    } else {
        1
    }
}

pub open spec fn lesser(a: i32, b: i32) -> i32 {
    if a <= b {
        a
    } else {
        b
    }
}

/// The charges that a flask had, by the first entry for its id.
pub open spec fn charge_of(charges: Seq<(u32, u32)>, id: u32) -> Option<u32>
    decreases charges.len(),
{
    if charges.len() == 0 {
        None
    } else if charges[0].0 == id {
        Some(charges[0].1)
    } else {
        charge_of(charges.skip(1), id)
    }
}

/// An item while flasks are locked, or when they are given back. A flask that was not
/// there at the start is none of our business.
pub open spec fn locked_item(i: Item, charges: Seq<(u32, u32)>, over: bool) -> Item {
    if is_flask(i) {
        match charge_of(charges, i.id) {
            Some(was) => Item {
                quantity: if over {
                    was
                } else {
                    0
                },
                ..i
            },
            None => i,
        }
    } else {
        i
    }
}

/// The vessels while flasks are locked, or when they are given back.
pub open spec fn locked_pots(pots: Seq<u32>, saved: Seq<(usize, u32)>, over: bool) -> Seq<u32>
    decreases saved.len(),
{
    if saved.len() == 0 {
        pots
    } else {
        let before: Seq<u32> = locked_pots(pots, saved.drop_last(), over);
        let (g, was) = saved.last();
        if g < before.len() {
            before.update(
                g as int,
                if over {
                    was
                } else {
                    0
                },
            )
        } else {
            before
        }
    }
}

/// The number of runes after paying or charging some.
pub open spec fn paid(runes: u32, whole: i64) -> u32 {
    if runes + whole > u32::MAX {
        u32::MAX
    } else if runes + whole < 0 {
        0
    } else {
        (runes + whole) as u32
    }
}

/// Whether runes are paid on this frame: in batches, and at the end whatever is owed.
pub open spec fn pays(r: Runes, now: u64, over: bool) -> bool {
    over || now >= r.flushed + RUNE_BATCH
}

/// The rune exchange after a frame.
pub open spec fn runes_after(
    r: Runes,
    sums: RuneSums,
    now: u64,
    over: bool,
    player: bool,
) -> Runes {
    let give: bool = pays(r, now, over) && sums.whole != 0 && player;
    Runes {
        pending: if give {
            sums.rest
        } else {
            sums.pending
        },
        net: if give {
            r.net.wrapping_add(sums.whole)
        } else {
            r.net
        },
        dealt: sums.dealt,
        taken: sums.taken,
        flushed: if pays(r, now, over) {
            now
        } else {
            r.flushed
        },
    }
}

/// A number with its sign if it is negative.
pub open spec fn signed(n: i64) -> Seq<char> {
    if n < 0 {
        seq!['-'] + decimal((-n) as nat)
    } else {
        decimal(n as nat)
    }
}

/// What is noted at the end of a rune exchange.
pub open spec fn runes_note(l: Locales, net: i64, sums: RuneSums) -> Seq<char> {
    translated(l, "rune exchange"@) + ": "@ + (if net >= 0 {
        "+"@
    } else {
        ""@
    }) + signed(net) + " ("@ + translated(l, "dealt"@) + " "@ + sums.dealt_text@ + ", "@
        + translated(l, "taken"@) + " "@ + sums.taken_text@ + ")"@
}

/// The game after one effect on one frame.
pub open spec fn game_after(
    a: ActiveState,
    now: u64,
    over: bool,
    g: GameState,
    sums: RuneSums,
) -> GameState {
    match a.restore {
        RestoreState::Speed => match g.speed {
            Some(_) => GameState {
                speed: Some(
                    Scalar {
                        bits: if over {
                            NORMAL_SPEED
                        } else if a.effect == Effect::Slow {
                            SLOW_SPEED
                        } else {
                            FAST_SPEED
                        },
                    },
                ),
                ..g
            },
            None => g,
        },
        RestoreState::Stamina(saved) => match g.player {
            Some(p) => {
                let max: i32 = if over {
                    saved
                } else {
                    stamina_limit(a.effect, saved)
                };
                GameState {
                    player: Some(
                        PlayerState { max_stamina: max, stamina: lesser(p.stamina, max), ..p },
                    ),
                    ..g
                }
            },
            None => g,
        },
        RestoreState::Fov(_) => g,
        RestoreState::Runes(r) => match g.player {
            Some(p) => if pays(r, now, over) && sums.whole != 0 {
                GameState {
                    player: Some(PlayerState { runes: paid(p.runes, sums.whole), ..p }),
                    ..g
                }
            } else {
                g
            },
            None => g,
        },
        RestoreState::Flasks(charges, saved) => match g.player {
            Some(p) => GameState {
                player: Some(
                    PlayerState {
                        items: p.items.map_values(|i: Item| locked_item(i, charges, over)),
                        pots: locked_pots(p.pots, saved, over),
                        ..p
                    },
                ),
                ..g
            },
            None => g,
        },
    }
}

/// The effect itself after one frame.
pub open spec fn active_after(
    a: ActiveState,
    now: u64,
    over: bool,
    g: GameState,
    sums: RuneSums,
) -> ActiveState {
    match a.restore {
        RestoreState::Runes(r) => ActiveState {
            restore: RestoreState::Runes(runes_after(r, sums, now, over, g.player is Some)),
            ..a
        },
        _ => a,
    }
}

/// What is noted about one effect on one frame.
pub open spec fn note_after(
    a: ActiveState,
    now: u64,
    over: bool,
    g: GameState,
    sums: RuneSums,
    l: Locales,
) -> Option<Seq<char>> {
    match a.restore {
        RestoreState::Runes(r) => if over {
            Some(runes_note(l, runes_after(r, sums, now, over, g.player is Some).net, sums))
        } else {
            None
        },
        _ => None,
    }
}

/// All effects and the game after some of them on one frame.
pub struct Frame {
    pub kept: Seq<ActiveState>,
    pub game: GameState,
    pub note: Option<Seq<char>>,
    pub camera: Option<(Seq<(u32, Scalar)>, Option<u64>)>,
}

/// One frame. On a forced end those that are spared are not touched at all: their own
/// frame comes.
pub open spec fn after_frame(
    active: Seq<ActiveState>,
    now: u64,
    force: Force,
    g: GameState,
    sums: RuneSums,
    l: Locales,
) -> Frame
    decreases active.len(),
{
    if active.len() == 0 {
        Frame { kept: Seq::empty(), game: g, note: None, camera: None }
    } else {
        let f: Frame = after_frame(active.drop_last(), now, force, g, sums, l);
        let a: ActiveState = active.last();
        let over: bool = is_over(a, now, force);
        if force != Force::Due && !over {
            Frame { kept: f.kept.push(a), ..f }
        } else {
            Frame {
                kept: if over {
                    f.kept
                } else {
                    f.kept.push(active_after(a, now, over, f.game, sums))
                },
                game: game_after(a, now, over, f.game, sums),
                note: match note_after(a, now, over, f.game, sums, l) {
                    Some(n) => Some(n),
                    None => f.note,
                },
                camera: match a.restore {
                    RestoreState::Fov(rows) => Some(
                        (
                            rows,
                            if over {
                                None
                            } else {
                                Some(a.started)
                            },
                        ),
                    ),
                    _ => f.camera,
                },
            }
        }
    }
}

fn charge(charges: &Vec<(u32, u32)>, id: u32) -> (r: Option<u32>)
    ensures
        r == charge_of(charges@, id),
{
    assert(charges@.skip(0) == charges@);
    for i in 0..charges.len()
        invariant
            charge_of(charges@, id) == charge_of(charges@.skip(i as int), id),
    {
        assert(charges@.skip(i as int)[0] == charges@[i as int]);
        assert(charges@.skip(i as int).skip(1) == charges@.skip(i + 1));
        if charges[i].0 == id {
            return Some(charges[i].1);
        }
    }
    None
}

fn lock_flasks(
    p: &mut Player,
    charges: &Vec<(u32, u32)>,
    saved: &Vec<(usize, u32)>,
    over: bool,
)
    ensures
        final(p).state() == (PlayerState {
            items: old(p).items@.map_values(|i: Item| locked_item(i, charges@, over)),
            pots: locked_pots(old(p).pots@, saved@, over),
            ..old(p).state()
        }),
{
    let mut items: Vec<Item> = Vec::new();
    for k in 0..p.items.len()
        invariant
            *p == *old(p),
            items.len() == k,
            forall|j: int|
                0 <= j < k ==> #[trigger] items@[j] == locked_item(p.items@[j], charges@, over),
    {
        let mut i: Item = p.items[k];
        if flask(&i) {
            match charge(charges, i.id) {
                Some(was) => {
                    i.quantity = if over {
                        was
                    } else {
                        0
                    };
                },
                None => {},
            }
        }
        items.push(i);
    }
    assert(items@ == old(p).items@.map_values(|i: Item| locked_item(i, charges@, over)));
    p.items = items;
    let ghost middle = p.state();
    for k in 0..saved.len()
        invariant
            p.state() == (PlayerState {
                pots: locked_pots(old(p).pots@, saved@.take(k as int), over),
                ..middle
            }),
    {
        assert(saved@.take(k + 1).drop_last() == saved@.take(k as int));
        let (g, was): (usize, u32) = saved[k];
        if g < p.pots.len() {
            p.pots[g] = if over {
                was
            } else {
                0
            };
        }
    }
    assert(saved@.take(saved@.len() as int) == saved@);
}

fn pay(runes: u32, whole: i64) -> (r: u32)
    ensures
        r == paid(runes, whole),
{
    if whole > 0 {
        if whole > (u32::MAX - runes) as i64 {
            u32::MAX
        } else {
            runes + whole as u32
        }
    } else if whole < -(runes as i64) {
        0
    } else {
        (runes as i64 + whole) as u32
    }
}

fn signed_text(n: i64) -> (r: Vec<char>)
    ensures
        r@ == signed(n),
{
    let mut v: Vec<char> = Vec::new();
    if n < 0 {
        v.push('-');
        let m: u64 = if n == i64::MIN {
            0x8000_0000_0000_0000
        } else {
            (-n) as u64
        };
        append(&mut v, &decimal_of(m));
    } else {
        append(&mut v, &decimal_of(n as u64));
    }
    assert(v@ == signed(n));
    v
}

fn note_of_runes(l: &Locales, net: i64, sums: &RuneSums) -> (r: String)
    ensures
        r@ == runes_note(*l, net, *sums),
{
    let mut v: Vec<char> = chars_of(&t(l, "rune exchange"));
    append_text(&mut v, ": ");
    if net >= 0 {
        append_text(&mut v, "+");
    } else {
        append_text(&mut v, "");
    }
    append(&mut v, &signed_text(net));
    append_text(&mut v, " (");
    append_text(&mut v, &t(l, "dealt"));
    append_text(&mut v, " ");
    append_text(&mut v, &sums.dealt_text);
    append_text(&mut v, ", ");
    append_text(&mut v, &t(l, "taken"));
    append_text(&mut v, " ");
    append_text(&mut v, &sums.taken_text);
    append_text(&mut v, ")");
    string_of(&v)
}

/// What one effect does on one frame. Returns what is noted and what is written to the
/// camera's table.
fn step(
    a: &mut Active,
    now: u64,
    over: bool,
    game: &mut Game,
    sums: &RuneSums,
    l: &Locales,
) -> (r: (Option<String>, Option<CameraWrite>))
    ensures
        final(game).state() == game_after(old(a).state(), now, over, old(game).state(), *sums),
        final(a).state() == active_after(old(a).state(), now, over, old(game).state(), *sums),
        match r.0 {
            Some(n) => note_after(old(a).state(), now, over, old(game).state(), *sums, *l) == Some(
                n@,
            ),
            None => note_after(old(a).state(), now, over, old(game).state(), *sums, *l) is None,
        },
        match r.1 {
            Some(c) => old(a).state().restore == RestoreState::Fov(c.rows@) && c.since == if over {
                None
            } else {
                Some(old(a).started)
            },
            None => !(old(a).state().restore is Fov),
        },
{
    let effect: Effect = a.effect;
    let started: u64 = a.started;
    match &mut a.restore {
        Restore::Speed => {
            if game.speed.is_some() {
                let bits: u32 = if over {
                    NORMAL_SPEED
                } else if effect == Effect::Slow {
                    SLOW_SPEED
                } else {
                    FAST_SPEED
                };
                game.speed = Some(Scalar { bits });
            }
            (None, None)
        },
        Restore::Stamina(saved) => {
            match &mut game.player {
                Some(p) => {
                    let max: i32 = if over {
                        *saved
                    } else if effect == Effect::StaminaHalf && *saved >= 2 {
                        *saved / 2
                    } else {
                        1
                    };
                    p.max_stamina = max;
                    if p.stamina > max {
                        p.stamina = max;
                    }
                },
                None => {},
            }
            (None, None)
        },
        Restore::Fov(rows) => {
            let write: CameraWrite = CameraWrite {
                rows: copy_rows(rows),
                since: if over {
                    None
                } else {
                    Some(started)
                },
            };
            (None, Some(write))
        },
        Restore::Runes(r) => {
            let due: bool = over || (now >= r.flushed && now - r.flushed >= RUNE_BATCH);
            let mut next: Runes = Runes {
                pending: sums.pending,
                net: r.net,
                dealt: sums.dealt,
                taken: sums.taken,
                flushed: r.flushed,
            };
            if due {
                next.flushed = now;
                if sums.whole != 0 {
                    match &mut game.player {
                        Some(p) => {
                            p.runes = pay(p.runes, sums.whole);
                            next.net = next.net.wrapping_add(sums.whole);
                            next.pending = sums.rest;
                        },
                        None => {},
                    }
                }
            }
            *r = next;
            if over {
                (Some(note_of_runes(l, next.net, sums)), None)
            } else {
                (None, None)
            }
        },
        Restore::Flasks(charges, saved) => {
            match &mut game.player {
                Some(p) => {
                    lock_flasks(p, charges, saved, over);
                },
                None => {},
            }
            (None, None)
        },
    }
}

// ---------------------------------------------------------------------------
// The state
// ---------------------------------------------------------------------------

/// A moment so much later, or the end of time.
pub open spec fn later(now: u64, by: int) -> u64 {
    if now + by > u64::MAX {
        u64::MAX
    } else {
        (now + by) as u64
    }
}

/// How long an effect runs, in nanoseconds: as long as was bought, or as the table says,
/// but no longer than allowed.
pub open spec fn runs_for(e: Effect, secs: u16) -> int {
    let s: u16 = if secs == 0 {
        effect_text(e).default_secs
    } else {
        secs
    };
    (if s <= MAX_SECS {
        s as int
    } else {
        MAX_SECS as int
    }) * 1_000_000_000
}

/// Where the first running effect of a group stands, or the number of effects.
pub open spec fn group_at(active: Seq<ActiveState>, g: Option<Group>) -> int
    decreases active.len(),
{
    if active.len() == 0 || group_of(active[0].effect) == g {
        0
    } else {
        1 + group_at(active.skip(1), g)
    }
}

/// An effect of the same group taken over by a new purchase: what has to be put back
/// stays what it was before all changes, and the end only moves away.
pub open spec fn taken_over(a: ActiveState, e: Effect, id: Seq<char>, until: u64) -> ActiveState {
    ActiveState {
        effect: e,
        redemption_id: id,
        until: if a.until >= until {
            a.until
        } else {
            until
        },
        ..a
    }
}

/// No two effects of one group run at once, and every one has a group.
pub open spec fn groups_differ(active: Seq<ActiveState>) -> bool {
    &&& forall|i: int| 0 <= i < active.len() ==> group_of((#[trigger] active[i]).effect) is Some
    &&& forall|i: int, j: int|
        0 <= i < j < active.len() ==> group_of((#[trigger] active[i]).effect) != group_of(
            (#[trigger] active[j]).effect,
        )
}

/// What is noted when the camera begins to sway.
pub open spec fn camera_note(l: Locales, rows: nat) -> Seq<char> {
    translated(l, "camera rows"@) + ": "@ + decimal(rows)
}

pub open spec fn note_text(n: Option<String>) -> Option<Seq<char>> {
    match n {
        Some(s) => Some(s@),
        None => None,
    }
}

/// The purchases behind those effects that are about to be undone.
pub open spec fn doomed_ids(active: Seq<ActiveState>, force: Force) -> Seq<Seq<char>>
    decreases active.len(),
{
    if active.len() == 0 {
        Seq::empty()
    } else {
        let before: Seq<Seq<char>> = doomed_ids(active.drop_last(), force);
        let a: ActiveState = active.last();
        if (force == Force::All || a.effect != Effect::RuneTrade) && a.redemption_id.len() > 0 {
            before.push(a.redemption_id)
        } else {
            before
        }
    }
}

/// A rune exchange runs on beyond this moment.
pub open spec fn trade_runs(active: Seq<ActiveState>, now: u64) -> bool {
    exists|i: int|
        0 <= i < active.len() && (#[trigger] active[i]).restore is Runes && active[i].until > now
}

fn index_of_group(active: &Vec<Active>, g: Option<Group>) -> (r: usize)
    ensures
        r == group_at(active_states(active@), g),
        r <= active.len(),
{
    let ghost all = active_states(active@);
    let mut k: usize = 0;
    assert(all.skip(0) == all);
    while k < active.len() && effect_group(active[k].effect) != g
        invariant
            k <= active.len(),
            all == active_states(active@),
            group_at(all, g) == k + group_at(all.skip(k as int), g),
        decreases active.len() - k,
    {
        assert(all.skip(k as int)[0] == active@[k as int].state());
        assert(all.skip(k as int).skip(1) == all.skip(k + 1));
        k = k + 1;
    }
    proof {
        if k < active.len() {
            assert(all.skip(k as int)[0] == active@[k as int].state());
        }
    }
    k
}

/// A frame has passed: the effects that are left, the game, the note and what is written to
/// the camera's table are as `after_frame` says, and the watch is as it was.
pub open spec fn ran(
    before: EffectState,
    after: EffectState,
    game: GameState,
    game_after: GameState,
    now: u64,
    force: Force,
    sums: RuneSums,
    l: Locales,
    camera: Option<CameraWrite>,
) -> bool {
    let f: Frame = after_frame(active_states(before.active@), now, force, game, sums, l);
    &&& active_states(after.active@) == f.kept
    &&& game_after == f.game
    &&& note_text(after.note) == match f.note {
        Some(n) => Some(n),
        None => note_text(before.note),
    }
    &&& camera_text(camera) == f.camera
    &&& after.watch == before.watch
}

/// An effect was asked for by its key: refused with everything as it was, or carried out at
/// once, or started, or taken over from the one of its group that runs.
pub open spec fn applied(
    before: EffectState,
    after: EffectState,
    game: GameState,
    game_after: GameState,
    key: Seq<char>,
    secs: u16,
    redemption_id: Seq<char>,
    now: u64,
    camera: Option<Vec<(u32, Scalar)>>,
    world: World,
    l: Locales,
    r: Result<(), Rejected>,
) -> bool {
    match effect_named(key) {
        None => r == Err::<(), Rejected>(Rejected::Unknown) && after == before && game_after
            == game,
        Some(e) => if effect_text(e).default_secs == 0 {
            &&& after == before
            &&& match once(e, game) {
                Ok(g) => r is Ok && game_after == g,
                Err(why) => r == Err::<(), Rejected>(why) && game_after == game,
            }
        } else {
            let all: Seq<ActiveState> = active_states(before.active@);
            let k: int = group_at(all, group_of(e));
            let until: u64 = later(now, runs_for(e, secs));
            &&& game_after == game
            &&& if k < all.len() {
                &&& r is Ok
                &&& active_states(after.active@) == all.update(
                    k,
                    taken_over(all[k], e, redemption_id, until),
                )
                &&& after.note == before.note
                &&& after.watch == before.watch
            } else {
                match starting(e, now, game, camera_rows(camera)) {
                    Err(why) => r == Err::<(), Rejected>(why) && after == before,
                    Ok(restore) => {
                        &&& r is Ok
                        &&& active_states(after.active@) == all.push(
                            ActiveState { effect: e, redemption_id, started: now, until, restore },
                        )
                        &&& note_text(after.note) == match restore {
                            RestoreState::Fov(rows) => Some(camera_note(l, rows.len())),
                            _ => note_text(before.note),
                        }
                        &&& if e == Effect::RuneTrade {
                            after.watch.state() == after_poll(fresh_watch(), now, world, false).0
                        } else {
                            after.watch == before.watch
                        }
                    },
                }
            }
        },
    }
}

impl EffectState {
    /// Nothing runs.
    pub fn new() -> (r: EffectState)
        ensures
            r.active@.len() == 0,
            r.watch.state() == fresh_watch(),
            r.note is None,
    {
        EffectState { active: Vec::new(), watch: DamageWatch::new(), note: None }
    }

    /// How many effects are running.
    pub fn count(&self) -> (r: usize)
        ensures
            r == self.active@.len(),
    {
        self.active.len()
    }

    /// Takes the note about the last purchase; it is taken only once.
    pub fn take_note(&mut self) -> (r: Option<String>)
        ensures
            r == old(self).note,
            final(self).note is None,
            final(self).active == old(self).active,
            final(self).watch == old(self).watch,
    {
        self.note.take()
    }

    /// Applies an effect. With `secs = 0` it lasts as long as the table says. A timed
    /// effect of a group that is running already takes over that entry; a short purchase
    /// does not cut a long one.
    pub fn apply(
        &mut self,
        key: &str,
        secs: u16,
        redemption_id: &str,
        now: u64,
        game: &mut Game,
        camera: &Option<Vec<(u32, Scalar)>>,
        world: &World,
        locales: &Locales,
    ) -> (r: Result<(), Rejected>)
        ensures
            applied(
                *old(self),
                *final(self),
                old(game).state(),
                final(game).state(),
                key@,
                secs,
                redemption_id@,
                now,
                *camera,
                *world,
                *locales,
                r,
            ),
    {
        let e: Effect = match effect_of(key) {
            Some(e) => e,
            None => {
                return Err(Rejected::Unknown);
            },
        };
        let table_secs: u16 = row(e).default_secs;
        if table_secs == 0 {
            return apply_once(e, game);
        }
        let s: u16 = if secs == 0 {
            table_secs
        } else {
            secs
        };
        let bounded: u64 = if s <= MAX_SECS {
            s as u64
        } else {
            MAX_SECS as u64
        };
        let by: u64 = bounded * 1_000_000_000;
        let until: u64 = if now > u64::MAX - by {
            u64::MAX
        } else {
            now + by
        };
        assert(until == later(now, runs_for(e, secs)));
        let ghost all = active_states(self.active@);
        let k: usize = index_of_group(&self.active, effect_group(e));
        if k < self.active.len() {
            let old_until: u64 = self.active[k].until;
            self.active[k].effect = e;
            self.active[k].redemption_id = redemption_id.to_string();
            if old_until < until {
                self.active[k].until = until;
            }
            assert(active_states(self.active@) == all.update(
                k as int,
                taken_over(all[k as int], e, redemption_id@, until),
            ));
            return Ok(());
        }
        match start_timed(e, now, game, camera) {
            Err(why) => Err(why),
            Ok(restore) => {
                match &restore {
                    Restore::Fov(rows) => {
                        let mut v: Vec<char> = chars_of(&t(locales, "camera rows"));
                        append_text(&mut v, ": ");
                        append(&mut v, &decimal_of(rows.len() as u64));
                        self.note = Some(string_of(&v));
                    },
                    _ => {},
                }
                if e == Effect::RuneTrade {
                    // The first look only takes down where everyone stands.
                    let mut watch: DamageWatch = DamageWatch::new();
                    watch.poll(now, world, false);
                    self.watch = watch;
                }
                let a: Active = Active {
                    effect: e,
                    redemption_id: redemption_id.to_string(),
                    started: now,
                    until,
                    restore,
                };
                let ghost text = a.state();
                self.active.push(a);
                assert(active_states(self.active@) == all.push(text));
                Ok(())
            },
        }
    }

    /// Looks at the damage for the rune exchange, if one runs on beyond this frame. In
    /// menus and cutscenes the look is taken but nothing counts.
    pub fn poll_runes(&mut self, now: u64, world: &World, count_damage: bool) -> (r: Option<
        Damage,
    >)
        ensures
            final(self).active == old(self).active,
            final(self).note == old(self).note,
            r is Some <==> trade_runs(active_states(old(self).active@), now),
            match r {
                Some(d) => (final(self).watch.state(), d.dealt@, d.taken as int) == after_poll(
                    old(self).watch.state(),
                    now,
                    *world,
                    count_damage,
                ),
                None => final(self).watch == old(self).watch,
            },
    {
        let mut runs: bool = false;
        let ghost all = active_states(self.active@);
        for i in 0..self.active.len()
            invariant
                all == active_states(self.active@),
                *self == *old(self),
                runs == exists|j: int|
                    0 <= j < i && (#[trigger] all[j]).restore is Runes && all[j].until > now,
        {
            assert(all[i as int] == self.active@[i as int].state());
            let hit: bool = match &self.active[i].restore {
                Restore::Runes(_) => self.active[i].until > now,
                _ => false,
            };
            if hit {
                runs = true;
                assert(all[i as int].restore is Runes);
            }
        }
        if runs {
            Some(self.watch.poll(now, world, count_damage))
        } else {
            None
        }
    }

    /// Where the rune exchange stands, for the host to add to.
    pub fn runes(&self) -> (r: Option<Runes>)
        ensures
            match r {
                Some(x) => exists|i: int|
                    {
                        &&& 0 <= i < self.active@.len()
                        &&& (#[trigger] self.active@[i]).state().restore == RestoreState::Runes(x)
                        &&& forall|j: int|
                            0 <= j < i ==> !((#[trigger] self.active@[j]).state().restore is Runes)
                    },
                None => forall|i: int|
                    0 <= i < self.active@.len() ==> !((
                    #[trigger] self.active@[i]).state().restore is Runes),
            },
    {
        for i in 0..self.active.len()
            invariant
                forall|j: int|
                    0 <= j < i ==> !((#[trigger] self.active@[j]).state().restore is Runes),
        {
            match &self.active[i].restore {
                Restore::Runes(x) => {
                    assert(self.active@[i as int].state().restore == RestoreState::Runes(*x));
                    return Some(*x);
                },
                _ => {},
            }
        }
        None
    }

    fn run(
        &mut self,
        now: u64,
        force: Force,
        sums: &RuneSums,
        game: &mut Game,
        locales: &Locales,
    ) -> (r: Option<CameraWrite>)
        ensures
            ({
                let f: Frame = after_frame(
                    active_states(old(self).active@),
                    now,
                    force,
                    old(game).state(),
                    *sums,
                    *locales,
                );
                &&& active_states(final(self).active@) == f.kept
                &&& final(game).state() == f.game
                &&& note_text(final(self).note) == match f.note {
                    Some(n) => Some(n),
                    None => note_text(old(self).note),
                }
                &&& camera_text(r) == f.camera
                &&& final(self).watch == old(self).watch
            }),
    {
        let ghost all = active_states(self.active@);
        let ghost g0 = game.state();
        let mut rest: Vec<Active> = Vec::new();
        std::mem::swap(&mut rest, &mut self.active);
        let ghost mut k: int = 0;
        let mut note: Option<String> = None;
        let mut camera: Option<CameraWrite> = None;
        proof {
            assert(active_states(rest@) == all.skip(0));
            assert(active_states(self.active@) == Seq::<ActiveState>::empty());
            assert(all.take(0) == Seq::<ActiveState>::empty());
        }
        while rest.len() > 0
            invariant
                0 <= k <= all.len(),
                active_states(rest@) == all.skip(k),
                self.watch == old(self).watch,
                self.note == old(self).note,
                active_states(self.active@) == after_frame(
                    all.take(k),
                    now,
                    force,
                    g0,
                    *sums,
                    *locales,
                ).kept,
                game.state() == after_frame(all.take(k), now, force, g0, *sums, *locales).game,
                note_text(note) == after_frame(
                    all.take(k),
                    now,
                    force,
                    g0,
                    *sums,
                    *locales,
                ).note,
                camera_text(camera) == after_frame(
                    all.take(k),
                    now,
                    force,
                    g0,
                    *sums,
                    *locales,
                ).camera,
            decreases rest.len(),
        {
            let ghost before = active_states(self.active@);
            let ghost was = rest@;
            let mut a: Active = rest.remove(0);
            let ghost text = a.state();
            proof {
                assert(active_states(was).len() == was.len());
                assert(all.skip(k).len() == all.len() - k);
                assert(active_states(was)[0] == text);
                assert(all.skip(k)[0] == all[k]);
                assert(all.take(k + 1).drop_last() == all.take(k));
                assert(all.take(k + 1).last() == text);
                assert(active_states(rest@) == active_states(was).skip(1));
                assert(all.skip(k).skip(1) == all.skip(k + 1));
            }
            let over: bool = match force {
                Force::Due => a.until <= now,
                Force::All => true,
                Force::ExceptSurvivors => a.effect != Effect::RuneTrade,
            };
            let spared: bool = force != Force::Due && !over;
            if !spared {
                let (n, c): (Option<String>, Option<CameraWrite>) = step(
                    &mut a,
                    now,
                    over,
                    game,
                    sums,
                    locales,
                );
                if n.is_some() {
                    note = n;
                }
                if c.is_some() {
                    camera = c;
                }
            }
            if !over {
                let ghost last = a.state();
                self.active.push(a);
                assert(active_states(self.active@) == before.push(last));
            }
            proof {
                k = k + 1;
            }
        }
        assert(active_states(rest@).len() == 0);
        assert(all.skip(k).len() == all.len() - k);
        assert(all.take(k) == all);
        if note.is_some() {
            self.note = note;
        }
        camera
    }

    /// Every frame: keeps the effects up and undoes those whose time is up.
    pub fn tick(
        &mut self,
        now: u64,
        sums: &RuneSums,
        game: &mut Game,
        locales: &Locales,
    ) -> (r: Option<CameraWrite>)
        ensures
            ran(
                *old(self),
                *final(self),
                old(game).state(),
                final(game).state(),
                now,
                Force::Due,
                *sums,
                *locales,
                r,
            ),
    {
        self.run(now, Force::Due, sums, game, locales)
    }

    fn ids_of_doomed(&self, force: Force) -> (r: Vec<String>)
        ensures
            crate::text::texts(r@) == doomed_ids(active_states(self.active@), force),
    {
        let ghost all = active_states(self.active@);
        let mut r: Vec<String> = Vec::new();
        assert(crate::text::texts(r@) == doomed_ids(all.take(0), force));
        for i in 0..self.active.len()
            invariant
                all == active_states(self.active@),
                crate::text::texts(r@) == doomed_ids(all.take(i as int), force),
        {
            let a: &Active = &self.active[i];
            let ghost before = r@;
            proof {
                assert(all.take(i + 1).drop_last() == all.take(i as int));
                assert(all.take(i + 1).last() == a.state());
            }
            if (force == Force::All || a.effect != Effect::RuneTrade) && chars_of(
                &a.redemption_id,
            ).len() > 0 {
                r.push(a.redemption_id.clone());
                assert(crate::text::texts(r@) == crate::text::texts(before).push(
                    a.redemption_id@,
                ));
            }
        }
        assert(all.take(all.len() as int) == all);
        r
    }

    /// Undoes everything at once. Returns the purchases that the effects ran for, whose
    /// cards have to go, and what is written to the camera's table.
    pub fn revert_all(
        &mut self,
        now: u64,
        sums: &RuneSums,
        game: &mut Game,
        locales: &Locales,
    ) -> (r: (Vec<String>, Option<CameraWrite>))
        ensures
            crate::text::texts(r.0@) == doomed_ids(active_states(old(self).active@), Force::All),
            ran(
                *old(self),
                *final(self),
                old(game).state(),
                final(game).state(),
                now,
                Force::All,
                *sums,
                *locales,
                r.1,
            ),
    {
        let ids: Vec<String> = self.ids_of_doomed(Force::All);
        let camera: Option<CameraWrite> = self.run(now, Force::All, sums, game, locales);
        (ids, camera)
    }

    /// The same on the player's death, which the rune exchange survives.
    pub fn revert_on_death(
        &mut self,
        now: u64,
        sums: &RuneSums,
        game: &mut Game,
        locales: &Locales,
    ) -> (r: (Vec<String>, Option<CameraWrite>))
        ensures
            crate::text::texts(r.0@) == doomed_ids(
                active_states(old(self).active@),
                Force::ExceptSurvivors,
            ),
            ran(
                *old(self),
                *final(self),
                old(game).state(),
                final(game).state(),
                now,
                Force::ExceptSurvivors,
                *sums,
                *locales,
                r.1,
            ),
    {
        let ids: Vec<String> = self.ids_of_doomed(Force::ExceptSurvivors);
        let camera: Option<CameraWrite> = self.run(
            now,
            Force::ExceptSurvivors,
            sums,
            game,
            locales,
        );
        (ids, camera)
    }
}

/// A watch that has seen nothing.
pub open spec fn fresh_watch() -> WatchState {
    WatchState {
        last_hp: Map::empty(),
        bullets: Map::empty(),
        player_hp: None,
        frame: 0,
        last_poll: None,
    }
}

pub open spec fn camera_text(c: Option<CameraWrite>) -> Option<
    (Seq<(u32, Scalar)>, Option<u64>),
> {
    match c {
        Some(w) => Some((w.rows@, w.since)),
        None => None,
    }
}

/// What goes into the rows of the camera's table.
pub open spec fn row_values(saved: Seq<(u32, Scalar)>, ids: Seq<u32>) -> Seq<Option<Scalar>> {
    Seq::new(
        ids.len(),
        |i: int|
            if i < saved.len() && saved[i].0 == ids[i] {
                Some(saved[i].1)
            } else {
                None
            },
    )
}

/// What goes into each row of the camera's table: its saved value where the row is still
/// the same one, and nothing where the order of rows has changed.
pub fn camera_values(saved: &Vec<(u32, Scalar)>, ids: &Vec<u32>) -> (r: Vec<Option<Scalar>>)
    ensures
        r@ == row_values(saved@, ids@),
{
    let mut r: Vec<Option<Scalar>> = Vec::new();
    for i in 0..ids.len()
        invariant
            r.len() == i,
            forall|j: int|
                0 <= j < i ==> #[trigger] r@[j] == if j < saved@.len() && saved@[j].0 == ids@[j] {
                    Some(saved@[j].1)
                } else {
                    None
                },
    {
        if i < saved.len() && saved[i].0 == ids[i] {
            r.push(Some(saved[i].1));
        } else {
            r.push(None);
        }
    }
    assert(r@ =~= row_values(saved@, ids@));
    r
}

// ---------------------------------------------------------------------------
// Laws
// ---------------------------------------------------------------------------

pub proof fn lemma_group_at(active: Seq<ActiveState>, g: Option<Group>)
    ensures
        0 <= group_at(active, g) <= active.len(),
        group_at(active, g) < active.len() ==> group_of(active[group_at(active, g)].effect) == g,
        forall|i: int|
            0 <= i < group_at(active, g) ==> group_of((#[trigger] active[i]).effect) != g,
    decreases active.len(),
{
    if active.len() > 0 && group_of(active[0].effect) != g {
        lemma_group_at(active.skip(1), g);
        assert forall|i: int| 0 <= i < group_at(active, g) implies group_of(
            (#[trigger] active[i]).effect,
        ) != g by {
            if i > 0 {
                assert(active[i] == active.skip(1)[i - 1]);
            }
        }
    }
}

/// Two effects of one group never run at once: a purchase takes over the entry of its
/// group or adds the first one.
pub proof fn purchases_never_stack(
    active: Seq<ActiveState>,
    e: Effect,
    id: Seq<char>,
    now: u64,
    until: u64,
    restore: RestoreState,
)
    requires
        groups_differ(active),
        group_of(e) is Some,
    ensures
        ({
            let k: int = group_at(active, group_of(e));
            groups_differ(
                if k < active.len() {
                    active.update(k, taken_over(active[k], e, id, until))
                } else {
                    active.push(
                        ActiveState { effect: e, redemption_id: id, started: now, until, restore },
                    )
                },
            )
        }),
{
    let k: int = group_at(active, group_of(e));
    lemma_group_at(active, group_of(e));
    if k < active.len() {
        let next = active.update(k, taken_over(active[k], e, id, until));
        assert forall|i: int, j: int| 0 <= i < j < next.len() implies group_of(
            (#[trigger] next[i]).effect,
        ) != group_of((#[trigger] next[j]).effect) by {
            assert(group_of(active[i].effect) != group_of(active[j].effect));
        }
        assert forall|i: int| 0 <= i < next.len() implies group_of(
            (#[trigger] next[i]).effect,
        ) is Some by {
            assert(group_of(active[i].effect) is Some);
        }
    } else {
        let next = active.push(
            ActiveState { effect: e, redemption_id: id, started: now, until, restore },
        );
        assert forall|i: int, j: int| 0 <= i < j < next.len() implies group_of(
            (#[trigger] next[i]).effect,
        ) != group_of((#[trigger] next[j]).effect) by {
            if j < active.len() {
                assert(group_of(active[i].effect) != group_of(active[j].effect));
            } else {
                assert(group_of(active[i].effect) != group_of(e));
            }
        }
        assert forall|i: int| 0 <= i < next.len() implies group_of(
            (#[trigger] next[i]).effect,
        ) is Some by {
            if i < active.len() {
                assert(group_of(active[i].effect) is Some);
            }
        }
    }
}

/// Taking over an effect keeps what has to be put back and never brings its end nearer.
pub proof fn taking_over_keeps_the_original_value(
    a: ActiveState,
    e: Effect,
    id: Seq<char>,
    until: u64,
)
    ensures
        taken_over(a, e, id, until).restore == a.restore,
        taken_over(a, e, id, until).until >= a.until,
        taken_over(a, e, id, until).until >= until,
        taken_over(a, e, id, until).started == a.started,
{
}

/// There are at most five groups, so at most five effects run at once.
pub proof fn at_most_one_effect_of_each_group(active: Seq<ActiveState>)
    requires
        groups_differ(active),
    ensures
        active.len() <= 5,
{
    if active.len() > 5 {
        assert(group_of(active[0].effect) is Some && group_of(active[1].effect) is Some && group_of(
            active[2].effect,
        ) is Some && group_of(active[3].effect) is Some && group_of(active[4].effect) is Some
            && group_of(active[5].effect) is Some);
        assert(group_of(active[0].effect) != group_of(active[1].effect));
        assert(group_of(active[0].effect) != group_of(active[2].effect));
        assert(group_of(active[0].effect) != group_of(active[3].effect));
        assert(group_of(active[0].effect) != group_of(active[4].effect));
        assert(group_of(active[0].effect) != group_of(active[5].effect));
        assert(group_of(active[1].effect) != group_of(active[2].effect));
        assert(group_of(active[1].effect) != group_of(active[3].effect));
        assert(group_of(active[1].effect) != group_of(active[4].effect));
        assert(group_of(active[1].effect) != group_of(active[5].effect));
        assert(group_of(active[2].effect) != group_of(active[3].effect));
        assert(group_of(active[2].effect) != group_of(active[4].effect));
        assert(group_of(active[2].effect) != group_of(active[5].effect));
        assert(group_of(active[3].effect) != group_of(active[4].effect));
        assert(group_of(active[3].effect) != group_of(active[5].effect));
        assert(group_of(active[4].effect) != group_of(active[5].effect));
    }
}

/// Where an effect that is kept on a frame comes from.
proof fn lemma_kept(
    active: Seq<ActiveState>,
    now: u64,
    force: Force,
    g: GameState,
    sums: RuneSums,
    l: Locales,
    k: int,
) -> (i: int)
    requires
        0 <= k < after_frame(active, now, force, g, sums, l).kept.len(),
    ensures
        k <= i < active.len(),
        after_frame(active, now, force, g, sums, l).kept[k].effect == active[i].effect,
        !is_over(active[i], now, force),
    decreases active.len(),
{
    let front = active.drop_last();
    let f = after_frame(front, now, force, g, sums, l);
    if k < f.kept.len() {
        let i = lemma_kept(front, now, force, g, sums, l, k);
        assert(active[i] == front[i]);
        i
    } else {
        lemma_kept_len(front, now, force, g, sums, l);
        active.len() - 1
    }
}

proof fn lemma_kept_len(
    active: Seq<ActiveState>,
    now: u64,
    force: Force,
    g: GameState,
    sums: RuneSums,
    l: Locales,
)
    ensures
        after_frame(active, now, force, g, sums, l).kept.len() <= active.len(),
    decreases active.len(),
{
    if active.len() > 0 {
        lemma_kept_len(active.drop_last(), now, force, g, sums, l);
    }
}

/// Undoing everything leaves nothing running.
pub proof fn reverting_all_leaves_nothing(
    active: Seq<ActiveState>,
    now: u64,
    g: GameState,
    sums: RuneSums,
    l: Locales,
)
    ensures
        after_frame(active, now, Force::All, g, sums, l).kept.len() == 0,
{
    let f = after_frame(active, now, Force::All, g, sums, l);
    if f.kept.len() > 0 {
        let i = lemma_kept(active, now, Force::All, g, sums, l, 0);
    }
}

/// Of all effects only the rune exchange survives death.
pub proof fn only_the_rune_exchange_survives_death(
    active: Seq<ActiveState>,
    now: u64,
    g: GameState,
    sums: RuneSums,
    l: Locales,
    k: int,
)
    requires
        0 <= k < after_frame(active, now, Force::ExceptSurvivors, g, sums, l).kept.len(),
    ensures
        after_frame(active, now, Force::ExceptSurvivors, g, sums, l).kept[k].effect
            == Effect::RuneTrade,
{
    let i = lemma_kept(active, now, Force::ExceptSurvivors, g, sums, l, k);
}

/// A frame keeps the groups apart.
pub proof fn frames_never_stack(
    active: Seq<ActiveState>,
    now: u64,
    force: Force,
    g: GameState,
    sums: RuneSums,
    l: Locales,
)
    requires
        groups_differ(active),
    ensures
        groups_differ(after_frame(active, now, force, g, sums, l).kept),
    decreases active.len(),
{
    if active.len() > 0 {
        let front = active.drop_last();
        assert(groups_differ(front)) by {
            assert forall|i: int| 0 <= i < front.len() implies group_of(
                (#[trigger] front[i]).effect,
            ) is Some by {
                assert(front[i] == active[i]);
            }
            assert forall|i: int, j: int| 0 <= i < j < front.len() implies group_of(
                (#[trigger] front[i]).effect,
            ) != group_of((#[trigger] front[j]).effect) by {
                assert(front[i] == active[i] && front[j] == active[j]);
            }
        }
        frames_never_stack(front, now, force, g, sums, l);
        let f = after_frame(front, now, force, g, sums, l);
        let out = after_frame(active, now, force, g, sums, l).kept;
        let n: int = active.len() - 1;
        assert(group_of(active[n].effect) is Some);
        assert forall|i: int| 0 <= i < out.len() implies group_of(
            (#[trigger] out[i]).effect,
        ) is Some by {
            if i < f.kept.len() {
                assert(out[i] == f.kept[i]);
            } else {
                assert(out[i].effect == active[n].effect);
            }
        }
        assert forall|i: int, j: int| 0 <= i < j < out.len() implies group_of(
            (#[trigger] out[i]).effect,
        ) != group_of((#[trigger] out[j]).effect) by {
            assert(out[i] == f.kept[i]);
            if j < f.kept.len() {
                assert(out[j] == f.kept[j]);
            } else {
                assert(out[j].effect == active[n].effect);
                let a = lemma_kept(front, now, force, g, sums, l, i);
                assert(front[a] == active[a]);
                assert(group_of(active[a].effect) != group_of(active[n].effect));
            }
        }
    }
}

/// Undoing puts the original back: the speed is normal, the greatest stamina is the saved
/// one, and every flask that was there at the start has the charges that it had.
pub proof fn undoing_restores(a: ActiveState, now: u64, g: GameState, sums: RuneSums)
    ensures
        a.restore is Speed && g.speed is Some ==> game_after(a, now, true, g, sums).speed == Some(
            Scalar { bits: NORMAL_SPEED },
        ),
        a.restore matches RestoreState::Stamina(saved) ==> (g.player is Some ==> game_after(
            a,
            now,
            true,
            g,
            sums,
        ).player.unwrap().max_stamina == saved),
        a.restore matches RestoreState::Flasks(charges, _) ==> (g.player is Some ==> forall|
            i: int,
        |
            #![trigger g.player.unwrap().items[i]]
            0 <= i < g.player.unwrap().items.len() && is_flask(g.player.unwrap().items[i])
                && charge_of(charges, g.player.unwrap().items[i].id) is Some ==> game_after(
                a,
                now,
                true,
                g,
                sums,
            ).player.unwrap().items[i].quantity == charge_of(
                charges,
                g.player.unwrap().items[i].id,
            ).unwrap()),
{
}

} // verus!
