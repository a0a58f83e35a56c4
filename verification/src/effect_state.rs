//! The effects that are running: starting them, keeping them up on every frame, and
//! undoing them when their time is up or when they have to go.

use vstd::prelude::*;
use crate::effects::{
    Effect, Rejected, FLASK_FP_FIRST, FLASK_FP_LAST, FLASK_GIFT, FLASK_HP_FIRST, FLASK_HP_LAST,
};
use crate::scalar::Scalar;

verus! {

// ---------------------------------------------------------------------------
// The game
// ---------------------------------------------------------------------------

/// An item of the inventory.
#[derive(Clone, Copy, Debug, PartialEq, Eq, Structural)]
pub struct Item {
    /// It belongs to the goods, among which the flasks are.
    pub goods: bool,
    pub id: u32,
    /// The group of vessels that it belongs to, if it is not negative.
    pub pot_group: i32,
    pub quantity: u32,
}

/// What the game holds of the player.
pub struct Player {
    pub hp: i32,
    pub max_hp: i32,
    pub fp: i32,
    pub max_fp: i32,
    pub stamina: i32,
    pub max_stamina: i32,
    pub runes: u32,
    pub max_hp_flask: u8,
    pub max_fp_flask: u8,
    pub items: Vec<Item>,
    /// How many vessels of each group there are.
    pub pots: Vec<u32>,
}

/// What the game holds of a boss.
#[derive(Clone, Copy, Debug, PartialEq, Eq, Structural)]
pub struct Foe {
    pub hp: i32,
    pub max_hp: i32,
    pub max_uncapped_hp: i32,
}

/// The boss whose health is on the screen.
#[derive(Clone, Copy, Debug, PartialEq, Eq, Structural)]
pub enum Target {
    /// There is none.
    Absent,
    /// The world itself is missing.
    NoWorld,
    Found(Foe),
}

/// What effects read and write of the game. What is missing is `None`.
pub struct Game {
    pub speed: Option<Scalar>,
    pub player: Option<Player>,
    pub target: Target,
}

/// The player, by their lists.
pub struct PlayerState {
    pub hp: i32,
    pub max_hp: i32,
    pub fp: i32,
    pub max_fp: i32,
    pub stamina: i32,
    pub max_stamina: i32,
    pub runes: u32,
    pub max_hp_flask: u8,
    pub max_fp_flask: u8,
    pub items: Seq<Item>,
    pub pots: Seq<u32>,
}

/// The game, by its lists.
pub struct GameState {
    pub speed: Option<Scalar>,
    pub player: Option<PlayerState>,
    pub target: Target,
}

impl Player {
    pub open spec fn state(self) -> PlayerState {
        PlayerState {
            hp: self.hp,
            max_hp: self.max_hp,
            fp: self.fp,
            max_fp: self.max_fp,
            stamina: self.stamina,
            max_stamina: self.max_stamina,
            runes: self.runes,
            max_hp_flask: self.max_hp_flask,
            max_fp_flask: self.max_fp_flask,
            items: self.items@,
            pots: self.pots@,
        }
    }
}

impl Game {
    pub open spec fn state(self) -> GameState {
        GameState {
            speed: self.speed,
            player: match self.player {
                Some(p) => Some(p.state()),
                None => None,
            },
            target: self.target,
        }
    }
}

/// Whether an item is a flask that restores health.
pub open spec fn is_hp_flask(i: Item) -> bool {
    i.goods && FLASK_HP_FIRST <= i.id <= FLASK_HP_LAST
}

/// Whether an item is a flask.
pub open spec fn is_flask(i: Item) -> bool {
    is_hp_flask(i) || (i.goods && FLASK_FP_FIRST <= i.id <= FLASK_FP_LAST)
}

fn flask(i: &Item) -> (r: bool)
    ensures
        r == is_flask(*i),
{
    i.goods && ((FLASK_HP_FIRST <= i.id && i.id <= FLASK_HP_LAST) || (FLASK_FP_FIRST <= i.id
        && i.id <= FLASK_FP_LAST))
}

// ---------------------------------------------------------------------------
// Effects without a duration
// ---------------------------------------------------------------------------

/// A flask after a gift: more charges, but no more than the player can carry.
pub open spec fn gifted(i: Item, max_hp_flask: u8, max_fp_flask: u8) -> Item {
    if is_flask(i) {
        let cap: int = if is_hp_flask(i) {
            max_hp_flask as int
        } else {
            max_fp_flask as int
        };
        Item {
            quantity: (if i.quantity + FLASK_GIFT <= cap {
                i.quantity + FLASK_GIFT
            } else {
                cap
            }) as u32,
            ..i
        }
    } else {
        i
    }
}

/// An integer brought into 32 bits.
pub open spec fn clipped(n: int) -> i32 {
    if n > i32::MAX {
        i32::MAX
    } else if n < i32::MIN {
        i32::MIN
    } else {
        n as i32
    }
}

/// A tenth, rounded towards zero.
pub open spec fn tenth(n: int) -> int {
    if n >= 0 {
        n / 10
    } else {
        -((-n) / 10)
    }
}

/// A boss with four times the health: the bar does not become full, but a tenth of the
/// new maximum is healed.
pub open spec fn swollen(f: Foe) -> Foe {
    let max: i32 = clipped(f.max_hp * 4);
    Foe {
        max_hp: max,
        max_uncapped_hp: if f.max_uncapped_hp >= max {
            f.max_uncapped_hp
        } else {
            max
        },
        hp: if f.hp + tenth(max as int) <= max {
            clipped(f.hp + tenth(max as int))
        } else {
            max
        },
    }
}

/// What an effect without a duration does to the game, or why it cannot.
pub open spec fn once(e: Effect, g: GameState) -> Result<GameState, Rejected> {
    match e {
        Effect::Heal => match g.player {
            Some(p) => Ok(GameState { player: Some(PlayerState { hp: p.max_hp, ..p }), ..g }),
            None => Err(Rejected::NoPlayer),
        },
        Effect::RestoreFp => match g.player {
            Some(p) => Ok(GameState { player: Some(PlayerState { fp: p.max_fp, ..p }), ..g }),
            None => Err(Rejected::NoPlayer),
        },
        Effect::OneHp => match g.player {
            Some(p) => Ok(GameState { player: Some(PlayerState { hp: 1, ..p }), ..g }),
            None => Err(Rejected::NoPlayer),
        },
        Effect::FlaskGift => match g.player {
            Some(p) => Ok(
                GameState {
                    player: Some(
                        PlayerState {
                            items: p.items.map_values(
                                |i: Item| gifted(i, p.max_hp_flask, p.max_fp_flask),
                            ),
                            ..p
                        },
                    ),
                    ..g
                },
            ),
            None => Err(Rejected::NoPlayer),
        },
        Effect::BossHeal => match g.target {
            Target::Found(f) => Ok(
                GameState { target: Target::Found(Foe { hp: f.max_hp, ..f }), ..g },
            ),
            Target::Absent => Err(Rejected::NoBoss),
            Target::NoWorld => Err(Rejected::NoPlayer),
        },
        Effect::BossHp => match g.target {
            Target::Found(f) => Ok(GameState { target: Target::Found(swollen(f)), ..g }),
            Target::Absent => Err(Rejected::NoBoss),
            Target::NoWorld => Err(Rejected::NoPlayer),
        },
        _ => Err(Rejected::Unknown),
    }
}

fn clip(n: i64) -> (r: i32)
    ensures
        r == clipped(n as int),
{
    if n > i32::MAX as i64 {
        i32::MAX
    } else if n < i32::MIN as i64 {
        i32::MIN
    } else {
        n as i32
    }
}

fn tenth_of(n: i64) -> (r: i64)
    requires
        -0x1_0000_0000 < n < 0x1_0000_0000,
    ensures
        r == tenth(n as int),
        -0x1_0000_0000 < r < 0x1_0000_0000,
{
    if n >= 0 {
        n / 10
    } else {
        -((-n) / 10)
    }
}

fn swell(f: Foe) -> (r: Foe)
    ensures
        r == swollen(f),
{
    let max: i32 = clip(f.max_hp as i64 * 4);
    let healed: i64 = f.hp as i64 + tenth_of(max as i64);
    Foe {
        max_hp: max,
        max_uncapped_hp: if f.max_uncapped_hp >= max {
            f.max_uncapped_hp
        } else {
            max
        },
        hp: if healed <= max as i64 {
            clip(healed)
        } else {
            max
        },
    }
}

fn gift(p: &mut Player)
    ensures
        final(p).state() == (PlayerState {
            items: old(p).items@.map_values(
                |i: Item| gifted(i, old(p).max_hp_flask, old(p).max_fp_flask),
            ),
            ..old(p).state()
        }),
{
    let mut items: Vec<Item> = Vec::new();
    for k in 0..p.items.len()
        invariant
            *p == *old(p),
            items.len() == k,
            forall|j: int|
                0 <= j < k ==> #[trigger] items@[j] == gifted(
                    p.items@[j],
                    p.max_hp_flask,
                    p.max_fp_flask,
                ),
    {
        let mut i: Item = p.items[k];
        if flask(&i) {
            let cap: u32 = if FLASK_HP_FIRST <= i.id && i.id <= FLASK_HP_LAST {
                p.max_hp_flask as u32
            } else {
                p.max_fp_flask as u32
            };
            i.quantity = if i.quantity <= cap && cap - i.quantity >= FLASK_GIFT {
                i.quantity + FLASK_GIFT
            } else {
                cap
            };
        }
        items.push(i);
    }
    assert(items@ == p.items@.map_values(|i: Item| gifted(i, p.max_hp_flask, p.max_fp_flask)));
    p.items = items;
}

/// Applies an effect without a duration.
pub fn apply_once(e: Effect, game: &mut Game) -> (r: Result<(), Rejected>)
    ensures
        match once(e, old(game).state()) {
            Ok(g) => r is Ok && final(game).state() == g,
            Err(why) => r == Err::<(), Rejected>(why) && final(game).state() == old(
                game,
            ).state(),
        },
{
    match e {
        Effect::Heal => match &mut game.player {
            Some(p) => {
                p.hp = p.max_hp;
                Ok(())
            },
            None => Err(Rejected::NoPlayer),
        },
        Effect::RestoreFp => match &mut game.player {
            Some(p) => {
                p.fp = p.max_fp;
                Ok(())
            },
            None => Err(Rejected::NoPlayer),
        },
        Effect::OneHp => match &mut game.player {
            Some(p) => {
                p.hp = 1;
                Ok(())
            },
            None => Err(Rejected::NoPlayer),
        },
        Effect::FlaskGift => match &mut game.player {
            Some(p) => {
                gift(p);
                Ok(())
            },
            None => Err(Rejected::NoPlayer),
        },
        Effect::BossHeal => match game.target {
            Target::Found(f) => {
                game.target = Target::Found(
                    Foe {
                        hp: f.max_hp,
                        max_hp: f.max_hp,
                        max_uncapped_hp: f.max_uncapped_hp,
                    },
                );
                Ok(())
            },
            Target::Absent => Err(Rejected::NoBoss),
            Target::NoWorld => Err(Rejected::NoPlayer),
        },
        Effect::BossHp => match game.target {
            Target::Found(f) => {
                game.target = Target::Found(swell(f));
                Ok(())
            },
            Target::Absent => Err(Rejected::NoBoss),
            Target::NoWorld => Err(Rejected::NoPlayer),
        },
        _ => Err(Rejected::Unknown),
    }
}

/// A gift never fills a flask beyond what the player can carry, and never takes a charge
/// from a flask that is not already beyond it.
pub proof fn a_gift_stays_within_the_maximum(i: Item, max_hp_flask: u8, max_fp_flask: u8)
    requires
        is_flask(i),
    ensures
        gifted(i, max_hp_flask, max_fp_flask).quantity <= if is_hp_flask(i) {
            max_hp_flask as int
        } else {
            max_fp_flask as int
        },
        i.quantity <= (if is_hp_flask(i) {
            max_hp_flask as int
        } else {
            max_fp_flask as int
        }) ==> i.quantity <= gifted(i, max_hp_flask, max_fp_flask).quantity <= i.quantity
            + FLASK_GIFT,
{
}

} // verus!
