//! Effects that viewers buy: what they are, how long they last, what they do to the
//! player, and how they are undone. The host reads and writes the game; what has to be
//! written is decided here.
//!
//! An effect without a duration is applied and forgotten. A timed one is applied again
//! on every frame, because the game computes the same values anew, and is undone when
//! its time is up.

use vstd::prelude::*;
use crate::i18n::{t, translated, Locales};
use crate::text::{chars_of, same};

verus! {

/// The longest that an effect may last, in seconds. While it lasts a value of the game
/// is overwritten on every frame, and a crash of the game is the one thing that cannot
/// be undone.
pub const MAX_SECS: u16 = 600;

/// How far the camera sways, in tenths of the normal field of view.
pub const SWAY_AMPLITUDE_TENTHS: u8 = 4;

/// How long one sway lasts, in seconds.
pub const SWAY_PERIOD_SECS: u8 = 3;

/// The encoding of 1: the normal speed of the game.
pub const NORMAL_SPEED: u32 = 0x3F80_0000;

/// The encoding of 0.5.
pub const SLOW_SPEED: u32 = 0x3F00_0000;

/// The encoding of 1.5.
pub const FAST_SPEED: u32 = 0x3FC0_0000;

/// The ids of flasks that restore health.
pub const FLASK_HP_FIRST: u32 = 1000;

pub const FLASK_HP_LAST: u32 = 1025;

/// The ids of flasks that restore focus.
pub const FLASK_FP_FIRST: u32 = 1050;

pub const FLASK_FP_LAST: u32 = 1075;

/// How many charges a gift adds.
pub const FLASK_GIFT: u32 = 3;

/// The share of damage dealt that is paid in runes, in tenths.
pub const RUNE_GAIN_TENTHS: u8 = 6;

/// The share of damage taken that is charged in runes, in tenths.
pub const RUNE_LOSS_TENTHS: u8 = 8;

/// How often runes are paid, in nanoseconds: on every frame their number would flicker.
pub const RUNE_BATCH: u64 = 3_000_000_000;

// ---------------------------------------------------------------------------
// The table
// ---------------------------------------------------------------------------

/// An effect.
#[derive(Clone, Copy, Debug, PartialEq, Eq, Structural)]
pub enum Effect {
    Heal,
    RestoreFp,
    FlaskGift,
    OneHp,
    BossHeal,
    BossHp,
    StaminaHalf,
    StaminaNone,
    Slow,
    Fast,
    CameraSway,
    FlaskLock,
    RuneTrade,
}

/// A row of the table of effects.
pub struct EffectEntry {
    pub effect: Effect,
    /// The name in the file of rewards. It never changes: rewards are set up by it.
    pub key: &'static str,
    /// The English name, which is the key of its translation.
    pub label: &'static str,
    /// How long it lasts by default, in seconds; 0 for an effect without a duration.
    pub default_secs: u16,
    /// What it does to the player, in one line; empty where the name says it all.
    pub about: &'static str,
    /// It gets in the way of playing, so that a death soon after it is the viewer's.
    pub harmful: bool,
}

/// A row of the table by its texts.
pub struct EffectText {
    pub effect: Effect,
    pub key: Seq<char>,
    pub label: Seq<char>,
    pub default_secs: u16,
    pub about: Seq<char>,
    pub harmful: bool,
}

impl EffectEntry {
    pub open spec fn text(self) -> EffectText {
        EffectText {
            effect: self.effect,
            key: self.key@,
            label: self.label@,
            default_secs: self.default_secs,
            about: self.about@,
            harmful: self.harmful,
        }
    }
}

/// The row of an effect.
pub open spec fn effect_text(e: Effect) -> EffectText {
    match e {
        Effect::Heal => EffectText {
            effect: e,
            key: "heal"@,
            label: "Full heal"@,
            default_secs: 0,
            about: ""@,
            harmful: false,
        },
        Effect::RestoreFp => EffectText {
            effect: e,
            key: "restore_fp"@,
            label: "Full FP"@,
            default_secs: 0,
            about: ""@,
            harmful: false,
        },
        Effect::FlaskGift => EffectText {
            effect: e,
            key: "flask_gift"@,
            label: "Plus 3 flask charges"@,
            default_secs: 0,
            about: "Tops up 3 flask charges, never above your maximum."@,
            harmful: false,
        },
        Effect::OneHp => EffectText {
            effect: e,
            key: "one_hp"@,
            label: "Down to 1 HP"@,
            default_secs: 0,
            about: "Health drops to one. Good luck."@,
            harmful: true,
        },
        Effect::BossHeal => EffectText {
            effect: e,
            key: "boss_heal"@,
            label: "Heal the boss"@,
            default_secs: 0,
            about: "The boss gets all its health back. Start over."@,
            harmful: true,
        },
        Effect::BossHp => EffectText {
            effect: e,
            key: "boss_hp"@,
            label: "Boss gets 4x HP"@,
            default_secs: 0,
            about: "The boss's health bar gets four times longer."@,
            harmful: true,
        },
        Effect::StaminaHalf => EffectText {
            effect: e,
            key: "stamina_half"@,
            label: "Half stamina"@,
            default_secs: 180,
            about: "Half as many swings and rolls in a row."@,
            harmful: true,
        },
        Effect::StaminaNone => EffectText {
            effect: e,
            key: "stamina_none"@,
            label: "No stamina"@,
            default_secs: 180,
            about: "No stamina at all: no sprint, no block, no combos."@,
            harmful: true,
        },
        Effect::Slow => EffectText {
            effect: e,
            key: "slow"@,
            label: "Slow motion"@,
            default_secs: 100,
            about: "Everything moves in slow motion, you included."@,
            harmful: true,
        },
        Effect::Fast => EffectText {
            effect: e,
            key: "fast"@,
            label: "Fast forward"@,
            default_secs: 100,
            about: "The game runs faster, and so must you."@,
            harmful: true,
        },
        Effect::CameraSway => EffectText {
            effect: e,
            key: "camera_sway"@,
            label: "Camera sway"@,
            default_secs: 120,
            about: "The field of view breathes in and out; aiming gets harder."@,
            harmful: true,
        },
        Effect::FlaskLock => EffectText {
            effect: e,
            key: "flask_lock"@,
            label: "Flasks locked"@,
            default_secs: 90,
            about: "Flasks run dry: no healing until it wears off."@,
            harmful: true,
        },
        Effect::RuneTrade => EffectText {
            effect: e,
            key: "rune_trade"@,
            label: "Rune exchange"@,
            default_secs: 180,
            about: "Deal damage and earn runes, take damage and lose them - losses cost more."@,
            harmful: false,
        },
    }
}

/// The effects in the order of the table.
pub open spec fn effect_order() -> Seq<Effect> {
    seq![
        Effect::Heal,
        Effect::RestoreFp,
        Effect::FlaskGift,
        Effect::OneHp,
        Effect::BossHeal,
        Effect::BossHp,
        Effect::StaminaHalf,
        Effect::StaminaNone,
        Effect::Slow,
        Effect::Fast,
        Effect::CameraSway,
        Effect::FlaskLock,
        Effect::RuneTrade,
    ]
}

/// The effect with the key, if there is one.
pub open spec fn effect_named(key: Seq<char>) -> Option<Effect> {
    if key == "heal"@ {
        Some(Effect::Heal)
    } else if key == "restore_fp"@ {
        Some(Effect::RestoreFp)
    } else if key == "flask_gift"@ {
        Some(Effect::FlaskGift)
    } else if key == "one_hp"@ {
        Some(Effect::OneHp)
    } else if key == "boss_heal"@ {
        Some(Effect::BossHeal)
    } else if key == "boss_hp"@ {
        Some(Effect::BossHp)
    } else if key == "stamina_half"@ {
        Some(Effect::StaminaHalf)
    } else if key == "stamina_none"@ {
        Some(Effect::StaminaNone)
    } else if key == "slow"@ {
        Some(Effect::Slow)
    } else if key == "fast"@ {
        Some(Effect::Fast)
    } else if key == "camera_sway"@ {
        Some(Effect::CameraSway)
    } else if key == "flask_lock"@ {
        Some(Effect::FlaskLock)
    } else if key == "rune_trade"@ {
        Some(Effect::RuneTrade)
    } else {
        None
    }
}

/// The row of an effect.
pub fn row(e: Effect) -> (r: EffectEntry)
    ensures
        r.text() == effect_text(e),
{
    let (key, label, default_secs, about, harmful): (
        &'static str,
        &'static str,
        u16,
        &'static str,
        bool,
    ) = match e {
        Effect::Heal => ("heal", "Full heal", 0, "", false),
        Effect::RestoreFp => ("restore_fp", "Full FP", 0, "", false),
        Effect::FlaskGift => (
            "flask_gift",
            "Plus 3 flask charges",
            0,
            "Tops up 3 flask charges, never above your maximum.",
            false,
        ),
        Effect::OneHp => ("one_hp", "Down to 1 HP", 0, "Health drops to one. Good luck.", true),
        Effect::BossHeal => (
            "boss_heal",
            "Heal the boss",
            0,
            "The boss gets all its health back. Start over.",
            true,
        ),
        Effect::BossHp => (
            "boss_hp",
            "Boss gets 4x HP",
            0,
            "The boss's health bar gets four times longer.",
            true,
        ),
        Effect::StaminaHalf => (
            "stamina_half",
            "Half stamina",
            180,
            "Half as many swings and rolls in a row.",
            true,
        ),
        Effect::StaminaNone => (
            "stamina_none",
            "No stamina",
            180,
            "No stamina at all: no sprint, no block, no combos.",
            true,
        ),
        Effect::Slow => (
            "slow",
            "Slow motion",
            100,
            "Everything moves in slow motion, you included.",
            true,
        ),
        Effect::Fast => (
            "fast",
            "Fast forward",
            100,
            "The game runs faster, and so must you.",
            true,
        ),
        Effect::CameraSway => (
            "camera_sway",
            "Camera sway",
            120,
            "The field of view breathes in and out; aiming gets harder.",
            true,
        ),
        Effect::FlaskLock => (
            "flask_lock",
            "Flasks locked",
            90,
            "Flasks run dry: no healing until it wears off.",
            true,
        ),
        Effect::RuneTrade => (
            "rune_trade",
            "Rune exchange",
            180,
            "Deal damage and earn runes, take damage and lose them - losses cost more.",
            false,
        ),
    };
    EffectEntry { effect: e, key, label, default_secs, about, harmful }
}

/// All effects in the order of the table.
pub fn effect_table() -> (r: Vec<EffectEntry>)
    ensures
        r.len() == effect_order().len(),
        forall|i: int|
            0 <= i < r.len() ==> (#[trigger] r@[i]).text() == effect_text(effect_order()[i]),
{
    let order: Vec<Effect> = vec![
        Effect::Heal,
        Effect::RestoreFp,
        Effect::FlaskGift,
        Effect::OneHp,
        Effect::BossHeal,
        Effect::BossHp,
        Effect::StaminaHalf,
        Effect::StaminaNone,
        Effect::Slow,
        Effect::Fast,
        Effect::CameraSway,
        Effect::FlaskLock,
        Effect::RuneTrade,
    ];
    assert(order@ == effect_order());
    let mut r: Vec<EffectEntry> = Vec::new();
    for i in 0..order.len()
        invariant
            order@ == effect_order(),
            r.len() == i,
            forall|j: int|
                0 <= j < i ==> (#[trigger] r@[j]).text() == effect_text(effect_order()[j]),
    {
        r.push(row(order[i]));
    }
    r
}

/// The effect with the key.
pub fn effect_of(key: &str) -> (r: Option<Effect>)
    ensures
        r == effect_named(key@),
{
    let k: Vec<char> = chars_of(key);
    if same(&k, "heal") {
        Some(Effect::Heal)
    } else if same(&k, "restore_fp") {
        Some(Effect::RestoreFp)
    } else if same(&k, "flask_gift") {
        Some(Effect::FlaskGift)
    } else if same(&k, "one_hp") {
        Some(Effect::OneHp)
    } else if same(&k, "boss_heal") {
        Some(Effect::BossHeal)
    } else if same(&k, "boss_hp") {
        Some(Effect::BossHp)
    } else if same(&k, "stamina_half") {
        Some(Effect::StaminaHalf)
    } else if same(&k, "stamina_none") {
        Some(Effect::StaminaNone)
    } else if same(&k, "slow") {
        Some(Effect::Slow)
    } else if same(&k, "fast") {
        Some(Effect::Fast)
    } else if same(&k, "camera_sway") {
        Some(Effect::CameraSway)
    } else if same(&k, "flask_lock") {
        Some(Effect::FlaskLock)
    } else if same(&k, "rune_trade") {
        Some(Effect::RuneTrade)
    } else {
        None
    }
}

/// The row with the key.
pub fn entry(key: &str) -> (r: Option<EffectEntry>)
    ensures
        match effect_named(key@) {
            Some(e) => r is Some && r.unwrap().text() == effect_text(e),
            None => r is None,
        },
{
    match effect_of(key) {
        Some(e) => Some(row(e)),
        None => None,
    }
}

/// The key itself, if there is such an effect.
pub fn key_of(name: &str) -> (r: Option<&'static str>)
    ensures
        match effect_named(name@) {
            Some(e) => r is Some && r.unwrap()@ == effect_text(e).key,
            None => r is None,
        },
{
    match effect_of(name) {
        Some(e) => Some(row(e).key),
        None => None,
    }
}

/// What the effect is called; an unknown one by its key.
pub fn label(locales: &Locales, key: &str) -> (r: String)
    ensures
        r@ == match effect_named(key@) {
            Some(e) => translated(*locales, effect_text(e).label),
            None => key@,
        },
{
    match effect_of(key) {
        Some(e) => t(locales, row(e).label),
        None => key.to_string(),
    }
}

/// What the effect does, in one line; empty where its name says it all.
pub fn about(locales: &Locales, key: &str) -> (r: String)
    ensures
        r@ == match effect_named(key@) {
            Some(e) => translated(*locales, effect_text(e).about),
            None => ""@,
        },
{
    match effect_of(key) {
        Some(e) => t(locales, row(e).about),
        None => "".to_string(),
    }
}

/// Whether the effect gets in the way of playing.
pub fn harmful(key: &str) -> (r: bool)
    ensures
        r == match effect_named(key@) {
            Some(e) => effect_text(e).harmful,
            None => false,
        },
{
    match effect_of(key) {
        Some(e) => row(e).harmful,
        None => false,
    }
}

/// How long the effect lasts by default, in seconds; 0 for one without a duration.
pub fn default_secs(key: &str) -> (r: u16)
    ensures
        r == match effect_named(key@) {
            Some(e) => effect_text(e).default_secs,
            None => 0,
        },
{
    match effect_of(key) {
        Some(e) => row(e).default_secs,
        None => 0,
    }
}

/// By what an effect is kept up. Two effects of one group cannot run at once: the second
/// would take what the first has changed for normal, and undoing it would leave that for
/// ever.
#[derive(Clone, Copy, Debug, PartialEq, Eq, Structural)]
pub enum Group {
    Speed,
    Stamina,
    Fov,
    Flask,
    Runes,
}

/// The group of an effect; none for one without a duration.
pub open spec fn group_of(e: Effect) -> Option<Group> {
    match e {
        Effect::Slow | Effect::Fast => Some(Group::Speed),
        Effect::StaminaHalf | Effect::StaminaNone => Some(Group::Stamina),
        Effect::CameraSway => Some(Group::Fov),
        Effect::FlaskLock => Some(Group::Flask),
        Effect::RuneTrade => Some(Group::Runes),
        _ => None,
    }
}

/// The word for a group; empty for none.
pub open spec fn group_word(g: Option<Group>) -> Seq<char> {
    match g {
        Some(Group::Speed) => "speed"@,
        Some(Group::Stamina) => "stamina"@,
        Some(Group::Fov) => "fov"@,
        Some(Group::Flask) => "flask"@,
        Some(Group::Runes) => "runes"@,
        None => ""@,
    }
}

pub fn effect_group(e: Effect) -> (r: Option<Group>)
    ensures
        r == group_of(e),
{
    match e {
        Effect::Slow | Effect::Fast => Some(Group::Speed),
        Effect::StaminaHalf | Effect::StaminaNone => Some(Group::Stamina),
        Effect::CameraSway => Some(Group::Fov),
        Effect::FlaskLock => Some(Group::Flask),
        Effect::RuneTrade => Some(Group::Runes),
        _ => None,
    }
}

/// The group of the effect with the key, as a word; empty for none.
pub fn group(key: &str) -> (r: &'static str)
    ensures
        r@ == group_word(
            match effect_named(key@) {
                Some(e) => group_of(e),
                None => None,
            },
        ),
{
    match effect_of(key) {
        Some(e) => match effect_group(e) {
            Some(Group::Speed) => "speed",
            Some(Group::Stamina) => "stamina",
            Some(Group::Fov) => "fov",
            Some(Group::Flask) => "flask",
            Some(Group::Runes) => "runes",
            None => "",
        },
        None => "",
    }
}

/// The effect with the key goes on after the player's death.
pub open spec fn outlives_death(key: Seq<char>) -> bool {
    key == "rune_trade"@
}

/// Whether the effect goes on after the player's death. Death takes everything away but
/// the rune exchange, which is in nobody's way and only keeps the score.
pub fn survives_death(key: &str) -> (r: bool)
    ensures
        r == outlives_death(key@),
{
    same(&chars_of(key), "rune_trade")
}

proof fn lemma_effect_keys(e: Effect)
    ensures
        effect_named(effect_text(e).key) == Some(e),
{
    reveal_strlit("heal");
    reveal_strlit("restore_fp");
    reveal_strlit("flask_gift");
    reveal_strlit("one_hp");
    reveal_strlit("boss_heal");
    reveal_strlit("boss_hp");
    reveal_strlit("stamina_half");
    reveal_strlit("stamina_none");
    reveal_strlit("slow");
    reveal_strlit("fast");
    reveal_strlit("camera_sway");
    reveal_strlit("flask_lock");
    reveal_strlit("rune_trade");
    assert("slow"@[0] == 's' && "fast"@[0] == 'f' && "heal"@[0] == 'h');
    assert("stamina_half"@[8] == 'h' && "stamina_none"@[8] == 'n');
    assert("restore_fp"@[0] == 'r' && "flask_gift"@[0] == 'f' && "flask_lock"@[6] == 'l'
        && "flask_gift"@[6] == 'g' && "rune_trade"@[1] == 'u' && "restore_fp"@[1] == 'e');
    assert("rune_trade"@[0] == 'r' && "flask_lock"@[0] == 'f');
    assert("heal"@.len() == 4 && "slow"@.len() == 4 && "fast"@.len() == 4);
    assert("restore_fp"@.len() == 10 && "flask_gift"@.len() == 10 && "flask_lock"@.len() == 10
        && "rune_trade"@.len() == 10);
    assert("stamina_half"@.len() == 12 && "stamina_none"@.len() == 12);
    assert("boss_heal"@.len() == 9 && "boss_hp"@.len() == 7 && "one_hp"@.len() == 6
        && "camera_sway"@.len() == 11);
}

/// The table is well formed: every effect is found under its own key and under no other,
/// none lasts longer than allowed, exactly the timed ones have a group, and the one that
/// survives death is timed.
pub proof fn the_table_is_well_formed(e: Effect, f: Effect)
    ensures
        effect_named(effect_text(e).key) == Some(e),
        effect_text(e).key == effect_text(f).key ==> e == f,
        effect_text(e).default_secs <= MAX_SECS,
        group_of(e) is Some <==> effect_text(e).default_secs > 0,
        effect_text(e).key == "rune_trade"@ <==> e == Effect::RuneTrade,
        effect_text(Effect::RuneTrade).default_secs > 0,
        effect_order().contains(e),
{
    lemma_effect_keys(e);
    lemma_effect_keys(f);
    lemma_effect_keys(Effect::RuneTrade);
    let o = effect_order();
    assert(o[0] == Effect::Heal && o[1] == Effect::RestoreFp && o[2] == Effect::FlaskGift && o[3]
        == Effect::OneHp && o[4] == Effect::BossHeal && o[5] == Effect::BossHp && o[6]
        == Effect::StaminaHalf && o[7] == Effect::StaminaNone && o[8] == Effect::Slow && o[9]
        == Effect::Fast && o[10] == Effect::CameraSway && o[11] == Effect::FlaskLock && o[12]
        == Effect::RuneTrade);
}

// ---------------------------------------------------------------------------
// Refusals
// ---------------------------------------------------------------------------

/// Why an effect was not applied.
#[derive(Clone, Copy, Debug, PartialEq, Eq, Structural)]
pub enum Rejected {
    /// There is no such effect: the file of rewards was edited by hand.
    Unknown,
    NoPlayer,
    /// The effect is on a boss and there is none on the screen.
    NoBoss,
    /// The game has not loaded its tables yet.
    NoParams,
}

impl Rejected {
    /// The English text for the refusal.
    pub open spec fn text(self) -> Seq<char> {
        match self {
            Rejected::Unknown => "No such effect in the list."@,
            Rejected::NoPlayer => "The player is not in the world yet."@,
            Rejected::NoBoss => "No boss on screen - no target."@,
            Rejected::NoParams => "The game data is still loading.##effects"@,
        }
    }

    /// Why it did not work, for people.
    pub fn reason(&self, locales: &Locales) -> (r: String)
        ensures
            r@ == translated(*locales, self.text()),
    {
        match self {
            Rejected::Unknown => t(locales, "No such effect in the list."),
            Rejected::NoPlayer => t(locales, "The player is not in the world yet."),
            Rejected::NoBoss => t(locales, "No boss on screen - no target."),
            Rejected::NoParams => t(locales, "The game data is still loading.##effects"),
        }
    }
}

} // verus!
