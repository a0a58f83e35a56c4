//! What becomes of purchases once they are carried out, given up or tried from the settings
//! window.

use vstd::prelude::*;
use crate::damage::World;
use crate::effect_state::Game;
use crate::effects::Rejected;
use crate::i18n::{t, translated, Locales};
use crate::scalar::Scalar;
use crate::text::{append, append_text, chars_of, decimal, decimal_of, string_of, texts};
use crate::till::{
    card_timing, dropping, fulfilling, logging, noticing, refunding, showing, timing,
    Action, Card, PurchaseEvent, Till, TillText,
};
use crate::timed_effects::{
    active_states, applied, doomed_ids, ran, CameraWrite, EffectState, Force, RuneSums,
};

verus! {

/// Which reward and which purchase of it.
pub type Ids = (String, String);

pub open spec fn id_texts(v: Seq<Ids>) -> Seq<(Seq<char>, Seq<char>)> {
    v.map_values(|p: Ids| (p.0@, p.1@))
}

/// Giving back the points of several purchases, in their order.
pub open spec fn refunding_all(tt: TillText, ids: Seq<(Seq<char>, Seq<char>)>) -> TillText
    decreases ids.len(),
{
    if ids.len() == 0 {
        tt
    } else {
        refunding(refunding_all(tt, ids.drop_last()), ids.last().0, ids.last().1)
    }
}

/// Marking several purchases as done, in their order.
pub open spec fn fulfilling_all(tt: TillText, ids: Seq<(Seq<char>, Seq<char>)>) -> TillText
    decreases ids.len(),
{
    if ids.len() == 0 {
        tt
    } else {
        fulfilling(fulfilling_all(tt, ids.drop_last()), ids.last().0, ids.last().1)
    }
}

/// Gives back the points of purchases that nobody will carry out any more: what was left in
/// the queue, and enemies who have not come yet.
pub fn refund_all(till: &mut Till, left: &Vec<Ids>)
    ensures
        final(till).text() == refunding_all(old(till).text(), id_texts(left@)),
{
    let ghost all = id_texts(left@);
    assert(all.take(0) == Seq::<(Seq<char>, Seq<char>)>::empty());
    for i in 0..left.len()
        invariant
            all == id_texts(left@),
            till.text() == refunding_all(old(till).text(), all.take(i as int)),
    {
        assert(all.take(i + 1).drop_last() == all.take(i as int));
        assert(all.take(i + 1).last() == (left@[i as int].0@, left@[i as int].1@));
        till.refund(&left[i].0, &left[i].1);
    }
    assert(all.take(all.len() as int) == all);
}

/// Marks purchases as done: whoever does not stay "unfulfilled" is not paid back later.
pub fn fulfill_all(till: &mut Till, done: &Vec<Ids>)
    ensures
        final(till).text() == fulfilling_all(old(till).text(), id_texts(done@)),
{
    let ghost all = id_texts(done@);
    assert(all.take(0) == Seq::<(Seq<char>, Seq<char>)>::empty());
    for i in 0..done.len()
        invariant
            all == id_texts(done@),
            till.text() == fulfilling_all(old(till).text(), all.take(i as int)),
    {
        assert(all.take(i + 1).drop_last() == all.take(i as int));
        assert(all.take(i + 1).last() == (done@[i as int].0@, done@[i as int].1@));
        till.fulfill(&done[i].0, &done[i].1);
    }
    assert(all.take(all.len() as int) == all);
}

/// A frame of the spawned enemies: who did not come is paid back, who came is done, and what
/// there is to say is said.
pub fn after_spawn_tick(
    till: &mut Till,
    refunds: &Vec<Ids>,
    done: &Vec<Ids>,
    note: Option<String>,
)
    ensures
        ({
            let tt: TillText = fulfilling_all(
                refunding_all(old(till).text(), id_texts(refunds@)),
                id_texts(done@),
            );
            final(till).text() == match note {
                Some(n) => noticing(tt, n@),
                None => tt,
            }
        }),
{
    refund_all(till, refunds);
    fulfill_all(till, done);
    match note {
        Some(n) => {
            till.notice(n);
        },
        None => {},
    }
}

// ---------------------------------------------------------------------------
// Carrying out
// ---------------------------------------------------------------------------

/// The till after something was refused for a reason.
pub open spec fn refusing(
    tt: TillText,
    why: Seq<char>,
    reward_id: Seq<char>,
    redemption_id: Seq<char>,
) -> TillText {
    refunding(noticing(tt, why), reward_id, redemption_id)
}

/// Whether the streamer lets an enemy in right now: not into a fight with a boss, unless
/// they want it.
pub open spec fn spawn_is_allowed(spawn_in_boss: bool, boss_fight: bool) -> bool {
    spawn_in_boss || !boss_fight
}

/// Whether the streamer lets an enemy in right now.
pub fn spawn_allowed(spawn_in_boss: bool, boss_fight: bool) -> (r: bool)
    ensures
        r == spawn_is_allowed(spawn_in_boss, boss_fight),
{
    spawn_in_boss || !boss_fight
}

/// An enemy was asked for: refused for a reason, or on his way.
pub open spec fn after_spawn_outcome(
    tt: TillText,
    why: Option<Seq<char>>,
    reward_id: Seq<char>,
    redemption_id: Seq<char>,
) -> TillText {
    match why {
        Some(why) => refusing(tt, why, reward_id, redemption_id),
        None => TillText { notice: None, ..tt },
    }
}

/// An enemy was asked for. If he was refused the reason is said and the points are given
/// back; if he is on his way an earlier reason is no longer said. That he came is marked
/// later, when he is really there.
pub fn after_spawn(
    till: &mut Till,
    outcome: Result<(), String>,
    reward_id: &str,
    redemption_id: &str,
)
    ensures
        final(till).text() == after_spawn_outcome(
            old(till).text(),
            match outcome {
                Err(why) => Some(why@),
                Ok(_) => None,
            },
            reward_id@,
            redemption_id@,
        ),
{
    match outcome {
        Err(why) => {
            till.notice(why);
            till.refund(reward_id, redemption_id);
        },
        Ok(_) => {
            till.clear_notice();
        },
    }
}

/// An effect was asked for: done at once and wholly, or refused.
pub open spec fn after_effect(
    tt: TillText,
    outcome: Result<(), Rejected>,
    reward_id: Seq<char>,
    redemption_id: Seq<char>,
    l: Locales,
) -> TillText {
    match outcome {
        Err(why) => refusing(tt, translated(l, why.text()), reward_id, redemption_id),
        Ok(_) => fulfilling(TillText { notice: None, ..tt }, reward_id, redemption_id),
    }
}

/// What an effect's outcome does to the till.
pub fn settle_effect(
    till: &mut Till,
    outcome: Result<(), Rejected>,
    reward_id: &str,
    redemption_id: &str,
    locales: &Locales,
)
    ensures
        final(till).text() == after_effect(
            old(till).text(),
            outcome,
            reward_id@,
            redemption_id@,
            *locales,
        ),
{
    match outcome {
        Err(why) => {
            till.notice(why.reason(locales));
            till.refund(reward_id, redemption_id);
        },
        Ok(_) => {
            till.clear_notice();
            till.fulfill(reward_id, redemption_id);
        },
    }
}

/// Carries an effect out, and settles the purchase by what came of it. Another action is no
/// matter of this function. Returns what came of it.
pub fn try_effect(
    till: &mut Till,
    effects: &mut EffectState,
    action: &Action,
    reward_id: &str,
    redemption_id: &str,
    now: u64,
    game: &mut Game,
    camera: &Option<Vec<(u32, Scalar)>>,
    world: &World,
    locales: &Locales,
) -> (r: Option<Result<(), Rejected>>)
    ensures
        match *action {
            Action::Effect { key, secs, .. } => {
                &&& r is Some
                &&& applied(
                    *old(effects),
                    *final(effects),
                    old(game).state(),
                    final(game).state(),
                    key@,
                    secs,
                    redemption_id@,
                    now,
                    *camera,
                    *world,
                    *locales,
                    r.unwrap(),
                )
                &&& final(till).text() == after_effect(
                    old(till).text(),
                    r.unwrap(),
                    reward_id@,
                    redemption_id@,
                    *locales,
                )
            },
            _ => {
                &&& r is None
                &&& *final(till) == *old(till)
                &&& *final(effects) == *old(effects)
                &&& *final(game) == *old(game)
            },
        },
{
    match action {
        Action::Effect { key, secs, .. } => {
            let outcome: Result<(), Rejected> = effects.apply(
                key,
                *secs,
                redemption_id,
                now,
                game,
                camera,
                world,
                locales,
            );
            settle_effect(till, outcome, reward_id, redemption_id, locales);
            Some(outcome)
        },
        _ => None,
    }
}

/// Without the cards of purchases, if there are any.
pub open spec fn without_cards(tt: TillText, ids: Seq<Seq<char>>) -> TillText {
    if ids.len() == 0 {
        tt
    } else {
        dropping(tt, ids)
    }
}

/// The mod is switched off, and nobody will look after purchases any more: those that are
/// left are paid back, all effects are undone and their cards go.
pub fn switch_off(
    till: &mut Till,
    effects: &mut EffectState,
    left: &Vec<Ids>,
    now: u64,
    sums: &RuneSums,
    game: &mut Game,
    locales: &Locales,
) -> (camera: Option<CameraWrite>)
    ensures
        ran(
            *old(effects),
            *final(effects),
            old(game).state(),
            final(game).state(),
            now,
            Force::All,
            *sums,
            *locales,
            camera,
        ),
        final(till).text() == without_cards(
            refunding_all(old(till).text(), id_texts(left@)),
            doomed_ids(active_states(old(effects).active@), Force::All),
        ),
{
    refund_all(till, left);
    let (cancelled, camera) = effects.revert_all(now, sums, game, locales);
    assert(texts(cancelled@).len() == cancelled@.len());
    till.drop_purchases(&cancelled);
    camera
}

/// The player has died: the effects end, except those that survive it, and their cards go.
pub fn end_effects_on_death(
    till: &mut Till,
    effects: &mut EffectState,
    now: u64,
    sums: &RuneSums,
    game: &mut Game,
    locales: &Locales,
) -> (camera: Option<CameraWrite>)
    ensures
        ran(
            *old(effects),
            *final(effects),
            old(game).state(),
            final(game).state(),
            now,
            Force::ExceptSurvivors,
            *sums,
            *locales,
            camera,
        ),
        final(till).text() == without_cards(
            old(till).text(),
            doomed_ids(active_states(old(effects).active@), Force::ExceptSurvivors),
        ),
{
    let (cancelled, camera) = effects.revert_on_death(now, sums, game, locales);
    assert(texts(cancelled@).len() == cancelled@.len());
    till.drop_purchases(&cancelled);
    camera
}

// ---------------------------------------------------------------------------
// Out of the queue
// ---------------------------------------------------------------------------

/// What to do with a purchase whose turn has come.
#[derive(Clone, Copy, Debug, PartialEq, Eq, Structural)]
pub enum Step {
    /// Ask the game for an enemy.
    Spawn,
    /// Apply an effect.
    Effect,
    /// A key: pressed already, so the purchase is done.
    Done,
}

pub open spec fn step(a: Action) -> Step {
    match a {
        Action::SpawnEnemy { .. } => Step::Spawn,
        Action::Effect { .. } => Step::Effect,
        _ => Step::Done,
    }
}

/// The turn of a purchase has come: a key is done, the rest has to be carried out first.
pub fn on_turn(till: &mut Till, action: &Action, reward_id: &str, redemption_id: &str) -> (r: Step)
    ensures
        r == step(*action),
        final(till).text() == if r == Step::Done {
            fulfilling(old(till).text(), reward_id@, redemption_id@)
        } else {
            old(till).text()
        },
{
    match action {
        Action::SpawnEnemy { .. } => Step::Spawn,
        Action::Effect { .. } => Step::Effect,
        _ => {
            till.fulfill(reward_id, redemption_id);
            Step::Done
        },
    }
}

// ---------------------------------------------------------------------------
// From the settings window
// ---------------------------------------------------------------------------

/// A count with its caption: "effects cleared: 3".
pub open spec fn count_line(l: Locales, caption: Seq<char>, n: nat) -> Seq<char> {
    translated(l, caption) + ": "@ + decimal(n)
}

fn count_text(l: &Locales, caption: &str, n: usize) -> (r: String)
    ensures
        r@ == count_line(*l, caption@, n as nat),
{
    let mut v: Vec<char> = chars_of(&t(l, caption));
    append_text(&mut v, ": ");
    append(&mut v, &decimal_of(n as u64));
    string_of(&v)
}

/// Undoes all effects by hand: their cards go and their number is said.
pub fn clear_effects(
    till: &mut Till,
    effects: &mut EffectState,
    now: u64,
    sums: &RuneSums,
    game: &mut Game,
    locales: &Locales,
) -> (camera: Option<CameraWrite>)
    ensures
        ran(
            *old(effects),
            *final(effects),
            old(game).state(),
            final(game).state(),
            now,
            Force::All,
            *sums,
            *locales,
            camera,
        ),
        ({
            let ids: Seq<Seq<char>> = doomed_ids(active_states(old(effects).active@), Force::All);
            final(till).text() == noticing(
                without_cards(old(till).text(), ids),
                count_line(*locales, "effects cleared"@, ids.len()),
            )
        }),
{
    let (cancelled, camera) = effects.revert_all(now, sums, game, locales);
    assert(texts(cancelled@).len() == cancelled@.len());
    till.drop_purchases(&cancelled);
    till.notice(count_text(locales, "effects cleared", cancelled.len()));
    camera
}

/// All spawned enemies were removed by hand: their number is said.
pub fn spawns_cleared(till: &mut Till, n: usize, locales: &Locales)
    ensures
        final(till).text() == noticing(
            old(till).text(),
            count_line(*locales, "spawned enemies removed"@, n as nat),
        ),
{
    till.notice(count_text(locales, "spawned enemies removed", n));
}

/// The id of a purchase that is only a trial.
pub open spec fn trial_id(n: u32) -> Seq<char> {
    "test#"@ + decimal(n as nat)
}

/// The card of a trial.
pub open spec fn trial_card(caption: Seq<char>, cost: u32, a: Action, n: u32, now: u64, l: Locales) -> Card {
    let (life, countdown_to) = timing(Some(a), now);
    Card {
        viewer: translated(l, "Test"@),
        label: caption,
        cost,
        at: now,
        countdown_to,
        life,
        redemption_id: trial_id(n),
    }
}

/// Tries a reward: the card is that of a real purchase. `tried` counts the trials. Returns
/// the id of the trial, by which its card is found again when the effect is undone.
pub fn test_reward(
    till: &mut Till,
    tried: &mut u32,
    caption: &str,
    cost: u32,
    action: &Action,
    now: u64,
    locales: &Locales,
) -> (r: String)
    requires
        *old(tried) < u32::MAX,
    ensures
        *final(tried) == *old(tried) + 1,
        r@ == trial_id(*final(tried)),
        final(till).text() == showing(
            old(till).text(),
            trial_card(caption@, cost, *action, *final(tried), now, *locales),
        ),
{
    *tried = *tried + 1;
    let mut v: Vec<char> = chars_of("test#");
    append(&mut v, &decimal_of(*tried as u64));
    let id: String = string_of(&v);
    let (life, countdown_to) = card_timing(Some(action), now);
    till.push_purchase_at(
        t(locales, "Test"),
        caption.to_string(),
        cost,
        countdown_to,
        life,
        id.clone(),
        now,
    );
    id
}

/// The label of a card that only checks how cards look.
pub open spec fn check_label(n: u32, l: Locales) -> Seq<char> {
    translated(l, "Display check"@) + " #"@ + decimal(n as nat)
}

/// The card that only checks how cards look.
pub open spec fn check_card(n: u32, now: u64, l: Locales) -> Card {
    Card {
        viewer: translated(l, "Test"@),
        label: check_label(n, l),
        cost: 100,
        at: now,
        countdown_to: None,
        life: None,
        redemption_id: Seq::empty(),
    }
}

/// The card to look at while its place is being chosen.
pub open spec fn sample(now: u64, l: Locales) -> Card {
    Card {
        viewer: translated(l, "Viewer"@),
        label: translated(l, "Channel point reward"@),
        cost: 100,
        at: (now - 400_000_000) as u64,
        countdown_to: Some((now + 3_000_000_000) as u64),
        life: None,
        redemption_id: Seq::empty(),
    }
}

/// Shows a card to check how cards look, and lists it. The number tells it from the one
/// before.
pub fn test_purchase(till: &mut Till, tried: &mut u32, now: u64, locales: &Locales)
    requires
        *old(tried) < u32::MAX,
    ensures
        *final(tried) == *old(tried) + 1,
        final(till).text() == showing(
            logging(
                old(till).text(),
                translated(*locales, "Test"@),
                check_label(*final(tried), *locales),
                100,
            ),
            check_card(*final(tried), now, *locales),
        ),
{
    *tried = *tried + 1;
    let mut v: Vec<char> = chars_of(&t(locales, "Display check"));
    append_text(&mut v, " #");
    append(&mut v, &decimal_of(*tried as u64));
    let viewer: String = t(locales, "Test");
    let label: String = string_of(&v);
    till.log_purchase(&viewer, &label, 100);
    till.push_purchase(viewer, label, 100, now);
}

/// A card to look at while its place is being chosen: a young one, with a countdown, because
/// that is the highest.
pub fn sample_card(now: u64, locales: &Locales) -> (r: PurchaseEvent)
    requires
        400_000_000 <= now <= u64::MAX - 3_000_000_000,
    ensures
        r.card() == sample(now, *locales),
{
    let r: PurchaseEvent = PurchaseEvent {
        viewer: t(locales, "Viewer"),
        label: t(locales, "Channel point reward"),
        cost: 100,
        at: now - 400_000_000,
        countdown_to: Some(now + 3_000_000_000),
        life: None,
        redemption_id: String::new(),
    };
    assert(r.redemption_id@ == Seq::<char>::empty());
    r
}

// ---------------------------------------------------------------------------
// Laws
// ---------------------------------------------------------------------------

/// A trial never reaches Twitch: it belongs to no reward, so nothing is paid back and nothing
/// is marked as done.
pub proof fn a_trial_never_reaches_twitch(
    tt: TillText,
    outcome: Result<(), Rejected>,
    n: u32,
    l: Locales,
)
    ensures
        after_effect(tt, outcome, Seq::empty(), trial_id(n), l).requests == tt.requests,
        after_effect(tt, outcome, Seq::empty(), trial_id(n), l).cards == tt.cards,
{
}

/// An effect that was refused costs nothing, one that worked is marked as done: a purchase
/// never ends without an answer to Twitch.
pub proof fn every_effect_is_answered(
    tt: TillText,
    outcome: Result<(), Rejected>,
    reward_id: Seq<char>,
    redemption_id: Seq<char>,
    l: Locales,
)
    requires
        reward_id.len() > 0,
        redemption_id.len() > 0,
    ensures
        after_effect(tt, outcome, reward_id, redemption_id, l).requests == tt.requests.push(
            if outcome is Ok {
                crate::till::Request::Fulfill(reward_id, redemption_id)
            } else {
                crate::till::Request::Refund(reward_id, redemption_id)
            },
        ),
{
}

} // verus!
