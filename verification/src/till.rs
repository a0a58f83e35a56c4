//! Purchases with channel points: the cards that show them, the queue of commands for
//! Twitch, the cooldowns of rewards, and what becomes of a purchase.

use std::collections::{HashMap, VecDeque};

use vstd::prelude::*;
use vstd::std_specs::iter::IteratorSpec;
use crate::effects::{default_secs, effect_named, effect_text, harmful, MAX_SECS};
use crate::i18n::{t, translated, Locales};
use crate::text::{
    append, append_text, chars_of, decimal, decimal_of, has_text, same, string_of, texts,
};

verus! {

/// How many purchases are kept, on the screen and in the list of the settings window.
pub const PURCHASE_HISTORY: usize = 30;

/// For how long after a purchase that gets in the way a death is still the viewer's, in
/// nanoseconds.
pub const VIEWER_BLAME_WINDOW: u64 = 15_000_000_000;

/// What a reward does.
pub enum Action {
    /// Presses a key, by its name.
    Press { key: String },
    Hold { key: String, duration_ms: u32 },
    SpawnEnemy { key: String, delay_secs: u16, cooldown_secs: u16 },
    Effect { key: String, secs: u16, in_boss: bool, cooldown_secs: u16 },
}

/// How long a card stays up: so many seconds, and beyond them the time that every card
/// stays up if `and_shared`.
#[derive(Clone, Copy, Debug, PartialEq, Eq, Structural)]
pub struct CardLife {
    pub secs: u16,
    pub and_shared: bool,
}

/// A card that shows a purchase.
pub struct PurchaseEvent {
    pub viewer: String,
    pub label: String,
    pub cost: u32,
    pub at: u64,
    /// The moment to which the card counts down.
    pub countdown_to: Option<u64>,
    /// How long it stays up; `None` for as long as every card.
    pub life: Option<CardLife>,
    pub redemption_id: String,
}

/// A card by its texts.
pub struct Card {
    pub viewer: Seq<char>,
    pub label: Seq<char>,
    pub cost: u32,
    pub at: u64,
    pub countdown_to: Option<u64>,
    pub life: Option<CardLife>,
    pub redemption_id: Seq<char>,
}

/// Something to be asked of Twitch.
pub enum Command {
    /// Give the points of a purchase back.
    Refund { reward_id: String, redemption_id: String },
    /// Mark a purchase as done.
    Fulfill { reward_id: String, redemption_id: String },
    /// Show or hide a reward.
    EnableReward { reward_id: String, on: bool },
    /// Give back the points of all purchases that were slept through, but for `skip`.
    SweepUnfulfilled { rewards: Vec<String>, skip: Vec<String> },
    CreateReward { local_id: u32, title: String, cost: u32, mark: u64 },
    UpdateReward { local_id: u32, reward_id: String, title: String, cost: u32, mark: u64 },
    DeleteReward { reward_id: String },
}

/// Something to be asked of Twitch, by its texts.
pub enum Request {
    Refund(Seq<char>, Seq<char>),
    Fulfill(Seq<char>, Seq<char>),
    EnableReward(Seq<char>, bool),
    SweepUnfulfilled(Seq<Seq<char>>, Seq<Seq<char>>),
    CreateReward(u32, Seq<char>, u32, u64),
    UpdateReward(u32, Seq<char>, Seq<char>, u32, u64),
    DeleteReward(Seq<char>),
}

impl PurchaseEvent {
    pub open spec fn card(self) -> Card {
        Card {
            viewer: self.viewer@,
            label: self.label@,
            cost: self.cost,
            at: self.at,
            countdown_to: self.countdown_to,
            life: self.life,
            redemption_id: self.redemption_id@,
        }
    }

    fn copy(&self) -> (r: PurchaseEvent)
        ensures
            r.card() == self.card(),
    {
        PurchaseEvent {
            viewer: self.viewer.clone(),
            label: self.label.clone(),
            cost: self.cost,
            at: self.at,
            countdown_to: self.countdown_to,
            life: self.life,
            redemption_id: self.redemption_id.clone(),
        }
    }
}

impl Command {
    pub open spec fn request(self) -> Request {
        match self {
            Command::Refund { reward_id, redemption_id } => Request::Refund(
                reward_id@,
                redemption_id@,
            ),
            Command::Fulfill { reward_id, redemption_id } => Request::Fulfill(
                reward_id@,
                redemption_id@,
            ),
            Command::EnableReward { reward_id, on } => Request::EnableReward(reward_id@, on),
            Command::SweepUnfulfilled { rewards, skip } => Request::SweepUnfulfilled(
                texts(rewards@),
                texts(skip@),
            ),
            Command::CreateReward { local_id, title, cost, mark } => Request::CreateReward(
                local_id,
                title@,
                cost,
                mark,
            ),
            Command::UpdateReward { local_id, reward_id, title, cost, mark } => Request::UpdateReward(
                local_id,
                reward_id@,
                title@,
                cost,
                mark,
            ),
            Command::DeleteReward { reward_id } => Request::DeleteReward(reward_id@),
        }
    }
}

pub open spec fn cards(v: Seq<PurchaseEvent>) -> Seq<Card> {
    v.map_values(|p: PurchaseEvent| p.card())
}

pub open spec fn requests(v: Seq<Command>) -> Seq<Request> {
    v.map_values(|c: Command| c.request())
}

/// The rewards on cooldown by their numbers: until when, and the text of the id on Twitch.
pub open spec fn coolings(m: Map<u32, (u64, String)>) -> Map<u32, (u64, Seq<char>)> {
    m.map_values(|c: (u64, String)| (c.0, c.1@))
}

/// All about purchases.
pub struct Till {
    /// The cards on the screen, the newest last.
    pub purchases: Vec<PurchaseEvent>,
    /// The purchases that went through, the newest last.
    pub purchase_log: VecDeque<String>,
    /// The cards have changed since they were last published.
    pub purchases_dirty: bool,
    /// Rewards on cooldown by their numbers: until when, and the id on Twitch.
    pub reward_cooldown: HashMap<u32, (u64, String)>,
    /// What Twitch is to be asked, the oldest first.
    pub commands: VecDeque<Command>,
    /// What to say about rewards in the settings window.
    pub reward_notice: Option<String>,
    /// Twitch is switched on in the settings.
    pub twitch_enabled: bool,
}

/// All about purchases, by its texts.
pub struct TillText {
    pub cards: Seq<Card>,
    pub log: Seq<Seq<char>>,
    pub dirty: bool,
    pub cooling: Map<u32, (u64, Seq<char>)>,
    pub requests: Seq<Request>,
    pub notice: Option<Seq<char>>,
    pub enabled: bool,
}

impl Till {
    pub open spec fn text(self) -> TillText {
        TillText {
            cards: cards(self.purchases@),
            log: texts(self.purchase_log@),
            dirty: self.purchases_dirty,
            cooling: coolings(self.reward_cooldown@),
            requests: requests(self.commands@),
            notice: match self.reward_notice {
                Some(s) => Some(s@),
                None => None,
            },
            enabled: self.twitch_enabled,
        }
    }
}

// ---------------------------------------------------------------------------
// Cards
// ---------------------------------------------------------------------------

/// The cards without those of a label.
pub open spec fn without_label(cs: Seq<Card>, label: Seq<char>) -> Seq<Card>
    decreases cs.len(),
{
    if cs.len() == 0 {
        Seq::empty()
    } else if cs.last().label == label {
        without_label(cs.drop_last(), label)
    } else {
        without_label(cs.drop_last(), label).push(cs.last())
    }
}

/// The cards without those of some purchases.
pub open spec fn without_ids(cs: Seq<Card>, ids: Seq<Seq<char>>) -> Seq<Card>
    decreases cs.len(),
{
    if cs.len() == 0 {
        Seq::empty()
    } else if ids.contains(cs.last().redemption_id) {
        without_ids(cs.drop_last(), ids)
    } else {
        without_ids(cs.drop_last(), ids).push(cs.last())
    }
}

/// The cards with one more: one of the same label is replaced, and beyond `cap` the oldest
/// goes.
pub open spec fn with_card(cs: Seq<Card>, cap: int, c: Card) -> Seq<Card> {
    let all: Seq<Card> = without_label(cs, c.label).push(c);
    if all.len() > cap {
        all.skip(1)
    } else {
        all
    }
}

/// Puts a purchase on the screen. A card of the same reward is replaced by a fresh one at
/// the end, so that equal rewards do not pile up.
pub fn upsert_purchase(purchases: &mut Vec<PurchaseEvent>, cap: usize, event: PurchaseEvent)
    ensures
        cards(final(purchases)@) == with_card(cards(old(purchases)@), cap as int, event.card()),
{
    let ghost cs = cards(purchases@);
    let label: Vec<char> = chars_of(&event.label);
    let mut kept: Vec<PurchaseEvent> = Vec::new();
    assert(cards(kept@) == without_label(cs.take(0), event.label@));
    for i in 0..purchases.len()
        invariant
            cs == cards(purchases@),
            label@ == event.label@,
            cards(kept@) == without_label(cs.take(i as int), event.label@),
    {
        let ghost before = kept@;
        proof {
            assert(cs.take(i + 1).drop_last() == cs.take(i as int));
            assert(cs.take(i + 1).last() == purchases@[i as int].card());
        }
        if !same(&label, &purchases[i].label) {
            let p: PurchaseEvent = purchases[i].copy();
            let ghost c = p.card();
            kept.push(p);
            assert(cards(kept@) == cards(before).push(c));
        }
    }
    assert(cs.take(cs.len() as int) == cs);
    let ghost before = kept@;
    let ghost c = event.card();
    kept.push(event);
    assert(cards(kept@) == cards(before).push(c));
    if kept.len() > cap {
        let ghost all = kept@;
        kept.remove(0);
        assert(cards(kept@) == cards(all).skip(1));
    }
    *purchases = kept;
}

/// Every label is shown on one card at most.
pub open spec fn labels_differ(cs: Seq<Card>) -> bool {
    forall|i: int, j: int|
        0 <= i < j < cs.len() ==> (#[trigger] cs[i]).label != (#[trigger] cs[j]).label
}

proof fn lemma_without_label(cs: Seq<Card>, label: Seq<char>)
    requires
        labels_differ(cs),
    ensures
        labels_differ(without_label(cs, label)),
        without_label(cs, label).len() <= cs.len(),
        forall|i: int|
            0 <= i < without_label(cs, label).len() ==> (#[trigger] without_label(
                cs,
                label,
            )[i]).label != label,
        forall|i: int|
            0 <= i < without_label(cs, label).len() ==> cs.contains(
                #[trigger] without_label(cs, label)[i],
            ),
    decreases cs.len(),
{
    if cs.len() > 0 {
        let front = cs.drop_last();
        assert(labels_differ(front)) by {
            assert forall|i: int, j: int| 0 <= i < j < front.len() implies (
            #[trigger] front[i]).label != (#[trigger] front[j]).label by {
                assert(front[i] == cs[i] && front[j] == cs[j]);
            }
        }
        lemma_without_label(front, label);
        let b = without_label(front, label);
        let out = without_label(cs, label);
        assert forall|i: int| 0 <= i < out.len() implies cs.contains(#[trigger] out[i]) by {
            if i < b.len() {
                assert(out[i] == b[i]);
                let k = choose|k: int| 0 <= k < front.len() && front[k] == b[i];
                assert(cs[k] == out[i]);
            } else {
                assert(cs[cs.len() - 1] == out[i]);
            }
        }
        assert forall|i: int, j: int| 0 <= i < j < out.len() implies (#[trigger] out[i]).label != (
        #[trigger] out[j]).label by {
            assert(out[i] == b[i]);
            if j < b.len() {
                assert(out[j] == b[j]);
            } else {
                let k = choose|k: int| 0 <= k < front.len() && front[k] == b[i];
                assert(cs[k].label != cs[cs.len() - 1].label);
            }
        }
        assert forall|i: int| 0 <= i < out.len() implies (#[trigger] out[i]).label != label by {
            if i < b.len() {
                assert(out[i] == b[i]);
            }
        }
    }
}

/// Equal rewards share one card, the newest purchase is the last card with its own data,
/// and there are never more cards than allowed.
pub proof fn equal_rewards_share_one_card(cs: Seq<Card>, cap: int, c: Card)
    requires
        labels_differ(cs),
        0 < cap,
        cs.len() <= cap,
    ensures
        labels_differ(with_card(cs, cap, c)),
        0 < with_card(cs, cap, c).len() <= cap,
        with_card(cs, cap, c).last() == c,
{
    lemma_without_label(cs, c.label);
    let kept = without_label(cs, c.label);
    let all = kept.push(c);
    let out = with_card(cs, cap, c);
    assert forall|i: int, j: int| 0 <= i < j < all.len() implies (#[trigger] all[i]).label != (
    #[trigger] all[j]).label by {
        assert(all[i] == kept[i]);
        if j < kept.len() {
            assert(all[j] == kept[j]);
        }
    }
    if all.len() > cap {
        assert forall|i: int, j: int| 0 <= i < j < out.len() implies (#[trigger] out[i]).label != (
        #[trigger] out[j]).label by {
            assert(out[i] == all[i + 1] && out[j] == all[j + 1]);
        }
    }
}

/// For how many seconds an effect runs: a timed one for as long as was asked or else as the
/// table says, but never beyond the limit; one that works at once, or that is unknown, not at
/// all.
pub open spec fn effect_secs(key: Seq<char>, secs: u16) -> u16 {
    let table: u16 = match effect_named(key) {
        Some(e) => effect_text(e).default_secs,
        None => 0,
    };
    if table == 0 {
        0
    } else if secs == 0 {
        table
    } else if secs <= MAX_SECS {
        secs
    } else {
        MAX_SECS
    }
}

/// How long a card stays up and to which moment it counts down: a timed effect for as long
/// as it runs, a delayed enemy until it appears and the shared time beyond. Anything else
/// has neither.
pub open spec fn timing(action: Option<Action>, now: u64) -> (Option<CardLife>, Option<u64>) {
    match action {
        Some(Action::Effect { key, secs, .. }) => {
            let s: u16 = effect_secs(key@, secs);
            if s == 0 {
                (None, None)
            } else {
                (Some(CardLife { secs: s, and_shared: false }), Some(moment_after(now, s)))
            }
        },
        Some(Action::SpawnEnemy { delay_secs, .. }) => if delay_secs > 0 {
            (
                Some(CardLife { secs: delay_secs, and_shared: true }),
                Some(moment_after(now, delay_secs)),
            )
        } else {
            (None, None)
        },
        _ => (None, None),
    }
}

/// A moment so many seconds later, or the end of time.
pub open spec fn moment_after(now: u64, secs: u16) -> u64 {
    if now + secs * 1_000_000_000 > u64::MAX {
        u64::MAX
    } else {
        (now + secs * 1_000_000_000) as u64
    }
}

fn after(now: u64, secs: u16) -> (r: u64)
    ensures
        r == moment_after(now, secs),
{
    now.saturating_add(secs as u64 * 1_000_000_000)
}

/// How long a card stays up and to which moment it counts down.
pub fn card_timing(action: Option<&Action>, now: u64) -> (r: (Option<CardLife>, Option<u64>))
    ensures
        r == timing(
            match action {
                Some(a) => Some(*a),
                None => None,
            },
            now,
        ),
{
    match action {
        Some(Action::Effect { key, secs, .. }) => {
            let table: u16 = default_secs(key);
            let s: u16 = if table == 0 {
                0
            } else if *secs == 0 {
                table
            } else if *secs <= MAX_SECS {
                *secs
            } else {
                MAX_SECS
            };
            if s == 0 {
                (None, None)
            } else {
                (Some(CardLife { secs: s, and_shared: false }), Some(after(now, s)))
            }
        },
        Some(Action::SpawnEnemy { delay_secs, .. }) => if *delay_secs > 0 {
            (
                Some(CardLife { secs: *delay_secs, and_shared: true }),
                Some(after(now, *delay_secs)),
            )
        } else {
            (None, None)
        },
        _ => (None, None),
    }
}

/// A card with a countdown never goes before its countdown has ended.
pub proof fn a_card_outlives_its_countdown(action: Option<Action>, now: u64)
    ensures
        match timing(action, now) {
            (life, Some(to)) => life is Some && moment_after(now, life.unwrap().secs) >= to,
            (life, None) => life is None,
        },
{
}

/// The card of an effect that works at once has no time of its own, whatever was asked.
pub proof fn only_timed_effects_have_a_countdown(
    key: String,
    secs: u16,
    in_boss: bool,
    cooldown_secs: u16,
    now: u64,
)
    ensures
        (timing(Some(Action::Effect { key, secs, in_boss, cooldown_secs }), now) == (
            None::<CardLife>,
            None::<u64>,
        )) <==> (effect_named(key@) is None || effect_text(
            effect_named(key@).unwrap(),
        ).default_secs == 0),
{
}

/// Whether a purchase gets in the way of playing: a key always, an effect if it is harmful,
/// an enemy not, because there the enemy itself tells.
pub open spec fn meddles(a: Action) -> bool {
    match a {
        Action::Press { .. } | Action::Hold { .. } => true,
        Action::Effect { key, .. } => match effect_named(key@) {
            Some(e) => effect_text(e).harmful,
            None => false,
        },
        Action::SpawnEnemy { .. } => false,
    }
}

pub fn meddles_with_play(action: &Action) -> (r: bool)
    ensures
        r == meddles(*action),
{
    match action {
        Action::Press { .. } | Action::Hold { .. } => true,
        Action::Effect { key, .. } => harmful(key),
        Action::SpawnEnemy { .. } => false,
    }
}

/// Whether a viewer is to blame for a death: an enemy that was sent stands in the world, or
/// somebody got in the way a moment ago.
pub open spec fn blames_viewers(any_alive: bool, meddled_at: Option<u64>, now: u64) -> bool {
    any_alive || (meddled_at is Some && now < meddled_at.unwrap() + VIEWER_BLAME_WINDOW)
}

/// Whether a viewer is to blame for a death.
pub fn viewer_to_blame(any_alive: bool, meddled_at: Option<u64>, now: u64) -> (r: bool)
    ensures
        r == blames_viewers(any_alive, meddled_at, now),
{
    let recent: bool = match meddled_at {
        Some(at) => now < at || now - at < VIEWER_BLAME_WINDOW,
        None => false,
    };
    any_alive || recent
}

// ---------------------------------------------------------------------------
// Cooldowns
// ---------------------------------------------------------------------------

/// The cooldown of a reward is over.
pub open spec fn is_over(m: Map<u32, (u64, Seq<char>)>, id: u32, now: u64) -> bool {
    m.contains_key(id) && now >= m[id].0
}

/// The cooldowns that go on.
pub open spec fn still_cooling(m: Map<u32, (u64, Seq<char>)>, now: u64) -> Map<
    u32,
    (u64, Seq<char>),
> {
    Map::new(|id: u32| m.contains_key(id) && now < m[id].0, |id: u32| m[id])
}

/// `over` are the rewards whose cooldown is over, each once and in any order.
pub open spec fn are_over(
    m: Map<u32, (u64, Seq<char>)>,
    now: u64,
    over: Seq<(u32, Seq<char>)>,
) -> bool {
    &&& forall|i: int|
        0 <= i < over.len() ==> is_over(m, (#[trigger] over[i]).0, now) && over[i].1
            == m[over[i].0].1
    &&& forall|i: int, j: int|
        0 <= i < j < over.len() ==> (#[trigger] over[i]).0 != (#[trigger] over[j]).0
    &&& forall|id: u32| #[trigger]
        is_over(m, id, now) ==> exists|i: int| 0 <= i < over.len() && (#[trigger] over[i]).0 == id
}

/// Numbers and ids by their texts.
pub open spec fn numbered(v: Seq<(u32, String)>) -> Seq<(u32, Seq<char>)> {
    v.map_values(|p: (u32, String)| (p.0, p.1@))
}

/// The ids alone.
pub open spec fn ids_of(v: Seq<(u32, Seq<char>)>) -> Seq<Seq<char>> {
    v.map_values(|p: (u32, Seq<char>)| p.1)
}

/// The cooldowns that are over, in the order in which the map is walked.
fn listed_over(m: &HashMap<u32, (u64, String)>, now: u64) -> (r: Vec<(u32, String)>)
    ensures
        are_over(coolings(m@), now, numbered(r@)),
{
    let mut done: Vec<(u32, String)> = Vec::new();
    let ghost cs = coolings(m@);
    // Where each of them was met.
    let ghost mut met: Seq<int> = Seq::empty();
    for (id, c) in it: m.iter()
        invariant
            cs == coolings(m@),
            it.seq() == vstd::std_specs::hash::spec_hash_map_iter(m).remaining(),
            met.len() == done.len(),
            forall|j: int|
                0 <= j < met.len() ==> 0 <= #[trigger] met[j] < it.index() && *it.seq()[met[j]].0
                    == done@[j].0,
            forall|i: int, j: int| 0 <= i < j < met.len() ==> #[trigger] met[i] < #[trigger] met[j],
            forall|j: int|
                0 <= j < done.len() ==> is_over(cs, (#[trigger] done@[j]).0, now) && done@[j].1@
                    == cs[done@[j].0].1,
            forall|i: int|
                0 <= i < it.index() && is_over(cs, *(#[trigger] it.seq()[i]).0, now) ==> exists|
                    j: int,
                |
                    0 <= j < met.len() && #[trigger] met[j] == i,
    {
        let ghost n = it.index();
        let ghost met_before = met;
        assert(it.seq()[n] == (id, c));
        assert(m@.contains_key(*id) && m@[*id] == *c) by {
            let s = vstd::std_specs::hash::spec_hash_map_iter(m).remaining();
            assert(m@.contains_key(*s[n].0));
            assert(m@[*s[n].0] == *s[n].1);
        }
        assert(cs.contains_key(*id) && cs[*id] == (c.0, c.1@));
        if now >= c.0 {
            done.push((*id, c.1.clone()));
            proof {
                met = met.push(n);
                assert(met[met_before.len() as int] == n);
            }
        }
        proof {
            assert forall|i: int|
                0 <= i < n + 1 && is_over(cs, *(#[trigger] it.seq()[i]).0, now) implies exists|
                j: int,
            |
                0 <= j < met.len() && #[trigger] met[j] == i by {
                if i < n {
                    let j = choose|j: int| 0 <= j < met_before.len() && #[trigger] met_before[j] == i;
                    assert(met[j] == i);
                }
            }
        }
    }
    proof {
        let s = vstd::std_specs::hash::spec_hash_map_iter(m).remaining();
        let over = numbered(done@);
        assert forall|i: int, j: int| 0 <= i < j < over.len() implies (#[trigger] over[i]).0 != (
        #[trigger] over[j]).0 by {
            let (a, b) = (met[i], met[j]);
            assert(a < b);
            if over[i].0 == over[j].0 {
                assert(s[a] == s[b]) by {
                    assert(m@[*s[a].0] == *s[a].1);
                    assert(m@[*s[b].0] == *s[b].1);
                }
                assert(s.no_duplicates());
            }
        }
        assert forall|id: u32| #[trigger] is_over(cs, id, now) implies exists|i: int|
            0 <= i < over.len() && (#[trigger] over[i]).0 == id by {
            assert(m@.contains_key(id));
            assert(s.contains((&id, &m@[id])));
            let a = choose|a: int| 0 <= a < s.len() && s[a] == (&id, &m@[id]);
            assert(is_over(cs, *s[a].0, now));
            let j = choose|j: int| 0 <= j < met.len() && #[trigger] met[j] == a;
            assert(over[j].0 == id);
        }
    }
    done
}

/// Takes out the cooldowns that are over, so that each is reported once and its reward can
/// be shown again.
pub fn expired_cooldowns(map: &mut HashMap<u32, (u64, String)>, now: u64) -> (r: Vec<
    (u32, String),
>)
    ensures
        coolings(final(map)@) == still_cooling(coolings(old(map)@), now),
        are_over(coolings(old(map)@), now, numbered(r@)),
{
    let ghost cs = coolings(map@);
    let done: Vec<(u32, String)> = listed_over(map, now);
    let ghost over = numbered(done@);
    for i in 0..done.len()
        invariant
            over == numbered(done@),
            forall|id: u32| #[trigger]
                map@.contains_key(id) <==> cs.contains_key(id) && !(exists|j: int|
                    0 <= j < i && (#[trigger] over[j]).0 == id),
            forall|id: u32| #[trigger] map@.contains_key(id) ==> coolings(map@)[id] == cs[id],
    {
        let ghost before = map@;
        map.remove(&done[i].0);
        proof {
            assert(over[i as int].0 == done@[i as int].0);
            assert forall|id: u32| #[trigger] map@.contains_key(id) <==> cs.contains_key(id)
                && !(exists|j: int| 0 <= j < i + 1 && (#[trigger] over[j]).0 == id) by {
                assert(map@.contains_key(id) <==> before.contains_key(id) && id != over[i as int].0);
                if cs.contains_key(id) && !before.contains_key(id) {
                    let j = choose|j: int| 0 <= j < i && (#[trigger] over[j]).0 == id;
                    assert(0 <= j < i + 1);
                }
            }
            assert forall|id: u32| #[trigger] map@.contains_key(id) implies coolings(map@)[id]
                == cs[id] by {
                assert(before.contains_key(id));
                assert(coolings(before)[id] == cs[id]);
            }
        }
    }
    proof {
        assert forall|id: u32| coolings(map@).contains_key(id) <==> still_cooling(
            cs,
            now,
        ).contains_key(id) by {
            assert(coolings(map@).contains_key(id) <==> map@.contains_key(id));
            if exists|j: int| 0 <= j < done.len() && (#[trigger] over[j]).0 == id {
                let j = choose|j: int| 0 <= j < done.len() && (#[trigger] over[j]).0 == id;
                assert(is_over(cs, over[j].0, now));
            }
            if is_over(cs, id, now) {
                let j = choose|j: int| 0 <= j < over.len() && (#[trigger] over[j]).0 == id;
                assert(0 <= j < done.len());
            }
        }
        assert forall|id: u32| #[trigger] coolings(map@).contains_key(id) implies coolings(map@)[id]
            == still_cooling(cs, now)[id] by {
            assert(map@.contains_key(id));
            assert(still_cooling(cs, now).contains_key(id));
        }
        assert(coolings(map@) =~= still_cooling(cs, now));
    }
    done
}

/// A cooldown that is over is reported once: after it has been, nothing is reported again,
/// and those that go on stay.
pub proof fn an_expired_cooldown_is_reported_once(m: Map<u32, (u64, Seq<char>)>, now: u64)
    ensures
        forall|over: Seq<(u32, Seq<char>)>| #[trigger]
            are_over(still_cooling(m, now), now, over) ==> over.len() == 0,
        still_cooling(still_cooling(m, now), now) == still_cooling(m, now),
        forall|id: u32| #[trigger]
            m.contains_key(id) ==> is_over(m, id, now) != still_cooling(m, now).contains_key(id),
{
    let left = still_cooling(m, now);
    assert(still_cooling(left, now) =~= left);
    assert forall|over: Seq<(u32, Seq<char>)>| #[trigger]
        are_over(left, now, over) implies over.len() == 0 by {
        if over.len() > 0 {
            assert(is_over(left, over[0].0, now));
        }
    }
}

// ---------------------------------------------------------------------------
// The till
// ---------------------------------------------------------------------------

/// Asking for something more.
pub open spec fn asking(tt: TillText, r: Request) -> TillText {
    TillText { requests: tt.requests.push(r), ..tt }
}

/// Without the cards of some purchases.
pub open spec fn dropping(tt: TillText, ids: Seq<Seq<char>>) -> TillText {
    let left: Seq<Card> = without_ids(tt.cards, ids);
    TillText { cards: left, dirty: tt.dirty || left.len() != tt.cards.len(), ..tt }
}

/// Giving the points of a purchase back: its card goes, and Twitch is asked. A test has
/// no reward, and nothing is given back for it.
pub open spec fn refunding(tt: TillText, reward_id: Seq<char>, redemption_id: Seq<char>) -> TillText {
    if reward_id.len() == 0 || redemption_id.len() == 0 {
        tt
    } else {
        asking(dropping(tt, seq![redemption_id]), Request::Refund(reward_id, redemption_id))
    }
}

/// Marking a purchase as done.
pub open spec fn fulfilling(tt: TillText, reward_id: Seq<char>, redemption_id: Seq<char>) -> TillText {
    if reward_id.len() == 0 || redemption_id.len() == 0 {
        tt
    } else {
        asking(tt, Request::Fulfill(reward_id, redemption_id))
    }
}

/// Showing or hiding a reward; only while Twitch is switched on, because nobody would carry
/// it out otherwise.
pub open spec fn enabling(tt: TillText, reward_id: Seq<char>, on: bool) -> TillText {
    if reward_id.len() == 0 || !tt.enabled {
        tt
    } else {
        asking(tt, Request::EnableReward(reward_id, on))
    }
}

/// Showing or hiding several rewards.
pub open spec fn enabling_all(tt: TillText, ids: Seq<Seq<char>>, on: bool) -> TillText
    decreases ids.len(),
{
    if ids.len() == 0 {
        tt
    } else {
        enabling(enabling_all(tt, ids.drop_last(), on), ids.last(), on)
    }
}

/// Showing a card.
pub open spec fn showing(tt: TillText, c: Card) -> TillText {
    TillText { cards: with_card(tt.cards, PURCHASE_HISTORY as int, c), dirty: true, ..tt }
}

/// The last `n` of a list.
pub open spec fn last_of<T>(s: Seq<T>, n: int) -> Seq<T> {
    if s.len() > n {
        s.skip(s.len() - n)
    } else {
        s
    }
}

/// The line of the list for a purchase that went through.
pub open spec fn log_line(viewer: Seq<char>, label: Seq<char>, cost: u32) -> Seq<char> {
    viewer + " \u{b7} "@ + label + " ("@ + decimal(cost as nat) + ")"@
}

/// Listing a purchase that went through.
pub open spec fn logging(tt: TillText, viewer: Seq<char>, label: Seq<char>, cost: u32) -> TillText {
    TillText {
        log: last_of(tt.log.push(log_line(viewer, label, cost)), PURCHASE_HISTORY as int),
        ..tt
    }
}

pub open spec fn noticing(tt: TillText, text: Seq<char>) -> TillText {
    TillText { notice: Some(text), ..tt }
}

impl Till {
    /// Nothing has been bought.
    pub fn new(twitch_enabled: bool) -> (r: Till)
        ensures
            r.text() == (TillText {
                cards: Seq::empty(),
                log: Seq::empty(),
                dirty: false,
                cooling: Map::empty(),
                requests: Seq::empty(),
                notice: None,
                enabled: twitch_enabled,
            }),
    {
        let r: Till = Till {
            purchases: Vec::new(),
            purchase_log: VecDeque::new(),
            purchases_dirty: false,
            reward_cooldown: HashMap::new(),
            commands: VecDeque::new(),
            reward_notice: None,
            twitch_enabled,
        };
        proof {
            assert(cards(r.purchases@) == Seq::<Card>::empty());
            assert(texts(r.purchase_log@) == Seq::<Seq<char>>::empty());
            assert(coolings(r.reward_cooldown@) =~= Map::<u32, (u64, Seq<char>)>::empty());
            assert(requests(r.commands@) == Seq::<Request>::empty());
        }
        r
    }

    fn ask(&mut self, c: Command)
        ensures
            final(self).text() == asking(old(self).text(), c.request()),
    {
        let ghost before = self.commands@;
        let ghost r = c.request();
        self.commands.push_back(c);
        assert(requests(self.commands@) == requests(before).push(r));
    }

    /// Asks Twitch to create, change or delete a reward.
    pub fn request(&mut self, c: Command)
        ensures
            final(self).text() == asking(old(self).text(), c.request()),
    {
        self.ask(c);
    }

    /// Says something in the settings window.
    pub fn notice(&mut self, text: String)
        ensures
            final(self).text() == noticing(old(self).text(), text@),
    {
        self.reward_notice = Some(text);
    }

    /// Takes back what was said in the settings window.
    pub fn clear_notice(&mut self)
        ensures
            final(self).text() == (TillText { notice: None, ..old(self).text() }),
    {
        self.reward_notice = None;
    }

    /// Takes the cards of these purchases off the screen. This is no refund: the effect has
    /// worked, only its countdown must not go on.
    pub fn drop_purchases(&mut self, ids: &Vec<String>)
        ensures
            final(self).text() == if ids@.len() == 0 {
                old(self).text()
            } else {
                dropping(old(self).text(), texts(ids@))
            },
    {
        if ids.len() > 0 {
            self.drop_cards(ids);
        }
    }

    fn drop_cards(&mut self, ids: &Vec<String>)
        ensures
            final(self).text() == dropping(old(self).text(), texts(ids@)),
    {
        let ghost cs = cards(self.purchases@);
        let before: usize = self.purchases.len();
        let mut kept: Vec<PurchaseEvent> = Vec::new();
        assert(cards(kept@) == without_ids(cs.take(0), texts(ids@)));
        for i in 0..before
            invariant
                before == self.purchases.len(),
                *self == *old(self),
                cs == cards(self.purchases@),
                cards(kept@) == without_ids(cs.take(i as int), texts(ids@)),
        {
            let ghost was = kept@;
            proof {
                assert(cs.take(i + 1).drop_last() == cs.take(i as int));
                assert(cs.take(i + 1).last() == self.purchases@[i as int].card());
            }
            if !has_text(ids, &self.purchases[i].redemption_id) {
                let p: PurchaseEvent = self.purchases[i].copy();
                let ghost c = p.card();
                kept.push(p);
                assert(cards(kept@) == cards(was).push(c));
            }
        }
        assert(cs.take(cs.len() as int) == cs);
        assert(cards(kept@).len() == kept.len());
        assert(cs.len() == before);
        if kept.len() != before {
            self.purchases_dirty = true;
        }
        self.purchases = kept;
    }

    /// Takes cards off the screen that have been up long enough; `alive` says which stay.
    pub fn sweep_cards(&mut self, alive: &Vec<bool>, arrived: bool)
        requires
            alive.len() == old(self).purchases.len(),
        ensures
            final(self).text() == sweeping_cards(old(self).text(), alive@, arrived),
    {
        let ghost cs = cards(self.purchases@);
        let before: usize = self.purchases.len();
        let mut kept: Vec<PurchaseEvent> = Vec::new();
        assert(cards(kept@) == kept_cards(cs.take(0), alive@.take(0)));
        for i in 0..before
            invariant
                before == self.purchases.len(),
                alive.len() == before,
                *self == *old(self),
                cs == cards(self.purchases@),
                cards(kept@) == kept_cards(cs.take(i as int), alive@.take(i as int)),
        {
            let ghost was = kept@;
            proof {
                assert(cs.take(i + 1).drop_last() == cs.take(i as int));
                assert(alive@.take(i + 1).drop_last() == alive@.take(i as int));
                assert(cs.take(i + 1).last() == self.purchases@[i as int].card());
            }
            if alive[i] {
                let p: PurchaseEvent = self.purchases[i].copy();
                let ghost c = p.card();
                kept.push(p);
                assert(cards(kept@) == cards(was).push(c));
            }
        }
        assert(cs.take(cs.len() as int) == cs);
        assert(alive@.take(alive@.len() as int) == alive@);
        assert(cards(kept@).len() == kept.len());
        if arrived || kept.len() != before {
            self.purchases_dirty = true;
        }
        self.purchases = kept;
    }

    /// Gives the points of a purchase back.
    pub fn refund(&mut self, reward_id: &str, redemption_id: &str)
        ensures
            final(self).text() == refunding(old(self).text(), reward_id@, redemption_id@),
    {
        if reward_id.is_empty() || redemption_id.is_empty() {
            return;
        }
        let mut ids: Vec<String> = Vec::new();
        ids.push(redemption_id.to_string());
        assert(texts(ids@) == seq![redemption_id@]);
        self.drop_cards(&ids);
        self.ask(
            Command::Refund {
                reward_id: reward_id.to_string(),
                redemption_id: redemption_id.to_string(),
            },
        );
    }

    /// Marks a purchase as done, so that it is not taken for one that was slept through.
    pub fn fulfill(&mut self, reward_id: &str, redemption_id: &str)
        ensures
            final(self).text() == fulfilling(old(self).text(), reward_id@, redemption_id@),
    {
        if reward_id.is_empty() || redemption_id.is_empty() {
            return;
        }
        self.ask(
            Command::Fulfill {
                reward_id: reward_id.to_string(),
                redemption_id: redemption_id.to_string(),
            },
        );
    }

    /// Shows or hides a reward on Twitch.
    pub fn enable_reward(&mut self, reward_id: &str, on: bool)
        ensures
            final(self).text() == enabling(old(self).text(), reward_id@, on),
    {
        if reward_id.is_empty() || !self.twitch_enabled {
            return;
        }
        self.ask(Command::EnableReward { reward_id: reward_id.to_string(), on });
    }

    /// Shows a card for a purchase.
    pub fn push_purchase_at(
        &mut self,
        viewer: String,
        label: String,
        cost: u32,
        countdown_to: Option<u64>,
        life: Option<CardLife>,
        redemption_id: String,
        now: u64,
    )
        ensures
            final(self).text() == showing(
                old(self).text(),
                (Card {
                    viewer: viewer@,
                    label: label@,
                    cost,
                    at: now,
                    countdown_to,
                    life,
                    redemption_id: redemption_id@,
                }),
            ),
    {
        upsert_purchase(
            &mut self.purchases,
            PURCHASE_HISTORY,
            PurchaseEvent { viewer, label, cost, at: now, countdown_to, life, redemption_id },
        );
        self.purchases_dirty = true;
    }

    /// Shows a card without a countdown, for a purchase that has no id.
    pub fn push_purchase(&mut self, viewer: String, label: String, cost: u32, now: u64)
        ensures
            final(self).text() == showing(
                old(self).text(),
                (Card {
                    viewer: viewer@,
                    label: label@,
                    cost,
                    at: now,
                    countdown_to: None,
                    life: None,
                    redemption_id: Seq::empty(),
                }),
            ),
    {
        self.push_purchase_at(viewer, label, cost, None, None, String::new(), now);
    }

    /// Shows news about the connection on a card: nobody looks into the settings window
    /// during a stream.
    pub fn push_notice(&mut self, text: String, now: u64)
        ensures
            final(self).text() == showing(
                old(self).text(),
                (Card {
                    viewer: "Twitch"@,
                    label: text@,
                    cost: 0,
                    at: now,
                    countdown_to: None,
                    life: None,
                    redemption_id: Seq::empty(),
                }),
            ),
    {
        self.push_purchase("Twitch".to_string(), text, 0, now);
    }

    /// Lists a purchase that went through.
    pub fn log_purchase(&mut self, viewer: &str, label: &str, cost: u32)
        ensures
            final(self).text() == logging(old(self).text(), viewer@, label@, cost),
    {
        let mut v: Vec<char> = chars_of(viewer);
        append_text(&mut v, " \u{b7} ");
        append_text(&mut v, label);
        append_text(&mut v, " (");
        append(&mut v, &decimal_of(cost as u64));
        append_text(&mut v, ")");
        let ghost before = self.purchase_log@;
        self.purchase_log.push_back(string_of(&v));
        let ghost all = texts(before).push(log_line(viewer@, label@, cost));
        proof {
            assert(texts(self.purchase_log@) == all);
            assert(all.skip(0) == all);
        }
        let ghost mut k: int = 0;
        while self.purchase_log.len() > PURCHASE_HISTORY
            invariant
                0 <= k <= all.len(),
                texts(self.purchase_log@) == all.skip(k),
                k > 0 ==> all.len() - k >= PURCHASE_HISTORY,
                self.purchases == old(self).purchases,
                self.purchases_dirty == old(self).purchases_dirty,
                self.reward_cooldown == old(self).reward_cooldown,
                self.commands == old(self).commands,
                self.reward_notice == old(self).reward_notice,
                self.twitch_enabled == old(self).twitch_enabled,
            decreases self.purchase_log.len(),
        {
            let ghost was = self.purchase_log@;
            assert(texts(was).len() == was.len());
            let _: Option<String> = self.purchase_log.pop_front();
            proof {
                assert(texts(self.purchase_log@) == texts(was).skip(1));
                assert(all.skip(k).skip(1) == all.skip(k + 1));
                k = k + 1;
            }
        }
        proof {
            assert(texts(self.purchase_log@).len() == self.purchase_log@.len());
            assert(all.skip(k).len() == all.len() - k);
            assert(texts(self.purchase_log@) == last_of(all, PURCHASE_HISTORY as int));
        }
    }

    fn set_cooldown(&mut self, id: u32, until: u64, reward_id: &str)
        ensures
            final(self).text() == (TillText {
                cooling: old(self).text().cooling.insert(id, (until, reward_id@)),
                ..old(self).text()
            }),
    {
        let ghost before = self.reward_cooldown@;
        self.reward_cooldown.insert(id, (until, reward_id.to_string()));
        assert(coolings(self.reward_cooldown@) =~= coolings(before).insert(id, (until, reward_id@)));
    }

    /// Shows again the rewards whose cooldown is over.
    pub fn end_cooldowns(&mut self, now: u64)
        ensures
            ended_cooldowns(old(self).text(), final(self).text(), now),
    {
        let ghost before = self.text();
        let done: Vec<(u32, String)> = expired_cooldowns(&mut self.reward_cooldown, now);
        let ghost over = numbered(done@);
        let ghost ids = ids_of(over);
        let ghost start = self.text();
        assert(ids.take(0) == Seq::<Seq<char>>::empty());
        for i in 0..done.len()
            invariant
                over == numbered(done@),
                ids == ids_of(over),
                self.text() == enabling_all(start, ids.take(i as int), true),
        {
            assert(ids.take(i + 1).drop_last() == ids.take(i as int));
            assert(ids.take(i + 1).last() == done@[i as int].1@);
            self.enable_reward(&done[i].1, true);
        }
        assert(ids.take(done@.len() as int) == ids);
        assert(start == (TillText { cooling: still_cooling(before.cooling, now), ..before }));
    }
}

/// The till after the cards that are no longer up were taken off.
pub open spec fn sweeping_cards(tt: TillText, alive: Seq<bool>, arrived: bool) -> TillText {
    let left: Seq<Card> = kept_cards(tt.cards, alive);
    TillText { cards: left, dirty: tt.dirty || arrived || left.len() != tt.cards.len(), ..tt }
}

/// The cards that stay.
pub open spec fn kept_cards(cs: Seq<Card>, alive: Seq<bool>) -> Seq<Card>
    decreases cs.len(),
{
    if cs.len() == 0 {
        Seq::empty()
    } else if alive.last() {
        kept_cards(cs.drop_last(), alive.drop_last()).push(cs.last())
    } else {
        kept_cards(cs.drop_last(), alive.drop_last())
    }
}

/// The rewards whose cooldown is over are shown again, each once and in any order.
pub open spec fn ended_cooldowns(before: TillText, after: TillText, now: u64) -> bool {
    exists|over: Seq<(u32, Seq<char>)>| #[trigger]
        are_over(before.cooling, now, over) && after == enabling_all(
            TillText { cooling: still_cooling(before.cooling, now), ..before },
            ids_of(over),
            true,
        )
}

// ---------------------------------------------------------------------------
// A purchase
// ---------------------------------------------------------------------------

/// A purchase that has arrived.
pub struct Redemption {
    pub viewer: String,
    pub reward_id: String,
    pub reward_title: String,
    pub cost: u32,
    pub redemption_id: String,
}

/// The reward of the list that a purchase belongs to.
pub struct Found {
    pub id: u32,
    pub enabled: bool,
    pub caption: String,
    pub action: Action,
    pub allowed_in_boss: bool,
    pub cooldown_secs: u16,
}

/// What is going on in the game.
#[derive(Clone, Copy, Debug, PartialEq, Eq, Structural)]
pub struct Scene {
    /// Ordinary play: no menu, no cutscene, and the game in front.
    pub gameplay: bool,
    /// The player is in Roundtable Hold.
    pub in_hub: bool,
    pub boss_fight: bool,
}

/// What becomes of a purchase.
#[derive(Clone, Copy, Debug, PartialEq, Eq, Structural)]
pub enum Verdict {
    /// No reward of ours: it is only shown.
    Foreign,
    /// Ours but switched off.
    SwitchedOff,
    /// The game is not being played.
    NotPlaying,
    InHub,
    /// Not during a fight with a boss.
    BossFight,
    /// On cooldown for so many more seconds.
    Cooling(u64),
    /// To be carried out.
    Accepted,
}

/// How many more seconds a reward is on cooldown.
pub open spec fn seconds_left(until: u64, now: u64) -> u64 {
    ((until - now) / 1_000_000_000 + 1) as u64
}

/// What becomes of a purchase: the first reason against it, or none.
pub open spec fn verdict(
    found: Option<Found>,
    scene: Scene,
    cooling: Map<u32, (u64, Seq<char>)>,
    now: u64,
) -> Verdict {
    match found {
        None => Verdict::Foreign,
        Some(f) => {
            if !f.enabled {
                Verdict::SwitchedOff
            } else if !scene.gameplay {
                Verdict::NotPlaying
            } else if scene.in_hub {
                Verdict::InHub
            } else if scene.boss_fight && !f.allowed_in_boss {
                Verdict::BossFight
            } else if f.cooldown_secs > 0 && cooling.contains_key(f.id) && now < cooling[f.id].0 {
                Verdict::Cooling(seconds_left(cooling[f.id].0, now))
            } else {
                Verdict::Accepted
            }
        },
    }
}

/// What a card calls the purchase.
pub open spec fn label_of(r: Redemption, found: Option<Found>) -> Seq<char> {
    match found {
        Some(f) => if f.enabled {
            f.caption@
        } else {
            r.reward_title@
        },
        None => r.reward_title@,
    }
}

/// The action of a reward that is switched on.
pub open spec fn action_of(found: Option<Found>) -> Option<Action> {
    match found {
        Some(f) => if f.enabled {
            Some(f.action)
        } else {
            None
        },
        None => None,
    }
}

/// The card of a purchase.
pub open spec fn card_of(r: Redemption, found: Option<Found>, now: u64) -> Card {
    let (life, countdown_to) = timing(action_of(found), now);
    Card {
        viewer: r.viewer@,
        label: label_of(r, found),
        cost: r.cost,
        at: now,
        countdown_to,
        life,
        redemption_id: r.redemption_id@,
    }
}

/// What is said in the settings window about a verdict.
pub open spec fn verdict_notice(v: Verdict, label: Seq<char>, l: Locales) -> Option<Seq<char>> {
    match v {
        Verdict::InHub => Some(
            translated(
                l,
                "The player is in Roundtable Hold - purchases are not executed there."@,
            ),
        ),
        Verdict::BossFight => Some(
            translated(l, "Boss fight in progress - this reward is disabled during one."@),
        ),
        Verdict::Cooling(left) => Some(
            label + ": "@ + translated(l, "on cooldown, seconds left:"@) + " "@ + decimal(
                left as nat,
            ),
        ),
        _ => None,
    }
}

/// What a purchase does to the till: its card is shown, and unless it is foreign or to be
/// carried out its points are given back.
pub open spec fn redeeming(
    tt: TillText,
    r: Redemption,
    found: Option<Found>,
    scene: Scene,
    now: u64,
    l: Locales,
) -> TillText {
    let v: Verdict = verdict(found, scene, tt.cooling, now);
    let shown: TillText = showing(tt, card_of(r, found, now));
    let said: TillText = match verdict_notice(v, label_of(r, found), l) {
        Some(n) => noticing(shown, n),
        None => shown,
    };
    if v == Verdict::Foreign || v == Verdict::Accepted {
        said
    } else {
        refunding(said, r.reward_id@, r.redemption_id@)
    }
}

/// What happens when an accepted purchase has been put into the queue, or not: it is listed
/// and its cooldown begins, or its points are given back.
pub open spec fn settling(
    tt: TillText,
    r: Redemption,
    f: Found,
    queued: bool,
    now: u64,
) -> TillText {
    if !queued {
        refunding(tt, r.reward_id@, r.redemption_id@)
    } else {
        let listed: TillText = logging(tt, r.viewer@, f.caption@, r.cost);
        if f.cooldown_secs == 0 {
            listed
        } else {
            enabling(
                TillText {
                    cooling: listed.cooling.insert(
                        f.id,
                        (moment_after(now, f.cooldown_secs), r.reward_id@),
                    ),
                    ..listed
                },
                r.reward_id@,
                false,
            )
        }
    }
}

impl Till {
    fn judge(&self, found: &Option<Found>, scene: Scene, now: u64) -> (r: Verdict)
        ensures
            r == verdict(*found, scene, self.text().cooling, now),
    {
        match found {
            None => Verdict::Foreign,
            Some(f) => {
                if !f.enabled {
                    return Verdict::SwitchedOff;
                }
                if !scene.gameplay {
                    return Verdict::NotPlaying;
                }
                if scene.in_hub {
                    return Verdict::InHub;
                }
                if scene.boss_fight && !f.allowed_in_boss {
                    return Verdict::BossFight;
                }
                if f.cooldown_secs > 0 {
                    if let Some(c) = self.reward_cooldown.get(&f.id) {
                        if now < c.0 {
                            return Verdict::Cooling((c.0 - now) / 1_000_000_000 + 1);
                        }
                    }
                }
                Verdict::Accepted
            },
        }
    }

    /// A purchase has arrived. Its card is shown; one that cannot be carried out is paid
    /// back at once instead of being kept until nobody remembers it. Returns what becomes of
    /// it: an accepted one goes into the queue, and then `settle` is called.
    pub fn redeem(
        &mut self,
        r: &Redemption,
        found: &Option<Found>,
        scene: Scene,
        now: u64,
        locales: &Locales,
    ) -> (v: Verdict)
        ensures
            v == verdict(*found, scene, old(self).text().cooling, now),
            final(self).text() == redeeming(
                old(self).text(),
                *r,
                *found,
                scene,
                now,
                *locales,
            ),
    {
        let v: Verdict = self.judge(found, scene, now);
        let mut label: String = r.reward_title.clone();
        let mut action: Option<&Action> = None;
        match found {
            Some(f) => {
                if f.enabled {
                    label = f.caption.clone();
                    action = Some(&f.action);
                }
            },
            None => {},
        }
        let (life, countdown_to) = card_timing(action, now);
        self.push_purchase_at(
            r.viewer.clone(),
            label.clone(),
            r.cost,
            countdown_to,
            life,
            r.redemption_id.clone(),
            now,
        );
        match v {
            Verdict::InHub => {
                self.notice(
                    t(
                        locales,
                        "The player is in Roundtable Hold - purchases are not executed there.",
                    ),
                );
            },
            Verdict::BossFight => {
                self.notice(
                    t(locales, "Boss fight in progress - this reward is disabled during one."),
                );
            },
            Verdict::Cooling(left) => {
                let mut text: Vec<char> = chars_of(&label);
                append_text(&mut text, ": ");
                append_text(&mut text, &t(locales, "on cooldown, seconds left:"));
                append_text(&mut text, " ");
                append(&mut text, &decimal_of(left));
                self.notice(string_of(&text));
            },
            _ => {},
        }
        if v != Verdict::Foreign && v != Verdict::Accepted {
            self.refund(&r.reward_id, &r.redemption_id);
        }
        v
    }

    /// An accepted purchase has been put into the queue, or the queue was full.
    pub fn settle(&mut self, r: &Redemption, f: &Found, queued: bool, now: u64)
        ensures
            final(self).text() == settling(old(self).text(), *r, *f, queued, now),
    {
        if !queued {
            self.refund(&r.reward_id, &r.redemption_id);
            return;
        }
        self.log_purchase(&r.viewer, &f.caption, r.cost);
        if f.cooldown_secs > 0 {
            self.set_cooldown(f.id, after(now, f.cooldown_secs), &r.reward_id);
            self.enable_reward(&r.reward_id, false);
        }
    }
}

// ---------------------------------------------------------------------------
// Laws
// ---------------------------------------------------------------------------

/// The list of purchases that went through never grows beyond its length, and the newest is
/// its last line.
pub proof fn the_list_is_bounded(tt: TillText, viewer: Seq<char>, label: Seq<char>, cost: u32)
    ensures
        0 < logging(tt, viewer, label, cost).log.len() <= tt.log.len() + 1,
        logging(tt, viewer, label, cost).log.len() <= PURCHASE_HISTORY,
        logging(tt, viewer, label, cost).log.last() == log_line(viewer, label, cost),
{
}

proof fn lemma_without_ids(cs: Seq<Card>, ids: Seq<Seq<char>>)
    ensures
        forall|i: int|
            0 <= i < without_ids(cs, ids).len() ==> !ids.contains(
                (#[trigger] without_ids(cs, ids)[i]).redemption_id,
            ),
    decreases cs.len(),
{
    if cs.len() > 0 {
        lemma_without_ids(cs.drop_last(), ids);
        let b = without_ids(cs.drop_last(), ids);
        let out = without_ids(cs, ids);
        assert forall|i: int| 0 <= i < out.len() implies !ids.contains(
            (#[trigger] out[i]).redemption_id,
        ) by {
            if i < b.len() {
                assert(out[i] == b[i]);
            }
        }
    }
}

/// Nobody pays for nothing: a purchase of one of our rewards is either to be carried out, or
/// its points are given back and its card is gone.
pub proof fn a_refused_purchase_is_paid_back(
    tt: TillText,
    r: Redemption,
    found: Option<Found>,
    scene: Scene,
    now: u64,
    l: Locales,
)
    requires
        found is Some,
        r.reward_id@.len() > 0,
        r.redemption_id@.len() > 0,
        verdict(found, scene, tt.cooling, now) != Verdict::Accepted,
    ensures
        redeeming(tt, r, found, scene, now, l).requests == tt.requests.push(
            Request::Refund(r.reward_id@, r.redemption_id@),
        ),
        forall|i: int|
            0 <= i < redeeming(tt, r, found, scene, now, l).cards.len() ==> (#[trigger] redeeming(
                tt,
                r,
                found,
                scene,
                now,
                l,
            ).cards[i]).redemption_id != r.redemption_id@,
{
    let v = verdict(found, scene, tt.cooling, now);
    assert(v != Verdict::Foreign);
    let shown = showing(tt, card_of(r, found, now));
    let said = match verdict_notice(v, label_of(r, found), l) {
        Some(n) => noticing(shown, n),
        None => shown,
    };
    let ids = seq![r.redemption_id@];
    lemma_without_ids(said.cards, ids);
    assert(ids.contains(r.redemption_id@)) by {
        assert(ids[0] == r.redemption_id@);
    }
    let out = redeeming(tt, r, found, scene, now, l);
    assert(out.cards == without_ids(said.cards, ids));
}

/// A purchase that the full queue turns away is paid back too, and nothing else happens.
pub proof fn a_full_queue_pays_back(tt: TillText, r: Redemption, f: Found, now: u64)
    requires
        r.reward_id@.len() > 0,
        r.redemption_id@.len() > 0,
    ensures
        settling(tt, r, f, false, now).requests == tt.requests.push(
            Request::Refund(r.reward_id@, r.redemption_id@),
        ),
        settling(tt, r, f, false, now).log == tt.log,
        settling(tt, r, f, false, now).cooling == tt.cooling,
{
}

/// Rewards that are not ours are shown and otherwise left alone.
pub proof fn foreign_rewards_are_left_alone(
    tt: TillText,
    r: Redemption,
    scene: Scene,
    now: u64,
    l: Locales,
)
    ensures
        redeeming(tt, r, None, scene, now, l) == showing(tt, card_of(r, None, now)),
        redeeming(tt, r, None, scene, now, l).requests == tt.requests,
{
}

/// A reward that was just bought is on cooldown: until the cooldown is over the next
/// purchase of it is paid back.
pub proof fn a_cooldown_holds(
    tt: TillText,
    r: Redemption,
    f: Found,
    scene: Scene,
    now: u64,
    later: u64,
)
    requires
        f.enabled,
        f.cooldown_secs > 0,
        later < moment_after(now, f.cooldown_secs),
    ensures
        verdict(Some(f), scene, settling(tt, r, f, true, now).cooling, later)
            != Verdict::Accepted,
{
}

} // verus!
