//! The rewards that viewers can buy, as far as Twitch knows them.

use vstd::prelude::*;
use crate::bosses::opt_text;
use crate::i18n::{t, translated, Locales};
use crate::text::{
    append_text, chars_of, same, string_of, texts, trim, trimmed,
};
use crate::till::{asking, enabling_all, noticing, Command, Request, Till, TillText};

verus! {

/// The state of the connection to Twitch.
pub enum Status {
    /// Switched off in the settings.
    Disabled,
    /// There is no Client ID.
    NotConfigured,
    /// Not connected yet.
    Connecting,
    Connected { login: String },
    Error { message: String, retry_in_secs: u32 },
}

/// A reward of the list.
pub struct RewardEntry {
    pub id: u32,
    /// Its id on Twitch; empty until it has been created there.
    pub reward_id: String,
    pub reward_title: String,
    pub cost: u32,
    /// It is carried out.
    pub enabled: bool,
    /// The mark of what was last seen on Twitch.
    pub synced: u64,
}

/// A reward by its texts.
pub struct Reward {
    pub id: u32,
    pub reward_id: Seq<char>,
    pub reward_title: Seq<char>,
    pub cost: u32,
    pub enabled: bool,
    pub synced: u64,
}

impl RewardEntry {
    pub open spec fn text(self) -> Reward {
        Reward {
            id: self.id,
            reward_id: self.reward_id@,
            reward_title: self.reward_title@,
            cost: self.cost,
            enabled: self.enabled,
            synced: self.synced,
        }
    }
}

pub open spec fn reward_texts(v: Seq<RewardEntry>) -> Seq<Reward> {
    v.map_values(|e: RewardEntry| e.text())
}

/// What the network tells, besides purchases and lists of viewers.
pub enum RewardEvent {
    Created { local_id: u32, reward_id: String, mark: u64 },
    Updated { local_id: u32, mark: u64 },
    /// What really is on Twitch: the ids there and their marks.
    Synced { marks: Vec<(String, u64)> },
    RefundFailed { reason: String },
    Notice { text: String },
    Failed { local_id: u32, reason: String },
}

/// Where the first reward with a number stands, or the number of rewards.
pub open spec fn reward_at(rs: Seq<Reward>, id: u32) -> int
    decreases rs.len(),
{
    if rs.len() == 0 || rs[0].id == id {
        0
    } else {
        1 + reward_at(rs.skip(1), id)
    }
}

/// The mark for an id, by the first entry for it.
pub open spec fn mark_of(marks: Seq<(Seq<char>, u64)>, id: Seq<char>) -> Option<u64>
    decreases marks.len(),
{
    if marks.len() == 0 {
        None
    } else if marks[0].0 == id {
        Some(marks[0].1)
    } else {
        mark_of(marks.skip(1), id)
    }
}

pub open spec fn mark_texts(v: Seq<(String, u64)>) -> Seq<(Seq<char>, u64)> {
    v.map_values(|p: (String, u64)| (p.0@, p.1))
}

/// A reward after Twitch has told what is there. One that is not in the answer is left
/// alone: this application just does not see it.
pub open spec fn synced_reward(r: Reward, marks: Seq<(Seq<char>, u64)>) -> Reward {
    match mark_of(marks, r.reward_id) {
        Some(m) => if r.reward_id.len() > 0 {
            Reward { synced: m, ..r }
        } else {
            r
        },
        None => r,
    }
}

pub open spec fn synced_rewards(rs: Seq<Reward>, marks: Seq<(Seq<char>, u64)>) -> Seq<Reward> {
    rs.map_values(|r: Reward| synced_reward(r, marks))
}

/// The ids of the rewards that Twitch knows, those that are carried out only if `enabled`.
pub open spec fn known_ids(rs: Seq<Reward>, enabled: bool) -> Seq<Seq<char>>
    decreases rs.len(),
{
    if rs.len() == 0 {
        Seq::empty()
    } else if rs.last().reward_id.len() > 0 && (!enabled || rs.last().enabled) {
        known_ids(rs.drop_last(), enabled).push(rs.last().reward_id)
    } else {
        known_ids(rs.drop_last(), enabled)
    }
}

/// What an event does to the rewards: the rewards after it, and what is said.
pub open spec fn after_event(rs: Seq<Reward>, e: RewardEvent, l: Locales) -> (
    Seq<Reward>,
    Option<Seq<char>>,
) {
    match e {
        RewardEvent::Created { local_id, reward_id, mark } => {
            let k: int = reward_at(rs, local_id);
            if k < rs.len() {
                (
                    rs.update(k, Reward { reward_id: reward_id@, synced: mark, ..rs[k] }),
                    Some(translated(l, "the reward was created on Twitch"@)),
                )
            } else {
                (rs, None)
            }
        },
        RewardEvent::Updated { local_id, mark } => {
            let k: int = reward_at(rs, local_id);
            if k < rs.len() {
                (
                    rs.update(k, Reward { synced: mark, ..rs[k] }),
                    Some(
                        translated(l, "updated on Twitch:"@) + " "@ + trim(rs[k].reward_title),
                    ),
                )
            } else {
                (rs, Some(translated(l, "updated on Twitch:"@) + " "@ + Seq::<char>::empty()))
            }
        },
        RewardEvent::Synced { marks } => (synced_rewards(rs, mark_texts(marks@)), None),
        RewardEvent::RefundFailed { reason } => (rs, Some(reason@)),
        RewardEvent::Notice { text } => (rs, Some(text@)),
        RewardEvent::Failed { local_id, reason } => {
            let k: int = reward_at(rs, local_id);
            (
                rs,
                Some(
                    (if k < rs.len() {
                        rs[k].reward_title
                    } else {
                        Seq::empty()
                    }) + ": "@ + reason@,
                ),
            )
        },
    }
}

/// Whether the file of rewards has to be written after an event.
pub open spec fn must_save(rs: Seq<Reward>, e: RewardEvent) -> bool {
    match e {
        RewardEvent::Created { local_id, .. } => reward_at(rs, local_id) < rs.len(),
        RewardEvent::Updated { local_id, .. } => reward_at(rs, local_id) < rs.len(),
        RewardEvent::Synced { marks } => synced_rewards(rs, mark_texts(marks@)) != rs,
        _ => false,
    }
}

fn find_reward(rewards: &Vec<RewardEntry>, id: u32) -> (r: usize)
    ensures
        r == reward_at(reward_texts(rewards@), id),
        r <= rewards.len(),
{
    let ghost rs = reward_texts(rewards@);
    let mut k: usize = 0;
    assert(rs.skip(0) == rs);
    while k < rewards.len() && rewards[k].id != id
        invariant
            k <= rewards.len(),
            rs == reward_texts(rewards@),
            reward_at(rs, id) == k + reward_at(rs.skip(k as int), id),
        decreases rewards.len() - k,
    {
        assert(rs.skip(k as int)[0] == rs[k as int]);
        assert(rs.skip(k as int).skip(1) == rs.skip(k + 1));
        k = k + 1;
    }
    proof {
        if k < rewards.len() {
            assert(rs.skip(k as int)[0] == rs[k as int]);
        }
    }
    k
}

fn find_mark(marks: &Vec<(String, u64)>, id: &str) -> (r: Option<u64>)
    ensures
        r == mark_of(mark_texts(marks@), id@),
{
    let key: Vec<char> = chars_of(id);
    let ghost ms = mark_texts(marks@);
    assert(ms.skip(0) == ms);
    for i in 0..marks.len()
        invariant
            key@ == id@,
            ms == mark_texts(marks@),
            mark_of(ms, id@) == mark_of(ms.skip(i as int), id@),
    {
        assert(ms.skip(i as int)[0] == (marks@[i as int].0@, marks@[i as int].1));
        assert(ms.skip(i as int).skip(1) == ms.skip(i + 1));
        if same(&key, &marks[i].0) {
            return Some(marks[i].1);
        }
    }
    None
}

fn sync_marks(rewards: &mut Vec<RewardEntry>, marks: &Vec<(String, u64)>) -> (changed: bool)
    ensures
        reward_texts(final(rewards)@) == synced_rewards(
            reward_texts(old(rewards)@),
            mark_texts(marks@),
        ),
        changed == (reward_texts(final(rewards)@) != reward_texts(old(rewards)@)),
{
    let ghost rs = reward_texts(rewards@);
    let ghost ms = mark_texts(marks@);
    let mut changed: bool = false;
    let n: usize = rewards.len();
    for i in 0..n
        invariant
            n == rewards.len(),
            rs.len() == n,
            ms == mark_texts(marks@),
            rs == reward_texts(old(rewards)@),
            forall|j: int|
                0 <= j < i ==> (#[trigger] rewards@[j]).text() == synced_reward(rs[j], ms),
            forall|j: int| i <= j < n ==> (#[trigger] rewards@[j]).text() == rs[j],
            changed == exists|j: int|
                0 <= j < i && #[trigger] rs[j] != synced_reward(rs[j], ms),
    {
        assert(rewards@[i as int].text() == rs[i as int]);
        if chars_of(&rewards[i].reward_id).len() > 0 {
            match find_mark(marks, &rewards[i].reward_id) {
                Some(m) => {
                    if rewards[i].synced != m {
                        changed = true;
                        assert(rs[i as int] != synced_reward(rs[i as int], ms));
                    }
                    rewards[i].synced = m;
                },
                None => {},
            }
        }
    }
    proof {
        assert(reward_texts(rewards@) == synced_rewards(rs, ms));
        if changed {
            let j = choose|j: int| 0 <= j < n && #[trigger] rs[j] != synced_reward(rs[j], ms);
            assert(synced_rewards(rs, ms)[j] != rs[j]);
        } else {
            assert forall|j: int| 0 <= j < n implies #[trigger] synced_rewards(rs, ms)[j]
                == rs[j] by {
                assert(rs[j] == synced_reward(rs[j], ms));
            }
            assert(synced_rewards(rs, ms) == rs);
        }
    }
    changed
}

/// What the network tells about rewards. Returns whether the file of rewards has to be
/// written.
pub fn on_event(
    rewards: &mut Vec<RewardEntry>,
    till: &mut Till,
    event: &RewardEvent,
    locales: &Locales,
) -> (save: bool)
    ensures
        save == must_save(reward_texts(old(rewards)@), *event),
        reward_texts(final(rewards)@) == after_event(
            reward_texts(old(rewards)@),
            *event,
            *locales,
        ).0,
        final(till).text() == match after_event(
            reward_texts(old(rewards)@),
            *event,
            *locales,
        ).1 {
            Some(n) => noticing(old(till).text(), n),
            None => old(till).text(),
        },
{
    let ghost rs = reward_texts(rewards@);
    match event {
        RewardEvent::Created { local_id, reward_id, mark } => {
            let k: usize = find_reward(rewards, *local_id);
            if k < rewards.len() {
                rewards[k].reward_id = reward_id.clone();
                rewards[k].synced = *mark;
                till.notice(t(locales, "the reward was created on Twitch"));
                assert(reward_texts(rewards@) == rs.update(
                    k as int,
                    Reward { reward_id: reward_id@, synced: *mark, ..rs[k as int] },
                ));
                true
            } else {
                false
            }
        },
        RewardEvent::Updated { local_id, mark } => {
            let k: usize = find_reward(rewards, *local_id);
            let mut v: Vec<char> = chars_of(&t(locales, "updated on Twitch:"));
            append_text(&mut v, " ");
            if k < rewards.len() {
                let title: Vec<char> = trimmed(&chars_of(&rewards[k].reward_title));
                append_text(&mut v, &string_of(&title));
                rewards[k].synced = *mark;
                assert(reward_texts(rewards@) == rs.update(
                    k as int,
                    Reward { synced: *mark, ..rs[k as int] },
                ));
            } else {
                assert(v@ + Seq::<char>::empty() == v@);
            }
            till.notice(string_of(&v));
            k < rewards.len()
        },
        RewardEvent::Synced { marks } => sync_marks(rewards, marks),
        RewardEvent::RefundFailed { reason } => {
            till.notice(reason.clone());
            false
        },
        RewardEvent::Notice { text } => {
            till.notice(text.clone());
            false
        },
        RewardEvent::Failed { local_id, reason } => {
            let k: usize = find_reward(rewards, *local_id);
            let mut v: Vec<char> = if k < rewards.len() {
                chars_of(&rewards[k].reward_title)
            } else {
                Vec::new()
            };
            append_text(&mut v, ": ");
            append_text(&mut v, reason);
            till.notice(string_of(&v));
            false
        },
    }
}

fn ids_known(rewards: &Vec<RewardEntry>, enabled: bool) -> (r: Vec<String>)
    ensures
        texts(r@) == known_ids(reward_texts(rewards@), enabled),
{
    let ghost rs = reward_texts(rewards@);
    let mut r: Vec<String> = Vec::new();
    assert(texts(r@) == known_ids(rs.take(0), enabled));
    for i in 0..rewards.len()
        invariant
            rs == reward_texts(rewards@),
            texts(r@) == known_ids(rs.take(i as int), enabled),
    {
        let ghost was = r@;
        proof {
            assert(rs.take(i + 1).drop_last() == rs.take(i as int));
            assert(rs.take(i + 1).last() == rewards@[i as int].text());
        }
        if chars_of(&rewards[i].reward_id).len() > 0 && (!enabled || rewards[i].enabled) {
            r.push(rewards[i].reward_id.clone());
            assert(texts(r@) == texts(was).push(rewards@[i as int].reward_id@));
        }
    }
    assert(rs.take(rs.len() as int) == rs);
    r
}

/// Shows or hides all our rewards on Twitch. All are hidden; only those are shown that are
/// carried out.
pub fn enable_all_rewards(rewards: &Vec<RewardEntry>, till: &mut Till, on: bool)
    ensures
        final(till).text() == enabling_all(
            old(till).text(),
            known_ids(reward_texts(rewards@), on),
            on,
        ),
{
    let ids: Vec<String> = ids_known(rewards, on);
    let ghost all = texts(ids@);
    assert(all.take(0) == Seq::<Seq<char>>::empty());
    for i in 0..ids.len()
        invariant
            all == texts(ids@),
            till.text() == enabling_all(old(till).text(), all.take(i as int), on),
    {
        assert(all.take(i + 1).drop_last() == all.take(i as int));
        assert(all.take(i + 1).last() == ids@[i as int]@);
        till.enable_reward(&ids[i], on);
    }
    assert(all.take(all.len() as int) == all);
}

/// Asking for the points of purchases that were slept through.
pub open spec fn sweeping(tt: TillText, rs: Seq<Reward>, skip: Seq<Seq<char>>) -> TillText {
    if known_ids(rs, false).len() == 0 {
        tt
    } else {
        asking(tt, Request::SweepUnfulfilled(known_ids(rs, false), skip))
    }
}

/// Asks Twitch to pay back all that was slept through, but for what is in the queues right
/// now and about to be carried out.
pub fn sweep_unfulfilled(rewards: &Vec<RewardEntry>, till: &mut Till, skip: Vec<String>)
    ensures
        final(till).text() == sweeping(old(till).text(), reward_texts(rewards@), texts(skip@)),
{
    let ids: Vec<String> = ids_known(rewards, false);
    assert(texts(ids@).len() == ids.len());
    if ids.len() > 0 {
        till.request(Command::SweepUnfulfilled { rewards: ids, skip });
    }
}

/// Creating a reward on Twitch, or changing the one that is there: Twitch would not create
/// it twice.
pub open spec fn publishing(tt: TillText, r: Reward, mark: u64, l: Locales) -> TillText {
    if r.reward_id.len() == 0 {
        noticing(
            asking(tt, Request::CreateReward(r.id, trim(r.reward_title), r.cost, mark)),
            translated(l, "creating the reward on Twitch..."@),
        )
    } else {
        noticing(
            asking(
                tt,
                Request::UpdateReward(r.id, r.reward_id, trim(r.reward_title), r.cost, mark),
            ),
            translated(l, "updating the reward on Twitch..."@),
        )
    }
}

/// The reward with a number is sent, if there is one.
pub open spec fn published(
    tt: TillText,
    rs: Seq<Reward>,
    id: u32,
    mark: u64,
    l: Locales,
) -> TillText {
    let k: int = reward_at(rs, id);
    if k < rs.len() {
        publishing(tt, Reward { id, ..rs[k] }, mark, l)
    } else {
        tt
    }
}

/// Creates the reward with a number on Twitch, or brings the one that is there up to date.
/// `mark` is the mark of what is sent.
pub fn publish_reward(
    rewards: &Vec<RewardEntry>,
    till: &mut Till,
    id: u32,
    mark: u64,
    locales: &Locales,
)
    ensures
        final(till).text() == published(
            old(till).text(),
            reward_texts(rewards@),
            id,
            mark,
            *locales,
        ),
{
    let ghost rs = reward_texts(rewards@);
    let k: usize = find_reward(rewards, id);
    if k >= rewards.len() {
        return;
    }
    let e: &RewardEntry = &rewards[k];
    assert(rs[k as int] == e.text());
    let title: String = string_of(&trimmed(&chars_of(&e.reward_title)));
    if chars_of(&e.reward_id).len() == 0 {
        till.request(Command::CreateReward { local_id: id, title, cost: e.cost, mark });
        till.notice(t(locales, "creating the reward on Twitch..."));
    } else {
        till.request(
            Command::UpdateReward {
                local_id: id,
                reward_id: e.reward_id.clone(),
                title,
                cost: e.cost,
                mark,
            },
        );
        till.notice(t(locales, "updating the reward on Twitch..."));
    }
}

// ---------------------------------------------------------------------------
// The connection
// ---------------------------------------------------------------------------

/// What is said when the connection changes: that it is there, that it is there again, or
/// that it is lost. Switching it off is a decision and no news.
pub open spec fn connection_news(was: bool, ever: bool, now: Status, l: Locales) -> Option<
    Seq<char>,
> {
    if !was && now is Connected {
        if ever {
            Some(translated(l, "Twitch connection restored"@))
        } else {
            Some(translated(l, "Twitch connected"@))
        }
    } else if was && !(now is Connected) && !(now is Disabled) {
        Some(translated(l, "Twitch connection lost"@))
    } else {
        None
    }
}

fn is_connected(s: &Status) -> (r: bool)
    ensures
        r == (*s is Connected),
{
    match s {
        Status::Connected { .. } => true,
        _ => false,
    }
}

pub fn connection_notice(was: bool, ever: bool, now: &Status, locales: &Locales) -> (r: Option<
    String,
>)
    ensures
        opt_text(r) == connection_news(was, ever, *now, *locales),
{
    let connected: bool = is_connected(now);
    let disabled: bool = match now {
        Status::Disabled => true,
        _ => false,
    };
    if !was && connected {
        if ever {
            Some(t(locales, "Twitch connection restored"))
        } else {
            Some(t(locales, "Twitch connected"))
        }
    } else if was && !connected && !disabled {
        Some(t(locales, "Twitch connection lost"))
    } else {
        None
    }
}

/// Whether Twitch was connected a frame ago, and whether it ever was.
#[derive(Clone, Copy, Debug, PartialEq, Eq, Structural)]
pub struct Link {
    pub was_connected: bool,
    pub ever_connected: bool,
}

/// A frame with a status: after silence all that was slept through is asked for, and all our
/// rewards are shown again, because one that was hidden for a cooldown stays hidden if the
/// game crashed meanwhile.
pub open spec fn after_status(
    tt: TillText,
    link: Link,
    rs: Seq<Reward>,
    status: Status,
    skip: Seq<Seq<char>>,
    l: Locales,
) -> TillText {
    if status is Connected && !link.was_connected {
        enabling_all(sweeping(tt, rs, skip), known_ids(rs, true), true)
    } else {
        tt
    }
}

/// What is remembered of the connection.
pub open spec fn link_after(link: Link, status: Status) -> Link {
    Link {
        was_connected: status is Connected,
        ever_connected: link.ever_connected || status is Connected,
    }
}

/// The status of the connection on this frame.
pub fn on_status(
    link: &mut Link,
    rewards: &Vec<RewardEntry>,
    till: &mut Till,
    status: &Status,
    skip: Vec<String>,
    now: u64,
    locales: &Locales,
)
    ensures
        *final(link) == link_after(*old(link), *status),
        ({
            let tt: TillText = after_status(
                old(till).text(),
                *old(link),
                reward_texts(rewards@),
                *status,
                texts(skip@),
                *locales,
            );
            final(till).text() == match connection_news(
                old(link).was_connected,
                old(link).ever_connected,
                *status,
                *locales,
            ) {
                Some(n) => crate::till::showing(
                    tt,
                    (crate::till::Card {
                        viewer: "Twitch"@,
                        label: n,
                        cost: 0,
                        at: now,
                        countdown_to: None,
                        life: None,
                        redemption_id: Seq::empty(),
                    }),
                ),
                None => tt,
            }
        }),
{
    let connected: bool = is_connected(status);
    if connected && !link.was_connected {
        sweep_unfulfilled(rewards, till, skip);
        enable_all_rewards(rewards, till, true);
    }
    match connection_notice(link.was_connected, link.ever_connected, status, locales) {
        Some(text) => {
            till.push_notice(text, now);
        },
        None => {},
    }
    link.ever_connected = link.ever_connected || connected;
    link.was_connected = connected;
}

/// News come only on a real change: with the connection as it was, or switched off on
/// purpose, nothing is said.
pub proof fn news_come_only_on_a_change(ever: bool, now: Status, l: Locales)
    ensures
        now is Connected ==> connection_news(true, ever, now, l) is None,
        !(now is Connected) ==> connection_news(false, ever, now, l) is None,
        now is Disabled ==> connection_news(true, ever, now, l) is None,
        now is Connected ==> connection_news(false, ever, now, l) is Some,
{
}

} // verus!
