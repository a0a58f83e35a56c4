//! What reaches the mod from the network on a frame, in its order: the channel, the state of
//! the connection, what has arrived, and what has run out meanwhile.

use vstd::prelude::*;
use crate::bosses::opt_text;
use crate::config::Config;
use crate::frame::Play;
use crate::i18n::Locales;
use crate::rewards::{
    after_event, after_status, connection_news, link_after, must_save, on_event, on_status,
    reward_texts, Link, Reward, RewardEntry, RewardEvent, Status,
};
use crate::text::{copied, texts};
use crate::till::{
    ended_cooldowns, noticing, redeeming, settling, showing, sweeping_cards, verdict, Card, Found,
    Redemption, Scene, Till, TillText, Verdict,
};
use crate::till_laws::ending_cooldowns_keeps_the_rest;
use crate::viewers::{on_channel, updated, Crowd, CrowdText};

verus! {

/// All that purchases and viewers depend on.
pub struct Hud {
    pub till: Till,
    pub crowd: Crowd,
    pub rewards: Vec<RewardEntry>,
    pub link: Link,
    pub play: Play,
}

/// Something that has arrived from the network.
pub enum Event {
    /// A purchase, with the reward of the list that it belongs to.
    Redemption { purchase: Redemption, found: Option<Found> },
    /// Who is in the chat; `helix` for the full list.
    Chatters { list: Vec<String>, helix: bool },
    Reward(RewardEvent),
}

/// What the host has to do about it.
#[derive(Clone, Copy, Debug, PartialEq, Eq, Structural)]
pub enum Reply {
    Nothing,
    /// Write the file of rewards.
    Save,
    /// Put the purchase into the queue, and tell by `Hud::queued` whether there was room.
    Queue,
}

/// The scene that a purchase is judged by.
pub open spec fn scene_of(p: Play) -> Scene {
    Scene { gameplay: p.gameplay_active, in_hub: p.in_hub_now, boss_fight: p.boss_fight_now }
}

/// The card that tells of the connection.
pub open spec fn news_card(text: Seq<char>, now: u64) -> Card {
    Card {
        viewer: "Twitch"@,
        label: text,
        cost: 0,
        at: now,
        countdown_to: None,
        life: None,
        redemption_id: Seq::empty(),
    }
}

/// A frame has begun.
pub open spec fn has_begun(
    before: Hud,
    after: Hud,
    twitch_enabled: bool,
    channel: Option<Seq<char>>,
    status: Status,
    skip: Seq<Seq<char>>,
    now: u64,
    l: Locales,
    changed: bool,
) -> bool {
    let tt: TillText = after_status(
        TillText { enabled: twitch_enabled, ..before.till.text() },
        before.link,
        reward_texts(before.rewards@),
        status,
        skip,
        l,
    );
    &&& changed == (channel != before.crowd.text().channel)
    &&& after.crowd.text() == on_channel(before.crowd.text(), channel)
    &&& after.link == link_after(before.link, status)
    &&& after.till.text() == match connection_news(
        before.link.was_connected,
        before.link.ever_connected,
        status,
        l,
    ) {
        Some(n) => showing(tt, news_card(n, now)),
        None => tt,
    }
    &&& after.rewards == before.rewards
    &&& after.play == before.play
}

/// What has arrived has been dealt with.
pub open spec fn has_handled(
    before: Hud,
    after: Hud,
    event: Event,
    c: Config,
    now: u64,
    l: Locales,
    r: Reply,
) -> bool {
    &&& after.link == before.link
    &&& after.play == before.play
    &&& match event {
        Event::Redemption { purchase, found } => {
            &&& r == if verdict(found, scene_of(before.play), before.till.text().cooling, now)
                == Verdict::Accepted {
                Reply::Queue
            } else {
                Reply::Nothing
            }
            &&& after.till.text() == redeeming(
                before.till.text(),
                purchase,
                found,
                scene_of(before.play),
                now,
                l,
            )
            &&& after.crowd == before.crowd
            &&& after.rewards == before.rewards
        },
        Event::Chatters { list, helix } => {
            &&& r == Reply::Nothing
            &&& after.crowd.text() == updated(
                before.crowd.text(),
                texts(list@),
                helix,
                c.viewers_source,
                texts(c.viewer_block@),
                now,
            )
            &&& after.till == before.till
            &&& after.rewards == before.rewards
        },
        Event::Reward(e) => {
            let rs: Seq<Reward> = reward_texts(before.rewards@);
            &&& r == if must_save(rs, e) {
                Reply::Save
            } else {
                Reply::Nothing
            }
            &&& reward_texts(after.rewards@) == after_event(rs, e, l).0
            &&& after.till.text() == match after_event(rs, e, l).1 {
                Some(n) => noticing(before.till.text(), n),
                None => before.till.text(),
            }
            &&& after.crowd == before.crowd
        },
    }
}

/// A frame has ended.
pub open spec fn has_finished(
    before: Hud,
    after: Hud,
    alive: Seq<bool>,
    arrived: bool,
    now: u64,
) -> bool {
    &&& exists|tt: TillText| #[trigger]
        ended_cooldowns(before.till.text(), tt, now) && after.till.text() == sweeping_cards(
            tt,
            alive,
            arrived,
        )
    &&& after.crowd == before.crowd
    &&& after.rewards == before.rewards
    &&& after.link == before.link
    &&& after.play == before.play
}

impl Hud {
    /// Nothing has arrived yet.
    pub fn new(rewards: Vec<RewardEntry>, twitch_enabled: bool) -> (r: Hud)
        ensures
            r.rewards == rewards,
            r.till.text() == (TillText {
                cards: Seq::empty(),
                log: Seq::empty(),
                dirty: false,
                cooling: Map::empty(),
                requests: Seq::empty(),
                notice: None,
                enabled: twitch_enabled,
            }),
            r.crowd.text() == (CrowdText {
                viewers: Seq::empty(),
                generation: 0,
                channel: None,
                full_at: None,
            }),
            r.link == (Link { was_connected: false, ever_connected: false }),
            r.play == (Play {
                settings_open: false,
                boss_fight_now: false,
                in_hub_now: false,
                gameplay_active: false,
                was_dead: false,
                viewer_meddled_at: None,
                capture_key_for: None,
                web_started: false,
            }),
    {
        Hud {
            till: Till::new(twitch_enabled),
            crowd: Crowd::new(),
            rewards,
            link: Link { was_connected: false, ever_connected: false },
            play: Play::new(),
        }
    }

    /// The beginning of a frame: the switch, the channel and the connection. `skip` are the
    /// purchases that are about to be carried out. Returns whether the channel is another
    /// one, so that its chat has to be joined.
    pub fn begin(
        &mut self,
        twitch_enabled: bool,
        channel: &Option<String>,
        status: &Status,
        skip: &Vec<String>,
        now: u64,
        locales: &Locales,
    ) -> (r: bool)
        ensures
            has_begun(
                *old(self),
                *final(self),
                twitch_enabled,
                opt_text(*channel),
                *status,
                texts(skip@),
                now,
                *locales,
                r,
            ),
    {
        self.till.twitch_enabled = twitch_enabled;
        let changed: bool = self.crowd.set_channel(channel);
        on_status(
            &mut self.link,
            &self.rewards,
            &mut self.till,
            status,
            copied(skip),
            now,
            locales,
        );
        changed
    }

    /// Something has arrived.
    pub fn handle(&mut self, event: &Event, c: &Config, now: u64, locales: &Locales) -> (r: Reply)
        ensures
            has_handled(*old(self), *final(self), *event, *c, now, *locales, r),
    {
        match event {
            Event::Redemption { purchase, found } => {
                let scene: Scene = self.play.scene();
                if self.till.redeem(purchase, found, scene, now, locales) == Verdict::Accepted {
                    Reply::Queue
                } else {
                    Reply::Nothing
                }
            },
            Event::Chatters { list, helix } => {
                self.crowd.update(copied(list), *helix, c.viewers_source, &c.viewer_block, now);
                Reply::Nothing
            },
            Event::Reward(e) => {
                if on_event(&mut self.rewards, &mut self.till, e, locales) {
                    Reply::Save
                } else {
                    Reply::Nothing
                }
            },
        }
    }

    /// The host has put an accepted purchase into the queue, or found it full.
    pub fn queued(&mut self, purchase: &Redemption, found: &Found, room: bool, now: u64)
        ensures
            final(self).till.text() == settling(old(self).till.text(), *purchase, *found, room, now),
            final(self).crowd == old(self).crowd,
            final(self).rewards == old(self).rewards,
            final(self).link == old(self).link,
            final(self).play == old(self).play,
    {
        self.till.settle(purchase, found, room, now);
    }

    /// The end of a frame: rewards whose cooldown is over come back, and cards that have
    /// burnt out go. `alive` tells which cards are still up, `arrived` whether anything has
    /// arrived.
    pub fn finish(&mut self, alive: &Vec<bool>, arrived: bool, now: u64)
        requires
            alive@.len() == old(self).till.purchases@.len(),
        ensures
            has_finished(*old(self), *final(self), alive@, arrived, now),
    {
        let ghost before = self.till.text();
        assert(before.cards.len() == self.till.purchases@.len());
        self.till.end_cooldowns(now);
        let ghost ended = self.till.text();
        proof {
            ending_cooldowns_keeps_the_rest(before, ended, now);
        }
        assert(self.till.text().cards.len() == self.till.purchases@.len());
        self.till.sweep_cards(alive, arrived);
    }
}

} // verus!
