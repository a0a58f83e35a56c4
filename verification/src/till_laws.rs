//! What every step of the till keeps: each label is on one card, and neither the cards nor the
//! list outgrow their length.

use vstd::prelude::*;
use crate::i18n::Locales;
use crate::till::{
    are_over, dropping, enabling_all, ended_cooldowns, equal_rewards_share_one_card, fulfilling,
    ids_of, kept_cards, labels_differ, noticing, redeeming, refunding, settling, showing,
    still_cooling, without_ids, Card, Found, Redemption, Scene, TillText, PURCHASE_HISTORY,
};

verus! {

/// The till is in order.
pub open spec fn sound(tt: TillText) -> bool {
    &&& labels_differ(tt.cards)
    &&& tt.cards.len() <= PURCHASE_HISTORY
    &&& tt.log.len() <= PURCHASE_HISTORY
}

/// `part` is `all` without some of its cards, each label on one card.
spec fn thinned(part: Seq<Card>, all: Seq<Card>) -> bool {
    &&& part.len() <= all.len()
    &&& labels_differ(part)
    &&& forall|i: int| 0 <= i < part.len() ==> all.contains(#[trigger] part[i])
}

proof fn lemma_thinned_push(part: Seq<Card>, all: Seq<Card>, c: Card, kept: bool)
    requires
        thinned(part, all),
        labels_differ(all.push(c)),
    ensures
        kept ==> thinned(part.push(c), all.push(c)),
        thinned(part, all.push(c)),
{
    let more = all.push(c);
    let out = part.push(c);
    assert forall|i: int| 0 <= i < part.len() implies more.contains(#[trigger] part[i])
        && part[i].label != c.label by {
        assert(all.contains(part[i]));
        let a = choose|a: int| 0 <= a < all.len() && all[a] == part[i];
        assert(more[a] == part[i]);
        assert(more[all.len() as int] == c);
        assert(more[a].label != more[all.len() as int].label);
    }
    assert forall|i: int| 0 <= i < out.len() implies more.contains(#[trigger] out[i]) by {
        if i < part.len() {
            assert(more.contains(part[i]));
        } else {
            assert(more[all.len() as int] == c);
        }
    }
    assert forall|i: int, j: int| 0 <= i < j < out.len() implies (#[trigger] out[i]).label != (
    #[trigger] out[j]).label by {
        if j < part.len() {
            assert(part[i].label != part[j].label);
        } else {
            assert(part[i].label != c.label);
        }
    }
}

proof fn lemma_front(cs: Seq<Card>)
    requires
        cs.len() > 0,
        labels_differ(cs),
    ensures
        labels_differ(cs.drop_last()),
        cs.drop_last().push(cs.last()) == cs,
{
    let front = cs.drop_last();
    assert forall|i: int, j: int| 0 <= i < j < front.len() implies (#[trigger] front[i]).label != (
    #[trigger] front[j]).label by {
        assert(cs[i].label != cs[j].label);
    }
}

proof fn lemma_without_ids_thins(cs: Seq<Card>, ids: Seq<Seq<char>>)
    requires
        labels_differ(cs),
    ensures
        thinned(without_ids(cs, ids), cs),
    decreases cs.len(),
{
    if cs.len() > 0 {
        lemma_front(cs);
        lemma_without_ids_thins(cs.drop_last(), ids);
        lemma_thinned_push(
            without_ids(cs.drop_last(), ids),
            cs.drop_last(),
            cs.last(),
            !ids.contains(cs.last().redemption_id),
        );
    }
}

proof fn lemma_kept_cards_thins(cs: Seq<Card>, alive: Seq<bool>)
    requires
        labels_differ(cs),
    ensures
        thinned(kept_cards(cs, alive), cs),
    decreases cs.len(),
{
    if cs.len() > 0 {
        lemma_front(cs);
        lemma_kept_cards_thins(cs.drop_last(), alive.drop_last());
        lemma_thinned_push(
            kept_cards(cs.drop_last(), alive.drop_last()),
            cs.drop_last(),
            cs.last(),
            alive.last(),
        );
    }
}

/// Showing a card keeps the till in order.
pub proof fn showing_keeps_order(tt: TillText, c: Card)
    requires
        sound(tt),
    ensures
        sound(showing(tt, c)),
{
    equal_rewards_share_one_card(tt.cards, PURCHASE_HISTORY as int, c);
}

/// Taking cards off, with or without a refund, keeps the till in order.
pub proof fn dropping_keeps_order(
    tt: TillText,
    ids: Seq<Seq<char>>,
    reward_id: Seq<char>,
    redemption_id: Seq<char>,
)
    requires
        sound(tt),
    ensures
        sound(dropping(tt, ids)),
        sound(refunding(tt, reward_id, redemption_id)),
        sound(fulfilling(tt, reward_id, redemption_id)),
{
    lemma_without_ids_thins(tt.cards, ids);
    let one = seq![redemption_id];
    lemma_without_ids_thins(tt.cards, one);
}

/// A purchase that arrives keeps the till in order, whatever becomes of it.
pub proof fn redeeming_keeps_order(
    tt: TillText,
    r: Redemption,
    found: Option<Found>,
    scene: Scene,
    now: u64,
    l: Locales,
)
    requires
        sound(tt),
    ensures
        sound(redeeming(tt, r, found, scene, now, l)),
{
    let v = crate::till::verdict(found, scene, tt.cooling, now);
    let shown = showing(tt, crate::till::card_of(r, found, now));
    showing_keeps_order(tt, crate::till::card_of(r, found, now));
    let said: TillText = match crate::till::verdict_notice(v, crate::till::label_of(r, found), l) {
        Some(n) => noticing(shown, n),
        None => shown,
    };
    dropping_keeps_order(said, Seq::empty(), r.reward_id@, r.redemption_id@);
}

/// Carrying an accepted purchase on, or paying it back, keeps the till in order.
pub proof fn settling_keeps_order(tt: TillText, r: Redemption, f: Found, queued: bool, now: u64)
    requires
        sound(tt),
    ensures
        sound(settling(tt, r, f, queued, now)),
{
    dropping_keeps_order(tt, Seq::empty(), r.reward_id@, r.redemption_id@);
}

/// Showing or hiding rewards touches nothing but what Twitch is asked.
pub proof fn showing_rewards_keeps_the_rest(tt: TillText, ids: Seq<Seq<char>>, on: bool)
    ensures
        enabling_all(tt, ids, on).cards == tt.cards,
        enabling_all(tt, ids, on).log == tt.log,
        enabling_all(tt, ids, on).notice == tt.notice,
        enabling_all(tt, ids, on).dirty == tt.dirty,
        enabling_all(tt, ids, on).enabled == tt.enabled,
        enabling_all(tt, ids, on).cooling == tt.cooling,
    decreases ids.len(),
{
    if ids.len() > 0 {
        showing_rewards_keeps_the_rest(tt, ids.drop_last(), on);
    }
}

/// The end of a frame, with cooldowns that are over and cards that have burnt out, keeps the
/// till in order.
pub proof fn finishing_keeps_order(
    tt: TillText,
    ended: TillText,
    alive: Seq<bool>,
    dirty: bool,
    now: u64,
)
    requires
        sound(tt),
        ended_cooldowns(tt, ended, now),
    ensures
        sound(ended),
        ended.cards == tt.cards,
        ended.cooling == still_cooling(tt.cooling, now),
        sound(TillText { cards: kept_cards(tt.cards, alive), dirty, ..ended }),
{
    ending_cooldowns_keeps_the_rest(tt, ended, now);
    lemma_kept_cards_thins(tt.cards, alive);
}

/// Ending cooldowns touches nothing but them and what Twitch is asked.
pub proof fn ending_cooldowns_keeps_the_rest(tt: TillText, ended: TillText, now: u64)
    requires
        ended_cooldowns(tt, ended, now),
    ensures
        ended.cards == tt.cards,
        ended.log == tt.log,
        ended.notice == tt.notice,
        ended.dirty == tt.dirty,
        ended.enabled == tt.enabled,
        ended.cooling == still_cooling(tt.cooling, now),
{
    let start = TillText { cooling: still_cooling(tt.cooling, now), ..tt };
    let over = choose|over: Seq<(u32, Seq<char>)>| #[trigger]
        are_over(tt.cooling, now, over) && ended == enabling_all(start, ids_of(over), true);
    showing_rewards_keeps_the_rest(start, ids_of(over), true);
}

} // verus!
