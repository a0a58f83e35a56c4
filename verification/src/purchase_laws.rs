//! What becomes of a purchase: when it is carried out, when the points go back, and how long
//! a reward rests.

use vstd::prelude::*;
use crate::effects::{effect_named, effect_text, group_of, the_table_is_well_formed};
use crate::i18n::{translated, Locales};
use crate::outcomes::{
    after_effect, fulfilling_all, refunding_all, spawn_is_allowed, step, without_cards, Step,
};
use crate::text::decimal;
use crate::till::{
    are_over, blames_viewers, enabling_all, ended_cooldowns, ids_of, is_over, kept_cards, log_line,
    meddles, redeeming, refunding, seconds_left, settling, showing, still_cooling, timing, verdict,
    without_ids, without_label, Action, Card, CardLife, Found, Redemption, Request, Scene,
    TillText, Verdict,
};
use crate::timed_effects::{later, runs_for};

verus! {

// ---------------------------------------------------------------------------
// The verdict
// ---------------------------------------------------------------------------

/// A reward is on cooldown.
pub open spec fn rests(f: Found, cooling: Map<u32, (u64, Seq<char>)>, now: u64) -> bool {
    f.cooldown_secs > 0 && cooling.contains_key(f.id) && now < cooling[f.id].0
}

/// A purchase is carried out exactly if it is of a reward of ours that is switched on, in
/// ordinary play outside the hub, with no boss fight or one that the reward is allowed in, and
/// the reward not on cooldown.
pub proof fn what_is_carried_out(
    found: Option<Found>,
    scene: Scene,
    cooling: Map<u32, (u64, Seq<char>)>,
    now: u64,
)
    ensures
        verdict(found, scene, cooling, now) == Verdict::Accepted <==> {
            &&& found is Some
            &&& found.unwrap().enabled
            &&& scene.gameplay
            &&& !scene.in_hub
            &&& (scene.boss_fight ==> found.unwrap().allowed_in_boss)
            &&& !rests(found.unwrap(), cooling, now)
        },
        verdict(found, scene, cooling, now) == Verdict::Foreign <==> found is None,
        verdict(found, scene, cooling, now) == Verdict::SwitchedOff <==> found is Some
            && !found.unwrap().enabled,
        verdict(found, scene, cooling, now) == Verdict::InHub ==> scene.in_hub && scene.gameplay,
        verdict(found, scene, cooling, now) == Verdict::NotPlaying ==> !scene.gameplay,
        verdict(found, scene, cooling, now) == Verdict::BossFight ==> scene.boss_fight
            && !found.unwrap().allowed_in_boss && !scene.in_hub && scene.gameplay,
        verdict(found, scene, cooling, now) is Cooling ==> rests(found.unwrap(), cooling, now),
{
}

/// How things stand in the game matters only as far as it must: without a boss fight it is all
/// the same whether the reward is allowed in one, and for a reward that is allowed in one it
/// is all the same whether there is one.
pub proof fn boss_fights_matter_only_to_some(
    f: Found,
    g: Found,
    scene: Scene,
    cooling: Map<u32, (u64, Seq<char>)>,
    now: u64,
)
    requires
        g == (Found { allowed_in_boss: !f.allowed_in_boss, ..f }),
    ensures
        !scene.boss_fight ==> verdict(Some(f), scene, cooling, now) == verdict(
            Some(g),
            scene,
            cooling,
            now,
        ),
        f.allowed_in_boss ==> verdict(Some(f), scene, cooling, now) == verdict(
            Some(f),
            (Scene { boss_fight: !scene.boss_fight, ..scene }),
            cooling,
            now,
        ),
{
}

/// The seconds that are told of a cooldown are those until its end, a begun one counted as
/// whole.
pub proof fn the_seconds_of_a_cooldown(until: u64, now: u64)
    requires
        now < until,
    ensures
        (seconds_left(until, now) - 1) * 1_000_000_000 <= until - now,
        until - now < seconds_left(until, now) * 1_000_000_000,
        seconds_left(until, now) >= 1,
{
}

proof fn lemma_ids_gone(cs: Seq<Card>, ids: Seq<Seq<char>>)
    ensures
        forall|i: int|
            0 <= i < cs.len() && !ids.contains((#[trigger] cs[i]).redemption_id) ==> without_ids(
                cs,
                ids,
            ).contains(cs[i]),
        forall|i: int|
            0 <= i < without_ids(cs, ids).len() ==> !ids.contains(
                (#[trigger] without_ids(cs, ids)[i]).redemption_id,
            ) && cs.contains(without_ids(cs, ids)[i]),
    decreases cs.len(),
{
    if cs.len() > 0 {
        let front = cs.drop_last();
        let n: int = cs.len() - 1;
        lemma_ids_gone(front, ids);
        let before = without_ids(front, ids);
        let out = without_ids(cs, ids);
        assert(cs[n] == cs.last());
        assert forall|i: int|
            0 <= i < cs.len() && !ids.contains(
                (#[trigger] cs[i]).redemption_id,
            ) implies out.contains(cs[i]) by {
            if i < n {
                assert(front[i] == cs[i]);
                assert(before.contains(cs[i]));
                let k = choose|k: int| 0 <= k < before.len() && before[k] == cs[i];
                assert(out[k] == cs[i]);
            } else {
                assert(out[before.len() as int] == cs[n]);
            }
        }
        assert forall|i: int| 0 <= i < out.len() implies !ids.contains(
            (#[trigger] out[i]).redemption_id,
        ) && cs.contains(out[i]) by {
            if i < before.len() {
                assert(out[i] == before[i]);
                assert(front.contains(before[i]));
                let k = choose|k: int| 0 <= k < front.len() && front[k] == before[i];
                assert(cs[k] == out[i]);
            } else {
                assert(cs[n] == out[i]);
            }
        }
    }
}

/// A card that is shown: it is the newest, it shows who bought what for how much, cards of
/// other labels stay unless there is no more room, and the one of its own label is gone.
pub proof fn a_shown_card_is_the_newest(tt: TillText, c: Card)
    ensures
        showing(tt, c).cards.len() > 0,
        showing(tt, c).cards.last() == c,
        showing(tt, c).dirty,
        showing(tt, c).requests == tt.requests,
        showing(tt, c).log == tt.log,
        showing(tt, c).cooling == tt.cooling,
        showing(tt, c).notice == tt.notice,
        showing(tt, c).enabled == tt.enabled,
        tt.cards.len() < 30 ==> forall|i: int|
            0 <= i < tt.cards.len() && (#[trigger] tt.cards[i]).label != c.label ==> showing(
                tt,
                c,
            ).cards.contains(tt.cards[i]),
        forall|i: int|
            0 <= i < showing(tt, c).cards.len() - 1 ==> (#[trigger] showing(tt, c).cards[i]).label
                != c.label,
{
    let kept = without_label(tt.cards, c.label);
    lemma_other_labels(tt.cards, c.label);
    let all = kept.push(c);
    let out = showing(tt, c).cards;
    assert(all.last() == c);
    if all.len() > 30 {
        assert(out == all.skip(1));
        assert(out.last() == all[all.len() - 1]);
        assert forall|i: int| 0 <= i < out.len() - 1 implies (#[trigger] out[i]).label != c.label by {
            assert(out[i] == kept[i + 1]);
        }
    } else {
        assert forall|i: int| 0 <= i < out.len() - 1 implies (#[trigger] out[i]).label != c.label by {
            assert(out[i] == kept[i]);
        }
        assert forall|i: int|
            0 <= i < tt.cards.len() && (#[trigger] tt.cards[i]).label
                != c.label implies out.contains(tt.cards[i]) by {
            assert(kept.contains(tt.cards[i]));
            let k = choose|k: int| 0 <= k < kept.len() && kept[k] == tt.cards[i];
            assert(out[k] == tt.cards[i]);
        }
    }
}

proof fn lemma_other_labels(cs: Seq<Card>, label: Seq<char>)
    ensures
        without_label(cs, label).len() <= cs.len(),
        forall|i: int|
            0 <= i < cs.len() && (#[trigger] cs[i]).label != label ==> without_label(
                cs,
                label,
            ).contains(cs[i]),
        forall|i: int|
            0 <= i < without_label(cs, label).len() ==> (#[trigger] without_label(
                cs,
                label,
            )[i]).label != label,
    decreases cs.len(),
{
    if cs.len() > 0 {
        let front = cs.drop_last();
        let n: int = cs.len() - 1;
        lemma_other_labels(front, label);
        let before = without_label(front, label);
        let out = without_label(cs, label);
        assert(cs[n] == cs.last());
        assert forall|i: int|
            0 <= i < cs.len() && (#[trigger] cs[i]).label != label implies out.contains(cs[i]) by {
            if i < n {
                assert(front[i] == cs[i]);
                assert(before.contains(cs[i]));
                let k = choose|k: int| 0 <= k < before.len() && before[k] == cs[i];
                assert(out[k] == cs[i]);
            } else {
                assert(out[before.len() as int] == cs[n]);
            }
        }
        assert forall|i: int| 0 <= i < out.len() implies (#[trigger] out[i]).label != label by {
            if i < before.len() {
                assert(out[i] == before[i]);
            }
        }
    }
}

/// The card of a purchase that is carried out or belongs to nobody shows its buyer, its price
/// and its moment, with the caption of our reward or the title of another's; nothing is asked
/// of Twitch and nothing is put on the list yet.
pub proof fn an_accepted_purchase_is_shown(
    tt: TillText,
    r: Redemption,
    found: Option<Found>,
    scene: Scene,
    now: u64,
    l: Locales,
)
    requires
        ({
            let v = verdict(found, scene, tt.cooling, now);
            v == Verdict::Accepted || v == Verdict::Foreign
        }),
    ensures
        ({
            let out = redeeming(tt, r, found, scene, now, l);
            &&& out.requests == tt.requests
            &&& out.log == tt.log
            &&& out.cooling == tt.cooling
            &&& out.cards.len() > 0
            &&& out.cards.last().viewer == r.viewer@
            &&& out.cards.last().cost == r.cost
            &&& out.cards.last().at == now
            &&& out.cards.last().redemption_id == r.redemption_id@
            &&& out.cards.last().label == (if found is Some {
                found.unwrap().caption@
            } else {
                r.reward_title@
            })
            &&& (out.cards.last().life, out.cards.last().countdown_to) == (if found is Some {
                timing(Some(found.unwrap().action), now)
            } else {
                (None, None)
            })
            &&& out.notice == tt.notice
        }),
{
    a_shown_card_is_the_newest(tt, crate::till::card_of(r, found, now));
}

/// A purchase of ours that is not carried out is paid back at once: Twitch is asked for it and
/// for nothing else, its card goes, nothing is listed and no reward rests for it. The hub, a
/// boss fight and a cooldown are told as the reason; other reasons leave what was said before.
pub proof fn a_refused_purchase_is_paid_back(
    tt: TillText,
    r: Redemption,
    f: Found,
    scene: Scene,
    now: u64,
    l: Locales,
)
    requires
        verdict(Some(f), scene, tt.cooling, now) != Verdict::Accepted,
        r.reward_id@.len() > 0,
        r.redemption_id@.len() > 0,
    ensures
        ({
            let out = redeeming(tt, r, Some(f), scene, now, l);
            &&& out.requests == tt.requests.push(Request::Refund(r.reward_id@, r.redemption_id@))
            &&& out.log == tt.log
            &&& out.cooling == tt.cooling
            &&& out.dirty
            &&& forall|i: int|
                0 <= i < out.cards.len() ==> (#[trigger] out.cards[i]).redemption_id
                    != r.redemption_id@
            &&& (f.enabled && scene.gameplay && scene.in_hub) ==> out.notice == Some(
                translated(
                    l,
                    "The player is in Roundtable Hold - purchases are not executed there."@,
                ),
            )
            &&& (f.enabled && scene.gameplay && !scene.in_hub && scene.boss_fight
                && !f.allowed_in_boss) ==> out.notice == Some(
                translated(l, "Boss fight in progress - this reward is disabled during one."@),
            )
            &&& (!f.enabled || !scene.gameplay) ==> out.notice == tt.notice
        }),
{
    let shown = showing(tt, crate::till::card_of(r, Some(f), now));
    let said = TillText {
        notice: redeeming(tt, r, Some(f), scene, now, l).notice,
        ..shown
    };
    a_refund_concerns_one_purchase(said, r.reward_id@, r.redemption_id@);
}

/// A purchase that found no room in the queue is paid back, not listed, and its reward does not
/// rest.
pub proof fn a_purchase_without_room_is_paid_back(tt: TillText, r: Redemption, f: Found, now: u64)
    requires
        r.reward_id@.len() > 0,
        r.redemption_id@.len() > 0,
    ensures
        ({
            let out = settling(tt, r, f, false, now);
            &&& out.requests == tt.requests.push(Request::Refund(r.reward_id@, r.redemption_id@))
            &&& out.log == tt.log
            &&& out.cooling == tt.cooling
            &&& forall|i: int|
                0 <= i < out.cards.len() ==> (#[trigger] out.cards[i]).redemption_id
                    != r.redemption_id@
        }),
{
    a_refund_concerns_one_purchase(tt, r.reward_id@, r.redemption_id@);
}

/// A purchase that has found room in the queue is put on the list with its buyer, its caption
/// and its price; nothing else is asked of Twitch but to hide its reward, if that has a
/// cooldown, and the cooldown lasts for so many seconds.
pub proof fn an_accepted_purchase_is_listed(
    tt: TillText,
    r: Redemption,
    f: Found,
    now: u64,
)
    requires
        now + 65_535_000_000_000 <= u64::MAX,
    ensures
        ({
            let out = settling(tt, r, f, true, now);
            &&& out.cards == tt.cards
            &&& out.notice == tt.notice
            &&& out.log.len() > 0
            &&& out.log.last() == r.viewer@ + " \u{b7} "@ + f.caption@ + " ("@ + decimal(
                r.cost as nat,
            ) + ")"@
            &&& f.cooldown_secs == 0 ==> out.cooling == tt.cooling && out.requests == tt.requests
            &&& f.cooldown_secs > 0 ==> {
                &&& out.cooling.contains_key(f.id)
                &&& out.cooling[f.id] == (
                    (now + f.cooldown_secs * 1_000_000_000) as u64,
                    r.reward_id@,
                )
                &&& forall|id: u32|
                    id != f.id ==> #[trigger] out.cooling.contains_key(id)
                        == tt.cooling.contains_key(id) && (tt.cooling.contains_key(id)
                        ==> out.cooling[id] == tt.cooling[id])
                &&& (tt.enabled && r.reward_id@.len() > 0) ==> out.requests == tt.requests.push(
                    Request::EnableReward(r.reward_id@, false),
                )
                &&& !(tt.enabled && r.reward_id@.len() > 0) ==> out.requests == tt.requests
            }
        }),
{
    let all = tt.log.push(log_line(r.viewer@, f.caption@, r.cost));
    assert(all.last() == log_line(r.viewer@, f.caption@, r.cost));
    if all.len() > 30 {
        assert(all.skip(all.len() - 30).last() == all[all.len() - 1]);
    }
}

/// A reward that was bought rests for its cooldown and no longer: before its end the next
/// purchase of it is refused, and from its end on it is carried out again, if nothing else is
/// against it.
pub proof fn a_cooldown_ends(
    tt: TillText,
    r: Redemption,
    f: Found,
    scene: Scene,
    now: u64,
    then: u64,
)
    requires
        f.enabled,
        scene.gameplay,
        !scene.in_hub,
        !scene.boss_fight,
        f.cooldown_secs > 0,
        now + 65_535_000_000_000 <= u64::MAX,
    ensures
        verdict(Some(f), scene, settling(tt, r, f, true, now).cooling, then) == Verdict::Accepted
            <==> then >= now + f.cooldown_secs * 1_000_000_000,
{
    an_accepted_purchase_is_listed(tt, r, f, now);
}

/// Points that are given back: the card of that purchase is gone, all others stay, and Twitch
/// is asked for exactly that purchase; unless it was only a trial.
pub proof fn a_refund_concerns_one_purchase(
    tt: TillText,
    reward_id: Seq<char>,
    redemption_id: Seq<char>,
)
    ensures
        ({
            let out = refunding(tt, reward_id, redemption_id);
            &&& out.log == tt.log
            &&& out.cooling == tt.cooling
            &&& out.notice == tt.notice
            &&& (reward_id.len() == 0 || redemption_id.len() == 0) ==> out == tt
            &&& (reward_id.len() > 0 && redemption_id.len() > 0) ==> {
                &&& out.requests == tt.requests.push(Request::Refund(reward_id, redemption_id))
                &&& forall|i: int|
                    0 <= i < out.cards.len() ==> (#[trigger] out.cards[i]).redemption_id
                        != redemption_id && tt.cards.contains(out.cards[i])
                &&& forall|i: int|
                    0 <= i < tt.cards.len() && (#[trigger] tt.cards[i]).redemption_id
                        != redemption_id ==> out.cards.contains(tt.cards[i])
            }
        }),
{
    let ids = seq![redemption_id];
    lemma_ids_gone(tt.cards, ids);
    assert(ids.contains(redemption_id)) by {
        assert(ids[0] == redemption_id);
    }
    let out = refunding(tt, reward_id, redemption_id);
    if reward_id.len() > 0 && redemption_id.len() > 0 {
        assert forall|i: int| 0 <= i < out.cards.len() implies (
        #[trigger] out.cards[i]).redemption_id != redemption_id && tt.cards.contains(
            out.cards[i],
        ) by {
            assert(!ids.contains(out.cards[i].redemption_id));
        }
        assert forall|i: int|
            0 <= i < tt.cards.len() && (#[trigger] tt.cards[i]).redemption_id
                != redemption_id implies out.cards.contains(tt.cards[i]) by {
            assert(!ids.contains(tt.cards[i].redemption_id));
        }
    }
}

/// Cards that go because their effects were cut short: exactly those of these purchases, and
/// nothing is asked of Twitch.
pub proof fn cut_cards_go(tt: TillText, ids: Seq<Seq<char>>)
    ensures
        without_cards(tt, ids).requests == tt.requests,
        without_cards(tt, ids).log == tt.log,
        without_cards(tt, ids).cooling == tt.cooling,
        forall|i: int|
            0 <= i < tt.cards.len() ==> (ids.contains((#[trigger] tt.cards[i]).redemption_id)
                <==> !without_cards(tt, ids).cards.contains(tt.cards[i])),
        without_cards(tt, ids).dirty == (tt.dirty || without_cards(tt, ids).cards.len()
            != tt.cards.len()),
{
    lemma_ids_gone(tt.cards, ids);
    let out = without_cards(tt, ids).cards;
    assert forall|i: int| 0 <= i < tt.cards.len() implies (ids.contains(
        (#[trigger] tt.cards[i]).redemption_id,
    ) <==> !out.contains(tt.cards[i])) by {
        if ids.len() == 0 {
            assert(out[i] == tt.cards[i]);
        } else if out.contains(tt.cards[i]) {
            let k = choose|k: int| 0 <= k < out.len() && out[k] == tt.cards[i];
            assert(!ids.contains(out[k].redemption_id));
        }
    }
}

/// Every purchase of a list is paid back once, in its order; trials are passed over.
pub proof fn all_that_is_left_is_paid_back(tt: TillText, ids: Seq<(Seq<char>, Seq<char>)>, i: int)
    requires
        0 <= i < ids.len(),
        ids[i].0.len() > 0,
        ids[i].1.len() > 0,
    ensures
        refunding_all(tt, ids).requests.contains(Request::Refund(ids[i].0, ids[i].1)),
        refunding_all(tt, ids).requests.len() <= tt.requests.len() + ids.len(),
    decreases ids.len(),
{
    let front = ids.drop_last();
    lemma_refunds(tt, front);
    let before = refunding_all(tt, front).requests;
    let out = refunding_all(tt, ids).requests;
    let x = Request::Refund(ids[i].0, ids[i].1);
    if i < front.len() {
        assert(front[i] == ids[i]);
        all_that_is_left_is_paid_back(tt, front, i);
        let k = choose|k: int| 0 <= k < before.len() && before[k] == x;
        assert(out[k] == x);
    } else {
        assert(out[before.len() as int] == x);
    }
}

proof fn lemma_refunds(tt: TillText, ids: Seq<(Seq<char>, Seq<char>)>)
    ensures
        tt.requests.len() <= refunding_all(tt, ids).requests.len() <= tt.requests.len()
            + ids.len(),
    decreases ids.len(),
{
    if ids.len() > 0 {
        lemma_refunds(tt, ids.drop_last());
    }
}

/// Purchases that are done are told to Twitch as done, each, and nothing is paid back for
/// them.
pub proof fn all_that_is_done_is_told(tt: TillText, ids: Seq<(Seq<char>, Seq<char>)>, i: int)
    requires
        0 <= i < ids.len(),
        ids[i].0.len() > 0,
        ids[i].1.len() > 0,
    ensures
        fulfilling_all(tt, ids).requests.contains(Request::Fulfill(ids[i].0, ids[i].1)),
        fulfilling_all(tt, ids).cards == tt.cards,
        forall|k: int|
            tt.requests.len() <= k < fulfilling_all(tt, ids).requests.len() ==> (
            #[trigger] fulfilling_all(tt, ids).requests[k]) is Fulfill,
    decreases ids.len(),
{
    let front = ids.drop_last();
    lemma_fulfills(tt, front);
    let before = fulfilling_all(tt, front).requests;
    let out = fulfilling_all(tt, ids).requests;
    let x = Request::Fulfill(ids[i].0, ids[i].1);
    assert(out == before || out == before.push(Request::Fulfill(ids.last().0, ids.last().1)));
    assert forall|k: int| tt.requests.len() <= k < out.len() implies (#[trigger] out[k]) is Fulfill by {
        if k < before.len() {
            assert(out[k] == before[k]);
        }
    }
    if i < front.len() {
        assert(front[i] == ids[i]);
        all_that_is_done_is_told(tt, front, i);
        let k = choose|k: int| 0 <= k < before.len() && before[k] == x;
        assert(out[k] == x);
    } else {
        assert(out[before.len() as int] == x);
    }
}

proof fn lemma_fulfills(tt: TillText, ids: Seq<(Seq<char>, Seq<char>)>)
    ensures
        tt.requests.len() <= fulfilling_all(tt, ids).requests.len(),
        fulfilling_all(tt, ids).cards == tt.cards,
        forall|k: int|
            tt.requests.len() <= k < fulfilling_all(tt, ids).requests.len() ==> (
            #[trigger] fulfilling_all(tt, ids).requests[k]) is Fulfill,
    decreases ids.len(),
{
    if ids.len() > 0 {
        let front = ids.drop_last();
        lemma_fulfills(tt, front);
        let before = fulfilling_all(tt, front).requests;
        let out = fulfilling_all(tt, ids).requests;
        assert forall|k: int| tt.requests.len() <= k < out.len() implies (
        #[trigger] out[k]) is Fulfill by {
            if k < before.len() {
                assert(out[k] == before[k]);
            }
        }
    }
}

/// An effect that was refused is paid back and its reason is said; one that worked is told to
/// Twitch as done and nothing is said any more. Its card stays exactly in the second case.
pub proof fn the_outcome_of_an_effect(
    tt: TillText,
    outcome: Result<(), crate::effects::Rejected>,
    reward_id: Seq<char>,
    redemption_id: Seq<char>,
    l: Locales,
)
    requires
        reward_id.len() > 0,
        redemption_id.len() > 0,
    ensures
        ({
            let out = after_effect(tt, outcome, reward_id, redemption_id, l);
            &&& out.requests.len() == tt.requests.len() + 1
            &&& outcome is Ok <==> out.requests.last() == Request::Fulfill(
                reward_id,
                redemption_id,
            )
            &&& outcome is Err <==> out.requests.last() == Request::Refund(
                reward_id,
                redemption_id,
            )
            &&& outcome is Ok ==> out.cards == tt.cards && out.notice is None
            &&& outcome is Err ==> out.notice is Some && forall|i: int|
                0 <= i < out.cards.len() ==> (#[trigger] out.cards[i]).redemption_id
                    != redemption_id
        }),
{
    let out = after_effect(tt, outcome, reward_id, redemption_id, l);
    assert(out.requests.last() == out.requests[out.requests.len() - 1]);
    match outcome {
        Err(why) => {
            a_refund_concerns_one_purchase(
                crate::till::noticing(tt, crate::i18n::translated(l, why.text())),
                reward_id,
                redemption_id,
            );
        },
        Ok(_) => {},
    }
}

// ---------------------------------------------------------------------------
// Time on a card
// ---------------------------------------------------------------------------

/// The card of an effect counts down to the very moment at which the effect ends, and stays up
/// for exactly that long; the card of an enemy who comes later counts down to when they come,
/// and stays up for that long and the time that every card has. All other cards have no time
/// of their own.
pub proof fn cards_keep_time_with_their_effects(action: Action, now: u64)
    requires
        now + 65_535_000_000_000 <= u64::MAX,
    ensures
        match action {
            Action::Effect { key, secs, .. } => match effect_named(key@) {
                Some(e) => group_of(e) is Some ==> {
                    &&& timing(Some(action), now).1 == Some(later(now, runs_for(e, secs)))
                    &&& timing(Some(action), now).0 is Some
                    &&& !timing(Some(action), now).0.unwrap().and_shared
                    &&& now + timing(Some(action), now).0.unwrap().secs * 1_000_000_000
                        == timing(Some(action), now).1.unwrap()
                },
                None => timing(Some(action), now) == (None::<CardLife>, None::<u64>),
            },
            Action::SpawnEnemy { delay_secs, .. } => {
                &&& delay_secs == 0 ==> timing(Some(action), now) == (
                    None::<CardLife>,
                    None::<u64>,
                )
                &&& delay_secs > 0 ==> {
                    &&& timing(Some(action), now).1 == Some(
                        (now + delay_secs * 1_000_000_000) as u64,
                    )
                    &&& timing(Some(action), now).0 == Some(
                        CardLife { secs: delay_secs, and_shared: true },
                    )
                }
            },
            _ => timing(Some(action), now) == (None::<CardLife>, None::<u64>),
        },
        timing(None, now) == (None::<CardLife>, None::<u64>),
{
    match action {
        Action::Effect { key, .. } => match effect_named(key@) {
            Some(e) => {
                the_table_is_well_formed(e, e);
            },
            None => {},
        },
        _ => {},
    }
}

proof fn lemma_kept(cs: Seq<Card>, alive: Seq<bool>, i: int)
    requires
        cs.len() == alive.len(),
        0 <= i < cs.len(),
    ensures
        alive[i] ==> kept_cards(cs, alive).contains(cs[i]),
    decreases cs.len(),
{
    let before = kept_cards(cs.drop_last(), alive.drop_last());
    let out = kept_cards(cs, alive);
    if i < cs.len() - 1 {
        lemma_kept(cs.drop_last(), alive.drop_last(), i);
        if alive[i] {
            assert(before.contains(cs.drop_last()[i]));
            let k = choose|k: int| 0 <= k < before.len() && before[k] == cs[i];
            assert(out[k] == cs[i]);
        }
    } else if alive[i] {
        assert(out[before.len() as int] == cs[i]);
    }
}

proof fn lemma_kept_comes_from(cs: Seq<Card>, alive: Seq<bool>, k: int) -> (i: int)
    requires
        cs.len() == alive.len(),
        0 <= k < kept_cards(cs, alive).len(),
    ensures
        0 <= i < cs.len(),
        alive[i],
        kept_cards(cs, alive)[k] == cs[i],
    decreases cs.len(),
{
    let before = kept_cards(cs.drop_last(), alive.drop_last());
    if k < before.len() {
        let i = lemma_kept_comes_from(cs.drop_last(), alive.drop_last(), k);
        i
    } else {
        cs.len() - 1
    }
}

/// Of the cards exactly those that are still up stay.
pub proof fn cards_that_are_up_stay(cs: Seq<Card>, alive: Seq<bool>, c: Card)
    requires
        cs.len() == alive.len(),
    ensures
        kept_cards(cs, alive).contains(c) <==> exists|i: int|
            0 <= i < cs.len() && #[trigger] cs[i] == c && alive[i],
{
    let out = kept_cards(cs, alive);
    if out.contains(c) {
        let k = choose|k: int| 0 <= k < out.len() && out[k] == c;
        let i = lemma_kept_comes_from(cs, alive, k);
        assert(cs[i] == c);
    }
    if exists|i: int| 0 <= i < cs.len() && #[trigger] cs[i] == c && alive[i] {
        let i = choose|i: int| 0 <= i < cs.len() && #[trigger] cs[i] == c && alive[i];
        lemma_kept(cs, alive, i);
    }
}

proof fn lemma_shown_again(tt: TillText, ids: Seq<Seq<char>>, on: bool, i: int)
    requires
        tt.enabled,
        0 <= i < ids.len(),
        ids[i].len() > 0,
    ensures
        enabling_all(tt, ids, on).requests.contains(Request::EnableReward(ids[i], on)),
        enabling_all(tt, ids, on).enabled,
    decreases ids.len(),
{
    let front = ids.drop_last();
    lemma_enabling_rest(tt, front, on);
    let before = enabling_all(tt, front, on).requests;
    let out = enabling_all(tt, ids, on).requests;
    let x = Request::EnableReward(ids[i], on);
    if i < front.len() {
        assert(front[i] == ids[i]);
        lemma_shown_again(tt, front, on, i);
        let k = choose|k: int| 0 <= k < before.len() && before[k] == x;
        assert(out[k] == x);
    } else {
        assert(out[before.len() as int] == x);
    }
}

proof fn lemma_enabling_rest(tt: TillText, ids: Seq<Seq<char>>, on: bool)
    ensures
        enabling_all(tt, ids, on).enabled == tt.enabled,
        !tt.enabled ==> enabling_all(tt, ids, on) == tt,
        tt.requests.len() <= enabling_all(tt, ids, on).requests.len(),
        forall|k: int|
            0 <= k < tt.requests.len() ==> #[trigger] enabling_all(tt, ids, on).requests[k]
                == tt.requests[k],
        forall|k: int|
            tt.requests.len() <= k < enabling_all(tt, ids, on).requests.len() ==> exists|i: int|
                0 <= i < ids.len() && #[trigger] enabling_all(tt, ids, on).requests[k]
                    == Request::EnableReward(#[trigger] ids[i], on),
    decreases ids.len(),
{
    if ids.len() > 0 {
        let front = ids.drop_last();
        lemma_enabling_rest(tt, front, on);
        let before = enabling_all(tt, front, on).requests;
        let out = enabling_all(tt, ids, on).requests;
        assert forall|k: int| tt.requests.len() <= k < out.len() implies exists|i: int|
            0 <= i < ids.len() && #[trigger] out[k] == Request::EnableReward(
                #[trigger] ids[i],
                on,
            ) by {
            if k < before.len() {
                assert(out[k] == before[k]);
                let i = choose|i: int|
                    0 <= i < front.len() && before[k] == Request::EnableReward(
                        #[trigger] front[i],
                        on,
                    );
                assert(ids[i] == front[i]);
            } else {
                assert(ids[ids.len() - 1] == ids.last());
            }
        }
    }
}

/// A reward whose cooldown is over is shown on Twitch again, and only such a reward is; while
/// Twitch is switched off nothing is asked.
pub proof fn rewards_come_back_after_their_cooldown(
    before: TillText,
    after: TillText,
    now: u64,
    id: u32,
)
    requires
        ended_cooldowns(before, after, now),
        before.cooling.contains_key(id),
        before.cooling[id].1.len() > 0,
    ensures
        (before.enabled && now >= before.cooling[id].0) ==> after.requests.contains(
            Request::EnableReward(before.cooling[id].1, true),
        ),
        now >= before.cooling[id].0 <==> !after.cooling.contains_key(id),
        now < before.cooling[id].0 ==> after.cooling[id] == before.cooling[id],
        !before.enabled ==> after.requests == before.requests,
        (forall|k: u32| #[trigger]
            before.cooling.contains_key(k) ==> now < before.cooling[k].0) ==> after.requests
            == before.requests,
{
    let start = TillText { cooling: still_cooling(before.cooling, now), ..before };
    let over = choose|over: Seq<(u32, Seq<char>)>| #[trigger]
        are_over(before.cooling, now, over) && after == enabling_all(start, ids_of(over), true);
    let ids = ids_of(over);
    crate::till_laws::showing_rewards_keeps_the_rest(start, ids, true);
    lemma_enabling_rest(start, ids, true);
    if now >= before.cooling[id].0 {
        assert(is_over(before.cooling, id, now));
        let i = choose|i: int| 0 <= i < over.len() && (#[trigger] over[i]).0 == id;
        assert(ids[i] == before.cooling[id].1);
        if before.enabled {
            lemma_shown_again(start, ids, true, i);
        }
    }
    if forall|k: u32| #[trigger] before.cooling.contains_key(k) ==> now < before.cooling[k].0 {
        if over.len() > 0 {
            assert(is_over(before.cooling, over[0].0, now));
        }
        assert(ids.len() == 0);
    }
}

// ---------------------------------------------------------------------------
// Blame
// ---------------------------------------------------------------------------

/// A death is a viewer's doing while an enemy they sent is alive, and for fifteen seconds
/// after they got in the way; a key always gets in the way, an effect if it does harm, and
/// sending an enemy does not by itself.
pub proof fn who_is_to_blame(any_alive: bool, meddled_at: Option<u64>, now: u64, a: Action)
    ensures
        blames_viewers(any_alive, meddled_at, now) <==> any_alive || (meddled_at is Some && now
            < meddled_at.unwrap() + 15_000_000_000),
        (a is Press || a is Hold) ==> meddles(a),
        a is SpawnEnemy ==> !meddles(a),
        a matches Action::Effect { key, .. } ==> (meddles(a) <==> effect_named(key@) is Some
            && effect_text(effect_named(key@).unwrap()).harmful),
{
}

/// An enemy may come whenever there is no boss fight, and during one only if the streamer
/// allows it.
pub proof fn enemies_and_boss_fights(spawn_in_boss: bool, boss_fight: bool)
    ensures
        !boss_fight ==> spawn_is_allowed(spawn_in_boss, boss_fight),
        boss_fight ==> (spawn_is_allowed(spawn_in_boss, boss_fight) <==> spawn_in_boss),
{
}

/// The turn of a purchase: enemies are asked for, effects are applied, and keys are all that
/// is done at once.
pub proof fn turns(a: Action)
    ensures
        step(a) == Step::Done <==> a is Press || a is Hold,
        step(a) == Step::Spawn <==> a is SpawnEnemy,
        step(a) == Step::Effect <==> a is Effect,
{
}

} // verus!
