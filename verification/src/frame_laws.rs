//! What a frame decides: when keys may be pressed, what is hidden, whom a death is counted
//! against, and who is in the chat.

use vstd::prelude::*;
use crate::boss_list::{nearest_told, RowText};
use crate::config::{lowercase, Config, ViewerSource};
use crate::frame::{
    after_action, after_seeing, counts_damage, demanded, is_hidden, is_published, names_over,
    nearest_is_set, playing, rekeyed, sleeps, wants_names, Play,
};
use crate::i18n::{translated, Locales};
use crate::list_laws::the_nearest_boss;
use crate::panel::Snapshot;
use crate::rewards::{
    after_event, after_status, connection_news, known_ids, mark_of, mark_texts, must_save,
    publishing, reward_at, sweeping, Link, Reward, RewardEvent, Status,
};
use crate::text::trim;
use crate::till::{enabling_all, meddles, Action, Request, TillText};
use crate::viewers::{emptied, takes, unblocked, updated, CrowdText};

verus! {

// ---------------------------------------------------------------------------
// A frame
// ---------------------------------------------------------------------------

/// Keys may be pressed for viewers exactly in ordinary play: the game is read, it has the
/// focus, and neither a menu nor a cutscene nor the settings window covers it.
pub proof fn when_play_goes_on(s: Snapshot, settings_open: bool, focused: bool)
    ensures
        playing(s, settings_open, focused) ==> s.valid && focused,
        (s.menu_open || s.in_cutscene || settings_open) ==> !playing(s, settings_open, focused),
        (s.valid && focused && !s.menu_open && !s.in_cutscene && !settings_open) ==> playing(
            s,
            settings_open,
            focused,
        ),
{
}

/// What a frame asks for: keys are let go when play is left and not otherwise; effects end on
/// the frame of a death and on no other; and that death is a viewer's while an enemy they sent
/// is alive, or for fifteen seconds after they got in the way.
pub proof fn what_a_frame_asks_for(p: Play, s: Snapshot, focused: bool, any_alive: bool, now: u64)
    ensures
        ({
            let d = demanded(p, s, focused, any_alive, now);
            let q = after_seeing(p, s, focused);
            &&& d.left_play <==> p.gameplay_active && !q.gameplay_active
            &&& d.dead <==> s.player_dead
            &&& d.died <==> q.was_dead && !p.was_dead
            &&& d.blame ==> d.died
            &&& (d.died && any_alive) ==> d.blame
            &&& (d.died && !any_alive && p.viewer_meddled_at is None) ==> !d.blame
            &&& (d.died && !any_alive && p.viewer_meddled_at is Some) ==> (d.blame <==> now
                < p.viewer_meddled_at.unwrap() + 15_000_000_000)
        }),
{
}

/// What is kept of a frame is what it showed; the settings window, the reward that waits for a
/// key and the moment of the last meddling stay.
pub proof fn what_is_kept_of_a_frame(p: Play, s: Snapshot, focused: bool)
    ensures
        ({
            let q = after_seeing(p, s, focused);
            &&& q.boss_fight_now == s.boss_fight_active
            &&& q.in_hub_now == s.in_hub
            &&& q.was_dead == s.player_dead
            &&& q.gameplay_active == playing(s, p.settings_open, focused)
            &&& q.settings_open == p.settings_open
            &&& q.viewer_meddled_at == p.viewer_meddled_at
            &&& q.capture_key_for == p.capture_key_for
            &&& q.web_started == p.web_started
        }),
{
}

/// A key that was bought and then a death within fifteen seconds: the death is a viewer's,
/// whatever else is going on. A death longer after, with no enemy of theirs alive, is not.
pub proof fn meddling_and_then_dying(
    p: Play,
    a: Action,
    now: u64,
    s: Snapshot,
    focused: bool,
    then: u64,
)
    requires
        a is Press || a is Hold,
        !p.was_dead,
        s.player_dead,
    ensures
        demanded(after_action(p, a, now), s, focused, false, then).blame <==> then < now
            + 15_000_000_000,
        after_action(p, a, now) == (Play { viewer_meddled_at: Some(now), ..p }),
{
}

/// What does no harm is not remembered as meddling.
pub proof fn gifts_are_not_meddling(p: Play, a: Action, now: u64)
    requires
        !meddles(a),
    ensures
        after_action(p, a, now) == p,
{
}

/// Damage counts outside menus and cutscenes, and nowhere else.
pub proof fn where_damage_counts(s: Snapshot)
    ensures
        counts_damage(s) <==> !(s.menu_open || s.in_cutscene),
{
}

/// The panel hides with the game's own: in a menu if that is set, in a cutscene if that is, and
/// never while the settings window is open.
pub proof fn when_the_panel_hides(settings_open: bool, c: Config, s: Snapshot)
    ensures
        settings_open ==> !is_hidden(settings_open, c, s),
        (!s.menu_open && !s.in_cutscene) ==> !is_hidden(settings_open, c, s),
        (!settings_open && s.menu_open && c.hide_in_menu) ==> is_hidden(settings_open, c, s),
        (!settings_open && s.in_cutscene && c.hide_in_cutscene) ==> is_hidden(
            settings_open,
            c,
            s,
        ),
        (s.menu_open && !s.in_cutscene && !c.hide_in_menu) ==> !is_hidden(settings_open, c, s),
        (s.in_cutscene && !s.menu_open && !c.hide_in_cutscene) ==> !is_hidden(settings_open, c, s),
{
}

/// Nothing is read only while both outputs, the raw values and the settings window are off.
pub proof fn when_everything_sleeps(c: Config, settings_open: bool)
    ensures
        (c.overlay_enabled || c.web_enabled || c.debug || settings_open) ==> !sleeps(
            c,
            settings_open,
        ),
        (!c.overlay_enabled && !c.web_enabled && !c.debug && !settings_open) ==> sleeps(
            c,
            settings_open,
        ),
{
}

/// The page shows a sample at once, and the game only when it has been readable and showable
/// for a while.
pub proof fn what_the_page_shows(valid: bool, warmed: bool, settled: bool)
    ensures
        is_published(valid, warmed, settled, true),
        is_published(valid, warmed, settled, false) ==> valid && warmed && settled,
        is_published(true, true, true, false),
{
}

/// Names are wanted over enemies if they are switched on, somebody is there to name them, and
/// no menu or cutscene is up. A buyer is enough.
pub proof fn when_names_are_wanted(c: Config, viewers: int, has_owners: bool, s: Snapshot)
    requires
        viewers >= 0,
    ensures
        !c.enemy_tags ==> !wants_names(c, viewers, has_owners, s),
        (s.menu_open || s.in_cutscene) ==> !wants_names(c, viewers, has_owners, s),
        (viewers == 0 && !has_owners) ==> !wants_names(c, viewers, has_owners, s),
        (c.enemy_tags && !s.menu_open && !s.in_cutscene && has_owners) ==> wants_names(
            c,
            viewers,
            has_owners,
            s,
        ),
        (c.enemy_tags && !s.menu_open && !s.in_cutscene && viewers >= 1) ==> wants_names(
            c,
            viewers,
            has_owners,
            s,
        ),
{
}

/// The panel points to the nearest living boss within its own radius, but not during a fight
/// and not while the line of a fight is still up.
pub proof fn where_the_panel_points(
    before: Snapshot,
    after: Snapshot,
    c: Config,
    rs: Seq<RowText>,
    k: int,
)
    requires
        nearest_is_set(before, after, c, rs),
        0 <= k < rs.len(),
    ensures
        (before.boss_fight_active || before.boss_name is Some || !c.show_nearest_boss)
            ==> after.nearest_boss == before.nearest_boss,
        (!before.boss_fight_active && before.boss_name is None && c.show_nearest_boss
            && !rs[k].killed && rs[k].gap is Some && rs[k].gap.unwrap().reach.at_most(
            c.nearest_radius,
        )) ==> after.nearest_boss is Some && exists|i: int|
            {
                &&& 0 <= i < rs.len()
                &&& !(#[trigger] rs[i]).killed
                &&& rs[i].name == after.nearest_boss.unwrap().name@
                &&& rs[i].gap is Some
                &&& rs[i].gap.unwrap().dist == after.nearest_boss.unwrap().dist
                &&& rs[i].gap.unwrap().dy == after.nearest_boss.unwrap().dy
                &&& rs[i].gap.unwrap().reach.at_most(rs[k].gap.unwrap().reach)
            },
{
    the_nearest_boss(rs, c.nearest_radius);
    if !before.boss_fight_active && before.boss_name is None && c.show_nearest_boss
        && !rs[k].killed && rs[k].gap is Some && rs[k].gap.unwrap().reach.at_most(
        c.nearest_radius,
    ) {
        let (name, dist, dy) = nearest_told(rs, c.nearest_radius).unwrap();
        let i = choose|i: int|
            {
                &&& 0 <= i < rs.len()
                &&& !(#[trigger] rs[i]).killed
                &&& rs[i].name == name
                &&& rs[i].gap is Some
                &&& rs[i].gap.unwrap().dist == dist
                &&& rs[i].gap.unwrap().dy == dy
                &&& rs[i].gap.unwrap().reach.at_most(c.nearest_radius)
                &&& forall|j: int|
                    0 <= j < rs.len() && !(#[trigger] rs[j]).killed && rs[j].gap is Some ==> {
                        &&& !rs[j].gap.unwrap().reach.below(rs[i].gap.unwrap().reach)
                        &&& j < i ==> !rs[j].gap.unwrap().reach.at_most(
                            rs[i].gap.unwrap().reach,
                        )
                    }
            };
        assert(!rs[i].killed);
    }
}

/// Whoever was bought carries the buyer's name, whoever was not what the rotation gave, and
/// nobody is labelled twice: the labels stand in the order of the enemies.
pub proof fn labels_follow_the_enemies(
    owners: Seq<Option<Seq<char>>>,
    names: Seq<Option<Seq<char>>>,
    n: int,
)
    requires
        0 <= n <= owners.len(),
    ensures
        forall|k: int|
            0 <= k < names_over(owners, names, n).len() ==> {
                let (i, name) = #[trigger] names_over(owners, names, n)[k];
                &&& 0 <= i < n
                &&& (owners[i] is Some ==> owners[i] == Some(name))
                &&& (owners[i] is None ==> i < names.len() && names[i] == Some(name))
            },
        forall|a: int, b: int|
            0 <= a < b < names_over(owners, names, n).len() ==> (#[trigger] names_over(
                owners,
                names,
                n,
            )[a]).0 < (#[trigger] names_over(owners, names, n)[b]).0,
        forall|i: int|
            0 <= i < n && #[trigger] owners[i] is None && i < names.len() && names[i] is Some
                ==> names_over(owners, names, n).contains((i, names[i].unwrap())),
        forall|i: int|
            0 <= i < n && #[trigger] owners[i] is Some ==> names_over(owners, names, n).contains(
                (i, owners[i].unwrap()),
            ),
    decreases n,
{
    if n > 0 {
        labels_follow_the_enemies(owners, names, n - 1);
        let before = names_over(owners, names, n - 1);
        let out = names_over(owners, names, n);
        assert forall|k: int| 0 <= k < out.len() implies ({
            let (i, name) = #[trigger] out[k];
            &&& 0 <= i < n
            &&& (owners[i] is Some ==> owners[i] == Some(name))
            &&& (owners[i] is None ==> i < names.len() && names[i] == Some(name))
        }) by {
            if k < before.len() {
                assert(out[k] == before[k]);
            }
        }
        assert forall|a: int, b: int| 0 <= a < b < out.len() implies (#[trigger] out[a]).0 < (
        #[trigger] out[b]).0 by {
            assert(out[a] == before[a]);
            if b < before.len() {
                assert(out[b] == before[b]);
            }
        }
        assert forall|i: int|
            0 <= i < n && #[trigger] owners[i] is None && i < names.len()
                && names[i] is Some implies out.contains((i, names[i].unwrap())) by {
            if i < n - 1 {
                assert(before.contains((i, names[i].unwrap())));
                let k = choose|k: int| 0 <= k < before.len() && before[k] == (i, names[i].unwrap());
                assert(out[k] == before[k]);
            } else {
                assert(out[before.len() as int] == (i, names[i].unwrap()));
            }
        }
        assert forall|i: int| 0 <= i < n && #[trigger] owners[i] is Some implies out.contains(
            (i, owners[i].unwrap()),
        ) by {
            if i < n - 1 {
                assert(before.contains((i, owners[i].unwrap())));
                let k = choose|k: int|
                    0 <= k < before.len() && before[k] == (i, owners[i].unwrap());
                assert(out[k] == before[k]);
            } else {
                assert(out[before.len() as int] == (i, owners[i].unwrap()));
            }
        }
    }
}

/// A new key goes to an action that presses or holds one, which otherwise stays what it is; an
/// action without a key does not change.
pub proof fn only_keys_are_replaced(a: Action, b: Action, key: Seq<char>)
    requires
        rekeyed(a, b, key),
    ensures
        a is Press ==> (b matches Action::Press { key: k } && k@ == key),
        a is Hold ==> (b matches Action::Hold { key: k, .. } && k@ == key),
        a matches Action::Hold { duration_ms: d, .. } ==> (b matches Action::Hold {
            duration_ms: e,
            ..
        } && e == d),
        (!(a is Press) && !(a is Hold)) ==> b == a,
{
}

// ---------------------------------------------------------------------------
// Who is in the chat
// ---------------------------------------------------------------------------

/// Which lists are taken: from the application alone, from the chat alone, or from both; but
/// one from the chat never within five minutes of a full one.
pub proof fn which_lists_are_taken(t: CrowdText, helix: bool, source: ViewerSource, now: u64)
    ensures
        ({
            let fresh = t.full_at is Some && now < t.full_at.unwrap() + 300_000_000_000;
            &&& (helix && source != ViewerSource::Chat) ==> takes(t, helix, source, now)
            &&& (helix && source == ViewerSource::Chat) ==> !takes(t, helix, source, now)
            &&& (!helix && source == ViewerSource::App) ==> !takes(t, helix, source, now)
            &&& (!helix && fresh) ==> !takes(t, helix, source, now)
            &&& (!helix && !fresh && source != ViewerSource::App) ==> takes(t, helix, source, now)
        }),
{
}

/// A list that is taken is the list of viewers, but for the blocked; its generation is another
/// one, and a full list is remembered as of now. A list that is not taken changes nothing.
pub proof fn a_taken_list_is_listed(
    t: CrowdText,
    list: Seq<Seq<char>>,
    helix: bool,
    source: ViewerSource,
    block: Seq<Seq<char>>,
    now: u64,
    name: Seq<char>,
)
    ensures
        ({
            let u = updated(t, list, helix, source, block, now);
            &&& !takes(t, helix, source, now) ==> u == t
            &&& takes(t, helix, source, now) ==> {
                &&& u.viewers.contains(name) <==> list.contains(name) && !block.contains(
                    lowercase(name),
                )
                &&& u.generation != t.generation
                &&& u.channel == t.channel
                &&& helix ==> u.full_at == Some(now)
                &&& !helix ==> u.full_at == t.full_at
            }
            &&& block.len() == 0 && takes(t, helix, source, now) ==> u.viewers == list
        }),
{
    lemma_unblocked_members(list, block, name);
    if block.len() == 0 {
        assert(!block.contains(lowercase(name)));
    }
}

proof fn lemma_unblocked_members(vs: Seq<Seq<char>>, block: Seq<Seq<char>>, name: Seq<char>)
    ensures
        unblocked(vs, block).contains(name) <==> vs.contains(name) && !block.contains(
            lowercase(name),
        ),
    decreases vs.len(),
{
    if vs.len() > 0 {
        let front = vs.drop_last();
        let n: int = vs.len() - 1;
        lemma_unblocked_members(front, block, name);
        let before = unblocked(front, block);
        let out = unblocked(vs, block);
        assert(vs[n] == vs.last());
        if out.contains(name) {
            let k = choose|k: int| 0 <= k < out.len() && out[k] == name;
            if k < before.len() {
                assert(before[k] == name);
                assert(before.contains(name));
                let i = choose|i: int| 0 <= i < front.len() && front[i] == name;
                assert(vs[i] == name);
            } else {
                assert(vs[n] == name);
            }
        }
        if vs.contains(name) && !block.contains(lowercase(name)) {
            let i = choose|i: int| 0 <= i < vs.len() && vs[i] == name;
            if i < n {
                assert(front[i] == name);
                assert(before.contains(name));
                let k = choose|k: int| 0 <= k < before.len() && before[k] == name;
                assert(out[k] == name);
            } else {
                assert(out[before.len() as int] == name);
            }
        }
    }
}

/// After everybody was forgotten nobody is listed, the change can be seen, and the very next
/// list from the chat is taken.
pub proof fn a_fresh_start(t: CrowdText, now: u64)
    ensures
        emptied(t).viewers.len() == 0,
        emptied(t).generation != t.generation,
        emptied(t).channel == t.channel,
        takes(emptied(t), false, ViewerSource::Auto, now),
        takes(emptied(t), false, ViewerSource::Chat, now),
{
}

// ---------------------------------------------------------------------------
// Rewards on Twitch
// ---------------------------------------------------------------------------

/// The rewards that Twitch knows: exactly those with an id, and if only those that are carried
/// out are asked for, of them those that are switched on.
pub proof fn which_rewards_are_known(rs: Seq<Reward>, enabled: bool, id: Seq<char>)
    ensures
        known_ids(rs, enabled).contains(id) <==> id.len() > 0 && exists|i: int|
            0 <= i < rs.len() && (#[trigger] rs[i]).reward_id == id && (enabled ==> rs[i].enabled),
    decreases rs.len(),
{
    if rs.len() > 0 {
        let front = rs.drop_last();
        let n: int = rs.len() - 1;
        which_rewards_are_known(front, enabled, id);
        let before = known_ids(front, enabled);
        let out = known_ids(rs, enabled);
        assert(rs[n] == rs.last());
        if out.contains(id) {
            let k = choose|k: int| 0 <= k < out.len() && out[k] == id;
            if k < before.len() {
                assert(before[k] == id);
                assert(before.contains(id));
                let i = choose|i: int|
                    0 <= i < front.len() && (#[trigger] front[i]).reward_id == id && (enabled
                        ==> front[i].enabled);
                assert(rs[i] == front[i]);
            } else {
                assert(rs[n].reward_id == id);
            }
        }
        if id.len() > 0 && exists|i: int|
            0 <= i < rs.len() && (#[trigger] rs[i]).reward_id == id && (enabled ==> rs[i].enabled) {
            let i = choose|i: int|
                0 <= i < rs.len() && (#[trigger] rs[i]).reward_id == id && (enabled
                    ==> rs[i].enabled);
            if i < n {
                assert(front[i] == rs[i]);
                assert(before.contains(id));
                let k = choose|k: int| 0 <= k < before.len() && before[k] == id;
                assert(out[k] == id);
            } else {
                assert(out[before.len() as int] == id);
            }
        }
    }
}

proof fn lemma_reward_at(rs: Seq<Reward>, id: u32)
    ensures
        0 <= reward_at(rs, id) <= rs.len(),
        reward_at(rs, id) < rs.len() ==> rs[reward_at(rs, id)].id == id,
        forall|i: int| 0 <= i < reward_at(rs, id) ==> (#[trigger] rs[i]).id != id,
    decreases rs.len(),
{
    if rs.len() > 0 && rs[0].id != id {
        lemma_reward_at(rs.skip(1), id);
        assert forall|i: int| 0 <= i < reward_at(rs, id) implies (#[trigger] rs[i]).id != id by {
            if i > 0 {
                assert(rs[i] == rs.skip(1)[i - 1]);
            }
        }
    }
}

proof fn lemma_mark_of(marks: Seq<(Seq<char>, u64)>, id: Seq<char>)
    ensures
        mark_of(marks, id) matches Some(m) ==> marks.contains((id, m)),
        mark_of(marks, id) is None ==> forall|i: int|
            0 <= i < marks.len() ==> (#[trigger] marks[i]).0 != id,
    decreases marks.len(),
{
    if marks.len() > 0 {
        if marks[0].0 == id {
            assert(marks[0] == (id, marks[0].1));
        } else {
            let rest = marks.skip(1);
            lemma_mark_of(rest, id);
            match mark_of(rest, id) {
                Some(m) => {
                    let k = choose|k: int| 0 <= k < rest.len() && rest[k] == (id, m);
                    assert(marks[k + 1] == (id, m));
                },
                None => {
                    assert forall|i: int| 0 <= i < marks.len() implies (#[trigger] marks[i]).0
                        != id by {
                        if i > 0 {
                            assert(marks[i] == rest[i - 1]);
                        }
                    }
                },
            }
        }
    }
}

/// What the network tells changes the reward that it is about and no other, and never its
/// number, title, price or switch: a reward that was created has its id and its mark, one that
/// was changed its mark, and after a look at Twitch every reward that is there has the mark it
/// has there. Whatever is changed is saved.
pub proof fn the_network_changes_what_it_is_about(
    rs: Seq<Reward>,
    e: RewardEvent,
    l: Locales,
    i: int,
)
    requires
        0 <= i < rs.len(),
        forall|a: int, b: int|
            0 <= a < b < rs.len() ==> (#[trigger] rs[a]).id != (#[trigger] rs[b]).id,
    ensures
        ({
            let out = after_event(rs, e, l).0;
            &&& out.len() == rs.len()
            &&& (out != rs ==> must_save(rs, e))
            &&& out[i].id == rs[i].id && out[i].reward_title == rs[i].reward_title && out[i].cost
                == rs[i].cost && out[i].enabled == rs[i].enabled
            &&& match e {
                RewardEvent::Created { local_id, reward_id, mark } => if rs[i].id == local_id {
                    out[i].reward_id == reward_id@ && out[i].synced == mark
                } else {
                    out[i] == rs[i]
                },
                RewardEvent::Updated { local_id, mark } => if rs[i].id == local_id {
                    out[i].reward_id == rs[i].reward_id && out[i].synced == mark
                } else {
                    out[i] == rs[i]
                },
                RewardEvent::Synced { marks } => {
                    &&& out[i].reward_id == rs[i].reward_id
                    &&& (rs[i].reward_id.len() == 0 || forall|k: int|
                        0 <= k < marks@.len() ==> (#[trigger] marks@[k]).0@ != rs[i].reward_id)
                        ==> out[i] == rs[i]
                    &&& (rs[i].reward_id.len() > 0 && exists|k: int|
                        0 <= k < marks@.len() && (#[trigger] marks@[k]).0@ == rs[i].reward_id)
                        ==> mark_texts(marks@).contains((rs[i].reward_id, out[i].synced))
                },
                _ => out == rs,
            }
        }),
{
    match e {
        RewardEvent::Created { local_id, .. } | RewardEvent::Updated { local_id, .. } => {
            lemma_reward_at(rs, local_id);
            let k = reward_at(rs, local_id);
            if rs[i].id == local_id {
                if k < i {
                    assert(rs[k].id != rs[i].id);
                } else if i < k {
                    assert(rs[i].id != local_id);
                }
            }
        },
        RewardEvent::Synced { marks } => {
            let ms = mark_texts(marks@);
            lemma_mark_of(ms, rs[i].reward_id);
            assert forall|k: int| 0 <= k < marks@.len() implies (#[trigger] marks@[k]).0@
                == ms[k].0 by {}
            if mark_of(ms, rs[i].reward_id) is Some {
                let m = mark_of(ms, rs[i].reward_id).unwrap();
                let k = choose|k: int| 0 <= k < ms.len() && ms[k] == (rs[i].reward_id, m);
                assert(marks@[k].0@ == rs[i].reward_id);
            } else if exists|k: int|
                0 <= k < marks@.len() && (#[trigger] marks@[k]).0@ == rs[i].reward_id {
                let k = choose|k: int|
                    0 <= k < marks@.len() && (#[trigger] marks@[k]).0@ == rs[i].reward_id;
                assert(ms[k].0 != rs[i].reward_id);
            }
        },
        _ => {},
    }
}

/// A reward is created on Twitch exactly if it has no id there yet; otherwise the one that is
/// there is changed. Either way its own trimmed title, price and mark are sent, and only that.
pub proof fn publishing_creates_or_changes(tt: TillText, r: Reward, mark: u64, l: Locales)
    ensures
        publishing(tt, r, mark, l).requests.len() == tt.requests.len() + 1,
        publishing(tt, r, mark, l).cards == tt.cards,
        publishing(tt, r, mark, l).notice is Some,
        r.reward_id.len() == 0 ==> publishing(tt, r, mark, l).requests.last()
            == Request::CreateReward(r.id, trim(r.reward_title), r.cost, mark),
        r.reward_id.len() > 0 ==> publishing(tt, r, mark, l).requests.last()
            == Request::UpdateReward(r.id, r.reward_id, trim(r.reward_title), r.cost, mark),
{
    let out = publishing(tt, r, mark, l).requests;
    assert(out.last() == out[out.len() - 1]);
}

/// When the connection comes up, all that was slept through is asked to be paid back, but for
/// what is about to be carried out; while it stays up, or is down, nothing is asked.
pub proof fn coming_back_pays_what_was_slept_through(
    tt: TillText,
    link: Link,
    rs: Seq<Reward>,
    status: Status,
    skip: Seq<Seq<char>>,
    l: Locales,
)
    ensures
        (!(status is Connected) || link.was_connected) ==> after_status(
            tt,
            link,
            rs,
            status,
            skip,
            l,
        ) == tt,
        (status is Connected && !link.was_connected && known_ids(rs, false).len() > 0)
            ==> after_status(tt, link, rs, status, skip, l).requests.contains(
            Request::SweepUnfulfilled(known_ids(rs, false), skip),
        ),
{
    if status is Connected && !link.was_connected && known_ids(rs, false).len() > 0 {
        let s = sweeping(tt, rs, skip);
        let ids = known_ids(rs, true);
        lemma_requests_stay(s, ids, true);
        let x = Request::SweepUnfulfilled(known_ids(rs, false), skip);
        assert(s.requests[tt.requests.len() as int] == x);
        assert(enabling_all(s, ids, true).requests[tt.requests.len() as int] == x);
    }
}

proof fn lemma_requests_stay(tt: TillText, ids: Seq<Seq<char>>, on: bool)
    ensures
        tt.requests.len() <= enabling_all(tt, ids, on).requests.len(),
        forall|k: int|
            0 <= k < tt.requests.len() ==> #[trigger] enabling_all(tt, ids, on).requests[k]
                == tt.requests[k],
    decreases ids.len(),
{
    if ids.len() > 0 {
        lemma_requests_stay(tt, ids.drop_last(), on);
    }
}

/// What is said of the connection: that it is there when it comes up for the first time, that
/// it is back when it was there before, and that it is lost when it goes down by itself.
pub proof fn what_is_said_of_the_connection(was: bool, ever: bool, now: Status, l: Locales)
    ensures
        (!was && now is Connected && !ever) ==> connection_news(was, ever, now, l) == Some(
            translated(l, "Twitch connected"@),
        ),
        (!was && now is Connected && ever) ==> connection_news(was, ever, now, l) == Some(
            translated(l, "Twitch connection restored"@),
        ),
        (was && (now is Error || now is Connecting || now is NotConfigured)) ==> connection_news(
            was,
            ever,
            now,
            l,
        ) == Some(translated(l, "Twitch connection lost"@)),
        (was && now is Disabled) ==> connection_news(was, ever, now, l) is None,
        (was == (now is Connected)) ==> connection_news(was, ever, now, l) is None,
{
}

} // verus!
