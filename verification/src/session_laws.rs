//! What holds from frame to frame: the settings window, the page, the connection, what has
//! arrived, and the finished list of bosses.

use vstd::prelude::*;
use crate::boss_list::{
    all_rows, collapsed, is_list_of, is_merged, is_nameless, namesakes, one_each, row_keys, row_of,
    rows_sorted, with_gap, Gap, RowText,
};
use crate::bosses::Boss;
use crate::config::{lowercase, Config, ViewerSource};
use crate::frame::{
    after_page, asleep_play, closed, key_sought, puts_page_up, shows_sample_fight, toggled,
    Captured, KeyPress, Play,
};
use crate::frame_laws::{a_taken_list_is_listed, which_lists_are_taken};
use crate::hud::{has_begun, has_finished, has_handled, Event, Hud, Reply};
use crate::i18n::Locales;
use crate::labels::{cut_to_width, name_cut};
use crate::learned::{after_reading, forgotten, LoreText};
use crate::order::{arranged, every_item_is_placed, is_sorted_order};
use crate::panel::{is_line_kind, panel_placed, Content, DebugLine, PanelPin, Snapshot};
use crate::panel_laws::what_fits;
use crate::purchase_laws::{a_shown_card_is_the_newest, rests, what_is_carried_out};
use crate::rewards::{connection_news, link_after, published, reward_at, Link, Reward, Status};
use crate::scalar::Scalar;
use crate::text::trim_end;
use crate::till::{kept_cards, sweeping_cards, Request, TillText};
use crate::till_laws::ending_cooldowns_keeps_the_rest;
use crate::viewers::{after_block, on_channel, reblocked, CrowdText};

verus! {

// ---------------------------------------------------------------------------
// The settings window and the page
// ---------------------------------------------------------------------------

/// The settings window opens and closes by turns, and nothing else changes with it. Closed for
/// good it is closed, however it stood, and no reward waits for a key behind it.
pub proof fn the_window_opens_and_closes(p: Play)
    ensures
        toggled(p).settings_open != p.settings_open,
        toggled(toggled(p)) == p,
        toggled(p).web_started == p.web_started && toggled(p).was_dead == p.was_dead,
        !closed(p).settings_open,
        p.settings_open ==> closed(p).capture_key_for is None,
        !p.settings_open ==> closed(p) == p,
        closed(p).viewer_meddled_at == p.viewer_meddled_at,
        closed(p).was_dead == p.was_dead,
        closed(closed(p)) == closed(p),
{
}

/// While nothing is read nothing is played, and nothing else is forgotten.
pub proof fn asleep_nothing_is_played(p: Play)
    ensures
        !asleep_play(p).gameplay_active,
        asleep_play(p).settings_open == p.settings_open,
        asleep_play(p).web_started == p.web_started,
        asleep_play(p).was_dead == p.was_dead,
        asleep_play(p).viewer_meddled_at == p.viewer_meddled_at,
{
}

/// The page is put up once: on the first frame on which it is wanted and the game can be read,
/// and never again.
pub proof fn the_page_is_put_up_once(p: Play, wanted: bool, valid: bool, later: bool, again: bool)
    ensures
        puts_page_up(p, wanted, valid) ==> wanted && valid,
        (wanted && valid && !p.web_started) ==> puts_page_up(p, wanted, valid),
        puts_page_up(p, wanted, valid) ==> !puts_page_up(
            after_page(p, wanted, valid),
            later,
            again,
        ),
        !puts_page_up(p, wanted, valid) ==> after_page(p, wanted, valid) == p,
{
}

/// Where no reward waits, no key is looked for. Escape gives up. A reward that waits gets only a
/// key that is pressed, really down, and not the mod's own; and having got one it waits no
/// longer. Without such a key it goes on waiting.
pub proof fn which_key_a_reward_gets(
    before: Play,
    after: Play,
    escape: bool,
    keys: Seq<KeyPress>,
    own: Seq<Seq<char>>,
    r: Captured,
    k: int,
)
    requires
        key_sought(before, after, escape, keys, own, r),
    ensures
        before.capture_key_for is None ==> r is Cancelled && after == before,
        escape ==> r is Cancelled && after.capture_key_for is None,
        r matches Captured::Key(who, name) ==> before.capture_key_for == Some(who)
            && !own.contains(name@) && after.capture_key_for is None && exists|j: int|
            0 <= j < keys.len() && (#[trigger] keys[j]).name@ == name@ && keys[j].pressed
                && keys[j].down,
        r is Waiting ==> after == before,
        (!escape && before.capture_key_for is Some && 0 <= k < keys.len() && keys[k].pressed
            && keys[k].down && !own.contains(keys[k].name@)) ==> r is Key,
{
    if !escape && before.capture_key_for is Some && 0 <= k < keys.len() && keys[k].pressed
        && keys[k].down && !own.contains(keys[k].name@) {
        assert(crate::frame::key_offered(keys[k], own));
    }
}

/// A sample fight has a boss, at least three attempts, a minute and twenty-four seconds, and two
/// deaths; what was more stays, and the rest of the snapshot too.
pub proof fn what_a_sample_fight_shows(before: Snapshot, after: Snapshot, l: Locales)
    requires
        shows_sample_fight(before, after, l),
    ensures
        after.boss_name is Some,
        after.attempts >= 3 && after.attempts >= before.attempts,
        before.attempts >= 3 ==> after.attempts == before.attempts,
        after.attempt_secs >= 84 && after.attempt_secs >= before.attempt_secs,
        before.attempt_secs >= 84 ==> after.attempt_secs == before.attempt_secs,
        after.deaths_on_boss >= 2 && after.deaths_on_boss >= before.deaths_on_boss,
        before.deaths_on_boss >= 2 ==> after.deaths_on_boss == before.deaths_on_boss,
        after.deaths == before.deaths,
        after.valid == before.valid,
        after.boss_fight_active == before.boss_fight_active,
{
}

// ---------------------------------------------------------------------------
// The panel
// ---------------------------------------------------------------------------

/// A panel that is moved is no longer pinned: it stands where it was put, if it fits. One that
/// is not moved stays pinned to the edge, wherever the edge goes.
pub proof fn moving_undoes_the_pinning(
    before: PanelPin,
    after: PanelPin,
    at: (Scalar, Scalar),
    edge: (Scalar, Scalar),
    r: (Scalar, Scalar),
)
    requires
        panel_placed(before, after, at, edge, r),
    ensures
        ({
            let zero = Scalar { bits: 0 };
            let moved = at.0.below(before.x) || before.x.below(at.0) || at.1.below(before.y)
                || before.y.below(at.1);
            &&& (moved && zero.at_most(at.0) && at.0.at_most(edge.0)) ==> r.0 == at.0
                && !after.pinned_x
            &&& (moved && zero.at_most(at.1) && at.1.at_most(edge.1)) ==> r.1 == at.1
                && !after.pinned_y
            &&& (before.x == at.0 && before.y == at.1 && !at.0.is_nan() && !at.1.is_nan()
                && before.pinned_x) ==> r.0 == edge.0 && after.pinned_x
            &&& (before.x == at.0 && before.y == at.1 && !at.0.is_nan() && !at.1.is_nan()
                && before.pinned_y) ==> r.1 == edge.1 && after.pinned_y
            &&& edge.0.below(at.0) ==> r.0 == edge.0 && after.pinned_x
            &&& edge.1.below(at.1) ==> r.1 == edge.1 && after.pinned_y
            &&& moved ==> after.x == at.0 && after.y == at.1
        }),
{
}

/// There is a panel to draw exactly if there is a metric, a counter, or something of a fight.
pub proof fn when_there_is_something_to_show(c: Content)
    ensures
        c.shows_fight() ==> !c.shows_nothing(),
        c.items@.len() > 0 ==> !c.shows_nothing(),
        c.progress is Some ==> !c.shows_nothing(),
        (c.items@.len() == 0 && c.progress is None && !c.shows_fight()) ==> c.shows_nothing(),
        c.boss is Some ==> c.shows_fight(),
        c.fight@.len() > 0 ==> c.shows_fight(),
        (c.boss is None && c.fight@.len() == 0) ==> !c.shows_fight(),
{
}

/// Every line of raw values is shown, without its mark: a hash sign and a blank, or two blanks.
pub proof fn which_lines_are_headings(line: Seq<char>, rest: Seq<char>, r: DebugLine)
    requires
        is_line_kind(line, r),
    ensures
        line == seq!['#', ' '] + rest ==> (r matches DebugLine::Heading(s) && s@ == rest),
        line == seq![' ', ' '] + rest ==> (r matches DebugLine::Detail(s) && s@ == rest),
        (line.len() < 2 || line[1] != ' ') ==> (r matches DebugLine::Plain(s) && s@ == line),
{
    if line == seq!['#', ' '] + rest || line == seq![' ', ' '] + rest {
        assert(line.skip(2) =~= rest);
    }
}

/// A name is cut where that is asked for, and not with a limit of nothing.
pub proof fn when_a_name_is_cut(name: Seq<char>, max: int)
    requires
        max >= 0,
    ensures
        name_cut(name, 0) == name,
        name.len() <= max ==> name_cut(name, max) == name,
        (max > 0 && name.len() > max) ==> name_cut(name, max).len() == max + 3 && name_cut(
            name,
            max,
        ).take(max) == name.take(max),
{
    reveal_strlit("...");
    if max > 0 && name.len() > max {
        assert(name_cut(name, max).take(max) =~= name.take(max));
    }
}

/// A text that fits is whole. One that does not is the longest beginning that fits with the
/// dots, without blanks at its end.
pub proof fn how_a_text_is_cut_to_a_width(text: Seq<char>, too_wide: Seq<bool>, k: int)
    requires
        1 <= k <= too_wide.len() <= text.len(),
        forall|i: int| 0 <= i < k ==> !#[trigger] too_wide[i],
        k < too_wide.len() ==> too_wide[k],
    ensures
        cut_to_width(text, true, too_wide) == text,
        cut_to_width(text, false, too_wide) == trim_end(text.take(k - 1)) + seq!['.', '.', '.'],
{
    reveal_strlit("...");
    assert("..."@ =~= seq!['.', '.', '.']);
    what_fits(too_wide);
    let n = crate::labels::fitting(too_wide);
    if n < k {
        assert(!too_wide[n]);
    } else if k < n {
        assert(!too_wide[k]);
    }
}

// ---------------------------------------------------------------------------
// Names and viewers
// ---------------------------------------------------------------------------

/// Forgetting leaves no name, and reading the file again brings exactly what is in it, whatever
/// was known before.
pub proof fn forgetting_and_reading(s: LoreText, u: LoreText, text: Seq<char>, f: u32)
    ensures
        s.learned is Some ==> forgotten(s).learned is Some && !forgotten(
            s,
        ).learned.unwrap().contains_key(f),
        s.learned is None ==> forgotten(s) == s,
        after_reading(s, text).learned is Some,
        after_reading(s, text).learned == after_reading(u, text).learned,
        after_reading(forgotten(s), text).learned == after_reading(s, text).learned,
        after_reading(s, text).watched == s.watched,
        forgotten(s).watched == s.watched && forgotten(s).named == s.named,
{
}

/// Another channel has other viewers: none until its list comes, and every list is taken again.
/// The same channel changes nothing.
pub proof fn another_channel_has_other_viewers(
    t: CrowdText,
    channel: Option<Seq<char>>,
    source: ViewerSource,
    now: u64,
)
    ensures
        channel == t.channel ==> on_channel(t, channel) == t,
        channel != t.channel ==> {
            let u = on_channel(t, channel);
            &&& u.channel == channel
            &&& u.viewers.len() == 0
            &&& u.generation != t.generation
            &&& source != ViewerSource::App ==> crate::viewers::takes(u, false, source, now)
        },
        on_channel(on_channel(t, channel), channel) == on_channel(t, channel),
{
    which_lists_are_taken(on_channel(t, channel), false, source, now);
}

/// Whoever is blocked goes at once, all others stay, and the change can be seen.
pub proof fn the_blocked_go_at_once(t: CrowdText, block: Seq<Seq<char>>, name: Seq<char>)
    ensures
        reblocked(t, block).viewers.contains(name) <==> t.viewers.contains(name)
            && !block.contains(lowercase(name)),
        reblocked(t, block).generation != t.generation,
        reblocked(t, block).channel == t.channel,
        reblocked(t, block).full_at == t.full_at,
{
    a_taken_list_is_listed(
        CrowdText { full_at: None, ..t },
        t.viewers,
        true,
        ViewerSource::Auto,
        block,
        0,
        name,
    );
    which_lists_are_taken(CrowdText { full_at: None, ..t }, true, ViewerSource::Auto, 0);
    assert(after_block(t.viewers, block) == reblocked(t, block).viewers);
}

// ---------------------------------------------------------------------------
// The network
// ---------------------------------------------------------------------------

/// What is remembered of the connection is how it stands, and whether it ever stood.
pub proof fn what_is_remembered_of_the_connection(link: Link, status: Status)
    ensures
        link_after(link, status).was_connected <==> status is Connected,
        link.ever_connected ==> link_after(link, status).ever_connected,
        status is Connected ==> link_after(link, status).ever_connected,
        (!link.ever_connected && !(status is Connected)) ==> !link_after(
            link,
            status,
        ).ever_connected,
{
}

/// A reward that there is gets sent under its own number, one that there is not changes
/// nothing.
pub proof fn only_known_rewards_are_sent(
    tt: TillText,
    rs: Seq<Reward>,
    id: u32,
    mark: u64,
    l: Locales,
    k: int,
)
    requires
        0 <= k <= rs.len(),
        forall|i: int| 0 <= i < k ==> (#[trigger] rs[i]).id != id,
        k < rs.len() ==> rs[k].id == id,
    ensures
        k == rs.len() ==> published(tt, rs, id, mark, l) == tt,
        (k < rs.len() && rs[k].reward_id.len() == 0) ==> published(
            tt,
            rs,
            id,
            mark,
            l,
        ).requests.last() == Request::CreateReward(
            id,
            crate::text::trim(rs[k].reward_title),
            rs[k].cost,
            mark,
        ),
        (k < rs.len() && rs[k].reward_id.len() > 0) ==> published(
            tt,
            rs,
            id,
            mark,
            l,
        ).requests.last() == Request::UpdateReward(
            id,
            rs[k].reward_id,
            crate::text::trim(rs[k].reward_title),
            rs[k].cost,
            mark,
        ),
{
    lemma_reward_is_at(rs, id, k);
    if k < rs.len() {
        let r = Reward { id, ..rs[k] };
        crate::frame_laws::publishing_creates_or_changes(tt, r, mark, l);
    }
}

proof fn lemma_reward_is_at(rs: Seq<Reward>, id: u32, k: int)
    requires
        0 <= k <= rs.len(),
        forall|i: int| 0 <= i < k ==> (#[trigger] rs[i]).id != id,
        k < rs.len() ==> rs[k].id == id,
    ensures
        reward_at(rs, id) == k,
    decreases rs.len(),
{
    if k > 0 {
        let rest = rs.skip(1);
        assert(rs[0].id != id);
        assert forall|i: int| 0 <= i < k - 1 implies (#[trigger] rest[i]).id != id by {
            assert(rest[i] == rs[i + 1]);
        }
        if k < rs.len() {
            assert(rest[k - 1] == rs[k]);
        }
        lemma_reward_is_at(rest, id, k - 1);
    }
}

/// At the beginning of a frame the switch is the streamer's, the channel theirs, and the
/// connection as it stands. A change of it is told on the newest card; with none nothing is
/// shown. Rewards and play stay.
pub proof fn how_a_frame_begins(
    before: Hud,
    after: Hud,
    enabled: bool,
    channel: Option<Seq<char>>,
    status: Status,
    skip: Seq<Seq<char>>,
    now: u64,
    l: Locales,
    changed: bool,
)
    requires
        has_begun(before, after, enabled, channel, status, skip, now, l, changed),
    ensures
        changed <==> before.crowd.text().channel != channel,
        after.crowd.text().channel == channel,
        changed ==> after.crowd.text().viewers.len() == 0,
        !changed ==> after.crowd.text() == before.crowd.text(),
        after.link.was_connected <==> status is Connected,
        after.rewards == before.rewards,
        after.play == before.play,
        (before.link.was_connected == (status is Connected)) ==> after.till.text() == (TillText {
            enabled,
            ..before.till.text()
        }),
        (!before.link.was_connected && status is Connected) ==> {
            let cs = after.till.text().cards;
            &&& cs.len() > 0
            &&& cs.last().label == connection_news(
                false,
                before.link.ever_connected,
                status,
                l,
            ).unwrap()
            &&& cs.last().at == now
        },
{
    let tt = crate::rewards::after_status(
        TillText { enabled, ..before.till.text() },
        before.link,
        crate::rewards::reward_texts(before.rewards@),
        status,
        skip,
        l,
    );
    if !before.link.was_connected && status is Connected {
        let n = connection_news(false, before.link.ever_connected, status, l).unwrap();
        a_shown_card_is_the_newest(tt, crate::hud::news_card(n, now));
    }
}

/// What has arrived concerns what it is about: a purchase the till, a list of viewers the list,
/// news of a reward the rewards. A purchase is queued exactly if it is carried out, by how
/// things stood on the last frame.
pub proof fn what_has_arrived(
    before: Hud,
    after: Hud,
    event: Event,
    c: Config,
    now: u64,
    l: Locales,
    r: Reply,
)
    requires
        has_handled(before, after, event, c, now, l, r),
    ensures
        after.link == before.link && after.play == before.play,
        !(event is Redemption) ==> r != Reply::Queue,
        !(event is Reward) ==> r != Reply::Save && after.rewards == before.rewards,
        !(event is Chatters) ==> after.crowd == before.crowd,
        event is Chatters ==> after.till == before.till && r == Reply::Nothing,
        event matches Event::Redemption { purchase, found } ==> (r == Reply::Queue <==> {
            &&& found is Some
            &&& found.unwrap().enabled
            &&& before.play.gameplay_active
            &&& !before.play.in_hub_now
            &&& (before.play.boss_fight_now ==> found.unwrap().allowed_in_boss)
            &&& !rests(found.unwrap(), before.till.text().cooling, now)
        }),
{
    if event is Redemption {
        let found = event->found;
        what_is_carried_out(
            found,
            crate::hud::scene_of(before.play),
            before.till.text().cooling,
            now,
        );
    }
}

/// At the end of a frame the cards that are up stay, in their order, and no purchase is listed
/// or unlisted.
pub proof fn how_a_frame_ends(before: Hud, after: Hud, alive: Seq<bool>, arrived: bool, now: u64)
    requires
        has_finished(before, after, alive, arrived, now),
    ensures
        after.till.text().cards == kept_cards(before.till.text().cards, alive),
        after.till.text().log == before.till.text().log,
        after.till.text().notice == before.till.text().notice,
        arrived ==> after.till.text().dirty,
        before.till.text().dirty ==> after.till.text().dirty,
        after.crowd == before.crowd && after.rewards == before.rewards && after.link
            == before.link && after.play == before.play,
{
    let tt = choose|tt: TillText| #[trigger]
        crate::till::ended_cooldowns(before.till.text(), tt, now) && after.till.text()
            == sweeping_cards(tt, alive, arrived);
    ending_cooldowns_keeps_the_rest(before.till.text(), tt, now);
}

/// The page is told of a change when cards went or something arrived; if nothing did, it is
/// told nothing new.
pub proof fn when_the_page_is_told(tt: TillText, alive: Seq<bool>, arrived: bool)
    ensures
        arrived ==> sweeping_cards(tt, alive, arrived).dirty,
        sweeping_cards(tt, alive, arrived).cards.len() != tt.cards.len() ==> sweeping_cards(
            tt,
            alive,
            arrived,
        ).dirty,
        (!arrived && !tt.dirty && sweeping_cards(tt, alive, arrived).cards.len() == tt.cards.len())
            ==> !sweeping_cards(tt, alive, arrived).dirty,
        sweeping_cards(tt, alive, arrived).requests == tt.requests,
        sweeping_cards(tt, alive, arrived).cooling == tt.cooling,
{
}

// ---------------------------------------------------------------------------
// The finished list
// ---------------------------------------------------------------------------

/// Every boss of the registry is in the list, with his name, his location and his state.
pub proof fn every_boss_is_listed(
    bs: Seq<Boss>,
    gaps: Seq<Option<Gap>>,
    killed: Seq<bool>,
    my_place: Option<Seq<char>>,
    radius: Scalar,
    word: Seq<char>,
    out: Seq<RowText>,
    i: int,
)
    requires
        gaps.len() == bs.len(),
        killed.len() == bs.len(),
        is_list_of(all_rows(bs, gaps, killed, my_place, radius, word), out),
        0 <= i < bs.len(),
    ensures
        exists|k: int|
            {
                &&& 0 <= k < out.len()
                &&& (#[trigger] out[k]).killed == killed[i]
                &&& bs[i].name matches Some(n) ==> out[k].name == n@
                &&& bs[i].name is None ==> out[k].name == word
                &&& bs[i].place matches Some(p) ==> out[k].place == p@
                &&& out[k].count >= 1
            },
{
    let all = all_rows(bs, gaps, killed, my_place, radius, word);
    let sorted = choose|sorted: Seq<RowText>|
        rows_sorted(all, sorted) && out == #[trigger] collapsed(sorted) && one_each(sorted)
            && is_merged(sorted, out);
    let p = choose|p: Seq<usize>|
        is_sorted_order(row_keys(all), p) && sorted == #[trigger] arranged(all, p);
    every_item_is_placed(row_keys(all), p, i);
    let a = choose|a: int| 0 <= a < p.len() && #[trigger] p[a] == i;
    assert(sorted[a] == all[i]);
    assert(all[i] == row_of(bs[i], gaps[i], killed[i], my_place, radius, word));
    let k = choose|k: int| 0 <= k < out.len() && namesakes(sorted[a], #[trigger] out[k]);
    lemma_group_size(sorted, out[k], a);
    assert(out[k].killed == killed[i]);
}

proof fn lemma_group_size(rs: Seq<RowText>, r: RowText, a: int)
    requires
        0 <= a < rs.len(),
        namesakes(rs[a], r),
    ensures
        crate::boss_list::group_size(rs, r) >= 1,
    decreases rs.len(),
{
    let n: int = rs.len() - 1;
    assert(rs.last() == rs[n]);
    if a < n {
        assert(rs.drop_last()[a] == rs[a]);
        lemma_group_size(rs.drop_last(), r, a);
    }
}

/// A new distance changes the distance of its row and nothing else; where none could be
/// computed the last one stays.
pub proof fn distances_are_refreshed(r: RowText, gap: Option<Gap>)
    ensures
        with_gap(r, Some(gap)).gap == gap,
        with_gap(r, None) == r,
        with_gap(r, Some(gap)).name == r.name && with_gap(r, Some(gap)).place == r.place,
        with_gap(r, Some(gap)).killed == r.killed && with_gap(r, Some(gap)).count == r.count,
        with_gap(r, Some(gap)).here == r.here,
{
}

/// The registry is built until it has a name: not again once one boss has one.
pub proof fn when_the_registry_is_built(bs: Vec<Boss>, i: int)
    ensures
        is_nameless(None),
        bs@.len() == 0 ==> is_nameless(Some(bs)),
        (0 <= i < bs@.len() && bs@[i].name is Some) ==> !is_nameless(Some(bs)),
{
}

} // verus!
