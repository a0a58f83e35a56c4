//! What is decided anew on every frame: whether the game is being played, what is shown, and
//! which names stand over enemies.

use vstd::prelude::*;
use crate::boss_list::{nearest, nearest_row, nearest_told, row_texts, Row, RowText};
use crate::bosses::opt_text;
use crate::config::Config;
use crate::i18n::{t, translated, Locales};
use crate::nicknames::given;
use crate::panel::{NearestBoss, Snapshot};
use crate::tags::{has_label, Tag};
use crate::text::{has_text, lines, lines_of, runs, string_of, texts};
use crate::till::{meddles, meddles_with_play, viewer_to_blame, Action, Scene};

verus! {

/// What is kept from frame to frame.
pub struct Play {
    /// The settings window is open.
    pub settings_open: bool,
    /// A fight with a boss is going on.
    pub boss_fight_now: bool,
    /// The player is in Roundtable Hold.
    pub in_hub_now: bool,
    /// Ordinary play: no menu, no cutscene, and the game in front.
    pub gameplay_active: bool,
    /// The player was dead a frame ago.
    pub was_dead: bool,
    /// When a viewer last got in the way of playing.
    pub viewer_meddled_at: Option<u64>,
    /// The reward that waits for a key.
    pub capture_key_for: Option<u32>,
    /// The page was put up; that happens once.
    pub web_started: bool,
}

/// What a frame asks for.
#[derive(Clone, Copy, Debug, PartialEq, Eq, Structural)]
pub struct Demands {
    /// Play was left: keys are let go, and what is waiting is paid back.
    pub left_play: bool,
    /// The player is dead: enemies who have not come yet are paid back.
    pub dead: bool,
    /// The player has just died: effects end.
    pub died: bool,
    /// That death is counted as a viewer's.
    pub blame: bool,
}

/// Ordinary play, in which keys may be pressed: the game can be read, nothing covers it, and
/// it has the focus, because a key press goes to whatever window has it.
pub open spec fn playing(s: Snapshot, settings_open: bool, focused: bool) -> bool {
    s.valid && !s.menu_open && !s.in_cutscene && !settings_open && focused
}

/// Whether a death now is a viewer's: an enemy they sent is alive, or they have just got in
/// the way.
pub open spec fn blamed(any_alive: bool, meddled_at: Option<u64>, now: u64) -> bool {
    any_alive || (meddled_at is Some && now < meddled_at.unwrap()
        + crate::till::VIEWER_BLAME_WINDOW)
}

/// Whether everything is switched off, so that nothing is read.
pub open spec fn sleeps(c: Config, settings_open: bool) -> bool {
    !c.overlay_enabled && !c.web_enabled && !c.debug && !settings_open
}

/// What is kept of a frame.
pub open spec fn after_seeing(p: Play, s: Snapshot, focused: bool) -> Play {
    Play {
        boss_fight_now: s.boss_fight_active,
        in_hub_now: s.in_hub,
        gameplay_active: playing(s, p.settings_open, focused),
        was_dead: s.player_dead,
        ..p
    }
}

/// The settings window opens, or closes.
pub open spec fn toggled(p: Play) -> Play {
    Play { settings_open: !p.settings_open, ..p }
}

/// The settings window is closed; what waits for a key waits no longer.
pub open spec fn closed(p: Play) -> Play {
    if p.settings_open {
        Play { settings_open: false, capture_key_for: None, ..p }
    } else {
        p
    }
}

/// Nothing is read on this frame.
pub open spec fn asleep_play(p: Play) -> Play {
    Play { gameplay_active: false, ..p }
}

/// The page is put up on this frame.
pub open spec fn puts_page_up(p: Play, web_enabled: bool, valid: bool) -> bool {
    web_enabled && !p.web_started && valid
}

/// What is kept of putting the page up.
pub open spec fn after_page(p: Play, web_enabled: bool, valid: bool) -> Play {
    Play { web_started: p.web_started || puts_page_up(p, web_enabled, valid), ..p }
}

/// What is kept of an action that is carried out.
pub open spec fn after_action(p: Play, a: Action, now: u64) -> Play {
    Play {
        viewer_meddled_at: if meddles(a) {
            Some(now)
        } else {
            p.viewer_meddled_at
        },
        ..p
    }
}

/// Whether damage counts for the rune exchange.
pub open spec fn counts_damage(s: Snapshot) -> bool {
    !s.menu_open && !s.in_cutscene
}

/// Whether the panel is hidden because the game hides its own.
pub open spec fn is_hidden(settings_open: bool, c: Config, s: Snapshot) -> bool {
    !settings_open && ((c.hide_in_menu && s.menu_open) || (c.hide_in_cutscene && s.in_cutscene))
}

/// Whether the page shows the snapshot.
pub open spec fn is_published(
    valid: bool,
    warmed: bool,
    settled: bool,
    preview_fight: bool,
) -> bool {
    preview_fight || (valid && warmed && settled)
}

/// Whether there are names to be put over enemies.
pub open spec fn wants_names(c: Config, viewers: int, has_owners: bool, s: Snapshot) -> bool {
    c.enemy_tags && (viewers > 0 || has_owners) && !s.menu_open && !s.in_cutscene
}

/// The nearest boss has been put into the snapshot, or it was not the time for it.
pub open spec fn nearest_is_set(
    before: Snapshot,
    after: Snapshot,
    c: Config,
    rs: Seq<RowText>,
) -> bool {
    if c.show_nearest_boss && !before.boss_fight_active && before.boss_name is None {
        nearest_told(rs, c.nearest_radius) == match after.nearest_boss {
            Some(n) => Some((n.name@, n.dist, n.dy)),
            None => None,
        }
    } else {
        after.nearest_boss == before.nearest_boss
    }
}

/// What a frame asks for.
pub open spec fn demanded(p: Play, s: Snapshot, focused: bool, any_alive: bool, now: u64) -> Demands {
    let died: bool = s.player_dead && !p.was_dead;
    Demands {
        left_play: p.gameplay_active && !playing(s, p.settings_open, focused),
        dead: s.player_dead,
        died,
        blame: died && blamed(any_alive, p.viewer_meddled_at, now),
    }
}

impl Play {
    /// Nothing has happened yet.
    pub fn new() -> (r: Play)
        ensures
            r == (Play {
                settings_open: false,
                boss_fight_now: false,
                in_hub_now: false,
                gameplay_active: false,
                was_dead: false,
                viewer_meddled_at: None,
                capture_key_for: None,
                web_started: false,
            }),
    {
        Play {
            settings_open: false,
            boss_fight_now: false,
            in_hub_now: false,
            gameplay_active: false,
            was_dead: false,
            viewer_meddled_at: None,
            capture_key_for: None,
            web_started: false,
        }
    }

    /// What purchases that arrive before the next frame are judged by.
    pub fn scene(&self) -> (r: Scene)
        ensures
            r == (Scene {
                gameplay: self.gameplay_active,
                in_hub: self.in_hub_now,
                boss_fight: self.boss_fight_now,
            }),
    {
        Scene {
            gameplay: self.gameplay_active,
            in_hub: self.in_hub_now,
            boss_fight: self.boss_fight_now,
        }
    }

    /// The key of the settings window was pressed. Returns whether the window is open now:
    /// then the cursor is set free, and otherwise the input is given back to the game.
    pub fn toggle_settings(&mut self) -> (r: bool)
        ensures
            r == final(self).settings_open,
            *final(self) == toggled(*old(self)),
    {
        self.settings_open = !self.settings_open;
        self.settings_open
    }

    /// The settings window was closed from within. Returns whether it was open, so that the
    /// input has to be given back. No reward waits for a key after that: the next opening
    /// would give it the first key pressed.
    pub fn close_settings(&mut self) -> (r: bool)
        ensures
            r == old(self).settings_open,
            *final(self) == closed(*old(self)),
    {
        if !self.settings_open {
            return false;
        }
        self.settings_open = false;
        self.capture_key_for = None;
        true
    }

    /// Whether everything is switched off, so that nothing is read. An open settings window
    /// keeps it going: nothing could be switched on again otherwise.
    pub fn asleep(&self, c: &Config) -> (r: bool)
        ensures
            r == sleeps(*c, self.settings_open),
    {
        !c.overlay_enabled && !c.web_enabled && !c.debug && !self.settings_open
    }

    /// Everything was switched off: nothing is being played.
    pub fn sleep(&mut self)
        ensures
            *final(self) == asleep_play(*old(self)),
    {
        self.gameplay_active = false;
    }

    /// Takes a frame in. `any_alive` tells whether an enemy whom a viewer sent is in the
    /// world.
    pub fn see(&mut self, s: &Snapshot, focused: bool, any_alive: bool, now: u64) -> (r: Demands)
        ensures
            r == demanded(*old(self), *s, focused, any_alive, now),
            *final(self) == after_seeing(*old(self), *s, focused),
    {
        self.boss_fight_now = s.boss_fight_active;
        self.in_hub_now = s.in_hub;
        let was_active: bool = self.gameplay_active;
        self.gameplay_active = s.valid && !s.menu_open && !s.in_cutscene && !self.settings_open
            && focused;
        let died: bool = s.player_dead && !self.was_dead;
        let blame: bool = died && viewer_to_blame(any_alive, self.viewer_meddled_at, now);
        self.was_dead = s.player_dead;
        Demands { left_play: was_active && !self.gameplay_active, dead: s.player_dead, died, blame }
    }

    /// A purchase or a trial is carried out now: one that gets in the way is remembered.
    pub fn note_meddling(&mut self, action: &Action, now: u64)
        ensures
            *final(self) == after_action(*old(self), *action, now),
    {
        if meddles_with_play(action) {
            self.viewer_meddled_at = Some(now);
        }
    }

    /// Whether the page has to be put up now: once, and only after the game could be read.
    pub fn starts_web(&mut self, web_enabled: bool, valid: bool) -> (r: bool)
        ensures
            r == puts_page_up(*old(self), web_enabled, valid),
            *final(self) == after_page(*old(self), web_enabled, valid),
    {
        if web_enabled && !self.web_started && valid {
            self.web_started = true;
            return true;
        }
        false
    }
}

/// Whether damage counts for the rune exchange: not in menus and cutscenes, where the game
/// takes enemies away by the dozen.
pub fn damage_counts(s: &Snapshot) -> (r: bool)
    ensures
        r == counts_damage(*s),
{
    !s.menu_open && !s.in_cutscene
}

/// Whether the panel is hidden because the game hides its own: in menus and cutscenes, as
/// the settings say, but never while the settings window is open.
pub fn suppressed(settings_open: bool, c: &Config, s: &Snapshot) -> (r: bool)
    ensures
        r == is_hidden(settings_open, *c, *s),
{
    !settings_open && ((c.hide_in_menu && s.menu_open) || (c.hide_in_cutscene && s.in_cutscene))
}

// ---------------------------------------------------------------------------
// The snapshot
// ---------------------------------------------------------------------------

/// Puts the nearest boss into the snapshot, unless a fight is going on or its line is still
/// up: then the boss that counts is the one in front.
pub fn set_nearest(s: &mut Snapshot, c: &Config, rows: &Vec<Row>)
    ensures
        *final(s) == (Snapshot { nearest_boss: final(s).nearest_boss, ..*old(s) }),
        nearest_is_set(*old(s), *final(s), *c, row_texts(rows@)),
        if c.show_nearest_boss && !old(s).boss_fight_active && old(s).boss_name is None {
            match nearest_row(row_texts(rows@), c.nearest_radius, rows@.len() as int) {
                Some(k) => {
                    &&& final(s).nearest_boss is Some
                    &&& final(s).nearest_boss.unwrap().name@ == rows@[k].name@
                    &&& rows@[k].gap is Some
                    &&& final(s).nearest_boss.unwrap().dist == rows@[k].gap.unwrap().dist
                    &&& final(s).nearest_boss.unwrap().dy == rows@[k].gap.unwrap().dy
                },
                None => final(s).nearest_boss is None,
            }
        } else {
            final(s).nearest_boss == old(s).nearest_boss
        },
{
    if c.show_nearest_boss && !s.boss_fight_active && s.boss_name.is_none() {
        s.nearest_boss = match nearest(rows, c.nearest_radius) {
            Some((name, dist, dy)) => Some(NearestBoss { name, dist, dy }),
            None => None,
        };
    }
}

/// The names of the bosses being fought, one on each line.
pub fn fight_names(boss_name: &str) -> (r: Vec<String>)
    ensures
        texts(r@) == lines(boss_name@),
{
    let ls: Vec<Vec<char>> = lines_of(boss_name);
    let mut r: Vec<String> = Vec::new();
    for i in 0..ls.len()
        invariant
            r@.len() == i,
            forall|j: int| 0 <= j < i ==> (#[trigger] r@[j])@ == ls@[j]@,
    {
        r.push(string_of(&ls[i]));
    }
    assert(texts(r@) == runs(ls@));
    r
}

/// The larger of two numbers.
pub open spec fn at_least(n: int, least: int) -> int {
    if n < least {
        least
    } else {
        n
    }
}

/// A sample fight has been put into a snapshot.
pub open spec fn shows_sample_fight(before: Snapshot, after: Snapshot, l: Locales) -> bool {
    &&& opt_text(after.boss_name) == Some(translated(l, "Margit, the Fell Omen"@))
    &&& after.attempts == at_least(before.attempts as int, 3)
    &&& after.attempt_secs == at_least(before.attempt_secs as int, 84)
    &&& after.deaths_on_boss == at_least(before.deaths_on_boss as int, 2)
    &&& after == (Snapshot {
        boss_name: after.boss_name,
        attempts: after.attempts,
        attempt_secs: after.attempt_secs,
        deaths_on_boss: after.deaths_on_boss,
        ..before
    })
}

/// Puts a sample fight into a snapshot, so that the settings of the fight's lines can be
/// seen without one.
pub fn demo_fight(s: &mut Snapshot, locales: &Locales)
    ensures
        shows_sample_fight(*old(s), *final(s), *locales),
{
    s.boss_name = Some(t(locales, "Margit, the Fell Omen"));
    if s.attempts < 3 {
        s.attempts = 3;
    }
    if s.attempt_secs < 84 {
        s.attempt_secs = 84;
    }
    if s.deaths_on_boss < 2 {
        s.deaths_on_boss = 2;
    }
}

/// Whether the page shows the snapshot: it waits, as the panel does, until the game has been
/// readable and showable for a while, but not while a sample is being looked at.
pub fn published_valid(valid: bool, warmed: bool, settled: bool, preview_fight: bool) -> (r: bool)
    ensures
        r == is_published(valid, warmed, settled, preview_fight),
{
    preview_fight || (valid && warmed && settled)
}

// ---------------------------------------------------------------------------
// Names over enemies
// ---------------------------------------------------------------------------

/// Whether there are names to be put over enemies: some viewer is there, or an enemy was
/// bought, who carries the buyer's name even without a chat.
pub fn names_wanted(c: &Config, viewers: usize, has_owners: bool, s: &Snapshot) -> (r: bool)
    ensures
        r == wants_names(*c, viewers as int, has_owners, *s),
{
    c.enemy_tags && (viewers > 0 || has_owners) && !s.menu_open && !s.in_cutscene
}

/// The labels with those of bosses who have none yet.
pub open spec fn with_bosses(tags: Seq<Tag>, bosses: Seq<Tag>) -> Seq<Tag>
    decreases bosses.len(),
{
    if bosses.len() == 0 {
        tags
    } else {
        let before: Seq<Tag> = with_bosses(tags, bosses.drop_last());
        if has_label(before, bosses.last().handle) {
            before
        } else {
            before.push(bosses.last())
        }
    }
}

/// Adds the labels of bosses. A bought boss may have one already.
pub fn add_boss_tags(tags: &mut Vec<Tag>, bosses: &Vec<Tag>)
    ensures
        final(tags)@ == with_bosses(old(tags)@, bosses@),
{
    assert(bosses@.take(0) == Seq::<Tag>::empty());
    for i in 0..bosses.len()
        invariant
            tags@ == with_bosses(old(tags)@, bosses@.take(i as int)),
    {
        let b: Tag = bosses[i];
        proof {
            assert(bosses@.take(i + 1).drop_last() == bosses@.take(i as int));
            assert(bosses@.take(i + 1).last() == b);
        }
        let mut seen: bool = false;
        for k in 0..tags.len()
            invariant
                seen == exists|j: int| 0 <= j < k && (#[trigger] tags@[j]).handle == b.handle,
        {
            if tags[k].handle == b.handle {
                seen = true;
            }
        }
        if !seen {
            tags.push(b);
        }
    }
    assert(bosses@.take(bosses@.len() as int) == bosses@);
}

/// The name over an enemy: that of the buyer, else the one the rotation gave.
pub open spec fn name_over(
    owners: Seq<Option<Seq<char>>>,
    names: Seq<Option<Seq<char>>>,
    i: int,
) -> Option<Seq<char>> {
    if owners[i] is Some {
        owners[i]
    } else if i < names.len() {
        names[i]
    } else {
        None
    }
}

/// The names over the first `n` enemies, each with its enemy; an enemy without one gets no
/// label.
pub open spec fn names_over(
    owners: Seq<Option<Seq<char>>>,
    names: Seq<Option<Seq<char>>>,
    n: int,
) -> Seq<(int, Seq<char>)>
    decreases n,
{
    if n <= 0 {
        Seq::empty()
    } else {
        let before: Seq<(int, Seq<char>)> = names_over(owners, names, n - 1);
        match name_over(owners, names, n - 1) {
            Some(s) => before.push((n - 1, s)),
            None => before,
        }
    }
}

pub open spec fn label_texts(v: Seq<(usize, String)>) -> Seq<(int, Seq<char>)> {
    v.map_values(|p: (usize, String)| (p.0 as int, p.1@))
}

/// The names over the enemies that are visible, each with the number of its enemy. `owners`
/// are the buyers of the enemies, `names` what the rotation gave, which may be nothing at
/// all.
pub fn tag_names(owners: &Vec<Option<String>>, names: &Vec<Option<String>>) -> (r: Vec<
    (usize, String),
>)
    ensures
        label_texts(r@) == names_over(given(owners@), given(names@), owners@.len() as int),
{
    let mut r: Vec<(usize, String)> = Vec::new();
    assert(label_texts(r@) == names_over(given(owners@), given(names@), 0));
    for i in 0..owners.len()
        invariant
            label_texts(r@) == names_over(given(owners@), given(names@), i as int),
    {
        let ghost was = r@;
        let name: Option<String> = match &owners[i] {
            Some(o) => Some(o.clone()),
            None => if i < names.len() {
                match &names[i] {
                    Some(n) => Some(n.clone()),
                    None => None,
                }
            } else {
                None
            },
        };
        proof {
            assert(given(owners@)[i as int] == match owners@[i as int] {
                Some(o) => Some(o@),
                None => None,
            });
            if i < names@.len() {
                assert(given(names@)[i as int] == match names@[i as int] {
                    Some(o) => Some(o@),
                    None => None,
                });
            }
            assert(opt_text(name) == name_over(given(owners@), given(names@), i as int));
        }
        match name {
            Some(n) => {
                let ghost text = n@;
                r.push((i, n));
                assert(label_texts(r@) == label_texts(was).push((i as int, text)));
            },
            None => {},
        }
    }
    r
}

// ---------------------------------------------------------------------------
// A key for a reward
// ---------------------------------------------------------------------------

/// A key that the mod can press: its name, whether it was pressed on this frame, and whether
/// the keyboard really holds it down. After the window has lost the focus a key may seem
/// pressed for good.
pub struct KeyPress {
    pub name: String,
    pub pressed: bool,
    pub down: bool,
}

/// A key that may be given to a reward now; one of the mod's own may not.
pub open spec fn key_offered(k: KeyPress, own: Seq<Seq<char>>) -> bool {
    !own.contains(k.name@) && k.pressed && k.down
}

/// What became of waiting for a key.
pub enum Captured {
    /// It goes on.
    Waiting,
    /// It was given up, or no reward waits.
    Cancelled,
    /// The reward with this number gets the key.
    Key(u32, String),
}

/// What comes of looking for a key.
pub open spec fn key_sought(
    before: Play,
    after: Play,
    escape: bool,
    keys: Seq<KeyPress>,
    own: Seq<Seq<char>>,
    r: Captured,
) -> bool {
    match before.capture_key_for {
        None => r is Cancelled && after == before,
        Some(id) => {
            &&& escape ==> r is Cancelled
            &&& (r is Waiting) == (!escape && forall|j: int|
                0 <= j < keys.len() ==> !key_offered(#[trigger] keys[j], own))
            &&& (!escape && !(r is Waiting)) ==> exists|j: int|
                {
                    &&& 0 <= j < keys.len()
                    &&& key_offered(#[trigger] keys[j], own)
                    &&& r matches Captured::Key(who, name) && who == id && name@ == keys[j].name@
                    &&& forall|i: int| 0 <= i < j ==> !key_offered(#[trigger] keys[i], own)
                }
            &&& after == (Play {
                capture_key_for: if r is Waiting {
                    Some(id)
                } else {
                    None
                },
                ..before
            })
        },
    }
}

impl Play {
    /// Looks for the key that a reward waits for. Escape gives it up, and the mod's own keys do
    /// not count: a purchase would open its windows in place of acting in the game.
    pub fn capture_key(
        &mut self,
        escape: bool,
        keys: &Vec<KeyPress>,
        own_keys: &Vec<String>,
    ) -> (r: Captured)
        ensures
            key_sought(*old(self), *final(self), escape, keys@, texts(own_keys@), r),
    {
        let id: u32 = match self.capture_key_for {
            Some(id) => id,
            None => {
                return Captured::Cancelled;
            },
        };
        if escape {
            self.capture_key_for = None;
            return Captured::Cancelled;
        }
        for i in 0..keys.len()
            invariant
                !escape,
                *self == *old(self),
                self.capture_key_for == Some(id),
                forall|j: int|
                    0 <= j < i ==> !key_offered(#[trigger] keys@[j], texts(own_keys@)),
        {
            if !has_text(own_keys, &keys[i].name) && keys[i].pressed && keys[i].down {
                assert(key_offered(keys@[i as int], texts(own_keys@)));
                self.capture_key_for = None;
                return Captured::Key(id, keys[i].name.clone());
            }
        }
        Captured::Waiting
    }
}

/// An action with another key; only one that presses keys has any.
pub open spec fn rekeyed(a: Action, b: Action, key: Seq<char>) -> bool {
    match a {
        Action::Press { .. } => b matches Action::Press { key: k } && k@ == key,
        Action::Hold { duration_ms, .. } => b matches Action::Hold { key: k, duration_ms: d }
            && k@ == key && d == duration_ms,
        _ => b == a,
    }
}

/// Gives an action another key.
pub fn assign_key(action: &mut Action, key: String)
    ensures
        rekeyed(*old(action), *final(action), key@),
{
    match action {
        Action::Hold { key: k, .. } => {
            *k = key;
        },
        Action::Press { key: k } => {
            *k = key;
        },
        _ => {},
    }
}

// ---------------------------------------------------------------------------
// Laws
// ---------------------------------------------------------------------------

/// Every enemy has one label at most.
pub open spec fn handles_differ(tags: Seq<Tag>) -> bool {
    forall|i: int, j: int|
        0 <= i < j < tags.len() ==> (#[trigger] tags[i]).handle != (#[trigger] tags[j]).handle
}

/// Adding the labels of bosses gives no enemy a second one, and leaves none of the bosses
/// without.
pub proof fn a_boss_has_one_label(tags: Seq<Tag>, bosses: Seq<Tag>)
    requires
        handles_differ(tags),
    ensures
        handles_differ(with_bosses(tags, bosses)),
        forall|i: int|
            0 <= i < bosses.len() ==> has_label(
                with_bosses(tags, bosses),
                (#[trigger] bosses[i]).handle,
            ),
        tags.is_prefix_of(with_bosses(tags, bosses)),
    decreases bosses.len(),
{
    if bosses.len() > 0 {
        let front = bosses.drop_last();
        a_boss_has_one_label(tags, front);
        let before = with_bosses(tags, front);
        let out = with_bosses(tags, bosses);
        assert forall|i: int| 0 <= i < bosses.len() implies has_label(
            out,
            (#[trigger] bosses[i]).handle,
        ) by {
            if i < front.len() {
                assert(front[i] == bosses[i]);
                assert(has_label(before, front[i].handle));
                let j = choose|j: int|
                    0 <= j < before.len() && (#[trigger] before[j]).handle == bosses[i].handle;
                assert(out[j] == before[j]);
            } else if !has_label(before, bosses.last().handle) {
                assert(out[before.len() as int] == bosses.last());
            }
        }
    }
}

/// A buyer's enemy always carries the buyer's name, whatever the rotation gave.
pub proof fn a_buyer_is_always_named(
    owners: Seq<Option<Seq<char>>>,
    names: Seq<Option<Seq<char>>>,
    i: int,
)
    requires
        0 <= i < owners.len(),
        owners[i] is Some,
    ensures
        names_over(owners, names, owners.len() as int).contains((i, owners[i].unwrap())),
{
    lemma_named(owners, names, owners.len() as int, i);
}

proof fn lemma_named(
    owners: Seq<Option<Seq<char>>>,
    names: Seq<Option<Seq<char>>>,
    n: int,
    i: int,
)
    requires
        0 <= i < n,
        owners[i] is Some,
    ensures
        names_over(owners, names, n).contains((i, owners[i].unwrap())),
    decreases n,
{
    let before = names_over(owners, names, n - 1);
    let out = names_over(owners, names, n);
    if i == n - 1 {
        assert(out[before.len() as int] == (i, owners[i].unwrap()));
    } else {
        lemma_named(owners, names, n - 1, i);
        let j = choose|j: int| 0 <= j < before.len() && before[j] == (i, owners[i].unwrap());
        assert(out[j] == before[j]);
    }
}

/// A death is blamed once: the frames after it ask for nothing more of the effects and blame
/// nobody.
pub proof fn a_death_counts_once(
    p: Play,
    s: Snapshot,
    focused: bool,
    any_alive: bool,
    now: u64,
)
    requires
        p.was_dead,
    ensures
        !demanded(p, s, focused, any_alive, now).died,
        !demanded(p, s, focused, any_alive, now).blame,
{
}

/// While the settings window is open nothing is pressed in the game.
pub proof fn settings_stop_play(s: Snapshot, focused: bool)
    ensures
        !playing(s, true, focused),
{
}

} // verus!
