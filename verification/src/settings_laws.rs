//! What holds of how settings are read, of trials and samples, and of shots in the air.

use vstd::prelude::*;
use crate::config::{
    bool_from, channel, color_from, count_from, flag, hex_digit, inverted, last, layout_from,
    lowercase, named, nick_list, nicks_in, number, port, scale, source_from, style_from,
    unprotected, whole, Config, Entry, PanelStyle, ViewerSource,
};
use crate::damage::{after_poll, attacker, with_shots, HitBy, Shot, WatchState, World};
use crate::effects::{effect_named, outlives_death, Effect};
use crate::i18n::{translated, Locales};
use crate::outcomes::{
    after_spawn_outcome, check_card, check_label, sample, trial_card, trial_id,
};
use crate::ini::{assignment, piece_body, rewritten_piece};
use crate::ini_laws::{lemma_trim_end_is_prefix, lemma_trimmed_ends};
use crate::scalar::Scalar;
use crate::text::{
    ascii_lower, decimal, digits_value, fields, is_white, lemma_decimal, lemma_trim_end,
    lemma_first_at_is, lemma_trim_start, trim, trim_start, unsigned,
};
use crate::till::{Action, Request, TillText};
use crate::timed_effects::row_values;

verus! {

// ---------------------------------------------------------------------------
// Words
// ---------------------------------------------------------------------------

/// What switches something on and what switches it off.
pub proof fn words_for_switches()
    ensures
        bool_from("on"@) == Some(true) && bool_from("off"@) == Some(false),
        bool_from("yes"@) == Some(true) && bool_from("no"@) == Some(false),
        bool_from("true"@) == Some(true) && bool_from("false"@) == Some(false),
        bool_from("1"@) == Some(true) && bool_from("0"@) == Some(false),
{
    reveal_strlit("on");
    reveal_strlit("off");
    reveal_strlit("yes");
    reveal_strlit("no");
    reveal_strlit("true");
    reveal_strlit("false");
    reveal_strlit("1");
    reveal_strlit("0");
    assert(ascii_lower("on"@) =~= "on"@);
    assert(ascii_lower("off"@) =~= "off"@);
    assert(ascii_lower("yes"@) =~= "yes"@);
    assert(ascii_lower("no"@) =~= "no"@);
    assert(ascii_lower("true"@) =~= "true"@);
    assert(ascii_lower("false"@) =~= "false"@);
    assert(ascii_lower("1"@) =~= "1"@);
    assert(ascii_lower("0"@) =~= "0"@);
    assert("on"@.len() == 2 && "no"@.len() == 2 && "off"@.len() == 3 && "yes"@.len() == 3);
    assert("true"@.len() == 4 && "false"@.len() == 5 && "1"@.len() == 1 && "0"@.len() == 1);
    assert("on"@[0] != "no"@[0] && "off"@[0] != "yes"@[0] && "1"@[0] != "0"@[0]);
}

/// The case of letters says nothing, in a switch or in any other word.
pub proof fn the_case_of_letters_says_nothing(a: Seq<char>, b: Seq<char>)
    requires
        ascii_lower(a) == ascii_lower(b),
    ensures
        bool_from(a) == bool_from(b),
        count_from(a) == count_from(b),
        forall|names: Seq<Seq<char>>| #[trigger] named(names, a) == named(names, b),
{
    assert forall|names: Seq<Seq<char>>| #[trigger] named(names, a) == named(names, b) by {
        lemma_named_alike(names, a, b);
    }
}

proof fn lemma_named_alike(names: Seq<Seq<char>>, a: Seq<char>, b: Seq<char>)
    requires
        ascii_lower(a) == ascii_lower(b),
    ensures
        named(names, a) == named(names, b),
    decreases names.len(),
{
    if names.len() > 0 {
        lemma_named_alike(names.skip(1), a, b);
    }
}

/// White space round a word says nothing either, where words for layouts, frames and sources
/// are read.
pub proof fn white_space_says_nothing(a: Seq<char>, b: Seq<char>)
    requires
        ascii_lower(trim(a)) == ascii_lower(trim(b)),
    ensures
        layout_from(a) == layout_from(b),
        style_from(a) == style_from(b),
        source_from(a) == source_from(b),
{
}

proof fn lemma_plain_word(w: Seq<char>)
    requires
        w.len() > 0,
        forall|i: int|
            0 <= i < w.len() ==> ('a' <= #[trigger] w[i] && w[i] <= 'z') || w[i] == '_',
    ensures
        ascii_lower(trim(w)) == w,
{
    assert(!is_white(w[0]) && !is_white(w[w.len() - 1]));
    lemma_trim_start(w, 0);
    assert(w.skip(0) == w);
    lemma_trim_end(w, w.len() as int);
    assert(w.take(w.len() as int) == w);
    assert(ascii_lower(w) =~= w);
}

/// The words of older files still mean what they meant.
pub proof fn old_words_still_count()
    ensures
        style_from("none"@) == Some(PanelStyle::Bare),
        style_from("bar_left"@) == Some(PanelStyle::Bar),
        style_from("barright"@) == Some(PanelStyle::BarRight),
        source_from("helix"@) == Some(ViewerSource::App),
        source_from("link"@) == Some(ViewerSource::Chat),
{
    reveal_strlit("none");
    reveal_strlit("bar_left");
    reveal_strlit("barright");
    reveal_strlit("helix");
    reveal_strlit("link");
    reveal_strlit("frame");
    reveal_strlit("bare");
    reveal_strlit("bar");
    reveal_strlit("bar_right");
    reveal_strlit("auto");
    reveal_strlit("app");
    reveal_strlit("chat");
    lemma_plain_word("none"@);
    lemma_plain_word("bar_left"@);
    lemma_plain_word("barright"@);
    lemma_plain_word("helix"@);
    lemma_plain_word("link"@);
    assert("none"@.len() == 4 && "bare"@.len() == 4 && "link"@.len() == 4 && "chat"@.len() == 4
        && "auto"@.len() == 4);
    assert("bar_left"@.len() == 8 && "barright"@.len() == 8 && "bar_right"@.len() == 9
        && "bar"@.len() == 3 && "frame"@.len() == 5 && "helix"@.len() == 5 && "app"@.len() == 3);
    assert("bar_left"@[3] != "barright"@[3]);
    assert("link"@[0] != "chat"@[0] && "link"@[0] != "auto"@[0]);
}

// ---------------------------------------------------------------------------
// Colors and lists
// ---------------------------------------------------------------------------

/// A color is read two digits at a time: red, green, blue, and how opaque it is, which is
/// wholly if nothing is said. A hash sign before it says nothing.
pub proof fn how_a_color_is_read(s: Seq<char>, t: Seq<char>)
    requires
        trim(s) == s,
        s.len() == 6,
        forall|i: int| 0 <= i < 6 ==> hex_digit(#[trigger] s[i]) is Some,
        t == s + seq!['0', '0'],
        trim(t) == t,
        trim(seq!['#'] + s) == seq!['#'] + s,
    ensures
        ({
            let r = hex_digit(s[0]).unwrap() * 16 + hex_digit(s[1]).unwrap();
            let g = hex_digit(s[2]).unwrap() * 16 + hex_digit(s[3]).unwrap();
            let b = hex_digit(s[4]).unwrap() * 16 + hex_digit(s[5]).unwrap();
            &&& color_from(s) == Some(seq![r, g, b, 255])
            &&& color_from(t) == Some(seq![r, g, b, 0])
            &&& color_from(seq!['#'] + s) == Some(seq![r, g, b, 255])
        }),
{
    assert(hex_digit(s[0]) is Some);
    assert(hex_digit(s[2]) is Some && hex_digit(s[1]) is Some && hex_digit(s[3]) is Some
        && hex_digit(s[4]) is Some && hex_digit(s[5]) is Some);
    assert(t[0] == s[0] && t[1] == s[1] && t[2] == s[2] && t[3] == s[3] && t[4] == s[4] && t[5]
        == s[5] && t[6] == '0' && t[7] == '0');
    let h = seq!['#'] + s;
    assert(h.skip(1) =~= s);
    assert(channel('0', '0') == Some(0nat));
}

/// Digits go from nothing to fifteen, small and capital alike.
pub proof fn what_digits_are_worth(d: nat)
    requires
        d < 16,
    ensures
        d < 10 ==> hex_digit((0x30 + d) as char) == Some(d),
        d >= 10 ==> hex_digit((0x61 + d - 10) as char) == Some(d) && hex_digit(
            (0x41 + d - 10) as char,
        ) == Some(d),
        hex_digit('g') is None,
        hex_digit('#') is None,
        hex_digit(' ') is None,
{
}

/// A text of any other length is no color, and so is one with anything but digits in it.
pub proof fn what_is_no_color(s: Seq<char>, i: int)
    requires
        trim(s) == s,
        s.len() > 0,
        s[0] != '#',
    ensures
        (s.len() != 6 && s.len() != 8) ==> color_from(s) is None,
        (0 <= i < s.len() && hex_digit(s[i]) is None) ==> color_from(s) is None,
{
    if 0 <= i < s.len() && hex_digit(s[i]) is None && color_from(s) is Some {
        assert(i == 0 || i == 1 || i == 2 || i == 3 || i == 4 || i == 5 || i == 6 || i == 7);
    }
}

/// A list of nicknames holds exactly what stands between the commas and is not blank, in small
/// letters.
pub proof fn which_nicknames_are_listed(s: Seq<char>, n: Seq<char>)
    ensures
        nick_list(s).contains(n) <==> n.len() > 0 && exists|i: int|
            0 <= i < fields(s, ',').len() && trim(#[trigger] fields(s, ',')[i]).len() > 0
                && lowercase(trim(fields(s, ',')[i])) == n,
{
    lemma_nicks(fields(s, ','), n);
}

proof fn lemma_nicks(fs: Seq<Seq<char>>, n: Seq<char>)
    ensures
        nicks_in(fs).contains(n) <==> n.len() > 0 && exists|i: int|
            0 <= i < fs.len() && trim(#[trigger] fs[i]).len() > 0 && lowercase(trim(fs[i])) == n,
    decreases fs.len(),
{
    if fs.len() > 0 {
        let front = fs.drop_last();
        let k: int = fs.len() - 1;
        lemma_nicks(front, n);
        let before = nicks_in(front);
        let out = nicks_in(fs);
        assert(fs[k] == fs.last());
        assert forall|i: int| 0 <= i < k implies #[trigger] fs[i] == front[i] by {}
        assert forall|i: int| 0 <= i < k implies #[trigger] front[i] == fs[i] by {}
        if before.contains(n) {
            let j = choose|j: int| 0 <= j < before.len() && before[j] == n;
            assert(out[j] == n);
        }
        if out.len() > before.len() {
            assert(out[before.len() as int] == lowercase(trim(fs[k])));
        }
        if out.contains(n) {
            let j = choose|j: int| 0 <= j < out.len() && out[j] == n;
            if j < before.len() {
                assert(before[j] == n);
                assert(before.contains(n));
            } else {
                assert(lowercase(trim(fs[k])) == n);
            }
        }
    }
}

// ---------------------------------------------------------------------------
// Lines
// ---------------------------------------------------------------------------

/// The last line that can be read counts, whatever stands before it and whatever cannot be
/// read after it.
pub proof fn the_last_readable_line_counts<T>(
    es: Seq<Entry>,
    read: spec_fn(Entry) -> Option<T>,
    before: T,
    i: int,
)
    requires
        0 <= i < es.len(),
        read(es[i]) is Some,
        forall|j: int| i < j < es.len() ==> read(#[trigger] es[j]) is None,
    ensures
        last(es, read, before) == read(es[i]).unwrap(),
    decreases es.len(),
{
    reveal(last);
    let n: int = es.len() - 1;
    assert(es[n] == es.last());
    if i < n {
        let front = es.drop_last();
        assert(front[i] == es[i]);
        assert forall|j: int| i < j < front.len() implies read(#[trigger] front[j]) is None by {
            assert(front[j] == es[j]);
        }
        assert(read(es[n]) is None);
        the_last_readable_line_counts(front, read, before, i);
    }
}

/// What a line under a key says of it, and what lines under other keys do not: numbers only as
/// far as they fit, scales between a tenth and ten, and a switch of the old kind the other way
/// round.
pub proof fn what_a_line_says(e: Entry, key: Seq<char>)
    ensures
        e.key != key ==> flag(key)(e) is None && inverted(key)(e) is None && port(key)(e) is None
            && whole(key)(e) is None && number(key)(e) is None && scale(key)(e) is None
            && unprotected(key)(e) is None,
        e.key == key ==> {
            &&& flag(key)(e) == bool_from(e.value)
            &&& bool_from(e.value) matches Some(b) ==> inverted(key)(e) == Some(!b)
            &&& number(key)(e) == e.number
            &&& unsigned(e.value, 65535) matches Some(n) ==> port(key)(e) == Some(n as u16)
            &&& unsigned(e.value, 65535) is None ==> port(key)(e) is None
            &&& unsigned(e.value, 0xFFFF_FFFF) matches Some(n) ==> whole(key)(e) == Some(n as u32)
            &&& unsigned(e.value, 0xFFFF_FFFF) is None ==> whole(key)(e) is None
            &&& scale(key)(e) matches Some(x) ==> (Scalar { bits: 0x3DCC_CCCD }).at_most(x)
                && x.at_most(Scalar { bits: 0x4120_0000 })
            &&& (unprotected(key)(e) is Some <==> trim(e.value).len() > 0 && !e.protected)
        },
{
    reveal(flag);
    reveal(inverted);
    reveal(port);
    reveal(whole);
    reveal(number);
    reveal(scale);
    reveal(unprotected);
}

/// A key of the keyboard is read by its name in any case, as it is listed; a name that is not
/// listed is none.
pub proof fn which_key_is_meant(names: Seq<Seq<char>>, name: Seq<char>, k: int)
    requires
        0 <= k <= names.len(),
        forall|j: int| 0 <= j < k ==> ascii_lower(#[trigger] names[j]) != ascii_lower(name),
        k < names.len() ==> ascii_lower(names[k]) == ascii_lower(name),
    ensures
        k < names.len() ==> named(names, name) == Some(names[k]),
        k == names.len() ==> named(names, name) is None,
    decreases names.len(),
{
    if k > 0 {
        let rest = names.skip(1);
        assert(ascii_lower(names[0]) != ascii_lower(name));
        assert forall|j: int| 0 <= j < k - 1 implies ascii_lower(#[trigger] rest[j]) != ascii_lower(
            name,
        ) by {
            assert(rest[j] == names[j + 1]);
        }
        if k < names.len() {
            assert(rest[k - 1] == names[k]);
        }
        which_key_is_meant(rest, name, k - 1);
    }
}

/// Comments and headings assign nothing, whatever else stands on them, and saving leaves a
/// comment as it is.
pub proof fn comments_are_left_alone(line: Seq<char>, pairs: Seq<(Seq<char>, Seq<char>)>)
    requires
        line.len() > 0,
        line[0] == ';' || line[0] == '#' || line[0] == '[',
    ensures
        assignment(line) is None,
        line[0] != '[' ==> rewritten_piece(line, pairs) == line,
{
    assert(!is_white(line[0]));
    assert(trim_start(line) == line);
    let k = lemma_trim_end_is_prefix(line);
    if k > 0 {
        assert(line.take(k)[0] == line[0]);
    }
    let body = piece_body(line);
    assert(body.len() > 0 && body[0] == line[0]);
    assert(trim_start(body) == body);
}

/// A line assigns what stands after its first equals sign to what stands before it, both
/// without the white space round them.
pub proof fn what_a_line_assigns(key: Seq<char>, value: Seq<char>)
    requires
        key.len() > 0,
        trim(key) == key,
        trim(value) == value,
        value.len() > 0,
        key[0] != ';' && key[0] != '#' && key[0] != '[',
        forall|i: int| 0 <= i < key.len() ==> #[trigger] key[i] != '=',
    ensures
        assignment(key + seq!['='] + value) == Some((key, value)),
        assignment(key) is None,
{
    let s = key + seq!['='] + value;
    let n: int = key.len() as int;
    lemma_trimmed_ends(key);
    lemma_trimmed_ends(value);
    assert(s[0] == key[0] && s[s.len() - 1] == value[value.len() - 1]);
    lemma_trim_start(s, 0);
    assert(s.skip(0) == s);
    lemma_trim_end(s, s.len() as int);
    assert(s.take(s.len() as int) == s);
    assert forall|j: int| 0 <= j < n implies s[j] != '=' by {
        assert(s[j] == key[j]);
    }
    assert(s[n] == '=');
    lemma_first_at_is(s, '=', n);
    assert(s.take(n) =~= key);
    assert(s.skip(n + 1) =~= value);
    lemma_first_at_is(key, '=', n);
}

// ---------------------------------------------------------------------------
// Fonts
// ---------------------------------------------------------------------------

/// Every size in the panel and over enemies counts for the fonts, and of the two on a card the
/// larger.
pub proof fn every_size_counts_for_the_fonts(c: Config)
    ensures
        c.atlas_sizes().len() == 7,
        c.atlas_sizes().contains(c.label_size),
        c.atlas_sizes().contains(c.value_size),
        c.atlas_sizes().contains(c.counter_size),
        c.atlas_sizes().contains(c.boss_name_size),
        c.atlas_sizes().contains(c.attempt_size),
        c.atlas_sizes().contains(c.enemy_tag_size),
        (c.toast_label_size.below(c.toast_value_size)) ==> c.atlas_sizes().contains(
            c.toast_value_size,
        ),
        (c.toast_value_size.below(c.toast_label_size)) ==> c.atlas_sizes().contains(
            c.toast_label_size,
        ),
{
    let v = c.atlas_sizes();
    assert(v[0] == c.label_size);
    assert(v[1] == c.value_size);
    assert(v[2] == c.counter_size);
    assert(v[3] == c.boss_name_size);
    assert(v[4] == c.attempt_size);
    assert(v[5] == c.toast_value_size.larger(c.toast_label_size));
    assert(v[6] == c.enemy_tag_size);
}

/// A scale changes the five sizes of the panel and nothing else; one that is no positive finite
/// number, or is one, changes nothing.
pub proof fn what_a_scale_changes(c: Config, k: Scalar, scaled: Seq<Scalar>)
    requires
        scaled.len() == 5,
    ensures
        ({
            let d = c.scaled_by(k, scaled);
            let works = 0 < k.bits < 0x7F80_0000 && k.bits != 0x3F80_0000 && k.bits != 0x3F7F_FFFF;
            &&& !works ==> d == c
            &&& works ==> d.label_size == scaled[0] && d.value_size == scaled[1] && d.counter_size
                == scaled[2] && d.boss_name_size == scaled[3] && d.attempt_size == scaled[4]
            &&& d.toast_label_size == c.toast_label_size && d.toast_value_size
                == c.toast_value_size && d.enemy_tag_size == c.enemy_tag_size && d.ui_scale
                == c.ui_scale && d.web_label_size == c.web_label_size && d.line_gap == c.line_gap
        }),
{
}

// ---------------------------------------------------------------------------
// Trials and samples
// ---------------------------------------------------------------------------

/// An enemy who is refused is paid back with the reason; one who is on his way is not, and no
/// earlier reason is left standing.
pub proof fn an_enemy_is_refused_or_on_his_way(
    tt: TillText,
    why: Seq<char>,
    reward: Seq<char>,
    redemption: Seq<char>,
)
    requires
        reward.len() > 0,
        redemption.len() > 0,
    ensures
        ({
            let refused = after_spawn_outcome(tt, Some(why), reward, redemption);
            let coming = after_spawn_outcome(tt, None, reward, redemption);
            &&& refused.requests == tt.requests.push(Request::Refund(reward, redemption))
            &&& refused.notice is Some
            &&& coming.requests == tt.requests
            &&& coming.notice is None
            &&& coming.cards == tt.cards
            &&& coming.cooling == tt.cooling
        }),
{
}

/// No two trials are the same one, so that each finds its own card again.
pub proof fn every_trial_is_its_own(a: u32, b: u32)
    requires
        a != b,
    ensures
        trial_id(a) != trial_id(b),
        trial_id(a).len() > 0,
{
    lemma_decimal(a as nat);
    lemma_decimal(b as nat);
    let p = "test#"@;
    if trial_id(a) == trial_id(b) {
        assert(trial_id(a).skip(p.len() as int) =~= decimal(a as nat));
        assert(trial_id(b).skip(p.len() as int) =~= decimal(b as nat));
        assert(digits_value(decimal(a as nat)) == digits_value(decimal(b as nat)));
    }
}

/// The card of a trial shows what is tried, at its price, from now on; and the sample is a young
/// card of a hundred points with three seconds to go, that belongs to no purchase.
pub proof fn what_trials_and_samples_show(
    caption: Seq<char>,
    cost: u32,
    a: Action,
    n: u32,
    now: u64,
    l: Locales,
)
    requires
        400_000_000 <= now <= u64::MAX - 3_000_000_000,
    ensures
        trial_card(caption, cost, a, n, now, l).label == caption,
        trial_card(caption, cost, a, n, now, l).cost == cost,
        trial_card(caption, cost, a, n, now, l).at == now,
        trial_card(caption, cost, a, n, now, l).redemption_id == trial_id(n),
        sample(now, l).cost == 100,
        sample(now, l).at + 400_000_000 == now,
        sample(now, l).countdown_to == Some((now + 3_000_000_000) as u64),
        sample(now, l).redemption_id.len() == 0,
        check_card(n, now, l).cost == 100,
        check_card(n, now, l).at == now,
        check_card(n, now, l).countdown_to is None,
        check_card(n, now, l).redemption_id.len() == 0,
        check_card(n, now, l).label == check_label(n, l),
{
}

/// Two cards that check how cards look are told apart by their numbers.
pub proof fn checks_are_told_apart(a: u32, b: u32, l: Locales)
    requires
        a != b,
    ensures
        check_label(a, l) != check_label(b, l),
{
    lemma_decimal(a as nat);
    lemma_decimal(b as nat);
    let p = translated(l, "Display check"@) + " #"@;
    if check_label(a, l) == check_label(b, l) {
        assert(check_label(a, l).skip(p.len() as int) =~= decimal(a as nat));
        assert(check_label(b, l).skip(p.len() as int) =~= decimal(b as nat));
        assert(digits_value(decimal(a as nat)) == digits_value(decimal(b as nat)));
    }
}

// ---------------------------------------------------------------------------
// Effects and shots
// ---------------------------------------------------------------------------

/// Only the rune exchange outlives a death.
pub proof fn what_outlives_a_death(key: Seq<char>, e: Effect)
    requires
        effect_named(key) == Some(e),
    ensures
        outlives_death(key) <==> e == Effect::RuneTrade,
{
    crate::bought_laws::every_effect_is_what_it_is_called(key, e);
}

/// A row of the camera's table gets back its own saved value, and no row gets another's.
pub proof fn rows_get_their_own_back(saved: Seq<(u32, Scalar)>, ids: Seq<u32>, i: int)
    requires
        0 <= i < ids.len(),
    ensures
        row_values(saved, ids).len() == ids.len(),
        (i < saved.len() && saved[i].0 == ids[i]) ==> row_values(saved, ids)[i] == Some(saved[i].1),
        (i >= saved.len() || saved[i].0 != ids[i]) ==> row_values(saved, ids)[i] is None,
{
}

proof fn lemma_with_shots(m: Map<u64, (u64, u64)>, shots: Seq<Shot>, now: u64, b: u64)
    ensures
        ({
            let r = with_shots(m, shots, now);
            &&& (forall|i: int|
                0 <= i < shots.len() && (#[trigger] shots[i]).handle == b ==> shots[i].owner
                    is None) ==> r.contains_key(b) == m.contains_key(b) && (m.contains_key(b)
                ==> r[b] == m[b])
            &&& (exists|i: int|
                0 <= i < shots.len() && (#[trigger] shots[i]).handle == b && shots[i].owner is Some)
                ==> r.contains_key(b) && r[b].1 == now && exists|i: int|
                0 <= i < shots.len() && (#[trigger] shots[i]).handle == b && shots[i].owner == Some(
                    r[b].0,
                )
        }),
    decreases shots.len(),
{
    if shots.len() > 0 {
        let front = shots.drop_last();
        let n: int = shots.len() - 1;
        lemma_with_shots(m, front, now, b);
        assert(shots[n] == shots.last());
        assert forall|i: int| 0 <= i < n implies #[trigger] shots[i] == front[i] by {}
        assert forall|i: int| 0 <= i < n implies #[trigger] front[i] == shots[i] by {}
    }
}

/// A shot that is in the air with an owner is remembered with an owner it was seen with; one
/// that is gone is remembered for three seconds with the owner it had, and then forgotten.
pub proof fn shots_are_remembered(
    w: WatchState,
    now: u64,
    world: World,
    count: bool,
    me: u64,
    hp: i32,
    b: u64,
)
    requires
        world.player == Some((me, hp)),
        w.last_poll is Some,
        now < w.last_poll.unwrap() + 400_000_000,
    ensures
        ({
            let after = after_poll(w, now, world, count).0.bullets;
            &&& (exists|i: int|
                0 <= i < world.shots@.len() && (#[trigger] world.shots@[i]).handle == b
                    && world.shots@[i].owner is Some) ==> after.contains_key(b) && after[b].1 == now
                && exists|i: int|
                0 <= i < world.shots@.len() && (#[trigger] world.shots@[i]).handle == b
                    && world.shots@[i].owner == Some(after[b].0)
            &&& (forall|i: int|
                0 <= i < world.shots@.len() && (#[trigger] world.shots@[i]).handle == b
                    ==> world.shots@[i].owner is None) ==> {
                &&& after.contains_key(b) <==> w.bullets.contains_key(b) && now < w.bullets[b].1
                    + 3_000_000_000
                &&& after.contains_key(b) ==> after[b] == w.bullets[b]
            }
        }),
{
    lemma_with_shots(w.bullets, world.shots@, now, b);
}

/// A blow is its creature's, or its shot's owner's where that is remembered; nobody's
/// otherwise.
pub proof fn who_dealt_a_blow(bullets: Map<u64, (u64, u64)>, h: u64)
    ensures
        attacker(bullets, HitBy::Creature(h)) == Some(h),
        bullets.contains_key(h) ==> attacker(bullets, HitBy::Shot(h)) == Some(bullets[h].0),
        !bullets.contains_key(h) ==> attacker(bullets, HitBy::Shot(h)) is None,
        attacker(bullets, HitBy::Other) is None,
{
}

} // verus!
