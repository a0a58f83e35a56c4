//! What holds of texts and of the languages they are shown in.

use vstd::prelude::*;
use crate::i18n::{
    active_code, choices, chosen, current_language, file_code, first_coded, first_fit, has_char,
    hash_at, is_loaded, is_needed, is_own_key, known_languages, language_files, languages_of,
    last_at, last_value, locale_line, plain_text, ranges_for, steam_names, translated,
    translations, unmarked, Language, LocaleFile, Locales,
};
use crate::ini_laws::{lemma_trim_end_is_prefix, lemma_trim_start_is_suffix};
use crate::text::{
    ascii_lower, decimal, decimal_reads_back, fields, first_at, is_digit, is_white, join,
    lemma_decimal, lemma_first_at, lower, pair_texts, texts, trim, trim_start, unsigned,
};

verus! {

// ---------------------------------------------------------------------------
// Texts
// ---------------------------------------------------------------------------

/// White space is no letter, no digit and no sign of the English keyboard; blanks, tabs and
/// line ends are.
pub proof fn what_is_white(c: char)
    ensures
        0x21 <= c as u32 <= 0x7E ==> !is_white(c),
        (c == ' ' || c == '\t' || c == '\n' || c == '\r') ==> is_white(c),
        (c as u32) < 0x09 ==> !is_white(c),
        0x0400 <= c as u32 <= 0x052F ==> !is_white(c),
{
}

/// Trimming takes white space from both ends, all of it, and nothing else.
pub proof fn trimming_takes_white_space(s: Seq<char>)
    ensures
        exists|a: int, b: int|
            {
                &&& 0 <= a <= b <= s.len()
                &&& trim(s) == #[trigger] s.subrange(a, b)
                &&& forall|i: int| 0 <= i < a || b <= i < s.len() ==> is_white(#[trigger] s[i])
                &&& a < b ==> !is_white(s[a]) && !is_white(s[b - 1])
            },
{
    let a = lemma_trim_start_is_suffix(s);
    let u = trim_start(s);
    let m = lemma_trim_end_is_prefix(u);
    lemma_lead_is_white(s);
    assert(u == s.skip(a));
    assert(trim(s) =~= s.subrange(a, a + m));
    assert forall|i: int| 0 <= i < a || a + m <= i < s.len() implies is_white(
        #[trigger] s[i],
    ) by {
        if i >= a + m {
            assert(s[i] == u[i - a]);
        } else {
            assert(a == s.len() - u.len());
        }
    }
    if m > 0 {
        assert(s[a] == u[0]);
        assert(s[a + m - 1] == u[m - 1]);
    }
}

proof fn lemma_lead_is_white(s: Seq<char>)
    ensures
        trim_start(s).len() <= s.len(),
        forall|i: int| 0 <= i < s.len() - trim_start(s).len() ==> is_white(#[trigger] s[i]),
    decreases s.len(),
{
    if s.len() > 0 && is_white(s[0]) {
        lemma_lead_is_white(s.skip(1));
        assert forall|i: int| 0 <= i < s.len() - trim_start(s).len() implies is_white(
            #[trigger] s[i],
        ) by {
            if i > 0 {
                assert(s[i] == s.skip(1)[i - 1]);
            }
        }
    }
}

/// The fields of a text, with the separator between them, are the text, and no field holds the
/// separator.
pub proof fn fields_make_up_the_text(s: Seq<char>, c: char)
    ensures
        fields(s, c).len() >= 1,
        join(fields(s, c), seq![c]) == s,
        forall|k: int, i: int|
            0 <= k < fields(s, c).len() && 0 <= i < fields(s, c)[k].len() ==> #[trigger] fields(
                s,
                c,
            )[k][i] != c,
    decreases s.len(),
{
    lemma_first_at(s, c);
    let i = first_at(s, c);
    if i < s.len() {
        let rest = s.skip(i + 1);
        fields_make_up_the_text(rest, c);
        let fs = fields(rest, c);
        lemma_join_front(s.take(i), fs, seq![c]);
        assert(s =~= s.take(i) + seq![c] + rest);
        assert forall|k: int, j: int|
            0 <= k < fields(s, c).len() && 0 <= j < fields(s, c)[k].len() implies #[trigger] fields(
            s,
            c,
        )[k][j] != c by {
            if k == 0 {
                assert(fields(s, c)[0] == s.take(i));
            } else {
                assert(fields(s, c)[k] == fs[k - 1]);
                assert(fs[k - 1][j] != c);
            }
        }
    } else {
        assert(seq![s][0] == s);
    }
}

proof fn lemma_join_front(a: Seq<char>, rest: Seq<Seq<char>>, sep: Seq<char>)
    requires
        rest.len() >= 1,
    ensures
        join(seq![a] + rest, sep) == a + sep + join(rest, sep),
    decreases rest.len(),
{
    let all = seq![a] + rest;
    assert(all.last() == rest.last());
    if rest.len() == 1 {
        assert(all.drop_last() =~= seq![a]);
        assert(join(all.drop_last(), sep) == a);
        assert(join(rest, sep) == rest.last());
    } else {
        lemma_join_front(a, rest.drop_last(), sep);
        assert(all.drop_last() =~= seq![a] + rest.drop_last());
        assert(join(all, sep) =~= a + sep + join(rest, sep));
    }
}

/// Small letters stand for capital ones of the English alphabet, and everything else stays: so
/// a text that is small stays as it is.
pub proof fn small_letters(s: Seq<char>, i: int)
    requires
        0 <= i < s.len(),
    ensures
        ascii_lower(s).len() == s.len(),
        0x41 <= s[i] as u32 <= 0x5A ==> ascii_lower(s)[i] as u32 == s[i] as u32 + 32,
        !(0x41 <= s[i] as u32 <= 0x5A) ==> ascii_lower(s)[i] == s[i],
{
}

/// A number may have a plus before it; what is empty, or holds anything but digits, is none.
pub proof fn what_is_a_number(n: nat, max: nat, s: Seq<char>)
    requires
        n <= max,
    ensures
        unsigned(decimal(n), max) == Some(n),
        unsigned(seq!['+'] + decimal(n), max) == Some(n),
        s.len() == 0 ==> unsigned(s, max) is None,
        (exists|i: int| 0 < i < s.len() && !is_digit(#[trigger] s[i])) ==> unsigned(s, max) is None,
        (s.len() > 0 && !is_digit(s[0]) && s[0] != '+') ==> unsigned(s, max) is None,
{
    decimal_reads_back(n, max);
    lemma_decimal(n);
    assert((seq!['+'] + decimal(n)).skip(1) == decimal(n));
    if exists|i: int| 0 < i < s.len() && !is_digit(#[trigger] s[i]) {
        let i = choose|i: int| 0 < i < s.len() && !is_digit(#[trigger] s[i]);
        if s[0] == '+' {
            assert(s.skip(1)[i - 1] == s[i]);
        }
    }
}

// ---------------------------------------------------------------------------
// Files of languages
// ---------------------------------------------------------------------------

/// Comments and headings of sections say nothing.
pub proof fn comments_and_sections(line: Seq<char>)
    requires
        line.len() > 0,
        line[0] == ';' || line[0] == '[',
    ensures
        locale_line(line) is None,
{
    assert(unmarked(line) == line);
    assert(!is_white(line[0]));
    assert(trim_start(line) == line);
    let k = lemma_trim_end_is_prefix(line);
    if k > 0 {
        assert(line.take(k)[0] == line[0]);
    }
}

/// A translation is an entry of the file that is not about the language itself.
pub proof fn what_is_a_translation(es: Seq<(Seq<char>, Seq<char>)>, e: (Seq<char>, Seq<char>))
    ensures
        translations(es).contains(e) <==> es.contains(e) && e.0 != "_name"@ && e.0 != "_steam"@,
    decreases es.len(),
{
    if es.len() > 0 {
        let front = es.drop_last();
        let n: int = es.len() - 1;
        what_is_a_translation(front, e);
        let before = translations(front);
        let out = translations(es);
        assert(es[n] == es.last());
        if es.contains(e) {
            let i = choose|i: int| 0 <= i < es.len() && es[i] == e;
            if i < n {
                assert(front[i] == e);
                assert(front.contains(e));
            }
        }
        if front.contains(e) {
            let i = choose|i: int| 0 <= i < front.len() && front[i] == e;
            assert(es[i] == e);
        }
        if before.contains(e) {
            let k = choose|k: int| 0 <= k < before.len() && before[k] == e;
            assert(out[k] == e);
        }
        if !is_own_key(es[n].0) {
            assert(out[before.len() as int] == es[n]);
        }
        if out.contains(e) {
            let k = choose|k: int| 0 <= k < out.len() && out[k] == e;
            if k < before.len() {
                assert(before[k] == e);
                assert(before.contains(e));
            } else {
                assert(es[n] == e);
            }
        }
    }
}

/// Of several values under a key the last one counts.
pub proof fn the_last_value_counts(es: Seq<(Seq<char>, Seq<char>)>, i: int)
    requires
        0 <= i < es.len(),
        forall|j: int| i < j < es.len() ==> (#[trigger] es[j]).0 != es[i].0,
    ensures
        last_value(es, es[i].0) == Some(es[i].1),
    decreases es.len(),
{
    let n: int = es.len() - 1;
    assert(es[n] == es.last());
    if i < n {
        let front = es.drop_last();
        assert(front[i] == es[i]);
        assert forall|j: int| i < j < front.len() implies (#[trigger] front[j]).0
            != front[i].0 by {
            assert(front[j] == es[j]);
        }
        assert(es[n].0 != es[i].0);
        the_last_value_counts(front, i);
    }
}

proof fn lemma_no_value(es: Seq<(Seq<char>, Seq<char>)>, key: Seq<char>)
    requires
        forall|j: int| 0 <= j < es.len() ==> (#[trigger] es[j]).0 != key,
    ensures
        last_value(es, key) is None,
    decreases es.len(),
{
    if es.len() > 0 {
        let front = es.drop_last();
        assert(es[es.len() - 1].0 != key);
        assert forall|j: int| 0 <= j < front.len() implies (#[trigger] front[j]).0 != key by {
            assert(front[j] == es[j]);
        }
        lemma_no_value(front, key);
    }
}

/// Steam's names of a language are the fields that are not blank, trimmed and in small letters.
pub proof fn what_steam_calls_it(fs: Seq<Seq<char>>, name: Seq<char>)
    ensures
        steam_names(fs).contains(name) <==> name.len() > 0 && exists|i: int|
            0 <= i < fs.len() && ascii_lower(trim(#[trigger] fs[i])) == name,
    decreases fs.len(),
{
    if fs.len() > 0 {
        let front = fs.drop_last();
        let n: int = fs.len() - 1;
        what_steam_calls_it(front, name);
        let before = steam_names(front);
        let out = steam_names(fs);
        assert(fs[n] == fs.last());
        assert forall|i: int| 0 <= i < n implies #[trigger] fs[i] == front[i] by {}
        assert forall|i: int| 0 <= i < n implies #[trigger] front[i] == fs[i] by {}
        if before.contains(name) {
            let k = choose|k: int| 0 <= k < before.len() && before[k] == name;
            assert(out[k] == name);
        }
        if out.len() > before.len() {
            assert(out[before.len() as int] == ascii_lower(trim(fs[n])));
        }
        if out.contains(name) {
            let k = choose|k: int| 0 <= k < out.len() && out[k] == name;
            if k < before.len() {
                assert(before[k] == name);
                assert(before.contains(name));
            } else {
                assert(ascii_lower(trim(fs[n])) == name);
            }
        }
    }
}

/// The font has Latin and Cyrillic letters always, and every character of the translations and
/// of the language's name; keys need none, nor control characters.
pub proof fn which_letters_are_needed(
    pairs: Seq<(Seq<char>, Seq<char>)>,
    name: Seq<char>,
    u: int,
    k: int,
    i: int,
)
    ensures
        0x20 <= u <= 0xFF ==> is_needed(pairs, name, u),
        0x0400 <= u <= 0x052F ==> is_needed(pairs, name, u),
        u < 0x20 ==> !is_needed(pairs, name, u),
        (0 <= k < pairs.len() && 0 <= i < pairs[k].1.len() && pairs[k].1[i] as u32 >= 0x20)
            ==> is_needed(pairs, name, pairs[k].1[i] as u32 as int),
        (0 <= i < name.len() && name[i] as u32 >= 0x20) ==> is_needed(
            pairs,
            name,
            name[i] as u32 as int,
        ),
        (u > 0x052F && !has_char(name, u) && forall|j: int|
            0 <= j < pairs.len() ==> !has_char((#[trigger] pairs[j]).1, u)) ==> !is_needed(
            pairs,
            name,
            u,
        ),
{
    if 0 <= k < pairs.len() && 0 <= i < pairs[k].1.len() {
        assert(has_char(pairs[k].1, pairs[k].1[i] as u32 as int));
    }
    if 0 <= i < name.len() {
        assert(has_char(name, name[i] as u32 as int));
    }
}

proof fn lemma_last_at(s: Seq<char>, c: char, k: int)
    requires
        -1 <= k < s.len(),
        k >= 0 ==> s[k] == c,
        forall|i: int| k < i < s.len() ==> #[trigger] s[i] != c,
    ensures
        last_at(s, c) == k,
    decreases s.len(),
{
    let n: int = s.len() - 1;
    if k < n {
        assert(s[n] != c);
        let front = s.drop_last();
        assert forall|i: int| k < i < front.len() implies #[trigger] front[i] != c by {
            assert(front[i] == s[i]);
        }
        lemma_last_at(front, c, k);
    }
}

/// A file is a language's by its ending, small or capital, and the language's code is what
/// stands before it.
pub proof fn a_file_has_its_code(code: Seq<char>, a: char, b: char, c: char)
    requires
        a != '.',
        b != '.',
        c != '.',
    ensures
        ({
            let name = code + seq!['.', a, b, c];
            &&& (code.len() > 0 && (a == 'i' || a == 'I') && (b == 'n' || b == 'N') && (c == 'i'
                || c == 'I')) ==> file_code(name) == Some(code)
            &&& code.len() == 0 ==> file_code(name) is None
            &&& !((a == 'i' || a == 'I') && (b == 'n' || b == 'N') && (c == 'i' || c == 'I'))
                ==> file_code(name) is None
        }),
{
    let name = code + seq!['.', a, b, c];
    let k: int = code.len() as int;
    assert(name[k] == '.');
    assert forall|i: int| k < i < name.len() implies #[trigger] name[i] != '.' by {
        assert(i == k + 1 || i == k + 2 || i == k + 3);
    }
    lemma_last_at(name, '.', k);
    let end = name.skip(k + 1);
    assert(end =~= seq![a, b, c]);
    assert(name.take(k) == code);
    reveal_strlit("ini");
    let low = ascii_lower(end);
    assert(low.len() == 3 && low[0] == lower(a) && low[1] == lower(b) && low[2] == lower(c));
    if (a == 'i' || a == 'I') && (b == 'n' || b == 'N') && (c == 'i' || c == 'I') {
        assert(lower('I') as u32 == 'i' as u32);
        assert(lower('N') as u32 == 'n' as u32);
        assert(low =~= "ini"@);
    } else if low == "ini"@ {
        assert(low[0] == 'i' && low[1] == 'n' && low[2] == 'i');
        lemma_lower_is(a, 'i');
        lemma_lower_is(b, 'n');
        lemma_lower_is(c, 'i');
        assert(false);
    }
}

proof fn lemma_lower_is(c: char, small: char)
    requires
        lower(c) == small,
        'a' <= small <= 'z',
    ensures
        c == small || c as u32 == small as u32 - 32,
{
}

/// A file without a dot is no language's.
pub proof fn a_file_without_an_ending(name: Seq<char>)
    requires
        forall|i: int| 0 <= i < name.len() ==> #[trigger] name[i] != '.',
    ensures
        file_code(name) is None,
{
    lemma_last_at(name, '.', -1);
}

/// Every file of a language is read, once, and no other.
pub proof fn every_language_is_read(fs: Seq<LocaleFile>)
    ensures
        language_files(fs).len() <= fs.len(),
        forall|i: int|
            0 <= i < fs.len() && file_code((#[trigger] fs[i]).file_name@) is Some
                ==> language_files(fs).contains(
                (file_code(fs[i].file_name@).unwrap(), fs[i].text@),
            ),
        forall|k: int|
            0 <= k < language_files(fs).len() ==> exists|i: int|
                0 <= i < fs.len() && file_code((#[trigger] fs[i]).file_name@) == Some(
                    (#[trigger] language_files(fs)[k]).0,
                ) && fs[i].text@ == language_files(fs)[k].1,
    decreases fs.len(),
{
    if fs.len() > 0 {
        let front = fs.drop_last();
        let n: int = fs.len() - 1;
        every_language_is_read(front);
        let before = language_files(front);
        let out = language_files(fs);
        assert(fs[n] == fs.last());
        assert forall|k: int| 0 <= k < before.len() implies out[k] == before[k] by {}
        assert forall|i: int|
            0 <= i < fs.len() && file_code((#[trigger] fs[i]).file_name@)
                is Some implies out.contains(
            (file_code(fs[i].file_name@).unwrap(), fs[i].text@),
        ) by {
            if i < n {
                assert(front[i] == fs[i]);
                let x = (file_code(front[i].file_name@).unwrap(), front[i].text@);
                assert(before.contains(x));
                let k = choose|k: int| 0 <= k < before.len() && before[k] == x;
                assert(out[k] == x);
            } else {
                assert(out[before.len() as int] == (
                    file_code(fs[n].file_name@).unwrap(),
                    fs[n].text@,
                ));
            }
        }
        assert forall|k: int| 0 <= k < out.len() implies exists|i: int|
            0 <= i < fs.len() && file_code((#[trigger] fs[i]).file_name@) == Some(
                (#[trigger] out[k]).0,
            ) && fs[i].text@ == out[k].1 by {
            if k < before.len() {
                assert(out[k] == before[k]);
                let i = choose|i: int|
                    0 <= i < front.len() && file_code((#[trigger] front[i]).file_name@) == Some(
                        before[k].0,
                    ) && front[i].text@ == before[k].1;
                assert(fs[i] == front[i]);
            } else {
                assert(file_code(fs[n].file_name@) == Some(out[k].0));
            }
        }
    }
}

/// The folder is read once: what was read is kept, and the language in use is not touched.
pub proof fn the_folder_is_read_once(before: Locales, after: Locales, files: Seq<LocaleFile>)
    requires
        is_loaded(before, after, files),
    ensures
        after.active == before.active,
        after.languages is Some,
        before.languages is Some ==> known_languages(after) == known_languages(before),
        before.languages is None ==> languages_of(files, known_languages(after)),
{
}

// ---------------------------------------------------------------------------
// The language in use
// ---------------------------------------------------------------------------

proof fn lemma_first_fit(v: Seq<Language>, game: Seq<char>)
    requires
        v.len() <= usize::MAX,
    ensures
        match first_fit(v, game) {
            Some(k) => k < v.len() && v[k as int].fits(game) && forall|j: int|
                0 <= j < k ==> !(#[trigger] v[j]).fits(game),
            None => forall|j: int| 0 <= j < v.len() ==> !(#[trigger] v[j]).fits(game),
        },
    decreases v.len(),
{
    if v.len() > 0 {
        let front = v.drop_last();
        lemma_first_fit(front, game);
        assert(v[v.len() - 1] == v.last());
        assert forall|j: int| 0 <= j < front.len() implies #[trigger] v[j] == front[j] by {}
    }
}

proof fn lemma_first_coded(v: Seq<Language>, code: Seq<char>)
    requires
        v.len() <= usize::MAX,
    ensures
        match first_coded(v, code) {
            Some(k) => k < v.len() && ascii_lower(v[k as int].code@) == ascii_lower(code)
                && forall|j: int|
                0 <= j < k ==> ascii_lower((#[trigger] v[j]).code@) != ascii_lower(code),
            None => forall|j: int|
                0 <= j < v.len() ==> ascii_lower((#[trigger] v[j]).code@) != ascii_lower(code),
        },
    decreases v.len(),
{
    if v.len() > 0 {
        let front = v.drop_last();
        lemma_first_coded(front, code);
        assert(v[v.len() - 1] == v.last());
        assert forall|j: int| 0 <= j < front.len() implies #[trigger] v[j] == front[j] by {}
    }
}

/// A setting chooses the first language with its code, whatever the case of the letters; `auto`
/// chooses the first that the game speaks. If there is none the text of the code is shown.
pub proof fn which_language_is_chosen(
    v: Seq<Language>,
    setting: Seq<char>,
    game: Seq<char>,
    k: int,
)
    requires
        v.len() <= usize::MAX,
        0 <= k < v.len(),
    ensures
        (ascii_lower(trim(setting)) == "auto"@ && v[k].fits(ascii_lower(game)) && forall|j: int|
            0 <= j < k ==> !(#[trigger] v[j]).fits(ascii_lower(game))) ==> chosen(v, setting, game)
            == Some(k as usize),
        (ascii_lower(trim(setting)) != "auto"@ && ascii_lower(v[k].code@) == ascii_lower(
            trim(setting),
        ) && forall|j: int|
            0 <= j < k ==> ascii_lower((#[trigger] v[j]).code@) != ascii_lower(trim(setting)))
            ==> chosen(v, setting, game) == Some(k as usize),
        chosen(v, setting, game) matches Some(i) ==> i < v.len(),
        (chosen(v, setting, game) is None && ascii_lower(trim(setting)) == "auto"@) ==> !v[k].fits(
            ascii_lower(game),
        ),
        (chosen(v, setting, game) is None && ascii_lower(trim(setting)) != "auto"@)
            ==> ascii_lower(v[k].code@) != ascii_lower(trim(setting)),
{
    lemma_first_fit(v, ascii_lower(game));
    lemma_first_coded(v, trim(setting));
    if first_fit(v, ascii_lower(game)) is Some {
        let i = first_fit(v, ascii_lower(game)).unwrap() as int;
        assert(v[i].fits(ascii_lower(game)));
    }
    if first_coded(v, trim(setting)) is Some {
        let i = first_coded(v, trim(setting)).unwrap() as int;
        assert(ascii_lower(v[i].code@) == ascii_lower(trim(setting)));
    }
}

/// The game speaks a language if Steam calls it so, or if what the game says begins with the
/// language's code; where nobody knows what it speaks, by Steam's name alone.
pub proof fn which_language_the_game_speaks(lang: Language, rest: Seq<char>, game: Seq<char>)
    ensures
        texts(lang.steam@).contains(game) ==> lang.fits(game),
        (lang.code@ + rest).len() > 0 ==> lang.fits(lang.code@ + rest),
        (!texts(lang.steam@).contains(game) && game.len() < lang.code@.len()) ==> !lang.fits(game),
        (game.len() == 0 && !texts(lang.steam@).contains(game)) ==> !lang.fits(game),
{
    assert((lang.code@ + rest).take(lang.code@.len() as int) == lang.code@);
}

/// A text is shown as the language in use translates it, by its last translation; a text that
/// it does not translate, and every text while no language is in use, is shown in English.
pub proof fn how_a_text_is_shown(l: Locales, lang: Language, i: int, en: Seq<char>)
    requires
        current_language(l) == Some(lang),
    ensures
        (0 <= i < lang.pairs@.len() && lang.pairs@[i].0@ == en && forall|j: int|
            i < j < lang.pairs@.len() ==> (#[trigger] lang.pairs@[j]).0@ != en) ==> translated(
            l,
            en,
        ) == lang.pairs@[i].1@,
        (forall|j: int| 0 <= j < lang.pairs@.len() ==> (#[trigger] lang.pairs@[j]).0@ != en)
            ==> translated(l, en) == plain_text(en),
{
    let es = pair_texts(lang.pairs@);
    assert forall|j: int| 0 <= j < es.len() implies (#[trigger] es[j]).0 == lang.pairs@[j].0@ by {}
    if 0 <= i < lang.pairs@.len() && lang.pairs@[i].0@ == en && forall|j: int|
        i < j < lang.pairs@.len() ==> (#[trigger] lang.pairs@[j]).0@ != en {
        assert forall|j: int| i < j < es.len() implies (#[trigger] es[j]).0 != es[i].0 by {
            assert(lang.pairs@[j].0@ != en);
        }
        the_last_value_counts(es, i);
    }
    if forall|j: int| 0 <= j < lang.pairs@.len() ==> (#[trigger] lang.pairs@[j]).0@ != en {
        assert forall|j: int| 0 <= j < es.len() implies (#[trigger] es[j]).0 != en by {
            assert(lang.pairs@[j].0@ != en);
        }
        lemma_no_value(es, en);
    }
}

/// Without a language in use everything is English: the texts, the code, the letters.
pub proof fn without_a_language(l: Locales, en: Seq<char>)
    requires
        l.active is None || l.languages is None,
    ensures
        translated(l, en) == plain_text(en),
        active_code(l) == seq!['e', 'n'],
        ranges_for(l) == seq![32u32, 255u32, 1024u32, 1327u32, 0u32],
{
    reveal_strlit("en");
    assert(active_code(l) =~= seq!['e', 'n']);
}

/// The language in use is the one at its place in the list: its code and its letters are what
/// is told, and every language can be chosen by its code and name.
pub proof fn the_language_in_use(l: Locales, v: Seq<Language>, i: usize)
    requires
        l.languages is Some,
        l.languages.unwrap()@ == v,
        l.active == Some(i),
        i < v.len(),
    ensures
        active_code(l) == v[i as int].code@,
        ranges_for(l) == v[i as int].ranges@,
        choices(l).len() == v.len(),
        choices(l)[i as int] == (v[i as int].code@, v[i as int].name@),
{
}

/// What follows two hash signs is not shown; a text without them is shown whole.
pub proof fn what_is_shown_of_a_key(s: Seq<char>, k: int)
    requires
        0 <= k <= s.len(),
        forall|i: int| 0 <= i < k && i + 1 < s.len() ==> !(#[trigger] s[i] == '#' && s[i + 1] == '#'),
        k < s.len() ==> k + 1 < s.len() && s[k] == '#' && s[k + 1] == '#',
    ensures
        plain_text(s) == s.take(k),
    decreases s.len(),
{
    if s.len() >= 2 && k > 0 {
        assert(!(s[0] == '#' && s[1] == '#'));
        let rest = s.skip(1);
        assert forall|i: int| 0 <= i < k - 1 && i + 1 < rest.len() implies !(#[trigger] rest[i]
            == '#' && rest[i + 1] == '#') by {
            assert(s[i + 1] == rest[i] && s[i + 2] == rest[i + 1]);
        }
        what_is_shown_of_a_key(rest, k - 1);
        lemma_hash_bound(rest);
        assert(rest.take(hash_at(rest)).len() == rest.take(k - 1).len());
        assert(hash_at(s) == k);
    } else if s.len() < 2 {
        assert(k == s.len());
    }
}

proof fn lemma_hash_bound(s: Seq<char>)
    ensures
        0 <= hash_at(s) <= s.len(),
    decreases s.len(),
{
    if s.len() >= 2 && !(s[0] == '#' && s[1] == '#') {
        lemma_hash_bound(s.skip(1));
    }
}

} // verus!
