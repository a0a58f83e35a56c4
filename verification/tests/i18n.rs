use game_information_counter::i18n::{
    active, apply, build, glyph_ranges, languages, load, parse, plain, ranges_of, read_dir,
    sync_built_in, t, LocaleFile, Locales,
};

const RUSSIAN: &str = "_name = Русский\n_steam = russian, ru_RU\nLanguage = Язык\nDeaths = Смерти\nDeaths##fight = Смертей\n";

fn file(name: &str, text: &str) -> LocaleFile {
    LocaleFile { file_name: name.to_string(), text: text.to_string() }
}

#[test]
fn locale_file_round_trips() {
    let p = parse(&[
        "\u{feff}; comment\n",
        "[section]\n",
        "\n",
        "_name = Русский\n",
        "_steam = russian, ru_RU\n",
        "Deaths = Смерти\n",
        "Deaths##fight = Смертей\n",
        "Hold for, s (0 - a tap) = Держать, с (0 = обычное нажатие)\n",
        "broken line without a separator\n",
        "= value without a key\n",
        "Empty =\n",
    ].join(""));
    assert_eq!(p.name.as_deref(), Some("Русский"));
    assert_eq!(p.steam, vec!["russian", "ru_ru"]);
    assert_eq!(p.pairs.len(), 3, "{:?}", p.pairs);
    assert_eq!(p.pairs[0], ("Deaths".into(), "Смерти".into()));
    assert_eq!(p.pairs[1], ("Deaths##fight".into(), "Смертей".into()));
    assert_eq!(p.pairs[2].1, "Держать, с (0 = обычное нажатие)");
}

#[test]
fn the_hash_suffix_never_reaches_the_screen() {
    assert_eq!(plain("Deaths##fight"), "Deaths");
    assert_eq!(plain("Deaths"), "Deaths");
    assert_eq!(t(&Locales::new(), "Deaths##fight"), "Deaths");
}

#[test]
fn glyph_ranges_are_valid_for_imgui() {
    let pairs = vec![
        ("a".to_string(), "Zażółć gęślą jaźń".to_string()),
        ("b".to_string(), "日本語 тире".to_string()),
    ];
    let r = ranges_of(&pairs, "Polski");
    assert_eq!(r.len() % 2, 1, "the length has to be odd");
    assert_eq!(r.last(), Some(&0), "a zero has to end it");
    let body = &r[..r.len() - 1];
    assert!(body.iter().all(|&g| g != 0 && g <= char::MAX as u32));
    let pairs: Vec<&[u32]> = body.chunks(2).collect();
    for p in &pairs {
        assert!(p[0] <= p[1], "the start is beyond the end: {p:?}");
    }
    for w in pairs.windows(2) {
        assert!(w[0][1] + 1 < w[1][0], "ranges touch: {:?} and {:?}", w[0], w[1]);
    }
    let covers = |c: u32| pairs.iter().any(|p| p[0] <= c && c <= p[1]);
    assert!(covers(0x41), "Latin is gone");
    assert!(covers(0x0416), "Cyrillic is gone");
    assert!(covers(0x017C), "a letter of the translation is gone");
    assert!(covers(0x65E5), "an ideogram of the translation is gone");
}

#[test]
fn a_language_translates_and_names_itself() {
    let ru = build("ru", RUSSIAN);
    assert_eq!(ru.code, "ru");
    assert_eq!(ru.name, "Русский");
    assert!(ru.fits_game("russian"), "the game's language picks it");
    assert!(ru.fits_game("ru_ru"));
    assert!(!ru.fits_game("english"));
    let find = |k: &str| ru.pairs.iter().find(|p| p.0 == k).map(|p| p.1.as_str());
    assert_eq!(find("Language"), Some("Язык"));
    assert_ne!(find("Deaths"), find("Deaths##fight"));
    assert!(ru.ranges.chunks(2).any(|p| p.len() == 2 && p[0] <= 0x42f && 0x42f <= p[1]));
}

#[test]
fn files_of_a_folder_become_languages() {
    let langs = read_dir(&vec![
        file("ru.ini", RUSSIAN),
        file("readme.txt", "not a locale"),
        file("pl.ini", "_name = Polski\n_steam = polish\nLevel = Poziom\n"),
        file("en.ini", "_name = English\nLevel = Level\n"),
    ]);
    assert_eq!(langs.iter().map(|l| l.code.as_str()).collect::<Vec<_>>(), ["en", "pl", "ru"]);
    let pl = &langs[1];
    assert_eq!(pl.name, "Polski");
    assert!(pl.pairs.iter().any(|p| p.0 == "Level" && p.1 == "Poziom"));
    assert!(!pl.pairs.iter().any(|p| p.0 == "Deaths"));
}

#[test]
fn a_chosen_language_is_spoken() {
    let mut l = Locales::new();
    assert_eq!(t(&l, "Deaths"), "Deaths");
    load(&mut l, &vec![file("ru.ini", RUSSIAN), file("en.ini", "_name = English\n_steam = english\nDeaths = Deaths\n")]);
    assert_eq!(languages(&l).len(), 2);
    apply(&mut l, "ru", "english");
    assert_eq!(active(&l), "ru");
    assert_eq!(t(&l, "Deaths"), "Смерти");
    assert_eq!(t(&l, "Deaths##fight"), "Смертей");
    assert_eq!(t(&l, "Level##x"), "Level", "what is not translated stays as it is, without the explanation");
    assert!(glyph_ranges(&l).len() % 2 == 1);
    apply(&mut l, "auto", "russian");
    assert_eq!(active(&l), "ru");
    apply(&mut l, "auto", "english");
    assert_eq!(active(&l), "en");
}

#[test]
fn an_update_only_adds_what_is_missing() {
    let disk = "_name = Mine\nDeaths = my own words\n";
    let built_in = "_name = English\nDeaths = Deaths\nLevel = Level\n";
    let out = sync_built_in(disk, built_in).expect("a key is missing");
    assert!(out.starts_with(disk), "{out}");
    let p = parse(&out);
    assert!(p.pairs.contains(&("Deaths".to_string(), "my own words".to_string())));
    assert!(p.pairs.contains(&("Level".to_string(), "Level".to_string())));
    assert_eq!(p.name.as_deref(), Some("Mine"));
    assert!(sync_built_in(&out, built_in).is_none(), "the second time nothing is missing");
}
