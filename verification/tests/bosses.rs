use std::collections::{HashMap, HashSet};

use game_information_counter::boss_list::{
    collapse, nearest, needs_build, refresh_distances, rows, sort_rows, still_serves, Gap, Row,
};
use game_information_counter::bosses::{
    cell_of_entity, comparable, graces, names_and_pins, place_of, player_cell, tiled, Bonfire,
    Boss, Cell, Grace, GraceMarker, Marker, Point, SubCategory, Tab,
};
use game_information_counter::learned::{
    forget_learned, init, learn, learn_from_world, learned_count, learned_text, parse_learned,
    pick_risen, Lore, Near,
};
use game_information_counter::probe::{block_start, probe, raised, Sighting};
use game_information_counter::registry::{
    build, chr_name, name_id_of, npc_model, npc_name, one_per_flag, remembrance_flags, table,
    table_id, table_name, Area, AreaFacts, Sources, TableName,
};
use game_information_counter::scalar::Scalar;

const TILE: f32 = 256.0;

fn s(x: f32) -> Scalar {
    Scalar::from_bits(x.to_bits())
}

fn f(x: Scalar) -> f32 {
    f32::from_bits(x.bits)
}

fn point(p: (f32, f32, f32)) -> Point {
    Point { x: s(p.0), y: s(p.1), z: s(p.2) }
}

fn flat(cell: Cell, pos: (f32, f32, f32)) -> (f32, f32) {
    if tiled(cell.0) {
        (cell.1 as f32 * TILE + pos.0, cell.2 as f32 * TILE + pos.2)
    } else {
        (pos.0, pos.2)
    }
}

fn squares(map: Cell, pos: (f32, f32, f32), graces: &[Grace]) -> Vec<Scalar> {
    let me = flat(map, pos);
    graces
        .iter()
        .map(|g| {
            let p = flat(g.cell, (f(g.pos.x), f(g.pos.y), f(g.pos.z)));
            s((p.0 - me.0).powi(2) + (p.1 - me.1).powi(2))
        })
        .collect()
}

fn place(map: Cell, pos: (f32, f32, f32), graces: &Vec<Grace>) -> Option<String> {
    place_of(map, graces, &squares(map, pos, graces))
}

#[test]
fn a_fight_names_exactly_one_boss() {
    let up = |watch: &Vec<u32>, f: fn(u32) -> bool| watch.iter().map(|w| f(*w)).collect::<Vec<bool>>();
    let mut watch = vec![10, 20, 30];
    let raised = up(&watch, |f| f == 20 || f == 30);
    assert_eq!(pick_risen(&mut watch, &raised), Some(20));
    assert!(watch.is_empty(), "the snapshot is put out as a whole");
    let raised = up(&watch, |_| true);
    assert_eq!(pick_risen(&mut watch, &raised), None, "nothing is left to be put out");

    let mut watch = vec![10, 20];
    let raised = up(&watch, |_| false);
    assert_eq!(pick_risen(&mut watch, &raised), None);
    assert_eq!(watch.len(), 2, "nobody has risen: go on waiting");
}

#[test]
fn name_id_follows_the_model() {
    assert_eq!(name_id_of(2130), 902_130_000, "Margit, c2130");
    assert_eq!(name_id_of(4750), 904_750_000, "Godrick, c4750");
    assert_eq!(name_id_of(5130), 905_130_000, "Messmer, c5130");
}

#[test]
fn a_name_id_wraps_into_32_bits() {
    assert_eq!(name_id_of(2_000_000), -1_394_967_296);
}

#[test]
fn the_table_reads_both_forms() {
    let t = table("# names\n10000800 904750000 R\n10000850 902130000\n20 \"Dragon = \"\n30 \"x\" R\nbad line\n40 x\n\n");
    assert_eq!(t.len(), 4);
    assert!(matches!(t.get(&10000800).map(|r| (&r.name, r.remembrance)), Some((TableName::Id(904_750_000), true))));
    assert!(matches!(t.get(&10000850).map(|r| (&r.name, r.remembrance)), Some((TableName::Id(902_130_000), false))));
    assert!(matches!(t.get(&20).map(|r| &r.name), Some(TableName::Text(n)) if n == "Dragon = "));
    assert!(t.get(&1).is_none());
    let mut flags: Vec<u32> = remembrance_flags(&t).into_iter().collect();
    flags.sort();
    assert_eq!(flags, vec![30, 10000800]);
    assert_eq!(table_id(&t, 10000850), Some(902_130_000));
    assert_eq!(table_id(&t, 20), None);
    assert_eq!(table_name(&t, 20, &None).as_deref(), Some("Dragon = "));
    assert_eq!(table_name(&t, 10000850, &Some("Margit".to_string())).as_deref(), Some("Margit"));
    assert_eq!(table_name(&t, 10000850, &None), None);
    assert_eq!(table_name(&t, 77, &Some("x".to_string())), None);
}

fn grace(cell: Cell, x: f32, z: f32, place: &str) -> Grace {
    Grace { cell, pos: point((x, 0.0, z)), place: place.into() }
}

fn some_graces() -> Vec<Grace> {
    vec![
        grace((10, 0, 0), 0.0, 0.0, "Замок Штормвейл"),
        grace((10, 0, 0), 200.0, 0.0, "Туннель под замком"),
        grace((60, 40, 50), 0.0, 0.0, "Лимгрейв"),
        grace((60, 43, 37), 0.0, 0.0, "Кэлид"),
    ]
}

#[test]
fn the_nearest_grace_of_the_same_map_names_the_place() {
    let g = some_graces();
    assert_eq!(place((10, 0, 0), (10.0, 0.0, 0.0), &g).as_deref(), Some("Замок Штормвейл"));
    assert_eq!(place((10, 0, 0), (190.0, 0.0, 0.0), &g).as_deref(), Some("Туннель под замком"));
}

#[test]
fn a_cell_without_a_grace_borrows_from_its_neighbour() {
    let g = some_graces();
    assert_eq!(place((60, 41, 50), (0.0, 0.0, 0.0), &g).as_deref(), Some("Лимгрейв"));
    assert_eq!(place((60, 43, 38), (0.0, 0.0, 0.0), &g).as_deref(), Some("Кэлид"));
    assert_eq!(place((99, 0, 0), (0.0, 0.0, 0.0), &g), None, "another area does not do");
}

#[test]
fn across_tiles_distance_wins_over_the_cell_number() {
    let g = vec![
        grace((60, 39, 50), 0.0, 0.0, "своя клетка, но далеко"),
        grace((60, 40, 50), 5.0, 0.0, "соседняя клетка, но рядом"),
    ];
    let at_the_edge = (250.0, 0.0, 0.0);
    assert_eq!(place((60, 39, 50), at_the_edge, &g).as_deref(), Some("соседняя клетка, но рядом"));
}

#[test]
fn a_map_without_a_grace_falls_back_to_its_zone() {
    let g = vec![
        grace((10, 0, 0), 999.0, 999.0, "Замок Штормвейл"),
        grace((12, 8, 0), 0.0, 0.0, "Нокрон"),
    ];
    assert_eq!(place((10, 1, 0), (0.0, 0.0, 0.0), &g).as_deref(), Some("Замок Штормвейл"));
    assert_eq!(place((12, 9, 0), (0.0, 0.0, 0.0), &g).as_deref(), Some("Нокрон"));
    assert_eq!(place((44, 0, 0), (0.0, 0.0, 0.0), &g), None, "another area is no place");
}

#[test]
fn the_open_world_has_no_zone_fallback() {
    let g = vec![grace((61, 40, 40), 0.0, 0.0, "Земли Теней")];
    assert_eq!(place((60, 39, 50), (0.0, 0.0, 0.0), &g), None);
}

#[test]
fn only_maps_of_one_grid_are_comparable() {
    assert!(comparable((60, 43, 37), (60, 44, 37)));
    assert!(!comparable((60, 43, 37), (61, 43, 37)));
    assert!(!comparable((60, 43, 37), (10, 0, 0)));
    assert!(comparable((10, 0, 0), (10, 0, 0)));
    assert!(!comparable((10, 0, 0), (10, 1, 0)));
    assert!(tiled(60) && !tiled(59));
}

#[test]
fn the_learned_file_survives_hand_editing() {
    let m = parse_learned(
        "10010800 = Эгхил, крылатый дракон

мусор
25000800=Матерь Пальцев
30 = 
40 = a = b
",
    );
    assert_eq!(m.get(&10010800).map(String::as_str), Some("Эгхил, крылатый дракон"));
    assert_eq!(m.get(&25000800).map(String::as_str), Some("Матерь Пальцев"));
    assert_eq!(m.get(&30), None, "an empty name is no name");
    assert_eq!(m.get(&40).map(String::as_str), Some("a = b"));
    assert_eq!(m.len(), 3);
}

#[test]
fn learned_names_are_read_back() {
    let m: HashMap<u32, String> =
        [(5, "b".to_string()), (40, "a = c".to_string()), (12, "x".to_string())].into_iter().collect();
    let text = learned_text(&m);
    assert_eq!(text, "12 = x\n40 = a = c\n5 = b");
    assert_eq!(parse_learned(&text), m);
}

fn boss(flag: u32, map: Cell, place: &str) -> Boss {
    Boss {
        flag,
        name: Some("Годрик".into()),
        map,
        pos: point((0.0, 0.0, 0.0)),
        place: Some(place.into()),
        remembrance: false,
    }
}

#[test]
fn one_flag_means_one_boss() {
    let rows = [
        boss(10000800, (60, 39, 50), "Тракт Беллума"),
        boss(10000800, (10, 0, 0), "Замок Грозовой Завесы"),
        boss(25000800, (25, 0, 0), "Река Сиофра"),
    ];
    let out = rows.into_iter().fold(Vec::new(), one_per_flag);
    assert_eq!(out.len(), 2, "two rows of one flag are one boss");
    assert_eq!(out[0].place.as_deref(), Some("Замок Грозовой Завесы"), "a map of its own counts for more than a tile");
}

#[test]
fn the_map_wins_whichever_row_came_first() {
    let rows = [
        boss(10000800, (10, 0, 0), "Замок Грозовой Завесы"),
        boss(10000800, (60, 39, 50), "Тракт Беллума"),
    ];
    let out = rows.into_iter().fold(Vec::new(), one_per_flag);
    assert_eq!(out.len(), 1);
    assert_eq!(out[0].place.as_deref(), Some("Замок Грозовой Завесы"));
}

fn gap(dist: f32, dy: f32) -> Gap {
    Gap { dist: s(dist), dy: s(dy), reach: s(dist.hypot(dy)) }
}

fn row(name: &str, place: &str, dist: Option<f32>, here: bool) -> Row {
    Row {
        remembrance: false,
        name: name.into(),
        place: place.into(),
        gap: dist.map(|d| gap(d, 0.0)),
        here,
        killed: false,
        count: 1,
        map: (60, 43, 37),
        pos: point((0.0, 0.0, 0.0)),
    }
}

#[test]
fn namesakes_of_one_place_collapse_but_the_dead_stay_apart() {
    let mut rows = vec![
        row("Кристалиец", "Плато Альтус", Some(90.0), false),
        row("Кристалиец", "Плато Альтус", Some(40.0), false),
        Row { killed: true, ..row("Кристалиец", "Плато Альтус", None, false) },
        row("Кристалиец", "Кэлид", None, false),
    ];
    collapse(&mut rows);
    assert_eq!(rows.len(), 3);
    assert_eq!(rows[0].count, 2, "two living namesakes are one row");
    assert_eq!(rows[0].gap.map(|g| f(g.dist)), Some(40.0), "the nearest of the group is shown");
    assert!(rows[1].killed && rows[1].count == 1, "the dead one is apart");
    assert_eq!(rows[2].place, "Кэлид", "another place does not merge");
    assert_eq!(rows.iter().map(|r| r.count).sum::<usize>(), 4, "everybody is counted");
}

#[test]
fn a_dungeon_map_comes_out_of_the_entity_id() {
    assert_eq!(cell_of_entity(10001950, 10), Some((10, 0, 0)));
    assert_eq!(cell_of_entity(30170800, 30), Some((30, 17, 0)));
    assert_eq!(cell_of_entity(30170800, 60), Some((30, 17, 0)));
    assert_eq!(cell_of_entity(1042380800, 60), None, "an id of the open world is longer");
    assert_eq!(cell_of_entity(4001950, 10), None, "an area out of the range of maps makes no sense");
    assert_eq!(cell_of_entity(4001950, 60), None, "nor from the cell of the entrance");
    assert_eq!(cell_of_entity(0, 10), None);
}

#[test]
fn namesakes_stay_in_their_own_regions() {
    let mut rows = vec![
        row("Ночной всадник", "Кэлид", None, false),
        row("Годрик", "Лимгрейв", None, false),
        row("Ночной всадник", "Лимгрейв", None, false),
    ];
    sort_rows(&mut rows);
    let by_place: Vec<(&str, &str)> = rows.iter().map(|r| (r.place.as_str(), r.name.as_str())).collect();
    assert_eq!(
        by_place,
        [("Кэлид", "Ночной всадник"), ("Лимгрейв", "Годрик"), ("Лимгрейв", "Ночной всадник")]
    );
}

#[test]
fn coded_places_sink_to_the_bottom() {
    let mut rows = vec![
        row("безымянное место", "m30_17_00", None, false),
        row("Реннала", "Академия Райи Лукарии", None, false),
        row("ещё одно", "m30_17_00", None, false),
        row("Годрик", "Замок Грозовой Завесы", None, false),
    ];
    sort_rows(&mut rows);
    let places: Vec<&str> = rows.iter().map(|r| r.place.as_str()).collect();
    assert_eq!(places, ["Академия Райи Лукарии", "Замок Грозовой Завесы", "m30_17_00", "m30_17_00"]);
}

#[test]
fn a_region_never_appears_twice() {
    let mut rows = vec![
        row("дальний", "Кэлид", None, false),
        row("свой ближний", "Лимгрейв", Some(10.0), true),
        row("другой дальний", "Кэлид", None, false),
        row("свой дальний", "Лимгрейв", None, true),
    ];
    sort_rows(&mut rows);
    let mut seen: Vec<&str> = Vec::new();
    for r in &rows {
        if seen.last() != Some(&r.place.as_str()) {
            assert!(!seen.contains(&r.place.as_str()), "place {} is torn apart", r.place);
            seen.push(&r.place);
        }
    }
    assert_eq!(rows[0].name, "свой ближний", "the near place comes first");
    assert_eq!(rows[1].place, "Лимгрейв", "and its group is not torn apart");
}

#[test]
fn height_decides_who_is_nearest() {
    let mut deep = row("deep", "p", None, false);
    deep.gap = Some(gap(50.0, 1000.0));
    let level = row("level", "p", Some(300.0), false);
    let dead = Row { killed: true, ..row("dead", "p", Some(1.0), false) };
    let list = vec![deep, level, dead];
    let (name, dist, dy) = nearest(&list, s(2000.0)).unwrap();
    assert_eq!((name.as_str(), f(dist), f(dy)), ("level", 300.0, 0.0));
    assert!(nearest(&list, s(299.0)).is_none());
}

#[test]
fn the_list_is_built_sorted_and_refreshed() {
    let mut near = boss(1, (60, 40, 50), "Лимгрейв");
    near.name = None;
    let mut lost = boss(2, (30, 17, 0), "");
    lost.place = None;
    let bosses = vec![lost, near];
    let mut out = rows(
        &bosses,
        &vec![None, Some(gap(10.0, 0.0))],
        &vec![true, false],
        &Some("Лимгрейв".to_string()),
        s(100.0),
        "Boss",
    );
    assert_eq!(out.len(), 2);
    assert_eq!((out[0].name.as_str(), out[0].place.as_str(), out[0].here), ("Boss", "Лимгрейв", true));
    assert_eq!((out[1].name.as_str(), out[1].place.as_str(), out[1].killed), ("Годрик", "m30_17_00", true));
    refresh_distances(&mut out, &Some(vec![Some(gap(20.0, 3.0)), None]));
    assert_eq!(out[0].gap.map(|g| f(g.dist)), Some(20.0));
    refresh_distances(&mut out, &None);
    assert_eq!(out[0].gap.map(|g| f(g.dist)), Some(20.0), "without a player the old numbers stay");
    assert!(still_serves(Some(5), s(1.0), 6, s(1.0)));
    assert!(!still_serves(Some(5), s(1.0), 6, s(2.0)));
    assert!(!still_serves(None, s(1.0), 6, s(1.0)));
    assert!(needs_build(&None));
    assert!(needs_build(&Some(vec![])));
    let nameless = |flag| Boss { name: None, ..boss(flag, (10, 0, 0), "x") };
    assert!(needs_build(&Some(vec![nameless(1), nameless(2)])), "the texts were not there yet");
    assert!(!needs_build(&Some(vec![nameless(1), boss(2, (10, 0, 0), "x")])));
}

#[test]
fn markers_name_bosses_before_graces_do() {
    let (names, pins) = names_and_pins(
        &vec![Marker { text: Some("Margit".into()), icon: 1, flag: 10, side_flags: vec![], cell: (60, 1, 2) }],
        &vec![
            GraceMarker { text: Some("Gate".into()), flag: 10, cleared_flag: 0 },
            GraceMarker { text: Some("Lake".into()), flag: 11, cleared_flag: 0 },
        ],
    );
    assert_eq!(names.get(&10).map(String::as_str), Some("Margit"));
    assert_eq!(names.get(&11).map(String::as_str), Some("Lake"));
    assert_eq!(pins.get(&10), Some(&(60, 1, 2)));
}

#[test]
fn graces_take_the_name_of_their_region() {
    let out = graces(
        &vec![Tab { id: 1, text: Some("Limgrave".into()) }],
        &vec![
            SubCategory { id: 7, text: None, tab: 1 },
            SubCategory { id: 8, text: Some("Stormhill".into()), tab: 1 },
        ],
        &vec![
            Bonfire { entity: 30170800, cell: (60, 1, 1), pos: point((1.0, 2.0, 3.0)), sub_category: 8 },
            Bonfire { entity: 0, cell: (60, 1, 1), pos: point((1.0, 2.0, 3.0)), sub_category: 7 },
            Bonfire { entity: 0, cell: (60, 1, 1), pos: point((1.0, 2.0, 3.0)), sub_category: 9 },
        ],
    );
    let got: Vec<(&str, Cell)> = out.iter().map(|g| (g.place.as_str(), g.cell)).collect();
    assert!(got.contains(&("Stormhill", (30, 17, 0))), "{got:?}");
    assert!(got.contains(&("Limgrave", (60, 1, 1))), "{got:?}");
    assert_eq!(got.len(), 2);
}

#[test]
fn the_registry_takes_the_best_name() {
    let s0 = Sources {
        learned: [(1, "learned".to_string())].into_iter().collect(),
        table: table("1 \"table\" R\n2 \"table two\"\n"),
        names: [(1, "marker".to_string()), (3, "marker three".to_string())].into_iter().collect(),
        pins: HashMap::new(),
        graces: vec![],
    };
    let area = |flag| Area { flag, map: (10, 0, 0), pos: point((0.0, 0.0, 0.0)) };
    let facts = || AreaFacts { text: None, squares: vec![], pin_squares: vec![] };
    let out = build(&s0, &vec![area(1), area(2), area(3), area(4)], &vec![facts(), facts(), facts(), facts()]);
    let names: Vec<Option<&str>> = out.iter().map(|b| b.name.as_deref()).collect();
    assert_eq!(names, [Some("learned"), Some("table two"), Some("marker three"), None]);
    assert!(out[0].remembrance && !out[1].remembrance);
}

#[test]
fn creatures_are_named_by_their_model() {
    assert_eq!(chr_name(0, Some("x".into())), None);
    assert_eq!(chr_name(2130, Some("Margit".into())).as_deref(), Some("Margit"));
    assert_eq!(npc_model(21300014), 2130);
    assert_eq!(npc_name(21300014, None, Some("name".into()), Some("role".into())).as_deref(), Some("name"));
    assert_eq!(npc_name(21300014, Some("model".into()), None, None).as_deref(), Some("model"));
    assert_eq!(npc_name(14, Some("model".into()), None, Some("role".into())).as_deref(), Some("role"));
}

#[test]
fn a_player_without_a_map_stands_where_they_came_from() {
    assert_eq!(player_cell(-1, (1, 2, 3), (4, 5, 6)), (4, 5, 6));
    assert_eq!(player_cell(7, (1, 2, 3), (4, 5, 6)), (1, 2, 3));
}

#[test]
fn a_fight_teaches_a_name() {
    let mut lore = Lore::new();
    init(&mut lore, "7 = seven");
    assert_eq!(learned_count(&lore), 1);
    let near = || Some(vec![Near { flag: 9, named: false, up: false, dist: Some(s(10.0)) }]);
    learn(&mut lore, &vec!["Agheel".to_string()], 0, &None, &near());
    let mut now = 0;
    while learned_count(&lore) == 1 && now < 10 {
        now += 1;
        learn(&mut lore, &vec!["Agheel".to_string()], now, &Some(vec![true]), &near());
    }
    assert_eq!(learned_count(&lore), 2);
    assert_eq!(lore.learned.as_ref().unwrap().get(&9).map(String::as_str), Some("Agheel"));
    forget_learned(&mut lore);
    assert_eq!(learned_count(&lore), 0);
}

#[test]
fn the_world_teaches_names() {
    let mut lore = Lore::new();
    init(&mut lore, "7 = seven");
    let wanted: HashSet<u32> = [7, 8, 9].into_iter().collect();
    let added = learn_from_world(
        &mut lore,
        &wanted,
        &vec![(7, Some("x".to_string())), (8, Some("eight".to_string())), (9, None), (1, Some("no".to_string()))],
    );
    assert_eq!(added, 1);
    assert_eq!(lore.learned.as_ref().unwrap().get(&8).map(String::as_str), Some("eight"));
    assert_eq!(lore.learned.as_ref().unwrap().get(&7).map(String::as_str), Some("seven"));
}

#[test]
fn diagnostics_stop_where_the_game_cannot_be_read() {
    let (out, flag) = probe(&None, &HashMap::new(), &HashSet::new(), &None, &None);
    assert_eq!(out, vec!["# БОССЫ", "  парамы не резолвятся"]);
    assert_eq!(flag, None);
    let (out, _) = probe(&Some(vec![]), &HashMap::new(), &HashSet::new(), &None, &None);
    assert_eq!(out[1], "  таблица знает 0/0 | с именем 0");
    assert_eq!(out.last().unwrap(), "  реестр не строится");
}

#[test]
fn diagnostics_name_flags_and_the_nearest() {
    let areas = Some(vec![(30, (10, 0, 0)), (0, (1, 1, 1)), (7, (60, 39, 50)), (30, (10, 2, 0)), (9, (30, 17, 0))]);
    let names = table("7 5 R\n");
    let ids: HashSet<u32> = [5].into_iter().collect();
    let mut nameless = boss(30, (10, 0, 0), "p");
    nameless.name = None;
    let bosses = Some(vec![boss(7, (60, 39, 50), "p"), nameless]);
    let near = Some(vec![
        Some(Sighting { dist: s(30.4), meters: "30".into(), killed: false }),
        Some(Sighting { dist: s(2.0), meters: "2".into(), killed: true }),
    ]);
    let (out, flag) = probe(&areas, &names, &ids, &bosses, &near);
    assert_eq!(
        out,
        vec![
            "# БОССЫ",
            "  таблица знает 1/3 | с именем 1",
            "  без имени: 2",
            "  9 m30_17_00 | 30 m10_02_00",
            "  с воспоминанием: 1",
            "  в реестре 2 | с именем 1 | с местом 2",
            "  30 убит 2м ?",
            "  7 жив 30м Годрик",
        ]
    );
    assert_eq!(flag, Some(7));
    let mut up = vec![false; 1000];
    for i in 0..60 {
        up[i] = true;
    }
    assert_eq!(block_start(10000800), 10000000);
    assert_eq!(block_start(999), 0);
    let lines = raised(10000800, &up);
    assert_eq!(lines.len(), 5);
    assert_eq!(lines[0], "  подняты в 10000xxx:");
    assert_eq!(lines[1], "  0 1 2 3 4 5 6 7 8 9 10 11");
    assert_eq!(lines[4], "  36 37 38 39 40 41 42 43 44 45 46 47");
}

#[test]
fn sorting_keeps_every_row() {
    let mut list = vec![
        row("b", "y", None, false),
        row("a", "x", Some(5.0), false),
        row("c", "y", Some(9.0), false),
        row("a", "x", Some(2.0), false),
    ];
    sort_rows(&mut list);
    let got: Vec<(&str, Option<f32>)> =
        list.iter().map(|r| (r.name.as_str(), r.gap.map(|g| f(g.dist)))).collect();
    assert_eq!(got, vec![("a", Some(2.0)), ("a", Some(5.0)), ("c", Some(9.0)), ("b", None)]);
    collapse(&mut list);
    assert_eq!(list.iter().map(|r| r.count).collect::<Vec<_>>(), vec![2, 1, 1]);
    for pair in list.windows(2) {
        assert!(pair[0].name != pair[1].name || pair[0].place != pair[1].place || pair[0].killed != pair[1].killed);
    }
}

#[test]
fn namesakes_merge_across_their_neighbours() {
    let mut list = vec![
        row("A", "x", Some(90.0), false),
        row("B", "x", Some(50.0), true),
        row("A", "x", Some(10.0), false),
        Row { killed: true, ..row("A", "x", Some(1.0), false) },
    ];
    sort_rows(&mut list);
    collapse(&mut list);
    let got: Vec<(&str, usize, bool, Option<f32>)> =
        list.iter().map(|r| (r.name.as_str(), r.count, r.killed, r.gap.map(|g| f(g.dist)))).collect();
    assert_eq!(got, vec![("A", 2, false, Some(10.0)), ("B", 1, false, Some(50.0)), ("A", 1, true, Some(1.0))]);
}

#[test]
fn the_list_of_flags_keeps_the_first_rows_in_order() {
    let rows = [
        boss(2, (60, 1, 1), "tile one"),
        boss(1, (11, 0, 0), "own one"),
        boss(2, (60, 2, 2), "tile two"),
        boss(2, (12, 0, 0), "own two"),
        boss(2, (13, 0, 0), "own three"),
        boss(3, (60, 3, 3), "tile three"),
        boss(3, (61, 4, 4), "tile four"),
        boss(1, (14, 0, 0), "own four"),
    ];
    let out = rows.into_iter().fold(Vec::new(), one_per_flag);
    let got: Vec<(u32, Option<&str>)> = out.iter().map(|b| (b.flag, b.place.as_deref())).collect();
    assert_eq!(got, vec![(2, Some("own two")), (1, Some("own one")), (3, Some("tile three"))]);
}
