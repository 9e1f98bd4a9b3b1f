use tunante::library::{first_per_game, grid_lines, names_check, plan_action, playlist_rows_matching, NamesCheck};
use tunante::library::{
    add_archive_matches, add_library_matches, add_web_names, archive_base, push_suggestion, query_lower,
    ranked_suggestions, wants_web, Suggestions,
};
use tunante::library::{
    consoles_for_filter, direct_child, first_embedded_art_candidate, row_target, start_index, subsong_order,
    ConsoleNames, RowTarget,
};

#[test]
fn row_paths_decode() {
    assert!(matches!(row_target("consola:nes"), RowTarget::Console(c) if c == "nes"));
    assert!(matches!(row_target("juego:Hack//Sign"), RowTarget::Game(g) if g == "Hack//Sign"));
    match row_target("snes\u{1}/m/rips") {
        RowTarget::ConsoleDir { console, dir } => assert_eq!((console.as_str(), dir.as_str()), ("snes", "/m/rips")),
        _ => panic!("a console and a directory"),
    }
    assert!(matches!(row_target("Final Fantasy VII"), RowTarget::Path));
    assert!(matches!(row_target("/m/x/a.psf"), RowTarget::Path));
}

#[test]
fn direct_children_only() {
    assert!(direct_child("/a/b/x.nsf", "/a/b"));
    assert!(direct_child("/a/b/x.nsf", "/a/b//"));
    assert!(!direct_child("/a/b/c/x.nsf", "/a/b"));
    assert!(!direct_child("/a/bc/x.nsf", "/a/b"));
}

#[test]
fn subsongs_in_index_order() {
    assert_eq!(subsong_order(&vec![Some(3), None, Some(1), Some(3), Some(0)]), vec![1, 4, 2, 0, 3]);
}

#[test]
fn the_first_rich_file_by_name() {
    let names: Vec<Vec<u8>> = vec![
        b"b.SPC".to_vec(),
        b"z.Mp3".to_vec(),
        b".flac".to_vec(),
        b"c.flac".to_vec(),
        b"a.nsf".to_vec(),
    ];
    assert_eq!(first_embedded_art_candidate(&names), Some(3));
    assert_eq!(first_embedded_art_candidate(&vec![b"x.spc".to_vec(), b"noext".to_vec()]), None);
}

fn console(es: &str, en: &str, codecs: &[&str], order: i64) -> ConsoleNames {
    ConsoleNames {
        name_es: es.to_string(),
        name: en.to_string(),
        codecs: codecs.iter().map(|c| c.to_string()).collect(),
        order,
    }
}

#[test]
fn consoles_rank_exact_prefix_codec_substring() {
    let cs = vec![
        console("Super Nintendo", "Super Nintendo", &["spc"], 3),
        console("Nintendo", "NES", &["nsf"], 2),
        console("Game Boy", "Game Boy", &["gbs"], 1),
        console("Nintendo 64", "Nintendo 64", &["usf"], 4),
    ];
    assert_eq!(consoles_for_filter("  ", &cs), vec![0, 1, 2, 3]);
    assert_eq!(consoles_for_filter(" NINTENDO ", &cs), vec![1, 3, 0]);
    assert_eq!(consoles_for_filter("spc", &cs), vec![0]);
    assert_eq!(consoles_for_filter("boy", &cs), vec![2]);
    assert!(consoles_for_filter("zzz", &cs).is_empty());
}

#[test]
fn playback_starts_at_the_chosen_file() {
    let paths = vec!["/m/a".to_string(), "/m/b".to_string(), "/m/b".to_string()];
    assert_eq!(start_index(&paths, "/m/b"), 1);
    assert_eq!(start_index(&paths, "/m/z"), 0);
}

#[test]
fn synthetic_rows() {
    let rows = tunante::library::generated_rows(26);
    assert_eq!(rows.len(), 26);
    assert_eq!(rows[0].title, "Folder 0");
    assert!(rows[0].is_folder && rows[0].expanded);
    assert_eq!(rows[0].subtitle, "11 items");
    assert_eq!(rows[12].title, "Folder 1");
    assert!(rows[12].is_folder && !rows[12].expanded);
    assert_eq!(rows[7].title, "Track 000007 — a title long enough to need eliding");
    assert_eq!(rows[7].subtitle, "3:07");
    assert_eq!(rows[25].depth, 1);
}

#[test]
fn rename_suggestions_rank_prefix_then_length() {
    let ql = query_lower("  Mario ");
    assert_eq!(ql, vec!['m', 'a', 'r', 'i', 'o']);
    let mut s = Suggestions::new();
    let library = vec!["Super Mario World".to_string(), "MARIO KART".to_string(), "Zelda".to_string()];
    add_library_matches(&mut s, &library, &ql);
    assert_eq!(s.names, ["Super Mario World", "MARIO KART"]);
    push_suggestion(&mut s, "mario kart".to_string());
    assert_eq!(s.names.len(), 2, "the same name in another case is not offered twice");
    assert_eq!(archive_base("Mario Paint (Japan) (Rev 1).sfc"), "Mario Paint");
    assert_eq!(archive_base("  Plain "), "Plain");
    add_archive_matches(&mut s, &vec!["Mario Paint (Japan).sfc".to_string(), "Other (USA).sfc".to_string()], &ql);
    assert_eq!(s.names.len(), 3);
    assert!(wants_web(&s));
    add_web_names(&mut s, vec!["Dr. Mario".to_string(), "Mario".to_string()]);
    let r = ranked_suggestions(&s, &ql);
    assert_eq!(r, ["Mario", "MARIO KART", "Mario Paint", "Dr. Mario", "Super Mario World"]);
}

#[test]
fn listings_and_cover_plans() {
    assert_eq!(names_check(0, true, 0), NamesCheck::NoListing);
    assert_eq!(names_check(12, false, 12), NamesCheck::CountMismatch);
    assert_eq!(names_check(12, true, 0), NamesCheck::NothingNamed);
    assert_eq!(names_check(12, true, 3), NamesCheck::Ready);
    assert_eq!(plan_action(true, false, true), ("ya tiene (se conserva)", false));
    assert_eq!(plan_action(false, true, true), ("sin resultado", false));
    assert_eq!(plan_action(false, false, false), ("sin resultado", false));
    assert_eq!(plan_action(false, false, true), ("se escribiría", true));
}

#[test]
fn a_game_name_with_a_slash_survives_the_crumb() {
    match row_target("juego:Hack//Sign") {
        RowTarget::Game(name) => assert_eq!(name, "Hack//Sign"),
        _ => panic!("a game row"),
    }
}

#[test]
fn a_grid_is_cut_into_full_lines() {
    let g = grid_lines(5, 2);
    assert_eq!(g, vec![vec![Some(0), Some(1)], vec![Some(2), Some(3)], vec![Some(4), None]]);
    assert_eq!(grid_lines(4, 2), vec![vec![Some(0), Some(1)], vec![Some(2), Some(3)]]);
    // Fewer than one column asked for: one card to a line.
    assert_eq!(grid_lines(2, 0), vec![vec![Some(0)], vec![Some(1)]]);
    assert_eq!(grid_lines(3, -4), vec![vec![Some(0)], vec![Some(1)], vec![Some(2)]]);
    assert!(grid_lines(0, 3).is_empty());
    assert_eq!(grid_lines(1, 4), vec![vec![Some(0), None, None, None]]);
}

#[test]
fn a_playlist_search_keeps_matching_rows_in_order() {
    let labels: Vec<Vec<char>> =
        ["sonic the hedgehog", "streets of rage", "sonic 2"].iter().map(|l| l.chars().collect()).collect();
    let needle: Vec<char> = "sonic".chars().collect();
    assert_eq!(playlist_rows_matching(&labels, &needle), vec![0, 2]);
    assert_eq!(playlist_rows_matching(&labels, &Vec::new()), vec![0, 1, 2]);
    let none: Vec<char> = "zelda".chars().collect();
    assert!(playlist_rows_matching(&labels, &none).is_empty());
}

#[test]
fn a_bulk_run_asks_once_per_game() {
    let k = |c: &str, g: &str| (c.to_string(), g.to_string());
    let keys = vec![k("md", "sonic"), k("md", "sonic"), k("snes", "sonic"), k("md", "rage"), k("snes", "sonic")];
    assert_eq!(first_per_game(&keys), vec![0, 2, 3]);
    assert!(first_per_game(&Vec::new()).is_empty());
}
