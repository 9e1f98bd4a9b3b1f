use tunante::picker::{DirItem, FsPath, Picker};
use tunante::session::{parse_session_scope, restore_scope, scope_to_session, SessionScope};
use tunante::table::{cell_for, column_of, stars_for, stars_for_mode, CellWords, Column, Scope, Track, TrackKeys};

fn p(s: &str) -> FsPath {
    let mut parts = vec![b"/".to_vec()];
    for c in s.split('/').filter(|c| !c.is_empty()) {
        parts.push(c.as_bytes().to_vec());
    }
    FsPath { parts }
}

fn shown(path: &FsPath) -> String {
    let mut s = String::new();
    for (i, c) in path.parts.iter().enumerate() {
        if i > 1 {
            s.push('/');
        }
        s.push_str(std::str::from_utf8(c).unwrap());
    }
    s
}

#[test]
fn the_chooser_starts_in_the_first_music_folder() {
    let pk = Picker::new(p("/home/x"), &vec![false, true, true]);
    assert_eq!(shown(&pk.cwd), "/home/x/Música");
    let pk = Picker::new(p("/home/x"), &vec![false, false, false]);
    assert_eq!(shown(&pk.cwd), "/home/x");
    assert!(pk.chosen.is_empty());
}

#[test]
fn entering_and_going_up() {
    let mut pk = Picker::new(p("/home/x"), &vec![]);
    pk.enter(&p("/home/x/file.mp3"), false);
    assert_eq!(shown(&pk.cwd), "/home/x");
    pk.enter(&p("/home/x/M"), true);
    assert_eq!(shown(&pk.cwd), "/home/x/M");
    pk.up();
    pk.up();
    pk.up();
    assert_eq!(shown(&pk.cwd), "/");
    pk.up();
    assert_eq!(shown(&pk.cwd), "/");
}

#[test]
fn ticking_a_folder_drops_its_ticked_descendants() {
    let mut pk = Picker::new(p("/m"), &vec![]);
    pk.toggle(&p("/m/a/b"));
    pk.toggle(&p("/m/c"));
    assert_eq!(pk.chosen.len(), 2);
    pk.toggle(&p("/m/a"));
    let got: Vec<String> = pk.chosen.iter().map(shown).collect();
    assert_eq!(got, ["/m/a", "/m/c"]);
    // Under a ticked ancestor a tick adds nothing.
    pk.toggle(&p("/m/a/z"));
    assert_eq!(pk.chosen.len(), 2);
    // Ticking again unticks.
    pk.toggle(&p("/m/c"));
    let got: Vec<String> = pk.chosen.iter().map(shown).collect();
    assert_eq!(got, ["/m/a"]);
}

#[test]
fn entries_are_folders_without_dotfiles_by_lowercase_name() {
    let mut pk = Picker::new(p("/m"), &vec![]);
    pk.toggle(&p("/m/beta"));
    let items = vec![
        DirItem { name: "beta".to_string(), file_name: b"beta".to_vec(), is_dir: true },
        DirItem { name: ".cache".to_string(), file_name: b".cache".to_vec(), is_dir: true },
        DirItem { name: "Alpha".to_string(), file_name: b"Alpha".to_vec(), is_dir: true },
        DirItem { name: "song.mp3".to_string(), file_name: b"song.mp3".to_vec(), is_dir: false },
    ];
    let e = pk.entries(items);
    let names: Vec<&str> = e.iter().map(|x| x.name.as_str()).collect();
    assert_eq!(names, ["Alpha", "beta"]);
    assert!(!e[0].chosen);
    assert!(e[1].chosen);
    assert_eq!(shown(&e[1].path), "/m/beta");
}

#[test]
fn scopes_are_stored_and_read_back() {
    assert_eq!(scope_to_session(&Scope::Library), None);
    assert_eq!(scope_to_session(&Scope::Folder("/m/a".to_string())), Some("folder:/m/a".to_string()));
    assert_eq!(
        scope_to_session(&Scope::Playlist { ids: vec!["x".to_string()], id: "pl1".to_string() }),
        Some("playlist:pl1".to_string())
    );
    assert!(matches!(parse_session_scope("faved"), Some(SessionScope::Faved)));
    assert!(matches!(parse_session_scope("game:Hack//Sign"), Some(SessionScope::Game(g)) if g == "Hack//Sign"));
    assert!(matches!(parse_session_scope("console:nes"), Some(SessionScope::Console(c)) if c == "nes"));
    assert!(parse_session_scope("library").is_none());
}

#[test]
fn stars() {
    assert_eq!(stars_for(3), "★★★☆☆");
    assert_eq!(stars_for(9), "★★★★★");
    assert_eq!(stars_for(-1), "☆☆☆☆☆");
    assert_eq!(stars_for_mode(2, 1), "★");
    assert_eq!(stars_for_mode(0, 1), "☆");
    assert_eq!(stars_for_mode(2, 0), "★★☆☆☆");
}

fn bare(path: &str) -> Track {
    Track {
        id: path.to_string(),
        path: path.to_string(),
        title: String::new(),
        artist: "A".to_string(),
        album: "Al".to_string(),
        album_artist: String::new(),
        game: "G".to_string(),
        console_id: String::new(),
        track_number: Some(7),
        disc_number: None,
        duration_ms: 125_000,
        sample_rate: Some(44100),
        channels: Some(2),
        bitrate: None,
        codec: "flac".to_string(),
        file_size: 5000,
        rating: 4,
        keys: TrackKeys {
            real_path: path.to_string(),
            console_key: String::new(),
            console_label: "NES".to_string(),
            title_folded: String::new(),
            artist_folded: String::new(),
            album_folded: String::new(),
            game_folded: String::new(),
            album_artist_folded: String::new(),
            size_mb: String::new(),
        },
    }
}

#[test]
fn cells() {
    let w = CellWords { mono: "mono".to_string(), stereo: "estéreo".to_string() };
    let t = bare("/m/a.flac");
    assert_eq!(cell_for(&t, "title", false, 0, &w), "/m/a.flac");
    assert_eq!(cell_for(&t, "duration", false, 0, &w), "2:05");
    assert_eq!(cell_for(&t, "n", false, 0, &w), "7");
    assert_eq!(cell_for(&t, "channels", false, 0, &w), "estéreo");
    assert_eq!(cell_for(&t, "samplerate", false, 0, &w), "44100 Hz");
    assert_eq!(cell_for(&t, "size", false, 0, &w), "4 KB");
    assert_eq!(cell_for(&t, "albumgame", true, 0, &w), "G");
    assert_eq!(cell_for(&t, "albumgame", false, 0, &w), "Al");
    assert_eq!(cell_for(&t, "console", false, 0, &w), "NES");
    assert_eq!(cell_for(&t, "stars", false, 1, &w), "★");
    assert!(column_of("codec") == Column::Codec);
}

#[test]
fn a_restored_scope_needs_its_folder_and_its_playlist() {
    let folder = parse_session_scope("folder:/music/md").unwrap();
    assert!(matches!(restore_scope(folder, true, None), Some(Scope::Folder(p)) if p == "/music/md"));
    let folder = parse_session_scope("folder:/music/md").unwrap();
    assert!(restore_scope(folder, false, None).is_none());
    let list = parse_session_scope("playlist:7").unwrap();
    let ids = vec!["b".to_string(), "a".to_string()];
    assert!(matches!(restore_scope(list, true, Some(ids)),
        Some(Scope::Playlist { ids, id }) if ids == vec!["b".to_string(), "a".to_string()] && id == "7"));
    let list = parse_session_scope("playlist:7").unwrap();
    assert!(restore_scope(list, true, None).is_none());
    assert!(matches!(restore_scope(SessionScope::Queue, false, None), Some(Scope::Queue { paths }) if paths.is_empty()));
    assert!(matches!(restore_scope(SessionScope::Faved, false, None), Some(Scope::Faved)));
    assert!(matches!(restore_scope(SessionScope::Console("md".to_string()), false, None), Some(Scope::Console(c)) if c == "md"));
    assert!(matches!(restore_scope(SessionScope::Game("Sonic".to_string()), false, None), Some(Scope::Game(g)) if g == "Sonic"));
}
