use tunante::table::{rebuild_table, CellWords, Scope, TableState, Track, TrackKeys};

fn words() -> CellWords {
    CellWords { mono: "mono".to_string(), stereo: "estéreo".to_string() }
}

/// The real file behind a `#n` subsong path.
fn real_of(path: &str) -> String {
    match path.rfind('#') {
        Some(i) if path[i + 1..].chars().all(|c| c.is_ascii_digit()) && i + 1 < path.len() => path[..i].to_string(),
        _ => path.to_string(),
    }
}

fn track(path: &str, console: &str, rating: i32) -> Track {
    Track {
        id: path.to_string(),
        path: path.to_string(),
        title: path.to_string(),
        artist: String::new(),
        album: String::new(),
        album_artist: String::new(),
        game: String::new(),
        console_id: console.to_string(),
        track_number: None,
        disc_number: None,
        duration_ms: 1000,
        sample_rate: None,
        channels: None,
        bitrate: None,
        codec: "test".to_string(),
        file_size: 0,
        rating,
        keys: TrackKeys {
            real_path: real_of(path),
            console_key: console.to_string(),
            console_label: console.to_string(),
            title_folded: path.to_lowercase(),
            artist_folded: String::new(),
            album_folded: String::new(),
            game_folded: String::new(),
            album_artist_folded: String::new(),
            size_mb: "0.0 MB".to_string(),
        },
    }
}

fn kept(st: &TableState) -> Vec<String> {
    st.tracks.iter().map(|&i| st.all[i].path.clone()).collect()
}

#[test]
fn a_pinned_folder_narrows_to_its_subtree_only() {
    let mut st = TableState::new();
    st.all = vec![
        track("/a/b/inside.nsf", "", 0),
        track("/a/b/deeper/also.nsf", "", 0),
        track("/a/b/set.nsf#3", "", 0),
        track("/a/bc/outside.nsf", "", 0),
        track("/a/elsewhere.nsf", "", 0),
    ];
    st.scope = Scope::Folder("/a/b".to_string());
    st.built = true;
    let _rows = rebuild_table(&mut st, "", &Vec::new(), &words());
    assert_eq!(
        kept(&st),
        ["/a/b/deeper/also.nsf", "/a/b/inside.nsf", "/a/b/set.nsf#3"],
        "boundary or vgm-suffix handling broke"
    );
}

#[test]
fn a_console_scope_keeps_only_that_machine() {
    let mut st = TableState::new();
    st.all = vec![track("/a.nsf", "nes", 0), track("/b.spc", "snes", 0), track("/c.nsf", "nes", 0)];
    st.scope = Scope::Console("nes".to_string());
    st.built = true;
    let _rows = rebuild_table(&mut st, "", &Vec::new(), &words());
    let mut k = kept(&st);
    k.sort();
    assert_eq!(k, ["/a.nsf", "/c.nsf"]);
}

#[test]
fn a_playlist_scope_keeps_its_order() {
    let mut st = TableState::new();
    st.all = vec![track("/x.nsf", "nes", 0), track("/y.nsf", "nes", 0), track("/z.nsf", "nes", 0)];
    st.scope = Scope::Playlist {
        ids: vec!["/z.nsf".to_string(), "/gone.nsf".to_string(), "/x.nsf".to_string()],
        id: "pl1".to_string(),
    };
    st.sort_key = "__scope__".to_string();
    st.built = true;
    let _rows = rebuild_table(&mut st, "", &Vec::new(), &words());
    assert_eq!(kept(&st), ["/z.nsf", "/x.nsf"], "playlist order or id resolution broke");
}

#[test]
fn faved_scope_keeps_rated_tracks_only() {
    let mut st = TableState::new();
    st.all = vec![track("/a.nsf", "nes", 0), track("/b.nsf", "nes", 4), track("/c.nsf", "nes", 1)];
    st.scope = Scope::Faved;
    st.built = true;
    let rows = rebuild_table(&mut st, "", &Vec::new(), &words());
    assert_eq!(kept(&st), ["/b.nsf", "/c.nsf"]);
    assert_eq!(rows.len(), 2);
}

#[test]
fn descending_sort_reverses_the_rows_and_the_stamp_moves() {
    let mut st = TableState::new();
    st.all = vec![track("/b.nsf", "", 0), track("/a.nsf", "", 0), track("/c.nsf", "", 0)];
    st.asc = false;
    st.built = true;
    let before = st.stamp;
    let _ = rebuild_table(&mut st, "", &Vec::new(), &words());
    assert_eq!(kept(&st), ["/c.nsf", "/b.nsf", "/a.nsf"]);
    assert_eq!(st.stamp, before + 1);
    assert!(st.selected.is_empty());
}

#[test]
fn the_search_needle_filters_by_folded_title() {
    let mut st = TableState::new();
    st.all = vec![track("/Mega.nsf", "", 0), track("/other.nsf", "", 0)];
    st.built = true;
    let _ = rebuild_table(&mut st, "mega", &Vec::new(), &words());
    assert_eq!(kept(&st), ["/Mega.nsf"]);
}

#[test]
fn a_game_scope_keeps_its_members() {
    let mut st = TableState::new();
    st.all = vec![track("/g1.psf", "", 0), track("/g2.psf", "", 0), track("/h.psf", "", 0)];
    st.scope = Scope::Game("Xenogears".to_string());
    st.built = true;
    let _ = rebuild_table(&mut st, "", &vec![1, 0], &words());
    assert_eq!(kept(&st), ["/g1.psf", "/g2.psf"]);
}

#[test]
fn scope_tags_light_up_the_sidebar() {
    assert_eq!(Scope::Console("nes".to_string()).tag(), ("console", "nes"));
    assert_eq!(Scope::Folder("/m".to_string()).tag(), ("folder", ""));
    assert_eq!(Scope::Library.tag(), ("", ""));
}
