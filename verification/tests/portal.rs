use tunante::uri::{
    folders_from_response, music_dirs_declared, path_from_file_uri, percent_decode, request_path, sender_segment,
    uri_would_split,
};

#[test]
fn decodes_file_uris() {
    let p = path_from_file_uri("file:///home/x/M%C3%BAsica/Juegos".as_bytes()).unwrap();
    assert_eq!(p, "/home/x/Música/Juegos".as_bytes());
    assert_eq!(path_from_file_uri("file://localhost/tmp/a%20b".as_bytes()).unwrap(), "/tmp/a b".as_bytes());
    assert!(path_from_file_uri("http://x/".as_bytes()).is_none());
}

#[test]
fn a_host_with_no_path_is_no_folder() {
    assert!(path_from_file_uri(b"file://localhost").is_none());
}

#[test]
fn escapes_that_are_not_numbers_stay_as_they_are() {
    assert_eq!(percent_decode(b"/a%zz%4"), b"/a%zz%4".to_vec());
    assert_eq!(percent_decode(b"%+5x"), vec![5u8, b'x']);
    assert_eq!(percent_decode(b"%41%42"), b"AB".to_vec());
}

#[test]
fn an_escape_that_would_cut_a_character_is_caught() {
    assert!(uri_would_split("file:///a%aé".as_bytes()));
    assert!(!uri_would_split("file:///a%é".as_bytes()));
    assert!(!uri_would_split(b"file:///plain"));
}

#[test]
fn a_cancelled_dialog_gives_no_folders() {
    let uris = vec![b"file:///m".to_vec()];
    assert!(folders_from_response(1, &uris).is_empty());
    let got = folders_from_response(0, &vec![b"file:///m".to_vec(), b"http://x/".to_vec(), b"file:///n%20o".to_vec()]);
    assert_eq!(got, vec![b"/m".to_vec(), b"/n o".to_vec()]);
}

#[test]
fn request_paths_use_the_unique_name() {
    assert_eq!(sender_segment(":1.42"), "1_42");
    assert_eq!(sender_segment("a:b.c"), "a:b_c");
    assert_eq!(
        request_path("1_42", "tunante_fc0"),
        "/org/freedesktop/portal/desktop/request/1_42/tunante_fc0"
    );
}

#[test]
fn user_dirs_declares_the_music_folder() {
    let text = "# comment\r\nXDG_DESKTOP_DIR=\"$HOME/Escritorio\"\r\n  XDG_MUSIC_DIR=\"$HOME/Música\"  \nXDG_MUSIC_DIR=/srv/$HOME\n";
    assert_eq!(music_dirs_declared(text, "/home/x"), vec!["/home/x/Música".to_string(), "/srv//home/x".to_string()]);
    assert!(music_dirs_declared("", "/h").is_empty());
}

#[test]
fn a_plain_absolute_path_reads_back_unchanged() {
    let p = "/home/x/Música/Juegos de rol".as_bytes();
    let mut uri = b"file://".to_vec();
    uri.extend_from_slice(p);
    assert!(!uri_would_split(&uri));
    assert_eq!(path_from_file_uri(&uri).unwrap(), p);
}
