use tunante::settings::{
    bundled_language, cover_fit_from_key, cover_fit_key, cover_fit_label, fav_rating, get_bool_setting,
    language_label, language_of_locale, output_label, playlist_subtitle, rating_priority_label, resolved_language,
    run_action_by_id, shortcut_actions, shortcut_combo, split_combo, theme_mode_label, tray_click_label,
    tray_style_label, ui_lang_list, ui_language_from_env, Verb,
};

#[test]
fn booleans_are_stored_as_true() {
    assert!(get_bool_setting(Some("true"), false));
    assert!(!get_bool_setting(Some("yes"), true));
    assert!(get_bool_setting(None, true));
    assert!(!get_bool_setting(None, false));
}

#[test]
fn row_labels() {
    assert_eq!(rating_priority_label(Some("file,folder,db")), "fichero primero");
    assert_eq!(rating_priority_label(Some("folder,file,db")), "carpeta primero");
    assert_eq!(rating_priority_label(None), "BD manda");
    assert_eq!(tray_click_label("next_track_with_fade"), "siguiente con fundido");
    assert_eq!(tray_click_label("whatever"), "mostrar/ocultar");
    assert_eq!(tray_style_label(1), "simbólico");
    assert_eq!(tray_style_label(7), "sistema");
    assert_eq!(theme_mode_label(0), "oscuro");
    assert_eq!(theme_mode_label(2), "sistema");
}

#[test]
fn long_device_names_are_cut_with_an_ellipsis() {
    assert_eq!(output_label("system"), None);
    assert_eq!(output_label("hw:0"), Some("hw:0".to_string()));
    let long = "á".repeat(40);
    let got = output_label(&long).unwrap();
    assert_eq!(got.chars().count(), 35);
    assert!(got.ends_with('…'));
    assert_eq!(output_label(&"x".repeat(34)).unwrap(), "x".repeat(34));
}

#[test]
fn one_track_is_singular() {
    assert_eq!(playlist_subtitle(1, "1 pista", "{} pistas"), "1 pista");
    assert_eq!(playlist_subtitle(12, "1 pista", "{} pistas"), "12 pistas");
    assert_eq!(playlist_subtitle(-3, "1 track", "{} tracks ({})"), "-3 tracks (-3)");
}

#[test]
fn cover_fit_keys_round_trip() {
    for fit in 0..=4 {
        assert_eq!(cover_fit_from_key(cover_fit_key(fit)), fit);
    }
    assert_eq!(cover_fit_key(9), "cover");
    assert_eq!(cover_fit_from_key("bogus"), 0);
    assert_eq!(cover_fit_label(2), "con fondo");
    assert_eq!(cover_fit_label(0), "recortada");
}

#[test]
fn languages() {
    assert_eq!(ui_lang_list().len(), 7);
    assert_eq!(language_label("fr"), "Français");
    assert_eq!(language_label(""), "");
    assert_eq!(language_label("xx"), "");
    assert_eq!(resolved_language("", "de"), "de");
    assert_eq!(resolved_language("it", "de"), "it");
    assert_eq!(bundled_language("es"), "");
    assert_eq!(bundled_language(""), "");
    assert_eq!(bundled_language("pt"), "pt");
}

#[test]
fn the_locale_names_the_language() {
    assert_eq!(language_of_locale("es_ES.UTF-8").unwrap(), vec!['e', 's']);
    assert_eq!(language_of_locale("PT-br").unwrap(), vec!['p', 't']);
    assert!(language_of_locale("C.UTF-8").is_none());
    assert!(language_of_locale("POSIX").is_none());
    assert!(language_of_locale("").is_none());
    assert!(language_of_locale("_x").is_none());
    let env = vec![None, Some("C".to_string()), Some("fr_FR.UTF-8".to_string())];
    assert_eq!(ui_language_from_env(&env), "fr");
    assert_eq!(ui_language_from_env(&vec![None, None, None]), "");
}

#[test]
fn action_ids_run_verbs() {
    assert_eq!(run_action_by_id("play_pause"), Some(Verb::PlayPause));
    assert_eq!(run_action_by_id("volume_down"), Some(Verb::VolumeDown));
    assert_eq!(run_action_by_id("toggle_fav"), Some(Verb::ToggleFav));
    assert_eq!(run_action_by_id("nope"), None);
    assert_eq!(fav_rating(3), 3);
    assert_eq!(fav_rating(0), 5);
    let table = shortcut_actions();
    assert_eq!(table.len(), 11);
    for (id, _) in table {
        assert!(run_action_by_id(id).is_some());
    }
}

#[test]
fn combos() {
    assert_eq!(shortcut_combo("p", true, true, false), Some("Ctrl+Alt+P".to_string()));
    assert_eq!(shortcut_combo(" ", false, false, true), Some("Shift+Espacio".to_string()));
    assert_eq!(shortcut_combo("a", false, false, true), Some("A".to_string()));
    assert_eq!(shortcut_combo("\u{f708}", false, false, false), Some("F5".to_string()));
    assert_eq!(shortcut_combo("\u{10}", true, false, false), Some("Ctrl+P".to_string()));
    assert_eq!(shortcut_combo("\u{10}", false, false, false), None);
    assert_eq!(shortcut_combo("", true, false, false), None);
    assert_eq!(shortcut_combo("ß", false, false, true), Some("Shift+SS".to_string()));
}

#[test]
fn a_combo_splits_at_its_last_plus() {
    assert_eq!(split_combo("Ctrl+Alt+Espacio"), Some(("Ctrl+Alt".to_string(), "Espacio".to_string())));
    assert_eq!(split_combo("F5"), None);
    assert_eq!(split_combo("Ctrl++"), Some(("Ctrl+".to_string(), "".to_string())));
}
