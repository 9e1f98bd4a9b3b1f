use tunante::tray::{
    activate, apply_update, argb_from_rgba, icon_from_rgba, initial_dark, menu, pick_asset, pixmap_for, poll,
    scroll, secondary_activate, send, set_style, set_tooltip, spawn, take_scroll, watch_tick, IconAsset, MenuEntry,
    TrayAction, TrayMailbox, WatchState,
};

#[test]
fn actions_come_out_in_the_order_they_went_in() {
    let mut m = TrayMailbox::new();
    assert!(poll(&mut m).is_none());
    activate(&mut m);
    send(&mut m, TrayAction::Quit);
    secondary_activate(&mut m);
    assert_eq!(poll(&mut m), Some(TrayAction::ToggleWindow));
    assert_eq!(poll(&mut m), Some(TrayAction::Quit));
    assert_eq!(poll(&mut m), Some(TrayAction::MiddleClick));
    assert_eq!(poll(&mut m), None);
}

#[test]
fn scroll_counts_notches_and_taking_them_resets() {
    let mut m = TrayMailbox::new();
    scroll(&mut m, 120, true);
    scroll(&mut m, 3, true);
    scroll(&mut m, -7, true);
    scroll(&mut m, 5, false);
    scroll(&mut m, 0, true);
    assert_eq!(take_scroll(&mut m), 1);
    assert_eq!(take_scroll(&mut m), 0);
    m.scroll = i32::MAX;
    scroll(&mut m, 1, true);
    assert_eq!(take_scroll(&mut m), i32::MIN);
}

#[test]
fn the_watcher_pushes_only_changes_and_takes_the_style() {
    let mut m = TrayMailbox::new();
    let mut w = WatchState::new(0, true);
    assert!(watch_tick(&mut w, &mut m, true).is_none());
    set_tooltip(&mut m, "Canción");
    let u = watch_tick(&mut w, &mut m, true).expect("tooltip changed");
    assert_eq!(u.tooltip, "Canción");
    assert_eq!(u.style, 0);
    assert!(watch_tick(&mut w, &mut m, true).is_none());
    set_style(&mut m, 2);
    let u = watch_tick(&mut w, &mut m, false).expect("style and shade changed");
    assert_eq!((u.style, u.dark), (2, false));
    assert!(m.style.is_none());
    let mut look = spawn(0, true, "/run/t".to_string());
    apply_update(&mut look, &u);
    assert_eq!(look.tooltip, "Canción");
    assert_eq!(look.style, 2);
}

#[test]
fn an_empty_tooltip_keeps_the_name() {
    let look = spawn(1, true, "/run/t".to_string());
    assert_eq!(look.tool_tip(), "Tunante");
    assert_eq!(look.icon_name(), "tunante-symbolic");
    assert_eq!(look.icon_theme_path(), "/run/t");
    assert!(look.icon_pixmap().is_none());
    let look = spawn(2, false, "/run/t".to_string());
    assert_eq!(look.icon_name(), "");
    assert_eq!(look.icon_theme_path(), "");
    assert_eq!(look.icon_pixmap(), Some(IconAsset::Logo));
}

#[test]
fn the_panel_shade_picks_the_glyph() {
    assert_eq!(pick_asset(0, true), IconAsset::MonoWhite);
    assert_eq!(pick_asset(0, false), IconAsset::MonoBlack);
    assert_eq!(pick_asset(2, false), IconAsset::Logo);
    assert!(initial_dark(None));
    assert!(!initial_dark(Some(false)));
}

#[test]
fn the_menu_has_its_items_and_separators() {
    let m = menu();
    assert_eq!(m.len(), 7);
    match &m[0] {
        MenuEntry::Item { label, action } => {
            assert_eq!(label, "Mostrar/Ocultar");
            assert_eq!(*action, TrayAction::ToggleWindow);
        }
        MenuEntry::Separator => panic!("first entry is an item"),
    }
    assert!(matches!(m[1], MenuEntry::Separator));
    assert!(matches!(&m[6], MenuEntry::Item { action: TrayAction::Quit, .. }));
}

#[test]
fn rgba_turns_into_argb() {
    assert_eq!(argb_from_rgba(vec![1, 2, 3, 4, 5, 6, 7, 8, 9]), vec![4, 1, 2, 3, 8, 5, 6, 7, 9]);
    let icon = icon_from_rgba(2, 1, vec![10, 20, 30, 40, 50, 60, 70, 80]);
    assert_eq!((icon.width, icon.height), (2, 1));
    assert_eq!(icon.data, vec![40, 10, 20, 30, 80, 50, 60, 70]);
}

#[test]
fn a_png_decodes_to_an_argb_pixmap() {
    let mut img = image::RgbaImage::new(2, 1);
    img.put_pixel(0, 0, image::Rgba([1, 2, 3, 255]));
    img.put_pixel(1, 0, image::Rgba([9, 8, 7, 128]));
    let mut png: Vec<u8> = Vec::new();
    image::DynamicImage::ImageRgba8(img)
        .write_to(&mut std::io::Cursor::new(&mut png), image::ImageFormat::Png)
        .expect("encode");
    let icon = pixmap_for(2, true, &png, b"", b"").expect("decodes");
    assert_eq!((icon.width, icon.height), (2, 1));
    assert_eq!(icon.data, vec![255, 1, 2, 3, 128, 9, 8, 7]);
    assert!(pixmap_for(0, true, &png, b"not an image", b"").is_none());
}
