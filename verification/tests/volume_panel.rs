use tunante::osd::{shown_percent, window_position, CornerEdge};
use tunante::osd::{
    closed, configured, draw, glyph, hide_elapsed, number, output_size, palette, placement, prime, scale_changed, show,
    Anchor, OsdState, Rgb,
};

#[test]
fn without_an_icon_the_panel_takes_the_corner() {
    let p = placement(None, (1920, 1080));
    assert_eq!(p.anchor, Anchor::BottomRight);
    assert_eq!((p.top, p.right, p.bottom, p.left), (0, 16, 16, 0));
}

#[test]
fn beside_the_icon_and_never_off_screen() {
    let p = placement(Some((1000, 1070)), (1920, 1080));
    assert_eq!(p.anchor, Anchor::BottomLeft);
    assert_eq!((p.left, p.bottom, p.top), (900, 16, 0));
    let p = placement(Some((1910, 5)), (1920, 1080));
    assert_eq!(p.anchor, Anchor::TopLeft);
    assert_eq!((p.left, p.top, p.bottom), (1704, 16, 0));
    let p = placement(Some((10, 5)), (1920, 1080));
    assert_eq!(p.left, 16);
    // A screen narrower than the panel pins it to the margin.
    assert_eq!(placement(Some((100, 100)), (150, 200)).left, 16);
}

#[test]
fn the_first_output_that_knows_its_size() {
    assert_eq!(output_size(&vec![]), (1920, 1080));
    assert_eq!(output_size(&vec![None, Some((2560, 1440)), Some((800, 600))]), (2560, 1440));
}

#[test]
fn the_surface_is_built_once_and_draws_after_configure() {
    let mut s = OsdState::new();
    let steps = prime(&mut s, None, (1920, 1080));
    assert!(steps.build.is_some());
    assert!(prime(&mut s, None, (1920, 1080)).build.is_none());
    let steps = show(&mut s, 150, false, None, (1920, 1080));
    assert!(steps.arm_hide);
    assert!(steps.move_to.is_none());
    assert!(steps.frame.is_none(), "not configured yet");
    assert_eq!(s.percent, 100);
    let f = configured(&mut s).expect("configured");
    assert!(f.visible);
    assert_eq!((f.width, f.height, f.scale, f.percent, f.dark), (200, 48, 1, 100, false));
    let f = scale_changed(&mut s, 2).unwrap();
    assert_eq!((f.width, f.height), (400, 96));
    let f = hide_elapsed(&mut s).unwrap();
    assert!(!f.visible);
    let steps = show(&mut s, 40, true, Some((500, 900)), (1920, 1080));
    assert!(steps.move_to.is_some(), "the icon moved it");
    assert_eq!(steps.frame.unwrap().percent, 40);
    closed(&mut s);
    assert!(draw(&s).is_none());
    let steps = show(&mut s, 40, true, Some((500, 900)), (1920, 1080));
    assert!(steps.build.is_some());
    assert!(steps.move_to.is_none());
}

#[test]
fn the_palette_follows_the_theme() {
    assert_eq!(palette(true).bg, Rgb { r: 0x25, g: 0x25, b: 0x26 });
    assert_eq!(palette(false).text, Rgb { r: 0x1e, g: 0x1e, b: 0x1e });
    assert_eq!(palette(false).accent, palette(true).accent);
}

#[test]
fn glyphs_for_digits_and_percent() {
    assert_eq!(glyph(b'1'), [0b00100, 0b01100, 0b00100, 0b00100, 0b00100, 0b00100, 0b01110]);
    assert_eq!(glyph(b'%')[0], 0b11001);
    assert_eq!(glyph(b'x'), [0; 7]);
}

#[test]
fn the_number_is_drawn_opaque_and_right_aligned() {
    let (w, h) = (200u32, 48u32);
    let mut px = vec![0u8; (w * h * 4) as usize];
    let c = Rgb { r: 10, g: 20, b: 30 };
    number(&mut px, w, h, 1, 5, c);
    // "5%": two glyphs of 2-pixel squares; the text ends at x = 186.
    // x0 = 186 - (12 * 2 - 2) = 164; top = 24 - 7 = 17.
    // '5' row 0 is 11111: pixel (164, 17) is lit.
    let at = |x: u32, y: u32| ((y * w + x) * 4) as usize;
    assert_eq!(&px[at(164, 17)..at(164, 17) + 4], &[30, 20, 10, 255]);
    // Row 1 of '5' is 10000: (166, 19) is dark.
    assert_eq!(&px[at(166, 19)..at(166, 19) + 4], &[0, 0, 0, 0]);
    // Nothing left of the text.
    assert_eq!(&px[at(163, 17)..at(163, 17) + 4], &[0, 0, 0, 0]);
    let lit = px.chunks(4).filter(|p| p[3] == 255).count();
    // '5' has 17 lit glyph pixels and '%' 15, each a 2x2 square.
    assert_eq!(lit, (17 + 15) * 4);
}

#[test]
fn the_window_panel_goes_beside_the_icon() {
    // Icon at the bottom of a 1920x1080 monitor at (0, 0): above it.
    assert_eq!(
        window_position(Some((1900, 1070)), (0, 0), (1920, 1080), (200, 48), 16, 8, CornerEdge::Bottom(60)),
        (1704, 1014)
    );
    // Icon at the top: below it.
    assert_eq!(
        window_position(Some((500, 10)), (0, 0), (1920, 1080), (200, 48), 16, 8, CornerEdge::Top(30)),
        (400, 18)
    );
    assert_eq!(window_position(None, (100, 0), (1920, 1080), (200, 48), 16, 8, CornerEdge::Bottom(60)), (1804, 972));
    assert_eq!(window_position(None, (0, 0), (1920, 1080), (200, 48), 16, 8, CornerEdge::Top(30)), (1704, 30));
    assert_eq!(shown_percent(130), 100);
    assert_eq!(shown_percent(30), 30);
}

#[test]
fn nine_and_a_hundred_end_in_the_same_column() {
    for scale in [1u32, 2] {
        for percent in [9u32, 100] {
            let (w, h) = (200 * scale, 48 * scale);
            let mut px = vec![0u8; (w * h * 4) as usize];
            number(&mut px, w, h, scale, percent, Rgb { r: 1, g: 2, b: 3 });
            let mut rightmost = 0u32;
            for y in 0..h {
                for x in 0..w {
                    let a = px[((y * w + x) * 4 + 3) as usize];
                    if a != 0 {
                        assert_eq!(a, 255);
                        rightmost = rightmost.max(x);
                    }
                }
            }
            assert_eq!(rightmost, 186 * scale - 1);
            let top_right = ((17 * scale * w + 186 * scale - 1) * 4) as usize;
            assert_eq!(&px[top_right..top_right + 4], &[3, 2, 1, 255]);
        }
    }
}
