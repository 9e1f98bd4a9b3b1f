//! The volume panel: where it goes (beside the tray icon, or in the corner),
//! the layer surface's life as a state machine, and the parts of its drawing
//! that are whole pixels (palette, glyphs, the percentage).

use vstd::prelude::*;
use crate::text::{decimal_ascii, decimal_ascii_u64, pow10, lemma_decimal_ascii_len};
use vstd::arithmetic::div_mod::{lemma_fundamental_div_mod, lemma_fundamental_div_mod_converse};

verus! {

/// Logical width of the panel.
pub const PANEL_W: i32 = 200;
/// Logical height of the panel.
pub const PANEL_H: i32 = 48;
/// How far the panel sits from the screen's edge.
pub const MARGIN: i32 = 16;

/// The screen edges a layer surface hangs from.
#[derive(Clone, Copy, Debug, PartialEq, Eq, Structural)]
pub enum Anchor {
    BottomRight,
    BottomLeft,
    TopLeft,
}

/// One edge pair and the margins that go with it.
#[derive(Clone, Copy, Debug, PartialEq, Eq, Structural)]
pub struct Placement {
    pub anchor: Anchor,
    pub top: i32,
    pub bottom: i32,
    pub left: i32,
    pub right: i32,
}

/// `v.clamp(lo, hi)` for `lo <= hi`.
pub open spec fn clamp_spec(v: int, lo: int, hi: int) -> int {
    if v < lo { lo } else if v > hi { hi } else { v }
}

/// The panel's left margin under an icon at `ix` on a screen `ow` wide:
/// centred on the icon, never past either edge's margin.
pub open spec fn panel_left(ix: int, ow: int) -> int {
    let hi = if ow - PANEL_W - MARGIN > MARGIN { ow - PANEL_W - MARGIN } else { MARGIN as int };
    clamp_spec(ix - PANEL_W / 2, MARGIN as int, hi)
}

/// Where the panel asks to be.
pub open spec fn placement_spec(icon: Option<(i32, i32)>, output: (i32, i32)) -> Placement {
    match icon {
        None => Placement { anchor: Anchor::BottomRight, top: 0, right: MARGIN, bottom: MARGIN, left: 0 },
        Some((ix, iy)) => {
            let bottom_half = iy * 2 >= output.1;
            Placement {
                anchor: if bottom_half { Anchor::BottomLeft } else { Anchor::TopLeft },
                top: if bottom_half { 0 } else { MARGIN },
                right: 0,
                bottom: if bottom_half { MARGIN } else { 0 },
                left: panel_left(ix as int, output.0 as int) as i32,
            }
        },
    }
}

/// The arithmetic of a placement stays within `i32`.
pub open spec fn placement_fits(icon: Option<(i32, i32)>, output: (i32, i32)) -> bool {
    match icon {
        None => true,
        Some((ix, iy)) => ix - PANEL_W / 2 >= i32::MIN && output.0 - PANEL_W - MARGIN >= i32::MIN
            && i32::MIN <= iy * 2 <= i32::MAX,
    }
}

/// Beside the icon when the tray knows where it is, in the bottom-right
/// corner when it does not. The icon's half of the screen decides the edge:
/// a panel at the top of the screen gets the panel under it.
pub fn placement(icon: Option<(i32, i32)>, output: (i32, i32)) -> (p: Placement)
    requires
        placement_fits(icon, output),
    ensures
        p == placement_spec(icon, output),
{
    match icon {
        None => Placement { anchor: Anchor::BottomRight, top: 0, right: MARGIN, bottom: MARGIN, left: 0 },
        Some((ix, iy)) => {
            let (ow, oh) = output;
            let raw = ix - PANEL_W / 2;
            let room = ow - PANEL_W - MARGIN;
            let hi = if room > MARGIN { room } else { MARGIN };
            let left = if raw < MARGIN { MARGIN } else if raw > hi { hi } else { raw };
            let bottom_half = iy * 2 >= oh;
            Placement {
                anchor: if bottom_half { Anchor::BottomLeft } else { Anchor::TopLeft },
                top: if bottom_half { 0 } else { MARGIN },
                right: 0,
                bottom: if bottom_half { MARGIN } else { 0 },
                left,
            }
        },
    }
}

/// The first output that knows its logical size, or 1920×1080.
pub open spec fn output_size_spec(sizes: Seq<Option<(i32, i32)>>) -> (i32, i32)
    decreases sizes.len(),
{
    if sizes.len() == 0 {
        (1920, 1080)
    } else {
        match sizes[0] {
            Some(s) => s,
            None => output_size_spec(sizes.drop_first()),
        }
    }
}

/// The screen the panel lives on, in logical pixels: one monitor's worth.
pub fn output_size(sizes: &Vec<Option<(i32, i32)>>) -> (r: (i32, i32))
    ensures
        r == output_size_spec(sizes@),
{
    let mut i: usize = 0;
    assert(sizes@.skip(0) =~= sizes@);
    while i < sizes.len()
        invariant
            i <= sizes.len(),
            output_size_spec(sizes@) == output_size_spec(sizes@.skip(i as int)),
        decreases sizes.len() - i,
    {
        assert(sizes@.skip(i as int).drop_first() =~= sizes@.skip(i + 1));
        if let Some(s) = sizes[i] {
            return s;
        }
        i += 1;
    }
    (1920, 1080)
}

/// The surface's state as the panel's thread sees it.
pub struct OsdState {
    /// A layer surface exists (it is built once and kept mapped).
    pub has_layer: bool,
    /// The compositor has configured it: nothing may be drawn before.
    pub configured: bool,
    /// The panel is showing; hidden, it stays mapped and draws nothing.
    pub visible: bool,
    pub scale: i32,
    pub percent: u32,
    pub dark: bool,
    /// Where the panel last asked to be.
    pub place: Option<Placement>,
}

impl OsdState {
    /// No surface yet, full volume, dark.
    pub fn new() -> (s: OsdState)
        ensures
            !s.has_layer && !s.configured && !s.visible,
            s.scale == 1,
            s.percent == 100,
            s.dark,
            s.place is None,
    {
        OsdState { has_layer: false, configured: false, visible: false, scale: 1, percent: 100, dark: true, place: None }
    }
}

/// What a frame draws: the panel's buffer size in pixels, and either the
/// panel at `percent` or a fully transparent frame.
#[derive(Clone, Copy, Debug, PartialEq, Eq, Structural)]
pub struct Frame {
    pub width: u32,
    pub height: u32,
    pub scale: u32,
    pub visible: bool,
    pub percent: u32,
    pub dark: bool,
}

/// The frame the state asks for, if a frame can be drawn at all.
pub open spec fn frame_spec(s: OsdState) -> Option<Frame> {
    if !s.has_layer || !s.configured {
        None
    } else {
        let scale: u32 = if s.scale >= 1 { s.scale as u32 } else { 1 };
        Some(Frame {
            width: (PANEL_W * scale) as u32,
            height: (PANEL_H * scale) as u32,
            scale,
            visible: s.visible,
            percent: s.percent,
            dark: s.dark,
        })
    }
}

/// The scales whose buffer width (`200 * scale` pixels) fits in `u32`.
pub open spec fn scale_fits(scale: i32) -> bool {
    200 * scale <= u32::MAX
}

/// The frame to draw now, if any.
pub fn draw(s: &OsdState) -> (r: Option<Frame>)
    requires
        scale_fits(s.scale),
    ensures
        r == frame_spec(*s),
{
    if !s.has_layer || !s.configured {
        return None;
    }
    let scale: u32 = if s.scale >= 1 { s.scale as u32 } else { 1 };
    Some(Frame {
        width: 200 * scale,
        height: 48 * scale,
        scale,
        visible: s.visible,
        percent: s.percent,
        dark: s.dark,
    })
}

/// What the panel's thread does on a message, in order.
pub struct OsdSteps {
    /// Move the existing surface to this placement and commit.
    pub move_to: Option<Placement>,
    /// Build the surface at this placement.
    pub build: Option<Placement>,
    /// Draw this frame.
    pub frame: Option<Frame>,
    /// Restart the hide countdown.
    pub arm_hide: bool,
}

/// Put the surface up, empty, at startup; nothing when it already exists.
pub fn prime(s: &mut OsdState, icon: Option<(i32, i32)>, output: (i32, i32)) -> (r: OsdSteps)
    requires
        placement_fits(icon, output),
    ensures
        old(s).has_layer ==> r.build is None && *final(s) == *old(s),
        !old(s).has_layer ==> r.build == Some(placement_spec(icon, output)) && *final(s) == (OsdState {
            has_layer: true,
            configured: false,
            visible: false,
            place: Some(placement_spec(icon, output)),
            ..*old(s)
        }),
        r.move_to is None,
        r.frame is None,
        !r.arm_hide,
{
    if s.has_layer {
        return OsdSteps { move_to: None, build: None, frame: None, arm_hide: false };
    }
    let p = placement(icon, output);
    s.visible = false;
    s.has_layer = true;
    s.configured = false;
    s.place = Some(p);
    OsdSteps { move_to: None, build: Some(p), frame: None, arm_hide: false }
}

/// Show the volume (at most 100): move to the icon if the placement changed,
/// build the surface if there is none, else draw; and restart the countdown.
pub fn show(s: &mut OsdState, percent: u32, dark: bool, icon: Option<(i32, i32)>, output: (i32, i32)) -> (r: OsdSteps)
    requires
        placement_fits(icon, output),
        scale_fits(old(s).scale),
    ensures
        ({
            let p = placement_spec(icon, output);
            let pct: u32 = if percent < 100 { percent } else { 100 };
            &&& final(s).percent == pct
            &&& final(s).dark == dark
            &&& final(s).visible
            &&& final(s).place == Some(p)
            &&& final(s).has_layer
            &&& final(s).scale == old(s).scale
            &&& r.move_to == (if old(s).place != Some(p) && old(s).has_layer { Some(p) } else { None::<Placement> })
            &&& !old(s).has_layer ==> r.build == Some(p) && !final(s).configured && r.frame is None
            &&& old(s).has_layer ==> r.build is None && final(s).configured == old(s).configured
                && r.frame == frame_spec(*final(s))
            &&& r.arm_hide
        }),
{
    s.percent = if percent < 100 { percent } else { 100 };
    s.dark = dark;
    let p = placement(icon, output);
    let changed = match s.place {
        Some(q) => q != p,
        None => true,
    };
    let mut move_to: Option<Placement> = None;
    if changed {
        s.place = Some(p);
        if s.has_layer {
            move_to = Some(p);
        }
    }
    s.visible = true;
    if !s.has_layer {
        s.has_layer = true;
        s.configured = false;
        s.place = Some(p);
        OsdSteps { move_to, build: Some(p), frame: None, arm_hide: true }
    } else {
        let f = draw(s);
        OsdSteps { move_to, build: None, frame: f, arm_hide: true }
    }
}

/// The countdown ran out: hide by drawing nothing.
pub fn hide_elapsed(s: &mut OsdState) -> (r: Option<Frame>)
    requires
        scale_fits(old(s).scale),
    ensures
        *final(s) == (OsdState { visible: false, ..*old(s) }),
        r == frame_spec(*final(s)),
{
    s.visible = false;
    draw(s)
}

/// The compositor configured the surface: it may draw now.
pub fn configured(s: &mut OsdState) -> (r: Option<Frame>)
    requires
        scale_fits(old(s).scale),
    ensures
        *final(s) == (OsdState { configured: true, ..*old(s) }),
        r == frame_spec(*final(s)),
{
    s.configured = true;
    draw(s)
}

/// The compositor closed the surface.
pub fn closed(s: &mut OsdState)
    ensures
        *final(s) == (OsdState { has_layer: false, configured: false, ..*old(s) }),
{
    s.has_layer = false;
    s.configured = false;
}

/// The output's scale changed (at least 1 is kept).
pub fn scale_changed(s: &mut OsdState, factor: i32) -> (r: Option<Frame>)
    requires
        scale_fits(factor),
    ensures
        *final(s) == (OsdState { scale: if factor >= 1 { factor } else { 1 }, ..*old(s) }),
        r == frame_spec(*final(s)),
{
    s.scale = if factor >= 1 { factor } else { 1 };
    draw(s)
}

/// A colour.
#[derive(Clone, Copy, Debug, PartialEq, Eq, Structural)]
pub struct Rgb {
    pub r: u8,
    pub g: u8,
    pub b: u8,
}

/// The panel's colours, straight from the app's theme.
#[derive(Clone, Copy, Debug, PartialEq, Eq, Structural)]
pub struct Palette {
    pub bg: Rgb,
    pub border: Rgb,
    pub track: Rgb,
    pub accent: Rgb,
    pub text: Rgb,
}

pub open spec fn palette_spec(dark: bool) -> Palette {
    if dark {
        Palette {
            bg: Rgb { r: 0x25, g: 0x25, b: 0x26 },
            border: Rgb { r: 0x3e, g: 0x3e, b: 0x42 },
            track: Rgb { r: 0x3e, g: 0x3e, b: 0x42 },
            accent: Rgb { r: 0x00, g: 0x7a, b: 0xcc },
            text: Rgb { r: 0xcc, g: 0xcc, b: 0xcc },
        }
    } else {
        Palette {
            bg: Rgb { r: 0xf3, g: 0xf3, b: 0xf3 },
            border: Rgb { r: 0xd4, g: 0xd4, b: 0xd4 },
            track: Rgb { r: 0xd4, g: 0xd4, b: 0xd4 },
            accent: Rgb { r: 0x00, g: 0x7a, b: 0xcc },
            text: Rgb { r: 0x1e, g: 0x1e, b: 0x1e },
        }
    }
}

/// The palette for the app's theme.
pub fn palette(dark: bool) -> (p: Palette)
    ensures
        p == palette_spec(dark),
{
    if dark {
        Palette {
            bg: Rgb { r: 0x25, g: 0x25, b: 0x26 },
            border: Rgb { r: 0x3e, g: 0x3e, b: 0x42 },
            track: Rgb { r: 0x3e, g: 0x3e, b: 0x42 },
            accent: Rgb { r: 0x00, g: 0x7a, b: 0xcc },
            text: Rgb { r: 0xcc, g: 0xcc, b: 0xcc },
        }
    } else {
        Palette {
            bg: Rgb { r: 0xf3, g: 0xf3, b: 0xf3 },
            border: Rgb { r: 0xd4, g: 0xd4, b: 0xd4 },
            track: Rgb { r: 0xd4, g: 0xd4, b: 0xd4 },
            accent: Rgb { r: 0x00, g: 0x7a, b: 0xcc },
            text: Rgb { r: 0x1e, g: 0x1e, b: 0x1e },
        }
    }
}

/// Width of a glyph, in glyph pixels.
pub const GLYPH_W: usize = 5;
/// Height of a glyph, in glyph pixels.
pub const GLYPH_H: usize = 7;

/// 5×7 glyphs for the characters the panel shows (digits and `%`), one row
/// a number, high bit leftmost; anything else is blank.
pub open spec fn glyph_spec(c: u8) -> Seq<u8> {
    if c == 48 {
        seq![0b01110u8, 0b10001, 0b10011, 0b10101, 0b11001, 0b10001, 0b01110]
    } else if c == 49 {
        seq![0b00100u8, 0b01100, 0b00100, 0b00100, 0b00100, 0b00100, 0b01110]
    } else if c == 50 {
        seq![0b01110u8, 0b10001, 0b00001, 0b00010, 0b00100, 0b01000, 0b11111]
    } else if c == 51 {
        seq![0b11111u8, 0b00010, 0b00100, 0b00010, 0b00001, 0b10001, 0b01110]
    } else if c == 52 {
        seq![0b00010u8, 0b00110, 0b01010, 0b10010, 0b11111, 0b00010, 0b00010]
    } else if c == 53 {
        seq![0b11111u8, 0b10000, 0b11110, 0b00001, 0b00001, 0b10001, 0b01110]
    } else if c == 54 {
        seq![0b00110u8, 0b01000, 0b10000, 0b11110, 0b10001, 0b10001, 0b01110]
    } else if c == 55 {
        seq![0b11111u8, 0b00001, 0b00010, 0b00100, 0b01000, 0b01000, 0b01000]
    } else if c == 56 {
        seq![0b01110u8, 0b10001, 0b10001, 0b01110, 0b10001, 0b10001, 0b01110]
    } else if c == 57 {
        seq![0b01110u8, 0b10001, 0b10001, 0b01111, 0b00001, 0b00010, 0b01100]
    } else if c == 37 {
        seq![0b11001u8, 0b11010, 0b00010, 0b00100, 0b01000, 0b01011, 0b10011]
    } else {
        seq![0u8, 0, 0, 0, 0, 0, 0]
    }
}

/// The glyph for a byte.
pub fn glyph(c: u8) -> (r: [u8; 7])
    ensures
        r@ == glyph_spec(c),
{
    let r: [u8; 7] = match c {
        48 => [0b01110, 0b10001, 0b10011, 0b10101, 0b11001, 0b10001, 0b01110],
        49 => [0b00100, 0b01100, 0b00100, 0b00100, 0b00100, 0b00100, 0b01110],
        50 => [0b01110, 0b10001, 0b00001, 0b00010, 0b00100, 0b01000, 0b11111],
        51 => [0b11111, 0b00010, 0b00100, 0b00010, 0b00001, 0b10001, 0b01110],
        52 => [0b00010, 0b00110, 0b01010, 0b10010, 0b11111, 0b00010, 0b00010],
        53 => [0b11111, 0b10000, 0b11110, 0b00001, 0b00001, 0b10001, 0b01110],
        54 => [0b00110, 0b01000, 0b10000, 0b11110, 0b10001, 0b10001, 0b01110],
        55 => [0b11111, 0b00001, 0b00010, 0b00100, 0b01000, 0b01000, 0b01000],
        56 => [0b01110, 0b10001, 0b10001, 0b01110, 0b10001, 0b10001, 0b01110],
        57 => [0b01110, 0b10001, 0b10001, 0b01111, 0b00001, 0b00010, 0b01100],
        37 => [0b11001, 0b11010, 0b00010, 0b00100, 0b01000, 0b01011, 0b10011],
        _ => [0; 7],
    };
    proof {
        assert(r@ =~= glyph_spec(c));
    }
    r
}

/// The percentage as the panel writes it: the number, then `%`.
pub open spec fn number_text(percent: u32) -> Seq<u8> {
    decimal_ascii(percent as nat).push(37u8)
}

/// Whether column `col` (0 leftmost) of a glyph row is lit.
pub open spec fn glyph_bit(bits: u8, col: int) -> bool {
    bits & (1u8 << ((4 - col) as u8)) != 0
}

/// Whether the number covers buffer pixel (x, y). Each glyph pixel is a
/// square of `2 * scale` buffer pixels, glyphs advance by six of them, the
/// text ends at 186 logical pixels and is centred on the panel's middle line.
pub open spec fn number_covers(percent: u32, scale: u32, x: int, y: int) -> bool {
    let t = number_text(percent);
    let s = 2 * scale;
    let adv = 6 * s;
    let x0 = 186 * scale - (adv * t.len() - s);
    let top = 24 * scale - (7 * s) / 2;
    &&& s > 0
    &&& x >= x0
    &&& y >= top
    &&& (x - x0) / adv < t.len()
    &&& ((x - x0) % adv) / s < 5
    &&& (y - top) / s < 7
    &&& glyph_bit(glyph_spec(t[(x - x0) / adv])[(y - top) / s], ((x - x0) % adv) / s)
}

/// Byte `ch` of a premultiplied ARGB pixel (B, G, R, A in memory) of an
/// opaque colour.
pub open spec fn opaque_byte(c: Rgb, ch: int) -> u8 {
    if ch == 0 { c.b } else if ch == 1 { c.g } else if ch == 2 { c.r } else { 255 }
}

/// Byte `p` of a `w`-pixel-wide buffer once the number is written over
/// `old`: the colour, opaque, where the number covers the pixel.
pub open spec fn number_byte(old: Seq<u8>, w: u32, percent: u32, scale: u32, colour: Rgb, p: int) -> u8 {
    let q = p / 4;
    if number_covers(percent, scale, q % (w as int), q / (w as int)) {
        opaque_byte(colour, p % 4)
    } else {
        old[p]
    }
}

proof fn lemma_pixel_index(x: int, y: int, w: int, ch: int)
    requires
        0 <= x < w,
        0 <= y,
        0 <= ch < 4,
    ensures
        ((y * w + x) * 4 + ch) / 4 == y * w + x,
        ((y * w + x) * 4 + ch) % 4 == ch,
        (y * w + x) % w == x,
        (y * w + x) / w == y,
{
    assert(((y * w + x) * 4 + ch) / 4 == y * w + x) by (nonlinear_arith)
        requires 0 <= ch < 4, 0 <= y * w + x;
    assert(((y * w + x) * 4 + ch) % 4 == ch) by (nonlinear_arith)
        requires 0 <= ch < 4, 0 <= y * w + x;
    assert((y * w + x) % w == x && (y * w + x) / w == y) by (nonlinear_arith)
        requires 0 <= x < w, 0 <= y;
}

proof fn lemma_same_pixel(q: int, x: int, y: int, w: int)
    requires
        0 <= q,
        0 <= x < w,
        0 <= y,
        q % w == x,
        q / w == y,
    ensures
        q == y * w + x,
{
    assert(q == w * (q / w) + q % w) by (nonlinear_arith)
        requires 0 < w, 0 <= q;
    assert(w * y == y * w) by (nonlinear_arith);
}

/// A pixel the number covers lies before its right edge: with `d` the
/// distance from the text's left edge, glyph `k = d / adv` is one of the
/// `len` glyphs and the column within it is one of the five lit ones.
proof fn lemma_covered_before_edge(d: int, s: int, len: int)
    requires
        s > 0,
        d >= 0,
        len >= 1,
        d / (6 * s) < len,
        (d % (6 * s)) / s < 5,
    ensures
        d < 6 * s * len - s,
{
    let adv = 6 * s;
    let r = d % adv;
    lemma_fundamental_div_mod(d, adv);
    lemma_fundamental_div_mod(r, s);
    assert(0 <= r % s < s) by (nonlinear_arith)
        requires s > 0;
    assert(adv * (d / adv) <= adv * (len - 1)) by (nonlinear_arith)
        requires adv > 0, d / adv <= len - 1;
    assert(s * (r / s) <= s * 4) by (nonlinear_arith)
        requires s > 0, r / s <= 4;
    assert(adv * (len - 1) == 6 * s * len - 6 * s) by (nonlinear_arith)
        requires adv == 6 * s;
}

/// The number is right-aligned at 186 logical pixels whatever the
/// percentage: no pixel it covers lies at or past that edge, and the column
/// just before it is lit (the top right of the `%`), so "9%" and "100%" end
/// in the same column. Every pixel it writes is opaque.
pub proof fn number_ends_at_column(percent: u32, scale: u32)
    requires
        scale >= 1,
    ensures
        forall|x: int, y: int| #[trigger] number_covers(percent, scale, x, y) ==> x < 186 * scale,
        number_covers(percent, scale, 186 * scale - 1, 17 * scale),
        forall|c: Rgb| #[trigger] opaque_byte(c, 3) == 255,
{
    let t = number_text(percent);
    let s = 2 * scale;
    let adv = 6 * s;
    let len = t.len() as int;
    let x0 = 186 * scale - (adv * len - s);
    let top = 24 * scale - (7 * s) / 2;
    assert(len >= 1);
    assert forall|x: int, y: int| #[trigger] number_covers(percent, scale, x, y) implies x < 186 * scale by {
        lemma_covered_before_edge(x - x0, s, len);
    }
    // The last column: glyph `len - 1`, column 4, top row.
    let d = 186 * scale - 1 - x0;
    assert(d == adv * (len - 1) + (5 * s - 1)) by (nonlinear_arith)
        requires d == 186 * scale - 1 - x0, x0 == 186 * scale - (adv * len - s), adv == 6 * s;
    lemma_fundamental_div_mod_converse(d, adv, len - 1, 5 * s - 1);
    lemma_fundamental_div_mod_converse(5 * s - 1, s, 4, s - 1);
    assert(top == 17 * scale);
    lemma_fundamental_div_mod_converse(0, s, 0, 0);
    assert(t[len - 1] == 37u8);
    assert(glyph_spec(37u8)[0] == 0b11001u8);
    assert(0b11001u8 & (1u8 << 0u8) != 0u8) by (bit_vector);
    assert(glyph_bit(0b11001u8, 4));
}

/// The number's pixel at (x, y), computed in the signed 64-bit range.
fn covers(t: &Vec<u8>, percent: u32, scale: u32, x: i64, y: i64) -> (r: bool)
    requires
        t@ == number_text(percent),
        t@.len() <= 11,
        186 * scale <= i32::MAX,
        0 <= x < 0x1_0000_0000,
        0 <= y < 0x1_0000_0000,
    ensures
        r == number_covers(percent, scale, x as int, y as int),
{
    let s: i64 = 2 * scale as i64;
    if s == 0 {
        return false;
    }
    let adv: i64 = 6 * s;
    let n: i64 = t.len() as i64;
    assert(0 <= adv * n <= 140_000_000 * 11) by (nonlinear_arith)
        requires 0 <= adv <= 140_000_000, 0 <= n <= 11;
    let x0: i64 = 186 * scale as i64 - (adv * n - s);
    let top: i64 = 24 * scale as i64 - (7 * s) / 2;
    if x < x0 || y < top {
        return false;
    }
    let k: i64 = (x - x0) / adv;
    let col: i64 = ((x - x0) % adv) / s;
    let row: i64 = (y - top) / s;
    if k >= n || col >= 5 || row >= 7 {
        return false;
    }
    let g = glyph(t[k as usize]);
    let bits = g[row as usize];
    bits & (1u8 << ((4 - col) as u8)) != 0
}

/// Writes the percentage, right-aligned at 186 logical pixels, into a
/// `w`×`h` premultiplied ARGB buffer, opaque in `colour`.
pub fn number(px: &mut [u8], w: u32, h: u32, scale: u32, percent: u32, colour: Rgb)
    requires
        old(px)@.len() == w * h * 4,
        w * h * 4 <= u32::MAX,
        186 * scale <= i32::MAX,
    ensures
        final(px)@.len() == old(px)@.len(),
        forall|p: int| 0 <= p < old(px)@.len() ==> #[trigger] final(px)@[p] == number_byte(old(px)@, w, percent, scale, colour, p),
{
    let ghost old_px = px@;
    let mut t = decimal_ascii_u64(percent as u64);
    proof {
        assert(percent < pow10(10)) by {
            reveal_with_fuel(pow10, 11);
        }
        lemma_decimal_ascii_len(percent as nat, 10);
    }
    t.push(37);
    let ghost wi = w as int;
    let mut y: u32 = 0;
    while y < h
        invariant
            t@ == number_text(percent),
            t@.len() <= 11,
            186 * scale <= i32::MAX,
            wi == w as int,
            px@.len() == old_px.len(),
            old_px.len() == w * h * 4,
            w * h * 4 <= u32::MAX,
            y <= h,
            forall|p: int| 0 <= p < old_px.len() ==> #[trigger] px@[p] == (if (p / 4) / wi < y {
                number_byte(old_px, w, percent, scale, colour, p)
            } else {
                old_px[p]
            }),
        decreases h - y,
    {
        let mut x: u32 = 0;
        while x < w
            invariant
                t@ == number_text(percent),
                t@.len() <= 11,
                186 * scale <= i32::MAX,
                wi == w as int,
                px@.len() == old_px.len(),
                old_px.len() == w * h * 4,
                w * h * 4 <= u32::MAX,
                y < h,
                x <= w,
                forall|p: int| 0 <= p < old_px.len() ==> #[trigger] px@[p] == (if (p / 4) / wi < y
                    || ((p / 4) / wi == y && (p / 4) % wi < x) {
                    number_byte(old_px, w, percent, scale, colour, p)
                } else {
                    old_px[p]
                }),
            decreases w - x,
        {
            proof {
                assert(y * w + x < w * h) by (nonlinear_arith)
                    requires x < w, y < h;
                assert((y * w + x) * 4 + 3 < w * h * 4) by (nonlinear_arith)
                    requires y * w + x < w * h;
            }
            let lit = covers(&t, percent, scale, x as i64, y as i64);
            if lit {
                let i: usize = ((y * w + x) * 4) as usize;
                let ghost before = px@;
                px[i] = colour.b;
                px[i + 1] = colour.g;
                px[i + 2] = colour.r;
                px[i + 3] = 255;
                proof {
                    assert forall|p: int| 0 <= p < old_px.len() implies #[trigger] px@[p] == (if (p / 4) / wi < y
                        || ((p / 4) / wi == y && (p / 4) % wi < x + 1) {
                        number_byte(old_px, w, percent, scale, colour, p)
                    } else {
                        old_px[p]
                    }) by {
                        let q = p / 4;
                        if i <= p < i + 4 {
                            lemma_pixel_index(x as int, y as int, wi, p - i);
                            assert(p == (y * wi + x) * 4 + (p - i));
                        } else {
                            assert(before[p] == px@[p]);
                            if q % wi == x && q / wi == y {
                                assert(0 <= q) by (nonlinear_arith) requires 0 <= p, q == p / 4;
                                lemma_same_pixel(q, x as int, y as int, wi);
                                assert(i <= p < i + 4) by (nonlinear_arith)
                                    requires q == p / 4, q == y * wi + x, i == (y * wi + x) * 4, 0 <= p;
                            }
                        }
                    }
                }
            } else {
                proof {
                    assert forall|p: int| 0 <= p < old_px.len() implies #[trigger] px@[p] == (if (p / 4) / wi < y
                        || ((p / 4) / wi == y && (p / 4) % wi < x + 1) {
                        number_byte(old_px, w, percent, scale, colour, p)
                    } else {
                        old_px[p]
                    }) by {
                        let q = p / 4;
                        if q / wi == y && q % wi == x {
                            assert(number_byte(old_px, w, percent, scale, colour, p) == old_px[p]);
                        }
                    }
                }
            }
            x += 1;
        }
        proof {
            assert forall|p: int| 0 <= p < old_px.len() implies #[trigger] px@[p] == (if (p / 4) / wi < y + 1 {
                number_byte(old_px, w, percent, scale, colour, p)
            } else {
                old_px[p]
            }) by {
                let q = p / 4;
                assert(0 <= q % wi < wi) by (nonlinear_arith) requires 0 < wi, 0 <= p, q == p / 4;
            }
        }
        y += 1;
    }
    proof {
        assert forall|p: int| 0 <= p < old_px.len() implies #[trigger] px@[p] == number_byte(old_px, w, percent, scale, colour, p) by {
            assert(0 < wi) by (nonlinear_arith) requires 0 <= p < w * h * 4, wi == w as int;
            assert((p / 4) / wi < h) by (nonlinear_arith)
                requires 0 <= p < w * h * 4, wi == w as int, 0 < wi;
        }
    }
}

/// Where the corner panel sits vertically when no icon is known: above the
/// bottom edge by a margin, or (under a top menu bar) below the top edge.
#[derive(Clone, Copy, Debug, PartialEq, Eq, Structural)]
pub enum CornerEdge {
    Bottom(i32),
    Top(i32),
}

/// The panel window's position on a monitor at `origin` of `screen` size,
/// for a window of `size`; margins and the gap to the icon are in physical
/// pixels.
pub open spec fn window_position_spec(
    icon: Option<(i32, i32)>,
    origin: (i32, i32),
    screen: (i32, i32),
    size: (i32, i32),
    margin_x: i32,
    gap: i32,
    corner: CornerEdge,
) -> (int, int) {
    match icon {
        Some((ix, iy)) => {
            let x = clamp_spec(ix - size.0 / 2, origin.0 + margin_x, origin.0 + screen.0 - size.0 - margin_x);
            let y = if (iy - origin.1) * 2 >= screen.1 { iy - size.1 - gap } else { iy + gap };
            (x, y)
        },
        None => {
            let x = origin.0 + screen.0 - size.0 - margin_x;
            let y = match corner {
                CornerEdge::Bottom(m) => origin.1 + screen.1 - size.1 - m,
                CornerEdge::Top(m) => origin.1 + m,
            };
            (x, y)
        },
    }
}

/// The arithmetic stays within `i32`, and (beside an icon) the range the
/// panel is kept in is not empty.
pub open spec fn window_position_fits(
    icon: Option<(i32, i32)>,
    origin: (i32, i32),
    screen: (i32, i32),
    size: (i32, i32),
    margin_x: i32,
    gap: i32,
    corner: CornerEdge,
) -> bool {
    let fits = |v: int| i32::MIN <= v <= i32::MAX;
    &&& size.0 >= 0
    &&& fits(origin.0 + screen.0 - size.0 - margin_x)
    &&& fits(origin.0 + screen.0 - size.0)
    &&& fits(origin.0 + screen.0)
    &&& match icon {
        Some((ix, iy)) => {
            &&& fits(origin.0 + margin_x)
            &&& fits(ix - size.0 / 2)
            &&& fits(iy - origin.1) && fits((iy - origin.1) * 2)
            &&& fits(iy - size.1) && fits(iy - size.1 - gap) && fits(iy + gap)
            &&& origin.0 + margin_x <= origin.0 + screen.0 - size.0 - margin_x
        },
        None => match corner {
            CornerEdge::Bottom(m) => fits(origin.1 + screen.1) && fits(origin.1 + screen.1 - size.1)
                && fits(origin.1 + screen.1 - size.1 - m),
            CornerEdge::Top(m) => fits(origin.1 + m),
        },
    }
}

/// Where the panel window goes where a window may place itself: centred on
/// the icon, inside the monitor's margins, above or below it by which half
/// of the screen the tray is in; the corner when nobody knows the icon.
pub fn window_position(
    icon: Option<(i32, i32)>,
    origin: (i32, i32),
    screen: (i32, i32),
    size: (i32, i32),
    margin_x: i32,
    gap: i32,
    corner: CornerEdge,
) -> (r: (i32, i32))
    requires
        window_position_fits(icon, origin, screen, size, margin_x, gap, corner),
    ensures
        (r.0 as int, r.1 as int) == window_position_spec(icon, origin, screen, size, margin_x, gap, corner),
{
    match icon {
        Some((ix, iy)) => {
            let lo = origin.0 + margin_x;
            let hi = origin.0 + screen.0 - size.0 - margin_x;
            let raw = ix - size.0 / 2;
            let x = if raw < lo { lo } else if raw > hi { hi } else { raw };
            let y = if (iy - origin.1) * 2 >= screen.1 { iy - size.1 - gap } else { iy + gap };
            (x, y)
        },
        None => {
            let x = origin.0 + screen.0 - size.0 - margin_x;
            let y = match corner {
                CornerEdge::Bottom(m) => origin.1 + screen.1 - size.1 - m,
                CornerEdge::Top(m) => origin.1 + m,
            };
            (x, y)
        },
    }
}

/// Beside an icon the panel window stays inside the monitor's margins:
/// its x is never left of the left margin nor right of where it would
/// cross the right one; it is centred on the icon whenever that fits; and
/// it sits a gap above an icon in the bottom half of the screen, a gap
/// below one in the top half. Without an icon it keeps the right margin
/// and its edge's margin, at the bottom or under the top.
pub proof fn window_stays_within_margins(
    icon: Option<(i32, i32)>,
    origin: (i32, i32),
    screen: (i32, i32),
    size: (i32, i32),
    margin_x: i32,
    gap: i32,
    corner: CornerEdge,
)
    requires
        icon is Some ==> origin.0 + margin_x <= origin.0 + screen.0 - size.0 - margin_x,
    ensures
        ({
            let (x, y) = window_position_spec(icon, origin, screen, size, margin_x, gap, corner);
            match icon {
                Some((ix, iy)) => {
                    &&& origin.0 + margin_x <= x
                    &&& x + size.0 + margin_x <= origin.0 + screen.0
                    &&& (origin.0 + margin_x <= ix - size.0 / 2 && ix - size.0 / 2 + size.0 + margin_x <= origin.0 + screen.0
                        ==> x == ix - size.0 / 2)
                    &&& ((iy - origin.1) * 2 >= screen.1 ==> y + size.1 + gap == iy)
                    &&& ((iy - origin.1) * 2 < screen.1 ==> y == iy + gap)
                },
                None => {
                    &&& x + size.0 + margin_x == origin.0 + screen.0
                    &&& (corner matches CornerEdge::Bottom(m) ==> y + size.1 + m == origin.1 + screen.1)
                    &&& (corner matches CornerEdge::Top(m) ==> y == origin.1 + m)
                },
            }
        }),
{
}

/// The volume the panel shows: at most 100.
pub fn shown_percent(percent: u32) -> (r: u32)
    ensures
        r == (if percent < 100 { percent } else { 100 }),
{
    if percent < 100 { percent } else { 100 }
}

/// Beside an icon the panel never hangs off the screen: its left margin is
/// at least the margin, and on a screen wide enough for it the panel ends a
/// margin short of the right edge.
pub proof fn panel_stays_on_screen(ix: i32, iy: i32, output: (i32, i32))
    ensures
        placement_spec(Some((ix, iy)), output).left >= MARGIN,
        output.0 - PANEL_W - MARGIN >= MARGIN ==> placement_spec(Some((ix, iy)), output).left + PANEL_W + MARGIN
            <= output.0,
{
}

} // verus!
