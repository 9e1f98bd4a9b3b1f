//! The system tray icon: what an interaction asks for, the mailbox between
//! the tray thread and the UI thread, what the icon shows, and the pixmap it
//! wears. The StatusNotifierItem itself (ksni) is driven from the program.

use vstd::prelude::*;

verus! {

/// What a tray interaction asks for, in the UI thread's terms.
#[derive(Clone, Copy, Debug, PartialEq, Eq, Structural)]
pub enum TrayAction {
    /// Left-click and the "Mostrar/Ocultar" menu item: show or hide the window.
    ToggleWindow,
    /// Middle-click: the configurable action.
    MiddleClick,
    PlayPause,
    Next,
    Prev,
    Quit,
}

/// What the tray thread and the UI thread hand each other: actions in the
/// order they happened, the scroll notches not yet taken, the tooltip the UI
/// wants shown, and a style change not yet applied.
pub struct TrayMailbox {
    pub actions: Vec<TrayAction>,
    pub scroll: i32,
    pub tooltip: String,
    pub style: Option<u8>,
}

impl TrayMailbox {
    /// An empty mailbox.
    pub fn new() -> (m: TrayMailbox)
        ensures
            m.actions@.len() == 0,
            m.scroll == 0,
            m.tooltip@.len() == 0,
            m.style is None,
    {
        TrayMailbox { actions: Vec::new(), scroll: 0, tooltip: String::new(), style: None }
    }
}

/// `a + b` as a 32-bit two's-complement sum (what an atomic add does).
pub open spec fn wrap_i32(a: int) -> i32 {
    if a > i32::MAX {
        (a - 0x1_0000_0000) as i32
    } else if a < i32::MIN {
        (a + 0x1_0000_0000) as i32
    } else {
        a as i32
    }
}

/// The notches the UI has not taken yet; the count starts again from zero.
pub fn take_scroll(m: &mut TrayMailbox) -> (r: i32)
    ensures
        r == old(m).scroll,
        final(m).scroll == 0,
        final(m).actions@ == old(m).actions@,
        final(m).tooltip@ == old(m).tooltip@,
        final(m).style == old(m).style,
{
    let r = m.scroll;
    m.scroll = 0;
    r
}

/// What the icon should say from now on.
pub fn set_tooltip(m: &mut TrayMailbox, text: &str)
    ensures
        final(m).tooltip@ == text@,
        final(m).actions@ == old(m).actions@,
        final(m).scroll == old(m).scroll,
        final(m).style == old(m).style,
{
    m.tooltip = text.to_owned();
}

/// The style the icon should wear from now on (0 system glyph, 1 symbolic,
/// 2 logo).
pub fn set_style(m: &mut TrayMailbox, style: u8)
    ensures
        final(m).style == Some(style),
        final(m).actions@ == old(m).actions@,
        final(m).scroll == old(m).scroll,
        final(m).tooltip@ == old(m).tooltip@,
{
    m.style = Some(style);
}

/// One poll of a queue of actions: the oldest, and the queue without it;
/// nothing, and the queue as it was, when it is empty.
pub open spec fn poll_spec(q: Seq<TrayAction>) -> (Option<TrayAction>, Seq<TrayAction>) {
    if q.len() == 0 {
        (None, q)
    } else {
        (Some(q[0]), q.drop_first())
    }
}

/// What `n` successive polls of the queue `q` give back, in order.
pub open spec fn drain(q: Seq<TrayAction>, n: nat) -> Seq<Option<TrayAction>>
    decreases n,
{
    if n == 0 {
        Seq::empty()
    } else {
        seq![poll_spec(q).0] + drain(poll_spec(q).1, (n - 1) as nat)
    }
}

/// The oldest interaction the UI has not handled yet.
pub fn poll(m: &mut TrayMailbox) -> (r: Option<TrayAction>)
    ensures
        (r, final(m).actions@) == poll_spec(old(m).actions@),
        old(m).actions@.len() == 0 ==> r is None && final(m).actions@ == old(m).actions@,
        old(m).actions@.len() > 0 ==> r == Some(old(m).actions@[0]) && final(m).actions@ == old(m).actions@.drop_first(),
        final(m).scroll == old(m).scroll,
        final(m).tooltip@ == old(m).tooltip@,
        final(m).style == old(m).style,
{
    if m.actions.len() == 0 {
        None
    } else {
        Some(m.actions.remove(0))
    }
}

/// Once the tray thread has sent `sent` (and nothing is left from before),
/// as many polls as it sent give the actions back in send order, each once,
/// and the next poll finds nothing.
pub proof fn polls_in_send_order(sent: Seq<TrayAction>)
    ensures
        drain(sent, sent.len() + 1) == sent.map_values(|a: TrayAction| Some(a)).push(None),
    decreases sent.len(),
{
    if sent.len() == 0 {
        assert(drain(sent, 1) == seq![poll_spec(sent).0] + drain(sent, 0));
        assert(drain(sent, 1) =~= sent.map_values(|a: TrayAction| Some(a)).push(None));
    } else {
        let rest = sent.drop_first();
        polls_in_send_order(rest);
        assert(drain(sent, sent.len() + 1) == seq![Some(sent[0])] + drain(rest, rest.len() + 1));
        assert(drain(sent, sent.len() + 1) =~= sent.map_values(|a: TrayAction| Some(a)).push(None));
    }
}

/// An interaction on the tray thread, queued for the UI thread.
pub fn send(m: &mut TrayMailbox, a: TrayAction)
    ensures
        final(m).actions@ == old(m).actions@.push(a),
        final(m).scroll == old(m).scroll,
        final(m).tooltip@ == old(m).tooltip@,
        final(m).style == old(m).style,
{
    m.actions.push(a);
}

/// A wheel event over the icon: one notch per event, up is positive, and a
/// horizontal scroll or a zero delta counts for nothing.
pub fn scroll(m: &mut TrayMailbox, delta: i32, vertical: bool)
    ensures
        final(m).scroll == (if vertical && delta != 0 {
            wrap_i32(old(m).scroll + (if delta > 0 { 1int } else { -1int }))
        } else {
            old(m).scroll
        }),
        final(m).actions@ == old(m).actions@,
        final(m).tooltip@ == old(m).tooltip@,
        final(m).style == old(m).style,
{
    if vertical && delta != 0 {
        let step: i32 = if delta > 0 { 1 } else { -1 };
        m.scroll = m.scroll.wrapping_add(step);
    }
}

/// Left-click on the icon.
pub fn activate(m: &mut TrayMailbox)
    ensures
        final(m).actions@ == old(m).actions@.push(TrayAction::ToggleWindow),
        final(m).scroll == old(m).scroll,
        final(m).tooltip@ == old(m).tooltip@,
        final(m).style == old(m).style,
{
    send(m, TrayAction::ToggleWindow);
}

/// Middle-click on the icon.
pub fn secondary_activate(m: &mut TrayMailbox)
    ensures
        final(m).actions@ == old(m).actions@.push(TrayAction::MiddleClick),
        final(m).scroll == old(m).scroll,
        final(m).tooltip@ == old(m).tooltip@,
        final(m).style == old(m).style,
{
    send(m, TrayAction::MiddleClick);
}

/// One line of the context menu: an item with its label (in the source language) and
/// the action it sends, or a separator.
pub enum MenuEntry {
    Item { label: String, action: TrayAction },
    Separator,
}

/// The context menu's label keys and actions, top to bottom.
pub open spec fn menu_spec() -> Seq<Option<(Seq<char>, TrayAction)>> {
    seq![
        Some(("Mostrar/Ocultar"@, TrayAction::ToggleWindow)),
        None,
        Some(("Reproducir/Pausa"@, TrayAction::PlayPause)),
        Some(("Siguiente"@, TrayAction::Next)),
        Some(("Anterior"@, TrayAction::Prev)),
        None,
        Some(("Salir"@, TrayAction::Quit)),
    ]
}

pub open spec fn entry_view(e: MenuEntry) -> Option<(Seq<char>, TrayAction)> {
    match e {
        MenuEntry::Item { label, action } => Some((label@, action)),
        MenuEntry::Separator => None,
    }
}

/// The context menu (right-click).
pub fn menu() -> (r: Vec<MenuEntry>)
    ensures
        r@.len() == menu_spec().len(),
        forall|i: int| 0 <= i < r@.len() ==> entry_view(#[trigger] r@[i]) == menu_spec()[i],
{
    let mut r: Vec<MenuEntry> = Vec::new();
    r.push(MenuEntry::Item { label: "Mostrar/Ocultar".to_owned(), action: TrayAction::ToggleWindow });
    r.push(MenuEntry::Separator);
    r.push(MenuEntry::Item { label: "Reproducir/Pausa".to_owned(), action: TrayAction::PlayPause });
    r.push(MenuEntry::Item { label: "Siguiente".to_owned(), action: TrayAction::Next });
    r.push(MenuEntry::Item { label: "Anterior".to_owned(), action: TrayAction::Prev });
    r.push(MenuEntry::Separator);
    r.push(MenuEntry::Item { label: "Salir".to_owned(), action: TrayAction::Quit });
    r
}

/// What the item shows: style (0 system glyph pixmap, 1 symbolic icon by
/// name, 2 logo pixmap), the desktop's shade, the tooltip text, and where the
/// symbolic SVG was written.
pub struct TrayLook {
    pub style: u8,
    pub dark: bool,
    pub tooltip: String,
    pub theme_dir: String,
}

/// The shade to draw in when the desktop states none: dark.
pub fn initial_dark(pref: Option<bool>) -> (r: bool)
    ensures
        r == (match pref {
            Some(d) => d,
            None => true,
        }),
{
    match pref {
        Some(d) => d,
        None => true,
    }
}

/// The item as it starts: the given style and shade, "Tunante" as tooltip.
pub fn spawn(style: u8, dark: bool, theme_dir: String) -> (t: TrayLook)
    ensures
        t.style == style,
        t.dark == dark,
        t.tooltip@ == "Tunante"@,
        t.theme_dir@ == theme_dir@,
{
    TrayLook { style, dark, tooltip: "Tunante".to_owned(), theme_dir }
}

impl TrayLook {
    /// `IconThemePath`: the SVG's directory for the symbolic style, else empty.
    pub fn icon_theme_path(&self) -> (r: String)
        ensures
            r@ == (if self.style == 1 { self.theme_dir@ } else { Seq::<char>::empty() }),
    {
        if self.style == 1 {
            self.theme_dir.clone()
        } else {
            String::new()
        }
    }

    /// `IconName`: the symbolic icon's name for the symbolic style, else empty.
    pub fn icon_name(&self) -> (r: String)
        ensures
            r@ == (if self.style == 1 { "tunante-symbolic"@ } else { Seq::<char>::empty() }),
    {
        if self.style == 1 {
            "tunante-symbolic".to_owned()
        } else {
            String::new()
        }
    }

    /// Which pixmap the item wears, if any.
    pub fn icon_pixmap(&self) -> (r: Option<IconAsset>)
        ensures
            self.style == 1 ==> r is None,
            self.style != 1 ==> r == Some(icon_asset(self.style, self.dark)),
    {
        if self.style == 1 {
            None
        } else {
            Some(pick_asset(self.style, self.dark))
        }
    }

    /// The tooltip's title: the UI's text, or "Tunante" while it has none.
    pub fn tool_tip(&self) -> (r: String)
        ensures
            r@ == (if self.tooltip@.len() == 0 { "Tunante"@ } else { self.tooltip@ }),
    {
        if self.tooltip.as_str().is_empty() {
            "Tunante".to_owned()
        } else {
            self.tooltip.clone()
        }
    }
}

/// The embedded images a pixmap can come from.
#[derive(Clone, Copy, Debug, PartialEq, Eq, Structural)]
pub enum IconAsset {
    /// The pixel-art cartridge.
    Logo,
    /// The glyph, white, for a dark panel.
    MonoWhite,
    /// The glyph, black, for a light panel.
    MonoBlack,
}

pub open spec fn icon_asset(style: u8, dark: bool) -> IconAsset {
    if style == 2 {
        IconAsset::Logo
    } else if dark {
        IconAsset::MonoWhite
    } else {
        IconAsset::MonoBlack
    }
}

/// The image a style draws: the logo, or the glyph in the panel's shade.
pub fn pick_asset(style: u8, dark: bool) -> (r: IconAsset)
    ensures
        r == icon_asset(style, dark),
{
    if style == 2 {
        IconAsset::Logo
    } else if dark {
        IconAsset::MonoWhite
    } else {
        IconAsset::MonoBlack
    }
}

/// What the watcher last pushed into the item.
pub struct WatchState {
    pub last_tooltip: String,
    pub style: u8,
    pub dark: bool,
}

/// A change to push into the item.
pub struct TrayUpdate {
    pub tooltip: String,
    pub style: u8,
    pub dark: bool,
}

impl WatchState {
    /// The watcher's state as the item starts (no tooltip pushed yet).
    pub fn new(style: u8, dark: bool) -> (w: WatchState)
        ensures
            w.last_tooltip@.len() == 0,
            w.style == style,
            w.dark == dark,
    {
        WatchState { last_tooltip: String::new(), style, dark }
    }
}

/// One tick of the watcher: read the mailbox (a pending style is taken out of
/// it), compare with what was pushed last, and say what to push, if anything.
pub fn watch_tick(w: &mut WatchState, m: &mut TrayMailbox, dark_now: bool) -> (r: Option<TrayUpdate>)
    ensures
        final(m).style is None,
        final(m).actions@ == old(m).actions@,
        final(m).scroll == old(m).scroll,
        final(m).tooltip@ == old(m).tooltip@,
        ({
            let new_style = match old(m).style {
                Some(s) => s,
                None => old(w).style,
            };
            let same = old(m).tooltip@ == old(w).last_tooltip@ && new_style == old(w).style && dark_now == old(w).dark;
            &&& same ==> r is None && final(w).last_tooltip@ == old(w).last_tooltip@ && final(w).style == old(w).style
                && final(w).dark == old(w).dark
            &&& !same ==> (r matches Some(u) && u.tooltip@ == old(m).tooltip@ && u.style == new_style && u.dark == dark_now
                && final(w).last_tooltip@ == old(m).tooltip@ && final(w).style == new_style && final(w).dark == dark_now)
        }),
{
    let tooltip = m.tooltip.clone();
    let new_style = match m.style {
        Some(s) => s,
        None => w.style,
    };
    m.style = None;
    if tooltip == w.last_tooltip && new_style == w.style && dark_now == w.dark {
        return None;
    }
    w.last_tooltip = tooltip.clone();
    w.style = new_style;
    w.dark = dark_now;
    Some(TrayUpdate { tooltip, style: new_style, dark: dark_now })
}

/// Applies a pushed change to the item: an empty tooltip leaves the old one.
pub fn apply_update(t: &mut TrayLook, u: &TrayUpdate)
    ensures
        final(t).tooltip@ == (if u.tooltip@.len() == 0 { old(t).tooltip@ } else { u.tooltip@ }),
        final(t).style == u.style,
        final(t).dark == u.dark,
        final(t).theme_dir@ == old(t).theme_dir@,
{
    if !u.tooltip.as_str().is_empty() {
        t.tooltip = u.tooltip.clone();
    }
    t.style = u.style;
    t.dark = u.dark;
}

/// An ARGB32 pixmap as the StatusNotifierItem wants it.
pub struct TrayIcon {
    pub width: i32,
    pub height: i32,
    pub data: Vec<u8>,
}

/// What `image` decodes the bytes of an image file to: width, height and the
/// RGBA8 samples, or `None` when the bytes are no image it reads.
pub uninterp spec fn decoded_rgba(bytes: Seq<u8>) -> Option<(u32, u32, Seq<u8>)>;

/// `image::load_from_memory`, then `into_rgba8`, `dimensions` and `into_raw`.
/// The contract only names the result (`decoded_rgba`), as a function of the
/// bytes.
#[verifier::external_body]
pub(crate) fn decode_rgba(bytes: &[u8]) -> (r: Option<(u32, u32, Vec<u8>)>)
    ensures
        r matches Some(x) ==> decoded_rgba(bytes@) == Some((x.0, x.1, x.2@)),
        r is None ==> decoded_rgba(bytes@) is None,
{
    match image::load_from_memory(bytes) {
        Ok(img) => {
            let rgba = img.into_rgba8();
            let (w, h) = rgba.dimensions();
            Some((w, h, rgba.into_raw()))
        },
        Err(_) => None,
    }
}

/// The byte at `i` once every whole group of four is turned from R,G,B,A to
/// A,R,G,B; a partial group at the end stays as it was.
pub open spec fn argb_at(d: Seq<u8>, i: int) -> u8 {
    let base = i - i % 4;
    if base + 4 > d.len() {
        d[i]
    } else if i % 4 == 0 {
        d[base + 3]
    } else {
        d[i - 1]
    }
}

/// RGBA samples to the ARGB order the SNI pixmap wants, group by group.
pub fn argb_from_rgba(data: Vec<u8>) -> (r: Vec<u8>)
    ensures
        r@.len() == data@.len(),
        forall|i: int| 0 <= i < r@.len() ==> #[trigger] r@[i] == argb_at(data@, i),
{
    let mut out = data;
    let n = out.len();
    let mut k: usize = 0;
    while k < n && n - k >= 4
        invariant
            out@.len() == n,
            n == data@.len(),
            k % 4 == 0,
            k <= n,
            forall|i: int| 0 <= i < k ==> #[trigger] out@[i] == argb_at(data@, i),
            forall|i: int| k <= i < n ==> #[trigger] out@[i] == data@[i],
        decreases n - k,
    {
        let r = out[k];
        let g = out[k + 1];
        let b = out[k + 2];
        let a = out[k + 3];
        out.set(k, a);
        out.set(k + 1, r);
        out.set(k + 2, g);
        out.set(k + 3, b);
        assert forall|i: int| 0 <= i < k + 4 implies #[trigger] out@[i] == argb_at(data@, i) by {
            if i >= k {
                assert(i - i % 4 == k);
            }
        }
        k = k + 4;
    }
    assert forall|i: int| k <= i < n implies #[trigger] out@[i] == argb_at(data@, i) by {
        assert(i - i % 4 >= k);
    }
    out
}

/// The pixmap for decoded RGBA samples of the given size.
pub fn icon_from_rgba(w: u32, h: u32, data: Vec<u8>) -> (r: TrayIcon)
    ensures
        r.width == w as i32,
        r.height == h as i32,
        r.data@.len() == data@.len(),
        forall|i: int| 0 <= i < r.data@.len() ==> #[trigger] r.data@[i] == argb_at(data@, i),
{
    let d = argb_from_rgba(data);
    TrayIcon { width: w as i32, height: h as i32, data: d }
}

/// The pixmap a style draws from the embedded images (`logo` for style 2,
/// else `white` on a dark desktop and `black` on a light one); `None` when
/// the image does not decode.
pub fn pixmap_for(style: u8, dark: bool, logo: &[u8], white: &[u8], black: &[u8]) -> (r: Option<TrayIcon>)
    ensures
        ({
            let bytes = match icon_asset(style, dark) {
                IconAsset::Logo => logo@,
                IconAsset::MonoWhite => white@,
                IconAsset::MonoBlack => black@,
            };
            match decoded_rgba(bytes) {
                None => r is None,
                Some((w, h, d)) => (r matches Some(icon) && icon.width == w as i32 && icon.height == h as i32
                    && icon.data@.len() == d.len() && forall|i: int| 0 <= i < d.len() ==> #[trigger] icon.data@[i] == argb_at(d, i)),
            }
        }),
{
    let bytes: &[u8] = match pick_asset(style, dark) {
        IconAsset::Logo => logo,
        IconAsset::MonoWhite => white,
        IconAsset::MonoBlack => black,
    };
    match decode_rgba(bytes) {
        Some((w, h, d)) => Some(icon_from_rgba(w, h, d)),
        None => None,
    }
}

} // verus!
