//! The settings screen's small decisions: what a stored value means, what
//! its row says (as the Spanish source text the language catalogues are keyed by),
//! the interface language, and the keyboard shortcuts.

use vstd::prelude::*;
use crate::text::{chars_of, decimal, decimal_u64, extend_chars, extend_str, fill, lower_ascii, replace_spec, str_eq, string_of, take_chars, ascii_lower, decimal_i64, signed_decimal};

verus! {

/// A stored boolean setting: `"true"` is on, anything else stored is off,
/// and nothing stored (or an unreadable database) is the default.
pub fn get_bool_setting(stored: Option<&str>, default: bool) -> (r: bool)
    ensures
        r == (match stored {
            Some(v) => v@ == "true"@,
            None => default,
        }),
{
    match stored {
        Some(v) => str_eq(v, "true"),
        None => default,
    }
}

/// Where a track's rating is read from first.
pub fn rating_priority_label(raw: Option<&str>) -> (r: &'static str)
    ensures
        r@ == (match raw {
            Some(v) => if v@ == "file,folder,db"@ {
                "fichero primero"@
            } else if v@ == "folder,file,db"@ {
                "carpeta primero"@
            } else {
                "BD manda"@
            },
            None => "BD manda"@,
        }),
{
    match raw {
        Some(v) => if str_eq(v, "file,folder,db") {
            "fichero primero"
        } else if str_eq(v, "folder,file,db") {
            "carpeta primero"
        } else {
            "BD manda"
        },
        None => "BD manda",
    }
}

/// What the tray's middle click does.
pub fn tray_click_label(a: &str) -> (r: &'static str)
    ensures
        r@ == (if a@ == "play_pause"@ {
            "reproducir/pausa"@
        } else if a@ == "stop"@ {
            "stop"@
        } else if a@ == "next_track"@ {
            "siguiente"@
        } else if a@ == "next_track_with_fade"@ {
            "siguiente con fundido"@
        } else {
            "mostrar/ocultar"@
        }),
{
    if str_eq(a, "play_pause") {
        "reproducir/pausa"
    } else if str_eq(a, "stop") {
        "stop"
    } else if str_eq(a, "next_track") {
        "siguiente"
    } else if str_eq(a, "next_track_with_fade") {
        "siguiente con fundido"
    } else {
        "mostrar/ocultar"
    }
}

/// The tray icon's style.
pub fn tray_style_label(style: u8) -> (r: &'static str)
    ensures
        r@ == (if style == 1 { "simbólico"@ } else if style == 2 { "logo"@ } else { "sistema"@ }),
{
    if style == 1 {
        "simbólico"
    } else if style == 2 {
        "logo"
    } else {
        "sistema"
    }
}

/// The theme mode.
pub fn theme_mode_label(mode: u8) -> (r: &'static str)
    ensures
        r@ == (if mode == 1 { "claro"@ } else if mode == 2 { "sistema"@ } else { "oscuro"@ }),
{
    if mode == 1 {
        "claro"
    } else if mode == 2 {
        "sistema"
    } else {
        "oscuro"
    }
}

/// What the output row shows for a device name: at most 34 characters, and
/// an ellipsis when some were cut. `None` for the system default (the row
/// says "sistema").
pub fn output_label(stored: &str) -> (r: Option<String>)
    ensures
        stored@ == "system"@ ==> r is None,
        stored@ != "system"@ ==> (r matches Some(l) && l@ == (if stored@.len() > 34 {
            stored@.take(34).push('…')
        } else {
            stored@
        })),
{
    if str_eq(stored, "system") {
        return None;
    }
    let mut label = take_chars(stored, 34);
    let all = chars_of(stored);
    if label.len() < all.len() {
        label.push('…');
    }
    Some(string_of(label.as_slice()))
}

/// "1 pista", else the count put into the localised "{} pistas".
pub fn playlist_subtitle(n: i64, one: &str, many: &str) -> (r: String)
    ensures
        r@ == (if n == 1 { one@ } else { replace_spec(many@, "{}"@, signed_decimal(n as int)) }),
{
    if n == 1 {
        one.to_owned()
    } else {
        let d = decimal_i64(n);
        let ds = string_of(d.as_slice());
        fill(many, ds.as_str())
    }
}

/// The cover-fit mode a stored key names (0 for anything unknown: "cover").
pub open spec fn fit_from_key(key: Seq<char>) -> i32 {
    if key == "contain"@ {
        1
    } else if key == "blur"@ {
        2
    } else if key == "fill"@ {
        3
    } else if key == "none"@ {
        4
    } else {
        0
    }
}

/// The key a cover-fit mode is stored under.
pub open spec fn key_of_fit(fit: i32) -> Seq<char> {
    if fit == 1 {
        "contain"@
    } else if fit == 2 {
        "blur"@
    } else if fit == 3 {
        "fill"@
    } else if fit == 4 {
        "none"@
    } else {
        "cover"@
    }
}

/// The cover-fit mode for a stored key.
pub fn cover_fit_from_key(key: &str) -> (r: i32)
    ensures
        r == fit_from_key(key@),
{
    if str_eq(key, "contain") {
        1
    } else if str_eq(key, "blur") {
        2
    } else if str_eq(key, "fill") {
        3
    } else if str_eq(key, "none") {
        4
    } else {
        0
    }
}

/// The stored key for a cover-fit mode.
pub fn cover_fit_key(fit: i32) -> (r: &'static str)
    ensures
        r@ == key_of_fit(fit),
{
    if fit == 1 {
        "contain"
    } else if fit == 2 {
        "blur"
    } else if fit == 3 {
        "fill"
    } else if fit == 4 {
        "none"
    } else {
        "cover"
    }
}

/// What the cover-fit row says.
pub fn cover_fit_label(fit: i32) -> (r: &'static str)
    ensures
        r@ == (if fit == 1 {
            "entera"@
        } else if fit == 2 {
            "con fondo"@
        } else if fit == 3 {
            "estirada"@
        } else if fit == 4 {
            "original"@
        } else {
            "recortada"@
        }),
{
    if fit == 1 {
        "entera"
    } else if fit == 2 {
        "con fondo"
    } else if fit == 3 {
        "estirada"
    } else if fit == 4 {
        "original"
    } else {
        "recortada"
    }
}

proof fn lemma_fit_keys_distinct()
    ensures
        "cover"@ != "contain"@,
        "cover"@ != "blur"@,
        "cover"@ != "fill"@,
        "cover"@ != "none"@,
        "contain"@ != "blur"@,
        "contain"@ != "fill"@,
        "contain"@ != "none"@,
        "blur"@ != "fill"@,
        "blur"@ != "none"@,
        "fill"@ != "none"@,
{
    reveal_strlit("contain");
    reveal_strlit("blur");
    reveal_strlit("fill");
    reveal_strlit("none");
    reveal_strlit("cover");
    assert("cover"@.len() == 5);
    assert("contain"@.len() == 7);
    assert("blur"@[0] != "fill"@[0]);
    assert("blur"@[0] != "none"@[0]);
    assert("fill"@[0] != "none"@[0]);
}

/// Storing a cover-fit mode and reading it back gives the same mode, for
/// each of the five; an unknown mode is stored as "cover" and reads back 0.
pub proof fn cover_fit_round_trip(fit: i32)
    ensures
        0 <= fit <= 4 ==> fit_from_key(key_of_fit(fit)) == fit,
        !(0 <= fit <= 4) ==> fit_from_key(key_of_fit(fit)) == 0,
{
    reveal_strlit("contain");
    reveal_strlit("blur");
    reveal_strlit("fill");
    reveal_strlit("none");
    reveal_strlit("cover");
    lemma_fit_keys_distinct();
}

/// Reading a stored key and storing it again gives the same key, for each
/// of the five keys.
pub proof fn cover_fit_key_round_trip(key: Seq<char>)
    requires
        key == "cover"@ || key == "contain"@ || key == "blur"@ || key == "fill"@ || key == "none"@,
    ensures
        key_of_fit(fit_from_key(key)) == key,
{
    reveal_strlit("contain");
    reveal_strlit("blur");
    reveal_strlit("fill");
    reveal_strlit("none");
    reveal_strlit("cover");
    lemma_fit_keys_distinct();
}

/// The languages the selector cycles through: a stored code and its native
/// name (`""` is "follow the system").
pub open spec fn ui_langs() -> Seq<(Seq<char>, Seq<char>)> {
    seq![
        (""@, ""@),
        ("es"@, "Español"@),
        ("en"@, "English"@),
        ("fr"@, "Français"@),
        ("de"@, "Deutsch"@),
        ("it"@, "Italiano"@),
        ("pt"@, "Português"@),
    ]
}

/// The languages the selector cycles through, in order.
pub fn ui_lang_list() -> (r: Vec<(&'static str, &'static str)>)
    ensures
        r@.len() == ui_langs().len(),
        forall|i: int| 0 <= i < r@.len() ==> (#[trigger] r@[i]).0@ == ui_langs()[i].0 && r@[i].1@ == ui_langs()[i].1,
{
    let mut r: Vec<(&'static str, &'static str)> = Vec::new();
    r.push(("", ""));
    r.push(("es", "Español"));
    r.push(("en", "English"));
    r.push(("fr", "Français"));
    r.push(("de", "Deutsch"));
    r.push(("it", "Italiano"));
    r.push(("pt", "Português"));
    r
}

/// The first listed language with this code, by index.
pub open spec fn lang_index(code: Seq<char>) -> Option<int> {
    if exists|i: int| 0 <= i < ui_langs().len() && ui_langs()[i].0 == code {
        Some(choose|i: int| 0 <= i < ui_langs().len() && ui_langs()[i].0 == code
            && forall|j: int| 0 <= j < i ==> ui_langs()[j].0 != code)
    } else {
        None
    }
}

/// The name shown for a stored language code (empty for "system" and for a
/// code that is not listed).
pub fn language_label(code: &str) -> (r: &'static str)
    ensures
        r@ == (match lang_index(code@) {
            Some(i) => ui_langs()[i].1,
            None => ""@,
        }),
{
    let langs = ui_lang_list();
    let mut i: usize = 0;
    while i < langs.len()
        invariant
            i <= langs@.len(),
            langs@.len() == ui_langs().len(),
            forall|k: int| 0 <= k < langs@.len() ==> (#[trigger] langs@[k]).0@ == ui_langs()[k].0 && langs@[k].1@ == ui_langs()[k].1,
            forall|j: int| 0 <= j < i ==> ui_langs()[j].0 != code@,
        decreases langs.len() - i,
    {
        let (c, l) = langs[i];
        if str_eq(c, code) {
            proof {
                let w = choose|k: int| 0 <= k < ui_langs().len() && ui_langs()[k].0 == code@
                    && forall|j: int| 0 <= j < k ==> ui_langs()[j].0 != code@;
                assert(0 <= i < ui_langs().len() && ui_langs()[i as int].0 == code@);
                if w < i {
                } else if w > i {
                    assert(ui_langs()[i as int].0 != code@);
                }
            }
            return l;
        }
        i += 1;
    }
    ""
}

/// The concrete language a stored code resolves to: `""` follows the system
/// locale (`env_lang`), anything else is itself.
pub fn resolved_language(code: &str, env_lang: &str) -> (r: String)
    ensures
        r@ == resolved_spec(code@, env_lang@),
{
    if code.is_empty() {
        env_lang.to_owned()
    } else {
        code.to_owned()
    }
}

/// The bundled catalogue to select for a resolved language: the Spanish
/// source (`""`) for an empty code and for `es`, else the code.
pub fn bundled_language(lang: &str) -> (r: String)
    ensures
        r@ == bundled_spec(lang@),
{
    if lang.is_empty() || str_eq(lang, "es") {
        String::new()
    } else {
        lang.to_owned()
    }
}

/// The characters of `s` before the first one that `stop` accepts.
pub open spec fn head_until(s: Seq<char>, stop: spec_fn(char) -> bool) -> Seq<char>
    decreases s.len(),
{
    if s.len() == 0 || stop(s[0]) {
        Seq::empty()
    } else {
        seq![s[0]] + head_until(s.drop_first(), stop)
    }
}

pub open spec fn is_dot(c: char) -> bool {
    c == '.'
}

pub open spec fn is_subtag_sep(c: char) -> bool {
    c == '_' || c == '-'
}

/// The UI language a locale value names: the primary subtag of the part
/// before the codeset (`es_ES.UTF-8` → `es`), in ASCII lowercase; none for
/// the neutral `C`/`POSIX` locales or an empty one.
pub open spec fn locale_language(v: Seq<char>) -> Option<Seq<char>> {
    let base = head_until(v, |c: char| is_dot(c));
    if base.len() == 0 || base == "C"@ || base == "POSIX"@ {
        None
    } else {
        let primary = head_until(base, |c: char| is_subtag_sep(c));
        if primary.len() == 0 {
            None
        } else {
            Some(primary.map_values(|c: char| ascii_lower(c)))
        }
    }
}

/// The first of the locale variables (`LC_ALL`, `LC_MESSAGES`, `LANG`, in
/// that order) that names a language; empty when none does.
pub open spec fn env_language(vals: Seq<Option<Seq<char>>>) -> Seq<char>
    decreases vals.len(),
{
    if vals.len() == 0 {
        Seq::empty()
    } else {
        match vals[0] {
            Some(v) => match locale_language(v) {
                Some(l) => l,
                None => env_language(vals.drop_first()),
            },
            None => env_language(vals.drop_first()),
        }
    }
}

fn head_until_dot(s: &[char]) -> (r: Vec<char>)
    ensures
        r@ == head_until(s@, |c: char| is_dot(c)),
{
    let mut i: usize = 0;
    while i < s.len() && s[i] != '.'
        invariant
            i <= s.len(),
            forall|j: int| 0 <= j < i ==> s@[j] != '.',
        decreases s.len() - i,
    {
        i += 1;
    }
    proof {
        lemma_head_until(s@, |c: char| is_dot(c), i as int);
    }
    crate::text::slice_chars(s, 0, i)
}

fn head_until_sep(s: &[char]) -> (r: Vec<char>)
    ensures
        r@ == head_until(s@, |c: char| is_subtag_sep(c)),
{
    let mut i: usize = 0;
    while i < s.len() && s[i] != '_' && s[i] != '-'
        invariant
            i <= s.len(),
            forall|j: int| 0 <= j < i ==> !is_subtag_sep(s@[j]),
        decreases s.len() - i,
    {
        i += 1;
    }
    proof {
        lemma_head_until(s@, |c: char| is_subtag_sep(c), i as int);
    }
    crate::text::slice_chars(s, 0, i)
}

proof fn lemma_head_until(s: Seq<char>, stop: spec_fn(char) -> bool, k: int)
    requires
        0 <= k <= s.len(),
        forall|j: int| 0 <= j < k ==> !stop(#[trigger] s[j]),
        k == s.len() || stop(s[k]),
    ensures
        head_until(s, stop) == s.subrange(0, k),
    decreases s.len(),
{
    if k > 0 {
        assert(forall|j: int| 0 <= j < k - 1 ==> s.drop_first()[j] == s[j + 1]);
        lemma_head_until(s.drop_first(), stop, k - 1);
        assert(s.subrange(0, k) =~= seq![s[0]] + s.drop_first().subrange(0, k - 1));
    } else {
        assert(s.subrange(0, 0) =~= Seq::<char>::empty());
    }
}

/// The language a locale value names, if any.
pub fn language_of_locale(v: &str) -> (r: Option<Vec<char>>)
    ensures
        r matches Some(l) ==> locale_language(v@) == Some(l@),
        r is None ==> locale_language(v@) is None,
{
    let c = chars_of(v);
    let base = head_until_dot(c.as_slice());
    let bs = string_of(base.as_slice());
    if base.len() == 0 || str_eq(bs.as_str(), "C") || str_eq(bs.as_str(), "POSIX") {
        return None;
    }
    let primary = head_until_sep(base.as_slice());
    if primary.len() == 0 {
        return None;
    }
    let l = lower_ascii(primary.as_slice());
    assert(l@ =~= primary@.map_values(|c: char| ascii_lower(c)));
    Some(l)
}

/// The UI language from the locale variables' values (`LC_ALL`,
/// `LC_MESSAGES`, `LANG`, each `None` when unset).
pub fn ui_language_from_env(vals: &Vec<Option<String>>) -> (r: String)
    ensures
        r@ == env_language(vals@.map_values(|o: Option<String>| match o {
            Some(s) => Some(s@),
            None => None::<Seq<char>>,
        })),
{
    let ghost vs = vals@.map_values(|o: Option<String>| match o {
        Some(s) => Some(s@),
        None => None::<Seq<char>>,
    });
    let mut i: usize = 0;
    assert(vs.skip(0) =~= vs);
    while i < vals.len()
        invariant
            i <= vals@.len(),
            vs == vals@.map_values(|o: Option<String>| match o {
                Some(s) => Some(s@),
                None => None::<Seq<char>>,
            }),
            env_language(vs) == env_language(vs.skip(i as int)),
        decreases vals.len() - i,
    {
        assert(vs.skip(i as int).drop_first() =~= vs.skip(i + 1));
        assert(vs.skip(i as int)[0] == vs[i as int]);
        match &vals[i] {
            Some(v) => {
                if let Some(l) = language_of_locale(v.as_str()) {
                    return string_of(l.as_slice());
                }
            },
            None => {},
        }
        i += 1;
    }
    assert(vs.skip(i as int) =~= Seq::<Option<Seq<char>>>::empty());
    String::new()
}

/// A verb a shortcut or a mouse button can run.
#[derive(Clone, Copy, Debug, PartialEq, Eq, Structural)]
pub enum Verb {
    PlayPause,
    Stop,
    PrevTrack,
    NextTrack,
    VolumeUp,
    VolumeDown,
    Mute,
    ToggleShuffle,
    CycleRepeat,
    FocusSearch,
    ToggleFav,
}

/// The verb an action id names.
pub open spec fn verb_of(action: Seq<char>) -> Option<Verb> {
    if action == "play_pause"@ {
        Some(Verb::PlayPause)
    } else if action == "stop"@ {
        Some(Verb::Stop)
    } else if action == "prev_track"@ {
        Some(Verb::PrevTrack)
    } else if action == "next_track"@ {
        Some(Verb::NextTrack)
    } else if action == "volume_up"@ {
        Some(Verb::VolumeUp)
    } else if action == "volume_down"@ {
        Some(Verb::VolumeDown)
    } else if action == "mute"@ {
        Some(Verb::Mute)
    } else if action == "toggle_shuffle"@ {
        Some(Verb::ToggleShuffle)
    } else if action == "cycle_repeat"@ {
        Some(Verb::CycleRepeat)
    } else if action == "focus_search"@ {
        Some(Verb::FocusSearch)
    } else if action == "toggle_fav"@ {
        Some(Verb::ToggleFav)
    } else {
        None
    }
}

/// Which verb a shortcut or mouse action runs; `None` for an id that names
/// none (the action is then not handled).
pub fn run_action_by_id(action: &str) -> (r: Option<Verb>)
    ensures
        r == verb_of(action@),
{
    if str_eq(action, "play_pause") {
        Some(Verb::PlayPause)
    } else if str_eq(action, "stop") {
        Some(Verb::Stop)
    } else if str_eq(action, "prev_track") {
        Some(Verb::PrevTrack)
    } else if str_eq(action, "next_track") {
        Some(Verb::NextTrack)
    } else if str_eq(action, "volume_up") {
        Some(Verb::VolumeUp)
    } else if str_eq(action, "volume_down") {
        Some(Verb::VolumeDown)
    } else if str_eq(action, "mute") {
        Some(Verb::Mute)
    } else if str_eq(action, "toggle_shuffle") {
        Some(Verb::ToggleShuffle)
    } else if str_eq(action, "cycle_repeat") {
        Some(Verb::CycleRepeat)
    } else if str_eq(action, "focus_search") {
        Some(Verb::FocusSearch)
    } else if str_eq(action, "toggle_fav") {
        Some(Verb::ToggleFav)
    } else {
        None
    }
}

/// The rating "toggle favourite" gives the playing track: it keeps its own
/// when it has one, else five stars.
pub fn fav_rating(current: i32) -> (r: i32)
    ensures
        r == (if current > 0 { current } else { 5 }),
{
    if current > 0 { current } else { 5 }
}

/// The in-app shortcut catalog: id and row label.
pub open spec fn shortcut_action_table() -> Seq<(Seq<char>, Seq<char>)> {
    seq![
        ("play_pause"@, "Tecla · Reproducir/Pausa"@),
        ("stop"@, "Tecla · Stop"@),
        ("prev_track"@, "Tecla · Anterior"@),
        ("next_track"@, "Tecla · Siguiente"@),
        ("volume_up"@, "Tecla · Subir volumen"@),
        ("volume_down"@, "Tecla · Bajar volumen"@),
        ("mute"@, "Tecla · Silenciar"@),
        ("toggle_shuffle"@, "Tecla · Aleatorio"@),
        ("cycle_repeat"@, "Tecla · Repetir"@),
        ("focus_search"@, "Tecla · Buscar"@),
        ("toggle_fav"@, "Tecla · Favorito"@),
    ]
}

/// The shortcut catalog, in order.
pub fn shortcut_actions() -> (r: Vec<(&'static str, &'static str)>)
    ensures
        r@.len() == shortcut_action_table().len(),
        forall|i: int| 0 <= i < r@.len() ==> (#[trigger] r@[i]).0@ == shortcut_action_table()[i].0
            && r@[i].1@ == shortcut_action_table()[i].1,
{
    let mut r: Vec<(&'static str, &'static str)> = Vec::new();
    r.push(("play_pause", "Tecla · Reproducir/Pausa"));
    r.push(("stop", "Tecla · Stop"));
    r.push(("prev_track", "Tecla · Anterior"));
    r.push(("next_track", "Tecla · Siguiente"));
    r.push(("volume_up", "Tecla · Subir volumen"));
    r.push(("volume_down", "Tecla · Bajar volumen"));
    r.push(("mute", "Tecla · Silenciar"));
    r.push(("toggle_shuffle", "Tecla · Aleatorio"));
    r.push(("cycle_repeat", "Tecla · Repetir"));
    r.push(("focus_search", "Tecla · Buscar"));
    r.push(("toggle_fav", "Tecla · Favorito"));
    r
}

/// The last `+` of a combo, if any.
pub open spec fn last_plus(s: Seq<char>) -> Option<int> {
    if exists|k: int| 0 <= k < s.len() && s[k] == '+' {
        Some(choose|k: int| 0 <= k < s.len() && s[k] == '+' && forall|j: int| k < j < s.len() ==> s[j] != '+')
    } else {
        None
    }
}

/// A stored combo split at its last `+` (`str::rsplit_once('+')`): the
/// modifiers and the key, the only part that is a word and gets localised.
pub fn split_combo(combo: &str) -> (r: Option<(String, String)>)
    ensures
        r matches Some(p) ==> (last_plus(combo@) matches Some(k) && p.0@ == combo@.take(k) && p.1@ == combo@.skip(k + 1)),
        r is None ==> last_plus(combo@) is None,
{
    let c = chars_of(combo);
    let mut k: usize = c.len();
    while k > 0 && c[k - 1] != '+'
        invariant
            k <= c.len(),
            c@ == combo@,
            forall|j: int| k <= j < c.len() ==> c@[j] != '+',
        decreases k,
    {
        k -= 1;
    }
    if k == 0 {
        return None;
    }
    let p = k - 1;
    proof {
        let w = choose|m: int| 0 <= m < c@.len() && c@[m] == '+' && forall|j: int| m < j < c@.len() ==> c@[j] != '+';
        assert(0 <= p < c@.len() && c@[p as int] == '+');
        if w < p {
            assert(c@[p as int] != '+');
        } else if w > p {
        }
    }
    let mods = crate::text::slice_chars(c.as_slice(), 0, p);
    let key = crate::text::slice_chars(c.as_slice(), p + 1, c.len());
    assert(c@.subrange(0, p as int) == combo@.take(p as int));
    assert(c@.subrange(p + 1, c@.len() as int) == combo@.skip(p + 1));
    Some((string_of(mods.as_slice()), string_of(key.as_slice())))
}

/// What `char::to_uppercase` makes of a character (one or more characters).
pub uninterp spec fn uppercase_of(c: char) -> Seq<char>;

/// `c.to_uppercase().to_string()`. The contract names the result, and says
/// what std documents of the ASCII letters: `a` to `z` become `A` to `Z`.
/// What other characters become is left to the name.
#[verifier::external_body]
fn char_upper(c: char) -> (r: String)
    ensures
        r@ == uppercase_of(c),
        'a' <= c <= 'z' ==> r@ == seq![((c as u32) - 32) as char],
{
    c.to_uppercase().to_string()
}

/// `char::is_control`: the C0 and C1 control characters.
pub open spec fn is_control(c: char) -> bool {
    (c as u32) <= 0x1F || (0x7F <= (c as u32) && (c as u32) <= 0x9F)
}

/// The name a key is bound by, from the first character of its text; none
/// for keys that make no binding. Special keys arrive as private-use
/// characters; with Ctrl held a letter arrives as its control byte.
pub open spec fn key_name(c: char, ctrl: bool) -> Option<Seq<char>> {
    let x = c as u32;
    if c == ' ' {
        Some("Espacio"@)
    } else if x == 0xf700 {
        Some("Arriba"@)
    } else if x == 0xf701 {
        Some("Abajo"@)
    } else if x == 0xf702 {
        Some("Izquierda"@)
    } else if x == 0xf703 {
        Some("Derecha"@)
    } else if x == 0xf729 {
        Some("Inicio"@)
    } else if x == 0xf72b {
        Some("Fin"@)
    } else if x == 0xf72c {
        Some("RePág"@)
    } else if x == 0xf72d {
        Some("AvPág"@)
    } else if 0xf704 <= x <= 0xf726 {
        Some(seq!['F'] + decimal((x - 0xf703) as nat))
    } else if is_control(c) {
        if ctrl && 1 <= x <= 26 {
            Some(uppercase_of(((x + 0x60) as u8) as char))
        } else {
            None
        }
    } else {
        Some(uppercase_of(c))
    }
}

/// A key event as the stored combo (`Ctrl+Alt+P`, `Espacio`, `F5`). Shift is
/// written only for named keys: a letter already arrives in its case.
pub open spec fn combo_spec(text: Seq<char>, ctrl: bool, alt: bool, shift: bool) -> Option<Seq<char>> {
    if text.len() == 0 {
        None
    } else {
        match key_name(text[0], ctrl) {
            None => None,
            Some(name) => Some(
                (if ctrl { "Ctrl+"@ } else { Seq::<char>::empty() }) + (if alt { "Alt+"@ } else { Seq::<char>::empty() })
                    + (if shift && name.len() > 1 { "Shift+"@ } else { Seq::<char>::empty() }) + name,
            ),
        }
    }
}

fn key_name_of(c: char, ctrl: bool) -> (r: Option<Vec<char>>)
    ensures
        r matches Some(n) ==> key_name(c, ctrl) == Some(n@),
        r is None ==> key_name(c, ctrl) is None,
{
    let x = c as u32;
    if c == ' ' {
        Some(chars_of("Espacio"))
    } else if x == 0xf700 {
        Some(chars_of("Arriba"))
    } else if x == 0xf701 {
        Some(chars_of("Abajo"))
    } else if x == 0xf702 {
        Some(chars_of("Izquierda"))
    } else if x == 0xf703 {
        Some(chars_of("Derecha"))
    } else if x == 0xf729 {
        Some(chars_of("Inicio"))
    } else if x == 0xf72b {
        Some(chars_of("Fin"))
    } else if x == 0xf72c {
        Some(chars_of("RePág"))
    } else if x == 0xf72d {
        Some(chars_of("AvPág"))
    } else if 0xf704 <= x && x <= 0xf726 {
        let mut v: Vec<char> = Vec::new();
        v.push('F');
        let d = decimal_u64((x - 0xf703) as u64);
        extend_chars(&mut v, d.as_slice());
        assert(v@ =~= seq!['F'] + decimal((x - 0xf703) as nat));
        Some(v)
    } else if x <= 0x1F || (0x7F <= x && x <= 0x9F) {
        if ctrl && 1 <= x && x <= 26 {
            let l = ((x + 0x60) as u8) as char;
            let u = char_upper(l);
            Some(chars_of(u.as_str()))
        } else {
            None
        }
    } else {
        let u = char_upper(c);
        Some(chars_of(u.as_str()))
    }
}

/// The combo a key event binds, or `None` for a key that binds nothing.
pub fn shortcut_combo(text: &str, ctrl: bool, alt: bool, shift: bool) -> (r: Option<String>)
    ensures
        r matches Some(s) ==> combo_spec(text@, ctrl, alt, shift) == Some(s@),
        r is None ==> combo_spec(text@, ctrl, alt, shift) is None,
{
    let t = chars_of(text);
    if t.len() == 0 {
        return None;
    }
    let name = match key_name_of(t[0], ctrl) {
        Some(n) => n,
        None => return None,
    };
    let mut combo: Vec<char> = Vec::new();
    if ctrl {
        extend_str(&mut combo, "Ctrl+");
    }
    if alt {
        extend_str(&mut combo, "Alt+");
    }
    if shift && name.len() > 1 {
        extend_str(&mut combo, "Shift+");
    }
    extend_chars(&mut combo, name.as_slice());
    proof {
        let e = Seq::<char>::empty();
        let a = if ctrl { "Ctrl+"@ } else { e };
        let b = if alt { "Alt+"@ } else { e };
        let s = if shift && name@.len() > 1 { "Shift+"@ } else { e };
        assert(combo@ =~= a + b + s + name@);
    }
    Some(string_of(combo.as_slice()))
}

/// The modifiers written before a key's name: `Ctrl+`, `Alt+`, and
/// `Shift+` for a named key (a name longer than one character).
pub open spec fn combo_prefix(ctrl: bool, alt: bool, shift: bool, name: Seq<char>) -> Seq<char> {
    (if ctrl { "Ctrl+"@ } else { Seq::<char>::empty() }) + (if alt { "Alt+"@ } else { Seq::<char>::empty() })
        + (if shift && name.len() > 1 { "Shift+"@ } else { Seq::<char>::empty() })
}

/// The arrow keys bind by their own directions, with whatever modifiers
/// are held: U+F700 up ("Arriba"), U+F701 down ("Abajo"), U+F702 left
/// ("Izquierda"), U+F703 right ("Derecha"); so Ctrl with the left arrow
/// records "Ctrl+Izquierda".
pub proof fn arrow_keys_bind_by_direction(text: Seq<char>, ctrl: bool, alt: bool, shift: bool)
    requires
        text.len() > 0,
    ensures
        text[0] as u32 == 0xf700 ==> combo_spec(text, ctrl, alt, shift) == Some(combo_prefix(ctrl, alt, shift, "Arriba"@) + "Arriba"@),
        text[0] as u32 == 0xf701 ==> combo_spec(text, ctrl, alt, shift) == Some(combo_prefix(ctrl, alt, shift, "Abajo"@) + "Abajo"@),
        text[0] as u32 == 0xf702 ==> combo_spec(text, ctrl, alt, shift) == Some(combo_prefix(ctrl, alt, shift, "Izquierda"@) + "Izquierda"@),
        text[0] as u32 == 0xf703 ==> combo_spec(text, ctrl, alt, shift) == Some(combo_prefix(ctrl, alt, shift, "Derecha"@) + "Derecha"@),
        text[0] as u32 == 0xf702 && ctrl && !alt && !shift ==> combo_spec(text, ctrl, alt, shift) == Some("Ctrl+Izquierda"@),
{
    reveal_strlit("Ctrl+");
    reveal_strlit("Izquierda");
    reveal_strlit("Ctrl+Izquierda");
    if text[0] as u32 == 0xf702 && ctrl && !alt && !shift {
        assert("Ctrl+"@ + Seq::<char>::empty() + Seq::<char>::empty() + "Izquierda"@ =~= "Ctrl+Izquierda"@);
    }
}

/// The other special keys bind by their own names too, whatever the
/// modifiers: space "Espacio", Home "Inicio", End "Fin", Page Up "RePág",
/// Page Down "AvPág", and the function keys U+F704 to U+F726 "F1" to
/// "F35"; with Ctrl held, a control byte 1 to 26 binds as its letter
/// (the letter `a` to `z` it stands for, upper-cased); without Ctrl a
/// control character binds nothing.
pub proof fn special_keys_bind_by_name(c: char, ctrl: bool)
    ensures
        c == ' ' ==> key_name(c, ctrl) == Some("Espacio"@),
        c as u32 == 0xf729 ==> key_name(c, ctrl) == Some("Inicio"@),
        c as u32 == 0xf72b ==> key_name(c, ctrl) == Some("Fin"@),
        c as u32 == 0xf72c ==> key_name(c, ctrl) == Some("RePág"@),
        c as u32 == 0xf72d ==> key_name(c, ctrl) == Some("AvPág"@),
        0xf704 <= c as u32 <= 0xf726 ==> key_name(c, ctrl) == Some(seq!['F'] + decimal((c as u32 - 0xf703) as nat)),
        1 <= c as u32 <= 26 && ctrl ==> key_name(c, ctrl) == Some(uppercase_of(((c as u32 + 0x60) as u8) as char)),
        c as u32 <= 0x1f && !ctrl ==> key_name(c, ctrl) is None,
{
}

/// The stored code a language resolves to (see `resolved_language`).
pub open spec fn resolved_spec(code: Seq<char>, env_lang: Seq<char>) -> Seq<char> {
    if code.len() == 0 { env_lang } else { code }
}

/// The bundled catalogue for a resolved language (see
/// `bundled_language`).
pub open spec fn bundled_spec(lang: Seq<char>) -> Seq<char> {
    if lang.len() == 0 || lang == "es"@ { Seq::empty() } else { lang }
}

/// `es`, and "follow the system" on a Spanish or neutral system, all select
/// the bundled Spanish source; any other choice selects itself.
pub proof fn spanish_is_the_source(code: Seq<char>, env_lang: Seq<char>)
    ensures
        code == "es"@ ==> bundled_spec(resolved_spec(code, env_lang)).len() == 0,
        code.len() == 0 && (env_lang.len() == 0 || env_lang == "es"@) ==> bundled_spec(resolved_spec(code, env_lang)).len() == 0,
        code.len() > 0 && code != "es"@ ==> bundled_spec(resolved_spec(code, env_lang)) == code,
{
    reveal_strlit("es");
}

} // verus!
