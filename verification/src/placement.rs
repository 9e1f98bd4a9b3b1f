//! Keeping the window where it was across a hide and a show on KDE Wayland,
//! by a KWin script: when to load it, its name, its text, and the object
//! KWin hands back for it.

use vstd::prelude::*;
use crate::text::{chars_of, contains_sub, decimal, decimal_u64, extend_chars, extend_str, has_sub, string_of};

verus! {

/// What `str::to_uppercase` makes of a string.
pub uninterp spec fn uppercase_str(s: Seq<char>) -> Seq<char>;

/// `str::to_uppercase`. The contract only names the result: it is a
/// function of the text alone.
#[verifier::external_body]
fn to_uppercase(s: &str) -> (r: String)
    ensures
        r@ == uppercase_str(s@),
{
    s.to_uppercase()
}

/// Whether the script is loaded at all: only in a Wayland session on KDE
/// (`XDG_CURRENT_DESKTOP`, uppercased, mentions `KDE`).
pub fn spawn(wayland: bool, desktop: Option<&str>) -> (r: bool)
    ensures
        r == (wayland && match desktop {
            Some(d) => has_sub(uppercase_str(d@), "KDE"@),
            None => false,
        }),
{
    if !wayland {
        return false;
    }
    match desktop {
        Some(d) => {
            let u = to_uppercase(d);
            let c = chars_of(u.as_str());
            let k = chars_of("KDE");
            contains_sub(c.as_slice(), k.as_slice())
        },
        None => false,
    }
}

/// The script's name in KWin, one per process.
pub fn script_name(pid: u32) -> (r: String)
    ensures
        r@ == "tunante-placement-"@ + decimal(pid as nat),
{
    let mut v = chars_of("tunante-placement-");
    let d = decimal_u64(pid as u64);
    extend_chars(&mut v, d.as_slice());
    string_of(v.as_slice())
}

/// The file the script is written to, in the runtime directory.
pub fn script_file_name(name: &str) -> (r: String)
    ensures
        r@ == name@ + ".js"@,
{
    let mut v = chars_of(name);
    extend_str(&mut v, ".js");
    string_of(v.as_slice())
}

/// The script's body: it remembers the frame of this process's main window
/// and puts every new one back in it (`skipTaskbar` leaves out the volume
/// panel's surface).
pub const SCRIPT_BODY: &'static str = "
var saved = null;
function remember(w) {
    var g = w.frameGeometry;
    saved = {x: g.x, y: g.y, width: g.width, height: g.height};
}
function track(w) {
    if (w.pid != PID || !w.normalWindow || w.skipTaskbar) return;
    if (saved) w.frameGeometry = saved;
    remember(w);
    w.frameGeometryChanged.connect(function() { remember(w); });
}
workspace.windowList().forEach(track);
workspace.windowAdded.connect(track);
";

/// The script as written: `var PID = <pid>;`, a newline, then the body.
pub fn script(pid: u32) -> (r: String)
    ensures
        r@ == "var PID = "@ + decimal(pid as nat) + ";\n"@ + SCRIPT_BODY@,
{
    let mut v = chars_of("var PID = ");
    let d = decimal_u64(pid as u64);
    extend_chars(&mut v, d.as_slice());
    extend_str(&mut v, ";\n");
    extend_str(&mut v, SCRIPT_BODY);
    string_of(v.as_slice())
}

/// The object KWin made for a loaded script, or `None` when it refused it
/// (a negative id).
pub fn script_object(id: i32) -> (r: Option<String>)
    ensures
        id < 0 ==> r is None,
        id >= 0 ==> (r matches Some(p) && p@ == "/Scripting/Script"@ + decimal(id as nat)),
{
    if id < 0 {
        return None;
    }
    let mut v = chars_of("/Scripting/Script");
    let d = decimal_u64(id as u64);
    extend_chars(&mut v, d.as_slice());
    Some(string_of(v.as_slice()))
}

} // verus!
