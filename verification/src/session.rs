//! The table's scope as the session stores it (`kind:payload`), and back.

use vstd::prelude::*;
use crate::table::Scope;
use crate::text::{chars_of, extend_str, has_prefix, slice_chars, starts_with, string_of};

verus! {

/// A stored scope, before the caller checks that its folder still exists
/// and reloads its playlist.
pub enum SessionScope {
    Faved,
    Queue,
    Folder(String),
    Console(String),
    Game(String),
    Playlist(String),
}

/// A stored scope as a mathematical value.
pub enum SessionView {
    Faved,
    Queue,
    Folder(Seq<char>),
    Console(Seq<char>),
    Game(Seq<char>),
    Playlist(Seq<char>),
}

pub open spec fn session_view(s: SessionScope) -> SessionView {
    match s {
        SessionScope::Faved => SessionView::Faved,
        SessionScope::Queue => SessionView::Queue,
        SessionScope::Folder(p) => SessionView::Folder(p@),
        SessionScope::Console(p) => SessionView::Console(p@),
        SessionScope::Game(p) => SessionView::Game(p@),
        SessionScope::Playlist(p) => SessionView::Playlist(p@),
    }
}

/// The session string for a scope; none for the whole library.
pub open spec fn session_text(scope: Scope) -> Option<Seq<char>> {
    match scope {
        Scope::Library => None,
        Scope::Faved => Some("faved"@),
        Scope::Folder(p) => Some("folder:"@ + p@),
        Scope::Console(id) => Some("console:"@ + id@),
        Scope::Playlist { ids, id } => Some("playlist:"@ + id@),
        Scope::Queue { paths } => Some("queue"@),
        Scope::Game(name) => Some("game:"@ + name@),
    }
}

/// What a scope is remembered as: its kind and the name that identifies it.
pub open spec fn session_kind(scope: Scope) -> Option<SessionView> {
    match scope {
        Scope::Library => None,
        Scope::Faved => Some(SessionView::Faved),
        Scope::Folder(p) => Some(SessionView::Folder(p@)),
        Scope::Console(id) => Some(SessionView::Console(id@)),
        Scope::Playlist { ids, id } => Some(SessionView::Playlist(id@)),
        Scope::Queue { paths } => Some(SessionView::Queue),
        Scope::Game(name) => Some(SessionView::Game(name@)),
    }
}

/// What a session string says: the two bare kinds first, then the first
/// prefix that matches, in the order `folder:`, `console:`, `game:`,
/// `playlist:`.
pub open spec fn parse_spec(s: Seq<char>) -> Option<SessionView> {
    if s == "faved"@ {
        Some(SessionView::Faved)
    } else if s == "queue"@ {
        Some(SessionView::Queue)
    } else if has_prefix(s, "folder:"@) {
        Some(SessionView::Folder(s.skip(7)))
    } else if has_prefix(s, "console:"@) {
        Some(SessionView::Console(s.skip(8)))
    } else if has_prefix(s, "game:"@) {
        Some(SessionView::Game(s.skip(5)))
    } else if has_prefix(s, "playlist:"@) {
        Some(SessionView::Playlist(s.skip(9)))
    } else {
        None
    }
}

fn prefixed(lit: &str, tail: &String) -> (s: String)
    ensures
        s@ == lit@ + tail@,
{
    let mut v: Vec<char> = Vec::new();
    extend_str(&mut v, lit);
    extend_str(&mut v, tail.as_str());
    string_of(v.as_slice())
}

fn literal(lit: &str) -> (s: String)
    ensures
        s@ == lit@,
{
    let v = chars_of(lit);
    string_of(v.as_slice())
}

/// The played scope as the session stores it: `kind:payload`, or `None` for
/// the whole library (nothing to reopen).
pub fn scope_to_session(scope: &Scope) -> (r: Option<String>)
    ensures
        r matches Some(s) ==> session_text(*scope) == Some(s@),
        r is None ==> session_text(*scope) is None,
{
    match scope {
        Scope::Library => None,
        Scope::Faved => Some(literal("faved")),
        Scope::Folder(p) => Some(prefixed("folder:", p)),
        Scope::Console(id) => Some(prefixed("console:", id)),
        Scope::Playlist { id, .. } => Some(prefixed("playlist:", id)),
        Scope::Queue { .. } => Some(literal("queue")),
        Scope::Game(name) => Some(prefixed("game:", name)),
    }
}

fn rest_after(s: &[char], n: usize) -> (r: String)
    requires
        n <= s.len(),
    ensures
        r@ == s@.skip(n as int),
{
    let v = slice_chars(s, n, s.len());
    assert(s@.subrange(n as int, s@.len() as int) == s@.skip(n as int));
    string_of(v.as_slice())
}

fn same(a: &[char], lit: &str) -> (r: bool)
    ensures
        r == (a@ == lit@),
{
    let l = chars_of(lit);
    if a.len() != l.len() {
        return false;
    }
    let r = starts_with(a, l.as_slice());
    assert(a@.take(l@.len() as int) =~= a@);
    r
}

fn begins(a: &[char], lit: &str) -> (r: bool)
    ensures
        r == has_prefix(a@, lit@),
{
    let l = chars_of(lit);
    starts_with(a, l.as_slice())
}

/// Read a session string back. The caller still checks that a folder exists
/// and reloads a playlist's tracks; a string that names no kind gives `None`.
pub fn parse_session_scope(s: &str) -> (r: Option<SessionScope>)
    ensures
        r matches Some(k) ==> parse_spec(s@) == Some(session_view(k)),
        r is None ==> parse_spec(s@) is None,
{
    let c = chars_of(s);
    let c = c.as_slice();
    proof {
        reveal_strlit("folder:");
        reveal_strlit("console:");
        reveal_strlit("game:");
        reveal_strlit("playlist:");
    }
    if same(c, "faved") {
        Some(SessionScope::Faved)
    } else if same(c, "queue") {
        Some(SessionScope::Queue)
    } else if begins(c, "folder:") {
        Some(SessionScope::Folder(rest_after(c, 7)))
    } else if begins(c, "console:") {
        Some(SessionScope::Console(rest_after(c, 8)))
    } else if begins(c, "game:") {
        Some(SessionScope::Game(rest_after(c, 5)))
    } else if begins(c, "playlist:") {
        Some(SessionScope::Playlist(rest_after(c, 9)))
    } else {
        None
    }
}

/// Reopening a stored scope. A folder is reopened only if it still exists
/// (`folder_exists`); a playlist comes back with its tracks' ids, in order,
/// if they could be read (`playlist_ids`), and not at all otherwise; the
/// queue comes back empty; the others come back as stored. Nothing comes
/// back means the table stays on the whole library.
pub fn restore_scope(parsed: SessionScope, folder_exists: bool, playlist_ids: Option<Vec<String>>) -> (r: Option<Scope>)
    ensures
        match parsed {
            SessionScope::Faved => r matches Some(Scope::Faved),
            SessionScope::Queue => r matches Some(Scope::Queue { paths }) && paths@.len() == 0,
            SessionScope::Folder(p) => if folder_exists {
                r matches Some(Scope::Folder(q)) && q@ == p@
            } else {
                r is None
            },
            SessionScope::Console(id) => r matches Some(Scope::Console(q)) && q@ == id@,
            SessionScope::Game(name) => r matches Some(Scope::Game(q)) && q@ == name@,
            SessionScope::Playlist(id) => match playlist_ids {
                Some(v) => r matches Some(Scope::Playlist { ids, id: q }) && ids@ == v@ && q@ == id@,
                None => r is None,
            },
        },
{
    match parsed {
        SessionScope::Faved => Some(Scope::Faved),
        SessionScope::Queue => Some(Scope::Queue { paths: Vec::new() }),
        SessionScope::Folder(p) => if folder_exists { Some(Scope::Folder(p)) } else { None },
        SessionScope::Console(id) => Some(Scope::Console(id)),
        SessionScope::Game(name) => Some(Scope::Game(name)),
        SessionScope::Playlist(id) => match playlist_ids {
            Some(ids) => Some(Scope::Playlist { ids, id }),
            None => None,
        },
    }
}

/// Storing a scope and reading it back gives the same kind of scope with the
/// same folder, console, game or playlist — for every scope but the whole
/// library, which is not stored at all.
pub proof fn session_round_trip(scope: Scope)
    ensures
        match session_text(scope) {
            Some(s) => parse_spec(s) == session_kind(scope),
            None => scope is Library,
        },
{
    reveal_strlit("faved");
    reveal_strlit("queue");
    reveal_strlit("folder:");
    reveal_strlit("console:");
    reveal_strlit("game:");
    reveal_strlit("playlist:");
    match scope {
        Scope::Folder(p) => {
            let s = "folder:"@ + p@;
            assert(s.take(7) =~= "folder:"@);
            assert(s.skip(7) =~= p@);
            assert(s.len() >= 7);
            assert(s != "faved"@ && s != "queue"@);
            assert(has_prefix(s, "folder:"@));
            assert(parse_spec(s) == Some(SessionView::Folder(p@)));
            assert(session_text(scope) == Some(s));
            assert(session_kind(scope) == Some(SessionView::Folder(p@)));
        },
        Scope::Console(id) => {
            let s = "console:"@ + id@;
            assert(s.take(8) =~= "console:"@);
            assert(s.skip(8) =~= id@);
            assert(s != "faved"@ && s != "queue"@) by {
                assert(s[0] == 'c');
            }
            assert(!has_prefix(s, "folder:"@)) by {
                assert(s[0] == 'c');
            }
        },
        Scope::Game(name) => {
            let s = "game:"@ + name@;
            assert(s.take(5) =~= "game:"@);
            assert(s.skip(5) =~= name@);
            assert(s != "faved"@ && s != "queue"@) by {
                assert(s[0] == 'g');
            }
            assert(!has_prefix(s, "folder:"@) && !has_prefix(s, "console:"@)) by {
                assert(s[0] == 'g');
            }
        },
        Scope::Playlist { ids, id } => {
            let s = "playlist:"@ + id@;
            assert(s.take(9) =~= "playlist:"@);
            assert(s.skip(9) =~= id@);
            assert(s != "faved"@ && s != "queue"@) by {
                assert(s[0] == 'p');
            }
            assert(!has_prefix(s, "folder:"@) && !has_prefix(s, "console:"@) && !has_prefix(s, "game:"@)) by {
                assert(s[0] == 'p');
            }
        },
        _ => {
            assert("queue"@ != "faved"@) by {
                assert("queue"@[0] != "faved"@[0]);
            }
        },
    }
}

} // verus!
