//! What the now-playing parts of the window say about a track: its title
//! (the path when it has none), the window's title, the queue's rows, the
//! carousel's cards, and the order of the "Lista" view.

use vstd::prelude::*;
use crate::text::{chars_of, extend_str, string_of, slice_chars};

verus! {

/// What a track shows as its title: the title, or its path when it has none.
pub open spec fn shown_title(title: Seq<char>, path: Seq<char>) -> Seq<char> {
    if title.len() == 0 { path } else { title }
}

/// The title a track shows.
pub fn display_title(title: &str, path: &str) -> (r: String)
    ensures
        r@ == shown_title(title@, path@),
{
    if title.is_empty() {
        path.to_owned()
    } else {
        title.to_owned()
    }
}

/// The window's title while a track plays (and the title bar is asked to
/// show it): `title — Tunante`, or `title - artist — Tunante`.
pub open spec fn window_title_spec(title: Seq<char>, path: Seq<char>, artist: Seq<char>) -> Seq<char> {
    if artist.len() == 0 {
        shown_title(title, path) + " — Tunante"@
    } else {
        shown_title(title, path) + " - "@ + artist + " — Tunante"@
    }
}

/// The window's title for the playing track, if the title bar shows one.
pub fn window_title(track: Option<(&str, &str, &str)>, titlebar_track: bool) -> (r: String)
    ensures
        r@ == (match track {
            Some((title, path, artist)) => if titlebar_track {
                window_title_spec(title@, path@, artist@)
            } else {
                Seq::<char>::empty()
            },
            None => Seq::<char>::empty(),
        }),
{
    match track {
        Some((title, path, artist)) => {
            if !titlebar_track {
                return String::new();
            }
            let mut v: Vec<char> = Vec::new();
            let t = display_title(title, path);
            extend_str(&mut v, t.as_str());
            if artist.is_empty() {
                extend_str(&mut v, " — Tunante");
            } else {
                extend_str(&mut v, " - ");
                extend_str(&mut v, artist);
                extend_str(&mut v, " — Tunante");
            }
            string_of(v.as_slice())
        },
        None => String::new(),
    }
}

/// A hand-queued row's title in the queue pane: `» ` and the track's title.
pub fn queue_row_title(title: &str, path: &str) -> (r: String)
    ensures
        r@ == "» "@ + shown_title(title@, path@),
{
    let mut v: Vec<char> = chars_of("» ");
    let t = display_title(title, path);
    extend_str(&mut v, t.as_str());
    string_of(v.as_slice())
}

/// What follows the last `/` of a path (all of it when there is none).
pub open spec fn last_segment(p: Seq<char>) -> Seq<char> {
    if exists|k: int| 0 <= k < p.len() && p[k] == '/' {
        p.skip((choose|k: int| 0 <= k < p.len() && p[k] == '/' && forall|j: int| k < j < p.len() ==> p[j] != '/') + 1)
    } else {
        p
    }
}

/// The title on a carousel card: the title, or the file's name when there
/// is none.
pub fn card_title(title: &str, path: &str) -> (r: String)
    ensures
        r@ == (if title@.len() == 0 { last_segment(path@) } else { title@ }),
{
    if !title.is_empty() {
        return title.to_owned();
    }
    let c = chars_of(path);
    let mut k: usize = c.len();
    while k > 0 && c[k - 1] != '/'
        invariant
            k <= c.len(),
            c@ == path@,
            forall|j: int| k <= j < c.len() ==> c@[j] != '/',
        decreases k,
    {
        k -= 1;
    }
    if k == 0 {
        proof {
            if exists|m: int| 0 <= m < c@.len() && c@[m] == '/' {
                let m = choose|m: int| 0 <= m < c@.len() && c@[m] == '/';
                assert(c@[m] != '/');
            }
        }
        return path.to_owned();
    }
    proof {
        let w = choose|m: int| 0 <= m < c@.len() && c@[m] == '/' && forall|j: int| m < j < c@.len() ==> c@[j] != '/';
        assert(0 <= k - 1 < c@.len() && c@[k - 1] == '/');
        if w < k - 1 {
            assert(c@[k - 1] != '/');
        } else if w > k - 1 {
        }
    }
    let tail = slice_chars(c.as_slice(), k, c.len());
    assert(c@.subrange(k as int, c@.len() as int) == path@.skip(k as int));
    string_of(tail.as_slice())
}

/// The line under a row's title: the artist, or the album when there is no
/// artist.
pub fn row_subtitle(artist: &str, album: &str) -> (r: String)
    ensures
        r@ == (if artist@.len() > 0 { artist@ } else { album@ }),
{
    if !artist.is_empty() {
        artist.to_owned()
    } else {
        album.to_owned()
    }
}

/// One row of the "Lista" view.
#[derive(Clone, Copy, Debug, PartialEq, Eq, Structural)]
pub enum ListSlot {
    /// The context's track at this position.
    Context(usize),
    /// The hand-queued track at this position; `last` marks the one that
    /// carries the rule under the queued block.
    Queued { index: usize, last: bool },
}

/// Where the context is cut for the queued block: after the current track,
/// at the start when nothing is current, never past the end.
pub open spec fn split_at(len: nat, current: Option<usize>) -> int {
    let s = match current {
        Some(i) => i + 1,
        None => 0,
    };
    if s < len { s } else { len as int }
}

/// The playlist in real playback order: the context up to and including the
/// current track, then what was queued by hand (the last of it marked), then
/// the rest of the context.
pub open spec fn list_layout_spec(len: nat, queued: nat, current: Option<usize>) -> Seq<ListSlot> {
    let s = split_at(len, current);
    Seq::new(s as nat, |i: int| ListSlot::Context(i as usize))
        + Seq::new(queued, |k: int| ListSlot::Queued { index: k as usize, last: k + 1 == queued })
        + Seq::new((len - s) as nat, |i: int| ListSlot::Context((s + i) as usize))
}

/// The rows of the "Lista" view, for a context of `len` tracks, `queued`
/// hand-queued ones and the current position.
pub fn list_layout(len: usize, queued: usize, current: Option<usize>) -> (r: Vec<ListSlot>)
    requires
        len + queued <= usize::MAX,
    ensures
        r@ == list_layout_spec(len as nat, queued as nat, current),
{
    let s: usize = match current {
        Some(i) => if i < len { i + 1 } else { len },
        None => 0,
    };
    let ghost sp = split_at(len as nat, current);
    assert(s == sp);
    let mut r: Vec<ListSlot> = Vec::new();
    let mut i: usize = 0;
    while i < s
        invariant
            s <= len,
            i <= s,
            r@ == Seq::new(i as nat, |j: int| ListSlot::Context(j as usize)),
        decreases s - i,
    {
        r.push(ListSlot::Context(i));
        assert(r@ =~= Seq::new((i + 1) as nat, |j: int| ListSlot::Context(j as usize)));
        i += 1;
    }
    let ghost a = r@;
    let mut k: usize = 0;
    while k < queued
        invariant
            k <= queued,
            r@ == a + Seq::new(k as nat, |j: int| ListSlot::Queued { index: j as usize, last: j + 1 == queued }),
        decreases queued - k,
    {
        r.push(ListSlot::Queued { index: k, last: k + 1 == queued });
        assert(r@ =~= a + Seq::new((k + 1) as nat, |j: int| ListSlot::Queued { index: j as usize, last: j + 1 == queued }));
        k += 1;
    }
    let ghost b = r@;
    let mut i: usize = s;
    while i < len
        invariant
            s <= i <= len,
            r@ == b + Seq::new((i - s) as nat, |j: int| ListSlot::Context((s + j) as usize)),
        decreases len - i,
    {
        r.push(ListSlot::Context(i));
        assert(r@ =~= b + Seq::new((i + 1 - s) as nat, |j: int| ListSlot::Context((s + j) as usize)));
        i += 1;
    }
    r
}

/// The "Lista" view shows every context track once and every queued track
/// once, and the current track keeps its own position in it.
pub proof fn list_layout_complete(len: nat, queued: nat, current: Option<usize>)
    ensures
        list_layout_spec(len, queued, current).len() == len + queued,
        forall|i: int| 0 <= i < len ==> #[trigger] list_layout_spec(len, queued, current).contains(ListSlot::Context(i as usize)),
        current matches Some(c) ==> (c < len ==> list_layout_spec(len, queued, current)[c as int] == ListSlot::Context(c)),
{
    let l = list_layout_spec(len, queued, current);
    let s = split_at(len, current);
    assert forall|i: int| 0 <= i < len implies #[trigger] l.contains(ListSlot::Context(i as usize)) by {
        if i < s {
            assert(l[i] == ListSlot::Context(i as usize));
        } else {
            assert(l[s + queued + (i - s)] == ListSlot::Context(i as usize));
        }
    }
}

} // verus!
