//! What the desktop portals hand back, read: `file://` URIs into path bytes,
//! the object path a portal answers on, and the music folder that
//! `user-dirs.dirs` declares.

use vstd::prelude::*;
use crate::text::{chars_of, string_of, extend_str, first_index_of, lemma_first_index_of, find_char, slice_chars, has_prefix, starts_with, trim_ws, replace_spec, replace_all, trim};

verus! {

/// The value of an ASCII hex digit.
pub open spec fn hex_value(c: u8) -> Option<u8> {
    if 48 <= c <= 57 {
        Some((c - 48) as u8)
    } else if 97 <= c <= 102 {
        Some((c - 87) as u8)
    } else if 65 <= c <= 70 {
        Some((c - 55) as u8)
    } else {
        None
    }
}

/// `u8::from_str_radix(.., 16)` on a two-byte string: two hex digits, or a
/// `+` sign and one.
pub open spec fn pair_value(c1: u8, c2: u8) -> Option<u8> {
    if c1 == 43 {
        hex_value(c2)
    } else {
        match (hex_value(c1), hex_value(c2)) {
            (Some(h), Some(l)) => Some((h * 16 + l) as u8),
            _ => None,
        }
    }
}

/// Whether a string's byte offset `k` starts a character (or is its end).
pub open spec fn char_boundary(b: Seq<u8>, k: int) -> bool {
    k == b.len() || (0 <= k < b.len() && (b[k] < 0x80 || b[k] >= 0xC0))
}

/// Whether an escape at `i` is read: a `%` with two more bytes after it.
pub open spec fn escape_at(b: Seq<u8>, i: int) -> bool {
    b[i] == 37 && i + 2 < b.len()
}

/// Percent-decoding from offset `i` on: an escape whose two bytes are a
/// number becomes that byte, and every other byte is kept as it is.
pub open spec fn decode_from(b: Seq<u8>, i: int) -> Seq<u8>
    decreases b.len() - i,
{
    if i < 0 || i >= b.len() {
        Seq::empty()
    } else if escape_at(b, i) && pair_value(b[i + 1], b[i + 2]) is Some {
        seq![pair_value(b[i + 1], b[i + 2])->0] + decode_from(b, i + 3)
    } else {
        seq![b[i]] + decode_from(b, i + 1)
    }
}

/// Whether decoding from `i` on would cut a character: the two bytes after a
/// `%` are taken as a string, which must start and end on characters.
pub open spec fn decode_splits(b: Seq<u8>, i: int) -> bool
    decreases b.len() - i,
{
    if i < 0 || i >= b.len() {
        false
    } else if escape_at(b, i) && !(char_boundary(b, i + 1) && char_boundary(b, i + 3)) {
        true
    } else if escape_at(b, i) && pair_value(b[i + 1], b[i + 2]) is Some {
        decode_splits(b, i + 3)
    } else {
        decode_splits(b, i + 1)
    }
}

/// The `file://` prefix, as bytes.
pub open spec fn file_scheme() -> Seq<u8> {
    seq![102u8, 105, 108, 101, 58, 47, 47]
}

/// The offset of the first `/` in `s`, if any.
pub open spec fn first_slash(s: Seq<u8>) -> Option<int> {
    if exists|k: int| 0 <= k < s.len() && s[k] == 47 {
        Some(choose|k: int| 0 <= k < s.len() && s[k] == 47 && forall|j: int| 0 <= j < k ==> s[j] != 47)
    } else {
        None
    }
}

/// The still-escaped path of a `file://` URI: what follows the scheme when
/// it starts with `/`, else what follows the host and its `/`.
pub open spec fn uri_path(uri: Seq<u8>) -> Option<Seq<u8>> {
    if uri.len() < 7 || uri.subrange(0, 7) != file_scheme() {
        None
    } else {
        let rest = uri.subrange(7, uri.len() as int);
        if rest.len() > 0 && rest[0] == 47 {
            Some(rest)
        } else {
            match first_slash(rest) {
                Some(k) => Some(rest.subrange(k + 1, rest.len() as int)),
                None => None,
            }
        }
    }
}

/// The path a `file://` URI names, decoded, and always absolute.
pub open spec fn path_from_uri(uri: Seq<u8>) -> Option<Seq<u8>> {
    match uri_path(uri) {
        None => None,
        Some(p) => {
            let d = decode_from(p, 0);
            Some(if p.len() > 0 && p[0] == 47 { d } else { seq![47u8] + d })
        },
    }
}

/// Whether decoding the URI's path would cut a character.
pub open spec fn uri_splits(uri: Seq<u8>) -> bool {
    match uri_path(uri) {
        None => false,
        Some(p) => decode_splits(p, 0),
    }
}

fn hex_digit(c: u8) -> (r: Option<u8>)
    ensures
        r == hex_value(c),
{
    if 48 <= c && c <= 57 {
        Some(c - 48)
    } else if 97 <= c && c <= 102 {
        Some(c - 87)
    } else if 65 <= c && c <= 70 {
        Some(c - 55)
    } else {
        None
    }
}

fn pair(c1: u8, c2: u8) -> (r: Option<u8>)
    ensures
        r == pair_value(c1, c2),
{
    if c1 == 43 {
        hex_digit(c2)
    } else {
        match (hex_digit(c1), hex_digit(c2)) {
            (Some(h), Some(l)) => Some(h * 16 + l),
            _ => None,
        }
    }
}

fn boundary(b: &[u8], k: usize) -> (r: bool)
    requires
        k <= b.len(),
    ensures
        r == char_boundary(b@, k as int),
{
    k == b.len() || b[k] < 0x80 || b[k] >= 0xC0
}

/// Percent-decodes `b` (the bytes of a path, not text).
pub fn percent_decode(b: &[u8]) -> (r: Vec<u8>)
    requires
        !decode_splits(b@, 0),
    ensures
        r@ == decode_from(b@, 0),
{
    let mut out: Vec<u8> = Vec::new();
    let mut i: usize = 0;
    while i < b.len()
        invariant
            i <= b.len(),
            out@ + decode_from(b@, i as int) == decode_from(b@, 0),
            !decode_splits(b@, i as int),
        decreases b.len() - i,
    {
        if b[i] == 37 && b.len() - i > 2 {
            if let Some(v) = pair(b[i + 1], b[i + 2]) {
                proof {
                    assert(out@.push(v) + decode_from(b@, i + 3) =~= out@ + decode_from(b@, i as int));
                }
                out.push(v);
                i += 3;
                continue;
            }
        }
        proof {
            assert(out@.push(b@[i as int]) + decode_from(b@, i + 1) =~= out@ + decode_from(b@, i as int));
        }
        out.push(b[i]);
        i += 1;
    }
    proof {
        assert(out@ + decode_from(b@, i as int) =~= out@);
    }
    out
}

/// Whether percent-decoding `b` would cut a character.
pub fn decode_would_split(b: &[u8]) -> (r: bool)
    ensures
        r == decode_splits(b@, 0),
{
    let mut i: usize = 0;
    while i < b.len()
        invariant
            i <= b.len(),
            decode_splits(b@, 0) == decode_splits(b@, i as int),
        decreases b.len() - i,
    {
        if b[i] == 37 && b.len() - i > 2 {
            if !(boundary(b, i + 1) && boundary(b, i + 3)) {
                return true;
            }
            if pair(b[i + 1], b[i + 2]).is_some() {
                i += 3;
                continue;
            }
        }
        i += 1;
    }
    false
}

fn find_slash(s: &[u8]) -> (r: Option<usize>)
    ensures
        r matches Some(k) ==> first_slash(s@) == Some(k as int) && k < s.len(),
        r is None ==> first_slash(s@) is None,
{
    let mut k: usize = 0;
    while k < s.len()
        invariant
            k <= s.len(),
            forall|j: int| 0 <= j < k ==> s@[j] != 47,
        decreases s.len() - k,
    {
        if s[k] == 47 {
            proof {
                let w = choose|m: int| 0 <= m < s@.len() && s@[m] == 47 && forall|j: int| 0 <= j < m ==> s@[j] != 47;
                assert(0 <= k < s@.len() && s@[k as int] == 47 && forall|j: int| 0 <= j < k ==> s@[j] != 47);
                if w < k {
                } else if w > k {
                    assert(s@[k as int] != 47);
                }
            }
            return Some(k);
        }
        k += 1;
    }
    None
}

fn uri_path_bytes(uri: &[u8]) -> (r: Option<Vec<u8>>)
    ensures
        r matches Some(p) ==> uri_path(uri@) == Some(p@),
        r is None ==> uri_path(uri@) is None,
{
    let scheme: [u8; 7] = [102, 105, 108, 101, 58, 47, 47];
    if uri.len() < 7 {
        return None;
    }
    let mut k: usize = 0;
    while k < 7
        invariant
            k <= 7,
            uri.len() >= 7,
            scheme@ == file_scheme(),
            forall|j: int| 0 <= j < k ==> uri@[j] == file_scheme()[j],
        decreases 7 - k,
    {
        if uri[k] != scheme[k] {
            proof {
                assert(uri@.subrange(0, 7)[k as int] != file_scheme()[k as int]);
            }
            return None;
        }
        k += 1;
    }
    assert(uri@.subrange(0, 7) =~= file_scheme());
    let rest = crate::text::slice_bytes(uri, 7, uri.len());
    if rest.len() > 0 && rest[0] == 47 {
        return Some(rest);
    }
    match find_slash(rest.as_slice()) {
        Some(k) => Some(crate::text::slice_bytes(rest.as_slice(), k + 1, rest.len())),
        None => None,
    }
}

/// `file:///home/x/M%C3%BAsica` → `/home/x/Música`, as path bytes. `None`
/// for another scheme, or a host with no path after it.
pub fn path_from_file_uri(uri: &[u8]) -> (r: Option<Vec<u8>>)
    requires
        !uri_splits(uri@),
    ensures
        r matches Some(p) ==> path_from_uri(uri@) == Some(p@),
        r is None ==> path_from_uri(uri@) is None,
{
    match uri_path_bytes(uri) {
        None => None,
        Some(p) => {
            let d = percent_decode(p.as_slice());
            if p.len() > 0 && p[0] == 47 {
                Some(d)
            } else {
                let mut out: Vec<u8> = Vec::new();
                out.push(47);
                let mut d = d;
                out.append(&mut d);
                Some(out)
            }
        },
    }
}

/// Whether reading a URI would cut a character (check it before
/// `path_from_file_uri`).
pub fn uri_would_split(uri: &[u8]) -> (r: bool)
    ensures
        r == uri_splits(uri@),
{
    match uri_path_bytes(uri) {
        None => false,
        Some(p) => decode_would_split(p.as_slice()),
    }
}

/// The folders a FileChooser answer names: none unless the dialog was
/// accepted (`code` 0), and only the URIs that are local paths, in order.
pub open spec fn folders_spec(code: u32, uris: Seq<Seq<u8>>) -> Seq<Seq<u8>>
    decreases uris.len(),
{
    if code != 0 || uris.len() == 0 {
        Seq::empty()
    } else {
        let head = folders_spec(code, uris.drop_last());
        match path_from_uri(uris.last()) {
            Some(p) => head.push(p),
            None => head,
        }
    }
}

/// The chosen folders from the portal's answer.
pub fn folders_from_response(code: u32, uris: &Vec<Vec<u8>>) -> (r: Vec<Vec<u8>>)
    requires
        forall|i: int| 0 <= i < uris@.len() ==> !uri_splits(#[trigger] uris@[i]@),
    ensures
        r@.map_values(|v: Vec<u8>| v@) == folders_spec(code, uris@.map_values(|v: Vec<u8>| v@)),
{
    let ghost us = uris@.map_values(|v: Vec<u8>| v@);
    let mut out: Vec<Vec<u8>> = Vec::new();
    if code != 0 {
        proof {
            assert(out@.map_values(|v: Vec<u8>| v@) =~= folders_spec(code, us));
        }
        return out;
    }
    let mut i: usize = 0;
    while i < uris.len()
        invariant
            code == 0,
            i <= uris.len(),
            us == uris@.map_values(|v: Vec<u8>| v@),
            forall|j: int| 0 <= j < uris@.len() ==> !uri_splits(#[trigger] uris@[j]@),
            out@.map_values(|v: Vec<u8>| v@) == folders_spec(code, us.take(i as int)),
        decreases uris.len() - i,
    {
        assert(us.take(i + 1).drop_last() =~= us.take(i as int));
        assert(us.take(i + 1).last() == uris@[i as int]@);
        match path_from_file_uri(uris[i].as_slice()) {
            Some(p) => {
                out.push(p);
                assert(out@.map_values(|v: Vec<u8>| v@) =~= folders_spec(code, us.take(i as int)).push(
                    out@[out@.len() - 1]@,
                ));
            },
            None => {},
        }
        i += 1;
    }
    assert(us.take(uris.len() as int) =~= us);
    out
}

/// `str::trim_start_matches(':')` then `replace('.', "_")`: a bus's unique
/// name as it appears in a portal request path.
pub open spec fn sender_segment_spec(name: Seq<char>) -> Seq<char>
    decreases name.len(),
{
    if name.len() == 0 {
        Seq::empty()
    } else {
        let head = sender_segment_spec(name.drop_last());
        let c = name.last();
        if c == ':' && forall|j: int| 0 <= j < name.len() ==> name[j] == ':' {
            Seq::empty()
        } else {
            head.push(if c == '.' { '_' } else { c })
        }
    }
}

/// A connection's unique name (`:1.42`) as a request path segment (`1_42`).
pub fn sender_segment(name: &str) -> (r: String)
    ensures
        r@ == sender_segment_spec(name@),
{
    let cs = chars_of(name);
    let mut out: Vec<char> = Vec::new();
    let mut i: usize = 0;
    let mut lead: bool = true;
    while i < cs.len()
        invariant
            i <= cs.len(),
            cs@ == name@,
            lead == (forall|j: int| 0 <= j < i ==> cs@[j] == ':'),
            out@ == sender_segment_spec(cs@.take(i as int)),
        decreases cs.len() - i,
    {
        let c = cs[i];
        let ghost t = cs@.take(i + 1);
        assert(t.drop_last() =~= cs@.take(i as int));
        assert(t.last() == c);
        if lead && c == ':' {
            assert forall|j: int| 0 <= j < t.len() implies t[j] == ':' by {
                if j < i {
                    assert(t[j] == cs@[j]);
                }
            }
            proof {
                let e = Seq::<char>::empty();
                assert(sender_segment_spec(t) =~= e);
            }
            out = Vec::new();
        } else {
            lead = false;
            assert(!(forall|j: int| 0 <= j < t.len() ==> t[j] == ':')) by {
                if c != ':' {
                    assert(t[i as int] != ':');
                } else {
                    let j0 = choose|j: int| 0 <= j < i && cs@[j] != ':';
                    assert(t[j0] != ':');
                }
            }
            out.push(if c == '.' { '_' } else { c });
        }
        i += 1;
    }
    assert(cs@.take(cs.len() as int) =~= cs@);
    string_of(out.as_slice())
}

/// The object path a portal answers a request on:
/// `/org/freedesktop/portal/desktop/request/{sender}/{token}`.
pub fn request_path(sender: &str, token: &str) -> (r: String)
    ensures
        r@ == "/org/freedesktop/portal/desktop/request/"@ + sender@ + "/"@ + token@,
{
    let mut v: Vec<char> = chars_of("/org/freedesktop/portal/desktop/request/");
    extend_str(&mut v, sender);
    extend_str(&mut v, "/");
    extend_str(&mut v, token);
    string_of(v.as_slice())
}

/// A line without the `\r` of a `\r\n` ending.
pub open spec fn strip_cr(l: Seq<char>) -> Seq<char> {
    if l.len() > 0 && l.last() == '\r' { l.drop_last() } else { l }
}

/// `str::lines`: split at `\n`, a `\r` before it dropped; a final line
/// ending adds no empty line.
pub open spec fn lines_of(s: Seq<char>) -> Seq<Seq<char>>
    decreases s.len(),
{
    if s.len() == 0 {
        Seq::empty()
    } else {
        match first_index_of(s, '\n') {
            Some(k) => {
                if 0 <= k < s.len() {
                    seq![strip_cr(s.take(k))] + lines_of(s.skip(k + 1))
                } else {
                    seq![s]
                }
            },
            None => seq![s],
        }
    }
}

/// The lines of a text.
pub fn lines(text: &[char]) -> (r: Vec<Vec<char>>)
    ensures
        r@.map_values(|l: Vec<char>| l@) == lines_of(text@),
    decreases text.len(),
{
    if text.len() == 0 {
        let r: Vec<Vec<char>> = Vec::new();
        assert(r@.map_values(|l: Vec<char>| l@) =~= lines_of(text@));
        return r;
    }
    proof {
        lemma_first_index_of(text@, '\n');
    }
    match find_char(text, '\n') {
        Some(k) => {
            let mut line = slice_chars(text, 0, k);
            if line.len() > 0 && line[line.len() - 1] == '\r' {
                line.pop();
            }
            assert(text@.subrange(0, k as int) == text@.take(k as int));
            let rest = slice_chars(text, k + 1, text.len());
            assert(text@.subrange(k + 1, text@.len() as int) == text@.skip(k + 1));
            let tail = lines(rest.as_slice());
            let mut r: Vec<Vec<char>> = Vec::new();
            r.push(line);
            let mut tail = tail;
            r.append(&mut tail);
            assert(r@.map_values(|l: Vec<char>| l@) =~= seq![strip_cr(text@.take(k as int))] + lines_of(text@.skip(k + 1)));
            r
        },
        None => {
            let mut r: Vec<Vec<char>> = Vec::new();
            r.push(slice_chars(text, 0, text.len()));
            assert(text@.subrange(0, text@.len() as int) =~= text@);
            assert(r@.map_values(|l: Vec<char>| l@) =~= seq![text@]);
            r
        },
    }
}

/// `s` without leading and trailing `"`s (`trim_matches('"')`).
pub open spec fn trim_quotes(s: Seq<char>) -> Seq<char>
    decreases s.len(),
{
    if s.len() > 0 && s[0] == '"' {
        trim_quotes(s.drop_first())
    } else if s.len() > 0 && s.last() == '"' {
        trim_quotes(s.drop_last())
    } else {
        s
    }
}

fn unquote(s: &[char]) -> (r: Vec<char>)
    ensures
        r@ == trim_quotes(s@),
    decreases s.len(),
{
    if s.len() > 0 && s[0] == '"' {
        let rest = slice_chars(s, 1, s.len());
        assert(s@.subrange(1, s@.len() as int) =~= s@.drop_first());
        unquote(rest.as_slice())
    } else if s.len() > 0 && s[s.len() - 1] == '"' {
        let rest = slice_chars(s, 0, s.len() - 1);
        assert(s@.subrange(0, s@.len() - 1) =~= s@.drop_last());
        unquote(rest.as_slice())
    } else {
        slice_chars(s, 0, s.len())
    }
}

/// The music folder a line of `user-dirs.dirs` declares, if it declares
/// one: `XDG_MUSIC_DIR=` after trimming, the value unquoted and `$HOME`
/// put in.
pub open spec fn music_line(line: Seq<char>, home: Seq<char>) -> Option<Seq<char>> {
    let t = trim_ws(line);
    if has_prefix(t, "XDG_MUSIC_DIR="@) {
        Some(replace_spec(trim_quotes(t.skip(14)), "$HOME"@, home))
    } else {
        None
    }
}

/// Every music folder a `user-dirs.dirs` text declares, in order.
pub open spec fn music_dirs_spec(lines: Seq<Seq<char>>, home: Seq<char>) -> Seq<Seq<char>>
    decreases lines.len(),
{
    if lines.len() == 0 {
        Seq::empty()
    } else {
        let head = music_dirs_spec(lines.drop_last(), home);
        match music_line(lines.last(), home) {
            Some(d) => head.push(d),
            None => head,
        }
    }
}

/// The music folders `user-dirs.dirs` declares, in order (the caller takes
/// the first that is a directory other than home itself).
pub fn music_dirs_declared(text: &str, home: &str) -> (r: Vec<String>)
    ensures
        r@.map_values(|s: String| s@) == music_dirs_spec(lines_of(text@), home@),
{
    proof {
        reveal_strlit("XDG_MUSIC_DIR=");
        reveal_strlit("$HOME");
    }
    let c = chars_of(text);
    let ls = lines(c.as_slice());
    let ghost lv = ls@.map_values(|l: Vec<char>| l@);
    let key = chars_of("XDG_MUSIC_DIR=");
    let mut out: Vec<String> = Vec::new();
    let mut i: usize = 0;
    while i < ls.len()
        invariant
            i <= ls@.len(),
            lv == ls@.map_values(|l: Vec<char>| l@),
            lv == lines_of(text@),
            key@ == "XDG_MUSIC_DIR="@,
            key@.len() == 14,
            "$HOME"@.len() == 5,
            out@.map_values(|s: String| s@) == music_dirs_spec(lv.take(i as int), home@),
        decreases ls.len() - i,
    {
        assert(lv.take(i + 1).drop_last() =~= lv.take(i as int));
        assert(lv.take(i + 1).last() == ls@[i as int]@);
        let ls_i = string_of(ls[i].as_slice());
        let t = trim(ls_i.as_str());
        if starts_with(t.as_slice(), key.as_slice()) {
            let v = slice_chars(t.as_slice(), 14, t.len());
            assert(t@.subrange(14, t@.len() as int) == t@.skip(14));
            let u = unquote(v.as_slice());
            let us = string_of(u.as_slice());
            let d = replace_all(us.as_str(), "$HOME", home);
            out.push(d);
            assert(out@.map_values(|s: String| s@) =~= music_dirs_spec(lv.take(i as int), home@).push(
                out@[out@.len() - 1]@,
            ));
        }
        i += 1;
    }
    assert(lv.take(ls@.len() as int) =~= lv);
    out
}

proof fn lemma_plain_decodes_to_itself(b: Seq<u8>, i: int)
    requires
        0 <= i <= b.len(),
        forall|j: int| 0 <= j < b.len() ==> b[j] != 37,
    ensures
        decode_from(b, i) == b.skip(i),
        !decode_splits(b, i),
    decreases b.len() - i,
{
    if i < b.len() {
        lemma_plain_decodes_to_itself(b, i + 1);
        assert(b.skip(i) =~= seq![b[i]] + b.skip(i + 1));
    } else {
        assert(b.skip(i) =~= Seq::<u8>::empty());
    }
}

/// A `file://` URI made of an absolute path with no `%` in it names exactly
/// that path, and reading it never cuts a character.
pub proof fn plain_path_round_trip(p: Seq<u8>)
    requires
        p.len() > 0,
        p[0] == 47,
        forall|j: int| 0 <= j < p.len() ==> p[j] != 37,
    ensures
        path_from_uri(file_scheme() + p) == Some(p),
        !uri_splits(file_scheme() + p),
{
    let u = file_scheme() + p;
    assert(u.subrange(0, 7) =~= file_scheme());
    assert(u.subrange(7, u.len() as int) =~= p);
    lemma_plain_decodes_to_itself(p, 0);
    assert(p.skip(0) =~= p);
}

} // verus!
