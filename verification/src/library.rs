//! The library views' own encodings and choices: what a row's `path` stands
//! for, which tracks of a folder are its direct children, the order of a
//! file's subsongs, which file of a folder may carry a cover, and the ranked
//! console list of the console picker.

use vstd::prelude::*;
use crate::text::{chars_of, has_prefix, has_sub, contains_sub, first_index_of, lemma_first_index_of, find_char, slice_chars, starts_with, string_of, contains_char, has_char, trim, trim_ws, str_eq, first_occurrence, find_sub};
use crate::text::{decimal, decimal_padded, decimal_u64, decimal_padded_u64, extend_chars, extend_str};
use crate::sort::{KeyPart, SpecPart, keys_view, stable_sort, stable_order, before, key_order, has_pos};
use crate::picker::{lowercase_of, to_lowercase};
use vstd::arithmetic::div_mod::lemma_fundamental_div_mod_converse;

verus! {

/// What a row's `path` names.
pub enum RowTarget {
    /// `consola:<id>`: every track of one console.
    Console(String),
    /// `juego:<name>`: every track of one game, wherever it is on disk.
    Game(String),
    /// `<console>\u{1}<dir>`: one console's tracks in one directory.
    ConsoleDir { console: String, dir: String },
    /// A real path: a directory, or a file with or without subsongs.
    Path,
}

/// A row target as a mathematical value.
pub enum TargetView {
    Console(Seq<char>),
    Game(Seq<char>),
    ConsoleDir(Seq<char>, Seq<char>),
    Path,
}

pub open spec fn target_view(t: RowTarget) -> TargetView {
    match t {
        RowTarget::Console(c) => TargetView::Console(c@),
        RowTarget::Game(g) => TargetView::Game(g@),
        RowTarget::ConsoleDir { console, dir } => TargetView::ConsoleDir(console@, dir@),
        RowTarget::Path => TargetView::Path,
    }
}

/// The separator between a console and a directory in a row path.
pub open spec fn unit_sep() -> char {
    '\u{1}'
}

/// How a row path decodes: the `consola:` and `juego:` prefixes first, then
/// a console/directory pair split at the first separator, else a path.
pub open spec fn row_target_spec(p: Seq<char>) -> TargetView {
    if has_prefix(p, "consola:"@) {
        TargetView::Console(p.skip(8))
    } else if has_prefix(p, "juego:"@) {
        TargetView::Game(p.skip(6))
    } else {
        match first_index_of(p, unit_sep()) {
            Some(k) => TargetView::ConsoleDir(p.take(k), p.skip(k + 1)),
            None => TargetView::Path,
        }
    }
}

/// What a row's `path` stands for.
pub fn row_target(path: &str) -> (r: RowTarget)
    ensures
        target_view(r) == row_target_spec(path@),
{
    proof {
        reveal_strlit("consola:");
        reveal_strlit("juego:");
    }
    let c = chars_of(path);
    let lc = chars_of("consola:");
    let lj = chars_of("juego:");
    if starts_with(c.as_slice(), lc.as_slice()) {
        let rest = slice_chars(c.as_slice(), 8, c.len());
        assert(c@.subrange(8, c@.len() as int) == path@.skip(8));
        return RowTarget::Console(string_of(rest.as_slice()));
    }
    if starts_with(c.as_slice(), lj.as_slice()) {
        let rest = slice_chars(c.as_slice(), 6, c.len());
        assert(c@.subrange(6, c@.len() as int) == path@.skip(6));
        return RowTarget::Game(string_of(rest.as_slice()));
    }
    match find_char(c.as_slice(), '\u{1}') {
        Some(k) => {
            proof {
                lemma_first_index_of(c@, '\u{1}');
            }
            assert(k < c.len());
            let a = slice_chars(c.as_slice(), 0, k);
            let b = slice_chars(c.as_slice(), k + 1, c.len());
            assert(c@.subrange(0, k as int) == path@.take(k as int));
            assert(c@.subrange(k + 1, c@.len() as int) == path@.skip(k + 1));
            RowTarget::ConsoleDir { console: string_of(a.as_slice()), dir: string_of(b.as_slice()) }
        },
        None => RowTarget::Path,
    }
}

/// `s` without its trailing `/`s.
pub open spec fn trim_end_slashes(s: Seq<char>) -> Seq<char>
    decreases s.len(),
{
    if s.len() > 0 && s.last() == '/' {
        trim_end_slashes(s.drop_last())
    } else {
        s
    }
}

/// Whether a track's real path lies directly in `dir` (not in a folder
/// below it): it starts with `dir/` and has no further `/`.
pub open spec fn direct_child_spec(real_path: Seq<char>, dir: Seq<char>) -> bool {
    let prefix = trim_end_slashes(dir).push('/');
    has_prefix(real_path, prefix) && !has_char(real_path.skip(prefix.len() as int), '/')
}

fn trimmed_dir(dir: &str) -> (r: Vec<char>)
    ensures
        r@ == trim_end_slashes(dir@),
{
    let d = chars_of(dir);
    let mut e: usize = d.len();
    assert(d@.take(d@.len() as int) =~= d@);
    while e > 0 && d[e - 1] == '/'
        invariant
            e <= d.len(),
            d@ == dir@,
            trim_end_slashes(d@) == trim_end_slashes(d@.take(e as int)),
        decreases e,
    {
        assert(d@.take(e as int).drop_last() =~= d@.take(e - 1));
        e -= 1;
    }
    let prefix = slice_chars(d.as_slice(), 0, e);
    assert(d@.subrange(0, e as int) =~= d@.take(e as int));
    prefix
}

/// Whether a track's real path (its subsong suffix taken off) lies directly
/// in `dir`.
pub fn direct_child(real_path: &str, dir: &str) -> (r: bool)
    ensures
        r == direct_child_spec(real_path@, dir@),
{
    let mut prefix = trimmed_dir(dir);
    prefix.push('/');
    let c = chars_of(real_path);
    if !starts_with(c.as_slice(), prefix.as_slice()) {
        return false;
    }
    let rest = slice_chars(c.as_slice(), prefix.len(), c.len());
    assert(c@.subrange(prefix@.len() as int, c@.len() as int) == real_path@.skip(prefix@.len() as int));
    !contains_char(rest.as_slice(), '/')
}

/// The key a subsong sorts by: its index, or 0 for a whole file.
pub open spec fn subsong_key(i: Option<u32>) -> Seq<SpecPart> {
    seq![SpecPart::Int(match i { Some(n) => n as int, None => 0 })]
}

/// The order a file's tracks are taken in: by subsong index (a whole file
/// counting as 0), ties in the order they came in. Positions into `indices`.
pub fn subsong_order(indices: &Vec<Option<u32>>) -> (perm: Vec<usize>)
    ensures
        stable_order(indices@.map_values(|i: Option<u32>| subsong_key(i)), perm@),
{
    let mut keys: Vec<Vec<KeyPart>> = Vec::new();
    let mut i: usize = 0;
    while i < indices.len()
        invariant
            i <= indices@.len(),
            keys@.len() == i,
            forall|j: int| 0 <= j < i ==> crate::sort::key_view(#[trigger] keys@[j]) == subsong_key(indices@[j]),
        decreases indices.len() - i,
    {
        let n: i64 = match indices[i] {
            Some(n) => n as i64,
            None => 0,
        };
        let mut k: Vec<KeyPart> = Vec::new();
        k.push(KeyPart::Int(n));
        assert(crate::sort::key_view(k) =~= subsong_key(indices@[i as int]));
        keys.push(k);
        i += 1;
    }
    assert(keys_view(keys@) =~= indices@.map_values(|x: Option<u32>| subsong_key(x)));
    stable_sort(&keys)
}

/// The formats that can carry embedded cover art, by extension.
pub open spec fn rich_exts() -> Seq<Seq<u8>> {
    seq![
        seq![109u8, 112, 51],
        seq![102u8, 108, 97, 99],
        seq![111u8, 103, 103],
        seq![111u8, 103, 97],
        seq![109u8, 52, 97],
        seq![109u8, 112, 52],
        seq![111u8, 112, 117, 115],
        seq![119u8, 97, 118],
        seq![97u8, 97, 99],
        seq![119u8, 109, 97],
    ]
}

/// The offset of the last `.` in a file name.
pub open spec fn last_dot(name: Seq<u8>) -> Option<int> {
    if exists|k: int| 0 <= k < name.len() && name[k] == 46 {
        Some(choose|k: int| 0 <= k < name.len() && name[k] == 46 && forall|j: int| k < j < name.len() ==> name[j] != 46)
    } else {
        None
    }
}

/// `Path::extension` of a file name: what follows the last `.`, unless there
/// is none or the only one starts the name.
pub open spec fn extension_spec(name: Seq<u8>) -> Option<Seq<u8>> {
    match last_dot(name) {
        Some(k) => if k == 0 { None } else { Some(name.skip(k + 1)) },
        None => None,
    }
}

/// ASCII lowercase of one byte.
pub open spec fn lower_byte(b: u8) -> u8 {
    if 65 <= b <= 90 { (b + 32) as u8 } else { b }
}

/// Whether a file name's extension, in ASCII lowercase, is one of the rich
/// formats.
pub open spec fn is_rich_name(name: Seq<u8>) -> bool {
    match extension_spec(name) {
        Some(e) => rich_exts().contains(e.map_values(|b: u8| lower_byte(b))),
        None => false,
    }
}

/// Byte-wise order of names (how paths in one folder sort): `a` before `b`.
pub open spec fn bytes_less(a: Seq<u8>, b: Seq<u8>) -> bool
    decreases a.len(),
{
    if a.len() == 0 {
        b.len() > 0
    } else if b.len() == 0 {
        false
    } else if a[0] != b[0] {
        a[0] < b[0]
    } else {
        bytes_less(a.drop_first(), b.drop_first())
    }
}

fn less_bytes(a: &[u8], b: &[u8]) -> (r: bool)
    ensures
        r == bytes_less(a@, b@),
{
    let mut i: usize = 0;
    assert(a@.skip(0) =~= a@);
    assert(b@.skip(0) =~= b@);
    while i < a.len() && i < b.len() && a[i] == b[i]
        invariant
            i <= a.len(),
            i <= b.len(),
            bytes_less(a@, b@) == bytes_less(a@.skip(i as int), b@.skip(i as int)),
        decreases a.len() - i,
    {
        assert(a@.skip(i as int).drop_first() =~= a@.skip(i + 1));
        assert(b@.skip(i as int).drop_first() =~= b@.skip(i + 1));
        i += 1;
    }
    if i == a.len() {
        assert(a@.skip(i as int).len() == 0);
        i < b.len()
    } else if i == b.len() {
        false
    } else {
        assert(a@.skip(i as int)[0] == a@[i as int]);
        assert(b@.skip(i as int)[0] == b@[i as int]);
        a[i] < b[i]
    }
}

fn extension_of(name: &[u8]) -> (r: Option<Vec<u8>>)
    ensures
        r matches Some(e) ==> extension_spec(name@) == Some(e@),
        r is None ==> extension_spec(name@) is None,
{
    let mut k: usize = name.len();
    while k > 0 && name[k - 1] != 46
        invariant
            k <= name.len(),
            forall|j: int| k <= j < name.len() ==> name@[j] != 46,
        decreases k,
    {
        k -= 1;
    }
    if k == 0 {
        return None;
    }
    let d = k - 1;
    proof {
        let w = choose|m: int| 0 <= m < name@.len() && name@[m] == 46 && forall|j: int| m < j < name@.len() ==> name@[j] != 46;
        assert(0 <= d < name@.len() && name@[d as int] == 46);
        if w < d {
            assert(name@[d as int] != 46);
        } else if w > d {
        }
    }
    if d == 0 {
        return None;
    }
    let e = crate::text::slice_bytes(name, d + 1, name.len());
    assert(name@.subrange(d + 1, name@.len() as int) == name@.skip(d + 1));
    Some(e)
}

fn is_rich(name: &[u8]) -> (r: bool)
    ensures
        r == is_rich_name(name@),
{
    let e = match extension_of(name) {
        Some(e) => e,
        None => return false,
    };
    let mut low: Vec<u8> = Vec::new();
    let mut i: usize = 0;
    while i < e.len()
        invariant
            i <= e@.len(),
            low@ == e@.take(i as int).map_values(|b: u8| lower_byte(b)),
        decreases e.len() - i,
    {
        let b = e[i];
        low.push(if 65 <= b && b <= 90 { b + 32 } else { b });
        assert(low@ =~= e@.take(i + 1).map_values(|b: u8| lower_byte(b)));
        i += 1;
    }
    assert(e@.take(e@.len() as int) =~= e@);
    let l = low.as_slice();
    let hit = bytes_is(l, &[109, 112, 51]) || bytes_is(l, &[102, 108, 97, 99]) || bytes_is(l, &[111, 103, 103])
        || bytes_is(l, &[111, 103, 97]) || bytes_is(l, &[109, 52, 97]) || bytes_is(l, &[109, 112, 52])
        || bytes_is(l, &[111, 112, 117, 115]) || bytes_is(l, &[119, 97, 118]) || bytes_is(l, &[97, 97, 99])
        || bytes_is(l, &[119, 109, 97]);
    proof {
        let x = low@;
        if hit {
            if x == rich_exts()[0] { assert(rich_exts().contains(x)); }
            else if x == rich_exts()[1] { assert(rich_exts()[1] == x); }
        }
        if rich_exts().contains(x) {
            let j = choose|j: int| 0 <= j < rich_exts().len() && rich_exts()[j] == x;
            assert(0 <= j < 10);
        }
    }
    hit
}

fn bytes_is(a: &[u8], b: &[u8]) -> (r: bool)
    ensures
        r == (a@ == b@),
{
    if a.len() != b.len() {
        return false;
    }
    let mut i: usize = 0;
    while i < a.len()
        invariant
            a.len() == b.len(),
            i <= a.len(),
            forall|j: int| 0 <= j < i ==> a@[j] == b@[j],
        decreases a.len() - i,
    {
        if a[i] != b[i] {
            return false;
        }
        i += 1;
    }
    assert(a@ =~= b@);
    true
}

/// The file of a folder to ask for embedded cover art: among the file names
/// whose format can carry one (chiptune formats never do), the first in
/// byte order. Its position in `names`.
pub fn first_embedded_art_candidate(names: &Vec<Vec<u8>>) -> (r: Option<usize>)
    ensures
        r is None ==> forall|i: int| 0 <= i < names@.len() ==> !is_rich_name(#[trigger] names@[i]@),
        r matches Some(k) ==> (k < names@.len() && is_rich_name(names@[k as int]@)
            && forall|i: int| 0 <= i < names@.len() && is_rich_name(#[trigger] names@[i]@) ==> !bytes_less(names@[i]@, names@[k as int]@)),
{
    let mut best: Option<usize> = None;
    let mut i: usize = 0;
    while i < names.len()
        invariant
            i <= names@.len(),
            best is None ==> forall|j: int| 0 <= j < i ==> !is_rich_name(#[trigger] names@[j]@),
            best matches Some(k) ==> (k < i && is_rich_name(names@[k as int]@)
                && forall|j: int| 0 <= j < i && is_rich_name(#[trigger] names@[j]@) ==> !bytes_less(names@[j]@, names@[k as int]@)),
        decreases names.len() - i,
    {
        if is_rich(names[i].as_slice()) {
            match best {
                None => {
                    best = Some(i);
                    proof {
                        assert forall|j: int| 0 <= j < i + 1 && is_rich_name(#[trigger] names@[j]@) implies !bytes_less(names@[j]@, names@[i as int]@) by {
                            if j == i {
                                lemma_bytes_less_irreflexive(names@[i as int]@);
                            }
                        }
                    }
                },
                Some(k) => {
                    if less_bytes(names[i].as_slice(), names[k].as_slice()) {
                        best = Some(i);
                        proof {
                            assert forall|j: int| 0 <= j < i + 1 && is_rich_name(#[trigger] names@[j]@) implies !bytes_less(names@[j]@, names@[i as int]@) by {
                                if j == i {
                                    lemma_bytes_less_irreflexive(names@[i as int]@);
                                } else if bytes_less(names@[j]@, names@[i as int]@) {
                                    lemma_bytes_less_trans(names@[j]@, names@[i as int]@, names@[k as int]@);
                                }
                            }
                        }
                    } else {
                        proof {
                            assert forall|j: int| 0 <= j < i + 1 && is_rich_name(#[trigger] names@[j]@) implies !bytes_less(names@[j]@, names@[k as int]@) by {
                                if j == i {
                                }
                            }
                        }
                    }
                },
            }
        }
        i += 1;
    }
    best
}

proof fn lemma_bytes_less_irreflexive(a: Seq<u8>)
    ensures
        !bytes_less(a, a),
    decreases a.len(),
{
    if a.len() > 0 {
        lemma_bytes_less_irreflexive(a.drop_first());
    }
}

proof fn lemma_bytes_less_trans(a: Seq<u8>, b: Seq<u8>, c: Seq<u8>)
    requires
        bytes_less(a, b),
        bytes_less(b, c),
    ensures
        bytes_less(a, c),
    decreases a.len(),
{
    if a.len() > 0 && b.len() > 0 && c.len() > 0 && a[0] == b[0] && b[0] == c[0] {
        lemma_bytes_less_trans(a.drop_first(), b.drop_first(), c.drop_first());
    }
}

/// Where playback starts in a folder's tracks: at the file asked for, or at
/// the first track when it is not among them.
pub open spec fn start_index_spec(paths: Seq<Seq<char>>, path: Seq<char>) -> int {
    if exists|i: int| 0 <= i < paths.len() && paths[i] == path {
        choose|i: int| 0 <= i < paths.len() && paths[i] == path && forall|j: int| 0 <= j < i ==> paths[j] != path
    } else {
        0
    }
}

/// The position of `path` among the tracks' paths, or 0.
pub fn start_index(paths: &Vec<String>, path: &str) -> (r: usize)
    ensures
        r == start_index_spec(paths@.map_values(|s: String| s@), path@),
{
    let ghost ps = paths@.map_values(|s: String| s@);
    let mut i: usize = 0;
    while i < paths.len()
        invariant
            i <= paths@.len(),
            ps == paths@.map_values(|s: String| s@),
            forall|j: int| 0 <= j < i ==> ps[j] != path@,
        decreases paths.len() - i,
    {
        if str_eq(paths[i].as_str(), path) {
            proof {
                let w = choose|m: int| 0 <= m < ps.len() && ps[m] == path@ && forall|j: int| 0 <= j < m ==> ps[j] != path@;
                assert(0 <= i < ps.len() && ps[i as int] == path@);
                if w < i {
                } else if w > i {
                    assert(ps[i as int] != path@);
                }
            }
            return i;
        }
        i += 1;
    }
    0
}

/// A console as the picker ranks it: its Spanish and English names, the
/// codecs it owns (strong and weak), and where it stands in display order.
pub struct ConsoleNames {
    pub name_es: String,
    pub name: String,
    pub codecs: Vec<String>,
    pub order: i64,
}

/// How well a console matches the typed (trimmed, lowercased) text: 0 an
/// exact name, 1 a name prefix, 2 one of its codecs, 3 a name substring;
/// `None` when it does not match at all.
pub open spec fn console_rank(c: ConsoleNames, q: Seq<char>) -> Option<int> {
    let n = lowercase_of(c.name_es@);
    let e = lowercase_of(c.name@);
    if n == q || e == q {
        Some(0)
    } else if has_prefix(n, q) || has_prefix(e, q) {
        Some(1)
    } else if exists|k: int| 0 <= k < c.codecs@.len() && (#[trigger] c.codecs@[k])@ == q {
        Some(2)
    } else if has_sub(n, q) || has_sub(e, q) {
        Some(3)
    } else {
        None
    }
}

/// Console `i` is listed before console `j`: a better rank, then an earlier
/// display order, then an earlier place in the table.
pub open spec fn console_before(cs: Seq<ConsoleNames>, q: Seq<char>, i: int, j: int) -> bool {
    let ri = console_rank(cs[i], q)->0;
    let rj = console_rank(cs[j], q)->0;
    ri < rj || (ri == rj && (cs[i].order < cs[j].order || (cs[i].order == cs[j].order && i < j)))
}

/// The console picker's list for the typed text `q` (positions into
/// `consoles`; the "automatic" entry that heads it is the caller's). Empty
/// text lists every console in table order; otherwise the matching consoles,
/// best rank first, then by display order.
pub open spec fn console_list_ok(cs: Seq<ConsoleNames>, q: Seq<char>, r: Seq<usize>) -> bool {
    let ql = lowercase_of(trim_ws(q));
    if ql.len() == 0 {
        r.len() == cs.len() && forall|k: int| 0 <= k < r.len() ==> r[k] == k
    } else {
        &&& forall|k: int| 0 <= k < r.len() ==> #[trigger] r[k] < cs.len() && console_rank(cs[r[k] as int], ql) is Some
        &&& forall|i: int| 0 <= i < cs.len() && console_rank(#[trigger] cs[i], ql) is Some ==> r.contains(i as usize)
        &&& forall|k: int, l: int| 0 <= k < l < r.len() ==> console_before(cs, ql, r[k] as int, r[l] as int)
    }
}

fn rank_of(c: &ConsoleNames, q: &str) -> (r: Option<i64>)
    ensures
        r matches Some(x) ==> console_rank(*c, q@) == Some(x as int),
        r is None ==> console_rank(*c, q@) is None,
{
    let n = to_lowercase(c.name_es.as_str());
    let e = to_lowercase(c.name.as_str());
    if str_eq(n.as_str(), q) || str_eq(e.as_str(), q) {
        return Some(0);
    }
    let nc = chars_of(n.as_str());
    let ec = chars_of(e.as_str());
    let qc = chars_of(q);
    assert(nc@ == n@ && ec@ == e@ && qc@ == q@);
    if starts_with(nc.as_slice(), qc.as_slice()) || starts_with(ec.as_slice(), qc.as_slice()) {
        return Some(1);
    }
    let mut k: usize = 0;
    while k < c.codecs.len()
        invariant
            k <= c.codecs@.len(),
            n@ == lowercase_of(c.name_es@),
            e@ == lowercase_of(c.name@),
            !(n@ == q@ || e@ == q@),
            !(has_prefix(n@, q@) || has_prefix(e@, q@)),
            forall|j: int| 0 <= j < k ==> (#[trigger] c.codecs@[j])@ != q@,
        decreases c.codecs.len() - k,
    {
        if str_eq(c.codecs[k].as_str(), q) {
            assert((c.codecs@[k as int])@ == q@);
            assert(exists|j: int| 0 <= j < c.codecs@.len() && (#[trigger] c.codecs@[j])@ == q@);
            assert(!(n@ == q@ || e@ == q@));
            assert(!(has_prefix(n@, q@) || has_prefix(e@, q@)));
            assert(console_rank(*c, q@) == Some(2int));
            return Some(2);
        }
        k += 1;
    }
    if contains_sub(nc.as_slice(), qc.as_slice()) || contains_sub(ec.as_slice(), qc.as_slice()) {
        return Some(3);
    }
    None
}

proof fn lemma_pair_order(a1: int, b1: int, a2: int, b2: int)
    ensures
        key_order(seq![SpecPart::Int(a1), SpecPart::Int(b1)], seq![SpecPart::Int(a2), SpecPart::Int(b2)]) == (if a1 < a2 {
            -1
        } else if a1 > a2 {
            1
        } else if b1 < b2 {
            -1
        } else if b1 > b2 {
            1
        } else {
            0
        }),
{
    let x = seq![SpecPart::Int(a1), SpecPart::Int(b1)];
    let y = seq![SpecPart::Int(a2), SpecPart::Int(b2)];
    assert(x.drop_first() =~= seq![SpecPart::Int(b1)]);
    assert(y.drop_first() =~= seq![SpecPart::Int(b2)]);
    assert(x.drop_first().drop_first() =~= Seq::<SpecPart>::empty());
    assert(y.drop_first().drop_first() =~= Seq::<SpecPart>::empty());
    reveal_with_fuel(key_order, 3);
}

/// The ranked console list for the typed text.
pub fn consoles_for_filter(q: &str, consoles: &Vec<ConsoleNames>) -> (r: Vec<usize>)
    ensures
        console_list_ok(consoles@, q@, r@),
{
    let t = trim(q);
    let ts = string_of(t.as_slice());
    let ql = to_lowercase(ts.as_str());
    let ghost qv = ql@;
    if ql.as_str().is_empty() {
        let mut r: Vec<usize> = Vec::new();
        let mut i: usize = 0;
        while i < consoles.len()
            invariant
                i <= consoles@.len(),
                r@.len() == i,
                forall|k: int| 0 <= k < i ==> r@[k] == k,
            decreases consoles.len() - i,
        {
            r.push(i);
            i += 1;
        }
        return r;
    }
    let mut cand: Vec<usize> = Vec::new();
    let mut ranks: Vec<i64> = Vec::new();
    let mut keys: Vec<Vec<KeyPart>> = Vec::new();
    let mut i: usize = 0;
    while i < consoles.len()
        invariant
            i <= consoles@.len(),
            qv == ql@,
            cand@.len() == keys@.len(),
            cand@.len() == ranks@.len(),
            forall|k: int| 0 <= k < cand@.len() ==> #[trigger] cand@[k] < i,
            forall|k: int, l: int| 0 <= k < l < cand@.len() ==> cand@[k] < cand@[l],
            forall|k: int| 0 <= k < cand@.len() ==> console_rank(consoles@[#[trigger] cand@[k] as int], qv) == Some(ranks@[k] as int),
            forall|k: int| 0 <= k < cand@.len() ==> crate::sort::key_view(#[trigger] keys@[k]) == seq![
                SpecPart::Int(ranks@[k] as int),
                SpecPart::Int(consoles@[cand@[k] as int].order as int),
            ],
            forall|j: int| 0 <= j < i && console_rank(#[trigger] consoles@[j], qv) is Some ==> cand@.contains(j as usize),
        decreases consoles.len() - i,
    {
        match rank_of(&consoles[i], ql.as_str()) {
            Some(rk) => {
                let mut k: Vec<KeyPart> = Vec::new();
                k.push(KeyPart::Int(rk));
                k.push(KeyPart::Int(consoles[i].order));
                assert(crate::sort::key_view(k) =~= seq![SpecPart::Int(rk as int), SpecPart::Int(consoles@[i as int].order as int)]);
                let ghost old_cand = cand@;
                cand.push(i);
                ranks.push(rk);
                keys.push(k);
                assert forall|j: int| 0 <= j < i + 1 && console_rank(#[trigger] consoles@[j], qv) is Some implies cand@.contains(j as usize) by {
                    if j < i {
                        assert(old_cand.contains(j as usize));
                        let w = choose|w: int| 0 <= w < old_cand.len() && old_cand[w] == j as usize;
                        assert(cand@[w] == j as usize);
                    } else {
                        assert(cand@[cand@.len() - 1] == j as usize);
                    }
                }
            },
            None => {},
        }
        i += 1;
    }
    let perm = stable_sort(&keys);
    let ghost kv = keys_view(keys@);
    let mut r: Vec<usize> = Vec::new();
    let mut m: usize = 0;
    while m < perm.len()
        invariant
            m <= perm@.len(),
            kv == keys_view(keys@),
            stable_order(kv, perm@),
            perm@.len() == cand@.len(),
            r@.len() == m,
            forall|k: int| 0 <= k < m ==> r@[k] == cand@[perm@[k] as int],
        decreases perm.len() - m,
    {
        r.push(cand[perm[m]]);
        m += 1;
    }
    proof {
        let cs = consoles@;
        assert forall|k: int| 0 <= k < r@.len() implies #[trigger] r@[k] < cs.len() && console_rank(cs[r@[k] as int], qv) is Some by {
            let p = perm@[k] as int;
            assert(0 <= p < cand@.len());
        }
        assert forall|j: int| 0 <= j < cs.len() && console_rank(#[trigger] cs[j], qv) is Some implies r@.contains(j as usize) by {
            let w = choose|w: int| 0 <= w < cand@.len() && cand@[w] == j as usize;
            assert(has_pos(perm@, w));
            let k = choose|k: int| 0 <= k < perm@.len() && perm@[k] == w as usize;
            assert(r@[k] == j as usize);
        }
        assert forall|k: int, l: int| 0 <= k < l < r@.len() implies console_before(cs, qv, r@[k] as int, r@[l] as int) by {
            let x = perm@[k] as int;
            let y = perm@[l] as int;
            assert(before(kv, x, y));
            assert(kv[x] == crate::sort::key_view(keys@[x]));
            assert(kv[y] == crate::sort::key_view(keys@[y]));
            lemma_pair_order(ranks@[x] as int, cs[cand@[x] as int].order as int, ranks@[y] as int, cs[cand@[y] as int].order as int);
            if x > y {
                assert(cand@[y] < cand@[x]);
            } else if x < y {
                assert(cand@[x] < cand@[y]);
            }
        }
    }
    r
}

/// A synthetic library row, for measuring how the list copes with many.
pub struct GeneratedRow {
    pub title: String,
    pub subtitle: String,
    pub depth: i32,
    pub is_folder: bool,
    pub expanded: bool,
}

/// Row `i` of the synthetic library: every twelfth a folder (every other
/// one of those expanded), the rest tracks with a long title and a short
/// time; depth cycles through 0, 1, 2.
pub open spec fn generated_row_ok(i: int, r: GeneratedRow) -> bool {
    let is_folder = i % 12 == 0;
    &&& r.is_folder == is_folder
    &&& r.expanded == (is_folder && i % 24 == 0)
    &&& r.depth == i % 3
    &&& r.title@ == (if is_folder {
        "Folder "@ + decimal((i / 12) as nat)
    } else {
        "Track "@ + decimal_padded(i as nat, 6) + " — a title long enough to need eliding"@
    })
    &&& r.subtitle@ == (if is_folder {
        "11 items"@
    } else {
        decimal((i % 5 + 1) as nat) + ":"@ + decimal_padded((i % 60) as nat, 2)
    })
}

/// `n` synthetic rows.
pub fn generated_rows(n: usize) -> (r: Vec<GeneratedRow>)
    ensures
        r@.len() == n,
        forall|i: int| 0 <= i < n ==> generated_row_ok(i, #[trigger] r@[i]),
{
    let mut r: Vec<GeneratedRow> = Vec::new();
    let mut i: usize = 0;
    while i < n
        invariant
            i <= n,
            r@.len() == i,
            forall|j: int| 0 <= j < i ==> generated_row_ok(j, #[trigger] r@[j]),
        decreases n - i,
    {
        let is_folder = i % 12 == 0;
        let title = if is_folder {
            let mut v = chars_of("Folder ");
            let d = decimal_u64((i / 12) as u64);
            extend_chars(&mut v, d.as_slice());
            string_of(v.as_slice())
        } else {
            let mut v = chars_of("Track ");
            let d = decimal_padded_u64(i as u64, 6);
            extend_chars(&mut v, d.as_slice());
            extend_str(&mut v, " — a title long enough to need eliding");
            string_of(v.as_slice())
        };
        let subtitle = if is_folder {
            "11 items".to_owned()
        } else {
            let mut v = decimal_u64((i % 5 + 1) as u64);
            extend_str(&mut v, ":");
            let d = decimal_padded_u64((i % 60) as u64, 2);
            extend_chars(&mut v, d.as_slice());
            string_of(v.as_slice())
        };
        let row = GeneratedRow {
            title,
            subtitle,
            depth: (i % 3) as i32,
            is_folder,
            expanded: is_folder && i % 24 == 0,
        };
        assert(generated_row_ok(i as int, row));
        r.push(row);
        i += 1;
    }
    r
}

/// Names offered when a game is renamed by hand: each once, whatever its
/// case (`seen` holds the lowercase form of every name in `names`).
pub struct Suggestions {
    pub names: Vec<String>,
    pub seen: Vec<String>,
}

impl Suggestions {
    pub open spec fn wf(&self) -> bool {
        &&& self.names@.len() == self.seen@.len()
        &&& forall|i: int| 0 <= i < self.names@.len() ==> (#[trigger] self.seen@[i])@ == lowercase_of(self.names@[i]@)
    }

    /// The names as text.
    pub open spec fn texts(&self) -> Seq<Seq<char>> {
        self.names@.map_values(|n: String| n@)
    }

    /// None yet.
    pub fn new() -> (s: Suggestions)
        ensures
            s.wf(),
            s.texts().len() == 0,
    {
        Suggestions { names: Vec::new(), seen: Vec::new() }
    }
}

/// Whether a name is already offered, in any case.
pub open spec fn offered(names: Seq<Seq<char>>, name: Seq<char>) -> bool {
    exists|i: int| 0 <= i < names.len() && lowercase_of(#[trigger] names[i]) == lowercase_of(name)
}

/// `names` with `name` added unless it is already offered.
pub open spec fn with_name(names: Seq<Seq<char>>, name: Seq<char>) -> Seq<Seq<char>> {
    if offered(names, name) { names } else { names.push(name) }
}

/// Offers a name unless one equal to it but for case already is.
pub fn push_suggestion(s: &mut Suggestions, name: String)
    requires
        old(s).wf(),
    ensures
        final(s).wf(),
        final(s).texts() == with_name(old(s).texts(), name@),
{
    let key = to_lowercase(name.as_str());
    let mut i: usize = 0;
    while i < s.seen.len()
        invariant
            s.wf(),
            i <= s.seen@.len(),
            key@ == lowercase_of(name@),
            forall|j: int| 0 <= j < i ==> (#[trigger] s.seen@[j])@ != key@,
        decreases s.seen.len() - i,
    {
        if str_eq(s.seen[i].as_str(), key.as_str()) {
            assert(lowercase_of(s.texts()[i as int]) == lowercase_of(name@));
            return;
        }
        i += 1;
    }
    proof {
        if offered(s.texts(), name@) {
            let j = choose|j: int| 0 <= j < s.texts().len() && lowercase_of(#[trigger] s.texts()[j]) == lowercase_of(name@);
            assert(s.seen@[j]@ == key@);
        }
    }
    let ghost before = s.texts();
    s.names.push(name);
    s.seen.push(key);
    assert(s.texts() =~= before.push(s.names@[s.names@.len() - 1]@));
}

/// The typed text as the suggestions match it: trimmed, lowercased.
pub open spec fn query_key(q: Seq<char>) -> Seq<char> {
    lowercase_of(trim_ws(q))
}

/// The typed text as the suggestions match it.
pub fn query_lower(q: &str) -> (r: Vec<char>)
    ensures
        r@ == query_key(q@),
{
    let t = trim(q);
    let ts = string_of(t.as_slice());
    let l = to_lowercase(ts.as_str());
    chars_of(l.as_str())
}

/// The library's own games whose lowercase name contains the query, each
/// once, in library order.
pub open spec fn library_spec(names: Seq<Seq<char>>, library: Seq<Seq<char>>, ql: Seq<char>) -> Seq<Seq<char>>
    decreases library.len(),
{
    if library.len() == 0 {
        names
    } else {
        let prev = library_spec(names, library.drop_last(), ql);
        if has_sub(lowercase_of(library.last()), ql) { with_name(prev, library.last()) } else { prev }
    }
}

fn lower_contains(name: &str, ql: &Vec<char>) -> (r: bool)
    ensures
        r == has_sub(lowercase_of(name@), ql@),
{
    let l = to_lowercase(name);
    let c = chars_of(l.as_str());
    contains_sub(c.as_slice(), ql.as_slice())
}

/// Offers the library's games that match the typed text (`ql`, already
/// trimmed and lowercased).
pub fn add_library_matches(s: &mut Suggestions, library: &Vec<String>, ql: &Vec<char>)
    requires
        old(s).wf(),
    ensures
        final(s).wf(),
        final(s).texts() == library_spec(old(s).texts(), library@.map_values(|n: String| n@), ql@),
{
    let ghost start = s.texts();
    let ghost lib = library@.map_values(|n: String| n@);
    let mut i: usize = 0;
    while i < library.len()
        invariant
            s.wf(),
            i <= library@.len(),
            lib == library@.map_values(|n: String| n@),
            s.texts() == library_spec(start, lib.take(i as int), ql@),
        decreases library.len() - i,
    {
        assert(lib.take(i + 1).drop_last() =~= lib.take(i as int));
        assert(lib.take(i + 1).last() == library@[i as int]@);
        if lower_contains(library[i].as_str(), ql) {
            push_suggestion(s, library[i].clone());
        }
        i += 1;
    }
    assert(lib.take(library@.len() as int) =~= lib);
}

/// The game an archive file names: what comes before its first ` (` region
/// group, trimmed.
pub open spec fn archive_base_spec(file: Seq<char>) -> Seq<char> {
    let k = match first_occurrence(file, " ("@) {
        Some(k) => k,
        None => file.len() as int,
    };
    trim_ws(file.take(k))
}

/// The game name of an archive file.
pub fn archive_base(file: &str) -> (r: String)
    ensures
        r@ == archive_base_spec(file@),
{
    let c = chars_of(file);
    let pat = chars_of(" (");
    let k: usize = match find_sub(c.as_slice(), pat.as_slice()) {
        Some(k) => k,
        None => c.len(),
    };
    let head = slice_chars(c.as_slice(), 0, k);
    assert(head@ == file@.take(k as int));
    let hs = string_of(head.as_slice());
    let t = trim(hs.as_str());
    string_of(t.as_slice())
}

/// Archive games that match, offered in the archive's order until more than
/// forty names are on offer.
pub open spec fn archive_spec(names: Seq<Seq<char>>, files: Seq<Seq<char>>, ql: Seq<char>) -> Seq<Seq<char>>
    decreases files.len(),
{
    if files.len() == 0 {
        names
    } else {
        let b = archive_base_spec(files[0]);
        let next = if has_sub(lowercase_of(b), ql) { with_name(names, b) } else { names };
        if next.len() > 40 { next } else { archive_spec(next, files.drop_first(), ql) }
    }
}

/// Offers the archive's games that match (the archive's file names, in its
/// order).
pub fn add_archive_matches(s: &mut Suggestions, files: &Vec<String>, ql: &Vec<char>)
    requires
        old(s).wf(),
    ensures
        final(s).wf(),
        final(s).texts() == archive_spec(old(s).texts(), files@.map_values(|n: String| n@), ql@),
{
    let ghost fs = files@.map_values(|n: String| n@);
    let ghost goal = archive_spec(s.texts(), fs, ql@);
    let mut i: usize = 0;
    assert(fs.skip(0) =~= fs);
    while i < files.len()
        invariant
            s.wf(),
            i <= files@.len(),
            fs == files@.map_values(|n: String| n@),
            goal == archive_spec(old(s).texts(), fs, ql@),
            goal == archive_spec(s.texts(), fs.skip(i as int), ql@),
        decreases files.len() - i,
    {
        assert(fs.skip(i as int)[0] == files@[i as int]@);
        assert(fs.skip(i as int).drop_first() =~= fs.skip(i + 1));
        let ghost before = s.texts();
        let b = archive_base(files[i].as_str());
        let ghost bv = b@;
        if lower_contains(b.as_str(), ql) {
            push_suggestion(s, b);
        }
        assert(s.texts() == (if has_sub(lowercase_of(bv), ql@) { with_name(before, bv) } else { before }));
        if s.names.len() > 40 {
            assert(goal == s.texts());
            return;
        }
        assert(goal == archive_spec(s.texts(), fs.skip(i + 1), ql@));
        i += 1;
    }
    assert(fs.skip(i as int) =~= Seq::<Seq<char>>::empty());
}

/// Whether the web is asked too: fewer than eight names on offer.
pub fn wants_web(s: &Suggestions) -> (r: bool)
    ensures
        r == (s.names@.len() < 8),
{
    s.names.len() < 8
}

/// Names from the web, offered in order until twelve are on offer.
pub open spec fn web_spec(names: Seq<Seq<char>>, web: Seq<Seq<char>>) -> Seq<Seq<char>>
    decreases web.len(),
{
    if web.len() == 0 {
        names
    } else {
        let next = with_name(names, web[0]);
        if next.len() >= 12 { next } else { web_spec(next, web.drop_first()) }
    }
}

/// Offers the web's names.
pub fn add_web_names(s: &mut Suggestions, web: Vec<String>)
    requires
        old(s).wf(),
    ensures
        final(s).wf(),
        final(s).texts() == web_spec(old(s).texts(), web@.map_values(|n: String| n@)),
{
    let ghost ws = web@.map_values(|n: String| n@);
    let ghost goal = web_spec(s.texts(), ws);
    let mut i: usize = 0;
    assert(ws.skip(0) =~= ws);
    while i < web.len()
        invariant
            s.wf(),
            i <= web@.len(),
            ws == web@.map_values(|n: String| n@),
            goal == web_spec(old(s).texts(), ws),
            goal == web_spec(s.texts(), ws.skip(i as int)),
        decreases web.len() - i,
    {
        assert(ws.skip(i as int)[0] == web@[i as int]@);
        assert(ws.skip(i as int).drop_first() =~= ws.skip(i + 1));
        let ghost before = s.texts();
        push_suggestion(s, web[i].clone());
        assert(s.texts() == with_name(before, ws[i as int]));
        if s.names.len() >= 12 {
            assert(goal == s.texts());
            return;
        }
        assert(goal == web_spec(s.texts(), ws.skip(i + 1)));
        i += 1;
    }
    assert(ws.skip(i as int) =~= Seq::<Seq<char>>::empty());
}

/// How an offered name sorts: names starting with the query first, then
/// shorter (in bytes) first, then by lowercase name.
pub open spec fn suggestion_key(name: Seq<char>, ql: Seq<char>) -> Seq<SpecPart> {
    let l = lowercase_of(name);
    seq![
        SpecPart::Int(if has_prefix(l, ql) { 0 } else { 1 }),
        SpecPart::Int(vstd::utf8::encode_utf8(name).len() as int),
        SpecPart::Text(l),
    ]
}

/// The sort keys of every offered name.
pub open spec fn suggestion_keys(names: Seq<Seq<char>>, ql: Seq<char>) -> Seq<Seq<SpecPart>> {
    names.map_values(|n: Seq<char>| suggestion_key(n, ql))
}

/// The offer as shown: sorted by `suggestion_key`, ties as offered, the
/// first twelve.
pub fn ranked_suggestions(s: &Suggestions, ql: &Vec<char>) -> (r: Vec<String>)
    requires
        forall|i: int| 0 <= i < s.texts().len() ==> vstd::utf8::encode_utf8(#[trigger] s.texts()[i]).len() <= isize::MAX,
    ensures
        exists|perm: Seq<usize>| #[trigger] stable_order(suggestion_keys(s.texts(), ql@), perm) && {
            &&& r@.len() == (if perm.len() < 12 { perm.len() } else { 12 })
            &&& forall|k: int| 0 <= k < r@.len() ==> (#[trigger] r@[k])@ == s.texts()[perm[k] as int]
        },
{
    let ghost kspec = suggestion_keys(s.texts(), ql@);
    let mut keys: Vec<Vec<KeyPart>> = Vec::new();
    let mut i: usize = 0;
    while i < s.names.len()
        invariant
            i <= s.names@.len(),
            kspec == suggestion_keys(s.texts(), ql@),
            forall|i: int| 0 <= i < s.texts().len() ==> vstd::utf8::encode_utf8(#[trigger] s.texts()[i]).len() <= isize::MAX,
            keys@.len() == i,
            forall|j: int| 0 <= j < i ==> crate::sort::key_view(#[trigger] keys@[j]) == kspec[j],
        decreases s.names.len() - i,
    {
        let l = to_lowercase(s.names[i].as_str());
        let lc = chars_of(l.as_str());
        let pre: i64 = if starts_with(lc.as_slice(), ql.as_slice()) { 0 } else { 1 };
        let n: usize = s.names[i].as_str().len();
        assert(s.texts()[i as int] == s.names@[i as int]@);
        assert(n <= isize::MAX);
        let mut k: Vec<KeyPart> = Vec::new();
        k.push(KeyPart::Int(pre));
        k.push(KeyPart::Int(n as i64));
        k.push(KeyPart::Text(lc));
        assert(crate::sort::key_view(k) =~= kspec[i as int]);
        keys.push(k);
        i += 1;
    }
    assert(keys_view(keys@) =~= kspec);
    let perm = stable_sort(&keys);
    let m: usize = if perm.len() < 12 { perm.len() } else { 12 };
    let mut r: Vec<String> = Vec::new();
    let mut j: usize = 0;
    while j < m
        invariant
            m <= perm@.len(),
            perm@.len() == s.names@.len(),
            stable_order(kspec, perm@),
            j <= m,
            r@.len() == j,
            forall|k: int| 0 <= k < j ==> (#[trigger] r@[k])@ == s.texts()[perm@[k] as int],
        decreases m - j,
    {
        proof {
            crate::sort::lemma_stable_order_is_permutation(kspec, perm@);
        }
        r.push(s.names[perm[j]].clone());
        j += 1;
    }
    r
}

/// What an archive's track listing is good for, for a rip of `subsongs`
/// tracks: position is the whole mapping, so any other count is another rip.
#[derive(Clone, Copy, Debug, PartialEq, Eq, Structural)]
pub enum NamesCheck {
    /// The archive has no listing for the game.
    NoListing,
    /// The listing's count is not this file's.
    CountMismatch,
    /// Every entry is a placeholder ("Track N"): nothing to rename.
    NothingNamed,
    /// The names can be offered.
    Ready,
}

/// Judges a fetched listing: `entries` long, `same_count` when it matches the
/// file's subsongs, `named` entries with a real title.
pub fn names_check(entries: usize, same_count: bool, named: usize) -> (r: NamesCheck)
    ensures
        r == (if entries == 0 {
            NamesCheck::NoListing
        } else if !same_count {
            NamesCheck::CountMismatch
        } else if named == 0 {
            NamesCheck::NothingNamed
        } else {
            NamesCheck::Ready
        }),
{
    if entries == 0 {
        NamesCheck::NoListing
    } else if !same_count {
        NamesCheck::CountMismatch
    } else if named == 0 {
        NamesCheck::NothingNamed
    } else {
        NamesCheck::Ready
    }
}

/// How many cards a grid line holds: the columns the view asks for, at
/// least one.
pub open spec fn grid_columns(raw: i32) -> int {
    if raw >= 1 { raw as int } else { 1 }
}

/// Slot `ci` of line `li` of a grid of `total` cards, `columns` to a line:
/// the card's position, or nothing for the padding that fills out the last
/// line (drawn as nothing, it keeps every line the same height).
pub open spec fn grid_slot(total: int, columns: int, li: int, ci: int) -> Option<usize> {
    if li * columns + ci < total { Some((li * columns + ci) as usize) } else { None }
}

/// The grid of `total` cards cut into lines of `columns` slots (at least
/// one), in order, the last line padded out to full width.
pub fn grid_lines(total: usize, columns: i32) -> (r: Vec<Vec<Option<usize>>>)
    ensures
        r@.len() == (total + grid_columns(columns) - 1) / grid_columns(columns),
        forall|li: int| 0 <= li < r@.len() ==> (#[trigger] r@[li])@.len() == grid_columns(columns),
        forall|li: int, ci: int| 0 <= li < r@.len() && 0 <= ci < grid_columns(columns) ==>
            (#[trigger] r@[li]@[ci]) == grid_slot(total as int, grid_columns(columns), li, ci),
{
    let c: usize = if columns >= 1 { columns as usize } else { 1 };
    let ghost cc = grid_columns(columns);
    assert(c == cc);
    let mut r: Vec<Vec<Option<usize>>> = Vec::new();
    let mut start: usize = 0;
    let ghost mut li: int = 0;
    while start < total
        invariant
            c == cc,
            cc >= 1,
            start <= total,
            li == r@.len(),
            start < total ==> start == li * cc,
            li == 0 ==> start == 0,
            start == total && li > 0 ==> (li - 1) * cc < total <= li * cc,
            forall|k: int| 0 <= k < r@.len() ==> (#[trigger] r@[k])@.len() == cc,
            forall|k: int, ci: int| 0 <= k < r@.len() && 0 <= ci < cc ==>
                (#[trigger] r@[k]@[ci]) == grid_slot(total as int, cc, k, ci),
        decreases total - start,
    {
        let rem = total - start;
        let mut line: Vec<Option<usize>> = Vec::new();
        let mut ci: usize = 0;
        while ci < c
            invariant
                c == cc,
                start < total,
                start == li * cc,
                rem == total - start,
                ci <= c,
                line@.len() == ci,
                forall|k: int| 0 <= k < ci ==> (#[trigger] line@[k]) == grid_slot(total as int, cc, li, k),
            decreases c - ci,
        {
            if ci < rem {
                line.push(Some(start + ci));
            } else {
                line.push(None);
            }
            ci += 1;
        }
        let ghost before = r@;
        r.push(line);
        proof {
            assert forall|k: int, cj: int| 0 <= k < r@.len() && 0 <= cj < cc implies
                (#[trigger] r@[k]@[cj]) == grid_slot(total as int, cc, k, cj) by {
                if k < li {
                    assert(r@[k] == before[k]);
                }
            }
            assert((li + 1) * cc == li * cc + cc) by (nonlinear_arith);
        }
        if rem <= c {
            start = total;
        } else {
            start = start + c;
        }
        proof {
            li = li + 1;
        }
    }
    proof {
        if li == 0 {
            lemma_fundamental_div_mod_converse((total + cc - 1) as int, cc, 0, (total + cc - 1) as int);
        } else {
            assert((li - 1) * cc == li * cc - cc) by (nonlinear_arith);
            lemma_fundamental_div_mod_converse((total + cc - 1) as int, cc, li, total + cc - 1 - li * cc);
        }
    }
    r
}

/// Whether a playlist row stays under a search: its folded label contains
/// the folded needle (which an empty needle always does).
pub open spec fn row_kept(label: Seq<char>, needle: Seq<char>) -> bool {
    has_sub(label, needle)
}

/// The rows of an open playlist that a search keeps, in order, by
/// position; labels and needle come folded.
pub fn playlist_rows_matching(labels: &Vec<Vec<char>>, needle: &Vec<char>) -> (r: Vec<usize>)
    ensures
        forall|k: int| 0 <= k < r@.len() ==> (#[trigger] r@[k]) < labels@.len() && row_kept(labels@[r@[k] as int]@, needle@),
        forall|k: int, l: int| 0 <= k < l < r@.len() ==> r@[k] < r@[l],
        forall|i: int| 0 <= i < labels@.len() && row_kept((#[trigger] labels@[i])@, needle@) ==> r@.contains(i as usize),
{
    let mut r: Vec<usize> = Vec::new();
    let mut i: usize = 0;
    while i < labels.len()
        invariant
            i <= labels@.len(),
            forall|k: int| 0 <= k < r@.len() ==> (#[trigger] r@[k]) < i && row_kept(labels@[r@[k] as int]@, needle@),
            forall|k: int, l: int| 0 <= k < l < r@.len() ==> r@[k] < r@[l],
            forall|j: int| 0 <= j < i && row_kept((#[trigger] labels@[j])@, needle@) ==> r@.contains(j as usize),
        decreases labels.len() - i,
    {
        if contains_sub(labels[i].as_slice(), needle.as_slice()) {
            let ghost before = r@;
            r.push(i);
            proof {
                assert forall|j: int| 0 <= j < i + 1 && row_kept((#[trigger] labels@[j])@, needle@) implies r@.contains(j as usize) by {
                    if j < i {
                        let w = choose|w: int| 0 <= w < before.len() && before[w] == j as usize;
                        assert(r@[w] == j as usize);
                    } else {
                        assert(r@[r@.len() - 1] == j as usize);
                    }
                }
            }
        } else {
            proof {
                assert forall|j: int| 0 <= j < i + 1 && row_kept((#[trigger] labels@[j])@, needle@) implies r@.contains(j as usize) by {
                    if j == i {
                        assert(!row_kept(labels@[j]@, needle@));
                    }
                }
            }
        }
        i += 1;
    }
    r
}

/// The identity of a game for a bulk cover run: its console and its name's
/// normalised key.
pub open spec fn game_key(k: (String, String)) -> (Seq<char>, Seq<char>) {
    (k.0@, k.1@)
}

/// Whether the track at `i` is the first with its game's key.
pub open spec fn first_of_game(keys: Seq<(String, String)>, i: int) -> bool {
    forall|j: int| 0 <= j < i ==> game_key(#[trigger] keys[j]) != game_key(keys[i])
}

/// The tracks a bulk cover run asks about, by position: one per game (the
/// first track met with each console and key), in the order met.
pub fn first_per_game(keys: &Vec<(String, String)>) -> (r: Vec<usize>)
    ensures
        forall|k: int| 0 <= k < r@.len() ==> (#[trigger] r@[k]) < keys@.len() && first_of_game(keys@, r@[k] as int),
        forall|k: int, l: int| 0 <= k < l < r@.len() ==> r@[k] < r@[l],
        forall|i: int| 0 <= i < keys@.len() && first_of_game(keys@, i) ==> #[trigger] r@.contains(i as usize),
{
    let mut r: Vec<usize> = Vec::new();
    let mut i: usize = 0;
    while i < keys.len()
        invariant
            i <= keys@.len(),
            forall|k: int| 0 <= k < r@.len() ==> (#[trigger] r@[k]) < i && first_of_game(keys@, r@[k] as int),
            forall|k: int, l: int| 0 <= k < l < r@.len() ==> r@[k] < r@[l],
            forall|j: int| 0 <= j < i && first_of_game(keys@, j) ==> #[trigger] r@.contains(j as usize),
        decreases keys.len() - i,
    {
        let mut seen = false;
        let mut j: usize = 0;
        while j < i
            invariant
                i < keys@.len(),
                j <= i,
                seen <==> exists|m: int| 0 <= m < j && game_key(#[trigger] keys@[m]) == game_key(keys@[i as int]),
            decreases i - j,
        {
            if str_eq(keys[j].0.as_str(), keys[i].0.as_str()) && str_eq(keys[j].1.as_str(), keys[i].1.as_str()) {
                seen = true;
            }
            proof {
                if game_key(keys@[j as int]) == game_key(keys@[i as int]) {
                    assert(seen);
                }
                if seen {
                    let m = if game_key(keys@[j as int]) == game_key(keys@[i as int]) { j as int } else {
                        choose|m: int| 0 <= m < j && game_key(#[trigger] keys@[m]) == game_key(keys@[i as int])
                    };
                    assert(0 <= m < j + 1 && game_key(keys@[m]) == game_key(keys@[i as int]));
                }
            }
            j += 1;
        }
        if !seen {
            let ghost before = r@;
            r.push(i);
            proof {
                assert forall|m: int| 0 <= m < i implies game_key(#[trigger] keys@[m]) != game_key(keys@[i as int]) by {
                    if game_key(keys@[m]) == game_key(keys@[i as int]) {
                        assert(exists|m2: int| 0 <= m2 < i && game_key(#[trigger] keys@[m2]) == game_key(keys@[i as int]));
                    }
                }
                assert forall|jj: int| 0 <= jj < i + 1 && first_of_game(keys@, jj) implies #[trigger] r@.contains(jj as usize) by {
                    if jj < i {
                        assert(before.contains(jj as usize));
                        let w = choose|w: int| 0 <= w < before.len() && before[w] == jj as usize;
                        assert(r@[w] == jj as usize);
                    } else {
                        assert(r@[r@.len() - 1] == jj as usize);
                    }
                }
            }
        } else {
            proof {
                assert(!first_of_game(keys@, i as int));
                assert forall|jj: int| 0 <= jj < i + 1 && first_of_game(keys@, jj) implies #[trigger] r@.contains(jj as usize) by {
                    if jj == i as int {
                        assert(false);
                    }
                }
            }
        }
        i += 1;
    }
    r
}

/// What a dry run of the cover search says it would do for one game: keep a
/// cover already there, find nothing, or write the one found.
pub fn plan_action(has_existing: bool, source_none: bool, has_url: bool) -> (r: (&'static str, bool))
    ensures
        r.1 == (!has_existing && !source_none && has_url),
        r.0@ == (if has_existing {
            "ya tiene (se conserva)"@
        } else if !r.1 {
            "sin resultado"@
        } else {
            "se escribiría"@
        }),
{
    let will_write = !has_existing && !source_none && has_url;
    let action = if has_existing {
        "ya tiene (se conserva)"
    } else if !will_write {
        "sin resultado"
    } else {
        "se escribiría"
    };
    (action, will_write)
}

} // verus!
