//! Browsing directories, for the first-run folder chooser: walk directories
//! and let some be ticked.
//!
//! A path is held as its components, the way `std::path::Path` compares,
//! orders and prefixes paths: the root as `/`, `.` and `..` as themselves,
//! every other component by its bytes. Reading a directory is the caller's;
//! what is shown, in which order, and which folders end up chosen is here.

use vstd::prelude::*;
use crate::sort::{
    compare_keys, key_order, key_view, lemma_key_order, lemma_key_order_zero, KeyPart, SpecPart,
    stable_order, stable_sort, keys_view,
};
use crate::text::chars_of;

verus! {

/// A filesystem path, as the list of its components.
pub struct FsPath {
    pub parts: Vec<Vec<u8>>,
}

/// A path as a mathematical value: its components' bytes.
pub open spec fn path_view(p: FsPath) -> Seq<Seq<u8>> {
    p.parts@.map_values(|c: Vec<u8>| c@)
}

pub open spec fn paths_view(v: Seq<FsPath>) -> Seq<Seq<Seq<u8>>> {
    v.map_values(|p: FsPath| path_view(p))
}

/// `Path::starts_with`: `base`'s components are the first components of `p`.
pub open spec fn path_starts_with(p: Seq<Seq<u8>>, base: Seq<Seq<u8>>) -> bool {
    base.len() <= p.len() && p.take(base.len() as int) == base
}

/// The root component.
pub open spec fn is_root(c: Seq<u8>) -> bool {
    c == seq![47u8]
}

/// `Path::parent`: everything but the last component, unless the path is
/// empty or ends at the root.
pub open spec fn parent_spec(p: Seq<Seq<u8>>) -> Option<Seq<Seq<u8>>> {
    if p.len() == 0 || is_root(p.last()) {
        None
    } else {
        Some(p.drop_last())
    }
}

/// Where a component sorts among the kinds: the root, `.`, `..`, then
/// ordinary names (the order of `std::path::Component`).
pub open spec fn component_rank(c: Seq<u8>) -> int {
    if c == seq![47u8] {
        1
    } else if c == seq![46u8] {
        2
    } else if c == seq![46u8, 46u8] {
        3
    } else {
        4
    }
}

pub open spec fn bytes_text(c: Seq<u8>) -> Seq<char> {
    c.map_values(|b: u8| b as char)
}

/// The key a path sorts by: each component as its kind, then its bytes.
pub open spec fn path_key(p: Seq<Seq<u8>>) -> Seq<SpecPart>
    decreases p.len(),
{
    if p.len() == 0 {
        Seq::empty()
    } else {
        path_key(p.drop_last()) + seq![SpecPart::Int(component_rank(p.last())), SpecPart::Text(bytes_text(p.last()))]
    }
}

/// How two paths compare (`Ord for Path`): component by component.
pub open spec fn path_order(a: Seq<Seq<u8>>, b: Seq<Seq<u8>>) -> int {
    key_order(path_key(a), path_key(b))
}

/// Strictly increasing, as a `BTreeSet<PathBuf>` iterates.
pub open spec fn sorted_paths(v: Seq<Seq<Seq<u8>>>) -> bool {
    forall|i: int, j: int| 0 <= i < j < v.len() ==> path_order(v[i], v[j]) < 0
}

/// No chosen folder lies inside another chosen folder.
pub open spec fn antichain(v: Seq<Seq<Seq<u8>>>) -> bool {
    forall|i: int, j: int| 0 <= i < v.len() && 0 <= j < v.len() && i != j ==> !path_starts_with(v[i], v[j])
}

proof fn lemma_path_key_len(p: Seq<Seq<u8>>)
    ensures
        path_key(p).len() == 2 * p.len(),
    decreases p.len(),
{
    if p.len() > 0 {
        lemma_path_key_len(p.drop_last());
    }
}

proof fn lemma_path_key_injective(a: Seq<Seq<u8>>, b: Seq<Seq<u8>>)
    requires
        path_key(a) == path_key(b),
    ensures
        a == b,
    decreases a.len(),
{
    lemma_path_key_len(a);
    lemma_path_key_len(b);
    if a.len() == 0 {
        assert(a =~= b);
    } else {
        let ka = path_key(a);
        let n = ka.len();
        assert(ka[n - 1] == SpecPart::Text(bytes_text(a.last())));
        assert(path_key(b)[n - 1] == SpecPart::Text(bytes_text(b.last())));
        assert(bytes_text(a.last()) == bytes_text(b.last()));
        assert(a.last() =~= b.last()) by {
            assert(a.last().len() == bytes_text(a.last()).len());
            assert(b.last().len() == bytes_text(b.last()).len());
            assert forall|i: int| 0 <= i < a.last().len() implies a.last()[i] == b.last()[i] by {
                assert(bytes_text(a.last())[i] == bytes_text(b.last())[i]);
                assert(bytes_text(a.last())[i] == a.last()[i] as char);
                assert(bytes_text(b.last())[i] == b.last()[i] as char);
            }
        }
        assert(path_key(a.drop_last()) =~= ka.subrange(0, n - 2));
        assert(path_key(b.drop_last()) =~= ka.subrange(0, n - 2));
        lemma_path_key_injective(a.drop_last(), b.drop_last());
        assert(a =~= a.drop_last().push(a.last()));
        assert(b =~= b.drop_last().push(b.last()));
    }
}

pub proof fn lemma_path_order(a: Seq<Seq<u8>>, b: Seq<Seq<u8>>, c: Seq<Seq<u8>>)
    ensures
        path_order(a, b) == -path_order(b, a),
        path_order(a, b) == 0 ==> a == b,
        path_order(a, b) <= 0 && path_order(b, c) <= 0 ==> path_order(a, c) <= 0,
        path_order(a, b) <= 0 && path_order(b, c) <= 0 && (path_order(a, b) < 0 || path_order(b, c) < 0)
            ==> path_order(a, c) < 0,
{
    lemma_key_order(path_key(a), path_key(b), path_key(c));
    if path_order(a, b) == 0 {
        lemma_key_order_zero(path_key(a), path_key(b));
        lemma_path_key_injective(a, b);
    }
}

fn copy_bytes(v: &Vec<u8>) -> (r: Vec<u8>)
    ensures
        r@ == v@,
{
    let mut r: Vec<u8> = Vec::new();
    let mut i: usize = 0;
    while i < v.len()
        invariant
            i <= v.len(),
            r@ == v@.take(i as int),
        decreases v.len() - i,
    {
        r.push(v[i]);
        assert(v@.take(i + 1) == v@.take(i as int).push(v@[i as int]));
        i += 1;
    }
    assert(v@.take(v.len() as int) == v@);
    r
}

fn bytes_equal(a: &Vec<u8>, b: &Vec<u8>) -> (r: bool)
    ensures
        r == (a@ == b@),
{
    if a.len() != b.len() {
        return false;
    }
    let mut i: usize = 0;
    while i < a.len()
        invariant
            a.len() == b.len(),
            i <= a.len(),
            forall|j: int| 0 <= j < i ==> a@[j] == b@[j],
        decreases a.len() - i,
    {
        if a[i] != b[i] {
            return false;
        }
        i += 1;
    }
    assert(a@ =~= b@);
    true
}

impl FsPath {
    /// A copy of this path.
    pub fn copy(&self) -> (r: FsPath)
        ensures
            path_view(r) == path_view(*self),
    {
        let mut parts: Vec<Vec<u8>> = Vec::new();
        let mut i: usize = 0;
        while i < self.parts.len()
            invariant
                i <= self.parts.len(),
                parts@.len() == i,
                forall|j: int| 0 <= j < i ==> (#[trigger] parts@[j])@ == self.parts@[j]@,
            decreases self.parts.len() - i,
        {
            parts.push(copy_bytes(&self.parts[i]));
            i += 1;
        }
        let r = FsPath { parts };
        assert(path_view(r) =~= path_view(*self));
        r
    }

    /// `Path::join` with a single ordinary name.
    pub fn join(&self, name: &Vec<u8>) -> (r: FsPath)
        ensures
            path_view(r) == path_view(*self).push(name@),
    {
        let mut r = self.copy();
        r.parts.push(copy_bytes(name));
        assert(path_view(r) =~= path_view(*self).push(name@));
        r
    }

    /// Whether two paths are the same (`PartialEq for Path`).
    pub fn same_as(&self, other: &FsPath) -> (r: bool)
        ensures
            r == (path_view(*self) == path_view(*other)),
    {
        if self.parts.len() != other.parts.len() {
            return false;
        }
        let r = self.starts_with(other);
        assert(path_view(*self).take(path_view(*other).len() as int) =~= path_view(*self));
        r
    }

    /// `Path::starts_with`.
    pub fn starts_with(&self, base: &FsPath) -> (r: bool)
        ensures
            r == path_starts_with(path_view(*self), path_view(*base)),
    {
        let ghost p = path_view(*self);
        let ghost b = path_view(*base);
        if base.parts.len() > self.parts.len() {
            return false;
        }
        let mut i: usize = 0;
        while i < base.parts.len()
            invariant
                p == path_view(*self),
                b == path_view(*base),
                base.parts.len() <= self.parts.len(),
                i <= base.parts.len(),
                forall|j: int| 0 <= j < i ==> p[j] == b[j],
            decreases base.parts.len() - i,
        {
            if !bytes_equal(&self.parts[i], &base.parts[i]) {
                assert(p.take(b.len() as int)[i as int] != b[i as int]);
                return false;
            }
            i += 1;
        }
        assert(p.take(b.len() as int) =~= b);
        true
    }

    /// `Path::parent`.
    pub fn parent(&self) -> (r: Option<FsPath>)
        ensures
            r matches Some(q) ==> parent_spec(path_view(*self)) == Some(path_view(q)),
            r is None ==> parent_spec(path_view(*self)) is None,
    {
        let n = self.parts.len();
        if n == 0 {
            return None;
        }
        let last = &self.parts[n - 1];
        if last.len() == 1 && last[0] == 47u8 {
            assert(last@ =~= seq![47u8]);
            return None;
        }
        assert(!is_root(path_view(*self).last())) by {
            if is_root(path_view(*self).last()) {
                assert(last@[0] == 47u8);
            }
        }
        let mut parts: Vec<Vec<u8>> = Vec::new();
        let mut i: usize = 0;
        while i < n - 1
            invariant
                n == self.parts.len(),
                n > 0,
                i <= n - 1,
                parts@.len() == i,
                forall|j: int| 0 <= j < i ==> (#[trigger] parts@[j])@ == self.parts@[j]@,
            decreases n - 1 - i,
        {
            parts.push(copy_bytes(&self.parts[i]));
            i += 1;
        }
        let r = FsPath { parts };
        assert(path_view(r) =~= path_view(*self).drop_last());
        Some(r)
    }
}

fn rank_of(c: &Vec<u8>) -> (r: i64)
    ensures
        r as int == component_rank(c@),
{
    if c.len() == 1 && c[0] == 47u8 {
        assert(c@ =~= seq![47u8]);
        1
    } else if c.len() == 1 && c[0] == 46u8 {
        assert(c@ =~= seq![46u8]);
        2
    } else if c.len() == 2 && c[0] == 46u8 && c[1] == 46u8 {
        assert(c@ =~= seq![46u8, 46u8]);
        3
    } else {
        proof {
            if c@ == seq![47u8] || c@ == seq![46u8] {
                assert(c@[0] == seq![47u8][0] || c@[0] == seq![46u8][0]);
            }
            if c@ == seq![46u8, 46u8] {
                assert(c@[1] == 46u8);
            }
        }
        4
    }
}

fn text_of_bytes(c: &Vec<u8>) -> (r: Vec<char>)
    ensures
        r@ == bytes_text(c@),
{
    let mut r: Vec<char> = Vec::new();
    let mut i: usize = 0;
    while i < c.len()
        invariant
            i <= c.len(),
            r@ == bytes_text(c@.take(i as int)),
        decreases c.len() - i,
    {
        r.push(c[i] as char);
        assert(bytes_text(c@.take(i + 1)) =~= bytes_text(c@.take(i as int)).push(c@[i as int] as char));
        i += 1;
    }
    assert(c@.take(c.len() as int) == c@);
    r
}

/// The key a path sorts by.
fn path_key_exec(p: &FsPath) -> (k: Vec<KeyPart>)
    ensures
        key_view(k) == path_key(path_view(*p)),
{
    let ghost pv = path_view(*p);
    let mut k: Vec<KeyPart> = Vec::new();
    let mut i: usize = 0;
    while i < p.parts.len()
        invariant
            pv == path_view(*p),
            i <= p.parts.len(),
            key_view(k) == path_key(pv.take(i as int)),
        decreases p.parts.len() - i,
    {
        let ghost before_k = key_view(k);
        k.push(KeyPart::Int(rank_of(&p.parts[i])));
        k.push(KeyPart::Text(text_of_bytes(&p.parts[i])));
        assert(pv.take(i + 1).drop_last() =~= pv.take(i as int));
        assert(pv.take(i + 1).last() == pv[i as int]);
        assert(key_view(k) =~= before_k + seq![SpecPart::Int(component_rank(pv[i as int])), SpecPart::Text(bytes_text(pv[i as int]))]);
        i += 1;
    }
    assert(pv.take(p.parts.len() as int) =~= pv);
    k
}

/// How two paths compare.
pub fn compare_paths(a: &FsPath, b: &FsPath) -> (r: i8)
    ensures
        r as int == path_order(path_view(*a), path_view(*b)),
{
    let ka = path_key_exec(a);
    let kb = path_key_exec(b);
    compare_keys(&ka, &kb)
}

/// One folder of the listing.
pub struct Entry {
    pub name: String,
    pub path: FsPath,
    pub chosen: bool,
}

/// What reading the current directory gave for one of its entries: its name
/// for display, its file name, and whether it is a directory.
pub struct DirItem {
    pub name: String,
    pub file_name: Vec<u8>,
    pub is_dir: bool,
}

/// The folder chooser's state: where it is, and what is ticked.
pub struct Picker {
    pub cwd: FsPath,
    pub chosen: Vec<FsPath>,
}

/// Case-folded text (`str::to_lowercase`), as Unicode defines it.
pub uninterp spec fn lowercase_of(s: Seq<char>) -> Seq<char>;

/// `str::to_lowercase`: the string with every character mapped to its
/// Unicode lower case. The contract only names the result: it is a function
/// of the text alone.
#[verifier::external_body]
pub(crate) fn to_lowercase(s: &str) -> (r: String)
    ensures
        r@ == lowercase_of(s@),
{
    s.to_lowercase()
}

/// The three folder names tried under the home directory, in order:
/// `Musica`, `Música`, `Music`.
pub open spec fn music_names() -> Seq<Seq<u8>> {
    seq![
        seq![77u8, 117u8, 115u8, 105u8, 99u8, 97u8],
        seq![77u8, 195u8, 186u8, 115u8, 105u8, 99u8, 97u8],
        seq![77u8, 117u8, 115u8, 105u8, 99u8],
    ]
}

/// The first of `flags` that holds, if any.
pub open spec fn first_true(flags: Seq<bool>, n: int) -> Option<int>
    decreases n,
{
    if n <= 0 {
        None
    } else {
        match first_true(flags, n - 1) {
            Some(i) => Some(i),
            None => if flags[n - 1] {
                Some(n - 1)
            } else {
                None
            },
        }
    }
}

/// The places the chooser may start in: `~/Musica`, `~/Música` and `~/Music`.
pub fn music_candidates(home: &FsPath) -> (r: Vec<FsPath>)
    ensures
        r@.len() == 3,
        forall|i: int| 0 <= i < 3 ==> path_view(#[trigger] r@[i]) == path_view(*home).push(music_names()[i]),
{
    let mut r: Vec<FsPath> = Vec::new();
    let a: Vec<u8> = vec![77u8, 117u8, 115u8, 105u8, 99u8, 97u8];
    let b: Vec<u8> = vec![77u8, 195u8, 186u8, 115u8, 105u8, 99u8, 97u8];
    let c: Vec<u8> = vec![77u8, 117u8, 115u8, 105u8, 99u8];
    assert(a@ =~= music_names()[0]);
    assert(b@ =~= music_names()[1]);
    assert(c@ =~= music_names()[2]);
    r.push(home.join(&a));
    r.push(home.join(&b));
    r.push(home.join(&c));
    r
}

fn position_of(v: &Vec<FsPath>, p: &FsPath) -> (r: Option<usize>)
    ensures
        r matches Some(i) ==> i < v@.len() && path_view(v@[i as int]) == path_view(*p),
        r is None ==> !paths_view(v@).contains(path_view(*p)),
{
    let mut i: usize = 0;
    while i < v.len()
        invariant
            i <= v.len(),
            forall|j: int| 0 <= j < i ==> path_view(v@[j]) != path_view(*p),
        decreases v.len() - i,
    {
        if v[i].same_as(p) {
            return Some(i);
        }
        i += 1;
    }
    proof {
        if paths_view(v@).contains(path_view(*p)) {
            let j = choose|j: int| 0 <= j < paths_view(v@).len() && paths_view(v@)[j] == path_view(*p);
            assert(path_view(v@[j]) != path_view(*p));
        }
    }
    None
}

/// The entries of the current directory as the chooser lists them: folders
/// only, no dotfiles, each marked when chosen.
pub open spec fn listed(cwd: Seq<Seq<u8>>, chosen: Seq<Seq<Seq<u8>>>, items: Seq<DirItem>, n: int) -> Seq<(Seq<char>, Seq<Seq<u8>>, bool)>
    decreases n,
{
    if n <= 0 {
        Seq::empty()
    } else {
        let prev = listed(cwd, chosen, items, n - 1);
        let it = items[n - 1];
        if !it.is_dir || (it.name@.len() > 0 && it.name@[0] == '.') {
            prev
        } else {
            let path = cwd.push(it.file_name@);
            prev.push((it.name@, path, chosen.contains(path)))
        }
    }
}

/// What the listing sorts by: the lower-cased names.
pub open spec fn name_keys(l: Seq<(Seq<char>, Seq<Seq<u8>>, bool)>) -> Seq<Seq<SpecPart>> {
    Seq::new(l.len(), |k: int| seq![SpecPart::Text(lowercase_of(l[k].0))])
}

pub open spec fn entry_view(e: Entry) -> (Seq<char>, Seq<Seq<u8>>, bool) {
    (e.name@, path_view(e.path), e.chosen)
}

impl Picker {
    /// Start where the user's music most plausibly is: the first of
    /// `~/Musica`, `~/Música` and `~/Music` that is a directory
    /// (`is_dir[i]` for the i-th of [`music_candidates`]), else home.
    pub fn new(home: FsPath, is_dir: &Vec<bool>) -> (p: Picker)
        ensures
            p.chosen@.len() == 0,
            match first_true(is_dir@, if is_dir@.len() < 3 { is_dir@.len() as int } else { 3 }) {
                Some(i) => path_view(p.cwd) == path_view(home).push(music_names()[i]),
                None => path_view(p.cwd) == path_view(home),
            },
    {
        let cands = music_candidates(&home);
        let n: usize = if is_dir.len() < 3 { is_dir.len() } else { 3 };
        let mut i: usize = 0;
        while i < n
            invariant
                n <= 3,
                n <= is_dir@.len(),
                n == (if is_dir@.len() < 3 { is_dir@.len() as int } else { 3 }),
                i <= n,
                first_true(is_dir@, i as int) is None,
                cands@.len() == 3,
                forall|j: int| 0 <= j < 3 ==> path_view(#[trigger] cands@[j]) == path_view(home).push(music_names()[j]),
            decreases n - i,
        {
            if is_dir[i] {
                let cwd = cands[i].copy();
                assert(first_true(is_dir@, i + 1) == Some(i as int));
                proof {
                    lemma_first_true_stable(is_dir@, i + 1, n as int);
                }
                return Picker { cwd, chosen: Vec::new() };
            }
            i += 1;
        }
        Picker { cwd: home, chosen: Vec::new() }
    }

    /// The folders of the current directory, given what reading it returned
    /// (in the order the system returned it): directories only, dotfiles
    /// left out, each marked when chosen, in order of their lower-cased
    /// names, ties as read.
    pub fn entries(&self, items: Vec<DirItem>) -> (out: Vec<Entry>)
        ensures
            ({
                let l = listed(path_view(self.cwd), paths_view(self.chosen@), items@, items@.len() as int);
                &&& out@.len() == l.len()
                &&& exists|perm: Seq<usize>|
                    #[trigger] stable_order(name_keys(l), perm) && forall|k: int| 0 <= k < out@.len() ==> entry_view(#[trigger] out@[k]) == l[perm[k] as int]
            }),
    {
        let ghost l_all = listed(path_view(self.cwd), paths_view(self.chosen@), items@, items@.len() as int);
        let mut kept: Vec<Entry> = Vec::new();
        let mut i: usize = 0;
        while i < items.len()
            invariant
                i <= items.len(),
                kept@.len() == listed(path_view(self.cwd), paths_view(self.chosen@), items@, i as int).len(),
                forall|k: int| 0 <= k < kept@.len() ==> entry_view(#[trigger] kept@[k])
                    == listed(path_view(self.cwd), paths_view(self.chosen@), items@, i as int)[k],
            decreases items.len() - i,
        {
            let it = &items[i];
            let skip = if !it.is_dir {
                true
            } else {
                let nm = chars_of(it.name.as_str());
                nm.len() > 0 && nm[0] == '.'
            };
            if !skip {
                let path = self.cwd.join(&it.file_name);
                let pos = position_of(&self.chosen, &path);
                let chosen = pos.is_some();
                proof {
                    if let Some(w) = pos {
                        assert(paths_view(self.chosen@)[w as int] == path_view(path));
                    }
                    assert(chosen == paths_view(self.chosen@).contains(path_view(self.cwd).push(it.file_name@)));
                }
                let name = owned_string(&it.name);
                kept.push(Entry { name, path, chosen });
            }
            proof {
                let prev = listed(path_view(self.cwd), paths_view(self.chosen@), items@, i as int);
                let next = listed(path_view(self.cwd), paths_view(self.chosen@), items@, i + 1);
                if skip {
                    assert(next == prev);
                } else {
                    assert(next == prev.push((items@[i as int].name@, path_view(self.cwd).push(items@[i as int].file_name@),
                        paths_view(self.chosen@).contains(path_view(self.cwd).push(items@[i as int].file_name@)))));
                }
            }
            i += 1;
        }
        let ghost l = listed(path_view(self.cwd), paths_view(self.chosen@), items@, items@.len() as int);
        let mut keys: Vec<Vec<KeyPart>> = Vec::new();
        let mut k: usize = 0;
        while k < kept.len()
            invariant
                k <= kept.len(),
                kept@.len() == l.len(),
                forall|j: int| 0 <= j < kept@.len() ==> entry_view(#[trigger] kept@[j]) == l[j],
                keys@.len() == k,
                forall|j: int| 0 <= j < k ==> key_view(#[trigger] keys@[j]) == seq![SpecPart::Text(lowercase_of(l[j].0))],
            decreases kept.len() - k,
        {
            let low = to_lowercase(kept[k].name.as_str());
            let mut key: Vec<KeyPart> = Vec::new();
            key.push(KeyPart::Text(chars_of(low.as_str())));
            assert(key_view(key) =~= seq![SpecPart::Text(lowercase_of(l[k as int].0))]);
            keys.push(key);
            k += 1;
        }
        let ghost kspec = name_keys(l);
        assert(keys_view(keys@) =~= kspec);
        let perm = stable_sort(&keys);
        let mut out: Vec<Entry> = Vec::new();
        let mut q: usize = 0;
        while q < perm.len()
            invariant
                q <= perm.len(),
                perm@.len() == kept@.len(),
                stable_order(kspec, perm@),
                kspec.len() == kept@.len(),
                forall|j: int| 0 <= j < perm@.len() ==> (#[trigger] perm@[j]) < kept@.len(),
                out@.len() == q,
                forall|j: int| 0 <= j < q ==> entry_view(#[trigger] out@[j]) == entry_view(kept@[perm@[j] as int]),
            decreases perm.len() - q,
        {
            let e = &kept[perm[q]];
            out.push(Entry { name: owned_string(&e.name), path: e.path.copy(), chosen: e.chosen });
            q += 1;
        }
        proof {
            crate::sort::lemma_stable_order_is_permutation(kspec, perm@);
        }
        out
    }

    /// Go into a directory, if it is one (`is_dir`, which the caller asks the
    /// filesystem).
    pub fn enter(&mut self, path: &FsPath, is_dir: bool)
        ensures
            final(self).chosen == old(self).chosen,
            is_dir ==> path_view(final(self).cwd) == path_view(*path),
            !is_dir ==> final(self).cwd == old(self).cwd,
    {
        if is_dir {
            self.cwd = path.copy();
        }
    }

    /// Go up to the parent directory, if there is one.
    pub fn up(&mut self)
        ensures
            final(self).chosen == old(self).chosen,
            match parent_spec(path_view(old(self).cwd)) {
                Some(q) => path_view(final(self).cwd) == q,
                None => final(self).cwd == old(self).cwd,
            },
    {
        if let Some(parent) = self.cwd.parent() {
            self.cwd = parent;
        }
    }
}

proof fn lemma_first_true_stable(flags: Seq<bool>, i: int, n: int)
    requires
        0 < i <= n,
        first_true(flags, i) is Some,
    ensures
        first_true(flags, n) == first_true(flags, i),
    decreases n - i,
{
    if n > i {
        lemma_first_true_stable(flags, i, n - 1);
    }
}

fn owned_string(s: &String) -> (r: String)
    ensures
        r@ == s@,
{
    let c = chars_of(s.as_str());
    crate::text::string_of(c.as_slice())
}


/// What a tick or untick leaves chosen, as a set: unticking a chosen folder
/// removes it; ticking another one first drops its chosen descendants, then
/// adds it unless a chosen folder already contains it.
pub open spec fn toggled_contains(old_v: Seq<Seq<Seq<u8>>>, p: Seq<Seq<u8>>, x: Seq<Seq<u8>>) -> bool {
    if old_v.contains(p) {
        old_v.contains(x) && x != p
    } else {
        let kept = old_v.contains(x) && !path_starts_with(x, p);
        if exists|c: Seq<Seq<u8>>| #[trigger] old_v.contains(c) && !path_starts_with(c, p) && path_starts_with(p, c) {
            kept
        } else {
            kept || x == p
        }
    }
}

impl Picker {
    /// The chosen folders are in path order with none repeated, as a
    /// `BTreeSet<PathBuf>` keeps them.
    pub open spec fn wf(&self) -> bool {
        sorted_paths(paths_view(self.chosen@))
    }

    /// Tick or untick a folder.
    ///
    /// Choosing a folder drops any of its descendants that were already
    /// ticked (scanning both would walk the same files twice), and adds
    /// nothing when one of its ancestors is already ticked.
    pub fn toggle(&mut self, path: &FsPath)
        requires
            old(self).wf(),
        ensures
            final(self).wf(),
            final(self).cwd == old(self).cwd,
            forall|x: Seq<Seq<u8>>| #[trigger] paths_view(final(self).chosen@).contains(x)
                == toggled_contains(paths_view(old(self).chosen@), path_view(*path), x),
    {
        let ghost old_v = paths_view(self.chosen@);
        let ghost p = path_view(*path);
        if let Some(i) = position_of(&self.chosen, path) {
            let ghost before_v = paths_view(self.chosen@);
            self.chosen.remove(i);
            proof {
                let new_v = paths_view(self.chosen@);
                assert(new_v =~= before_v.remove(i as int));
                assert(old_v.contains(p)) by {
                    assert(old_v[i as int] == p);
                }
                assert forall|a: int, b: int| 0 <= a < b < new_v.len() implies path_order(new_v[a], new_v[b]) < 0 by {
                    let a2 = if a < i { a } else { a + 1 };
                    let b2 = if b < i { b } else { b + 1 };
                    assert(new_v[a] == old_v[a2]);
                    assert(new_v[b] == old_v[b2]);
                }
                assert forall|x: Seq<Seq<u8>>| #[trigger] new_v.contains(x) == toggled_contains(old_v, p, x) by {
                    if new_v.contains(x) {
                        let k = choose|k: int| 0 <= k < new_v.len() && new_v[k] == x;
                        let k2 = if k < i { k } else { k + 1 };
                        assert(old_v[k2] == x);
                        if x == p {
                            lemma_path_order(old_v[k2], old_v[i as int], old_v[k2]);
                        }
                    }
                    if old_v.contains(x) && x != p {
                        let k = choose|k: int| 0 <= k < old_v.len() && old_v[k] == x;
                        assert(k != i);
                        let k2 = if k < i { k } else { k - 1 };
                        assert(new_v[k2] == x);
                    }
                }
            }
            return;
        }
        // Drop every chosen descendant of `path`.
        let mut kept: Vec<FsPath> = Vec::new();
        let ghost mut srcs: Seq<int> = Seq::empty();
        let mut j: usize = 0;
        while j < self.chosen.len()
            invariant
                j <= self.chosen.len(),
                old_v == paths_view(self.chosen@),
                sorted_paths(old_v),
                p == path_view(*path),
                !old_v.contains(p),
                srcs.len() == kept@.len(),
                forall|k: int| 0 <= k < srcs.len() ==> 0 <= #[trigger] srcs[k] < j,
                forall|k: int, l: int| 0 <= k < l < srcs.len() ==> srcs[k] < srcs[l],
                forall|k: int| 0 <= k < kept@.len() ==> path_view(#[trigger] kept@[k]) == old_v[srcs[k]],
                forall|x: Seq<Seq<u8>>| #[trigger] paths_view(kept@).contains(x) == (exists|m: int| 0 <= m < j && old_v[m] == x && !path_starts_with(x, p)),
            decreases self.chosen.len() - j,
        {
            let ghost before_kept = kept@;
            let ghost before_srcs = srcs;
            let drop = self.chosen[j].starts_with(path);
            if !drop {
                kept.push(self.chosen[j].copy());
                proof {
                    srcs = srcs.push(j as int);
                }
            }
            proof {
                assert forall|k: int| 0 <= k < kept@.len() implies path_view(#[trigger] kept@[k]) == old_v[srcs[k]] by {
                    if k < before_kept.len() {
                        assert(kept@[k] == before_kept[k]);
                        assert(srcs[k] == before_srcs[k]);
                    }
                }
                assert forall|x: Seq<Seq<u8>>| #[trigger] paths_view(kept@).contains(x) == (exists|m: int| 0 <= m < j + 1 && old_v[m] == x && !path_starts_with(x, p)) by {
                    if paths_view(kept@).contains(x) {
                        let k = choose|k: int| 0 <= k < paths_view(kept@).len() && paths_view(kept@)[k] == x;
                        if k < before_kept.len() {
                            assert(paths_view(before_kept)[k] == x);
                            assert(paths_view(before_kept).contains(x));
                        } else {
                            assert(old_v[j as int] == x);
                        }
                    }
                    if exists|m: int| 0 <= m < j + 1 && old_v[m] == x && !path_starts_with(x, p) {
                        let m = choose|m: int| 0 <= m < j + 1 && old_v[m] == x && !path_starts_with(x, p);
                        if m < j {
                            assert(paths_view(before_kept).contains(x));
                            let k = choose|k: int| 0 <= k < paths_view(before_kept).len() && paths_view(before_kept)[k] == x;
                            assert(paths_view(kept@)[k] == x);
                        } else {
                            assert(paths_view(kept@)[kept@.len() - 1] == x);
                        }
                    }
                }
            }
            j += 1;
        }
        let ghost kv = paths_view(kept@);
        proof {
            assert forall|a: int, b: int| 0 <= a < b < kv.len() implies path_order(kv[a], kv[b]) < 0 by {
                assert(kv[a] == path_view(kept@[a]));
                assert(kv[b] == path_view(kept@[b]));
                assert(srcs[a] < srcs[b]);
            }
            assert forall|x: Seq<Seq<u8>>| #[trigger] kv.contains(x) == (old_v.contains(x) && !path_starts_with(x, p)) by {
                if old_v.contains(x) && !path_starts_with(x, p) {
                    let m = choose|m: int| 0 <= m < old_v.len() && old_v[m] == x;
                    assert(old_v[m] == x && !path_starts_with(x, p));
                }
            }
        }
        // An ancestor already chosen makes this one redundant.
        let mut covered = false;
        let mut a: usize = 0;
        while a < kept.len()
            invariant
                a <= kept.len(),
                kv == paths_view(kept@),
                !covered ==> forall|m: int| 0 <= m < a ==> !path_starts_with(p, kv[m]),
                covered ==> exists|m: int| 0 <= m < kv.len() && path_starts_with(p, kv[m]),
                p == path_view(*path),
            decreases kept.len() - a,
        {
            if path.starts_with(&kept[a]) {
                proof {
                    assert(kv[a as int] == path_view(kept@[a as int]));
                    assert(path_starts_with(p, kv[a as int]));
                }
                covered = true;
            }
            proof {
                assert(kv[a as int] == path_view(kept@[a as int]));
            }
            a += 1;
        }
        proof {
            let ex = exists|c: Seq<Seq<u8>>| #[trigger] old_v.contains(c) && !path_starts_with(c, p) && path_starts_with(p, c);
            if covered {
                let m = choose|m: int| 0 <= m < kv.len() && path_starts_with(p, kv[m]);
                assert(kv.contains(kv[m]));
                assert(old_v.contains(kv[m]) && !path_starts_with(kv[m], p));
                assert(ex);
            } else {
                if ex {
                    let c = choose|c: Seq<Seq<u8>>| #[trigger] old_v.contains(c) && !path_starts_with(c, p) && path_starts_with(p, c);
                    assert(kv.contains(c));
                    let m = choose|m: int| 0 <= m < kv.len() && kv[m] == c;
                    assert(!path_starts_with(p, kv[m]));
                }
            }
        }
        if covered {
            self.chosen = kept;
            proof {
                assert forall|x: Seq<Seq<u8>>| #[trigger] paths_view(self.chosen@).contains(x)
                    == toggled_contains(old_v, p, x) by {}
            }
            return;
        }
        // Insert `path` where it sorts.
        proof {
            assert(!kv.contains(p));
        }
        let mut pos: usize = 0;
        loop
            invariant
                pos <= kept.len(),
                kv == paths_view(kept@),
                p == path_view(*path),
                forall|m: int| 0 <= m < pos ==> path_order(kv[m], p) < 0,
            ensures
                pos <= kept.len(),
                forall|m: int| 0 <= m < pos ==> path_order(kv[m], p) < 0,
                pos < kept.len() ==> path_order(kv[pos as int], p) >= 0,
            decreases kept.len() - pos,
        {
            if pos >= kept.len() {
                break;
            }
            let c = compare_paths(&kept[pos], path);
            proof {
                assert(kv[pos as int] == path_view(kept@[pos as int]));
            }
            if c >= 0 {
                break;
            }
            pos += 1;
        }
        proof {
            if pos < kept.len() {
                assert(path_order(kv[pos as int], p) >= 0);
                if path_order(kv[pos as int], p) == 0 {
                    lemma_path_order(kv[pos as int], p, p);
                    assert(kv.contains(p));
                }
            }
        }
        kept.insert(pos, path.copy());
        proof {
            let nv = paths_view(kept@);
            assert(nv =~= kv.insert(pos as int, p));
            assert forall|a: int, b: int| 0 <= a < b < nv.len() implies path_order(nv[a], nv[b]) < 0 by {
                if b < pos {
                } else if b == pos {
                    assert(nv[a] == kv[a]);
                } else if a < pos {
                    assert(nv[a] == kv[a]);
                    assert(nv[b] == kv[b - 1]);
                    if b - 1 > pos {
                        lemma_path_order(p, kv[pos as int], kv[b - 1]);
                        lemma_path_order(kv[a], p, kv[b - 1]);
                    } else {
                        lemma_path_order(kv[pos as int], p, kv[pos as int]);
                        lemma_path_order(kv[a], p, kv[b - 1]);
                    }
                } else if a == pos {
                    assert(nv[b] == kv[b - 1]);
                    lemma_path_order(kv[pos as int], p, kv[pos as int]);
                    if b - 1 > pos {
                        lemma_path_order(p, kv[pos as int], kv[b - 1]);
                    }
                } else {
                    assert(nv[a] == kv[a - 1]);
                    assert(nv[b] == kv[b - 1]);
                }
            }
            assert forall|x: Seq<Seq<u8>>| #[trigger] nv.contains(x) == toggled_contains(old_v, p, x) by {
                if nv.contains(x) {
                    let k = choose|k: int| 0 <= k < nv.len() && nv[k] == x;
                    if k < pos {
                        assert(kv[k] == x);
                        assert(kv.contains(x));
                    } else if k > pos {
                        assert(kv[k - 1] == x);
                        assert(kv.contains(x));
                    }
                }
                if kv.contains(x) {
                    let k = choose|k: int| 0 <= k < kv.len() && kv[k] == x;
                    if k < pos {
                        assert(nv[k] == x);
                    } else {
                        assert(nv[k + 1] == x);
                    }
                }
                if x == p {
                    assert(nv[pos as int] == p);
                }
            }
        }
        self.chosen = kept;
    }
}

/// Toggling keeps the chosen folders an antichain: no chosen folder ever
/// ends up inside another chosen folder, so a scan never walks the same
/// files twice.
pub proof fn toggle_keeps_antichain(old_v: Seq<Seq<Seq<u8>>>, new_v: Seq<Seq<Seq<u8>>>, p: Seq<Seq<u8>>)
    requires
        antichain(old_v),
        sorted_paths(old_v),
        sorted_paths(new_v),
        forall|x: Seq<Seq<u8>>| #[trigger] new_v.contains(x) == toggled_contains(old_v, p, x),
    ensures
        antichain(new_v),
{
    assert forall|i: int, j: int| 0 <= i < new_v.len() && 0 <= j < new_v.len() && i != j implies !path_starts_with(new_v[i], new_v[j]) by {
        let x = new_v[i];
        let y = new_v[j];
        assert(new_v.contains(x) && new_v.contains(y));
        if x == y {
            lemma_path_order(x, y, x);
            if i < j {
                assert(path_order(new_v[i], new_v[j]) < 0);
            } else {
                assert(path_order(new_v[j], new_v[i]) < 0);
            }
        }
        if path_starts_with(x, y) {
            if old_v.contains(x) && old_v.contains(y) {
                let a = choose|a: int| 0 <= a < old_v.len() && old_v[a] == x;
                let b = choose|b: int| 0 <= b < old_v.len() && old_v[b] == y;
                assert(a != b);
            } else if x == p {
                // y is a kept folder that contains p: then p is not added.
                assert(old_v.contains(y) && !path_starts_with(y, p));
                assert(old_v.contains(y) && !path_starts_with(y, p) && path_starts_with(p, y));
                assert(!old_v.contains(p));
            } else {
                // y == p and x was kept, so x is not a descendant of p.
                assert(y == p);
            }
        }
    }
}

} // verus!
