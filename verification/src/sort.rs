//! Stable sorting by composite keys.
//!
//! Every list the library orders (the table, a folder's entries, the console
//! drop-down, name suggestions, a file's subsongs) is ordered by a key made of
//! integers and strings, with ties left in the order they came in — which is
//! what `slice::sort_by` and `sort_by_key` promise. Here that is one merge
//! sort over positions, proved to return the unique order in which keys never
//! go down and equal keys keep the order they came in.

use vstd::prelude::*;
use crate::text::{compare_text, lemma_text_order_antisym, lemma_text_order_eq, lemma_text_order_range, lemma_text_order_trans, text_order};

verus! {

/// One component of a sort key.
pub enum KeyPart {
    Int(i64),
    Text(Vec<char>),
}

/// A key component as a mathematical value.
pub enum SpecPart {
    Int(int),
    Text(Seq<char>),
}

pub open spec fn part_view(p: KeyPart) -> SpecPart {
    match p {
        KeyPart::Int(x) => SpecPart::Int(x as int),
        KeyPart::Text(v) => SpecPart::Text(v@),
    }
}

/// A key as a sequence of mathematical components.
pub open spec fn key_view(k: Vec<KeyPart>) -> Seq<SpecPart> {
    k@.map_values(|p: KeyPart| part_view(p))
}

/// Every key of a list, as mathematical values.
pub open spec fn keys_view(keys: Seq<Vec<KeyPart>>) -> Seq<Seq<SpecPart>> {
    keys.map_values(|k: Vec<KeyPart>| key_view(k))
}

/// How two key components compare: integers numerically, strings as `str`
/// does. (An integer never meets a string in the same position.)
pub open spec fn part_order(a: SpecPart, b: SpecPart) -> int {
    match a {
        SpecPart::Int(x) => match b {
            SpecPart::Int(y) => if x < y {
                -1
            } else if x > y {
                1
            } else {
                0
            },
            SpecPart::Text(_) => -1,
        },
        SpecPart::Text(x) => match b {
            SpecPart::Int(_) => 1,
            SpecPart::Text(y) => text_order(x, y),
        },
    }
}

/// How two keys compare: component by component, like a tuple.
pub open spec fn key_order(a: Seq<SpecPart>, b: Seq<SpecPart>) -> int
    decreases a.len(),
{
    if a.len() == 0 {
        if b.len() == 0 {
            0
        } else {
            -1
        }
    } else if b.len() == 0 {
        1
    } else if part_order(a[0], b[0]) != 0 {
        part_order(a[0], b[0])
    } else {
        key_order(a.drop_first(), b.drop_first())
    }
}

pub proof fn lemma_part_order(a: SpecPart, b: SpecPart, c: SpecPart)
    ensures
        -1 <= part_order(a, b) <= 1,
        part_order(a, b) == -part_order(b, a),
        part_order(a, b) <= 0 && part_order(b, c) <= 0 ==> part_order(a, c) <= 0,
        part_order(a, b) <= 0 && part_order(b, c) <= 0 && (part_order(a, b) < 0 || part_order(b, c) < 0)
            ==> part_order(a, c) < 0,
{
    match (a, b, c) {
        (SpecPart::Text(x), SpecPart::Text(y), SpecPart::Text(z)) => {
            lemma_text_order_range(x, y);
            lemma_text_order_antisym(x, y);
            if text_order(x, y) <= 0 && text_order(y, z) <= 0 {
                lemma_text_order_trans(x, y, z);
            }
        },
        (SpecPart::Text(x), SpecPart::Text(y), _) => {
            lemma_text_order_range(x, y);
            lemma_text_order_antisym(x, y);
        },
        _ => {},
    }
}

pub proof fn lemma_key_order(a: Seq<SpecPart>, b: Seq<SpecPart>, c: Seq<SpecPart>)
    ensures
        -1 <= key_order(a, b) <= 1,
        key_order(a, b) == -key_order(b, a),
        key_order(a, b) <= 0 && key_order(b, c) <= 0 ==> key_order(a, c) <= 0,
        key_order(a, b) <= 0 && key_order(b, c) <= 0 && (key_order(a, b) < 0 || key_order(b, c) < 0)
            ==> key_order(a, c) < 0,
    decreases a.len(),
{
    if a.len() > 0 && b.len() > 0 && c.len() > 0 {
        lemma_part_order(a[0], b[0], c[0]);
        lemma_part_order(b[0], c[0], a[0]);
        lemma_part_order(a[0], c[0], b[0]);
        lemma_key_order(a.drop_first(), b.drop_first(), c.drop_first());
    } else if a.len() > 0 && b.len() > 0 {
        lemma_part_order(a[0], b[0], a[0]);
        let e: Seq<SpecPart> = Seq::empty();
        lemma_key_order(a.drop_first(), b.drop_first(), e);
    }
}

pub proof fn lemma_key_order_zero(a: Seq<SpecPart>, b: Seq<SpecPart>)
    requires
        key_order(a, b) == 0,
    ensures
        a == b,
    decreases a.len(),
{
    if a.len() == 0 {
        assert(a =~= b);
    } else {
        match (a[0], b[0]) {
            (SpecPart::Text(x), SpecPart::Text(y)) => {
                lemma_text_order_eq(x, y);
            },
            _ => {},
        }
        lemma_key_order_zero(a.drop_first(), b.drop_first());
        assert(a =~= seq![a[0]] + a.drop_first());
        assert(b =~= seq![b[0]] + b.drop_first());
    }
}

/// Position `x` comes before position `y`: a smaller key, or an equal key
/// and an earlier position.
pub open spec fn before(keys: Seq<Seq<SpecPart>>, x: int, y: int) -> bool {
    key_order(keys[x], keys[y]) < 0 || (key_order(keys[x], keys[y]) == 0 && x < y)
}

pub proof fn lemma_before_trans(keys: Seq<Seq<SpecPart>>, x: int, y: int, z: int)
    requires
        before(keys, x, y),
        before(keys, y, z),
    ensures
        before(keys, x, z),
{
    lemma_key_order(keys[x], keys[y], keys[z]);
}

pub proof fn lemma_before_total(keys: Seq<Seq<SpecPart>>, x: int, y: int)
    requires
        x != y,
    ensures
        before(keys, x, y) || before(keys, y, x),
        !(before(keys, x, y) && before(keys, y, x)),
{
    lemma_key_order(keys[x], keys[y], keys[x]);
}

/// `s` holds positions in strictly increasing `before` order.
pub open spec fn ordered(keys: Seq<Seq<SpecPart>>, s: Seq<usize>) -> bool {
    forall|k: int, l: int| 0 <= k < l < s.len() ==> before(keys, s[k] as int, s[l] as int)
}

/// Position `j` occurs in `s`.
pub open spec fn has_pos(s: Seq<usize>, j: int) -> bool {
    s.contains(j as usize)
}

/// `perm` lists every position `lo..hi` exactly once, in `before` order.
pub open spec fn sorted_range(keys: Seq<Seq<SpecPart>>, perm: Seq<usize>, lo: int, hi: int) -> bool {
    &&& perm.len() == hi - lo
    &&& forall|k: int| 0 <= k < perm.len() ==> lo <= #[trigger] perm[k] < hi
    &&& forall|j: int| lo <= j < hi ==> #[trigger] has_pos(perm, j)
    &&& ordered(keys, perm)
}

/// The stable order of all positions of `keys`: every position once, keys
/// never decreasing, equal keys in the order they came in.
pub open spec fn stable_order(keys: Seq<Seq<SpecPart>>, perm: Seq<usize>) -> bool {
    sorted_range(keys, perm, 0, keys.len() as int)
}

/// Compare two keys.
pub fn compare_keys(a: &Vec<KeyPart>, b: &Vec<KeyPart>) -> (r: i8)
    ensures
        r as int == key_order(key_view(*a), key_view(*b)),
{
    let ghost av = key_view(*a);
    let ghost bv = key_view(*b);
    let mut i: usize = 0;
    assert(av.skip(0) == av && bv.skip(0) == bv);
    while i < a.len() && i < b.len()
        invariant
            i <= a.len(),
            i <= b.len(),
            av == key_view(*a),
            bv == key_view(*b),
            key_order(av, bv) == key_order(av.skip(i as int), bv.skip(i as int)),
        decreases a.len() - i,
    {
        let c: i8 = match (&a[i], &b[i]) {
            (KeyPart::Int(x), KeyPart::Int(y)) => {
                if *x < *y {
                    -1
                } else if *x > *y {
                    1
                } else {
                    0
                }
            },
            (KeyPart::Text(x), KeyPart::Text(y)) => compare_text(x.as_slice(), y.as_slice()),
            (KeyPart::Int(_), KeyPart::Text(_)) => -1,
            (KeyPart::Text(_), KeyPart::Int(_)) => 1,
        };
        assert(c as int == part_order(av[i as int], bv[i as int]));
        if c != 0 {
            return c;
        }
        assert(av.skip(i as int).drop_first() == av.skip(i + 1));
        assert(bv.skip(i as int).drop_first() == bv.skip(i + 1));
        i += 1;
    }
    if i == a.len() {
        if i == b.len() {
            0
        } else {
            -1
        }
    } else {
        1
    }
}

fn merge(keys: &Vec<Vec<KeyPart>>, a: Vec<usize>, b: Vec<usize>, lo: Ghost<int>, mid: Ghost<int>, hi: Ghost<int>) -> (r: Vec<usize>)
    requires
        0 <= lo@ <= mid@ <= hi@ <= keys@.len(),
        sorted_range(keys_view(keys@), a@, lo@, mid@),
        sorted_range(keys_view(keys@), b@, mid@, hi@),
    ensures
        sorted_range(keys_view(keys@), r@, lo@, hi@),
{
    let mut r: Vec<usize> = Vec::new();
    let mut i: usize = 0;
    let mut j: usize = 0;
    while i < a.len() || j < b.len()
        invariant
            0 <= lo@ <= mid@ <= hi@ <= keys@.len(),
            sorted_range(keys_view(keys@), a@, lo@, mid@),
            sorted_range(keys_view(keys@), b@, mid@, hi@),
            i <= a.len(),
            j <= b.len(),
            r.len() == i + j,
            forall|k: int| 0 <= k < r.len() ==> (exists|m: int| 0 <= m < i && a@[m] == #[trigger] r@[k])
                || (exists|m: int| 0 <= m < j && b@[m] == r@[k]),
            forall|m: int| 0 <= m < i ==> r@.contains(#[trigger] a@[m]),
            forall|m: int| 0 <= m < j ==> r@.contains(#[trigger] b@[m]),
            ordered(keys_view(keys@), r@),
            r.len() > 0 && i < a.len() ==> before(keys_view(keys@), r@[r.len() - 1] as int, a@[i as int] as int),
            r.len() > 0 && j < b.len() ==> before(keys_view(keys@), r@[r.len() - 1] as int, b@[j as int] as int),
        decreases a.len() + b.len() - i - j,
    {
        let take_a = if i < a.len() && j < b.len() {
            let c = compare_keys(&keys[a[i]], &keys[b[j]]);
            assert(keys_view(keys@)[a@[i as int] as int] == key_view(keys@[a@[i as int] as int]));
            assert(keys_view(keys@)[b@[j as int] as int] == key_view(keys@[b@[j as int] as int]));
            c < 0 || (c == 0 && a[i] < b[j])
        } else {
            i < a.len()
        };
        let ghost old_r = r@;
        if take_a {
            let x = a[i];
            proof {
                if j < b.len() {
                    assert(before(keys_view(keys@), x as int, b@[j as int] as int));
                }
                if i + 1 < a.len() {
                    assert(before(keys_view(keys@), a@[i as int] as int, a@[i + 1] as int));
                }
                assert forall|k: int, l: int| 0 <= k < l < old_r.len() + 1 implies before(keys_view(keys@), old_r.push(x)[k] as int, old_r.push(x)[l] as int) by {
                    if l == old_r.len() {
                        if k < old_r.len() - 1 {
                            lemma_before_trans(keys_view(keys@), old_r[k] as int, old_r[old_r.len() - 1] as int, x as int);
                        }
                    }
                }
            }
            r.push(x);
            i += 1;
            proof {
                assert(r@ == old_r.push(x));
                assert(r@[r.len() - 1] == x);
                assert(r@.contains(x));
                assert forall|m: int| 0 <= m < i implies r@.contains(#[trigger] a@[m]) by {
                    if m < i - 1 {
                        assert(old_r.contains(a@[m]));
                        let w = choose|w: int| 0 <= w < old_r.len() && old_r[w] == a@[m];
                        assert(r@[w] == a@[m]);
                    }
                }
                assert forall|m: int| 0 <= m < j implies r@.contains(#[trigger] b@[m]) by {
                    assert(old_r.contains(b@[m]));
                    let w = choose|w: int| 0 <= w < old_r.len() && old_r[w] == b@[m];
                    assert(r@[w] == b@[m]);
                }
                assert forall|k: int| 0 <= k < r.len() implies (exists|m: int| 0 <= m < i && a@[m] == #[trigger] r@[k])
                    || (exists|m: int| 0 <= m < j && b@[m] == r@[k]) by {
                    if k == r.len() - 1 {
                        assert(a@[i - 1] == r@[k]);
                    } else {
                        assert(r@[k] == old_r[k]);
                    }
                }
            }
        } else {
            let x = b[j];
            proof {
                if i < a.len() {
                    assert(a@.contains(a@[i as int]));
                    assert(b@.contains(b@[j as int]));
                    assert(a@[i as int] != b@[j as int]);
                    lemma_before_total(keys_view(keys@), a@[i as int] as int, b@[j as int] as int);
                    assert(before(keys_view(keys@), x as int, a@[i as int] as int));
                }
                if j + 1 < b.len() {
                    assert(before(keys_view(keys@), b@[j as int] as int, b@[j + 1] as int));
                }
                assert forall|k: int, l: int| 0 <= k < l < old_r.len() + 1 implies before(keys_view(keys@), old_r.push(x)[k] as int, old_r.push(x)[l] as int) by {
                    if l == old_r.len() {
                        if k < old_r.len() - 1 {
                            lemma_before_trans(keys_view(keys@), old_r[k] as int, old_r[old_r.len() - 1] as int, x as int);
                        }
                    }
                }
            }
            r.push(x);
            j += 1;
            proof {
                assert(r@ == old_r.push(x));
                assert(r@[r.len() - 1] == x);
                assert(r@.contains(x));
                assert forall|m: int| 0 <= m < i implies r@.contains(#[trigger] a@[m]) by {
                    assert(old_r.contains(a@[m]));
                    let w = choose|w: int| 0 <= w < old_r.len() && old_r[w] == a@[m];
                    assert(r@[w] == a@[m]);
                }
                assert forall|m: int| 0 <= m < j implies r@.contains(#[trigger] b@[m]) by {
                    if m < j - 1 {
                        assert(old_r.contains(b@[m]));
                        let w = choose|w: int| 0 <= w < old_r.len() && old_r[w] == b@[m];
                        assert(r@[w] == b@[m]);
                    }
                }
                assert forall|k: int| 0 <= k < r.len() implies (exists|m: int| 0 <= m < i && a@[m] == #[trigger] r@[k])
                    || (exists|m: int| 0 <= m < j && b@[m] == r@[k]) by {
                    if k == r.len() - 1 {
                        assert(b@[j - 1] == r@[k]);
                    } else {
                        assert(r@[k] == old_r[k]);
                    }
                }
            }
        }
    }
    proof {
        assert forall|k: int| 0 <= k < r@.len() implies lo@ <= #[trigger] r@[k] < hi@ by {
            if exists|m: int| 0 <= m < i && a@[m] == r@[k] {
                let m = choose|m: int| 0 <= m < i && a@[m] == r@[k];
                assert(lo@ <= a@[m] < mid@);
            } else {
                let m = choose|m: int| 0 <= m < j && b@[m] == r@[k];
                assert(mid@ <= b@[m] < hi@);
            }
        }
        assert forall|x: int| lo@ <= x < hi@ implies #[trigger] has_pos(r@, x) by {
            if x < mid@ {
                assert(has_pos(a@, x));
                let m = choose|m: int| 0 <= m < a@.len() && a@[m] == x as usize;
                assert(r@.contains(a@[m]));
            } else {
                assert(has_pos(b@, x));
                let m = choose|m: int| 0 <= m < b@.len() && b@[m] == x as usize;
                assert(r@.contains(b@[m]));
            }
        }
    }
    r
}

fn sort_range(keys: &Vec<Vec<KeyPart>>, lo: usize, hi: usize) -> (r: Vec<usize>)
    requires
        lo <= hi <= keys@.len(),
    ensures
        sorted_range(keys_view(keys@), r@, lo as int, hi as int),
    decreases hi - lo,
{
    if hi - lo == 0 {
        let r: Vec<usize> = Vec::new();
        return r;
    }
    if hi - lo == 1 {
        let mut r: Vec<usize> = Vec::new();
        r.push(lo);
        assert(r@[0] == lo);
        assert(has_pos(r@, lo as int));
        return r;
    }
    let mid = lo + (hi - lo) / 2;
    let a = sort_range(keys, lo, mid);
    let b = sort_range(keys, mid, hi);
    merge(keys, a, b, Ghost(lo as int), Ghost(mid as int), Ghost(hi as int))
}

/// The positions of `keys` in stable sorted order.
pub fn stable_sort(keys: &Vec<Vec<KeyPart>>) -> (perm: Vec<usize>)
    ensures
        stable_order(keys_view(keys@), perm@),
{
    sort_range(keys, 0, keys.len())
}

/// `perm` lists each position of a list of length `n` exactly once.
pub open spec fn is_permutation(perm: Seq<usize>, n: int) -> bool {
    &&& perm.len() == n
    &&& forall|k: int| 0 <= k < perm.len() ==> 0 <= #[trigger] perm[k] < n
    &&& forall|k: int, l: int| 0 <= k < l < perm.len() ==> perm[k] != perm[l]
}

pub proof fn lemma_stable_order_is_permutation(keys: Seq<Seq<SpecPart>>, perm: Seq<usize>)
    requires
        stable_order(keys, perm),
    ensures
        is_permutation(perm, keys.len() as int),
{
    assert forall|k: int, l: int| 0 <= k < l < perm.len() implies perm[k] != perm[l] by {
        assert(before(keys, perm[k] as int, perm[l] as int));
        if perm[k] == perm[l] {
            lemma_key_order(keys[perm[k] as int], keys[perm[k] as int], keys[perm[k] as int]);
        }
    }
}

} // verus!
