//! "Follow the system" for the theme: what the settings portal's
//! `org.freedesktop.appearance color-scheme` reply says about dark mode.

use vstd::prelude::*;
use crate::text::{chars_of, is_ws, is_whitespace, trim_end_ws};

verus! {

/// The run of non-whitespace characters that ends `s`.
pub open spec fn trailing_word(s: Seq<char>) -> Seq<char>
    decreases s.len(),
{
    if s.len() > 0 && !is_ws(s.last()) {
        trailing_word(s.drop_last()).push(s.last())
    } else {
        Seq::empty()
    }
}

/// `str::split_whitespace().last()`.
pub open spec fn last_word(s: Seq<char>) -> Option<Seq<char>> {
    let t = trim_end_ws(s);
    if t.len() == 0 {
        None
    } else {
        Some(trailing_word(t))
    }
}

/// Whether `c` is an ASCII digit.
pub open spec fn is_digit(c: char) -> bool {
    '0' <= c && c <= '9'
}

/// The value of a string of ASCII digits.
pub open spec fn digits_value(d: Seq<char>) -> nat
    decreases d.len(),
{
    if d.len() == 0 {
        0
    } else {
        digits_value(d.drop_last()) * 10 + ((d.last() as u32) - 48) as nat
    }
}

/// What follows an optional leading `+`.
pub open spec fn unsigned_body(s: Seq<char>) -> Seq<char> {
    if s.len() > 0 && s[0] == '+' { s.drop_first() } else { s }
}

/// `u8::from_str`: an optional `+`, then one or more ASCII digits, of value
/// at most 255.
pub open spec fn parse_u8_spec(s: Seq<char>) -> Option<u8> {
    let d = unsigned_body(s);
    if d.len() > 0 && (forall|i: int| 0 <= i < d.len() ==> is_digit(#[trigger] d[i])) && digits_value(d) <= 255 {
        Some(digits_value(d) as u8)
    } else {
        None
    }
}

/// The portal's reply, printed as `v u 1`, as a scheme: 1 dark, 2 light,
/// 0 for anything else (no preference, or an unreadable reply).
pub open spec fn scheme_spec(reply: Seq<char>) -> u8 {
    match last_word(reply) {
        Some(w) => match parse_u8_spec(w) {
            Some(1) => 1,
            Some(2) => 2,
            _ => 0,
        },
        None => 0,
    }
}

proof fn lemma_trailing_word(s: Seq<char>, k: int)
    requires
        0 <= k <= s.len(),
        forall|i: int| k <= i < s.len() ==> !is_ws(#[trigger] s[i]),
        k == 0 || is_ws(s[k - 1]),
    ensures
        trailing_word(s) == s.subrange(k, s.len() as int),
    decreases s.len(),
{
    if s.len() > k {
        lemma_trailing_word(s.drop_last(), k);
        assert(s.subrange(k, s.len() as int) =~= s.drop_last().subrange(k, s.len() - 1).push(s.last()));
    } else {
        assert(s.subrange(k, s.len() as int) =~= Seq::<char>::empty());
        if s.len() > 0 {
            assert(is_ws(s.last()));
        }
    }
}

proof fn lemma_trim_end(s: Seq<char>, e: int)
    requires
        0 <= e <= s.len(),
        forall|i: int| e <= i < s.len() ==> is_ws(#[trigger] s[i]),
        e == 0 || !is_ws(s[e - 1]),
    ensures
        trim_end_ws(s) == s.subrange(0, e),
    decreases s.len(),
{
    if s.len() > e {
        lemma_trim_end(s.drop_last(), e);
        assert(s.drop_last().subrange(0, e) =~= s.subrange(0, e));
    } else {
        assert(s.subrange(0, e) =~= s);
    }
}

/// The last whitespace-separated word of `s`.
pub fn last_word_of(s: &[char]) -> (r: Option<Vec<char>>)
    ensures
        r matches Some(w) ==> last_word(s@) == Some(w@),
        r is None ==> last_word(s@) is None,
{
    let mut e: usize = s.len();
    while e > 0 && is_whitespace(s[e - 1])
        invariant
            e <= s.len(),
            forall|i: int| e <= i < s.len() ==> is_ws(#[trigger] s@[i]),
        decreases e,
    {
        e -= 1;
    }
    proof {
        lemma_trim_end(s@, e as int);
    }
    if e == 0 {
        return None;
    }
    let mut b: usize = e;
    while b > 0 && !is_whitespace(s[b - 1])
        invariant
            b <= e <= s.len(),
            forall|i: int| b <= i < e ==> !is_ws(#[trigger] s@[i]),
        decreases b,
    {
        b -= 1;
    }
    let ghost t = s@.subrange(0, e as int);
    proof {
        lemma_trailing_word(t, b as int);
        assert(t.subrange(b as int, e as int) =~= s@.subrange(b as int, e as int));
    }
    Some(crate::text::slice_chars(s, b, e))
}

/// `u8::from_str`.
pub fn parse_u8(s: &[char]) -> (r: Option<u8>)
    ensures
        r == parse_u8_spec(s@),
{
    let start: usize = if s.len() > 0 && s[0] == '+' { 1 } else { 0 };
    let ghost d = unsigned_body(s@);
    assert(d =~= s@.subrange(start as int, s@.len() as int));
    if start >= s.len() {
        return None;
    }
    let mut v: u32 = 0;
    let mut i: usize = start;
    while i < s.len()
        invariant
            start <= i <= s.len(),
            d =~= s@.subrange(start as int, s@.len() as int),
            d == unsigned_body(s@),
            start < s.len(),
            forall|j: int| start <= j < i ==> is_digit(#[trigger] s@[j]),
            v as nat == digits_value(s@.subrange(start as int, i as int)),
            v <= 255,
        decreases s.len() - i,
    {
        let c = s[i];
        if !('0' <= c && c <= '9') {
            proof {
                assert(d[i - start] == s@[i as int]);
                assert(!is_digit(d[i - start]));
                assert(parse_u8_spec(s@) is None);
            }
            return None;
        }
        let nv = v * 10 + (c as u32 - 48);
        assert(s@.subrange(start as int, i + 1).drop_last() =~= s@.subrange(start as int, i as int));
        assert(s@.subrange(start as int, i + 1).last() == c);
        assert(nv as nat == digits_value(s@.subrange(start as int, i + 1)));
        if nv > 255 {
            proof {
                assert(d.subrange(0, (i + 1 - start) as int) =~= s@.subrange(start as int, i + 1));
                if forall|j: int| 0 <= j < d.len() ==> is_digit(#[trigger] d[j]) {
                    lemma_digits_grow(d, (i + 1 - start) as int);
                    assert(digits_value(d) > 255);
                }
                assert(parse_u8_spec(s@) is None);
            }
            return None;
        }
        v = nv;
        i += 1;
    }
    assert(s@.subrange(start as int, s@.len() as int) =~= d);
    Some(v as u8)
}

proof fn lemma_digits_grow(d: Seq<char>, k: int)
    requires
        0 < k <= d.len(),
        forall|i: int| 0 <= i < d.len() ==> is_digit(#[trigger] d[i]),
        digits_value(d.subrange(0, k)) > 255,
    ensures
        digits_value(d) > 255,
    decreases d.len() - k,
{
    if k < d.len() {
        assert(d.subrange(0, k + 1).drop_last() =~= d.subrange(0, k));
        lemma_digits_grow(d, k + 1);
    } else {
        assert(d.subrange(0, k) =~= d);
    }
}

/// What the portal's printed reply says: 1 dark, 2 light, 0 no opinion.
pub fn scheme_from_reply(reply: &str) -> (r: u8)
    ensures
        r == scheme_spec(reply@),
{
    let c = chars_of(reply);
    match last_word_of(c.as_slice()) {
        Some(w) => match parse_u8(w.as_slice()) {
            Some(1) => 1,
            Some(2) => 2,
            _ => 0,
        },
        None => 0,
    }
}

/// What the system wants right now, from the stored scheme: `Some(true)`
/// for dark, `Some(false)` for light, `None` when it has no opinion.
pub fn prefers_dark(scheme: u8) -> (r: Option<bool>)
    ensures
        r == (if scheme == 1 { Some(true) } else if scheme == 2 { Some(false) } else { None::<bool> }),
{
    match scheme {
        1 => Some(true),
        2 => Some(false),
        _ => None,
    }
}

} // verus!
