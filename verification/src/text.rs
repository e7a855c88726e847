//! Character-level text utilities shared by the session store, the mode
//! policy and the retrieval augmenter: conversion between `String` and
//! `Vec<char>`, substring search and prefix tests.

use vstd::prelude::*;
use vstd::string::*;

verus! {

/// The needle `n` occurs in `h` starting at position `i`.
pub open spec fn seq_matches_at(h: Seq<char>, n: Seq<char>, i: int) -> bool {
    0 <= i && i + n.len() <= h.len() && h.subrange(i, i + n.len()) == n
}

/// The needle `n` occurs somewhere in `h`.
pub open spec fn seq_contains_sub(h: Seq<char>, n: Seq<char>) -> bool {
    exists|i: int| seq_matches_at(h, n, i)
}

/// `n` is a prefix of `h`.
pub open spec fn seq_has_prefix(h: Seq<char>, n: Seq<char>) -> bool {
    n.len() <= h.len() && h.subrange(0, n.len() as int) == n
}

/// Collects the characters of a string into a vector, preserving order.
pub fn chars_of(s: &str) -> (v: Vec<char>)
    ensures
        v@ == s@,
{
    let n = s.unicode_len();
    let mut v: Vec<char> = Vec::new();
    let mut i: usize = 0;
    while i < n
        invariant
            n == s@.len(),
            i <= n,
            v@ == s@.subrange(0, i as int),
        decreases n - i,
    {
        v.push(s.get_char(i));
        i += 1;
        assert(v@ =~= s@.subrange(0, i as int));
    }
    assert(v@ =~= s@);
    v
}

/// Relies on `String: FromIterator<char>` (`Iterator::collect`): the
/// resulting string holds exactly the characters of `v`, in order.
#[verifier::external_body]
pub(crate) fn string_from_chars(v: &Vec<char>) -> (s: String)
    ensures
        s@ == v@,
{
    v.iter().collect()
}

/// Compares two strings character by character.
pub fn str_eq(a: &str, b: &str) -> (r: bool)
    ensures
        r == (a@ == b@),
{
    let na = a.unicode_len();
    let nb = b.unicode_len();
    if na != nb {
        assert(a@ != b@);
        return false;
    }
    let mut i: usize = 0;
    while i < na
        invariant
            na == a@.len(),
            na == b@.len(),
            i <= na,
            forall|k: int| 0 <= k < i ==> a@[k] == b@[k],
        decreases na - i,
    {
        if a.get_char(i) != b.get_char(i) {
            return false;
        }
        i += 1;
    }
    assert(a@ =~= b@);
    true
}

/// Compares two character vectors.
pub fn vec_eq_chars(a: &Vec<char>, b: &Vec<char>) -> (r: bool)
    ensures
        r == (a@ == b@),
{
    let n = a.len();
    if n != b.len() {
        assert(a@ != b@);
        return false;
    }
    let mut i: usize = 0;
    while i < n
        invariant
            n == a@.len(),
            n == b@.len(),
            i <= n,
            forall|k: int| 0 <= k < i ==> a@[k] == b@[k],
        decreases n - i,
    {
        if a[i] != b[i] {
            return false;
        }
        i += 1;
    }
    assert(a@ =~= b@);
    true
}

/// Does `n` occur in `h` starting at `i`?
pub fn matches_at(h: &Vec<char>, n: &Vec<char>, i: usize) -> (r: bool)
    requires
        i + n@.len() <= h@.len(),
    ensures
        r == seq_matches_at(h@, n@, i as int),
{
    let hn = h.len();
    let mut j: usize = 0;
    while j < n.len()
        invariant
            i + n@.len() <= h@.len(),
            hn == h@.len(),
            j <= n@.len(),
            forall|k: int| 0 <= k < j ==> h@[i + k] == n@[k],
        decreases n@.len() - j,
    {
        if h[i + j] != n[j] {
            assert(h@.subrange(i as int, i + n@.len())[j as int] == h@[i + j]);
            return false;
        }
        j += 1;
    }
    assert(h@.subrange(i as int, i + n@.len()) =~= n@);
    true
}

/// Substring search: does `n` occur anywhere in `h`?
pub fn contains_sub(h: &Vec<char>, n: &Vec<char>) -> (r: bool)
    ensures
        r == seq_contains_sub(h@, n@),
{
    if n.len() > h.len() {
        assert(forall|i: int| !seq_matches_at(h@, n@, i));
        return false;
    }
    if n.len() == 0 {
        assert(h@.subrange(0, 0) =~= n@);
        assert(seq_matches_at(h@, n@, 0));
        return true;
    }
    let bound = h.len() - n.len();
    let mut i: usize = 0;
    while i <= bound
        invariant
            0 < n@.len() <= h@.len(),
            h@.len() <= usize::MAX,
            bound == h@.len() - n@.len(),
            i <= bound + 1,
            forall|k: int| 0 <= k < i ==> !seq_matches_at(h@, n@, k),
        decreases bound + 1 - i,
    {
        if matches_at(h, n, i) {
            return true;
        }
        i += 1;
    }
    assert(forall|k: int| k > bound ==> !seq_matches_at(h@, n@, k));
    false
}

/// Does `h` start with `n`?
pub fn has_prefix(h: &Vec<char>, n: &Vec<char>) -> (r: bool)
    ensures
        r == seq_has_prefix(h@, n@),
{
    if n.len() > h.len() {
        return false;
    }
    matches_at(h, n, 0)
}

/// The upper-case hexadecimal digit of a value below sixteen.
pub open spec fn hex_char(n: u8) -> char {
    if n == 0 { '0' }
    else if n == 1 { '1' }
    else if n == 2 { '2' }
    else if n == 3 { '3' }
    else if n == 4 { '4' }
    else if n == 5 { '5' }
    else if n == 6 { '6' }
    else if n == 7 { '7' }
    else if n == 8 { '8' }
    else if n == 9 { '9' }
    else if n == 10 { 'A' }
    else if n == 11 { 'B' }
    else if n == 12 { 'C' }
    else if n == 13 { 'D' }
    else if n == 14 { 'E' }
    else { 'F' }
}

/// The upper-case hexadecimal digit of a value below sixteen.
pub fn hex_char_of(n: u8) -> (c: char)
    requires
        n < 16,
    ensures
        c == hex_char(n),
{
    if n == 0 { '0' }
    else if n == 1 { '1' }
    else if n == 2 { '2' }
    else if n == 3 { '3' }
    else if n == 4 { '4' }
    else if n == 5 { '5' }
    else if n == 6 { '6' }
    else if n == 7 { '7' }
    else if n == 8 { '8' }
    else if n == 9 { '9' }
    else if n == 10 { 'A' }
    else if n == 11 { 'B' }
    else if n == 12 { 'C' }
    else if n == 13 { 'D' }
    else if n == 14 { 'E' }
    else { 'F' }
}

/// The whitespace characters that trimming strips: exactly the fixed set
/// of code points with the Unicode `White_Space` property (what
/// `char::is_whitespace` recognizes).
pub open spec fn is_ws(c: char) -> bool {
    let u = c as u32;
    (9 <= u <= 13)  // tab, line feed, vertical tab, form feed, carriage return
     || u == 0x20  // space
     || u == 0x85  // next line
     || u == 0xA0  // no-break space
     || u == 0x1680  // ogham space mark
     || (0x2000 <= u <= 0x200A)  // en quad .. hair space
     || u == 0x2028  // line separator
     || u == 0x2029  // paragraph separator
     || u == 0x202F  // narrow no-break space
     || u == 0x205F  // medium mathematical space
     || u == 0x3000  // ideographic space
}

/// Is this a whitespace character?
pub fn is_ws_char(c: char) -> (r: bool)
    ensures
        r == is_ws(c),
{
    let u = c as u32;
    (9 <= u && u <= 13) || u == 0x20 || u == 0x85 || u == 0xA0 || u == 0x1680 || (0x2000 <= u && u
        <= 0x200A) || u == 0x2028 || u == 0x2029 || u == 0x202F || u == 0x205F || u == 0x3000
}

/// A sequence without its leading whitespace.
pub open spec fn trim_front(s: Seq<char>) -> Seq<char>
    decreases s.len(),
{
    if s.len() > 0 && is_ws(s[0]) {
        trim_front(s.drop_first())
    } else {
        s
    }
}

/// A sequence without its trailing whitespace.
pub open spec fn trim_back(s: Seq<char>) -> Seq<char>
    decreases s.len(),
{
    if s.len() > 0 && is_ws(s.last()) {
        trim_back(s.drop_last())
    } else {
        s
    }
}

/// A sequence without leading and trailing whitespace.
pub open spec fn trimmed(s: Seq<char>) -> Seq<char> {
    trim_back(trim_front(s))
}

/// Dropping a whitespace-only prefix commutes with front-trimming.
proof fn lemma_trim_front_skip(s: Seq<char>, a: int)
    requires
        0 <= a <= s.len(),
        forall|k: int| 0 <= k < a ==> is_ws(s[k]),
    ensures
        trim_front(s) == trim_front(s.skip(a)),
    decreases a,
{
    if a == 0 {
        assert(s.skip(0) =~= s);
    } else {
        assert(is_ws(s[0]));
        lemma_trim_front_skip(s.drop_first(), a - 1);
        assert(s.drop_first().skip(a - 1) =~= s.skip(a));
    }
}

/// Dropping a whitespace-only suffix commutes with back-trimming.
proof fn lemma_trim_back_take(s: Seq<char>, b: int)
    requires
        0 <= b <= s.len(),
        forall|k: int| b <= k < s.len() ==> is_ws(s[k]),
    ensures
        trim_back(s) == trim_back(s.take(b)),
    decreases s.len() - b,
{
    if b == s.len() {
        assert(s.take(b) =~= s);
    } else {
        assert(is_ws(s.last()));
        lemma_trim_back_take(s.drop_last(), b);
        assert(s.drop_last().take(b) =~= s.take(b));
    }
}

/// Strips leading and trailing whitespace from a string.
pub fn trim_text(s: &str) -> (r: String)
    ensures
        r@ == trimmed(s@),
{
    let cv = chars_of(s);
    let n = cv.len();
    let mut a: usize = 0;
    while a < n && is_ws_char(cv[a])
        invariant
            cv@ == s@,
            n == cv@.len(),
            a <= n,
            forall|k: int| 0 <= k < a ==> is_ws(cv@[k]),
        decreases n - a,
    {
        a += 1;
    }
    proof {
        lemma_trim_front_skip(cv@, a as int);
        assert(trim_front(cv@.skip(a as int)) == cv@.skip(a as int));
    }
    let mut b: usize = n;
    while b > a && is_ws_char(cv[b - 1])
        invariant
            cv@ == s@,
            n == cv@.len(),
            a <= b <= n,
            forall|k: int| b <= k < n ==> is_ws(cv@[k]),
        decreases b,
    {
        b -= 1;
    }
    let ghost t = cv@.skip(a as int);
    proof {
        assert(t.len() == n - a);
        assert(forall|k: int| b - a <= k < t.len() ==> is_ws(t[k]));
        lemma_trim_back_take(t, b - a);
        let u = t.take(b - a);
        if b > a {
            assert(!is_ws(t[b - a - 1]));
            assert(u.last() == t[b - a - 1]);
            assert(trim_back(u) == u);
        } else {
            assert(u.len() == 0);
        }
    }
    let mut out: Vec<char> = Vec::new();
    let mut i: usize = a;
    while i < b
        invariant
            cv@ == s@,
            n == cv@.len(),
            a <= i <= b <= n,
            out@ == cv@.subrange(a as int, i as int),
        decreases b - i,
    {
        out.push(cv[i]);
        assert(out@ =~= cv@.subrange(a as int, i + 1));
        i += 1;
    }
    proof {
        assert(out@ =~= cv@.skip(a as int).take(b - a));
    }
    string_from_chars(&out)
}

} // verus!
