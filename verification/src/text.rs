//! Character-level text primitives shared by the rest of the crate.
//!
//! Text is handled as a sequence of `char`s: positions are character
//! indices, and every scan below is stated over `Seq<char>`.

use vstd::prelude::*;

verus! {

broadcast use vstd::string::axiom_spec_iter;

/// Unicode `White_Space`, which is what `char::is_whitespace` and the
/// `trim` family test.
pub open spec fn is_ws(c: char) -> bool {
    let v = c as u32;
    ||| (0x09 <= v && v <= 0x0d)
    ||| v == 0x20
    ||| v == 0x85
    ||| v == 0xa0
    ||| v == 0x1680
    ||| (0x2000 <= v && v <= 0x200a)
    ||| v == 0x2028
    ||| v == 0x2029
    ||| v == 0x202f
    ||| v == 0x205f
    ||| v == 0x3000
}

pub fn is_whitespace(c: char) -> (r: bool)
    ensures
        r == is_ws(c),
{
    let v = c as u32;
    (0x09 <= v && v <= 0x0d) || v == 0x20 || v == 0x85 || v == 0xa0 || v == 0x1680 || (0x2000
        <= v && v <= 0x200a) || v == 0x2028 || v == 0x2029 || v == 0x202f || v == 0x205f || v
        == 0x3000
}

/// Whether `c` is one of the ASCII letters or digits.
pub open spec fn ascii_alnum(c: char) -> bool {
    ('a' <= c && c <= 'z') || ('A' <= c && c <= 'Z') || ('0' <= c && c <= '9')
}

/// What `char::is_alphanumeric` answers for `c`: the Unicode `Alphabetic`
/// or `Numeric` property.
pub uninterp spec fn alphanumeric(c: char) -> bool;

/// `char::is_alphanumeric`.
///
/// Claims that the answer is the fixed property [`alphanumeric`] of `c`, and
/// that on ASCII it is exactly the letters and digits, as the standard
/// library documents.
#[verifier::external_body]
pub(crate) fn is_alphanumeric(c: char) -> (r: bool)
    ensures
        r == alphanumeric(c),
        (c as u32) < 0x80 ==> (r <==> ascii_alnum(c)),
{
    c.is_alphanumeric()
}

/// Whether `c` is alphanumeric: on ASCII, a letter or a digit; beyond it,
/// the Unicode property [`alphanumeric`].
pub open spec fn alnum(c: char) -> bool {
    if (c as u32) < 0x80 {
        ascii_alnum(c)
    } else {
        alphanumeric(c)
    }
}

/// A character that continues an identifier-like word: alphanumeric, `_`
/// or `-`.
pub open spec fn word_char(c: char) -> bool {
    alnum(c) || c == '_' || c == '-'
}

pub fn is_word_char(c: char) -> (r: bool)
    ensures
        r == word_char(c),
{
    c == '_' || c == '-' || is_alphanumeric(c)
}

/// The characters of `s`, in order.
pub(crate) fn chars_of(s: &str) -> (v: Vec<char>)
    ensures
        v@ == s@,
{
    let mut v: Vec<char> = Vec::new();
    for c in it: s.chars()
        invariant
            it.seq() == s@,
            v@ == it.seq().take(it.index()),
    {
        v.push(c);
    }
    v
}

/// The string made of `v`'s characters.
///
/// Collecting `char`s into a `String`: claims the string's characters are
/// `v`'s, in order.
#[verifier::external_body]
pub(crate) fn string_of(v: &[char]) -> (s: String)
    ensures
        s@ == v@,
{
    v.iter().collect()
}

/// The chars `lo..hi` of `s` appended to `out`.
pub fn push_range(out: &mut Vec<char>, s: &[char], lo: usize, hi: usize)
    requires
        lo <= hi <= s@.len(),
    ensures
        final(out)@ == old(out)@ + s@.subrange(lo as int, hi as int),
{
    let mut i = lo;
    while i < hi
        invariant
            lo <= i <= hi <= s@.len(),
            out@ == old(out)@ + s@.subrange(lo as int, i as int),
        decreases hi - i,
    {
        out.push(s[i]);
        i = i + 1;
        assert(s@.subrange(lo as int, i as int) == s@.subrange(lo as int, i - 1).push(s@[i - 1]));
    }
}

/// All of `v` appended to `out`.
pub fn push_all(out: &mut Vec<char>, v: &[char])
    ensures
        final(out)@ == old(out)@ + v@,
{
    push_range(out, v, 0, v.len());
    assert(v@.subrange(0, v@.len() as int) == v@);
}

/// The first index at or after `i` (and before `hi`) that is not whitespace,
/// or `hi`.
pub open spec fn ws_end(s: Seq<char>, i: int, hi: int) -> int
    decreases hi - i,
{
    if i < hi && is_ws(s[i]) {
        ws_end(s, i + 1, hi)
    } else {
        i
    }
}

/// The start of the whitespace run that ends at `j` (no earlier than `lo`).
pub open spec fn ws_start(s: Seq<char>, lo: int, j: int) -> int
    decreases j - lo,
{
    if lo < j && is_ws(s[j - 1]) {
        ws_start(s, lo, j - 1)
    } else {
        j
    }
}

pub proof fn lemma_ws_end_bounds(s: Seq<char>, i: int, hi: int)
    requires
        i <= hi,
    ensures
        i <= ws_end(s, i, hi) <= hi,
    decreases hi - i,
{
    if i < hi && is_ws(s[i]) {
        lemma_ws_end_bounds(s, i + 1, hi);
    }
}

pub proof fn lemma_ws_start_bounds(s: Seq<char>, lo: int, j: int)
    requires
        lo <= j,
    ensures
        lo <= ws_start(s, lo, j) <= j,
    decreases j - lo,
{
    if lo < j && is_ws(s[j - 1]) {
        lemma_ws_start_bounds(s, lo, j - 1);
    }
}

/// `ws_end` as code.
pub fn skip_ws(s: &[char], i: usize, hi: usize) -> (r: usize)
    requires
        i <= hi <= s@.len(),
    ensures
        r == ws_end(s@, i as int, hi as int),
        i <= r <= hi,
{
    let mut k = i;
    while k < hi && is_whitespace(s[k])
        invariant
            i <= k <= hi <= s@.len(),
            ws_end(s@, i as int, hi as int) == ws_end(s@, k as int, hi as int),
        decreases hi - k,
    {
        k = k + 1;
    }
    k
}

/// `ws_start` as code.
pub fn back_ws(s: &[char], lo: usize, j: usize) -> (r: usize)
    requires
        lo <= j <= s@.len(),
    ensures
        r == ws_start(s@, lo as int, j as int),
        lo <= r <= j,
{
    let mut k = j;
    while lo < k && is_whitespace(s[k - 1])
        invariant
            lo <= k <= j <= s@.len(),
            ws_start(s@, lo as int, j as int) == ws_start(s@, lo as int, k as int),
        decreases k,
    {
        k = k - 1;
    }
    k
}

/// `s` with leading and trailing whitespace removed, as `str::trim` does.
pub open spec fn trim(s: Seq<char>) -> Seq<char> {
    let a = ws_end(s, 0, s.len() as int);
    s.subrange(a, ws_start(s, a, s.len() as int))
}

/// The bounds of `trim` of the range `lo..hi` of `s`.
pub fn trim_range(s: &[char], lo: usize, hi: usize) -> (r: (usize, usize))
    requires
        lo <= hi <= s@.len(),
    ensures
        lo <= r.0 <= r.1 <= hi,
        s@.subrange(r.0 as int, r.1 as int) == trim(s@.subrange(lo as int, hi as int)),
{
    let a = skip_ws(s, lo, hi);
    let b = back_ws(s, a, hi);
    proof {
        let t = s@.subrange(lo as int, hi as int);
        lemma_ws_end_shift(s@, lo as int, hi as int, lo as int);
        lemma_ws_start_shift(s@, lo as int, hi as int, a as int, hi as int);
        assert(ws_end(t, 0, t.len() as int) == a - lo);
        assert(ws_start(t, a - lo, t.len() as int) == b - lo);
        assert(t.subrange(a - lo, b - lo) == s@.subrange(a as int, b as int));
    }
    (a, b)
}

/// `ws_end` on a window of `s` is `ws_end` on `s`, shifted.
pub proof fn lemma_ws_end_shift(s: Seq<char>, lo: int, hi: int, i: int)
    requires
        0 <= lo <= i <= hi <= s.len(),
    ensures
        ws_end(s.subrange(lo, hi), i - lo, hi - lo) == ws_end(s, i, hi) - lo,
    decreases hi - i,
{
    if i < hi && is_ws(s[i]) {
        lemma_ws_end_shift(s, lo, hi, i + 1);
    }
}

/// `ws_start` on a window of `s` is `ws_start` on `s`, shifted.
pub proof fn lemma_ws_start_shift(s: Seq<char>, lo: int, hi: int, a: int, j: int)
    requires
        0 <= lo <= a <= j <= hi <= s.len(),
    ensures
        ws_start(s.subrange(lo, hi), a - lo, j - lo) == ws_start(s, a, j) - lo,
    decreases j - a,
{
    if a < j && is_ws(s[j - 1]) {
        lemma_ws_start_shift(s, lo, hi, a, j - 1);
    }
}

/// Whether `pat` occurs in `s` at `i`.
pub open spec fn matches_at(s: Seq<char>, i: int, pat: Seq<char>) -> bool {
    0 <= i && i + pat.len() <= s.len() && s.subrange(i, i + pat.len()) == pat
}

/// The first occurrence of `pat` in `s` that starts at or after `i` and
/// ends by `hi`.
pub open spec fn find_in(s: Seq<char>, i: int, hi: int, pat: Seq<char>) -> Option<int>
    decreases hi - i + 1,
{
    if i < 0 || i + pat.len() > hi || hi > s.len() {
        None
    } else if s.subrange(i, i + pat.len()) == pat {
        Some(i)
    } else {
        find_in(s, i + 1, hi, pat)
    }
}

pub proof fn lemma_find_in_bounds(s: Seq<char>, i: int, hi: int, pat: Seq<char>)
    requires
        0 <= i,
        hi <= s.len(),
    ensures
        find_in(s, i, hi, pat) matches Some(k) ==> i <= k && k + pat.len() <= hi && matches_at(
            s,
            k,
            pat,
        ),
    decreases hi - i + 1,
{
    if i + pat.len() <= hi && s.subrange(i, i + pat.len()) != pat {
        lemma_find_in_bounds(s, i + 1, hi, pat);
    }
}

/// Whether `pat` occurs at `i` in `s`, as code.
pub fn matches_here(s: &[char], i: usize, hi: usize, pat: &[char]) -> (r: bool)
    requires
        i <= hi <= s@.len(),
    ensures
        r == (i + pat@.len() <= hi && s@.subrange(i as int, i + pat@.len()) == pat@),
{
    if pat.len() > hi - i {
        return false;
    }
    let mut k: usize = 0;
    while k < pat.len()
        invariant
            i + pat@.len() <= hi <= s@.len(),
            k <= pat@.len(),
            s@.subrange(i as int, i + k) == pat@.subrange(0, k as int),
        decreases pat.len() - k,
    {
        if s[i + k] != pat[k] {
            assert(s@.subrange(i as int, i + pat@.len())[k as int] != pat@[k as int]);
            return false;
        }
        k = k + 1;
        assert(s@.subrange(i as int, i + k) == s@.subrange(i as int, i + k - 1).push(s@[i + k - 1]));
        assert(pat@.subrange(0, k as int) == pat@.subrange(0, k - 1).push(pat@[k - 1]));
    }
    assert(pat@.subrange(0, pat@.len() as int) == pat@);
    true
}

/// `find_in` as code.
pub fn find_from(s: &[char], i: usize, hi: usize, pat: &[char]) -> (r: Option<usize>)
    requires
        i <= hi <= s@.len(),
    ensures
        r == (match find_in(s@, i as int, hi as int, pat@) {
            Some(k) => Some(k as usize),
            None => None::<usize>,
        }),
        r matches Some(k) ==> i <= k && k + pat@.len() <= hi && matches_at(s@, k as int, pat@),
{
    proof {
        lemma_find_in_bounds(s@, i as int, hi as int, pat@);
    }
    if pat.len() == 0 {
        assert(s@.subrange(i as int, i as int) == pat@);
        return Some(i);
    }
    let mut k = i;
    while k <= hi
        invariant
            i <= k,
            hi <= s@.len(),
            pat@.len() > 0,
            find_in(s@, i as int, hi as int, pat@) == find_in(s@, k as int, hi as int, pat@),
        decreases hi + 1 - k,
    {
        if pat.len() > hi - k {
            return None;
        }
        if matches_here(s, k, hi, pat) {
            return Some(k);
        }
        k = k + 1;
    }
    None
}

/// The position of the first `c` in `s` at or after `i` and before `hi`.
pub open spec fn find_char(s: Seq<char>, i: int, hi: int, c: char) -> Option<int>
    decreases hi - i,
{
    if i < 0 || i >= hi {
        None
    } else if s[i] == c {
        Some(i)
    } else {
        find_char(s, i + 1, hi, c)
    }
}

pub proof fn lemma_find_char_bounds(s: Seq<char>, i: int, hi: int, c: char)
    requires
        0 <= i,
    ensures
        find_char(s, i, hi, c) matches Some(k) ==> i <= k < hi && s[k] == c,
        find_char(s, i, hi, c) is None ==> forall|k: int| i <= k < hi ==> s[k] != c,
    decreases hi - i,
{
    if i < hi && s[i] != c {
        lemma_find_char_bounds(s, i + 1, hi, c);
    }
}

/// `find_char` as code.
pub fn find_char_from(s: &[char], i: usize, hi: usize, c: char) -> (r: Option<usize>)
    requires
        hi <= s@.len(),
    ensures
        r == (match find_char(s@, i as int, hi as int, c) {
            Some(k) => Some(k as usize),
            None => None::<usize>,
        }),
        r matches Some(k) ==> i <= k < hi && s@[k as int] == c,
        r is None ==> forall|k: int| i <= k < hi ==> s@[k] != c,
{
    proof {
        lemma_find_char_bounds(s@, i as int, hi as int, c);
    }
    let mut k = i;
    while k < hi
        invariant
            i <= k,
            hi <= s@.len(),
            find_char(s@, i as int, hi as int, c) == find_char(s@, k as int, hi as int, c),
        decreases hi - k,
    {
        if s[k] == c {
            return Some(k);
        }
        k = k + 1;
    }
    None
}

/// ASCII-case-insensitive equality of two characters.
pub open spec fn ascii_lower(c: char) -> char {
    if 'A' <= c && c <= 'Z' {
        ((c as u32) + 32) as char
    } else {
        c
    }
}

pub open spec fn eq_ignore_ascii_case(a: Seq<char>, b: Seq<char>) -> bool {
    a.len() == b.len() && forall|i: int| 0 <= i < a.len() ==> ascii_lower(a[i]) == ascii_lower(b[i])
}

pub fn lower_ascii(c: char) -> (r: char)
    ensures
        r == ascii_lower(c),
{
    if 'A' <= c && c <= 'Z' {
        let v = (c as u32) + 32;
        assert(0x61 <= v <= 0x7a);
        proof {
            assert((v as char) == ((c as u32) + 32) as char);
        }
        char_from_ascii(v)
    } else {
        c
    }
}

/// The ASCII character with code `v`.
fn char_from_ascii(v: u32) -> (r: char)
    requires
        v < 0x80,
    ensures
        r == v as char,
{
    (v as u8) as char
}

/// `eq_ignore_ascii_case` of the range `lo..hi` of `s` against `pat`.
pub fn range_eq_ignore_ascii_case(s: &[char], lo: usize, hi: usize, pat: &[char]) -> (r: bool)
    requires
        lo <= hi <= s@.len(),
    ensures
        r == eq_ignore_ascii_case(s@.subrange(lo as int, hi as int), pat@),
{
    if hi - lo != pat.len() {
        return false;
    }
    let mut k: usize = 0;
    while k < pat.len()
        invariant
            hi - lo == pat@.len(),
            lo <= hi <= s@.len(),
            k <= pat@.len(),
            forall|j: int|
                0 <= j < k ==> ascii_lower(s@[lo + j]) == ascii_lower(pat@[j]),
        decreases pat.len() - k,
    {
        if lower_ascii(s[lo + k]) != lower_ascii(pat[k]) {
            return false;
        }
        k = k + 1;
    }
    true
}


/// Whether two character sequences are equal.
pub fn chars_eq(a: &[char], b: &[char]) -> (r: bool)
    ensures
        r == (a@ == b@),
{
    if a.len() != b.len() {
        return false;
    }
    let mut k: usize = 0;
    while k < a.len()
        invariant
            a@.len() == b@.len(),
            k <= a@.len(),
            forall|j: int| 0 <= j < k ==> a@[j] == b@[j],
        decreases a.len() - k,
    {
        if a[k] != b[k] {
            return false;
        }
        k = k + 1;
    }
    assert(a@ =~= b@);
    true
}

/// Whether the string `s` reads `key`.
pub fn string_is(s: &String, key: &[char]) -> (r: bool)
    ensures
        r == (s@ == key@),
{
    let c = chars_of(s.as_str());
    chars_eq(&c, key)
}

pub open spec fn digit_char(d: nat) -> char {
    seq!['0', '1', '2', '3', '4', '5', '6', '7', '8', '9'][d as int]
}

/// The decimal digits of `n`.
pub open spec fn decimal(n: nat) -> Seq<char>
    decreases n,
{
    if n < 10 {
        seq![digit_char(n)]
    } else {
        decimal(n / 10) + seq![digit_char(n % 10)]
    }
}

pub fn digit(d: usize) -> (c: char)
    requires
        d < 10,
    ensures
        c == digit_char(d as nat),
{
    let ds = ['0', '1', '2', '3', '4', '5', '6', '7', '8', '9'];
    assert(ds@ =~= seq!['0', '1', '2', '3', '4', '5', '6', '7', '8', '9']);
    ds[d]
}

/// The decimal digits of `n`, as `format!("{n}")` writes them.
pub fn decimal_chars(n: u64) -> (r: Vec<char>)
    ensures
        r@ == decimal(n as nat),
{
    let mut digits: Vec<char> = Vec::new();
    let mut m = n;
    while m >= 10
        invariant
            decimal(n as nat) == decimal(m as nat) + digits@,
        decreases m,
    {
        let c = digit((m % 10) as usize);
        digits.insert(0, c);
        m = m / 10;
    }
    let c = digit(m as usize);
    digits.insert(0, c);
    digits
}

pub proof fn lemma_decimal_len(n: nat)
    ensures
        decimal(n).len() >= 1,
        n >= 10 ==> decimal(n).len() >= 2,
    decreases n,
{
    if n >= 10 {
        lemma_decimal_len(n / 10);
    }
}

/// Distinct positions are written with distinct digits.
pub proof fn lemma_decimal_injective(a: nat, b: nat)
    requires
        decimal(a) == decimal(b),
    ensures
        a == b,
    decreases a + b,
{
    lemma_decimal_len(a);
    lemma_decimal_len(b);
    let ds = seq!['0', '1', '2', '3', '4', '5', '6', '7', '8', '9'];
    if a < 10 && b < 10 {
        assert(decimal(a)[0] == ds[a as int]);
        assert(decimal(b)[0] == ds[b as int]);
    } else if a >= 10 && b >= 10 {
        let da = decimal(a);
        let db = decimal(b);
        assert(da.last() == digit_char(a % 10));
        assert(db.last() == digit_char(b % 10));
        assert(da.drop_last() =~= decimal(a / 10));
        assert(db.drop_last() =~= decimal(b / 10));
        lemma_decimal_injective(a / 10, b / 10);
        assert(a == (a / 10) * 10 + a % 10);
        assert(b == (b / 10) * 10 + b % 10);
    }
}

} // verus!
