//! Where a text's characters sit in its UTF-8 bytes.
//!
//! The scanners here read a text character by character and speak of
//! character positions. A text handed over as `&str` is addressed by byte
//! offsets into its UTF-8 encoding instead; this module relates the two,
//! and the functions that take or give positions in a `&str` are stated
//! through it.

use vstd::prelude::*;
use vstd::utf8::{char_is_scalar, encode_scalar, encode_utf8};
use crate::salvage::tags::{byte_len, char_utf8_len, lemma_byte_len_nonneg, utf8_len};

verus! {

broadcast use vstd::std_specs::vec::group_vec_axioms;

/// The byte offset at which character `i` of `s` starts in the UTF-8
/// encoding of `s`; for `i == s.len()`, the encoding's length.
pub open spec fn byte_at(s: Seq<char>, i: int) -> int {
    byte_len(s, 0, i)
}

/// Whether every offset into the UTF-8 encoding of `s` fits in a `usize`,
/// as it does for any `&str`.
pub open spec fn fits(s: Seq<char>) -> bool {
    byte_at(s, s.len() as int) <= usize::MAX
}

/// Whether `b` is a character boundary of `s`: where one of its characters
/// starts, or its end.
pub open spec fn boundary(s: Seq<char>, b: int) -> bool {
    exists|i: int| 0 <= i <= s.len() && byte_at(s, i) == b
}

/// The index of the character that starts at the boundary `b` of `s`.
pub open spec fn char_index(s: Seq<char>, b: int) -> int {
    choose|i: int| 0 <= i <= s.len() && byte_at(s, i) == b
}

/// Character spans of `s` as byte spans.
pub open spec fn byte_spans(s: Seq<char>, spans: Seq<(int, int)>) -> Seq<(int, int)> {
    Seq::new(spans.len(), |k: int| (byte_at(s, spans[k].0), byte_at(s, spans[k].1)))
}

pub proof fn lemma_byte_len_snoc(s: Seq<char>, lo: int, hi: int)
    requires
        0 <= lo <= hi < s.len(),
    ensures
        byte_len(s, lo, hi + 1) == byte_len(s, lo, hi) + utf8_len(s[hi]),
    decreases hi - lo,
{
    if lo < hi {
        lemma_byte_len_snoc(s, lo + 1, hi);
    } else {
        assert(byte_len(s, lo + 1, hi + 1) == 0);
        assert(byte_len(s, lo, hi) == 0);
    }
}

/// Later characters start at later offsets.
pub proof fn lemma_byte_at_increasing(s: Seq<char>, i: int, j: int)
    requires
        0 <= i < j <= s.len(),
    ensures
        byte_at(s, i) < byte_at(s, j),
    decreases j - i,
{
    lemma_byte_len_snoc(s, 0, j - 1);
    if i < j - 1 {
        lemma_byte_at_increasing(s, i, j - 1);
    }
}

/// The offset of character `i` is a boundary, and names `i` again.
pub proof fn lemma_char_index(s: Seq<char>, i: int)
    requires
        0 <= i <= s.len(),
    ensures
        boundary(s, byte_at(s, i)),
        char_index(s, byte_at(s, i)) == i,
{
    assert(0 <= i <= s.len() && byte_at(s, i) == byte_at(s, i));
    let c = char_index(s, byte_at(s, i));
    if c < i {
        lemma_byte_at_increasing(s, c, i);
    } else if c > i {
        lemma_byte_at_increasing(s, i, c);
    }
}

/// The offsets are those of the standard UTF-8 encoding: the bytes of the
/// characters `lo..hi` number exactly `byte_len(s, lo, hi)`.
pub proof fn lemma_byte_len_is_encoding(s: Seq<char>, lo: int, hi: int)
    requires
        0 <= lo <= hi <= s.len(),
    ensures
        encode_utf8(s.subrange(lo, hi)).len() == byte_len(s, lo, hi),
    decreases hi - lo,
{
    if lo < hi {
        lemma_byte_len_is_encoding(s, lo + 1, hi);
        let sub = s.subrange(lo, hi);
        assert(sub.drop_first() =~= s.subrange(lo + 1, hi));
        char_is_scalar(s[lo]);
        assert(encode_scalar(s[lo] as u32).len() == utf8_len(s[lo]));
    } else {
        assert(s.subrange(lo, hi).len() == 0);
    }
}

/// The byte offset of each character of `t`, and of its end.
pub fn byte_table(t: &[char]) -> (r: Vec<usize>)
    requires
        fits(t@),
    ensures
        r@.len() == t@.len() + 1,
        forall|i: int| 0 <= i <= t@.len() ==> #[trigger] r@[i] == byte_at(t@, i),
{
    let mut r: Vec<usize> = Vec::new();
    r.push(0);
    let mut b: usize = 0;
    let mut k: usize = 0;
    while k < t.len()
        invariant
            k <= t@.len(),
            fits(t@),
            r@.len() == k + 1,
            b == byte_at(t@, k as int),
            forall|i: int| 0 <= i <= k ==> #[trigger] r@[i] == byte_at(t@, i),
        decreases t.len() - k,
    {
        proof {
            lemma_byte_len_snoc(t@, 0, k as int);
            if k + 1 < t@.len() {
                lemma_byte_at_increasing(t@, k + 1, t@.len() as int);
            }
        }
        let l = char_utf8_len(t[k]);
        b = b + l;
        r.push(b);
        k = k + 1;
    }
    r
}

/// Where `b` stands in `table`, if anywhere.
pub fn find_offset(table: &Vec<usize>, b: usize) -> (r: Option<usize>)
    ensures
        r matches Some(i) ==> i < table@.len() && table@[i as int] == b,
        r is None ==> forall|i: int| 0 <= i < table@.len() ==> table@[i] != b,
{
    let mut k: usize = 0;
    while k < table.len()
        invariant
            k <= table@.len(),
            forall|i: int| 0 <= i < k ==> table@[i] != b,
        decreases table.len() - k,
    {
        if table[k] == b {
            return Some(k);
        }
        k = k + 1;
    }
    None
}

/// The character index at the boundary `b`, found in the byte table of
/// `t`; `None` when `b` is not a boundary.
pub fn index_at(t: &[char], table: &Vec<usize>, b: usize) -> (r: Option<usize>)
    requires
        table@.len() == t@.len() + 1,
        forall|i: int| 0 <= i <= t@.len() ==> #[trigger] table@[i] == byte_at(t@, i),
    ensures
        r matches Some(i) ==> boundary(t@, b as int) && i == char_index(t@, b as int) && i <= t@.len(),
        r is None <==> !boundary(t@, b as int),
{
    match find_offset(table, b) {
        Some(i) => {
            proof {
                lemma_char_index(t@, i as int);
            }
            Some(i)
        },
        None => {
            proof {
                if boundary(t@, b as int) {
                    let i = choose|i: int| 0 <= i <= t@.len() && byte_at(t@, i) == b;
                    assert(table@[i] == b);
                }
            }
            None
        },
    }
}

/// The character spans `spans` of `t` as byte spans, read off its table.
pub fn spans_to_bytes(t: &[char], table: &Vec<usize>, spans: &Vec<(usize, usize)>) -> (r: Vec<(usize, usize)>)
    requires
        table@.len() == t@.len() + 1,
        forall|i: int| 0 <= i <= t@.len() ==> #[trigger] table@[i] == byte_at(t@, i),
        forall|k: int| 0 <= k < spans@.len() ==> (#[trigger] spans@[k]).0 <= t@.len() && spans@[k].1 <= t@.len(),
    ensures
        r@.len() == spans@.len(),
        forall|k: int|
            0 <= k < r@.len() ==> (#[trigger] r@[k]).0 == byte_at(t@, spans@[k].0 as int) && r@[k].1 == byte_at(
                t@,
                spans@[k].1 as int,
            ),
{
    let mut r: Vec<(usize, usize)> = Vec::new();
    let mut k: usize = 0;
    while k < spans.len()
        invariant
            k <= spans@.len(),
            r@.len() == k,
            table@.len() == t@.len() + 1,
            forall|i: int| 0 <= i <= t@.len() ==> #[trigger] table@[i] == byte_at(t@, i),
            forall|q: int| 0 <= q < spans@.len() ==> (#[trigger] spans@[q]).0 <= t@.len() && spans@[q].1 <= t@.len(),
            forall|q: int|
                0 <= q < k ==> (#[trigger] r@[q]).0 == byte_at(t@, spans@[q].0 as int) && r@[q].1 == byte_at(
                    t@,
                    spans@[q].1 as int,
                ),
        decreases spans.len() - k,
    {
        let (s, e) = spans[k];
        r.push((table[s], table[e]));
        k = k + 1;
    }
    r
}

} // verus!
