//! Markup tags: `<keyword …>` and `</keyword>`, optionally decorated by a
//! dialect's marker glyph, and the attributes inside them.

use vstd::prelude::*;
use crate::salvage::offsets::{boundary, byte_at, byte_table, char_index, fits, index_at};
use crate::text::{
    find_char, find_char_from, find_from, find_in, is_whitespace, is_word_char, is_ws,
    lemma_find_char_bounds, lemma_find_in_bounds, matches_at, matches_here, skip_ws, trim,
    trim_range, word_char, ws_end, ws_start, back_ws, lemma_ws_end_bounds, chars_of, push_range, string_of,
};

verus! {

/// The longest decoration allowed between `<` and a tag keyword, in bytes.
pub const MAX_TAG_DECORATION: usize = 32;

/// The byte length of `c` in UTF-8.
pub open spec fn utf8_len(c: char) -> int {
    if (c as u32) < 0x80 {
        1
    } else if (c as u32) < 0x800 {
        2
    } else if (c as u32) < 0x10000 {
        3
    } else {
        4
    }
}

pub(crate) fn char_utf8_len(c: char) -> (n: usize)
    ensures
        n == utf8_len(c),
{
    let v = c as u32;
    if v < 0x80 {
        1
    } else if v < 0x800 {
        2
    } else if v < 0x10000 {
        3
    } else {
        4
    }
}

/// How many characters from `i` on start less than `budget` bytes in.
pub open spec fn window_len(t: Seq<char>, i: int, budget: int) -> int
    decreases t.len() - i,
{
    if 0 <= i < t.len() && budget > 0 {
        1 + window_len(t, i + 1, budget - utf8_len(t[i]))
    } else {
        0
    }
}

pub proof fn lemma_window_len(t: Seq<char>, i: int, budget: int)
    requires
        0 <= i <= t.len(),
    ensures
        0 <= window_len(t, i, budget) <= t.len() - i,
    decreases t.len() - i,
{
    if i < t.len() && budget > 0 {
        lemma_window_len(t, i + 1, budget - utf8_len(t[i]));
    }
}

/// The byte length of the characters `lo..hi` of `t`.
pub open spec fn byte_len(t: Seq<char>, lo: int, hi: int) -> int
    decreases hi - lo,
{
    if lo < hi {
        utf8_len(t[lo]) + byte_len(t, lo + 1, hi)
    } else {
        0
    }
}

/// A decoration a dialect brands its tags with: short, unbroken, and
/// carrying at least one non-ASCII character.
pub open spec fn decoration_ok(t: Seq<char>, lo: int, hi: int) -> bool {
    &&& byte_len(t, lo, hi) <= MAX_TAG_DECORATION
    &&& forall|k: int| lo <= k < hi ==> !is_ws(t[k]) && t[k] != '>' && t[k] != '<'
    &&& exists|k: int| lo <= k < hi && (t[k] as u32) >= 0x80
}

/// Where `kw` starts when the text from `p` is positioned at it, possibly
/// behind a decoration.
pub open spec fn undecorated_at(t: Seq<char>, p: int, kw: Seq<char>) -> Option<int> {
    if matches_at(t, p, kw) {
        Some(p)
    } else {
        let w = window_len(t, p, MAX_TAG_DECORATION + byte_len(kw, 0, kw.len() as int));
        match find_in(t, p, p + w, kw) {
            None => None,
            Some(at) => if decoration_ok(t, p, at) {
                Some(at)
            } else {
                None
            },
        }
    }
}

/// One step of [`window_len`]: a character is in the window while budget
/// remains before it.
proof fn lemma_window_step(t: Seq<char>, i: int, budget: int)
    requires
        0 <= i < t.len(),
    ensures
        budget > 0 ==> window_len(t, i, budget) == 1 + window_len(t, i + 1, budget - utf8_len(t[i])),
        budget <= 0 ==> window_len(t, i, budget) == 0,
{
}

proof fn lemma_utf8_len_range(c: char)
    ensures
        1 <= utf8_len(c) <= 4,
{
}

/// `window_len(t, p, MAX_TAG_DECORATION + byte_len(kw))`, with the
/// keyword's bytes added to the budget only as the scan needs them.
fn window_exec(t: &[char], p: usize, kw: &[char]) -> (w: usize)
    requires
        p <= t@.len(),
    ensures
        w == window_len(t@, p as int, MAX_TAG_DECORATION + byte_len(kw@, 0, kw@.len() as int)),
        p + w <= t@.len(),
{
    let ghost total: int = MAX_TAG_DECORATION + byte_len(kw@, 0, kw@.len() as int);
    proof {
        lemma_window_len(t@, p as int, total);
    }
    let n = kw.len();
    let mut i = p;
    let mut b: usize = MAX_TAG_DECORATION;
    let mut j: usize = 0;
    while i < t.len()
        invariant
            p <= i <= t@.len(),
            j <= n == kw@.len(),
            b <= 40,
            total == MAX_TAG_DECORATION + byte_len(kw@, 0, kw@.len() as int),
            window_len(t@, p as int, total) == (i - p) + window_len(
                t@,
                i as int,
                b + byte_len(kw@, j as int, n as int),
            ),
        decreases t.len() - i,
    {
        let l = char_utf8_len(t[i]);
        proof {
            lemma_utf8_len_range(t@[i as int]);
        }
        let ghost before: int = b + byte_len(kw@, j as int, n as int);
        while b < l && j < n
            invariant
                j <= n == kw@.len(),
                1 <= l <= 4,
                b <= 40,
                b + byte_len(kw@, j as int, n as int) == before,
                p <= i < t@.len(),
                l == utf8_len(t@[i as int]),
                window_len(t@, p as int, total) == (i - p) + window_len(t@, i as int, before),
            decreases n - j,
        {
            let k = char_utf8_len(kw[j]);
            proof {
                lemma_utf8_len_range(kw@[j as int]);
            }
            b = b + k;
            j = j + 1;
        }
        proof {
            lemma_byte_len_nonneg(kw@, j as int, n as int);
            lemma_window_step(t@, i as int, b + byte_len(kw@, j as int, n as int));
            lemma_window_len(t@, i + 1, b + byte_len(kw@, j as int, n as int) - l);
        }
        if b == 0 {
            proof {
                assert(j == n);
                assert(byte_len(kw@, n as int, n as int) == 0);
            }
            return i - p;
        }
        if b < l {
            proof {
                assert(j == n);
                assert(byte_len(kw@, n as int, n as int) == 0);
                if i + 1 < t@.len() {
                    lemma_window_step(t@, i + 1, b - l);
                }
            }
            return i + 1 - p;
        }
        b = b - l;
        i = i + 1;
    }
    i - p
}

fn decoration_exec(t: &[char], lo: usize, hi: usize) -> (r: bool)
    requires
        lo <= hi <= t@.len(),
    ensures
        r == decoration_ok(t@, lo as int, hi as int),
{
    let mut k = lo;
    let mut bytes: usize = 0;
    let mut wide = false;
    while k < hi
        invariant
            lo <= k <= hi <= t@.len(),
            bytes <= MAX_TAG_DECORATION,
            byte_len(t@, lo as int, hi as int) == bytes + byte_len(t@, k as int, hi as int),
            forall|q: int| lo <= q < k ==> !is_ws(t@[q]) && t@[q] != '>' && t@[q] != '<',
            wide == (exists|q: int| lo <= q < k && (t@[q] as u32) >= 0x80),
        decreases hi - k,
    {
        let c = t[k];
        if is_whitespace(c) || c == '>' || c == '<' {
            return false;
        }
        bytes = bytes + char_utf8_len(c);
        if bytes > MAX_TAG_DECORATION {
            proof {
                lemma_byte_len_nonneg(t@, k + 1, hi as int);
            }
            return false;
        }
        if (c as u32) >= 0x80 {
            wide = true;
        }
        k = k + 1;
        proof {
            if !wide {
                assert forall|q: int| lo <= q < k implies (t@[q] as u32) < 0x80 by {
                    if q < k - 1 {
                    }
                }
            } else {
                if (c as u32) >= 0x80 {
                    assert(lo <= k - 1 < k && (t@[k - 1] as u32) >= 0x80);
                }
            }
        }
    }
    wide
}

pub proof fn lemma_byte_len_nonneg(t: Seq<char>, lo: int, hi: int)
    ensures
        byte_len(t, lo, hi) >= 0,
    decreases hi - lo,
{
    if lo < hi {
        lemma_byte_len_nonneg(t, lo + 1, hi);
    }
}

/// The position of `kw` when the text from `p` is at it, behind at most a
/// dialect's decoration.
pub fn undecorated_in(t: &[char], p: usize, kw: &[char]) -> (r: Option<usize>)
    requires
        p <= t@.len(),
    ensures
        r == (match undecorated_at(t@, p as int, kw@) {
            Some(k) => Some(k as usize),
            None => None::<usize>,
        }),
        r matches Some(k) ==> p <= k && matches_at(t@, k as int, kw@),
        undecorated_at(t@, p as int, kw@) matches Some(k) ==> p <= k <= t@.len(),
{
    if matches_here(t, p, t.len(), kw) {
        return Some(p);
    }
    let w = window_exec(t, p, kw);
    proof {
        lemma_find_in_bounds(t@, p as int, p + w, kw@);
    }
    match find_from(t, p, p + w, kw) {
        None => None,
        Some(at) => {
            if decoration_exec(t, p, at) {
                Some(at)
            } else {
                None
            }
        },
    }
}

/// A tag found in the text: the index of its `<`, the index just past its
/// `>`, and the bounds of the attribute text after the keyword.
pub struct Tag {
    pub start: usize,
    pub after: usize,
    pub attrs_lo: usize,
    pub attrs_hi: usize,
}

pub open spec fn tag_view(g: Tag) -> (int, int, int, int) {
    (g.start as int, g.after as int, g.attrs_lo as int, g.attrs_hi as int)
}

pub open spec fn opt_tag_view(g: Option<Tag>) -> Option<(int, int, int, int)> {
    match g {
        Some(g) => Some(tag_view(g)),
        None => None,
    }
}

/// The tag `kw` opening (or, when `closing`, closing) at `start`, or `None`
/// when that is not the tag: `(start, after, attrs_lo, attrs_hi)`.
pub open spec fn tag_at_spec(t: Seq<char>, start: int, kw: Seq<char>, closing: bool) -> Option<
    (int, int, int, int),
> {
    let p = start + 1;
    if p < 1 || p > t.len() {
        None
    } else {
        let slash = p < t.len() && t[p] == '/';
        if closing && !slash {
            None
        } else if !closing && slash {
            None
        } else {
            let p2 = if closing {
                p + 1
            } else {
                p
            };
            match undecorated_at(t, p2, kw) {
                None => None,
                Some(q) => {
                    let r = q + kw.len();
                    match find_char(t, r, t.len() as int, '>') {
                        None => None,
                        Some(stop) => {
                            if r < stop && word_char(t[r]) {
                                None
                            } else if closing && trim(t.subrange(r, stop)).len() != 0 {
                                None
                            } else if find_char(t, r, stop, '<') is Some {
                                None
                            } else {
                                Some((start, stop + 1, r, stop))
                            }
                        },
                    }
                },
            }
        }
    }
}

pub open spec fn tag_ok(t: Seq<char>, g: (int, int, int, int)) -> bool {
    0 <= g.0 < g.2 && g.2 <= g.3 < g.1 && g.1 <= t.len() && g.1 == g.3 + 1 && t[g.0] == '<'
}

/// Read the tag `kw` opens (or closes) at `start`.
pub fn tag_at_in(t: &[char], start: usize, kw: &[char], closing: bool) -> (r: Option<Tag>)
    requires
        start < t@.len(),
        t@[start as int] == '<',
    ensures
        opt_tag_view(r) == tag_at_spec(t@, start as int, kw@, closing),
        r matches Some(g) ==> tag_ok(t@, tag_view(g)),
{
    let n = t.len();
    let p = start + 1;
    let slash = p < t.len() && t[p] == '/';
    if closing && !slash {
        return None;
    }
    if !closing && slash {
        return None;
    }
    let p2 = if closing { p + 1 } else { p };
    let q = match undecorated_in(t, p2, kw) {
        None => return None,
        Some(q) => q,
    };
    let r = q + kw.len();
    proof {
        lemma_find_char_bounds(t@, r as int, t@.len() as int, '>');
    }
    let stop = match find_char_from(t, r, t.len(), '>') {
        None => return None,
        Some(stop) => stop,
    };
    if r < stop && is_word_char(t[r]) {
        return None;
    }
    if closing {
        let (a, b) = trim_range(t, r, stop);
        if a != b {
            return None;
        }
    }
    match find_char_from(t, r, stop, '<') {
        Some(_) => return None,
        None => {},
    }
    Some(Tag { start, after: stop + 1, attrs_lo: r, attrs_hi: stop })
}

/// The next tag `kw` whose `<` is at or after `i`.
pub open spec fn find_tag_spec(t: Seq<char>, i: int, kw: Seq<char>, closing: bool) -> Option<
    (int, int, int, int),
>
    decreases t.len() - i,
{
    if i < 0 || i > t.len() {
        None
    } else {
        match find_char(t, i, t.len() as int, '<') {
            None => None,
            Some(k) => match tag_at_spec(t, k, kw, closing) {
                Some(g) => Some(g),
                None => if k + 1 > i && k < t.len() {
                    find_tag_spec(t, k + 1, kw, closing)
                } else {
                    None
                },
            },
        }
    }
}

/// The next `<kw …>` (or `</kw>`) at or after `from`.
pub fn find_tag_in(t: &[char], from: usize, kw: &[char], closing: bool) -> (r: Option<Tag>)
    requires
        from <= t@.len(),
    ensures
        opt_tag_view(r) == find_tag_spec(t@, from as int, kw@, closing),
        r matches Some(g) ==> tag_ok(t@, tag_view(g)) && from <= g.start,
{
    let mut search = from;
    while search <= t.len()
        invariant
            from <= search <= t@.len() + 1,
                find_tag_spec(t@, from as int, kw@, closing) == find_tag_spec(
                t@,
                search as int,
                kw@,
                closing,
            ),
        decreases t.len() + 1 - search,
    {
        proof {
            lemma_find_char_bounds(t@, search as int, t@.len() as int, '<');
        }
        let k = match find_char_from(t, search, t.len(), '<') {
            None => return None,
            Some(k) => k,
        };
        match tag_at_in(t, k, kw, closing) {
            Some(g) => return Some(g),
            None => {},
        }
        search = k + 1;
    }
    None
}

/// A tag's positions as byte offsets of `s`.
pub open spec fn tag_bytes(s: Seq<char>, g: Option<(int, int, int, int)>) -> Option<(int, int, int, int)> {
    match g {
        Some(g) => Some((byte_at(s, g.0), byte_at(s, g.1), byte_at(s, g.2), byte_at(s, g.3))),
        None => None,
    }
}

fn tag_to_bytes(t: &[char], table: &Vec<usize>, g: Option<Tag>) -> (r: Option<Tag>)
    requires
        table@.len() == t@.len() + 1,
        forall|i: int| 0 <= i <= t@.len() ==> #[trigger] table@[i] == byte_at(t@, i),
        g matches Some(g) ==> tag_ok(t@, tag_view(g)),
    ensures
        opt_tag_view(r) == tag_bytes(t@, opt_tag_view(g)),
{
    match g {
        Some(g) => Some(
            Tag {
                start: table[g.start],
                after: table[g.after],
                attrs_lo: table[g.attrs_lo],
                attrs_hi: table[g.attrs_hi],
            },
        ),
        None => None,
    }
}

/// The tag `keyword` opens (or, when `closing`, closes) at byte `start` of
/// `text`, where a `<` stands; its positions are byte offsets.
pub fn tag_at(text: &str, start: usize, keyword: &str, closing: bool) -> (r: Option<Tag>)
    requires
        fits(text@),
        boundary(text@, start as int),
        char_index(text@, start as int) < text@.len(),
        text@[char_index(text@, start as int)] == '<',
    ensures
        opt_tag_view(r) == tag_bytes(text@, tag_at_spec(text@, char_index(text@, start as int), keyword@, closing)),
{
    let t = chars_of(text);
    let kw = chars_of(keyword);
    let table = byte_table(t.as_slice());
    match index_at(t.as_slice(), &table, start) {
        Some(i) => {
            let g = tag_at_in(t.as_slice(), i, kw.as_slice(), closing);
            tag_to_bytes(t.as_slice(), &table, g)
        },
        None => None,
    }
}

/// The next `<keyword …>` (or `</keyword>`) whose `<` is at or after byte
/// `from` of `text`, with byte positions; `None` when `from` is not a
/// character boundary of `text`.
pub fn find_tag(text: &str, from: usize, keyword: &str, closing: bool) -> (r: Option<Tag>)
    requires
        fits(text@),
    ensures
        opt_tag_view(r) == (if boundary(text@, from as int) {
            tag_bytes(text@, find_tag_spec(text@, char_index(text@, from as int), keyword@, closing))
        } else {
            None
        }),
{
    let t = chars_of(text);
    let kw = chars_of(keyword);
    let table = byte_table(t.as_slice());
    match index_at(t.as_slice(), &table, from) {
        Some(i) => {
            let g = find_tag_in(t.as_slice(), i, kw.as_slice(), closing);
            tag_to_bytes(t.as_slice(), &table, g)
        },
        None => None,
    }
}

/// `rest` from where `keyword` starts, when `rest` is at it, possibly behind
/// a dialect's decoration.
pub fn undecorated(rest: &str, keyword: &str) -> (r: Option<String>)
    ensures
        (match r {
            Some(v) => Some(v@),
            None => None::<Seq<char>>,
        }) == (match undecorated_at(rest@, 0, keyword@) {
            Some(k) => Some(rest@.skip(k)),
            None => None::<Seq<char>>,
        }),
{
    let t = chars_of(rest);
    let kw = chars_of(keyword);
    match undecorated_in(t.as_slice(), 0, kw.as_slice()) {
        Some(k) => {
            let mut v: Vec<char> = Vec::new();
            push_range(&mut v, t.as_slice(), k, t.len());
            assert(v@ =~= rest@.skip(k as int));
            assert(undecorated_at(rest@, 0, keyword@) == Some(k as int));
            let r = string_of(v.as_slice());
            assert(r@ == rest@.skip(k as int));
            Some(r)
        },
        None => {
            assert(undecorated_at(rest@, 0, keyword@) is None);
            None
        },
    }
}

} // verus!
