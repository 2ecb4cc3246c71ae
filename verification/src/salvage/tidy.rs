//! Removing recovered calls from the narrative, and tidying what removing
//! them leaves behind: code fences left holding nothing, and blank runs.

use vstd::prelude::*;
use crate::salvage::offsets::{boundary, byte_at, byte_table, char_index, fits, index_at};
use crate::text::{
    find_char, find_char_from, find_in, find_from, is_ws, lemma_find_char_bounds,
    lemma_find_in_bounds, push_range, trim, trim_range, chars_of, string_of,
};

verus! {

/// Where the line starting at `i` ends (before its `\n` or `\r\n`), and
/// where the next line starts — the line splitting of `str::lines`.
pub open spec fn line_at(t: Seq<char>, i: int) -> (int, int) {
    match find_char(t, i, t.len() as int, '\n') {
        Some(k) => (if k > i && t[k - 1] == '\r' { k - 1 } else { k }, k + 1),
        None => (t.len() as int, t.len() as int),
    }
}

pub proof fn lemma_line_at(t: Seq<char>, i: int)
    requires
        0 <= i < t.len(),
    ensures
        i <= line_at(t, i).0 <= t.len(),
        i < line_at(t, i).1 <= t.len(),
        line_at(t, i).0 <= line_at(t, i).1,
{
    lemma_find_char_bounds(t, i, t.len() as int, '\n');
}

/// A line break between kept lines: one for adjacent lines, two where a
/// blank run was collapsed.
pub open spec fn line_break(pending: bool) -> Seq<char> {
    if pending {
        seq!['\n', '\n']
    } else {
        seq!['\n']
    }
}

/// Blank runs collapsed, from line start `i` on, onto `out`.
pub open spec fn collapse_go(t: Seq<char>, i: int, out: Seq<char>, pending: bool, wrote: bool) -> Seq<
    char,
>
    decreases t.len() - i,
{
    if i < 0 || i >= t.len() {
        out
    } else {
        let (hi, next) = line_at(t, i);
        if next <= i || next > t.len() || hi < i || hi > t.len() {
            out
        } else if trim(t.subrange(i, hi)).len() == 0 {
            collapse_go(t, next, out, true, wrote)
        } else {
            let out2 = (if wrote {
                out + line_break(pending)
            } else {
                out
            }) + t.subrange(i, hi);
            collapse_go(t, next, out2, false, true)
        }
    }
}

/// A character that `collapse_blank_runs` trims from the ends.
pub open spec fn edge_char(c: char) -> bool {
    c == '\n' || c == ' ' || c == '\t'
}

pub open spec fn edge_end(s: Seq<char>, i: int) -> int
    decreases s.len() - i,
{
    if 0 <= i < s.len() && edge_char(s[i]) {
        edge_end(s, i + 1)
    } else {
        i
    }
}

pub open spec fn edge_start(s: Seq<char>, lo: int, j: int) -> int
    decreases j - lo,
{
    if lo < j && j <= s.len() && edge_char(s[j - 1]) {
        edge_start(s, lo, j - 1)
    } else {
        j
    }
}

/// `s` with `\n`, space and tab trimmed from both ends.
pub open spec fn trim_edges(s: Seq<char>) -> Seq<char> {
    let a = edge_end(s, 0);
    s.subrange(a, edge_start(s, a, s.len() as int))
}

/// Runs of blank lines collapsed to one paragraph break and the ends trimmed.
/// A line with content is kept byte for byte, indentation included.
pub open spec fn collapsed(t: Seq<char>) -> Seq<char> {
    trim_edges(collapse_go(t, 0, Seq::empty(), false, false))
}

fn is_edge(c: char) -> (r: bool)
    ensures
        r == edge_char(c),
{
    c == '\n' || c == ' ' || c == '\t'
}

fn trim_edges_exec(s: &Vec<char>) -> (r: Vec<char>)
    ensures
        r@ == trim_edges(s@),
{
    let mut a: usize = 0;
    while a < s.len() && is_edge(s[a])
        invariant
            a <= s@.len(),
            edge_end(s@, 0) == edge_end(s@, a as int),
        decreases s.len() - a,
    {
        a = a + 1;
    }
    let mut b: usize = s.len();
    while a < b && is_edge(s[b - 1])
        invariant
            a <= b <= s@.len(),
            edge_start(s@, a as int, s@.len() as int) == edge_start(s@, a as int, b as int),
        decreases b,
    {
        b = b - 1;
    }
    let mut out: Vec<char> = Vec::new();
    push_range(&mut out, s.as_slice(), a, b);
    out
}

/// Drop whitespace-only lines, keeping one empty line where any stood
/// between two kept ones, and trim newlines, spaces and tabs off both ends.
pub fn collapse_blank_runs(t: &[char]) -> (r: Vec<char>)
    ensures
        r@ == collapsed(t@),
{
    let mut out: Vec<char> = Vec::new();
    let mut pending = false;
    let mut wrote = false;
    let mut i: usize = 0;
    let n = t.len();
    while i < n
        invariant
            n == t@.len(),
            i <= n,
            collapse_go(t@, 0, Seq::empty(), false, false) == collapse_go(
                t@,
                i as int,
                out@,
                pending,
                wrote,
            ),
        decreases n - i,
    {
        proof {
            lemma_line_at(t@, i as int);
        }
        let (hi, next) = match find_char_from(t, i, n, '\n') {
            Some(k) => (if k > i && t[k - 1] == '\r' { k - 1 } else { k }, k + 1),
            None => (n, n),
        };
        assert((hi as int, next as int) == line_at(t@, i as int));
        let (a, b) = trim_range(t, i, hi);
        let ghost out0 = out@;
        if a == b {
            pending = true;
        } else {
            if wrote {
                out.push('\n');
                if pending {
                    out.push('\n');
                }
            }
            assert(out@ == (if wrote { out0 + line_break(pending) } else { out0 }));
            push_range(&mut out, t, i, hi);
            pending = false;
            wrote = true;
        }
        i = next;
    }
    trim_edges_exec(&out)
}

/// The three backticks that open and close a fence.
pub open spec fn fence() -> Seq<char> {
    seq!['`', '`', '`']
}

/// Empty fenced blocks dropped, scanning for the next fence pair from `i`;
/// `out` is what has been kept so far and `copied` where copying resumes.
pub open spec fn fences_go(t: Seq<char>, i: int, out: Seq<char>, copied: int) -> Seq<char>
    decreases t.len() - i,
{
    if i < 0 || i > t.len() || copied < 0 || copied > t.len() {
        out
    } else {
        match find_in(t, i, t.len() as int, fence()) {
            None => out + t.subrange(copied, t.len() as int),
            Some(open) => match find_in(t, open + 3, t.len() as int, fence()) {
                None => out + t.subrange(copied, t.len() as int),
                Some(close) => {
                    if close + 3 <= i || close + 3 > t.len() || open + 3 > close {
                        out
                    } else {
                        match find_char(t, open + 3, close, '\n') {
                            None => fences_go(t, close + 3, out, copied),
                            Some(nl) => if trim(t.subrange(nl + 1, close)).len() != 0 || open
                                < copied {
                                fences_go(t, close + 3, out, copied)
                            } else {
                                fences_go(t, close + 3, out + t.subrange(copied, open), close + 3)
                            },
                        }
                    }
                },
            },
        }
    }
}

/// `t` with every fenced block whose body is only whitespace removed. A pair
/// with no line break after its opener is an inline span and is kept, as is
/// an unpaired trailing fence.
pub open spec fn without_empty_fences(t: Seq<char>) -> Seq<char> {
    fences_go(t, 0, Seq::empty(), 0)
}

fn fence_chars() -> (r: Vec<char>)
    ensures
        r@ == fence(),
{
    let r = vec!['`', '`', '`'];
    assert(r@ =~= fence());
    r
}

/// Remove each pair of ``` markers, taken in order, whose opener line is
/// followed by nothing but whitespace before its closer.
pub fn drop_empty_fences(t: &[char]) -> (r: Vec<char>)
    ensures
        r@ == without_empty_fences(t@),
{
    let f = fence_chars();
    let n = t.len();
    let mut out: Vec<char> = Vec::new();
    let mut copied: usize = 0;
    let mut i: usize = 0;
    while i <= n
        invariant
            n == t@.len(),
            f@ == fence(),
            copied <= i <= n,
            without_empty_fences(t@) == fences_go(t@, i as int, out@, copied as int),
        decreases n + 1 - i,
    {
        proof {
            lemma_find_in_bounds(t@, i as int, n as int, fence());
        }
        let open = match find_from(t, i, n, &f) {
            None => {
                push_range(&mut out, t, copied, n);
                return out;
            },
            Some(open) => open,
        };
        proof {
            lemma_find_in_bounds(t@, open + 3, n as int, fence());
        }
        let close = match find_from(t, open + 3, n, &f) {
            None => {
                push_range(&mut out, t, copied, n);
                return out;
            },
            Some(close) => close,
        };
        proof {
            lemma_find_char_bounds(t@, open + 3, close as int, '\n');
        }
        match find_char_from(t, open + 3, close, '\n') {
            None => {},
            Some(nl) => {
                let (a, b) = trim_range(t, nl + 1, close);
                if a == b && open >= copied {
                    push_range(&mut out, t, copied, open);
                    copied = close + 3;
                }
            },
        }
        i = close + 3;
    }
    out
}

/// The narrative kept around `cuts`, from cut `k` on: each cut's start is
/// clamped to where copying resumed, so overlapping cuts never copy
/// backwards.
pub open spec fn kept_go(t: Seq<char>, cuts: Seq<(int, int)>, k: int, out: Seq<char>, copied: int) -> Seq<
    char,
>
    decreases cuts.len() - k,
{
    if k < 0 || k >= cuts.len() {
        out + t.subrange(copied, t.len() as int)
    } else {
        let start = if cuts[k].0 > copied {
            cuts[k].0
        } else {
            copied
        };
        let end = if cuts[k].1 > copied {
            cuts[k].1
        } else {
            copied
        };
        kept_go(t, cuts, k + 1, out + t.subrange(copied, start), end)
    }
}

/// `t` with `cuts` removed, then tidied.
pub open spec fn cut_tidied(t: Seq<char>, cuts: Seq<(int, int)>) -> Seq<char> {
    collapsed(without_empty_fences(kept_go(t, cuts, 0, Seq::empty(), 0)))
}

/// `t` with the spans `cuts` taken out, empty fenced blocks removed, and
/// blank lines collapsed.
pub fn cut_and_tidy_in(t: &[char], cuts: &Vec<(usize, usize)>) -> (r: Vec<char>)
    requires
        forall|k: int| 0 <= k < cuts@.len() ==> (#[trigger] cuts@[k]).0 <= t@.len() && cuts@[k].1 <= t@.len(),
    ensures
        r@ == cut_tidied(t@, Seq::new(cuts@.len(), |k: int| (cuts@[k].0 as int, cuts@[k].1 as int))),
{
    let ghost cs = Seq::new(cuts@.len(), |k: int| (cuts@[k].0 as int, cuts@[k].1 as int));
    let mut kept: Vec<char> = Vec::new();
    let mut copied: usize = 0;
    let mut k: usize = 0;
    while k < cuts.len()
        invariant
            copied <= t@.len(),
            k <= cuts@.len(),
            cs == Seq::new(cuts@.len(), |k: int| (cuts@[k].0 as int, cuts@[k].1 as int)),
            forall|k: int| 0 <= k < cuts@.len() ==> (#[trigger] cuts@[k]).0 <= t@.len() && cuts@[k].1 <= t@.len(),
            kept_go(t@, cs, 0, Seq::empty(), 0) == kept_go(t@, cs, k as int, kept@, copied as int),
        decreases cuts.len() - k,
    {
        let (s, e) = cuts[k];
        let start = if s > copied { s } else { copied };
        push_range(&mut kept, t, copied, start);
        copied = if e > copied { e } else { copied };
        k = k + 1;
    }
    push_range(&mut kept, t, copied, t.len());
    let dropped = drop_empty_fences(&kept);
    collapse_blank_runs(&dropped)
}

/// The byte cuts of `s` as character cuts.
pub open spec fn char_cuts(s: Seq<char>, cuts: Seq<(usize, usize)>) -> Seq<(int, int)> {
    Seq::new(cuts.len(), |k: int| (char_index(s, cuts[k].0 as int), char_index(s, cuts[k].1 as int)))
}

/// `text` with the byte spans `cuts` taken out, empty fenced blocks
/// removed, and blank lines collapsed.
pub fn cut_and_tidy(text: &str, cuts: &[(usize, usize)]) -> (r: String)
    requires
        fits(text@),
        forall|k: int|
            0 <= k < cuts@.len() ==> boundary(text@, (#[trigger] cuts@[k]).0 as int) && boundary(
                text@,
                cuts@[k].1 as int,
            ),
    ensures
        r@ == cut_tidied(text@, char_cuts(text@, cuts@)),
{
    let t = chars_of(text);
    let table = byte_table(t.as_slice());
    let mut cs: Vec<(usize, usize)> = Vec::new();
    let mut k: usize = 0;
    while k < cuts.len()
        invariant
            k <= cuts@.len(),
            cs@.len() == k,
            t@ == text@,
            table@.len() == t@.len() + 1,
            forall|i: int| 0 <= i <= t@.len() ==> #[trigger] table@[i] == byte_at(t@, i),
            forall|q: int|
                0 <= q < cuts@.len() ==> boundary(text@, (#[trigger] cuts@[q]).0 as int) && boundary(
                    text@,
                    cuts@[q].1 as int,
                ),
            forall|q: int|
                0 <= q < k ==> (#[trigger] cs@[q]).0 as int == char_index(text@, cuts@[q].0 as int) && cs@[q].1
                    as int == char_index(text@, cuts@[q].1 as int) && cs@[q].0 <= t@.len() && cs@[q].1 <= t@.len(),
        decreases cuts.len() - k,
    {
        let (s, e) = cuts[k];
        let a = match index_at(t.as_slice(), &table, s) {
            Some(a) => a,
            None => 0,
        };
        let b = match index_at(t.as_slice(), &table, e) {
            Some(b) => b,
            None => 0,
        };
        cs.push((a, b));
        k = k + 1;
    }
    assert(Seq::new(cs@.len(), |q: int| (cs@[q].0 as int, cs@[q].1 as int)) =~= char_cuts(text@, cuts@));
    let r = cut_and_tidy_in(t.as_slice(), &cs);
    string_of(r.as_slice())
}

} // verus!
