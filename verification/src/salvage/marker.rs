//! The call marker a model writes in front of a JSON call object
//! (`function_call:`), which belongs to the call rather than to the
//! narrative.

use vstd::prelude::*;
use crate::salvage::offsets::{boundary, byte_at, byte_table, char_index, fits, index_at};
use crate::text::chars_of;
use crate::text::{alnum, eq_ignore_ascii_case, is_alphanumeric, range_eq_ignore_ascii_case};

verus! {

/// The words that may precede a call object, compared without regard to
/// ASCII case; the longer ones are tried before `call:`.
pub open spec fn call_markers() -> Seq<Seq<char>> {
    seq![
        seq!['f', 'u', 'n', 'c', 't', 'i', 'o', 'n', '_', 'c', 'a', 'l', 'l', ':'],
        seq!['t', 'o', 'o', 'l', '_', 'c', 'a', 'l', 'l', ':'],
        seq!['f', 'u', 'n', 'c', 't', 'i', 'o', 'n', 'c', 'a', 'l', 'l', ':'],
        seq!['c', 'a', 'l', 'l', ':'],
    ]
}

pub open spec fn sp_tab(c: char) -> bool {
    c == ' ' || c == '\t'
}

/// The start of the run of spaces and tabs that ends at `j`.
pub open spec fn sp_tab_start(t: Seq<char>, j: int) -> int
    decreases j,
{
    if 0 < j <= t.len() && sp_tab(t[j - 1]) {
        sp_tab_start(t, j - 1)
    } else {
        j
    }
}

/// Where the text before `start` ends once the gap in front of the object is
/// skipped: spaces and tabs, and at most one line ending (not a blank line).
pub open spec fn marker_end(t: Seq<char>, start: int) -> int {
    let j0 = sp_tab_start(t, start);
    if j0 > 0 && t[j0 - 1] == '\n' {
        let h1 = j0 - 1;
        let head = if h1 > 0 && t[h1 - 1] == '\r' {
            h1 - 1
        } else {
            h1
        };
        if head > 0 && (t[head - 1] == '\n' || t[head - 1] == '\r') {
            j0
        } else {
            sp_tab_start(t, head)
        }
    } else {
        j0
    }
}

/// Where marker `m` starts when it ends at `j` as a word of its own.
pub open spec fn marker_cut(t: Seq<char>, j: int, m: Seq<char>) -> Option<int> {
    let cut = j - m.len();
    if cut >= 0 && j <= t.len() && eq_ignore_ascii_case(t.subrange(cut, j), m) && (cut == 0 || !(
    alnum(t[cut - 1]) || t[cut - 1] == '_')) {
        Some(cut)
    } else {
        None
    }
}

/// The first marker, from the `k`th on, that ends at `j`.
pub open spec fn first_marker(t: Seq<char>, j: int, ms: Seq<Seq<char>>, k: int) -> Option<int>
    decreases ms.len() - k,
{
    if k < 0 || k >= ms.len() {
        None
    } else {
        match marker_cut(t, j, ms[k]) {
            Some(cut) => Some(cut),
            None => first_marker(t, j, ms, k + 1),
        }
    }
}

/// `start` extended backwards over a call marker written in front of the
/// object, and the gap between them.
pub open spec fn marker_start_of(t: Seq<char>, start: int) -> int {
    match first_marker(t, marker_end(t, start), call_markers(), 0) {
        Some(cut) => cut,
        None => start,
    }
}

fn markers() -> (r: Vec<Vec<char>>)
    ensures
        r@.len() == call_markers().len(),
        forall|k: int| 0 <= k < r@.len() ==> (#[trigger] r@[k])@ == call_markers()[k],
{
    let a = vec!['f', 'u', 'n', 'c', 't', 'i', 'o', 'n', '_', 'c', 'a', 'l', 'l', ':'];
    let b = vec!['t', 'o', 'o', 'l', '_', 'c', 'a', 'l', 'l', ':'];
    let c = vec!['f', 'u', 'n', 'c', 't', 'i', 'o', 'n', 'c', 'a', 'l', 'l', ':'];
    let d = vec!['c', 'a', 'l', 'l', ':'];
    assert(a@ =~= call_markers()[0]);
    assert(b@ =~= call_markers()[1]);
    assert(c@ =~= call_markers()[2]);
    assert(d@ =~= call_markers()[3]);
    vec![a, b, c, d]
}

fn sp_tab_back(t: &[char], j: usize) -> (r: usize)
    requires
        j <= t@.len(),
    ensures
        r == sp_tab_start(t@, j as int),
        r <= j,
{
    let mut k = j;
    while k > 0 && (t[k - 1] == ' ' || t[k - 1] == '\t')
        invariant
            k <= j <= t@.len(),
            sp_tab_start(t@, j as int) == sp_tab_start(t@, k as int),
        decreases k,
    {
        k = k - 1;
    }
    k
}

/// Where removing an object starting at `start` should begin: at a call
/// marker directly before it (spaces, tabs and at most one line break
/// between), when that marker stands as a word of its own; else `start`.
pub fn marker_start_in(t: &[char], start: usize) -> (r: usize)
    requires
        start <= t@.len(),
    ensures
        r == marker_start_of(t@, start as int),
        r <= start,
{
    let j0 = sp_tab_back(t, start);
    let mut j = j0;
    if j0 > 0 && t[j0 - 1] == '\n' {
        let h1 = j0 - 1;
        let head = if h1 > 0 && t[h1 - 1] == '\r' { h1 - 1 } else { h1 };
        if !(head > 0 && (t[head - 1] == '\n' || t[head - 1] == '\r')) {
            j = sp_tab_back(t, head);
        }
    }
    assert(j == marker_end(t@, start as int));
    let ms = markers();
    let mut k: usize = 0;
    while k < ms.len()
        invariant
            j <= start <= t@.len(),
            j == marker_end(t@, start as int),
            ms@.len() == call_markers().len(),
            forall|q: int| 0 <= q < ms@.len() ==> (#[trigger] ms@[q])@ == call_markers()[q],
            k <= ms@.len(),
            first_marker(t@, j as int, call_markers(), 0) == first_marker(
                t@,
                j as int,
                call_markers(),
                k as int,
            ),
        decreases ms.len() - k,
    {
        let m = &ms[k];
        if m.len() <= j {
            let cut = j - m.len();
            if range_eq_ignore_ascii_case(t, cut, j, m.as_slice()) {
                let delimited = cut == 0 || !(t[cut - 1] == '_' || is_alphanumeric(t[cut - 1]));
                if delimited {
                    return cut;
                }
            }
        }
        k = k + 1;
    }
    start
}

/// Where removing an object that starts at byte `start` of `text` should
/// begin, as a byte offset: [`marker_start_in`] read over `text`'s
/// characters.
pub fn marker_start(text: &str, start: usize) -> (r: usize)
    requires
        fits(text@),
        boundary(text@, start as int),
    ensures
        r == byte_at(text@, marker_start_of(text@, char_index(text@, start as int))),
{
    let t = chars_of(text);
    let table = byte_table(t.as_slice());
    match index_at(t.as_slice(), &table, start) {
        Some(i) => {
            let c = marker_start_in(t.as_slice(), i);
            table[c]
        },
        None => start,
    }
}

} // verus!
