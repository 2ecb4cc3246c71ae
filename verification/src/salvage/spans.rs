//! Top-level balanced `{…}` runs in a text.

use vstd::prelude::*;
use crate::salvage::offsets::{byte_at, byte_table, fits, spans_to_bytes};
use crate::text::chars_of;

verus! {

/// The scanner's state between two characters: brace depth, where the
/// current top-level run started, and whether it is inside a JSON string
/// (and just after a backslash there).
pub type SpanState = (int, int, bool, bool);

/// One character's effect on the scanner, and the span it completes, if any.
pub open spec fn span_step(c: char, i: int, st: SpanState) -> (SpanState, Option<(int, int)>) {
    let (depth, start, in_string, escaped) = st;
    if in_string {
        if escaped {
            ((depth, start, true, false), None)
        } else if c == '\\' {
            ((depth, start, true, true), None)
        } else if c == '"' {
            ((depth, start, false, false), None)
        } else {
            (st, None)
        }
    } else if c == '"' && depth > 0 {
        ((depth, start, true, escaped), None)
    } else if c == '{' {
        ((depth + 1, if depth == 0 { i } else { start }, false, escaped), None)
    } else if c == '}' && depth > 0 {
        if depth == 1 {
            ((0, start, false, escaped), Some((start, i + 1)))
        } else {
            ((depth - 1, start, false, escaped), None)
        }
    } else {
        (st, None)
    }
}

/// The spans completed from position `i` on, in state `st`.
pub open spec fn spans_from(t: Seq<char>, i: int, st: SpanState) -> Seq<(int, int)>
    decreases t.len() - i,
{
    if i < 0 || i >= t.len() {
        Seq::empty()
    } else {
        let (st2, done) = span_step(t[i], i, st);
        match done {
            Some(sp) => seq![sp] + spans_from(t, i + 1, st2),
            None => spans_from(t, i + 1, st2),
        }
    }
}

/// Every top-level balanced `{…}` run of `t`, left to right, as
/// `(start, end)` positions. A brace inside a JSON string, or a quote escaped
/// inside one, does not move the depth.
pub open spec fn object_spans(t: Seq<char>) -> Seq<(int, int)> {
    spans_from(t, 0, (0, 0, false, false))
}

/// Spans within `0..len`, each non-empty.
pub open spec fn spans_within(s: Seq<(int, int)>, len: int) -> bool {
    forall|k: int| 0 <= k < s.len() ==> 0 <= (#[trigger] s[k]).0 < s[k].1 <= len
}

pub open spec fn state_ok(st: SpanState, i: int) -> bool {
    st.0 >= 0 && (st.0 > 0 ==> 0 <= st.1 < i)
}

pub proof fn lemma_spans_within(t: Seq<char>, i: int, st: SpanState)
    requires
        0 <= i,
        state_ok(st, i),
    ensures
        spans_within(spans_from(t, i, st), t.len() as int),
    decreases t.len() - i,
{
    if i < t.len() {
        let (st2, done) = span_step(t[i], i, st);
        lemma_spans_within(t, i + 1, st2);
        let rest = spans_from(t, i + 1, st2);
        match done {
            Some(sp) => {
                let all = seq![sp] + rest;
                assert forall|k: int| 0 <= k < all.len() implies 0 <= (#[trigger] all[k]).0
                    < all[k].1 <= t.len() by {
                    if k > 0 {
                        assert(all[k] == rest[k - 1]);
                    }
                }
            },
            None => {},
        }
    }
}

/// The least start any span completed from here on can have.
pub open spec fn span_floor(i: int, st: SpanState) -> int {
    if st.0 > 0 {
        st.1
    } else {
        i
    }
}

proof fn lemma_spans_shape(t: Seq<char>, i: int, st: SpanState)
    requires
        0 <= i,
        st.0 >= 0,
        st.0 > 0 ==> 0 <= st.1 < i && st.1 < t.len() && t[st.1] == '{',
    ensures
        forall|k: int|
            0 <= k < spans_from(t, i, st).len() ==> span_floor(i, st) <= (#[trigger] spans_from(t, i, st)[k]).0
                < spans_from(t, i, st)[k].1 <= t.len() && t[spans_from(t, i, st)[k].0] == '{' && t[spans_from(
                t,
                i,
                st,
            )[k].1 - 1] == '}',
        forall|k: int|
            0 <= k < spans_from(t, i, st).len() - 1 ==> (#[trigger] spans_from(t, i, st)[k]).1 <= spans_from(
                t,
                i,
                st,
            )[k + 1].0,
    decreases t.len() - i,
{
    if i < t.len() {
        let (st2, done) = span_step(t[i], i, st);
        lemma_spans_shape(t, i + 1, st2);
        let rest = spans_from(t, i + 1, st2);
        assert(span_floor(i + 1, st2) >= span_floor(i, st));
        match done {
            Some(sp) => {
                let all = seq![sp] + rest;
                assert(all == spans_from(t, i, st));
                assert(sp == (st.1, i + 1));
                assert forall|k: int| 0 <= k < all.len() implies span_floor(i, st) <= (#[trigger] all[k]).0
                    < all[k].1 <= t.len() && t[all[k].0] == '{' && t[all[k].1 - 1] == '}' by {
                    if k > 0 {
                        assert(all[k] == rest[k - 1]);
                    }
                }
                assert forall|k: int| 0 <= k < all.len() - 1 implies (#[trigger] all[k]).1 <= all[k + 1].0 by {
                    if k > 0 {
                        assert(all[k] == rest[k - 1]);
                        assert(all[k + 1] == rest[k]);
                    } else {
                        assert(all[1] == rest[0]);
                    }
                }
            },
            None => {
                assert(rest == spans_from(t, i, st));
            },
        }
    }
}

/// What the scanner finds, stated directly: each span runs from a `{` to a
/// `}`, within the text, and the spans come left to right, each ending
/// before the next begins, so none lies inside another.
pub proof fn lemma_object_spans_shape(t: Seq<char>)
    ensures
        forall|k: int|
            0 <= k < object_spans(t).len() ==> 0 <= (#[trigger] object_spans(t)[k]).0 < object_spans(t)[k].1
                <= t.len() && t[object_spans(t)[k].0] == '{' && t[object_spans(t)[k].1 - 1] == '}',
        forall|k: int|
            0 <= k < object_spans(t).len() - 1 ==> (#[trigger] object_spans(t)[k]).1 <= object_spans(t)[k + 1].0,
{
    lemma_spans_shape(t, 0, (0, 0, false, false));
}

/// `object_spans` as code.
pub fn object_spans_in(t: &[char]) -> (r: Vec<(usize, usize)>)
    ensures
        r@.len() == object_spans(t@).len(),
        forall|k: int|
            0 <= k < r@.len() ==> (#[trigger] r@[k]).0 as int == object_spans(t@)[k].0
                && r@[k].1 as int == object_spans(t@)[k].1,
        spans_within(object_spans(t@), t@.len() as int),
{
    let mut spans: Vec<(usize, usize)> = Vec::new();
    let mut depth: usize = 0;
    let mut start: usize = 0;
    let mut in_string = false;
    let mut escaped = false;
    let mut i: usize = 0;
    let ghost mut acc: Seq<(int, int)> = Seq::empty();
    proof {
        lemma_spans_within(t@, 0, (0, 0, false, false));
    }
    while i < t.len()
        invariant
            i <= t@.len(),
            depth <= i,
            depth > 0 ==> start < i,
            spans@.len() == acc.len(),
            forall|k: int|
                0 <= k < acc.len() ==> (#[trigger] spans@[k]).0 as int == acc[k].0 && spans@[k].1
                    as int == acc[k].1,
            object_spans(t@) == acc + spans_from(
                t@,
                i as int,
                (depth as int, start as int, in_string, escaped),
            ),
        decreases t.len() - i,
    {
        let ghost st = (depth as int, start as int, in_string, escaped);
        let ghost nxt = span_step(t@[i as int], i as int, st);
        let c = t[i];
        let mut done: Option<(usize, usize)> = None;
        if in_string {
            if escaped {
                escaped = false;
            } else if c == '\\' {
                escaped = true;
            } else if c == '"' {
                in_string = false;
            }
        } else if c == '"' && depth > 0 {
            in_string = true;
        } else if c == '{' {
            if depth == 0 {
                start = i;
            }
            depth = depth + 1;
        } else if c == '}' && depth > 0 {
            depth = depth - 1;
            if depth == 0 {
                done = Some((start, i + 1));
            }
        }
        proof {
            assert(nxt.0 == (depth as int, start as int, in_string, escaped));
            let old_acc = acc;
            match done {
                Some(sp) => {
                    acc = acc.push((sp.0 as int, sp.1 as int));
                    assert(old_acc + spans_from(t@, i as int, st) == acc + spans_from(
                        t@,
                        i + 1,
                        nxt.0,
                    ));
                },
                None => {},
            }
        }
        match done {
            Some(sp) => spans.push(sp),
            None => {},
        }
        i = i + 1;
    }
    assert(acc + spans_from(t@, i as int, (depth as int, start as int, in_string, escaped)) == acc);
    spans
}

/// The balanced top-level `{…}` runs of `text`, left to right, as byte
/// offsets into `text`: each run's start, and the offset just past its `}`.
pub fn json_object_spans(text: &str) -> (r: Vec<(usize, usize)>)
    requires
        fits(text@),
    ensures
        r@.len() == object_spans(text@).len(),
        forall|k: int|
            0 <= k < r@.len() ==> (#[trigger] r@[k]).0 == byte_at(text@, object_spans(text@)[k].0) && r@[k].1
                == byte_at(text@, object_spans(text@)[k].1),
{
    let t = chars_of(text);
    let spans = object_spans_in(t.as_slice());
    let table = byte_table(t.as_slice());
    let r = spans_to_bytes(t.as_slice(), &table, &spans);
    assert forall|k: int| 0 <= k < r@.len() implies (#[trigger] r@[k]).0 == byte_at(text@, object_spans(text@)[k].0)
        && r@[k].1 == byte_at(text@, object_spans(text@)[k].1) by {
        assert(spans@[k].0 as int == object_spans(t@)[k].0);
    }
    r
}

} // verus!
