//! What holds of every recovery, whatever the reply: only offered tools are
//! called, always with an object of arguments, under distinct ids, and the
//! removed calls come left to right without overlapping.

use vstd::prelude::*;
use crate::json::JsonV;
use crate::salvage::calls::as_known_call_spec;
use crate::salvage::candidates::{
    elements_all, elements_go, element_calls, json_calls, json_cands_go, tag_calls, tag_calls_go, CandV,
};
use crate::salvage::recover::{
    all_candidates, chosen, ins_pos, lemma_ins_pos_bounds, lemma_salvaged_ids_distinct, recover_spec,
    salvage_spec, salvaged_id, select_go, stable_sort, stable_sort_go,
};
use crate::order::{lemma_sort_names_members, sorted_names};
use crate::salvage::tags::find_tag_spec;
use crate::salvage::words::w_invoke;
use crate::salvage::authorize::{authorized_names, schema_names};
use crate::tools::{ToolChoice, ToolSchema};

verus! {

/// Every candidate names a tool in `known` and carries an object of
/// arguments.
pub open spec fn cands_ok(c: Seq<CandV>, known: Seq<Seq<char>>) -> bool {
    forall|k: int| 0 <= k < c.len() ==> known.contains((#[trigger] c[k]).2) && c[k].3 is Object
}

proof fn lemma_push_ok(c: Seq<CandV>, known: Seq<Seq<char>>, x: CandV)
    requires
        cands_ok(c, known),
        known.contains(x.2),
        x.3 is Object,
    ensures
        cands_ok(c.push(x), known),
{
    assert forall|k: int| 0 <= k < c.push(x).len() implies known.contains((#[trigger] c.push(x)[k]).2)
        && c.push(x)[k].3 is Object by {
        if k < c.len() {
            assert(c.push(x)[k] == c[k]);
        }
    }
}

proof fn lemma_json_cands_ok(t: Seq<char>, spans: Seq<(int, int)>, known: Seq<Seq<char>>, k: int, acc: Seq<CandV>)
    requires
        cands_ok(acc, known),
    ensures
        cands_ok(json_cands_go(t, spans, known, k, acc), known),
    decreases spans.len() - k,
{
    if 0 <= k < spans.len() {
        let s = spans[k].0;
        let e = spans[k].1;
        match crate::json::json_parse(t.subrange(s, e)) {
            None => {
                lemma_json_cands_ok(t, spans, known, k + 1, acc);
            },
            Some(v) => {
                let cut = crate::salvage::marker::marker_start_of(t, s);
                match as_known_call_spec(v, known, cut != s) {
                    Some(c) => {
                        lemma_push_ok(acc, known, (cut, e, c.0, c.1));
                        lemma_json_cands_ok(t, spans, known, k + 1, acc.push((cut, e, c.0, c.1)));
                    },
                    None => {
                        lemma_json_cands_ok(t, spans, known, k + 1, acc);
                    },
                }
            },
        }
    }
}

proof fn lemma_tag_calls_ok(
    t: Seq<char>,
    known: Seq<Seq<char>>,
    schemas: Seq<(Seq<char>, JsonV)>,
    from: int,
    acc: Seq<CandV>,
)
    requires
        cands_ok(acc, known),
    ensures
        cands_ok(tag_calls_go(t, known, schemas, from, acc), known),
    decreases t.len() - from,
{
    match find_tag_spec(t, from, w_invoke(), false) {
        None => {},
        Some(open) => match find_tag_spec(t, open.1, w_invoke(), true) {
            None => {},
            Some(close) => {
                let acc2 = match crate::salvage::attrs::attr_spec(t, open.2, open.3, crate::salvage::words::w_name()) {
                    Some(n) => if known.contains(n) {
                        match crate::salvage::candidates::tag_args(
                            t.subrange(open.1, close.0),
                            crate::json::obj_get(schemas, n),
                        ) {
                            Some(a) => {
                                lemma_push_ok(acc, known, (open.0, close.1, n, JsonV::Object(a)));
                                acc.push((open.0, close.1, n, JsonV::Object(a)))
                            },
                            None => acc,
                        }
                    } else {
                        acc
                    },
                    None => acc,
                };
                assert(acc2 == match crate::salvage::attrs::attr_spec(t, open.2, open.3, crate::salvage::words::w_name()) {
                    Some(n) => if known.contains(n) {
                        match crate::salvage::candidates::tag_args(
                            t.subrange(open.1, close.0),
                            crate::json::obj_get(schemas, n),
                        ) {
                            Some(a) => acc.push((open.0, close.1, n, JsonV::Object(a))),
                            None => acc,
                        }
                    } else {
                        acc
                    },
                    None => acc,
                });
                if from < close.1 <= t.len() {
                    lemma_tag_calls_ok(t, known, schemas, close.1, acc2);
                }
            },
        },
    }
}

proof fn lemma_elements_go_ok(t: Seq<char>, known: Seq<Seq<char>>, name: Seq<char>, from: int, acc: Seq<CandV>)
    requires
        cands_ok(acc, known),
        known.contains(name),
    ensures
        cands_ok(elements_go(t, name, from, acc), known),
    decreases t.len() - from,
{
    match find_tag_spec(t, from, name, false) {
        None => {},
        Some(open) => {
            let acc2 = if crate::salvage::candidates::self_closing(t, open.2, open.3) {
                let x = (
                    open.0,
                    open.1,
                    name,
                    JsonV::Object(crate::salvage::candidates::element_args(t, open.2, open.3, open.1, open.1)),
                );
                lemma_push_ok(acc, known, x);
                acc.push(x)
            } else {
                match find_tag_spec(t, open.1, name, true) {
                    None => acc,
                    Some(close) => {
                        let x = (
                            open.0,
                            close.1,
                            name,
                            JsonV::Object(
                                crate::salvage::candidates::element_args(t, open.2, open.3, open.1, close.0),
                            ),
                        );
                        lemma_push_ok(acc, known, x);
                        acc.push(x)
                    },
                }
            };
            if from < open.1 <= t.len() {
                lemma_elements_go_ok(t, known, name, open.1, acc2);
            }
        },
    }
}

proof fn lemma_elements_all_ok(t: Seq<char>, names: Seq<Seq<char>>, known: Seq<Seq<char>>, q: int, acc: Seq<CandV>)
    requires
        cands_ok(acc, known),
        forall|i: int| 0 <= i < names.len() ==> known.contains(#[trigger] names[i]),
    ensures
        cands_ok(elements_all(t, names, q, acc), known),
    decreases names.len() - q,
{
    if 0 <= q < names.len() {
        lemma_elements_go_ok(t, known, names[q], 0, acc);
        lemma_elements_all_ok(t, names, known, q + 1, elements_go(t, names[q], 0, acc));
    }
}

proof fn lemma_sort_members<A>(s: Seq<A>, key: spec_fn(A) -> int, k: int, acc: Seq<A>)
    requires
        0 <= k <= s.len(),
    ensures
        forall|i: int|
            0 <= i < stable_sort_go(s, key, k, acc).len() ==> acc.contains(
                #[trigger] stable_sort_go(s, key, k, acc)[i],
            ) || s.contains(stable_sort_go(s, key, k, acc)[i]),
    decreases s.len() - k,
{
    let r = stable_sort_go(s, key, k, acc);
    if k < s.len() {
        let p = ins_pos(acc, key, key(s[k]), 0);
        lemma_ins_pos_bounds(acc, key, key(s[k]), 0);
        let acc2 = acc.insert(p, s[k]);
        acc.insert_ensures(p, s[k]);
        lemma_sort_members(s, key, k + 1, acc2);
        assert(r == stable_sort_go(s, key, k + 1, acc2));
        assert forall|i: int| 0 <= i < r.len() implies acc.contains(#[trigger] r[i]) || s.contains(r[i]) by {
            if acc2.contains(r[i]) {
                let w = choose|w: int| 0 <= w < acc2.len() && acc2[w] == r[i];
                if w < p {
                    assert(acc[w] == r[i]);
                } else if w == p {
                    assert(s[k] == r[i]);
                } else {
                    assert(acc2[(w - 1) + 1] == acc[w - 1]);
                    assert(acc[w - 1] == r[i]);
                }
            }
        }
    } else {
        assert(r == acc);
        assert forall|i: int| 0 <= i < r.len() implies acc.contains(#[trigger] r[i]) || s.contains(r[i]) by {
            assert(acc[i] == r[i]);
        }
    }
}

proof fn lemma_select_members(c: Seq<CandV>, k: int, consumed: int, picked: Seq<CandV>)
    ensures
        forall|i: int|
            0 <= i < select_go(c, k, consumed, picked).len() ==> picked.contains(
                #[trigger] select_go(c, k, consumed, picked)[i],
            ) || c.contains(select_go(c, k, consumed, picked)[i]),
    decreases c.len() - k,
{
    let r = select_go(c, k, consumed, picked);
    if 0 <= k < c.len() {
        if c[k].0 < consumed {
            lemma_select_members(c, k + 1, consumed, picked);
            assert(r == select_go(c, k + 1, consumed, picked));
        } else {
            let p2 = picked.push(c[k]);
            lemma_select_members(c, k + 1, c[k].1, p2);
            assert(r == select_go(c, k + 1, c[k].1, p2));
            assert forall|i: int| 0 <= i < r.len() implies picked.contains(#[trigger] r[i]) || c.contains(r[i]) by {
                if p2.contains(r[i]) {
                    let w = choose|w: int| 0 <= w < p2.len() && p2[w] == r[i];
                    if w < picked.len() {
                        assert(picked[w] == r[i]);
                    } else {
                        assert(c[k] == r[i]);
                    }
                }
            }
        }
    } else {
        assert(r == picked);
        assert forall|i: int| 0 <= i < r.len() implies picked.contains(#[trigger] r[i]) || c.contains(r[i]) by {
            assert(picked[i] == r[i]);
        }
    }
}

proof fn lemma_contains_ok(c: Seq<CandV>, known: Seq<Seq<char>>, x: CandV)
    requires
        cands_ok(c, known),
        c.contains(x),
    ensures
        known.contains(x.2),
        x.3 is Object,
{
    let w = choose|w: int| 0 <= w < c.len() && c[w] == x;
    assert(known.contains(c[w].2));
}

/// A recovery that gives anything back gives at least one call, and every
/// recovered call is to a tool the turn offered and carries an object of
/// arguments.
pub proof fn lemma_recovered_calls_are_offered(
    t: Seq<char>,
    known: Seq<Seq<char>>,
    schemas: Seq<(Seq<char>, JsonV)>,
)
    ensures
        salvage_spec(t, known, schemas) matches Some((_, calls)) ==> calls.len() > 0 && forall|i: int|
            0 <= i < calls.len() ==> known.contains((#[trigger] calls[i]).1) && calls[i].2 is Object,
{
    let empty: Seq<CandV> = Seq::empty();
    lemma_json_cands_ok(t, crate::salvage::spans::object_spans(t), known, 0, empty);
    lemma_tag_calls_ok(t, known, schemas, 0, empty);
    let names = sorted_names(known);
    lemma_sort_names_members(known, 0, Seq::empty());
    assert forall|i: int| 0 <= i < names.len() implies known.contains(#[trigger] names[i]) by {
        assert(names.contains(names[i]));
        assert(known.subrange(0, known.len() as int) =~= known);
    }
    lemma_elements_all_ok(t, names, known, 0, empty);
    let all = all_candidates(t, known, schemas);
    let j = json_calls(t, known);
    let g = tag_calls(t, known, schemas);
    let e = element_calls(t, names);
    assert(cands_ok(all, known)) by {
        assert forall|k: int| 0 <= k < all.len() implies known.contains((#[trigger] all[k]).2) && all[k].3 is Object by {
            if k < j.len() {
                assert(all[k] == j[k]);
            } else if k < j.len() + g.len() {
                assert(all[k] == g[k - j.len()]);
            } else {
                assert(all[k] == e[k - j.len() - g.len()]);
            }
        }
    }
    let key = |c: CandV| crate::salvage::recover::cand_start(c);
    let sorted = stable_sort(all, key);
    lemma_sort_members(all, key, 0, Seq::empty());
    assert(cands_ok(sorted, known)) by {
        assert forall|k: int| 0 <= k < sorted.len() implies known.contains((#[trigger] sorted[k]).2)
            && sorted[k].3 is Object by {
            assert(Seq::<CandV>::empty().contains(sorted[k]) || all.contains(sorted[k]));
            lemma_contains_ok(all, known, sorted[k]);
        }
    }
    let ch = chosen(t, known, schemas);
    lemma_select_members(sorted, 0, 0, Seq::empty());
    assert(cands_ok(ch, known)) by {
        assert forall|k: int| 0 <= k < ch.len() implies known.contains((#[trigger] ch[k]).2) && ch[k].3 is Object by {
            assert(Seq::<CandV>::empty().contains(ch[k]) || sorted.contains(ch[k]));
            lemma_contains_ok(sorted, known, ch[k]);
        }
    }
}

/// A turn that offered no tool, or a reply with no text, recovers nothing.
pub proof fn lemma_nothing_offered_nothing_recovered(
    content: Seq<char>,
    offered: Seq<Seq<char>>,
    schemas: Seq<(Seq<char>, JsonV)>,
)
    requires
        offered.len() == 0 || content.len() == 0,
    ensures
        recover_spec(content, offered, schemas) is None,
{
}

/// A turn that told the model to call no tool recovers nothing from its
/// reply, whatever tools it sent; one pinned to a tool it did not send
/// recovers nothing either.
pub proof fn lemma_unauthorized_turn_recovers_nothing(
    content: Seq<char>,
    tools: Seq<ToolSchema>,
    choice: ToolChoice,
    schemas: Seq<(Seq<char>, JsonV)>,
)
    requires
        choice is NoTools || (choice matches ToolChoice::Tool(n) && !schema_names(tools).contains(n@)),
    ensures
        recover_spec(content, authorized_names(tools, choice), schemas) is None,
{
}

/// The recovered calls are numbered by position: the `i`-th gets the id
/// `salvaged_call_{i}`, so no two share one.
pub proof fn lemma_recovered_ids(t: Seq<char>, known: Seq<Seq<char>>, schemas: Seq<(Seq<char>, JsonV)>)
    ensures
        salvage_spec(t, known, schemas) matches Some((_, calls)) ==> (forall|i: int|
            0 <= i < calls.len() ==> (#[trigger] calls[i]).0 == salvaged_id(i as nat)) && (forall|i: int, j: int|
            0 <= i < j < calls.len() ==> (#[trigger] calls[i]).0 != (#[trigger] calls[j]).0),
{
    if let Some((_, calls)) = salvage_spec(t, known, schemas) {
        assert forall|i: int, j: int| 0 <= i < j < calls.len() implies (#[trigger] calls[i]).0
            != (#[trigger] calls[j]).0 by {
            lemma_salvaged_ids_distinct(i as nat, j as nat);
        }
    }
}

proof fn lemma_select_order(c: Seq<CandV>, k: int, consumed: int, picked: Seq<CandV>)
    requires
        picked.len() > 0 ==> picked.last().1 <= consumed,
        forall|i: int| 0 <= i < picked.len() - 1 ==> (#[trigger] picked[i]).1 <= picked[i + 1].0,
    ensures
        forall|i: int|
            0 <= i < select_go(c, k, consumed, picked).len() - 1 ==> (#[trigger] select_go(
                c,
                k,
                consumed,
                picked,
            )[i]).1 <= select_go(c, k, consumed, picked)[i + 1].0,
    decreases c.len() - k,
{
    let r = select_go(c, k, consumed, picked);
    if 0 <= k < c.len() {
        if c[k].0 < consumed {
            lemma_select_order(c, k + 1, consumed, picked);
            assert(r == select_go(c, k + 1, consumed, picked));
        } else {
            let p2 = picked.push(c[k]);
            assert forall|i: int| 0 <= i < p2.len() - 1 implies (#[trigger] p2[i]).1 <= p2[i + 1].0 by {
                if i < picked.len() - 1 {
                    assert(p2[i] == picked[i] && p2[i + 1] == picked[i + 1]);
                } else {
                    assert(p2[i] == picked.last());
                }
            }
            lemma_select_order(c, k + 1, c[k].1, p2);
            assert(r == select_go(c, k + 1, c[k].1, p2));
        }
    } else {
        assert(r == picked);
    }
}

/// The calls recovered from one reply come left to right, and each ends
/// before the next begins: never twice over the same characters.
pub proof fn lemma_recovered_spans_in_order(t: Seq<char>, known: Seq<Seq<char>>, schemas: Seq<(Seq<char>, JsonV)>)
    ensures
        forall|i: int|
            0 <= i < chosen(t, known, schemas).len() - 1 ==> (#[trigger] chosen(t, known, schemas)[i]).1
                <= chosen(t, known, schemas)[i + 1].0,
{
    let key = |c: CandV| crate::salvage::recover::cand_start(c);
    lemma_select_order(stable_sort(all_candidates(t, known, schemas), key), 0, 0, Seq::empty());
}

} // verus!
