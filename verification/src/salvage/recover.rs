//! Choosing among the candidates, and turning the chosen ones into calls
//! and the narrative left around them.

use vstd::prelude::*;
use crate::json::{Json, JsonV, json_clone, jview, pairs_view};
use crate::salvage::calls::strings_view;
use crate::salvage::candidates::{
    cand_view, cands_view, cands_within, element_calls, json_calls, json_candidates, tag_candidates_in,
    tag_calls, element_candidates_in, CandV, Candidate,
};
use crate::salvage::tags::{find_tag_in, find_tag_spec};
use crate::salvage::tidy::{cut_and_tidy_in, cut_tidied};
use crate::salvage::words::{
    w_call_id_prefix, w_call_id_prefix_chars, w_tool_call, w_tool_call_chars, w_tool_calls,
    w_tool_calls_chars,
};
use crate::order::{chars_seqs, sort_names, sorted_names};
use crate::text::{chars_of, decimal, decimal_chars, lemma_decimal_injective, push_all, string_of};
use crate::tools::{call_v, calls_view, CallV, ToolCall};

verus! {

broadcast use vstd::std_specs::vec::group_vec_axioms;

// ---------------------------------------------------------------- call ids

/// The id given to the `i`-th recovered call: `salvaged_call_{i}`.
pub open spec fn salvaged_id(i: nat) -> Seq<char> {
    w_call_id_prefix() + decimal(i)
}

/// The id given to a recovered call, by its position among the calls
/// recovered from one response.
pub fn salvaged_call_id(index: usize) -> (r: String)
    ensures
        r@ == salvaged_id(index as nat),
{
    let digits = decimal_chars(index as u64);
    let mut out = w_call_id_prefix_chars();
    push_all(&mut out, digits.as_slice());
    string_of(out.as_slice())
}

/// Two recovered calls at different positions never share an id, so each
/// tool result pairs back to exactly one call.
pub proof fn lemma_salvaged_ids_distinct(i: nat, j: nat)
    requires
        i != j,
    ensures
        salvaged_id(i) != salvaged_id(j),
{
    if salvaged_id(i) == salvaged_id(j) {
        let p = w_call_id_prefix();
        assert(salvaged_id(i).subrange(p.len() as int, salvaged_id(i).len() as int) =~= decimal(i));
        assert(salvaged_id(j).subrange(p.len() as int, salvaged_id(j).len() as int) =~= decimal(j));
        lemma_decimal_injective(i, j);
    }
}

// ------------------------------------------------------------------ ordering

/// Where `x` goes in `s` so that it follows every element keyed no later
/// than it: the first position from `k` on whose key is greater.
pub open spec fn ins_pos<A>(s: Seq<A>, key: spec_fn(A) -> int, x: int, k: int) -> int
    decreases s.len() - k,
{
    if k < 0 || k >= s.len() {
        s.len() as int
    } else if key(s[k]) > x {
        k
    } else {
        ins_pos(s, key, x, k + 1)
    }
}

/// `s` from the `k`-th element on inserted, one by one, into `acc`.
pub open spec fn stable_sort_go<A>(s: Seq<A>, key: spec_fn(A) -> int, k: int, acc: Seq<A>) -> Seq<A>
    decreases s.len() - k,
{
    if k < 0 || k >= s.len() {
        acc
    } else {
        stable_sort_go(s, key, k + 1, acc.insert(ins_pos(acc, key, key(s[k]), 0), s[k]))
    }
}

/// `s` ordered by `key`, elements with equal keys keeping their order: what
/// `sort_by_key` gives.
pub open spec fn stable_sort<A>(s: Seq<A>, key: spec_fn(A) -> int) -> Seq<A> {
    stable_sort_go(s, key, 0, Seq::empty())
}

pub proof fn lemma_ins_pos_bounds<A>(s: Seq<A>, key: spec_fn(A) -> int, x: int, k: int)
    requires
        0 <= k <= s.len(),
    ensures
        k <= ins_pos(s, key, x, k) <= s.len(),
    decreases s.len() - k,
{
    if k < s.len() && !(key(s[k]) > x) {
        lemma_ins_pos_bounds(s, key, x, k + 1);
    }
}

pub open spec fn cand_start(c: CandV) -> int {
    c.0
}

pub open spec fn span_start(p: (int, int)) -> int {
    p.0
}

// ----------------------------------------------------------------- selection

/// The candidates of `c` from the `k`-th on taken left to right, skipping
/// any that starts before `consumed`, where the last one taken ended.
pub open spec fn select_go(c: Seq<CandV>, k: int, consumed: int, chosen: Seq<CandV>) -> Seq<CandV>
    decreases c.len() - k,
{
    if k < 0 || k >= c.len() {
        chosen
    } else if c[k].0 < consumed {
        select_go(c, k + 1, consumed, chosen)
    } else {
        select_go(c, k + 1, c[k].1, chosen.push(c[k]))
    }
}

/// Every candidate in `t`: JSON objects, then `<invoke>` calls, each in the
/// order found, then tool elements, name by name in ascending order.
pub open spec fn all_candidates(t: Seq<char>, known: Seq<Seq<char>>, schemas: Seq<(Seq<char>, JsonV)>) -> Seq<
    CandV,
> {
    json_calls(t, known) + tag_calls(t, known, schemas) + element_calls(t, sorted_names(known))
}

/// The candidates recovered from `t`: ordered by start, and taken so that
/// no two overlap and an enclosing call wins over what it encloses.
pub open spec fn chosen(t: Seq<char>, known: Seq<Seq<char>>, schemas: Seq<(Seq<char>, JsonV)>) -> Seq<
    CandV,
> {
    select_go(stable_sort(all_candidates(t, known, schemas), |c: CandV| cand_start(c)), 0, 0, Seq::empty())
}

/// The spans the chosen candidates remove.
pub open spec fn cut_spans(ch: Seq<CandV>) -> Seq<(int, int)> {
    Seq::new(ch.len(), |k: int| (ch[k].0, ch[k].1))
}

// ----------------------------------------------------------------- envelopes

/// Whether some cut lies within `a..b`.
pub open spec fn wraps_cut(cuts: Seq<(int, int)>, a: int, b: int) -> bool {
    exists|k: int| 0 <= k < cuts.len() && (#[trigger] cuts[k]).0 >= a && cuts[k].1 <= b
}

/// The open and close tags of each `kw` envelope, from `from` on, that wraps
/// one of `cuts`, appended to `acc`.
pub open spec fn envelope_go(
    t: Seq<char>,
    kw: Seq<char>,
    cuts: Seq<(int, int)>,
    from: int,
    acc: Seq<(int, int)>,
) -> Seq<(int, int)>
    decreases t.len() - from,
{
    match find_tag_spec(t, from, kw, false) {
        None => acc,
        Some(open) => match find_tag_spec(t, open.1, kw, true) {
            None => acc,
            Some(close) => {
                let acc2 = if wraps_cut(cuts, open.1, close.0) {
                    acc.push((open.0, open.1)).push((close.0, close.1))
                } else {
                    acc
                };
                if from < close.1 <= t.len() {
                    envelope_go(t, kw, cuts, close.1, acc2)
                } else {
                    acc2
                }
            },
        },
    }
}

/// The open and close tags of every `<tool_calls>` and then every
/// `<tool_call>` envelope with a cut inside it.
pub open spec fn envelope_spans(t: Seq<char>, cuts: Seq<(int, int)>) -> Seq<(int, int)> {
    envelope_go(t, w_tool_call(), cuts, 0, envelope_go(t, w_tool_calls(), cuts, 0, Seq::empty()))
}

pub open spec fn spans_view(v: Seq<(usize, usize)>) -> Seq<(int, int)> {
    Seq::new(v.len(), |k: int| (v[k].0 as int, v[k].1 as int))
}

pub open spec fn spans_fit(s: Seq<(int, int)>, len: int) -> bool {
    forall|k: int| 0 <= k < s.len() ==> 0 <= (#[trigger] s[k]).0 <= s[k].1 <= len
}

fn wraps_any(cuts: &Vec<(usize, usize)>, a: usize, b: usize) -> (r: bool)
    ensures
        r == wraps_cut(spans_view(cuts@), a as int, b as int),
{
    let ghost cv = spans_view(cuts@);
    let mut k: usize = 0;
    while k < cuts.len()
        invariant
            k <= cuts@.len(),
            cv == spans_view(cuts@),
            forall|q: int| 0 <= q < k ==> !((#[trigger] cv[q]).0 >= a && cv[q].1 <= b),
        decreases cuts.len() - k,
    {
        if cuts[k].0 >= a && cuts[k].1 <= b {
            assert(cv[k as int].0 >= a && cv[k as int].1 <= b);
            return true;
        }
        k = k + 1;
    }
    false
}

fn push_span(v: &mut Vec<(usize, usize)>, p: (usize, usize))
    ensures
        spans_view(final(v)@) == spans_view(old(v)@).push((p.0 as int, p.1 as int)),
{
    v.push(p);
    assert(spans_view(v@) =~= spans_view(old(v)@).push((p.0 as int, p.1 as int)));
}

fn envelope_spans_of(t: &[char], cuts: &Vec<(usize, usize)>, kw: &[char], spans: &mut Vec<(usize, usize)>)
    requires
        spans_fit(spans_view(old(spans)@), t@.len() as int),
    ensures
        spans_view(final(spans)@) == envelope_go(t@, kw@, spans_view(cuts@), 0, spans_view(old(spans)@)),
        spans_fit(spans_view(final(spans)@), t@.len() as int),
{
    let ghost cv = spans_view(cuts@);
    let mut from: usize = 0;
    loop
        invariant
            from <= t@.len(),
            cv == spans_view(cuts@),
            envelope_go(t@, kw@, cv, 0, spans_view(old(spans)@)) == envelope_go(
                t@,
                kw@,
                cv,
                from as int,
                spans_view(spans@),
            ),
            spans_fit(spans_view(spans@), t@.len() as int),
        decreases t@.len() - from,
    {
        let open = match find_tag_in(t, from, kw, false) {
            None => return,
            Some(g) => g,
        };
        let close = match find_tag_in(t, open.after, kw, true) {
            None => return,
            Some(g) => g,
        };
        if wraps_any(cuts, open.after, close.start) {
            push_span(spans, (open.start, open.after));
            push_span(spans, (close.start, close.after));
        }
        from = close.after;
    }
}

/// The envelope tags in `t` that wrap one of `cuts`.
fn envelope_tag_spans(t: &[char], cuts: &Vec<(usize, usize)>) -> (r: Vec<(usize, usize)>)
    ensures
        spans_view(r@) == envelope_spans(t@, spans_view(cuts@)),
        spans_fit(spans_view(r@), t@.len() as int),
{
    let mut spans: Vec<(usize, usize)> = Vec::new();
    assert(spans_view(spans@) =~= Seq::<(int, int)>::empty());
    let plural = w_tool_calls_chars();
    let singular = w_tool_call_chars();
    envelope_spans_of(t, cuts, plural.as_slice(), &mut spans);
    envelope_spans_of(t, cuts, singular.as_slice(), &mut spans);
    spans
}

/// `spans` ordered by start, spans with equal starts keeping their order.
fn sort_spans(spans: &Vec<(usize, usize)>) -> (r: Vec<(usize, usize)>)
    ensures
        spans_view(r@) == stable_sort(spans_view(spans@), |p: (int, int)| span_start(p)),
        r@.len() == spans@.len(),
        forall|k: int|
            #![trigger r@[k]]
            0 <= k < r@.len() ==> exists|q: int| #![trigger spans@[q]] 0 <= q < spans@.len() && r@[k] == spans@[q],
{
    let ghost sv = spans_view(spans@);
    let ghost key = |p: (int, int)| span_start(p);
    let mut out: Vec<(usize, usize)> = Vec::new();
    assert(spans_view(out@) =~= Seq::<(int, int)>::empty());
    let mut k: usize = 0;
    while k < spans.len()
        invariant
            k <= spans@.len(),
            out@.len() == k,
            sv == spans_view(spans@),
            key == (|p: (int, int)| span_start(p)),
            stable_sort(sv, key) == stable_sort_go(sv, key, k as int, spans_view(out@)),
            forall|i: int|
                #![trigger out@[i]]
                0 <= i < out@.len() ==> exists|q: int| #![trigger spans@[q]] 0 <= q < spans@.len() && out@[i] == spans@[q],
        decreases spans.len() - k,
    {
        let x = spans[k];
        let ghost ov = spans_view(out@);
        let mut p: usize = 0;
        while p < out.len() && out[p].0 <= x.0
            invariant
                p <= out@.len(),
                ov == spans_view(out@),
                ins_pos(ov, key, x.0 as int, 0) == ins_pos(ov, key, x.0 as int, p as int),
                key == (|p: (int, int)| span_start(p)),
            decreases out.len() - p,
        {
            p = p + 1;
        }
        proof {
            assert(sv[k as int] == (x.0 as int, x.1 as int));
            assert(key(sv[k as int]) == x.0 as int);
        }
        let ghost old_out = out@;
        out.insert(p, x);
        proof {
            assert(spans_view(out@) =~= ov.insert(p as int, sv[k as int]));
            assert forall|i: int| #![trigger out@[i]] 0 <= i < out@.len() implies exists|q: int|
                #![trigger spans@[q]] 0 <= q < spans@.len() && out@[i] == spans@[q] by {
                if i < p {
                    assert(out@[i] == old_out[i]);
                } else if i == p {
                    assert(out@[i] == spans@[k as int]);
                } else {
                    assert(out@[i] == old_out[i - 1]);
                }
            }
        }
        k = k + 1;
    }
    out
}

// ------------------------------------------------------------------- salvage

/// The narrative left once the chosen candidates `ch`, and the envelopes that
/// wrapped them, are cut from `t`.
pub open spec fn narrative(t: Seq<char>, ch: Seq<CandV>) -> Seq<char> {
    let cuts = cut_spans(ch);
    cut_tidied(t, stable_sort(cuts + envelope_spans(t, cuts), |p: (int, int)| span_start(p)))
}

/// The call the `i`-th chosen candidate `c` becomes.
pub open spec fn call_of(c: CandV, i: int) -> CallV {
    (salvaged_id(i as nat), c.2, c.3)
}

/// What recovering `t` against the tools `known` gives: the narrative with
/// the recovered calls removed, and the calls; `None` when nothing was
/// recovered.
pub open spec fn salvage_spec(t: Seq<char>, known: Seq<Seq<char>>, schemas: Seq<(Seq<char>, JsonV)>) -> Option<
    (Seq<char>, Seq<CallV>),
> {
    let ch = chosen(t, known, schemas);
    if ch.len() == 0 {
        None
    } else {
        Some((narrative(t, ch), Seq::new(ch.len(), |i: int| call_of(ch[i], i))))
    }
}

pub open spec fn recovery_view(r: Option<(String, Vec<ToolCall>)>) -> Option<(Seq<char>, Seq<CallV>)> {
    match r {
        Some((s, c)) => Some((s@, calls_view(c@))),
        None => None,
    }
}

/// Move every element of `b` onto the end of `a`.
fn append_cands(a: &mut Vec<Candidate>, b: Vec<Candidate>)
    ensures
        cands_view(final(a)@) == cands_view(old(a)@) + cands_view(b@),
{
    let mut b = b;
    let ghost bv = cands_view(b@);
    a.append(&mut b);
    assert(cands_view(a@) =~= cands_view(old(a)@) + bv);
}

/// Recover every text-shaped call to a tool in `known` from `t`.
pub fn salvage(t: &[char], known: &Vec<String>, schemas: &Vec<(String, Json)>) -> (r: Option<
    (String, Vec<ToolCall>),
>)
    ensures
        recovery_view(r) == salvage_spec(t@, strings_view(known@), pairs_view(schemas@)),
        r matches Some((_, calls)) ==> forall|k: int| 0 <= k < calls@.len() ==> (#[trigger] calls@[k]).invalid is None,
{
    let ghost ks = strings_view(known@);
    let ghost ss = pairs_view(schemas@);
    let mut all = json_candidates(t, known);
    let tags = tag_candidates_in(t, known, schemas);
    append_cands(&mut all, tags);
    let mut names: Vec<Vec<char>> = Vec::new();
    let mut q: usize = 0;
    while q < known.len()
        invariant
            q <= known@.len(),
            chars_seqs(names@) == ks.take(q as int),
            ks == strings_view(known@),
        decreases known.len() - q,
    {
        let ghost before = chars_seqs(names@);
        let c = chars_of(known[q].as_str());
        let ghost cv = c@;
        names.push(c);
        assert(chars_seqs(names@) =~= before.push(cv));
        assert(ks.take(q + 1) =~= ks.take(q as int).push(ks[q as int]));
        q = q + 1;
    }
    assert(ks.take(q as int) =~= ks);
    let ordered = sort_names(&names);
    let elements = element_candidates_in(t, &ordered);
    append_cands(&mut all, elements);
    let ghost av = cands_view(all@);
    assert(av == all_candidates(t@, ks, ss));
    assert(cands_within(av, t@.len() as int)) by {
        assert forall|k: int| 0 <= k < av.len() implies 0 <= (#[trigger] av[k]).0 <= av[k].1 <= t@.len() by {
        }
    }
    // Order the candidates by start, stably, as positions into `all`.
    let ghost key = |c: CandV| cand_start(c);
    let mut order: Vec<usize> = Vec::new();
    let mut k: usize = 0;
    assert(Seq::new(order@.len(), |i: int| av[order@[i] as int]) =~= Seq::<CandV>::empty());
    while k < all.len()
        invariant
            k <= all@.len(),
            order@.len() == k,
            av == cands_view(all@),
            key == (|c: CandV| cand_start(c)),
            forall|i: int| 0 <= i < order@.len() ==> (#[trigger] order@[i]) < all@.len(),
            stable_sort(av, key) == stable_sort_go(
                av,
                key,
                k as int,
                Seq::new(order@.len(), |i: int| av[order@[i] as int]),
            ),
        decreases all.len() - k,
    {
        let x = all[k].start;
        let ghost ov = Seq::new(order@.len(), |i: int| av[order@[i] as int]);
        let mut p: usize = 0;
        while p < order.len() && all[order[p]].start <= x
            invariant
                p <= order@.len(),
                av == cands_view(all@),
                ov == Seq::new(order@.len(), |i: int| av[order@[i] as int]),
                forall|i: int| 0 <= i < order@.len() ==> (#[trigger] order@[i]) < all@.len(),
                ins_pos(ov, key, x as int, 0) == ins_pos(ov, key, x as int, p as int),
                key == (|c: CandV| cand_start(c)),
            decreases order.len() - p,
        {
            assert(ov[p as int] == cand_view(all@[order@[p as int] as int]));
            p = p + 1;
        }
        proof {
            if p < order@.len() {
                assert(ov[p as int] == cand_view(all@[order@[p as int] as int]));
            }
            assert(key(av[k as int]) == x as int);
        }
        let ghost old_order = order@;
        order.insert(p, k);
        proof {
            assert(Seq::new(order@.len(), |i: int| av[order@[i] as int]) =~= ov.insert(
                p as int,
                av[k as int],
            ));
            assert forall|i: int| 0 <= i < order@.len() implies (#[trigger] order@[i]) < all@.len() by {
                if i < p {
                    assert(order@[i] == old_order[i]);
                } else if i > p {
                    assert(order@[i] == old_order[i - 1]);
                }
            }
        }
        k = k + 1;
    }
    let ghost sorted = Seq::new(order@.len(), |i: int| av[order@[i] as int]);
    // Left to right, never twice over the same characters.
    let mut consumed: usize = 0;
    let mut calls: Vec<ToolCall> = Vec::new();
    let mut cuts: Vec<(usize, usize)> = Vec::new();
    let ghost mut picked: Seq<CandV> = Seq::empty();
    let mut j: usize = 0;
    assert(calls_view(calls@) =~= Seq::<CallV>::empty());
    assert(spans_view(cuts@) =~= cut_spans(picked));
    while j < order.len()
        invariant
            j <= order@.len() == all@.len(),
            av == cands_view(all@),
            sorted == Seq::new(order@.len(), |i: int| av[order@[i] as int]),
            forall|i: int| 0 <= i < order@.len() ==> (#[trigger] order@[i]) < all@.len(),
            cands_within(av, t@.len() as int),
            select_go(sorted, 0, 0, Seq::empty()) == select_go(sorted, j as int, consumed as int, picked),
            calls_view(calls@) == Seq::new(picked.len(), |i: int| call_of(picked[i], i)),
            spans_view(cuts@) == cut_spans(picked),
            spans_fit(spans_view(cuts@), t@.len() as int),
            forall|i: int| 0 <= i < calls@.len() ==> (#[trigger] calls@[i]).invalid is None,
            consumed <= t@.len(),
        decreases order.len() - j,
    {
        let c = &all[order[j]];
        proof {
            assert(sorted[j as int] == cand_view(all@[order@[j as int] as int]));
            assert(0 <= av[order@[j as int] as int].0 <= av[order@[j as int] as int].1 <= t@.len());
        }
        if c.start >= consumed {
            consumed = c.end;
            let ghost cv = cand_view(*c);
            let ghost before = calls_view(calls@);
            let call = ToolCall {
                id: salvaged_call_id(calls.len()),
                name: string_of(c.name.as_slice()),
                arguments: json_clone(&c.arguments),
                invalid: None,
            };
            proof {
                assert(calls_view(calls@).len() == calls@.len());
                assert(calls@.len() == picked.len());
                assert(call_v(call) == call_of(cv, picked.len() as int));
            }
            let ghost cl = call_v(call);
            calls.push(call);
            proof {
                assert(calls_view(calls@) =~= before.push(cl));
            }
            push_span(&mut cuts, (c.start, c.end));
            proof {
                assert(calls_view(calls@) =~= Seq::new(
                    picked.push(cv).len(),
                    |i: int| call_of(picked.push(cv)[i], i),
                ));
                assert(cut_spans(picked.push(cv)) =~= cut_spans(picked).push((cv.0, cv.1)));
                picked = picked.push(cv);
            }
        }
        j = j + 1;
    }
    proof {
        assert(sorted == stable_sort(av, key));
        assert(picked == chosen(t@, ks, ss));
    }
    if calls.len() == 0 {
        return None;
    }
    let envelopes = envelope_tag_spans(t, &cuts);
    let ghost cv0 = spans_view(cuts@);
    let mut all_cuts = cuts;
    let mut k2: usize = 0;
    while k2 < envelopes.len()
        invariant
            k2 <= envelopes@.len(),
            spans_view(all_cuts@) == cv0 + spans_view(envelopes@).take(k2 as int),
        decreases envelopes.len() - k2,
    {
        push_span(&mut all_cuts, envelopes[k2]);
        assert(spans_view(envelopes@).take(k2 + 1) =~= spans_view(envelopes@).take(k2 as int).push(
            (envelopes@[k2 as int].0 as int, envelopes@[k2 as int].1 as int),
        ));
        k2 = k2 + 1;
    }
    assert(spans_view(envelopes@).take(envelopes@.len() as int) =~= spans_view(envelopes@));
    let ordered = sort_spans(&all_cuts);
    proof {
        assert forall|q: int| 0 <= q < all_cuts@.len() implies (#[trigger] all_cuts@[q]).0 <= t@.len()
            && all_cuts@[q].1 <= t@.len() by {
            let sv = spans_view(all_cuts@);
            assert(sv[q] == (all_cuts@[q].0 as int, all_cuts@[q].1 as int));
            if q < cv0.len() {
                assert(sv[q] == cv0[q]);
            } else {
                assert(sv[q] == spans_view(envelopes@)[q - cv0.len()]);
            }
        }
    }
    let cleaned = cut_and_tidy_in(t, &ordered);
    proof {
        assert(Seq::new(ordered@.len(), |k: int| (ordered@[k].0 as int, ordered@[k].1 as int)) =~= spans_view(
            ordered@,
        ));
    }
    Some((string_of(cleaned.as_slice()), calls))
}

/// What recovering `content` gives, when the turn offered the tools
/// `offered`: nothing on an empty reply or when no tool was offered, and
/// otherwise what [`salvage_spec`] recovers.
pub open spec fn recover_spec(
    content: Seq<char>,
    offered: Seq<Seq<char>>,
    schemas: Seq<(Seq<char>, JsonV)>,
) -> Option<(Seq<char>, Seq<CallV>)> {
    if offered.len() == 0 || content.len() == 0 {
        None
    } else {
        salvage_spec(content, offered, schemas)
    }
}

/// Find the calls to offered tools that a reply spelled out in its text
/// instead of sending through the tool-calling channel.
///
/// On success, gives back the reply with those calls cut out (with their
/// markers, their envelopes and any code fence they leave empty) and the
/// calls themselves. `None` means nothing qualified, and the reply stands
/// as written. No offered tool, or an empty reply, always gives `None`.
/// `schemas` pairs tool names with their argument schemas; it only decides
/// how a markup `<parameter>` body is typed.
pub fn recover_text_tool_calls(
    content: &str,
    offered: &Vec<String>,
    schemas: &Vec<(String, Json)>,
) -> (r: Option<(String, Vec<ToolCall>)>)
    ensures
        recovery_view(r) == recover_spec(content@, strings_view(offered@), pairs_view(schemas@)),
        r matches Some((_, calls)) ==> forall|k: int| 0 <= k < calls@.len() ==> (#[trigger] calls@[k]).invalid is None,
{
    if offered.len() == 0 || content.is_empty() {
        return None;
    }
    let t = chars_of(content);
    salvage(t.as_slice(), offered, schemas)
}

} // verus!
