//! Which tools a turn authorized the model to call: the set a recovery
//! validates against, and their schemas.

use vstd::prelude::*;
use crate::json::{Json, JsonV, json_clone, jview, pairs_view};
use crate::salvage::calls::strings_view;
use crate::order::{chars_seqs, distinct, lemma_sort_distinct, lemma_sort_names_members, sort_names, sorted_names};
use crate::text::{chars_of, string_is, string_of};
use crate::tools::{ToolChoice, ToolSchema};

verus! {

broadcast use vstd::std_specs::vec::group_vec_axioms;

/// The names of `tools`, in order.
pub open spec fn schema_names(tools: Seq<ToolSchema>) -> Seq<Seq<char>> {
    Seq::new(tools.len(), |k: int| tools[k].name@)
}

/// `s` from the `k`-th element on added to `acc`, each only the first time
/// it occurs.
pub open spec fn dedup_go(s: Seq<Seq<char>>, k: int, acc: Seq<Seq<char>>) -> Seq<Seq<char>>
    decreases s.len() - k,
{
    if k < 0 || k >= s.len() {
        acc
    } else if acc.contains(s[k]) {
        dedup_go(s, k + 1, acc)
    } else {
        dedup_go(s, k + 1, acc.push(s[k]))
    }
}

/// The names a turn authorized, as a set in ascending order: none when told
/// to call nothing; the pinned tool alone, and only when it is offered;
/// otherwise every offered name, once each.
pub open spec fn authorized_names(tools: Seq<ToolSchema>, choice: ToolChoice) -> Seq<Seq<char>> {
    match choice {
        ToolChoice::NoTools => Seq::empty(),
        ToolChoice::Tool(n) => if schema_names(tools).contains(n@) {
            seq![n@]
        } else {
            Seq::empty()
        },
        _ => sorted_names(dedup_go(schema_names(tools), 0, Seq::empty())),
    }
}

fn offers(tools: &[ToolSchema], name: &[char]) -> (r: bool)
    ensures
        r == schema_names(tools@).contains(name@),
{
    let ghost ns = schema_names(tools@);
    let mut k: usize = 0;
    while k < tools.len()
        invariant
            k <= tools@.len(),
            ns == schema_names(tools@),
            forall|q: int| 0 <= q < k ==> ns[q] != name@,
        decreases tools.len() - k,
    {
        if string_is(&tools[k].name, name) {
            assert(ns[k as int] == name@);
            return true;
        }
        k = k + 1;
    }
    false
}

fn holds(names: &Vec<String>, name: &[char]) -> (r: bool)
    ensures
        r == strings_view(names@).contains(name@),
{
    crate::salvage::calls::known_contains(names, name)
}

/// The names this turn authorized the model to call.
///
/// Taken from the turn's own offered schemas and narrowed by its tool
/// choice: a turn told to call nothing authorizes nothing, and a turn
/// pinned to one tool authorizes exactly that one when it is on offer.
pub fn authorized_tool_names(tools: &[ToolSchema], choice: &ToolChoice) -> (r: Vec<String>)
    ensures
        strings_view(r@) == authorized_names(tools@, *choice),
{
    match choice {
        ToolChoice::NoTools => {
            let r: Vec<String> = Vec::new();
            assert(strings_view(r@) =~= Seq::<Seq<char>>::empty());
            r
        },
        ToolChoice::Tool(n) => {
            let nc = chars_of(n.as_str());
            if offers(tools, nc.as_slice()) {
                let mut r: Vec<String> = Vec::new();
                r.push(n.clone());
                assert(strings_view(r@) =~= seq![n@]);
                r
            } else {
                let r: Vec<String> = Vec::new();
                assert(strings_view(r@) =~= Seq::<Seq<char>>::empty());
                r
            }
        },
        _ => {
            let ghost ns = schema_names(tools@);
            let mut r: Vec<String> = Vec::new();
            assert(strings_view(r@) =~= Seq::<Seq<char>>::empty());
            let mut k: usize = 0;
            while k < tools.len()
                invariant
                    k <= tools@.len(),
                    ns == schema_names(tools@),
                    dedup_go(ns, 0, Seq::empty()) == dedup_go(ns, k as int, strings_view(r@)),
                decreases tools.len() - k,
            {
                let nc = chars_of(tools[k].name.as_str());
                if !holds(&r, nc.as_slice()) {
                    let ghost before = strings_view(r@);
                    r.push(tools[k].name.clone());
                    assert(strings_view(r@) =~= before.push(ns[k as int]));
                }
                k = k + 1;
            }
            sort_strings(&r)
        },
    }
}

/// `names` in ascending code-point order.
fn sort_strings(names: &Vec<String>) -> (r: Vec<String>)
    ensures
        strings_view(r@) == sorted_names(strings_view(names@)),
{
    let mut cs: Vec<Vec<char>> = Vec::new();
    let mut k: usize = 0;
    while k < names.len()
        invariant
            k <= names@.len(),
            chars_seqs(cs@) == strings_view(names@).take(k as int),
        decreases names.len() - k,
    {
        let ghost before = chars_seqs(cs@);
        let c = chars_of(names[k].as_str());
        let ghost cv = c@;
        cs.push(c);
        assert(chars_seqs(cs@) =~= before.push(cv));
        assert(strings_view(names@).take(k + 1) =~= strings_view(names@).take(k as int).push(names@[k as int]@));
        k = k + 1;
    }
    assert(strings_view(names@).take(k as int) =~= strings_view(names@));
    let sorted = sort_names(&cs);
    let mut r: Vec<String> = Vec::new();
    let mut j: usize = 0;
    while j < sorted.len()
        invariant
            j <= sorted@.len(),
            strings_view(r@) == chars_seqs(sorted@).take(j as int),
        decreases sorted.len() - j,
    {
        let ghost before = strings_view(r@);
        let s = string_of(sorted[j].as_slice());
        let ghost sv = s@;
        r.push(s);
        assert(strings_view(r@) =~= before.push(sv));
        assert(chars_seqs(sorted@).take(j + 1) =~= chars_seqs(sorted@).take(j as int).push(sorted@[j as int]@));
        j = j + 1;
    }
    assert(chars_seqs(sorted@).take(j as int) =~= chars_seqs(sorted@));
    r
}

/// The parameters of the first of `tools` from the `k`-th on named `n`.
pub open spec fn first_params(tools: Seq<ToolSchema>, n: Seq<char>, k: int) -> Option<JsonV>
    decreases tools.len() - k,
{
    if k < 0 || k >= tools.len() {
        None
    } else if tools[k].name@ == n {
        Some(jview(tools[k].parameters))
    } else {
        first_params(tools, n, k + 1)
    }
}

/// Each of `names` from the `k`-th on paired with its schema's parameters,
/// appended to `acc`.
pub open spec fn schemas_go(
    tools: Seq<ToolSchema>,
    names: Seq<Seq<char>>,
    k: int,
    acc: Seq<(Seq<char>, JsonV)>,
) -> Seq<(Seq<char>, JsonV)>
    decreases names.len() - k,
{
    if k < 0 || k >= names.len() {
        acc
    } else {
        match first_params(tools, names[k], 0) {
            Some(p) => schemas_go(tools, names, k + 1, acc.push((names[k], p))),
            None => schemas_go(tools, names, k + 1, acc),
        }
    }
}

/// Each authorized name with the `parameters` schema of the first tool
/// offered under it.
pub open spec fn authorized_schemas(tools: Seq<ToolSchema>, choice: ToolChoice) -> Seq<(Seq<char>, JsonV)> {
    schemas_go(tools, authorized_names(tools, choice), 0, Seq::empty())
}

/// For every name [`authorized_tool_names`] lets through, the argument
/// schema its tool was offered with, paired with the name.
pub fn authorized_tool_schemas(tools: &[ToolSchema], choice: &ToolChoice) -> (r: Vec<(String, Json)>)
    ensures
        pairs_view(r@) == authorized_schemas(tools@, *choice),
{
    let names = authorized_tool_names(tools, choice);
    let ghost nv = strings_view(names@);
    let mut r: Vec<(String, Json)> = Vec::new();
    assert(pairs_view(r@) =~= Seq::<(Seq<char>, JsonV)>::empty());
    let mut k: usize = 0;
    while k < names.len()
        invariant
            k <= names@.len(),
            nv == strings_view(names@),
            nv == authorized_names(tools@, *choice),
            authorized_schemas(tools@, *choice) == schemas_go(tools@, nv, k as int, pairs_view(r@)),
        decreases names.len() - k,
    {
        let nc = chars_of(names[k].as_str());
        let mut q: usize = 0;
        let mut found = false;
        while q < tools.len() && !found
            invariant
                q <= tools@.len(),
                first_params(tools@, nc@, 0) == if found {
                    Some(jview(tools@[q as int].parameters))
                } else {
                    first_params(tools@, nc@, q as int)
                },
                found ==> q < tools@.len(),
            decreases tools.len() - q + (if found { 0int } else { 1int }),
        {
            if string_is(&tools[q].name, nc.as_slice()) {
                found = true;
            } else {
                q = q + 1;
            }
        }
        proof {
            assert(nc@ == nv[k as int]);
        }
        if found {
            let ghost before = pairs_view(r@);
            let key = names[k].clone();
            let p = json_clone(&tools[q].parameters);
            r.push((key, p));
            assert(pairs_view(r@) =~= before.push((nv[k as int], jview(tools@[q as int].parameters))));
        }
        k = k + 1;
    }
    r
}

// ---------------------------------------------------------------------- laws

proof fn lemma_dedup(s: Seq<Seq<char>>, k: int, acc: Seq<Seq<char>>)
    requires
        0 <= k <= s.len(),
        forall|i: int, j: int| 0 <= i < j < acc.len() ==> acc[i] != acc[j],
        forall|i: int| 0 <= i < acc.len() ==> s.contains(#[trigger] acc[i]),
        forall|i: int| 0 <= i < k ==> acc.contains(#[trigger] s[i]),
    ensures
        forall|i: int, j: int|
            0 <= i < j < dedup_go(s, k, acc).len() ==> dedup_go(s, k, acc)[i] != dedup_go(s, k, acc)[j],
        forall|i: int| 0 <= i < dedup_go(s, k, acc).len() ==> s.contains(#[trigger] dedup_go(s, k, acc)[i]),
        forall|i: int| 0 <= i < s.len() ==> dedup_go(s, k, acc).contains(#[trigger] s[i]),
    decreases s.len() - k,
{
    if k < s.len() {
        if acc.contains(s[k]) {
            lemma_dedup(s, k + 1, acc);
        } else {
            let acc2 = acc.push(s[k]);
            assert forall|i: int| 0 <= i < acc2.len() implies s.contains(#[trigger] acc2[i]) by {
                if i < acc.len() {
                    assert(acc2[i] == acc[i]);
                } else {
                    assert(s[k] == acc2[i]);
                }
            }
            assert forall|i: int| 0 <= i < k + 1 implies acc2.contains(#[trigger] s[i]) by {
                if i < k {
                    let w = choose|w: int| 0 <= w < acc.len() && acc[w] == s[i];
                    assert(acc2[w] == s[i]);
                } else {
                    assert(acc2[acc.len() as int] == s[i]);
                }
            }
            lemma_dedup(s, k + 1, acc2);
        }
    }
}

/// What a turn authorizes is what it offered, narrowed by its choice: every
/// authorized name is an offered tool's and is authorized once; a turn told
/// to call nothing authorizes nothing; a pinned turn authorizes no tool but
/// the pinned one; and an automatic or required choice authorizes every
/// offered tool.
pub proof fn lemma_authorization(tools: Seq<ToolSchema>, choice: ToolChoice)
    ensures
        forall|i: int|
            0 <= i < authorized_names(tools, choice).len() ==> schema_names(tools).contains(
                #[trigger] authorized_names(tools, choice)[i],
            ),
        forall|i: int, j: int|
            0 <= i < j < authorized_names(tools, choice).len() ==> authorized_names(tools, choice)[i]
                != authorized_names(tools, choice)[j],
        choice is NoTools ==> authorized_names(tools, choice).len() == 0,
        choice matches ToolChoice::Tool(n) ==> forall|i: int|
            0 <= i < authorized_names(tools, choice).len() ==> #[trigger] authorized_names(tools, choice)[i]
                == n@,
        (choice is Auto || choice is Required) ==> forall|i: int|
            0 <= i < tools.len() ==> authorized_names(tools, choice).contains(#[trigger] tools[i].name@),
{
    let ns = schema_names(tools);
    lemma_dedup(ns, 0, Seq::empty());
    let d = dedup_go(ns, 0, Seq::empty());
    lemma_sort_names_members(d, 0, Seq::empty());
    assert(d.subrange(0, d.len() as int) =~= d);
    lemma_sort_distinct(d, 0, Seq::empty());
    if choice is Auto || choice is Required {
        let a = sorted_names(d);
        assert forall|i: int| 0 <= i < a.len() implies ns.contains(#[trigger] a[i]) by {
            assert(a.contains(a[i]));
            assert(d.contains(a[i]));
            let w = choose|w: int| 0 <= w < d.len() && d[w] == a[i];
            assert(ns.contains(d[w]));
        }
        assert forall|i: int| 0 <= i < tools.len() implies authorized_names(tools, choice).contains(
            #[trigger] tools[i].name@,
        ) by {
            assert(ns[i] == tools[i].name@);
            assert(d.contains(ns[i]));
        }
    }
}

proof fn lemma_first_params_found(tools: Seq<ToolSchema>, n: Seq<char>, k: int)
    requires
        0 <= k <= tools.len(),
        exists|i: int| k <= i < tools.len() && tools[i].name@ == n,
    ensures
        first_params(tools, n, k) is Some,
    decreases tools.len() - k,
{
    if tools[k].name@ != n {
        lemma_first_params_found(tools, n, k + 1);
    }
}

proof fn lemma_schemas_keys(tools: Seq<ToolSchema>, names: Seq<Seq<char>>, k: int, acc: Seq<(Seq<char>, JsonV)>)
    requires
        0 <= k <= names.len(),
        forall|i: int| 0 <= i < names.len() ==> schema_names(tools).contains(#[trigger] names[i]),
    ensures
        schemas_go(tools, names, k, acc).len() == acc.len() + names.len() - k,
        forall|i: int|
            0 <= i < names.len() - k ==> (#[trigger] schemas_go(tools, names, k, acc)[acc.len() + i]).0
                == names[k + i],
        forall|i: int|
            0 <= i < names.len() - k ==> Some((#[trigger] schemas_go(tools, names, k, acc)[acc.len() + i]).1)
                == first_params(tools, names[k + i], 0),
        forall|i: int| 0 <= i < acc.len() ==> #[trigger] schemas_go(tools, names, k, acc)[i] == acc[i],
    decreases names.len() - k,
{
    if k < names.len() {
        let ns = schema_names(tools);
        assert(ns.contains(names[k]));
        let w = choose|w: int| 0 <= w < ns.len() && ns[w] == names[k];
        assert(tools[w].name@ == names[k]);
        lemma_first_params_found(tools, names[k], 0);
        let p = first_params(tools, names[k], 0)->0;
        let acc2 = acc.push((names[k], p));
        lemma_schemas_keys(tools, names, k + 1, acc2);
        let r = schemas_go(tools, names, k, acc);
        assert forall|i: int| 0 <= i < names.len() - k implies (#[trigger] r[acc.len() + i]).0 == names[k + i]
            && Some(r[acc.len() + i].1) == first_params(tools, names[k + i], 0) by {
            if i == 0 {
                assert(r[acc.len() as int] == acc2[acc.len() as int]);
            } else {
                assert(r[acc2.len() + (i - 1)].0 == names[k + 1 + (i - 1)]);
                assert(Some(r[acc2.len() + (i - 1)].1) == first_params(tools, names[k + 1 + (i - 1)], 0));
            }
        }
        assert forall|i: int| 0 <= i < acc.len() implies #[trigger] r[i] == acc[i] by {
            assert(r[i] == acc2[i]);
        }
    }
}

/// The first tool offered under `n`, from the `k`-th on, is where
/// `first_params` takes its parameters from; there is none exactly when no
/// tool from there on is offered under `n`.
pub proof fn lemma_first_params_is_first(tools: Seq<ToolSchema>, n: Seq<char>, k: int)
    requires
        0 <= k <= tools.len(),
    ensures
        first_params(tools, n, k) is None <==> !(exists|j: int| k <= j < tools.len() && tools[j].name@ == n),
        first_params(tools, n, k) matches Some(p) ==> exists|j: int|
            k <= j < tools.len() && tools[j].name@ == n && p == jview(tools[j].parameters) && (forall|q: int|
                k <= q < j ==> tools[q].name@ != n),
    decreases tools.len() - k,
{
    if k < tools.len() {
        lemma_first_params_is_first(tools, n, k + 1);
        if tools[k].name@ != n {
            if let Some(p) = first_params(tools, n, k) {
                let j = choose|j: int|
                    k + 1 <= j < tools.len() && tools[j].name@ == n && p == jview(tools[j].parameters) && (forall|
                        q: int,
                    | k + 1 <= q < j ==> tools[q].name@ != n);
                assert(forall|q: int| k <= q < j ==> tools[q].name@ != n);
            }
            if exists|j: int| k <= j < tools.len() && tools[j].name@ == n {
                let j = choose|j: int| k <= j < tools.len() && tools[j].name@ == n;
                assert(k + 1 <= j);
            }
        }
    }
}

/// The schemas are keyed by exactly the authorized names, in the same
/// order: every authorized tool carries its schema, and that schema is the
/// `parameters` of the first tool offered under its name (see
/// [`lemma_first_params_is_first`]).
pub proof fn lemma_schemas_follow_names(tools: Seq<ToolSchema>, choice: ToolChoice)
    ensures
        authorized_schemas(tools, choice).len() == authorized_names(tools, choice).len(),
        forall|i: int|
            0 <= i < authorized_names(tools, choice).len() ==> (#[trigger] authorized_schemas(tools, choice)[i]).0
                == authorized_names(tools, choice)[i],
        forall|i: int|
            0 <= i < authorized_names(tools, choice).len() ==> Some(
                (#[trigger] authorized_schemas(tools, choice)[i]).1,
            ) == first_params(tools, authorized_names(tools, choice)[i], 0),
{
    lemma_authorization(tools, choice);
    let names = authorized_names(tools, choice);
    lemma_schemas_keys(tools, names, 0, Seq::empty());
    assert forall|i: int| 0 <= i < names.len() implies (#[trigger] authorized_schemas(tools, choice)[i]).0
        == names[i] && Some(authorized_schemas(tools, choice)[i].1) == first_params(tools, names[i], 0) by {
        assert(authorized_schemas(tools, choice)[0 + i].0 == names[0 + i]);
        assert(Some(authorized_schemas(tools, choice)[0 + i].1) == first_params(tools, names[0 + i], 0));
    }
}

} // verus!
