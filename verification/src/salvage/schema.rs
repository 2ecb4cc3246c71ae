//! The type a tool's JSON Schema declares for one of its parameters, read
//! with a JSON Pointer (RFC 6901) the way `serde_json::Value::pointer` reads
//! one.

use vstd::prelude::*;
use crate::json::{Json, JsonV, jview, key_position, key_index, obj_get, opt_ref_view, pairs_view, lemma_object_view, lemma_array_view, elems_view};
use crate::salvage::words::{w_properties, w_properties_chars, w_type, w_type_chars};

verus! {

broadcast use vstd::std_specs::vec::group_vec_axioms;

/// `s` split at every `sep`, scanning from `i` with the piece `cur` open
/// and the pieces `acc` already closed.
pub open spec fn split_go(s: Seq<char>, sep: char, i: int, cur: Seq<char>, acc: Seq<Seq<char>>) -> Seq<
    Seq<char>,
>
    decreases s.len() - i,
{
    if i < 0 || i >= s.len() {
        acc.push(cur)
    } else if s[i] == sep {
        split_go(s, sep, i + 1, Seq::empty(), acc.push(cur))
    } else {
        split_go(s, sep, i + 1, cur.push(s[i]), acc)
    }
}

/// `s` split at every `sep`, as `str::split` does: `n` separators give
/// `n + 1` pieces, empty ones included.
pub open spec fn split_on(s: Seq<char>, sep: char) -> Seq<Seq<char>> {
    split_go(s, sep, 0, Seq::empty(), Seq::empty())
}

/// `s` with each `a b` pair, found left to right without overlap, replaced by
/// `r`, as `str::replace` does; scanning from `i` with `out` written.
pub open spec fn replace_go(s: Seq<char>, a: char, b: char, r: char, i: int, out: Seq<char>) -> Seq<char>
    decreases s.len() - i,
{
    if i < 0 || i >= s.len() {
        out
    } else if i + 1 < s.len() && s[i] == a && s[i + 1] == b {
        replace_go(s, a, b, r, i + 2, out.push(r))
    } else {
        replace_go(s, a, b, r, i + 1, out.push(s[i]))
    }
}

/// A pointer token with its escapes undone: `~1` to `/`, then `~0` to `~`.
pub open spec fn unescape(tok: Seq<char>) -> Seq<char> {
    replace_go(replace_go(tok, '~', '1', '/', 0, Seq::empty()), '~', '0', '~', 0, Seq::empty())
}

pub open spec fn is_digit(c: char) -> bool {
    '0' <= c && c <= '9'
}

/// The number the decimal digits `s` write.
pub open spec fn digits_value(s: Seq<char>) -> nat
    decreases s.len(),
{
    if s.len() == 0 {
        0
    } else {
        digits_value(s.drop_last()) * 10 + ((s.last() as nat) - ('0' as nat)) as nat
    }
}

/// An array index token: plain decimal digits, no leading zero, no sign,
/// and small enough for a `usize`.
pub open spec fn index_token(s: Seq<char>) -> Option<int> {
    if s.len() == 0 || !(forall|k: int| 0 <= k < s.len() ==> is_digit(#[trigger] s[k])) || (s[0]
        == '0' && s.len() != 1) {
        None
    } else if digits_value(s) > usize::MAX {
        None
    } else {
        Some(digits_value(s) as int)
    }
}

/// Follow the (unescaped) tokens `toks` from `k` on down from `j`.
pub open spec fn walk(j: JsonV, toks: Seq<Seq<char>>, k: int) -> Option<JsonV>
    decreases toks.len() - k,
{
    if k < 0 || k >= toks.len() {
        Some(j)
    } else {
        match j {
            JsonV::Object(p) => match obj_get(p, toks[k]) {
                Some(v) => walk(v, toks, k + 1),
                None => None,
            },
            JsonV::Array(a) => match index_token(toks[k]) {
                Some(i) => if i < a.len() {
                    walk(a[i], toks, k + 1)
                } else {
                    None
                },
                None => None,
            },
            _ => None,
        }
    }
}

/// The value the JSON Pointer `p` addresses in `j`.
pub open spec fn pointer_get(j: JsonV, p: Seq<char>) -> Option<JsonV> {
    if p.len() == 0 {
        Some(j)
    } else if p[0] != '/' {
        None
    } else {
        let pieces = split_on(p, '/');
        walk(j, Seq::new((pieces.len() - 1) as nat, |k: int| unescape(pieces[k + 1])), 0)
    }
}

/// The pointer `/properties/{name}/type`.
pub open spec fn type_pointer(name: Seq<char>) -> Seq<char> {
    seq!['/'] + w_properties() + seq!['/'] + name + seq!['/'] + w_type()
}

/// The type `schema` declares for the parameter `name`, when it declares
/// one as a string.
pub open spec fn declared_type(schema: Option<JsonV>, name: Seq<char>) -> Option<Seq<char>> {
    match schema {
        None => None,
        Some(s) => match pointer_get(s, type_pointer(name)) {
            Some(JsonV::Str(t)) => Some(t),
            _ => None,
        },
    }
}

fn split_exec(s: &[char], sep: char) -> (r: Vec<Vec<char>>)
    ensures
        Seq::new(r@.len(), |k: int| r@[k]@) == split_on(s@, sep),
{
    let mut acc: Vec<Vec<char>> = Vec::new();
    let mut cur: Vec<char> = Vec::new();
    let mut i: usize = 0;
    assert(Seq::new(acc@.len(), |k: int| acc@[k]@) =~= Seq::<Seq<char>>::empty());
    assert(cur@ =~= Seq::<char>::empty());
    while i < s.len()
        invariant
            i <= s@.len(),
            split_on(s@, sep) == split_go(
                s@,
                sep,
                i as int,
                cur@,
                Seq::new(acc@.len(), |k: int| acc@[k]@),
            ),
        decreases s.len() - i,
    {
        let ghost before = Seq::new(acc@.len(), |k: int| acc@[k]@);
        if s[i] == sep {
            let done = cur;
            let ghost dv = done@;
            acc.push(done);
            cur = Vec::new();
            assert(Seq::new(acc@.len(), |k: int| acc@[k]@) =~= before.push(dv));
            assert(cur@ =~= Seq::<char>::empty());
        } else {
            cur.push(s[i]);
        }
        i = i + 1;
    }
    let ghost before = Seq::new(acc@.len(), |k: int| acc@[k]@);
    let ghost cv = cur@;
    acc.push(cur);
    assert(Seq::new(acc@.len(), |k: int| acc@[k]@) =~= before.push(cv));
    acc
}

fn replace_exec(s: &[char], a: char, b: char, r: char) -> (out: Vec<char>)
    ensures
        out@ == replace_go(s@, a, b, r, 0, Seq::empty()),
{
    let mut out: Vec<char> = Vec::new();
    let mut i: usize = 0;
    assert(out@ =~= Seq::<char>::empty());
    while i < s.len()
        invariant
            i <= s@.len(),
            replace_go(s@, a, b, r, 0, Seq::empty()) == replace_go(s@, a, b, r, i as int, out@),
        decreases s.len() - i,
    {
        if i + 1 < s.len() && s[i] == a && s[i + 1] == b {
            out.push(r);
            i = i + 2;
        } else {
            out.push(s[i]);
            i = i + 1;
        }
    }
    out
}

proof fn lemma_digits_step(s: Seq<char>, i: int)
    requires
        0 <= i < s.len(),
    ensures
        digits_value(s.take(i + 1)) == digits_value(s.take(i)) * 10 + ((s[i] as nat) - ('0' as nat)) as nat,
{
    assert(s.take(i + 1).drop_last() =~= s.take(i));
}

proof fn lemma_digits_grow(s: Seq<char>, i: int, j: int)
    requires
        0 <= i <= j <= s.len(),
        forall|k: int| 0 <= k < s.len() ==> is_digit(#[trigger] s[k]),
    ensures
        digits_value(s.take(i)) <= digits_value(s.take(j)),
    decreases j - i,
{
    if i < j {
        lemma_digits_grow(s, i, j - 1);
        lemma_digits_step(s, j - 1);
        assert(is_digit(s[j - 1]));
    }
}

fn index_exec(s: &[char]) -> (r: Option<usize>)
    ensures
        r == (match index_token(s@) {
            Some(i) => Some(i as usize),
            None => None::<usize>,
        }),
{
    if s.len() == 0 {
        return None;
    }
    let mut k: usize = 0;
    while k < s.len()
        invariant
            k <= s@.len(),
            forall|q: int| 0 <= q < k ==> is_digit(#[trigger] s@[q]),
        decreases s.len() - k,
    {
        if !('0' <= s[k] && s[k] <= '9') {
            return None;
        }
        k = k + 1;
    }
    if s[0] == '0' && s.len() != 1 {
        return None;
    }
    let mut v: usize = 0;
    let mut i: usize = 0;
    while i < s.len()
        invariant
            i <= s@.len(),
            forall|q: int| 0 <= q < s@.len() ==> is_digit(#[trigger] s@[q]),
            v == digits_value(s@.take(i as int)),
        decreases s.len() - i,
    {
        let d = (s[i] as u32 - '0' as u32) as usize;
        proof {
            lemma_digits_step(s@, i as int);
            assert(is_digit(s@[i as int]));
        }
        let m = v.checked_mul(10);
        let m = match m {
            None => {
                proof {
                    lemma_digits_grow(s@, i + 1, s@.len() as int);
                    assert(s@.take(s@.len() as int) =~= s@);
                }
                return None;
            },
            Some(m) => m,
        };
        match m.checked_add(d) {
            None => {
                proof {
                    lemma_digits_grow(s@, i + 1, s@.len() as int);
                    assert(s@.take(s@.len() as int) =~= s@);
                }
                return None;
            },
            Some(n) => {
                v = n;
            },
        }
        i = i + 1;
    }
    assert(s@.take(s@.len() as int) =~= s@);
    Some(v)
}

/// The value the JSON Pointer `p` addresses in `j`, as
/// `serde_json::Value::pointer` finds it.
pub fn pointer<'a>(j: &'a Json, p: &[char]) -> (r: Option<&'a Json>)
    ensures
        opt_ref_view(r) == pointer_get(jview(*j), p@),
{
    if p.len() == 0 {
        return Some(j);
    }
    if p[0] != '/' {
        return None;
    }
    let pieces = split_exec(p, '/');
    let ghost pv = split_on(p@, '/');
    let ghost toks = Seq::new((pv.len() - 1) as nat, |k: int| unescape(pv[k + 1]));
    proof {
        assert(pv.len() >= 1) by {
            lemma_split_nonempty(p@, '/', 0, Seq::empty(), Seq::empty());
        }
    }
    let mut cur: &Json = j;
    let mut k: usize = 1;
    while k < pieces.len()
        invariant
            1 <= k <= pieces@.len(),
            pv == split_on(p@, '/'),
            Seq::new(pieces@.len(), |q: int| pieces@[q]@) == pv,
            toks == Seq::new((pv.len() - 1) as nat, |q: int| unescape(pv[q + 1])),
            pointer_get(jview(*j), p@) == walk(jview(*cur), toks, k - 1),
            p@.len() > 0 && p@[0] == '/',
        decreases pieces.len() - k,
    {
        let once = replace_exec(pieces[k].as_slice(), '~', '1', '/');
        let tok = replace_exec(once.as_slice(), '~', '0', '~');
        proof {
            assert(pieces@[k as int]@ == pv[k as int]);
            assert(tok@ == toks[k - 1]);
        }
        match cur {
            Json::Object(m) => {
                proof {
                    lemma_object_view(*m);
                }
                match key_position(m, tok.as_slice()) {
                    Some(i) => {
                        assert(pairs_view(m@)[i as int].1 == jview(m@[i as int].1));
                        cur = &m[i].1;
                    },
                    None => return None,
                }
            },
            Json::Array(a) => {
                proof {
                    lemma_array_view(*a);
                }
                match index_exec(tok.as_slice()) {
                    Some(i) => {
                        if i < a.len() {
                            assert(elems_view(a@)[i as int] == jview(a@[i as int]));
                            cur = &a[i];
                        } else {
                            return None;
                        }
                    },
                    None => return None,
                }
            },
            _ => return None,
        }
        k = k + 1;
    }
    Some(cur)
}

proof fn lemma_split_nonempty(s: Seq<char>, sep: char, i: int, cur: Seq<char>, acc: Seq<Seq<char>>)
    ensures
        split_go(s, sep, i, cur, acc).len() >= acc.len() + 1,
    decreases s.len() - i,
{
    if i < 0 || i >= s.len() {
    } else if s[i] == sep {
        lemma_split_nonempty(s, sep, i + 1, Seq::empty(), acc.push(cur));
    } else {
        lemma_split_nonempty(s, sep, i + 1, cur.push(s[i]), acc);
    }
}

/// The type `schema` declares for the parameter `name` as a string, read at
/// `/properties/{name}/type`.
pub fn schema_declared_type(schema: Option<&Json>, name: &[char]) -> (r: Option<Vec<char>>)
    ensures
        (match r {
            Some(t) => Some(t@),
            None => None::<Seq<char>>,
        }) == declared_type(opt_ref_view(schema), name@),
{
    let s = match schema {
        None => return None,
        Some(s) => s,
    };
    let mut p: Vec<char> = Vec::new();
    p.push('/');
    let pw = w_properties_chars();
    let tw = w_type_chars();
    crate::text::push_all(&mut p, pw.as_slice());
    p.push('/');
    crate::text::push_all(&mut p, name);
    p.push('/');
    crate::text::push_all(&mut p, tw.as_slice());
    assert(p@ =~= type_pointer(name@));
    match pointer(s, p.as_slice()) {
        Some(Json::Str(t)) => {
            let v = crate::text::chars_of(t.as_str());
            Some(v)
        },
        _ => None,
    }
}

} // verus!
