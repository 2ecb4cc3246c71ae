//! Code-point order on character sequences, and sorting by it.

use vstd::prelude::*;

verus! {

broadcast use vstd::std_specs::vec::group_vec_axioms;

/// Code-point order on character sequences, which is the byte order `str`
/// compares by.
pub open spec fn str_lt(a: Seq<char>, b: Seq<char>) -> bool
    decreases a.len(),
{
    if a.len() == 0 {
        b.len() > 0
    } else if b.len() == 0 {
        false
    } else if a[0] != b[0] {
        (a[0] as u32) < (b[0] as u32)
    } else {
        str_lt(a.drop_first(), b.drop_first())
    }
}

/// Where `x` goes among `s`: before the first element it precedes.
pub open spec fn name_pos(s: Seq<Seq<char>>, x: Seq<char>, k: int) -> int
    decreases s.len() - k,
{
    if k < 0 || k >= s.len() {
        s.len() as int
    } else if str_lt(x, s[k]) {
        k
    } else {
        name_pos(s, x, k + 1)
    }
}

/// `s` from the `k`-th element on inserted, one by one, into `acc`.
pub open spec fn sort_names_go(s: Seq<Seq<char>>, k: int, acc: Seq<Seq<char>>) -> Seq<Seq<char>>
    decreases s.len() - k,
{
    if k < 0 || k >= s.len() {
        acc
    } else {
        sort_names_go(s, k + 1, acc.insert(name_pos(acc, s[k], 0), s[k]))
    }
}

/// `s` in ascending order.
pub open spec fn sorted_names(s: Seq<Seq<char>>) -> Seq<Seq<char>> {
    sort_names_go(s, 0, Seq::empty())
}

pub open spec fn chars_seqs(v: Seq<Vec<char>>) -> Seq<Seq<char>> {
    Seq::new(v.len(), |k: int| v[k]@)
}

/// Whether `a` precedes `b` in code-point order.
pub fn precedes(a: &[char], b: &[char]) -> (r: bool)
    ensures
        r == str_lt(a@, b@),
{
    let mut k: usize = 0;
    assert(a@.skip(0) =~= a@);
    assert(b@.skip(0) =~= b@);
    while k < a.len() && k < b.len() && a[k] == b[k]
        invariant
            k <= a@.len(),
            k <= b@.len(),
            str_lt(a@, b@) == str_lt(a@.skip(k as int), b@.skip(k as int)),
        decreases a.len() - k,
    {
        proof {
            assert(a@.skip(k as int).drop_first() =~= a@.skip(k + 1));
            assert(b@.skip(k as int).drop_first() =~= b@.skip(k + 1));
        }
        k = k + 1;
    }
    proof {
        if k < a@.len() && k < b@.len() {
            assert(a@.skip(k as int)[0] == a@[k as int]);
            assert(b@.skip(k as int)[0] == b@[k as int]);
        }
    }
    if k == a.len() {
        k < b.len()
    } else if k == b.len() {
        false
    } else {
        (a[k] as u32) < (b[k] as u32)
    }
}


/// `names` in ascending code-point order; equal names keep their order.
pub fn sort_names(names: &Vec<Vec<char>>) -> (r: Vec<Vec<char>>)
    ensures
        chars_seqs(r@) == sorted_names(chars_seqs(names@)),
{
    let ghost ns = chars_seqs(names@);
    let mut out: Vec<Vec<char>> = Vec::new();
    assert(chars_seqs(out@) =~= Seq::<Seq<char>>::empty());
    let mut j: usize = 0;
    while j < names.len()
        invariant
            j <= names@.len(),
            ns == chars_seqs(names@),
            sorted_names(ns) == sort_names_go(ns, j as int, chars_seqs(out@)),
        decreases names.len() - j,
    {
        let x = names[j].clone();
        proof {
            assert(x@ == ns[j as int]);
        }
        let ghost ov = chars_seqs(out@);
        let mut p: usize = 0;
        while p < out.len() && !precedes(x.as_slice(), out[p].as_slice())
            invariant
                p <= out@.len(),
                ov == chars_seqs(out@),
                name_pos(ov, x@, 0) == name_pos(ov, x@, p as int),
            decreases out.len() - p,
        {
            p = p + 1;
        }
        proof {
            lemma_name_pos_bounds(ov, x@, 0);
        }
        let ghost xv = x@;
        out.insert(p, x);
        assert(chars_seqs(out@) =~= ov.insert(p as int, xv));
        j = j + 1;
    }
    out
}

pub proof fn lemma_name_pos_bounds(s: Seq<Seq<char>>, x: Seq<char>, k: int)
    requires
        0 <= k <= s.len(),
    ensures
        k <= name_pos(s, x, k) <= s.len(),
    decreases s.len() - k,
{
    if k < s.len() && !str_lt(x, s[k]) {
        lemma_name_pos_bounds(s, x, k + 1);
    }
}

pub proof fn lemma_sort_names_members(s: Seq<Seq<char>>, k: int, acc: Seq<Seq<char>>)
    requires
        0 <= k <= s.len(),
    ensures
        forall|x: Seq<char>|
            #[trigger] sort_names_go(s, k, acc).contains(x) <==> (acc.contains(x) || s.subrange(
                k,
                s.len() as int,
            ).contains(x)),
    decreases s.len() - k,
{
    let r = sort_names_go(s, k, acc);
    if k < s.len() {
        let p = name_pos(acc, s[k], 0);
        lemma_name_pos_bounds(acc, s[k], 0);
        let acc2 = acc.insert(p, s[k]);
        acc.insert_ensures(p, s[k]);
        lemma_sort_names_members(s, k + 1, acc2);
        assert(r == sort_names_go(s, k + 1, acc2));
        assert forall|x: Seq<char>| #[trigger] r.contains(x) <==> (acc.contains(x) || s.subrange(
            k,
            s.len() as int,
        ).contains(x)) by {
            let tail = s.subrange(k, s.len() as int);
            let tail2 = s.subrange(k + 1, s.len() as int);
            assert(tail =~= seq![s[k]] + tail2);
            if tail.contains(x) {
                let w = choose|w: int| 0 <= w < tail.len() && tail[w] == x;
                if w > 0 {
                    assert(tail2[w - 1] == x);
                } else {
                    assert(acc2[p] == x);
                }
            }
            if tail2.contains(x) {
                let w = choose|w: int| 0 <= w < tail2.len() && tail2[w] == x;
                assert(tail[w + 1] == x);
            }
            if acc2.contains(x) {
                let w = choose|w: int| 0 <= w < acc2.len() && acc2[w] == x;
                if w < p {
                    assert(acc[w] == x);
                } else if w == p {
                    assert(tail[0] == x);
                } else {
                    assert(acc2[(w - 1) + 1] == acc[w - 1]);
                    assert(acc[w - 1] == x);
                }
            }
            if acc.contains(x) {
                let w = choose|w: int| 0 <= w < acc.len() && acc[w] == x;
                if w < p {
                    assert(acc2[w] == x);
                } else {
                    assert(acc2[w + 1] == x);
                }
            }
        }
    } else {
        assert(r == acc);
        assert forall|x: Seq<char>| #[trigger] r.contains(x) <==> (acc.contains(x) || s.subrange(
            k,
            s.len() as int,
        ).contains(x)) by {
            assert(s.subrange(k, s.len() as int).len() == 0);
        }
    }
}

/// No element of `s` occurs twice.
pub open spec fn distinct(s: Seq<Seq<char>>) -> bool {
    forall|i: int, j: int| 0 <= i < j < s.len() ==> s[i] != s[j]
}

/// Sorting keeps distinct elements distinct.
pub proof fn lemma_sort_distinct(s: Seq<Seq<char>>, k: int, acc: Seq<Seq<char>>)
    requires
        0 <= k <= s.len(),
        distinct(acc),
        distinct(s),
        forall|i: int| k <= i < s.len() ==> !acc.contains(#[trigger] s[i]),
    ensures
        distinct(sort_names_go(s, k, acc)),
    decreases s.len() - k,
{
    if k < s.len() {
        let p = name_pos(acc, s[k], 0);
        lemma_name_pos_bounds(acc, s[k], 0);
        let acc2 = acc.insert(p, s[k]);
        acc.insert_ensures(p, s[k]);
        assert forall|i: int, j: int| 0 <= i < j < acc2.len() implies acc2[i] != acc2[j] by {
            if j < p {
                assert(acc2[i] == acc[i] && acc2[j] == acc[j]);
            } else if j == p {
                assert(acc2[i] == acc[i]);
                assert(acc2[j] == s[k]);
                assert(acc.contains(acc[i]));
            } else if i < p {
                assert(acc2[i] == acc[i]);
                assert(acc2[(j - 1) + 1] == acc[j - 1]);
            } else if i == p {
                assert(acc2[(j - 1) + 1] == acc[j - 1]);
                assert(acc.contains(acc[j - 1]));
            } else {
                assert(acc2[(i - 1) + 1] == acc[i - 1]);
                assert(acc2[(j - 1) + 1] == acc[j - 1]);
            }
        }
        assert forall|i: int| k + 1 <= i < s.len() implies !acc2.contains(#[trigger] s[i]) by {
            if acc2.contains(s[i]) {
                let w = choose|w: int| 0 <= w < acc2.len() && acc2[w] == s[i];
                if w < p {
                    assert(acc[w] == s[i]);
                } else if w == p {
                    assert(s[k] == s[i]);
                } else {
                    assert(acc2[(w - 1) + 1] == acc[w - 1]);
                    assert(acc[w - 1] == s[i]);
                }
            }
        }
        lemma_sort_distinct(s, k + 1, acc2);
    }
}

} // verus!
