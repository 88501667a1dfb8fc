//! Lexicographic ordering of node names, and a sorted traversal order for a
//! node's children, so that generated help text and grammar layout are
//! deterministic whatever order the configuration supplied.

use vstd::prelude::*;
use crate::model::CmdNode;

verus! {

/// Lexicographic order on character sequences, by Unicode scalar value.
pub open spec fn lex_le(a: Seq<char>, b: Seq<char>) -> bool
    decreases a.len(),
{
    if a.len() == 0 {
        true
    } else if b.len() == 0 {
        false
    } else if a[0] == b[0] {
        lex_le(a.drop_first(), b.drop_first())
    } else {
        (a[0] as int) < (b[0] as int)
    }
}

pub proof fn lemma_lex_le_refl(a: Seq<char>)
    ensures
        lex_le(a, a),
    decreases a.len(),
{
    if a.len() > 0 {
        lemma_lex_le_refl(a.drop_first());
    }
}

pub proof fn lemma_lex_le_total(a: Seq<char>, b: Seq<char>)
    ensures
        lex_le(a, b) || lex_le(b, a),
    decreases a.len(),
{
    if a.len() > 0 && b.len() > 0 && a[0] == b[0] {
        lemma_lex_le_total(a.drop_first(), b.drop_first());
    }
}

pub proof fn lemma_lex_le_trans(a: Seq<char>, b: Seq<char>, c: Seq<char>)
    requires
        lex_le(a, b),
        lex_le(b, c),
    ensures
        lex_le(a, c),
    decreases a.len(),
{
    if a.len() > 0 && b.len() > 0 && c.len() > 0 && a[0] == b[0] && b[0] == c[0] {
        lemma_lex_le_trans(a.drop_first(), b.drop_first(), c.drop_first());
    }
}

/// Relies on `str`'s `Ord` impl: the standard library documents that strings
/// are ordered lexicographically by byte value, which orders Unicode code
/// points by their scalar values.
#[verifier::external_body]
fn str_le(a: &String, b: &String) -> (r: bool)
    ensures
        r == lex_le(a@, b@),
{
    a.as_str() <= b.as_str()
}

/// `order` walks `children` in nondecreasing name order.
pub open spec fn sorted_names(children: Seq<CmdNode>, order: Seq<usize>) -> bool {
    forall|k1: int, k2: int|
        0 <= k1 < k2 < order.len() ==> lex_le(
            children[#[trigger] order[k1] as int].name@,
            children[#[trigger] order[k2] as int].name@,
        )
}

/// The positions of `children`, arranged so that the names they pick out are
/// in nondecreasing lexicographic order. Every position occurs in the result.
pub fn sorted_order(children: &Vec<CmdNode>) -> (o: Vec<usize>)
    ensures
        o@.len() == children@.len(),
        forall|k: int| 0 <= k < o@.len() ==> o@[k] < children@.len(),
        forall|w: usize| (w as int) < children@.len() ==> #[trigger] o@.contains(w),
        sorted_names(children@, o@),
{
    let n = children.len();
    let mut rest: Vec<usize> = Vec::new();
    let mut v: usize = 0;
    while v < n
        invariant
            v <= n,
            n == children@.len(),
            rest@.len() == v,
            forall|k: int| 0 <= k < rest@.len() ==> rest@[k] == k,
        decreases n - v,
    {
        rest.push(v);
        v += 1;
    }
    let mut o: Vec<usize> = Vec::new();
    proof {
        assert forall|w: usize| (w as int) < n implies rest@.contains(w) by {
            assert(rest@[w as int] == w);
        }
    }
    while rest.len() > 0
        invariant
            n == children@.len(),
            o@.len() + rest@.len() == n,
            forall|k: int| 0 <= k < o@.len() ==> o@[k] < n,
            forall|k: int| 0 <= k < rest@.len() ==> rest@[k] < n,
            forall|w: usize|
                (w as int) < n ==> #[trigger] o@.contains(w) || rest@.contains(w),
            sorted_names(children@, o@),
            forall|k: int, l: int|
                0 <= k < o@.len() && 0 <= l < rest@.len() ==> lex_le(
                    children@[#[trigger] o@[k] as int].name@,
                    children@[#[trigger] rest@[l] as int].name@,
                ),
        decreases rest@.len(),
    {
        let mut m: usize = 0;
        let mut l: usize = 1;
        proof {
            lemma_lex_le_refl(children@[rest@[0] as int].name@);
        }
        while l < rest.len()
            invariant
                n == children@.len(),
                forall|k: int| 0 <= k < rest@.len() ==> rest@[k] < n,
                rest@.len() > 0,
                m < l,
                l <= rest@.len(),
                forall|q: int|
                    0 <= q < l ==> lex_le(
                        children@[rest@[m as int] as int].name@,
                        children@[#[trigger] rest@[q] as int].name@,
                    ),
            decreases rest@.len() - l,
        {
            if str_le(&children[rest[l]].name, &children[rest[m]].name) {
                proof {
                    let lname = children@[rest@[l as int] as int].name@;
                    let mname = children@[rest@[m as int] as int].name@;
                    lemma_lex_le_refl(lname);
                    assert forall|q: int| 0 <= q < l + 1 implies lex_le(
                        lname,
                        children@[#[trigger] rest@[q] as int].name@,
                    ) by {
                        if q < l {
                            lemma_lex_le_trans(
                                lname,
                                mname,
                                children@[rest@[q] as int].name@,
                            );
                        }
                    }
                }
                m = l;
            } else {
                proof {
                    lemma_lex_le_total(
                        children@[rest@[l as int] as int].name@,
                        children@[rest@[m as int] as int].name@,
                    );
                }
            }
            l += 1;
        }
        let ghost prev_rest = rest@;
        let ghost prev_o = o@;
        let picked = rest.remove(m);
        proof {
            prev_rest.remove_ensures(m as int);
        }
        o.push(picked);
        proof {
            let pname = children@[picked as int].name@;
            assert forall|w: usize| (w as int) < n implies #[trigger] o@.contains(w)
                || rest@.contains(w) by {
                if prev_o.contains(w) {
                    let k = choose|k: int| 0 <= k < prev_o.len() && prev_o[k] == w;
                    assert(o@[k] == w);
                } else {
                    assert(prev_rest.contains(w));
                    let k = choose|k: int| 0 <= k < prev_rest.len() && prev_rest[k] == w;
                    if k == m {
                        assert(o@[o@.len() - 1] == w);
                    } else if k < m {
                        assert(rest@[k] == w);
                    } else {
                        assert(rest@[k - 1] == w);
                    }
                }
            }
            assert forall|k: int, l2: int|
                0 <= k < o@.len() && 0 <= l2 < rest@.len() implies lex_le(
                    children@[#[trigger] o@[k] as int].name@,
                    children@[#[trigger] rest@[l2] as int].name@,
                ) by {
                let r2: usize = rest@[l2];
                if l2 < m {
                    assert(prev_rest[l2] == r2);
                } else {
                    assert(prev_rest[l2 + 1] == r2);
                }
                if k < o@.len() - 1 {
                    assert(prev_o[k] == o@[k]);
                } else {
                    assert(o@[k] == picked);
                }
            }
            assert forall|k1: int, k2: int|
                0 <= k1 < k2 < o@.len() implies lex_le(
                    children@[#[trigger] o@[k1] as int].name@,
                    children@[#[trigger] o@[k2] as int].name@,
                ) by {
                if k2 < o@.len() - 1 {
                    assert(prev_o[k1] == o@[k1] && prev_o[k2] == o@[k2]);
                } else {
                    assert(o@[k2] == picked);
                    assert(prev_o[k1] == o@[k1]);
                    assert(prev_rest[m as int] == picked);
                }
            }
        }
    }
    o
}

} // verus!
