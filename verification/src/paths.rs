//! How the paths of a forest behave when a collection in it is replaced or
//! a path is made longer or shorter.

use vstd::prelude::*;
use crate::model::{Node, prefix_valid_from, siblings_from, valid_path, with_siblings_from};

verus! {

/// A path is valid from level `d` on.
pub open spec fn valid_from(f: Seq<Node>, p: Seq<int>, d: int) -> bool {
    0 <= d < p.len() && prefix_valid_from(f, p, d) && 0 <= p.last() < siblings_from(f, p, d).len()
}

/// Two paths of one length that differ at most in their last index.
pub open spec fn same_parent(p: Seq<int>, q: Seq<int>) -> bool {
    p.len() == q.len() && forall|j: int| 0 <= j < p.len() - 1 ==> p[j] == q[j]
}

/// Paths that differ at most in their last index address the same
/// collection, and replacing it is the same for both.
pub proof fn lemma_same_parent(f: Seq<Node>, p: Seq<int>, q: Seq<int>, d: int, s: Seq<Node>)
    requires
        0 <= d,
        same_parent(p, q),
    ensures
        prefix_valid_from(f, p, d) == prefix_valid_from(f, q, d),
        siblings_from(f, p, d) == siblings_from(f, q, d),
        with_siblings_from(f, p, d, s) == with_siblings_from(f, q, d, s),
    decreases p.len() - d,
{
    if d + 1 < p.len() {
        lemma_same_parent(f[p[d]].children, p, q, d + 1, s);
    }
}

/// After a collection has been replaced, the path still leads to it, and
/// what is found there is the replacement.
pub proof fn lemma_read_replaced(f: Seq<Node>, p: Seq<int>, d: int, s: Seq<Node>)
    requires
        0 <= d,
        prefix_valid_from(f, p, d),
    ensures
        prefix_valid_from(with_siblings_from(f, p, d, s), p, d),
        siblings_from(with_siblings_from(f, p, d, s), p, d) == s,
        with_siblings_from(f, p, d, s).len() == if d + 1 >= p.len() {
            s.len()
        } else {
            f.len()
        },
    decreases p.len() - d,
{
    if d + 1 < p.len() {
        lemma_read_replaced(f[p[d]].children, p, d + 1, s);
    }
}

/// Replacing a collection twice is replacing it by the second.
pub proof fn lemma_replace_twice(
    f: Seq<Node>,
    p: Seq<int>,
    d: int,
    s: Seq<Node>,
    t: Seq<Node>,
)
    requires
        0 <= d,
        prefix_valid_from(f, p, d),
    ensures
        with_siblings_from(with_siblings_from(f, p, d, s), p, d, t) == with_siblings_from(
            f,
            p,
            d,
            t,
        ),
    decreases p.len() - d,
{
    if d + 1 < p.len() {
        let i = p[d];
        lemma_replace_twice(f[i].children, p, d + 1, s, t);
        assert(with_siblings_from(with_siblings_from(f, p, d, s), p, d, t) =~= with_siblings_from(
            f,
            p,
            d,
            t,
        ));
    }
}

/// Replacing a collection by itself changes nothing.
pub proof fn lemma_replace_same(f: Seq<Node>, p: Seq<int>, d: int)
    requires
        0 <= d,
        prefix_valid_from(f, p, d),
    ensures
        with_siblings_from(f, p, d, siblings_from(f, p, d)) == f,
    decreases p.len() - d,
{
    if d + 1 < p.len() {
        let i = p[d];
        lemma_replace_same(f[i].children, p, d + 1);
        assert(with_siblings_from(f, p, d, siblings_from(f, p, d)) =~= f);
    }
}

/// A path made longer by one index leads into the children of the node
/// that the shorter path addresses.
pub proof fn lemma_path_push(f: Seq<Node>, p: Seq<int>, x: int, d: int, c: Seq<Node>)
    requires
        0 <= d < p.len(),
    ensures
        prefix_valid_from(f, p.push(x), d) == valid_from(f, p, d),
        valid_from(f, p, d) ==> siblings_from(f, p.push(x), d) == siblings_from(
            f,
            p,
            d,
        )[p.last()].children,
        valid_from(f, p, d) ==> with_siblings_from(f, p.push(x), d, c) == with_siblings_from(
            f,
            p,
            d,
            siblings_from(f, p, d).update(
                p.last(),
                Node { children: c, ..siblings_from(f, p, d)[p.last()] },
            ),
        ),
    decreases p.len() - d,
{
    let pp = p.push(x);
    assert(pp[d] == p[d]);
    if d + 1 < p.len() {
        lemma_path_push(f[p[d]].children, p, x, d + 1, c);
    } else {
        assert(p.last() == p[d]);
        if 0 <= p[d] < f.len() {
            assert(prefix_valid_from(f[p[d]].children, pp, d + 1));
            assert(siblings_from(f[p[d]].children, pp, d + 1) == f[p[d]].children);
            assert(with_siblings_from(f[p[d]].children, pp, d + 1, c) == c);
        }
    }
}

/// The path to the parent of a node is valid, and the collection that
/// holds the node is the parent's children.
pub proof fn lemma_path_parent(f: Seq<Node>, p: Seq<int>, d: int)
    requires
        0 <= d,
        d + 1 < p.len(),
        prefix_valid_from(f, p, d),
    ensures
        valid_from(f, p.drop_last(), d),
        siblings_from(f, p, d) == siblings_from(f, p.drop_last(), d)[p.drop_last().last()].children,
{
    let q = p.drop_last();
    assert(q.push(p.last()) =~= p);
    lemma_path_push(f, q, p.last(), d, Seq::empty());
}

/// Every prefix of a valid path that is not empty is valid.
pub proof fn lemma_prefix_valid(f: Seq<Node>, p: Seq<int>, n: int)
    requires
        valid_path(f, p),
        1 <= n <= p.len(),
    ensures
        valid_path(f, p.take(n)),
    decreases p.len() - n,
{
    if n < p.len() {
        lemma_prefix_valid(f, p, n + 1);
        let longer = p.take(n + 1);
        lemma_path_parent(f, longer, 0);
        assert(longer.drop_last() =~= p.take(n));
    } else {
        assert(p.take(n) =~= p);
    }
}

} // verus!
