//! Where selection steps and structural moves lead, stated on the model.

use vstd::prelude::*;
use crate::model::{
    Node, blank_node, inserted_at, node_at, prefix_valid_from, relocated, removed, siblings,
    siblings_from, valid_path, with_node, with_siblings,
};
use crate::paths::{
    lemma_path_parent, lemma_path_push, lemma_read_replaced, lemma_same_parent, valid_from,
};

verus! {

/// A node can be put in at `t`: the path leads to a collection, and its
/// last index is at most the length of that collection.
pub open spec fn insertable(f: Seq<Node>, t: Seq<int>) -> bool {
    t.len() > 0 && prefix_valid_from(f, t, 0) && 0 <= t.last() <= siblings(f, t).len()
}

/// The path `p` with its last index replaced by `i`.
pub open spec fn with_last(p: Seq<int>, i: int) -> Seq<int> {
    p.drop_last().push(i)
}

/// Where a move towards the end of the traversal puts the selected node:
/// into the next sibling if that is open, else behind it; from the last
/// place among its siblings, out behind its parent; `p` itself where the
/// node stays.
pub open spec fn move_down_target(f: Seq<Node>, p: Seq<int>) -> Seq<int> {
    let s = siblings(f, p);
    let i = p.last();
    if i + 1 < s.len() {
        if s[i + 1].open {
            p.push(0)
        } else {
            with_last(p, i + 1)
        }
    } else if p.len() > 1 {
        with_last(p.drop_last(), p.drop_last().last() + 1)
    } else {
        p
    }
}

/// Where a move towards the start of the traversal puts the selected
/// node: from the first place among its siblings, out before its parent;
/// else to the end of the previous sibling's children if that sibling is
/// open, else before it; `p` itself where the node stays.
pub open spec fn move_up_target(f: Seq<Node>, p: Seq<int>) -> Seq<int> {
    let s = siblings(f, p);
    let i = p.last();
    if i == 0 {
        if p.len() > 1 {
            p.drop_last()
        } else {
            p
        }
    } else if s[i - 1].open {
        with_last(p, i - 1).push(s[i - 1].children.len() as int)
    } else {
        with_last(p, i - 1)
    }
}

/// The forest after the node at `p` has gone to `target`.
pub open spec fn moved(f: Seq<Node>, p: Seq<int>, target: Seq<int>) -> Seq<Node> {
    if target == p {
        f
    } else {
        relocated(f, p, target)
    }
}

/// Where a node is put in, the path addresses it afterwards.
pub proof fn lemma_inserted_is_valid(f: Seq<Node>, t: Seq<int>, n: Node)
    requires
        insertable(f, t),
    ensures
        valid_path(inserted_at(f, t, n), t),
        node_at(inserted_at(f, t, n), t) == n,
        siblings(inserted_at(f, t, n), t) == siblings(f, t).insert(t.last(), n),
{
    lemma_read_replaced(f, t, 0, siblings(f, t).insert(t.last(), n));
}

/// What a removal leaves: the path still leads to the collection, which
/// has lost the node.
pub proof fn lemma_removed_shape(f: Seq<Node>, p: Seq<int>)
    requires
        valid_path(f, p),
    ensures
        prefix_valid_from(removed(f, p), p, 0),
        siblings(removed(f, p), p) == siblings(f, p).remove(p.last()),
{
    lemma_read_replaced(f, p, 0, siblings(f, p).remove(p.last()));
}

/// What a removal leaves one level up: the parent's collection keeps its
/// length, and the parent has lost one child.
pub proof fn lemma_removed_parent_shape(f: Seq<Node>, p: Seq<int>)
    requires
        valid_path(f, p),
        p.len() > 1,
    ensures
        valid_path(f, p.drop_last()),
        valid_path(removed(f, p), p.drop_last()),
        siblings(f, p) == node_at(f, p.drop_last()).children,
        siblings(removed(f, p), p.drop_last()) == siblings(f, p.drop_last()).update(
            p.drop_last().last(),
            Node {
                children: siblings(f, p).remove(p.last()),
                ..node_at(f, p.drop_last())
            },
        ),
{
    let q = p.drop_last();
    let rest = siblings(f, p).remove(p.last());
    lemma_path_parent(f, p, 0);
    assert(q.push(p.last()) =~= p);
    lemma_path_push(f, q, p.last(), 0, rest);
    let above = siblings(f, q).update(
        q.last(),
        Node { children: rest, ..node_at(f, q) },
    );
    assert(removed(f, p) == with_siblings(f, q, above));
    lemma_read_replaced(f, q, 0, above);
}

/// The place that a move down leads to can take the node once it has been
/// removed.
pub proof fn lemma_move_down_fits(f: Seq<Node>, p: Seq<int>)
    requires
        valid_path(f, p),
    ensures
        move_down_target(f, p) != p ==> insertable(removed(f, p), move_down_target(f, p)),
{
    let s = siblings(f, p);
    let i = p.last();
    let g = removed(f, p);
    let t = move_down_target(f, p);
    lemma_removed_shape(f, p);
    if i + 1 < s.len() {
        if s[i + 1].open {
            lemma_path_push(g, p, 0, 0, Seq::empty());
        } else {
            lemma_same_parent(g, p, t, 0, Seq::empty());
        }
    } else if p.len() > 1 {
        lemma_removed_parent_shape(f, p);
        lemma_same_parent(g, p.drop_last(), t, 0, Seq::empty());
    }
}

/// The place that a move up leads to can take the node once it has been
/// removed.
pub proof fn lemma_move_up_fits(f: Seq<Node>, p: Seq<int>)
    requires
        valid_path(f, p),
    ensures
        move_up_target(f, p) != p ==> insertable(removed(f, p), move_up_target(f, p)),
{
    let s = siblings(f, p);
    let i = p.last();
    let g = removed(f, p);
    lemma_removed_shape(f, p);
    if i == 0 {
        if p.len() > 1 {
            lemma_removed_parent_shape(f, p);
        }
    } else {
        let r = with_last(p, i - 1);
        lemma_same_parent(g, p, r, 0, Seq::empty());
        if s[i - 1].open {
            lemma_path_push(g, r, s[i - 1].children.len() as int, 0, Seq::empty());
        }
    }
}

/// The path from a node down to the last node that is visible below it:
/// through last children, as long as the node reached is open and has
/// children.
pub open spec fn last_visible(n: Node) -> Seq<int>
    decreases n,
{
    if n.open && n.children.len() > 0 {
        seq![n.children.len() - 1] + last_visible(n.children.last())
    } else {
        Seq::empty()
    }
}

/// The deepest level of `p`, from `d` on, at which the node on the path
/// has a later sibling; -1 if there is none.
pub open spec fn turn_level(f: Seq<Node>, p: Seq<int>, d: int) -> int
    decreases p.len() - d,
{
    if d < 0 || d >= p.len() {
        -1
    } else {
        let deeper = turn_level(f[p[d]].children, p, d + 1);
        if deeper >= 0 {
            deeper
        } else if 0 <= p[d] && p[d] + 1 < f.len() {
            d
        } else {
            -1
        }
    }
}

/// The node after `p` in the traversal that skips what lies below closed
/// nodes: the first child of an open node, else the next sibling of the
/// nearest node on the path that has one; `p` itself at the end.
pub open spec fn select_next_target(f: Seq<Node>, p: Seq<int>) -> Seq<int> {
    let n = node_at(f, p);
    let l = turn_level(f, p, 0);
    if n.open && n.children.len() > 0 {
        p.push(0)
    } else if l >= 0 {
        p.take(l).push(p[l] + 1)
    } else {
        p
    }
}

/// The node before `p` in that traversal: the last node visible below the
/// previous sibling, or that sibling itself; the parent for a first
/// child; `p` itself at the start.
pub open spec fn select_prev_target(f: Seq<Node>, p: Seq<int>) -> Seq<int> {
    let i = p.last();
    if i == 0 {
        if p.len() > 1 {
            p.drop_last()
        } else {
            p
        }
    } else {
        with_last(p, i - 1) + last_visible(node_at(f, with_last(p, i - 1)))
    }
}

/// The step to a later sibling stays within the forest.
pub proof fn lemma_turn_valid(f: Seq<Node>, p: Seq<int>, d: int)
    requires
        valid_from(f, p, d),
    ensures
        turn_level(f, p, d) == -1 || (d <= turn_level(f, p, d) < p.len() && valid_from(
            f,
            p.take(turn_level(f, p, d)).push(p[turn_level(f, p, d)] + 1),
            d,
        )),
    decreases p.len() - d,
{
    let l = turn_level(f, p, d);
    let deeper = turn_level(f[p[d]].children, p, d + 1);
    if d + 1 < p.len() {
        lemma_turn_valid(f[p[d]].children, p, d + 1);
    } else {
        assert(deeper == -1);
        assert(p.last() == p[d]);
    }
    if l >= 0 {
        let t = p.take(l).push(p[l] + 1);
        if deeper >= 0 {
            assert(t[d] == p[d]);
        } else {
            assert(l == d);
            assert(t.last() == p[d] + 1);
            assert(siblings_from(f, t, d) == f);
        }
    }
}

/// Going down to the last visible node stays within the forest.
pub proof fn lemma_last_visible_valid(f: Seq<Node>, q: Seq<int>)
    requires
        valid_path(f, q),
    ensures
        valid_path(f, q + last_visible(node_at(f, q))),
    decreases node_at(f, q),
{
    let n = node_at(f, q);
    if n.open && n.children.len() > 0 {
        let x = n.children.len() - 1;
        let longer = q.push(x);
        lemma_path_push(f, q, x, 0, Seq::empty());
        assert(valid_from(f, q, 0));
        assert(longer.last() == x);
        assert(siblings(f, longer) == n.children);
        assert(node_at(f, longer) == n.children.last());
        lemma_last_visible_valid(f, longer);
        assert(q + last_visible(n) =~= longer + last_visible(n.children.last()));
    } else {
        assert(q + last_visible(n) =~= q);
    }
}

/// A selection step leads to a node of the forest.
pub proof fn lemma_select_valid(f: Seq<Node>, p: Seq<int>)
    requires
        valid_path(f, p),
    ensures
        valid_path(f, select_next_target(f, p)),
        valid_path(f, select_prev_target(f, p)),
{
    let n = node_at(f, p);
    if n.open && n.children.len() > 0 {
        lemma_path_push(f, p, 0, 0, Seq::empty());
    } else {
        lemma_turn_valid(f, p, 0);
    }
    let i = p.last();
    if i == 0 {
        if p.len() > 1 {
            lemma_path_parent(f, p, 0);
        }
    } else {
        let q = with_last(p, i - 1);
        lemma_same_parent(f, p, q, 0, Seq::empty());
        lemma_last_visible_valid(f, q);
    }
}

/// The selection after the node at `p` has been removed: the previous
/// sibling, else the parent, else the first root.
pub open spec fn selection_after_remove(p: Seq<int>) -> Seq<int> {
    if p.last() > 0 {
        with_last(p, p.last() - 1)
    } else if p.len() > 1 {
        p.drop_last()
    } else {
        p
    }
}

/// The forest after the node at `p` has been removed: where nothing is
/// left, one blank task takes the place.
pub open spec fn forest_after_remove(f: Seq<Node>, p: Seq<int>) -> Seq<Node> {
    if removed(f, p).len() == 0 {
        seq![blank_node()]
    } else {
        removed(f, p)
    }
}

/// After a removal the repaired selection addresses a task.
pub proof fn lemma_remove_keeps_selection(f: Seq<Node>, p: Seq<int>)
    requires
        valid_path(f, p),
    ensures
        valid_path(forest_after_remove(f, p), selection_after_remove(p)),
        removed(f, p).len() == 0 ==> p =~= seq![0int] && f.len() == 1,
{
    let g = removed(f, p);
    lemma_removed_shape(f, p);
    lemma_read_replaced(f, p, 0, siblings(f, p).remove(p.last()));
    if p.last() > 0 {
        lemma_same_parent(g, p, with_last(p, p.last() - 1), 0, Seq::empty());
    } else if p.len() > 1 {
        lemma_removed_parent_shape(f, p);
    }
}

/// Replacing a node keeps its path valid.
pub proof fn lemma_with_node(f: Seq<Node>, p: Seq<int>, n: Node)
    requires
        valid_path(f, p),
    ensures
        valid_path(with_node(f, p, n), p),
        node_at(with_node(f, p, n), p) == n,
{
    lemma_read_replaced(f, p, 0, siblings(f, p).update(p.last(), n));
}

} // verus!
