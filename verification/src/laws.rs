//! What structural moves keep: the number of nodes, the validity of the
//! selection, and, where a move can be undone, the way back.

use vstd::prelude::*;
use crate::editor::Editor;
use crate::model::{
    Node, blank_node, node_at, node_count, prefix_valid_from, relocated, removed, siblings,
    siblings_from, valid_path, with_node, with_siblings, with_siblings_from,
};
use crate::moves::{
    forest_after_remove, insertable, lemma_inserted_is_valid, lemma_move_down_fits,
    lemma_move_up_fits, lemma_removed_parent_shape, lemma_removed_shape, lemma_with_node,
    move_down_target, move_up_target, moved, with_last,
};
use crate::paths::{
    lemma_path_push, lemma_read_replaced, lemma_replace_same, lemma_replace_twice,
    lemma_same_parent,
};
use crate::text::{backspaced, inserted, lemma_insert_then_backspace};

verus! {

/// A node counted with all below it.
pub open spec fn weight(n: Node) -> nat {
    1 + node_count(n.children)
}

/// The nodes of two collections put together are counted together.
pub proof fn lemma_count_concat(a: Seq<Node>, b: Seq<Node>)
    ensures
        node_count(a + b) == node_count(a) + node_count(b),
    decreases b.len(),
{
    if b.len() == 0 {
        assert(a + b =~= a);
    } else {
        lemma_count_concat(a, b.drop_last());
        assert((a + b).drop_last() =~= a + b.drop_last());
        assert((a + b).last() == b.last());
    }
}

/// A collection of one node counts as that node.
pub proof fn lemma_count_single(n: Node)
    ensures
        node_count(seq![n]) == weight(n),
{
    let s = seq![n];
    assert(s.drop_last() =~= Seq::<Node>::empty());
    assert(s.last() == n);
    assert(node_count(s.drop_last()) == 0);
}

/// A collection counts as what lies before an index, the node there, and
/// what lies behind it.
pub proof fn lemma_count_split(s: Seq<Node>, i: int)
    requires
        0 <= i < s.len(),
    ensures
        node_count(s) == node_count(s.take(i)) + weight(s[i]) + node_count(s.skip(i + 1)),
{
    lemma_count_single(s[i]);
    lemma_count_concat(s.take(i), seq![s[i]]);
    lemma_count_concat(s.take(i) + seq![s[i]], s.skip(i + 1));
    assert(s =~= s.take(i) + seq![s[i]] + s.skip(i + 1));
}

/// Taking a node out of a collection takes its weight from the count.
pub proof fn lemma_count_remove(s: Seq<Node>, i: int)
    requires
        0 <= i < s.len(),
    ensures
        node_count(s.remove(i)) + weight(s[i]) == node_count(s),
{
    lemma_count_split(s, i);
    lemma_count_concat(s.take(i), s.skip(i + 1));
    assert(s.remove(i) =~= s.take(i) + s.skip(i + 1));
}

/// Putting a node into a collection adds its weight to the count.
pub proof fn lemma_count_insert(s: Seq<Node>, i: int, n: Node)
    requires
        0 <= i <= s.len(),
    ensures
        node_count(s.insert(i, n)) == node_count(s) + weight(n),
{
    let t = s.insert(i, n);
    lemma_count_remove(t, i);
    assert(t.remove(i) =~= s);
}

/// Replacing a node in a collection changes the count by the difference
/// of the weights.
pub proof fn lemma_count_update(s: Seq<Node>, i: int, n: Node)
    requires
        0 <= i < s.len(),
    ensures
        node_count(s.update(i, n)) + weight(s[i]) == node_count(s) + weight(n),
{
    let t = s.update(i, n);
    lemma_count_remove(s, i);
    lemma_count_remove(t, i);
    assert(t.remove(i) =~= s.remove(i));
}

/// Replacing a collection somewhere in a forest changes the count by the
/// difference of the two collections' counts.
pub proof fn lemma_count_replaced(f: Seq<Node>, p: Seq<int>, d: int, s: Seq<Node>)
    requires
        0 <= d,
        prefix_valid_from(f, p, d),
    ensures
        node_count(with_siblings_from(f, p, d, s)) + node_count(siblings_from(f, p, d))
            == node_count(f) + node_count(s),
    decreases p.len() - d,
{
    if d + 1 < p.len() {
        let i = p[d];
        let below = with_siblings_from(f[i].children, p, d + 1, s);
        lemma_count_replaced(f[i].children, p, d + 1, s);
        lemma_count_update(f, i, Node { children: below, ..f[i] });
    }
}

/// Taking a node out and putting it in elsewhere keeps the number of
/// nodes, and the new path addresses the node.
pub proof fn lemma_relocated_keeps(f: Seq<Node>, p: Seq<int>, t: Seq<int>)
    requires
        valid_path(f, p),
        insertable(removed(f, p), t),
    ensures
        node_count(relocated(f, p, t)) == node_count(f),
        valid_path(relocated(f, p, t), t),
        node_at(relocated(f, p, t), t) == node_at(f, p),
{
    let n = node_at(f, p);
    let g = removed(f, p);
    lemma_count_replaced(f, p, 0, siblings(f, p).remove(p.last()));
    lemma_count_remove(siblings(f, p), p.last());
    lemma_count_replaced(g, t, 0, siblings(g, t).insert(t.last(), n));
    lemma_count_insert(siblings(g, t), t.last(), n);
    lemma_inserted_is_valid(g, t, n);
}

/// The direction of a structural move.
pub enum Direction {
    Up,
    Down,
}

/// Where one move in the given direction puts the node at `p`.
pub open spec fn move_target(f: Seq<Node>, p: Seq<int>, direction: Direction) -> Seq<int> {
    match direction {
        Direction::Up => move_up_target(f, p),
        Direction::Down => move_down_target(f, p),
    }
}

/// The forest after a run of moves of the selected node, each starting
/// from where the one before has put it.
pub open spec fn forest_after_moves(f: Seq<Node>, p: Seq<int>, run: Seq<Direction>) -> Seq<Node>
    decreases run.len(),
{
    if run.len() == 0 {
        f
    } else {
        let before = forest_after_moves(f, p, run.drop_last());
        let at = path_after_moves(f, p, run.drop_last());
        moved(before, at, move_target(before, at, run.last()))
    }
}

/// The selection after a run of moves.
pub open spec fn path_after_moves(f: Seq<Node>, p: Seq<int>, run: Seq<Direction>) -> Seq<int>
    decreases run.len(),
{
    if run.len() == 0 {
        p
    } else {
        let before = forest_after_moves(f, p, run.drop_last());
        let at = path_after_moves(f, p, run.drop_last());
        move_target(before, at, run.last())
    }
}

/// One move keeps the selection valid, the selected node what it was, with
/// all below it, and the number of nodes in the tree.
pub proof fn lemma_move_keeps(f: Seq<Node>, p: Seq<int>, direction: Direction)
    requires
        valid_path(f, p),
    ensures
        valid_path(moved(f, p, move_target(f, p, direction)), move_target(f, p, direction)),
        node_at(moved(f, p, move_target(f, p, direction)), move_target(f, p, direction))
            == node_at(f, p),
        node_count(moved(f, p, move_target(f, p, direction))) == node_count(f),
{
    let t = move_target(f, p, direction);
    lemma_move_down_fits(f, p);
    lemma_move_up_fits(f, p);
    if t != p {
        lemma_relocated_keeps(f, p, t);
    }
}

/// Any run of moves up and down, from a valid selection, ends with a valid
/// selection of the same node in a tree of as many nodes as before.
pub proof fn lemma_moves_keep(f: Seq<Node>, p: Seq<int>, run: Seq<Direction>)
    requires
        valid_path(f, p),
    ensures
        valid_path(forest_after_moves(f, p, run), path_after_moves(f, p, run)),
        node_at(forest_after_moves(f, p, run), path_after_moves(f, p, run)) == node_at(f, p),
        node_count(forest_after_moves(f, p, run)) == node_count(f),
    decreases run.len(),
{
    if run.len() > 0 {
        lemma_moves_keep(f, p, run.drop_last());
        lemma_move_keeps(
            forest_after_moves(f, p, run.drop_last()),
            path_after_moves(f, p, run.drop_last()),
            run.last(),
        );
    }
}

/// Taking out again what was put in gives back the forest without it.
pub proof fn lemma_relocated_undone(f: Seq<Node>, p: Seq<int>, t: Seq<int>)
    requires
        valid_path(f, p),
        insertable(removed(f, p), t),
    ensures
        removed(relocated(f, p, t), t) == removed(f, p),
        relocated(relocated(f, p, t), t, p) == f,
{
    let n = node_at(f, p);
    let s = siblings(f, p);
    let h = removed(f, p);
    let room = siblings(h, t);
    let g = relocated(f, p, t);
    lemma_inserted_is_valid(h, t, n);
    assert(room.insert(t.last(), n).remove(t.last()) =~= room);
    lemma_replace_twice(h, t, 0, room.insert(t.last(), n), room);
    lemma_replace_same(h, t, 0);
    assert(removed(g, t) == h);
    lemma_removed_shape(f, p);
    assert(s.remove(p.last()).insert(p.last(), n) =~= s);
    lemma_replace_twice(f, p, 0, s.remove(p.last()), s);
    lemma_replace_same(f, p, 0);
}

/// The forest after a move down, branch by branch: the node becomes the
/// first child of its next sibling; or changes places with it; or leaves
/// its parent and stands behind it; or stays.
pub open spec fn moved_down_directly(f: Seq<Node>, p: Seq<int>) -> Seq<Node> {
    let s = siblings(f, p);
    let i = p.last();
    let n = s[i];
    let q = p.drop_last();
    if i + 1 < s.len() {
        if s[i + 1].open {
            with_siblings(
                f,
                p,
                s.remove(i).update(
                    i,
                    Node { children: s[i + 1].children.insert(0, n), ..s[i + 1] },
                ),
            )
        } else {
            with_siblings(f, p, s.update(i, s[i + 1]).update(i + 1, n))
        }
    } else if p.len() > 1 {
        with_siblings(
            f,
            q,
            siblings(f, q).update(
                q.last(),
                Node { children: s.remove(i), ..node_at(f, q) },
            ).insert(q.last() + 1, n),
        )
    } else {
        f
    }
}

/// The forest after a move up, branch by branch: the node leaves its
/// parent and stands before it; or becomes the last child of its previous
/// sibling; or changes places with it; or stays.
pub open spec fn moved_up_directly(f: Seq<Node>, p: Seq<int>) -> Seq<Node> {
    let s = siblings(f, p);
    let i = p.last();
    let n = s[i];
    let q = p.drop_last();
    if i == 0 {
        if p.len() > 1 {
            with_siblings(
                f,
                q,
                siblings(f, q).update(
                    q.last(),
                    Node { children: s.remove(i), ..node_at(f, q) },
                ).insert(q.last(), n),
            )
        } else {
            f
        }
    } else if s[i - 1].open {
        with_siblings(
            f,
            p,
            s.remove(i).update(i - 1, Node { children: s[i - 1].children.push(n), ..s[i - 1] }),
        )
    } else {
        with_siblings(f, p, s.update(i, s[i - 1]).update(i - 1, n))
    }
}

/// Taking the node out and putting it in at the place that a move names
/// gives the forest that the move describes branch by branch.
pub proof fn lemma_moved_directly(f: Seq<Node>, p: Seq<int>)
    requires
        valid_path(f, p),
    ensures
        moved(f, p, move_down_target(f, p)) == moved_down_directly(f, p),
        moved(f, p, move_up_target(f, p)) == moved_up_directly(f, p),
{
    let s = siblings(f, p);
    let i = p.last();
    let n = s[i];
    let h = removed(f, p);
    let rest = s.remove(i);
    let q = p.drop_last();
    lemma_removed_shape(f, p);
    lemma_move_down_fits(f, p);
    lemma_move_up_fits(f, p);
    if p.len() > 1 {
        lemma_removed_parent_shape(f, p);
    }
    // down
    if i + 1 < s.len() {
        let t = move_down_target(f, p);
        if s[i + 1].open {
            lemma_path_push(h, p, 0, 0, rest[i].children.insert(0, n));
            lemma_replace_twice(
                f,
                p,
                0,
                rest,
                rest.update(i, Node { children: s[i + 1].children.insert(0, n), ..s[i + 1] }),
            );
        } else {
            lemma_same_parent(h, p, t, 0, rest.insert(i + 1, n));
            assert(rest.insert(i + 1, n) =~= s.update(i, s[i + 1]).update(i + 1, n));
            lemma_replace_twice(f, p, 0, rest, rest.insert(i + 1, n));
        }
    } else if p.len() > 1 {
        let t = move_down_target(f, p);
        let above = siblings(h, q);
        lemma_same_parent(h, q, t, 0, above.insert(q.last() + 1, n));
        assert(q.push(i) =~= p);
        lemma_path_push(f, q, i, 0, rest);
        lemma_replace_twice(f, q, 0, above, above.insert(q.last() + 1, n));
    }
    // up
    if i == 0 {
        if p.len() > 1 {
            let above = siblings(h, q);
            assert(q.push(i) =~= p);
            lemma_path_push(f, q, i, 0, rest);
            lemma_replace_twice(f, q, 0, above, above.insert(q.last(), n));
        }
    } else {
        let r = with_last(p, i - 1);
        lemma_same_parent(h, p, r, 0, rest.insert(i - 1, n));
        if s[i - 1].open {
            let k = s[i - 1].children.len() as int;
            let below = s[i - 1].children.insert(k, n);
            assert(below =~= s[i - 1].children.push(n));
            lemma_path_push(h, r, k, 0, below);
            lemma_same_parent(
                h,
                p,
                r,
                0,
                rest.update(i - 1, Node { children: below, ..rest[i - 1] }),
            );
            lemma_replace_twice(
                f,
                p,
                0,
                rest,
                rest.update(i - 1, Node { children: below, ..rest[i - 1] }),
            );
        } else {
            assert(rest.insert(i - 1, n) =~= s.update(i, s[i - 1]).update(i - 1, n));
            lemma_replace_twice(f, p, 0, rest, rest.insert(i - 1, n));
        }
    }
}

/// A move down can be undone by a move up when the node has a later
/// sibling to pass or to enter, when it leaves an open parent, or when it
/// is the only root.
pub open spec fn down_is_undone_by_up(f: Seq<Node>, p: Seq<int>) -> bool {
    ||| p.last() + 1 < siblings(f, p).len()
    ||| p.len() > 1 && node_at(f, p.drop_last()).open
    ||| p.len() == 1 && p.last() == 0
}

/// Where the move down leads, seen from the forest after the move: what
/// the move up finds around the node.
proof fn lemma_up_after_down_target(f: Seq<Node>, p: Seq<int>)
    requires
        valid_path(f, p),
    ensures
        down_is_undone_by_up(f, p) == (move_up_target(
            moved(f, p, move_down_target(f, p)),
            move_down_target(f, p),
        ) == p),
{
    let s = siblings(f, p);
    let i = p.last();
    let t = move_down_target(f, p);
    let h = removed(f, p);
    let n = node_at(f, p);
    lemma_move_down_fits(f, p);
    lemma_removed_shape(f, p);
    if i + 1 < s.len() {
        let g = relocated(f, p, t);
        lemma_inserted_is_valid(h, t, n);
        if s[i + 1].open {
            assert(t.drop_last() =~= p);
        } else {
            lemma_same_parent(h, p, t, 0, Seq::empty());
            assert(siblings(g, t) == s.remove(i).insert(i + 1, n));
            assert(siblings(g, t)[i] == s[i + 1]);
            assert(with_last(t, i) =~= p);
        }
    } else if p.len() > 1 {
        let g = relocated(f, p, t);
        let q = p.drop_last();
        let j = q.last();
        lemma_inserted_is_valid(h, t, n);
        lemma_removed_parent_shape(f, p);
        lemma_same_parent(h, q, t, 0, Seq::empty());
        let above = siblings(h, q);
        assert(siblings(g, t) == above.insert(j + 1, n));
        assert(siblings(g, t)[j] == above[j]);
        assert(above[j].open == node_at(f, q).open);
        assert(above[j].children.len() == i);
        assert(with_last(t, j) =~= q);
        if node_at(f, q).open {
            assert(with_last(t, j).push(i) =~= p);
        } else {
            assert(q.len() != p.len());
        }
    } else {
        assert(t == p);
        if i != 0 {
            let u = move_up_target(f, p);
            if s[i - 1].open {
                assert(u.len() != p.len());
            } else {
                assert(u.last() != p.last());
            }
        }
    }
}

/// A move down followed by a move up gives back the tree and the
/// selection, wherever the move down can be undone; and where it cannot,
/// the selection does not come back.
pub proof fn lemma_down_then_up(f: Seq<Node>, p: Seq<int>)
    requires
        valid_path(f, p),
    ensures
        down_is_undone_by_up(f, p) ==> move_up_target(
            moved(f, p, move_down_target(f, p)),
            move_down_target(f, p),
        ) == p && moved(
            moved(f, p, move_down_target(f, p)),
            move_down_target(f, p),
            p,
        ) == f,
        !down_is_undone_by_up(f, p) ==> move_up_target(
            moved(f, p, move_down_target(f, p)),
            move_down_target(f, p),
        ) != p,
{
    let t = move_down_target(f, p);
    lemma_up_after_down_target(f, p);
    lemma_move_down_fits(f, p);
    if t != p {
        lemma_relocated_undone(f, p, t);
    }
}

/// A move up can be undone by a move down when the node has an earlier
/// sibling to pass or to enter, when it leaves an open parent, or when it
/// is the only root.
pub open spec fn up_is_undone_by_down(f: Seq<Node>, p: Seq<int>) -> bool {
    ||| p.last() > 0
    ||| p.len() > 1 && node_at(f, p.drop_last()).open
    ||| p.len() == 1 && siblings(f, p).len() == 1
}

/// Where the move up leads, seen from the forest after the move: what
/// the move down finds around the node.
proof fn lemma_down_after_up_target(f: Seq<Node>, p: Seq<int>)
    requires
        valid_path(f, p),
    ensures
        up_is_undone_by_down(f, p) == (move_down_target(
            moved(f, p, move_up_target(f, p)),
            move_up_target(f, p),
        ) == p),
{
    let s = siblings(f, p);
    let i = p.last();
    let t = move_up_target(f, p);
    let h = removed(f, p);
    let n = node_at(f, p);
    lemma_move_up_fits(f, p);
    lemma_removed_shape(f, p);
    if i == 0 {
        if p.len() > 1 {
            let g = relocated(f, p, t);
            let q = p.drop_last();
            let j = q.last();
            lemma_inserted_is_valid(h, t, n);
            lemma_removed_parent_shape(f, p);
            let above = siblings(h, q);
            assert(siblings(g, t) == above.insert(j, n));
            assert(siblings(g, t)[j + 1] == above[j]);
            assert(above[j].open == node_at(f, q).open);
            if node_at(f, q).open {
                assert(t.push(0) =~= p);
            } else {
                assert(with_last(t, j + 1).len() != p.len());
            }
        } else {
            assert(t == p);
            if s.len() != 1 {
                let u = move_down_target(f, p);
                if s[i + 1].open {
                    assert(u.len() != p.len());
                } else {
                    assert(u.last() != p.last());
                }
            }
        }
    } else {
        let g = relocated(f, p, t);
        let r = with_last(p, i - 1);
        lemma_inserted_is_valid(h, t, n);
        lemma_same_parent(h, p, r, 0, Seq::empty());
        if s[i - 1].open {
            let k = s[i - 1].children.len() as int;
            lemma_path_push(h, r, k, 0, Seq::empty());
            assert(siblings(h, t) == s[i - 1].children);
            assert(siblings(g, t).len() == k + 1);
            assert(t.drop_last() =~= r);
            assert(with_last(r, i) =~= p);
        } else {
            assert(siblings(g, t) == s.remove(i).insert(i - 1, n));
            assert(siblings(g, t)[i] == s[i - 1]);
            assert(with_last(t, i) =~= p);
        }
    }
}

/// A move up followed by a move down gives back the tree and the
/// selection, wherever the move up can be undone; and where it cannot,
/// the selection does not come back.
pub proof fn lemma_up_then_down(f: Seq<Node>, p: Seq<int>)
    requires
        valid_path(f, p),
    ensures
        up_is_undone_by_down(f, p) ==> move_down_target(
            moved(f, p, move_up_target(f, p)),
            move_up_target(f, p),
        ) == p && moved(moved(f, p, move_up_target(f, p)), move_up_target(f, p), p) == f,
        !up_is_undone_by_down(f, p) ==> move_down_target(
            moved(f, p, move_up_target(f, p)),
            move_up_target(f, p),
        ) != p,
{
    let t = move_up_target(f, p);
    lemma_down_after_up_target(f, p);
    lemma_move_up_fits(f, p);
    if t != p {
        lemma_relocated_undone(f, p, t);
    }
}

/// A removal changes the collection that held the node and no other: that
/// collection loses the node and keeps the rest in order, and the tree
/// loses as many nodes as the node had with all below it. What is left is
/// the tree after the removal unless nothing is left.
pub proof fn lemma_remove_takes_subtree(f: Seq<Node>, p: Seq<int>)
    requires
        valid_path(f, p),
    ensures
        removed(f, p) == with_siblings(f, p, siblings(f, p).remove(p.last())),
        siblings(removed(f, p), p) == siblings(f, p).remove(p.last()),
        node_count(removed(f, p)) + weight(node_at(f, p)) == node_count(f),
        removed(f, p).len() > 0 ==> forest_after_remove(f, p) == removed(f, p),
        forest_after_remove(f, p).len() > 0,
{
    lemma_removed_shape(f, p);
    lemma_count_replaced(f, p, 0, siblings(f, p).remove(p.last()));
    lemma_count_remove(siblings(f, p), p.last());
}

/// Removing the only task of a tree leaves one blank task.
pub proof fn lemma_remove_last_root(f: Seq<Node>, p: Seq<int>)
    requires
        valid_path(f, p),
        f.len() == 1,
        p.len() == 1,
    ensures
        forest_after_remove(f, p) == seq![blank_node()],
        node_count(forest_after_remove(f, p)) == 1,
{
    lemma_count_single(blank_node());
}

/// Putting a node back where it is changes nothing, and of two
/// replacements of one node the second stands.
pub proof fn lemma_with_node_twice(f: Seq<Node>, p: Seq<int>, a: Node, b: Node)
    requires
        valid_path(f, p),
    ensures
        with_node(f, p, node_at(f, p)) == f,
        with_node(with_node(f, p, a), p, b) == with_node(f, p, b),
{
    let s = siblings(f, p);
    let i = p.last();
    assert(s.update(i, s[i]) =~= s);
    lemma_replace_same(f, p, 0);
    lemma_read_replaced(f, p, 0, s.update(i, a));
    assert(s.update(i, a).update(i, b) =~= s.update(i, b));
    lemma_replace_twice(f, p, 0, s.update(i, a), s.update(i, b));
}

/// A character typed and deleted at once leaves the editor as it was:
/// the text, the cursor and all else.
pub proof fn lemma_typed_then_erased(e: Editor, chr: char)
    requires
        e.wf(),
    ensures
        e.typed(chr).erased() == e,
        e.typed(chr).wf(),
{
    match e.cursor {
        Some((field, offset)) => {
            let n = e.current();
            let typed = n.with_text(field, inserted(n.text(field), offset, chr));
            lemma_with_node(e.forest, e.path, typed);
            lemma_insert_then_backspace(n.text(field), offset, chr);
            assert(typed.with_text(field, backspaced(typed.text(field), offset)) == n);
            lemma_with_node_twice(e.forest, e.path, typed, n);
        },
        None => {},
    }
}

} // verus!
