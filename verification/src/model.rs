//! The mathematical model of the task tree: a forest of nodes addressed by
//! paths of sibling indices.

use vstd::prelude::*;
use crate::text::{backspaced, inserted, word_backspaced};

verus! {

/// Progress of a task.
#[derive(Clone, Copy, Debug, PartialEq, Eq, Structural)]
pub enum TodoState {
    Todo,
    Doing,
    Done,
}

impl TodoState {
    /// The state that follows `self` in the cycle Todo, Doing, Done.
    pub open spec fn successor(self) -> TodoState {
        match self {
            TodoState::Todo => TodoState::Doing,
            TodoState::Doing => TodoState::Done,
            TodoState::Done => TodoState::Todo,
        }
    }
}

/// What a task is, apart from how it is stored.
pub ghost struct Node {
    pub children: Seq<Node>,
    pub name: Seq<char>,
    pub description: Seq<char>,
    pub state: TodoState,
    pub open: bool,
}

/// The task that creation yields: no text, no children, `Todo`, closed.
pub open spec fn blank_node() -> Node {
    Node {
        children: Seq::empty(),
        name: Seq::empty(),
        description: Seq::empty(),
        state: TodoState::Todo,
        open: false,
    }
}

/// Every index of `p` before the last, from position `d` on, is in bounds
/// at its level.
pub open spec fn prefix_valid_from(f: Seq<Node>, p: Seq<int>, d: int) -> bool
    decreases p.len() - d,
{
    d + 1 >= p.len() || (0 <= d && 0 <= p[d] < f.len() && prefix_valid_from(
        f[p[d]].children,
        p,
        d + 1,
    ))
}

/// The collection that holds the node addressed by `p`, reading `p` from
/// position `d` on.
pub open spec fn siblings_from(f: Seq<Node>, p: Seq<int>, d: int) -> Seq<Node>
    decreases p.len() - d,
{
    if d + 1 >= p.len() || d < 0 {
        f
    } else {
        siblings_from(f[p[d]].children, p, d + 1)
    }
}

/// The forest `f` with the collection that holds the node addressed by `p`
/// replaced by `s`.
pub open spec fn with_siblings_from(f: Seq<Node>, p: Seq<int>, d: int, s: Seq<Node>) -> Seq<
    Node,
>
    decreases p.len() - d,
{
    if d + 1 >= p.len() || d < 0 {
        s
    } else {
        let i = p[d];
        f.update(
            i,
            Node { children: with_siblings_from(f[i].children, p, d + 1, s), ..f[i] },
        )
    }
}

/// The number of nodes in a forest, descendants included.
pub open spec fn node_count(f: Seq<Node>) -> nat
    decreases f,
{
    if f.len() == 0 {
        0
    } else {
        1 + node_count(f.last().children) + node_count(f.drop_last())
    }
}

/// A stored path as a path of the model.
pub open spec fn path_ints(p: Seq<usize>) -> Seq<int> {
    Seq::new(p.len(), |i: int| p[i] as int)
}

/// A path is valid when it is not empty and each index is in bounds at its
/// level.
pub open spec fn valid_path(f: Seq<Node>, p: Seq<int>) -> bool {
    p.len() > 0 && prefix_valid_from(f, p, 0) && 0 <= p.last() < siblings_from(f, p, 0).len()
}

/// The collection that holds the node addressed by `p`.
pub open spec fn siblings(f: Seq<Node>, p: Seq<int>) -> Seq<Node> {
    siblings_from(f, p, 0)
}

/// The forest `f` with the collection that holds the node at `p` replaced.
pub open spec fn with_siblings(f: Seq<Node>, p: Seq<int>, s: Seq<Node>) -> Seq<Node> {
    with_siblings_from(f, p, 0, s)
}

/// The node addressed by the valid path `p`.
pub open spec fn node_at(f: Seq<Node>, p: Seq<int>) -> Node
    recommends
        valid_path(f, p),
{
    siblings(f, p)[p.last()]
}

/// The forest `f` with the node at `p` replaced by `n`.
pub open spec fn with_node(f: Seq<Node>, p: Seq<int>, n: Node) -> Seq<Node> {
    with_siblings(f, p, siblings(f, p).update(p.last(), n))
}

/// One of the two texts of a task.
#[derive(Clone, Copy, Debug, PartialEq, Eq, Structural)]
pub enum Field {
    Name,
    Description,
}

/// A change to one task that leaves the tasks below it alone. The number
/// in a text edit is the cursor's distance from the end of the text.
#[derive(Clone, Copy, Debug)]
pub enum Edit {
    SetOpen(bool),
    Advance,
    Insert(Field, usize, char),
    Backspace(Field, usize),
    BackspaceWord(Field, usize),
}

impl Node {
    /// The text of the node that `field` names.
    pub open spec fn text(self, field: Field) -> Seq<char> {
        match field {
            Field::Name => self.name,
            Field::Description => self.description,
        }
    }

    /// The node with `text` as the text that `field` names.
    pub open spec fn with_text(self, field: Field, text: Seq<char>) -> Node {
        match field {
            Field::Name => Node { name: text, ..self },
            Field::Description => Node { description: text, ..self },
        }
    }
}

/// An edit can be carried out when its cursor lies within the text.
pub open spec fn edit_applies(n: Node, e: Edit) -> bool {
    match e {
        Edit::Insert(field, offset, _) => offset <= n.text(field).len(),
        Edit::BackspaceWord(field, offset) => offset <= n.text(field).len(),
        _ => true,
    }
}

/// The node after the edit.
pub open spec fn edited(n: Node, e: Edit) -> Node {
    match e {
        Edit::SetOpen(value) => Node { open: value, ..n },
        Edit::Advance => Node { state: n.state.successor(), ..n },
        Edit::Insert(field, offset, chr) => n.with_text(
            field,
            inserted(n.text(field), offset as int, chr),
        ),
        Edit::Backspace(field, offset) => n.with_text(
            field,
            backspaced(n.text(field), offset as int),
        ),
        Edit::BackspaceWord(field, offset) => n.with_text(
            field,
            word_backspaced(n.text(field), offset as int),
        ),
    }
}

/// The forest without the node at `p`.
pub open spec fn removed(f: Seq<Node>, p: Seq<int>) -> Seq<Node> {
    with_siblings(f, p, siblings(f, p).remove(p.last()))
}

/// The forest with `n` put in so that `p` addresses it.
pub open spec fn inserted_at(f: Seq<Node>, p: Seq<int>, n: Node) -> Seq<Node> {
    with_siblings(f, p, siblings(f, p).insert(p.last(), n))
}

/// The forest after the node at `p`, with all below it, has been taken out
/// and put in again so that `target` addresses it.
pub open spec fn relocated(f: Seq<Node>, p: Seq<int>, target: Seq<int>) -> Seq<Node> {
    inserted_at(removed(f, p), target, node_at(f, p))
}

} // verus!
