//! The stored task tree and the operations that reach into it by path.

use vstd::prelude::*;
use crate::model::{
    Edit, Field, Node, TodoState, edit_applies, edited, node_at, path_ints, prefix_valid_from,
    siblings, siblings_from, valid_path, with_siblings_from,
};
use crate::moves::{last_visible, turn_level};
use crate::paths::valid_from;
use crate::text::{backspace, backspace_word, insert_char};

verus! {

/// One task with the tasks below it.
#[derive(Debug, PartialEq, Eq)]
pub struct Todo {
    pub children: Vec<Todo>,
    pub name: Vec<char>,
    pub description: Vec<char>,
    pub state: TodoState,
    pub open: bool,
}

impl Todo {
    /// The task as a value of the model.
    pub open spec fn model(self) -> Node
        decreases self,
    {
        Node {
            children: Seq::new(
                self.children@.len(),
                |i: int|
                    if 0 <= i < self.children@.len() {
                        self.children@[i].model()
                    } else {
                        arbitrary()
                    },
            ),
            name: self.name@,
            description: self.description@,
            state: self.state,
            open: self.open,
        }
    }

    /// A closed task without children or description, in state `Todo`.
    pub fn new(name: Vec<char>) -> (todo: Todo)
        ensures
            todo.model() == (Node {
                children: Seq::empty(),
                name: name@,
                description: Seq::empty(),
                state: TodoState::Todo,
                open: false,
            }),
    {
        let todo = Todo {
            children: Vec::new(),
            name,
            description: Vec::new(),
            state: TodoState::Todo,
            open: false,
        };
        assert(todo.model().children =~= Seq::empty());
        todo
    }

    /// Moves the state one step on in the cycle Todo, Doing, Done.
    pub fn advance(&mut self)
        ensures
            final(self).model() == (Node {
                state: old(self).model().state.successor(),
                ..old(self).model()
            }),
    {
        self.state =
        match self.state {
            TodoState::Todo => TodoState::Doing,
            TodoState::Doing => TodoState::Done,
            TodoState::Done => TodoState::Todo,
        };
    }

    /// Carries out one edit on the task; the tasks below it stay as they
    /// are.
    pub fn apply(&mut self, edit: Edit)
        requires
            edit_applies(old(self).model(), edit),
        ensures
            final(self).model() == edited(old(self).model(), edit),
    {
        match edit {
            Edit::SetOpen(value) => {
                self.open = value;
            },
            Edit::Advance => {
                self.advance();
            },
            Edit::Insert(Field::Name, offset, chr) => {
                insert_char(&mut self.name, offset, chr);
            },
            Edit::Insert(Field::Description, offset, chr) => {
                insert_char(&mut self.description, offset, chr);
            },
            Edit::Backspace(Field::Name, offset) => {
                backspace(&mut self.name, offset);
            },
            Edit::Backspace(Field::Description, offset) => {
                backspace(&mut self.description, offset);
            },
            Edit::BackspaceWord(Field::Name, offset) => {
                backspace_word(&mut self.name, offset);
            },
            Edit::BackspaceWord(Field::Description, offset) => {
                backspace_word(&mut self.description, offset);
            },
        }
    }
}

/// The model of a stored collection of tasks.
pub open spec fn forest(v: Seq<Todo>) -> Seq<Node> {
    Seq::new(v.len(), |i: int| v[i].model())
}

/// The children of a task's model are the model of its stored children.
pub proof fn lemma_model_children(t: Todo)
    ensures
        t.model().children == forest(t.children@),
{
    assert(t.model().children =~= forest(t.children@));
}

/// The path leads to a collection, read from level `depth` on in `nodes`.
pub open spec fn leads_in(nodes: Seq<Todo>, path: Seq<usize>, depth: int) -> bool {
    prefix_valid_from(forest(nodes), path_ints(path), depth)
}

/// The collection that the path leads to, read from level `depth` on in
/// `nodes`.
pub open spec fn siblings_in(nodes: Seq<Todo>, path: Seq<usize>, depth: int) -> Seq<Node> {
    siblings_from(forest(nodes), path_ints(path), depth)
}

/// `nodes` with the collection that the path leads to replaced.
pub open spec fn replaced_in(
    nodes: Seq<Todo>,
    path: Seq<usize>,
    depth: int,
    collection: Seq<Node>,
) -> Seq<Node> {
    with_siblings_from(forest(nodes), path_ints(path), depth, collection)
}

/// The index that ends a stored path.
pub open spec fn last_index(path: Seq<usize>) -> int {
    path_ints(path).last()
}

/// Takes the node at `path` out of the collection that holds it.
pub(crate) fn remove_at(nodes: &mut Vec<Todo>, path: &Vec<usize>, depth: usize) -> (item: Todo)
    requires
        depth < path.len(),
        leads_in(old(nodes)@, path@, depth as int),
        last_index(path@) < siblings_in(old(nodes)@, path@, depth as int).len(),
    ensures
        item.model() == siblings_in(old(nodes)@, path@, depth as int)[last_index(path@)],
        forest(final(nodes)@) == replaced_in(
            old(nodes)@,
            path@,
            depth as int,
            siblings_in(old(nodes)@, path@, depth as int).remove(last_index(path@)),
        ),
    decreases path.len() - depth,
{
    let i: usize = path[depth];
    if depth + 1 == path.len() {
        let item = nodes.remove(i);
        assert(forest(nodes@) =~= forest(old(nodes)@).remove(i as int));
        item
    } else {
        proof {
            lemma_model_children(nodes@[i as int]);
        }
        let item = remove_at(&mut nodes[i].children, path, depth + 1);
        proof {
            lemma_model_children(nodes@[i as int]);
            assert(forest(nodes@) =~= replaced_in(
                old(nodes)@,
                path@,
                depth as int,
                siblings_in(old(nodes)@, path@, depth as int).remove(last_index(path@)),
            ));
        }
        item
    }
}

/// Puts `item` into the collection that `path` addresses, at the index that
/// ends `path`.
pub(crate) fn insert_at(nodes: &mut Vec<Todo>, path: &Vec<usize>, depth: usize, item: Todo)
    requires
        depth < path.len(),
        leads_in(old(nodes)@, path@, depth as int),
        last_index(path@) <= siblings_in(old(nodes)@, path@, depth as int).len(),
    ensures
        forest(final(nodes)@) == replaced_in(
            old(nodes)@,
            path@,
            depth as int,
            siblings_in(old(nodes)@, path@, depth as int).insert(
                last_index(path@),
                item.model(),
            ),
        ),
    decreases path.len() - depth,
{
    let i: usize = path[depth];
    if depth + 1 == path.len() {
        nodes.insert(i, item);
        assert(forest(nodes@) =~= forest(old(nodes)@).insert(i as int, item.model()));
    } else {
        proof {
            lemma_model_children(nodes@[i as int]);
        }
        insert_at(&mut nodes[i].children, path, depth + 1, item);
        proof {
            lemma_model_children(nodes@[i as int]);
            assert(forest(nodes@) =~= replaced_in(
                old(nodes)@,
                path@,
                depth as int,
                siblings_in(old(nodes)@, path@, depth as int).insert(
                    last_index(path@),
                    item.model(),
                ),
            ));
        }
    }
}

/// A path leads out of the tree: an index on it is not below the length
/// of the collection at its level, or the path is empty.
#[derive(Clone, Copy, Debug, PartialEq, Eq, Structural)]
pub struct OutOfRange;

fn collection_from<'a>(nodes: &'a Vec<Todo>, path: &Vec<usize>, depth: usize) -> (found: Result<
    &'a Vec<Todo>,
    OutOfRange,
>)
    requires
        depth < path.len(),
    ensures
        match found {
            Ok(collection) => leads_in(nodes@, path@, depth as int)
                && forest(collection@) == siblings_in(nodes@, path@, depth as int),
            Err(_) => !leads_in(nodes@, path@, depth as int),
        },
    decreases path.len() - depth,
{
    if depth + 1 == path.len() {
        return Ok(nodes);
    }
    let i: usize = path[depth];
    assert(path_ints(path@)[depth as int] == i);
    if i >= nodes.len() {
        Err(OutOfRange)
    } else {
        proof {
            lemma_model_children(nodes@[i as int]);
        }
        collection_from(&nodes[i].children, path, depth + 1)
    }
}

/// The collection that holds the node that `path` addresses: the roots
/// for a path of one index, else the children of the node that the path
/// without its last index addresses. The last index itself is not looked
/// at.
pub fn parent_collection<'a>(nodes: &'a Vec<Todo>, path: &Vec<usize>) -> (found: Result<
    &'a Vec<Todo>,
    OutOfRange,
>)
    ensures
        match found {
            Ok(collection) => path@.len() > 0 && prefix_valid_from(
                forest(nodes@),
                path_ints(path@),
                0,
            ) && forest(collection@) == siblings(forest(nodes@), path_ints(path@)),
            Err(_) => !(path@.len() > 0 && prefix_valid_from(
                forest(nodes@),
                path_ints(path@),
                0,
            )),
        },
{
    if path.len() == 0 {
        Err(OutOfRange)
    } else {
        collection_from(nodes, path, 0)
    }
}

/// The node that `path` addresses, if the path is valid.
pub fn resolve<'a>(nodes: &'a Vec<Todo>, path: &Vec<usize>) -> (found: Result<&'a Todo, OutOfRange>)
    ensures
        match found {
            Ok(node) => valid_path(forest(nodes@), path_ints(path@)) && node.model() == node_at(
                forest(nodes@),
                path_ints(path@),
            ),
            Err(_) => !valid_path(forest(nodes@), path_ints(path@)),
        },
{
    match parent_collection(nodes, path) {
        Ok(collection) => {
            let i: usize = path[path.len() - 1];
            assert(last_index(path@) == i);
            if i < collection.len() {
                Ok(&collection[i])
            } else {
                Err(OutOfRange)
            }
        },
        Err(error) => Err(error),
    }
}

/// How many nodes the collection holds that `path` leads to.
pub(crate) fn parent_len(nodes: &Vec<Todo>, path: &Vec<usize>, depth: usize) -> (len: usize)
    requires
        depth < path.len(),
        leads_in(nodes@, path@, depth as int),
    ensures
        len == siblings_in(nodes@, path@, depth as int).len(),
    decreases path.len() - depth,
{
    if depth + 1 == path.len() {
        nodes.len()
    } else {
        let i: usize = path[depth];
        proof {
            lemma_model_children(nodes@[i as int]);
        }
        parent_len(&nodes[i].children, path, depth + 1)
    }
}

/// The node at `index` in the collection that `path` leads to.
pub(crate) fn get_sibling<'a>(
    nodes: &'a Vec<Todo>,
    path: &Vec<usize>,
    depth: usize,
    index: usize,
) -> (node: &'a Todo)
    requires
        depth < path.len(),
        leads_in(nodes@, path@, depth as int),
        index < siblings_in(nodes@, path@, depth as int).len(),
    ensures
        node.model() == siblings_in(nodes@, path@, depth as int)[index as int],
    decreases path.len() - depth,
{
    if depth + 1 == path.len() {
        &nodes[index]
    } else {
        let i: usize = path[depth];
        proof {
            lemma_model_children(nodes@[i as int]);
        }
        get_sibling(&nodes[i].children, path, depth + 1, index)
    }
}

/// The node that `path` addresses.
pub fn get_ptr<'a>(nodes: &'a Vec<Todo>, path: &Vec<usize>) -> (node: &'a Todo)
    requires
        valid_path(forest(nodes@), path_ints(path@)),
    ensures
        node.model() == node_at(forest(nodes@), path_ints(path@)),
{
    get_sibling(nodes, path, 0, path[path.len() - 1])
}

/// The deepest level of `path`, from `depth` on, at which a later sibling
/// exists.
pub(crate) fn find_turn(nodes: &Vec<Todo>, path: &Vec<usize>, depth: usize) -> (level: Option<
    usize,
>)
    requires
        valid_from(forest(nodes@), path_ints(path@), depth as int),
    ensures
        match level {
            Some(l) => turn_level(forest(nodes@), path_ints(path@), depth as int) == l,
            None => turn_level(forest(nodes@), path_ints(path@), depth as int) < 0,
        },
    decreases path.len() - depth,
{
    let i: usize = path[depth];
    proof {
        if depth + 1 == path.len() {
            assert(last_index(path@) == path@[depth as int]);
            let below = forest(nodes@)[i as int].children;
            assert(turn_level(below, path_ints(path@), depth + 1) == -1);
        }
    }
    if depth + 1 < path.len() {
        proof {
            lemma_model_children(nodes@[i as int]);
        }
        let deeper = find_turn(&nodes[i].children, path, depth + 1);
        if deeper.is_some() {
            return deeper;
        }
    }
    assert(path_ints(path@)[depth as int] == i);
    if i < nodes.len() - 1 {
        Some(depth)
    } else {
        None
    }
}

/// Extends `path`, which addresses `node`, to the last node that is
/// visible below `node`.
pub(crate) fn push_last_visible(node: &Todo, path: &mut Vec<usize>)
    ensures
        path_ints(final(path)@) == path_ints(old(path)@) + last_visible(node.model()),
    decreases node,
{
    let n: usize = node.children.len();
    if node.open && n > 0 {
        proof {
            lemma_model_children(*node);
        }
        path.push(n - 1);
        push_last_visible(&node.children[n - 1], path);
        assert(path_ints(path@) =~= path_ints(old(path)@) + last_visible(node.model()));
    } else {
        assert(path_ints(path@) =~= path_ints(old(path)@) + last_visible(node.model()));
    }
}

/// Applies `edit` to the node that `path` addresses.
pub(crate) fn edit_at(nodes: &mut Vec<Todo>, path: &Vec<usize>, depth: usize, edit: Edit)
    requires
        depth < path.len(),
        leads_in(old(nodes)@, path@, depth as int),
        last_index(path@) < siblings_in(old(nodes)@, path@, depth as int).len(),
        edit_applies(
            siblings_in(old(nodes)@, path@, depth as int)[last_index(path@)],
            edit,
        ),
    ensures
        forest(final(nodes)@) == replaced_in(
            old(nodes)@,
            path@,
            depth as int,
            siblings_in(old(nodes)@, path@, depth as int).update(
                last_index(path@),
                edited(
                    siblings_in(old(nodes)@, path@, depth as int)[last_index(path@)],
                    edit,
                ),
            ),
        ),
    decreases path.len() - depth,
{
    let i: usize = path[depth];
    if depth + 1 == path.len() {
        nodes[i].apply(edit);
        assert(forest(nodes@) =~= forest(old(nodes)@).update(
            i as int,
            edited(forest(old(nodes)@)[i as int], edit),
        ));
    } else {
        proof {
            lemma_model_children(nodes@[i as int]);
        }
        edit_at(&mut nodes[i].children, path, depth + 1, edit);
        proof {
            lemma_model_children(nodes@[i as int]);
            assert(forest(nodes@) =~= replaced_in(
                old(nodes)@,
                path@,
                depth as int,
                siblings_in(old(nodes)@, path@, depth as int).update(
                    last_index(path@),
                    edited(
                        siblings_in(old(nodes)@, path@, depth as int)[last_index(path@)],
                        edit,
                    ),
                ),
            ));
        }
    }
}

} // verus!
