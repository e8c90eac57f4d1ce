//! The module tree of the registry, kept in a `tree_ds` tree.
//!
//! The tree holds node ids of type `u128` and, as the value of each node,
//! the position of that node's entry in the registry. What the tree holds is
//! named [`tree_nodes`]: its nodes in the order in which they were added,
//! each with its id, its parent, its children and its value. The functions
//! below call `tree_ds` and say, over that name, what the calls do as the
//! crate's source shows it.
use vstd::prelude::*;

use tree_ds::prelude::{Node, NodeRemovalStrategy, Tree};

verus! {

/// A node of the tree: its id, the id of its parent, the ids of its
/// children and its value.
pub type TreeNode = (u128, Option<u128>, Seq<u128>, Option<usize>);

/// `tree_ds::prelude::Tree`, carried as an opaque type.
#[verifier::external_type_specification]
#[verifier::external_body]
#[verifier::reject_recursive_types(Q)]
#[verifier::reject_recursive_types(T)]
pub struct ExTree<Q: PartialEq + Eq + Clone, T: PartialEq + Eq + Clone>(Tree<Q, T>);

/// The nodes that a tree holds, in the order in which they were added.
pub uninterp spec fn tree_nodes(t: Tree<u128, usize>) -> Seq<TreeNode>;


/// The height of the node `id` in the nodes `nodes`, looking at most `fuel`
/// levels down: 0 for a node without children, else one more than the
/// highest of its children; `None` where a node on the way is not found or
/// the levels run out.
pub open spec fn height_in(nodes: Seq<TreeNode>, id: u128, fuel: nat) -> Option<int>
    decreases fuel, 0int, 0int,
{
    if fuel == 0 {
        None
    } else {
        match index_of(nodes, id) {
            None => None,
            Some(k) => if 0 <= k < nodes.len() && nodes[k].2.len() == 0 {
                Some(0)
            } else if 0 <= k < nodes.len() {
                match highest_of(nodes, nodes[k].2, (fuel - 1) as nat) {
                    Some(h) => Some(h + 1),
                    None => None,
                }
            } else {
                None
            },
        }
    }
}

/// The highest of the heights of the nodes `ids`, 0 for none; `None` where
/// one of them has no height.
pub open spec fn highest_of(nodes: Seq<TreeNode>, ids: Seq<u128>, fuel: nat) -> Option<int>
    decreases fuel, 1int, ids.len(),
{
    if ids.len() == 0 {
        Some(0)
    } else {
        match (highest_of(nodes, ids.drop_last(), fuel), height_in(nodes, ids.last(), fuel)) {
            (Some(a), Some(b)) => Some(
                if b > a {
                    b
                } else {
                    a
                },
            ),
            _ => None,
        }
    }
}

/// The height that `Tree::get_node_height` gives for the node `id`: the
/// number of edges of the longest path down to a leaf, with a level for
/// each node, or `None` where a node on the way is not found.
pub open spec fn node_height_of(nodes: Seq<TreeNode>, id: u128) -> Option<i32> {
    match height_in(nodes, id, (nodes.len() + 1) as nat) {
        Some(h) => Some(h as i32),
        None => None,
    }
}

/// The first position at or after `i` that holds the node `id`.
pub open spec fn index_from(nodes: Seq<TreeNode>, id: u128, i: int) -> Option<int>
    decreases nodes.len() - i,
{
    if i < 0 || i >= nodes.len() {
        None
    } else if nodes[i].0 == id {
        Some(i)
    } else {
        index_from(nodes, id, i + 1)
    }
}

/// A position found for `id` from `i` on holds that id.
pub proof fn lemma_index_from_bounds(nodes: Seq<TreeNode>, id: u128, i: int)
    ensures
        index_from(nodes, id, i) matches Some(k) ==> i <= k < nodes.len() && nodes[k].0 == id,
    decreases nodes.len() - i,
{
    if 0 <= i < nodes.len() && nodes[i].0 != id {
        lemma_index_from_bounds(nodes, id, i + 1);
    }
}

/// The first position that holds the node `id`; the tree looks nodes up by
/// id in this way.
pub open spec fn index_of(nodes: Seq<TreeNode>, id: u128) -> Option<int> {
    index_from(nodes, id, 0)
}

/// The first position at or after `i` that holds a node without parent.
pub open spec fn root_from(nodes: Seq<TreeNode>, i: int) -> Option<int>
    decreases nodes.len() - i,
{
    if i < 0 || i >= nodes.len() {
        None
    } else if nodes[i].1 is None {
        Some(i)
    } else {
        root_from(nodes, i + 1)
    }
}

/// The position of the root: the first node without parent.
pub open spec fn root_index(nodes: Seq<TreeNode>) -> Option<int> {
    root_from(nodes, 0)
}

/// Whether every child of a node is found after that node, so that walking
/// down the tree comes to an end.
pub open spec fn children_after(nodes: Seq<TreeNode>) -> bool {
    forall|j: int, c: int|
        0 <= j < nodes.len() && 0 <= c < nodes[j].2.len() ==> match index_of(
            nodes,
            #[trigger] nodes[j].2[c],
        ) {
            Some(k) => k > j,
            None => true,
        }
}

/// Whether every child of every node is found in the tree.
pub open spec fn children_found(nodes: Seq<TreeNode>) -> bool {
    forall|j: int, c: int|
        0 <= j < nodes.len() && 0 <= c < nodes[j].2.len() ==> index_of(
            nodes,
            #[trigger] nodes[j].2[c],
        ) is Some
}

/// `nodes` with the children of the node at `k` replaced.
pub open spec fn with_children(nodes: Seq<TreeNode>, k: int, children: Seq<u128>) -> Seq<TreeNode> {
    nodes.update(k, (nodes[k].0, nodes[k].1, children, nodes[k].3))
}

/// `nodes` with the parent of the node at `k` replaced.
pub open spec fn with_parent(nodes: Seq<TreeNode>, k: int, parent: Option<u128>) -> Seq<TreeNode> {
    nodes.update(k, (nodes[k].0, parent, nodes[k].2, nodes[k].3))
}

/// A new, empty tree: `Tree::new` without a name.
#[verifier::external_body]
pub(crate) fn new_tree() -> (t: Tree<u128, usize>)
    ensures
        tree_nodes(t) == Seq::<TreeNode>::empty(),
{
    Tree::new(None)
}

/// Adds a node with the id `id` and the value `value` under the node
/// `parent`, or as the root where `parent` is `None`: `Tree::add_node` on
/// `Node::new`. The node is added at the end; the parent, the first node
/// with that id, gets it as its last child. Nothing changes, and `false`
/// comes back, where the parent is not found or where a root is asked for
/// and the tree has one.
#[verifier::external_body]
pub(crate) fn add_node(t: &mut Tree<u128, usize>, id: u128, value: usize, parent: Option<u128>) -> (ok:
    bool)
    ensures
        ({
            let old_nodes = tree_nodes(*old(t));
            let new_node = (id, parent, Seq::<u128>::empty(), Some(value));
            match parent {
                None => if root_index(old_nodes) is Some {
                    !ok && tree_nodes(*final(t)) == old_nodes
                } else {
                    ok && tree_nodes(*final(t)) == old_nodes.push(new_node)
                },
                Some(p) => match index_of(old_nodes, p) {
                    None => !ok && tree_nodes(*final(t)) == old_nodes,
                    Some(k) => ok && tree_nodes(*final(t)) == with_children(
                        old_nodes,
                        k,
                        old_nodes[k].2.push(id),
                    ).push(new_node),
                },
            }
        }),
{
    t.add_node(Node::new(id, Some(value)), parent.as_ref()).is_ok()
}

/// The children of the node `id`, if it is found: `Node::get_children_ids`.
#[verifier::external_body]
pub(crate) fn node_children(t: &Tree<u128, usize>, id: u128) -> (r: Option<Vec<u128>>)
    ensures
        match index_of(tree_nodes(*t), id) {
            None => r is None,
            Some(k) => r matches Some(v) && v@ == tree_nodes(*t)[k].2,
        },
{
    t.get_node_by_id(&id).and_then(|n| n.get_children_ids().ok())
}

/// The parent of the node `id`, if it is found: `Node::get_parent_id`.
#[verifier::external_body]
pub(crate) fn node_parent(t: &Tree<u128, usize>, id: u128) -> (r: Option<Option<u128>>)
    ensures
        match index_of(tree_nodes(*t), id) {
            None => r is None,
            Some(k) => r == Some(tree_nodes(*t)[k].1),
        },
{
    t.get_node_by_id(&id).and_then(|n| n.get_parent_id().ok())
}

/// The ids of all nodes, in the order in which they were added:
/// `Tree::get_nodes`.
#[verifier::external_body]
pub(crate) fn node_ids(t: &Tree<u128, usize>) -> (r: Vec<u128>)
    ensures
        r@.len() == tree_nodes(*t).len(),
        forall|i: int| 0 <= i < r@.len() ==> r@[i] == #[trigger] tree_nodes(*t)[i].0,
{
    t.get_nodes().iter().map(|n| n.get_node_id().unwrap()).collect()
}

/// Makes the node `child` the last child of the node `parent`:
/// `Node::add_child`. The child's parent becomes `parent`; it is not taken
/// out of the children of its former parent. Nothing changes, and `false`
/// comes back, where one of the two is not found.
#[verifier::external_body]
pub(crate) fn attach_child(t: &mut Tree<u128, usize>, parent: u128, child: u128) -> (ok: bool)
    requires
        parent != child,
    ensures
        ({
            let nodes = tree_nodes(*old(t));
            match (index_of(nodes, parent), index_of(nodes, child)) {
                (Some(kp), Some(kc)) => ok && tree_nodes(*final(t)) == with_parent(
                    with_children(nodes, kp, nodes[kp].2.push(child)),
                    kc,
                    Some(parent),
                ),
                _ => !ok && tree_nodes(*final(t)) == nodes,
            }
        }),
{
    match (t.get_node_by_id(&parent), t.get_node_by_id(&child)) {
        (Some(p), Some(c)) => p.add_child(c).is_ok(),
        _ => false,
    }
}

/// Takes the node `child` out of the children of the node `parent`:
/// `Node::remove_child`. Every occurrence of `child` leaves the children of
/// `parent`, and the child is left without parent. Nothing changes, and
/// `false` comes back, where one of the two is not found.
#[verifier::external_body]
pub(crate) fn detach_child(t: &mut Tree<u128, usize>, parent: u128, child: u128) -> (ok: bool)
    requires
        parent != child,
    ensures
        ({
            let nodes = tree_nodes(*old(t));
            match (index_of(nodes, parent), index_of(nodes, child)) {
                (Some(kp), Some(kc)) => ok && tree_nodes(*final(t)) == with_parent(
                    with_children(nodes, kp, nodes[kp].2.filter(|x: u128| x != child)),
                    kc,
                    None,
                ),
                _ => !ok && tree_nodes(*final(t)) == nodes,
            }
        }),
{
    match (t.get_node_by_id(&parent), t.get_node_by_id(&child)) {
        (Some(p), Some(c)) => p.remove_child(c).is_ok(),
        _ => false,
    }
}

/// Removes the node `id`: `Tree::remove_node` with
/// `NodeRemovalStrategy::RemoveNodeAndChildren`, called here on nodes
/// without children only. The node leaves the children of its parent and
/// every node with its id leaves the tree.
#[verifier::external_body]
pub(crate) fn remove_node(t: &mut Tree<u128, usize>, id: u128) -> (ok: bool)
    requires
        index_of(tree_nodes(*old(t)), id) matches Some(k) ==> tree_nodes(*old(t))[k].2.len() == 0
            && tree_nodes(*old(t))[k].1 != Some(id),
    ensures
        ({
            let nodes = tree_nodes(*old(t));
            match index_of(nodes, id) {
                None => !ok && tree_nodes(*final(t)) == nodes,
                Some(k) => match nodes[k].1 {
                    None => ok && tree_nodes(*final(t)) == nodes.filter(
                        |n: TreeNode| n.0 != id,
                    ),
                    Some(p) => match index_of(nodes, p) {
                        None => !ok && tree_nodes(*final(t)) == nodes,
                        Some(kp) => ok && tree_nodes(*final(t)) == with_children(
                            nodes,
                            kp,
                            nodes[kp].2.filter(|x: u128| x != id),
                        ).filter(|n: TreeNode| n.0 != id),
                    },
                },
            }
        }),
{
    t.remove_node(&id, NodeRemovalStrategy::RemoveNodeAndChildren).is_ok()
}

/// The height of the node `id`: `Tree::get_node_height`, which recurses
/// through the children; the children of a node stand after it, so the
/// recursion is no deeper than the tree has nodes, and a call that returns
/// has recursed fewer than `i32::MAX` levels, so `height + 1` does not
/// overflow. It fails only where the node, or a node below it, is not
/// found.
#[verifier::external_body]
pub(crate) fn node_height(t: &Tree<u128, usize>, id: u128) -> (r: Option<i32>)
    requires
        children_after(tree_nodes(*t)),
    ensures
        r == node_height_of(tree_nodes(*t), id),
        index_of(tree_nodes(*t), id) is Some && children_found(tree_nodes(*t)) ==> r is Some,
{
    t.get_node_height(&id).ok()
}

} // verus!
