//! The tree that maps the contents of an archive, held in an `ego_tree::Tree`.

use crate::archive::package::content::{Content, ContentView};
use ego_tree::{NodeId, Tree};
use vstd::prelude::*;

verus! {

#[verifier::external_type_specification]
#[verifier::external_body]
#[verifier::reject_recursive_types(T)]
pub struct ExTree<T>(Tree<T>);

#[verifier::external_type_specification]
#[verifier::external_body]
pub struct ExNodeId(NodeId);

/// One node of a content tree: its parent, its children in order, and its content.
pub struct TreeNode {
    pub parent: Option<NodeId>,
    pub children: Seq<NodeId>,
    pub value: ContentView,
}

/// The nodes of a content tree, each under its id.
pub uninterp spec fn tree_nodes(tree: Tree<Content>) -> Map<NodeId, TreeNode>;

/// The id of the root of a content tree.
pub uninterp spec fn tree_root(tree: Tree<Content>) -> NodeId;

/// `ego_tree::Tree::new`: the tree holds the root alone, with no parent and no children.
#[verifier::external_body]
pub(crate) fn tree_new(root: Content) -> (t: Tree<Content>)
    ensures
        tree_nodes(t) == Map::<NodeId, TreeNode>::empty().insert(
            tree_root(t),
            TreeNode { parent: None, children: Seq::empty(), value: root@ },
        ),
{
    Tree::new(root)
}

/// `ego_tree::Tree::root` and `NodeRef::id`: the id of the root.
#[verifier::external_body]
pub(crate) fn tree_root_id(t: &Tree<Content>) -> (id: NodeId)
    ensures
        id == tree_root(*t),
{
    t.root().id()
}

/// `ego_tree::NodeMut::append` on the node `parent`: a new node, whose id was in no use, is
/// added as the last child of `parent`; nothing else changes.
#[verifier::external_body]
pub(crate) fn tree_append(t: &mut Tree<Content>, parent: NodeId, value: Content) -> (id: NodeId)
    requires
        tree_nodes(*old(t)).dom().contains(parent),
    ensures
        !tree_nodes(*old(t)).dom().contains(id),
        tree_root(*final(t)) == tree_root(*old(t)),
        tree_nodes(*final(t)) == tree_nodes(*old(t)).insert(
            parent,
            TreeNode {
                children: tree_nodes(*old(t))[parent].children.push(id),
                ..tree_nodes(*old(t))[parent]
            },
        ).insert(id, TreeNode { parent: Some(parent), children: Seq::empty(), value: value@ }),
{
    t.get_mut(parent).unwrap().append(value).id()
}

/// `ego_tree::Tree::get` and `NodeRef::value`: the content of the node `id`.
#[verifier::external_body]
pub(crate) fn tree_value(t: &Tree<Content>, id: NodeId) -> (r: &Content)
    requires
        tree_nodes(*t).dom().contains(id),
    ensures
        r@ == tree_nodes(*t)[id].value,
{
    t.get(id).unwrap().value()
}

/// `ego_tree::NodeRef::children`: the ids of the children of the node `id`, in order.
#[verifier::external_body]
pub(crate) fn tree_children(t: &Tree<Content>, id: NodeId) -> (r: Vec<NodeId>)
    requires
        tree_nodes(*t).dom().contains(id),
    ensures
        r@ == tree_nodes(*t)[id].children,
{
    t.get(id).unwrap().children().map(|c| c.id()).collect()
}

/// `ego_tree::NodeRef::parent`: the id of the parent of the node `id`, if it has one.
#[verifier::external_body]
pub(crate) fn tree_parent(t: &Tree<Content>, id: NodeId) -> (r: Option<NodeId>)
    requires
        tree_nodes(*t).dom().contains(id),
    ensures
        r == tree_nodes(*t)[id].parent,
{
    t.get(id).unwrap().parent().map(|p| p.id())
}

/// `ego_tree::NodeMut::value`: the content of the node `id` is replaced; nothing else changes.
#[verifier::external_body]
pub(crate) fn tree_set_value(t: &mut Tree<Content>, id: NodeId, value: Content)
    requires
        tree_nodes(*old(t)).dom().contains(id),
    ensures
        tree_root(*final(t)) == tree_root(*old(t)),
        tree_nodes(*final(t)) == tree_nodes(*old(t)).insert(
            id,
            TreeNode { value: value@, ..tree_nodes(*old(t))[id] },
        ),
{
    *t.get_mut(id).unwrap().value() = value;
}

} // verus!
