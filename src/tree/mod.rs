//! Hierarchical tree structures

use vstd::prelude::*;

pub mod traversal;

verus! {

/// The node of a tree with at most two children.
///
/// Each node holds a value and references to its child nodes. Since the
/// children are shared references to nodes built before their parent, a
/// tree has no cycles.
pub struct BinaryNode<'a, T> {
    pub data: T,
    pub left: Option<&'a BinaryNode<'a, T>>,
    pub right: Option<&'a BinaryNode<'a, T>>,
}

/// The nodes of the tree under `node` in order: left subtree, the node,
/// right subtree.
pub open spec fn in_order<'a, T>(node: &'a BinaryNode<'a, T>) -> Seq<&'a BinaryNode<'a, T>>
    decreases node,
{
    in_order_opt(node.left) + seq![node] + in_order_opt(node.right)
}

/// The nodes of a possibly empty tree in order.
pub open spec fn in_order_opt<'a, T>(node: Option<&'a BinaryNode<'a, T>>) -> Seq<&'a BinaryNode<'a, T>>
    decreases node,
{
    match node {
        None => Seq::empty(),
        Some(n) => in_order(n),
    }
}

} // verus!
