//! Depth-first, in-order tree traversal
//!
//! Each traversal yields the nodes in the order in which they are visited;
//! over a binary search tree, that is sorted order.

use vstd::prelude::*;
use crate::tree::{BinaryNode, in_order, in_order_opt};

verus! {

/// The nodes still to be visited for a traversal stack: for each node from
/// the top of the stack down, the node itself and then its right subtree.
pub open spec fn pending<'a, T>(stack: Seq<&'a BinaryNode<'a, T>>) -> Seq<&'a BinaryNode<'a, T>>
    decreases stack.len(),
{
    if stack.len() == 0 {
        Seq::empty()
    } else {
        seq![stack.last()] + in_order_opt(stack.last().right) + pending(stack.drop_last())
    }
}

/// Traverses the nodes iteratively, with an explicit stack, and returns them
/// in the order visited.
pub fn traverse_iterative<'a, T>(root: &'a BinaryNode<'a, T>) -> (r: Vec<&'a BinaryNode<'a, T>>)
    ensures
        r@ == in_order(root),
{
    let mut visited: Vec<&'a BinaryNode<'a, T>> = Vec::new();
    let mut stack: Vec<&'a BinaryNode<'a, T>> = Vec::new();
    let mut node: Option<&'a BinaryNode<'a, T>> = Some(root);
    proof {
        assert(stack@ =~= Seq::<&'a BinaryNode<'a, T>>::empty());
        assert(visited@ + in_order_opt(node) + pending(stack@) =~= in_order(root));
    }
    while !stack.is_empty() || node.is_some()
        invariant
            visited@ + in_order_opt(node) + pending(stack@) == in_order(root),
        decreases (in_order_opt(node) + pending(stack@)).len(), in_order_opt(node).len(),
    {
        let ghost (v0, s0, n0) = (visited@, stack@, node);
        if let Some(inner) = node {
            stack.push(inner);
            node = inner.left;
            proof {
                assert(stack@.drop_last() =~= s0);
                assert(in_order_opt(n0) == in_order(inner));
                assert(visited@ + in_order_opt(node) + pending(stack@) =~= v0 + in_order_opt(n0) + pending(s0));
                assert(in_order_opt(node) + pending(stack@) =~= in_order_opt(n0) + pending(s0));
            }
        } else if let Some(inner) = stack.pop() {
            visited.push(inner);
            node = inner.right;
            proof {
                assert(s0.last() == inner);
                assert(s0.drop_last() =~= stack@);
                assert(visited@ + in_order_opt(node) + pending(stack@) =~= v0 + in_order_opt(n0) + pending(s0));
            }
        }
    }
    proof {
        assert(stack@ =~= Seq::<&'a BinaryNode<'a, T>>::empty());
        assert(visited@ =~= visited@ + in_order_opt(node) + pending(stack@));
    }
    visited
}

/// Traverses the nodes recursively, appending them to `visited` in the
/// order visited.
pub fn traverse_recursive<'a, T>(root: Option<&'a BinaryNode<'a, T>>, visited: &mut Vec<&'a BinaryNode<'a, T>>)
    ensures
        final(visited)@ == old(visited)@ + in_order_opt(root),
    decreases root,
{
    if let Some(node) = root {
        traverse_recursive(node.left, visited);
        visited.push(node);
        traverse_recursive(node.right, visited);
        proof {
            assert(visited@ =~= old(visited)@ + in_order_opt(root)) by {
                assert(in_order_opt(root) == in_order(node));
            }
        }
    } else {
        assert(old(visited)@ + in_order_opt(root) =~= old(visited)@);
    }
}

} // verus!
