//! The optional mutation contract layered on the read-only tree contract.
//! Every operation is a no-op on precondition failure (boundary reorder,
//! absent child): routine interactive conditions, not errors.

use vstd::prelude::*;

use crate::model::{model_inv, TreeModel};

verus! {

/// Two models with the same observable shape and ranks: what "nothing
/// happened" means for a refused edit.
pub open spec fn same_model<M: TreeModel>(a: &M, b: &M) -> bool {
    &&& a.spec_root() == b.spec_root()
    &&& forall|p: usize| a.spec_children(p) == b.spec_children(p)
    &&& forall|x: usize| a.spec_contains(x) == b.spec_contains(x)
    &&& forall|x: usize| a.spec_rank(x) == b.spec_rank(x)
}

/// Everything but the sibling list of `parent` is untouched.
pub open spec fn others_unchanged<M: TreeModel>(a: &M, b: &M, parent: usize) -> bool {
    &&& a.spec_root() == b.spec_root()
    &&& forall|q: usize| q != parent ==> a.spec_children(q) == b.spec_children(q)
    &&& forall|x: usize| a.spec_contains(x) == b.spec_contains(x)
}

/// Optional edit interface for basic tree mutations.
pub trait TreeEdit: TreeModel {
    /// Returns `true` if the node is the root node.
    fn is_root(&self, id: usize) -> (r: bool)
        ensures
            r == (self.spec_root() == Some(id)),
    ;

    /// Moves the child one position up among its siblings; returns `false`
    /// at the upper boundary or when the child is not there.
    fn move_child_up(&mut self, parent: usize, child: usize) -> (r: bool)
        ensures
            r == (exists|i: int|
                0 < i < old(self).spec_children(parent).len() && old(self).spec_children(
                    parent,
                )[i] == child),
            r ==> exists|i: int|
                #![trigger old(self).spec_children(parent)[i]]
                {
                    &&& 0 < i < old(self).spec_children(parent).len()
                    &&& old(self).spec_children(parent)[i] == child
                    &&& final(self).spec_children(parent) == old(self).spec_children(
                        parent,
                    ).update(i, old(self).spec_children(parent)[i - 1]).update(i - 1, child)
                },
            r ==> others_unchanged(old(self), final(self), parent),
            !r ==> same_model(old(self), final(self)),
            model_inv(old(self)) ==> model_inv(final(self)),
    ;

    /// Moves the child one position down among its siblings; returns `false`
    /// at the lower boundary or when the child is not there.
    fn move_child_down(&mut self, parent: usize, child: usize) -> (r: bool)
        ensures
            r == (exists|i: int|
                0 <= i < old(self).spec_children(parent).len() - 1 && old(self).spec_children(
                    parent,
                )[i] == child),
            r ==> exists|i: int|
                #![trigger old(self).spec_children(parent)[i]]
                {
                    &&& 0 <= i < old(self).spec_children(parent).len() - 1
                    &&& old(self).spec_children(parent)[i] == child
                    &&& final(self).spec_children(parent) == old(self).spec_children(
                        parent,
                    ).update(i, old(self).spec_children(parent)[i + 1]).update(i + 1, child)
                },
            r ==> others_unchanged(old(self), final(self), parent),
            !r ==> same_model(old(self), final(self)),
            model_inv(old(self)) ==> model_inv(final(self)),
    ;

    /// Detaches the child from the parent without deleting the node.
    fn remove_child(&mut self, parent: usize, child: usize)
        ensures
            old(self).spec_children(parent).contains(child) ==> exists|i: int|
                #![trigger old(self).spec_children(parent)[i]]
                {
                    &&& 0 <= i < old(self).spec_children(parent).len()
                    &&& old(self).spec_children(parent)[i] == child
                    &&& final(self).spec_children(parent) == old(self).spec_children(
                        parent,
                    ).remove(i)
                },
            !old(self).spec_children(parent).contains(child) ==> final(self).spec_children(parent)
                == old(self).spec_children(parent),
            others_unchanged(old(self), final(self), parent),
            model_inv(old(self)) ==> model_inv(final(self)),
    ;

    /// Removes the node from the tree entirely: afterwards it exists
    /// nowhere in traversal. What happens to its own children (orphaned or
    /// re-parented) is the model's policy.
    fn delete_node(&mut self, id: usize)
        ensures
            !final(self).spec_contains(id),
            forall|q: usize| !final(self).spec_children(q).contains(id),
            old(self).spec_root() != Some(id) ==> final(self).spec_root() == old(
                self,
            ).spec_root(),
            model_inv(old(self)) ==> model_inv(final(self)),
    ;

    /// Attaches the child as a child of the parent. The model must refuse
    /// (leaving everything unchanged) an attachment that would create a
    /// cycle.
    fn add_child(&mut self, parent: usize, child: usize)
        ensures
            (final(self).spec_children(parent) == old(self).spec_children(parent).push(child)
                && others_unchanged(old(self), final(self), parent)) || same_model(
                old(self),
                final(self),
            ),
            model_inv(old(self)) ==> model_inv(final(self)),
    ;
}

} // verus!
