//! The read-only tree contract the engine traverses, the filter contract, and
//! the well-formedness conditions the engine's proofs rest on.

use vstd::prelude::*;

verus! {

/// Minimal tree contract required by the view engine.
///
/// A proper tree is expected (not a DAG): no cycles, each node has exactly one
/// parent, and identifiers are stable between frames. Those expectations are
/// captured by the spec-level conditions below ([`rank_ok`], [`true_tree`]):
/// `spec_rank` must strictly decrease from a node to each of its children,
/// which rules out cycles and gives depth-first traversal a termination
/// measure.
pub trait TreeModel: Sized {
    /// The root node, or `None` if the tree is empty.
    spec fn spec_root(&self) -> Option<usize>;

    /// The node's children, in their significant, deterministic order.
    spec fn spec_children(&self, id: usize) -> Seq<usize>;

    /// Whether the node exists in the model.
    spec fn spec_contains(&self, id: usize) -> bool;

    /// A termination measure: every child must rank strictly below its parent.
    spec fn spec_rank(&self, id: usize) -> nat;

    /// Returns the root node (or `None` if the tree is empty).
    fn root(&self) -> (r: Option<usize>)
        ensures
            r == self.spec_root(),
    ;

    /// Returns the node's children in a deterministic order.
    fn children(&self, id: usize) -> (r: &[usize])
        ensures
            r@ == self.spec_children(id),
    ;

    /// Returns `true` if the node exists in the model.
    fn contains(&self, id: usize) -> (r: bool)
        ensures
            r == self.spec_contains(id),
    ;

    /// Returns an approximate size hint (advisory only, not required to be
    /// exact; used for capacity pre-allocation).
    fn size_hint(&self) -> usize {
        0
    }
}

/// Every child ranks strictly below its parent: the tree has no cycles, and
/// `spec_rank` bounds the depth of any traversal.
pub open spec fn rank_ok<M: TreeModel>(m: &M) -> bool {
    forall|p: usize, i: int|
        0 <= i < m.spec_children(p).len()
            ==> m.spec_rank(#[trigger] m.spec_children(p)[i]) < m.spec_rank(p)
}

/// The model is a genuine tree: sibling lists hold no duplicates, no node is
/// a child of two parents, and the root is nobody's child.
pub open spec fn true_tree<M: TreeModel>(m: &M) -> bool {
    &&& forall|p: usize| (#[trigger] m.spec_children(p)).no_duplicates()
    &&& forall|p1: usize, p2: usize, c: usize|
        #[trigger] m.spec_children(p1).contains(c) && #[trigger] m.spec_children(p2).contains(c)
            ==> p1 == p2
    &&& match m.spec_root() {
        Some(r) => forall|p: usize| !(#[trigger] m.spec_children(p)).contains(r),
        None => true,
    }
}

/// The root's rank fits the row depth field: levels are `u16`, so a traversal
/// deeper than `u16::MAX` could not be represented.
pub open spec fn depth_ok<M: TreeModel>(m: &M) -> bool {
    match m.spec_root() {
        Some(r) => m.spec_rank(r) <= u16::MAX as nat,
        None => true,
    }
}

/// Everything the engine assumes of a caller's model.
pub open spec fn model_inv<M: TreeModel>(m: &M) -> bool {
    rank_ok(m) && true_tree(m) && depth_ok(m)
}

/// Visibility filter for nodes (used to build a reduced row list).
pub trait TreeFilter<M: TreeModel>: Sized {
    /// Whether the node matches the filter criteria.
    spec fn spec_matches(&self, model: &M, id: usize) -> bool;

    /// Returns `true` if the node matches the filter criteria.
    fn is_match(&self, model: &M, id: usize) -> (r: bool)
        ensures
            r == self.spec_matches(model, id),
    ;
}

/// Configuration for filtered rendering.
#[derive(Clone, Copy, Debug)]
pub struct TreeFilterConfig {
    /// Enables or disables filtering.
    pub enabled: bool,
    /// Auto-expands matching paths when filtering.
    pub auto_expand: bool,
}

impl TreeFilterConfig {
    /// Creates a configuration with filtering disabled.
    pub fn disabled() -> (r: Self)
        ensures
            !r.enabled,
            !r.auto_expand,
    {
        Self { enabled: false, auto_expand: false }
    }

    /// Creates a configuration with filtering enabled and auto-expansion.
    pub fn enabled() -> (r: Self)
        ensures
            r.enabled,
            r.auto_expand,
    {
        Self { enabled: true, auto_expand: true }
    }
}

impl Default for TreeFilterConfig {
    fn default() -> (r: Self)
        ensures
            !r.enabled,
            !r.auto_expand,
    {
        Self::disabled()
    }
}

/// Filter that matches every node.
#[derive(Clone, Copy, Debug)]
pub struct NoFilter;

impl<M: TreeModel> TreeFilter<M> for NoFilter {
    open spec fn spec_matches(&self, model: &M, id: usize) -> bool {
        true
    }

    fn is_match(&self, model: &M, id: usize) -> (r: bool) {
        true
    }
}

} // verus!
