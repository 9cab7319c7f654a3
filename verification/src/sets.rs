//! Small vector-backed sets: one for expansion edges `(parent, node)`, one
//! for node ids. Viewed as mathematical sets.

use vstd::prelude::*;

verus! {

broadcast use vstd::seq_lib::group_seq_properties;

/// An expansion edge: the optional parent id and the node id. Expansion is a
/// property of a tree position, not of the node alone.
pub type Edge = (Option<usize>, usize);

/// Compares two optional ids.
fn opt_eq(a: Option<usize>, b: Option<usize>) -> (r: bool)
    ensures
        r == (a == b),
{
    match (a, b) {
        (None, None) => true,
        (Some(x), Some(y)) => x == y,
        _ => false,
    }
}

/// Compares two expansion edges.
fn edge_eq(a: Edge, b: Edge) -> (r: bool)
    ensures
        r == (a == b),
{
    opt_eq(a.0, b.0) && a.1 == b.1
}

/// A set of expansion edges.
pub struct EdgeSet {
    elems: Vec<Edge>,
}

impl View for EdgeSet {
    type V = Set<Edge>;

    closed spec fn view(&self) -> Set<Edge> {
        self.elems@.to_set()
    }
}

impl EdgeSet {
    /// Creates an empty edge set.
    pub fn new() -> (r: Self)
        ensures
            r@ == Set::<Edge>::empty(),
    {
        let r = EdgeSet { elems: Vec::new() };
        proof {
            assert(r@ =~= Set::<Edge>::empty());
        }
        r
    }

    /// Whether the edge is in the set.
    pub fn contains(&self, e: Edge) -> (r: bool)
        ensures
            r == self@.contains(e),
    {
        let mut i: usize = 0;
        while i < self.elems.len()
            invariant
                0 <= i <= self.elems@.len(),
                forall|j: int| 0 <= j < i ==> self.elems@[j] != e,
            decreases self.elems@.len() - i,
        {
            if edge_eq(self.elems[i], e) {
                return true;
            }
            i = i + 1;
        }
        false
    }

    /// Adds the edge to the set.
    pub fn insert(&mut self, e: Edge)
        ensures
            final(self)@ == old(self)@.insert(e),
    {
        if !self.contains(e) {
            self.elems.push(e);
        }
        proof {
            assert(self@ =~= old(self)@.insert(e));
        }
    }

    /// Removes the edge from the set.
    pub fn remove(&mut self, e: Edge)
        ensures
            final(self)@ == old(self)@.remove(e),
    {
        let n = self.elems.len();
        let mut kept: Vec<Edge> = Vec::new();
        let mut i: usize = 0;
        while i < n
            invariant
                0 <= i <= n,
                n == self.elems@.len(),
                self.elems@ == old(self).elems@,
                forall|x: Edge| kept@.contains(x)
                    <==> (self.elems@.subrange(0, i as int).contains(x) && x != e),
            decreases n - i,
        {
            let cur = self.elems[i];
            proof {
                assert(self.elems@.subrange(0, i + 1).drop_last()
                    =~= self.elems@.subrange(0, i as int));
                assert(self.elems@.subrange(0, i + 1).last() == cur);
                assert(forall|x: Edge| self.elems@.subrange(0, i + 1).contains(x)
                    <==> (self.elems@.subrange(0, i as int).contains(x) || x == cur));
            }
            if !edge_eq(cur, e) {
                kept.push(cur);
            }
            i = i + 1;
        }
        proof {
            assert(self.elems@.subrange(0, n as int) =~= self.elems@);
        }
        self.elems = kept;
        proof {
            assert(self@ =~= old(self)@.remove(e));
        }
    }

    /// Empties the set.
    pub fn clear(&mut self)
        ensures
            final(self)@ == Set::<Edge>::empty(),
    {
        self.elems.clear();
        proof {
            assert(self@ =~= Set::<Edge>::empty());
        }
    }

    /// The edges as a vector.
    pub fn to_vec(&self) -> (r: Vec<Edge>)
        ensures
            r@.to_set() == self@,
    {
        let mut r: Vec<Edge> = Vec::new();
        let mut i: usize = 0;
        while i < self.elems.len()
            invariant
                0 <= i <= self.elems@.len(),
                r@ == self.elems@.subrange(0, i as int),
            decreases self.elems@.len() - i,
        {
            r.push(self.elems[i]);
            i = i + 1;
        }
        proof {
            assert(r@ =~= self.elems@);
        }
        r
    }
}

/// A set of node ids.
pub struct IdSet {
    elems: Vec<usize>,
}

impl View for IdSet {
    type V = Set<usize>;

    closed spec fn view(&self) -> Set<usize> {
        self.elems@.to_set()
    }
}

impl IdSet {
    /// Creates an empty id set.
    pub fn new() -> (r: Self)
        ensures
            r@ == Set::<usize>::empty(),
    {
        let r = IdSet { elems: Vec::new() };
        proof {
            assert(r@ =~= Set::<usize>::empty());
        }
        r
    }

    /// Whether the id is in the set.
    pub fn contains(&self, id: usize) -> (r: bool)
        ensures
            r == self@.contains(id),
    {
        let mut i: usize = 0;
        while i < self.elems.len()
            invariant
                0 <= i <= self.elems@.len(),
                forall|j: int| 0 <= j < i ==> self.elems@[j] != id,
            decreases self.elems@.len() - i,
        {
            if self.elems[i] == id {
                return true;
            }
            i = i + 1;
        }
        false
    }

    /// Adds the id to the set.
    pub fn insert(&mut self, id: usize)
        ensures
            final(self)@ == old(self)@.insert(id),
    {
        if !self.contains(id) {
            self.elems.push(id);
        }
        proof {
            assert(self@ =~= old(self)@.insert(id));
        }
    }

    /// Removes the id from the set.
    pub fn remove(&mut self, id: usize)
        ensures
            final(self)@ == old(self)@.remove(id),
    {
        let n = self.elems.len();
        let mut kept: Vec<usize> = Vec::new();
        let mut i: usize = 0;
        while i < n
            invariant
                0 <= i <= n,
                n == self.elems@.len(),
                self.elems@ == old(self).elems@,
                forall|x: usize| kept@.contains(x)
                    <==> (self.elems@.subrange(0, i as int).contains(x) && x != id),
            decreases n - i,
        {
            let cur = self.elems[i];
            proof {
                assert(self.elems@.subrange(0, i + 1).drop_last()
                    =~= self.elems@.subrange(0, i as int));
                assert(self.elems@.subrange(0, i + 1).last() == cur);
                assert(forall|x: usize| self.elems@.subrange(0, i + 1).contains(x)
                    <==> (self.elems@.subrange(0, i as int).contains(x) || x == cur));
            }
            if cur != id {
                kept.push(cur);
            }
            i = i + 1;
        }
        proof {
            assert(self.elems@.subrange(0, n as int) =~= self.elems@);
        }
        self.elems = kept;
        proof {
            assert(self@ =~= old(self)@.remove(id));
        }
    }

    /// Empties the set.
    pub fn clear(&mut self)
        ensures
            final(self)@ == Set::<usize>::empty(),
    {
        self.elems.clear();
        proof {
            assert(self@ =~= Set::<usize>::empty());
        }
    }

    /// The ids as a vector.
    pub fn to_vec(&self) -> (r: Vec<usize>)
        ensures
            r@.to_set() == self@,
    {
        let mut r: Vec<usize> = Vec::new();
        let mut i: usize = 0;
        while i < self.elems.len()
            invariant
                0 <= i <= self.elems@.len(),
                r@ == self.elems@.subrange(0, i as int),
            decreases self.elems@.len() - i,
        {
            r.push(self.elems[i]);
            i = i + 1;
        }
        proof {
            assert(r@ =~= self.elems@);
        }
        r
    }
}

} // verus!
