//! The visible-row model: what depth-first traversal of the tree under an
//! expansion set (and, optionally, a filter) produces. The engine's caches
//! are proved against these definitions.

use vstd::prelude::*;

use crate::model::{rank_ok, TreeFilter, TreeModel};
use crate::sets::Edge;

verus! {

/// The mathematical content of one visible row.
pub ghost struct RowSpec {
    /// The node's id.
    pub id: usize,
    /// Depth in the tree (root = 0).
    pub level: nat,
    /// The parent's id, if the node is not the root.
    pub parent: Option<usize>,
    /// Whether the node has children in the model.
    pub has_children: bool,
    /// One entry per ancestor level: whether that ancestor is the last child
    /// at its level.
    pub tail: Seq<bool>,
}

/// A visible node row with metadata used for rendering and navigation.
#[derive(Clone)]
pub struct VisibleNode {
    /// The node's id.
    pub id: usize,
    /// Depth in the tree (root = 0).
    pub level: u16,
    /// The parent's id, if the node is not the root.
    pub parent: Option<usize>,
    /// Whether the node has children in the model.
    pub has_children: bool,
    /// One entry per ancestor level: whether that ancestor is the last child
    /// at its level.
    pub is_tail_stack: Vec<bool>,
}

impl View for VisibleNode {
    type V = RowSpec;

    open spec fn view(&self) -> RowSpec {
        RowSpec {
            id: self.id,
            level: self.level as nat,
            parent: self.parent,
            has_children: self.has_children,
            tail: self.is_tail_stack@,
        }
    }
}

/// The rows a sequence of visible nodes stands for.
pub open spec fn rows_view(v: Seq<VisibleNode>) -> Seq<RowSpec> {
    v.map_values(|n: VisibleNode| n@)
}

/// The rows the subtree of `id` contributes to the unfiltered visible list:
/// the node's own row, then, if it has children and its edge is expanded,
/// the rows of each child subtree in order.
pub open spec fn spec_subtree_rows<M: TreeModel>(
    m: &M,
    ex: Set<Edge>,
    id: usize,
    level: nat,
    parent: Option<usize>,
    tail: Seq<bool>,
) -> Seq<RowSpec>
    decreases m.spec_rank(id), m.spec_children(id).len(), 1int,
        when rank_ok(m)
{
    let kids = m.spec_children(id);
    let row = RowSpec { id, level, parent, has_children: kids.len() > 0, tail };
    if kids.len() > 0 && ex.contains((parent, id)) {
        seq![row] + spec_children_rows(m, ex, id, level, tail, 0)
    } else {
        seq![row]
    }
}

/// The rows contributed by the children of `p` from index `i` on.
pub open spec fn spec_children_rows<M: TreeModel>(
    m: &M,
    ex: Set<Edge>,
    p: usize,
    level: nat,
    tail: Seq<bool>,
    i: int,
) -> Seq<RowSpec>
    decreases m.spec_rank(p), m.spec_children(p).len() - i, 0int,
        when rank_ok(m) && 0 <= i
{
    let kids = m.spec_children(p);
    if i < kids.len() {
        let is_last = i == kids.len() - 1;
        spec_subtree_rows(m, ex, kids[i], (level + 1) as nat, Some(p), tail.push(is_last))
            + spec_children_rows(m, ex, p, level, tail, i + 1)
    } else {
        Seq::empty()
    }
}

/// The whole unfiltered visible list: depth-first from the root, descending
/// only through expanded edges.
pub open spec fn spec_rows<M: TreeModel>(m: &M, ex: Set<Edge>) -> Seq<RowSpec> {
    match m.spec_root() {
        Some(r) => spec_subtree_rows(m, ex, r, 0, None::<usize>, Seq::empty()),
        None => Seq::empty(),
    }
}

/// Whether the filter matches the node itself or anywhere in its subtree.
pub open spec fn spec_subtree_match<M: TreeModel, F: TreeFilter<M>>(
    m: &M,
    f: &F,
    id: usize,
) -> bool
    decreases m.spec_rank(id),
        when rank_ok(m)
{
    ||| f.spec_matches(m, id)
    ||| exists|i: int|
        0 <= i < m.spec_children(id).len() && spec_subtree_match(
            m,
            f,
            #[trigger] m.spec_children(id)[i],
        )
}

/// The children of a node that a filtered traversal keeps: those whose
/// subtree contains a match, in sibling order.
pub open spec fn spec_vis_children<M: TreeModel, F: TreeFilter<M>>(
    m: &M,
    f: &F,
    kids: Seq<usize>,
) -> Seq<usize>
    decreases kids.len(),
{
    if kids.len() == 0 {
        Seq::empty()
    } else {
        let rest = spec_vis_children(m, f, kids.drop_last());
        if spec_subtree_match(m, f, kids.last()) {
            rest.push(kids.last())
        } else {
            rest
        }
    }
}

/// The kept children are members of the sibling list, they all contain a
/// match, and every matching sibling is kept.
pub proof fn lemma_vis_children_sub<M: TreeModel, F: TreeFilter<M>>(m: &M, f: &F, kids: Seq<usize>)
    ensures
        spec_vis_children(m, f, kids).len() <= kids.len(),
        forall|k: int|
            0 <= k < spec_vis_children(m, f, kids).len() ==> kids.contains(
                #[trigger] spec_vis_children(m, f, kids)[k],
            ),
        forall|k: int|
            0 <= k < spec_vis_children(m, f, kids).len() ==> spec_subtree_match(
                m,
                f,
                #[trigger] spec_vis_children(m, f, kids)[k],
            ),
        forall|c: usize|
            kids.contains(c) && spec_subtree_match(m, f, c) ==> spec_vis_children(
                m,
                f,
                kids,
            ).contains(c),
    decreases kids.len(),
{
    broadcast use vstd::seq_lib::group_seq_properties;

    if kids.len() > 0 {
        lemma_vis_children_sub(m, f, kids.drop_last());
        let rest = spec_vis_children(m, f, kids.drop_last());
        assert forall|k: int|
            0 <= k < spec_vis_children(m, f, kids).len() implies kids.contains(
            #[trigger] spec_vis_children(m, f, kids)[k],
        ) && spec_subtree_match(m, f, spec_vis_children(m, f, kids)[k]) by {
            if k < rest.len() {
                assert(spec_vis_children(m, f, kids)[k] == rest[k]);
                assert(kids.drop_last().contains(rest[k]));
                let j = choose|j: int|
                    0 <= j < kids.drop_last().len() && kids.drop_last()[j] == rest[k];
                assert(kids[j] == rest[k]);
            } else {
                assert(spec_vis_children(m, f, kids)[k] == kids.last());
            }
        }
        assert forall|c: usize|
            kids.contains(c) && spec_subtree_match(m, f, c) implies spec_vis_children(
            m,
            f,
            kids,
        ).contains(c) by {
            let j = choose|j: int| 0 <= j < kids.len() && kids[j] == c;
            if j < kids.len() - 1 {
                assert(kids.drop_last()[j] == c);
                assert(kids.drop_last().contains(c));
                assert(rest.contains(c));
                let k = choose|k: int| 0 <= k < rest.len() && rest[k] == c;
                assert(spec_vis_children(m, f, kids)[k] == c);
            } else {
                assert(c == kids.last());
                assert(spec_vis_children(m, f, kids).last() == c);
            }
        }
    }
}

/// The rows the subtree of an *included* node contributes to the filtered
/// visible list. Descent happens when auto-expand is on or the edge is
/// expanded, and only into children whose subtrees contain a match.
pub open spec fn spec_filtered_subtree_rows<M: TreeModel, F: TreeFilter<M>>(
    m: &M,
    f: &F,
    auto: bool,
    ex: Set<Edge>,
    id: usize,
    level: nat,
    parent: Option<usize>,
    tail: Seq<bool>,
) -> Seq<RowSpec>
    decreases m.spec_rank(id), m.spec_children(id).len() + 1, 1int,
        when rank_ok(m)
{
    let kids = m.spec_children(id);
    let vis = spec_vis_children(m, f, kids);
    let row = RowSpec { id, level, parent, has_children: kids.len() > 0, tail };
    if (auto || ex.contains((parent, id))) && vis.len() > 0 {
        proof {
            lemma_vis_children_sub(m, f, kids);
        }
        seq![row] + spec_filtered_children_rows(m, f, auto, ex, id, level, tail, vis)
    } else {
        seq![row]
    }
}

/// The rows contributed by the remaining kept children `vis` of `p`.
pub open spec fn spec_filtered_children_rows<M: TreeModel, F: TreeFilter<M>>(
    m: &M,
    f: &F,
    auto: bool,
    ex: Set<Edge>,
    p: usize,
    level: nat,
    tail: Seq<bool>,
    vis: Seq<usize>,
) -> Seq<RowSpec>
    decreases m.spec_rank(p), vis.len(), 0int,
        when rank_ok(m) && (forall|k: int|
            0 <= k < vis.len() ==> m.spec_children(p).contains(#[trigger] vis[k]))
{
    if vis.len() > 0 {
        let c = vis[0];
        let is_last = vis.len() == 1;
        proof {
            let kids = m.spec_children(p);
            let j = choose|j: int| 0 <= j < kids.len() && kids[j] == c;
            assert(m.spec_rank(kids[j]) < m.spec_rank(p));
            assert(forall|k: int|
                0 <= k < vis.drop_first().len() ==> m.spec_children(p).contains(
                    #[trigger] vis.drop_first()[k],
                ));
        }
        spec_filtered_subtree_rows(m, f, auto, ex, c, (level + 1) as nat, Some(p), tail.push(is_last))
            + spec_filtered_children_rows(m, f, auto, ex, p, level, tail, vis.drop_first())
    } else {
        Seq::empty()
    }
}

/// The whole filtered visible list: the root's subtree if it contains a
/// match, nothing otherwise.
pub open spec fn spec_rows_filtered<M: TreeModel, F: TreeFilter<M>>(
    m: &M,
    f: &F,
    auto: bool,
    ex: Set<Edge>,
) -> Seq<RowSpec> {
    match m.spec_root() {
        Some(r) => if spec_subtree_match(m, f, r) {
            spec_filtered_subtree_rows(m, f, auto, ex, r, 0, None::<usize>, Seq::empty())
        } else {
            Seq::empty()
        },
        None => Seq::empty(),
    }
}

/// A node's effective mark: manually marked, or a parent all of whose
/// children are effectively marked. A childless unmarked node is never
/// effectively marked.
pub open spec fn spec_effective<M: TreeModel>(m: &M, marks: Set<usize>, id: usize) -> bool
    decreases m.spec_rank(id),
        when rank_ok(m)
{
    ||| marks.contains(id)
    ||| (m.spec_children(id).len() > 0 && forall|i: int|
        0 <= i < m.spec_children(id).len() ==> spec_effective(
            m,
            marks,
            #[trigger] m.spec_children(id)[i],
        ))
}

/// The ids of the full subtree of `id` in depth-first order.
pub open spec fn spec_sub_ids<M: TreeModel>(m: &M, id: usize) -> Seq<usize>
    decreases m.spec_rank(id), m.spec_children(id).len(), 1int,
        when rank_ok(m)
{
    seq![id] + spec_sub_ids_from(m, id, 0)
}

/// The ids of the subtrees of the children of `p` from index `i` on.
pub open spec fn spec_sub_ids_from<M: TreeModel>(m: &M, p: usize, i: int) -> Seq<usize>
    decreases m.spec_rank(p), m.spec_children(p).len() - i, 0int,
        when rank_ok(m) && 0 <= i
{
    let kids = m.spec_children(p);
    if i < kids.len() {
        spec_sub_ids(m, kids[i]) + spec_sub_ids_from(m, p, i + 1)
    } else {
        Seq::empty()
    }
}

/// Whether `x` is reachable from `a` (including `a` itself).
pub open spec fn reachable<M: TreeModel>(m: &M, a: usize, x: usize) -> bool {
    spec_sub_ids(m, a).contains(x)
}

/// Whether the edge `e` occurs in the subtree rooted at `id` whose own edge
/// is `(parent, id)`.
pub open spec fn reach_edge<M: TreeModel>(m: &M, id: usize, parent: Option<usize>, e: Edge) -> bool
    decreases m.spec_rank(id),
        when rank_ok(m)
{
    ||| e == (parent, id)
    ||| exists|i: int|
        0 <= i < m.spec_children(id).len() && reach_edge(
            m,
            #[trigger] m.spec_children(id)[i],
            Some(id),
            e,
        )
}

/// The edges in the subtree of `id` whose nodes have children: what
/// expanding the subtree adds to the expansion set.
pub open spec fn spec_expand_edges<M: TreeModel>(m: &M, id: usize, parent: Option<usize>) -> Set<
    Edge,
> {
    Set::new(|e: Edge| reach_edge(m, id, parent, e) && m.spec_children(e.1).len() > 0)
}

/// All edges in the subtree of `id`: what collapsing the subtree removes
/// from the expansion set.
pub open spec fn spec_reach_edges<M: TreeModel>(m: &M, id: usize, parent: Option<usize>) -> Set<
    Edge,
> {
    Set::new(|e: Edge| reach_edge(m, id, parent, e))
}

/// Every edge of the tree whose node has children: what `expand_all` puts in
/// the expansion set.
pub open spec fn spec_all_expanded<M: TreeModel>(m: &M) -> Set<Edge> {
    match m.spec_root() {
        Some(r) => spec_expand_edges(m, r, None::<usize>),
        None => Set::empty(),
    }
}

} // verus!
