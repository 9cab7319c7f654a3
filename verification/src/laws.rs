//! The laws of the visibility and mark engines: a full expansion shows every
//! reachable node exactly once, a full collapse shows exactly the root, a
//! filtered view with auto-expand shows exactly the nodes whose subtrees
//! contain a match, and effective marks propagate bottom-up.

use vstd::prelude::*;

use crate::model::{model_inv, rank_ok, true_tree, TreeFilter, TreeModel};
use crate::sets::Edge;
use crate::visible::{
    lemma_vis_children_sub, reach_edge, reachable, spec_all_expanded, spec_children_rows, spec_effective,
    spec_filtered_children_rows, spec_filtered_subtree_rows, spec_rows, spec_rows_filtered,
    spec_sub_ids, spec_sub_ids_from, spec_subtree_match, spec_subtree_rows, spec_vis_children,
    RowSpec,
};

verus! {

/// The ids of a row list.
pub open spec fn row_ids(rows: Seq<RowSpec>) -> Seq<usize> {
    rows.map_values(|r: RowSpec| r.id)
}

/// Membership in the concatenated child subtrees is membership in one of
/// them.
proof fn lemma_from_members<M: TreeModel>(m: &M, p: usize, i: int)
    requires
        rank_ok(m),
        0 <= i,
    ensures
        forall|x: usize| #[trigger] spec_sub_ids_from(m, p, i).contains(x)
            <==> exists|j: int|
                i <= j < m.spec_children(p).len() && spec_sub_ids(
                    m,
                    #[trigger] m.spec_children(p)[j],
                ).contains(x),
    decreases m.spec_children(p).len() - i,
{
    broadcast use vstd::seq_lib::group_seq_properties;

    let kids = m.spec_children(p);
    if i < kids.len() {
        lemma_from_members(m, p, i + 1);
        assert forall|x: usize| #[trigger] spec_sub_ids_from(m, p, i).contains(x) implies exists|
            j: int,
        |
            i <= j < kids.len() && spec_sub_ids(m, #[trigger] kids[j]).contains(x) by {
            if spec_sub_ids(m, kids[i]).contains(x) {
                assert(i <= i < kids.len() && spec_sub_ids(m, kids[i]).contains(x));
            } else {
                assert(spec_sub_ids_from(m, p, i + 1).contains(x));
            }
        }
        assert forall|x: usize|
            exists|j: int|
                i <= j < kids.len() && spec_sub_ids(m, #[trigger] kids[j]).contains(
                    x,
                ) implies #[trigger] spec_sub_ids_from(m, p, i).contains(x) by {
            let j = choose|j: int|
                i <= j < kids.len() && spec_sub_ids(m, #[trigger] kids[j]).contains(x);
            if j == i {
                assert(spec_sub_ids_from(m, p, i) == spec_sub_ids(m, kids[i])
                    + spec_sub_ids_from(m, p, i + 1));
            } else {
                assert(spec_sub_ids_from(m, p, i + 1).contains(x));
            }
        }
    }
}

/// A subtree member is the subtree's own root or ranks strictly below it.
proof fn lemma_sub_rank<M: TreeModel>(m: &M, id: usize)
    requires
        rank_ok(m),
    ensures
        forall|x: usize| #[trigger] spec_sub_ids(m, id).contains(x) ==> x == id || m.spec_rank(x)
            < m.spec_rank(id),
    decreases m.spec_rank(id),
{
    broadcast use vstd::seq_lib::group_seq_properties;

    lemma_from_members(m, id, 0);
    assert forall|x: usize| #[trigger] spec_sub_ids(m, id).contains(x) implies x == id
        || m.spec_rank(x) < m.spec_rank(id) by {
        if x != id {
            assert(spec_sub_ids(m, id) == seq![id] + spec_sub_ids_from(m, id, 0));
            assert(spec_sub_ids_from(m, id, 0).contains(x));
            let j = choose|j: int|
                0 <= j < m.spec_children(id).len() && spec_sub_ids(
                    m,
                    #[trigger] m.spec_children(id)[j],
                ).contains(x);
            let c = m.spec_children(id)[j];
            assert(m.spec_rank(c) < m.spec_rank(id));
            lemma_sub_rank(m, c);
        }
    }
}

/// A proper subtree member has a parent inside the subtree.
proof fn lemma_sub_member_parent<M: TreeModel>(m: &M, id: usize, x: usize)
    requires
        rank_ok(m),
        spec_sub_ids(m, id).contains(x),
        x != id,
    ensures
        exists|q: usize|
            #[trigger] spec_sub_ids(m, id).contains(q) && m.spec_children(q).contains(x),
    decreases m.spec_rank(id),
{
    broadcast use vstd::seq_lib::group_seq_properties;

    lemma_from_members(m, id, 0);
    assert(spec_sub_ids(m, id) == seq![id] + spec_sub_ids_from(m, id, 0));
    assert(spec_sub_ids_from(m, id, 0).contains(x));
    let j = choose|j: int|
        0 <= j < m.spec_children(id).len() && spec_sub_ids(
            m,
            #[trigger] m.spec_children(id)[j],
        ).contains(x);
    let c = m.spec_children(id)[j];
    assert(m.spec_rank(c) < m.spec_rank(id));
    if x == c {
        assert(m.spec_children(id).contains(x));
        assert(spec_sub_ids(m, id).contains(id));
    } else {
        lemma_sub_member_parent(m, c, x);
        let q = choose|q: usize|
            #[trigger] spec_sub_ids(m, c).contains(q) && m.spec_children(q).contains(x);
        lemma_from_members(m, id, 0);
        assert(spec_sub_ids_from(m, id, 0).contains(q));
        assert(spec_sub_ids(m, id).contains(q));
    }
}

/// A child's subtree lies within the parent's subtree.
proof fn lemma_sub_child_subset<M: TreeModel>(m: &M, p: usize, c: usize)
    requires
        rank_ok(m),
        m.spec_children(p).contains(c),
    ensures
        forall|x: usize| #[trigger] spec_sub_ids(m, c).contains(x) ==> spec_sub_ids(
            m,
            p,
        ).contains(x),
{
    broadcast use vstd::seq_lib::group_seq_properties;

    lemma_from_members(m, p, 0);
    let j = choose|j: int| 0 <= j < m.spec_children(p).len() && m.spec_children(p)[j] == c;
    assert forall|x: usize| #[trigger] spec_sub_ids(m, c).contains(x) implies spec_sub_ids(
        m,
        p,
    ).contains(x) by {
        assert(spec_sub_ids(m, m.spec_children(p)[j]).contains(x));
        assert(spec_sub_ids_from(m, p, 0).contains(x));
        assert(spec_sub_ids(m, p) == seq![p] + spec_sub_ids_from(m, p, 0));
    }
}

/// No node lies in the subtrees of two distinct siblings: the core of the
/// exactly-once property.
proof fn lemma_two_subtrees<M: TreeModel>(m: &M, p: usize, c1: usize, c2: usize, x: usize)
    requires
        rank_ok(m),
        true_tree(m),
        m.spec_children(p).contains(c1),
        m.spec_children(p).contains(c2),
        c1 != c2,
    ensures
        !(spec_sub_ids(m, c1).contains(x) && spec_sub_ids(m, c2).contains(x)),
    decreases (m.spec_rank(c1) - m.spec_rank(x)) + (m.spec_rank(c2) - m.spec_rank(x)),
{
    if spec_sub_ids(m, c1).contains(x) && spec_sub_ids(m, c2).contains(x) {
        lemma_sub_rank(m, c1);
        lemma_sub_rank(m, c2);
        let i1 = choose|i: int| 0 <= i < m.spec_children(p).len() && m.spec_children(p)[i] == c1;
        let i2 = choose|i: int| 0 <= i < m.spec_children(p).len() && m.spec_children(p)[i] == c2;
        assert(m.spec_rank(c1) < m.spec_rank(p));
        assert(m.spec_rank(c2) < m.spec_rank(p));
        if x == c1 {
            // c1 lies inside the subtree of its sibling: its parent p would
            // too, but p outranks both siblings.
            lemma_sub_member_parent(m, c2, x);
            let q = choose|q: usize|
                #[trigger] spec_sub_ids(m, c2).contains(q) && m.spec_children(q).contains(x);
            assert(q == p);
            assert(q == c2 || m.spec_rank(q) < m.spec_rank(c2));
        } else if x == c2 {
            lemma_sub_member_parent(m, c1, x);
            let q = choose|q: usize|
                #[trigger] spec_sub_ids(m, c1).contains(q) && m.spec_children(q).contains(x);
            assert(q == p);
            assert(q == c1 || m.spec_rank(q) < m.spec_rank(c1));
        } else {
            lemma_sub_member_parent(m, c1, x);
            let q1 = choose|q: usize|
                #[trigger] spec_sub_ids(m, c1).contains(q) && m.spec_children(q).contains(x);
            lemma_sub_member_parent(m, c2, x);
            let q2 = choose|q: usize|
                #[trigger] spec_sub_ids(m, c2).contains(q) && m.spec_children(q).contains(x);
            assert(q1 == q2);
            let k = choose|k: int|
                0 <= k < m.spec_children(q1).len() && m.spec_children(q1)[k] == x;
            assert(m.spec_rank(x) < m.spec_rank(q1));
            lemma_sub_rank(m, c1);
            lemma_two_subtrees(m, p, c1, c2, q1);
        }
    }
}

/// The ids of a full subtree hold no duplicates in a genuine tree.
proof fn lemma_sub_no_dup<M: TreeModel>(m: &M, id: usize)
    requires
        rank_ok(m),
        true_tree(m),
    ensures
        spec_sub_ids(m, id).no_duplicates(),
    decreases m.spec_rank(id), m.spec_children(id).len(), 1int,
{
    broadcast use vstd::seq_lib::group_seq_properties;

    lemma_sub_from_no_dup(m, id, 0);
    lemma_from_members(m, id, 0);
    let tailpart = spec_sub_ids_from(m, id, 0);
    assert(spec_sub_ids(m, id) == seq![id] + tailpart);
    // The subtree root never reappears among the child subtrees.
    if tailpart.contains(id) {
        let j = choose|j: int|
            0 <= j < m.spec_children(id).len() && spec_sub_ids(
                m,
                #[trigger] m.spec_children(id)[j],
            ).contains(id);
        let c = m.spec_children(id)[j];
        lemma_sub_rank(m, c);
        assert(m.spec_rank(c) < m.spec_rank(id));
    }
    assert forall|a: int, b: int|
        0 <= a < b < spec_sub_ids(m, id).len() implies spec_sub_ids(m, id)[a] != spec_sub_ids(
        m,
        id,
    )[b] by {
        if a == 0 {
            assert(spec_sub_ids(m, id)[b] == tailpart[b - 1]);
            assert(tailpart.contains(tailpart[b - 1]));
        } else {
            assert(spec_sub_ids(m, id)[a] == tailpart[a - 1]);
            assert(spec_sub_ids(m, id)[b] == tailpart[b - 1]);
        }
    }
}

/// The concatenated child subtrees hold no duplicates: sibling subtrees are
/// disjoint.
proof fn lemma_sub_from_no_dup<M: TreeModel>(m: &M, p: usize, i: int)
    requires
        rank_ok(m),
        true_tree(m),
        0 <= i,
    ensures
        spec_sub_ids_from(m, p, i).no_duplicates(),
    decreases m.spec_rank(p), m.spec_children(p).len() - i, 0int,
{
    broadcast use vstd::seq_lib::group_seq_properties;

    let kids = m.spec_children(p);
    if i < kids.len() {
        let c = kids[i];
        assert(m.spec_rank(c) < m.spec_rank(p));
        lemma_sub_no_dup(m, c);
        lemma_sub_from_no_dup(m, p, i + 1);
        lemma_from_members(m, p, i + 1);
        let head = spec_sub_ids(m, c);
        let rest = spec_sub_ids_from(m, p, i + 1);
        assert(spec_sub_ids_from(m, p, i) == head + rest);
        assert forall|a: int, b: int|
            0 <= a < b < (head + rest).len() implies (head + rest)[a] != (head + rest)[b] by {
            if a < head.len() && b >= head.len() {
                let x = (head + rest)[a];
                let y = (head + rest)[b];
                if x == y {
                    assert(head.contains(x));
                    assert(rest[b - head.len()] == y);
                    assert(rest.contains(y));
                    let j = choose|j: int|
                        i + 1 <= j < kids.len() && spec_sub_ids(m, #[trigger] kids[j]).contains(
                            y,
                        );
                    assert(kids.no_duplicates());
                    assert(kids[i] != kids[j]);
                    lemma_two_subtrees(m, p, c, kids[j], x);
                }
            }
        }
    }
}

/// Subtree membership is transitive.
proof fn lemma_sub_trans<M: TreeModel>(m: &M, a: usize, x: usize, y: usize)
    requires
        rank_ok(m),
        spec_sub_ids(m, a).contains(x),
        spec_sub_ids(m, x).contains(y),
    ensures
        spec_sub_ids(m, a).contains(y),
    decreases m.spec_rank(a),
{
    broadcast use vstd::seq_lib::group_seq_properties;

    if x != a {
        lemma_from_members(m, a, 0);
        assert(spec_sub_ids(m, a) == seq![a] + spec_sub_ids_from(m, a, 0));
        assert(spec_sub_ids_from(m, a, 0).contains(x));
        let j = choose|j: int|
            0 <= j < m.spec_children(a).len() && spec_sub_ids(
                m,
                #[trigger] m.spec_children(a)[j],
            ).contains(x);
        let c = m.spec_children(a)[j];
        assert(m.spec_rank(c) < m.spec_rank(a));
        lemma_sub_trans(m, c, x, y);
        lemma_sub_child_subset(m, a, c);
    }
}

/// The full traversal of one subtree, with every expandable edge in the
/// expansion set, lists exactly the subtree's ids.
proof fn lemma_all_expanded_subtree<M: TreeModel>(
    m: &M,
    ex: Set<Edge>,
    id: usize,
    level: nat,
    parent: Option<usize>,
    tail: Seq<bool>,
)
    requires
        rank_ok(m),
        forall|e: Edge|
            #[trigger] reach_edge(m, id, parent, e) && m.spec_children(e.1).len() > 0
                ==> ex.contains(e),
    ensures
        row_ids(spec_subtree_rows(m, ex, id, level, parent, tail)) == spec_sub_ids(m, id),
    decreases m.spec_rank(id), m.spec_children(id).len(), 1int,
{
    broadcast use vstd::seq_lib::group_seq_properties;

    let kids = m.spec_children(id);
    if kids.len() > 0 {
        assert(reach_edge(m, id, parent, (parent, id)));
        assert(ex.contains((parent, id)));
        assert forall|j: int, e: Edge|
            0 <= j < kids.len() && #[trigger] reach_edge(m, kids[j], Some(id), e)
                && m.spec_children(e.1).len() > 0 implies ex.contains(e) by {
            assert(reach_edge(m, id, parent, e));
        }
        lemma_all_expanded_children(m, ex, id, level, tail, 0);
        assert(row_ids(spec_subtree_rows(m, ex, id, level, parent, tail)) =~= seq![id] + row_ids(
            spec_children_rows(m, ex, id, level, tail, 0),
        ));
        assert(spec_sub_ids(m, id) == seq![id] + spec_sub_ids_from(m, id, 0));
        assert(row_ids(spec_subtree_rows(m, ex, id, level, parent, tail)) =~= spec_sub_ids(
            m,
            id,
        ));
    } else {
        assert(spec_sub_ids_from(m, id, 0) =~= Seq::<usize>::empty());
        assert(row_ids(spec_subtree_rows(m, ex, id, level, parent, tail)) =~= spec_sub_ids(
            m,
            id,
        ));
    }
}

/// The full traversal of the remaining child subtrees lists exactly their
/// ids.
proof fn lemma_all_expanded_children<M: TreeModel>(
    m: &M,
    ex: Set<Edge>,
    p: usize,
    level: nat,
    tail: Seq<bool>,
    i: int,
)
    requires
        rank_ok(m),
        0 <= i,
        forall|j: int, e: Edge|
            i <= j < m.spec_children(p).len() && #[trigger] reach_edge(
                m,
                m.spec_children(p)[j],
                Some(p),
                e,
            ) && m.spec_children(e.1).len() > 0 ==> ex.contains(e),
    ensures
        row_ids(spec_children_rows(m, ex, p, level, tail, i)) == spec_sub_ids_from(m, p, i),
    decreases m.spec_rank(p), m.spec_children(p).len() - i, 0int,
{
    broadcast use vstd::seq_lib::group_seq_properties;

    let kids = m.spec_children(p);
    if i < kids.len() {
        let c = kids[i];
        assert(m.spec_rank(c) < m.spec_rank(p));
        assert forall|e: Edge|
            #[trigger] reach_edge(m, c, Some(p), e) && m.spec_children(e.1).len() > 0 implies
            ex.contains(e) by {
            assert(i <= i < kids.len() && reach_edge(m, kids[i], Some(p), e));
        }
        lemma_all_expanded_subtree(
            m,
            ex,
            c,
            (level + 1) as nat,
            Some(p),
            tail.push(i == kids.len() - 1),
        );
        lemma_all_expanded_children(m, ex, p, level, tail, i + 1);
        assert(row_ids(spec_children_rows(m, ex, p, level, tail, i)) =~= row_ids(
            spec_subtree_rows(
                m,
                ex,
                c,
                (level + 1) as nat,
                Some(p),
                tail.push(i == kids.len() - 1),
            ),
        ) + row_ids(spec_children_rows(m, ex, p, level, tail, i + 1)));
        assert(row_ids(spec_children_rows(m, ex, p, level, tail, i)) =~= spec_sub_ids_from(
            m,
            p,
            i,
        ));
    } else {
        assert(row_ids(spec_children_rows(m, ex, p, level, tail, i)) =~= Seq::<
            usize,
        >::empty());
        assert(spec_sub_ids_from(m, p, i) =~= Seq::<usize>::empty());
    }
}

/// Law: after expand-all, the visible rows are exactly the ids reachable
/// from the root — every node of the tree — each exactly once.
pub proof fn lemma_expand_all_shows_every_node_once<M: TreeModel>(m: &M)
    requires
        model_inv(m),
    ensures
        match m.spec_root() {
            Some(root) => {
                &&& row_ids(spec_rows(m, spec_all_expanded(m))) == spec_sub_ids(m, root)
                &&& row_ids(spec_rows(m, spec_all_expanded(m))).no_duplicates()
                &&& forall|x: usize|
                    #[trigger] row_ids(spec_rows(m, spec_all_expanded(m))).contains(x)
                        <==> reachable(m, root, x)
            },
            None => spec_rows(m, spec_all_expanded(m)) == Seq::<RowSpec>::empty(),
        },
{
    match m.spec_root() {
        Some(root) => {
            lemma_all_expanded_subtree(
                m,
                spec_all_expanded(m),
                root,
                0nat,
                None::<usize>,
                Seq::empty(),
            );
            lemma_sub_no_dup(m, root);
        },
        None => {},
    }
}

/// Law: with every node collapsed, the visible rows are exactly the root's
/// own row, or nothing if the tree is empty.
pub proof fn lemma_collapse_all_shows_root_only<M: TreeModel>(m: &M)
    requires
        rank_ok(m),
    ensures
        match m.spec_root() {
            Some(root) => spec_rows(m, Set::<Edge>::empty()) == seq![
                RowSpec {
                    id: root,
                    level: 0nat,
                    parent: None::<usize>,
                    has_children: m.spec_children(root).len() > 0,
                    tail: Seq::<bool>::empty(),
                },
            ],
            None => spec_rows(m, Set::<Edge>::empty()) == Seq::<RowSpec>::empty(),
        },
{
    match m.spec_root() {
        Some(root) => {
            assert(!Set::<Edge>::empty().contains((None::<usize>, root)));
        },
        None => {},
    }
}

/// Law: a childless node is effectively marked only when manually marked,
/// and a parent with children is effectively marked exactly when it is
/// manually marked or all of its children are effectively marked.
pub proof fn lemma_mark_propagation<M: TreeModel>(m: &M, marks: Set<usize>, id: usize)
    requires
        rank_ok(m),
    ensures
        m.spec_children(id).len() == 0 ==> (spec_effective(m, marks, id) <==> marks.contains(
            id,
        )),
        m.spec_children(id).len() > 0 ==> (spec_effective(m, marks, id) <==> (marks.contains(id)
            || forall|i: int|
            0 <= i < m.spec_children(id).len() ==> spec_effective(
                m,
                marks,
                #[trigger] m.spec_children(id)[i],
            ))),
{
}

/// A subtree contains a match exactly when some member of it matches.
proof fn lemma_match_members<M: TreeModel, F: TreeFilter<M>>(m: &M, f: &F, id: usize)
    requires
        rank_ok(m),
    ensures
        spec_subtree_match(m, f, id) <==> exists|z: usize|
            #[trigger] spec_sub_ids(m, id).contains(z) && f.spec_matches(m, z),
    decreases m.spec_rank(id),
{
    broadcast use vstd::seq_lib::group_seq_properties;

    lemma_from_members(m, id, 0);
    assert(spec_sub_ids(m, id) == seq![id] + spec_sub_ids_from(m, id, 0));
    if spec_subtree_match(m, f, id) {
        if f.spec_matches(m, id) {
            assert(spec_sub_ids(m, id)[0] == id);
            assert(spec_sub_ids(m, id).contains(id));
        } else {
            let i = choose|i: int|
                0 <= i < m.spec_children(id).len() && spec_subtree_match(
                    m,
                    f,
                    #[trigger] m.spec_children(id)[i],
                );
            let c = m.spec_children(id)[i];
            assert(m.spec_rank(c) < m.spec_rank(id));
            lemma_match_members(m, f, c);
            let z = choose|z: usize|
                #[trigger] spec_sub_ids(m, c).contains(z) && f.spec_matches(m, z);
            assert(m.spec_children(id).contains(c));
            lemma_sub_child_subset(m, id, c);
            assert(spec_sub_ids(m, id).contains(z));
        }
    }
    if exists|z: usize| #[trigger] spec_sub_ids(m, id).contains(z) && f.spec_matches(m, z) {
        let z = choose|z: usize|
            #[trigger] spec_sub_ids(m, id).contains(z) && f.spec_matches(m, z);
        if z == id {
        } else {
            assert(spec_sub_ids_from(m, id, 0).contains(z));
            let j = choose|j: int|
                0 <= j < m.spec_children(id).len() && spec_sub_ids(
                    m,
                    #[trigger] m.spec_children(id)[j],
                ).contains(z);
            let c = m.spec_children(id)[j];
            assert(m.spec_rank(c) < m.spec_rank(id));
            lemma_match_members(m, f, c);
            assert(spec_subtree_match(m, f, c));
        }
    }
}

/// The filtered traversal of an included subtree, with auto-expand on, lists
/// exactly the subtree members whose own subtrees contain a match.
proof fn lemma_filtered_subtree_ids<M: TreeModel, F: TreeFilter<M>>(
    m: &M,
    f: &F,
    ex: Set<Edge>,
    id: usize,
    level: nat,
    parent: Option<usize>,
    tail: Seq<bool>,
)
    requires
        rank_ok(m),
        spec_subtree_match(m, f, id),
    ensures
        forall|y: usize|
            #[trigger] row_ids(
                spec_filtered_subtree_rows(m, f, true, ex, id, level, parent, tail),
            ).contains(y) <==> (spec_sub_ids(m, id).contains(y) && spec_subtree_match(m, f, y)),
    decreases m.spec_rank(id), m.spec_children(id).len() + 1, 1int,
{
    broadcast use vstd::seq_lib::group_seq_properties;

    let kids = m.spec_children(id);
    let vis = spec_vis_children(m, f, kids);
    lemma_vis_children_sub(m, f, kids);
    lemma_from_members(m, id, 0);
    assert(spec_sub_ids(m, id) == seq![id] + spec_sub_ids_from(m, id, 0));
    assert(spec_sub_ids(m, id)[0] == id);
    assert(spec_sub_ids(m, id).contains(id));
    let rows = spec_filtered_subtree_rows(m, f, true, ex, id, level, parent, tail);
    let row = RowSpec { id, level, parent, has_children: kids.len() > 0, tail };
    if vis.len() > 0 {
        assert(rows == seq![row] + spec_filtered_children_rows(
            m,
            f,
            true,
            ex,
            id,
            level,
            tail,
            vis,
        ));
        lemma_filtered_children_ids(m, f, ex, id, level, tail, vis);
        let crows = spec_filtered_children_rows(m, f, true, ex, id, level, tail, vis);
        assert forall|y: usize| #[trigger] row_ids(rows).contains(y) implies (spec_sub_ids(
            m,
            id,
        ).contains(y) && spec_subtree_match(m, f, y)) by {
            let k = choose|k: int| 0 <= k < rows.len() && row_ids(rows)[k] == y;
            if k == 0 {
                assert(y == id);
            } else {
                assert(row_ids(rows)[k] == row_ids(crows)[k - 1]);
                assert(row_ids(crows).contains(y));
                let j = choose|j: int|
                    0 <= j < vis.len() && spec_sub_ids(m, #[trigger] vis[j]).contains(y)
                        && spec_subtree_match(m, f, y);
                assert(kids.contains(vis[j]));
                lemma_sub_child_subset(m, id, vis[j]);
            }
        }
        assert forall|y: usize|
            spec_sub_ids(m, id).contains(y) && spec_subtree_match(m, f, y) implies #[trigger]
        row_ids(rows).contains(y) by {
            if y == id {
                assert(row_ids(rows)[0] == id);
            } else {
                assert(spec_sub_ids_from(m, id, 0).contains(y));
                let j = choose|j: int|
                    0 <= j < kids.len() && spec_sub_ids(m, #[trigger] kids[j]).contains(y);
                let c = kids[j];
                lemma_match_members(m, f, y);
                let z = choose|z: usize|
                    #[trigger] spec_sub_ids(m, y).contains(z) && f.spec_matches(m, z);
                lemma_sub_trans(m, c, y, z);
                lemma_match_members(m, f, c);
                assert(spec_subtree_match(m, f, c));
                assert(kids.contains(c));
                assert(vis.contains(c));
                let k = choose|k: int| 0 <= k < vis.len() && vis[k] == c;
                assert(spec_sub_ids(m, vis[k]).contains(y));
                assert(row_ids(crows).contains(y));
                let q = choose|q: int| 0 <= q < crows.len() && row_ids(crows)[q] == y;
                assert(row_ids(rows)[q + 1] == y);
            }
        }
    } else {
        assert(rows == seq![row]);
        assert forall|y: usize|
            spec_sub_ids(m, id).contains(y) && spec_subtree_match(m, f, y) implies #[trigger]
        row_ids(rows).contains(y) by {
            if y == id {
                assert(row_ids(rows)[0] == id);
            } else {
                assert(spec_sub_ids_from(m, id, 0).contains(y));
                let j = choose|j: int|
                    0 <= j < kids.len() && spec_sub_ids(m, #[trigger] kids[j]).contains(y);
                let c = kids[j];
                lemma_match_members(m, f, y);
                let z = choose|z: usize|
                    #[trigger] spec_sub_ids(m, y).contains(z) && f.spec_matches(m, z);
                lemma_sub_trans(m, c, y, z);
                lemma_match_members(m, f, c);
                assert(spec_subtree_match(m, f, c));
                assert(kids.contains(c));
                assert(vis.contains(c));
            }
        }
        assert forall|y: usize| #[trigger] row_ids(rows).contains(y) implies (spec_sub_ids(
            m,
            id,
        ).contains(y) && spec_subtree_match(m, f, y)) by {
            let k = choose|k: int| 0 <= k < rows.len() && row_ids(rows)[k] == y;
            assert(y == id);
        }
    }
}

/// The filtered traversal of the kept children lists exactly the members of
/// their subtrees whose own subtrees contain a match.
proof fn lemma_filtered_children_ids<M: TreeModel, F: TreeFilter<M>>(
    m: &M,
    f: &F,
    ex: Set<Edge>,
    p: usize,
    level: nat,
    tail: Seq<bool>,
    vis: Seq<usize>,
)
    requires
        rank_ok(m),
        forall|k: int| 0 <= k < vis.len() ==> m.spec_children(p).contains(#[trigger] vis[k]),
        forall|k: int|
            0 <= k < vis.len() ==> spec_subtree_match(m, f, #[trigger] vis[k]),
    ensures
        forall|y: usize|
            #[trigger] row_ids(
                spec_filtered_children_rows(m, f, true, ex, p, level, tail, vis),
            ).contains(y) <==> exists|k: int|
                0 <= k < vis.len() && spec_sub_ids(m, #[trigger] vis[k]).contains(y)
                    && spec_subtree_match(m, f, y),
    decreases m.spec_rank(p), vis.len(), 0int,
{
    broadcast use vstd::seq_lib::group_seq_properties;

    let rows = spec_filtered_children_rows(m, f, true, ex, p, level, tail, vis);
    if vis.len() > 0 {
        let c = vis[0];
        let is_last = vis.len() == 1;
        let j = choose|j: int|
            0 <= j < m.spec_children(p).len() && m.spec_children(p)[j] == c;
        assert(m.spec_rank(c) < m.spec_rank(p));
        let head = spec_filtered_subtree_rows(
            m,
            f,
            true,
            ex,
            c,
            (level + 1) as nat,
            Some(p),
            tail.push(is_last),
        );
        let rest = spec_filtered_children_rows(
            m,
            f,
            true,
            ex,
            p,
            level,
            tail,
            vis.drop_first(),
        );
        assert(rows == head + rest);
        lemma_filtered_subtree_ids(m, f, ex, c, (level + 1) as nat, Some(p), tail.push(is_last));
        assert(forall|k: int|
            0 <= k < vis.drop_first().len() ==> m.spec_children(p).contains(
                #[trigger] vis.drop_first()[k],
            ) && spec_subtree_match(m, f, vis.drop_first()[k]));
        lemma_filtered_children_ids(m, f, ex, p, level, tail, vis.drop_first());
        assert forall|y: usize| #[trigger] row_ids(rows).contains(y) implies exists|k: int|
            0 <= k < vis.len() && spec_sub_ids(m, #[trigger] vis[k]).contains(y)
                && spec_subtree_match(m, f, y) by {
            let q = choose|q: int| 0 <= q < rows.len() && row_ids(rows)[q] == y;
            if q < head.len() {
                assert(rows[q] == head[q]);
                assert(row_ids(head)[q] == y);
                assert(row_ids(head).contains(y));
                assert(0 <= 0 < vis.len() && spec_sub_ids(m, vis[0]).contains(y)
                    && spec_subtree_match(m, f, y));
            } else {
                assert(rows[q] == rest[q - head.len()]);
                assert(row_ids(rows)[q] == row_ids(rest)[q - head.len()]);
                assert(row_ids(rest).contains(y));
                let k = choose|k: int|
                    0 <= k < vis.drop_first().len() && spec_sub_ids(
                        m,
                        #[trigger] vis.drop_first()[k],
                    ).contains(y) && spec_subtree_match(m, f, y);
                assert(vis.drop_first()[k] == vis[k + 1]);
                assert(0 <= k + 1 < vis.len() && spec_sub_ids(m, vis[k + 1]).contains(y)
                    && spec_subtree_match(m, f, y));
            }
        }
        assert forall|y: usize|
            exists|k: int|
                0 <= k < vis.len() && spec_sub_ids(m, #[trigger] vis[k]).contains(y)
                    && spec_subtree_match(m, f, y) implies #[trigger] row_ids(rows).contains(
            y,
        ) by {
            let k = choose|k: int|
                0 <= k < vis.len() && spec_sub_ids(m, #[trigger] vis[k]).contains(y)
                    && spec_subtree_match(m, f, y);
            if k == 0 {
                assert(row_ids(head).contains(y));
                let q = choose|q: int| 0 <= q < head.len() && row_ids(head)[q] == y;
                assert(row_ids(rows)[q] == y);
            } else {
                assert(vis.drop_first()[k - 1] == vis[k]);
                assert(row_ids(rest).contains(y));
                let q = choose|q: int| 0 <= q < rest.len() && row_ids(rest)[q] == y;
                assert(row_ids(rows)[q + head.len()] == y);
            }
        }
    } else {
        assert(rows =~= Seq::<RowSpec>::empty());
    }
}

/// Law: with a filter enabled and auto-expand on, the visible rows are
/// exactly the reachable nodes whose subtrees contain a match — a match is
/// never hidden, and nothing outside the matching paths appears.
pub proof fn lemma_filter_shows_matching_paths<M: TreeModel, F: TreeFilter<M>>(
    m: &M,
    f: &F,
    ex: Set<Edge>,
)
    requires
        rank_ok(m),
    ensures
        forall|y: usize|
            #[trigger] row_ids(spec_rows_filtered(m, f, true, ex)).contains(y)
                <==> match m.spec_root() {
                    Some(root) => reachable(m, root, y) && spec_subtree_match(m, f, y),
                    None => false,
                },
{
    broadcast use vstd::seq_lib::group_seq_properties;

    match m.spec_root() {
        Some(root) => {
            if spec_subtree_match(m, f, root) {
                lemma_filtered_subtree_ids(
                    m,
                    f,
                    ex,
                    root,
                    0nat,
                    None::<usize>,
                    Seq::empty(),
                );
            } else {
                assert forall|y: usize|
                    !(#[trigger] row_ids(spec_rows_filtered(m, f, true, ex)).contains(y)) by {
                    assert(spec_rows_filtered(m, f, true, ex) == Seq::<RowSpec>::empty());
                }
                assert forall|y: usize|
                    !(reachable(m, root, y) && spec_subtree_match(m, f, y)) by {
                    if reachable(m, root, y) && spec_subtree_match(m, f, y) {
                        lemma_match_members(m, f, y);
                        let z = choose|z: usize|
                            #[trigger] spec_sub_ids(m, y).contains(z) && f.spec_matches(m, z);
                        lemma_sub_trans(m, root, y, z);
                        lemma_match_members(m, f, root);
                    }
                }
            }
        },
        None => {},
    }
}

/// Law: for a filter matching a single node, with auto-expand on, the
/// visible rows are exactly that node and its ancestors — the nodes from
/// whose subtrees the match is reachable.
pub proof fn lemma_filter_round_trip<M: TreeModel, F: TreeFilter<M>>(
    m: &M,
    f: &F,
    ex: Set<Edge>,
    x: usize,
)
    requires
        rank_ok(m),
        forall|y: usize| #[trigger] f.spec_matches(m, y) <==> y == x,
    ensures
        forall|y: usize|
            #[trigger] row_ids(spec_rows_filtered(m, f, true, ex)).contains(y)
                <==> match m.spec_root() {
                    Some(root) => reachable(m, root, y) && reachable(m, y, x),
                    None => false,
                },
{
    lemma_filter_shows_matching_paths(m, f, ex);
    assert forall|y: usize|
        spec_subtree_match(m, f, y) <==> #[trigger] reachable(m, y, x) by {
        lemma_match_members(m, f, y);
        if reachable(m, y, x) {
            assert(spec_sub_ids(m, y).contains(x) && f.spec_matches(m, x));
        }
    }
}

} // verus!
