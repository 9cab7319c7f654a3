//! Widget state: expansion edges, selection, scroll offset, mark sets, and
//! the lazily recomputed visible-row cache, with the dirty flags that gate
//! recomputation.

use vstd::prelude::*;

use crate::action::{TreeAction, TreeEvent};
use crate::edit::{others_unchanged, same_model, TreeEdit};
use crate::keymap::{spec_resolve, KeymapProfile, TreeKey, TreeKeyBindings};
use crate::model::{depth_ok, model_inv, rank_ok, TreeFilter, TreeFilterConfig, TreeModel};
use crate::sets::{Edge, EdgeSet, IdSet};
use crate::visible::{
    lemma_vis_children_sub, reach_edge, rows_view, spec_all_expanded, spec_children_rows,
    spec_effective, spec_expand_edges, spec_filtered_children_rows, spec_filtered_subtree_rows,
    spec_reach_edges, spec_rows, spec_rows_filtered, spec_subtree_match, spec_subtree_rows,
    spec_vis_children, RowSpec, VisibleNode,
};

verus! {

broadcast use vstd::seq_lib::group_seq_properties;

/// The mathematical content of the whole engine state.
pub ghost struct StateView {
    /// Selected row index into the current visible list.
    pub selected: Option<usize>,
    /// Selected column index.
    pub selected_column: Option<usize>,
    /// Scroll offset: index of the first row in the viewport.
    pub offset: usize,
    /// The expansion edges.
    pub expanded: Set<Edge>,
    /// The cached visible rows.
    pub rows: Seq<RowSpec>,
    /// Whether the visible rows must be recomputed before use.
    pub dirty: bool,
    /// Ids the user marked by hand.
    pub manual_marks: Set<usize>,
    /// The cached effective marks.
    pub effective_marks: Set<usize>,
    /// Whether the effective marks must be recomputed before use.
    pub marks_dirty: bool,
    /// Whether guide lines are drawn.
    pub draw_lines: bool,
    /// The active key profile.
    pub profile: KeymapProfile,
}

/// Widget state: expanded nodes, selection, and visibility/mark caches.
pub struct TreeListViewState {
    selected: Option<usize>,
    selected_column: Option<usize>,
    offset: usize,
    // Track expansion by (parent, id) to keep it tied to a specific path
    // (e.g., after moves).
    expanded: EdgeSet,
    // Cached visible rows, to avoid recomputing the traversal every render.
    visible_nodes: Vec<VisibleNode>,
    // Whether visible_nodes must be rebuilt.
    dirty: bool,
    manual_marked: IdSet,
    // Cached effective marks (propagated from children).
    effective_marked: IdSet,
    marks_dirty: bool,
    draw_lines: bool,
    keymap: TreeKeyBindings,
}

impl View for TreeListViewState {
    type V = StateView;

    closed spec fn view(&self) -> StateView {
        StateView {
            selected: self.selected,
            selected_column: self.selected_column,
            offset: self.offset,
            expanded: self.expanded@,
            rows: rows_view(self.visible_nodes@),
            dirty: self.dirty,
            manual_marks: self.manual_marked@,
            effective_marks: self.effective_marked@,
            marks_dirty: self.marks_dirty,
            draw_lines: self.draw_lines,
            profile: self.keymap.spec_profile(),
        }
    }
}

/// Snapshot of state (selection, expansion, marks) for persistence and
/// restore. The visible-row cache is derived state and never part of it.
#[derive(Clone, Debug)]
pub struct TreeListViewSnapshot {
    /// Expanded nodes as `(parent, id)` pairs.
    pub expanded: Vec<Edge>,
    /// Nodes explicitly marked by the user.
    pub manual_marked: Vec<usize>,
    /// Selected row index in the visible list.
    pub selected: Option<usize>,
    /// Selected column index.
    pub selected_column: Option<usize>,
    /// Scroll offset within the visible list.
    pub offset: usize,
    /// Whether guide lines were enabled.
    pub draw_lines: bool,
}

/// The id of the selected row, if a row is selected and its index is within
/// the current visible list.
pub open spec fn spec_selected_id(v: StateView) -> Option<usize> {
    match v.selected {
        Some(i) => if i < v.rows.len() {
            Some(v.rows[i as int].id)
        } else {
            None
        },
        None => None,
    }
}

/// The parent id of the selected row, if any.
pub open spec fn spec_selected_parent_id(v: StateView) -> Option<usize> {
    match v.selected {
        Some(i) => if i < v.rows.len() {
            v.rows[i as int].parent
        } else {
            None
        },
        None => None,
    }
}

/// Selection after clamping to a list of `len` rows: none on an empty list,
/// the last row if the index ran past the end.
pub open spec fn spec_clamp(sel: Option<usize>, len: int) -> Option<usize> {
    if len == 0 {
        None
    } else {
        match sel {
            Some(s) => if s >= len {
                Some((len - 1) as usize)
            } else {
                Some(s)
            },
            None => None,
        }
    }
}

/// Selection after clamping to the visible list: none on an empty list, the
/// last row if the index ran past the end.
pub open spec fn spec_clamped(v: StateView) -> Option<usize> {
    spec_clamp(v.selected, v.rows.len() as int)
}

/// The state after a recompute of the visible rows: the new rows are cached,
/// the row-dirty flag clears, and the selection is clamped to the new list.
pub open spec fn spec_recomputed(v: StateView, rows: Seq<RowSpec>) -> StateView {
    StateView { rows, dirty: false, selected: spec_clamp(v.selected, rows.len() as int), ..v }
}

/// The first row index at or after `i` whose id is `id`.
pub open spec fn spec_row_index(rows: Seq<RowSpec>, id: usize, i: int) -> Option<int>
    decreases rows.len() - i,
        when 0 <= i
{
    if i < rows.len() {
        if rows[i].id == id {
            Some(i)
        } else {
            spec_row_index(rows, id, i + 1)
        }
    } else {
        None
    }
}

/// The child-descent search: scanning forward from `i`, the first row one
/// level below `lvl` that has children, stopping at the first row at or
/// above `lvl`.
pub open spec fn spec_child_pick(rows: Seq<RowSpec>, i: int, lvl: nat) -> Option<int>
    decreases rows.len() - i,
        when 0 <= i
{
    if i < rows.len() {
        if rows[i].level <= lvl {
            None
        } else if rows[i].level == lvl + 1 && rows[i].has_children {
            Some(i)
        } else {
            spec_child_pick(rows, i + 1, lvl)
        }
    } else {
        None
    }
}

/// The fallback search: scanning forward from `i`, the first row with
/// children, stopping at the first row shallower than `lvl`. It never picks
/// a row shallower than the starting one.
pub open spec fn spec_fallback_pick(rows: Seq<RowSpec>, i: int, lvl: nat) -> Option<int>
    decreases rows.len() - i,
        when 0 <= i
{
    if i < rows.len() {
        if rows[i].level < lvl {
            None
        } else if rows[i].has_children {
            Some(i)
        } else {
            spec_fallback_pick(rows, i + 1, lvl)
        }
    } else {
        None
    }
}

/// The state after `select_prev`: the selection moves one row up, clamped;
/// an empty list clears it.
pub open spec fn spec_select_prev(v: StateView) -> StateView {
    StateView {
        selected: if v.rows.len() == 0 {
            None
        } else {
            match v.selected {
                Some(s) => if s > 0 {
                    Some((s - 1) as usize)
                } else {
                    Some(0usize)
                },
                None => Some(0usize),
            }
        },
        ..v
    }
}

/// The state after `select_next`: the selection moves one row down, clamped;
/// an empty list clears it.
pub open spec fn spec_select_next(v: StateView) -> StateView {
    StateView {
        selected: if v.rows.len() == 0 {
            None
        } else {
            match v.selected {
                Some(s) => if s + 1 < v.rows.len() {
                    Some((s + 1) as usize)
                } else {
                    Some((v.rows.len() - 1) as usize)
                },
                None => if 1 < v.rows.len() {
                    Some(1usize)
                } else {
                    Some(0usize)
                },
            }
        },
        ..v
    }
}

/// Where `select_parent` moves the selection: to the first visible row whose
/// id is the selected row's parent, if there is one; otherwise it stays.
pub open spec fn spec_select_parent(v: StateView) -> Option<usize> {
    match v.selected {
        Some(i) => if i < v.rows.len() {
            match v.rows[i as int].parent {
                Some(pid) => match spec_row_index(v.rows, pid, 0) {
                    Some(k) => Some(k as usize),
                    None => v.selected,
                },
                None => v.selected,
            }
        } else {
            v.selected
        },
        None => v.selected,
    }
}

/// The fallback phase of the child-descent move.
pub open spec fn spec_fallback_phase(v: StateView, sel: int, lvl: nat) -> StateView {
    match spec_fallback_pick(v.rows, sel + 1, lvl) {
        Some(k) => StateView { selected: Some(k as usize), ..v },
        None => v,
    }
}

/// The scan phase of the child-descent move: prefer a child (one level
/// deeper) that itself has children; otherwise fall back.
pub open spec fn spec_scan_phase(v: StateView, sel: int, lvl: nat) -> StateView {
    match spec_child_pick(v.rows, sel + 1, lvl) {
        Some(k) => StateView { selected: Some(k as usize), ..v },
        None => spec_fallback_phase(v, sel, lvl),
    }
}

/// The whole child-descent move: expand the selected node if needed (which
/// recomputes the rows and re-locates the node), then search forward for an
/// expandable row, depth-bounded.
pub open spec fn spec_select_child<M: TreeModel>(m: &M, v: StateView) -> StateView {
    match v.selected {
        None => v,
        Some(sel0) => if sel0 >= v.rows.len() {
            v
        } else {
            let node = v.rows[sel0 as int];
            if node.has_children {
                if !v.expanded.contains((node.parent, node.id)) {
                    let ex2 = v.expanded.insert((node.parent, node.id));
                    let rows2 = spec_rows(m, ex2);
                    let v2 = StateView {
                        expanded: ex2,
                        rows: rows2,
                        dirty: false,
                        selected: spec_clamp(v.selected, rows2.len() as int),
                        ..v
                    };
                    match spec_row_index(rows2, node.id, 0) {
                        Some(idx) => spec_scan_phase(
                            StateView { selected: Some(idx as usize), ..v2 },
                            idx,
                            rows2[idx].level,
                        ),
                        None => v2,
                    }
                } else {
                    spec_scan_phase(v, sel0 as int, node.level)
                }
            } else {
                spec_fallback_phase(v, sel0 as int, node.level)
            }
        },
    }
}

/// The edges on the depth-first path from `(parent, id)` to `target`, if
/// `target` lies in that subtree: the path the search walks, root end first.
pub open spec fn spec_find_path<M: TreeModel>(
    m: &M,
    id: usize,
    parent: Option<usize>,
    target: usize,
) -> Option<Seq<Edge>>
    decreases m.spec_rank(id), m.spec_children(id).len(), 1int,
        when rank_ok(m)
{
    let head = seq![(parent, id)];
    if id == target {
        Some(head)
    } else {
        match spec_find_path_from(m, id, target, 0) {
            Some(rest) => Some(head + rest),
            None => None,
        }
    }
}

/// The depth-first path search over the children of `p` from index `i` on.
pub open spec fn spec_find_path_from<M: TreeModel>(m: &M, p: usize, target: usize, i: int) -> Option<
    Seq<Edge>,
>
    decreases m.spec_rank(p), m.spec_children(p).len() - i, 0int,
        when rank_ok(m) && 0 <= i
{
    let kids = m.spec_children(p);
    if i < kids.len() {
        match spec_find_path(m, kids[i], Some(p), target) {
            Some(s) => Some(s),
            None => spec_find_path_from(m, p, target, i + 1),
        }
    } else {
        None
    }
}

/// The expansion set after `expand_to`: the edges on the found path whose
/// nodes have children are added.
pub open spec fn spec_expand_to<M: TreeModel>(m: &M, ex: Set<Edge>, target: usize) -> Set<Edge> {
    match m.spec_root() {
        Some(root) => match spec_find_path(m, root, None::<usize>, target) {
            Some(path) => ex.union(
                Set::new(|e: Edge| path.contains(e) && m.spec_children(e.1).len() > 0),
            ),
            None => ex,
        },
        None => ex,
    }
}

/// Whether `expand_to` finds its target: the target is in the tree.
pub open spec fn spec_path_found<M: TreeModel>(m: &M, target: usize) -> bool {
    match m.spec_root() {
        Some(root) => spec_find_path(m, root, None::<usize>, target) is Some,
        None => false,
    }
}

/// The state after `expand_to` followed by an unfiltered recompute.
pub open spec fn spec_after_expand_to<M: TreeModel>(m: &M, v: StateView, id: usize) -> StateView {
    let v1 = if spec_path_found(m, id) {
        StateView { expanded: spec_expand_to(m, v.expanded, id), dirty: true, ..v }
    } else {
        v
    };
    spec_after_ensure(m, v1)
}

/// The action dispatcher as a function from state and action to the next
/// state and the reported event. A custom action is always forwarded
/// unexamined; with no visible rows nothing else is handled; edit actions
/// are forwarded to the caller on this plain path.
pub open spec fn spec_dispatch<M: TreeModel, C>(
    m: &M,
    v: StateView,
    action: TreeAction<C>,
) -> (StateView, TreeEvent<C>) {
    if action is Custom {
        (v, TreeEvent::Action(action))
    } else if v.rows.len() == 0 {
        (v, TreeEvent::Unhandled)
    } else {
        match action {
            TreeAction::SelectPrev => (spec_select_prev(v), TreeEvent::Handled),
            TreeAction::SelectNext => (spec_select_next(v), TreeEvent::Handled),
            TreeAction::SelectParent => (
                StateView { selected: spec_select_parent(v), ..v },
                TreeEvent::Handled,
            ),
            TreeAction::SelectChild => (spec_select_child(m, v), TreeEvent::Handled),
            TreeAction::ToggleRecursive => match v.selected {
                Some(i) => if i < v.rows.len() && v.rows[i as int].has_children {
                    let node = v.rows[i as int];
                    let ex2 = if !v.expanded.contains((node.parent, node.id)) {
                        v.expanded.union(spec_expand_edges(m, node.id, node.parent))
                    } else {
                        v.expanded.difference(spec_reach_edges(m, node.id, node.parent))
                    };
                    (StateView { expanded: ex2, dirty: true, ..v }, TreeEvent::Handled)
                } else {
                    (v, TreeEvent::Unhandled)
                },
                None => (v, TreeEvent::Unhandled),
            },
            TreeAction::ToggleNode => match v.selected {
                Some(i) => if i < v.rows.len() && v.rows[i as int].has_children {
                    let node = v.rows[i as int];
                    let ex2 = if v.expanded.contains((node.parent, node.id)) {
                        v.expanded.remove((node.parent, node.id))
                    } else {
                        v.expanded.insert((node.parent, node.id))
                    };
                    (StateView { expanded: ex2, dirty: true, ..v }, TreeEvent::Handled)
                } else {
                    (v, TreeEvent::Unhandled)
                },
                None => (v, TreeEvent::Unhandled),
            },
            TreeAction::ExpandAll => (
                StateView { expanded: spec_all_expanded(m), dirty: true, ..v },
                TreeEvent::Handled,
            ),
            TreeAction::CollapseAll => (
                StateView { expanded: Set::<Edge>::empty(), dirty: true, ..v },
                TreeEvent::Handled,
            ),
            TreeAction::ToggleGuides => (
                StateView { draw_lines: !v.draw_lines, ..v },
                TreeEvent::Handled,
            ),
            TreeAction::ToggleMark => match spec_selected_id(v) {
                Some(id) => (
                    StateView {
                        manual_marks: if v.manual_marks.contains(id) {
                            v.manual_marks.remove(id)
                        } else {
                            v.manual_marks.insert(id)
                        },
                        marks_dirty: true,
                        ..v
                    },
                    TreeEvent::Handled,
                ),
                None => (v, TreeEvent::Unhandled),
            },
            TreeAction::SelectFirst => (
                StateView { selected: Some(0usize), ..v },
                TreeEvent::Handled,
            ),
            TreeAction::SelectLast => (
                StateView { selected: Some((v.rows.len() - 1) as usize), ..v },
                TreeEvent::Handled,
            ),
            _ => (v, TreeEvent::Action(action)),
        }
    }
}

/// The state an unfiltered query sees: recomputed if the row cache was
/// dirty, untouched otherwise.
pub open spec fn spec_after_ensure<M: TreeModel>(m: &M, v: StateView) -> StateView {
    if v.dirty {
        spec_recomputed(v, spec_rows(m, v.expanded))
    } else {
        v
    }
}

/// The state a filtered query sees.
pub open spec fn spec_after_ensure_filtered<M: TreeModel, F: TreeFilter<M>>(
    m: &M,
    f: &F,
    config: TreeFilterConfig,
    v: StateView,
) -> StateView {
    if !v.dirty {
        v
    } else if config.enabled {
        spec_recomputed(v, spec_rows_filtered(m, f, config.auto_expand, v.expanded))
    } else {
        spec_recomputed(v, spec_rows(m, v.expanded))
    }
}

/// The seeds of a mark recompute: every currently visible row, the root (if
/// any), and every manually marked node — correct for both visible and
/// off-screen manually marked nodes.
pub open spec fn spec_mark_seeds<M: TreeModel>(m: &M, v: StateView) -> Set<usize> {
    v.rows.map_values(|r: RowSpec| r.id).to_set().union(
        match m.spec_root() {
            Some(r) => Set::<usize>::empty().insert(r),
            None => Set::<usize>::empty(),
        },
    ).union(v.manual_marks)
}

/// The effective-mark cache a recompute produces: of the seeds, those that
/// are effectively marked.
pub open spec fn spec_mark_cache<M: TreeModel>(m: &M, v: StateView) -> Set<usize> {
    Set::new(|id: usize| spec_mark_seeds(m, v).contains(id) && spec_effective(m, v.manual_marks, id))
}

/// The scroll offset that brings row `sel` into a viewport of height `h`
/// currently starting at `offset`, scrolling the minimum amount.
pub open spec fn spec_keep_in_view(sel: usize, offset: usize, h: usize) -> usize {
    if sel < offset {
        sel
    } else if sel >= offset + h {
        (sel + 1 - h) as usize
    } else {
        offset
    }
}

/// The scroll offset that centers row `sel` in a viewport of height `h` over
/// `total` rows, clamped to the valid scroll range.
pub open spec fn spec_centered(sel: usize, h: usize, total: usize) -> usize {
    if total <= h {
        0
    } else {
        let half = h / 2;
        let want: int = if sel > half { sel - half } else { 0 };
        let max_offset: int = total - h;
        if want > max_offset {
            max_offset as usize
        } else {
            want as usize
        }
    }
}

impl Default for TreeListViewState {
    fn default() -> (r: Self)
        ensures
            r@ == (StateView {
                selected: None::<usize>,
                selected_column: None::<usize>,
                offset: 0,
                expanded: Set::<Edge>::empty(),
                rows: Seq::<RowSpec>::empty(),
                dirty: true,
                manual_marks: Set::<usize>::empty(),
                effective_marks: Set::<usize>::empty(),
                marks_dirty: true,
                draw_lines: true,
                profile: KeymapProfile::Default,
            }),
    {
        Self::new()
    }
}

impl TreeListViewState {
    /// Creates a new empty state with default capacity.
    pub fn new() -> (r: Self)
        ensures
            r@ == (StateView {
                selected: None::<usize>,
                selected_column: None::<usize>,
                offset: 0,
                expanded: Set::<Edge>::empty(),
                rows: Seq::<RowSpec>::empty(),
                dirty: true,
                manual_marks: Set::<usize>::empty(),
                effective_marks: Set::<usize>::empty(),
                marks_dirty: true,
                draw_lines: true,
                profile: KeymapProfile::Default,
            }),
    {
        Self::with_capacity(0)
    }

    /// Creates a state with preallocated capacity for the given number of
    /// nodes. The capacity is advisory only.
    pub fn with_capacity(capacity: usize) -> (r: Self)
        ensures
            r@ == (StateView {
                selected: None::<usize>,
                selected_column: None::<usize>,
                offset: 0,
                expanded: Set::<Edge>::empty(),
                rows: Seq::<RowSpec>::empty(),
                dirty: true,
                manual_marks: Set::<usize>::empty(),
                effective_marks: Set::<usize>::empty(),
                marks_dirty: true,
                draw_lines: true,
                profile: KeymapProfile::Default,
            }),
    {
        let r = TreeListViewState {
            selected: None,
            selected_column: None,
            offset: 0,
            expanded: EdgeSet::new(),
            visible_nodes: Vec::new(),
            dirty: true,
            manual_marked: IdSet::new(),
            effective_marked: IdSet::new(),
            marks_dirty: true,
            draw_lines: true,
            keymap: TreeKeyBindings::new(),
        };
        proof {
            assert(rows_view(r.visible_nodes@) =~= Seq::<RowSpec>::empty());
        }
        r
    }

    /// Returns a mutable reference to the key binding set.
    pub fn keymap_mut(&mut self) -> (r: &mut TreeKeyBindings)
        ensures
            r.spec_profile() == old(self)@.profile,
            final(self)@ == (StateView { profile: final(r).spec_profile(), ..old(self)@ }),
    {
        &mut self.keymap
    }

    /// The current visible rows.
    pub fn visible_nodes(&self) -> (r: &Vec<VisibleNode>)
        ensures
            rows_view(r@) == self@.rows,
    {
        &self.visible_nodes
    }

    /// The index of the first visible row with the given id, if any.
    fn visible_index_of(&self, id: usize) -> (r: Option<usize>)
        ensures
            match spec_row_index(self@.rows, id, 0) {
                Some(k) => r == Some(k as usize) && 0 <= k < self@.rows.len()
                    && self@.rows[k].id == id,
                None => r == None::<usize>,
            },
    {
        let mut i: usize = 0;
        while i < self.visible_nodes.len()
            invariant
                0 <= i <= self.visible_nodes@.len(),
                spec_row_index(self@.rows, id, 0) == spec_row_index(self@.rows, id, i as int),
            decreases self.visible_nodes@.len() - i,
        {
            if self.visible_nodes[i].id == id {
                proof {
                    assert(self@.rows[i as int].id == id);
                }
                return Some(i);
            }
            proof {
                assert(self@.rows[i as int].id != id);
            }
            i = i + 1;
        }
        None
    }

    /// Whether the edge `(parent, id)` is expanded.
    pub fn is_expanded(&self, parent: Option<usize>, id: usize) -> (r: bool)
        ensures
            r == self@.expanded.contains((parent, id)),
    {
        self.expanded.contains((parent, id))
    }

    /// Captures a snapshot of the current state for persistence or restore.
    pub fn snapshot(&self) -> (r: TreeListViewSnapshot)
        ensures
            r.expanded@.to_set() == self@.expanded,
            r.manual_marked@.to_set() == self@.manual_marks,
            r.selected == self@.selected,
            r.selected_column == self@.selected_column,
            r.offset == self@.offset,
            r.draw_lines == self@.draw_lines,
    {
        TreeListViewSnapshot {
            expanded: self.expanded.to_vec(),
            manual_marked: self.manual_marked.to_vec(),
            selected: self.selected,
            selected_column: self.selected_column,
            offset: self.offset,
            draw_lines: self.draw_lines,
        }
    }

    /// Restores state from a previously captured snapshot. Both caches are
    /// marked dirty: the next query recomputes them.
    pub fn restore(&mut self, snapshot: TreeListViewSnapshot)
        ensures
            final(self)@ == (StateView {
                selected: snapshot.selected,
                selected_column: snapshot.selected_column,
                offset: snapshot.offset,
                expanded: snapshot.expanded@.to_set(),
                manual_marks: snapshot.manual_marked@.to_set(),
                dirty: true,
                marks_dirty: true,
                draw_lines: snapshot.draw_lines,
                ..old(self)@
            }),
    {
        let mut expanded = EdgeSet::new();
        let mut i: usize = 0;
        while i < snapshot.expanded.len()
            invariant
                0 <= i <= snapshot.expanded@.len(),
                expanded@ == snapshot.expanded@.subrange(0, i as int).to_set(),
            decreases snapshot.expanded@.len() - i,
        {
            let e = snapshot.expanded[i];
            proof {
                assert(snapshot.expanded@.subrange(0, i + 1).drop_last()
                    =~= snapshot.expanded@.subrange(0, i as int));
                assert(snapshot.expanded@.subrange(0, i + 1).last() == e);
                assert(snapshot.expanded@.subrange(0, i + 1).to_set()
                    =~= snapshot.expanded@.subrange(0, i as int).to_set().insert(e));
            }
            expanded.insert(e);
            i = i + 1;
        }
        proof {
            assert(snapshot.expanded@.subrange(0, snapshot.expanded@.len() as int)
                =~= snapshot.expanded@);
        }
        let mut manual = IdSet::new();
        let mut k: usize = 0;
        while k < snapshot.manual_marked.len()
            invariant
                0 <= k <= snapshot.manual_marked@.len(),
                manual@ == snapshot.manual_marked@.subrange(0, k as int).to_set(),
            decreases snapshot.manual_marked@.len() - k,
        {
            let id = snapshot.manual_marked[k];
            proof {
                assert(snapshot.manual_marked@.subrange(0, k + 1).drop_last()
                    =~= snapshot.manual_marked@.subrange(0, k as int));
                assert(snapshot.manual_marked@.subrange(0, k + 1).last() == id);
                assert(snapshot.manual_marked@.subrange(0, k + 1).to_set()
                    =~= snapshot.manual_marked@.subrange(0, k as int).to_set().insert(id));
            }
            manual.insert(id);
            k = k + 1;
        }
        proof {
            assert(snapshot.manual_marked@.subrange(0, snapshot.manual_marked@.len() as int)
                =~= snapshot.manual_marked@);
        }
        self.expanded = expanded;
        self.manual_marked = manual;
        self.draw_lines = snapshot.draw_lines;
        self.offset = snapshot.offset;
        self.selected = snapshot.selected;
        self.selected_column = snapshot.selected_column;
        self.dirty = true;
        self.marks_dirty = true;
    }

    /// Returns whether guide lines are drawn.
    pub fn draw_lines(&self) -> (r: bool)
        ensures
            r == self@.draw_lines,
    {
        self.draw_lines
    }

    /// Enables or disables drawing of guide lines.
    pub fn set_draw_lines(&mut self, draw: bool)
        ensures
            final(self)@ == (StateView { draw_lines: draw, ..old(self)@ }),
    {
        self.draw_lines = draw;
    }

    /// Marks the visible-node cache as dirty.
    pub fn invalidate(&mut self)
        ensures
            final(self)@ == (StateView { dirty: true, ..old(self)@ }),
    {
        self.dirty = true;
    }

    /// Marks both visible-node and mark caches as dirty.
    pub fn invalidate_all(&mut self)
        ensures
            final(self)@ == (StateView { dirty: true, marks_dirty: true, ..old(self)@ }),
    {
        self.dirty = true;
        self.marks_dirty = true;
    }

    /// Selects the first visible row (or none, if the list is empty).
    pub fn select_first(&mut self)
        ensures
            final(self)@ == (StateView {
                selected: if old(self)@.rows.len() == 0 {
                    None::<usize>
                } else {
                    Some(0usize)
                },
                ..old(self)@
            }),
    {
        if self.visible_nodes.len() == 0 {
            self.selected = None;
        } else {
            self.selected = Some(0);
        }
    }

    /// Selects the last visible row (or none, if the list is empty).
    pub fn select_last(&mut self)
        ensures
            final(self)@ == (StateView {
                selected: if old(self)@.rows.len() == 0 {
                    None::<usize>
                } else {
                    Some((old(self)@.rows.len() - 1) as usize)
                },
                ..old(self)@
            }),
    {
        let n = self.visible_nodes.len();
        if n == 0 {
            self.selected = None;
        } else {
            self.selected = Some(n - 1);
        }
    }

    /// Scrolls the view down by the given number of rows (saturating).
    pub fn scroll_down_by(&mut self, amount: u16)
        ensures
            final(self)@ == (StateView {
                offset: if old(self)@.offset + amount <= usize::MAX {
                    (old(self)@.offset + amount) as usize
                } else {
                    usize::MAX
                },
                ..old(self)@
            }),
    {
        if self.offset <= usize::MAX - (amount as usize) {
            self.offset = self.offset + amount as usize;
        } else {
            self.offset = usize::MAX;
        }
    }

    /// Scrolls the view up by the given number of rows (saturating).
    pub fn scroll_up_by(&mut self, amount: u16)
        ensures
            final(self)@ == (StateView {
                offset: if old(self)@.offset >= amount {
                    (old(self)@.offset - amount) as usize
                } else {
                    0usize
                },
                ..old(self)@
            }),
    {
        if self.offset >= amount as usize {
            self.offset = self.offset - amount as usize;
        } else {
            self.offset = 0;
        }
    }

    /// Moves selection to the previous visible row; an empty list clears the
    /// selection.
    pub fn select_prev(&mut self)
        ensures
            final(self)@ == spec_select_prev(old(self)@),
    {
        if self.visible_nodes.len() == 0 {
            self.selected = None;
            return;
        }
        let s = match self.selected {
            Some(s) => s,
            None => 0,
        };
        self.selected = Some(if s > 0 {
            s - 1
        } else {
            0
        });
    }

    /// Moves selection to the next visible row; an empty list clears the
    /// selection.
    pub fn select_next(&mut self)
        ensures
            final(self)@ == spec_select_next(old(self)@),
    {
        let n = self.visible_nodes.len();
        if n == 0 {
            self.selected = None;
            return;
        }
        let s = match self.selected {
            Some(s) => s,
            None => 0,
        };
        self.selected = Some(if s < n - 1 {
            s + 1
        } else {
            n - 1
        });
    }

    /// Clamps the selection to the current visible list.
    fn clamp_selection(&mut self)
        ensures
            final(self)@ == (StateView { selected: spec_clamped(old(self)@), ..old(self)@ }),
    {
        if self.visible_nodes.len() == 0 {
            self.selected = None;
            return;
        }
        if let Some(s) = self.selected {
            if s >= self.visible_nodes.len() {
                self.selected = Some(self.visible_nodes.len() - 1);
            }
        }
    }

    /// Adjusts the scroll offset so the selection is within a viewport of the
    /// given height, scrolling the minimum amount. The selection is clamped
    /// first.
    pub fn ensure_selection_visible(&mut self, viewport_height: usize)
        ensures
            final(self)@ == (StateView {
                selected: spec_clamped(old(self)@),
                offset: match spec_clamped(old(self)@) {
                    Some(sel) => spec_keep_in_view(
                        sel,
                        old(self)@.offset,
                        if viewport_height > 0 {
                            viewport_height
                        } else {
                            1
                        },
                    ),
                    None => old(self)@.offset,
                },
                ..old(self)@
            }),
    {
        self.clamp_selection();
        let sel = match self.selected {
            Some(s) => s,
            None => {
                return ;
            },
        };
        let h = if viewport_height > 0 {
            viewport_height
        } else {
            1
        };
        if sel < self.offset {
            self.offset = sel;
        } else if sel - self.offset >= h {
            // sel < rows.len() after clamping, so sel + 1 cannot overflow,
            // and sel >= offset + h >= h keeps the subtraction nonnegative.
            proof {
                assert(sel < self.visible_nodes@.len());
                assert(sel >= self.offset + h);
            }
            self.offset = sel - h + 1;
        }
    }

    /// Centers the selection in the viewport, clamping the offset to the
    /// valid scroll range. The selection is clamped first.
    fn ensure_selection_visible_centered(&mut self, viewport_height: usize)
        ensures
            final(self)@ == (StateView {
                selected: spec_clamped(old(self)@),
                offset: match spec_clamped(old(self)@) {
                    Some(sel) => spec_centered(
                        sel,
                        if viewport_height > 0 {
                            viewport_height
                        } else {
                            1
                        },
                        old(self)@.rows.len() as usize,
                    ),
                    None => old(self)@.offset,
                },
                ..old(self)@
            }),
    {
        self.clamp_selection();
        let sel = match self.selected {
            Some(s) => s,
            None => {
                return ;
            },
        };
        let h = if viewport_height > 0 {
            viewport_height
        } else {
            1
        };
        let total = self.visible_nodes.len();
        if total <= h {
            self.offset = 0;
            return;
        }
        let half = h / 2;
        let mut off: usize = if sel > half {
            sel - half
        } else {
            0
        };
        let max_offset = total - h;
        if off > max_offset {
            off = max_offset;
        }
        self.offset = off;
    }

    /// Adjusts selection visibility according to the provided scroll policy.
    pub fn ensure_selection_visible_with_policy(
        &mut self,
        viewport_height: usize,
        policy: crate::style::TreeScrollPolicy,
    )
        ensures
            final(self)@ == (StateView {
                selected: spec_clamped(old(self)@),
                offset: match spec_clamped(old(self)@) {
                    Some(sel) => match policy {
                        crate::style::TreeScrollPolicy::KeepInView => spec_keep_in_view(
                            sel,
                            old(self)@.offset,
                            if viewport_height > 0 {
                                viewport_height
                            } else {
                                1
                            },
                        ),
                        crate::style::TreeScrollPolicy::CenterOnSelect => spec_centered(
                            sel,
                            if viewport_height > 0 {
                                viewport_height
                            } else {
                                1
                            },
                            old(self)@.rows.len() as usize,
                        ),
                    },
                    None => old(self)@.offset,
                },
                ..old(self)@
            }),
    {
        match policy {
            crate::style::TreeScrollPolicy::KeepInView => {
                self.ensure_selection_visible(viewport_height);
            },
            crate::style::TreeScrollPolicy::CenterOnSelect => {
                self.ensure_selection_visible_centered(viewport_height);
            },
        }
    }

    /// Returns the id of the currently selected node, if any.
    pub fn selected_id(&self) -> (r: Option<usize>)
        ensures
            r == spec_selected_id(self@),
    {
        match self.selected {
            Some(i) => if i < self.visible_nodes.len() {
                Some(self.visible_nodes[i].id)
            } else {
                None
            },
            None => None,
        }
    }

    /// Returns the parent id of the currently selected node, if any.
    pub fn selected_parent_id(&self) -> (r: Option<usize>)
        ensures
            r == spec_selected_parent_id(self@),
    {
        match self.selected {
            Some(i) => if i < self.visible_nodes.len() {
                self.visible_nodes[i].parent
            } else {
                None
            },
            None => None,
        }
    }

    /// Returns the number of visible nodes in the current view.
    pub fn visible_len(&self) -> (r: usize)
        ensures
            r == self@.rows.len(),
    {
        self.visible_nodes.len()
    }

    /// Returns the currently selected row index, if any.
    pub fn selected(&self) -> (r: Option<usize>)
        ensures
            r == self@.selected,
    {
        self.selected
    }

    /// Returns the scroll offset.
    pub fn offset(&self) -> (r: usize)
        ensures
            r == self@.offset,
    {
        self.offset
    }

    /// Returns the depth level of the currently selected node.
    pub fn selected_level(&self) -> (r: Option<u16>)
        ensures
            match self@.selected {
                Some(i) => if i < self@.rows.len() {
                    r == Some((self@.rows[i as int].level) as u16)
                } else {
                    r == None::<u16>
                },
                None => r == None::<u16>,
            },
    {
        match self.selected {
            Some(i) => if i < self.visible_nodes.len() {
                Some(self.visible_nodes[i].level)
            } else {
                None
            },
            None => None,
        }
    }

    /// Returns whether the selected node is expanded (or `None` if nothing is
    /// selected). A node without children is never expanded.
    pub fn selected_is_expanded<M: crate::model::TreeModel>(&self, _model: &M) -> (r: Option<
        bool,
    >)
        ensures
            match self@.selected {
                Some(i) => if i < self@.rows.len() {
                    r == Some(
                        self@.rows[i as int].has_children && self@.expanded.contains(
                            (self@.rows[i as int].parent, self@.rows[i as int].id),
                        ),
                    )
                } else {
                    r == None::<bool>
                },
                None => r == None::<bool>,
            },
    {
        match self.selected {
            Some(i) => if i < self.visible_nodes.len() {
                let node = &self.visible_nodes[i];
                if node.has_children {
                    Some(self.expanded.contains((node.parent, node.id)))
                } else {
                    Some(false)
                }
            } else {
                None
            },
            None => None,
        }
    }

    /// Toggles expansion state for the given node position.
    pub fn toggle(&mut self, node_id: usize, parent: Option<usize>)
        ensures
            final(self)@ == (StateView {
                expanded: if old(self)@.expanded.contains((parent, node_id)) {
                    old(self)@.expanded.remove((parent, node_id))
                } else {
                    old(self)@.expanded.insert((parent, node_id))
                },
                dirty: true,
                ..old(self)@
            }),
    {
        let key = (parent, node_id);
        if self.expanded.contains(key) {
            self.expanded.remove(key);
        } else {
            self.expanded.insert(key);
        }
        self.dirty = true;
    }

    /// Sets expansion state for the given node position.
    pub fn set_expanded(&mut self, node_id: usize, parent: Option<usize>, expand: bool)
        ensures
            final(self)@ == (StateView {
                expanded: if expand {
                    old(self)@.expanded.insert((parent, node_id))
                } else {
                    old(self)@.expanded.remove((parent, node_id))
                },
                dirty: true,
                ..old(self)@
            }),
    {
        let key = (parent, node_id);
        if expand {
            self.expanded.insert(key);
        } else {
            self.expanded.remove(key);
        }
        self.dirty = true;
    }

    /// Collapses all nodes.
    pub fn collapse_all(&mut self)
        ensures
            final(self)@ == (StateView {
                expanded: Set::<Edge>::empty(),
                dirty: true,
                ..old(self)@
            }),
    {
        self.expanded.clear();
        self.dirty = true;
    }

    /// Expands all nodes in the model: afterwards the expansion set holds
    /// exactly every reachable edge whose node has children.
    pub fn expand_all<M: TreeModel>(&mut self, model: &M)
        requires
            rank_ok(model),
        ensures
            final(self)@ == (StateView {
                expanded: spec_all_expanded(model),
                dirty: true,
                ..old(self)@
            }),
    {
        self.expanded.clear();
        if let Some(root) = model.root() {
            self.expand_subtree_edges(model, root, None);
            proof {
                assert(Set::<Edge>::empty().union(
                    Set::new(
                        |e: Edge|
                            reach_edge(model, root, None::<usize>, e) && model.spec_children(
                                e.1,
                            ).len() > 0,
                    ),
                ) =~= spec_all_expanded(model));
            }
        } else {
            proof {
                assert(spec_all_expanded(model) =~= Set::<Edge>::empty());
            }
        }
        self.dirty = true;
    }

    /// Inserts the expandable edges of one subtree into the expansion set.
    fn expand_subtree_edges<M: TreeModel>(&mut self, model: &M, id: usize, parent: Option<usize>)
        requires
            rank_ok(model),
        ensures
            final(self)@ == (StateView {
                expanded: old(self)@.expanded.union(
                    Set::new(
                        |e: Edge|
                            reach_edge(model, id, parent, e) && model.spec_children(e.1).len()
                                > 0,
                    ),
                ),
                ..old(self)@
            }),
        decreases model.spec_rank(id),
    {
        let ghost pre = self@;
        let children = model.children(id);
        let n = children.len();
        if n > 0 {
            self.expanded.insert((parent, id));
        }
        let mut i: usize = 0;
        while i < n
            invariant
                0 <= i <= n,
                n == model.spec_children(id).len(),
                children@ == model.spec_children(id),
                rank_ok(model),
                self@ == (StateView { expanded: self@.expanded, ..pre }),
                self@.expanded == pre.expanded.union(
                    Set::new(
                        |e: Edge|
                            (((e == (parent, id) && n > 0) || (exists|j: int|
                                0 <= j < i && reach_edge(
                                    model,
                                    #[trigger] model.spec_children(id)[j],
                                    Some(id),
                                    e,
                                ))) && model.spec_children(e.1).len() > 0),
                    ),
                ),
            decreases n - i,
        {
            let child = children[i];
            proof {
                assert(model.spec_children(id)[i as int] == child);
                assert(model.spec_rank(child) < model.spec_rank(id));
            }
            let ghost before = self@.expanded;
            self.expand_subtree_edges(model, child, Some(id));
            proof {
                assert forall|e: Edge| self@.expanded.contains(e) implies pre.expanded.union(
                    Set::new(
                        |e: Edge|
                            (((e == (parent, id) && n > 0) || (exists|j: int|
                                0 <= j < i + 1 && reach_edge(
                                    model,
                                    #[trigger] model.spec_children(id)[j],
                                    Some(id),
                                    e,
                                ))) && model.spec_children(e.1).len() > 0),
                    ),
                ).contains(e) by {
                    if !before.contains(e) {
                        assert(reach_edge(model, child, Some(id), e));
                        assert(model.spec_children(id)[i as int] == child);
                    } else {
                        if !pre.expanded.contains(e) {
                            if !(e == (parent, id) && n > 0) {
                                let j = choose|j: int|
                                    0 <= j < i && reach_edge(
                                        model,
                                        #[trigger] model.spec_children(id)[j],
                                        Some(id),
                                        e,
                                    );
                            }
                        }
                    }
                }
                assert forall|e: Edge| pre.expanded.union(
                    Set::new(
                        |e: Edge|
                            (((e == (parent, id) && n > 0) || (exists|j: int|
                                0 <= j < i + 1 && reach_edge(
                                    model,
                                    #[trigger] model.spec_children(id)[j],
                                    Some(id),
                                    e,
                                ))) && model.spec_children(e.1).len() > 0),
                    ),
                ).contains(e) implies self@.expanded.contains(e) by {
                    if !pre.expanded.contains(e) && !(e == (parent, id) && n > 0
                        && model.spec_children(e.1).len() > 0) {
                        let j = choose|j: int|
                            0 <= j < i + 1 && reach_edge(
                                model,
                                #[trigger] model.spec_children(id)[j],
                                Some(id),
                                e,
                            );
                        if j == i {
                            assert(reach_edge(model, child, Some(id), e));
                        }
                    }
                }
                assert(self@.expanded =~= pre.expanded.union(
                    Set::new(
                        |e: Edge|
                            (((e == (parent, id) && n > 0) || (exists|j: int|
                                0 <= j < i + 1 && reach_edge(
                                    model,
                                    #[trigger] model.spec_children(id)[j],
                                    Some(id),
                                    e,
                                ))) && model.spec_children(e.1).len() > 0),
                    ),
                ));
            }
            i = i + 1;
        }
        proof {
            assert forall|e: Edge| reach_edge(model, id, parent, e) && model.spec_children(
                e.1,
            ).len() > 0 implies ((e == (parent, id) && n > 0) || (exists|j: int|
                0 <= j < n && reach_edge(
                    model,
                    #[trigger] model.spec_children(id)[j],
                    Some(id),
                    e,
                ))) && model.spec_children(e.1).len() > 0 by {
                if e == (parent, id) {
                    assert(e.1 == id);
                    assert(n > 0);
                }
            }
            assert(self@.expanded =~= pre.expanded.union(
                Set::new(
                    |e: Edge|
                        reach_edge(model, id, parent, e) && model.spec_children(e.1).len() > 0,
                ),
            ));
        }
    }

    /// Expands or collapses the whole subtree of a node in one call. When
    /// expanding, every reachable edge whose node has children is added; when
    /// collapsing, every reachable edge is removed.
    fn set_expanded_recursive<M: TreeModel>(
        &mut self,
        model: &M,
        node_id: usize,
        parent: Option<usize>,
        expand: bool,
    )
        requires
            rank_ok(model),
        ensures
            expand ==> final(self)@ == (StateView {
                expanded: old(self)@.expanded.union(
                    Set::new(
                        |e: Edge|
                            reach_edge(model, node_id, parent, e) && model.spec_children(
                                e.1,
                            ).len() > 0,
                    ),
                ),
                ..old(self)@
            }),
            !expand ==> final(self)@ == (StateView {
                expanded: old(self)@.expanded.difference(
                    Set::new(|e: Edge| reach_edge(model, node_id, parent, e)),
                ),
                ..old(self)@
            }),
        decreases model.spec_rank(node_id),
    {
        let ghost pre = self@;
        let children = model.children(node_id);
        let n = children.len();
        if expand {
            if n > 0 {
                self.expand_subtree_edges(model, node_id, parent);
            } else {
                proof {
                    assert forall|e: Edge| pre.expanded.union(
                        Set::new(
                            |e: Edge|
                                reach_edge(model, node_id, parent, e) && model.spec_children(
                                    e.1,
                                ).len() > 0,
                        ),
                    ).contains(e) implies pre.expanded.contains(e) by {
                        if reach_edge(model, node_id, parent, e) && model.spec_children(
                            e.1,
                        ).len() > 0 {
                            assert(e == (parent, node_id));
                        }
                    }
                    assert(pre.expanded =~= pre.expanded.union(
                        Set::new(
                            |e: Edge|
                                reach_edge(model, node_id, parent, e) && model.spec_children(
                                    e.1,
                                ).len() > 0,
                        ),
                    ));
                }
            }
            return;
        }
        self.expanded.remove((parent, node_id));
        let mut i: usize = 0;
        while i < n
            invariant
                0 <= i <= n,
                n == model.spec_children(node_id).len(),
                children@ == model.spec_children(node_id),
                rank_ok(model),
                self@ == (StateView { expanded: self@.expanded, ..pre }),
                self@.expanded == pre.expanded.difference(
                    Set::new(
                        |e: Edge|
                            (e == (parent, node_id) || (exists|j: int|
                                0 <= j < i && reach_edge(
                                    model,
                                    #[trigger] model.spec_children(node_id)[j],
                                    Some(node_id),
                                    e,
                                ))),
                    ),
                ),
            decreases n - i,
        {
            let child = children[i];
            proof {
                assert(model.spec_children(node_id)[i as int] == child);
                assert(model.spec_rank(child) < model.spec_rank(node_id));
            }
            let ghost before = self@.expanded;
            self.set_expanded_recursive(model, child, Some(node_id), false);
            proof {
                assert forall|e: Edge| self@.expanded.contains(e) implies pre.expanded.difference(
                    Set::new(
                        |e: Edge|
                            (e == (parent, node_id) || (exists|j: int|
                                0 <= j < i + 1 && reach_edge(
                                    model,
                                    #[trigger] model.spec_children(node_id)[j],
                                    Some(node_id),
                                    e,
                                ))),
                    ),
                ).contains(e) by {
                    if exists|j: int|
                        0 <= j < i + 1 && reach_edge(
                            model,
                            #[trigger] model.spec_children(node_id)[j],
                            Some(node_id),
                            e,
                        ) {
                        let j = choose|j: int|
                            0 <= j < i + 1 && reach_edge(
                                model,
                                #[trigger] model.spec_children(node_id)[j],
                                Some(node_id),
                                e,
                            );
                        if j == i {
                            assert(reach_edge(model, child, Some(node_id), e));
                        }
                    }
                }
                assert forall|e: Edge| pre.expanded.difference(
                    Set::new(
                        |e: Edge|
                            (e == (parent, node_id) || (exists|j: int|
                                0 <= j < i + 1 && reach_edge(
                                    model,
                                    #[trigger] model.spec_children(node_id)[j],
                                    Some(node_id),
                                    e,
                                ))),
                    ),
                ).contains(e) implies self@.expanded.contains(e) by {
                    assert(!reach_edge(model, child, Some(node_id), e)) by {
                        if reach_edge(model, child, Some(node_id), e) {
                            assert(model.spec_children(node_id)[i as int] == child);
                        }
                    }
                }
                assert(self@.expanded =~= pre.expanded.difference(
                    Set::new(
                        |e: Edge|
                            (e == (parent, node_id) || (exists|j: int|
                                0 <= j < i + 1 && reach_edge(
                                    model,
                                    #[trigger] model.spec_children(node_id)[j],
                                    Some(node_id),
                                    e,
                                ))),
                    ),
                ));
            }
            i = i + 1;
        }
        proof {
            assert forall|e: Edge| reach_edge(model, node_id, parent, e) implies (e == (
                parent,
                node_id,
            ) || (exists|j: int|
                0 <= j < n && reach_edge(
                    model,
                    #[trigger] model.spec_children(node_id)[j],
                    Some(node_id),
                    e,
                ))) by {}
            assert(self@.expanded =~= pre.expanded.difference(
                Set::new(|e: Edge| reach_edge(model, node_id, parent, e)),
            ));
        }
    }

    /// Moves the selection to the parent of the selected row, if that parent
    /// is itself visible.
    fn select_parent(&mut self)
        ensures
            final(self)@ == (StateView { selected: spec_select_parent(old(self)@), ..old(self)@ }),
    {
        let sel = match self.selected {
            Some(s) => s,
            None => {
                return ;
            },
        };
        if sel >= self.visible_nodes.len() {
            return;
        }
        let parent_id = match self.visible_nodes[sel].parent {
            Some(p) => p,
            None => {
                return ;
            },
        };
        if let Some(parent_idx) = self.visible_index_of(parent_id) {
            self.selected = Some(parent_idx);
        }
    }

    /// The child-descent move: expands the selected node if needed, then
    /// moves to the first descendant one level down that itself has
    /// children, falling back to the next expandable row in the subtree. It
    /// never selects a row shallower than the starting one.
    fn select_child_with_descendants<M: TreeModel>(&mut self, model: &M)
        requires
            rank_ok(model),
            depth_ok(model),
        ensures
            final(self)@ == spec_select_child(model, old(self)@),
    {
        let mut sel = match self.selected {
            Some(s) => s,
            None => {
                return ;
            },
        };
        if sel >= self.visible_nodes.len() {
            return;
        }
        let node_id = self.visible_nodes[sel].id;
        let node_parent = self.visible_nodes[sel].parent;
        let node_has_children = self.visible_nodes[sel].has_children;
        let mut level = self.visible_nodes[sel].level;

        if node_has_children {
            if !self.expanded.contains((node_parent, node_id)) {
                self.expanded.insert((node_parent, node_id));
                self.dirty = true;
                self.update_visible_nodes(model);
                if let Some(current_idx) = self.visible_index_of(node_id) {
                    sel = current_idx;
                    level = self.visible_nodes[current_idx].level;
                    self.selected = Some(current_idx);
                } else {
                    return;
                }
            }
            // Prefer children that themselves have descendants.
            let n_now = self.visible_nodes.len();
            proof {
                assert(sel < n_now);
            }
            if let Some(k) = self.child_pick_scan(sel + 1, level) {
                self.selected = Some(k);
                return;
            }
        }

        // Fallback: pick the next node in the subtree that has children.
        let n_now = self.visible_nodes.len();
        proof {
            assert(sel < n_now);
        }
        if let Some(k) = self.fallback_pick_scan(sel + 1, level) {
            self.selected = Some(k);
        }
    }

    /// Scans forward for a row one level below `lvl` that has children,
    /// stopping at the first row at or above `lvl`.
    fn child_pick_scan(&self, start: usize, lvl: u16) -> (r: Option<usize>)
        ensures
            match spec_child_pick(self@.rows, start as int, lvl as nat) {
                Some(k) => r == Some(k as usize),
                None => r == None::<usize>,
            },
    {
        let n = self.visible_nodes.len();
        let mut idx: usize = start;
        if idx >= n {
            return None;
        }
        while idx < n
            invariant
                start <= idx <= n,
                n == self@.rows.len(),
                spec_child_pick(self@.rows, start as int, lvl as nat) == spec_child_pick(
                    self@.rows,
                    idx as int,
                    lvl as nat,
                ),
            decreases n - idx,
        {
            let candidate_level = self.visible_nodes[idx].level;
            if candidate_level <= lvl {
                return None;
            }
            if candidate_level >= 1 && candidate_level - 1 == lvl
                && self.visible_nodes[idx].has_children {
                return Some(idx);
            }
            idx = idx + 1;
        }
        None
    }

    /// Scans forward for a row with children, stopping at the first row
    /// shallower than `lvl`.
    fn fallback_pick_scan(&self, start: usize, lvl: u16) -> (r: Option<usize>)
        ensures
            match spec_fallback_pick(self@.rows, start as int, lvl as nat) {
                Some(k) => r == Some(k as usize),
                None => r == None::<usize>,
            },
    {
        let n = self.visible_nodes.len();
        let mut idx: usize = start;
        if idx >= n {
            return None;
        }
        while idx < n
            invariant
                start <= idx <= n,
                n == self@.rows.len(),
                spec_fallback_pick(self@.rows, start as int, lvl as nat) == spec_fallback_pick(
                    self@.rows,
                    idx as int,
                    lvl as nat,
                ),
            decreases n - idx,
        {
            let candidate_level = self.visible_nodes[idx].level;
            if candidate_level < lvl {
                return None;
            }
            if self.visible_nodes[idx].has_children {
                return Some(idx);
            }
            idx = idx + 1;
        }
        None
    }

    /// Expands all ancestors of the node so it becomes visible; returns
    /// whether the node was found in the model at all. On failure nothing
    /// changes.
    pub fn expand_to<M: TreeModel>(&mut self, model: &M, id: usize) -> (r: bool)
        requires
            rank_ok(model),
        ensures
            r == spec_path_found(model, id),
            r ==> final(self)@ == (StateView {
                expanded: spec_expand_to(model, old(self)@.expanded, id),
                dirty: true,
                ..old(self)@
            }),
            !r ==> *final(self) == *old(self),
    {
        let root = match model.root() {
            Some(root) => root,
            None => {
                return false;
            },
        };
        let mut path: Vec<Edge> = Vec::new();
        if !dfs_find_path(model, root, None, id, &mut path) {
            return false;
        }
        let ghost pathseq = spec_find_path(model, root, None::<usize>, id).unwrap();
        proof {
            assert(path@ =~= pathseq);
        }
        let n = path.len();
        let ghost pre = self@;
        let mut i: usize = 0;
        while i < n
            invariant
                0 <= i <= n,
                n == path@.len(),
                path@ == pathseq,
                rank_ok(model),
                self@ == (StateView { expanded: self@.expanded, ..pre }),
                self@.expanded == pre.expanded.union(
                    Set::new(
                        |e: Edge|
                            path@.subrange(0, i as int).contains(e) && model.spec_children(
                                e.1,
                            ).len() > 0,
                    ),
                ),
            decreases n - i,
        {
            let (parent, node) = path[i];
            proof {
                assert(path@.subrange(0, i + 1).drop_last() =~= path@.subrange(0, i as int));
                assert(path@.subrange(0, i + 1).last() == (parent, node));
            }
            let children = model.children(node);
            if children.len() > 0 {
                self.expanded.insert((parent, node));
            }
            proof {
                assert(self@.expanded =~= pre.expanded.union(
                    Set::new(
                        |e: Edge|
                            path@.subrange(0, i + 1).contains(e) && model.spec_children(
                                e.1,
                            ).len() > 0,
                    ),
                ));
            }
            i = i + 1;
        }
        proof {
            assert(path@.subrange(0, n as int) =~= path@);
        }
        self.dirty = true;
        true
    }

    /// Expands the tree to the node and selects it if it is visible
    /// afterwards.
    pub fn select_by_id<M: TreeModel>(&mut self, model: &M, id: usize) -> (r: bool)
        requires
            rank_ok(model),
            depth_ok(model),
        ensures
            ({
                let v2 = spec_after_expand_to(model, old(self)@, id);
                match spec_row_index(v2.rows, id, 0) {
                    Some(k) => r && final(self)@ == (StateView {
                        selected: Some(k as usize),
                        ..v2
                    }),
                    None => !r && final(self)@ == v2,
                }
            }),
    {
        let _ = self.expand_to(model, id);
        self.ensure_visible_nodes(model);
        if let Some(idx) = self.visible_index_of(id) {
            self.selected = Some(idx);
            true
        } else {
            false
        }
    }

    /// Expands the tree to the node and returns whether it is visible
    /// afterwards.
    pub fn ensure_visible_id<M: TreeModel>(&mut self, model: &M, id: usize) -> (r: bool)
        requires
            rank_ok(model),
            depth_ok(model),
        ensures
            final(self)@ == spec_after_expand_to(model, old(self)@, id),
            r == (spec_row_index(spec_after_expand_to(model, old(self)@, id).rows, id, 0)
                is Some),
    {
        let _ = self.expand_to(model, id);
        self.ensure_visible_nodes(model);
        match self.visible_index_of(id) {
            Some(_) => true,
            None => false,
        }
    }

    /// Handles a tree action and returns the resulting event. The visible
    /// rows are brought up to date first, so the action is interpreted
    /// against a coherent view.
    pub fn handle_action<M: TreeModel, C>(&mut self, model: &M, action: TreeAction<C>) -> (r:
        TreeEvent<C>)
        requires
            rank_ok(model),
            depth_ok(model),
        ensures
            final(self)@ == spec_dispatch::<M, C>(
                model,
                spec_after_ensure(model, old(self)@),
                action,
            ).0,
            r == spec_dispatch::<M, C>(model, spec_after_ensure(model, old(self)@), action).1,
    {
        self.ensure_visible_nodes(model);
        self.handle_action_inner(model, action)
    }

    /// Handles a tree action with filtering enabled and returns the
    /// resulting event.
    pub fn handle_action_filtered<M: TreeModel, F: TreeFilter<M>, C>(
        &mut self,
        model: &M,
        filter: &F,
        config: TreeFilterConfig,
        action: TreeAction<C>,
    ) -> (r: TreeEvent<C>)
        requires
            rank_ok(model),
            depth_ok(model),
        ensures
            final(self)@ == spec_dispatch::<M, C>(
                model,
                spec_after_ensure_filtered(model, filter, config, old(self)@),
                action,
            ).0,
            r == spec_dispatch::<M, C>(
                model,
                spec_after_ensure_filtered(model, filter, config, old(self)@),
                action,
            ).1,
    {
        self.ensure_visible_nodes_filtered(model, filter, config);
        self.handle_action_inner(model, action)
    }

    /// Resolves a key event into an action and handles it.
    pub fn handle_key<M: TreeModel>(&mut self, model: &M, key: TreeKey) -> (r: TreeEvent<()>)
        requires
            rank_ok(model),
            depth_ok(model),
        ensures
            ({
                let v1 = spec_after_ensure(model, old(self)@);
                match spec_resolve::<()>(old(self)@.profile, key) {
                    Some(a) => final(self)@ == spec_dispatch::<M, ()>(model, v1, a).0 && r
                        == spec_dispatch::<M, ()>(model, v1, a).1,
                    None => final(self)@ == v1 && r == TreeEvent::<()>::Unhandled,
                }
            }),
    {
        self.ensure_visible_nodes(model);
        let action = match self.keymap.resolve::<()>(key) {
            Some(a) => a,
            None => {
                return TreeEvent::Unhandled;
            },
        };
        self.handle_action_inner(model, action)
    }

    /// Resolves a key event with a custom mapping first and handles it: a
    /// key the custom mapping claims becomes a forwarded custom action.
    pub fn handle_key_with<M: TreeModel, C, F: Fn(TreeKey) -> Option<C>>(
        &mut self,
        model: &M,
        key: TreeKey,
        custom: F,
    ) -> (r: TreeEvent<C>)
        requires
            rank_ok(model),
            depth_ok(model),
            call_requires(custom, (key,)),
        ensures
            ({
                let v1 = spec_after_ensure(model, old(self)@);
                (exists|c: C|
                    call_ensures(custom, (key,), Some(c)) && final(self)@ == v1 && r
                        == TreeEvent::Action(TreeAction::Custom(c))) || (call_ensures(
                    custom,
                    (key,),
                    None::<C>,
                ) && match spec_resolve::<C>(old(self)@.profile, key) {
                    Some(a) => final(self)@ == spec_dispatch::<M, C>(model, v1, a).0 && r
                        == spec_dispatch::<M, C>(model, v1, a).1,
                    None => final(self)@ == v1 && r == TreeEvent::<C>::Unhandled,
                })
            }),
    {
        self.ensure_visible_nodes(model);
        let action = match self.keymap.resolve_with(key, custom) {
            Some(a) => a,
            None => {
                return TreeEvent::Unhandled;
            },
        };
        if let TreeAction::Custom(c) = action {
            return TreeEvent::Action(TreeAction::Custom(c));
        }
        self.handle_action_inner(model, action)
    }

    /// Resolves a key event with filtering enabled and handles it.
    pub fn handle_key_filtered<M: TreeModel, F: TreeFilter<M>>(
        &mut self,
        model: &M,
        filter: &F,
        config: TreeFilterConfig,
        key: TreeKey,
    ) -> (r: TreeEvent<()>)
        requires
            rank_ok(model),
            depth_ok(model),
        ensures
            ({
                let v1 = spec_after_ensure_filtered(model, filter, config, old(self)@);
                match spec_resolve::<()>(old(self)@.profile, key) {
                    Some(a) => final(self)@ == spec_dispatch::<M, ()>(model, v1, a).0 && r
                        == spec_dispatch::<M, ()>(model, v1, a).1,
                    None => final(self)@ == v1 && r == TreeEvent::<()>::Unhandled,
                }
            }),
    {
        self.ensure_visible_nodes_filtered(model, filter, config);
        let action = match self.keymap.resolve::<()>(key) {
            Some(a) => a,
            None => {
                return TreeEvent::Unhandled;
            },
        };
        self.handle_action_inner(model, action)
    }

    /// Resolves a key event with filtering and a custom mapping and handles
    /// it.
    pub fn handle_key_filtered_with<M: TreeModel, F: TreeFilter<M>, C, R: Fn(TreeKey) -> Option<
        C,
    >>(
        &mut self,
        model: &M,
        filter: &F,
        config: TreeFilterConfig,
        key: TreeKey,
        custom: R,
    ) -> (r: TreeEvent<C>)
        requires
            rank_ok(model),
            depth_ok(model),
            call_requires(custom, (key,)),
        ensures
            ({
                let v1 = spec_after_ensure_filtered(model, filter, config, old(self)@);
                (exists|c: C|
                    call_ensures(custom, (key,), Some(c)) && final(self)@ == v1 && r
                        == TreeEvent::Action(TreeAction::Custom(c))) || (call_ensures(
                    custom,
                    (key,),
                    None::<C>,
                ) && match spec_resolve::<C>(old(self)@.profile, key) {
                    Some(a) => final(self)@ == spec_dispatch::<M, C>(model, v1, a).0 && r
                        == spec_dispatch::<M, C>(model, v1, a).1,
                    None => final(self)@ == v1 && r == TreeEvent::<C>::Unhandled,
                })
            }),
    {
        self.ensure_visible_nodes_filtered(model, filter, config);
        let action = match self.keymap.resolve_with(key, custom) {
            Some(a) => a,
            None => {
                return TreeEvent::Unhandled;
            },
        };
        if let TreeAction::Custom(c) = action {
            return TreeEvent::Action(TreeAction::Custom(c));
        }
        self.handle_action_inner(model, action)
    }

    /// Applies edit actions to a mutable model and updates state: reorder,
    /// detach, delete, yank and paste, plus whole-tree expansion changes.
    /// Every operation returns whether it succeeded and is a no-op on a
    /// precondition failure (no selection, root target, boundary reorder,
    /// empty clipboard).
    pub fn handle_edit_action<T: TreeEdit, C>(
        &mut self,
        model: &mut T,
        action: TreeAction<C>,
        clipboard: &mut Option<usize>,
    ) -> (r: bool)
        requires
            model_inv(old(model)),
        ensures
            ({
                let v1 = spec_after_ensure(old(model), old(self)@);
                match action {
                    TreeAction::ReorderUp => match (
                        spec_selected_id(v1),
                        spec_selected_parent_id(v1),
                    ) {
                        (Some(node_id), Some(parent_id)) => if exists|i: int|
                            0 < i < old(model).spec_children(parent_id).len() && old(
                                model,
                            ).spec_children(parent_id)[i] == node_id {
                            &&& r
                            &&& model_inv(final(model))
                            &&& (exists|i: int|
                                #![trigger old(model).spec_children(parent_id)[i]]
                                {
                                    &&& 0 < i < old(model).spec_children(parent_id).len()
                                    &&& old(model).spec_children(parent_id)[i] == node_id
                                    &&& final(model).spec_children(parent_id) == old(
                                        model,
                                    ).spec_children(parent_id).update(
                                        i,
                                        old(model).spec_children(parent_id)[i - 1],
                                    ).update(i - 1, node_id)
                                })
                            &&& others_unchanged(old(model), final(model), parent_id)
                            &&& ({
                                let rows2 = spec_rows(final(model), v1.expanded);
                                let v2 = StateView {
                                    rows: rows2,
                                    dirty: false,
                                    selected: spec_clamp(v1.selected, rows2.len() as int),
                                    ..v1
                                };
                                match spec_row_index(rows2, node_id, 0) {
                                    Some(k) => final(self)@ == (StateView {
                                        selected: Some(k as usize),
                                        ..v2
                                    }),
                                    None => final(self)@ == v2,
                                }
                            })
                            &&& *final(clipboard) == *old(clipboard)
                        } else {
                            &&& !r
                            &&& same_model(old(model), final(model))
                            &&& final(self)@ == v1
                            &&& *final(clipboard) == *old(clipboard)
                        },
                        _ => {
                            &&& !r
                            &&& *final(model) == *old(model)
                            &&& final(self)@ == v1
                            &&& *final(clipboard) == *old(clipboard)
                        },
                    },
                    TreeAction::ReorderDown => match (
                        spec_selected_id(v1),
                        spec_selected_parent_id(v1),
                    ) {
                        (Some(node_id), Some(parent_id)) => if exists|i: int|
                            0 <= i < old(model).spec_children(parent_id).len() - 1 && old(
                                model,
                            ).spec_children(parent_id)[i] == node_id {
                            &&& r
                            &&& model_inv(final(model))
                            &&& (exists|i: int|
                                #![trigger old(model).spec_children(parent_id)[i]]
                                {
                                    &&& 0 <= i < old(model).spec_children(parent_id).len() - 1
                                    &&& old(model).spec_children(parent_id)[i] == node_id
                                    &&& final(model).spec_children(parent_id) == old(
                                        model,
                                    ).spec_children(parent_id).update(
                                        i,
                                        old(model).spec_children(parent_id)[i + 1],
                                    ).update(i + 1, node_id)
                                })
                            &&& others_unchanged(old(model), final(model), parent_id)
                            &&& ({
                                let rows2 = spec_rows(final(model), v1.expanded);
                                let v2 = StateView {
                                    rows: rows2,
                                    dirty: false,
                                    selected: spec_clamp(v1.selected, rows2.len() as int),
                                    ..v1
                                };
                                match spec_row_index(rows2, node_id, 0) {
                                    Some(k) => final(self)@ == (StateView {
                                        selected: Some(k as usize),
                                        ..v2
                                    }),
                                    None => final(self)@ == v2,
                                }
                            })
                            &&& *final(clipboard) == *old(clipboard)
                        } else {
                            &&& !r
                            &&& same_model(old(model), final(model))
                            &&& final(self)@ == v1
                            &&& *final(clipboard) == *old(clipboard)
                        },
                        _ => {
                            &&& !r
                            &&& *final(model) == *old(model)
                            &&& final(self)@ == v1
                            &&& *final(clipboard) == *old(clipboard)
                        },
                    },
                    TreeAction::DetachNode => match spec_selected_id(v1) {
                        Some(node_id) => if old(model).spec_root() == Some(node_id) {
                            &&& !r
                            &&& *final(model) == *old(model)
                            &&& final(self)@ == v1
                            &&& *final(clipboard) == *old(clipboard)
                        } else {
                            match spec_selected_parent_id(v1) {
                                Some(parent_id) => {
                                    &&& r
                                    &&& model_inv(final(model))
                                    &&& (old(model).spec_children(parent_id).contains(node_id)
                                        ==> exists|i: int|
                                        #![trigger old(model).spec_children(parent_id)[i]]
                                        {
                                            &&& 0 <= i < old(model).spec_children(
                                                parent_id,
                                            ).len()
                                            &&& old(model).spec_children(parent_id)[i]
                                                == node_id
                                            &&& final(model).spec_children(parent_id) == old(
                                                model,
                                            ).spec_children(parent_id).remove(i)
                                        })
                                    &&& (!old(model).spec_children(parent_id).contains(node_id)
                                        ==> final(model).spec_children(parent_id) == old(
                                        model,
                                    ).spec_children(parent_id))
                                    &&& others_unchanged(old(model), final(model), parent_id)
                                    &&& final(self)@ == (StateView {
                                        manual_marks: Set::new(
                                            |id: usize|
                                                v1.manual_marks.contains(id)
                                                    && final(model).spec_contains(id),
                                        ),
                                        effective_marks: Set::new(
                                            |id: usize|
                                                v1.effective_marks.contains(id)
                                                    && final(model).spec_contains(id),
                                        ),
                                        marks_dirty: true,
                                        dirty: true,
                                        ..v1
                                    })
                                    &&& *final(clipboard) == *old(clipboard)
                                },
                                None => {
                                    &&& !r
                                    &&& *final(model) == *old(model)
                                    &&& final(self)@ == v1
                                    &&& *final(clipboard) == *old(clipboard)
                                },
                            }
                        },
                        None => {
                            &&& !r
                            &&& *final(model) == *old(model)
                            &&& final(self)@ == v1
                            &&& *final(clipboard) == *old(clipboard)
                        },
                    },
                    TreeAction::DeleteNode => match spec_selected_id(v1) {
                        Some(node_id) => if old(model).spec_root() == Some(node_id) {
                            &&& !r
                            &&& *final(model) == *old(model)
                            &&& final(self)@ == v1
                            &&& *final(clipboard) == *old(clipboard)
                        } else {
                            &&& r
                            &&& model_inv(final(model))
                            &&& !final(model).spec_contains(node_id)
                            &&& (forall|q: usize|
                                !final(model).spec_children(q).contains(node_id))
                            &&& final(model).spec_root() == old(model).spec_root()
                            &&& final(self)@ == (StateView {
                                manual_marks: Set::new(
                                    |id: usize|
                                        v1.manual_marks.contains(id)
                                            && final(model).spec_contains(id),
                                ),
                                effective_marks: Set::new(
                                    |id: usize|
                                        v1.effective_marks.contains(id)
                                            && final(model).spec_contains(id),
                                ),
                                marks_dirty: true,
                                dirty: true,
                                ..v1
                            })
                            &&& *final(clipboard) == *old(clipboard)
                        },
                        None => {
                            &&& !r
                            &&& *final(model) == *old(model)
                            &&& final(self)@ == v1
                            &&& *final(clipboard) == *old(clipboard)
                        },
                    },
                    TreeAction::YankNode => match spec_selected_id(v1) {
                        Some(node_id) => if old(model).spec_root() == Some(node_id) {
                            &&& !r
                            &&& *final(model) == *old(model)
                            &&& final(self)@ == v1
                            &&& *final(clipboard) == *old(clipboard)
                        } else {
                            &&& r
                            &&& *final(model) == *old(model)
                            &&& final(self)@ == v1
                            &&& *final(clipboard) == Some(node_id)
                        },
                        None => {
                            &&& !r
                            &&& *final(model) == *old(model)
                            &&& final(self)@ == v1
                            &&& *final(clipboard) == *old(clipboard)
                        },
                    },
                    TreeAction::PasteNode => match (*old(clipboard), spec_selected_id(v1)) {
                        (Some(node_id), Some(parent_id)) => {
                            &&& r
                            &&& model_inv(final(model))
                            &&& ((final(model).spec_children(parent_id) == old(
                                model,
                            ).spec_children(parent_id).push(node_id) && others_unchanged(
                                old(model),
                                final(model),
                                parent_id,
                            )) || same_model(old(model), final(model)))
                            &&& final(self)@ == (StateView {
                                dirty: true,
                                marks_dirty: true,
                                ..v1
                            })
                            &&& *final(clipboard) == *old(clipboard)
                        },
                        _ => {
                            &&& !r
                            &&& *final(model) == *old(model)
                            &&& final(self)@ == v1
                            &&& *final(clipboard) == *old(clipboard)
                        },
                    },
                    TreeAction::ExpandAll => {
                        &&& r
                        &&& *final(model) == *old(model)
                        &&& final(self)@ == (StateView {
                            expanded: spec_all_expanded(old(model)),
                            dirty: true,
                            ..v1
                        })
                        &&& *final(clipboard) == *old(clipboard)
                    },
                    TreeAction::CollapseAll => {
                        &&& r
                        &&& *final(model) == *old(model)
                        &&& final(self)@ == (StateView {
                            expanded: Set::<Edge>::empty(),
                            dirty: true,
                            ..v1
                        })
                        &&& *final(clipboard) == *old(clipboard)
                    },
                    _ => {
                        &&& !r
                        &&& *final(model) == *old(model)
                        &&& final(self)@ == v1
                        &&& *final(clipboard) == *old(clipboard)
                    },
                }
            }),
    {
        self.ensure_visible_nodes(model);
        match action {
            TreeAction::ReorderUp => {
                let node_id = match self.selected_id() {
                    Some(x) => x,
                    None => {
                        return false;
                    },
                };
                let parent_id = match self.selected_parent_id() {
                    Some(x) => x,
                    None => {
                        return false;
                    },
                };
                if model.move_child_up(parent_id, node_id) {
                    self.invalidate();
                    self.ensure_visible_nodes(model);
                    if let Some(idx) = self.visible_index_of(node_id) {
                        self.selected = Some(idx);
                    }
                    true
                } else {
                    false
                }
            },
            TreeAction::ReorderDown => {
                let node_id = match self.selected_id() {
                    Some(x) => x,
                    None => {
                        return false;
                    },
                };
                let parent_id = match self.selected_parent_id() {
                    Some(x) => x,
                    None => {
                        return false;
                    },
                };
                if model.move_child_down(parent_id, node_id) {
                    self.invalidate();
                    self.ensure_visible_nodes(model);
                    if let Some(idx) = self.visible_index_of(node_id) {
                        self.selected = Some(idx);
                    }
                    true
                } else {
                    false
                }
            },
            TreeAction::DetachNode => {
                let node_id = match self.selected_id() {
                    Some(x) => x,
                    None => {
                        return false;
                    },
                };
                if model.is_root(node_id) {
                    return false;
                }
                let parent_id = match self.selected_parent_id() {
                    Some(x) => x,
                    None => {
                        return false;
                    },
                };
                model.remove_child(parent_id, node_id);
                self.prune_removed_marks(model);
                self.invalidate_all();
                true
            },
            TreeAction::DeleteNode => {
                let node_id = match self.selected_id() {
                    Some(x) => x,
                    None => {
                        return false;
                    },
                };
                if model.is_root(node_id) {
                    return false;
                }
                model.delete_node(node_id);
                self.prune_removed_marks(model);
                self.invalidate_all();
                true
            },
            TreeAction::YankNode => {
                let node_id = match self.selected_id() {
                    Some(x) => x,
                    None => {
                        return false;
                    },
                };
                if model.is_root(node_id) {
                    return false;
                }
                *clipboard = Some(node_id);
                true
            },
            TreeAction::PasteNode => {
                let node_id = match *clipboard {
                    Some(x) => x,
                    None => {
                        return false;
                    },
                };
                let parent_id = match self.selected_id() {
                    Some(x) => x,
                    None => {
                        return false;
                    },
                };
                model.add_child(parent_id, node_id);
                self.invalidate_all();
                true
            },
            TreeAction::ExpandAll => {
                self.expand_all(model);
                true
            },
            TreeAction::CollapseAll => {
                self.collapse_all();
                true
            },
            _ => false,
        }
    }

    /// Interprets one action against the current visible list: selection
    /// and expansion moves are handled here; edit and application actions
    /// are forwarded.
    fn handle_action_inner<M: TreeModel, C>(&mut self, model: &M, action: TreeAction<C>) -> (r:
        TreeEvent<C>)
        requires
            rank_ok(model),
            depth_ok(model),
        ensures
            final(self)@ == spec_dispatch::<M, C>(model, old(self)@, action).0,
            r == spec_dispatch::<M, C>(model, old(self)@, action).1,
    {
        if let TreeAction::Custom(_) = &action {
            return TreeEvent::Action(action);
        }
        if self.visible_nodes.len() == 0 {
            return TreeEvent::Unhandled;
        }
        match action {
            TreeAction::SelectPrev => {
                self.select_prev();
                TreeEvent::Handled
            },
            TreeAction::SelectNext => {
                self.select_next();
                TreeEvent::Handled
            },
            TreeAction::SelectParent => {
                self.select_parent();
                TreeEvent::Handled
            },
            TreeAction::SelectChild => {
                self.select_child_with_descendants(model);
                TreeEvent::Handled
            },
            TreeAction::ToggleRecursive => {
                let sel = match self.selected {
                    Some(s) => s,
                    None => {
                        return TreeEvent::Unhandled;
                    },
                };
                if sel < self.visible_nodes.len() && self.visible_nodes[sel].has_children {
                    let node_id = self.visible_nodes[sel].id;
                    let node_parent = self.visible_nodes[sel].parent;
                    let should_expand = !self.expanded.contains((node_parent, node_id));
                    self.set_expanded_recursive(model, node_id, node_parent, should_expand);
                    self.dirty = true;
                    TreeEvent::Handled
                } else {
                    TreeEvent::Unhandled
                }
            },
            TreeAction::ToggleNode => {
                let sel = match self.selected {
                    Some(s) => s,
                    None => {
                        return TreeEvent::Unhandled;
                    },
                };
                if sel < self.visible_nodes.len() && self.visible_nodes[sel].has_children {
                    let node_id = self.visible_nodes[sel].id;
                    let node_parent = self.visible_nodes[sel].parent;
                    self.toggle(node_id, node_parent);
                    TreeEvent::Handled
                } else {
                    TreeEvent::Unhandled
                }
            },
            TreeAction::ExpandAll => {
                self.expand_all(model);
                TreeEvent::Handled
            },
            TreeAction::CollapseAll => {
                self.collapse_all();
                TreeEvent::Handled
            },
            TreeAction::ToggleGuides => {
                self.draw_lines = !self.draw_lines;
                TreeEvent::Handled
            },
            TreeAction::ToggleMark => {
                let node_id = match self.selected_id() {
                    Some(id) => id,
                    None => {
                        return TreeEvent::Unhandled;
                    },
                };
                self.toggle_node_mark(node_id);
                TreeEvent::Handled
            },
            TreeAction::SelectFirst => {
                self.select_first();
                TreeEvent::Handled
            },
            TreeAction::SelectLast => {
                self.select_last();
                TreeEvent::Handled
            },
            other => TreeEvent::Action(other),
        }
    }

    /// Ensures the visible node list is up to date (if marked dirty). While
    /// the flag is clear the call does nothing at all, so two consecutive
    /// queries without intervening mutation see the identical list.
    pub fn ensure_visible_nodes<M: TreeModel>(&mut self, model: &M)
        requires
            rank_ok(model),
            depth_ok(model),
        ensures
            old(self)@.dirty ==> final(self)@ == spec_recomputed(
                old(self)@,
                spec_rows(model, old(self)@.expanded),
            ),
            !old(self)@.dirty ==> *final(self) == *old(self),
            !final(self)@.dirty,
    {
        if !self.dirty {
            return;
        }
        self.update_visible_nodes(model);
    }

    /// Rebuilds the visible rows from the model and the expansion set,
    /// clears the row-dirty flag, and clamps the selection to the new list.
    fn update_visible_nodes<M: TreeModel>(&mut self, model: &M)
        requires
            rank_ok(model),
            depth_ok(model),
        ensures
            final(self)@ == spec_recomputed(old(self)@, spec_rows(model, old(self)@.expanded)),
    {
        self.visible_nodes.clear();
        proof {
            assert(rows_view(self.visible_nodes@) =~= Seq::<RowSpec>::empty());
        }
        if let Some(root) = model.root() {
            let mut is_tail_stack: Vec<bool> = Vec::new();
            self.build_visible_nodes(model, root, 0, None, &mut is_tail_stack);
            proof {
                assert(Seq::<RowSpec>::empty() + spec_rows(model, self@.expanded)
                    =~= spec_rows(model, self@.expanded));
            }
        }
        self.dirty = false;
        self.clamp_selection();
    }

    /// Appends the rows of one subtree: the node's own row, then, if its
    /// edge is expanded, each child subtree in order.
    fn build_visible_nodes<M: TreeModel>(
        &mut self,
        model: &M,
        node_id: usize,
        level: u16,
        parent: Option<usize>,
        is_tail_stack: &mut Vec<bool>,
    )
        requires
            rank_ok(model),
            level + model.spec_rank(node_id) <= u16::MAX,
        ensures
            final(self)@ == (StateView {
                rows: old(self)@.rows + spec_subtree_rows(
                    model,
                    old(self)@.expanded,
                    node_id,
                    level as nat,
                    parent,
                    old(is_tail_stack)@,
                ),
                ..old(self)@
            }),
            final(is_tail_stack)@ == old(is_tail_stack)@,
        decreases model.spec_rank(node_id),
    {
        let ghost pre = self@;
        let ghost tail0 = is_tail_stack@;
        let ghost ex = self@.expanded;
        let children = model.children(node_id);
        let has_children = children.len() > 0;
        let tail_copy = clone_bools(is_tail_stack);
        self.visible_nodes.push(
            VisibleNode { id: node_id, level, parent, has_children, is_tail_stack: tail_copy },
        );
        let ghost row = RowSpec {
            id: node_id,
            level: level as nat,
            parent,
            has_children,
            tail: tail0,
        };
        proof {
            assert(rows_view(self.visible_nodes@) =~= pre.rows + seq![row]);
        }
        let is_expanded = has_children && self.expanded.contains((parent, node_id));
        if !is_expanded {
            proof {
                assert(spec_subtree_rows(model, ex, node_id, level as nat, parent, tail0)
                    =~= seq![row]);
                assert(pre.rows + seq![row] =~= pre.rows + spec_subtree_rows(
                    model,
                    ex,
                    node_id,
                    level as nat,
                    parent,
                    tail0,
                ));
            }
            return;
        }
        let n = children.len();
        let mut i: usize = 0;
        proof {
            assert(spec_subtree_rows(model, ex, node_id, level as nat, parent, tail0)
                == seq![row] + spec_children_rows(model, ex, node_id, level as nat, tail0, 0));
        }
        while i < n
            invariant
                0 <= i <= n,
                n == model.spec_children(node_id).len(),
                children@ == model.spec_children(node_id),
                rank_ok(model),
                level + model.spec_rank(node_id) <= u16::MAX,
                is_tail_stack@ == tail0,
                ex == pre.expanded,
                self@ == (StateView { rows: self@.rows, ..pre }),
                pre.rows + seq![row] + spec_children_rows(model, ex, node_id, level as nat, tail0, 0)
                    == self@.rows + spec_children_rows(model, ex, node_id, level as nat, tail0, i as int),
            decreases n - i,
        {
            let child = children[i];
            let is_last = i == n - 1;
            proof {
                assert(model.spec_children(node_id)[i as int] == child);
                assert(model.spec_rank(child) < model.spec_rank(node_id));
            }
            is_tail_stack.push(is_last);
            self.build_visible_nodes(model, child, level + 1, Some(node_id), is_tail_stack);
            is_tail_stack.pop();
            proof {
                assert(is_tail_stack@ =~= tail0);
                assert(spec_children_rows(model, ex, node_id, level as nat, tail0, i as int)
                    == spec_subtree_rows(
                    model,
                    ex,
                    child,
                    (level + 1) as nat,
                    Some(node_id),
                    tail0.push(is_last),
                ) + spec_children_rows(model, ex, node_id, level as nat, tail0, i + 1));
                assert(pre.rows + seq![row] + spec_children_rows(
                    model,
                    ex,
                    node_id,
                    level as nat,
                    tail0,
                    0,
                ) =~= self@.rows + spec_children_rows(
                    model,
                    ex,
                    node_id,
                    level as nat,
                    tail0,
                    i + 1,
                ));
            }
            i = i + 1;
        }
        proof {
            assert(spec_children_rows(model, ex, node_id, level as nat, tail0, n as int)
                =~= Seq::<RowSpec>::empty());
            assert(self@.rows =~= self@.rows + Seq::<RowSpec>::empty());
            assert(self@.rows =~= pre.rows + spec_subtree_rows(
                model,
                ex,
                node_id,
                level as nat,
                parent,
                tail0,
            ));
        }
    }
    /// Ensures the visible node list is up to date with an active filter.
    /// With filtering disabled in the configuration this is the unfiltered
    /// recompute; while the row-dirty flag is clear the call does nothing.
    pub fn ensure_visible_nodes_filtered<M: TreeModel, F: TreeFilter<M>>(
        &mut self,
        model: &M,
        filter: &F,
        config: TreeFilterConfig,
    )
        requires
            rank_ok(model),
            depth_ok(model),
        ensures
            old(self)@.dirty && config.enabled ==> final(self)@ == spec_recomputed(
                old(self)@,
                spec_rows_filtered(model, filter, config.auto_expand, old(self)@.expanded),
            ),
            old(self)@.dirty && !config.enabled ==> final(self)@ == spec_recomputed(
                old(self)@,
                spec_rows(model, old(self)@.expanded),
            ),
            !old(self)@.dirty ==> *final(self) == *old(self),
            !final(self)@.dirty,
    {
        if !self.dirty {
            return;
        }
        if !config.enabled {
            self.update_visible_nodes(model);
            return;
        }
        self.visible_nodes.clear();
        proof {
            assert(rows_view(self.visible_nodes@) =~= Seq::<RowSpec>::empty());
        }
        if let Some(root) = model.root() {
            let mut is_tail_stack: Vec<bool> = Vec::new();
            let included = self.build_visible_nodes_filtered(
                model,
                root,
                0,
                None,
                &mut is_tail_stack,
                filter,
                config,
            );
            proof {
                if included {
                    assert(Seq::<RowSpec>::empty() + spec_rows_filtered(
                        model,
                        filter,
                        config.auto_expand,
                        self@.expanded,
                    ) =~= spec_rows_filtered(model, filter, config.auto_expand, self@.expanded));
                }
            }
        }
        self.dirty = false;
        self.clamp_selection();
    }

    /// Appends the rows of one subtree under the filter, if the subtree
    /// contains a match at all; returns whether it did. Descends when
    /// auto-expand is on or the edge is expanded, and only into children
    /// whose subtrees contain a match.
    fn build_visible_nodes_filtered<M: TreeModel, F: TreeFilter<M>>(
        &mut self,
        model: &M,
        node_id: usize,
        level: u16,
        parent: Option<usize>,
        is_tail_stack: &mut Vec<bool>,
        filter: &F,
        config: TreeFilterConfig,
    ) -> (included: bool)
        requires
            rank_ok(model),
            level + model.spec_rank(node_id) <= u16::MAX,
        ensures
            included == spec_subtree_match(model, filter, node_id),
            included ==> final(self)@ == (StateView {
                rows: old(self)@.rows + spec_filtered_subtree_rows(
                    model,
                    filter,
                    config.auto_expand,
                    old(self)@.expanded,
                    node_id,
                    level as nat,
                    parent,
                    old(is_tail_stack)@,
                ),
                ..old(self)@
            }),
            !included ==> final(self)@ == old(self)@,
            final(is_tail_stack)@ == old(is_tail_stack)@,
        decreases model.spec_rank(node_id),
    {
        let ghost pre = self@;
        let ghost tail0 = is_tail_stack@;
        let ghost ex = self@.expanded;
        let self_match = filter.is_match(model, node_id);
        let children = model.children(node_id);
        let has_children = children.len() > 0;
        let n = children.len();

        let mut visible_children: Vec<usize> = Vec::new();
        let mut i: usize = 0;
        while i < n
            invariant
                0 <= i <= n,
                n == model.spec_children(node_id).len(),
                children@ == model.spec_children(node_id),
                rank_ok(model),
                visible_children@ == spec_vis_children(
                    model,
                    filter,
                    model.spec_children(node_id).subrange(0, i as int),
                ),
            decreases n - i,
        {
            let child = children[i];
            proof {
                assert(model.spec_children(node_id)[i as int] == child);
                assert(model.spec_rank(child) < model.spec_rank(node_id));
                assert(model.spec_children(node_id).subrange(0, i + 1).drop_last()
                    =~= model.spec_children(node_id).subrange(0, i as int));
                assert(model.spec_children(node_id).subrange(0, i + 1).last() == child);
            }
            if subtree_has_match(model, child, filter) {
                visible_children.push(child);
            }
            i = i + 1;
        }
        proof {
            assert(model.spec_children(node_id).subrange(0, n as int)
                =~= model.spec_children(node_id));
        }
        let ghost vis = spec_vis_children(model, filter, model.spec_children(node_id));
        proof {
            lemma_vis_children_sub(model, filter, model.spec_children(node_id));
        }

        let include_self = self_match || visible_children.len() > 0;
        proof {
            if visible_children@.len() > 0 {
                let c = vis[0];
                assert(model.spec_children(node_id).contains(c));
                let j = choose|j: int|
                    0 <= j < model.spec_children(node_id).len() && model.spec_children(node_id)[j]
                        == c;
                assert(spec_subtree_match(model, filter, model.spec_children(node_id)[j]));
            }
            if !include_self {
                assert forall|j: int|
                    0 <= j < model.spec_children(node_id).len() implies !spec_subtree_match(
                    model,
                    filter,
                    #[trigger] model.spec_children(node_id)[j],
                ) by {
                    if spec_subtree_match(model, filter, model.spec_children(node_id)[j]) {
                        assert(model.spec_children(node_id).contains(
                            model.spec_children(node_id)[j],
                        ));
                        assert(vis.contains(model.spec_children(node_id)[j]));
                    }
                }
            }
        }
        if !include_self {
            return false;
        }

        let tail_copy = clone_bools(is_tail_stack);
        self.visible_nodes.push(
            VisibleNode { id: node_id, level, parent, has_children, is_tail_stack: tail_copy },
        );
        let ghost row = RowSpec {
            id: node_id,
            level: level as nat,
            parent,
            has_children,
            tail: tail0,
        };
        proof {
            assert(rows_view(self.visible_nodes@) =~= pre.rows + seq![row]);
        }

        let expand_children = config.auto_expand || self.expanded.contains((parent, node_id));
        if !(expand_children && visible_children.len() > 0) {
            proof {
                assert(spec_filtered_subtree_rows(
                    model,
                    filter,
                    config.auto_expand,
                    ex,
                    node_id,
                    level as nat,
                    parent,
                    tail0,
                ) =~= seq![row]);
                assert(pre.rows + seq![row] =~= pre.rows + spec_filtered_subtree_rows(
                    model,
                    filter,
                    config.auto_expand,
                    ex,
                    node_id,
                    level as nat,
                    parent,
                    tail0,
                ));
            }
            return true;
        }

        let vn = visible_children.len();
        let last_idx = vn - 1;
        let mut k: usize = 0;
        proof {
            assert(spec_filtered_subtree_rows(
                model,
                filter,
                config.auto_expand,
                ex,
                node_id,
                level as nat,
                parent,
                tail0,
            ) == seq![row] + spec_filtered_children_rows(
                model,
                filter,
                config.auto_expand,
                ex,
                node_id,
                level as nat,
                tail0,
                vis,
            ));
            assert(vis.subrange(0, vn as int) =~= vis);
        }
        while k < vn
            invariant
                0 <= k <= vn,
                vn == vis.len(),
                last_idx == vn - 1,
                visible_children@ == vis,
                rank_ok(model),
                level + model.spec_rank(node_id) <= u16::MAX,
                forall|j: int|
                    0 <= j < vis.len() ==> model.spec_children(node_id).contains(#[trigger] vis[j]),
                forall|j: int|
                    0 <= j < vis.len() ==> spec_subtree_match(model, filter, #[trigger] vis[j]),
                is_tail_stack@ == tail0,
                ex == pre.expanded,
                self@ == (StateView { rows: self@.rows, ..pre }),
                pre.rows + seq![row] + spec_filtered_children_rows(
                    model,
                    filter,
                    config.auto_expand,
                    ex,
                    node_id,
                    level as nat,
                    tail0,
                    vis,
                ) == self@.rows + spec_filtered_children_rows(
                    model,
                    filter,
                    config.auto_expand,
                    ex,
                    node_id,
                    level as nat,
                    tail0,
                    vis.subrange(k as int, vis.len() as int),
                ),
            decreases vn - k,
        {
            let child = visible_children[k];
            let is_last = k == last_idx;
            proof {
                assert(vis[k as int] == child);
                assert(model.spec_children(node_id).contains(child));
                let j = choose|j: int|
                    0 <= j < model.spec_children(node_id).len() && model.spec_children(node_id)[j]
                        == child;
                assert(model.spec_rank(child) < model.spec_rank(node_id));
            }
            is_tail_stack.push(is_last);
            let ghost suffix = vis.subrange(k as int, vis.len() as int);
            proof {
                assert(suffix.len() == vn - k);
                assert(suffix[0] == child);
                assert((suffix.len() == 1) == is_last);
                assert(suffix.drop_first() =~= vis.subrange(k + 1, vis.len() as int));
                assert(forall|j: int|
                    0 <= j < suffix.len() ==> model.spec_children(node_id).contains(
                        #[trigger] suffix[j],
                    ));
                assert(spec_subtree_match(model, filter, child));
            }
            let inc = self.build_visible_nodes_filtered(
                model,
                child,
                level + 1,
                Some(node_id),
                is_tail_stack,
                filter,
                config,
            );
            is_tail_stack.pop();
            proof {
                assert(inc);
                assert(is_tail_stack@ =~= tail0);
                assert(spec_filtered_children_rows(
                    model,
                    filter,
                    config.auto_expand,
                    ex,
                    node_id,
                    level as nat,
                    tail0,
                    suffix,
                ) == spec_filtered_subtree_rows(
                    model,
                    filter,
                    config.auto_expand,
                    ex,
                    child,
                    (level + 1) as nat,
                    Some(node_id),
                    tail0.push(is_last),
                ) + spec_filtered_children_rows(
                    model,
                    filter,
                    config.auto_expand,
                    ex,
                    node_id,
                    level as nat,
                    tail0,
                    suffix.drop_first(),
                ));
                assert(pre.rows + seq![row] + spec_filtered_children_rows(
                    model,
                    filter,
                    config.auto_expand,
                    ex,
                    node_id,
                    level as nat,
                    tail0,
                    vis,
                ) =~= self@.rows + spec_filtered_children_rows(
                    model,
                    filter,
                    config.auto_expand,
                    ex,
                    node_id,
                    level as nat,
                    tail0,
                    vis.subrange(k + 1, vis.len() as int),
                ));
            }
            k = k + 1;
        }
        proof {
            assert(vis.subrange(vn as int, vis.len() as int) =~= Seq::<usize>::empty());
            assert(spec_filtered_children_rows(
                model,
                filter,
                config.auto_expand,
                ex,
                node_id,
                level as nat,
                tail0,
                Seq::<usize>::empty(),
            ) =~= Seq::<RowSpec>::empty());
            assert(self@.rows =~= self@.rows + Seq::<RowSpec>::empty());
            assert(self@.rows =~= pre.rows + spec_filtered_subtree_rows(
                model,
                filter,
                config.auto_expand,
                ex,
                node_id,
                level as nat,
                parent,
                tail0,
            ));
        }
        true
    }

    /// Recomputes effective marks for the current view (if marked dirty):
    /// every seed — visible row, root, manually marked node — whose subtree
    /// condition holds lands in the cache.
    pub fn ensure_mark_cache<M: TreeModel>(&mut self, model: &M)
        requires
            rank_ok(model),
        ensures
            old(self)@.marks_dirty ==> final(self)@ == (StateView {
                effective_marks: spec_mark_cache(model, old(self)@),
                marks_dirty: false,
                ..old(self)@
            }),
            !old(self)@.marks_dirty ==> *final(self) == *old(self),
            !final(self)@.marks_dirty,
    {
        if !self.marks_dirty {
            return;
        }
        let ghost pre = self@;
        let ghost marks = self@.manual_marks;
        let mut result = IdSet::new();

        // Seed from every visible row.
        let nrows = self.visible_nodes.len();
        let mut i: usize = 0;
        while i < nrows
            invariant
                0 <= i <= nrows,
                nrows == pre.rows.len(),
                self@ == pre,
                marks == pre.manual_marks,
                rank_ok(model),
                forall|x: usize| #[trigger] result@.contains(x)
                    <==> ((exists|j: int| 0 <= j < i && pre.rows[j].id == x) && spec_effective(
                        model,
                        marks,
                        x,
                    )),
            decreases nrows - i,
        {
            let id = self.visible_nodes[i].id;
            proof {
                assert(pre.rows[i as int].id == id);
            }
            if compute_effective_mark(&self.manual_marked, model, id) {
                result.insert(id);
            }
            i = i + 1;
        }

        let ghost after_rows = result@;
        // Seed from the root.
        if let Some(root) = model.root() {
            if compute_effective_mark(&self.manual_marked, model, root) {
                result.insert(root);
            }
        }
        let ghost after_root = result@;
        proof {
            assert(match model.spec_root() {
                Some(root) => after_root == (if spec_effective(model, marks, root) {
                    after_rows.insert(root)
                } else {
                    after_rows
                }),
                None => after_root == after_rows,
            });
        }

        // Seed from every manually marked node.
        let manual = self.manual_marked.to_vec();
        let nm = manual.len();
        let mut k: usize = 0;
        while k < nm
            invariant
                0 <= k <= nm,
                nm == manual@.len(),
                manual@.to_set() == pre.manual_marks,
                self@ == pre,
                marks == pre.manual_marks,
                rank_ok(model),
                forall|x: usize| #[trigger] result@.contains(x)
                    <==> ((after_root.contains(x) || (exists|j: int|
                        0 <= j < k && manual@[j] == x && spec_effective(model, marks, x)))),
            decreases nm - k,
        {
            let id = manual[k];
            if compute_effective_mark(&self.manual_marked, model, id) {
                result.insert(id);
            }
            k = k + 1;
        }

        proof {
            let ids = pre.rows.map_values(|r: RowSpec| r.id);
            assert forall|x: usize| result@.contains(x) implies spec_mark_cache(
                model,
                pre,
            ).contains(x) by {
                if after_root.contains(x) {
                    if after_rows.contains(x) {
                        let j = choose|j: int|
                            0 <= j < nrows && pre.rows[j].id == x;
                        assert(ids[j] == x);
                        assert(ids.contains(x));
                        assert(ids.to_set().contains(x));
                    } else {
                        assert(model.spec_root() == Some(x));
                        assert(spec_effective(model, marks, x));
                    }
                } else {
                    let j = choose|j: int|
                        0 <= j < nm && manual@[j] == x && spec_effective(model, marks, x);
                    assert(manual@.contains(x));
                    assert(pre.manual_marks.contains(x));
                }
            }
            assert forall|x: usize| spec_mark_cache(model, pre).contains(x) implies
                result@.contains(x) by {
                assert(spec_effective(model, marks, x));
                if ids.to_set().contains(x) {
                    assert(ids.contains(x));
                    let j = choose|j: int| 0 <= j < ids.len() && ids[j] == x;
                    assert(pre.rows[j].id == x);
                    assert(after_rows.contains(x));
                    assert(after_root.contains(x));
                } else if pre.manual_marks.contains(x) {
                    assert(manual@.contains(x));
                    let j = choose|j: int| 0 <= j < nm && manual@[j] == x;
                } else {
                    assert(model.spec_root() == Some(x));
                    assert(after_root.contains(x));
                }
            }
            assert(result@ =~= spec_mark_cache(model, pre));
        }
        self.effective_marked = result;
        self.marks_dirty = false;
    }

    /// Returns `true` if the node is effectively marked in the cache.
    pub fn node_is_marked(&self, node_id: usize) -> (r: bool)
        ensures
            r == self@.effective_marks.contains(node_id),
    {
        self.effective_marked.contains(node_id)
    }

    /// Flips the manual mark on a node and invalidates the mark cache.
    fn toggle_node_mark(&mut self, node_id: usize)
        ensures
            final(self)@ == (StateView {
                manual_marks: if old(self)@.manual_marks.contains(node_id) {
                    old(self)@.manual_marks.remove(node_id)
                } else {
                    old(self)@.manual_marks.insert(node_id)
                },
                marks_dirty: true,
                ..old(self)@
            }),
    {
        if self.manual_marked.contains(node_id) {
            self.manual_marked.remove(node_id);
        } else {
            self.manual_marked.insert(node_id);
        }
        self.marks_dirty = true;
    }

    /// Removes marks that refer to nodes no longer in the model, and
    /// invalidates the mark cache.
    pub fn prune_removed_marks<M: TreeModel>(&mut self, model: &M)
        ensures
            final(self)@ == (StateView {
                manual_marks: Set::new(
                    |id: usize|
                        old(self)@.manual_marks.contains(id) && model.spec_contains(id),
                ),
                effective_marks: Set::new(
                    |id: usize|
                        old(self)@.effective_marks.contains(id) && model.spec_contains(id),
                ),
                marks_dirty: true,
                ..old(self)@
            }),
    {
        let manual = retain_contained(&self.manual_marked, model);
        let effective = retain_contained(&self.effective_marked, model);
        self.manual_marked = manual;
        self.effective_marked = effective;
        self.marks_dirty = true;
    }
}

/// The ids of a set that still exist in the model.
fn retain_contained<M: TreeModel>(ids: &IdSet, model: &M) -> (r: IdSet)
    ensures
        r@ == Set::new(|id: usize| ids@.contains(id) && model.spec_contains(id)),
{
    let vec = ids.to_vec();
    let n = vec.len();
    let mut r = IdSet::new();
    let mut i: usize = 0;
    while i < n
        invariant
            0 <= i <= n,
            n == vec@.len(),
            vec@.to_set() == ids@,
            forall|x: usize| #[trigger] r@.contains(x)
                <==> ((exists|j: int| 0 <= j < i && vec@[j] == x) && model.spec_contains(x)),
        decreases n - i,
    {
        let id = vec[i];
        if model.contains(id) {
            r.insert(id);
        }
        i = i + 1;
    }
    proof {
        assert forall|x: usize| r@.contains(x) implies (ids@.contains(x)
            && model.spec_contains(x)) by {
            let j = choose|j: int| 0 <= j < n && vec@[j] == x;
            assert(vec@.contains(x));
        }
        assert forall|x: usize| ids@.contains(x) && model.spec_contains(x) implies r@.contains(
            x,
        ) by {
            assert(vec@.contains(x));
            let j = choose|j: int| 0 <= j < vec@.len() && vec@[j] == x;
        }
        assert(r@ =~= Set::new(|id: usize| ids@.contains(id) && model.spec_contains(id)));
    }
    r
}

/// Whether a node is effectively marked: manually marked, or a parent all of
/// whose children are effectively marked.
fn compute_effective_mark<M: TreeModel>(marks: &IdSet, model: &M, node_id: usize) -> (r: bool)
    requires
        rank_ok(model),
    ensures
        r == spec_effective(model, marks@, node_id),
    decreases model.spec_rank(node_id),
{
    if marks.contains(node_id) {
        return true;
    }
    let children = model.children(node_id);
    let n = children.len();
    if n == 0 {
        return false;
    }
    let mut i: usize = 0;
    while i < n
        invariant
            0 <= i <= n,
            n == model.spec_children(node_id).len(),
            children@ == model.spec_children(node_id),
            rank_ok(model),
            !marks@.contains(node_id),
            n > 0,
            forall|j: int|
                0 <= j < i ==> spec_effective(
                    model,
                    marks@,
                    #[trigger] model.spec_children(node_id)[j],
                ),
        decreases n - i,
    {
        let child = children[i];
        proof {
            assert(model.spec_children(node_id)[i as int] == child);
            assert(model.spec_rank(child) < model.spec_rank(node_id));
        }
        if !compute_effective_mark(marks, model, child) {
            return false;
        }
        i = i + 1;
    }
    true
}

/// Depth-first search for the path of edges leading to `target`. On
/// success the path is appended to `path`; on failure `path` is left as it
/// was.
fn dfs_find_path<M: TreeModel>(
    model: &M,
    node: usize,
    parent: Option<usize>,
    target: usize,
    path: &mut Vec<Edge>,
) -> (r: bool)
    requires
        rank_ok(model),
    ensures
        r == (spec_find_path(model, node, parent, target) is Some),
        r ==> final(path)@ == old(path)@ + spec_find_path(model, node, parent, target).unwrap(),
        !r ==> final(path)@ == old(path)@,
    decreases model.spec_rank(node),
{
    let ghost p0 = path@;
    path.push((parent, node));
    if node == target {
        proof {
            assert(p0.push((parent, node)) =~= p0 + seq![(parent, node)]);
        }
        return true;
    }
    let children = model.children(node);
    let n = children.len();
    let mut i: usize = 0;
    while i < n
        invariant
            0 <= i <= n,
            n == model.spec_children(node).len(),
            children@ == model.spec_children(node),
            rank_ok(model),
            node != target,
            p0 == old(path)@,
            path@ == p0.push((parent, node)),
            spec_find_path_from(model, node, target, 0) == spec_find_path_from(
                model,
                node,
                target,
                i as int,
            ),
        decreases n - i,
    {
        let child = children[i];
        proof {
            assert(model.spec_children(node)[i as int] == child);
            assert(model.spec_rank(child) < model.spec_rank(node));
        }
        if dfs_find_path(model, child, Some(node), target, path) {
            proof {
                let rest = spec_find_path(model, child, Some(node), target).unwrap();
                assert(spec_find_path_from(model, node, target, i as int) == Some(rest));
                assert(spec_find_path(model, node, parent, target) == Some(
                    seq![(parent, node)] + rest,
                ));
                assert(p0.push((parent, node)) + rest =~= p0 + (seq![(parent, node)] + rest));
            }
            return true;
        }
        i = i + 1;
    }
    path.pop();
    proof {
        assert(path@ =~= p0);
    }
    false
}

/// Whether the filter matches the node itself or anywhere in its subtree.
fn subtree_has_match<M: TreeModel, F: TreeFilter<M>>(model: &M, node_id: usize, filter: &F) -> (r:
    bool)
    requires
        rank_ok(model),
    ensures
        r == spec_subtree_match(model, filter, node_id),
    decreases model.spec_rank(node_id),
{
    if filter.is_match(model, node_id) {
        return true;
    }
    let children = model.children(node_id);
    let n = children.len();
    let mut i: usize = 0;
    while i < n
        invariant
            0 <= i <= n,
            n == model.spec_children(node_id).len(),
            children@ == model.spec_children(node_id),
            rank_ok(model),
            forall|j: int|
                0 <= j < i ==> !spec_subtree_match(
                    model,
                    filter,
                    #[trigger] model.spec_children(node_id)[j],
                ),
        decreases n - i,
    {
        let child = children[i];
        proof {
            assert(model.spec_children(node_id)[i as int] == child);
            assert(model.spec_rank(child) < model.spec_rank(node_id));
        }
        if subtree_has_match(model, child, filter) {
            return true;
        }
        i = i + 1;
    }
    false
}

/// Copies a stack of booleans.
fn clone_bools(v: &Vec<bool>) -> (r: Vec<bool>)
    ensures
        r@ == v@,
{
    let mut r: Vec<bool> = Vec::new();
    let mut i: usize = 0;
    while i < v.len()
        invariant
            0 <= i <= v@.len(),
            r@ == v@.subrange(0, i as int),
        decreases v@.len() - i,
    {
        r.push(v[i]);
        i = i + 1;
    }
    proof {
        assert(r@ =~= v@);
    }
    r
}

} // verus!
