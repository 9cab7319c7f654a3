use tree_list_view::{
    TreeAction, TreeEvent, TreeFilter, TreeFilterConfig, TreeListViewState, TreeModel,
};
use vstd::prelude::*;

struct TestTree {
    children: Vec<Vec<usize>>,
}

impl TestTree {
    fn new() -> Self {
        Self {
            children: vec![
                vec![1, 2], // 0
                vec![3, 4], // 1
                vec![],     // 2
                vec![],     // 3
                vec![],     // 4
            ],
        }
    }
}

impl TreeModel for TestTree {
    // Specification members; never called at run time.
    fn spec_root(&self) -> Option<usize> {
        panic!()
    }

    fn spec_children(&self, _id: usize) -> Seq<usize> {
        panic!()
    }

    fn spec_contains(&self, _id: usize) -> bool {
        panic!()
    }

    fn spec_rank(&self, _id: usize) -> nat {
        panic!()
    }

    fn root(&self) -> Option<usize> {
        Some(0)
    }

    fn children(&self, id: usize) -> &[usize] {
        &self.children[id]
    }

    fn contains(&self, id: usize) -> bool {
        id < self.children.len()
    }
}

struct EmptyTree;

impl TreeModel for EmptyTree {
    // Specification members; never called at run time.
    fn spec_root(&self) -> Option<usize> {
        panic!()
    }

    fn spec_children(&self, _id: usize) -> Seq<usize> {
        panic!()
    }

    fn spec_contains(&self, _id: usize) -> bool {
        panic!()
    }

    fn spec_rank(&self, _id: usize) -> nat {
        panic!()
    }

    fn root(&self) -> Option<usize> {
        None
    }

    fn children(&self, _id: usize) -> &[usize] {
        &[]
    }

    fn contains(&self, _id: usize) -> bool {
        false
    }
}

struct MatchId(usize);

impl TreeFilter<TestTree> for MatchId {
    // Specification member; never called at run time.
    fn spec_matches(&self, _model: &TestTree, _id: usize) -> bool {
        panic!()
    }

    fn is_match(&self, _model: &TestTree, id: usize) -> bool {
        id == self.0
    }
}

struct MatchNone;

impl TreeFilter<TestTree> for MatchNone {
    // Specification member; never called at run time.
    fn spec_matches(&self, _model: &TestTree, _id: usize) -> bool {
        panic!()
    }

    fn is_match(&self, _model: &TestTree, _id: usize) -> bool {
        false
    }
}

fn select_index(state: &mut TreeListViewState, idx: usize) {
    let mut snap = state.snapshot();
    snap.selected = Some(idx);
    state.restore(snap);
}

#[test]
fn builds_visible_nodes_with_expansion() {
    let tree = TestTree::new();
    let mut state = TreeListViewState::new();

    state.set_expanded(0, None, true);
    state.set_expanded(1, Some(0), true);
    state.ensure_visible_nodes(&tree);

    let ids: Vec<_> = state.visible_nodes().iter().map(|n| n.id).collect();
    let levels: Vec<_> = state.visible_nodes().iter().map(|n| n.level).collect();

    assert_eq!(ids, vec![0, 1, 3, 4, 2]);
    assert_eq!(levels, vec![0, 1, 2, 2, 1]);
}

#[test]
fn filtered_view_keeps_matching_path() {
    let tree = TestTree::new();
    let mut state = TreeListViewState::new();
    let filter = MatchId(4);

    state.ensure_visible_nodes_filtered(&tree, &filter, TreeFilterConfig::enabled());

    let ids: Vec<_> = state.visible_nodes().iter().map(|n| n.id).collect();
    assert_eq!(ids, vec![0, 1, 4]);
}

#[test]
fn select_prev_clears_selection_when_empty() {
    let mut state = TreeListViewState::new();
    select_index(&mut state, 0);

    state.select_prev();

    assert_eq!(state.selected(), None);
}

#[test]
fn filtered_view_without_matches_clears_selection() {
    let tree = TestTree::new();
    let mut state = TreeListViewState::new();
    let filter = MatchNone;

    select_index(&mut state, 0);
    state.ensure_visible_nodes_filtered(&tree, &filter, TreeFilterConfig::enabled());

    assert!(state.visible_nodes().is_empty());
    assert_eq!(state.selected(), None);
}

#[test]
fn expand_all_shows_every_node_once() {
    let tree = TestTree::new();
    let mut state = TreeListViewState::new();

    state.expand_all(&tree);
    state.ensure_visible_nodes(&tree);

    let mut ids: Vec<_> = state.visible_nodes().iter().map(|n| n.id).collect();
    assert_eq!(ids, vec![0, 1, 3, 4, 2]);
    ids.sort_unstable();
    ids.dedup();
    assert_eq!(ids, vec![0, 1, 2, 3, 4]);
}

#[test]
fn collapse_all_shows_only_the_root() {
    let tree = TestTree::new();
    let mut state = TreeListViewState::new();

    state.expand_all(&tree);
    state.ensure_visible_nodes(&tree);
    assert_eq!(state.visible_len(), 5);

    state.collapse_all();
    state.ensure_visible_nodes(&tree);

    let ids: Vec<_> = state.visible_nodes().iter().map(|n| n.id).collect();
    assert_eq!(ids, vec![0]);
}

#[test]
fn repeated_query_yields_identical_rows() {
    let tree = TestTree::new();
    let mut state = TreeListViewState::new();

    state.set_expanded(0, None, true);
    state.ensure_visible_nodes(&tree);
    let first: Vec<_> = state.visible_nodes().iter().map(|n| n.id).collect();

    // No intervening mutation: the second query must see the identical list.
    state.ensure_visible_nodes(&tree);
    let second: Vec<_> = state.visible_nodes().iter().map(|n| n.id).collect();

    assert_eq!(first, vec![0, 1, 2]);
    assert_eq!(first, second);
}

#[test]
fn filtered_rows_contain_match_and_ancestors_only() {
    let tree = TestTree::new();
    let mut state = TreeListViewState::new();
    let filter = MatchId(3);

    // Even with everything manually collapsed, auto-expand descends into the
    // matching path.
    state.collapse_all();
    state.ensure_visible_nodes_filtered(&tree, &filter, TreeFilterConfig::enabled());

    let ids: Vec<_> = state.visible_nodes().iter().map(|n| n.id).collect();
    assert_eq!(ids, vec![0, 1, 3]);
}

#[test]
fn filter_disabled_falls_back_to_plain_rows() {
    let tree = TestTree::new();
    let mut state = TreeListViewState::new();
    let filter = MatchId(4);

    state.ensure_visible_nodes_filtered(&tree, &filter, TreeFilterConfig::disabled());

    let ids: Vec<_> = state.visible_nodes().iter().map(|n| n.id).collect();
    assert_eq!(ids, vec![0]);
}

#[test]
fn selection_moves_and_clamps() {
    let tree = TestTree::new();
    let mut state = TreeListViewState::new();
    state.set_expanded(0, None, true);
    state.ensure_visible_nodes(&tree);
    // Rows: [0, 1, 2]

    state.select_first();
    assert_eq!(state.selected(), Some(0));
    assert_eq!(state.selected_id(), Some(0));

    state.select_next();
    assert_eq!(state.selected_id(), Some(1));
    assert_eq!(state.selected_level(), Some(1));
    assert_eq!(state.selected_parent_id(), Some(0));

    state.select_last();
    assert_eq!(state.selected_id(), Some(2));

    // At the last row, moving further stays put.
    state.select_next();
    assert_eq!(state.selected_id(), Some(2));

    state.select_prev();
    assert_eq!(state.selected_id(), Some(1));
}

#[test]
fn select_parent_jumps_to_parent_row() {
    let tree = TestTree::new();
    let mut state = TreeListViewState::new();
    state.set_expanded(0, None, true);
    state.set_expanded(1, Some(0), true);
    state.ensure_visible_nodes(&tree);
    // Rows: [0, 1, 3, 4, 2]

    select_index(&mut state, 3); // id 4
    state.ensure_visible_nodes(&tree);
    let event = state.handle_action(&tree, TreeAction::<()>::SelectParent);
    assert!(matches!(event, TreeEvent::Handled));
    assert_eq!(state.selected_id(), Some(1));
}

#[test]
fn select_child_expands_and_descends() {
    let tree = TestTree::new();
    let mut state = TreeListViewState::new();
    state.ensure_visible_nodes(&tree);
    // Rows: [0] (collapsed root).
    state.select_first();

    let event = state.handle_action(&tree, TreeAction::<()>::SelectChild);
    assert!(matches!(event, TreeEvent::Handled));
    // The root was expanded and the first expandable child selected.
    let ids: Vec<_> = state.visible_nodes().iter().map(|n| n.id).collect();
    assert_eq!(ids, vec![0, 1, 2]);
    assert_eq!(state.selected_id(), Some(1));
}

#[test]
fn toggle_node_expands_and_collapses() {
    let tree = TestTree::new();
    let mut state = TreeListViewState::new();
    state.ensure_visible_nodes(&tree);
    state.select_first();

    let event = state.handle_action(&tree, TreeAction::<()>::ToggleNode);
    assert!(matches!(event, TreeEvent::Handled));
    state.ensure_visible_nodes(&tree);
    assert_eq!(state.visible_len(), 3);

    let event = state.handle_action(&tree, TreeAction::<()>::ToggleNode);
    assert!(matches!(event, TreeEvent::Handled));
    state.ensure_visible_nodes(&tree);
    assert_eq!(state.visible_len(), 1);
}

#[test]
fn toggle_recursive_expands_whole_subtree() {
    let tree = TestTree::new();
    let mut state = TreeListViewState::new();
    state.ensure_visible_nodes(&tree);
    state.select_first();

    let event = state.handle_action(&tree, TreeAction::<()>::ToggleRecursive);
    assert!(matches!(event, TreeEvent::Handled));
    state.ensure_visible_nodes(&tree);

    let ids: Vec<_> = state.visible_nodes().iter().map(|n| n.id).collect();
    assert_eq!(ids, vec![0, 1, 3, 4, 2]);

    // Toggling again collapses the whole subtree.
    state.select_first();
    let event = state.handle_action(&tree, TreeAction::<()>::ToggleRecursive);
    assert!(matches!(event, TreeEvent::Handled));
    state.ensure_visible_nodes(&tree);
    assert_eq!(state.visible_len(), 1);
}

#[test]
fn custom_actions_are_forwarded_unexamined() {
    let tree = TestTree::new();
    let mut state = TreeListViewState::new();
    let event = state.handle_action(&tree, TreeAction::Custom(42u32));
    assert!(matches!(event, TreeEvent::Action(TreeAction::Custom(42))));
}

#[test]
fn actions_on_empty_view_are_unhandled() {
    let empty = EmptyTree;
    let mut state = TreeListViewState::new();
    let event = state.handle_action(&empty, TreeAction::<()>::SelectNext);
    assert!(matches!(event, TreeEvent::Unhandled));
}

#[test]
fn snapshot_round_trips_state() {
    let tree = TestTree::new();
    let mut state = TreeListViewState::new();
    state.set_expanded(0, None, true);
    state.ensure_visible_nodes(&tree);
    state.select_last();
    state.set_draw_lines(false);
    state.scroll_down_by(2);

    let snap = state.snapshot();
    let mut restored = TreeListViewState::new();
    restored.restore(snap.clone());
    let snap2 = restored.snapshot();

    assert_eq!(snap.selected, snap2.selected);
    assert_eq!(snap.selected_column, snap2.selected_column);
    assert_eq!(snap.offset, snap2.offset);
    assert_eq!(snap.draw_lines, snap2.draw_lines);
    let mut a = snap.expanded.clone();
    let mut b = snap2.expanded.clone();
    a.sort_unstable();
    b.sort_unstable();
    assert_eq!(a, b);

    // The restored state recomputes the same rows on the next query.
    restored.ensure_visible_nodes(&tree);
    let ids: Vec<_> = restored.visible_nodes().iter().map(|n| n.id).collect();
    assert_eq!(ids, vec![0, 1, 2]);
}

#[test]
fn ensure_selection_visible_scrolls_minimally() {
    let tree = TestTree::new();
    let mut state = TreeListViewState::new();
    state.expand_all(&tree);
    state.ensure_visible_nodes(&tree);
    // Rows: [0, 1, 3, 4, 2], viewport of 2.

    select_index(&mut state, 4);
    state.ensure_visible_nodes(&tree);
    state.ensure_selection_visible(2);
    assert_eq!(state.offset(), 3);

    // Selection above the viewport scrolls up to it exactly.
    select_index(&mut state, 1);
    state.ensure_visible_nodes(&tree);
    state.ensure_selection_visible(2);
    assert_eq!(state.offset(), 1);

    // Selection already inside the viewport leaves the offset alone.
    select_index(&mut state, 2);
    state.ensure_visible_nodes(&tree);
    state.ensure_selection_visible(2);
    assert_eq!(state.offset(), 1);
}

#[test]
fn select_by_id_expands_ancestors() {
    let tree = TestTree::new();
    let mut state = TreeListViewState::new();
    state.ensure_visible_nodes(&tree);
    assert_eq!(state.visible_len(), 1);

    assert!(state.select_by_id(&tree, 4));
    let ids: Vec<_> = state.visible_nodes().iter().map(|n| n.id).collect();
    assert_eq!(ids, vec![0, 1, 3, 4, 2]);
    assert_eq!(state.selected_id(), Some(4));

    // A node that is not in the tree is not found.
    assert!(!state.select_by_id(&tree, 99));
    assert!(state.ensure_visible_id(&tree, 3));
    assert!(!state.ensure_visible_id(&tree, 99));
}

#[test]
fn key_events_drive_the_engine() {
    let tree = TestTree::new();
    let mut state = TreeListViewState::new();
    state.set_expanded(0, None, true);
    state.ensure_visible_nodes(&tree);
    state.select_first();

    let down = tree_list_view::TreeKey {
        code: tree_list_view::TreeKeyCode::Char('j'),
        shift: false,
    };
    let event = state.handle_key(&tree, down);
    assert!(matches!(event, TreeEvent::Handled));
    assert_eq!(state.selected_id(), Some(1));

    let collapse_all = tree_list_view::TreeKey {
        code: tree_list_view::TreeKeyCode::Char('C'),
        shift: false,
    };
    let event = state.handle_key(&tree, collapse_all);
    assert!(matches!(event, TreeEvent::Handled));
    state.ensure_visible_nodes(&tree);
    assert_eq!(state.visible_len(), 1);

    let unbound = tree_list_view::TreeKey {
        code: tree_list_view::TreeKeyCode::Other,
        shift: false,
    };
    let event = state.handle_key(&tree, unbound);
    assert!(matches!(event, TreeEvent::Unhandled));
}

#[test]
fn filtered_key_handling_recomputes_first() {
    let tree = TestTree::new();
    let mut state = TreeListViewState::new();
    let filter = MatchId(4);

    let down = tree_list_view::TreeKey {
        code: tree_list_view::TreeKeyCode::Down,
        shift: false,
    };
    let event =
        state.handle_key_filtered(&tree, &filter, TreeFilterConfig::enabled(), down);
    assert!(matches!(event, TreeEvent::Handled));
    // The filtered rows [0, 1, 4] were computed before the move.
    assert_eq!(state.visible_len(), 3);
    assert_eq!(state.selected_id(), Some(1));
}

#[test]
fn center_on_select_clamps_to_scroll_range() {
    let tree = TestTree::new();
    let mut state = TreeListViewState::new();
    state.expand_all(&tree);
    state.ensure_visible_nodes(&tree);
    // Rows: [0, 1, 3, 4, 2], viewport of 3.

    select_index(&mut state, 4);
    state.ensure_visible_nodes(&tree);
    state.ensure_selection_visible_with_policy(3, tree_list_view::TreeScrollPolicy::CenterOnSelect);
    // Centering the last row would overshoot: clamp to total - height.
    assert_eq!(state.offset(), 2);

    select_index(&mut state, 0);
    state.ensure_visible_nodes(&tree);
    state.ensure_selection_visible_with_policy(3, tree_list_view::TreeScrollPolicy::CenterOnSelect);
    assert_eq!(state.offset(), 0);
}

#[test]
fn toggle_guides_flips_the_display_flag() {
    let tree = TestTree::new();
    let mut state = TreeListViewState::new();
    state.ensure_visible_nodes(&tree);
    assert!(state.draw_lines());
    let event = state.handle_action(&tree, TreeAction::<()>::ToggleGuides);
    assert!(matches!(event, TreeEvent::Handled));
    assert!(!state.draw_lines());
}
