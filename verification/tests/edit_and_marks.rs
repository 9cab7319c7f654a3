use tree_list_view::{TreeAction, TreeEdit, TreeListViewState, TreeModel};
use vstd::prelude::*;

/// A small editable arena tree: a node is alive while its entry is `Some`.
struct EditTree {
    root: Option<usize>,
    nodes: Vec<Option<Vec<usize>>>,
}

impl EditTree {
    fn new(root: usize, children: Vec<Vec<usize>>) -> Self {
        Self {
            root: Some(root),
            nodes: children.into_iter().map(Some).collect(),
        }
    }

    fn kids(&self, id: usize) -> &[usize] {
        match self.nodes.get(id) {
            Some(Some(kids)) => kids.as_slice(),
            _ => &[],
        }
    }

    fn position(&self, parent: usize, child: usize) -> Option<usize> {
        self.kids(parent).iter().position(|&c| c == child)
    }

    fn is_ancestor(&self, a: usize, b: usize) -> bool {
        a == b || self.kids(a).iter().any(|&c| self.is_ancestor(c, b))
    }
}

impl TreeModel for EditTree {
    // Specification members; never called at run time.
    fn spec_root(&self) -> Option<usize> {
        panic!()
    }

    fn spec_children(&self, _id: usize) -> Seq<usize> {
        panic!()
    }

    fn spec_contains(&self, _id: usize) -> bool {
        panic!()
    }

    fn spec_rank(&self, _id: usize) -> nat {
        panic!()
    }

    fn root(&self) -> Option<usize> {
        self.root
    }

    fn children(&self, id: usize) -> &[usize] {
        self.kids(id)
    }

    fn contains(&self, id: usize) -> bool {
        matches!(self.nodes.get(id), Some(Some(_)))
    }
}

impl TreeEdit for EditTree {
    fn is_root(&self, id: usize) -> bool {
        self.root == Some(id)
    }

    fn move_child_up(&mut self, parent: usize, child: usize) -> bool {
        if let Some(i) = self.position(parent, child) {
            if i > 0 {
                if let Some(Some(kids)) = self.nodes.get_mut(parent) {
                    kids.swap(i - 1, i);
                    return true;
                }
            }
        }
        false
    }

    fn move_child_down(&mut self, parent: usize, child: usize) -> bool {
        if let Some(i) = self.position(parent, child) {
            if i + 1 < self.kids(parent).len() {
                if let Some(Some(kids)) = self.nodes.get_mut(parent) {
                    kids.swap(i, i + 1);
                    return true;
                }
            }
        }
        false
    }

    fn remove_child(&mut self, parent: usize, child: usize) {
        if let Some(Some(kids)) = self.nodes.get_mut(parent) {
            kids.retain(|&c| c != child);
        }
    }

    fn delete_node(&mut self, id: usize) {
        for entry in self.nodes.iter_mut() {
            if let Some(kids) = entry {
                kids.retain(|&c| c != id);
            }
        }
        // Orphan policy: the node's own children stay, unattached.
        if let Some(entry) = self.nodes.get_mut(id) {
            *entry = None;
        }
    }

    fn add_child(&mut self, parent: usize, child: usize) {
        // Refuse an attachment that would create a cycle.
        if self.is_ancestor(child, parent) {
            return;
        }
        if let Some(Some(kids)) = self.nodes.get_mut(parent) {
            kids.push(child);
        }
    }
}

fn sample() -> EditTree {
    EditTree::new(0, vec![vec![1, 2, 3], vec![], vec![], vec![]])
}

fn marked_state(tree: &EditTree, marks: &[usize]) -> TreeListViewState {
    let mut state = TreeListViewState::new();
    state.expand_all(tree);
    state.ensure_visible_nodes(tree);
    let mut snap = state.snapshot();
    snap.manual_marked = marks.to_vec();
    state.restore(snap);
    state.ensure_visible_nodes(tree);
    state
}

#[test]
fn reorder_up_swaps_siblings_and_keeps_selection() {
    let mut tree = sample();
    let mut state = TreeListViewState::new();
    state.set_expanded(0, None, true);
    state.ensure_visible_nodes(&tree);
    // Rows: [0, 1, 2, 3]; select id 2.
    assert!(state.select_by_id(&tree, 2));

    let mut clipboard: Option<usize> = None;
    let handled = state.handle_edit_action(&mut tree, TreeAction::<()>::ReorderUp, &mut clipboard);

    assert!(handled);
    assert_eq!(tree.kids(0), &[2, 1, 3]);
    assert_eq!(state.selected_id(), Some(2));
}

#[test]
fn reorder_up_fails_at_the_boundary() {
    let mut tree = sample();
    let mut state = TreeListViewState::new();
    state.set_expanded(0, None, true);
    state.ensure_visible_nodes(&tree);
    assert!(state.select_by_id(&tree, 1));

    let mut clipboard: Option<usize> = None;
    let handled = state.handle_edit_action(&mut tree, TreeAction::<()>::ReorderUp, &mut clipboard);

    assert!(!handled);
    assert_eq!(tree.kids(0), &[1, 2, 3]);
}

#[test]
fn reorder_down_swaps_siblings() {
    let mut tree = sample();
    let mut state = TreeListViewState::new();
    state.set_expanded(0, None, true);
    state.ensure_visible_nodes(&tree);
    assert!(state.select_by_id(&tree, 2));

    let mut clipboard: Option<usize> = None;
    let handled =
        state.handle_edit_action(&mut tree, TreeAction::<()>::ReorderDown, &mut clipboard);

    assert!(handled);
    assert_eq!(tree.kids(0), &[1, 3, 2]);
    assert_eq!(state.selected_id(), Some(2));
}

#[test]
fn delete_removes_node_and_prunes_marks() {
    let mut tree = sample();
    let mut state = marked_state(&tree, &[2]);
    state.ensure_mark_cache(&tree);
    assert!(state.node_is_marked(2));
    assert!(state.select_by_id(&tree, 2));

    let mut clipboard: Option<usize> = None;
    let handled =
        state.handle_edit_action(&mut tree, TreeAction::<()>::DeleteNode, &mut clipboard);
    assert!(handled);

    // The node disappears from the next visible-row computation.
    state.ensure_visible_nodes(&tree);
    let ids: Vec<_> = state.visible_nodes().iter().map(|n| n.id).collect();
    assert_eq!(ids, vec![0, 1, 3]);

    // Any mark referencing it is pruned.
    state.ensure_mark_cache(&tree);
    assert!(!state.node_is_marked(2));
    assert!(!state.snapshot().manual_marked.contains(&2));
}

#[test]
fn delete_refuses_the_root() {
    let mut tree = sample();
    let mut state = TreeListViewState::new();
    state.ensure_visible_nodes(&tree);
    state.select_first();

    let mut clipboard: Option<usize> = None;
    let handled =
        state.handle_edit_action(&mut tree, TreeAction::<()>::DeleteNode, &mut clipboard);
    assert!(!handled);
    assert!(tree.contains(0));
}

#[test]
fn detach_orphans_node_without_deleting_it() {
    let mut tree = sample();
    let mut state = TreeListViewState::new();
    state.set_expanded(0, None, true);
    state.ensure_visible_nodes(&tree);
    assert!(state.select_by_id(&tree, 3));

    let mut clipboard: Option<usize> = None;
    let handled =
        state.handle_edit_action(&mut tree, TreeAction::<()>::DetachNode, &mut clipboard);
    assert!(handled);
    assert_eq!(tree.kids(0), &[1, 2]);
    // Detached, not deleted: the node still exists in the model.
    assert!(tree.contains(3));
}

#[test]
fn yank_then_paste_reattaches_the_node() {
    let mut tree = sample();
    let mut state = TreeListViewState::new();
    state.set_expanded(0, None, true);
    state.ensure_visible_nodes(&tree);
    let mut clipboard: Option<usize> = None;

    // Yank node 3, detach it, then paste it under node 1.
    assert!(state.select_by_id(&tree, 3));
    assert!(state.handle_edit_action(&mut tree, TreeAction::<()>::YankNode, &mut clipboard));
    assert_eq!(clipboard, Some(3));
    assert!(state.handle_edit_action(&mut tree, TreeAction::<()>::DetachNode, &mut clipboard));

    assert!(state.select_by_id(&tree, 1));
    assert!(state.handle_edit_action(&mut tree, TreeAction::<()>::PasteNode, &mut clipboard));
    assert_eq!(tree.kids(1), &[3]);
    // The clipboard is left populated: repeat-paste is allowed.
    assert_eq!(clipboard, Some(3));
}

#[test]
fn paste_refuses_a_cycle() {
    let mut tree = sample();
    let mut state = TreeListViewState::new();
    state.set_expanded(0, None, true);
    state.ensure_visible_nodes(&tree);
    let mut clipboard: Option<usize> = Some(0);

    // Pasting the root under its own descendant must leave the tree intact.
    assert!(state.select_by_id(&tree, 1));
    let handled = state.handle_edit_action(&mut tree, TreeAction::<()>::PasteNode, &mut clipboard);
    assert!(handled);
    assert_eq!(tree.kids(1), &[] as &[usize]);
    assert_eq!(tree.kids(0), &[1, 2, 3]);
}

#[test]
fn yank_refuses_the_root() {
    let mut tree = sample();
    let mut state = TreeListViewState::new();
    state.ensure_visible_nodes(&tree);
    state.select_first();
    let mut clipboard: Option<usize> = None;
    let handled = state.handle_edit_action(&mut tree, TreeAction::<()>::YankNode, &mut clipboard);
    assert!(!handled);
    assert_eq!(clipboard, None);
}

#[test]
fn leaf_is_marked_only_by_hand() {
    let tree = EditTree::new(0, vec![vec![1, 2], vec![], vec![]]);
    let mut state = marked_state(&tree, &[1]);
    state.ensure_mark_cache(&tree);

    assert!(state.node_is_marked(1));
    assert!(!state.node_is_marked(2));
    // The parent is not effectively marked while one child is unmarked.
    assert!(!state.node_is_marked(0));
}

#[test]
fn parent_marked_when_all_children_marked() {
    let tree = EditTree::new(0, vec![vec![1, 2], vec![], vec![]]);
    let mut state = marked_state(&tree, &[1, 2]);
    state.ensure_mark_cache(&tree);

    assert!(state.node_is_marked(1));
    assert!(state.node_is_marked(2));
    assert!(state.node_is_marked(0));
}

#[test]
fn parent_marked_by_hand_without_children_marked() {
    let tree = EditTree::new(0, vec![vec![1, 2], vec![], vec![]]);
    let mut state = marked_state(&tree, &[0]);
    state.ensure_mark_cache(&tree);

    assert!(state.node_is_marked(0));
    assert!(!state.node_is_marked(1));
    assert!(!state.node_is_marked(2));
}

#[test]
fn toggle_mark_flips_and_invalidates() {
    let tree = EditTree::new(0, vec![vec![1, 2], vec![], vec![]]);
    let mut state = TreeListViewState::new();
    state.expand_all(&tree);
    state.ensure_visible_nodes(&tree);
    assert!(state.select_by_id(&tree, 1));

    let event = state.handle_action(&tree, TreeAction::<()>::ToggleMark);
    assert!(matches!(event, tree_list_view::TreeEvent::Handled));
    state.ensure_mark_cache(&tree);
    assert!(state.node_is_marked(1));

    let event = state.handle_action(&tree, TreeAction::<()>::ToggleMark);
    assert!(matches!(event, tree_list_view::TreeEvent::Handled));
    state.ensure_mark_cache(&tree);
    assert!(!state.node_is_marked(1));
}
