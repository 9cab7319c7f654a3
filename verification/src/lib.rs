//! A tree list view engine: it flattens a caller-owned tree into an ordered
//! list of visible rows under an expansion set and an optional filter, keeps
//! that list coherent under mutation through dirty flags, propagates marks
//! bottom-up, resolves keys into actions, and executes structural edits.

mod action;
mod columns;
mod edit;
mod glyphs;
mod keymap;
mod laws;
mod model;
mod sets;
mod state;
mod style;
mod visible;

pub use action::{TreeAction, TreeEvent};
pub use columns::{
    distribute_widths, lemma_distribute_fills_total, spec_distribute, spec_width_sum, ColumnWidth,
};
pub use edit::{others_unchanged, same_model, TreeEdit};
pub use glyphs::{
    tree_label_segments, LabelSegment, TreeGlyphs, TreeLabelPrefix, TreeLabelProvider,
    TreeRowContext,
};
pub use keymap::{spec_resolve, KeymapProfile, TreeKey, TreeKeyBindings, TreeKeyCode};
pub use laws::{
    lemma_collapse_all_shows_root_only, lemma_expand_all_shows_every_node_once,
    lemma_filter_round_trip, lemma_filter_shows_matching_paths, lemma_mark_propagation, row_ids,
};
pub use model::{depth_ok, model_inv, rank_ok, true_tree, NoFilter, TreeFilter, TreeFilterConfig, TreeModel};
pub use sets::Edge;
pub use state::{
    spec_after_ensure, spec_after_ensure_filtered, spec_dispatch, spec_recomputed, StateView,
    TreeListViewSnapshot, TreeListViewState,
};
pub use style::TreeScrollPolicy;
pub use visible::{
    reachable, rows_view, spec_all_expanded, spec_effective, spec_rows, spec_rows_filtered,
    spec_sub_ids, spec_subtree_match, RowSpec, VisibleNode,
};
