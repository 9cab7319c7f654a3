//! Scroll policy for keeping the selection visible.

use vstd::prelude::*;

verus! {

/// Scroll policy used to keep the selection visible.
#[derive(Clone, Copy, Debug, PartialEq, Eq)]
pub enum TreeScrollPolicy {
    /// Keep the selection visible; only scroll when it would leave the
    /// viewport.
    KeepInView,
    /// Keep the selection centered within the viewport.
    CenterOnSelect,
}

} // verus!
