//! Key-binding resolution: maps a key code plus shift state to a tree action
//! under a selectable navigation profile. Shift-modified bindings take
//! priority over profile navigation bindings.

use vstd::prelude::*;

use crate::action::TreeAction;

verus! {

/// A key code, reduced to what the tree view binds.
#[derive(Clone, Copy, Debug, PartialEq, Eq)]
pub enum TreeKeyCode {
    /// The up arrow key.
    Up,
    /// The down arrow key.
    Down,
    /// The left arrow key.
    Left,
    /// The right arrow key.
    Right,
    /// The enter key.
    Enter,
    /// The delete key.
    Delete,
    /// The home key.
    Home,
    /// The end key.
    End,
    /// A character key.
    Char(char),
    /// Any other key; never bound.
    Other,
}

/// A key event: a key code and whether shift was held.
#[derive(Clone, Copy, Debug, PartialEq, Eq)]
pub struct TreeKey {
    /// The key code.
    pub code: TreeKeyCode,
    /// Whether the shift modifier was held.
    pub shift: bool,
}

/// Navigation key profiles.
#[derive(Clone, Copy, Debug, PartialEq, Eq)]
pub enum KeymapProfile {
    /// Arrow keys plus Vim-like alternatives.
    Default,
    /// Vim-only navigation (h/j/k/l).
    Vim,
    /// Arrow-only navigation.
    Arrows,
}

/// The shift-modified bindings, which take priority.
pub open spec fn spec_resolve_shift<C>(key: TreeKey) -> Option<TreeAction<C>> {
    match key.code {
        TreeKeyCode::Up => Some(TreeAction::ReorderUp),
        TreeKeyCode::Down => Some(TreeAction::ReorderDown),
        TreeKeyCode::Delete => Some(TreeAction::DeleteNode),
        _ => None,
    }
}

/// The navigation bindings of a profile.
pub open spec fn spec_resolve_nav<C>(profile: KeymapProfile, key: TreeKey) -> Option<
    TreeAction<C>,
> {
    match key.code {
        TreeKeyCode::Up => if profile != KeymapProfile::Vim {
            Some(TreeAction::SelectPrev)
        } else {
            None
        },
        TreeKeyCode::Down => if profile != KeymapProfile::Vim {
            Some(TreeAction::SelectNext)
        } else {
            None
        },
        TreeKeyCode::Left => if profile != KeymapProfile::Vim {
            Some(TreeAction::SelectParent)
        } else {
            None
        },
        TreeKeyCode::Right => if profile != KeymapProfile::Vim {
            Some(TreeAction::SelectChild)
        } else {
            None
        },
        TreeKeyCode::Char(c) => if profile != KeymapProfile::Arrows {
            if c == 'k' {
                Some(TreeAction::SelectPrev)
            } else if c == 'j' {
                Some(TreeAction::SelectNext)
            } else if c == 'h' {
                Some(TreeAction::SelectParent)
            } else if c == 'l' {
                Some(TreeAction::SelectChild)
            } else {
                None
            }
        } else {
            None
        },
        _ => None,
    }
}

/// The profile-independent bindings.
pub open spec fn spec_resolve_common<C>(key: TreeKey) -> Option<TreeAction<C>> {
    match key.code {
        TreeKeyCode::Enter => Some(TreeAction::ToggleNode),
        TreeKeyCode::Delete => Some(TreeAction::DetachNode),
        TreeKeyCode::Home => Some(TreeAction::SelectFirst),
        TreeKeyCode::End => Some(TreeAction::SelectLast),
        TreeKeyCode::Char(c) => if c == ' ' {
            Some(TreeAction::ToggleRecursive)
        } else if c == 'E' {
            Some(TreeAction::ExpandAll)
        } else if c == 'C' {
            Some(TreeAction::CollapseAll)
        } else if c == 'a' || c == '+' {
            Some(TreeAction::AddChild)
        } else if c == 'e' {
            Some(TreeAction::EditNode)
        } else if c == 'd' {
            Some(TreeAction::DetachNode)
        } else if c == 'D' {
            Some(TreeAction::DeleteNode)
        } else if c == 'y' {
            Some(TreeAction::YankNode)
        } else if c == 'p' {
            Some(TreeAction::PasteNode)
        } else if c == 'g' {
            Some(TreeAction::ToggleGuides)
        } else if c == 'm' || c == 'M' {
            Some(TreeAction::ToggleMark)
        } else {
            None
        },
        _ => None,
    }
}

/// The full resolution order: shift bindings, then the profile's navigation
/// bindings, then the common bindings.
pub open spec fn spec_resolve<C>(profile: KeymapProfile, key: TreeKey) -> Option<TreeAction<C>> {
    if key.shift && spec_resolve_shift::<C>(key) is Some {
        spec_resolve_shift(key)
    } else if spec_resolve_nav::<C>(profile, key) is Some {
        spec_resolve_nav(profile, key)
    } else {
        spec_resolve_common(key)
    }
}

/// Key bindings resolver for tree actions.
#[derive(Clone, Copy, Debug)]
pub struct TreeKeyBindings {
    profile: KeymapProfile,
}

impl Default for TreeKeyBindings {
    fn default() -> (r: Self)
        ensures
            r.spec_profile() == KeymapProfile::Default,
    {
        Self::new()
    }
}

impl TreeKeyBindings {
    /// The active profile (spec-level view).
    pub closed spec fn spec_profile(&self) -> KeymapProfile {
        self.profile
    }

    /// Creates bindings with the default profile.
    pub fn new() -> (r: Self)
        ensures
            r.spec_profile() == KeymapProfile::Default,
    {
        Self { profile: KeymapProfile::Default }
    }

    /// Creates bindings with a specific profile.
    pub fn with_profile(profile: KeymapProfile) -> (r: Self)
        ensures
            r.spec_profile() == profile,
    {
        Self { profile }
    }

    /// Returns the current keymap profile.
    pub fn profile(&self) -> (r: KeymapProfile)
        ensures
            r == self.spec_profile(),
    {
        self.profile
    }

    /// Sets the active keymap profile.
    pub fn set_profile(&mut self, profile: KeymapProfile)
        ensures
            final(self).spec_profile() == profile,
    {
        self.profile = profile;
    }

    /// Resolves a key event into a tree action.
    pub fn resolve<C>(&self, key: TreeKey) -> (r: Option<TreeAction<C>>)
        ensures
            r == spec_resolve::<C>(self.spec_profile(), key),
    {
        if key.shift {
            match key.code {
                TreeKeyCode::Up => {
                    return Some(TreeAction::ReorderUp);
                },
                TreeKeyCode::Down => {
                    return Some(TreeAction::ReorderDown);
                },
                TreeKeyCode::Delete => {
                    return Some(TreeAction::DeleteNode);
                },
                _ => {},
            }
        }
        let nav: Option<TreeAction<C>> = match self.profile {
            KeymapProfile::Default => Self::resolve_default_nav(key),
            KeymapProfile::Vim => Self::resolve_vim_nav(key),
            KeymapProfile::Arrows => Self::resolve_arrow_nav(key),
        };
        if let Some(action) = nav {
            return Some(action);
        }
        Self::resolve_common(key)
    }

    /// Resolves a key event with a custom mapping first: a key the custom
    /// mapping claims becomes a custom action; anything else resolves as
    /// usual.
    pub fn resolve_with<C, F: Fn(TreeKey) -> Option<C>>(&self, key: TreeKey, custom: F) -> (r:
        Option<TreeAction<C>>)
        requires
            call_requires(custom, (key,)),
        ensures
            (exists|c: C|
                call_ensures(custom, (key,), Some(c)) && r == Some(TreeAction::Custom(c))) || (
            call_ensures(custom, (key,), None::<C>) && r == spec_resolve::<C>(
                self.spec_profile(),
                key,
            )),
    {
        if let Some(action) = custom(key) {
            return Some(TreeAction::Custom(action));
        }
        self.resolve(key)
    }

    fn resolve_default_nav<C>(key: TreeKey) -> (r: Option<TreeAction<C>>)
        ensures
            r == spec_resolve_nav::<C>(KeymapProfile::Default, key),
    {
        match key.code {
            TreeKeyCode::Up => Some(TreeAction::SelectPrev),
            TreeKeyCode::Down => Some(TreeAction::SelectNext),
            TreeKeyCode::Left => Some(TreeAction::SelectParent),
            TreeKeyCode::Right => Some(TreeAction::SelectChild),
            TreeKeyCode::Char(c) => if c == 'k' {
                Some(TreeAction::SelectPrev)
            } else if c == 'j' {
                Some(TreeAction::SelectNext)
            } else if c == 'h' {
                Some(TreeAction::SelectParent)
            } else if c == 'l' {
                Some(TreeAction::SelectChild)
            } else {
                None
            },
            _ => None,
        }
    }

    fn resolve_vim_nav<C>(key: TreeKey) -> (r: Option<TreeAction<C>>)
        ensures
            r == spec_resolve_nav::<C>(KeymapProfile::Vim, key),
    {
        match key.code {
            TreeKeyCode::Char(c) => if c == 'k' {
                Some(TreeAction::SelectPrev)
            } else if c == 'j' {
                Some(TreeAction::SelectNext)
            } else if c == 'h' {
                Some(TreeAction::SelectParent)
            } else if c == 'l' {
                Some(TreeAction::SelectChild)
            } else {
                None
            },
            _ => None,
        }
    }

    fn resolve_arrow_nav<C>(key: TreeKey) -> (r: Option<TreeAction<C>>)
        ensures
            r == spec_resolve_nav::<C>(KeymapProfile::Arrows, key),
    {
        match key.code {
            TreeKeyCode::Up => Some(TreeAction::SelectPrev),
            TreeKeyCode::Down => Some(TreeAction::SelectNext),
            TreeKeyCode::Left => Some(TreeAction::SelectParent),
            TreeKeyCode::Right => Some(TreeAction::SelectChild),
            _ => None,
        }
    }

    fn resolve_common<C>(key: TreeKey) -> (r: Option<TreeAction<C>>)
        ensures
            r == spec_resolve_common::<C>(key),
    {
        match key.code {
            TreeKeyCode::Enter => Some(TreeAction::ToggleNode),
            TreeKeyCode::Delete => Some(TreeAction::DetachNode),
            TreeKeyCode::Home => Some(TreeAction::SelectFirst),
            TreeKeyCode::End => Some(TreeAction::SelectLast),
            TreeKeyCode::Char(c) => if c == ' ' {
                Some(TreeAction::ToggleRecursive)
            } else if c == 'E' {
                Some(TreeAction::ExpandAll)
            } else if c == 'C' {
                Some(TreeAction::CollapseAll)
            } else if c == 'a' || c == '+' {
                Some(TreeAction::AddChild)
            } else if c == 'e' {
                Some(TreeAction::EditNode)
            } else if c == 'd' {
                Some(TreeAction::DetachNode)
            } else if c == 'D' {
                Some(TreeAction::DeleteNode)
            } else if c == 'y' {
                Some(TreeAction::YankNode)
            } else if c == 'p' {
                Some(TreeAction::PasteNode)
            } else if c == 'g' {
                Some(TreeAction::ToggleGuides)
            } else if c == 'm' || c == 'M' {
                Some(TreeAction::ToggleMark)
            } else {
                None
            },
            _ => None,
        }
    }
}

} // verus!
