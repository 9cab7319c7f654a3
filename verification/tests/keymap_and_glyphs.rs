use tree_list_view::{
    tree_label_segments, KeymapProfile, TreeAction, TreeGlyphs, TreeKey, TreeKeyBindings,
    TreeKeyCode, TreeLabelPrefix, TreeRowContext,
};

fn key(code: TreeKeyCode) -> TreeKey {
    TreeKey { code, shift: false }
}

fn shift_key(code: TreeKeyCode) -> TreeKey {
    TreeKey { code, shift: true }
}

#[test]
fn default_profile_binds_arrows_and_vi_keys() {
    let bindings = TreeKeyBindings::new();
    assert_eq!(bindings.profile(), KeymapProfile::Default);
    assert_eq!(
        bindings.resolve::<()>(key(TreeKeyCode::Up)),
        Some(TreeAction::SelectPrev)
    );
    assert_eq!(
        bindings.resolve::<()>(key(TreeKeyCode::Char('j'))),
        Some(TreeAction::SelectNext)
    );
    assert_eq!(
        bindings.resolve::<()>(key(TreeKeyCode::Char('h'))),
        Some(TreeAction::SelectParent)
    );
    assert_eq!(
        bindings.resolve::<()>(key(TreeKeyCode::Right)),
        Some(TreeAction::SelectChild)
    );
}

#[test]
fn vim_profile_binds_only_vi_keys() {
    let bindings = TreeKeyBindings::with_profile(KeymapProfile::Vim);
    assert_eq!(
        bindings.resolve::<()>(key(TreeKeyCode::Char('k'))),
        Some(TreeAction::SelectPrev)
    );
    // Arrow keys fall through to the common bindings, which do not bind them.
    assert_eq!(bindings.resolve::<()>(key(TreeKeyCode::Up)), None);
}

#[test]
fn arrows_profile_binds_only_arrows() {
    let mut bindings = TreeKeyBindings::new();
    bindings.set_profile(KeymapProfile::Arrows);
    assert_eq!(bindings.profile(), KeymapProfile::Arrows);
    assert_eq!(
        bindings.resolve::<()>(key(TreeKeyCode::Down)),
        Some(TreeAction::SelectNext)
    );
    // 'j' is not a navigation key here, and not a common binding either.
    assert_eq!(bindings.resolve::<()>(key(TreeKeyCode::Char('j'))), None);
}

#[test]
fn shift_bindings_take_priority() {
    let bindings = TreeKeyBindings::new();
    assert_eq!(
        bindings.resolve::<()>(shift_key(TreeKeyCode::Up)),
        Some(TreeAction::ReorderUp)
    );
    assert_eq!(
        bindings.resolve::<()>(shift_key(TreeKeyCode::Down)),
        Some(TreeAction::ReorderDown)
    );
    assert_eq!(
        bindings.resolve::<()>(shift_key(TreeKeyCode::Delete)),
        Some(TreeAction::DeleteNode)
    );
    // Without shift, delete detaches instead.
    assert_eq!(
        bindings.resolve::<()>(key(TreeKeyCode::Delete)),
        Some(TreeAction::DetachNode)
    );
}

#[test]
fn common_bindings_resolve() {
    let bindings = TreeKeyBindings::new();
    assert_eq!(
        bindings.resolve::<()>(key(TreeKeyCode::Char(' '))),
        Some(TreeAction::ToggleRecursive)
    );
    assert_eq!(
        bindings.resolve::<()>(key(TreeKeyCode::Enter)),
        Some(TreeAction::ToggleNode)
    );
    assert_eq!(
        bindings.resolve::<()>(key(TreeKeyCode::Char('E'))),
        Some(TreeAction::ExpandAll)
    );
    assert_eq!(
        bindings.resolve::<()>(key(TreeKeyCode::Char('C'))),
        Some(TreeAction::CollapseAll)
    );
    assert_eq!(
        bindings.resolve::<()>(key(TreeKeyCode::Char('a'))),
        Some(TreeAction::AddChild)
    );
    assert_eq!(
        bindings.resolve::<()>(key(TreeKeyCode::Char('+'))),
        Some(TreeAction::AddChild)
    );
    assert_eq!(
        bindings.resolve::<()>(key(TreeKeyCode::Char('e'))),
        Some(TreeAction::EditNode)
    );
    assert_eq!(
        bindings.resolve::<()>(key(TreeKeyCode::Char('D'))),
        Some(TreeAction::DeleteNode)
    );
    assert_eq!(
        bindings.resolve::<()>(key(TreeKeyCode::Char('y'))),
        Some(TreeAction::YankNode)
    );
    assert_eq!(
        bindings.resolve::<()>(key(TreeKeyCode::Char('p'))),
        Some(TreeAction::PasteNode)
    );
    assert_eq!(
        bindings.resolve::<()>(key(TreeKeyCode::Char('g'))),
        Some(TreeAction::ToggleGuides)
    );
    assert_eq!(
        bindings.resolve::<()>(key(TreeKeyCode::Char('m'))),
        Some(TreeAction::ToggleMark)
    );
    assert_eq!(
        bindings.resolve::<()>(key(TreeKeyCode::Char('M'))),
        Some(TreeAction::ToggleMark)
    );
    assert_eq!(
        bindings.resolve::<()>(key(TreeKeyCode::Home)),
        Some(TreeAction::SelectFirst)
    );
    assert_eq!(
        bindings.resolve::<()>(key(TreeKeyCode::End)),
        Some(TreeAction::SelectLast)
    );
    assert_eq!(bindings.resolve::<()>(key(TreeKeyCode::Other)), None);
}

#[test]
fn custom_mapping_wins_over_bindings() {
    let bindings = TreeKeyBindings::new();
    let resolved = bindings.resolve_with(key(TreeKeyCode::Char('x')), |k: TreeKey| {
        if k.code == TreeKeyCode::Char('x') {
            Some(7u8)
        } else {
            None
        }
    });
    assert_eq!(resolved, Some(TreeAction::Custom(7u8)));

    let resolved = bindings.resolve_with(key(TreeKeyCode::Up), |_k: TreeKey| None::<u8>);
    assert_eq!(resolved, Some(TreeAction::SelectPrev));
}

#[test]
fn label_segments_draw_guides_for_a_tail_child() {
    let glyphs = TreeGlyphs::ascii();
    let ctx = TreeRowContext {
        level: 2,
        is_tail_stack: &[false, true],
        is_expanded: false,
        has_children: true,
        is_marked: false,
        draw_lines: true,
    };
    let parts = TreeLabelPrefix {
        name: "leafy",
        prefix: None,
    };
    let segs = tree_label_segments(&ctx, parts, &glyphs);
    let texts: Vec<&str> = segs.iter().map(|s| s.text).collect();
    // One guide per ancestor level, then the collapsed expander, then the
    // name.
    assert_eq!(texts, vec!["|  ", "`--", ">", " ", "leafy"]);
    assert!(segs[0].guide);
    assert!(segs[1].guide);
    assert!(!segs[2].guide);
}

#[test]
fn label_segments_at_root_use_no_guides() {
    let glyphs = TreeGlyphs::ascii();
    let ctx = TreeRowContext {
        level: 0,
        is_tail_stack: &[],
        is_expanded: true,
        has_children: true,
        is_marked: false,
        draw_lines: true,
    };
    let parts = TreeLabelPrefix {
        name: "root",
        prefix: Some("*"),
    };
    let segs = tree_label_segments(&ctx, parts, &glyphs);
    let texts: Vec<&str> = segs.iter().map(|s| s.text).collect();
    assert_eq!(texts, vec!["v", "*", " ", "root"]);
    assert!(segs.iter().all(|s| !s.guide));
}

#[test]
fn label_segments_without_lines_indent_with_spacers() {
    let glyphs = TreeGlyphs::unicode();
    let ctx = TreeRowContext {
        level: 2,
        is_tail_stack: &[true, true],
        is_expanded: false,
        has_children: false,
        is_marked: false,
        draw_lines: false,
    };
    let parts = TreeLabelPrefix {
        name: "node",
        prefix: None,
    };
    let segs = tree_label_segments(&ctx, parts, &glyphs);
    let texts: Vec<&str> = segs.iter().map(|s| s.text).collect();
    assert_eq!(texts, vec!["   ", "   ", "•", " ", "node"]);
}
