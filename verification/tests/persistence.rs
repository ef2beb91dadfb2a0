use grimdock::persistence::{
    LegacyPersistedPanelTree, PANEL_TREE_FORMAT_VERSION, PersistError, PersistedNode, PersistedPanelTree,
    PersistedPanelTreeFile,
};
use grimdock::{
    ChildSide, DropPolicy, HeaderVisibility, Node, PaneBuilder, PaneId, PaneOptions, PaneRole, PaneStyleOverride,
    PanelTree, SplitDir, Tab, TabDropPolicy, TabStyleOverride,
};

fn sample_tree() -> PanelTree<&'static str> {
    let mut options = PaneOptions::default();
    options.header_visibility = HeaderVisibility::WhenMultipleTabs;
    options.drop_policy = DropPolicy::merge_only();
    options.style_override = Some(PaneStyleOverride {
        header_bg: Some(egui::Color32::from_rgb(1, 2, 3)),
        content_bg: None,
        border_color: None,
        accent_color: None,
        content_inset: None,
    });

    let mut tree = PanelTree::from_pane(
        PaneBuilder::new(Tab::new("A", "a").with_style_override(TabStyleOverride {
            active_bg: Some(egui::Color32::from_rgb(4, 5, 6)),
            inactive_bg: None,
            hovered_bg: None,
            text_color: None,
            accent_color: None,
            icon_color: None,
            max_width: Some(120.0f32.to_bits()),
        }))
        .push_tab(Tab::new("B", "b"))
        .with_options(options),
    );
    tree.split_leaf(0, SplitDir::Horizontal, Tab::new("C", "c"), ChildSide::Second);
    tree
}

#[test]
fn persisted_round_trip_restores_tree() {
    let tree = sample_tree();
    let persisted = tree.to_persisted();
    let restored = PanelTree::from_persisted(persisted).expect("persistence should round-trip");

    assert_eq!(restored.next_pane_id, tree.next_pane_id);
    assert_eq!(restored.nodes.len(), tree.nodes.len());
    assert_eq!(restored.find_pane_containing(&"a"), tree.find_pane_containing(&"a"));
    assert_eq!(restored.find_pane_containing(&"c"), tree.find_pane_containing(&"c"));
}

#[test]
fn persisted_validation_rejects_invalid_focus() {
    let mut layout = sample_tree().to_persisted();
    layout.nodes[1] = PersistedNode::Leaf {
        pane: PaneId::from_raw(1),
        tabs: vec![Tab::new("A", "a")],
        focused: 3,
        options: PaneOptions::default(),
        collapsed: false,
    };

    let err = layout.validate().expect_err("layout should be invalid");
    assert!(matches!(err, PersistError::FocusOutOfRange { .. }));
}

#[test]
fn legacy_layout_migrates_to_current_format() {
    let legacy = LegacyPersistedPanelTree::from(&sample_tree());
    let migrated = PersistedPanelTreeFile::Legacy(legacy).migrate().expect("legacy layout should migrate");

    assert_eq!(migrated.version, PANEL_TREE_FORMAT_VERSION);
    assert!(migrated.validate().is_ok());
}

#[test]
fn persisted_validation_allows_persistent_empty_leaf() {
    let mut options = PaneOptions::default();
    options.persist_when_empty = true;
    let layout: PersistedPanelTree<&'static str> = PersistedPanelTree {
        version: PANEL_TREE_FORMAT_VERSION,
        next_pane_id: 2,
        nodes: vec![PersistedNode::Leaf {
            pane: PaneId::from_raw(1),
            tabs: Vec::new(),
            focused: 0,
            options,
            collapsed: false,
        }],
    };

    assert!(layout.validate().is_ok());
}

#[test]
fn persisted_round_trip_preserves_tab_drop_policy() {
    let tree = PanelTree::new(vec![Tab::new("A", "a").with_drop_policy(TabDropPolicy {
        locked_to_pane: Some(PaneId::from_raw(9)),
        locked_to_role: Some(PaneRole::Terminal),
        allowed_panes: Some(vec![PaneId::from_raw(9), PaneId::from_raw(10)]),
        allowed_roles: Some(vec![PaneRole::Editor, PaneRole::Sidebar]),
        blocked_panes: vec![PaneId::from_raw(10)],
        blocked_roles: vec![PaneRole::Inspector],
    })]);
    let persisted = tree.to_persisted();
    let restored = PanelTree::from_persisted(persisted).expect("persistence should round-trip");

    match restored.node(0) {
        Node::Leaf { tabs, .. } => {
            assert_eq!(tabs[0].drop_policy.locked_to_pane, Some(PaneId::from_raw(9)));
            assert_eq!(tabs[0].drop_policy.locked_to_role, Some(PaneRole::Terminal));
            assert_eq!(tabs[0].drop_policy.allowed_panes, Some(vec![PaneId::from_raw(9), PaneId::from_raw(10)]));
            assert_eq!(tabs[0].drop_policy.allowed_roles, Some(vec![PaneRole::Editor, PaneRole::Sidebar]));
            assert_eq!(tabs[0].drop_policy.blocked_panes, vec![PaneId::from_raw(10)]);
            assert_eq!(tabs[0].drop_policy.blocked_roles, vec![PaneRole::Inspector]);
        }
        other => panic!("expected restored root leaf, got {:?}", other),
    }
}

fn leaf(pane: u64, tabs: Vec<Tab<&'static str>>, focused: usize) -> PersistedNode<&'static str> {
    PersistedNode::Leaf { pane: PaneId::from_raw(pane), tabs, focused, options: PaneOptions::default(), collapsed: false }
}

#[test]
fn validation_reports_each_error() {
    let base = |nodes: Vec<PersistedNode<&'static str>>, next: u64| PersistedPanelTree {
        version: PANEL_TREE_FORMAT_VERSION,
        next_pane_id: next,
        nodes,
    };
    let mut wrong_version = base(vec![leaf(1, vec![Tab::new("A", "a")], 0)], 2);
    wrong_version.version = 7;
    assert!(wrong_version.validate().is_ok());
    assert!(matches!(PanelTree::from_persisted(wrong_version), Err(PersistError::UnsupportedVersion(7))));
    assert_eq!(base(Vec::new(), 1).validate(), Err(PersistError::EmptyTree));
    assert_eq!(
        base(vec![leaf(1, Vec::new(), 0)], 2).validate(),
        Err(PersistError::EmptyLeaf { pane: PaneId::from_raw(1) })
    );
    assert_eq!(
        base(vec![leaf(1, vec![Tab::new("A", "a")], 1)], 2).validate(),
        Err(PersistError::FocusOutOfRange { pane: PaneId::from_raw(1), focused: 1, tab_count: 1 })
    );
    let split = PersistedNode::Split { dir: SplitDir::Horizontal, ratio: 0.5f32.to_bits() };
    assert_eq!(
        base(vec![split.clone(), leaf(4, vec![Tab::new("A", "a")], 0), leaf(4, vec![Tab::new("B", "b")], 0)], 5)
            .validate(),
        Err(PersistError::DuplicatePaneId(PaneId::from_raw(4)))
    );
    assert_eq!(
        base(vec![split, leaf(4, vec![Tab::new("A", "a")], 0), leaf(6, vec![Tab::new("B", "b")], 0)], 6).validate(),
        Err(PersistError::NextPaneIdTooLow { next_pane_id: 6, required_minimum: 7 })
    );
}

#[test]
fn invalid_layout_is_not_loaded() {
    let mut layout = sample_tree().to_persisted();
    layout.next_pane_id = 1;
    assert!(PanelTree::from_persisted(layout).is_err());
}
