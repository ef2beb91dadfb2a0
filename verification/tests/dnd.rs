use grimdock::dnd::{
    DragPayload, DropResolution, DropZone, apply_directional_drop, apply_root_directional_drop, can_start_drag,
    drop_zone_allowed, release_drop, resolve_drop, tab_allows_target_pane,
};
use grimdock::{ChildSide, DropPolicy, Node, PaneId, PaneOptions, PaneRole, PanelTree, SplitDir, Tab, TabDropPolicy};

fn ids_at(tree: &PanelTree<&'static str>, idx: usize) -> Vec<&'static str> {
    match tree.node(idx) {
        Node::Leaf { tabs, .. } => tabs.iter().map(|t| t.id).collect(),
        _ => Vec::new(),
    }
}

#[test]
fn drop_zone_allowed_respects_non_droppable_and_locked_panes() {
    let mut options = PaneOptions::default();
    options.drop_policy = DropPolicy::none();
    assert!(!drop_zone_allowed(options, DropZone::Center));
    assert!(!drop_zone_allowed(options, DropZone::Left));

    options.drop_policy = DropPolicy::all();
    options.lock_layout = true;
    assert!(!drop_zone_allowed(options, DropZone::Center));
    assert!(!drop_zone_allowed(options, DropZone::Right));
}

#[test]
fn apply_root_directional_drop_wraps_root_without_losing_tabs() {
    let mut tree = PanelTree::new(vec![Tab::new("A", "a")]);
    tree.insert_tab_into_leaf(0, Tab::new("B", "b"));

    let tab = match tree.node(0) {
        Node::Leaf { tabs, .. } => tabs[0].clone(),
        _ => panic!("expected root leaf"),
    };

    apply_root_directional_drop(&mut tree, 0, 0, tab, SplitDir::Horizontal, ChildSide::First);

    assert!(matches!(tree.node(0), Node::Split { .. }));
    assert!(tree.find_tab(&"a").is_some());
    assert!(tree.find_tab(&"b").is_some());
}

/// A tab dragged from a leaf two levels deep onto the root edge is found
/// again where the wrapped layout put its pane.
#[test]
fn apply_root_directional_drop_deep_layout_no_panic() {
    // root -> [A | [B | C]]: 0 = Split, 1 = [A], 2 = Split, 5 = [B], 6 = [C]
    let mut tree = PanelTree::new(vec![Tab::new("A", "a")]);
    tree.split_leaf(0, SplitDir::Horizontal, Tab::new("B", "b"), ChildSide::Second);
    tree.split_leaf(2, SplitDir::Horizontal, Tab::new("C", "c"), ChildSide::Second);

    let src_leaf = 6;
    let tab = match tree.node(src_leaf) {
        Node::Leaf { tabs, .. } => tabs[0].clone(),
        _ => panic!("expected leaf at index {src_leaf}"),
    };

    apply_root_directional_drop(&mut tree, src_leaf, 0, tab, SplitDir::Horizontal, ChildSide::Second);

    assert!(matches!(tree.node(0), Node::Split { .. }));
    assert!(tree.find_tab(&"a").is_some());
    assert!(tree.find_tab(&"b").is_some());
    assert!(tree.find_tab(&"c").is_some());
}

#[test]
fn tab_drop_policy_blocks_non_whitelisted_target_panes() {
    let mut tree = PanelTree::new(vec![Tab::new("A", "a")]);
    let right_pane = tree.split_leaf(
        0,
        SplitDir::Horizontal,
        Tab::new("B", "b").with_drop_policy(TabDropPolicy {
            locked_to_pane: None,
            locked_to_role: None,
            allowed_panes: Some(vec![PaneId::from_raw(1)]),
            allowed_roles: None,
            blocked_panes: Vec::new(),
            blocked_roles: Vec::new(),
        }),
        ChildSide::Second,
    );

    let right_idx = tree.pane_index(right_pane).expect("right pane should exist");
    let tab = match tree.node(right_idx) {
        Node::Leaf { tabs, .. } => tabs.first().expect("right pane should hold a tab"),
        other => panic!("expected right leaf, got {:?}", other),
    };

    assert!(!tab_allows_target_pane(tab, right_pane, None));
}

#[test]
fn tab_drop_policy_honors_blocked_pane_list() {
    let policy = TabDropPolicy {
        locked_to_pane: None,
        locked_to_role: None,
        allowed_panes: None,
        allowed_roles: None,
        blocked_panes: vec![PaneId::from_raw(7)],
        blocked_roles: Vec::new(),
    };

    assert!(policy.allows_target(PaneId::from_raw(3), None));
    assert!(!policy.allows_target(PaneId::from_raw(7), None));
}

#[test]
fn tab_drop_policy_honors_role_filters() {
    let policy = TabDropPolicy {
        locked_to_pane: None,
        locked_to_role: Some(PaneRole::Terminal),
        allowed_panes: None,
        allowed_roles: None,
        blocked_panes: Vec::new(),
        blocked_roles: Vec::new(),
    };

    assert!(policy.allows_target(PaneId::from_raw(1), Some(PaneRole::Terminal)));
    assert!(!policy.allows_target(PaneId::from_raw(1), Some(PaneRole::Editor)));
}

#[test]
fn drop_zone_allowed_follows_each_split_permission() {
    let mut options = PaneOptions::default();
    options.drop_policy = DropPolicy {
        allow_merge: false,
        allow_split_left: true,
        allow_split_right: false,
        allow_split_top: false,
        allow_split_bottom: true,
    };
    assert!(!drop_zone_allowed(options, DropZone::Center));
    assert!(drop_zone_allowed(options, DropZone::Left));
    assert!(!drop_zone_allowed(options, DropZone::Right));
    assert!(!drop_zone_allowed(options, DropZone::Top));
    assert!(drop_zone_allowed(options, DropZone::Bottom));
}

#[test]
fn directional_drop_onto_other_pane_moves_tab_and_collapses_source() {
    // 0 = Split, 1 = [a], 2 = [b]; drag "b" onto the bottom of pane 1.
    let mut tree = PanelTree::new(vec![Tab::new("A", "a")]);
    tree.split_leaf(0, SplitDir::Horizontal, Tab::new("B", "b"), ChildSide::Second);
    let tab = match tree.node(2) {
        Node::Leaf { tabs, .. } => tabs[0].clone(),
        _ => panic!("expected leaf"),
    };
    apply_directional_drop(&mut tree, 2, 0, 1, tab, SplitDir::Vertical, ChildSide::Second);
    // The emptied source collapses: the split of pane 1 moves up to the root.
    assert!(matches!(tree.node(0), Node::Split { dir: SplitDir::Vertical, .. }));
    assert_eq!(ids_at(&tree, 1), vec!["a"]);
    assert_eq!(ids_at(&tree, 2), vec!["b"]);
    assert_eq!(tree.next_pane_id, 4);
}

#[test]
fn directional_drop_onto_own_pane_keeps_other_tabs() {
    let mut tree = PanelTree::new(vec![Tab::new("A", "a"), Tab::new("B", "b")]);
    let tab = match tree.node(0) {
        Node::Leaf { tabs, .. } => tabs[1].clone(),
        _ => panic!("expected leaf"),
    };
    apply_directional_drop(&mut tree, 0, 1, 0, tab, SplitDir::Horizontal, ChildSide::First);
    assert!(matches!(tree.node(0), Node::Split { dir: SplitDir::Horizontal, .. }));
    assert_eq!(ids_at(&tree, 1), vec!["b"]);
    assert_eq!(ids_at(&tree, 2), vec!["a"]);
}

#[test]
fn resolve_drop_prefers_an_accepted_root_zone() {
    let tree = PanelTree::new(vec![Tab::new("A", "a"), Tab::new("B", "b")]);
    let payload = DragPayload { src_pane: PaneId::from_raw(1), tab_pos: 1 };
    assert_eq!(
        resolve_drop(&tree, payload, 0, DropZone::Center, Some(DropZone::Left), false),
        Some(DropResolution { zone: DropZone::Left, at_root: true, reorder: false })
    );
    assert_eq!(
        resolve_drop(&tree, payload, 0, DropZone::Center, None, true),
        Some(DropResolution { zone: DropZone::Center, at_root: false, reorder: true })
    );
    // No leaf at the target, or no such tab: nothing resolves.
    assert_eq!(resolve_drop(&tree, payload, 3, DropZone::Center, None, false), None);
    let missing = DragPayload { src_pane: PaneId::from_raw(1), tab_pos: 5 };
    assert_eq!(resolve_drop(&tree, missing, 0, DropZone::Center, None, false), None);
}

#[test]
fn resolve_drop_rejects_refused_zones_and_targets() {
    let mut tree = PanelTree::new(vec![Tab::new("A", "a"), Tab::new("B", "b")]);
    let mut options = tree.pane_options(0).unwrap();
    options.drop_policy = DropPolicy::merge_only();
    assert!(tree.set_pane_options(0, options));
    let payload = DragPayload { src_pane: PaneId::from_raw(1), tab_pos: 0 };
    assert_eq!(resolve_drop(&tree, payload, 0, DropZone::Left, Some(DropZone::Top), false), None);

    let mut locked = PanelTree::new(vec![Tab::new("A", "a").with_locked_pane(PaneId::from_raw(9))]);
    let payload = DragPayload { src_pane: PaneId::from_raw(1), tab_pos: 0 };
    assert_eq!(resolve_drop(&locked, payload, 0, DropZone::Center, None, false), None);
    locked.insert_tab_into_leaf(0, Tab::new("B", "b"));
    assert_eq!(resolve_drop(&locked, payload, 0, DropZone::Center, None, false), None);
}

#[test]
fn release_drop_reorders_within_header() {
    let mut tree = PanelTree::new(vec![Tab::new("A", "a"), Tab::new("B", "b"), Tab::new("C", "c")]);
    let payload = DragPayload { src_pane: PaneId::from_raw(1), tab_pos: 0 };
    release_drop(&mut tree, payload, 0, DropZone::Center, None, true, Some(2));
    assert_eq!(ids_at(&tree, 0), vec!["b", "c", "a"]);
    // Outside the header nothing happens on a center drop onto the own pane.
    release_drop(&mut tree, payload, 0, DropZone::Center, None, false, Some(1));
    assert_eq!(ids_at(&tree, 0), vec!["b", "c", "a"]);
}

#[test]
fn release_drop_merges_into_other_pane() {
    let mut tree = PanelTree::new(vec![Tab::new("A", "a")]);
    let right = tree.split_leaf(0, SplitDir::Horizontal, Tab::new("B", "b"), ChildSide::Second);
    let payload = DragPayload { src_pane: right, tab_pos: 0 };
    release_drop(&mut tree, payload, 1, DropZone::Center, None, false, None);
    assert_eq!(ids_at(&tree, 0), vec!["a", "b"]);
    assert!(tree.pane_index(right).is_none());
}

#[test]
fn release_drop_refuses_undraggable_tab() {
    let mut tree = PanelTree::new(vec![Tab::new("A", "a")]);
    tree.split_leaf(0, SplitDir::Horizontal, Tab::new("B", "b").with_draggable(false), ChildSide::Second);
    let payload = DragPayload { src_pane: PaneId::from_raw(2), tab_pos: 0 };
    release_drop(&mut tree, payload, 1, DropZone::Center, None, false, None);
    assert_eq!(ids_at(&tree, 1), vec!["a"]);
    assert_eq!(ids_at(&tree, 2), vec!["b"]);
}

#[test]
fn release_drop_on_root_edge_wraps_layout() {
    let mut tree = PanelTree::new(vec![Tab::new("A", "a"), Tab::new("B", "b")]);
    let payload = DragPayload { src_pane: PaneId::from_raw(1), tab_pos: 1 };
    release_drop(&mut tree, payload, 0, DropZone::Center, Some(DropZone::Bottom), false, None);
    assert!(matches!(tree.node(0), Node::Split { dir: SplitDir::Vertical, .. }));
    assert_eq!(ids_at(&tree, 1), vec!["a"]);
    assert_eq!(ids_at(&tree, 2), vec!["b"]);
    assert_eq!(tree.pane_id_at(2), Some(PaneId::from_raw(2)));
}

#[test]
fn pane_lock_still_honours_block_list() {
    let mut policy = TabDropPolicy::default();
    policy.locked_to_pane = Some(PaneId::from_raw(7));
    assert!(policy.allows_target(PaneId::from_raw(7), None));
    assert!(!policy.allows_target(PaneId::from_raw(3), None));
    policy.blocked_panes = vec![PaneId::from_raw(7)];
    assert!(!policy.allows_target(PaneId::from_raw(7), None));
}

#[test]
fn locks_narrow_allow_lists_and_block_roles() {
    let mut policy = TabDropPolicy::default();
    policy.locked_to_role = Some(PaneRole::Terminal);
    policy.allowed_panes = Some(vec![PaneId::from_raw(3)]);
    assert!(policy.allows_target(PaneId::from_raw(3), Some(PaneRole::Terminal)));
    assert!(!policy.allows_target(PaneId::from_raw(4), Some(PaneRole::Terminal)));
    assert!(!policy.allows_target(PaneId::from_raw(3), Some(PaneRole::Editor)));
    policy.blocked_roles = vec![PaneRole::Terminal];
    assert!(!policy.allows_target(PaneId::from_raw(3), Some(PaneRole::Terminal)));
}

fn reorder_only_tree() -> PanelTree<&'static str> {
    let mut tree = PanelTree::new(vec![Tab::new("A", "a"), Tab::new("B", "b")]);
    tree.split_leaf(0, SplitDir::Horizontal, Tab::new("C", "c"), ChildSide::Second);
    let mut options = tree.pane_options(1).unwrap();
    options.allow_tab_drag_out = false;
    options.allow_tab_reorder = true;
    tree.set_pane_options(1, options);
    tree
}

#[test]
fn reorder_only_pane_keeps_its_tabs() {
    let mut tree = reorder_only_tree();
    assert!(can_start_drag(&tree, 1, 0));
    let payload = DragPayload { src_pane: PaneId::from_raw(1), tab_pos: 0 };
    release_drop(&mut tree, payload, 2, DropZone::Center, None, false, None);
    assert_eq!(ids_at(&tree, 1), vec!["a", "b"]);
    assert_eq!(ids_at(&tree, 2), vec!["c"]);
    release_drop(&mut tree, payload, 2, DropZone::Left, None, false, None);
    assert_eq!(ids_at(&tree, 1), vec!["a", "b"]);
    assert_eq!(ids_at(&tree, 2), vec!["c"]);
    release_drop(&mut tree, payload, 1, DropZone::Right, None, false, None);
    assert_eq!(ids_at(&tree, 1), vec!["a", "b"]);
    assert_eq!(tree.next_pane_id, 3);
    // Reordering within the pane's own header is still allowed.
    release_drop(&mut tree, payload, 1, DropZone::Center, None, true, Some(1));
    assert_eq!(ids_at(&tree, 1), vec!["b", "a"]);
}

#[test]
fn drag_start_needs_a_draggable_tab_in_an_unlocked_pane() {
    let mut tree = PanelTree::new(vec![Tab::new("A", "a"), Tab::new("B", "b").with_draggable(false)]);
    assert!(can_start_drag(&tree, 0, 0));
    assert!(!can_start_drag(&tree, 0, 1));
    assert!(!can_start_drag(&tree, 0, 2));
    assert!(!can_start_drag(&tree, 3, 0));
    let mut options = tree.pane_options(0).unwrap();
    options.allow_tab_drag_out = false;
    options.allow_tab_reorder = false;
    tree.set_pane_options(0, options);
    assert!(!can_start_drag(&tree, 0, 0));
}
