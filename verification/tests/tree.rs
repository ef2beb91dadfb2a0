use grimdock::{
    ChildSide, DropPolicy, HeaderVisibility, Node, PaneAnchor, PaneBuilder, PaneId, PaneOptions, PaneRole, PanelTree,
    SplitDir, Tab,
};

fn make_tree() -> PanelTree<&'static str> {
    PanelTree::new(vec![
        Tab::new("A", "a"),
        Tab::new("B", "b"),
    ])
}

#[test]
fn index_arithmetic() {
    assert_eq!(PanelTree::<()>::left_child(0), 1);
    assert_eq!(PanelTree::<()>::right_child(0), 2);
    assert_eq!(PanelTree::<()>::left_child(1), 3);
    assert_eq!(PanelTree::<()>::right_child(1), 4);
    assert_eq!(PanelTree::<()>::parent(1), Some(0));
    assert_eq!(PanelTree::<()>::parent(2), Some(0));
    assert_eq!(PanelTree::<()>::parent(0), None);
}

#[test]
fn sibling() {
    assert_eq!(PanelTree::<()>::sibling(1), Some(2));
    assert_eq!(PanelTree::<()>::sibling(2), Some(1));
    assert_eq!(PanelTree::<()>::sibling(3), Some(4));
}

#[test]
fn split_creates_children() {
    let mut tree = make_tree();
    tree.split_leaf(0, SplitDir::Horizontal, Tab::new("C", "c"), ChildSide::Second);

    assert!(matches!(tree.node(0), Node::Split { dir: SplitDir::Horizontal, .. }));
    assert!(matches!(tree.node(1), Node::Leaf { .. }));
    assert!(matches!(tree.node(2), Node::Leaf { .. }));

    // The existing tabs should be in the first child (ChildSide::Second puts new in right).
    if let Node::Leaf { tabs, .. } = tree.node(1) {
        assert_eq!(tabs.len(), 2);
    } else {
        panic!("expected Leaf at index 1");
    }
    if let Node::Leaf { tabs, .. } = tree.node(2) {
        assert_eq!(tabs[0].id, "c");
    } else {
        panic!("expected Leaf at index 2");
    }
}

#[test]
fn merge_tab_then_collapse() {
    // Single-tab tree: root has only "a".
    let mut tree = PanelTree::new(vec![Tab::new("A", "a")]);

    // Split root: new tab "b" on the right (Second), existing "a" stays on left (First).
    tree.split_leaf(0, SplitDir::Horizontal, Tab::new("B", "b"), ChildSide::Second);
    // node 1 (left)  = ["a"]
    // node 2 (right) = ["b"]

    // Merge "b" (node 2, pos 0) into node 1.
    tree.merge_tab_into(2, 0, 1);

    // Node 2 must now be empty.
    if let Node::Leaf { tabs, .. } = tree.node(2) {
        assert!(tabs.is_empty(), "node 2 should be empty after merge");
    } else {
        panic!("expected Leaf at index 2");
    }

    // Node 1 should now hold both tabs.
    if let Node::Leaf { tabs, .. } = tree.node(1) {
        assert_eq!(tabs.len(), 2);
    }

    // Collapse empty node 2: node 1 (sibling) gets promoted to root (node 0).
    tree.collapse_empty_leaf(2);

    if let Node::Leaf { tabs, .. } = tree.node(0) {
        assert_eq!(tabs.len(), 2, "root should hold both tabs after collapse");
    } else {
        panic!("expected root to be a Leaf after collapse");
    }

    // Nodes 1 and 2 should be Empty after promotion.
    assert!(matches!(tree.node(1), Node::Empty));
    assert!(matches!(tree.node(2), Node::Empty));
}

/// Collapsing a leaf whose sibling is a split promotes the sibling's
/// children without losing either of them.
#[test]
fn collapse_leaf_with_split_sibling_preserves_content() {
    // Build:
    //   node 0: Split
    //   node 1: Leaf ["solo"]   ← will be emptied and collapsed
    //   node 2: Split           ← sibling, its children must survive
    //   node 5: Leaf ["left"]
    //   node 6: Leaf ["right"]

    let mut tree = PanelTree::new(vec![Tab::new("Solo", "solo")]);

    // Split root horizontally: solo stays left (First side), new tab right.
    tree.split_leaf(0, SplitDir::Horizontal, Tab::new("Right", "right"), ChildSide::Second);
    // node 1 = ["solo"], node 2 = ["right"]

    // Split node 2 vertically so it becomes a Split with two leaf children.
    tree.split_leaf(2, SplitDir::Vertical, Tab::new("Left", "left"), ChildSide::First);
    // node 2 = Split, node 5 = ["left"], node 6 = ["right"]

    // Empty node 1 by merging its tab into node 5.
    tree.merge_tab_into(1, 0, 5);
    // node 1 = Leaf[], node 5 = ["left", "solo"]

    assert!(matches!(tree.node(1), Node::Leaf { tabs, .. } if tabs.is_empty()));

    // Collapse empty node 1.  Sibling is node 2 (a Split).
    // After collapse:
    //   node 0 = Split (was node 2)
    //   node 1 = ["left", "solo"]   (promoted from node 5)
    //   node 2 = ["right"]          (promoted from node 6)
    tree.collapse_empty_leaf(1);

    // node 0 must be a Split.
    assert!(matches!(tree.node(0), Node::Split { .. }), "root should be Split");

    // node 1 must have the two tabs from old node 5 — not be Empty.
    if let Node::Leaf { tabs, .. } = tree.node(1) {
        assert_eq!(tabs.len(), 2, "promoted left child should have 2 tabs, got {:?}", tabs.iter().map(|t| t.id).collect::<Vec<_>>());
    } else {
        panic!("node 1 should be a Leaf after collapse, got {:?}", tree.node(1));
    }

    // node 2 must have the one tab from old node 6.
    if let Node::Leaf { tabs, .. } = tree.node(2) {
        assert_eq!(tabs.len(), 1, "promoted right child should have 1 tab");
        assert_eq!(tabs[0].id, "right");
    } else {
        panic!("node 2 should be a Leaf after collapse");
    }
}

#[test]
fn pane_ids_stay_stable_across_split_and_collapse() {
    let mut tree = PanelTree::new(vec![Tab::new("Solo", "solo")]);
    let solo_pane = tree.find_pane_containing(&"solo").expect("solo pane should exist");

    let right_pane =
        tree.split_leaf(0, SplitDir::Horizontal, Tab::new("Right", "right"), ChildSide::Second);

    assert_eq!(tree.find_pane_containing(&"solo"), Some(solo_pane));
    assert_eq!(tree.find_pane_containing(&"right"), Some(right_pane));
    assert_ne!(solo_pane, right_pane);

    tree.merge_tab_into(tree.pane_index(right_pane).unwrap(), 0, tree.pane_index(solo_pane).unwrap());
    tree.collapse_empty_leaf(tree.pane_index(right_pane).unwrap());

    assert_eq!(tree.find_pane_containing(&"solo"), Some(solo_pane));
    assert_eq!(tree.find_pane_containing(&"right"), Some(solo_pane));
    assert!(tree.pane_index(right_pane).is_none());
}

#[test]
fn pane_mut_supports_option_and_tab_updates() {
    let mut tree = PanelTree::new(vec![Tab::new("A", "a")]);
    let pane_id = tree.find_pane_containing(&"a").expect("root pane should exist");

    {
        let mut pane = tree.pane_mut(pane_id).expect("pane should exist");
        let mut options = pane.options();
        options.allow_collapse = false;
        pane.set_options(options);
        pane.push_tab(Tab::new("B", "b"));
        assert!(pane.set_focused_index(1));
        assert_eq!(pane.focused_tab().map(|tab| tab.id), Some("b"));
    }

    let pane = tree.pane(pane_id).expect("pane should still exist");
    assert!(!pane.options().allow_collapse);
    assert_eq!(pane.tabs().len(), 2);
    assert_eq!(pane.focused_tab().map(|tab| tab.id), Some("b"));
}

#[test]
fn pane_builder_preserves_options_focus_and_tabs() {
    let mut options = PaneOptions::default();
    options.drop_policy = DropPolicy::merge_only();
    options.allow_resize = false;

    let tree = PanelTree::from_pane(
        PaneBuilder::new(Tab::new("A", "a"))
            .push_tab(Tab::new("B", "b"))
            .with_focused(1)
            .with_options(options),
    );

    let pane_id = tree.find_pane_containing(&"b").expect("pane should exist");
    let pane = tree.pane(pane_id).expect("pane should exist");
    assert_eq!(pane.tabs().len(), 2);
    assert_eq!(pane.focused_tab().map(|tab| tab.id), Some("b"));
    assert_eq!(pane.options().drop_policy, DropPolicy::merge_only());
    assert!(!pane.options().allow_resize);
}

#[test]
fn header_visibility_respects_hidden_and_collapsed_flows() {
    let mut tree = PanelTree::new(vec![Tab::new("A", "a")]);
    let mut options = tree.pane_options(0).unwrap();
    options.header_visibility = HeaderVisibility::Hidden;
    assert!(tree.set_pane_options(0, options));

    assert!(!tree.header_visible(0), "hidden header should stay hidden");

    assert!(tree.set_collapsed(0, true));
    assert!(
        tree.header_visible(0),
        "collapsed panes should still show a header affordance"
    );
}

#[test]
fn header_visibility_when_multiple_tabs_only() {
    let mut tree = PanelTree::new(vec![Tab::new("A", "a")]);
    let mut options = tree.pane_options(0).unwrap();
    options.header_visibility = HeaderVisibility::WhenMultipleTabs;
    assert!(tree.set_pane_options(0, options));

    assert!(!tree.header_visible(0));

    tree.insert_tab_into_leaf(0, Tab::new("B", "b"));
    assert!(tree.header_visible(0));
}

#[test]
fn lock_layout_blocks_collapse() {
    let mut tree = PanelTree::new(vec![Tab::new("A", "a")]);
    let pane_id = tree.find_pane_containing(&"a").expect("root pane should exist");

    let mut options = tree.pane(pane_id).unwrap().options();
    options.lock_layout = true;
    assert!(tree.set_pane_options(0, options));

    assert!(!tree.set_collapsed(0, true));
    assert!(!tree.is_collapsed(0));
}

#[test]
fn move_tab_within_leaf_reorders_and_refocuses() {
    let mut tree = PanelTree::new(vec![
        Tab::new("A", "a"),
        Tab::new("B", "b"),
        Tab::new("C", "c"),
    ]);

    assert!(tree.move_tab_within_leaf(0, 0, 2));

    if let Node::Leaf { tabs, focused, .. } = tree.node(0) {
        assert_eq!(tabs.iter().map(|tab| tab.id).collect::<Vec<_>>(), vec!["b", "c", "a"]);
        assert_eq!(*focused, 2);
    } else {
        panic!("expected root to remain a leaf");
    }
}

#[test]
fn split_resize_locked_tracks_descendant_pane_policy() {
    let mut tree = PanelTree::new(vec![Tab::new("A", "a")]);
    let right_pane =
        tree.split_leaf(0, SplitDir::Horizontal, Tab::new("B", "b"), ChildSide::Second);

    assert!(!tree.split_resize_locked(0));

    let right_idx = tree.pane_index(right_pane).expect("right pane should exist");
    let mut options = tree.pane_options(right_idx).unwrap();
    options.allow_resize = false;
    assert!(tree.set_pane_options(right_idx, options));

    assert!(tree.split_resize_locked(0));
    assert!(tree.subtree_resize_locked(right_idx));
}

#[test]
fn split_with_builder_creates_configured_pane() {
    let mut tree = PanelTree::new(vec![Tab::new("A", "a")]);
    let mut options = PaneOptions::default();
    options.lock_layout = true;
    options.drop_policy = DropPolicy::none();

    let new_pane = tree.split_leaf_with(
        0,
        SplitDir::Horizontal,
        PaneBuilder::new(Tab::new("B", "b"))
            .push_tab(Tab::new("C", "c"))
            .with_focused(1)
            .with_options(options),
        ChildSide::Second,
    );

    let pane = tree.pane(new_pane).expect("split pane should exist");
    assert_eq!(pane.tabs().len(), 2);
    assert_eq!(pane.focused_tab().map(|tab| tab.id), Some("c"));
    assert!(pane.options().lock_layout);
    assert_eq!(pane.options().drop_policy, DropPolicy::none());
}

#[test]
fn persist_when_empty_keeps_leaf_in_layout() {
    let mut tree = PanelTree::new(vec![Tab::new("solo", "solo")]);
    let mut options = tree.pane_options(0).expect("root pane should exist");
    options.persist_when_empty = true;
    assert!(tree.set_pane_options(0, options));

    let removed = tree.remove_tab_at(0, 0).expect("tab should be removed");
    assert_eq!(removed.id, "solo");

    match tree.node(0) {
        Node::Leaf { tabs, .. } => assert!(tabs.is_empty(), "persistent pane should remain empty"),
        other => panic!("expected persistent empty leaf at root, got {:?}", other),
    }
}

#[test]
fn persistent_empty_pane_keeps_header_visible() {
    let mut tree = PanelTree::new(vec![Tab::new("solo", "solo")]);
    let mut options = tree.pane_options(0).expect("root pane should exist");
    options.header_visibility = HeaderVisibility::Hidden;
    options.persist_when_empty = true;
    assert!(tree.set_pane_options(0, options));

    assert!(tree.remove_tab_at(0, 0).is_some());
    assert!(tree.header_visible(0));
}

#[test]
fn ensure_pane_at_anchor_reuses_existing_anchor_owner() {
    let mut tree = PanelTree::new(vec![Tab::new("center", "center")]);
    let left = tree.ensure_pane_at_anchor(
        PaneAnchor::Left,
        PaneBuilder::new(Tab::new("files", "files")),
    );
    let left_again = tree.ensure_pane_at_anchor(
        PaneAnchor::Left,
        PaneBuilder::new(Tab::new("other", "other")),
    );

    assert_eq!(left, left_again);
    assert_eq!(tree.find_pane_with_anchor(PaneAnchor::Left), Some(left));
    assert_eq!(tree.find_tab(&"other"), None);
}

#[test]
fn ensure_pane_at_anchor_marks_edge_panes_persistent() {
    let mut tree = PanelTree::new(vec![Tab::new("center", "center")]);
    let bottom = tree.ensure_pane_at_anchor(
        PaneAnchor::Bottom,
        PaneBuilder::new(Tab::new("terminal", "terminal")),
    );

    let pane = tree.pane(bottom).expect("bottom anchor pane should exist");
    assert_eq!(pane.options().anchor, Some(PaneAnchor::Bottom));
    assert!(pane.options().persist_when_empty);
}

#[test]
fn remove_pane_clears_persistent_root_and_returns_tabs() {
    let mut tree = PanelTree::new(vec![Tab::new("solo", "solo")]);
    let pane_id = tree.find_pane_containing(&"solo").expect("root pane should exist");
    let mut options = tree.pane(pane_id).unwrap().options();
    options.persist_when_empty = true;
    assert!(tree.set_pane_options(0, options));

    let removed = tree.remove_pane(pane_id).expect("persistent root pane should be removable");
    assert_eq!(removed, vec!["solo"]);
    match tree.node(0) {
        Node::Leaf { tabs, .. } => assert!(tabs.is_empty()),
        other => panic!("expected empty root leaf, got {:?}", other),
    }
}

#[test]
fn move_pane_to_anchor_preserves_identity_and_content() {
    let mut tree = PanelTree::new(vec![Tab::new("editor", "editor")]);
    let files = tree.ensure_pane_at_anchor(
        PaneAnchor::Left,
        PaneBuilder::new(Tab::new("files", "files")),
    );

    let moved = tree
        .move_pane_to_anchor(files, PaneAnchor::Bottom)
        .expect("pane should move to bottom");
    assert_eq!(moved, files);
    assert_eq!(tree.find_pane_with_anchor(PaneAnchor::Bottom), Some(files));
    assert_eq!(tree.find_tab(&"files").map(|(leaf, _)| tree.pane_id_at(leaf)), Some(Some(files)));
}

#[test]
fn find_pane_with_role_tracks_semantic_owner() {
    let tree = PanelTree::from_pane(
        PaneBuilder::new(Tab::new("files", "files")).with_role(PaneRole::Sidebar),
    );

    assert_eq!(
        tree.find_pane_with_role(PaneRole::Sidebar),
        tree.find_pane_containing(&"files")
    );
}

#[test]
fn content_target_skips_collapsed_and_non_leaf_slots() {
    let mut tree = make_tree();
    tree.split_leaf(0, SplitDir::Horizontal, Tab::new("C", "c"), ChildSide::Second);
    assert_eq!(tree.content_target(0), None);
    assert_eq!(tree.content_target(1), Some((PaneId::from_raw(1), 0)));
    tree.focus_tab(&"b");
    assert_eq!(tree.content_target(1), Some((PaneId::from_raw(1), 1)));
    assert_eq!(tree.content_target(2), Some((PaneId::from_raw(2), 0)));
    assert!(tree.set_collapsed(2, true));
    assert_eq!(tree.content_target(2), None);
    assert_eq!(tree.content_target(9), None);
}

#[test]
fn cloned_tree_and_builder_keep_their_contents() {
    let mut tree = make_tree();
    tree.split_leaf(0, SplitDir::Vertical, Tab::new("C", "c"), ChildSide::First);
    let copy = tree.clone();
    assert_eq!(copy.next_pane_id, tree.next_pane_id);
    assert_eq!(copy.nodes.len(), tree.nodes.len());
    assert_eq!(copy.find_pane_containing(&"a"), tree.find_pane_containing(&"a"));
    assert_eq!(copy.find_tab(&"c"), tree.find_tab(&"c"));

    let builder = PaneBuilder::new(Tab::new("X", "x")).push_tab(Tab::new("Y", "y")).with_focused(1);
    let built = PanelTree::from_pane(builder.clone());
    let again = PanelTree::from_pane(builder);
    assert_eq!(built.find_tab(&"y"), again.find_tab(&"y"));
    assert!(matches!(built.node(0), Node::Leaf { focused: 1, .. }));
}

#[test]
fn tabs_written_through_a_pane_handle_reach_the_tree() {
    let mut tree = make_tree();
    let pane_id = tree.pane_id_at(0).expect("root pane");
    {
        let mut pane = tree.pane_mut(pane_id).expect("pane should exist");
        let tabs = pane.tabs_mut();
        tabs.reverse();
        tabs.push(Tab::new("C", "c"));
    }
    assert_eq!(tree.find_tab(&"b"), Some((0, 0)));
    assert_eq!(tree.find_tab(&"a"), Some((0, 1)));
    assert_eq!(tree.find_tab(&"c"), Some((0, 2)));
    assert!(tree.pane_mut(PaneId::from_raw(9)).is_none());
}
