use grimdock::dnd::{apply_directional_drop, apply_root_directional_drop};
use grimdock::header::visible_tab_indices;
use grimdock::persistence::{LegacyPersistedPanelTree, PersistError, PersistedPanelTreeFile};
use grimdock::{ChildSide, Node, PaneAnchor, PaneBuilder, PaneId, PanelTree, SplitDir, Tab};

/// The tab identifiers of the layout, leaf by leaf from the first child to
/// the second.
fn layout_ids(tree: &PanelTree<&'static str>) -> Vec<&'static str> {
    fn walk(tree: &PanelTree<&'static str>, idx: usize, out: &mut Vec<&'static str>) {
        match tree.node(idx) {
            Node::Leaf { tabs, .. } => out.extend(tabs.iter().map(|t| t.id)),
            Node::Split { .. } => {
                walk(tree, 2 * idx + 1, out);
                walk(tree, 2 * idx + 2, out);
            }
            Node::Empty => {}
        }
    }
    let mut out = Vec::new();
    walk(tree, 0, &mut out);
    out
}

fn layout_panes(tree: &PanelTree<&'static str>) -> Vec<u64> {
    fn walk(tree: &PanelTree<&'static str>, idx: usize, out: &mut Vec<u64>) {
        match tree.node(idx) {
            Node::Leaf { pane, .. } => out.push(pane.into_raw()),
            Node::Split { .. } => {
                walk(tree, 2 * idx + 1, out);
                walk(tree, 2 * idx + 2, out);
            }
            Node::Empty => {}
        }
    }
    let mut out = Vec::new();
    walk(tree, 0, &mut out);
    out
}

/// 0 = Split, 1 = [a] (pane 1), 2 = Split, 5 = [b] (pane 2), 6 = [c] (pane 3)
fn three_panes() -> PanelTree<&'static str> {
    let mut tree = PanelTree::new(vec![Tab::new("A", "a")]);
    tree.split_leaf(0, SplitDir::Horizontal, Tab::new("B", "b"), ChildSide::Second);
    tree.split_leaf(2, SplitDir::Vertical, Tab::new("C", "c"), ChildSide::Second);
    tree
}

#[test]
fn split_shows_new_pane_beside_split_one() {
    let mut tree = three_panes();
    assert_eq!(layout_ids(&tree), vec!["a", "b", "c"]);
    assert_eq!(layout_panes(&tree), vec![1, 2, 3]);
    let fresh = tree.split_leaf(5, SplitDir::Horizontal, Tab::new("D", "d"), ChildSide::First);
    assert_eq!(fresh, PaneId::from_raw(4));
    assert_eq!(layout_ids(&tree), vec!["a", "d", "b", "c"]);
    assert_eq!(layout_panes(&tree), vec![1, 4, 2, 3]);
}

#[test]
fn wrap_shows_new_pane_at_the_edge() {
    let mut tree = three_panes();
    tree.wrap_root_with_split(SplitDir::Vertical, Tab::new("E", "e"), ChildSide::Second);
    assert_eq!(layout_ids(&tree), vec!["a", "b", "c", "e"]);
    assert_eq!(layout_panes(&tree), vec![1, 2, 3, 4]);
    tree.wrap_root_with_split(SplitDir::Horizontal, Tab::new("F", "f"), ChildSide::First);
    assert_eq!(layout_ids(&tree), vec!["f", "a", "b", "c", "e"]);
}

#[test]
fn collapse_keeps_tabs_and_drops_only_the_empty_pane() {
    let mut tree = three_panes();
    // Empty pane 1 into pane 3, then collapse it.
    tree.merge_tab_into(1, 0, 6);
    assert_eq!(layout_panes(&tree), vec![1, 2, 3]);
    tree.collapse_empty_leaf(1);
    assert_eq!(layout_ids(&tree), vec!["b", "c", "a"]);
    assert_eq!(layout_panes(&tree), vec![2, 3]);
}

#[test]
fn root_drop_moves_only_the_dragged_tab() {
    let mut tree = three_panes();
    tree.insert_tab_into_leaf(5, Tab::new("G", "g"));
    assert_eq!(layout_ids(&tree), vec!["a", "b", "g", "c"]);
    let tab = Tab::new("B", "b");
    apply_root_directional_drop(&mut tree, 5, 0, tab, SplitDir::Horizontal, ChildSide::First);
    assert_eq!(layout_ids(&tree), vec!["b", "a", "g", "c"]);
}

#[test]
fn side_drop_keeps_every_other_tab() {
    let mut tree = three_panes();
    let tab = Tab::new("C", "c");
    apply_directional_drop(&mut tree, 6, 0, 1, tab, SplitDir::Vertical, ChildSide::First);
    let mut ids = layout_ids(&tree);
    ids.sort();
    assert_eq!(ids, vec!["a", "b", "c"]);
    assert_eq!(layout_ids(&tree), vec!["c", "a", "b"]);
}

#[test]
fn saved_tree_loads_back_unless_an_empty_pane_would_vanish() {
    let mut tree = three_panes();
    tree.ensure_pane_at_anchor(PaneAnchor::Bottom, PaneBuilder::new(Tab::new("T", "t")));
    let restored = PanelTree::from_persisted(tree.to_persisted()).expect("a loadable tree round-trips");
    assert_eq!(layout_ids(&restored), layout_ids(&tree));
    assert_eq!(layout_panes(&restored), layout_panes(&tree));
    assert_eq!(restored.next_pane_id, tree.next_pane_id);

    // Emptying the sole, non-persistent root pane leaves a tree that does
    // not load.
    let mut solo = PanelTree::new(vec![Tab::new("A", "a")]);
    assert!(solo.remove_tab_at(0, 0).is_some());
    assert!(matches!(
        PanelTree::from_persisted(solo.to_persisted()),
        Err(PersistError::EmptyLeaf { .. })
    ));
}

#[test]
fn legacy_save_migrates_like_current_save() {
    let tree = three_panes();
    let migrated = PersistedPanelTreeFile::Legacy(LegacyPersistedPanelTree::from(&tree))
        .migrate()
        .expect("legacy layout should migrate");
    assert_eq!(migrated, tree.to_persisted());
}

#[test]
fn moving_a_tab_back_restores_the_order() {
    let mut tree = PanelTree::new(vec![Tab::new("A", "a"), Tab::new("B", "b"), Tab::new("C", "c")]);
    assert!(tree.move_tab_within_leaf(0, 0, 2));
    assert!(tree.move_tab_within_leaf(0, 2, 0));
    assert_eq!(layout_ids(&tree), vec!["a", "b", "c"]);
}

#[test]
fn ensuring_a_tab_twice_inserts_it_once() {
    let mut tree = PanelTree::new(vec![Tab::new("A", "a")]);
    assert!(tree.ensure_tab_in_leaf(0, Tab::new("B", "b")));
    assert!(!tree.ensure_tab_in_leaf(0, Tab::new("B", "b")));
    assert_eq!(layout_ids(&tree), vec!["a", "b"]);
}

#[test]
fn focused_tab_is_always_visible_and_tabs_partition() {
    for count in 1..7usize {
        for room in 1..=count {
            for focused in 0..count {
                let (visible, hidden) = visible_tab_indices(count, focused, room);
                assert!(visible.contains(&focused));
                for i in 0..count {
                    assert!(visible.contains(&i) != hidden.contains(&i));
                }
            }
        }
    }
}

#[test]
fn written_options_and_collapse_read_back() {
    let mut tree = PanelTree::new(vec![Tab::new("A", "a")]);
    let mut options = tree.pane_options(0).unwrap();
    options.allow_resize = false;
    assert!(tree.set_pane_options(0, options));
    assert_eq!(tree.pane_options(0), Some(options));
    assert!(tree.set_collapsed(0, true));
    assert!(tree.is_collapsed(0));
    assert!(tree.header_visible(0));
}

#[test]
fn ensuring_an_anchor_twice_returns_the_same_pane() {
    let mut tree = three_panes();
    let first = tree.ensure_pane_at_anchor(PaneAnchor::Right, PaneBuilder::new(Tab::new("R", "r")));
    let before = layout_ids(&tree);
    let again = tree.ensure_pane_at_anchor(PaneAnchor::Right, PaneBuilder::new(Tab::new("S", "s")));
    assert_eq!(first, again);
    assert_eq!(layout_ids(&tree), before);
    let center = tree.ensure_pane_at_anchor(PaneAnchor::Center, PaneBuilder::new(Tab::new("X", "x")));
    assert_eq!(tree.find_pane_with_anchor(PaneAnchor::Center), Some(center));
}

#[test]
fn toggling_collapse_twice_restores_the_pane() {
    let mut tree = three_panes();
    assert!(tree.toggle_collapsed(1));
    assert!(tree.is_collapsed(1));
    assert!(tree.toggle_collapsed(1));
    assert!(!tree.is_collapsed(1));
}

#[test]
fn closing_all_twice_closes_nothing_the_second_time() {
    let mut tree = PanelTree::new(vec![
        Tab::new("A", "a").with_closable(true),
        Tab::new("B", "b"),
        Tab::new("C", "c").with_closable(true),
    ]);
    assert_eq!(tree.close_all_tabs_in_leaf(0), vec!["a", "c"]);
    assert!(tree.close_all_tabs_in_leaf(0).is_empty());
    assert_eq!(layout_ids(&tree), vec!["b"]);
}

#[test]
fn merging_a_tab_keeps_every_tab() {
    let mut tree = three_panes();
    tree.insert_tab_into_leaf(6, Tab::new("D", "d"));
    tree.merge_tab_into(5, 0, 6);
    tree.collapse_empty_leaf(5);
    let mut ids = layout_ids(&tree);
    assert_eq!(ids, vec!["a", "c", "d", "b"]);
    ids.sort();
    assert_eq!(ids, vec!["a", "b", "c", "d"]);
}
