use grimdock::header::{
    PendingAction, apply_open_entry_to_leaf, apply_pending_action, focuses_existing, overflow_tab_label,
    visible_tab_indices,
};
use grimdock::{
    AddTabEntry, ChildSide, Node, OpenBehavior, PaneActionInvocation, PaneAnchor, PaneId, PanelTree, SplitDir, Tab,
};

fn count_tab<T: Clone + PartialEq + 'static>(tree: &PanelTree<T>, id: &T) -> usize {
    tree.leaf_indices()
        .into_iter()
        .map(|leaf_idx| match tree.node(leaf_idx) {
            Node::Leaf { tabs, .. } => tabs.iter().filter(|tab| &tab.id == id).count(),
            _ => 0,
        })
        .sum()
}

#[test]
fn focus_existing_open_behavior_prevents_duplicates() {
    let mut tree = PanelTree::new(vec![Tab::new("A", "a")]);
    let entry = AddTabEntry::new("A", Tab::new("A", "a")).with_open_behavior(OpenBehavior::FocusExisting);

    apply_open_entry_to_leaf(&mut tree, 0, entry);

    assert_eq!(count_tab(&tree, &"a"), 1);
}

#[test]
fn focus_existing_in_pane_allows_duplicate_in_other_pane() {
    let mut tree = PanelTree::new(vec![Tab::new("A", "a")]);
    tree.split_leaf(0, SplitDir::Horizontal, Tab::new("B", "b"), ChildSide::Second);

    let entry = AddTabEntry::new("A", Tab::new("A", "a")).with_open_behavior(OpenBehavior::FocusExistingInPane);

    apply_open_entry_to_leaf(&mut tree, 2, entry);

    assert_eq!(count_tab(&tree, &"a"), 2);
}

#[test]
fn allow_duplicate_always_inserts_and_focuses() {
    let mut tree = PanelTree::new(vec![Tab::new("A", "a")]);
    let entry = AddTabEntry::new("A", Tab::new("A", "a")).with_open_behavior(OpenBehavior::AllowDuplicate);
    apply_open_entry_to_leaf(&mut tree, 0, entry);
    assert_eq!(count_tab(&tree, &"a"), 2);
    assert!(matches!(tree.node(0), Node::Leaf { focused: 1, .. }));
}

#[test]
fn focus_existing_refocuses_earlier_tab() {
    let mut tree = PanelTree::new(vec![Tab::new("A", "a"), Tab::new("B", "b")]);
    tree.focus_tab(&"b");
    apply_open_entry_to_leaf(&mut tree, 0, AddTabEntry::new("A", Tab::new("A", "a")));
    assert!(matches!(tree.node(0), Node::Leaf { focused: 0, .. }));
}

#[test]
fn pending_close_reports_closed_tab() {
    let mut tree = PanelTree::new(vec![Tab::new("A", "a"), Tab::new("B", "b")]);
    let mut closed = Vec::new();
    let mut actions = Vec::new();
    apply_pending_action(&mut tree, 0, PendingAction::Close(1), &mut closed, &mut actions);
    assert_eq!(closed, vec!["b"]);
    apply_pending_action(&mut tree, 0, PendingAction::Close(5), &mut closed, &mut actions);
    assert_eq!(closed, vec!["b"]);
    assert!(actions.is_empty());
}

#[test]
fn pending_close_all_and_others_respect_closable() {
    let mut tree = PanelTree::new(vec![
        Tab::new("A", "a").with_closable(true),
        Tab::new("B", "b"),
        Tab::new("C", "c").with_closable(true),
    ]);
    let mut closed = Vec::new();
    let mut actions = Vec::new();
    apply_pending_action(&mut tree, 0, PendingAction::CloseOthers(2), &mut closed, &mut actions);
    assert_eq!(closed, vec!["a"]);
    apply_pending_action(&mut tree, 0, PendingAction::CloseAll, &mut closed, &mut actions);
    assert_eq!(closed, vec!["a", "c"]);
    assert_eq!(count_tab(&tree, &"b"), 1);
}

#[test]
fn pending_remove_and_move_pane() {
    let mut tree = PanelTree::new(vec![Tab::new("A", "a")]);
    tree.split_leaf(0, SplitDir::Horizontal, Tab::new("B", "b"), ChildSide::Second);
    let mut closed = Vec::new();
    let mut actions = Vec::new();
    apply_pending_action(&mut tree, 2, PendingAction::MovePane(PaneAnchor::Bottom), &mut closed, &mut actions);
    assert_eq!(tree.find_pane_with_anchor(PaneAnchor::Bottom), Some(PaneId::from_raw(2)));
    let idx = tree.pane_index(PaneId::from_raw(2)).unwrap();
    apply_pending_action(&mut tree, idx, PendingAction::RemovePane, &mut closed, &mut actions);
    assert_eq!(closed, vec!["b"]);
}

#[test]
fn pending_split_with_and_emit() {
    let mut tree = PanelTree::new(vec![Tab::new("A", "a")]);
    let mut closed: Vec<&'static str> = Vec::new();
    let mut actions = Vec::new();
    let entry = AddTabEntry::new("C", Tab::new("C", "c"));
    apply_pending_action(
        &mut tree,
        0,
        PendingAction::SplitWith(entry, SplitDir::Vertical, ChildSide::First),
        &mut closed,
        &mut actions,
    );
    assert!(matches!(tree.node(0), Node::Split { dir: SplitDir::Vertical, .. }));
    assert_eq!(count_tab(&tree, &"c"), 1);
    let invocation = PaneActionInvocation { pane_id: PaneId::from_raw(1), action_id: String::from("pin") };
    apply_pending_action(&mut tree, 2, PendingAction::EmitPaneAction(invocation.clone()), &mut closed, &mut actions);
    assert_eq!(actions, vec![invocation]);
    // A second split-with of an existing tab focuses it instead.
    let again = AddTabEntry::new("C", Tab::new("C", "c"));
    apply_pending_action(
        &mut tree,
        2,
        PendingAction::SplitWith(again, SplitDir::Vertical, ChildSide::First),
        &mut closed,
        &mut actions,
    );
    assert_eq!(count_tab(&tree, &"c"), 1);
    assert_eq!(tree.next_pane_id, 3);
}

#[test]
fn overflow_label_shows_icon_marker() {
    let plain = Tab::new("Files", 1u32);
    assert_eq!(overflow_tab_label(&plain), "Files");
    let text = Tab::new("Files", 1u32).with_leading_visual("F");
    assert_eq!(overflow_tab_label(&text), "F Files");
    let image = Tab::new("Files", 1u32)
        .with_icon_texture(egui::TextureId::Managed(0), egui::Vec2::new(12.0, 12.0));
    assert_eq!(overflow_tab_label(&image), "[img] Files");
}

#[test]
fn visible_tabs_keep_focus_in_view() {
    assert_eq!(visible_tab_indices(0, 0, 0), (Vec::new(), Vec::new()));
    assert_eq!(visible_tab_indices(5, 1, 3), (vec![0, 1, 2], vec![3, 4]));
    assert_eq!(visible_tab_indices(5, 4, 3), (vec![0, 1, 4], vec![2, 3]));
    assert_eq!(visible_tab_indices(4, 2, 4), (vec![0, 1, 2, 3], Vec::new()));
}

#[test]
fn focus_existing_in_pane_focuses_the_target_copy() {
    // Panes 1 and 2 both hold a tab with identifier 1.
    let mut tree: PanelTree<u64> = PanelTree::new(vec![Tab::new("One", 1)]);
    tree.split_leaf(0, SplitDir::Horizontal, Tab::new("Two", 2), ChildSide::Second);
    tree.insert_tab_into_leaf(2, Tab::new("One again", 1));
    tree.focus_tab_in_leaf(2, &2);
    assert!(matches!(tree.node(2), Node::Leaf { focused: 0, .. }));

    let entry = AddTabEntry::new("One", Tab::new("One", 1u64)).with_open_behavior(OpenBehavior::FocusExistingInPane);
    assert!(focuses_existing(&tree, 2, &entry.tab, entry.open_behavior));
    apply_open_entry_to_leaf(&mut tree, 2, entry);

    match tree.node(2) {
        Node::Leaf { tabs, focused, .. } => {
            assert_eq!(tabs.iter().map(|t| t.id).collect::<Vec<_>>(), vec![2, 1]);
            assert_eq!(*focused, 1);
        }
        _ => panic!("expected a leaf"),
    }
    assert_eq!(count_tab(&tree, &1), 2);
}

#[test]
fn split_with_focus_in_pane_does_not_split_when_target_holds_tab() {
    let mut tree: PanelTree<u64> = PanelTree::new(vec![Tab::new("One", 1), Tab::new("Two", 2)]);
    let entry = AddTabEntry::new("One", Tab::new("One", 1u64)).with_open_behavior(OpenBehavior::FocusExistingInPane);
    let mut closed = Vec::new();
    let mut actions = Vec::new();
    apply_pending_action(
        &mut tree,
        0,
        PendingAction::SplitWith(entry, SplitDir::Horizontal, ChildSide::Second),
        &mut closed,
        &mut actions,
    );
    assert!(matches!(tree.node(0), Node::Leaf { focused: 0, .. }));
    assert_eq!(tree.next_pane_id, 2);

    let other = AddTabEntry::new("Three", Tab::new("Three", 3u64)).with_open_behavior(OpenBehavior::FocusExistingInPane);
    assert!(!focuses_existing(&tree, 0, &other.tab, other.open_behavior));
    apply_pending_action(
        &mut tree,
        0,
        PendingAction::SplitWith(other, SplitDir::Horizontal, ChildSide::Second),
        &mut closed,
        &mut actions,
    );
    assert!(matches!(tree.node(0), Node::Split { .. }));
    assert_eq!(tree.find_pane_containing(&3), Some(PaneId::from_raw(2)));
}
