//! The decisions of a pane header: opening a menu entry in a pane, applying
//! the action a header interaction asked for, choosing which tabs fit, and
//! the labels of the overflow menu.
use vstd::prelude::*;
use vstd::std_specs::cmp::PartialEqSpec;
use vstd::string::*;

use crate::anchors::{pane_move, pane_removal};
use crate::edits::{tab_inserted, tab_removal, tabs_closing};
use crate::menu::{AddTabEntry, OpenBehavior, PaneActionInvocation};
use crate::model::{node_at, right_of};
use crate::pane::{fresh_slot, single_tab_leaf};
use crate::queries::{find_tab_spec, match_in_leaf, refocused, with_focused};
use crate::restructure::split_result;
use crate::tab::{Tab, TabIcon};
use crate::tree::{ChildSide, Node, PaneAnchor, PaneId, PanelTree, SplitDir};

verus! {

/// The tab that opening `tab` in the slot at `leaf` with `behavior` focuses
/// instead of inserting, as its leaf and position: for `FocusExisting`, the
/// first match in the first leaf holding one anywhere in the tree; for
/// `FocusExistingInPane`, the first match in the target leaf itself; none for
/// `AllowDuplicate`.
pub open spec fn existing_match<T: Clone + PartialEq>(nodes: Seq<Node<T>>, leaf: int, tab: Tab<T>, behavior: OpenBehavior) -> Option<(int, int)> {
    match behavior {
        OpenBehavior::AllowDuplicate => None,
        OpenBehavior::FocusExisting => find_tab_spec(nodes, tab.id),
        OpenBehavior::FocusExistingInPane => match match_in_leaf(nodes, leaf, tab.id) {
            Some(p) => Some((leaf, p)),
            None => None,
        },
    }
}

/// Whether opening `tab` in the slot at `leaf` with `behavior` focuses an
/// existing tab rather than inserting (see [`existing_match`]).
pub open spec fn opens_existing<T: Clone + PartialEq>(nodes: Seq<Node<T>>, leaf: int, tab: Tab<T>, behavior: OpenBehavior) -> bool {
    existing_match(nodes, leaf, tab, behavior) is Some
}

/// `new` is `old` after `tab` is opened in the leaf at `leaf` with
/// `behavior`: the match of [`existing_match`] is focused where there is one,
/// otherwise the tab is appended to the leaf and focused.
pub open spec fn opened<T: Clone + PartialEq>(old: Seq<Node<T>>, new: Seq<Node<T>>, leaf: int, tab: Tab<T>, behavior: OpenBehavior) -> bool {
    match existing_match(old, leaf, tab, behavior) {
        Some((l, p)) => new == old.update(l, with_focused(old[l], p as usize)),
        None => tab_inserted(old, new, leaf, tab),
    }
}

/// What opening `tab` in the leaf at `leaf` with `behavior` does, whichever
/// tab the identifiers match: `AllowDuplicate` appends the tab and focuses it;
/// `FocusExisting` either focuses a tab of some leaf or appends;
/// `FocusExistingInPane` either focuses a tab of the target leaf or appends.
pub open spec fn open_effect<T: Clone>(old: Seq<Node<T>>, new: Seq<Node<T>>, leaf: int, tab: Tab<T>, behavior: OpenBehavior) -> bool {
    match behavior {
        OpenBehavior::AllowDuplicate => tab_inserted(old, new, leaf, tab),
        OpenBehavior::FocusExisting => (exists|l: int| #[trigger] refocused(old, new, l)) || tab_inserted(
            old,
            new,
            leaf,
            tab,
        ),
        OpenBehavior::FocusExistingInPane => refocused(old, new, leaf) || tab_inserted(old, new, leaf, tab),
    }
}

/// What opening `tab` with `behavior` by splitting the leaf at `leaf` does,
/// whichever tab the identifiers match: a tab is focused as in
/// [`open_effect`] and no pane is made, or the leaf splits as in
/// [`split_into`].
pub open spec fn split_open_effect<T: Clone>(
    old: PanelTree<T>,
    new: PanelTree<T>,
    leaf: int,
    tab: Tab<T>,
    behavior: OpenBehavior,
    dir: SplitDir,
    side: ChildSide,
) -> bool {
    let focused = match behavior {
        OpenBehavior::AllowDuplicate => false,
        OpenBehavior::FocusExisting => exists|l: int| #[trigger] refocused(old.nodes@, new.nodes@, l),
        OpenBehavior::FocusExistingInPane => refocused(old.nodes@, new.nodes@, leaf),
    };
    ||| focused && new.next_pane_id == old.next_pane_id
    ||| split_into(old, new, leaf, tab, dir, side)
}

/// Whether opening `tab` in the slot at `leaf` with `behavior` can proceed:
/// the slot holds a leaf, or the tab is certain to be focused elsewhere.
pub open spec fn can_open<T: Clone + PartialEq>(nodes: Seq<Node<T>>, leaf: int, tab: Tab<T>, behavior: OpenBehavior) -> bool {
    node_at(nodes, leaf) is Leaf || (T::obeys_eq_spec() && opens_existing(nodes, leaf, tab, behavior))
}

/// Whether opening `tab` in the leaf at `leaf_idx` with `behavior` focuses an
/// existing tab rather than inserting one or splitting for one (see
/// [`opens_existing`]).
pub fn focuses_existing<T: Clone + PartialEq + 'static>(
    tree: &PanelTree<T>,
    leaf_idx: usize,
    tab: &Tab<T>,
    behavior: OpenBehavior,
) -> (r: bool)
    ensures
        behavior == OpenBehavior::AllowDuplicate ==> !r,
        behavior == OpenBehavior::FocusExisting && r ==> exists|l: int|
            0 <= l < tree.nodes@.len() && #[trigger] tree.nodes@[l] is Leaf && tree.nodes@[l]->tabs@.len() > 0,
        behavior == OpenBehavior::FocusExistingInPane && r ==> node_at(tree.nodes@, leaf_idx as int) is Leaf && node_at(
            tree.nodes@,
            leaf_idx as int,
        )->tabs@.len() > 0,
        T::obeys_eq_spec() ==> r == opens_existing(tree.nodes@, leaf_idx as int, *tab, behavior),
{
    match behavior {
        OpenBehavior::AllowDuplicate => false,
        OpenBehavior::FocusExisting => match tree.find_tab(&tab.id) {
            Some((l, _)) => {
                proof {
                    assert(tree.nodes@[l as int] is Leaf);
                }
                true
            },
            None => false,
        },
        OpenBehavior::FocusExistingInPane => tree.position_in_leaf(leaf_idx, &tab.id).is_some(),
    }
}

/// Open a menu entry in the leaf at `leaf_idx` according to its open
/// behavior.
pub fn apply_open_entry_to_leaf<T: Clone + PartialEq + 'static>(tree: &mut PanelTree<T>, leaf_idx: usize, entry: AddTabEntry<T>)
    requires
        can_open(old(tree).nodes@, leaf_idx as int, entry.tab, entry.open_behavior),
    ensures
        final(tree).next_pane_id == old(tree).next_pane_id,
        open_effect(old(tree).nodes@, final(tree).nodes@, leaf_idx as int, entry.tab, entry.open_behavior),
        T::obeys_eq_spec() ==> opened(old(tree).nodes@, final(tree).nodes@, leaf_idx as int, entry.tab, entry.open_behavior),
{
    let tab = entry.tab;
    match entry.open_behavior {
        OpenBehavior::AllowDuplicate => tree.insert_tab_into_leaf(leaf_idx, tab),
        OpenBehavior::FocusExisting => {
            if !tree.focus_tab(&tab.id) {
                tree.insert_tab_into_leaf(leaf_idx, tab);
            }
        },
        OpenBehavior::FocusExistingInPane => {
            if !tree.focus_tab_in_leaf(leaf_idx, &tab.id) {
                tree.insert_tab_into_leaf(leaf_idx, tab);
            }
        },
    }
}

/// `new` is `old` after `tab` is opened with `behavior` by splitting the leaf
/// at `leaf` in direction `dir`, the new pane on `side`: the match of
/// [`existing_match`] is focused where there is one, otherwise the leaf splits
/// and the tab gets a fresh single-tab pane with the next identifier.
pub open spec fn split_opened<T: Clone + PartialEq>(
    old: PanelTree<T>,
    new: PanelTree<T>,
    leaf: int,
    tab: Tab<T>,
    behavior: OpenBehavior,
    dir: SplitDir,
    side: ChildSide,
) -> bool {
    match existing_match(old.nodes@, leaf, tab, behavior) {
        Some((l, p)) => {
            &&& new.nodes@ == old.nodes@.update(l, with_focused(old.nodes@[l], p as usize))
            &&& new.next_pane_id == old.next_pane_id
        },
        None => split_into(old, new, leaf, tab, dir, side),
    }
}

/// `new` is `old` after the leaf at `leaf` splits in direction `dir` with a
/// fresh single-tab pane for `tab` on `side`.
pub open spec fn split_into<T: Clone>(old: PanelTree<T>, new: PanelTree<T>, leaf: int, tab: Tab<T>, dir: SplitDir, side: ChildSide) -> bool {
    let fresh = new.nodes@[fresh_slot(leaf, side)];
    &&& single_tab_leaf(fresh, PaneId::with_raw(old.next_pane_id), tab)
    &&& new.nodes@ == split_result(old.nodes@, leaf, dir, fresh, side)
    &&& new.next_pane_id == old.next_pane_id + 1
}

/// Whether opening `tab` with `behavior` by splitting the slot at `leaf` can
/// proceed: the slot holds a leaf whose children fit and a pane identifier is
/// left, or the tab is certain to be focused elsewhere.
pub open spec fn can_split_open<T: Clone + PartialEq>(tree: PanelTree<T>, leaf: int, tab: Tab<T>, behavior: OpenBehavior) -> bool {
    ||| node_at(tree.nodes@, leaf) is Leaf && right_of(leaf) < usize::MAX && tree.next_pane_id < u64::MAX
    ||| T::obeys_eq_spec() && opens_existing(tree.nodes@, leaf, tab, behavior)
}

/// What a header interaction asks of its pane.
pub enum PendingAction<T: Clone + 'static> {
    /// Close the tab at a position.
    Close(usize),
    /// Close every closable tab but the one at a position.
    CloseOthers(usize),
    /// Close every closable tab.
    CloseAll,
    /// Remove the pane.
    RemovePane,
    /// Move the pane to a root-edge anchor.
    MovePane(PaneAnchor),
    /// Open a menu entry in the pane.
    AddTab(AddTabEntry<T>),
    /// Open a menu entry in a new pane split off this one.
    SplitWith(AddTabEntry<T>, SplitDir, ChildSide),
    /// Report a custom pane action to the caller.
    EmitPaneAction(PaneActionInvocation),
}

/// Whether applying `action` to the leaf at `leaf` of `tree` can proceed.
pub open spec fn can_apply<T: Clone + PartialEq>(tree: PanelTree<T>, leaf: int, action: PendingAction<T>) -> bool {
    &&& leaf < usize::MAX
    &&& match action {
        PendingAction::MovePane(_) => 3 * tree.nodes@.len() <= usize::MAX,
        PendingAction::AddTab(entry) => can_open(tree.nodes@, leaf, entry.tab, entry.open_behavior),
        PendingAction::SplitWith(entry, _, _) => can_split_open(tree, leaf, entry.tab, entry.open_behavior),
        _ => true,
    }
}

/// The identifiers a removal hands back, as a sequence.
pub open spec fn removed_ids<T: Clone>(r: Option<Vec<T>>) -> Seq<T> {
    match r {
        Some(ids) => ids@,
        None => Seq::empty(),
    }
}

/// Apply the action a header interaction asked of the leaf at `leaf_idx`:
/// identifiers of closed tabs are appended to `closed_tabs`, invoked custom
/// actions to `pane_actions`.
pub fn apply_pending_action<T: Clone + PartialEq + 'static>(
    tree: &mut PanelTree<T>,
    leaf_idx: usize,
    action: PendingAction<T>,
    closed_tabs: &mut Vec<T>,
    pane_actions: &mut Vec<PaneActionInvocation>,
)
    requires
        can_apply(*old(tree), leaf_idx as int, action),
    ensures
        ({
            let old_nodes = old(tree).nodes@;
            let new_nodes = final(tree).nodes@;
            let leaf = leaf_idx as int;
            let n = node_at(old_nodes, leaf);
            match action {
                PendingAction::Close(pos) => {
                    &&& final(tree).next_pane_id == old(tree).next_pane_id
                    &&& final(pane_actions)@ == old(pane_actions)@
                    &&& exists|r: Option<Tab<T>>|
                        {
                            &&& #[trigger] tab_removal(old_nodes, new_nodes, leaf, pos as int, r)
                            &&& final(closed_tabs)@ == match r {
                                Some(t) => old(closed_tabs)@.push(t.id),
                                None => old(closed_tabs)@,
                            }
                        }
                },
                PendingAction::CloseOthers(keep) => {
                    &&& final(tree).next_pane_id == old(tree).next_pane_id
                    &&& final(pane_actions)@ == old(pane_actions)@
                    &&& exists|ids: Seq<T>|
                        #[trigger] tabs_closing(old_nodes, new_nodes, leaf, Some(keep), ids) && final(closed_tabs)@
                            == old(closed_tabs)@ + ids
                },
                PendingAction::CloseAll => {
                    &&& final(tree).next_pane_id == old(tree).next_pane_id
                    &&& final(pane_actions)@ == old(pane_actions)@
                    &&& exists|ids: Seq<T>|
                        #[trigger] tabs_closing(old_nodes, new_nodes, leaf, None, ids) && final(closed_tabs)@
                            == old(closed_tabs)@ + ids
                },
                PendingAction::RemovePane => {
                    &&& final(tree).next_pane_id == old(tree).next_pane_id
                    &&& final(pane_actions)@ == old(pane_actions)@
                    &&& if n is Leaf {
                        exists|r: Option<Vec<T>>|
                            #[trigger] pane_removal(old_nodes, new_nodes, n->pane, r) && final(closed_tabs)@
                                == old(closed_tabs)@ + removed_ids(r)
                    } else {
                        new_nodes == old_nodes && final(closed_tabs)@ == old(closed_tabs)@
                    }
                },
                PendingAction::MovePane(anchor) => {
                    &&& final(tree).next_pane_id == old(tree).next_pane_id
                    &&& final(pane_actions)@ == old(pane_actions)@
                    &&& final(closed_tabs)@ == old(closed_tabs)@
                    &&& if n is Leaf {
                        exists|r: Option<PaneId>| #[trigger] pane_move(old_nodes, new_nodes, n->pane, anchor, r)
                    } else {
                        new_nodes == old_nodes
                    }
                },
                PendingAction::AddTab(entry) => {
                    &&& final(tree).next_pane_id == old(tree).next_pane_id
                    &&& final(pane_actions)@ == old(pane_actions)@
                    &&& final(closed_tabs)@ == old(closed_tabs)@
                    &&& open_effect(old_nodes, new_nodes, leaf, entry.tab, entry.open_behavior)
                    &&& T::obeys_eq_spec() ==> opened(old_nodes, new_nodes, leaf, entry.tab, entry.open_behavior)
                },
                PendingAction::SplitWith(entry, dir, side) => {
                    &&& final(pane_actions)@ == old(pane_actions)@
                    &&& final(closed_tabs)@ == old(closed_tabs)@
                    &&& split_open_effect(*old(tree), *final(tree), leaf, entry.tab, entry.open_behavior, dir, side)
                    &&& T::obeys_eq_spec() ==> split_opened(
                        *old(tree),
                        *final(tree),
                        leaf,
                        entry.tab,
                        entry.open_behavior,
                        dir,
                        side,
                    )
                },
                PendingAction::EmitPaneAction(invocation) => {
                    &&& *final(tree) == *old(tree)
                    &&& final(closed_tabs)@ == old(closed_tabs)@
                    &&& final(pane_actions)@ == old(pane_actions)@.push(invocation)
                },
            }
        }),
{
    match action {
        PendingAction::Close(tab_pos) => {
            let r = tree.remove_tab_at(leaf_idx, tab_pos);
            proof {
                assert(tab_removal(old(tree).nodes@, tree.nodes@, leaf_idx as int, tab_pos as int, r));
            }
            if let Some(tab) = r {
                closed_tabs.push(tab.id);
            }
        },
        PendingAction::CloseOthers(keep_pos) => {
            let mut ids = tree.close_other_tabs_in_leaf(leaf_idx, keep_pos);
            let ghost closed = ids@;
            closed_tabs.append(&mut ids);
            proof {
                assert(tabs_closing(old(tree).nodes@, tree.nodes@, leaf_idx as int, Some(keep_pos), closed));
            }
        },
        PendingAction::CloseAll => {
            let mut ids = tree.close_all_tabs_in_leaf(leaf_idx);
            let ghost closed = ids@;
            closed_tabs.append(&mut ids);
            proof {
                assert(tabs_closing(old(tree).nodes@, tree.nodes@, leaf_idx as int, None, closed));
            }
        },
        PendingAction::RemovePane => {
            if let Some(pane_id) = tree.pane_id_at(leaf_idx) {
                let removed = tree.remove_pane(pane_id);
                proof {
                    assert(pane_removal(old(tree).nodes@, tree.nodes@, pane_id, removed));
                }
                if let Some(mut ids) = removed {
                    closed_tabs.append(&mut ids);
                }
            }
        },
        PendingAction::MovePane(anchor) => {
            if let Some(pane_id) = tree.pane_id_at(leaf_idx) {
                let moved = tree.move_pane_to_anchor(pane_id, anchor);
                proof {
                    assert(pane_move(old(tree).nodes@, tree.nodes@, pane_id, anchor, moved));
                }
            }
        },
        PendingAction::AddTab(entry) => {
            apply_open_entry_to_leaf(tree, leaf_idx, entry);
        },
        PendingAction::SplitWith(entry, dir, side) => {
            let tab = entry.tab;
            match entry.open_behavior {
                OpenBehavior::AllowDuplicate => {
                    tree.split_leaf(leaf_idx, dir, tab, side);
                },
                OpenBehavior::FocusExisting => {
                    if !tree.focus_tab(&tab.id) {
                        tree.split_leaf(leaf_idx, dir, tab, side);
                    }
                },
                OpenBehavior::FocusExistingInPane => {
                    if !tree.focus_tab_in_leaf(leaf_idx, &tab.id) {
                        tree.split_leaf(leaf_idx, dir, tab, side);
                    }
                },
            }
        },
        PendingAction::EmitPaneAction(invocation) => {
            pane_actions.push(invocation);
        },
    }
}

/// The label of a tab in the overflow menu: a text icon, a space and the
/// title; `[img] ` and the title for a texture icon; the bare title
/// otherwise.
pub open spec fn overflow_label<T: Clone>(tab: Tab<T>) -> Seq<char> {
    match tab.icon {
        Some(TabIcon::Text(text)) => text@ + " "@ + tab.title@,
        Some(TabIcon::Texture { .. }) => "[img] "@ + tab.title@,
        None => tab.title@,
    }
}

pub fn overflow_tab_label<T: Clone + 'static>(tab: &Tab<T>) -> (r: String)
    ensures
        r@ == overflow_label(*tab),
{
    match &tab.icon {
        Some(TabIcon::Text(text)) => {
            let mut label = text.clone();
            label.append(" ");
            label.append(tab.title.as_str());
            label
        },
        Some(TabIcon::Texture { .. }) => {
            let mut label = String::from_str("[img] ");
            label.append(tab.title.as_str());
            label
        },
        None => tab.title.clone(),
    }
}

/// The tab positions shown in a header that has room for `count` tabs:
/// the first `count`, except that a focus at or past `count` takes the last
/// place.
pub open spec fn visible_tabs(count: int, focused: int) -> Seq<usize> {
    if focused >= count {
        Seq::new((count - 1) as nat, |i: int| i as usize).push(focused as usize)
    } else {
        Seq::new(count as nat, |i: int| i as usize)
    }
}

/// The positions below `n` that are not in `visible`, in increasing order.
pub open spec fn hidden_tabs(visible: Seq<usize>, n: int) -> Seq<usize>
    decreases n,
{
    if n <= 0 {
        Seq::empty()
    } else {
        let rest = hidden_tabs(visible, n - 1);
        if visible.contains((n - 1) as usize) {
            rest
        } else {
            rest.push((n - 1) as usize)
        }
    }
}

/// Choose which of `tab_count` tabs a header with room for `visible_count`
/// of them shows, and which go to the overflow menu: the first ones, with
/// the focused tab kept in view.
pub fn visible_tab_indices(tab_count: usize, focused: usize, visible_count: usize) -> (r: (Vec<usize>, Vec<usize>))
    requires
        tab_count > 0 ==> 1 <= visible_count <= tab_count,
    ensures
        tab_count == 0 ==> r.0@.len() == 0 && r.1@.len() == 0,
        tab_count > 0 ==> r.0@ == visible_tabs(visible_count as int, focused as int),
        tab_count > 0 ==> r.1@ == hidden_tabs(r.0@, tab_count as int),
{
    if tab_count == 0 {
        return (Vec::new(), Vec::new());
    }
    let mut visible: Vec<usize> = Vec::new();
    let mut i: usize = 0;
    while i < visible_count
        invariant
            i <= visible_count,
            visible@ == Seq::new(i as nat, |k: int| k as usize),
        decreases visible_count - i,
    {
        visible.push(i);
        i = i + 1;
        proof {
            assert(visible@ =~= Seq::new(i as nat, |k: int| k as usize));
        }
    }
    if focused >= visible_count {
        let last = visible.len() - 1;
        visible.set(last, focused);
        proof {
            assert(visible@ =~= Seq::new((visible_count - 1) as nat, |k: int| k as usize).push(focused));
        }
    }
    let mut hidden: Vec<usize> = Vec::new();
    let mut idx: usize = 0;
    while idx < tab_count
        invariant
            idx <= tab_count,
            hidden@ == hidden_tabs(visible@, idx as int),
        decreases tab_count - idx,
    {
        if !contains_index(&visible, idx) {
            hidden.push(idx);
        }
        idx = idx + 1;
    }
    (visible, hidden)
}

fn contains_index(list: &Vec<usize>, x: usize) -> (r: bool)
    ensures
        r == list@.contains(x),
{
    let mut i: usize = 0;
    while i < list.len()
        invariant
            i <= list@.len(),
            forall|j: int| 0 <= j < i ==> list@[j] != x,
        decreases list.len() - i,
    {
        if list[i] == x {
            return true;
        }
        i = i + 1;
    }
    false
}

} // verus!
