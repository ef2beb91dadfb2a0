//! The decisions of tab drag-and-drop: which drop zones a pane accepts,
//! whether a dragged tab may land in a pane, and what a released drop does
//! to the tree.
use vstd::prelude::*;

use crate::edits::{focus_after_remove, retabbed, tab_merge, tab_move};
use crate::model::{
    first_index, layout_fits, lemma_first_index, left_of, lemma_fits_reaches, lemma_fits_spread, lemma_place_reaches, node_at,
    reaches, relocated, right_of, subtree_at,
};
use crate::pane::{fresh_slot, single_tab_leaf};
use crate::queries::{header_visible_spec, leaf_of_pane};
use crate::restructure::{collapse_result, fresh_child, kept_child, split_result, wrap_result};
use crate::tab::{Tab, allows_target_spec, tab_cloned};
use crate::tree::{ChildSide, Node, PaneId, PaneOptions, PaneRole, PanelTree, SplitDir, allows_split_spec};

verus! {

broadcast use crate::tree::PaneId::lemma_with_raw;

/// What a drag carries: the pane that owns the dragged tab and the tab's
/// position in it.
#[derive(Clone, Copy, Debug, PartialEq, Eq, Structural)]
pub struct DragPayload {
    /// Stable pane identifier of the leaf that owns the dragged tab.
    pub src_pane: PaneId,
    /// Position of the dragged tab within the source leaf's tab list.
    pub tab_pos: usize,
}

/// Where relative to a pane the cursor sits: its middle, or one of its four
/// edges.
#[derive(Clone, Copy, Debug, PartialEq, Eq, Structural)]
pub enum DropZone {
    Center,
    Left,
    Right,
    Top,
    Bottom,
}

/// The split an edge zone asks for: the direction, and the side the dropped
/// tab's new pane takes. The center asks for none.
pub open spec fn zone_split(zone: DropZone) -> Option<(SplitDir, ChildSide)> {
    match zone {
        DropZone::Center => None,
        DropZone::Left => Some((SplitDir::Horizontal, ChildSide::First)),
        DropZone::Right => Some((SplitDir::Horizontal, ChildSide::Second)),
        DropZone::Top => Some((SplitDir::Vertical, ChildSide::First)),
        DropZone::Bottom => Some((SplitDir::Vertical, ChildSide::Second)),
    }
}

/// A pane whose layout is locked accepts no drop; otherwise its drop policy
/// decides: the merge permission for the center, the matching split
/// permission for an edge.
pub open spec fn zone_allowed(options: PaneOptions, zone: DropZone) -> bool {
    !options.lock_layout && match zone_split(zone) {
        None => options.drop_policy.allow_merge,
        Some((dir, side)) => allows_split_spec(options.drop_policy, dir, side),
    }
}

/// Whether a pane with `options` accepts a drop in `zone`.
pub fn drop_zone_allowed(options: PaneOptions, zone: DropZone) -> (r: bool)
    ensures
        r == zone_allowed(options, zone),
{
    if options.lock_layout {
        return false;
    }
    match zone {
        DropZone::Center => options.drop_policy.allow_merge,
        DropZone::Left => options.drop_policy.allows_split(SplitDir::Horizontal, ChildSide::First),
        DropZone::Right => options.drop_policy.allows_split(SplitDir::Horizontal, ChildSide::Second),
        DropZone::Top => options.drop_policy.allows_split(SplitDir::Vertical, ChildSide::First),
        DropZone::Bottom => options.drop_policy.allows_split(SplitDir::Vertical, ChildSide::Second),
    }
}

/// Whether `tab` may be dropped into the pane `pane_id` with role `role`.
pub fn tab_allows_target_pane<T: Clone + 'static>(tab: &Tab<T>, pane_id: PaneId, role: Option<PaneRole>) -> (r: bool)
    ensures
        r == allows_target_spec(tab.drop_policy, pane_id, role),
{
    tab.drop_policy.allows_target(pane_id, role)
}

/// How a drag that is accepted resolves: the zone the drop uses, whether it
/// targets the root edge rather than the pane, and whether it reorders tabs
/// within the source pane's header.
#[derive(Clone, Copy, Debug, PartialEq, Eq, Structural)]
pub struct DropResolution {
    pub zone: DropZone,
    pub at_root: bool,
    pub reorder: bool,
}

/// The leaf that owns the dragged tab: the first leaf of the payload's pane.
pub open spec fn drop_source<T: Clone>(nodes: Seq<Node<T>>, payload: DragPayload) -> Option<int> {
    first_index(nodes, leaf_of_pane(payload.src_pane))
}

/// The dragged tab, where its pane and position exist.
pub open spec fn dragged_tab<T: Clone>(nodes: Seq<Node<T>>, payload: DragPayload) -> Option<Tab<T>> {
    match drop_source(nodes, payload) {
        Some(s) => if payload.tab_pos < nodes[s]->tabs@.len() {
            Some(nodes[s]->tabs@[payload.tab_pos as int])
        } else {
            None
        },
        None => None,
    }
}

/// How a drag of `payload` over the leaf at `target` resolves, the cursor
/// being in `zone` of the pane, in the root-edge zone `root_zone` if any,
/// and in the pane's header or not. `None` when the target is no leaf, the
/// dragged tab does not exist or refuses the target, or neither the root
/// zone nor the pane zone is accepted; an accepted root zone wins.
pub open spec fn drop_resolution<T: Clone>(
    nodes: Seq<Node<T>>,
    payload: DragPayload,
    target: int,
    zone: DropZone,
    root_zone: Option<DropZone>,
    in_header: bool,
) -> Option<DropResolution> {
    let t = node_at(nodes, target);
    if !(t is Leaf) {
        None
    } else if !(dragged_tab(nodes, payload) matches Some(tab) && allows_target_spec(
        tab.drop_policy,
        t->pane,
        t->options.role,
    )) {
        None
    } else {
        let root = match root_zone {
            Some(z) => if zone_allowed(t->options, z) {
                Some(z)
            } else {
                None
            },
            None => None,
        };
        let effective = match root {
            Some(z) => z,
            None => zone,
        };
        if root is None && !zone_allowed(t->options, zone) {
            None
        } else {
            Some(
                DropResolution {
                    zone: effective,
                    at_root: root is Some,
                    reorder: t->pane == payload.src_pane && effective == DropZone::Center && header_visible_spec(t)
                        && in_header && !t->options.lock_layout && t->options.allow_tab_reorder,
                },
            )
        }
    }
}

/// Resolve a drag of `payload` over the leaf at `target_leaf` (see
/// [`drop_resolution`]).
pub fn resolve_drop<T: Clone + 'static>(
    tree: &PanelTree<T>,
    payload: DragPayload,
    target_leaf: usize,
    zone: DropZone,
    root_zone: Option<DropZone>,
    in_header: bool,
) -> (r: Option<DropResolution>)
    ensures
        r == drop_resolution(tree.nodes@, payload, target_leaf as int, zone, root_zone, in_header),
{
    let options = match tree.pane_options(target_leaf) {
        Some(o) => o,
        None => return None,
    };
    let target_pane = match tree.pane_id_at(target_leaf) {
        Some(p) => p,
        None => return None,
    };
    let target_role = options.role;
    let src = tree.pane_index(payload.src_pane);
    proof {
        lemma_first_index(tree.nodes@, leaf_of_pane(payload.src_pane));
    }
    let allowed = match src {
        Some(src_leaf) => match &tree.nodes[src_leaf] {
            Node::Leaf { tabs, .. } => {
                if payload.tab_pos < tabs.len() {
                    tab_allows_target_pane(&tabs[payload.tab_pos], target_pane, target_role)
                } else {
                    false
                }
            },
            _ => false,
        },
        None => false,
    };
    if !allowed {
        return None;
    }
    let zone_ok = drop_zone_allowed(options, zone);
    let root = match root_zone {
        Some(z) => if drop_zone_allowed(options, z) {
            Some(z)
        } else {
            None
        },
        None => None,
    };
    let effective = match root {
        Some(z) => z,
        None => zone,
    };
    if root.is_none() && !zone_ok {
        return None;
    }
    let header_visible = tree.header_visible(target_leaf);
    let reorder = target_pane == payload.src_pane && effective == DropZone::Center && header_visible && in_header
        && !options.lock_layout && options.allow_tab_reorder;
    Some(DropResolution { zone: effective, at_root: root.is_some(), reorder })
}

/// The slot that keeps the existing pane when the leaf at `leaf` splits with
/// the new pane on `side`.
pub open spec fn kept_slot(leaf: int, side: ChildSide) -> int {
    match side {
        ChildSide::First => right_of(leaf),
        ChildSide::Second => left_of(leaf),
    }
}

/// `new` is `nodes` after the dragged tab at `pos` is taken out of the slot
/// at `slot`: where that holds a leaf with such a tab, the tab leaves it and
/// the focus is clamped; then an emptied leaf collapses.
pub open spec fn drop_removal<T: Clone>(nodes: Seq<Node<T>>, new: Seq<Node<T>>, slot: int, pos: int) -> bool {
    let n = node_at(nodes, slot);
    if n is Leaf && 0 <= pos < n->tabs@.len() {
        exists|m: Node<T>|
            {
                &&& #[trigger] retabbed(n, m, n->tabs@.remove(pos), focus_after_remove(n->focused as int, n->tabs@.len() - 1))
                &&& new == collapse_result(nodes.update(slot, m), slot)
            }
    } else {
        new == collapse_result(nodes, slot)
    }
}

/// `new` is `old` after the leaf at `leaf` splits in direction `dir` with a
/// fresh single-tab pane for `tab` on `side`.
pub open spec fn split_with_tab<T: Clone>(old: PanelTree<T>, new: PanelTree<T>, leaf: int, tab: Tab<T>, dir: SplitDir, side: ChildSide) -> bool {
    let fresh = new.nodes@[fresh_slot(leaf, side)];
    &&& single_tab_leaf(fresh, PaneId::with_raw(old.next_pane_id), tab)
    &&& new.nodes@ == split_result(old.nodes@, leaf, dir, fresh, side)
    &&& new.next_pane_id == old.next_pane_id + 1
}

/// `new` is `old` after the whole layout is wrapped in a split in direction
/// `dir` with a fresh single-tab pane for `tab` on `side`.
pub open spec fn wrap_with_tab<T: Clone>(old: PanelTree<T>, new: PanelTree<T>, tab: Tab<T>, dir: SplitDir, side: ChildSide) -> bool {
    let fresh = new.nodes@[fresh_child(side)];
    &&& single_tab_leaf(fresh, PaneId::with_raw(old.next_pane_id), tab)
    &&& new.nodes@ == wrap_result(old.nodes@, dir, fresh, side)
    &&& new.next_pane_id == old.next_pane_id + 1
}

/// The effect of dropping the tab at `pos` of the leaf at `src` (given as
/// `tab`) on an edge of the leaf at `target`: the target splits with a new
/// pane for the tab, then the tab leaves its source (which, when it is the
/// target itself, now sits on the kept side of the split).
pub open spec fn side_drop<T: Clone>(
    old: PanelTree<T>,
    new: PanelTree<T>,
    src: int,
    pos: int,
    target: int,
    tab: Tab<T>,
    dir: SplitDir,
    side: ChildSide,
) -> bool {
    exists|mid: PanelTree<T>|
        {
            &&& #[trigger] split_with_tab(old, mid, target, tab, dir, side)
            &&& drop_removal(mid.nodes@, new.nodes@, if src == target { kept_slot(target, side) } else { src }, pos)
            &&& new.next_pane_id == mid.next_pane_id
        }
}

/// The effect of dropping the tab at `pos` of the leaf at `src` (given as
/// `tab`) on an edge of the whole layout: the layout is wrapped with a new
/// pane for the tab, then the tab leaves its source at the place the source
/// moved to.
pub open spec fn root_drop<T: Clone>(old: PanelTree<T>, new: PanelTree<T>, src: int, pos: int, tab: Tab<T>, dir: SplitDir, side: ChildSide) -> bool {
    exists|mid: PanelTree<T>|
        {
            &&& #[trigger] wrap_with_tab(old, mid, tab, dir, side)
            &&& drop_removal(mid.nodes@, new.nodes@, relocated(0, kept_child(side), src), pos)
            &&& new.next_pane_id == mid.next_pane_id
        }
}

/// Take the tab at `tab_pos` out of the slot at `slot` when it is a leaf with
/// such a tab, clamping the focus, then collapse the slot if it emptied.
fn remove_dropped_tab<T: Clone + 'static>(tree: &mut PanelTree<T>, slot: usize, tab_pos: usize)
    requires
        slot < old(tree).nodes@.len(),
    ensures
        drop_removal(old(tree).nodes@, final(tree).nodes@, slot as int, tab_pos as int),
        final(tree).next_pane_id == old(tree).next_pane_id,
{
    let ghost start = tree.nodes@;
    let len = tree.nodes.len();
    let removed = match tree.node_mut(slot) {
        Node::Leaf { tabs, focused, .. } => {
            if tab_pos < tabs.len() {
                tabs.remove(tab_pos);
                if tabs.len() > 0 && *focused >= tabs.len() {
                    *focused = tabs.len() - 1;
                }
                true
            } else {
                false
            }
        },
        _ => false,
    };
    let ghost mid = tree.nodes@;
    proof {
        if !removed {
            assert(mid =~= start);
        } else {
            assert(retabbed(
                start[slot as int],
                mid[slot as int],
                start[slot as int]->tabs@.remove(tab_pos as int),
                focus_after_remove(start[slot as int]->focused as int, start[slot as int]->tabs@.len() - 1),
            ));
        }
    }
    tree.collapse_empty_leaf(slot);
}

/// Remove the tab from its source and split the target pane to host it.
///
/// The target splits first, which moves no existing node, so the source
/// keeps its index; the tab is then removed from the source and an emptied
/// source collapses. When the source is the target, the tab leaves the
/// child that kept the existing tabs.
pub fn apply_directional_drop<T: Clone + 'static>(
    tree: &mut PanelTree<T>,
    src_leaf: usize,
    tab_pos: usize,
    target_leaf: usize,
    tab: Tab<T>,
    dir: SplitDir,
    side: ChildSide,
)
    requires
        src_leaf < old(tree).nodes@.len(),
        node_at(old(tree).nodes@, target_leaf as int) is Leaf,
        right_of(target_leaf as int) < usize::MAX,
        old(tree).next_pane_id < u64::MAX,
    ensures
        side_drop(*old(tree), *final(tree), src_leaf as int, tab_pos as int, target_leaf as int, tab, dir, side),
{
    tree.split_leaf(target_leaf, dir, tab, side);
    let ghost mid = *tree;
    let slot = if src_leaf == target_leaf {
        match side {
            ChildSide::First => 2 * target_leaf + 2,
            ChildSide::Second => 2 * target_leaf + 1,
        }
    } else {
        src_leaf
    };
    remove_dropped_tab(tree, slot, tab_pos);
    proof {
        assert(split_with_tab(*old(tree), mid, target_leaf as int, tab, dir, side));
    }
}

/// The index that index `i` of the layout takes when the whole layout is
/// written with its root at `k`.
fn relocate_index(k: usize, i: usize) -> (r: usize)
    requires
        relocated(0, k as int, i as int) < usize::MAX,
    ensures
        r == relocated(0, k as int, i as int),
    decreases i,
{
    if i == 0 {
        k
    } else {
        let p = (i - 1) / 2;
        let q = relocate_index(k, p);
        if i == 2 * p + 1 {
            2 * q + 1
        } else {
            2 * q + 2
        }
    }
}

/// Remove the tab from its source and wrap the whole layout to host it on
/// a root edge. The old layout moves under the new root, so the source is
/// found again at its relocated index.
pub fn apply_root_directional_drop<T: Clone + 'static>(
    tree: &mut PanelTree<T>,
    src_leaf: usize,
    tab_pos: usize,
    tab: Tab<T>,
    dir: SplitDir,
    side: ChildSide,
)
    requires
        old(tree).can_wrap_root(side),
        reaches(old(tree).nodes@, 0, src_leaf as int),
    ensures
        root_drop(*old(tree), *final(tree), src_leaf as int, tab_pos as int, tab, dir, side),
{
    let ghost start = tree.nodes@;
    tree.wrap_root_with_split(dir, tab, side);
    let ghost mid = *tree;
    let existing_child: usize = match side {
        ChildSide::First => 2,
        ChildSide::Second => 1,
    };
    proof {
        lemma_fits_reaches(start, 0, kept_child(side), src_leaf as int);
        lemma_place_reaches(
            crate::model::grown(seq![Node::<T>::Split { dir, ratio: crate::tree::HALF_RATIO }], fresh_child(side)).update(
                fresh_child(side),
                mid.nodes@[fresh_child(side)],
            ),
            start,
            0,
            kept_child(side),
            src_leaf as int,
        );
    }
    let shifted = relocate_index(existing_child, src_leaf);
    remove_dropped_tab(tree, shifted, tab_pos);
    proof {
        assert(wrap_with_tab(*old(tree), mid, tab, dir, side));
    }
}

/// Whether a drag of the tab at `tab_pos` of the leaf at `leaf` may start: the
/// tab exists and is draggable, and its pane is not layout-locked and lets
/// tabs be dragged out of it or reordered within it.
pub open spec fn drag_start_allowed<T: Clone>(nodes: Seq<Node<T>>, leaf: int, tab_pos: int) -> bool {
    let n = node_at(nodes, leaf);
    &&& n is Leaf
    &&& 0 <= tab_pos < n->tabs@.len()
    &&& n->tabs@[tab_pos].draggable
    &&& !n->options.lock_layout
    &&& (n->options.allow_tab_drag_out || n->options.allow_tab_reorder)
}

/// Whether a drag of the tab at `tab_pos` of the leaf at `leaf` may start
/// (see [`drag_start_allowed`]).
pub fn can_start_drag<T: Clone + 'static>(tree: &PanelTree<T>, leaf: usize, tab_pos: usize) -> (r: bool)
    ensures
        r == drag_start_allowed(tree.nodes@, leaf as int, tab_pos as int),
{
    if leaf >= tree.nodes.len() {
        return false;
    }
    match &tree.nodes[leaf] {
        Node::Leaf { tabs, options, .. } => tab_pos < tabs.len() && tabs[tab_pos].draggable && !options.lock_layout
            && (options.allow_tab_drag_out || options.allow_tab_reorder),
        _ => false,
    }
}

/// Whether the dragged tab of `payload` may be picked up (see
/// [`drag_start_allowed`]) from the first leaf of its pane.
pub open spec fn drag_permitted<T: Clone>(nodes: Seq<Node<T>>, payload: DragPayload) -> bool {
    match drop_source(nodes, payload) {
        Some(s) => drag_start_allowed(nodes, s, payload.tab_pos as int),
        None => false,
    }
}

/// Whether the pane of the dragged tab of `payload` lets tabs be dragged out
/// of it.
pub open spec fn drag_out_allowed<T: Clone>(nodes: Seq<Node<T>>, payload: DragPayload) -> bool {
    match drop_source(nodes, payload) {
        Some(s) => nodes[s]->options.allow_tab_drag_out,
        None => false,
    }
}

/// Whether the drag resolves (see [`drop_resolution`]) to an edge zone, where
/// a release would make a new pane.
pub open spec fn drop_makes_pane<T: Clone>(
    nodes: Seq<Node<T>>,
    payload: DragPayload,
    target: int,
    zone: DropZone,
    root_zone: Option<DropZone>,
    in_header: bool,
) -> bool {
    match drop_resolution(nodes, payload, target, zone, root_zone, in_header) {
        Some(res) => zone_split(res.zone) is Some,
        None => false,
    }
}

/// Whether the drag resolves (see [`drop_resolution`]) to a root-edge zone.
pub open spec fn drop_at_root<T: Clone>(
    nodes: Seq<Node<T>>,
    payload: DragPayload,
    target: int,
    zone: DropZone,
    root_zone: Option<DropZone>,
    in_header: bool,
) -> bool {
    match drop_resolution(nodes, payload, target, zone, root_zone, in_header) {
        Some(res) => res.at_root,
        None => false,
    }
}

/// The leaf that owns the dragged tab, where there is one, is part of the
/// layout.
pub open spec fn source_reached<T: Clone>(nodes: Seq<Node<T>>, payload: DragPayload) -> bool {
    match drop_source(nodes, payload) {
        Some(s) => reaches(nodes, 0, s),
        None => true,
    }
}

/// What releasing a drag of `payload` over the leaf at `target` does, given
/// the pane zone, the root-edge zone, whether the cursor is in the pane's
/// header and the tab position under the cursor there: nothing unless the
/// drag resolves (see [`drop_resolution`]) and may be picked up (see
/// [`drag_permitted`]). A center drop onto its own pane reorders the tab to
/// the header position when the header is shown, hit and reordering is
/// allowed. Every other drop takes the tab out of its pane, and does nothing
/// unless that pane lets tabs be dragged out: a center drop onto another pane
/// moves the tab there and collapses an emptied source; an edge drop splits
/// the target, or wraps the layout at the root edge, with a new pane for a
/// copy of the tab, which leaves its source.
pub open spec fn drop_released<T: Clone>(
    old: PanelTree<T>,
    new: PanelTree<T>,
    payload: DragPayload,
    target: int,
    zone: DropZone,
    root_zone: Option<DropZone>,
    in_header: bool,
    header_index: Option<usize>,
) -> bool {
    match drop_resolution(old.nodes@, payload, target, zone, root_zone, in_header) {
        None => new == old,
        Some(res) => {
            let s = drop_source(old.nodes@, payload)->0;
            let pos = payload.tab_pos as int;
            let tab = old.nodes@[s]->tabs@[pos];
            let t = old.nodes@[target];
            if !drag_permitted(old.nodes@, payload) {
                new == old
            } else {
                match zone_split(res.zone) {
                    None => if s == target {
                        match header_index {
                            Some(to) => if header_visible_spec(t) && in_header && t->options.allow_tab_reorder {
                                &&& new.next_pane_id == old.next_pane_id
                                &&& exists|moved: bool| #[trigger] tab_move(old.nodes@, new.nodes@, target, pos, to as int, moved)
                            } else {
                                new == old
                            },
                            None => new == old,
                        }
                    } else if !drag_out_allowed(old.nodes@, payload) {
                        new == old
                    } else {
                        &&& new.next_pane_id == old.next_pane_id
                        &&& exists|mid: Seq<Node<T>>|
                            #[trigger] tab_merge(old.nodes@, mid, s, pos, target) && new.nodes@ == collapse_result(mid, s)
                    },
                    Some((dir, side)) => if !drag_out_allowed(old.nodes@, payload) {
                        new == old
                    } else {
                        exists|copy: Tab<T>|
                            #[trigger] tab_cloned(tab, copy) && if res.at_root {
                                root_drop(old, new, s, pos, copy, dir, side)
                            } else {
                                side_drop(old, new, s, pos, target, copy, dir, side)
                            }
                    },
                }
            }
        },
    }
}

/// Apply the release of a drag of `payload` over the leaf at `target_leaf`
/// (see [`drop_released`]). `header_index` is the tab position under the
/// cursor in the target's header.
pub fn release_drop<T: Clone + 'static>(
    tree: &mut PanelTree<T>,
    payload: DragPayload,
    target_leaf: usize,
    zone: DropZone,
    root_zone: Option<DropZone>,
    in_header: bool,
    header_index: Option<usize>,
)
    requires
        3 * old(tree).nodes@.len() <= usize::MAX,
        drop_makes_pane(old(tree).nodes@, payload, target_leaf as int, zone, root_zone, in_header)
            ==> old(tree).next_pane_id < u64::MAX,
        drop_at_root(old(tree).nodes@, payload, target_leaf as int, zone, root_zone, in_header) ==> source_reached(
            old(tree).nodes@,
            payload,
        ),
    ensures
        drop_released(*old(tree), *final(tree), payload, target_leaf as int, zone, root_zone, in_header, header_index),
{
    let res = match resolve_drop(tree, payload, target_leaf, zone, root_zone, in_header) {
        Some(r) => r,
        None => return ,
    };
    let options = match tree.pane_options(target_leaf) {
        Some(o) => o,
        None => return ,
    };
    let target_pane = match tree.pane_id_at(target_leaf) {
        Some(p) => p,
        None => return ,
    };
    let src = tree.pane_index(payload.src_pane);
    proof {
        lemma_first_index(tree.nodes@, leaf_of_pane(payload.src_pane));
    }
    let src_leaf = match src {
        Some(s) => s,
        None => return ,
    };
    let tab_pos = payload.tab_pos;
    let tab = match &tree.nodes[src_leaf] {
        Node::Leaf { tabs, options: src_options, .. } => {
            if tab_pos < tabs.len() && tabs[tab_pos].draggable && tab_allows_target_pane(
                &tabs[tab_pos],
                target_pane,
                options.role,
            ) && !src_options.lock_layout && (src_options.allow_tab_drag_out || src_options.allow_tab_reorder) {
                (tabs[tab_pos].clone(), src_options.allow_tab_drag_out)
            } else {
                return ;
            }
        },
        _ => return ,
    };
    let (tab, drag_out) = tab;
    let leaves_pane = match res.zone {
        DropZone::Center => src_leaf != target_leaf,
        _ => true,
    };
    if leaves_pane && !drag_out {
        return ;
    }
    let len = tree.nodes.len();
    match res.zone {
        DropZone::Center => {
            if src_leaf == target_leaf {
                if tree.header_visible(target_leaf) && in_header && options.allow_tab_reorder {
                    if let Some(target_pos) = header_index {
                        let _ = tree.move_tab_within_leaf(target_leaf, tab_pos, target_pos);
                    }
                }
            } else {
                tree.merge_tab_into(src_leaf, tab_pos, target_leaf);
                let ghost mid = tree.nodes@;
                tree.collapse_empty_leaf(src_leaf);
                proof {
                    assert(tab_merge(old(tree).nodes@, mid, src_leaf as int, tab_pos as int, target_leaf as int));
                }
            }
        },
        _ => {
            let (dir, side) = match res.zone {
                DropZone::Left => (SplitDir::Horizontal, ChildSide::First),
                DropZone::Right => (SplitDir::Horizontal, ChildSide::Second),
                DropZone::Top => (SplitDir::Vertical, ChildSide::First),
                _ => (SplitDir::Vertical, ChildSide::Second),
            };
            if res.at_root {
                proof {
                    lemma_fits_spread(tree.nodes@, 0, kept_child(side));
                }
                apply_root_directional_drop(tree, src_leaf, tab_pos, tab, dir, side);
            } else {
                apply_directional_drop(tree, src_leaf, tab_pos, target_leaf, tab, dir, side);
            }
        },
    }
}

} // verus!
