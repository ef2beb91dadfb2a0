//! Laws of the layout: what splitting a leaf, wrapping the root, collapsing
//! an empty leaf and dropping a tab do to the tabs and panes that the layout
//! shows, and the properties that hold across two operations (reading back
//! what was written, undoing a move, ensuring twice).
use vstd::prelude::*;

use crate::model::{
    Layout, blank_subtree, first_index, grown, in_subtree, layout_panes, layout_tabs, left_of, lemma_blank_frame, lemma_grown,
    lemma_first_index, lemma_in_subtree_children, lemma_in_subtree_ge, lemma_reaches_descend, lemma_reaches_root,
    lemma_subtree_local, node_at, parent_of, place_layout, reaches, relocated, right_of, sibling_of, subtree_at,
};
use crate::anchors::{anchor_ensured, anchored_options, pane_move, pane_removal, root_split_for};
use crate::dnd::{
    DragPayload, DropZone, drag_permitted, drop_released, drop_removal, drop_resolution, drop_source, kept_slot, root_drop,
    dragged_tab, side_drop, split_with_tab, wrap_with_tab, zone_allowed, zone_split,
};
use crate::pane::fresh_slot;
use crate::edits::{closed_ids, closes, focus_after_remove, kept_tabs, moved_tabs, retabbed, tab_inserted, tab_merge, tab_move, tab_removal, tabs_closing};
use crate::header::{hidden_tabs, visible_tabs};
use crate::queries::{
    collapse_allowed, find_tab_spec, first_leaf_pane, header_visible_spec, leaf_holding, leaf_of_pane, leaf_with_anchor,
    tab_matches,
    with_collapsed, with_options,
};
use crate::restructure::{collapse_result, expanded, fresh_child, kept_child, split_result, wrap_result};
use crate::style::{PaneStyleOverride, TabStyle, TabStyleOverride, tab_state_spec};
use crate::tab::{Tab, TabDropPolicy, allows_target_spec, tab_cloned, unconstrained};
use crate::tree::{
    ChildSide, HALF_RATIO, HeaderVisibility, Node, PaneAnchor, PaneBuilder, PaneId, PaneOptions, PaneRole, PanelTree, SplitDir,
};
use vstd::std_specs::cmp::PartialEqSpec;

verus! {

/// Every split of the layout has a node on both sides.
pub open spec fn layout_full<T: Clone>(l: Layout<T>) -> bool
    decreases l,
{
    match l {
        Layout::Blank => true,
        Layout::Part { node, first, second } => match node {
            Node::Split { .. } => *first is Part && *second is Part && layout_full(*first) && layout_full(*second),
            _ => true,
        },
    }
}

/// Below a full layout, the layout at any reached index is full.
proof fn lemma_full_descend<T: Clone>(nodes: Seq<Node<T>>, r: int, p: int)
    requires
        reaches(nodes, r, p),
        layout_full(subtree_at(nodes, r)),
    ensures
        layout_full(subtree_at(nodes, p)),
    decreases p - r,
{
    lemma_reaches_root(nodes, r, p);
    if p != r {
        lemma_reaches_descend(nodes, r, p);
        lemma_in_subtree_ge(p, r);
        if in_subtree(p, left_of(r)) && reaches(nodes, left_of(r), p) {
            lemma_full_descend(nodes, left_of(r), p);
        } else {
            lemma_full_descend(nodes, right_of(r), p);
        }
    }
}

proof fn lemma_in_subtree_trans(q: int, p: int, c: int)
    requires
        in_subtree(q, p),
        in_subtree(p, c),
    ensures
        in_subtree(q, c),
    decreases q,
{
    lemma_in_subtree_ge(q, p);
    if q != p {
        lemma_in_subtree_trans(parent_of(q), p, c);
        lemma_in_subtree_ge(p, c);
    }
}

/// Writing a layout at `i` changes no slot outside the subtree at `i`, and
/// what it adds past the end is empty.
proof fn lemma_place_frame_at<T: Clone>(nodes: Seq<Node<T>>, i: int, l: Layout<T>)
    requires
        i >= 0,
    ensures
        forall|q: int| !in_subtree(q, i) ==> #[trigger] node_at(place_layout(nodes, i, l), q) == node_at(nodes, q),
    decreases l,
{
    if let Layout::Part { node, first, second } = l {
        let g = grown(nodes, i).update(i, node);
        lemma_grown(nodes, i);
        lemma_place_frame_at(g, left_of(i), *first);
        let h = place_layout(g, left_of(i), *first);
        lemma_place_frame_at(h, right_of(i), *second);
        assert forall|q: int| !in_subtree(q, i) implies #[trigger] node_at(place_layout(nodes, i, l), q) == node_at(
            nodes,
            q,
        ) by {
            lemma_in_subtree_children(q, i);
            assert(in_subtree(i, i));
        }
    }
}

/// Written at `k`, the layout of a full array's subtree at `r` reads back
/// as itself.
proof fn lemma_readback<T: Clone>(base: Seq<Node<T>>, nodes: Seq<Node<T>>, r: int, k: int)
    requires
        r >= 0,
        k >= 0,
        layout_full(subtree_at(nodes, r)),
        !(node_at(nodes, r) is Empty),
    ensures
        subtree_at(place_layout(base, k, subtree_at(nodes, r)), k) == subtree_at(nodes, r),
    decreases nodes.len() - r,
{
    let n = nodes[r];
    let first = if n is Split {
        subtree_at(nodes, left_of(r))
    } else {
        Layout::<T>::Blank
    };
    let second = if n is Split {
        subtree_at(nodes, right_of(r))
    } else {
        Layout::<T>::Blank
    };
    assert(subtree_at(nodes, r) == Layout::Part { node: n, first: Box::new(first), second: Box::new(second) });
    let g = grown(base, k).update(k, n);
    let h = place_layout(g, left_of(k), first);
    let res = place_layout(h, right_of(k), second);
    lemma_grown(base, k);
    lemma_place_frame_at(g, left_of(k), first);
    lemma_place_frame_at(h, right_of(k), second);
    lemma_in_subtree_ge(k, left_of(k));
    lemma_in_subtree_ge(k, right_of(k));
    assert(node_at(g, k) == n);
    assert(node_at(h, k) == n);
    assert(node_at(res, k) == n);
    if n is Split {
        assert(!(node_at(nodes, left_of(r)) is Empty));
        assert(!(node_at(nodes, right_of(r)) is Empty));
        lemma_readback(g, nodes, left_of(r), left_of(k));
        assert forall|q: int| in_subtree(q, left_of(k)) implies node_at(res, q) == node_at(h, q) by {
            lemma_in_subtree_children(q, k);
        }
        lemma_subtree_local(res, h, left_of(k));
        lemma_readback(h, nodes, right_of(r), right_of(k));
    }
}

/// Two arrays that agree outside the subtree at `p`, reached from `r`: the
/// tabs under `r` are those under `p` with the same tabs around them.
proof fn lemma_subst_tabs<T: Clone>(old: Seq<Node<T>>, new: Seq<Node<T>>, r: int, p: int) -> (ab: (
    Seq<Tab<T>>,
    Seq<Tab<T>>,
))
    requires
        reaches(old, r, p),
        forall|q: int| !in_subtree(q, p) ==> node_at(old, q) == node_at(new, q),
    ensures
        layout_tabs(subtree_at(old, r)) == ab.0 + layout_tabs(subtree_at(old, p)) + ab.1,
        layout_tabs(subtree_at(new, r)) == ab.0 + layout_tabs(subtree_at(new, p)) + ab.1,
    decreases p - r,
{
    lemma_reaches_root(old, r, p);
    if p == r {
        let e = Seq::<Tab<T>>::empty();
        assert(layout_tabs(subtree_at(old, r)) =~= e + layout_tabs(subtree_at(old, p)) + e);
        assert(layout_tabs(subtree_at(new, r)) =~= e + layout_tabs(subtree_at(new, p)) + e);
        (e, e)
    } else {
        lemma_reaches_descend(old, r, p);
        lemma_in_subtree_ge(r, p);
        lemma_in_subtree_ge(p, r);
        assert(node_at(new, r) == node_at(old, r));
        if in_subtree(p, left_of(r)) && reaches(old, left_of(r), p) {
            let (a, b) = lemma_subst_tabs(old, new, left_of(r), p);
            assert forall|q: int| in_subtree(q, right_of(r)) implies node_at(old, q) == node_at(new, q) by {
                if in_subtree(q, p) {
                    lemma_in_subtree_trans(q, p, left_of(r));
                    lemma_in_subtree_children(q, r);
                }
            }
            lemma_subtree_local(old, new, right_of(r));
            let rest = layout_tabs(subtree_at(old, right_of(r)));
            assert(layout_tabs(subtree_at(old, r)) =~= a + layout_tabs(subtree_at(old, p)) + (b + rest));
            assert(layout_tabs(subtree_at(new, r)) =~= a + layout_tabs(subtree_at(new, p)) + (b + rest));
            (a, b + rest)
        } else {
            let (a, b) = lemma_subst_tabs(old, new, right_of(r), p);
            assert forall|q: int| in_subtree(q, left_of(r)) implies node_at(old, q) == node_at(new, q) by {
                if in_subtree(q, p) {
                    lemma_in_subtree_trans(q, p, right_of(r));
                    lemma_in_subtree_children(q, r);
                }
            }
            lemma_subtree_local(old, new, left_of(r));
            let before = layout_tabs(subtree_at(old, left_of(r)));
            assert(layout_tabs(subtree_at(old, r)) =~= (before + a) + layout_tabs(subtree_at(old, p)) + b);
            assert(layout_tabs(subtree_at(new, r)) =~= (before + a) + layout_tabs(subtree_at(new, p)) + b);
            (before + a, b)
        }
    }
}

/// The panes counterpart of [`lemma_subst_tabs`].
proof fn lemma_subst_panes<T: Clone>(old: Seq<Node<T>>, new: Seq<Node<T>>, r: int, p: int) -> (ab: (
    Seq<PaneId>,
    Seq<PaneId>,
))
    requires
        reaches(old, r, p),
        forall|q: int| !in_subtree(q, p) ==> node_at(old, q) == node_at(new, q),
    ensures
        layout_panes(subtree_at(old, r)) == ab.0 + layout_panes(subtree_at(old, p)) + ab.1,
        layout_panes(subtree_at(new, r)) == ab.0 + layout_panes(subtree_at(new, p)) + ab.1,
    decreases p - r,
{
    lemma_reaches_root(old, r, p);
    if p == r {
        let e = Seq::<PaneId>::empty();
        assert(layout_panes(subtree_at(old, r)) =~= e + layout_panes(subtree_at(old, p)) + e);
        assert(layout_panes(subtree_at(new, r)) =~= e + layout_panes(subtree_at(new, p)) + e);
        (e, e)
    } else {
        lemma_reaches_descend(old, r, p);
        lemma_in_subtree_ge(r, p);
        lemma_in_subtree_ge(p, r);
        assert(node_at(new, r) == node_at(old, r));
        if in_subtree(p, left_of(r)) && reaches(old, left_of(r), p) {
            let (a, b) = lemma_subst_panes(old, new, left_of(r), p);
            assert forall|q: int| in_subtree(q, right_of(r)) implies node_at(old, q) == node_at(new, q) by {
                if in_subtree(q, p) {
                    lemma_in_subtree_trans(q, p, left_of(r));
                    lemma_in_subtree_children(q, r);
                }
            }
            lemma_subtree_local(old, new, right_of(r));
            let rest = layout_panes(subtree_at(old, right_of(r)));
            assert(layout_panes(subtree_at(old, r)) =~= a + layout_panes(subtree_at(old, p)) + (b + rest));
            assert(layout_panes(subtree_at(new, r)) =~= a + layout_panes(subtree_at(new, p)) + (b + rest));
            (a, b + rest)
        } else {
            let (a, b) = lemma_subst_panes(old, new, right_of(r), p);
            assert forall|q: int| in_subtree(q, left_of(r)) implies node_at(old, q) == node_at(new, q) by {
                if in_subtree(q, p) {
                    lemma_in_subtree_trans(q, p, right_of(r));
                    lemma_in_subtree_children(q, r);
                }
            }
            lemma_subtree_local(old, new, left_of(r));
            let before = layout_panes(subtree_at(old, left_of(r)));
            assert(layout_panes(subtree_at(old, r)) =~= (before + a) + layout_panes(subtree_at(old, p)) + b);
            assert(layout_panes(subtree_at(new, r)) =~= (before + a) + layout_panes(subtree_at(new, p)) + b);
            (before + a, b)
        }
    }
}

/// Splitting a leaf of the layout keeps every other tab and pane where it
/// was and shows the new pane right beside the split one, on the side it was
/// added. Returns the tabs before and after the split pane's, then the panes
/// before and after it.
pub proof fn law_split_keeps_layout<T: Clone>(
    nodes: Seq<Node<T>>,
    leaf: int,
    dir: SplitDir,
    fresh: Node<T>,
    side: ChildSide,
) -> (r: (Seq<Tab<T>>, Seq<Tab<T>>, Seq<PaneId>, Seq<PaneId>))
    requires
        reaches(nodes, 0, leaf),
        nodes[leaf] is Leaf,
        fresh is Leaf,
    ensures
        ({
            let new = split_result(nodes, leaf, dir, fresh, side);
            let n = nodes[leaf];
            &&& layout_tabs(subtree_at(nodes, 0)) == r.0 + n->tabs@ + r.1
            &&& layout_tabs(subtree_at(new, 0)) == r.0 + match side {
                ChildSide::First => fresh->tabs@ + n->tabs@,
                ChildSide::Second => n->tabs@ + fresh->tabs@,
            } + r.1
            &&& layout_panes(subtree_at(nodes, 0)) == r.2 + seq![n->pane] + r.3
            &&& layout_panes(subtree_at(new, 0)) == r.2 + match side {
                ChildSide::First => seq![fresh->pane, n->pane],
                ChildSide::Second => seq![n->pane, fresh->pane],
            } + r.3
        }),
{
    lemma_reaches_root(nodes, 0, leaf);
    let new = split_result(nodes, leaf, dir, fresh, side);
    let n = nodes[leaf];
    let g = grown(nodes, right_of(leaf));
    lemma_grown(nodes, right_of(leaf));
    assert(parent_of(left_of(leaf)) == leaf);
    assert(parent_of(right_of(leaf)) == leaf);
    assert(in_subtree(leaf, leaf));
    assert(in_subtree(left_of(leaf), leaf));
    assert(in_subtree(right_of(leaf), leaf));
    assert forall|q: int| !in_subtree(q, leaf) implies node_at(nodes, q) == node_at(new, q) by {
        assert(node_at(g, q) == node_at(nodes, q));
    }
    let first = match side {
        ChildSide::First => fresh,
        ChildSide::Second => expanded(n),
    };
    let second = match side {
        ChildSide::First => expanded(n),
        ChildSide::Second => fresh,
    };
    assert(new[leaf] == Node::<T>::Split { dir, ratio: HALF_RATIO });
    assert(new[left_of(leaf)] == first);
    assert(new[right_of(leaf)] == second);
    assert(subtree_at(new, left_of(leaf)) == Layout::Part {
        node: first,
        first: Box::new(Layout::<T>::Blank),
        second: Box::new(Layout::<T>::Blank),
    });
    assert(subtree_at(new, right_of(leaf)) == Layout::Part {
        node: second,
        first: Box::new(Layout::<T>::Blank),
        second: Box::new(Layout::<T>::Blank),
    });
    assert(layout_tabs(subtree_at(new, leaf)) == layout_tabs(subtree_at(new, left_of(leaf))) + layout_tabs(
        subtree_at(new, right_of(leaf)),
    ));
    assert(layout_panes(subtree_at(new, leaf)) == layout_panes(subtree_at(new, left_of(leaf))) + layout_panes(
        subtree_at(new, right_of(leaf)),
    ));
    assert(layout_panes(subtree_at(nodes, leaf)) == seq![n->pane]);
    let (a, b) = lemma_subst_tabs(nodes, new, 0, leaf);
    let (c, d) = lemma_subst_panes(nodes, new, 0, leaf);
    match side {
        ChildSide::First => {
            assert(layout_panes(subtree_at(new, leaf)) =~= seq![fresh->pane, n->pane]);
        },
        ChildSide::Second => {
            assert(layout_panes(subtree_at(new, leaf)) =~= seq![n->pane, fresh->pane]);
        },
    }
    (a, b, c, d)
}

/// The shape of a wrapped array: the new split at the root, the fresh node
/// on its side, and the old layout whole under the kept side.
proof fn lemma_wrap_shape<T: Clone>(nodes: Seq<Node<T>>, dir: SplitDir, fresh: Node<T>, side: ChildSide)
    requires
        layout_full(subtree_at(nodes, 0)),
        fresh is Leaf,
    ensures
        node_at(wrap_result(nodes, dir, fresh, side), 0) == (Node::<T>::Split { dir, ratio: HALF_RATIO }),
        node_at(wrap_result(nodes, dir, fresh, side), fresh_child(side)) == fresh,
        subtree_at(wrap_result(nodes, dir, fresh, side), kept_child(side)) == subtree_at(nodes, 0),
{
    let f = fresh_child(side);
    let k = kept_child(side);
    let split = Node::<T>::Split { dir, ratio: HALF_RATIO };
    let base = grown(seq![split], f).update(f, fresh);
    lemma_grown(seq![split], f);
    lemma_place_frame_at(base, k, subtree_at(nodes, 0));
    lemma_in_subtree_ge(0, k);
    lemma_in_subtree_ge(f, k);
    lemma_in_subtree_ge(parent_of(f), k);
    if node_at(nodes, 0) is Empty {
        assert(node_at(base, k) is Empty);
    } else {
        lemma_readback(base, nodes, 0, k);
    }
}

/// Wrapping the layout under a new root split keeps it whole and shows the
/// new pane before it (added first) or after it (added second).
pub proof fn law_wrap_keeps_layout<T: Clone>(nodes: Seq<Node<T>>, dir: SplitDir, fresh: Node<T>, side: ChildSide)
    requires
        layout_full(subtree_at(nodes, 0)),
        fresh is Leaf,
    ensures
        ({
            let new = wrap_result(nodes, dir, fresh, side);
            let tabs = layout_tabs(subtree_at(nodes, 0));
            let panes = layout_panes(subtree_at(nodes, 0));
            &&& layout_tabs(subtree_at(new, 0)) == match side {
                ChildSide::First => fresh->tabs@ + tabs,
                ChildSide::Second => tabs + fresh->tabs@,
            }
            &&& layout_panes(subtree_at(new, 0)) == match side {
                ChildSide::First => seq![fresh->pane] + panes,
                ChildSide::Second => panes + seq![fresh->pane],
            }
            &&& subtree_at(nodes, 0) is Part ==> layout_full(subtree_at(new, 0))
        }),
{
    let new = wrap_result(nodes, dir, fresh, side);
    let f = fresh_child(side);
    lemma_wrap_shape(nodes, dir, fresh, side);
    let leaf_layout = Layout::Part {
        node: fresh,
        first: Box::new(Layout::<T>::Blank),
        second: Box::new(Layout::<T>::Blank),
    };
    assert(subtree_at(new, f) == leaf_layout);
    assert(layout_tabs(leaf_layout) == fresh->tabs@);
    assert(layout_panes(leaf_layout) == seq![fresh->pane]);
    assert(layout_tabs(subtree_at(new, 0)) == layout_tabs(subtree_at(new, 1)) + layout_tabs(subtree_at(new, 2)));
    assert(layout_panes(subtree_at(new, 0)) == layout_panes(subtree_at(new, 1)) + layout_panes(subtree_at(new, 2)));
    assert(subtree_at(new, 0) == Layout::Part {
        node: Node::<T>::Split { dir, ratio: HALF_RATIO },
        first: Box::new(subtree_at(new, 1)),
        second: Box::new(subtree_at(new, 2)),
    });
    assert(layout_full(leaf_layout));
}

/// The shape of a collapsed array: outside the parent's subtree nothing
/// changes, and the parent's slot now holds the sibling's layout.
proof fn lemma_collapse_shape<T: Clone>(nodes: Seq<Node<T>>, leaf: int)
    requires
        layout_full(subtree_at(nodes, 0)),
        reaches(nodes, 0, leaf),
        leaf > 0,
        nodes[leaf] is Leaf,
        nodes[leaf]->tabs@.len() == 0,
        !nodes[leaf]->options.persist_when_empty,
    ensures
        reaches(nodes, 0, parent_of(leaf)),
        nodes[parent_of(leaf)] is Split,
        forall|q: int|
            !in_subtree(q, parent_of(leaf)) ==> node_at(nodes, q) == node_at(collapse_result(nodes, leaf), q),
        subtree_at(collapse_result(nodes, leaf), parent_of(leaf)) == subtree_at(nodes, sibling_of(leaf)),
{
    let p = parent_of(leaf);
    let s = sibling_of(leaf);
    lemma_reaches_root(nodes, 0, leaf);
    assert(reaches(nodes, 0, p) && nodes[p] is Split);
    assert(s == left_of(p) || s == right_of(p));
    lemma_full_descend(nodes, 0, p);
    assert(!(node_at(nodes, s) is Empty));
    assert(layout_full(subtree_at(nodes, s)));
    let blank = blank_subtree(nodes, s, nodes.len() as int);
    let moved = place_layout(blank, p, subtree_at(nodes, s));
    let new = collapse_result(nodes, leaf);
    lemma_readback(blank, nodes, s, p);
    lemma_place_frame_at(blank, p, subtree_at(nodes, s));
    lemma_blank_frame(nodes, s, nodes.len() as int);
    crate::model::lemma_place_len(blank, p, subtree_at(nodes, s));
    assert(new == if node_at(moved, p) is Split {
        moved
    } else {
        moved.update(leaf, Node::Empty)
    });
    assert(parent_of(s) == p);
    assert(parent_of(leaf) == p);
    assert(in_subtree(s, p));
    assert(in_subtree(leaf, p));
    assert forall|q: int| !in_subtree(q, p) implies node_at(nodes, q) == node_at(new, q) by {
        if in_subtree(q, s) {
            lemma_in_subtree_trans(q, s, p);
        }
        assert(node_at(moved, q) == node_at(blank, q));
        assert(q != leaf);
    }
    if !(node_at(moved, p) is Split) {
        assert(node_at(moved, p) == node_at(nodes, s));
        assert(node_at(new, p) == node_at(moved, p));
    }
}

/// Collapsing an empty leaf of a full layout loses no tab, and of the panes
/// it removes exactly the emptied one. Returns the panes before and after
/// the removed one.
pub proof fn law_collapse_keeps_tabs<T: Clone>(nodes: Seq<Node<T>>, leaf: int) -> (r: (Seq<PaneId>, Seq<PaneId>))
    requires
        layout_full(subtree_at(nodes, 0)),
        reaches(nodes, 0, leaf),
        leaf > 0,
        nodes[leaf] is Leaf,
        nodes[leaf]->tabs@.len() == 0,
        !nodes[leaf]->options.persist_when_empty,
    ensures
        layout_tabs(subtree_at(collapse_result(nodes, leaf), 0)) == layout_tabs(subtree_at(nodes, 0)),
        layout_panes(subtree_at(nodes, 0)) == r.0 + seq![nodes[leaf]->pane] + r.1,
        layout_panes(subtree_at(collapse_result(nodes, leaf), 0)) == r.0 + r.1,
        layout_full(subtree_at(collapse_result(nodes, leaf), 0)),
{
    let p = parent_of(leaf);
    let s = sibling_of(leaf);
    let n = nodes[leaf];
    let new = collapse_result(nodes, leaf);
    lemma_collapse_shape(nodes, leaf);
    assert(leaf == left_of(p) || leaf == right_of(p));
    let leaf_layout = Layout::Part { node: n, first: Box::new(Layout::<T>::Blank), second: Box::new(Layout::<T>::Blank) };
    assert(subtree_at(nodes, leaf) == leaf_layout);
    assert(layout_tabs(leaf_layout) == n->tabs@);
    assert(layout_panes(leaf_layout) == seq![n->pane]);
    assert(layout_tabs(subtree_at(nodes, p)) == layout_tabs(subtree_at(nodes, left_of(p))) + layout_tabs(
        subtree_at(nodes, right_of(p)),
    ));
    assert(layout_panes(subtree_at(nodes, p)) == layout_panes(subtree_at(nodes, left_of(p))) + layout_panes(
        subtree_at(nodes, right_of(p)),
    ));
    let (a, b) = lemma_subst_tabs(nodes, new, 0, p);
    let (c, d) = lemma_subst_panes(nodes, new, 0, p);
    lemma_full_descend(nodes, 0, p);
    assert(subtree_at(nodes, s) is Part);
    lemma_subst_full(nodes, new, 0, p);
    let sp = layout_panes(subtree_at(nodes, s));
    assert(layout_tabs(subtree_at(nodes, p)) =~= layout_tabs(subtree_at(nodes, s)));
    if leaf == left_of(p) {
        assert(layout_panes(subtree_at(nodes, 0)) =~= c + seq![n->pane] + (sp + d));
        assert(layout_panes(subtree_at(new, 0)) =~= c + (sp + d));
        (c, sp + d)
    } else {
        assert(layout_panes(subtree_at(nodes, 0)) =~= (c + sp) + seq![n->pane] + d);
        assert(layout_panes(subtree_at(new, 0)) =~= (c + sp) + d);
        (c + sp, d)
    }
}

/// Every leaf's pane identifier is below `next`.
pub open spec fn panes_below<T: Clone>(nodes: Seq<Node<T>>, next: u64) -> bool {
    forall|i: int| 0 <= i < nodes.len() && (#[trigger] nodes[i]) is Leaf ==> nodes[i]->pane.raw() < next
}

proof fn lemma_layout_panes_from<T: Clone>(nodes: Seq<Node<T>>, r: int, x: PaneId)
    requires
        layout_panes(subtree_at(nodes, r)).contains(x),
    ensures
        exists|i: int| 0 <= i < nodes.len() && (#[trigger] nodes[i]) is Leaf && nodes[i]->pane == x,
    decreases (if 0 <= r < nodes.len() { nodes.len() - r } else { 0 }),
{
    if 0 <= r < nodes.len() {
        match nodes[r] {
            Node::Leaf { pane, .. } => {
                assert(layout_panes(subtree_at(nodes, r)) == seq![pane]);
                assert(nodes[r] is Leaf);
            },
            Node::Split { .. } => {
                let a = layout_panes(subtree_at(nodes, left_of(r)));
                let b = layout_panes(subtree_at(nodes, right_of(r)));
                assert(layout_panes(subtree_at(nodes, r)) == a + b);
                let k = choose|k: int| 0 <= k < (a + b).len() && (a + b)[k] == x;
                if k < a.len() {
                    assert(a[k] == x);
                    lemma_layout_panes_from(nodes, left_of(r), x);
                } else {
                    assert(b[k - a.len()] == x);
                    lemma_layout_panes_from(nodes, right_of(r), x);
                }
            },
            Node::Empty => {},
        }
    }
}

/// While every pane is below the next identifier, the pane a split or a
/// wrap creates with that identifier is new to the layout.
pub proof fn law_next_pane_is_new<T: Clone>(nodes: Seq<Node<T>>, next: u64)
    requires
        panes_below(nodes, next),
    ensures
        !layout_panes(subtree_at(nodes, 0)).contains(PaneId::with_raw(next)),
{
    crate::tree::PaneId::lemma_with_raw(next);
    if layout_panes(subtree_at(nodes, 0)).contains(PaneId::with_raw(next)) {
        lemma_layout_panes_from(nodes, 0, PaneId::with_raw(next));
    }
}

/// Splitting a leaf with the next identifier, and counting on from it, keeps
/// every pane below the next identifier.
pub proof fn law_split_keeps_panes_below<T: Clone>(
    nodes: Seq<Node<T>>,
    next: u64,
    leaf: int,
    dir: SplitDir,
    fresh: Node<T>,
    side: ChildSide,
)
    requires
        panes_below(nodes, next),
        next < u64::MAX,
        0 <= leaf < nodes.len(),
        nodes[leaf] is Leaf,
        fresh is Leaf,
        fresh->pane == PaneId::with_raw(next),
    ensures
        panes_below(split_result(nodes, leaf, dir, fresh, side), (next + 1) as u64),
{
    crate::tree::PaneId::lemma_with_raw(next);
    let new = split_result(nodes, leaf, dir, fresh, side);
    let g = grown(nodes, right_of(leaf));
    lemma_grown(nodes, right_of(leaf));
    assert forall|i: int| 0 <= i < new.len() && (#[trigger] new[i]) is Leaf implies new[i]->pane.raw() < next + 1 by {
        if i != leaf && i != left_of(leaf) && i != right_of(leaf) {
            assert(node_at(g, i) == node_at(nodes, i));
            assert(nodes[i] == new[i]);
        }
    }
}

/// Options written to a leaf are read back.
pub proof fn law_options_read_back<T: Clone>(nodes: Seq<Node<T>>, idx: int, options: PaneOptions)
    requires
        idx >= 0,
        node_at(nodes, idx) is Leaf,
    ensures
        node_at(grown(nodes, idx).update(idx, with_options(node_at(nodes, idx), options)), idx)->options == options,
{
    lemma_grown(nodes, idx);
}

/// A collapse that is allowed is read back, and a collapsed pane always
/// shows its header.
pub proof fn law_collapsed_read_back<T: Clone>(n: Node<T>, collapsed: bool)
    requires
        collapse_allowed(n, collapsed),
    ensures
        with_collapsed(n, collapsed)->collapsed == collapsed,
        collapsed ==> header_visible_spec(with_collapsed(n, collapsed)),
{
}

/// Moving a tab and moving it back restores the tab order.
pub proof fn law_move_tab_back<T: Clone>(tabs: Seq<Tab<T>>, from: int, to: int)
    requires
        0 <= from < tabs.len(),
        0 <= to < tabs.len(),
    ensures
        moved_tabs(moved_tabs(tabs, from, to), to, from) == tabs,
{
    if from != to {
        let m = moved_tabs(tabs, from, to);
        assert(m[to] == tabs[from]);
        assert(m.remove(to) =~= tabs.remove(from));
        assert(tabs.remove(from).insert(from, tabs[from]) =~= tabs);
    }
}

proof fn lemma_hidden_tabs(visible: Seq<usize>, n: int, i: int)
    requires
        0 <= i <= usize::MAX,
        n <= usize::MAX + 1,
    ensures
        hidden_tabs(visible, n).contains(i as usize) <==> (0 <= i < n && !visible.contains(i as usize)),
    decreases n,
{
    if n > 0 {
        lemma_hidden_tabs(visible, n - 1, i);
        let rest = hidden_tabs(visible, n - 1);
        if !visible.contains((n - 1) as usize) {
            assert(hidden_tabs(visible, n) == rest.push((n - 1) as usize));
            if hidden_tabs(visible, n).contains(i as usize) && !rest.contains(i as usize) {
                let k = choose|k: int| 0 <= k < rest.len() + 1 && hidden_tabs(visible, n)[k] == i as usize;
                assert(k == rest.len());
            }
            if i == n - 1 {
                assert(hidden_tabs(visible, n)[rest.len() as int] == i as usize);
            }
            if rest.contains(i as usize) {
                let k = choose|k: int| 0 <= k < rest.len() && rest[k] == i as usize;
                assert(hidden_tabs(visible, n)[k] == i as usize);
            }
        }
    }
}

/// A header with room for at least one tab always shows the focused tab,
/// and every tab is either shown or in the overflow menu, never both.
pub proof fn law_focused_tab_visible(count: int, focused: int, room: int)
    requires
        1 <= room <= count,
        0 <= focused < count,
        count <= usize::MAX,
    ensures
        visible_tabs(room, focused).contains(focused as usize),
        forall|i: int|
            0 <= i < count ==> (visible_tabs(room, focused).contains(i as usize) != #[trigger] hidden_tabs(
                visible_tabs(room, focused),
                count,
            ).contains(i as usize)),
{
    let v = visible_tabs(room, focused);
    if focused >= room {
        assert(v[room - 1] == focused as usize);
    } else {
        assert(v[focused] == focused as usize);
    }
    assert forall|i: int| 0 <= i < count implies (v.contains(i as usize) != #[trigger] hidden_tabs(v, count).contains(
        i as usize,
    )) by {
        lemma_hidden_tabs(v, count, i);
    }
}

/// Once a tab is in a leaf, finding its identifier succeeds, so ensuring
/// it again inserts nothing.
pub proof fn law_inserted_tab_is_found<T: Clone + PartialEq>(
    old: Seq<Node<T>>,
    new: Seq<Node<T>>,
    leaf: int,
    tab: Tab<T>,
)
    requires
        0 <= leaf < old.len(),
        tab_inserted(old, new, leaf, tab),
        tab.id.eq_spec(&tab.id),
    ensures
        find_tab_spec(new, tab.id) is Some,
{
    let tabs = new[leaf]->tabs@;
    let last = tabs.len() - 1;
    assert(tabs[last] == tab);
    assert(tab_matches(tab.id)(tabs[last]));
    crate::model::lemma_first_index(tabs, tab_matches(tab.id));
    assert(leaf_holding(tab.id)(new[leaf]));
    crate::model::lemma_first_index(new, leaf_holding(tab.id));
}

/// An index stays reached when its strict ancestors keep their nodes and its
/// own slot still holds one.
proof fn lemma_reaches_keep<T: Clone>(a: Seq<Node<T>>, b: Seq<Node<T>>, r: int, i: int)
    requires
        reaches(a, r, i),
        forall|q: int| in_subtree(i, q) && q != i ==> node_at(a, q) == node_at(b, q),
        !(node_at(b, i) is Empty),
    ensures
        reaches(b, r, i),
    decreases (if i > r { i } else { 0 }),
{
    lemma_reaches_root(a, r, i);
    if i != r {
        let p = parent_of(i);
        assert(in_subtree(p, p));
        assert(in_subtree(i, p));
        assert forall|q: int| in_subtree(p, q) && q != p implies node_at(a, q) == node_at(b, q) by {
            lemma_in_subtree_trans(i, p, q);
            lemma_in_subtree_ge(p, q);
        }
        lemma_reaches_keep(a, b, r, p);
    }
}

proof fn lemma_reaches_trans<T: Clone>(nodes: Seq<Node<T>>, r: int, p: int, i: int)
    requires
        reaches(nodes, r, p),
        reaches(nodes, p, i),
    ensures
        reaches(nodes, r, i),
    decreases (if i > p { i } else { 0 }),
{
    lemma_reaches_root(nodes, p, i);
    lemma_reaches_root(nodes, r, p);
    lemma_in_subtree_ge(p, r);
    if i != p {
        lemma_reaches_trans(nodes, r, p, parent_of(i));
        lemma_in_subtree_ge(parent_of(i), p);
    }
}

/// Written at `k`, the layout reaches the relocated index of every index
/// it reached.
proof fn lemma_place_reaches_path<T: Clone>(base: Seq<Node<T>>, nodes: Seq<Node<T>>, k: int, i: int)
    requires
        reaches(nodes, 0, i),
        k >= 0,
    ensures
        reaches(place_layout(base, k, subtree_at(nodes, 0)), k, relocated(0, k, i)),
    decreases i,
{
    let res = place_layout(base, k, subtree_at(nodes, 0));
    crate::model::lemma_place_reaches(base, nodes, 0, k, i);
    if i > 0 {
        let p = parent_of(i);
        lemma_reaches_root(nodes, 0, i);
        lemma_place_reaches_path(base, nodes, k, p);
        crate::model::lemma_place_reaches(base, nodes, 0, k, p);
        lemma_relocated_ge(k, p);
        let x = relocated(0, k, p);
        assert(parent_of(left_of(x)) == x);
        assert(parent_of(right_of(x)) == x);
    }
}

proof fn lemma_relocated_ge(k: int, i: int)
    requires
        k >= 0,
        i >= 0,
    ensures
        relocated(0, k, i) >= k,
    decreases i,
{
    if i > 0 {
        lemma_relocated_ge(k, parent_of(i));
    }
}

/// Swapping a reached node for another whose layout is full keeps the whole
/// layout full.
proof fn lemma_subst_full<T: Clone>(old: Seq<Node<T>>, new: Seq<Node<T>>, r: int, p: int)
    requires
        reaches(old, r, p),
        forall|q: int| !in_subtree(q, p) ==> node_at(old, q) == node_at(new, q),
        layout_full(subtree_at(old, r)),
        layout_full(subtree_at(new, p)),
        subtree_at(new, p) is Part,
    ensures
        layout_full(subtree_at(new, r)),
        subtree_at(new, r) is Part,
    decreases p - r,
{
    lemma_reaches_root(old, r, p);
    if p != r {
        lemma_reaches_descend(old, r, p);
        lemma_in_subtree_ge(r, p);
        lemma_in_subtree_ge(p, r);
        assert(node_at(new, r) == node_at(old, r));
        if in_subtree(p, left_of(r)) && reaches(old, left_of(r), p) {
            lemma_reaches_root(old, left_of(r), p);
            lemma_full_descend(old, r, left_of(r));
            lemma_subst_full(old, new, left_of(r), p);
            assert forall|q: int| in_subtree(q, right_of(r)) implies node_at(old, q) == node_at(new, q) by {
                if in_subtree(q, p) {
                    lemma_in_subtree_trans(q, p, left_of(r));
                    lemma_in_subtree_children(q, r);
                }
            }
            lemma_subtree_local(old, new, right_of(r));
        } else {
            lemma_reaches_root(old, right_of(r), p);
            lemma_full_descend(old, r, right_of(r));
            lemma_subst_full(old, new, right_of(r), p);
            assert forall|q: int| in_subtree(q, left_of(r)) implies node_at(old, q) == node_at(new, q) by {
                if in_subtree(q, p) {
                    lemma_in_subtree_trans(q, p, right_of(r));
                    lemma_in_subtree_children(q, r);
                }
            }
            lemma_subtree_local(old, new, left_of(r));
        }
    }
}

/// After a tab at `pos` leaves the reached leaf at `x` (its focus clamped,
/// the leaf collapsing if it empties), the layout shows the tabs of the
/// array with just that leaf updated. Returns the updated leaf.
proof fn lemma_removal_collapse<T: Clone>(mid: Seq<Node<T>>, new: Seq<Node<T>>, x: int, pos: int) -> (m: Node<T>)
    requires
        layout_full(subtree_at(mid, 0)),
        reaches(mid, 0, x),
        x > 0,
        mid[x] is Leaf,
        0 <= pos < mid[x]->tabs@.len(),
        drop_removal(mid, new, x, pos),
    ensures
        m is Leaf,
        m->tabs@ == mid[x]->tabs@.remove(pos),
        layout_tabs(subtree_at(new, 0)) == layout_tabs(subtree_at(mid.update(x, m), 0)),
{
    let n = mid[x];
    lemma_reaches_root(mid, 0, x);
    let m = choose|m: Node<T>|
        {
            &&& #[trigger] retabbed(n, m, n->tabs@.remove(pos), focus_after_remove(n->focused as int, n->tabs@.len() - 1))
            &&& new == collapse_result(mid.update(x, m), x)
        };
    let mp = mid.update(x, m);
    assert(in_subtree(x, x));
    assert forall|q: int| !in_subtree(q, x) implies node_at(mid, q) == node_at(mp, q) by {}
    let leaf_new = Layout::Part { node: m, first: Box::new(Layout::<T>::Blank), second: Box::new(Layout::<T>::Blank) };
    assert(subtree_at(mp, x) == leaf_new);
    assert forall|q: int| in_subtree(x, q) && q != x implies node_at(mid, q) == node_at(mp, q) by {}
    lemma_reaches_keep(mid, mp, 0, x);
    lemma_subst_full(mid, mp, 0, x);
    if m->tabs@.len() == 0 && !m->options.persist_when_empty {
        law_collapse_keeps_tabs(mp, x);
    } else {
        assert(new == mp);
    }
    m
}

/// A tab dropped on an edge of the whole layout moves into the new pane
/// there: every other tab stays, in order, and only the dragged one leaves
/// its place. Returns the tabs before and after the dragged one.
#[verifier::rlimit(50)]
pub proof fn law_root_drop_moves_tab<T: Clone>(
    old: PanelTree<T>,
    new: PanelTree<T>,
    src: int,
    pos: int,
    copy: Tab<T>,
    dir: SplitDir,
    side: ChildSide,
) -> (r: (Seq<Tab<T>>, Seq<Tab<T>>))
    requires
        layout_full(subtree_at(old.nodes@, 0)),
        reaches(old.nodes@, 0, src),
        old.nodes@[src] is Leaf,
        0 <= pos < old.nodes@[src]->tabs@.len(),
        root_drop(old, new, src, pos, copy, dir, side),
    ensures
        layout_tabs(subtree_at(old.nodes@, 0)) == r.0 + seq![old.nodes@[src]->tabs@[pos]] + r.1,
        layout_tabs(subtree_at(new.nodes@, 0)) == match side {
            ChildSide::First => seq![copy] + r.0 + r.1,
            ChildSide::Second => r.0 + r.1 + seq![copy],
        },
{
    let on = old.nodes@;
    let k = kept_child(side);
    let f = fresh_child(side);
    let x = relocated(0, k, src);
    let mid = choose|mid: PanelTree<T>|
        {
            &&& #[trigger] wrap_with_tab(old, mid, copy, dir, side)
            &&& drop_removal(mid.nodes@, new.nodes@, relocated(0, kept_child(side), src), pos)
            &&& new.next_pane_id == mid.next_pane_id
        };
    let mn = mid.nodes@;
    assert(wrap_with_tab(old, mid, copy, dir, side));
    let fresh = mn[f];
    assert(fresh is Leaf);
    lemma_reaches_root(on, 0, src);
    lemma_wrap_shape(on, dir, fresh, side);
    let split = Node::<T>::Split { dir, ratio: HALF_RATIO };
    let base = grown(seq![split], f).update(f, fresh);
    crate::model::lemma_place_reaches(base, on, 0, k, src);
    crate::model::lemma_place_reaches(base, on, 0, k, 0);
    lemma_place_reaches_path(base, on, k, src);
    lemma_relocated_ge(k, src);
    assert(relocated(0, k, 0) == k);
    assert(reaches(mn, 0, 0));
    assert(parent_of(k) == 0);
    assert(reaches(mn, 0, k));
    lemma_reaches_trans(mn, 0, k, x);
    lemma_reaches_root(mn, k, x);
    // The wrapped layout: the fresh pane beside the old layout, both full.
    let fresh_layout = Layout::Part {
        node: fresh,
        first: Box::new(Layout::<T>::Blank),
        second: Box::new(Layout::<T>::Blank),
    };
    assert(subtree_at(mn, f) == fresh_layout);
    assert(subtree_at(mn, k) == subtree_at(on, 0));
    assert(layout_tabs(fresh_layout) =~= seq![copy]);
    assert(node_at(mn, 0) == split);
    assert(subtree_at(on, 0) is Part);
    assert(subtree_at(mn, 0) == Layout::Part {
        node: split,
        first: Box::new(subtree_at(mn, 1)),
        second: Box::new(subtree_at(mn, 2)),
    });
    assert(layout_full(fresh_layout));
    assert(layout_full(subtree_at(mn, f)));
    assert(layout_full(subtree_at(mn, k)));
    assert(layout_full(subtree_at(mn, 1)) && layout_full(subtree_at(mn, 2)));
    assert(layout_full(subtree_at(mn, 0)));
    let m = lemma_removal_collapse(mn, new.nodes@, x, pos);
    let mp = mn.update(x, m);
    // Only the dragged tab's leaf changed, under the kept side.
    assert(in_subtree(x, x));
    assert forall|q: int| !in_subtree(q, x) implies node_at(mn, q) == node_at(mp, q) by {}
    let (a, b) = lemma_subst_tabs(mn, mp, k, x);
    assert forall|q: int| in_subtree(q, f) implies node_at(mn, q) == node_at(mp, q) by {
        lemma_in_subtree_children(q, 0);
        if q == x {
            lemma_in_subtree_children(x, 0);
        }
    }
    lemma_subtree_local(mn, mp, f);
    assert(node_at(mp, 0) == split);
    assert(layout_tabs(subtree_at(mp, 0)) == layout_tabs(subtree_at(mp, 1)) + layout_tabs(subtree_at(mp, 2)));
    let leaf_old = Layout::Part { node: mn[x], first: Box::new(Layout::<T>::Blank), second: Box::new(Layout::<T>::Blank) };
    let leaf_new = Layout::Part { node: m, first: Box::new(Layout::<T>::Blank), second: Box::new(Layout::<T>::Blank) };
    assert(subtree_at(mn, x) == leaf_old);
    assert(subtree_at(mp, x) == leaf_new);
    let tt = on[src]->tabs@;
    assert(tt =~= tt.subrange(0, pos) + seq![tt[pos]] + tt.subrange(pos + 1, tt.len() as int));
    assert(tt.remove(pos) =~= tt.subrange(0, pos) + tt.subrange(pos + 1, tt.len() as int));
    let r0 = a + tt.subrange(0, pos);
    let r1 = tt.subrange(pos + 1, tt.len() as int) + b;
    assert(layout_tabs(subtree_at(on, 0)) =~= r0 + seq![tt[pos]] + r1);
    assert(layout_tabs(subtree_at(mp, k)) =~= r0 + r1);
    match side {
        ChildSide::First => {
            assert(layout_tabs(subtree_at(new.nodes@, 0)) =~= seq![copy] + r0 + r1);
        },
        ChildSide::Second => {
            assert(layout_tabs(subtree_at(new.nodes@, 0)) =~= r0 + r1 + seq![copy]);
        },
    }
    (r0, r1)
}

/// Splitting a leaf of a full layout keeps it full.
pub proof fn law_split_keeps_full<T: Clone>(
    nodes: Seq<Node<T>>,
    leaf: int,
    dir: SplitDir,
    fresh: Node<T>,
    side: ChildSide,
)
    requires
        layout_full(subtree_at(nodes, 0)),
        reaches(nodes, 0, leaf),
        nodes[leaf] is Leaf,
        fresh is Leaf,
    ensures
        layout_full(subtree_at(split_result(nodes, leaf, dir, fresh, side), 0)),
{
    lemma_reaches_root(nodes, 0, leaf);
    let new = split_result(nodes, leaf, dir, fresh, side);
    let g = grown(nodes, right_of(leaf));
    lemma_grown(nodes, right_of(leaf));
    assert(parent_of(left_of(leaf)) == leaf);
    assert(parent_of(right_of(leaf)) == leaf);
    assert(in_subtree(leaf, leaf));
    assert(in_subtree(left_of(leaf), leaf));
    assert(in_subtree(right_of(leaf), leaf));
    assert forall|q: int| !in_subtree(q, leaf) implies node_at(nodes, q) == node_at(new, q) by {
        assert(node_at(g, q) == node_at(nodes, q));
    }
    let first = match side {
        ChildSide::First => fresh,
        ChildSide::Second => expanded(nodes[leaf]),
    };
    let second = match side {
        ChildSide::First => expanded(nodes[leaf]),
        ChildSide::Second => fresh,
    };
    let lf = Layout::Part { node: first, first: Box::new(Layout::<T>::Blank), second: Box::new(Layout::<T>::Blank) };
    let ls = Layout::Part { node: second, first: Box::new(Layout::<T>::Blank), second: Box::new(Layout::<T>::Blank) };
    assert(subtree_at(new, left_of(leaf)) == lf);
    assert(subtree_at(new, right_of(leaf)) == ls);
    assert(subtree_at(new, leaf) == Layout::Part {
        node: Node::<T>::Split { dir, ratio: HALF_RATIO },
        first: Box::new(lf),
        second: Box::new(ls),
    });
    assert(layout_full(lf) && layout_full(ls));
    lemma_subst_full(nodes, new, 0, leaf);
}

/// A split changes the array only within the split leaf's subtree, where the
/// leaf becomes a split over the two given nodes.
proof fn lemma_split_frame<T: Clone>(nodes: Seq<Node<T>>, leaf: int, dir: SplitDir, fresh: Node<T>, side: ChildSide)
    requires
        0 <= leaf < nodes.len(),
    ensures
        forall|q: int|
            !in_subtree(q, leaf) ==> node_at(nodes, q) == node_at(split_result(nodes, leaf, dir, fresh, side), q),
        split_result(nodes, leaf, dir, fresh, side)[leaf] == (Node::<T>::Split { dir, ratio: HALF_RATIO }),
        split_result(nodes, leaf, dir, fresh, side)[fresh_slot(leaf, side)] == fresh,
        split_result(nodes, leaf, dir, fresh, side)[kept_slot(leaf, side)] == expanded(nodes[leaf]),
        split_result(nodes, leaf, dir, fresh, side).len() > right_of(leaf),
{
    let new = split_result(nodes, leaf, dir, fresh, side);
    let g = grown(nodes, right_of(leaf));
    lemma_grown(nodes, right_of(leaf));
    assert(parent_of(left_of(leaf)) == leaf);
    assert(parent_of(right_of(leaf)) == leaf);
    assert(in_subtree(leaf, leaf));
    assert(in_subtree(left_of(leaf), leaf));
    assert(in_subtree(right_of(leaf), leaf));
    assert forall|q: int| !in_subtree(q, leaf) implies node_at(nodes, q) == node_at(new, q) by {
        assert(node_at(g, q) == node_at(nodes, q));
    }
}

/// Every slot strictly above a reached index, down from the start, holds a
/// split.
proof fn lemma_reached_ancestor_split<T: Clone>(nodes: Seq<Node<T>>, i: int, q: int)
    requires
        reaches(nodes, 0, i),
        in_subtree(i, q),
        q != i,
        q >= 0,
    ensures
        nodes[q] is Split,
        reaches(nodes, 0, q),
    decreases i,
{
    lemma_reaches_root(nodes, 0, i);
    let p = parent_of(i);
    lemma_in_subtree_ge(i, q);
    if p == q {
    } else {
        assert(in_subtree(p, q));
        lemma_reached_ancestor_split(nodes, p, q);
    }
}

/// A tab dropped on an edge of a pane moves into the new pane split off
/// there: the layout then shows the same tabs, except that the dragged one
/// is replaced by its copy.
pub proof fn law_side_drop_moves_tab<T: Clone>(
    old: PanelTree<T>,
    new: PanelTree<T>,
    src: int,
    pos: int,
    target: int,
    copy: Tab<T>,
    dir: SplitDir,
    side: ChildSide,
)
    requires
        layout_full(subtree_at(old.nodes@, 0)),
        reaches(old.nodes@, 0, src),
        old.nodes@[src] is Leaf,
        0 <= pos < old.nodes@[src]->tabs@.len(),
        reaches(old.nodes@, 0, target),
        old.nodes@[target] is Leaf,
        side_drop(old, new, src, pos, target, copy, dir, side),
    ensures
        layout_tabs(subtree_at(new.nodes@, 0)).to_multiset() == layout_tabs(subtree_at(old.nodes@, 0)).to_multiset().remove(
            old.nodes@[src]->tabs@[pos],
        ).insert(copy),
{
    broadcast use vstd::seq_lib::lemma_multiset_commutative, vstd::seq_lib::group_to_multiset_ensures;
    let on = old.nodes@;
    let x = if src == target {
        kept_slot(target, side)
    } else {
        src
    };
    let mid = choose|mid: PanelTree<T>|
        {
            &&& #[trigger] split_with_tab(old, mid, target, copy, dir, side)
            &&& drop_removal(mid.nodes@, new.nodes@, if src == target { kept_slot(target, side) } else { src }, pos)
            &&& new.next_pane_id == mid.next_pane_id
        };
    assert(split_with_tab(old, mid, target, copy, dir, side));
    let mn = mid.nodes@;
    let fresh = mn[fresh_slot(target, side)];
    assert(fresh is Leaf);
    lemma_reaches_root(on, 0, target);
    lemma_reaches_root(on, 0, src);
    let (a, b, c, d) = law_split_keeps_layout(on, target, dir, fresh, side);
    law_split_keeps_full(on, target, dir, fresh, side);
    lemma_split_frame(on, target, dir, fresh, side);
    let t = on[src]->tabs@[pos];
    // The dragged tab's leaf in the split array, reached and unchanged.
    if src == target {
        assert forall|q: int| in_subtree(target, q) && q != target implies node_at(on, q) == node_at(mn, q) by {
            lemma_in_subtree_ge(target, q);
            lemma_in_subtree_ge(q, target);
        }
        lemma_reaches_keep(on, mn, 0, target);
        assert(parent_of(x) == target);
        assert(reaches(mn, 0, x));
    } else {
        if in_subtree(src, target) {
            lemma_reached_ancestor_split(on, src, target);
        }
        assert forall|q: int| in_subtree(src, q) && q != src implies node_at(on, q) == node_at(mn, q) by {
            lemma_in_subtree_ge(src, q);
            if in_subtree(q, target) {
                lemma_in_subtree_trans(src, q, target);
            }
        }
        lemma_reaches_keep(on, mn, 0, src);
        if src == 0 {
            lemma_in_subtree_ge(target, 0);
            crate::model::lemma_in_subtree_ge(0, 0);
            assert(in_subtree(target, 0)) by {
                lemma_reaches_root(on, 0, target);
            }
            lemma_reached_ancestor_split(on, target, 0);
        }
    }
    assert(mn[x] is Leaf && mn[x]->tabs@ == on[src]->tabs@);
    let m = lemma_removal_collapse(mn, new.nodes@, x, pos);
    let mp = mn.update(x, m);
    lemma_reaches_root(mn, 0, x);
    assert(in_subtree(x, x));
    assert forall|q: int| !in_subtree(q, x) implies node_at(mn, q) == node_at(mp, q) by {}
    let (e, f) = lemma_subst_tabs(mn, mp, 0, x);
    let leaf_old = Layout::Part { node: mn[x], first: Box::new(Layout::<T>::Blank), second: Box::new(Layout::<T>::Blank) };
    let leaf_new = Layout::Part { node: m, first: Box::new(Layout::<T>::Blank), second: Box::new(Layout::<T>::Blank) };
    assert(subtree_at(mn, x) == leaf_old);
    assert(subtree_at(mp, x) == leaf_new);
    let tx = on[src]->tabs@;
    // Count every tab: the split adds the copy, the removal takes the tab.
    let old_tabs = layout_tabs(subtree_at(on, 0));
    let mid_tabs = layout_tabs(subtree_at(mn, 0));
    let new_tabs = layout_tabs(subtree_at(new.nodes@, 0));
    let tt = on[target]->tabs@;
    assert(mid_tabs.to_multiset() =~= old_tabs.to_multiset().insert(copy)) by {
        match side {
            ChildSide::First => {
                assert(mid_tabs == a + (seq![copy] + tt) + b);
                assert(old_tabs == a + tt + b);
            },
            ChildSide::Second => {
                assert(mid_tabs == a + (tt + seq![copy]) + b);
                assert(old_tabs == a + tt + b);
            },
        }
    }
    assert(tx.remove(pos).to_multiset() =~= tx.to_multiset().remove(t));
    assert(new_tabs.to_multiset() =~= mid_tabs.to_multiset().remove(t)) by {
        assert(mid_tabs == e + tx + f);
        assert(new_tabs == e + tx.remove(pos) + f);
        assert(tx.to_multiset().count(t) > 0) by {
            assert(tx.contains(t)) by {
                assert(tx[pos] == t);
            }
        }
    }
    assert(old_tabs.to_multiset().count(t) > 0) by {
        let (g, h) = lemma_subst_tabs(on, on, 0, src);
        assert(old_tabs == g + tx + h);
        assert(tx[pos] == t);
        assert(tx.contains(t));
    }
}

/// After a pane is ensured at an anchor, that pane is the anchor's owner, so
/// ensuring the anchor again returns it and changes nothing.
pub proof fn law_anchor_owner_after_ensure<T: Clone>(
    old: PanelTree<T>,
    new: PanelTree<T>,
    anchor: PaneAnchor,
    pane: PaneBuilder<T>,
    r: PaneId,
)
    requires
        anchor_ensured(old, new, anchor, pane, r),
    ensures
        first_leaf_pane(new.nodes@, leaf_with_anchor(anchor)) == Some(r),
{
    broadcast use PaneBuilder::lemma_built_with_options;

    let on = old.nodes@;
    let nn = new.nodes@;
    let p = leaf_with_anchor::<T>(anchor);
    crate::model::lemma_first_index(on, p);
    match first_leaf_pane(on, p) {
        Some(existing) => {},
        None => {
            let root = node_at(on, 0);
            if anchor == PaneAnchor::Center && root is Leaf {
                crate::model::lemma_first_index_is(nn, p, 0);
            } else {
                let (dir, side) = root_split_for(anchor);
                let fresh = pane.built_with_options(r, anchored_options(pane.opts(), anchor));
                let g = grown(on, 0);
                let f = fresh_child(side);
                let k = kept_child(side);
                let split = Node::<T>::Split { dir, ratio: HALF_RATIO };
                let base = grown(seq![split], f).update(f, fresh);
                lemma_grown(seq![split], f);
                lemma_grown(on, 0);
                lemma_place_frame_at(base, k, subtree_at(g, 0));
                crate::model::lemma_place_len(base, k, subtree_at(g, 0));
                lemma_in_subtree_ge(0, k);
                lemma_in_subtree_ge(f, k);
                lemma_in_subtree_ge(parent_of(f), k);
                assert(node_at(nn, 0) == split);
                assert(node_at(nn, f) == fresh);
                if f == 2 {
                    if node_at(g, 0) is Empty {
                        assert(node_at(base, k) is Empty);
                    } else {
                        crate::model::lemma_place_reaches(base, g, 0, k, 0);
                        assert(node_at(nn, 1) == node_at(on, 0));
                        if on.len() > 0 {
                            assert(!p(on[0]));
                        }
                    }
                    assert(!p(nn[1]));
                }
                assert(forall|j: int| 0 <= j < f ==> !p(#[trigger] nn[j]));
                crate::model::lemma_first_index_is(nn, p, f);
            }
        },
    }
}

/// Toggling a pane's collapse twice, each time allowed, restores it.
pub proof fn law_toggle_twice<T: Clone>(n: Node<T>)
    requires
        n is Leaf,
        collapse_allowed(n, !n->collapsed),
        collapse_allowed(with_collapsed(n, !n->collapsed), n->collapsed),
    ensures
        with_collapsed(with_collapsed(n, !n->collapsed), n->collapsed) == n,
{
}

proof fn lemma_kept_not_closable<T: Clone>(tabs: Seq<Tab<T>>)
    ensures
        forall|i: int| 0 <= i < kept_tabs(tabs, None).len() ==> !(#[trigger] kept_tabs(tabs, None)[i]).closable,
        kept_tabs(tabs, None).len() <= tabs.len(),
    decreases tabs.len(),
{
    if tabs.len() > 0 {
        lemma_kept_not_closable(tabs.drop_last());
    }
}

proof fn lemma_nothing_closable<T: Clone>(tabs: Seq<Tab<T>>)
    requires
        forall|i: int| 0 <= i < tabs.len() ==> !(#[trigger] tabs[i]).closable,
    ensures
        kept_tabs(tabs, None) == tabs,
        closed_ids(tabs, None).len() == 0,
    decreases tabs.len(),
{
    if tabs.len() > 0 {
        assert forall|i: int| 0 <= i < tabs.drop_last().len() implies !(#[trigger] tabs.drop_last()[i]).closable by {
            assert(tabs.drop_last()[i] == tabs[i]);
        }
        lemma_nothing_closable(tabs.drop_last());
        assert(tabs.drop_last().push(tabs.last()) =~= tabs);
    }
}

/// Closing all closable tabs leaves none to close: closing all again
/// closes nothing and keeps every tab.
pub proof fn law_close_all_twice<T: Clone>(tabs: Seq<Tab<T>>)
    ensures
        kept_tabs(kept_tabs(tabs, None), None) == kept_tabs(tabs, None),
        closed_ids(kept_tabs(tabs, None), None).len() == 0,
{
    lemma_kept_not_closable(tabs);
    lemma_nothing_closable(kept_tabs(tabs, None));
}

/// Replacing the middle of a sequence without duplicates by elements that
/// are either from the old middle or new to the sequence keeps it free of
/// duplicates.
proof fn lemma_distinct_after_swap<A>(before: Seq<A>, after: Seq<A>, a: Seq<A>, b: Seq<A>, old_mid: Seq<A>, new_mid: Seq<A>)
    requires
        before == a + old_mid + b,
        after == a + new_mid + b,
        before.no_duplicates(),
        new_mid.no_duplicates(),
        forall|x: A| new_mid.contains(x) ==> old_mid.contains(x) || !before.contains(x),
    ensures
        after.no_duplicates(),
{
    assert forall|i: int, j: int| 0 <= i < after.len() && 0 <= j < after.len() && i != j implies after[i] != after[j] by {
        let la = a.len() as int;
        let lm = new_mid.len() as int;
        let lo = old_mid.len() as int;
        // Map an index of `after` to the index of the same element in
        // `before` when it lies outside the middle part.
        if (i < la || i >= la + lm) && (j < la || j >= la + lm) {
            let bi = if i < la { i } else { i - lm + lo };
            let bj = if j < la { j } else { j - lm + lo };
            assert(before[bi] == after[i]);
            assert(before[bj] == after[j]);
        } else if la <= i < la + lm && la <= j < la + lm {
            assert(new_mid[i - la] == after[i]);
            assert(new_mid[j - la] == after[j]);
        } else {
            let (m, o) = if la <= i < la + lm { (i, j) } else { (j, i) };
            let x = after[m];
            assert(new_mid[m - la] == x);
            assert(new_mid.contains(x));
            let bo = if o < la { o } else { o - lm + lo };
            assert(before[bo] == after[o]);
            if after[i] == after[j] {
                assert(before.contains(x));
                assert(old_mid.contains(x));
                let k = choose|k: int| 0 <= k < old_mid.len() && old_mid[k] == x;
                assert(before[la + k] == x);
                assert(bo != la + k);
            }
        }
    }
}

/// Splitting a leaf with the next pane identifier keeps the layout's panes
/// distinct.
pub proof fn law_split_keeps_panes_distinct<T: Clone>(
    nodes: Seq<Node<T>>,
    next: u64,
    leaf: int,
    dir: SplitDir,
    fresh: Node<T>,
    side: ChildSide,
)
    requires
        reaches(nodes, 0, leaf),
        nodes[leaf] is Leaf,
        fresh is Leaf,
        fresh->pane == PaneId::with_raw(next),
        panes_below(nodes, next),
        layout_panes(subtree_at(nodes, 0)).no_duplicates(),
    ensures
        layout_panes(subtree_at(split_result(nodes, leaf, dir, fresh, side), 0)).no_duplicates(),
{
    let n = nodes[leaf];
    let (a, b, c, d) = law_split_keeps_layout(nodes, leaf, dir, fresh, side);
    law_next_pane_is_new(nodes, next);
    let old_mid = seq![n->pane];
    let new_mid = match side {
        ChildSide::First => seq![fresh->pane, n->pane],
        ChildSide::Second => seq![n->pane, fresh->pane],
    };
    let before = layout_panes(subtree_at(nodes, 0));
    assert(before.contains(n->pane)) by {
        assert(before[c.len() as int] == n->pane);
    }
    assert(new_mid.no_duplicates()) by {
        if fresh->pane == n->pane {
            assert(before.contains(fresh->pane));
        }
    }
    assert forall|x: PaneId| new_mid.contains(x) implies old_mid.contains(x) || !before.contains(x) by {
        let k = choose|k: int| 0 <= k < new_mid.len() && new_mid[k] == x;
        assert(new_mid[k] == n->pane || new_mid[k] == fresh->pane);
        if x == n->pane {
            assert(old_mid[0] == x);
        }
    }
    lemma_distinct_after_swap(before, layout_panes(subtree_at(split_result(nodes, leaf, dir, fresh, side), 0)), c, d, old_mid, new_mid);
}

/// Wrapping the layout with a pane of the next identifier keeps the
/// layout's panes distinct.
pub proof fn law_wrap_keeps_panes_distinct<T: Clone>(nodes: Seq<Node<T>>, next: u64, dir: SplitDir, fresh: Node<T>, side: ChildSide)
    requires
        layout_full(subtree_at(nodes, 0)),
        fresh is Leaf,
        fresh->pane == PaneId::with_raw(next),
        panes_below(nodes, next),
        layout_panes(subtree_at(nodes, 0)).no_duplicates(),
    ensures
        layout_panes(subtree_at(wrap_result(nodes, dir, fresh, side), 0)).no_duplicates(),
{
    law_wrap_keeps_layout(nodes, dir, fresh, side);
    law_next_pane_is_new(nodes, next);
    let before = layout_panes(subtree_at(nodes, 0));
    let after = layout_panes(subtree_at(wrap_result(nodes, dir, fresh, side), 0));
    let e = Seq::<PaneId>::empty();
    let mid = seq![fresh->pane];
    assert forall|x: PaneId| mid.contains(x) implies e.contains(x) || !before.contains(x) by {
        assert(x == fresh->pane);
    }
    match side {
        ChildSide::First => {
            assert(before =~= e + e + before);
            assert(after =~= e + mid + before);
            lemma_distinct_after_swap(before, after, e, before, e, mid);
        },
        ChildSide::Second => {
            assert(before =~= before + e + e);
            assert(after =~= before + mid + e);
            lemma_distinct_after_swap(before, after, before, e, e, mid);
        },
    }
}

/// Collapsing an empty leaf keeps the layout's panes distinct.
pub proof fn law_collapse_keeps_panes_distinct<T: Clone>(nodes: Seq<Node<T>>, leaf: int)
    requires
        layout_full(subtree_at(nodes, 0)),
        reaches(nodes, 0, leaf),
        leaf > 0,
        nodes[leaf] is Leaf,
        nodes[leaf]->tabs@.len() == 0,
        !nodes[leaf]->options.persist_when_empty,
        layout_panes(subtree_at(nodes, 0)).no_duplicates(),
    ensures
        layout_panes(subtree_at(collapse_result(nodes, leaf), 0)).no_duplicates(),
{
    let (a, b) = law_collapse_keeps_tabs(nodes, leaf);
    let e = Seq::<PaneId>::empty();
    let before = layout_panes(subtree_at(nodes, 0));
    let after = layout_panes(subtree_at(collapse_result(nodes, leaf), 0));
    assert(after =~= a + e + b);
    lemma_distinct_after_swap(before, after, a, b, seq![nodes[leaf]->pane], e);
}

/// A tab merged from one pane of the layout into another (the source
/// collapsing if it empties) leaves the layout showing the same tabs, each
/// as often as before.
pub proof fn law_merge_keeps_tabs<T: Clone>(
    nodes: Seq<Node<T>>,
    mid: Seq<Node<T>>,
    new: Seq<Node<T>>,
    src: int,
    pos: int,
    dst: int,
)
    requires
        layout_full(subtree_at(nodes, 0)),
        reaches(nodes, 0, src),
        reaches(nodes, 0, dst),
        src != dst,
        nodes[src] is Leaf,
        nodes[dst] is Leaf,
        0 <= pos < nodes[src]->tabs@.len(),
        tab_merge(nodes, mid, src, pos, dst),
        new == collapse_result(mid, src),
    ensures
        layout_tabs(subtree_at(new, 0)).to_multiset() == layout_tabs(subtree_at(nodes, 0)).to_multiset(),
{
    broadcast use vstd::seq_lib::lemma_multiset_commutative, vstd::seq_lib::group_to_multiset_ensures;
    let n = nodes[src];
    let t = n->tabs@[pos];
    let m = choose|m: Node<T>|
        {
            let mid1 = nodes.update(src, m);
            &&& #[trigger] retabbed(n, m, n->tabs@.remove(pos), focus_after_remove(n->focused as int, n->tabs@.len() - 1))
            &&& mid == mid1.update(dst, mid[dst])
            &&& retabbed(mid1[dst], mid[dst], mid1[dst]->tabs@.push(t), mid1[dst]->tabs@.len() as int)
        };
    let mid1 = nodes.update(src, m);
    lemma_reaches_root(nodes, 0, src);
    lemma_reaches_root(nodes, 0, dst);
    // Neither leaf is above the other.
    if in_subtree(dst, src) {
        lemma_reached_ancestor_split(nodes, dst, src);
    }
    if in_subtree(src, dst) {
        lemma_reached_ancestor_split(nodes, src, dst);
    }
    assert(in_subtree(src, src));
    assert(in_subtree(dst, dst));
    // First step: the tab leaves the source.
    assert forall|q: int| !in_subtree(q, src) implies node_at(nodes, q) == node_at(mid1, q) by {}
    let (a, b) = lemma_subst_tabs(nodes, mid1, 0, src);
    let leaf_m = Layout::Part { node: m, first: Box::new(Layout::<T>::Blank), second: Box::new(Layout::<T>::Blank) };
    assert(subtree_at(mid1, src) == leaf_m);
    assert(subtree_at(nodes, src) == Layout::Part {
        node: n,
        first: Box::new(Layout::<T>::Blank),
        second: Box::new(Layout::<T>::Blank),
    });
    lemma_subst_full(nodes, mid1, 0, src);
    assert forall|q: int| in_subtree(dst, q) && q != dst implies node_at(nodes, q) == node_at(mid1, q) by {
        if q == src {
            lemma_reached_ancestor_split(nodes, dst, src);
        }
    }
    lemma_reaches_keep(nodes, mid1, 0, dst);
    // Second step: the tab joins the destination.
    let e = mid1[dst];
    let md = mid[dst];
    assert forall|q: int| !in_subtree(q, dst) implies node_at(mid1, q) == node_at(mid, q) by {}
    let (c, d) = lemma_subst_tabs(mid1, mid, 0, dst);
    let leaf_md = Layout::Part { node: md, first: Box::new(Layout::<T>::Blank), second: Box::new(Layout::<T>::Blank) };
    assert(subtree_at(mid, dst) == leaf_md);
    assert(subtree_at(mid1, dst) == Layout::Part {
        node: e,
        first: Box::new(Layout::<T>::Blank),
        second: Box::new(Layout::<T>::Blank),
    });
    lemma_subst_full(mid1, mid, 0, dst);
    assert forall|q: int| in_subtree(src, q) && q != src implies node_at(nodes, q) == node_at(mid, q) by {
        if q == dst {
            lemma_reached_ancestor_split(nodes, src, dst);
        }
    }
    lemma_reaches_keep(nodes, mid, 0, src);
    // The source collapses if it emptied, keeping the tabs.
    if src == 0 {
        lemma_in_subtree_ge(dst, 0);
        lemma_reached_ancestor_split(nodes, dst, 0);
    }
    if mid[src]->tabs@.len() == 0 && !mid[src]->options.persist_when_empty {
        law_collapse_keeps_tabs(mid, src);
    } else {
        assert(new == mid);
    }
    // Count every tab: one copy of `t` leaves, one arrives.
    let ts = n->tabs@;
    let old_tabs = layout_tabs(subtree_at(nodes, 0));
    assert(ts.contains(t)) by {
        assert(ts[pos] == t);
    }
    assert(old_tabs.to_multiset() =~= a.to_multiset().add(ts.to_multiset()).add(b.to_multiset()));
    assert(layout_tabs(subtree_at(mid1, 0)).to_multiset() =~= old_tabs.to_multiset().remove(t));
    assert(layout_tabs(subtree_at(mid, 0)).to_multiset() =~= layout_tabs(subtree_at(mid1, 0)).to_multiset().insert(t));
}

/// Releasing a drag whose tab comes from a pane that forbids dragging tabs
/// out of it makes no pane and changes no other slot; that pane keeps its
/// tabs, at most reordered within it.
pub proof fn law_drag_out_forbidden_keeps_tabs<T: Clone>(
    old: PanelTree<T>,
    new: PanelTree<T>,
    payload: DragPayload,
    target: int,
    zone: DropZone,
    root_zone: Option<DropZone>,
    in_header: bool,
    header_index: Option<usize>,
    s: int,
)
    requires
        drop_released(old, new, payload, target, zone, root_zone, in_header, header_index),
        drop_source(old.nodes@, payload) == Some(s),
        !old.nodes@[s]->options.allow_tab_drag_out,
    ensures
        new.next_pane_id == old.next_pane_id,
        new.nodes@.len() == old.nodes@.len(),
        forall|i: int| 0 <= i < old.nodes@.len() && i != s ==> new.nodes@[i] == old.nodes@[i],
        new.nodes@[s] is Leaf,
        new.nodes@[s]->pane == old.nodes@[s]->pane,
        new.nodes@[s]->tabs@.to_multiset() == old.nodes@[s]->tabs@.to_multiset(),
{
    broadcast use vstd::seq_lib::group_to_multiset_ensures;

    lemma_first_index(old.nodes@, leaf_of_pane(payload.src_pane));
    if new != old {
        let res = drop_resolution(old.nodes@, payload, target, zone, root_zone, in_header)->0;
        let pos = payload.tab_pos as int;
        let to = header_index->0 as int;
        let moved = choose|moved: bool| #[trigger] tab_move(old.nodes@, new.nodes@, target, pos, to, moved);
        assert(tab_move(old.nodes@, new.nodes@, target, pos, to, moved));
        assert(s == target);
        if moved {
            let tabs = old.nodes@[s]->tabs@;
            if pos != to {
                vstd::seq_lib::to_multiset_remove(tabs, pos);
                vstd::seq_lib::to_multiset_insert(tabs.remove(pos), to, tabs[pos]);
                assert(tabs.to_multiset().remove(tabs[pos]).insert(tabs[pos]) =~= tabs.to_multiset());
            }
        }
    }
}

/// A tab dropped on an edge of a pane (not of the whole layout) gets a new
/// pane on that edge: the target slot becomes a split, left-right for the
/// left and right edges and top-bottom for the top and bottom edges; the new
/// pane, with the next identifier and a copy of the tab, is its first child
/// for the left and top edges and its second child for the right and bottom
/// edges; the target pane is the other child. This holds where the source
/// pane is part of the layout and keeps another tab.
pub proof fn law_edge_drop_places_new_pane<T: Clone>(
    old: PanelTree<T>,
    new: PanelTree<T>,
    payload: DragPayload,
    target: int,
    zone: DropZone,
    in_header: bool,
    header_index: Option<usize>,
    s: int,
)
    requires
        drop_released(old, new, payload, target, zone, None, in_header, header_index),
        zone != DropZone::Center,
        drop_resolution(old.nodes@, payload, target, zone, None, in_header) is Some,
        drag_permitted(old.nodes@, payload),
        drop_source(old.nodes@, payload) == Some(s),
        old.nodes@[s]->options.allow_tab_drag_out,
        reaches(old.nodes@, 0, s),
        old.nodes@[s]->tabs@.len() >= 2,
    ensures
        ({
            let first_edge = zone == DropZone::Left || zone == DropZone::Top;
            let fresh = if first_edge { left_of(target) } else { right_of(target) };
            let kept = if first_edge { right_of(target) } else { left_of(target) };
            let want_dir = if zone == DropZone::Left || zone == DropZone::Right {
                SplitDir::Horizontal
            } else {
                SplitDir::Vertical
            };
            &&& new.next_pane_id == old.next_pane_id + 1
            &&& new.nodes@[target] matches Node::Split { dir, .. } && dir == want_dir
            &&& new.nodes@[fresh] is Leaf
            &&& new.nodes@[fresh]->pane == PaneId::with_raw(old.next_pane_id)
            &&& new.nodes@[fresh]->tabs@.len() == 1
            &&& tab_cloned(old.nodes@[s]->tabs@[payload.tab_pos as int], new.nodes@[fresh]->tabs@[0])
            &&& new.nodes@[kept] is Leaf
            &&& new.nodes@[kept]->pane == old.nodes@[target]->pane
        }),
{
    lemma_first_index(old.nodes@, leaf_of_pane(payload.src_pane));
    let res = drop_resolution(old.nodes@, payload, target, zone, None, in_header)->0;
    assert(res.zone == zone && !res.at_root);
    let (dir, side) = zone_split(zone)->0;
    let pos = payload.tab_pos as int;
    let tab = old.nodes@[s]->tabs@[pos];
    let copy = choose|copy: Tab<T>| #[trigger] tab_cloned(tab, copy) && side_drop(old, new, s, pos, target, copy, dir, side);
    assert(tab_cloned(tab, copy) && side_drop(old, new, s, pos, target, copy, dir, side));
    let mid = choose|mid: PanelTree<T>|
        {
            &&& #[trigger] split_with_tab(old, mid, target, copy, dir, side)
            &&& drop_removal(mid.nodes@, new.nodes@, if s == target { kept_slot(target, side) } else { s }, pos)
            &&& new.next_pane_id == mid.next_pane_id
        };
    assert(split_with_tab(old, mid, target, copy, dir, side));
    let slot = if s == target { kept_slot(target, side) } else { s };
    let on = old.nodes@;
    let mn = mid.nodes@;
    lemma_grown(on, right_of(target));
    assert(on[target] is Leaf);
    if s != target {
        // The source is reached through splits, so it is no child of the
        // target leaf.
        if s == left_of(target) || s == right_of(target) {
            assert(parent_of(s) == target);
            assert(on[target] is Split);
        }
        assert(mn[s] == on[s]);
    } else {
        assert(mn[slot] == expanded(on[target]));
    }
    let n = node_at(mn, slot);
    assert(n is Leaf && n->tabs@.len() >= 2);
    let m = choose|m: Node<T>|
        {
            &&& #[trigger] retabbed(n, m, n->tabs@.remove(pos), focus_after_remove(n->focused as int, n->tabs@.len() - 1))
            &&& new.nodes@ == collapse_result(mn.update(slot, m), slot)
        };
    assert(retabbed(n, m, n->tabs@.remove(pos), focus_after_remove(n->focused as int, n->tabs@.len() - 1)));
    assert(new.nodes@ == mn.update(slot, m));
}

/// After the whole layout is wrapped, the root is the new split and the
/// fresh node sits on its side.
proof fn lemma_wrap_slots<T: Clone>(nodes: Seq<Node<T>>, dir: SplitDir, fresh: Node<T>, side: ChildSide)
    ensures
        wrap_result(nodes, dir, fresh, side).len() > fresh_child(side),
        wrap_result(nodes, dir, fresh, side)[0] == (Node::<T>::Split { dir, ratio: HALF_RATIO }),
        wrap_result(nodes, dir, fresh, side)[fresh_child(side)] == fresh,
{
    let f = fresh_child(side);
    let k = kept_child(side);
    let split = Node::<T>::Split { dir, ratio: HALF_RATIO };
    let base = grown(seq![split], f).update(f, fresh);
    lemma_grown(seq![split], f);
    crate::model::lemma_place_frame(base, k, subtree_at(nodes, 0));
    crate::model::lemma_place_len(base, k, subtree_at(nodes, 0));
    lemma_in_subtree_ge(0, k);
    lemma_in_subtree_ge(f, k);
    lemma_in_subtree_ge(parent_of(f), k);
    if side == ChildSide::First {
        assert(!in_subtree(1, 2));
        assert(grown(seq![split], f).len() == 2);
    } else {
        assert(!in_subtree(2, 1));
        assert(grown(seq![split], f).len() == 3);
    }
    assert(!in_subtree(0, k));
}

/// The root slot a pane placed at an edge anchor takes: the first child for
/// the left and top edges, the second for the right and bottom edges.
pub open spec fn edge_slot(anchor: PaneAnchor) -> int {
    if anchor == PaneAnchor::Left || anchor == PaneAnchor::Top {
        1
    } else {
        2
    }
}

/// The direction of the root split that places a pane at an edge anchor:
/// left-right for the left and right edges, top-bottom for the others.
pub open spec fn edge_dir(anchor: PaneAnchor) -> SplitDir {
    if anchor == PaneAnchor::Left || anchor == PaneAnchor::Right {
        SplitDir::Horizontal
    } else {
        SplitDir::Vertical
    }
}

/// Ensuring a pane at an edge anchor that no pane owns yet puts a new pane,
/// which owns the anchor, on that edge of the whole layout: the root becomes
/// a left-right split for the left and right edges and a top-bottom split for
/// the others, and the new pane is its first child on the left and top
/// edges, its second child on the right and bottom edges.
pub proof fn law_anchor_pane_sits_on_its_edge<T: Clone>(
    old: PanelTree<T>,
    new: PanelTree<T>,
    anchor: PaneAnchor,
    pane: PaneBuilder<T>,
    r: PaneId,
)
    requires
        anchor_ensured(old, new, anchor, pane, r),
        anchor != PaneAnchor::Center,
        first_leaf_pane(old.nodes@, leaf_with_anchor(anchor)) is None,
    ensures
        new.nodes@[0] matches Node::Split { dir, .. } && dir == edge_dir(anchor),
        new.nodes@[edge_slot(anchor)] is Leaf,
        new.nodes@[edge_slot(anchor)]->pane == r,
        new.nodes@[edge_slot(anchor)]->options.anchor == Some(anchor),
{
    let (dir, side) = root_split_for(anchor);
    let opts = anchored_options(pane.opts(), anchor);
    PaneBuilder::lemma_built_with_options(pane, r, opts);
    lemma_wrap_slots(grown(old.nodes@, 0), dir, pane.built_with_options(r, opts), side);
}

/// Moving a pane other than the root to an edge anchor puts it on that edge
/// of the whole layout: the root becomes a left-right split for the left and
/// right edges and a top-bottom split for the others, and the pane, now
/// owning the anchor, is its first child on the left and top edges, its
/// second child on the right and bottom edges.
pub proof fn law_moved_pane_sits_on_its_edge<T: Clone>(
    old: Seq<Node<T>>,
    new: Seq<Node<T>>,
    id: PaneId,
    anchor: PaneAnchor,
    r: Option<PaneId>,
    i: int,
)
    requires
        pane_move(old, new, id, anchor, r),
        anchor != PaneAnchor::Center,
        first_index(old, leaf_of_pane(id)) == Some(i),
        i != 0,
        !old[i]->options.lock_layout,
    ensures
        r == Some(id),
        new[0] matches Node::Split { dir, .. } && dir == edge_dir(anchor),
        new[edge_slot(anchor)] is Leaf,
        new[edge_slot(anchor)]->pane == id,
        new[edge_slot(anchor)]->options.anchor == Some(anchor),
{
    lemma_first_index(old, leaf_of_pane(id));
    let cleared = crate::anchors::clear_anchors(old, crate::anchors::anchor_owner_ids(old, anchor, Some(id)));
    let (moved, emptied) = choose|moved: Node<T>, emptied: Node<T>|
        {
            &&& #[trigger] crate::anchors::same_pane(cleared[i], moved, cleared[i]->tabs@, cleared[i]->focused as int)
            &&& moved->options == anchored_options(cleared[i]->options, anchor)
            &&& !moved->collapsed
            &&& #[trigger] crate::anchors::same_pane(cleared[i], emptied, Seq::empty(), 0)
            &&& emptied->options == PaneOptions { persist_when_empty: false, ..cleared[i]->options }
            &&& emptied->collapsed == cleared[i]->collapsed
            &&& new == wrap_result(
                collapse_result(cleared.update(i, emptied), i),
                root_split_for(anchor).0,
                moved,
                root_split_for(anchor).1,
            )
        };
    lemma_wrap_slots(
        collapse_result(cleared.update(i, emptied), i),
        root_split_for(anchor).0,
        moved,
        root_split_for(anchor).1,
    );
    crate::anchors::lemma_clear_anchors_keep(old, crate::anchors::anchor_owner_ids(old, anchor, Some(id)));
    assert(cleared[i]->pane == id);
}

proof fn lemma_kept_and_closed<T: Clone>(tabs: Seq<Tab<T>>, keep: Option<usize>)
    ensures
        kept_tabs(tabs, keep).len() + closed_ids(tabs, keep).len() == tabs.len(),
        forall|j: int|
            0 <= j < tabs.len() && !(tabs[j].closable && keep != Some(j as usize)) ==> kept_tabs(tabs, keep).contains(
                #[trigger] tabs[j],
            ),
        forall|t: Tab<T>|
            #[trigger] kept_tabs(tabs, keep).contains(t) ==> exists|j: int|
                0 <= j < tabs.len() && tabs[j] == t && !(t.closable && keep != Some(j as usize)),
    decreases tabs.len(),
{
    if tabs.len() > 0 {
        let init = tabs.drop_last();
        lemma_kept_and_closed(init, keep);
        let rest = kept_tabs(init, keep);
        let last = tabs.len() - 1;
        assert forall|j: int|
            0 <= j < tabs.len() && !(tabs[j].closable && keep != Some(j as usize)) implies kept_tabs(tabs, keep).contains(
            #[trigger] tabs[j],
        ) by {
            if j < last {
                assert(init[j] == tabs[j]);
                assert(rest.contains(init[j]));
                let k = choose|k: int| 0 <= k < rest.len() && rest[k] == init[j];
                if !closes(tabs.last(), last, keep) {
                    assert(rest.push(tabs.last())[k] == tabs[j]);
                }
            } else {
                assert(!closes(tabs.last(), last, keep));
                assert(rest.push(tabs.last())[rest.len() as int] == tabs[j]);
            }
        }
        assert forall|t: Tab<T>| #[trigger] kept_tabs(tabs, keep).contains(t) implies exists|j: int|
            0 <= j < tabs.len() && tabs[j] == t && !(t.closable && keep != Some(j as usize)) by {
            let kt = kept_tabs(tabs, keep);
            let k = choose|k: int| 0 <= k < kt.len() && kt[k] == t;
            if !closes(tabs.last(), last, keep) && k == rest.len() {
                assert(tabs[last] == t);
            } else {
                assert(kt[k] == rest[k]);
                assert(rest.contains(t));
                let j = choose|j: int| 0 <= j < init.len() && init[j] == t && !(t.closable && keep != Some(j as usize));
                assert(tabs[j] == init[j]);
            }
        }
    }
}

/// Closing tabs in a leaf (all of them, or all but the tab at `keep`) closes
/// exactly the closable tabs other than the kept one: every tab that is not
/// closable, and the kept one, stays; every tab that stays is one of those;
/// the reported identifiers are as many as the tabs that left. The returned
/// sequence is the tabs that stay, which the leaf holds unless none stays.
pub proof fn law_closing_keeps_only_unclosable<T: Clone>(
    old: Seq<Node<T>>,
    new: Seq<Node<T>>,
    leaf: int,
    keep: Option<usize>,
    r: Seq<T>,
) -> (left: Seq<Tab<T>>)
    requires
        tabs_closing(old, new, leaf, keep, r),
        0 <= leaf < old.len(),
        old[leaf] is Leaf,
    ensures
        ({
            let tabs = old[leaf]->tabs@;
            &&& left.len() + r.len() == tabs.len()
            &&& forall|j: int|
                0 <= j < tabs.len() && (!tabs[j].closable || keep == Some(j as usize)) ==> left.contains(#[trigger] tabs[j])
            &&& forall|t: Tab<T>|
                #[trigger] left.contains(t) ==> exists|j: int|
                    0 <= j < tabs.len() && tabs[j] == t && (!t.closable || keep == Some(j as usize))
            &&& left.len() > 0 ==> new[leaf] is Leaf && new[leaf]->pane == old[leaf]->pane && new[leaf]->tabs@ == left
        }),
{
    let n = old[leaf];
    let left = kept_tabs(n->tabs@, keep);
    lemma_kept_and_closed(n->tabs@, keep);
    let m = choose|m: Node<T>|
        {
            &&& #[trigger] retabbed(n, m, left, focus_after_remove(n->focused as int, left.len() as int))
            &&& new == collapse_result(grown(old, leaf).update(leaf, m), leaf)
        };
    assert(retabbed(n, m, left, focus_after_remove(n->focused as int, left.len() as int)));
    assert(grown(old, leaf) == old);
    left
}

/// Every constraint a tab's drop policy sets must hold for a pane to receive
/// the tab: a pane lock admits only its pane, a role lock only its role, an
/// allow-list only what it lists (a role allow-list never a pane without a
/// role), and a block-list never what it lists, whatever else allows it; a
/// policy that sets nothing admits every pane.
pub proof fn law_drop_policy_constraints(p: TabDropPolicy, pane: PaneId, role: Option<PaneRole>)
    ensures
        allows_target_spec(p, pane, role) ==> (p.locked_to_pane matches Some(locked) ==> locked == pane),
        allows_target_spec(p, pane, role) ==> (p.locked_to_role matches Some(locked) ==> role == Some(locked)),
        allows_target_spec(p, pane, role) ==> (p.allowed_panes matches Some(list) ==> list@.contains(pane)),
        allows_target_spec(p, pane, role) ==> (p.allowed_roles matches Some(list) ==> (role is Some && list@.contains(
            role->0,
        ))),
        p.blocked_panes@.contains(pane) ==> !allows_target_spec(p, pane, role),
        (role matches Some(r) && p.blocked_roles@.contains(r)) ==> !allows_target_spec(p, pane, role),
        unconstrained(p) ==> allows_target_spec(p, pane, role),
{
}

/// Removing a pane that does not persist when empty takes it out of the
/// layout: the panes the layout shows are those it showed before, in the same
/// order, without the removed one. (The root pane of a layout cannot be
/// removed this way; the layout is one whose splits all have two parts.)
pub proof fn law_removed_pane_leaves_layout<T: Clone>(
    old: Seq<Node<T>>,
    new: Seq<Node<T>>,
    id: PaneId,
    r: Option<Vec<T>>,
    i: int,
) -> (rest: (Seq<PaneId>, Seq<PaneId>))
    requires
        pane_removal(old, new, id, r),
        r is Some,
        first_index(old, leaf_of_pane(id)) == Some(i),
        !old[i]->options.persist_when_empty,
        layout_full(subtree_at(old, 0)),
        reaches(old, 0, i),
    ensures
        layout_panes(subtree_at(old, 0)) == rest.0 + seq![id] + rest.1,
        layout_panes(subtree_at(new, 0)) == rest.0 + rest.1,
{
    lemma_first_index(old, leaf_of_pane(id));
    let n = old[i];
    let m = choose|m: Node<T>|
        {
            &&& #[trigger] retabbed(n, m, Seq::empty(), 0)
            &&& new == collapse_result(old.update(i, m), i)
        };
    assert(retabbed(n, m, Seq::empty(), 0));
    let mid = old.update(i, m);
    assert(i != 0);
    assert(in_subtree(i, i));
    assert forall|q: int| !in_subtree(q, i) implies node_at(old, q) == node_at(mid, q) by {}
    assert forall|q: int| in_subtree(i, q) && q != i implies node_at(old, q) == node_at(mid, q) by {}
    lemma_reaches_keep(old, mid, 0, i);
    let (a, b) = lemma_subst_panes(old, mid, 0, i);
    let leaf_old = Layout::Part { node: n, first: Box::new(Layout::<T>::Blank), second: Box::new(Layout::<T>::Blank) };
    let leaf_mid = Layout::Part { node: m, first: Box::new(Layout::<T>::Blank), second: Box::new(Layout::<T>::Blank) };
    assert(subtree_at(old, i) == leaf_old);
    assert(subtree_at(mid, i) == leaf_mid);
    assert(layout_panes(leaf_old) == seq![id]);
    assert(layout_panes(leaf_mid) == seq![id]);
    lemma_subst_full(old, mid, 0, i);
    let (c, d) = law_collapse_keeps_tabs(mid, i);
    assert(layout_panes(subtree_at(mid, 0)) == layout_panes(subtree_at(old, 0)));
    (c, d)
}

/// A tab dropped on an edge of the whole layout shows up at that end of the
/// layout: first for the left and top edges, last for the right and bottom
/// edges, with every other tab in its old order. Returns the tabs before and
/// after the dragged one in the old layout.
pub proof fn law_root_edge_drop_order<T: Clone>(
    old: PanelTree<T>,
    new: PanelTree<T>,
    payload: DragPayload,
    target: int,
    zone: DropZone,
    root_zone: DropZone,
    in_header: bool,
    header_index: Option<usize>,
    s: int,
) -> (r: (Seq<Tab<T>>, Seq<Tab<T>>))
    requires
        drop_released(old, new, payload, target, zone, Some(root_zone), in_header, header_index),
        root_zone != DropZone::Center,
        drop_resolution(old.nodes@, payload, target, zone, Some(root_zone), in_header) matches Some(res) && res.at_root,
        drag_permitted(old.nodes@, payload),
        drop_source(old.nodes@, payload) == Some(s),
        old.nodes@[s]->options.allow_tab_drag_out,
        reaches(old.nodes@, 0, s),
        layout_full(subtree_at(old.nodes@, 0)),
    ensures
        layout_tabs(subtree_at(old.nodes@, 0)) == r.0 + seq![old.nodes@[s]->tabs@[payload.tab_pos as int]] + r.1,
        exists|copy: Tab<T>|
            #![trigger tab_cloned(old.nodes@[s]->tabs@[payload.tab_pos as int], copy)]
            tab_cloned(old.nodes@[s]->tabs@[payload.tab_pos as int], copy) && layout_tabs(subtree_at(new.nodes@, 0)) == if (
            root_zone == DropZone::Left || root_zone == DropZone::Top) {
                seq![copy] + r.0 + r.1
            } else {
                r.0 + r.1 + seq![copy]
            },
{
    lemma_first_index(old.nodes@, leaf_of_pane(payload.src_pane));
    let res = drop_resolution(old.nodes@, payload, target, zone, Some(root_zone), in_header)->0;
    assert(res.zone == root_zone);
    let (dir, side) = zone_split(root_zone)->0;
    let pos = payload.tab_pos as int;
    let tab = old.nodes@[s]->tabs@[pos];
    let copy = choose|copy: Tab<T>| #[trigger] tab_cloned(tab, copy) && root_drop(old, new, s, pos, copy, dir, side);
    assert(tab_cloned(tab, copy) && root_drop(old, new, s, pos, copy, dir, side));
    law_root_drop_moves_tab(old, new, s, pos, copy, dir, side)
}

/// Which drops a pane accepts: none while its layout is locked; otherwise a
/// center drop exactly when its policy allows merging, and a drop on its
/// left, right, top or bottom edge exactly when its policy allows a split on
/// that side.
pub proof fn law_zone_permissions(options: PaneOptions)
    ensures
        options.lock_layout ==> !zone_allowed(options, DropZone::Center) && !zone_allowed(options, DropZone::Left)
            && !zone_allowed(options, DropZone::Right) && !zone_allowed(options, DropZone::Top) && !zone_allowed(
            options,
            DropZone::Bottom,
        ),
        !options.lock_layout ==> {
            &&& zone_allowed(options, DropZone::Center) == options.drop_policy.allow_merge
            &&& zone_allowed(options, DropZone::Left) == options.drop_policy.allow_split_left
            &&& zone_allowed(options, DropZone::Right) == options.drop_policy.allow_split_right
            &&& zone_allowed(options, DropZone::Top) == options.drop_policy.allow_split_top
            &&& zone_allowed(options, DropZone::Bottom) == options.drop_policy.allow_split_bottom
        },
{
}

/// How a drag resolves over a pane: only over a leaf whose pane the dragged
/// tab may enter and which accepts the zone; an accepted root-edge zone wins
/// over the pane's own zone; otherwise the pane's zone is used as given; and
/// the drop reorders exactly when it is a center drop into the dragged tab's
/// own pane through its shown header, which allows reordering.
pub proof fn law_drop_resolution_rules<T: Clone>(
    nodes: Seq<Node<T>>,
    payload: DragPayload,
    target: int,
    zone: DropZone,
    root_zone: Option<DropZone>,
    in_header: bool,
)
    ensures
        ({
            let t = node_at(nodes, target);
            let r = drop_resolution(nodes, payload, target, zone, root_zone, in_header);
            &&& r is Some ==> (t is Leaf && !t->options.lock_layout && dragged_tab(nodes, payload) is Some
                && allows_target_spec(dragged_tab(nodes, payload)->0.drop_policy, t->pane, t->options.role))
            &&& (r is Some && root_zone is Some && zone_allowed(t->options, root_zone->0)) ==> (r->0.zone == root_zone->0
                && r->0.at_root)
            &&& (r is Some && !r->0.at_root) ==> (r->0.zone == zone && zone_allowed(t->options, zone))
            &&& (r is Some && r->0.at_root) ==> root_zone == Some(r->0.zone)
            &&& r is Some ==> (r->0.reorder <==> (t->pane == payload.src_pane && r->0.zone == DropZone::Center
                && header_visible_spec(t) && in_header && t->options.allow_tab_reorder))
        }),
{
}

/// Moving a tab within a list keeps its length, puts the moved tab at the
/// destination, and leaves the other tabs in their order; no tab is lost or
/// added.
pub proof fn law_moved_tab_lands<T: Clone>(tabs: Seq<Tab<T>>, from: int, to: int)
    requires
        0 <= from < tabs.len(),
        0 <= to < tabs.len(),
    ensures
        moved_tabs(tabs, from, to).len() == tabs.len(),
        moved_tabs(tabs, from, to)[to] == tabs[from],
        moved_tabs(tabs, from, to).remove(to) == tabs.remove(from),
        moved_tabs(tabs, from, to).to_multiset() == tabs.to_multiset(),
{
    broadcast use vstd::seq_lib::group_to_multiset_ensures;

    if from != to {
        let m = moved_tabs(tabs, from, to);
        assert(m.remove(to) =~= tabs.remove(from));
        vstd::seq_lib::to_multiset_remove(tabs, from);
        vstd::seq_lib::to_multiset_insert(tabs.remove(from), to, tabs[from]);
        assert(tabs.to_multiset().remove(tabs[from]).insert(tabs[from]) =~= tabs.to_multiset());
    }
}

/// When a pane's header shows: always while the pane is collapsed; otherwise,
/// for a pane with tabs, always under `Always`, never under `Hidden`, and
/// under `WhenMultipleTabs` exactly when it holds more than one tab. Nodes
/// other than leaves show none.
pub proof fn law_header_visibility<T: Clone>(n: Node<T>)
    ensures
        !(n is Leaf) ==> !header_visible_spec(n),
        n is Leaf && n->collapsed ==> header_visible_spec(n),
        n is Leaf && !n->collapsed && n->tabs@.len() > 0 ==> header_visible_spec(n) == match n->options.header_visibility {
            HeaderVisibility::Always => true,
            HeaderVisibility::WhenMultipleTabs => n->tabs@.len() > 1,
            HeaderVisibility::Hidden => false,
        },
{
}

/// Which collapse requests a pane grants: none while its layout is locked;
/// otherwise expanding always, and collapsing exactly when the pane allows
/// it. Nodes other than leaves grant none.
pub proof fn law_collapse_rules<T: Clone>(n: Node<T>)
    ensures
        !(n is Leaf) ==> !collapse_allowed(n, true) && !collapse_allowed(n, false),
        n is Leaf && n->options.lock_layout ==> !collapse_allowed(n, true) && !collapse_allowed(n, false),
        n is Leaf && !n->options.lock_layout ==> collapse_allowed(n, false) && collapse_allowed(n, true)
            == n->options.allow_collapse,
{
}

/// Removing a pane is refused, with nothing changed, when its layout is
/// locked or it is the root pane and does not persist when empty; a
/// successful removal reports the identifiers of its tabs in order, and a
/// pane that persists when empty stays in place with no tabs.
pub proof fn law_pane_removal_rules<T: Clone>(old: Seq<Node<T>>, new: Seq<Node<T>>, id: PaneId, r: Option<Vec<T>>, i: int)
    requires
        pane_removal(old, new, id, r),
        first_index(old, leaf_of_pane(id)) == Some(i),
    ensures
        old[i]->options.lock_layout ==> r is None && new == old,
        i == 0 && !old[i]->options.persist_when_empty ==> r is None && new == old,
        r matches Some(ids) ==> ids@.len() == old[i]->tabs@.len() && forall|k: int|
            0 <= k < ids@.len() ==> #[trigger] ids@[k] == old[i]->tabs@[k].id,
        r is Some && old[i]->options.persist_when_empty ==> new.len() == old.len() && new[i] is Leaf && new[i]->pane == id
            && new[i]->tabs@.len() == 0 && forall|q: int| 0 <= q < old.len() && q != i ==> new[q] == old[q],
{
    lemma_first_index(old, leaf_of_pane(id));
    if r is Some && old[i]->options.persist_when_empty {
        let n = old[i];
        let m = choose|m: Node<T>|
            {
                &&& #[trigger] retabbed(n, m, Seq::empty(), 0)
                &&& new == old.update(i, m)
            };
        assert(retabbed(n, m, Seq::empty(), 0));
    }
}

/// Removing the tab at a valid position of a leaf that holds another tab
/// returns that tab, keeps the leaf and its pane, leaves the other tabs in
/// their order, and keeps the focus on a tab.
pub proof fn law_tab_removal_result<T: Clone>(old: Seq<Node<T>>, new: Seq<Node<T>>, leaf: int, pos: int, r: Option<Tab<T>>)
    requires
        tab_removal(old, new, leaf, pos, r),
        0 <= leaf < old.len(),
        old[leaf] is Leaf,
        0 <= pos < old[leaf]->tabs@.len(),
        old[leaf]->tabs@.len() >= 2,
        old[leaf]->focused < old[leaf]->tabs@.len(),
    ensures
        r == Some(old[leaf]->tabs@[pos]),
        new.len() == old.len(),
        forall|q: int| 0 <= q < old.len() && q != leaf ==> new[q] == old[q],
        new[leaf] is Leaf,
        new[leaf]->pane == old[leaf]->pane,
        new[leaf]->tabs@.len() == old[leaf]->tabs@.len() - 1,
        forall|k: int| 0 <= k < pos ==> #[trigger] new[leaf]->tabs@[k] == old[leaf]->tabs@[k],
        forall|k: int| pos < k < old[leaf]->tabs@.len() ==> new[leaf]->tabs@[k - 1] == #[trigger] old[leaf]->tabs@[k],
        new[leaf]->focused < new[leaf]->tabs@.len(),
{
    let n = old[leaf];
    let m = choose|m: Node<T>|
        {
            &&& #[trigger] retabbed(n, m, n->tabs@.remove(pos), focus_after_remove(n->focused as int, n->tabs@.len() - 1))
            &&& new == collapse_result(grown(old, leaf).update(leaf, m), leaf)
        };
    assert(retabbed(n, m, n->tabs@.remove(pos), focus_after_remove(n->focused as int, n->tabs@.len() - 1)));
    assert(grown(old, leaf) == old);
    assert(new == old.update(leaf, m));
}

/// Splitting a leaf turns its slot into a split in the given direction, puts
/// the new pane in its first child for `First` and its second child for
/// `Second`, and the existing pane, expanded, in the other child.
pub proof fn law_split_places_children<T: Clone>(
    nodes: Seq<Node<T>>,
    leaf: int,
    dir: SplitDir,
    fresh: Node<T>,
    side: ChildSide,
)
    requires
        0 <= leaf < nodes.len(),
        nodes[leaf] is Leaf,
    ensures
        ({
            let new = split_result(nodes, leaf, dir, fresh, side);
            let (fresh_at, kept_at) = if side == ChildSide::First {
                (2 * leaf + 1, 2 * leaf + 2)
            } else {
                (2 * leaf + 2, 2 * leaf + 1)
            };
            &&& new[leaf] matches Node::Split { dir: d, .. } && d == dir
            &&& new[fresh_at] == fresh
            &&& new[kept_at] is Leaf
            &&& new[kept_at]->pane == nodes[leaf]->pane
            &&& new[kept_at]->tabs == nodes[leaf]->tabs
            &&& !new[kept_at]->collapsed
        }),
{
    lemma_grown(nodes, right_of(leaf));
}

/// The colours of a tab: with no overrides, those of its state, where being
/// active wins over being hovered; a tab's own text colour, and its
/// background for its current state, replace the state's; a pane's accent
/// colour wins over both the state's and the tab's; colours an override does
/// not set come from the state.
pub proof fn law_tab_state_rules(
    style: TabStyle,
    active: bool,
    hovered: bool,
    pane: Option<PaneStyleOverride>,
    tab: Option<TabStyleOverride>,
)
    ensures
        ({
            let r = tab_state_spec(style, active, hovered, pane, tab);
            let state = if active {
                style.active
            } else if hovered {
                style.hovered
            } else {
                style.inactive
            };
            &&& (pane is None && tab is None) ==> r == state
            &&& (tab is Some && tab->0.text_color is Some) ==> r.text_color == tab->0.text_color->0
            &&& (tab is None || tab->0.text_color is None) ==> r.text_color == state.text_color
            &&& (active && tab is Some && tab->0.active_bg is Some) ==> r.bg == tab->0.active_bg->0
            &&& (!active && hovered && tab is Some && tab->0.hovered_bg is Some) ==> r.bg == tab->0.hovered_bg->0
            &&& (!active && !hovered && tab is Some && tab->0.inactive_bg is Some) ==> r.bg == tab->0.inactive_bg->0
            &&& (pane is Some && pane->0.accent_color is Some) ==> r.accent_color == pane->0.accent_color->0
            &&& ((pane is None || pane->0.accent_color is None) && tab is Some && tab->0.accent_color is Some)
                ==> r.accent_color == tab->0.accent_color->0
        }),
{
}

/// A tab dropped on the middle of another pane moves there: it becomes that
/// pane's last tab and is focused, and it leaves its own pane, whose other
/// tabs keep their order. This holds where its own pane keeps another tab.
pub proof fn law_center_drop_moves_tab_to_end<T: Clone>(
    old: PanelTree<T>,
    new: PanelTree<T>,
    payload: DragPayload,
    target: int,
    in_header: bool,
    header_index: Option<usize>,
    s: int,
)
    requires
        drop_released(old, new, payload, target, DropZone::Center, None, in_header, header_index),
        drop_resolution(old.nodes@, payload, target, DropZone::Center, None, in_header) is Some,
        drag_permitted(old.nodes@, payload),
        drop_source(old.nodes@, payload) == Some(s),
        s != target,
        old.nodes@[s]->options.allow_tab_drag_out,
        old.nodes@[s]->tabs@.len() >= 2,
    ensures
        ({
            let tab = old.nodes@[s]->tabs@[payload.tab_pos as int];
            let before = old.nodes@[target]->tabs@;
            &&& new.next_pane_id == old.next_pane_id
            &&& new.nodes@[target] is Leaf
            &&& new.nodes@[target]->pane == old.nodes@[target]->pane
            &&& new.nodes@[target]->tabs@ == before.push(tab)
            &&& new.nodes@[target]->focused == before.len()
            &&& new.nodes@[s] is Leaf
            &&& new.nodes@[s]->tabs@ == old.nodes@[s]->tabs@.remove(payload.tab_pos as int)
        }),
{
    lemma_first_index(old.nodes@, leaf_of_pane(payload.src_pane));
    let pos = payload.tab_pos as int;
    let on = old.nodes@;
    let mid = choose|mid: Seq<Node<T>>| #[trigger] tab_merge(on, mid, s, pos, target) && new.nodes@ == collapse_result(mid, s);
    assert(tab_merge(on, mid, s, pos, target) && new.nodes@ == collapse_result(mid, s));
    let n = on[s];
    let m = choose|m: Node<T>|
        {
            let mm = on.update(s, m);
            &&& #[trigger] retabbed(n, m, n->tabs@.remove(pos), focus_after_remove(n->focused as int, n->tabs@.len() - 1))
            &&& mid == mm.update(target, mid[target])
            &&& retabbed(mm[target], mid[target], mm[target]->tabs@.push(n->tabs@[pos]), mm[target]->tabs@.len() as int)
        };
    assert(retabbed(n, m, n->tabs@.remove(pos), focus_after_remove(n->focused as int, n->tabs@.len() - 1)));
    assert(new.nodes@ == mid);
}

} // verus!
