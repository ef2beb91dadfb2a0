//! Pane handles: shared and mutable access to one leaf of a [`PanelTree`]
//! by its stable pane identifier, and the single-tab split shortcuts.
use vstd::prelude::*;

use crate::edits::{tab_inserted, tab_removal, tabs_closing};
use crate::model::{first_index, grown, layout_fits, left_of, lemma_first_index, node_at, right_of};
use crate::queries::{collapse_allowed, leaf_of_pane, with_collapsed, with_focused, with_options};
use crate::restructure::{collapse_result, fresh_child, split_result, wrap_result};
use crate::tab::Tab;
use crate::tree::{ChildSide, Node, PaneBuilder, PaneId, PaneOptions, PanelTree, SplitDir, default_options};

verus! {

broadcast use {PaneBuilder::lemma_built, PaneId::lemma_with_raw};

/// The slot that receives the new pane when the leaf at `leaf` splits.
pub open spec fn fresh_slot(leaf: int, side: ChildSide) -> int {
    match side {
        ChildSide::First => left_of(leaf),
        ChildSide::Second => right_of(leaf),
    }
}

/// A fresh single-tab pane: pane `pane`, tab `tab` focused, default
/// options, expanded.
pub open spec fn single_tab_leaf<T: Clone>(n: Node<T>, pane: PaneId, tab: Tab<T>) -> bool {
    &&& n is Leaf
    &&& n->pane == pane
    &&& n->tabs@ == seq![tab]
    &&& n->focused == 0
    &&& n->options == default_options()
    &&& !n->collapsed
}

/// The leaf with its tabs replaced; other nodes unchanged.
pub open spec fn with_tabs<T: Clone>(n: Node<T>, tabs: Vec<Tab<T>>) -> Node<T> {
    match n {
        Node::Leaf { pane, focused, options, collapsed, .. } => Node::Leaf { pane, tabs, focused, options, collapsed },
        _ => n,
    }
}

impl<T: Clone + 'static> PanelTree<T> {
    /// Convert the leaf at `leaf_idx` into a `Split` node, placing the
    /// existing leaf content on one side and a new single-tab leaf on the
    /// other.
    pub fn split_leaf(&mut self, leaf_idx: usize, dir: SplitDir, new_tab: Tab<T>, side: ChildSide) -> (r: PaneId)
        requires
            right_of(leaf_idx as int) < usize::MAX,
            node_at(old(self).nodes@, leaf_idx as int) is Leaf,
            old(self).next_pane_id < u64::MAX,
        ensures
            r == PaneId::with_raw(old(self).next_pane_id),
            final(self).next_pane_id == old(self).next_pane_id + 1,
            single_tab_leaf(final(self).nodes@[fresh_slot(leaf_idx as int, side)], r, new_tab),
            final(self).nodes@ == split_result(
                old(self).nodes@,
                leaf_idx as int,
                dir,
                final(self).nodes@[fresh_slot(leaf_idx as int, side)],
                side,
            ),
    {
        let b = PaneBuilder::new(new_tab);
        let r = self.split_leaf_with(leaf_idx, dir, b, side);
        proof {
            assert(self.nodes@[fresh_slot(leaf_idx as int, side)] == b.built(r));
        }
        r
    }

    /// Wrap the current root in a new split, placing a new single-tab pane
    /// on `side` and the existing layout subtree on the other.
    pub fn wrap_root_with_split(&mut self, dir: SplitDir, new_tab: Tab<T>, side: ChildSide) -> (r: PaneId)
        requires
            old(self).can_wrap_root(side),
        ensures
            r == PaneId::with_raw(old(self).next_pane_id),
            final(self).next_pane_id == old(self).next_pane_id + 1,
            single_tab_leaf(final(self).nodes@[fresh_child(side)], r, new_tab),
            final(self).nodes@ == wrap_result(old(self).nodes@, dir, final(self).nodes@[fresh_child(side)], side),
    {
        let b = PaneBuilder::new(new_tab);
        let r = self.wrap_root_with_split_with(dir, b, side);
        proof {
            crate::model::lemma_place_len(
                grown(seq![Node::<T>::Split { dir, ratio: crate::tree::HALF_RATIO }], fresh_child(side)).update(
                    fresh_child(side),
                    b.built(r),
                ),
                crate::restructure::kept_child(side),
                crate::model::subtree_at(old(self).nodes@, 0),
            );
            crate::model::lemma_place_frame(
                grown(seq![Node::<T>::Split { dir, ratio: crate::tree::HALF_RATIO }], fresh_child(side)).update(
                    fresh_child(side),
                    b.built(r),
                ),
                crate::restructure::kept_child(side),
                crate::model::subtree_at(old(self).nodes@, 0),
            );
            assert(!crate::model::in_subtree(0, 1));
            assert(!crate::model::in_subtree(fresh_child(side), crate::restructure::kept_child(side)));
        }
        r
    }

    /// Borrow a pane by stable pane identifier (the first leaf of that pane).
    pub fn pane(&self, pane_id: PaneId) -> (r: Option<Pane<'_, T>>)
        ensures
            match first_index(self.nodes@, leaf_of_pane(pane_id)) {
                Some(i) => r matches Some(p) && p.leaf() == i && p.tree_view() == *self,
                None => r is None,
            },
    {
        let leaf_idx = self.pane_index(pane_id)?;
        proof {
            lemma_first_index(self.nodes@, leaf_of_pane(pane_id));
        }
        Some(Pane { tree: self, leaf_idx })
    }

    /// Mutably borrow a pane by stable pane identifier (the first leaf of
    /// that pane).
    pub fn pane_mut(&mut self, pane_id: PaneId) -> (r: Option<PaneMut<'_, T>>)
        ensures
            match first_index(old(self).nodes@, leaf_of_pane(pane_id)) {
                Some(i) => r matches Some(p) && p.leaf() == i && p.tree_view() == *old(self),
                None => r is None,
            },
            r matches Some(p) ==> *final(self) == *final(p.tree_ref()),
            r is None ==> *final(self) == *old(self),
    {
        let leaf_idx = match self.pane_index(pane_id) {
            Some(i) => i,
            None => return None,
        };
        proof {
            lemma_first_index(self.nodes@, leaf_of_pane(pane_id));
        }
        Some(PaneMut { tree: self, leaf_idx })
    }
}

/// Shared read-only access to a pane.
pub struct Pane<'a, T: Clone + 'static> {
    tree: &'a PanelTree<T>,
    leaf_idx: usize,
}

impl<'a, T: Clone + 'static> Pane<'a, T> {
    /// A pane handle points at a leaf of its tree.
    #[verifier::type_invariant]
    pub closed spec fn points_at_leaf(self) -> bool {
        self.leaf_idx < self.tree.nodes@.len() && self.tree.nodes@[self.leaf_idx as int] is Leaf
    }

    pub closed spec fn tree_view(self) -> PanelTree<T> {
        *self.tree
    }

    pub closed spec fn leaf(self) -> usize {
        self.leaf_idx
    }

    /// The leaf this handle reads.
    pub open spec fn node_view(self) -> Node<T> {
        node_at(self.tree_view().nodes@, self.leaf() as int)
    }

    pub fn id(&self) -> (r: PaneId)
        ensures
            r == self.node_view()->pane,
    {
        proof {
            use_type_invariant(self);
        }
        match &self.tree.nodes[self.leaf_idx] {
            Node::Leaf { pane, .. } => *pane,
            _ => unreached(),
        }
    }

    pub fn index(&self) -> (r: usize)
        ensures
            r == self.leaf(),
    {
        self.leaf_idx
    }

    pub fn options(&self) -> (r: PaneOptions)
        ensures
            r == self.node_view()->options,
    {
        proof {
            use_type_invariant(self);
        }
        match &self.tree.nodes[self.leaf_idx] {
            Node::Leaf { options, .. } => *options,
            _ => unreached(),
        }
    }

    pub fn is_collapsed(&self) -> (r: bool)
        ensures
            r == self.node_view()->collapsed,
    {
        proof {
            use_type_invariant(self);
        }
        self.tree.is_collapsed(self.leaf_idx)
    }

    pub fn tabs(&self) -> (r: &[Tab<T>])
        ensures
            r@ == self.node_view()->tabs@,
    {
        proof {
            use_type_invariant(self);
        }
        match &self.tree.nodes[self.leaf_idx] {
            Node::Leaf { tabs, .. } => tabs.as_slice(),
            _ => unreached(),
        }
    }

    pub fn focused_index(&self) -> (r: usize)
        ensures
            r == self.node_view()->focused,
    {
        proof {
            use_type_invariant(self);
        }
        match &self.tree.nodes[self.leaf_idx] {
            Node::Leaf { focused, .. } => *focused,
            _ => unreached(),
        }
    }

    /// The focused tab, `None` when the focus is past the end of the tabs.
    pub fn focused_tab(&self) -> (r: Option<&Tab<T>>)
        ensures
            ({
                let n = self.node_view();
                if n->focused < n->tabs@.len() {
                    r == Some(&n->tabs@[n->focused as int])
                } else {
                    r is None
                }
            }),
    {
        proof {
            use_type_invariant(self);
        }
        match &self.tree.nodes[self.leaf_idx] {
            Node::Leaf { tabs, focused, .. } => {
                if *focused < tabs.len() {
                    Some(&tabs[*focused])
                } else {
                    None
                }
            },
            _ => unreached(),
        }
    }
}

/// Mutable access to a pane.
pub struct PaneMut<'a, T: Clone + 'static> {
    tree: &'a mut PanelTree<T>,
    leaf_idx: usize,
}

impl<'a, T: Clone + 'static> PaneMut<'a, T> {
    pub closed spec fn tree_view(self) -> PanelTree<T> {
        *self.tree
    }

    /// The borrow of the tree this handle writes through; the tree holds
    /// `*final(self.tree_ref())` once the handle is done with.
    pub closed spec fn tree_ref(self) -> &'a mut PanelTree<T> {
        self.tree
    }

    /// Once a handle is no longer written through, the tree it borrows holds
    /// what the handle shows.
    pub proof fn lemma_written_back(self)
        requires
            has_resolved(self),
        ensures
            self.tree_view() == *final(self.tree_ref()),
    {
    }

    pub closed spec fn leaf(self) -> usize {
        self.leaf_idx
    }

    /// The node this handle points at.
    pub open spec fn node_view(self) -> Node<T> {
        node_at(self.tree_view().nodes@, self.leaf() as int)
    }

    /// The handle still points at a leaf (operations that close or split the
    /// pane can end that).
    pub open spec fn at_leaf(self) -> bool {
        self.node_view() is Leaf
    }

    pub fn id(&self) -> (r: PaneId)
        requires
            self.at_leaf(),
        ensures
            r == self.node_view()->pane,
    {
        match self.tree.node(self.leaf_idx) {
            Node::Leaf { pane, .. } => *pane,
            _ => unreached(),
        }
    }

    pub fn index(&self) -> (r: usize)
        ensures
            r == self.leaf(),
    {
        self.leaf_idx
    }

    pub fn options(&self) -> (r: PaneOptions)
        requires
            self.at_leaf(),
        ensures
            r == self.node_view()->options,
    {
        match self.tree.node(self.leaf_idx) {
            Node::Leaf { options, .. } => *options,
            _ => unreached(),
        }
    }

    pub fn set_options(&mut self, options: PaneOptions)
        requires
            old(self).at_leaf(),
        ensures
            final(self).leaf() == old(self).leaf(),
            *final(final(self).tree_ref()) == *final(old(self).tree_ref()),
            final(self).tree_view().next_pane_id == old(self).tree_view().next_pane_id,
            final(self).tree_view().nodes@ == old(self).tree_view().nodes@.update(
                old(self).leaf() as int,
                with_options(old(self).node_view(), options),
            ),
    {
        let len = self.tree.nodes.len();
        let _changed = self.tree.set_pane_options(self.leaf_idx, options);
    }

    pub fn is_collapsed(&self) -> (r: bool)
        ensures
            r == (self.at_leaf() && self.node_view()->collapsed),
    {
        self.tree.is_collapsed(self.leaf_idx)
    }

    /// See [`PanelTree::set_collapsed`].
    pub fn set_collapsed(&mut self, collapsed: bool) -> (r: bool)
        requires
            old(self).leaf() < usize::MAX,
        ensures
            final(self).leaf() == old(self).leaf(),
            *final(final(self).tree_ref()) == *final(old(self).tree_ref()),
            final(self).tree_view().next_pane_id == old(self).tree_view().next_pane_id,
            r == collapse_allowed(old(self).node_view(), collapsed),
            final(self).tree_view().nodes@ == grown(old(self).tree_view().nodes@, old(self).leaf() as int).update(
                old(self).leaf() as int,
                if r { with_collapsed(old(self).node_view(), collapsed) } else { old(self).node_view() },
            ),
    {
        self.tree.set_collapsed(self.leaf_idx, collapsed)
    }

    /// See [`PanelTree::toggle_collapsed`].
    pub fn toggle_collapsed(&mut self) -> (r: bool)
        requires
            old(self).leaf() < usize::MAX,
        ensures
            final(self).leaf() == old(self).leaf(),
            *final(final(self).tree_ref()) == *final(old(self).tree_ref()),
            final(self).tree_view().next_pane_id == old(self).tree_view().next_pane_id,
            ({
                let n = old(self).node_view();
                let want = !(n is Leaf && n->collapsed);
                &&& r == collapse_allowed(n, want)
                &&& final(self).tree_view().nodes@ == grown(old(self).tree_view().nodes@, old(self).leaf() as int).update(
                    old(self).leaf() as int,
                    if r { with_collapsed(n, want) } else { n },
                )
            }),
    {
        self.tree.toggle_collapsed(self.leaf_idx)
    }

    pub fn tabs(&self) -> (r: &[Tab<T>])
        requires
            self.at_leaf(),
        ensures
            r@ == self.node_view()->tabs@,
    {
        match self.tree.node(self.leaf_idx) {
            Node::Leaf { tabs, .. } => tabs.as_slice(),
            _ => unreached(),
        }
    }

    /// Mutable access to the pane's tab list: what is written through it
    /// becomes the pane's tabs in the tree.
    pub fn tabs_mut(&mut self) -> (r: &mut Vec<Tab<T>>)
        requires
            old(self).at_leaf(),
        ensures
            *r == old(self).node_view()->tabs,
            final(self).leaf() == old(self).leaf(),
            *final(final(self).tree_ref()) == *final(old(self).tree_ref()),
            final(self).tree_view().next_pane_id == old(self).tree_view().next_pane_id,
            final(self).tree_view().nodes@ == old(self).tree_view().nodes@.update(
                old(self).leaf() as int,
                with_tabs(old(self).node_view(), *final(r)),
            ),
    {
        let len = self.tree.nodes.len();
        match self.tree.node_mut(self.leaf_idx) {
            Node::Leaf { tabs, .. } => tabs,
            _ => unreached(),
        }
    }

    pub fn focused_index(&self) -> (r: usize)
        requires
            self.at_leaf(),
        ensures
            r == self.node_view()->focused,
    {
        match self.tree.node(self.leaf_idx) {
            Node::Leaf { focused, .. } => *focused,
            _ => unreached(),
        }
    }

    /// The focused tab, `None` when the focus is past the end of the tabs.
    pub fn focused_tab(&self) -> (r: Option<&Tab<T>>)
        requires
            self.at_leaf(),
        ensures
            ({
                let n = self.node_view();
                if n->focused < n->tabs@.len() {
                    r == Some(&n->tabs@[n->focused as int])
                } else {
                    r is None
                }
            }),
    {
        match self.tree.node(self.leaf_idx) {
            Node::Leaf { tabs, focused, .. } => {
                if *focused < tabs.len() {
                    Some(&tabs[*focused])
                } else {
                    None
                }
            },
            _ => unreached(),
        }
    }

    /// Focus the tab at `focused`; `false` (no change) when out of range.
    pub fn set_focused_index(&mut self, focused: usize) -> (r: bool)
        requires
            old(self).at_leaf(),
        ensures
            final(self).leaf() == old(self).leaf(),
            *final(final(self).tree_ref()) == *final(old(self).tree_ref()),
            final(self).tree_view().next_pane_id == old(self).tree_view().next_pane_id,
            r == (focused < old(self).node_view()->tabs@.len()),
            r ==> final(self).tree_view().nodes@ == old(self).tree_view().nodes@.update(
                old(self).leaf() as int,
                with_focused(old(self).node_view(), focused),
            ),
            !r ==> final(self).tree_view().nodes@ == old(self).tree_view().nodes@,
    {
        let len = self.tree.nodes.len();
        match self.tree.node_mut(self.leaf_idx) {
            Node::Leaf { tabs, focused: current, .. } => {
                if focused < tabs.len() {
                    *current = focused;
                    true
                } else {
                    false
                }
            },
            _ => unreached(),
        }
    }

    /// Append a tab to the pane and focus it.
    pub fn push_tab(&mut self, tab: Tab<T>)
        requires
            old(self).at_leaf(),
        ensures
            final(self).leaf() == old(self).leaf(),
            *final(final(self).tree_ref()) == *final(old(self).tree_ref()),
            final(self).tree_view().next_pane_id == old(self).tree_view().next_pane_id,
            tab_inserted(old(self).tree_view().nodes@, final(self).tree_view().nodes@, old(self).leaf() as int, tab),
    {
        self.tree.insert_tab_into_leaf(self.leaf_idx, tab);
    }

    /// See [`PanelTree::close_all_tabs_in_leaf`].
    pub fn close_all_tabs(&mut self) -> (r: Vec<T>)
        requires
            old(self).leaf() < usize::MAX,
        ensures
            final(self).leaf() == old(self).leaf(),
            *final(final(self).tree_ref()) == *final(old(self).tree_ref()),
            final(self).tree_view().next_pane_id == old(self).tree_view().next_pane_id,
            tabs_closing(old(self).tree_view().nodes@, final(self).tree_view().nodes@, old(self).leaf() as int, None, r@),
    {
        self.tree.close_all_tabs_in_leaf(self.leaf_idx)
    }

    /// See [`PanelTree::close_other_tabs_in_leaf`].
    pub fn close_other_tabs(&mut self, keep_pos: usize) -> (r: Vec<T>)
        requires
            old(self).leaf() < usize::MAX,
        ensures
            final(self).leaf() == old(self).leaf(),
            *final(final(self).tree_ref()) == *final(old(self).tree_ref()),
            final(self).tree_view().next_pane_id == old(self).tree_view().next_pane_id,
            tabs_closing(old(self).tree_view().nodes@, final(self).tree_view().nodes@, old(self).leaf() as int, Some(keep_pos), r@),
    {
        self.tree.close_other_tabs_in_leaf(self.leaf_idx, keep_pos)
    }

    /// See [`PanelTree::remove_tab_at`].
    pub fn remove_tab_at(&mut self, tab_pos: usize) -> (r: Option<Tab<T>>)
        requires
            old(self).leaf() < usize::MAX,
        ensures
            final(self).leaf() == old(self).leaf(),
            *final(final(self).tree_ref()) == *final(old(self).tree_ref()),
            final(self).tree_view().next_pane_id == old(self).tree_view().next_pane_id,
            tab_removal(old(self).tree_view().nodes@, final(self).tree_view().nodes@, old(self).leaf() as int, tab_pos as int, r),
    {
        self.tree.remove_tab_at(self.leaf_idx, tab_pos)
    }

    /// See [`PanelTree::split_leaf`].
    pub fn split(&mut self, dir: SplitDir, new_tab: Tab<T>, side: ChildSide) -> (r: PaneId)
        requires
            right_of(old(self).leaf() as int) < usize::MAX,
            old(self).at_leaf(),
            old(self).tree_view().next_pane_id < u64::MAX,
        ensures
            final(self).leaf() == old(self).leaf(),
            *final(final(self).tree_ref()) == *final(old(self).tree_ref()),
            r == PaneId::with_raw(old(self).tree_view().next_pane_id),
            final(self).tree_view().next_pane_id == old(self).tree_view().next_pane_id + 1,
            single_tab_leaf(final(self).tree_view().nodes@[fresh_slot(old(self).leaf() as int, side)], r, new_tab),
            final(self).tree_view().nodes@ == split_result(
                old(self).tree_view().nodes@,
                old(self).leaf() as int,
                dir,
                final(self).tree_view().nodes@[fresh_slot(old(self).leaf() as int, side)],
                side,
            ),
    {
        self.tree.split_leaf(self.leaf_idx, dir, new_tab, side)
    }

    /// See [`PanelTree::split_leaf_with`].
    pub fn split_with(&mut self, dir: SplitDir, new_pane: PaneBuilder<T>, side: ChildSide) -> (r: PaneId)
        requires
            right_of(old(self).leaf() as int) < usize::MAX,
            old(self).at_leaf(),
            old(self).tree_view().next_pane_id < u64::MAX,
        ensures
            final(self).leaf() == old(self).leaf(),
            *final(final(self).tree_ref()) == *final(old(self).tree_ref()),
            r == PaneId::with_raw(old(self).tree_view().next_pane_id),
            final(self).tree_view().next_pane_id == old(self).tree_view().next_pane_id + 1,
            final(self).tree_view().nodes@ == split_result(
                old(self).tree_view().nodes@,
                old(self).leaf() as int,
                dir,
                new_pane.built(r),
                side,
            ),
    {
        self.tree.split_leaf_with(self.leaf_idx, dir, new_pane, side)
    }
}

} // verus!
