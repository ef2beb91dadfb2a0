//! Structural mutations of a [`PanelTree`]: splitting a leaf, wrapping the
//! root, and collapsing an empty leaf into its sibling.
use vstd::prelude::*;

use crate::model::{
    Layout, blank_subtree, grown, layout_fits, left_of, lemma_fits_lower, lemma_place_len,
    lemma_subtree_fits, node_at, parent_of, place_layout, right_of, sibling_of, subtree_at,
};
use crate::relocate::{put_subtree, take_node, take_subtree};
use crate::tree::{ChildSide, HALF_RATIO, Node, PaneBuilder, PaneId, PanelTree, SplitDir};

verus! {

broadcast use {PaneBuilder::lemma_built, PaneId::lemma_with_raw};

/// The array after the empty leaf at `leaf` is collapsed: unless the node is
/// a non-empty or persistent leaf, or the root, the subtree of its sibling
/// moves up into the parent's slot (the parent and the leaf are overwritten
/// or blanked).
pub open spec fn collapse_result<T: Clone>(nodes: Seq<Node<T>>, leaf: int) -> Seq<Node<T>> {
    let n = node_at(nodes, leaf);
    if !(n is Leaf) || n->tabs@.len() > 0 || n->options.persist_when_empty || leaf == 0 {
        nodes
    } else {
        let p = parent_of(leaf);
        let s = sibling_of(leaf);
        let moved = place_layout(blank_subtree(nodes, s, nodes.len() as int), p, subtree_at(nodes, s));
        if node_at(moved, p) is Split {
            moved
        } else {
            moved.update(leaf, Node::Empty)
        }
    }
}

/// The leaf `n` as it continues on one side of a split: same pane, tabs,
/// focus and options, expanded.
pub open spec fn expanded<T: Clone>(n: Node<T>) -> Node<T> {
    match n {
        Node::Leaf { pane, tabs, focused, options, .. } => Node::Leaf { pane, tabs, focused, options, collapsed: false },
        _ => n,
    }
}

/// The array after the leaf at `leaf` becomes a half/half split in direction
/// `dir` with the existing pane (expanded) on one side and `fresh` on `side`.
pub open spec fn split_result<T: Clone>(
    nodes: Seq<Node<T>>,
    leaf: int,
    dir: SplitDir,
    fresh: Node<T>,
    side: ChildSide,
) -> Seq<Node<T>> {
    let existing = expanded(nodes[leaf]);
    let first = match side {
        ChildSide::First => fresh,
        ChildSide::Second => existing,
    };
    let second = match side {
        ChildSide::First => existing,
        ChildSide::Second => fresh,
    };
    grown(nodes, right_of(leaf)).update(leaf, Node::Split { dir, ratio: HALF_RATIO }).update(
        left_of(leaf),
        first,
    ).update(right_of(leaf), second)
}

/// The root child that receives the new pane when wrapping the root.
pub open spec fn fresh_child(side: ChildSide) -> int {
    match side {
        ChildSide::First => 1,
        ChildSide::Second => 2,
    }
}

/// The root child that receives the existing layout when wrapping the root.
pub open spec fn kept_child(side: ChildSide) -> int {
    match side {
        ChildSide::First => 2,
        ChildSide::Second => 1,
    }
}

/// The array after the whole layout is wrapped in a half/half split in
/// direction `dir`, with `fresh` on `side` and the old layout on the other.
pub open spec fn wrap_result<T: Clone>(
    nodes: Seq<Node<T>>,
    dir: SplitDir,
    fresh: Node<T>,
    side: ChildSide,
) -> Seq<Node<T>> {
    let base = grown(seq![Node::<T>::Split { dir, ratio: HALF_RATIO }], fresh_child(side)).update(
        fresh_child(side),
        fresh,
    );
    place_layout(base, kept_child(side), subtree_at(nodes, 0))
}

impl<T: Clone + 'static> PanelTree<T> {
    /// The whole layout can move under a new root on the side opposite to
    /// `side`, and a pane identifier is still available.
    pub open spec fn can_wrap_root(self, side: ChildSide) -> bool {
        &&& self.next_pane_id < u64::MAX
        &&& layout_fits(self.layout(), kept_child(side))
    }

    /// Collapse an empty leaf node, promoting its sibling subtree one level up.
    ///
    /// If the leaf is not empty, is persistent, or is the root, this is a
    /// no-op.
    pub fn collapse_empty_leaf(&mut self, leaf_idx: usize)
        requires
            leaf_idx < old(self).nodes@.len(),
        ensures
            final(self).nodes@ == collapse_result(old(self).nodes@, leaf_idx as int),
            final(self).next_pane_id == old(self).next_pane_id,
    {
        let (is_empty, persist_when_empty) = match &self.nodes[leaf_idx] {
            Node::Leaf { tabs, options, .. } => (tabs.len() == 0, options.persist_when_empty),
            _ => return,
        };
        if !is_empty || persist_when_empty || leaf_idx == 0 {
            return;
        }
        let ghost start = self.nodes@;
        let len = self.nodes.len();
        let parent_idx = (leaf_idx - 1) / 2;
        let sibling_idx = if leaf_idx % 2 == 1 {
            leaf_idx + 1
        } else {
            leaf_idx - 1
        };
        let sub = take_subtree(&mut self.nodes, sibling_idx);
        proof {
            lemma_subtree_fits(start, sibling_idx as int);
            lemma_fits_lower(sub, sibling_idx as int, parent_idx as int);
            lemma_place_len(self.nodes@, parent_idx as int, sub);
            crate::model::lemma_blank_frame(start, sibling_idx as int, start.len() as int);
        }
        put_subtree(&mut self.nodes, parent_idx, sub);
        let parent_is_split = match &self.nodes[parent_idx] {
            Node::Split { .. } => true,
            _ => false,
        };
        if !parent_is_split && leaf_idx < self.nodes.len() {
            self.nodes.set(leaf_idx, Node::Empty);
        }
    }

    /// Convert the leaf at `leaf_idx` into a `Split` node, placing the
    /// existing leaf content on one side and a caller-configured pane on the
    /// other. Returns the new pane's identifier.
    pub fn split_leaf_with(&mut self, leaf_idx: usize, dir: SplitDir, new_pane: PaneBuilder<T>, side: ChildSide) -> (r: PaneId)
        requires
            right_of(leaf_idx as int) < usize::MAX,
            node_at(old(self).nodes@, leaf_idx as int) is Leaf,
            old(self).next_pane_id < u64::MAX,
        ensures
            r == PaneId::with_raw(old(self).next_pane_id),
            final(self).next_pane_id == old(self).next_pane_id + 1,
            final(self).nodes@ == split_result(old(self).nodes@, leaf_idx as int, dir, new_pane.built(r), side),
    {
        let left = 2 * leaf_idx + 1;
        let right = 2 * leaf_idx + 2;
        self.ensure_capacity(right);
        let existing = take_node(&mut self.nodes, leaf_idx);
        let existing_leaf = match existing {
            Node::Leaf { pane, tabs, focused, options, .. } => Node::Leaf { pane, tabs, focused, options, collapsed: false },
            _ => unreached(),
        };
        let new_pane_id = self.alloc_pane_id();
        let new_leaf = new_pane.build(new_pane_id);
        let (first_leaf, second_leaf) = match side {
            ChildSide::First => (new_leaf, existing_leaf),
            ChildSide::Second => (existing_leaf, new_leaf),
        };
        self.nodes.set(leaf_idx, Node::Split { dir, ratio: HALF_RATIO });
        self.nodes.set(left, first_leaf);
        self.nodes.set(right, second_leaf);
        proof {
            assert(self.nodes@ =~= split_result(old(self).nodes@, leaf_idx as int, dir, new_pane.built(new_pane_id), side));
        }
        new_pane_id
    }

    /// Wrap the whole layout in a new split with `new_leaf` on `side`.
    fn wrap_root_with_leaf(&mut self, dir: SplitDir, new_leaf: Node<T>, side: ChildSide)
        requires
            layout_fits(old(self).layout(), kept_child(side)),
        ensures
            final(self).nodes@ == wrap_result(old(self).nodes@, dir, new_leaf, side),
            final(self).next_pane_id == old(self).next_pane_id,
    {
        let mut old_nodes: Vec<Node<T>> = Vec::new();
        std::mem::swap(&mut old_nodes, &mut self.nodes);
        let (new_child, existing_child): (usize, usize) = match side {
            ChildSide::First => (1, 2),
            ChildSide::Second => (2, 1),
        };
        self.nodes.push(Node::Split { dir, ratio: HALF_RATIO });
        self.ensure_capacity(new_child);
        self.nodes.set(new_child, new_leaf);
        let sub = take_subtree(&mut old_nodes, 0);
        put_subtree(&mut self.nodes, existing_child, sub);
        proof {
            assert(seq![Node::<T>::Split { dir, ratio: HALF_RATIO }] =~= Seq::<Node<T>>::empty().push(
                Node::<T>::Split { dir, ratio: HALF_RATIO },
            ));
        }
    }

    /// Wrap the current root in a new split, placing a caller-configured pane
    /// on one side and the existing layout subtree on the other. Returns the
    /// new pane's identifier.
    pub fn wrap_root_with_split_with(&mut self, dir: SplitDir, new_pane: PaneBuilder<T>, side: ChildSide) -> (r: PaneId)
        requires
            old(self).can_wrap_root(side),
        ensures
            r == PaneId::with_raw(old(self).next_pane_id),
            final(self).next_pane_id == old(self).next_pane_id + 1,
            final(self).nodes@ == wrap_result(old(self).nodes@, dir, new_pane.built(r), side),
    {
        let new_pane_id = self.alloc_pane_id();
        let leaf = new_pane.build(new_pane_id);
        self.wrap_root_with_leaf(dir, leaf, side);
        new_pane_id
    }

    /// Wrap the current root in a new split, placing an existing leaf on one
    /// side; returns that leaf's pane identifier.
    pub(crate) fn wrap_root_with_existing_leaf(&mut self, dir: SplitDir, new_leaf: Node<T>, side: ChildSide) -> (r: PaneId)
        requires
            new_leaf is Leaf,
            layout_fits(old(self).layout(), kept_child(side)),
        ensures
            r == new_leaf->pane,
            final(self).next_pane_id == old(self).next_pane_id,
            final(self).nodes@ == wrap_result(old(self).nodes@, dir, new_leaf, side),
    {
        let pane_id = match &new_leaf {
            Node::Leaf { pane, .. } => *pane,
            _ => unreached(),
        };
        self.wrap_root_with_leaf(dir, new_leaf, side);
        pane_id
    }
}

} // verus!
