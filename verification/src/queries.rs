//! Construction, index arithmetic, node access and read-only queries of a
//! [`PanelTree`], and the leaf-flag updates.
use vstd::prelude::*;
use vstd::std_specs::cmp::PartialEqSpec;

use crate::model::{
    Layout, first_index, grown, layout_fits, left_of, lemma_first_index, lemma_first_index_is,
    lemma_first_index_none, node_at, reaches, right_of, subtree_at,
};
use crate::relocate::{child_index, ensure_index};
use crate::tab::Tab;
use crate::tree::{HeaderVisibility, Node, PaneAnchor, PaneBuilder, PaneId, PaneOptions, PaneRole, PanelTree};

verus! {

broadcast use {PaneBuilder::lemma_built, PaneId::lemma_with_raw};

// ── Node predicates and updates ─────────────────────────────────────────────

/// The node is a leaf of pane `id`.
pub open spec fn leaf_of_pane<T: Clone>(id: PaneId) -> spec_fn(Node<T>) -> bool {
    |n: Node<T>| n is Leaf && n->pane == id
}

/// The node is a leaf whose options name `anchor`.
pub open spec fn leaf_with_anchor<T: Clone>(anchor: PaneAnchor) -> spec_fn(Node<T>) -> bool {
    |n: Node<T>| n is Leaf && n->options.anchor == Some(anchor)
}

/// The node is a leaf whose options name `role`.
pub open spec fn leaf_with_role<T: Clone>(role: PaneRole) -> spec_fn(Node<T>) -> bool {
    |n: Node<T>| n is Leaf && n->options.role == Some(role)
}

/// The tab's identifier compares equal to `id`.
pub open spec fn tab_matches<T: Clone + PartialEq>(id: T) -> spec_fn(Tab<T>) -> bool {
    |t: Tab<T>| t.id.eq_spec(&id)
}

/// The node is a leaf that holds a tab whose identifier compares equal to `id`.
pub open spec fn leaf_holding<T: Clone + PartialEq>(id: T) -> spec_fn(Node<T>) -> bool {
    |n: Node<T>| n is Leaf && first_index(n->tabs@, tab_matches(id)) is Some
}

/// The first leaf (in array order) that holds a tab matching `id`, and the
/// first matching position in it.
pub open spec fn find_tab_spec<T: Clone + PartialEq>(nodes: Seq<Node<T>>, id: T) -> Option<(int, int)> {
    match first_index(nodes, leaf_holding(id)) {
        Some(leaf) => Some((leaf, first_index(nodes[leaf]->tabs@, tab_matches(id))->0)),
        None => None,
    }
}

/// The first position in the slot at `leaf` holding a tab that matches `id`,
/// where that slot holds a leaf.
pub open spec fn match_in_leaf<T: Clone + PartialEq>(nodes: Seq<Node<T>>, leaf: int, id: T) -> Option<int> {
    let n = node_at(nodes, leaf);
    if n is Leaf {
        first_index(n->tabs@, tab_matches(id))
    } else {
        None
    }
}

/// `new` is `old` with the focus of the leaf at `leaf` moved to one of its
/// tabs, and nothing else changed.
pub open spec fn refocused<T: Clone>(old: Seq<Node<T>>, new: Seq<Node<T>>, leaf: int) -> bool {
    &&& 0 <= leaf < old.len()
    &&& old[leaf] is Leaf
    &&& exists|p: usize| p < old[leaf]->tabs@.len() && new == old.update(leaf, #[trigger] with_focused(old[leaf], p))
}

/// The pane of the first leaf whose options satisfy `p`.
pub open spec fn first_leaf_pane<T: Clone>(nodes: Seq<Node<T>>, p: spec_fn(Node<T>) -> bool) -> Option<PaneId> {
    match first_index(nodes, p) {
        Some(i) => Some(nodes[i]->pane),
        None => None,
    }
}

/// Whether the header of a leaf is shown: collapsed panes and persistent empty
/// panes always show it; otherwise the visibility option decides.
pub open spec fn header_visible_spec<T: Clone>(n: Node<T>) -> bool {
    match n {
        Node::Leaf { tabs, options, collapsed, .. } => {
            if collapsed {
                true
            } else if tabs@.len() == 0 && options.persist_when_empty {
                true
            } else {
                match options.header_visibility {
                    HeaderVisibility::Always => true,
                    HeaderVisibility::WhenMultipleTabs => tabs@.len() > 1,
                    HeaderVisibility::Hidden => false,
                }
            }
        },
        _ => false,
    }
}

/// The leaf with its options replaced; other nodes unchanged.
pub open spec fn with_options<T: Clone>(n: Node<T>, o: PaneOptions) -> Node<T> {
    match n {
        Node::Leaf { pane, tabs, focused, collapsed, .. } => Node::Leaf { pane, tabs, focused, options: o, collapsed },
        _ => n,
    }
}

/// The leaf with its collapsed flag replaced; other nodes unchanged.
pub open spec fn with_collapsed<T: Clone>(n: Node<T>, c: bool) -> Node<T> {
    match n {
        Node::Leaf { pane, tabs, focused, options, .. } => Node::Leaf { pane, tabs, focused, options, collapsed: c },
        _ => n,
    }
}

/// The leaf with its focus replaced; other nodes unchanged.
pub open spec fn with_focused<T: Clone>(n: Node<T>, f: usize) -> Node<T> {
    match n {
        Node::Leaf { pane, tabs, options, collapsed, .. } => Node::Leaf { pane, tabs, focused: f, options, collapsed },
        _ => n,
    }
}

/// Whether some pane of layout `l` is layout-locked or not resizable.
pub open spec fn layout_resize_locked<T: Clone>(l: Layout<T>) -> bool
    decreases l,
{
    match l {
        Layout::Blank => false,
        Layout::Part { node, first, second } => match node {
            Node::Split { .. } => layout_resize_locked(*first) || layout_resize_locked(*second),
            Node::Leaf { options, .. } => options.lock_layout || !options.allow_resize,
            Node::Empty => false,
        },
    }
}

/// The indices of the first `n` slots that hold a leaf, in increasing order.
pub open spec fn leaf_positions<T: Clone>(nodes: Seq<Node<T>>, n: int) -> Seq<usize>
    decreases n,
{
    if n <= 0 {
        Seq::empty()
    } else {
        let rest = leaf_positions(nodes, n - 1);
        if nodes[n - 1] is Leaf {
            rest.push((n - 1) as usize)
        } else {
            rest
        }
    }
}

/// The pane and the focused tab position whose content is rendered in the
/// slot at `leaf`: none when the slot holds no leaf, the leaf is collapsed or
/// its focus is out of range.
pub open spec fn content_target_spec<T: Clone>(nodes: Seq<Node<T>>, leaf: int) -> Option<(PaneId, usize)> {
    let n = node_at(nodes, leaf);
    if n is Leaf && !n->collapsed && n->focused < n->tabs@.len() {
        Some((n->pane, n->focused))
    } else {
        None
    }
}

/// What `set_collapsed` makes of a node: a leaf whose layout is locked, or
/// that may not collapse while collapsing is asked for, is refused.
pub open spec fn collapse_allowed<T: Clone>(n: Node<T>, collapsed: bool) -> bool {
    n is Leaf && !n->options.lock_layout && !(collapsed && !n->options.allow_collapse)
}

impl<T: Clone + 'static> PanelTree<T> {
    /// The layout the whole tree encodes.
    pub open spec fn layout(self) -> Layout<T> {
        subtree_at(self.nodes@, 0)
    }

    // ── Construction ────────────────────────────────────────────────────────

    /// Create a tree containing a single pane from a builder; the pane gets
    /// identifier 1.
    pub fn from_pane(root: PaneBuilder<T>) -> (r: Self)
        ensures
            r.nodes@ == seq![root.built(PaneId::with_raw(1))],
            r.next_pane_id == 2,
    {
        let mut nodes = Vec::new();
        nodes.push(root.build(PaneId::from_raw(1)));
        PanelTree { nodes, next_pane_id: 2 }
    }

    /// Create a tree containing a single pane with the given tabs, the first
    /// one focused, with default options.
    pub fn new(tabs: Vec<Tab<T>>) -> (r: Self)
        requires
            tabs@.len() > 0,
        ensures
            r.nodes@ == seq![
                Node::Leaf {
                    pane: PaneId::with_raw(1),
                    tabs,
                    focused: 0,
                    options: crate::tree::default_options(),
                    collapsed: false,
                },
            ],
            r.next_pane_id == 2,
    {
        let mut nodes = Vec::new();
        nodes.push(
            Node::Leaf {
                pane: PaneId::from_raw(1),
                tabs,
                focused: 0,
                options: PaneOptions::default(),
                collapsed: false,
            },
        );
        PanelTree { nodes, next_pane_id: 2 }
    }

    /// Hand out the next pane identifier.
    pub(crate) fn alloc_pane_id(&mut self) -> (r: PaneId)
        requires
            old(self).next_pane_id < u64::MAX,
        ensures
            r == PaneId::with_raw(old(self).next_pane_id),
            final(self).next_pane_id == old(self).next_pane_id + 1,
            final(self).nodes == old(self).nodes,
    {
        let pane = PaneId::from_raw(self.next_pane_id);
        self.next_pane_id = self.next_pane_id + 1;
        pane
    }

    // ── Index helpers ────────────────────────────────────────────────────────

    pub fn left_child(i: usize) -> (r: usize)
        requires
            left_of(i as int) <= usize::MAX,
        ensures
            r == left_of(i as int),
    {
        2 * i + 1
    }

    pub fn right_child(i: usize) -> (r: usize)
        requires
            right_of(i as int) <= usize::MAX,
        ensures
            r == right_of(i as int),
    {
        2 * i + 2
    }

    pub fn parent(i: usize) -> (r: Option<usize>)
        ensures
            r == (if i == 0 { None } else { Some(((i - 1) / 2) as usize) }),
    {
        if i == 0 {
            None
        } else {
            Some((i - 1) / 2)
        }
    }

    pub fn sibling(i: usize) -> (r: Option<usize>)
        requires
            i < usize::MAX,
        ensures
            r == (if i == 0 { None } else if i % 2 == 1 { Some((i + 1) as usize) } else { Some((i - 1) as usize) }),
    {
        if i == 0 {
            return None;
        }
        let parent = (i - 1) / 2;
        let left = 2 * parent + 1;
        if i == left {
            Some(2 * parent + 2)
        } else {
            Some(left)
        }
    }

    // ── Node access ─────────────────────────────────────────────────────────

    /// The node at `idx`, `Empty` past the end of the array.
    pub fn node(&self, idx: usize) -> (r: &Node<T>)
        ensures
            *r == node_at(self.nodes@, idx as int),
    {
        if idx < self.nodes.len() {
            &self.nodes[idx]
        } else {
            &Node::Empty
        }
    }

    /// Whether the slot at `idx` is part of the layout: it and every slot on
    /// the way up to the root hold a node, those above it splits.
    pub fn reaches_from_root(&self, idx: usize) -> (r: bool)
        ensures
            r == reaches(self.nodes@, 0, idx as int),
        decreases idx,
    {
        if idx >= self.nodes.len() {
            return false;
        }
        if matches!(self.nodes[idx], Node::Empty) {
            return false;
        }
        if idx == 0 {
            return true;
        }
        let p = (idx - 1) / 2;
        matches!(self.nodes[p], Node::Split { .. }) && self.reaches_from_root(p)
    }

    /// The indices of all leaf nodes, in increasing order.
    pub fn leaf_indices(&self) -> (r: Vec<usize>)
        ensures
            r@ == leaf_positions(self.nodes@, self.nodes@.len() as int),
    {
        let mut r: Vec<usize> = Vec::new();
        let mut i: usize = 0;
        while i < self.nodes.len()
            invariant
                i <= self.nodes@.len(),
                r@ == leaf_positions(self.nodes@, i as int),
            decreases self.nodes@.len() - i,
        {
            if matches!(self.nodes[i], Node::Leaf { .. }) {
                r.push(i);
            }
            i = i + 1;
        }
        r
    }

    /// Mutable access to the node at `idx`, growing the array with `Empty`
    /// slots when `idx` does not exist yet.
    pub fn node_mut(&mut self, idx: usize) -> (r: &mut Node<T>)
        requires
            idx < usize::MAX,
        ensures
            *r == node_at(grown(old(self).nodes@, idx as int), idx as int),
            final(self).nodes@ == grown(old(self).nodes@, idx as int).update(idx as int, *final(r)),
            final(self).next_pane_id == old(self).next_pane_id,
    {
        ensure_index(&mut self.nodes, idx);
        &mut self.nodes[idx]
    }

    /// Grow the array with `Empty` slots so that index `idx` exists.
    pub(crate) fn ensure_capacity(&mut self, idx: usize)
        requires
            idx < usize::MAX,
        ensures
            final(self).nodes@ == grown(old(self).nodes@, idx as int),
            final(self).next_pane_id == old(self).next_pane_id,
    {
        ensure_index(&mut self.nodes, idx);
    }

    /// Return the stable pane identifier for a leaf index.
    pub fn pane_id_at(&self, leaf_idx: usize) -> (r: Option<PaneId>)
        ensures
            r == (if node_at(self.nodes@, leaf_idx as int) is Leaf {
                Some(node_at(self.nodes@, leaf_idx as int)->pane)
            } else {
                None
            }),
    {
        match self.node(leaf_idx) {
            Node::Leaf { pane, .. } => Some(*pane),
            _ => None,
        }
    }

    /// Return the current (first) leaf index for a pane identifier.
    pub fn pane_index(&self, pane_id: PaneId) -> (r: Option<usize>)
        ensures
            r matches Some(i) ==> first_index(self.nodes@, leaf_of_pane(pane_id)) == Some(i as int),
            r is None ==> first_index(self.nodes@, leaf_of_pane(pane_id)) is None,
    {
        let mut i: usize = 0;
        while i < self.nodes.len()
            invariant
                i <= self.nodes@.len(),
                forall|j: int| 0 <= j < i ==> !(#[trigger] leaf_of_pane(pane_id)(self.nodes@[j])),
            decreases self.nodes.len() - i,
        {
            if let Node::Leaf { pane, .. } = &self.nodes[i] {
                if *pane == pane_id {
                    proof {
                        lemma_first_index_is(self.nodes@, leaf_of_pane(pane_id), i as int);
                    }
                    return Some(i);
                }
            }
            i = i + 1;
        }
        proof {
            lemma_first_index_none(self.nodes@, leaf_of_pane(pane_id));
        }
        None
    }

    /// Return the pane currently assigned to the given anchor, if any.
    pub fn find_pane_with_anchor(&self, anchor: PaneAnchor) -> (r: Option<PaneId>)
        ensures
            r == first_leaf_pane(self.nodes@, leaf_with_anchor(anchor)),
    {
        let mut i: usize = 0;
        while i < self.nodes.len()
            invariant
                i <= self.nodes@.len(),
                forall|j: int| 0 <= j < i ==> !(#[trigger] leaf_with_anchor(anchor)(self.nodes@[j])),
            decreases self.nodes.len() - i,
        {
            if let Node::Leaf { pane, options, .. } = &self.nodes[i] {
                if let Some(a) = options.anchor {
                    if a == anchor {
                        proof {
                            lemma_first_index_is(self.nodes@, leaf_with_anchor(anchor), i as int);
                        }
                        return Some(*pane);
                    }
                }
            }
            i = i + 1;
        }
        proof {
            lemma_first_index_none(self.nodes@, leaf_with_anchor(anchor));
        }
        None
    }

    /// Return the pane currently assigned to the given role, if any.
    pub fn find_pane_with_role(&self, role: PaneRole) -> (r: Option<PaneId>)
        ensures
            r == first_leaf_pane(self.nodes@, leaf_with_role(role)),
    {
        let mut i: usize = 0;
        while i < self.nodes.len()
            invariant
                i <= self.nodes@.len(),
                forall|j: int| 0 <= j < i ==> !(#[trigger] leaf_with_role(role)(self.nodes@[j])),
            decreases self.nodes.len() - i,
        {
            if let Node::Leaf { pane, options, .. } = &self.nodes[i] {
                if let Some(r) = options.role {
                    if r == role {
                        proof {
                            lemma_first_index_is(self.nodes@, leaf_with_role(role), i as int);
                        }
                        return Some(*pane);
                    }
                }
            }
            i = i + 1;
        }
        proof {
            lemma_first_index_none(self.nodes@, leaf_with_role(role));
        }
        None
    }

    /// Return the current pane options for a leaf.
    pub fn pane_options(&self, leaf_idx: usize) -> (r: Option<PaneOptions>)
        ensures
            r == (if node_at(self.nodes@, leaf_idx as int) is Leaf {
                Some(node_at(self.nodes@, leaf_idx as int)->options)
            } else {
                None
            }),
    {
        match self.node(leaf_idx) {
            Node::Leaf { options, .. } => Some(*options),
            _ => None,
        }
    }

    /// Replace the pane options of a leaf; `false` (and no option change)
    /// when the index holds no leaf. The array grows to reach `leaf_idx`.
    pub fn set_pane_options(&mut self, leaf_idx: usize, options: PaneOptions) -> (r: bool)
        requires
            leaf_idx < usize::MAX,
        ensures
            r == node_at(old(self).nodes@, leaf_idx as int) is Leaf,
            final(self).nodes@ == grown(old(self).nodes@, leaf_idx as int).update(
                leaf_idx as int,
                with_options(node_at(old(self).nodes@, leaf_idx as int), options),
            ),
            final(self).next_pane_id == old(self).next_pane_id,
    {
        match self.node_mut(leaf_idx) {
            Node::Leaf { options: current, .. } => {
                *current = options;
                true
            },
            _ => false,
        }
    }

    /// Return whether the given pane may currently be removed from the layout:
    /// it must exist, not be layout-locked, and not be a non-persistent root.
    pub fn can_remove_pane(&self, pane_id: PaneId) -> (r: bool)
        ensures
            r == (match first_index(self.nodes@, leaf_of_pane(pane_id)) {
                Some(i) => !self.nodes@[i]->options.lock_layout && !(i == 0 && !self.nodes@[i]->options.persist_when_empty),
                None => false,
            }),
    {
        let Some(leaf_idx) = self.pane_index(pane_id) else {
            return false;
        };
        proof {
            lemma_first_index(self.nodes@, leaf_of_pane(pane_id));
        }
        match self.node(leaf_idx) {
            Node::Leaf { options, .. } => {
                if options.lock_layout {
                    false
                } else if leaf_idx == 0 && !options.persist_when_empty {
                    false
                } else {
                    true
                }
            },
            _ => false,
        }
    }

    /// Return whether the header should be visible for the given leaf.
    pub fn header_visible(&self, leaf_idx: usize) -> (r: bool)
        ensures
            r == header_visible_spec(node_at(self.nodes@, leaf_idx as int)),
    {
        match self.node(leaf_idx) {
            Node::Leaf { tabs, options, collapsed, .. } => {
                if *collapsed {
                    true
                } else if tabs.len() == 0 && options.persist_when_empty {
                    true
                } else {
                    match options.header_visibility {
                        HeaderVisibility::Always => true,
                        HeaderVisibility::WhenMultipleTabs => tabs.len() > 1,
                        HeaderVisibility::Hidden => false,
                    }
                }
            },
            _ => false,
        }
    }

    /// The pane and focused tab position whose content the leaf at
    /// `leaf_idx` renders (see [`content_target_spec`]).
    pub fn content_target(&self, leaf_idx: usize) -> (r: Option<(PaneId, usize)>)
        ensures
            r == content_target_spec(self.nodes@, leaf_idx as int),
    {
        match self.node(leaf_idx) {
            Node::Leaf { pane, tabs, focused, collapsed, .. } => {
                if !*collapsed && *focused < tabs.len() {
                    Some((*pane, *focused))
                } else {
                    None
                }
            },
            _ => None,
        }
    }

    /// Return whether a leaf is currently collapsed.
    pub fn is_collapsed(&self, leaf_idx: usize) -> (r: bool)
        ensures
            r == (node_at(self.nodes@, leaf_idx as int) is Leaf && node_at(self.nodes@, leaf_idx as int)->collapsed),
    {
        match self.node(leaf_idx) {
            Node::Leaf { collapsed, .. } => *collapsed,
            _ => false,
        }
    }

    /// Update the collapsed state for a leaf. Refused (`false`, nothing
    /// changes but the array's growth to `leaf_idx`) when the index holds no
    /// leaf, the pane's layout is locked, or collapsing is asked of a pane that
    /// may not collapse.
    pub fn set_collapsed(&mut self, leaf_idx: usize, collapsed: bool) -> (r: bool)
        requires
            leaf_idx < usize::MAX,
        ensures
            r == collapse_allowed(node_at(old(self).nodes@, leaf_idx as int), collapsed),
            final(self).nodes@ == grown(old(self).nodes@, leaf_idx as int).update(
                leaf_idx as int,
                if r {
                    with_collapsed(node_at(old(self).nodes@, leaf_idx as int), collapsed)
                } else {
                    node_at(old(self).nodes@, leaf_idx as int)
                },
            ),
            final(self).next_pane_id == old(self).next_pane_id,
    {
        match self.node_mut(leaf_idx) {
            Node::Leaf { collapsed: current, options, .. } => {
                if options.lock_layout {
                    return false;
                }
                if collapsed && !options.allow_collapse {
                    return false;
                }
                *current = collapsed;
                true
            },
            _ => false,
        }
    }

    /// Toggle the collapsed state for a leaf, under the rules of
    /// [`PanelTree::set_collapsed`].
    pub fn toggle_collapsed(&mut self, leaf_idx: usize) -> (r: bool)
        requires
            leaf_idx < usize::MAX,
        ensures
            ({
                let n = node_at(old(self).nodes@, leaf_idx as int);
                let want = !(n is Leaf && n->collapsed);
                &&& r == collapse_allowed(n, want)
                &&& final(self).nodes@ == grown(old(self).nodes@, leaf_idx as int).update(
                    leaf_idx as int,
                    if r { with_collapsed(n, want) } else { n },
                )
            }),
            final(self).next_pane_id == old(self).next_pane_id,
    {
        let collapsed = self.is_collapsed(leaf_idx);
        self.set_collapsed(leaf_idx, !collapsed)
    }

    /// Whether the subtree rooted at `idx` holds a pane that is layout-locked
    /// or marked non-resizable.
    pub fn subtree_resize_locked(&self, idx: usize) -> (r: bool)
        ensures
            r == layout_resize_locked(subtree_at(self.nodes@, idx as int)),
        decreases (if idx < self.nodes@.len() { self.nodes@.len() - idx } else { 0 }),
    {
        if idx >= self.nodes.len() {
            return false;
        }
        match &self.nodes[idx] {
            Node::Empty => {
                assert(subtree_at(self.nodes@, idx as int) is Blank);
                false
            },
            Node::Split { .. } => {
                let first = match child_index(idx, false) {
                    Some(c) => self.subtree_resize_locked(c),
                    None => {
                        assert(subtree_at(self.nodes@, left_of(idx as int)) is Blank);
                        false
                    },
                };
                let second = match child_index(idx, true) {
                    Some(c) => self.subtree_resize_locked(c),
                    None => {
                        assert(subtree_at(self.nodes@, right_of(idx as int)) is Blank);
                        false
                    },
                };
                let ghost l = subtree_at(self.nodes@, idx as int);
                assert(l == Layout::Part {
                    node: self.nodes@[idx as int],
                    first: Box::new(subtree_at(self.nodes@, left_of(idx as int))),
                    second: Box::new(subtree_at(self.nodes@, right_of(idx as int))),
                });
                assert(layout_resize_locked(l) == (layout_resize_locked(subtree_at(self.nodes@, left_of(idx as int))) || layout_resize_locked(subtree_at(self.nodes@, right_of(idx as int)))));
                first || second
            },
            Node::Leaf { options, .. } => {
                assert(subtree_at(self.nodes@, idx as int) == Layout::Part {
                    node: self.nodes@[idx as int],
                    first: Box::new(Layout::<T>::Blank),
                    second: Box::new(Layout::<T>::Blank),
                });
                options.lock_layout || !options.allow_resize
            },
        }
    }

    /// Return whether the resize handle for a split node is locked.
    ///
    /// The ownership model is subtree-based: a split handle is locked if
    /// either child subtree contains a pane that is layout-locked or marked
    /// non-resizable.
    pub fn split_resize_locked(&self, split_idx: usize) -> (r: bool)
        ensures
            r == (node_at(self.nodes@, split_idx as int) is Split && layout_resize_locked(
                subtree_at(self.nodes@, split_idx as int),
            )),
    {
        match self.node(split_idx) {
            Node::Split { .. } => self.subtree_resize_locked(split_idx),
            _ => false,
        }
    }
}

/// Position of the first tab whose identifier compares equal to `id`.
pub fn position_of<T: Clone + PartialEq>(tabs: &Vec<Tab<T>>, id: &T) -> (r: Option<usize>)
    ensures
        r matches Some(k) ==> k < tabs@.len(),
        T::obeys_eq_spec() ==> (r matches Some(k) ==> first_index(tabs@, tab_matches(*id)) == Some(k as int)),
        T::obeys_eq_spec() ==> (r is None ==> first_index(tabs@, tab_matches(*id)) is None),
{
    let mut k: usize = 0;
    while k < tabs.len()
        invariant
            k <= tabs@.len(),
            T::obeys_eq_spec() ==> forall|j: int| 0 <= j < k ==> !(#[trigger] tab_matches(*id)(tabs@[j])),
        decreases tabs.len() - k,
    {
        if tabs[k].id == *id {
            proof {
                if T::obeys_eq_spec() {
                    lemma_first_index_is(tabs@, tab_matches(*id), k as int);
                }
            }
            return Some(k);
        }
        k = k + 1;
    }
    proof {
        if T::obeys_eq_spec() {
            lemma_first_index_none(tabs@, tab_matches(*id));
        }
    }
    None
}

impl<T: Clone + PartialEq + 'static> PanelTree<T> {
    /// Find the first leaf (in array order) and the first tab position in it
    /// whose tab identifier equals `id`.
    pub fn find_tab(&self, id: &T) -> (r: Option<(usize, usize)>)
        ensures
            r matches Some((l, p)) ==> l < self.nodes@.len() && self.nodes@[l as int] is Leaf && p
                < self.nodes@[l as int]->tabs@.len(),
            T::obeys_eq_spec() ==> (r matches Some((l, p)) ==> find_tab_spec(self.nodes@, *id) == Some(
                (l as int, p as int),
            )),
            T::obeys_eq_spec() ==> (r is None ==> find_tab_spec(self.nodes@, *id) is None),
    {
        let mut i: usize = 0;
        while i < self.nodes.len()
            invariant
                i <= self.nodes@.len(),
                T::obeys_eq_spec() ==> forall|j: int| 0 <= j < i ==> !(#[trigger] leaf_holding(*id)(self.nodes@[j])),
            decreases self.nodes.len() - i,
        {
            if let Node::Leaf { tabs, .. } = &self.nodes[i] {
                if let Some(k) = position_of(tabs, id) {
                    proof {
                        if T::obeys_eq_spec() {
                            lemma_first_index_is(self.nodes@, leaf_holding(*id), i as int);
                        }
                    }
                    return Some((i, k));
                }
            }
            i = i + 1;
        }
        proof {
            if T::obeys_eq_spec() {
                lemma_first_index_none(self.nodes@, leaf_holding(*id));
            }
        }
        None
    }

    /// Return the leaf index that contains the given tab identifier.
    pub fn find_leaf_containing(&self, id: &T) -> (r: Option<usize>)
        ensures
            r matches Some(l) ==> l < self.nodes@.len() && self.nodes@[l as int] is Leaf,
            T::obeys_eq_spec() ==> (r matches Some(l) ==> first_index(self.nodes@, leaf_holding(*id)) == Some(l as int)),
            T::obeys_eq_spec() ==> (r is None ==> first_index(self.nodes@, leaf_holding(*id)) is None),
    {
        match self.find_tab(id) {
            Some((leaf_idx, _)) => Some(leaf_idx),
            None => None,
        }
    }

    /// Return the stable pane identifier that contains the given tab.
    pub fn find_pane_containing(&self, id: &T) -> (r: Option<PaneId>)
        ensures
            r matches Some(pane) ==> exists|l: int|
                0 <= l < self.nodes@.len() && #[trigger] self.nodes@[l] is Leaf && self.nodes@[l]->pane == pane,
            T::obeys_eq_spec() ==> r == first_leaf_pane(self.nodes@, leaf_holding(*id)),
    {
        let leaf_idx = self.find_leaf_containing(id)?;
        let r = self.pane_id_at(leaf_idx);
        proof {
            assert(self.nodes@[leaf_idx as int] is Leaf);
        }
        r
    }

    /// Focus the tab with the given identifier if it exists: the first leaf
    /// holding it focuses its first matching tab.
    pub fn focus_tab(&mut self, id: &T) -> (r: bool)
        ensures
            final(self).next_pane_id == old(self).next_pane_id,
            !r ==> final(self).nodes@ == old(self).nodes@,
            r ==> exists|l: int| #[trigger] refocused(old(self).nodes@, final(self).nodes@, l),
            T::obeys_eq_spec() ==> r == find_tab_spec(old(self).nodes@, *id) is Some,
            T::obeys_eq_spec() ==> (match find_tab_spec(old(self).nodes@, *id) {
                Some((l, p)) => final(self).nodes@ == old(self).nodes@.update(
                    l,
                    with_focused(old(self).nodes@[l], p as usize),
                ),
                None => final(self).nodes@ == old(self).nodes@,
            }),
    {
        let Some((leaf_idx, tab_pos)) = self.find_tab(id) else {
            return false;
        };
        let len = self.nodes.len();
        assert(leaf_idx < len);
        let r = match self.node_mut(leaf_idx) {
            Node::Leaf { focused, .. } => {
                *focused = tab_pos;
                true
            },
            _ => false,
        };
        proof {
            assert(self.nodes@ == old(self).nodes@.update(
                leaf_idx as int,
                with_focused(old(self).nodes@[leaf_idx as int], tab_pos),
            ));
            assert(refocused(old(self).nodes@, self.nodes@, leaf_idx as int));
        }
        r
    }

    /// The first position in the leaf at `leaf_idx` of a tab whose identifier
    /// equals `id`; `None` when the slot holds no leaf or no such tab.
    pub fn position_in_leaf(&self, leaf_idx: usize, id: &T) -> (r: Option<usize>)
        ensures
            r matches Some(k) ==> node_at(self.nodes@, leaf_idx as int) is Leaf && k < node_at(
                self.nodes@,
                leaf_idx as int,
            )->tabs@.len(),
            T::obeys_eq_spec() ==> r == match match_in_leaf(self.nodes@, leaf_idx as int, *id) {
                Some(k) => Some(k as usize),
                None => None::<usize>,
            },
    {
        match self.node(leaf_idx) {
            Node::Leaf { tabs, .. } => {
                let r = position_of(tabs, id);
                proof {
                    if T::obeys_eq_spec() {
                        lemma_first_index(tabs@, tab_matches(*id));
                    }
                }
                r
            },
            _ => None,
        }
    }

    /// Focus the first tab of the leaf at `leaf_idx` whose identifier equals
    /// `id`, if that leaf holds one; other leaves are not looked at.
    pub fn focus_tab_in_leaf(&mut self, leaf_idx: usize, id: &T) -> (r: bool)
        ensures
            final(self).next_pane_id == old(self).next_pane_id,
            !r ==> final(self).nodes@ == old(self).nodes@,
            r ==> refocused(old(self).nodes@, final(self).nodes@, leaf_idx as int),
            T::obeys_eq_spec() ==> r == match_in_leaf(old(self).nodes@, leaf_idx as int, *id) is Some,
            T::obeys_eq_spec() ==> (match match_in_leaf(old(self).nodes@, leaf_idx as int, *id) {
                Some(p) => final(self).nodes@ == old(self).nodes@.update(
                    leaf_idx as int,
                    with_focused(old(self).nodes@[leaf_idx as int], p as usize),
                ),
                None => final(self).nodes@ == old(self).nodes@,
            }),
    {
        let Some(tab_pos) = self.position_in_leaf(leaf_idx, id) else {
            return false;
        };
        let len = self.nodes.len();
        assert(leaf_idx < len);
        let r = match self.node_mut(leaf_idx) {
            Node::Leaf { focused, .. } => {
                *focused = tab_pos;
                true
            },
            _ => false,
        };
        proof {
            assert(self.nodes@ == old(self).nodes@.update(
                leaf_idx as int,
                with_focused(old(self).nodes@[leaf_idx as int], tab_pos),
            ));
        }
        r
    }
}

} // verus!
