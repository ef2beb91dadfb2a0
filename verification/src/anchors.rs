//! Root-edge anchors and pane-level mutations: ensuring a pane at an anchor,
//! removing a pane, and moving a pane to an anchor.
use vstd::prelude::*;

use crate::edits::retabbed;
use crate::model::{
    first_index, grown, layout_below, layout_fits, lemma_below_lower, lemma_first_index, lemma_fits_spread,
    lemma_place_within, lemma_subtree_below, node_at, parent_of, sibling_of, subtree_at,
};
use crate::queries::{first_leaf_pane, leaf_of_pane, leaf_with_anchor, with_options};
use crate::restructure::{collapse_result, kept_child, wrap_result};
use crate::tab::Tab;
use crate::tree::{
    ChildSide, Node, PaneAnchor, PaneBuilder, PaneId, PaneOptions, PanelTree, SplitDir, anchor_split_spec,
};

verus! {

broadcast use {PaneBuilder::lemma_built, PaneBuilder::lemma_built_with_options, PaneId::lemma_with_raw};

/// The leaf is an owner of `anchor` other than the pane `except`.
pub open spec fn other_anchor_owner<T: Clone>(anchor: PaneAnchor, except: Option<PaneId>) -> spec_fn(Node<T>) -> bool {
    |n: Node<T>| n is Leaf && n->options.anchor == Some(anchor) && Some(n->pane) != except
}

/// The panes, in array order, of the leaves that own `anchor` other than
/// `except`.
pub open spec fn anchor_owner_ids<T: Clone>(nodes: Seq<Node<T>>, anchor: PaneAnchor, except: Option<PaneId>) -> Seq<PaneId>
    decreases nodes.len(),
{
    if nodes.len() == 0 {
        Seq::empty()
    } else {
        let rest = anchor_owner_ids(nodes.drop_last(), anchor, except);
        if other_anchor_owner(anchor, except)(nodes.last()) {
            rest.push(nodes.last()->pane)
        } else {
            rest
        }
    }
}

/// The options with the anchor removed.
pub open spec fn without_anchor(o: PaneOptions) -> PaneOptions {
    PaneOptions { anchor: None, ..o }
}

/// The array after the first leaf of pane `id` loses its anchor.
pub open spec fn clear_anchor_of<T: Clone>(nodes: Seq<Node<T>>, id: PaneId) -> Seq<Node<T>> {
    match first_index(nodes, leaf_of_pane(id)) {
        Some(i) => nodes.update(i, with_options(nodes[i], without_anchor(nodes[i]->options))),
        None => nodes,
    }
}

/// The array after the first leaf of each pane of `ids`, in order, loses its
/// anchor.
pub open spec fn clear_anchors<T: Clone>(nodes: Seq<Node<T>>, ids: Seq<PaneId>) -> Seq<Node<T>>
    decreases ids.len(),
{
    if ids.len() == 0 {
        nodes
    } else {
        clear_anchor_of(clear_anchors(nodes, ids.drop_last()), ids.last())
    }
}

/// The options a pane gets when it takes `anchor`: the anchor is recorded and
/// every edge anchor keeps its pane in place when it empties.
pub open spec fn anchored_options(o: PaneOptions, anchor: PaneAnchor) -> PaneOptions {
    PaneOptions {
        anchor: Some(anchor),
        persist_when_empty: if anchor != PaneAnchor::Center { true } else { o.persist_when_empty },
        ..o
    }
}

/// The split used to place a pane at `anchor` at the root: the edge's own,
/// or a right-hand split for the center.
pub open spec fn root_split_for(anchor: PaneAnchor) -> (SplitDir, ChildSide) {
    match anchor_split_spec(anchor) {
        Some(ds) => ds,
        None => (SplitDir::Horizontal, ChildSide::Second),
    }
}

/// `after` is a leaf of the same pane as `before`, holding `tabs` with focus
/// `focused`.
pub open spec fn same_pane<T: Clone>(before: Node<T>, after: Node<T>, tabs: Seq<Tab<T>>, focused: int) -> bool {
    &&& before is Leaf
    &&& after is Leaf
    &&& after->pane == before->pane
    &&& after->tabs@ == tabs
    &&& after->focused == focused
}

/// The identifiers of the tabs, in order.
pub open spec fn tab_ids<T: Clone>(tabs: Seq<Tab<T>>) -> Seq<T> {
    tabs.map_values(|t: Tab<T>| t.id)
}

/// The effect of removing pane `id` (its first leaf): refused (`r` is `None`,
/// nothing changes) when there is no such leaf, when its layout is locked, or
/// when it is the non-persistent root; otherwise `r` lists the identifiers of
/// its tabs in order, the leaf empties, and a non-persistent leaf collapses.
pub open spec fn pane_removal<T: Clone>(old: Seq<Node<T>>, new: Seq<Node<T>>, id: PaneId, r: Option<Vec<T>>) -> bool {
    match first_index(old, leaf_of_pane(id)) {
        Some(i) => {
            let n = old[i];
            if n->options.lock_layout || (i == 0 && !n->options.persist_when_empty) {
                r is None && new == old
            } else {
                &&& r matches Some(ids) && ids@ == tab_ids(n->tabs@)
                &&& exists|m: Node<T>|
                    {
                        &&& #[trigger] retabbed(n, m, Seq::empty(), 0)
                        &&& new == if n->options.persist_when_empty {
                            old.update(i, m)
                        } else {
                            collapse_result(old.update(i, m), i)
                        }
                    }
            }
        },
        None => r is None && new == old,
    }
}

/// The effect of moving pane `id` (its first leaf) to `anchor`: refused when
/// there is no such leaf or its layout is locked; the root pane only takes
/// the anchor; any other pane leaves an emptied slot behind (collapsed like
/// an empty leaf) and comes back wrapped at the root on the anchor's side.
/// Every other owner of `anchor` loses it first.
pub open spec fn pane_move<T: Clone>(old: Seq<Node<T>>, new: Seq<Node<T>>, id: PaneId, anchor: PaneAnchor, r: Option<PaneId>) -> bool {
    match first_index(old, leaf_of_pane(id)) {
        Some(i) => {
            let n = old[i];
            let cleared = clear_anchors(old, anchor_owner_ids(old, anchor, Some(id)));
            if n->options.lock_layout {
                r is None && new == old
            } else if i == 0 {
                &&& r == Some(id)
                &&& new == cleared.update(
                    0,
                    with_options(cleared[0], PaneOptions { anchor: Some(anchor), ..cleared[0]->options }),
                )
            } else {
                &&& r == Some(id)
                &&& exists|moved: Node<T>, emptied: Node<T>|
                    {
                        &&& #[trigger] same_pane(cleared[i], moved, cleared[i]->tabs@, cleared[i]->focused as int)
                        &&& moved->options == anchored_options(cleared[i]->options, anchor)
                        &&& !moved->collapsed
                        &&& #[trigger] same_pane(cleared[i], emptied, Seq::empty(), 0)
                        &&& emptied->options == PaneOptions { persist_when_empty: false, ..cleared[i]->options }
                        &&& emptied->collapsed == cleared[i]->collapsed
                        &&& new == wrap_result(
                            collapse_result(cleared.update(i, emptied), i),
                            root_split_for(anchor).0,
                            moved,
                            root_split_for(anchor).1,
                        )
                    }
            }
        },
        None => r is None && new == old,
    }
}

/// The effect of ensuring a pane at `anchor` with `pane` as the template:
/// the first pane that already owns the anchor is returned and nothing
/// changes; otherwise the center anchor goes to a root leaf when there is
/// one, and any other case wraps the layout with a new pane (the next
/// identifier) holding the template's tabs and the anchored options on the
/// anchor's side.
pub open spec fn anchor_ensured<T: Clone>(old: PanelTree<T>, new: PanelTree<T>, anchor: PaneAnchor, pane: PaneBuilder<T>, r: PaneId) -> bool {
    let opts = anchored_options(pane.opts(), anchor);
    let root = node_at(old.nodes@, 0);
    match first_leaf_pane(old.nodes@, leaf_with_anchor(anchor)) {
        Some(existing) => r == existing && new.nodes@ == old.nodes@ && new.next_pane_id
            == old.next_pane_id,
        None => if anchor == PaneAnchor::Center && root is Leaf {
            &&& r == root->pane
            &&& new.nodes@ == old.nodes@.update(
                0,
                with_options(root, PaneOptions { anchor: Some(PaneAnchor::Center), ..root->options }),
            )
            &&& new.next_pane_id == old.next_pane_id
        } else {
            &&& r == PaneId::with_raw(old.next_pane_id)
            &&& new.next_pane_id == old.next_pane_id + 1
            &&& new.nodes@ == wrap_result(
                grown(old.nodes@, 0),
                root_split_for(anchor).0,
                pane.built_with_options(r, opts),
                root_split_for(anchor).1,
            )
        },
    }
}

/// The excepted pane is never among the anchor owners to clear.
proof fn lemma_owner_ids_exclude<T: Clone>(nodes: Seq<Node<T>>, anchor: PaneAnchor, except: PaneId)
    ensures
        !anchor_owner_ids(nodes, anchor, Some(except)).contains(except),
    decreases nodes.len(),
{
    if nodes.len() > 0 {
        lemma_owner_ids_exclude(nodes.drop_last(), anchor, except);
        let rest = anchor_owner_ids(nodes.drop_last(), anchor, Some(except));
        if other_anchor_owner(anchor, Some(except))(nodes.last()) {
            assert forall|k: int| 0 <= k < rest.push(nodes.last()->pane).len() implies rest.push(nodes.last()->pane)[k] != except by {
                if k < rest.len() {
                    assert(rest[k] == rest.push(nodes.last()->pane)[k]);
                }
            }
        }
    }
}

/// Clearing anchors keeps the array's shape and panes, and leaves untouched
/// every leaf whose pane is not among `ids`.
pub proof fn lemma_clear_anchors_keep<T: Clone>(nodes: Seq<Node<T>>, ids: Seq<PaneId>)
    ensures
        clear_anchors(nodes, ids).len() == nodes.len(),
        forall|j: int| 0 <= j < nodes.len() ==> (#[trigger] clear_anchors(nodes, ids)[j] is Leaf) == (nodes[j] is Leaf),
        forall|j: int| 0 <= j < nodes.len() && nodes[j] is Leaf ==> #[trigger] clear_anchors(nodes, ids)[j]->pane == nodes[j]->pane,
        forall|j: int| 0 <= j < nodes.len() && nodes[j] is Leaf && !ids.contains(nodes[j]->pane) ==> #[trigger] clear_anchors(nodes, ids)[j] == nodes[j],
        forall|j: int| 0 <= j < nodes.len() && !(nodes[j] is Leaf) ==> #[trigger] clear_anchors(nodes, ids)[j] == nodes[j],
    decreases ids.len(),
{
    if ids.len() > 0 {
        let prev = ids.drop_last();
        lemma_clear_anchors_keep(nodes, prev);
        let c = clear_anchors(nodes, prev);
        let id = ids.last();
        lemma_first_index(c, leaf_of_pane(id));
        assert forall|j: int| 0 <= j < nodes.len() && nodes[j] is Leaf && !ids.contains(nodes[j]->pane) implies #[trigger] clear_anchors(nodes, ids)[j] == nodes[j] by {
            assert(!prev.contains(nodes[j]->pane)) by {
                if prev.contains(nodes[j]->pane) {
                    let k = choose|k: int| 0 <= k < prev.len() && prev[k] == nodes[j]->pane;
                    assert(ids[k] == prev[k]);
                }
            }
            assert(ids[ids.len() - 1] == id);
        }
    }
}

impl<T: Clone + 'static> PanelTree<T> {
    /// Clear the anchor of every pane that owns `anchor`, except `except`.
    fn clear_anchor_owner(&mut self, anchor: PaneAnchor, except: Option<PaneId>)
        ensures
            final(self).nodes@ == clear_anchors(old(self).nodes@, anchor_owner_ids(old(self).nodes@, anchor, except)),
            final(self).next_pane_id == old(self).next_pane_id,
    {
        let ghost start = self.nodes@;
        let mut pane_ids: Vec<PaneId> = Vec::new();
        let mut i: usize = 0;
        while i < self.nodes.len()
            invariant
                self.nodes@ == start,
                i <= start.len(),
                pane_ids@ == anchor_owner_ids(start.take(i as int), anchor, except),
            decreases self.nodes.len() - i,
        {
            proof {
                assert(start.take(i + 1).drop_last() =~= start.take(i as int));
                assert(start.take(i + 1).last() == start[i as int]);
            }
            if let Node::Leaf { pane, options, .. } = &self.nodes[i] {
                let owns = match options.anchor {
                    Some(a) => a == anchor,
                    None => false,
                };
                let excepted = match except {
                    Some(e) => *pane == e,
                    None => false,
                };
                if owns && !excepted {
                    pane_ids.push(*pane);
                }
            }
            i = i + 1;
        }
        proof {
            assert(start.take(start.len() as int) =~= start);
        }
        let ghost ids = pane_ids@;
        let mut k: usize = 0;
        while k < pane_ids.len()
            invariant
                k <= ids.len(),
                pane_ids@ == ids,
                self.nodes@ == clear_anchors(start, ids.take(k as int)),
                self.next_pane_id == old(self).next_pane_id,
            decreases pane_ids.len() - k,
        {
            proof {
                assert(ids.take(k + 1).drop_last() =~= ids.take(k as int));
                assert(ids.take(k + 1).last() == ids[k as int]);
            }
            let id = pane_ids[k];
            if let Some(idx) = self.pane_index(id) {
                proof {
                    lemma_first_index(self.nodes@, leaf_of_pane(id));
                }
                let len = self.nodes.len();
                let current = match self.pane_options(idx) {
                    Some(o) => o,
                    None => unreached(),
                };
                let mut options = current;
                options.anchor = None;
                self.set_pane_options(idx, options);
                proof {
                    assert(grown(clear_anchors(start, ids.take(k as int)), idx as int) == clear_anchors(start, ids.take(k as int)));
                }
            }
            k = k + 1;
        }
        proof {
            assert(ids.take(ids.len() as int) =~= ids);
        }
    }

    /// Ensure a pane exists at the requested root-edge anchor.
    ///
    /// If a pane already owns the anchor, it is returned unchanged. Otherwise
    /// the current root is wrapped and the new pane is placed on the requested
    /// edge. Non-center anchors default to `persist_when_empty = true` so the
    /// anchored location remains available after its tabs are moved away. The
    /// center anchor is given to a root leaf when there is one.
    pub fn ensure_pane_at_anchor(&mut self, anchor: PaneAnchor, pane: PaneBuilder<T>) -> (r: PaneId)
        requires
            first_leaf_pane(old(self).nodes@, leaf_with_anchor(anchor)) is None ==> ((anchor != PaneAnchor::Center
                || !(node_at(old(self).nodes@, 0) is Leaf)) ==> old(self).can_wrap_root(root_split_for(anchor).1)),
        ensures
            anchor_ensured(*old(self), *final(self), anchor, pane, r),
    {
        if let Some(existing) = self.find_pane_with_anchor(anchor) {
            return existing;
        }
        let mut pane = pane;
        let mut options = pane.options_value();
        options.anchor = Some(anchor);
        if anchor != PaneAnchor::Center {
            options.persist_when_empty = true;
        }
        pane.set_options(options);
        match anchor.split_dir_and_side() {
            Some((dir, side)) => {
                proof {
                    assert(grown(old(self).nodes@, 0) == old(self).nodes@ || old(self).nodes@.len() == 0);
                    if old(self).nodes@.len() == 0 {
                        assert(grown(old(self).nodes@, 0) =~= seq![Node::<T>::Empty]);
                    }
                }
                let r = self.wrap_root_with_split_with(dir, pane, side);
                proof {
                    if old(self).nodes@.len() > 0 {
                        assert(grown(old(self).nodes@, 0) == old(self).nodes@);
                    } else {
                        assert(subtree_at(grown(old(self).nodes@, 0), 0) == subtree_at(old(self).nodes@, 0));
                    }
                }
                r
            },
            None => {
                let ghost before = self.nodes@;
                let root_is_leaf = match self.node(0) {
                    Node::Leaf { .. } => true,
                    _ => false,
                };
                if root_is_leaf {
                    match self.node_mut(0) {
                        Node::Leaf { pane, options, .. } => {
                            options.anchor = Some(PaneAnchor::Center);
                            *pane
                        },
                        _ => unreached(),
                    }
                } else {
                    self.ensure_capacity(0);
                    proof {
                        if before.len() > 0 {
                            assert(self.nodes@ == before);
                        } else {
                            assert(subtree_at(self.nodes@, 0) == subtree_at(before, 0));
                        }
                    }
                    self.wrap_root_with_split_with(SplitDir::Horizontal, pane, ChildSide::Second)
                }
            },
        }
    }

    /// Remove a pane from the layout, returning the tab identifiers it held.
    ///
    /// If the pane is persistent it is cleared and left in place as an empty
    /// placeholder; otherwise its emptied leaf is collapsed. `None` when
    /// [`PanelTree::can_remove_pane`] refuses.
    pub fn remove_pane(&mut self, pane_id: PaneId) -> (r: Option<Vec<T>>)
        ensures
            final(self).next_pane_id == old(self).next_pane_id,
            pane_removal(old(self).nodes@, final(self).nodes@, pane_id, r),
    {
        if !self.can_remove_pane(pane_id) {
            return None;
        }
        let leaf_idx = match self.pane_index(pane_id) {
            Some(i) => i,
            None => return None,
        };
        proof {
            lemma_first_index(self.nodes@, leaf_of_pane(pane_id));
        }
        let len = self.nodes.len();
        let ghost start = self.nodes@;
        let mut removed: Vec<T> = Vec::new();
        let persist_when_empty = match self.node_mut(leaf_idx) {
            Node::Leaf { tabs, focused, options, .. } => {
                let mut all: Vec<Tab<T>> = Vec::new();
                std::mem::swap(&mut all, tabs);
                let ghost source = all@;
                let total = all.len();
                let mut idx: usize = 0;
                while all.len() > 0
                    invariant
                        idx + all@.len() == source.len(),
                        source.len() <= usize::MAX,
                        all@ == source.skip(idx as int),
                        removed@ == tab_ids(source.take(idx as int)),
                    decreases all@.len(),
                {
                    let tab = all.remove(0);
                    removed.push(tab.id);
                    proof {
                        assert(tab_ids(source.take(idx + 1)) =~= tab_ids(source.take(idx as int)).push(tab.id));
                    }
                    idx = idx + 1;
                    proof {
                        assert(all@ =~= source.skip(idx as int));
                    }
                }
                proof {
                    assert(source.take(idx as int) =~= source);
                    assert(tabs@ =~= Seq::<Tab<T>>::empty());
                }
                *focused = 0;
                options.persist_when_empty
            },
            _ => unreached(),
        };
        let ghost mid = self.nodes@;
        proof {
            assert(mid == start.update(leaf_idx as int, mid[leaf_idx as int]));
        }
        if !persist_when_empty {
            self.collapse_empty_leaf(leaf_idx);
        }
        proof {
            assert(retabbed(start[leaf_idx as int], mid[leaf_idx as int], Seq::empty(), 0));
        }
        Some(removed)
    }

    /// Move an existing pane to a stable root-edge anchor, preserving its
    /// pane identifier and contents.
    ///
    /// Any other owner of the anchor loses it. A root pane only records the
    /// anchor. Any other pane is taken out of its slot (which collapses) and
    /// placed on the anchor's edge of a new root split (the right-hand side
    /// for the center), expanded, recording the anchor; edge anchors make it
    /// persistent. `None` when the pane does not exist or its layout is
    /// locked.
    pub fn move_pane_to_anchor(&mut self, pane_id: PaneId, anchor: PaneAnchor) -> (r: Option<PaneId>)
        requires
            3 * old(self).nodes@.len() <= usize::MAX,
        ensures
            final(self).next_pane_id == old(self).next_pane_id,
            pane_move(old(self).nodes@, final(self).nodes@, pane_id, anchor, r),
    {
        let leaf_idx = match self.pane_index(pane_id) {
            Some(i) => i,
            None => return None,
        };
        proof {
            lemma_first_index(self.nodes@, leaf_of_pane(pane_id));
        }
        let locked = match self.node(leaf_idx) {
            Node::Leaf { options, .. } => options.lock_layout,
            _ => false,
        };
        if locked {
            return None;
        }
        self.clear_anchor_owner(anchor, Some(pane_id));
        let ghost cleared = self.nodes@;
        proof {
            lemma_owner_ids_exclude(old(self).nodes@, anchor, pane_id);
            lemma_clear_anchors_keep(old(self).nodes@, anchor_owner_ids(old(self).nodes@, anchor, Some(pane_id)));
        }
        if leaf_idx == 0 {
            match self.node_mut(0) {
                Node::Leaf { options, .. } => {
                    options.anchor = Some(anchor);
                },
                _ => unreached(),
            }
            return Some(pane_id);
        }
        let len = self.nodes.len();
        let relocated = match self.node_mut(leaf_idx) {
            Node::Leaf { pane, tabs, focused, options, .. } => {
                let mut moved_tabs: Vec<Tab<T>> = Vec::new();
                std::mem::swap(&mut moved_tabs, tabs);
                let mut moved_options = *options;
                moved_options.anchor = Some(anchor);
                if anchor != PaneAnchor::Center {
                    moved_options.persist_when_empty = true;
                }
                let leaf = Node::Leaf {
                    pane: *pane,
                    tabs: moved_tabs,
                    focused: *focused,
                    options: moved_options,
                    collapsed: false,
                };
                options.persist_when_empty = false;
                *focused = 0;
                proof {
                    assert(tabs@ =~= Seq::<Tab<T>>::empty());
                }
                leaf
            },
            _ => unreached(),
        };
        let ghost emptied_nodes = self.nodes@;
        proof {
            assert(emptied_nodes == cleared.update(leaf_idx as int, emptied_nodes[leaf_idx as int]));
        }
        self.collapse_empty_leaf(leaf_idx);
        proof {
            let s = sibling_of(leaf_idx as int);
            let p = parent_of(leaf_idx as int);
            lemma_subtree_below(emptied_nodes, s);
            lemma_below_lower(subtree_at(emptied_nodes, s), s, p, emptied_nodes.len() as int);
            crate::model::lemma_blank_frame(emptied_nodes, s, emptied_nodes.len() as int);
            lemma_place_within(
                crate::model::blank_subtree(emptied_nodes, s, emptied_nodes.len() as int),
                p,
                subtree_at(emptied_nodes, s),
            );
            assert(self.nodes@.len() == emptied_nodes.len());
            lemma_fits_spread(self.nodes@, 0, kept_child(root_split_for(anchor).1));
        }
        let (dir, side) = match anchor.split_dir_and_side() {
            Some(ds) => ds,
            None => (SplitDir::Horizontal, ChildSide::Second),
        };
        let ghost moved = relocated;
        let r = self.wrap_root_with_existing_leaf(dir, relocated, side);
        proof {
            assert(same_pane(cleared[leaf_idx as int], moved, cleared[leaf_idx as int]->tabs@, cleared[leaf_idx as int]->focused as int));
            assert(same_pane(cleared[leaf_idx as int], emptied_nodes[leaf_idx as int], Seq::empty(), 0));
        }
        Some(r)
    }
}

} // verus!
