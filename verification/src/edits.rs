//! Tab-level edits of a [`PanelTree`]: inserting, removing, closing,
//! reordering and moving tabs between leaves.
use vstd::prelude::*;
use vstd::std_specs::cmp::PartialEqSpec;

use crate::model::{grown, lemma_grown, node_at};
use crate::queries::find_tab_spec;
use crate::restructure::collapse_result;
use crate::tab::Tab;
use crate::tree::{Node, PanelTree};

verus! {

/// `after` is the leaf `before` with tab list `tabs` and focus `focused`,
/// everything else kept.
pub open spec fn retabbed<T: Clone>(before: Node<T>, after: Node<T>, tabs: Seq<Tab<T>>, focused: int) -> bool {
    &&& before is Leaf
    &&& after is Leaf
    &&& after->pane == before->pane
    &&& after->options == before->options
    &&& after->collapsed == before->collapsed
    &&& after->tabs@ == tabs
    &&& after->focused == focused
}

/// The focus after a tab is removed from a list that now holds `len` tabs:
/// clamped to the last tab when past the end and the list is not empty.
pub open spec fn focus_after_remove(focused: int, len: int) -> int {
    if len > 0 && focused >= len {
        len - 1
    } else {
        focused
    }
}

/// The tab at position `idx` is closed when it is closable and not the kept
/// position.
pub open spec fn closes<T: Clone>(tab: Tab<T>, idx: int, keep: Option<usize>) -> bool {
    tab.closable && keep != Some(idx as usize)
}

/// The tabs that stay open, in order.
pub open spec fn kept_tabs<T: Clone>(tabs: Seq<Tab<T>>, keep: Option<usize>) -> Seq<Tab<T>>
    decreases tabs.len(),
{
    if tabs.len() == 0 {
        Seq::empty()
    } else {
        let rest = kept_tabs(tabs.drop_last(), keep);
        if closes(tabs.last(), tabs.len() - 1, keep) {
            rest
        } else {
            rest.push(tabs.last())
        }
    }
}

/// The identifiers of the tabs that close, in order.
pub open spec fn closed_ids<T: Clone>(tabs: Seq<Tab<T>>, keep: Option<usize>) -> Seq<T>
    decreases tabs.len(),
{
    if tabs.len() == 0 {
        Seq::empty()
    } else {
        let rest = closed_ids(tabs.drop_last(), keep);
        if closes(tabs.last(), tabs.len() - 1, keep) {
            rest.push(tabs.last().id)
        } else {
            rest
        }
    }
}

/// The tab list after the tab at `from` moves to position `to`.
pub open spec fn moved_tabs<T: Clone>(tabs: Seq<Tab<T>>, from: int, to: int) -> Seq<Tab<T>> {
    if from == to {
        tabs
    } else {
        tabs.remove(from).insert(to, tabs[from])
    }
}

/// `new` is `old` with `tab` appended to the leaf at `leaf` and focused.
pub open spec fn tab_inserted<T: Clone>(old: Seq<Node<T>>, new: Seq<Node<T>>, leaf: int, tab: Tab<T>) -> bool {
    &&& new == old.update(leaf, new[leaf])
    &&& retabbed(old[leaf], new[leaf], old[leaf]->tabs@.push(tab), old[leaf]->tabs@.len() as int)
}

/// The effect of removing the tab at `pos` of the leaf at `leaf`: the array
/// grows to reach `leaf`; when that holds a leaf with such a tab, `r` is the
/// tab, the focus is clamped and an emptied leaf collapses; otherwise `r` is
/// `None` and nothing else changes.
pub open spec fn tab_removal<T: Clone>(old: Seq<Node<T>>, new: Seq<Node<T>>, leaf: int, pos: int, r: Option<Tab<T>>) -> bool {
    let n = node_at(old, leaf);
    let g = grown(old, leaf);
    if n is Leaf && 0 <= pos < n->tabs@.len() {
        &&& r == Some(n->tabs@[pos])
        &&& exists|m: Node<T>|
            {
                &&& #[trigger] retabbed(n, m, n->tabs@.remove(pos), focus_after_remove(n->focused as int, n->tabs@.len() - 1))
                &&& new == collapse_result(g.update(leaf, m), leaf)
            }
    } else {
        &&& r is None
        &&& new == g
    }
}

/// The effect of closing the closable tabs of the leaf at `leaf` (all but
/// position `keep`): the array grows to reach `leaf`; when that holds a leaf,
/// `r` lists the closed identifiers in order, the kept tabs stay in order, the
/// focus is clamped and an emptied leaf collapses.
pub open spec fn tabs_closing<T: Clone>(old: Seq<Node<T>>, new: Seq<Node<T>>, leaf: int, keep: Option<usize>, r: Seq<T>) -> bool {
    let n = node_at(old, leaf);
    let g = grown(old, leaf);
    if n is Leaf {
        let kept = kept_tabs(n->tabs@, keep);
        &&& r == closed_ids(n->tabs@, keep)
        &&& exists|m: Node<T>|
            {
                &&& #[trigger] retabbed(n, m, kept, focus_after_remove(n->focused as int, kept.len() as int))
                &&& new == collapse_result(g.update(leaf, m), leaf)
            }
    } else {
        &&& r.len() == 0
        &&& new == g
    }
}

/// The effect of moving the tab at `from` of the leaf at `leaf` to `to`: the
/// array grows to reach `leaf`; `r` tells whether the leaf and both
/// positions exist, in which case the tab moves and is focused.
pub open spec fn tab_move<T: Clone>(old: Seq<Node<T>>, new: Seq<Node<T>>, leaf: int, from: int, to: int, r: bool) -> bool {
    let n = node_at(old, leaf);
    let g = grown(old, leaf);
    &&& r == (n is Leaf && 0 <= from < n->tabs@.len() && 0 <= to < n->tabs@.len())
    &&& r ==> new == g.update(leaf, new[leaf]) && retabbed(n, new[leaf], moved_tabs(n->tabs@, from, to), to)
    &&& !r ==> new == g
}

/// `new` is `old` after the tab at `pos` of the leaf at `src` moves to the
/// end of the leaf at `dst` and is focused there; the source keeps its
/// (possibly empty) slot with the focus clamped.
pub open spec fn tab_merge<T: Clone>(old: Seq<Node<T>>, new: Seq<Node<T>>, src: int, pos: int, dst: int) -> bool {
    let n = old[src];
    let tab = n->tabs@[pos];
    exists|m: Node<T>|
        {
            let mid = old.update(src, m);
            &&& #[trigger] retabbed(n, m, n->tabs@.remove(pos), focus_after_remove(n->focused as int, n->tabs@.len() - 1))
            &&& new == mid.update(dst, new[dst])
            &&& retabbed(mid[dst], new[dst], mid[dst]->tabs@.push(tab), mid[dst]->tabs@.len() as int)
        }
}

impl<T: Clone + 'static> PanelTree<T> {
    /// Insert a tab at the end of an existing leaf, focusing the inserted tab.
    pub fn insert_tab_into_leaf(&mut self, leaf_idx: usize, tab: Tab<T>)
        requires
            node_at(old(self).nodes@, leaf_idx as int) is Leaf,
        ensures
            final(self).next_pane_id == old(self).next_pane_id,
            tab_inserted(old(self).nodes@, final(self).nodes@, leaf_idx as int, tab),
    {
        let len = self.nodes.len();
        assert(leaf_idx < len);
        match self.node_mut(leaf_idx) {
            Node::Leaf { tabs, focused, .. } => {
                tabs.push(tab);
                *focused = tabs.len() - 1;
            },
            _ => unreached(),
        }
    }

    /// Take the tab at `tab_pos` out of the leaf at `leaf_idx`, clamping the
    /// focus. `None` when the index holds no leaf or the position is out of
    /// range; the array grows to reach `leaf_idx` in every case.
    fn extract_tab_at(&mut self, leaf_idx: usize, tab_pos: usize) -> (r: Option<Tab<T>>)
        requires
            leaf_idx < usize::MAX,
        ensures
            final(self).next_pane_id == old(self).next_pane_id,
            ({
                let n = node_at(old(self).nodes@, leaf_idx as int);
                let g = grown(old(self).nodes@, leaf_idx as int);
                if n is Leaf && tab_pos < n->tabs@.len() {
                    &&& r == Some(n->tabs@[tab_pos as int])
                    &&& final(self).nodes@ == g.update(leaf_idx as int, final(self).nodes@[leaf_idx as int])
                    &&& retabbed(
                        n,
                        final(self).nodes@[leaf_idx as int],
                        n->tabs@.remove(tab_pos as int),
                        focus_after_remove(n->focused as int, n->tabs@.len() - 1),
                    )
                } else {
                    &&& r is None
                    &&& final(self).nodes@ == g
                }
            }),
    {
        let ghost g = grown(self.nodes@, leaf_idx as int);
        match self.node_mut(leaf_idx) {
            Node::Leaf { tabs, focused, .. } => {
                if tab_pos >= tabs.len() {
                    return None;
                }
                let removed = tabs.remove(tab_pos);
                if tabs.len() > 0 && *focused >= tabs.len() {
                    *focused = tabs.len() - 1;
                }
                Some(removed)
            },
            _ => None,
        }
    }

    /// Remove a tab by leaf index and position, returning the removed tab; an
    /// emptied leaf is then collapsed (see [`PanelTree::collapse_empty_leaf`]).
    pub fn remove_tab_at(&mut self, leaf_idx: usize, tab_pos: usize) -> (r: Option<Tab<T>>)
        requires
            leaf_idx < usize::MAX,
        ensures
            final(self).next_pane_id == old(self).next_pane_id,
            tab_removal(old(self).nodes@, final(self).nodes@, leaf_idx as int, tab_pos as int, r),
    {
        let removed = self.extract_tab_at(leaf_idx, tab_pos);
        match removed {
            Some(tab) => {
                let ghost mid = self.nodes@;
                self.collapse_empty_leaf(leaf_idx);
                proof {
                    let m = mid[leaf_idx as int];
                    assert(mid == grown(old(self).nodes@, leaf_idx as int).update(leaf_idx as int, m));
                }
                Some(tab)
            },
            None => None,
        }
    }

    /// Close the tabs of a leaf for which [`closes`] holds, returning their
    /// identifiers in order; the focus is clamped and an emptied leaf
    /// collapsed. The array grows to reach `leaf_idx`.
    fn close_tabs_in_leaf_where(&mut self, leaf_idx: usize, keep: Option<usize>) -> (r: Vec<T>)
        requires
            leaf_idx < usize::MAX,
        ensures
            final(self).next_pane_id == old(self).next_pane_id,
            tabs_closing(old(self).nodes@, final(self).nodes@, leaf_idx as int, keep, r@),
    {
        let ghost n = node_at(self.nodes@, leaf_idx as int);
        let ghost g = grown(self.nodes@, leaf_idx as int);
        proof {
            lemma_grown(self.nodes@, leaf_idx as int);
        }
        let removed = match self.node_mut(leaf_idx) {
            Node::Leaf { tabs, focused, .. } => {
                let mut all: Vec<Tab<T>> = Vec::new();
                std::mem::swap(&mut all, tabs);
                let ghost source = all@;
                let total = all.len();
                let mut kept: Vec<Tab<T>> = Vec::new();
                let mut removed: Vec<T> = Vec::new();
                let mut idx: usize = 0;
                while all.len() > 0
                    invariant
                        idx + all@.len() == source.len(),
                        source.len() <= usize::MAX,
                        all@ == source.skip(idx as int),
                        kept@ == kept_tabs(source.take(idx as int), keep),
                        removed@ == closed_ids(source.take(idx as int), keep),
                    decreases all@.len(),
                {
                    let tab = all.remove(0);
                    proof {
                        assert(source.take(idx + 1).drop_last() =~= source.take(idx as int));
                        assert(source.take(idx + 1).last() == tab);
                    }
                    let close = tab.closable && match keep {
                        Some(k) => k != idx,
                        None => true,
                    };
                    if close {
                        removed.push(tab.id);
                    } else {
                        kept.push(tab);
                    }
                    idx = idx + 1;
                    proof {
                        assert(all@ =~= source.skip(idx as int));
                    }
                }
                proof {
                    assert(source.take(idx as int) =~= source);
                }
                *tabs = kept;
                if tabs.len() > 0 && *focused > tabs.len() - 1 {
                    *focused = tabs.len() - 1;
                }
                removed
            },
            _ => Vec::new(),
        };
        let ghost mid = self.nodes@;
        self.collapse_empty_leaf(leaf_idx);
        proof {
            if n is Leaf {
                assert(mid == g.update(leaf_idx as int, mid[leaf_idx as int]));
                let kept = kept_tabs(n->tabs@, keep);
                assert(retabbed(n, mid[leaf_idx as int], kept, focus_after_remove(n->focused as int, kept.len() as int)));
            } else {
                assert(mid =~= g);
                assert(collapse_result(mid, leaf_idx as int) == mid);
            }
        }
        removed
    }

    /// Close all closable tabs in a leaf and return their identifiers.
    pub fn close_all_tabs_in_leaf(&mut self, leaf_idx: usize) -> (r: Vec<T>)
        requires
            leaf_idx < usize::MAX,
        ensures
            final(self).next_pane_id == old(self).next_pane_id,
            tabs_closing(old(self).nodes@, final(self).nodes@, leaf_idx as int, None, r@),
    {
        self.close_tabs_in_leaf_where(leaf_idx, None)
    }

    /// Close all closable tabs except the kept position and return their
    /// identifiers.
    pub fn close_other_tabs_in_leaf(&mut self, leaf_idx: usize, keep_pos: usize) -> (r: Vec<T>)
        requires
            leaf_idx < usize::MAX,
        ensures
            final(self).next_pane_id == old(self).next_pane_id,
            tabs_closing(old(self).nodes@, final(self).nodes@, leaf_idx as int, Some(keep_pos), r@),
    {
        self.close_tabs_in_leaf_where(leaf_idx, Some(keep_pos))
    }

    /// Move a tab to a new position within the same leaf, focusing it.
    /// `false` (and only the array's growth) when the index holds no leaf or a
    /// position is out of range.
    pub fn move_tab_within_leaf(&mut self, leaf_idx: usize, from_pos: usize, to_pos: usize) -> (r: bool)
        requires
            leaf_idx < usize::MAX,
        ensures
            final(self).next_pane_id == old(self).next_pane_id,
            tab_move(old(self).nodes@, final(self).nodes@, leaf_idx as int, from_pos as int, to_pos as int, r),
    {
        proof {
            lemma_grown(self.nodes@, leaf_idx as int);
        }
        let ghost g = grown(self.nodes@, leaf_idx as int);
        match self.node_mut(leaf_idx) {
            Node::Leaf { tabs, focused, .. } => {
                if from_pos >= tabs.len() || to_pos >= tabs.len() {
                    proof {
                        assert(g.update(leaf_idx as int, g[leaf_idx as int]) =~= g);
                    }
                    return false;
                }
                if from_pos == to_pos {
                    *focused = to_pos;
                    return true;
                }
                let tab = tabs.remove(from_pos);
                tabs.insert(to_pos, tab);
                *focused = to_pos;
                true
            },
            _ => {
                proof {
                    assert(g.update(leaf_idx as int, g[leaf_idx as int]) =~= g);
                }
                false
            },
        }
    }

    /// Move the tab at position `tab_pos` in `src_leaf` to the end of
    /// `dst_leaf`'s tabs and focus it. The source keeps its (possibly empty)
    /// slot; collapsing it is left to the caller.
    pub fn merge_tab_into(&mut self, src_leaf: usize, tab_pos: usize, dst_leaf: usize)
        requires
            node_at(old(self).nodes@, src_leaf as int) is Leaf,
            tab_pos < node_at(old(self).nodes@, src_leaf as int)->tabs@.len(),
            node_at(old(self).nodes@, dst_leaf as int) is Leaf,
        ensures
            final(self).next_pane_id == old(self).next_pane_id,
            tab_merge(old(self).nodes@, final(self).nodes@, src_leaf as int, tab_pos as int, dst_leaf as int),
    {
        let len = self.nodes.len();
        assert(src_leaf < len);
        let tab = match self.extract_tab_at(src_leaf, tab_pos) {
            Some(t) => t,
            None => unreached(),
        };
        let ghost mid = self.nodes@;
        proof {
            assert(mid == old(self).nodes@.update(src_leaf as int, mid[src_leaf as int]));
        }
        self.insert_tab_into_leaf(dst_leaf, tab);
    }
}

impl<T: Clone + PartialEq + 'static> PanelTree<T> {
    /// Ensure a tab exists in the tree, inserting it into `leaf_idx` if no tab
    /// with its identifier is found; `true` when inserted.
    pub fn ensure_tab_in_leaf(&mut self, leaf_idx: usize, tab: Tab<T>) -> (r: bool)
        requires
            node_at(old(self).nodes@, leaf_idx as int) is Leaf || (T::obeys_eq_spec() && find_tab_spec(
                old(self).nodes@,
                tab.id,
            ) is Some),
        ensures
            final(self).next_pane_id == old(self).next_pane_id,
            T::obeys_eq_spec() ==> r == find_tab_spec(old(self).nodes@, tab.id) is None,
            !r ==> final(self).nodes@ == old(self).nodes@,
            r ==> final(self).nodes@ == old(self).nodes@.update(leaf_idx as int, final(self).nodes@[leaf_idx as int])
                && retabbed(
                old(self).nodes@[leaf_idx as int],
                final(self).nodes@[leaf_idx as int],
                old(self).nodes@[leaf_idx as int]->tabs@.push(tab),
                old(self).nodes@[leaf_idx as int]->tabs@.len() as int,
            ),
    {
        if self.find_tab(&tab.id).is_some() {
            return false;
        }
        self.insert_tab_into_leaf(leaf_idx, tab);
        true
    }

    /// Remove the first tab with the given identifier (see
    /// [`PanelTree::remove_tab_at`]), returning it.
    pub fn remove_tab(&mut self, id: &T) -> (r: Option<Tab<T>>)
        ensures
            final(self).next_pane_id == old(self).next_pane_id,
            r is None ==> final(self).nodes@ == old(self).nodes@,
            r is Some ==> exists|l: int, p: int|
                0 <= l < old(self).nodes@.len() && #[trigger] tab_removal(old(self).nodes@, final(self).nodes@, l, p, r),
            T::obeys_eq_spec() ==> (r is Some <==> find_tab_spec(old(self).nodes@, *id) is Some),
            T::obeys_eq_spec() ==> (match find_tab_spec(old(self).nodes@, *id) {
                Some((l, p)) => tab_removal(old(self).nodes@, final(self).nodes@, l, p, r),
                None => final(self).nodes@ == old(self).nodes@,
            }),
    {
        let (leaf_idx, tab_pos) = match self.find_tab(id) {
            Some(found) => found,
            None => return None,
        };
        let len = self.nodes.len();
        assert(leaf_idx < len);
        proof {
            assert(grown(old(self).nodes@, leaf_idx as int) == old(self).nodes@);
        }
        let r = self.remove_tab_at(leaf_idx, tab_pos);
        proof {
            assert(tab_removal(old(self).nodes@, self.nodes@, leaf_idx as int, tab_pos as int, r));
        }
        r
    }
}

} // verus!
