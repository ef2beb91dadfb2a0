//! Versioned, runtime-independent layout payload for persistence, its
//! validation, and the migration from the legacy unversioned payload.
use std::collections::HashSet;
use vstd::prelude::*;

use crate::model::{first_index, lemma_first_index, lemma_first_index_agree};
use crate::queries::{find_tab_spec, first_leaf_pane, leaf_holding, tab_matches};
use crate::tab::{Tab, tab_cloned, tabs_cloned};
use crate::tree::{Node, PaneId, PaneOptions, PanelTree, SplitDir, node_cloned};

verus! {

broadcast use {PaneId::lemma_raw_injective, vstd::std_specs::hash::group_hash_axioms};

/// Current persisted layout format version.
pub const PANEL_TREE_FORMAT_VERSION: u32 = 1u32;

/// Versioned, runtime-independent layout payload for persistence.
///
/// This format is the intended stable save/load contract. It carries an
/// explicit version number so future structural changes can be migrated
/// intentionally.
#[derive(Clone, Debug, PartialEq)]
pub struct PersistedPanelTree<T: Clone + 'static> {
    pub version: u32,
    pub next_pane_id: u64,
    pub nodes: Vec<PersistedNode<T>>,
}

/// Persisted node payload for [`PersistedPanelTree`].
#[derive(Clone, Debug, PartialEq)]
pub enum PersistedNode<T: Clone + 'static> {
    Empty,
    Split {
        dir: SplitDir,
        /// Bit pattern of the `f32` split ratio.
        ratio: u32,
    },
    Leaf { pane: PaneId, tabs: Vec<Tab<T>>, focused: usize, options: PaneOptions, collapsed: bool },
}

/// Legacy unversioned persistence shape that mirrors the runtime tree. This
/// is only used for migration into the explicit versioned format.
#[derive(Clone, Debug, PartialEq)]
pub struct LegacyPersistedPanelTree<T: Clone + 'static> {
    pub nodes: Vec<LegacyPersistedNode<T>>,
    pub next_pane_id: u64,
}

#[derive(Clone, Debug, PartialEq)]
pub enum LegacyPersistedNode<T: Clone + 'static> {
    Empty,
    Split {
        dir: SplitDir,
        /// Bit pattern of the `f32` split ratio.
        ratio: u32,
    },
    Leaf { pane: PaneId, tabs: Vec<Tab<T>>, focused: usize, options: PaneOptions, collapsed: bool },
}

/// Load entry point that accepts both the current versioned format and the
/// legacy unversioned format.
#[derive(Clone, Debug, PartialEq)]
pub enum PersistedPanelTreeFile<T: Clone + 'static> {
    Versioned(PersistedPanelTree<T>),
    Legacy(LegacyPersistedPanelTree<T>),
}

#[derive(Clone, Debug, PartialEq, Eq, Structural)]
pub enum PersistError {
    UnsupportedVersion(u32),
    EmptyTree,
    EmptyLeaf { pane: PaneId },
    FocusOutOfRange { pane: PaneId, focused: usize, tab_count: usize },
    DuplicatePaneId(PaneId),
    NextPaneIdTooLow { next_pane_id: u64, required_minimum: u64 },
}

// ── Model ───────────────────────────────────────────────────────────────────

/// The runtime form of a persisted node.
pub open spec fn import_node<T: Clone>(n: PersistedNode<T>) -> Node<T> {
    match n {
        PersistedNode::Empty => Node::Empty,
        PersistedNode::Split { dir, ratio } => Node::Split { dir, ratio },
        PersistedNode::Leaf { pane, tabs, focused, options, collapsed } => Node::Leaf {
            pane,
            tabs,
            focused,
            options,
            collapsed,
        },
    }
}

/// The versioned form of a legacy node.
pub open spec fn migrate_node<T: Clone>(n: LegacyPersistedNode<T>) -> PersistedNode<T> {
    match n {
        LegacyPersistedNode::Empty => PersistedNode::Empty,
        LegacyPersistedNode::Split { dir, ratio } => PersistedNode::Split { dir, ratio },
        LegacyPersistedNode::Leaf { pane, tabs, focused, options, collapsed } => PersistedNode::Leaf {
            pane,
            tabs,
            focused,
            options,
            collapsed,
        },
    }
}

/// `p` is the persisted form of `n`, with cloned tabs.
pub open spec fn exported_clone<T: Clone>(n: Node<T>, p: PersistedNode<T>) -> bool {
    match (n, p) {
        (Node::Empty, PersistedNode::Empty) => true,
        (Node::Split { dir: d1, ratio: r1 }, PersistedNode::Split { dir: d2, ratio: r2 }) => d1 == d2 && r1 == r2,
        (
            Node::Leaf { pane: p1, tabs: t1, focused: f1, options: o1, collapsed: c1 },
            PersistedNode::Leaf { pane: p2, tabs: t2, focused: f2, options: o2, collapsed: c2 },
        ) => p1 == p2 && tabs_cloned(t1@, t2@) && f1 == f2 && o1 == o2 && c1 == c2,
        _ => false,
    }
}

/// `p` is the legacy persisted form of `n`, with cloned tabs.
pub open spec fn legacy_clone<T: Clone>(n: Node<T>, p: LegacyPersistedNode<T>) -> bool {
    match (n, p) {
        (Node::Empty, LegacyPersistedNode::Empty) => true,
        (Node::Split { dir: d1, ratio: r1 }, LegacyPersistedNode::Split { dir: d2, ratio: r2 }) => d1 == d2 && r1
            == r2,
        (
            Node::Leaf { pane: p1, tabs: t1, focused: f1, options: o1, collapsed: c1 },
            LegacyPersistedNode::Leaf { pane: p2, tabs: t2, focused: f2, options: o2, collapsed: c2 },
        ) => p1 == p2 && tabs_cloned(t1@, t2@) && f1 == f2 && o1 == o2 && c1 == c2,
        _ => false,
    }
}

/// The panes of the leaves, in array order.
pub open spec fn persisted_panes<T: Clone>(nodes: Seq<PersistedNode<T>>) -> Seq<PaneId>
    decreases nodes.len(),
{
    if nodes.len() == 0 {
        Seq::empty()
    } else {
        let rest = persisted_panes(nodes.drop_last());
        match nodes.last() {
            PersistedNode::Leaf { pane, .. } => rest.push(pane),
            _ => rest,
        }
    }
}

/// The largest raw pane identifier among the leaves, 0 when there is none.
pub open spec fn max_pane_raw<T: Clone>(nodes: Seq<PersistedNode<T>>) -> u64
    decreases nodes.len(),
{
    if nodes.len() == 0 {
        0
    } else {
        let rest = max_pane_raw(nodes.drop_last());
        match nodes.last() {
            PersistedNode::Leaf { pane, .. } => if pane.raw() > rest { pane.raw() } else { rest },
            _ => rest,
        }
    }
}

/// The error that the node at `i` raises, given the leaves before it: a pane
/// seen before, a non-persistent empty leaf, or a focus out of range (a
/// persistent empty leaf must focus 0).
pub open spec fn node_error<T: Clone>(nodes: Seq<PersistedNode<T>>, i: int) -> Option<PersistError> {
    match nodes[i] {
        PersistedNode::Leaf { pane, tabs, focused, options, .. } => {
            if persisted_panes(nodes.take(i)).contains(pane) {
                Some(PersistError::DuplicatePaneId(pane))
            } else if tabs@.len() == 0 {
                if options.persist_when_empty {
                    if focused != 0 {
                        Some(PersistError::FocusOutOfRange { pane, focused, tab_count: 0 })
                    } else {
                        None
                    }
                } else {
                    Some(PersistError::EmptyLeaf { pane })
                }
            } else if focused >= tabs@.len() {
                Some(PersistError::FocusOutOfRange { pane, focused, tab_count: tabs@.len() as usize })
            } else {
                None
            }
        },
        _ => None,
    }
}

/// The first error raised by a node at index `i` or later.
pub open spec fn scan_errors<T: Clone>(nodes: Seq<PersistedNode<T>>, i: int) -> Option<PersistError>
    decreases nodes.len() - i,
{
    if i < 0 || i >= nodes.len() {
        None
    } else {
        match node_error(nodes, i) {
            Some(e) => Some(e),
            None => scan_errors(nodes, i + 1),
        }
    }
}

/// The smallest next-pane identifier a payload may carry: one past the
/// largest pane (saturating), and at least 1.
pub open spec fn required_next<T: Clone>(nodes: Seq<PersistedNode<T>>) -> u64 {
    let m = max_pane_raw(nodes);
    let bumped: u64 = if m == u64::MAX { u64::MAX } else { (m + 1) as u64 };
    if bumped > 1 { bumped } else { 1 }
}

/// The outcome of validating a payload.
pub open spec fn validate_spec<T: Clone>(p: PersistedPanelTree<T>) -> Result<(), PersistError> {
    if p.nodes@.len() == 0 {
        Err(PersistError::EmptyTree)
    } else {
        match scan_errors(p.nodes@, 0) {
            Some(e) => Err(e),
            None => if p.next_pane_id < required_next(p.nodes@) {
                Err(
                    PersistError::NextPaneIdTooLow {
                        next_pane_id: p.next_pane_id,
                        required_minimum: required_next(p.nodes@),
                    },
                )
            } else {
                Ok(())
            },
        }
    }
}

/// A scan from `k` meets no error before `i`, so it reports what a scan from
/// `i` reports.
proof fn lemma_scan_skip<T: Clone>(nodes: Seq<PersistedNode<T>>, k: int, i: int)
    requires
        0 <= k <= i <= nodes.len(),
        forall|j: int| k <= j < i ==> node_error(nodes, j) is None,
    ensures
        scan_errors(nodes, k) == scan_errors(nodes, i),
    decreases i - k,
{
    if k < i {
        lemma_scan_skip(nodes, k + 1, i);
    }
}

proof fn lemma_take_node_error<T: Clone>(nodes: Seq<PersistedNode<T>>, i: int)
    requires
        0 <= i < nodes.len(),
    ensures
        nodes.take(i + 1).drop_last() == nodes.take(i),
        nodes.take(i + 1).last() == nodes[i],
{
    assert(nodes.take(i + 1).drop_last() =~= nodes.take(i));
}

impl<T: Clone + 'static> PersistedPanelTree<T> {
    /// Export a runtime tree into the current versioned persistence format.
    pub fn current(tree: &PanelTree<T>) -> (r: Self)
        ensures
            r.version == PANEL_TREE_FORMAT_VERSION,
            r.next_pane_id == tree.next_pane_id,
            r.nodes@.len() == tree.nodes@.len(),
            forall|i: int| 0 <= i < tree.nodes@.len() ==> #[trigger] exported_clone(tree.nodes@[i], r.nodes@[i]),
    {
        let mut nodes: Vec<PersistedNode<T>> = Vec::new();
        let mut i: usize = 0;
        while i < tree.nodes.len()
            invariant
                i <= tree.nodes@.len(),
                nodes@.len() == i,
                forall|j: int| 0 <= j < i ==> #[trigger] exported_clone(tree.nodes@[j], nodes@[j]),
            decreases tree.nodes.len() - i,
        {
            let p = match &tree.nodes[i] {
                Node::Empty => PersistedNode::Empty,
                Node::Split { dir, ratio } => PersistedNode::Split { dir: *dir, ratio: *ratio },
                Node::Leaf { pane, tabs, focused, options, collapsed } => PersistedNode::Leaf {
                    pane: *pane,
                    tabs: crate::tab::clone_tabs(tabs),
                    focused: *focused,
                    options: *options,
                    collapsed: *collapsed,
                },
            };
            nodes.push(p);
            i = i + 1;
        }
        PersistedPanelTree { version: PANEL_TREE_FORMAT_VERSION, next_pane_id: tree.next_pane_id, nodes }
    }

    /// Validate the persisted payload before attempting to build a runtime
    /// tree: the payload must hold a node, no pane may appear twice, an empty
    /// leaf must be persistent and focus 0, a focus must be in range, and the
    /// next pane identifier must exceed every pane.
    pub fn validate(&self) -> (r: Result<(), PersistError>)
        ensures
            r == validate_spec(*self),
    {
        if self.nodes.len() == 0 {
            return Err(PersistError::EmptyTree);
        }
        let mut seen: HashSet<u64> = HashSet::new();
        let mut max_pane: u64 = 0;
        let mut i: usize = 0;
        while i < self.nodes.len()
            invariant
                i <= self.nodes@.len(),
                forall|p: PaneId| #[trigger] seen@.contains(p.raw()) <==> persisted_panes(self.nodes@.take(i as int)).contains(p),
                max_pane == max_pane_raw(self.nodes@.take(i as int)),
                forall|j: int| 0 <= j < i ==> node_error(self.nodes@, j) is None,
            decreases self.nodes.len() - i,
        {
            proof {
                lemma_take_node_error(self.nodes@, i as int);
            }
            if let PersistedNode::Leaf { pane, tabs, focused, options, .. } = &self.nodes[i] {
                let raw = pane.into_raw();
                if seen.contains(&raw) {
                    proof {
                        lemma_scan_skip(self.nodes@, 0, i as int);
                    }
                    return Err(PersistError::DuplicatePaneId(*pane));
                }
                let ghost before = seen@;
                seen.insert(raw);
                proof {
                    assert(seen@ == before.insert(raw));
                    assert(self.nodes@.take(i + 1).drop_last() =~= self.nodes@.take(i as int));
                    assert(self.nodes@.take(i + 1).last() == self.nodes@[i as int]);
                    assert forall|p: PaneId| #[trigger] seen@.contains(p.raw()) <==> persisted_panes(
                        self.nodes@.take(i + 1),
                    ).contains(p) by {
                        let earlier = persisted_panes(self.nodes@.take(i as int));
                        assert(persisted_panes(self.nodes@.take(i + 1)) == earlier.push(*pane));
                        assert(before.contains(p.raw()) <==> earlier.contains(p));
                        assert(p.raw() == pane.raw() <==> p == *pane);
                        if earlier.contains(p) {
                            let k = choose|k: int| 0 <= k < earlier.len() && earlier[k] == p;
                            assert(earlier.push(*pane)[k] == p);
                        }
                        if p == *pane {
                            assert(earlier.push(*pane)[earlier.len() as int] == p);
                        }
                        if earlier.push(*pane).contains(p) {
                            let k = choose|k: int| 0 <= k < earlier.len() + 1 && earlier.push(*pane)[k] == p;
                            if k < earlier.len() {
                                assert(earlier[k] == p);
                            }
                        }
                    }
                }
                if raw > max_pane {
                    max_pane = raw;
                }
                if tabs.len() == 0 {
                    if options.persist_when_empty {
                        if *focused != 0 {
                            proof {
                                lemma_scan_skip(self.nodes@, 0, i as int);
                            }
                            return Err(PersistError::FocusOutOfRange { pane: *pane, focused: *focused, tab_count: 0 });
                        }
                    } else {
                        proof {
                            lemma_scan_skip(self.nodes@, 0, i as int);
                        }
                        return Err(PersistError::EmptyLeaf { pane: *pane });
                    }
                } else if *focused >= tabs.len() {
                    proof {
                        lemma_scan_skip(self.nodes@, 0, i as int);
                    }
                    return Err(PersistError::FocusOutOfRange { pane: *pane, focused: *focused, tab_count: tabs.len() });
                }
            }
            i = i + 1;
        }
        proof {
            lemma_scan_skip(self.nodes@, 0, self.nodes@.len() as int);
            assert(self.nodes@.take(self.nodes@.len() as int) =~= self.nodes@);
        }
        let bumped = if max_pane == u64::MAX {
            u64::MAX
        } else {
            max_pane + 1
        };
        let required_minimum = if bumped > 1 {
            bumped
        } else {
            1
        };
        if self.next_pane_id < required_minimum {
            return Err(PersistError::NextPaneIdTooLow { next_pane_id: self.next_pane_id, required_minimum });
        }
        Ok(())
    }

    /// Convert the versioned persisted payload into a runtime tree: the
    /// version must be current and the payload valid.
    pub fn into_panel_tree(self) -> (r: Result<PanelTree<T>, PersistError>)
        ensures
            self.version != PANEL_TREE_FORMAT_VERSION ==> r == Err::<PanelTree<T>, PersistError>(
                PersistError::UnsupportedVersion(self.version),
            ),
            self.version == PANEL_TREE_FORMAT_VERSION ==> match validate_spec(self) {
                Err(e) => r == Err::<PanelTree<T>, PersistError>(e),
                Ok(_) => r matches Ok(t) && t.nodes@ == self.nodes@.map_values(|n: PersistedNode<T>| import_node(n))
                    && t.next_pane_id == self.next_pane_id,
            },
    {
        if self.version != PANEL_TREE_FORMAT_VERSION {
            return Err(PersistError::UnsupportedVersion(self.version));
        }
        match self.validate() {
            Err(e) => return Err(e),
            Ok(()) => {},
        }
        let ghost source = self.nodes@;
        let next_pane_id = self.next_pane_id;
        let mut rest = self.nodes;
        let mut nodes: Vec<Node<T>> = Vec::new();
        let mut idx: usize = 0;
        let total = rest.len();
        while rest.len() > 0
            invariant
                idx + rest@.len() == source.len(),
                source.len() <= usize::MAX,
                rest@ == source.skip(idx as int),
                nodes@ == source.take(idx as int).map_values(|n: PersistedNode<T>| import_node(n)),
            decreases rest@.len(),
        {
            let p = rest.remove(0);
            let n = match p {
                PersistedNode::Empty => Node::Empty,
                PersistedNode::Split { dir, ratio } => Node::Split { dir, ratio },
                PersistedNode::Leaf { pane, tabs, focused, options, collapsed } => Node::Leaf {
                    pane,
                    tabs,
                    focused,
                    options,
                    collapsed,
                },
            };
            nodes.push(n);
            proof {
                assert(source.take(idx + 1) =~= source.take(idx as int).push(source[idx as int]));
                assert(source.take(idx + 1).map_values(|n: PersistedNode<T>| import_node(n)) =~= source.take(
                    idx as int,
                ).map_values(|n: PersistedNode<T>| import_node(n)).push(import_node(source[idx as int])));
            }
            idx = idx + 1;
            proof {
                assert(rest@ =~= source.skip(idx as int));
            }
        }
        proof {
            assert(source.take(idx as int) =~= source);
        }
        Ok(PanelTree { nodes, next_pane_id })
    }
}

impl<'a, T: Clone + 'static> From<&'a PanelTree<T>> for PersistedPanelTree<T> {
    fn from(value: &'a PanelTree<T>) -> (r: Self)
        ensures
            r.version == PANEL_TREE_FORMAT_VERSION,
            r.next_pane_id == value.next_pane_id,
            r.nodes@.len() == value.nodes@.len(),
            forall|i: int| 0 <= i < value.nodes@.len() ==> #[trigger] exported_clone(value.nodes@[i], r.nodes@[i]),
    {
        Self::current(value)
    }
}

/// The export clones tab identifiers, so it follows no spec function; `from`'s
/// own `ensures` states the result.
impl<'a, T: Clone + 'static> vstd::std_specs::convert::FromSpecImpl<&'a PanelTree<T>> for PersistedPanelTree<T> {
    open spec fn obeys_from_spec() -> bool {
        false
    }

    open spec fn from_spec(v: &'a PanelTree<T>) -> Self {
        arbitrary()
    }
}

impl<'a, T: Clone + 'static> From<&'a PanelTree<T>> for LegacyPersistedPanelTree<T> {
    fn from(value: &'a PanelTree<T>) -> (r: Self)
        ensures
            r.next_pane_id == value.next_pane_id,
            r.nodes@.len() == value.nodes@.len(),
            forall|i: int| 0 <= i < value.nodes@.len() ==> #[trigger] legacy_clone(value.nodes@[i], r.nodes@[i]),
    {
        let mut nodes: Vec<LegacyPersistedNode<T>> = Vec::new();
        let mut i: usize = 0;
        while i < value.nodes.len()
            invariant
                i <= value.nodes@.len(),
                nodes@.len() == i,
                forall|j: int| 0 <= j < i ==> #[trigger] legacy_clone(value.nodes@[j], nodes@[j]),
            decreases value.nodes.len() - i,
        {
            let p = match &value.nodes[i] {
                Node::Empty => LegacyPersistedNode::Empty,
                Node::Split { dir, ratio } => LegacyPersistedNode::Split { dir: *dir, ratio: *ratio },
                Node::Leaf { pane, tabs, focused, options, collapsed } => LegacyPersistedNode::Leaf {
                    pane: *pane,
                    tabs: crate::tab::clone_tabs(tabs),
                    focused: *focused,
                    options: *options,
                    collapsed: *collapsed,
                },
            };
            nodes.push(p);
            i = i + 1;
        }
        LegacyPersistedPanelTree { next_pane_id: value.next_pane_id, nodes }
    }
}

/// The legacy export clones tab identifiers, so it follows no spec function;
/// `from`'s own `ensures` states the result.
impl<'a, T: Clone + 'static> vstd::std_specs::convert::FromSpecImpl<&'a PanelTree<T>> for LegacyPersistedPanelTree<T> {
    open spec fn obeys_from_spec() -> bool {
        false
    }

    open spec fn from_spec(v: &'a PanelTree<T>) -> Self {
        arbitrary()
    }
}

impl<T: Clone + 'static> From<LegacyPersistedPanelTree<T>> for PersistedPanelTree<T> {
    fn from(value: LegacyPersistedPanelTree<T>) -> (r: Self)
        ensures
            r.version == PANEL_TREE_FORMAT_VERSION,
            r.next_pane_id == value.next_pane_id,
            r.nodes@ == value.nodes@.map_values(|n: LegacyPersistedNode<T>| migrate_node(n)),
    {
        let ghost source = value.nodes@;
        let next_pane_id = value.next_pane_id;
        let mut rest = value.nodes;
        let mut nodes: Vec<PersistedNode<T>> = Vec::new();
        let mut idx: usize = 0;
        let total = rest.len();
        while rest.len() > 0
            invariant
                idx + rest@.len() == source.len(),
                source.len() <= usize::MAX,
                rest@ == source.skip(idx as int),
                nodes@ == source.take(idx as int).map_values(|n: LegacyPersistedNode<T>| migrate_node(n)),
            decreases rest@.len(),
        {
            let p = rest.remove(0);
            let n = match p {
                LegacyPersistedNode::Empty => PersistedNode::Empty,
                LegacyPersistedNode::Split { dir, ratio } => PersistedNode::Split { dir, ratio },
                LegacyPersistedNode::Leaf { pane, tabs, focused, options, collapsed } => PersistedNode::Leaf {
                    pane,
                    tabs,
                    focused,
                    options,
                    collapsed,
                },
            };
            nodes.push(n);
            proof {
                assert(source.take(idx + 1) =~= source.take(idx as int).push(source[idx as int]));
                assert(source.take(idx + 1).map_values(|n: LegacyPersistedNode<T>| migrate_node(n)) =~= source.take(
                    idx as int,
                ).map_values(|n: LegacyPersistedNode<T>| migrate_node(n)).push(migrate_node(source[idx as int])));
            }
            idx = idx + 1;
            proof {
                assert(rest@ =~= source.skip(idx as int));
            }
        }
        proof {
            assert(source.take(idx as int) =~= source);
        }
        PersistedPanelTree { version: PANEL_TREE_FORMAT_VERSION, next_pane_id, nodes }
    }
}

/// The result holds a vector, which no spec function builds; `from`'s own
/// `ensures` states it.
impl<T: Clone + 'static> vstd::std_specs::convert::FromSpecImpl<LegacyPersistedPanelTree<T>> for PersistedPanelTree<T> {
    open spec fn obeys_from_spec() -> bool {
        false
    }

    open spec fn from_spec(v: LegacyPersistedPanelTree<T>) -> Self {
        arbitrary()
    }
}

impl<T: Clone + 'static> PersistedPanelTreeFile<T> {
    /// Migrate either the current versioned payload or the legacy payload into
    /// the current versioned format: a versioned payload must carry the
    /// current version, and the result must validate.
    pub fn migrate(self) -> (r: Result<PersistedPanelTree<T>, PersistError>)
        ensures
            match self {
                PersistedPanelTreeFile::Versioned(layout) => if layout.version != PANEL_TREE_FORMAT_VERSION {
                    r == Err::<PersistedPanelTree<T>, PersistError>(PersistError::UnsupportedVersion(layout.version))
                } else {
                    match validate_spec(layout) {
                        Err(e) => r == Err::<PersistedPanelTree<T>, PersistError>(e),
                        Ok(_) => r == Ok::<PersistedPanelTree<T>, PersistError>(layout),
                    }
                },
                PersistedPanelTreeFile::Legacy(layout) => {
                    let nodes = layout.nodes@.map_values(|n: LegacyPersistedNode<T>| migrate_node(n));
                    match r {
                        Ok(m) => m.version == PANEL_TREE_FORMAT_VERSION && m.next_pane_id == layout.next_pane_id
                            && m.nodes@ == nodes && validate_spec(m) is Ok,
                        Err(e) => exists|m: PersistedPanelTree<T>|
                            #![trigger validate_spec(m)]
                            m.version == PANEL_TREE_FORMAT_VERSION && m.next_pane_id == layout.next_pane_id
                                && m.nodes@ == nodes && validate_spec(m) == Err::<(), PersistError>(e),
                    }
                },
            },
    {
        match self {
            PersistedPanelTreeFile::Versioned(layout) => {
                if layout.version != PANEL_TREE_FORMAT_VERSION {
                    return Err(PersistError::UnsupportedVersion(layout.version));
                }
                match layout.validate() {
                    Err(e) => Err(e),
                    Ok(()) => Ok(layout),
                }
            },
            PersistedPanelTreeFile::Legacy(layout) => {
                let layout = PersistedPanelTree::from(layout);
                match layout.validate() {
                    Err(e) => Err(e),
                    Ok(()) => Ok(layout),
                }
            },
        }
    }

    /// Convert either the current or legacy persisted payload into a runtime
    /// tree: migrate, then convert.
    pub fn into_panel_tree(self) -> (r: Result<PanelTree<T>, PersistError>)
        ensures
            match self {
                PersistedPanelTreeFile::Versioned(layout) => if layout.version != PANEL_TREE_FORMAT_VERSION {
                    r == Err::<PanelTree<T>, PersistError>(PersistError::UnsupportedVersion(layout.version))
                } else {
                    match validate_spec(layout) {
                        Err(e) => r == Err::<PanelTree<T>, PersistError>(e),
                        Ok(_) => r matches Ok(t) && t.nodes@ == layout.nodes@.map_values(
                            |n: PersistedNode<T>| import_node(n),
                        ) && t.next_pane_id == layout.next_pane_id,
                    }
                },
                PersistedPanelTreeFile::Legacy(layout) => {
                    let nodes = layout.nodes@.map_values(|n: LegacyPersistedNode<T>| migrate_node(n));
                    match r {
                        Ok(t) => t.next_pane_id == layout.next_pane_id && t.nodes@ == nodes.map_values(
                            |n: PersistedNode<T>| import_node(n),
                        ) && exists|m: PersistedPanelTree<T>|
                            #![trigger validate_spec(m)]
                            m.version == PANEL_TREE_FORMAT_VERSION && m.next_pane_id == layout.next_pane_id
                                && m.nodes@ == nodes && validate_spec(m) is Ok,
                        Err(e) => exists|m: PersistedPanelTree<T>|
                            #![trigger validate_spec(m)]
                            m.version == PANEL_TREE_FORMAT_VERSION && m.next_pane_id == layout.next_pane_id
                                && m.nodes@ == nodes && validate_spec(m) == Err::<(), PersistError>(e),
                    }
                },
            },
    {
        match self.migrate() {
            Err(e) => Err(e),
            Ok(layout) => {
                let ghost m = layout;
                let r = layout.into_panel_tree();
                r
            },
        }
    }
}

impl<T: Clone + 'static> PanelTree<T> {
    /// Export the current layout into the versioned persisted format.
    pub fn to_persisted(&self) -> (r: PersistedPanelTree<T>)
        ensures
            r.version == PANEL_TREE_FORMAT_VERSION,
            r.next_pane_id == self.next_pane_id,
            r.nodes@.len() == self.nodes@.len(),
            forall|i: int| 0 <= i < self.nodes@.len() ==> #[trigger] exported_clone(self.nodes@[i], r.nodes@[i]),
    {
        PersistedPanelTree::from(self)
    }

    /// Reconstruct a runtime tree from the versioned persisted format (see
    /// [`PersistedPanelTree::into_panel_tree`]).
    pub fn from_persisted(layout: PersistedPanelTree<T>) -> (r: Result<Self, PersistError>)
        ensures
            layout.version != PANEL_TREE_FORMAT_VERSION ==> r == Err::<PanelTree<T>, PersistError>(
                PersistError::UnsupportedVersion(layout.version),
            ),
            layout.version == PANEL_TREE_FORMAT_VERSION ==> match validate_spec(layout) {
                Err(e) => r == Err::<PanelTree<T>, PersistError>(e),
                Ok(_) => r matches Ok(t) && t.nodes@ == layout.nodes@.map_values(|n: PersistedNode<T>| import_node(n))
                    && t.next_pane_id == layout.next_pane_id,
            },
    {
        layout.into_panel_tree()
    }
}

// ── Round trip ──────────────────────────────────────────────────────────────

/// A leaf that loads: its pane is below `next` (which, at the largest
/// identifier, every pane is taken to be), and an empty leaf is persistent
/// and focuses 0 while any other focuses one of its tabs.
pub open spec fn leaf_loadable<T: Clone>(n: Node<T>, next: u64) -> bool {
    &&& (n->pane.raw() < next || next == u64::MAX)
    &&& if n->tabs@.len() == 0 {
        n->options.persist_when_empty && n->focused == 0
    } else {
        n->focused < n->tabs@.len()
    }
}

/// A tree that saving and loading gives back: it has a node, no pane sits
/// in two leaves, every leaf loads, and the next pane identifier is
/// positive.
pub open spec fn loadable<T: Clone>(t: PanelTree<T>) -> bool {
    let nodes = t.nodes@;
    &&& nodes.len() > 0
    &&& t.next_pane_id >= 1
    &&& forall|i: int, j: int|
        0 <= i < j < nodes.len() && (#[trigger] nodes[i]) is Leaf && (#[trigger] nodes[j]) is Leaf ==> nodes[i]->pane
            != nodes[j]->pane
    &&& forall|i: int| 0 <= i < nodes.len() && (#[trigger] nodes[i]) is Leaf ==> leaf_loadable(nodes[i], t.next_pane_id)
}

proof fn lemma_panes_contain<T: Clone>(s: Seq<PersistedNode<T>>, x: PaneId)
    ensures
        persisted_panes(s).contains(x) <==> exists|j: int| 0 <= j < s.len() && (#[trigger] s[j]) is Leaf && s[j]->pane == x,
    decreases s.len(),
{
    if s.len() > 0 {
        let t = s.drop_last();
        lemma_panes_contain(t, x);
        let rest = persisted_panes(t);
        if persisted_panes(s).contains(x) {
            if s.last() is Leaf && s.last()->pane == x {
                assert(s[s.len() - 1] is Leaf);
            } else {
                if s.last() is Leaf {
                    assert(persisted_panes(s) == rest.push(s.last()->pane));
                    let k = choose|k: int| 0 <= k < persisted_panes(s).len() && persisted_panes(s)[k] == x;
                    assert(k < rest.len());
                    assert(rest[k] == x);
                } else {
                    assert(persisted_panes(s) == rest);
                }
                assert(rest.contains(x));
                let j = choose|j: int| 0 <= j < t.len() && (#[trigger] t[j]) is Leaf && t[j]->pane == x;
                assert(s[j] == t[j]);
            }
        }
        if exists|j: int| 0 <= j < s.len() && (#[trigger] s[j]) is Leaf && s[j]->pane == x {
            let j = choose|j: int| 0 <= j < s.len() && (#[trigger] s[j]) is Leaf && s[j]->pane == x;
            if j < s.len() - 1 {
                assert(t[j] == s[j]);
                assert(rest.contains(x));
                if s.last() is Leaf {
                    assert(persisted_panes(s) == rest.push(s.last()->pane));
                    let k = choose|k: int| 0 <= k < rest.len() && rest[k] == x;
                    assert(persisted_panes(s)[k] == x);
                }
            } else {
                assert(persisted_panes(s) == rest.push(x));
                assert(persisted_panes(s)[rest.len() as int] == x);
            }
        }
    }
}

proof fn lemma_max_pane<T: Clone>(s: Seq<PersistedNode<T>>, next: u64)
    requires
        next >= 1,
    ensures
        (forall|j: int| 0 <= j < s.len() && (#[trigger] s[j]) is Leaf ==> s[j]->pane.raw() < next) <==> max_pane_raw(s)
            < next,
    decreases s.len(),
{
    if s.len() > 0 {
        let t = s.drop_last();
        lemma_max_pane(t, next);
        assert forall|j: int| 0 <= j < t.len() implies #[trigger] t[j] == s[j] by {}
        if max_pane_raw(s) < next {
            assert forall|j: int| 0 <= j < s.len() && (#[trigger] s[j]) is Leaf implies s[j]->pane.raw() < next by {
                if j < s.len() - 1 {
                    assert(t[j] == s[j]);
                }
            }
        }
    }
}

proof fn lemma_scan_none<T: Clone>(nodes: Seq<PersistedNode<T>>, i: int)
    requires
        0 <= i <= nodes.len(),
    ensures
        scan_errors(nodes, i) is None <==> forall|j: int| i <= j < nodes.len() ==> (#[trigger] node_error(nodes, j)) is None,
    decreases nodes.len() - i,
{
    if i < nodes.len() {
        lemma_scan_none(nodes, i + 1);
    }
}

/// Where cloning an identifier gives an equal identifier, the tree loaded from
/// the saved form of a tree (as [`PanelTree::to_persisted`] and
/// [`PanelTree::from_persisted`] give them) finds every tab identifier in the
/// same leaf, at the same position and in the same pane as the tree that was
/// saved.
pub proof fn law_loaded_tree_finds_tabs<T: Clone + PartialEq>(
    tree: PanelTree<T>,
    saved: PersistedPanelTree<T>,
    loaded: PanelTree<T>,
)
    requires
        saved.nodes@.len() == tree.nodes@.len(),
        forall|i: int| 0 <= i < tree.nodes@.len() ==> #[trigger] exported_clone(tree.nodes@[i], saved.nodes@[i]),
        loaded.nodes@ == saved.nodes@.map_values(|n: PersistedNode<T>| import_node(n)),
        forall|a: T, b: T| #[trigger] cloned::<T>(a, b) ==> a == b,
    ensures
        forall|id: T| #[trigger] find_tab_spec(loaded.nodes@, id) == find_tab_spec(tree.nodes@, id),
        forall|id: T|
            #[trigger] first_leaf_pane(loaded.nodes@, leaf_holding(id)) == first_leaf_pane(tree.nodes@, leaf_holding(id)),
{
    let nodes = tree.nodes@;
    let back = loaded.nodes@;
    assert forall|i: int| 0 <= i < nodes.len() implies (#[trigger] back[i] is Leaf) == (nodes[i] is Leaf) && (
    nodes[i] is Leaf ==> back[i]->pane == nodes[i]->pane && back[i]->tabs@.len() == nodes[i]->tabs@.len()) by {
        assert(exported_clone(nodes[i], saved.nodes@[i]));
    }
    assert forall|i: int, k: int|
        0 <= i < nodes.len() && nodes[i] is Leaf && 0 <= k < nodes[i]->tabs@.len() implies (
    #[trigger] back[i]->tabs@[k]).id == nodes[i]->tabs@[k].id by {
        assert(exported_clone(nodes[i], saved.nodes@[i]));
        assert(tab_cloned(nodes[i]->tabs@[k], saved.nodes@[i]->tabs@[k]));
    }
    assert forall|id: T| #[trigger] find_tab_spec(back, id) == find_tab_spec(nodes, id) by {
        lemma_same_ids_find_alike(nodes, back, id);
    }
    assert forall|id: T| #[trigger] first_leaf_pane(back, leaf_holding(id)) == first_leaf_pane(
        nodes,
        leaf_holding(id),
    ) by {
        lemma_same_ids_find_alike(nodes, back, id);
    }
}

/// Two node sequences with leaves at the same places, of the same panes and
/// with tabs of the same identifiers, find `id` alike.
proof fn lemma_same_ids_find_alike<T: Clone + PartialEq>(nodes: Seq<Node<T>>, back: Seq<Node<T>>, id: T)
    requires
        nodes.len() == back.len(),
        forall|i: int| 0 <= i < nodes.len() ==> (#[trigger] back[i] is Leaf) == (nodes[i] is Leaf),
        forall|i: int|
            0 <= i < nodes.len() && (#[trigger] nodes[i]) is Leaf ==> back[i]->pane == nodes[i]->pane
                && back[i]->tabs@.len() == nodes[i]->tabs@.len(),
        forall|i: int, k: int|
            0 <= i < nodes.len() && nodes[i] is Leaf && 0 <= k < nodes[i]->tabs@.len() ==> (#[trigger] back[i]->tabs@[k]).id
                == nodes[i]->tabs@[k].id,
    ensures
        find_tab_spec(back, id) == find_tab_spec(nodes, id),
        first_leaf_pane(back, leaf_holding(id)) == first_leaf_pane(nodes, leaf_holding(id)),
{
    assert forall|i: int| 0 <= i < nodes.len() && (#[trigger] nodes[i]) is Leaf implies first_index(
        nodes[i]->tabs@,
        tab_matches(id),
    ) == first_index(back[i]->tabs@, tab_matches(id)) by {
        assert(back[i] is Leaf);
        assert forall|k: int| 0 <= k < nodes[i]->tabs@.len() implies tab_matches(id)(#[trigger] nodes[i]->tabs@[k])
            == tab_matches(id)(back[i]->tabs@[k]) by {
            assert(back[i]->tabs@[k].id == nodes[i]->tabs@[k].id);
        }
        lemma_first_index_agree(nodes[i]->tabs@, tab_matches(id), back[i]->tabs@, tab_matches(id));
    }
    assert forall|i: int| 0 <= i < nodes.len() implies leaf_holding(id)(#[trigger] nodes[i]) == leaf_holding(id)(
        back[i],
    ) by {
        if nodes[i] is Leaf {
            assert(first_index(nodes[i]->tabs@, tab_matches(id)) == first_index(back[i]->tabs@, tab_matches(id)));
        }
    }
    lemma_first_index_agree(nodes, leaf_holding(id), back, leaf_holding(id));
    lemma_first_index(nodes, leaf_holding(id));
    if let Some(l) = first_index(nodes, leaf_holding(id)) {
        assert(nodes[l] is Leaf);
        assert(first_index(nodes[l]->tabs@, tab_matches(id)) == first_index(back[l]->tabs@, tab_matches(id)));
    }
}

/// Saving a tree and loading what was saved gives the tree back, its tabs
/// cloned: the saved form (as [`PanelTree::to_persisted`] returns it)
/// passes validation exactly when the tree is [`loadable`], and every
/// loaded node is a clone of the saved tree's node at the same index.
pub proof fn law_saved_tree_loads_back<T: Clone>(tree: PanelTree<T>, saved: PersistedPanelTree<T>)
    requires
        saved.version == PANEL_TREE_FORMAT_VERSION,
        saved.next_pane_id == tree.next_pane_id,
        saved.nodes@.len() == tree.nodes@.len(),
        forall|i: int| 0 <= i < tree.nodes@.len() ==> #[trigger] exported_clone(tree.nodes@[i], saved.nodes@[i]),
    ensures
        validate_spec(saved) is Ok <==> loadable(tree),
        forall|i: int|
            0 <= i < tree.nodes@.len() ==> #[trigger] node_cloned(tree.nodes@[i], import_node(saved.nodes@[i])),
{
    let nodes = tree.nodes@;
    let sn = saved.nodes@;
    let next = tree.next_pane_id;
    assert forall|i: int| 0 <= i < nodes.len() implies #[trigger] node_cloned(nodes[i], import_node(sn[i])) by {
        assert(exported_clone(nodes[i], sn[i]));
    }
    assert forall|i: int| 0 <= i < nodes.len() implies (#[trigger] sn[i] is Leaf) == (nodes[i] is Leaf) && (sn[i] is Leaf
        ==> sn[i]->pane == nodes[i]->pane && sn[i]->tabs@.len() == nodes[i]->tabs@.len() && sn[i]->focused
        == nodes[i]->focused && sn[i]->options == nodes[i]->options) by {
        assert(exported_clone(nodes[i], sn[i]));
    }
    // Each node raises no error exactly when it is distinct from the leaves
    // before it and loads apart from its pane bound.
    assert forall|i: int| 0 <= i < nodes.len() implies (#[trigger] node_error(sn, i)) is None <==> (nodes[i] is Leaf ==> (
    !(exists|j: int| 0 <= j < i && (#[trigger] nodes[j]) is Leaf && nodes[j]->pane == nodes[i]->pane) && (if nodes[
        i]->tabs@.len() == 0 {
        nodes[i]->options.persist_when_empty && nodes[i]->focused == 0
    } else {
        nodes[i]->focused < nodes[i]->tabs@.len()
    }))) by {
        if nodes[i] is Leaf {
            let pre = sn.take(i);
            lemma_panes_contain(pre, sn[i]->pane);
            if persisted_panes(pre).contains(sn[i]->pane) {
                let j = choose|j: int| 0 <= j < pre.len() && (#[trigger] pre[j]) is Leaf && pre[j]->pane == sn[i]->pane;
                assert(pre[j] == sn[j]);
                assert(nodes[j] is Leaf);
            }
            if exists|j: int| 0 <= j < i && (#[trigger] nodes[j]) is Leaf && nodes[j]->pane == nodes[i]->pane {
                let j = choose|j: int| 0 <= j < i && (#[trigger] nodes[j]) is Leaf && nodes[j]->pane == nodes[i]->pane;
                assert(pre[j] == sn[j]);
                assert(sn[j] is Leaf);
            }
        }
    }
    lemma_scan_none(sn, 0);
    if validate_spec(saved) is Ok {
        assert(next >= required_next(sn));
        assert(next >= 1);
        if next < u64::MAX {
            lemma_max_pane(sn, next);
        }
        assert forall|i: int, j: int|
            0 <= i < j < nodes.len() && (#[trigger] nodes[i]) is Leaf && (#[trigger] nodes[j]) is Leaf implies nodes[i]->pane
            != nodes[j]->pane by {
            assert(node_error(sn, j) is None);
        }
        assert forall|i: int| 0 <= i < nodes.len() && (#[trigger] nodes[i]) is Leaf implies leaf_loadable(nodes[i], next) by {
            assert(node_error(sn, i) is None);
            assert(sn[i] is Leaf);
        }
    }
    if loadable(tree) {
        if next < u64::MAX {
            lemma_max_pane(sn, next);
        }
        assert forall|i: int| 0 <= i < sn.len() implies (#[trigger] node_error(sn, i)) is None by {
            if nodes[i] is Leaf {
                assert(leaf_loadable(nodes[i], next));
                if exists|j: int| 0 <= j < i && (#[trigger] nodes[j]) is Leaf && nodes[j]->pane == nodes[i]->pane {
                    let j = choose|j: int| 0 <= j < i && (#[trigger] nodes[j]) is Leaf && nodes[j]->pane == nodes[i]->pane;
                    assert(nodes[i]->pane != nodes[j]->pane);
                }
            }
        }
        if next < u64::MAX {
            assert forall|j: int| 0 <= j < sn.len() && (#[trigger] sn[j]) is Leaf implies sn[j]->pane.raw() < next by {
                assert(nodes[j] is Leaf);
                assert(leaf_loadable(nodes[j], next));
            }
        }
    }
}

/// Migrating the legacy save of a tree gives what saving it in the current
/// format gives: the migrated payload `migrated` (as
/// [`PersistedPanelTreeFile::migrate`] builds it from `legacy`) validates
/// exactly when the tree is [`loadable`], and loads back clones of the
/// tree's nodes.
pub proof fn law_legacy_save_migrates<T: Clone>(
    tree: PanelTree<T>,
    legacy: LegacyPersistedPanelTree<T>,
    migrated: PersistedPanelTree<T>,
)
    requires
        legacy.next_pane_id == tree.next_pane_id,
        legacy.nodes@.len() == tree.nodes@.len(),
        forall|i: int| 0 <= i < tree.nodes@.len() ==> #[trigger] legacy_clone(tree.nodes@[i], legacy.nodes@[i]),
        migrated.version == PANEL_TREE_FORMAT_VERSION,
        migrated.next_pane_id == legacy.next_pane_id,
        migrated.nodes@ == legacy.nodes@.map_values(|n: LegacyPersistedNode<T>| migrate_node(n)),
    ensures
        validate_spec(migrated) is Ok <==> loadable(tree),
        forall|i: int|
            0 <= i < tree.nodes@.len() ==> #[trigger] node_cloned(tree.nodes@[i], import_node(migrated.nodes@[i])),
{
    assert forall|i: int| 0 <= i < tree.nodes@.len() implies #[trigger] exported_clone(
        tree.nodes@[i],
        migrated.nodes@[i],
    ) by {
        assert(legacy_clone(tree.nodes@[i], legacy.nodes@[i]));
        assert(migrated.nodes@[i] == migrate_node(legacy.nodes@[i]));
    }
    law_saved_tree_loads_back(tree, migrated);
}

/// A scan that reports an error found it at some node at or after `k`.
proof fn lemma_scan_found<T: Clone>(nodes: Seq<PersistedNode<T>>, k: int)
    requires
        0 <= k,
        scan_errors(nodes, k) is Some,
    ensures
        exists|i: int| k <= i < nodes.len() && #[trigger] node_error(nodes, i) == scan_errors(nodes, k),
    decreases nodes.len() - k,
{
    if node_error(nodes, k) is None {
        lemma_scan_found(nodes, k + 1);
    } else {
        assert(node_error(nodes, k) == scan_errors(nodes, k));
    }
}

/// Each error that validation reports names a real fault of the payload: an
/// empty tree has no nodes; a duplicate identifier belongs to two leaves; an
/// empty leaf is a leaf without tabs that does not persist when empty; a focus
/// out of range is a leaf's focus at or past its tab count (or off 0 for a
/// persistent empty leaf); a next identifier too low is the payload's own,
/// below the reported minimum, which is at least 1 and above every leaf's
/// identifier short of the largest value.
pub proof fn law_validation_errors_name_faults<T: Clone>(p: PersistedPanelTree<T>)
    ensures
        (validate_spec(p) == Err::<(), PersistError>(PersistError::EmptyTree)) <==> p.nodes@.len() == 0,
        validate_spec(p) matches Err(PersistError::DuplicatePaneId(x)) ==> exists|i: int, j: int|
            0 <= i < j < p.nodes@.len() && #[trigger] p.nodes@[i] is Leaf && #[trigger] p.nodes@[j] is Leaf
                && p.nodes@[i]->pane == x && p.nodes@[j]->pane == x,
        validate_spec(p) matches Err(PersistError::EmptyLeaf { pane }) ==> exists|i: int|
            0 <= i < p.nodes@.len() && #[trigger] p.nodes@[i] is Leaf && p.nodes@[i]->pane == pane
                && p.nodes@[i]->tabs@.len() == 0 && !p.nodes@[i]->options.persist_when_empty,
        validate_spec(p) matches Err(PersistError::FocusOutOfRange { pane, focused, tab_count }) ==> exists|i: int|
            0 <= i < p.nodes@.len() && #[trigger] p.nodes@[i] is Leaf && p.nodes@[i]->pane == pane
                && p.nodes@[i]->focused == focused && p.nodes@[i]->tabs@.len() == tab_count && (if tab_count == 0 {
                p.nodes@[i]->options.persist_when_empty && focused != 0
            } else {
                focused >= tab_count
            }),
        validate_spec(p) matches Err(PersistError::NextPaneIdTooLow { next_pane_id, required_minimum }) ==> {
            &&& next_pane_id == p.next_pane_id
            &&& next_pane_id < required_minimum
            &&& required_minimum >= 1
            &&& forall|i: int|
                0 <= i < p.nodes@.len() && #[trigger] p.nodes@[i] is Leaf ==> p.nodes@[i]->pane.raw() < required_minimum
                    || p.nodes@[i]->pane.raw() == u64::MAX
        },
        !(validate_spec(p) matches Err(PersistError::UnsupportedVersion(_))),
{
    let nodes = p.nodes@;
    if nodes.len() > 0 {
        if scan_errors(nodes, 0) is Some {
            lemma_scan_found(nodes, 0);
            let i = choose|i: int| 0 <= i < nodes.len() && #[trigger] node_error(nodes, i) == scan_errors(nodes, 0);
            if let PersistedNode::Leaf { pane, .. } = nodes[i] {
                let pre = nodes.take(i);
                lemma_panes_contain(pre, pane);
                if persisted_panes(pre).contains(pane) {
                    let j = choose|j: int| 0 <= j < pre.len() && (#[trigger] pre[j]) is Leaf && pre[j]->pane == pane;
                    assert(pre[j] == nodes[j]);
                    assert(nodes[j] is Leaf && nodes[i] is Leaf);
                }
            }
        } else {
            let req = required_next(nodes);
            if p.next_pane_id < req {
                let m = max_pane_raw(nodes);
                if m < u64::MAX {
                    lemma_max_pane(nodes, (m + 1) as u64);
                } else {
                    assert forall|i: int| 0 <= i < nodes.len() && #[trigger] nodes[i] is Leaf implies nodes[i]->pane.raw()
                        < req || nodes[i]->pane.raw() == u64::MAX by {}
                }
            }
        }
    }
}

} // verus!
