//! The dock model: panes, their options, and the heap-indexed binary tree
//! that arranges them.
use vstd::prelude::*;

use crate::style::PaneStyleOverride;
use crate::tab::{Tab, tabs_cloned};

verus! {

/// Stable identifier for a pane leaf.
#[derive(Clone, Copy, Debug, PartialEq, Eq, Hash, Structural)]
pub struct PaneId(u64);

impl PaneId {
    /// The raw integer value of this identifier.
    pub closed spec fn raw(self) -> u64 {
        self.0
    }

    /// The identifier whose raw value is `raw`.
    pub closed spec fn with_raw(raw: u64) -> PaneId {
        PaneId(raw)
    }

    pub broadcast proof fn lemma_with_raw(raw: u64)
        ensures
            #[trigger] PaneId::with_raw(raw).raw() == raw,
    {
    }

    /// Create a pane identifier from its raw integer value.
    pub fn from_raw(raw: u64) -> (r: Self)
        ensures
            r == PaneId::with_raw(raw),
            r.raw() == raw,
    {
        PaneId(raw)
    }

    /// Return the raw integer value of this identifier.
    pub fn into_raw(self) -> (r: u64)
        ensures
            r == self.raw(),
    {
        self.0
    }

    /// Two identifiers are the same exactly when their raw values are.
    pub broadcast proof fn lemma_raw_injective(a: PaneId, b: PaneId)
        ensures
            #![trigger a.raw(), b.raw()]
            (a.raw() == b.raw()) == (a == b),
    {
    }
}

/// Controls when a pane's header/tab bar is shown.
#[derive(Clone, Copy, Debug, PartialEq, Eq, Structural)]
pub enum HeaderVisibility {
    /// Always show the header, even for a single tab.
    Always,
    /// Show the header only when the pane holds multiple tabs.
    WhenMultipleTabs,
    /// Never show the header.
    Hidden,
}

/// Direction of a split between two child panes.
#[derive(Clone, Copy, Debug, PartialEq, Eq, Structural)]
pub enum SplitDir {
    /// The two children are placed side-by-side (left | right).
    Horizontal,
    /// The two children are stacked (top / bottom).
    Vertical,
}

/// Which child slot a newly created pane should land in when splitting.
#[derive(Clone, Copy, Debug, PartialEq, Eq, Structural)]
pub enum ChildSide {
    /// Left child (horizontal) or top child (vertical).
    First,
    /// Right child (horizontal) or bottom child (vertical).
    Second,
}

/// Fine-grained permissions for tab merge and directional split drops.
#[derive(Clone, Copy, Debug, PartialEq, Eq, Structural)]
pub struct DropPolicy {
    /// Whether tabs may be merged into this pane.
    pub allow_merge: bool,
    /// Whether a drop may create a left split relative to this pane.
    pub allow_split_left: bool,
    /// Whether a drop may create a right split relative to this pane.
    pub allow_split_right: bool,
    /// Whether a drop may create a top split relative to this pane.
    pub allow_split_top: bool,
    /// Whether a drop may create a bottom split relative to this pane.
    pub allow_split_bottom: bool,
}

/// The permission of `policy` that governs a split in direction `dir` with the
/// new pane on `side`.
pub open spec fn allows_split_spec(policy: DropPolicy, dir: SplitDir, side: ChildSide) -> bool {
    match (dir, side) {
        (SplitDir::Horizontal, ChildSide::First) => policy.allow_split_left,
        (SplitDir::Horizontal, ChildSide::Second) => policy.allow_split_right,
        (SplitDir::Vertical, ChildSide::First) => policy.allow_split_top,
        (SplitDir::Vertical, ChildSide::Second) => policy.allow_split_bottom,
    }
}

impl DropPolicy {
    /// Every drop is permitted.
    pub fn all() -> (r: Self)
        ensures
            r == (DropPolicy {
                allow_merge: true,
                allow_split_left: true,
                allow_split_right: true,
                allow_split_top: true,
                allow_split_bottom: true,
            }),
    {
        DropPolicy {
            allow_merge: true,
            allow_split_left: true,
            allow_split_right: true,
            allow_split_top: true,
            allow_split_bottom: true,
        }
    }

    /// Only merging into the pane is permitted.
    pub fn merge_only() -> (r: Self)
        ensures
            r == (DropPolicy {
                allow_merge: true,
                allow_split_left: false,
                allow_split_right: false,
                allow_split_top: false,
                allow_split_bottom: false,
            }),
    {
        DropPolicy {
            allow_merge: true,
            allow_split_left: false,
            allow_split_right: false,
            allow_split_top: false,
            allow_split_bottom: false,
        }
    }

    /// No drop is permitted.
    pub fn none() -> (r: Self)
        ensures
            r == (DropPolicy {
                allow_merge: false,
                allow_split_left: false,
                allow_split_right: false,
                allow_split_top: false,
                allow_split_bottom: false,
            }),
    {
        DropPolicy {
            allow_merge: false,
            allow_split_left: false,
            allow_split_right: false,
            allow_split_top: false,
            allow_split_bottom: false,
        }
    }

    /// Whether a split in direction `dir` with the new pane on `side` is
    /// permitted.
    pub fn allows_split(self, dir: SplitDir, side: ChildSide) -> (r: bool)
        ensures
            r == allows_split_spec(self, dir, side),
    {
        match (dir, side) {
            (SplitDir::Horizontal, ChildSide::First) => self.allow_split_left,
            (SplitDir::Horizontal, ChildSide::Second) => self.allow_split_right,
            (SplitDir::Vertical, ChildSide::First) => self.allow_split_top,
            (SplitDir::Vertical, ChildSide::Second) => self.allow_split_bottom,
        }
    }
}

impl Default for DropPolicy {
    fn default() -> (r: Self)
        ensures
            r == (DropPolicy {
                allow_merge: true,
                allow_split_left: true,
                allow_split_right: true,
                allow_split_top: true,
                allow_split_bottom: true,
            }),
    {
        Self::all()
    }
}

/// Stable root-edge placement for panes that should keep a semantic location.
#[derive(Clone, Copy, Debug, PartialEq, Eq, Hash, Structural)]
pub enum PaneAnchor {
    Left,
    Right,
    Top,
    Bottom,
    Center,
}

/// The split that places a pane on the root edge named by `anchor`; the
/// center anchor has none.
pub open spec fn anchor_split_spec(anchor: PaneAnchor) -> Option<(SplitDir, ChildSide)> {
    match anchor {
        PaneAnchor::Left => Some((SplitDir::Horizontal, ChildSide::First)),
        PaneAnchor::Right => Some((SplitDir::Horizontal, ChildSide::Second)),
        PaneAnchor::Top => Some((SplitDir::Vertical, ChildSide::First)),
        PaneAnchor::Bottom => Some((SplitDir::Vertical, ChildSide::Second)),
        PaneAnchor::Center => None,
    }
}

impl PaneAnchor {
    /// The split direction and child side that put a pane on this edge.
    pub fn split_dir_and_side(self) -> (r: Option<(SplitDir, ChildSide)>)
        ensures
            r == anchor_split_spec(self),
    {
        match self {
            PaneAnchor::Left => Some((SplitDir::Horizontal, ChildSide::First)),
            PaneAnchor::Right => Some((SplitDir::Horizontal, ChildSide::Second)),
            PaneAnchor::Top => Some((SplitDir::Vertical, ChildSide::First)),
            PaneAnchor::Bottom => Some((SplitDir::Vertical, ChildSide::Second)),
            PaneAnchor::Center => None,
        }
    }
}

/// Semantic pane role for higher-level policy targeting.
#[derive(Clone, Copy, Debug, PartialEq, Eq, Hash, Structural)]
pub enum PaneRole {
    Sidebar,
    Editor,
    Inspector,
    Terminal,
    BottomPanel,
    Custom(u64),
}

/// Behaviour flags for a pane leaf.
#[derive(Clone, Copy, Debug, PartialEq)]
pub struct PaneOptions {
    /// Header/tab bar visibility policy.
    pub header_visibility: HeaderVisibility,
    /// Whether the pane may be collapsed/expanded from the header UI.
    pub allow_collapse: bool,
    /// Whether tabs may be reordered within this pane. On its own it lets a
    /// tab be dragged only to another place in this pane's header.
    pub allow_tab_reorder: bool,
    /// Whether tabs in this pane may be dragged out of it: into another pane,
    /// or onto an edge where a new pane is made for them.
    pub allow_tab_drag_out: bool,
    /// Whether resize-handle drags that affect this pane are allowed.
    pub allow_resize: bool,
    /// Whether drag/drop layout mutations are allowed for this pane.
    pub drop_policy: DropPolicy,
    /// Whether structural layout mutations should be frozen for this pane.
    pub lock_layout: bool,
    /// Optional semantic root-edge placement for this pane.
    pub anchor: Option<PaneAnchor>,
    /// Optional semantic role for higher-level app policy and role-based tab targeting.
    pub role: Option<PaneRole>,
    /// Whether an empty pane should stay in the layout instead of collapsing.
    pub persist_when_empty: bool,
    /// Whether the pane content background should be painted by the dock system.
    pub paint_content_bg: bool,
    /// Optional visual overrides for this pane.
    pub style_override: Option<PaneStyleOverride>,
}

/// The options a pane gets when nothing else is asked for.
pub open spec fn default_options() -> PaneOptions {
    PaneOptions {
        header_visibility: HeaderVisibility::Always,
        allow_collapse: true,
        allow_tab_reorder: true,
        allow_tab_drag_out: true,
        allow_resize: true,
        drop_policy: DropPolicy {
            allow_merge: true,
            allow_split_left: true,
            allow_split_right: true,
            allow_split_top: true,
            allow_split_bottom: true,
        },
        lock_layout: false,
        anchor: None,
        role: None,
        persist_when_empty: false,
        paint_content_bg: true,
        style_override: None,
    }
}

impl Default for PaneOptions {
    fn default() -> (r: Self)
        ensures
            r == default_options(),
    {
        PaneOptions {
            header_visibility: HeaderVisibility::Always,
            allow_collapse: true,
            allow_tab_reorder: true,
            allow_tab_drag_out: true,
            allow_resize: true,
            drop_policy: DropPolicy::all(),
            lock_layout: false,
            anchor: None,
            role: None,
            persist_when_empty: false,
            paint_content_bg: true,
            style_override: None,
        }
    }
}

/// The bit pattern of the `f32` value one half, the ratio of a fresh split.
pub const HALF_RATIO: u32 = 0x3F00_0000u32;

/// A single node in the flat-array binary tree.
#[derive(Debug)]
pub enum Node<T: Clone + 'static> {
    /// Padding slot — exists only to keep the array a complete binary tree shape.
    Empty,
    /// An internal node that divides its rectangle between two children.
    Split {
        dir: SplitDir,
        /// Bit pattern of the `f32` fraction `[0, 1]` of the rectangle given to
        /// the *first* child (left for horizontal, top for vertical).
        ratio: u32,
    },
    /// A leaf node containing zero or more tabs.
    Leaf {
        /// Stable identifier for this pane.
        pane: PaneId,
        tabs: Vec<Tab<T>>,
        /// Index into `tabs` of the currently focused tab.
        focused: usize,
        /// Behaviour flags for this pane.
        options: PaneOptions,
        /// Whether the pane is collapsed to a strip along its split axis.
        collapsed: bool,
    },
}

/// `b` is a copy of `a` whose tab identifiers came from cloning.
pub open spec fn node_cloned<T: Clone>(a: Node<T>, b: Node<T>) -> bool {
    match (a, b) {
        (Node::Empty, Node::Empty) => true,
        (Node::Split { dir: d1, ratio: r1 }, Node::Split { dir: d2, ratio: r2 }) => d1 == d2 && r1 == r2,
        (
            Node::Leaf { pane: p1, tabs: t1, focused: f1, options: o1, collapsed: c1 },
            Node::Leaf { pane: p2, tabs: t2, focused: f2, options: o2, collapsed: c2 },
        ) => p1 == p2 && tabs_cloned(t1@, t2@) && f1 == f2 && o1 == o2 && c1 == c2,
        _ => false,
    }
}

impl<T: Clone + 'static> Clone for Node<T> {
    fn clone(&self) -> (r: Self)
        ensures
            node_cloned(*self, r),
    {
        match self {
            Node::Empty => Node::Empty,
            Node::Split { dir, ratio } => Node::Split { dir: *dir, ratio: *ratio },
            Node::Leaf { pane, tabs, focused, options, collapsed } => Node::Leaf {
                pane: *pane,
                tabs: crate::tab::clone_tabs(tabs),
                focused: *focused,
                options: *options,
                collapsed: *collapsed,
            },
        }
    }
}

/// The panel layout tree — a binary tree stored as a flat heap-indexed array.
///
/// Index arithmetic (same as a binary heap):
/// - Root: `0`
/// - Left child of `i`: `2*i + 1`
/// - Right child of `i`: `2*i + 2`
/// - Parent of `i` (for `i > 0`): `(i - 1) / 2`
#[derive(Debug)]
pub struct PanelTree<T: Clone + 'static> {
    pub nodes: Vec<Node<T>>,
    pub next_pane_id: u64,
}

/// `b` holds a clone of each node of `a`, at the same index, and the same
/// next pane identifier.
pub open spec fn tree_cloned<T: Clone>(a: PanelTree<T>, b: PanelTree<T>) -> bool {
    &&& b.next_pane_id == a.next_pane_id
    &&& b.nodes@.len() == a.nodes@.len()
    &&& forall|i: int| 0 <= i < a.nodes@.len() ==> #[trigger] node_cloned(a.nodes@[i], b.nodes@[i])
}

impl<T: Clone + 'static> Clone for PanelTree<T> {
    fn clone(&self) -> (r: Self)
        ensures
            tree_cloned(*self, r),
    {
        let mut nodes: Vec<Node<T>> = Vec::new();
        let mut i: usize = 0;
        while i < self.nodes.len()
            invariant
                i <= self.nodes@.len(),
                nodes@.len() == i,
                forall|j: int| 0 <= j < i ==> #[trigger] node_cloned(self.nodes@[j], nodes@[j]),
            decreases self.nodes.len() - i,
        {
            nodes.push(self.nodes[i].clone());
            i = i + 1;
        }
        PanelTree { nodes, next_pane_id: self.next_pane_id }
    }
}

} // verus!

verus! {

/// Builder for constructing a pane with explicit tabs, focus, and options.
#[derive(Debug)]
pub struct PaneBuilder<T: Clone + 'static> {
    tabs: Vec<Tab<T>>,
    focused: usize,
    options: PaneOptions,
    collapsed: bool,
}

impl<T: Clone + 'static> Clone for PaneBuilder<T> {
    /// A builder with clones of this builder's tabs and the same focus,
    /// options and collapsed state.
    fn clone(&self) -> (r: Self)
        ensures
            tabs_cloned(self.tab_list(), r.tab_list()),
            r.focus() == self.focus(),
            r.opts() == self.opts(),
            r.starts_collapsed() == self.starts_collapsed(),
    {
        proof {
            use_type_invariant(self);
        }
        PaneBuilder {
            tabs: crate::tab::clone_tabs(&self.tabs),
            focused: self.focused,
            options: self.options,
            collapsed: self.collapsed,
        }
    }
}

impl<T: Clone + 'static> PaneBuilder<T> {
    /// A builder always holds at least one tab and focuses one of them.
    #[verifier::type_invariant]
    pub closed spec fn valid(self) -> bool {
        0 < self.tabs@.len() && self.focused < self.tabs@.len()
    }

    pub closed spec fn tab_list(self) -> Seq<Tab<T>> {
        self.tabs@
    }

    pub closed spec fn focus(self) -> usize {
        self.focused
    }

    pub closed spec fn opts(self) -> PaneOptions {
        self.options
    }

    pub closed spec fn starts_collapsed(self) -> bool {
        self.collapsed
    }

    /// The leaf this builder produces under pane identifier `pane`.
    pub closed spec fn built(self, pane: PaneId) -> Node<T> {
        Node::Leaf { pane, tabs: self.tabs, focused: self.focused, options: self.options, collapsed: self.collapsed }
    }

    /// What the leaf built from `b` holds.
    pub broadcast proof fn lemma_built(b: PaneBuilder<T>, pane: PaneId)
        ensures
            #[trigger] b.built(pane) is Leaf,
            b.built(pane)->pane == pane,
            b.built(pane)->tabs@ == b.tab_list(),
            b.built(pane)->focused == b.focus(),
            b.built(pane)->options == b.opts(),
            b.built(pane)->collapsed == b.starts_collapsed(),
    {
    }

    /// Start a pane builder with a single initial tab.
    pub fn new(tab: Tab<T>) -> (r: Self)
        ensures
            r.tab_list() == seq![tab],
            r.focus() == 0,
            r.opts() == default_options(),
            !r.starts_collapsed(),
    {
        let mut tabs = Vec::new();
        tabs.push(tab);
        PaneBuilder { tabs, focused: 0, options: PaneOptions::default(), collapsed: false }
    }

    /// Replace the builder's tab list, keeping the focus in range.
    pub fn with_tabs(self, tabs: Vec<Tab<T>>) -> (r: Self)
        requires
            tabs@.len() > 0,
        ensures
            r.tab_list() == tabs@,
            r.focus() == (if self.focus() < tabs@.len() { self.focus() as int } else { tabs@.len() - 1 }),
            r.opts() == self.opts(),
            r.starts_collapsed() == self.starts_collapsed(),
    {
        let last = tabs.len() - 1;
        let focused = if self.focused < last { self.focused } else { last };
        PaneBuilder { tabs, focused, options: self.options, collapsed: self.collapsed }
    }

    /// Append a tab to the pane being built.
    pub fn push_tab(self, tab: Tab<T>) -> (r: Self)
        ensures
            r.tab_list() == self.tab_list().push(tab),
            r.focus() == self.focus(),
            r.opts() == self.opts(),
            r.starts_collapsed() == self.starts_collapsed(),
    {
        proof {
            use_type_invariant(&self);
        }
        let PaneBuilder { mut tabs, focused, options, collapsed } = self;
        tabs.push(tab);
        PaneBuilder { tabs, focused, options, collapsed }
    }

    /// Set the initially focused tab index.
    pub fn with_focused(self, focused: usize) -> (r: Self)
        requires
            focused < self.tab_list().len(),
        ensures
            r.tab_list() == self.tab_list(),
            r.focus() == focused,
            r.opts() == self.opts(),
            r.starts_collapsed() == self.starts_collapsed(),
    {
        let mut s = self;
        s.focused = focused;
        s
    }

    /// Replace the full options payload for the pane being built.
    pub fn with_options(self, options: PaneOptions) -> (r: Self)
        ensures
            r.tab_list() == self.tab_list(),
            r.focus() == self.focus(),
            r.opts() == options,
            r.starts_collapsed() == self.starts_collapsed(),
    {
        proof {
            use_type_invariant(&self);
        }
        let mut s = self;
        s.options = options;
        s
    }

    /// Assign a root-edge anchor to the pane being built.
    pub fn with_anchor(self, anchor: PaneAnchor) -> (r: Self)
        ensures
            r.tab_list() == self.tab_list(),
            r.focus() == self.focus(),
            r.opts() == (PaneOptions { anchor: Some(anchor), ..self.opts() }),
            r.starts_collapsed() == self.starts_collapsed(),
    {
        proof {
            use_type_invariant(&self);
        }
        let mut s = self;
        s.options.anchor = Some(anchor);
        s
    }

    /// Assign a semantic role to the pane being built.
    pub fn with_role(self, role: PaneRole) -> (r: Self)
        ensures
            r.tab_list() == self.tab_list(),
            r.focus() == self.focus(),
            r.opts() == (PaneOptions { role: Some(role), ..self.opts() }),
            r.starts_collapsed() == self.starts_collapsed(),
    {
        proof {
            use_type_invariant(&self);
        }
        let mut s = self;
        s.options.role = Some(role);
        s
    }

    /// Set the initial collapsed state for the pane being built.
    pub fn with_collapsed(self, collapsed: bool) -> (r: Self)
        ensures
            r.tab_list() == self.tab_list(),
            r.focus() == self.focus(),
            r.opts() == self.opts(),
            r.starts_collapsed() == collapsed,
    {
        proof {
            use_type_invariant(&self);
        }
        let mut s = self;
        s.collapsed = collapsed;
        s
    }

    /// Build the leaf under the given pane identifier.
    pub(crate) fn build(self, pane: PaneId) -> (r: Node<T>)
        ensures
            r == self.built(pane),
            r->tabs@.len() > 0,
            r->focused < r->tabs@.len(),
    {
        proof {
            use_type_invariant(&self);
        }
        Node::Leaf { pane, tabs: self.tabs, focused: self.focused, options: self.options, collapsed: self.collapsed }
    }

    /// The leaf this builder produces under pane identifier `pane` once its
    /// options are replaced by `options`.
    pub closed spec fn built_with_options(self, pane: PaneId, options: PaneOptions) -> Node<T> {
        Node::Leaf { pane, tabs: self.tabs, focused: self.focused, options, collapsed: self.collapsed }
    }

    /// What the leaf built from `b` with `options` holds.
    pub broadcast proof fn lemma_built_with_options(b: PaneBuilder<T>, pane: PaneId, options: PaneOptions)
        ensures
            #[trigger] b.built_with_options(pane, options) is Leaf,
            b.built_with_options(pane, options)->pane == pane,
            b.built_with_options(pane, options)->tabs@ == b.tab_list(),
            b.built_with_options(pane, options)->focused == b.focus(),
            b.built_with_options(pane, options)->options == options,
            b.built_with_options(pane, options)->collapsed == b.starts_collapsed(),
    {
    }

    /// A builder with the given options replaced, used by the anchor paths.
    pub(crate) fn set_options(&mut self, options: PaneOptions)
        ensures
            forall|p: PaneId| #[trigger] final(self).built(p) == old(self).built_with_options(p, options),
            final(self).tab_list() == old(self).tab_list(),
            final(self).focus() == old(self).focus(),
            final(self).opts() == options,
            final(self).starts_collapsed() == old(self).starts_collapsed(),
    {
        proof {
            use_type_invariant(&*self);
        }
        self.options = options;
    }

    pub(crate) fn options_value(&self) -> (r: PaneOptions)
        ensures
            r == self.opts(),
    {
        self.options
    }
}

} // verus!
