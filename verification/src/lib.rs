//! # grimdock
//!
//! The model of an IDE-style dock: panes split, resized and rearranged by
//! dragging tabs, kept in a heap-indexed binary tree.

pub mod style;
pub mod tab;
pub mod tree;
pub mod model;
pub mod relocate;

pub mod queries;
pub mod restructure;
pub mod edits;
pub mod anchors;
pub mod pane;
pub mod persistence;
pub mod menu;
pub mod header;
pub mod dnd;
pub mod laws;

pub use menu::{AddTabEntry, OpenBehavior, PaneActionInvocation, PaneMenuAction, PanelOutput};
pub use pane::{Pane, PaneMut};
pub use style::{
    ContentStyle, HandleStyle, HeaderButtonStyle, HeaderStyle, PaneStyleOverride, TabStateStyle, TabStyle,
    TabStyleOverride,
};
pub use tab::{Tab, TabDropPolicy, TabIcon};
pub use tree::{
    ChildSide, DropPolicy, HeaderVisibility, Node, PaneAnchor, PaneBuilder, PaneId, PaneOptions, PaneRole, PanelTree,
    SplitDir,
};
