//! Caller-provided menu entries, open behaviors, and what one frame of the
//! panel reports back.
use vstd::prelude::*;
use vstd::string::*;

use crate::tab::Tab;
use crate::tree::PaneId;

verus! {

/// Built-in behavior for resolving add/open actions when a tab with the same
/// identifier may already exist.
#[derive(Clone, Copy, Debug, PartialEq, Eq, Structural)]
pub enum OpenBehavior {
    /// Always insert a new tab.
    AllowDuplicate,
    /// Focus the first existing tab with the identifier anywhere in the tree.
    FocusExisting,
    /// Focus the first tab with the identifier in the target pane when that
    /// pane holds one, whatever other panes hold; otherwise insert.
    FocusExistingInPane,
}

/// A caller-provided entry shown in built-in add-tab and split-here menus.
#[derive(Clone, Debug)]
pub struct AddTabEntry<T: Clone + 'static> {
    pub title: String,
    pub tab: Tab<T>,
    pub open_behavior: OpenBehavior,
}

impl<T: Clone + 'static> AddTabEntry<T> {
    /// An entry with the given menu title and tab, focusing an existing tab
    /// with the same identifier when opened.
    pub fn new(title: &str, tab: Tab<T>) -> (r: Self)
        ensures
            r.title@ == title@,
            r.tab == tab,
            r.open_behavior == OpenBehavior::FocusExisting,
    {
        AddTabEntry { title: String::from_str(title), tab, open_behavior: OpenBehavior::FocusExisting }
    }

    pub fn with_open_behavior(self, open_behavior: OpenBehavior) -> (r: Self)
        ensures
            r.title == self.title,
            r.tab == self.tab,
            r.open_behavior == open_behavior,
    {
        AddTabEntry { open_behavior, ..self }
    }
}

/// A caller-provided pane action shown in the built-in pane menu.
#[derive(Clone, Debug)]
pub struct PaneMenuAction {
    pub id: String,
    pub title: String,
}

impl PaneMenuAction {
    pub fn new(id: &str, title: &str) -> (r: Self)
        ensures
            r.id@ == id@,
            r.title@ == title@,
    {
        PaneMenuAction { id: String::from_str(id), title: String::from_str(title) }
    }
}

/// A custom pane action invoked from the built-in pane menu during a frame.
#[derive(Clone, Debug, PartialEq, Eq)]
pub struct PaneActionInvocation {
    pub pane_id: PaneId,
    pub action_id: String,
}

/// Mutations emitted by a single frame of the panel.
#[derive(Debug)]
pub struct PanelOutput<T> {
    pub closed_tabs: Vec<T>,
    pub pane_actions: Vec<PaneActionInvocation>,
}

impl<T> Default for PanelOutput<T> {
    fn default() -> (r: Self)
        ensures
            r.closed_tabs@.len() == 0,
            r.pane_actions@.len() == 0,
    {
        PanelOutput { closed_tabs: Vec::new(), pane_actions: Vec::new() }
    }
}

} // verus!
