//! Tabs, their leading icons and their drop constraints.
use vstd::prelude::*;
use vstd::string::*;

use crate::style::TabStyleOverride;
use crate::tree::{PaneId, PaneRole};

verus! {

#[verifier::external_type_specification]
#[verifier::external_body]
pub struct ExTextureId(egui::TextureId);

#[verifier::external_type_specification]
#[verifier::external_body]
pub struct ExVec2(egui::Vec2);

/// Per-tab drop constraints evaluated against the destination pane.
#[derive(Debug, PartialEq, Eq)]
pub struct TabDropPolicy {
    /// If set, this tab may only be dropped into the given pane.
    pub locked_to_pane: Option<PaneId>,
    /// If set, this tab may only be dropped into panes with the given role.
    pub locked_to_role: Option<PaneRole>,
    /// If set, this tab may only be dropped into panes in this allow-list.
    pub allowed_panes: Option<Vec<PaneId>>,
    /// If set, this tab may only be dropped into panes with roles in this allow-list.
    pub allowed_roles: Option<Vec<PaneRole>>,
    /// Panes in this block-list reject this tab even if otherwise allowed.
    pub blocked_panes: Vec<PaneId>,
    /// Roles in this block-list reject this tab even if otherwise allowed.
    pub blocked_roles: Vec<PaneRole>,
}

/// Whether a pane with identity `pane` and role `role` may receive a tab with
/// drop policy `p`.
///
/// Every constraint that is set must hold together: a pane lock names the one
/// pane allowed, a role lock the one role allowed, each allow-list that is set
/// must hold the target, and a target on either block-list is refused even when
/// a lock or an allow-list names it.
pub open spec fn allows_target_spec(p: TabDropPolicy, pane: PaneId, role: Option<PaneRole>) -> bool {
    &&& (p.locked_to_pane matches Some(locked) ==> locked == pane)
    &&& (p.locked_to_role matches Some(locked) ==> role == Some(locked))
    &&& (p.allowed_panes matches Some(allowed) ==> allowed@.contains(pane))
    &&& (p.allowed_roles matches Some(allowed) ==> (role matches Some(r) && allowed@.contains(r)))
    &&& !p.blocked_panes@.contains(pane)
    &&& !(role matches Some(r) && p.blocked_roles@.contains(r))
}

pub fn contains_pane(list: &Vec<PaneId>, pane: PaneId) -> (r: bool)
    ensures
        r == list@.contains(pane),
{
    let mut i: usize = 0;
    while i < list.len()
        invariant
            i <= list.len(),
            forall|j: int| 0 <= j < i ==> list@[j] != pane,
        decreases list.len() - i,
    {
        if list[i] == pane {
            assert(list@[i as int] == pane);
            return true;
        }
        i = i + 1;
    }
    false
}

pub fn contains_role(list: &Vec<PaneRole>, role: PaneRole) -> (r: bool)
    ensures
        r == list@.contains(role),
{
    let mut i: usize = 0;
    while i < list.len()
        invariant
            i <= list.len(),
            forall|j: int| 0 <= j < i ==> list@[j] != role,
        decreases list.len() - i,
    {
        if list[i] == role {
            assert(list@[i as int] == role);
            return true;
        }
        i = i + 1;
    }
    false
}

fn copy_panes(list: &Vec<PaneId>) -> (r: Vec<PaneId>)
    ensures
        r@ == list@,
{
    let mut out: Vec<PaneId> = Vec::new();
    let mut i: usize = 0;
    while i < list.len()
        invariant
            i <= list.len(),
            out@ == list@.take(i as int),
        decreases list.len() - i,
    {
        out.push(list[i]);
        i = i + 1;
        assert(out@ =~= list@.take(i as int));
    }
    assert(list@.take(list.len() as int) =~= list@);
    out
}

fn copy_roles(list: &Vec<PaneRole>) -> (r: Vec<PaneRole>)
    ensures
        r@ == list@,
{
    let mut out: Vec<PaneRole> = Vec::new();
    let mut i: usize = 0;
    while i < list.len()
        invariant
            i <= list.len(),
            out@ == list@.take(i as int),
        decreases list.len() - i,
    {
        out.push(list[i]);
        i = i + 1;
        assert(out@ =~= list@.take(i as int));
    }
    assert(list@.take(list.len() as int) =~= list@);
    out
}

/// `b` holds the same constraints as `a`.
pub open spec fn same_policy(a: TabDropPolicy, b: TabDropPolicy) -> bool {
    &&& a.locked_to_pane == b.locked_to_pane
    &&& a.locked_to_role == b.locked_to_role
    &&& a.allowed_panes is Some == b.allowed_panes is Some
    &&& (a.allowed_panes is Some ==> a.allowed_panes->0@ == b.allowed_panes->0@)
    &&& a.allowed_roles is Some == b.allowed_roles is Some
    &&& (a.allowed_roles is Some ==> a.allowed_roles->0@ == b.allowed_roles->0@)
    &&& a.blocked_panes@ == b.blocked_panes@
    &&& a.blocked_roles@ == b.blocked_roles@
}

impl Clone for TabDropPolicy {
    fn clone(&self) -> (r: Self)
        ensures
            same_policy(*self, r),
    {
        let allowed_panes = match &self.allowed_panes {
            Some(v) => Some(copy_panes(v)),
            None => None,
        };
        let allowed_roles = match &self.allowed_roles {
            Some(v) => Some(copy_roles(v)),
            None => None,
        };
        let r = TabDropPolicy {
            locked_to_pane: self.locked_to_pane,
            locked_to_role: self.locked_to_role,
            allowed_panes,
            allowed_roles,
            blocked_panes: copy_panes(&self.blocked_panes),
            blocked_roles: copy_roles(&self.blocked_roles),
        };
        proof {
            if self.allowed_panes is Some {
                assert(r.allowed_panes->0@ =~= self.allowed_panes->0@);
            }
            if self.allowed_roles is Some {
                assert(r.allowed_roles->0@ =~= self.allowed_roles->0@);
            }
            assert(r.blocked_panes@ =~= self.blocked_panes@);
            assert(r.blocked_roles@ =~= self.blocked_roles@);
        }
        r
    }
}

/// The policy sets no lock, no allow-list and empty block-lists.
pub open spec fn unconstrained(p: TabDropPolicy) -> bool {
    &&& p.locked_to_pane is None
    &&& p.locked_to_role is None
    &&& p.allowed_panes is None
    &&& p.allowed_roles is None
    &&& p.blocked_panes@.len() == 0
    &&& p.blocked_roles@.len() == 0
}

impl TabDropPolicy {
    /// Return whether this tab may be dropped into the given pane target.
    ///
    /// Pane identity and semantic role are evaluated together: a lock narrows
    /// the panes that may receive the tab, and the block-lists still refuse a
    /// target that a lock or an allow-list names.
    pub fn allows_target(&self, pane_id: PaneId, role: Option<PaneRole>) -> (r: bool)
        ensures
            r == allows_target_spec(*self, pane_id, role),
    {
        if let Some(locked_to_pane) = self.locked_to_pane {
            if locked_to_pane != pane_id {
                return false;
            }
        }
        if let Some(locked_to_role) = self.locked_to_role {
            let ok = match role {
                Some(r) => r == locked_to_role,
                None => false,
            };
            if !ok {
                return false;
            }
        }
        if let Some(allowed_panes) = &self.allowed_panes {
            if !contains_pane(allowed_panes, pane_id) {
                return false;
            }
        }
        if let Some(allowed_roles) = &self.allowed_roles {
            let ok = match role {
                Some(r) => contains_role(allowed_roles, r),
                None => false,
            };
            if !ok {
                return false;
            }
        }
        if contains_pane(&self.blocked_panes, pane_id) {
            return false;
        }
        match role {
            Some(r) => !contains_role(&self.blocked_roles, r),
            None => true,
        }
    }
}

impl Default for TabDropPolicy {
    fn default() -> (r: Self)
        ensures
            unconstrained(r),
    {
        TabDropPolicy {
            locked_to_pane: None,
            locked_to_role: None,
            allowed_panes: None,
            allowed_roles: None,
            blocked_panes: Vec::new(),
            blocked_roles: Vec::new(),
        }
    }
}

/// Leading tab icon content rendered before the tab title.
#[derive(Debug, PartialEq)]
pub enum TabIcon {
    /// Short text marker such as ASCII tokens or compact glyphs.
    Text(String),
    /// Texture-backed image icon with an explicit display size.
    Texture { texture_id: egui::TextureId, size: egui::Vec2 },
}

impl Clone for TabIcon {
    fn clone(&self) -> (r: Self)
        ensures
            r == *self,
    {
        match self {
            TabIcon::Text(text) => TabIcon::Text(text.clone()),
            TabIcon::Texture { texture_id, size } => TabIcon::Texture { texture_id: *texture_id, size: *size },
        }
    }
}

/// A single tab that lives inside a pane.
///
/// `T` is the caller-supplied identifier.
#[derive(Debug, PartialEq)]
pub struct Tab<T: Clone + 'static> {
    pub title: String,
    pub id: T,
    /// Optional leading icon rendered before the title in tab headers.
    pub icon: Option<TabIcon>,
    /// Whether the tab may be dragged to another pane.
    pub draggable: bool,
    /// Per-tab destination constraints evaluated during drag-and-drop.
    pub drop_policy: TabDropPolicy,
    /// Whether the tab may be closed from the header UI.
    pub closable: bool,
    /// Optional visual overrides for this tab.
    pub style_override: Option<TabStyleOverride>,
}

/// `b` is a copy of `a` whose identifier came from cloning `a`'s identifier.
pub open spec fn tab_cloned<T: Clone>(a: Tab<T>, b: Tab<T>) -> bool {
    &&& b.title@ == a.title@
    &&& cloned::<T>(a.id, b.id)
    &&& b.icon == a.icon
    &&& b.draggable == a.draggable
    &&& same_policy(a.drop_policy, b.drop_policy)
    &&& b.closable == a.closable
    &&& b.style_override == a.style_override
}

/// Every tab of `b` is a clone of the tab of `a` at the same position.
pub open spec fn tabs_cloned<T: Clone>(a: Seq<Tab<T>>, b: Seq<Tab<T>>) -> bool {
    &&& a.len() == b.len()
    &&& forall|i: int| 0 <= i < a.len() ==> #[trigger] tab_cloned(a[i], b[i])
}

impl<T: Clone + 'static> Clone for Tab<T> {
    fn clone(&self) -> (r: Self)
        ensures
            tab_cloned(*self, r),
    {
        Tab {
            title: self.title.clone(),
            id: self.id.clone(),
            icon: match &self.icon {
                Some(icon) => Some(icon.clone()),
                None => None,
            },
            draggable: self.draggable,
            drop_policy: self.drop_policy.clone(),
            closable: self.closable,
            style_override: self.style_override,
        }
    }
}

/// Clone every tab of `tabs`, keeping the order.
pub fn clone_tabs<T: Clone + 'static>(tabs: &Vec<Tab<T>>) -> (r: Vec<Tab<T>>)
    ensures
        tabs_cloned(tabs@, r@),
{
    let mut out: Vec<Tab<T>> = Vec::new();
    let mut i: usize = 0;
    while i < tabs.len()
        invariant
            i <= tabs.len(),
            out@.len() == i,
            forall|j: int| 0 <= j < i ==> #[trigger] tab_cloned(tabs@[j], out@[j]),
        decreases tabs.len() - i,
    {
        let t = tabs[i].clone();
        out.push(t);
        i = i + 1;
    }
    out
}

impl<T: Clone + 'static> Tab<T> {
    /// Create a new tab with a title and caller-owned identifier: draggable,
    /// not closable, without icon, override or drop constraint.
    pub fn new(title: &str, id: T) -> (r: Self)
        ensures
            r.title@ == title@,
            r.id == id,
            r.icon is None,
            r.draggable,
            unconstrained(r.drop_policy),
            !r.closable,
            r.style_override is None,
    {
        Tab {
            title: String::from_str(title),
            id,
            icon: None,
            draggable: true,
            drop_policy: TabDropPolicy::default(),
            closable: false,
            style_override: None,
        }
    }

    /// Set a short text marker as the leading tab visual.
    pub fn with_leading_visual(self, leading_visual: &str) -> (r: Self)
        ensures
            r.icon matches Some(TabIcon::Text(text)) && text@ == leading_visual@,
            r.title == self.title,
            r.id == self.id,
            r.draggable == self.draggable,
            r.drop_policy == self.drop_policy,
            r.closable == self.closable,
            r.style_override == self.style_override,
    {
        Tab { icon: Some(TabIcon::Text(String::from_str(leading_visual))), ..self }
    }

    /// Set the leading icon payload directly.
    pub fn with_icon(self, icon: TabIcon) -> (r: Self)
        ensures
            r == (Tab { icon: Some(icon), ..self }),
    {
        Tab { icon: Some(icon), ..self }
    }

    /// Set a texture-backed leading icon.
    pub fn with_icon_texture(self, texture_id: egui::TextureId, size: egui::Vec2) -> (r: Self)
        ensures
            r == (Tab { icon: Some(TabIcon::Texture { texture_id, size }), ..self }),
    {
        Tab { icon: Some(TabIcon::Texture { texture_id, size }), ..self }
    }

    /// Control whether this tab may be dragged at all.
    pub fn with_draggable(self, draggable: bool) -> (r: Self)
        ensures
            r == (Tab { draggable, ..self }),
    {
        Tab { draggable, ..self }
    }

    /// Replace the full tab drop-policy payload.
    pub fn with_drop_policy(self, drop_policy: TabDropPolicy) -> (r: Self)
        ensures
            r == (Tab { drop_policy, ..self }),
    {
        Tab { drop_policy, ..self }
    }

    /// Lock the tab to a specific pane instance.
    pub fn with_locked_pane(self, pane_id: PaneId) -> (r: Self)
        ensures
            r == (Tab { drop_policy: TabDropPolicy { locked_to_pane: Some(pane_id), ..self.drop_policy }, ..self }),
    {
        let mut s = self;
        s.drop_policy.locked_to_pane = Some(pane_id);
        s
    }

    /// Lock the tab to panes with a specific semantic role.
    pub fn with_locked_role(self, role: PaneRole) -> (r: Self)
        ensures
            r == (Tab { drop_policy: TabDropPolicy { locked_to_role: Some(role), ..self.drop_policy }, ..self }),
    {
        let mut s = self;
        s.drop_policy.locked_to_role = Some(role);
        s
    }

    /// Restrict the tab to a set of pane identifiers.
    pub fn with_allowed_drop_panes(self, allowed_panes: Vec<PaneId>) -> (r: Self)
        ensures
            r == (Tab { drop_policy: TabDropPolicy { allowed_panes: Some(allowed_panes), ..self.drop_policy }, ..self }),
    {
        let mut s = self;
        s.drop_policy.allowed_panes = Some(allowed_panes);
        s
    }

    /// Reject drops into a set of pane identifiers.
    pub fn with_blocked_drop_panes(self, blocked_panes: Vec<PaneId>) -> (r: Self)
        ensures
            r == (Tab { drop_policy: TabDropPolicy { blocked_panes, ..self.drop_policy }, ..self }),
    {
        let mut s = self;
        s.drop_policy.blocked_panes = blocked_panes;
        s
    }

    /// Restrict the tab to a set of pane roles.
    pub fn with_allowed_drop_roles(self, allowed_roles: Vec<PaneRole>) -> (r: Self)
        ensures
            r == (Tab { drop_policy: TabDropPolicy { allowed_roles: Some(allowed_roles), ..self.drop_policy }, ..self }),
    {
        let mut s = self;
        s.drop_policy.allowed_roles = Some(allowed_roles);
        s
    }

    /// Reject drops into panes with a set of semantic roles.
    pub fn with_blocked_drop_roles(self, blocked_roles: Vec<PaneRole>) -> (r: Self)
        ensures
            r == (Tab { drop_policy: TabDropPolicy { blocked_roles, ..self.drop_policy }, ..self }),
    {
        let mut s = self;
        s.drop_policy.blocked_roles = blocked_roles;
        s
    }

    /// Control whether the tab may be closed from the built-in header UI.
    pub fn with_closable(self, closable: bool) -> (r: Self)
        ensures
            r == (Tab { closable, ..self }),
    {
        Tab { closable, ..self }
    }

    /// Apply a per-tab style override used by the built-in header renderer.
    pub fn with_style_override(self, style_override: TabStyleOverride) -> (r: Self)
        ensures
            r == (Tab { style_override: Some(style_override), ..self }),
    {
        Tab { style_override: Some(style_override), ..self }
    }
}

} // verus!
