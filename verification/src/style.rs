//! Colour-only visual data that panes and tabs carry, and the rule that picks
//! a tab's colours from its state and overrides.
//!
//! Scalar sizes (insets, widths) are carried as the IEEE-754 bit pattern of a
//! single-precision float (`f32::to_bits`): the dock model stores and copies
//! them but never computes with them.
use vstd::prelude::*;

verus! {

#[verifier::external_type_specification]
#[verifier::external_body]
pub struct ExColor32(egui::Color32);

#[verifier::external_type_specification]
#[verifier::external_body]
pub struct ExCornerRadius(egui::CornerRadius);

/// Per-pane visual overrides.
#[derive(Clone, Copy, Debug, PartialEq)]
pub struct PaneStyleOverride {
    pub header_bg: Option<egui::Color32>,
    pub content_bg: Option<egui::Color32>,
    pub border_color: Option<egui::Color32>,
    pub accent_color: Option<egui::Color32>,
    /// Bit pattern of the `f32` inset that replaces the global content inset
    /// for this pane; `None` uses the global inset.
    pub content_inset: Option<u32>,
}

impl PaneStyleOverride {
    /// An override that overrides nothing.
    pub fn none() -> (r: Self)
        ensures
            r.header_bg is None,
            r.content_bg is None,
            r.border_color is None,
            r.accent_color is None,
            r.content_inset is None,
    {
        PaneStyleOverride {
            header_bg: None,
            content_bg: None,
            border_color: None,
            accent_color: None,
            content_inset: None,
        }
    }
}

/// The content inset of a pane, as a bit pattern: the pane's own inset where
/// its override sets one, the global inset `global_bits` otherwise.
pub open spec fn content_inset_spec(pane: Option<PaneStyleOverride>, global_bits: u32) -> u32 {
    match pane {
        Some(o) => match o.content_inset {
            Some(bits) => bits,
            None => global_bits,
        },
        None => global_bits,
    }
}

/// Pick the content inset of a pane (see [`content_inset_spec`]).
pub fn pane_content_inset_bits(pane: Option<PaneStyleOverride>, global_bits: u32) -> (r: u32)
    ensures
        r == content_inset_spec(pane, global_bits),
{
    match pane {
        Some(o) => match o.content_inset {
            Some(bits) => bits,
            None => global_bits,
        },
        None => global_bits,
    }
}

/// A colour a pane's override may set: the override's where it sets one, the
/// global `global` otherwise.
pub open spec fn override_or(set: Option<egui::Color32>, global: egui::Color32) -> egui::Color32 {
    match set {
        Some(c) => c,
        None => global,
    }
}

/// The colour field `pick` of a pane's override, where the pane has one.
pub open spec fn pane_field(
    pane: Option<PaneStyleOverride>,
    pick: spec_fn(PaneStyleOverride) -> Option<egui::Color32>,
) -> Option<egui::Color32> {
    match pane {
        Some(o) => pick(o),
        None => None,
    }
}

fn color_or(set: Option<egui::Color32>, global: egui::Color32) -> (r: egui::Color32)
    ensures
        r == override_or(set, global),
{
    match set {
        Some(c) => c,
        None => global,
    }
}

/// The header background of a pane: its override's, else `global`.
pub fn pane_header_bg(pane: Option<PaneStyleOverride>, global: egui::Color32) -> (r: egui::Color32)
    ensures
        r == override_or(pane_field(pane, |o: PaneStyleOverride| o.header_bg), global),
{
    color_or(
        match pane {
            Some(o) => o.header_bg,
            None => None,
        },
        global,
    )
}

/// The content background of a pane: its override's, else `global`.
pub fn pane_content_bg(pane: Option<PaneStyleOverride>, global: egui::Color32) -> (r: egui::Color32)
    ensures
        r == override_or(pane_field(pane, |o: PaneStyleOverride| o.content_bg), global),
{
    color_or(
        match pane {
            Some(o) => o.content_bg,
            None => None,
        },
        global,
    )
}

/// The border colour of a pane: its override's, else `global`.
pub fn pane_border_color(pane: Option<PaneStyleOverride>, global: egui::Color32) -> (r: egui::Color32)
    ensures
        r == override_or(pane_field(pane, |o: PaneStyleOverride| o.border_color), global),
{
    color_or(
        match pane {
            Some(o) => o.border_color,
            None => None,
        },
        global,
    )
}

/// The accent colour of a pane: its override's, else `global`.
pub fn pane_accent_color(pane: Option<PaneStyleOverride>, global: egui::Color32) -> (r: egui::Color32)
    ensures
        r == override_or(pane_field(pane, |o: PaneStyleOverride| o.accent_color), global),
{
    color_or(
        match pane {
            Some(o) => o.accent_color,
            None => None,
        },
        global,
    )
}

/// Per-tab visual overrides.
#[derive(Clone, Copy, Debug, PartialEq)]
pub struct TabStyleOverride {
    pub active_bg: Option<egui::Color32>,
    pub inactive_bg: Option<egui::Color32>,
    pub hovered_bg: Option<egui::Color32>,
    pub text_color: Option<egui::Color32>,
    pub accent_color: Option<egui::Color32>,
    /// Override colour applied only to the leading icon, not the title text.
    pub icon_color: Option<egui::Color32>,
    /// Bit pattern of the `f32` maximum header width of this tab; `None`
    /// lets the tab stretch.
    pub max_width: Option<u32>,
}

impl TabStyleOverride {
    /// An override that overrides nothing.
    pub fn none() -> (r: Self)
        ensures
            r.active_bg is None,
            r.inactive_bg is None,
            r.hovered_bg is None,
            r.text_color is None,
            r.accent_color is None,
            r.icon_color is None,
            r.max_width is None,
    {
        TabStyleOverride {
            active_bg: None,
            inactive_bg: None,
            hovered_bg: None,
            text_color: None,
            accent_color: None,
            icon_color: None,
            max_width: None,
        }
    }
}

#[derive(Clone, Copy, Debug, PartialEq, Eq)]
pub struct HeaderButtonStyle {
    pub bg: egui::Color32,
    pub hover_bg: egui::Color32,
    pub stroke_color: egui::Color32,
    pub icon_color: egui::Color32,
    pub hover_icon_color: egui::Color32,
    pub rounding: egui::CornerRadius,
}

#[derive(Clone, Copy, Debug, PartialEq, Eq)]
pub struct HeaderStyle {
    pub bg: egui::Color32,
    pub border_color: egui::Color32,
    pub button: HeaderButtonStyle,
}

#[derive(Clone, Copy, Debug, PartialEq, Eq)]
pub struct ContentStyle {
    pub bg: egui::Color32,
    pub border_color: egui::Color32,
}

#[derive(Clone, Copy, Debug, PartialEq, Eq)]
pub struct HandleStyle {
    pub color: egui::Color32,
    pub hover_color: egui::Color32,
    pub locked_color: egui::Color32,
}

#[derive(Clone, Copy, Debug, PartialEq, Eq)]
pub struct TabStateStyle {
    pub bg: egui::Color32,
    pub text_color: egui::Color32,
    pub accent_color: egui::Color32,
}

#[derive(Clone, Copy, Debug, PartialEq, Eq)]
pub struct TabStyle {
    pub active: TabStateStyle,
    pub inactive: TabStateStyle,
    pub hovered: TabStateStyle,
    pub rounding: egui::CornerRadius,
}

/// `choice` when it is set, else `fallback`.
pub open spec fn or_else<A>(choice: Option<A>, fallback: A) -> A {
    match choice {
        Some(v) => v,
        None => fallback,
    }
}

/// The base colours of a tab in the given interaction state: active wins
/// over hovered, which wins over inactive.
pub open spec fn base_state(style: TabStyle, active: bool, hovered: bool) -> TabStateStyle {
    if active {
        style.active
    } else if hovered {
        style.hovered
    } else {
        style.inactive
    }
}

/// The colours of a tab once the tab's own override and then the pane's
/// override are applied over the base state.
pub open spec fn tab_state_spec(
    style: TabStyle,
    active: bool,
    hovered: bool,
    pane: Option<PaneStyleOverride>,
    tab: Option<TabStyleOverride>,
) -> TabStateStyle {
    let base = base_state(style, active, hovered);
    let after_tab = match tab {
        Some(t) => TabStateStyle {
            bg: if active {
                or_else(t.active_bg, base.bg)
            } else if hovered {
                or_else(t.hovered_bg, base.bg)
            } else {
                or_else(t.inactive_bg, base.bg)
            },
            text_color: or_else(t.text_color, base.text_color),
            accent_color: or_else(t.accent_color, base.accent_color),
        },
        None => base,
    };
    match pane {
        Some(p) => TabStateStyle { accent_color: or_else(p.accent_color, after_tab.accent_color), ..after_tab },
        None => after_tab,
    }
}

fn pick_color(choice: Option<egui::Color32>, fallback: egui::Color32) -> (r: egui::Color32)
    ensures
        r == or_else(choice, fallback),
{
    match choice {
        Some(c) => c,
        None => fallback,
    }
}

impl TabStyle {
    /// Resolve the colours of a tab from its state and the optional pane and
    /// tab overrides.
    pub fn state_for(
        &self,
        active: bool,
        hovered: bool,
        pane: Option<PaneStyleOverride>,
        tab: Option<TabStyleOverride>,
    ) -> (r: TabStateStyle)
        ensures
            r == tab_state_spec(*self, active, hovered, pane, tab),
    {
        let mut state = if active {
            self.active
        } else if hovered {
            self.hovered
        } else {
            self.inactive
        };
        match tab {
            Some(t) => {
                state.bg = if active {
                    pick_color(t.active_bg, state.bg)
                } else if hovered {
                    pick_color(t.hovered_bg, state.bg)
                } else {
                    pick_color(t.inactive_bg, state.bg)
                };
                state.text_color = pick_color(t.text_color, state.text_color);
                state.accent_color = pick_color(t.accent_color, state.accent_color);
            },
            None => {},
        }
        match pane {
            Some(p) => {
                state.accent_color = pick_color(p.accent_color, state.accent_color);
            },
            None => {},
        }
        state
    }
}

} // verus!
