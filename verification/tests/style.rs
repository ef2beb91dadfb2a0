use egui::{Color32, CornerRadius};
use grimdock::style::{pane_accent_color, pane_border_color, pane_content_bg, pane_content_inset_bits, pane_header_bg};
use grimdock::{PaneStyleOverride, TabStateStyle, TabStyle, TabStyleOverride};

fn tab_style() -> TabStyle {
    let state = |r: u8| TabStateStyle {
        bg: Color32::from_rgb(r, r, r),
        text_color: Color32::from_rgb(r, 0, 0),
        accent_color: Color32::from_rgb(0, r, 0),
    };
    TabStyle { active: state(50), inactive: state(35), hovered: state(42), rounding: CornerRadius::same(3) }
}

#[test]
fn tab_style_state_prefers_overrides() {
    let style = tab_style();
    let pane = PaneStyleOverride { accent_color: Some(Color32::from_rgb(1, 2, 3)), ..PaneStyleOverride::none() };
    let tab = TabStyleOverride {
        active_bg: Some(Color32::from_rgb(4, 5, 6)),
        text_color: Some(Color32::from_rgb(7, 8, 9)),
        max_width: Some(120.0f32.to_bits()),
        ..TabStyleOverride::none()
    };

    let state = style.state_for(true, false, Some(pane), Some(tab));
    assert_eq!(state.bg, Color32::from_rgb(4, 5, 6));
    assert_eq!(state.text_color, Color32::from_rgb(7, 8, 9));
    assert_eq!(state.accent_color, Color32::from_rgb(1, 2, 3));
}

#[test]
fn tab_style_state_picks_base_by_interaction() {
    let style = tab_style();
    assert_eq!(style.state_for(true, true, None, None), style.active);
    assert_eq!(style.state_for(false, true, None, None), style.hovered);
    assert_eq!(style.state_for(false, false, None, None), style.inactive);
    // A hover background override applies only to a hovered, inactive tab.
    let tab = TabStyleOverride { hovered_bg: Some(Color32::from_rgb(9, 9, 9)), ..TabStyleOverride::none() };
    assert_eq!(style.state_for(false, true, None, Some(tab)).bg, Color32::from_rgb(9, 9, 9));
    assert_eq!(style.state_for(true, true, None, Some(tab)).bg, style.active.bg);
    // An empty pane override changes nothing.
    assert_eq!(style.state_for(false, false, Some(PaneStyleOverride::none()), None), style.inactive);
}

#[test]
fn pane_content_inset_prefers_the_pane_override() {
    let global = 4.0f32.to_bits();
    assert_eq!(pane_content_inset_bits(None, global), global);
    let mut pane = PaneStyleOverride::none();
    assert_eq!(pane_content_inset_bits(Some(pane), global), global);
    pane.content_inset = Some(9.5f32.to_bits());
    assert_eq!(f32::from_bits(pane_content_inset_bits(Some(pane), global)), 9.5);
}

#[test]
fn pane_content_inset_prefers_override_then_global() {
    let global = 8.0f32.to_bits();

    // No override falls back to the global inset.
    assert_eq!(f32::from_bits(pane_content_inset_bits(None, global)), 8.0);
    assert_eq!(f32::from_bits(pane_content_inset_bits(Some(PaneStyleOverride::none()), global)), 8.0);

    // An explicit per-pane inset wins, including an edge-to-edge zero.
    let edge_to_edge = PaneStyleOverride { content_inset: Some(0.0f32.to_bits()), ..PaneStyleOverride::none() };
    assert_eq!(f32::from_bits(pane_content_inset_bits(Some(edge_to_edge), global)), 0.0);
}

#[test]
fn pane_colours_prefer_the_pane_override() {
    let global = Color32::from_rgb(1, 2, 3);
    let red = Color32::from_rgb(200, 0, 0);
    assert_eq!(pane_header_bg(None, global), global);
    assert_eq!(pane_content_bg(Some(PaneStyleOverride::none()), global), global);
    let o = PaneStyleOverride {
        header_bg: Some(red),
        content_bg: Some(red),
        border_color: Some(red),
        accent_color: None,
        content_inset: None,
    };
    assert_eq!(pane_header_bg(Some(o), global), red);
    assert_eq!(pane_content_bg(Some(o), global), red);
    assert_eq!(pane_border_color(Some(o), global), red);
    assert_eq!(pane_accent_color(Some(o), global), global);
}
