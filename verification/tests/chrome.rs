use nexxus::chrome::{
    decide_decoration, resized_geometry, DecorationDecision, DecorationHints, ResizeEdge,
    WindowType,
};
use nexxus::wm::Geometry;

#[test]
fn csd_signals_prevent_double_decoration() {
    assert_eq!(
        decide_decoration(DecorationHints {
            gtk_frame_extents: true,
            ..DecorationHints::default()
        }),
        DecorationDecision::ClientSide
    );
    assert_eq!(
        decide_decoration(DecorationHints {
            motif_decorations_disabled: true,
            ..DecorationHints::default()
        }),
        DecorationDecision::ClientSide
    );
    assert_eq!(
        decide_decoration(DecorationHints {
            window_type: WindowType::Dock,
            ..DecorationHints::default()
        }),
        DecorationDecision::Undecorated
    );
    assert_eq!(
        decide_decoration(DecorationHints::default()),
        DecorationDecision::ServerSide
    );
}

#[test]
fn resize_from_left_preserves_opposite_edge_and_minimum() {
    let original = Geometry::new(100, 100, 500, 300).unwrap();
    let resized = resized_geometry(original, ResizeEdge::Left, 480, 0, 120, 80);
    assert_eq!(resized.width, 120);
    assert_eq!(resized.x + resized.width as i32, 600);
}

#[test]
fn override_redirect_wins_over_client_frames() {
    let hints = DecorationHints {
        override_redirect: true,
        gtk_frame_extents: true,
        ..DecorationHints::default()
    };
    assert_eq!(decide_decoration(hints), DecorationDecision::Undecorated);
    for t in [WindowType::Dialog, WindowType::Utility, WindowType::Unknown] {
        let hints = DecorationHints { window_type: t, ..DecorationHints::default() };
        assert_eq!(decide_decoration(hints), DecorationDecision::ServerSide);
    }
    for t in [WindowType::Menu, WindowType::Tooltip, WindowType::Splash, WindowType::Desktop] {
        let hints = DecorationHints { window_type: t, ..DecorationHints::default() };
        assert_eq!(decide_decoration(hints), DecorationDecision::Undecorated);
    }
}

#[test]
fn resize_corners_move_only_their_edges() {
    let original = Geometry::new(0, 0, 400, 300).unwrap();
    let r = resized_geometry(original, ResizeEdge::BottomRight, 50, -20, 10, 10);
    assert_eq!(r, Geometry::new(0, 0, 450, 280).unwrap());
    let r = resized_geometry(original, ResizeEdge::TopLeft, 30, 40, 10, 10);
    assert_eq!(r, Geometry::new(30, 40, 370, 260).unwrap());
    let r = resized_geometry(original, ResizeEdge::Top, 0, 295, 10, 100);
    assert_eq!(r, Geometry::new(0, 200, 400, 100).unwrap());
    let r = resized_geometry(original, ResizeEdge::Right, -500, 0, 50, 10);
    assert_eq!(r, Geometry::new(0, 0, 50, 300).unwrap());
}

#[test]
fn resize_never_produces_an_empty_window() {
    let original = Geometry::new(10, 10, 100, 100).unwrap();
    let r = resized_geometry(original, ResizeEdge::Bottom, 0, -1000, 0, 0);
    assert_eq!(r.height, 1);
}
