//! Window decoration policy and resize geometry. The decision between client
//! and server decorations never decorates a window twice.

use crate::wm::Geometry;
use vstd::prelude::*;

verus! {

/// Window type signalled by the client, normalised by the adapter.
#[derive(Clone, Copy, Debug, PartialEq, Eq, Structural)]
pub enum WindowType {
    Normal,
    Dialog,
    Utility,
    Desktop,
    Dock,
    Toolbar,
    Menu,
    Splash,
    DropdownMenu,
    PopupMenu,
    Tooltip,
    Notification,
    Combo,
    DragAndDrop,
    Unknown,
}

impl Default for WindowType {
    fn default() -> (r: Self)
        ensures
            r == WindowType::Normal,
    {
        WindowType::Normal
    }
}

/// Decoration signals of a window, free of protocol-native atoms.
#[derive(Clone, Copy, Debug, PartialEq, Eq, Structural)]
pub struct DecorationHints {
    pub override_redirect: bool,
    pub gtk_frame_extents: bool,
    pub motif_decorations_disabled: bool,
    pub window_type: WindowType,
}

impl Default for DecorationHints {
    fn default() -> (r: Self)
        ensures
            r == (DecorationHints {
                override_redirect: false,
                gtk_frame_extents: false,
                motif_decorations_disabled: false,
                window_type: WindowType::Normal,
            }),
    {
        DecorationHints {
            override_redirect: false,
            gtk_frame_extents: false,
            motif_decorations_disabled: false,
            window_type: WindowType::Normal,
        }
    }
}

#[derive(Clone, Copy, Debug, PartialEq, Eq, Structural)]
pub enum DecorationDecision {
    /// The desktop draws and operates its own decoration.
    ServerSide,
    /// The client draws its own frame; no second one is added.
    ClientSide,
    /// This kind of window gets no desktop decoration.
    Undecorated,
}

/// Window types that take a normal desktop frame.
pub open spec fn framed_type(t: WindowType) -> bool {
    t == WindowType::Normal || t == WindowType::Dialog || t == WindowType::Utility || t
        == WindowType::Unknown
}

pub open spec fn spec_decide_decoration(hints: DecorationHints) -> DecorationDecision {
    if hints.override_redirect {
        DecorationDecision::Undecorated
    } else if hints.gtk_frame_extents || hints.motif_decorations_disabled {
        DecorationDecision::ClientSide
    } else if framed_type(hints.window_type) {
        DecorationDecision::ServerSide
    } else {
        DecorationDecision::Undecorated
    }
}

/// The decoration of a window: an override-redirect window is never
/// decorated; otherwise a window that draws its own frame (GTK frame extents,
/// or Motif decorations turned off) keeps it; otherwise ordinary windows
/// (normal, dialog, utility, and those of unknown type) get the desktop's
/// frame, and the special kinds (desktop, dock, toolbar, menus, splash,
/// tooltip, notification, combo, drag-and-drop) get none.
pub proof fn lemma_decoration_rules(hints: DecorationHints)
    ensures
        hints.override_redirect ==> spec_decide_decoration(hints) == DecorationDecision::Undecorated,
        !hints.override_redirect && (hints.gtk_frame_extents || hints.motif_decorations_disabled)
            ==> spec_decide_decoration(hints) == DecorationDecision::ClientSide,
        !hints.override_redirect && !hints.gtk_frame_extents && !hints.motif_decorations_disabled ==> {
            let t = hints.window_type;
            let d = spec_decide_decoration(hints);
            &&& (t is Normal || t is Dialog || t is Utility || t is Unknown) ==> d == DecorationDecision::ServerSide
            &&& (t is Desktop || t is Dock || t is Toolbar || t is Menu || t is Splash || t is DropdownMenu
                || t is PopupMenu || t is Tooltip || t is Notification || t is Combo || t is DragAndDrop) ==> d
                == DecorationDecision::Undecorated
        },
{
}

/// Chooses client- or server-side decoration, giving precedence to
/// override-redirect, then to the client's own frame, then to the type.
pub fn decide_decoration(hints: DecorationHints) -> (r: DecorationDecision)
    ensures
        r == spec_decide_decoration(hints),
        hints.gtk_frame_extents || hints.motif_decorations_disabled ==> r != DecorationDecision::ServerSide,
{
    if hints.override_redirect {
        return DecorationDecision::Undecorated;
    }
    if hints.gtk_frame_extents || hints.motif_decorations_disabled {
        return DecorationDecision::ClientSide;
    }
    match hints.window_type {
        WindowType::Normal | WindowType::Dialog | WindowType::Utility | WindowType::Unknown => {
            DecorationDecision::ServerSide
        },
        _ => DecorationDecision::Undecorated,
    }
}

#[derive(Clone, Copy, Debug, PartialEq, Eq, Structural)]
pub enum ChromeButton {
    TileFit,
    MaximizeRestore,
    Close,
}

#[derive(Clone, Copy, Debug, PartialEq, Eq, Structural)]
pub enum ResizeEdge {
    Left,
    Right,
    Top,
    Bottom,
    TopLeft,
    TopRight,
    BottomLeft,
    BottomRight,
}

#[derive(Clone, Copy, Debug, PartialEq, Eq, Structural)]
pub enum HitTarget {
    Titlebar,
    Button(ChromeButton),
    Resize(ResizeEdge),
    Outside,
}

pub open spec fn moves_left(e: ResizeEdge) -> bool {
    e == ResizeEdge::Left || e == ResizeEdge::TopLeft || e == ResizeEdge::BottomLeft
}

pub open spec fn moves_right(e: ResizeEdge) -> bool {
    e == ResizeEdge::Right || e == ResizeEdge::TopRight || e == ResizeEdge::BottomRight
}

pub open spec fn moves_top(e: ResizeEdge) -> bool {
    e == ResizeEdge::Top || e == ResizeEdge::TopLeft || e == ResizeEdge::TopRight
}

pub open spec fn moves_bottom(e: ResizeEdge) -> bool {
    e == ResizeEdge::Bottom || e == ResizeEdge::BottomLeft || e == ResizeEdge::BottomRight
}

/// The edges of one axis after a drag by `d`: the dragged edge moves, and a
/// span below the minimum is restored by moving the dragged edge back.
pub open spec fn resized_span(lo: int, hi: int, d: int, min: int, drag_lo: bool, drag_hi: bool) -> (
    int,
    int,
) {
    let nlo = if drag_lo { lo + d } else { lo };
    let nhi = if drag_hi { hi + d } else { hi };
    if nhi - nlo < min {
        if drag_lo {
            (nhi - min, nhi)
        } else {
            (nlo, nlo + min)
        }
    } else {
        (nlo, nhi)
    }
}

pub open spec fn clamp_i32(v: int) -> i32 {
    if v < i32::MIN {
        i32::MIN
    } else if v > i32::MAX {
        i32::MAX
    } else {
        v as i32
    }
}

pub open spec fn clamp_extent(v: int) -> u32 {
    if v < 1 {
        1
    } else if v > u32::MAX {
        u32::MAX
    } else {
        v as u32
    }
}

pub open spec fn spec_resized_geometry(
    initial: Geometry,
    edge: ResizeEdge,
    dx: i32,
    dy: i32,
    min_width: u32,
    min_height: u32,
) -> Geometry {
    let h = resized_span(
        initial.x as int,
        initial.x + initial.width,
        dx as int,
        min_width as int,
        moves_left(edge),
        moves_right(edge),
    );
    let v = resized_span(
        initial.y as int,
        initial.y + initial.height,
        dy as int,
        min_height as int,
        moves_top(edge),
        moves_bottom(edge),
    );
    Geometry {
        x: clamp_i32(h.0),
        y: clamp_i32(v.0),
        width: clamp_extent(h.1 - h.0),
        height: clamp_extent(v.1 - v.0),
    }
}

fn saturating_i32(value: i64) -> (r: i32)
    ensures
        r == clamp_i32(value as int),
{
    if value < -2147483648i64 {
        -2147483648i32
    } else if value > 2147483647i64 {
        2147483647i32
    } else {
        value as i32
    }
}

fn extent(value: i64) -> (r: u32)
    ensures
        r == clamp_extent(value as int),
{
    if value < 1 {
        1
    } else if value > 4294967295i64 {
        4294967295u32
    } else {
        value as u32
    }
}

/// A resize by a pointer drag on one edge or corner: the opposite edge stays
/// where it was and the size does not drop below the minimum. The final
/// constraints are applied by the window manager afterwards.
pub fn resized_geometry(
    initial: Geometry,
    edge: ResizeEdge,
    dx: i32,
    dy: i32,
    min_width: u32,
    min_height: u32,
) -> (r: Geometry)
    ensures
        r == spec_resized_geometry(initial, edge, dx, dy, min_width, min_height),
{
    let left = initial.x as i64;
    let top = initial.y as i64;
    let right = left + initial.width as i64;
    let bottom = top + initial.height as i64;
    let drag_left = match edge {
        ResizeEdge::Left | ResizeEdge::TopLeft | ResizeEdge::BottomLeft => true,
        _ => false,
    };
    let drag_right = match edge {
        ResizeEdge::Right | ResizeEdge::TopRight | ResizeEdge::BottomRight => true,
        _ => false,
    };
    let drag_top = match edge {
        ResizeEdge::Top | ResizeEdge::TopLeft | ResizeEdge::TopRight => true,
        _ => false,
    };
    let drag_bottom = match edge {
        ResizeEdge::Bottom | ResizeEdge::BottomLeft | ResizeEdge::BottomRight => true,
        _ => false,
    };
    let mut new_left = if drag_left { left + dx as i64 } else { left };
    let mut new_right = if drag_right { right + dx as i64 } else { right };
    let mut new_top = if drag_top { top + dy as i64 } else { top };
    let mut new_bottom = if drag_bottom { bottom + dy as i64 } else { bottom };
    if new_right - new_left < min_width as i64 {
        if drag_left {
            new_left = new_right - min_width as i64;
        } else {
            new_right = new_left + min_width as i64;
        }
    }
    if new_bottom - new_top < min_height as i64 {
        if drag_top {
            new_top = new_bottom - min_height as i64;
        } else {
            new_bottom = new_top + min_height as i64;
        }
    }
    let g = Geometry::new(
        saturating_i32(new_left),
        saturating_i32(new_top),
        extent(new_right - new_left),
        extent(new_bottom - new_top),
    );
    g.unwrap()
}

/// Dragging the left edge keeps the right edge in place and the width at or
/// above the minimum, whenever the result fits the coordinate range.
pub proof fn lemma_left_resize_keeps_right_edge(initial: Geometry, dx: i32, min_width: u32)
    requires
        min_width >= 1,
        i32::MIN <= initial.x + dx <= i32::MAX,
        i32::MIN <= initial.x + initial.width - min_width,
        initial.width - dx <= u32::MAX,
    ensures
        ({
            let r = spec_resized_geometry(initial, ResizeEdge::Left, dx, 0, min_width, 1);
            &&& r.x + r.width == initial.x + initial.width
            &&& r.width >= min_width
        }),
{
}

/// A drag resizes only the dragged edges: on each axis an edge that is not
/// dragged stays where it was, a dragged edge moves by the pointer's motion,
/// and when that would make the window narrower (or lower) than the minimum,
/// the dragged edge stops at the minimum size. An axis with no dragged edge
/// keeps its position and grows to the minimum if needed. Stated where no
/// coordinate leaves the representable range.
pub proof fn lemma_resize_moves_dragged_edges(
    initial: Geometry,
    edge: ResizeEdge,
    dx: i32,
    dy: i32,
    min_width: u32,
    min_height: u32,
)
    requires
        1 <= min_width < 0x4000_0000,
        1 <= min_height < 0x4000_0000,
        -0x4000_0000 < initial.x < 0x4000_0000,
        -0x4000_0000 < initial.y < 0x4000_0000,
        -0x4000_0000 < dx < 0x4000_0000,
        -0x4000_0000 < dy < 0x4000_0000,
        initial.width < 0x4000_0000,
        initial.height < 0x4000_0000,
    ensures
        ({
            let r = spec_resized_geometry(initial, edge, dx, dy, min_width, min_height);
            let left = initial.x as int;
            let right = initial.x + initial.width;
            let top = initial.y as int;
            let bottom = initial.y + initial.height;
            let drag_l = edge is Left || edge is TopLeft || edge is BottomLeft;
            let drag_r = edge is Right || edge is TopRight || edge is BottomRight;
            let drag_t = edge is Top || edge is TopLeft || edge is TopRight;
            let drag_b = edge is Bottom || edge is BottomLeft || edge is BottomRight;
            &&& drag_l ==> r.x + r.width == right && r.width == (if right - (left + dx) < min_width {
                min_width as int
            } else {
                right - (left + dx)
            })
            &&& drag_r ==> r.x == left && r.width == (if right + dx - left < min_width {
                min_width as int
            } else {
                right + dx - left
            })
            &&& !drag_l && !drag_r ==> r.x == left && r.width == (if initial.width < min_width {
                min_width as int
            } else {
                initial.width as int
            })
            &&& drag_t ==> r.y + r.height == bottom && r.height == (if bottom - (top + dy) < min_height {
                min_height as int
            } else {
                bottom - (top + dy)
            })
            &&& drag_b ==> r.y == top && r.height == (if bottom + dy - top < min_height {
                min_height as int
            } else {
                bottom + dy - top
            })
            &&& !drag_t && !drag_b ==> r.y == top && r.height == (if initial.height < min_height {
                min_height as int
            } else {
                initial.height as int
            })
        }),
{
}

} // verus!
