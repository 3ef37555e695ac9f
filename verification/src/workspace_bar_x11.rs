//! Decisions of the workspace bar's X11 surface: which monitor it sits on,
//! whether its extent fits the protocol's fields, and the pixel order of the
//! uploaded image. Talking to the X server is done by the caller.

use crate::ui_core::{PhysicalRect, PhysicalSize};
use crate::workspace_bar_paint::WorkspaceBarRenderError;
use crate::workspaces::WorkspaceError;
use vstd::prelude::*;

verus! {

#[derive(Debug)]
pub enum WorkspaceBarX11Error {
    Unavailable(String),
    Operation(String),
    NoMonitor,
    DimensionOverflow,
    Render(WorkspaceBarRenderError),
    Workspace(WorkspaceError),
}

/// A monitor as RandR reports it, in physical pixels.
#[derive(Clone, Copy, Debug, PartialEq, Eq, Structural)]
pub struct RandrMonitor {
    pub x: i16,
    pub y: i16,
    pub width: u16,
    pub height: u16,
    pub primary: bool,
}

/// The position of the first primary monitor, or the length.
pub open spec fn first_primary(s: Seq<RandrMonitor>) -> int
    decreases s.len(),
{
    if s.len() == 0 {
        0
    } else if s[0].primary {
        0
    } else {
        1 + first_primary(s.drop_first())
    }
}

proof fn lemma_first_primary(s: Seq<RandrMonitor>, i: int)
    requires
        0 <= i <= s.len(),
        forall|j: int| 0 <= j < i ==> !(#[trigger] s[j]).primary,
        i == s.len() || s[i].primary,
    ensures
        first_primary(s) == i,
    decreases s.len(),
{
    if s.len() > 0 && i > 0 {
        assert forall|j: int| 0 <= j < i - 1 implies !(#[trigger] s.drop_first()[j]).primary by {
            assert(s.drop_first()[j] == s[j + 1]);
        }
        if i < s.len() {
            assert(s.drop_first()[i - 1] == s[i]);
        }
        lemma_first_primary(s.drop_first(), i - 1);
    }
}

/// The monitor the bar is placed on: the first primary one, else the first
/// one, else none (the caller then uses the whole screen).
pub fn choose_monitor(monitors: &[RandrMonitor]) -> (r: Option<RandrMonitor>)
    ensures
        first_primary(monitors@) < monitors@.len() ==> r == Some(monitors@[first_primary(monitors@)]),
        first_primary(monitors@) >= monitors@.len() && monitors@.len() > 0 ==> r == Some(monitors@[0]),
        monitors@.len() == 0 ==> r is None,
{
    let mut i: usize = 0;
    while i < monitors.len()
        invariant
            i <= monitors@.len(),
            forall|j: int| 0 <= j < i ==> !(#[trigger] monitors@[j]).primary,
        decreases monitors@.len() - i,
    {
        if monitors[i].primary {
            proof {
                lemma_first_primary(monitors@, i as int);
            }
            return Some(monitors[i]);
        }
        i = i + 1;
    }
    proof {
        lemma_first_primary(monitors@, i as int);
    }
    if monitors.len() > 0 {
        Some(monitors[0])
    } else {
        None
    }
}

/// A size of at least one pixel.
pub open spec fn at_least_one(v: u32) -> u32 {
    if v == 0 {
        1
    } else {
        v
    }
}

/// Whether a physical rectangle fits an X11 window's 16-bit position and size.
pub open spec fn extent_fits(rect: PhysicalRect) -> bool {
    &&& at_least_one(rect.width) <= 0xffff
    &&& at_least_one(rect.height) <= 0xffff
    &&& -0x8000 <= rect.x <= 0x7fff
    &&& -0x8000 <= rect.y <= 0x7fff
}

/// The bar window's position and size in X11's fields; sizes are at least one
/// pixel.
pub fn window_extent(rect: PhysicalRect) -> (r: Result<(i16, i16, u16, u16), WorkspaceBarX11Error>)
    ensures
        extent_fits(rect) ==> r == Ok::<(i16, i16, u16, u16), WorkspaceBarX11Error>(
            (
                rect.x as i16,
                rect.y as i16,
                at_least_one(rect.width) as u16,
                at_least_one(rect.height) as u16,
            ),
        ),
        !extent_fits(rect) ==> r == Err::<(i16, i16, u16, u16), WorkspaceBarX11Error>(
            WorkspaceBarX11Error::DimensionOverflow,
        ),
{
    let width = if rect.width == 0 {
        1
    } else {
        rect.width
    };
    let height = if rect.height == 0 {
        1
    } else {
        rect.height
    };
    if width > 0xffff || height > 0xffff {
        return Err(WorkspaceBarX11Error::DimensionOverflow);
    }
    if rect.x < -0x8000 || rect.x > 0x7fff || rect.y < -0x8000 || rect.y > 0x7fff {
        return Err(WorkspaceBarX11Error::DimensionOverflow);
    }
    Ok((rect.x as i16, rect.y as i16, width as u16, height as u16))
}

/// A rendered frame's size in X11's 16-bit fields.
pub fn frame_extent(size: PhysicalSize) -> (r: Result<(u16, u16), WorkspaceBarX11Error>)
    ensures
        size.width <= 0xffff && size.height <= 0xffff ==> r == Ok::<(u16, u16), WorkspaceBarX11Error>(
            (size.width as u16, size.height as u16),
        ),
        !(size.width <= 0xffff && size.height <= 0xffff) ==> r == Err::<(u16, u16), WorkspaceBarX11Error>(
            WorkspaceBarX11Error::DimensionOverflow,
        ),
{
    if size.width > 0xffff || size.height > 0xffff {
        return Err(WorkspaceBarX11Error::DimensionOverflow);
    }
    Ok((size.width as u16, size.height as u16))
}

/// Byte `i` of RGBA pixels rewritten in the BGRX order of a 32-bit X11
/// image; the padding byte is zero.
pub open spec fn bgrx_byte(p: Seq<u8>, i: int) -> u8 {
    let base = i - i % 4;
    if i % 4 == 3 {
        0
    } else {
        p[base + 2 - i % 4]
    }
}

/// RGBA pixels in BGRX order; trailing bytes that make no whole pixel are
/// dropped.
pub open spec fn bgrx(p: Seq<u8>) -> Seq<u8> {
    Seq::new(((p.len() / 4) * 4) as nat, |i: int| bgrx_byte(p, i))
}

/// Rewrites RGBA pixels in the BGRX order of a 32-bit X11 image.
pub fn bgrx_pixels(rgba: &[u8]) -> (r: Vec<u8>)
    ensures
        r@ == bgrx(rgba@),
{
    let n = rgba.len();
    let pixels = n / 4;
    let mut out: Vec<u8> = Vec::new();
    let mut k: usize = 0;
    while k < pixels
        invariant
            n == rgba@.len(),
            pixels == n / 4,
            k <= pixels,
            out@.len() == 4 * k,
            forall|j: int| 0 <= j < 4 * k ==> out@[j] == bgrx_byte(rgba@, j),
        decreases pixels - k,
    {
        let base = 4 * k;
        out.push(rgba[base + 2]);
        out.push(rgba[base + 1]);
        out.push(rgba[base]);
        out.push(0);
        proof {
            assert forall|j: int| 0 <= j < 4 * (k + 1) implies out@[j] == bgrx_byte(rgba@, j) by {
                if j >= 4 * k {
                    assert(j - j % 4 == 4 * k);
                }
            }
        }
        k = k + 1;
    }
    proof {
        assert(out@ =~= bgrx(rgba@));
    }
    out
}

} // verus!
