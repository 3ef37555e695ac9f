//! Pointer-edge snap detection and preview intents for a later overlay.

use crate::tiling_layout::{NormalizedRect, OutputArea};
use vstd::prelude::*;

verus! {

/// Pointer position in the global coordinate space of the outputs.
#[derive(Clone, Copy, Debug, PartialEq, Eq, Structural)]
pub struct Point {
    pub x: i32,
    pub y: i32,
}

/// Snap destinations whose geometry is known without an overlay.
#[derive(Clone, Copy, Debug, PartialEq, Eq, Structural)]
pub enum SnapTarget {
    LeftHalf,
    RightHalf,
    TopLeftQuarter,
    TopRightQuarter,
    BottomLeftQuarter,
    BottomRightQuarter,
}

/// Outcome of edge hit-testing: tile directly, or ask for the layout chooser.
#[derive(Clone, Copy, Debug, PartialEq, Eq, Structural)]
pub enum SnapIntent {
    Tile { target: SnapTarget, slot: NormalizedRect },
    ShowLayoutChoices,
}

#[derive(Clone, Copy, Debug, PartialEq, Eq, Structural)]
pub struct SnapDetectorError;

/// Stateless snap hit-testing with an edge threshold in logical pixels.
#[derive(Clone, Copy, Debug, PartialEq, Eq)]
pub struct SnapDetector {
    edge_threshold: u32,
}

impl Default for SnapDetector {
    fn default() -> (r: Self)
        ensures
            r.threshold() == 24,
    {
        SnapDetector { edge_threshold: 24 }
    }
}

/// The normalized slot of a direct snap destination.
pub open spec fn snap_slot(target: SnapTarget) -> NormalizedRect {
    match target {
        SnapTarget::LeftHalf => NormalizedRect { x: 0, y: 0, width: 5000, height: 10000 },
        SnapTarget::RightHalf => NormalizedRect { x: 5000, y: 0, width: 5000, height: 10000 },
        SnapTarget::TopLeftQuarter => NormalizedRect { x: 0, y: 0, width: 5000, height: 5000 },
        SnapTarget::TopRightQuarter => NormalizedRect { x: 5000, y: 0, width: 5000, height: 5000 },
        SnapTarget::BottomLeftQuarter => NormalizedRect { x: 0, y: 5000, width: 5000, height: 5000 },
        SnapTarget::BottomRightQuarter => NormalizedRect {
            x: 5000,
            y: 5000,
            width: 5000,
            height: 5000,
        },
    }
}

/// Distance from an edge within which the pointer counts as near it, for a
/// span of `size` pixels.
pub open spec fn edge_band(threshold: u32, size: u32) -> int {
    let limit: int = if size <= 1 {
        1
    } else {
        size - 1
    };
    if (threshold as int) < limit {
        threshold as int
    } else {
        limit
    }
}

impl SnapDetector {
    pub closed spec fn threshold(self) -> u32 {
        self.edge_threshold
    }

    /// Creates a detector; a zero threshold is refused.
    pub fn new(edge_threshold: u32) -> (r: Result<Self, SnapDetectorError>)
        ensures
            edge_threshold == 0 <==> r is Err,
            r matches Ok(d) ==> d.threshold() == edge_threshold,
    {
        if edge_threshold == 0 {
            return Err(SnapDetectorError);
        }
        Ok(SnapDetector { edge_threshold })
    }

    pub fn edge_threshold(self) -> (r: u32)
        ensures
            r == self.threshold(),
    {
        self.edge_threshold
    }

    /// What a pointer at `pointer` asks for. Corners come before edges, and
    /// the top edge away from corners asks for the layout chooser.
    pub open spec fn spec_detect(self, area: OutputArea, pointer: Point) -> Option<SnapIntent> {
        let g = area.geometry;
        let left = g.x as int;
        let top = g.y as int;
        let right = left + g.width - 1;
        let bottom = top + g.height - 1;
        let x = pointer.x as int;
        let y = pointer.y as int;
        if x < left || x > right || y < top || y > bottom {
            None
        } else {
            let h = edge_band(self.threshold(), g.width);
            let v = edge_band(self.threshold(), g.height);
            let near_left = x - left < h;
            let near_right = right - x < h;
            let near_top = y - top < v;
            let near_bottom = bottom - y < v;
            if near_top && near_left {
                Some(tile_intent_spec(SnapTarget::TopLeftQuarter))
            } else if near_top && near_right {
                Some(tile_intent_spec(SnapTarget::TopRightQuarter))
            } else if near_bottom && near_left {
                Some(tile_intent_spec(SnapTarget::BottomLeftQuarter))
            } else if near_bottom && near_right {
                Some(tile_intent_spec(SnapTarget::BottomRightQuarter))
            } else if near_left {
                Some(tile_intent_spec(SnapTarget::LeftHalf))
            } else if near_right {
                Some(tile_intent_spec(SnapTarget::RightHalf))
            } else if near_top {
                Some(SnapIntent::ShowLayoutChoices)
            } else {
                None
            }
        }
    }

    /// Detects one snap intent, only for a pointer inside the usable area.
    pub fn detect(self, area: OutputArea, pointer: Point) -> (r: Option<SnapIntent>)
        ensures
            r == self.spec_detect(area, pointer),
    {
        let g = area.geometry;
        let left = g.x as i64;
        let top = g.y as i64;
        let right = left + g.width as i64 - 1;
        let bottom = top + g.height as i64 - 1;
        let x = pointer.x as i64;
        let y = pointer.y as i64;
        if x < left || x > right || y < top || y > bottom {
            return None;
        }
        let h = band(self.edge_threshold, g.width) as i64;
        let v = band(self.edge_threshold, g.height) as i64;
        let near_left = x - left < h;
        let near_right = right - x < h;
        let near_top = y - top < v;
        let near_bottom = bottom - y < v;
        if near_top && near_left {
            return Some(tile_intent(SnapTarget::TopLeftQuarter));
        }
        if near_top && near_right {
            return Some(tile_intent(SnapTarget::TopRightQuarter));
        }
        if near_bottom && near_left {
            return Some(tile_intent(SnapTarget::BottomLeftQuarter));
        }
        if near_bottom && near_right {
            return Some(tile_intent(SnapTarget::BottomRightQuarter));
        }
        if near_left {
            return Some(tile_intent(SnapTarget::LeftHalf));
        }
        if near_right {
            return Some(tile_intent(SnapTarget::RightHalf));
        }
        if near_top {
            return Some(SnapIntent::ShowLayoutChoices);
        }
        None
    }
}

/// Where a pointer lands: outside the area gives nothing; within the edge
/// band of a corner (two adjacent edges) the quarter at that corner; within
/// the band of the left or right edge only, that half; within the band of the
/// top edge only, the layout chooser; anywhere else nothing. The band is the
/// threshold, narrowed to one pixel less than the span it lies in (and at
/// least one pixel). Where bands of opposite edges overlap, left wins over
/// right and top over bottom.
pub proof fn lemma_detect_regions(d: SnapDetector, area: OutputArea, p: Point)
    ensures
        ({
            let g = area.geometry;
            let w = g.width as int;
            let ht = g.height as int;
            let dl = p.x - g.x;
            let dr = g.x + w - 1 - p.x;
            let dt = p.y - g.y;
            let db = g.y + ht - 1 - p.y;
            let t = d.threshold() as int;
            let h = if w <= 1 { if t < 1 { t } else { 1 } } else if t < w - 1 { t } else { w - 1 };
            let v = if ht <= 1 { if t < 1 { t } else { 1 } } else if t < ht - 1 { t } else { ht - 1 };
            let r = d.spec_detect(area, p);
            &&& (dl < 0 || dr < 0 || dt < 0 || db < 0) ==> r is None
            &&& (dl >= 0 && dr >= 0 && dt >= 0 && db >= 0) ==> {
                &&& (dt < v && dl < h) ==> r == Some(
                    SnapIntent::Tile {
                        target: SnapTarget::TopLeftQuarter,
                        slot: NormalizedRect { x: 0, y: 0, width: 5000, height: 5000 },
                    },
                )
                &&& (dt < v && dr < h && dl >= h) ==> r == Some(
                    SnapIntent::Tile {
                        target: SnapTarget::TopRightQuarter,
                        slot: NormalizedRect { x: 5000, y: 0, width: 5000, height: 5000 },
                    },
                )
                &&& (db < v && dl < h && dt >= v) ==> r == Some(
                    SnapIntent::Tile {
                        target: SnapTarget::BottomLeftQuarter,
                        slot: NormalizedRect { x: 0, y: 5000, width: 5000, height: 5000 },
                    },
                )
                &&& (db < v && dr < h && dt >= v && dl >= h) ==> r == Some(
                    SnapIntent::Tile {
                        target: SnapTarget::BottomRightQuarter,
                        slot: NormalizedRect { x: 5000, y: 5000, width: 5000, height: 5000 },
                    },
                )
                &&& (dl < h && dt >= v && db >= v) ==> r == Some(
                    SnapIntent::Tile {
                        target: SnapTarget::LeftHalf,
                        slot: NormalizedRect { x: 0, y: 0, width: 5000, height: 10000 },
                    },
                )
                &&& (dr < h && dl >= h && dt >= v && db >= v) ==> r == Some(
                    SnapIntent::Tile {
                        target: SnapTarget::RightHalf,
                        slot: NormalizedRect { x: 5000, y: 0, width: 5000, height: 10000 },
                    },
                )
                &&& (dt < v && dl >= h && dr >= h) ==> r == Some(SnapIntent::ShowLayoutChoices)
                &&& (dl >= h && dr >= h && dt >= v && db >= v) ==> r is None
            }
        }),
{
}

/// On an area wider and taller than two edge bands, a tile intent's slot
/// holds the pointer: the pointer's offset into the area, as a fraction of
/// the area, lies inside the slot (in ten-thousandths), so the window is
/// snapped to the part of the output the pointer is in.
pub proof fn lemma_tile_holds_pointer(d: SnapDetector, area: OutputArea, p: Point)
    requires
        2 * d.threshold() <= area.geometry.width,
        2 * d.threshold() <= area.geometry.height,
    ensures
        d.spec_detect(area, p) matches Some(SnapIntent::Tile { target, slot }) ==> {
            let g = area.geometry;
            &&& slot.x * g.width <= (p.x - g.x) * 10000
            &&& (p.x - g.x) * 10000 < (slot.x + slot.width) * g.width
            &&& slot.y * g.height <= (p.y - g.y) * 10000
            &&& (p.y - g.y) * 10000 < (slot.y + slot.height) * g.height
        },
{
    lemma_detect_regions(d, area, p);
    let g = area.geometry;
    let w = g.width as int;
    let ht = g.height as int;
    let dx = p.x - g.x;
    let dy = p.y - g.y;
    let h = edge_band(d.threshold(), g.width);
    let v = edge_band(d.threshold(), g.height);
    assert(2 * h <= w || h == 0);
    assert(2 * v <= ht || v == 0);
    if let Some(SnapIntent::Tile { target, slot }) = d.spec_detect(area, p) {
        assert(0 <= dx < w && 0 <= dy < ht);
        assert(slot == snap_slot(target));
        let sx = slot.x as int;
        let sw = slot.width as int;
        let sy = slot.y as int;
        let sh = slot.height as int;
        if sx == 0 {
            assert(dx < h);
            assert(sx * w == 0);
            assert((sx + sw) * w == 5000 * w);
        } else {
            assert(w - 1 - dx < h);
            assert(sx * w == 5000 * w);
            assert((sx + sw) * w == 10000 * w);
        }
        if sy == 0 && sh == 10000 {
            assert(sy * ht == 0);
            assert((sy + sh) * ht == 10000 * ht);
        } else if sy == 0 {
            assert(dy < v);
            assert(sy * ht == 0);
            assert((sy + sh) * ht == 5000 * ht);
        } else {
            assert(ht - 1 - dy < v);
            assert(sy * ht == 5000 * ht);
            assert((sy + sh) * ht == 10000 * ht);
        }
    }
}

fn band(threshold: u32, size: u32) -> (r: u32)
    ensures
        r == edge_band(threshold, size),
{
    let limit = if size <= 1 {
        1
    } else {
        size - 1
    };
    if threshold < limit {
        threshold
    } else {
        limit
    }
}

/// The intent that tiles into a direct snap destination.
pub open spec fn tile_intent_spec(target: SnapTarget) -> SnapIntent {
    SnapIntent::Tile { target, slot: snap_slot(target) }
}

fn tile_intent(target: SnapTarget) -> (r: SnapIntent)
    ensures
        r == tile_intent_spec(target),
{
    let slot = match target {
        SnapTarget::LeftHalf => NormalizedRect::new(0, 0, 5000, 10000),
        SnapTarget::RightHalf => NormalizedRect::new(5000, 0, 5000, 10000),
        SnapTarget::TopLeftQuarter => NormalizedRect::new(0, 0, 5000, 5000),
        SnapTarget::TopRightQuarter => NormalizedRect::new(5000, 0, 5000, 5000),
        SnapTarget::BottomLeftQuarter => NormalizedRect::new(0, 5000, 5000, 5000),
        SnapTarget::BottomRightQuarter => NormalizedRect::new(5000, 5000, 5000, 5000),
    };
    match slot {
        Ok(slot) => SnapIntent::Tile { target, slot },
        Err(_) => SnapIntent::Tile { target, slot: NormalizedRect::full() },
    }
}

} // verus!
