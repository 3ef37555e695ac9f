//! Normalized layout model and the deterministic geometry solver of the
//! assisted tiling engine.

use crate::wm::{Geometry, GeometryError, SizeConstraints};
use vstd::prelude::*;

verus! {

/// Fixed-point scale of layout slots: ten thousand units are the whole area.
pub const NORMALIZED_SCALE: u32 = 10000;

/// A rectangle in fixed-point coordinates inside an output work area.
#[derive(Clone, Copy, Debug, PartialEq, Eq, PartialOrd, Ord, Structural)]
pub struct NormalizedRect {
    pub x: u16,
    pub y: u16,
    pub width: u16,
    pub height: u16,
}

/// Errors reported before any window state changes.
#[derive(Clone, Copy, Debug, PartialEq, Eq, Structural)]
pub enum LayoutError {
    EmptyLayout,
    EmptySlot,
    SlotOutsideNormalizedArea,
    OverlappingSlots,
    InvalidColumnCount,
    ZeroPixelSlot,
    MinimumSizeDoesNotFit,
    CoordinateOverflow,
    Geometry(GeometryError),
}

impl NormalizedRect {
    /// Creates a slot; empty slots and slots leaving the normalized area are
    /// refused.
    pub fn new(x: u16, y: u16, width: u16, height: u16) -> (r: Result<Self, LayoutError>)
        ensures
            r == if width == 0 || height == 0 {
                Err(LayoutError::EmptySlot)
            } else if x + width > NORMALIZED_SCALE || y + height > NORMALIZED_SCALE {
                Err(LayoutError::SlotOutsideNormalizedArea)
            } else {
                Ok(NormalizedRect { x, y, width, height })
            },
    {
        let right = x as u32 + width as u32;
        let bottom = y as u32 + height as u32;
        if width == 0 || height == 0 {
            return Err(LayoutError::EmptySlot);
        }
        if right > NORMALIZED_SCALE || bottom > NORMALIZED_SCALE {
            return Err(LayoutError::SlotOutsideNormalizedArea);
        }
        Ok(NormalizedRect { x, y, width, height })
    }

    /// The slot covering the whole work area.
    pub fn full() -> (r: Self)
        ensures
            r == (NormalizedRect { x: 0, y: 0, width: 10000, height: 10000 }),
    {
        NormalizedRect { x: 0, y: 0, width: 10000, height: 10000 }
    }
}

/// Two slots share some area.
pub open spec fn overlaps(a: NormalizedRect, b: NormalizedRect) -> bool {
    &&& a.x < b.x + b.width
    &&& b.x < a.x + a.width
    &&& a.y < b.y + b.height
    &&& b.y < a.y + a.height
}

/// No two slots of the sequence overlap.
pub open spec fn pairwise_disjoint(s: Seq<NormalizedRect>) -> bool {
    forall|i: int, j: int| 0 <= i < j < s.len() ==> !overlaps(#[trigger] s[i], #[trigger] s[j])
}

fn rectangles_overlap(first: NormalizedRect, second: NormalizedRect) -> (r: bool)
    ensures
        r == overlaps(first, second),
{
    let first_right = first.x as u32 + first.width as u32;
    let second_right = second.x as u32 + second.width as u32;
    let first_bottom = first.y as u32 + first.height as u32;
    let second_bottom = second.y as u32 + second.height as u32;
    (first.x as u32) < second_right && (second.x as u32) < first_right && (first.y as u32)
        < second_bottom && (second.y as u32) < first_bottom
}

/// Column `c` of `n` equal columns, with boundaries at cumulative fractions.
pub open spec fn column_slot(n: int, c: int) -> NormalizedRect {
    let left = NORMALIZED_SCALE * c / n;
    let right = NORMALIZED_SCALE * (c + 1) / n;
    NormalizedRect { x: left as u16, y: 0, width: (right - left) as u16, height: 10000 }
}

/// Ordered, non-overlapping tile slots of one workspace layout.
#[derive(Debug, PartialEq, Eq)]
pub struct LayoutSpec {
    slots: Vec<NormalizedRect>,
}

impl LayoutSpec {
    #[verifier::type_invariant]
    spec fn slots_valid(self) -> bool {
        self.slots@.len() > 0 && pairwise_disjoint(self.slots@)
    }

    /// The slots, in order.
    pub closed spec fn spec_slots(&self) -> Seq<NormalizedRect> {
        self.slots@
    }

    /// Creates a layout; an empty one or one with overlapping slots is refused.
    pub fn new(slots: Vec<NormalizedRect>) -> (r: Result<Self, LayoutError>)
        ensures
            slots@.len() == 0 ==> r == Err::<LayoutSpec, LayoutError>(LayoutError::EmptyLayout),
            slots@.len() > 0 && !pairwise_disjoint(slots@) ==> r == Err::<LayoutSpec, LayoutError>(
                LayoutError::OverlappingSlots,
            ),
            slots@.len() > 0 && pairwise_disjoint(slots@) ==> (r matches Ok(l) && l.spec_slots()
                == slots@),
    {
        if slots.len() == 0 {
            return Err(LayoutError::EmptyLayout);
        }
        let n = slots.len();
        let mut i: usize = 0;
        while i < n
            invariant
                n == slots@.len(),
                i <= n,
                forall|a: int, b: int| 0 <= a < b < n && a < i ==> !overlaps(#[trigger] slots@[a], #[trigger] slots@[b]),
            decreases n - i,
        {
            let mut j: usize = i + 1;
            while j < n
                invariant
                    n == slots@.len(),
                    i < n,
                    i + 1 <= j <= n,
                    forall|a: int, b: int| 0 <= a < b < n && a < i ==> !overlaps(#[trigger] slots@[a], #[trigger] slots@[b]),
                    forall|b: int| i < b < j ==> !overlaps(slots@[i as int], #[trigger] slots@[b]),
                decreases n - j,
            {
                if rectangles_overlap(slots[i], slots[j]) {
                    return Err(LayoutError::OverlappingSlots);
                }
                j = j + 1;
            }
            i = i + 1;
        }
        Ok(LayoutSpec { slots })
    }

    /// Equal-width columns covering the whole normalized width with no gap.
    pub fn balanced_columns(columns: u16) -> (r: Result<Self, LayoutError>)
        ensures
            (columns == 0 || columns > NORMALIZED_SCALE) ==> r == Err::<LayoutSpec, LayoutError>(
                LayoutError::InvalidColumnCount,
            ),
            (0 < columns <= NORMALIZED_SCALE) ==> (r matches Ok(l) && l.spec_slots() == Seq::new(
                columns as nat,
                |c: int| column_slot(columns as int, c),
            )),
    {
        if columns == 0 {
            return Err(LayoutError::InvalidColumnCount);
        }
        if columns as u32 > NORMALIZED_SCALE {
            return Err(LayoutError::InvalidColumnCount);
        }
        let n = columns as u32;
        let ghost want = Seq::new(columns as nat, |c: int| column_slot(columns as int, c));
        let mut slots: Vec<NormalizedRect> = Vec::new();
        let mut column: u16 = 0;
        while column < columns
            invariant
                n == columns,
                0 < n <= NORMALIZED_SCALE,
                column <= columns,
                slots@ == want.take(column as int),
                want == Seq::new(columns as nat, |c: int| column_slot(columns as int, c)),
            decreases columns - column,
        {
            let c = column as u32;
            proof {
                lemma_column_bounds(n as int, c as int);
            }
            let left = NORMALIZED_SCALE * c / n;
            let right = NORMALIZED_SCALE * (c + 1) / n;
            let slot = match NormalizedRect::new(left as u16, 0, (right - left) as u16, 10000) {
                Ok(s) => s,
                Err(e) => return Err(e),
            };
            slots.push(slot);
            proof {
                assert(want.take(column + 1) =~= want.take(column as int).push(want[column as int]));
            }
            column = column + 1;
        }
        proof {
            assert(want.take(columns as int) =~= want);
            assert forall|a: int, b: int| 0 <= a < b < slots@.len() implies !overlaps(#[trigger] slots@[a], #[trigger] slots@[b]) by {
                lemma_column_bounds(n as int, a);
                lemma_column_bounds(n as int, b);
                lemma_columns_ordered(n as int, a + 1, b);
            }
        }
        LayoutSpec::new(slots)
    }

    pub fn slots(&self) -> (r: &[NormalizedRect])
        ensures
            r@ == self.spec_slots(),
    {
        self.slots.as_slice()
    }

    pub fn slot(&self, index: usize) -> (r: Option<NormalizedRect>)
        ensures
            r == if index < self.spec_slots().len() {
                Some(self.spec_slots()[index as int])
            } else {
                None::<NormalizedRect>
            },
    {
        if index < self.slots.len() {
            Some(self.slots[index])
        } else {
            None
        }
    }

    pub fn len(&self) -> (r: usize)
        ensures
            r == self.spec_slots().len(),
    {
        self.slots.len()
    }

    /// A layout always holds a slot, so this is false.
    pub fn is_empty(&self) -> (r: bool)
        ensures
            r == (self.spec_slots().len() == 0),
            !r,
    {
        proof {
            use_type_invariant(self);
        }
        self.slots.len() == 0
    }
}

proof fn lemma_column_bounds(n: int, c: int)
    requires
        0 < n <= 10000,
        0 <= c < n,
    ensures
        0 <= 10000 * c / n < 10000 * (c + 1) / n <= 10000,
        10000 * (c + 1) <= 100000000,
        column_slot(n, c).x == 10000 * c / n,
        column_slot(n, c).width == 10000 * (c + 1) / n - 10000 * c / n,
        column_slot(n, c).height == 10000,
        column_slot(n, c).y == 0,
{
    assert(10000 * c / n >= 0) by (nonlinear_arith)
        requires
            0 < n,
            0 <= c,
    ;
    assert(10000 * (c + 1) / n >= 10000 * c / n + 1) by (nonlinear_arith)
        requires
            0 < n <= 10000,
            0 <= c,
    {
        assert(10000 * (c + 1) == 10000 * c + 10000);
        vstd::arithmetic::div_mod::lemma_div_is_ordered(10000 * c + n, 10000 * c + 10000, n);
        vstd::arithmetic::div_mod::lemma_div_plus_one(10000 * c, n);
    }
    assert(10000 * (c + 1) / n <= 10000) by (nonlinear_arith)
        requires
            0 < n,
            0 <= c < n,
    {
        assert(10000 * (c + 1) <= 10000 * n);
        vstd::arithmetic::div_mod::lemma_div_is_ordered(10000 * (c + 1), 10000 * n, n);
        vstd::arithmetic::div_mod::lemma_div_multiples_vanish(10000int, n);
    }
    assert(10000 * (c + 1) <= 100000000) by (nonlinear_arith)
        requires
            c < n <= 10000,
    ;
}

proof fn lemma_columns_ordered(n: int, a: int, b: int)
    requires
        0 < n <= 10000,
        0 <= a <= b,
    ensures
        10000 * a / n <= 10000 * b / n,
{
    assert(10000 * a <= 10000 * b) by (nonlinear_arith)
        requires
            a <= b,
    ;
    vstd::arithmetic::div_mod::lemma_div_is_ordered(10000 * a, 10000 * b, n);
}

/// Physical output identifier; zero is reserved.
#[derive(Clone, Copy, Debug, PartialEq, Eq, Hash, PartialOrd, Ord, Structural)]
pub struct OutputId(u64);

#[derive(Clone, Copy, Debug, PartialEq, Eq, Structural)]
pub struct OutputIdError;

impl OutputId {
    #[verifier::type_invariant]
    spec fn nonzero(self) -> bool {
        self.0 != 0
    }

    pub closed spec fn value(self) -> u64 {
        self.0
    }

    pub fn new(value: u64) -> (r: Result<Self, OutputIdError>)
        ensures
            value == 0 <==> r is Err,
            r matches Ok(id) ==> id.value() == value,
    {
        if value == 0 {
            Err(OutputIdError)
        } else {
            Ok(OutputId(value))
        }
    }

    pub fn get(self) -> (r: u64)
        ensures
            r == self.value(),
            r != 0,
    {
        proof {
            use_type_invariant(&self);
        }
        self.0
    }
}

/// Usable output rectangle once panels and other reserved regions are removed.
#[derive(Clone, Copy, Debug, PartialEq, Eq, Structural)]
pub struct OutputArea {
    pub output: OutputId,
    pub geometry: Geometry,
}

impl OutputArea {
    pub fn new(output: OutputId, geometry: Geometry) -> (r: Self)
        ensures
            r == (OutputArea { output, geometry }),
    {
        OutputArea { output, geometry }
    }
}

/// Pixel offset of a normalized coordinate along a span of `total` pixels,
/// rounded to the nearest pixel (halves up).
pub open spec fn scaled(total: u32, normalized: int) -> int {
    (total * normalized + 5000) / (NORMALIZED_SCALE as int)
}

/// The size chosen inside a cell of `cell` pixels for the given bounds.
pub open spec fn fitted(cell: int, min: u32, max: Option<u32>) -> int {
    let capped = match max {
        Some(m) => if m < cell {
            m as int
        } else {
            cell
        },
        None => cell,
    };
    if capped < min {
        min as int
    } else {
        capped
    }
}

/// The geometry of a window fitted into a slot of an output work area: the
/// slot is converted to pixels, the size clamped to the constraints and the
/// window centred in the cell.
pub open spec fn fit_slot_spec(area: OutputArea, slot: NormalizedRect, c: SizeConstraints) -> Result<
    Geometry,
    LayoutError,
> {
    let g = area.geometry;
    if c.validation() is Err {
        Err(LayoutError::Geometry(c.validation()->Err_0))
    } else if slot.x + slot.width > u16::MAX || slot.y + slot.height > u16::MAX {
        Err(LayoutError::SlotOutsideNormalizedArea)
    } else {
        let left = scaled(g.width, slot.x as int);
        let right = scaled(g.width, slot.x + slot.width);
        let top = scaled(g.height, slot.y as int);
        let bottom = scaled(g.height, slot.y + slot.height);
        let cell_width = right - left;
        let cell_height = bottom - top;
        if cell_width <= 0 || cell_height <= 0 {
            Err(LayoutError::ZeroPixelSlot)
        } else if cell_width > u32::MAX || cell_height > u32::MAX {
            Err(LayoutError::CoordinateOverflow)
        } else if c.min_width > cell_width || c.min_height > cell_height {
            Err(LayoutError::MinimumSizeDoesNotFit)
        } else {
            let width = fitted(cell_width, c.min_width, c.max_width);
            let height = fitted(cell_height, c.min_height, c.max_height);
            let x = g.x + left + (cell_width - width) / 2;
            let y = g.y + top + (cell_height - height) / 2;
            if x < i32::MIN || x > i32::MAX || y < i32::MIN || y > i32::MAX {
                Err(LayoutError::CoordinateOverflow)
            } else {
                Ok(Geometry { x: x as i32, y: y as i32, width: width as u32, height: height as u32 })
            }
        }
    }
}

/// A window fitted into a slot lies inside the slot's pixel cell (the slot's
/// edges scaled to the area and rounded to the nearest pixel), centred in it
/// (the space left over split evenly, an odd pixel going after the window),
/// and is as large as the cell and its maximum allow, never under its
/// minimum.
pub proof fn lemma_fit_in_cell(area: OutputArea, slot: NormalizedRect, c: SizeConstraints)
    ensures
        fit_slot_spec(area, slot, c) matches Ok(r) ==> {
            let g = area.geometry;
            let cl = g.x + (g.width * slot.x + 5000) / 10000;
            let cr = g.x + (g.width * (slot.x + slot.width) + 5000) / 10000;
            let ct = g.y + (g.height * slot.y + 5000) / 10000;
            let cb = g.y + (g.height * (slot.y + slot.height) + 5000) / 10000;
            &&& cl <= r.x && r.x + r.width <= cr
            &&& ct <= r.y && r.y + r.height <= cb
            &&& r.x - cl <= cr - (r.x + r.width) <= r.x - cl + 1
            &&& r.y - ct <= cb - (r.y + r.height) <= r.y - ct + 1
            &&& c.min_width <= r.width && c.min_height <= r.height
            &&& r.width == (match c.max_width {
                Some(m) => if m < cr - cl { m as int } else { cr - cl },
                None => cr - cl,
            })
            &&& r.height == (match c.max_height {
                Some(m) => if m < cb - ct { m as int } else { cb - ct },
                None => cb - ct,
            })
        },
{
}

proof fn lemma_scaled_monotone(total: u32, a: int, b: int)
    requires
        0 <= a <= b <= 10000,
    ensures
        0 <= (total * a + 5000) / 10000 <= (total * b + 5000) / 10000 <= total,
{
    assert(0 <= total * a <= total * b <= total * 10000) by (nonlinear_arith)
        requires
            0 <= a <= b <= 10000,
            0 <= total,
    ;
    vstd::arithmetic::div_mod::lemma_div_is_ordered(total * a + 5000, total * b + 5000, 10000);
    vstd::arithmetic::div_mod::lemma_div_is_ordered(total * b + 5000, total * 10000 + 5000, 10000);
    vstd::arithmetic::div_mod::lemma_div_pos_is_pos(total * a + 5000, 10000);
    assert((total * 10000 + 5000) / 10000 == total as int) by (nonlinear_arith)
        requires
            0 <= total,
    ;
}

/// A slot inside the normalized area of an area that lies in the coordinate
/// range is fitted whenever the constraints are valid, the slot covers at
/// least one pixel each way and the minimum size fits in it; a slot that
/// covers no pixel is refused as such.
pub proof fn lemma_fit_succeeds(area: OutputArea, slot: NormalizedRect, c: SizeConstraints)
    requires
        slot.x + slot.width <= 10000,
        slot.y + slot.height <= 10000,
        area.geometry.x + area.geometry.width <= i32::MAX,
        area.geometry.y + area.geometry.height <= i32::MAX,
    ensures
        ({
            let g = area.geometry;
            let cw = (g.width * (slot.x + slot.width) + 5000) / 10000 - (g.width * slot.x + 5000) / 10000;
            let ch = (g.height * (slot.y + slot.height) + 5000) / 10000 - (g.height * slot.y + 5000) / 10000;
            let r = fit_slot_spec(area, slot, c);
            &&& (c.validation() is Ok && cw > 0 && ch > 0 && c.min_width <= cw && c.min_height <= ch) ==> r is Ok
            &&& (c.validation() is Ok && (cw <= 0 || ch <= 0)) ==> r == Err::<Geometry, LayoutError>(
                LayoutError::ZeroPixelSlot,
            )
            &&& (c.validation() is Ok && cw > 0 && ch > 0 && (c.min_width > cw || c.min_height > ch)) ==> r
                == Err::<Geometry, LayoutError>(LayoutError::MinimumSizeDoesNotFit)
        }),
{
    let g = area.geometry;
    lemma_scaled_monotone(g.width, slot.x as int, slot.x + slot.width);
    lemma_scaled_monotone(g.height, slot.y as int, slot.y + slot.height);
    lemma_fit_in_cell(area, slot, c);
}

fn scaled_edge(total: u32, normalized: u16) -> (r: u64)
    ensures
        r == scaled(total, normalized as int),
{
    proof {
        assert(total * normalized <= 0xffff_ffff * 0xffff) by (nonlinear_arith)
            requires
                total <= 0xffff_ffff,
                normalized <= 0xffff,
        ;
    }
    ((total as u64) * (normalized as u64) + 5000) / (NORMALIZED_SCALE as u64)
}

/// Converts one slot to pixels and applies the window's size bounds without
/// letting the window leave the slot.
pub(crate) fn fit_slot(area: OutputArea, slot: NormalizedRect, constraints: SizeConstraints) -> (r:
    Result<Geometry, LayoutError>)
    ensures
        r == fit_slot_spec(area, slot, constraints),
{
    match constraints.validate() {
        Ok(()) => {},
        Err(e) => return Err(LayoutError::Geometry(e)),
    }
    let g = area.geometry;
    let x_end = slot.x as u32 + slot.width as u32;
    let y_end = slot.y as u32 + slot.height as u32;
    if x_end > 0xffff || y_end > 0xffff {
        return Err(LayoutError::SlotOutsideNormalizedArea);
    }
    let left = scaled_edge(g.width, slot.x);
    let right = scaled_edge(g.width, x_end as u16);
    let top = scaled_edge(g.height, slot.y);
    let bottom = scaled_edge(g.height, y_end as u16);
    proof {
        assert(g.width * 0xffff / 10000 <= 0xffff_ffff * 0xffff) by (nonlinear_arith)
            requires
                g.width <= 0xffff_ffff,
        ;
        assert(g.height * 0xffff / 10000 <= 0xffff_ffff * 0xffff) by (nonlinear_arith)
            requires
                g.height <= 0xffff_ffff,
        ;
        lemma_scaled_le(g.width, x_end as int);
        lemma_scaled_le(g.height, y_end as int);
        lemma_scaled_le(g.width, slot.x as int);
        lemma_scaled_le(g.height, slot.y as int);
    }
    if right < left || bottom < top {
        return Err(LayoutError::ZeroPixelSlot);
    }
    let cell_width = right - left;
    let cell_height = bottom - top;
    if cell_width == 0 || cell_height == 0 {
        return Err(LayoutError::ZeroPixelSlot);
    }
    if cell_width > 0xffff_ffff || cell_height > 0xffff_ffff {
        return Err(LayoutError::CoordinateOverflow);
    }
    let cell_width = cell_width as u32;
    let cell_height = cell_height as u32;
    if constraints.min_width > cell_width || constraints.min_height > cell_height {
        return Err(LayoutError::MinimumSizeDoesNotFit);
    }
    let capped_width = match constraints.max_width {
        Some(m) => if m < cell_width {
            m
        } else {
            cell_width
        },
        None => cell_width,
    };
    let width = if capped_width < constraints.min_width {
        constraints.min_width
    } else {
        capped_width
    };
    let capped_height = match constraints.max_height {
        Some(m) => if m < cell_height {
            m
        } else {
            cell_height
        },
        None => cell_height,
    };
    let height = if capped_height < constraints.min_height {
        constraints.min_height
    } else {
        capped_height
    };
    let x = g.x as i64 + left as i64 + ((cell_width - width) / 2) as i64;
    let y = g.y as i64 + top as i64 + ((cell_height - height) / 2) as i64;
    if x < -2147483648 || x > 2147483647 || y < -2147483648 || y > 2147483647 {
        return Err(LayoutError::CoordinateOverflow);
    }
    match Geometry::new(x as i32, y as i32, width, height) {
        Ok(geometry) => Ok(geometry),
        Err(e) => Err(LayoutError::Geometry(e)),
    }
}

proof fn lemma_scaled_le(total: u32, n: int)
    requires
        0 <= n <= 0xffff,
    ensures
        0 <= scaled(total, n) <= (0xffff_ffff * 0xffff + 5000) / 10000,
{
    assert(0 <= total * n <= 0xffff_ffff * 0xffff) by (nonlinear_arith)
        requires
            total <= 0xffff_ffff,
            0 <= n <= 0xffff,
    ;
    vstd::arithmetic::div_mod::lemma_div_is_ordered(
        total * n + 5000,
        0xffff_ffffint * 0xffffint + 5000,
        10000int,
    );
    vstd::arithmetic::div_mod::lemma_div_pos_is_pos(total * n + 5000, 10000int);
}

} // verus!
