//! The integer side of the UI core: colors and the opaque-surface rule,
//! physical rectangles, image buffers, widget identity and normalized input.
//! Logical geometry, layout and rendering work in floating point and are
//! kept by the caller.

use crate::assets::continuation;
use vstd::prelude::*;

verus! {

/// Straight-alpha RGBA color.
#[derive(Clone, Copy, Debug, PartialEq, Eq, Structural)]
pub struct Color {
    pub r: u8,
    pub g: u8,
    pub b: u8,
    pub a: u8,
}

impl Color {
    pub fn rgb(r: u8, g: u8, b: u8) -> (c: Self)
        ensures
            c == (Color { r, g, b, a: 255 }),
    {
        Color { r, g, b, a: 255 }
    }

    pub fn rgba(r: u8, g: u8, b: u8, a: u8) -> (c: Self)
        ensures
            c == (Color { r, g, b, a }),
    {
        Color { r, g, b, a }
    }

    pub fn is_opaque(self) -> (r: bool)
        ensures
            r == (self.a == 255),
    {
        self.a == 255
    }
}

/// Semantic palette. Structural surfaces are opaque.
#[derive(Clone, Copy, Debug, PartialEq, Eq, Structural)]
pub struct Palette {
    pub background: Color,
    pub surface: Color,
    pub surface_alt: Color,
    pub border: Color,
    pub text: Color,
    pub text_muted: Color,
    pub accent: Color,
    pub accent_text: Color,
    pub danger: Color,
    pub selection: Color,
}

impl Default for Palette {
    fn default() -> (p: Self)
        ensures
            p.background == (Color { r: 12, g: 15, b: 16, a: 255 }),
            p.surface == (Color { r: 20, g: 24, b: 25, a: 255 }),
            p.surface_alt == (Color { r: 29, g: 34, b: 35, a: 255 }),
            p.border == (Color { r: 58, g: 66, b: 67, a: 255 }),
            p.text == (Color { r: 238, g: 242, b: 242, a: 255 }),
            p.text_muted == (Color { r: 164, g: 174, b: 174, a: 255 }),
            p.accent == (Color { r: 39, g: 190, b: 98, a: 255 }),
            p.accent_text == (Color { r: 6, g: 17, b: 10, a: 255 }),
            p.danger == (Color { r: 220, g: 76, b: 76, a: 255 }),
            p.selection == (Color { r: 35, g: 110, b: 64, a: 255 }),
    {
        Palette {
            background: Color::rgb(12, 15, 16),
            surface: Color::rgb(20, 24, 25),
            surface_alt: Color::rgb(29, 34, 35),
            border: Color::rgb(58, 66, 67),
            text: Color::rgb(238, 242, 242),
            text_muted: Color::rgb(164, 174, 174),
            accent: Color::rgb(39, 190, 98),
            accent_text: Color::rgb(6, 17, 10),
            danger: Color::rgb(220, 76, 76),
            selection: Color::rgb(35, 110, 64),
        }
    }
}

#[derive(Clone, Copy, Debug, PartialEq, Eq)]
pub enum ThemeError {
    TranslucentSurface(&'static str),
    EmptyFontFamily,
    InvalidTypographyMetrics,
}

/// Structural surfaces must be opaque; the first translucent one, in the
/// order background, surface, alternate surface, is reported.
pub fn validate_surfaces(palette: Palette) -> (r: Result<(), ThemeError>)
    ensures
        palette.background.a != 255 ==> (r matches Err(ThemeError::TranslucentSurface(n)) && n@
            == "background"@),
        palette.background.a == 255 && palette.surface.a != 255 ==> (r matches Err(
            ThemeError::TranslucentSurface(n),
        ) && n@ == "surface"@),
        palette.background.a == 255 && palette.surface.a == 255 && palette.surface_alt.a != 255 ==> (
        r matches Err(ThemeError::TranslucentSurface(n)) && n@ == "surface_alt"@),
        palette.background.a == 255 && palette.surface.a == 255 && palette.surface_alt.a == 255
            ==> r is Ok,
{
    if !palette.background.is_opaque() {
        return Err(ThemeError::TranslucentSurface("background"));
    }
    if !palette.surface.is_opaque() {
        return Err(ThemeError::TranslucentSurface("surface"));
    }
    if !palette.surface_alt.is_opaque() {
        return Err(ThemeError::TranslucentSurface("surface_alt"));
    }
    Ok(())
}

/// Physical framebuffer size.
#[derive(Clone, Copy, Debug, PartialEq, Eq, Structural)]
pub struct PhysicalSize {
    pub width: u32,
    pub height: u32,
}

/// Physical integer rectangle.
#[derive(Clone, Copy, Debug, PartialEq, Eq, Structural)]
pub struct PhysicalRect {
    pub x: i32,
    pub y: i32,
    pub width: u32,
    pub height: u32,
}

pub open spec fn max_int(a: int, b: int) -> int {
    if a >= b {
        a
    } else {
        b
    }
}

pub open spec fn min_int(a: int, b: int) -> int {
    if a <= b {
        a
    } else {
        b
    }
}

/// The overlap of two rectangles, when it is not empty.
pub open spec fn spec_intersection(a: PhysicalRect, b: PhysicalRect) -> Option<PhysicalRect> {
    let left = max_int(a.x as int, b.x as int);
    let top = max_int(a.y as int, b.y as int);
    let right = min_int(a.x + a.width, b.x + b.width);
    let bottom = min_int(a.y + a.height, b.y + b.height);
    if right > left && bottom > top {
        Some(
            PhysicalRect {
                x: left as i32,
                y: top as i32,
                width: (right - left) as u32,
                height: (bottom - top) as u32,
            },
        )
    } else {
        None
    }
}

impl PhysicalRect {
    pub fn new(x: i32, y: i32, width: u32, height: u32) -> (r: Self)
        ensures
            r == (PhysicalRect { x, y, width, height }),
    {
        PhysicalRect { x, y, width, height }
    }

    pub fn intersection(self, other: Self) -> (r: Option<Self>)
        ensures
            r == spec_intersection(self, other),
    {
        let left: i64 = if self.x >= other.x { self.x as i64 } else { other.x as i64 };
        let top: i64 = if self.y >= other.y { self.y as i64 } else { other.y as i64 };
        let r1 = self.x as i64 + self.width as i64;
        let r2 = other.x as i64 + other.width as i64;
        let right: i64 = if r1 <= r2 { r1 } else { r2 };
        let b1 = self.y as i64 + self.height as i64;
        let b2 = other.y as i64 + other.height as i64;
        let bottom: i64 = if b1 <= b2 { b1 } else { b2 };
        if right > left && bottom > top {
            Some(PhysicalRect::new(left as i32, top as i32, (right - left) as u32, (bottom - top) as u32))
        } else {
            None
        }
    }
}

/// The overlap lies inside both rectangles.
pub proof fn lemma_intersection_inside(a: PhysicalRect, b: PhysicalRect)
    ensures
        spec_intersection(a, b) matches Some(r) ==> (a.x <= r.x && b.x <= r.x && r.x + r.width <= a.x
            + a.width && r.x + r.width <= b.x + b.width && a.y <= r.y && b.y <= r.y && r.y + r.height
            <= a.y + a.height && r.y + r.height <= b.y + b.height),
        spec_intersection(a, b) == spec_intersection(b, a),
{
}

#[derive(Clone, Debug, PartialEq, Eq)]
pub enum RenderError {
    SizeOverflow,
    InvalidImageData { expected: usize, actual: usize },
    ClipStackUnderflow,
    Svg(String),
}

/// Immutable straight-alpha RGBA8 image, row-major.
#[derive(Clone, Debug, PartialEq, Eq)]
pub struct ImageData {
    pub width: u32,
    pub height: u32,
    pub pixels: Vec<u8>,
}

impl ImageData {
    /// An image whose buffer holds exactly four bytes per pixel.
    pub fn new(width: u32, height: u32, pixels: Vec<u8>) -> (r: Result<Self, RenderError>)
        ensures
            width * height * 4 > usize::MAX ==> r == Err::<ImageData, RenderError>(RenderError::SizeOverflow),
            width * height * 4 <= usize::MAX && pixels@.len() != width * height * 4 ==> r == Err::<
                ImageData,
                RenderError,
            >(RenderError::InvalidImageData { expected: (width * height * 4) as usize, actual: pixels@.len() as usize }),
            width * height * 4 <= usize::MAX && pixels@.len() == width * height * 4 ==> (r matches Ok(i)
                && i.width == width && i.height == height && i.pixels@ == pixels@),
    {
        let w = width as u128;
        let h = height as u128;
        assert(w * h <= 0xffff_ffffu128 * 0xffff_ffffu128) by (nonlinear_arith)
            requires
                w <= 0xffff_ffffu128,
                h <= 0xffff_ffffu128,
        ;
        let total = w * h * 4;
        if total > usize::MAX as u128 {
            return Err(RenderError::SizeOverflow);
        }
        let expected = total as usize;
        if pixels.len() != expected {
            return Err(RenderError::InvalidImageData { expected, actual: pixels.len() });
        }
        Ok(ImageData { width, height, pixels })
    }
}

/// A rendered straight-alpha RGBA8 frame.
#[derive(Clone, Debug, PartialEq, Eq)]
pub struct Frame {
    pub size: PhysicalSize,
    pub stride: usize,
    pub pixels: Vec<u8>,
}

impl Frame {
    /// A cleared frame of the given size, four bytes per pixel.
    pub fn blank(size: PhysicalSize) -> (r: Result<Self, RenderError>)
        ensures
            size.width * 4 > usize::MAX || size.width * size.height * 4 > usize::MAX ==> r == Err::<
                Frame,
                RenderError,
            >(RenderError::SizeOverflow),
            size.width * 4 <= usize::MAX && size.width * size.height * 4 <= usize::MAX ==> (r matches Ok(f) && f.size == size && f.stride
                == size.width * 4 && f.pixels@.len() == size.width * size.height * 4 && forall|i: int|
                0 <= i < f.pixels@.len() ==> f.pixels@[i] == 0),
    {
        let w = size.width as u128;
        let h = size.height as u128;
        assert(w * h <= 0xffff_ffffu128 * 0xffff_ffffu128) by (nonlinear_arith)
            requires
                w <= 0xffff_ffffu128,
                h <= 0xffff_ffffu128,
        ;
        let total = w * h * 4;
        if w * 4 > usize::MAX as u128 || total > usize::MAX as u128 {
            return Err(RenderError::SizeOverflow);
        }
        let len = total as usize;
        let stride = (w * 4) as usize;
        let mut pixels: Vec<u8> = Vec::new();
        let mut i: usize = 0;
        while i < len
            invariant
                i <= len,
                pixels@.len() == i,
                forall|j: int| 0 <= j < i ==> pixels@[j] == 0,
            decreases len - i,
        {
            pixels.push(0);
            i = i + 1;
        }
        Ok(Frame { size, stride, pixels })
    }
}

/// Stable identifier of a widget, allocated by the widget tree.
#[derive(Clone, Copy, Debug, PartialEq, Eq, Hash, PartialOrd, Ord, Structural)]
pub struct WidgetId(pub u64);

#[derive(Clone, Copy, Debug, PartialEq, Eq, Structural)]
pub struct Modifiers {
    pub shift: bool,
    pub control: bool,
    pub alt: bool,
    pub super_key: bool,
}

impl Default for Modifiers {
    fn default() -> (r: Self)
        ensures
            !r.shift && !r.control && !r.alt && !r.super_key,
    {
        Modifiers { shift: false, control: false, alt: false, super_key: false }
    }
}

#[derive(Clone, Copy, Debug, PartialEq, Eq, Structural)]
pub enum PointerButton {
    Primary,
    Secondary,
    Middle,
    Other(u16),
}

#[derive(Clone, Copy, Debug, PartialEq, Eq, Structural)]
pub enum Key {
    Tab,
    Enter,
    Space,
    Escape,
    Backspace,
    Delete,
    ArrowLeft,
    ArrowRight,
    ArrowUp,
    ArrowDown,
    Home,
    End,
}

#[derive(Clone, Copy, Debug, PartialEq, Eq, Structural)]
pub enum Axis {
    Horizontal,
    Vertical,
}

#[derive(Clone, Copy, Debug, PartialEq, Eq, Structural)]
pub enum AccessibilityRole {
    Window,
    Group,
    Label,
    Button,
    ToggleButton,
    CheckBox,
    TextField,
    List,
    ListItem,
    ScrollArea,
    Menu,
    MenuItem,
    Dialog,
    TabList,
    Tab,
}

/// Frame extents published to the window system, in physical pixels.
#[derive(Clone, Copy, Debug, PartialEq, Eq, Structural)]
pub struct FrameExtents {
    pub left: u32,
    pub right: u32,
    pub top: u32,
    pub bottom: u32,
}

/// The next widget to focus when cycling through `count` focusable widgets,
/// forwards or backwards, from the current position if there is one.
pub fn next_focus_index(count: usize, current: Option<usize>, reverse: bool) -> (r: usize)
    requires
        count > 0,
        current matches Some(i) ==> i < count,
    ensures
        r < count,
        r == match (current, reverse) {
            (Some(i), true) => if i == 0 { (count - 1) as usize } else { (i - 1) as usize },
            (None, true) => (count - 1) as usize,
            (Some(i), false) => ((i + 1) % (count as int)) as usize,
            (None, false) => 0,
        },
{
    match (current, reverse) {
        (Some(0), true) | (None, true) => count - 1,
        (Some(index), true) => index - 1,
        (Some(index), false) => (index + 1) % count,
        (None, false) => 0,
    }
}


/// Whether byte offset `i` of UTF-8 text starts a character or ends the text.
pub open spec fn char_boundary(t: Seq<u8>, i: int) -> bool {
    i == 0 || i == t.len() || (0 < i < t.len() && !continuation(t[i]))
}

/// The offset of the character before the cursor: the last boundary before
/// it, or zero at the start.
pub open spec fn boundary_before(t: Seq<u8>, c: int) -> int
    decreases c,
{
    if c <= 0 {
        0
    } else if char_boundary(t, c - 1) {
        c - 1
    } else {
        boundary_before(t, c - 1)
    }
}

/// The first boundary at or after `i`.
pub open spec fn boundary_from(t: Seq<u8>, i: int) -> int
    decreases t.len() - i,
{
    if i >= t.len() {
        t.len() as int
    } else if char_boundary(t, i) {
        i
    } else {
        boundary_from(t, i + 1)
    }
}

/// Where moving one character left from a cursor on a boundary lands,
/// counting a cursor past the end as at the end.
pub fn previous_boundary(text: &[u8], cursor: usize) -> (r: usize)
    requires
        char_boundary(text@, if cursor < text@.len() { cursor as int } else { text@.len() as int }),
    ensures
        r == boundary_before(text@, if cursor < text@.len() { cursor as int } else { text@.len() as int }),
{
    let c = if cursor < text.len() {
        cursor
    } else {
        text.len()
    };
    let mut i: usize = c;
    while i > 0
        invariant
            i <= c <= text@.len(),
            c as int == (if cursor < text@.len() { cursor as int } else { text@.len() as int }),
            boundary_before(text@, c as int) == boundary_before(text@, i as int),
        decreases i,
    {
        let j = i - 1;
        if j == 0 || !(0x80 <= text[j] && text[j] <= 0xBF) {
            return j;
        }
        i = j;
    }
    0
}

/// Where moving one character right lands: past the character that starts at
/// the first boundary at or after the cursor, or the end of the text.
pub fn next_boundary(text: &[u8], cursor: usize) -> (r: usize)
    ensures
        r == if cursor >= text@.len() {
            text@.len() as int
        } else if boundary_from(text@, cursor as int) >= text@.len() {
            text@.len() as int
        } else {
            boundary_from(text@, boundary_from(text@, cursor as int) + 1)
        },
{
    let n = text.len();
    if cursor >= n {
        return n;
    }
    let index = first_boundary_from(text, cursor);
    if index >= n {
        return n;
    }
    first_boundary_from(text, index + 1)
}

fn first_boundary_from(text: &[u8], start: usize) -> (r: usize)
    requires
        start <= text@.len(),
    ensures
        r == boundary_from(text@, start as int),
{
    let n = text.len();
    let mut i: usize = start;
    while i < n
        invariant
            start <= i <= n,
            n == text@.len(),
            boundary_from(text@, start as int) == boundary_from(text@, i as int),
        decreases n - i,
    {
        if i == 0 || !(0x80 <= text[i] && text[i] <= 0xBF) {
            return i;
        }
        i = i + 1;
    }
    n
}

/// Whether a pixel lies in a rectangle.
pub open spec fn covers(r: PhysicalRect, px: int, py: int) -> bool {
    r.x <= px < r.x + r.width && r.y <= py < r.y + r.height
}

/// The intersection of two rectangles covers exactly the pixels both cover,
/// and there is none exactly when no pixel is covered by both.
pub proof fn lemma_intersection_pixels(a: PhysicalRect, b: PhysicalRect, px: int, py: int)
    ensures
        spec_intersection(a, b) matches Some(r) ==> (covers(r, px, py) <==> covers(a, px, py) && covers(b, px, py)),
        spec_intersection(a, b) is None ==> !(covers(a, px, py) && covers(b, px, py)),
{
}

} // verus!
