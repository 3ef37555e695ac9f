//! Backend-agnostic window state: identifiers, geometry, constraints, logical
//! windows and the deterministic window-manager state machine.

use crate::backend_api::BackendError;
use crate::core_types::ModuleId;
use vstd::prelude::*;

verus! {

/// Internal window identifier. Zero is reserved as an invalid sentinel.
#[derive(Clone, Copy, Debug, PartialEq, Eq, Hash, PartialOrd, Ord, Structural)]
pub struct WindowId(u64);

#[derive(Clone, Copy, Debug, PartialEq, Eq, Structural)]
pub struct WindowIdError;

impl WindowIdError {
    /// The diagnostic text of the error.
    pub fn message(self) -> (r: &'static str)
        ensures
            r@ == "window id cannot be zero"@,
    {
        "window id cannot be zero"
    }
}

impl WindowId {
    #[verifier::type_invariant]
    spec fn nonzero(self) -> bool {
        self.0 != 0
    }

    /// The numeric value of the identifier.
    pub closed spec fn value(self) -> u64 {
        self.0
    }

    /// Creates an identifier; zero is rejected.
    pub fn new(value: u64) -> (r: Result<Self, WindowIdError>)
        ensures
            value == 0 <==> r is Err,
            r matches Ok(id) ==> id.value() == value,
    {
        if value == 0 {
            Err(WindowIdError)
        } else {
            Ok(WindowId(value))
        }
    }

    pub fn get(self) -> (r: u64)
        ensures
            r == self.value(),
            r != 0,
    {
        proof {
            use_type_invariant(&self);
        }
        self.0
    }
}

/// Two identifiers are the same exactly when their values are.
pub proof fn lemma_window_id_value_injective(a: WindowId, b: WindowId)
    ensures
        (a.value() == b.value()) <==> (a == b),
{
}

#[derive(Clone, Copy, Debug, PartialEq, Eq, Structural)]
pub enum GeometryError {
    ZeroSize,
    ZeroMinimum,
    InvertedBounds,
}

/// The diagnostic text of a geometry error.
pub open spec fn geometry_error_text(e: GeometryError) -> Seq<char> {
    match e {
        GeometryError::ZeroSize => "window geometry cannot have zero width or height"@,
        GeometryError::ZeroMinimum => "minimum window size must be at least one logical pixel"@,
        GeometryError::InvertedBounds => "maximum window size cannot be smaller than its minimum"@,
    }
}

impl GeometryError {
    /// The diagnostic text of the error.
    pub fn message(self) -> (r: &'static str)
        ensures
            r@ == geometry_error_text(self),
    {
        match self {
            GeometryError::ZeroSize => "window geometry cannot have zero width or height",
            GeometryError::ZeroMinimum => "minimum window size must be at least one logical pixel",
            GeometryError::InvertedBounds => "maximum window size cannot be smaller than its minimum",
        }
    }
}

#[derive(Clone, Copy, Debug, PartialEq, Eq, Structural)]
pub struct Geometry {
    pub x: i32,
    pub y: i32,
    pub width: u32,
    pub height: u32,
}

impl Geometry {
    /// Creates geometry and rejects zero-sized surfaces.
    pub fn new(x: i32, y: i32, width: u32, height: u32) -> (r: Result<Self, GeometryError>)
        ensures
            (width == 0 || height == 0) ==> r == Err::<Geometry, GeometryError>(
                GeometryError::ZeroSize,
            ),
            (width != 0 && height != 0) ==> r == Ok::<Geometry, GeometryError>(
                (Geometry { x, y, width, height }),
            ),
    {
        if width == 0 || height == 0 {
            return Err(GeometryError::ZeroSize);
        }
        Ok(Geometry { x, y, width, height })
    }

    /// The geometry with the size clamped to the constraints, position kept.
    pub open spec fn spec_constrained(self, c: SizeConstraints) -> Result<Geometry, GeometryError> {
        match c.validation() {
            Err(e) => Err(e),
            Ok(_) => Ok(
                Geometry {
                    x: self.x,
                    y: self.y,
                    width: c.clamp_width_spec(self.width),
                    height: c.clamp_height_spec(self.height),
                },
            ),
        }
    }

    /// Applies size constraints while preserving the requested position.
    pub fn constrained(self, constraints: SizeConstraints) -> (r: Result<Self, GeometryError>)
        ensures
            r == self.spec_constrained(constraints),
    {
        constraints.validate()?;
        Ok(
            Geometry {
                x: self.x,
                y: self.y,
                width: constraints.clamp_width(self.width),
                height: constraints.clamp_height(self.height),
            },
        )
    }
}

#[derive(Clone, Copy, Debug, PartialEq, Eq, Structural)]
pub struct SizeConstraints {
    pub min_width: u32,
    pub min_height: u32,
    pub max_width: Option<u32>,
    pub max_height: Option<u32>,
}

impl Default for SizeConstraints {
    fn default() -> (r: Self)
        ensures
            r == (SizeConstraints {
                min_width: 1,
                min_height: 1,
                max_width: None,
                max_height: None,
            }),
    {
        SizeConstraints { min_width: 1, min_height: 1, max_width: None, max_height: None }
    }
}

impl SizeConstraints {
    /// Outcome of validation: zero minima first, then inverted bounds.
    pub open spec fn validation(self) -> Result<(), GeometryError> {
        if self.min_width == 0 || self.min_height == 0 {
            Err(GeometryError::ZeroMinimum)
        } else if (self.max_width matches Some(m) && m < self.min_width) || (
        self.max_height matches Some(m) && m < self.min_height) {
            Err(GeometryError::InvertedBounds)
        } else {
            Ok(())
        }
    }

    pub open spec fn clamp_width_spec(self, value: u32) -> u32 {
        let v = if value < self.min_width {
            self.min_width
        } else {
            value
        };
        match self.max_width {
            Some(m) => if m < v {
                m
            } else {
                v
            },
            None => v,
        }
    }

    pub open spec fn clamp_height_spec(self, value: u32) -> u32 {
        let v = if value < self.min_height {
            self.min_height
        } else {
            value
        };
        match self.max_height {
            Some(m) => if m < v {
                m
            } else {
                v
            },
            None => v,
        }
    }

    /// The size of the geometry lies inside these bounds.
    pub open spec fn admits(self, g: Geometry) -> bool {
        &&& self.min_width <= g.width
        &&& self.min_height <= g.height
        &&& (self.max_width matches Some(m) ==> g.width <= m)
        &&& (self.max_height matches Some(m) ==> g.height <= m)
    }

    /// Rejects contradictory bounds before they influence window state.
    pub fn validate(self) -> (r: Result<(), GeometryError>)
        ensures
            r == self.validation(),
    {
        if self.min_width == 0 || self.min_height == 0 {
            return Err(GeometryError::ZeroMinimum);
        }
        let inverted_width = match self.max_width {
            Some(m) => m < self.min_width,
            None => false,
        };
        let inverted_height = match self.max_height {
            Some(m) => m < self.min_height,
            None => false,
        };
        if inverted_width || inverted_height {
            return Err(GeometryError::InvertedBounds);
        }
        Ok(())
    }

    fn clamp_width(self, value: u32) -> (r: u32)
        ensures
            r == self.clamp_width_spec(value),
    {
        let v = if value < self.min_width {
            self.min_width
        } else {
            value
        };
        match self.max_width {
            Some(m) => if m < v {
                m
            } else {
                v
            },
            None => v,
        }
    }

    fn clamp_height(self, value: u32) -> (r: u32)
        ensures
            r == self.clamp_height_spec(value),
    {
        let v = if value < self.min_height {
            self.min_height
        } else {
            value
        };
        match self.max_height {
            Some(m) => if m < v {
                m
            } else {
                v
            },
            None => v,
        }
    }
}

/// Clamping with valid constraints always yields a size the constraints admit.
pub proof fn lemma_constrained_is_admitted(g: Geometry, c: SizeConstraints)
    requires
        c.validation() is Ok,
    ensures
        g.spec_constrained(c) is Ok,
        c.admits(g.spec_constrained(c)->Ok_0),
        g.spec_constrained(c)->Ok_0.width > 0,
        g.spec_constrained(c)->Ok_0.height > 0,
{
}

/// Backend-neutral application identity.
#[derive(Clone, Debug, Default, PartialEq, Eq)]
pub struct WindowMetadata {
    pub title: String,
    pub application_id: Option<String>,
}

#[derive(Clone, Copy, Debug, PartialEq, Eq, Structural)]
pub enum WindowPlacement {
    Floating,
    Tiled,
}

#[derive(Clone, Copy, Debug, PartialEq, Eq, Structural)]
pub enum PresentationState {
    Normal,
    Maximized,
    Fullscreen,
}

#[derive(Clone, Copy, Debug, PartialEq, Eq, Structural)]
pub struct RestoreSnapshot {
    pub geometry: Geometry,
    pub placement: WindowPlacement,
    pub presentation: PresentationState,
}

#[derive(Clone, Debug, PartialEq, Eq)]
pub struct Window {
    pub id: WindowId,
    pub geometry: Geometry,
    pub constraints: SizeConstraints,
    pub visible: bool,
    pub mapped: bool,
    pub active: bool,
    pub placement: WindowPlacement,
    pub presentation: PresentationState,
    pub metadata: WindowMetadata,
    pub floating_geometry: Geometry,
    /// Presentation transitions that `restore` undoes, oldest first.
    pub restore_stack: Vec<RestoreSnapshot>,
}

impl Window {
    /// Presentation transitions that `restore` undoes, oldest first.
    pub open spec fn snapshots(&self) -> Seq<RestoreSnapshot> {
        self.restore_stack@
    }

    /// Window validity: constraints are consistent, every remembered geometry
    /// satisfies them, and the restore history bottoms out in a normal state.
    pub open spec fn wf(&self) -> bool {
        &&& self.constraints.validation() is Ok
        &&& self.constraints.admits(self.geometry)
        &&& self.constraints.admits(self.floating_geometry)
        &&& forall|i: int|
            0 <= i < self.snapshots().len() ==> self.constraints.admits(
                #[trigger] self.snapshots()[i].geometry,
            )
        &&& (self.snapshots().len() == 0 ==> self.presentation == PresentationState::Normal)
        &&& (self.snapshots().len() > 0 ==> self.snapshots()[0].presentation
            == PresentationState::Normal)
        &&& (self.presentation == PresentationState::Normal && self.placement
            == WindowPlacement::Floating ==> self.floating_geometry == self.geometry)
    }

    /// Everything except the mapped/visible/active flags coincides.
    pub open spec fn same_layout(&self, other: Window) -> bool {
        &&& self.id == other.id
        &&& self.geometry == other.geometry
        &&& self.constraints == other.constraints
        &&& self.placement == other.placement
        &&& self.presentation == other.presentation
        &&& self.metadata == other.metadata
        &&& self.floating_geometry == other.floating_geometry
        &&& self.snapshots() == other.snapshots()
    }

    /// Identity, constraints, metadata and flags coincide (layout may differ).
    pub open spec fn same_identity(&self, other: Window) -> bool {
        &&& self.id == other.id
        &&& self.constraints == other.constraints
        &&& self.metadata == other.metadata
        &&& self.mapped == other.mapped
        &&& self.visible == other.visible
        &&& self.active == other.active
    }

    /// Everything except the metadata coincides.
    pub open spec fn same_except_metadata(&self, other: Window) -> bool {
        &&& self.id == other.id
        &&& self.geometry == other.geometry
        &&& self.constraints == other.constraints
        &&& self.visible == other.visible
        &&& self.mapped == other.mapped
        &&& self.active == other.active
        &&& self.placement == other.placement
        &&& self.presentation == other.presentation
        &&& self.floating_geometry == other.floating_geometry
        &&& self.snapshots() == other.snapshots()
    }

    /// The snapshot `restore` would return to for the current state.
    pub open spec fn current_snapshot(&self) -> RestoreSnapshot {
        RestoreSnapshot {
            geometry: self.geometry,
            placement: self.placement,
            presentation: self.presentation,
        }
    }

    /// A newly created normal floating window.
    pub open spec fn is_fresh(
        &self,
        id: WindowId,
        geometry: Geometry,
        constraints: SizeConstraints,
        metadata: WindowMetadata,
    ) -> bool {
        &&& self.id == id
        &&& self.geometry == geometry
        &&& self.constraints == constraints
        &&& self.visible
        &&& self.mapped
        &&& !self.active
        &&& self.placement == WindowPlacement::Floating
        &&& self.presentation == PresentationState::Normal
        &&& self.metadata == metadata
        &&& self.floating_geometry == geometry
        &&& self.snapshots().len() == 0
    }

    /// Builds a new normal floating window with validated geometry constraints.
    pub fn new(
        id: WindowId,
        geometry: Geometry,
        constraints: SizeConstraints,
        metadata: WindowMetadata,
    ) -> (r: Result<Self, GeometryError>)
        ensures
            match geometry.spec_constrained(constraints) {
                Err(e) => r == Err::<Window, GeometryError>(e),
                Ok(g) => r matches Ok(w) && w.is_fresh(id, g, constraints, metadata) && w.wf(),
            },
    {
        let geometry = geometry.constrained(constraints)?;
        proof {
            lemma_constrained_is_admitted(geometry, constraints);
        }
        Ok(
            Window {
                id,
                geometry,
                constraints,
                visible: true,
                mapped: true,
                active: false,
                placement: WindowPlacement::Floating,
                presentation: PresentationState::Normal,
                metadata,
                floating_geometry: geometry,
                restore_stack: Vec::new(),
            },
        )
    }

    pub(crate) fn push_restore_snapshot(&mut self)
        ensures
            final(self).snapshots() == old(self).snapshots().push(old(self).current_snapshot()),
            final(self).same_identity(*old(self)),
            final(self).geometry == old(self).geometry,
            final(self).placement == old(self).placement,
            final(self).presentation == old(self).presentation,
            final(self).floating_geometry == old(self).floating_geometry,
    {
        let snapshot = RestoreSnapshot {
            geometry: self.geometry,
            placement: self.placement,
            presentation: self.presentation,
        };
        self.restore_stack.push(snapshot);
    }

    pub(crate) fn pop_restore_snapshot(&mut self) -> (r: Option<RestoreSnapshot>)
        ensures
            old(self).snapshots().len() == 0 ==> r is None && *final(self) == *old(self),
            old(self).snapshots().len() > 0 ==> {
                &&& r == Some(old(self).snapshots().last())
                &&& final(self).snapshots() == old(self).snapshots().drop_last()
                &&& final(self).same_identity(*old(self))
                &&& final(self).geometry == old(self).geometry
                &&& final(self).placement == old(self).placement
                &&& final(self).presentation == old(self).presentation
                &&& final(self).floating_geometry == old(self).floating_geometry
            },
    {
        if self.restore_stack.len() == 0 {
            return None;
        }
        self.restore_stack.pop()
    }

    pub(crate) fn update_geometry(&mut self, geometry: Geometry) -> (r: Result<(), GeometryError>)
        requires
            old(self).wf(),
        ensures
            match geometry.spec_constrained(old(self).constraints) {
                Err(e) => r == Err::<(), GeometryError>(e) && *final(self) == *old(self),
                Ok(g) => {
                    &&& r is Ok
                    &&& final(self).wf()
                    &&& final(self).same_identity(*old(self))
                    &&& final(self).geometry == g
                    &&& final(self).placement == old(self).placement
                    &&& final(self).presentation == old(self).presentation
                    &&& final(self).snapshots() == old(self).snapshots()
                    &&& final(self).floating_geometry == (if old(self).presentation
                        == PresentationState::Normal && old(self).placement
                        == WindowPlacement::Floating {
                        g
                    } else {
                        old(self).floating_geometry
                    })
                },
            },
    {
        let g = geometry.constrained(self.constraints)?;
        proof {
            lemma_constrained_is_admitted(geometry, self.constraints);
        }
        self.geometry = g;
        if self.presentation == PresentationState::Normal && self.placement
            == WindowPlacement::Floating {
            self.floating_geometry = g;
        }
        Ok(())
    }
}

/// Logical events received from graphics adapters.
#[derive(Clone, Debug, PartialEq, Eq)]
pub enum WmEvent {
    WindowCreated {
        id: WindowId,
        geometry: Geometry,
        constraints: SizeConstraints,
        metadata: WindowMetadata,
    },
    WindowDestroyed { id: WindowId },
    WindowMapped { id: WindowId },
    WindowUnmapped { id: WindowId },
    WindowGeometryChanged { id: WindowId, geometry: Geometry },
    FocusChanged { id: Option<WindowId> },
    WindowMetadataChanged { id: WindowId, metadata: WindowMetadata },
}

/// Commands emitted to graphics adapters.
#[derive(Clone, Copy, Debug, PartialEq, Eq, Structural)]
pub enum WmCommand {
    RequestFocus { window: WindowId },
    RequestMove { window: WindowId, x: i32, y: i32 },
    RequestResize { window: WindowId, width: u32, height: u32 },
    RequestMaximize { window: WindowId },
    RequestRestore { window: WindowId },
    RequestFullscreen { window: WindowId, enabled: bool },
    RequestClose { window: WindowId },
}

/// Thin output boundary implemented by concrete graphics backends.
/// No protocol-native handle crosses this interface.
pub trait BackendCommandSink {
    /// The commands handed to the sink so far, in order, each with the
    /// sink's answer to it.
    spec fn submitted(&self) -> Vec<(WmCommand, Result<(), BackendError>)>;

    /// Hands one command to the backend. Each implementation answers for
    /// itself; every call is recorded in `submitted` with its answer.
    fn submit(&mut self, command: &WmCommand) -> (r: Result<(), BackendError>)
        ensures
            final(self).submitted()@ == old(self).submitted()@.push((*command, r)),
    ;
}


/// The module identifier of the window manager in the core registry.
pub fn module_id() -> (r: ModuleId)
    ensures
        r@ == "nexxus-wm"@,
{
    let r = ModuleId::new("nexxus-wm");
    proof {
        reveal_strlit("nexxus-wm");
        assert(!crate::text::is_white_space("nexxus-wm"@[0]));
    }
    r.unwrap()
}

/// Under valid constraints, a clamped size lies within the bounds and is the
/// requested size whenever that already does; below the minimum it is the
/// minimum, above the maximum the maximum.
pub proof fn lemma_clamp_laws(c: SizeConstraints, w: u32, h: u32)
    requires
        c.validation() is Ok,
    ensures
        c.min_width <= c.clamp_width_spec(w),
        c.max_width matches Some(m) ==> c.clamp_width_spec(w) <= m,
        w < c.min_width ==> c.clamp_width_spec(w) == c.min_width,
        (c.max_width matches Some(m) && m < w) ==> c.clamp_width_spec(w) == c.max_width->Some_0,
        (c.min_width <= w && !(c.max_width matches Some(m) && m < w)) ==> c.clamp_width_spec(w) == w,
        c.min_height <= c.clamp_height_spec(h),
        c.max_height matches Some(m) ==> c.clamp_height_spec(h) <= m,
        h < c.min_height ==> c.clamp_height_spec(h) == c.min_height,
        (c.max_height matches Some(m) && m < h) ==> c.clamp_height_spec(h) == c.max_height->Some_0,
        (c.min_height <= h && !(c.max_height matches Some(m) && m < h)) ==> c.clamp_height_spec(h) == h,
{
}

} // verus!
