//! The decisions of the X11 backend: its module identity, the translation of
//! ICCCM/EWMH requests and size hints into backend-neutral terms, and the
//! mapping between X11 window numbers and window identifiers. The X11
//! connection itself is driven by the caller.

use crate::backend_api::{BackendError, OutputId, OutputInfo};
use crate::core_types::{
    capability_views, ApiVersion, CapabilityId, Dependency, IsolationMode, ModuleDescriptor,
    ModuleId,
};
use crate::text::{decimal, decimal_text, is_white_space};
use crate::wm::{geometry_error_text, lemma_window_id_value_injective, Geometry, GeometryError, PresentationState, SizeConstraints, Window, WindowId, WmCommand};
use vstd::prelude::*;

verus! {

/// Errors of the X11 adapter, free of protocol-native error types.
#[derive(Clone, Debug, PartialEq, Eq)]
pub enum X11BackendError {
    Unavailable(String),
    Operation(String),
    WorkerStopped,
    UnexpectedResponse,
}

pub open spec fn x11_error_text(e: X11BackendError) -> Seq<char> {
    match e {
        X11BackendError::Unavailable(m) => "X11 backend is unavailable: "@ + m@,
        X11BackendError::Operation(m) => "X11 backend operation failed: "@ + m@,
        X11BackendError::WorkerStopped => "X11 worker is not running"@,
        X11BackendError::UnexpectedResponse => "X11 worker returned an unexpected response"@,
    }
}

impl X11BackendError {
    /// The diagnostic text of the error.
    pub fn message(&self) -> (r: String)
        ensures
            r@ == x11_error_text(*self),
    {
        match self {
            X11BackendError::Unavailable(m) => "X11 backend is unavailable: ".to_owned().concat(
                m.as_str(),
            ),
            X11BackendError::Operation(m) => "X11 backend operation failed: ".to_owned().concat(
                m.as_str(),
            ),
            X11BackendError::WorkerStopped => "X11 worker is not running".to_owned(),
            X11BackendError::UnexpectedResponse => "X11 worker returned an unexpected response".to_owned(),
        }
    }
}

/// The module identifier of the X11 backend.
pub fn module_id() -> (r: ModuleId)
    ensures
        r@ == "nexxus-backend-x11"@,
{
    let r = ModuleId::new("nexxus-backend-x11");
    proof {
        reveal_strlit("nexxus-backend-x11");
        assert(!is_white_space("nexxus-backend-x11"@[0]));
    }
    r.unwrap()
}

fn graphics_capability() -> (r: CapabilityId)
    ensures
        r@ == "graphics.backend"@,
{
    let r = CapabilityId::new("graphics.backend");
    proof {
        reveal_strlit("graphics.backend");
        assert(!is_white_space("graphics.backend"@[0]));
    }
    r.unwrap()
}

/// The descriptor the X11 backend registers with the core: it provides the
/// graphics capability and depends on nothing.
pub fn module_descriptor() -> (r: ModuleDescriptor)
    ensures
        r.id@ == "nexxus-backend-x11"@,
        r.name@ == "Nexxus X11 Backend"@,
        r.version@ == "0.1.0"@,
        r.required_core_api == (ApiVersion { major: 1, minor: 0 }),
        capability_views(r.provides@) == seq!["graphics.backend"@],
        r.requires@.len() == 0,
        !r.optional,
        r.isolation == IsolationMode::InProcess,
{
    let mut provides: Vec<CapabilityId> = Vec::new();
    provides.push(graphics_capability());
    let dependencies: Vec<Dependency> = Vec::new();
    let r = ModuleDescriptor {
        id: module_id(),
        name: "Nexxus X11 Backend".to_owned(),
        version: "0.1.0".to_owned(),
        required_core_api: ApiVersion::new(1, 0),
        provides,
        requires: dependencies,
        optional: false,
        isolation: IsolationMode::InProcess,
    };
    assert(capability_views(r.provides@) =~= seq!["graphics.backend"@]);
    r
}

/// The state an `_NET_WM_STATE` action asks for: 0 removes, 1 adds, 2
/// toggles; any other action leaves the state as it is.
pub open spec fn spec_requested_state(action: u32, current: bool) -> bool {
    if action == 0 {
        false
    } else if action == 1 {
        true
    } else if action == 2 {
        !current
    } else {
        current
    }
}

pub fn requested_state(action: u32, current: bool) -> (r: bool)
    ensures
        r == spec_requested_state(action, current),
{
    match action {
        0 => false,
        1 => true,
        2 => !current,
        _ => current,
    }
}

/// A size hint as a dimension: positive values are kept, others become 1.
pub fn positive_dimension(value: i32) -> (r: u32)
    ensures
        r == if value > 0 {
            value as u32
        } else {
            1u32
        },
{
    if value > 0 {
        value as u32
    } else {
        1
    }
}

/// A size hint as an optional bound: only positive values bound.
pub fn optional_dimension(value: i32) -> (r: Option<u32>)
    ensures
        r == if value > 0 {
            Some(value as u32)
        } else {
            None::<u32>
        },
{
    if value > 0 {
        Some(value as u32)
    } else {
        None
    }
}

/// The window identifier of an X11 window number.
pub fn window_id(window: u32) -> (r: Result<WindowId, X11BackendError>)
    ensures
        window == 0 <==> r is Err,
        r matches Ok(id) ==> id.value() == window,
        r matches Err(e) ==> e == X11BackendError::Operation(e->Operation_0) && e->Operation_0@
            == "window id cannot be zero"@,
{
    match WindowId::new(window as u64) {
        Ok(id) => Ok(id),
        Err(e) => Err(X11BackendError::Operation(e.message().to_owned())),
    }
}

/// The X11 window number of a window identifier.
pub fn xid(id: WindowId) -> (r: Result<u32, X11BackendError>)
    ensures
        id.value() <= u32::MAX <==> r is Ok,
        r matches Ok(x) ==> x == id.value(),
        r matches Err(e) ==> e == X11BackendError::Operation(e->Operation_0) && e->Operation_0@
            == "out of range integral type conversion attempted"@,
{
    let v = id.get();
    if v <= 0xffff_ffffu64 {
        Ok(v as u32)
    } else {
        Err(X11BackendError::Operation("out of range integral type conversion attempted".to_owned()))
    }
}

/// The X server events the backend acts on, as plain values.
#[derive(Clone, Copy, Debug, PartialEq, Eq, Structural)]
pub enum X11Input {
    MapRequest { window: u32 },
    DestroyNotify { window: u32 },
    UnmapNotify { window: u32 },
    ConfigureRequest { window: u32 },
    ConfigureNotify { window: u32, x: i16, y: i16, width: u16, height: u16 },
    FocusIn { window: u32 },
    PropertyNotify { window: u32 },
    ClientMessage { window: u32 },
    Other,
}

/// What the backend does about an X server event.
#[derive(Clone, Copy, Debug, PartialEq, Eq, Structural)]
pub enum X11Reaction {
    /// Take the window under management if needed, and map it.
    Manage { window: u32 },
    /// The managed window is gone: report it destroyed, stop managing it,
    /// and republish the client list.
    Destroyed { id: WindowId },
    /// Report the managed window unmapped.
    Unmapped { id: WindowId },
    /// Grant a client's configure request as asked.
    GrantConfigure { window: u32 },
    /// Report the managed window's new geometry.
    Moved { id: WindowId, geometry: Geometry },
    /// Report the managed window focused and announce it as active.
    Focused { id: WindowId },
    /// Read the managed window's metadata again and report it.
    RefreshMetadata { id: WindowId, window: u32 },
    /// Interpret a client message sent to the managed window.
    ClientMessage { id: WindowId, window: u32 },
    Nothing,
}

/// The managed window with this X11 number, if any.
pub open spec fn managed_id(managed: Seq<WindowId>, window: u32) -> Option<WindowId> {
    if exists|i: int| 0 <= i < managed.len() && (#[trigger] managed[i]).value() == window {
        Some(managed[choose|i: int| 0 <= i < managed.len() && (#[trigger] managed[i]).value() == window])
    } else {
        None
    }
}

/// What the backend does about an event, given the windows it manages; or
/// the text of the operation error for a reported geometry of zero size.
pub open spec fn reaction(input: X11Input, managed: Seq<WindowId>) -> Result<X11Reaction, Seq<char>> {
    match input {
        X11Input::MapRequest { window } => Ok(X11Reaction::Manage { window }),
        X11Input::DestroyNotify { window } => match managed_id(managed, window) {
            Some(id) => Ok(X11Reaction::Destroyed { id }),
            None => Ok(X11Reaction::Nothing),
        },
        X11Input::UnmapNotify { window } => match managed_id(managed, window) {
            Some(id) => Ok(X11Reaction::Unmapped { id }),
            None => Ok(X11Reaction::Nothing),
        },
        X11Input::ConfigureRequest { window } => Ok(X11Reaction::GrantConfigure { window }),
        X11Input::ConfigureNotify { window, x, y, width, height } => match managed_id(managed, window) {
            Some(id) => if width == 0 || height == 0 {
                Err(geometry_error_text(GeometryError::ZeroSize))
            } else {
                Ok(
                    X11Reaction::Moved {
                        id,
                        geometry: Geometry { x: x as i32, y: y as i32, width: width as u32, height: height as u32 },
                    },
                )
            },
            None => Ok(X11Reaction::Nothing),
        },
        X11Input::FocusIn { window } => match managed_id(managed, window) {
            Some(id) => Ok(X11Reaction::Focused { id }),
            None => Ok(X11Reaction::Nothing),
        },
        X11Input::PropertyNotify { window } => match managed_id(managed, window) {
            Some(id) => Ok(X11Reaction::RefreshMetadata { id, window }),
            None => Ok(X11Reaction::Nothing),
        },
        X11Input::ClientMessage { window } => match managed_id(managed, window) {
            Some(id) => Ok(X11Reaction::ClientMessage { id, window }),
            None => Ok(X11Reaction::Nothing),
        },
        X11Input::Other => Ok(X11Reaction::Nothing),
    }
}

/// Finds the managed window with this X11 number.
pub fn find_managed(managed: &[WindowId], window: u32) -> (r: Option<WindowId>)
    ensures
        r == managed_id(managed@, window),
{
    let mut i: usize = 0;
    while i < managed.len()
        invariant
            i <= managed@.len(),
            forall|j: int| 0 <= j < i ==> (#[trigger] managed@[j]).value() != window,
        decreases managed@.len() - i,
    {
        if managed[i].get() == window as u64 {
            let found = managed[i];
            proof {
                let k = choose|j: int| 0 <= j < managed@.len() && (#[trigger] managed@[j]).value() == window;
                lemma_window_id_value_injective(managed@[k], found);
            }
            return Some(found);
        }
        i = i + 1;
    }
    None
}

/// Decides what to do about an event of the X server.
pub fn react(input: X11Input, managed: &[WindowId]) -> (r: Result<X11Reaction, X11BackendError>)
    ensures
        match reaction(input, managed@) {
            Ok(x) => r == Ok::<X11Reaction, X11BackendError>(x),
            Err(text) => r matches Err(X11BackendError::Operation(m)) && m@ == text,
        },
{
    match input {
        X11Input::MapRequest { window } => Ok(X11Reaction::Manage { window }),
        X11Input::DestroyNotify { window } => match find_managed(managed, window) {
            Some(id) => Ok(X11Reaction::Destroyed { id }),
            None => Ok(X11Reaction::Nothing),
        },
        X11Input::UnmapNotify { window } => match find_managed(managed, window) {
            Some(id) => Ok(X11Reaction::Unmapped { id }),
            None => Ok(X11Reaction::Nothing),
        },
        X11Input::ConfigureRequest { window } => Ok(X11Reaction::GrantConfigure { window }),
        X11Input::ConfigureNotify { window, x, y, width, height } => match find_managed(managed, window) {
            Some(id) => match Geometry::new(x as i32, y as i32, width as u32, height as u32) {
                Ok(geometry) => Ok(X11Reaction::Moved { id, geometry }),
                Err(e) => Err(X11BackendError::Operation(e.message().to_owned())),
            },
            None => Ok(X11Reaction::Nothing),
        },
        X11Input::FocusIn { window } => match find_managed(managed, window) {
            Some(id) => Ok(X11Reaction::Focused { id }),
            None => Ok(X11Reaction::Nothing),
        },
        X11Input::PropertyNotify { window } => match find_managed(managed, window) {
            Some(id) => Ok(X11Reaction::RefreshMetadata { id, window }),
            None => Ok(X11Reaction::Nothing),
        },
        X11Input::ClientMessage { window } => match find_managed(managed, window) {
            Some(id) => Ok(X11Reaction::ClientMessage { id, window }),
            None => Ok(X11Reaction::Nothing),
        },
        X11Input::Other => Ok(X11Reaction::Nothing),
    }
}

/// How a window asking to be managed is handled.
#[derive(Clone, Copy, Debug, PartialEq, Eq, Structural)]
pub enum ManagePlan {
    /// The backend's own support window: left alone.
    Ignore,
    /// An override-redirect window: never managed, only mapped if asked.
    PassThrough { map: bool },
    /// A client window: when `adopt`, read its geometry, size hints and
    /// metadata, report it created and watch its changes; then map it if
    /// asked, report it mapped and republish the client list.
    Manage { id: WindowId, adopt: bool, map: bool },
}

/// How a window is handled, given whether it overrides redirection and the
/// windows already managed; or the text of the operation error for window 0.
pub open spec fn manage_plan(
    window: u32,
    support_window: u32,
    override_redirect: bool,
    managed: Seq<WindowId>,
    map: bool,
) -> Result<ManagePlan, Seq<char>> {
    if window == support_window {
        Ok(ManagePlan::Ignore)
    } else if override_redirect {
        Ok(ManagePlan::PassThrough { map })
    } else if window == 0 {
        Err("window id cannot be zero"@)
    } else {
        match managed_id(managed, window) {
            Some(id) => Ok(ManagePlan::Manage { id, adopt: false, map }),
            None => Ok(ManagePlan::Manage { id: spec_window_id(window), adopt: true, map }),
        }
    }
}

/// The identifier of a nonzero X11 window number.
pub open spec fn spec_window_id(window: u32) -> WindowId {
    choose|id: WindowId| id.value() == window
}

/// Decides how a window that asks to be managed, or was found at startup,
/// is handled.
pub fn manage_decision(
    window: u32,
    support_window: u32,
    override_redirect: bool,
    managed: &[WindowId],
    map: bool,
) -> (r: Result<ManagePlan, X11BackendError>)
    ensures
        match manage_plan(window, support_window, override_redirect, managed@, map) {
            Ok(p) => r == Ok::<ManagePlan, X11BackendError>(p),
            Err(text) => r matches Err(X11BackendError::Operation(m)) && m@ == text,
        },
{
    if window == support_window {
        return Ok(ManagePlan::Ignore);
    }
    if override_redirect {
        return Ok(ManagePlan::PassThrough { map });
    }
    let id = window_id(window)?;
    match find_managed(managed, window) {
        Some(known) => Ok(ManagePlan::Manage { id: known, adopt: false, map }),
        None => {
            proof {
                assert(id.value() == window);
                lemma_window_id_value_injective(id, spec_window_id(window));
            }
            Ok(ManagePlan::Manage { id, adopt: true, map })
        },
    }
}

/// What the X11 worker answers a request with.
#[derive(Clone, Debug)]
pub enum WorkerReply {
    Unit,
    Windows(Vec<Window>),
}

/// The outcome of a request that expects no data. `None` is a worker that
/// could not be reached or hung up; `Some(Err(m))` is a failed operation.
pub fn unit_reply(reply: Option<Result<WorkerReply, String>>) -> (r: Result<(), X11BackendError>)
    ensures
        reply is None ==> r == Err::<(), X11BackendError>(X11BackendError::WorkerStopped),
        reply matches Some(Err(m)) ==> r == Err::<(), X11BackendError>(X11BackendError::Operation(m)),
        reply matches Some(Ok(WorkerReply::Unit)) ==> r is Ok,
        reply matches Some(Ok(WorkerReply::Windows(_))) ==> r == Err::<(), X11BackendError>(
            X11BackendError::UnexpectedResponse,
        ),
{
    match reply {
        None => Err(X11BackendError::WorkerStopped),
        Some(Err(m)) => Err(X11BackendError::Operation(m)),
        Some(Ok(WorkerReply::Unit)) => Ok(()),
        Some(Ok(WorkerReply::Windows(_))) => Err(X11BackendError::UnexpectedResponse),
    }
}

/// The outcome of a request for the managed windows.
pub fn windows_reply(reply: Option<Result<WorkerReply, String>>) -> (r: Result<Vec<Window>, X11BackendError>)
    ensures
        reply is None ==> r == Err::<Vec<Window>, X11BackendError>(X11BackendError::WorkerStopped),
        reply matches Some(Err(m)) ==> r == Err::<Vec<Window>, X11BackendError>(X11BackendError::Operation(m)),
        reply matches Some(Ok(WorkerReply::Windows(w))) ==> r == Ok::<Vec<Window>, X11BackendError>(w),
        reply matches Some(Ok(WorkerReply::Unit)) ==> r == Err::<Vec<Window>, X11BackendError>(
            X11BackendError::UnexpectedResponse,
        ),
{
    match reply {
        None => Err(X11BackendError::WorkerStopped),
        Some(Err(m)) => Err(X11BackendError::Operation(m)),
        Some(Ok(WorkerReply::Windows(w))) => Ok(w),
        Some(Ok(WorkerReply::Unit)) => Err(X11BackendError::UnexpectedResponse),
    }
}

/// The EWMH states the backend sets on a window.
#[derive(Clone, Copy, Debug, PartialEq, Eq, Structural)]
pub enum NetState {
    /// Maximized vertically and horizontally.
    Maximized,
    Fullscreen,
}

/// One X11 operation that carries out part of a window-manager command.
#[derive(Clone, Copy, Debug, PartialEq, Eq, Structural)]
pub enum X11Step {
    /// Give the window input focus, raise it, offer it `WM_TAKE_FOCUS` when
    /// it takes part in that protocol, and announce it as active.
    Focus { xid: u32, window: WindowId },
    Move { xid: u32, x: i32, y: i32 },
    Resize { xid: u32, width: u32, height: u32 },
    Place { xid: u32, x: i32, y: i32, width: u32, height: u32 },
    SetState { xid: u32, state: NetState },
    PublishPresentation { xid: u32, state: PresentationState },
    /// Ask the window to close, politely when it supports `WM_DELETE_WINDOW`.
    Close { xid: u32 },
}

/// The X11 window number of an identifier, when it fits.
pub open spec fn spec_xid(id: WindowId) -> Option<u32> {
    if id.value() <= u32::MAX {
        Some(id.value() as u32)
    } else {
        None
    }
}

/// What `xid` reports for an identifier too large for X11.
pub open spec fn range_text() -> Seq<char> {
    "out of range integral type conversion attempted"@
}

/// Steps that place a window at a remembered geometry and announce its state.
pub open spec fn restore_steps(xid: u32, snapshot: (Geometry, PresentationState)) -> Seq<X11Step> {
    seq![
        X11Step::Place {
            xid,
            x: snapshot.0.x,
            y: snapshot.0.y,
            width: snapshot.0.width,
            height: snapshot.0.height,
        },
        X11Step::PublishPresentation { xid, state: snapshot.1 },
    ]
}

/// The X11 steps of a window-manager command on a screen of the given size,
/// given the manager's geometry and presentation of the window when it has
/// one; or the text of the operation error. A restore looks for the window
/// before converting its identifier, leaving fullscreen converts first.
pub open spec fn planned(
    command: WmCommand,
    width: u32,
    height: u32,
    snapshot: Option<(Geometry, PresentationState)>,
) -> Result<Seq<X11Step>, Seq<char>> {
    match command {
        WmCommand::RequestFocus { window } => match spec_xid(window) {
            Some(x) => Ok(seq![X11Step::Focus { xid: x, window }]),
            None => Err(range_text()),
        },
        WmCommand::RequestMove { window, x, y } => match spec_xid(window) {
            Some(w) => Ok(seq![X11Step::Move { xid: w, x, y }]),
            None => Err(range_text()),
        },
        WmCommand::RequestResize { window, width: w, height: h } => match spec_xid(window) {
            Some(x) => Ok(seq![X11Step::Resize { xid: x, width: w, height: h }]),
            None => Err(range_text()),
        },
        WmCommand::RequestMaximize { window } => match spec_xid(window) {
            Some(x) => Ok(
                seq![
                    X11Step::Place { xid: x, x: 0, y: 0, width, height },
                    X11Step::SetState { xid: x, state: NetState::Maximized },
                ],
            ),
            None => Err(range_text()),
        },
        WmCommand::RequestRestore { window } => match snapshot {
            None => Err("restore target disappeared"@),
            Some(snap) => match spec_xid(window) {
                Some(x) => Ok(restore_steps(x, snap)),
                None => Err(range_text()),
            },
        },
        WmCommand::RequestFullscreen { window, enabled } => match spec_xid(window) {
            None => Err(range_text()),
            Some(x) => if enabled {
                Ok(
                    seq![
                        X11Step::Place { xid: x, x: 0, y: 0, width, height },
                        X11Step::SetState { xid: x, state: NetState::Fullscreen },
                    ],
                )
            } else {
                match snapshot {
                    None => Err("fullscreen target disappeared"@),
                    Some(snap) => Ok(restore_steps(x, snap)),
                }
            },
        },
        WmCommand::RequestClose { window } => match spec_xid(window) {
            Some(x) => Ok(seq![X11Step::Close { xid: x }]),
            None => Err(range_text()),
        },
    }
}

fn restore_plan(xid: u32, snapshot: (Geometry, PresentationState)) -> (r: Vec<X11Step>)
    ensures
        r@ == restore_steps(xid, snapshot),
{
    let (g, state) = snapshot;
    let mut v: Vec<X11Step> = Vec::new();
    v.push(X11Step::Place { xid, x: g.x, y: g.y, width: g.width, height: g.height });
    v.push(X11Step::PublishPresentation { xid, state });
    assert(v@ =~= restore_steps(xid, snapshot));
    v
}

/// Turns a window-manager command into the X11 steps that carry it out.
/// `width` and `height` are the screen's; `snapshot` is what the window
/// manager holds of the window, if it still knows it.
pub fn command_steps(
    command: &WmCommand,
    width: u32,
    height: u32,
    snapshot: Option<(Geometry, PresentationState)>,
) -> (r: Result<Vec<X11Step>, X11BackendError>)
    ensures
        match planned(*command, width, height, snapshot) {
            Ok(steps) => r matches Ok(v) && v@ == steps,
            Err(text) => r matches Err(X11BackendError::Operation(m)) && m@ == text,
        },
{
    match *command {
        WmCommand::RequestFocus { window } => {
            let x = xid(window)?;
            let mut v: Vec<X11Step> = Vec::new();
            v.push(X11Step::Focus { xid: x, window });
            assert(v@ =~= seq![X11Step::Focus { xid: x, window }]);
            Ok(v)
        },
        WmCommand::RequestMove { window, x, y } => {
            let w = xid(window)?;
            let mut v: Vec<X11Step> = Vec::new();
            v.push(X11Step::Move { xid: w, x, y });
            assert(v@ =~= seq![X11Step::Move { xid: w, x, y }]);
            Ok(v)
        },
        WmCommand::RequestResize { window, width: w, height: h } => {
            let x = xid(window)?;
            let mut v: Vec<X11Step> = Vec::new();
            v.push(X11Step::Resize { xid: x, width: w, height: h });
            assert(v@ =~= seq![X11Step::Resize { xid: x, width: w, height: h }]);
            Ok(v)
        },
        WmCommand::RequestMaximize { window } => {
            let x = xid(window)?;
            let mut v: Vec<X11Step> = Vec::new();
            v.push(X11Step::Place { xid: x, x: 0, y: 0, width, height });
            v.push(X11Step::SetState { xid: x, state: NetState::Maximized });
            assert(v@ =~= seq![
                X11Step::Place { xid: x, x: 0, y: 0, width, height },
                X11Step::SetState { xid: x, state: NetState::Maximized },
            ]);
            Ok(v)
        },
        WmCommand::RequestRestore { window } => {
            let snap = match snapshot {
                Some(s) => s,
                None => {
                    return Err(X11BackendError::Operation("restore target disappeared".to_owned()));
                },
            };
            let x = xid(window)?;
            Ok(restore_plan(x, snap))
        },
        WmCommand::RequestFullscreen { window, enabled } => {
            let x = xid(window)?;
            if enabled {
                let mut v: Vec<X11Step> = Vec::new();
                v.push(X11Step::Place { xid: x, x: 0, y: 0, width, height });
                v.push(X11Step::SetState { xid: x, state: NetState::Fullscreen });
                assert(v@ =~= seq![
                    X11Step::Place { xid: x, x: 0, y: 0, width, height },
                    X11Step::SetState { xid: x, state: NetState::Fullscreen },
                ]);
                Ok(v)
            } else {
                match snapshot {
                    Some(snap) => Ok(restore_plan(x, snap)),
                    None => Err(X11BackendError::Operation("fullscreen target disappeared".to_owned())),
                }
            }
        },
        WmCommand::RequestClose { window } => {
            let x = xid(window)?;
            let mut v: Vec<X11Step> = Vec::new();
            v.push(X11Step::Close { xid: x });
            assert(v@ =~= seq![X11Step::Close { xid: x }]);
            Ok(v)
        },
    }
}

/// The X11 window numbers of managed windows, in the given order; fails at
/// the first identifier that is not an X11 window number.
pub fn client_list(managed: &[WindowId]) -> (r: Result<Vec<u32>, X11BackendError>)
    ensures
        (forall|i: int| 0 <= i < managed@.len() ==> #[trigger] managed@[i].value() <= u32::MAX) <==> r is Ok,
        r matches Ok(v) ==> v@.len() == managed@.len() && forall|i: int|
            0 <= i < managed@.len() ==> v@[i] == (#[trigger] managed@[i]).value(),
{
    let mut out: Vec<u32> = Vec::new();
    let mut i: usize = 0;
    while i < managed.len()
        invariant
            i <= managed@.len(),
            out@.len() == i,
            forall|j: int| 0 <= j < i ==> out@[j] == (#[trigger] managed@[j]).value(),
            forall|j: int| 0 <= j < i ==> #[trigger] managed@[j].value() <= u32::MAX,
        decreases managed@.len() - i,
    {
        match xid(managed[i]) {
            Ok(x) => out.push(x),
            Err(e) => return Err(e),
        }
        i = i + 1;
    }
    Ok(out)
}

/// Errors of the X11 adapter as backend-neutral errors: unavailability is
/// kept, everything else becomes an operation failure with its text.
pub fn to_backend_error(error: X11BackendError) -> (r: BackendError)
    ensures
        r == match error {
            X11BackendError::Unavailable(m) => BackendError::Unavailable(m),
            _ => BackendError::Operation(r->Operation_0),
        },
        !(error is Unavailable) ==> r->Operation_0@ == x11_error_text(error),
{
    match error {
        X11BackendError::Unavailable(message) => BackendError::Unavailable(message),
        other => BackendError::Operation(other.message()),
    }
}

/// The ICCCM normal size hints of a window, as far as they bound its size.
#[derive(Clone, Copy, Debug, PartialEq, Eq)]
pub struct NormalHints {
    pub min_size: Option<(i32, i32)>,
    pub max_size: Option<(i32, i32)>,
}

pub open spec fn hinted_constraints(hints: Option<NormalHints>) -> SizeConstraints {
    match hints {
        None => SizeConstraints { min_width: 1, min_height: 1, max_width: None, max_height: None },
        Some(h) => SizeConstraints {
            min_width: match h.min_size {
                Some((w, _)) => if w > 0 { w as u32 } else { 1 },
                None => 1,
            },
            min_height: match h.min_size {
                Some((_, hh)) => if hh > 0 { hh as u32 } else { 1 },
                None => 1,
            },
            max_width: match h.max_size {
                Some((w, _)) => if w > 0 { Some(w as u32) } else { None },
                None => None,
            },
            max_height: match h.max_size {
                Some((_, hh)) => if hh > 0 { Some(hh as u32) } else { None },
                None => None,
            },
        },
    }
}

/// Size constraints from the size hints of a window. Without hints the
/// defaults apply; hints whose maximum is below their minimum are refused.
pub fn constraints_from_hints(hints: Option<NormalHints>) -> (r: Result<SizeConstraints, X11BackendError>)
    ensures
        hinted_constraints(hints).validation() is Ok ==> r == Ok::<SizeConstraints, X11BackendError>(
            hinted_constraints(hints),
        ),
        hinted_constraints(hints).validation() matches Err(e) ==> (r matches Err(X11BackendError::Operation(m))
            && m@ == geometry_error_text(e)),
{
    let h = match hints {
        None => return Ok(SizeConstraints::default()),
        Some(h) => h,
    };
    let (min_width, min_height) = match h.min_size {
        Some((w, hh)) => (positive_dimension(w), positive_dimension(hh)),
        None => (1, 1),
    };
    let max_width = match h.max_size {
        Some((w, _)) => optional_dimension(w),
        None => None,
    };
    let max_height = match h.max_size {
        Some((_, hh)) => optional_dimension(hh),
        None => None,
    };
    let constraints = SizeConstraints { min_width, min_height, max_width, max_height };
    match constraints.validate() {
        Ok(()) => Ok(constraints),
        Err(e) => Err(X11BackendError::Operation(e.message().to_owned())),
    }
}

/// The application identity of a WM_CLASS property (instance, class): the
/// class when it is set, else the instance; nothing when both are empty.
pub fn preferred_class(instance: &[u8], class: &[u8]) -> (r: Option<Vec<u8>>)
    ensures
        class@.len() > 0 ==> (r matches Some(v) && v@ == class@),
        class@.len() == 0 && instance@.len() > 0 ==> (r matches Some(v) && v@ == instance@),
        class@.len() == 0 && instance@.len() == 0 ==> r is None,
{
    if class.len() > 0 {
        Some(copy_bytes(class))
    } else if instance.len() > 0 {
        Some(copy_bytes(instance))
    } else {
        None
    }
}

fn copy_bytes(s: &[u8]) -> (r: Vec<u8>)
    ensures
        r@ == s@,
{
    let mut out: Vec<u8> = Vec::new();
    let mut i: usize = 0;
    while i < s.len()
        invariant
            i <= s@.len(),
            out@ == s@.take(i as int),
        decreases s@.len() - i,
    {
        out.push(s[i]);
        proof {
            assert(s@.take(i + 1) =~= s@.take(i as int).push(s@[i as int]));
        }
        i = i + 1;
    }
    proof {
        assert(s@.take(s@.len() as int) =~= s@);
    }
    out
}

/// The atoms the backend interned, as far as client messages use them.
#[derive(Clone, Copy, Debug, PartialEq, Eq)]
pub struct ClientMessageAtoms {
    pub net_active_window: u32,
    pub net_close_window: u32,
    pub net_wm_state: u32,
    pub fullscreen: u32,
    pub maximized_vert: u32,
    pub maximized_horz: u32,
}

/// What a client message of a managed window asks of the window manager.
#[derive(Clone, Copy, Debug, PartialEq, Eq)]
pub enum ClientRequest {
    Focus,
    Close,
    Fullscreen(bool),
    Maximize,
    Restore,
    Nothing,
}

pub open spec fn spec_client_request(
    atoms: ClientMessageAtoms,
    message_type: u32,
    format: u8,
    data: Seq<u32>,
    presentation: Option<PresentationState>,
) -> ClientRequest {
    if message_type == atoms.net_active_window {
        ClientRequest::Focus
    } else if message_type == atoms.net_close_window {
        ClientRequest::Close
    } else if message_type != atoms.net_wm_state || format != 32 {
        ClientRequest::Nothing
    } else if data[1] == atoms.fullscreen || data[2] == atoms.fullscreen {
        let current = presentation == Some(PresentationState::Fullscreen);
        let enabled = spec_requested_state(data[0], current);
        if enabled != current {
            ClientRequest::Fullscreen(enabled)
        } else {
            ClientRequest::Nothing
        }
    } else if data[1] == atoms.maximized_vert || data[1] == atoms.maximized_horz || data[2]
        == atoms.maximized_vert || data[2] == atoms.maximized_horz {
        let current = presentation == Some(PresentationState::Maximized);
        let enabled = spec_requested_state(data[0], current);
        if enabled && !current {
            ClientRequest::Maximize
        } else if !enabled && current {
            ClientRequest::Restore
        } else {
            ClientRequest::Nothing
        }
    } else {
        ClientRequest::Nothing
    }
}

/// What a client message asks of a managed window, by kind: an activation
/// asks for focus, a close message for closing; a message that is neither
/// and not a 32-bit `_NET_WM_STATE` message asks nothing, and so does a
/// `_NET_WM_STATE` message naming neither fullscreen nor a maximized state.
pub proof fn lemma_client_message_kinds(
    atoms: ClientMessageAtoms,
    message_type: u32,
    format: u8,
    data: Seq<u32>,
    presentation: Option<PresentationState>,
)
    ensures
        message_type == atoms.net_active_window ==> spec_client_request(
            atoms,
            message_type,
            format,
            data,
            presentation,
        ) == ClientRequest::Focus,
        message_type != atoms.net_active_window && message_type == atoms.net_close_window
            ==> spec_client_request(atoms, message_type, format, data, presentation) == ClientRequest::Close,
        message_type != atoms.net_active_window && message_type != atoms.net_close_window && (message_type
            != atoms.net_wm_state || format != 32) ==> spec_client_request(
            atoms,
            message_type,
            format,
            data,
            presentation,
        ) == ClientRequest::Nothing,
        message_type != atoms.net_active_window && message_type != atoms.net_close_window && message_type
            == atoms.net_wm_state && data[1] != atoms.fullscreen && data[2] != atoms.fullscreen && data[1]
            != atoms.maximized_vert && data[1] != atoms.maximized_horz && data[2] != atoms.maximized_vert
            && data[2] != atoms.maximized_horz ==> spec_client_request(
            atoms,
            message_type,
            format,
            data,
            presentation,
        ) == ClientRequest::Nothing,
{
}

/// A `_NET_WM_STATE` message about maximizing (either maximized atom, and no
/// fullscreen atom): removing (action 0) restores a maximized window,
/// adding (1) maximizes one that is not, toggling (2) does whichever
/// applies; a request that changes nothing, or an unknown action, asks
/// nothing.
pub proof fn lemma_maximize_messages(
    atoms: ClientMessageAtoms,
    format: u8,
    data: Seq<u32>,
    presentation: Option<PresentationState>,
)
    requires
        data.len() == 5,
        format == 32,
        atoms.net_wm_state != atoms.net_active_window,
        atoms.net_wm_state != atoms.net_close_window,
        data[1] != atoms.fullscreen,
        data[2] != atoms.fullscreen,
        data[1] == atoms.maximized_vert || data[1] == atoms.maximized_horz || data[2] == atoms.maximized_vert
            || data[2] == atoms.maximized_horz,
    ensures
        ({
            let maximized = presentation == Some(PresentationState::Maximized);
            let r = spec_client_request(atoms, atoms.net_wm_state, format, data, presentation);
            &&& data[0] == 0 ==> r == (if maximized { ClientRequest::Restore } else { ClientRequest::Nothing })
            &&& data[0] == 1 ==> r == (if maximized { ClientRequest::Nothing } else { ClientRequest::Maximize })
            &&& data[0] == 2 ==> r == (if maximized { ClientRequest::Restore } else { ClientRequest::Maximize })
            &&& data[0] > 2 ==> r == ClientRequest::Nothing
        }),
{
}

/// A `_NET_WM_STATE` message naming the fullscreen atom: removing (action 0)
/// leaves fullscreen, adding (1) enters it, toggling (2) flips it; a request
/// that changes nothing, or an unknown action, asks nothing.
pub proof fn lemma_fullscreen_messages(
    atoms: ClientMessageAtoms,
    format: u8,
    data: Seq<u32>,
    presentation: Option<PresentationState>,
)
    requires
        data.len() == 5,
        format == 32,
        atoms.net_wm_state != atoms.net_active_window,
        atoms.net_wm_state != atoms.net_close_window,
        data[1] == atoms.fullscreen || data[2] == atoms.fullscreen,
    ensures
        ({
            let full = presentation == Some(PresentationState::Fullscreen);
            let r = spec_client_request(atoms, atoms.net_wm_state, format, data, presentation);
            &&& data[0] == 0 ==> r == (if full { ClientRequest::Fullscreen(false) } else { ClientRequest::Nothing })
            &&& data[0] == 1 ==> r == (if full { ClientRequest::Nothing } else { ClientRequest::Fullscreen(true) })
            &&& data[0] == 2 ==> r == ClientRequest::Fullscreen(!full)
            &&& data[0] > 2 ==> r == ClientRequest::Nothing
        }),
{
}

/// Decides what an EWMH client message of a managed window requests, given
/// the window's current presentation. Only a real change is requested.
pub fn client_request(
    atoms: ClientMessageAtoms,
    message_type: u32,
    format: u8,
    data: [u32; 5],
    presentation: Option<PresentationState>,
) -> (r: ClientRequest)
    ensures
        r == spec_client_request(atoms, message_type, format, data@, presentation),
{
    if message_type == atoms.net_active_window {
        return ClientRequest::Focus;
    }
    if message_type == atoms.net_close_window {
        return ClientRequest::Close;
    }
    if message_type != atoms.net_wm_state || format != 32 {
        return ClientRequest::Nothing;
    }
    let action = data[0];
    let first = data[1];
    let second = data[2];
    if first == atoms.fullscreen || second == atoms.fullscreen {
        let current = match presentation {
            Some(PresentationState::Fullscreen) => true,
            _ => false,
        };
        let enabled = requested_state(action, current);
        if enabled != current {
            return ClientRequest::Fullscreen(enabled);
        }
        return ClientRequest::Nothing;
    }
    let maximize = first == atoms.maximized_vert || first == atoms.maximized_horz || second
        == atoms.maximized_vert || second == atoms.maximized_horz;
    if maximize {
        let current = match presentation {
            Some(PresentationState::Maximized) => true,
            _ => false,
        };
        let enabled = requested_state(action, current);
        if enabled && !current {
            return ClientRequest::Maximize;
        } else if !enabled && current {
            return ClientRequest::Restore;
        }
    }
    ClientRequest::Nothing
}

/// The backend-neutral description of an X11 screen.
pub fn screen_output(screen_num: u64, width: u16, height: u16) -> (r: OutputInfo)
    ensures
        r.id@ == "x11-screen-"@ + decimal(screen_num as nat),
        r.name@ == "X11 Screen "@ + decimal(screen_num as nat),
        r.width == width,
        r.height == height,
        r.scale_milli == 1000,
        r.primary,
{
    let number = decimal_text(screen_num);
    let id_text = "x11-screen-".to_owned().concat(number.as_str());
    let id = OutputId::new(id_text.as_str());
    proof {
        reveal_strlit("x11-screen-");
        assert(id_text@[0] == 'x');
        assert(!is_white_space(id_text@[0]));
    }
    OutputInfo {
        id: id.unwrap(),
        name: "X11 Screen ".to_owned().concat(number.as_str()),
        width: width as u32,
        height: height as u32,
        scale_milli: 1000,
        primary: true,
    }
}

} // verus!
