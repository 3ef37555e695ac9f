//! Session orchestration: the selected backend is validated, registered with
//! the window manager in the core module graph, started before it through
//! the dependency order and stopped in reverse. The control socket and its
//! serve loop are driven by the caller; this module decides the answers.

use crate::backend_api::BackendKind;
use crate::core_types::{
    capability_views, core_api_version, same_descriptor, ApiVersion, CapabilityId, Dependency,
    IsolationMode, ModuleDescriptor, ModuleId, ModuleState,
};
use crate::lifecycle::{
    error_key, LifecycleError, LifecycleManager, ModuleCall, ModuleContext, ModuleFailure, ModulePhase,
    NexxusModule,
};
use crate::protocol::ProtocolError;
use crate::registry::{
    capability_target, deps_of, graph_of, id_views, index_of_id, module_ids, provider_ids, resolution, CapabilitySelections,
    ModuleRegistry, RegistryError,
};
use crate::registry_laws::{lemma_graph_entry, lemma_provider_listed, lemma_resolution_order};
use crate::session::{backend_name, join_path, joined};
use crate::text::is_white_space;
use crate::wm::module_id as wm_module_id;
use crate::wm::WindowId;
use crate::wm_manager::WindowManager;
use vstd::prelude::*;

verus! {

#[derive(Debug)]
pub enum SessionRuntimeError {
    BackendUnavailable { backend: BackendKind },
    BackendModuleMismatch { backend: BackendKind, module: ModuleId },
    BackendKindMismatch { selected: BackendKind, declared: BackendKind },
    MissingBackendCapability { module: ModuleId, capability: &'static str },
    Lifecycle(LifecycleError),
    Protocol(ProtocolError),
    ShutdownFailures(usize),
}

/// The backend implementation handed to the session by an integration.
pub struct BackendModule<M> {
    pub kind: BackendKind,
    pub module: M,
}

/// A control request sent to a running session.
#[derive(Clone, Debug, PartialEq, Eq)]
pub enum SessionControlRequest {
    Status,
    Shutdown { reason: String },
}

/// What a running session reports about itself.
#[derive(Clone, Debug, PartialEq, Eq)]
pub struct SessionStatus {
    pub backend: BackendKind,
    pub control_socket: String,
    pub modules: Vec<(String, Option<ModuleState>)>,
}

#[derive(Clone, Debug, PartialEq, Eq)]
pub enum SessionControlResponse {
    Accepted,
    Status(SessionStatus),
    Error(String),
}

pub open spec fn graphics_capability_name() -> Seq<char> {
    "graphics.backend"@
}

/// The capability every graphics backend provides.
pub fn graphics_capability() -> (r: CapabilityId)
    ensures
        r@ == graphics_capability_name(),
{
    let r = CapabilityId::new("graphics.backend");
    proof {
        reveal_strlit("graphics.backend");
        assert(!is_white_space("graphics.backend"@[0]));
    }
    r.unwrap()
}

/// The module identifier a backend of each kind registers under.
pub open spec fn expected_backend_id(backend: BackendKind) -> Seq<char> {
    match backend {
        BackendKind::X11 => "nexxus-backend-x11"@,
        BackendKind::Wayland => "nexxus-backend-wayland"@,
    }
}

pub fn expected_backend_module_id(backend: BackendKind) -> (r: ModuleId)
    ensures
        r@ == expected_backend_id(backend),
{
    let value = match backend {
        BackendKind::X11 => "nexxus-backend-x11",
        BackendKind::Wayland => "nexxus-backend-wayland",
    };
    proof {
        reveal_strlit("nexxus-backend-x11");
        reveal_strlit("nexxus-backend-wayland");
        assert(!is_white_space(value@[0]));
    }
    ModuleId::new(value).unwrap()
}

/// The session environment for a backend, ordered by variable name.
pub open spec fn session_environment(backend: BackendKind) -> Seq<(Seq<char>, Seq<char>)> {
    seq![
        ("XDG_CURRENT_DESKTOP"@, "Nexxus"@),
        ("XDG_SESSION_DESKTOP"@, "nexxus"@),
        ("XDG_SESSION_TYPE"@, match backend {
            BackendKind::X11 => "x11"@,
            BackendKind::Wayland => "wayland"@,
        }),
    ]
}

pub open spec fn pair_views(s: Seq<(String, String)>) -> Seq<(Seq<char>, Seq<char>)> {
    s.map_values(|p: (String, String)| (p.0@, p.1@))
}

/// The XDG variables prepared for processes started in the session.
pub fn prepared_environment(backend: BackendKind) -> (r: Vec<(String, String)>)
    ensures
        pair_views(r@) == session_environment(backend),
{
    let mut environment: Vec<(String, String)> = Vec::new();
    environment.push(("XDG_CURRENT_DESKTOP".to_owned(), "Nexxus".to_owned()));
    environment.push(("XDG_SESSION_DESKTOP".to_owned(), "nexxus".to_owned()));
    let kind = backend_name(backend);
    proof {
        reveal_strlit("x11");
        reveal_strlit("wayland");
    }
    environment.push(("XDG_SESSION_TYPE".to_owned(), kind.to_owned()));
    proof {
        let want = session_environment(backend);
        assert(pair_views(environment@)[2] == want[2]) by {
            match backend {
                BackendKind::X11 => {
                    assert("wayland"@.len() != "x11"@.len());
                },
                BackendKind::Wayland => {
                    assert("wayland"@.len() != "x11"@.len());
                },
            }
        }
        assert(pair_views(environment@) =~= want);
    }
    environment
}

/// Why a backend module cannot serve the selected backend, if anything
/// stops it: the declared kind first, then the module identifier, then the
/// graphics capability.
pub open spec fn backend_problem(backend: BackendKind, kind: BackendKind, d: ModuleDescriptor) -> Option<
    SessionRuntimeError,
> {
    if kind != backend {
        Some(SessionRuntimeError::BackendKindMismatch { selected: backend, declared: kind })
    } else if d.id@ != expected_backend_id(backend) {
        Some(SessionRuntimeError::BackendModuleMismatch { backend, module: d.id })
    } else if !capability_views(d.provides@).contains(graphics_capability_name()) {
        Some(SessionRuntimeError::MissingBackendCapability { module: d.id, capability: "graphics.backend" })
    } else {
        None
    }
}

pub fn validate_backend_module<M: NexxusModule>(backend: BackendKind, candidate: &BackendModule<M>) -> (r:
    Result<(), SessionRuntimeError>)
    ensures
        match backend_problem(backend, candidate.kind, candidate.module.spec_descriptor()) {
            Some(e) => r matches Err(x) && x == e,
            None => r is Ok,
        },
{
    if candidate.kind != backend {
        return Err(SessionRuntimeError::BackendKindMismatch { selected: backend, declared: candidate.kind });
    }
    let descriptor = candidate.module.descriptor();
    let expected = expected_backend_module_id(backend);
    if !descriptor.id.same(&expected) {
        return Err(SessionRuntimeError::BackendModuleMismatch { backend, module: descriptor.id.duplicate() });
    }
    let capability = graphics_capability();
    let mut i: usize = 0;
    while i < descriptor.provides.len()
        invariant
            i <= descriptor.provides@.len(),
            capability@ == graphics_capability_name(),
            candidate.kind == backend,
            *descriptor == candidate.module.spec_descriptor(),
            descriptor.id@ == expected_backend_id(backend),
            forall|j: int| 0 <= j < i ==> (#[trigger] descriptor.provides@[j])@ != capability@,
        decreases descriptor.provides@.len() - i,
    {
        if descriptor.provides[i].same(&capability) {
            proof {
                assert(capability_views(descriptor.provides@)[i as int] == capability@);
                assert(capability_views(descriptor.provides@).contains(graphics_capability_name()));
                assert(candidate.kind == backend);
                assert(*descriptor == candidate.module.spec_descriptor());
                assert(descriptor.id@ == expected_backend_id(backend));
                assert(backend_problem(backend, candidate.kind, candidate.module.spec_descriptor()) is None);
            }
            return Ok(());
        }
        i = i + 1;
    }
    proof {
        if capability_views(descriptor.provides@).contains(graphics_capability_name()) {
            let j = choose|j: int|
                0 <= j < capability_views(descriptor.provides@).len() && capability_views(
                    descriptor.provides@,
                )[j] == graphics_capability_name();
            assert(descriptor.provides@[j]@ == capability@);
        }
    }
    Err(SessionRuntimeError::MissingBackendCapability { module: descriptor.id.duplicate(), capability: "graphics.backend" })
}

/// The window manager's descriptor: it needs whichever module provides the
/// graphics capability.
pub fn wm_descriptor() -> (r: ModuleDescriptor)
    ensures
        r.id@ == "nexxus-wm"@,
        r.name@ == "Nexxus Window Manager Core"@,
        r.version@ == "0.1.0"@,
        r.required_core_api == (ApiVersion { major: 1, minor: 0 }),
        r.provides@.len() == 0,
        r.requires@.len() == 1,
        r.requires@[0] matches Dependency::Capability(c) && c@ == graphics_capability_name(),
        !r.optional,
        r.isolation == IsolationMode::InProcess,
{
    let mut requires_list: Vec<Dependency> = Vec::new();
    requires_list.push(Dependency::Capability(graphics_capability()));
    ModuleDescriptor {
        id: wm_module_id(),
        name: "Nexxus Window Manager Core".to_owned(),
        version: "0.1.0".to_owned(),
        required_core_api: ApiVersion::new(1, 0),
        provides: Vec::new(),
        requires: requires_list,
        optional: false,
        isolation: IsolationMode::InProcess,
    }
}

/// The lifecycle adapter of the window manager engine.
pub struct WmLifecycleModule {
    descriptor: ModuleDescriptor,
    manager: Option<WindowManager>,
    calls: Vec<ModuleCall>,
}

impl WmLifecycleModule {
    pub closed spec fn descriptor_spec(&self) -> ModuleDescriptor {
        self.descriptor
    }

    /// Whether the engine was created by `initialize` and not yet stopped.
    pub closed spec fn has_engine(&self) -> bool {
        self.manager is Some
    }

    /// Whether the engine is a window manager that manages nothing yet.
    pub closed spec fn engine_fresh(&self) -> bool {
        self.manager matches Some(m) && m.wf() && m.window_seq().len() == 0 && m.mru_seq().len() == 0
            && m.focus() is None && forall|id: WindowId| !m.has(id)
    }

    /// The lifecycle calls the adapter received, oldest first.
    pub closed spec fn calls_spec(&self) -> Vec<ModuleCall> {
        self.calls
    }

    pub fn new(descriptor: ModuleDescriptor) -> (r: Self)
        ensures
            r.descriptor_spec() == descriptor,
            !r.has_engine(),
            r.calls_spec()@.len() == 0,
    {
        WmLifecycleModule { descriptor, manager: None, calls: Vec::new() }
    }
}

impl NexxusModule for WmLifecycleModule {
    open spec fn spec_descriptor(&self) -> ModuleDescriptor {
        self.descriptor_spec()
    }

    open spec fn lifecycle_calls(&self) -> Vec<ModuleCall> {
        self.calls_spec()
    }

    fn descriptor(&self) -> (r: &ModuleDescriptor) {
        &self.descriptor
    }

    /// Creates a fresh window-manager engine, replacing any earlier one.
    fn initialize(&mut self, context: &ModuleContext) -> (r: Result<(), ModuleFailure>)
        ensures
            r is Ok,
            final(self).descriptor_spec() == old(self).descriptor_spec(),
            final(self).has_engine(),
            final(self).engine_fresh(),
    {
        self.manager = Some(WindowManager::new());
        self.calls.push(ModuleCall::new(ModulePhase::Initialize, context, true));
        Ok(())
    }

    /// Refuses to start without an engine; the engine is left as it is.
    fn start(&mut self, context: &ModuleContext) -> (r: Result<(), ModuleFailure>)
        ensures
            final(self).descriptor_spec() == old(self).descriptor_spec(),
            final(self).has_engine() == old(self).has_engine(),
            final(self).engine_fresh() == old(self).engine_fresh(),
            old(self).has_engine() ==> r is Ok,
            !old(self).has_engine() ==> (r matches Err(e) && e.spec_message()
                == "window manager was not initialized"@),
    {
        if self.manager.is_none() {
            self.calls.push(ModuleCall::new(ModulePhase::Start, context, false));
            return Err(ModuleFailure::new("window manager was not initialized".to_owned()));
        }
        self.calls.push(ModuleCall::new(ModulePhase::Start, context, true));
        Ok(())
    }

    /// Drops the engine.
    fn stop(&mut self, context: &ModuleContext) -> (r: Result<(), ModuleFailure>)
        ensures
            r is Ok,
            final(self).descriptor_spec() == old(self).descriptor_spec(),
            !final(self).has_engine(),
    {
        self.manager = None;
        self.calls.push(ModuleCall::new(ModulePhase::Stop, context, true));
        Ok(())
    }
}

/// The modules a session runs: the backend and the window manager.
pub enum SessionModule<M> {
    Backend(M),
    Wm(WmLifecycleModule),
}

impl<M: NexxusModule> NexxusModule for SessionModule<M> {
    open spec fn spec_descriptor(&self) -> ModuleDescriptor {
        match self {
            SessionModule::Backend(m) => m.spec_descriptor(),
            SessionModule::Wm(w) => w.spec_descriptor(),
        }
    }

    open spec fn lifecycle_calls(&self) -> Vec<ModuleCall> {
        match self {
            SessionModule::Backend(m) => m.lifecycle_calls(),
            SessionModule::Wm(w) => w.calls_spec(),
        }
    }

    fn descriptor(&self) -> (r: &ModuleDescriptor) {
        match self {
            SessionModule::Backend(m) => m.descriptor(),
            SessionModule::Wm(w) => w.descriptor(),
        }
    }

    /// The backend answers for itself; the window manager creates a fresh
    /// engine.
    fn initialize(&mut self, context: &ModuleContext) -> (r: Result<(), ModuleFailure>)
        ensures
            match *old(self) {
                SessionModule::Wm(w) => *final(self) matches SessionModule::Wm(w2) && r is Ok
                    && w2.descriptor_spec() == w.descriptor_spec() && w2.has_engine() && w2.engine_fresh(),
                SessionModule::Backend(_) => *final(self) is Backend,
            },
    {
        match self {
            SessionModule::Backend(m) => m.initialize(context),
            SessionModule::Wm(w) => w.initialize(context),
        }
    }

    /// The backend answers for itself; the window manager starts only with
    /// an engine.
    fn start(&mut self, context: &ModuleContext) -> (r: Result<(), ModuleFailure>)
        ensures
            match *old(self) {
                SessionModule::Wm(w) => *final(self) matches SessionModule::Wm(w2) && w2.descriptor_spec()
                    == w.descriptor_spec() && w2.has_engine() == w.has_engine() && w2.engine_fresh()
                    == w.engine_fresh() && (w.has_engine() ==> r is Ok) && (
                !w.has_engine() ==> (r matches Err(e) && e.spec_message()
                    == "window manager was not initialized"@)),
                SessionModule::Backend(_) => *final(self) is Backend,
            },
    {
        match self {
            SessionModule::Backend(m) => m.start(context),
            SessionModule::Wm(w) => w.start(context),
        }
    }

    /// The backend answers for itself; the window manager drops its engine.
    fn stop(&mut self, context: &ModuleContext) -> (r: Result<(), ModuleFailure>)
        ensures
            match *old(self) {
                SessionModule::Wm(w) => *final(self) matches SessionModule::Wm(w2) && r is Ok
                    && w2.descriptor_spec() == w.descriptor_spec() && !w2.has_engine(),
                SessionModule::Backend(_) => *final(self) is Backend,
            },
    {
        match self {
            SessionModule::Backend(m) => m.stop(context),
            SessionModule::Wm(w) => w.stop(context),
        }
    }
}

/// The registered backend: the selected module, providing the graphics
/// capability.
pub open spec fn backend_entry(d: ModuleDescriptor, backend: ModuleId) -> bool {
    d.id == backend && capability_views(d.provides@).contains(graphics_capability_name())
}

/// The registered window manager: it needs the graphics capability.
pub open spec fn wm_entry(d: ModuleDescriptor) -> bool {
    &&& d.id@ == "nexxus-wm"@
    &&& d.requires@.len() == 1
    &&& d.requires@[0] matches Dependency::Capability(c) && c@ == graphics_capability_name()
}

/// The module graph of a session: the backend and the window manager.
pub open spec fn session_graph(mods: Seq<ModuleDescriptor>, backend: ModuleId) -> bool {
    &&& mods.len() == 2
    &&& (backend_entry(mods[0], backend) && wm_entry(mods[1])) || (backend_entry(mods[1], backend)
        && wm_entry(mods[0]))
}

/// In the start order of a session's module graph the window manager
/// appears, after the backend it depends on.
pub proof fn lemma_backend_before_wm(registry: ModuleRegistry, backend: ModuleId, order: Seq<ModuleId>)
    requires
        registry.wf(),
        session_graph(registry.modules(), backend),
        resolution(
            registry.modules(),
            Map::<Seq<char>, ModuleId>::empty().insert(graphics_capability_name(), backend),
        ) == Ok::<Seq<ModuleId>, RegistryError>(order),
    ensures
        id_views(order).contains("nexxus-wm"@),
        forall|b: int|
            0 <= b < order.len() && (#[trigger] order[b])@ == "nexxus-wm"@ ==> id_views(order.take(b)).contains(
                backend@,
            ),
{
    let mods = registry.modules();
    let sel = Map::<Seq<char>, ModuleId>::empty().insert(graphics_capability_name(), backend);
    registry.lemma_wf_sorted();
    lemma_resolution_order(mods, sel);
    let wi: int = if wm_entry(mods[0]) && backend_entry(mods[1], backend) {
        0
    } else {
        1
    };
    let bi: int = 1 - wi;
    assert(wm_entry(mods[wi]) && backend_entry(mods[bi], backend));
    registry.lemma_registered_found(wi);
    lemma_provider_listed(mods, bi, graphics_capability_name());
    lemma_graph_entry(mods, sel, 2, wi);
    let wd = mods[wi];
    let c = wd.requires@[0]->Capability_0;
    assert(wd.requires@[0] == Dependency::Capability(c));
    assert(provider_ids(mods, c@).len() > 0);
    assert(sel.dom().contains(c@));
    assert(sel[c@] == backend);
    assert(capability_target(mods, sel, wd.id, c) == Ok::<ModuleId, RegistryError>(backend));
    assert(deps_of(mods, sel, wd, 0) == Ok::<Seq<ModuleId>, RegistryError>(Seq::empty()));
    assert(deps_of(mods, sel, wd, 1) == Ok::<Seq<ModuleId>, RegistryError>(seq![backend]));
    assert(id_views(order).contains(mods[wi].id@));
    assert forall|b: int|
        0 <= b < order.len() && (#[trigger] order[b])@ == "nexxus-wm"@ implies id_views(order.take(b)).contains(
        backend@,
    ) by {
        assert(index_of_id(mods, order[b]@) == wi);
        let g = graph_of(mods, sel, 2)->Ok_0;
        assert(g[wi] == seq![backend]);
        assert(g[index_of_id(mods, order[b]@)][0]@ == backend@);
    }
}

/// A prepared session: the validated module graph with both implementations
/// installed, ready to start.
pub struct SessionRuntime<M: NexxusModule> {
    backend: BackendKind,
    environment: Vec<(String, String)>,
    backend_module_id: ModuleId,
    lifecycle: LifecycleManager<SessionModule<M>>,
    startup_order: Vec<ModuleId>,
    control_socket: String,
}

impl<M: NexxusModule> SessionRuntime<M> {
    pub closed spec fn spec_backend(&self) -> BackendKind {
        self.backend
    }

    pub closed spec fn spec_environment(&self) -> Seq<(Seq<char>, Seq<char>)> {
        pair_views(self.environment@)
    }

    pub closed spec fn spec_backend_module_id(&self) -> ModuleId {
        self.backend_module_id
    }

    pub closed spec fn spec_lifecycle(&self) -> LifecycleManager<SessionModule<M>> {
        self.lifecycle
    }

    /// The modules started, in the order they were started.
    pub closed spec fn spec_order(&self) -> Seq<ModuleId> {
        self.startup_order@
    }

    pub closed spec fn spec_control_socket(&self) -> Seq<char> {
        self.control_socket@
    }

    pub closed spec fn wf(&self) -> bool {
        &&& self.lifecycle.wf()
        &&& session_graph(self.lifecycle.spec_registry().modules(), self.backend_module_id)
    }

    /// Builds the module graph of a session: the backend module is checked
    /// against the selection, both descriptors are registered and both
    /// implementations installed before any module receives control.
    pub fn prepare(backend: BackendKind, runtime_dir: &str, backend_module: Option<BackendModule<M>>) -> (r:
        Result<Self, SessionRuntimeError>)
        ensures
            backend_module is None ==> (r matches Err(e) && e
                == SessionRuntimeError::BackendUnavailable { backend }),
            backend_module matches Some(b) ==> match backend_problem(backend, b.kind, b.module.spec_descriptor()) {
                Some(e) => r matches Err(x) && x == e,
                None => if !(ApiVersion { major: 1, minor: 0 }).spec_supports(b.module.spec_descriptor().required_core_api) {
                    r matches Err(x) && x == SessionRuntimeError::Lifecycle(
                        LifecycleError::Registry(
                            RegistryError::IncompatibleCoreApi {
                                module: b.module.spec_descriptor().id,
                                required: b.module.spec_descriptor().required_core_api,
                                current: ApiVersion { major: 1, minor: 0 },
                            },
                        ),
                    )
                } else {
                    r matches Ok(rt) && rt.wf() && rt.spec_backend() == backend && rt.spec_environment()
                        == session_environment(backend) && rt.spec_control_socket() == joined(
                        runtime_dir@,
                        "session.sock"@,
                    ) && rt.spec_order().len() == 0 && rt.spec_backend_module_id()
                        == b.module.spec_descriptor().id && rt.spec_lifecycle().state_of(
                        expected_backend_id(backend),
                    ) == Some(ModuleState::Registered) && rt.spec_lifecycle().state_of("nexxus-wm"@)
                        == Some(ModuleState::Registered) && rt.spec_lifecycle().module_of(
                        expected_backend_id(backend),
                    ) == Some(SessionModule::<M>::Backend(b.module))
                },
            },
    {
        let backend_module = match backend_module {
            Some(b) => b,
            None => return Err(SessionRuntimeError::BackendUnavailable { backend }),
        };
        match validate_backend_module(backend, &backend_module) {
            Ok(()) => {},
            Err(e) => return Err(e),
        }
        let backend_descriptor = backend_module.module.descriptor().duplicate();
        let backend_module_id = backend_descriptor.id.duplicate();
        let wm = wm_descriptor();
        let wm_copy = wm.duplicate();
        let ghost bd = backend_descriptor;
        let mut registry = ModuleRegistry::new(core_api_version());
        match registry.register(backend_descriptor) {
            Ok(()) => {},
            Err(e) => {
                proof {
                    assert(module_ids(Seq::<ModuleDescriptor>::empty()) =~= Seq::<Seq<char>>::empty());
                }
                return Err(SessionRuntimeError::Lifecycle(LifecycleError::Registry(e)));
            },
        }
        proof {
            assert(module_ids(Seq::<ModuleDescriptor>::empty()) =~= Seq::<Seq<char>>::empty());
            assert(registry.modules() =~= seq![bd]);
            reveal_strlit("nexxus-wm");
            reveal_strlit("nexxus-backend-x11");
            reveal_strlit("nexxus-backend-wayland");
            assert(module_ids(registry.modules()) =~= seq![bd.id@]);
            assert(bd.id@ != wm.id@) by {
                assert(bd.id@[7] != wm.id@[7]);
            }
        }
        let ghost wd = wm;
        let ghost mods1 = registry.modules();
        match registry.register(wm) {
            Ok(()) => {},
            Err(e) => {
                proof {
                    assert(false);
                }
                return Err(SessionRuntimeError::Lifecycle(LifecycleError::Registry(e)));
            },
        }
        let ghost mods = registry.modules();
        proof {
            let p = choose|p: int| 0 <= p <= mods1.len() && mods == mods1.insert(p, wd);
            assert(mods.len() == 2);
            let bi: int = if p == 0 { 1 } else { 0 };
            let wi: int = if p == 0 { 0 } else { 1 };
            assert(mods[bi] == bd);
            assert(mods[wi] == wd);
            registry.lemma_registered_found(bi);
            registry.lemma_registered_found(wi);
            assert(capability_views(bd.provides@).contains(graphics_capability_name()));
            assert(backend_entry(mods[bi], backend_module_id));
            assert(wm_entry(mods[wi]));
            assert(session_graph(mods, backend_module_id));
        }
        let context = ModuleContext::new(runtime_dir.to_owned());
        let mut lifecycle: LifecycleManager<SessionModule<M>> = LifecycleManager::new(registry, context);
        let ghost bm = backend_module.module;
        let first = lifecycle.install(SessionModule::Backend(backend_module.module));
        match first {
            Ok(()) => {},
            Err(e) => {
                proof {
                    assert(false);
                }
                return Err(SessionRuntimeError::Lifecycle(e));
            },
        }
        let wm_module = WmLifecycleModule::new(wm_copy);
        let second = lifecycle.install(SessionModule::Wm(wm_module));
        match second {
            Ok(()) => {},
            Err(e) => {
                proof {
                    assert(false);
                }
                return Err(SessionRuntimeError::Lifecycle(e));
            },
        }
        let control_socket = join_path(runtime_dir, "session.sock");
        Ok(SessionRuntime {
            backend,
            environment: prepared_environment(backend),
            backend_module_id,
            lifecycle,
            startup_order: Vec::new(),
            control_socket,
        })
    }

    pub fn backend(&self) -> (r: BackendKind)
        ensures
            r == self.spec_backend(),
    {
        self.backend
    }

    pub fn control_socket(&self) -> (r: &str)
        ensures
            r@ == self.spec_control_socket(),
    {
        self.control_socket.as_str()
    }

    /// The XDG variables for processes launched in the session; the process
    /// environment itself is left alone.
    pub fn environment(&self) -> (r: &[(String, String)])
        ensures
            pair_views(r@) == self.spec_environment(),
    {
        self.environment.as_slice()
    }

    /// The lifecycle state of a module of the session.
    pub fn module_state(&self, id: &ModuleId) -> (r: Option<ModuleState>)
        ensures
            r == self.spec_lifecycle().state_of(id@),
    {
        self.lifecycle.state(id)
    }

    /// Starts the module graph with the selected backend as the provider of
    /// the graphics capability, so the backend starts before the window
    /// manager. The complete order is kept for the reverse shutdown.
    pub fn start(&mut self) -> (r: Result<(), SessionRuntimeError>)
        requires
            old(self).wf(),
        ensures
            final(self).wf(),
            final(self).spec_backend() == old(self).spec_backend(),
            final(self).spec_control_socket() == old(self).spec_control_socket(),
            final(self).spec_environment() == old(self).spec_environment(),
            final(self).spec_backend_module_id() == old(self).spec_backend_module_id(),
            r is Ok ==> id_views(final(self).spec_order()).contains("nexxus-wm"@),
            r is Ok ==> forall|b: int|
                0 <= b < final(self).spec_order().len() && (#[trigger] final(self).spec_order()[b])@
                    == "nexxus-wm"@ ==> id_views(final(self).spec_order().take(b)).contains(
                    final(self).spec_backend_module_id()@,
                ),
            ({
                let sel = Map::<Seq<char>, ModuleId>::empty().insert(
                    graphics_capability_name(),
                    old(self).spec_backend_module_id(),
                );
                let lc = old(self).spec_lifecycle();
                match resolution(lc.spec_registry().modules(), sel) {
                    Err(e) => r matches Err(x) && x == SessionRuntimeError::Lifecycle(LifecycleError::Registry(e))
                        && final(self).spec_lifecycle() == lc && final(self).spec_order() == old(self).spec_order(),
                    Ok(order) => match lc.preflight_error(order, order.len() as int) {
                        Some(e) => r matches Err(x) && x == SessionRuntimeError::Lifecycle(e)
                            && final(self).spec_lifecycle() == lc && final(self).spec_order() == old(self).spec_order(),
                        None => match r {
                            Ok(()) => exists|v: Vec<ModuleId>|
                                v@ == final(self).spec_order() && lc.started(
                                    final(self).spec_lifecycle(),
                                    order,
                                    Ok(v),
                                ),
                            Err(x) => x matches SessionRuntimeError::Lifecycle(e) && lc.started(
                                final(self).spec_lifecycle(),
                                order,
                                Err(e),
                            ) && final(self).spec_order() == old(self).spec_order(),
                        },
                    },
                }
            }),
    {
        let mut selections = CapabilitySelections::new();
        selections.select(graphics_capability(), self.backend_module_id.duplicate());
        proof {
            assert(selections.selected() =~= Map::<Seq<char>, ModuleId>::empty().insert(
                graphics_capability_name(),
                self.backend_module_id,
            ));
        }
        let ghost lc = self.lifecycle;
        let ghost sel = selections.selected();
        let result = self.lifecycle.start_all(&selections);
        let ghost res = result;
        proof {
            match resolution(lc.spec_registry().modules(), sel) {
                Err(_) => {},
                Ok(ord) => match lc.preflight_error(ord, ord.len() as int) {
                    Some(_) => {},
                    None => {
                        lc.lemma_started_wf(self.lifecycle, ord, res);
                    },
                },
            }
        }
        match result {
            Ok(order) => {
                self.startup_order = order;
                proof {
                    assert(res == Ok::<Vec<ModuleId>, LifecycleError>(self.startup_order));
                    match resolution(lc.spec_registry().modules(), sel) {
                        Err(_) => {},
                        Ok(ord) => match lc.preflight_error(ord, ord.len() as int) {
                            Some(_) => {},
                            None => {
                                assert(lc.started(self.lifecycle, ord, Ok(self.startup_order)));
                                assert(exists|v: Vec<ModuleId>|
                                    v@ == self.startup_order@ && lc.started(self.lifecycle, ord, Ok(v)));
                                lc.lemma_started_order(self.lifecycle, ord, self.startup_order);
                                lc.lemma_registry_wf();
                                lemma_backend_before_wm(lc.spec_registry(), self.backend_module_id, ord);
                            },
                        },
                    }
                }
                Ok(())
            },
            Err(e) => {
                proof {
                    assert(res == Err::<Vec<ModuleId>, LifecycleError>(e));
                    match resolution(lc.spec_registry().modules(), sel) {
                        Err(_) => {},
                        Ok(ord) => match lc.preflight_error(ord, ord.len() as int) {
                            Some(_) => {},
                            None => {
                                assert(lc.started(self.lifecycle, ord, Err(e)));

                            },
                        },
                    }
                }
                Err(SessionRuntimeError::Lifecycle(e))
            },
        }
    }

    /// The session as reported over the control socket: the backend, the
    /// socket and the state of each started module, in start order.
    /// Whether `s` reports this session: its backend, its control socket,
    /// and each started module, in start order, with its current state.
    pub open spec fn reports(self, s: SessionStatus) -> bool {
        &&& s.backend == self.spec_backend()
        &&& s.control_socket@ == self.spec_control_socket()
        &&& s.modules@.len() == self.spec_order().len()
        &&& forall|i: int|
            0 <= i < self.spec_order().len() ==> (#[trigger] s.modules@[i]).0@ == self.spec_order()[i]@
                && s.modules@[i].1 == self.spec_lifecycle().state_of(self.spec_order()[i]@)
    }

    pub fn status(&self) -> (r: SessionStatus)
        ensures
            self.reports(r),
    {
        let mut modules: Vec<(String, Option<ModuleState>)> = Vec::new();
        let mut i: usize = 0;
        while i < self.startup_order.len()
            invariant
                i <= self.startup_order@.len(),
                modules@.len() == i,
                forall|j: int|
                    0 <= j < i ==> (#[trigger] modules@[j]).0@ == self.startup_order@[j]@ && modules@[j].1
                        == self.lifecycle.state_of(self.startup_order@[j]@),
            decreases self.startup_order@.len() - i,
        {
            let id = &self.startup_order[i];
            modules.push((id.as_str().to_owned(), self.lifecycle.state(id)));
            i = i + 1;
        }
        SessionStatus { backend: self.backend, control_socket: self.control_socket.clone(), modules }
    }

    /// Stops every started module in reverse start order. Cleanup goes on
    /// after individual failures, which are counted in the error.
    pub fn shutdown(&mut self) -> (r: Result<(), SessionRuntimeError>)
        requires
            old(self).wf(),
        ensures
            final(self).wf(),
            final(self).spec_order().len() == 0,
            old(self).spec_lifecycle().stopped(final(self).spec_lifecycle(), old(self).spec_order()),
            final(self).spec_backend() == old(self).spec_backend(),
            final(self).spec_control_socket() == old(self).spec_control_socket(),
            final(self).spec_environment() == old(self).spec_environment(),
            final(self).spec_backend_module_id() == old(self).spec_backend_module_id(),
            final(self).spec_lifecycle().pending() == old(self).spec_lifecycle().pending() + old(
                self,
            ).spec_lifecycle().stop_events(final(self).spec_lifecycle(), old(self).spec_order()),
            ({
                let report = old(self).spec_lifecycle().stop_report(final(self).spec_lifecycle(), old(self).spec_order());
                &&& report.len() == 0 ==> r is Ok
                &&& report.len() > 0 ==> (r matches Err(SessionRuntimeError::ShutdownFailures(n)) && n == report.len())
            }),
    {
        let ghost lc = self.lifecycle;
        let errors = self.lifecycle.stop_all(self.startup_order.as_slice());
        proof {
            lc.lemma_stopped_wf(self.lifecycle, self.startup_order@);
            assert(errors@.map_values(|e: LifecycleError| error_key(e)).len() == errors@.len());
        }
        self.startup_order = Vec::new();
        if errors.len() == 0 {
            Ok(())
        } else {
            Err(SessionRuntimeError::ShutdownFailures(errors.len()))
        }
    }

    /// The answer to a control request, and whether the session should shut
    /// down once it is sent.
    pub fn respond(&self, request: &SessionControlRequest) -> (r: (SessionControlResponse, bool))
        ensures
            request is Status ==> (r.0 matches SessionControlResponse::Status(s) && self.reports(s)) && !r.1,
            request is Shutdown ==> r.0 == SessionControlResponse::Accepted && r.1,
    {
        match request {
            SessionControlRequest::Status => (SessionControlResponse::Status(self.status()), false),
            SessionControlRequest::Shutdown { .. } => (SessionControlResponse::Accepted, true),
        }
    }
}

/// The status carried by the answer to a status request; any other answer
/// is a protocol error.
pub fn status_from_response(response: SessionControlResponse) -> (r: Result<SessionStatus, SessionRuntimeError>)
    ensures
        response matches SessionControlResponse::Status(s) ==> (r matches Ok(x) && x == s),
        response matches SessionControlResponse::Error(m) ==> (r matches Err(
            SessionRuntimeError::Protocol(ProtocolError::Io(x)),
        ) && x == m),
        response is Accepted ==> (r matches Err(SessionRuntimeError::Protocol(ProtocolError::Io(x)))
            && x@ == "unexpected shutdown acknowledgement for status request"@),
{
    match response {
        SessionControlResponse::Status(status) => Ok(status),
        SessionControlResponse::Error(message) => Err(SessionRuntimeError::Protocol(ProtocolError::Io(message))),
        SessionControlResponse::Accepted => Err(
            SessionRuntimeError::Protocol(
                ProtocolError::Io("unexpected shutdown acknowledgement for status request".to_owned()),
            ),
        ),
    }
}

/// The answer to a shutdown request: an acknowledgement, or a protocol error.
pub fn shutdown_from_response(response: SessionControlResponse) -> (r: Result<(), SessionRuntimeError>)
    ensures
        response is Accepted ==> r is Ok,
        response matches SessionControlResponse::Error(m) ==> (r matches Err(
            SessionRuntimeError::Protocol(ProtocolError::Io(x)),
        ) && x == m),
        response is Status ==> (r matches Err(SessionRuntimeError::Protocol(ProtocolError::Io(x)))
            && x@ == "unexpected status response for shutdown request"@),
{
    match response {
        SessionControlResponse::Accepted => Ok(()),
        SessionControlResponse::Error(message) => Err(SessionRuntimeError::Protocol(ProtocolError::Io(message))),
        SessionControlResponse::Status(_) => Err(
            SessionRuntimeError::Protocol(
                ProtocolError::Io("unexpected status response for shutdown request".to_owned()),
            ),
        ),
    }
}

} // verus!
