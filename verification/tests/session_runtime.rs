use nexxus::backend_api::BackendKind;
use nexxus::core_types::{ApiVersion, CapabilityId, IsolationMode, ModuleDescriptor, ModuleState};
use nexxus::lifecycle::{LifecycleError, ModuleCall, ModuleContext, ModuleFailure, ModulePhase, NexxusModule};
use nexxus::protocol::ProtocolError;
use nexxus::session_runtime::{
    expected_backend_module_id, graphics_capability, prepared_environment, shutdown_from_response,
    status_from_response, wm_descriptor, BackendModule, SessionControlRequest,
    SessionControlResponse, SessionRuntime, SessionRuntimeError, SessionStatus,
};
use std::sync::{Arc, Mutex};

struct FakeBackend {
    descriptor: ModuleDescriptor,
    calls: Arc<Mutex<Vec<&'static str>>>,
    record: Vec<ModuleCall>,
    fail_start: bool,
}

impl FakeBackend {
    fn note(&mut self, name: &'static str, phase: ModulePhase, context: &ModuleContext, succeeded: bool) {
        self.calls.lock().unwrap().push(name);
        self.record.push(ModuleCall { phase, runtime_dir: context.runtime_dir().to_string(), succeeded });
    }
}

impl NexxusModule for FakeBackend {
    fn spec_descriptor(&self) -> ModuleDescriptor {
        self.descriptor.clone()
    }
    fn lifecycle_calls(&self) -> Vec<ModuleCall> {
        self.record.clone()
    }
    fn descriptor(&self) -> &ModuleDescriptor {
        &self.descriptor
    }
    fn initialize(&mut self, context: &ModuleContext) -> Result<(), ModuleFailure> {
        self.note("backend.initialize", ModulePhase::Initialize, context, true);
        Ok(())
    }
    fn start(&mut self, context: &ModuleContext) -> Result<(), ModuleFailure> {
        let fail = self.fail_start;
        self.note("backend.start", ModulePhase::Start, context, !fail);
        if fail {
            return Err(ModuleFailure::new("synthetic backend failure".to_string()));
        }
        Ok(())
    }
    fn stop(&mut self, context: &ModuleContext) -> Result<(), ModuleFailure> {
        self.note("backend.stop", ModulePhase::Stop, context, true);
        Ok(())
    }
}

fn descriptor_for(kind: BackendKind) -> ModuleDescriptor {
    ModuleDescriptor {
        id: expected_backend_module_id(kind),
        name: "fake backend".into(),
        version: "0.1.0".into(),
        required_core_api: ApiVersion::new(1, 0),
        provides: vec![CapabilityId::new("graphics.backend").unwrap()],
        requires: Vec::new(),
        optional: false,
        isolation: IsolationMode::InProcess,
    }
}

fn backend(
    kind: BackendKind,
    calls: Arc<Mutex<Vec<&'static str>>>,
    fail_start: bool,
) -> BackendModule<FakeBackend> {
    BackendModule {
        kind,
        module: FakeBackend { descriptor: descriptor_for(kind), calls, record: Vec::new(), fail_start },
    }
}

#[test]
fn unavailable_explicit_backend_fails_before_module_start() {
    let result = SessionRuntime::<FakeBackend>::prepare(BackendKind::X11, "/run/user/1000/nexxus", None);
    assert!(matches!(
        result,
        Err(SessionRuntimeError::BackendUnavailable { backend: BackendKind::X11 })
    ));
}

#[test]
fn starts_backend_before_wm_and_stops_in_reverse_order() {
    let calls = Arc::new(Mutex::new(Vec::new()));
    let mut runtime = SessionRuntime::prepare(
        BackendKind::X11,
        "/run/user/1000/nexxus",
        Some(backend(BackendKind::X11, Arc::clone(&calls), false)),
    )
    .unwrap();
    let session_type = runtime
        .environment()
        .iter()
        .find(|(key, _)| key == "XDG_SESSION_TYPE")
        .map(|(_, value)| value.as_str());
    assert_eq!(session_type, Some("x11"));
    runtime.start().unwrap();
    let status = runtime.status();
    assert_eq!(status.modules.len(), 2);
    assert_eq!(status.modules[0].0, "nexxus-backend-x11");
    assert_eq!(status.modules[1].0, "nexxus-wm");
    assert!(status.modules.iter().all(|(_, state)| *state == Some(ModuleState::Running)));
    runtime.shutdown().unwrap();
    assert_eq!(
        calls.lock().unwrap().as_slice(),
        &["backend.initialize", "backend.start", "backend.stop"]
    );
    assert!(runtime.status().modules.is_empty());
}

#[test]
fn backend_start_failure_rolls_back_without_starting_wm() {
    let calls = Arc::new(Mutex::new(Vec::new()));
    let mut runtime = SessionRuntime::prepare(
        BackendKind::Wayland,
        "/run/user/1000/nexxus",
        Some(backend(BackendKind::Wayland, Arc::clone(&calls), true)),
    )
    .unwrap();
    assert!(matches!(
        runtime.start(),
        Err(SessionRuntimeError::Lifecycle(LifecycleError::Module { phase: "start", .. }))
    ));
    assert_eq!(
        calls.lock().unwrap().as_slice(),
        &["backend.initialize", "backend.start", "backend.stop"]
    );
    let wm_id = wm_descriptor().id;
    assert_eq!(runtime.module_state(&wm_id), Some(ModuleState::Registered));
}

#[test]
fn backend_module_is_checked_against_the_selection() {
    let calls = Arc::new(Mutex::new(Vec::new()));
    let wrong_kind = SessionRuntime::prepare(
        BackendKind::X11,
        "/tmp",
        Some(BackendModule {
            kind: BackendKind::Wayland,
            module: FakeBackend {
                descriptor: descriptor_for(BackendKind::Wayland),
                calls: Arc::clone(&calls),
                record: Vec::new(), fail_start: false,
            },
        }),
    );
    assert!(matches!(
        wrong_kind,
        Err(SessionRuntimeError::BackendKindMismatch {
            selected: BackendKind::X11,
            declared: BackendKind::Wayland
        })
    ));
    let wrong_id = SessionRuntime::prepare(
        BackendKind::X11,
        "/tmp",
        Some(BackendModule {
            kind: BackendKind::X11,
            module: FakeBackend {
                descriptor: descriptor_for(BackendKind::Wayland),
                calls: Arc::clone(&calls),
                record: Vec::new(), fail_start: false,
            },
        }),
    );
    assert!(matches!(wrong_id, Err(SessionRuntimeError::BackendModuleMismatch { .. })));
    let mut no_capability = descriptor_for(BackendKind::X11);
    no_capability.provides.clear();
    let missing = SessionRuntime::prepare(
        BackendKind::X11,
        "/tmp",
        Some(BackendModule {
            kind: BackendKind::X11,
            module: FakeBackend { descriptor: no_capability, calls: Arc::clone(&calls), record: Vec::new(), fail_start: false },
        }),
    );
    assert!(matches!(
        missing,
        Err(SessionRuntimeError::MissingBackendCapability { capability: "graphics.backend", .. })
    ));
    let mut newer = descriptor_for(BackendKind::X11);
    newer.required_core_api = ApiVersion::new(1, 4);
    let incompatible = SessionRuntime::prepare(
        BackendKind::X11,
        "/tmp",
        Some(BackendModule {
            kind: BackendKind::X11,
            module: FakeBackend { descriptor: newer, calls: Arc::clone(&calls), record: Vec::new(), fail_start: false },
        }),
    );
    assert!(matches!(incompatible, Err(SessionRuntimeError::Lifecycle(LifecycleError::Registry(_)))));
    assert!(calls.lock().unwrap().is_empty());
}

#[test]
fn control_requests_are_answered() {
    let calls = Arc::new(Mutex::new(Vec::new()));
    let mut runtime = SessionRuntime::prepare(
        BackendKind::X11,
        "/run/user/7/nexxus/",
        Some(backend(BackendKind::X11, Arc::clone(&calls), false)),
    )
    .unwrap();
    assert_eq!(runtime.control_socket(), "/run/user/7/nexxus/session.sock");
    runtime.start().unwrap();
    let (response, stop) = runtime.respond(&SessionControlRequest::Status);
    assert!(!stop);
    let status = status_from_response(response).unwrap();
    assert_eq!(status.backend, BackendKind::X11);
    assert_eq!(status.modules.len(), 2);
    let (response, stop) = runtime.respond(&SessionControlRequest::Shutdown { reason: "done".into() });
    assert!(stop);
    assert_eq!(response, SessionControlResponse::Accepted);
    assert!(shutdown_from_response(response).is_ok());
}

#[test]
fn unexpected_control_answers_are_protocol_errors() {
    assert!(matches!(
        status_from_response(SessionControlResponse::Accepted),
        Err(SessionRuntimeError::Protocol(ProtocolError::Io(_)))
    ));
    let status = SessionStatus { backend: BackendKind::X11, control_socket: "/s".into(), modules: Vec::new() };
    assert!(matches!(
        shutdown_from_response(SessionControlResponse::Status(status)),
        Err(SessionRuntimeError::Protocol(ProtocolError::Io(_)))
    ));
    match status_from_response(SessionControlResponse::Error("boom".into())) {
        Err(SessionRuntimeError::Protocol(ProtocolError::Io(m))) => assert_eq!(m, "boom"),
        other => panic!("unexpected {other:?}"),
    }
}

#[test]
fn environment_and_identities() {
    let env = prepared_environment(BackendKind::Wayland);
    assert_eq!(
        env,
        vec![
            ("XDG_CURRENT_DESKTOP".to_string(), "Nexxus".to_string()),
            ("XDG_SESSION_DESKTOP".to_string(), "nexxus".to_string()),
            ("XDG_SESSION_TYPE".to_string(), "wayland".to_string()),
        ]
    );
    assert_eq!(graphics_capability().as_str(), "graphics.backend");
    assert_eq!(expected_backend_module_id(BackendKind::Wayland).as_str(), "nexxus-backend-wayland");
    let wm = wm_descriptor();
    assert_eq!(wm.id.as_str(), "nexxus-wm");
    assert_eq!(wm.requires.len(), 1);
}

#[test]
fn window_manager_module_needs_initialize_before_start() {
    let context = ModuleContext::new("/tmp/nexxus-wm-module-test".to_string());
    let mut module = nexxus::session_runtime::WmLifecycleModule::new(nexxus::session_runtime::wm_descriptor());
    let refused = module.start(&context).unwrap_err();
    assert_eq!(refused.message(), "window manager was not initialized");
    module.initialize(&context).unwrap();
    module.start(&context).unwrap();
    module.stop(&context).unwrap();
    assert!(module.start(&context).is_err());
}
