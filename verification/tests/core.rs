use nexxus::core_types::{
    core_api_version, ApiVersion, CapabilityId, Dependency, IsolationMode, ModuleDescriptor, ModuleId,
    ModuleState,
};
use nexxus::lifecycle::{
    CoreEvent, LifecycleError, LifecycleManager, ModuleCall, ModuleContext, ModuleFailure, ModulePhase,
    NexxusModule,
};
use nexxus::registry::{CapabilitySelections, ModuleRegistry, RegistryError};
use std::sync::{Arc, Mutex};

fn id(value: &str) -> ModuleId {
    ModuleId::new(value).unwrap()
}

fn cap(value: &str) -> CapabilityId {
    CapabilityId::new(value).unwrap()
}

fn descriptor(name: &str) -> ModuleDescriptor {
    ModuleDescriptor {
        id: id(name),
        name: name.into(),
        version: "0.1.0".into(),
        required_core_api: ApiVersion::new(1, 0),
        provides: Vec::new(),
        requires: Vec::new(),
        optional: false,
        isolation: IsolationMode::InProcess,
    }
}

#[derive(Clone, Copy)]
enum FailurePoint {
    Nothing,
    Initialize,
    Start,
    Stop,
}

struct DummyModule {
    descriptor: ModuleDescriptor,
    calls: Arc<Mutex<Vec<&'static str>>>,
    record: Arc<Mutex<Vec<ModuleCall>>>,
    failure: FailurePoint,
}

impl DummyModule {
    fn answer(
        &mut self,
        name: &'static str,
        phase: ModulePhase,
        context: &ModuleContext,
        fails: bool,
    ) -> Result<(), ModuleFailure> {
        self.calls.lock().unwrap().push(name);
        self.record.lock().unwrap().push(ModuleCall {
            phase,
            runtime_dir: context.runtime_dir().to_string(),
            succeeded: !fails,
        });
        if fails {
            return Err(ModuleFailure::new(format!("{name} failed")));
        }
        Ok(())
    }
}

impl NexxusModule for DummyModule {
    fn spec_descriptor(&self) -> ModuleDescriptor {
        self.descriptor.clone()
    }

    fn lifecycle_calls(&self) -> Vec<ModuleCall> {
        self.record.lock().unwrap().clone()
    }

    fn descriptor(&self) -> &ModuleDescriptor {
        &self.descriptor
    }

    fn initialize(&mut self, context: &ModuleContext) -> Result<(), ModuleFailure> {
        let fails = matches!(self.failure, FailurePoint::Initialize);
        self.answer("initialize", ModulePhase::Initialize, context, fails)
    }

    fn start(&mut self, context: &ModuleContext) -> Result<(), ModuleFailure> {
        let fails = matches!(self.failure, FailurePoint::Start);
        self.answer("start", ModulePhase::Start, context, fails)
    }

    fn stop(&mut self, context: &ModuleContext) -> Result<(), ModuleFailure> {
        let fails = matches!(self.failure, FailurePoint::Stop);
        self.answer("stop", ModulePhase::Stop, context, fails)
    }
}

fn manager_with(descriptors: &[ModuleDescriptor]) -> LifecycleManager<DummyModule> {
    let mut registry = ModuleRegistry::new(core_api_version());
    for descriptor in descriptors {
        registry.register(descriptor.clone()).unwrap();
    }
    LifecycleManager::new(registry, ModuleContext::new("/tmp/nexxus-lifecycle-test".to_string()))
}

#[test]
fn rejects_module_requiring_newer_core_minor_api() {
    let mut module = descriptor("future");
    module.required_core_api = ApiVersion::new(1, 1);
    let mut registry = ModuleRegistry::new(ApiVersion::new(1, 0));
    assert!(matches!(registry.register(module), Err(RegistryError::IncompatibleCoreApi { .. })));
}

#[test]
fn rejects_duplicate_module() {
    let mut registry = ModuleRegistry::new(ApiVersion::new(1, 0));
    registry.register(descriptor("alpha")).unwrap();
    assert!(matches!(registry.register(descriptor("alpha")), Err(RegistryError::DuplicateModule(_))));
}

#[test]
fn rejects_missing_dependency() {
    let mut module = descriptor("alpha");
    module.requires.push(Dependency::Module(id("missing")));
    let mut registry = ModuleRegistry::new(ApiVersion::new(1, 0));
    registry.register(module).unwrap();
    assert!(matches!(
        registry.resolve_order(&CapabilitySelections::default()),
        Err(RegistryError::MissingModule { .. })
    ));
}

#[test]
fn detects_dependency_cycle() {
    let mut first = descriptor("a");
    let mut second = descriptor("b");
    first.requires.push(Dependency::Module(id("b")));
    second.requires.push(Dependency::Module(id("a")));
    let mut registry = ModuleRegistry::new(ApiVersion::new(1, 0));
    registry.register(first).unwrap();
    registry.register(second).unwrap();
    assert!(matches!(
        registry.resolve_order(&CapabilitySelections::default()),
        Err(RegistryError::DependencyCycle(_))
    ));
}

#[test]
fn selection_resolves_ambiguous_capability() {
    let graphics = cap("graphics.backend");
    let mut first = descriptor("backend-x");
    first.provides.push(graphics.clone());
    let mut second = descriptor("backend-y");
    second.provides.push(graphics.clone());
    let mut consumer = descriptor("consumer");
    consumer.requires.push(Dependency::Capability(graphics.clone()));

    let mut registry = ModuleRegistry::new(ApiVersion::new(1, 0));
    registry.register(first).unwrap();
    registry.register(second).unwrap();
    registry.register(consumer).unwrap();

    assert!(matches!(
        registry.resolve_order(&CapabilitySelections::default()),
        Err(RegistryError::AmbiguousCapability { .. })
    ));
    let mut selections = CapabilitySelections::default();
    selections.select(graphics, id("backend-x"));
    let order = registry.resolve_order(&selections).unwrap();
    assert!(
        order.iter().position(|value| value == &id("backend-x")).unwrap()
            < order.iter().position(|value| value == &id("consumer")).unwrap()
    );
}

#[test]
fn resolution_visits_modules_in_identifier_order_dependencies_first() {
    let mut c = descriptor("c");
    c.requires.push(Dependency::Module(id("a")));
    let mut b = descriptor("b");
    b.requires.push(Dependency::Module(id("c")));
    let mut registry = ModuleRegistry::new(ApiVersion::new(1, 0));
    registry.register(c).unwrap();
    registry.register(descriptor("a")).unwrap();
    registry.register(b).unwrap();
    let ids: Vec<String> = registry.descriptors().iter().map(|d| d.id.as_str().to_string()).collect();
    assert_eq!(ids, vec!["a", "b", "c"]);
    let order: Vec<String> = registry
        .resolve_order(&CapabilitySelections::default())
        .unwrap()
        .iter()
        .map(|m| m.as_str().to_string())
        .collect();
    assert_eq!(order, vec!["a", "c", "b"]);
}

#[test]
fn invalid_selection_and_missing_capability_are_reported() {
    let graphics = cap("graphics.backend");
    let mut provider = descriptor("backend-x");
    provider.provides.push(graphics.clone());
    let mut consumer = descriptor("consumer");
    consumer.requires.push(Dependency::Capability(graphics.clone()));
    let mut registry = ModuleRegistry::new(ApiVersion::new(1, 0));
    registry.register(provider).unwrap();
    registry.register(consumer).unwrap();
    let mut selections = CapabilitySelections::default();
    selections.select(graphics.clone(), id("other"));
    assert!(matches!(
        registry.resolve_order(&selections),
        Err(RegistryError::InvalidCapabilitySelection { .. })
    ));

    let mut lonely = descriptor("lonely");
    lonely.requires.push(Dependency::Capability(cap("audio")));
    let mut registry = ModuleRegistry::new(ApiVersion::new(1, 0));
    registry.register(lonely).unwrap();
    assert!(matches!(
        registry.resolve_order(&CapabilitySelections::default()),
        Err(RegistryError::MissingCapability { .. })
    ));
}

#[test]
fn api_support_requires_same_major_and_no_newer_minor() {
    let current = ApiVersion::new(1, 2);
    assert!(current.supports(ApiVersion::new(1, 0)));
    assert!(current.supports(ApiVersion::new(1, 2)));
    assert!(!current.supports(ApiVersion::new(1, 3)));
    assert!(!current.supports(ApiVersion::new(2, 0)));
    assert!(ModuleId::new("  ").is_err());
}

#[test]
fn missing_implementation_fails_before_any_module_is_initialized() {
    let first = descriptor("first");
    let second = descriptor("second");
    let calls = Arc::new(Mutex::new(Vec::new()));
    let mut manager = manager_with(&[first.clone(), second]);
    manager
        .install(DummyModule { descriptor: first, calls: Arc::clone(&calls), record: Arc::new(Mutex::new(Vec::new())), failure: FailurePoint::Nothing })
        .unwrap();

    assert!(matches!(
        manager.start_all(&CapabilitySelections::default()),
        Err(LifecycleError::MissingImplementation(_))
    ));
    assert!(calls.lock().unwrap().is_empty());
}

#[test]
fn start_failure_cleans_resources_but_preserves_failed_state() {
    let desc = descriptor("broken");
    let calls = Arc::new(Mutex::new(Vec::new()));
    let mut manager = manager_with(std::slice::from_ref(&desc));
    manager
        .install(DummyModule { descriptor: desc.clone(), calls: Arc::clone(&calls), record: Arc::new(Mutex::new(Vec::new())), failure: FailurePoint::Start })
        .unwrap();

    assert!(manager.start_all(&CapabilitySelections::default()).is_err());
    assert_eq!(manager.state(&desc.id), Some(ModuleState::Failed));
    assert_eq!(calls.lock().unwrap().as_slice(), &["initialize", "start", "stop"]);
}

#[test]
fn initialize_failure_attempts_cleanup_and_preserves_failed_state() {
    let desc = descriptor("broken-init");
    let calls = Arc::new(Mutex::new(Vec::new()));
    let mut manager = manager_with(std::slice::from_ref(&desc));
    manager
        .install(DummyModule {
            descriptor: desc.clone(),
            calls: Arc::clone(&calls),
            record: Arc::new(Mutex::new(Vec::new())), failure: FailurePoint::Initialize,
        })
        .unwrap();

    assert!(manager.start_all(&CapabilitySelections::default()).is_err());
    assert_eq!(manager.state(&desc.id), Some(ModuleState::Failed));
    assert_eq!(calls.lock().unwrap().as_slice(), &["initialize", "stop"]);
}

#[test]
fn successful_start_and_stop_announce_every_state_change() {
    let desc = descriptor("ok");
    let calls = Arc::new(Mutex::new(Vec::new()));
    let mut manager = manager_with(std::slice::from_ref(&desc));
    manager
        .install(DummyModule { descriptor: desc.clone(), calls: Arc::clone(&calls), record: Arc::new(Mutex::new(Vec::new())), failure: FailurePoint::Nothing })
        .unwrap();
    assert!(matches!(
        manager.install(DummyModule { descriptor: desc.clone(), calls: Arc::clone(&calls), record: Arc::new(Mutex::new(Vec::new())), failure: FailurePoint::Nothing }),
        Err(LifecycleError::DuplicateImplementation(_))
    ));
    let order = manager.start_all(&CapabilitySelections::default()).unwrap();
    assert_eq!(manager.state(&desc.id), Some(ModuleState::Running));
    let errors = manager.stop_all(&order);
    assert!(errors.is_empty());
    assert_eq!(manager.state(&desc.id), Some(ModuleState::Stopped));
    let states: Vec<ModuleState> = manager
        .drain_events()
        .into_iter()
        .map(|event| match event {
            CoreEvent::ModuleStateChanged { state, .. } => state,
            _ => panic!("unexpected event"),
        })
        .collect();
    assert_eq!(
        states,
        vec![ModuleState::Initialized, ModuleState::Running, ModuleState::Stopping, ModuleState::Stopped]
    );
}

#[test]
fn mismatched_descriptor_is_refused_at_install() {
    let desc = descriptor("m");
    let mut other = desc.clone();
    other.version = "9.9.9".into();
    let calls = Arc::new(Mutex::new(Vec::new()));
    let mut manager = manager_with(std::slice::from_ref(&desc));
    assert!(matches!(
        manager.install(DummyModule { descriptor: other, calls: Arc::clone(&calls), record: Arc::new(Mutex::new(Vec::new())), failure: FailurePoint::Nothing }),
        Err(LifecycleError::DescriptorMismatch { .. })
    ));
    assert!(matches!(
        manager.install(DummyModule { descriptor: descriptor("unknown"), calls, record: Arc::new(Mutex::new(Vec::new())), failure: FailurePoint::Nothing }),
        Err(LifecycleError::MissingImplementation(_))
    ));
}

#[test]
fn stop_all_walks_the_order_backwards_and_reports_missing_modules() {
    let desc = descriptor("ok");
    let calls = Arc::new(Mutex::new(Vec::new()));
    let mut manager = manager_with(std::slice::from_ref(&desc));
    manager
        .install(DummyModule { descriptor: desc.clone(), calls: Arc::clone(&calls), record: Arc::new(Mutex::new(Vec::new())), failure: FailurePoint::Nothing })
        .unwrap();
    manager.start_all(&CapabilitySelections::default()).unwrap();
    manager.drain_events();
    let order = vec![id("ghost.one"), desc.id.clone(), desc.id.clone(), id("ghost.two")];
    let errors = manager.stop_all(&order);
    let missing: Vec<String> = errors
        .iter()
        .map(|error| match error {
            LifecycleError::MissingImplementation(module) => module.as_str().to_string(),
            _ => panic!("unexpected error"),
        })
        .collect();
    assert_eq!(missing, vec!["ghost.two".to_string(), "ghost.one".to_string()]);
    assert_eq!(manager.state(&desc.id), Some(ModuleState::Stopped));
    let states: Vec<ModuleState> = manager
        .drain_events()
        .into_iter()
        .map(|event| match event {
            CoreEvent::ModuleStateChanged { state, .. } => state,
            _ => panic!("unexpected event"),
        })
        .collect();
    assert_eq!(states, vec![ModuleState::Stopping, ModuleState::Stopped]);
    assert_eq!(calls.lock().unwrap().iter().filter(|call| **call == "stop").count(), 1);
}

#[test]
fn failed_start_announces_rollback_in_order() {
    let alpha = descriptor("alpha");
    let beta = descriptor("beta");
    let calls = Arc::new(Mutex::new(Vec::new()));
    let mut manager = manager_with(&[alpha.clone(), beta.clone()]);
    manager
        .install(DummyModule { descriptor: alpha.clone(), calls: Arc::clone(&calls), record: Arc::new(Mutex::new(Vec::new())), failure: FailurePoint::Nothing })
        .unwrap();
    manager
        .install(DummyModule { descriptor: beta.clone(), calls: Arc::clone(&calls), record: Arc::new(Mutex::new(Vec::new())), failure: FailurePoint::Start })
        .unwrap();
    assert!(matches!(
        manager.start_all(&CapabilitySelections::default()),
        Err(LifecycleError::Module { phase: "start", .. })
    ));
    let events: Vec<(String, ModuleState)> = manager
        .drain_events()
        .into_iter()
        .map(|event| match event {
            CoreEvent::ModuleStateChanged { module, state } => (module.as_str().to_string(), state),
            _ => panic!("unexpected event"),
        })
        .collect();
    assert_eq!(
        events,
        vec![
            ("alpha".to_string(), ModuleState::Initialized),
            ("alpha".to_string(), ModuleState::Running),
            ("beta".to_string(), ModuleState::Initialized),
            ("alpha".to_string(), ModuleState::Stopping),
            ("alpha".to_string(), ModuleState::Stopped),
            ("beta".to_string(), ModuleState::Failed),
        ]
    );
}

const RUNTIME_DIR: &str = "/tmp/nexxus-lifecycle-test";

fn recorded(desc: &ModuleDescriptor, failure: FailurePoint) -> (DummyModule, Arc<Mutex<Vec<ModuleCall>>>) {
    let record = Arc::new(Mutex::new(Vec::new()));
    let module = DummyModule {
        descriptor: desc.clone(),
        calls: Arc::new(Mutex::new(Vec::new())),
        record: Arc::clone(&record),
        failure,
    };
    (module, record)
}

fn call(phase: ModulePhase, succeeded: bool) -> ModuleCall {
    ModuleCall { phase, runtime_dir: RUNTIME_DIR.to_string(), succeeded }
}

#[test]
fn missing_implementation_leaves_installed_modules_uncalled_and_registered() {
    let first = descriptor("first");
    let second = descriptor("second");
    let mut manager = manager_with(&[first.clone(), second.clone()]);
    let (module, record) = recorded(&first, FailurePoint::Nothing);
    manager.install(module).unwrap();

    match manager.start_all(&CapabilitySelections::default()) {
        Err(LifecycleError::MissingImplementation(missing)) => assert_eq!(missing, second.id),
        _ => panic!("expected a missing implementation"),
    }
    assert!(record.lock().unwrap().is_empty());
    assert_eq!(manager.state(&first.id), Some(ModuleState::Registered));
    assert!(manager.drain_events().is_empty());
}

#[test]
fn start_all_hands_every_module_the_core_context() {
    let alpha = descriptor("alpha");
    let beta = descriptor("beta");
    let mut manager = manager_with(&[alpha.clone(), beta.clone()]);
    let (first, alpha_record) = recorded(&alpha, FailurePoint::Nothing);
    let (second, beta_record) = recorded(&beta, FailurePoint::Nothing);
    manager.install(first).unwrap();
    manager.install(second).unwrap();

    let order = manager.start_all(&CapabilitySelections::default()).unwrap();
    assert_eq!(order, vec![alpha.id.clone(), beta.id.clone()]);
    let started = vec![call(ModulePhase::Initialize, true), call(ModulePhase::Start, true)];
    assert_eq!(*alpha_record.lock().unwrap(), started);
    assert_eq!(*beta_record.lock().unwrap(), started);

    assert!(manager.stop_all(&order).is_empty());
    let stopped = vec![call(ModulePhase::Initialize, true), call(ModulePhase::Start, true), call(ModulePhase::Stop, true)];
    assert_eq!(*alpha_record.lock().unwrap(), stopped);
    assert_eq!(*beta_record.lock().unwrap(), stopped);
}

#[test]
fn failed_start_stops_earlier_modules_once_and_the_failed_one() {
    let alpha = descriptor("alpha");
    let beta = descriptor("beta");
    let mut manager = manager_with(&[alpha.clone(), beta.clone()]);
    let (first, alpha_record) = recorded(&alpha, FailurePoint::Nothing);
    let (second, beta_record) = recorded(&beta, FailurePoint::Start);
    manager.install(first).unwrap();
    manager.install(second).unwrap();

    match manager.start_all(&CapabilitySelections::default()) {
        Err(LifecycleError::Module { module, phase, .. }) => {
            assert_eq!(module, beta.id);
            assert_eq!(phase, "start");
        }
        _ => panic!("expected a start failure"),
    }
    assert_eq!(
        *alpha_record.lock().unwrap(),
        vec![call(ModulePhase::Initialize, true), call(ModulePhase::Start, true), call(ModulePhase::Stop, true)]
    );
    assert_eq!(
        *beta_record.lock().unwrap(),
        vec![call(ModulePhase::Initialize, true), call(ModulePhase::Start, false), call(ModulePhase::Stop, true)]
    );
    assert_eq!(manager.state(&alpha.id), Some(ModuleState::Stopped));
    assert_eq!(manager.state(&beta.id), Some(ModuleState::Failed));
}

#[test]
fn failed_initialize_leaves_later_modules_uncalled() {
    let alpha = descriptor("alpha");
    let beta = descriptor("beta");
    let mut manager = manager_with(&[alpha.clone(), beta.clone()]);
    let (first, alpha_record) = recorded(&alpha, FailurePoint::Initialize);
    let (second, beta_record) = recorded(&beta, FailurePoint::Nothing);
    manager.install(first).unwrap();
    manager.install(second).unwrap();

    match manager.start_all(&CapabilitySelections::default()) {
        Err(LifecycleError::Module { module, phase, .. }) => {
            assert_eq!(module, alpha.id);
            assert_eq!(phase, "initialize");
        }
        _ => panic!("expected an initialize failure"),
    }
    assert_eq!(
        *alpha_record.lock().unwrap(),
        vec![call(ModulePhase::Initialize, false), call(ModulePhase::Stop, true)]
    );
    assert!(beta_record.lock().unwrap().is_empty());
    assert_eq!(manager.state(&alpha.id), Some(ModuleState::Failed));
    assert_eq!(manager.state(&beta.id), Some(ModuleState::Registered));
}

#[test]
fn stop_all_stops_only_running_modules_and_goes_on_after_a_failed_stop() {
    let alpha = descriptor("alpha");
    let beta = descriptor("beta");
    let gamma = descriptor("gamma");
    let mut only_two = manager_with(&[alpha.clone(), beta.clone()]);
    let (first, alpha_record) = recorded(&alpha, FailurePoint::Stop);
    let (second, beta_record) = recorded(&beta, FailurePoint::Nothing);
    only_two.install(first).unwrap();
    only_two.install(second).unwrap();
    let order = only_two.start_all(&CapabilitySelections::default()).unwrap();

    let mut listed = order.clone();
    listed.push(gamma.id.clone());
    let errors = only_two.stop_all(&listed);
    assert_eq!(errors.len(), 2);
    assert!(matches!(&errors[0], LifecycleError::MissingImplementation(m) if *m == gamma.id));
    assert!(matches!(&errors[1], LifecycleError::Module { module, phase: "stop", .. } if *module == alpha.id));
    assert_eq!(only_two.state(&alpha.id), Some(ModuleState::Failed));
    assert_eq!(only_two.state(&beta.id), Some(ModuleState::Stopped));
    assert_eq!(
        *alpha_record.lock().unwrap(),
        vec![call(ModulePhase::Initialize, true), call(ModulePhase::Start, true), call(ModulePhase::Stop, false)]
    );
    assert_eq!(
        *beta_record.lock().unwrap(),
        vec![call(ModulePhase::Initialize, true), call(ModulePhase::Start, true), call(ModulePhase::Stop, true)]
    );

    assert!(only_two.stop_all(&order).is_empty());
    assert_eq!(alpha_record.lock().unwrap().len(), 3);
    assert_eq!(beta_record.lock().unwrap().len(), 3);
}
