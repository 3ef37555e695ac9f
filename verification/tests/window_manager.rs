use nexxus::backend_api::BackendError;
use nexxus::wm::{
    module_id, BackendCommandSink, Geometry, PresentationState, SizeConstraints, WindowId, WindowMetadata,
    WindowPlacement, WmCommand, WmEvent,
};
use nexxus::wm_manager::{EventOutcome, WindowManager, WmError};

fn id(value: u64) -> WindowId {
    WindowId::new(value).unwrap()
}

fn geometry(x: i32) -> Geometry {
    Geometry::new(x, 20, 800, 600).unwrap()
}

fn created(value: u64) -> WmEvent {
    WmEvent::WindowCreated {
        id: id(value),
        geometry: geometry(value as i32),
        constraints: SizeConstraints::default(),
        metadata: WindowMetadata::default(),
    }
}

struct RecordingSink {
    commands: Vec<WmCommand>,
}

impl BackendCommandSink for RecordingSink {
    fn submitted(&self) -> Vec<(WmCommand, Result<(), BackendError>)> {
        self.commands.iter().map(|command| (*command, Ok(()))).collect()
    }

    fn submit(&mut self, command: &WmCommand) -> Result<(), BackendError> {
        self.commands.push(command.clone());
        Ok(())
    }
}

#[test]
fn module_identifier_is_stable_and_backend_neutral() {
    assert_eq!(module_id().as_str(), "nexxus-wm");
}

#[test]
fn duplicate_ids_are_rejected() {
    let mut wm = WindowManager::new();
    wm.apply_event(created(1)).unwrap();
    assert!(matches!(wm.apply_event(created(1)), Err(WmError::DuplicateWindow(_))));
}

#[test]
fn focus_and_mru_are_deterministic() {
    let mut wm = WindowManager::new();
    wm.apply_event(created(1)).unwrap();
    wm.apply_event(created(2)).unwrap();
    wm.set_focus(id(1)).unwrap();
    wm.set_focus(id(2)).unwrap();
    assert_eq!(wm.focused(), Some(id(2)));
    assert_eq!(wm.mru().to_vec(), vec![id(2), id(1)]);
    assert_eq!(wm.focus_previous(), Some(id(1)));
}

#[test]
fn destroying_focused_window_recovers_previous_focus() {
    let mut wm = WindowManager::new();
    wm.apply_event(created(1)).unwrap();
    wm.apply_event(created(2)).unwrap();
    wm.set_focus(id(1)).unwrap();
    wm.set_focus(id(2)).unwrap();
    wm.apply_event(WmEvent::WindowDestroyed { id: id(2) }).unwrap();
    assert_eq!(wm.focused(), Some(id(1)));
    assert!(wm.window(id(1)).unwrap().active);
}

#[test]
fn resize_obeys_constraints_without_mutating_until_backend_event() {
    let mut wm = WindowManager::new();
    wm.apply_event(WmEvent::WindowCreated {
        id: id(1),
        geometry: geometry(10),
        constraints: SizeConstraints {
            min_width: 320,
            min_height: 200,
            max_width: Some(1920),
            max_height: Some(1080),
        },
        metadata: WindowMetadata::default(),
    })
    .unwrap();
    assert_eq!(
        wm.request_resize(id(1), 100, 5000).unwrap(),
        WmCommand::RequestResize { window: id(1), width: 320, height: 1080 }
    );
    assert_eq!(wm.window(id(1)).unwrap().geometry, geometry(10));
}

#[test]
fn maximize_and_restore_preserve_floating_geometry() {
    let mut wm = WindowManager::new();
    wm.apply_event(created(1)).unwrap();
    let original = wm.window(id(1)).unwrap().geometry;
    wm.maximize(id(1)).unwrap();
    wm.apply_event(WmEvent::WindowGeometryChanged {
        id: id(1),
        geometry: Geometry::new(0, 0, 1920, 1080).unwrap(),
    })
    .unwrap();
    wm.restore(id(1)).unwrap();
    assert_eq!(wm.window(id(1)).unwrap().geometry, original);
    assert_eq!(wm.window(id(1)).unwrap().presentation, PresentationState::Normal);
}

#[test]
fn nested_fullscreen_restore_returns_through_previous_state() {
    let mut wm = WindowManager::new();
    wm.apply_event(created(1)).unwrap();
    wm.maximize(id(1)).unwrap();
    wm.set_fullscreen(id(1), true).unwrap();
    wm.restore(id(1)).unwrap();
    assert_eq!(wm.window(id(1)).unwrap().presentation, PresentationState::Maximized);
    wm.restore(id(1)).unwrap();
    assert_eq!(wm.window(id(1)).unwrap().presentation, PresentationState::Normal);
}

#[test]
fn floating_state_survives_tiled_round_trip() {
    let mut wm = WindowManager::new();
    wm.apply_event(created(1)).unwrap();
    let floating = wm.window(id(1)).unwrap().geometry;
    wm.set_placement(id(1), WindowPlacement::Tiled).unwrap();
    wm.apply_event(WmEvent::WindowGeometryChanged {
        id: id(1),
        geometry: Geometry::new(0, 0, 960, 1080).unwrap(),
    })
    .unwrap();
    wm.set_placement(id(1), WindowPlacement::Floating).unwrap();
    assert_eq!(wm.window(id(1)).unwrap().geometry, floating);
}

#[test]
fn stale_events_are_ignored_after_destruction() {
    let mut wm = WindowManager::new();
    wm.apply_event(created(1)).unwrap();
    wm.apply_event(WmEvent::WindowDestroyed { id: id(1) }).unwrap();
    assert_eq!(
        wm.apply_event(WmEvent::WindowGeometryChanged { id: id(1), geometry: geometry(40) }).unwrap(),
        EventOutcome::IgnoredStale
    );
    assert_eq!(
        wm.apply_event(WmEvent::WindowDestroyed { id: id(1) }).unwrap(),
        EventOutcome::IgnoredStale
    );
}

#[test]
fn invalid_state_sequences_fail_without_corrupting_restore_state() {
    let mut wm = WindowManager::new();
    wm.apply_event(created(1)).unwrap();
    assert!(matches!(wm.restore(id(1)), Err(WmError::NothingToRestore(_))));
    wm.maximize(id(1)).unwrap();
    assert!(matches!(wm.maximize(id(1)), Err(WmError::InvalidState { .. })));
    wm.restore(id(1)).unwrap();
    assert_eq!(wm.window(id(1)).unwrap().presentation, PresentationState::Normal);
}

#[test]
fn backend_contract_uses_only_logical_identifiers_and_commands() {
    let mut wm = WindowManager::new();
    wm.apply_event(WmEvent::WindowCreated {
        id: id(7),
        geometry: Geometry::new(40, 50, 900, 700).unwrap(),
        constraints: SizeConstraints::default(),
        metadata: WindowMetadata {
            title: "Editor".into(),
            application_id: Some("org.example.Editor".into()),
        },
    })
    .unwrap();

    let command = wm.request_focus(id(7)).unwrap();
    let mut sink = RecordingSink { commands: Vec::new() };
    wm.dispatch(&mut sink, &command).unwrap();

    assert_eq!(sink.commands, vec![WmCommand::RequestFocus { window: id(7) }]);
    assert_eq!(sink.submitted(), vec![(WmCommand::RequestFocus { window: id(7) }, Ok(()))]);
}

#[test]
fn destroyed_window_during_pending_operation_does_not_reappear() {
    let mut wm = WindowManager::new();
    wm.apply_event(WmEvent::WindowCreated {
        id: id(9),
        geometry: Geometry::new(0, 0, 640, 480).unwrap(),
        constraints: SizeConstraints::default(),
        metadata: WindowMetadata::default(),
    })
    .unwrap();

    let pending = wm.request_resize(id(9), 800, 600).unwrap();
    wm.apply_event(WmEvent::WindowDestroyed { id: id(9) }).unwrap();
    assert!(wm.window(id(9)).is_none());

    let outcome = wm
        .apply_event(WmEvent::WindowGeometryChanged {
            id: id(9),
            geometry: Geometry::new(0, 0, 800, 600).unwrap(),
        })
        .unwrap();
    assert_eq!(format!("{outcome:?}"), "IgnoredStale");
    assert_eq!(pending, WmCommand::RequestResize { window: id(9), width: 800, height: 600 });
    assert!(wm.window(id(9)).is_none());
}

#[test]
fn zero_window_identifier_is_rejected() {
    assert!(WindowId::new(0).is_err());
    assert_eq!(WindowId::new(5).unwrap().get(), 5);
}

#[test]
fn constrained_geometry_clamps_size_and_keeps_position() {
    let constraints = SizeConstraints {
        min_width: 100,
        min_height: 100,
        max_width: Some(500),
        max_height: None,
    };
    let g = Geometry::new(3, 4, 50, 900).unwrap().constrained(constraints).unwrap();
    assert_eq!(g, Geometry::new(3, 4, 100, 900).unwrap());
}

#[test]
fn backend_answers_become_window_manager_outcomes() {
    assert!(nexxus::wm_manager::backend_outcome(Ok(())).is_ok());
    assert!(matches!(
        nexxus::wm_manager::backend_outcome(Err(nexxus::backend_api::BackendError::Operation("gone".to_string()))),
        Err(nexxus::wm_manager::WmError::Backend(nexxus::backend_api::BackendError::Operation(m))) if m == "gone"
    ));
}
