use nexxus::backend_api::BackendError;
use nexxus::backend_x11::{
    client_list, client_request, constraints_from_hints, module_descriptor, module_id,
    optional_dimension, positive_dimension, preferred_class, requested_state, screen_output,
    to_backend_error, window_id, xid, ClientMessageAtoms, ClientRequest, NormalHints,
    X11BackendError,
};
use nexxus::core_types::{ApiVersion, IsolationMode};
use nexxus::backend_x11::{manage_decision, react, ManagePlan, X11Input, X11Reaction};
use nexxus::backend_x11::{command_steps, unit_reply, windows_reply, NetState, WorkerReply, X11Step};
use nexxus::wm::{Geometry, PresentationState, SizeConstraints, WindowId, WmCommand};

const GRAPHICS_CAPABILITY: &str = "graphics.backend";

#[test]
fn descriptor_matches_session_runtime_contract() {
    let descriptor = module_descriptor();
    assert_eq!(descriptor.id.as_str(), "nexxus-backend-x11");
    assert!(descriptor
        .provides
        .iter()
        .any(|capability| capability.as_str() == GRAPHICS_CAPABILITY));
}

#[test]
fn ewmh_state_actions_follow_remove_add_toggle_semantics() {
    assert!(!requested_state(0, true));
    assert!(requested_state(1, false));
    assert!(!requested_state(2, true));
    assert!(requested_state(2, false));
}

#[test]
fn xid_round_trip_uses_the_backend_neutral_window_id() {
    let id = window_id(42).unwrap();
    assert_eq!(xid(id).unwrap(), 42);
}

#[test]
fn descriptor_details() {
    let descriptor = module_descriptor();
    assert_eq!(descriptor.name, "Nexxus X11 Backend");
    assert_eq!(descriptor.required_core_api, ApiVersion::new(1, 0));
    assert!(descriptor.requires.is_empty());
    assert!(!descriptor.optional);
    assert_eq!(descriptor.isolation, IsolationMode::InProcess);
    assert_eq!(module_id().as_str(), "nexxus-backend-x11");
}

#[test]
fn unknown_state_action_keeps_the_state() {
    assert!(requested_state(7, true));
    assert!(!requested_state(7, false));
}

#[test]
fn window_zero_is_not_a_window() {
    match window_id(0) {
        Err(X11BackendError::Operation(message)) => assert_eq!(message, "window id cannot be zero"),
        other => panic!("unexpected {other:?}"),
    }
    let big = WindowId::new(1 << 40).unwrap();
    assert!(matches!(xid(big), Err(X11BackendError::Operation(_))));
}

#[test]
fn client_list_keeps_order_and_stops_at_foreign_ids() {
    let ids = [WindowId::new(9).unwrap(), WindowId::new(3).unwrap()];
    assert_eq!(client_list(&ids).unwrap(), vec![9, 3]);
    let ids = [WindowId::new(9).unwrap(), WindowId::new(1 << 33).unwrap()];
    assert!(client_list(&ids).is_err());
}

#[test]
fn size_hint_dimensions() {
    assert_eq!(positive_dimension(5), 5);
    assert_eq!(positive_dimension(0), 1);
    assert_eq!(positive_dimension(-3), 1);
    assert_eq!(optional_dimension(8), Some(8));
    assert_eq!(optional_dimension(0), None);
}

#[test]
fn hints_become_constraints() {
    assert_eq!(constraints_from_hints(None).unwrap(), SizeConstraints::default());
    let hints = NormalHints { min_size: Some((200, -1)), max_size: Some((800, 0)) };
    assert_eq!(
        constraints_from_hints(Some(hints)).unwrap(),
        SizeConstraints { min_width: 200, min_height: 1, max_width: Some(800), max_height: None }
    );
    let inverted = NormalHints { min_size: Some((500, 500)), max_size: Some((100, 600)) };
    match constraints_from_hints(Some(inverted)) {
        Err(X11BackendError::Operation(m)) => {
            assert_eq!(m, "maximum window size cannot be smaller than its minimum")
        }
        other => panic!("unexpected {other:?}"),
    }
}

#[test]
fn wm_class_prefers_the_class_name() {
    assert_eq!(preferred_class(b"xterm", b"XTerm"), Some(b"XTerm".to_vec()));
    assert_eq!(preferred_class(b"xterm", b""), Some(b"xterm".to_vec()));
    assert_eq!(preferred_class(b"", b""), None);
}

fn atoms() -> ClientMessageAtoms {
    ClientMessageAtoms {
        net_active_window: 10,
        net_close_window: 11,
        net_wm_state: 12,
        fullscreen: 13,
        maximized_vert: 14,
        maximized_horz: 15,
    }
}

#[test]
fn client_messages_become_requests() {
    let a = atoms();
    assert_eq!(client_request(a, 10, 32, [0; 5], None), ClientRequest::Focus);
    assert_eq!(client_request(a, 11, 32, [0; 5], None), ClientRequest::Close);
    assert_eq!(client_request(a, 12, 8, [1, 13, 0, 0, 0], None), ClientRequest::Nothing);
    assert_eq!(
        client_request(a, 12, 32, [1, 13, 0, 0, 0], Some(PresentationState::Normal)),
        ClientRequest::Fullscreen(true)
    );
    assert_eq!(
        client_request(a, 12, 32, [2, 0, 13, 0, 0], Some(PresentationState::Fullscreen)),
        ClientRequest::Fullscreen(false)
    );
    assert_eq!(
        client_request(a, 12, 32, [1, 13, 0, 0, 0], Some(PresentationState::Fullscreen)),
        ClientRequest::Nothing
    );
    assert_eq!(
        client_request(a, 12, 32, [1, 14, 15, 0, 0], Some(PresentationState::Normal)),
        ClientRequest::Maximize
    );
    assert_eq!(
        client_request(a, 12, 32, [0, 15, 0, 0, 0], Some(PresentationState::Maximized)),
        ClientRequest::Restore
    );
    assert_eq!(
        client_request(a, 12, 32, [1, 99, 98, 0, 0], Some(PresentationState::Normal)),
        ClientRequest::Nothing
    );
}

#[test]
fn screens_are_described_backend_neutrally() {
    let output = screen_output(12, 1920, 1080);
    assert_eq!(output.id.as_str(), "x11-screen-12");
    assert_eq!(output.name, "X11 Screen 12");
    assert_eq!((output.width, output.height), (1920, 1080));
    assert_eq!(output.scale_milli, 1000);
    assert!(output.primary);
    assert_eq!(screen_output(0, 1, 1).id.as_str(), "x11-screen-0");
}

#[test]
fn backend_errors_keep_unavailability() {
    assert_eq!(
        to_backend_error(X11BackendError::Unavailable("no display".to_owned())),
        BackendError::Unavailable("no display".to_owned())
    );
    assert_eq!(
        to_backend_error(X11BackendError::WorkerStopped),
        BackendError::Operation("X11 worker is not running".to_owned())
    );
    assert_eq!(
        to_backend_error(X11BackendError::Operation("boom".to_owned())),
        BackendError::Operation("X11 backend operation failed: boom".to_owned())
    );
}

#[test]
fn maximize_fills_the_screen_and_sets_both_states() {
    let window = WindowId::new(7).unwrap();
    let steps = command_steps(&WmCommand::RequestMaximize { window }, 1920, 1080, None).unwrap();
    assert_eq!(
        steps,
        vec![
            X11Step::Place { xid: 7, x: 0, y: 0, width: 1920, height: 1080 },
            X11Step::SetState { xid: 7, state: NetState::Maximized },
        ]
    );
}

#[test]
fn restore_uses_the_managers_geometry() {
    let window = WindowId::new(9).unwrap();
    let geometry = Geometry::new(10, 20, 300, 200).unwrap();
    let snapshot = Some((geometry, PresentationState::Normal));
    let steps = command_steps(&WmCommand::RequestRestore { window }, 1920, 1080, snapshot).unwrap();
    assert_eq!(
        steps,
        vec![
            X11Step::Place { xid: 9, x: 10, y: 20, width: 300, height: 200 },
            X11Step::PublishPresentation { xid: 9, state: PresentationState::Normal },
        ]
    );
    assert_eq!(
        command_steps(&WmCommand::RequestFullscreen { window, enabled: false }, 1920, 1080, snapshot).unwrap(),
        steps
    );
    assert_eq!(
        command_steps(&WmCommand::RequestRestore { window }, 1920, 1080, None),
        Err(X11BackendError::Operation("restore target disappeared".to_string()))
    );
    assert_eq!(
        command_steps(&WmCommand::RequestFullscreen { window, enabled: false }, 1920, 1080, None),
        Err(X11BackendError::Operation("fullscreen target disappeared".to_string()))
    );
}

#[test]
fn simple_commands_become_single_steps() {
    let window = WindowId::new(3).unwrap();
    assert_eq!(
        command_steps(&WmCommand::RequestFocus { window }, 800, 600, None).unwrap(),
        vec![X11Step::Focus { xid: 3, window }]
    );
    assert_eq!(
        command_steps(&WmCommand::RequestMove { window, x: -5, y: 6 }, 800, 600, None).unwrap(),
        vec![X11Step::Move { xid: 3, x: -5, y: 6 }]
    );
    assert_eq!(
        command_steps(&WmCommand::RequestResize { window, width: 40, height: 50 }, 800, 600, None).unwrap(),
        vec![X11Step::Resize { xid: 3, width: 40, height: 50 }]
    );
    assert_eq!(
        command_steps(&WmCommand::RequestFullscreen { window, enabled: true }, 800, 600, None).unwrap(),
        vec![
            X11Step::Place { xid: 3, x: 0, y: 0, width: 800, height: 600 },
            X11Step::SetState { xid: 3, state: NetState::Fullscreen },
        ]
    );
    assert_eq!(
        command_steps(&WmCommand::RequestClose { window }, 800, 600, None).unwrap(),
        vec![X11Step::Close { xid: 3 }]
    );
    let huge = WindowId::new(1 << 40).unwrap();
    assert_eq!(
        command_steps(&WmCommand::RequestClose { window: huge }, 800, 600, None),
        Err(X11BackendError::Operation("out of range integral type conversion attempted".to_string()))
    );
}

#[test]
fn worker_replies_decode_by_request_kind() {
    assert_eq!(unit_reply(Some(Ok(WorkerReply::Unit))), Ok(()));
    assert_eq!(unit_reply(None), Err(X11BackendError::WorkerStopped));
    assert_eq!(
        unit_reply(Some(Err("bad window".to_string()))),
        Err(X11BackendError::Operation("bad window".to_string()))
    );
    assert_eq!(unit_reply(Some(Ok(WorkerReply::Windows(Vec::new())))), Err(X11BackendError::UnexpectedResponse));
    assert!(windows_reply(Some(Ok(WorkerReply::Windows(Vec::new())))).unwrap().is_empty());
    assert!(matches!(windows_reply(Some(Ok(WorkerReply::Unit))), Err(X11BackendError::UnexpectedResponse)));
    assert!(matches!(windows_reply(None), Err(X11BackendError::WorkerStopped)));
}

#[test]
fn server_events_about_managed_windows_become_reactions() {
    let managed = [WindowId::new(5).unwrap()];
    let five = managed[0];
    assert_eq!(react(X11Input::MapRequest { window: 9 }, &managed), Ok(X11Reaction::Manage { window: 9 }));
    assert_eq!(react(X11Input::DestroyNotify { window: 5 }, &managed), Ok(X11Reaction::Destroyed { id: five }));
    assert_eq!(react(X11Input::DestroyNotify { window: 6 }, &managed), Ok(X11Reaction::Nothing));
    assert_eq!(react(X11Input::UnmapNotify { window: 5 }, &managed), Ok(X11Reaction::Unmapped { id: five }));
    assert_eq!(react(X11Input::FocusIn { window: 5 }, &managed), Ok(X11Reaction::Focused { id: five }));
    assert_eq!(
        react(X11Input::ConfigureNotify { window: 5, x: -3, y: 4, width: 300, height: 200 }, &managed),
        Ok(X11Reaction::Moved { id: five, geometry: Geometry::new(-3, 4, 300, 200).unwrap() })
    );
    assert_eq!(
        react(X11Input::ConfigureNotify { window: 5, x: 0, y: 0, width: 0, height: 200 }, &managed),
        Err(X11BackendError::Operation("window geometry cannot have zero width or height".to_string()))
    );
    assert_eq!(react(X11Input::Other, &managed), Ok(X11Reaction::Nothing));
}

#[test]
fn windows_asking_to_be_managed_are_adopted_once() {
    let managed = [WindowId::new(5).unwrap()];
    assert_eq!(manage_decision(1, 1, false, &managed, true), Ok(ManagePlan::Ignore));
    assert_eq!(manage_decision(7, 1, true, &managed, true), Ok(ManagePlan::PassThrough { map: true }));
    assert_eq!(
        manage_decision(7, 1, false, &managed, false),
        Ok(ManagePlan::Manage { id: WindowId::new(7).unwrap(), adopt: true, map: false })
    );
    assert_eq!(
        manage_decision(5, 1, false, &managed, true),
        Ok(ManagePlan::Manage { id: managed[0], adopt: false, map: true })
    );
    assert_eq!(
        manage_decision(0, 1, false, &managed, true),
        Err(X11BackendError::Operation("window id cannot be zero".to_string()))
    );
}
