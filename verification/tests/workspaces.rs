use nexxus::wm::WindowId;
use nexxus::workspace_types::{
    DynamicPolicy, PlacementRule, WorkspaceConfig, WorkspaceDefinition, WorkspaceEvent, WorkspaceId,
    WorkspaceKind,
};
use nexxus::workspaces::{WorkspaceError, WorkspaceManager};

fn wid(value: u64) -> WindowId {
    WindowId::new(value).expect("test window ids are non-zero")
}

#[test]
fn fixed_dynamic_creation_activation_and_mru_are_deterministic() {
    let mut manager = WorkspaceManager::with_single_fixed("WEB".to_string()).expect("valid manager");
    let mail = manager.create_fixed("MAIL".to_string()).expect("create MAIL");
    let scratch = manager
        .create_dynamic("SCRATCH".to_string())
        .expect("create dynamic workspace");

    manager.activate(mail).expect("activate MAIL");
    manager.activate(scratch).expect("activate SCRATCH");

    let mru: Vec<_> = manager.mru_order().to_vec();
    assert_eq!(mru[0], scratch);
    assert_eq!(mru[1], mail);
    assert_eq!(manager.previous_mru(), Some(mail));
    assert_eq!(manager.workspace(scratch).expect("scratch exists").kind, WorkspaceKind::Dynamic);
}

#[test]
fn placement_rule_is_initial_only_and_never_locks_manual_movement() {
    let mut manager = WorkspaceManager::with_single_fixed("WEB".to_string()).expect("valid manager");
    let mail = manager.create_fixed("MAIL".to_string()).expect("create MAIL");
    manager
        .set_placement_rules(vec![PlacementRule {
            application_id: "org.mozilla.Thunderbird".into(),
            workspace: mail,
        }])
        .expect("valid placement rule");

    let window = wid(10);
    assert_eq!(
        manager
            .assign_new_window(window, Some("org.mozilla.Thunderbird"))
            .expect("initial placement"),
        mail
    );

    let web = WorkspaceId::new(1).expect("known workspace id");
    manager
        .move_window(window, web)
        .expect("manual move must override rule");
    assert_eq!(manager.workspace_of(window), Some(web));
}

#[test]
fn empty_inactive_dynamic_workspace_is_pruned_without_losing_windows() {
    let mut manager = WorkspaceManager::with_single_fixed("MAIN".to_string()).expect("valid manager");
    manager.set_dynamic_policy(DynamicPolicy::RemoveEmptyInactive);
    let transient = manager
        .create_dynamic("TEMP".to_string())
        .expect("create dynamic workspace");
    let window = wid(20);

    manager.activate(transient).expect("activate TEMP");
    manager
        .assign_new_window(window, None)
        .expect("assign to active TEMP");
    let main = WorkspaceId::new(1).expect("known workspace id");
    manager.activate(main).expect("activate MAIN");
    manager
        .move_window(window, main)
        .expect("move out of TEMP");

    assert!(manager.workspace(transient).is_none());
    assert_eq!(manager.workspace_of(window), Some(main));
    assert_eq!(manager.active_id(), main);
}

#[test]
fn removing_active_workspace_rehomes_resident_windows_before_removal() {
    let mut manager = WorkspaceManager::with_single_fixed("ONE".to_string()).expect("valid manager");
    let two = manager.create_fixed("TWO".to_string()).expect("create TWO");
    let window = wid(30);
    manager.activate(two).expect("activate TWO");
    manager
        .assign_new_window(window, None)
        .expect("assign window to TWO");

    manager.remove(two).expect("remove active TWO safely");

    let one = WorkspaceId::new(1).expect("known workspace id");
    assert_eq!(manager.active_id(), one);
    assert_eq!(manager.workspace_of(window), Some(one));
    assert!(manager.active_windows().iter().any(|candidate| *candidate == window));
}

#[test]
fn configuration_snapshot_drops_runtime_window_membership() {
    let mut manager = WorkspaceManager::with_single_fixed("DEV".to_string()).expect("valid manager");
    let chat = manager.create_fixed("CHAT".to_string()).expect("create CHAT");
    manager.activate(chat).expect("activate CHAT");
    manager.assign_new_window(wid(40), None).expect("track runtime window");

    let loaded = WorkspaceManager::from_config(manager.config_snapshot()).expect("reload snapshot");
    assert_eq!(loaded.active_id(), chat);
    assert_eq!(loaded.workspaces().len(), 2);
    assert_eq!(loaded.active_windows().len(), 0);
}

#[test]
fn names_are_trimmed_checked_for_length_and_kept_unique() {
    let mut manager = WorkspaceManager::with_single_fixed("A".to_string()).unwrap();
    let b = manager.create_fixed("  B  ".to_string()).unwrap();
    assert_eq!(manager.workspace(b).unwrap().name, "B");
    assert!(matches!(manager.create_fixed("   ".to_string()), Err(WorkspaceError::InvalidName)));
    assert!(matches!(
        manager.create_fixed("x".repeat(129)),
        Err(WorkspaceError::NameTooLong(128))
    ));
    assert!(matches!(
        manager.create_dynamic(" A".to_string()),
        Err(WorkspaceError::DuplicateName(name)) if name == "A"
    ));
    assert!(matches!(
        WorkspaceManager::with_single_fixed(" padded".to_string()),
        Err(WorkspaceError::InvalidName)
    ));
}

#[test]
fn configuration_errors_are_reported_in_order() {
    let one = WorkspaceId::new(1).unwrap();
    let two = WorkspaceId::new(2).unwrap();
    let def = |id: WorkspaceId, name: &str| WorkspaceDefinition {
        id,
        name: name.to_string(),
        kind: WorkspaceKind::Fixed,
    };
    let empty = WorkspaceConfig {
        active: one,
        dynamic_policy: DynamicPolicy::KeepEmpty,
        workspaces: vec![],
        placement_rules: vec![],
    };
    assert!(matches!(WorkspaceManager::from_config(empty), Err(WorkspaceError::NoWorkspaces)));
    let duplicate = WorkspaceConfig {
        active: one,
        dynamic_policy: DynamicPolicy::KeepEmpty,
        workspaces: vec![def(one, "A"), def(one, "B")],
        placement_rules: vec![],
    };
    assert!(matches!(
        WorkspaceManager::from_config(duplicate),
        Err(WorkspaceError::DuplicateId(id)) if id == one
    ));
    let missing_active = WorkspaceConfig {
        active: two,
        dynamic_policy: DynamicPolicy::KeepEmpty,
        workspaces: vec![def(one, "A")],
        placement_rules: vec![],
    };
    assert!(matches!(
        WorkspaceManager::from_config(missing_active),
        Err(WorkspaceError::ActiveWorkspaceMissing(id)) if id == two
    ));
    let bad_rule = WorkspaceConfig {
        active: one,
        dynamic_policy: DynamicPolicy::KeepEmpty,
        workspaces: vec![def(one, "A")],
        placement_rules: vec![PlacementRule { application_id: "app".into(), workspace: two }],
    };
    assert!(matches!(
        WorkspaceManager::from_config(bad_rule),
        Err(WorkspaceError::RuleTargetMissing(id)) if id == two
    ));
}

#[test]
fn rename_announces_old_and_new_names() {
    let mut manager = WorkspaceManager::with_single_fixed("OLD".to_string()).unwrap();
    let id = manager.active_id();
    manager.drain_events();
    manager.rename(id, " NEW ".to_string()).unwrap();
    let events = manager.drain_events();
    assert_eq!(
        events,
        vec![WorkspaceEvent::Renamed { workspace: id, old_name: "OLD".into(), new_name: "NEW".into() }]
    );
    manager.rename(id, "NEW".to_string()).unwrap();
    assert!(manager.drain_events().is_empty());
}

#[test]
fn forgetting_and_double_assignment_are_reported() {
    let mut manager = WorkspaceManager::with_single_fixed("A".to_string()).unwrap();
    let window = wid(3);
    manager.assign_new_window(window, None).unwrap();
    assert!(matches!(
        manager.assign_new_window(window, None),
        Err(WorkspaceError::WindowAlreadyTracked(w)) if w == window
    ));
    manager.forget_window(window).unwrap();
    assert_eq!(manager.workspace_of(window), None);
    assert!(matches!(manager.forget_window(window), Err(WorkspaceError::WindowNotTracked(_))));
    assert!(matches!(manager.remove(manager.active_id()), Err(WorkspaceError::LastWorkspace)));
}

#[test]
fn snapshot_of_an_edited_manager_loads_back_unchanged() {
    let mut manager = WorkspaceManager::with_single_fixed("WEB".to_string()).unwrap();
    let mail = manager.create_fixed("  MAIL  ".to_string()).unwrap();
    let temp = manager.create_dynamic("TEMP".to_string()).unwrap();
    manager.rename(mail, " Correio ".to_string()).unwrap();
    manager
        .set_placement_rules(vec![nexxus::workspace_types::PlacementRule {
            application_id: "org.example.Mail".to_string(),
            workspace: temp,
        }])
        .unwrap();
    manager.activate(temp).unwrap();
    manager.remove(temp).unwrap();
    manager.assign_new_window(WindowId::new(3).unwrap(), None).unwrap();
    let snapshot = manager.config_snapshot();
    let loaded = WorkspaceManager::from_config(snapshot.clone()).unwrap();
    assert_eq!(loaded.config_snapshot(), snapshot);
    assert!(loaded.active_windows().is_empty());
}
