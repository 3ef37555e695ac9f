use nexxus::ui_core::{PhysicalRect, PhysicalSize};
use nexxus::workspace_bar_x11::{
    bgrx_pixels, choose_monitor, frame_extent, window_extent, RandrMonitor, WorkspaceBarX11Error,
};
use nexxus::workspaces::WorkspaceError;
use nexxus::assets::{icon, RecolorError};
use nexxus::ui_core::{Color, Palette};
use nexxus::workspace_bar_paint::{
    symbolic_bytes, AssetSource, WorkspaceBarRenderError, WorkspaceBarVisualState,
};
use nexxus::wm::WindowId;
use nexxus::workspace_bar::{
    InteractionState, WorkspaceBarAction, WorkspaceBarModel, WorkspaceBarTarget,
};
use nexxus::workspace_types::{WorkspaceEvent, WorkspaceId, WorkspaceKind};
use nexxus::workspaces::WorkspaceManager;

#[test]
fn snapshot_preserves_manager_order_and_active_workspace() {
    let mut manager = WorkspaceManager::with_single_fixed("WEB".to_string()).unwrap();
    let mail = manager.create_fixed("MAIL".to_string()).unwrap();
    manager.create_dynamic("TEMP".to_string()).unwrap();
    manager.activate(mail).unwrap();
    let model = WorkspaceBarModel::from_manager(&manager);
    let names: Vec<_> = model.entries().iter().map(|entry| entry.name.as_str()).collect();
    assert_eq!(names, ["WEB", "MAIL", "TEMP"]);
    assert_eq!(model.active_id(), Some(mail));
}

#[test]
fn incremental_events_update_visible_state_only() {
    let mut manager = WorkspaceManager::with_single_fixed("WEB".to_string()).unwrap();
    let mut model = WorkspaceBarModel::from_manager(&manager);
    let mail = manager.create_fixed("MAIL".to_string()).unwrap();
    assert!(model.apply_event(&WorkspaceEvent::Created {
        workspace: mail,
        name: "MAIL".into(),
        kind: WorkspaceKind::Fixed,
    }));
    assert!(model.apply_event(&WorkspaceEvent::Renamed {
        workspace: mail,
        old_name: "MAIL".into(),
        new_name: "CORREIO".into(),
    }));
    let previous = manager.active_id();
    assert!(model.apply_event(&WorkspaceEvent::Activated { previous, current: mail }));
    assert_eq!(model.active_id(), Some(mail));
    assert_eq!(model.entries()[1].name, "CORREIO");
}

fn ws(n: u32) -> WorkspaceId {
    WorkspaceId::new(n).unwrap()
}

#[test]
fn repeated_or_unknown_events_change_nothing() {
    let manager = WorkspaceManager::with_single_fixed("WEB".to_string()).unwrap();
    let web = manager.active_id();
    let mut model = WorkspaceBarModel::from_manager(&manager);
    assert!(!model.apply_event(&WorkspaceEvent::Created {
        workspace: web,
        name: "OTHER".into(),
        kind: WorkspaceKind::Fixed,
    }));
    assert!(!model.apply_event(&WorkspaceEvent::Renamed {
        workspace: web,
        old_name: "WEB".into(),
        new_name: "WEB".into(),
    }));
    assert!(!model.apply_event(&WorkspaceEvent::Renamed {
        workspace: ws(77),
        old_name: "A".into(),
        new_name: "B".into(),
    }));
    assert!(!model.apply_event(&WorkspaceEvent::Removed { workspace: ws(77) }));
    assert!(!model.apply_event(&WorkspaceEvent::Activated { previous: web, current: web }));
    let window = WindowId::new(5).unwrap();
    assert!(!model.apply_event(&WorkspaceEvent::WindowMoved { window, from: None, to: web }));
    assert!(!model.apply_event(&WorkspaceEvent::WindowForgotten { window, from: web }));
    assert_eq!(model.entries().len(), 1);
    assert_eq!(model.active_id(), Some(web));
}

#[test]
fn removal_keeps_the_order_of_the_rest() {
    let mut manager = WorkspaceManager::with_single_fixed("A".to_string()).unwrap();
    let b = manager.create_fixed("B".to_string()).unwrap();
    manager.create_fixed("C".to_string()).unwrap();
    let mut model = WorkspaceBarModel::from_manager(&manager);
    assert!(model.apply_event(&WorkspaceEvent::Removed { workspace: b }));
    let names: Vec<_> = model.entries().iter().map(|e| e.name.as_str()).collect();
    assert_eq!(names, ["A", "C"]);
}

#[test]
fn activation_marks_exactly_one_entry() {
    let mut manager = WorkspaceManager::with_single_fixed("A".to_string()).unwrap();
    let a = manager.active_id();
    let b = manager.create_fixed("B".to_string()).unwrap();
    let mut model = WorkspaceBarModel::from_manager(&manager);
    assert!(model.apply_event(&WorkspaceEvent::Activated { previous: a, current: b }));
    let flags: Vec<_> = model.entries().iter().map(|e| e.active).collect();
    assert_eq!(flags, [false, true]);
}

#[test]
fn release_over_the_pressed_target_emits_its_action() {
    let id = ws(1);
    let mut state = InteractionState::default();
    state.pointer_press(Some(WorkspaceBarTarget::Workspace(id)));
    assert_eq!(
        state.pointer_release(Some(WorkspaceBarTarget::Workspace(id))),
        Some(WorkspaceBarAction::Activate(id))
    );
    assert!(state.pressed.is_none());
    state.pointer_press(Some(WorkspaceBarTarget::Settings));
    assert_eq!(state.hovered, None);
    assert_eq!(
        state.pointer_release(Some(WorkspaceBarTarget::Settings)),
        Some(WorkspaceBarAction::OpenWorkspaceSettings)
    );
}

#[test]
fn dragging_off_a_target_emits_nothing() {
    let mut state = InteractionState::default();
    state.pointer_press(Some(WorkspaceBarTarget::Workspace(ws(1))));
    assert_eq!(state.pointer_release(Some(WorkspaceBarTarget::Settings)), None);
    state.pointer_press(Some(WorkspaceBarTarget::Settings));
    assert_eq!(state.pointer_release(None), None);
    assert_eq!(state.pointer_release(Some(WorkspaceBarTarget::Settings)), None);
}

#[test]
fn hover_changes_are_reported() {
    let mut state = InteractionState::default();
    assert!(state.pointer_move(Some(WorkspaceBarTarget::Settings)));
    assert!(!state.pointer_move(Some(WorkspaceBarTarget::Settings)));
    assert!(state.pointer_move(None));
}

#[test]
fn active_workspace_button_is_accented_whatever_the_pointer() {
    let palette = Palette::default();
    let id = WorkspaceId::new(1).unwrap();
    let target = WorkspaceBarTarget::Workspace(id);
    let visual = WorkspaceBarVisualState {
        interaction: InteractionState { hovered: Some(target), pressed: Some(target) },
    };
    let style = visual.workspace_button(palette, id, true);
    assert_eq!(style.fill, palette.accent);
    assert_eq!(style.stroke, palette.accent);
    assert_eq!(style.text, palette.accent_text);
}

#[test]
fn inactive_button_shows_pressed_over_hovered() {
    let palette = Palette::default();
    let id = WorkspaceId::new(2).unwrap();
    let other = WorkspaceId::new(3).unwrap();
    let target = WorkspaceBarTarget::Workspace(id);
    let pressed = WorkspaceBarVisualState {
        interaction: InteractionState { hovered: Some(target), pressed: Some(target) },
    };
    assert_eq!(pressed.workspace_button(palette, id, false).fill, palette.selection);
    let hovered = WorkspaceBarVisualState {
        interaction: InteractionState { hovered: Some(target), pressed: None },
    };
    assert_eq!(hovered.workspace_button(palette, id, false).fill, palette.surface_alt);
    assert_eq!(hovered.workspace_button(palette, other, false).fill, palette.surface);
    let idle = WorkspaceBarVisualState::default();
    let style = idle.workspace_button(palette, id, false);
    assert_eq!(style.fill, palette.surface);
    assert_eq!(style.stroke, palette.border);
    assert_eq!(style.text, palette.text);
}

#[test]
fn settings_button_follows_pointer() {
    let palette = Palette::default();
    let settings = WorkspaceBarTarget::Settings;
    let hovered = WorkspaceBarVisualState {
        interaction: InteractionState { hovered: Some(settings), pressed: None },
    };
    assert_eq!(hovered.settings_button(palette).fill, palette.surface_alt);
    let pressed = WorkspaceBarVisualState {
        interaction: InteractionState { hovered: None, pressed: Some(settings) },
    };
    assert_eq!(pressed.settings_button(palette).fill, palette.selection);
    let idle = WorkspaceBarVisualState::default();
    assert_eq!(idle.settings_button(palette).fill, palette.surface);
    assert_eq!(idle.settings_button(palette).stroke, palette.border);
}

#[test]
fn asset_source_defaults_to_system_root() {
    assert_eq!(AssetSource::default().root(), "/usr/share/nexxus/assets");
    assert_eq!(AssetSource::new("/tmp/assets".to_string()).root(), "/tmp/assets");
}

#[test]
fn symbolic_icon_file_is_under_icons_directory() {
    let source = AssetSource::new("/tmp/assets/".to_string());
    let (spec, path) = source.symbolic_file("preferences-system").unwrap();
    assert_eq!(spec.name, "preferences-system");
    assert_eq!(path, format!("/tmp/assets/icons/{}", spec.relative_path));
    let (_, settings) = source.symbolic_file("preferences-workspaces").unwrap();
    assert_eq!(settings, "/tmp/assets/icons/categories/preferences-workspaces.svg");
    assert_eq!(
        source.symbolic_file("no-such-icon"),
        Err(WorkspaceBarRenderError::MissingIcon("no-such-icon".to_string()))
    );
}

#[test]
fn symbolic_bytes_tint_only_tintable_icons() {
    let mut spec = icon("preferences-system").unwrap();
    let svg = b"<svg fill=\"#FFFFFF\"/>".to_vec();
    let tinted = symbolic_bytes(spec, svg.clone(), Color::rgb(0x12, 0xab, 0x0f)).unwrap();
    assert_eq!(tinted, b"<svg fill=\"#12AB0F\"/>".to_vec());
    assert_eq!(
        symbolic_bytes(spec, b"<svg/>".to_vec(), Color::rgb(1, 2, 3)),
        Err(WorkspaceBarRenderError::Recolor(
            RecolorError::PaletteTokenMissing.message().to_string()
        ))
    );
    spec.tintable = false;
    assert_eq!(symbolic_bytes(spec, svg.clone(), Color::rgb(1, 2, 3)).unwrap(), svg);
}

#[test]
fn event_batches_report_any_visible_change() {
    let mut manager = WorkspaceManager::with_single_fixed("WEB".to_string()).unwrap();
    let web = manager.active_id();
    let mut model = WorkspaceBarModel::from_manager(&manager);
    let mail = manager.create_fixed("MAIL".to_string()).unwrap();
    let events = vec![
        WorkspaceEvent::Created { workspace: mail, name: "MAIL".into(), kind: WorkspaceKind::Fixed },
        WorkspaceEvent::Activated { previous: web, current: mail },
    ];
    assert!(model.apply_events(&events));
    assert_eq!(model.active_id(), Some(mail));
    assert_eq!(model.entries().len(), 2);
    let quiet = vec![WorkspaceEvent::WindowForgotten { window: WindowId::new(9).unwrap(), from: web }];
    assert!(!model.apply_events(&quiet));
    assert!(!model.apply_events(&[]));
}

#[test]
fn dispatching_activation_updates_manager_and_bar() {
    let mut manager = WorkspaceManager::with_single_fixed("WEB".to_string()).unwrap();
    let web = manager.active_id();
    let mail = manager.create_fixed("MAIL".to_string()).unwrap();
    let mut model = WorkspaceBarModel::from_manager(&manager);
    assert_eq!(
        model.dispatch_action(&mut manager, WorkspaceBarAction::Activate(mail)).unwrap(),
        (None, true)
    );
    assert_eq!(manager.active_id(), mail);
    assert_eq!(model.active_id(), Some(mail));
    assert_eq!(
        model.dispatch_action(&mut manager, WorkspaceBarAction::Activate(mail)).unwrap(),
        (None, false)
    );
    let missing = WorkspaceId::new(77).unwrap();
    assert!(matches!(
        model.dispatch_action(&mut manager, WorkspaceBarAction::Activate(missing)),
        Err(WorkspaceError::WorkspaceNotFound(id)) if id == missing
    ));
    assert_eq!(model.active_id(), Some(mail));
    assert_eq!(
        model.dispatch_action(&mut manager, WorkspaceBarAction::OpenWorkspaceSettings).unwrap(),
        (Some(WorkspaceBarAction::OpenWorkspaceSettings), false)
    );
    assert_ne!(manager.active_id(), web);
}

#[test]
fn bar_sits_on_primary_monitor_else_first() {
    let left = RandrMonitor { x: 0, y: 0, width: 1920, height: 1080, primary: false };
    let right = RandrMonitor { x: 1920, y: 0, width: 2560, height: 1440, primary: true };
    assert_eq!(choose_monitor(&[left, right]), Some(right));
    assert_eq!(choose_monitor(&[left]), Some(left));
    assert_eq!(choose_monitor(&[]), None);
}

#[test]
fn window_extent_checks_protocol_limits() {
    let ok = window_extent(PhysicalRect::new(-10, 20, 0, 36)).unwrap();
    assert_eq!(ok, (-10, 20, 1, 36));
    assert!(matches!(
        window_extent(PhysicalRect::new(0, 0, 70_000, 36)),
        Err(WorkspaceBarX11Error::DimensionOverflow)
    ));
    assert!(matches!(
        window_extent(PhysicalRect::new(40_000, 0, 10, 36)),
        Err(WorkspaceBarX11Error::DimensionOverflow)
    ));
    assert_eq!(frame_extent(PhysicalSize { width: 800, height: 36 }).unwrap(), (800, 36));
    assert!(matches!(
        frame_extent(PhysicalSize { width: 800, height: 65_536 }),
        Err(WorkspaceBarX11Error::DimensionOverflow)
    ));
}

#[test]
fn rgba_pixels_become_bgrx() {
    assert_eq!(bgrx_pixels(&[1, 2, 3, 4, 5, 6, 7, 8, 9]), vec![3, 2, 1, 0, 7, 6, 5, 0]);
    assert!(bgrx_pixels(&[]).is_empty());
}
