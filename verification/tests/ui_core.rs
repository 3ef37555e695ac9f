use nexxus::ui_core::{
    next_focus_index, validate_surfaces, Color, Frame, ImageData, Key, Palette, PhysicalRect,
    PhysicalSize, RenderError, ThemeError,
};
use nexxus::ui_keys::{press_key, type_text, FocusedWidget, KeyAnswer};

#[test]
fn default_palette_has_opaque_surfaces() {
    let palette = Palette::default();
    assert!(validate_surfaces(palette).is_ok());
    assert_eq!(palette.accent, Color::rgb(39, 190, 98));
}

#[test]
fn translucent_surfaces_are_named() {
    let mut palette = Palette::default();
    palette.surface = Color::rgba(20, 24, 25, 200);
    assert_eq!(validate_surfaces(palette), Err(ThemeError::TranslucentSurface("surface")));
    palette.background = Color::rgba(0, 0, 0, 0);
    assert_eq!(validate_surfaces(palette), Err(ThemeError::TranslucentSurface("background")));
    let mut palette = Palette::default();
    palette.surface_alt.a = 254;
    assert_eq!(validate_surfaces(palette), Err(ThemeError::TranslucentSurface("surface_alt")));
    assert!(Color::rgb(1, 2, 3).is_opaque());
    assert!(!Color::rgba(1, 2, 3, 4).is_opaque());
}

#[test]
fn rectangles_intersect() {
    let a = PhysicalRect::new(0, 0, 100, 50);
    let b = PhysicalRect::new(60, 20, 100, 100);
    assert_eq!(a.intersection(b), Some(PhysicalRect::new(60, 20, 40, 30)));
    assert_eq!(b.intersection(a), a.intersection(b));
    assert_eq!(a.intersection(PhysicalRect::new(100, 0, 10, 10)), None);
    assert_eq!(
        PhysicalRect::new(-10, -10, 5, 5).intersection(PhysicalRect::new(-8, -20, 100, 12)),
        Some(PhysicalRect::new(-8, -10, 3, 2))
    );
}

#[test]
fn images_need_four_bytes_per_pixel() {
    assert!(ImageData::new(2, 2, vec![0; 16]).is_ok());
    assert_eq!(
        ImageData::new(2, 2, vec![0; 15]),
        Err(RenderError::InvalidImageData { expected: 16, actual: 15 })
    );
    assert_eq!(ImageData::new(u32::MAX, u32::MAX, Vec::new()), Err(RenderError::SizeOverflow));
}

#[test]
fn blank_frames_are_cleared() {
    let frame = Frame::blank(PhysicalSize { width: 3, height: 2 }).unwrap();
    assert_eq!(frame.stride, 12);
    assert_eq!(frame.pixels, vec![0; 24]);
}

#[test]
fn focus_cycles_in_both_directions() {
    assert_eq!(next_focus_index(3, None, false), 0);
    assert_eq!(next_focus_index(3, None, true), 2);
    assert_eq!(next_focus_index(3, Some(2), false), 0);
    assert_eq!(next_focus_index(3, Some(0), true), 2);
    assert_eq!(next_focus_index(3, Some(1), true), 0);
}

#[test]
fn theme_rejects_translucent_structural_surface() {
    let mut palette = Palette::default();
    palette.surface = Color::rgba(10, 10, 10, 200);
    assert!(validate_surfaces(palette).is_err());
}

#[test]
fn cursor_moves_by_whole_utf8_characters() {
    let text = "Aé€".as_bytes();
    assert_eq!(nexxus::ui_core::previous_boundary(text, text.len()), 3);
    assert_eq!(nexxus::ui_core::previous_boundary(text, 3), 1);
    assert_eq!(nexxus::ui_core::previous_boundary(text, 1), 0);
    assert_eq!(nexxus::ui_core::previous_boundary(text, 0), 0);
    assert_eq!(nexxus::ui_core::previous_boundary(text, 99), 3);
    assert_eq!(nexxus::ui_core::next_boundary(text, 0), 1);
    assert_eq!(nexxus::ui_core::next_boundary(text, 1), 3);
    assert_eq!(nexxus::ui_core::next_boundary(text, 2), 6);
    assert_eq!(nexxus::ui_core::next_boundary(text, 3), 6);
    assert_eq!(nexxus::ui_core::next_boundary(text, 6), 6);
}

fn field(text: &str, cursor: usize) -> FocusedWidget {
    FocusedWidget::TextField { text: text.as_bytes().to_vec(), cursor }
}

#[test]
fn keys_edit_text_fields_by_whole_characters() {
    // "h" is one byte, "é" two.
    assert_eq!(press_key(field("héllo", 3), Key::Backspace), (field("hllo", 1), KeyAnswer::TextChanged));
    assert_eq!(press_key(field("héllo", 1), Key::Delete), (field("hllo", 1), KeyAnswer::TextChanged));
    assert_eq!(press_key(field("héllo", 3), Key::ArrowLeft), (field("héllo", 1), KeyAnswer::Nothing));
    assert_eq!(press_key(field("héllo", 1), Key::ArrowRight), (field("héllo", 3), KeyAnswer::Nothing));
    assert_eq!(press_key(field("héllo", 3), Key::Home), (field("héllo", 0), KeyAnswer::Nothing));
    assert_eq!(press_key(field("héllo", 0), Key::End), (field("héllo", 6), KeyAnswer::Nothing));
    assert_eq!(press_key(field("héllo", 0), Key::Backspace), (field("héllo", 0), KeyAnswer::Nothing));
    assert_eq!(press_key(field("héllo", 6), Key::Delete), (field("héllo", 6), KeyAnswer::Nothing));
    assert_eq!(press_key(field("ok", 2), Key::Enter), (field("ok", 2), KeyAnswer::Submitted));
    assert_eq!(press_key(field("ok", 2), Key::Tab), (field("ok", 2), KeyAnswer::Nothing));
}

#[test]
fn typed_text_goes_in_at_the_cursor() {
    assert_eq!(type_text(field("ab", 1), "xy".as_bytes()), (field("axyb", 3), KeyAnswer::TextChanged));
    assert_eq!(type_text(field("ab", 9), "é".as_bytes()), (field("abé", 4), KeyAnswer::TextChanged));
    assert_eq!(type_text(FocusedWidget::Button, "x".as_bytes()), (FocusedWidget::Button, KeyAnswer::Nothing));
}

#[test]
fn keys_activate_select_cycle_and_dismiss() {
    assert_eq!(press_key(FocusedWidget::Button, Key::Space), (FocusedWidget::Button, KeyAnswer::Clicked));
    assert_eq!(press_key(FocusedWidget::Button, Key::Escape), (FocusedWidget::Button, KeyAnswer::Nothing));
    assert_eq!(
        press_key(FocusedWidget::Toggle { value: false }, Key::Enter),
        (FocusedWidget::Toggle { value: true }, KeyAnswer::Toggled(true))
    );
    assert_eq!(
        press_key(FocusedWidget::Checkbox { checked: true }, Key::Space),
        (FocusedWidget::Checkbox { checked: false }, KeyAnswer::Checked(false))
    );
    assert_eq!(
        press_key(FocusedWidget::List { len: 2, selected: None }, Key::ArrowDown),
        (FocusedWidget::List { len: 2, selected: Some(0) }, KeyAnswer::ListSelected(0))
    );
    assert_eq!(
        press_key(FocusedWidget::List { len: 2, selected: Some(1) }, Key::ArrowDown),
        (FocusedWidget::List { len: 2, selected: Some(1) }, KeyAnswer::ListSelected(1))
    );
    assert_eq!(
        press_key(FocusedWidget::List { len: 2, selected: Some(0) }, Key::ArrowUp),
        (FocusedWidget::List { len: 2, selected: Some(0) }, KeyAnswer::ListSelected(0))
    );
    assert_eq!(
        press_key(FocusedWidget::List { len: 0, selected: None }, Key::ArrowDown),
        (FocusedWidget::List { len: 0, selected: None }, KeyAnswer::Nothing)
    );
    assert_eq!(
        press_key(FocusedWidget::Tabs { len: 3, active: 2 }, Key::ArrowRight),
        (FocusedWidget::Tabs { len: 3, active: 0 }, KeyAnswer::TabChanged(0))
    );
    assert_eq!(
        press_key(FocusedWidget::Tabs { len: 3, active: 0 }, Key::ArrowLeft),
        (FocusedWidget::Tabs { len: 3, active: 2 }, KeyAnswer::TabChanged(2))
    );
    assert_eq!(
        press_key(FocusedWidget::Popup { open: true }, Key::Escape),
        (FocusedWidget::Popup { open: false }, KeyAnswer::PopupDismissed)
    );
    assert_eq!(
        press_key(FocusedWidget::Popup { open: false }, Key::Escape),
        (FocusedWidget::Popup { open: false }, KeyAnswer::Nothing)
    );
    assert_eq!(press_key(FocusedWidget::Other, Key::Enter), (FocusedWidget::Other, KeyAnswer::Nothing));
}
