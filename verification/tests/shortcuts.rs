use nexxus::shortcuts::{
    InputEvent, Key, KeyChord, KeyState, Modifier, ModifierSet, ShortcutCapture,
    ShortcutRecognizer, Trigger, TriggerParseError,
};

fn key(value: &str) -> Key {
    Key::new(value).unwrap()
}

#[test]
fn bare_super_fires_only_on_release() {
    let mut recognizer = ShortcutRecognizer::new();
    assert_eq!(
        recognizer.process(InputEvent::modifier(Modifier::Super, KeyState::Pressed)),
        None
    );
    assert_eq!(
        recognizer.process(InputEvent::modifier(Modifier::Super, KeyState::Released)),
        Some(Trigger::ModifierTap(Modifier::Super))
    );
}

#[test]
fn super_chord_suppresses_later_super_tap() {
    let mut recognizer = ShortcutRecognizer::new();
    recognizer.process(InputEvent::modifier(Modifier::Super, KeyState::Pressed));
    assert_eq!(
        recognizer.process(InputEvent::key(key("F"), KeyState::Pressed)),
        Some(Trigger::parse("Super+F").unwrap())
    );
    recognizer.process(InputEvent::key(key("F"), KeyState::Released));
    assert_eq!(
        recognizer.process(InputEvent::modifier(Modifier::Super, KeyState::Released)),
        None
    );
}

#[test]
fn modifier_only_chord_does_not_emit_taps() {
    let mut recognizer = ShortcutRecognizer::new();
    recognizer.process(InputEvent::modifier(Modifier::Super, KeyState::Pressed));
    recognizer.process(InputEvent::modifier(Modifier::Shift, KeyState::Pressed));
    assert_eq!(
        recognizer.process(InputEvent::modifier(Modifier::Shift, KeyState::Released)),
        None
    );
    assert_eq!(
        recognizer.process(InputEvent::modifier(Modifier::Super, KeyState::Released)),
        None
    );
}

fn set(mods: &[Modifier]) -> ModifierSet {
    let mut s = ModifierSet::empty();
    for m in mods {
        s = s.with(*m, true);
    }
    s
}

#[test]
fn triggers_parse_modifiers_then_key() {
    assert_eq!(
        Trigger::parse("Ctrl+Alt+Delete").unwrap(),
        Trigger::Chord(KeyChord::new(set(&[Modifier::Ctrl, Modifier::Alt]), key("Delete")))
    );
    assert_eq!(
        Trigger::parse("F12").unwrap(),
        Trigger::Chord(KeyChord::new(ModifierSet::empty(), key("F12")))
    );
    assert_eq!(Trigger::parse("Super").unwrap(), Trigger::ModifierTap(Modifier::Super));
    assert_eq!(
        Trigger::parse("Ctrl+Ctrl+A"),
        Err(TriggerParseError::DuplicateModifier(Modifier::Ctrl))
    );
    assert_eq!(Trigger::parse("Super+Shift"), Err(TriggerParseError::MissingKey));
    assert!(matches!(Trigger::parse(""), Err(TriggerParseError::InvalidKey(_))));
    assert!(matches!(Trigger::parse("Super+a b"), Err(TriggerParseError::InvalidKey(_))));
}

#[test]
fn key_names_are_validated() {
    assert!(Key::new("Return").is_ok());
    assert!(Key::new("").is_err());
    assert!(Key::new("A+B").is_err());
    assert!(Key::new(" ").is_err());
    assert_eq!(key("Tab").as_str(), "Tab");
}

#[test]
fn chord_reports_every_held_modifier() {
    let mut recognizer = ShortcutRecognizer::new();
    recognizer.process(InputEvent::modifier(Modifier::Ctrl, KeyState::Pressed));
    recognizer.process(InputEvent::modifier(Modifier::Shift, KeyState::Pressed));
    assert_eq!(
        recognizer.process(InputEvent::key(key("T"), KeyState::Pressed)),
        Some(Trigger::parse("Ctrl+Shift+T").unwrap())
    );
    assert_eq!(recognizer.process(InputEvent::key(key("T"), KeyState::Released)), None);
}

#[test]
fn reset_forgets_held_modifiers() {
    let mut recognizer = ShortcutRecognizer::new();
    recognizer.process(InputEvent::modifier(Modifier::Alt, KeyState::Pressed));
    recognizer.reset();
    assert_eq!(
        recognizer.process(InputEvent::modifier(Modifier::Alt, KeyState::Released)),
        None
    );
}

#[test]
fn capture_uses_the_same_semantics() {
    let mut capture = ShortcutCapture::new();
    capture.process(InputEvent::modifier(Modifier::Super, KeyState::Pressed));
    assert_eq!(
        capture.process(InputEvent::modifier(Modifier::Super, KeyState::Released)),
        Some(Trigger::ModifierTap(Modifier::Super))
    );
    capture.process(InputEvent::modifier(Modifier::Super, KeyState::Pressed));
    capture.reset();
    assert_eq!(
        capture.process(InputEvent::modifier(Modifier::Super, KeyState::Released)),
        None
    );
}
