//! Shortcut triggers and their recognition from backend-neutral key events:
//! chords fire when their key is pressed, a bare modifier fires when it is
//! released without having taken part in a chord.

use crate::text::{has_prefix, is_white_space, str_eq, strip_prefix};
use vstd::prelude::*;

verus! {

#[derive(Clone, Copy, Debug, PartialEq, Eq, Hash, PartialOrd, Ord, Structural)]
pub enum Modifier {
    Ctrl,
    Alt,
    Shift,
    Super,
}

/// A set of modifiers.
#[derive(Clone, Copy, Debug, PartialEq, Eq, Hash, Structural)]
pub struct ModifierSet {
    pub ctrl: bool,
    pub alt: bool,
    pub shift: bool,
    pub super_key: bool,
}

pub open spec fn spec_has(s: ModifierSet, m: Modifier) -> bool {
    match m {
        Modifier::Ctrl => s.ctrl,
        Modifier::Alt => s.alt,
        Modifier::Shift => s.shift,
        Modifier::Super => s.super_key,
    }
}

pub open spec fn spec_with(s: ModifierSet, m: Modifier, on: bool) -> ModifierSet {
    match m {
        Modifier::Ctrl => ModifierSet { ctrl: on, ..s },
        Modifier::Alt => ModifierSet { alt: on, ..s },
        Modifier::Shift => ModifierSet { shift: on, ..s },
        Modifier::Super => ModifierSet { super_key: on, ..s },
    }
}

pub open spec fn spec_union(a: ModifierSet, b: ModifierSet) -> ModifierSet {
    ModifierSet {
        ctrl: a.ctrl || b.ctrl,
        alt: a.alt || b.alt,
        shift: a.shift || b.shift,
        super_key: a.super_key || b.super_key,
    }
}

pub open spec fn spec_is_empty(s: ModifierSet) -> bool {
    !s.ctrl && !s.alt && !s.shift && !s.super_key
}

pub open spec fn subset(a: ModifierSet, b: ModifierSet) -> bool {
    (a.ctrl ==> b.ctrl) && (a.alt ==> b.alt) && (a.shift ==> b.shift) && (a.super_key
        ==> b.super_key)
}

impl ModifierSet {
    pub fn empty() -> (r: Self)
        ensures
            spec_is_empty(r),
    {
        ModifierSet { ctrl: false, alt: false, shift: false, super_key: false }
    }

    pub fn contains(self, m: Modifier) -> (r: bool)
        ensures
            r == spec_has(self, m),
    {
        match m {
            Modifier::Ctrl => self.ctrl,
            Modifier::Alt => self.alt,
            Modifier::Shift => self.shift,
            Modifier::Super => self.super_key,
        }
    }

    pub fn with(self, m: Modifier, on: bool) -> (r: Self)
        ensures
            r == spec_with(self, m, on),
    {
        match m {
            Modifier::Ctrl => ModifierSet { ctrl: on, ..self },
            Modifier::Alt => ModifierSet { alt: on, ..self },
            Modifier::Shift => ModifierSet { shift: on, ..self },
            Modifier::Super => ModifierSet { super_key: on, ..self },
        }
    }

    pub fn union(self, other: Self) -> (r: Self)
        ensures
            r == spec_union(self, other),
    {
        ModifierSet {
            ctrl: self.ctrl || other.ctrl,
            alt: self.alt || other.alt,
            shift: self.shift || other.shift,
            super_key: self.super_key || other.super_key,
        }
    }

    pub fn is_empty(self) -> (r: bool)
        ensures
            r == spec_is_empty(self),
    {
        !self.ctrl && !self.alt && !self.shift && !self.super_key
    }
}

/// A key name usable in a chord: not empty, without whitespace or `+`.
pub open spec fn valid_key(s: Seq<char>) -> bool {
    s.len() > 0 && forall|i: int| 0 <= i < s.len() ==> s[i] != '+' && !is_white_space(#[trigger] s[i])
}

/// A non-modifier key, by name.
#[derive(Clone, Debug, PartialEq, Eq, Hash)]
pub struct Key(String);

impl View for Key {
    type V = Seq<char>;

    closed spec fn view(&self) -> Seq<char> {
        self.0@
    }
}

#[derive(Clone, Debug, PartialEq, Eq)]
pub enum TriggerParseError {
    InvalidKey(String),
    DuplicateModifier(Modifier),
    MissingKey,
}

impl Key {
    pub fn new(value: &str) -> (r: Result<Self, TriggerParseError>)
        ensures
            valid_key(value@) <==> r is Ok,
            r matches Ok(k) ==> k@ == value@,
            r matches Err(e) ==> (e matches TriggerParseError::InvalidKey(v) && v@ == value@),
    {
        let n = value.unicode_len();
        if n == 0 {
            return Err(TriggerParseError::InvalidKey(value.to_owned()));
        }
        let mut i: usize = 0;
        while i < n
            invariant
                n == value@.len(),
                i <= n,
                forall|j: int| 0 <= j < i ==> value@[j] != '+' && !is_white_space(#[trigger] value@[j]),
            decreases n - i,
        {
            let c = value.get_char(i);
            if c == '+' || crate::text::char_is_white_space(c) {
                return Err(TriggerParseError::InvalidKey(value.to_owned()));
            }
            i = i + 1;
        }
        Ok(Key(value.to_owned()))
    }

    pub fn as_str(&self) -> (r: &str)
        ensures
            r@ == self@,
    {
        self.0.as_str()
    }
}

/// Modifiers held together with a key.
#[derive(Clone, Debug, PartialEq, Eq, Hash)]
pub struct KeyChord {
    pub modifiers: ModifierSet,
    pub key: Key,
}

impl KeyChord {
    pub fn new(modifiers: ModifierSet, key: Key) -> (r: Self)
        ensures
            r.modifiers == modifiers,
            r.key@ == key@,
    {
        KeyChord { modifiers, key }
    }
}

/// What a shortcut is bound to.
#[derive(Clone, Debug, PartialEq, Eq, Hash)]
pub enum Trigger {
    Chord(KeyChord),
    ModifierTap(Modifier),
}

/// A trigger as plain values.
pub enum TriggerView {
    Chord(ModifierSet, Seq<char>),
    Tap(Modifier),
}

impl View for Trigger {
    type V = TriggerView;

    open spec fn view(&self) -> TriggerView {
        match self {
            Trigger::Chord(c) => TriggerView::Chord(c.modifiers, c.key@),
            Trigger::ModifierTap(m) => TriggerView::Tap(*m),
        }
    }
}

/// The modifier a name stands for.
pub open spec fn modifier_named(s: Seq<char>) -> Option<Modifier> {
    if s == "Ctrl"@ {
        Some(Modifier::Ctrl)
    } else if s == "Alt"@ {
        Some(Modifier::Alt)
    } else if s == "Shift"@ {
        Some(Modifier::Shift)
    } else if s == "Super"@ {
        Some(Modifier::Super)
    } else {
        None
    }
}

/// The modifier a text begins with, followed by `+`, and what follows.
pub open spec fn leading_modifier(s: Seq<char>) -> Option<(Modifier, Seq<char>)> {
    if has_prefix(s, "Ctrl+"@) {
        Some((Modifier::Ctrl, s.skip("Ctrl+"@.len() as int)))
    } else if has_prefix(s, "Alt+"@) {
        Some((Modifier::Alt, s.skip("Alt+"@.len() as int)))
    } else if has_prefix(s, "Shift+"@) {
        Some((Modifier::Shift, s.skip("Shift+"@.len() as int)))
    } else if has_prefix(s, "Super+"@) {
        Some((Modifier::Super, s.skip("Super+"@.len() as int)))
    } else {
        None
    }
}

/// Reads a trigger written as modifiers and a key joined by `+`, such as
/// `Super+F`; a modifier alone stands for its tap.
pub open spec fn parse_trigger(s: Seq<char>, mods: ModifierSet) -> Result<TriggerView, TriggerErrorView>
    decreases s.len(),
{
    match leading_modifier(s) {
        Some((m, rest)) => {
            if spec_has(mods, m) {
                Err(TriggerErrorView::DuplicateModifier(m))
            } else if rest.len() >= s.len() {
                Err(TriggerErrorView::MissingKey)
            } else {
                parse_trigger(rest, spec_with(mods, m, true))
            }
        },
        None => match modifier_named(s) {
            Some(m) => if spec_is_empty(mods) {
                Ok(TriggerView::Tap(m))
            } else {
                Err(TriggerErrorView::MissingKey)
            },
            None => if valid_key(s) {
                Ok(TriggerView::Chord(mods, s))
            } else {
                Err(TriggerErrorView::InvalidKey(s))
            },
        },
    }
}

/// A trigger parse error as plain values.
pub enum TriggerErrorView {
    InvalidKey(Seq<char>),
    DuplicateModifier(Modifier),
    MissingKey,
}

pub open spec fn trigger_error_view(e: TriggerParseError) -> TriggerErrorView {
    match e {
        TriggerParseError::InvalidKey(k) => TriggerErrorView::InvalidKey(k@),
        TriggerParseError::DuplicateModifier(m) => TriggerErrorView::DuplicateModifier(m),
        TriggerParseError::MissingKey => TriggerErrorView::MissingKey,
    }
}

fn leading(s: &str) -> (r: Option<(Modifier, String)>)
    ensures
        leading_modifier(s@) matches Some((m, rest)) ==> (r matches Some((m2, rest2)) && m2 == m
            && rest2@ == rest),
        leading_modifier(s@) is None ==> r is None,
{
    if let Some(rest) = strip_prefix(s, "Ctrl+") {
        return Some((Modifier::Ctrl, rest));
    }
    if let Some(rest) = strip_prefix(s, "Alt+") {
        return Some((Modifier::Alt, rest));
    }
    if let Some(rest) = strip_prefix(s, "Shift+") {
        return Some((Modifier::Shift, rest));
    }
    if let Some(rest) = strip_prefix(s, "Super+") {
        return Some((Modifier::Super, rest));
    }
    None
}

fn named(s: &str) -> (r: Option<Modifier>)
    ensures
        r == modifier_named(s@),
{
    if str_eq(s, "Ctrl") {
        Some(Modifier::Ctrl)
    } else if str_eq(s, "Alt") {
        Some(Modifier::Alt)
    } else if str_eq(s, "Shift") {
        Some(Modifier::Shift)
    } else if str_eq(s, "Super") {
        Some(Modifier::Super)
    } else {
        None
    }
}

impl Trigger {
    pub fn parse(text: &str) -> (r: Result<Self, TriggerParseError>)
        ensures
            match parse_trigger(text@, ModifierSet { ctrl: false, alt: false, shift: false, super_key: false }) {
                Ok(v) => r matches Ok(t) && t@ == v,
                Err(e) => r matches Err(x) && trigger_error_view(x) == e,
            },
    {
        let mut mods = ModifierSet::empty();
        let mut rest = text.to_owned();
        let ghost start = ModifierSet { ctrl: false, alt: false, shift: false, super_key: false };
        loop
            invariant
                start == (ModifierSet { ctrl: false, alt: false, shift: false, super_key: false }),
                parse_trigger(text@, start) == parse_trigger(rest@, mods),
            decreases rest@.len(),
        {
            match leading(rest.as_str()) {
                Some((m, tail)) => {
                    if mods.contains(m) {
                        return Err(TriggerParseError::DuplicateModifier(m));
                    }
                    if tail.unicode_len() >= rest.unicode_len() {
                        return Err(TriggerParseError::MissingKey);
                    }
                    mods = mods.with(m, true);
                    rest = tail;
                },
                None => {
                    match named(rest.as_str()) {
                        Some(m) => {
                            if mods.is_empty() {
                                return Ok(Trigger::ModifierTap(m));
                            }
                            return Err(TriggerParseError::MissingKey);
                        },
                        None => {
                            let key = Key::new(rest.as_str());
                            match key {
                                Ok(k) => {
                                    return Ok(Trigger::Chord(KeyChord::new(mods, k)));
                                },
                                Err(e) => {
                                    return Err(e);
                                },
                            }
                        },
                    }
                },
            }
        }
    }
}

#[derive(Clone, Copy, Debug, PartialEq, Eq, Structural)]
pub enum KeyState {
    Pressed,
    Released,
}

#[derive(Clone, Debug, PartialEq, Eq)]
pub enum InputKey {
    Modifier(Modifier),
    Key(Key),
}

#[derive(Clone, Debug, PartialEq, Eq)]
pub struct InputEvent {
    pub key: InputKey,
    pub state: KeyState,
}

impl InputEvent {
    pub fn modifier(modifier: Modifier, state: KeyState) -> (r: Self)
        ensures
            r.key == InputKey::Modifier(modifier),
            r.state == state,
    {
        InputEvent { key: InputKey::Modifier(modifier), state }
    }

    pub fn key(key: Key, state: KeyState) -> (r: Self)
        ensures
            r.key matches InputKey::Key(k) && k@ == key@,
            r.state == state,
    {
        InputEvent { key: InputKey::Key(key), state }
    }
}

/// An input event as plain values: a modifier, or a key by name.
pub enum EventView {
    Modifier(Modifier, KeyState),
    Key(Seq<char>, KeyState),
}

pub open spec fn event_view(e: InputEvent) -> EventView {
    match e.key {
        InputKey::Modifier(m) => EventView::Modifier(m, e.state),
        InputKey::Key(k) => EventView::Key(k@, e.state),
    }
}

/// The recognizer state: modifiers held, and those of them that took part in
/// a chord.
pub type RecognizerState = (ModifierSet, ModifierSet);

/// One recognition step: the next state and what is emitted.
pub open spec fn recognize(s: RecognizerState, e: EventView) -> (RecognizerState, Option<TriggerView>) {
    let (pressed, used) = s;
    match e {
        EventView::Modifier(m, KeyState::Pressed) => {
            let used2 = if !spec_is_empty(pressed) {
                spec_with(spec_union(used, pressed), m, true)
            } else {
                used
            };
            ((spec_with(pressed, m, true), used2), None)
        },
        EventView::Modifier(m, KeyState::Released) => {
            let out = if spec_has(pressed, m) && !spec_has(used, m) {
                Some(TriggerView::Tap(m))
            } else {
                None
            };
            ((spec_with(pressed, m, false), spec_with(used, m, false)), out)
        },
        EventView::Key(k, KeyState::Pressed) => {
            ((pressed, spec_union(used, pressed)), Some(TriggerView::Chord(pressed, k)))
        },
        EventView::Key(_, KeyState::Released) => (s, None),
    }
}

/// Recognizes chords on key press and modifier taps on release. A modifier
/// that took part in a chord, with a key or another modifier, is never
/// reported as a tap afterwards.
pub struct ShortcutRecognizer {
    pressed_modifiers: ModifierSet,
    used_modifiers: ModifierSet,
}

impl ShortcutRecognizer {
    pub closed spec fn state(&self) -> RecognizerState {
        (self.pressed_modifiers, self.used_modifiers)
    }

    /// Modifiers are only marked as used while they are held.
    pub closed spec fn wf(&self) -> bool {
        subset(self.used_modifiers, self.pressed_modifiers)
    }

    pub fn new() -> (r: Self)
        ensures
            r.wf(),
            spec_is_empty(r.state().0),
            spec_is_empty(r.state().1),
    {
        ShortcutRecognizer { pressed_modifiers: ModifierSet::empty(), used_modifiers: ModifierSet::empty() }
    }

    pub fn reset(&mut self)
        ensures
            final(self).wf(),
            spec_is_empty(final(self).state().0),
            spec_is_empty(final(self).state().1),
    {
        self.pressed_modifiers = ModifierSet::empty();
        self.used_modifiers = ModifierSet::empty();
    }

    pub fn process(&mut self, event: InputEvent) -> (r: Option<Trigger>)
        requires
            old(self).wf(),
        ensures
            final(self).wf(),
            final(self).state() == recognize(old(self).state(), event_view(event)).0,
            match recognize(old(self).state(), event_view(event)).1 {
                Some(t) => r matches Some(x) && x@ == t,
                None => r is None,
            },
    {
        match event.key {
            InputKey::Modifier(modifier) => match event.state {
                KeyState::Pressed => {
                    if !self.pressed_modifiers.is_empty() {
                        self.used_modifiers = self.used_modifiers.union(self.pressed_modifiers).with(
                            modifier,
                            true,
                        );
                    }
                    self.pressed_modifiers = self.pressed_modifiers.with(modifier, true);
                    None
                },
                KeyState::Released => {
                    let was_pressed = self.pressed_modifiers.contains(modifier);
                    let was_used = self.used_modifiers.contains(modifier);
                    self.pressed_modifiers = self.pressed_modifiers.with(modifier, false);
                    self.used_modifiers = self.used_modifiers.with(modifier, false);
                    if was_pressed && !was_used {
                        Some(Trigger::ModifierTap(modifier))
                    } else {
                        None
                    }
                },
            },
            InputKey::Key(key) => match event.state {
                KeyState::Pressed => {
                    self.used_modifiers = self.used_modifiers.union(self.pressed_modifiers);
                    Some(Trigger::Chord(KeyChord::new(self.pressed_modifiers, key)))
                },
                KeyState::Released => None,
            },
        }
    }
}

impl Default for ShortcutRecognizer {
    fn default() -> (r: Self)
        ensures
            r.wf(),
            spec_is_empty(r.state().0),
            spec_is_empty(r.state().1),
    {
        ShortcutRecognizer::new()
    }
}

/// A recognizer as used to capture a new binding: the same semantics as live
/// dispatch, so a captured combination means what it will mean later.
pub struct ShortcutCapture {
    recognizer: ShortcutRecognizer,
}

impl ShortcutCapture {
    pub closed spec fn state(&self) -> RecognizerState {
        self.recognizer.state()
    }

    pub closed spec fn wf(&self) -> bool {
        self.recognizer.wf()
    }

    pub fn new() -> (r: Self)
        ensures
            r.wf(),
            spec_is_empty(r.state().0),
            spec_is_empty(r.state().1),
    {
        ShortcutCapture { recognizer: ShortcutRecognizer::new() }
    }

    pub fn reset(&mut self)
        ensures
            final(self).wf(),
            spec_is_empty(final(self).state().0),
            spec_is_empty(final(self).state().1),
    {
        self.recognizer.reset();
    }

    pub fn process(&mut self, event: InputEvent) -> (r: Option<Trigger>)
        requires
            old(self).wf(),
        ensures
            final(self).wf(),
            final(self).state() == recognize(old(self).state(), event_view(event)).0,
            match recognize(old(self).state(), event_view(event)).1 {
                Some(t) => r matches Some(x) && x@ == t,
                None => r is None,
            },
    {
        self.recognizer.process(event)
    }
}

/// The state reached and what each event reported, when `events` are fed
/// in order from state `s`.
pub open spec fn run(s: RecognizerState, events: Seq<EventView>) -> (RecognizerState, Seq<Option<TriggerView>>)
    decreases events.len(),
{
    if events.len() == 0 {
        (s, seq![])
    } else {
        let before = run(s, events.drop_last());
        let step = recognize(before.0, events.last());
        (step.0, before.1.push(step.1))
    }
}

/// Feeding one more event takes one more recognition step.
pub proof fn lemma_run_step(s: RecognizerState, events: Seq<EventView>, e: EventView)
    ensures
        run(s, events.push(e)) == ({
            let before = run(s, events);
            let step = recognize(before.0, e);
            (step.0, before.1.push(step.1))
        }),
{
    assert(events.push(e).drop_last() =~= events);
}

/// A capture started fresh reports, over any sequence of events, exactly
/// what a fresh recognizer reports: a captured binding means what it will
/// mean in live dispatch.
pub proof fn lemma_capture_matches_recognizer(c: ShortcutCapture, r: ShortcutRecognizer, events: Seq<EventView>)
    requires
        spec_is_empty(c.state().0),
        spec_is_empty(c.state().1),
        spec_is_empty(r.state().0),
        spec_is_empty(r.state().1),
    ensures
        c.state() == r.state(),
        run(c.state(), events) == run(r.state(), events),
{
    assert(c.state().0 == r.state().0);
    assert(c.state().1 == r.state().1);
}

impl Default for ShortcutCapture {
    fn default() -> (r: Self)
        ensures
            r.wf(),
            spec_is_empty(r.state().0),
            spec_is_empty(r.state().1),
    {
        ShortcutCapture::new()
    }
}

/// With no modifier held, pressing and releasing one modifier reports its
/// tap, on release and not before.
pub proof fn lemma_bare_modifier_taps_on_release(s: RecognizerState, m: Modifier)
    requires
        spec_is_empty(s.0),
        subset(s.1, s.0),
    ensures
        recognize(s, EventView::Modifier(m, KeyState::Pressed)).1 is None,
        recognize(recognize(s, EventView::Modifier(m, KeyState::Pressed)).0, EventView::Modifier(
            m,
            KeyState::Released,
        )).1 == Some(TriggerView::Tap(m)),
{
}

/// A modifier that took part in a key chord is not reported as a tap when it
/// is released.
pub proof fn lemma_chord_suppresses_tap(s: RecognizerState, m: Modifier, k: Seq<char>)
    ensures
        ({
            let s1 = recognize(s, EventView::Modifier(m, KeyState::Pressed)).0;
            let s2 = recognize(s1, EventView::Key(k, KeyState::Pressed)).0;
            let s3 = recognize(s2, EventView::Key(k, KeyState::Released)).0;
            recognize(s3, EventView::Modifier(m, KeyState::Released)).1 is None
        }),
{
}

/// Holding two modifiers together reports neither as a tap.
pub proof fn lemma_modifier_chord_emits_no_tap(s: RecognizerState, a: Modifier, b: Modifier)
    requires
        a != b,
    ensures
        ({
            let s1 = recognize(s, EventView::Modifier(a, KeyState::Pressed)).0;
            let s2 = recognize(s1, EventView::Modifier(b, KeyState::Pressed)).0;
            let (s3, out1) = recognize(s2, EventView::Modifier(b, KeyState::Released));
            let out2 = recognize(s3, EventView::Modifier(a, KeyState::Released)).1;
            out1 is None && out2 is None
        }),
{
}

/// Modifier sets behave as sets: setting a modifier changes that one only,
/// a union holds what either side holds, and the empty set holds nothing.
pub proof fn lemma_modifier_set_laws(a: ModifierSet, b: ModifierSet, m: Modifier, n: Modifier, on: bool)
    ensures
        spec_has(spec_with(a, m, on), m) == on,
        m != n ==> spec_has(spec_with(a, m, on), n) == spec_has(a, n),
        spec_has(spec_union(a, b), n) == (spec_has(a, n) || spec_has(b, n)),
        spec_is_empty(a) <==> (forall|k: Modifier| !#[trigger] spec_has(a, k)),
{
    if !spec_is_empty(a) {
        if a.ctrl {
            assert(spec_has(a, Modifier::Ctrl));
        } else if a.alt {
            assert(spec_has(a, Modifier::Alt));
        } else if a.shift {
            assert(spec_has(a, Modifier::Shift));
        } else {
            assert(spec_has(a, Modifier::Super));
        }
    }
}

} // verus!
