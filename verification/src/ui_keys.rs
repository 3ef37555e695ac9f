//! What a key press or typed text does to the focused widget: activation of
//! buttons and switches, cursor movement and editing in text fields, list
//! selection, tab cycling and popup dismissal. Text is UTF-8 bytes and the
//! cursor a byte offset.

use crate::ui_core::{boundary_before, boundary_from, char_boundary, next_boundary, previous_boundary, Key};
use vstd::arithmetic::div_mod::{lemma_add_mod_noop, lemma_mod_self_0, lemma_small_mod};
use vstd::prelude::*;

verus! {

/// The part of a focused widget that keyboard input reads and changes.
#[derive(Clone, Debug, PartialEq, Eq)]
pub enum FocusedWidget {
    Button,
    Toggle { value: bool },
    Checkbox { checked: bool },
    TextField { text: Vec<u8>, cursor: usize },
    List { len: usize, selected: Option<usize> },
    Tabs { len: usize, active: usize },
    Popup { open: bool },
    Other,
}

/// What keyboard input on the focused widget announces.
#[derive(Clone, Copy, Debug, PartialEq, Eq, Structural)]
pub enum KeyAnswer {
    Nothing,
    Clicked,
    Toggled(bool),
    Checked(bool),
    TextChanged,
    Submitted,
    ListSelected(usize),
    TabChanged(usize),
    PopupDismissed,
}

/// Where moving one character right from `c` lands (see `next_boundary`).
pub open spec fn boundary_after(t: Seq<u8>, c: int) -> int {
    if c >= t.len() {
        t.len() as int
    } else if boundary_from(t, c) >= t.len() {
        t.len() as int
    } else {
        boundary_from(t, boundary_from(t, c) + 1)
    }
}

/// The cursor clamped to the end of the text.
pub open spec fn clamped(t: Seq<u8>, c: int) -> int {
    if c < t.len() {
        c
    } else {
        t.len() as int
    }
}

/// Whether a key can be handled without slicing text off a character
/// boundary: moving left needs the clamped cursor on a boundary, erasing
/// backwards needs the cursor inside the text and on a boundary, erasing
/// forwards needs it on a boundary when it is inside the text.
pub open spec fn key_defined(w: FocusedWidget, key: Key) -> bool {
    match w {
        FocusedWidget::TextField { text, cursor } => match key {
            Key::ArrowLeft => char_boundary(text@, clamped(text@, cursor as int)),
            Key::Backspace => cursor <= text@.len() && char_boundary(text@, cursor as int),
            Key::Delete => cursor < text@.len() ==> char_boundary(text@, cursor as int),
            _ => true,
        },
        _ => true,
    }
}

/// A text field with these contents and cursor.
pub open spec fn field_is(w: FocusedWidget, t: Seq<u8>, c: int) -> bool {
    w matches FocusedWidget::TextField { text, cursor } && text@ == t && cursor == c
}

/// `after` and `answer` are what pressing `key` on `w` gives. Enter and
/// Space activate buttons, toggles and checkboxes; a text field moves its
/// cursor by characters, erases the character before or after it, and
/// submits on Enter; a non-empty list moves its selection down or up,
/// staying within it; tabs cycle; Escape dismisses an open popup. Anything
/// else leaves the widget as it is and announces nothing.
pub open spec fn pressed(w: FocusedWidget, after: FocusedWidget, key: Key, answer: KeyAnswer) -> bool {
    let activate = key == Key::Enter || key == Key::Space;
    match w {
        FocusedWidget::Button => after == w && answer == (if activate {
            KeyAnswer::Clicked
        } else {
            KeyAnswer::Nothing
        }),
        FocusedWidget::Toggle { value } => if activate {
            after == (FocusedWidget::Toggle { value: !value }) && answer == KeyAnswer::Toggled(!value)
        } else {
            after == w && answer == KeyAnswer::Nothing
        },
        FocusedWidget::Checkbox { checked } => if activate {
            after == (FocusedWidget::Checkbox { checked: !checked }) && answer == KeyAnswer::Checked(!checked)
        } else {
            after == w && answer == KeyAnswer::Nothing
        },
        FocusedWidget::TextField { text, cursor } => {
            let t = text@;
            let c = cursor as int;
            match key {
                Key::ArrowLeft => field_is(after, t, boundary_before(t, clamped(t, c))) && answer == KeyAnswer::Nothing,
                Key::ArrowRight => field_is(after, t, boundary_after(t, c)) && answer == KeyAnswer::Nothing,
                Key::Home => field_is(after, t, 0) && answer == KeyAnswer::Nothing,
                Key::End => field_is(after, t, t.len() as int) && answer == KeyAnswer::Nothing,
                Key::Backspace => {
                    let p = boundary_before(t, c);
                    if p < c {
                        field_is(after, t.take(p) + t.skip(c), p) && answer == KeyAnswer::TextChanged
                    } else {
                        field_is(after, t, c) && answer == KeyAnswer::Nothing
                    }
                },
                Key::Delete => {
                    let q = boundary_after(t, c);
                    if q > c {
                        field_is(after, t.take(c) + t.skip(q), c) && answer == KeyAnswer::TextChanged
                    } else {
                        field_is(after, t, c) && answer == KeyAnswer::Nothing
                    }
                },
                Key::Enter => field_is(after, t, c) && answer == KeyAnswer::Submitted,
                _ => field_is(after, t, c) && answer == KeyAnswer::Nothing,
            }
        },
        FocusedWidget::List { len, selected } => if len > 0 && key == Key::ArrowDown {
            let i: int = match selected {
                Some(v) => if v + 1 < len - 1 { v + 1 } else { len - 1 },
                None => 0,
            };
            after == (FocusedWidget::List { len, selected: Some(i as usize) }) && answer == KeyAnswer::ListSelected(
                i as usize,
            )
        } else if len > 0 && key == Key::ArrowUp {
            let i: int = match selected {
                Some(v) => if v == 0 { 0 } else { v - 1 },
                None => 0,
            };
            after == (FocusedWidget::List { len, selected: Some(i as usize) }) && answer == KeyAnswer::ListSelected(
                i as usize,
            )
        } else {
            after == w && answer == KeyAnswer::Nothing
        },
        FocusedWidget::Tabs { len, active } => if len > 0 && key == Key::ArrowRight {
            let a = ((active + 1) % (len as int)) as usize;
            after == (FocusedWidget::Tabs { len, active: a }) && answer == KeyAnswer::TabChanged(a)
        } else if len > 0 && key == Key::ArrowLeft {
            let a = (if active == 0 { len - 1 } else { active - 1 }) as usize;
            after == (FocusedWidget::Tabs { len, active: a }) && answer == KeyAnswer::TabChanged(a)
        } else {
            after == w && answer == KeyAnswer::Nothing
        },
        FocusedWidget::Popup { open } => if open && key == Key::Escape {
            after == (FocusedWidget::Popup { open: false }) && answer == KeyAnswer::PopupDismissed
        } else {
            after == w && answer == KeyAnswer::Nothing
        },
        FocusedWidget::Other => after == w && answer == KeyAnswer::Nothing,
    }
}

proof fn lemma_boundary_from_within(t: Seq<u8>, i: int)
    requires
        0 <= i <= t.len(),
    ensures
        i <= boundary_from(t, i) <= t.len(),
    decreases t.len() - i,
{
    if i < t.len() && !char_boundary(t, i) {
        lemma_boundary_from_within(t, i + 1);
    }
}

/// Moving right from inside the text stays within it.
proof fn lemma_boundary_after_within(t: Seq<u8>, c: int)
    requires
        0 <= c,
    ensures
        c < t.len() ==> c <= boundary_after(t, c) <= t.len(),
        boundary_after(t, c) <= t.len(),
{
    if c < t.len() {
        lemma_boundary_from_within(t, c);
        if boundary_from(t, c) < t.len() {
            lemma_boundary_from_within(t, boundary_from(t, c) + 1);
        }
    }
}

/// `text` without the bytes from `a` up to `b`.
fn cut(text: &Vec<u8>, a: usize, b: usize) -> (r: Vec<u8>)
    requires
        a <= b <= text@.len(),
    ensures
        r@ == text@.take(a as int) + text@.skip(b as int),
{
    let mut r: Vec<u8> = Vec::new();
    let mut i: usize = 0;
    while i < a
        invariant
            i <= a <= b <= text@.len(),
            r@ == text@.take(i as int),
        decreases a - i,
    {
        r.push(text[i]);
        i = i + 1;
        assert(r@ =~= text@.take(i as int));
    }
    let mut j: usize = b;
    while j < text.len()
        invariant
            a <= b <= j <= text@.len(),
            r@ == text@.take(a as int) + text@.subrange(b as int, j as int),
        decreases text@.len() - j,
    {
        r.push(text[j]);
        j = j + 1;
        assert(r@ =~= text@.take(a as int) + text@.subrange(b as int, j as int));
    }
    assert(text@.subrange(b as int, j as int) =~= text@.skip(b as int));
    r
}

/// `text` with `inserted` put in at byte offset `at`.
fn splice(text: &Vec<u8>, at: usize, inserted: &[u8]) -> (r: Vec<u8>)
    requires
        at <= text@.len(),
    ensures
        r@ == text@.take(at as int) + inserted@ + text@.skip(at as int),
{
    let mut out: Vec<u8> = Vec::new();
    let mut i: usize = 0;
    while i < at
        invariant
            i <= at <= text@.len(),
            out@ == text@.take(i as int),
        decreases at - i,
    {
        out.push(text[i]);
        i = i + 1;
        assert(out@ =~= text@.take(i as int));
    }
    let mut k: usize = 0;
    while k < inserted.len()
        invariant
            k <= inserted@.len(),
            out@ == text@.take(at as int) + inserted@.take(k as int),
        decreases inserted@.len() - k,
    {
        out.push(inserted[k]);
        k = k + 1;
        assert(out@ =~= text@.take(at as int) + inserted@.take(k as int));
    }
    assert(inserted@.take(k as int) =~= inserted@);
    let mut j: usize = at;
    while j < text.len()
        invariant
            at <= j <= text@.len(),
            out@ == text@.take(at as int) + inserted@ + text@.subrange(at as int, j as int),
        decreases text@.len() - j,
    {
        out.push(text[j]);
        j = j + 1;
        assert(out@ =~= text@.take(at as int) + inserted@ + text@.subrange(at as int, j as int));
    }
    assert(text@.subrange(at as int, j as int) =~= text@.skip(at as int));
    out
}

/// Handles a key press on the focused widget.
pub fn press_key(widget: FocusedWidget, key: Key) -> (r: (FocusedWidget, KeyAnswer))
    requires
        key_defined(widget, key),
    ensures
        pressed(widget, r.0, key, r.1),
{
    let activate = key == Key::Enter || key == Key::Space;
    match widget {
        FocusedWidget::Button => {
            let answer = if activate {
                KeyAnswer::Clicked
            } else {
                KeyAnswer::Nothing
            };
            (FocusedWidget::Button, answer)
        },
        FocusedWidget::Toggle { value } => if activate {
            (FocusedWidget::Toggle { value: !value }, KeyAnswer::Toggled(!value))
        } else {
            (FocusedWidget::Toggle { value }, KeyAnswer::Nothing)
        },
        FocusedWidget::Checkbox { checked } => if activate {
            (FocusedWidget::Checkbox { checked: !checked }, KeyAnswer::Checked(!checked))
        } else {
            (FocusedWidget::Checkbox { checked }, KeyAnswer::Nothing)
        },
        FocusedWidget::TextField { text, cursor } => match key {
            Key::ArrowLeft => {
                let c = previous_boundary(text.as_slice(), cursor);
                (FocusedWidget::TextField { text, cursor: c }, KeyAnswer::Nothing)
            },
            Key::ArrowRight => {
                let c = next_boundary(text.as_slice(), cursor);
                (FocusedWidget::TextField { text, cursor: c }, KeyAnswer::Nothing)
            },
            Key::Home => (FocusedWidget::TextField { text, cursor: 0 }, KeyAnswer::Nothing),
            Key::End => {
                let n = text.len();
                (FocusedWidget::TextField { text, cursor: n }, KeyAnswer::Nothing)
            },
            Key::Backspace => {
                let p = previous_boundary(text.as_slice(), cursor);
                if p < cursor {
                    let t = cut(&text, p, cursor);
                    (FocusedWidget::TextField { text: t, cursor: p }, KeyAnswer::TextChanged)
                } else {
                    (FocusedWidget::TextField { text, cursor }, KeyAnswer::Nothing)
                }
            },
            Key::Delete => {
                let q = next_boundary(text.as_slice(), cursor);
                proof {
                    lemma_boundary_after_within(text@, cursor as int);
                }
                if q > cursor {
                    let t = cut(&text, cursor, q);
                    (FocusedWidget::TextField { text: t, cursor }, KeyAnswer::TextChanged)
                } else {
                    (FocusedWidget::TextField { text, cursor }, KeyAnswer::Nothing)
                }
            },
            Key::Enter => (FocusedWidget::TextField { text, cursor }, KeyAnswer::Submitted),
            _ => (FocusedWidget::TextField { text, cursor }, KeyAnswer::Nothing),
        },
        FocusedWidget::List { len, selected } => if len > 0 && key == Key::ArrowDown {
            let i: usize = match selected {
                Some(v) => if v < len - 1 && v + 1 < len - 1 {
                    v + 1
                } else {
                    len - 1
                },
                None => 0,
            };
            (FocusedWidget::List { len, selected: Some(i) }, KeyAnswer::ListSelected(i))
        } else if len > 0 && key == Key::ArrowUp {
            let i: usize = match selected {
                Some(v) => if v == 0 {
                    0
                } else {
                    v - 1
                },
                None => 0,
            };
            (FocusedWidget::List { len, selected: Some(i) }, KeyAnswer::ListSelected(i))
        } else {
            (FocusedWidget::List { len, selected }, KeyAnswer::Nothing)
        },
        FocusedWidget::Tabs { len, active } => if len > 0 && key == Key::ArrowRight {
            let rest = active % len;
            let a: usize = if rest + 1 == len {
                0
            } else {
                rest + 1
            };
            proof {
                lemma_add_mod_noop(active as int, 1, len as int);
                if len > 1 {
                    lemma_small_mod(1, len as nat);
                } else {
                    lemma_mod_self_0(1);
                }
                if rest + 1 < len {
                    lemma_small_mod((rest + 1) as nat, len as nat);
                } else {
                    lemma_mod_self_0(len as int);
                }
            }
            (FocusedWidget::Tabs { len, active: a }, KeyAnswer::TabChanged(a))
        } else if len > 0 && key == Key::ArrowLeft {
            let a: usize = if active == 0 {
                len - 1
            } else {
                active - 1
            };
            (FocusedWidget::Tabs { len, active: a }, KeyAnswer::TabChanged(a))
        } else {
            (FocusedWidget::Tabs { len, active }, KeyAnswer::Nothing)
        },
        FocusedWidget::Popup { open } => if open && key == Key::Escape {
            (FocusedWidget::Popup { open: false }, KeyAnswer::PopupDismissed)
        } else {
            (FocusedWidget::Popup { open }, KeyAnswer::Nothing)
        },
        FocusedWidget::Other => (FocusedWidget::Other, KeyAnswer::Nothing),
    }
}

/// Whether typed text can go in without slicing a text field off a
/// character boundary, and fits in memory.
pub open spec fn typing_defined(w: FocusedWidget, inserted: Seq<u8>) -> bool {
    w matches FocusedWidget::TextField { text, cursor } ==> char_boundary(text@, clamped(text@, cursor as int))
        && text@.len() + inserted.len() <= usize::MAX
}

/// Types text into the focused widget: a text field takes it in at its
/// cursor, counted as at the end when past it, and moves the cursor after
/// it; any other widget ignores it.
pub fn type_text(widget: FocusedWidget, inserted: &[u8]) -> (r: (FocusedWidget, KeyAnswer))
    requires
        typing_defined(widget, inserted@),
    ensures
        match widget {
            FocusedWidget::TextField { text, cursor } => {
                let c = clamped(text@, cursor as int);
                field_is(r.0, text@.take(c) + inserted@ + text@.skip(c), c + inserted@.len())
                    && r.1 == KeyAnswer::TextChanged
            },
            _ => r.0 == widget && r.1 == KeyAnswer::Nothing,
        },
{
    match widget {
        FocusedWidget::TextField { text, cursor } => {
            let c = if cursor < text.len() {
                cursor
            } else {
                text.len()
            };
            let t = splice(&text, c, inserted);
            (FocusedWidget::TextField { text: t, cursor: c + inserted.len() }, KeyAnswer::TextChanged)
        },
        other => (other, KeyAnswer::Nothing),
    }
}

} // verus!
