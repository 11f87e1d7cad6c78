//! What the terminal front end reports for a key press.
//!
//! Esc quits; Tab and Shift-Tab move the focus; Enter activates the focused
//! button (navigating or performing its paragraph); a character or
//! Backspace edits the variable of the focused field. A numeric field takes
//! only ASCII digits, an alphabetic (`PIC A`) field only letters and spaces.
use crate::focus::{next_index, prev_index, FocusKind, FocusState, SpecFocusable};
use crate::ir::EventRecord;
use crate::text::push_char;
use vstd::prelude::*;

verus! {

/// Input from the terminal.
#[derive(Debug, Clone, Copy, PartialEq, Eq, Structural)]
pub enum Input {
    Esc,
    Tab,
    BackTab,
    Enter,
    Backspace,
    Char(char),
    /// Any other key.
    OtherKey,
    /// The terminal changed its size.
    Resize,
}

/// What an input amounts to.
#[derive(Debug)]
pub enum KeyOutcome {
    /// The application should end.
    Quit,
    /// An event for the event loop.
    Emit(EventRecord),
    /// Nothing: wait for the next input.
    Ignore,
}

/// The model of an event.
pub struct SpecEvent {
    pub event_type: Seq<char>,
    pub target: Seq<char>,
    pub payload: Seq<char>,
}

pub open spec fn event_view(e: EventRecord) -> SpecEvent {
    SpecEvent { event_type: e.event_type@, target: e.target@, payload: e.payload@ }
}

/// The model of an outcome.
pub enum SpecKeyOutcome {
    Quit,
    Emit(SpecEvent),
    Ignore,
}

pub open spec fn key_outcome_view(o: KeyOutcome) -> SpecKeyOutcome {
    match o {
        KeyOutcome::Quit => SpecKeyOutcome::Quit,
        KeyOutcome::Emit(e) => SpecKeyOutcome::Emit(event_view(e)),
        KeyOutcome::Ignore => SpecKeyOutcome::Ignore,
    }
}

/// The text of the character that Backspace sends.
pub open spec fn backspace_text() -> Seq<char> {
    seq!['\x08']
}

/// Whether a character is an ASCII digit.
pub open spec fn is_ascii_digit(c: char) -> bool {
    '0' <= c && c <= '9'
}

/// Whether a character may be typed into an alphabetic field: an ASCII
/// letter or a space.
pub open spec fn is_alphabetic_char(c: char) -> bool {
    ('a' <= c && c <= 'z') || ('A' <= c && c <= 'Z') || c == ' '
}

/// The focus position after an input.
pub open spec fn focus_after(input: Input, pos: nat, n: nat) -> nat {
    match input {
        Input::Tab => next_index(pos, n),
        Input::BackTab => prev_index(pos, n),
        _ => pos,
    }
}

/// The variable that input into an element edits: its binding, else its name.
pub open spec fn edited_variable(e: SpecFocusable) -> Seq<char> {
    match e.binding {
        Some(b) => b,
        None => e.name,
    }
}

/// An event of the given type with an empty payload.
pub open spec fn plain_event(kind: Seq<char>, target: Seq<char>) -> SpecEvent {
    SpecEvent { event_type: kind, target, payload: seq![] }
}

/// What an input amounts to, given the focusable elements and the focus
/// position after the input.
pub open spec fn key_outcome(items: Seq<SpecFocusable>, pos: nat, input: Input) -> SpecKeyOutcome {
    let focused = pos < items.len();
    match input {
        Input::Esc => SpecKeyOutcome::Quit,
        Input::Tab | Input::BackTab => SpecKeyOutcome::Emit(
            plain_event(
                "FOCUS"@,
                if focused {
                    items[pos as int].name
                } else {
                    seq![]
                },
            ),
        ),
        Input::Enter => if focused && items[pos as int].kind == FocusKind::Button {
            let e = items[pos as int];
            match e.navigate {
                Some(t) => SpecKeyOutcome::Emit(
                    SpecEvent { event_type: "NAVIGATE"@, target: e.name, payload: t },
                ),
                None => SpecKeyOutcome::Emit(
                    SpecEvent {
                        event_type: "CLICK"@,
                        target: e.name,
                        payload: match e.action {
                            Some(a) => a,
                            None => seq![],
                        },
                    },
                ),
            }
        } else {
            SpecKeyOutcome::Emit(plain_event("INPUT"@, seq![]))
        },
        Input::Char(c) => if !focused {
            SpecKeyOutcome::Ignore
        } else if items[pos as int].kind == FocusKind::NumericInput && !is_ascii_digit(c) {
            SpecKeyOutcome::Ignore
        } else if items[pos as int].kind == FocusKind::AlphabeticInput && !is_alphabetic_char(c) {
            SpecKeyOutcome::Ignore
        } else {
            SpecKeyOutcome::Emit(
                SpecEvent {
                    event_type: "INPUT"@,
                    target: edited_variable(items[pos as int]),
                    payload: seq![c],
                },
            )
        },
        Input::Backspace => if !focused {
            SpecKeyOutcome::Ignore
        } else {
            SpecKeyOutcome::Emit(
                SpecEvent {
                    event_type: "INPUT"@,
                    target: edited_variable(items[pos as int]),
                    payload: backspace_text(),
                },
            )
        },
        Input::OtherKey => SpecKeyOutcome::Ignore,
        Input::Resize => SpecKeyOutcome::Emit(plain_event("RESIZE"@, seq![])),
    }
}

fn event(kind: &str, target: String, payload: String) -> (r: EventRecord)
    ensures
        event_view(r) == (SpecEvent { event_type: kind@, target: target@, payload: payload@ }),
{
    EventRecord { event_type: String::from_str(kind), target, payload }
}

/// Handles an input: moves the focus for Tab and Shift-Tab, and says what
/// the input amounts to.
pub fn key_event(focus: &mut FocusState, input: Input) -> (r: KeyOutcome)
    ensures
        final(focus).items() == old(focus).items(),
        final(focus).pos() == focus_after(input, old(focus).pos(), old(focus).items().len()),
        key_outcome_view(r) == key_outcome(final(focus).items(), final(focus).pos(), input),
{
    match input {
        Input::Esc => KeyOutcome::Quit,
        Input::Tab | Input::BackTab => {
            if input == Input::Tab {
                focus.next();
            } else {
                focus.prev();
            }
            let target = match focus.current() {
                Some(e) => e.name.clone(),
                None => String::new(),
            };
            KeyOutcome::Emit(event("FOCUS", target, String::new()))
        },
        Input::Enter => {
            match focus.current() {
                Some(e) => {
                    if e.kind == FocusKind::Button {
                        match &e.navigate {
                            Some(t) => {
                                return KeyOutcome::Emit(
                                    event("NAVIGATE", e.name.clone(), t.clone()),
                                );
                            },
                            None => {},
                        }
                        let payload = match &e.action {
                            Some(a) => a.clone(),
                            None => String::new(),
                        };
                        return KeyOutcome::Emit(event("CLICK", e.name.clone(), payload));
                    }
                },
                None => {},
            }
            KeyOutcome::Emit(event("INPUT", String::new(), String::new()))
        },
        Input::Char(c) => {
            match focus.current() {
                Some(e) => {
                    let target = match &e.binding {
                        Some(b) => b.clone(),
                        None => e.name.clone(),
                    };
                    if e.kind == FocusKind::NumericInput && !('0' <= c && c <= '9') {
                        return KeyOutcome::Ignore;
                    }
                    if e.kind == FocusKind::AlphabeticInput && !(('a' <= c && c <= 'z') || ('A'
                        <= c && c <= 'Z') || c == ' ') {
                        return KeyOutcome::Ignore;
                    }
                    let mut payload = String::new();
                    push_char(&mut payload, c);
                    assert(payload@ =~= seq![c]);
                    KeyOutcome::Emit(event("INPUT", target, payload))
                },
                None => KeyOutcome::Ignore,
            }
        },
        Input::Backspace => {
            match focus.current() {
                Some(e) => {
                    let target = match &e.binding {
                        Some(b) => b.clone(),
                        None => e.name.clone(),
                    };
                    let mut payload = String::new();
                    push_char(&mut payload, '\x08');
                    assert(payload@ =~= backspace_text());
                    KeyOutcome::Emit(event("INPUT", target, payload))
                },
                None => KeyOutcome::Ignore,
            }
        },
        Input::OtherKey => KeyOutcome::Ignore,
        Input::Resize => KeyOutcome::Emit(event("RESIZE", String::new(), String::new())),
    }
}

/// Typing a character into the focused element: a text field takes any
/// character, a numeric field exactly the ASCII digits `0`-`9`, an
/// alphabetic field exactly the ASCII letters and the space, and a button
/// any character. What is taken becomes an INPUT of that one character to
/// the element's bound variable, or to its own name when it has none; the
/// focus does not move. With no element to focus, typing does nothing.
pub proof fn lemma_typing(items: Seq<SpecFocusable>, pos: nat, c: char)
    ensures
        focus_after(Input::Char(c), pos, items.len()) == pos,
        pos >= items.len() ==> key_outcome(items, pos, Input::Char(c)) is Ignore,
        pos < items.len() ==> {
            let e = items[pos as int];
            let taken = match e.kind {
                FocusKind::NumericInput => '0' <= c && c <= '9',
                FocusKind::AlphabeticInput => ('a' <= c && c <= 'z') || ('A' <= c && c <= 'Z') || c
                    == ' ',
                _ => true,
            };
            let target = match e.binding {
                Some(b) => b,
                None => e.name,
            };
            key_outcome(items, pos, Input::Char(c)) == if taken {
                SpecKeyOutcome::Emit(
                    SpecEvent { event_type: "INPUT"@, target, payload: seq![c] },
                )
            } else {
                SpecKeyOutcome::Ignore
            }
        },
{
}

/// Enter on a focused button goes to the button's screen when it has one,
/// and otherwise clicks it, carrying its paragraph (or nothing); Enter on
/// anything else is an INPUT with no target and no payload. The focus does
/// not move.
pub proof fn lemma_enter(items: Seq<SpecFocusable>, pos: nat)
    ensures
        focus_after(Input::Enter, pos, items.len()) == pos,
        ({
            let o = key_outcome(items, pos, Input::Enter);
            if pos < items.len() && items[pos as int].kind == FocusKind::Button {
                let e = items[pos as int];
                match e.navigate {
                    Some(screen) => o == SpecKeyOutcome::Emit(
                        SpecEvent { event_type: "NAVIGATE"@, target: e.name, payload: screen },
                    ),
                    None => o matches SpecKeyOutcome::Emit(ev) && ev.event_type == "CLICK"@
                        && ev.target == e.name && (e.action matches Some(a) ==> ev.payload == a)
                        && (e.action is None ==> ev.payload.len() == 0),
                }
            } else {
                o matches SpecKeyOutcome::Emit(ev) && ev.event_type == "INPUT"@ && ev.target.len()
                    == 0 && ev.payload.len() == 0
            }
        }),
{
}

/// Esc always quits, whatever has the focus; Tab and Shift-Tab report the
/// newly focused element.
pub proof fn lemma_esc_and_tab(items: Seq<SpecFocusable>, pos: nat)
    requires
        pos < items.len(),
    ensures
        key_outcome(items, pos, Input::Esc) is Quit,
        key_outcome(items, pos, Input::Tab) matches SpecKeyOutcome::Emit(ev) && ev.event_type
            == "FOCUS"@ && ev.target == items[pos as int].name,
{
}

} // verus!
