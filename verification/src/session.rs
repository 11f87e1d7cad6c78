//! The event loop's decisions.
//!
//! A running application shows one of its screens. Its variables start
//! with the VALUEs of the WORKING-STORAGE fields. Each event from the front
//! end is handled in turn: QUIT ends the run; INPUT edits a variable (a
//! backspace character removes the last character, anything else is
//! appended, but never beyond the places of the PIC clause of a state
//! field); CLICK performs a paragraph; NAVIGATE shows the first screen
//! of the given name; anything else changes nothing. After every event
//! other than QUIT the current screen is drawn again.
use crate::interp::{execute_paragraph, lemma_vars_insert, run_paragraph, var, vars_of, Outcome, Reply, Request, SpecRequest, Vars};
use crate::ir::{CobaltApp, EventRecord, RuntimeState, Screen, StateField, StateMap};
use crate::keys::{backspace_text, event_view, SpecEvent};
use crate::table::Table;
use crate::text::{chars_of, push_str, string_of};
use vstd::prelude::*;

verus! {

/// Makes `std::io::Error` usable in the library's types; nothing inside a
/// value of it is visible to the proofs.
#[verifier::external_type_specification]
#[verifier::external_body]
pub struct ExIoError(std::io::Error);

/// Why a front end failed.
#[derive(Debug)]
pub enum RenderError {
    InitFailed(String),
    RenderFailed(String),
    Io(std::io::Error),
}

/// The text a state field starts with: its VALUE, or the empty string.
pub open spec fn start_text(f: StateField) -> Seq<char> {
    match f.default_value {
        Some(d) => d@,
        None => seq![],
    }
}

/// The variables at the start of a run: every state field, holding its
/// starting text.
pub open spec fn initial_vars(defs: StateMap) -> Vars {
    defs@.map_values(|f: StateField| start_text(f))
}

/// The runtime state at the start of a run.
pub fn initial_state(app: &CobaltApp) -> (r: RuntimeState)
    ensures
        vars_of(r) == initial_vars(app.state),
{
    let defs = &app.state;
    defs.check_well_formed();
    let n = defs.len();
    let mut st: RuntimeState = Table::new();
    assert(vars_of(st) =~= Map::<Seq<char>, Seq<char>>::empty());
    let mut i: usize = 0;
    while i < n
        invariant
            n == defs.size(),
            defs.well_formed(),
            i <= n,
            vars_of(st) == Map::new(
                |k: Seq<char>| defs.keys().take(i as int).contains(k),
                |k: Seq<char>| start_text(defs.at(k)),
            ),
        decreases n - i,
    {
        let key = defs.key_at(i);
        let field = defs.value_at(i);
        let text = match &field.default_value {
            Some(d) => d.clone(),
            None => String::new(),
        };
        let ghost before = st;
        proof { defs.lemma_position(i as int); }
        st.insert(key.clone(), text);
        proof {
            lemma_vars_insert(before, st, *key, text);
            let t = defs.keys().take(i as int);
            let t1 = defs.keys().take(i + 1);
            assert(t1 =~= t.push(key@));
            assert forall|k: Seq<char>| #[trigger] t1.contains(k) == (t.contains(k) || k == key@) by {
                if t.contains(k) {
                    let j = choose|j: int| 0 <= j < t.len() && t[j] == k;
                    assert(t1[j] == k);
                }
                if k == key@ {
                    assert(t1[i as int] == k);
                }
                if t1.contains(k) {
                    let j = choose|j: int| 0 <= j < t1.len() && t1[j] == k;
                    if j < i {
                        assert(t[j] == k);
                    }
                }
            }
            assert(vars_of(st) =~= Map::new(
                |k: Seq<char>| defs.keys().take(i + 1).contains(k),
                |k: Seq<char>| start_text(defs.at(k)),
            ));
        }
        i = i + 1;
    }
    assert(defs.keys().take(n as int) =~= defs.keys());
    assert(vars_of(st) =~= initial_vars(app.state));
    st
}

/// What the event loop does next.
#[derive(Debug)]
pub enum Step {
    /// End the run.
    Quit,
    /// Draw this screen; when `refocus`, first rebuild the focus for it.
    Show { screen: usize, refocus: bool },
    /// Outside work is needed: answer the request and handle the same
    /// event again, from the same state, with one more reply.
    Ask(Request),
}

/// The model of a step, with the variables it leaves.
pub enum SpecStep {
    Quit,
    Show { screen: nat, refocus: bool, vars: Vars },
    Ask { request: SpecRequest },
}

/// The value of a variable after an INPUT of `payload`: a backspace
/// character removes the last character, anything else is appended.
pub open spec fn edited(current: Seq<char>, payload: Seq<char>) -> Seq<char> {
    if payload == backspace_text() {
        if current.len() == 0 {
            current
        } else {
            current.drop_last()
        }
    } else {
        current + payload
    }
}

/// How many characters a state field holds: the places of its PIC clause
/// (a decimal field's places after the point included).
pub open spec fn capacity(f: StateField) -> int {
    f.pic.width + match f.pic.decimals {
        Some(d) => d as int,
        None => 0int,
    }
}

/// Whether an INPUT of `payload` into the variable `target`, whose value is
/// `current`, is taken: a backspace always is; anything else is refused
/// when it would make the value of a state field longer than the field's
/// capacity.
pub open spec fn input_fits(
    defs: StateMap,
    target: Seq<char>,
    current: Seq<char>,
    payload: Seq<char>,
) -> bool {
    payload == backspace_text() || !defs@.contains_key(target) || current.len() + payload.len()
        <= capacity(defs@[target])
}

/// The position of the first screen named `name`.
pub open spec fn first_screen(screens: Seq<Screen>, name: Seq<char>) -> Option<nat>
    decreases screens.len(),
{
    if screens.len() == 0 {
        None
    } else {
        match first_screen(screens.drop_last(), name) {
            Some(i) => Some(i),
            None => if screens.last().name@ == name {
                Some((screens.len() - 1) as nat)
            } else {
                None
            },
        }
    }
}

/// What an event does, from the variables `vars` on screen `screen`, with
/// `rs` answering the requests of a performed paragraph.
pub open spec fn step_of(
    app: CobaltApp,
    screen: nat,
    vars: Vars,
    e: SpecEvent,
    rs: Seq<Reply>,
) -> SpecStep {
    if e.event_type == "QUIT"@ {
        SpecStep::Quit
    } else if e.event_type == "INPUT"@ && e.target.len() > 0 {
        SpecStep::Show {
            screen,
            refocus: false,
            vars: if input_fits(app.state, e.target, var(vars, e.target), e.payload) {
                vars.insert(e.target, edited(var(vars, e.target), e.payload))
            } else {
                vars
            },
        }
    } else if e.event_type == "CLICK"@ && e.payload.len() > 0 {
        match run_paragraph(e.payload, app.paragraphs, app.state, vars, 0, rs, 0) {
            Outcome::Done { vars: after, .. } => SpecStep::Show {
                screen,
                refocus: false,
                vars: after,
            },
            Outcome::Pending { request } => SpecStep::Ask { request },
        }
    } else if e.event_type == "NAVIGATE"@ {
        match first_screen(app.screens@, e.payload) {
            Some(i) => SpecStep::Show { screen: i, refocus: true, vars },
            None => SpecStep::Show { screen, refocus: false, vars },
        }
    } else {
        SpecStep::Show { screen, refocus: false, vars }
    }
}

fn text_is(s: &String, lit: &str) -> (b: bool)
    ensures
        b == (s@ == lit@),
{
    *s == String::from_str(lit)
}

/// The position of the first screen named `name`.
fn find_screen(screens: &Vec<Screen>, name: &String) -> (r: Option<usize>)
    ensures
        match first_screen(screens@, name@) {
            Some(i) => r == Some(i as usize),
            None => r is None,
        },
{
    let mut i: usize = 0;
    while i < screens.len()
        invariant
            i <= screens.len(),
            first_screen(screens@.take(i as int), name@) is None,
        decreases screens.len() - i,
    {
        assert(screens@.take(i + 1).drop_last() =~= screens@.take(i as int));
        if screens[i].name == *name {
            assert(first_screen(screens@.take(i + 1), name@) == Some(i as nat));
            proof { lemma_first_screen_prefix(screens@, (i + 1) as nat, name@); }
            return Some(i);
        }
        i = i + 1;
    }
    assert(screens@.take(screens.len() as int) =~= screens@);
    None
}

/// A screen found in a prefix is the first in the whole sequence.
proof fn lemma_first_screen_prefix(ss: Seq<Screen>, n: nat, name: Seq<char>)
    requires
        n <= ss.len(),
        first_screen(ss.take(n as int), name) is Some,
    ensures
        first_screen(ss, name) == first_screen(ss.take(n as int), name),
    decreases ss.len() - n,
{
    if n == ss.len() {
        assert(ss.take(n as int) =~= ss);
    } else {
        assert(ss.take((n + 1) as int).drop_last() =~= ss.take(n as int));
        lemma_first_screen_prefix(ss, n + 1, name);
    }
}

/// The value of `current` after an INPUT of `payload`.
fn edit_value(current: String, payload: &String) -> (r: String)
    ensures
        r@ == edited(current@, payload@),
{
    let mut bs = String::new();
    crate::text::push_char(&mut bs, '\x08');
    assert(bs@ =~= backspace_text());
    if *payload == bs {
        let cs = chars_of(current.as_str());
        if cs.len() == 0 {
            current
        } else {
            let r = string_of(&cs, 0, cs.len() - 1);
            assert(r@ =~= current@.drop_last());
            r
        }
    } else {
        let mut r = current;
        push_str(&mut r, payload.as_str());
        r
    }
}

/// Handles one event on screen `screen` and says what to do next.
///
/// A CLICK performs its paragraph with `replies` answering its requests
/// for outside work; when a request has no reply, the state is left as it
/// was and the request is returned in `Step::Ask`.
pub fn handle_event(
    app: &CobaltApp,
    screen: usize,
    state: &mut RuntimeState,
    event: &EventRecord,
    replies: &Vec<Reply>,
) -> (r: Step)
    ensures
        match step_of(*app, screen as nat, vars_of(*old(state)), event_view(*event), replies@) {
            SpecStep::Quit => r is Quit && vars_of(*final(state)) == vars_of(*old(state)),
            SpecStep::Show { screen: s, refocus, vars } => r == Step::Show {
                screen: s as usize,
                refocus,
            } && vars_of(*final(state)) == vars,
            SpecStep::Ask { request } => r matches Step::Ask(q) && q@ == request && vars_of(
                *final(state),
            ) == vars_of(*old(state)),
        },
{
    if text_is(&event.event_type, "QUIT") {
        return Step::Quit;
    }
    if text_is(&event.event_type, "INPUT") && event.target.as_str().unicode_len() > 0 {
        let current = match state.get(event.target.as_str()) {
            Some(v) => v.clone(),
            None => String::new(),
        };
        let mut bs = String::new();
        crate::text::push_char(&mut bs, '\x08');
        assert(bs@ =~= backspace_text());
        let fits = if event.payload == bs {
            true
        } else {
            match app.state.get(event.target.as_str()) {
                None => true,
                Some(field) => {
                    let extra: usize = match field.pic.decimals {
                        Some(d) => d,
                        None => 0,
                    };
                    let need = current.as_str().unicode_len() as u128
                        + event.payload.as_str().unicode_len() as u128;
                    need <= field.pic.width as u128 + extra as u128
                },
            }
        };
        if !fits {
            return Step::Show { screen, refocus: false };
        }
        let v = edit_value(current, &event.payload);
        let ghost before = *state;
        state.insert(event.target.clone(), v);
        proof { lemma_vars_insert(before, *state, event.target, v); }
        return Step::Show { screen, refocus: false };
    }
    if text_is(&event.event_type, "CLICK") && event.payload.as_str().unicode_len() > 0 {
        match execute_paragraph(
            event.payload.as_str(),
            &app.paragraphs,
            &app.state,
            state,
            0,
            replies,
        ) {
            Some(q) => {
                return Step::Ask(q);
            },
            None => {
                return Step::Show { screen, refocus: false };
            },
        }
    }
    if text_is(&event.event_type, "NAVIGATE") {
        match find_screen(&app.screens, &event.payload) {
            Some(i) => {
                return Step::Show { screen: i, refocus: true };
            },
            None => {
                return Step::Show { screen, refocus: false };
            },
        }
    }
    Step::Show { screen, refocus: false }
}

/// Typing a character into a variable and then erasing it with a
/// backspace leaves the variables as they were.
pub proof fn lemma_type_then_erase(
    app: CobaltApp,
    screen: nat,
    vars: Vars,
    target: Seq<char>,
    c: char,
    rs: Seq<Reply>,
)
    requires
        target.len() > 0,
        vars.contains_key(target),
        c != '\x08',
        input_fits(app.state, target, var(vars, target), seq![c]),
    ensures
        ({
            let typed = step_of(
                app,
                screen,
                vars,
                SpecEvent { event_type: "INPUT"@, target, payload: seq![c] },
                rs,
            );
            let erase = SpecEvent { event_type: "INPUT"@, target, payload: backspace_text() };
            &&& typed matches SpecStep::Show { vars: after, .. }
            &&& step_of(app, screen, after, erase, rs) == (SpecStep::Show {
                screen,
                refocus: false,
                vars,
            })
        }),
{
    reveal_strlit("QUIT");
    reveal_strlit("INPUT");
    assert(seq![c] != backspace_text()) by {
        assert(seq![c][0] != backspace_text()[0]);
    }
    assert("INPUT"@ != "QUIT"@) by {
        assert("INPUT"@.len() != "QUIT"@.len());
    }
    let typed_value = var(vars, target) + seq![c];
    assert(edited(var(vars, target), seq![c]) == typed_value);
    let after = vars.insert(target, typed_value);
    let typed = step_of(
        app,
        screen,
        vars,
        SpecEvent { event_type: "INPUT"@, target, payload: seq![c] },
        rs,
    );
    assert(typed == (SpecStep::Show { screen, refocus: false, vars: after }));
    assert(var(after, target) == typed_value);
    assert(typed_value.last() == c);
    assert(input_fits(app.state, target, var(after, target), backspace_text()));
    assert(typed_value.drop_last() =~= var(vars, target));
    assert(after.insert(target, var(vars, target)) =~= vars);
}

/// The first screen of a name is a screen of that name.
pub proof fn lemma_first_screen(screens: Seq<Screen>, name: Seq<char>)
    ensures
        first_screen(screens, name) matches Some(i) ==> i < screens.len() && screens[i as int].name@
            == name,
    decreases screens.len(),
{
    if screens.len() > 0 {
        lemma_first_screen(screens.drop_last(), name);
    }
}

/// The event loop always shows a screen of the application: from a screen
/// of the application, every event leads to a screen of the application.
pub proof fn lemma_screen_stays_valid(
    app: CobaltApp,
    screen: nat,
    vars: Vars,
    e: SpecEvent,
    rs: Seq<Reply>,
)
    requires
        screen < app.screens.len(),
    ensures
        step_of(app, screen, vars, e, rs) matches SpecStep::Show { screen: s, .. } ==> s
            < app.screens.len(),
{
    lemma_first_screen(app.screens@, e.payload);
}

/// An INPUT never makes the value of a state field longer than the field's
/// capacity: a value within its capacity stays within it.
pub proof fn lemma_input_within_capacity(
    app: CobaltApp,
    screen: nat,
    vars: Vars,
    e: SpecEvent,
    rs: Seq<Reply>,
    v: Seq<char>,
)
    requires
        e.event_type == "INPUT"@,
        app.state@.contains_key(v),
        var(vars, v).len() <= capacity(app.state@[v]),
    ensures
        step_of(app, screen, vars, e, rs) matches SpecStep::Show { vars: after, .. } && var(
            after,
            v,
        ).len() <= capacity(app.state@[v]),
{
    reveal_strlit("QUIT");
    reveal_strlit("INPUT");
    assert("INPUT"@ != "QUIT"@) by {
        assert("INPUT"@.len() != "QUIT"@.len());
    }
    reveal_strlit("CLICK");
    reveal_strlit("NAVIGATE");
    assert("INPUT"@ != "CLICK"@) by {
        assert("INPUT"@[0] != "CLICK"@[0]);
    }
    assert("INPUT"@ != "NAVIGATE"@) by {
        assert("INPUT"@.len() != "NAVIGATE"@.len());
    }
    if e.target.len() > 0 {
        let cur = var(vars, e.target);
        if input_fits(app.state, e.target, cur, e.payload) {
            let after = vars.insert(e.target, edited(cur, e.payload));
            assert(step_of(app, screen, vars, e, rs) == (SpecStep::Show {
                screen,
                refocus: false,
                vars: after,
            }));
            if e.target == v {
                assert(var(after, v) == edited(cur, e.payload));
                if e.payload == backspace_text() {
                    assert(edited(cur, e.payload).len() <= cur.len());
                }
            } else {
                assert(var(after, v) == var(vars, v));
            }
        } else {
            assert(step_of(app, screen, vars, e, rs) == (SpecStep::Show {
                screen,
                refocus: false,
                vars,
            }));
        }
    } else {
        assert(step_of(app, screen, vars, e, rs) == (SpecStep::Show {
            screen,
            refocus: false,
            vars,
        }));
    }
}

} // verus!
