use cobalt::focus::{collect_focusable, FocusKind, FocusState, FocusableElement};
use cobalt::interp::{Operand, Reply, Request};
use cobalt::ir::{ArithOp, CobaltApp, EventRecord, Node, PicClause, PicKind, RuntimeState, Screen, Style};
use cobalt::keys::{key_event, Input, KeyOutcome};
use cobalt::parser::parse;
use cobalt::session::{handle_event, initial_state, Step};
use cobalt::view::{map_color, node_look, Color, Emphasis, Extent, Look};

fn pic(kind: PicKind, width: usize) -> PicClause {
    PicClause {
        kind,
        width,
        decimals: None,
    }
}

fn form() -> Node {
    Node::Container {
        name: "FORM".to_string(),
        children: vec![
            Node::Text {
                name: "NAME-IN".to_string(),
                pic: pic(PicKind::Alphanumeric, 8),
                value: None,
                binding: Some("USER-NAME".to_string()),
                style: Style::default(),
            },
            Node::Container {
                name: "ROW".to_string(),
                children: vec![
                    Node::Numeric {
                        name: "AGE".to_string(),
                        pic: pic(PicKind::Numeric, 3),
                        value: Some("7".to_string()),
                        binding: None,
                        style: Style {
                            fg_color: Some(6),
                            bg_color: Some(9),
                        },
                    },
                    Node::Button {
                        name: "GO-BTN".to_string(),
                        label: "GO".to_string(),
                        action: Some("HANDLE-GO".to_string()),
                        navigate: None,
                        style: Style::default(),
                    },
                ],
                style: Style::default(),
            },
            Node::Button {
                name: "NEXT-BTN".to_string(),
                label: "NEXT".to_string(),
                action: None,
                navigate: Some("OTHER".to_string()),
                style: Style::default(),
            },
        ],
        style: Style {
            fg_color: Some(1),
            bg_color: None,
        },
    }
}

fn names(elements: &[FocusableElement]) -> Vec<String> {
    elements.iter().map(|e| e.name.clone()).collect()
}

fn event(kind: &str, target: &str, payload: &str) -> EventRecord {
    EventRecord {
        event_type: kind.to_string(),
        target: target.to_string(),
        payload: payload.to_string(),
    }
}

// ---------------------------------------------------------------------------
// Focus
// ---------------------------------------------------------------------------

#[test]
fn collect_focusable_in_depth_first_order() {
    let mut elements = Vec::new();
    collect_focusable(&form(), &mut elements);
    assert_eq!(names(&elements), vec!["NAME-IN", "AGE", "GO-BTN", "NEXT-BTN"]);
    assert!(elements[0].kind == FocusKind::TextInput);
    assert_eq!(elements[0].binding.as_deref(), Some("USER-NAME"));
    assert!(elements[1].kind == FocusKind::NumericInput);
    assert!(elements[2].kind == FocusKind::Button);
    assert_eq!(elements[2].action.as_deref(), Some("HANDLE-GO"));
    assert_eq!(elements[3].navigate.as_deref(), Some("OTHER"));
}

#[test]
fn collect_focusable_appends() {
    let mut elements = Vec::new();
    collect_focusable(&form(), &mut elements);
    collect_focusable(&form(), &mut elements);
    assert_eq!(elements.len(), 8);
    assert_eq!(elements[4].name, "NAME-IN");
}

#[test]
fn focus_new_is_empty() {
    let mut f = FocusState::new();
    assert!(f.current().is_none());
    assert_eq!(f.position(), 0);
    f.next();
    f.prev();
    assert_eq!(f.position(), 0);
    assert!(f.current().is_none());
}

#[test]
fn focus_wraps_both_ways() {
    let mut f = FocusState::for_root(&form());
    assert_eq!(f.current().unwrap().name, "NAME-IN");
    f.prev();
    assert_eq!(f.position(), 3);
    assert_eq!(f.current().unwrap().name, "NEXT-BTN");
    f.next();
    assert_eq!(f.position(), 0);
    f.next();
    f.next();
    assert_eq!(f.current().unwrap().name, "GO-BTN");
}

#[test]
fn focus_next_then_prev_returns() {
    let mut f = FocusState::for_root(&form());
    for _ in 0..4 {
        let before = f.position();
        f.next();
        f.prev();
        assert_eq!(f.position(), before);
        f.prev();
        f.next();
        assert_eq!(f.position(), before);
        f.next();
    }
}

// ---------------------------------------------------------------------------
// Keys
// ---------------------------------------------------------------------------

fn emitted(o: KeyOutcome) -> EventRecord {
    match o {
        KeyOutcome::Emit(e) => e,
        other => panic!("expected an event, got {:?}", other),
    }
}

#[test]
fn esc_quits_and_other_keys_are_ignored() {
    let mut f = FocusState::for_root(&form());
    assert!(matches!(key_event(&mut f, Input::Esc), KeyOutcome::Quit));
    assert!(matches!(key_event(&mut f, Input::OtherKey), KeyOutcome::Ignore));
    let e = emitted(key_event(&mut f, Input::Resize));
    assert_eq!(e.event_type, "RESIZE");
    assert_eq!(e.target, "");
}

#[test]
fn tab_moves_focus_and_reports_it() {
    let mut f = FocusState::for_root(&form());
    let e = emitted(key_event(&mut f, Input::Tab));
    assert_eq!(e.event_type, "FOCUS");
    assert_eq!(e.target, "AGE");
    let e = emitted(key_event(&mut f, Input::BackTab));
    assert_eq!(e.target, "NAME-IN");
    let e = emitted(key_event(&mut f, Input::BackTab));
    assert_eq!(e.target, "NEXT-BTN");
    let mut empty = FocusState::new();
    let e = emitted(key_event(&mut empty, Input::Tab));
    assert_eq!(e.event_type, "FOCUS");
    assert_eq!(e.target, "");
}

#[test]
fn typing_goes_to_the_binding() {
    let mut f = FocusState::for_root(&form());
    let e = emitted(key_event(&mut f, Input::Char('a')));
    assert_eq!(e.event_type, "INPUT");
    assert_eq!(e.target, "USER-NAME");
    assert_eq!(e.payload, "a");
    let e = emitted(key_event(&mut f, Input::Backspace));
    assert_eq!(e.target, "USER-NAME");
    assert_eq!(e.payload, "\x08");
}

#[test]
fn numeric_field_takes_digits_only() {
    let mut f = FocusState::for_root(&form());
    key_event(&mut f, Input::Tab);
    assert!(matches!(key_event(&mut f, Input::Char('x')), KeyOutcome::Ignore));
    let e = emitted(key_event(&mut f, Input::Char('4')));
    // An unbound field edits the variable of its own name.
    assert_eq!(e.target, "AGE");
    assert_eq!(e.payload, "4");
}

#[test]
fn enter_activates_buttons() {
    let mut f = FocusState::for_root(&form());
    let e = emitted(key_event(&mut f, Input::Enter));
    assert_eq!(e.event_type, "INPUT");
    assert_eq!(e.target, "");
    assert_eq!(e.payload, "");
    key_event(&mut f, Input::Tab);
    key_event(&mut f, Input::Tab);
    let e = emitted(key_event(&mut f, Input::Enter));
    assert_eq!(e.event_type, "CLICK");
    assert_eq!(e.target, "GO-BTN");
    assert_eq!(e.payload, "HANDLE-GO");
    key_event(&mut f, Input::Tab);
    let e = emitted(key_event(&mut f, Input::Enter));
    assert_eq!(e.event_type, "NAVIGATE");
    assert_eq!(e.target, "NEXT-BTN");
    assert_eq!(e.payload, "OTHER");
}

#[test]
fn keys_without_focus_are_ignored() {
    let mut f = FocusState::new();
    assert!(matches!(key_event(&mut f, Input::Char('a')), KeyOutcome::Ignore));
    assert!(matches!(key_event(&mut f, Input::Backspace), KeyOutcome::Ignore));
}

// ---------------------------------------------------------------------------
// Looks
// ---------------------------------------------------------------------------

#[test]
fn colours_of_palette_indices() {
    assert_eq!(map_color(Some(0)), Color::Black);
    assert_eq!(map_color(Some(1)), Color::Blue);
    assert_eq!(map_color(Some(2)), Color::White);
    assert_eq!(map_color(Some(3)), Color::Gray);
    assert_eq!(map_color(Some(4)), Color::DarkGray);
    assert_eq!(map_color(Some(5)), Color::Cyan);
    assert_eq!(map_color(Some(6)), Color::Green);
    assert_eq!(map_color(Some(7)), Color::Red);
    assert_eq!(map_color(Some(8)), Color::Reset);
    assert_eq!(map_color(None), Color::Reset);
}

fn line_of(l: Look) -> (String, Color, Color, Emphasis) {
    match l {
        Look::Line {
            text,
            fg,
            bg,
            emphasis,
        } => (text, fg, bg, emphasis),
        other => panic!("expected a line, got {:?}", other),
    }
}

#[test]
fn container_is_a_titled_frame() {
    let state = RuntimeState::new();
    let f = FocusState::new();
    match node_look(&form(), &state, &f) {
        Look::Frame {
            title,
            border,
            background,
            rows,
        } => {
            assert_eq!(title, " FORM ");
            assert_eq!(border, Color::Blue);
            assert_eq!(background, Color::Reset);
            assert_eq!(rows, vec![Extent::Length(1), Extent::Min(3), Extent::Length(1)]);
        }
        other => panic!("expected a frame, got {:?}", other),
    }
}

#[test]
fn fields_show_padded_values_and_focus() {
    let root = form();
    let children = match &root {
        Node::Container { children, .. } => children,
        _ => unreachable!(),
    };
    let row = match &children[1] {
        Node::Container { children, .. } => children,
        _ => unreachable!(),
    };
    let mut state = RuntimeState::new();
    state.insert("USER-NAME".to_string(), "Ann".to_string());
    let f = FocusState::for_root(&root);

    let (text, _, _, emphasis) = line_of(node_look(&children[0], &state, &f));
    assert_eq!(text, "NAME-IN: [Ann     ] <");
    assert_eq!(emphasis, Emphasis::Reversed);

    let (text, fg, bg, emphasis) = line_of(node_look(&row[0], &state, &f));
    assert_eq!(text, "AGE: [  7]");
    assert_eq!(fg, Color::Green);
    assert_eq!(bg, Color::Reset);
    assert_eq!(emphasis, Emphasis::Plain);

    let (text, _, _, emphasis) = line_of(node_look(&row[1], &state, &f));
    assert_eq!(text, "[ GO ]");
    assert_eq!(emphasis, Emphasis::Plain);

    let mut g = FocusState::for_root(&root);
    g.next();
    g.next();
    let (text, _, _, emphasis) = line_of(node_look(&row[1], &state, &g));
    assert_eq!(text, "[ GO ] <");
    assert_eq!(emphasis, Emphasis::BoldReversed);
}

#[test]
fn unbound_defaults() {
    let state = RuntimeState::new();
    let f = FocusState::new();
    let text_node = Node::Text {
        name: "T".to_string(),
        pic: pic(PicKind::Alphanumeric, 2),
        value: None,
        binding: Some("MISSING".to_string()),
        style: Style::default(),
    };
    let (text, _, _, _) = line_of(node_look(&text_node, &state, &f));
    assert_eq!(text, "T: [  ]");
    let num_node = Node::Numeric {
        name: "N".to_string(),
        pic: pic(PicKind::Numeric, 1),
        value: None,
        binding: None,
        style: Style::default(),
    };
    let (text, _, _, _) = line_of(node_look(&num_node, &state, &f));
    assert_eq!(text, "N: [0]");
    let long = Node::Text {
        name: "L".to_string(),
        pic: pic(PicKind::Alphanumeric, 2),
        value: Some("LONGER".to_string()),
        binding: None,
        style: Style::default(),
    };
    let (text, _, _, _) = line_of(node_look(&long, &state, &f));
    assert_eq!(text, "L: [LONGER]");
}

// ---------------------------------------------------------------------------
// Event loop
// ---------------------------------------------------------------------------

fn counter_app() -> CobaltApp {
    parse(
        r#"
DATA DIVISION.
WORKING-STORAGE SECTION.
01 APP-STATE.
   05 COUNTER-VAL PIC 9(4) VALUE 0.
   05 USER-NAME PIC X(10).
SCREEN SECTION.
01 MAIN-SCREEN.
   05 CONTROLS.
      10 INC-BTN VALUE "+" ON-ACTION PERFORM HANDLE-INCREMENT.
01 OTHER-SCREEN.
   05 BACK-BTN VALUE "Back" GO-TO-SCREEN MAIN-SCREEN.
PROCEDURE DIVISION.
HANDLE-INCREMENT.
    ADD 1 TO COUNTER-VAL.
"#,
    )
    .expect("should parse")
}

#[test]
fn initial_state_takes_defaults() {
    let app = counter_app();
    let state = initial_state(&app);
    assert_eq!(state.len(), 2);
    assert_eq!(state.get("COUNTER-VAL").unwrap(), "0");
    assert_eq!(state.get("USER-NAME").unwrap(), "");
}

#[test]
fn input_appends_and_backspace_removes() {
    let app = counter_app();
    let mut state = initial_state(&app);
    let replies: Vec<Reply> = Vec::new();
    let s = handle_event(&app, 0, &mut state, &event("INPUT", "USER-NAME", "A"), &replies);
    assert!(matches!(s, Step::Show { screen: 0, refocus: false }));
    handle_event(&app, 0, &mut state, &event("INPUT", "USER-NAME", "b"), &replies);
    assert_eq!(state.get("USER-NAME").unwrap(), "Ab");
    handle_event(&app, 0, &mut state, &event("INPUT", "USER-NAME", "\x08"), &replies);
    assert_eq!(state.get("USER-NAME").unwrap(), "A");
    handle_event(&app, 0, &mut state, &event("INPUT", "USER-NAME", "\x08"), &replies);
    handle_event(&app, 0, &mut state, &event("INPUT", "USER-NAME", "\x08"), &replies);
    assert_eq!(state.get("USER-NAME").unwrap(), "");
    // An empty target changes nothing.
    handle_event(&app, 0, &mut state, &event("INPUT", "", "z"), &replies);
    assert_eq!(state.len(), 2);
}

#[test]
fn typing_then_erasing_restores_the_value() {
    let app = counter_app();
    let mut state = initial_state(&app);
    state.insert("USER-NAME".to_string(), "Jo".to_string());
    let replies: Vec<Reply> = Vec::new();
    handle_event(&app, 0, &mut state, &event("INPUT", "USER-NAME", "x"), &replies);
    handle_event(&app, 0, &mut state, &event("INPUT", "USER-NAME", "\x08"), &replies);
    assert_eq!(state.get("USER-NAME").unwrap(), "Jo");
}

#[test]
fn click_asks_then_runs() {
    let app = counter_app();
    let mut state = initial_state(&app);
    let click = event("CLICK", "INC-BTN", "HANDLE-INCREMENT");
    let mut replies: Vec<Reply> = Vec::new();
    let s = handle_event(&app, 0, &mut state, &click, &replies);
    assert!(matches!(s, Step::Ask(_)));
    assert_eq!(state.get("COUNTER-VAL").unwrap(), "0");
    replies.push(Reply::Update(Some("1".to_string())));
    let s = handle_event(&app, 0, &mut state, &click, &replies);
    assert!(matches!(s, Step::Show { screen: 0, refocus: false }));
    assert_eq!(state.get("COUNTER-VAL").unwrap(), "1");
}

#[test]
fn navigate_quit_and_others() {
    let app = counter_app();
    let mut state = initial_state(&app);
    let replies: Vec<Reply> = Vec::new();
    let s = handle_event(&app, 0, &mut state, &event("NAVIGATE", "X", "OTHER-SCREEN"), &replies);
    assert!(matches!(s, Step::Show { screen: 1, refocus: true }));
    let s = handle_event(&app, 1, &mut state, &event("NAVIGATE", "X", "NOWHERE"), &replies);
    assert!(matches!(s, Step::Show { screen: 1, refocus: false }));
    let s = handle_event(&app, 1, &mut state, &event("FOCUS", "X", ""), &replies);
    assert!(matches!(s, Step::Show { screen: 1, refocus: false }));
    let s = handle_event(&app, 1, &mut state, &event("CLICK", "X", ""), &replies);
    assert!(matches!(s, Step::Show { screen: 1, refocus: false }));
    let s = handle_event(&app, 1, &mut state, &event("QUIT", "", ""), &replies);
    assert!(matches!(s, Step::Quit));
    assert_eq!(state.get("COUNTER-VAL").unwrap(), "0");
}

#[test]
fn screens_of_the_app() {
    let app = counter_app();
    let names: Vec<&str> = app.screens.iter().map(|s: &Screen| s.name.as_str()).collect();
    assert_eq!(names, vec!["MAIN-SCREEN", "OTHER-SCREEN"]);
}

const COUNTER: &str = r#"
       IDENTIFICATION DIVISION.
       PROGRAM-ID. COUNTER.

       DATA DIVISION.
       WORKING-STORAGE SECTION.
       01  APP-STATE.
           05  COUNTER-VAL    PIC 9(4) VALUE 0.
           05  STATUS-MSG     PIC X(60) VALUE "Ready".

       SCREEN SECTION.
       01  MAIN-SCREEN.
           05  HEADER.
               10  TITLE      PIC X(30) VALUE "Counter App".
           05  DISPLAY-AREA.
               10  COUNT-DISPLAY PIC 9(4) USING COUNTER-VAL.
           05  CONTROLS.
               10  INC-BTN    VALUE "+" ON-ACTION PERFORM HANDLE-INCREMENT.
               10  DEC-BTN    VALUE "-" ON-ACTION PERFORM HANDLE-DECREMENT.
               10  RESET-BTN  VALUE "Reset" ON-ACTION PERFORM HANDLE-RESET.
           05  STATUS-BAR.
               10  MSG-TEXT   PIC X(60) USING STATUS-MSG.

       PROCEDURE DIVISION.
       MAIN-LOOP.
           STOP RUN.

       HANDLE-INCREMENT.
           ADD 1 TO COUNTER-VAL.

       HANDLE-DECREMENT.
           SUBTRACT 1 FROM COUNTER-VAL.

       HANDLE-RESET.
           MOVE 0 TO COUNTER-VAL.
"#;

fn format_numeric(n: f64) -> String {
    if n == n.trunc() {
        format!("{}", n as i64)
    } else {
        format!("{}", n)
    }
}

/// Answers the requests of the counter's paragraphs.
fn answer(q: &Request) -> Reply {
    let num = |o: &Operand| match o {
        Operand::Number(s) | Operand::Text(s) => s.parse::<f64>().unwrap_or(0.0),
    };
    match q {
        Request::Render { number } => Reply::Text(format_numeric(number.parse::<f64>().unwrap())),
        Request::Arith { op, left, right } => {
            let (l, r) = (num(left), num(right));
            Reply::Update(Some(format_numeric(match op {
                ArithOp::Add => l + r,
                ArithOp::Subtract => l - r,
                ArithOp::Multiply => l * r,
                ArithOp::Divide => l / r,
            })))
        }
        other => panic!("unexpected request {:?}", other),
    }
}

/// Feeds one key to the front end and the event loop; returns false on quit.
fn press(app: &CobaltApp, f: &mut FocusState, state: &mut RuntimeState, screen: &mut usize, input: Input) -> bool {
    let e = match key_event(f, input) {
        KeyOutcome::Quit => return false,
        KeyOutcome::Ignore => return true,
        KeyOutcome::Emit(e) => e,
    };
    let mut replies: Vec<Reply> = Vec::new();
    loop {
        match handle_event(app, *screen, state, &e, &replies) {
            Step::Quit => return false,
            Step::Ask(q) => replies.push(answer(&q)),
            Step::Show { screen: s, refocus } => {
                *screen = s;
                if refocus {
                    *f = FocusState::for_root(&app.screens[s].root);
                }
                return true;
            }
        }
    }
}

#[test]
fn readme_counter_app_counts() {
    let app = parse(COUNTER).expect("should parse");
    let mut state = initial_state(&app);
    let mut f = FocusState::for_root(&app.screens[0].root);
    let mut screen = 0usize;
    // Focus order: TITLE, COUNT-DISPLAY, INC-BTN, DEC-BTN, RESET-BTN, MSG-TEXT.
    press(&app, &mut f, &mut state, &mut screen, Input::Tab);
    press(&app, &mut f, &mut state, &mut screen, Input::Tab);
    assert_eq!(f.current().unwrap().name, "INC-BTN");
    press(&app, &mut f, &mut state, &mut screen, Input::Enter);
    press(&app, &mut f, &mut state, &mut screen, Input::Enter);
    press(&app, &mut f, &mut state, &mut screen, Input::Enter);
    assert_eq!(state.get("COUNTER-VAL").unwrap(), "3");
    press(&app, &mut f, &mut state, &mut screen, Input::Tab);
    press(&app, &mut f, &mut state, &mut screen, Input::Enter);
    assert_eq!(state.get("COUNTER-VAL").unwrap(), "2");
    press(&app, &mut f, &mut state, &mut screen, Input::Tab);
    press(&app, &mut f, &mut state, &mut screen, Input::Enter);
    assert_eq!(state.get("COUNTER-VAL").unwrap(), "0");
    // The status message was never written.
    assert_eq!(state.get("STATUS-MSG").unwrap(), "READY");
    assert!(!press(&app, &mut f, &mut state, &mut screen, Input::Esc));
}

#[test]
fn input_stops_at_the_field_capacity() {
    let app = counter_app();
    let mut state = initial_state(&app);
    let replies: Vec<Reply> = Vec::new();
    // USER-NAME is PIC X(10).
    for c in "ABCDEFGHIJKL".chars() {
        let s = handle_event(&app, 0, &mut state, &event("INPUT", "USER-NAME", &c.to_string()), &replies);
        assert!(matches!(s, Step::Show { screen: 0, refocus: false }));
    }
    assert_eq!(state.get("USER-NAME").unwrap(), "ABCDEFGHIJ");
    handle_event(&app, 0, &mut state, &event("INPUT", "USER-NAME", "\x08"), &replies);
    assert_eq!(state.get("USER-NAME").unwrap(), "ABCDEFGHI");
    // COUNTER-VAL is PIC 9(4) and holds "0".
    for c in "12345".chars() {
        handle_event(&app, 0, &mut state, &event("INPUT", "COUNTER-VAL", &c.to_string()), &replies);
    }
    assert_eq!(state.get("COUNTER-VAL").unwrap(), "0123");
    // A variable that is no state field has no capacity.
    for _ in 0..20 {
        handle_event(&app, 0, &mut state, &event("INPUT", "SCRATCH", "z"), &replies);
    }
    assert_eq!(state.get("SCRATCH").unwrap().len(), 20);
}

#[test]
fn backspace_removes_a_non_ascii_character() {
    let app = counter_app();
    let mut state = initial_state(&app);
    let replies: Vec<Reply> = Vec::new();
    handle_event(&app, 0, &mut state, &event("INPUT", "USER-NAME", "é"), &replies);
    handle_event(&app, 0, &mut state, &event("INPUT", "USER-NAME", "ß"), &replies);
    assert_eq!(state.get("USER-NAME").unwrap(), "éß");
    handle_event(&app, 0, &mut state, &event("INPUT", "USER-NAME", "\x08"), &replies);
    assert_eq!(state.get("USER-NAME").unwrap(), "é");
}

#[test]
fn alphabetic_field_takes_letters_and_spaces() {
    let root = Node::Text {
        name: "INITIALS".to_string(),
        pic: pic(PicKind::Alphabetic, 3),
        value: None,
        binding: None,
        style: Style::default(),
    };
    let mut f = FocusState::for_root(&root);
    assert!(f.current().unwrap().kind == FocusKind::AlphabeticInput);
    assert!(matches!(key_event(&mut f, Input::Char('7')), KeyOutcome::Ignore));
    assert!(matches!(key_event(&mut f, Input::Char('-')), KeyOutcome::Ignore));
    let e = emitted(key_event(&mut f, Input::Char('q')));
    assert_eq!(e.payload, "q");
    let e = emitted(key_event(&mut f, Input::Char(' ')));
    assert_eq!(e.payload, " ");
}
