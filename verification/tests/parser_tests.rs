use cobalt::ir::{CompareOp, Condition, Expr, Node, PicKind, Statement};
use cobalt::parser::{parse, ParseError};
use cobalt::source::normalize_source;

#[test]
fn test_parse_minimal_screen() {
    let source = r#"
IDENTIFICATION DIVISION.
PROGRAM-ID. HELLO.

DATA DIVISION.
SCREEN SECTION.
01 MAIN-SCREEN.
   05 HEADER.
      10 TITLE PIC X(20) VALUE "Hello World".
"#;

    let app = parse(source).expect("should parse");
    assert_eq!(app.screens.len(), 1);
    assert_eq!(app.screens[0].name, "MAIN-SCREEN");

    // Root should be a container with one child (HEADER)
    if let Node::Container { ref children, .. } = app.screens[0].root {
        assert_eq!(children.len(), 1);
        if let Node::Container {
            ref name,
            ref children,
            ..
        } = children[0]
        {
            assert_eq!(name, "HEADER");
            assert_eq!(children.len(), 1);
        } else {
            panic!("expected HEADER container");
        }
    } else {
        panic!("expected root container");
    }
}

#[test]
fn test_parse_working_storage() {
    let source = r#"
IDENTIFICATION DIVISION.
PROGRAM-ID. TEST-APP.

DATA DIVISION.
WORKING-STORAGE SECTION.
01 APP-STATE.
   05 USER-NAME PIC X(40) VALUE "ANON".
   05 COUNTER PIC 9(4) VALUE 0.
"#;

    let app = parse(source).expect("should parse");
    assert!(app.state.contains_key("USER-NAME"));
    assert!(app.state.contains_key("COUNTER"));

    let counter = app.state.get("COUNTER").unwrap();
    assert_eq!(counter.pic.kind, PicKind::Numeric);
    assert_eq!(counter.pic.width, 4);
}

#[test]
fn test_parse_go_to_screen() {
    let source = r#"
DATA DIVISION.
SCREEN SECTION.
01 MAIN-SCREEN.
   05 CONTROLS.
      10 NEXT-BTN VALUE "Next" GO-TO-SCREEN SETTINGS-SCREEN.
01 SETTINGS-SCREEN.
   05 CONTROLS.
      10 BACK-BTN VALUE "Back" GO-TO-SCREEN MAIN-SCREEN.
"#;
    let app = parse(source).expect("should parse");
    assert_eq!(app.screens.len(), 2);
    assert_eq!(app.screens[0].name, "MAIN-SCREEN");
    assert_eq!(app.screens[1].name, "SETTINGS-SCREEN");

    // Check navigation target on first screen's button
    if let Node::Container { ref children, .. } = app.screens[0].root {
        if let Node::Container { ref children, .. } = children[0] {
            if let Node::Button {
                ref navigate,
                ref label,
                ..
            } = children[0]
            {
                assert_eq!(label, "NEXT");
                assert_eq!(navigate.as_deref(), Some("SETTINGS-SCREEN"));
            } else {
                panic!("expected button node");
            }
        }
    }

    // Check navigation target on second screen's button
    if let Node::Container { ref children, .. } = app.screens[1].root {
        if let Node::Container { ref children, .. } = children[0] {
            if let Node::Button {
                ref navigate,
                ref label,
                ..
            } = children[0]
            {
                assert_eq!(label, "BACK");
                assert_eq!(navigate.as_deref(), Some("MAIN-SCREEN"));
            } else {
                panic!("expected button node");
            }
        }
    }
}

#[test]
fn test_parse_counter_paragraphs() {
    let source = r#"
IDENTIFICATION DIVISION.
PROGRAM-ID. COUNTER.

DATA DIVISION.
WORKING-STORAGE SECTION.
01 APP-STATE.
   05 COUNTER-VAL PIC 9(4) VALUE 0.

SCREEN SECTION.
01 MAIN-SCREEN.
   05 CONTROLS.
      10 INC-BTN VALUE "+" ON-ACTION PERFORM HANDLE-INCREMENT.

PROCEDURE DIVISION.
MAIN-LOOP.
    STOP RUN.

HANDLE-INCREMENT.
    ADD 1 TO COUNTER-VAL.

HANDLE-DECREMENT.
    SUBTRACT 1 FROM COUNTER-VAL.

HANDLE-RESET.
    MOVE 0 TO COUNTER-VAL.
"#;
    let app = parse(source).expect("should parse");
    assert_eq!(app.paragraphs.len(), 4);

    // Check HANDLE-INCREMENT has ADD statement
    let inc = app.paragraphs.get("HANDLE-INCREMENT").unwrap();
    assert_eq!(inc.statements.len(), 1);
    match &inc.statements[0] {
        Statement::Add { source, target } => {
            assert!(matches!(source, Expr::NumericLiteral(n) if n.parse::<f64>().unwrap() == 1.0));
            assert_eq!(target, "COUNTER-VAL");
        }
        other => panic!("expected Add, got {:?}", other),
    }

    // Check HANDLE-DECREMENT has SUBTRACT statement
    let dec = app.paragraphs.get("HANDLE-DECREMENT").unwrap();
    assert_eq!(dec.statements.len(), 1);
    assert!(matches!(&dec.statements[0], Statement::Subtract { .. }));

    // Check HANDLE-RESET has MOVE statement
    let reset = app.paragraphs.get("HANDLE-RESET").unwrap();
    assert_eq!(reset.statements.len(), 1);
    assert!(matches!(&reset.statements[0], Statement::Move { .. }));
}

#[test]
fn test_parse_if_else() {
    let source = r#"
PROCEDURE DIVISION.
CHECK-VAL.
    IF COUNTER-VAL > 10
        MOVE "BIG" TO STATUS-MSG
    ELSE
        MOVE "SMALL" TO STATUS-MSG
    END-IF.
"#;
    let app = parse(source).expect("should parse");
    let check = app.paragraphs.get("CHECK-VAL").unwrap();
    assert_eq!(check.statements.len(), 1);
    match &check.statements[0] {
        Statement::If {
            condition,
            then_body,
            else_body,
        } => {
            assert!(matches!(
                condition,
                Condition::Compare {
                    op: CompareOp::GreaterThan,
                    ..
                }
            ));
            assert_eq!(then_body.len(), 1);
            assert_eq!(else_body.len(), 1);
        }
        other => panic!("expected If, got {:?}", other),
    }
}

#[test]
fn test_parse_string_stmt() {
    let source = r#"
PROCEDURE DIVISION.
GREET.
    STRING "HELLO, " DELIMITED BY SIZE
           USER-NAME DELIMITED BY SIZE
           "!" DELIMITED BY SIZE
    INTO STATUS-MSG.
"#;
    let app = parse(source).expect("should parse");
    let greet = app.paragraphs.get("GREET").unwrap();
    assert_eq!(greet.statements.len(), 1);
    match &greet.statements[0] {
        Statement::StringConcat { sources, into } => {
            assert_eq!(sources.len(), 3);
            assert_eq!(into, "STATUS-MSG");
        }
        other => panic!("expected StringConcat, got {:?}", other),
    }
}

#[test]
fn test_parse_display_stmt() {
    let source = r#"
PROCEDURE DIVISION.
SHOW.
    DISPLAY "Hello!".
"#;
    let app = parse(source).expect("should parse");
    let show = app.paragraphs.get("SHOW").unwrap();
    assert_eq!(show.statements.len(), 1);
    assert!(matches!(&show.statements[0], Statement::Display { values } if values.len() == 1));
}

#[test]
fn test_parse_perform_stmt() {
    let source = r#"
PROCEDURE DIVISION.
MAIN.
    PERFORM HELPER.
HELPER.
    MOVE 0 TO X.
"#;
    let app = parse(source).expect("should parse");
    let main = app.paragraphs.get("MAIN").unwrap();
    assert_eq!(main.statements.len(), 1);
    match &main.statements[0] {
        Statement::Perform { paragraph } => assert_eq!(paragraph, "HELPER"),
        other => panic!("expected Perform, got {:?}", other),
    }
}

#[test]
fn test_parse_button_with_action() {
    let source = r#"
DATA DIVISION.
SCREEN SECTION.
01 MAIN-SCREEN.
   05 CONTROLS.
      10 SUBMIT-BTN VALUE "Go" ON-ACTION PERFORM HANDLE-SUBMIT.
"#;

    let app = parse(source).expect("should parse");
    assert_eq!(app.screens.len(), 1);

    if let Node::Container { ref children, .. } = app.screens[0].root {
        if let Node::Container { ref children, .. } = children[0] {
            assert_eq!(children.len(), 1);
            if let Node::Button {
                ref label,
                ref action,
                ..
            } = children[0]
            {
                assert_eq!(label, "GO");
                assert_eq!(action.as_deref(), Some("HANDLE-SUBMIT"));
            } else {
                panic!("expected button node");
            }
        }
    }
}

// ---------------------------------------------------------------------------
// Further cases.
// ---------------------------------------------------------------------------

#[test]
fn normalize_uppercases_trims_and_blanks_comments() {
    let out = normalize_source("  move \"a\" to b.  \n* a comment\n*> kept\nDone");
    assert_eq!(out, "MOVE \"A\" TO B.\n\n*> KEPT\nDONE");
}

#[test]
fn empty_source_is_an_empty_program() {
    let app = parse("").expect("should parse");
    assert_eq!(app.screens.len(), 0);
    assert_eq!(app.state.len(), 0);
    assert_eq!(app.handlers.len(), 0);
    assert_eq!(app.paragraphs.len(), 0);
}

#[test]
fn unterminated_string_is_a_lexical_error() {
    let r = parse("PROCEDURE DIVISION.\nP.\n    DISPLAY \"oops.\n");
    assert!(matches!(r, Err(ParseError::Lexical { .. })));
}

#[test]
fn stray_text_is_a_syntax_error() {
    let r = parse("GARBAGE HERE.");
    assert!(matches!(r, Err(ParseError::Syntax)));
}

#[test]
fn handlers_follow_paragraphs() {
    let source = r#"
PROCEDURE DIVISION.
FIRST-PARA.
    STOP RUN.
SECOND-PARA.
    DISPLAY "x".
"#;
    let app = parse(source).expect("should parse");
    assert_eq!(app.handlers.len(), 2);
    assert_eq!(app.handlers[0].name, "FIRST-PARA");
    assert_eq!(app.handlers[0].paragraph_name, "FIRST-PARA");
    assert_eq!(app.handlers[1].name, "SECOND-PARA");
}

#[test]
fn fields_and_numeric_nodes() {
    let source = r#"
DATA DIVISION.
WORKING-STORAGE SECTION.
01 APP-STATE.
   05 STATUS PIC X(10) VALUE "ACTIVE".
      88 IS-ACTIVE VALUE "ACTIVE".
      88 IS-CLOSED VALUE "CLOSED".
   05 TOTAL PIC 9(6)V9(2).
SCREEN SECTION.
01 MAIN-SCREEN.
   05 FORM.
      10 NAME-IN PIC X(12) USING STATUS FOREGROUND-COLOR 5.
      10 AMOUNT PIC 9(5) USING TOTAL.
"#;
    let app = parse(source).expect("should parse");
    let status = app.state.get("STATUS").unwrap();
    assert_eq!(status.default_value.as_deref(), Some("ACTIVE"));
    assert_eq!(status.conditions.len(), 2);
    assert_eq!(status.conditions[1].0, "IS-CLOSED");
    assert_eq!(status.conditions[1].1, "CLOSED");
    let total = app.state.get("TOTAL").unwrap();
    assert_eq!(total.pic.width, 6);
    assert_eq!(total.pic.decimals, Some(2));
    assert!(app.state.get("APP-STATE").is_none());

    if let Node::Container { ref children, .. } = app.screens[0].root {
        if let Node::Container { ref children, .. } = children[0] {
            assert_eq!(children.len(), 2);
            match &children[0] {
                Node::Text { binding, style, pic, .. } => {
                    assert_eq!(binding.as_deref(), Some("STATUS"));
                    assert_eq!(style.fg_color, Some(5));
                    assert_eq!(pic.width, 12);
                }
                other => panic!("expected a text node, got {:?}", other),
            }
            assert!(matches!(&children[1], Node::Numeric { .. }));
        } else {
            panic!("expected a container");
        }
    } else {
        panic!("expected root container");
    }
}

#[test]
fn not_equal_condition_and_delimiters() {
    let source = r#"
PROCEDURE DIVISION.
P.
    IF A NOT = "X"
        STRING NAME DELIMITED BY SPACE "," DELIMITED BY SIZE INTO OUT
    END-IF.
"#;
    let app = parse(source).expect("should parse");
    let p = app.paragraphs.get("P").unwrap();
    assert_eq!(p.statements.len(), 1);
    match &p.statements[0] {
        Statement::If { condition, then_body, else_body } => {
            assert!(matches!(condition, Condition::Compare { op: CompareOp::NotEqual, .. }));
            assert_eq!(then_body.len(), 1);
            assert_eq!(else_body.len(), 0);
            match &then_body[0] {
                Statement::StringConcat { sources, into } => {
                    assert_eq!(sources.len(), 2);
                    assert!(matches!(&sources[0].1, Expr::Literal(d) if d == "SPACE"));
                    assert!(matches!(&sources[1].1, Expr::Literal(d) if d == "SIZE"));
                    assert_eq!(into, "OUT");
                }
                other => panic!("expected StringConcat, got {:?}", other),
            }
        }
        other => panic!("expected If, got {:?}", other),
    }
}

const HELLO: &str = r#"
       IDENTIFICATION DIVISION.
       PROGRAM-ID. HELLO.

       DATA DIVISION.
       WORKING-STORAGE SECTION.
       01  APP-STATE.
           05  USER-NAME      PIC X(40) VALUE "".
           05  STATUS-MSG     PIC X(60) VALUE "Welcome to COBALT!".

       SCREEN SECTION.
       01  MAIN-SCREEN.
           05  HEADER.
               10  TITLE      PIC X(30) VALUE "Hello, COBALT!".
           05  CONTENT.
               10  NAME-FIELD PIC X(40) USING USER-NAME.
               10  GREET-BTN  VALUE "Greet" ON-ACTION PERFORM HANDLE-GREET.
           05  FOOTER.
               10  MSG-TEXT   PIC X(60) USING STATUS-MSG.

       PROCEDURE DIVISION.
       MAIN-LOOP.
           STOP RUN.

       HANDLE-GREET.
           DISPLAY "Hello!".
"#;

#[test]
fn readme_hello_world_parses() {
    let app = parse(HELLO).expect("should parse");
    assert_eq!(app.screens.len(), 1);
    assert_eq!(app.state.len(), 2);
    assert_eq!(app.state.get("USER-NAME").unwrap().default_value.as_deref(), Some(""));
    assert_eq!(
        app.state.get("STATUS-MSG").unwrap().default_value.as_deref(),
        Some("WELCOME TO COBALT!")
    );
    assert_eq!(app.handlers.len(), 2);
    match &app.screens[0].root {
        Node::Container { children, .. } => {
            let names: Vec<&str> = children.iter().map(|c| c.name()).collect();
            assert_eq!(names, vec!["HEADER", "CONTENT", "FOOTER"]);
            match &children[1] {
                Node::Container { children, .. } => {
                    assert!(matches!(&children[0], Node::Text { binding: Some(b), .. } if b == "USER-NAME"));
                    assert!(matches!(&children[1], Node::Button { action: Some(a), label, .. } if a == "HANDLE-GREET" && label == "GREET"));
                }
                other => panic!("expected CONTENT container, got {:?}", other),
            }
        }
        other => panic!("expected root container, got {:?}", other),
    }
}

#[test]
fn every_screen_is_a_container_named_as_its_root() {
    let source = r#"
DATA DIVISION.
SCREEN SECTION.
01 FIRST.
   05 A PIC X(3).
01 LONELY PIC X(3).
01 SECOND.
   05 B PIC X(3).
"#;
    let app = parse(source).expect("should parse");
    assert_eq!(app.screens.len(), 2);
    for s in &app.screens {
        assert!(matches!(s.root, Node::Container { .. }));
        assert_eq!(s.root.name(), s.name);
    }
}

#[test]
fn tables_are_keyed_by_name() {
    let source = r#"
DATA DIVISION.
WORKING-STORAGE SECTION.
01 APP-STATE.
   05 A PIC X(3) VALUE "one".
   05 B PIC 9(2).
   05 A PIC X(3) VALUE "two".
PROCEDURE DIVISION.
P.
    STOP RUN.
Q.
    DISPLAY "q".
P.
    DISPLAY "again".
"#;
    let app = parse(source).expect("should parse");
    // A later field or paragraph of the same name replaces the earlier one in place.
    assert_eq!(app.state.len(), 2);
    assert_eq!(app.state.key_at(0), "A");
    assert_eq!(app.state.value_at(0).name, "A");
    assert_eq!(app.state.value_at(0).default_value.as_deref(), Some("TWO"));
    assert_eq!(app.paragraphs.len(), 2);
    for i in 0..app.paragraphs.len() {
        assert_eq!(app.paragraphs.key_at(i), &app.paragraphs.value_at(i).name);
    }
    assert!(matches!(&app.paragraphs.get("P").unwrap().statements[0], Statement::Display { .. }));
    assert_eq!(app.handlers.len(), 3);
}

#[test]
fn normalize_strips_sequence_numbers_and_collapses_whitespace() {
    assert_eq!(normalize_source("000100 identification  division."), "IDENTIFICATION DIVISION.");
    assert_eq!(
        normalize_source("000200    move   \"a  b\"\tto  x."),
        "MOVE \"A  B\" TO X."
    );
    assert_eq!(normalize_source("000300* a comment"), "");
    assert_eq!(normalize_source("12345 not a sequence"), "12345 NOT A SEQUENCE");
}

#[test]
fn sequence_numbered_program_parses() {
    let source = "000100 IDENTIFICATION DIVISION.\n000200 PROGRAM-ID. SEQ.\n000300 PROCEDURE DIVISION.\n000400 MAIN-PARA.\n000500     DISPLAY \"hi\".\n";
    let app = parse(source).expect("should parse");
    assert_eq!(app.handlers.len(), 1);
    assert_eq!(app.handlers[0].name, "MAIN-PARA");
}

#[test]
fn parse_ignores_ascii_case() {
    let lower = HELLO.to_ascii_lowercase();
    let a = parse(HELLO).expect("should parse");
    let b = parse(&lower).expect("should parse");
    assert_eq!(format!("{:?}", a), format!("{:?}", b));
    assert!(matches!(parse("garbage here."), Err(ParseError::Syntax)));
    assert!(matches!(parse("GARBAGE HERE."), Err(ParseError::Syntax)));
}
