use cobalt::interp::{execute_paragraph, NumExpr, Operand, Reply, Request};
use cobalt::ir::{
    AcceptSource, ArithExpr, ArithOp, CompareOp, Condition, Expr, Paragraph, ParagraphMap,
    PicClause, PicKind, RuntimeState, StateField, StateMap, Statement, WhenClause,
};
use cobalt::table::Table;

// ---------------------------------------------------------------------------
// Answers to the interpreter's requests, computed with binary64 numbers.
// ---------------------------------------------------------------------------

fn format_numeric(n: f64) -> String {
    if n == n.trunc() {
        format!("{}", n as i64)
    } else {
        format!("{}", n)
    }
}

fn number_of(o: &Operand) -> f64 {
    match o {
        Operand::Number(s) => s.parse::<f64>().unwrap_or(0.0),
        Operand::Text(s) => s.parse::<f64>().unwrap_or(0.0),
    }
}

fn compute(e: &NumExpr) -> f64 {
    match e {
        NumExpr::Leaf(o) => number_of(o),
        NumExpr::BinOp { left, op, right } => {
            let l = compute(left);
            let r = compute(right);
            match op {
                ArithOp::Add => l + r,
                ArithOp::Subtract => l - r,
                ArithOp::Multiply => l * r,
                ArithOp::Divide => {
                    if r != 0.0 {
                        l / r
                    } else {
                        0.0
                    }
                }
            }
        }
    }
}

fn answer(q: &Request, now: u64) -> Reply {
    match q {
        Request::Render { number } => Reply::Text(format_numeric(number.parse::<f64>().unwrap())),
        Request::IsNumber { text } => Reply::Flag(text.parse::<f64>().is_ok()),
        Request::Arith { op, left, right } => {
            let cur = number_of(left);
            let src = number_of(right);
            match op {
                ArithOp::Add => Reply::Update(Some(format_numeric(cur + src))),
                ArithOp::Subtract => Reply::Update(Some(format_numeric(cur - src))),
                ArithOp::Multiply => Reply::Update(Some(format_numeric(cur * src))),
                ArithOp::Divide => {
                    if src != 0.0 {
                        Reply::Update(Some(format_numeric(cur / src)))
                    } else {
                        Reply::Update(None)
                    }
                }
            }
        }
        Request::Compare { op, left, right } => {
            let l = number_of(left);
            let r = number_of(right);
            Reply::Flag(match op {
                CompareOp::Equal => l == r,
                CompareOp::NotEqual => l != r,
                CompareOp::GreaterThan => l > r,
                CompareOp::LessThan => l < r,
                CompareOp::GreaterOrEqual => l >= r,
                CompareOp::LessOrEqual => l <= r,
            })
        }
        Request::Compute { expr } => Reply::Text(format_numeric(compute(expr))),
        Request::Clock => Reply::Seconds(now),
    }
}

/// Runs a paragraph to completion, answering its requests; returns the
/// number of requests answered.
fn run_at(
    name: &str,
    paragraphs: &ParagraphMap,
    defs: &StateMap,
    state: &mut RuntimeState,
    now: u64,
) -> usize {
    let mut replies: Vec<Reply> = Vec::new();
    loop {
        match execute_paragraph(name, paragraphs, defs, state, 0, &replies) {
            None => return replies.len(),
            Some(q) => replies.push(answer(&q, now)),
        }
    }
}

fn run(name: &str, paragraphs: &ParagraphMap, defs: &StateMap, state: &mut RuntimeState) {
    run_at(name, paragraphs, defs, state, 0);
}

fn make_paragraphs(entries: Vec<(&str, Vec<Statement>)>) -> ParagraphMap {
    let mut t: ParagraphMap = Table::new();
    for (name, stmts) in entries {
        t.insert(
            name.to_string(),
            Paragraph {
                name: name.to_string(),
                statements: stmts,
            },
        );
    }
    t
}

fn empty_defs() -> StateMap {
    Table::new()
}

fn num(s: &str) -> Expr {
    Expr::NumericLiteral(s.to_string())
}

// ---------------------------------------------------------------------------
// Statement tests.
// ---------------------------------------------------------------------------

#[test]
fn test_move_statement() {
    let paragraphs = make_paragraphs(vec![(
        "HANDLE-RESET",
        vec![Statement::Move {
            source: num("0"),
            target: "COUNTER-VAL".to_string(),
        }],
    )]);
    let mut state = RuntimeState::new();
    state.insert("COUNTER-VAL".to_string(), "42".to_string());

    run("HANDLE-RESET", &paragraphs, &empty_defs(), &mut state);
    assert_eq!(state.get("COUNTER-VAL").unwrap(), "0");
}

#[test]
fn lib_test_move_statement() {
    let paragraphs = make_paragraphs(vec![(
        "HANDLE-RESET",
        vec![Statement::Move {
            source: num("0.0"),
            target: "COUNTER-VAL".to_string(),
        }],
    )]);
    let mut state = RuntimeState::new();
    state.insert("COUNTER-VAL".to_string(), "42".to_string());

    run("HANDLE-RESET", &paragraphs, &empty_defs(), &mut state);
    assert_eq!(state.get("COUNTER-VAL").unwrap(), "0");
}

#[test]
fn test_add_statement() {
    let paragraphs = make_paragraphs(vec![(
        "HANDLE-INC",
        vec![Statement::Add {
            source: num("1"),
            target: "COUNTER-VAL".to_string(),
        }],
    )]);
    let mut state = RuntimeState::new();
    state.insert("COUNTER-VAL".to_string(), "5".to_string());

    run("HANDLE-INC", &paragraphs, &empty_defs(), &mut state);
    assert_eq!(state.get("COUNTER-VAL").unwrap(), "6");
}

#[test]
fn lib_test_add_statement() {
    let paragraphs = make_paragraphs(vec![(
        "HANDLE-INC",
        vec![Statement::Add {
            source: num("1.0"),
            target: "COUNTER-VAL".to_string(),
        }],
    )]);
    let mut state = RuntimeState::new();
    state.insert("COUNTER-VAL".to_string(), "5".to_string());

    run("HANDLE-INC", &paragraphs, &empty_defs(), &mut state);
    assert_eq!(state.get("COUNTER-VAL").unwrap(), "6");
}

#[test]
fn test_subtract_statement() {
    let paragraphs = make_paragraphs(vec![(
        "HANDLE-DEC",
        vec![Statement::Subtract {
            source: num("1"),
            target: "COUNTER-VAL".to_string(),
        }],
    )]);
    let mut state = RuntimeState::new();
    state.insert("COUNTER-VAL".to_string(), "5".to_string());

    run("HANDLE-DEC", &paragraphs, &empty_defs(), &mut state);
    assert_eq!(state.get("COUNTER-VAL").unwrap(), "4");
}

#[test]
fn lib_test_subtract_statement() {
    let paragraphs = make_paragraphs(vec![(
        "HANDLE-DEC",
        vec![Statement::Subtract {
            source: num("1.0"),
            target: "COUNTER-VAL".to_string(),
        }],
    )]);
    let mut state = RuntimeState::new();
    state.insert("COUNTER-VAL".to_string(), "5".to_string());

    run("HANDLE-DEC", &paragraphs, &empty_defs(), &mut state);
    assert_eq!(state.get("COUNTER-VAL").unwrap(), "4");
}

#[test]
fn test_multiply_statement() {
    let paragraphs = make_paragraphs(vec![(
        "HANDLE-MUL",
        vec![Statement::Multiply {
            source: num("3"),
            target: "VAL".to_string(),
        }],
    )]);
    let mut state = RuntimeState::new();
    state.insert("VAL".to_string(), "4".to_string());

    run("HANDLE-MUL", &paragraphs, &empty_defs(), &mut state);
    assert_eq!(state.get("VAL").unwrap(), "12");
}

#[test]
fn lib_test_multiply_statement() {
    let paragraphs = make_paragraphs(vec![(
        "HANDLE-MUL",
        vec![Statement::Multiply {
            source: num("3.0"),
            target: "VAL".to_string(),
        }],
    )]);
    let mut state = RuntimeState::new();
    state.insert("VAL".to_string(), "4".to_string());

    run("HANDLE-MUL", &paragraphs, &empty_defs(), &mut state);
    assert_eq!(state.get("VAL").unwrap(), "12");
}

#[test]
fn test_divide_statement() {
    let paragraphs = make_paragraphs(vec![(
        "HANDLE-DIV",
        vec![Statement::Divide {
            source: num("2"),
            target: "VAL".to_string(),
        }],
    )]);
    let mut state = RuntimeState::new();
    state.insert("VAL".to_string(), "10".to_string());

    run("HANDLE-DIV", &paragraphs, &empty_defs(), &mut state);
    assert_eq!(state.get("VAL").unwrap(), "5");
}

#[test]
fn lib_test_divide_statement() {
    let paragraphs = make_paragraphs(vec![(
        "HANDLE-DIV",
        vec![Statement::Divide {
            source: num("2.0"),
            target: "VAL".to_string(),
        }],
    )]);
    let mut state = RuntimeState::new();
    state.insert("VAL".to_string(), "10".to_string());

    run("HANDLE-DIV", &paragraphs, &empty_defs(), &mut state);
    assert_eq!(state.get("VAL").unwrap(), "5");
}

fn if_then_else_paragraphs(ten: &str) -> ParagraphMap {
    make_paragraphs(vec![(
        "CHECK",
        vec![Statement::If {
            condition: Condition::Compare {
                left: Expr::Variable("VAL".to_string()),
                op: CompareOp::GreaterThan,
                right: num(ten),
            },
            then_body: vec![Statement::Move {
                source: Expr::Literal("BIG".to_string()),
                target: "STATUS-MSG".to_string(),
            }],
            else_body: vec![Statement::Move {
                source: Expr::Literal("SMALL".to_string()),
                target: "STATUS-MSG".to_string(),
            }],
        }],
    )])
}

#[test]
fn test_if_then_else() {
    let paragraphs = if_then_else_paragraphs("10");

    let mut state = RuntimeState::new();
    state.insert("VAL".to_string(), "15".to_string());
    state.insert("STATUS-MSG".to_string(), String::new());
    run("CHECK", &paragraphs, &empty_defs(), &mut state);
    assert_eq!(state.get("STATUS-MSG").unwrap(), "BIG");

    state.insert("VAL".to_string(), "5".to_string());
    run("CHECK", &paragraphs, &empty_defs(), &mut state);
    assert_eq!(state.get("STATUS-MSG").unwrap(), "SMALL");
}

#[test]
fn lib_test_if_then_else() {
    let paragraphs = if_then_else_paragraphs("10.0");

    let mut state = RuntimeState::new();
    state.insert("VAL".to_string(), "15".to_string());
    state.insert("STATUS-MSG".to_string(), String::new());
    run("CHECK", &paragraphs, &empty_defs(), &mut state);
    assert_eq!(state.get("STATUS-MSG").unwrap(), "BIG");

    state.insert("VAL".to_string(), "5".to_string());
    run("CHECK", &paragraphs, &empty_defs(), &mut state);
    assert_eq!(state.get("STATUS-MSG").unwrap(), "SMALL");
}

fn perform_paragraphs() -> ParagraphMap {
    make_paragraphs(vec![
        (
            "MAIN",
            vec![Statement::Perform {
                paragraph: "HELPER".to_string(),
            }],
        ),
        (
            "HELPER",
            vec![Statement::Move {
                source: Expr::Literal("DONE".to_string()),
                target: "STATUS-MSG".to_string(),
            }],
        ),
    ])
}

#[test]
fn test_perform_calls_paragraph() {
    let paragraphs = perform_paragraphs();
    let mut state = RuntimeState::new();
    state.insert("STATUS-MSG".to_string(), String::new());

    run("MAIN", &paragraphs, &empty_defs(), &mut state);
    assert_eq!(state.get("STATUS-MSG").unwrap(), "DONE");
}

#[test]
fn lib_test_perform_calls_paragraph() {
    let paragraphs = perform_paragraphs();
    let mut state = RuntimeState::new();
    state.insert("STATUS-MSG".to_string(), String::new());

    run("MAIN", &paragraphs, &empty_defs(), &mut state);
    assert_eq!(state.get("STATUS-MSG").unwrap(), "DONE");
}

fn greet_display() -> ParagraphMap {
    make_paragraphs(vec![(
        "GREET",
        vec![Statement::Display {
            values: vec![Expr::Literal("Hello!".to_string())],
        }],
    )])
}

#[test]
fn test_display_sets_status_msg() {
    let paragraphs = greet_display();
    let mut state = RuntimeState::new();

    run("GREET", &paragraphs, &empty_defs(), &mut state);
    assert_eq!(state.get("STATUS-MSG").unwrap(), "Hello!");
}

#[test]
fn lib_test_display_sets_status_msg() {
    let paragraphs = greet_display();
    let mut state = RuntimeState::new();

    run("GREET", &paragraphs, &empty_defs(), &mut state);
    assert_eq!(state.get("STATUS-MSG").unwrap(), "Hello!");
}

fn greet_concat() -> ParagraphMap {
    make_paragraphs(vec![(
        "GREET",
        vec![Statement::StringConcat {
            sources: vec![
                (
                    Expr::Literal("Hello, ".to_string()),
                    Expr::Literal("SIZE".to_string()),
                ),
                (
                    Expr::Variable("USER-NAME".to_string()),
                    Expr::Literal("SIZE".to_string()),
                ),
                (
                    Expr::Literal("!".to_string()),
                    Expr::Literal("SIZE".to_string()),
                ),
            ],
            into: "STATUS-MSG".to_string(),
        }],
    )])
}

#[test]
fn test_string_concat() {
    let paragraphs = greet_concat();
    let mut state = RuntimeState::new();
    state.insert("USER-NAME".to_string(), "Alice".to_string());

    run("GREET", &paragraphs, &empty_defs(), &mut state);
    assert_eq!(state.get("STATUS-MSG").unwrap(), "Hello, Alice!");
}

#[test]
fn lib_test_string_concat() {
    let paragraphs = greet_concat();
    let mut state = RuntimeState::new();
    state.insert("USER-NAME".to_string(), "Alice".to_string());

    run("GREET", &paragraphs, &empty_defs(), &mut state);
    assert_eq!(state.get("STATUS-MSG").unwrap(), "Hello, Alice!");
}

#[test]
fn test_evaluate_when() {
    let paragraphs = make_paragraphs(vec![(
        "CHECK-OP",
        vec![Statement::Evaluate {
            subject: Expr::Variable("OPERATION".to_string()),
            whens: vec![
                WhenClause {
                    value: Expr::Literal("ADD".to_string()),
                    body: vec![Statement::Move {
                        source: Expr::Literal("Adding".to_string()),
                        target: "STATUS-MSG".to_string(),
                    }],
                },
                WhenClause {
                    value: Expr::Literal("SUB".to_string()),
                    body: vec![Statement::Move {
                        source: Expr::Literal("Subtracting".to_string()),
                        target: "STATUS-MSG".to_string(),
                    }],
                },
            ],
            other: vec![Statement::Move {
                source: Expr::Literal("Unknown".to_string()),
                target: "STATUS-MSG".to_string(),
            }],
        }],
    )]);

    let mut state = RuntimeState::new();
    state.insert("OPERATION".to_string(), "ADD".to_string());
    state.insert("STATUS-MSG".to_string(), String::new());
    run("CHECK-OP", &paragraphs, &empty_defs(), &mut state);
    assert_eq!(state.get("STATUS-MSG").unwrap(), "Adding");

    state.insert("OPERATION".to_string(), "MUL".to_string());
    run("CHECK-OP", &paragraphs, &empty_defs(), &mut state);
    assert_eq!(state.get("STATUS-MSG").unwrap(), "Unknown");
}

#[test]
fn test_perform_until() {
    let paragraphs = make_paragraphs(vec![
        (
            "LOOP",
            vec![Statement::PerformUntil {
                paragraph: "INC".to_string(),
                condition: Condition::Compare {
                    left: Expr::Variable("COUNTER".to_string()),
                    op: CompareOp::GreaterOrEqual,
                    right: num("5"),
                },
            }],
        ),
        (
            "INC",
            vec![Statement::Add {
                source: num("1"),
                target: "COUNTER".to_string(),
            }],
        ),
    ]);

    let mut state = RuntimeState::new();
    state.insert("COUNTER".to_string(), "0".to_string());
    run("LOOP", &paragraphs, &empty_defs(), &mut state);
    assert_eq!(state.get("COUNTER").unwrap(), "5");
}

#[test]
fn test_compute() {
    let paragraphs = make_paragraphs(vec![(
        "CALC",
        vec![Statement::Compute {
            target: "RESULT".to_string(),
            expression: ArithExpr::BinOp {
                left: Box::new(ArithExpr::Var("A".to_string())),
                op: ArithOp::Add,
                right: Box::new(ArithExpr::BinOp {
                    left: Box::new(ArithExpr::Var("B".to_string())),
                    op: ArithOp::Multiply,
                    right: Box::new(ArithExpr::Num("2".to_string())),
                }),
            },
        }],
    )]);

    let mut state = RuntimeState::new();
    state.insert("A".to_string(), "10".to_string());
    state.insert("B".to_string(), "3".to_string());
    run("CALC", &paragraphs, &empty_defs(), &mut state);
    assert_eq!(state.get("RESULT").unwrap(), "16");
}

fn status_defs() -> StateMap {
    let mut state_defs: StateMap = Table::new();
    state_defs.insert(
        "STATUS".to_string(),
        StateField {
            name: "STATUS".to_string(),
            pic: PicClause {
                kind: PicKind::Alphanumeric,
                width: 10,
                decimals: None,
            },
            default_value: Some("ACTIVE".to_string()),
            conditions: vec![
                ("IS-ACTIVE".to_string(), "ACTIVE".to_string()),
                ("IS-CLOSED".to_string(), "CLOSED".to_string()),
            ],
        },
    );
    state_defs
}

#[test]
fn test_level_88_condition() {
    let state_defs = status_defs();

    let paragraphs = make_paragraphs(vec![(
        "CHECK",
        vec![Statement::If {
            condition: Condition::ConditionName("IS-ACTIVE".to_string()),
            then_body: vec![Statement::Move {
                source: Expr::Literal("YES".to_string()),
                target: "RESULT".to_string(),
            }],
            else_body: vec![Statement::Move {
                source: Expr::Literal("NO".to_string()),
                target: "RESULT".to_string(),
            }],
        }],
    )]);

    let mut state = RuntimeState::new();
    state.insert("STATUS".to_string(), "ACTIVE".to_string());
    state.insert("RESULT".to_string(), String::new());
    run("CHECK", &paragraphs, &state_defs, &mut state);
    assert_eq!(state.get("RESULT").unwrap(), "YES");

    state.insert("STATUS".to_string(), "CLOSED".to_string());
    run("CHECK", &paragraphs, &state_defs, &mut state);
    assert_eq!(state.get("RESULT").unwrap(), "NO");
}

// ---------------------------------------------------------------------------
// Further cases.
// ---------------------------------------------------------------------------

#[test]
fn pending_request_leaves_state_unchanged() {
    let paragraphs = make_paragraphs(vec![(
        "P",
        vec![
            Statement::Move {
                source: Expr::Literal("first".to_string()),
                target: "A".to_string(),
            },
            Statement::Add {
                source: num("1"),
                target: "B".to_string(),
            },
        ],
    )]);
    let mut state = RuntimeState::new();
    state.insert("B".to_string(), "7".to_string());
    let replies: Vec<Reply> = Vec::new();
    let q = execute_paragraph("P", &paragraphs, &empty_defs(), &mut state, 0, &replies);
    match q {
        Some(Request::Arith { op, left, right }) => {
            assert_eq!(op, ArithOp::Add);
            assert!(matches!(left, Operand::Text(ref t) if t == "7"));
            assert!(matches!(right, Operand::Number(ref t) if t == "1"));
        }
        other => panic!("expected an arithmetic request, got {:?}", other),
    }
    assert!(state.get("A").is_none());
    assert_eq!(state.get("B").unwrap(), "7");
}

#[test]
fn unknown_paragraph_does_nothing() {
    let paragraphs = perform_paragraphs();
    let mut state = RuntimeState::new();
    state.insert("X".to_string(), "1".to_string());
    let n = run_at("NOWHERE", &paragraphs, &empty_defs(), &mut state, 0);
    assert_eq!(n, 0);
    assert_eq!(state.len(), 1);
    assert_eq!(state.get("X").unwrap(), "1");
}

#[test]
fn recursion_stops_at_the_nesting_limit() {
    let paragraphs = make_paragraphs(vec![(
        "R",
        vec![
            Statement::Add {
                source: num("1"),
                target: "N".to_string(),
            },
            Statement::Perform {
                paragraph: "R".to_string(),
            },
        ],
    )]);
    let mut state = RuntimeState::new();
    state.insert("N".to_string(), "0".to_string());
    run("R", &paragraphs, &empty_defs(), &mut state);
    // Depths 0 through 100 run.
    assert_eq!(state.get("N").unwrap(), "101");
}

#[test]
fn perform_until_stops_after_the_iteration_limit() {
    let paragraphs = make_paragraphs(vec![
        (
            "LOOP",
            vec![Statement::PerformUntil {
                paragraph: "INC".to_string(),
                condition: Condition::ConditionName("NEVER".to_string()),
            }],
        ),
        (
            "INC",
            vec![Statement::Move {
                source: Expr::Literal("x".to_string()),
                target: "DONE".to_string(),
            }],
        ),
    ]);
    let mut state = RuntimeState::new();
    run("LOOP", &paragraphs, &empty_defs(), &mut state);
    assert_eq!(state.get("DONE").unwrap(), "x");
}

#[test]
fn divide_by_zero_leaves_target() {
    let paragraphs = make_paragraphs(vec![(
        "D",
        vec![Statement::Divide {
            source: num("0"),
            target: "VAL".to_string(),
        }],
    )]);
    let mut state = RuntimeState::new();
    state.insert("VAL".to_string(), "10".to_string());
    run("D", &paragraphs, &empty_defs(), &mut state);
    assert_eq!(state.get("VAL").unwrap(), "10");
}

#[test]
fn divide_gives_fraction() {
    let paragraphs = make_paragraphs(vec![(
        "D",
        vec![Statement::Divide {
            source: num("4"),
            target: "VAL".to_string(),
        }],
    )]);
    let mut state = RuntimeState::new();
    state.insert("VAL".to_string(), "10".to_string());
    run("D", &paragraphs, &empty_defs(), &mut state);
    assert_eq!(state.get("VAL").unwrap(), "2.5");
}

#[test]
fn string_delimited_by_space_and_text() {
    let paragraphs = make_paragraphs(vec![(
        "S",
        vec![Statement::StringConcat {
            sources: vec![
                (
                    Expr::Variable("FULL".to_string()),
                    Expr::Literal("SPACE".to_string()),
                ),
                (
                    Expr::Literal("-".to_string()),
                    Expr::Literal("SIZE".to_string()),
                ),
                (
                    Expr::Literal("a,b,c".to_string()),
                    Expr::Literal(",".to_string()),
                ),
                (
                    Expr::Literal("none".to_string()),
                    Expr::Literal("#".to_string()),
                ),
            ],
            into: "OUT".to_string(),
        }],
    )]);
    let mut state = RuntimeState::new();
    state.insert("FULL".to_string(), "John Smith".to_string());
    run("S", &paragraphs, &empty_defs(), &mut state);
    assert_eq!(state.get("OUT").unwrap(), "John-anone");
}

#[test]
fn display_joins_values_with_spaces() {
    let paragraphs = make_paragraphs(vec![(
        "D",
        vec![Statement::Display {
            values: vec![
                Expr::Literal("Total:".to_string()),
                Expr::Variable("N".to_string()),
                num("2.50"),
            ],
        }],
    )]);
    let mut state = RuntimeState::new();
    state.insert("N".to_string(), "3".to_string());
    run("D", &paragraphs, &empty_defs(), &mut state);
    assert_eq!(state.get("STATUS-MSG").unwrap(), "Total: 3 2.5");
}

#[test]
fn text_comparison_when_not_numeric() {
    let paragraphs = make_paragraphs(vec![(
        "C",
        vec![Statement::If {
            condition: Condition::Compare {
                left: Expr::Variable("NAME".to_string()),
                op: CompareOp::LessThan,
                right: Expr::Literal("BOB".to_string()),
            },
            then_body: vec![Statement::Move {
                source: Expr::Literal("before".to_string()),
                target: "R".to_string(),
            }],
            else_body: vec![Statement::Move {
                source: Expr::Literal("after".to_string()),
                target: "R".to_string(),
            }],
        }],
    )]);
    let mut state = RuntimeState::new();
    state.insert("NAME".to_string(), "ALICE".to_string());
    run("C", &paragraphs, &empty_defs(), &mut state);
    assert_eq!(state.get("R").unwrap(), "before");
    state.insert("NAME".to_string(), "CAROL".to_string());
    run("C", &paragraphs, &empty_defs(), &mut state);
    assert_eq!(state.get("R").unwrap(), "after");
}

#[test]
fn set_condition_stores_its_value() {
    let state_defs = status_defs();
    let paragraphs = make_paragraphs(vec![
        (
            "CLOSE",
            vec![Statement::SetCondition {
                condition: "IS-CLOSED".to_string(),
                value: true,
            }],
        ),
        (
            "NOOP",
            vec![Statement::SetCondition {
                condition: "IS-ACTIVE".to_string(),
                value: false,
            }],
        ),
    ]);
    let mut state = RuntimeState::new();
    state.insert("STATUS".to_string(), "ACTIVE".to_string());
    run("NOOP", &paragraphs, &state_defs, &mut state);
    assert_eq!(state.get("STATUS").unwrap(), "ACTIVE");
    run("CLOSE", &paragraphs, &state_defs, &mut state);
    assert_eq!(state.get("STATUS").unwrap(), "CLOSED");
}

#[test]
fn accept_date_time_and_day() {
    let paragraphs = make_paragraphs(vec![(
        "NOW",
        vec![
            Statement::Accept {
                target: "D".to_string(),
                source: AcceptSource::Date,
            },
            Statement::Accept {
                target: "T".to_string(),
                source: AcceptSource::Time,
            },
            Statement::Accept {
                target: "W".to_string(),
                source: AcceptSource::DayOfWeek,
            },
        ],
    )]);
    let mut state = RuntimeState::new();
    // 2024-03-15 13:45:07 UTC, a Friday.
    run_at("NOW", &paragraphs, &empty_defs(), &mut state, 1710510307);
    assert_eq!(state.get("D").unwrap(), "20240315");
    assert_eq!(state.get("T").unwrap(), "134507");
    assert_eq!(state.get("W").unwrap(), "5");
}

#[test]
fn compute_divide_by_zero_is_zero() {
    let paragraphs = make_paragraphs(vec![(
        "CALC",
        vec![Statement::Compute {
            target: "R".to_string(),
            expression: ArithExpr::BinOp {
                left: Box::new(ArithExpr::Num("7".to_string())),
                op: ArithOp::Divide,
                right: Box::new(ArithExpr::Var("Z".to_string())),
            },
        }],
    )]);
    let mut state = RuntimeState::new();
    run("CALC", &paragraphs, &empty_defs(), &mut state);
    assert_eq!(state.get("R").unwrap(), "0");
}

#[test]
fn extra_replies_do_not_change_a_completed_run() {
    let paragraphs = make_paragraphs(vec![(
        "HANDLE-INC",
        vec![Statement::Add {
            source: num("1"),
            target: "C".to_string(),
        }],
    )]);
    let mut state = RuntimeState::new();
    state.insert("C".to_string(), "1".to_string());
    let replies = vec![
        Reply::Update(Some("2".to_string())),
        Reply::Text("ignored".to_string()),
    ];
    let q = execute_paragraph("HANDLE-INC", &paragraphs, &empty_defs(), &mut state, 0, &replies);
    assert!(q.is_none());
    assert_eq!(state.get("C").unwrap(), "2");
}

#[test]
fn variables_are_never_removed() {
    let paragraphs = greet_concat();
    let mut state = RuntimeState::new();
    state.insert("KEEP".to_string(), "k".to_string());
    state.insert("USER-NAME".to_string(), "Bo".to_string());
    run("GREET", &paragraphs, &empty_defs(), &mut state);
    assert_eq!(state.get("KEEP").unwrap(), "k");
    assert_eq!(state.get("USER-NAME").unwrap(), "Bo");
    assert_eq!(state.get("STATUS-MSG").unwrap(), "Hello, Bo!");
}

#[test]
fn unwritten_variables_keep_their_values() {
    let paragraphs = make_paragraphs(vec![
        (
            "MAIN",
            vec![
                Statement::Perform {
                    paragraph: "HELPER".to_string(),
                },
                Statement::Display {
                    values: vec![Expr::Literal("done".to_string())],
                },
            ],
        ),
        (
            "HELPER",
            vec![Statement::Move {
                source: Expr::Literal("x".to_string()),
                target: "WRITTEN".to_string(),
            }],
        ),
    ]);
    let mut state = RuntimeState::new();
    state.insert("UNTOUCHED".to_string(), "same".to_string());
    state.insert("WRITTEN".to_string(), "old".to_string());
    run("MAIN", &paragraphs, &empty_defs(), &mut state);
    assert_eq!(state.get("UNTOUCHED").unwrap(), "same");
    assert_eq!(state.get("WRITTEN").unwrap(), "x");
    assert_eq!(state.get("STATUS-MSG").unwrap(), "done");
    assert_eq!(state.len(), 3);
}
