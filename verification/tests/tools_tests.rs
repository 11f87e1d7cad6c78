use cobalt::calendar::days_to_ymd;
use cobalt::ir::{Node, PicClause, PicKind, Style};
use cobalt::outline::{check_summary, tree_lines};
use cobalt::parser::parse;
use cobalt::project::{
    generate_cobalt_toml, generate_gitignore, generate_main_cbl, validate_project_name,
    ProjectNameError,
};
use cobalt::tree::{build_tree, find_container_levels, make_node, FlatEntry};

fn entry(level: u8, name: &str) -> FlatEntry {
    FlatEntry {
        level,
        name: name.to_string(),
        pic: None,
        value: None,
        binding: None,
        action: None,
        navigate: None,
        fg_color: None,
        bg_color: None,
        conditions: Vec::new(),
    }
}

fn with_pic(mut e: FlatEntry, kind: PicKind, width: usize) -> FlatEntry {
    e.pic = Some(PicClause {
        kind,
        width,
        decimals: None,
    });
    e
}

// ---------------------------------------------------------------------------
// Project scaffolding
// ---------------------------------------------------------------------------

#[test]
fn project_names() {
    assert_eq!(validate_project_name("my-app-2"), Ok(()));
    assert_eq!(validate_project_name(""), Err(ProjectNameError::Empty));
    assert_eq!(
        validate_project_name("my app"),
        Err(ProjectNameError::InvalidCharacters("my app".to_string()))
    );
    assert_eq!(
        validate_project_name("-app"),
        Err(ProjectNameError::HyphenAtEdge("-app".to_string()))
    );
    assert_eq!(
        validate_project_name("app-"),
        Err(ProjectNameError::HyphenAtEdge("app-".to_string()))
    );
    // Invalid characters are reported before a hyphen at the edge.
    assert_eq!(
        validate_project_name("-é"),
        Err(ProjectNameError::InvalidCharacters("-é".to_string()))
    );
}

#[test]
fn project_name_messages() {
    assert_eq!(ProjectNameError::Empty.message(), "Project name cannot be empty");
    assert_eq!(
        ProjectNameError::InvalidCharacters("a b".to_string()).message(),
        "Project name 'a b' contains invalid characters (use alphanumeric and hyphens only)"
    );
    assert_eq!(
        ProjectNameError::HyphenAtEdge("-a".to_string()).message(),
        "Project name '-a' cannot start or end with a hyphen"
    );
}

#[test]
fn cobalt_toml_text() {
    let t = generate_cobalt_toml("demo");
    assert!(t.starts_with("[project]\nname = \"demo\"\nversion = \"0.1.0\"\n"));
    assert!(t.contains("entry = \"src/screens/MAIN.cbl\"\n\n[build]\ntarget = \"terminal\"\nout_dir = \"dist\"\n"));
    assert!(t.contains("[theme.palette]\n0 = \"#1E293B\"\n"));
    assert!(t.contains("7 = \"#DC2626\"\n"));
    assert!(t.ends_with("mono = \"JetBrains Mono\"\n"));
}

#[test]
fn main_cbl_text() {
    let t = generate_main_cbl("demo-app");
    assert!(t.starts_with("IDENTIFICATION DIVISION.\n       PROGRAM-ID. DEMO-APP.\n\n"));
    assert!(t.contains("VALUE \"Welcome to demo-app!\".\n"));
    assert!(t.contains("10  TITLE      PIC X(30) VALUE \"demo-app\".\n"));
    assert!(t.ends_with("       MAIN-LOOP.\n           STOP RUN.\n"));
}

#[test]
fn main_cbl_parses() {
    let app = parse(&generate_main_cbl("demo")).expect("should parse");
    assert_eq!(app.screens.len(), 1);
    assert_eq!(app.screens[0].name, "MAIN-SCREEN");
    assert_eq!(app.state.get("STATUS-MSG").unwrap().default_value.as_deref(), Some("WELCOME TO DEMO!"));
    assert_eq!(app.handlers.len(), 1);
}

#[test]
fn gitignore_text() {
    assert_eq!(generate_gitignore(), "dist/\ntarget/\n");
}

// ---------------------------------------------------------------------------
// Screen trees
// ---------------------------------------------------------------------------

#[test]
fn container_levels_in_order_of_discovery() {
    let es = vec![
        entry(1, "A"),
        entry(5, "B"),
        entry(10, "C"),
        entry(5, "D"),
        entry(1, "E"),
        entry(5, "F"),
    ];
    assert_eq!(find_container_levels(&es), vec![1, 5]);
    assert_eq!(find_container_levels(&[]), Vec::<u8>::new());
}

#[test]
fn make_node_kinds() {
    let n = make_node(&with_pic(entry(10, "T"), PicKind::Alphanumeric, 4), Vec::new(), false);
    assert!(matches!(n, Node::Text { .. }));
    let n = make_node(&with_pic(entry(10, "N"), PicKind::Numeric, 4), Vec::new(), false);
    assert!(matches!(n, Node::Numeric { .. }));
    let mut b = entry(10, "B");
    b.value = Some("OK".to_string());
    match make_node(&b, Vec::new(), false) {
        Node::Button { label, .. } => assert_eq!(label, "OK"),
        other => panic!("expected a button, got {:?}", other),
    }
    let mut a = entry(10, "ACT");
    a.action = Some("P".to_string());
    match make_node(&a, Vec::new(), false) {
        Node::Button { label, action, .. } => {
            assert_eq!(label, "ACT");
            assert_eq!(action.as_deref(), Some("P"));
        }
        other => panic!("expected a button, got {:?}", other),
    }
    let n = make_node(&entry(10, "EMPTY"), Vec::new(), false);
    assert!(matches!(n, Node::Container { .. }));
    let n = make_node(&with_pic(entry(5, "G"), PicKind::Alphanumeric, 4), Vec::new(), true);
    assert!(matches!(n, Node::Text { .. }));
}

#[test]
fn build_tree_nests_by_level() {
    let es = vec![
        entry(1, "S1"),
        entry(5, "G"),
        with_pic(entry(10, "X"), PicKind::Alphanumeric, 3),
        with_pic(entry(10, "Y"), PicKind::Numeric, 2),
        entry(5, "H"),
        entry(1, "S2"),
    ];
    let nodes = build_tree(&es);
    assert_eq!(nodes.len(), 2);
    let mut lines = Vec::new();
    for n in &nodes {
        tree_lines(n, 0, &mut lines);
    }
    assert_eq!(
        lines,
        vec![
            "[Container] S1",
            "  [Container] G",
            "    [Text] X PIC X(3)",
            "    [Numeric] Y PIC 9(2)",
            "  [Container] H",
            "[Container] S2",
        ]
    );
}

#[test]
fn build_tree_keeps_every_entry() {
    let es = vec![entry(1, "A"), entry(5, "B"), entry(3, "C"), entry(7, "D")];
    let nodes = build_tree(&es);
    let mut lines = Vec::new();
    for n in &nodes {
        tree_lines(n, 0, &mut lines);
    }
    assert_eq!(lines.len(), 4);
}

// ---------------------------------------------------------------------------
// The report of `cobalt check`
// ---------------------------------------------------------------------------

#[test]
fn check_report_lines() {
    let app = parse(
        r#"
DATA DIVISION.
WORKING-STORAGE SECTION.
01 APP-STATE.
   05 USER-NAME PIC X(40).
SCREEN SECTION.
01 MAIN-SCREEN.
   05 FORM.
      10 NAME-IN PIC X(20) USING USER-NAME.
      10 AGE PIC 9(3).
      10 GO-BTN VALUE "Go" ON-ACTION PERFORM HANDLE-GO.
PROCEDURE DIVISION.
HANDLE-GO.
    DISPLAY "Hi".
"#,
    )
    .expect("should parse");
    let lines = check_summary(&app);
    assert_eq!(
        lines,
        vec![
            "  1 screen(s), 1 state field(s), 1 handler(s)",
            "  Screen: MAIN-SCREEN",
            "  [Container] MAIN-SCREEN",
            "    [Container] FORM",
            "      [Text] NAME-IN PIC X(20) USING USER-NAME",
            "      [Numeric] AGE PIC 9(3)",
            "      [Button] GO-BTN label=\"GO\" -> HANDLE-GO",
        ]
    );
}

#[test]
fn button_outline_without_action() {
    let b = Node::Button {
        name: "B".to_string(),
        label: "L".to_string(),
        action: None,
        navigate: Some("S".to_string()),
        style: Style::default(),
    };
    let mut lines = Vec::new();
    tree_lines(&b, 3, &mut lines);
    assert_eq!(lines, vec!["   [Button] B label=\"L\""]);
}

// ---------------------------------------------------------------------------
// Calendar
// ---------------------------------------------------------------------------

#[test]
fn days_to_ymd_known_dates() {
    assert_eq!(days_to_ymd(0), (1970, 1, 1));
    assert_eq!(days_to_ymd(59), (1970, 3, 1));
    assert_eq!(days_to_ymd(10957), (2000, 1, 1));
    assert_eq!(days_to_ymd(11016), (2000, 2, 29));
    assert_eq!(days_to_ymd(19797), (2024, 3, 15));
    assert_eq!(days_to_ymd(19722), (2023, 12, 31));
}

fn is_leap(y: u64) -> bool {
    y % 4 == 0 && (y % 100 != 0 || y % 400 == 0)
}

fn month_len(y: u64, m: u64) -> u64 {
    match m {
        2 => {
            if is_leap(y) {
                29
            } else {
                28
            }
        }
        4 | 6 | 9 | 11 => 30,
        _ => 31,
    }
}

#[test]
fn consecutive_days_have_consecutive_dates() {
    let mut prev = days_to_ymd(0);
    for n in 1..800_000u64 {
        let (y, m, d) = prev;
        let expected = if d < month_len(y, m) {
            (y, m, d + 1)
        } else if m < 12 {
            (y, m + 1, 1)
        } else {
            (y + 1, 1, 1)
        };
        let got = days_to_ymd(n);
        assert_eq!(got, expected, "day {}", n);
        prev = got;
    }
}
