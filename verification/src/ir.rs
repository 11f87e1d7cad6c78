//! The intermediate representation produced by the parser.
//!
//! This is the platform-neutral description of an application: its screens
//! (trees of layout nodes), its WORKING-STORAGE state, and the paragraphs of
//! its PROCEDURE DIVISION. Renderers consume it.
//!
//! Numeric literals are held as the decimal text written in the source; the
//! value of such a literal is the binary64 number nearest to that text.
use crate::table::Table;
use vstd::prelude::*;

verus! {

/// Top-level application structure produced by parsing a COBALT program.
#[derive(Debug)]
pub struct CobaltApp {
    pub screens: Vec<Screen>,
    pub state: StateMap,
    pub handlers: Vec<Handler>,
    pub paragraphs: ParagraphMap,
}

/// A single screen (a level-01 entry of the SCREEN SECTION).
#[derive(Debug)]
pub struct Screen {
    pub name: String,
    pub root: Node,
}

/// A node in the UI tree. Group levels become containers; leaf levels
/// become text fields, numeric fields or buttons depending on their clauses.
#[derive(Debug)]
pub enum Node {
    Container { name: String, children: Vec<Node>, style: Style },
    Text {
        name: String,
        pic: PicClause,
        value: Option<String>,
        binding: Option<String>,
        style: Style,
    },
    Numeric {
        name: String,
        pic: PicClause,
        value: Option<String>,
        binding: Option<String>,
        style: Style,
    },
    Button {
        name: String,
        label: String,
        action: Option<String>,
        navigate: Option<String>,
        style: Style,
    },
}

/// The name of a node, whatever its kind.
pub open spec fn node_name(n: Node) -> String {
    match n {
        Node::Container { name, .. } => name,
        Node::Text { name, .. } => name,
        Node::Numeric { name, .. } => name,
        Node::Button { name, .. } => name,
    }
}

impl Node {
    /// The name of the node.
    pub fn name(&self) -> (r: &str)
        ensures
            r@ == node_name(*self)@,
    {
        match self {
            Node::Container { name, .. } => name.as_str(),
            Node::Text { name, .. } => name.as_str(),
            Node::Numeric { name, .. } => name.as_str(),
            Node::Button { name, .. } => name.as_str(),
        }
    }
}

/// A PIC clause: `PIC X(n)`, `PIC 9(n)`, `PIC A(n)`, optionally `V9(m)`.
#[derive(Debug, Clone, Copy, PartialEq, Eq, Structural)]
pub struct PicClause {
    pub kind: PicKind,
    pub width: usize,
    pub decimals: Option<usize>,
}

/// The type indicator in a PIC clause.
#[derive(Debug, Clone, Copy, PartialEq, Eq, Structural)]
pub enum PicKind {
    /// `PIC X`: alphanumeric
    Alphanumeric,
    /// `PIC 9`: numeric
    Numeric,
    /// `PIC A`: alphabetic
    Alphabetic,
}

/// Visual style of a node: palette indices of its colours.
#[derive(Debug, Clone, Copy, PartialEq, Eq, Structural)]
pub struct Style {
    /// Foreground colour index (into the theme palette).
    pub fg_color: Option<u8>,
    /// Background colour index (into the theme palette).
    pub bg_color: Option<u8>,
}

impl Default for Style {
    fn default() -> (s: Self)
        ensures
            s.fg_color is None,
            s.bg_color is None,
    {
        Style { fg_color: None, bg_color: None }
    }
}

/// A field of WORKING-STORAGE that holds application state.
#[derive(Debug, Clone)]
pub struct StateField {
    pub name: String,
    pub pic: PicClause,
    pub default_value: Option<String>,
    /// Level-88 condition names: (name, value).
    pub conditions: Vec<(String, String)>,
}

/// The state definitions, keyed by variable name.
pub type StateMap = Table<StateField>;

/// The paragraphs of the PROCEDURE DIVISION, keyed by paragraph name.
pub type ParagraphMap = Table<Paragraph>;

/// The live values of the variables, keyed by variable name.
pub type RuntimeState = Table<String>;

/// A handler: a paragraph of the PROCEDURE DIVISION that events may run.
#[derive(Debug, Clone)]
pub struct Handler {
    pub name: String,
    pub paragraph_name: String,
}

/// A statement of the PROCEDURE DIVISION.
#[derive(Debug)]
pub enum Statement {
    /// MOVE source TO target
    Move { source: Expr, target: String },
    /// ADD source TO target
    Add { source: Expr, target: String },
    /// SUBTRACT source FROM target
    Subtract { source: Expr, target: String },
    /// MULTIPLY source BY target
    Multiply { source: Expr, target: String },
    /// DIVIDE source INTO target
    Divide { source: Expr, target: String },
    /// DISPLAY values
    Display { values: Vec<Expr> },
    /// IF condition statements ELSE statements END-IF
    If { condition: Condition, then_body: Vec<Statement>, else_body: Vec<Statement> },
    /// PERFORM paragraph
    Perform { paragraph: String },
    /// STRING source DELIMITED BY delimiter ... INTO target
    StringConcat { sources: Vec<(Expr, Expr)>, into: String },
    /// EVALUATE subject WHEN value ... WHEN OTHER ... END-EVALUATE
    Evaluate { subject: Expr, whens: Vec<WhenClause>, other: Vec<Statement> },
    /// PERFORM paragraph UNTIL condition
    PerformUntil { paragraph: String, condition: Condition },
    /// COMPUTE target = expression
    Compute { target: String, expression: ArithExpr },
    /// ACCEPT target FROM source
    Accept { target: String, source: AcceptSource },
    /// SET condition-name TO TRUE/FALSE
    SetCondition { condition: String, value: bool },
    /// STOP RUN
    StopRun,
}

/// A WHEN clause of an EVALUATE statement.
#[derive(Debug)]
pub struct WhenClause {
    pub value: Expr,
    pub body: Vec<Statement>,
}

/// An arithmetic expression of a COMPUTE statement.
#[derive(Debug)]
pub enum ArithExpr {
    /// A numeric literal, as its decimal text.
    Num(String),
    /// A variable.
    Var(String),
    /// A binary operation.
    BinOp { left: Box<ArithExpr>, op: ArithOp, right: Box<ArithExpr> },
}

/// Arithmetic operators of COMPUTE expressions.
#[derive(Debug, Clone, Copy, PartialEq, Eq, Structural)]
pub enum ArithOp {
    Add,
    Subtract,
    Multiply,
    Divide,
}

/// The source of an ACCEPT statement.
#[derive(Debug, Clone, Copy, PartialEq, Eq, Structural)]
pub enum AcceptSource {
    Date,
    Time,
    DayOfWeek,
}

/// An expression: a literal or a variable reference.
#[derive(Debug, Clone)]
pub enum Expr {
    /// A string literal.
    Literal(String),
    /// A numeric literal, as its decimal text.
    NumericLiteral(String),
    /// A variable.
    Variable(String),
}

/// A condition of an IF statement or a PERFORM ... UNTIL.
#[derive(Debug)]
pub enum Condition {
    Compare { left: Expr, op: CompareOp, right: Expr },
    ConditionName(String),
}

/// Comparison operators.
#[derive(Debug, Clone, Copy, PartialEq, Eq, Structural)]
pub enum CompareOp {
    Equal,
    NotEqual,
    GreaterThan,
    LessThan,
    GreaterOrEqual,
    LessOrEqual,
}

/// A paragraph and its statements.
#[derive(Debug)]
pub struct Paragraph {
    pub name: String,
    pub statements: Vec<Statement>,
}

/// An event reported by a renderer to the event loop.
#[derive(Debug, Clone)]
pub struct EventRecord {
    pub event_type: String,
    pub target: String,
    pub payload: String,
}

} // verus!
