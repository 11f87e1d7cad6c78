//! Mathematical models of the IR: the same shapes with strings as character
//! sequences and vectors as sequences. Contracts are stated over these.
use crate::ir::{
    AcceptSource, ArithExpr, ArithOp, CobaltApp, CompareOp, Condition, Expr, Handler, Node,
    Paragraph, ParagraphMap, PicClause, Screen, StateField, StateMap, Statement, Style, WhenClause,
};
use crate::table::pairs;
use vstd::prelude::*;

verus! {

/// The model of a `Node`.
pub enum SpecNode {
    Container { name: Seq<char>, children: Seq<SpecNode>, style: Style },
    Text {
        name: Seq<char>,
        pic: PicClause,
        value: Option<Seq<char>>,
        binding: Option<Seq<char>>,
        style: Style,
    },
    Numeric {
        name: Seq<char>,
        pic: PicClause,
        value: Option<Seq<char>>,
        binding: Option<Seq<char>>,
        style: Style,
    },
    Button {
        name: Seq<char>,
        label: Seq<char>,
        action: Option<Seq<char>>,
        navigate: Option<Seq<char>>,
        style: Style,
    },
}

/// The model of an optional string.
pub open spec fn opt_view(o: Option<String>) -> Option<Seq<char>> {
    match o {
        Some(s) => Some(s@),
        None => None,
    }
}

/// The model of a node.
pub open spec fn node_view(n: Node) -> SpecNode
    decreases n,
{
    match n {
        Node::Container { name, children, style } => SpecNode::Container {
            name: name@,
            children: nodes_view(children@),
            style,
        },
        Node::Text { name, pic, value, binding, style } => SpecNode::Text {
            name: name@,
            pic,
            value: opt_view(value),
            binding: opt_view(binding),
            style,
        },
        Node::Numeric { name, pic, value, binding, style } => SpecNode::Numeric {
            name: name@,
            pic,
            value: opt_view(value),
            binding: opt_view(binding),
            style,
        },
        Node::Button { name, label, action, navigate, style } => SpecNode::Button {
            name: name@,
            label: label@,
            action: opt_view(action),
            navigate: opt_view(navigate),
            style,
        },
    }
}

/// The models of a sequence of nodes.
pub open spec fn nodes_view(ns: Seq<Node>) -> Seq<SpecNode>
    decreases ns,
{
    if ns.len() == 0 {
        seq![]
    } else {
        nodes_view(ns.drop_last()).push(node_view(ns.last()))
    }
}

impl View for Node {
    type V = SpecNode;

    open spec fn view(&self) -> SpecNode {
        node_view(*self)
    }
}

/// The name of a node model.
pub open spec fn spec_name(n: SpecNode) -> Seq<char> {
    match n {
        SpecNode::Container { name, .. } => name,
        SpecNode::Text { name, .. } => name,
        SpecNode::Numeric { name, .. } => name,
        SpecNode::Button { name, .. } => name,
    }
}

/// The names of the nodes of a tree, each node before its children.
pub open spec fn preorder_names_of(n: SpecNode) -> Seq<Seq<char>>
    decreases n,
{
    match n {
        SpecNode::Container { name, children, .. } => seq![name] + preorder_names(children),
        SpecNode::Text { name, .. } => seq![name],
        SpecNode::Numeric { name, .. } => seq![name],
        SpecNode::Button { name, .. } => seq![name],
    }
}

/// The names of all nodes of a forest, tree after tree, each node before its children.
pub open spec fn preorder_names(ns: Seq<SpecNode>) -> Seq<Seq<char>>
    decreases ns,
{
    if ns.len() == 0 {
        seq![]
    } else {
        preorder_names(ns.drop_last()) + preorder_names_of(ns.last())
    }
}

pub proof fn lemma_preorder_append(a: Seq<SpecNode>, b: Seq<SpecNode>)
    ensures
        preorder_names(a + b) == preorder_names(a) + preorder_names(b),
    decreases b.len(),
{
    if b.len() == 0 {
        assert(a + b =~= a);
        assert(preorder_names(a) + preorder_names(b) =~= preorder_names(a));
    } else {
        lemma_preorder_append(a, b.drop_last());
        assert((a + b).drop_last() =~= a + b.drop_last());
        assert((a + b).last() == b.last());
        assert(preorder_names(a) + (preorder_names(b.drop_last()) + preorder_names_of(b.last()))
            =~= (preorder_names(a) + preorder_names(b.drop_last())) + preorder_names_of(b.last()));
    }
}

pub proof fn lemma_nodes_view(ns: Seq<Node>)
    ensures
        nodes_view(ns).len() == ns.len(),
        forall|i: int| 0 <= i < ns.len() ==> #[trigger] nodes_view(ns)[i] == node_view(ns[i]),
    decreases ns.len(),
{
    if ns.len() > 0 {
        lemma_nodes_view(ns.drop_last());
    }
}

/// The model of an `Expr`.
pub enum SpecExpr {
    Literal(Seq<char>),
    NumericLiteral(Seq<char>),
    Variable(Seq<char>),
}

pub open spec fn expr_view(e: Expr) -> SpecExpr {
    match e {
        Expr::Literal(s) => SpecExpr::Literal(s@),
        Expr::NumericLiteral(s) => SpecExpr::NumericLiteral(s@),
        Expr::Variable(s) => SpecExpr::Variable(s@),
    }
}

/// The model of a `Condition`.
pub enum SpecCondition {
    Compare { left: SpecExpr, op: CompareOp, right: SpecExpr },
    ConditionName(Seq<char>),
}

pub open spec fn condition_view(c: Condition) -> SpecCondition {
    match c {
        Condition::Compare { left, op, right } => SpecCondition::Compare {
            left: expr_view(left),
            op,
            right: expr_view(right),
        },
        Condition::ConditionName(n) => SpecCondition::ConditionName(n@),
    }
}

/// The model of an `ArithExpr`.
pub enum SpecArith {
    Num(Seq<char>),
    Var(Seq<char>),
    BinOp { left: Box<SpecArith>, op: ArithOp, right: Box<SpecArith> },
}

pub open spec fn arith_view(e: ArithExpr) -> SpecArith
    decreases e,
{
    match e {
        ArithExpr::Num(s) => SpecArith::Num(s@),
        ArithExpr::Var(s) => SpecArith::Var(s@),
        ArithExpr::BinOp { left, op, right } => SpecArith::BinOp {
            left: Box::new(arith_view(*left)),
            op,
            right: Box::new(arith_view(*right)),
        },
    }
}

/// The model of a `Statement`.
pub enum SpecStatement {
    Move { source: SpecExpr, target: Seq<char> },
    Add { source: SpecExpr, target: Seq<char> },
    Subtract { source: SpecExpr, target: Seq<char> },
    Multiply { source: SpecExpr, target: Seq<char> },
    Divide { source: SpecExpr, target: Seq<char> },
    Display { values: Seq<SpecExpr> },
    If { condition: SpecCondition, then_body: Seq<SpecStatement>, else_body: Seq<SpecStatement> },
    Perform { paragraph: Seq<char> },
    StringConcat { sources: Seq<(SpecExpr, SpecExpr)>, into: Seq<char> },
    Evaluate { subject: SpecExpr, whens: Seq<SpecWhen>, other: Seq<SpecStatement> },
    PerformUntil { paragraph: Seq<char>, condition: SpecCondition },
    Compute { target: Seq<char>, expression: SpecArith },
    Accept { target: Seq<char>, source: AcceptSource },
    SetCondition { condition: Seq<char>, value: bool },
    StopRun,
}

/// The model of a `WhenClause`.
pub struct SpecWhen {
    pub value: SpecExpr,
    pub body: Seq<SpecStatement>,
}

/// The models of expressions.
pub open spec fn exprs_view(es: Seq<Expr>) -> Seq<SpecExpr> {
    es.map_values(|e: Expr| expr_view(e))
}

/// The models of the sources of a STRING statement.
pub open spec fn sources_view(ss: Seq<(Expr, Expr)>) -> Seq<(SpecExpr, SpecExpr)> {
    ss.map_values(|p: (Expr, Expr)| (expr_view(p.0), expr_view(p.1)))
}

pub open spec fn stmt_view(s: Statement) -> SpecStatement
    decreases s,
{
    match s {
        Statement::Move { source, target } => SpecStatement::Move {
            source: expr_view(source),
            target: target@,
        },
        Statement::Add { source, target } => SpecStatement::Add {
            source: expr_view(source),
            target: target@,
        },
        Statement::Subtract { source, target } => SpecStatement::Subtract {
            source: expr_view(source),
            target: target@,
        },
        Statement::Multiply { source, target } => SpecStatement::Multiply {
            source: expr_view(source),
            target: target@,
        },
        Statement::Divide { source, target } => SpecStatement::Divide {
            source: expr_view(source),
            target: target@,
        },
        Statement::Display { values } => SpecStatement::Display { values: exprs_view(values@) },
        Statement::If { condition, then_body, else_body } => SpecStatement::If {
            condition: condition_view(condition),
            then_body: stmts_view(then_body@),
            else_body: stmts_view(else_body@),
        },
        Statement::Perform { paragraph } => SpecStatement::Perform { paragraph: paragraph@ },
        Statement::StringConcat { sources, into } => SpecStatement::StringConcat {
            sources: sources_view(sources@),
            into: into@,
        },
        Statement::Evaluate { subject, whens, other } => SpecStatement::Evaluate {
            subject: expr_view(subject),
            whens: whens_view(whens@),
            other: stmts_view(other@),
        },
        Statement::PerformUntil { paragraph, condition } => SpecStatement::PerformUntil {
            paragraph: paragraph@,
            condition: condition_view(condition),
        },
        Statement::Compute { target, expression } => SpecStatement::Compute {
            target: target@,
            expression: arith_view(expression),
        },
        Statement::Accept { target, source } => SpecStatement::Accept { target: target@, source },
        Statement::SetCondition { condition, value } => SpecStatement::SetCondition {
            condition: condition@,
            value,
        },
        Statement::StopRun => SpecStatement::StopRun,
    }
}

pub open spec fn stmts_view(ss: Seq<Statement>) -> Seq<SpecStatement>
    decreases ss,
{
    if ss.len() == 0 {
        seq![]
    } else {
        stmts_view(ss.drop_last()).push(stmt_view(ss.last()))
    }
}

pub open spec fn whens_view(ws: Seq<WhenClause>) -> Seq<SpecWhen>
    decreases ws,
{
    if ws.len() == 0 {
        seq![]
    } else {
        whens_view(ws.drop_last()).push(
            SpecWhen { value: expr_view(ws.last().value), body: stmts_view(ws.last().body@) },
        )
    }
}

pub proof fn lemma_stmts_view(ss: Seq<Statement>)
    ensures
        stmts_view(ss).len() == ss.len(),
        forall|i: int| 0 <= i < ss.len() ==> #[trigger] stmts_view(ss)[i] == stmt_view(ss[i]),
    decreases ss.len(),
{
    if ss.len() > 0 {
        lemma_stmts_view(ss.drop_last());
    }
}

/// The model of a `Paragraph`.
pub struct SpecParagraph {
    pub name: Seq<char>,
    pub statements: Seq<SpecStatement>,
}

pub open spec fn paragraph_view(p: Paragraph) -> SpecParagraph {
    SpecParagraph { name: p.name@, statements: stmts_view(p.statements@) }
}

/// The model of a `StateField`.
pub struct SpecStateField {
    pub name: Seq<char>,
    pub pic: PicClause,
    pub default_value: Option<Seq<char>>,
    pub conditions: Seq<(Seq<char>, Seq<char>)>,
}

pub open spec fn field_view(f: StateField) -> SpecStateField {
    SpecStateField {
        name: f.name@,
        pic: f.pic,
        default_value: opt_view(f.default_value),
        conditions: f.conditions@.map_values(|c: (String, String)| (c.0@, c.1@)),
    }
}

/// The model of a `Screen`.
pub struct SpecScreen {
    pub name: Seq<char>,
    pub root: SpecNode,
}

pub open spec fn screen_view(s: Screen) -> SpecScreen {
    SpecScreen { name: s.name@, root: node_view(s.root) }
}

/// The model of a `Handler`: its name and the name of its paragraph.
pub open spec fn handler_view(h: Handler) -> (Seq<char>, Seq<char>) {
    (h.name@, h.paragraph_name@)
}

/// The model of an application. The state definitions and the paragraphs
/// are listed as (key, value) pairs in table order.
pub struct SpecApp {
    pub screens: Seq<SpecScreen>,
    pub state: Seq<(Seq<char>, SpecStateField)>,
    pub handlers: Seq<(Seq<char>, Seq<char>)>,
    pub paragraphs: Seq<(Seq<char>, SpecParagraph)>,
}

/// The state definitions as (name, model) pairs in table order.
pub open spec fn state_pairs(m: StateMap) -> Seq<(Seq<char>, SpecStateField)> {
    pairs(m, |f: StateField| field_view(f))
}

/// The paragraphs as (name, model) pairs in table order.
pub open spec fn paragraph_pairs(m: ParagraphMap) -> Seq<(Seq<char>, SpecParagraph)> {
    pairs(m, |p: Paragraph| paragraph_view(p))
}

pub open spec fn app_view(a: CobaltApp) -> SpecApp {
    SpecApp {
        screens: a.screens@.map_values(|s: Screen| screen_view(s)),
        state: state_pairs(a.state),
        handlers: a.handlers@.map_values(|h: Handler| handler_view(h)),
        paragraphs: paragraph_pairs(a.paragraphs),
    }
}

} // verus!
