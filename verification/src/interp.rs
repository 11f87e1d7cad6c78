//! The interpreter of PROCEDURE DIVISION paragraphs.
//!
//! Statements read and write the runtime state, a table from variable
//! names to string values. Whatever involves binary floating point
//! (rendering a numeric literal, reading a string as a number, arithmetic,
//! numeric comparison) and the reading of the system clock is outside work:
//! the interpreter asks for it with a `Request` and is handed the answers as
//! a sequence of `Reply` values. Running a paragraph with the first `k`
//! replies either completes, or stops at the `k+1`-th request; the caller
//! answers it and runs the paragraph again from the same state with one
//! more reply.
use crate::calendar::{date_after, days_to_ymd};
use crate::ir::{
    AcceptSource, ArithExpr, ArithOp, CompareOp, Condition, Expr, ParagraphMap,
    RuntimeState, StateField, StateMap, Statement, WhenClause,
};
use crate::model::opt_view;
use crate::text::{
    chars_of, decimal, join, push_char, push_decimal, push_repeat, push_str, string_of, zero_padded,
};
use vstd::prelude::*;

verus! {

/// A number that outside work reads.
#[derive(Debug)]
pub enum Operand {
    /// A numeric literal, as its decimal text.
    Number(String),
    /// A string read as a number (zero when it does not read as one).
    Text(String),
}

/// An arithmetic expression whose variables have been replaced by their values.
#[derive(Debug)]
pub enum NumExpr {
    Leaf(Operand),
    BinOp { left: Box<NumExpr>, op: ArithOp, right: Box<NumExpr> },
}

/// Outside work that the interpreter asks for.
#[derive(Debug)]
pub enum Request {
    /// The display text of a numeric literal: an integral value as an
    /// integer, any other value in the shortest form that reads back
    /// exactly. Answered by `Reply::Text`.
    Render { number: String },
    /// Whether a string reads as a binary64 number. Answered by `Reply::Flag`.
    IsNumber { text: String },
    /// `left op right`, rendered as for `Render`; for a division by zero, no
    /// value. Answered by `Reply::Update`.
    Arith { op: ArithOp, left: Operand, right: Operand },
    /// `left op right` on numbers. Answered by `Reply::Flag`.
    Compare { op: CompareOp, left: Operand, right: Operand },
    /// The value of an expression (a division by zero giving zero),
    /// rendered as for `Render`. Answered by `Reply::Text`.
    Compute { expr: NumExpr },
    /// The seconds since 1970-01-01 00:00:00 UTC. Answered by `Reply::Seconds`.
    Clock,
}

/// The answer to a request. An answer of another kind than the request
/// asks for counts as the empty string, `false`, no value, or zero seconds.
#[derive(Debug)]
pub enum Reply {
    Text(String),
    Flag(bool),
    Update(Option<String>),
    Seconds(u64),
}

/// The model of an `Operand`.
pub enum SpecOperand {
    Number(Seq<char>),
    Text(Seq<char>),
}

/// The model of a `NumExpr`.
pub enum SpecNumExpr {
    Leaf(SpecOperand),
    BinOp { left: Box<SpecNumExpr>, op: ArithOp, right: Box<SpecNumExpr> },
}

/// The model of a `Request`.
pub enum SpecRequest {
    Render { number: Seq<char> },
    IsNumber { text: Seq<char> },
    Arith { op: ArithOp, left: SpecOperand, right: SpecOperand },
    Compare { op: CompareOp, left: SpecOperand, right: SpecOperand },
    Compute { expr: SpecNumExpr },
    Clock,
}

pub open spec fn operand_view(o: Operand) -> SpecOperand {
    match o {
        Operand::Number(s) => SpecOperand::Number(s@),
        Operand::Text(s) => SpecOperand::Text(s@),
    }
}

pub open spec fn num_expr_view(e: NumExpr) -> SpecNumExpr
    decreases e,
{
    match e {
        NumExpr::Leaf(o) => SpecNumExpr::Leaf(operand_view(o)),
        NumExpr::BinOp { left, op, right } => SpecNumExpr::BinOp {
            left: Box::new(num_expr_view(*left)),
            op,
            right: Box::new(num_expr_view(*right)),
        },
    }
}

impl View for Request {
    type V = SpecRequest;

    open spec fn view(&self) -> SpecRequest {
        match *self {
            Request::Render { number } => SpecRequest::Render { number: number@ },
            Request::IsNumber { text } => SpecRequest::IsNumber { text: text@ },
            Request::Arith { op, left, right } => SpecRequest::Arith {
                op,
                left: operand_view(left),
                right: operand_view(right),
            },
            Request::Compare { op, left, right } => SpecRequest::Compare {
                op,
                left: operand_view(left),
                right: operand_view(right),
            },
            Request::Compute { expr } => SpecRequest::Compute { expr: num_expr_view(expr) },
            Request::Clock => SpecRequest::Clock,
        }
    }
}

/// The text carried by a reply.
pub open spec fn reply_text(r: Reply) -> Seq<char> {
    match r {
        Reply::Text(s) => s@,
        _ => seq![],
    }
}

/// The flag carried by a reply.
pub open spec fn reply_flag(r: Reply) -> bool {
    match r {
        Reply::Flag(b) => b,
        _ => false,
    }
}

/// The new value carried by a reply.
pub open spec fn reply_update(r: Reply) -> Option<Seq<char>> {
    match r {
        Reply::Update(o) => opt_view(o),
        _ => None,
    }
}

/// The seconds carried by a reply.
pub open spec fn reply_seconds(r: Reply) -> u64 {
    match r {
        Reply::Seconds(n) => n,
        _ => 0,
    }
}

/// The variables and their values.
pub type Vars = Map<Seq<char>, Seq<char>>;

/// The model of a runtime state.
pub open spec fn vars_of(st: RuntimeState) -> Vars {
    st@.map_values(|v: String| v@)
}

/// The value of a variable; the empty string for an unknown one.
pub open spec fn var(st: Vars, name: Seq<char>) -> Seq<char> {
    if st.contains_key(name) {
        st[name]
    } else {
        seq![]
    }
}

/// The result of evaluating something that may need outside work.
pub enum Eval<T> {
    /// The value, and the index of the next unused reply.
    Ready { value: T, next: nat },
    /// The request that had no reply.
    Pending { request: SpecRequest },
}

/// The result of running statements.
pub enum Outcome {
    /// The variables afterwards, and the index of the next unused reply.
    Done { vars: Vars, next: nat },
    /// The request that had no reply.
    Pending { request: SpecRequest },
}

/// The value of an expression as a string.
pub open spec fn eval_expr(e: Expr, st: Vars, rs: Seq<Reply>, k: nat) -> Eval<Seq<char>> {
    match e {
        Expr::Literal(s) => Eval::Ready { value: s@, next: k },
        Expr::NumericLiteral(t) => if k < rs.len() {
            Eval::Ready { value: reply_text(rs[k as int]), next: k + 1 }
        } else {
            Eval::Pending { request: SpecRequest::Render { number: t@ } }
        },
        Expr::Variable(n) => Eval::Ready { value: var(st, n@), next: k },
    }
}

/// An expression read as a number.
pub open spec fn operand_of(e: Expr, st: Vars) -> SpecOperand {
    match e {
        Expr::NumericLiteral(t) => SpecOperand::Number(t@),
        Expr::Literal(s) => SpecOperand::Text(s@),
        Expr::Variable(n) => SpecOperand::Text(var(st, n@)),
    }
}

/// The values of expressions, in order.
pub open spec fn eval_exprs(es: Seq<Expr>, st: Vars, rs: Seq<Reply>, k: nat) -> Eval<
    Seq<Seq<char>>,
>
    decreases es.len(),
{
    if es.len() == 0 {
        Eval::Ready { value: seq![], next: k }
    } else {
        match eval_exprs(es.drop_last(), st, rs, k) {
            Eval::Ready { value: vs, next: k1 } => match eval_expr(es.last(), st, rs, k1) {
                Eval::Ready { value: v, next: k2 } => Eval::Ready { value: vs.push(v), next: k2 },
                Eval::Pending { request } => Eval::Pending { request },
            },
            Eval::Pending { request } => Eval::Pending { request },
        }
    }
}

/// Lexicographic order on character sequences: whether `a` comes before `b`.
pub open spec fn text_less(a: Seq<char>, b: Seq<char>) -> bool
    decreases a.len(),
{
    if b.len() == 0 {
        false
    } else if a.len() == 0 {
        true
    } else if a[0] != b[0] {
        (a[0] as u32) < (b[0] as u32)
    } else {
        text_less(a.drop_first(), b.drop_first())
    }
}

/// A comparison of strings.
pub open spec fn compare_text(op: CompareOp, a: Seq<char>, b: Seq<char>) -> bool {
    match op {
        CompareOp::Equal => a == b,
        CompareOp::NotEqual => a != b,
        CompareOp::GreaterThan => text_less(b, a),
        CompareOp::LessThan => text_less(a, b),
        CompareOp::GreaterOrEqual => !text_less(a, b),
        CompareOp::LessOrEqual => !text_less(b, a),
    }
}

/// The value of the first condition named `c` among `cs`.
pub open spec fn find_in_conditions(cs: Seq<(String, String)>, c: Seq<char>) -> Option<Seq<char>>
    decreases cs.len(),
{
    if cs.len() == 0 {
        None
    } else if cs[0].0@ == c {
        Some(cs[0].1@)
    } else {
        find_in_conditions(cs.drop_first(), c)
    }
}

/// The first field (in table order) that defines the level-88 condition
/// `c`, and the condition's value.
pub open spec fn find_condition(fields: Seq<StateField>, c: Seq<char>) -> Option<
    (Seq<char>, Seq<char>),
>
    decreases fields.len(),
{
    if fields.len() == 0 {
        None
    } else {
        match find_in_conditions(fields[0].conditions@, c) {
            Some(v) => Some((fields[0].name@, v)),
            None => find_condition(fields.drop_first(), c),
        }
    }
}

/// Whether the expressions of a comparison are compared as numbers (when both
/// read as numbers): when either is a numeric literal, or both are variables.
pub open spec fn numeric_kinds(left: Expr, right: Expr) -> bool {
    left is NumericLiteral || right is NumericLiteral || (left is Variable && right is Variable)
}

/// The truth of a condition.
pub open spec fn eval_condition(c: Condition, defs: StateMap, st: Vars, rs: Seq<Reply>, k: nat) -> Eval<bool> {
    match c {
        Condition::Compare { left, op, right } => match eval_expr(left, st, rs, k) {
            Eval::Pending { request } => Eval::Pending { request },
            Eval::Ready { value: ls, next: k1 } => match eval_expr(right, st, rs, k1) {
                Eval::Pending { request } => Eval::Pending { request },
                Eval::Ready { value: rv, next: k2 } => if !numeric_kinds(left, right) {
                    Eval::Ready { value: compare_text(op, ls, rv), next: k2 }
                } else if k2 >= rs.len() {
                    Eval::Pending { request: SpecRequest::IsNumber { text: ls } }
                } else if !reply_flag(rs[k2 as int]) {
                    Eval::Ready { value: compare_text(op, ls, rv), next: k2 + 1 }
                } else if k2 + 1 >= rs.len() {
                    Eval::Pending { request: SpecRequest::IsNumber { text: rv } }
                } else if !reply_flag(rs[(k2 + 1) as int]) {
                    Eval::Ready { value: compare_text(op, ls, rv), next: k2 + 2 }
                } else if k2 + 2 >= rs.len() {
                    Eval::Pending {
                        request: SpecRequest::Compare {
                            op,
                            left: operand_of(left, st),
                            right: operand_of(right, st),
                        },
                    }
                } else {
                    Eval::Ready { value: reply_flag(rs[(k2 + 2) as int]), next: k2 + 3 }
                },
            },
        },
        Condition::ConditionName(name) => Eval::Ready {
            value: match find_condition(defs.values(), name@) {
                Some((field, value)) => var(st, field) == value,
                None => false,
            },
            next: k,
        },
    }
}

/// `s` up to the first occurrence of `d`, or all of `s` when `d` does not occur.
pub open spec fn before_first(s: Seq<char>, d: Seq<char>) -> Seq<char> {
    match find_from(s, d, 0) {
        Some(i) => s.take(i),
        None => s,
    }
}

/// The first position at or after `i` where `d` occurs in `s`.
pub open spec fn find_from(s: Seq<char>, d: Seq<char>, i: int) -> Option<int>
    decreases s.len() + 1 - i,
{
    if i < 0 || i + d.len() > s.len() {
        None
    } else if s.subrange(i, i + d.len()) == d {
        Some(i)
    } else {
        find_from(s, d, i + 1)
    }
}

/// The piece that one source of a STRING statement contributes.
pub open spec fn string_piece(src: Seq<char>, delim: Seq<char>) -> Seq<char> {
    if delim == "SIZE"@ {
        src
    } else if delim == "SPACE"@ {
        before_first(src, seq![' '])
    } else {
        before_first(src, delim)
    }
}

/// The text that the sources of a STRING statement build.
pub open spec fn concat_sources(srcs: Seq<(Expr, Expr)>, st: Vars, rs: Seq<Reply>, k: nat) -> Eval<
    Seq<char>,
>
    decreases srcs.len(),
{
    if srcs.len() == 0 {
        Eval::Ready { value: seq![], next: k }
    } else {
        match concat_sources(srcs.drop_last(), st, rs, k) {
            Eval::Pending { request } => Eval::Pending { request },
            Eval::Ready { value: acc, next: k1 } => match eval_expr(srcs.last().0, st, rs, k1) {
                Eval::Pending { request } => Eval::Pending { request },
                Eval::Ready { value: sv, next: k2 } => match eval_expr(srcs.last().1, st, rs, k2) {
                    Eval::Pending { request } => Eval::Pending { request },
                    Eval::Ready { value: dv, next: k3 } => Eval::Ready {
                        value: acc + string_piece(sv, dv),
                        next: k3,
                    },
                },
            },
        }
    }
}

/// An arithmetic expression with its variables replaced by their values.
pub open spec fn num_expr_of(e: ArithExpr, st: Vars) -> SpecNumExpr
    decreases e,
{
    match e {
        ArithExpr::Num(t) => SpecNumExpr::Leaf(SpecOperand::Number(t@)),
        ArithExpr::Var(n) => SpecNumExpr::Leaf(SpecOperand::Text(var(st, n@))),
        ArithExpr::BinOp { left, op, right } => SpecNumExpr::BinOp {
            left: Box::new(num_expr_of(*left, st)),
            op,
            right: Box::new(num_expr_of(*right, st)),
        },
    }
}

/// The text that ACCEPT stores, `now` being the seconds since the epoch.
pub open spec fn accept_text(src: AcceptSource, now: u64) -> Seq<char> {
    let days = now / 86400;
    match src {
        AcceptSource::Date => {
            let (y, m, d) = date_after(days as nat);
            zero_padded(y as nat, 4) + zero_padded(m as nat, 2) + zero_padded(d as nat, 2)
        },
        AcceptSource::Time => {
            let t = now % 86400;
            zero_padded((t / 3600) as nat, 2) + zero_padded(((t % 3600) / 60) as nat, 2)
                + zero_padded((t % 60) as nat, 2)
        },
        AcceptSource::DayOfWeek => decimal((((days + 3) % 7) + 1) as nat),
    }
}

/// How deep PERFORM may nest.
pub const MAX_RECURSION_DEPTH: usize = 100;

/// How many times PERFORM ... UNTIL may run its paragraph.
pub const MAX_LOOP_ITERATIONS: usize = 10000;

/// The remaining nesting allowance at `depth`.
pub open spec fn depth_room(depth: nat) -> nat {
    if depth <= 100 {
        (101 - depth) as nat
    } else {
        0
    }
}

/// The size of a statement: one more than the sizes of the statements it holds.
pub open spec fn stmt_size(s: Statement) -> nat
    decreases s,
{
    match s {
        Statement::If { then_body, else_body, .. } => 1 + block_size(then_body@) + block_size(
            else_body@,
        ),
        Statement::Evaluate { whens, other, .. } => 2 + whens_size(whens@) + block_size(other@),
        _ => 1,
    }
}

/// The size of a list of statements.
pub open spec fn block_size(ss: Seq<Statement>) -> nat
    decreases ss,
{
    if ss.len() == 0 {
        0
    } else {
        1 + stmt_size(ss[0]) + block_size(ss.drop_first())
    }
}

/// The size of a list of WHEN clauses.
pub open spec fn whens_size(ws: Seq<WhenClause>) -> nat
    decreases ws,
{
    if ws.len() == 0 {
        0
    } else {
        1 + block_size(ws[0].body@) + whens_size(ws.drop_first())
    }
}

/// The arithmetic operator of an ADD, SUBTRACT, MULTIPLY or DIVIDE statement.
pub open spec fn arith_update(
    op: ArithOp,
    source: Expr,
    target: String,
    st: Vars,
    rs: Seq<Reply>,
    k: nat,
) -> Outcome {
    if k < rs.len() {
        match reply_update(rs[k as int]) {
            Some(v) => Outcome::Done { vars: st.insert(target@, v), next: k + 1 },
            None => Outcome::Done { vars: st, next: k + 1 },
        }
    } else {
        Outcome::Pending {
            request: SpecRequest::Arith {
                op,
                left: SpecOperand::Text(var(st, target@)),
                right: operand_of(source, st),
            },
        }
    }
}

/// Running a paragraph by name: nothing happens beyond the nesting limit or
/// for an unknown paragraph; otherwise its statements run in order.
pub open spec fn run_paragraph(
    name: Seq<char>,
    p: ParagraphMap,
    defs: StateMap,
    st: Vars,
    depth: nat,
    rs: Seq<Reply>,
    k: nat,
) -> Outcome
    decreases depth_room(depth), 1nat, 0nat, 0nat,
{
    if depth > 100 {
        Outcome::Done { vars: st, next: k }
    } else if !p@.contains_key(name) {
        Outcome::Done { vars: st, next: k }
    } else {
        run_block(p@[name].statements@, p, defs, st, depth, rs, k)
    }
}

/// Running statements in order.
pub open spec fn run_block(
    ss: Seq<Statement>,
    p: ParagraphMap,
    defs: StateMap,
    st: Vars,
    depth: nat,
    rs: Seq<Reply>,
    k: nat,
) -> Outcome
    decreases depth_room(depth), 0nat, block_size(ss), 0nat,
{
    if ss.len() == 0 {
        Outcome::Done { vars: st, next: k }
    } else {
        match run_stmt(ss[0], p, defs, st, depth, rs, k) {
            Outcome::Done { vars, next } => run_block(ss.drop_first(), p, defs, vars, depth, rs, next),
            Outcome::Pending { request } => Outcome::Pending { request },
        }
    }
}

/// Running the WHEN clauses of an EVALUATE: the body of the first clause
/// whose value equals the subject, or the WHEN OTHER statements.
pub open spec fn run_whens(
    ws: Seq<WhenClause>,
    other: Seq<Statement>,
    subject: Seq<char>,
    p: ParagraphMap,
    defs: StateMap,
    st: Vars,
    depth: nat,
    rs: Seq<Reply>,
    k: nat,
) -> Outcome
    decreases depth_room(depth), 0nat, 1 + whens_size(ws) + block_size(other), 0nat,
{
    if ws.len() == 0 {
        run_block(other, p, defs, st, depth, rs, k)
    } else {
        match eval_expr(ws[0].value, st, rs, k) {
            Eval::Pending { request } => Outcome::Pending { request },
            Eval::Ready { value, next } => if value == subject {
                run_block(ws[0].body@, p, defs, st, depth, rs, next)
            } else {
                run_whens(ws.drop_first(), other, subject, p, defs, st, depth, rs, next)
            },
        }
    }
}

/// Running PERFORM ... UNTIL from iteration `iter`: while the condition is
/// false and fewer than the iteration limit have run, run the paragraph.
pub open spec fn run_until(
    paragraph: Seq<char>,
    cond: Condition,
    iter: nat,
    p: ParagraphMap,
    defs: StateMap,
    st: Vars,
    depth: nat,
    rs: Seq<Reply>,
    k: nat,
) -> Outcome
    decreases depth_room(depth), 0nat, 0nat, 10001 - iter,
{
    if iter >= 10000 {
        Outcome::Done { vars: st, next: k }
    } else {
        match eval_condition(cond, defs, st, rs, k) {
            Eval::Pending { request } => Outcome::Pending { request },
            Eval::Ready { value: true, next } => Outcome::Done { vars: st, next },
            Eval::Ready { value: false, next } => if depth >= 100 {
                run_until(paragraph, cond, iter + 1, p, defs, st, depth, rs, next)
            } else {
                match run_paragraph(paragraph, p, defs, st, depth + 1, rs, next) {
                    Outcome::Done { vars, next: k2 } => run_until(
                        paragraph,
                        cond,
                        iter + 1,
                        p,
                        defs,
                        vars,
                        depth,
                        rs,
                        k2,
                    ),
                    Outcome::Pending { request } => Outcome::Pending { request },
                }
            },
        }
    }
}

/// Running one statement.
pub open spec fn run_stmt(
    s: Statement,
    p: ParagraphMap,
    defs: StateMap,
    st: Vars,
    depth: nat,
    rs: Seq<Reply>,
    k: nat,
) -> Outcome
    decreases depth_room(depth), 0nat, stmt_size(s), 0nat,
{
    match s {
        Statement::Move { source, target } => match eval_expr(source, st, rs, k) {
            Eval::Ready { value, next } => Outcome::Done { vars: st.insert(target@, value), next },
            Eval::Pending { request } => Outcome::Pending { request },
        },
        Statement::Add { source, target } => arith_update(ArithOp::Add, source, target, st, rs, k),
        Statement::Subtract { source, target } => arith_update(
            ArithOp::Subtract,
            source,
            target,
            st,
            rs,
            k,
        ),
        Statement::Multiply { source, target } => arith_update(
            ArithOp::Multiply,
            source,
            target,
            st,
            rs,
            k,
        ),
        Statement::Divide { source, target } => arith_update(
            ArithOp::Divide,
            source,
            target,
            st,
            rs,
            k,
        ),
        Statement::Display { values } => match eval_exprs(values@, st, rs, k) {
            Eval::Ready { value, next } => Outcome::Done {
                vars: st.insert("STATUS-MSG"@, join(value, ' ')),
                next,
            },
            Eval::Pending { request } => Outcome::Pending { request },
        },
        Statement::If { condition, then_body, else_body } => match eval_condition(
            condition,
            defs,
            st,
            rs,
            k,
        ) {
            Eval::Ready { value, next } => if value {
                run_block(then_body@, p, defs, st, depth, rs, next)
            } else {
                run_block(else_body@, p, defs, st, depth, rs, next)
            },
            Eval::Pending { request } => Outcome::Pending { request },
        },
        Statement::Perform { paragraph } => if depth >= 100 {
            Outcome::Done { vars: st, next: k }
        } else {
            run_paragraph(paragraph@, p, defs, st, depth + 1, rs, k)
        },
        Statement::StringConcat { sources, into } => match concat_sources(sources@, st, rs, k) {
            Eval::Ready { value, next } => Outcome::Done { vars: st.insert(into@, value), next },
            Eval::Pending { request } => Outcome::Pending { request },
        },
        Statement::Evaluate { subject, whens, other } => match eval_expr(subject, st, rs, k) {
            Eval::Ready { value, next } => run_whens(
                whens@,
                other@,
                value,
                p,
                defs,
                st,
                depth,
                rs,
                next,
            ),
            Eval::Pending { request } => Outcome::Pending { request },
        },
        Statement::PerformUntil { paragraph, condition } => run_until(
            paragraph@,
            condition,
            0,
            p,
            defs,
            st,
            depth,
            rs,
            k,
        ),
        Statement::Compute { target, expression } => if k < rs.len() {
            Outcome::Done { vars: st.insert(target@, reply_text(rs[k as int])), next: k + 1 }
        } else {
            Outcome::Pending {
                request: SpecRequest::Compute { expr: num_expr_of(expression, st) },
            }
        },
        Statement::Accept { target, source } => if k < rs.len() {
            Outcome::Done {
                vars: st.insert(target@, accept_text(source, reply_seconds(rs[k as int]))),
                next: k + 1,
            }
        } else {
            Outcome::Pending { request: SpecRequest::Clock }
        },
        Statement::SetCondition { condition, value } => match find_condition(
            defs.values(),
            condition@,
        ) {
            Some((field, v)) => if value {
                Outcome::Done { vars: st.insert(field, v), next: k }
            } else {
                Outcome::Done { vars: st, next: k }
            },
            None => Outcome::Done { vars: st, next: k },
        },
        Statement::StopRun => Outcome::Done { vars: st, next: k },
    }
}

// ---------------------------------------------------------------------------
// Executable interpreter
// ---------------------------------------------------------------------------

/// How the model of the state follows an insertion.
pub proof fn lemma_vars_insert(before: RuntimeState, after: RuntimeState, k: String, v: String)
    requires
        after@ == before@.insert(k@, v),
    ensures
        vars_of(after) == vars_of(before).insert(k@, v@),
{
    assert(vars_of(after) =~= vars_of(before).insert(k@, v@));
}

/// Stores a value in the state.
fn store(st: &mut RuntimeState, key: String, value: String)
    ensures
        vars_of(*final(st)) == vars_of(*old(st)).insert(key@, value@),
{
    let ghost k = key;
    let ghost v = value;
    st.insert(key, value);
    proof { lemma_vars_insert(*old(st), *st, k, v); }
}

/// The value of a variable, or the empty string.
fn load(st: &RuntimeState, name: &str) -> (r: String)
    ensures
        r@ == var(vars_of(*st), name@),
{
    match st.get(name) {
        Some(v) => v.clone(),
        None => String::new(),
    }
}

/// The text of a reply.
fn text_of(r: &Reply) -> (t: String)
    ensures
        t@ == reply_text(*r),
{
    match r {
        Reply::Text(t) => t.clone(),
        _ => String::new(),
    }
}

/// The flag of a reply.
fn flag_of(r: &Reply) -> (b: bool)
    ensures
        b == reply_flag(*r),
{
    match r {
        Reply::Flag(b) => *b,
        _ => false,
    }
}

/// Whether `r` holds a value and `q` is the model of that request.
pub open spec fn pending_is<T>(r: Result<T, Request>, q: SpecRequest) -> bool {
    match r {
        Ok(_) => false,
        Err(req) => req@ == q,
    }
}

/// Whether `r` reports the evaluation `e` of a string.
pub open spec fn text_result(r: Result<(String, usize), Request>, e: Eval<Seq<char>>) -> bool {
    match e {
        Eval::Ready { value, next } => match r {
            Ok((v, n)) => v@ == value && n == next,
            Err(_) => false,
        },
        Eval::Pending { request } => pending_is(r, request),
    }
}

fn eval_expr_exec(e: &Expr, st: &RuntimeState, rs: &Vec<Reply>, k: usize) -> (r: Result<
    (String, usize),
    Request,
>)
    requires
        k <= rs.len(),
    ensures
        text_result(r, eval_expr(*e, vars_of(*st), rs@, k as nat)),
        r matches Ok((_, n)) ==> k <= n <= rs.len(),
{
    match e {
        Expr::Literal(s) => Ok((s.clone(), k)),
        Expr::NumericLiteral(t) => if k < rs.len() {
            Ok((text_of(&rs[k]), k + 1))
        } else {
            Err(Request::Render { number: t.clone() })
        },
        Expr::Variable(n) => Ok((load(st, n.as_str()), k)),
    }
}

fn operand_exec(e: &Expr, st: &RuntimeState) -> (o: Operand)
    ensures
        operand_view(o) == operand_of(*e, vars_of(*st)),
{
    match e {
        Expr::NumericLiteral(t) => Operand::Number(t.clone()),
        Expr::Literal(s) => Operand::Text(s.clone()),
        Expr::Variable(n) => Operand::Text(load(st, n.as_str())),
    }
}

fn eval_exprs_exec(es: &Vec<Expr>, st: &RuntimeState, rs: &Vec<Reply>, k: usize) -> (r: Result<
    (Vec<String>, usize),
    Request,
>)
    requires
        k <= rs.len(),
    ensures
        match eval_exprs(es@, vars_of(*st), rs@, k as nat) {
            Eval::Ready { value, next } => match r {
                Ok((vs, n)) => vs@.map_values(|s: String| s@) == value && n == next && n
                    <= rs.len(),
                Err(_) => false,
            },
            Eval::Pending { request } => pending_is(r, request),
        },
        r matches Ok((_, n)) ==> k <= n <= rs.len(),
{
    let mut vals: Vec<String> = Vec::new();
    let mut kk = k;
    let mut i: usize = 0;
    assert(es@.take(0) =~= Seq::<Expr>::empty());
    assert(vals@.map_values(|s: String| s@) =~= Seq::<Seq<char>>::empty());
    while i < es.len()
        invariant
            i <= es.len(),
            k <= kk <= rs.len(),
            eval_exprs(es@.take(i as int), vars_of(*st), rs@, k as nat) == (Eval::Ready {
                value: vals@.map_values(|s: String| s@),
                next: kk as nat,
            }),
        decreases es.len() - i,
    {
        assert(es@.take(i + 1).drop_last() =~= es@.take(i as int));
        assert(es@.take(i + 1).last() == es@[i as int]);
        match eval_expr_exec(&es[i], st, rs, kk) {
            Ok((v, n)) => {
                let ghost before = vals@;
                vals.push(v);
                assert(vals@.map_values(|s: String| s@) =~= before.map_values(|s: String| s@).push(
                    v@,
                ));
                kk = n;
            },
            Err(q) => {
                assert(es@.take(i + 1) =~= es@.take(i + 1));
                proof { lemma_exprs_pending(es@, i as int, vars_of(*st), rs@, k as nat); }
                return Err(q);
            },
        }
        i = i + 1;
    }
    assert(es@.take(es.len() as int) =~= es@);
    Ok((vals, kk))
}

/// A pending evaluation of a prefix stays pending for the whole list.
proof fn lemma_exprs_pending(es: Seq<Expr>, i: int, st: Vars, rs: Seq<Reply>, k: nat)
    requires
        0 <= i < es.len(),
        eval_exprs(es.take(i + 1), st, rs, k) is Pending,
    ensures
        eval_exprs(es, st, rs, k) == eval_exprs(es.take(i + 1), st, rs, k),
    decreases es.len(),
{
    if i + 1 < es.len() {
        assert(es.drop_last().take(i + 1) =~= es.take(i + 1));
        lemma_exprs_pending(es.drop_last(), i, st, rs, k);
    } else {
        assert(es.take(i + 1) =~= es);
    }
}

/// The join of strings with one separator character.
fn join_exec(parts: &Vec<String>, sep: char) -> (r: String)
    ensures
        r@ == join(parts@.map_values(|s: String| s@), sep),
{
    let mut out = String::new();
    let mut i: usize = 0;
    while i < parts.len()
        invariant
            i <= parts.len(),
            out@ == join(parts@.take(i as int).map_values(|s: String| s@), sep),
        decreases parts.len() - i,
    {
        let ghost prev = parts@.take(i as int).map_values(|s: String| s@);
        let ghost next = parts@.take(i + 1).map_values(|s: String| s@);
        assert(next.drop_last() =~= prev);
        assert(next.last() == parts@[i as int]@);
        if i > 0 {
            push_char(&mut out, sep);
        } else {
            assert(next =~= seq![parts@[0]@]);
        }
        push_str(&mut out, parts[i].as_str());
        i = i + 1;
    }
    assert(parts@.take(parts.len() as int) =~= parts@);
    out
}

/// Whether `a` comes before `b` in lexicographic order.
fn text_less_exec(a: &Vec<char>, b: &Vec<char>) -> (r: bool)
    ensures
        r == text_less(a@, b@),
{
    let mut i: usize = 0;
    assert(a@.skip(0) =~= a@);
    assert(b@.skip(0) =~= b@);
    while i < a.len() && i < b.len() && a[i] == b[i]
        invariant
            i <= a.len(),
            i <= b.len(),
            text_less(a@, b@) == text_less(a@.skip(i as int), b@.skip(i as int)),
        decreases a.len() - i,
    {
        proof {
            let sa = a@.skip(i as int);
            let sb = b@.skip(i as int);
            assert(sa.drop_first() =~= a@.skip(i + 1));
            assert(sb.drop_first() =~= b@.skip(i + 1));
        }
        i = i + 1;
    }
    let ghost sa = a@.skip(i as int);
    let ghost sb = b@.skip(i as int);
    if i >= b.len() {
        assert(sb.len() == 0);
        false
    } else if i >= a.len() {
        assert(sa.len() == 0);
        true
    } else {
        assert(sa[0] == a@[i as int] && sb[0] == b@[i as int]);
        (a[i] as u32) < (b[i] as u32)
    }
}

/// A comparison of strings.
fn compare_text_exec(op: CompareOp, a: &String, b: &String) -> (r: bool)
    ensures
        r == compare_text(op, a@, b@),
{
    let av = chars_of(a.as_str());
    let bv = chars_of(b.as_str());
    match op {
        CompareOp::Equal => *a == *b,
        CompareOp::NotEqual => !(*a == *b),
        CompareOp::GreaterThan => text_less_exec(&bv, &av),
        CompareOp::LessThan => text_less_exec(&av, &bv),
        CompareOp::GreaterOrEqual => !text_less_exec(&av, &bv),
        CompareOp::LessOrEqual => !text_less_exec(&bv, &av),
    }
}

/// Finds the first field defining the condition `c`: its name and the condition's value.
fn find_condition_exec(defs: &StateMap, c: &String) -> (r: Option<(String, String)>)
    ensures
        match find_condition(defs.values(), c@) {
            Some((f, v)) => r matches Some((rf, rv)) && rf@ == f && rv@ == v,
            None => r is None,
        },
{
    let n = defs.len();
    let mut i: usize = 0;
    assert(defs.values().skip(0) =~= defs.values());
    while i < n
        invariant
            n == defs.values().len(),
            n == defs.size(),
            i <= n,
            find_condition(defs.values(), c@) == find_condition(defs.values().skip(i as int), c@),
        decreases n - i,
    {
        let field = defs.value_at(i);
        let ghost rest = defs.values().skip(i as int);
        assert(rest[0] == *field);
        assert(rest.drop_first() =~= defs.values().skip(i + 1));
        let m = field.conditions.len();
        let mut j: usize = 0;
        assert(field.conditions@.skip(0) =~= field.conditions@);
        while j < m
            invariant
                m == field.conditions@.len(),
                i < n,
                n == defs.values().len(),
                rest == defs.values().skip(i as int),
                rest[0] == *field,
                find_condition(defs.values(), c@) == find_condition(rest, c@),
                j <= m,
                find_in_conditions(field.conditions@, c@) == find_in_conditions(
                    field.conditions@.skip(j as int),
                    c@,
                ),
            decreases m - j,
        {
            let ghost cs = field.conditions@.skip(j as int);
            assert(cs[0] == field.conditions@[j as int]);
            assert(cs.drop_first() =~= field.conditions@.skip(j + 1));
            if field.conditions[j].0 == *c {
                assert(find_in_conditions(cs, c@) == Some(field.conditions@[j as int].1@));
                assert(rest.len() > 0);
                assert(find_in_conditions(rest[0].conditions@, c@) == Some(
                    field.conditions@[j as int].1@,
                ));
                assert(find_condition(rest, c@) == Some(
                    (field.name@, field.conditions@[j as int].1@),
                ));
                return Some((field.name.clone(), field.conditions[j].1.clone()));
            }
            j = j + 1;
        }
        assert(field.conditions@.skip(m as int).len() == 0);
        i = i + 1;
    }
    assert(defs.values().skip(n as int).len() == 0);
    None
}

/// Whether `r` reports the evaluation `e` of a truth value.
pub open spec fn flag_result(r: Result<(bool, usize), Request>, e: Eval<bool>) -> bool {
    match e {
        Eval::Ready { value, next } => match r {
            Ok((v, n)) => v == value && n == next,
            Err(_) => false,
        },
        Eval::Pending { request } => pending_is(r, request),
    }
}

fn eval_condition_exec(
    c: &Condition,
    defs: &StateMap,
    st: &RuntimeState,
    rs: &Vec<Reply>,
    k: usize,
) -> (r: Result<(bool, usize), Request>)
    requires
        k <= rs.len(),
    ensures
        flag_result(r, eval_condition(*c, *defs, vars_of(*st), rs@, k as nat)),
        r matches Ok((_, n)) ==> k <= n <= rs.len(),
{
    match c {
        Condition::Compare { left, op, right } => {
            let (ls, k1) = match eval_expr_exec(left, st, rs, k) {
                Ok(x) => x,
                Err(q) => {
                    return Err(q);
                },
            };
            let (rv, k2) = match eval_expr_exec(right, st, rs, k1) {
                Ok(x) => x,
                Err(q) => {
                    return Err(q);
                },
            };
            let numeric = matches!(left, Expr::NumericLiteral(_)) || matches!(
                right,
                Expr::NumericLiteral(_)
            ) || (matches!(left, Expr::Variable(_)) && matches!(right, Expr::Variable(_)));
            if !numeric {
                return Ok((compare_text_exec(*op, &ls, &rv), k2));
            }
            if k2 >= rs.len() {
                return Err(Request::IsNumber { text: ls });
            }
            if !flag_of(&rs[k2]) {
                return Ok((compare_text_exec(*op, &ls, &rv), k2 + 1));
            }
            if k2 + 1 >= rs.len() {
                return Err(Request::IsNumber { text: rv });
            }
            if !flag_of(&rs[k2 + 1]) {
                return Ok((compare_text_exec(*op, &ls, &rv), k2 + 2));
            }
            if k2 + 2 >= rs.len() {
                return Err(
                    Request::Compare {
                        op: *op,
                        left: operand_exec(left, st),
                        right: operand_exec(right, st),
                    },
                );
            }
            Ok((flag_of(&rs[k2 + 2]), k2 + 3))
        },
        Condition::ConditionName(name) => {
            let b = match find_condition_exec(defs, name) {
                Some((field, value)) => {
                    let cur = load(st, field.as_str());
                    cur == value
                },
                None => false,
            };
            Ok((b, k))
        },
    }
}

/// The position of the first occurrence of `d` in `s`.
fn find_exec(s: &Vec<char>, d: &Vec<char>) -> (r: Option<usize>)
    ensures
        match find_from(s@, d@, 0) {
            Some(i) => r == Some(i as usize),
            None => r is None,
        },
{
    let mut i: usize = 0;
    while d.len() <= s.len() && i <= s.len() - d.len()
        invariant
            i <= s.len() + 1,
            find_from(s@, d@, 0) == find_from(s@, d@, i as int),
        decreases s.len() + 1 - i,
    {
        let mut j: usize = 0;
        while j < d.len() && s[i + j] == d[j]
            invariant
                i + d.len() <= s.len(),
                j <= d.len(),
                forall|t: int| 0 <= t < j ==> s@[i + t] == d@[t],
            decreases d.len() - j,
        {
            j = j + 1;
        }
        if j == d.len() {
            assert(s@.subrange(i as int, i + d.len()) =~= d@);
            return Some(i);
        }
        assert(s@.subrange(i as int, i + d.len())[j as int] != d@[j as int]);
        i = i + 1;
    }
    None
}

proof fn lemma_find_from(s: Seq<char>, d: Seq<char>, i: int)
    ensures
        find_from(s, d, i) matches Some(j) ==> i <= j && j + d.len() <= s.len() && 0 <= j,
    decreases s.len() + 1 - i,
{
    if !(i < 0 || i + d.len() > s.len()) && s.subrange(i, i + d.len()) != d {
        lemma_find_from(s, d, i + 1);
    }
}

/// The piece that one source of a STRING statement contributes.
fn string_piece_exec(src: &String, delim: &String) -> (r: String)
    ensures
        r@ == string_piece(src@, delim@),
{
    let size = String::from_str("SIZE");
    let space = String::from_str("SPACE");
    if *delim == size {
        return src.clone();
    }
    let sv = chars_of(src.as_str());
    let dv = if *delim == space {
        let mut v: Vec<char> = Vec::new();
        v.push(' ');
        assert(v@ =~= seq![' ']);
        v
    } else {
        chars_of(delim.as_str())
    };
    proof { lemma_find_from(sv@, dv@, 0); }
    assert(string_piece(src@, delim@) == before_first(sv@, dv@));
    match find_exec(&sv, &dv) {
        Some(i) => {
            let r = string_of(&sv, 0, i);
            assert(sv@.subrange(0, i as int) =~= sv@.take(i as int));
            assert(before_first(sv@, dv@) == sv@.take(i as int));
            r
        },
        None => {
            assert(before_first(sv@, dv@) == sv@);
            src.clone()
        },
    }
}

fn concat_sources_exec(
    srcs: &Vec<(Expr, Expr)>,
    st: &RuntimeState,
    rs: &Vec<Reply>,
    k: usize,
) -> (r: Result<(String, usize), Request>)
    requires
        k <= rs.len(),
    ensures
        text_result(r, concat_sources(srcs@, vars_of(*st), rs@, k as nat)),
        r matches Ok((_, n)) ==> k <= n <= rs.len(),
{
    let mut acc = String::new();
    let mut kk = k;
    let mut i: usize = 0;
    assert(srcs@.take(0) =~= Seq::<(Expr, Expr)>::empty());
    while i < srcs.len()
        invariant
            i <= srcs.len(),
            k <= kk <= rs.len(),
            concat_sources(srcs@.take(i as int), vars_of(*st), rs@, k as nat) == (Eval::Ready {
                value: acc@,
                next: kk as nat,
            }),
        decreases srcs.len() - i,
    {
        assert(srcs@.take(i + 1).drop_last() =~= srcs@.take(i as int));
        assert(srcs@.take(i + 1).last() == srcs@[i as int]);
        let (sv, k1) = match eval_expr_exec(&srcs[i].0, st, rs, kk) {
            Ok(x) => x,
            Err(q) => {
                proof { lemma_concat_pending(srcs@, i as int, vars_of(*st), rs@, k as nat); }
                return Err(q);
            },
        };
        let (dv, k2) = match eval_expr_exec(&srcs[i].1, st, rs, k1) {
            Ok(x) => x,
            Err(q) => {
                proof { lemma_concat_pending(srcs@, i as int, vars_of(*st), rs@, k as nat); }
                return Err(q);
            },
        };
        let piece = string_piece_exec(&sv, &dv);
        push_str(&mut acc, piece.as_str());
        kk = k2;
        i = i + 1;
    }
    assert(srcs@.take(srcs.len() as int) =~= srcs@);
    Ok((acc, kk))
}

proof fn lemma_concat_pending(srcs: Seq<(Expr, Expr)>, i: int, st: Vars, rs: Seq<Reply>, k: nat)
    requires
        0 <= i < srcs.len(),
        concat_sources(srcs.take(i + 1), st, rs, k) is Pending,
    ensures
        concat_sources(srcs, st, rs, k) == concat_sources(srcs.take(i + 1), st, rs, k),
    decreases srcs.len(),
{
    if i + 1 < srcs.len() {
        assert(srcs.drop_last().take(i + 1) =~= srcs.take(i + 1));
        lemma_concat_pending(srcs.drop_last(), i, st, rs, k);
    } else {
        assert(srcs.take(i + 1) =~= srcs);
    }
}

/// An arithmetic expression with its variables replaced by their values.
fn num_expr_exec(e: &ArithExpr, st: &RuntimeState) -> (r: NumExpr)
    ensures
        num_expr_view(r) == num_expr_of(*e, vars_of(*st)),
    decreases e,
{
    match e {
        ArithExpr::Num(t) => NumExpr::Leaf(Operand::Number(t.clone())),
        ArithExpr::Var(n) => NumExpr::Leaf(Operand::Text(load(st, n.as_str()))),
        ArithExpr::BinOp { left, op, right } => NumExpr::BinOp {
            left: Box::new(num_expr_exec(left, st)),
            op: *op,
            right: Box::new(num_expr_exec(right, st)),
        },
    }
}

/// Appends the decimal numeral of `n` padded with zeros to `width` digits.
fn push_zero_padded(out: &mut String, n: u64, width: usize)
    ensures
        final(out)@ == old(out)@ + zero_padded(n as nat, width as nat),
{
    let mut digits = String::new();
    push_decimal(&mut digits, n);
    assert(digits@ =~= decimal(n as nat));
    let len = digits.as_str().unicode_len();
    if len < width {
        push_repeat(out, '0', width - len);
    }
    push_str(out, digits.as_str());
    assert(out@ =~= old(out)@ + zero_padded(n as nat, width as nat));
}

/// The text that ACCEPT stores.
fn accept_text_exec(src: AcceptSource, now: u64) -> (r: String)
    ensures
        r@ == accept_text(src, now),
{
    let days = now / 86400;
    let mut out = String::new();
    match src {
        AcceptSource::Date => {
            let (y, m, d) = days_to_ymd(days);
            push_zero_padded(&mut out, y, 4);
            push_zero_padded(&mut out, m, 2);
            push_zero_padded(&mut out, d, 2);
        },
        AcceptSource::Time => {
            let t = now % 86400;
            push_zero_padded(&mut out, t / 3600, 2);
            push_zero_padded(&mut out, (t % 3600) / 60, 2);
            push_zero_padded(&mut out, t % 60, 2);
        },
        AcceptSource::DayOfWeek => {
            push_decimal(&mut out, ((days + 3) % 7) + 1);
        },
    }
    assert(out@ =~= accept_text(src, now));
    out
}

/// Whether `r` and the state `after` report the outcome `o`.
pub open spec fn outcome_result(r: Result<usize, Request>, after: RuntimeState, o: Outcome) -> bool {
    match o {
        Outcome::Done { vars, next } => match r {
            Ok(n) => n == next && vars_of(after) == vars,
            Err(_) => false,
        },
        Outcome::Pending { request } => pending_is(r, request),
    }
}

proof fn lemma_block_size_suffix(ss: Seq<Statement>, i: int)
    requires
        0 <= i < ss.len(),
    ensures
        stmt_size(ss[i]) < block_size(ss.skip(i)),
        block_size(ss.skip(i)) <= block_size(ss),
        ss.skip(i)[0] == ss[i],
        ss.skip(i).drop_first() == ss.skip(i + 1),
    decreases i,
{
    assert(ss.skip(i).drop_first() =~= ss.skip(i + 1));
    if i > 0 {
        lemma_block_size_suffix(ss.drop_first(), i - 1);
        assert(ss.drop_first().skip(i - 1) =~= ss.skip(i));
    } else {
        assert(ss.skip(0) =~= ss);
    }
}

proof fn lemma_whens_size_suffix(ws: Seq<WhenClause>, j: int)
    requires
        0 <= j < ws.len(),
    ensures
        block_size(ws[j].body@) < whens_size(ws.skip(j)),
        whens_size(ws.skip(j)) <= whens_size(ws),
        ws.skip(j)[0] == ws[j],
        ws.skip(j).drop_first() == ws.skip(j + 1),
    decreases j,
{
    assert(ws.skip(j).drop_first() =~= ws.skip(j + 1));
    if j > 0 {
        lemma_whens_size_suffix(ws.drop_first(), j - 1);
        assert(ws.drop_first().skip(j - 1) =~= ws.skip(j));
    } else {
        assert(ws.skip(0) =~= ws);
    }
}

fn run_paragraph_exec(
    name: &str,
    p: &ParagraphMap,
    defs: &StateMap,
    st: &mut RuntimeState,
    depth: usize,
    rs: &Vec<Reply>,
    k: usize,
) -> (r: Result<usize, Request>)
    requires
        k <= rs.len(),
    ensures
        outcome_result(
            r,
            *final(st),
            run_paragraph(name@, *p, *defs, vars_of(*old(st)), depth as nat, rs@, k as nat),
        ),
        r matches Ok(n) ==> k <= n <= rs.len(),
    decreases depth_room(depth as nat), 1nat, 0nat, 0nat,
{
    if depth > MAX_RECURSION_DEPTH {
        return Ok(k);
    }
    match p.get(name) {
        None => Ok(k),
        Some(para) => run_block_exec(&para.statements, p, defs, st, depth, rs, k),
    }
}

fn run_block_exec(
    ss: &Vec<Statement>,
    p: &ParagraphMap,
    defs: &StateMap,
    st: &mut RuntimeState,
    depth: usize,
    rs: &Vec<Reply>,
    k: usize,
) -> (r: Result<usize, Request>)
    requires
        k <= rs.len(),
        depth <= 100,
    ensures
        outcome_result(
            r,
            *final(st),
            run_block(ss@, *p, *defs, vars_of(*old(st)), depth as nat, rs@, k as nat),
        ),
        r matches Ok(n) ==> k <= n <= rs.len(),
    decreases depth_room(depth as nat), 0nat, block_size(ss@), 0nat,
{
    let mut kk = k;
    let mut i: usize = 0;
    assert(ss@.skip(0) =~= ss@);
    while i < ss.len()
        invariant
            i <= ss.len(),
            k <= kk <= rs.len(),
            depth <= 100,
            run_block(ss@, *p, *defs, vars_of(*old(st)), depth as nat, rs@, k as nat) == run_block(
                ss@.skip(i as int),
                *p,
                *defs,
                vars_of(*st),
                depth as nat,
                rs@,
                kk as nat,
            ),
        decreases ss.len() - i,
    {
        proof { lemma_block_size_suffix(ss@, i as int); }
        match run_stmt_exec(&ss[i], p, defs, st, depth, rs, kk) {
            Ok(n) => {
                kk = n;
            },
            Err(q) => {
                return Err(q);
            },
        }
        i = i + 1;
    }
    Ok(kk)
}

fn run_whens_exec(
    ws: &Vec<WhenClause>,
    other: &Vec<Statement>,
    subject: &String,
    p: &ParagraphMap,
    defs: &StateMap,
    st: &mut RuntimeState,
    depth: usize,
    rs: &Vec<Reply>,
    k: usize,
) -> (r: Result<usize, Request>)
    requires
        k <= rs.len(),
        depth <= 100,
    ensures
        outcome_result(
            r,
            *final(st),
            run_whens(ws@, other@, subject@, *p, *defs, vars_of(*old(st)), depth as nat, rs@, k as nat),
        ),
        r matches Ok(n) ==> k <= n <= rs.len(),
    decreases depth_room(depth as nat), 0nat, 1 + whens_size(ws@) + block_size(other@), 0nat,
{
    let mut kk = k;
    let mut j: usize = 0;
    assert(ws@.skip(0) =~= ws@);
    while j < ws.len()
        invariant
            j <= ws.len(),
            k <= kk <= rs.len(),
            depth <= 100,
            vars_of(*st) == vars_of(*old(st)),
            run_whens(ws@, other@, subject@, *p, *defs, vars_of(*old(st)), depth as nat, rs@, k as nat)
                == run_whens(
                ws@.skip(j as int),
                other@,
                subject@,
                *p,
                *defs,
                vars_of(*st),
                depth as nat,
                rs@,
                kk as nat,
            ),
        decreases ws.len() - j,
    {
        proof { lemma_whens_size_suffix(ws@, j as int); }
        let (v, n) = match eval_expr_exec(&ws[j].value, st, rs, kk) {
            Ok(x) => x,
            Err(q) => {
                return Err(q);
            },
        };
        if v == *subject {
            return run_block_exec(&ws[j].body, p, defs, st, depth, rs, n);
        }
        kk = n;
        j = j + 1;
    }
    assert(ws@.skip(ws.len() as int).len() == 0);
    run_block_exec(other, p, defs, st, depth, rs, kk)
}

fn run_until_exec(
    paragraph: &String,
    cond: &Condition,
    p: &ParagraphMap,
    defs: &StateMap,
    st: &mut RuntimeState,
    depth: usize,
    rs: &Vec<Reply>,
    k: usize,
) -> (r: Result<usize, Request>)
    requires
        k <= rs.len(),
        depth <= 100,
    ensures
        outcome_result(
            r,
            *final(st),
            run_until(paragraph@, *cond, 0, *p, *defs, vars_of(*old(st)), depth as nat, rs@, k as nat),
        ),
        r matches Ok(n) ==> k <= n <= rs.len(),
    decreases depth_room(depth as nat), 0nat, 0nat, 0nat,
{
    let mut kk = k;
    let mut iter: usize = 0;
    while iter < MAX_LOOP_ITERATIONS
        invariant
            iter <= MAX_LOOP_ITERATIONS,
            k <= kk <= rs.len(),
            depth <= 100,
            run_until(paragraph@, *cond, 0, *p, *defs, vars_of(*old(st)), depth as nat, rs@, k as nat)
                == run_until(
                paragraph@,
                *cond,
                iter as nat,
                *p,
                *defs,
                vars_of(*st),
                depth as nat,
                rs@,
                kk as nat,
            ),
        decreases MAX_LOOP_ITERATIONS - iter,
    {
        match eval_condition_exec(cond, defs, st, rs, kk) {
            Err(q) => {
                return Err(q);
            },
            Ok((true, n)) => {
                return Ok(n);
            },
            Ok((false, n)) => {
                if depth >= MAX_RECURSION_DEPTH {
                    kk = n;
                } else {
                    match run_paragraph_exec(paragraph.as_str(), p, defs, st, depth + 1, rs, n) {
                        Ok(n2) => {
                            kk = n2;
                        },
                        Err(q) => {
                            return Err(q);
                        },
                    }
                }
            },
        }
        iter = iter + 1;
    }
    Ok(kk)
}

fn arith_exec(
    op: ArithOp,
    source: &Expr,
    target: &String,
    st: &mut RuntimeState,
    rs: &Vec<Reply>,
    k: usize,
) -> (r: Result<usize, Request>)
    requires
        k <= rs.len(),
    ensures
        outcome_result(r, *final(st), arith_update(op, *source, *target, vars_of(*old(st)), rs@, k as nat)),
        r matches Ok(n) ==> k <= n <= rs.len(),
{
    if k < rs.len() {
        match &rs[k] {
            Reply::Update(Some(v)) => {
                store(st, target.clone(), v.clone());
            },
            _ => {},
        }
        Ok(k + 1)
    } else {
        Err(
            Request::Arith {
                op,
                left: Operand::Text(load(st, target.as_str())),
                right: operand_exec(source, st),
            },
        )
    }
}

fn run_stmt_exec(
    s: &Statement,
    p: &ParagraphMap,
    defs: &StateMap,
    st: &mut RuntimeState,
    depth: usize,
    rs: &Vec<Reply>,
    k: usize,
) -> (r: Result<usize, Request>)
    requires
        k <= rs.len(),
        depth <= 100,
    ensures
        outcome_result(r, *final(st), run_stmt(*s, *p, *defs, vars_of(*old(st)), depth as nat, rs@, k as nat)),
        r matches Ok(n) ==> k <= n <= rs.len(),
    decreases depth_room(depth as nat), 0nat, stmt_size(*s), 0nat,
{
    match s {
        Statement::Move { source, target } => {
            let (v, n) = match eval_expr_exec(source, st, rs, k) {
                Ok(x) => x,
                Err(q) => {
                    return Err(q);
                },
            };
            store(st, target.clone(), v);
            Ok(n)
        },
        Statement::Add { source, target } => arith_exec(ArithOp::Add, source, target, st, rs, k),
        Statement::Subtract { source, target } => arith_exec(
            ArithOp::Subtract,
            source,
            target,
            st,
            rs,
            k,
        ),
        Statement::Multiply { source, target } => arith_exec(
            ArithOp::Multiply,
            source,
            target,
            st,
            rs,
            k,
        ),
        Statement::Divide { source, target } => arith_exec(
            ArithOp::Divide,
            source,
            target,
            st,
            rs,
            k,
        ),
        Statement::Display { values } => {
            let (vs, n) = match eval_exprs_exec(values, st, rs, k) {
                Ok(x) => x,
                Err(q) => {
                    return Err(q);
                },
            };
            let msg = join_exec(&vs, ' ');
            store(st, String::from_str("STATUS-MSG"), msg);
            Ok(n)
        },
        Statement::If { condition, then_body, else_body } => {
            let (b, n) = match eval_condition_exec(condition, defs, st, rs, k) {
                Ok(x) => x,
                Err(q) => {
                    return Err(q);
                },
            };
            if b {
                run_block_exec(then_body, p, defs, st, depth, rs, n)
            } else {
                run_block_exec(else_body, p, defs, st, depth, rs, n)
            }
        },
        Statement::Perform { paragraph } => {
            if depth >= MAX_RECURSION_DEPTH {
                Ok(k)
            } else {
                run_paragraph_exec(paragraph.as_str(), p, defs, st, depth + 1, rs, k)
            }
        },
        Statement::StringConcat { sources, into } => {
            let (v, n) = match concat_sources_exec(sources, st, rs, k) {
                Ok(x) => x,
                Err(q) => {
                    return Err(q);
                },
            };
            store(st, into.clone(), v);
            Ok(n)
        },
        Statement::Evaluate { subject, whens, other } => {
            let (v, n) = match eval_expr_exec(subject, st, rs, k) {
                Ok(x) => x,
                Err(q) => {
                    return Err(q);
                },
            };
            run_whens_exec(whens, other, &v, p, defs, st, depth, rs, n)
        },
        Statement::PerformUntil { paragraph, condition } => {
            run_until_exec(paragraph, condition, p, defs, st, depth, rs, k)
        },
        Statement::Compute { target, expression } => {
            if k < rs.len() {
                let t = text_of(&rs[k]);
                store(st, target.clone(), t);
                Ok(k + 1)
            } else {
                Err(Request::Compute { expr: num_expr_exec(expression, st) })
            }
        },
        Statement::Accept { target, source } => {
            if k < rs.len() {
                let now = match &rs[k] {
                    Reply::Seconds(n) => *n,
                    _ => 0,
                };
                let t = accept_text_exec(*source, now);
                store(st, target.clone(), t);
                Ok(k + 1)
            } else {
                Err(Request::Clock)
            }
        },
        Statement::SetCondition { condition, value } => {
            match find_condition_exec(defs, condition) {
                Some((field, v)) => {
                    if *value {
                        store(st, field, v);
                    }
                    Ok(k)
                },
                None => Ok(k),
            }
        },
        Statement::StopRun => Ok(k),
    }
}

/// Runs the paragraph `name` (PERFORM nesting `depth`) on `state`, with
/// `replies` answering its requests for outside work in order.
///
/// When every request had a reply, the statements have run and `None` is
/// returned; otherwise the state is left as it was and the first request
/// without a reply is returned, to be answered and the paragraph run again.
pub fn execute_paragraph(
    name: &str,
    paragraphs: &ParagraphMap,
    state_defs: &StateMap,
    state: &mut RuntimeState,
    depth: usize,
    replies: &Vec<Reply>,
) -> (pending: Option<Request>)
    ensures
        match run_paragraph(
            name@,
            *paragraphs,
            *state_defs,
            vars_of(*old(state)),
            depth as nat,
            replies@,
            0,
        ) {
            Outcome::Done { vars, .. } => pending is None && vars_of(*final(state)) == vars,
            Outcome::Pending { request } => pending matches Some(q) && q@ == request && vars_of(
                *final(state),
            ) == vars_of(*old(state)),
        },
{
    let saved = state.duplicate();
    match run_paragraph_exec(name, paragraphs, state_defs, state, depth, replies, 0) {
        Ok(_) => None,
        Err(q) => {
            *state = saved;
            Some(q)
        },
    }
}

} // verus!
