//! Laws of the paragraph interpreter.
use crate::interp::{
    block_size, compare_text, concat_sources, depth_room, eval_condition, eval_expr, eval_exprs,
    find_condition, run_block, text_less, run_paragraph, run_stmt, run_until, run_whens, stmt_size, whens_size, Eval,
    Outcome, Reply, SpecRequest, Vars, var,
};
use crate::ir::{CompareOp, Condition, Expr, ParagraphMap, StateMap, Statement, WhenClause};
use vstd::prelude::*;

verus! {

/// Whether running finished with every variable of `st` still defined.
pub open spec fn keeps_vars(o: Outcome, st: Vars) -> bool {
    o matches Outcome::Done { vars, .. } ==> st.dom().subset_of(vars.dom())
}

/// Running a paragraph never removes a variable from the state: statements
/// only ever store values.
pub proof fn lemma_paragraph_keeps_vars(
    name: Seq<char>,
    p: ParagraphMap,
    defs: StateMap,
    st: Vars,
    depth: nat,
    rs: Seq<Reply>,
    k: nat,
)
    ensures
        keeps_vars(run_paragraph(name, p, defs, st, depth, rs, k), st),
    decreases depth_room(depth), 1nat, 0nat, 0nat,
{
    if depth <= 100 && p@.contains_key(name) {
        lemma_block_keeps_vars(p@[name].statements@, p, defs, st, depth, rs, k);
    }
}

pub proof fn lemma_block_keeps_vars(
    ss: Seq<Statement>,
    p: ParagraphMap,
    defs: StateMap,
    st: Vars,
    depth: nat,
    rs: Seq<Reply>,
    k: nat,
)
    ensures
        keeps_vars(run_block(ss, p, defs, st, depth, rs, k), st),
    decreases depth_room(depth), 0nat, block_size(ss), 0nat,
{
    if ss.len() > 0 {
        lemma_stmt_keeps_vars(ss[0], p, defs, st, depth, rs, k);
        match run_stmt(ss[0], p, defs, st, depth, rs, k) {
            Outcome::Done { vars, next } => {
                lemma_block_keeps_vars(ss.drop_first(), p, defs, vars, depth, rs, next);
            },
            _ => {},
        }
    }
}

pub proof fn lemma_whens_keeps_vars(
    ws: Seq<WhenClause>,
    other: Seq<Statement>,
    subject: Seq<char>,
    p: ParagraphMap,
    defs: StateMap,
    st: Vars,
    depth: nat,
    rs: Seq<Reply>,
    k: nat,
)
    ensures
        keeps_vars(run_whens(ws, other, subject, p, defs, st, depth, rs, k), st),
    decreases depth_room(depth), 0nat, 1 + whens_size(ws) + block_size(other), 0nat,
{
    if ws.len() == 0 {
        lemma_block_keeps_vars(other, p, defs, st, depth, rs, k);
    } else {
        match eval_expr(ws[0].value, st, rs, k) {
            Eval::Ready { value, next } => {
                if value == subject {
                    lemma_block_keeps_vars(ws[0].body@, p, defs, st, depth, rs, next);
                } else {
                    lemma_whens_keeps_vars(ws.drop_first(), other, subject, p, defs, st, depth, rs, next);
                }
            },
            _ => {},
        }
    }
}

pub proof fn lemma_until_keeps_vars(
    paragraph: Seq<char>,
    cond: Condition,
    iter: nat,
    p: ParagraphMap,
    defs: StateMap,
    st: Vars,
    depth: nat,
    rs: Seq<Reply>,
    k: nat,
)
    ensures
        keeps_vars(run_until(paragraph, cond, iter, p, defs, st, depth, rs, k), st),
    decreases depth_room(depth), 0nat, 0nat, 10001 - iter,
{
    if iter < 10000 {
        match eval_condition(cond, defs, st, rs, k) {
            Eval::Ready { value: false, next } => {
                if depth >= 100 {
                    lemma_until_keeps_vars(paragraph, cond, iter + 1, p, defs, st, depth, rs, next);
                } else {
                    lemma_paragraph_keeps_vars(paragraph, p, defs, st, depth + 1, rs, next);
                    match run_paragraph(paragraph, p, defs, st, depth + 1, rs, next) {
                        Outcome::Done { vars, next: k2 } => {
                            lemma_until_keeps_vars(paragraph, cond, iter + 1, p, defs, vars, depth, rs, k2);
                        },
                        _ => {},
                    }
                }
            },
            _ => {},
        }
    }
}

pub proof fn lemma_stmt_keeps_vars(
    s: Statement,
    p: ParagraphMap,
    defs: StateMap,
    st: Vars,
    depth: nat,
    rs: Seq<Reply>,
    k: nat,
)
    ensures
        keeps_vars(run_stmt(s, p, defs, st, depth, rs, k), st),
    decreases depth_room(depth), 0nat, stmt_size(s), 0nat,
{
    match s {
        Statement::If { condition, then_body, else_body } => {
            match eval_condition(condition, defs, st, rs, k) {
                Eval::Ready { value, next } => {
                    lemma_block_keeps_vars(then_body@, p, defs, st, depth, rs, next);
                    lemma_block_keeps_vars(else_body@, p, defs, st, depth, rs, next);
                },
                _ => {},
            }
        },
        Statement::Perform { paragraph } => {
            if depth < 100 {
                lemma_paragraph_keeps_vars(paragraph@, p, defs, st, depth + 1, rs, k);
            }
        },
        Statement::Evaluate { subject, whens, other } => {
            match eval_expr(subject, st, rs, k) {
                Eval::Ready { value, next } => {
                    lemma_whens_keeps_vars(whens@, other@, value, p, defs, st, depth, rs, next);
                },
                _ => {},
            }
        },
        Statement::PerformUntil { paragraph, condition } => {
            lemma_until_keeps_vars(paragraph@, condition, 0, p, defs, st, depth, rs, k);
        },
        _ => {},
    }
}

/// Whether `more` begins with `rs`.
pub open spec fn extends(more: Seq<Reply>, rs: Seq<Reply>) -> bool {
    rs.len() <= more.len() && forall|i: int| 0 <= i < rs.len() ==> more[i] == rs[i]
}

/// The same evaluation, when it completed.
pub open spec fn same_if_ready<T>(e: Eval<T>, f: Eval<T>) -> bool {
    e is Ready ==> f == e
}

/// The same outcome, when it completed.
pub open spec fn same_if_done(o: Outcome, q: Outcome) -> bool {
    o is Done ==> q == o
}

proof fn lemma_expr_stable(e: Expr, st: Vars, rs: Seq<Reply>, more: Seq<Reply>, k: nat)
    requires
        extends(more, rs),
    ensures
        same_if_ready(eval_expr(e, st, rs, k), eval_expr(e, st, more, k)),
        eval_expr(e, st, rs, k) matches Eval::Ready { next, .. } ==> k <= next && (next > k ==> next <= rs.len()),
{
}

proof fn lemma_exprs_stable(es: Seq<Expr>, st: Vars, rs: Seq<Reply>, more: Seq<Reply>, k: nat)
    requires
        extends(more, rs),
    ensures
        same_if_ready(eval_exprs(es, st, rs, k), eval_exprs(es, st, more, k)),
        eval_exprs(es, st, rs, k) matches Eval::Ready { next, .. } ==> k <= next && (next > k ==> next <= rs.len()),
    decreases es.len(),
{
    if es.len() > 0 {
        lemma_exprs_stable(es.drop_last(), st, rs, more, k);
        match eval_exprs(es.drop_last(), st, rs, k) {
            Eval::Ready { value, next } => {
                lemma_expr_stable(es.last(), st, rs, more, next);
            },
            _ => {},
        }
    }
}

proof fn lemma_condition_stable(c: Condition, defs: StateMap, st: Vars, rs: Seq<Reply>, more: Seq<Reply>, k: nat)
    requires
        extends(more, rs),
    ensures
        same_if_ready(eval_condition(c, defs, st, rs, k), eval_condition(c, defs, st, more, k)),
        eval_condition(c, defs, st, rs, k) matches Eval::Ready { next, .. } ==> k <= next && (next > k ==> next <= rs.len()),
{
    match c {
        Condition::Compare { left, op, right } => {
            lemma_expr_stable(left, st, rs, more, k);
            match eval_expr(left, st, rs, k) {
                Eval::Ready { value, next } => {
                    lemma_expr_stable(right, st, rs, more, next);
                },
                _ => {},
            }
        },
        _ => {},
    }
}

proof fn lemma_concat_stable(srcs: Seq<(Expr, Expr)>, st: Vars, rs: Seq<Reply>, more: Seq<Reply>, k: nat)
    requires
        extends(more, rs),
    ensures
        same_if_ready(concat_sources(srcs, st, rs, k), concat_sources(srcs, st, more, k)),
        concat_sources(srcs, st, rs, k) matches Eval::Ready { next, .. } ==> k <= next && (next > k ==> next <= rs.len()),
    decreases srcs.len(),
{
    if srcs.len() > 0 {
        lemma_concat_stable(srcs.drop_last(), st, rs, more, k);
        match concat_sources(srcs.drop_last(), st, rs, k) {
            Eval::Ready { value, next } => {
                lemma_expr_stable(srcs.last().0, st, rs, more, next);
                match eval_expr(srcs.last().0, st, rs, next) {
                    Eval::Ready { value: v2, next: n2 } => {
                        lemma_expr_stable(srcs.last().1, st, rs, more, n2);
                    },
                    _ => {},
                }
            },
            _ => {},
        }
    }
}

/// Whether an outcome consumed replies only from `rs`.
pub open spec fn within(o: Outcome, rs: Seq<Reply>, k: nat) -> bool {
    o matches Outcome::Done { next, .. } ==> k <= next && (next > k ==> next <= rs.len())
}

/// A completed run of a paragraph does not depend on replies beyond those
/// it used: given more replies, it completes the same way.
pub proof fn lemma_paragraph_stable(
    name: Seq<char>,
    p: ParagraphMap,
    defs: StateMap,
    st: Vars,
    depth: nat,
    rs: Seq<Reply>,
    more: Seq<Reply>,
    k: nat,
)
    requires
        extends(more, rs),
    ensures
        same_if_done(run_paragraph(name, p, defs, st, depth, rs, k), run_paragraph(name, p, defs, st, depth, more, k)),
        within(run_paragraph(name, p, defs, st, depth, rs, k), rs, k),
    decreases depth_room(depth), 1nat, 0nat, 0nat,
{
    if depth <= 100 && p@.contains_key(name) {
        lemma_block_stable(p@[name].statements@, p, defs, st, depth, rs, more, k);
    }
}

pub proof fn lemma_block_stable(
    ss: Seq<Statement>,
    p: ParagraphMap,
    defs: StateMap,
    st: Vars,
    depth: nat,
    rs: Seq<Reply>,
    more: Seq<Reply>,
    k: nat,
)
    requires
        extends(more, rs),
    ensures
        same_if_done(run_block(ss, p, defs, st, depth, rs, k), run_block(ss, p, defs, st, depth, more, k)),
        within(run_block(ss, p, defs, st, depth, rs, k), rs, k),
    decreases depth_room(depth), 0nat, block_size(ss), 0nat,
{
    if ss.len() > 0 {
        lemma_stmt_stable(ss[0], p, defs, st, depth, rs, more, k);
        match run_stmt(ss[0], p, defs, st, depth, rs, k) {
            Outcome::Done { vars, next } => {
                lemma_block_stable(ss.drop_first(), p, defs, vars, depth, rs, more, next);
            },
            _ => {},
        }
    }
}

pub proof fn lemma_whens_stable(
    ws: Seq<WhenClause>,
    other: Seq<Statement>,
    subject: Seq<char>,
    p: ParagraphMap,
    defs: StateMap,
    st: Vars,
    depth: nat,
    rs: Seq<Reply>,
    more: Seq<Reply>,
    k: nat,
)
    requires
        extends(more, rs),
    ensures
        same_if_done(run_whens(ws, other, subject, p, defs, st, depth, rs, k), run_whens(ws, other, subject, p, defs, st, depth, more, k)),
        within(run_whens(ws, other, subject, p, defs, st, depth, rs, k), rs, k),
    decreases depth_room(depth), 0nat, 1 + whens_size(ws) + block_size(other), 0nat,
{
    if ws.len() == 0 {
        lemma_block_stable(other, p, defs, st, depth, rs, more, k);
    } else {
        lemma_expr_stable(ws[0].value, st, rs, more, k);
        match eval_expr(ws[0].value, st, rs, k) {
            Eval::Ready { value, next } => {
                if value == subject {
                    lemma_block_stable(ws[0].body@, p, defs, st, depth, rs, more, next);
                } else {
                    lemma_whens_stable(ws.drop_first(), other, subject, p, defs, st, depth, rs, more, next);
                }
            },
            _ => {},
        }
    }
}

pub proof fn lemma_until_stable(
    paragraph: Seq<char>,
    cond: Condition,
    iter: nat,
    p: ParagraphMap,
    defs: StateMap,
    st: Vars,
    depth: nat,
    rs: Seq<Reply>,
    more: Seq<Reply>,
    k: nat,
)
    requires
        extends(more, rs),
    ensures
        same_if_done(run_until(paragraph, cond, iter, p, defs, st, depth, rs, k), run_until(paragraph, cond, iter, p, defs, st, depth, more, k)),
        within(run_until(paragraph, cond, iter, p, defs, st, depth, rs, k), rs, k),
    decreases depth_room(depth), 0nat, 0nat, 10001 - iter,
{
    if iter < 10000 {
        lemma_condition_stable(cond, defs, st, rs, more, k);
        match eval_condition(cond, defs, st, rs, k) {
            Eval::Ready { value: false, next } => {
                if depth >= 100 {
                    lemma_until_stable(paragraph, cond, iter + 1, p, defs, st, depth, rs, more, next);
                } else {
                    lemma_paragraph_stable(paragraph, p, defs, st, depth + 1, rs, more, next);
                    match run_paragraph(paragraph, p, defs, st, depth + 1, rs, next) {
                        Outcome::Done { vars, next: k2 } => {
                            lemma_until_stable(paragraph, cond, iter + 1, p, defs, vars, depth, rs, more, k2);
                        },
                        _ => {},
                    }
                }
            },
            _ => {},
        }
    }
}

pub proof fn lemma_stmt_stable(
    s: Statement,
    p: ParagraphMap,
    defs: StateMap,
    st: Vars,
    depth: nat,
    rs: Seq<Reply>,
    more: Seq<Reply>,
    k: nat,
)
    requires
        extends(more, rs),
    ensures
        same_if_done(run_stmt(s, p, defs, st, depth, rs, k), run_stmt(s, p, defs, st, depth, more, k)),
        within(run_stmt(s, p, defs, st, depth, rs, k), rs, k),
    decreases depth_room(depth), 0nat, stmt_size(s), 0nat,
{
    match s {
        Statement::Move { source, .. } => {
            lemma_expr_stable(source, st, rs, more, k);
        },
        Statement::Display { values } => {
            lemma_exprs_stable(values@, st, rs, more, k);
        },
        Statement::If { condition, then_body, else_body } => {
            lemma_condition_stable(condition, defs, st, rs, more, k);
            match eval_condition(condition, defs, st, rs, k) {
                Eval::Ready { value, next } => {
                    lemma_block_stable(then_body@, p, defs, st, depth, rs, more, next);
                    lemma_block_stable(else_body@, p, defs, st, depth, rs, more, next);
                },
                _ => {},
            }
        },
        Statement::Perform { paragraph } => {
            if depth < 100 {
                lemma_paragraph_stable(paragraph@, p, defs, st, depth + 1, rs, more, k);
            }
        },
        Statement::StringConcat { sources, .. } => {
            lemma_concat_stable(sources@, st, rs, more, k);
        },
        Statement::Evaluate { subject, whens, other } => {
            lemma_expr_stable(subject, st, rs, more, k);
            match eval_expr(subject, st, rs, k) {
                Eval::Ready { value, next } => {
                    lemma_whens_stable(whens@, other@, value, p, defs, st, depth, rs, more, next);
                },
                _ => {},
            }
        },
        Statement::PerformUntil { paragraph, condition } => {
            lemma_until_stable(paragraph@, condition, 0, p, defs, st, depth, rs, more, k);
        },
        _ => {},
    }
}

/// Whether a statement, or one nested in it, may store a value in the
/// variable `v` (a PERFORM stores only through the paragraphs it runs).
pub open spec fn stmt_writes(s: Statement, defs: StateMap, v: Seq<char>) -> bool
    decreases s,
{
    match s {
        Statement::Move { target, .. } => target@ == v,
        Statement::Add { target, .. } => target@ == v,
        Statement::Subtract { target, .. } => target@ == v,
        Statement::Multiply { target, .. } => target@ == v,
        Statement::Divide { target, .. } => target@ == v,
        Statement::Display { .. } => v == "STATUS-MSG"@,
        Statement::If { then_body, else_body, .. } => block_writes(then_body@, defs, v)
            || block_writes(else_body@, defs, v),
        Statement::StringConcat { into, .. } => into@ == v,
        Statement::Evaluate { whens, other, .. } => whens_writes(whens@, defs, v) || block_writes(
            other@,
            defs,
            v,
        ),
        Statement::Compute { target, .. } => target@ == v,
        Statement::Accept { target, .. } => target@ == v,
        Statement::SetCondition { condition, .. } => find_condition(
            defs.values(),
            condition@,
        ) matches Some((field, _)) && field == v,
        Statement::Perform { .. } => false,
        Statement::PerformUntil { .. } => false,
        Statement::StopRun => false,
    }
}

/// Whether one of the statements may store a value in `v`.
pub open spec fn block_writes(ss: Seq<Statement>, defs: StateMap, v: Seq<char>) -> bool
    decreases ss,
{
    if ss.len() == 0 {
        false
    } else {
        stmt_writes(ss[0], defs, v) || block_writes(ss.drop_first(), defs, v)
    }
}

/// Whether the body of one of the WHEN clauses may store a value in `v`.
pub open spec fn whens_writes(ws: Seq<WhenClause>, defs: StateMap, v: Seq<char>) -> bool
    decreases ws,
{
    if ws.len() == 0 {
        false
    } else {
        block_writes(ws[0].body@, defs, v) || whens_writes(ws.drop_first(), defs, v)
    }
}

/// Whether some paragraph of the program may store a value in `v`.
pub open spec fn program_writes(p: ParagraphMap, defs: StateMap, v: Seq<char>) -> bool {
    exists|name: Seq<char>| p@.contains_key(name) && block_writes(#[trigger] p@[name].statements@, defs, v)
}

/// Whether running finished with `v` as it was in `st`.
pub open spec fn keeps_var(o: Outcome, st: Vars, v: Seq<char>) -> bool {
    o matches Outcome::Done { vars, .. } ==> (vars.contains_key(v) == st.contains_key(v) && (
    st.contains_key(v) ==> vars[v] == st[v]))
}

/// Running a paragraph leaves every variable that no statement of the
/// program stores into as it was.
pub proof fn lemma_paragraph_frame(
    name: Seq<char>,
    p: ParagraphMap,
    defs: StateMap,
    st: Vars,
    depth: nat,
    rs: Seq<Reply>,
    k: nat,
    v: Seq<char>,
)
    requires
        !program_writes(p, defs, v),
    ensures
        keeps_var(run_paragraph(name, p, defs, st, depth, rs, k), st, v),
    decreases depth_room(depth), 1nat, 0nat, 0nat,
{
    if depth <= 100 && p@.contains_key(name) {
        if block_writes(p@[name].statements@, defs, v) {
            assert(program_writes(p, defs, v));
        }
        lemma_block_frame(p@[name].statements@, p, defs, st, depth, rs, k, v);
    }
}

pub proof fn lemma_block_frame(
    ss: Seq<Statement>,
    p: ParagraphMap,
    defs: StateMap,
    st: Vars,
    depth: nat,
    rs: Seq<Reply>,
    k: nat,
    v: Seq<char>,
)
    requires
        !program_writes(p, defs, v),
        !block_writes(ss, defs, v),
    ensures
        keeps_var(run_block(ss, p, defs, st, depth, rs, k), st, v),
    decreases depth_room(depth), 0nat, block_size(ss), 0nat,
{
    if ss.len() > 0 {
        lemma_stmt_frame(ss[0], p, defs, st, depth, rs, k, v);
        match run_stmt(ss[0], p, defs, st, depth, rs, k) {
            Outcome::Done { vars, next } => {
                lemma_block_frame(ss.drop_first(), p, defs, vars, depth, rs, next, v);
            },
            _ => {},
        }
    }
}

pub proof fn lemma_whens_frame(
    ws: Seq<WhenClause>,
    other: Seq<Statement>,
    subject: Seq<char>,
    p: ParagraphMap,
    defs: StateMap,
    st: Vars,
    depth: nat,
    rs: Seq<Reply>,
    k: nat,
    v: Seq<char>,
)
    requires
        !program_writes(p, defs, v),
        !whens_writes(ws, defs, v),
        !block_writes(other, defs, v),
    ensures
        keeps_var(run_whens(ws, other, subject, p, defs, st, depth, rs, k), st, v),
    decreases depth_room(depth), 0nat, 1 + whens_size(ws) + block_size(other), 0nat,
{
    if ws.len() == 0 {
        lemma_block_frame(other, p, defs, st, depth, rs, k, v);
    } else {
        match eval_expr(ws[0].value, st, rs, k) {
            Eval::Ready { value, next } => {
                if value == subject {
                    lemma_block_frame(ws[0].body@, p, defs, st, depth, rs, next, v);
                } else {
                    lemma_whens_frame(ws.drop_first(), other, subject, p, defs, st, depth, rs, next, v);
                }
            },
            _ => {},
        }
    }
}

pub proof fn lemma_until_frame(
    paragraph: Seq<char>,
    cond: Condition,
    iter: nat,
    p: ParagraphMap,
    defs: StateMap,
    st: Vars,
    depth: nat,
    rs: Seq<Reply>,
    k: nat,
    v: Seq<char>,
)
    requires
        !program_writes(p, defs, v),
    ensures
        keeps_var(run_until(paragraph, cond, iter, p, defs, st, depth, rs, k), st, v),
    decreases depth_room(depth), 0nat, 0nat, 10001 - iter,
{
    if iter < 10000 {
        match eval_condition(cond, defs, st, rs, k) {
            Eval::Ready { value: false, next } => {
                if depth >= 100 {
                    lemma_until_frame(paragraph, cond, iter + 1, p, defs, st, depth, rs, next, v);
                } else {
                    lemma_paragraph_frame(paragraph, p, defs, st, depth + 1, rs, next, v);
                    match run_paragraph(paragraph, p, defs, st, depth + 1, rs, next) {
                        Outcome::Done { vars, next: k2 } => {
                            lemma_until_frame(paragraph, cond, iter + 1, p, defs, vars, depth, rs, k2, v);
                        },
                        _ => {},
                    }
                }
            },
            _ => {},
        }
    }
}

pub proof fn lemma_stmt_frame(
    s: Statement,
    p: ParagraphMap,
    defs: StateMap,
    st: Vars,
    depth: nat,
    rs: Seq<Reply>,
    k: nat,
    v: Seq<char>,
)
    requires
        !program_writes(p, defs, v),
        !stmt_writes(s, defs, v),
    ensures
        keeps_var(run_stmt(s, p, defs, st, depth, rs, k), st, v),
    decreases depth_room(depth), 0nat, stmt_size(s), 0nat,
{
    match s {
        Statement::If { condition, then_body, else_body } => {
            match eval_condition(condition, defs, st, rs, k) {
                Eval::Ready { value, next } => {
                    lemma_block_frame(then_body@, p, defs, st, depth, rs, next, v);
                    lemma_block_frame(else_body@, p, defs, st, depth, rs, next, v);
                },
                _ => {},
            }
        },
        Statement::Perform { paragraph } => {
            if depth < 100 {
                lemma_paragraph_frame(paragraph@, p, defs, st, depth + 1, rs, k, v);
            }
        },
        Statement::Evaluate { subject, whens, other } => {
            match eval_expr(subject, st, rs, k) {
                Eval::Ready { value, next } => {
                    lemma_whens_frame(whens@, other@, value, p, defs, st, depth, rs, next, v);
                },
                _ => {},
            }
        },
        Statement::PerformUntil { paragraph, condition } => {
            lemma_until_frame(paragraph@, condition, 0, p, defs, st, depth, rs, k, v);
        },
        _ => {},
    }
}

/// Whether `a` sorts before `b` in dictionary order: at the first position
/// where they differ, `a`'s character has the smaller code point, or `a`
/// is a proper prefix of `b`.
pub open spec fn sorts_before(a: Seq<char>, b: Seq<char>) -> bool {
    exists|i: int|
        0 <= i <= a.len() && i <= b.len() && #[trigger] a.take(i) == b.take(i) && ((i == a.len()
            && i < b.len()) || (i < a.len() && i < b.len() && (a[i] as u32) < (b[i] as u32)))
}

proof fn lemma_text_less_is_sorts_before(a: Seq<char>, b: Seq<char>)
    ensures
        text_less(a, b) == sorts_before(a, b),
    decreases a.len(),
{
    if b.len() == 0 {
        if sorts_before(a, b) {
            let i = choose|i: int|
                0 <= i <= a.len() && i <= b.len() && #[trigger] a.take(i) == b.take(i) && ((i
                    == a.len() && i < b.len()) || (i < a.len() && i < b.len() && (a[i] as u32)
                    < (b[i] as u32)));
        }
    } else if a.len() == 0 {
        assert(a.take(0) =~= b.take(0));
    } else if a[0] != b[0] {
        if (a[0] as u32) < (b[0] as u32) {
            assert(a.take(0) =~= b.take(0));
        }
        if sorts_before(a, b) {
            let i = choose|i: int|
                0 <= i <= a.len() && i <= b.len() && #[trigger] a.take(i) == b.take(i) && ((i
                    == a.len() && i < b.len()) || (i < a.len() && i < b.len() && (a[i] as u32)
                    < (b[i] as u32)));
            if i > 0 {
                assert(a.take(i)[0] == b.take(i)[0]);
            }
        }
    } else {
        let a1 = a.drop_first();
        let b1 = b.drop_first();
        lemma_text_less_is_sorts_before(a1, b1);
        if sorts_before(a1, b1) {
            let i = choose|i: int|
                0 <= i <= a1.len() && i <= b1.len() && #[trigger] a1.take(i) == b1.take(i) && ((i
                    == a1.len() && i < b1.len()) || (i < a1.len() && i < b1.len() && (a1[i] as u32)
                    < (b1[i] as u32)));
            assert(a.take(i + 1) =~= seq![a[0]] + a1.take(i));
            assert(b.take(i + 1) =~= seq![b[0]] + b1.take(i));
            assert(a.take(i + 1) == b.take(i + 1));
        }
        if sorts_before(a, b) {
            let i = choose|i: int|
                0 <= i <= a.len() && i <= b.len() && #[trigger] a.take(i) == b.take(i) && ((i
                    == a.len() && i < b.len()) || (i < a.len() && i < b.len() && (a[i] as u32)
                    < (b[i] as u32)));
            assert(i > 0);
            assert(a.take(i) =~= seq![a[0]] + a1.take(i - 1));
            assert(b.take(i) =~= seq![b[0]] + b1.take(i - 1));
            assert(a1.take(i - 1) =~= a.take(i).drop_first());
            assert(b1.take(i - 1) =~= b.take(i).drop_first());
            assert(a1.take(i - 1) == b1.take(i - 1));
        }
    }
}

proof fn lemma_text_less_asymmetric(a: Seq<char>, b: Seq<char>)
    ensures
        text_less(a, b) ==> !text_less(b, a),
        text_less(a, b) ==> a != b,
    decreases a.len(),
{
    if a.len() > 0 && b.len() > 0 && a[0] == b[0] {
        lemma_text_less_asymmetric(a.drop_first(), b.drop_first());
        if a == b {
            assert(a.drop_first() == b.drop_first());
        }
    }
}

/// Text comparisons: LESS THAN is dictionary order by code point, GREATER
/// THAN is LESS THAN with the operands exchanged (and never holds together
/// with LESS THAN), the inclusive comparisons are the negations of the
/// strict ones, and EQUAL and NOT EQUAL compare the texts themselves.
pub proof fn lemma_text_comparisons(a: Seq<char>, b: Seq<char>)
    ensures
        compare_text(CompareOp::LessThan, a, b) == sorts_before(a, b),
        compare_text(CompareOp::GreaterThan, a, b) == sorts_before(b, a),
        compare_text(CompareOp::GreaterThan, a, b) ==> !compare_text(CompareOp::LessThan, a, b),
        compare_text(CompareOp::GreaterThan, a, b) ==> a != b,
        compare_text(CompareOp::GreaterOrEqual, a, b) == !sorts_before(a, b),
        compare_text(CompareOp::LessOrEqual, a, b) == !sorts_before(b, a),
        compare_text(CompareOp::Equal, a, b) == (a == b),
        compare_text(CompareOp::NotEqual, a, b) == (a != b),
{
    lemma_text_less_is_sorts_before(a, b);
    lemma_text_less_is_sorts_before(b, a);
    lemma_text_less_asymmetric(a, b);
    lemma_text_less_asymmetric(b, a);
}

/// How a comparison of two values is made. Two quoted literals, or a
/// variable and a quoted literal, are compared as text at once, with no
/// outside work. Two variables are compared as numbers when both read as
/// numbers: the first thing asked is whether the left value reads as a
/// number.
pub proof fn lemma_comparison_kinds(
    a: String,
    b: String,
    op: CompareOp,
    defs: StateMap,
    st: Vars,
    rs: Seq<Reply>,
    k: nat,
)
    ensures
        eval_condition(
            Condition::Compare { left: Expr::Literal(a), op, right: Expr::Literal(b) },
            defs,
            st,
            rs,
            k,
        ) == (Eval::Ready { value: compare_text(op, a@, b@), next: k }),
        eval_condition(
            Condition::Compare { left: Expr::Variable(a), op, right: Expr::Literal(b) },
            defs,
            st,
            rs,
            k,
        ) == (Eval::Ready { value: compare_text(op, var(st, a@), b@), next: k }),
        eval_condition(
            Condition::Compare { left: Expr::Literal(a), op, right: Expr::Variable(b) },
            defs,
            st,
            rs,
            k,
        ) == (Eval::Ready { value: compare_text(op, a@, var(st, b@)), next: k }),
        k >= rs.len() ==> eval_condition(
            Condition::Compare { left: Expr::Variable(a), op, right: Expr::Variable(b) },
            defs,
            st,
            rs,
            k,
        ) == (Eval::<bool>::Pending { request: SpecRequest::IsNumber { text: var(st, a@) } }),
{
}

} // verus!
