//! The parser: COBALT source to the intermediate representation.
use crate::grammar::{
    all_digits, arith_statement, attach_condition, digits_at, digits_u8, digits_usize,
    digits_value, header_at, ident_at, is_digit, is_letter, is_reserved, is_statement_keyword,
    p_block, p_clauses, p_compare_op, p_condition, p_data_division, p_data_entry, p_delimiter,
    p_expr, p_exprs, p_identification, p_level_88, p_paragraphs, p_paren_digits, p_pic,
    p_procedure, p_program, p_screen_entries, p_sentences, p_source, p_sources, p_statement,
    p_target, p_ws_entries, paragraphs_of, screens_of, starts_paragraph, starts_statement,
    state_of, target_keyword, tok_at, value_at, word_at,
};
use crate::ir::{
    CobaltApp, CompareOp, Condition, Expr, Handler, Node, Paragraph, ParagraphMap, PicClause,
    PicKind, Screen, StateField, StateMap, Statement,
};
use crate::lexer::{lex, tokenize, tokens_view, SpecToken, Token};
use crate::model::{
    app_view, condition_view, expr_view, exprs_view, field_view, handler_view, lemma_nodes_view,
    node_view, nodes_view, opt_view, paragraph_pairs, paragraph_view, screen_view, sources_view,
    state_pairs, stmt_view, stmts_view, SpecApp, SpecExpr, SpecNode, SpecParagraph,
    SpecStateField, SpecStatement,
};
use crate::source::{ascii_lower, ascii_upper, is_ascii, normalize_source, normalize_upper, normalized};
use crate::table::{lemma_pairs_insert, Table};
use crate::text::chars_of;
use crate::tree::{build_tree, clone_opt, entries_view, entry_view, pairs_view, FlatEntry, SpecEntry};
use vstd::prelude::*;

verus! {

/// Whether `w` is the keyword `kw`.
fn is_word(w: &String, kw: &str) -> (b: bool)
    ensures
        b == (w@ == kw@),
{
    *w == String::from_str(kw)
}

/// Whether token `i` is the word `kw`.
fn word_is(t: &Vec<Token>, i: usize, kw: &str) -> (b: bool)
    ensures
        b == word_at(tokens_view(t@), i as int, kw@),
        b ==> i < t.len(),
{
    if i < t.len() {
        match &t[i] {
            Token::Word(w) => is_word(w, kw),
            _ => false,
        }
    } else {
        false
    }
}

/// Whether token `i` is a period.
fn period_at(t: &Vec<Token>, i: usize) -> (b: bool)
    ensures
        b == tok_at(tokens_view(t@), i as int, SpecToken::Period),
        b ==> i < t.len(),
{
    i < t.len() && matches!(t[i], Token::Period)
}

fn is_statement_keyword_exec(w: &String) -> (b: bool)
    ensures
        b == is_statement_keyword(w@),
{
    is_word(w, "MOVE") || is_word(w, "ADD") || is_word(w, "SUBTRACT") || is_word(w, "MULTIPLY")
        || is_word(w, "DIVIDE") || is_word(w, "DISPLAY") || is_word(w, "PERFORM") || is_word(
        w,
        "STOP",
    ) || is_word(w, "IF") || is_word(w, "STRING")
}

fn is_reserved_exec(w: &String) -> (b: bool)
    ensures
        b == is_reserved(w@),
{
    is_statement_keyword_exec(w) || is_word(w, "TO") || is_word(w, "FROM") || is_word(w, "BY")
        || is_word(w, "INTO") || is_word(w, "RUN") || is_word(w, "ELSE") || is_word(w, "END-IF")
        || is_word(w, "NOT") || is_word(w, "DELIMITED") || is_word(w, "SIZE") || is_word(
        w,
        "SPACE",
    ) || is_word(w, "SPACES") || is_word(w, "PIC") || is_word(w, "VALUE") || is_word(w, "USING")
        || is_word(w, "ON-ACTION") || is_word(w, "GO-TO-SCREEN") || is_word(w, "BACKGROUND-COLOR")
        || is_word(w, "FOREGROUND-COLOR") || is_word(w, "IDENTIFICATION") || is_word(
        w,
        "PROGRAM-ID",
    ) || is_word(w, "DATA") || is_word(w, "DIVISION") || is_word(w, "SECTION") || is_word(
        w,
        "WORKING-STORAGE",
    ) || is_word(w, "SCREEN") || is_word(w, "PROCEDURE")
}

/// Whether a word is an identifier.
fn is_ident_word(w: &String) -> (b: bool)
    ensures
        b == (w@.len() > 0 && is_letter(w@[0]) && !is_reserved(w@)),
{
    let cs = chars_of(w.as_str());
    if cs.len() == 0 {
        return false;
    }
    let c = cs[0];
    (('A' <= c && c <= 'Z') || ('a' <= c && c <= 'z')) && !is_reserved_exec(w)
}

/// Whether a word is a nonempty run of digits.
fn is_digits_word(w: &String) -> (b: bool)
    ensures
        b == all_digits(w@),
{
    let cs = chars_of(w.as_str());
    if cs.len() == 0 {
        return false;
    }
    let mut i: usize = 0;
    while i < cs.len()
        invariant
            i <= cs.len(),
            cs@ == w@,
            forall|k: int| 0 <= k < i ==> is_digit(cs@[k]),
        decreases cs.len() - i,
    {
        if !('0' <= cs[i] && cs[i] <= '9') {
            return false;
        }
        i = i + 1;
    }
    true
}

/// The identifier at token `i`.
fn ident_exec(t: &Vec<Token>, i: usize) -> (r: Option<String>)
    ensures
        opt_view(r) == ident_at(tokens_view(t@), i as int),
        r is Some ==> i < t.len(),
{
    if i < t.len() {
        match &t[i] {
            Token::Word(w) => if is_ident_word(w) {
                Some(w.clone())
            } else {
                None
            },
            _ => None,
        }
    } else {
        None
    }
}

/// The digits at token `i`.
fn digits_exec(t: &Vec<Token>, i: usize) -> (r: Option<String>)
    ensures
        opt_view(r) == digits_at(tokens_view(t@), i as int),
        r is Some ==> i < t.len(),
{
    if i < t.len() {
        match &t[i] {
            Token::Word(w) => if is_digits_word(w) {
                Some(w.clone())
            } else {
                None
            },
            _ => None,
        }
    } else {
        None
    }
}

proof fn lemma_digits_value_step(w: Seq<char>, i: int)
    requires
        0 <= i < w.len(),
    ensures
        digits_value(w.take(i + 1)) == digits_value(w.take(i)) * 10 + ((w[i] as u32) - ('0' as u32)) as nat,
{
    assert(w.take(i + 1).drop_last() =~= w.take(i));
}

/// A run of digits read as a `usize`.
pub fn digits_to_usize(w: &String) -> (r: Option<usize>)
    requires
        all_digits(w@),
    ensures
        r == digits_usize(w@),
{
    let cs = chars_of(w.as_str());
    let mut acc: usize = 0;
    let mut over = false;
    let mut i: usize = 0;
    assert(cs@.take(0) =~= Seq::<char>::empty());
    while i < cs.len()
        invariant
            i <= cs.len(),
            cs@ == w@,
            all_digits(w@),
            !over ==> acc == digits_value(cs@.take(i as int)),
            over ==> digits_value(cs@.take(i as int)) > usize::MAX,
        decreases cs.len() - i,
    {
        proof { lemma_digits_value_step(cs@, i as int); }
        assert(is_digit(cs@[i as int]));
        let d = (cs[i] as u32 - '0' as u32) as usize;
        if !over {
            match acc.checked_mul(10) {
                Some(m) => match m.checked_add(d) {
                    Some(s) => {
                        acc = s;
                    },
                    None => {
                        over = true;
                    },
                },
                None => {
                    over = true;
                },
            }
        }
        i = i + 1;
    }
    assert(cs@.take(cs.len() as int) =~= cs@);
    if over {
        None
    } else {
        Some(acc)
    }
}

/// A run of digits read as a `u8`.
pub fn digits_to_u8(w: &String) -> (r: Option<u8>)
    requires
        all_digits(w@),
    ensures
        r == digits_u8(w@),
{
    match digits_to_usize(w) {
        Some(v) => if v <= 255 {
            Some(v as u8)
        } else {
            None
        },
        None => None,
    }
}

/// Whether `r` reports the parse `s` of an expression.
pub open spec fn expr_parsed(r: Option<(Expr, usize)>, s: Option<(SpecExpr, int)>) -> bool {
    match s {
        Some((e, j)) => r matches Some((x, k)) && expr_view(x) == e && k == j,
        None => r is None,
    }
}

fn parse_expr(t: &Vec<Token>, i: usize) -> (r: Option<(Expr, usize)>)
    ensures
        expr_parsed(r, p_expr(tokens_view(t@), i as int)),
        r matches Some((_, k)) ==> k == i + 1 && i < t.len(),
{
    if i < t.len() {
        match &t[i] {
            Token::Quoted(s) => Some((Expr::Literal(s.clone()), i + 1)),
            Token::Word(w) => if is_digits_word(w) {
                Some((Expr::NumericLiteral(w.clone()), i + 1))
            } else if is_ident_word(w) {
                Some((Expr::Variable(w.clone()), i + 1))
            } else {
                None
            },
            _ => None,
        }
    } else {
        None
    }
}

fn parse_compare_op(t: &Vec<Token>, i: usize) -> (r: Option<(CompareOp, usize)>)
    ensures
        match p_compare_op(tokens_view(t@), i as int) {
            Some((op, j)) => r == Some((op, j as usize)),
            None => r is None,
        },
        r matches Some((_, k)) ==> i < k <= t.len(),
{
    if i < t.len() {
        match &t[i] {
            Token::Equal => Some((CompareOp::Equal, i + 1)),
            Token::Greater => Some((CompareOp::GreaterThan, i + 1)),
            Token::Less => Some((CompareOp::LessThan, i + 1)),
            Token::GreaterEqual => Some((CompareOp::GreaterOrEqual, i + 1)),
            Token::LessEqual => Some((CompareOp::LessOrEqual, i + 1)),
            Token::Word(w) => if is_word(w, "NOT") && i + 1 < t.len() && matches!(
                t[i + 1],
                Token::Equal
            ) {
                Some((CompareOp::NotEqual, i + 2))
            } else {
                None
            },
            _ => None,
        }
    } else {
        None
    }
}

fn parse_condition(t: &Vec<Token>, i: usize) -> (r: Option<(Condition, usize)>)
    ensures
        match p_condition(tokens_view(t@), i as int) {
            Some((c, j)) => r matches Some((x, k)) && condition_view(x) == c && k == j,
            None => r is None,
        },
        r matches Some((_, k)) ==> i < k <= t.len(),
{
    let (left, j) = match parse_expr(t, i) {
        Some(x) => x,
        None => {
            return None;
        },
    };
    let (op, k) = match parse_compare_op(t, j) {
        Some(x) => x,
        None => {
            return None;
        },
    };
    let (right, m) = match parse_expr(t, k) {
        Some(x) => x,
        None => {
            return None;
        },
    };
    Some((Condition::Compare { left, op, right }, m))
}

fn parse_target(t: &Vec<Token>, i: usize, kw: &str) -> (r: Option<(String, usize)>)
    ensures
        match p_target(tokens_view(t@), i as int, kw@) {
            Some((n, j)) => r matches Some((x, k)) && x@ == n && k == j,
            None => r is None,
        },
        r matches Some((_, k)) ==> i < k <= t.len(),
{
    if word_is(t, i, kw) {
        match ident_exec(t, i + 1) {
            Some(n) => Some((n, i + 2)),
            None => None,
        }
    } else {
        None
    }
}

fn parse_exprs(t: &Vec<Token>, i: usize) -> (r: (Vec<Expr>, usize))
    ensures
        p_exprs(tokens_view(t@), i as int) == (exprs_view(r.0@), r.1 as int),
        i <= r.1,
{
    let ghost tv = tokens_view(t@);
    let mut out: Vec<Expr> = Vec::new();
    let mut j = i;
    assert(exprs_view(out@) + p_exprs(tv, j as int).0 =~= p_exprs(tv, i as int).0);
    while j < t.len()
        invariant
            tv == tokens_view(t@),
            i <= j,
            exprs_view(out@) + p_exprs(tv, j as int).0 == p_exprs(tv, i as int).0,
            p_exprs(tv, j as int).1 == p_exprs(tv, i as int).1,
        decreases t.len() - j,
    {
        match parse_expr(t, j) {
            Some((e, k)) => {
                let ghost prev = exprs_view(out@);
                out.push(e);
                assert(exprs_view(out@) =~= prev.push(expr_view(e)));
                assert(prev + (seq![expr_view(e)] + p_exprs(tv, k as int).0) =~= exprs_view(out@)
                    + p_exprs(tv, k as int).0);
                j = k;
            },
            None => {
                assert(exprs_view(out@) + Seq::<SpecExpr>::empty() =~= exprs_view(out@));
                return (out, j);
            },
        }
    }
    assert(p_expr(tv, j as int) is None);
    assert(exprs_view(out@) + Seq::<SpecExpr>::empty() =~= exprs_view(out@));
    (out, j)
}

fn parse_delimiter(t: &Vec<Token>, i: usize) -> (r: Option<(Expr, usize)>)
    ensures
        expr_parsed(r, p_delimiter(tokens_view(t@), i as int)),
        r matches Some((_, k)) ==> i < k <= t.len(),
{
    if word_is(t, i, "SIZE") {
        Some((Expr::Literal(String::from_str("SIZE")), i + 1))
    } else if word_is(t, i, "SPACE") || word_is(t, i, "SPACES") {
        Some((Expr::Literal(String::from_str("SPACE")), i + 1))
    } else if i < t.len() {
        match &t[i] {
            Token::Quoted(s) => Some((Expr::Literal(s.clone()), i + 1)),
            _ => None,
        }
    } else {
        None
    }
}

fn parse_source(t: &Vec<Token>, i: usize) -> (r: Option<((Expr, Expr), usize)>)
    ensures
        match p_source(tokens_view(t@), i as int) {
            Some((s, j)) => r matches Some((x, k)) && (expr_view(x.0), expr_view(x.1)) == s && k == j,
            None => r is None,
        },
        r matches Some((_, k)) ==> i < k <= t.len(),
{
    let (e, j) = match parse_expr(t, i) {
        Some(x) => x,
        None => {
            return None;
        },
    };
    if !word_is(t, j, "DELIMITED") {
        return None;
    }
    let k = if word_is(t, j + 1, "BY") {
        j + 2
    } else {
        j + 1
    };
    match parse_delimiter(t, k) {
        Some((d, m)) => Some(((e, d), m)),
        None => None,
    }
}

fn parse_sources(t: &Vec<Token>, i: usize) -> (r: (Vec<(Expr, Expr)>, usize))
    ensures
        p_sources(tokens_view(t@), i as int) == (sources_view(r.0@), r.1 as int),
        i <= r.1,
{
    let ghost tv = tokens_view(t@);
    let mut out: Vec<(Expr, Expr)> = Vec::new();
    let mut j = i;
    assert(sources_view(out@) + p_sources(tv, j as int).0 =~= p_sources(tv, i as int).0);
    loop
        invariant
            tv == tokens_view(t@),
            i <= j,
            sources_view(out@) + p_sources(tv, j as int).0 == p_sources(tv, i as int).0,
            p_sources(tv, j as int).1 == p_sources(tv, i as int).1,
        decreases t.len() - j,
    {
        match parse_source(t, j) {
            Some((s, k)) => {
                if k <= j {
                    assert(sources_view(out@) + Seq::<(SpecExpr, SpecExpr)>::empty() =~= sources_view(out@));
                    return (out, j);
                }
                proof { lemma_source_bound(tv, j as int); }
                let ghost prev = sources_view(out@);
                out.push(s);
                assert(sources_view(out@) =~= prev.push((expr_view(s.0), expr_view(s.1))));
                assert(prev + (seq![(expr_view(s.0), expr_view(s.1))] + p_sources(tv, k as int).0)
                    =~= sources_view(out@) + p_sources(tv, k as int).0);
                j = k;
            },
            None => {
                assert(sources_view(out@) + Seq::<(SpecExpr, SpecExpr)>::empty() =~= sources_view(out@));
                return (out, j);
            },
        }
    }
}

proof fn lemma_source_bound(t: Seq<SpecToken>, i: int)
    ensures
        p_source(t, i) matches Some((_, j)) ==> j <= t.len(),
{
}

/// Statements in front of the rest, or the failure of the rest.
pub open spec fn prepend_stmts(pre: Seq<SpecStatement>, o: Option<(Seq<SpecStatement>, int)>) -> Option<
    (Seq<SpecStatement>, int),
> {
    match o {
        Some((rest, k)) => Some((pre + rest, k)),
        None => None,
    }
}

/// Whether `r` reports the parse `s` of a statement list.
pub open spec fn stmts_parsed(r: Option<(Vec<Statement>, usize)>, s: Option<(Seq<SpecStatement>, int)>) -> bool {
    match s {
        Some((ss, j)) => r matches Some((x, k)) && stmts_view(x@) == ss && k == j,
        None => r is None,
    }
}

fn starts_statement_exec(t: &Vec<Token>, i: usize) -> (b: bool)
    ensures
        b == starts_statement(tokens_view(t@), i as int),
        b ==> i < t.len(),
{
    if i < t.len() {
        match &t[i] {
            Token::Word(w) => is_statement_keyword_exec(w),
            _ => false,
        }
    } else {
        false
    }
}

proof fn lemma_stmts_push(acc: Seq<Statement>, s: Statement, rest: Option<(Seq<SpecStatement>, int)>)
    ensures
        prepend_stmts(stmts_view(acc), prepend_stmts(seq![stmt_view(s)], rest)) == prepend_stmts(
            stmts_view(acc.push(s)),
            rest,
        ),
{
    assert(acc.push(s).drop_last() =~= acc);
    match rest {
        Some((r, k)) => {
            assert(stmts_view(acc) + (seq![stmt_view(s)] + r) =~= stmts_view(acc).push(stmt_view(s))
                + r);
        },
        None => {},
    }
}

fn parse_statement(t: &Vec<Token>, i: usize) -> (r: Option<(Statement, usize)>)
    ensures
        match p_statement(tokens_view(t@), i as int) {
            Some((s, j)) => r matches Some((x, k)) && stmt_view(x) == s && k == j,
            None => r is None,
        },
        r matches Some((_, k)) ==> i < k <= t.len(),
    decreases t@.len() - i, 0nat,
{
    let ghost tv = tokens_view(t@);
    if !starts_statement_exec(t, i) {
        return None;
    }
    let kw = match &t[i] {
        Token::Word(w) => w,
        _ => {
            return None;
        },
    };
    assert(tv[i as int] == SpecToken::Word(kw@));
    let is_move = is_word(kw, "MOVE");
    let is_add = is_word(kw, "ADD");
    let is_sub = is_word(kw, "SUBTRACT");
    let is_mul = is_word(kw, "MULTIPLY");
    let is_div = is_word(kw, "DIVIDE");
    if is_move || is_add || is_sub || is_mul || is_div {
        let (e, j) = match parse_expr(t, i + 1) {
            Some(x) => x,
            None => {
                return None;
            },
        };
        let tk = if is_move || is_add {
            "TO"
        } else if is_sub {
            "FROM"
        } else if is_mul {
            "BY"
        } else {
            "INTO"
        };
        assert(tk@ == target_keyword(kw@));
        let (n, k) = match parse_target(t, j, tk) {
            Some(x) => x,
            None => {
                return None;
            },
        };
        let st = if is_move {
            Statement::Move { source: e, target: n }
        } else if is_add {
            Statement::Add { source: e, target: n }
        } else if is_sub {
            Statement::Subtract { source: e, target: n }
        } else if is_mul {
            Statement::Multiply { source: e, target: n }
        } else {
            Statement::Divide { source: e, target: n }
        };
        assert(stmt_view(st) == (if kw@ == "MOVE"@ {
            SpecStatement::Move { source: expr_view(e), target: n@ }
        } else {
            arith_statement(kw@, expr_view(e), n@)
        }));
        return Some((st, k));
    }
    if is_word(kw, "DISPLAY") {
        let (vs, j) = parse_exprs(t, i + 1);
        if vs.len() == 0 {
            return None;
        }
        proof { lemma_exprs_bound(tv, i + 1); }
        return Some((Statement::Display { values: vs }, j));
    }
    if is_word(kw, "PERFORM") {
        return match ident_exec(t, i + 1) {
            Some(n) => Some((Statement::Perform { paragraph: n }, i + 2)),
            None => None,
        };
    }
    if is_word(kw, "STOP") {
        if word_is(t, i + 1, "RUN") {
            return Some((Statement::StopRun, i + 2));
        }
        return None;
    }
    if is_word(kw, "IF") {
        let (c, j) = match parse_condition(t, i + 1) {
            Some(x) => x,
            None => {
                return None;
            },
        };
        let (then_body, k) = match parse_block(t, j) {
            Some(x) => x,
            None => {
                return None;
            },
        };
        if k >= j && word_is(t, k, "ELSE") {
            let (else_body, m) = match parse_block(t, k + 1) {
                Some(x) => x,
                None => {
                    return None;
                },
            };
            if word_is(t, m, "END-IF") {
                return Some((Statement::If { condition: c, then_body, else_body }, m + 1));
            }
            return None;
        }
        if word_is(t, k, "END-IF") {
            let else_body: Vec<Statement> = Vec::new();
            assert(stmts_view(else_body@) =~= Seq::<SpecStatement>::empty());
            return Some((Statement::If { condition: c, then_body, else_body }, k + 1));
        }
        return None;
    }
    let (srcs, j) = parse_sources(t, i + 1);
    if srcs.len() == 0 {
        return None;
    }
    match parse_target(t, j, "INTO") {
        Some((n, k)) => Some((Statement::StringConcat { sources: srcs, into: n }, k)),
        None => None,
    }
}

proof fn lemma_exprs_bound(t: Seq<SpecToken>, i: int)
    requires
        0 <= i,
    ensures
        i <= p_exprs(t, i).1,
        p_exprs(t, i).0.len() > 0 ==> p_exprs(t, i).1 <= t.len(),
    decreases t.len() - i,
{
    match p_expr(t, i) {
        Some((e, j)) => if j > i {
            lemma_exprs_bound(t, j);
        },
        None => {},
    }
}

fn parse_block(t: &Vec<Token>, i: usize) -> (r: Option<(Vec<Statement>, usize)>)
    ensures
        stmts_parsed(r, p_block(tokens_view(t@), i as int)),
        r matches Some((_, k)) ==> i <= k <= t.len() || k == i,
    decreases t@.len() - i, 1nat,
{
    let ghost tv = tokens_view(t@);
    let mut acc: Vec<Statement> = Vec::new();
    let mut j = i;
    assert(stmts_view(acc@) =~= Seq::<SpecStatement>::empty());
    assert(prepend_stmts(Seq::<SpecStatement>::empty(), p_block(tv, i as int)) == p_block(tv, i as int)) by {
        match p_block(tv, i as int) {
            Some((rest, k)) => {
                assert(Seq::<SpecStatement>::empty() + rest =~= rest);
            },
            None => {},
        }
    }
    loop
        invariant
            tv == tokens_view(t@),
            i <= j,
            j == i || j <= t.len(),
            p_block(tv, i as int) == prepend_stmts(stmts_view(acc@), p_block(tv, j as int)),
        decreases t.len() - j,
    {
        if !starts_statement_exec(t, j) {
            assert(stmts_view(acc@) + Seq::<SpecStatement>::empty() =~= stmts_view(acc@));
            return Some((acc, j));
        }
        match parse_statement(t, j) {
            Some((s, k)) => {
                proof {
                    match p_block(tv, k as int) {
                        Some((rest, m)) => {},
                        None => {},
                    }
                    lemma_stmts_push(acc@, s, p_block(tv, k as int));
                }
                acc.push(s);
                j = k;
            },
            None => {
                return None;
            },
        }
    }
}

/// Whether `r` reports the parse `s` of a list of paragraphs.
pub open spec fn paragraphs_parsed(r: Option<(Vec<Paragraph>, usize)>, s: Option<(Seq<SpecParagraph>, int)>) -> bool {
    match s {
        Some((ps, j)) => r matches Some((x, k)) && x@.map_values(|p: Paragraph| paragraph_view(p))
            == ps && k == j,
        None => r is None,
    }
}

fn parse_sentences(t: &Vec<Token>, i: usize) -> (r: Option<(Vec<Statement>, usize)>)
    ensures
        stmts_parsed(r, p_sentences(tokens_view(t@), i as int)),
        r matches Some((_, k)) ==> i <= k && (k == i || k <= t.len()),
{
    let ghost tv = tokens_view(t@);
    let mut acc: Vec<Statement> = Vec::new();
    let mut j = i;
    assert(stmts_view(acc@) =~= Seq::<SpecStatement>::empty());
    assert(prepend_stmts(Seq::<SpecStatement>::empty(), p_sentences(tv, i as int)) == p_sentences(tv, i as int)) by {
        match p_sentences(tv, i as int) {
            Some((rest, k)) => {
                assert(Seq::<SpecStatement>::empty() + rest =~= rest);
            },
            None => {},
        }
    }
    loop
        invariant
            tv == tokens_view(t@),
            i <= j,
            j == i || j <= t.len(),
            p_sentences(tv, i as int) == prepend_stmts(stmts_view(acc@), p_sentences(tv, j as int)),
        decreases t.len() - j,
    {
        if !starts_statement_exec(t, j) {
            assert(stmts_view(acc@) + Seq::<SpecStatement>::empty() =~= stmts_view(acc@));
            return Some((acc, j));
        }
        match parse_statement(t, j) {
            Some((s, k)) => {
                let k2 = if period_at(t, k) {
                    k + 1
                } else {
                    k
                };
                proof {
                    lemma_stmts_push(acc@, s, p_sentences(tv, k2 as int));
                }
                acc.push(s);
                j = k2;
            },
            None => {
                return None;
            },
        }
    }
}

fn parse_paragraphs(t: &Vec<Token>, i: usize) -> (r: Option<(Vec<Paragraph>, usize)>)
    ensures
        paragraphs_parsed(r, p_paragraphs(tokens_view(t@), i as int)),
{
    let ghost tv = tokens_view(t@);
    let mut acc: Vec<Paragraph> = Vec::new();
    let mut j = i;
    let ghost start = p_paragraphs(tv, i as int);
    loop
        invariant
            tv == tokens_view(t@),
            i <= j,
            j == i || j <= t.len(),
            start == p_paragraphs(tv, i as int),
            match p_paragraphs(tv, j as int) {
                Some((rest, k)) => start == Some(
                    (acc@.map_values(|p: Paragraph| paragraph_view(p)) + rest, k),
                ),
                None => start is None,
            },
        decreases t.len() - j,
    {
        let name = match ident_exec(t, j) {
            Some(n) => n,
            None => {
                assert(acc@.map_values(|p: Paragraph| paragraph_view(p)) + Seq::<SpecParagraph>::empty()
                    =~= acc@.map_values(|p: Paragraph| paragraph_view(p)));
                return Some((acc, j));
            },
        };
        if !period_at(t, j + 1) {
            assert(acc@.map_values(|p: Paragraph| paragraph_view(p)) + Seq::<SpecParagraph>::empty()
                =~= acc@.map_values(|p: Paragraph| paragraph_view(p)));
            return Some((acc, j));
        }
        assert(starts_paragraph(tv, j as int));
        let (ss, k) = match parse_sentences(t, j + 2) {
            Some(x) => x,
            None => {
                return None;
            },
        };
        let para = Paragraph { name, statements: ss };
        let ghost prev = acc@;
        acc.push(para);
        proof {
            assert(acc@.map_values(|p: Paragraph| paragraph_view(p)) =~= prev.map_values(
                |p: Paragraph| paragraph_view(p),
            ).push(paragraph_view(para)));
            match p_paragraphs(tv, k as int) {
                Some((rest, m)) => {
                    assert(prev.map_values(|p: Paragraph| paragraph_view(p)) + (seq![
                        paragraph_view(para),
                    ] + rest) =~= acc@.map_values(|p: Paragraph| paragraph_view(p)) + rest);
                },
                None => {},
            }
        }
        j = k;
    }
}

/// `( digits )` at token `i`.
fn paren_digits(t: &Vec<Token>, i: usize) -> (r: Option<String>)
    ensures
        opt_view(r) == p_paren_digits(tokens_view(t@), i as int),
        r is Some ==> i + 2 < t.len(),
{
    if i < t.len() && matches!(t[i], Token::LParen) {
        match digits_exec(t, i + 1) {
            Some(d) => if i + 2 < t.len() && matches!(t[i + 2], Token::RParen) {
                Some(d)
            } else {
                None
            },
            None => None,
        }
    } else {
        None
    }
}

fn parse_pic(t: &Vec<Token>, i: usize) -> (r: Option<(PicClause, usize)>)
    ensures
        match p_pic(tokens_view(t@), i as int) {
            Some((pc, j)) => r == Some((pc, j as usize)),
            None => r is None,
        },
        r matches Some((_, k)) ==> i < k <= t.len(),
{
    let kind = if word_is(t, i, "X") {
        PicKind::Alphanumeric
    } else if word_is(t, i, "9") {
        PicKind::Numeric
    } else if word_is(t, i, "A") {
        PicKind::Alphabetic
    } else {
        return None;
    };
    let (width, j) = match paren_digits(t, i + 1) {
        Some(w) => (
            match digits_to_usize(&w) {
                Some(v) => v,
                None => 1usize,
            },
            i + 4,
        ),
        None => (1usize, i + 1),
    };
    if word_is(t, j, "V9") {
        match paren_digits(t, j + 1) {
            Some(d) => Some((PicClause { kind, width, decimals: digits_to_usize(&d) }, j + 4)),
            None => None,
        }
    } else {
        Some((PicClause { kind, width, decimals: None }, j))
    }
}

/// A literal value at token `i`.
fn value_exec(t: &Vec<Token>, i: usize) -> (r: Option<String>)
    ensures
        opt_view(r) == value_at(tokens_view(t@), i as int),
        r is Some ==> i < t.len(),
{
    if i < t.len() {
        match &t[i] {
            Token::Quoted(s) => {
                return Some(s.clone());
            },
            _ => {},
        }
    }
    digits_exec(t, i)
}

/// Reads the clauses of a data entry into `e`.
fn parse_clauses(t: &Vec<Token>, i: usize, e: &mut FlatEntry) -> (r: Option<usize>)
    ensures
        match p_clauses(tokens_view(t@), i as int, entry_view(*old(e))) {
            Some((se, j)) => r matches Some(k) && k == j && entry_view(*final(e)) == se,
            None => r is None,
        },
        r matches Some(k) ==> i <= k && (k == i || k <= t.len()),
{
    let ghost tv = tokens_view(t@);
    let mut j = i;
    loop
        invariant
            tv == tokens_view(t@),
            i <= j,
            j == i || j <= t.len(),
            p_clauses(tv, i as int, entry_view(*old(e))) == p_clauses(tv, j as int, entry_view(*e)),
        decreases t.len() - j,
    {
        if word_is(t, j, "PIC") {
            match parse_pic(t, j + 1) {
                Some((pic, k)) => {
                    e.pic = Some(pic);
                    j = k;
                },
                None => {
                    return None;
                },
            }
        } else if word_is(t, j, "VALUE") {
            match value_exec(t, j + 1) {
                Some(v) => {
                    e.value = Some(v);
                    j = j + 2;
                },
                None => {
                    return None;
                },
            }
        } else if word_is(t, j, "USING") {
            match ident_exec(t, j + 1) {
                Some(n) => {
                    e.binding = Some(n);
                    j = j + 2;
                },
                None => {
                    return None;
                },
            }
        } else if word_is(t, j, "ON-ACTION") {
            if word_is(t, j + 1, "PERFORM") {
                match ident_exec(t, j + 2) {
                    Some(n) => {
                        e.action = Some(n);
                        j = j + 3;
                    },
                    None => {
                        return None;
                    },
                }
            } else {
                return None;
            }
        } else if word_is(t, j, "GO-TO-SCREEN") {
            match ident_exec(t, j + 1) {
                Some(n) => {
                    e.navigate = Some(n);
                    j = j + 2;
                },
                None => {
                    return None;
                },
            }
        } else if word_is(t, j, "BACKGROUND-COLOR") {
            match digits_exec(t, j + 1) {
                Some(d) => {
                    e.bg_color = digits_to_u8(&d);
                    j = j + 2;
                },
                None => {
                    return None;
                },
            }
        } else if word_is(t, j, "FOREGROUND-COLOR") {
            match digits_exec(t, j + 1) {
                Some(d) => {
                    e.fg_color = digits_to_u8(&d);
                    j = j + 2;
                },
                None => {
                    return None;
                },
            }
        } else {
            return Some(j);
        }
    }
}

fn parse_data_entry(t: &Vec<Token>, i: usize) -> (r: Option<(FlatEntry, usize)>)
    ensures
        match p_data_entry(tokens_view(t@), i as int) {
            Some((se, j)) => r matches Some((x, k)) && entry_view(x) == se && k == j,
            None => r is None,
        },
        r matches Some((_, k)) ==> i < k <= t.len(),
{
    let l = match digits_exec(t, i) {
        Some(l) => l,
        None => {
            return None;
        },
    };
    let name = match ident_exec(t, i + 1) {
        Some(n) => n,
        None => {
            return None;
        },
    };
    let level = match digits_to_u8(&l) {
        Some(v) => v,
        None => 0u8,
    };
    let mut e = FlatEntry {
        level,
        name,
        pic: None,
        value: None,
        binding: None,
        action: None,
        navigate: None,
        fg_color: None,
        bg_color: None,
        conditions: Vec::new(),
    };
    assert(pairs_view(e.conditions@) =~= Seq::<(Seq<char>, Seq<char>)>::empty());
    let ghost start = SpecEntry {
        level: match digits_u8(l@) {
            Some(v) => v,
            None => 0u8,
        },
        name: name@,
        pic: None,
        value: None,
        binding: None,
        action: None,
        navigate: None,
        fg_color: None,
        bg_color: None,
        conditions: seq![],
    };
    assert(entry_view(e) == start);
    assert(p_data_entry(tokens_view(t@), i as int) == match p_clauses(
        tokens_view(t@),
        i + 2,
        start,
    ) {
        Some((se, j)) => if tok_at(tokens_view(t@), j, SpecToken::Period) {
            Some((se, j + 1))
        } else {
            None
        },
        None => None,
    });
    match parse_clauses(t, i + 2, &mut e) {
        Some(j) => if period_at(t, j) {
            Some((e, j + 1))
        } else {
            None
        },
        None => None,
    }
}

fn parse_level_88(t: &Vec<Token>, i: usize) -> (r: Option<((String, String), usize)>)
    ensures
        match p_level_88(tokens_view(t@), i as int) {
            Some((c, j)) => r matches Some((x, k)) && (x.0@, x.1@) == c && k == j,
            None => r is None,
        },
        r matches Some((_, k)) ==> i < k <= t.len(),
{
    if !word_is(t, i, "88") {
        return None;
    }
    let name = match ident_exec(t, i + 1) {
        Some(n) => n,
        None => {
            return None;
        },
    };
    if !word_is(t, i + 2, "VALUE") {
        return None;
    }
    let v = match value_exec(t, i + 3) {
        Some(v) => v,
        None => {
            return None;
        },
    };
    if !period_at(t, i + 4) {
        return None;
    }
    Some(((name, v), i + 5))
}

fn parse_ws_entries(t: &Vec<Token>, i: usize) -> (r: Option<(Vec<FlatEntry>, usize)>)
    ensures
        match p_ws_entries(tokens_view(t@), i as int, seq![]) {
            Some((es, j)) => r matches Some((x, k)) && entries_view(x@) == es && k == j,
            None => r is None,
        },
        r matches Some((_, k)) ==> i <= k && (k == i || k <= t.len()),
{
    let ghost tv = tokens_view(t@);
    let mut acc: Vec<FlatEntry> = Vec::new();
    let mut j = i;
    assert(entries_view(acc@) =~= Seq::<SpecEntry>::empty());
    loop
        invariant
            tv == tokens_view(t@),
            i <= j,
            j == i || j <= t.len(),
            p_ws_entries(tv, i as int, seq![]) == p_ws_entries(tv, j as int, entries_view(acc@)),
        decreases t.len() - j,
    {
        if digits_exec(t, j).is_none() {
            return Some((acc, j));
        }
        match parse_level_88(t, j) {
            Some((c, k)) => {
                let ghost before = entries_view(acc@);
                let ghost cv = (c.0@, c.1@);
                if acc.len() > 0 {
                    let mut last = acc.pop().unwrap();
                    let ghost lv = entry_view(last);
                    let ghost prev_c = last.conditions@;
                    last.conditions.push(c);
                    assert(pairs_view(last.conditions@) =~= pairs_view(prev_c).push(cv));
                    let ghost shorter = acc@;
                    acc.push(last);
                    assert(entries_view(acc@) =~= attach_condition(before, cv));
                } else {
                    assert(entries_view(acc@) =~= attach_condition(before, cv));
                }
                j = k;
            },
            None => {
                match parse_data_entry(t, j) {
                    Some((e, k)) => {
                        let ghost before = entries_view(acc@);
                        acc.push(e);
                        assert(entries_view(acc@) =~= before.push(entry_view(e)));
                        j = k;
                    },
                    None => {
                        return None;
                    },
                }
            },
        }
    }
}

fn parse_screen_entries(t: &Vec<Token>, i: usize) -> (r: Option<(Vec<FlatEntry>, usize)>)
    ensures
        match p_screen_entries(tokens_view(t@), i as int, seq![]) {
            Some((es, j)) => r matches Some((x, k)) && entries_view(x@) == es && k == j,
            None => r is None,
        },
        r matches Some((_, k)) ==> i <= k && (k == i || k <= t.len()),
{
    let ghost tv = tokens_view(t@);
    let mut acc: Vec<FlatEntry> = Vec::new();
    let mut j = i;
    assert(entries_view(acc@) =~= Seq::<SpecEntry>::empty());
    loop
        invariant
            tv == tokens_view(t@),
            i <= j,
            j == i || j <= t.len(),
            p_screen_entries(tv, i as int, seq![]) == p_screen_entries(tv, j as int, entries_view(acc@)),
        decreases t.len() - j,
    {
        if digits_exec(t, j).is_none() {
            return Some((acc, j));
        }
        match parse_data_entry(t, j) {
            Some((e, k)) => {
                let ghost before = entries_view(acc@);
                acc.push(e);
                assert(entries_view(acc@) =~= before.push(entry_view(e)));
                j = k;
            },
            None => {
                return None;
            },
        }
    }
}

/// A copy of a list of (name, value) pairs.
fn clone_pairs(cs: &Vec<(String, String)>) -> (r: Vec<(String, String)>)
    ensures
        pairs_view(r@) == pairs_view(cs@),
{
    let mut out: Vec<(String, String)> = Vec::new();
    let mut i: usize = 0;
    while i < cs.len()
        invariant
            i <= cs.len(),
            pairs_view(out@) == pairs_view(cs@.take(i as int)),
        decreases cs.len() - i,
    {
        let ghost before = out@;
        let a = cs[i].0.clone();
        let b = cs[i].1.clone();
        out.push((a, b));
        assert(cs@.take(i + 1) =~= cs@.take(i as int).push(cs@[i as int]));
        assert(pairs_view(out@) =~= pairs_view(before).push((cs@[i as int].0@, cs@[i as int].1@)));
        assert(pairs_view(cs@.take(i + 1)) =~= pairs_view(cs@.take(i as int)).push(
            (cs@[i as int].0@, cs@[i as int].1@),
        ));
        i = i + 1;
    }
    assert(cs@.take(cs.len() as int) =~= cs@);
    out
}

/// The state definitions of WORKING-STORAGE entries.
fn state_from_entries(es: &Vec<FlatEntry>) -> (m: StateMap)
    ensures
        state_pairs(m) == state_of(entries_view(es@)),
{
    let mut m: StateMap = Table::new();
    let mut i: usize = 0;
    assert(state_pairs(m) =~= Seq::<(Seq<char>, SpecStateField)>::empty());
    while i < es.len()
        invariant
            i <= es.len(),
            state_pairs(m) == state_of(entries_view(es@).take(i as int)),
        decreases es.len() - i,
    {
        let e = &es[i];
        let ghost ev = entries_view(es@);
        assert(ev.take(i + 1).drop_last() =~= ev.take(i as int));
        assert(ev.take(i + 1).last() == entry_view(*e));
        if e.level >= 5 {
            match e.pic {
                Some(pic) => {
                    let field = StateField {
                        name: e.name.clone(),
                        pic,
                        default_value: clone_opt(&e.value),
                        conditions: clone_pairs(&e.conditions),
                    };
                    let ghost before = m;
                    m.check_well_formed();
                    let ghost fv = field;
                    m.insert(e.name.clone(), field);
                    proof {
                        lemma_pairs_insert(before, m, e.name@, fv, |f: StateField| field_view(f));
                    }
                },
                None => {},
            }
        }
        i = i + 1;
    }
    assert(entries_view(es@).take(es.len() as int) =~= entries_view(es@));
    m
}

/// The screens: each top-level container of the tree.
fn screens_from_nodes(nodes: Vec<Node>) -> (r: Vec<Screen>)
    ensures
        r@.map_values(|s: Screen| screen_view(s)) == screens_of(nodes_view(nodes@)),
{
    let ghost orig = nodes@;
    let mut rest = nodes;
    let mut out: Vec<Screen> = Vec::new();
    let ghost mut i: int = 0;
    proof { lemma_nodes_view(orig); }
    assert(orig.skip(0) =~= orig);
    assert(nodes_view(orig).take(0) =~= Seq::<SpecNode>::empty());
    while rest.len() > 0
        invariant
            0 <= i <= orig.len(),
            rest@ == orig.skip(i),
            nodes_view(orig).len() == orig.len(),
            forall|j: int| 0 <= j < orig.len() ==> #[trigger] nodes_view(orig)[j] == node_view(orig[j]),
            out@.map_values(|s: Screen| screen_view(s)) == screens_of(nodes_view(orig).take(i)),
        decreases rest.len(),
    {
        let node = rest.remove(0);
        assert(node == orig[i]);
        let ghost nv = nodes_view(orig);
        assert(nv.take(i + 1).drop_last() =~= nv.take(i));
        assert(nv.take(i + 1).last() == node_view(node));
        if matches!(node, Node::Container { .. }) {
            let name = String::from_str(node.name());
            let ghost before = out@;
            out.push(Screen { name, root: node });
            assert(out@.map_values(|s: Screen| screen_view(s)) =~= before.map_values(
                |s: Screen| screen_view(s),
            ).push(screen_view(Screen { name, root: node })));
        }
        proof {
            i = i + 1;
            assert(rest@ =~= orig.skip(i));
        }
    }
    assert(nodes_view(orig).take(orig.len() as int) =~= nodes_view(orig));
    out
}

/// The handlers and the paragraph table of the PROCEDURE DIVISION.
fn paragraph_table(ps: Vec<Paragraph>) -> (r: (Vec<Handler>, ParagraphMap))
    ensures
        r.0@.map_values(|h: Handler| handler_view(h)) == ps@.map_values(
            |p: Paragraph| paragraph_view(p),
        ).map_values(|p: SpecParagraph| (p.name, p.name)),
        paragraph_pairs(r.1) == paragraphs_of(ps@.map_values(|p: Paragraph| paragraph_view(p))),
{
    let ghost orig = ps@;
    let ghost pv = orig.map_values(|p: Paragraph| paragraph_view(p));
    let mut rest = ps;
    let mut handlers: Vec<Handler> = Vec::new();
    let mut table: ParagraphMap = Table::new();
    let ghost mut i: int = 0;
    assert(orig.skip(0) =~= orig);
    assert(pv.take(0) =~= Seq::<SpecParagraph>::empty());
    assert(paragraph_pairs(table) =~= Seq::<(Seq<char>, SpecParagraph)>::empty());
    assert(handlers@.map_values(|h: Handler| handler_view(h)) =~= pv.take(0).map_values(
        |p: SpecParagraph| (p.name, p.name),
    ));
    while rest.len() > 0
        invariant
            0 <= i <= orig.len(),
            rest@ == orig.skip(i),
            pv == orig.map_values(|p: Paragraph| paragraph_view(p)),
            handlers@.map_values(|h: Handler| handler_view(h)) == pv.take(i).map_values(
                |p: SpecParagraph| (p.name, p.name),
            ),
            paragraph_pairs(table) == paragraphs_of(pv.take(i)),
        decreases rest.len(),
    {
        let para = rest.remove(0);
        assert(para == orig[i]);
        assert(pv.take(i + 1).drop_last() =~= pv.take(i));
        assert(pv.take(i + 1).last() == paragraph_view(para));
        let ghost hb = handlers@;
        let h = Handler { name: para.name.clone(), paragraph_name: para.name.clone() };
        let ghost hv = handler_view(h);
        handlers.push(h);
        assert(pv.take(i + 1) =~= pv.take(i).push(paragraph_view(para)));
        assert(handlers@.map_values(|h: Handler| handler_view(h)) =~= hb.map_values(
            |h: Handler| handler_view(h),
        ).push(hv));
        assert(pv.take(i + 1).map_values(|p: SpecParagraph| (p.name, p.name)) =~= pv.take(
            i,
        ).map_values(|p: SpecParagraph| (p.name, p.name)).push((para.name@, para.name@)));
        assert(handlers@.map_values(|h: Handler| handler_view(h)) =~= pv.take(i + 1).map_values(
            |p: SpecParagraph| (p.name, p.name),
        ));
        let ghost before = table;
        table.check_well_formed();
        let key = para.name.clone();
        let ghost pp = para;
        table.insert(key, para);
        proof {
            lemma_pairs_insert(before, table, pp.name@, pp, |p: Paragraph| paragraph_view(p));
            i = i + 1;
            assert(rest@ =~= orig.skip(i));
        }
    }
    assert(pv.take(orig.len() as int) =~= pv);
    (handlers, table)
}

/// Whether the words `w1 w2 .` are at token `i`.
fn header_is(t: &Vec<Token>, i: usize, w1: &str, w2: &str) -> (b: bool)
    ensures
        b == header_at(tokens_view(t@), i as int, w1@, w2@),
        b ==> i + 2 < t.len(),
{
    word_is(t, i, w1) && word_is(t, i + 1, w2) && period_at(t, i + 2)
}

fn parse_identification(t: &Vec<Token>, i: usize) -> (r: Option<usize>)
    ensures
        match p_identification(tokens_view(t@), i as int) {
            Some(j) => r == Some(j as usize),
            None => r is None,
        },
{
    if !header_is(t, i, "IDENTIFICATION", "DIVISION") {
        return Some(i);
    }
    if word_is(t, i + 3, "PROGRAM-ID") {
        if period_at(t, i + 4) && i + 5 < t.len() && matches!(t[i + 5], Token::Word(_))
            && period_at(t, i + 6) {
            Some(i + 7)
        } else {
            None
        }
    } else {
        Some(i + 3)
    }
}

fn parse_data_division(t: &Vec<Token>, i: usize) -> (r: Option<(Vec<FlatEntry>, Vec<FlatEntry>, usize)>)
    ensures
        match p_data_division(tokens_view(t@), i as int) {
            Some((w, s, j)) => r matches Some((x, y, k)) && entries_view(x@) == w && entries_view(y@)
                == s && k == j,
            None => r is None,
        },
{
    if !header_is(t, i, "DATA", "DIVISION") {
        let w: Vec<FlatEntry> = Vec::new();
        let s: Vec<FlatEntry> = Vec::new();
        assert(entries_view(w@) =~= Seq::<SpecEntry>::empty());
        return Some((w, s, i));
    }
    let (ws, j) = if header_is(t, i + 3, "WORKING-STORAGE", "SECTION") {
        match parse_ws_entries(t, i + 6) {
            Some(x) => x,
            None => {
                return None;
            },
        }
    } else {
        let w: Vec<FlatEntry> = Vec::new();
        assert(entries_view(w@) =~= Seq::<SpecEntry>::empty());
        (w, i + 3)
    };
    if header_is(t, j, "SCREEN", "SECTION") {
        match parse_screen_entries(t, j + 3) {
            Some((ss, k)) => Some((ws, ss, k)),
            None => None,
        }
    } else {
        let s: Vec<FlatEntry> = Vec::new();
        assert(entries_view(s@) =~= Seq::<SpecEntry>::empty());
        Some((ws, s, j))
    }
}

fn parse_procedure(t: &Vec<Token>, i: usize) -> (r: Option<(Vec<Paragraph>, usize)>)
    ensures
        paragraphs_parsed(r, p_procedure(tokens_view(t@), i as int)),
{
    if !header_is(t, i, "PROCEDURE", "DIVISION") {
        let ps: Vec<Paragraph> = Vec::new();
        assert(ps@.map_values(|p: Paragraph| paragraph_view(p)) =~= Seq::<SpecParagraph>::empty());
        return Some((ps, i));
    }
    parse_paragraphs(t, i + 3)
}

/// The application that the tokens describe.
pub fn parse_program(t: &Vec<Token>) -> (r: Option<CobaltApp>)
    ensures
        match p_program(tokens_view(t@)) {
            Some(a) => r matches Some(app) && app_view(app) == a,
            None => r is None,
        },
{
    let i = match parse_identification(t, 0) {
        Some(i) => i,
        None => {
            return None;
        },
    };
    let (ws, ss, j) = match parse_data_division(t, i) {
        Some(x) => x,
        None => {
            return None;
        },
    };
    let (ps, k) = match parse_procedure(t, j) {
        Some(x) => x,
        None => {
            return None;
        },
    };
    if k != t.len() {
        return None;
    }
    let state = state_from_entries(&ws);
    let nodes = build_tree(ss.as_slice());
    let screens = screens_from_nodes(nodes);
    let (handlers, paragraphs) = paragraph_table(ps);
    let app = CobaltApp { screens, state, handlers, paragraphs };
    assert(app_view(app).handlers == ps@.map_values(|p: Paragraph| paragraph_view(p)).map_values(
        |p: SpecParagraph| (p.name, p.name),
    ));
    Some(app)
}

/// Why a source text is not a COBALT program.
#[derive(Debug)]
pub enum ParseError {
    /// A character of the normalised text at this position begins no token,
    /// or begins a quoted string that is never closed.
    Lexical { offset: usize },
    /// The tokens do not form a program.
    Syntax,
}

/// What parsing a source text gives.
pub open spec fn parse_result(source: Seq<char>) -> Result<SpecApp, ParseError> {
    parse_normalized(normalized(source))
}

/// What parsing gives for a source text whose normalisation is `text`.
pub open spec fn parse_normalized(text: Seq<char>) -> Result<SpecApp, ParseError> {
    match lex(text) {
        Err(p) => Err(ParseError::Lexical { offset: p as usize }),
        Ok(ts) => match p_program(ts) {
            Some(a) => Ok(a),
            None => Err(ParseError::Syntax),
        },
    }
}

/// Whether `r` is the parse result that `e` describes.
pub open spec fn parse_gives(r: Result<CobaltApp, ParseError>, e: Result<SpecApp, ParseError>) -> bool {
    match e {
        Ok(a) => r matches Ok(app) && app_view(app) == a,
        Err(ParseError::Lexical { offset }) => r matches Err(ParseError::Lexical { offset: o }) && o
            == offset,
        Err(ParseError::Syntax) => r matches Err(ParseError::Syntax),
    }
}

/// COBOL is case-insensitive: an ASCII source text and the same text in
/// lower case parse to the same result.
pub proof fn lemma_parse_ignores_ascii_case(s: Seq<char>)
    requires
        is_ascii(s),
    ensures
        is_ascii(ascii_lower(s)),
        parse_normalized(normalize_upper(ascii_upper(ascii_lower(s)))) == parse_normalized(
            normalize_upper(ascii_upper(s)),
        ),
{
    assert forall|i: int| 0 <= i < ascii_lower(s).len() implies (#[trigger] ascii_lower(s)[i] as u32)
        < 128 by {
        assert((s[i] as u32) < 128);
    }
    assert(ascii_upper(ascii_lower(s)) =~= ascii_upper(s));
}

/// Parses a COBALT COBOL source text into a `CobaltApp`.
pub fn parse(source: &str) -> (r: Result<CobaltApp, ParseError>)
    ensures
        parse_gives(r, parse_result(source@)),
        is_ascii(source@) ==> parse_gives(r, parse_normalized(normalize_upper(ascii_upper(source@)))),
{
    let normalized_text = normalize_source(source);
    let chars = chars_of(normalized_text.as_str());
    let toks = match tokenize(&chars) {
        Ok(toks) => toks,
        Err(p) => {
            return Err(ParseError::Lexical { offset: p });
        },
    };
    match parse_program(&toks) {
        Some(app) => Ok(app),
        None => Err(ParseError::Syntax),
    }
}

} // verus!
