//! The grammar of COBALT programs, over tokens.
//!
//! ```text
//! program      := [identification] [data] [procedure]
//! identification := IDENTIFICATION DIVISION . [PROGRAM-ID . word .]
//! data         := DATA DIVISION . [WORKING-STORAGE SECTION . ws-entry*]
//!                                 [SCREEN SECTION . data-entry*]
//! ws-entry     := 88 ident VALUE (string | digits) .  |  data-entry
//! data-entry   := digits ident clause* .
//! clause       := PIC kind [( digits )] [V9 ( digits )]  |  VALUE (string | digits)
//!               | USING ident  |  ON-ACTION PERFORM ident  |  GO-TO-SCREEN ident
//!               | BACKGROUND-COLOR digits  |  FOREGROUND-COLOR digits
//! procedure    := PROCEDURE DIVISION . (ident . (statement [.])*)*
//! statement    := MOVE expr TO ident  |  ADD expr TO ident  |  SUBTRACT expr FROM ident
//!               | MULTIPLY expr BY ident  |  DIVIDE expr INTO ident  |  DISPLAY expr+
//!               | PERFORM ident  |  STOP RUN
//!               | IF expr op expr statement* [ELSE statement*] END-IF
//!               | STRING (expr DELIMITED [BY] (SIZE | SPACE | SPACES | string))+ INTO ident
//! expr         := string | digits | ident
//! op           := = | > | < | >= | <= | NOT =
//! ```
//! An identifier is a word that begins with a letter and is not a reserved word.
use crate::ir::{CompareOp, PicClause, PicKind};
use crate::lexer::SpecToken;
use crate::model::{
    SpecApp, SpecCondition, SpecExpr, SpecNode, SpecParagraph, SpecScreen, SpecStateField,
    SpecStatement,
};
use crate::table::table_insert;
use crate::tree::{tree_of, SpecEntry};
use vstd::prelude::*;

verus! {

/// Whether token `i` is the word `w`.
pub open spec fn word_at(t: Seq<SpecToken>, i: int, w: Seq<char>) -> bool {
    0 <= i < t.len() && t[i] == SpecToken::Word(w)
}

/// Whether token `i` is `x`.
pub open spec fn tok_at(t: Seq<SpecToken>, i: int, x: SpecToken) -> bool {
    0 <= i < t.len() && t[i] == x
}

pub open spec fn is_letter(c: char) -> bool {
    ('A' <= c <= 'Z') || ('a' <= c <= 'z')
}

pub open spec fn is_digit(c: char) -> bool {
    '0' <= c <= '9'
}

/// A nonempty run of decimal digits.
pub open spec fn all_digits(w: Seq<char>) -> bool {
    w.len() > 0 && forall|k: int| 0 <= k < w.len() ==> is_digit(#[trigger] w[k])
}

/// The words that begin statements.
pub open spec fn is_statement_keyword(w: Seq<char>) -> bool {
    ||| w == "MOVE"@
    ||| w == "ADD"@
    ||| w == "SUBTRACT"@
    ||| w == "MULTIPLY"@
    ||| w == "DIVIDE"@
    ||| w == "DISPLAY"@
    ||| w == "PERFORM"@
    ||| w == "STOP"@
    ||| w == "IF"@
    ||| w == "STRING"@
}

/// The words that cannot name a variable, a paragraph or an entry.
pub open spec fn is_reserved(w: Seq<char>) -> bool {
    ||| is_statement_keyword(w)
    ||| w == "TO"@
    ||| w == "FROM"@
    ||| w == "BY"@
    ||| w == "INTO"@
    ||| w == "RUN"@
    ||| w == "ELSE"@
    ||| w == "END-IF"@
    ||| w == "NOT"@
    ||| w == "DELIMITED"@
    ||| w == "SIZE"@
    ||| w == "SPACE"@
    ||| w == "SPACES"@
    ||| w == "PIC"@
    ||| w == "VALUE"@
    ||| w == "USING"@
    ||| w == "ON-ACTION"@
    ||| w == "GO-TO-SCREEN"@
    ||| w == "BACKGROUND-COLOR"@
    ||| w == "FOREGROUND-COLOR"@
    ||| w == "IDENTIFICATION"@
    ||| w == "PROGRAM-ID"@
    ||| w == "DATA"@
    ||| w == "DIVISION"@
    ||| w == "SECTION"@
    ||| w == "WORKING-STORAGE"@
    ||| w == "SCREEN"@
    ||| w == "PROCEDURE"@
}

/// The identifier at token `i`.
pub open spec fn ident_at(t: Seq<SpecToken>, i: int) -> Option<Seq<char>> {
    if 0 <= i < t.len() {
        match t[i] {
            SpecToken::Word(w) => if w.len() > 0 && is_letter(w[0]) && !is_reserved(w) {
                Some(w)
            } else {
                None
            },
            _ => None,
        }
    } else {
        None
    }
}

/// The digits at token `i`.
pub open spec fn digits_at(t: Seq<SpecToken>, i: int) -> Option<Seq<char>> {
    if 0 <= i < t.len() {
        match t[i] {
            SpecToken::Word(w) => if all_digits(w) {
                Some(w)
            } else {
                None
            },
            _ => None,
        }
    } else {
        None
    }
}

/// The value of a run of decimal digits.
pub open spec fn digits_value(w: Seq<char>) -> nat
    decreases w.len(),
{
    if w.len() == 0 {
        0
    } else {
        digits_value(w.drop_last()) * 10 + ((w.last() as u32) - ('0' as u32)) as nat
    }
}

/// A run of digits read as a `u8` (what `str::parse::<u8>().ok()` gives).
pub open spec fn digits_u8(w: Seq<char>) -> Option<u8> {
    if digits_value(w) <= u8::MAX {
        Some(digits_value(w) as u8)
    } else {
        None
    }
}

/// A run of digits read as a `usize` (what `str::parse::<usize>().ok()` gives).
pub open spec fn digits_usize(w: Seq<char>) -> Option<usize> {
    if digits_value(w) <= usize::MAX {
        Some(digits_value(w) as usize)
    } else {
        None
    }
}

/// An expression.
pub open spec fn p_expr(t: Seq<SpecToken>, i: int) -> Option<(SpecExpr, int)> {
    if 0 <= i < t.len() {
        match t[i] {
            SpecToken::Quoted(s) => Some((SpecExpr::Literal(s), i + 1)),
            SpecToken::Word(w) => if all_digits(w) {
                Some((SpecExpr::NumericLiteral(w), i + 1))
            } else if ident_at(t, i) is Some {
                Some((SpecExpr::Variable(w), i + 1))
            } else {
                None
            },
            _ => None,
        }
    } else {
        None
    }
}

/// A comparison operator.
pub open spec fn p_compare_op(t: Seq<SpecToken>, i: int) -> Option<(CompareOp, int)> {
    if tok_at(t, i, SpecToken::Equal) {
        Some((CompareOp::Equal, i + 1))
    } else if tok_at(t, i, SpecToken::Greater) {
        Some((CompareOp::GreaterThan, i + 1))
    } else if tok_at(t, i, SpecToken::Less) {
        Some((CompareOp::LessThan, i + 1))
    } else if tok_at(t, i, SpecToken::GreaterEqual) {
        Some((CompareOp::GreaterOrEqual, i + 1))
    } else if tok_at(t, i, SpecToken::LessEqual) {
        Some((CompareOp::LessOrEqual, i + 1))
    } else if word_at(t, i, "NOT"@) && tok_at(t, i + 1, SpecToken::Equal) {
        Some((CompareOp::NotEqual, i + 2))
    } else {
        None
    }
}

/// A comparison.
pub open spec fn p_condition(t: Seq<SpecToken>, i: int) -> Option<(SpecCondition, int)> {
    match p_expr(t, i) {
        Some((left, j)) => match p_compare_op(t, j) {
            Some((op, k)) => match p_expr(t, k) {
                Some((right, m)) => Some((SpecCondition::Compare { left, op, right }, m)),
                None => None,
            },
            None => None,
        },
        None => None,
    }
}

/// The keyword `kw` followed by an identifier.
pub open spec fn p_target(t: Seq<SpecToken>, i: int, kw: Seq<char>) -> Option<(Seq<char>, int)> {
    if word_at(t, i, kw) && ident_at(t, i + 1) is Some {
        Some((ident_at(t, i + 1).unwrap(), i + 2))
    } else {
        None
    }
}

/// As many expressions as follow.
pub open spec fn p_exprs(t: Seq<SpecToken>, i: int) -> (Seq<SpecExpr>, int)
    decreases t.len() - i,
{
    match p_expr(t, i) {
        Some((e, j)) => if j > i {
            let (rest, k) = p_exprs(t, j);
            (seq![e] + rest, k)
        } else {
            (seq![], i)
        },
        None => (seq![], i),
    }
}

/// The delimiter of a STRING source.
pub open spec fn p_delimiter(t: Seq<SpecToken>, i: int) -> Option<(SpecExpr, int)> {
    if word_at(t, i, "SIZE"@) {
        Some((SpecExpr::Literal("SIZE"@), i + 1))
    } else if word_at(t, i, "SPACE"@) || word_at(t, i, "SPACES"@) {
        Some((SpecExpr::Literal("SPACE"@), i + 1))
    } else if 0 <= i < t.len() && t[i] is Quoted {
        Some((SpecExpr::Literal(t[i]->Quoted_0), i + 1))
    } else {
        None
    }
}

/// One source of a STRING statement.
pub open spec fn p_source(t: Seq<SpecToken>, i: int) -> Option<((SpecExpr, SpecExpr), int)> {
    match p_expr(t, i) {
        Some((e, j)) => if word_at(t, j, "DELIMITED"@) {
            let k = if word_at(t, j + 1, "BY"@) {
                j + 2
            } else {
                j + 1
            };
            match p_delimiter(t, k) {
                Some((d, m)) => Some(((e, d), m)),
                None => None,
            }
        } else {
            None
        },
        None => None,
    }
}

/// As many STRING sources as follow.
pub open spec fn p_sources(t: Seq<SpecToken>, i: int) -> (Seq<(SpecExpr, SpecExpr)>, int)
    decreases t.len() - i,
{
    match p_source(t, i) {
        Some((s, j)) => if j > i {
            let (rest, k) = p_sources(t, j);
            (seq![s] + rest, k)
        } else {
            (seq![], i)
        },
        None => (seq![], i),
    }
}

/// Whether a statement begins at token `i`.
pub open spec fn starts_statement(t: Seq<SpecToken>, i: int) -> bool {
    0 <= i < t.len() && t[i] is Word && is_statement_keyword(t[i]->Word_0)
}

/// One of the statements ADD, SUBTRACT, MULTIPLY, DIVIDE, built from its
/// source and target.
pub open spec fn arith_statement(kw: Seq<char>, source: SpecExpr, target: Seq<char>) -> SpecStatement {
    if kw == "ADD"@ {
        SpecStatement::Add { source, target }
    } else if kw == "SUBTRACT"@ {
        SpecStatement::Subtract { source, target }
    } else if kw == "MULTIPLY"@ {
        SpecStatement::Multiply { source, target }
    } else {
        SpecStatement::Divide { source, target }
    }
}

/// The word between the source and the target of MOVE, ADD, SUBTRACT, MULTIPLY, DIVIDE.
pub open spec fn target_keyword(kw: Seq<char>) -> Seq<char> {
    if kw == "MOVE"@ || kw == "ADD"@ {
        "TO"@
    } else if kw == "SUBTRACT"@ {
        "FROM"@
    } else if kw == "MULTIPLY"@ {
        "BY"@
    } else {
        "INTO"@
    }
}

/// A statement.
pub open spec fn p_statement(t: Seq<SpecToken>, i: int) -> Option<(SpecStatement, int)>
    decreases t.len() - i, 0nat,
{
    if !starts_statement(t, i) {
        None
    } else {
        let kw = t[i]->Word_0;
        if kw == "MOVE"@ || kw == "ADD"@ || kw == "SUBTRACT"@ || kw == "MULTIPLY"@ || kw
            == "DIVIDE"@ {
            match p_expr(t, i + 1) {
                Some((e, j)) => match p_target(t, j, target_keyword(kw)) {
                    Some((n, k)) => Some(
                        (
                            if kw == "MOVE"@ {
                                SpecStatement::Move { source: e, target: n }
                            } else {
                                arith_statement(kw, e, n)
                            },
                            k,
                        ),
                    ),
                    None => None,
                },
                None => None,
            }
        } else if kw == "DISPLAY"@ {
            let (vs, j) = p_exprs(t, i + 1);
            if vs.len() == 0 {
                None
            } else {
                Some((SpecStatement::Display { values: vs }, j))
            }
        } else if kw == "PERFORM"@ {
            match ident_at(t, i + 1) {
                Some(n) => Some((SpecStatement::Perform { paragraph: n }, i + 2)),
                None => None,
            }
        } else if kw == "STOP"@ {
            if word_at(t, i + 1, "RUN"@) {
                Some((SpecStatement::StopRun, i + 2))
            } else {
                None
            }
        } else if kw == "IF"@ {
            match p_condition(t, i + 1) {
                Some((c, j)) => if i < j <= t.len() {
                    match p_block(t, j) {
                        Some((then_body, k)) => if k >= j && word_at(t, k, "ELSE"@) {
                            match p_block(t, k + 1) {
                                Some((else_body, m)) => if word_at(t, m, "END-IF"@) {
                                    Some(
                                        (
                                            SpecStatement::If {
                                                condition: c,
                                                then_body,
                                                else_body,
                                            },
                                            m + 1,
                                        ),
                                    )
                                } else {
                                    None
                                },
                                None => None,
                            }
                        } else if word_at(t, k, "END-IF"@) {
                            Some(
                                (
                                    SpecStatement::If {
                                        condition: c,
                                        then_body,
                                        else_body: seq![],
                                    },
                                    k + 1,
                                ),
                            )
                        } else {
                            None
                        },
                        None => None,
                    }
                } else {
                    None
                },
                None => None,
            }
        } else {
            let (srcs, j) = p_sources(t, i + 1);
            if srcs.len() == 0 {
                None
            } else {
                match p_target(t, j, "INTO"@) {
                    Some((n, k)) => Some((SpecStatement::StringConcat { sources: srcs, into: n }, k)),
                    None => None,
                }
            }
        }
    }
}

/// Statements, as long as statements follow.
pub open spec fn p_block(t: Seq<SpecToken>, i: int) -> Option<(Seq<SpecStatement>, int)>
    decreases t.len() - i, 1nat,
{
    if !starts_statement(t, i) {
        Some((seq![], i))
    } else {
        match p_statement(t, i) {
            Some((s, j)) => if i < j <= t.len() {
                match p_block(t, j) {
                    Some((rest, k)) => Some((seq![s] + rest, k)),
                    None => None,
                }
            } else {
                None
            },
            None => None,
        }
    }
}

/// Sentences of a paragraph: statements, each optionally ended by a period.
pub open spec fn p_sentences(t: Seq<SpecToken>, i: int) -> Option<(Seq<SpecStatement>, int)>
    decreases t.len() - i,
{
    if !starts_statement(t, i) {
        Some((seq![], i))
    } else {
        match p_statement(t, i) {
            Some((s, j)) => if i < j <= t.len() {
                let j2 = if tok_at(t, j, SpecToken::Period) {
                    j + 1
                } else {
                    j
                };
                match p_sentences(t, j2) {
                    Some((rest, k)) => Some((seq![s] + rest, k)),
                    None => None,
                }
            } else {
                None
            },
            None => None,
        }
    }
}

/// Whether a paragraph begins at token `i`: an identifier and a period.
pub open spec fn starts_paragraph(t: Seq<SpecToken>, i: int) -> bool {
    ident_at(t, i) is Some && tok_at(t, i + 1, SpecToken::Period)
}

/// The paragraphs of the PROCEDURE DIVISION.
pub open spec fn p_paragraphs(t: Seq<SpecToken>, i: int) -> Option<(Seq<SpecParagraph>, int)>
    decreases t.len() - i,
{
    if !starts_paragraph(t, i) {
        Some((seq![], i))
    } else {
        match p_sentences(t, i + 2) {
            Some((ss, j)) => if i < j <= t.len() {
                match p_paragraphs(t, j) {
                    Some((rest, k)) => Some(
                        (seq![SpecParagraph { name: ident_at(t, i).unwrap(), statements: ss }] + rest, k),
                    ),
                    None => None,
                }
            } else {
                None
            },
            None => None,
        }
    }
}

/// The kind of a PIC clause.
pub open spec fn pic_kind_at(t: Seq<SpecToken>, i: int) -> Option<PicKind> {
    if word_at(t, i, "X"@) {
        Some(PicKind::Alphanumeric)
    } else if word_at(t, i, "9"@) {
        Some(PicKind::Numeric)
    } else if word_at(t, i, "A"@) {
        Some(PicKind::Alphabetic)
    } else {
        None
    }
}

/// `( digits )` at token `i`.
pub open spec fn p_paren_digits(t: Seq<SpecToken>, i: int) -> Option<Seq<char>> {
    if tok_at(t, i, SpecToken::LParen) && digits_at(t, i + 1) is Some && tok_at(
        t,
        i + 2,
        SpecToken::RParen,
    ) {
        digits_at(t, i + 1)
    } else {
        None
    }
}

/// A PIC clause after the word PIC: the kind, an optional width (1 when
/// absent or too large), and an optional count of decimals.
pub open spec fn p_pic(t: Seq<SpecToken>, i: int) -> Option<(PicClause, int)> {
    match pic_kind_at(t, i) {
        None => None,
        Some(kind) => {
            let (width, j) = match p_paren_digits(t, i + 1) {
                Some(w) => (
                    match digits_usize(w) {
                        Some(v) => v,
                        None => 1usize,
                    },
                    i + 4,
                ),
                None => (1usize, i + 1),
            };
            if word_at(t, j, "V9"@) {
                match p_paren_digits(t, j + 1) {
                    Some(d) => Some((PicClause { kind, width, decimals: digits_usize(d) }, j + 4)),
                    None => None,
                }
            } else {
                Some((PicClause { kind, width, decimals: None }, j))
            }
        },
    }
}

/// A literal value: a quoted string or digits.
pub open spec fn value_at(t: Seq<SpecToken>, i: int) -> Option<Seq<char>> {
    if 0 <= i < t.len() && t[i] is Quoted {
        Some(t[i]->Quoted_0)
    } else {
        digits_at(t, i)
    }
}

/// The clauses of a data entry, each updating the entry.
pub open spec fn p_clauses(t: Seq<SpecToken>, i: int, e: SpecEntry) -> Option<(SpecEntry, int)>
    decreases t.len() - i,
{
    if word_at(t, i, "PIC"@) {
        match p_pic(t, i + 1) {
            Some((pic, j)) => if j > i {
                p_clauses(t, j, SpecEntry { pic: Some(pic), ..e })
            } else {
                None
            },
            None => None,
        }
    } else if word_at(t, i, "VALUE"@) {
        match value_at(t, i + 1) {
            Some(v) => p_clauses(t, i + 2, SpecEntry { value: Some(v), ..e }),
            None => None,
        }
    } else if word_at(t, i, "USING"@) {
        match ident_at(t, i + 1) {
            Some(n) => p_clauses(t, i + 2, SpecEntry { binding: Some(n), ..e }),
            None => None,
        }
    } else if word_at(t, i, "ON-ACTION"@) {
        if word_at(t, i + 1, "PERFORM"@) && ident_at(t, i + 2) is Some {
            p_clauses(t, i + 3, SpecEntry { action: ident_at(t, i + 2), ..e })
        } else {
            None
        }
    } else if word_at(t, i, "GO-TO-SCREEN"@) {
        match ident_at(t, i + 1) {
            Some(n) => p_clauses(t, i + 2, SpecEntry { navigate: Some(n), ..e }),
            None => None,
        }
    } else if word_at(t, i, "BACKGROUND-COLOR"@) {
        match digits_at(t, i + 1) {
            Some(d) => p_clauses(t, i + 2, SpecEntry { bg_color: digits_u8(d), ..e }),
            None => None,
        }
    } else if word_at(t, i, "FOREGROUND-COLOR"@) {
        match digits_at(t, i + 1) {
            Some(d) => p_clauses(t, i + 2, SpecEntry { fg_color: digits_u8(d), ..e }),
            None => None,
        }
    } else {
        Some((e, i))
    }
}

/// A data entry with its level, name and clauses; a level too large for a
/// byte counts as zero.
pub open spec fn p_data_entry(t: Seq<SpecToken>, i: int) -> Option<(SpecEntry, int)> {
    match digits_at(t, i) {
        Some(l) => match ident_at(t, i + 1) {
            Some(name) => {
                let start = SpecEntry {
                    level: match digits_u8(l) {
                        Some(v) => v,
                        None => 0u8,
                    },
                    name,
                    pic: None,
                    value: None,
                    binding: None,
                    action: None,
                    navigate: None,
                    fg_color: None,
                    bg_color: None,
                    conditions: seq![],
                };
                match p_clauses(t, i + 2, start) {
                    Some((e, j)) => if tok_at(t, j, SpecToken::Period) {
                        Some((e, j + 1))
                    } else {
                        None
                    },
                    None => None,
                }
            },
            None => None,
        },
        None => None,
    }
}

/// A level-88 condition name and its value.
pub open spec fn p_level_88(t: Seq<SpecToken>, i: int) -> Option<((Seq<char>, Seq<char>), int)> {
    if word_at(t, i, "88"@) && ident_at(t, i + 1) is Some && word_at(t, i + 2, "VALUE"@)
        && value_at(t, i + 3) is Some && tok_at(t, i + 4, SpecToken::Period) {
        Some(((ident_at(t, i + 1).unwrap(), value_at(t, i + 3).unwrap()), i + 5))
    } else {
        None
    }
}

/// The entries with a level-88 condition added to the last one (if any).
pub open spec fn attach_condition(es: Seq<SpecEntry>, c: (Seq<char>, Seq<char>)) -> Seq<SpecEntry> {
    if es.len() == 0 {
        es
    } else {
        es.update(es.len() - 1, SpecEntry { conditions: es.last().conditions.push(c), ..es.last() })
    }
}

/// Whether an entry begins at token `i` (its level number).
pub open spec fn starts_entry(t: Seq<SpecToken>, i: int) -> bool {
    digits_at(t, i) is Some
}

/// The entries of WORKING-STORAGE, appended to `es`.
pub open spec fn p_ws_entries(t: Seq<SpecToken>, i: int, es: Seq<SpecEntry>) -> Option<
    (Seq<SpecEntry>, int),
>
    decreases t.len() - i,
{
    if !starts_entry(t, i) {
        Some((es, i))
    } else {
        match p_level_88(t, i) {
            Some((c, j)) => p_ws_entries(t, j, attach_condition(es, c)),
            None => match p_data_entry(t, i) {
                Some((e, j)) => if j > i {
                    p_ws_entries(t, j, es.push(e))
                } else {
                    None
                },
                None => None,
            },
        }
    }
}

/// The entries of the SCREEN SECTION, appended to `es`.
pub open spec fn p_screen_entries(t: Seq<SpecToken>, i: int, es: Seq<SpecEntry>) -> Option<
    (Seq<SpecEntry>, int),
>
    decreases t.len() - i,
{
    if !starts_entry(t, i) {
        Some((es, i))
    } else {
        match p_data_entry(t, i) {
            Some((e, j)) => if j > i {
                p_screen_entries(t, j, es.push(e))
            } else {
                None
            },
            None => None,
        }
    }
}

/// Whether the words `w1 w2 .` are at token `i`.
pub open spec fn header_at(t: Seq<SpecToken>, i: int, w1: Seq<char>, w2: Seq<char>) -> bool {
    word_at(t, i, w1) && word_at(t, i + 1, w2) && tok_at(t, i + 2, SpecToken::Period)
}

/// The position after the IDENTIFICATION DIVISION, if it is present.
pub open spec fn p_identification(t: Seq<SpecToken>, i: int) -> Option<int> {
    if !header_at(t, i, "IDENTIFICATION"@, "DIVISION"@) {
        Some(i)
    } else if word_at(t, i + 3, "PROGRAM-ID"@) {
        if tok_at(t, i + 4, SpecToken::Period) && 0 <= i + 5 < t.len() && t[i + 5] is Word
            && tok_at(t, i + 6, SpecToken::Period) {
            Some(i + 7)
        } else {
            None
        }
    } else {
        Some(i + 3)
    }
}

/// The WORKING-STORAGE entries and the SCREEN SECTION entries of the DATA DIVISION.
pub open spec fn p_data_division(t: Seq<SpecToken>, i: int) -> Option<
    (Seq<SpecEntry>, Seq<SpecEntry>, int),
> {
    if !header_at(t, i, "DATA"@, "DIVISION"@) {
        Some((seq![], seq![], i))
    } else {
        let ws = if header_at(t, i + 3, "WORKING-STORAGE"@, "SECTION"@) {
            p_ws_entries(t, i + 6, seq![])
        } else {
            Some((seq![], i + 3))
        };
        match ws {
            None => None,
            Some((wes, j)) => if header_at(t, j, "SCREEN"@, "SECTION"@) {
                match p_screen_entries(t, j + 3, seq![]) {
                    Some((ses, k)) => Some((wes, ses, k)),
                    None => None,
                }
            } else {
                Some((wes, seq![], j))
            },
        }
    }
}

/// The paragraphs of the PROCEDURE DIVISION, if it is present.
pub open spec fn p_procedure(t: Seq<SpecToken>, i: int) -> Option<(Seq<SpecParagraph>, int)> {
    if !header_at(t, i, "PROCEDURE"@, "DIVISION"@) {
        Some((seq![], i))
    } else {
        p_paragraphs(t, i + 3)
    }
}

/// The state definitions given by WORKING-STORAGE entries: each entry below
/// level 01 that has a PIC clause defines a field.
pub open spec fn state_of(es: Seq<SpecEntry>) -> Seq<(Seq<char>, SpecStateField)>
    decreases es.len(),
{
    if es.len() == 0 {
        seq![]
    } else {
        let tab = state_of(es.drop_last());
        let e = es.last();
        if e.level >= 5 && e.pic is Some {
            table_insert(
                tab,
                e.name,
                SpecStateField {
                    name: e.name,
                    pic: e.pic.unwrap(),
                    default_value: e.value,
                    conditions: e.conditions,
                },
            )
        } else {
            tab
        }
    }
}

/// The screens of a SCREEN SECTION: the top-level containers of its tree.
pub open spec fn screens_of(nodes: Seq<SpecNode>) -> Seq<SpecScreen>
    decreases nodes.len(),
{
    if nodes.len() == 0 {
        seq![]
    } else {
        let rest = screens_of(nodes.drop_last());
        match nodes.last() {
            SpecNode::Container { name, .. } => rest.push(SpecScreen { name, root: nodes.last() }),
            _ => rest,
        }
    }
}

/// The paragraphs table, each paragraph stored under its name.
pub open spec fn paragraphs_of(ps: Seq<SpecParagraph>) -> Seq<(Seq<char>, SpecParagraph)>
    decreases ps.len(),
{
    if ps.len() == 0 {
        seq![]
    } else {
        table_insert(paragraphs_of(ps.drop_last()), ps.last().name, ps.last())
    }
}

/// The application that the tokens describe, if they form a program.
pub open spec fn p_program(t: Seq<SpecToken>) -> Option<SpecApp> {
    match p_identification(t, 0) {
        None => None,
        Some(i) => match p_data_division(t, i) {
            None => None,
            Some((wes, ses, j)) => match p_procedure(t, j) {
                None => None,
                Some((ps, k)) => if k == t.len() {
                    Some(
                        SpecApp {
                            screens: screens_of(tree_of(ses)),
                            state: state_of(wes),
                            handlers: ps.map_values(|p: SpecParagraph| (p.name, p.name)),
                            paragraphs: paragraphs_of(ps),
                        },
                    )
                } else {
                    None
                },
            },
        },
    }
}

} // verus!
