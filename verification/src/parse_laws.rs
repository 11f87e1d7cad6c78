//! Properties of every parsed application.
use crate::grammar::{p_compare_op, p_pic, p_statement, paragraphs_of, screens_of, state_of, tok_at, word_at};
use crate::ir::{CompareOp, PicKind};
use crate::lexer::{lex_from, prepend, SpecToken};
use crate::model::{spec_name, SpecNode, SpecParagraph, SpecStateField, SpecStatement};
use crate::table::table_insert;
use crate::tree::SpecEntry;
use vstd::prelude::*;

verus! {

/// Every screen is a container, named as its root.
pub proof fn lemma_screens_are_containers(nodes: Seq<SpecNode>)
    ensures
        forall|i: int|
            0 <= i < screens_of(nodes).len() ==> {
                let s = #[trigger] screens_of(nodes)[i];
                &&& s.root is Container
                &&& spec_name(s.root) == s.name
            },
    decreases nodes.len(),
{
    if nodes.len() > 0 {
        lemma_screens_are_containers(nodes.drop_last());
    }
}

/// There are no more screens than top-level nodes.
pub proof fn lemma_screens_count(nodes: Seq<SpecNode>)
    ensures
        screens_of(nodes).len() <= nodes.len(),
    decreases nodes.len(),
{
    if nodes.len() > 0 {
        lemma_screens_count(nodes.drop_last());
    }
}

/// Inserting an entry whose key is its value's name keeps every entry
/// stored under its value's name.
proof fn lemma_insert_keeps_names<W>(
    tab: Seq<(Seq<char>, W)>,
    k: Seq<char>,
    v: W,
    name: spec_fn(W) -> Seq<char>,
)
    requires
        name(v) == k,
        forall|i: int| 0 <= i < tab.len() ==> name(#[trigger] tab[i].1) == tab[i].0,
    ensures
        forall|i: int|
            0 <= i < table_insert(tab, k, v).len() ==> name(#[trigger] table_insert(tab, k, v)[i].1)
                == table_insert(tab, k, v)[i].0,
{
    let r = table_insert(tab, k, v);
    if exists|i: int| 0 <= i < tab.len() && tab[i].0 == k {
        assert forall|i: int| 0 <= i < r.len() implies name(#[trigger] r[i].1) == r[i].0 by {
            assert(r[i] == tab[i] || r[i] == (k, v));
        }
    } else {
        assert(r == tab.push((k, v)));
        assert forall|i: int| 0 <= i < r.len() implies name(#[trigger] r[i].1) == r[i].0 by {
            if i < tab.len() {
                assert(r[i] == tab[i]);
            }
        }
    }
}

/// Every state field is stored under its own name.
pub proof fn lemma_state_keyed_by_name(es: Seq<SpecEntry>)
    ensures
        forall|i: int|
            0 <= i < state_of(es).len() ==> (#[trigger] state_of(es)[i]).1.name == state_of(es)[i].0,
    decreases es.len(),
{
    if es.len() > 0 {
        lemma_state_keyed_by_name(es.drop_last());
        let e = es.last();
        if e.level >= 5 && e.pic is Some {
            lemma_insert_keeps_names(
                state_of(es.drop_last()),
                e.name,
                SpecStateField {
                    name: e.name,
                    pic: e.pic.unwrap(),
                    default_value: e.value,
                    conditions: e.conditions,
                },
                |f: SpecStateField| f.name,
            );
        }
    }
}

/// Every paragraph is stored under its own name.
pub proof fn lemma_paragraphs_keyed_by_name(ps: Seq<SpecParagraph>)
    ensures
        forall|i: int|
            0 <= i < paragraphs_of(ps).len() ==> (#[trigger] paragraphs_of(ps)[i]).1.name
                == paragraphs_of(ps)[i].0,
    decreases ps.len(),
{
    if ps.len() > 0 {
        lemma_paragraphs_keyed_by_name(ps.drop_last());
        lemma_insert_keeps_names(
            paragraphs_of(ps.drop_last()),
            ps.last().name,
            ps.last(),
            |p: SpecParagraph| p.name,
        );
    }
}

/// A statement is of the kind its keyword names: MOVE gives a move, ADD an
/// addition, SUBTRACT a subtraction, MULTIPLY a multiplication, DIVIDE a
/// division, DISPLAY a display, PERFORM a perform, STOP RUN a stop, IF a
/// condition, STRING a concatenation.
pub proof fn lemma_statement_named_by_keyword(t: Seq<SpecToken>, i: int)
    ensures
        p_statement(t, i) matches Some((s, _)) ==> {
            &&& word_at(t, i, "MOVE"@) ==> s is Move
            &&& word_at(t, i, "ADD"@) ==> s is Add
            &&& word_at(t, i, "SUBTRACT"@) ==> s is Subtract
            &&& word_at(t, i, "MULTIPLY"@) ==> s is Multiply
            &&& word_at(t, i, "DIVIDE"@) ==> s is Divide
            &&& word_at(t, i, "DISPLAY"@) ==> s is Display
            &&& word_at(t, i, "PERFORM"@) ==> s is Perform
            &&& word_at(t, i, "STOP"@) ==> s is StopRun
            &&& word_at(t, i, "IF"@) ==> s is If
            &&& word_at(t, i, "STRING"@) ==> s is StringConcat
        },
{
    reveal_strlit("MOVE");
    reveal_strlit("ADD");
    reveal_strlit("SUBTRACT");
    reveal_strlit("MULTIPLY");
    reveal_strlit("DIVIDE");
    reveal_strlit("DISPLAY");
    reveal_strlit("PERFORM");
    reveal_strlit("STOP");
    reveal_strlit("IF");
    reveal_strlit("STRING");
    assert("MOVE"@ != "ADD"@) by {
        assert("MOVE"@.len() != "ADD"@.len());
    }
    assert("MOVE"@ != "SUBTRACT"@) by {
        assert("MOVE"@.len() != "SUBTRACT"@.len());
    }
    assert("MOVE"@ != "MULTIPLY"@) by {
        assert("MOVE"@.len() != "MULTIPLY"@.len());
    }
    assert("MOVE"@ != "DIVIDE"@) by {
        assert("MOVE"@.len() != "DIVIDE"@.len());
    }
    assert("MOVE"@ != "DISPLAY"@) by {
        assert("MOVE"@.len() != "DISPLAY"@.len());
    }
    assert("MOVE"@ != "PERFORM"@) by {
        assert("MOVE"@.len() != "PERFORM"@.len());
    }
    assert("MOVE"@ != "STOP"@) by {
        assert("MOVE"@[0] != "STOP"@[0]);
    }
    assert("MOVE"@ != "IF"@) by {
        assert("MOVE"@.len() != "IF"@.len());
    }
    assert("MOVE"@ != "STRING"@) by {
        assert("MOVE"@.len() != "STRING"@.len());
    }
    assert("ADD"@ != "SUBTRACT"@) by {
        assert("ADD"@.len() != "SUBTRACT"@.len());
    }
    assert("ADD"@ != "MULTIPLY"@) by {
        assert("ADD"@.len() != "MULTIPLY"@.len());
    }
    assert("ADD"@ != "DIVIDE"@) by {
        assert("ADD"@.len() != "DIVIDE"@.len());
    }
    assert("ADD"@ != "DISPLAY"@) by {
        assert("ADD"@.len() != "DISPLAY"@.len());
    }
    assert("ADD"@ != "PERFORM"@) by {
        assert("ADD"@.len() != "PERFORM"@.len());
    }
    assert("ADD"@ != "STOP"@) by {
        assert("ADD"@.len() != "STOP"@.len());
    }
    assert("ADD"@ != "IF"@) by {
        assert("ADD"@.len() != "IF"@.len());
    }
    assert("ADD"@ != "STRING"@) by {
        assert("ADD"@.len() != "STRING"@.len());
    }
    assert("SUBTRACT"@ != "MULTIPLY"@) by {
        assert("SUBTRACT"@[0] != "MULTIPLY"@[0]);
    }
    assert("SUBTRACT"@ != "DIVIDE"@) by {
        assert("SUBTRACT"@.len() != "DIVIDE"@.len());
    }
    assert("SUBTRACT"@ != "DISPLAY"@) by {
        assert("SUBTRACT"@.len() != "DISPLAY"@.len());
    }
    assert("SUBTRACT"@ != "PERFORM"@) by {
        assert("SUBTRACT"@.len() != "PERFORM"@.len());
    }
    assert("SUBTRACT"@ != "STOP"@) by {
        assert("SUBTRACT"@.len() != "STOP"@.len());
    }
    assert("SUBTRACT"@ != "IF"@) by {
        assert("SUBTRACT"@.len() != "IF"@.len());
    }
    assert("SUBTRACT"@ != "STRING"@) by {
        assert("SUBTRACT"@.len() != "STRING"@.len());
    }
    assert("MULTIPLY"@ != "DIVIDE"@) by {
        assert("MULTIPLY"@.len() != "DIVIDE"@.len());
    }
    assert("MULTIPLY"@ != "DISPLAY"@) by {
        assert("MULTIPLY"@.len() != "DISPLAY"@.len());
    }
    assert("MULTIPLY"@ != "PERFORM"@) by {
        assert("MULTIPLY"@.len() != "PERFORM"@.len());
    }
    assert("MULTIPLY"@ != "STOP"@) by {
        assert("MULTIPLY"@.len() != "STOP"@.len());
    }
    assert("MULTIPLY"@ != "IF"@) by {
        assert("MULTIPLY"@.len() != "IF"@.len());
    }
    assert("MULTIPLY"@ != "STRING"@) by {
        assert("MULTIPLY"@.len() != "STRING"@.len());
    }
    assert("DIVIDE"@ != "DISPLAY"@) by {
        assert("DIVIDE"@.len() != "DISPLAY"@.len());
    }
    assert("DIVIDE"@ != "PERFORM"@) by {
        assert("DIVIDE"@.len() != "PERFORM"@.len());
    }
    assert("DIVIDE"@ != "STOP"@) by {
        assert("DIVIDE"@.len() != "STOP"@.len());
    }
    assert("DIVIDE"@ != "IF"@) by {
        assert("DIVIDE"@.len() != "IF"@.len());
    }
    assert("DIVIDE"@ != "STRING"@) by {
        assert("DIVIDE"@[0] != "STRING"@[0]);
    }
    assert("DISPLAY"@ != "PERFORM"@) by {
        assert("DISPLAY"@[0] != "PERFORM"@[0]);
    }
    assert("DISPLAY"@ != "STOP"@) by {
        assert("DISPLAY"@.len() != "STOP"@.len());
    }
    assert("DISPLAY"@ != "IF"@) by {
        assert("DISPLAY"@.len() != "IF"@.len());
    }
    assert("DISPLAY"@ != "STRING"@) by {
        assert("DISPLAY"@.len() != "STRING"@.len());
    }
    assert("PERFORM"@ != "STOP"@) by {
        assert("PERFORM"@.len() != "STOP"@.len());
    }
    assert("PERFORM"@ != "IF"@) by {
        assert("PERFORM"@.len() != "IF"@.len());
    }
    assert("PERFORM"@ != "STRING"@) by {
        assert("PERFORM"@.len() != "STRING"@.len());
    }
    assert("STOP"@ != "IF"@) by {
        assert("STOP"@.len() != "IF"@.len());
    }
    assert("STOP"@ != "STRING"@) by {
        assert("STOP"@.len() != "STRING"@.len());
    }
    assert("IF"@ != "STRING"@) by {
        assert("IF"@.len() != "STRING"@.len());
    }
}

/// The comparison signs are read as written: `>` as greater, `<` as less,
/// `>=` and `<=` as one sign each, `=` as equal.
pub proof fn lemma_comparison_signs(s: Seq<char>, i: int)
    requires
        0 <= i < s.len(),
    ensures
        s[i] == '>' && (i + 1 == s.len() || s[i + 1] != '=') ==> lex_from(s, i) == prepend(
            SpecToken::Greater,
            lex_from(s, i + 1),
        ),
        s[i] == '>' && i + 1 < s.len() && s[i + 1] == '=' ==> lex_from(s, i) == prepend(
            SpecToken::GreaterEqual,
            lex_from(s, i + 2),
        ),
        s[i] == '<' && (i + 1 == s.len() || s[i + 1] != '=') ==> lex_from(s, i) == prepend(
            SpecToken::Less,
            lex_from(s, i + 1),
        ),
        s[i] == '<' && i + 1 < s.len() && s[i + 1] == '=' ==> lex_from(s, i) == prepend(
            SpecToken::LessEqual,
            lex_from(s, i + 2),
        ),
        s[i] == '=' ==> lex_from(s, i) == prepend(SpecToken::Equal, lex_from(s, i + 1)),
{
}

/// A comparison operator means what its sign says: `=` equal, `>` greater
/// than, `<` less than, `>=` greater or equal, `<=` less or equal, `NOT =`
/// not equal.
pub proof fn lemma_comparison_operators(t: Seq<SpecToken>, i: int)
    ensures
        tok_at(t, i, SpecToken::Equal) ==> p_compare_op(t, i) == Some((CompareOp::Equal, i + 1)),
        tok_at(t, i, SpecToken::Greater) ==> p_compare_op(t, i) == Some(
            (CompareOp::GreaterThan, i + 1),
        ),
        tok_at(t, i, SpecToken::Less) ==> p_compare_op(t, i) == Some((CompareOp::LessThan, i + 1)),
        tok_at(t, i, SpecToken::GreaterEqual) ==> p_compare_op(t, i) == Some(
            (CompareOp::GreaterOrEqual, i + 1),
        ),
        tok_at(t, i, SpecToken::LessEqual) ==> p_compare_op(t, i) == Some(
            (CompareOp::LessOrEqual, i + 1),
        ),
        word_at(t, i, "NOT"@) && tok_at(t, i + 1, SpecToken::Equal) ==> p_compare_op(t, i) == Some(
            (CompareOp::NotEqual, i + 2),
        ),
{
}

/// A PIC clause has the kind its letter names: `X` alphanumeric, `9`
/// numeric, `A` alphabetic.
pub proof fn lemma_pic_kind(t: Seq<SpecToken>, i: int)
    ensures
        p_pic(t, i) matches Some((pic, _)) ==> {
            &&& word_at(t, i, "X"@) ==> pic.kind == PicKind::Alphanumeric
            &&& word_at(t, i, "9"@) ==> pic.kind == PicKind::Numeric
            &&& word_at(t, i, "A"@) ==> pic.kind == PicKind::Alphabetic
        },
{
    reveal_strlit("X");
    reveal_strlit("9");
    reveal_strlit("A");
    assert("X"@ != "9"@) by {
        assert("X"@[0] != "9"@[0]);
    }
    assert("X"@ != "A"@) by {
        assert("X"@[0] != "A"@[0]);
    }
    assert("9"@ != "A"@) by {
        assert("9"@[0] != "A"@[0]);
    }
}

} // verus!
