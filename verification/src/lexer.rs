//! The tokens of normalised COBALT source.
//!
//! Words are runs of letters, digits and hyphens; quoted strings run from a
//! double quote to the next one; `.`, `(`, `)`, `=`, `>`, `<`, `>=` and `<=`
//! stand alone; whitespace separates tokens and `*>` begins a comment that
//! runs to the end of the line.
use crate::text::{char_is_whitespace, is_whitespace, string_of};
use vstd::prelude::*;

verus! {

/// A token.
#[derive(Debug)]
pub enum Token {
    Word(String),
    Quoted(String),
    Period,
    LParen,
    RParen,
    Equal,
    Greater,
    Less,
    GreaterEqual,
    LessEqual,
}

/// The model of a token.
pub enum SpecToken {
    Word(Seq<char>),
    Quoted(Seq<char>),
    Period,
    LParen,
    RParen,
    Equal,
    Greater,
    Less,
    GreaterEqual,
    LessEqual,
}

pub open spec fn token_view(t: Token) -> SpecToken {
    match t {
        Token::Word(s) => SpecToken::Word(s@),
        Token::Quoted(s) => SpecToken::Quoted(s@),
        Token::Period => SpecToken::Period,
        Token::LParen => SpecToken::LParen,
        Token::RParen => SpecToken::RParen,
        Token::Equal => SpecToken::Equal,
        Token::Greater => SpecToken::Greater,
        Token::Less => SpecToken::Less,
        Token::GreaterEqual => SpecToken::GreaterEqual,
        Token::LessEqual => SpecToken::LessEqual,
    }
}

/// The models of tokens.
pub open spec fn tokens_view(ts: Seq<Token>) -> Seq<SpecToken> {
    ts.map_values(|t: Token| token_view(t))
}

/// Letters, digits and hyphens make up words.
pub open spec fn is_word_char(c: char) -> bool {
    ('A' <= c <= 'Z') || ('a' <= c <= 'z') || ('0' <= c <= '9') || c == '-'
}

fn word_char(c: char) -> (b: bool)
    ensures
        b == is_word_char(c),
{
    ('A' <= c && c <= 'Z') || ('a' <= c && c <= 'z') || ('0' <= c && c <= '9') || c == '-'
}

/// The first position from `j` that does not hold a word character.
pub open spec fn word_end(s: Seq<char>, j: int) -> int
    decreases s.len() - j,
{
    if 0 <= j < s.len() && is_word_char(s[j]) {
        word_end(s, j + 1)
    } else {
        j
    }
}

/// The first position from `j` that holds `c`, or the length of `s`.
pub open spec fn find_char(s: Seq<char>, c: char, j: int) -> int
    decreases s.len() - j,
{
    if 0 <= j < s.len() && s[j] != c {
        find_char(s, c, j + 1)
    } else if j < s.len() {
        j
    } else {
        s.len() as int
    }
}

pub proof fn lemma_word_end(s: Seq<char>, j: int)
    requires
        0 <= j <= s.len(),
    ensures
        j <= word_end(s, j) <= s.len(),
    decreases s.len() - j,
{
    if j < s.len() && is_word_char(s[j]) {
        lemma_word_end(s, j + 1);
    }
}

pub proof fn lemma_find_char(s: Seq<char>, c: char, j: int)
    requires
        0 <= j,
    ensures
        j <= find_char(s, c, j) || find_char(s, c, j) == s.len(),
        find_char(s, c, j) <= s.len(),
        find_char(s, c, j) < s.len() ==> s[find_char(s, c, j)] == c,
    decreases s.len() - j,
{
    if 0 <= j < s.len() && s[j] != c {
        lemma_find_char(s, c, j + 1);
    }
}

/// A token in front of the tokens of the rest, or the failure of the rest.
pub open spec fn prepend(t: SpecToken, r: Result<Seq<SpecToken>, int>) -> Result<Seq<SpecToken>, int> {
    match r {
        Ok(ts) => Ok(seq![t] + ts),
        Err(e) => Err(e),
    }
}

/// Tokens in front of the tokens of the rest, or the failure of the rest.
pub open spec fn prepend_all(ts: Seq<SpecToken>, r: Result<Seq<SpecToken>, int>) -> Result<
    Seq<SpecToken>,
    int,
> {
    match r {
        Ok(rest) => Ok(ts + rest),
        Err(e) => Err(e),
    }
}

/// The tokens of `s` from position `i`, or the position of a character that
/// begins no token (or of a quote that is never closed).
pub open spec fn lex_from(s: Seq<char>, i: int) -> Result<Seq<SpecToken>, int>
    decreases s.len() - i,
{
    if i < 0 || i >= s.len() {
        Ok(seq![])
    } else {
        let c = s[i];
        if is_whitespace(c) {
            lex_from(s, i + 1)
        } else if c == '*' && i + 1 < s.len() && s[i + 1] == '>' {
            let e = find_char(s, '\n', i + 2);
            proof {
                lemma_find_char(s, '\n', i + 2);
            }
            lex_from(s, e)
        } else if c == '"' {
            let e = find_char(s, '"', i + 1);
            proof {
                lemma_find_char(s, '"', i + 1);
            }
            if e >= s.len() {
                Err(i)
            } else {
                prepend(SpecToken::Quoted(s.subrange(i + 1, e)), lex_from(s, e + 1))
            }
        } else if is_word_char(c) {
            let e = word_end(s, i + 1);
            proof {
                lemma_word_end(s, i + 1);
            }
            prepend(SpecToken::Word(s.subrange(i, e)), lex_from(s, e))
        } else if c == '.' {
            prepend(SpecToken::Period, lex_from(s, i + 1))
        } else if c == '(' {
            prepend(SpecToken::LParen, lex_from(s, i + 1))
        } else if c == ')' {
            prepend(SpecToken::RParen, lex_from(s, i + 1))
        } else if c == '=' {
            prepend(SpecToken::Equal, lex_from(s, i + 1))
        } else if c == '>' {
            if i + 1 < s.len() && s[i + 1] == '=' {
                prepend(SpecToken::GreaterEqual, lex_from(s, i + 2))
            } else {
                prepend(SpecToken::Greater, lex_from(s, i + 1))
            }
        } else if c == '<' {
            if i + 1 < s.len() && s[i + 1] == '=' {
                prepend(SpecToken::LessEqual, lex_from(s, i + 2))
            } else {
                prepend(SpecToken::Less, lex_from(s, i + 1))
            }
        } else {
            Err(i)
        }
    }
}

/// The tokens of `s`, or the position where tokenising fails.
pub open spec fn lex(s: Seq<char>) -> Result<Seq<SpecToken>, int> {
    lex_from(s, 0)
}

/// Whether `r` reports the tokenisation `e`.
pub open spec fn lex_result(r: Result<Vec<Token>, usize>, e: Result<Seq<SpecToken>, int>) -> bool {
    match e {
        Ok(ts) => r matches Ok(v) && tokens_view(v@) == ts,
        Err(p) => r matches Err(q) && q == p,
    }
}

/// Splits characters into tokens.
pub fn tokenize(s: &Vec<char>) -> (r: Result<Vec<Token>, usize>)
    ensures
        lex_result(r, lex(s@)),
{
    let n = s.len();
    let mut toks: Vec<Token> = Vec::new();
    let mut i: usize = 0;
    while i < n
        invariant
            n == s@.len(),
            i <= n,
            lex(s@) == prepend_all(tokens_view(toks@), lex_from(s@, i as int)),
        decreases n - i,
    {
        let ghost before = tokens_view(toks@);
        assert(before == tokens_view(toks@));
        let ghost si = i as int;
        let c = s[i];
        if char_is_whitespace(c) {
            i = i + 1;
        } else if c == '*' && i + 1 < n && s[i + 1] == '>' {
            let mut e = i + 2;
            while e < n && s[e] != '\n'
                invariant
                    si + 2 <= e <= n,
                    n == s@.len(),
                    find_char(s@, '\n', si + 2) == find_char(s@, '\n', e as int),
                decreases n - e,
            {
                e = e + 1;
            }
            i = e;
        } else if c == '"' {
            let mut e = i + 1;
            while e < n && s[e] != '"'
                invariant
                    si + 1 <= e <= n,
                    n == s@.len(),
                    find_char(s@, '"', si + 1) == find_char(s@, '"', e as int),
                decreases n - e,
            {
                e = e + 1;
            }
            if e >= n {
                return Err(i);
            }
            let ghost prev = toks@;
            toks.push(Token::Quoted(string_of(s, i + 1, e)));
            assert(toks@.drop_last() =~= prev);
            proof { lemma_push_token(toks@, before, lex_from(s@, e + 1)); }
            i = e + 1;
        } else if word_char(c) {
            let mut e = i + 1;
            while e < n && word_char(s[e])
                invariant
                    si + 1 <= e <= n,
                    n == s@.len(),
                    word_end(s@, si + 1) == word_end(s@, e as int),
                decreases n - e,
            {
                e = e + 1;
            }
            let ghost prev = toks@;
            toks.push(Token::Word(string_of(s, i, e)));
            assert(toks@.drop_last() =~= prev);
            proof { lemma_push_token(toks@, before, lex_from(s@, e as int)); }
            i = e;
        } else {
            let (t, step): (Token, usize) = if c == '.' {
                (Token::Period, 1)
            } else if c == '(' {
                (Token::LParen, 1)
            } else if c == ')' {
                (Token::RParen, 1)
            } else if c == '=' {
                (Token::Equal, 1)
            } else if c == '>' {
                if i + 1 < n && s[i + 1] == '=' {
                    (Token::GreaterEqual, 2)
                } else {
                    (Token::Greater, 1)
                }
            } else if c == '<' {
                if i + 1 < n && s[i + 1] == '=' {
                    (Token::LessEqual, 2)
                } else {
                    (Token::Less, 1)
                }
            } else {
                return Err(i);
            };
            let ghost prev = toks@;
            toks.push(t);
            assert(toks@.drop_last() =~= prev);
            proof { lemma_push_token(toks@, before, lex_from(s@, i + step)); }
            i = i + step;
        }
    }
    assert(tokens_view(toks@) + Seq::<SpecToken>::empty() =~= tokens_view(toks@));
    Ok(toks)
}

proof fn lemma_push_token(toks: Seq<Token>, before: Seq<SpecToken>, rest: Result<Seq<SpecToken>, int>)
    requires
        toks.len() > 0,
        tokens_view(toks.drop_last()) == before,
    ensures
        prepend_all(before, prepend(token_view(toks.last()), rest)) == prepend_all(
            tokens_view(toks),
            rest,
        ),
{
    assert(tokens_view(toks) =~= before.push(token_view(toks.last())));
    match rest {
        Ok(r) => {
            assert(before + (seq![token_view(toks.last())] + r) =~= before.push(
                token_view(toks.last()),
            ) + r);
        },
        Err(_) => {},
    }
}

} // verus!
