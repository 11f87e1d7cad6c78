//! Normalisation of COBOL source text before parsing.
//!
//! COBOL is case-insensitive and line-oriented: the text is upper-cased;
//! a sequence number in columns 1-6 (six digits) is stripped from each
//! line; every line is trimmed; comment lines (a `*` in the first column,
//! but not the `*>` inline comment marker) are blanked; and each run of
//! whitespace outside a quoted string becomes one space.
use crate::text::{
    char_is_whitespace, chars_of, is_whitespace, join, lemma_line_end_at, push_char, split_lines,
    trim, trim_bounds,
};
use vstd::prelude::*;

verus! {

/// What `str::to_uppercase` returns for a string (the Unicode upper-case
/// mapping applied to each character). Only its name is used: the
/// contracts say that the result of the call is this function of the
/// argument, and nothing of what the mapping does.
pub uninterp spec fn uppercase(s: Seq<char>) -> Seq<char>;

/// Whether every character is ASCII.
pub open spec fn is_ascii(s: Seq<char>) -> bool {
    forall|i: int| 0 <= i < s.len() ==> (#[trigger] s[i] as u32) < 128
}

/// The ASCII upper-case of a character: `a`-`z` become `A`-`Z`, anything
/// else stays.
pub open spec fn ascii_upper_char(c: char) -> char {
    if 'a' <= c && c <= 'z' {
        ((c as u32) - 32) as char
    } else {
        c
    }
}

/// The ASCII lower-case of a character: `A`-`Z` become `a`-`z`, anything
/// else stays.
pub open spec fn ascii_lower_char(c: char) -> char {
    if 'A' <= c && c <= 'Z' {
        ((c as u32) + 32) as char
    } else {
        c
    }
}

pub open spec fn ascii_upper(s: Seq<char>) -> Seq<char> {
    s.map_values(|c: char| ascii_upper_char(c))
}

pub open spec fn ascii_lower(s: Seq<char>) -> Seq<char> {
    s.map_values(|c: char| ascii_lower_char(c))
}

/// Upper-cases a string with `str::to_uppercase`. The contract claims that
/// the result depends on the argument alone, naming it `uppercase`, and, as
/// the standard library documents for ASCII text, that an ASCII string has
/// its letters `a`-`z` turned into `A`-`Z` and nothing else changed.
#[verifier::external_body]
pub(crate) fn to_uppercase(s: &str) -> (r: String)
    ensures
        r@ == uppercase(s@),
        is_ascii(s@) ==> r@ == ascii_upper(s@),
{
    s.to_uppercase()
}

/// Whether a trimmed line is a comment line.
pub open spec fn is_comment_line(t: Seq<char>) -> bool {
    t.len() > 0 && t[0] == '*' && !(t.len() > 1 && t[1] == '>')
}

/// Whether a line begins with a sequence number: six decimal digits.
pub open spec fn has_sequence_number(l: Seq<char>) -> bool {
    l.len() >= 6 && forall|i: int| 0 <= i < 6 ==> '0' <= #[trigger] l[i] && l[i] <= '9'
}

/// A line without its sequence number.
pub open spec fn without_sequence_number(l: Seq<char>) -> Seq<char> {
    if has_sequence_number(l) {
        l.skip(6)
    } else {
        l
    }
}

/// `t` with each run of whitespace outside quoted strings replaced by one
/// space; `quoted` says whether `t` begins inside a quoted string, `spaced`
/// whether a space has just been written for a run of whitespace.
pub open spec fn collapse(t: Seq<char>, quoted: bool, spaced: bool) -> Seq<char>
    decreases t.len(),
{
    if t.len() == 0 {
        seq![]
    } else {
        let c = t[0];
        if quoted {
            seq![c] + collapse(t.drop_first(), c != '"', false)
        } else if is_whitespace(c) {
            if spaced {
                collapse(t.drop_first(), false, true)
            } else {
                seq![' '] + collapse(t.drop_first(), false, true)
            }
        } else {
            seq![c] + collapse(t.drop_first(), c == '"', false)
        }
    }
}

/// One line of upper-cased text after normalisation.
pub open spec fn normalize_line(line: Seq<char>) -> Seq<char> {
    let t = trim(without_sequence_number(line));
    if is_comment_line(t) {
        seq![]
    } else {
        collapse(t, false, false)
    }
}

/// The normalisation of upper-cased text: its lines, each normalised,
/// joined by newlines.
pub open spec fn normalize_upper(u: Seq<char>) -> Seq<char> {
    join(split_lines(u).map_values(|l: Seq<char>| normalize_line(l)), '\n')
}

/// The normalised text of `src`.
pub open spec fn normalized(src: Seq<char>) -> Seq<char> {
    normalize_upper(uppercase(src))
}

/// Appends `collapse(v[from..to], false, false)`.
fn push_collapsed(out: &mut String, v: &Vec<char>, from: usize, to: usize)
    requires
        from <= to <= v.len(),
    ensures
        final(out)@ == old(out)@ + collapse(v@.subrange(from as int, to as int), false, false),
{
    let mut i = from;
    let mut quoted = false;
    let mut spaced = false;
    while i < to
        invariant
            from <= i <= to <= v.len(),
            old(out)@ + collapse(v@.subrange(from as int, to as int), false, false) == out@
                + collapse(v@.subrange(i as int, to as int), quoted, spaced),
        decreases to - i,
    {
        let c = v[i];
        let ghost rest = v@.subrange(i as int, to as int);
        assert(rest.drop_first() =~= v@.subrange(i + 1, to as int));
        assert(rest[0] == c);
        let ghost before = out@;
        let ghost q0 = quoted;
        let ghost s0 = spaced;
        if quoted {
            push_char(out, c);
            quoted = c != '"';
            spaced = false;
        } else if char_is_whitespace(c) {
            if !spaced {
                push_char(out, ' ');
            }
            spaced = true;
        } else {
            push_char(out, c);
            quoted = c == '"';
            spaced = false;
        }
        assert(out@ + collapse(v@.subrange(i + 1, to as int), quoted, spaced) =~= before
            + collapse(rest, q0, s0));
        i = i + 1;
    }
    assert(v@.subrange(to as int, to as int) =~= Seq::<char>::empty());
    assert(out@ + Seq::<char>::empty() =~= out@);
}

/// Appends the normalisation of the line `v[from..to]`.
fn push_normalized_line(out: &mut String, v: &Vec<char>, from: usize, to: usize)
    requires
        from <= to <= v.len(),
    ensures
        final(out)@ == old(out)@ + normalize_line(v@.subrange(from as int, to as int)),
{
    let ghost line = v@.subrange(from as int, to as int);
    let mut start = from;
    if to - from >= 6 {
        let mut k: usize = 0;
        let mut digits = true;
        while k < 6
            invariant
                k <= 6,
                from + 6 <= to <= v.len(),
                digits == (forall|j: int| 0 <= j < k ==> '0' <= #[trigger] v@[from + j] && v@[from
                    + j] <= '9'),
            decreases 6 - k,
        {
            let c = v[from + k];
            if !('0' <= c && c <= '9') {
                digits = false;
            }
            k = k + 1;
        }
        if digits {
            start = from + 6;
        }
        proof {
            assert(has_sequence_number(line) == digits) by {
                if digits {
                    assert forall|j: int| 0 <= j < 6 implies '0' <= #[trigger] line[j] && line[j]
                        <= '9' by {
                        assert(line[j] == v@[from + j]);
                    }
                } else {
                    let j = choose|j: int| 0 <= j < 6 && !('0' <= #[trigger] v@[from + j] && v@[from + j] <= '9');
                    assert(line[j] == v@[from + j]);
                }
            }
        }
    }
    assert(v@.subrange(start as int, to as int) =~= without_sequence_number(line));
    let (a, b) = trim_bounds(v, start, to);
    let comment = a < b && v[a] == '*' && !(a + 1 < b && v[a + 1] == '>');
    if !comment {
        push_collapsed(out, v, a, b);
    } else {
        assert(out@ =~= old(out)@ + Seq::<char>::empty());
    }
}

/// Normalises COBOL source: upper-cases it, strips the sequence numbers,
/// trims every line, blanks comment lines, collapses whitespace outside
/// quoted strings, and joins the lines with newlines.
pub fn normalize_source(source: &str) -> (r: String)
    ensures
        r@ == normalized(source@),
        is_ascii(source@) ==> r@ == normalize_upper(ascii_upper(source@)),
{
    let upper = to_uppercase(source);
    let v = chars_of(upper.as_str());
    let ghost s = v@;
    let n = v.len();
    let mut out = String::new();
    let mut start: usize = 0;
    let ghost mut done: Seq<Seq<char>> = seq![];
    let mut first = true;
    assert(s.skip(0) =~= s);
    assert(done + split_lines(s) =~= split_lines(s));
    while start < n
        invariant
            n == v.len(),
            s == v@,
            start <= n,
            split_lines(s) == done + split_lines(s.skip(start as int)),
            out@ == join(done.map_values(|l: Seq<char>| normalize_line(l)), '\n'),
            first == (done.len() == 0),
        decreases n - start,
    {
        let ghost rest = s.skip(start as int);
        let mut i = start;
        while i < n && v[i] != '\n'
            invariant
                start <= i <= n,
                n == v.len(),
                forall|j: int| start <= j < i ==> v@[j] != '\n',
            decreases n - i,
        {
            i = i + 1;
        }
        proof {
            lemma_line_end_at(rest, i - start);
        }
        let ghost line = s.subrange(start as int, i as int);
        assert(line =~= rest.take(i - start));
        if !first {
            push_char(&mut out, '\n');
        }
        first = false;
        push_normalized_line(&mut out, &v, start, i);
        proof {
            let m = done.map_values(|l: Seq<char>| normalize_line(l));
            let m2 = done.push(line).map_values(|l: Seq<char>| normalize_line(l));
            assert(m2.drop_last() =~= m);
            assert(m2.last() == normalize_line(line));
            if done.len() == 0 {
                assert(m2 =~= seq![normalize_line(line)]);
            }
        }
        if i < n {
            proof {
                assert(rest.skip(i - start + 1) =~= s.skip(i + 1));
                assert(done + split_lines(rest) =~= done.push(line) + split_lines(s.skip(i + 1)));
                done = done.push(line);
            }
            start = i + 1;
        } else {
            proof {
                assert(rest =~= line);
                assert(s.skip(n as int) =~= Seq::<char>::empty());
                assert(done + split_lines(rest) =~= done.push(line) + split_lines(s.skip(n as int)));
                done = done.push(line);
            }
            start = n;
        }
    }
    proof {
        assert(s.skip(n as int) =~= Seq::<char>::empty());
        assert(done + Seq::<Seq<char>>::empty() =~= done);
    }
    out
}

} // verus!
