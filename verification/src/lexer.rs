//! The lexer: scans a line of text left to right into a token sequence.
//!
//! Whitespace runs are skipped and never retained. A maximal run of decimal
//! digits and dots becomes a `Number` token carrying the literal text; each
//! of `( ) + - * /` becomes its token; any other character becomes an
//! `Invalid` token. Lexing never fails: the parser alone decides fatality.

use vstd::prelude::*;

use crate::token::{Token, TokenV};

verus! {

/// The whitespace characters the lexer skips.
pub open spec fn is_space_char(c: char) -> bool {
    c == ' ' || c == '\t' || c == '\n' || c == '\r'
}

/// A decimal digit.
pub open spec fn is_digit_char(c: char) -> bool {
    48 <= c as u32 && c as u32 <= 57
}

/// A character that may appear in a scanned numeric run.
pub open spec fn is_number_char(c: char) -> bool {
    is_digit_char(c) || c == '.'
}

/// The token a single non-number, non-space character classifies to.
pub open spec fn char_token(c: char) -> TokenV {
    if c == '(' {
        TokenV::LeftParen
    } else if c == ')' {
        TokenV::RightParen
    } else if c == '+' {
        TokenV::Plus
    } else if c == '-' {
        TokenV::Minus
    } else if c == '*' {
        TokenV::Star
    } else if c == '/' {
        TokenV::Slash
    } else {
        TokenV::Invalid(c)
    }
}

/// The first position at or after `i` that is not part of the numeric run
/// starting at `i` (so `i` itself when no run starts there).
pub open spec fn number_run_end(s: Seq<char>, i: int) -> int
    decreases s.len() - i,
{
    if i < 0 || i >= s.len() {
        i
    } else if is_number_char(s[i]) {
        number_run_end(s, i + 1)
    } else {
        i
    }
}

/// The numeric run starting at `i` ends no earlier than `i` and no later
/// than the end of the text.
pub proof fn lemma_number_run_end_bounds(s: Seq<char>, i: int)
    requires
        0 <= i <= s.len(),
    ensures
        i <= number_run_end(s, i) <= s.len(),
    decreases s.len() - i,
{
    if i < s.len() && is_number_char(s[i]) {
        lemma_number_run_end_bounds(s, i + 1);
    }
}

/// The token sequence of the text from position `i` on.
pub open spec fn spec_tokenize_from(s: Seq<char>, i: int) -> Seq<TokenV>
    decreases s.len() - i,
    via spec_tokenize_from_decreases
{
    if i < 0 || i >= s.len() {
        Seq::empty()
    } else if is_space_char(s[i]) {
        spec_tokenize_from(s, i + 1)
    } else if is_number_char(s[i]) {
        seq![TokenV::Number(s.subrange(i, number_run_end(s, i)))]
            + spec_tokenize_from(s, number_run_end(s, i))
    } else {
        seq![char_token(s[i])] + spec_tokenize_from(s, i + 1)
    }
}

#[via_fn]
proof fn spec_tokenize_from_decreases(s: Seq<char>, i: int) {
    if 0 <= i < s.len() && !is_space_char(s[i]) && is_number_char(s[i]) {
        lemma_number_run_end_bounds(s, i + 1);
    }
}

/// The token sequence of a whole line of text.
pub open spec fn spec_tokenize(s: Seq<char>) -> Seq<TokenV> {
    spec_tokenize_from(s, 0)
}

fn is_space_exec(c: char) -> (b: bool)
    ensures
        b == is_space_char(c),
{
    c == ' ' || c == '\t' || c == '\n' || c == '\r'
}

fn is_number_char_exec(c: char) -> (b: bool)
    ensures
        b == is_number_char(c),
{
    let u = c as u32;
    (48 <= u && u <= 57) || c == '.'
}

/// Scans the maximal run of digits and dots starting at `i`. Returns the
/// literal text of the run (`None` when the run is empty) and the position
/// just past it.
pub fn get_first_number(s: &str, i: usize) -> (r: (Option<String>, usize))
    requires
        i <= s@.len(),
    ensures
        r.1 == number_run_end(s@, i as int),
        i <= r.1 <= s@.len(),
        match r.0 {
            Some(lex) => i < r.1 && lex@ == s@.subrange(i as int, r.1 as int),
            None => r.1 == i,
        },
{
    let n = s.unicode_len();
    let mut j: usize = i;
    while j < n && is_number_char_exec(s.get_char(j))
        invariant
            i <= j <= n,
            n == s@.len(),
            number_run_end(s@, i as int) == number_run_end(s@, j as int),
        decreases n - j,
    {
        proof {
            assert(number_run_end(s@, j as int) == number_run_end(s@, j + 1 as int));
        }
        j = j + 1;
    }
    proof {
        assert(number_run_end(s@, j as int) == j as int);
    }
    if j > i {
        (Some(String::from_str(s.substring_char(i, j))), j)
    } else {
        (None, j)
    }
}

/// Skips whitespace, then scans one token starting at position `i`.
/// Returns `None` with the text exhausted when only whitespace remains.
pub fn get_token(s: &str, i: usize) -> (r: (Option<Token>, usize))
    requires
        i <= s@.len(),
    ensures
        i <= r.1 <= s@.len(),
        match r.0 {
            Some(t) => i < r.1 && spec_tokenize_from(s@, i as int) == seq![t@]
                + spec_tokenize_from(s@, r.1 as int),
            None => r.1 == s@.len() && spec_tokenize_from(s@, i as int) == Seq::<TokenV>::empty(),
        },
{
    let n = s.unicode_len();
    let mut j: usize = i;
    while j < n && is_space_exec(s.get_char(j))
        invariant
            i <= j <= n,
            n == s@.len(),
            spec_tokenize_from(s@, i as int) == spec_tokenize_from(s@, j as int),
        decreases n - j,
    {
        j = j + 1;
    }
    if j == n {
        return (None, j);
    }
    let (num, k) = get_first_number(s, j);
    match num {
        Some(lex) => {
            proof {
                if !is_number_char(s@[j as int]) {
                    assert(number_run_end(s@, j as int) == j as int);
                }
            }
            (Some(Token::Number(lex)), k)
        },
        None => {
            proof {
                if is_number_char(s@[j as int]) {
                    assert(number_run_end(s@, j as int) == number_run_end(s@, j + 1 as int));
                    lemma_number_run_end_bounds(s@, j + 1 as int);
                }
            }
            let c = s.get_char(j);
            let t = match c {
                '(' => Token::LeftParen,
                ')' => Token::RightParen,
                '+' => Token::Plus,
                '-' => Token::Minus,
                '*' => Token::Star,
                '/' => Token::Slash,
                other => Token::Invalid(other),
            };
            (Some(t), j + 1)
        },
    }
}

/// Converts a line of text into its token sequence. Pure: the result is a
/// function of the text alone, and lexing never fails.
pub fn tokenize(s: &str) -> (r: Vec<Token>)
    ensures
        r.deep_view() == spec_tokenize(s@),
{
    let mut tokens: Vec<Token> = Vec::new();
    let mut i: usize = 0;
    loop
        invariant
            i <= s@.len(),
            spec_tokenize(s@) == tokens.deep_view() + spec_tokenize_from(s@, i as int),
        decreases s@.len() - i,
    {
        let ghost prev = tokens.deep_view();
        let (t, j) = get_token(s, i);
        match t {
            Some(tok) => {
                let ghost tokv = tok@;
                tokens.push(tok);
                proof {
                    assert(tokens.deep_view() =~= prev.push(tokv));
                    assert(prev.push(tokv) + spec_tokenize_from(s@, j as int) =~= prev + (seq![
                        tokv,
                    ] + spec_tokenize_from(s@, j as int)));
                }
                i = j;
            },
            None => {
                proof {
                    assert(tokens.deep_view() + spec_tokenize_from(s@, i as int)
                        =~= tokens.deep_view());
                }
                return tokens;
            },
        }
    }
}

} // verus!
