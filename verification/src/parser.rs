//! The parser/evaluator core: consumes a token sequence according to the
//! three-level precedence grammar
//!
//! ```text
//! expression := term ( ('+' | '-') term )*      // left-associative
//! term       := factor ( ('*' | '/') factor )*  // left-associative
//! factor     := number | '(' expression ')' | ('+' | '-') factor
//! ```
//!
//! and emits the postfix program that folds the expression's value. The
//! `expression` and `term` levels accumulate left to right, so `a - b - c`
//! comes out as `a b - c -`, that is `(a - b) - c`; only the unary sign in
//! `factor` is right-recursive. All error decisions are made here: the
//! lexer never fails.

use vstd::prelude::*;

use crate::token::{EvalError, EvalErrorV, Op, OpV, Token, TokenV};

verus! {

/// Whether a scanned digit-and-dot run denotes a number a host can read as
/// a double: non-empty, only digits and dots, at least one digit, and at
/// most one dot.
pub open spec fn valid_number(s: Seq<char>) -> bool {
    &&& s.len() > 0
    &&& forall|k: int| 0 <= k < s.len() ==> crate::lexer::is_number_char(#[trigger] s[k])
    &&& exists|k: int| 0 <= k < s.len() && crate::lexer::is_digit_char(#[trigger] s[k])
    &&& dot_count(s) <= 1
}

/// How many dots a character sequence holds.
pub open spec fn dot_count(s: Seq<char>) -> nat
    decreases s.len(),
{
    if s.len() == 0 {
        0
    } else {
        dot_count(s.drop_last()) + (if s.last() == '.' {
            1nat
        } else {
            0nat
        })
    }
}

/// The outcome of one grammar rule: the postfix code emitted so far and the
/// position just past what the rule consumed, or the error that aborts the
/// evaluation.
#[verifier::ext_equal]
pub enum ParseStep {
    Done(Seq<OpV>, int),
    Fail(EvalErrorV),
}

/// The `factor` rule at position `i`: a number, a parenthesised expression,
/// or a sign applied to a factor.
pub open spec fn spec_factor(t: Seq<TokenV>, i: int) -> ParseStep
    decreases t.len() - i, 0int,
{
    if i < 0 || i >= t.len() {
        ParseStep::Fail(EvalErrorV::UnexpectedEnd)
    } else {
        match t[i] {
            TokenV::Number(lex) => if valid_number(lex) {
                ParseStep::Done(seq![OpV::Push(lex)], i + 1)
            } else {
                ParseStep::Fail(EvalErrorV::InvalidNumber(lex))
            },
            TokenV::LeftParen => match spec_expression(t, i + 1) {
                ParseStep::Done(code, j) => if 0 <= j < t.len() && t[j] is RightParen {
                    ParseStep::Done(code, j + 1)
                } else if 0 <= j < t.len() {
                    ParseStep::Fail(EvalErrorV::UnexpectedToken(t[j]))
                } else {
                    ParseStep::Fail(EvalErrorV::UnexpectedEnd)
                },
                fail => fail,
            },
            TokenV::Plus => spec_factor(t, i + 1),
            TokenV::Minus => match spec_factor(t, i + 1) {
                ParseStep::Done(code, j) => ParseStep::Done(code.push(OpV::Neg), j),
                fail => fail,
            },
            _ => ParseStep::Fail(EvalErrorV::UnexpectedToken(t[i])),
        }
    }
}

/// The continuation of the `term` rule: folds `('*' | '/') factor` onto the
/// code accumulated for the factors already consumed. The cursor guard on
/// the recursive call is discharged by the rules themselves: a factor
/// always consumes at least one token (see `parse_factor`).
pub open spec fn spec_term_rest(t: Seq<TokenV>, i: int, acc: Seq<OpV>) -> ParseStep
    decreases t.len() - i, 1int,
{
    if 0 <= i < t.len() && (t[i] is Star || t[i] is Slash) {
        let op = if t[i] is Star {
            OpV::Mul
        } else {
            OpV::Div
        };
        match spec_factor(t, i + 1) {
            ParseStep::Done(code, j) => if i < j <= t.len() {
                spec_term_rest(t, j, acc + code + seq![op])
            } else {
                ParseStep::Fail(EvalErrorV::UnexpectedEnd)
            },
            fail => fail,
        }
    } else {
        ParseStep::Done(acc, i)
    }
}

/// The `term` rule at position `i`: a factor, then any number of `*` or `/`
/// continuations folded left to right.
pub open spec fn spec_term(t: Seq<TokenV>, i: int) -> ParseStep
    decreases t.len() - i, 2int,
{
    match spec_factor(t, i) {
        ParseStep::Done(code, j) => if i <= j <= t.len() {
            spec_term_rest(t, j, code)
        } else {
            ParseStep::Fail(EvalErrorV::UnexpectedEnd)
        },
        fail => fail,
    }
}

/// The continuation of the `expression` rule: folds `('+' | '-') term` onto
/// the accumulated code, left to right.
pub open spec fn spec_expr_rest(t: Seq<TokenV>, i: int, acc: Seq<OpV>) -> ParseStep
    decreases t.len() - i, 3int,
{
    if 0 <= i < t.len() && (t[i] is Plus || t[i] is Minus) {
        let op = if t[i] is Plus {
            OpV::Add
        } else {
            OpV::Sub
        };
        match spec_term(t, i + 1) {
            ParseStep::Done(code, j) => if i < j <= t.len() {
                spec_expr_rest(t, j, acc + code + seq![op])
            } else {
                ParseStep::Fail(EvalErrorV::UnexpectedEnd)
            },
            fail => fail,
        }
    } else {
        ParseStep::Done(acc, i)
    }
}

/// The `expression` rule at position `i`: a term, then any number of `+` or
/// `-` continuations folded left to right.
pub open spec fn spec_expression(t: Seq<TokenV>, i: int) -> ParseStep
    decreases t.len() - i, 4int,
{
    match spec_term(t, i) {
        ParseStep::Done(code, j) => if i <= j <= t.len() {
            spec_expr_rest(t, j, code)
        } else {
            ParseStep::Fail(EvalErrorV::UnexpectedEnd)
        },
        fail => fail,
    }
}

/// What parsing a whole token sequence yields: the postfix program of the
/// full expression, or the first error. Input remaining after the
/// expression is trailing garbage; an empty sequence ends before a factor.
pub open spec fn spec_parse(t: Seq<TokenV>) -> Result<Seq<OpV>, EvalErrorV> {
    match spec_expression(t, 0) {
        ParseStep::Done(code, j) => if j == t.len() {
            Ok(code)
        } else if 0 <= j < t.len() {
            Err(EvalErrorV::UnexpectedToken(t[j]))
        } else {
            Err(EvalErrorV::UnexpectedEnd)
        },
        ParseStep::Fail(e) => Err(e),
    }
}

/// Decides `valid_number` for a scanned literal.
pub fn check_number(lex: &str) -> (b: bool)
    ensures
        b == valid_number(lex@),
{
    let n = lex.unicode_len();
    let mut dots: usize = 0;
    let mut found_digit = false;
    let mut all_number = true;
    let mut i: usize = 0;
    while i < n
        invariant
            i <= n,
            n == lex@.len(),
            dots <= i,
            dots == dot_count(lex@.subrange(0, i as int)),
            found_digit == exists|k: int|
                0 <= k < i && crate::lexer::is_digit_char(#[trigger] lex@[k]),
            all_number == forall|k: int|
                0 <= k < i ==> crate::lexer::is_number_char(#[trigger] lex@[k]),
        decreases n - i,
    {
        let c = lex.get_char(i);
        let u = c as u32;
        proof {
            assert(lex@.subrange(0, i + 1 as int).drop_last() =~= lex@.subrange(0, i as int));
        }
        if c == '.' {
            dots = dots + 1;
        } else if 48 <= u && u <= 57 {
            found_digit = true;
        } else {
            all_number = false;
        }
        proof {
            assert(dots == dot_count(lex@.subrange(0, i + 1 as int)));
        }
        i = i + 1;
    }
    proof {
        assert(lex@.subrange(0, n as int) =~= lex@);
    }
    n > 0 && all_number && found_digit && dots <= 1
}

/// The `factor` rule, executably: consumes at least one token and emits the
/// postfix code of the factor, or reports the error `spec_factor` names.
pub fn parse_factor(t: &Vec<Token>, i: usize) -> (r: Result<(Vec<Op>, usize), EvalError>)
    requires
        i <= t@.len(),
    ensures
        match r {
            Ok((code, j)) => i < j <= t@.len() && spec_factor(t.deep_view(), i as int)
                == ParseStep::Done(code.deep_view(), j as int),
            Err(e) => spec_factor(t.deep_view(), i as int) == ParseStep::Fail(e@),
        },
    decreases t@.len() - i, 0int,
{
    if i >= t.len() {
        return Err(EvalError::UnexpectedEnd);
    }
    match &t[i] {
        Token::Number(lex) => {
            if check_number(lex.as_str()) {
                let code = vec![Op::Push(String::from_str(lex.as_str()))];
                proof {
                    assert(code.deep_view() =~= seq![OpV::Push(lex@)]);
                }
                Ok((code, i + 1))
            } else {
                Err(EvalError::InvalidNumber(String::from_str(lex.as_str())))
            }
        },
        Token::LeftParen => {
            match parse_expression(t, i + 1) {
                Ok((code, j)) => {
                    if j < t.len() {
                        match &t[j] {
                            Token::RightParen => Ok((code, j + 1)),
                            _ => Err(EvalError::UnexpectedToken(t[j].clone())),
                        }
                    } else {
                        Err(EvalError::UnexpectedEnd)
                    }
                },
                Err(e) => Err(e),
            }
        },
        Token::Plus => parse_factor(t, i + 1),
        Token::Minus => {
            match parse_factor(t, i + 1) {
                Ok((code, j)) => {
                    let ghost prev = code.deep_view();
                    let mut code = code;
                    code.push(Op::Neg);
                    proof {
                        assert(code.deep_view() =~= prev.push(OpV::Neg));
                    }
                    Ok((code, j))
                },
                Err(e) => Err(e),
            }
        },
        _ => Err(EvalError::UnexpectedToken(t[i].clone())),
    }
}

/// The `term` rule, executably: a factor, then an explicit left-to-right
/// accumulation loop over `*` and `/` continuations.
pub fn parse_term(t: &Vec<Token>, i: usize) -> (r: Result<(Vec<Op>, usize), EvalError>)
    requires
        i <= t@.len(),
    ensures
        match r {
            Ok((code, j)) => i < j <= t@.len() && spec_term(t.deep_view(), i as int)
                == ParseStep::Done(code.deep_view(), j as int),
            Err(e) => spec_term(t.deep_view(), i as int) == ParseStep::Fail(e@),
        },
    decreases t@.len() - i, 1int,
{
    let mut code: Vec<Op>;
    let mut j: usize;
    match parse_factor(t, i) {
        Ok((c, p)) => {
            code = c;
            j = p;
        },
        Err(e) => {
            return Err(e);
        },
    }
    loop
        invariant
            i < j <= t@.len(),
            spec_term(t.deep_view(), i as int) == spec_term_rest(
                t.deep_view(),
                j as int,
                code.deep_view(),
            ),
        decreases t@.len() - j,
    {
        let is_star: bool;
        if j < t.len() {
            match &t[j] {
                Token::Star => {
                    is_star = true;
                },
                Token::Slash => {
                    is_star = false;
                },
                _ => {
                    return Ok((code, j));
                },
            }
        } else {
            return Ok((code, j));
        }
        match parse_factor(t, j + 1) {
            Ok((c2, k)) => {
                let ghost acc = code.deep_view();
                let ghost opv = if is_star {
                    OpV::Mul
                } else {
                    OpV::Div
                };
                let mut c2 = c2;
                code.append(&mut c2);
                code.push(if is_star {
                    Op::Mul
                } else {
                    Op::Div
                });
                proof {
                    assert(code.deep_view() =~= acc + spec_factor(
                        t.deep_view(),
                        j + 1 as int,
                    )->Done_0 + seq![opv]);
                }
                j = k;
            },
            Err(e) => {
                return Err(e);
            },
        }
    }
}

/// The `expression` rule, executably: a term, then an explicit
/// left-to-right accumulation loop over `+` and `-` continuations.
pub fn parse_expression(t: &Vec<Token>, i: usize) -> (r: Result<(Vec<Op>, usize), EvalError>)
    requires
        i <= t@.len(),
    ensures
        match r {
            Ok((code, j)) => i < j <= t@.len() && spec_expression(t.deep_view(), i as int)
                == ParseStep::Done(code.deep_view(), j as int),
            Err(e) => spec_expression(t.deep_view(), i as int) == ParseStep::Fail(e@),
        },
    decreases t@.len() - i, 2int,
{
    let mut code: Vec<Op>;
    let mut j: usize;
    match parse_term(t, i) {
        Ok((c, p)) => {
            code = c;
            j = p;
        },
        Err(e) => {
            return Err(e);
        },
    }
    loop
        invariant
            i < j <= t@.len(),
            spec_expression(t.deep_view(), i as int) == spec_expr_rest(
                t.deep_view(),
                j as int,
                code.deep_view(),
            ),
        decreases t@.len() - j,
    {
        let is_plus: bool;
        if j < t.len() {
            match &t[j] {
                Token::Plus => {
                    is_plus = true;
                },
                Token::Minus => {
                    is_plus = false;
                },
                _ => {
                    return Ok((code, j));
                },
            }
        } else {
            return Ok((code, j));
        }
        match parse_term(t, j + 1) {
            Ok((c2, k)) => {
                let ghost acc = code.deep_view();
                let ghost opv = if is_plus {
                    OpV::Add
                } else {
                    OpV::Sub
                };
                let mut c2 = c2;
                code.append(&mut c2);
                code.push(if is_plus {
                    Op::Add
                } else {
                    Op::Sub
                });
                proof {
                    assert(code.deep_view() =~= acc + spec_term(
                        t.deep_view(),
                        j + 1 as int,
                    )->Done_0 + seq![opv]);
                }
                j = k;
            },
            Err(e) => {
                return Err(e);
            },
        }
    }
}

/// Parses a whole token sequence into the postfix program of the
/// expression it spells, or the error that aborts the evaluation:
/// `UnexpectedEnd` when the stream runs out (the empty stream included),
/// `UnexpectedToken` for a token no rule allows or for trailing input, and
/// `InvalidNumber` for a malformed numeric literal.
pub fn parse(t: &Vec<Token>) -> (r: Result<Vec<Op>, EvalError>)
    ensures
        match r {
            Ok(code) => spec_parse(t.deep_view()) == Ok::<Seq<OpV>, EvalErrorV>(code.deep_view()),
            Err(e) => spec_parse(t.deep_view()) == Err::<Seq<OpV>, EvalErrorV>(e@),
        },
{
    match parse_expression(t, 0) {
        Ok((code, j)) => {
            if j == t.len() {
                Ok(code)
            } else {
                Err(EvalError::UnexpectedToken(t[j].clone()))
            }
        },
        Err(e) => Err(e),
    }
}

} // verus!
