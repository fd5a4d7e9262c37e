//! The token, operation and error types shared by the lexer and the parser,
//! together with their mathematical models.

use vstd::prelude::*;

verus! {

/// Model of a token: a `Number` is modelled by its literal text.
#[verifier::ext_equal]
pub enum TokenV {
    Number(Seq<char>),
    LeftParen,
    RightParen,
    Plus,
    Minus,
    Star,
    Slash,
    Invalid(char),
}

/// A lexical unit of an expression. A `Number` carries the scanned literal
/// text; the lexer never interprets it numerically, and a malformed run such
/// as `1.2.3` is carried through for the parser to reject.
#[derive(Debug, PartialEq)]
pub enum Token {
    Number(String),
    LeftParen,
    RightParen,
    Plus,
    Minus,
    Star,
    Slash,
    Invalid(char),
}

impl View for Token {
    type V = TokenV;

    open spec fn view(&self) -> TokenV {
        match self {
            Token::Number(s) => TokenV::Number(s@),
            Token::LeftParen => TokenV::LeftParen,
            Token::RightParen => TokenV::RightParen,
            Token::Plus => TokenV::Plus,
            Token::Minus => TokenV::Minus,
            Token::Star => TokenV::Star,
            Token::Slash => TokenV::Slash,
            Token::Invalid(c) => TokenV::Invalid(*c),
        }
    }
}

impl DeepView for Token {
    type V = TokenV;

    open spec fn deep_view(&self) -> TokenV {
        self@
    }
}

impl Clone for Token {
    fn clone(&self) -> (r: Self)
        ensures
            r@ == self@,
    {
        match self {
            Token::Number(s) => Token::Number(String::from_str(s.as_str())),
            Token::LeftParen => Token::LeftParen,
            Token::RightParen => Token::RightParen,
            Token::Plus => Token::Plus,
            Token::Minus => Token::Minus,
            Token::Star => Token::Star,
            Token::Slash => Token::Slash,
            Token::Invalid(c) => Token::Invalid(*c),
        }
    }
}

/// Model of an evaluation error.
#[verifier::ext_equal]
pub enum EvalErrorV {
    InvalidNumber(Seq<char>),
    UnexpectedToken(TokenV),
    UnexpectedEnd,
}

/// Why an evaluation failed. Every error aborts only the current evaluation
/// and is returned as a value.
#[derive(Debug, PartialEq)]
pub enum EvalError {
    /// A scanned digit-and-dot run does not denote a number, e.g. `1.2.3`.
    InvalidNumber(String),
    /// A structurally disallowed token: an operator where an operand was
    /// expected, an unmatched closing bracket, or trailing input.
    UnexpectedToken(Token),
    /// The token stream ended while a grammar rule still expected input.
    UnexpectedEnd,
}

impl View for EvalError {
    type V = EvalErrorV;

    open spec fn view(&self) -> EvalErrorV {
        match self {
            EvalError::InvalidNumber(s) => EvalErrorV::InvalidNumber(s@),
            EvalError::UnexpectedToken(t) => EvalErrorV::UnexpectedToken(t@),
            EvalError::UnexpectedEnd => EvalErrorV::UnexpectedEnd,
        }
    }
}

impl DeepView for EvalError {
    type V = EvalErrorV;

    open spec fn deep_view(&self) -> EvalErrorV {
        self@
    }
}

/// Model of a postfix operation.
#[verifier::ext_equal]
pub enum OpV {
    Push(Seq<char>),
    Add,
    Sub,
    Mul,
    Div,
    Neg,
}

/// One step of the postfix program the parser emits. `Push` carries a
/// numeric literal for the host to read as a double; the other steps pop
/// their operands and push the IEEE-754 result.
#[derive(Debug, PartialEq)]
pub enum Op {
    Push(String),
    Add,
    Sub,
    Mul,
    Div,
    Neg,
}

impl View for Op {
    type V = OpV;

    open spec fn view(&self) -> OpV {
        match self {
            Op::Push(s) => OpV::Push(s@),
            Op::Add => OpV::Add,
            Op::Sub => OpV::Sub,
            Op::Mul => OpV::Mul,
            Op::Div => OpV::Div,
            Op::Neg => OpV::Neg,
        }
    }
}

impl DeepView for Op {
    type V = OpV;

    open spec fn deep_view(&self) -> OpV {
        self@
    }
}

/// The canonical textual rendering of a token: a number renders as its
/// literal text, a bracket or operator as its character, and `Invalid(c)`
/// as the text `Invalid(c)`.
pub open spec fn spec_render(t: TokenV) -> Seq<char> {
    match t {
        TokenV::Number(s) => s,
        TokenV::LeftParen => seq!['('],
        TokenV::RightParen => seq![')'],
        TokenV::Plus => seq!['+'],
        TokenV::Minus => seq!['-'],
        TokenV::Star => seq!['*'],
        TokenV::Slash => seq!['/'],
        TokenV::Invalid(c) => seq!['I', 'n', 'v', 'a', 'l', 'i', 'd', '('].push(c).push(')'),
    }
}

impl Token {
    /// The rendering of this token as characters, for diagnostics.
    pub fn render(&self) -> (r: Vec<char>)
        ensures
            r@ == spec_render(self@),
    {
        match self {
            Token::Number(s) => {
                let mut r: Vec<char> = Vec::new();
                let n = s.as_str().unicode_len();
                for i in 0..n
                    invariant
                        n == s@.len(),
                        r@ == s@.subrange(0, i as int),
                {
                    r.push(s.as_str().get_char(i));
                    proof {
                        assert(r@ =~= s@.subrange(0, i + 1 as int));
                    }
                }
                proof {
                    assert(r@ =~= s@);
                }
                r
            },
            Token::LeftParen => vec!['('],
            Token::RightParen => vec![')'],
            Token::Plus => vec!['+'],
            Token::Minus => vec!['-'],
            Token::Star => vec!['*'],
            Token::Slash => vec!['/'],
            Token::Invalid(c) => {
                let r: Vec<char> = vec!['I', 'n', 'v', 'a', 'l', 'i', 'd', '(', *c, ')'];
                proof {
                    assert(r@ =~= spec_render(self@));
                }
                r
            },
        }
    }
}

} // verus!
