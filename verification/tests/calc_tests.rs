use calc::token::{EvalError, Op, Token};
use calc::{parse, tokenize};

/// Runs a postfix program over IEEE-754 doubles. `None` means the program
/// was not well formed, which `parse` guarantees never happens.
fn run_program(code: &[Op]) -> Option<f64> {
    let mut stack: Vec<f64> = Vec::new();
    for op in code {
        match op {
            Op::Push(lex) => match lex.parse::<f64>() {
                Ok(v) => stack.push(v),
                Err(_) => return None,
            },
            Op::Neg => {
                let a = stack.pop()?;
                stack.push(-a);
            }
            Op::Add => {
                let b = stack.pop()?;
                let a = stack.pop()?;
                stack.push(a + b);
            }
            Op::Sub => {
                let b = stack.pop()?;
                let a = stack.pop()?;
                stack.push(a - b);
            }
            Op::Mul => {
                let b = stack.pop()?;
                let a = stack.pop()?;
                stack.push(a * b);
            }
            Op::Div => {
                let b = stack.pop()?;
                let a = stack.pop()?;
                stack.push(a / b);
            }
        }
    }
    if stack.len() == 1 {
        Some(stack[0])
    } else {
        None
    }
}

fn evaluate(tokens: &Vec<Token>) -> Result<f64, EvalError> {
    let code = parse(tokens)?;
    match run_program(&code) {
        Some(v) => Ok(v),
        None => unreachable!("parse emits only well-formed programs"),
    }
}

fn eval_str(s: &str) -> Result<f64, EvalError> {
    evaluate(&tokenize(s))
}

fn num(s: &str) -> Token {
    Token::Number(s.to_string())
}

#[test]
fn tokenize_simple() {
    assert_eq!(tokenize("2+3"), vec![num("2"), Token::Plus, num("3")]);
}

#[test]
fn tokenize_all_kinds() {
    assert_eq!(
        tokenize("(1.5)-*/#"),
        vec![
            Token::LeftParen,
            num("1.5"),
            Token::RightParen,
            Token::Minus,
            Token::Star,
            Token::Slash,
            Token::Invalid('#'),
        ]
    );
}

#[test]
fn tokenize_empty() {
    assert_eq!(tokenize(""), Vec::<Token>::new());
    assert_eq!(tokenize("   \t \n"), Vec::<Token>::new());
}

#[test]
fn evaluate_empty_is_unexpected_end() {
    assert_eq!(eval_str(""), Err(EvalError::UnexpectedEnd));
}

#[test]
fn left_associative_sub() {
    assert_eq!(eval_str("10-3-2"), Ok(5.0));
}

#[test]
fn left_associative_div() {
    assert_eq!(eval_str("100/5/2"), Ok(10.0));
}

#[test]
fn postfix_order_is_left_associative() {
    assert_eq!(
        parse(&tokenize("10-3-2")),
        Ok(vec![
            Op::Push("10".to_string()),
            Op::Push("3".to_string()),
            Op::Sub,
            Op::Push("2".to_string()),
            Op::Sub,
        ])
    );
}

#[test]
fn precedence_mul_over_add() {
    assert_eq!(eval_str("2+3*4"), Ok(14.0));
}

#[test]
fn parentheses_override_precedence() {
    assert_eq!(eval_str("(2+3)*4"), Ok(20.0));
}

#[test]
fn unary_minus_right_associative() {
    assert_eq!(eval_str("--5"), Ok(5.0));
}

#[test]
fn unary_minus_binds_to_factor() {
    assert_eq!(eval_str("-5+3"), Ok(-2.0));
}

#[test]
fn unary_plus() {
    assert_eq!(eval_str("+5"), Ok(5.0));
}

#[test]
fn division_by_zero_is_infinity() {
    assert_eq!(eval_str("1/0"), Ok(f64::INFINITY));
}

#[test]
fn truncated_input() {
    assert_eq!(eval_str("2+"), Err(EvalError::UnexpectedEnd));
}

#[test]
fn invalid_character_token() {
    let tokens = tokenize("2#3");
    assert!(tokens.contains(&Token::Invalid('#')));
    assert_eq!(
        evaluate(&tokens),
        Err(EvalError::UnexpectedToken(Token::Invalid('#')))
    );
}

#[test]
fn trailing_garbage() {
    assert_eq!(
        eval_str("2+3)"),
        Err(EvalError::UnexpectedToken(Token::RightParen))
    );
}

#[test]
fn whitespace_insensitive() {
    assert_eq!(tokenize("  2  +  3  "), tokenize("2+3"));
    assert_eq!(eval_str("  2  +  3  "), eval_str("2+3"));
    assert_eq!(eval_str("2+3"), Ok(5.0));
}

#[test]
fn malformed_number_two_dots() {
    assert_eq!(tokenize("1.2.3"), vec![num("1.2.3")]);
    assert_eq!(
        eval_str("1.2.3"),
        Err(EvalError::InvalidNumber("1.2.3".to_string()))
    );
}

#[test]
fn malformed_number_lone_dot() {
    assert_eq!(eval_str("."), Err(EvalError::InvalidNumber(".".to_string())));
}

#[test]
fn decimal_forms() {
    assert_eq!(eval_str("1.5+2.25"), Ok(3.75));
    assert_eq!(eval_str(".5*4"), Ok(2.0));
    assert_eq!(eval_str("2."), Ok(2.0));
}

#[test]
fn operator_where_operand_expected() {
    assert_eq!(eval_str("*3"), Err(EvalError::UnexpectedToken(Token::Star)));
    assert_eq!(
        eval_str("2*/3"),
        Err(EvalError::UnexpectedToken(Token::Slash))
    );
}

#[test]
fn unmatched_open_paren() {
    assert_eq!(eval_str("(1+2"), Err(EvalError::UnexpectedEnd));
    assert_eq!(
        eval_str("(1+2]"),
        Err(EvalError::UnexpectedToken(Token::Invalid(']')))
    );
}

#[test]
fn nested_parens() {
    assert_eq!(eval_str("((2))*(3+4)"), Ok(14.0));
}

#[test]
fn render_tokens() {
    assert_eq!(
        Token::Invalid('#').render(),
        "Invalid(#)".chars().collect::<Vec<char>>()
    );
    assert_eq!(num("1.5").render(), vec!['1', '.', '5']);
    assert_eq!(Token::Plus.render(), vec!['+']);
}

#[test]
fn render_round_trip() {
    let tokens = tokenize("(1+2)*3");
    let rendered: Vec<String> = tokens
        .iter()
        .map(|t| t.render().iter().collect::<String>())
        .collect();
    let joined = rendered.join(" ");
    assert_eq!(tokenize(&joined), tokens);
}

#[test]
fn whitespace_breaks_a_number() {
    assert_eq!(tokenize("2 . 5"), vec![num("2"), num("."), num("5")]);
    assert_eq!(
        eval_str("2 . 5"),
        Err(EvalError::UnexpectedToken(Token::Number(".".to_string())))
    );
}

#[test]
fn non_ascii_character_is_invalid() {
    assert_eq!(
        eval_str("2é"),
        Err(EvalError::UnexpectedToken(Token::Invalid('é')))
    );
}

#[test]
fn tabs_and_newlines_are_whitespace() {
    assert_eq!(tokenize("\t1\n+\r2 "), tokenize("1+2"));
    assert_eq!(eval_str("\t1\n+\r2 "), Ok(3.0));
}
