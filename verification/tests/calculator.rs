use calc::{Expr, OperatorType, ParseError, Parser, Token, TokenType, Tokenizer};

fn collect_tokens(source: &str) -> Vec<Token> {
    let mut tokenizer = Tokenizer::tokenize(source);
    let mut tokens = Vec::new();
    loop {
        match tokenizer.next() {
            Some(t) => tokens.push(t),
            None => break,
        }
    }
    tokens
}

fn eval(e: &Expr) -> f32 {
    match e {
        Expr::Number(lit) => std::str::from_utf8(lit).unwrap().parse::<f32>().unwrap(),
        Expr::BinaryOp { left, op, right } => {
            let l = eval(left);
            let r = eval(right);
            match op {
                OperatorType::Add => l + r,
                OperatorType::Subtract => l - r,
                OperatorType::Multiply => l * r,
                OperatorType::Divide => l / r,
                OperatorType::Power => l.powf(r),
            }
        }
    }
}

fn eval_line(source: &str) -> Result<f32, ParseError> {
    let mut parser = Parser::new(Tokenizer::tokenize(source));
    let expr = parser.expression()?;
    Ok(eval(&expr))
}

#[test]
fn test_tokenize() {
    let input = "2 ** 2 + 4 * 5";
    let tokens = collect_tokens(input);
    assert_eq!(
        tokens,
        vec![
            Token {
                type_: TokenType::Number,
                start: 0,
                end: 1,
                literal: b"2".to_vec()
            },
            Token {
                type_: TokenType::Operator(OperatorType::Power),
                start: 2,
                end: 4,
                literal: b"**".to_vec()
            },
            Token {
                type_: TokenType::Number,
                start: 5,
                end: 6,
                literal: b"2".to_vec()
            },
            Token {
                type_: TokenType::Operator(OperatorType::Add),
                start: 7,
                end: 8,
                literal: b"+".to_vec()
            },
            Token {
                type_: TokenType::Number,
                start: 9,
                end: 10,
                literal: b"4".to_vec()
            },
            Token {
                type_: TokenType::Operator(OperatorType::Multiply),
                start: 11,
                end: 12,
                literal: b"*".to_vec()
            },
            Token {
                type_: TokenType::Number,
                start: 13,
                end: 14,
                literal: b"5".to_vec()
            }
        ]
    );
    assert_eq!(
        std::str::from_utf8(&tokens[0].literal).unwrap().parse::<f32>().unwrap(),
        2.0
    );
    assert_eq!(
        std::str::from_utf8(&tokens[2].literal).unwrap().parse::<f32>().unwrap(),
        2.0
    );
    assert_eq!(
        std::str::from_utf8(&tokens[4].literal).unwrap().parse::<f32>().unwrap(),
        4.0
    );
    assert_eq!(
        std::str::from_utf8(&tokens[6].literal).unwrap().parse::<f32>().unwrap(),
        5.0
    );
}

#[test]
fn multiplication_binds_tighter_than_addition() {
    assert_eq!(eval_line("2 + 3 * 4").unwrap(), 14.0);
}

#[test]
fn exponentiation_is_left_associative() {
    assert_eq!(eval_line("2 ** 3 ** 2").unwrap(), 64.0);
}

#[test]
fn division_is_left_associative() {
    assert_eq!(eval_line("10 / 2 / 5").unwrap(), 1.0);
}

#[test]
fn trailing_operator_is_unexpected_end_of_input() {
    let r = eval_line("3 +");
    assert_eq!(r, Err(ParseError::UnexpectedEndOfInput));
    assert_eq!(
        ParseError::UnexpectedEndOfInput.message(),
        "unexpected end of input"
    );
}

#[test]
fn leading_operator_is_rejected_by_factor() {
    let r = eval_line("+ 3");
    assert_eq!(
        r,
        Err(ParseError::ExpectedNumber(TokenType::Operator(
            OperatorType::Add
        )))
    );
    assert_eq!(
        ParseError::ExpectedNumber(TokenType::Operator(OperatorType::Add)).message(),
        "expected number, got Operator(+)"
    );
}

#[test]
fn whitespace_insensitive_evaluation() {
    assert_eq!(eval_line("2+3").unwrap(), eval_line("2 + 3").unwrap());
    assert_eq!(eval_line("2+3").unwrap(), 5.0);
}

#[test]
fn whitespace_insensitive_tokens() {
    let dense = collect_tokens("2+3");
    let spaced = collect_tokens("2 + 3");
    assert_eq!(dense.len(), spaced.len());
    for (d, s) in dense.iter().zip(spaced.iter()) {
        assert_eq!(d.type_, s.type_);
        assert_eq!(d.literal, s.literal);
    }
}

#[test]
fn valid_input_evaluates_without_error() {
    assert!(eval_line("1 + 2 - 3 * 4 / 5 ** 6").is_ok());
    assert_eq!(eval_line(" 2.5 ** 2 ").unwrap(), 6.25);
    assert_eq!(eval_line(".5 + 1.").unwrap(), 1.5);
}

#[test]
fn division_by_zero_follows_ieee() {
    let r = eval_line("10 / 0").unwrap();
    assert!(r.is_infinite());
}

#[test]
fn subtraction_folds_left() {
    assert_eq!(eval_line("10 - 4 - 3").unwrap(), 3.0);
}

#[test]
fn single_number_is_an_expression() {
    assert_eq!(eval_line("42").unwrap(), 42.0);
}

#[test]
fn parse_stops_at_first_unconsumed_token() {
    // A number after a number belongs to no tier: parsing stops there.
    assert_eq!(eval_line("2 3").unwrap(), 2.0);
}

#[test]
fn malformed_number_ends_the_stream() {
    assert_eq!(collect_tokens("1.2.3 4"), vec![]);
    assert_eq!(eval_line("1.2.3"), Err(ParseError::UnexpectedEndOfInput));
}

#[test]
fn unrecognized_byte_ends_the_stream() {
    let tokens = collect_tokens("2 + x");
    assert_eq!(tokens.len(), 2);
    assert_eq!(eval_line("2 + x"), Err(ParseError::UnexpectedEndOfInput));
}

#[test]
fn empty_line_is_unexpected_end_of_input() {
    assert_eq!(eval_line(""), Err(ParseError::UnexpectedEndOfInput));
    assert_eq!(eval_line("   "), Err(ParseError::UnexpectedEndOfInput));
}

#[test]
fn power_needs_two_stars() {
    let tokens = collect_tokens("2*3");
    assert_eq!(tokens[1].type_, TokenType::Operator(OperatorType::Multiply));
    let tokens = collect_tokens("2**3");
    assert_eq!(tokens[1].type_, TokenType::Operator(OperatorType::Power));
    assert_eq!(tokens[1].literal, b"**".to_vec());
}

#[test]
fn parse_builds_left_associative_tree() {
    let mut parser = Parser::new(Tokenizer::tokenize("1 - 2 + 3"));
    let expr = parser.expression().unwrap();
    let expected = Expr::BinaryOp {
        left: Box::new(Expr::BinaryOp {
            left: Box::new(Expr::Number(b"1".to_vec())),
            op: OperatorType::Subtract,
            right: Box::new(Expr::Number(b"2".to_vec())),
        }),
        op: OperatorType::Add,
        right: Box::new(Expr::Number(b"3".to_vec())),
    };
    assert_eq!(expr, expected);
}

#[test]
fn accept_consumes_only_on_match() {
    let mut parser = Parser::new(Tokenizer::tokenize("+ 3"));
    assert!(parser.accept(|t| matches!(t, TokenType::Number)).is_none());
    let op = parser
        .accept(|t| matches!(t, TokenType::Operator(OperatorType::Add)))
        .unwrap();
    assert_eq!(op.type_, TokenType::Operator(OperatorType::Add));
}

#[test]
fn except_reports_unexpected_token() {
    let mut parser = Parser::new(Tokenizer::tokenize("3"));
    let r = parser.except(|t| matches!(t, TokenType::Operator(_)));
    assert_eq!(r, Err(ParseError::UnexpectedToken));
    assert_eq!(ParseError::UnexpectedToken.message(), "unexpected token");
}

#[test]
fn peek_looks_one_byte_past_the_cursor() {
    let tokenizer = Tokenizer::tokenize("2+3");
    assert_eq!(tokenizer.peek(), Some(b'+'));
    let tokenizer = Tokenizer::tokenize("2");
    assert_eq!(tokenizer.peek(), None);
}

#[test]
fn operator_symbols() {
    assert_eq!(OperatorType::Add.symbol(), "+");
    assert_eq!(OperatorType::Subtract.symbol(), "-");
    assert_eq!(OperatorType::Multiply.symbol(), "*");
    assert_eq!(OperatorType::Divide.symbol(), "/");
    assert_eq!(OperatorType::Power.symbol(), "**");
    assert_eq!(TokenType::Number.describe(), "Number");
    assert_eq!(
        TokenType::Operator(OperatorType::Divide).describe(),
        "Operator(/)"
    );
}
