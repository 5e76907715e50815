use pratt_calc::lexer::{next_token, tokenize, LexError};
use pratt_calc::parser::{parse, parse_expression, Expr, ParseError};
use pratt_calc::table::{make_tables, AffixTable, Binding, Op, PrecTable};
use pratt_calc::token::Token;

fn chars(s: &str) -> Vec<char> {
    s.chars().collect()
}

fn lex(s: &str) -> Vec<Token> {
    tokenize(&chars(s)).unwrap()
}

fn eval(e: &Expr) -> f32 {
    match e {
        Expr::Literal(s) => s.parse::<f32>().unwrap(),
        Expr::Group(x) | Expr::Pos(x) => eval(x),
        Expr::Neg(x) => -eval(x),
        Expr::Binary(op, l, r) => {
            let (a, b) = (eval(l), eval(r));
            match op {
                Op::Add => a + b,
                Op::Sub => a - b,
                Op::Mul => a * b,
                Op::Div => a / b,
                Op::Pow => a.powf(b),
            }
        }
    }
}

fn evaluate(s: &str) -> f32 {
    let table = make_tables();
    eval(&parse_expression(&lex(s), &table).unwrap())
}

fn lit(s: &str) -> Box<Expr> {
    Box::new(Expr::Literal(s.to_string()))
}

#[test]
fn digits_tokenize_to_one_literal() {
    for s in ["0", "7", "12345", "000", "9876543210"] {
        assert_eq!(lex(s), vec![Token::Literal(s.to_string())]);
    }
}

#[test]
fn three_plus_four() {
    assert_eq!(
        lex("3 + 4"),
        vec![Token::Literal("3".to_string()), Token::Add, Token::Literal("4".to_string())]
    );
    assert_eq!(evaluate("3 + 4"), 7.0);
}

#[test]
fn all_token_kinds() {
    assert_eq!(
        lex("(1+2-3*4/5^6)"),
        vec![
            Token::LParen,
            Token::Literal("1".to_string()),
            Token::Add,
            Token::Literal("2".to_string()),
            Token::Sub,
            Token::Literal("3".to_string()),
            Token::Mul,
            Token::Literal("4".to_string()),
            Token::Div,
            Token::Literal("5".to_string()),
            Token::Pow,
            Token::Literal("6".to_string()),
            Token::RParen,
        ]
    );
}

#[test]
fn multiplication_binds_tighter() {
    let table = make_tables();
    let e = parse_expression(&lex("2 + 3 * 4"), &table).unwrap();
    assert_eq!(e, Expr::Binary(Op::Add, lit("2"), Box::new(Expr::Binary(Op::Mul, lit("3"), lit("4")))));
    assert_eq!(evaluate("2 + 3 * 4"), 14.0);
}

#[test]
fn subtraction_is_left_associative() {
    let table = make_tables();
    let e = parse_expression(&lex("10 - 3 - 2"), &table).unwrap();
    assert_eq!(e, Expr::Binary(Op::Sub, Box::new(Expr::Binary(Op::Sub, lit("10"), lit("3"))), lit("2")));
    assert_eq!(evaluate("10 - 3 - 2"), 5.0);
}

#[test]
fn power_is_right_associative() {
    let table = make_tables();
    let e = parse_expression(&lex("2 ^ 3 ^ 2"), &table).unwrap();
    assert_eq!(e, Expr::Binary(Op::Pow, lit("2"), Box::new(Expr::Binary(Op::Pow, lit("3"), lit("2")))));
    assert_eq!(evaluate("2 ^ 3 ^ 2"), 512.0);
}

#[test]
fn unary_minus_in_group() {
    let table = make_tables();
    let e = parse_expression(&lex("3 + (-4) ^ 2"), &table).unwrap();
    let group = Box::new(Expr::Group(Box::new(Expr::Neg(lit("4")))));
    assert_eq!(e, Expr::Binary(Op::Add, lit("3"), Box::new(Expr::Binary(Op::Pow, group, lit("2")))));
    assert_eq!(evaluate("3 + (-4) ^ 2"), 19.0);
    assert_eq!(evaluate(" 3 + (-4) ^ 2"), 19.0);
}

#[test]
fn unary_minus_binds_looser_than_power() {
    let table = make_tables();
    let e = parse_expression(&lex("-2 ^ 2"), &table).unwrap();
    assert_eq!(e, Expr::Neg(Box::new(Expr::Binary(Op::Pow, lit("2"), lit("2")))));
    assert_eq!(evaluate("-2 ^ 2"), -4.0);
    assert_eq!(evaluate("+5 * 2"), 10.0);
    assert_eq!(evaluate("2 * -3"), -6.0);
}

#[test]
fn evaluation_repeats_identically() {
    let table = make_tables();
    let tokens = lex("8 / 2 - 3 ^ 2 * (1 + 1)");
    let first = parse_expression(&tokens, &table).unwrap();
    for _ in 0..5 {
        let again = parse_expression(&tokens, &table).unwrap();
        assert_eq!(again, first);
        assert_eq!(eval(&again), eval(&first));
    }
    assert_eq!(eval(&first), -14.0);
}

#[test]
fn letter_is_a_lex_error() {
    assert_eq!(tokenize(&chars("3 + a")), Err(LexError { ch: 'a', at: 4 }));
    assert_eq!(tokenize(&chars("x")), Err(LexError { ch: 'x', at: 0 }));
}

#[test]
fn tab_and_decimal_point_are_lex_errors() {
    assert_eq!(tokenize(&chars("1\t2")), Err(LexError { ch: '\t', at: 1 }));
    assert_eq!(tokenize(&chars("1.5")), Err(LexError { ch: '.', at: 1 }));
    assert_eq!(tokenize(&chars("1\n")), Err(LexError { ch: '\n', at: 1 }));
}

#[test]
fn unmatched_open_paren_is_an_error() {
    let table = make_tables();
    assert_eq!(parse_expression(&lex("(1 + 2"), &table), Err(ParseError::MissingRParen { at: 4 }));
    assert_eq!(parse_expression(&lex("((1)"), &table), Err(ParseError::MissingRParen { at: 4 }));
}

#[test]
fn missing_operand_is_an_error() {
    let table = make_tables();
    assert_eq!(parse_expression(&lex(""), &table), Err(ParseError::ExpectedOperand { at: 0 }));
    assert_eq!(parse_expression(&lex(")"), &table), Err(ParseError::ExpectedOperand { at: 0 }));
    assert_eq!(parse_expression(&lex("* 2"), &table), Err(ParseError::ExpectedOperand { at: 0 }));
    assert_eq!(parse_expression(&lex("1 +"), &table), Err(ParseError::ExpectedOperand { at: 2 }));
    assert_eq!(parse_expression(&lex("()"), &table), Err(ParseError::ExpectedOperand { at: 1 }));
}

#[test]
fn trailing_tokens_are_left_unread() {
    let table = make_tables();
    let tokens = lex("1 ( 2");
    assert_eq!(parse(&tokens, &table, 0, 0), Ok((Expr::Literal("1".to_string()), 1)));
    assert_eq!(parse_expression(&lex("4 )"), &table), Ok(Expr::Literal("4".to_string())));
}

#[test]
fn binding_power_stops_the_infix_loop() {
    let table = make_tables();
    let tokens = lex("1 + 2 * 3");
    assert_eq!(parse(&tokens, &table, 0, 2), Ok((Expr::Literal("1".to_string()), 1)));
    assert_eq!(
        parse(&tokens, &table, 2, 2),
        Ok((Expr::Binary(Op::Mul, lit("2"), lit("3")), 5))
    );
}

#[test]
fn prefix_operator_without_entry_is_an_error() {
    let mut table = make_tables();
    table.prefix = PrecTable::new();
    assert_eq!(parse_expression(&lex("-1"), &table), Err(ParseError::ExpectedOperand { at: 0 }));
}

#[test]
fn infix_operator_without_entry_ends_the_expression() {
    let mut infix = PrecTable::new();
    infix.insert(Op::Add, Binding { prec: 1, assoc: 0 });
    let table = AffixTable { prefix: make_tables().prefix, infix };
    assert_eq!(parse(&lex("1 * 2"), &table, 0, 0), Ok((Expr::Literal("1".to_string()), 1)));
}

#[test]
fn standard_table_entries() {
    let t = make_tables();
    assert_eq!(t.prefix.get(Op::Add), Some(Binding { prec: 3, assoc: 1 }));
    assert_eq!(t.prefix.get(Op::Sub), Some(Binding { prec: 3, assoc: 1 }));
    assert_eq!(t.prefix.get(Op::Mul), None);
    assert_eq!(t.infix.get(Op::Add), Some(Binding { prec: 1, assoc: 0 }));
    assert_eq!(t.infix.get(Op::Sub), Some(Binding { prec: 1, assoc: 0 }));
    assert_eq!(t.infix.get(Op::Mul), Some(Binding { prec: 2, assoc: 0 }));
    assert_eq!(t.infix.get(Op::Div), Some(Binding { prec: 2, assoc: 0 }));
    assert_eq!(t.infix.get(Op::Pow), Some(Binding { prec: 4, assoc: 1 }));
}

#[test]
fn next_token_moves_the_cursor() {
    let src = chars("123+ )");
    let mut pos: usize = 0;
    assert_eq!(next_token(&src, &mut pos), Ok(Some(Token::Literal("123".to_string()))));
    assert_eq!(pos, 3);
    assert_eq!(next_token(&src, &mut pos), Ok(Some(Token::Add)));
    assert_eq!(pos, 4);
    assert_eq!(next_token(&src, &mut pos), Ok(Some(Token::Whitespace)));
    assert_eq!(pos, 5);
    assert_eq!(next_token(&src, &mut pos), Ok(Some(Token::RParen)));
    assert_eq!(pos, 6);
    assert_eq!(next_token(&src, &mut pos), Ok(None));
    assert_eq!(pos, 6);
}

#[test]
fn spaces_are_dropped_and_empty_input_has_no_tokens() {
    assert_eq!(lex(""), vec![]);
    assert_eq!(lex("   "), vec![]);
    assert_eq!(lex(" 12  3 "), vec![Token::Literal("12".to_string()), Token::Literal("3".to_string())]);
}

#[test]
fn division_by_zero_is_not_an_error() {
    assert_eq!(evaluate("1 / 0"), f32::INFINITY);
    assert!(evaluate("0 / 0").is_nan());
}
