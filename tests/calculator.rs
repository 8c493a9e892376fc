use infix_calc::calculator::{calculate, respond, run_calculations, Reply, UserInput};
use infix_calc::decimal::{read_number, try_parse};
use infix_calc::evaluator::{solve_postfix, CalcError};
use infix_calc::lexer::tokenize;
use infix_calc::negation::negate_tokens;
use infix_calc::postfix::to_postfix;
use infix_calc::token::{get_precedence, Operator, Token};
use num_bigfloat::BigFloat;

fn value(s: &str) -> BigFloat {
    BigFloat::parse(s).unwrap()
}

fn texts(tokens: &[Token]) -> Vec<String> {
    tokens
        .iter()
        .map(|t| match t {
            Token::Number(s) => s.clone(),
            Token::Op(Operator::Plus) => "+".to_string(),
            Token::Op(Operator::Minus) => "-".to_string(),
            Token::Op(Operator::Times) => "*".to_string(),
            Token::Op(Operator::Divide) => "/".to_string(),
            Token::Op(Operator::Open) => "(".to_string(),
            Token::Op(Operator::Close) => ")".to_string(),
            Token::NegationMarker => "!".to_string(),
        })
        .collect()
}

#[test]
fn multiplication_binds_tighter_than_addition() {
    assert_eq!(calculate("2+3*4"), Ok(value("14")));
}

#[test]
fn parentheses_group_first() {
    assert_eq!(calculate("(2+3)*4"), Ok(value("20")));
}

#[test]
fn nested_parentheses_and_all_operators() {
    assert_eq!(calculate("((1+2)*(7-3))/4"), Ok(value("3")));
    assert_eq!(calculate("10-4-3"), Ok(value("3")));
    assert_eq!(calculate("8/4/2"), Ok(value("1")));
}

#[test]
fn unary_minus_at_start() {
    assert_eq!(calculate("-5+2"), Ok(value("-3")));
}

#[test]
fn unary_minus_after_operator() {
    assert_eq!(calculate("3*-2"), Ok(value("-6")));
    assert_eq!(calculate("(-4)*2"), Ok(value("-8")));
}

#[test]
fn blanks_are_skipped() {
    assert_eq!(calculate(" 3 * - 2 "), Ok(value("-6")));
    assert_eq!(calculate(" -5 + 2"), Ok(value("-3")));
}

#[test]
fn decimals_keep_their_precision() {
    assert_eq!(calculate("1.5+2.5"), Ok(value("4")));
    assert_eq!(calculate("0.1+0.2"), Ok(value("0.3")));
}

#[test]
fn division_gives_a_decimal_quotient() {
    assert_eq!(calculate("7/2"), Ok(value("3.5")));
}

#[test]
fn division_by_zero_is_an_error() {
    assert_eq!(calculate("5/0"), Err(CalcError::DivisionByZero));
    assert_eq!(calculate("5/0+1"), Err(CalcError::DivisionByZero));
    assert_eq!(calculate("1+5/(2-2)*3"), Err(CalcError::DivisionByZero));
}

#[test]
fn empty_and_punctuation_lines_are_invalid() {
    assert_eq!(calculate(""), Err(CalcError::Invalid));
    assert_eq!(calculate("   "), Err(CalcError::Invalid));
    assert_eq!(calculate("??"), Err(CalcError::Invalid));
}

#[test]
fn missing_operand_is_invalid_not_a_crash() {
    assert_eq!(calculate("+1"), Err(CalcError::Invalid));
    assert_eq!(calculate("2*"), Err(CalcError::Invalid));
    assert_eq!(calculate("-"), Err(CalcError::Invalid));
    assert_eq!(calculate("3*-"), Err(CalcError::Invalid));
}

#[test]
fn several_points_fail_at_parse_time() {
    let tokens = tokenize("1.2.3");
    assert_eq!(texts(&tokens), vec!["1.2.3".to_string()]);
    assert_eq!(calculate("1.2.3"), Err(CalcError::Invalid));
}

#[test]
fn rendered_result_evaluates_to_the_same_value() {
    let v = calculate("7/2").unwrap();
    let shown = format!("{}", v);
    assert_eq!(calculate(&shown), Ok(v));
    let w = calculate("1-4").unwrap();
    let shown = format!("{}", w);
    assert_eq!(calculate(&shown), Ok(w));
}

#[test]
fn tokenizer_splits_numbers_operators_and_markers() {
    let tokens = tokenize("-12.5*(3+-x4)");
    assert_eq!(
        texts(&tokens),
        vec!["!", "12.5", "*", "(", "3", "+", "!", "4", ")"]
            .into_iter()
            .map(|s| s.to_string())
            .collect::<Vec<String>>()
    );
}

#[test]
fn minus_after_a_number_is_subtraction() {
    let tokens = tokenize("5-3");
    assert_eq!(texts(&tokens), vec!["5", "-", "3"]);
    assert!(matches!(tokens[1], Token::Op(Operator::Minus)));
}

#[test]
fn negation_fuses_marker_with_next_token() {
    let resolved = negate_tokens(tokenize("-5*-2")).unwrap();
    assert_eq!(texts(&resolved), vec!["-5", "*", "-2"]);
}

#[test]
fn trailing_marker_has_no_resolution() {
    assert!(negate_tokens(tokenize("4*-")).is_none());
    assert!(negate_tokens(vec![Token::NegationMarker]).is_none());
}

#[test]
fn reorder_to_postfix() {
    let tokens = negate_tokens(tokenize("2+3*4")).unwrap();
    assert_eq!(texts(&to_postfix(tokens)), vec!["2", "3", "4", "*", "+"]);
    let tokens = negate_tokens(tokenize("(2+3)*4")).unwrap();
    assert_eq!(texts(&to_postfix(tokens)), vec!["2", "3", "+", "4", "*"]);
    let tokens = negate_tokens(tokenize("8-2-1")).unwrap();
    assert_eq!(texts(&to_postfix(tokens)), vec!["8", "2", "-", "1", "-"]);
}

#[test]
fn precedence_table() {
    assert_eq!(get_precedence(Operator::Open, true), 0);
    assert_eq!(get_precedence(Operator::Close, true), -1);
    assert_eq!(get_precedence(Operator::Plus, true), 2);
    assert_eq!(get_precedence(Operator::Divide, true), 4);
    assert_eq!(get_precedence(Operator::Open, false), 5);
    assert_eq!(get_precedence(Operator::Close, false), 0);
    assert_eq!(get_precedence(Operator::Minus, false), 1);
    assert_eq!(get_precedence(Operator::Times, false), 3);
}

#[test]
fn postfix_evaluation() {
    let tokens = vec![
        Token::Number("6".to_string()),
        Token::Number("4".to_string()),
        Token::Op(Operator::Minus),
    ];
    assert_eq!(solve_postfix(tokens), Ok(value("2")));
    assert_eq!(solve_postfix(vec![]), Err(CalcError::Invalid));
    assert_eq!(
        solve_postfix(vec![Token::Number("1".to_string()), Token::Op(Operator::Open)]),
        Err(CalcError::Invalid)
    );
}

#[test]
fn input_loses_its_line_terminators() {
    let input = UserInput::try_new("1+1\r\n".to_string()).unwrap();
    assert_eq!(input.contents, "1+1");
    assert_eq!(run_calculations(&input), Ok(value("2")));
    assert!(UserInput::try_new("\n".to_string()).is_none());
    assert!(UserInput::try_new(String::new()).is_none());
}

#[test]
fn exit_command() {
    assert!(UserInput::try_new("exit\n".to_string()).unwrap().should_exit());
    assert!(!UserInput::new("exits".to_string()).should_exit());
    assert!(matches!(respond("exit\r\n".to_string()), Reply::Exit));
    assert!(matches!(respond("exit".to_string()), Reply::Exit));
}

#[test]
fn each_line_gets_a_reply() {
    assert!(matches!(respond(String::new()), Reply::Reprompt));
    assert!(matches!(respond("\n".to_string()), Reply::Reprompt));
    match respond("7/2\n".to_string()) {
        Reply::Evaluated(r) => assert_eq!(r, Ok(value("3.5"))),
        _ => panic!("expected a value"),
    }
    match respond("??\n".to_string()) {
        Reply::Evaluated(r) => assert_eq!(r, Err(CalcError::Invalid)),
        _ => panic!("expected an evaluation"),
    }
}

#[test]
fn optional_text_parses() {
    assert_eq!(try_parse(None), None);
    assert_eq!(try_parse(Some("2.5".to_string())), Some(value("2.5")));
    assert_eq!(try_parse(Some("x".to_string())), None);
}

#[test]
fn single_number_in_parentheses_keeps_precedence() {
    assert_eq!(calculate("1+(2)*3"), Ok(value("7")));
    let tokens = negate_tokens(tokenize("1+(2)*3")).unwrap();
    assert_eq!(texts(&to_postfix(tokens)), vec!["1", "2", "3", "*", "+"]);
    assert_eq!(calculate("(1+2)*(3)"), Ok(value("9")));
    assert_eq!(calculate("2*(3+(4-1))"), Ok(value("12")));
}

#[test]
fn leftover_values_are_invalid() {
    assert_eq!(calculate("1 2"), Err(CalcError::Invalid));
    assert_eq!(
        solve_postfix(vec![Token::Number("1".to_string()), Token::Number("2".to_string())]),
        Err(CalcError::Invalid)
    );
}

#[test]
fn blank_line_is_no_input() {
    assert!(UserInput::try_new("   \n".to_string()).is_none());
    assert!(UserInput::try_new(" \t \r\n".to_string()).is_none());
    assert!(matches!(respond("   \n".to_string()), Reply::Reprompt));
    assert!(UserInput::try_new("  1 \n".to_string()).is_some());
}

#[test]
fn punctuation_and_bare_operators_are_invalid() {
    for line in ["+", "-", "*/", "()", "?!", "-+", ".", "-.", "(.)"] {
        assert_eq!(calculate(line), Err(CalcError::Invalid), "{}", line);
    }
}

#[test]
fn huge_exponent_is_no_number() {
    assert_eq!(read_number("1e-2147483639"), None);
    assert_eq!(read_number("0.1e-2147483639"), None);
    assert_eq!(read_number("1.5e+2"), Some(value("150")));
    assert_eq!(read_number("1.2.3"), None);
    assert_eq!(read_number("."), None);
}

#[test]
fn rendering_with_an_exponent_does_not_read_back() {
    let v = calculate("2*7").unwrap();
    assert_eq!(v, value("14"));
    let shown = format!("{}", v);
    assert!(shown.contains('e'));
    assert_eq!(calculate(&shown), Ok(value("2.4")));
}
