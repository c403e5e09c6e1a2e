//! Tests for the parser layer: lexical recognizers, expression tiers,
//! statement-level constructs, and the program root.

use palladium::conditional_parsers::{elif_block, else_block, if_block_start};
use palladium::dictionary_parsers::{dictionary, dictionary_interior, key_value_pair};
use palladium::expression_parsers::expression;
use palladium::factor_parsers::{factor, float64, identifier, integer};
use palladium::function_parsers::{
    function, function_arg, function_args, function_call, function_name,
};
use palladium::list_parsers::list;
use palladium::loop_parsers::{for_loop_start, while_loop_start};
use palladium::operand_parsers::operand;
use palladium::operator_parsers::operator;
use palladium::program_parsers::program;
use palladium::term_parsers::term;
use palladium::tokens::Token;

#[test]
fn test_parse_if_start() {
    let result = if_block_start(b"if x > 3:\n1+2", 0);
    assert!(matches!(result, Ok(Some(_))));
    let result = if_block_start(b"if x > 3:\n3+2", 0);
    assert!(matches!(result, Ok(Some(_))));
    let result = if_block_start(b"if x > 3:\n3+2\n2+1", 0);
    assert!(matches!(result, Ok(Some(_))));
}

#[test]
fn test_parse_elif_start() {
    let result = elif_block(b"elif x > 3:", 0);
    assert!(matches!(result, Ok(Some(_))));
}

#[test]
fn test_parse_else_start() {
    let result = else_block(b"else:", 0);
    assert!(matches!(result, Ok(Some(_))));
}

#[test]
fn test_parse_empty_dictionary() {
    let result = dictionary(b"{}", 0);
    assert!(result.is_some());
}

#[test]
fn test_parse_interior() {
    let result = dictionary_interior(b"{\"test\": 1}", 0);
    println!("{:#?}", result);
    assert!(result.is_some());
}

#[test]
fn test_parse_key_value_pair() {
    let result = key_value_pair(b"10: 1", 0);
    println!("{:#?}", result);
    assert!(matches!(result, Ok(Some(_))));
}

#[test]
fn test_parse_expression() {
    let result = expression(b"3>4", 0);
    assert!(matches!(result, Ok(Some(_))));
}

#[test]
fn test_parse_nested_expression() {
    let result = expression(b"(3*4)+1", 0);
    assert!(matches!(result, Ok(Some(_))));
}

#[test]
fn test_factor() {
    let result = factor(b"(1+2)", 0);
    assert!(matches!(result, Ok(Some(_))));
}

#[test]
fn test_parse_floats() {
    let test_floats = vec!["100.4", "1.02", "-1.02"];
    for o in test_floats {
        let _parsed_o = o.parse::<f64>().unwrap();
        let result = float64(o.as_bytes(), 0);
        assert!(result.is_some());
    }
}

#[test]
fn factor_parsers_test_parse_integer() {
    let test_integers = vec!["0", "-1", "1"];
    for o in test_integers {
        let _parsed_o = o.parse::<i64>().unwrap();
        let result = integer(o.as_bytes(), 0);
        assert!(matches!(result, Ok(Some(_))));
    }
}

#[test]
fn test_parse_identifier() {
    let result = identifier(b"x", 0);
    assert!(result.is_some());
}

#[test]
fn test_parse_function_header() {
    let result = function_name(b"def testfunc(", 0);
    assert!(result.is_some());
}

#[test]
fn test_parse_function_arg() {
    let result = function_arg(b"arg1)", 0);
    assert!(result.is_some());
    let result = function_arg(b"arg1,", 0);
    assert!(result.is_some());
}

#[test]
fn test_parse_function_args() {
    let _result = function_args(b"(arg1, arg2)", 0);
}

#[test]
fn test_parse_function_def() {
    let test_function = b"def test(arg1, arg2):\n\t1+2\n\treturn 0;\n";
    let result = function(test_function, 0);
    assert!(matches!(result, Ok(Some(_))));
}

#[test]
fn test_parse_function_call() {
    let test_function = b"\ntest(arg1, arg2)\n";
    let result = function_call(test_function, 0);
    assert!(result.is_some());
}

#[test]
fn test_parse_empty_list() {
    let result = list(b"[]", 0);
    assert!(matches!(result, Ok(Some(_))));
}

#[test]
fn test_parse_list_with_literals_and_identifiers() {
    let result = list(b"[1, a]", 0);
    assert!(matches!(result, Ok(Some(_))));
}

#[test]
fn test_parse_list_with_expression() {
    let result = list(b"[1, a, 1+2]", 0);
    println!("Result is: {:#?}", result);
    assert!(matches!(result, Ok(Some(_))));
}

#[test]
fn test_parse_for_loop_start() {
    let result = for_loop_start(b"for file in files:", 0);
    assert!(result.is_some());
}

#[test]
fn test_parse_while_loop_start() {
    let result = while_loop_start(b"while x < 1:", 0);
    assert!(matches!(result, Ok(Some(_))));
}

#[test]
fn operand_parsers_test_parse_integer() {
    let test_integers = vec!["0", "-1", "1"];
    for o in test_integers {
        let parsed_o = o.parse::<i64>().unwrap();
        let result = operand(o.as_bytes(), 0);
        assert!(matches!(result, Ok(Some(_))));
        let (token, _) = result.unwrap().unwrap();
        assert_eq!(token, Token::Integer { value: parsed_o });
    }
}

#[test]
fn test_parse_operand() {
    let test_operands = vec!["0"];
    for o in test_operands {
        let result = operand(o.as_bytes(), 0);
        assert!(matches!(result, Ok(Some(_))));
    }
}

#[test]
fn test_parse_addition_operator() {
    let result = operator(b"+", 0);
    assert!(result.is_some());
    let (token, _) = result.unwrap();
    assert_eq!(token, Token::AdditionOperator);
}

#[test]
fn test_parse_subtraction_operator() {
    let result = operator(b"-", 0);
    assert!(result.is_some());
    let (token, _) = result.unwrap();
    assert_eq!(token, Token::SubtractionOperator);
}

#[test]
fn test_parse_multiplication_operator() {
    let result = operator(b"*", 0);
    assert!(result.is_some());
    let (token, _) = result.unwrap();
    assert_eq!(token, Token::MultiplicationOperator);
}

#[test]
fn test_parse_division_operator() {
    let result = operator(b"/", 0);
    assert!(result.is_some());
    let (token, _) = result.unwrap();
    assert_eq!(token, Token::DivisionOperator);
}

#[test]
fn test_parse_operator() {
    let operators = vec!["+", "*", "-", "/", ">", "<", "<=", ">="];
    for o in operators {
        let result = operator(o.as_bytes(), 0);
        assert!(result.is_some());
    }
}

#[test]
fn test_parse_program() {
    let test_program = b"1+2";
    let result = program(test_program, 0);
    assert!(matches!(result, Ok(Some(_))));
}

#[test]
fn test_parse_nested_program() {
    let test_program = b"(1+2)*3";
    let result = program(test_program, 0);
    assert!(matches!(result, Ok(Some(_))));
}

#[test]
fn test_parse_term() {
    let result = term(b"3*4", 0);
    assert!(matches!(result, Ok(Some(_))));
}

#[test]
fn test_parse_nested_term() {
    let result = term(b"(3*4)*2", 0);
    assert!(matches!(result, Ok(Some(_))));
}

#[test]
fn test_parse_really_nested_term() {
    let result = term(b"((3*4)*2)", 0);
    assert!(matches!(result, Ok(Some(_))));
}
