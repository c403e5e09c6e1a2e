//! Tests of the library's stated behaviour: literal values, instruction
//! sequences, scope binding and shadowing, register conservation, error
//! values, and the bridge to the external assembler.

use palladium::dictionary_parsers::dictionary;
use palladium::factor_parsers::{end_of_file, float64, identifier, identifiers, integer};
use palladium::errors::{CompileError, ParseError};
use palladium::program_parsers::{parse, program};
use palladium::scope::Scope;
use palladium::tokens::Token;
use palladium::visitor::Compiler;

fn compile_lines(source: &str) -> Vec<String> {
    let tree = match program(source.as_bytes(), 0) {
        Ok(Some((t, _))) => t,
        other => panic!("parse failed: {:?}", other),
    };
    let mut compiler = Compiler::new();
    compiler.visit_token(&tree).expect("code generation failed");
    compiler
        .assembly_lines()
        .iter()
        .map(|l| String::from_utf8(l.clone()).unwrap())
        .collect()
}

#[test]
fn integer_literal_values_round_trip() {
    let r = integer(b"-42", 0);
    assert_eq!(r, Ok(Some((Token::Integer { value: -42 }, 3))));
    let r = integer(b"   123", 0);
    assert_eq!(r, Ok(Some((Token::Integer { value: 123 }, 6))));
    let r = integer(b"9223372036854775807", 0);
    assert_eq!(r, Ok(Some((Token::Integer { value: i64::MAX }, 19))));
    let r = integer(b"-9223372036854775808", 0);
    assert_eq!(r, Ok(Some((Token::Integer { value: i64::MIN }, 20))));
}

#[test]
fn integer_literal_overflow_is_fatal() {
    let r = integer(b"9223372036854775808", 0);
    assert_eq!(r, Err(ParseError::IntegerOverflow { pos: 0 }));
    let r = integer(b"-9223372036854775809", 0);
    assert_eq!(r, Err(ParseError::IntegerOverflow { pos: 0 }));
    let r = parse(b"1+99999999999999999999");
    assert_eq!(r, Err(ParseError::IntegerOverflow { pos: 2 }));
}

#[test]
fn float_literal_keeps_its_text() {
    let r = float64(b"-1.02", 0).unwrap();
    match r.0 {
        Token::Factor { value } => match *value {
            Token::Float { text } => {
                assert_eq!(text, b"-1.02".to_vec());
                let as_double: f64 = String::from_utf8(text).unwrap().parse().unwrap();
                assert_eq!(as_double, -1.02f64);
            },
            other => panic!("expected a float node, got {:?}", other),
        },
        other => panic!("expected a factor node, got {:?}", other),
    }
    assert_eq!(r.1, 5);
    assert!(float64(b"100.4", 0).is_some());
    assert!(float64(b"100.", 0).is_none());
    assert!(float64(b".4", 0).is_none());
}

#[test]
fn parenthesized_expression_compiles_identically() {
    assert_eq!(compile_lines("(3+4)"), compile_lines("3+4"));
    assert_eq!(compile_lines("((2*8))"), compile_lines("2*8"));
}

#[test]
fn addition_instruction_sequence_is_exact() {
    let lines = compile_lines("3+4");
    assert_eq!(
        lines,
        vec![".data", ".code", "LOAD $30 #3", "LOAD $29 #4", "ADD $30 $29 $28", "HLT"]
    );
}

#[test]
fn subtraction_orders_operands_by_evaluation() {
    let lines = compile_lines("2-1");
    assert_eq!(
        lines,
        vec![".data", ".code", "LOAD $30 #2", "LOAD $29 #1", "SUB $30 $29 $28", "HLT"]
    );
}

#[test]
fn assignment_binds_the_value_register() {
    let tree = match program(b"x = 4", 0) {
        Ok(Some((t, _))) => t,
        other => panic!("parse failed: {:?}", other),
    };
    let mut compiler = Compiler::new();
    compiler.visit_token(&tree).unwrap();
    // the register that received the LOAD is the one bound to x
    assert_eq!(compiler.get_variable(b"x"), Some(30));
    let loads = compiler
        .assembly_lines()
        .iter()
        .filter(|l| l.starts_with(b"LOAD"))
        .count();
    assert_eq!(loads, 1);
    // a subsequent read resolves to the same register without a new LOAD
    assert_eq!(compiler.get_variable(b"x"), Some(30));
    let loads_after = compiler
        .assembly_lines()
        .iter()
        .filter(|l| l.starts_with(b"LOAD"))
        .count();
    assert_eq!(loads_after, 1);
}

#[test]
fn shadowing_leaves_outer_binding_alone() {
    let mut compiler = Compiler::new();
    compiler.new_variable(b"x", 5);
    compiler.new_scope();
    compiler.new_variable(b"x", 7);
    assert_eq!(compiler.get_variable(b"x"), Some(7));
    compiler.remove_scope();
    assert_eq!(compiler.get_variable(b"x"), Some(5));
}

fn live_register_total(compiler: &mut Compiler) -> usize {
    let mut total = compiler.free_register_list().len() + compiler.used_register_list().len();
    while let Some(scope) = compiler.pop_current_scope() {
        total += scope.get_registers().len();
    }
    total
}

#[test]
fn registers_are_conserved_across_compilation() {
    for source in ["3+4", "x = 4", "(1+2)*3", "a = 1\ndef testfunc(a):\n\t3+4\n\treturn 0;"] {
        let tree = match program(source.as_bytes(), 0) {
            Ok(Some((t, _))) => t,
            other => panic!("parse failed: {:?}", other),
        };
        let mut compiler = Compiler::new();
        compiler.visit_token(&tree).unwrap();
        assert_eq!(live_register_total(&mut compiler), 31, "leak in {:?}", source);
    }
}

#[test]
fn malformed_input_yields_a_syntax_error() {
    assert_eq!(parse(b"1+"), Err(ParseError::Syntax { pos: 1 }));
    assert!(matches!(parse(b"def f(:"), Err(ParseError::Syntax { .. })));
    assert!(matches!(parse(b""), Err(ParseError::Syntax { .. })));
    assert!(matches!(parse(b"   "), Err(ParseError::Syntax { .. })));
    assert!(parse(b"3+4").is_ok());
}

#[test]
fn unresolved_call_argument_aborts_compilation() {
    let tree = match program(b"testfunc(a)", 0) {
        Ok(Some((t, _))) => t,
        other => panic!("parse failed: {:?}", other),
    };
    let mut compiler = Compiler::new();
    let r = compiler.visit_token(&tree);
    assert_eq!(r, Err(CompileError::UnresolvedIdentifier { name: b"a".to_vec() }));
}

#[test]
fn assignment_without_identifier_target_aborts() {
    let tree = match program(b"3 = 4", 0) {
        Ok(Some((t, _))) => t,
        other => panic!("parse failed: {:?}", other),
    };
    let mut compiler = Compiler::new();
    let r = compiler.visit_token(&tree);
    assert_eq!(r, Err(CompileError::MissingAssignmentTarget));
}

#[test]
fn assignment_from_a_call_underflows_the_result_stack() {
    let tree = match program(b"x = testfunc()", 0) {
        Ok(Some((t, _))) => t,
        other => panic!("parse failed: {:?}", other),
    };
    let mut compiler = Compiler::new();
    let r = compiler.visit_token(&tree);
    assert!(matches!(r, Err(CompileError::RegisterUnderflow { .. })));
}

#[test]
fn exhausting_the_register_pool_aborts() {
    // 32 bare literals each hold a result register; only 31 exist
    let source = "1 ".repeat(32);
    let tree = match program(source.as_bytes(), 0) {
        Ok(Some((t, _))) => t,
        other => panic!("parse failed: {:?}", other),
    };
    let mut compiler = Compiler::new();
    let r = compiler.visit_token(&tree);
    assert!(matches!(r, Err(CompileError::RegisterExhausted { .. })));
}

#[test]
fn function_definition_emits_label_body_and_ret() {
    let lines = compile_lines("def test():\n\t1+2\n\treturn 0;\ntest()");
    assert_eq!(
        lines,
        vec![
            ".data",
            ".code",
            "test:",
            "LOAD $30 #1",
            "LOAD $29 #2",
            "ADD $30 $29 $28",
            "LOAD $31 #0",
            "RET",
            "CALL @test",
            "HLT"
        ]
    );
}

#[test]
fn call_arguments_are_pushed_from_their_registers() {
    let lines = compile_lines("a = 1\ndef testfunc(a):\n\t3+4\n\treturn 0;\ntestfunc(a)");
    assert!(lines.contains(&"PUSH $30".to_string()));
    assert!(lines.contains(&"CALL @testfunc".to_string()));
}

#[test]
fn parse_pins_the_single_literal_tree() {
    let tree = parse(b" -42 ").unwrap();
    match tree {
        Token::Program { expressions } => {
            assert_eq!(expressions.len(), 1);
            match &expressions[0] {
                Token::Expression { left, right } => {
                    assert!(right.is_empty());
                    match &**left {
                        Token::Term { left: tleft, right: tright } => {
                            assert!(tright.is_empty());
                            match &**tleft {
                                Token::Factor { value } => {
                                    assert_eq!(**value, Token::Integer { value: -42 });
                                },
                                other => panic!("expected a factor, got {:?}", other),
                            }
                        },
                        other => panic!("expected a term, got {:?}", other),
                    }
                },
                other => panic!("expected an expression, got {:?}", other),
            }
        },
        other => panic!("expected a program, got {:?}", other),
    }
}

#[test]
fn parse_pins_the_comparison_tree() {
    let tree = parse(b"3>4").unwrap();
    match tree {
        Token::Program { expressions } => {
            assert_eq!(expressions.len(), 1);
            match &expressions[0] {
                Token::Expression { left, right } => {
                    assert!(right.is_empty());
                    match &**left {
                        Token::Term { left: tleft, right: tright } => {
                            match &**tleft {
                                Token::Factor { value } => {
                                    assert_eq!(**value, Token::Integer { value: 3 });
                                },
                                other => panic!("expected a factor, got {:?}", other),
                            }
                            assert_eq!(tright.len(), 1);
                            assert_eq!(tright[0].0, Token::GreaterThan);
                            match &tright[0].1 {
                                Token::Factor { value } => {
                                    assert_eq!(**value, Token::Integer { value: 4 });
                                },
                                other => panic!("expected a factor, got {:?}", other),
                            }
                        },
                        other => panic!("expected a term, got {:?}", other),
                    }
                },
                other => panic!("expected an expression, got {:?}", other),
            }
        },
        other => panic!("expected a program, got {:?}", other),
    }
}

#[test]
fn wide_immediates_are_refused_not_handed_over() {
    // the source language takes 64-bit literals, but the assembler's
    // operand reader is 32-bit and would panic: compile refuses the text
    let tree = match program(b"x = 4000000000", 0) {
        Ok(Some((t, _))) => t,
        other => panic!("parse failed: {:?}", other),
    };
    let mut compiler = Compiler::new();
    compiler.visit_token(&tree).unwrap();
    let bytecode = compiler.compile();
    assert_eq!(bytecode, Vec::<u8>::new());
}

#[test]
fn in_range_immediates_still_assemble() {
    let tree = match program(b"x = 70000", 0) {
        Ok(Some((t, _))) => t,
        other => panic!("parse failed: {:?}", other),
    };
    let mut compiler = Compiler::new();
    compiler.visit_token(&tree).unwrap();
    let bytecode = compiler.compile();
    assert!(bytecode.len() >= 64);
    assert_eq!(&bytecode[0..4], &[0x45, 0x50, 0x49, 0x45]);
}

#[test]
fn compile_hands_the_text_to_the_assembler() {
    let tree = match program(b"3+4", 0) {
        Ok(Some((t, _))) => t,
        other => panic!("parse failed: {:?}", other),
    };
    let mut compiler = Compiler::new();
    compiler.visit_token(&tree).unwrap();
    let bytecode = compiler.compile();
    // real bytecode, not the text handed in: the assembler's header leads
    assert!(bytecode.len() >= 64);
    assert_eq!(&bytecode[0..4], &[0x45, 0x50, 0x49, 0x45]);
}

#[test]
fn rejected_assembly_yields_no_bytecode() {
    let mut compiler = Compiler::new();
    // nothing was visited: no .data/.code sections, which the assembler demands
    let bytecode = compiler.compile();
    assert_eq!(bytecode, Vec::<u8>::new());
}

#[test]
fn scope_bindings_overwrite_and_return_registers_stack() {
    let mut scope = Scope::new();
    assert!(!scope.has_variable(b"x"));
    assert_eq!(scope.get_variable(b"x"), None);
    scope.new_variable(b"x", 1);
    scope.new_variable(b"y", 3);
    scope.new_variable(b"x", 2);
    assert!(scope.has_variable(b"x"));
    assert_eq!(scope.get_variable(b"x"), Some(2));
    assert_eq!(scope.get_variable(b"y"), Some(3));
    scope.add_used_register(9);
    scope.add_used_register(4);
    assert_eq!(scope.get_registers(), vec![9, 4]);
    scope.add_return_register(11);
    scope.add_return_register(12);
    assert_eq!(scope.clone_all_return_registers(), vec![11, 12]);
    assert_eq!(scope.pop_return_register(), Some(12));
    assert_eq!(scope.pop_return_register(), Some(11));
    assert_eq!(scope.pop_return_register(), None);
}

#[test]
fn current_scope_is_the_innermost() {
    let mut compiler = Compiler::new();
    compiler.new_variable(b"x", 5);
    compiler.new_scope();
    compiler.current_scope().new_variable(b"x", 9);
    assert_eq!(compiler.get_variable(b"x"), Some(9));
    compiler.remove_scope();
    assert_eq!(compiler.get_variable(b"x"), Some(5));
}

#[test]
fn reserved_words_are_not_identifiers() {
    assert!(identifier(b"def", 0).is_none());
    assert!(identifier(b"define", 0).is_none());
    assert!(identifier(b"if", 0).is_none());
    assert!(identifier(b"elif", 0).is_none());
    assert!(identifier(b"else", 0).is_none());
    assert!(identifier(b"return", 0).is_none());
    assert!(identifier(b"deX", 0).is_some());
    assert!(identifier(b"x", 0).is_some());
}

#[test]
fn identifier_run_collects_names() {
    let (t, e) = identifiers(b"x y", 0).unwrap();
    assert_eq!(e, 3);
    match t {
        Token::Factor { value } => match *value {
            Token::Identifier { values } => {
                assert_eq!(values, vec![b"x".to_vec(), b"y".to_vec()]);
            },
            other => panic!("expected identifiers, got {:?}", other),
        },
        other => panic!("expected a factor, got {:?}", other),
    }
    assert!(identifiers(b"   ", 0).is_none());
}

#[test]
fn end_of_file_only_matches_trailing_whitespace() {
    assert_eq!(end_of_file(b"   ", 0), Some((Token::Eof, 3)));
    assert_eq!(end_of_file(b"", 0), Some((Token::Eof, 0)));
    assert_eq!(end_of_file(b"  x", 0), None);
}

#[test]
fn dictionary_contents_are_consumed_but_dropped() {
    let (t, e) = dictionary(b"{\"k\": 1}", 0).unwrap();
    assert_eq!(e, 8);
    assert_eq!(t, Token::Dictionary { keys: vec![], values: vec![] });
}
