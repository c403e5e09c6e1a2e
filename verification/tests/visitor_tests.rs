//! Tests for the code generator: one per operator kind, plus assignments,
//! function declarations, calls and return values.

use palladium::program_parsers::program;
use palladium::tokens::Token;
use palladium::visitor::Compiler;

fn generate_test_program(expr: &str) -> Token {
    let result = program(expr.as_bytes(), 0);
    match result {
        Ok(Some((tree, _))) => tree,
        other => panic!("test program failed to parse: {:?}", other),
    }
}

#[test]
fn test_visit_addition_token() {
    let mut compiler = Compiler::new();
    let test_program = generate_test_program("1+2");
    let _ = compiler.visit_token(&test_program);
}

#[test]
fn test_visit_subtraction_token() {
    let mut compiler = Compiler::new();
    let test_program = generate_test_program("2-1");
    let _ = compiler.visit_token(&test_program);
}

#[test]
fn test_visit_multiplication_token() {
    let mut compiler = Compiler::new();
    let test_program = generate_test_program("2*1");
    let _ = compiler.visit_token(&test_program);
    let _bytecode = compiler.compile();
}

#[test]
fn test_visit_division_token() {
    let mut compiler = Compiler::new();
    let test_program = generate_test_program("2/1");
    let _ = compiler.visit_token(&test_program);
    let _bytecode = compiler.compile();
}

#[test]
fn test_visit_greater_than_token() {
    let mut compiler = Compiler::new();
    let test_program = generate_test_program("2>1");
    let _ = compiler.visit_token(&test_program);
    let _bytecode = compiler.compile();
}

#[test]
fn test_visit_less_than_token() {
    let mut compiler = Compiler::new();
    let test_program = generate_test_program("2<1");
    let _ = compiler.visit_token(&test_program);
    let _bytecode = compiler.compile();
}

#[test]
fn test_visit_less_than_or_equal_token() {
    let mut compiler = Compiler::new();
    let test_program = generate_test_program("2<=1");
    let _ = compiler.visit_token(&test_program);
    let _bytecode = compiler.compile();
}

#[test]
fn test_visit_greater_than_or_equal_token() {
    let mut compiler = Compiler::new();
    let test_program = generate_test_program("2>=1");
    let _ = compiler.visit_token(&test_program);
    let _bytecode = compiler.compile();
}

#[test]
fn test_nested_operators() {
    let mut compiler = Compiler::new();
    let test_program = generate_test_program("(4*3)-1");
    let _ = compiler.visit_token(&test_program);
    let _bytecode = compiler.compile();
}

#[test]
fn test_variable_assignment() {
    let mut compiler = Compiler::new();
    let test_program = generate_test_program("x = 4");
    let _ = compiler.visit_token(&test_program);
    let _bytecode = compiler.compile();
}

#[test]
fn test_function_call_with_args() {
    let mut compiler = Compiler::new();
    let test_program = generate_test_program("a = 1\ndef testfunc(a):\n\t3+4\n\treturn 0;");
    let _ = compiler.visit_token(&test_program);
    println!("{:#?}", compiler.assembly_lines());
}

#[test]
fn test_function_declaration() {
    let mut compiler = Compiler::new();
    let test_program = generate_test_program("def testfunc():\n\t3+4\n\treturn 0;");
    let _ = compiler.visit_token(&test_program);
}

#[test]
fn test_function_call_assignment() {
    let mut compiler = Compiler::new();
    let test_program = generate_test_program("x = testfunc()");
    let _ = compiler.visit_token(&test_program);
}

#[test]
fn test_function_return_values() {
    let mut compiler = Compiler::new();
    let test_program = generate_test_program("\ndef test():\n    return 1;\n\ny = test()\n");
    let _ = compiler.visit_token(&test_program);
    println!("{:#?}", compiler.assembly_lines());
}
