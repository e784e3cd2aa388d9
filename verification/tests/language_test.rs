//! End-to-end tests of the pipeline: source text through the lexer, the
//! parser, and the interpreter, plus direct checks of the value operator
//! table and the error variants.

use krab_language::errors::CustomError;
use krab_language::interpreter::{
    Affectation, Condition, ConditionBlock, ConditionLoop, Instruction, InstructionBlock,
    IntegerValue, Interpreter, Operation, Valuable, Variable,
};
use krab_language::lexer::Lexer;
use krab_language::parser::Parser;
use krab_language::value::Value;

fn eq_values(value1: &Value, value2: &Value) -> bool {
    match value1.eq(value2) {
        Ok(b) => b,
        Err(_) => false,
    }
}

fn int_val(i: i64) -> Valuable {
    Valuable::Integer(IntegerValue::new(i))
}

fn run_program(source: &str) -> (Interpreter, Result<Value, CustomError>) {
    let lexer = Lexer::new();
    let parser = Parser::new();
    let mut interpreter = Interpreter::new();
    let tokens = lexer.lex(&source.to_string()).unwrap();
    let instructions = parser.parse_instructions(tokens).unwrap();
    let result = interpreter.execute_instructions(&instructions);
    (interpreter, result)
}

fn parse_error_of(source: &str) -> CustomError {
    let lexer = Lexer::new();
    let parser = Parser::new();
    let tokens = lexer.lex(&source.to_string()).unwrap();
    match parser.parse_instructions(tokens) {
        Ok(_) => panic!("expected a parse error"),
        Err(e) => e,
    }
}

#[test]
fn assign_then_read_back() {
    let mut interpreter = Interpreter::new();
    let result = interpreter.execute(&Instruction::Affectation(Affectation::new(
        "a",
        int_val(5),
    )));
    assert!(result.is_ok());
    match interpreter.get_variable("a") {
        Ok(v) => assert!(eq_values(&v, &Value::new_integer(5))),
        Err(_) => assert!(false),
    }
}

#[test]
fn chained_arithmetic_is_rejected_by_the_flat_grammar() {
    let e = parse_error_of("a = 4 + 2 - 3 + 4;");
    assert!(e.equals(&CustomError::new_parser_error("Not implemented yet")));
}

#[test]
fn chained_arithmetic_as_separate_statements() {
    let (interpreter, result) = run_program("a = 4 + 2; a = a - 3; a = a + 4;");
    assert!(result.is_ok());
    match interpreter.get_variable("a") {
        Ok(v) => assert!(eq_values(&v, &Value::new_integer(7))),
        Err(_) => assert!(false),
    }
}

#[test]
fn string_repetition_program() {
    let (interpreter, result) = run_program("a = \"Hello\" * 2;");
    assert!(result.is_ok());
    match interpreter.get_variable("a") {
        Ok(v) => assert!(eq_values(&v, &Value::new_string("HelloHello"))),
        Err(_) => assert!(false),
    }
}

#[test]
fn unbound_variable_program() {
    let (_interpreter, result) = run_program("a = b;");
    match result {
        Ok(_) => assert!(false),
        Err(e) => {
            assert!(e.equals(&CustomError::new_variable_not_found_error("b")));
            assert!(e.get_message() == "Variable b does not exist");
            assert!(e.get_error_type() == "VariableNotFoundError");
        },
    }
}

#[test]
fn while_loop_program_terminates() {
    let (interpreter, result) = run_program("a = 0; while a < 3 { a = a + 1; }");
    assert!(result.is_ok());
    match interpreter.get_variable("a") {
        Ok(v) => assert!(eq_values(&v, &Value::new_integer(3))),
        Err(_) => assert!(false),
    }
}

#[test]
fn division_by_zero_is_a_runtime_error() {
    let (_interpreter, result) = run_program("a = 10 / 0;");
    match result {
        Ok(_) => assert!(false),
        Err(e) => {
            assert!(e.get_error_type() == "OperationError");
            assert!(e.get_message() == "Division by zero");
        },
    }
}

#[test]
fn while_with_false_condition_never_runs_its_body() {
    let (interpreter, result) = run_program("a = 5; while a < 3 { b = 1; }");
    assert!(result.is_ok());
    match interpreter.get_variable("b") {
        Ok(_) => assert!(false),
        Err(e) => assert!(e.equals(&CustomError::new_variable_not_found_error("b"))),
    }
}

fn doubling_loop_block() -> Instruction {
    Instruction::ConditionLoop(Box::new(ConditionLoop::new(
        Valuable::Condition(Box::new(Condition::new(
            Valuable::Variable(Variable::new("a")),
            Valuable::Integer(IntegerValue::new(4)),
            '<',
        ))),
        InstructionBlock::new(vec![Instruction::Affectation(Affectation::new(
            "a",
            Valuable::Operation(Box::new(Operation::new(
                Valuable::Variable(Variable::new("a")),
                Valuable::Integer(IntegerValue::new(2)),
                '*',
            ))),
        ))]),
    )))
}

#[test]
fn same_block_twice_gives_identical_results() {
    let mut first = Interpreter::new();
    let _ = first.execute(&Instruction::Affectation(Affectation::new("a", int_val(1))));
    let r1 = first.execute(&doubling_loop_block());
    let mut second = Interpreter::new();
    let _ = second.execute(&Instruction::Affectation(Affectation::new("a", int_val(1))));
    let r2 = second.execute(&doubling_loop_block());
    assert!(r1.is_ok() && r2.is_ok());
    let v1 = first.get_variable("a").unwrap();
    let v2 = second.get_variable("a").unwrap();
    assert!(eq_values(&v1, &v2));
    assert!(eq_values(&v1, &Value::new_integer(4)));
}

#[test]
fn float_literals_are_stored_as_written() {
    let (interpreter, result) = run_program("a = 78.9;");
    assert!(result.is_ok());
    match interpreter.get_variable("a") {
        Ok(v) => assert!(eq_values(&v, &Value::new_float("78.9"))),
        Err(_) => assert!(false),
    }
}

#[test]
fn comments_are_skipped() {
    let (interpreter, result) = run_program("# a note # a = 1;");
    assert!(result.is_ok());
    match interpreter.get_variable("a") {
        Ok(v) => assert!(eq_values(&v, &Value::new_integer(1))),
        Err(_) => assert!(false),
    }
}

#[test]
fn unterminated_comment_is_a_lexer_error() {
    let lexer = Lexer::new();
    match lexer.lex(&"a = 1; # dangling".to_string()) {
        Ok(_) => assert!(false),
        Err(e) => assert!(e.equals(&CustomError::new_lexer_error("Comment not closed"))),
    }
}

#[test]
fn empty_statement_is_a_parse_error() {
    let e = parse_error_of("a = 1;;");
    assert!(e.equals(&CustomError::new_parser_error("No tokens to parse")));
}

#[test]
fn assignment_without_value_is_a_parse_error() {
    let e = parse_error_of("a = ;");
    assert!(e.equals(&CustomError::new_parser_error("Value expected but none found")));
}

#[test]
fn while_without_open_brace_is_a_parse_error() {
    let e = parse_error_of("while a < 3 a = 1;");
    assert!(e.equals(&CustomError::new_parser_error("'{' expected but none found")));
}

#[test]
fn while_without_close_brace_is_a_parse_error() {
    let lexer = Lexer::new();
    let parser = Parser::new();
    let tokens = lexer.lex(&"while a < 3 { a = 1;".to_string()).unwrap();
    match parser.parse_instructions(tokens) {
        Ok(_) => assert!(false),
        Err(e) => assert!(e.equals(&CustomError::new_parser_error("'}' expected but none found"))),
    }
}

#[test]
fn statement_starting_with_an_operator_is_a_parse_error() {
    let e = parse_error_of("+ 1;");
    assert!(e.equals(&CustomError::new_parser_error("Unexpected token: +")));
}

#[test]
fn nested_while_loops_use_balanced_braces() {
    let (interpreter, result) = run_program(
        "t = 0; i = 0; while i < 2 { j = 0; while j < 3 { j = j + 1; t = t + 1; }; i = i + 1; }",
    );
    assert!(result.is_ok());
    match interpreter.get_variable("t") {
        Ok(v) => assert!(eq_values(&v, &Value::new_integer(6))),
        Err(_) => assert!(false),
    }
}

#[test]
fn empty_program_yields_null() {
    let lexer = Lexer::new();
    let tokens = lexer.lex(&"".to_string()).unwrap();
    assert!(tokens.len() == 0);
    let parser = Parser::new();
    let instructions = parser.parse_instructions(tokens).unwrap();
    assert!(instructions.len() == 0);
    let mut interpreter = Interpreter::new();
    let result = interpreter.execute_instructions(&instructions).unwrap();
    assert!(matches!(result, Value::Null));
}

#[test]
fn non_boolean_condition_counts_as_false() {
    let mut interpreter = Interpreter::new();
    let block = ConditionBlock::new(
        int_val(1),
        InstructionBlock::new(vec![Instruction::Affectation(Affectation::new(
            "a",
            int_val(9),
        ))]),
    );
    let result = interpreter.execute(&Instruction::ConditionBlock(Box::new(block)));
    assert!(result.is_ok());
    assert!(interpreter.get_variable("a").is_err());
    let looping = ConditionLoop::new(
        int_val(1),
        InstructionBlock::new(vec![Instruction::Affectation(Affectation::new(
            "a",
            int_val(9),
        ))]),
    );
    let result = interpreter.execute(&Instruction::ConditionLoop(Box::new(looping)));
    assert!(result.is_ok());
    assert!(interpreter.get_variable("a").is_err());
}

#[test]
fn value_addition_table() {
    assert!(eq_values(
        &Value::new_integer(2).add(&Value::new_integer(3)).unwrap(),
        &Value::new_integer(5),
    ));
    assert!(eq_values(
        &Value::new_string("ab").add(&Value::new_string("cd")).unwrap(),
        &Value::new_string("abcd"),
    ));
    assert!(eq_values(
        &Value::new_boolean(false).add(&Value::new_boolean(true)).unwrap(),
        &Value::new_boolean(true),
    ));
    let e = Value::new_integer(1).add(&Value::new_boolean(true)).unwrap_err();
    assert!(e.get_error_type() == "OperationError");
    assert!(e.get_message() == "Cannot add Integer(1) and Boolean(true)");
}

#[test]
fn value_subtraction_and_multiplication_table() {
    assert!(eq_values(
        &Value::new_integer(7).sub(&Value::new_integer(3)).unwrap(),
        &Value::new_integer(4),
    ));
    assert!(eq_values(
        &Value::new_integer(6).mul(&Value::new_integer(7)).unwrap(),
        &Value::new_integer(42),
    ));
    assert!(eq_values(
        &Value::new_boolean(true).mul(&Value::new_boolean(false)).unwrap(),
        &Value::new_boolean(false),
    ));
    assert!(eq_values(
        &Value::new_string("xy").mul(&Value::new_integer(3)).unwrap(),
        &Value::new_string("xyxyxy"),
    ));
    assert!(eq_values(
        &Value::new_string("xy").mul(&Value::new_integer(0)).unwrap(),
        &Value::new_string(""),
    ));
    let e = Value::new_string("xy").mul(&Value::new_integer(-1)).unwrap_err();
    assert!(e.get_message() == "Cannot multiply String(xy) and Integer(-1)");
    let e = Value::new_string("a").sub(&Value::new_string("b")).unwrap_err();
    assert!(e.get_message() == "Cannot subtract String(a) and String(b)");
}

#[test]
fn value_division_table() {
    assert!(eq_values(
        &Value::new_integer(7).div(&Value::new_integer(2)).unwrap(),
        &Value::new_integer(3),
    ));
    assert!(eq_values(
        &Value::new_integer(-7).div(&Value::new_integer(2)).unwrap(),
        &Value::new_integer(-3),
    ));
    let e = Value::new_integer(1).div(&Value::new_integer(0)).unwrap_err();
    assert!(e.get_message() == "Division by zero");
    let e = Value::new_integer(i64::MIN).div(&Value::new_integer(-1)).unwrap_err();
    assert!(e.get_message() == "Integer overflow");
}

#[test]
fn integer_overflow_is_a_runtime_error() {
    let e = Value::new_integer(i64::MAX).add(&Value::new_integer(1)).unwrap_err();
    assert!(e.get_error_type() == "OperationError");
    assert!(e.get_message() == "Integer overflow");
    let e = Value::new_integer(i64::MIN).sub(&Value::new_integer(1)).unwrap_err();
    assert!(e.get_message() == "Integer overflow");
    let e = Value::new_integer(i64::MAX).mul(&Value::new_integer(2)).unwrap_err();
    assert!(e.get_message() == "Integer overflow");
}

#[test]
fn equality_is_per_tag_and_false_across_tags() {
    assert!(Value::new_integer(5).eq(&Value::new_integer(5)).unwrap());
    assert!(!Value::new_integer(5).eq(&Value::new_integer(6)).unwrap());
    assert!(Value::new_string("x").eq(&Value::new_string("x")).unwrap());
    assert!(!Value::new_integer(1).eq(&Value::new_string("1")).unwrap());
    assert!(!Value::new_boolean(true).eq(&Value::new_null()).unwrap());
    assert!(Value::new_float("1.5").eq(&Value::new_float("1.5")).unwrap());
    assert!(Value::new_integer(1).neq(&Value::new_string("1")).unwrap());
    assert!(!Value::new_integer(5).neq(&Value::new_integer(5)).unwrap());
}

#[test]
fn ordering_is_integer_only() {
    assert!(Value::new_integer(7).gt(&Value::new_integer(3)).unwrap());
    assert!(!Value::new_integer(3).gt(&Value::new_integer(7)).unwrap());
    assert!(Value::new_integer(3).lt(&Value::new_integer(7)).unwrap());
    let e = Value::new_string("a").lt(&Value::new_string("b")).unwrap_err();
    assert!(e.get_message() == "Cannot compare String(a) and String(b)");
    let e = Value::new_float("1.0").gt(&Value::new_float("2.0")).unwrap_err();
    assert!(e.get_error_type() == "OperationError");
}

#[test]
fn values_render_as_text() {
    assert!(Value::new_integer(120).to_string() == "120");
    assert!(Value::new_integer(-45).to_string() == "-45");
    assert!(Value::new_integer(0).to_string() == "0");
    assert!(Value::new_integer(i64::MIN).to_string() == "-9223372036854775808");
    assert!(Value::new_boolean(true).to_string() == "true");
    assert!(Value::new_boolean(false).to_string() == "false");
    assert!(Value::new_null().to_string() == "None");
    assert!(Value::new_string("hey").to_string() == "hey");
    assert!(Value::new_float("7.25").to_string() == "7.25");
    assert!(Value::new_integer(-3).debug_string() == "Integer(-3)");
    assert!(Value::new_null().debug_string() == "Null");
}

#[test]
fn lexing_numeric_literals_keeps_their_text() {
    let lexer = Lexer::new();
    let tokens = lexer.lex(&"906".to_string()).unwrap();
    assert!(tokens.len() == 1);
    assert!(tokens[0].get_token_type() == "NUMBER");
    assert!(tokens[0].get_value() == "906");
    let tokens = lexer.lex(&"0.5".to_string()).unwrap();
    assert!(tokens.len() == 1);
    assert!(tokens[0].get_value() == "0.5");
    match lexer.lex(&"1.2.3.4".to_string()) {
        Ok(_) => assert!(false),
        Err(e) => assert!(e.equals(&CustomError::new_lexer_error("Invalid number"))),
    }
}

#[test]
fn integer_literal_too_large_is_a_parse_error() {
    let e = parse_error_of("a = 99999999999999999999;");
    assert!(e.equals(&CustomError::new_parser_error("Invalid number")));
    let (interpreter, result) = run_program("a = 9223372036854775807;");
    assert!(result.is_ok());
    match interpreter.get_variable("a") {
        Ok(v) => assert!(eq_values(&v, &Value::new_integer(i64::MAX))),
        Err(_) => assert!(false),
    }
}

#[test]
fn operator_not_found_error_reports_the_symbol() {
    let mut interpreter = Interpreter::new();
    let condition = Condition::new(int_val(1), int_val(2), '?');
    let result = interpreter.execute(&Instruction::Valuable(Valuable::Condition(Box::new(
        condition,
    ))));
    match result {
        Ok(_) => assert!(false),
        Err(e) => {
            assert!(e.get_error_type() == "OperatorNotFoundError");
            assert!(e.get_message() == "Operator ? not found");
        },
    }
}

#[test]
fn expression_statement_yields_its_value() {
    let (_interpreter, result) = run_program("a = 6; a * 7;");
    match result {
        Ok(v) => assert!(eq_values(&v, &Value::new_integer(42))),
        Err(_) => assert!(false),
    }
}

#[test]
fn assignments_inside_a_loop_reach_enclosing_variables() {
    let (interpreter, result) = run_program("a = 0; b = 0; while a < 2 { a = a + 1; b = b + 10; }");
    assert!(result.is_ok());
    let a = interpreter.get_variable("a").unwrap();
    let b = interpreter.get_variable("b").unwrap();
    assert!(eq_values(&a, &Value::new_integer(2)));
    assert!(eq_values(&b, &Value::new_integer(20)));
}

#[test]
fn unknown_character_error_reports_the_character() {
    let lexer = Lexer::new();
    match lexer.lex(&"a = 1 @ 2;".to_string()) {
        Ok(_) => assert!(false),
        Err(e) => {
            assert!(e.get_error_type() == "LexerError");
            assert!(e.get_message() == "Unknown character: @");
        },
    }
}

#[test]
fn string_literals_keep_inner_spaces() {
    let (interpreter, result) = run_program("a = \"one two\" + \" three\";");
    assert!(result.is_ok());
    match interpreter.get_variable("a") {
        Ok(v) => assert!(eq_values(&v, &Value::new_string("one two three"))),
        Err(_) => assert!(false),
    }
}
