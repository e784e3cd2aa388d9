use krab_language::interpreter::{
    Affectation, Instruction, IntegerValue, Interpreter, Operation, StringValue, Valuable,
    Variable,
};
use krab_language::value::Value;

fn get_interpreter() -> Interpreter {
    Interpreter::new()
}

fn eq_values(value1: &Value, value2: &Value) -> bool {
    match value1.eq(value2) {
        Ok(b) => b,
        Err(_) => false,
    }
}

fn int_val(i: i64) -> Valuable {
    Valuable::Integer(IntegerValue::new(i))
}

fn str_val(s: &str) -> Valuable {
    Valuable::Str(StringValue::new(s))
}

fn var_val(name: &str) -> Valuable {
    Valuable::Variable(Variable::new(name))
}

fn op_val(left: Valuable, right: Valuable, operator: char) -> Valuable {
    Valuable::Operation(Box::new(Operation::new(left, right, operator)))
}

#[test]
fn tests_test_affectation_number() {
    let mut interpreter = get_interpreter();
    let affectation = Affectation::new("a", int_val(20));
    let _ = interpreter.execute(&Instruction::Affectation(affectation));
    let result = interpreter.get_variable("a");
    match result {
        Ok(value) => assert!(eq_values(&value, &Value::new_integer(20))),
        Err(_) => assert!(false),
    }
}

#[test]
fn tests_test_affectation_string() {
    let mut interpreter = get_interpreter();
    let affectation = Affectation::new("a", str_val("Hello"));
    let _ = interpreter.execute(&Instruction::Affectation(affectation));
    let result = interpreter.get_variable("a");
    match result {
        Ok(value) => assert!(eq_values(&value, &Value::new_string("Hello"))),
        Err(_) => assert!(false),
    }
}

#[test]
fn tests_test_operation_number() {
    let mut interpreter = get_interpreter();
    let operation = op_val(int_val(20), int_val(20), '+');
    let result = interpreter.execute(&Instruction::Valuable(operation));
    match result {
        Ok(value) => assert!(eq_values(&value, &Value::new_integer(40))),
        Err(_) => assert!(false),
    }
}

#[test]
fn tests_test_operation_string() {
    let mut interpreter = get_interpreter();
    let operation = op_val(str_val("Hello"), str_val("World"), '+');
    let result = interpreter.execute(&Instruction::Valuable(operation));
    match result {
        Ok(value) => assert!(eq_values(&value, &Value::new_string("HelloWorld"))),
        Err(_) => assert!(false),
    }
}

#[test]
fn tests_test_operation_with_variable() {
    let mut interpreter = get_interpreter();
    let affectation = Affectation::new("a", int_val(20));
    let _ = interpreter.execute(&Instruction::Affectation(affectation));
    let operation = op_val(var_val("a"), int_val(20), '+');
    let result = interpreter.execute(&Instruction::Valuable(operation));
    match result {
        Ok(value) => assert!(eq_values(&value, &Value::new_integer(40))),
        Err(_) => assert!(false),
    }
}

#[test]
fn tests_test_multiple_operations() {
    let mut interpreter = get_interpreter();
    let affectation = Affectation::new("a", int_val(20));
    let _ = interpreter.execute(&Instruction::Affectation(affectation));
    let operation = op_val(var_val("a"), int_val(20), '+');
    let operation = op_val(operation, int_val(20), '+');
    let result = interpreter.execute(&Instruction::Valuable(operation));
    match result {
        Ok(value) => assert!(eq_values(&value, &Value::new_integer(60))),
        Err(_) => assert!(false),
    }
}

#[test]
fn tests_test_all_operations_number() {
    let mut interpreter = get_interpreter();
    let operation = op_val(int_val(10), int_val(20), '+');
    let operation = op_val(operation, int_val(20), '-');
    let operation = op_val(operation, int_val(20), '*');
    let operation = op_val(operation, int_val(20), '/');
    let result = interpreter.execute(&Instruction::Valuable(operation));
    match result {
        Ok(value) => assert!(eq_values(&value, &Value::new_integer(10))),
        Err(_) => assert!(false),
    }
}

#[test]
fn tests_test_get_number_with_execute() {
    let mut interpreter = get_interpreter();
    let operation = op_val(int_val(10), int_val(20), '+');
    let result = interpreter.execute(&Instruction::Valuable(operation));
    match result {
        Ok(value) => assert!(eq_values(&value, &Value::new_integer(30))),
        Err(_) => assert!(false),
    }
}

#[test]
fn tests_test_get_string_with_execute() {
    let mut interpreter = get_interpreter();
    let operation = op_val(str_val("Hello"), str_val("World"), '+');
    let result = interpreter.execute(&Instruction::Valuable(operation));
    match result {
        Ok(value) => assert!(eq_values(&value, &Value::new_string("HelloWorld"))),
        Err(_) => assert!(false),
    }
}

#[test]
fn tests_test_non_existing_variable() {
    let mut interpreter = get_interpreter();
    let affectation = Affectation::new("a", var_val("b"));
    let result = interpreter.execute(&Instruction::Affectation(affectation));
    match result {
        Ok(_) => assert!(false),
        Err(e) => assert!(e.get_message() == "Variable b does not exist"),
    }
}
