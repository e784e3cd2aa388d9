use krab_language::errors::CustomError;
use krab_language::interpreter::{
    Affectation, Condition, ConditionBlock, ConditionLoop, Instruction, InstructionBlock,
    IntegerValue, Interpreter, Operation, StringValue, Valuable, Variable,
};
use krab_language::value::Value;

fn get_interpreter() -> Interpreter {
    Interpreter::new()
}

fn eq_values(value1: &Value, value2: &Value) -> bool {
    match value1.eq(value2) {
        Ok(b) => b,
        Err(_) => false,
    }
}

fn int_val(i: i64) -> Valuable {
    Valuable::Integer(IntegerValue::new(i))
}

fn str_val(s: &str) -> Valuable {
    Valuable::Str(StringValue::new(s))
}

fn var_val(name: &str) -> Valuable {
    Valuable::Variable(Variable::new(name))
}

fn op_val(left: Valuable, right: Valuable, operator: char) -> Valuable {
    Valuable::Operation(Box::new(Operation::new(left, right, operator)))
}

#[test]
fn test_affectation_number() {
    let mut interpreter = get_interpreter();
    let affectation = Affectation::new("a", int_val(20));
    let _ = interpreter.execute(&Instruction::Affectation(affectation));
    let result = interpreter.get_variable("a");
    match result {
        Ok(value) => assert!(eq_values(&value, &Value::new_integer(20))),
        Err(_) => assert!(false),
    }
}

#[test]
fn test_affectation_string() {
    let mut interpreter = get_interpreter();
    let affectation = Affectation::new("a", str_val("Hello"));
    let _ = interpreter.execute(&Instruction::Affectation(affectation));
    let result = interpreter.get_variable("a");
    match result {
        Ok(value) => assert!(eq_values(&value, &Value::new_string("Hello"))),
        Err(_) => assert!(false),
    }
}

#[test]
fn test_operation_number() {
    let mut interpreter = get_interpreter();
    let operation = op_val(int_val(20), int_val(20), '+');
    let result = interpreter.execute(&Instruction::Valuable(operation));
    match result {
        Ok(value) => assert!(eq_values(&value, &Value::new_integer(40))),
        Err(_) => assert!(false),
    }
}

#[test]
fn test_operation_string() {
    let mut interpreter = get_interpreter();
    let operation = op_val(str_val("Hello"), str_val("World"), '+');
    let result = interpreter.execute(&Instruction::Valuable(operation));
    match result {
        Ok(value) => assert!(eq_values(&value, &Value::new_string("HelloWorld"))),
        Err(_) => assert!(false),
    }
}

#[test]
fn test_operation_with_variable() {
    let mut interpreter = get_interpreter();
    let affectation = Affectation::new("a", int_val(20));
    let _ = interpreter.execute(&Instruction::Affectation(affectation));
    let operation = op_val(var_val("a"), int_val(20), '+');
    let result = interpreter.execute(&Instruction::Valuable(operation));
    match result {
        Ok(value) => assert!(eq_values(&value, &Value::new_integer(40))),
        Err(_) => assert!(false),
    }
}

#[test]
fn test_multiplication_between_string_and_integer() {
    let mut interpreter = get_interpreter();
    let operation = op_val(str_val("Hello"), int_val(2), '*');
    let result = interpreter.execute(&Instruction::Valuable(operation));
    match result {
        Ok(value) => assert!(eq_values(&value, &Value::new_string("HelloHello"))),
        Err(_) => assert!(false),
    }
}

#[test]
fn test_multiple_operations() {
    let mut interpreter = get_interpreter();
    let affectation = Affectation::new("a", int_val(20));
    let _ = interpreter.execute(&Instruction::Affectation(affectation));
    let operation = op_val(var_val("a"), int_val(20), '+');
    let operation = op_val(operation, int_val(20), '+');
    let result = interpreter.execute(&Instruction::Valuable(operation));
    match result {
        Ok(value) => assert!(eq_values(&value, &Value::new_integer(60))),
        Err(_) => assert!(false),
    }
}

#[test]
fn test_all_operations_number() {
    let mut interpreter = get_interpreter();
    let operation = op_val(int_val(10), int_val(20), '+');
    let operation = op_val(operation, int_val(20), '-');
    let operation = op_val(operation, int_val(20), '*');
    let operation = op_val(operation, int_val(20), '/');
    let result = interpreter.execute(&Instruction::Valuable(operation));
    match result {
        Ok(value) => assert!(eq_values(&value, &Value::new_integer(10))),
        Err(_) => assert!(false),
    }
}

#[test]
fn test_get_number_with_execute() {
    let mut interpreter = get_interpreter();
    let operation = op_val(int_val(10), int_val(20), '+');
    let result = interpreter.execute(&Instruction::Valuable(operation));
    match result {
        Ok(value) => assert!(eq_values(&value, &Value::new_integer(30))),
        Err(_) => assert!(false),
    }
}

#[test]
fn test_get_string_with_execute() {
    let mut interpreter = get_interpreter();
    let operation = op_val(str_val("Hello"), str_val("World"), '+');
    let result = interpreter.execute(&Instruction::Valuable(operation));
    match result {
        Ok(value) => assert!(eq_values(&value, &Value::new_string("HelloWorld"))),
        Err(_) => assert!(false),
    }
}

#[test]
fn test_non_existing_variable() {
    let mut interpreter = get_interpreter();
    let affectation = Affectation::new("a", var_val("b"));
    let result = interpreter.execute(&Instruction::Affectation(affectation));
    match result {
        Ok(_) => assert!(false),
        Err(e) => assert!(e.equals(&CustomError::new_variable_not_found_error("b"))),
    }
}

#[test]
fn test_instruction_block() {
    let mut interpreter = get_interpreter();
    let affectation = Affectation::new("a", int_val(10));
    let _ = interpreter.execute(&Instruction::Affectation(affectation));
    let affectation = Affectation::new("a", int_val(20));
    let affectation2 = Affectation::new("b", int_val(30));
    let instruction_block = InstructionBlock::new(vec![
        Instruction::Affectation(affectation),
        Instruction::Affectation(affectation2),
    ]);
    let result = interpreter.execute(&Instruction::Block(instruction_block));
    match result {
        Ok(_) => {},
        Err(_) => assert!(false),
    }
    let var = interpreter.get_variable("a");
    match var {
        Ok(value) => assert!(eq_values(&value, &Value::new_integer(20))),
        Err(_) => assert!(false),
    }
    let var = interpreter.get_variable("b");
    match var {
        Ok(_) => assert!(false),
        Err(e) => assert!(e.equals(&CustomError::new_variable_not_found_error("b"))),
    }
}

#[test]
fn test_condition_less_than() {
    let mut interpreter = get_interpreter();
    let condition = Condition::new(int_val(10), int_val(20), '<');
    let result = interpreter.execute(&Instruction::Valuable(Valuable::Condition(Box::new(
        condition,
    ))));
    match result {
        Ok(value) => assert!(eq_values(&value, &Value::new_boolean(true))),
        Err(_) => assert!(false),
    }
    let condition = Condition::new(int_val(20), int_val(10), '<');
    let result = interpreter.execute(&Instruction::Valuable(Valuable::Condition(Box::new(
        condition,
    ))));
    match result {
        Ok(value) => assert!(eq_values(&value, &Value::new_boolean(false))),
        Err(_) => assert!(false),
    }
}

#[test]
fn test_condition_greater_than() {
    let mut interpreter = get_interpreter();
    let condition = Condition::new(int_val(10), int_val(20), '>');
    let result = interpreter.execute(&Instruction::Valuable(Valuable::Condition(Box::new(
        condition,
    ))));
    match result {
        Ok(value) => assert!(eq_values(&value, &Value::new_boolean(false))),
        Err(_) => assert!(false),
    }
    let condition = Condition::new(int_val(20), int_val(10), '>');
    let result = interpreter.execute(&Instruction::Valuable(Valuable::Condition(Box::new(
        condition,
    ))));
    match result {
        Ok(value) => assert!(eq_values(&value, &Value::new_boolean(true))),
        Err(_) => assert!(false),
    }
}

#[test]
fn test_error_condition() {
    let mut interpreter = get_interpreter();
    let condition = Condition::new(int_val(10), int_val(20), 'a');
    let result = interpreter.execute(&Instruction::Valuable(Valuable::Condition(Box::new(
        condition,
    ))));
    match result {
        Ok(_) => assert!(false),
        Err(e) => assert!(e.equals(&CustomError::new_operator_not_found_error('a'))),
    }
}

#[test]
fn test_condition_block_success() {
    let mut interpreter = get_interpreter();
    let affectation = Affectation::new("a", int_val(0));
    let _ = interpreter.execute(&Instruction::Affectation(affectation));
    let condition = Condition::new(int_val(10), int_val(20), '<');
    let affectation = Affectation::new("a", int_val(20));
    let condition_block = ConditionBlock::new(
        Valuable::Condition(Box::new(condition)),
        InstructionBlock::new(vec![Instruction::Affectation(affectation)]),
    );
    let _result = interpreter.execute(&Instruction::ConditionBlock(Box::new(condition_block)));
    let var = interpreter.get_variable("a");
    match var {
        Ok(value) => assert!(eq_values(&value, &Value::new_integer(20))),
        Err(_) => assert!(false),
    }
}

#[test]
fn test_access_variable_in_condition_block() {
    let mut interpreter = get_interpreter();
    let condition = Condition::new(int_val(10), int_val(20), '<');
    let affectation = Affectation::new("a", int_val(20));
    let condition_block = ConditionBlock::new(
        Valuable::Condition(Box::new(condition)),
        InstructionBlock::new(vec![Instruction::Affectation(affectation)]),
    );
    let _result = interpreter.execute(&Instruction::ConditionBlock(Box::new(condition_block)));
    let var = interpreter.get_variable("a");
    match var {
        Ok(_) => assert!(false),
        Err(e) => assert!(e.equals(&CustomError::new_variable_not_found_error("a"))),
    }
}

#[test]
fn test_condition_block_fail() {
    let mut interpreter = get_interpreter();
    let affectation = Affectation::new("a", int_val(10));
    let _ = interpreter.execute(&Instruction::Affectation(affectation));
    let condition = Condition::new(int_val(10), int_val(20), '>');
    let affectation = Affectation::new("a", int_val(20));
    let condition_block = ConditionBlock::new(
        Valuable::Condition(Box::new(condition)),
        InstructionBlock::new(vec![Instruction::Affectation(affectation)]),
    );
    let _result = interpreter.execute(&Instruction::ConditionBlock(Box::new(condition_block)));
    let var = interpreter.get_variable("a");
    match var {
        Ok(_) => assert!(eq_values(&var.unwrap(), &Value::new_integer(10))),
        Err(_) => assert!(true),
    }
}

#[test]
fn test_condition_loop() {
    let mut interpreter = get_interpreter();
    let affectation = Affectation::new("a", int_val(0));
    let _ = interpreter.execute(&Instruction::Affectation(affectation));

    let condition = Condition::new(var_val("a"), int_val(100), '<');
    let operation = op_val(var_val("a"), int_val(1), '+');
    let affectation = Affectation::new("a", operation);
    let condition_loop = ConditionLoop::new(
        Valuable::Condition(Box::new(condition)),
        InstructionBlock::new(vec![Instruction::Affectation(affectation)]),
    );
    let result = interpreter.execute(&Instruction::ConditionLoop(Box::new(condition_loop)));
    match result {
        Ok(_) => {},
        Err(_) => assert!(false),
    }
    match interpreter.get_variable("a") {
        Ok(v) => assert!(eq_values(&v, &Value::new_integer(100))),
        Err(_) => assert!(false),
    }
}

#[test]
fn test_access_variable_in_condition_loop() {
    let mut interpreter = get_interpreter();
    let affectation = Affectation::new("a", int_val(0));
    let _ = interpreter.execute(&Instruction::Affectation(affectation));
    let condition = Condition::new(var_val("a"), int_val(1), '<');
    let operation = op_val(var_val("a"), int_val(1), '+');
    let affectation = Affectation::new("a", operation);
    let affectation2 = Affectation::new("b", int_val(1));
    let condition_loop = ConditionLoop::new(
        Valuable::Condition(Box::new(condition)),
        InstructionBlock::new(vec![
            Instruction::Affectation(affectation),
            Instruction::Affectation(affectation2),
        ]),
    );
    let result = interpreter.execute(&Instruction::ConditionLoop(Box::new(condition_loop)));
    match result {
        Ok(_) => {},
        Err(_) => assert!(false),
    }
    match interpreter.get_variable("b") {
        Ok(_) => assert!(false),
        Err(e) => assert!(e.equals(&CustomError::new_variable_not_found_error("b"))),
    }
}
