//! Runtime values and their operator semantics. A value is a tagged union of
//! a 64-bit integer, a float literal kept as its source text, a string, a
//! boolean, or null. Every binary operator is defined only for specific tag
//! pairs; all other pairs report an `OperationError`, never a coercion.
//!
//! This library performs no floating-point computation: a float literal is
//! stored and compared as the text it was written as, and arithmetic on
//! floats reports an `OperationError`.
//!
//! Integer arithmetic that would leave the 64-bit range reports an
//! `OperationError` instead of wrapping, and integer division by zero is a
//! runtime `OperationError`, never a panic.

use vstd::prelude::*;

verus! {

use vstd::string::StringExecFns;
use crate::errors::{CustomError, ErrorModel, operation_error_model};
use crate::text::{i64_to_string, int_text};

/// The abstract content of a runtime value.
pub enum ValueModel {
    Integer(i64),
    Float(Seq<char>),
    Str(Seq<char>),
    Boolean(bool),
    Null,
}

/// A runtime value. Operators produce a new value and never mutate in place.
#[derive(Debug)]
pub enum Value {
    Integer(i64),
    Float(String),
    Str(String),
    Boolean(bool),
    Null,
}

impl View for Value {
    type V = ValueModel;

    open spec fn view(&self) -> ValueModel {
        match self {
            Value::Integer(i) => ValueModel::Integer(*i),
            Value::Float(t) => ValueModel::Float(t@),
            Value::Str(s) => ValueModel::Str(s@),
            Value::Boolean(b) => ValueModel::Boolean(*b),
            Value::Null => ValueModel::Null,
        }
    }
}

/// Lifts a value-or-error result to its model.
pub open spec fn value_result_model(r: Result<Value, CustomError>) -> Result<
    ValueModel,
    ErrorModel,
> {
    match r {
        Ok(v) => Ok(v@),
        Err(e) => Err(e@),
    }
}

/// Lifts a boolean-or-error result to its model.
pub open spec fn bool_result_model(r: Result<bool, CustomError>) -> Result<bool, ErrorModel> {
    match r {
        Ok(b) => Ok(b),
        Err(e) => Err(e@),
    }
}

/// How a value renders in error messages, in the style of a debug form.
pub open spec fn value_label(v: ValueModel) -> Seq<char> {
    match v {
        ValueModel::Integer(i) => "Integer("@ + int_text(i as int) + ")"@,
        ValueModel::Float(t) => "Float("@ + t + ")"@,
        ValueModel::Str(s) => "String("@ + s + ")"@,
        ValueModel::Boolean(b) => if b {
            "Boolean(true)"@
        } else {
            "Boolean(false)"@
        },
        ValueModel::Null => "Null"@,
    }
}

/// How a value renders as plain text.
pub open spec fn value_text(v: ValueModel) -> Seq<char> {
    match v {
        ValueModel::Integer(i) => int_text(i as int),
        ValueModel::Float(t) => t,
        ValueModel::Str(s) => s,
        ValueModel::Boolean(b) => if b {
            "true"@
        } else {
            "false"@
        },
        ValueModel::Null => "None"@,
    }
}

/// The message of the error reported when an operator does not support its
/// operand tags.
pub open spec fn cannot_message(verb: Seq<char>, a: ValueModel, b: ValueModel) -> Seq<char> {
    "Cannot "@ + verb + " "@ + value_label(a) + " and "@ + value_label(b)
}

/// The error model for an unsupported operand pair.
pub open spec fn cannot_model(verb: Seq<char>, a: ValueModel, b: ValueModel) -> ErrorModel {
    operation_error_model(cannot_message(verb, a, b))
}

/// The error model for integer arithmetic that leaves the 64-bit range.
pub open spec fn overflow_model() -> ErrorModel {
    operation_error_model("Integer overflow"@)
}

/// The error model for an integer division by zero.
pub open spec fn division_by_zero_model() -> ErrorModel {
    operation_error_model("Division by zero"@)
}

/// The given string repeated the given number of times; empty when the count
/// is not positive.
pub open spec fn str_repeat(s: Seq<char>, n: int) -> Seq<char>
    decreases n,
{
    if n <= 0 {
        Seq::empty()
    } else {
        str_repeat(s, n - 1) + s
    }
}

/// What `add` returns: integer addition, string concatenation, or boolean
/// disjunction; every other tag pair is an error.
pub open spec fn add_model(a: ValueModel, b: ValueModel) -> Result<ValueModel, ErrorModel> {
    match (a, b) {
        (ValueModel::Integer(x), ValueModel::Integer(y)) => match x.checked_add(y) {
            Some(z) => Ok(ValueModel::Integer(z)),
            None => Err(overflow_model()),
        },
        (ValueModel::Str(x), ValueModel::Str(y)) => Ok(ValueModel::Str(x + y)),
        (ValueModel::Boolean(x), ValueModel::Boolean(y)) => Ok(ValueModel::Boolean(x || y)),
        _ => Err(cannot_model("add"@, a, b)),
    }
}

/// What `sub` returns: integer subtraction only.
pub open spec fn sub_model(a: ValueModel, b: ValueModel) -> Result<ValueModel, ErrorModel> {
    match (a, b) {
        (ValueModel::Integer(x), ValueModel::Integer(y)) => match x.checked_sub(y) {
            Some(z) => Ok(ValueModel::Integer(z)),
            None => Err(overflow_model()),
        },
        _ => Err(cannot_model("subtract"@, a, b)),
    }
}

/// What `mul` returns: integer multiplication, boolean conjunction, or a
/// string repeated a non-negative integer number of times.
pub open spec fn mul_model(a: ValueModel, b: ValueModel) -> Result<ValueModel, ErrorModel> {
    match (a, b) {
        (ValueModel::Integer(x), ValueModel::Integer(y)) => match x.checked_mul(y) {
            Some(z) => Ok(ValueModel::Integer(z)),
            None => Err(overflow_model()),
        },
        (ValueModel::Boolean(x), ValueModel::Boolean(y)) => Ok(ValueModel::Boolean(x && y)),
        (ValueModel::Str(x), ValueModel::Integer(y)) => if y >= 0 {
            Ok(ValueModel::Str(str_repeat(x, y as int)))
        } else {
            Err(cannot_model("multiply"@, a, b))
        },
        _ => Err(cannot_model("multiply"@, a, b)),
    }
}

/// What `div` returns: truncating integer division; dividing by zero is a
/// runtime error.
pub open spec fn div_model(a: ValueModel, b: ValueModel) -> Result<ValueModel, ErrorModel> {
    match (a, b) {
        (ValueModel::Integer(x), ValueModel::Integer(y)) => if y == 0 {
            Err(division_by_zero_model())
        } else {
            match x.checked_div(y) {
                Some(z) => Ok(ValueModel::Integer(z)),
                None => Err(overflow_model()),
            }
        },
        _ => Err(cannot_model("divide"@, a, b)),
    }
}

/// What `eq` returns: equality for same-tag pairs, `false` across tags.
pub open spec fn eq_model(a: ValueModel, b: ValueModel) -> bool {
    match (a, b) {
        (ValueModel::Integer(x), ValueModel::Integer(y)) => x == y,
        (ValueModel::Float(x), ValueModel::Float(y)) => x == y,
        (ValueModel::Str(x), ValueModel::Str(y)) => x == y,
        (ValueModel::Boolean(x), ValueModel::Boolean(y)) => x == y,
        _ => false,
    }
}

/// What `gt` and `lt` return: integer comparison only; every other pair is an
/// error.
pub open spec fn cmp_defined(a: ValueModel, b: ValueModel) -> bool {
    a is Integer && b is Integer
}

impl Value {
    /// Builds a string value.
    pub fn new_string(s: &str) -> (r: Value)
        ensures
            r@ == ValueModel::Str(s@),
    {
        Value::Str(s.to_owned())
    }

    /// Builds an integer value.
    pub fn new_integer(i: i64) -> (r: Value)
        ensures
            r@ == ValueModel::Integer(i),
    {
        Value::Integer(i)
    }

    /// Builds a float value out of the literal text it was written as.
    pub fn new_float(text: &str) -> (r: Value)
        ensures
            r@ == ValueModel::Float(text@),
    {
        Value::Float(text.to_owned())
    }

    /// Builds a boolean value.
    pub fn new_boolean(b: bool) -> (r: Value)
        ensures
            r@ == ValueModel::Boolean(b),
    {
        Value::Boolean(b)
    }

    /// Builds the null value.
    pub fn new_null() -> (r: Value)
        ensures
            r@ == ValueModel::Null,
    {
        Value::Null
    }

    /// A copy of this value.
    pub fn clone(&self) -> (r: Value)
        ensures
            r@ == self@,
    {
        match self {
            Value::Integer(i) => Value::Integer(*i),
            Value::Float(t) => Value::Float(t.clone()),
            Value::Str(s) => Value::Str(s.clone()),
            Value::Boolean(b) => Value::Boolean(*b),
            Value::Null => Value::Null,
        }
    }

    /// How this value renders in error messages.
    pub fn debug_string(&self) -> (r: String)
        ensures
            r@ == value_label(self@),
    {
        match self {
            Value::Integer(i) => {
                let mut out = "Integer(".to_owned();
                let digits = i64_to_string(*i);
                out.append(digits.as_str());
                out.append(")");
                proof {
                    assert(out@ =~= value_label(self@));
                }
                out
            },
            Value::Float(t) => {
                let mut out = "Float(".to_owned();
                out.append(t.as_str());
                out.append(")");
                proof {
                    assert(out@ =~= value_label(self@));
                }
                out
            },
            Value::Str(s) => {
                let mut out = "String(".to_owned();
                out.append(s.as_str());
                out.append(")");
                proof {
                    assert(out@ =~= value_label(self@));
                }
                out
            },
            Value::Boolean(b) => if *b {
                "Boolean(true)".to_owned()
            } else {
                "Boolean(false)".to_owned()
            },
            Value::Null => "Null".to_owned(),
        }
    }

    /// How this value renders as plain text.
    pub fn to_string(&self) -> (r: String)
        ensures
            r@ == value_text(self@),
    {
        match self {
            Value::Integer(i) => i64_to_string(*i),
            Value::Float(t) => t.clone(),
            Value::Str(s) => s.clone(),
            Value::Boolean(b) => if *b {
                "true".to_owned()
            } else {
                "false".to_owned()
            },
            Value::Null => "None".to_owned(),
        }
    }

    /// The error for an operand pair the given operator does not support.
    fn cannot_error(verb: &str, a: &Value, b: &Value) -> (r: CustomError)
        ensures
            r@ == cannot_model(verb@, a@, b@),
    {
        let mut message = "Cannot ".to_owned();
        message.append(verb);
        message.append(" ");
        let left = a.debug_string();
        message.append(left.as_str());
        message.append(" and ");
        let right = b.debug_string();
        message.append(right.as_str());
        proof {
            assert(message@ =~= cannot_message(verb@, a@, b@));
        }
        CustomError::from_parts(message, "OperationError".to_owned())
    }

    /// Adds two values: integer addition, string concatenation, or boolean
    /// disjunction.
    pub fn add(&self, other: &Value) -> (r: Result<Value, CustomError>)
        ensures
            value_result_model(r) == add_model(self@, other@),
    {
        match (self, other) {
            (Value::Integer(a), Value::Integer(b)) => match a.checked_add(*b) {
                Some(z) => Ok(Value::Integer(z)),
                None => Err(CustomError::new_operation_error("Integer overflow")),
            },
            (Value::Str(a), Value::Str(b)) => {
                let mut out = a.clone();
                out.append(b.as_str());
                Ok(Value::Str(out))
            },
            (Value::Boolean(a), Value::Boolean(b)) => Ok(Value::Boolean(*a || *b)),
            _ => Err(Value::cannot_error("add", self, other)),
        }
    }

    /// Subtracts two values: integer subtraction only.
    pub fn sub(&self, other: &Value) -> (r: Result<Value, CustomError>)
        ensures
            value_result_model(r) == sub_model(self@, other@),
    {
        match (self, other) {
            (Value::Integer(a), Value::Integer(b)) => match a.checked_sub(*b) {
                Some(z) => Ok(Value::Integer(z)),
                None => Err(CustomError::new_operation_error("Integer overflow")),
            },
            _ => Err(Value::cannot_error("subtract", self, other)),
        }
    }

    /// Multiplies two values: integer multiplication, boolean conjunction, or
    /// string repetition by a non-negative integer.
    pub fn mul(&self, other: &Value) -> (r: Result<Value, CustomError>)
        ensures
            value_result_model(r) == mul_model(self@, other@),
    {
        match (self, other) {
            (Value::Integer(a), Value::Integer(b)) => match a.checked_mul(*b) {
                Some(z) => Ok(Value::Integer(z)),
                None => Err(CustomError::new_operation_error("Integer overflow")),
            },
            (Value::Boolean(a), Value::Boolean(b)) => Ok(Value::Boolean(*a && *b)),
            (Value::Str(a), Value::Integer(b)) => {
                if *b >= 0 {
                    let mut out = String::new();
                    let mut i: i64 = 0;
                    while i < *b
                        invariant
                            0 <= i <= *b,
                            out@ == str_repeat(a@, i as int),
                        decreases *b - i,
                    {
                        out.append(a.as_str());
                        i = i + 1;
                    }
                    Ok(Value::Str(out))
                } else {
                    Err(Value::cannot_error("multiply", self, other))
                }
            },
            _ => Err(Value::cannot_error("multiply", self, other)),
        }
    }

    /// Divides two values: truncating integer division; dividing by zero is a
    /// runtime error.
    pub fn div(&self, other: &Value) -> (r: Result<Value, CustomError>)
        ensures
            value_result_model(r) == div_model(self@, other@),
    {
        match (self, other) {
            (Value::Integer(a), Value::Integer(b)) => {
                if *b == 0 {
                    Err(CustomError::new_operation_error("Division by zero"))
                } else {
                    match a.checked_div(*b) {
                        Some(z) => Ok(Value::Integer(z)),
                        None => Err(CustomError::new_operation_error("Integer overflow")),
                    }
                }
            },
            _ => Err(Value::cannot_error("divide", self, other)),
        }
    }

    /// Whether two values are equal: same-tag comparison; values of different
    /// tags are unequal, never an error.
    pub fn eq(&self, other: &Value) -> (r: Result<bool, CustomError>)
        ensures
            bool_result_model(r) == Ok::<bool, ErrorModel>(eq_model(self@, other@)),
    {
        let result: bool = match (self, other) {
            (Value::Integer(a), Value::Integer(b)) => *a == *b,
            (Value::Float(a), Value::Float(b)) => crate::text::string_eq(a, b),
            (Value::Str(a), Value::Str(b)) => crate::text::string_eq(a, b),
            (Value::Boolean(a), Value::Boolean(b)) => *a == *b,
            _ => false,
        };
        Ok(result)
    }

    /// Whether two values are unequal: the negation of `eq`.
    pub fn neq(&self, other: &Value) -> (r: Result<bool, CustomError>)
        ensures
            bool_result_model(r) == Ok::<bool, ErrorModel>(!eq_model(self@, other@)),
    {
        match self.eq(other) {
            Ok(eq) => Ok(!eq),
            Err(e) => Err(e),
        }
    }

    /// Whether the left value exceeds the right: integers only.
    pub fn gt(&self, other: &Value) -> (r: Result<bool, CustomError>)
        ensures
            bool_result_model(r) == if cmp_defined(self@, other@) {
                Ok::<bool, ErrorModel>(self@->Integer_0 > other@->Integer_0)
            } else {
                Err(cannot_model("compare"@, self@, other@))
            },
    {
        match (self, other) {
            (Value::Integer(a), Value::Integer(b)) => Ok(*a > *b),
            _ => Err(Value::cannot_error("compare", self, other)),
        }
    }

    /// Whether the left value is below the right: integers only.
    pub fn lt(&self, other: &Value) -> (r: Result<bool, CustomError>)
        ensures
            bool_result_model(r) == if cmp_defined(self@, other@) {
                Ok::<bool, ErrorModel>(self@->Integer_0 < other@->Integer_0)
            } else {
                Err(cannot_model("compare"@, self@, other@))
            },
    {
        match (self, other) {
            (Value::Integer(a), Value::Integer(b)) => Ok(*a < *b),
            _ => Err(Value::cannot_error("compare", self, other)),
        }
    }
}

} // verus!
