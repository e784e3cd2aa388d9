//! The error value shared by every stage of the pipeline: a human-readable
//! message together with a machine-checkable error kind.

use vstd::prelude::*;

verus! {

use vstd::string::StringExecFns;
use crate::text::push_char;

/// The abstract content of an error: its message and its kind, as character
/// sequences.
pub struct ErrorModel {
    pub message: Seq<char>,
    pub error_type: Seq<char>,
}

/// An error carrying a message and a kind such as `LexerError` or
/// `ParserError`.
#[derive(Debug)]
pub struct CustomError {
    message: String,
    error_type: String,
}

/// The model of a variable-lookup failure for the given name.
pub open spec fn variable_not_found_model(name: Seq<char>) -> ErrorModel {
    ErrorModel {
        message: "Variable "@ + name + " does not exist"@,
        error_type: "VariableNotFoundError"@,
    }
}

/// The model of an unsupported-operator failure for the given operator.
pub open spec fn operator_not_found_model(operator: char) -> ErrorModel {
    ErrorModel {
        message: "Operator "@ + seq![operator] + " not found"@,
        error_type: "OperatorNotFoundError"@,
    }
}

/// The model of a lexing failure with the given message.
pub open spec fn lexer_error_model(message: Seq<char>) -> ErrorModel {
    ErrorModel { message: message, error_type: "LexerError"@ }
}

/// The model of a parsing failure with the given message.
pub open spec fn parser_error_model(message: Seq<char>) -> ErrorModel {
    ErrorModel { message: message, error_type: "ParserError"@ }
}

/// The model of an unsupported-operand failure with the given message.
pub open spec fn operation_error_model(message: Seq<char>) -> ErrorModel {
    ErrorModel { message: message, error_type: "OperationError"@ }
}

impl View for CustomError {
    type V = ErrorModel;

    closed spec fn view(&self) -> ErrorModel {
        ErrorModel { message: self.message@, error_type: self.error_type@ }
    }
}

impl CustomError {
    /// Builds an error out of a message and a kind.
    pub fn new(message: &str, error_type: &str) -> (r: CustomError)
        ensures
            r@ == (ErrorModel { message: message@, error_type: error_type@ }),
    {
        CustomError { message: message.to_owned(), error_type: error_type.to_owned() }
    }

    /// Builds the error reported when a variable is unbound.
    pub fn new_variable_not_found_error(variable_name: &str) -> (r: CustomError)
        ensures
            r@ == variable_not_found_model(variable_name@),
    {
        let mut message = "Variable ".to_owned();
        message.append(variable_name);
        message.append(" does not exist");
        CustomError { message, error_type: "VariableNotFoundError".to_owned() }
    }

    /// Builds the error reported when an operator is unsupported.
    pub fn new_operator_not_found_error(operator: char) -> (r: CustomError)
        ensures
            r@ == operator_not_found_model(operator),
    {
        let mut message = "Operator ".to_owned();
        push_char(&mut message, operator);
        message.append(" not found");
        proof {
            assert(message@ =~= "Operator "@ + seq![operator] + " not found"@);
        }
        CustomError { message, error_type: "OperatorNotFoundError".to_owned() }
    }

    /// Builds a lexing error with the given message.
    pub fn new_lexer_error(message: &str) -> (r: CustomError)
        ensures
            r@ == lexer_error_model(message@),
    {
        CustomError { message: message.to_owned(), error_type: "LexerError".to_owned() }
    }

    /// Builds a parsing error with the given message.
    pub fn new_parser_error(message: &str) -> (r: CustomError)
        ensures
            r@ == parser_error_model(message@),
    {
        CustomError { message: message.to_owned(), error_type: "ParserError".to_owned() }
    }

    /// Builds an unsupported-operand error with the given message.
    pub fn new_operation_error(message: &str) -> (r: CustomError)
        ensures
            r@ == operation_error_model(message@),
    {
        CustomError { message: message.to_owned(), error_type: "OperationError".to_owned() }
    }

    /// Builds an error directly from owned parts.
    pub(crate) fn from_parts(message: String, error_type: String) -> (r: CustomError)
        ensures
            r@ == (ErrorModel { message: message@, error_type: error_type@ }),
    {
        CustomError { message, error_type }
    }

    /// The error's message.
    pub fn get_message(&self) -> (r: &str)
        ensures
            r@ == self@.message,
    {
        self.message.as_str()
    }

    /// The error's kind.
    pub fn get_error_type(&self) -> (r: &str)
        ensures
            r@ == self@.error_type,
    {
        self.error_type.as_str()
    }

    /// Whether two errors agree on both message and kind.
    pub fn equals(&self, error: &CustomError) -> (r: bool)
        ensures
            r == (self@.message == error@.message && self@.error_type == error@.error_type),
    {
        self.message == error.message && self.error_type == error.error_type
    }
}

} // verus!
