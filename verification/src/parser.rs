//! The parser: recursive descent over the token sequence. The top level
//! splits statements at semicolons outside braces; each statement is an
//! assignment, a `while` loop over a balanced brace block, or a standalone
//! expression. The expression grammar is deliberately flat: a single literal
//! or identifier, or exactly one `value operator value` triple — deeper
//! chains are a `ParserError`. `parse_spec` and `parse_instructions_spec` are
//! the specification, and `Parser::parse` / `Parser::parse_instructions` are
//! proved to return exactly what they describe.

use vstd::prelude::*;

verus! {

use vstd::slice::slice_subrange;
use crate::errors::{CustomError, ErrorModel, parser_error_model};
use crate::lexer::{Token, TokenKind, TokenModel, tokens_model, is_digit, is_number_char, count_char};
use crate::interpreter::{
    Valuable,
    ValuableModel,
    Instruction,
    InstructionModel,
    IntegerValue,
    FloatValue,
    StringValue,
    Variable,
    Operation,
    Condition,
    InstructionBlock,
    ConditionLoop,
    Affectation,
    insts_model,
    lemma_insts_model,
};
use crate::text::str_to_chars;

/// Whether a token can stand as an operand: an identifier, a number, or a
/// string.
pub open spec fn is_value_token(t: TokenModel) -> bool {
    t.kind == TokenKind::Identifier || t.kind == TokenKind::Number || t.kind == TokenKind::Str
}

/// The statement separator.
pub open spec fn is_semicolon(t: TokenModel) -> bool {
    t.kind == TokenKind::Semicolon && t.text == ";"@
}

/// An opening brace.
pub open spec fn is_open_brace(t: TokenModel) -> bool {
    t.kind == TokenKind::Bracket && t.text == "{"@
}

/// A closing brace.
pub open spec fn is_close_brace(t: TokenModel) -> bool {
    t.kind == TokenKind::Bracket && t.text == "}"@
}

/// The assignment token.
pub open spec fn is_assign_token(t: TokenModel) -> bool {
    t.kind == TokenKind::Assign && t.text == "="@
}

/// The `while` keyword.
pub open spec fn is_while_token(t: TokenModel) -> bool {
    t.kind == TokenKind::Keyword && t.text == "while"@
}

/// Whether the text is all decimal digits.
pub open spec fn all_digits(s: Seq<char>) -> bool {
    forall|i: int| 0 <= i < s.len() ==> is_digit(#[trigger] s[i])
}

/// The numeric value of a digit string.
pub open spec fn digits_value(s: Seq<char>) -> int
    decreases s.len(),
{
    if s.len() == 0 {
        0
    } else {
        digits_value(s.drop_last()) * 10 + (s.last() as int - 48)
    }
}

/// Whether the text is a valid integer literal that fits a 64-bit signed
/// integer.
pub open spec fn is_integer_text(s: Seq<char>) -> bool {
    s.len() >= 1 && all_digits(s) && digits_value(s) <= i64::MAX
}

/// Whether the text is a valid float literal: digits around exactly one
/// decimal point.
pub open spec fn is_float_text(s: Seq<char>) -> bool {
    s.len() >= 2 && count_char(s, '.') == 1 && (forall|i: int|
        0 <= i < s.len() ==> is_number_char(#[trigger] s[i]))
}

/// What one operand token parses to: an identifier to a variable reference, a
/// number to an integer or float literal, a string to a string literal; any
/// other token is a `ParserError`.
pub open spec fn parse_single_spec(t: TokenModel) -> Result<ValuableModel, ErrorModel> {
    if t.kind == TokenKind::Identifier {
        Ok(ValuableModel::Var(t.text))
    } else if t.kind == TokenKind::Number {
        if count_char(t.text, '.') > 0 {
            if is_float_text(t.text) {
                Ok(ValuableModel::FloatLit(t.text))
            } else {
                Err(parser_error_model("Invalid number"@))
            }
        } else {
            if is_integer_text(t.text) {
                Ok(ValuableModel::IntegerLit(digits_value(t.text) as i64))
            } else {
                Err(parser_error_model("Invalid number"@))
            }
        }
    } else if t.kind == TokenKind::Str {
        Ok(ValuableModel::StrLit(t.text))
    } else {
        Err(parser_error_model("Unexpected value: "@ + t.text))
    }
}

/// What an expression slice parses to: one operand token, or exactly the
/// shape `value operator value` — an operator token builds an operation from
/// its first character, a comparator restricted to `>` or `<` builds a
/// comparison; every other shape is a `ParserError`.
pub open spec fn parse_valuable_spec(ts: Seq<TokenModel>) -> Result<ValuableModel, ErrorModel> {
    if ts.len() == 0 {
        Err(parser_error_model("Value expected but none found"@))
    } else if ts.len() == 1 {
        parse_single_spec(ts[0])
    } else if ts.len() == 3 && is_value_token(ts[0]) && is_value_token(ts[2]) {
        if ts[1].kind == TokenKind::Operator {
            match parse_single_spec(ts[0]) {
                Err(e) => Err(e),
                Ok(l) => match parse_single_spec(ts[2]) {
                    Err(e) => Err(e),
                    Ok(r) => if ts[1].text.len() >= 1 {
                        Ok(ValuableModel::Operation(Box::new(l), Box::new(r), ts[1].text[0]))
                    } else {
                        Err(parser_error_model("Not implemented yet"@))
                    },
                },
            }
        } else if ts[1].kind == TokenKind::Comparator {
            match parse_single_spec(ts[0]) {
                Err(e) => Err(e),
                Ok(l) => match parse_single_spec(ts[2]) {
                    Err(e) => Err(e),
                    Ok(r) => if ts[1].text == ">"@ {
                        Ok(ValuableModel::Condition(Box::new(l), Box::new(r), '>'))
                    } else if ts[1].text == "<"@ {
                        Ok(ValuableModel::Condition(Box::new(l), Box::new(r), '<'))
                    } else {
                        Err(parser_error_model("Not implemented yet"@))
                    },
                },
            }
        } else {
            Err(parser_error_model("Not implemented yet"@))
        }
    } else {
        Err(parser_error_model("Not implemented yet"@))
    }
}

/// The position of the statement boundary: the first semicolon at or after
/// `j` outside braces, tracking the brace depth; the length when there is
/// none.
pub open spec fn stmt_end(ts: Seq<TokenModel>, j: int, depth: int) -> int
    decreases ts.len() - j,
{
    if j < 0 || j >= ts.len() {
        ts.len() as int
    } else if is_semicolon(ts[j]) && depth == 0 {
        j
    } else {
        stmt_end(
            ts,
            j + 1,
            depth + if is_open_brace(ts[j]) {
                1int
            } else if is_close_brace(ts[j]) {
                -1int
            } else {
                0int
            },
        )
    }
}

/// The statement boundary lies between `j` and the length.
pub proof fn lemma_stmt_end(ts: Seq<TokenModel>, j: int, depth: int)
    requires
        0 <= j <= ts.len(),
    ensures
        j <= stmt_end(ts, j, depth) <= ts.len(),
    decreases ts.len() - j,
{
    if j < ts.len() && !(is_semicolon(ts[j]) && depth == 0) {
        lemma_stmt_end(
            ts,
            j + 1,
            depth + if is_open_brace(ts[j]) {
                1int
            } else if is_close_brace(ts[j]) {
                -1int
            } else {
                0int
            },
        );
    }
}

/// The first opening brace at or after `j`; the length when there is none.
pub open spec fn find_open_brace(ts: Seq<TokenModel>, j: int) -> int
    decreases ts.len() - j,
{
    if j < 0 || j >= ts.len() {
        ts.len() as int
    } else if is_open_brace(ts[j]) {
        j
    } else {
        find_open_brace(ts, j + 1)
    }
}

/// The opening-brace position lies between `j` and the length.
pub proof fn lemma_find_open_brace(ts: Seq<TokenModel>, j: int)
    requires
        0 <= j <= ts.len(),
    ensures
        j <= find_open_brace(ts, j) <= ts.len(),
    decreases ts.len() - j,
{
    if j < ts.len() && !is_open_brace(ts[j]) {
        lemma_find_open_brace(ts, j + 1);
    }
}

/// The closing brace matching the depth at `j`: the first closing brace at or
/// after `j` with every brace opened in between closed again; the length when
/// there is none.
pub open spec fn find_close_brace(ts: Seq<TokenModel>, j: int, depth: int) -> int
    decreases ts.len() - j,
{
    if j < 0 || j >= ts.len() {
        ts.len() as int
    } else if is_close_brace(ts[j]) && depth == 0 {
        j
    } else {
        find_close_brace(
            ts,
            j + 1,
            depth + if is_open_brace(ts[j]) {
                1int
            } else if is_close_brace(ts[j]) {
                -1int
            } else {
                0int
            },
        )
    }
}

/// The closing-brace position lies between `j` and the length.
pub proof fn lemma_find_close_brace(ts: Seq<TokenModel>, j: int, depth: int)
    requires
        0 <= j <= ts.len(),
    ensures
        j <= find_close_brace(ts, j, depth) <= ts.len(),
    decreases ts.len() - j,
{
    if j < ts.len() && !(is_close_brace(ts[j]) && depth == 0) {
        lemma_find_close_brace(
            ts,
            j + 1,
            depth + if is_open_brace(ts[j]) {
                1int
            } else if is_close_brace(ts[j]) {
                -1int
            } else {
                0int
            },
        );
    }
}

/// What one statement slice parses to, dispatching on its first token: an
/// identifier followed by `=` is an assignment of the remainder parsed as an
/// expression; the `while` keyword takes the tokens before the first `{` as
/// its condition and the balanced brace span as its body; anything else is a
/// standalone expression statement, whose failure reports the unexpected
/// first token.
pub open spec fn parse_spec(ts: Seq<TokenModel>) -> Result<InstructionModel, ErrorModel>
    decreases ts.len(), 0int,
    via parse_spec_decreases
{
    if ts.len() == 0 {
        Err(parser_error_model("No tokens to parse"@))
    } else if ts[0].kind == TokenKind::Identifier && ts.len() > 1 && is_assign_token(ts[1]) {
        if ts.len() < 3 {
            Err(parser_error_model("Value expected but none found"@))
        } else {
            match parse_valuable_spec(ts.subrange(2, ts.len() as int)) {
                Ok(v) => Ok(InstructionModel::Affectation(ts[0].text, v)),
                Err(e) => Err(e),
            }
        }
    } else if is_while_token(ts[0]) {
        let i = find_open_brace(ts, 1);
        if i >= ts.len() {
            Err(parser_error_model("'{' expected but none found"@))
        } else {
            match parse_valuable_spec(ts.subrange(1, i)) {
                Err(e) => Err(e),
                Ok(cond) => {
                    let j = find_close_brace(ts, i + 1, 0);
                    if j >= ts.len() {
                        Err(parser_error_model("'}' expected but none found"@))
                    } else {
                        match parse_instructions_spec(ts.subrange(i + 1, j)) {
                            Err(e) => Err(e),
                            Ok(body) => Ok(InstructionModel::ConditionLoop(cond, body)),
                        }
                    }
                },
            }
        }
    } else {
        match parse_valuable_spec(ts) {
            Ok(v) => Ok(InstructionModel::Eval(v)),
            Err(_) => Err(parser_error_model("Unexpected token: "@ + ts[0].text)),
        }
    }
}

#[via_fn]
proof fn parse_spec_decreases(ts: Seq<TokenModel>) {
    if ts.len() > 0 {
        lemma_find_open_brace(ts, 1);
        let i = find_open_brace(ts, 1);
        if 1 <= i + 1 <= ts.len() {
            lemma_find_close_brace(ts, i + 1, 0);
        }
    }
}

/// What a token sequence parses to: statements split at semicolons outside
/// braces, each slice parsed on its own; the first failing slice aborts the
/// whole parse with its error.
pub open spec fn parse_instructions_spec(ts: Seq<TokenModel>) -> Result<
    Seq<InstructionModel>,
    ErrorModel,
>
    decreases ts.len(), 1int,
    via parse_instructions_spec_decreases
{
    if ts.len() == 0 {
        Ok(Seq::empty())
    } else {
        let e = stmt_end(ts, 0, 0);
        match parse_spec(ts.subrange(0, e)) {
            Err(err) => Err(err),
            Ok(inst) => {
                let next = if e + 1 <= ts.len() {
                    e + 1
                } else {
                    ts.len() as int
                };
                match parse_instructions_spec(ts.subrange(next, ts.len() as int)) {
                    Err(err) => Err(err),
                    Ok(rest) => Ok(seq![inst] + rest),
                }
            },
        }
    }
}

#[via_fn]
proof fn parse_instructions_spec_decreases(ts: Seq<TokenModel>) {
    lemma_stmt_end(ts, 0, 0);
}

/// Lifts an expression parse result to its model.
pub open spec fn valuable_result_model(r: Result<Valuable, CustomError>) -> Result<
    ValuableModel,
    ErrorModel,
> {
    match r {
        Ok(v) => Ok(v@),
        Err(e) => Err(e@),
    }
}

/// Lifts a statement parse result to its model.
pub open spec fn instruction_result_model(r: Result<Instruction, CustomError>) -> Result<
    InstructionModel,
    ErrorModel,
> {
    match r {
        Ok(v) => Ok(v@),
        Err(e) => Err(e@),
    }
}

/// Lifts a statement-list parse result to its model.
pub open spec fn instructions_result_model(r: Result<Vec<Instruction>, CustomError>) -> Result<
    Seq<InstructionModel>,
    ErrorModel,
> {
    match r {
        Ok(v) => Ok(insts_model(v@)),
        Err(e) => Err(e@),
    }
}

/// A digit string's value never shrinks as more digits follow.
proof fn lemma_digits_value_monotone(s: Seq<char>, k: int)
    requires
        all_digits(s),
        0 <= k <= s.len(),
    ensures
        digits_value(s) >= digits_value(s.subrange(0, k)),
        digits_value(s) >= 0,
    decreases s.len() - k,
{
    lemma_digits_value_nonneg(s);
    if k < s.len() {
        lemma_digits_value_monotone(s, k + 1);
        let a = s.subrange(0, k);
        let b = s.subrange(0, k + 1);
        assert(b.drop_last() =~= a);
        lemma_digits_value_nonneg(a);
        assert(digits_value(b) == digits_value(a) * 10 + (b.last() as int - 48));
        assert(digits_value(a) * 10 >= digits_value(a)) by {
            assert(digits_value(a) >= 0);
        }
        assert(b.last() as int - 48 >= 0) by {
            assert(is_digit(s[k]));
        }
    } else {
        assert(s.subrange(0, k) =~= s);
    }
}

/// A digit string's value is never negative.
proof fn lemma_digits_value_nonneg(s: Seq<char>)
    requires
        all_digits(s),
    ensures
        digits_value(s) >= 0,
    decreases s.len(),
{
    if s.len() > 0 {
        assert(all_digits(s.drop_last())) by {
            assert(forall|i: int|
                0 <= i < s.len() - 1 ==> is_digit(#[trigger] s.drop_last()[i]) == is_digit(s[i]));
        }
        lemma_digits_value_nonneg(s.drop_last());
        assert(is_digit(s[s.len() - 1]));
    }
}

/// Reads a digit string as a 64-bit signed integer; `None` when the text is
/// not all digits, is empty, or does not fit.
fn parse_integer_text(text: &str) -> (r: Option<i64>)
    ensures
        match r {
            Some(v) => is_integer_text(text@) && v == digits_value(text@),
            None => !is_integer_text(text@),
        },
{
    let chars = str_to_chars(text);
    let ghost s = text@;
    let n = chars.len();
    if n == 0 {
        return None;
    }
    let mut acc: i64 = 0;
    let mut k: usize = 0;
    while k < n
        invariant
            k <= n,
            n == s.len(),
            s == text@,
            chars@ == s,
            acc == digits_value(s.subrange(0, k as int)),
            acc >= 0,
            all_digits(s.subrange(0, k as int)),
        decreases n - k,
    {
        let c = chars[k];
        if !('0' <= c && c <= '9') {
            proof {
                assert(!is_digit(s[k as int]));
            }
            return None;
        }
        let d = (c as u32 - 48) as i64;
        proof {
            assert(s.subrange(0, k as int + 1).drop_last() =~= s.subrange(0, k as int));
            assert(s.subrange(0, k as int + 1).last() == s[k as int]);
            assert(all_digits(s.subrange(0, k as int + 1))) by {
                assert(forall|i: int|
                    0 <= i < k as int + 1 ==> #[trigger] s.subrange(0, k as int + 1)[i] == s[i]);
            }
        }
        let next = match acc.checked_mul(10) {
            Some(m) => m.checked_add(d),
            None => None,
        };
        match next {
            Some(v) => {
                acc = v;
            },
            None => {
                proof {
                    if all_digits(s) {
                        assert(digits_value(s.subrange(0, k as int + 1)) > i64::MAX);
                        lemma_digits_value_monotone(s, k as int + 1);
                    }
                }
                return None;
            },
        }
        k = k + 1;
    }
    proof {
        assert(s.subrange(0, n as int) =~= s);
    }
    Some(acc)
}

/// Whether the text is a valid float literal: digits around exactly one
/// decimal point.
fn check_float_text(text: &str) -> (r: bool)
    ensures
        r == is_float_text(text@),
{
    let chars = str_to_chars(text);
    let ghost s = text@;
    let n = chars.len();
    if n < 2 {
        proof {
            assert(!is_float_text(s));
        }
        return false;
    }
    let mut dots: usize = 0;
    let mut k: usize = 0;
    let mut ok = true;
    while k < n
        invariant
            k <= n,
            n == s.len(),
            chars@ == s,
            dots <= k,
            dots == count_char(s.subrange(0, k as int), '.'),
            ok == (forall|i: int| 0 <= i < k as int ==> is_number_char(#[trigger] s[i])),
        decreases n - k,
    {
        let c = chars[k];
        proof {
            assert(s.subrange(0, k as int + 1).drop_last() =~= s.subrange(0, k as int));
            assert(s.subrange(0, k as int + 1).last() == s[k as int]);
        }
        if c == '.' {
            dots = dots + 1;
        } else if !('0' <= c && c <= '9') {
            ok = false;
        }
        k = k + 1;
    }
    proof {
        assert(s.subrange(0, n as int) =~= s);
    }
    ok && dots == 1
}

/// Copies one stretch of a token list.
fn sub_tokens(tokens: &Vec<Token>, from: usize, to: usize) -> (r: Vec<Token>)
    requires
        from <= to <= tokens@.len(),
    ensures
        tokens_model(r@) == tokens_model(tokens@).subrange(from as int, to as int),
        r@.len() == to - from,
{
    let mut out: Vec<Token> = Vec::new();
    let mut k = from;
    while k < to
        invariant
            from <= k <= to <= tokens@.len(),
            out@.len() == k - from,
            forall|i: int| 0 <= i < out@.len() ==> out@[i]@ == tokens@[from + i]@,
        decreases to - k,
    {
        out.push(tokens[k].clone());
        k = k + 1;
    }
    proof {
        assert(tokens_model(out@) =~= tokens_model(tokens@).subrange(from as int, to as int));
    }
    out
}

/// The recursive-descent parser over token sequences.
pub struct Parser {}

impl Parser {
    /// A parser.
    pub fn new() -> Parser {
        Parser {  }
    }

    /// Whether a token can stand as an operand: an identifier, a number, or a
    /// string.
    fn is_value(token: &Token) -> (r: bool)
        ensures
            r == is_value_token(token@),
    {
        let k = token.kind();
        k == TokenKind::Identifier || k == TokenKind::Number || k == TokenKind::Str
    }

    /// Parses one operand token.
    fn parse_single(&self, token: &Token) -> (r: Result<Valuable, CustomError>)
        ensures
            valuable_result_model(r) == parse_single_spec(token@),
    {
        let kind = token.kind();
        if kind == TokenKind::Identifier {
            Ok(Valuable::Variable(Variable::new(token.get_value())))
        } else if kind == TokenKind::Number {
            let text = token.get_value();
            let chars = str_to_chars(text);
            let mut dots: usize = 0;
            let mut k: usize = 0;
            let n = chars.len();
            while k < n
                invariant
                    k <= n,
                    n == text@.len(),
                    chars@ == text@,
                    dots <= k,
                    dots == count_char(text@.subrange(0, k as int), '.'),
                decreases n - k,
            {
                proof {
                    assert(text@.subrange(0, k as int + 1).drop_last() =~= text@.subrange(
                        0,
                        k as int,
                    ));
                    assert(text@.subrange(0, k as int + 1).last() == text@[k as int]);
                }
                if chars[k] == '.' {
                    dots = dots + 1;
                }
                k = k + 1;
            }
            proof {
                assert(text@.subrange(0, n as int) =~= text@);
            }
            let has_dot = dots > 0;
            if has_dot {
                if check_float_text(text) {
                    Ok(Valuable::Float(FloatValue::new(text)))
                } else {
                    Err(CustomError::new_parser_error("Invalid number"))
                }
            } else {
                match parse_integer_text(text) {
                    Some(v) => Ok(Valuable::Integer(IntegerValue::new(v))),
                    None => Err(CustomError::new_parser_error("Invalid number")),
                }
            }
        } else if kind == TokenKind::Str {
            Ok(Valuable::Str(StringValue::new(token.get_value())))
        } else {
            let mut message = "Unexpected value: ".to_owned();
            crate::text::push_str(&mut message, token.get_value());
            Err(CustomError::from_parts(message, "ParserError".to_owned()))
        }
    }

    /// Parses an expression slice: one operand token or exactly the shape
    /// `value operator value`, as `parse_valuable_spec` describes.
    fn get_valuable(&self, tokens: &[Token]) -> (r: Result<Valuable, CustomError>)
        ensures
            valuable_result_model(r) == parse_valuable_spec(tokens_model(tokens@)),
    {
        let n = tokens.len();
        if n == 0 {
            Err(CustomError::new_parser_error("Value expected but none found"))
        } else if n == 1 {
            self.parse_single(&tokens[0])
        } else if n == 3 && Parser::is_value(&tokens[0]) && Parser::is_value(&tokens[2]) {
            let middle_kind = tokens[1].kind();
            if middle_kind == TokenKind::Operator {
                let left = match self.parse_single(&tokens[0]) {
                    Ok(v) => v,
                    Err(e) => {
                        return Err(e);
                    },
                };
                let right = match self.parse_single(&tokens[2]) {
                    Ok(v) => v,
                    Err(e) => {
                        return Err(e);
                    },
                };
                let op_chars = str_to_chars(tokens[1].get_value());
                if op_chars.len() >= 1 {
                    Ok(Valuable::Operation(Box::new(Operation::new(left, right, op_chars[0]))))
                } else {
                    Err(CustomError::new_parser_error("Not implemented yet"))
                }
            } else if middle_kind == TokenKind::Comparator {
                let left = match self.parse_single(&tokens[0]) {
                    Ok(v) => v,
                    Err(e) => {
                        return Err(e);
                    },
                };
                let right = match self.parse_single(&tokens[2]) {
                    Ok(v) => v,
                    Err(e) => {
                        return Err(e);
                    },
                };
                if tokens[1].has_text(">") {
                    Ok(Valuable::Condition(Box::new(Condition::new(left, right, '>'))))
                } else if tokens[1].has_text("<") {
                    Ok(Valuable::Condition(Box::new(Condition::new(left, right, '<'))))
                } else {
                    Err(CustomError::new_parser_error("Not implemented yet"))
                }
            } else {
                Err(CustomError::new_parser_error("Not implemented yet"))
            }
        } else {
            Err(CustomError::new_parser_error("Not implemented yet"))
        }
    }

    /// Parses one statement, dispatching on its first token, exactly as
    /// `parse_spec` describes.
    pub fn parse(&self, tokens: Vec<Token>) -> (r: Result<Instruction, CustomError>)
        ensures
            instruction_result_model(r) == parse_spec(tokens_model(tokens@)),
        decreases tokens_model(tokens@).len(), 0int,
    {
        let ghost tm = tokens_model(tokens@);
        let n = tokens.len();
        if n == 0 {
            return Err(CustomError::new_parser_error("No tokens to parse"));
        }
        let assign_head = tokens[0].kind() == TokenKind::Identifier && n > 1 && tokens[1].kind()
            == TokenKind::Assign && tokens[1].has_text("=");
        if assign_head {
            if n < 3 {
                return Err(CustomError::new_parser_error("Value expected but none found"));
            }
            let rest = slice_subrange(tokens.as_slice(), 2, n);
            proof {
                assert(tokens_model(rest@) =~= tm.subrange(2, n as int));
            }
            match self.get_valuable(rest) {
                Ok(v) => {
                    return Ok(
                        Instruction::Affectation(Affectation::new(tokens[0].get_value(), v)),
                    );
                },
                Err(e) => {
                    return Err(e);
                },
            }
        }
        let while_head = tokens[0].kind() == TokenKind::Keyword && tokens[0].has_text("while");
        if while_head {
            let mut i: usize = 1;
            proof {
                lemma_find_open_brace(tm, 1);
            }
            while i < n && !(tokens[i].kind() == TokenKind::Bracket && tokens[i].has_text("{"))
                invariant
                    1 <= i <= n,
                    n == tm.len(),
                    tm == tokens_model(tokens@),
                    find_open_brace(tm, 1) == find_open_brace(tm, i as int),
                decreases n - i,
            {
                proof {
                    assert(tm[i as int] == tokens@[i as int]@);
                }
                i = i + 1;
            }
            proof {
                assert(find_open_brace(tm, i as int) == if i < n {
                    i as int
                } else {
                    tm.len() as int
                });
            }
            if i >= n {
                return Err(CustomError::new_parser_error("'{' expected but none found"));
            }
            let cond_slice = slice_subrange(tokens.as_slice(), 1, i);
            proof {
                assert(tokens_model(cond_slice@) =~= tm.subrange(1, i as int));
            }
            let cond = match self.get_valuable(cond_slice) {
                Ok(v) => v,
                Err(e) => {
                    return Err(e);
                },
            };
            let mut j: usize = i + 1;
            let mut depth: i128 = 0;
            proof {
                lemma_find_close_brace(tm, i as int + 1, 0);
            }
            while j < n && !(tokens[j].kind() == TokenKind::Bracket && tokens[j].has_text("}")
                && depth == 0)
                invariant
                    i as int + 1 <= j as int <= n,
                    n == tm.len(),
                    tm == tokens_model(tokens@),
                    find_close_brace(tm, i as int + 1, 0) == find_close_brace(
                        tm,
                        j as int,
                        depth as int,
                    ),
                    -(j as int) <= depth <= j as int,
                decreases n - j,
            {
                proof {
                    assert(tm[j as int] == tokens@[j as int]@);
                }
                if tokens[j].kind() == TokenKind::Bracket && tokens[j].has_text("{") {
                    depth = depth + 1;
                } else if tokens[j].kind() == TokenKind::Bracket && tokens[j].has_text("}") {
                    depth = depth - 1;
                }
                j = j + 1;
            }
            proof {
                if j < n {
                    assert(tm[j as int] == tokens@[j as int]@);
                }
                assert(find_close_brace(tm, j as int, depth as int) == if j < n {
                    j as int
                } else {
                    tm.len() as int
                });
            }
            if j >= n {
                return Err(CustomError::new_parser_error("'}' expected but none found"));
            }
            let body_tokens = sub_tokens(&tokens, i + 1, j);
            let body = match self.parse_instructions(body_tokens) {
                Ok(b) => b,
                Err(e) => {
                    return Err(e);
                },
            };
            return Ok(
                Instruction::ConditionLoop(
                    Box::new(ConditionLoop::new(cond, InstructionBlock::new(body))),
                ),
            );
        }
        let whole = slice_subrange(tokens.as_slice(), 0, n);
        proof {
            assert(tokens_model(whole@) =~= tm);
        }
        match self.get_valuable(whole) {
            Ok(v) => Ok(Instruction::Valuable(v)),
            Err(_) => {
                let mut message = "Unexpected token: ".to_owned();
                crate::text::push_str(&mut message, tokens[0].get_value());
                Err(CustomError::from_parts(message, "ParserError".to_owned()))
            },
        }
    }

    /// Splits the token sequence into statements at semicolons outside braces
    /// and parses each slice, exactly as `parse_instructions_spec` describes.
    pub fn parse_instructions(&self, tokens: Vec<Token>) -> (r: Result<
        Vec<Instruction>,
        CustomError,
    >)
        ensures
            instructions_result_model(r) == parse_instructions_spec(tokens_model(tokens@)),
        decreases tokens_model(tokens@).len(), 1int,
    {
        let ghost tm = tokens_model(tokens@);
        let n = tokens.len();
        let mut instructions: Vec<Instruction> = Vec::new();
        let mut i: usize = 0;
        proof {
            assert(insts_model(instructions@) =~= Seq::<InstructionModel>::empty());
            assert(tm.subrange(0, n as int) =~= tm);
            match parse_instructions_spec(tm) {
                Ok(ts) => {
                    assert(Seq::<InstructionModel>::empty() + ts =~= ts);
                },
                Err(_) => {},
            }
        }
        while i < n
            invariant
                i <= n,
                n == tm.len(),
                tm == tokens_model(tokens@),
                inst_prepend(insts_model(instructions@), parse_instructions_spec(
                    tm.subrange(i as int, n as int),
                )) == parse_instructions_spec(tm),
            decreases n - i,
        {
            let ghost suf = tm.subrange(i as int, n as int);
            let mut j: usize = i;
            let mut depth: i128 = 0;
            proof {
                lemma_stmt_end(suf, 0, 0);
            }
            while j < n && !(tokens[j].kind() == TokenKind::Semicolon && tokens[j].has_text(";")
                && depth == 0)
                invariant
                    i as int <= j as int <= n,
                    n == tm.len(),
                    tm == tokens_model(tokens@),
                    suf == tm.subrange(i as int, n as int),
                    stmt_end(suf, 0, 0) == stmt_end(suf, j as int - i as int, depth as int),
                    -(j as int + 1) <= depth <= j as int + 1,
                decreases n - j,
            {
                proof {
                    assert(suf[j as int - i as int] == tm[j as int]);
                    assert(tm[j as int] == tokens@[j as int]@);
                }
                if tokens[j].kind() == TokenKind::Bracket && tokens[j].has_text("{") {
                    depth = depth + 1;
                } else if tokens[j].kind() == TokenKind::Bracket && tokens[j].has_text("}") {
                    depth = depth - 1;
                }
                j = j + 1;
            }
            proof {
                if j < n {
                    assert(suf[j as int - i as int] == tm[j as int]);
                    assert(tm[j as int] == tokens@[j as int]@);
                }
                assert(stmt_end(suf, j as int - i as int, depth as int) == if j < n {
                    j as int - i as int
                } else {
                    suf.len() as int
                });
            }
            let chunk = sub_tokens(&tokens, i, j);
            proof {
                assert(tokens_model(chunk@) =~= suf.subrange(0, j as int - i as int));
            }
            let inst = match self.parse(chunk) {
                Ok(v) => v,
                Err(e) => {
                    return Err(e);
                },
            };
            proof {
                lemma_insts_model(instructions@);
                lemma_insts_model(instructions@.push(inst));
                let e = stmt_end(suf, 0, 0);
                let next = if e + 1 <= suf.len() {
                    e + 1
                } else {
                    suf.len() as int
                };
                assert(tm.subrange(i as int, n as int).subrange(next, suf.len() as int)
                    =~= tm.subrange(i as int + next, n as int));
                assert(insts_model(instructions@.push(inst)) =~= insts_model(instructions@)
                    + seq![inst@]);
                lemma_inst_prepend(insts_model(instructions@), inst@, parse_instructions_spec(
                    tm.subrange(i as int + next, n as int),
                ));
            }
            instructions.push(inst);
            if j >= n {
                i = n;
            } else {
                i = j + 1;
            }
        }
        proof {
            assert(tm.subrange(n as int, n as int) =~= Seq::<TokenModel>::empty());
            lemma_insts_model(instructions@);
            assert(insts_model(instructions@) + Seq::<InstructionModel>::empty() =~= insts_model(
                instructions@,
            ));
        }
        Ok(instructions)
    }
}

/// Prefixes a parsed-statement list onto a parse outcome.
pub open spec fn inst_prepend(
    pre: Seq<InstructionModel>,
    r: Result<Seq<InstructionModel>, ErrorModel>,
) -> Result<Seq<InstructionModel>, ErrorModel> {
    match r {
        Ok(ts) => Ok(pre + ts),
        Err(e) => Err(e),
    }
}

/// Appending one statement to the prefix and prepending it to the rest agree.
proof fn lemma_inst_prepend(
    pre: Seq<InstructionModel>,
    t: InstructionModel,
    r: Result<Seq<InstructionModel>, ErrorModel>,
)
    ensures
        inst_prepend(pre + seq![t], r) == inst_prepend(pre, inst_prepend(seq![t], r)),
{
    match r {
        Ok(ts) => {
            assert((pre + seq![t]) + ts =~= pre + (seq![t] + ts));
        },
        Err(_) => {},
    }
}

} // verus!
