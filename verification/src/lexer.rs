//! The lexer: a single left-to-right pass that turns source text into tokens,
//! longest match per category. `lex_from` is the specification — a recursive
//! function over the character sequence — and `Lexer::lex` is proved to
//! return exactly what it describes.

use vstd::prelude::*;

verus! {

use vstd::slice::slice_subrange;
use crate::errors::{CustomError, ErrorModel, lexer_error_model};
use crate::text::{chars_to_string, char_to_string, str_to_chars, string_eq};

/// The category of a token.
#[derive(Clone, Copy, PartialEq, Eq, Structural)]
pub enum TokenKind {
    Identifier,
    Keyword,
    Number,
    Str,
    Operator,
    Comparator,
    Assign,
    Semicolon,
    Parenthesis,
    Bracket,
}

/// The abstract content of a token: its category and its text.
pub struct TokenModel {
    pub kind: TokenKind,
    pub text: Seq<char>,
}

/// One lexical unit, produced by the lexer and consumed read-only by the
/// parser.
pub struct Token {
    kind: TokenKind,
    value: String,
}

/// How each token category names itself.
pub open spec fn kind_label(k: TokenKind) -> Seq<char> {
    match k {
        TokenKind::Identifier => "IDENTIFIER"@,
        TokenKind::Keyword => "KEYWORD"@,
        TokenKind::Number => "NUMBER"@,
        TokenKind::Str => "STRING"@,
        TokenKind::Operator => "OPERATOR"@,
        TokenKind::Comparator => "COMPARATOR"@,
        TokenKind::Assign => "ASSIGN"@,
        TokenKind::Semicolon => "SEMICOLON"@,
        TokenKind::Parenthesis => "PARENTHESIS"@,
        TokenKind::Bracket => "BRACKET"@,
    }
}

impl View for Token {
    type V = TokenModel;

    closed spec fn view(&self) -> TokenModel {
        TokenModel { kind: self.kind, text: self.value@ }
    }
}

impl Clone for Token {
    /// A copy of this token.
    fn clone(&self) -> (r: Token)
        ensures
            r@ == self@,
    {
        Token { kind: self.kind, value: self.value.clone() }
    }
}

impl Token {
    /// Builds an identifier token.
    pub fn new_identifier(value: &str) -> (t: Token)
        ensures
            t@ == (TokenModel { kind: TokenKind::Identifier, text: value@ }),
    {
        Token { kind: TokenKind::Identifier, value: value.to_owned() }
    }

    /// Builds an assignment token.
    pub fn new_assign(value: &str) -> (t: Token)
        ensures
            t@ == (TokenModel { kind: TokenKind::Assign, text: value@ }),
    {
        Token { kind: TokenKind::Assign, value: value.to_owned() }
    }

    /// Builds a number token.
    pub fn new_number(value: &str) -> (t: Token)
        ensures
            t@ == (TokenModel { kind: TokenKind::Number, text: value@ }),
    {
        Token { kind: TokenKind::Number, value: value.to_owned() }
    }

    /// Builds a string token.
    pub fn new_string(value: &str) -> (t: Token)
        ensures
            t@ == (TokenModel { kind: TokenKind::Str, text: value@ }),
    {
        Token { kind: TokenKind::Str, value: value.to_owned() }
    }

    /// Builds an operator token.
    pub fn new_operator(value: &str) -> (t: Token)
        ensures
            t@ == (TokenModel { kind: TokenKind::Operator, text: value@ }),
    {
        Token { kind: TokenKind::Operator, value: value.to_owned() }
    }

    /// Builds a comparator token.
    pub fn new_comparator(value: &str) -> (t: Token)
        ensures
            t@ == (TokenModel { kind: TokenKind::Comparator, text: value@ }),
    {
        Token { kind: TokenKind::Comparator, value: value.to_owned() }
    }

    /// Builds the statement-separator token.
    pub fn new_semicolon() -> (t: Token)
        ensures
            t@ == (TokenModel { kind: TokenKind::Semicolon, text: ";"@ }),
    {
        Token { kind: TokenKind::Semicolon, value: ";".to_owned() }
    }

    /// Builds a parenthesis token.
    pub fn new_parenthesis(value: &str) -> (t: Token)
        ensures
            t@ == (TokenModel { kind: TokenKind::Parenthesis, text: value@ }),
    {
        Token { kind: TokenKind::Parenthesis, value: value.to_owned() }
    }

    /// Builds a brace token.
    pub fn new_bracket(value: &str) -> (t: Token)
        ensures
            t@ == (TokenModel { kind: TokenKind::Bracket, text: value@ }),
    {
        Token { kind: TokenKind::Bracket, value: value.to_owned() }
    }

    /// Builds a keyword token.
    pub fn new_keyword(value: &str) -> (t: Token)
        ensures
            t@ == (TokenModel { kind: TokenKind::Keyword, text: value@ }),
    {
        Token { kind: TokenKind::Keyword, value: value.to_owned() }
    }

    /// The name of this token's category.
    pub fn get_token_type(&self) -> (r: &str)
        ensures
            r@ == kind_label(self@.kind),
    {
        match self.kind {
            TokenKind::Identifier => "IDENTIFIER",
            TokenKind::Keyword => "KEYWORD",
            TokenKind::Number => "NUMBER",
            TokenKind::Str => "STRING",
            TokenKind::Operator => "OPERATOR",
            TokenKind::Comparator => "COMPARATOR",
            TokenKind::Assign => "ASSIGN",
            TokenKind::Semicolon => "SEMICOLON",
            TokenKind::Parenthesis => "PARENTHESIS",
            TokenKind::Bracket => "BRACKET",
        }
    }

    /// This token's text.
    pub fn get_value(&self) -> (r: &str)
        ensures
            r@ == self@.text,
    {
        self.value.as_str()
    }

    /// Whether two tokens agree on both category and text.
    pub fn equals(&self, token: &Token) -> (r: bool)
        ensures
            r == (self@.kind == token@.kind && self@.text == token@.text),
    {
        self.kind == token.kind && string_eq(&self.value, &token.value)
    }

    /// This token's category.
    pub(crate) fn kind(&self) -> (r: TokenKind)
        ensures
            r == self@.kind,
    {
        self.kind
    }

    /// Whether this token's text is exactly the given string.
    pub(crate) fn has_text(&self, s: &str) -> (r: bool)
        ensures
            r == (self@.text == s@),
    {
        crate::text::string_eq(&self.value, &s.to_owned())
    }
}

/// Whitespace skipped between tokens: space, tab, carriage return, line feed.
pub open spec fn is_space(c: char) -> bool {
    c == ' ' || c == '\t' || c == '\r' || c == '\n'
}

/// An ASCII letter.
pub open spec fn is_letter(c: char) -> bool {
    ('a' <= c && c <= 'z') || ('A' <= c && c <= 'Z')
}

/// An ASCII digit.
pub open spec fn is_digit(c: char) -> bool {
    '0' <= c && c <= '9'
}

/// A character that may continue an identifier run.
pub open spec fn is_ident_char(c: char) -> bool {
    is_letter(c) || is_digit(c) || c == '_'
}

/// A character that may continue a number run.
pub open spec fn is_number_char(c: char) -> bool {
    is_digit(c) || c == '.'
}

/// A character that may continue a comparator run.
pub open spec fn is_comparator_char(c: char) -> bool {
    c == '>' || c == '<' || c == '='
}

/// A single-character arithmetic operator.
pub open spec fn is_operator_char(c: char) -> bool {
    c == '+' || c == '-' || c == '*' || c == '/'
}

/// The reserved words of the language.
pub open spec fn is_keyword(text: Seq<char>) -> bool {
    text == "while"@ || text == "if"@ || text == "else"@
}

/// The predicate for identifier runs.
pub open spec fn ident_pred() -> spec_fn(char) -> bool {
    |c: char| is_ident_char(c)
}

/// The predicate for number runs.
pub open spec fn number_pred() -> spec_fn(char) -> bool {
    |c: char| is_number_char(c)
}

/// The predicate for comparator runs.
pub open spec fn comparator_pred() -> spec_fn(char) -> bool {
    |c: char| is_comparator_char(c)
}

/// The predicate scanning up to (but not including) the given character.
pub open spec fn not_char_pred(t: char) -> spec_fn(char) -> bool {
    |c: char| c != t
}

/// The first position at or after `k` whose character fails `p`; the length
/// when every remaining character satisfies `p`.
pub open spec fn scan_while(cs: Seq<char>, k: int, p: spec_fn(char) -> bool) -> int
    decreases cs.len() - k,
{
    if k < 0 || k >= cs.len() {
        cs.len() as int
    } else if !p(cs[k]) {
        k
    } else {
        scan_while(cs, k + 1, p)
    }
}

/// Where `scan_while` lands: past a run of characters satisfying `p`, ending
/// at the length or at the first character failing `p`.
pub proof fn lemma_scan_while(cs: Seq<char>, k: int, p: spec_fn(char) -> bool)
    requires
        0 <= k <= cs.len(),
    ensures
        k <= scan_while(cs, k, p) <= cs.len(),
        forall|j: int| k <= j < scan_while(cs, k, p) ==> p(cs[j]),
        scan_while(cs, k, p) < cs.len() ==> !p(cs[scan_while(cs, k, p)]),
    decreases cs.len() - k,
{
    if k < cs.len() && p(cs[k]) {
        lemma_scan_while(cs, k + 1, p);
    }
}

/// How many times `c` occurs in `s`.
pub open spec fn count_char(s: Seq<char>, c: char) -> int
    decreases s.len(),
{
    if s.len() == 0 {
        0
    } else {
        count_char(s.drop_last(), c) + if s.last() == c {
            1int
        } else {
            0int
        }
    }
}

/// Prefixes a token list onto a lexing outcome.
pub open spec fn lex_prepend(
    pre: Seq<TokenModel>,
    r: Result<Seq<TokenModel>, ErrorModel>,
) -> Result<Seq<TokenModel>, ErrorModel> {
    match r {
        Ok(ts) => Ok(pre + ts),
        Err(e) => Err(e),
    }
}

/// The end of the token run starting at `i`: the run continues with `p` from
/// the following position.
pub open spec fn run_end(cs: Seq<char>, i: int, p: spec_fn(char) -> bool) -> int {
    scan_while(cs, i + 1, p)
}

/// What lexing yields from position `i` on: the token sequence of the rest of
/// the input, or the first lexing error.
///
/// Single pass, left to right, longest match per category: comments and
/// whitespace are skipped; parentheses, braces and semicolons are single
/// characters; a run starting with a letter or underscore is an identifier or
/// a reserved keyword; a run of digits and dots is a number, with more than
/// one dot an error; quoted text is a string, unterminated an error; `+ - * /`
/// are operators; a run of `> < =` starting with `>` or `<` is a comparator;
/// a lone `=` is the assignment token; anything else is an error.
pub open spec fn lex_from(cs: Seq<char>, i: int) -> Result<Seq<TokenModel>, ErrorModel>
    decreases cs.len() - i,
    via lex_from_decreases
{
    if i < 0 || i >= cs.len() {
        Ok(Seq::empty())
    } else {
        let c = cs[i];
        if c == '#' {
            let j = scan_while(cs, i + 1, not_char_pred('#'));
            if j >= cs.len() {
                Err(lexer_error_model("Comment not closed"@))
            } else {
                lex_from(cs, j + 1)
            }
        } else if is_space(c) {
            lex_from(cs, i + 1)
        } else if c == '(' || c == ')' {
            lex_prepend(
                seq![TokenModel { kind: TokenKind::Parenthesis, text: seq![c] }],
                lex_from(cs, i + 1),
            )
        } else if c == '{' || c == '}' {
            lex_prepend(
                seq![TokenModel { kind: TokenKind::Bracket, text: seq![c] }],
                lex_from(cs, i + 1),
            )
        } else if c == ';' {
            lex_prepend(
                seq![TokenModel { kind: TokenKind::Semicolon, text: ";"@ }],
                lex_from(cs, i + 1),
            )
        } else if is_letter(c) || c == '_' {
            let e = run_end(cs, i, ident_pred());
            let text = cs.subrange(i, e);
            let kind = if is_keyword(text) {
                TokenKind::Keyword
            } else {
                TokenKind::Identifier
            };
            lex_prepend(seq![TokenModel { kind: kind, text: text }], lex_from(cs, e))
        } else if is_digit(c) {
            let e = run_end(cs, i, number_pred());
            let text = cs.subrange(i, e);
            if count_char(text, '.') > 1 {
                Err(lexer_error_model("Invalid number"@))
            } else {
                lex_prepend(seq![TokenModel { kind: TokenKind::Number, text: text }], lex_from(cs, e))
            }
        } else if c == '"' {
            let j = scan_while(cs, i + 1, not_char_pred('"'));
            if j >= cs.len() {
                Err(lexer_error_model("String not closed"@))
            } else {
                lex_prepend(
                    seq![TokenModel { kind: TokenKind::Str, text: cs.subrange(i + 1, j) }],
                    lex_from(cs, j + 1),
                )
            }
        } else if is_operator_char(c) {
            lex_prepend(
                seq![TokenModel { kind: TokenKind::Operator, text: seq![c] }],
                lex_from(cs, i + 1),
            )
        } else if c == '>' || c == '<' {
            let e = run_end(cs, i, comparator_pred());
            lex_prepend(
                seq![TokenModel { kind: TokenKind::Comparator, text: cs.subrange(i, e) }],
                lex_from(cs, e),
            )
        } else if c == '=' {
            lex_prepend(
                seq![TokenModel { kind: TokenKind::Assign, text: "="@ }],
                lex_from(cs, i + 1),
            )
        } else {
            Err(lexer_error_model("Unknown character: "@ + seq![c]))
        }
    }
}

#[via_fn]
proof fn lex_from_decreases(cs: Seq<char>, i: int) {
    if 0 <= i && i < cs.len() {
        lemma_scan_while(cs, i + 1, not_char_pred('#'));
        lemma_scan_while(cs, i + 1, ident_pred());
        lemma_scan_while(cs, i + 1, number_pred());
        lemma_scan_while(cs, i + 1, not_char_pred('"'));
        lemma_scan_while(cs, i + 1, comparator_pred());
    }
}

/// The models of a token list.
pub open spec fn tokens_model(ts: Seq<Token>) -> Seq<TokenModel> {
    ts.map_values(|t: Token| t@)
}

/// Appending one token to the prefix and prepending it to the rest agree.
proof fn lemma_prepend_step(
    pre: Seq<TokenModel>,
    t: TokenModel,
    r: Result<Seq<TokenModel>, ErrorModel>,
)
    ensures
        lex_prepend(pre.push(t), r) == lex_prepend(pre, lex_prepend(seq![t], r)),
{
    match r {
        Ok(ts) => {
            assert(pre.push(t) + ts =~= pre + (seq![t] + ts));
        },
        Err(_) => {},
    }
}

/// Lexing a numeric literal on its own yields exactly one Number token
/// carrying the literal's text when it has at most one decimal point, and the
/// "Invalid number" error when it has more than one.
pub proof fn lemma_lex_numeric_literal(s: Seq<char>)
    requires
        s.len() >= 1,
        is_digit(s[0]),
        forall|i: int| 0 <= i < s.len() ==> is_number_char(#[trigger] s[i]),
    ensures
        count_char(s, '.') <= 1 ==> lex_from(s, 0) == Ok::<Seq<TokenModel>, ErrorModel>(
            seq![TokenModel { kind: TokenKind::Number, text: s }],
        ),
        count_char(s, '.') > 1 ==> lex_from(s, 0) == Err::<Seq<TokenModel>, ErrorModel>(
            lexer_error_model("Invalid number"@),
        ),
{
    let c = s[0];
    assert(!is_space(c) && !is_letter(c) && c != '_' && c != '#' && c != '(' && c != ')' && c
        != '{' && c != '}' && c != ';');
    lemma_scan_while(s, 1, number_pred());
    let e = scan_while(s, 1, number_pred());
    assert(e == s.len()) by {
        if e < s.len() {
            assert(!number_pred()(s[e]));
            assert(is_number_char(s[e]));
        }
    }
    assert(run_end(s, 0, number_pred()) == s.len());
    assert(s.subrange(0, s.len() as int) =~= s);
    assert(lex_from(s, s.len() as int) == Ok::<Seq<TokenModel>, ErrorModel>(Seq::empty()));
    if count_char(s, '.') <= 1 {
        assert(seq![TokenModel { kind: TokenKind::Number, text: s }] + Seq::<TokenModel>::empty()
            =~= seq![TokenModel { kind: TokenKind::Number, text: s }]);
    }
}

/// The lexer, a single-pass scanner over the input characters.
pub struct Lexer {}

impl Lexer {
    /// A lexer.
    pub fn new() -> Lexer {
        Lexer {  }
    }

    /// Turns source text into its token sequence, or reports the first
    /// lexing error, exactly as `lex_from` describes from the start of the
    /// input.
    pub fn lex(&self, input: &String) -> (r: Result<Vec<Token>, CustomError>)
        ensures
            match lex_from(input@, 0) {
                Ok(ts) => r is Ok && tokens_model(r->Ok_0@) == ts,
                Err(e) => r is Err && r->Err_0@ == e,
            },
    {
        let chars = str_to_chars(input.as_str());
        let ghost cs = input@;
        let n = chars.len();
        let mut tokens: Vec<Token> = Vec::new();
        let mut i: usize = 0;
        while i < n
            invariant
                i <= n,
                n == cs.len(),
                cs == input@,
                chars@ == cs,
                lex_prepend(tokens_model(tokens@), lex_from(cs, i as int)) == lex_from(cs, 0),
            decreases n - i,
        {
            let c = chars[i];
            if c == '#' {
                let mut j = i + 1;
                proof {
                    lemma_scan_while(cs, i as int + 1, not_char_pred('#'));
                }
                while j < n && chars[j] != '#'
                    invariant
                        i < j <= n,
                        n == cs.len(),
                        chars@ == cs,
                        scan_while(cs, i as int + 1, not_char_pred('#')) == scan_while(
                            cs,
                            j as int,
                            not_char_pred('#'),
                        ),
                    decreases n - j,
                {
                    j = j + 1;
                }
                if j >= n {
                    proof {
                        assert(scan_while(cs, j as int, not_char_pred('#')) == cs.len());
                    }
                    return Err(CustomError::new_lexer_error("Comment not closed"));
                }
                proof {
                    assert(scan_while(cs, j as int, not_char_pred('#')) == j as int);
                    assert(lex_from(cs, i as int) == lex_from(cs, j as int + 1));
                }
                i = j + 1;
                continue ;
            }
            if c == ' ' || c == '\t' || c == '\r' || c == '\n' {
                i = i + 1;
                continue ;
            }
            if c == '(' || c == ')' {
                let text = char_to_string(c);
                let tok = Token::new_parenthesis(text.as_str());
                proof {
                    lemma_prepend_step(tokens_model(tokens@), tok@, lex_from(cs, i as int + 1));
                    assert(tokens_model(tokens@.push(tok)) =~= tokens_model(tokens@).push(tok@));
                }
                tokens.push(tok);
                i = i + 1;
                continue ;
            }
            if c == '{' || c == '}' {
                let text = char_to_string(c);
                let tok = Token::new_bracket(text.as_str());
                proof {
                    lemma_prepend_step(tokens_model(tokens@), tok@, lex_from(cs, i as int + 1));
                    assert(tokens_model(tokens@.push(tok)) =~= tokens_model(tokens@).push(tok@));
                }
                tokens.push(tok);
                i = i + 1;
                continue ;
            }
            if c == ';' {
                let tok = Token::new_semicolon();
                proof {
                    lemma_prepend_step(tokens_model(tokens@), tok@, lex_from(cs, i as int + 1));
                    assert(tokens_model(tokens@.push(tok)) =~= tokens_model(tokens@).push(tok@));
                }
                tokens.push(tok);
                i = i + 1;
                continue ;
            }
            let letter = ('a' <= c && c <= 'z') || ('A' <= c && c <= 'Z');
            if letter || c == '_' {
                let mut j = i + 1;
                proof {
                    lemma_scan_while(cs, i as int + 1, ident_pred());
                }
                while j < n && (('a' <= chars[j] && chars[j] <= 'z') || ('A' <= chars[j]
                    && chars[j] <= 'Z') || ('0' <= chars[j] && chars[j] <= '9') || chars[j] == '_')
                    invariant
                        i < j <= n,
                        n == cs.len(),
                        chars@ == cs,
                        scan_while(cs, i as int + 1, ident_pred()) == scan_while(
                            cs,
                            j as int,
                            ident_pred(),
                        ),
                    decreases n - j,
                {
                    j = j + 1;
                }
                proof {
                    assert(scan_while(cs, j as int, ident_pred()) == j as int);
                    assert(run_end(cs, i as int, ident_pred()) == j as int);
                }
                let text = chars_to_string(slice_subrange(chars.as_slice(), i, j));
                let keyword = {
                    let w = "while".to_owned();
                    let f = "if".to_owned();
                    let e = "else".to_owned();
                    string_eq(&text, &w) || string_eq(&text, &f) || string_eq(&text, &e)
                };
                let tok = if keyword {
                    Token::new_keyword(text.as_str())
                } else {
                    Token::new_identifier(text.as_str())
                };
                proof {
                    lemma_prepend_step(tokens_model(tokens@), tok@, lex_from(cs, j as int));
                    assert(tokens_model(tokens@.push(tok)) =~= tokens_model(tokens@).push(tok@));
                }
                tokens.push(tok);
                i = j;
                continue ;
            }
            if '0' <= c && c <= '9' {
                let mut j = i + 1;
                proof {
                    lemma_scan_while(cs, i as int + 1, number_pred());
                }
                while j < n && (('0' <= chars[j] && chars[j] <= '9') || chars[j] == '.')
                    invariant
                        i < j <= n,
                        n == cs.len(),
                        chars@ == cs,
                        scan_while(cs, i as int + 1, number_pred()) == scan_while(
                            cs,
                            j as int,
                            number_pred(),
                        ),
                    decreases n - j,
                {
                    j = j + 1;
                }
                proof {
                    assert(scan_while(cs, j as int, number_pred()) == j as int);
                    assert(run_end(cs, i as int, number_pred()) == j as int);
                }
                let mut dots: usize = 0;
                let mut k = i;
                while k < j
                    invariant
                        i <= k <= j <= n,
                        n == cs.len(),
                        chars@ == cs,
                        dots <= k - i,
                        dots == count_char(cs.subrange(i as int, k as int), '.'),
                    decreases j - k,
                {
                    proof {
                        assert(cs.subrange(i as int, k as int + 1).drop_last() =~= cs.subrange(
                            i as int,
                            k as int,
                        ));
                        assert(cs.subrange(i as int, k as int + 1).last() == cs[k as int]);
                    }
                    if chars[k] == '.' {
                        dots = dots + 1;
                    }
                    k = k + 1;
                }
                if dots > 1 {
                    return Err(CustomError::new_lexer_error("Invalid number"));
                }
                let text_str = chars_to_string(slice_subrange(chars.as_slice(), i, j));
                let tok = Token::new_number(text_str.as_str());
                proof {
                    lemma_prepend_step(tokens_model(tokens@), tok@, lex_from(cs, j as int));
                    assert(tokens_model(tokens@.push(tok)) =~= tokens_model(tokens@).push(tok@));
                }
                tokens.push(tok);
                i = j;
                continue ;
            }
            if c == '"' {
                let mut j = i + 1;
                proof {
                    lemma_scan_while(cs, i as int + 1, not_char_pred('"'));
                }
                while j < n && chars[j] != '"'
                    invariant
                        i < j <= n,
                        n == cs.len(),
                        chars@ == cs,
                        scan_while(cs, i as int + 1, not_char_pred('"')) == scan_while(
                            cs,
                            j as int,
                            not_char_pred('"'),
                        ),
                    decreases n - j,
                {
                    j = j + 1;
                }
                if j >= n {
                    proof {
                        assert(scan_while(cs, j as int, not_char_pred('"')) == cs.len());
                    }
                    return Err(CustomError::new_lexer_error("String not closed"));
                }
                proof {
                    assert(scan_while(cs, j as int, not_char_pred('"')) == j as int);
                }
                let text = chars_to_string(slice_subrange(chars.as_slice(), i + 1, j));
                let tok = Token::new_string(text.as_str());
                proof {
                    lemma_prepend_step(tokens_model(tokens@), tok@, lex_from(cs, j as int + 1));
                    assert(tokens_model(tokens@.push(tok)) =~= tokens_model(tokens@).push(tok@));
                }
                tokens.push(tok);
                i = j + 1;
                continue ;
            }
            if c == '+' || c == '-' || c == '*' || c == '/' {
                let text = char_to_string(c);
                let tok = Token::new_operator(text.as_str());
                proof {
                    lemma_prepend_step(tokens_model(tokens@), tok@, lex_from(cs, i as int + 1));
                    assert(tokens_model(tokens@.push(tok)) =~= tokens_model(tokens@).push(tok@));
                }
                tokens.push(tok);
                i = i + 1;
                continue ;
            }
            if c == '>' || c == '<' {
                let mut j = i + 1;
                proof {
                    lemma_scan_while(cs, i as int + 1, comparator_pred());
                }
                while j < n && (chars[j] == '>' || chars[j] == '<' || chars[j] == '=')
                    invariant
                        i < j <= n,
                        n == cs.len(),
                        chars@ == cs,
                        scan_while(cs, i as int + 1, comparator_pred()) == scan_while(
                            cs,
                            j as int,
                            comparator_pred(),
                        ),
                    decreases n - j,
                {
                    j = j + 1;
                }
                proof {
                    assert(scan_while(cs, j as int, comparator_pred()) == j as int);
                    assert(run_end(cs, i as int, comparator_pred()) == j as int);
                }
                let text = chars_to_string(slice_subrange(chars.as_slice(), i, j));
                let tok = Token::new_comparator(text.as_str());
                proof {
                    lemma_prepend_step(tokens_model(tokens@), tok@, lex_from(cs, j as int));
                    assert(tokens_model(tokens@.push(tok)) =~= tokens_model(tokens@).push(tok@));
                }
                tokens.push(tok);
                i = j;
                continue ;
            }
            if c == '=' {
                let tok = Token::new_assign("=");
                proof {
                    lemma_prepend_step(tokens_model(tokens@), tok@, lex_from(cs, i as int + 1));
                    assert(tokens_model(tokens@.push(tok)) =~= tokens_model(tokens@).push(tok@));
                }
                tokens.push(tok);
                i = i + 1;
                continue ;
            }
            let mut message = "Unknown character: ".to_owned();
            crate::text::push_char(&mut message, c);
            proof {
                assert(message@ =~= "Unknown character: "@ + seq![c]);
            }
            return Err(CustomError::from_parts(message, "LexerError".to_owned()));
        }
        proof {
            assert(lex_from(cs, i as int) == Ok::<Seq<TokenModel>, ErrorModel>(Seq::empty()));
            assert(tokens_model(tokens@) + Seq::<TokenModel>::empty() =~= tokens_model(tokens@));
        }
        Ok(tokens)
    }
}

} // verus!
