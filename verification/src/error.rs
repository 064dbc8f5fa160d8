use vstd::prelude::*;

use crate::lexer::{Token, TokenView, token_debug};
use crate::text::{concat, decimal, decimal_text};

verus! {

/// Errors reported by the scanner.
#[derive(Debug, Clone, PartialEq)]
pub enum LexError {
    UnterminatedString(usize),
    UnexpectedCharacter(usize, char),
    UnexpectedToken(usize, String),
    UnexpectedEOF(usize),
}

/// Errors reported by the parser.
#[derive(Debug, Clone, PartialEq)]
pub enum ParserError {
    ExpectedExpression { line: usize, token: Token, msg: String },
    FunctionalityNotImplemented(String),
    InvalidOperand { line: usize, token: Token, msg: String },
    NoPreviousToken { line: usize, msg: String },
    UnexpectedToken { line: usize, token: Token, msg: String },
    UnexpectedEOF { line: usize, msg: String },
    InvalidAssignmentTarget { line: usize, token: Token, msg: String },
}

/// What a parser error says.
pub enum ParserErrorView {
    ExpectedExpression { line: nat, token: TokenView, msg: Seq<char> },
    FunctionalityNotImplemented(Seq<char>),
    InvalidOperand { line: nat, token: TokenView, msg: Seq<char> },
    NoPreviousToken { line: nat, msg: Seq<char> },
    UnexpectedToken { line: nat, token: TokenView, msg: Seq<char> },
    UnexpectedEOF { line: nat, msg: Seq<char> },
    InvalidAssignmentTarget { line: nat, token: TokenView, msg: Seq<char> },
}

impl View for ParserError {
    type V = ParserErrorView;

    open spec fn view(&self) -> ParserErrorView {
        match self {
            ParserError::ExpectedExpression { line, token, msg } => {
                ParserErrorView::ExpectedExpression { line: *line as nat, token: token@, msg: msg@ }
            },
            ParserError::FunctionalityNotImplemented(msg) => {
                ParserErrorView::FunctionalityNotImplemented(msg@)
            },
            ParserError::InvalidOperand { line, token, msg } => {
                ParserErrorView::InvalidOperand { line: *line as nat, token: token@, msg: msg@ }
            },
            ParserError::NoPreviousToken { line, msg } => {
                ParserErrorView::NoPreviousToken { line: *line as nat, msg: msg@ }
            },
            ParserError::UnexpectedToken { line, token, msg } => {
                ParserErrorView::UnexpectedToken { line: *line as nat, token: token@, msg: msg@ }
            },
            ParserError::UnexpectedEOF { line, msg } => {
                ParserErrorView::UnexpectedEOF { line: *line as nat, msg: msg@ }
            },
            ParserError::InvalidAssignmentTarget { line, token, msg } => {
                ParserErrorView::InvalidAssignmentTarget {
                    line: *line as nat,
                    token: token@,
                    msg: msg@,
                }
            },
        }
    }
}

/// The line a parser error is reported on; 0 when it has none.
pub open spec fn parser_error_line(e: ParserErrorView) -> nat {
    match e {
        ParserErrorView::ExpectedExpression { line, .. } => line,
        ParserErrorView::InvalidOperand { line, .. } => line,
        ParserErrorView::NoPreviousToken { line, .. } => line,
        ParserErrorView::UnexpectedToken { line, .. } => line,
        ParserErrorView::UnexpectedEOF { line, .. } => line,
        ParserErrorView::InvalidAssignmentTarget { line, .. } => line,
        ParserErrorView::FunctionalityNotImplemented(_) => 0,
    }
}

/// `"{prefix} at line {line}, token {token:?}: {msg}"`.
pub open spec fn located_message(prefix: Seq<char>, line: nat, token: TokenView, msg: Seq<char>) -> Seq<char> {
    prefix + " at line "@ + decimal(line) + ", token "@ + token_debug(token) + ": "@ + msg
}

/// The text of a parser error.
pub open spec fn parser_error_message(e: ParserErrorView) -> Seq<char> {
    match e {
        ParserErrorView::ExpectedExpression { line, token, msg } => located_message(
            "Expected expression"@,
            line,
            token,
            msg,
        ),
        ParserErrorView::InvalidOperand { line, token, msg } => located_message(
            "Invalid operand"@,
            line,
            token,
            msg,
        ),
        ParserErrorView::NoPreviousToken { line, msg } => "No previous token at line "@ + decimal(
            line,
        ) + ": "@ + msg,
        ParserErrorView::UnexpectedToken { line, token, msg } => located_message(
            "Unexpected token"@,
            line,
            token,
            msg,
        ),
        ParserErrorView::UnexpectedEOF { line, msg } => "Unexpected end of file at line "@
            + decimal(line) + ": "@ + msg,
        ParserErrorView::InvalidAssignmentTarget { line, token, msg } => located_message(
            "Invalid assignment target"@,
            line,
            token,
            msg,
        ),
        ParserErrorView::FunctionalityNotImplemented(_) => "Functionality not implemented"@,
    }
}

fn located_text(prefix: &str, line: usize, token: &Token, msg: &String) -> (r: String)
    ensures
        r@ == located_message(prefix@, line as nat, token@, msg@),
{
    let r = concat(prefix.to_owned(), " at line ");
    let d = decimal_text(line);
    let r = concat(r, d.as_str());
    let r = concat(r, ", token ");
    let t = token.debug_string();
    let r = concat(r, t.as_str());
    let r = concat(r, ": ");
    concat(r, msg.as_str())
}

fn line_text(prefix: &str, line: usize, msg: &String) -> (r: String)
    ensures
        r@ == prefix@ + decimal(line as nat) + ": "@ + msg@,
{
    let d = decimal_text(line);
    let r = concat(prefix.to_owned(), d.as_str());
    let r = concat(r, ": ");
    concat(r, msg.as_str())
}

impl ParserError {
    /// The line the error is reported on; 0 when it has none.
    pub fn line(&self) -> (r: usize)
        ensures
            r == parser_error_line(self@),
    {
        match self {
            ParserError::ExpectedExpression { line, .. } => *line,
            ParserError::InvalidOperand { line, .. } => *line,
            ParserError::NoPreviousToken { line, .. } => *line,
            ParserError::UnexpectedToken { line, .. } => *line,
            ParserError::UnexpectedEOF { line, .. } => *line,
            ParserError::InvalidAssignmentTarget { line, .. } => *line,
            ParserError::FunctionalityNotImplemented(_) => 0,
        }
    }

    /// The text of the error.
    pub fn message(&self) -> (r: String)
        ensures
            r@ == parser_error_message(self@),
    {
        match self {
            ParserError::ExpectedExpression { line, token, msg } => {
                located_text("Expected expression", *line, token, msg)
            },
            ParserError::InvalidOperand { line, token, msg } => {
                located_text("Invalid operand", *line, token, msg)
            },
            ParserError::NoPreviousToken { line, msg } => {
                line_text("No previous token at line ", *line, msg)
            },
            ParserError::UnexpectedToken { line, token, msg } => {
                located_text("Unexpected token", *line, token, msg)
            },
            ParserError::UnexpectedEOF { line, msg } => {
                line_text("Unexpected end of file at line ", *line, msg)
            },
            ParserError::InvalidAssignmentTarget { line, token, msg } => {
                located_text("Invalid assignment target", *line, token, msg)
            },
            ParserError::FunctionalityNotImplemented(_) => {
                "Functionality not implemented".to_owned()
            },
        }
    }
}

/// The message field of a parser error.
pub open spec fn parser_error_msg(e: ParserErrorView) -> Seq<char> {
    match e {
        ParserErrorView::ExpectedExpression { msg, .. } => msg,
        ParserErrorView::InvalidOperand { msg, .. } => msg,
        ParserErrorView::NoPreviousToken { msg, .. } => msg,
        ParserErrorView::UnexpectedToken { msg, .. } => msg,
        ParserErrorView::UnexpectedEOF { msg, .. } => msg,
        ParserErrorView::InvalidAssignmentTarget { msg, .. } => msg,
        ParserErrorView::FunctionalityNotImplemented(msg) => msg,
    }
}

/// Whether `m` has ` at line {line}` in it and ends with `: {msg}`.
pub open spec fn names_line_then_msg(m: Seq<char>, line: nat, msg: Seq<char>) -> bool {
    exists|before: Seq<char>, middle: Seq<char>|
        m == before + " at line "@ + decimal(line) + middle + ": "@ + msg
}

proof fn lemma_line_message(prefix: Seq<char>, line: nat, msg: Seq<char>)
    ensures
        names_line_then_msg(prefix + " at line "@ + decimal(line) + ": "@ + msg, line, msg),
{
    let m = prefix + " at line "@ + decimal(line) + ": "@ + msg;
    assert(m =~= prefix + " at line "@ + decimal(line) + Seq::<char>::empty() + ": "@ + msg);
}

proof fn lemma_located_message(prefix: Seq<char>, line: nat, token: TokenView, msg: Seq<char>)
    ensures
        names_line_then_msg(located_message(prefix, line, token, msg), line, msg),
{
    let middle = ", token "@ + token_debug(token);
    assert(located_message(prefix, line, token, msg) =~= prefix + " at line "@ + decimal(line)
        + middle + ": "@ + msg);
}

/// Every parser error's message but one names the error's line, as
/// ` at line {line}`, and ends with `: ` and the error's message field; an
/// unimplemented feature's message is always `Functionality not implemented`.
pub proof fn law_parser_error_message_form(e: ParserErrorView)
    ensures
        e is FunctionalityNotImplemented ==> parser_error_message(e)
            == "Functionality not implemented"@,
        !(e is FunctionalityNotImplemented) ==> names_line_then_msg(
            parser_error_message(e),
            parser_error_line(e),
            parser_error_msg(e),
        ),
{
    match e {
        ParserErrorView::ExpectedExpression { line, token, msg } => {
            lemma_located_message("Expected expression"@, line, token, msg);
        },
        ParserErrorView::InvalidOperand { line, token, msg } => {
            lemma_located_message("Invalid operand"@, line, token, msg);
        },
        ParserErrorView::UnexpectedToken { line, token, msg } => {
            lemma_located_message("Unexpected token"@, line, token, msg);
        },
        ParserErrorView::InvalidAssignmentTarget { line, token, msg } => {
            lemma_located_message("Invalid assignment target"@, line, token, msg);
        },
        ParserErrorView::NoPreviousToken { line, msg } => {
            reveal_strlit("No previous token at line ");
            reveal_strlit("No previous token");
            reveal_strlit(" at line ");
            assert("No previous token at line "@ =~= "No previous token"@ + " at line "@);
            lemma_line_message("No previous token"@, line, msg);
        },
        ParserErrorView::UnexpectedEOF { line, msg } => {
            reveal_strlit("Unexpected end of file at line ");
            reveal_strlit("Unexpected end of file");
            reveal_strlit(" at line ");
            assert("Unexpected end of file at line "@ =~= "Unexpected end of file"@
                + " at line "@);
            lemma_line_message("Unexpected end of file"@, line, msg);
        },
        ParserErrorView::FunctionalityNotImplemented(_) => {},
    }
}

/// Errors reported while running a program.
#[derive(Debug, Clone, PartialEq)]
pub enum RuntimeError {
    TypeError { line: usize, msg: String },
    UndefinedVariable { line: usize, name: String },
    CannotAssignToConstant { line: usize, name: String },
    CannotAssignToNumber { line: usize, name: String },
    CannotAssignToFunction { line: usize, name: String },
}

/// What a runtime error says.
pub enum RuntimeErrorView {
    TypeError { line: nat, msg: Seq<char> },
    UndefinedVariable { line: nat, name: Seq<char> },
    CannotAssignToConstant { line: nat, name: Seq<char> },
    CannotAssignToNumber { line: nat, name: Seq<char> },
    CannotAssignToFunction { line: nat, name: Seq<char> },
}

impl View for RuntimeError {
    type V = RuntimeErrorView;

    open spec fn view(&self) -> RuntimeErrorView {
        match self {
            RuntimeError::TypeError { line, msg } => RuntimeErrorView::TypeError {
                line: *line as nat,
                msg: msg@,
            },
            RuntimeError::UndefinedVariable { line, name } => RuntimeErrorView::UndefinedVariable {
                line: *line as nat,
                name: name@,
            },
            RuntimeError::CannotAssignToConstant { line, name } => {
                RuntimeErrorView::CannotAssignToConstant { line: *line as nat, name: name@ }
            },
            RuntimeError::CannotAssignToNumber { line, name } => {
                RuntimeErrorView::CannotAssignToNumber { line: *line as nat, name: name@ }
            },
            RuntimeError::CannotAssignToFunction { line, name } => {
                RuntimeErrorView::CannotAssignToFunction { line: *line as nat, name: name@ }
            },
        }
    }
}

/// `"ERROR at line {line}: {what} '{name}'"`.
pub open spec fn naming_message(line: nat, what: Seq<char>, name: Seq<char>) -> Seq<char> {
    "ERROR at line "@ + decimal(line) + ": "@ + what + " '"@ + name + "'"@
}

/// The text of a runtime error.
pub open spec fn runtime_error_message(e: RuntimeErrorView) -> Seq<char> {
    match e {
        RuntimeErrorView::CannotAssignToConstant { line, name } => naming_message(
            line,
            "Cannot assign to constant"@,
            name,
        ),
        RuntimeErrorView::CannotAssignToFunction { line, name } => naming_message(
            line,
            "Cannot assign to function"@,
            name,
        ),
        RuntimeErrorView::CannotAssignToNumber { line, name } => naming_message(
            line,
            "Cannot assign to number"@,
            name,
        ),
        RuntimeErrorView::UndefinedVariable { line, name } => naming_message(
            line,
            "Undefined variable"@,
            name,
        ),
        RuntimeErrorView::TypeError { line, msg } => "ERROR at line "@ + decimal(line)
            + ": Type error: "@ + msg,
    }
}

fn naming_text(line: usize, what: &str, name: &String) -> (r: String)
    ensures
        r@ == naming_message(line as nat, what@, name@),
{
    let d = decimal_text(line);
    let r = concat("ERROR at line ".to_owned(), d.as_str());
    let r = concat(r, ": ");
    let r = concat(r, what);
    let r = concat(r, " '");
    let r = concat(r, name.as_str());
    concat(r, "'")
}

impl RuntimeError {
    /// The text of the error.
    pub fn message(&self) -> (r: String)
        ensures
            r@ == runtime_error_message(self@),
    {
        match self {
            RuntimeError::CannotAssignToConstant { line, name } => {
                naming_text(*line, "Cannot assign to constant", name)
            },
            RuntimeError::CannotAssignToFunction { line, name } => {
                naming_text(*line, "Cannot assign to function", name)
            },
            RuntimeError::CannotAssignToNumber { line, name } => {
                naming_text(*line, "Cannot assign to number", name)
            },
            RuntimeError::UndefinedVariable { line, name } => {
                naming_text(*line, "Undefined variable", name)
            },
            RuntimeError::TypeError { line, msg } => {
                let d = decimal_text(*line);
                let r = concat("ERROR at line ".to_owned(), d.as_str());
                let r = concat(r, ": Type error: ");
                concat(r, msg.as_str())
            },
        }
    }
}

} // verus!
