//! Diagnostics: what went wrong, and where.
use vstd::prelude::*;
use crate::text::{decimal_digits, push_decimal};
use crate::token::{Token, TokenView};
use crate::token_type::TokenType;

verus! {

/// Everything that scanning, parsing and running can find fault with.
#[derive(Debug, Clone, Copy, PartialEq, Eq, Structural)]
pub enum Problem {
    // Lexical: scanning goes on.
    UnexpectedCharacter(char),
    UnterminatedString,
    IntegerTooLarge,
    // Syntactic: parsing goes on.
    ExpectExpression,
    ExpectRightParen,
    ExpectBlockEnd,
    ExpectIfOpen,
    ExpectIfClose,
    ExpectWhileOpen,
    ExpectWhileClose,
    ExpectIdentifier,
    ExpectAssign,
    ExpectStatementEnd,
    InvalidAssignmentTarget,
    // A name that is not bound: the value is nil and running goes on.
    UnboundVariable,
    // Fatal: the statement that is running is given up.
    OperandMismatch,
    UnknownOperator,
    DivisionByZero,
    IntegerOverflow,
    IterationLimit,
}

impl Problem {
    /// Fatal problems end the run; all others leave a default and go on.
    pub open spec fn is_fatal(self) -> bool {
        self is OperandMismatch || self is UnknownOperator || self is DivisionByZero
            || self is IntegerOverflow || self is IterationLimit
    }

    pub open spec fn message_text(self) -> Seq<char> {
        match self {
            Problem::UnexpectedCharacter(c) => "Unexpected char >> "@.push(c),
            Problem::UnterminatedString => "Unterminated string"@,
            Problem::IntegerTooLarge => "Integer literal out of range"@,
            Problem::ExpectExpression => "Expect expression"@,
            Problem::ExpectRightParen => "Expecting right paren"@,
            Problem::ExpectBlockEnd => "Expect } after block"@,
            Problem::ExpectIfOpen => "Expect '(' after 'if'"@,
            Problem::ExpectIfClose => "Expect ')' after 'if'"@,
            Problem::ExpectWhileOpen => "Expect '(' after 'while'"@,
            Problem::ExpectWhileClose => "Expect ')' after 'while'"@,
            Problem::ExpectIdentifier => "Expect identifier"@,
            Problem::ExpectAssign => "Expect '=' after identifer"@,
            Problem::ExpectStatementEnd => "Expect ';' after statement"@,
            Problem::InvalidAssignmentTarget => "Invalid assignment target"@,
            Problem::UnboundVariable => "Variable not found in this scope"@,
            Problem::OperandMismatch => "Operands do not fit the operator"@,
            Problem::UnknownOperator => "Unknown operator"@,
            Problem::DivisionByZero => "Division by zero"@,
            Problem::IntegerOverflow => "Integer overflow"@,
            Problem::IterationLimit => "Iteration limit reached"@,
        }
    }

    pub fn fatal(&self) -> (b: bool)
        ensures
            b == self.is_fatal(),
    {
        match self {
            Problem::OperandMismatch => true,
            Problem::UnknownOperator => true,
            Problem::DivisionByZero => true,
            Problem::IntegerOverflow => true,
            Problem::IterationLimit => true,
            _ => false,
        }
    }

    pub fn message(&self) -> (s: String)
        ensures
            s@ == self.message_text(),
    {
        match self {
            Problem::UnexpectedCharacter(c) => {
                let mut s = String::from_str("Unexpected char >> ");
                s.push(*c);
                s
            },
            Problem::UnterminatedString => String::from_str("Unterminated string"),
            Problem::IntegerTooLarge => String::from_str("Integer literal out of range"),
            Problem::ExpectExpression => String::from_str("Expect expression"),
            Problem::ExpectRightParen => String::from_str("Expecting right paren"),
            Problem::ExpectBlockEnd => String::from_str("Expect } after block"),
            Problem::ExpectIfOpen => String::from_str("Expect '(' after 'if'"),
            Problem::ExpectIfClose => String::from_str("Expect ')' after 'if'"),
            Problem::ExpectWhileOpen => String::from_str("Expect '(' after 'while'"),
            Problem::ExpectWhileClose => String::from_str("Expect ')' after 'while'"),
            Problem::ExpectIdentifier => String::from_str("Expect identifier"),
            Problem::ExpectAssign => String::from_str("Expect '=' after identifer"),
            Problem::ExpectStatementEnd => String::from_str("Expect ';' after statement"),
            Problem::InvalidAssignmentTarget => String::from_str("Invalid assignment target"),
            Problem::UnboundVariable => String::from_str("Variable not found in this scope"),
            Problem::OperandMismatch => String::from_str("Operands do not fit the operator"),
            Problem::UnknownOperator => String::from_str("Unknown operator"),
            Problem::DivisionByZero => String::from_str("Division by zero"),
            Problem::IntegerOverflow => String::from_str("Integer overflow"),
            Problem::IterationLimit => String::from_str("Iteration limit reached"),
        }
    }
}

/// One diagnostic: the line, the place in the line, and the problem.
#[derive(Debug, PartialEq)]
pub struct Diagnostic {
    pub line: usize,
    pub place: String,
    pub problem: Problem,
}

/// What a [`Diagnostic`] stands for.
pub struct DiagnosticView {
    pub line: usize,
    pub place: Seq<char>,
    pub problem: Problem,
}

impl View for Diagnostic {
    type V = DiagnosticView;

    open spec fn view(&self) -> DiagnosticView {
        DiagnosticView { line: self.line, place: self.place@, problem: self.problem }
    }
}

impl DeepView for Diagnostic {
    type V = DiagnosticView;

    open spec fn deep_view(&self) -> DiagnosticView {
        self@
    }
}

impl Clone for Diagnostic {
    fn clone(&self) -> (r: Self)
        ensures
            r@ == self@,
    {
        Diagnostic { line: self.line, place: self.place.clone(), problem: self.problem }
    }
}

impl Diagnostic {
    /// A diagnostic that names no place in its line.
    pub open spec fn plain(line: usize, problem: Problem) -> DiagnosticView {
        DiagnosticView { line, place: Seq::empty(), problem }
    }

    pub fn new(line: usize, problem: Problem) -> (d: Diagnostic)
        ensures
            d@ == Self::plain(line, problem),
    {
        Diagnostic { line, place: String::new(), problem }
    }

    /// The line of text that reports this diagnostic.
    pub fn to_string(&self) -> (s: String)
        ensures
            s@ == ErrorMsg::report_text(self.line, self.place@, self.problem.message_text()),
    {
        let m = self.problem.message();
        ErrorMsg::report(self.line, self.place.as_str(), m.as_str())
    }
}

/// Builds and words diagnostics.
pub struct ErrorMsg;

impl ErrorMsg {
    /// Where a token stands, in words: the end of input, or its lexeme.
    pub open spec fn place_of(token: TokenView) -> Seq<char> {
        if token.token_type == TokenType::Eof {
            " at end "@
        } else {
            " at '"@ + token.lexeme + "' "@
        }
    }

    /// The diagnostic that blames `token` for `problem`.
    pub open spec fn blame(token: TokenView, problem: Problem) -> DiagnosticView {
        DiagnosticView { line: token.line, place: Self::place_of(token), problem }
    }

    /// The report of one diagnostic: `[line N] Error WHERE: MESSAGE`.
    pub open spec fn report_text(line: usize, wh: Seq<char>, msg: Seq<char>) -> Seq<char> {
        "[line "@ + decimal_digits(line as nat) + "] Error "@ + wh + ": "@ + msg
    }

    pub fn error(token: &Token, problem: Problem) -> (d: Diagnostic)
        ensures
            d@ == Self::blame(token@, problem),
    {
        let place = if token.token_type == TokenType::Eof {
            String::from_str(" at end ")
        } else {
            let mut p = String::from_str(" at '");
            p.append(token.lexeme.as_str());
            p.append("' ");
            p
        };
        Diagnostic { line: token.line, place, problem }
    }

    pub fn report(line: usize, wh: &str, msg: &str) -> (s: String)
        ensures
            s@ == Self::report_text(line, wh@, msg@),
    {
        let mut s = String::from_str("[line ");
        push_decimal(&mut s, line as u64);
        s.append("] Error ");
        s.append(wh);
        s.append(": ");
        s.append(msg);
        s
    }
}

/// Adds one diagnostic at the end of a list.
pub fn note(notices: &mut Vec<Diagnostic>, d: Diagnostic)
    ensures
        final(notices).deep_view() == old(notices).deep_view().push(d@),
{
    notices.push(d);
    assert(notices.deep_view() =~= old(notices).deep_view().push(d@));
}

} // verus!
