//! Line-numbered diagnostics.
//!
//! Every failure of scanning, parsing or evaluation is reported as a
//! [`Diag`]: the source line, the kind of fault, and, for name errors, the
//! name concerned. [`crash`] renders the one-line form the shell prints
//! before it terminates.

use vstd::prelude::*;
use vstd::string::StringExecFns;

use crate::text::{dec_digits, u64_text};
use crate::token_type::TokenType;

verus! {

/// The kinds of fault: lexical, syntax, runtime type, and name errors, plus
/// the explicit refusal of statement forms that are parsed but not executed.
#[derive(Clone, Copy, PartialEq, Eq, Structural, Debug)]
pub enum DiagKind {
    // Lexical errors: reported, then scanning continues.
    UnterminatedString,
    UnexpectedCharacter,
    NumberTooLarge,
    // Syntax errors: parsing stops at the first one.
    ExpectedVariableName,
    ExpectedSemicolon,
    ExpectedRightBrace,
    ExpectedRightParen,
    ExpectedFrom,
    ExpectedUntil,
    InvalidAssignmentTarget,
    ExpectedExpression(TokenType),
    // Runtime type errors.
    TypeErrorUnaryMinus,
    TypeErrorPlus,
    TypeErrorArithmetic,
    TypeErrorComparison,
    TypeErrorPower,
    // Runtime numeric faults of the exact representation.
    FractionalExponent,
    DivisionByZero,
    NumberOverflow,
    // Name errors.
    UnknownVariable,
    AssignUndeclared,
    // Statement forms the evaluator refuses.
    UnsupportedStatement,
}

/// Ghost form of a diagnostic.
pub struct DiagV {
    pub line: int,
    pub kind: DiagKind,
    pub name: Seq<char>,
}

/// A fatal diagnostic: the source line it cites, what went wrong, and, for
/// name errors, the name concerned (empty otherwise).
#[derive(Debug)]
pub struct Diag {
    pub line: usize,
    pub kind: DiagKind,
    pub name: String,
}

impl View for Diag {
    type V = DiagV;

    open spec fn view(&self) -> DiagV {
        DiagV { line: self.line as int, kind: self.kind, name: self.name@ }
    }
}

impl Clone for Diag {
    fn clone(&self) -> (r: Self)
        ensures
            r == *self,
    {
        Diag { line: self.line, kind: self.kind, name: self.name.clone() }
    }
}

impl Diag {
    /// A diagnostic that concerns no name.
    pub fn new(line: usize, kind: DiagKind) -> (r: Diag)
        ensures
            r@ == (DiagV { line: line as int, kind, name: Seq::<char>::empty() }),
    {
        let r = Diag { line, kind, name: String::new() };
        assert(r@.name =~= Seq::<char>::empty());
        r
    }

    /// A diagnostic that cites a name.
    pub fn with_name(line: usize, kind: DiagKind, name: String) -> (r: Diag)
        ensures
            r@ == (DiagV { line: line as int, kind, name: name@ }),
    {
        Diag { line, kind, name }
    }
}

/// The ghost forms of a diagnostic sequence.
pub open spec fn diags_view(s: Seq<Diag>) -> Seq<DiagV> {
    s.map_values(|d: Diag| d@)
}

/// The message text of a diagnostic.
pub open spec fn message_spec(d: DiagV) -> Seq<char> {
    match d.kind {
        DiagKind::UnterminatedString => "Unterminated string."@,
        DiagKind::UnexpectedCharacter => "Unexpected character."@,
        DiagKind::NumberTooLarge => "Number literal out of range."@,
        DiagKind::ExpectedVariableName => "Expected a variable name."@,
        DiagKind::ExpectedSemicolon => "Expected ';' after the statement."@,
        DiagKind::ExpectedRightBrace => "Expected '}' after the block."@,
        DiagKind::ExpectedRightParen => "Expected ')' after the expression."@,
        DiagKind::ExpectedFrom => "Expected 'from' after the loop variable."@,
        DiagKind::ExpectedUntil => "Expected 'until' after the start expression."@,
        DiagKind::InvalidAssignmentTarget => "Invalid assignment target."@,
        DiagKind::ExpectedExpression(_) => "Expected an expression."@,
        DiagKind::TypeErrorUnaryMinus => "Unary '-' applies to numbers only."@,
        DiagKind::TypeErrorPlus => "'+' applies to numbers and strings only."@,
        DiagKind::TypeErrorArithmetic => "Arithmetic applies to numbers only."@,
        DiagKind::TypeErrorComparison => "Comparison applies to numbers only."@,
        DiagKind::TypeErrorPower => "'^' applies to numbers only."@,
        DiagKind::FractionalExponent => "'^' takes a whole-number exponent."@,
        DiagKind::DivisionByZero => "Division by zero."@,
        DiagKind::NumberOverflow => "Number out of range."@,
        DiagKind::UnknownVariable => d.name + " is an unknown variable."@,
        DiagKind::AssignUndeclared => d.name + " was never declared."@,
        DiagKind::UnsupportedStatement => "This statement form is not executed."@,
    }
}

impl Diag {
    /// The message text of this diagnostic.
    pub fn message(&self) -> (s: String)
        ensures
            s@ == message_spec(self@),
    {
        broadcast use vstd::string::to_string_from_display_ensures_for_str;

        match self.kind {
            DiagKind::UnterminatedString => "Unterminated string.".to_string(),
            DiagKind::UnexpectedCharacter => "Unexpected character.".to_string(),
            DiagKind::NumberTooLarge => "Number literal out of range.".to_string(),
            DiagKind::ExpectedVariableName => "Expected a variable name.".to_string(),
            DiagKind::ExpectedSemicolon => "Expected ';' after the statement.".to_string(),
            DiagKind::ExpectedRightBrace => "Expected '}' after the block.".to_string(),
            DiagKind::ExpectedRightParen => "Expected ')' after the expression.".to_string(),
            DiagKind::ExpectedFrom => "Expected 'from' after the loop variable.".to_string(),
            DiagKind::ExpectedUntil => "Expected 'until' after the start expression.".to_string(),
            DiagKind::InvalidAssignmentTarget => "Invalid assignment target.".to_string(),
            DiagKind::ExpectedExpression(_) => "Expected an expression.".to_string(),
            DiagKind::TypeErrorUnaryMinus => "Unary '-' applies to numbers only.".to_string(),
            DiagKind::TypeErrorPlus => "'+' applies to numbers and strings only.".to_string(),
            DiagKind::TypeErrorArithmetic => "Arithmetic applies to numbers only.".to_string(),
            DiagKind::TypeErrorComparison => "Comparison applies to numbers only.".to_string(),
            DiagKind::TypeErrorPower => "'^' applies to numbers only.".to_string(),
            DiagKind::FractionalExponent => "'^' takes a whole-number exponent.".to_string(),
            DiagKind::DivisionByZero => "Division by zero.".to_string(),
            DiagKind::NumberOverflow => "Number out of range.".to_string(),
            DiagKind::UnknownVariable => {
                let mut s = self.name.clone();
                s.append(" is an unknown variable.");
                s
            },
            DiagKind::AssignUndeclared => {
                let mut s = self.name.clone();
                s.append(" was never declared.");
                s
            },
            DiagKind::UnsupportedStatement => "This statement form is not executed.".to_string(),
        }
    }
}

/// The one-line form of a fatal diagnostic: `[line <N>] Error: <message>`.
pub open spec fn crash_text(line: int, msg: Seq<char>) -> Seq<char> {
    "[line "@ + dec_digits(line) + "] Error: "@ + msg
}

/// Renders the one-line diagnostic the shell prints before terminating.
pub fn crash(line: usize, message: &str) -> (r: String)
    ensures
        r@ == crash_text(line as int, message@),
{
    broadcast use vstd::string::to_string_from_display_ensures_for_str;

    let mut s = "[line ".to_string();
    let n = u64_text(line as u64);
    s.append(n.as_str());
    s.append("] Error: ");
    s.append(message);
    assert(s@ =~= crash_text(line as int, message@));
    s
}

/// The full rendered form of a diagnostic.
pub fn render_diag(d: &Diag) -> (r: String)
    ensures
        r@ == crash_text(d@.line, message_spec(d@)),
{
    let msg = d.message();
    crash(d.line, msg.as_str())
}

} // verus!
