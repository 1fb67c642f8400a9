//! Recursive-descent parsing.
//!
//! The parser consumes the token sequence with one token of lookahead and
//! builds the statement tree. Precedence, lowest to highest, each level
//! left-associative unless noted: assignment (which nests rightward), logical
//! or, logical and, equality, comparison, term, factor, unary, power,
//! primary. Every syntax error stops parsing at once with a line-numbered
//! diagnostic; there is no recovery.
//!
//! The whole parse is specified by the `p_*` spec functions, a token-level
//! model of the descent; every parsing method is proved to consume exactly
//! the model's tokens and to produce exactly its tree or diagnostic.

use vstd::prelude::*;

use crate::diag::{Diag, DiagKind, DiagV};
use crate::syntax::{
    expr_wf, if_view, if_wf, ifs_view, ifs_wf, opt_stmt_view, stmt_view, stmts_view, stmts_wf,
    stmt_wf, Expr, ExprV, If, IfV, Stmt, StmtV,
};
use crate::token::{tokv_wf, toks_view, LitV, Literal, Token, TokenV};
use crate::token_type::TokenType;

verus! {

/// A parsed expression with the next cursor, or the diagnostic that stopped
/// the parse.
pub enum PExpr {
    Found { e: ExprV, next: int },
    Failed(DiagV),
}

/// A parsed statement with the next cursor, or the diagnostic that stopped
/// the parse.
pub enum PStmt {
    Found { s: StmtV, next: int },
    Failed(DiagV),
}

/// A parsed statement sequence with the next cursor, or the diagnostic that
/// stopped the parse.
pub enum PStmts {
    Found { ss: Seq<StmtV>, next: int },
    Failed(DiagV),
}

/// A parsed else-if chain: the clauses, the optional else branch, and the
/// next cursor — or the diagnostic that stopped the parse.
pub enum PIfs {
    Found { elifs: Seq<IfV>, other: Option<Box<StmtV>>, next: int },
    Failed(DiagV),
}

/// A well-formed token sequence for parsing: non-empty, terminated by the
/// end-of-input token, every token well-formed.
pub open spec fn toks_wf(toks: Seq<TokenV>) -> bool {
    &&& toks.len() >= 1
    &&& toks.last().kind == TokenType::EOF
    &&& forall|i: int| 0 <= i < toks.len() ==> tokv_wf(#[trigger] toks[i])
}

/// The token at a position, clipped to the final token.
pub open spec fn at(toks: Seq<TokenV>, pos: int) -> TokenV {
    if 0 <= pos < toks.len() {
        toks[pos]
    } else {
        toks.last()
    }
}

/// A failure at the clipped position.
pub open spec fn fail_at(toks: Seq<TokenV>, pos: int, kind: DiagKind) -> DiagV {
    DiagV { line: at(toks, pos).line, kind, name: Seq::empty() }
}

/// The next cursor of a sub-parse, forced forward and into range so that
/// the descent always advances.
pub open spec fn fwd(toks: Seq<TokenV>, pos: int, next: int) -> int {
    let n = if next <= pos {
        pos + 1
    } else {
        next
    };
    if n > toks.len() {
        toks.len() as int
    } else {
        n
    }
}

/// Whether the token at `pos` exists and has the given kind.
pub open spec fn kind_at(toks: Seq<TokenV>, pos: int, k: TokenType) -> bool {
    0 <= pos < toks.len() && toks[pos].kind == k
}

/// A primary expression: a literal keyword, an identifier, a number or
/// string literal, or a parenthesized expression; any other token is a
/// fatal expected-expression error.
#[verifier::opaque]
pub open spec fn p_primary(toks: Seq<TokenV>, pos: int) -> PExpr
    decreases toks.len() - pos, 0int,
{
    if !(0 <= pos < toks.len()) {
        PExpr::Failed(fail_at(toks, pos, DiagKind::ExpectedExpression(TokenType::EOF)))
    } else {
        let t = toks[pos];
        if t.kind == TokenType::True {
            PExpr::Found { e: ExprV::Lit(LitV::True), next: pos + 1 }
        } else if t.kind == TokenType::False {
            PExpr::Found { e: ExprV::Lit(LitV::False), next: pos + 1 }
        } else if t.kind == TokenType::Nil {
            PExpr::Found { e: ExprV::Lit(LitV::Nil), next: pos + 1 }
        } else if t.kind == TokenType::Identifier {
            PExpr::Found { e: ExprV::Var(t), next: pos + 1 }
        } else if t.kind == TokenType::Number || t.kind == TokenType::String {
            PExpr::Found { e: ExprV::Lit(t.literal), next: pos + 1 }
        } else if t.kind == TokenType::LeftParen {
            match p_expression(toks, pos + 1) {
                PExpr::Found { e, next } => {
                    let q = fwd(toks, pos + 1, next);
                    if kind_at(toks, q, TokenType::RightParen) {
                        PExpr::Found { e: ExprV::Grouping(Box::new(e)), next: q + 1 }
                    } else {
                        PExpr::Failed(fail_at(toks, q, DiagKind::ExpectedRightParen))
                    }
                },
                PExpr::Failed(d) => PExpr::Failed(d),
            }
        } else {
            PExpr::Failed(fail_at(toks, pos, DiagKind::ExpectedExpression(t.kind)))
        }
    }
}

/// The rest of a LOWA power expression: primaries joined by `^`, left-associative. chain, folding onto `acc` left-associatively.
#[verifier::opaque]
pub open spec fn p_power_rest(toks: Seq<TokenV>, acc: ExprV, pos: int) -> PExpr
    decreases toks.len() - pos, 1int,
{
    if kind_at(toks, pos, TokenType::Caret) {
        let t = toks[pos];
        match p_primary(toks, pos + 1) {
            PExpr::Found { e, next } => p_power_rest(
                toks,
                ExprV::Binary(Box::new(acc), t, Box::new(e)),
                fwd(toks, pos + 1, next),
            ),
            PExpr::Failed(d) => PExpr::Failed(d),
        }
    } else {
        PExpr::Found { e: acc, next: pos }
    }
}

/// A power expression: primaries joined by `^`, left-associative.
#[verifier::opaque]
pub open spec fn p_power(toks: Seq<TokenV>, pos: int) -> PExpr
    decreases toks.len() - pos, 2int,
{
    if !(0 <= pos < toks.len()) {
        PExpr::Failed(fail_at(toks, pos, DiagKind::ExpectedExpression(TokenType::EOF)))
    } else {
        match p_primary(toks, pos) {
            PExpr::Found { e, next } => p_power_rest(toks, e, fwd(toks, pos, next)),
            PExpr::Failed(d) => PExpr::Failed(d),
        }
    }
}

/// The rest of a LOWA factor: unaries joined by `*` or `/`, left-associative. chain, folding onto `acc` left-associatively.
#[verifier::opaque]
pub open spec fn p_factor_rest(toks: Seq<TokenV>, acc: ExprV, pos: int) -> PExpr
    decreases toks.len() - pos, 4int,
{
    if kind_at(toks, pos, TokenType::Star) || kind_at(toks, pos, TokenType::Slash) {
        let t = toks[pos];
        match p_unary(toks, pos + 1) {
            PExpr::Found { e, next } => p_factor_rest(
                toks,
                ExprV::Binary(Box::new(acc), t, Box::new(e)),
                fwd(toks, pos + 1, next),
            ),
            PExpr::Failed(d) => PExpr::Failed(d),
        }
    } else {
        PExpr::Found { e: acc, next: pos }
    }
}

/// A factor: unaries joined by `*` or `/`, left-associative.
#[verifier::opaque]
pub open spec fn p_factor(toks: Seq<TokenV>, pos: int) -> PExpr
    decreases toks.len() - pos, 5int,
{
    if !(0 <= pos < toks.len()) {
        PExpr::Failed(fail_at(toks, pos, DiagKind::ExpectedExpression(TokenType::EOF)))
    } else {
        match p_unary(toks, pos) {
            PExpr::Found { e, next } => p_factor_rest(toks, e, fwd(toks, pos, next)),
            PExpr::Failed(d) => PExpr::Failed(d),
        }
    }
}

/// The rest of a LOWA term: factors joined by `+` or `-`, left-associative. chain, folding onto `acc` left-associatively.
#[verifier::opaque]
pub open spec fn p_term_rest(toks: Seq<TokenV>, acc: ExprV, pos: int) -> PExpr
    decreases toks.len() - pos, 6int,
{
    if kind_at(toks, pos, TokenType::Plus) || kind_at(toks, pos, TokenType::Minus) {
        let t = toks[pos];
        match p_factor(toks, pos + 1) {
            PExpr::Found { e, next } => p_term_rest(
                toks,
                ExprV::Binary(Box::new(acc), t, Box::new(e)),
                fwd(toks, pos + 1, next),
            ),
            PExpr::Failed(d) => PExpr::Failed(d),
        }
    } else {
        PExpr::Found { e: acc, next: pos }
    }
}

/// A term: factors joined by `+` or `-`, left-associative.
#[verifier::opaque]
pub open spec fn p_term(toks: Seq<TokenV>, pos: int) -> PExpr
    decreases toks.len() - pos, 7int,
{
    if !(0 <= pos < toks.len()) {
        PExpr::Failed(fail_at(toks, pos, DiagKind::ExpectedExpression(TokenType::EOF)))
    } else {
        match p_factor(toks, pos) {
            PExpr::Found { e, next } => p_term_rest(toks, e, fwd(toks, pos, next)),
            PExpr::Failed(d) => PExpr::Failed(d),
        }
    }
}

/// The rest of a LOWA comparison: terms joined by `>`, `>=`, `<` or `<=`, left-associative. chain, folding onto `acc` left-associatively.
#[verifier::opaque]
pub open spec fn p_comparison_rest(toks: Seq<TokenV>, acc: ExprV, pos: int) -> PExpr
    decreases toks.len() - pos, 8int,
{
    if kind_at(toks, pos, TokenType::Greater) || kind_at(toks, pos, TokenType::GreaterEqual) || kind_at(toks, pos, TokenType::Less) || kind_at(toks, pos, TokenType::LessEqual) {
        let t = toks[pos];
        match p_term(toks, pos + 1) {
            PExpr::Found { e, next } => p_comparison_rest(
                toks,
                ExprV::Binary(Box::new(acc), t, Box::new(e)),
                fwd(toks, pos + 1, next),
            ),
            PExpr::Failed(d) => PExpr::Failed(d),
        }
    } else {
        PExpr::Found { e: acc, next: pos }
    }
}

/// A comparison: terms joined by `>`, `>=`, `<` or `<=`, left-associative.
#[verifier::opaque]
pub open spec fn p_comparison(toks: Seq<TokenV>, pos: int) -> PExpr
    decreases toks.len() - pos, 9int,
{
    if !(0 <= pos < toks.len()) {
        PExpr::Failed(fail_at(toks, pos, DiagKind::ExpectedExpression(TokenType::EOF)))
    } else {
        match p_term(toks, pos) {
            PExpr::Found { e, next } => p_comparison_rest(toks, e, fwd(toks, pos, next)),
            PExpr::Failed(d) => PExpr::Failed(d),
        }
    }
}

/// The rest of a LOWAn equality: comparisons joined by `!=` or `==`, left-associative. chain, folding onto `acc` left-associatively.
#[verifier::opaque]
pub open spec fn p_equality_rest(toks: Seq<TokenV>, acc: ExprV, pos: int) -> PExpr
    decreases toks.len() - pos, 10int,
{
    if kind_at(toks, pos, TokenType::BangEqual) || kind_at(toks, pos, TokenType::EqualEqual) {
        let t = toks[pos];
        match p_comparison(toks, pos + 1) {
            PExpr::Found { e, next } => p_equality_rest(
                toks,
                ExprV::Binary(Box::new(acc), t, Box::new(e)),
                fwd(toks, pos + 1, next),
            ),
            PExpr::Failed(d) => PExpr::Failed(d),
        }
    } else {
        PExpr::Found { e: acc, next: pos }
    }
}

/// An equality: comparisons joined by `!=` or `==`, left-associative.
#[verifier::opaque]
pub open spec fn p_equality(toks: Seq<TokenV>, pos: int) -> PExpr
    decreases toks.len() - pos, 11int,
{
    if !(0 <= pos < toks.len()) {
        PExpr::Failed(fail_at(toks, pos, DiagKind::ExpectedExpression(TokenType::EOF)))
    } else {
        match p_comparison(toks, pos) {
            PExpr::Found { e, next } => p_equality_rest(toks, e, fwd(toks, pos, next)),
            PExpr::Failed(d) => PExpr::Failed(d),
        }
    }
}

/// The rest of a LOWA logical and: equalities joined by `and`, left-associative. chain, folding onto `acc` left-associatively.
#[verifier::opaque]
pub open spec fn p_and_rest(toks: Seq<TokenV>, acc: ExprV, pos: int) -> PExpr
    decreases toks.len() - pos, 12int,
{
    if kind_at(toks, pos, TokenType::And) {
        let t = toks[pos];
        match p_equality(toks, pos + 1) {
            PExpr::Found { e, next } => p_and_rest(
                toks,
                ExprV::Logic(Box::new(acc), t, Box::new(e)),
                fwd(toks, pos + 1, next),
            ),
            PExpr::Failed(d) => PExpr::Failed(d),
        }
    } else {
        PExpr::Found { e: acc, next: pos }
    }
}

/// A logical and: equalities joined by `and`, left-associative.
#[verifier::opaque]
pub open spec fn p_and(toks: Seq<TokenV>, pos: int) -> PExpr
    decreases toks.len() - pos, 13int,
{
    if !(0 <= pos < toks.len()) {
        PExpr::Failed(fail_at(toks, pos, DiagKind::ExpectedExpression(TokenType::EOF)))
    } else {
        match p_equality(toks, pos) {
            PExpr::Found { e, next } => p_and_rest(toks, e, fwd(toks, pos, next)),
            PExpr::Failed(d) => PExpr::Failed(d),
        }
    }
}

/// The rest of a LOWA logical or: ands joined by `or`, left-associative. chain, folding onto `acc` left-associatively.
#[verifier::opaque]
pub open spec fn p_or_rest(toks: Seq<TokenV>, acc: ExprV, pos: int) -> PExpr
    decreases toks.len() - pos, 14int,
{
    if kind_at(toks, pos, TokenType::Or) {
        let t = toks[pos];
        match p_and(toks, pos + 1) {
            PExpr::Found { e, next } => p_or_rest(
                toks,
                ExprV::Logic(Box::new(acc), t, Box::new(e)),
                fwd(toks, pos + 1, next),
            ),
            PExpr::Failed(d) => PExpr::Failed(d),
        }
    } else {
        PExpr::Found { e: acc, next: pos }
    }
}

/// A logical or: ands joined by `or`, left-associative.
#[verifier::opaque]
pub open spec fn p_or(toks: Seq<TokenV>, pos: int) -> PExpr
    decreases toks.len() - pos, 15int,
{
    if !(0 <= pos < toks.len()) {
        PExpr::Failed(fail_at(toks, pos, DiagKind::ExpectedExpression(TokenType::EOF)))
    } else {
        match p_and(toks, pos) {
            PExpr::Found { e, next } => p_or_rest(toks, e, fwd(toks, pos, next)),
            PExpr::Failed(d) => PExpr::Failed(d),
        }
    }
}

/// A unary expression: one optional `!` or `-` over a power expression, so
/// unary binds looser than power and `-x^2` parses as `-(x^2)`.
#[verifier::opaque]
pub open spec fn p_unary(toks: Seq<TokenV>, pos: int) -> PExpr
    decreases toks.len() - pos, 3int,
{
    if kind_at(toks, pos, TokenType::Bang) || kind_at(toks, pos, TokenType::Minus) {
        let t = toks[pos];
        match p_power(toks, pos + 1) {
            PExpr::Found { e, next } => PExpr::Found { e: ExprV::Unary(t, Box::new(e)), next },
            PExpr::Failed(d) => PExpr::Failed(d),
        }
    } else {
        p_power(toks, pos)
    }
}

/// An assignment: a bare variable reference before `=` assigns, nesting to
/// the right; any other left side before `=` is a fatal
/// invalid-assignment-target error at the `=` token's line.
#[verifier::opaque]
pub open spec fn p_assignment(toks: Seq<TokenV>, pos: int) -> PExpr
    decreases toks.len() - pos, 16int,
{
    if !(0 <= pos < toks.len()) {
        PExpr::Failed(fail_at(toks, pos, DiagKind::ExpectedExpression(TokenType::EOF)))
    } else {
        match p_or(toks, pos) {
            PExpr::Found { e, next } => {
                let q = if next <= pos {
                    pos + 1
                } else {
                    next
                };
                if kind_at(toks, q, TokenType::Equal) {
                    let eq = toks[q];
                    match p_assignment(toks, q + 1) {
                        PExpr::Found { e: value, next: n2 } => match e {
                            ExprV::Var(name) => PExpr::Found {
                                e: ExprV::Assign(name, Box::new(value)),
                                next: n2,
                            },
                            _ => PExpr::Failed(
                                DiagV {
                                    line: eq.line,
                                    kind: DiagKind::InvalidAssignmentTarget,
                                    name: Seq::empty(),
                                },
                            ),
                        },
                        PExpr::Failed(d) => PExpr::Failed(d),
                    }
                } else {
                    PExpr::Found { e, next }
                }
            },
            PExpr::Failed(d) => PExpr::Failed(d),
        }
    }
}

/// An expression: assignment is the lowest precedence level.
#[verifier::opaque]
pub open spec fn p_expression(toks: Seq<TokenV>, pos: int) -> PExpr
    decreases toks.len() - pos, 17int,
{
    p_assignment(toks, pos)
}

/// An expression statement: an expression, then `;`.
#[verifier::opaque]
pub open spec fn p_expr_statement(toks: Seq<TokenV>, pos: int) -> PStmt
    decreases toks.len() - pos, 18int,
{
    match p_expression(toks, pos) {
        PExpr::Found { e, next } => if kind_at(toks, next, TokenType::Semicolon) {
            PStmt::Found { s: StmtV::Expr(e), next: next + 1 }
        } else {
            PStmt::Failed(fail_at(toks, next, DiagKind::ExpectedSemicolon))
        },
        PExpr::Failed(d) => PStmt::Failed(d),
    }
}

/// A print statement body (after the keyword): an expression, then `;`.
#[verifier::opaque]
pub open spec fn p_print_statement(toks: Seq<TokenV>, pos: int) -> PStmt
    decreases toks.len() - pos, 18int,
{
    match p_expression(toks, pos) {
        PExpr::Found { e, next } => if kind_at(toks, next, TokenType::Semicolon) {
            PStmt::Found { s: StmtV::Print(e), next: next + 1 }
        } else {
            PStmt::Failed(fail_at(toks, next, DiagKind::ExpectedSemicolon))
        },
        PExpr::Failed(d) => PStmt::Failed(d),
    }
}

/// A print-line statement body (after the keyword).
#[verifier::opaque]
pub open spec fn p_println_statement(toks: Seq<TokenV>, pos: int) -> PStmt
    decreases toks.len() - pos, 18int,
{
    match p_expression(toks, pos) {
        PExpr::Found { e, next } => if kind_at(toks, next, TokenType::Semicolon) {
            PStmt::Found { s: StmtV::Println(e), next: next + 1 }
        } else {
            PStmt::Failed(fail_at(toks, next, DiagKind::ExpectedSemicolon))
        },
        PExpr::Failed(d) => PStmt::Failed(d),
    }
}

/// A variable declaration body (after `var`): a name, an optional `=`
/// initializer (nil where absent), then `;`.
#[verifier::opaque]
pub open spec fn p_var_declaration(toks: Seq<TokenV>, pos: int) -> PStmt
    decreases toks.len() - pos, 18int,
{
    if kind_at(toks, pos, TokenType::Identifier) {
        let name = toks[pos];
        if kind_at(toks, pos + 1, TokenType::Equal) {
            match p_expression(toks, pos + 2) {
                PExpr::Found { e, next } => if kind_at(toks, next, TokenType::Semicolon) {
                    PStmt::Found { s: StmtV::Var(name, e), next: next + 1 }
                } else {
                    PStmt::Failed(fail_at(toks, next, DiagKind::ExpectedSemicolon))
                },
                PExpr::Failed(d) => PStmt::Failed(d),
            }
        } else {
            if kind_at(toks, pos + 1, TokenType::Semicolon) {
                PStmt::Found { s: StmtV::Var(name, ExprV::Lit(LitV::Nil)), next: pos + 2 }
            } else {
                PStmt::Failed(fail_at(toks, pos + 1, DiagKind::ExpectedSemicolon))
            }
        }
    } else {
        PStmt::Failed(fail_at(toks, pos, DiagKind::ExpectedVariableName))
    }
}

/// The contents of a block (after `{`): declarations until `}`, collected in
/// source order.
#[verifier::opaque]
pub open spec fn p_block_rest(toks: Seq<TokenV>, acc: Seq<StmtV>, pos: int) -> PStmt
    decreases toks.len() - pos, 21int,
{
    if 0 <= pos < toks.len() && toks[pos].kind != TokenType::RightBrace && toks[pos].kind
        != TokenType::EOF {
        match p_declaration(toks, pos) {
            PStmt::Found { s, next } => p_block_rest(toks, acc.push(s), fwd(toks, pos, next)),
            PStmt::Failed(d) => PStmt::Failed(d),
        }
    } else {
        if kind_at(toks, pos, TokenType::RightBrace) {
            PStmt::Found { s: StmtV::Block(acc), next: pos + 1 }
        } else {
            PStmt::Failed(fail_at(toks, pos, DiagKind::ExpectedRightBrace))
        }
    }
}

/// A block statement body (after `{`).
#[verifier::opaque]
pub open spec fn p_block_statement(toks: Seq<TokenV>, pos: int) -> PStmt
    decreases toks.len() - pos, 22int,
{
    p_block_rest(toks, Seq::empty(), pos)
}

/// The else-if chain of an if statement: `else if` clauses in source order,
/// then at most one bare `else` branch, which ends the chain.
#[verifier::opaque]
pub open spec fn p_elifs(toks: Seq<TokenV>, acc: Seq<IfV>, pos: int) -> PIfs
    decreases toks.len() - pos, 21int,
{
    if kind_at(toks, pos, TokenType::Else) {
        if kind_at(toks, pos + 1, TokenType::If) {
            match p_expression(toks, pos + 2) {
                PExpr::Found { e: cond, next } => match p_statement(toks, fwd(toks, pos + 2, next)) {
                    PStmt::Found { s: body, next: n2 } => p_elifs(
                        toks,
                        acc.push(IfV { cond, body: Box::new(body) }),
                        fwd(toks, pos + 2, n2),
                    ),
                    PStmt::Failed(d) => PIfs::Failed(d),
                },
                PExpr::Failed(d) => PIfs::Failed(d),
            }
        } else {
            match p_statement(toks, pos + 1) {
                PStmt::Found { s, next } => PIfs::Found {
                    elifs: acc,
                    other: Some(Box::new(s)),
                    next,
                },
                PStmt::Failed(d) => PIfs::Failed(d),
            }
        }
    } else {
        PIfs::Found { elifs: acc, other: None, next: pos }
    }
}

/// An if statement body (after `if`): a condition, a branch, then the
/// else-if chain.
#[verifier::opaque]
pub open spec fn p_if_statement(toks: Seq<TokenV>, pos: int) -> PStmt
    decreases toks.len() - pos, 22int,
{
    if !(0 <= pos < toks.len()) {
        PStmt::Failed(fail_at(toks, pos, DiagKind::ExpectedExpression(TokenType::EOF)))
    } else {
        match p_expression(toks, pos) {
            PExpr::Found { e: cond, next } => match p_statement(toks, fwd(toks, pos, next)) {
                PStmt::Found { s: body, next: n2 } => match p_elifs(
                    toks,
                    Seq::empty(),
                    fwd(toks, pos, n2),
                ) {
                    PIfs::Found { elifs, other, next: n3 } => PStmt::Found {
                        s: StmtV::If(IfV { cond, body: Box::new(body) }, elifs, other),
                        next: n3,
                    },
                    PIfs::Failed(d) => PStmt::Failed(d),
                },
                PStmt::Failed(d) => PStmt::Failed(d),
            },
            PExpr::Failed(d) => PStmt::Failed(d),
        }
    }
}

/// A while statement body (after `while`): a condition and a body. The
/// parser builds it; the evaluator refuses it.
#[verifier::opaque]
pub open spec fn p_while_statement(toks: Seq<TokenV>, pos: int) -> PStmt
    decreases toks.len() - pos, 22int,
{
    if !(0 <= pos < toks.len()) {
        PStmt::Failed(fail_at(toks, pos, DiagKind::ExpectedExpression(TokenType::EOF)))
    } else {
        match p_expression(toks, pos) {
            PExpr::Found { e: cond, next } => match p_statement(toks, fwd(toks, pos, next)) {
                PStmt::Found { s: body, next: n2 } => PStmt::Found {
                    s: StmtV::While(cond, Box::new(body)),
                    next: n2,
                },
                PStmt::Failed(d) => PStmt::Failed(d),
            },
            PExpr::Failed(d) => PStmt::Failed(d),
        }
    }
}

/// A for statement body (after `for`): a loop variable, `from`, a start
/// expression, `until`, an end expression, and a body. The parser builds it;
/// the evaluator refuses it.
#[verifier::opaque]
pub open spec fn p_for_statement(toks: Seq<TokenV>, pos: int) -> PStmt
    decreases toks.len() - pos, 22int,
{
    if kind_at(toks, pos, TokenType::Identifier) {
        let name = toks[pos];
        if kind_at(toks, pos + 1, TokenType::From) {
            match p_expression(toks, pos + 2) {
                PExpr::Found { e: start, next } => {
                    let q = fwd(toks, pos + 2, next);
                    if kind_at(toks, q, TokenType::Until) {
                        match p_expression(toks, q + 1) {
                            PExpr::Found { e: end, next: n2 } => match p_statement(
                                toks,
                                fwd(toks, q + 1, n2),
                            ) {
                                PStmt::Found { s: body, next: n3 } => PStmt::Found {
                                    s: StmtV::For(name, start, end, Box::new(body)),
                                    next: n3,
                                },
                                PStmt::Failed(d) => PStmt::Failed(d),
                            },
                            PExpr::Failed(d) => PStmt::Failed(d),
                        }
                    } else {
                        PStmt::Failed(fail_at(toks, q, DiagKind::ExpectedUntil))
                    }
                },
                PExpr::Failed(d) => PStmt::Failed(d),
            }
        } else {
            PStmt::Failed(fail_at(toks, pos + 1, DiagKind::ExpectedFrom))
        }
    } else {
        PStmt::Failed(fail_at(toks, pos, DiagKind::ExpectedVariableName))
    }
}

/// A statement: print, print-line, block, if, while, for, or an expression
/// statement.
#[verifier::opaque]
pub open spec fn p_statement(toks: Seq<TokenV>, pos: int) -> PStmt
    decreases toks.len() - pos, 19int,
{
    if kind_at(toks, pos, TokenType::Print) {
        p_print_statement(toks, pos + 1)
    } else if kind_at(toks, pos, TokenType::Println) {
        p_println_statement(toks, pos + 1)
    } else if kind_at(toks, pos, TokenType::LeftBrace) {
        p_block_statement(toks, pos + 1)
    } else if kind_at(toks, pos, TokenType::If) {
        p_if_statement(toks, pos + 1)
    } else if kind_at(toks, pos, TokenType::While) {
        p_while_statement(toks, pos + 1)
    } else if kind_at(toks, pos, TokenType::For) {
        p_for_statement(toks, pos + 1)
    } else {
        p_expr_statement(toks, pos)
    }
}

/// A declaration: a variable declaration or a statement.
#[verifier::opaque]
pub open spec fn p_declaration(toks: Seq<TokenV>, pos: int) -> PStmt
    decreases toks.len() - pos, 20int,
{
    if kind_at(toks, pos, TokenType::Var) {
        p_var_declaration(toks, pos + 1)
    } else {
        p_statement(toks, pos)
    }
}

/// The rest of a program: declarations until the end of input, collected in
/// source order.
#[verifier::opaque]
pub open spec fn p_program_rest(toks: Seq<TokenV>, acc: Seq<StmtV>, pos: int) -> PStmts
    decreases toks.len() - pos, 21int,
{
    if 0 <= pos < toks.len() && toks[pos].kind != TokenType::EOF {
        match p_declaration(toks, pos) {
            PStmt::Found { s, next } => p_program_rest(toks, acc.push(s), fwd(toks, pos, next)),
            PStmt::Failed(d) => PStmts::Failed(d),
        }
    } else {
        PStmts::Found { ss: acc, next: pos }
    }
}

/// A whole program: zero or more declarations, consuming the entire token
/// sequence.
pub open spec fn p_program(toks: Seq<TokenV>) -> PStmts {
    p_program_rest(toks, Seq::empty(), 0)
}

/// The recursive-descent parser: the token sequence and a cursor with one
/// token of lookahead.
pub struct Parser {
    tokens: Vec<Token>,
    current: usize,
}

impl Parser {
    /// The ghost token sequence under parse.
    pub closed spec fn toks(&self) -> Seq<TokenV> {
        toks_view(self.tokens@)
    }

    /// The cursor.
    pub closed spec fn pos(&self) -> int {
        self.current as int
    }

    /// The parser's internal consistency: well-formed tokens, cursor in
    /// range.
    pub closed spec fn inv(&self) -> bool {
        &&& toks_wf(self.toks())
        &&& self.current < self.tokens@.len()
    }

    /// A parser over a token sequence, at its start.
    pub fn new(tokens: Vec<Token>) -> (r: Parser)
        requires
            toks_wf(toks_view(tokens@)),
        ensures
            r.inv(),
            r.toks() == toks_view(tokens@),
            r.pos() == 0,
    {
        let r = Parser { tokens, current: 0 };
        proof {
            assert(r.toks().len() == r.tokens@.len());
        }
        r
    }

    /// The token under the cursor.
    fn peek(&self) -> (t: &Token)
        requires
            self.inv(),
        ensures
            t@ == self.toks()[self.pos()],
    {
        &self.tokens[self.current]
    }

    /// The token just consumed.
    fn previous(&self) -> (t: Token)
        requires
            self.inv(),
            self.pos() >= 1,
        ensures
            t@ == self.toks()[self.pos() - 1],
    {
        self.tokens[self.current - 1].clone()
    }

    /// Whether the cursor stands on the end-of-input token.
    fn is_at_end(&self) -> (r: bool)
        requires
            self.inv(),
        ensures
            r == (self.toks()[self.pos()].kind == TokenType::EOF),
    {
        self.tokens[self.current].kind == TokenType::EOF
    }

    /// Whether the token under the cursor has the given kind (never true at
    /// the end of input).
    fn check(&self, kind: TokenType) -> (r: bool)
        requires
            self.inv(),
        ensures
            r == (self.toks()[self.pos()].kind == kind && self.toks()[self.pos()].kind
                != TokenType::EOF),
    {
        if self.is_at_end() {
            false
        } else {
            self.tokens[self.current].kind == kind
        }
    }

    /// Consumes and returns the token under the cursor.
    fn advance(&mut self) -> (t: Token)
        requires
            old(self).inv(),
            old(self).toks()[old(self).pos()].kind != TokenType::EOF,
        ensures
            final(self).inv(),
            final(self).toks() == old(self).toks(),
            final(self).pos() == old(self).pos() + 1,
            t@ == old(self).toks()[old(self).pos()],
    {
        proof {
            assert(self.toks().last() == self.toks()[self.toks().len() - 1]);
        }
        let n = self.tokens.len();
        self.current = self.current + 1;
        self.previous()
    }

    /// Consumes the token under the cursor where it has the given kind.
    fn matches(&mut self, kind: TokenType) -> (r: bool)
        requires
            old(self).inv(),
            kind != TokenType::EOF,
        ensures
            final(self).inv(),
            final(self).toks() == old(self).toks(),
            r == (old(self).toks()[old(self).pos()].kind == kind),
            r ==> final(self).pos() == old(self).pos() + 1,
            !r ==> final(self).pos() == old(self).pos(),
    {
        if self.check(kind) {
            self.advance();
            true
        } else {
            false
        }
    }

    /// Consumes a token of the given kind, or fails with the given
    /// diagnostic kind at the current token's line.
    fn consume(&mut self, kind: TokenType, err: DiagKind) -> (r: Result<Token, Diag>)
        requires
            old(self).inv(),
            kind != TokenType::EOF,
        ensures
            final(self).inv(),
            final(self).toks() == old(self).toks(),
            match r {
                Ok(t) => old(self).toks()[old(self).pos()].kind == kind && t@ == old(self).toks()[old(
                    self,
                ).pos()] && final(self).pos() == old(self).pos() + 1,
                Err(d) => old(self).toks()[old(self).pos()].kind != kind && d@ == (DiagV {
                    line: old(self).toks()[old(self).pos()].line,
                    kind: err,
                    name: Seq::empty(),
                }) && final(self).pos() == old(self).pos(),
            },
    {
        if self.check(kind) {
            Ok(self.advance())
        } else {
            let line = self.peek().line;
            Err(Diag::new(line, err))
        }
    }




    /// A primary expression: a literal keyword, an identifier, a number or
    /// string literal, or a parenthesized expression.
    #[verifier::spinoff_prover]
    #[verifier::rlimit(100)]
    fn primary(&mut self) -> (r: Result<Expr, Diag>)
        requires
            old(self).inv(),
        ensures
            final(self).inv(),
            final(self).toks() == old(self).toks(),
            ({
                let ps = p_primary(old(self).toks(), old(self).pos());
                match r {
                    Ok(e) => ps matches PExpr::Found { e: se, next: sn } && e@ == se && expr_wf(e@)
                        && final(self).pos() == sn && old(self).pos() < sn,
                    Err(d) => ps matches PExpr::Failed(sd) && d@ == sd,
                }
            }),
        decreases self.toks().len() - self.pos(), 0int,
    {
        let ghost t0 = self.toks();
        let ghost pos0 = self.pos();
        proof {
            assert(tokv_wf(t0[pos0]));
        }
        if self.matches(TokenType::True) {
            proof {
                reveal_with_fuel(p_primary, 2); reveal_with_fuel(p_assignment, 2); reveal_with_fuel(p_or, 1);
            }
            Ok(Expr::Lit(Literal::True))
        } else if self.matches(TokenType::False) {
            proof {
                reveal_with_fuel(p_primary, 2); reveal_with_fuel(p_assignment, 2); reveal_with_fuel(p_or, 1);
            }
            Ok(Expr::Lit(Literal::False))
        } else if self.matches(TokenType::Nil) {
            proof {
                reveal_with_fuel(p_primary, 2); reveal_with_fuel(p_assignment, 2); reveal_with_fuel(p_or, 1);
            }
            Ok(Expr::Lit(Literal::Nil))
        } else if self.matches(TokenType::Identifier) {
            proof {
                reveal_with_fuel(p_primary, 2); reveal_with_fuel(p_assignment, 2); reveal_with_fuel(p_or, 1);
            }
            Ok(Expr::Var(self.previous()))
        } else if self.matches(TokenType::Number) || self.matches(TokenType::String) {
            let t = self.previous();
            proof {
                reveal_with_fuel(p_primary, 2); reveal_with_fuel(p_assignment, 2); reveal_with_fuel(p_or, 1);
                assert(p_primary(t0, pos0) == (PExpr::Found {
                    e: ExprV::Lit(t0[pos0].literal),
                    next: pos0 + 1,
                }));
            }
            Ok(Expr::Lit(t.literal))
        } else if self.matches(TokenType::LeftParen) {
            let re = self.expression();
            let e = match re {
                Ok(e) => e,
                Err(d) => {
                    proof {
                        reveal_with_fuel(p_primary, 2); reveal_with_fuel(p_assignment, 2); reveal_with_fuel(p_or, 1);
                        assert(p_primary(t0, pos0) == PExpr::Failed(d@));
                    }
                    return Err(d);
                },
            };
            proof {
                reveal_with_fuel(p_primary, 2); reveal_with_fuel(p_assignment, 2); reveal_with_fuel(p_or, 1);
                assert(fwd(t0, pos0 + 1, self.pos()) == self.pos());
            }
            let rc = self.consume(TokenType::RightParen, DiagKind::ExpectedRightParen);
            match rc {
                Ok(_) => {
                    proof {
                        reveal_with_fuel(p_primary, 2); reveal_with_fuel(p_assignment, 2); reveal_with_fuel(p_or, 1);
                        assert(p_primary(t0, pos0) == (PExpr::Found {
                            e: ExprV::Grouping(Box::new(e@)),
                            next: self.pos(),
                        }));
                    }
                    Ok(Expr::Grouping(Box::new(e)))
                },
                Err(d) => {
                    proof {
                        reveal_with_fuel(p_primary, 2); reveal_with_fuel(p_assignment, 2); reveal_with_fuel(p_or, 1);
                        assert(p_primary(t0, pos0) == PExpr::Failed(d@));
                    }
                    Err(d)
                },
            }
        } else {
            let line = self.peek().line;
            let kind = self.peek().kind;
            proof {
                reveal_with_fuel(p_primary, 2); reveal_with_fuel(p_assignment, 2); reveal_with_fuel(p_or, 1);
            }
            Err(Diag::new(line, DiagKind::ExpectedExpression(kind)))
        }
    }

    /// A power expression: primaries joined by `^`, left-associative.
    fn power(&mut self) -> (r: Result<Expr, Diag>)
        requires
            old(self).inv(),
        ensures
            final(self).inv(),
            final(self).toks() == old(self).toks(),
            ({
                let ps = p_power(old(self).toks(), old(self).pos());
                match r {
                    Ok(e) => ps matches PExpr::Found { e: se, next: sn } && e@ == se && expr_wf(e@)
                        && final(self).pos() == sn && old(self).pos() < sn,
                    Err(d) => ps matches PExpr::Failed(sd) && d@ == sd,
                }
            }),
        decreases self.toks().len() - self.pos(), 2int,
    {
        let ghost t0 = self.toks();
        let ghost pos0 = self.pos();
        let rf = self.primary();
        match rf {
            Ok(first) => {
                proof {
                    reveal_with_fuel(p_power, 2); reveal_with_fuel(p_primary, 2); reveal_with_fuel(p_power_rest, 2);
                    assert(fwd(t0, pos0, self.pos()) == self.pos());
                    assert(p_power(t0, pos0) == p_power_rest(t0, first@, self.pos()));
                }
                self.power_rest(first)
            },
            Err(d) => {
                proof {
                    reveal_with_fuel(p_power, 2); reveal_with_fuel(p_primary, 2); reveal_with_fuel(p_power_rest, 2);
                    assert(p_power(t0, pos0) == PExpr::Failed(d@));
                }
                Err(d)
            },
        }
    }

    /// The rest of a power chain, folding further operators onto the
    /// accumulated left operand.
    fn power_rest(&mut self, acc: Expr) -> (r: Result<Expr, Diag>)
        requires
            old(self).inv(),
            expr_wf(acc@),
        ensures
            final(self).inv(),
            final(self).toks() == old(self).toks(),
            ({
                let ps = p_power_rest(old(self).toks(), acc@, old(self).pos());
                match r {
                    Ok(e) => ps matches PExpr::Found { e: se, next: sn } && e@ == se && expr_wf(e@)
                        && final(self).pos() == sn && old(self).pos() <= sn,
                    Err(d) => ps matches PExpr::Failed(sd) && d@ == sd,
                }
            }),
        decreases self.toks().len() - self.pos(), 1int,
    {
        let ghost t0 = self.toks();
        let ghost pos0 = self.pos();
        if self.check(TokenType::Caret) {
            let op = self.advance();
            let rr = self.primary();
            let right = match rr {
                Ok(e) => e,
                Err(d) => {
                    proof {
                        reveal_with_fuel(p_power_rest, 2); reveal_with_fuel(p_primary, 2);
                        assert(p_power_rest(t0, acc@, pos0) == PExpr::Failed(d@));
                    }
                    return Err(d);
                },
            };
            proof {
                reveal_with_fuel(p_power_rest, 2); reveal_with_fuel(p_primary, 2);
                assert(fwd(t0, pos0 + 1, self.pos()) == self.pos());
                assert(p_power_rest(t0, acc@, pos0) == p_power_rest(
                    t0,
                    ExprV::Binary(Box::new(acc@), t0[pos0], Box::new(right@)),
                    self.pos(),
                ));
            }
            self.power_rest(Expr::Binary(Box::new(acc), op, Box::new(right)))
        } else {
            proof {
                reveal_with_fuel(p_power_rest, 2); reveal_with_fuel(p_primary, 2);
                assert(p_power_rest(t0, acc@, pos0) == (PExpr::Found { e: acc@, next: pos0 }));
            }
            Ok(acc)
        }
    }

    /// A factor: unaries joined by `*` or `/`, left-associative.
    fn factor(&mut self) -> (r: Result<Expr, Diag>)
        requires
            old(self).inv(),
        ensures
            final(self).inv(),
            final(self).toks() == old(self).toks(),
            ({
                let ps = p_factor(old(self).toks(), old(self).pos());
                match r {
                    Ok(e) => ps matches PExpr::Found { e: se, next: sn } && e@ == se && expr_wf(e@)
                        && final(self).pos() == sn && old(self).pos() < sn,
                    Err(d) => ps matches PExpr::Failed(sd) && d@ == sd,
                }
            }),
        decreases self.toks().len() - self.pos(), 5int,
    {
        let ghost t0 = self.toks();
        let ghost pos0 = self.pos();
        let rf = self.unary();
        match rf {
            Ok(first) => {
                proof {
                    reveal_with_fuel(p_factor, 2); reveal_with_fuel(p_unary, 2); reveal_with_fuel(p_factor_rest, 2);
                    assert(fwd(t0, pos0, self.pos()) == self.pos());
                    assert(p_factor(t0, pos0) == p_factor_rest(t0, first@, self.pos()));
                }
                self.factor_rest(first)
            },
            Err(d) => {
                proof {
                    reveal_with_fuel(p_factor, 2); reveal_with_fuel(p_unary, 2); reveal_with_fuel(p_factor_rest, 2);
                    assert(p_factor(t0, pos0) == PExpr::Failed(d@));
                }
                Err(d)
            },
        }
    }

    /// The rest of a factor chain, folding further operators onto the
    /// accumulated left operand.
    fn factor_rest(&mut self, acc: Expr) -> (r: Result<Expr, Diag>)
        requires
            old(self).inv(),
            expr_wf(acc@),
        ensures
            final(self).inv(),
            final(self).toks() == old(self).toks(),
            ({
                let ps = p_factor_rest(old(self).toks(), acc@, old(self).pos());
                match r {
                    Ok(e) => ps matches PExpr::Found { e: se, next: sn } && e@ == se && expr_wf(e@)
                        && final(self).pos() == sn && old(self).pos() <= sn,
                    Err(d) => ps matches PExpr::Failed(sd) && d@ == sd,
                }
            }),
        decreases self.toks().len() - self.pos(), 4int,
    {
        let ghost t0 = self.toks();
        let ghost pos0 = self.pos();
        if self.check(TokenType::Star) || self.check(TokenType::Slash) {
            let op = self.advance();
            let rr = self.unary();
            let right = match rr {
                Ok(e) => e,
                Err(d) => {
                    proof {
                        reveal_with_fuel(p_factor_rest, 2); reveal_with_fuel(p_unary, 2);
                        assert(p_factor_rest(t0, acc@, pos0) == PExpr::Failed(d@));
                    }
                    return Err(d);
                },
            };
            proof {
                reveal_with_fuel(p_factor_rest, 2); reveal_with_fuel(p_unary, 2);
                assert(fwd(t0, pos0 + 1, self.pos()) == self.pos());
                assert(p_factor_rest(t0, acc@, pos0) == p_factor_rest(
                    t0,
                    ExprV::Binary(Box::new(acc@), t0[pos0], Box::new(right@)),
                    self.pos(),
                ));
            }
            self.factor_rest(Expr::Binary(Box::new(acc), op, Box::new(right)))
        } else {
            proof {
                reveal_with_fuel(p_factor_rest, 2); reveal_with_fuel(p_unary, 2);
                assert(p_factor_rest(t0, acc@, pos0) == (PExpr::Found { e: acc@, next: pos0 }));
            }
            Ok(acc)
        }
    }

    /// A term: factors joined by `+` or `-`, left-associative.
    fn term(&mut self) -> (r: Result<Expr, Diag>)
        requires
            old(self).inv(),
        ensures
            final(self).inv(),
            final(self).toks() == old(self).toks(),
            ({
                let ps = p_term(old(self).toks(), old(self).pos());
                match r {
                    Ok(e) => ps matches PExpr::Found { e: se, next: sn } && e@ == se && expr_wf(e@)
                        && final(self).pos() == sn && old(self).pos() < sn,
                    Err(d) => ps matches PExpr::Failed(sd) && d@ == sd,
                }
            }),
        decreases self.toks().len() - self.pos(), 7int,
    {
        let ghost t0 = self.toks();
        let ghost pos0 = self.pos();
        let rf = self.factor();
        match rf {
            Ok(first) => {
                proof {
                    reveal_with_fuel(p_term, 2); reveal_with_fuel(p_factor, 2); reveal_with_fuel(p_term_rest, 2);
                    assert(fwd(t0, pos0, self.pos()) == self.pos());
                    assert(p_term(t0, pos0) == p_term_rest(t0, first@, self.pos()));
                }
                self.term_rest(first)
            },
            Err(d) => {
                proof {
                    reveal_with_fuel(p_term, 2); reveal_with_fuel(p_factor, 2); reveal_with_fuel(p_term_rest, 2);
                    assert(p_term(t0, pos0) == PExpr::Failed(d@));
                }
                Err(d)
            },
        }
    }

    /// The rest of a term chain, folding further operators onto the
    /// accumulated left operand.
    fn term_rest(&mut self, acc: Expr) -> (r: Result<Expr, Diag>)
        requires
            old(self).inv(),
            expr_wf(acc@),
        ensures
            final(self).inv(),
            final(self).toks() == old(self).toks(),
            ({
                let ps = p_term_rest(old(self).toks(), acc@, old(self).pos());
                match r {
                    Ok(e) => ps matches PExpr::Found { e: se, next: sn } && e@ == se && expr_wf(e@)
                        && final(self).pos() == sn && old(self).pos() <= sn,
                    Err(d) => ps matches PExpr::Failed(sd) && d@ == sd,
                }
            }),
        decreases self.toks().len() - self.pos(), 6int,
    {
        let ghost t0 = self.toks();
        let ghost pos0 = self.pos();
        if self.check(TokenType::Plus) || self.check(TokenType::Minus) {
            let op = self.advance();
            let rr = self.factor();
            let right = match rr {
                Ok(e) => e,
                Err(d) => {
                    proof {
                        reveal_with_fuel(p_term_rest, 2); reveal_with_fuel(p_factor, 2);
                        assert(p_term_rest(t0, acc@, pos0) == PExpr::Failed(d@));
                    }
                    return Err(d);
                },
            };
            proof {
                reveal_with_fuel(p_term_rest, 2); reveal_with_fuel(p_factor, 2);
                assert(fwd(t0, pos0 + 1, self.pos()) == self.pos());
                assert(p_term_rest(t0, acc@, pos0) == p_term_rest(
                    t0,
                    ExprV::Binary(Box::new(acc@), t0[pos0], Box::new(right@)),
                    self.pos(),
                ));
            }
            self.term_rest(Expr::Binary(Box::new(acc), op, Box::new(right)))
        } else {
            proof {
                reveal_with_fuel(p_term_rest, 2); reveal_with_fuel(p_factor, 2);
                assert(p_term_rest(t0, acc@, pos0) == (PExpr::Found { e: acc@, next: pos0 }));
            }
            Ok(acc)
        }
    }

    /// A comparison: terms joined by `>`, `>=`, `<` or `<=`, left-associative.
    fn comparison(&mut self) -> (r: Result<Expr, Diag>)
        requires
            old(self).inv(),
        ensures
            final(self).inv(),
            final(self).toks() == old(self).toks(),
            ({
                let ps = p_comparison(old(self).toks(), old(self).pos());
                match r {
                    Ok(e) => ps matches PExpr::Found { e: se, next: sn } && e@ == se && expr_wf(e@)
                        && final(self).pos() == sn && old(self).pos() < sn,
                    Err(d) => ps matches PExpr::Failed(sd) && d@ == sd,
                }
            }),
        decreases self.toks().len() - self.pos(), 9int,
    {
        let ghost t0 = self.toks();
        let ghost pos0 = self.pos();
        let rf = self.term();
        match rf {
            Ok(first) => {
                proof {
                    reveal_with_fuel(p_comparison, 2); reveal_with_fuel(p_term, 2); reveal_with_fuel(p_comparison_rest, 2);
                    assert(fwd(t0, pos0, self.pos()) == self.pos());
                    assert(p_comparison(t0, pos0) == p_comparison_rest(t0, first@, self.pos()));
                }
                self.comparison_rest(first)
            },
            Err(d) => {
                proof {
                    reveal_with_fuel(p_comparison, 2); reveal_with_fuel(p_term, 2); reveal_with_fuel(p_comparison_rest, 2);
                    assert(p_comparison(t0, pos0) == PExpr::Failed(d@));
                }
                Err(d)
            },
        }
    }

    /// The rest of a comparison chain, folding further operators onto the
    /// accumulated left operand.
    fn comparison_rest(&mut self, acc: Expr) -> (r: Result<Expr, Diag>)
        requires
            old(self).inv(),
            expr_wf(acc@),
        ensures
            final(self).inv(),
            final(self).toks() == old(self).toks(),
            ({
                let ps = p_comparison_rest(old(self).toks(), acc@, old(self).pos());
                match r {
                    Ok(e) => ps matches PExpr::Found { e: se, next: sn } && e@ == se && expr_wf(e@)
                        && final(self).pos() == sn && old(self).pos() <= sn,
                    Err(d) => ps matches PExpr::Failed(sd) && d@ == sd,
                }
            }),
        decreases self.toks().len() - self.pos(), 8int,
    {
        let ghost t0 = self.toks();
        let ghost pos0 = self.pos();
        if self.check(TokenType::Greater) || self.check(TokenType::GreaterEqual) || self.check(TokenType::Less) || self.check(TokenType::LessEqual) {
            let op = self.advance();
            let rr = self.term();
            let right = match rr {
                Ok(e) => e,
                Err(d) => {
                    proof {
                        reveal_with_fuel(p_comparison_rest, 2); reveal_with_fuel(p_term, 2);
                        assert(p_comparison_rest(t0, acc@, pos0) == PExpr::Failed(d@));
                    }
                    return Err(d);
                },
            };
            proof {
                reveal_with_fuel(p_comparison_rest, 2); reveal_with_fuel(p_term, 2);
                assert(fwd(t0, pos0 + 1, self.pos()) == self.pos());
                assert(p_comparison_rest(t0, acc@, pos0) == p_comparison_rest(
                    t0,
                    ExprV::Binary(Box::new(acc@), t0[pos0], Box::new(right@)),
                    self.pos(),
                ));
            }
            self.comparison_rest(Expr::Binary(Box::new(acc), op, Box::new(right)))
        } else {
            proof {
                reveal_with_fuel(p_comparison_rest, 2); reveal_with_fuel(p_term, 2);
                assert(p_comparison_rest(t0, acc@, pos0) == (PExpr::Found { e: acc@, next: pos0 }));
            }
            Ok(acc)
        }
    }

    /// An equality: comparisons joined by `!=` or `==`, left-associative.
    fn equality(&mut self) -> (r: Result<Expr, Diag>)
        requires
            old(self).inv(),
        ensures
            final(self).inv(),
            final(self).toks() == old(self).toks(),
            ({
                let ps = p_equality(old(self).toks(), old(self).pos());
                match r {
                    Ok(e) => ps matches PExpr::Found { e: se, next: sn } && e@ == se && expr_wf(e@)
                        && final(self).pos() == sn && old(self).pos() < sn,
                    Err(d) => ps matches PExpr::Failed(sd) && d@ == sd,
                }
            }),
        decreases self.toks().len() - self.pos(), 11int,
    {
        let ghost t0 = self.toks();
        let ghost pos0 = self.pos();
        let rf = self.comparison();
        match rf {
            Ok(first) => {
                proof {
                    reveal_with_fuel(p_equality, 2); reveal_with_fuel(p_comparison, 2); reveal_with_fuel(p_equality_rest, 2);
                    assert(fwd(t0, pos0, self.pos()) == self.pos());
                    assert(p_equality(t0, pos0) == p_equality_rest(t0, first@, self.pos()));
                }
                self.equality_rest(first)
            },
            Err(d) => {
                proof {
                    reveal_with_fuel(p_equality, 2); reveal_with_fuel(p_comparison, 2); reveal_with_fuel(p_equality_rest, 2);
                    assert(p_equality(t0, pos0) == PExpr::Failed(d@));
                }
                Err(d)
            },
        }
    }

    /// The rest of a equality chain, folding further operators onto the
    /// accumulated left operand.
    fn equality_rest(&mut self, acc: Expr) -> (r: Result<Expr, Diag>)
        requires
            old(self).inv(),
            expr_wf(acc@),
        ensures
            final(self).inv(),
            final(self).toks() == old(self).toks(),
            ({
                let ps = p_equality_rest(old(self).toks(), acc@, old(self).pos());
                match r {
                    Ok(e) => ps matches PExpr::Found { e: se, next: sn } && e@ == se && expr_wf(e@)
                        && final(self).pos() == sn && old(self).pos() <= sn,
                    Err(d) => ps matches PExpr::Failed(sd) && d@ == sd,
                }
            }),
        decreases self.toks().len() - self.pos(), 10int,
    {
        let ghost t0 = self.toks();
        let ghost pos0 = self.pos();
        if self.check(TokenType::BangEqual) || self.check(TokenType::EqualEqual) {
            let op = self.advance();
            let rr = self.comparison();
            let right = match rr {
                Ok(e) => e,
                Err(d) => {
                    proof {
                        reveal_with_fuel(p_equality_rest, 2); reveal_with_fuel(p_comparison, 2);
                        assert(p_equality_rest(t0, acc@, pos0) == PExpr::Failed(d@));
                    }
                    return Err(d);
                },
            };
            proof {
                reveal_with_fuel(p_equality_rest, 2); reveal_with_fuel(p_comparison, 2);
                assert(fwd(t0, pos0 + 1, self.pos()) == self.pos());
                assert(p_equality_rest(t0, acc@, pos0) == p_equality_rest(
                    t0,
                    ExprV::Binary(Box::new(acc@), t0[pos0], Box::new(right@)),
                    self.pos(),
                ));
            }
            self.equality_rest(Expr::Binary(Box::new(acc), op, Box::new(right)))
        } else {
            proof {
                reveal_with_fuel(p_equality_rest, 2); reveal_with_fuel(p_comparison, 2);
                assert(p_equality_rest(t0, acc@, pos0) == (PExpr::Found { e: acc@, next: pos0 }));
            }
            Ok(acc)
        }
    }

    /// A logical and: equalities joined by `and`, left-associative.
    fn and(&mut self) -> (r: Result<Expr, Diag>)
        requires
            old(self).inv(),
        ensures
            final(self).inv(),
            final(self).toks() == old(self).toks(),
            ({
                let ps = p_and(old(self).toks(), old(self).pos());
                match r {
                    Ok(e) => ps matches PExpr::Found { e: se, next: sn } && e@ == se && expr_wf(e@)
                        && final(self).pos() == sn && old(self).pos() < sn,
                    Err(d) => ps matches PExpr::Failed(sd) && d@ == sd,
                }
            }),
        decreases self.toks().len() - self.pos(), 13int,
    {
        let ghost t0 = self.toks();
        let ghost pos0 = self.pos();
        let rf = self.equality();
        match rf {
            Ok(first) => {
                proof {
                    reveal_with_fuel(p_and, 2); reveal_with_fuel(p_equality, 2); reveal_with_fuel(p_and_rest, 2);
                    assert(fwd(t0, pos0, self.pos()) == self.pos());
                    assert(p_and(t0, pos0) == p_and_rest(t0, first@, self.pos()));
                }
                self.and_rest(first)
            },
            Err(d) => {
                proof {
                    reveal_with_fuel(p_and, 2); reveal_with_fuel(p_equality, 2); reveal_with_fuel(p_and_rest, 2);
                    assert(p_and(t0, pos0) == PExpr::Failed(d@));
                }
                Err(d)
            },
        }
    }

    /// The rest of a logical-and chain, folding further operators onto the
    /// accumulated left operand.
    fn and_rest(&mut self, acc: Expr) -> (r: Result<Expr, Diag>)
        requires
            old(self).inv(),
            expr_wf(acc@),
        ensures
            final(self).inv(),
            final(self).toks() == old(self).toks(),
            ({
                let ps = p_and_rest(old(self).toks(), acc@, old(self).pos());
                match r {
                    Ok(e) => ps matches PExpr::Found { e: se, next: sn } && e@ == se && expr_wf(e@)
                        && final(self).pos() == sn && old(self).pos() <= sn,
                    Err(d) => ps matches PExpr::Failed(sd) && d@ == sd,
                }
            }),
        decreases self.toks().len() - self.pos(), 12int,
    {
        let ghost t0 = self.toks();
        let ghost pos0 = self.pos();
        if self.check(TokenType::And) {
            let op = self.advance();
            let rr = self.equality();
            let right = match rr {
                Ok(e) => e,
                Err(d) => {
                    proof {
                        reveal_with_fuel(p_and_rest, 2); reveal_with_fuel(p_equality, 2);
                        assert(p_and_rest(t0, acc@, pos0) == PExpr::Failed(d@));
                    }
                    return Err(d);
                },
            };
            proof {
                reveal_with_fuel(p_and_rest, 2); reveal_with_fuel(p_equality, 2);
                assert(fwd(t0, pos0 + 1, self.pos()) == self.pos());
                assert(p_and_rest(t0, acc@, pos0) == p_and_rest(
                    t0,
                    ExprV::Logic(Box::new(acc@), t0[pos0], Box::new(right@)),
                    self.pos(),
                ));
            }
            self.and_rest(Expr::Logic(Box::new(acc), op, Box::new(right)))
        } else {
            proof {
                reveal_with_fuel(p_and_rest, 2); reveal_with_fuel(p_equality, 2);
                assert(p_and_rest(t0, acc@, pos0) == (PExpr::Found { e: acc@, next: pos0 }));
            }
            Ok(acc)
        }
    }

    /// A logical or: ands joined by `or`, left-associative.
    fn or(&mut self) -> (r: Result<Expr, Diag>)
        requires
            old(self).inv(),
        ensures
            final(self).inv(),
            final(self).toks() == old(self).toks(),
            ({
                let ps = p_or(old(self).toks(), old(self).pos());
                match r {
                    Ok(e) => ps matches PExpr::Found { e: se, next: sn } && e@ == se && expr_wf(e@)
                        && final(self).pos() == sn && old(self).pos() < sn,
                    Err(d) => ps matches PExpr::Failed(sd) && d@ == sd,
                }
            }),
        decreases self.toks().len() - self.pos(), 15int,
    {
        let ghost t0 = self.toks();
        let ghost pos0 = self.pos();
        let rf = self.and();
        match rf {
            Ok(first) => {
                proof {
                    reveal_with_fuel(p_or, 2); reveal_with_fuel(p_and, 2); reveal_with_fuel(p_or_rest, 2);
                    assert(fwd(t0, pos0, self.pos()) == self.pos());
                    assert(p_or(t0, pos0) == p_or_rest(t0, first@, self.pos()));
                }
                self.or_rest(first)
            },
            Err(d) => {
                proof {
                    reveal_with_fuel(p_or, 2); reveal_with_fuel(p_and, 2); reveal_with_fuel(p_or_rest, 2);
                    assert(p_or(t0, pos0) == PExpr::Failed(d@));
                }
                Err(d)
            },
        }
    }

    /// The rest of a logical-or chain, folding further operators onto the
    /// accumulated left operand.
    fn or_rest(&mut self, acc: Expr) -> (r: Result<Expr, Diag>)
        requires
            old(self).inv(),
            expr_wf(acc@),
        ensures
            final(self).inv(),
            final(self).toks() == old(self).toks(),
            ({
                let ps = p_or_rest(old(self).toks(), acc@, old(self).pos());
                match r {
                    Ok(e) => ps matches PExpr::Found { e: se, next: sn } && e@ == se && expr_wf(e@)
                        && final(self).pos() == sn && old(self).pos() <= sn,
                    Err(d) => ps matches PExpr::Failed(sd) && d@ == sd,
                }
            }),
        decreases self.toks().len() - self.pos(), 14int,
    {
        let ghost t0 = self.toks();
        let ghost pos0 = self.pos();
        if self.check(TokenType::Or) {
            let op = self.advance();
            let rr = self.and();
            let right = match rr {
                Ok(e) => e,
                Err(d) => {
                    proof {
                        reveal_with_fuel(p_or_rest, 2); reveal_with_fuel(p_and, 2);
                        assert(p_or_rest(t0, acc@, pos0) == PExpr::Failed(d@));
                    }
                    return Err(d);
                },
            };
            proof {
                reveal_with_fuel(p_or_rest, 2); reveal_with_fuel(p_and, 2);
                assert(fwd(t0, pos0 + 1, self.pos()) == self.pos());
                assert(p_or_rest(t0, acc@, pos0) == p_or_rest(
                    t0,
                    ExprV::Logic(Box::new(acc@), t0[pos0], Box::new(right@)),
                    self.pos(),
                ));
            }
            self.or_rest(Expr::Logic(Box::new(acc), op, Box::new(right)))
        } else {
            proof {
                reveal_with_fuel(p_or_rest, 2); reveal_with_fuel(p_and, 2);
                assert(p_or_rest(t0, acc@, pos0) == (PExpr::Found { e: acc@, next: pos0 }));
            }
            Ok(acc)
        }
    }

    /// A unary expression: one optional `!` or `-` over a power expression,
    /// so unary binds looser than power.
    fn unary(&mut self) -> (r: Result<Expr, Diag>)
        requires
            old(self).inv(),
        ensures
            final(self).inv(),
            final(self).toks() == old(self).toks(),
            ({
                let ps = p_unary(old(self).toks(), old(self).pos());
                match r {
                    Ok(e) => ps matches PExpr::Found { e: se, next: sn } && e@ == se && expr_wf(e@)
                        && final(self).pos() == sn && old(self).pos() < sn,
                    Err(d) => ps matches PExpr::Failed(sd) && d@ == sd,
                }
            }),
        decreases self.toks().len() - self.pos(), 3int,
    {
        let ghost t0 = self.toks();
        let ghost pos0 = self.pos();
        if self.check(TokenType::Bang) || self.check(TokenType::Minus) {
            let op = self.advance();
            let rr = self.power();
            match rr {
                Ok(right) => {
                    proof {
                        reveal_with_fuel(p_unary, 2); reveal_with_fuel(p_power, 2);
                        assert(p_unary(t0, pos0) == (PExpr::Found {
                            e: ExprV::Unary(t0[pos0], Box::new(right@)),
                            next: self.pos(),
                        }));
                    }
                    Ok(Expr::Unary(op, Box::new(right)))
                },
                Err(d) => {
                    proof {
                        reveal_with_fuel(p_unary, 2); reveal_with_fuel(p_power, 2);
                        assert(p_unary(t0, pos0) == PExpr::Failed(d@));
                    }
                    Err(d)
                },
            }
        } else {
            proof {
                reveal_with_fuel(p_unary, 2); reveal_with_fuel(p_power, 2);
                assert(p_unary(t0, pos0) == p_power(t0, pos0));
            }
            self.power()
        }
    }

    /// An assignment: a bare variable reference before `=` assigns, nesting
    /// rightward; any other left side is a fatal parse error at the `=`
    /// token's line.
    #[verifier::spinoff_prover]
    #[verifier::rlimit(100)]
    fn assignment(&mut self) -> (r: Result<Expr, Diag>)
        requires
            old(self).inv(),
        ensures
            final(self).inv(),
            final(self).toks() == old(self).toks(),
            ({
                let ps = p_assignment(old(self).toks(), old(self).pos());
                match r {
                    Ok(e) => ps matches PExpr::Found { e: se, next: sn } && e@ == se && expr_wf(e@)
                        && final(self).pos() == sn && old(self).pos() < sn,
                    Err(d) => ps matches PExpr::Failed(sd) && d@ == sd,
                }
            }),
        decreases self.toks().len() - self.pos(), 16int,
    {
        let ghost t0 = self.toks();
        let ghost pos0 = self.pos();
        let re = self.or();
        let expr = match re {
            Ok(e) => e,
            Err(d) => {
                proof {
                    reveal_with_fuel(p_assignment, 2); reveal_with_fuel(p_or, 1);
                    assert(p_assignment(t0, pos0) == PExpr::Failed(d@));
                }
                return Err(d);
            },
        };
        let ghost q = self.pos();
        let ghost ev = expr@;
        if self.matches(TokenType::Equal) {
            let equals = self.previous();
            let rv = self.assignment();
            let value = match rv {
                Ok(v) => v,
                Err(d) => {
                    proof {
                        reveal_with_fuel(p_assignment, 2); reveal_with_fuel(p_or, 1);
                        assert(p_assignment(t0, pos0) == PExpr::Failed(d@));
                    }
                    return Err(d);
                },
            };
            match expr {
                Expr::Var(name) => {
                    let ghost nv = name@;
                    proof {
                        reveal_with_fuel(p_assignment, 2); reveal_with_fuel(p_or, 1);
                        assert(ev == ExprV::Var(nv));
                        assert(p_assignment(t0, pos0) == (PExpr::Found {
                            e: ExprV::Assign(nv, Box::new(value@)),
                            next: self.pos(),
                        }));
                    }
                    Ok(Expr::Assign(name, Box::new(value)))
                },
                _ => {
                    proof {
                        reveal_with_fuel(p_assignment, 2); reveal_with_fuel(p_or, 1);
                        assert(p_assignment(t0, pos0) == PExpr::Failed(
                            DiagV {
                                line: t0[q].line,
                                kind: DiagKind::InvalidAssignmentTarget,
                                name: Seq::empty(),
                            },
                        ));
                    }
                    Err(Diag::new(equals.line, DiagKind::InvalidAssignmentTarget))
                },
            }
        } else {
            proof {
                reveal_with_fuel(p_assignment, 2); reveal_with_fuel(p_or, 1);
                assert(p_assignment(t0, pos0) == (PExpr::Found { e: ev, next: q }));
            }
            Ok(expr)
        }
    }

    /// An expression: assignment is the lowest precedence level.
    fn expression(&mut self) -> (r: Result<Expr, Diag>)
        requires
            old(self).inv(),
        ensures
            final(self).inv(),
            final(self).toks() == old(self).toks(),
            ({
                let ps = p_expression(old(self).toks(), old(self).pos());
                match r {
                    Ok(e) => ps matches PExpr::Found { e: se, next: sn } && e@ == se && expr_wf(e@)
                        && final(self).pos() == sn && old(self).pos() < sn,
                    Err(d) => ps matches PExpr::Failed(sd) && d@ == sd,
                }
            }),
        decreases self.toks().len() - self.pos(), 17int,
    {
        let ghost t0 = self.toks();
        let ghost pos0 = self.pos();
        let r = self.assignment();
        proof {
            reveal_with_fuel(p_expression, 2); reveal_with_fuel(p_assignment, 2); reveal_with_fuel(p_or, 1);
            assert(p_expression(t0, pos0) == p_assignment(t0, pos0));
        }
        r
    }

    /// An expression statement: an expression, then `;`.
    #[verifier::rlimit(60)]
    fn expr_statement(&mut self) -> (r: Result<Stmt, Diag>)
        requires
            old(self).inv(),
        ensures
            final(self).inv(),
            final(self).toks() == old(self).toks(),
            ({
                let ps = p_expr_statement(old(self).toks(), old(self).pos());
                match r {
                    Ok(st) => ps matches PStmt::Found { s: sv, next: sn } && st@ == sv && stmt_wf(
                        st@,
                    ) && final(self).pos() == sn && old(self).pos() < sn,
                    Err(d) => ps matches PStmt::Failed(sd) && d@ == sd,
                }
            }),
        decreases self.toks().len() - self.pos(), 18int,
    {
        let ghost t0 = self.toks();
        let ghost pos0 = self.pos();
        let re = self.expression();
        let e = match re {
            Ok(e) => e,
            Err(d) => {
                proof {
                    reveal(p_expr_statement);
                    assert(p_expr_statement(t0, pos0) == PStmt::Failed(d@));
                }
                return Err(d);
            },
        };
        let rc = self.consume(TokenType::Semicolon, DiagKind::ExpectedSemicolon);
        match rc {
            Ok(_) => {
                proof {
                    reveal(p_expr_statement);
                    assert(p_expr_statement(t0, pos0) == (PStmt::Found {
                        s: StmtV::Expr(e@),
                        next: self.pos(),
                    }));
                }
                Ok(Stmt::Expr(e))
            },
            Err(d) => {
                proof {
                    reveal(p_expr_statement);
                    assert(p_expr_statement(t0, pos0) == PStmt::Failed(d@));
                }
                Err(d)
            },
        }
    }

    /// A print statement body (after `print`): an expression, then `;`.
    #[verifier::rlimit(60)]
    fn print_statement(&mut self) -> (r: Result<Stmt, Diag>)
        requires
            old(self).inv(),
        ensures
            final(self).inv(),
            final(self).toks() == old(self).toks(),
            ({
                let ps = p_print_statement(old(self).toks(), old(self).pos());
                match r {
                    Ok(st) => ps matches PStmt::Found { s: sv, next: sn } && st@ == sv && stmt_wf(
                        st@,
                    ) && final(self).pos() == sn && old(self).pos() < sn,
                    Err(d) => ps matches PStmt::Failed(sd) && d@ == sd,
                }
            }),
        decreases self.toks().len() - self.pos(), 18int,
    {
        let ghost t0 = self.toks();
        let ghost pos0 = self.pos();
        let re = self.expression();
        let e = match re {
            Ok(e) => e,
            Err(d) => {
                proof {
                    reveal(p_print_statement);
                    assert(p_print_statement(t0, pos0) == PStmt::Failed(d@));
                }
                return Err(d);
            },
        };
        let rc = self.consume(TokenType::Semicolon, DiagKind::ExpectedSemicolon);
        match rc {
            Ok(_) => {
                proof {
                    reveal(p_print_statement);
                    assert(p_print_statement(t0, pos0) == (PStmt::Found {
                        s: StmtV::Print(e@),
                        next: self.pos(),
                    }));
                }
                Ok(Stmt::Print(e))
            },
            Err(d) => {
                proof {
                    reveal(p_print_statement);
                    assert(p_print_statement(t0, pos0) == PStmt::Failed(d@));
                }
                Err(d)
            },
        }
    }

    /// A print-line statement body (after `println`): an expression, then `;`.
    #[verifier::rlimit(60)]
    fn println_statement(&mut self) -> (r: Result<Stmt, Diag>)
        requires
            old(self).inv(),
        ensures
            final(self).inv(),
            final(self).toks() == old(self).toks(),
            ({
                let ps = p_println_statement(old(self).toks(), old(self).pos());
                match r {
                    Ok(st) => ps matches PStmt::Found { s: sv, next: sn } && st@ == sv && stmt_wf(
                        st@,
                    ) && final(self).pos() == sn && old(self).pos() < sn,
                    Err(d) => ps matches PStmt::Failed(sd) && d@ == sd,
                }
            }),
        decreases self.toks().len() - self.pos(), 18int,
    {
        let ghost t0 = self.toks();
        let ghost pos0 = self.pos();
        let re = self.expression();
        let e = match re {
            Ok(e) => e,
            Err(d) => {
                proof {
                    reveal(p_println_statement);
                    assert(p_println_statement(t0, pos0) == PStmt::Failed(d@));
                }
                return Err(d);
            },
        };
        let rc = self.consume(TokenType::Semicolon, DiagKind::ExpectedSemicolon);
        match rc {
            Ok(_) => {
                proof {
                    reveal(p_println_statement);
                    assert(p_println_statement(t0, pos0) == (PStmt::Found {
                        s: StmtV::Println(e@),
                        next: self.pos(),
                    }));
                }
                Ok(Stmt::Println(e))
            },
            Err(d) => {
                proof {
                    reveal(p_println_statement);
                    assert(p_println_statement(t0, pos0) == PStmt::Failed(d@));
                }
                Err(d)
            },
        }
    }

    /// A variable declaration body (after `var`): a name, an optional `=`
    /// initializer (nil where absent), then `;`.
    #[verifier::rlimit(60)]
    fn var_declaration(&mut self) -> (r: Result<Stmt, Diag>)
        requires
            old(self).inv(),
        ensures
            final(self).inv(),
            final(self).toks() == old(self).toks(),
            ({
                let ps = p_var_declaration(old(self).toks(), old(self).pos());
                match r {
                    Ok(st) => ps matches PStmt::Found { s: sv, next: sn } && st@ == sv && stmt_wf(
                        st@,
                    ) && final(self).pos() == sn && old(self).pos() < sn,
                    Err(d) => ps matches PStmt::Failed(sd) && d@ == sd,
                }
            }),
        decreases self.toks().len() - self.pos(), 18int,
    {
        let ghost t0 = self.toks();
        let ghost pos0 = self.pos();
        let rn = self.consume(TokenType::Identifier, DiagKind::ExpectedVariableName);
        let name = match rn {
            Ok(t) => t,
            Err(d) => {
                proof {
                    reveal(p_var_declaration);
                    assert(p_var_declaration(t0, pos0) == PStmt::Failed(d@));
                }
                return Err(d);
            },
        };
        if self.matches(TokenType::Equal) {
            let re = self.expression();
            let value = match re {
                Ok(e) => e,
                Err(d) => {
                    proof {
                        reveal(p_var_declaration);
                        assert(p_var_declaration(t0, pos0) == PStmt::Failed(d@));
                    }
                    return Err(d);
                },
            };
            let rc = self.consume(TokenType::Semicolon, DiagKind::ExpectedSemicolon);
            match rc {
                Ok(_) => {
                    proof {
                        reveal(p_var_declaration);
                        assert(p_var_declaration(t0, pos0) == (PStmt::Found {
                            s: StmtV::Var(t0[pos0], value@),
                            next: self.pos(),
                        }));
                    }
                    Ok(Stmt::Var(name, value))
                },
                Err(d) => {
                    proof {
                        reveal(p_var_declaration);
                        assert(p_var_declaration(t0, pos0) == PStmt::Failed(d@));
                    }
                    Err(d)
                },
            }
        } else {
            let rc = self.consume(TokenType::Semicolon, DiagKind::ExpectedSemicolon);
            match rc {
                Ok(_) => {
                    proof {
                        reveal(p_var_declaration);
                        assert(p_var_declaration(t0, pos0) == (PStmt::Found {
                            s: StmtV::Var(t0[pos0], ExprV::Lit(LitV::Nil)),
                            next: self.pos(),
                        }));
                    }
                    Ok(Stmt::Var(name, Expr::Lit(Literal::Nil)))
                },
                Err(d) => {
                    proof {
                        reveal(p_var_declaration);
                        assert(p_var_declaration(t0, pos0) == PStmt::Failed(d@));
                    }
                    Err(d)
                },
            }
        }
    }

    /// The contents of a block (after `{`): declarations until `}`, folded
    /// onto the statements collected so far.
    fn block_rest(&mut self, acc: Vec<Stmt>) -> (r: Result<Stmt, Diag>)
        requires
            old(self).inv(),
            stmts_wf(stmts_view(acc@)),
        ensures
            final(self).inv(),
            final(self).toks() == old(self).toks(),
            ({
                let ps = p_block_rest(old(self).toks(), stmts_view(acc@), old(self).pos());
                match r {
                    Ok(st) => ps matches PStmt::Found { s: sv, next: sn } && st@ == sv && stmt_wf(
                        st@,
                    ) && final(self).pos() == sn && old(self).pos() <= sn,
                    Err(d) => ps matches PStmt::Failed(sd) && d@ == sd,
                }
            }),
        decreases self.toks().len() - self.pos(), 21int,
    {
        let ghost t0 = self.toks();
        let ghost pos0 = self.pos();
        let ghost accv = stmts_view(acc@);
        if !self.check(TokenType::RightBrace) && !self.is_at_end() {
            let rd = self.declaration();
            let st = match rd {
                Ok(s) => s,
                Err(d) => {
                    proof {
                        reveal_with_fuel(p_block_rest, 2); reveal_with_fuel(p_declaration, 2);
                        assert(p_block_rest(t0, accv, pos0) == PStmt::Failed(d@));
                    }
                    return Err(d);
                },
            };
            let mut acc2 = acc;
            let ghost prev = acc2@;
            acc2.push(st);
            proof {
                reveal_with_fuel(p_block_rest, 2); reveal_with_fuel(p_declaration, 2);
                assert(acc2@.drop_last() =~= prev);
                assert(stmts_view(acc2@).drop_last() =~= stmts_view(prev));
                assert(stmts_view(acc2@) == stmts_view(prev).push(stmt_view(acc2@.last())));
                assert(stmts_wf(stmts_view(acc2@)));
                assert(fwd(t0, pos0, self.pos()) == self.pos());
                assert(p_block_rest(t0, accv, pos0) == p_block_rest(
                    t0,
                    stmts_view(acc2@),
                    self.pos(),
                ));
            }
            self.block_rest(acc2)
        } else {
            let rc = self.consume(TokenType::RightBrace, DiagKind::ExpectedRightBrace);
            match rc {
                Ok(_) => {
                    let st = Stmt::Block(acc);
                    proof {
                        reveal_with_fuel(p_block_rest, 2); reveal_with_fuel(p_declaration, 2);
                        assert(st@ == StmtV::Block(accv));
                        assert(p_block_rest(t0, accv, pos0) == (PStmt::Found {
                            s: StmtV::Block(accv),
                            next: self.pos(),
                        }));
                    }
                    Ok(st)
                },
                Err(d) => {
                    proof {
                        reveal_with_fuel(p_block_rest, 2); reveal_with_fuel(p_declaration, 2);
                        assert(p_block_rest(t0, accv, pos0) == PStmt::Failed(d@));
                    }
                    Err(d)
                },
            }
        }
    }

    /// A block statement body (after `{`).
    fn block_statement(&mut self) -> (r: Result<Stmt, Diag>)
        requires
            old(self).inv(),
        ensures
            final(self).inv(),
            final(self).toks() == old(self).toks(),
            ({
                let ps = p_block_statement(old(self).toks(), old(self).pos());
                match r {
                    Ok(st) => ps matches PStmt::Found { s: sv, next: sn } && st@ == sv && stmt_wf(
                        st@,
                    ) && final(self).pos() == sn && old(self).pos() <= sn,
                    Err(d) => ps matches PStmt::Failed(sd) && d@ == sd,
                }
            }),
        decreases self.toks().len() - self.pos(), 22int,
    {
        let ghost t0 = self.toks();
        let ghost pos0 = self.pos();
        let acc: Vec<Stmt> = Vec::new();
        proof {
            reveal_with_fuel(p_block_statement, 2); reveal_with_fuel(p_block_rest, 2);
            assert(stmts_view(acc@) =~= Seq::<StmtV>::empty());
            assert(stmts_wf(stmts_view(acc@)));
            assert(p_block_statement(t0, pos0) == p_block_rest(t0, stmts_view(acc@), pos0));
        }
        self.block_rest(acc)
    }

    /// The else-if chain of an if statement (clauses are appended to the
    /// vector): `else if` clauses in source order, then at most one bare
    /// `else` branch, which ends the chain.
    fn else_chain(&mut self, else_ifs: &mut Vec<If>) -> (r: Result<Option<Box<Stmt>>, Diag>)
        requires
            old(self).inv(),
            ifs_wf(ifs_view(old(else_ifs)@)),
        ensures
            final(self).inv(),
            final(self).toks() == old(self).toks(),
            ({
                let ps = p_elifs(old(self).toks(), ifs_view(old(else_ifs)@), old(self).pos());
                match r {
                    Ok(other) => ps matches PIfs::Found { elifs: se, other: so, next: sn }
                        && ifs_view(final(else_ifs)@) == se && opt_stmt_view(other) == so && ifs_wf(
                        se,
                    ) && (other matches Some(b) ==> stmt_wf((*b)@)) && final(self).pos() == sn
                        && old(self).pos() <= sn,
                    Err(d) => ps matches PIfs::Failed(sd) && d@ == sd,
                }
            }),
        decreases self.toks().len() - self.pos(), 21int,
    {
        let ghost t0 = self.toks();
        let ghost pos0 = self.pos();
        let ghost accv = ifs_view(else_ifs@);
        if self.matches(TokenType::Else) {
            if self.matches(TokenType::If) {
                let rc = self.expression();
                let cond = match rc {
                    Ok(e) => e,
                    Err(d) => {
                        proof {
                            reveal_with_fuel(p_elifs, 2); reveal_with_fuel(p_statement, 2);
                            assert(p_elifs(t0, accv, pos0) == PIfs::Failed(d@));
                        }
                        return Err(d);
                    },
                };
                proof {
                    reveal_with_fuel(p_elifs, 2); reveal_with_fuel(p_statement, 2);
                    assert(fwd(t0, pos0 + 2, self.pos()) == self.pos());
                }
                let rb = self.statement();
                let body = match rb {
                    Ok(s) => s,
                    Err(d) => {
                        proof {
                            reveal_with_fuel(p_elifs, 2); reveal_with_fuel(p_statement, 2);
                            assert(p_elifs(t0, accv, pos0) == PIfs::Failed(d@));
                        }
                        return Err(d);
                    },
                };
                let clause = If::new(cond, body);
                let ghost prev = else_ifs@;
                else_ifs.push(clause);
                proof {
                    reveal_with_fuel(p_elifs, 2); reveal_with_fuel(p_statement, 2);
                    assert(else_ifs@.drop_last() =~= prev);
                    assert(ifs_view(else_ifs@).drop_last() =~= ifs_view(prev));
                    assert(ifs_view(else_ifs@) == ifs_view(prev).push(if_view(else_ifs@.last())));
                    assert(if_wf(if_view(else_ifs@.last())));
                    assert(ifs_wf(ifs_view(else_ifs@)));
                    assert(fwd(t0, pos0 + 2, self.pos()) == self.pos());
                    assert(p_elifs(t0, accv, pos0) == p_elifs(t0, ifs_view(else_ifs@), self.pos()));
                }
                self.else_chain(else_ifs)
            } else {
                let rs = self.statement();
                match rs {
                    Ok(s) => {
                        let other: Option<Box<Stmt>> = Some(Box::new(s));
                        proof {
                            reveal_with_fuel(p_elifs, 2); reveal_with_fuel(p_statement, 2);
                            assert(p_elifs(t0, accv, pos0) == (PIfs::Found {
                                elifs: accv,
                                other: opt_stmt_view(other),
                                next: self.pos(),
                            }));
                        }
                        Ok(other)
                    },
                    Err(d) => {
                        proof {
                            reveal_with_fuel(p_elifs, 2); reveal_with_fuel(p_statement, 2);
                            assert(p_elifs(t0, accv, pos0) == PIfs::Failed(d@));
                        }
                        Err(d)
                    },
                }
            }
        } else {
            proof {
                reveal_with_fuel(p_elifs, 2); reveal_with_fuel(p_statement, 2);
                assert(p_elifs(t0, accv, pos0) == (PIfs::Found {
                    elifs: accv,
                    other: None,
                    next: pos0,
                }));
            }
            Ok(None)
        }
    }

    /// An if statement body (after `if`): a condition, a branch, else-if
    /// clauses in source order, and at most one bare else branch, which ends
    /// the chain.
    #[verifier::rlimit(60)]
    fn if_statement(&mut self) -> (r: Result<Stmt, Diag>)
        requires
            old(self).inv(),
        ensures
            final(self).inv(),
            final(self).toks() == old(self).toks(),
            ({
                let ps = p_if_statement(old(self).toks(), old(self).pos());
                match r {
                    Ok(st) => ps matches PStmt::Found { s: sv, next: sn } && st@ == sv && stmt_wf(
                        st@,
                    ) && final(self).pos() == sn && old(self).pos() < sn,
                    Err(d) => ps matches PStmt::Failed(sd) && d@ == sd,
                }
            }),
        decreases self.toks().len() - self.pos(), 22int,
    {
        let ghost t0 = self.toks();
        let ghost pos0 = self.pos();
        let rc = self.expression();
        let cond = match rc {
            Ok(e) => e,
            Err(d) => {
                proof {
                    reveal_with_fuel(p_if_statement, 2); reveal_with_fuel(p_statement, 2); reveal_with_fuel(p_elifs, 2);
                    assert(p_if_statement(t0, pos0) == PStmt::Failed(d@));
                }
                return Err(d);
            },
        };
        proof {
            reveal_with_fuel(p_if_statement, 2); reveal_with_fuel(p_statement, 2); reveal_with_fuel(p_elifs, 2);
            assert(fwd(t0, pos0, self.pos()) == self.pos());
        }
        let ghost cv2 = cond@;
        let rb = self.statement();
        let body = match rb {
            Ok(s) => s,
            Err(d) => {
                proof {
                    reveal_with_fuel(p_if_statement, 2); reveal_with_fuel(p_statement, 2); reveal_with_fuel(p_elifs, 2);
                    assert(p_if_statement(t0, pos0) == PStmt::Failed(d@));
                }
                return Err(d);
            },
        };
        let ghost bv2 = body@;
        let first = If::new(cond, body);
        let ghost fv = first@;
        let mut else_ifs: Vec<If> = Vec::new();
        proof {
            reveal_with_fuel(p_if_statement, 2); reveal_with_fuel(p_statement, 2); reveal_with_fuel(p_elifs, 2);
            assert(ifs_view(else_ifs@) =~= Seq::<IfV>::empty());
            assert(ifs_wf(ifs_view(else_ifs@)));
            assert(fwd(t0, pos0, self.pos()) == self.pos());
            assert(p_if_statement(t0, pos0) == (match p_elifs(t0, Seq::empty(), self.pos()) {
                PIfs::Found { elifs, other, next } => PStmt::Found {
                    s: StmtV::If(IfV { cond: cv2, body: Box::new(bv2) }, elifs, other),
                    next,
                },
                PIfs::Failed(d2) => PStmt::Failed(d2),
            }));
        }
        let ghost e0 = ifs_view(else_ifs@);
        let ghost n2 = self.pos();
        let rchain = self.else_chain(&mut else_ifs);
        match rchain {
            Ok(other) => {
                let ghost ev = ifs_view(else_ifs@);
                let ghost ov = opt_stmt_view(other);
                let st = Stmt::If(first, else_ifs, other);
                proof {
                    reveal_with_fuel(p_if_statement, 2); reveal_with_fuel(p_statement, 2); reveal_with_fuel(p_elifs, 2);
                    assert(st@ == StmtV::If(fv, ev, ov));
                    assert(p_elifs(t0, Seq::empty(), n2) == p_elifs(t0, e0, n2));
                    assert(p_elifs(t0, e0, n2) matches PIfs::Found {
                        elifs: se,
                        other: so,
                        next: sn,
                    } && se == ev && so == ov && sn == self.pos());
                    assert(p_if_statement(t0, pos0) == (PStmt::Found { s: st@, next: self.pos() }));
                    assert(if_wf(fv));
                    assert(match ov {
                        Some(b2) => stmt_wf(*b2),
                        None => true,
                    });
                    assert(stmt_wf(st@));
                }
                Ok(st)
            },
            Err(d) => {
                proof {
                    reveal_with_fuel(p_if_statement, 2); reveal_with_fuel(p_statement, 2); reveal_with_fuel(p_elifs, 2);
                    assert(p_if_statement(t0, pos0) == PStmt::Failed(d@));
                }
                Err(d)
            },
        }
    }

    /// A while statement body (after `while`): a condition and a body. The
    /// parser builds it; the evaluator refuses it.
    fn while_statement(&mut self) -> (r: Result<Stmt, Diag>)
        requires
            old(self).inv(),
        ensures
            final(self).inv(),
            final(self).toks() == old(self).toks(),
            ({
                let ps = p_while_statement(old(self).toks(), old(self).pos());
                match r {
                    Ok(st) => ps matches PStmt::Found { s: sv, next: sn } && st@ == sv && stmt_wf(
                        st@,
                    ) && final(self).pos() == sn && old(self).pos() < sn,
                    Err(d) => ps matches PStmt::Failed(sd) && d@ == sd,
                }
            }),
        decreases self.toks().len() - self.pos(), 22int,
    {
        let ghost t0 = self.toks();
        let ghost pos0 = self.pos();
        let rc = self.expression();
        let cond = match rc {
            Ok(e) => e,
            Err(d) => {
                proof {
                    reveal_with_fuel(p_while_statement, 2); reveal_with_fuel(p_statement, 2);
                    assert(p_while_statement(t0, pos0) == PStmt::Failed(d@));
                }
                return Err(d);
            },
        };
        proof {
            reveal_with_fuel(p_while_statement, 2); reveal_with_fuel(p_statement, 2);
            assert(fwd(t0, pos0, self.pos()) == self.pos());
        }
        let rb = self.statement();
        match rb {
            Ok(body) => {
                let st = Stmt::While(cond, Box::new(body));
                proof {
                    reveal_with_fuel(p_while_statement, 2); reveal_with_fuel(p_statement, 2);
                    assert(p_while_statement(t0, pos0) == (PStmt::Found {
                        s: st@,
                        next: self.pos(),
                    }));
                }
                Ok(st)
            },
            Err(d) => {
                proof {
                    reveal_with_fuel(p_while_statement, 2); reveal_with_fuel(p_statement, 2);
                    assert(p_while_statement(t0, pos0) == PStmt::Failed(d@));
                }
                Err(d)
            },
        }
    }

    /// A for statement body (after `for`): a loop variable, `from`, a start
    /// expression, `until`, an end expression, and a body. The parser builds
    /// it; the evaluator refuses it.
    fn for_statement(&mut self) -> (r: Result<Stmt, Diag>)
        requires
            old(self).inv(),
        ensures
            final(self).inv(),
            final(self).toks() == old(self).toks(),
            ({
                let ps = p_for_statement(old(self).toks(), old(self).pos());
                match r {
                    Ok(st) => ps matches PStmt::Found { s: sv, next: sn } && st@ == sv && stmt_wf(
                        st@,
                    ) && final(self).pos() == sn && old(self).pos() < sn,
                    Err(d) => ps matches PStmt::Failed(sd) && d@ == sd,
                }
            }),
        decreases self.toks().len() - self.pos(), 22int,
    {
        let ghost t0 = self.toks();
        let ghost pos0 = self.pos();
        let rn = self.consume(TokenType::Identifier, DiagKind::ExpectedVariableName);
        let name = match rn {
            Ok(t) => t,
            Err(d) => {
                proof {
                    reveal_with_fuel(p_for_statement, 2); reveal_with_fuel(p_statement, 2);
                    assert(p_for_statement(t0, pos0) == PStmt::Failed(d@));
                }
                return Err(d);
            },
        };
        let rfrom = self.consume(TokenType::From, DiagKind::ExpectedFrom);
        if let Err(d) = rfrom {
            proof {
                reveal_with_fuel(p_for_statement, 2); reveal_with_fuel(p_statement, 2);
                assert(p_for_statement(t0, pos0) == PStmt::Failed(d@));
            }
            return Err(d);
        }
        let rs = self.expression();
        let start = match rs {
            Ok(e) => e,
            Err(d) => {
                proof {
                    reveal_with_fuel(p_for_statement, 2); reveal_with_fuel(p_statement, 2);
                    assert(p_for_statement(t0, pos0) == PStmt::Failed(d@));
                }
                return Err(d);
            },
        };
        proof {
            reveal_with_fuel(p_for_statement, 2); reveal_with_fuel(p_statement, 2);
            assert(fwd(t0, pos0 + 2, self.pos()) == self.pos());
        }
        let runtil = self.consume(TokenType::Until, DiagKind::ExpectedUntil);
        if let Err(d) = runtil {
            proof {
                reveal_with_fuel(p_for_statement, 2); reveal_with_fuel(p_statement, 2);
                assert(p_for_statement(t0, pos0) == PStmt::Failed(d@));
            }
            return Err(d);
        }
        let rend = self.expression();
        let end = match rend {
            Ok(e) => e,
            Err(d) => {
                proof {
                    reveal_with_fuel(p_for_statement, 2); reveal_with_fuel(p_statement, 2);
                    assert(p_for_statement(t0, pos0) == PStmt::Failed(d@));
                }
                return Err(d);
            },
        };
        proof {
            reveal_with_fuel(p_for_statement, 2); reveal_with_fuel(p_statement, 2);
        }
        let rb = self.statement();
        match rb {
            Ok(body) => {
                let st = Stmt::For(name, start, end, Box::new(body));
                proof {
                    reveal_with_fuel(p_for_statement, 2); reveal_with_fuel(p_statement, 2);
                    assert(p_for_statement(t0, pos0) == (PStmt::Found {
                        s: st@,
                        next: self.pos(),
                    }));
                }
                Ok(st)
            },
            Err(d) => {
                proof {
                    reveal_with_fuel(p_for_statement, 2); reveal_with_fuel(p_statement, 2);
                    assert(p_for_statement(t0, pos0) == PStmt::Failed(d@));
                }
                Err(d)
            },
        }
    }

    /// A statement: print, print-line, block, if, while, for, or an
    /// expression statement.
    #[verifier::rlimit(60)]
    fn statement(&mut self) -> (r: Result<Stmt, Diag>)
        requires
            old(self).inv(),
        ensures
            final(self).inv(),
            final(self).toks() == old(self).toks(),
            ({
                let ps = p_statement(old(self).toks(), old(self).pos());
                match r {
                    Ok(st) => ps matches PStmt::Found { s: sv, next: sn } && st@ == sv && stmt_wf(
                        st@,
                    ) && final(self).pos() == sn && old(self).pos() < sn,
                    Err(d) => ps matches PStmt::Failed(sd) && d@ == sd,
                }
            }),
        decreases self.toks().len() - self.pos(), 19int,
    {
        let ghost t0 = self.toks();
        let ghost pos0 = self.pos();
        if self.matches(TokenType::Print) {
            proof {
                reveal_with_fuel(p_statement, 2); reveal_with_fuel(p_if_statement, 2); reveal_with_fuel(p_statement, 2); reveal_with_fuel(p_elifs, 2); reveal_with_fuel(p_while_statement, 2); reveal_with_fuel(p_statement, 2); reveal_with_fuel(p_for_statement, 2); reveal_with_fuel(p_statement, 2); reveal_with_fuel(p_block_statement, 2); reveal_with_fuel(p_block_rest, 2); reveal(p_print_statement); reveal(p_println_statement); reveal(p_expr_statement);
                assert(p_statement(t0, pos0) == p_print_statement(t0, pos0 + 1));
            }
            self.print_statement()
        } else if self.matches(TokenType::Println) {
            proof {
                reveal_with_fuel(p_statement, 2); reveal_with_fuel(p_if_statement, 2); reveal_with_fuel(p_statement, 2); reveal_with_fuel(p_elifs, 2); reveal_with_fuel(p_while_statement, 2); reveal_with_fuel(p_statement, 2); reveal_with_fuel(p_for_statement, 2); reveal_with_fuel(p_statement, 2); reveal_with_fuel(p_block_statement, 2); reveal_with_fuel(p_block_rest, 2); reveal(p_print_statement); reveal(p_println_statement); reveal(p_expr_statement);
                assert(p_statement(t0, pos0) == p_println_statement(t0, pos0 + 1));
            }
            self.println_statement()
        } else if self.matches(TokenType::LeftBrace) {
            proof {
                reveal_with_fuel(p_statement, 2); reveal_with_fuel(p_if_statement, 2); reveal_with_fuel(p_statement, 2); reveal_with_fuel(p_elifs, 2); reveal_with_fuel(p_while_statement, 2); reveal_with_fuel(p_statement, 2); reveal_with_fuel(p_for_statement, 2); reveal_with_fuel(p_statement, 2); reveal_with_fuel(p_block_statement, 2); reveal_with_fuel(p_block_rest, 2); reveal(p_print_statement); reveal(p_println_statement); reveal(p_expr_statement);
                assert(p_statement(t0, pos0) == p_block_statement(t0, pos0 + 1));
            }
            self.block_statement()
        } else if self.matches(TokenType::If) {
            proof {
                reveal_with_fuel(p_statement, 2); reveal_with_fuel(p_if_statement, 2); reveal_with_fuel(p_statement, 2); reveal_with_fuel(p_elifs, 2); reveal_with_fuel(p_while_statement, 2); reveal_with_fuel(p_statement, 2); reveal_with_fuel(p_for_statement, 2); reveal_with_fuel(p_statement, 2); reveal_with_fuel(p_block_statement, 2); reveal_with_fuel(p_block_rest, 2); reveal(p_print_statement); reveal(p_println_statement); reveal(p_expr_statement);
                assert(p_statement(t0, pos0) == p_if_statement(t0, pos0 + 1));
            }
            self.if_statement()
        } else if self.matches(TokenType::While) {
            proof {
                reveal_with_fuel(p_statement, 2); reveal_with_fuel(p_if_statement, 2); reveal_with_fuel(p_statement, 2); reveal_with_fuel(p_elifs, 2); reveal_with_fuel(p_while_statement, 2); reveal_with_fuel(p_statement, 2); reveal_with_fuel(p_for_statement, 2); reveal_with_fuel(p_statement, 2); reveal_with_fuel(p_block_statement, 2); reveal_with_fuel(p_block_rest, 2); reveal(p_print_statement); reveal(p_println_statement); reveal(p_expr_statement);
                assert(p_statement(t0, pos0) == p_while_statement(t0, pos0 + 1));
            }
            self.while_statement()
        } else if self.matches(TokenType::For) {
            proof {
                reveal_with_fuel(p_statement, 2); reveal_with_fuel(p_if_statement, 2); reveal_with_fuel(p_statement, 2); reveal_with_fuel(p_elifs, 2); reveal_with_fuel(p_while_statement, 2); reveal_with_fuel(p_statement, 2); reveal_with_fuel(p_for_statement, 2); reveal_with_fuel(p_statement, 2); reveal_with_fuel(p_block_statement, 2); reveal_with_fuel(p_block_rest, 2); reveal(p_print_statement); reveal(p_println_statement); reveal(p_expr_statement);
                assert(p_statement(t0, pos0) == p_for_statement(t0, pos0 + 1));
            }
            self.for_statement()
        } else {
            proof {
                reveal_with_fuel(p_statement, 2); reveal_with_fuel(p_if_statement, 2); reveal_with_fuel(p_statement, 2); reveal_with_fuel(p_elifs, 2); reveal_with_fuel(p_while_statement, 2); reveal_with_fuel(p_statement, 2); reveal_with_fuel(p_for_statement, 2); reveal_with_fuel(p_statement, 2); reveal_with_fuel(p_block_statement, 2); reveal_with_fuel(p_block_rest, 2); reveal(p_print_statement); reveal(p_println_statement); reveal(p_expr_statement);
                assert(p_statement(t0, pos0) == p_expr_statement(t0, pos0));
            }
            self.expr_statement()
        }
    }

    /// A declaration: a variable declaration or a statement.
    #[verifier::rlimit(60)]
    fn declaration(&mut self) -> (r: Result<Stmt, Diag>)
        requires
            old(self).inv(),
        ensures
            final(self).inv(),
            final(self).toks() == old(self).toks(),
            ({
                let ps = p_declaration(old(self).toks(), old(self).pos());
                match r {
                    Ok(st) => ps matches PStmt::Found { s: sv, next: sn } && st@ == sv && stmt_wf(
                        st@,
                    ) && final(self).pos() == sn && old(self).pos() < sn,
                    Err(d) => ps matches PStmt::Failed(sd) && d@ == sd,
                }
            }),
        decreases self.toks().len() - self.pos(), 20int,
    {
        let ghost t0 = self.toks();
        let ghost pos0 = self.pos();
        if self.matches(TokenType::Var) {
            proof {
                reveal_with_fuel(p_declaration, 2); reveal_with_fuel(p_statement, 2); reveal(p_var_declaration);
                assert(p_declaration(t0, pos0) == p_var_declaration(t0, pos0 + 1));
            }
            self.var_declaration()
        } else {
            proof {
                reveal_with_fuel(p_declaration, 2); reveal_with_fuel(p_statement, 2); reveal(p_var_declaration);
                assert(p_declaration(t0, pos0) == p_statement(t0, pos0));
            }
            self.statement()
        }
    }

    /// The rest of a program: declarations until the end of input, folded
    /// onto the statements collected so far.
    fn program_rest(&mut self, acc: Vec<Stmt>) -> (r: Result<Vec<Stmt>, Diag>)
        requires
            old(self).inv(),
            stmts_wf(stmts_view(acc@)),
        ensures
            final(self).inv(),
            final(self).toks() == old(self).toks(),
            ({
                let ps = p_program_rest(old(self).toks(), stmts_view(acc@), old(self).pos());
                match r {
                    Ok(v) => ps matches PStmts::Found { ss, next } && stmts_view(v@) == ss
                        && stmts_wf(ss) && final(self).pos() == next && old(self).toks()[next].kind
                        == TokenType::EOF,
                    Err(d) => ps matches PStmts::Failed(sd) && d@ == sd,
                }
            }),
        decreases self.toks().len() - self.pos(), 21int,
    {
        let ghost t0 = self.toks();
        let ghost pos0 = self.pos();
        let ghost accv = stmts_view(acc@);
        if !self.is_at_end() {
            let rd = self.declaration();
            let st = match rd {
                Ok(s) => s,
                Err(d) => {
                    proof {
                        reveal_with_fuel(p_program_rest, 2); reveal_with_fuel(p_declaration, 2);
                        assert(p_program_rest(t0, accv, pos0) == PStmts::Failed(d@));
                    }
                    return Err(d);
                },
            };
            let mut acc2 = acc;
            let ghost prev = acc2@;
            acc2.push(st);
            proof {
                reveal_with_fuel(p_program_rest, 2); reveal_with_fuel(p_declaration, 2);
                assert(acc2@.drop_last() =~= prev);
                assert(stmts_view(acc2@).drop_last() =~= stmts_view(prev));
                assert(stmts_view(acc2@) == stmts_view(prev).push(stmt_view(acc2@.last())));
                assert(stmts_wf(stmts_view(acc2@)));
                assert(fwd(t0, pos0, self.pos()) == self.pos());
                assert(p_program_rest(t0, accv, pos0) == p_program_rest(
                    t0,
                    stmts_view(acc2@),
                    self.pos(),
                ));
            }
            self.program_rest(acc2)
        } else {
            proof {
                reveal_with_fuel(p_program_rest, 2); reveal_with_fuel(p_declaration, 2);
                assert(p_program_rest(t0, accv, pos0) == (PStmts::Found { ss: accv, next: pos0 }));
            }
            Ok(acc)
        }
    }

    /// Parses one expression: the diagnostic-mode entry point.
    pub fn parse_expr(&mut self) -> (r: Result<Expr, Diag>)
        requires
            old(self).inv(),
        ensures
            final(self).inv(),
            final(self).toks() == old(self).toks(),
            ({
                let ps = p_expression(old(self).toks(), old(self).pos());
                match r {
                    Ok(e) => ps matches PExpr::Found { e: se, next: sn } && e@ == se && expr_wf(e@)
                        && final(self).pos() == sn && old(self).pos() < sn,
                    Err(d) => ps matches PExpr::Failed(sd) && d@ == sd,
                }
            }),
    {
        self.expression()
    }

    /// Parses a whole program: one statement per top-level declaration, in
    /// source order, consuming the entire token sequence, so that the cursor
    /// stands on the end-of-input token on success. The run-mode entry
    /// point.
    pub fn parse_statements(&mut self) -> (r: Result<Vec<Stmt>, Diag>)
        requires
            old(self).inv(),
        ensures
            final(self).inv(),
            final(self).toks() == old(self).toks(),
            ({
                let ps = p_program_rest(old(self).toks(), Seq::empty(), old(self).pos());
                match r {
                    Ok(v) => ps matches PStmts::Found { ss, next } && stmts_view(v@) == ss
                        && stmts_wf(ss) && final(self).pos() == next && old(self).toks()[next].kind
                        == TokenType::EOF,
                    Err(d) => ps matches PStmts::Failed(sd) && d@ == sd,
                }
            }),
    {
        let acc: Vec<Stmt> = Vec::new();
        proof {
            assert(stmts_view(acc@) =~= Seq::<StmtV>::empty());
            assert(stmts_wf(stmts_view(acc@)));
        }
        self.program_rest(acc)
    }
}

} // verus!
