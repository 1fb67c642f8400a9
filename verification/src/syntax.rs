//! The abstract syntax tree: expression and statement nodes, their ghost
//! forms, and their well-formedness.
//!
//! Every node owns its children exclusively: the tree is strict and
//! non-cyclic. Well-formedness pins the operator token kinds each node may
//! carry and requires every embedded numeric literal to be well-formed.

use vstd::prelude::*;

use crate::token::{litv_wf, LitV, Literal, Token, TokenV};
use crate::token_type::TokenType;

verus! {

/// Ghost form of an expression node.
pub enum ExprV {
    Lit(LitV),
    Grouping(Box<ExprV>),
    Unary(TokenV, Box<ExprV>),
    Binary(Box<ExprV>, TokenV, Box<ExprV>),
    Var(TokenV),
    Assign(TokenV, Box<ExprV>),
    Logic(Box<ExprV>, TokenV, Box<ExprV>),
}

/// An expression node: a literal, a parenthesized group, a unary or binary
/// operation, a variable reference, an assignment, or a short-circuiting
/// logical operation. Operator tokens are kept for their kind and line.
#[derive(Debug)]
pub enum Expr {
    Lit(Literal),
    Grouping(Box<Expr>),
    Unary(Token, Box<Expr>),
    Binary(Box<Expr>, Token, Box<Expr>),
    Var(Token),
    Assign(Token, Box<Expr>),
    Logic(Box<Expr>, Token, Box<Expr>),
}

/// The ghost form of an expression.
pub open spec fn expr_view(e: Expr) -> ExprV
    decreases e,
{
    match e {
        Expr::Lit(l) => ExprV::Lit(l@),
        Expr::Grouping(inner) => ExprV::Grouping(Box::new(expr_view(*inner))),
        Expr::Unary(t, inner) => ExprV::Unary(t@, Box::new(expr_view(*inner))),
        Expr::Binary(l, t, r) => ExprV::Binary(Box::new(expr_view(*l)), t@, Box::new(expr_view(*r))),
        Expr::Var(t) => ExprV::Var(t@),
        Expr::Assign(t, inner) => ExprV::Assign(t@, Box::new(expr_view(*inner))),
        Expr::Logic(l, t, r) => ExprV::Logic(Box::new(expr_view(*l)), t@, Box::new(expr_view(*r))),
    }
}

impl View for Expr {
    type V = ExprV;

    open spec fn view(&self) -> ExprV {
        expr_view(*self)
    }
}

/// Whether a token kind is a binary operator the evaluator knows.
pub open spec fn is_binop(k: TokenType) -> bool {
    ||| k == TokenType::Plus
    ||| k == TokenType::Minus
    ||| k == TokenType::Star
    ||| k == TokenType::Slash
    ||| k == TokenType::Caret
    ||| k == TokenType::Greater
    ||| k == TokenType::GreaterEqual
    ||| k == TokenType::Less
    ||| k == TokenType::LessEqual
    ||| k == TokenType::EqualEqual
    ||| k == TokenType::BangEqual
}

/// Well-formedness of an expression: operator kinds are the ones the
/// evaluator knows, and every numeric literal is well-formed.
pub open spec fn expr_wf(e: ExprV) -> bool
    decreases e,
{
    match e {
        ExprV::Lit(l) => litv_wf(l),
        ExprV::Grouping(inner) => expr_wf(*inner),
        ExprV::Unary(t, inner) => (t.kind == TokenType::Minus || t.kind == TokenType::Bang)
            && expr_wf(*inner),
        ExprV::Binary(l, t, r) => is_binop(t.kind) && expr_wf(*l) && expr_wf(*r),
        ExprV::Var(_) => true,
        ExprV::Assign(_, inner) => expr_wf(*inner),
        ExprV::Logic(l, t, r) => (t.kind == TokenType::And || t.kind == TokenType::Or) && expr_wf(
            *l,
        ) && expr_wf(*r),
    }
}

/// Ghost form of one if clause.
pub struct IfV {
    pub cond: ExprV,
    pub body: Box<StmtV>,
}

/// Ghost form of a statement node.
pub enum StmtV {
    Expr(ExprV),
    Print(ExprV),
    Println(ExprV),
    Var(TokenV, ExprV),
    Block(Seq<StmtV>),
    If(IfV, Seq<IfV>, Option<Box<StmtV>>),
    While(ExprV, Box<StmtV>),
    For(TokenV, ExprV, ExprV, Box<StmtV>),
}

/// One if clause: a condition and the statement it guards.
#[derive(Debug)]
pub struct If(pub Expr, pub Box<Stmt>);

impl If {
    /// Builds a clause from its condition and branch.
    pub fn new(cond: Expr, body: Stmt) -> (r: If)
        ensures
            r@ == (IfV { cond: cond@, body: Box::new(body@) }),
    {
        If(cond, Box::new(body))
    }
}

/// A statement node: an expression statement, output with or without a line
/// break, a variable declaration, a block, an if/else-if/else chain, or the
/// parsed-but-unexecuted while and for forms.
#[derive(Debug)]
pub enum Stmt {
    Expr(Expr),
    Print(Expr),
    Println(Expr),
    Var(Token, Expr),
    Block(Vec<Stmt>),
    If(If, Vec<If>, Option<Box<Stmt>>),
    While(Expr, Box<Stmt>),
    For(Token, Expr, Expr, Box<Stmt>),
}

/// The ghost form of a statement.
pub open spec fn stmt_view(s: Stmt) -> StmtV
    decreases s,
{
    match s {
        Stmt::Expr(e) => StmtV::Expr(e@),
        Stmt::Print(e) => StmtV::Print(e@),
        Stmt::Println(e) => StmtV::Println(e@),
        Stmt::Var(t, e) => StmtV::Var(t@, e@),
        Stmt::Block(v) => StmtV::Block(stmts_view(v@)),
        Stmt::If(first, elifs, other) => StmtV::If(
            if_view(first),
            ifs_view(elifs@),
            match other {
                Some(s2) => Some(Box::new(stmt_view(*s2))),
                None => None,
            },
        ),
        Stmt::While(e, b) => StmtV::While(e@, Box::new(stmt_view(*b))),
        Stmt::For(t, a, b, body) => StmtV::For(t@, a@, b@, Box::new(stmt_view(*body))),
    }
}

/// The ghost forms of a statement sequence.
pub open spec fn stmts_view(v: Seq<Stmt>) -> Seq<StmtV>
    decreases v,
{
    if v.len() == 0 {
        Seq::empty()
    } else {
        stmts_view(v.drop_last()).push(stmt_view(v.last()))
    }
}

/// The ghost form of one if clause.
pub open spec fn if_view(c: If) -> IfV
    decreases c,
{
    IfV { cond: c.0@, body: Box::new(stmt_view(*c.1)) }
}

/// The ghost forms of an if-clause sequence.
pub open spec fn ifs_view(v: Seq<If>) -> Seq<IfV>
    decreases v,
{
    if v.len() == 0 {
        Seq::empty()
    } else {
        ifs_view(v.drop_last()).push(if_view(v.last()))
    }
}

/// The ghost form of an optional boxed statement.
pub open spec fn opt_stmt_view(o: Option<Box<Stmt>>) -> Option<Box<StmtV>> {
    match o {
        Some(b) => Some(Box::new(stmt_view(*b))),
        None => None,
    }
}

impl View for Stmt {
    type V = StmtV;

    open spec fn view(&self) -> StmtV {
        stmt_view(*self)
    }
}

impl View for If {
    type V = IfV;

    open spec fn view(&self) -> IfV {
        if_view(*self)
    }
}

/// Well-formedness of one if clause.
pub open spec fn if_wf(c: IfV) -> bool
    decreases c,
{
    expr_wf(c.cond) && stmt_wf(*c.body)
}

/// Well-formedness of a statement: every expression in it is well-formed.
pub open spec fn stmt_wf(s: StmtV) -> bool
    decreases s,
{
    match s {
        StmtV::Expr(e) => expr_wf(e),
        StmtV::Print(e) => expr_wf(e),
        StmtV::Println(e) => expr_wf(e),
        StmtV::Var(_, e) => expr_wf(e),
        StmtV::Block(ss) => stmts_wf(ss),
        StmtV::If(first, elifs, other) => if_wf(first) && ifs_wf(elifs) && match other {
            Some(s2) => stmt_wf(*s2),
            None => true,
        },
        StmtV::While(e, b) => expr_wf(e) && stmt_wf(*b),
        StmtV::For(_, a, b, body) => expr_wf(a) && expr_wf(b) && stmt_wf(*body),
    }
}

/// Well-formedness of a statement sequence.
pub open spec fn stmts_wf(ss: Seq<StmtV>) -> bool
    decreases ss,
{
    if ss.len() == 0 {
        true
    } else {
        stmts_wf(ss.drop_last()) && stmt_wf(ss.last())
    }
}

/// Well-formedness of an if-clause sequence.
pub open spec fn ifs_wf(cs: Seq<IfV>) -> bool
    decreases cs,
{
    if cs.len() == 0 {
        true
    } else {
        ifs_wf(cs.drop_last()) && if_wf(cs.last())
    }
}


/// A viewed statement sequence keeps its length.
pub proof fn lemma_stmts_view_len(v: Seq<Stmt>)
    ensures
        stmts_view(v).len() == v.len(),
    decreases v.len(),
{
    if v.len() > 0 {
        lemma_stmts_view_len(v.drop_last());
    }
}

/// Each element of a viewed statement sequence is the view of the element.
pub proof fn lemma_stmts_view_index(v: Seq<Stmt>, i: int)
    requires
        0 <= i < v.len(),
    ensures
        stmts_view(v).len() == v.len(),
        stmts_view(v)[i] == stmt_view(v[i]),
    decreases v.len(),
{
    lemma_stmts_view_len(v);
    lemma_stmts_view_len(v.drop_last());
    if i + 1 < v.len() {
        assert(v.drop_last()[i] == v[i]);
        lemma_stmts_view_index(v.drop_last(), i);
    }
}

/// A viewed if-clause sequence keeps its length.
pub proof fn lemma_ifs_view_len(v: Seq<If>)
    ensures
        ifs_view(v).len() == v.len(),
    decreases v.len(),
{
    if v.len() > 0 {
        lemma_ifs_view_len(v.drop_last());
    }
}

/// Each element of a viewed if-clause sequence is the view of the element.
pub proof fn lemma_ifs_view_index(v: Seq<If>, i: int)
    requires
        0 <= i < v.len(),
    ensures
        ifs_view(v).len() == v.len(),
        ifs_view(v)[i] == if_view(v[i]),
    decreases v.len(),
{
    lemma_ifs_view_len(v);
    lemma_ifs_view_len(v.drop_last());
    if i + 1 < v.len() {
        assert(v.drop_last()[i] == v[i]);
        lemma_ifs_view_index(v.drop_last(), i);
    }
}

/// Every statement of a well-formed sequence is well-formed.
pub proof fn lemma_stmts_wf_at(ss: Seq<StmtV>, i: int)
    requires
        stmts_wf(ss),
        0 <= i < ss.len(),
    ensures
        stmt_wf(ss[i]),
    decreases ss.len(),
{
    if i + 1 < ss.len() {
        assert(ss.drop_last()[i] == ss[i]);
        lemma_stmts_wf_at(ss.drop_last(), i);
    }
}

/// Every clause of a well-formed if-clause sequence is well-formed.
pub proof fn lemma_ifs_wf_at(cs: Seq<IfV>, i: int)
    requires
        ifs_wf(cs),
        0 <= i < cs.len(),
    ensures
        if_wf(cs[i]),
    decreases cs.len(),
{
    if i + 1 < cs.len() {
        assert(cs.drop_last()[i] == cs[i]);
        lemma_ifs_wf_at(cs.drop_last(), i);
    }
}

} // verus!
