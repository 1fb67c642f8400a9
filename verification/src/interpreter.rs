//! Direct AST interpretation.
//!
//! The interpreter walks a statement sequence against the chain of scope
//! frames and accumulates the program's output; the shell writes the output
//! and renders any fatal diagnostic.
//!
//! The whole walk is specified by `eval_expr_spec`, `eval_stmt_spec` and
//! `eval_stmts_spec`, a value-level model of evaluation over the ghost
//! environment; every evaluating method is proved to leave exactly the
//! model's environment and output and to return exactly its value or
//! diagnostic. Operator application is specified by `unary_op_spec` and
//! `bin_op_spec`.

use vstd::prelude::*;
use vstd::string::StringExecFns;

use crate::diag::{Diag, DiagKind, DiagV};
use crate::environment::{env_get, env_insert, env_new, env_replace, Env, EnvV};
use crate::num::{fits_d, fits_n, num_text_spec, pow_ok, pow_pair, rat_eq, rat_lt, rat_le, Num};
use crate::syntax::{
    expr_wf, stmt_wf, stmts_view, stmts_wf, Expr, ExprV, If, IfV, Stmt, StmtV,
};
use crate::token::{Token, TokenV};
use crate::token_type::TokenType;
use crate::value::{lit_value, render_spec, truthy, val_eq, val_wf, Value, ValueV};

verus! {

broadcast use vstd::std_specs::vec::axiom_vec_index_decreases;

/// A diagnostic citing no name.
pub open spec fn fault(line: int, kind: DiagKind) -> DiagV {
    DiagV { line, kind, name: Seq::empty() }
}

/// The ghost form of an operator or evaluation result.
pub open spec fn res_view(r: Result<Value, Diag>) -> Result<ValueV, DiagV> {
    match r {
        Ok(v) => Ok(v@),
        Err(d) => Err(d@),
    }
}

/// The boolean value of a truth value.
pub open spec fn bool_val(b: bool) -> ValueV {
    if b {
        ValueV::True
    } else {
        ValueV::False
    }
}

/// What a unary operator yields on a value: `-` negates a number exactly and
/// is a type error on anything else; `!` yields the negation of truthiness,
/// where any value other than exactly `True` counts as false.
pub open spec fn unary_op_spec(op: TokenV, v: ValueV) -> Result<ValueV, DiagV> {
    if op.kind == TokenType::Bang {
        Ok(bool_val(!truthy(v)))
    } else {
        match v {
            ValueV::Num { n, d } => if fits_n(-n) {
                Ok(ValueV::Num { n: -n, d })
            } else {
                Err(fault(op.line, DiagKind::NumberOverflow))
            },
            _ => Err(fault(op.line, DiagKind::TypeErrorUnaryMinus)),
        }
    }
}

/// What raising one number to another yields: the exponent must denote a
/// whole number, a zero base refuses a negative exponent, and the exact
/// power must fit the representation (bases denoting zero, one and minus one
/// are always answered).
pub open spec fn pow_op_spec(line: int, an: int, ad: int, bn: int, bd: int) -> Result<
    ValueV,
    DiagV,
> {
    let abs = if bn < 0 {
        -bn
    } else {
        bn
    };
    if abs % bd != 0 {
        Err(fault(line, DiagKind::FractionalExponent))
    } else {
        let e = (abs / bd) as nat;
        if bn >= 0 {
            if pow_ok(an, ad, e) {
                Ok(ValueV::Num { n: pow_pair(an, ad, e).0, d: pow_pair(an, ad, e).1 })
            } else {
                Err(fault(line, DiagKind::NumberOverflow))
            }
        } else if an == 0 {
            Err(fault(line, DiagKind::DivisionByZero))
        } else {
            let aabs = if an < 0 {
                -an
            } else {
                an
            };
            if aabs > u32::MAX {
                Err(fault(line, DiagKind::NumberOverflow))
            } else {
                let inv_n = if an < 0 {
                    -ad
                } else {
                    ad
                };
                if pow_ok(inv_n, aabs, e) {
                    Ok(ValueV::Num { n: pow_pair(inv_n, aabs, e).0, d: pow_pair(inv_n, aabs, e).1 })
                } else {
                    Err(fault(line, DiagKind::NumberOverflow))
                }
            }
        }
    }
}

/// What a binary operator yields on two evaluated operands. `+` adds numbers
/// exactly, concatenates strings, and concatenates a number's text with a
/// string in either order; `-`, `*`, `/` and `^` work on numbers only, with
/// exact rational results, an overflow diagnostic where the result does not
/// fit, and a division-by-zero diagnostic; comparisons work on numbers only
/// and yield booleans; `==` and `!=` are structural with no coercion. Every
/// fault cites the operator's line.
pub open spec fn bin_op_spec(op: TokenV, a: ValueV, b: ValueV) -> Result<ValueV, DiagV> {
    let line = op.line;
    if op.kind == TokenType::Plus {
        match (a, b) {
            (ValueV::Num { n: n1, d: d1 }, ValueV::Num { n: n2, d: d2 }) => if fits_n(
                n1 * d2 + n2 * d1,
            ) && fits_d(d1 * d2) {
                Ok(ValueV::Num { n: n1 * d2 + n2 * d1, d: d1 * d2 })
            } else {
                Err(fault(line, DiagKind::NumberOverflow))
            },
            (ValueV::Str(s1), ValueV::Str(s2)) => Ok(ValueV::Str(s1 + s2)),
            (ValueV::Num { n, d }, ValueV::Str(s)) => Ok(ValueV::Str(num_text_spec(n, d) + s)),
            (ValueV::Str(s), ValueV::Num { n, d }) => Ok(ValueV::Str(s + num_text_spec(n, d))),
            _ => Err(fault(line, DiagKind::TypeErrorPlus)),
        }
    } else if op.kind == TokenType::Minus {
        match (a, b) {
            (ValueV::Num { n: n1, d: d1 }, ValueV::Num { n: n2, d: d2 }) => if fits_n(
                n1 * d2 - n2 * d1,
            ) && fits_d(d1 * d2) {
                Ok(ValueV::Num { n: n1 * d2 - n2 * d1, d: d1 * d2 })
            } else {
                Err(fault(line, DiagKind::NumberOverflow))
            },
            _ => Err(fault(line, DiagKind::TypeErrorArithmetic)),
        }
    } else if op.kind == TokenType::Star {
        match (a, b) {
            (ValueV::Num { n: n1, d: d1 }, ValueV::Num { n: n2, d: d2 }) => if fits_n(n1 * n2)
                && fits_d(d1 * d2) {
                Ok(ValueV::Num { n: n1 * n2, d: d1 * d2 })
            } else {
                Err(fault(line, DiagKind::NumberOverflow))
            },
            _ => Err(fault(line, DiagKind::TypeErrorArithmetic)),
        }
    } else if op.kind == TokenType::Slash {
        match (a, b) {
            (ValueV::Num { n: n1, d: d1 }, ValueV::Num { n: n2, d: d2 }) => if n2 == 0 {
                Err(fault(line, DiagKind::DivisionByZero))
            } else {
                let qn = if n2 >= 0 {
                    n1 * d2
                } else {
                    -(n1 * d2)
                };
                let qd = if n2 >= 0 {
                    d1 * n2
                } else {
                    d1 * -n2
                };
                if fits_n(qn) && fits_d(qd) {
                    Ok(ValueV::Num { n: qn, d: qd })
                } else {
                    Err(fault(line, DiagKind::NumberOverflow))
                }
            },
            _ => Err(fault(line, DiagKind::TypeErrorArithmetic)),
        }
    } else if op.kind == TokenType::Caret {
        match (a, b) {
            (ValueV::Num { n: n1, d: d1 }, ValueV::Num { n: n2, d: d2 }) => pow_op_spec(
                line,
                n1,
                d1,
                n2,
                d2,
            ),
            _ => Err(fault(line, DiagKind::TypeErrorPower)),
        }
    } else if op.kind == TokenType::Greater {
        match (a, b) {
            (ValueV::Num { n: n1, d: d1 }, ValueV::Num { n: n2, d: d2 }) => Ok(
                bool_val(rat_lt(n2, d2, n1, d1)),
            ),
            _ => Err(fault(line, DiagKind::TypeErrorComparison)),
        }
    } else if op.kind == TokenType::GreaterEqual {
        match (a, b) {
            (ValueV::Num { n: n1, d: d1 }, ValueV::Num { n: n2, d: d2 }) => Ok(
                bool_val(rat_le(n2, d2, n1, d1)),
            ),
            _ => Err(fault(line, DiagKind::TypeErrorComparison)),
        }
    } else if op.kind == TokenType::Less {
        match (a, b) {
            (ValueV::Num { n: n1, d: d1 }, ValueV::Num { n: n2, d: d2 }) => Ok(
                bool_val(rat_lt(n1, d1, n2, d2)),
            ),
            _ => Err(fault(line, DiagKind::TypeErrorComparison)),
        }
    } else if op.kind == TokenType::LessEqual {
        match (a, b) {
            (ValueV::Num { n: n1, d: d1 }, ValueV::Num { n: n2, d: d2 }) => Ok(
                bool_val(rat_le(n1, d1, n2, d2)),
            ),
            _ => Err(fault(line, DiagKind::TypeErrorComparison)),
        }
    } else if op.kind == TokenType::EqualEqual {
        Ok(bool_val(val_eq(a, b)))
    } else {
        Ok(bool_val(!val_eq(a, b)))
    }
}

/// Applies a unary operator to a value.
pub fn apply_unary(op: &Token, v: &Value) -> (r: Result<Value, Diag>)
    requires
        v.wf(),
        op@.kind == TokenType::Minus || op@.kind == TokenType::Bang,
    ensures
        res_view(r) == unary_op_spec(op@, v@),
        r matches Ok(u) ==> u.wf(),
{
    match op.kind {
        TokenType::Minus => match v {
            Value::Num(q) => match q.neg() {
                Some(c) => Ok(Value::Num(c)),
                None => Err(Diag::new(op.line, DiagKind::NumberOverflow)),
            },
            _ => Err(Diag::new(op.line, DiagKind::TypeErrorUnaryMinus)),
        },
        _ => Ok(Value::from_bool(!v.is_true())),
    }
}

/// Raises one number to another.
fn apply_power(op: &Token, a: Num, b: Num) -> (r: Result<Value, Diag>)
    requires
        a.wf(),
        b.wf(),
    ensures
        res_view(r) == pow_op_spec(op@.line, a.ni(), a.di(), b.ni(), b.di()),
        r matches Ok(u) ==> u.wf(),
{
    let bn: i128 = b.n as i128;
    let neg = bn < 0;
    let abs: u64 = if neg {
        (-bn) as u64
    } else {
        bn as u64
    };
    let d64: u64 = b.d as u64;
    if abs % d64 != 0 {
        return Err(Diag::new(op.line, DiagKind::FractionalExponent));
    }
    let e: u64 = abs / d64;
    if !neg {
        match a.pow_nat(e) {
            Some(c) => Ok(Value::Num(c)),
            None => Err(Diag::new(op.line, DiagKind::NumberOverflow)),
        }
    } else {
        if a.n == 0 {
            return Err(Diag::new(op.line, DiagKind::DivisionByZero));
        }
        // invert the base, then raise to the positive exponent
        let an: i128 = a.n as i128;
        let aabs: i128 = if an < 0 {
            -an
        } else {
            an
        };
        if aabs > 0xffff_ffff {
            return Err(Diag::new(op.line, DiagKind::NumberOverflow));
        }
        let inv = Num {
            n: if a.n < 0 {
                -(a.d as i64)
            } else {
                a.d as i64
            },
            d: aabs as u32,
        };
        match inv.pow_nat(e) {
            Some(c) => Ok(Value::Num(c)),
            None => Err(Diag::new(op.line, DiagKind::NumberOverflow)),
        }
    }
}

/// Applies a binary operator to two evaluated operands.
pub fn apply_binary(op: &Token, a: &Value, b: &Value) -> (r: Result<Value, Diag>)
    requires
        a.wf(),
        b.wf(),
        crate::syntax::is_binop(op@.kind),
    ensures
        res_view(r) == bin_op_spec(op@, a@, b@),
        r matches Ok(v) ==> v.wf(),
{
    match op.kind {
        TokenType::Plus => match (a, b) {
            (Value::Num(q1), Value::Num(q2)) => match q1.add(*q2) {
                Some(c) => Ok(Value::Num(c)),
                None => Err(Diag::new(op.line, DiagKind::NumberOverflow)),
            },
            (Value::Str(s1), Value::Str(s2)) => {
                let mut s = s1.clone();
                s.append(s2.as_str());
                Ok(Value::Str(s))
            },
            (Value::Num(q), Value::Str(s2)) => {
                let mut s = crate::num::num_text(*q);
                s.append(s2.as_str());
                Ok(Value::Str(s))
            },
            (Value::Str(s1), Value::Num(q)) => {
                let mut s = s1.clone();
                let t = crate::num::num_text(*q);
                s.append(t.as_str());
                Ok(Value::Str(s))
            },
            _ => Err(Diag::new(op.line, DiagKind::TypeErrorPlus)),
        },
        TokenType::Minus => match (a, b) {
            (Value::Num(q1), Value::Num(q2)) => match q1.sub(*q2) {
                Some(c) => Ok(Value::Num(c)),
                None => Err(Diag::new(op.line, DiagKind::NumberOverflow)),
            },
            _ => Err(Diag::new(op.line, DiagKind::TypeErrorArithmetic)),
        },
        TokenType::Star => match (a, b) {
            (Value::Num(q1), Value::Num(q2)) => match q1.mul(*q2) {
                Some(c) => Ok(Value::Num(c)),
                None => Err(Diag::new(op.line, DiagKind::NumberOverflow)),
            },
            _ => Err(Diag::new(op.line, DiagKind::TypeErrorArithmetic)),
        },
        TokenType::Slash => match (a, b) {
            (Value::Num(q1), Value::Num(q2)) => if q2.n == 0 {
                Err(Diag::new(op.line, DiagKind::DivisionByZero))
            } else {
                match q1.div(*q2) {
                    Some(c) => Ok(Value::Num(c)),
                    None => Err(Diag::new(op.line, DiagKind::NumberOverflow)),
                }
            },
            _ => Err(Diag::new(op.line, DiagKind::TypeErrorArithmetic)),
        },
        TokenType::Caret => match (a, b) {
            (Value::Num(q1), Value::Num(q2)) => apply_power(op, *q1, *q2),
            _ => Err(Diag::new(op.line, DiagKind::TypeErrorPower)),
        },
        TokenType::Greater => match (a, b) {
            (Value::Num(q1), Value::Num(q2)) => Ok(Value::from_bool(q2.lt(*q1))),
            _ => Err(Diag::new(op.line, DiagKind::TypeErrorComparison)),
        },
        TokenType::GreaterEqual => match (a, b) {
            (Value::Num(q1), Value::Num(q2)) => Ok(Value::from_bool(q2.le(*q1))),
            _ => Err(Diag::new(op.line, DiagKind::TypeErrorComparison)),
        },
        TokenType::Less => match (a, b) {
            (Value::Num(q1), Value::Num(q2)) => Ok(Value::from_bool(q1.lt(*q2))),
            _ => Err(Diag::new(op.line, DiagKind::TypeErrorComparison)),
        },
        TokenType::LessEqual => match (a, b) {
            (Value::Num(q1), Value::Num(q2)) => Ok(Value::from_bool(q1.le(*q2))),
            _ => Err(Diag::new(op.line, DiagKind::TypeErrorComparison)),
        },
        TokenType::EqualEqual => Ok(Value::from_bool(Value::is_equal(a, b))),
        _ => Ok(Value::from_bool(!Value::is_equal(a, b))),
    }
}

/// The outcome of evaluating an expression: the frames afterwards and the
/// value or diagnostic.
pub struct EvalOut {
    pub env: EnvV,
    pub res: Result<ValueV, DiagV>,
}

/// The evaluation of an expression against a chain of frames: literals and
/// groupings evaluate directly; a variable reads its youngest binding and an
/// unknown name is a name error citing the token; an assignment evaluates
/// its right side, replaces the youngest binding (a name error where none
/// exists) and yields the assigned value; operators evaluate left before
/// right and apply `unary_op_spec`/`bin_op_spec`; logical `and` and `or`
/// short-circuit on the left operand's truthiness and collapse every result
/// to a boolean.
#[verifier::opaque]
pub open spec fn eval_expr_spec(e: ExprV, env: EnvV) -> EvalOut
    decreases e,
{
    match e {
        ExprV::Lit(l) => EvalOut { env, res: Ok(lit_value(l)) },
        ExprV::Grouping(i) => eval_expr_spec(*i, env),
        ExprV::Unary(t, i) => {
            let o = eval_expr_spec(*i, env);
            match o.res {
                Ok(v) => EvalOut { env: o.env, res: unary_op_spec(t, v) },
                Err(_) => o,
            }
        },
        ExprV::Binary(l, t, r) => {
            let o1 = eval_expr_spec(*l, env);
            match o1.res {
                Ok(a) => {
                    let o2 = eval_expr_spec(*r, o1.env);
                    match o2.res {
                        Ok(b) => EvalOut { env: o2.env, res: bin_op_spec(t, a, b) },
                        Err(_) => o2,
                    }
                },
                Err(_) => o1,
            }
        },
        ExprV::Var(t) => EvalOut {
            env,
            res: match env_get(env, t.lexeme) {
                Some(v) => Ok(v),
                None => Err(DiagV { line: t.line, kind: DiagKind::UnknownVariable, name: t.lexeme }),
            },
        },
        ExprV::Assign(t, i) => {
            let o = eval_expr_spec(*i, env);
            match o.res {
                Ok(v) => match env_replace(o.env, t.lexeme, v) {
                    Some(env2) => EvalOut { env: env2, res: Ok(v) },
                    None => EvalOut {
                        env: o.env,
                        res: Err(
                            DiagV {
                                line: t.line,
                                kind: DiagKind::AssignUndeclared,
                                name: t.lexeme,
                            },
                        ),
                    },
                },
                Err(_) => o,
            }
        },
        ExprV::Logic(l, t, r) => {
            let o1 = eval_expr_spec(*l, env);
            match o1.res {
                Ok(a) => if t.kind == TokenType::And {
                    if !truthy(a) {
                        EvalOut { env: o1.env, res: Ok(ValueV::False) }
                    } else {
                        let o2 = eval_expr_spec(*r, o1.env);
                        match o2.res {
                            Ok(b) => EvalOut { env: o2.env, res: Ok(bool_val(truthy(b))) },
                            Err(_) => o2,
                        }
                    }
                } else {
                    if truthy(a) {
                        EvalOut { env: o1.env, res: Ok(ValueV::True) }
                    } else {
                        let o2 = eval_expr_spec(*r, o1.env);
                        match o2.res {
                            Ok(b) => EvalOut { env: o2.env, res: Ok(bool_val(truthy(b))) },
                            Err(_) => o2,
                        }
                    }
                },
                Err(_) => o1,
            }
        },
    }
}

/// The outcome of executing statements: the frames and output afterwards,
/// and the diagnostic that stopped execution, if any.
pub struct StepOut {
    pub env: EnvV,
    pub out: Seq<char>,
    pub err: Option<DiagV>,
}

/// The outcome of scanning an else-if chain: as [`StepOut`], plus whether
/// some clause's condition was true and its branch ran.
pub struct ElifsOut {
    pub env: EnvV,
    pub out: Seq<char>,
    pub err: Option<DiagV>,
    pub matched: bool,
}

/// The execution of one statement. An expression statement discards its
/// value; print and print-line append the value's rendering (and one line
/// break); a declaration binds the name to the initializer's value in the
/// current frame; a block runs its contents inside exactly one fresh frame,
/// discarded afterwards; an if chain tests conditions in source order and
/// runs only the first true branch, or the else branch where none matched;
/// the parsed while and for forms are refused with a diagnostic.
#[verifier::opaque]
pub open spec fn eval_stmt_spec(s: StmtV, env: EnvV, out: Seq<char>) -> StepOut
    decreases s,
{
    match s {
        StmtV::Expr(e) => {
            let o = eval_expr_spec(e, env);
            StepOut {
                env: o.env,
                out,
                err: match o.res {
                    Ok(_) => None,
                    Err(d) => Some(d),
                },
            }
        },
        StmtV::Print(e) => {
            let o = eval_expr_spec(e, env);
            match o.res {
                Ok(v) => StepOut { env: o.env, out: out + render_spec(v), err: None },
                Err(d) => StepOut { env: o.env, out, err: Some(d) },
            }
        },
        StmtV::Println(e) => {
            let o = eval_expr_spec(e, env);
            match o.res {
                Ok(v) => StepOut { env: o.env, out: out + render_spec(v) + "\n"@, err: None },
                Err(d) => StepOut { env: o.env, out, err: Some(d) },
            }
        },
        StmtV::Var(t, e) => {
            let o = eval_expr_spec(e, env);
            match o.res {
                Ok(v) => StepOut { env: env_insert(o.env, t.lexeme, v), out, err: None },
                Err(d) => StepOut { env: o.env, out, err: Some(d) },
            }
        },
        StmtV::Block(ss) => {
            let inner = eval_stmts_spec(ss, env.push(Seq::empty()), out);
            StepOut { env: inner.env.drop_last(), out: inner.out, err: inner.err }
        },
        StmtV::If(first, cls, other) => {
            let o = eval_expr_spec(first.cond, env);
            match o.res {
                Err(d) => StepOut { env: o.env, out, err: Some(d) },
                Ok(v) => if truthy(v) {
                    eval_stmt_spec(*first.body, o.env, out)
                } else {
                    let eo = eval_elifs_spec(cls, o.env, out);
                    if eo.err is Some || eo.matched {
                        StepOut { env: eo.env, out: eo.out, err: eo.err }
                    } else {
                        match other {
                            Some(s2) => eval_stmt_spec(*s2, eo.env, eo.out),
                            None => StepOut { env: eo.env, out: eo.out, err: None },
                        }
                    }
                },
            }
        },
        StmtV::While(_, _) => StepOut {
            env,
            out,
            err: Some(fault(0, DiagKind::UnsupportedStatement)),
        },
        StmtV::For(t, _, _, _) => StepOut {
            env,
            out,
            err: Some(fault(t.line, DiagKind::UnsupportedStatement)),
        },
    }
}

/// The execution of an else-if chain: conditions are tested in source
/// order; the first true one runs its branch and stops the chain.
#[verifier::opaque]
pub open spec fn eval_elifs_spec(cls: Seq<IfV>, env: EnvV, out: Seq<char>) -> ElifsOut
    decreases cls,
{
    if cls.len() == 0 {
        ElifsOut { env, out, err: None, matched: false }
    } else {
        let o = eval_expr_spec(cls[0].cond, env);
        match o.res {
            Err(d) => ElifsOut { env: o.env, out, err: Some(d), matched: false },
            Ok(v) => if truthy(v) {
                let so = eval_stmt_spec(*cls[0].body, o.env, out);
                ElifsOut { env: so.env, out: so.out, err: so.err, matched: true }
            } else {
                eval_elifs_spec(cls.drop_first(), o.env, out)
            },
        }
    }
}

/// The execution of a statement sequence: each statement exactly once, in
/// order, its output appended in that order, stopping at the first
/// diagnostic.
#[verifier::opaque]
pub open spec fn eval_stmts_spec(ss: Seq<StmtV>, env: EnvV, out: Seq<char>) -> StepOut
    decreases ss,
{
    if ss.len() == 0 {
        StepOut { env, out, err: None }
    } else {
        let o = eval_stmt_spec(ss[0], env, out);
        match o.err {
            Some(_) => o,
            None => eval_stmts_spec(ss.drop_first(), o.env, o.out),
        }
    }
}

/// Logical `and` short-circuits: where the left operand evaluates to a
/// non-true value, the whole expression is `False` with the left operand's
/// environment, whatever the right operand is — it is never evaluated.
pub proof fn lemma_and_short_circuits(l: ExprV, t: TokenV, r: ExprV, env: EnvV)
    requires
        t.kind == TokenType::And,
        eval_expr_spec(l, env).res matches Ok(v) && !truthy(v),
    ensures
        eval_expr_spec(ExprV::Logic(Box::new(l), t, Box::new(r)), env) == (EvalOut {
            env: eval_expr_spec(l, env).env,
            res: Ok(ValueV::False),
        }),
{
    reveal_with_fuel(eval_expr_spec, 2);
                reveal_with_fuel(eval_stmt_spec, 2);
                reveal_with_fuel(eval_elifs_spec, 2);
                reveal_with_fuel(eval_stmts_spec, 2);
}

/// Logical `or` short-circuits: where the left operand evaluates to exactly
/// `True`, the whole expression is `True` with the left operand's
/// environment, whatever the right operand is — it is never evaluated.
pub proof fn lemma_or_short_circuits(l: ExprV, t: TokenV, r: ExprV, env: EnvV)
    requires
        t.kind == TokenType::Or,
        eval_expr_spec(l, env).res matches Ok(v) && truthy(v),
    ensures
        eval_expr_spec(ExprV::Logic(Box::new(l), t, Box::new(r)), env) == (EvalOut {
            env: eval_expr_spec(l, env).env,
            res: Ok(ValueV::True),
        }),
{
    reveal_with_fuel(eval_expr_spec, 2);
                reveal_with_fuel(eval_stmt_spec, 2);
                reveal_with_fuel(eval_elifs_spec, 2);
                reveal_with_fuel(eval_stmts_spec, 2);
}

/// Logical operators collapse every successful result to a boolean rather
/// than returning an operand.
pub proof fn lemma_logic_collapses_to_bool(l: ExprV, t: TokenV, r: ExprV, env: EnvV)
    ensures
        eval_expr_spec(ExprV::Logic(Box::new(l), t, Box::new(r)), env).res matches Ok(u) ==> (u
            is True || u is False),
{
    reveal_with_fuel(eval_expr_spec, 2);
                reveal_with_fuel(eval_stmt_spec, 2);
                reveal_with_fuel(eval_elifs_spec, 2);
                reveal_with_fuel(eval_stmts_spec, 2);
}

/// An if chain whose first condition evaluates to exactly `True` runs the
/// first branch and nothing else: the else-if clauses and the else branch
/// play no part in the outcome.
pub proof fn lemma_if_runs_first_true_branch(
    first: IfV,
    cls: Seq<IfV>,
    other: Option<Box<StmtV>>,
    env: EnvV,
    out: Seq<char>,
)
    requires
        eval_expr_spec(first.cond, env).res matches Ok(v) && truthy(v),
    ensures
        eval_stmt_spec(StmtV::If(first, cls, other), env, out) == eval_stmt_spec(
            *first.body,
            eval_expr_spec(first.cond, env).env,
            out,
        ),
{
    reveal_with_fuel(eval_expr_spec, 2);
                reveal_with_fuel(eval_stmt_spec, 2);
                reveal_with_fuel(eval_elifs_spec, 2);
                reveal_with_fuel(eval_stmts_spec, 2);
}

/// In an else-if chain whose first condition evaluates to exactly `True`,
/// only that clause's branch runs: later clauses play no part.
pub proof fn lemma_elifs_run_first_true_clause(cls: Seq<IfV>, env: EnvV, out: Seq<char>)
    requires
        cls.len() > 0,
        eval_expr_spec(cls[0].cond, env).res matches Ok(v) && truthy(v),
    ensures
        ({
            let so = eval_stmt_spec(*cls[0].body, eval_expr_spec(cls[0].cond, env).env, out);
            eval_elifs_spec(cls, env, out) == (ElifsOut {
                env: so.env,
                out: so.out,
                err: so.err,
                matched: true,
            })
        }),
{
    reveal_with_fuel(eval_expr_spec, 2);
                reveal_with_fuel(eval_stmt_spec, 2);
                reveal_with_fuel(eval_elifs_spec, 2);
                reveal_with_fuel(eval_stmts_spec, 2);
let o = eval_expr_spec(cls[0].cond, env);
    assert(o.res is Ok);
    assert(truthy(o.res->Ok_0));
}

/// The tree-walking evaluator: the chain of scope frames and the output
/// accumulated so far.
pub struct Interpreter {
    env: Env,
    out: String,
}

impl Interpreter {
    /// The ghost chain of scope frames.
    pub closed spec fn env_v(&self) -> EnvV {
        self.env@
    }

    /// The output accumulated so far.
    pub closed spec fn out_v(&self) -> Seq<char> {
        self.out@
    }

    /// The chain always has a current frame and holds well-formed values.
    pub closed spec fn wf(&self) -> bool {
        self.env.wf()
    }

    /// A fresh evaluator: one empty root frame, no output.
    pub fn new() -> (r: Interpreter)
        ensures
            r.wf(),
            r.env_v() == env_new(),
            r.out_v() == Seq::<char>::empty(),
    {
        Interpreter { env: Env::new(), out: String::new() }
    }

    /// The output accumulated so far.
    pub fn output(&self) -> (r: &String)
        ensures
            r@ == self.out_v(),
    {
        &self.out
    }

    /// Evaluates an expression: exactly the environment and result of the
    /// evaluation model.
    #[verifier::loop_isolation(false)]
    pub fn evaluate_expr(&mut self, expr: &Expr) -> (r: Result<Value, Diag>)
        requires
            old(self).wf(),
            expr_wf(expr@),
        ensures
            final(self).wf(),
            final(self).out_v() == old(self).out_v(),
            final(self).env_v().len() == old(self).env_v().len(),
            r matches Ok(v) ==> v.wf(),
            ({
                let o = eval_expr_spec(expr@, old(self).env_v());
                final(self).env_v() == o.env && res_view(r) == o.res
            }),
        decreases *expr,
    {
        let ghost env0 = self.env_v();
        match expr {
            Expr::Lit(lit) => {
                proof {
                    reveal_with_fuel(eval_expr_spec, 2);
                reveal_with_fuel(eval_stmt_spec, 2);
                reveal_with_fuel(eval_elifs_spec, 2);
                reveal_with_fuel(eval_stmts_spec, 2);
}
                Ok(Value::from_lit(lit))
            },
            Expr::Grouping(inner) => {
                let r = self.evaluate_expr(&**inner);
                proof {
                    reveal_with_fuel(eval_expr_spec, 2);
                reveal_with_fuel(eval_stmt_spec, 2);
                reveal_with_fuel(eval_elifs_spec, 2);
                reveal_with_fuel(eval_stmts_spec, 2);
}
                r
            },
            Expr::Unary(op, inner) => {
                let r = self.evaluate_expr(&**inner);
                proof {
                    reveal_with_fuel(eval_expr_spec, 2);
                reveal_with_fuel(eval_stmt_spec, 2);
                reveal_with_fuel(eval_elifs_spec, 2);
                reveal_with_fuel(eval_stmts_spec, 2);
}
                let v = match r {
                    Ok(v) => v,
                    Err(d) => {
                        return Err(d);
                    },
                };
                apply_unary(op, &v)
            },
            Expr::Binary(l, op, rgt) => {
                let ra = self.evaluate_expr(&**l);
                proof {
                    reveal_with_fuel(eval_expr_spec, 2);
                reveal_with_fuel(eval_stmt_spec, 2);
                reveal_with_fuel(eval_elifs_spec, 2);
                reveal_with_fuel(eval_stmts_spec, 2);
}
                let a = match ra {
                    Ok(v) => v,
                    Err(d) => {
                        return Err(d);
                    },
                };
                let rb = self.evaluate_expr(&**rgt);
                proof {
                    reveal_with_fuel(eval_expr_spec, 2);
                reveal_with_fuel(eval_stmt_spec, 2);
                reveal_with_fuel(eval_elifs_spec, 2);
                reveal_with_fuel(eval_stmts_spec, 2);
}
                let b = match rb {
                    Ok(v) => v,
                    Err(d) => {
                        return Err(d);
                    },
                };
                apply_binary(op, &a, &b)
            },
            Expr::Var(token) => {
                proof {
                    reveal_with_fuel(eval_expr_spec, 2);
                reveal_with_fuel(eval_stmt_spec, 2);
                reveal_with_fuel(eval_elifs_spec, 2);
                reveal_with_fuel(eval_stmts_spec, 2);
}
                match self.env.get_value(&token.lexeme) {
                    Some(v) => Ok(v),
                    None => Err(
                        Diag::with_name(
                            token.line,
                            DiagKind::UnknownVariable,
                            token.lexeme.clone(),
                        ),
                    ),
                }
            },
            Expr::Assign(name, sub) => {
                let rv = self.evaluate_expr(&**sub);
                proof {
                    reveal_with_fuel(eval_expr_spec, 2);
                reveal_with_fuel(eval_stmt_spec, 2);
                reveal_with_fuel(eval_elifs_spec, 2);
                reveal_with_fuel(eval_stmts_spec, 2);
}
                let v = match rv {
                    Ok(v) => v,
                    Err(d) => {
                        return Err(d);
                    },
                };
                match self.env.replace_value(&name.lexeme, &v) {
                    Ok(_) => Ok(v),
                    Err(_) => Err(
                        Diag::with_name(name.line, DiagKind::AssignUndeclared, name.lexeme.clone()),
                    ),
                }
            },
            Expr::Logic(l, op, rgt) => {
                let ra = self.evaluate_expr(&**l);
                proof {
                    reveal_with_fuel(eval_expr_spec, 2);
                reveal_with_fuel(eval_stmt_spec, 2);
                reveal_with_fuel(eval_elifs_spec, 2);
                reveal_with_fuel(eval_stmts_spec, 2);
}
                let a = match ra {
                    Ok(v) => v,
                    Err(d) => {
                        return Err(d);
                    },
                };
                if op.kind == TokenType::And {
                    // short-circuit: a non-true left operand settles it
                    if !a.is_true() {
                        return Ok(Value::False);
                    }
                } else {
                    // short-circuit: a true left operand settles it
                    if a.is_true() {
                        return Ok(Value::True);
                    }
                }
                let rb = self.evaluate_expr(&**rgt);
                proof {
                    reveal_with_fuel(eval_expr_spec, 2);
                reveal_with_fuel(eval_stmt_spec, 2);
                reveal_with_fuel(eval_elifs_spec, 2);
                reveal_with_fuel(eval_stmts_spec, 2);
}
                let b = match rb {
                    Ok(v) => v,
                    Err(d) => {
                        return Err(d);
                    },
                };
                Ok(Value::from_bool(b.is_true()))
            },
        }
    }

    /// Executes one statement: exactly the environment, output and outcome
    /// of the execution model. Frames created for blocks are paired with
    /// exactly one discard on every exit path.
    #[verifier::loop_isolation(false)]
    pub fn evaluate_stmt(&mut self, stmt: &Stmt) -> (r: Result<(), Diag>)
        requires
            old(self).wf(),
            stmt_wf(stmt@),
        ensures
            final(self).wf(),
            final(self).env_v().len() == old(self).env_v().len(),
            ({
                let o = eval_stmt_spec(stmt@, old(self).env_v(), old(self).out_v());
                &&& final(self).env_v() == o.env
                &&& final(self).out_v() == o.out
                &&& match r {
                    Ok(_) => o.err is None,
                    Err(d) => o.err == Some(d@),
                }
            }),
        decreases *stmt,
    {
        let ghost env0 = self.env_v();
        let ghost out0 = self.out_v();
        match stmt {
            Stmt::Expr(e) => {
                let r = self.evaluate_expr(e);
                proof {
                    reveal_with_fuel(eval_expr_spec, 2);
                reveal_with_fuel(eval_stmt_spec, 2);
                reveal_with_fuel(eval_elifs_spec, 2);
                reveal_with_fuel(eval_stmts_spec, 2);
}
                match r {
                    Ok(_) => Ok(()),
                    Err(d) => Err(d),
                }
            },
            Stmt::Print(e) => {
                let r = self.evaluate_expr(e);
                proof {
                    reveal_with_fuel(eval_expr_spec, 2);
                reveal_with_fuel(eval_stmt_spec, 2);
                reveal_with_fuel(eval_elifs_spec, 2);
                reveal_with_fuel(eval_stmts_spec, 2);
}
                let v = match r {
                    Ok(v) => v,
                    Err(d) => {
                        return Err(d);
                    },
                };
                let text = v.render();
                self.out.append(text.as_str());
                Ok(())
            },
            Stmt::Println(e) => {
                let r = self.evaluate_expr(e);
                proof {
                    reveal_with_fuel(eval_expr_spec, 2);
                reveal_with_fuel(eval_stmt_spec, 2);
                reveal_with_fuel(eval_elifs_spec, 2);
                reveal_with_fuel(eval_stmts_spec, 2);
}
                let v = match r {
                    Ok(v) => v,
                    Err(d) => {
                        return Err(d);
                    },
                };
                let text = v.render();
                self.out.append(text.as_str());
                self.out.append("\n");
                Ok(())
            },
            Stmt::Var(token, e) => {
                let r = self.evaluate_expr(e);
                proof {
                    reveal_with_fuel(eval_expr_spec, 2);
                reveal_with_fuel(eval_stmt_spec, 2);
                reveal_with_fuel(eval_elifs_spec, 2);
                reveal_with_fuel(eval_stmts_spec, 2);
}
                let v = match r {
                    Ok(v) => v,
                    Err(d) => {
                        return Err(d);
                    },
                };
                self.env.insert_value(&token.lexeme, &v);
                Ok(())
            },
            Stmt::Block(statements) => {
                let r = self.evaluate_block(statements);
                proof {
                    reveal_with_fuel(eval_expr_spec, 2);
                reveal_with_fuel(eval_stmt_spec, 2);
                reveal_with_fuel(eval_elifs_spec, 2);
                reveal_with_fuel(eval_stmts_spec, 2);
}
                r
            },
            Stmt::If(first, else_ifs, other) => {
                proof {
                    reveal_with_fuel(eval_expr_spec, 2);
                reveal_with_fuel(eval_stmt_spec, 2);
                reveal_with_fuel(eval_elifs_spec, 2);
                reveal_with_fuel(eval_stmts_spec, 2);
assert(stmt@ is If);
                    assert(stmt@->If_0 == crate::syntax::if_view(*first));
                    assert(stmt@->If_1 == crate::syntax::ifs_view(else_ifs@));
                    assert(crate::syntax::if_wf(stmt@->If_0));
                    assert(expr_wf(first.0@));
                    assert(stmt_wf((*first.1)@));
                    assert(crate::syntax::ifs_wf(crate::syntax::ifs_view(else_ifs@)));
                    crate::syntax::lemma_ifs_view_len(else_ifs@);
                }
                let rc = self.evaluate_expr(&first.0);
                let ghost envc = self.env_v();
                let c = match rc {
                    Ok(v) => v,
                    Err(d) => {
                        proof {
                            reveal_with_fuel(eval_expr_spec, 2);
                reveal_with_fuel(eval_stmt_spec, 2);
                reveal_with_fuel(eval_elifs_spec, 2);
                reveal_with_fuel(eval_stmts_spec, 2);
assert(eval_stmt_spec(stmt@, env0, out0) == (StepOut {
                                env: envc,
                                out: out0,
                                err: Some(d@),
                            }));
                        }
                        return Err(d);
                    },
                };
                if c.is_true() {
                    // the first true condition runs its branch and stops
                    proof {
                        reveal_with_fuel(eval_expr_spec, 2);
                reveal_with_fuel(eval_stmt_spec, 2);
                reveal_with_fuel(eval_elifs_spec, 2);
                reveal_with_fuel(eval_stmts_spec, 2);
assert(eval_stmt_spec(stmt@, env0, out0) == eval_stmt_spec(
                            (*first.1)@,
                            envc,
                            out0,
                        ));
                    }
                    let r = self.evaluate_stmt(&*first.1);
                    return r;
                }
                let ghost cls = crate::syntax::ifs_view(else_ifs@);
                let ghost env1 = self.env_v();
                let ghost target = eval_elifs_spec(cls, env1, out0);
                proof {
                    reveal_with_fuel(eval_expr_spec, 2);
                reveal_with_fuel(eval_stmt_spec, 2);
                reveal_with_fuel(eval_elifs_spec, 2);
                reveal_with_fuel(eval_stmts_spec, 2);
assert(eval_stmt_spec(stmt@, env0, out0) == (if target.err is Some
                        || target.matched {
                        StepOut { env: target.env, out: target.out, err: target.err }
                    } else {
                        match stmt@->If_2 {
                            Some(s2) => eval_stmt_spec(*s2, target.env, target.out),
                            None => StepOut { env: target.env, out: target.out, err: None },
                        }
                    }));
                    assert(cls.skip(0) =~= cls);
                }
                let mut i: usize = 0;
                while i < else_ifs.len()
                    invariant
                        self.wf(),
                        i <= else_ifs@.len(),
                        self.env_v().len() == old(self).env_v().len(),
                        self.out_v() == out0,
                        eval_elifs_spec(cls.skip(i as int), self.env_v(), out0) == target,
                    decreases else_ifs@.len() - i,
                {
                    proof {
                        crate::syntax::lemma_ifs_view_index(else_ifs@, i as int);
                        crate::syntax::lemma_ifs_wf_at(cls, i as int);
                        assert(expr_wf((else_ifs@[i as int]).0@));
                        assert(stmt_wf((*(else_ifs@[i as int]).1)@));
                        assert(cls.skip(i as int)[0] == cls[i as int]);
                        assert(cls[i as int].cond == (else_ifs@[i as int]).0@);
                        assert(*cls[i as int].body == (*(else_ifs@[i as int]).1)@);
                    }
                    let ghost cenv = self.env_v();
                    let clause = &else_ifs[i];
                    let rcv = self.evaluate_expr(&clause.0);
                    let ghost o = eval_expr_spec(cls[i as int].cond, cenv);
                    let cv = match rcv {
                        Ok(v) => v,
                        Err(d) => {
                            proof {
                                reveal_with_fuel(eval_expr_spec, 2);
                reveal_with_fuel(eval_stmt_spec, 2);
                reveal_with_fuel(eval_elifs_spec, 2);
                reveal_with_fuel(eval_stmts_spec, 2);
assert(target == (ElifsOut {
                                    env: o.env,
                                    out: out0,
                                    err: Some(d@),
                                    matched: false,
                                }));
                            }
                            return Err(d);
                        },
                    };
                    if cv.is_true() {
                        proof {
                            reveal_with_fuel(eval_expr_spec, 2);
                reveal_with_fuel(eval_stmt_spec, 2);
                reveal_with_fuel(eval_elifs_spec, 2);
                reveal_with_fuel(eval_stmts_spec, 2);
assert(target == ({
                                let so = eval_stmt_spec(*cls[i as int].body, o.env, out0);
                                ElifsOut { env: so.env, out: so.out, err: so.err, matched: true }
                            }));
                        }
                        let r = self.evaluate_stmt(&*clause.1);
                        return r;
                    }
                    proof {
                        reveal_with_fuel(eval_expr_spec, 2);
                reveal_with_fuel(eval_stmt_spec, 2);
                reveal_with_fuel(eval_elifs_spec, 2);
                reveal_with_fuel(eval_stmts_spec, 2);
assert(eval_elifs_spec(cls.skip(i as int), cenv, out0) == eval_elifs_spec(
                            cls.skip(i as int).drop_first(),
                            o.env,
                            out0,
                        ));
                        assert(cls.skip(i as int).drop_first() =~= cls.skip(i as int + 1));
                    }
                    i = i + 1;
                }
                proof {
                    reveal_with_fuel(eval_expr_spec, 2);
                reveal_with_fuel(eval_stmt_spec, 2);
                reveal_with_fuel(eval_elifs_spec, 2);
                reveal_with_fuel(eval_stmts_spec, 2);
assert(cls.skip(else_ifs@.len() as int) =~= Seq::<IfV>::empty());
                    assert(eval_elifs_spec(cls.skip(else_ifs@.len() as int), self.env_v(), out0)
                        == (ElifsOut { env: self.env_v(), out: out0, err: None, matched: false }));
                }
                match other {
                    Some(s) => {
                        proof {
                            assert(stmt@->If_2 == Some(Box::new((**s)@)));
                        }
                        let r = self.evaluate_stmt(&**s);
                        r
                    },
                    None => Ok(()),
                }
            },
            Stmt::While(_, _) => {
                proof {
                    reveal_with_fuel(eval_expr_spec, 2);
                reveal_with_fuel(eval_stmt_spec, 2);
                reveal_with_fuel(eval_elifs_spec, 2);
                reveal_with_fuel(eval_stmts_spec, 2);
}
                Err(Diag::new(0, DiagKind::UnsupportedStatement))
            },
            Stmt::For(t, _, _, _) => {
                proof {
                    reveal_with_fuel(eval_expr_spec, 2);
                reveal_with_fuel(eval_stmt_spec, 2);
                reveal_with_fuel(eval_elifs_spec, 2);
                reveal_with_fuel(eval_stmts_spec, 2);
}
                Err(Diag::new(t.line, DiagKind::UnsupportedStatement))
            },
        }
    }

    /// Runs the statements of a block inside one fresh frame, discarded on
    /// every exit path.
    #[verifier::loop_isolation(false)]
    fn evaluate_block(&mut self, statements: &Vec<Stmt>) -> (r: Result<(), Diag>)
        requires
            old(self).wf(),
            stmts_wf(stmts_view(statements@)),
        ensures
            final(self).wf(),
            final(self).env_v().len() == old(self).env_v().len(),
            ({
                let o = eval_stmts_spec(
                    stmts_view(statements@),
                    old(self).env_v().push(Seq::empty()),
                    old(self).out_v(),
                );
                &&& final(self).env_v() == o.env.drop_last()
                &&& final(self).out_v() == o.out
                &&& match r {
                    Ok(_) => o.err is None,
                    Err(d) => o.err == Some(d@),
                }
            }),
        decreases *statements,
    {
        let ghost ss = stmts_view(statements@);
        let ghost out0 = self.out_v();
        self.env.create_new_child();
        let ghost env1 = self.env_v();
        let ghost target = eval_stmts_spec(ss, env1, out0);
        proof {
            crate::syntax::lemma_stmts_view_len(statements@);
            assert(ss.skip(0) =~= ss);
        }
        let mut i: usize = 0;
        while i < statements.len()
            invariant
                self.wf(),
                i <= statements@.len(),
                self.env_v().len() == old(self).env_v().len() + 1,
                eval_stmts_spec(ss.skip(i as int), self.env_v(), self.out_v()) == target,
            decreases statements@.len() - i,
        {
            proof {
                crate::syntax::lemma_stmts_view_index(statements@, i as int);
                crate::syntax::lemma_stmts_wf_at(ss, i as int);
                assert(ss.skip(i as int)[0] == ss[i as int]);
            }
            let ghost cenv = self.env_v();
            let ghost cout = self.out_v();
            let r = self.evaluate_stmt(&statements[i]);
            proof {
                reveal_with_fuel(eval_expr_spec, 2);
                reveal_with_fuel(eval_stmt_spec, 2);
                reveal_with_fuel(eval_elifs_spec, 2);
                reveal_with_fuel(eval_stmts_spec, 2);
let sufx = ss.skip(i as int);
                assert(sufx.len() > 0);
                assert(sufx[0] == ss[i as int]);
                let so = eval_stmt_spec(ss[i as int], cenv, cout);
                assert(eval_stmts_spec(sufx, cenv, cout) == (match eval_stmt_spec(
                    sufx[0],
                    cenv,
                    cout,
                ).err {
                    Some(_) => eval_stmt_spec(sufx[0], cenv, cout),
                    None => eval_stmts_spec(
                        sufx.drop_first(),
                        eval_stmt_spec(sufx[0], cenv, cout).env,
                        eval_stmt_spec(sufx[0], cenv, cout).out,
                    ),
                }));
                if so.err is Some {
                    assert(eval_stmts_spec(ss.skip(i as int), cenv, cout) == so);
                } else {
                    assert(eval_stmts_spec(ss.skip(i as int), cenv, cout) == eval_stmts_spec(
                        ss.skip(i as int).drop_first(),
                        so.env,
                        so.out,
                    ));
                    assert(ss.skip(i as int).drop_first() =~= ss.skip(i as int + 1));
                }
            }
            match r {
                Ok(_) => {},
                Err(d) => {
                    self.env.kill_youngest_child();
                    return Err(d);
                },
            }
            i = i + 1;
        }
        proof {
            reveal_with_fuel(eval_expr_spec, 2);
                reveal_with_fuel(eval_stmt_spec, 2);
                reveal_with_fuel(eval_elifs_spec, 2);
                reveal_with_fuel(eval_stmts_spec, 2);
assert(ss.skip(statements@.len() as int) =~= Seq::<StmtV>::empty());
            assert(eval_stmts_spec(ss.skip(statements@.len() as int), self.env_v(), self.out_v())
                == (StepOut { env: self.env_v(), out: self.out_v(), err: None }));
        }
        self.env.kill_youngest_child();
        Ok(())
    }

    /// Executes a statement sequence against the environment: each statement
    /// exactly once, in source order, output appended in that order,
    /// stopping at the first fatal diagnostic — exactly the execution model.
    #[verifier::loop_isolation(false)]
    pub fn interpret(&mut self, statements: Vec<Stmt>) -> (r: Result<(), Diag>)
        requires
            old(self).wf(),
            stmts_wf(stmts_view(statements@)),
        ensures
            final(self).wf(),
            final(self).env_v().len() == old(self).env_v().len(),
            ({
                let o = eval_stmts_spec(
                    stmts_view(statements@),
                    old(self).env_v(),
                    old(self).out_v(),
                );
                &&& final(self).env_v() == o.env
                &&& final(self).out_v() == o.out
                &&& match r {
                    Ok(_) => o.err is None,
                    Err(d) => o.err == Some(d@),
                }
            }),
    {
        let ghost ss = stmts_view(statements@);
        let ghost target = eval_stmts_spec(ss, self.env_v(), self.out_v());
        proof {
            crate::syntax::lemma_stmts_view_len(statements@);
            assert(ss.skip(0) =~= ss);
        }
        let mut i: usize = 0;
        while i < statements.len()
            invariant
                self.wf(),
                i <= statements@.len(),
                self.env_v().len() == old(self).env_v().len(),
                eval_stmts_spec(ss.skip(i as int), self.env_v(), self.out_v()) == target,
            decreases statements@.len() - i,
        {
            proof {
                crate::syntax::lemma_stmts_view_index(statements@, i as int);
                crate::syntax::lemma_stmts_wf_at(ss, i as int);
                assert(ss.skip(i as int)[0] == ss[i as int]);
            }
            let ghost cenv = self.env_v();
            let ghost cout = self.out_v();
            let r = self.evaluate_stmt(&statements[i]);
            proof {
                reveal_with_fuel(eval_expr_spec, 2);
                reveal_with_fuel(eval_stmt_spec, 2);
                reveal_with_fuel(eval_elifs_spec, 2);
                reveal_with_fuel(eval_stmts_spec, 2);
let sufx = ss.skip(i as int);
                assert(sufx.len() > 0);
                assert(sufx[0] == ss[i as int]);
                let so = eval_stmt_spec(ss[i as int], cenv, cout);
                assert(eval_stmts_spec(sufx, cenv, cout) == (match eval_stmt_spec(
                    sufx[0],
                    cenv,
                    cout,
                ).err {
                    Some(_) => eval_stmt_spec(sufx[0], cenv, cout),
                    None => eval_stmts_spec(
                        sufx.drop_first(),
                        eval_stmt_spec(sufx[0], cenv, cout).env,
                        eval_stmt_spec(sufx[0], cenv, cout).out,
                    ),
                }));
                if so.err is Some {
                    assert(eval_stmts_spec(ss.skip(i as int), cenv, cout) == so);
                } else {
                    assert(eval_stmts_spec(ss.skip(i as int), cenv, cout) == eval_stmts_spec(
                        ss.skip(i as int).drop_first(),
                        so.env,
                        so.out,
                    ));
                    assert(ss.skip(i as int).drop_first() =~= ss.skip(i as int + 1));
                }
            }
            match r {
                Ok(_) => {},
                Err(d) => {
                    return Err(d);
                },
            }
            i = i + 1;
        }
        proof {
            reveal_with_fuel(eval_expr_spec, 2);
                reveal_with_fuel(eval_stmt_spec, 2);
                reveal_with_fuel(eval_elifs_spec, 2);
                reveal_with_fuel(eval_stmts_spec, 2);
assert(ss.skip(statements@.len() as int) =~= Seq::<StmtV>::empty());
            assert(eval_stmts_spec(ss.skip(statements@.len() as int), self.env_v(), self.out_v())
                == (StepOut { env: self.env_v(), out: self.out_v(), err: None }));
        }
        Ok(())
    }
}

} // verus!
