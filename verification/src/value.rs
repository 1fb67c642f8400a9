//! Runtime values: the closed set of types the evaluator produces, their
//! equality, truthiness and textual rendering.

use vstd::prelude::*;
use vstd::string::StringExecFns;

use crate::num::{num_text, num_text_spec, rat_eq, Num};
use crate::token::{LitV, Literal};

verus! {

/// Ghost form of a runtime value.
pub enum ValueV {
    Nil,
    True,
    False,
    Num { n: int, d: int },
    Str(Seq<char>),
}

/// A runtime value.
#[derive(Debug)]
pub enum Value {
    Nil,
    True,
    False,
    Num(Num),
    Str(String),
}

impl View for Value {
    type V = ValueV;

    open spec fn view(&self) -> ValueV {
        match self {
            Value::Nil => ValueV::Nil,
            Value::True => ValueV::True,
            Value::False => ValueV::False,
            Value::Num(q) => ValueV::Num { n: q.n as int, d: q.d as int },
            Value::Str(s) => ValueV::Str(s@),
        }
    }
}

/// Every number held in a ghost value has a positive denominator.
pub open spec fn val_wf(v: ValueV) -> bool {
    match v {
        ValueV::Num { n, d } => d > 0,
        _ => true,
    }
}

impl Value {
    /// Every number held in a value has a positive denominator.
    pub open spec fn wf(&self) -> bool {
        val_wf(self@)
    }
}

impl Clone for Value {
    fn clone(&self) -> (r: Self)
        ensures
            r == *self,
    {
        match self {
            Value::Nil => Value::Nil,
            Value::True => Value::True,
            Value::False => Value::False,
            Value::Num(q) => Value::Num(*q),
            Value::Str(s) => Value::Str(s.clone()),
        }
    }
}

/// The runtime value of a scanned literal.
pub open spec fn lit_value(l: LitV) -> ValueV {
    match l {
        LitV::Absent => ValueV::Nil,
        LitV::Str(s) => ValueV::Str(s),
        LitV::Num { n, d } => ValueV::Num { n, d },
        LitV::True => ValueV::True,
        LitV::False => ValueV::False,
        LitV::Nil => ValueV::Nil,
    }
}

/// Truthiness: a value counts as true exactly where it is the `True` value.
pub open spec fn truthy(v: ValueV) -> bool {
    v is True
}

/// Structural equality over runtime values: numbers compare by their exact
/// numeric value, text by its characters, and values of different tags are
/// never equal — there is no coercion.
pub open spec fn val_eq(a: ValueV, b: ValueV) -> bool {
    match (a, b) {
        (ValueV::Nil, ValueV::Nil) => true,
        (ValueV::True, ValueV::True) => true,
        (ValueV::False, ValueV::False) => true,
        (ValueV::Num { n: n1, d: d1 }, ValueV::Num { n: n2, d: d2 }) => rat_eq(n1, d1, n2, d2),
        (ValueV::Str(s1), ValueV::Str(s2)) => s1 == s2,
        _ => false,
    }
}

/// The textual rendering of a value: `nil`, boolean text, exact decimal
/// number text, or the raw text of a string.
pub open spec fn render_spec(v: ValueV) -> Seq<char> {
    match v {
        ValueV::Nil => "nil"@,
        ValueV::True => "true"@,
        ValueV::False => "false"@,
        ValueV::Num { n, d } => num_text_spec(n, d),
        ValueV::Str(s) => s,
    }
}

impl Value {
    /// The runtime value of a scanned literal.
    pub fn from_lit(lit: &Literal) -> (v: Value)
        ensures
            v@ == lit_value(lit@),
            lit.wf() ==> v.wf(),
    {
        match lit {
            Literal::Absent => Value::Nil,
            Literal::Str(s) => Value::Str(s.clone()),
            Literal::Num(q) => Value::Num(*q),
            Literal::True => Value::True,
            Literal::False => Value::False,
            Literal::Nil => Value::Nil,
        }
    }

    /// The boolean value of a machine boolean.
    pub fn from_bool(b: bool) -> (v: Value)
        ensures
            v@ == (if b {
                ValueV::True
            } else {
                ValueV::False
            }),
    {
        if b {
            Value::True
        } else {
            Value::False
        }
    }

    /// Whether this value is truthy, that is, exactly the `True` value.
    pub fn is_true(&self) -> (r: bool)
        ensures
            r == truthy(self@),
    {
        match self {
            Value::True => true,
            _ => false,
        }
    }

    /// Whether this value equals the other under the language's structural
    /// equality.
    pub fn is_equal(a: &Value, b: &Value) -> (r: bool)
        requires
            a.wf(),
            b.wf(),
        ensures
            r == val_eq(a@, b@),
    {
        match (a, b) {
            (Value::Nil, Value::Nil) => true,
            (Value::True, Value::True) => true,
            (Value::False, Value::False) => true,
            (Value::Num(q1), Value::Num(q2)) => q1.same_value(*q2),
            (Value::Str(s1), Value::Str(s2)) => *s1 == *s2,
            _ => false,
        }
    }

    /// The textual rendering of this value.
    pub fn render(&self) -> (s: String)
        requires
            self.wf(),
        ensures
            s@ == render_spec(self@),
    {
        broadcast use vstd::string::to_string_from_display_ensures_for_str;

        match self {
            Value::Nil => "nil".to_string(),
            Value::True => "true".to_string(),
            Value::False => "false".to_string(),
            Value::Num(q) => num_text(*q),
            Value::Str(s) => s.clone(),
        }
    }
}

} // verus!
