//! Runtime values: numbers, strings, booleans, nil, and closures, together
//! with their mathematical models.

use vstd::prelude::*;

verus! {

use crate::parse::{Expression, ExprS, exprs_v};

/// A closure: a parameter list and a body, paired with the index of the scope
/// that was current when the closure was created (its captured scope).
#[derive(Debug, PartialEq)]
pub struct Lambda {
    pub params: Vec<String>,
    pub body: Vec<Expression>,
    pub captured: usize,
}

/// The mathematical model of a `Lambda`.
#[verifier::ext_equal]
pub struct LambdaS {
    pub params: Seq<Seq<char>>,
    pub body: Seq<ExprS>,
    pub captured: int,
}

impl View for Lambda {
    type V = LambdaS;

    open spec fn view(&self) -> LambdaS {
        LambdaS {
            params: self.params@.map_values(|p: String| p@),
            body: exprs_v(self.body@),
            captured: self.captured as int,
        }
    }
}

impl Lambda {
    /// Build a closure from its parameter names, its body, and the scope it
    /// captures.
    pub fn new(params: Vec<String>, body: Vec<Expression>, captured: usize) -> (r: Lambda)
        ensures
            r@ == (LambdaS {
                params: params@.map_values(|p: String| p@),
                body: exprs_v(body@),
                captured: captured as int,
            }),
    {
        Lambda { params, body, captured }
    }
}

/// The result of evaluating an expression.
#[derive(Debug, PartialEq)]
pub enum Value {
    String(String),
    Number(String),
    Boolean(bool),
    Nil,
    Lambda(Lambda),
}

/// The mathematical model of a `Value`.
#[verifier::ext_equal]
pub enum ValueS {
    String(Seq<char>),
    Number(Seq<char>),
    Boolean(bool),
    Nil,
    Lambda(LambdaS),
}

impl View for Value {
    type V = ValueS;

    open spec fn view(&self) -> ValueS {
        match *self {
            Value::String(s) => ValueS::String(s@),
            Value::Number(t) => ValueS::Number(t@),
            Value::Boolean(b) => ValueS::Boolean(b),
            Value::Nil => ValueS::Nil,
            Value::Lambda(l) => ValueS::Lambda(l@),
        }
    }
}

/// An owned copy of a vector of parameter names, equal under the model.
pub fn dup_strings(v: &Vec<String>) -> (r: Vec<String>)
    ensures
        r@.map_values(|p: String| p@) == v@.map_values(|p: String| p@),
{
    let mut out: Vec<String> = Vec::new();
    let mut i: usize = 0;
    while i < v.len()
        invariant
            i <= v.len(),
            out@.len() == i as int,
            forall|k: int| 0 <= k < i as int ==> out@[k]@ == v@[k]@,
        decreases v.len() - i,
    {
        out.push(v[i].clone());
        i = i + 1;
    }
    proof {
        assert(out@.map_values(|p: String| p@) =~= v@.map_values(|p: String| p@));
    }
    out
}

impl Lambda {
    /// An owned copy of the closure, equal to it under the model.
    pub fn duplicate(&self) -> (r: Lambda)
        ensures
            r@ == self@,
    {
        let r = Lambda {
            params: dup_strings(&self.params),
            body: crate::parse::dup_exprs(self.body.as_slice()),
            captured: self.captured,
        };
        proof {
            assert(r@ =~= self@);
        }
        r
    }
}

/// The models of a run of values.
pub open spec fn vals_v(s: Seq<Value>) -> Seq<ValueS> {
    s.map_values(|v: Value| v@)
}

/// The models of a run of texts.
pub open spec fn texts_v(s: Seq<String>) -> Seq<Seq<char>> {
    s.map_values(|x: String| x@)
}

/// Truthiness: `false` and nil are falsy; every other value is truthy.
pub open spec fn truthy(v: ValueS) -> bool {
    !(v == ValueS::Boolean(false) || v == ValueS::Nil)
}

/// The rendered text of a value: a number as its canonical decimal text, a
/// string quoted, booleans as `true` and `false`, nil as `nil`, and a closure
/// as an opaque placeholder.
pub open spec fn value_text(v: ValueS) -> Seq<char> {
    match v {
        ValueS::Number(t) => t,
        ValueS::String(s) => "\""@ + s + "\""@,
        ValueS::Boolean(b) => if b {
            "true"@
        } else {
            "false"@
        },
        ValueS::Nil => "nil"@,
        ValueS::Lambda(_) => "<lambda>"@,
    }
}

impl Value {
    /// The rendered text of the value, for display at the read-eval-print
    /// boundary.
    pub fn to_text(&self) -> (r: String)
        ensures
            r@ == value_text(self@),
    {
        match self {
            Value::Number(t) => t.clone(),
            Value::String(s) => {
                let mut out = "\"".to_owned();
                out.append(s.as_str());
                out.append("\"");
                out
            }
            Value::Boolean(b) => {
                if *b {
                    "true".to_owned()
                } else {
                    "false".to_owned()
                }
            }
            Value::Nil => "nil".to_owned(),
            Value::Lambda(_) => "<lambda>".to_owned(),
        }
    }

    /// An owned copy of the value, equal to it under the model.
    pub fn duplicate(&self) -> (r: Value)
        ensures
            r@ == self@,
    {
        match self {
            Value::String(s) => Value::String(s.clone()),
            Value::Number(t) => Value::Number(t.clone()),
            Value::Boolean(b) => Value::Boolean(*b),
            Value::Nil => Value::Nil,
            Value::Lambda(l) => Value::Lambda(l.duplicate()),
        }
    }

    /// Whether the value counts as true in a conditional position.
    pub fn boolean(&self) -> (r: bool)
        ensures
            r == truthy(self@),
    {
        match self {
            Value::Boolean(b) => *b,
            Value::Nil => false,
            _ => true,
        }
    }
}

} // verus!
