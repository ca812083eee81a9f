//! The executable evaluator: dispatch over the fixed special forms, the
//! primitive operators, and the closure-call protocol, each proved to return
//! exactly what the mathematical interpreter in `crate::semantics` says.

use vstd::prelude::*;

verus! {

use crate::environment::{
    Environment, env_wf, lemma_lookup_wf, lemma_value_wf_mono, value_wf,
};
use crate::errors::{LispComputerError, out_v};
use crate::numerics::{num_add, num_div, num_eq, num_le, num_lt, num_mul, num_sub};
use crate::parse::{
    Expression, dup_exprs, esize, exprs_v, lemma_exprs_v_drop, lemma_exprs_v_len, lsize,
};
use crate::parse::{lemma_lsize_drop, lemma_lsize_member};
use crate::semantics::{
    CmpOp, add_fold_spec, all_equal, and_fold_spec, apply_spec, arith_entry_spec,
    arith_fold_spec, bind_pairs, bind_params, chain_ok, cmp_pair_ok, compare_form_spec,
    cond_fold_spec, define_form_spec, dispatch_spec, equal_form_spec, eval_args_spec,
    eval_list_spec, eval_nums_spec, eval_spec, head_apply_spec, if_form_spec, lambda_form_spec,
    let_binds_spec, let_form_spec, mul_fold_spec, or_fold_spec, param_names, values_equal,
};
use crate::value::{Lambda, Value, ValueS, texts_v, vals_v};

/// What every evaluation step promises of its result beside the model: a
/// returned closure only captures scopes that exist.
pub open spec fn result_wf(r: Result<Value, LispComputerError>, env: crate::environment::EnvS) -> bool {
    match r {
        Ok(v) => value_wf(v@, env.parents.len() as int),
        Err(_) => true,
    }
}

/// Whether the symbol's text is exactly the literal's.
fn sym_is(s: &String, lit: &str) -> (r: bool)
    ensures
        r == (s@ == lit@),
{
    *s == lit.to_owned()
}

/// The models of evaluated let bindings.
pub open spec fn pairs_v(s: Seq<(String, Value)>) -> Seq<(Seq<char>, ValueS)> {
    s.map_values(|p: (String, Value)| (p.0@, p.1@))
}

impl Expression {
    /// Evaluate the expression in scope `scope` of `env`, with at most `fuel`
    /// nested closure calls.
    pub fn eval(&self, env: &mut Environment, scope: usize, fuel: u64) -> (r: Result<
        Value,
        LispComputerError,
    >)
        requires
            env_wf(old(env)@),
            (scope as int) < old(env)@.parents.len(),
        ensures
            ({
                let step = eval_spec(self@, old(env)@, scope as int, fuel as nat);
                final(env)@ == step.env && out_v(r) == step.out
            }),
            env_wf(final(env)@),
            old(env)@.parents.len() <= final(env)@.parents.len(),
            result_wf(r, final(env)@),
        decreases fuel, esize(self@), 1int,
    {
        match self {
            Expression::Number(t) => Ok(Value::Number(t.clone())),
            Expression::String(s) => Ok(Value::String(s.clone())),
            Expression::Variable(n) => match env.lookup(scope, n) {
                Some(v) => {
                    proof {
                        lemma_lookup_wf(env@, scope as int, n@);
                    }
                    Ok(v)
                }
                None => Err(LispComputerError::NotFoundVariable(n.clone())),
            },
            Expression::List(items) => {
                proof {
                    assert(esize(self@) == 1 + lsize(exprs_v(items@)));
                }
                process_expression_list(items.as_slice(), env, scope, fuel)
            }
        }
    }
}

/// Evaluate a list form: nil for the empty list, the single-number shortcut,
/// special-form or closure dispatch on a symbol head, and the
/// resolve-then-apply protocol on any other head.
pub fn process_expression_list(
    exprs: &[Expression],
    env: &mut Environment,
    scope: usize,
    fuel: u64,
) -> (r: Result<Value, LispComputerError>)
    requires
        env_wf(old(env)@),
        (scope as int) < old(env)@.parents.len(),
    ensures
        ({
            let step = eval_list_spec(exprs_v(exprs@), old(env)@, scope as int, fuel as nat);
            final(env)@ == step.env && out_v(r) == step.out
        }),
        env_wf(final(env)@),
        old(env)@.parents.len() <= final(env)@.parents.len(),
        result_wf(r, final(env)@),
    decreases fuel, lsize(exprs_v(exprs@)), 5int,
{
    if exprs.len() == 0 {
        proof {
            lemma_exprs_v_len(exprs@);
        }
        Ok(Value::Nil)
    } else {
        proof {
            lemma_exprs_v_drop(exprs@);
            lemma_lsize_member(exprs_v(exprs@), 0);
            lemma_lsize_drop(exprs_v(exprs@));
            assert(exprs@.subrange(1, exprs@.len() as int) =~= exprs@.drop_first());
        }
        match &exprs[0] {
            Expression::Number(t) => {
                if exprs.len() == 1 {
                    Ok(Value::Number(t.clone()))
                } else {
                    head_apply(exprs, env, scope, fuel)
                }
            }
            Expression::Variable(sym) => process_variable(sym, &exprs[1..exprs.len()], env, scope, fuel),
            _ => head_apply(exprs, env, scope, fuel),
        }
    }
}

/// Evaluate the head of a list form, then apply it as a closure to the rest.
fn head_apply(exprs: &[Expression], env: &mut Environment, scope: usize, fuel: u64) -> (r: Result<
    Value,
    LispComputerError,
>)
    requires
        env_wf(old(env)@),
        (scope as int) < old(env)@.parents.len(),
        exprs@.len() > 0,
    ensures
        ({
            let step = head_apply_spec(exprs_v(exprs@), old(env)@, scope as int, fuel as nat);
            final(env)@ == step.env && out_v(r) == step.out
        }),
        env_wf(final(env)@),
        old(env)@.parents.len() <= final(env)@.parents.len(),
        result_wf(r, final(env)@),
    decreases fuel, lsize(exprs_v(exprs@)), 4int,
{
    proof {
        lemma_exprs_v_drop(exprs@);
        lemma_lsize_member(exprs_v(exprs@), 0);
        lemma_lsize_drop(exprs_v(exprs@));
        assert(exprs@.subrange(1, exprs@.len() as int) =~= exprs@.drop_first());
    }
    match exprs[0].eval(env, scope, fuel) {
        Err(e) => Err(e),
        Ok(Value::Lambda(l)) => l.process(&exprs[1..exprs.len()], env, scope, fuel),
        Ok(v) => Err(LispComputerError::TypeMismatch1 { operation: "apply".to_owned(), left: v }),
    }
}

/// Resolve a symbol head: one of the fixed special forms, else a bound
/// closure, else unbound.
fn process_variable(
    symbol: &String,
    args: &[Expression],
    env: &mut Environment,
    scope: usize,
    fuel: u64,
) -> (r: Result<Value, LispComputerError>)
    requires
        env_wf(old(env)@),
        (scope as int) < old(env)@.parents.len(),
    ensures
        ({
            let step = dispatch_spec(
                symbol@,
                exprs_v(args@),
                old(env)@,
                scope as int,
                fuel as nat,
            );
            final(env)@ == step.env && out_v(r) == step.out
        }),
        env_wf(final(env)@),
        old(env)@.parents.len() <= final(env)@.parents.len(),
        result_wf(r, final(env)@),
    decreases fuel, lsize(exprs_v(args@)), 6int,
{
    if sym_is(symbol, "+") {
        AdditionProcessor.process(args, env, scope, fuel)
    } else if sym_is(symbol, "-") {
        SubtractionProcessor.process(args, env, scope, fuel)
    } else if sym_is(symbol, "*") {
        MultiplicationProcessor.process(args, env, scope, fuel)
    } else if sym_is(symbol, "/") {
        DivisionProcessor.process(args, env, scope, fuel)
    } else if sym_is(symbol, "define") {
        DefineProcessor.process(args, env, scope, fuel)
    } else if sym_is(symbol, "lambda") {
        LambdaProcessor.process(args, env, scope, fuel)
    } else if sym_is(symbol, "=") {
        EqualProcessor.process(args, env, scope, fuel)
    } else if sym_is(symbol, "if") {
        IfProcessor.process(args, env, scope, fuel)
    } else if sym_is(symbol, ">") {
        GreaterThanProcessor.process(args, env, scope, fuel)
    } else if sym_is(symbol, "<") {
        LessThanProcessor.process(args, env, scope, fuel)
    } else if sym_is(symbol, ">=") {
        GreaterEqualProcessor.process(args, env, scope, fuel)
    } else if sym_is(symbol, "<=") {
        LessEqualProcessor.process(args, env, scope, fuel)
    } else if sym_is(symbol, "or") {
        OrProcessor.process(args, env, scope, fuel)
    } else if sym_is(symbol, "and") {
        AndProcessor.process(args, env, scope, fuel)
    } else if sym_is(symbol, "cond") {
        CondProcessor.process(args, env, scope, fuel)
    } else if sym_is(symbol, "let") {
        LetProcessor.process(args, env, scope, fuel)
    } else {
        match env.lookup(scope, symbol) {
            Some(Value::Lambda(l)) => {
                proof {
                    lemma_lookup_wf(env@, scope as int, symbol@);
                }
                l.process(args, env, scope, fuel)
            }
            _ => Err(LispComputerError::UnboundFunction(symbol.clone())),
        }
    }
}

/// Evaluate arguments left to right; the first error aborts.
fn eval_args(args: &[Expression], env: &mut Environment, scope: usize, fuel: u64) -> (r: Result<
    Vec<Value>,
    LispComputerError,
>)
    requires
        env_wf(old(env)@),
        (scope as int) < old(env)@.parents.len(),
    ensures
        ({
            let pair = eval_args_spec(exprs_v(args@), old(env)@, scope as int, fuel as nat);
            final(env)@ == pair.0 && (match r {
                Ok(vs) => pair.1 == Ok::<_, crate::errors::ErrS>(vals_v(vs@)) && vs@.len()
                    == args@.len() && forall|i: int|
                    0 <= i < vs@.len() ==> value_wf(
                        #[trigger] vs@[i]@,
                        final(env)@.parents.len() as int,
                    ),
                Err(e) => pair.1 == Err::<Seq<ValueS>, _>(e@),
            })
        }),
        env_wf(final(env)@),
        old(env)@.parents.len() <= final(env)@.parents.len(),
    decreases fuel, lsize(exprs_v(args@)), 2int,
{
    if args.len() == 0 {
        let vs: Vec<Value> = Vec::new();
        proof {
            lemma_exprs_v_len(args@);
            assert(vals_v(vs@) =~= Seq::<ValueS>::empty());
        }
        Ok(vs)
    } else {
        proof {
            lemma_exprs_v_drop(args@);
            lemma_lsize_member(exprs_v(args@), 0);
            lemma_lsize_drop(exprs_v(args@));
            assert(args@.subrange(1, args@.len() as int) =~= args@.drop_first());
        }
        match args[0].eval(env, scope, fuel) {
            Err(e) => Err(e),
            Ok(v) => {
                let ghost mid_len = env@.parents.len() as int;
                match eval_args(&args[1..args.len()], env, scope, fuel) {
                    Err(e) => Err(e),
                    Ok(rest) => {
                        let ghost v_snap = v;
                        let ghost rest_pre = rest@;
                        let mut out = rest;
                        out.insert(0, v);
                        proof {
                            assert(out@ =~= seq![v_snap].add(rest_pre));
                            assert(vals_v(out@) =~= seq![v_snap@] + vals_v(rest_pre));
                            assert forall|i: int| 0 <= i < out@.len() implies value_wf(
                                #[trigger] out@[i]@,
                                env@.parents.len() as int,
                            ) by {
                                if i == 0 {
                                    lemma_value_wf_mono(
                                        v_snap@,
                                        mid_len,
                                        env@.parents.len() as int,
                                    );
                                } else {
                                    assert(out@[i] == rest_pre[i - 1]);
                                }
                            }
                        }
                        Ok(out)
                    }
                }
            }
        }
    }
}

/// Evaluate arguments left to right, each required to be a number; the first
/// error or non-number aborts.
fn eval_nums(
    opname: &str,
    args: &[Expression],
    env: &mut Environment,
    scope: usize,
    fuel: u64,
) -> (r: Result<Vec<String>, LispComputerError>)
    requires
        env_wf(old(env)@),
        (scope as int) < old(env)@.parents.len(),
    ensures
        ({
            let pair = eval_nums_spec(
                opname@,
                exprs_v(args@),
                old(env)@,
                scope as int,
                fuel as nat,
            );
            final(env)@ == pair.0 && (match r {
                Ok(ts) => pair.1 == Ok::<_, crate::errors::ErrS>(texts_v(ts@)),
                Err(e) => pair.1 == Err::<Seq<Seq<char>>, _>(e@),
            })
        }),
        env_wf(final(env)@),
        old(env)@.parents.len() <= final(env)@.parents.len(),
    decreases fuel, lsize(exprs_v(args@)), 2int,
{
    if args.len() == 0 {
        let ts: Vec<String> = Vec::new();
        proof {
            lemma_exprs_v_len(args@);
            assert(texts_v(ts@) =~= Seq::<Seq<char>>::empty());
        }
        Ok(ts)
    } else {
        proof {
            lemma_exprs_v_drop(args@);
            lemma_lsize_member(exprs_v(args@), 0);
            lemma_lsize_drop(exprs_v(args@));
            assert(args@.subrange(1, args@.len() as int) =~= args@.drop_first());
        }
        match args[0].eval(env, scope, fuel) {
            Err(e) => Err(e),
            Ok(Value::Number(t)) => match eval_nums(opname, &args[1..args.len()], env, scope, fuel) {
                Err(e) => Err(e),
                Ok(rest) => {
                    let ghost t_snap = t;
                    let ghost rest_pre = rest@;
                    let mut out = rest;
                    out.insert(0, t);
                    proof {
                        assert(out@ =~= seq![t_snap].add(rest_pre));
                        assert(texts_v(out@) =~= seq![t_snap@] + texts_v(rest_pre));
                    }
                    Ok(out)
                }
            },
            Ok(v) => Err(
                LispComputerError::TypeMismatch1 { operation: opname.to_owned(), left: v },
            ),
        }
    }
}

impl Lambda {
    /// The closure-call protocol: exact arity, the arguments evaluated
    /// eagerly in the caller's scope, the body evaluated in a fresh child of
    /// the captured scope, one call-depth unit deeper.
    pub fn process(
        &self,
        args: &[Expression],
        env: &mut Environment,
        scope: usize,
        fuel: u64,
    ) -> (r: Result<Value, LispComputerError>)
        requires
            env_wf(old(env)@),
            (scope as int) < old(env)@.parents.len(),
            value_wf(ValueS::Lambda(self@), old(env)@.parents.len() as int),
        ensures
            ({
                let step = apply_spec(
                    self@,
                    exprs_v(args@),
                    old(env)@,
                    scope as int,
                    fuel as nat,
                );
                final(env)@ == step.env && out_v(r) == step.out
            }),
            env_wf(final(env)@),
            old(env)@.parents.len() <= final(env)@.parents.len(),
            result_wf(r, final(env)@),
        decreases fuel, lsize(exprs_v(args@)), 3int,
    {
        proof {
            lemma_exprs_v_len(args@);
        }
        if args.len() != self.params.len() {
            return Err(
                LispComputerError::ArityMismatch(
                    "lambda-function".to_owned(),
                    self.params.len(),
                    args.len(),
                ),
            );
        }
        if fuel == 0 {
            return Err(LispComputerError::RecursionLimit);
        }
        let vals = match eval_args(args, env, scope, fuel) {
            Err(e) => {
                return Err(e);
            }
            Ok(vs) => vs,
        };
        let child = env.push_scope(self.captured);
        let ghost pre_bind = env@;
        let ghost names = self@.params;
        let ghost valsv = vals_v(vals@);
        proof {
            assert(names.skip(0) =~= names);
            assert(valsv.skip(0) =~= valsv);
        }
        let mut i: usize = 0;
        while i < self.params.len()
            invariant
                env_wf(env@),
                (child as int) < env@.parents.len(),
                env@.parents.len() == pre_bind.parents.len(),
                i <= self.params.len(),
                vals@.len() == self.params@.len(),
                names == self@.params,
                valsv == vals_v(vals@),
                names.len() == self.params@.len(),
                valsv.len() == vals@.len(),
                forall|k: int| 0 <= k < vals@.len() ==> value_wf(
                    #[trigger] vals@[k]@,
                    env@.parents.len() as int,
                ),
                bind_params(pre_bind, child as int, names, valsv) == bind_params(
                    env@,
                    child as int,
                    names.skip(i as int),
                    valsv.skip(i as int),
                ),
            decreases self.params@.len() - i,
        {
            proof {
                assert(names.skip(i as int).first() == names[i as int]);
                assert(names[i as int] == self.params@[i as int]@);
                assert(valsv.skip(i as int).first() == valsv[i as int]);
                assert(valsv[i as int] == vals@[i as int]@);
                assert(names.skip(i as int).drop_first() =~= names.skip(i as int + 1));
                assert(valsv.skip(i as int).drop_first() =~= valsv.skip(i as int + 1));
            }
            let name = self.params[i].clone();
            let value = vals[i].duplicate();
            env.define(child, name, value);
            i = i + 1;
        }
        proof {
            assert(names.skip(names.len() as int) =~= Seq::<Seq<char>>::empty());
            assert(valsv.skip(valsv.len() as int) =~= Seq::<ValueS>::empty());
            assert(env@ == bind_params(pre_bind, child as int, names, valsv));
        }
        process_expression_list(self.body.as_slice(), env, child, fuel - 1)
    }
}

// ---------------------------------------------------------------------------
// Structural equality of values, with numbers compared as floating-point
// values.
// ---------------------------------------------------------------------------

fn exprs_eq(a: &[Expression], b: &[Expression]) -> (r: bool)
    ensures
        r == (exprs_v(a@) == exprs_v(b@)),
    decreases lsize(exprs_v(a@)), 1int,
{
    proof {
        lemma_exprs_v_len(a@);
        lemma_exprs_v_len(b@);
    }
    if a.len() != b.len() {
        proof {
            assert(exprs_v(a@).len() != exprs_v(b@).len());
        }
        return false;
    }
    let mut i: usize = 0;
    while i < a.len()
        invariant
            a@.len() == b@.len(),
            i <= a@.len(),
            exprs_v(a@).len() == a@.len(),
            exprs_v(b@).len() == b@.len(),
            forall|k: int| 0 <= k < i as int ==> exprs_v(a@)[k] == exprs_v(b@)[k],
        decreases a@.len() - i,
    {
        proof {
            crate::parse::lemma_exprs_v_index(a@, i as int);
            crate::parse::lemma_exprs_v_index(b@, i as int);
            lemma_lsize_member(exprs_v(a@), i as int);
        }
        if !expr_eq(&a[i], &b[i]) {
            proof {
                assert(exprs_v(a@)[i as int] != exprs_v(b@)[i as int]);
            }
            return false;
        }
        i = i + 1;
    }
    proof {
        assert(exprs_v(a@) =~= exprs_v(b@));
    }
    true
}

fn expr_eq(a: &Expression, b: &Expression) -> (r: bool)
    ensures
        r == (a@ == b@),
    decreases esize(a@), 0int,
{
    match (a, b) {
        (Expression::Number(x), Expression::Number(y)) => *x == *y,
        (Expression::Variable(x), Expression::Variable(y)) => *x == *y,
        (Expression::String(x), Expression::String(y)) => *x == *y,
        (Expression::List(x), Expression::List(y)) => exprs_eq(x.as_slice(), y.as_slice()),
        _ => false,
    }
}

fn strings_eq(a: &Vec<String>, b: &Vec<String>) -> (r: bool)
    ensures
        r == (texts_v(a@) == texts_v(b@)),
{
    if a.len() != b.len() {
        return false;
    }
    let mut i: usize = 0;
    while i < a.len()
        invariant
            a@.len() == b@.len(),
            i <= a@.len(),
            forall|k: int| 0 <= k < i as int ==> texts_v(a@)[k] == texts_v(b@)[k],
        decreases a@.len() - i,
    {
        if !(a[i] == b[i]) {
            proof {
                assert(texts_v(a@)[i as int] != texts_v(b@)[i as int]);
            }
            return false;
        }
        i = i + 1;
    }
    proof {
        assert(texts_v(a@) =~= texts_v(b@));
    }
    true
}

fn lambda_eq(a: &Lambda, b: &Lambda) -> (r: bool)
    ensures
        r == (a@ == b@),
{
    let r = strings_eq(&a.params, &b.params) && exprs_eq(a.body.as_slice(), b.body.as_slice())
        && a.captured == b.captured;
    proof {
        if r {
            assert(a@ =~= b@);
        }
    }
    r
}

/// Structural equality of two values, numbers compared as the
/// floating-point values their texts denote.
pub fn value_eq(a: &Value, b: &Value) -> (r: bool)
    ensures
        r == values_equal(a@, b@),
{
    match (a, b) {
        (Value::Number(x), Value::Number(y)) => num_eq(x.as_str(), y.as_str()),
        (Value::String(x), Value::String(y)) => *x == *y,
        (Value::Boolean(x), Value::Boolean(y)) => *x == *y,
        (Value::Nil, Value::Nil) => true,
        (Value::Lambda(x), Value::Lambda(y)) => lambda_eq(x, y),
        _ => false,
    }
}

fn all_equal_exec(vs: &Vec<Value>) -> (r: bool)
    ensures
        r == all_equal(vals_v(vs@)),
{
    let ghost whole = vals_v(vs@);
    proof {
        assert(whole.skip(0) =~= whole);
    }
    let n = vs.len();
    let mut i: usize = 0;
    while n > 0 && i < n - 1
        invariant
            n == vs@.len(),
            i <= vs@.len(),
            whole == vals_v(vs@),
            whole.len() == vs@.len(),
            all_equal(whole) == all_equal(whole.skip(i as int)),
        decreases vs@.len() - i,
    {
        proof {
            assert(whole.skip(i as int)[0] == whole[i as int]);
            assert(whole.skip(i as int)[1] == whole[i as int + 1]);
            assert(whole.skip(i as int).drop_first() =~= whole.skip(i as int + 1));
        }
        if !value_eq(&vs[i], &vs[i + 1]) {
            return false;
        }
        i = i + 1;
    }
    proof {
        assert(all_equal(whole.skip(i as int)));
    }
    true
}

fn pair_ok_exec(op: CmpOp, a: &String, b: &String) -> (r: bool)
    ensures
        r == cmp_pair_ok(op, a@, b@),
{
    match op {
        CmpOp::Gt => !num_le(a.as_str(), b.as_str()),
        CmpOp::Lt => !num_le(b.as_str(), a.as_str()),
        CmpOp::Ge => !num_lt(a.as_str(), b.as_str()),
        CmpOp::Le => !num_lt(b.as_str(), a.as_str()),
    }
}

fn chain_check(op: CmpOp, ts: &Vec<String>) -> (r: bool)
    ensures
        r == chain_ok(op, texts_v(ts@)),
{
    let ghost whole = texts_v(ts@);
    proof {
        assert(whole.skip(0) =~= whole);
    }
    let n = ts.len();
    let mut i: usize = 0;
    while n > 0 && i < n - 1
        invariant
            n == ts@.len(),
            i <= ts@.len(),
            whole == texts_v(ts@),
            whole.len() == ts@.len(),
            chain_ok(op, whole) == chain_ok(op, whole.skip(i as int)),
        decreases ts@.len() - i,
    {
        proof {
            assert(whole.skip(i as int)[0] == whole[i as int]);
            assert(whole.skip(i as int)[1] == whole[i as int + 1]);
            assert(whole.skip(i as int).drop_first() =~= whole.skip(i as int + 1));
        }
        if !pair_ok_exec(op, &ts[i], &ts[i + 1]) {
            return false;
        }
        i = i + 1;
    }
    proof {
        assert(chain_ok(op, whole.skip(i as int)));
    }
    true
}

// ---------------------------------------------------------------------------
// The primitive operators and special forms.
// ---------------------------------------------------------------------------

fn add_fold(
    args: &[Expression],
    env: &mut Environment,
    scope: usize,
    fuel: u64,
    sum: String,
    acc: String,
) -> (r: Result<Value, LispComputerError>)
    requires
        env_wf(old(env)@),
        (scope as int) < old(env)@.parents.len(),
    ensures
        ({
            let step = add_fold_spec(
                exprs_v(args@),
                old(env)@,
                scope as int,
                fuel as nat,
                sum@,
                acc@,
            );
            final(env)@ == step.env && out_v(r) == step.out
        }),
        env_wf(final(env)@),
        old(env)@.parents.len() <= final(env)@.parents.len(),
        result_wf(r, final(env)@),
    decreases fuel, lsize(exprs_v(args@)), 3int,
{
    if args.len() == 0 {
        proof {
            lemma_exprs_v_len(args@);
        }
        if acc.as_str().is_empty() {
            Ok(Value::Number(sum))
        } else {
            Ok(Value::String(acc))
        }
    } else {
        proof {
            lemma_exprs_v_drop(args@);
            lemma_lsize_member(exprs_v(args@), 0);
            lemma_lsize_drop(exprs_v(args@));
            assert(args@.subrange(1, args@.len() as int) =~= args@.drop_first());
        }
        match args[0].eval(env, scope, fuel) {
            Err(e) => Err(e),
            Ok(Value::Number(t)) => {
                if acc.as_str().is_empty() {
                    let sum2 = num_add(sum.as_str(), t.as_str());
                    add_fold(&args[1..args.len()], env, scope, fuel, sum2, acc)
                } else {
                    Err(
                        LispComputerError::TypeMismatch2 {
                            operation: "+".to_owned(),
                            left: Value::String(acc),
                            right: Value::Number(t),
                        },
                    )
                }
            }
            Ok(Value::String(x)) => {
                if num_eq(sum.as_str(), "0") {
                    let mut acc2 = acc;
                    acc2.append(x.as_str());
                    add_fold(&args[1..args.len()], env, scope, fuel, sum, acc2)
                } else {
                    Err(
                        LispComputerError::TypeMismatch2 {
                            operation: "+".to_owned(),
                            left: Value::Number(sum),
                            right: Value::String(x),
                        },
                    )
                }
            }
            Ok(v) => Err(
                LispComputerError::TypeMismatch1 { operation: "+".to_owned(), left: v },
            ),
        }
    }
}

fn mul_fold(
    args: &[Expression],
    env: &mut Environment,
    scope: usize,
    fuel: u64,
    acc: String,
) -> (r: Result<Value, LispComputerError>)
    requires
        env_wf(old(env)@),
        (scope as int) < old(env)@.parents.len(),
    ensures
        ({
            let step = mul_fold_spec(exprs_v(args@), old(env)@, scope as int, fuel as nat, acc@);
            final(env)@ == step.env && out_v(r) == step.out
        }),
        env_wf(final(env)@),
        old(env)@.parents.len() <= final(env)@.parents.len(),
        result_wf(r, final(env)@),
    decreases fuel, lsize(exprs_v(args@)), 3int,
{
    if args.len() == 0 {
        proof {
            lemma_exprs_v_len(args@);
        }
        Ok(Value::Number(acc))
    } else {
        proof {
            lemma_exprs_v_drop(args@);
            lemma_lsize_member(exprs_v(args@), 0);
            lemma_lsize_drop(exprs_v(args@));
            assert(args@.subrange(1, args@.len() as int) =~= args@.drop_first());
        }
        match args[0].eval(env, scope, fuel) {
            Err(e) => Err(e),
            Ok(Value::Number(t)) => {
                let acc2 = num_mul(acc.as_str(), t.as_str());
                mul_fold(&args[1..args.len()], env, scope, fuel, acc2)
            }
            Ok(v) => Err(
                LispComputerError::TypeMismatch1 { operation: "*".to_owned(), left: v },
            ),
        }
    }
}

fn arith_fold(
    is_div: bool,
    args: &[Expression],
    env: &mut Environment,
    scope: usize,
    fuel: u64,
    acc: String,
) -> (r: Result<Value, LispComputerError>)
    requires
        env_wf(old(env)@),
        (scope as int) < old(env)@.parents.len(),
    ensures
        ({
            let step = arith_fold_spec(
                is_div,
                exprs_v(args@),
                old(env)@,
                scope as int,
                fuel as nat,
                acc@,
            );
            final(env)@ == step.env && out_v(r) == step.out
        }),
        env_wf(final(env)@),
        old(env)@.parents.len() <= final(env)@.parents.len(),
        result_wf(r, final(env)@),
    decreases fuel, lsize(exprs_v(args@)), 3int,
{
    if args.len() == 0 {
        proof {
            lemma_exprs_v_len(args@);
        }
        Ok(Value::Number(acc))
    } else {
        proof {
            lemma_exprs_v_drop(args@);
            lemma_lsize_member(exprs_v(args@), 0);
            lemma_lsize_drop(exprs_v(args@));
            assert(args@.subrange(1, args@.len() as int) =~= args@.drop_first());
        }
        match args[0].eval(env, scope, fuel) {
            Err(e) => Err(e),
            Ok(Value::Number(t)) => {
                let acc2 = if is_div {
                    num_div(acc.as_str(), t.as_str())
                } else {
                    num_sub(acc.as_str(), t.as_str())
                };
                arith_fold(is_div, &args[1..args.len()], env, scope, fuel, acc2)
            }
            Ok(v) => {
                if is_div {
                    Err(
                        LispComputerError::TypeMismatch2 {
                            operation: "/".to_owned(),
                            left: Value::Number(acc),
                            right: v,
                        },
                    )
                } else {
                    Err(LispComputerError::TypeMismatch1 { operation: "-".to_owned(), left: v })
                }
            }
        }
    }
}

fn arith_entry(
    is_div: bool,
    args: &[Expression],
    env: &mut Environment,
    scope: usize,
    fuel: u64,
) -> (r: Result<Value, LispComputerError>)
    requires
        env_wf(old(env)@),
        (scope as int) < old(env)@.parents.len(),
    ensures
        ({
            let step = arith_entry_spec(
                is_div,
                exprs_v(args@),
                old(env)@,
                scope as int,
                fuel as nat,
            );
            final(env)@ == step.env && out_v(r) == step.out
        }),
        env_wf(final(env)@),
        old(env)@.parents.len() <= final(env)@.parents.len(),
        result_wf(r, final(env)@),
    decreases fuel, lsize(exprs_v(args@)), 4int,
{
    let opname = if is_div {
        "/"
    } else {
        "-"
    };
    if args.len() == 0 {
        proof {
            lemma_exprs_v_len(args@);
        }
        Err(LispComputerError::TypeMismatch1 { operation: opname.to_owned(), left: Value::Nil })
    } else {
        proof {
            lemma_exprs_v_drop(args@);
            lemma_lsize_member(exprs_v(args@), 0);
            lemma_lsize_drop(exprs_v(args@));
            assert(args@.subrange(1, args@.len() as int) =~= args@.drop_first());
        }
        match args[0].eval(env, scope, fuel) {
            Err(e) => Err(e),
            Ok(Value::Number(t)) => arith_fold(is_div, &args[1..args.len()], env, scope, fuel, t),
            Ok(v) => Err(
                LispComputerError::TypeMismatch1 { operation: opname.to_owned(), left: v },
            ),
        }
    }
}

fn or_fold(
    args: &[Expression],
    env: &mut Environment,
    scope: usize,
    fuel: u64,
    last: Value,
) -> (r: Result<Value, LispComputerError>)
    requires
        env_wf(old(env)@),
        (scope as int) < old(env)@.parents.len(),
        value_wf(last@, old(env)@.parents.len() as int),
    ensures
        ({
            let step = or_fold_spec(exprs_v(args@), old(env)@, scope as int, fuel as nat, last@);
            final(env)@ == step.env && out_v(r) == step.out
        }),
        env_wf(final(env)@),
        old(env)@.parents.len() <= final(env)@.parents.len(),
        result_wf(r, final(env)@),
    decreases fuel, lsize(exprs_v(args@)), 3int,
{
    if args.len() == 0 {
        proof {
            lemma_exprs_v_len(args@);
        }
        Ok(last)
    } else {
        proof {
            lemma_exprs_v_drop(args@);
            lemma_lsize_member(exprs_v(args@), 0);
            lemma_lsize_drop(exprs_v(args@));
            assert(args@.subrange(1, args@.len() as int) =~= args@.drop_first());
        }
        match args[0].eval(env, scope, fuel) {
            Err(e) => Err(e),
            Ok(v) => {
                if v.boolean() {
                    Ok(v)
                } else {
                    or_fold(&args[1..args.len()], env, scope, fuel, v)
                }
            }
        }
    }
}

fn and_fold(
    args: &[Expression],
    env: &mut Environment,
    scope: usize,
    fuel: u64,
    last: Value,
) -> (r: Result<Value, LispComputerError>)
    requires
        env_wf(old(env)@),
        (scope as int) < old(env)@.parents.len(),
        value_wf(last@, old(env)@.parents.len() as int),
    ensures
        ({
            let step = and_fold_spec(exprs_v(args@), old(env)@, scope as int, fuel as nat, last@);
            final(env)@ == step.env && out_v(r) == step.out
        }),
        env_wf(final(env)@),
        old(env)@.parents.len() <= final(env)@.parents.len(),
        result_wf(r, final(env)@),
    decreases fuel, lsize(exprs_v(args@)), 3int,
{
    if args.len() == 0 {
        proof {
            lemma_exprs_v_len(args@);
        }
        Ok(last)
    } else {
        proof {
            lemma_exprs_v_drop(args@);
            lemma_lsize_member(exprs_v(args@), 0);
            lemma_lsize_drop(exprs_v(args@));
            assert(args@.subrange(1, args@.len() as int) =~= args@.drop_first());
        }
        match args[0].eval(env, scope, fuel) {
            Err(e) => Err(e),
            Ok(v) => {
                if !v.boolean() {
                    Ok(v)
                } else {
                    and_fold(&args[1..args.len()], env, scope, fuel, v)
                }
            }
        }
    }
}

fn cond_fold(
    clauses: &[Expression],
    all: &[Expression],
    env: &mut Environment,
    scope: usize,
    fuel: u64,
) -> (r: Result<Value, LispComputerError>)
    requires
        env_wf(old(env)@),
        (scope as int) < old(env)@.parents.len(),
    ensures
        ({
            let step = cond_fold_spec(
                exprs_v(clauses@),
                exprs_v(all@),
                old(env)@,
                scope as int,
                fuel as nat,
            );
            final(env)@ == step.env && out_v(r) == step.out
        }),
        env_wf(final(env)@),
        old(env)@.parents.len() <= final(env)@.parents.len(),
        result_wf(r, final(env)@),
    decreases fuel, lsize(exprs_v(clauses@)), 3int,
{
    if clauses.len() == 0 {
        proof {
            lemma_exprs_v_len(clauses@);
        }
        Ok(Value::Boolean(false))
    } else {
        proof {
            lemma_exprs_v_drop(clauses@);
            lemma_lsize_member(exprs_v(clauses@), 0);
            lemma_lsize_drop(exprs_v(clauses@));
            assert(clauses@.subrange(1, clauses@.len() as int) =~= clauses@.drop_first());
        }
        match &clauses[0] {
            Expression::List(inner) => {
                if inner.len() == 2 {
                    proof {
                        crate::parse::lemma_exprs_v_index(inner@, 0);
                        crate::parse::lemma_exprs_v_index(inner@, 1);
                        lemma_lsize_member(exprs_v(inner@), 0);
                        lemma_lsize_member(exprs_v(inner@), 1);
                    }
                    let is_else = match &inner[0] {
                        Expression::Variable(n) => sym_is(n, "else"),
                        _ => false,
                    };
                    if is_else {
                        inner[1].eval(env, scope, fuel)
                    } else {
                        match inner[0].eval(env, scope, fuel) {
                            Err(e) => Err(e),
                            Ok(v) => {
                                if v.boolean() {
                                    inner[1].eval(env, scope, fuel)
                                } else {
                                    cond_fold(&clauses[1..clauses.len()], all, env, scope, fuel)
                                }
                            }
                        }
                    }
                } else {
                    proof {
                        lemma_exprs_v_len(inner@);
                    }
                    Err(
                        LispComputerError::InvalidArguments("cond".to_owned(), dup_exprs(all)),
                    )
                }
            }
            _ => Err(LispComputerError::InvalidArguments("cond".to_owned(), dup_exprs(all))),
        }
    }
}

/// The parameter names of a lambda form: every element must be a symbol.
fn extract_params(ps: &[Expression]) -> (r: Option<Vec<String>>)
    ensures
        match r {
            Some(ns) => param_names(exprs_v(ps@)) == Some(texts_v(ns@)),
            None => param_names(exprs_v(ps@)) is None,
        },
    decreases ps@.len(),
{
    if ps.len() == 0 {
        let ns: Vec<String> = Vec::new();
        proof {
            lemma_exprs_v_len(ps@);
            assert(texts_v(ns@) =~= Seq::<Seq<char>>::empty());
        }
        Some(ns)
    } else {
        proof {
            lemma_exprs_v_drop(ps@);
            assert(ps@.subrange(1, ps@.len() as int) =~= ps@.drop_first());
        }
        match &ps[0] {
            Expression::Variable(n) => match extract_params(&ps[1..ps.len()]) {
                Some(rest) => {
                    let ghost n_v = n@;
                    let ghost rest_pre = rest@;
                    let mut out = rest;
                    out.insert(0, n.clone());
                    proof {
                        assert(texts_v(out@) =~= seq![n_v] + texts_v(rest_pre));
                    }
                    Some(out)
                }
                None => None,
            },
            _ => None,
        }
    }
}

fn let_binds(
    bindings: &[Expression],
    all: &[Expression],
    env: &mut Environment,
    scope: usize,
    fuel: u64,
) -> (r: Result<Vec<(String, Value)>, LispComputerError>)
    requires
        env_wf(old(env)@),
        (scope as int) < old(env)@.parents.len(),
    ensures
        ({
            let pair = let_binds_spec(
                exprs_v(bindings@),
                exprs_v(all@),
                old(env)@,
                scope as int,
                fuel as nat,
            );
            final(env)@ == pair.0 && (match r {
                Ok(ps) => pair.1 == Ok::<_, crate::errors::ErrS>(pairs_v(ps@)) && forall|i: int|
                    0 <= i < ps@.len() ==> value_wf(
                        #[trigger] ps@[i].1@,
                        final(env)@.parents.len() as int,
                    ),
                Err(e) => pair.1 == Err::<Seq<(Seq<char>, ValueS)>, _>(e@),
            })
        }),
        env_wf(final(env)@),
        old(env)@.parents.len() <= final(env)@.parents.len(),
    decreases fuel, lsize(exprs_v(bindings@)), 3int,
{
    if bindings.len() == 0 {
        let ps: Vec<(String, Value)> = Vec::new();
        proof {
            lemma_exprs_v_len(bindings@);
            assert(pairs_v(ps@) =~= Seq::<(Seq<char>, ValueS)>::empty());
        }
        Ok(ps)
    } else {
        proof {
            lemma_exprs_v_drop(bindings@);
            lemma_lsize_member(exprs_v(bindings@), 0);
            lemma_lsize_drop(exprs_v(bindings@));
            assert(bindings@.subrange(1, bindings@.len() as int) =~= bindings@.drop_first());
        }
        match &bindings[0] {
            Expression::List(inner) => {
                if inner.len() == 2 {
                    proof {
                        crate::parse::lemma_exprs_v_index(inner@, 0);
                        crate::parse::lemma_exprs_v_index(inner@, 1);
                        lemma_lsize_member(exprs_v(inner@), 0);
                        lemma_lsize_member(exprs_v(inner@), 1);
                    }
                    match &inner[0] {
                        Expression::Variable(name) => {
                            match inner[1].eval(env, scope, fuel) {
                                Err(e) => Err(e),
                                Ok(v) => {
                                    let ghost mid_len = env@.parents.len() as int;
                                    match let_binds(&bindings[1..bindings.len()], all, env, scope, fuel) {
                                        Err(e) => Err(e),
                                        Ok(rest) => {
                                            let ghost head_pair = (name@, v@);
                                            let ghost rest_pre = rest@;
                                            let ghost v_snap = v@;
                                            let mut out = rest;
                                            out.insert(0, (name.clone(), v));
                                            proof {
                                                assert(pairs_v(out@) =~= seq![head_pair] + pairs_v(
                                                    rest_pre,
                                                ));
                                                assert forall|i: int|
                                                    0 <= i < out@.len() implies value_wf(
                                                    #[trigger] out@[i].1@,
                                                    env@.parents.len() as int,
                                                ) by {
                                                    if i == 0 {
                                                        lemma_value_wf_mono(
                                                            v_snap,
                                                            mid_len,
                                                            env@.parents.len() as int,
                                                        );
                                                    } else {
                                                        assert(out@[i] == rest_pre[i - 1]);
                                                    }
                                                }
                                            }
                                            Ok(out)
                                        }
                                    }
                                }
                            }
                        }
                        _ => Err(
                            LispComputerError::InvalidArguments(
                                "let-bindings".to_owned(),
                                dup_exprs(inner.as_slice()),
                            ),
                        ),
                    }
                } else {
                    proof {
                        lemma_exprs_v_len(inner@);
                    }
                    Err(
                        LispComputerError::InvalidArguments(
                            "let-bindings".to_owned(),
                            dup_exprs(inner.as_slice()),
                        ),
                    )
                }
            }
            _ => Err(
                LispComputerError::InvalidArguments("let-bindings".to_owned(), dup_exprs(all)),
            ),
        }
    }
}

/// The `+` primitive: numbers sum, strings concatenate, the kinds do not mix.
pub struct AdditionProcessor;

impl AdditionProcessor {
    pub fn process(
        &self,
        args: &[Expression],
        env: &mut Environment,
        scope: usize,
        fuel: u64,
    ) -> (r: Result<Value, LispComputerError>)
        requires
            env_wf(old(env)@),
            (scope as int) < old(env)@.parents.len(),
        ensures
            ({
                let step = add_fold_spec(
                    exprs_v(args@),
                    old(env)@,
                    scope as int,
                    fuel as nat,
                    "0"@,
                    ""@,
                );
                final(env)@ == step.env && out_v(r) == step.out
            }),
            env_wf(final(env)@),
            old(env)@.parents.len() <= final(env)@.parents.len(),
            result_wf(r, final(env)@),
        decreases fuel, lsize(exprs_v(args@)), 4int,
    {
        add_fold(args, env, scope, fuel, "0".to_owned(), "".to_owned())
    }

    pub fn name(&self) -> (r: &'static str)
        ensures
            r@ == "+"@,
    {
        "+"
    }
}

/// The `-` primitive: the first number minus the following ones.
pub struct SubtractionProcessor;

impl SubtractionProcessor {
    pub fn process(
        &self,
        args: &[Expression],
        env: &mut Environment,
        scope: usize,
        fuel: u64,
    ) -> (r: Result<Value, LispComputerError>)
        requires
            env_wf(old(env)@),
            (scope as int) < old(env)@.parents.len(),
        ensures
            ({
                let step = arith_entry_spec(
                    false,
                    exprs_v(args@),
                    old(env)@,
                    scope as int,
                    fuel as nat,
                );
                final(env)@ == step.env && out_v(r) == step.out
            }),
            env_wf(final(env)@),
            old(env)@.parents.len() <= final(env)@.parents.len(),
            result_wf(r, final(env)@),
        decreases fuel, lsize(exprs_v(args@)), 5int,
    {
        arith_entry(false, args, env, scope, fuel)
    }

    pub fn name(&self) -> (r: &'static str)
        ensures
            r@ == "-"@,
    {
        "-"
    }
}

/// The `*` primitive: the product of the arguments.
pub struct MultiplicationProcessor;

impl MultiplicationProcessor {
    pub fn process(
        &self,
        args: &[Expression],
        env: &mut Environment,
        scope: usize,
        fuel: u64,
    ) -> (r: Result<Value, LispComputerError>)
        requires
            env_wf(old(env)@),
            (scope as int) < old(env)@.parents.len(),
        ensures
            ({
                let step = mul_fold_spec(
                    exprs_v(args@),
                    old(env)@,
                    scope as int,
                    fuel as nat,
                    "1"@,
                );
                final(env)@ == step.env && out_v(r) == step.out
            }),
            env_wf(final(env)@),
            old(env)@.parents.len() <= final(env)@.parents.len(),
            result_wf(r, final(env)@),
        decreases fuel, lsize(exprs_v(args@)), 4int,
    {
        mul_fold(args, env, scope, fuel, "1".to_owned())
    }

    pub fn name(&self) -> (r: &'static str)
        ensures
            r@ == "*"@,
    {
        "*"
    }
}

/// The `/` primitive: the first number divided by the following ones, with
/// floating-point semantics throughout (a zero divisor yields an infinity or
/// a not-a-number, never an error).
pub struct DivisionProcessor;

impl DivisionProcessor {
    pub fn process(
        &self,
        args: &[Expression],
        env: &mut Environment,
        scope: usize,
        fuel: u64,
    ) -> (r: Result<Value, LispComputerError>)
        requires
            env_wf(old(env)@),
            (scope as int) < old(env)@.parents.len(),
        ensures
            ({
                let step = arith_entry_spec(
                    true,
                    exprs_v(args@),
                    old(env)@,
                    scope as int,
                    fuel as nat,
                );
                final(env)@ == step.env && out_v(r) == step.out
            }),
            env_wf(final(env)@),
            old(env)@.parents.len() <= final(env)@.parents.len(),
            result_wf(r, final(env)@),
        decreases fuel, lsize(exprs_v(args@)), 5int,
    {
        arith_entry(true, args, env, scope, fuel)
    }

    pub fn name(&self) -> (r: &'static str)
        ensures
            r@ == "/"@,
    {
        "/"
    }
}

/// The `=` primitive: at least two arguments, all evaluated, pairwise equal.
pub struct EqualProcessor;

impl EqualProcessor {
    pub fn process(
        &self,
        args: &[Expression],
        env: &mut Environment,
        scope: usize,
        fuel: u64,
    ) -> (r: Result<Value, LispComputerError>)
        requires
            env_wf(old(env)@),
            (scope as int) < old(env)@.parents.len(),
        ensures
            ({
                let step = equal_form_spec(exprs_v(args@), old(env)@, scope as int, fuel as nat);
                final(env)@ == step.env && out_v(r) == step.out
            }),
            env_wf(final(env)@),
            old(env)@.parents.len() <= final(env)@.parents.len(),
            result_wf(r, final(env)@),
        decreases fuel, lsize(exprs_v(args@)), 4int,
    {
        proof {
            lemma_exprs_v_len(args@);
        }
        if args.len() < 2 {
            return Err(LispComputerError::ArityMismatch("=".to_owned(), 2, args.len()));
        }
        match eval_args(args, env, scope, fuel) {
            Err(e) => Err(e),
            Ok(vs) => Ok(Value::Boolean(all_equal_exec(&vs))),
        }
    }

    pub fn name(&self) -> (r: &'static str)
        ensures
            r@ == "="@,
    {
        "="
    }
}

/// The comparison primitives: every adjacent pair of the evaluated numbers
/// must be in the operator's order.
fn compare_process(
    op: CmpOp,
    args: &[Expression],
    env: &mut Environment,
    scope: usize,
    fuel: u64,
) -> (r: Result<Value, LispComputerError>)
    requires
        env_wf(old(env)@),
        (scope as int) < old(env)@.parents.len(),
    ensures
        ({
            let step = compare_form_spec(op, exprs_v(args@), old(env)@, scope as int, fuel as nat);
            final(env)@ == step.env && out_v(r) == step.out
        }),
        env_wf(final(env)@),
        old(env)@.parents.len() <= final(env)@.parents.len(),
        result_wf(r, final(env)@),
    decreases fuel, lsize(exprs_v(args@)), 4int,
{
    proof {
        lemma_exprs_v_len(args@);
    }
    let opname = match op {
        CmpOp::Gt => ">",
        CmpOp::Lt => "<",
        CmpOp::Ge => ">=",
        CmpOp::Le => "<=",
    };
    if args.len() < 2 {
        return Err(LispComputerError::ArityMismatch(opname.to_owned(), 2, args.len()));
    }
    match eval_nums(opname, args, env, scope, fuel) {
        Err(e) => Err(e),
        Ok(ts) => Ok(Value::Boolean(chain_check(op, &ts))),
    }
}

/// The `>` primitive.
pub struct GreaterThanProcessor;

impl GreaterThanProcessor {
    pub fn process(
        &self,
        args: &[Expression],
        env: &mut Environment,
        scope: usize,
        fuel: u64,
    ) -> (r: Result<Value, LispComputerError>)
        requires
            env_wf(old(env)@),
            (scope as int) < old(env)@.parents.len(),
        ensures
            ({
                let step = compare_form_spec(
                    CmpOp::Gt,
                    exprs_v(args@),
                    old(env)@,
                    scope as int,
                    fuel as nat,
                );
                final(env)@ == step.env && out_v(r) == step.out
            }),
            env_wf(final(env)@),
            old(env)@.parents.len() <= final(env)@.parents.len(),
            result_wf(r, final(env)@),
        decreases fuel, lsize(exprs_v(args@)), 5int,
    {
        compare_process(CmpOp::Gt, args, env, scope, fuel)
    }

    pub fn name(&self) -> (r: &'static str)
        ensures
            r@ == ">"@,
    {
        ">"
    }
}

/// The `<` primitive.
pub struct LessThanProcessor;

impl LessThanProcessor {
    pub fn process(
        &self,
        args: &[Expression],
        env: &mut Environment,
        scope: usize,
        fuel: u64,
    ) -> (r: Result<Value, LispComputerError>)
        requires
            env_wf(old(env)@),
            (scope as int) < old(env)@.parents.len(),
        ensures
            ({
                let step = compare_form_spec(
                    CmpOp::Lt,
                    exprs_v(args@),
                    old(env)@,
                    scope as int,
                    fuel as nat,
                );
                final(env)@ == step.env && out_v(r) == step.out
            }),
            env_wf(final(env)@),
            old(env)@.parents.len() <= final(env)@.parents.len(),
            result_wf(r, final(env)@),
        decreases fuel, lsize(exprs_v(args@)), 5int,
    {
        compare_process(CmpOp::Lt, args, env, scope, fuel)
    }

    pub fn name(&self) -> (r: &'static str)
        ensures
            r@ == "<"@,
    {
        "<"
    }
}

/// The `>=` primitive.
pub struct GreaterEqualProcessor;

impl GreaterEqualProcessor {
    pub fn process(
        &self,
        args: &[Expression],
        env: &mut Environment,
        scope: usize,
        fuel: u64,
    ) -> (r: Result<Value, LispComputerError>)
        requires
            env_wf(old(env)@),
            (scope as int) < old(env)@.parents.len(),
        ensures
            ({
                let step = compare_form_spec(
                    CmpOp::Ge,
                    exprs_v(args@),
                    old(env)@,
                    scope as int,
                    fuel as nat,
                );
                final(env)@ == step.env && out_v(r) == step.out
            }),
            env_wf(final(env)@),
            old(env)@.parents.len() <= final(env)@.parents.len(),
            result_wf(r, final(env)@),
        decreases fuel, lsize(exprs_v(args@)), 5int,
    {
        compare_process(CmpOp::Ge, args, env, scope, fuel)
    }

    pub fn name(&self) -> (r: &'static str)
        ensures
            r@ == ">="@,
    {
        ">="
    }
}

/// The `<=` primitive.
pub struct LessEqualProcessor;

impl LessEqualProcessor {
    pub fn process(
        &self,
        args: &[Expression],
        env: &mut Environment,
        scope: usize,
        fuel: u64,
    ) -> (r: Result<Value, LispComputerError>)
        requires
            env_wf(old(env)@),
            (scope as int) < old(env)@.parents.len(),
        ensures
            ({
                let step = compare_form_spec(
                    CmpOp::Le,
                    exprs_v(args@),
                    old(env)@,
                    scope as int,
                    fuel as nat,
                );
                final(env)@ == step.env && out_v(r) == step.out
            }),
            env_wf(final(env)@),
            old(env)@.parents.len() <= final(env)@.parents.len(),
            result_wf(r, final(env)@),
        decreases fuel, lsize(exprs_v(args@)), 5int,
    {
        compare_process(CmpOp::Le, args, env, scope, fuel)
    }

    pub fn name(&self) -> (r: &'static str)
        ensures
            r@ == "<="@,
    {
        "<="
    }
}

/// The `if` special form: exactly three arguments; the condition always,
/// then only the taken branch.
pub struct IfProcessor;

impl IfProcessor {
    pub fn process(
        &self,
        args: &[Expression],
        env: &mut Environment,
        scope: usize,
        fuel: u64,
    ) -> (r: Result<Value, LispComputerError>)
        requires
            env_wf(old(env)@),
            (scope as int) < old(env)@.parents.len(),
        ensures
            ({
                let step = if_form_spec(exprs_v(args@), old(env)@, scope as int, fuel as nat);
                final(env)@ == step.env && out_v(r) == step.out
            }),
            env_wf(final(env)@),
            old(env)@.parents.len() <= final(env)@.parents.len(),
            result_wf(r, final(env)@),
        decreases fuel, lsize(exprs_v(args@)), 4int,
    {
        proof {
            lemma_exprs_v_len(args@);
        }
        if args.len() != 3 {
            return Err(LispComputerError::ArityMismatch("if".to_owned(), 3, args.len()));
        }
        proof {
            crate::parse::lemma_exprs_v_index(args@, 0);
            crate::parse::lemma_exprs_v_index(args@, 1);
            crate::parse::lemma_exprs_v_index(args@, 2);
            lemma_lsize_member(exprs_v(args@), 0);
            lemma_lsize_member(exprs_v(args@), 1);
            lemma_lsize_member(exprs_v(args@), 2);
        }
        match args[0].eval(env, scope, fuel) {
            Err(e) => Err(e),
            Ok(v) => {
                if v.boolean() {
                    args[1].eval(env, scope, fuel)
                } else {
                    args[2].eval(env, scope, fuel)
                }
            }
        }
    }

    pub fn name(&self) -> (r: &'static str)
        ensures
            r@ == "if"@,
    {
        "if"
    }
}

/// The `or` special form: left to right, stopping at the first truthy value.
pub struct OrProcessor;

impl OrProcessor {
    pub fn process(
        &self,
        args: &[Expression],
        env: &mut Environment,
        scope: usize,
        fuel: u64,
    ) -> (r: Result<Value, LispComputerError>)
        requires
            env_wf(old(env)@),
            (scope as int) < old(env)@.parents.len(),
        ensures
            ({
                let step = or_fold_spec(
                    exprs_v(args@),
                    old(env)@,
                    scope as int,
                    fuel as nat,
                    ValueS::Boolean(false),
                );
                final(env)@ == step.env && out_v(r) == step.out
            }),
            env_wf(final(env)@),
            old(env)@.parents.len() <= final(env)@.parents.len(),
            result_wf(r, final(env)@),
        decreases fuel, lsize(exprs_v(args@)), 4int,
    {
        or_fold(args, env, scope, fuel, Value::Boolean(false))
    }

    pub fn name(&self) -> (r: &'static str)
        ensures
            r@ == "or"@,
    {
        "or"
    }
}

/// The `and` special form: left to right, stopping at the first falsy value.
pub struct AndProcessor;

impl AndProcessor {
    pub fn process(
        &self,
        args: &[Expression],
        env: &mut Environment,
        scope: usize,
        fuel: u64,
    ) -> (r: Result<Value, LispComputerError>)
        requires
            env_wf(old(env)@),
            (scope as int) < old(env)@.parents.len(),
        ensures
            ({
                let step = and_fold_spec(
                    exprs_v(args@),
                    old(env)@,
                    scope as int,
                    fuel as nat,
                    ValueS::Boolean(true),
                );
                final(env)@ == step.env && out_v(r) == step.out
            }),
            env_wf(final(env)@),
            old(env)@.parents.len() <= final(env)@.parents.len(),
            result_wf(r, final(env)@),
        decreases fuel, lsize(exprs_v(args@)), 4int,
    {
        and_fold(args, env, scope, fuel, Value::Boolean(true))
    }

    pub fn name(&self) -> (r: &'static str)
        ensures
            r@ == "and"@,
    {
        "and"
    }
}

/// The `cond` special form: `(test result)` clauses tried left to right,
/// with `else` taking its result when reached and `false` when nothing
/// matches.
pub struct CondProcessor;

impl CondProcessor {
    pub fn process(
        &self,
        args: &[Expression],
        env: &mut Environment,
        scope: usize,
        fuel: u64,
    ) -> (r: Result<Value, LispComputerError>)
        requires
            env_wf(old(env)@),
            (scope as int) < old(env)@.parents.len(),
        ensures
            ({
                let step = cond_fold_spec(
                    exprs_v(args@),
                    exprs_v(args@),
                    old(env)@,
                    scope as int,
                    fuel as nat,
                );
                final(env)@ == step.env && out_v(r) == step.out
            }),
            env_wf(final(env)@),
            old(env)@.parents.len() <= final(env)@.parents.len(),
            result_wf(r, final(env)@),
        decreases fuel, lsize(exprs_v(args@)), 4int,
    {
        cond_fold(args, args, env, scope, fuel)
    }

    pub fn name(&self) -> (r: &'static str)
        ensures
            r@ == "cond"@,
    {
        "cond"
    }
}

/// The `define` special form: bind a name to an evaluated value, or a
/// function head to a new closure, in the current scope.
pub struct DefineProcessor;

impl DefineProcessor {
    pub fn process(
        &self,
        args: &[Expression],
        env: &mut Environment,
        scope: usize,
        fuel: u64,
    ) -> (r: Result<Value, LispComputerError>)
        requires
            env_wf(old(env)@),
            (scope as int) < old(env)@.parents.len(),
        ensures
            ({
                let step = define_form_spec(exprs_v(args@), old(env)@, scope as int, fuel as nat);
                final(env)@ == step.env && out_v(r) == step.out
            }),
            env_wf(final(env)@),
            old(env)@.parents.len() <= final(env)@.parents.len(),
            result_wf(r, final(env)@),
        decreases fuel, lsize(exprs_v(args@)), 4int,
    {
        proof {
            lemma_exprs_v_len(args@);
        }
        if args.len() != 2 {
            return Err(
                LispComputerError::InvalidArguments("define".to_owned(), dup_exprs(args)),
            );
        }
        proof {
            crate::parse::lemma_exprs_v_index(args@, 0);
            crate::parse::lemma_exprs_v_index(args@, 1);
            lemma_lsize_member(exprs_v(args@), 1);
        }
        match (&args[0], &args[1]) {
            (Expression::Variable(name), _) => match args[1].eval(env, scope, fuel) {
                Err(e) => Err(e),
                Ok(v) => {
                    env.define(scope, name.clone(), v);
                    Ok(Value::Nil)
                }
            },
            (Expression::List(ps), Expression::List(body)) => {
                proof {
                    lemma_exprs_v_len(ps@);
                }
                if ps.len() >= 1 {
                    proof {
                        lemma_exprs_v_drop(ps@);
                        assert(ps@.subrange(1, ps@.len() as int) =~= ps@.drop_first());
                    }
                    match &ps[0] {
                        Expression::Variable(fname) => match extract_params(&ps[1..ps.len()]) {
                            Some(names) => {
                                let lam = Lambda::new(names, dup_exprs(body.as_slice()), scope);
                                env.define(scope, fname.clone(), Value::Lambda(lam));
                                Ok(Value::Nil)
                            }
                            None => Err(
                                LispComputerError::InvalidArguments(
                                    "lambda-params".to_owned(),
                                    dup_exprs(ps.as_slice()),
                                ),
                            ),
                        },
                        _ => Err(
                            LispComputerError::InvalidArguments(
                                "define".to_owned(),
                                dup_exprs(args),
                            ),
                        ),
                    }
                } else {
                    Err(
                        LispComputerError::InvalidArguments("define".to_owned(), dup_exprs(args)),
                    )
                }
            }
            _ => Err(LispComputerError::InvalidArguments("define".to_owned(), dup_exprs(args))),
        }
    }

    pub fn name(&self) -> (r: &'static str)
        ensures
            r@ == "define"@,
    {
        "define"
    }
}

/// The `lambda` special form: a parameter list of symbols and a list body;
/// the closure captures the current scope.
pub struct LambdaProcessor;

impl LambdaProcessor {
    pub fn process(
        &self,
        args: &[Expression],
        env: &mut Environment,
        scope: usize,
        fuel: u64,
    ) -> (r: Result<Value, LispComputerError>)
        requires
            env_wf(old(env)@),
            (scope as int) < old(env)@.parents.len(),
        ensures
            final(env)@ == old(env)@,
            ({
                let out = lambda_form_spec(exprs_v(args@), scope as int);
                out_v(r) == out
            }),
            env_wf(final(env)@),
            result_wf(r, final(env)@),
        decreases fuel, lsize(exprs_v(args@)), 4int,
    {
        proof {
            lemma_exprs_v_len(args@);
        }
        if args.len() != 2 {
            return Err(
                LispComputerError::InvalidArguments("lambda".to_owned(), dup_exprs(args)),
            );
        }
        proof {
            crate::parse::lemma_exprs_v_index(args@, 0);
            crate::parse::lemma_exprs_v_index(args@, 1);
        }
        match (&args[0], &args[1]) {
            (Expression::List(ps), Expression::List(body)) => match extract_params(
                ps.as_slice(),
            ) {
                Some(names) => Ok(
                    Value::Lambda(Lambda::new(names, dup_exprs(body.as_slice()), scope)),
                ),
                None => Err(
                    LispComputerError::InvalidArguments(
                        "lambda-params".to_owned(),
                        dup_exprs(ps.as_slice()),
                    ),
                ),
            },
            _ => Err(LispComputerError::InvalidArguments("lambda".to_owned(), dup_exprs(args))),
        }
    }

    pub fn name(&self) -> (r: &'static str)
        ensures
            r@ == "lambda"@,
    {
        "lambda"
    }
}

/// The `let` special form: bindings evaluated in the outer scope, the body
/// in a fresh child scope holding them all.
pub struct LetProcessor;

impl LetProcessor {
    pub fn process(
        &self,
        args: &[Expression],
        env: &mut Environment,
        scope: usize,
        fuel: u64,
    ) -> (r: Result<Value, LispComputerError>)
        requires
            env_wf(old(env)@),
            (scope as int) < old(env)@.parents.len(),
        ensures
            ({
                let step = let_form_spec(exprs_v(args@), old(env)@, scope as int, fuel as nat);
                final(env)@ == step.env && out_v(r) == step.out
            }),
            env_wf(final(env)@),
            old(env)@.parents.len() <= final(env)@.parents.len(),
            result_wf(r, final(env)@),
        decreases fuel, lsize(exprs_v(args@)), 5int,
    {
        proof {
            lemma_exprs_v_len(args@);
        }
        if args.len() != 2 {
            return Err(LispComputerError::InvalidArguments("let".to_owned(), dup_exprs(args)));
        }
        proof {
            crate::parse::lemma_exprs_v_index(args@, 0);
            crate::parse::lemma_exprs_v_index(args@, 1);
            lemma_lsize_member(exprs_v(args@), 0);
            lemma_lsize_member(exprs_v(args@), 1);
        }
        match &args[0] {
            Expression::List(bindings) => {
                proof {
                    lemma_lsize_member(exprs_v(args@), 0);
                }
                let pairs = match let_binds(bindings.as_slice(), bindings.as_slice(), env, scope, fuel) {
                    Err(e) => {
                        return Err(e);
                    }
                    Ok(ps) => ps,
                };
                let child = env.push_scope(scope);
                let ghost pre_bind = env@;
                let ghost pairsv = pairs_v(pairs@);
                proof {
                    assert(pairsv.skip(0) =~= pairsv);
                }
                let mut i: usize = 0;
                while i < pairs.len()
                    invariant
                        env_wf(env@),
                        (child as int) < env@.parents.len(),
                        env@.parents.len() == pre_bind.parents.len(),
                        i <= pairs@.len(),
                        pairsv == pairs_v(pairs@),
                        pairsv.len() == pairs@.len(),
                        forall|k: int| 0 <= k < pairs@.len() ==> value_wf(
                            #[trigger] pairs@[k].1@,
                            env@.parents.len() as int,
                        ),
                        bind_pairs(pre_bind, child as int, pairsv) == bind_pairs(
                            env@,
                            child as int,
                            pairsv.skip(i as int),
                        ),
                    decreases pairs@.len() - i,
                {
                    proof {
                        assert(pairsv.skip(i as int).first() == pairsv[i as int]);
                        assert(pairsv[i as int] == (pairs@[i as int].0@, pairs@[i as int].1@));
                        assert(pairsv.skip(i as int).drop_first() =~= pairsv.skip(i as int + 1));
                    }
                    let name = pairs[i].0.clone();
                    let value = pairs[i].1.duplicate();
                    env.define(child, name, value);
                    i = i + 1;
                }
                proof {
                    assert(pairsv.skip(pairsv.len() as int) =~= Seq::<(Seq<char>, ValueS)>::empty());
                    assert(env@ == bind_pairs(pre_bind, child as int, pairsv));
                }
                args[1].eval(env, child, fuel)
            }
            _ => Err(LispComputerError::InvalidArguments("let".to_owned(), dup_exprs(args))),
        }
    }

    pub fn name(&self) -> (r: &'static str)
        ensures
            r@ == "let"@,
    {
        "let"
    }
}

} // verus!
