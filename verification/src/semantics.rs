//! The mathematical interpreter: what evaluating an expression means.
//!
//! Every function here is a pure, total definition over the models of the
//! expression tree, the value, and the environment. The executable evaluator
//! in `crate::process` is proved to return exactly what these functions say,
//! step for step: the pair of the environment after the step and the outcome.
//! A `fuel` budget bounds the depth of closure calls; everything else recurses
//! over the expression structure.

use vstd::prelude::*;

verus! {

use crate::environment::{EnvS, define_spec, lookup_spec, push_scope_spec};
use crate::errors::ErrS;
use crate::numerics::{add_text, div_text, eq_text, le_text, lt_text, mul_text, sub_text};
use crate::parse::{ExprS, esize, lemma_lsize_member, lsize};
use crate::value::{LambdaS, ValueS, truthy};

/// One evaluation step: the environment it leaves behind, and its outcome.
#[verifier::ext_equal]
pub struct StepS {
    pub env: EnvS,
    pub out: Result<ValueS, ErrS>,
}

/// The comparison operators that chain over numbers.
#[derive(Clone, Copy, PartialEq, Eq, Debug)]
pub enum CmpOp {
    Gt,
    Lt,
    Ge,
    Le,
}

pub open spec fn cmp_name(op: CmpOp) -> Seq<char> {
    match op {
        CmpOp::Gt => ">"@,
        CmpOp::Lt => "<"@,
        CmpOp::Ge => ">="@,
        CmpOp::Le => "<="@,
    }
}

/// Whether one adjacent pair is in order for the operator, under the
/// floating-point order of the texts.
pub open spec fn cmp_pair_ok(op: CmpOp, a: Seq<char>, b: Seq<char>) -> bool {
    match op {
        CmpOp::Gt => !le_text(a, b),
        CmpOp::Lt => !le_text(b, a),
        CmpOp::Ge => !lt_text(a, b),
        CmpOp::Le => !lt_text(b, a),
    }
}

/// Whether every adjacent pair of the evaluated numbers is in order.
pub open spec fn chain_ok(op: CmpOp, ts: Seq<Seq<char>>) -> bool
    decreases ts.len(),
{
    if ts.len() < 2 {
        true
    } else {
        cmp_pair_ok(op, ts[0], ts[1]) && chain_ok(op, ts.drop_first())
    }
}

/// Structural equality of values, with numbers compared as floating-point
/// values (so two canonical texts are equal exactly when the values they
/// denote are).
pub open spec fn values_equal(a: ValueS, b: ValueS) -> bool {
    match (a, b) {
        (ValueS::Number(x), ValueS::Number(y)) => eq_text(x, y),
        (ValueS::String(x), ValueS::String(y)) => x == y,
        (ValueS::Boolean(x), ValueS::Boolean(y)) => x == y,
        (ValueS::Nil, ValueS::Nil) => true,
        (ValueS::Lambda(x), ValueS::Lambda(y)) => x == y,
        _ => false,
    }
}

/// Whether all evaluated arguments are pairwise equal.
pub open spec fn all_equal(vs: Seq<ValueS>) -> bool
    decreases vs.len(),
{
    if vs.len() < 2 {
        true
    } else {
        values_equal(vs[0], vs[1]) && all_equal(vs.drop_first())
    }
}

/// The parameter names of a lambda form: every element must be a symbol.
pub open spec fn param_names(ps: Seq<ExprS>) -> Option<Seq<Seq<char>>>
    decreases ps.len(),
{
    if ps.len() == 0 {
        Some(Seq::empty())
    } else {
        match ps.first() {
            ExprS::Variable(n) => match param_names(ps.drop_first()) {
                Some(rest) => Some(seq![n] + rest),
                None => None,
            },
            _ => None,
        }
    }
}

/// Bind parameter names to argument values, in order, in scope `scope`;
/// a repeated name leaves the later binding visible.
pub open spec fn bind_params(
    env: EnvS,
    scope: int,
    names: Seq<Seq<char>>,
    vals: Seq<ValueS>,
) -> EnvS
    decreases names.len(),
{
    if names.len() == 0 || vals.len() == 0 {
        env
    } else {
        bind_params(
            define_spec(env, scope, names.first(), vals.first()),
            scope,
            names.drop_first(),
            vals.drop_first(),
        )
    }
}

/// Evaluate one expression.
pub open spec fn eval_spec(e: ExprS, env: EnvS, scope: int, fuel: nat) -> StepS
    decreases fuel, esize(e), 1int,
{
    match e {
        ExprS::Number(t) => StepS { env, out: Ok(ValueS::Number(t)) },
        ExprS::String(t) => StepS { env, out: Ok(ValueS::String(t)) },
        ExprS::Variable(n) => match lookup_spec(env, scope, n) {
            Some(v) => StepS { env, out: Ok(v) },
            None => StepS { env, out: Err(ErrS::NotFoundVariable(n)) },
        },
        ExprS::List(items) => eval_list_spec(items, env, scope, fuel),
    }
}

/// Evaluate a list form: nil for the empty list, the single-number shortcut,
/// special-form or closure dispatch on a symbol head, and the
/// resolve-then-apply protocol on any other head.
pub open spec fn eval_list_spec(items: Seq<ExprS>, env: EnvS, scope: int, fuel: nat) -> StepS
    decreases fuel, lsize(items), 5int,
    via eval_list_spec_decreases
{
    if items.len() == 0 {
        StepS { env, out: Ok(ValueS::Nil) }
    } else {
        match items[0] {
            ExprS::Number(t) => if items.len() == 1 {
                StepS { env, out: Ok(ValueS::Number(t)) }
            } else {
                head_apply_spec(items, env, scope, fuel)
            },
            ExprS::Variable(sym) => dispatch_spec(sym, items.drop_first(), env, scope, fuel),
            _ => head_apply_spec(items, env, scope, fuel),
        }
    }
}

#[via_fn]
proof fn eval_list_spec_decreases(items: Seq<ExprS>, env: EnvS, scope: int, fuel: nat) {
    if items.len() > 0 {
        crate::parse::lemma_lsize_drop(items);
    }
}

/// Evaluate the head, then apply it as a closure to the rest; a head value
/// that is no closure is a type mismatch for `apply`.
pub open spec fn head_apply_spec(items: Seq<ExprS>, env: EnvS, scope: int, fuel: nat) -> StepS
    decreases fuel, lsize(items), 4int,
    via head_apply_spec_decreases
{
    if items.len() == 0 {
        StepS { env, out: Ok(ValueS::Nil) }
    } else {
        let head = eval_spec(items[0], env, scope, fuel);
        match head.out {
            Err(e) => head,
            Ok(ValueS::Lambda(l)) => apply_spec(l, items.drop_first(), head.env, scope, fuel),
            Ok(v) => StepS {
                env: head.env,
                out: Err(ErrS::TypeMismatch1 { operation: "apply"@, left: v }),
            },
        }
    }
}

#[via_fn]
proof fn head_apply_spec_decreases(items: Seq<ExprS>, env: EnvS, scope: int, fuel: nat) {
    if items.len() > 0 {
        lemma_lsize_member(items, 0);
        crate::parse::lemma_lsize_drop(items);
    }
}

/// Resolve a symbol head: one of the fixed special forms, else a bound
/// closure, else unbound.
pub open spec fn dispatch_spec(
    sym: Seq<char>,
    args: Seq<ExprS>,
    env: EnvS,
    scope: int,
    fuel: nat,
) -> StepS
    decreases fuel, lsize(args), 6int,
{
    if sym == "+"@ {
        add_fold_spec(args, env, scope, fuel, "0"@, ""@)
    } else if sym == "-"@ {
        arith_entry_spec(false, args, env, scope, fuel)
    } else if sym == "*"@ {
        mul_fold_spec(args, env, scope, fuel, "1"@)
    } else if sym == "/"@ {
        arith_entry_spec(true, args, env, scope, fuel)
    } else if sym == "define"@ {
        define_form_spec(args, env, scope, fuel)
    } else if sym == "lambda"@ {
        StepS { env, out: lambda_form_spec(args, scope) }
    } else if sym == "="@ {
        equal_form_spec(args, env, scope, fuel)
    } else if sym == "if"@ {
        if_form_spec(args, env, scope, fuel)
    } else if sym == ">"@ {
        compare_form_spec(CmpOp::Gt, args, env, scope, fuel)
    } else if sym == "<"@ {
        compare_form_spec(CmpOp::Lt, args, env, scope, fuel)
    } else if sym == ">="@ {
        compare_form_spec(CmpOp::Ge, args, env, scope, fuel)
    } else if sym == "<="@ {
        compare_form_spec(CmpOp::Le, args, env, scope, fuel)
    } else if sym == "or"@ {
        or_fold_spec(args, env, scope, fuel, ValueS::Boolean(false))
    } else if sym == "and"@ {
        and_fold_spec(args, env, scope, fuel, ValueS::Boolean(true))
    } else if sym == "cond"@ {
        cond_fold_spec(args, args, env, scope, fuel)
    } else if sym == "let"@ {
        let_form_spec(args, env, scope, fuel)
    } else {
        match lookup_spec(env, scope, sym) {
            Some(ValueS::Lambda(l)) => apply_spec(l, args, env, scope, fuel),
            _ => StepS { env, out: Err(ErrS::UnboundFunction(sym)) },
        }
    }
}

/// The closure-call protocol: exact arity, then the arguments evaluated
/// eagerly in the caller's scope, then the body evaluated in a fresh child of
/// the closure's captured scope, one call-depth unit deeper.
pub open spec fn apply_spec(l: LambdaS, args: Seq<ExprS>, env: EnvS, scope: int, fuel: nat) -> StepS
    decreases fuel, lsize(args), 3int,
{
    if args.len() != l.params.len() {
        StepS {
            env,
            out: Err(ErrS::ArityMismatch("lambda-function"@, l.params.len() as int, args.len() as int)),
        }
    } else if fuel == 0 {
        StepS { env, out: Err(ErrS::RecursionLimit) }
    } else {
        let evaluated = eval_args_spec(args, env, scope, fuel);
        match evaluated.1 {
            Err(e) => StepS { env: evaluated.0, out: Err(e) },
            Ok(vals) => {
                let child = evaluated.0.parents.len() as int;
                let env2 = bind_params(
                    push_scope_spec(evaluated.0, l.captured),
                    child,
                    l.params,
                    vals,
                );
                eval_list_spec(l.body, env2, child, (fuel - 1) as nat)
            }
        }
    }
}

/// Evaluate arguments left to right; the first error aborts.
pub open spec fn eval_args_spec(args: Seq<ExprS>, env: EnvS, scope: int, fuel: nat) -> (
    EnvS,
    Result<Seq<ValueS>, ErrS>,
)
    decreases fuel, lsize(args), 2int,
    via eval_args_spec_decreases
{
    if args.len() == 0 {
        (env, Ok(Seq::empty()))
    } else {
        let head = eval_spec(args[0], env, scope, fuel);
        match head.out {
            Err(e) => (head.env, Err(e)),
            Ok(v) => match eval_args_spec(args.drop_first(), head.env, scope, fuel) {
                (env2, Err(e)) => (env2, Err(e)),
                (env2, Ok(rest)) => (env2, Ok(seq![v] + rest)),
            },
        }
    }
}

#[via_fn]
proof fn eval_args_spec_decreases(args: Seq<ExprS>, env: EnvS, scope: int, fuel: nat) {
    if args.len() > 0 {
        lemma_lsize_member(args, 0);
        crate::parse::lemma_lsize_drop(args);
    }
}

/// Evaluate arguments left to right, each required to be a number; the first
/// error or non-number aborts.
pub open spec fn eval_nums_spec(
    opname: Seq<char>,
    args: Seq<ExprS>,
    env: EnvS,
    scope: int,
    fuel: nat,
) -> (EnvS, Result<Seq<Seq<char>>, ErrS>)
    decreases fuel, lsize(args), 2int,
    via eval_nums_spec_decreases
{
    if args.len() == 0 {
        (env, Ok(Seq::empty()))
    } else {
        let head = eval_spec(args[0], env, scope, fuel);
        match head.out {
            Err(e) => (head.env, Err(e)),
            Ok(ValueS::Number(t)) => match eval_nums_spec(
                opname,
                args.drop_first(),
                head.env,
                scope,
                fuel,
            ) {
                (env2, Err(e)) => (env2, Err(e)),
                (env2, Ok(rest)) => (env2, Ok(seq![t] + rest)),
            },
            Ok(v) => (head.env, Err(ErrS::TypeMismatch1 { operation: opname, left: v })),
        }
    }
}

#[via_fn]
proof fn eval_nums_spec_decreases(
    opname: Seq<char>,
    args: Seq<ExprS>,
    env: EnvS,
    scope: int,
    fuel: nat,
) {
    if args.len() > 0 {
        lemma_lsize_member(args, 0);
        crate::parse::lemma_lsize_drop(args);
    }
}

/// The `+` form: numbers sum, strings concatenate, and the two kinds mix only
/// while the sum is still zero (for strings after numbers) or the string
/// accumulator is still empty (for numbers after strings); any other value is
/// a type mismatch.
pub open spec fn add_fold_spec(
    args: Seq<ExprS>,
    env: EnvS,
    scope: int,
    fuel: nat,
    sum: Seq<char>,
    acc: Seq<char>,
) -> StepS
    decreases fuel, lsize(args), 3int,
    via add_fold_spec_decreases
{
    if args.len() == 0 {
        StepS {
            env,
            out: Ok(
                if acc.len() > 0 {
                    ValueS::String(acc)
                } else {
                    ValueS::Number(sum)
                },
            ),
        }
    } else {
        let head = eval_spec(args[0], env, scope, fuel);
        match head.out {
            Err(e) => StepS { env: head.env, out: Err(e) },
            Ok(ValueS::Number(t)) => if acc.len() == 0 {
                add_fold_spec(args.drop_first(), head.env, scope, fuel, add_text(sum, t), acc)
            } else {
                StepS {
                    env: head.env,
                    out: Err(ErrS::TypeMismatch2 {
                        operation: "+"@,
                        left: ValueS::String(acc),
                        right: ValueS::Number(t),
                    }),
                }
            },
            Ok(ValueS::String(x)) => if eq_text(sum, "0"@) {
                add_fold_spec(args.drop_first(), head.env, scope, fuel, sum, acc + x)
            } else {
                StepS {
                    env: head.env,
                    out: Err(ErrS::TypeMismatch2 {
                        operation: "+"@,
                        left: ValueS::Number(sum),
                        right: ValueS::String(x),
                    }),
                }
            },
            Ok(v) => StepS {
                env: head.env,
                out: Err(ErrS::TypeMismatch1 { operation: "+"@, left: v }),
            },
        }
    }
}

#[via_fn]
proof fn add_fold_spec_decreases(
    args: Seq<ExprS>,
    env: EnvS,
    scope: int,
    fuel: nat,
    sum: Seq<char>,
    acc: Seq<char>,
) {
    if args.len() > 0 {
        lemma_lsize_member(args, 0);
        crate::parse::lemma_lsize_drop(args);
    }
}

/// The `*` form: the product of the arguments, every one a number.
pub open spec fn mul_fold_spec(
    args: Seq<ExprS>,
    env: EnvS,
    scope: int,
    fuel: nat,
    acc: Seq<char>,
) -> StepS
    decreases fuel, lsize(args), 3int,
    via mul_fold_spec_decreases
{
    if args.len() == 0 {
        StepS { env, out: Ok(ValueS::Number(acc)) }
    } else {
        let head = eval_spec(args[0], env, scope, fuel);
        match head.out {
            Err(e) => StepS { env: head.env, out: Err(e) },
            Ok(ValueS::Number(t)) => mul_fold_spec(
                args.drop_first(),
                head.env,
                scope,
                fuel,
                mul_text(acc, t),
            ),
            Ok(v) => StepS {
                env: head.env,
                out: Err(ErrS::TypeMismatch1 { operation: "*"@, left: v }),
            },
        }
    }
}

#[via_fn]
proof fn mul_fold_spec_decreases(
    args: Seq<ExprS>,
    env: EnvS,
    scope: int,
    fuel: nat,
    acc: Seq<char>,
) {
    if args.len() > 0 {
        lemma_lsize_member(args, 0);
        crate::parse::lemma_lsize_drop(args);
    }
}

/// The entry of `-` and `/`: the first argument seeds the accumulator and
/// must be a number; with no arguments the operand at fault is nil.
pub open spec fn arith_entry_spec(
    is_div: bool,
    args: Seq<ExprS>,
    env: EnvS,
    scope: int,
    fuel: nat,
) -> StepS
    decreases fuel, lsize(args), 4int,
    via arith_entry_spec_decreases
{
    let opname = if is_div { "/"@ } else { "-"@ };
    if args.len() == 0 {
        StepS { env, out: Err(ErrS::TypeMismatch1 { operation: opname, left: ValueS::Nil }) }
    } else {
        let head = eval_spec(args[0], env, scope, fuel);
        match head.out {
            Err(e) => StepS { env: head.env, out: Err(e) },
            Ok(ValueS::Number(t)) => arith_fold_spec(
                is_div,
                args.drop_first(),
                head.env,
                scope,
                fuel,
                t,
            ),
            Ok(v) => StepS {
                env: head.env,
                out: Err(ErrS::TypeMismatch1 { operation: opname, left: v }),
            },
        }
    }
}

#[via_fn]
proof fn arith_entry_spec_decreases(
    is_div: bool,
    args: Seq<ExprS>,
    env: EnvS,
    scope: int,
    fuel: nat,
) {
    if args.len() > 0 {
        lemma_lsize_member(args, 0);
        crate::parse::lemma_lsize_drop(args);
    }
}

/// The tail of `-` and `/`: fold the remaining arguments into the
/// accumulator; `-` reports a lone mismatched operand, `/` reports the
/// accumulator beside it.
pub open spec fn arith_fold_spec(
    is_div: bool,
    args: Seq<ExprS>,
    env: EnvS,
    scope: int,
    fuel: nat,
    acc: Seq<char>,
) -> StepS
    decreases fuel, lsize(args), 3int,
    via arith_fold_spec_decreases
{
    if args.len() == 0 {
        StepS { env, out: Ok(ValueS::Number(acc)) }
    } else {
        let head = eval_spec(args[0], env, scope, fuel);
        match head.out {
            Err(e) => StepS { env: head.env, out: Err(e) },
            Ok(ValueS::Number(t)) => arith_fold_spec(
                is_div,
                args.drop_first(),
                head.env,
                scope,
                fuel,
                if is_div {
                    div_text(acc, t)
                } else {
                    sub_text(acc, t)
                },
            ),
            Ok(v) => StepS {
                env: head.env,
                out: Err(
                    if is_div {
                        ErrS::TypeMismatch2 {
                            operation: "/"@,
                            left: ValueS::Number(acc),
                            right: v,
                        }
                    } else {
                        ErrS::TypeMismatch1 { operation: "-"@, left: v }
                    },
                ),
            },
        }
    }
}

#[via_fn]
proof fn arith_fold_spec_decreases(
    is_div: bool,
    args: Seq<ExprS>,
    env: EnvS,
    scope: int,
    fuel: nat,
    acc: Seq<char>,
) {
    if args.len() > 0 {
        lemma_lsize_member(args, 0);
        crate::parse::lemma_lsize_drop(args);
    }
}

/// The `=` form: at least two arguments, all evaluated, pairwise equal.
pub open spec fn equal_form_spec(args: Seq<ExprS>, env: EnvS, scope: int, fuel: nat) -> StepS
    decreases fuel, lsize(args), 3int,
{
    if args.len() < 2 {
        StepS { env, out: Err(ErrS::ArityMismatch("="@, 2, args.len() as int)) }
    } else {
        let evaluated = eval_args_spec(args, env, scope, fuel);
        match evaluated.1 {
            Err(e) => StepS { env: evaluated.0, out: Err(e) },
            Ok(vs) => StepS { env: evaluated.0, out: Ok(ValueS::Boolean(all_equal(vs))) },
        }
    }
}

/// The comparison forms: fewer than two arguments is an arity mismatch; the
/// arguments are evaluated as numbers and every adjacent pair must be in
/// order.
pub open spec fn compare_form_spec(
    op: CmpOp,
    args: Seq<ExprS>,
    env: EnvS,
    scope: int,
    fuel: nat,
) -> StepS
    decreases fuel, lsize(args), 3int,
{
    if args.len() < 2 {
        StepS { env, out: Err(ErrS::ArityMismatch(cmp_name(op), 2, args.len() as int)) }
    } else {
        let evaluated = eval_nums_spec(cmp_name(op), args, env, scope, fuel);
        match evaluated.1 {
            Err(e) => StepS { env: evaluated.0, out: Err(e) },
            Ok(ts) => StepS { env: evaluated.0, out: Ok(ValueS::Boolean(chain_ok(op, ts))) },
        }
    }
}

/// The `if` form: exactly three arguments; the condition always, then only
/// the taken branch.
pub open spec fn if_form_spec(args: Seq<ExprS>, env: EnvS, scope: int, fuel: nat) -> StepS
    decreases fuel, lsize(args), 3int,
    via if_form_spec_decreases
{
    if args.len() != 3 {
        StepS { env, out: Err(ErrS::ArityMismatch("if"@, 3, args.len() as int)) }
    } else {
        let cond = eval_spec(args[0], env, scope, fuel);
        match cond.out {
            Err(e) => StepS { env: cond.env, out: Err(e) },
            Ok(v) => if truthy(v) {
                eval_spec(args[1], cond.env, scope, fuel)
            } else {
                eval_spec(args[2], cond.env, scope, fuel)
            },
        }
    }
}

#[via_fn]
proof fn if_form_spec_decreases(args: Seq<ExprS>, env: EnvS, scope: int, fuel: nat) {
    if args.len() == 3 {
        lemma_lsize_member(args, 0);
        lemma_lsize_member(args, 1);
        lemma_lsize_member(args, 2);
    }
}

/// The `or` form: evaluate left to right, stopping at the first truthy value;
/// otherwise the last value, `false` when there is none.
pub open spec fn or_fold_spec(
    args: Seq<ExprS>,
    env: EnvS,
    scope: int,
    fuel: nat,
    last: ValueS,
) -> StepS
    decreases fuel, lsize(args), 3int,
    via or_fold_spec_decreases
{
    if args.len() == 0 {
        StepS { env, out: Ok(last) }
    } else {
        let head = eval_spec(args[0], env, scope, fuel);
        match head.out {
            Err(e) => StepS { env: head.env, out: Err(e) },
            Ok(v) => if truthy(v) {
                StepS { env: head.env, out: Ok(v) }
            } else {
                or_fold_spec(args.drop_first(), head.env, scope, fuel, v)
            },
        }
    }
}

#[via_fn]
proof fn or_fold_spec_decreases(args: Seq<ExprS>, env: EnvS, scope: int, fuel: nat, last: ValueS) {
    if args.len() > 0 {
        lemma_lsize_member(args, 0);
        crate::parse::lemma_lsize_drop(args);
    }
}

/// The `and` form: evaluate left to right, stopping at the first falsy value;
/// otherwise the last value, `true` when there is none.
pub open spec fn and_fold_spec(
    args: Seq<ExprS>,
    env: EnvS,
    scope: int,
    fuel: nat,
    last: ValueS,
) -> StepS
    decreases fuel, lsize(args), 3int,
    via and_fold_spec_decreases
{
    if args.len() == 0 {
        StepS { env, out: Ok(last) }
    } else {
        let head = eval_spec(args[0], env, scope, fuel);
        match head.out {
            Err(e) => StepS { env: head.env, out: Err(e) },
            Ok(v) => if !truthy(v) {
                StepS { env: head.env, out: Ok(v) }
            } else {
                and_fold_spec(args.drop_first(), head.env, scope, fuel, v)
            },
        }
    }
}

#[via_fn]
proof fn and_fold_spec_decreases(args: Seq<ExprS>, env: EnvS, scope: int, fuel: nat, last: ValueS) {
    if args.len() > 0 {
        lemma_lsize_member(args, 0);
        crate::parse::lemma_lsize_drop(args);
    }
}

/// The `cond` form: clauses of the shape `(test result)` tried left to
/// right; an `else` clause takes its result when reached; no matching clause
/// yields `false`; a clause of any other shape is invalid, reported with the
/// whole argument list.
pub open spec fn cond_fold_spec(
    clauses: Seq<ExprS>,
    all: Seq<ExprS>,
    env: EnvS,
    scope: int,
    fuel: nat,
) -> StepS
    decreases fuel, lsize(clauses), 3int,
    via cond_fold_spec_decreases
{
    if clauses.len() == 0 {
        StepS { env, out: Ok(ValueS::Boolean(false)) }
    } else {
        match clauses[0] {
            ExprS::List(inner) => if inner.len() == 2 {
                if inner[0] == ExprS::Variable("else"@) {
                    eval_spec(inner[1], env, scope, fuel)
                } else {
                    let test = eval_spec(inner[0], env, scope, fuel);
                    match test.out {
                        Err(e) => StepS { env: test.env, out: Err(e) },
                        Ok(v) => if truthy(v) {
                            eval_spec(inner[1], test.env, scope, fuel)
                        } else {
                            cond_fold_spec(clauses.drop_first(), all, test.env, scope, fuel)
                        },
                    }
                }
            } else {
                StepS { env, out: Err(ErrS::InvalidArguments("cond"@, all)) }
            },
            _ => StepS { env, out: Err(ErrS::InvalidArguments("cond"@, all)) },
        }
    }
}

#[via_fn]
proof fn cond_fold_spec_decreases(
    clauses: Seq<ExprS>,
    all: Seq<ExprS>,
    env: EnvS,
    scope: int,
    fuel: nat,
) {
    if clauses.len() > 0 {
        lemma_lsize_member(clauses, 0);
        crate::parse::lemma_lsize_drop(clauses);
        match clauses[0] {
            ExprS::List(inner) => {
                if inner.len() == 2 {
                    lemma_lsize_member(inner, 0);
                    lemma_lsize_member(inner, 1);
                }
            }
            _ => {}
        }
    }
}

/// The `lambda` form: a parameter list of symbols and a list body; the
/// closure captures the current scope. Nothing is evaluated.
pub open spec fn lambda_form_spec(args: Seq<ExprS>, scope: int) -> Result<ValueS, ErrS> {
    if args.len() == 2 {
        match (args[0], args[1]) {
            (ExprS::List(ps), ExprS::List(body)) => match param_names(ps) {
                Some(names) => Ok(
                    ValueS::Lambda(LambdaS { params: names, body, captured: scope }),
                ),
                None => Err(ErrS::InvalidArguments("lambda-params"@, ps)),
            },
            _ => Err(ErrS::InvalidArguments("lambda"@, args)),
        }
    } else {
        Err(ErrS::InvalidArguments("lambda"@, args))
    }
}

/// The `define` form. The variable form evaluates its expression and binds
/// the name in the current scope; the function form binds the name to a new
/// closure capturing the current scope; both return nil.
pub open spec fn define_form_spec(args: Seq<ExprS>, env: EnvS, scope: int, fuel: nat) -> StepS
    decreases fuel, lsize(args), 3int,
    via define_form_spec_decreases
{
    if args.len() == 2 {
        match (args[0], args[1]) {
            (ExprS::Variable(name), _) => {
                let step = eval_spec(args[1], env, scope, fuel);
                match step.out {
                    Err(e) => StepS { env: step.env, out: Err(e) },
                    Ok(v) => StepS {
                        env: define_spec(step.env, scope, name, v),
                        out: Ok(ValueS::Nil),
                    },
                }
            }
            (ExprS::List(ps), ExprS::List(body)) => if ps.len() >= 1 {
                match ps[0] {
                    ExprS::Variable(fname) => match param_names(ps.drop_first()) {
                        Some(names) => StepS {
                            env: define_spec(
                                env,
                                scope,
                                fname,
                                ValueS::Lambda(LambdaS { params: names, body, captured: scope }),
                            ),
                            out: Ok(ValueS::Nil),
                        },
                        None => StepS {
                            env,
                            out: Err(ErrS::InvalidArguments("lambda-params"@, ps)),
                        },
                    },
                    _ => StepS { env, out: Err(ErrS::InvalidArguments("define"@, args)) },
                }
            } else {
                StepS { env, out: Err(ErrS::InvalidArguments("define"@, args)) }
            },
            _ => StepS { env, out: Err(ErrS::InvalidArguments("define"@, args)) },
        }
    } else {
        StepS { env, out: Err(ErrS::InvalidArguments("define"@, args)) }
    }
}

#[via_fn]
proof fn define_form_spec_decreases(args: Seq<ExprS>, env: EnvS, scope: int, fuel: nat) {
    if args.len() == 2 {
        lemma_lsize_member(args, 1);
    }
}

/// The bindings of a `let` form: each `(name expression)` pair evaluated in
/// the outer scope, so the bindings cannot see each other.
pub open spec fn let_binds_spec(
    bindings: Seq<ExprS>,
    all: Seq<ExprS>,
    env: EnvS,
    scope: int,
    fuel: nat,
) -> (EnvS, Result<Seq<(Seq<char>, ValueS)>, ErrS>)
    decreases fuel, lsize(bindings), 3int,
    via let_binds_spec_decreases
{
    if bindings.len() == 0 {
        (env, Ok(Seq::empty()))
    } else {
        match bindings[0] {
            ExprS::List(inner) => {
                if inner.len() == 2 {
                    match inner[0] {
                        ExprS::Variable(name) => {
                            let step = eval_spec(inner[1], env, scope, fuel);
                            match step.out {
                                Err(e) => (step.env, Err(e)),
                                Ok(v) => match let_binds_spec(
                                    bindings.drop_first(),
                                    all,
                                    step.env,
                                    scope,
                                    fuel,
                                ) {
                                    (env2, Err(e)) => (env2, Err(e)),
                                    (env2, Ok(rest)) => (env2, Ok(seq![(name, v)] + rest)),
                                },
                            }
                        }
                        _ => (env, Err(ErrS::InvalidArguments("let-bindings"@, inner))),
                    }
                } else {
                    (env, Err(ErrS::InvalidArguments("let-bindings"@, inner)))
                }
            }
            _ => (env, Err(ErrS::InvalidArguments("let-bindings"@, all))),
        }
    }
}

#[via_fn]
proof fn let_binds_spec_decreases(
    bindings: Seq<ExprS>,
    all: Seq<ExprS>,
    env: EnvS,
    scope: int,
    fuel: nat,
) {
    if bindings.len() > 0 {
        lemma_lsize_member(bindings, 0);
        crate::parse::lemma_lsize_drop(bindings);
        match bindings[0] {
            ExprS::List(inner) => {
                if inner.len() == 2 {
                    lemma_lsize_member(inner, 0);
                    lemma_lsize_member(inner, 1);
                }
            }
            _ => {}
        }
    }
}

/// Bind the evaluated `let` pairs, in order, in scope `scope`.
pub open spec fn bind_pairs(env: EnvS, scope: int, pairs: Seq<(Seq<char>, ValueS)>) -> EnvS
    decreases pairs.len(),
{
    if pairs.len() == 0 {
        env
    } else {
        bind_pairs(
            define_spec(env, scope, pairs.first().0, pairs.first().1),
            scope,
            pairs.drop_first(),
        )
    }
}

/// The `let` form: a binding list and a body; the bindings are evaluated in
/// the outer scope, then the body in a fresh child scope holding them all.
pub open spec fn let_form_spec(args: Seq<ExprS>, env: EnvS, scope: int, fuel: nat) -> StepS
    decreases fuel, lsize(args), 4int,
    via let_form_spec_decreases
{
    if args.len() == 2 {
        match args[0] {
            ExprS::List(bindings) => {
                let evaluated = let_binds_spec(bindings, bindings, env, scope, fuel);
                match evaluated.1 {
                    Err(e) => StepS { env: evaluated.0, out: Err(e) },
                    Ok(pairs) => {
                        let child = evaluated.0.parents.len() as int;
                        let env2 = bind_pairs(push_scope_spec(evaluated.0, scope), child, pairs);
                        eval_spec(args[1], env2, child, fuel)
                    }
                }
            }
            _ => StepS { env, out: Err(ErrS::InvalidArguments("let"@, args)) },
        }
    } else {
        StepS { env, out: Err(ErrS::InvalidArguments("let"@, args)) }
    }
}

#[via_fn]
proof fn let_form_spec_decreases(args: Seq<ExprS>, env: EnvS, scope: int, fuel: nat) {
    if args.len() == 2 {
        lemma_lsize_member(args, 0);
        lemma_lsize_member(args, 1);
    }
}

} // verus!
