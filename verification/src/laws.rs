//! Laws of the evaluator, stated and proved over the mathematical
//! interpreter.

use vstd::prelude::*;

verus! {

use crate::environment::{BindS, EnvS, find_in_scope, lookup_spec, push_scope_spec};
use crate::errors::ErrS;
use crate::parse::{ExprS, esize, lemma_lsize_drop, lemma_lsize_member, lsize};
use crate::semantics::{
    CmpOp, StepS, add_fold_spec, and_fold_spec, apply_spec, arith_entry_spec, arith_fold_spec,
    bind_pairs, bind_params, compare_form_spec, cond_fold_spec, define_form_spec, dispatch_spec,
    equal_form_spec, eval_args_spec, eval_list_spec, eval_nums_spec, eval_spec, head_apply_spec,
    if_form_spec, let_binds_spec, let_form_spec, mul_fold_spec, or_fold_spec,
};
use crate::value::{LambdaS, ValueS, truthy};

// ---------------------------------------------------------------------------
// Scope isolation: an evaluation step only ever appends to the environment,
// and every binding it appends sits either in the scope it was asked to
// evaluate in, or in a scope it created itself. Pre-existing scopes other
// than the evaluation scope are never written, so names bound inside a `let`
// body or a closure body are invisible outside it.
// ---------------------------------------------------------------------------

/// The environment after a step extends the one before it: the old scopes and
/// bindings survive unchanged, and every appended binding targets `scope` or
/// a freshly created scope.
pub open spec fn env_extends(pre: EnvS, post: EnvS, scope: int) -> bool {
    &&& pre.parents.len() <= post.parents.len()
    &&& forall|i: int| 0 <= i < pre.parents.len() ==> post.parents[i] == pre.parents[i]
    &&& pre.binds.len() <= post.binds.len()
    &&& forall|j: int| 0 <= j < pre.binds.len() ==> post.binds[j] == pre.binds[j]
    &&& forall|j: int|
        pre.binds.len() <= j < post.binds.len() ==> ((#[trigger] post.binds[j]).scope == scope
            || post.binds[j].scope >= pre.parents.len())
}

/// Chaining steps: a second step at `s2` composes when `s2` is the same scope
/// or one the first step could only have created.
proof fn lemma_extends_chain(a: EnvS, b: EnvS, c: EnvS, scope: int, s2: int)
    requires
        env_extends(a, b, scope),
        env_extends(b, c, s2),
        s2 == scope || s2 >= a.parents.len(),
    ensures
        env_extends(a, c, scope),
{
    assert forall|j: int|
        a.binds.len() <= j < c.binds.len() implies ((#[trigger] c.binds[j]).scope == scope
            || c.binds[j].scope >= a.parents.len()) by {
        if j < b.binds.len() {
            assert(c.binds[j] == b.binds[j]);
        }
    }
}

proof fn frame_eval(e: ExprS, env: EnvS, scope: int, fuel: nat)
    ensures
        env_extends(env, eval_spec(e, env, scope, fuel).env, scope),
    decreases fuel, esize(e), 1int,
{
    match e {
        ExprS::List(items) => frame_eval_list(items, env, scope, fuel),
        _ => (),
    }
}

proof fn frame_eval_list(items: Seq<ExprS>, env: EnvS, scope: int, fuel: nat)
    ensures
        env_extends(env, eval_list_spec(items, env, scope, fuel).env, scope),
    decreases fuel, lsize(items), 5int,
{
    if items.len() > 0 {
        lemma_lsize_drop(items);
        match items[0] {
            ExprS::Number(t) => {
                if items.len() != 1 {
                    frame_head_apply(items, env, scope, fuel);
                }
            }
            ExprS::Variable(sym) => {
                frame_dispatch(sym, items.drop_first(), env, scope, fuel);
            }
            _ => {
                frame_head_apply(items, env, scope, fuel);
            }
        }
    }
}

proof fn frame_head_apply(items: Seq<ExprS>, env: EnvS, scope: int, fuel: nat)
    ensures
        env_extends(env, head_apply_spec(items, env, scope, fuel).env, scope),
    decreases fuel, lsize(items), 4int,
{
    if items.len() > 0 {
        lemma_lsize_member(items, 0);
        lemma_lsize_drop(items);
        frame_eval(items[0], env, scope, fuel);
        let head = eval_spec(items[0], env, scope, fuel);
        match head.out {
            Ok(ValueS::Lambda(l)) => {
                frame_apply(l, items.drop_first(), head.env, scope, fuel);
                lemma_extends_chain(
                    env,
                    head.env,
                    apply_spec(l, items.drop_first(), head.env, scope, fuel).env,
                    scope,
                    scope,
                );
            }
            _ => (),
        }
    }
}

proof fn frame_dispatch(sym: Seq<char>, args: Seq<ExprS>, env: EnvS, scope: int, fuel: nat)
    ensures
        env_extends(env, dispatch_spec(sym, args, env, scope, fuel).env, scope),
    decreases fuel, lsize(args), 6int,
{
    if sym == "+"@ {
        frame_add_fold(args, env, scope, fuel, "0"@, ""@);
    } else if sym == "-"@ {
        frame_arith_entry(false, args, env, scope, fuel);
    } else if sym == "*"@ {
        frame_mul_fold(args, env, scope, fuel, "1"@);
    } else if sym == "/"@ {
        frame_arith_entry(true, args, env, scope, fuel);
    } else if sym == "define"@ {
        frame_define_form(args, env, scope, fuel);
    } else if sym == "lambda"@ {
    } else if sym == "="@ {
        frame_equal_form(args, env, scope, fuel);
    } else if sym == "if"@ {
        frame_if_form(args, env, scope, fuel);
    } else if sym == ">"@ {
        frame_compare_form(CmpOp::Gt, args, env, scope, fuel);
    } else if sym == "<"@ {
        frame_compare_form(CmpOp::Lt, args, env, scope, fuel);
    } else if sym == ">="@ {
        frame_compare_form(CmpOp::Ge, args, env, scope, fuel);
    } else if sym == "<="@ {
        frame_compare_form(CmpOp::Le, args, env, scope, fuel);
    } else if sym == "or"@ {
        frame_or_fold(args, env, scope, fuel, ValueS::Boolean(false));
    } else if sym == "and"@ {
        frame_and_fold(args, env, scope, fuel, ValueS::Boolean(true));
    } else if sym == "cond"@ {
        frame_cond_fold(args, args, env, scope, fuel);
    } else if sym == "let"@ {
        frame_let_form(args, env, scope, fuel);
    } else {
        match lookup_spec(env, scope, sym) {
            Some(ValueS::Lambda(l)) => {
                frame_apply(l, args, env, scope, fuel);
            }
            _ => (),
        }
    }
}

/// Binding a run of names appends bindings in the chosen scope alone and
/// touches nothing else.
proof fn frame_bind_params(env: EnvS, at: int, names: Seq<Seq<char>>, vals: Seq<ValueS>)
    ensures
        ({
            let post = bind_params(env, at, names, vals);
            post.parents == env.parents && env.binds.len() <= post.binds.len() && (forall|j: int|
                0 <= j < env.binds.len() ==> post.binds[j] == env.binds[j]) && (forall|j: int|
                env.binds.len() <= j < post.binds.len() ==> (#[trigger] post.binds[j]).scope == at)
        }),
    decreases names.len(),
{
    if names.len() > 0 && vals.len() > 0 {
        let mid = crate::environment::define_spec(env, at, names.first(), vals.first());
        frame_bind_params(mid, at, names.drop_first(), vals.drop_first());
    }
}

proof fn frame_bind_pairs(env: EnvS, at: int, pairs: Seq<(Seq<char>, ValueS)>)
    ensures
        ({
            let post = bind_pairs(env, at, pairs);
            post.parents == env.parents && env.binds.len() <= post.binds.len() && (forall|j: int|
                0 <= j < env.binds.len() ==> post.binds[j] == env.binds[j]) && (forall|j: int|
                env.binds.len() <= j < post.binds.len() ==> (#[trigger] post.binds[j]).scope == at)
        }),
    decreases pairs.len(),
{
    if pairs.len() > 0 {
        let mid = crate::environment::define_spec(env, at, pairs.first().0, pairs.first().1);
        frame_bind_pairs(mid, at, pairs.drop_first());
    }
}

/// Chaining with a binding stage: appended bindings all in scope `at`, where
/// `at` is the evaluation scope or one the earlier steps created.
proof fn lemma_extends_chain_at(a: EnvS, b: EnvS, c: EnvS, scope: int, at: int)
    requires
        env_extends(a, b, scope),
        c.parents == b.parents,
        b.binds.len() <= c.binds.len(),
        forall|j: int| 0 <= j < b.binds.len() ==> c.binds[j] == b.binds[j],
        forall|j: int|
            b.binds.len() <= j < c.binds.len() ==> (#[trigger] c.binds[j]).scope == at,
        at == scope || at >= a.parents.len(),
    ensures
        env_extends(a, c, scope),
{
    assert forall|j: int|
        a.binds.len() <= j < c.binds.len() implies ((#[trigger] c.binds[j]).scope == scope
            || c.binds[j].scope >= a.parents.len()) by {
        if j < b.binds.len() {
            assert(c.binds[j] == b.binds[j]);
        }
    }
}

proof fn frame_apply(l: LambdaS, args: Seq<ExprS>, env: EnvS, scope: int, fuel: nat)
    ensures
        env_extends(env, apply_spec(l, args, env, scope, fuel).env, scope),
    decreases fuel, lsize(args), 3int,
{
    if args.len() == l.params.len() && fuel > 0 {
        frame_eval_args(args, env, scope, fuel);
        let mid = eval_args_spec(args, env, scope, fuel);
        match mid.1 {
            Ok(vals) => {
                let child = mid.0.parents.len() as int;
                let pushed = push_scope_spec(mid.0, l.captured);
                assert(env_extends(mid.0, pushed, scope));
                lemma_extends_chain(env, mid.0, pushed, scope, scope);
                frame_bind_params(pushed, child, l.params, vals);
                let env2 = bind_params(pushed, child, l.params, vals);
                lemma_extends_chain_at(env, pushed, env2, scope, child);
                frame_eval_list(l.body, env2, child, (fuel - 1) as nat);
                lemma_extends_chain(
                    env,
                    env2,
                    eval_list_spec(l.body, env2, child, (fuel - 1) as nat).env,
                    scope,
                    child,
                );
            }
            Err(_) => (),
        }
    }
}

proof fn frame_eval_args(args: Seq<ExprS>, env: EnvS, scope: int, fuel: nat)
    ensures
        env_extends(env, eval_args_spec(args, env, scope, fuel).0, scope),
    decreases fuel, lsize(args), 2int,
{
    if args.len() > 0 {
        lemma_lsize_member(args, 0);
        lemma_lsize_drop(args);
        frame_eval(args[0], env, scope, fuel);
        let head = eval_spec(args[0], env, scope, fuel);
        if head.out is Ok {
            frame_eval_args(args.drop_first(), head.env, scope, fuel);
            lemma_extends_chain(
                env,
                head.env,
                eval_args_spec(args.drop_first(), head.env, scope, fuel).0,
                scope,
                scope,
            );
        }
    }
}

proof fn frame_eval_nums(
    opname: Seq<char>,
    args: Seq<ExprS>,
    env: EnvS,
    scope: int,
    fuel: nat,
)
    ensures
        env_extends(env, eval_nums_spec(opname, args, env, scope, fuel).0, scope),
    decreases fuel, lsize(args), 2int,
{
    if args.len() > 0 {
        lemma_lsize_member(args, 0);
        lemma_lsize_drop(args);
        frame_eval(args[0], env, scope, fuel);
        let head = eval_spec(args[0], env, scope, fuel);
        match head.out {
            Ok(ValueS::Number(t)) => {
                frame_eval_nums(opname, args.drop_first(), head.env, scope, fuel);
                lemma_extends_chain(
                    env,
                    head.env,
                    eval_nums_spec(opname, args.drop_first(), head.env, scope, fuel).0,
                    scope,
                    scope,
                );
            }
            _ => (),
        }
    }
}

proof fn frame_add_fold(
    args: Seq<ExprS>,
    env: EnvS,
    scope: int,
    fuel: nat,
    sum: Seq<char>,
    acc: Seq<char>,
)
    ensures
        env_extends(env, add_fold_spec(args, env, scope, fuel, sum, acc).env, scope),
    decreases fuel, lsize(args), 3int,
{
    if args.len() > 0 {
        lemma_lsize_member(args, 0);
        lemma_lsize_drop(args);
        frame_eval(args[0], env, scope, fuel);
        let head = eval_spec(args[0], env, scope, fuel);
        match head.out {
            Ok(ValueS::Number(t)) => {
                if acc.len() == 0 {
                    frame_add_fold(
                        args.drop_first(),
                        head.env,
                        scope,
                        fuel,
                        crate::numerics::add_text(sum, t),
                        acc,
                    );
                    lemma_extends_chain(
                        env,
                        head.env,
                        add_fold_spec(
                            args.drop_first(),
                            head.env,
                            scope,
                            fuel,
                            crate::numerics::add_text(sum, t),
                            acc,
                        ).env,
                        scope,
                        scope,
                    );
                }
            }
            Ok(ValueS::String(x)) => {
                if crate::numerics::eq_text(sum, "0"@) {
                    frame_add_fold(args.drop_first(), head.env, scope, fuel, sum, acc + x);
                    lemma_extends_chain(
                        env,
                        head.env,
                        add_fold_spec(args.drop_first(), head.env, scope, fuel, sum, acc + x).env,
                        scope,
                        scope,
                    );
                }
            }
            _ => (),
        }
    }
}

proof fn frame_mul_fold(args: Seq<ExprS>, env: EnvS, scope: int, fuel: nat, acc: Seq<char>)
    ensures
        env_extends(env, mul_fold_spec(args, env, scope, fuel, acc).env, scope),
    decreases fuel, lsize(args), 3int,
{
    if args.len() > 0 {
        lemma_lsize_member(args, 0);
        lemma_lsize_drop(args);
        frame_eval(args[0], env, scope, fuel);
        let head = eval_spec(args[0], env, scope, fuel);
        match head.out {
            Ok(ValueS::Number(t)) => {
                let acc2 = crate::numerics::mul_text(acc, t);
                frame_mul_fold(args.drop_first(), head.env, scope, fuel, acc2);
                lemma_extends_chain(
                    env,
                    head.env,
                    mul_fold_spec(args.drop_first(), head.env, scope, fuel, acc2).env,
                    scope,
                    scope,
                );
            }
            _ => (),
        }
    }
}

proof fn frame_arith_entry(is_div: bool, args: Seq<ExprS>, env: EnvS, scope: int, fuel: nat)
    ensures
        env_extends(env, arith_entry_spec(is_div, args, env, scope, fuel).env, scope),
    decreases fuel, lsize(args), 4int,
{
    if args.len() > 0 {
        lemma_lsize_member(args, 0);
        lemma_lsize_drop(args);
        frame_eval(args[0], env, scope, fuel);
        let head = eval_spec(args[0], env, scope, fuel);
        match head.out {
            Ok(ValueS::Number(t)) => {
                frame_arith_fold(is_div, args.drop_first(), head.env, scope, fuel, t);
                lemma_extends_chain(
                    env,
                    head.env,
                    arith_fold_spec(is_div, args.drop_first(), head.env, scope, fuel, t).env,
                    scope,
                    scope,
                );
            }
            _ => (),
        }
    }
}

proof fn frame_arith_fold(
    is_div: bool,
    args: Seq<ExprS>,
    env: EnvS,
    scope: int,
    fuel: nat,
    acc: Seq<char>,
)
    ensures
        env_extends(env, arith_fold_spec(is_div, args, env, scope, fuel, acc).env, scope),
    decreases fuel, lsize(args), 3int,
{
    if args.len() > 0 {
        lemma_lsize_member(args, 0);
        lemma_lsize_drop(args);
        frame_eval(args[0], env, scope, fuel);
        let head = eval_spec(args[0], env, scope, fuel);
        match head.out {
            Ok(ValueS::Number(t)) => {
                let acc2 = if is_div {
                    crate::numerics::div_text(acc, t)
                } else {
                    crate::numerics::sub_text(acc, t)
                };
                frame_arith_fold(is_div, args.drop_first(), head.env, scope, fuel, acc2);
                lemma_extends_chain(
                    env,
                    head.env,
                    arith_fold_spec(is_div, args.drop_first(), head.env, scope, fuel, acc2).env,
                    scope,
                    scope,
                );
            }
            _ => (),
        }
    }
}

proof fn frame_equal_form(args: Seq<ExprS>, env: EnvS, scope: int, fuel: nat)
    ensures
        env_extends(env, equal_form_spec(args, env, scope, fuel).env, scope),
    decreases fuel, lsize(args), 3int,
{
    if args.len() >= 2 {
        frame_eval_args(args, env, scope, fuel);
    }
}

proof fn frame_compare_form(op: CmpOp, args: Seq<ExprS>, env: EnvS, scope: int, fuel: nat)
    ensures
        env_extends(env, compare_form_spec(op, args, env, scope, fuel).env, scope),
    decreases fuel, lsize(args), 3int,
{
    if args.len() >= 2 {
        frame_eval_nums(crate::semantics::cmp_name(op), args, env, scope, fuel);
    }
}

proof fn frame_if_form(args: Seq<ExprS>, env: EnvS, scope: int, fuel: nat)
    ensures
        env_extends(env, if_form_spec(args, env, scope, fuel).env, scope),
    decreases fuel, lsize(args), 3int,
{
    if args.len() == 3 {
        lemma_lsize_member(args, 0);
        lemma_lsize_member(args, 1);
        lemma_lsize_member(args, 2);
        frame_eval(args[0], env, scope, fuel);
        let cond = eval_spec(args[0], env, scope, fuel);
        match cond.out {
            Ok(v) => {
                if truthy(v) {
                    frame_eval(args[1], cond.env, scope, fuel);
                    lemma_extends_chain(
                        env,
                        cond.env,
                        eval_spec(args[1], cond.env, scope, fuel).env,
                        scope,
                        scope,
                    );
                } else {
                    frame_eval(args[2], cond.env, scope, fuel);
                    lemma_extends_chain(
                        env,
                        cond.env,
                        eval_spec(args[2], cond.env, scope, fuel).env,
                        scope,
                        scope,
                    );
                }
            }
            Err(_) => (),
        }
    }
}

proof fn frame_or_fold(args: Seq<ExprS>, env: EnvS, scope: int, fuel: nat, last: ValueS)
    ensures
        env_extends(env, or_fold_spec(args, env, scope, fuel, last).env, scope),
    decreases fuel, lsize(args), 3int,
{
    if args.len() > 0 {
        lemma_lsize_member(args, 0);
        lemma_lsize_drop(args);
        frame_eval(args[0], env, scope, fuel);
        let head = eval_spec(args[0], env, scope, fuel);
        match head.out {
            Ok(v) => {
                if !truthy(v) {
                    frame_or_fold(args.drop_first(), head.env, scope, fuel, v);
                    lemma_extends_chain(
                        env,
                        head.env,
                        or_fold_spec(args.drop_first(), head.env, scope, fuel, v).env,
                        scope,
                        scope,
                    );
                }
            }
            Err(_) => (),
        }
    }
}

proof fn frame_and_fold(args: Seq<ExprS>, env: EnvS, scope: int, fuel: nat, last: ValueS)
    ensures
        env_extends(env, and_fold_spec(args, env, scope, fuel, last).env, scope),
    decreases fuel, lsize(args), 3int,
{
    if args.len() > 0 {
        lemma_lsize_member(args, 0);
        lemma_lsize_drop(args);
        frame_eval(args[0], env, scope, fuel);
        let head = eval_spec(args[0], env, scope, fuel);
        match head.out {
            Ok(v) => {
                if truthy(v) {
                    frame_and_fold(args.drop_first(), head.env, scope, fuel, v);
                    lemma_extends_chain(
                        env,
                        head.env,
                        and_fold_spec(args.drop_first(), head.env, scope, fuel, v).env,
                        scope,
                        scope,
                    );
                }
            }
            Err(_) => (),
        }
    }
}

proof fn frame_cond_fold(clauses: Seq<ExprS>, all: Seq<ExprS>, env: EnvS, scope: int, fuel: nat)
    ensures
        env_extends(env, cond_fold_spec(clauses, all, env, scope, fuel).env, scope),
    decreases fuel, lsize(clauses), 3int,
{
    if clauses.len() > 0 {
        lemma_lsize_member(clauses, 0);
        lemma_lsize_drop(clauses);
        match clauses[0] {
            ExprS::List(inner) => {
                if inner.len() == 2 {
                    lemma_lsize_member(inner, 0);
                    lemma_lsize_member(inner, 1);
                    if inner[0] == ExprS::Variable("else"@) {
                        frame_eval(inner[1], env, scope, fuel);
                    } else {
                        frame_eval(inner[0], env, scope, fuel);
                        let test = eval_spec(inner[0], env, scope, fuel);
                        match test.out {
                            Ok(v) => {
                                if truthy(v) {
                                    frame_eval(inner[1], test.env, scope, fuel);
                                    lemma_extends_chain(
                                        env,
                                        test.env,
                                        eval_spec(inner[1], test.env, scope, fuel).env,
                                        scope,
                                        scope,
                                    );
                                } else {
                                    frame_cond_fold(
                                        clauses.drop_first(),
                                        all,
                                        test.env,
                                        scope,
                                        fuel,
                                    );
                                    lemma_extends_chain(
                                        env,
                                        test.env,
                                        cond_fold_spec(
                                            clauses.drop_first(),
                                            all,
                                            test.env,
                                            scope,
                                            fuel,
                                        ).env,
                                        scope,
                                        scope,
                                    );
                                }
                            }
                            Err(_) => (),
                        }
                    }
                }
            }
            _ => (),
        }
    }
}

proof fn frame_define_form(args: Seq<ExprS>, env: EnvS, scope: int, fuel: nat)
    ensures
        env_extends(env, define_form_spec(args, env, scope, fuel).env, scope),
    decreases fuel, lsize(args), 3int,
{
    if args.len() == 2 {
        lemma_lsize_member(args, 1);
        match (args[0], args[1]) {
            (ExprS::Variable(name), _) => {
                frame_eval(args[1], env, scope, fuel);
                let step = eval_spec(args[1], env, scope, fuel);
                match step.out {
                    Ok(v) => {
                        lemma_extends_chain(
                            env,
                            step.env,
                            crate::environment::define_spec(step.env, scope, name, v),
                            scope,
                            scope,
                        );
                    }
                    Err(_) => (),
                }
            }
            _ => (),
        }
    }
}

proof fn frame_let_binds(
    bindings: Seq<ExprS>,
    all: Seq<ExprS>,
    env: EnvS,
    scope: int,
    fuel: nat,
)
    ensures
        env_extends(env, let_binds_spec(bindings, all, env, scope, fuel).0, scope),
    decreases fuel, lsize(bindings), 3int,
{
    if bindings.len() > 0 {
        lemma_lsize_member(bindings, 0);
        lemma_lsize_drop(bindings);
        match bindings[0] {
            ExprS::List(inner) => {
                if inner.len() == 2 {
                    lemma_lsize_member(inner, 0);
                    lemma_lsize_member(inner, 1);
                    match inner[0] {
                        ExprS::Variable(name) => {
                            frame_eval(inner[1], env, scope, fuel);
                            let step = eval_spec(inner[1], env, scope, fuel);
                            match step.out {
                                Ok(v) => {
                                    frame_let_binds(
                                        bindings.drop_first(),
                                        all,
                                        step.env,
                                        scope,
                                        fuel,
                                    );
                                    lemma_extends_chain(
                                        env,
                                        step.env,
                                        let_binds_spec(
                                            bindings.drop_first(),
                                            all,
                                            step.env,
                                            scope,
                                            fuel,
                                        ).0,
                                        scope,
                                        scope,
                                    );
                                }
                                Err(_) => (),
                            }
                        }
                        _ => (),
                    }
                }
            }
            _ => (),
        }
    }
}

proof fn frame_let_form(args: Seq<ExprS>, env: EnvS, scope: int, fuel: nat)
    ensures
        env_extends(env, let_form_spec(args, env, scope, fuel).env, scope),
    decreases fuel, lsize(args), 4int,
{
    if args.len() == 2 {
        lemma_lsize_member(args, 0);
        lemma_lsize_member(args, 1);
        match args[0] {
            ExprS::List(bindings) => {
                frame_let_binds(bindings, bindings, env, scope, fuel);
                let mid = let_binds_spec(bindings, bindings, env, scope, fuel);
                match mid.1 {
                    Ok(pairs) => {
                        let child = mid.0.parents.len() as int;
                        let pushed = push_scope_spec(mid.0, scope);
                        lemma_extends_chain(env, mid.0, pushed, scope, scope);
                        frame_bind_pairs(pushed, child, pairs);
                        let env2 = bind_pairs(pushed, child, pairs);
                        lemma_extends_chain_at(env, pushed, env2, scope, child);
                        frame_eval(args[1], env2, child, fuel);
                        lemma_extends_chain(
                            env,
                            env2,
                            eval_spec(args[1], env2, child, fuel).env,
                            scope,
                            child,
                        );
                    }
                    Err(_) => (),
                }
            }
            _ => (),
        }
    }
}

/// The public face of the frame argument: an evaluation step at `scope` keeps
/// every pre-existing scope and binding intact, and appends bindings only in
/// `scope` itself or in scopes it created.
pub proof fn lemma_eval_scope_isolated(e: ExprS, env: EnvS, scope: int, fuel: nat)
    ensures
        env_extends(env, eval_spec(e, env, scope, fuel).env, scope),
{
    frame_eval(e, env, scope, fuel);
}

proof fn lemma_find_skips_appended(abinds: Seq<BindS>, bbinds: Seq<BindS>, s: int, name: Seq<char>, bound: int)
    requires
        abinds.len() <= bbinds.len(),
        forall|j: int| 0 <= j < abinds.len() ==> bbinds[j] == abinds[j],
        forall|j: int|
            abinds.len() <= j < bbinds.len() ==> (#[trigger] bbinds[j]).scope >= bound,
        s < bound,
    ensures
        find_in_scope(bbinds, s, name) == find_in_scope(abinds, s, name),
    decreases bbinds.len(),
{
    if bbinds.len() == abinds.len() {
        assert(bbinds =~= abinds);
    } else {
        assert(bbinds.last().scope >= bound);
        lemma_find_skips_appended(abinds, bbinds.drop_last(), s, name, bound);
    }
}

/// Bindings appended in scopes beyond the old arena never change a lookup in
/// an old scope: the walk stays among old scopes, and none of the new entries
/// belongs to one.
proof fn lemma_lookup_unchanged(a: EnvS, b: EnvS, s: int, name: Seq<char>)
    requires
        a.parents.len() <= b.parents.len(),
        forall|i: int| 0 <= i < a.parents.len() ==> b.parents[i] == a.parents[i],
        a.binds.len() <= b.binds.len(),
        forall|j: int| 0 <= j < a.binds.len() ==> b.binds[j] == a.binds[j],
        forall|j: int|
            a.binds.len() <= j < b.binds.len() ==> (#[trigger] b.binds[j]).scope
                >= a.parents.len(),
        0 <= s < a.parents.len(),
    ensures
        lookup_spec(b, s, name) == lookup_spec(a, s, name),
    decreases s,
{
    lemma_find_skips_appended(a.binds, b.binds, s, name, a.parents.len() as int);
    match find_in_scope(a.binds, s, name) {
        Some(_) => (),
        None => {
            match a.parents[s] {
                Some(p) => {
                    if 0 <= p < s {
                        lemma_lookup_unchanged(a, b, p, name);
                    }
                }
                None => (),
            }
        }
    }
}

/// `let` keeps its names to itself. Beyond the effects of evaluating the
/// binding expressions in the outer scope, evaluating a `let` form changes no
/// lookup in any pre-existing scope: the names it binds — and anything its
/// body defines — live only in scopes created for the call, so they are not
/// visible outside the body.
pub proof fn lemma_let_bindings_stay_local(
    args: Seq<ExprS>,
    env: EnvS,
    scope: int,
    fuel: nat,
    s: int,
    name: Seq<char>,
)
    requires
        args.len() == 2,
        args[0] is List,
        ({
            let mid = let_binds_spec(args[0]->List_0, args[0]->List_0, env, scope, fuel);
            &&& mid.1 is Ok
            &&& 0 <= s < mid.0.parents.len()
        }),
    ensures
        ({
            let mid = let_binds_spec(args[0]->List_0, args[0]->List_0, env, scope, fuel);
            lookup_spec(let_form_spec(args, env, scope, fuel).env, s, name) == lookup_spec(
                mid.0,
                s,
                name,
            )
        }),
{
    let bindings = args[0]->List_0;
    let mid = let_binds_spec(bindings, bindings, env, scope, fuel);
    let pairs = mid.1->Ok_0;
    let child = mid.0.parents.len() as int;
    let pushed = push_scope_spec(mid.0, scope);
    frame_bind_pairs(pushed, child, pairs);
    let env2 = bind_pairs(pushed, child, pairs);
    frame_eval(args[1], env2, child, fuel);
    let post = eval_spec(args[1], env2, child, fuel).env;
    assert(let_form_spec(args, env, scope, fuel).env == post);
    assert forall|j: int|
        mid.0.binds.len() <= j < post.binds.len() implies (#[trigger] post.binds[j]).scope
            >= mid.0.parents.len() by {
        if j < env2.binds.len() {
            assert(post.binds[j] == env2.binds[j]);
            assert(env2.binds[j].scope == child);
        } else {
            assert(post.binds[j].scope == child || post.binds[j].scope >= env2.parents.len());
        }
    }
    lemma_lookup_unchanged(mid.0, post, s, name);
}

/// Evaluation is deterministic: the same expression against the same
/// environment, scope and call-depth budget steps to the same environment and
/// the same outcome. Together with `Expression::eval`'s contract, re-evaluating
/// an expression against an unmodified environment yields an identical value:
/// the evaluator holds no hidden state and never mutates the expression tree.
pub proof fn lemma_eval_deterministic(
    e: ExprS,
    env1: EnvS,
    env2: EnvS,
    scope: int,
    fuel: nat,
)
    requires
        env1 == env2,
    ensures
        eval_spec(e, env1, scope, fuel) == eval_spec(e, env2, scope, fuel),
{
}

/// Only the taken branch of an `if` matters: when the condition evaluates to
/// a truthy value, the untaken alternative can be replaced by any expression
/// at all without changing the step — so the untaken branch is never
/// evaluated and none of its effects can occur.
pub proof fn lemma_if_ignores_untaken_else(
    cond: ExprS,
    thn: ExprS,
    els1: ExprS,
    els2: ExprS,
    env: EnvS,
    scope: int,
    fuel: nat,
)
    requires
        ({
            let c = eval_spec(cond, env, scope, fuel);
            c.out matches Ok(v) && truthy(v)
        }),
    ensures
        if_form_spec(seq![cond, thn, els1], env, scope, fuel) == if_form_spec(
            seq![cond, thn, els2],
            env,
            scope,
            fuel,
        ),
{
    let a1 = seq![cond, thn, els1];
    let a2 = seq![cond, thn, els2];
    assert(a1[0] == cond && a1[1] == thn && a1.len() == 3);
    assert(a2[0] == cond && a2[1] == thn && a2.len() == 3);
}

/// The mirror image: when the condition evaluates to a falsy value, the
/// untaken consequent is irrelevant.
pub proof fn lemma_if_ignores_untaken_then(
    cond: ExprS,
    thn1: ExprS,
    thn2: ExprS,
    els: ExprS,
    env: EnvS,
    scope: int,
    fuel: nat,
)
    requires
        ({
            let c = eval_spec(cond, env, scope, fuel);
            c.out matches Ok(v) && !truthy(v)
        }),
    ensures
        if_form_spec(seq![cond, thn1, els], env, scope, fuel) == if_form_spec(
            seq![cond, thn2, els],
            env,
            scope,
            fuel,
        ),
{
    let a1 = seq![cond, thn1, els];
    let a2 = seq![cond, thn2, els];
    assert(a1[0] == cond && a1[2] == els && a1.len() == 3);
    assert(a2[0] == cond && a2[2] == els && a2.len() == 3);
}

/// Calling a closure with the wrong number of arguments yields exactly an
/// arity mismatch naming the expected and the supplied count, the arguments
/// unevaluated and the environment untouched.
pub proof fn lemma_apply_arity(l: LambdaS, args: Seq<ExprS>, env: EnvS, scope: int, fuel: nat)
    requires
        args.len() != l.params.len(),
    ensures
        apply_spec(l, args, env, scope, fuel) == (StepS {
            env,
            out: Err(
                ErrS::ArityMismatch(
                    "lambda-function"@,
                    l.params.len() as int,
                    args.len() as int,
                ),
            ),
        }),
{
}

/// Evaluating a bare symbol with no binding in the visible scope chain yields
/// exactly `NotFoundVariable` naming it, the environment untouched.
pub proof fn lemma_unbound_variable(n: Seq<char>, env: EnvS, scope: int, fuel: nat)
    requires
        lookup_spec(env, scope, n) is None,
    ensures
        eval_spec(ExprS::Variable(n), env, scope, fuel) == (StepS {
            env,
            out: Err(ErrS::NotFoundVariable(n)),
        }),
{
}

/// Closures are lexically scoped: a call with the right arity and remaining
/// call depth evaluates the body in a fresh scope whose parent is the
/// closure's captured scope — never the caller's scope. Lookups from the body
/// therefore walk the chain that was current when the closure was made.
pub proof fn lemma_apply_uses_captured_scope(
    l: LambdaS,
    args: Seq<ExprS>,
    env: EnvS,
    scope: int,
    fuel: nat,
)
    requires
        args.len() == l.params.len(),
        fuel > 0,
        eval_args_spec(args, env, scope, fuel).1 is Ok,
    ensures
        ({
            let mid = eval_args_spec(args, env, scope, fuel);
            let child = mid.0.parents.len() as int;
            let env2 = bind_params(
                push_scope_spec(mid.0, l.captured),
                child,
                l.params,
                mid.1->Ok_0,
            );
            apply_spec(l, args, env, scope, fuel) == eval_list_spec(
                l.body,
                env2,
                child,
                (fuel - 1) as nat,
            ) && push_scope_spec(mid.0, l.captured).parents[child] == Some(l.captured)
        }),
{
}


/// A shadowed name cannot be redefined from outside. When a scope binds a
/// name itself, a later `define` of that name in any other scope — the global
/// scope included — changes nothing about what the name means there.
pub proof fn lemma_define_does_not_pierce_shadow(
    env: EnvS,
    at: int,
    name: Seq<char>,
    v: ValueS,
    s: int,
)
    requires
        0 <= s < env.parents.len(),
        s != at,
        find_in_scope(env.binds, s, name) is Some,
    ensures
        lookup_spec(crate::environment::define_spec(env, at, name, v), s, name) == lookup_spec(
            env,
            s,
            name,
        ),
{
    let post = crate::environment::define_spec(env, at, name, v);
    assert(post.binds.last().scope == at);
    assert(post.binds.drop_last() =~= env.binds);
}

proof fn lemma_bind_params_other_name(
    env: EnvS,
    at: int,
    names: Seq<Seq<char>>,
    vals: Seq<ValueS>,
    name: Seq<char>,
)
    requires
        forall|k: int| 0 <= k < names.len() ==> names[k] != name,
    ensures
        find_in_scope(bind_params(env, at, names, vals).binds, at, name) == find_in_scope(
            env.binds,
            at,
            name,
        ),
    decreases names.len(),
{
    if names.len() > 0 && vals.len() > 0 {
        let mid = crate::environment::define_spec(env, at, names.first(), vals.first());
        assert(mid.binds.drop_last() =~= env.binds);
        assert(forall|k: int|
            0 <= k < names.drop_first().len() ==> names.drop_first()[k] != name);
        lemma_bind_params_other_name(mid, at, names.drop_first(), vals.drop_first(), name);
    }
}

proof fn lemma_bind_params_finds(
    env: EnvS,
    at: int,
    names: Seq<Seq<char>>,
    vals: Seq<ValueS>,
    i: int,
)
    requires
        names.len() == vals.len(),
        forall|j: int, k: int| 0 <= j < k < names.len() ==> names[j] != names[k],
        0 <= i < names.len(),
    ensures
        find_in_scope(bind_params(env, at, names, vals).binds, at, names[i]) == Some(vals[i]),
    decreases names.len(),
{
    let mid = crate::environment::define_spec(env, at, names.first(), vals.first());
    if i == 0 {
        assert(forall|k: int|
            0 <= k < names.drop_first().len() ==> names.drop_first()[k] != names[0]);
        lemma_bind_params_other_name(mid, at, names.drop_first(), vals.drop_first(), names[0]);
        assert(mid.binds.last() == (BindS { scope: at, name: names[0], value: vals[0] }));
    } else {
        assert(forall|j: int, k: int|
            0 <= j < k < names.drop_first().len() ==> names.drop_first()[j]
                != names.drop_first()[k]);
        assert(names.drop_first()[i - 1] == names[i]);
        assert(vals.drop_first()[i - 1] == vals[i]);
        lemma_bind_params_finds(mid, at, names.drop_first(), vals.drop_first(), i - 1);
    }
}

/// Parameters shadow everything. In the scope a closure call binds its
/// parameters in, each parameter name resolves to the supplied argument —
/// whatever any enclosing scope, the global one included, binds or later
/// rebinds under that name. (The parameter names of one closure are unique.)
pub proof fn lemma_parameters_shadow_outer_bindings(
    env: EnvS,
    at: int,
    names: Seq<Seq<char>>,
    vals: Seq<ValueS>,
    i: int,
)
    requires
        names.len() == vals.len(),
        forall|j: int, k: int| 0 <= j < k < names.len() ==> names[j] != names[k],
        0 <= i < names.len(),
        0 <= at < env.parents.len(),
    ensures
        lookup_spec(bind_params(env, at, names, vals), at, names[i]) == Some(vals[i]),
{
    frame_bind_params(env, at, names, vals);
    lemma_bind_params_finds(env, at, names, vals, i);
}

} // verus!
