//! The chain of variable scopes.
//!
//! Scopes live in one arena, addressed by index; each scope names its parent
//! by a smaller index, so later definitions in an ancestor stay visible
//! through every child, and a closure keeps its captured scope alive simply
//! by remembering the index. Bindings are held flat: `define` appends, and
//! lookup scans from the newest entry backwards, so a redefinition in the
//! same scope shadows the older entry.

use vstd::prelude::*;

verus! {

use crate::value::{Value, ValueS};

/// One binding: a name bound to a value inside one scope.
#[derive(Debug, PartialEq)]
pub struct Bind {
    pub scope: usize,
    pub name: String,
    pub value: Value,
}

/// The mathematical model of a `Bind`.
#[verifier::ext_equal]
pub struct BindS {
    pub scope: int,
    pub name: Seq<char>,
    pub value: ValueS,
}

impl View for Bind {
    type V = BindS;

    open spec fn view(&self) -> BindS {
        BindS { scope: self.scope as int, name: self.name@, value: self.value@ }
    }
}

/// The environment: an arena of scopes plus the flat list of bindings.
#[derive(Debug)]
pub struct Environment {
    pub parents: Vec<Option<usize>>,
    pub binds: Vec<Bind>,
}

/// The mathematical model of an `Environment`.
#[verifier::ext_equal]
pub struct EnvS {
    pub parents: Seq<Option<int>>,
    pub binds: Seq<BindS>,
}

impl View for Environment {
    type V = EnvS;

    open spec fn view(&self) -> EnvS {
        EnvS {
            parents: self.parents@.map_values(
                |p: Option<usize>| match p {
                    Some(i) => Some(i as int),
                    None => None,
                },
            ),
            binds: self.binds@.map_values(|b: Bind| b@),
        }
    }
}

/// The newest binding of `name` in scope `scope` itself, parents not
/// consulted.
pub open spec fn find_in_scope(binds: Seq<BindS>, scope: int, name: Seq<char>) -> Option<ValueS>
    decreases binds,
{
    if binds.len() == 0 {
        None
    } else if binds.last().scope == scope && binds.last().name == name {
        Some(binds.last().value)
    } else {
        find_in_scope(binds.drop_last(), scope, name)
    }
}

/// Lexical lookup: the nearest enclosing binding of `name`, walking the
/// parent chain from `scope` outwards.
pub open spec fn lookup_spec(env: EnvS, scope: int, name: Seq<char>) -> Option<ValueS>
    decreases scope,
{
    if 0 <= scope < env.parents.len() {
        match find_in_scope(env.binds, scope, name) {
            Some(v) => Some(v),
            None => match env.parents[scope] {
                Some(p) => if 0 <= p < scope {
                    lookup_spec(env, p, name)
                } else {
                    None
                },
                None => None,
            },
        }
    } else {
        None
    }
}

/// The model of `define`: one more binding in the chosen scope.
pub open spec fn define_spec(env: EnvS, scope: int, name: Seq<char>, v: ValueS) -> EnvS {
    EnvS { parents: env.parents, binds: env.binds.push(BindS { scope, name, value: v }) }
}

/// The model of opening a child scope under `parent`.
pub open spec fn push_scope_spec(env: EnvS, parent: int) -> EnvS {
    EnvS { parents: env.parents.push(Some(parent)), binds: env.binds }
}

/// A closure value may only capture a scope that exists.
pub open spec fn value_wf(v: ValueS, n: int) -> bool {
    match v {
        ValueS::Lambda(l) => 0 <= l.captured < n,
        _ => true,
    }
}

pub open spec fn parent_ok(p: Option<int>, i: int) -> bool {
    match p {
        Some(q) => 0 <= q < i,
        None => true,
    }
}

pub open spec fn bind_ok(b: BindS, n: int) -> bool {
    0 <= b.scope < n && value_wf(b.value, n)
}

/// Well-formedness: every parent link points at an earlier scope, and every
/// binding names an existing scope and holds a well-formed value.
pub open spec fn env_wf(env: EnvS) -> bool {
    &&& forall|i: int|
        0 <= i < env.parents.len() ==> parent_ok(#[trigger] env.parents[i], i)
    &&& forall|j: int|
        0 <= j < env.binds.len() ==> bind_ok(#[trigger] env.binds[j], env.parents.len() as int)
}

/// The environment a session starts from: one global scope, with the boolean
/// literals pre-seeded.
pub open spec fn initial_env() -> EnvS {
    EnvS {
        parents: seq![None],
        binds: seq![
            BindS { scope: 0, name: "#f"@, value: ValueS::Boolean(false) },
            BindS { scope: 0, name: "#t"@, value: ValueS::Boolean(true) },
        ],
    }
}

pub proof fn lemma_value_wf_mono(v: ValueS, n: int, m: int)
    requires
        value_wf(v, n),
        n <= m,
    ensures
        value_wf(v, m),
{
}

proof fn lemma_find_in_scope_wf(binds: Seq<BindS>, scope: int, name: Seq<char>, n: int)
    requires
        forall|j: int| 0 <= j < binds.len() ==> bind_ok(#[trigger] binds[j], n),
        find_in_scope(binds, scope, name) is Some,
    ensures
        value_wf(find_in_scope(binds, scope, name).unwrap(), n),
    decreases binds,
{
    if binds.len() > 0 {
        if !(binds.last().scope == scope && binds.last().name == name) {
            lemma_find_in_scope_wf(binds.drop_last(), scope, name, n);
        }
    }
}

/// A value that lexical lookup hands out of a well-formed environment is
/// itself well-formed.
pub proof fn lemma_lookup_wf(env: EnvS, scope: int, name: Seq<char>)
    requires
        env_wf(env),
        lookup_spec(env, scope, name) is Some,
    ensures
        value_wf(lookup_spec(env, scope, name).unwrap(), env.parents.len() as int),
    decreases scope,
{
    if 0 <= scope < env.parents.len() {
        match find_in_scope(env.binds, scope, name) {
            Some(v) => {
                lemma_find_in_scope_wf(env.binds, scope, name, env.parents.len() as int);
            }
            None => {
                match env.parents[scope] {
                    Some(p) => {
                        if 0 <= p < scope {
                            lemma_lookup_wf(env, p, name);
                        }
                    }
                    None => {}
                }
            }
        }
    }
}

impl Environment {
    /// A fresh session environment: the global scope alone, holding `#f` and
    /// `#t`.
    pub fn new() -> (r: Environment)
        ensures
            r@ == initial_env(),
            env_wf(r@),
    {
        let mut parents: Vec<Option<usize>> = Vec::new();
        parents.push(None);
        let mut binds: Vec<Bind> = Vec::new();
        binds.push(Bind { scope: 0, name: "#f".to_owned(), value: Value::Boolean(false) });
        binds.push(Bind { scope: 0, name: "#t".to_owned(), value: Value::Boolean(true) });
        let r = Environment { parents, binds };
        proof {
            assert(r@.parents =~= initial_env().parents);
            assert(r@.binds =~= initial_env().binds);
            assert(r@ =~= initial_env());
        }
        r
    }

    /// How many scopes the arena holds.
    pub fn scope_count(&self) -> (r: usize)
        ensures
            r as int == self@.parents.len(),
    {
        self.parents.len()
    }

    /// Bind `name` to `value` in scope `scope` itself, shadowing any older
    /// binding there; ancestors are never written.
    pub fn define(&mut self, scope: usize, name: String, value: Value)
        requires
            env_wf(old(self)@),
            (scope as int) < old(self)@.parents.len(),
            value_wf(value@, old(self)@.parents.len() as int),
        ensures
            final(self)@ == define_spec(old(self)@, scope as int, name@, value@),
            env_wf(final(self)@),
    {
        let ghost pre = self@;
        let ghost b = BindS { scope: scope as int, name: name@, value: value@ };
        self.binds.push(Bind { scope, name, value });
        proof {
            assert(self@.binds =~= pre.binds.push(b));
            assert(self@ =~= define_spec(pre, b.scope, b.name, b.value));
        }
    }

    /// Open a new scope whose parent is `parent`; returns its index.
    pub fn push_scope(&mut self, parent: usize) -> (r: usize)
        requires
            env_wf(old(self)@),
            (parent as int) < old(self)@.parents.len(),
        ensures
            r as int == old(self)@.parents.len(),
            final(self)@ == push_scope_spec(old(self)@, parent as int),
            env_wf(final(self)@),
    {
        let ghost pre = self@;
        let r = self.parents.len();
        self.parents.push(Some(parent));
        proof {
            assert(self@.parents =~= pre.parents.push(Some(parent as int)));
            assert(self@ =~= push_scope_spec(pre, parent as int));
            assert forall|j: int| 0 <= j < self@.binds.len() implies bind_ok(
                #[trigger] self@.binds[j],
                self@.parents.len() as int,
            ) by {
                assert(bind_ok(pre.binds[j], pre.parents.len() as int));
            }
        }
        r
    }

    /// Lexical lookup from `scope` outwards; a hit hands back an owned copy
    /// of the bound value.
    pub fn lookup(&self, scope: usize, name: &String) -> (r: Option<Value>)
        requires
            env_wf(self@),
            (scope as int) < self@.parents.len(),
        ensures
            match r {
                Some(v) => lookup_spec(self@, scope as int, name@) == Some(v@),
                None => lookup_spec(self@, scope as int, name@) is None,
            },
    {
        let mut sc: usize = scope;
        loop
            invariant
                env_wf(self@),
                (sc as int) < self@.parents.len(),
                lookup_spec(self@, scope as int, name@) == lookup_spec(self@, sc as int, name@),
            decreases sc,
        {
            proof {
                assert(self@.binds.take(self@.binds.len() as int) =~= self@.binds);
            }
            let mut j: usize = self.binds.len();
            while j > 0
                invariant
                    env_wf(self@),
                    (sc as int) < self@.parents.len(),
                    lookup_spec(self@, scope as int, name@) == lookup_spec(
                        self@,
                        sc as int,
                        name@,
                    ),
                    j <= self@.binds.len(),
                    find_in_scope(self@.binds, sc as int, name@) == find_in_scope(
                        self@.binds.take(j as int),
                        sc as int,
                        name@,
                    ),
                decreases j,
            {
                let b = &self.binds[j - 1];
                proof {
                    assert(self@.binds.take(j as int).last() == self@.binds[j - 1]);
                    assert(self@.binds.take(j as int).drop_last() =~= self@.binds.take(
                        j as int - 1,
                    ));
                }
                if b.scope == sc && b.name == *name {
                    proof {
                        assert(find_in_scope(self@.binds.take(j as int), sc as int, name@)
                            == Some(self@.binds[j - 1].value));
                    }
                    return Some(b.value.duplicate());
                }
                j = j - 1;
            }
            proof {
                assert(self@.binds.take(0) =~= Seq::<BindS>::empty());
                assert(find_in_scope(self@.binds, sc as int, name@) is None);
            }
            match self.parents[sc] {
                Some(p) => {
                    proof {
                        assert(parent_ok(self@.parents[sc as int], sc as int));
                    }
                    sc = p;
                }
                None => {
                    return None;
                }
            }
        }
    }
}

impl Default for Environment {
    /// The same environment `new` builds.
    fn default() -> (r: Environment)
        ensures
            r@ == initial_env(),
            env_wf(r@),
    {
        Environment::new()
    }
}

} // verus!
