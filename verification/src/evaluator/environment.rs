//! Scopes of variables: each maps names to values and may sit inside an
//! enclosing scope.
use vstd::prelude::*;
use crate::evaluator::RuntimeError;
use crate::lexer::token::Token;
use crate::text::{push_str, same_text};

verus! {

broadcast use vstd::std_specs::vec::group_vec_axioms;

/// The place of the first name in `names` that reads `k`, or -1.
pub open spec fn find(names: Seq<Seq<char>>, k: Seq<char>) -> int
    decreases names.len(),
{
    if names.len() == 0 {
        -1
    } else if find(names.drop_last(), k) >= 0 {
        find(names.drop_last(), k)
    } else if names.last() == k {
        names.len() - 1
    } else {
        -1
    }
}

pub proof fn lemma_find(names: Seq<Seq<char>>, k: Seq<char>)
    ensures
        -1 <= find(names, k) < names.len(),
        find(names, k) >= 0 ==> names[find(names, k)] == k,
        find(names, k) == -1 <==> forall|i: int| 0 <= i < names.len() ==> names[i] != k,
    decreases names.len(),
{
    if names.len() > 0 {
        lemma_find(names.drop_last(), k);
        if find(names.drop_last(), k) == -1 && names.last() != k {
            assert forall|i: int| 0 <= i < names.len() implies names[i] != k by {
                if i < names.len() - 1 {
                    assert(names.drop_last()[i] == names[i]);
                }
            }
        }
    }
}

/// The message of a read or write of an unknown variable.
pub open spec fn undefined_message(name: Seq<char>) -> Seq<char> {
    "Undefined variable '"@ + name + "'."@
}

/// A scope: its variables, and the scope it sits in.
pub struct Environment<V> {
    enclosing: Option<Box<Environment<V>>>,
    names: Vec<String>,
    values: Vec<V>,
}

impl<V> Environment<V> {
    /// The names of this scope's own variables.
    pub closed spec fn own_names(&self) -> Seq<Seq<char>> {
        self.names@.map_values(|s: String| s@)
    }

    /// Every scope of the chain holds as many values as names, and no name
    /// twice.
    pub closed spec fn wf(&self) -> bool
        decreases self,
    {
        &&& self.names@.len() == self.values@.len()
        &&& forall|i: int, j: int| 0 <= i < j < self.names@.len() ==> #[trigger] self.own_names()[i] != #[trigger] self.own_names()[j]
        &&& match self.enclosing {
            Some(e) => e.wf(),
            None => true,
        }
    }

    /// The value of variable `k` seen from this scope: its own, or else the
    /// one seen from the enclosing scope.
    pub closed spec fn lookup(&self, k: Seq<char>) -> Option<V>
        decreases self,
    {
        let i = find(self.own_names(), k);
        if i >= 0 {
            Some(self.values@[i])
        } else {
            match self.enclosing {
                Some(e) => e.lookup(k),
                None => None,
            }
        }
    }

    /// The value of variable `k` in this scope itself.
    pub closed spec fn own_get(&self, k: Seq<char>) -> Option<V> {
        let i = find(self.own_names(), k);
        if i >= 0 { Some(self.values@[i]) } else { None }
    }

    /// The scope `d` levels out from this one, if there is one.
    pub closed spec fn ancestor(&self, d: nat) -> Option<Environment<V>>
        decreases d,
    {
        if d == 0 {
            Some(*self)
        } else {
            match self.enclosing {
                Some(e) => e.ancestor((d - 1) as nat),
                None => None,
            }
        }
    }

    /// How many levels out the nearest scope that binds `k` sits, or -1 when
    /// no scope of the chain does.
    pub closed spec fn binding_depth(&self, k: Seq<char>) -> int
        decreases self,
    {
        if find(self.own_names(), k) >= 0 {
            0
        } else {
            match self.enclosing {
                Some(e) => if e.binding_depth(k) >= 0 { e.binding_depth(k) + 1 } else { -1 },
                None => -1,
            }
        }
    }

    /// The value of `k` in the scope `d` levels out, itself.
    pub open spec fn frame(&self, d: nat, k: Seq<char>) -> Option<V> {
        match self.ancestor(d) {
            Some(a) => a.own_get(k),
            None => None,
        }
    }

    /// How many scopes enclose this one.
    pub closed spec fn depth(&self) -> nat
        decreases self,
    {
        match self.enclosing {
            Some(e) => 1 + e.depth(),
            None => 0,
        }
    }

    /// The enclosing scope's view of the variables, if there is one.
    pub closed spec fn outer(&self) -> Option<Environment<V>> {
        match self.enclosing {
            Some(e) => Some(*e),
            None => None,
        }
    }

    /// A scope inside `enclosing` (or a global one) in which `clock` is
    /// already bound to `clock`.
    pub fn new(enclosing: Option<Box<Environment<V>>>, clock: V) -> (env: Environment<V>)
        requires
            match enclosing {
                Some(e) => e.wf(),
                None => true,
            },
        ensures
            env.wf(),
            env.outer() == match enclosing {
                Some(e) => Some(*e),
                None => None::<Environment<V>>,
            },
            forall|k: Seq<char>| #[trigger] env.lookup(k) == if k == "clock"@ {
                Some(clock)
            } else {
                match enclosing {
                    Some(e) => e.lookup(k),
                    None => None,
                }
            },
    {
        let mut names: Vec<String> = Vec::new();
        names.push("clock".to_owned());
        let mut values: Vec<V> = Vec::new();
        values.push(clock);
        let env = Environment { enclosing, names, values };
        proof {
            assert forall|k: Seq<char>| #[trigger] env.lookup(k) == if k == "clock"@ {
                Some(clock)
            } else {
                match enclosing {
                    Some(e) => e.lookup(k),
                    None => None,
                }
            } by {
                assert(env.own_names()[0] == "clock"@);
                assert(env.own_names().len() == 1);
                assert(env.values@[0] == clock);
                lemma_find(env.own_names(), k);
            }
        }
        env
    }

    /// The scope that `environment` stands for, or a new global one (with
    /// `clock` bound to `clock`) when there is none.
    pub fn from_inner(environment: Option<Box<Environment<V>>>, clock: V) -> (env: Environment<V>)
        requires
            match environment {
                Some(e) => e.wf(),
                None => true,
            },
        ensures
            env.wf(),
            match environment {
                Some(e) => env == *e,
                None => env.outer() is None && forall|k: Seq<char>| #[trigger] env.lookup(k) == if k == "clock"@ {
                    Some(clock)
                } else {
                    None
                },
            },
    {
        match environment {
            Some(e) => *e,
            None => Environment::new(None, clock),
        }
    }

    /// Gives up this scope and hands back the one it sits in.
    pub fn into_enclosing(self) -> (e: Option<Box<Environment<V>>>)
        ensures
            match e {
                Some(b) => self.outer() == Some(*b),
                None => self.outer() is None,
            },
    {
        self.enclosing
    }

    fn find_own(&self, name: &str) -> (r: Option<usize>)
        requires
            self.names@.len() == self.values@.len(),
        ensures
            match r {
                Some(i) => i as int == find(self.own_names(), name@) && i < self.values@.len(),
                None => find(self.own_names(), name@) == -1,
            },
    {
        proof { lemma_find(self.own_names(), name@); }
        let mut i: usize = 0;
        while i < self.names.len()
            invariant
                i <= self.names@.len(),
                self.names@.len() == self.values@.len(),
                -1 <= find(self.own_names(), name@) < self.own_names().len(),
                find(self.own_names(), name@) >= 0 ==> self.own_names()[find(self.own_names(), name@)] == name@,
                find(self.own_names(), name@) == -1 <==> forall|j: int| 0 <= j < self.own_names().len() ==> self.own_names()[j] != name@,
                forall|j: int| 0 <= j < i ==> self.own_names()[j] != name@,
            decreases self.names@.len() - i,
        {
            if same_text(self.names[i].as_str(), name) {
                proof { lemma_find_first(self.own_names(), name@, i as int); }
                return Some(i);
            }
            i = i + 1;
        }
        None
    }

    /// Binds `name` to `value` in this scope, replacing a binding it has.
    pub fn define(&mut self, name: String, value: V)
        requires
            old(self).wf(),
        ensures
            final(self).wf(),
            final(self).outer() == old(self).outer(),
            forall|k: Seq<char>| #[trigger] final(self).lookup(k) == if k == name@ {
                Some(value)
            } else {
                old(self).lookup(k)
            },
            forall|k: Seq<char>| #[trigger] final(self).own_get(k) == if k == name@ {
                Some(value)
            } else {
                old(self).own_get(k)
            },
    {
        let ghost n = name@;
        match self.find_own(name.as_str()) {
            Some(i) => {
                self.values.set(i, value);
                proof {
                    assert forall|k: Seq<char>| #[trigger] self.lookup(k) == if k == n {
                        Some(value)
                    } else {
                        old(self).lookup(k)
                    } by {
                        assert(self.own_names() == old(self).own_names());
                        lemma_find(self.own_names(), k);
                        lemma_find(self.own_names(), n);
                    }
                    assert forall|k: Seq<char>| #[trigger] self.own_get(k) == if k == n {
                        Some(value)
                    } else {
                        old(self).own_get(k)
                    } by {
                        assert(self.own_names() == old(self).own_names());
                        lemma_find(self.own_names(), k);
                        lemma_find(self.own_names(), n);
                    }
                }
            }
            None => {
                let ghost before = self.own_names();
                self.names.push(name);
                self.values.push(value);
                proof {
                    assert(self.own_names() =~= before.push(n));
                    lemma_find(before, n);
                    assert forall|k: Seq<char>| #[trigger] self.lookup(k) == if k == n {
                        Some(value)
                    } else {
                        old(self).lookup(k)
                    } by {
                        assert(self.own_names().drop_last() =~= before);
                        lemma_find(before, k);
                    }
                    assert forall|k: Seq<char>| #[trigger] self.own_get(k) == if k == n {
                        Some(value)
                    } else {
                        old(self).own_get(k)
                    } by {
                        assert(self.own_names().drop_last() =~= before);
                        lemma_find(before, k);
                    }
                }
            }
        }
    }

    /// The value of the variable `name` reads, seen from this scope, or the
    /// error that it is undefined.
    pub fn get(&self, name: &Token) -> (r: Result<&V, RuntimeError>)
        requires
            self.wf(),
        ensures
            r is Ok <==> self.lookup(name@.lexeme) is Some,
            r matches Ok(v) ==> self.lookup(name@.lexeme) == Some(*v),
            r matches Err(e) ==> e.spec_token() == name@ && e.spec_message() == undefined_message(name@.lexeme),
        decreases self,
    {
        if let Some(i) = self.find_own(name.get_lexeme()) {
            return Ok(&self.values[i]);
        }
        match &self.enclosing {
            Some(env) => env.get(name),
            None => Err(undefined(name)),
        }
    }

    /// Sets the variable `name` reads to `value` in the nearest scope that
    /// has it, or gives the error that it is undefined and changes nothing.
    pub fn assign(&mut self, name: &Token, value: V) -> (r: Result<(), RuntimeError>)
        requires
            old(self).wf(),
        ensures
            final(self).wf(),
            r is Ok <==> old(self).lookup(name@.lexeme) is Some,
            r is Ok ==> forall|k: Seq<char>| #[trigger] final(self).lookup(k) == if k == name@.lexeme {
                Some(value)
            } else {
                old(self).lookup(k)
            },
            r is Ok <==> old(self).binding_depth(name@.lexeme) >= 0,
            r is Ok ==> forall|d: nat, k: Seq<char>| #[trigger] final(self).frame(d, k) == if d == old(self).binding_depth(name@.lexeme) && k == name@.lexeme {
                Some(value)
            } else {
                old(self).frame(d, k)
            },
            r is Err ==> *final(self) == *old(self),
            r is Err ==> forall|k: Seq<char>| #[trigger] final(self).lookup(k) == old(self).lookup(k),
            r matches Err(e) ==> e.spec_token() == name@ && e.spec_message() == undefined_message(name@.lexeme),
        decreases old(self).depth(),
    {
        let ghost n = name@.lexeme;
        if let Some(i) = self.find_own(name.get_lexeme()) {
            self.values.set(i, value);
            proof {
                assert forall|k: Seq<char>| #[trigger] self.lookup(k) == if k == n {
                    Some(value)
                } else {
                    old(self).lookup(k)
                } by {
                    assert(self.own_names() == old(self).own_names());
                    lemma_find(self.own_names(), k);
                    lemma_find(self.own_names(), n);
                }
                assert forall|d: nat, k: Seq<char>| #[trigger] self.frame(d, k) == if d == old(self).binding_depth(n) && k == n {
                    Some(value)
                } else {
                    old(self).frame(d, k)
                } by {
                    assert(self.own_names() == old(self).own_names());
                    lemma_find(self.own_names(), k);
                    lemma_find(self.own_names(), n);
                    if d > 0 {
                        assert(self.ancestor(d) == old(self).ancestor(d));
                    }
                }
            }
            return Ok(());
        }
        match self.enclosing.take() {
            Some(mut env) => {
                let ghost e0 = *env;
                let r = env.assign(name, value);
                let ghost e1 = *env;
                self.enclosing = Some(env);
                proof {
                    assert(old(self).outer() == Some(e0));
                    assert(self.outer() == Some(e1));
                    assert(self.own_names() == old(self).own_names());
                    assert(self.values@ == old(self).values@);
                    lemma_find(self.own_names(), n);
                    if r is Ok {
                        assert forall|d: nat, k: Seq<char>| #[trigger] self.frame(d, k) == if d == old(self).binding_depth(n) && k == n {
                            Some(value)
                        } else {
                            old(self).frame(d, k)
                        } by {
                            lemma_find(self.own_names(), k);
                            if d > 0 {
                                assert(self.ancestor(d) == e1.ancestor((d - 1) as nat));
                                assert(old(self).ancestor(d) == e0.ancestor((d - 1) as nat));
                                assert(e1.frame((d - 1) as nat, k) == if (d - 1) as nat == e0.binding_depth(n) && k == n {
                                    Some(value)
                                } else {
                                    e0.frame((d - 1) as nat, k)
                                });
                            }
                        }
                        assert forall|k: Seq<char>| #[trigger] self.lookup(k) == if k == n {
                            Some(value)
                        } else {
                            old(self).lookup(k)
                        } by {
                            lemma_find(self.own_names(), k);
                            assert(e1.lookup(k) == if k == n { Some(value) } else { e0.lookup(k) });
                        }
                    } else {
                        assert forall|k: Seq<char>| #[trigger] self.lookup(k) == old(self).lookup(k) by {
                            lemma_find(self.own_names(), k);
                            assert(e1.lookup(k) == e0.lookup(k));
                        }
                    }
                }
                r
            }
            None => {
                proof {
                    assert(self.own_names() == old(self).own_names());
                }
                Err(undefined(name))
            }
        }
    }
}

impl<V> Environment<V> {
    /// The value of `name` in the scope `distance` levels out, which must
    /// hold it (a resolved variable).
    pub fn get_at(&self, distance: usize, name: &str) -> (r: &V)
        requires
            self.wf(),
            self.frame(distance as nat, name@) is Some,
        ensures
            self.frame(distance as nat, name@) == Some(*r),
        decreases distance,
    {
        if distance == 0 {
            let i = self.find_own(name).unwrap();
            &self.values[i]
        } else {
            match &self.enclosing {
                Some(e) => e.get_at(distance - 1, name),
                None => vstd::pervasive::unreached(),
            }
        }
    }

    /// Binds `name` to `value` in the scope `distance` levels out, which must
    /// exist; no other binding changes.
    pub fn assign_at(&mut self, distance: usize, name: &Token, value: V)
        requires
            old(self).wf(),
            old(self).ancestor(distance as nat) is Some,
        ensures
            final(self).wf(),
            forall|d: nat, k: Seq<char>| #[trigger] final(self).frame(d, k) == if d == distance && k == name@.lexeme {
                Some(value)
            } else {
                old(self).frame(d, k)
            },
        decreases distance,
    {
        if distance == 0 {
            let ghost e0 = self.outer();
            let n = name.get_lexeme().to_owned();
            self.define(n, value);
            proof {
                assert forall|d: nat, k: Seq<char>| #[trigger] self.frame(d, k) == if d == distance && k == name@.lexeme {
                    Some(value)
                } else {
                    old(self).frame(d, k)
                } by {
                    if d > 0 {
                        assert(self.outer() == e0);
                    }
                }
            }
        } else {
            match self.enclosing.take() {
                Some(mut env) => {
                    let ghost e0 = *env;
                    env.assign_at(distance - 1, name, value);
                    let ghost e1 = *env;
                    self.enclosing = Some(env);
                    proof {
                        assert(old(self).outer() == Some(e0));
                        assert(self.own_names() == old(self).own_names());
                        assert(self.values@ == old(self).values@);
                        assert forall|d: nat, k: Seq<char>| #[trigger] self.frame(d, k) == if d == distance && k == name@.lexeme {
                            Some(value)
                        } else {
                            old(self).frame(d, k)
                        } by {
                            if d > 0 {
                                assert(self.ancestor(d) == e1.ancestor((d - 1) as nat));
                                assert(old(self).ancestor(d) == e0.ancestor((d - 1) as nat));
                                assert(e1.frame((d - 1) as nat, k) == if (d - 1) as nat == distance - 1 && k == name@.lexeme {
                                    Some(value)
                                } else {
                                    e0.frame((d - 1) as nat, k)
                                });
                            }
                        }
                    }
                }
                None => {
                    proof { assert(false); }
                }
            }
        }
    }
}

/// If `names[i]` reads `k` and no name before it does, `i` is the first place.
pub proof fn lemma_find_first(names: Seq<Seq<char>>, k: Seq<char>, i: int)
    requires
        0 <= i < names.len(),
        names[i] == k,
        forall|j: int| 0 <= j < i ==> names[j] != k,
    ensures
        find(names, k) == i,
    decreases names.len(),
{
    if i < names.len() - 1 {
        lemma_find_first(names.drop_last(), k, i);
    } else {
        lemma_find(names.drop_last(), k);
        assert forall|j: int| 0 <= j < names.drop_last().len() implies names.drop_last()[j] != k by {
            assert(names.drop_last()[j] == names[j]);
        }
    }
}

/// The error for the unknown variable `name`.
fn undefined(name: &Token) -> (e: RuntimeError)
    ensures
        e.spec_token() == name@,
        e.spec_message() == undefined_message(name@.lexeme),
{
    let mut msg = String::new();
    push_str(&mut msg, "Undefined variable '");
    push_str(&mut msg, name.get_lexeme());
    push_str(&mut msg, "'.");
    assert(msg@ =~= undefined_message(name@.lexeme));
    RuntimeError::new(name, msg.as_str())
}

} // verus!
