use vstd::hash_map::StringHashMap;
use vstd::prelude::*;
use vstd::string::*;
use crate::errors::{RuntimeError, RuntimeErrorView};
use crate::token::{LexemeView, Token, TokenView};
use crate::value::{Value, ValueView};

verus! {

/// The mathematical value of a scope: each name with its value.
pub type Scope = Map<Seq<char>, ValueView>;

/// The scope that a map from names to values stands for.
pub open spec fn scope_view(variables: Map<Seq<char>, Value>) -> Scope {
    variables.map_values(|value: Value| value@)
}

/// The index of the innermost scope that binds `name`, if any does. Scopes
/// are listed from the global one to the innermost.
pub open spec fn resolve(scopes: Seq<Scope>, name: Seq<char>) -> Option<int>
    decreases scopes.len(),
{
    if scopes.len() == 0 {
        None
    } else if scopes.last().contains_key(name) {
        Some(scopes.len() - 1)
    } else {
        resolve(scopes.drop_last(), name)
    }
}

/// The value that `name` has: that of the innermost scope that binds it.
pub open spec fn lookup(scopes: Seq<Scope>, name: Seq<char>) -> Option<ValueView> {
    match resolve(scopes, name) {
        Some(i) => Some(scopes[i][name]),
        None => None,
    }
}

/// The scopes after `name` has been defined in the innermost one.
pub open spec fn defined(scopes: Seq<Scope>, name: Seq<char>, value: ValueView) -> Seq<Scope> {
    scopes.update(scopes.len() - 1, scopes.last().insert(name, value))
}

/// The scopes after `name` has been given a new value in the innermost scope
/// that binds it; unchanged where none does.
pub open spec fn assigned(scopes: Seq<Scope>, name: Seq<char>, value: ValueView) -> Seq<Scope> {
    match resolve(scopes, name) {
        Some(i) => scopes.update(i, scopes[i].insert(name, value)),
        None => scopes,
    }
}

/// The name that an identifier token carries.
pub open spec fn name_of(token: TokenView) -> Seq<char> {
    token.lexeme->Identifier_0
}

/// The error for a variable that no scope binds.
pub open spec fn undefined(token: TokenView) -> RuntimeErrorView {
    RuntimeErrorView { line: token.line, message: "Undefined variable '"@ + name_of(token) + "'."@ }
}

/// `resolve` answers with a scope that binds the name, and with none only
/// if none binds it.
pub proof fn lemma_resolve(scopes: Seq<Scope>, name: Seq<char>)
    ensures
        match resolve(scopes, name) {
            Some(i) => 0 <= i < scopes.len() && scopes[i].contains_key(name) && forall|j: int|
                i < j < scopes.len() ==> !scopes[j].contains_key(name),
            None => forall|j: int| 0 <= j < scopes.len() ==> !scopes[j].contains_key(name),
        },
    decreases scopes.len(),
{
    if scopes.len() > 0 && !scopes.last().contains_key(name) {
        let front = scopes.drop_last();
        lemma_resolve(front, name);
        assert forall|j: int| 0 <= j < front.len() implies front[j] == scopes[j] by {}
        match resolve(front, name) {
            Some(i) => {
                assert forall|j: int| i < j < scopes.len() implies !scopes[j].contains_key(name) by {
                    if j < front.len() {
                        assert(front[j] == scopes[j]);
                    }
                }
            },
            None => {
                assert forall|j: int| 0 <= j < scopes.len() implies !scopes[j].contains_key(name) by {
                    if j < front.len() {
                        assert(front[j] == scopes[j]);
                    }
                }
            },
        }
    }
}

/// A variable declared in a block is gone when the block ends: defining a
/// name in a fresh innermost scope and dropping that scope leaves the
/// enclosing scopes as they were.
pub proof fn lemma_declaration_stays_in_block(scopes: Seq<Scope>, name: Seq<char>, value: ValueView)
    ensures
        defined(scopes.push(Map::empty()), name, value).drop_last() == scopes,
        lookup(defined(scopes.push(Map::empty()), name, value), name) == Some(value),
{
    let inner = scopes.push(Map::empty());
    assert(defined(inner, name, value).drop_last() =~= scopes);
}

/// An assignment in a block to a name of an enclosing scope changes that
/// scope: assigning through a fresh innermost scope and dropping it gives
/// what assigning in the enclosing scopes gives.
pub proof fn lemma_assignment_reaches_enclosing_scope(scopes: Seq<Scope>, name: Seq<char>, value: ValueView)
    requires
        resolve(scopes, name) is Some,
    ensures
        resolve(scopes.push(Map::empty()), name) == resolve(scopes, name),
        assigned(scopes.push(Map::empty()), name, value).drop_last() == assigned(scopes, name, value),
        lookup(assigned(scopes, name, value), name) == Some(value),
{
    let inner = scopes.push(Map::empty());
    assert(inner.drop_last() =~= scopes);
    lemma_resolve(scopes, name);
    let i = resolve(scopes, name)->Some_0;
    assert(assigned(inner, name, value).drop_last() =~= assigned(scopes, name, value));
    lemma_resolve_after_assignment(scopes, name, value);
}

/// An assignment does not change which scope binds a name.
pub proof fn lemma_resolve_after_assignment(scopes: Seq<Scope>, name: Seq<char>, value: ValueView)
    requires
        resolve(scopes, name) is Some,
    ensures
        resolve(assigned(scopes, name, value), name) == resolve(scopes, name),
        lookup(assigned(scopes, name, value), name) == Some(value),
    decreases scopes.len(),
{
    lemma_resolve(scopes, name);
    let i = resolve(scopes, name)->Some_0;
    let after = assigned(scopes, name, value);
    if scopes.last().contains_key(name) {
    } else {
        lemma_resolve_after_assignment(scopes.drop_last(), name, value);
        assert(after.drop_last() =~= assigned(scopes.drop_last(), name, value));
    }
}

/// Binding a name in a map of variables binds it in the scope that the map
/// stands for.
pub proof fn lemma_scope_insert(variables: Map<Seq<char>, Value>, name: Seq<char>, value: Value)
    ensures
        scope_view(variables.insert(name, value)) == scope_view(variables).insert(name, value@),
{
    assert(scope_view(variables.insert(name, value)) =~= scope_view(variables).insert(name, value@));
}

/// The chain of scopes that a statement runs in: the global scope and, inside
/// it, one scope for each block that is being executed. Each scope is a hash
/// map from names to values.
pub struct Environment {
    frames: Vec<StringHashMap<Value>>,
}

impl View for Environment {
    type V = Seq<Scope>;

    /// The scopes, from the global one to the innermost.
    closed spec fn view(&self) -> Seq<Scope> {
        Seq::new(self.frames@.len(), |i: int| scope_view(self.frames@[i]@))
    }
}

impl Environment {
    /// The environment's invariant: there is a global scope.
    pub closed spec fn wf(&self) -> bool {
        self.frames@.len() >= 1
    }

    /// An environment with an empty global scope.
    pub fn new() -> (r: Self)
        ensures
            r.wf(),
            r@ == seq![Map::<Seq<char>, ValueView>::empty()],
    {
        let mut frames: Vec<StringHashMap<Value>> = Vec::new();
        frames.push(StringHashMap::new());
        let r = Environment { frames };
        assert(r@ =~= seq![Map::<Seq<char>, ValueView>::empty()]) by {
            assert(scope_view(Map::<Seq<char>, Value>::empty()) =~= Map::<Seq<char>, ValueView>::empty());
        }
        r
    }

    /// The environment `enclosing` with a new scope opened inside its
    /// innermost one.
    pub fn new_with_scope(enclosing: Environment) -> (r: Self)
        requires
            enclosing.wf(),
        ensures
            r.wf(),
            r@ == enclosing@.push(Map::empty()),
    {
        let mut r = enclosing;
        r.push_child();
        r
    }

    /// The number of scopes.
    pub fn depth(&self) -> (r: usize)
        ensures
            r == self@.len(),
    {
        self.frames.len()
    }

    /// The number of variables of the innermost scope.
    pub fn variables(&self) -> (r: usize)
        requires
            self.wf(),
        ensures
            r == self@.last().len(),
    {
        let last = &self.frames[self.frames.len() - 1];
        proof {
            broadcast use vstd::hash_map::axiom_string_hash_map_spec_len;

            assert(scope_view(last@).dom() =~= last@.dom());
        }
        last.len()
    }

    /// The value of the variable called `name` in the innermost scope that
    /// binds it, if any does.
    pub fn retrieve(&self, name: &str) -> (r: Option<Value>)
        requires
            self.wf(),
        ensures
            match r {
                Some(value) => lookup(self@, name@) == Some(value@),
                None => lookup(self@, name@) is None,
            },
    {
        let mut k = self.frames.len();
        assert(self@.take(k as int) =~= self@);
        while k > 0
            invariant
                k <= self.frames@.len(),
                resolve(self@, name@) == resolve(self@.take(k as int), name@),
            decreases k,
        {
            proof {
                assert(self@.take(k as int).drop_last() =~= self@.take(k - 1));
            }
            match self.frames[k - 1].get(name) {
                Some(value) => {
                    return Some(value.clone());
                },
                None => {},
            }
            k = k - 1;
        }
        proof {
            assert(self@.take(0) =~= Seq::<Scope>::empty());
        }
        None
    }

    /// Opens a scope inside the innermost one.
    pub fn push_child(&mut self)
        requires
            old(self).wf(),
        ensures
            final(self).wf(),
            final(self)@ == old(self)@.push(Map::empty()),
    {
        self.frames.push(StringHashMap::new());
        assert(self@ =~= old(self)@.push(Map::empty())) by {
            assert(scope_view(Map::<Seq<char>, Value>::empty()) =~= Map::<Seq<char>, ValueView>::empty());
        }
    }

    /// Closes the innermost scope. The global scope stays.
    pub fn pop_child(&mut self)
        requires
            old(self).wf(),
            old(self)@.len() > 1,
        ensures
            final(self).wf(),
            final(self)@ == old(self)@.drop_last(),
    {
        let _ = self.frames.pop();
        assert(self@ =~= old(self)@.drop_last());
    }

    /// Closes every scope but the global one.
    pub fn reset(&mut self)
        requires
            old(self).wf(),
        ensures
            final(self).wf(),
            final(self)@ == old(self)@.take(1),
    {
        while self.frames.len() > 1
            invariant
                self.wf(),
                1 <= self@.len() <= old(self)@.len(),
                self@ == old(self)@.take(self@.len() as int),
            decreases self@.len(),
        {
            let ghost before = self@;
            let _ = self.frames.pop();
            assert(self@ =~= before.drop_last());
            assert(before.drop_last() =~= old(self)@.take(self@.len() as int));
        }
    }

    /// Binds `name` to `value` in the innermost scope, over any value that
    /// the name has there.
    pub fn define(&mut self, name: &Token, value: Value)
        requires
            old(self).wf(),
            name.lexeme is Identifier,
        ensures
            final(self).wf(),
            final(self)@ == defined(old(self)@, name_of(name@), value@),
    {
        let identifier = name.identifier();
        let last = self.frames.len() - 1;
        proof {
            lemma_scope_insert(self.frames@[last as int]@, identifier@, value);
        }
        self.frames[last].insert(identifier, value);
        assert(self@ =~= defined(old(self)@, name_of(name@), value@));
    }

    /// Gives `name` a new value in the innermost scope that binds it.
    pub fn assign(&mut self, name: &Token, value: Value) -> (r: Result<(), RuntimeError>)
        requires
            old(self).wf(),
            name.lexeme is Identifier,
        ensures
            final(self).wf(),
            final(self)@ == assigned(old(self)@, name_of(name@), value@),
            match r {
                Ok(_) => resolve(old(self)@, name_of(name@)) is Some,
                Err(e) => resolve(old(self)@, name_of(name@)) is None && e@ == undefined(name@),
            },
    {
        let identifier = name.identifier();
        let mut k = self.frames.len();
        assert(self@.take(k as int) =~= self@);
        while k > 0
            invariant
                self.wf(),
                *self == *old(self),
                k <= self.frames@.len(),
                identifier@ == name_of(name@),
                resolve(self@, identifier@) == resolve(self@.take(k as int), identifier@),
            decreases k,
        {
            proof {
                assert(self@.take(k as int).drop_last() =~= self@.take(k - 1));
            }
            if self.frames[k - 1].contains_key(identifier.as_str()) {
                proof {
                    lemma_scope_insert(self.frames@[k - 1]@, identifier@, value);
                }
                self.frames[k - 1].insert(identifier, value);
                assert(self@ =~= assigned(old(self)@, name_of(name@), value@));
                return Ok(());
            }
            k = k - 1;
        }
        proof {
            assert(self@.take(0) =~= Seq::<Scope>::empty());
        }
        Err(undefined_variable(name, identifier))
    }

    /// The value of `name` in the innermost scope that binds it.
    pub fn lookup(&self, name: &Token) -> (r: Result<Value, RuntimeError>)
        requires
            self.wf(),
            name.lexeme is Identifier,
        ensures
            match r {
                Ok(value) => lookup(self@, name_of(name@)) == Some(value@),
                Err(e) => lookup(self@, name_of(name@)) is None && e@ == undefined(name@),
            },
    {
        let identifier = name.identifier();
        match self.retrieve(identifier.as_str()) {
            Some(value) => Ok(value),
            None => Err(undefined_variable(name, identifier)),
        }
    }
}

/// The chain of scopes.
pub type EnvironmentData = Environment;

/// A new scope: the global one where nothing encloses it, else one opened
/// inside `enclosing`.
pub fn env_new(enclosing: Option<Environment>) -> (r: Environment)
    requires
        enclosing matches Some(outer) ==> outer.wf(),
    ensures
        r.wf(),
        r@ == match enclosing {
            Some(outer) => outer@.push(Map::empty()),
            None => seq![Map::<Seq<char>, ValueView>::empty()],
        },
{
    match enclosing {
        Some(outer) => Environment::new_with_scope(outer),
        None => Environment::new(),
    }
}

/// Binds `name` to `value` in the innermost scope.
pub fn env_define(env: &mut Environment, name: &Token, value: Value)
    requires
        old(env).wf(),
        name.lexeme is Identifier,
    ensures
        final(env).wf(),
        final(env)@ == defined(old(env)@, name_of(name@), value@),
{
    env.define(name, value)
}

/// Gives `name` a new value in the innermost scope that binds it.
pub fn env_assign(env: &mut Environment, name: &Token, value: Value) -> (r: Result<(), RuntimeError>)
    requires
        old(env).wf(),
        name.lexeme is Identifier,
    ensures
        final(env).wf(),
        final(env)@ == assigned(old(env)@, name_of(name@), value@),
        match r {
            Ok(_) => resolve(old(env)@, name_of(name@)) is Some,
            Err(e) => resolve(old(env)@, name_of(name@)) is None && e@ == undefined(name@),
        },
{
    env.assign(name, value)
}

/// The value of `name` in the innermost scope that binds it.
pub fn env_get(env: &Environment, name: &Token) -> (r: Result<Value, RuntimeError>)
    requires
        env.wf(),
        name.lexeme is Identifier,
    ensures
        match r {
            Ok(value) => lookup(env@, name_of(name@)) == Some(value@),
            Err(e) => lookup(env@, name_of(name@)) is None && e@ == undefined(name@),
        },
{
    env.lookup(name)
}

/// The error for the variable `name`, which no scope binds.
fn undefined_variable(name: &Token, identifier: String) -> (e: RuntimeError)
    requires
        name@.lexeme == LexemeView::Identifier(identifier@),
    ensures
        e@ == undefined(name@),
{
    let mut message = String::from_str("Undefined variable '");
    message.append(identifier.as_str());
    message.append("'.");
    RuntimeError::from_token(name, message)
}

} // verus!
