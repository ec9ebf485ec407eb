//! Scopes and the chain they form, from the innermost scope out to the global one.
//!
//! All scopes of a run live in one table and name each other by their place in it, so
//! that a function can keep the scope it was declared in for as long as it lives. A
//! scope's enclosing scope was made before it: a link that does not point backwards ends
//! the chain.
use crate::expression::{LiteralValue, ValueView};
use crate::scanner::Token;
use crate::text::{copy, same};
use vstd::prelude::*;

verus! {

/// The bindings of one scope and the scope around it.
pub struct ScopeView {
    pub bindings: Map<Seq<u8>, ValueView>,
    pub enclosing: Option<nat>,
}

/// One scope: names and their values, side by side. Of two entries with one name the later
/// one counts.
#[derive(Debug)]
pub struct Scope {
    names: Vec<Vec<u8>>,
    values: Vec<LiteralValue>,
    enclosing: Option<usize>,
}

/// The map from names to values that two lists, side by side, stand for.
pub open spec fn bindings_of(names: Seq<Vec<u8>>, values: Seq<LiteralValue>) -> Map<
    Seq<u8>,
    ValueView,
>
    decreases names.len(),
{
    if names.len() == 0 || values.len() != names.len() {
        Map::empty()
    } else {
        bindings_of(names.drop_last(), values.drop_last()).insert(names.last()@, values.last()@)
    }
}

/// Where the last entry of `name` stands in a list of names, or -1 where it has none.
pub open spec fn last_entry(names: Seq<Vec<u8>>, name: Seq<u8>) -> int
    decreases names.len(),
{
    if names.len() == 0 {
        -1
    } else if names.last()@ == name {
        names.len() - 1
    } else {
        last_entry(names.drop_last(), name)
    }
}

/// The last entry of a name is an entry of that name, and none follows it.
pub proof fn lemma_last_entry(names: Seq<Vec<u8>>, name: Seq<u8>)
    ensures
        -1 <= last_entry(names, name) < names.len(),
        last_entry(names, name) >= 0 ==> names[last_entry(names, name)]@ == name,
        forall|j: int| last_entry(names, name) < j < names.len() ==> names[j]@ != name,
    decreases names.len(),
{
    if names.len() > 0 && names.last()@ != name {
        let front = names.drop_last();
        lemma_last_entry(front, name);
        assert forall|j: int| last_entry(names, name) < j < names.len() implies names[j]@
            != name by {
            if j < names.len() - 1 {
                assert(front[j]@ != name);
            }
        }
    }
}

/// A name is bound exactly when it has an entry, and then to the value beside its last one.
pub proof fn lemma_bindings_of(names: Seq<Vec<u8>>, values: Seq<LiteralValue>, name: Seq<u8>)
    requires
        names.len() == values.len(),
    ensures
        bindings_of(names, values).contains_key(name) <==> last_entry(names, name) >= 0,
        last_entry(names, name) >= 0 ==> bindings_of(names, values)[name] == values[last_entry(
            names,
            name,
        )]@,
    decreases names.len(),
{
    if names.len() > 0 {
        let front = names.drop_last();
        lemma_bindings_of(front, values.drop_last(), name);
        lemma_last_entry(front, name);
        if names.last()@ != name && last_entry(front, name) >= 0 {
            assert(values.drop_last()[last_entry(front, name)] == values[last_entry(front, name)]);
        }
    }
}

/// Writing a value beside the last entry of a name binds the name to it and leaves every
/// other binding as it was.
pub proof fn lemma_bindings_update(
    names: Seq<Vec<u8>>,
    values: Seq<LiteralValue>,
    at: int,
    value: LiteralValue,
)
    requires
        names.len() == values.len(),
        0 <= at < names.len(),
        forall|j: int| at < j < names.len() ==> #[trigger] names[j]@ != names[at]@,
    ensures
        bindings_of(names, values.update(at, value)) == bindings_of(names, values).insert(
            names[at]@,
            value@,
        ),
    decreases names.len(),
{
    let updated = values.update(at, value);
    if at == names.len() - 1 {
        assert(updated.drop_last() =~= values.drop_last());
        assert(bindings_of(names, updated) =~= bindings_of(names, values).insert(
            names[at]@,
            value@,
        ));
    } else {
        let front = names.drop_last();
        assert forall|j: int| at < j < front.len() implies #[trigger] front[j]@ != front[at]@ by {
            assert(names[j]@ != names[at]@);
        }
        lemma_bindings_update(front, values.drop_last(), at, value);
        assert(updated.drop_last() =~= values.drop_last().update(at, value));
        assert(names[names.len() - 1]@ != names[at]@);
        assert(bindings_of(names, updated) =~= bindings_of(names, values).insert(
            names[at]@,
            value@,
        ));
    }
}

impl View for Scope {
    type V = ScopeView;

    closed spec fn view(&self) -> ScopeView {
        ScopeView {
            bindings: bindings_of(self.names@, self.values@),
            enclosing: match self.enclosing {
                Some(scope) => Some(scope as nat),
                None => None,
            },
        }
    }
}

impl Scope {
    pub closed spec fn wf(&self) -> bool {
        self.names.len() == self.values.len()
    }

    /// A scope without bindings.
    pub fn new(enclosing: Option<usize>) -> (scope: Scope)
        ensures
            scope.wf(),
            scope@.bindings == Map::<Seq<u8>, ValueView>::empty(),
            scope@.enclosing == match enclosing {
                Some(outer) => Some(outer as nat),
                None => None,
            },
    {
        Scope { names: Vec::new(), values: Vec::new(), enclosing }
    }

    pub fn enclosing(&self) -> (outer: Option<usize>)
        ensures
            self@.enclosing == match outer {
                Some(scope) => Some(scope as nat),
                None => None,
            },
    {
        self.enclosing
    }

    /// Where the last entry of `name` stands, if there is one.
    fn position(&self, name: &Vec<u8>) -> (found: Option<usize>)
        requires
            self.wf(),
        ensures
            match found {
                Some(at) => at == last_entry(self.names@, name@) && at < self.names.len(),
                None => last_entry(self.names@, name@) == -1,
            },
            found.is_some() == self@.bindings.contains_key(name@),
    {
        let mut at: usize = self.names.len();
        while at > 0
            invariant
                self.wf(),
                at <= self.names.len(),
                forall|j: int| at <= j < self.names.len() ==> self.names[j]@ != name@,
            decreases at,
        {
            at -= 1;
            if same(&self.names[at], name) {
                proof {
                    lemma_last_entry(self.names@, name@);
                    lemma_bindings_of(self.names@, self.values@, name@);
                }
                return Some(at);
            }
        }
        proof {
            lemma_last_entry(self.names@, name@);
            lemma_bindings_of(self.names@, self.values@, name@);
        }
        None
    }

    /// Whether the scope binds `name`.
    pub fn binds(&self, name: &Vec<u8>) -> (yes: bool)
        requires
            self.wf(),
        ensures
            yes == self@.bindings.contains_key(name@),
    {
        self.position(name).is_some()
    }

    /// The value that the scope binds `name` to.
    pub fn get(&self, name: &Vec<u8>) -> (value: Option<LiteralValue>)
        requires
            self.wf(),
        ensures
            match value {
                Some(v) => self@.bindings.contains_key(name@) && v@ == self@.bindings[name@],
                None => !self@.bindings.contains_key(name@),
            },
    {
        match self.position(name) {
            Some(at) => {
                proof {
                    lemma_bindings_of(self.names@, self.values@, name@);
                }
                Some(self.values[at].clone())
            },
            None => None,
        }
    }

    /// Binds `name` to `value`, whether or not the scope bound it before.
    pub fn set(&mut self, name: &Vec<u8>, value: LiteralValue)
        requires
            old(self).wf(),
        ensures
            final(self).wf(),
            final(self)@.bindings == old(self)@.bindings.insert(name@, value@),
            final(self)@.enclosing == old(self)@.enclosing,
    {
        match self.position(name) {
            Some(at) => {
                proof {
                    lemma_last_entry(self.names@, name@);
                    lemma_bindings_update(self.names@, self.values@, at as int, value);
                }
                self.values.set(at, value);
            },
            None => {
                let ghost names = self.names@;
                let ghost values = self.values@;
                self.names.push(copy(name));
                self.values.push(value);
                assert(self.names@.drop_last() =~= names);
                assert(self.values@.drop_last() =~= values);
            },
        }
    }
}

/// The views of a sequence of scopes, one for one.
pub open spec fn scope_views(scopes: Seq<Scope>) -> Seq<ScopeView> {
    Seq::new(scopes.len(), |i: int| scopes[i]@)
}

/// The scope that binds `name` for code that runs in scope `at`: `at` itself or the nearest
/// scope around it that binds the name.
pub open spec fn resolve(scopes: Seq<ScopeView>, at: nat, name: Seq<u8>) -> Option<nat>
    decreases at,
{
    if at >= scopes.len() {
        None
    } else if scopes[at as int].bindings.contains_key(name) {
        Some(at)
    } else {
        match scopes[at as int].enclosing {
            Some(outer) => if outer < at {
                resolve(scopes, outer, name)
            } else {
                None
            },
            None => None,
        }
    }
}

/// The scope that binds a name for code in scope `at` is `at` or a scope made before it,
/// and it does bind the name.
pub proof fn lemma_resolve(scopes: Seq<ScopeView>, at: nat, name: Seq<u8>)
    ensures
        match resolve(scopes, at, name) {
            Some(scope) => {
                &&& scope <= at
                &&& scope < scopes.len()
                &&& scopes[scope as int].bindings.contains_key(name)
            },
            None => true,
        },
    decreases at,
{
    if at < scopes.len() && !scopes[at as int].bindings.contains_key(name) {
        if let Some(outer) = scopes[at as int].enclosing {
            if outer < at {
                lemma_resolve(scopes, outer, name);
            }
        }
    }
}

pub struct EnvironmentView {
    pub scopes: Seq<ScopeView>,
    /// The scope in which code runs now.
    pub current: nat,
}

impl EnvironmentView {
    pub open spec fn wf(self) -> bool {
        self.current < self.scopes.len()
    }

    /// What a read of `name` gives: the first binding on the way out from the current scope.
    pub open spec fn lookup(self, name: Seq<u8>) -> Option<ValueView> {
        match resolve(self.scopes, self.current, name) {
            Some(scope) => Some(self.scopes[scope as int].bindings[name]),
            None => None,
        }
    }

    /// The environment after `var name = value`: the current scope binds the name anew.
    pub open spec fn define(self, name: Seq<u8>, value: ValueView) -> EnvironmentView {
        self.write(self.current, name, value)
    }

    /// The environment in which scope `scope` binds `name` to `value`.
    pub open spec fn write(self, scope: nat, name: Seq<u8>, value: ValueView) -> EnvironmentView {
        EnvironmentView {
            scopes: self.scopes.update(
                scope as int,
                ScopeView {
                    bindings: self.scopes[scope as int].bindings.insert(name, value),
                    enclosing: self.scopes[scope as int].enclosing,
                },
            ),
            current: self.current,
        }
    }

    /// The environment after `name = value`, where some scope on the way out binds the name:
    /// the innermost such scope is written to, and no binding is made.
    pub open spec fn assign(self, name: Seq<u8>, value: ValueView) -> Option<EnvironmentView> {
        match resolve(self.scopes, self.current, name) {
            Some(scope) => Some(self.write(scope, name, value)),
            None => None,
        }
    }

    /// The environment with a new, empty scope inside `parent`, which becomes the current one.
    pub open spec fn enter(self, parent: nat) -> EnvironmentView {
        EnvironmentView {
            scopes: self.scopes.push(
                ScopeView { bindings: Map::empty(), enclosing: Some(parent) },
            ),
            current: self.scopes.len(),
        }
    }

    /// The same scopes, with `scope` as the current one.
    pub open spec fn at(self, scope: nat) -> EnvironmentView {
        EnvironmentView { scopes: self.scopes, current: scope }
    }
}

#[derive(Debug)]
pub struct Environment {
    scopes: Vec<Scope>,
    current: usize,
}

impl View for Environment {
    type V = EnvironmentView;

    closed spec fn view(&self) -> EnvironmentView {
        EnvironmentView { scopes: scope_views(self.scopes@), current: self.current as nat }
    }
}

impl Environment {
    pub closed spec fn wf(&self) -> bool {
        &&& self.current < self.scopes.len()
        &&& forall|i: int| 0 <= i < self.scopes.len() ==> #[trigger] self.scopes[i].wf()
    }

    /// The global scope alone, without bindings.
    pub fn new() -> (environment: Environment)
        ensures
            environment.wf(),
            environment@.wf(),
            environment@.current == 0,
            environment@.scopes == seq![
                ScopeView { bindings: Map::<Seq<u8>, ValueView>::empty(), enclosing: None },
            ],
    {
        let mut scopes: Vec<Scope> = Vec::new();
        scopes.push(Scope::new(None));
        let environment = Environment { scopes, current: 0 };
        assert(environment@.scopes =~= seq![
            ScopeView { bindings: Map::<Seq<u8>, ValueView>::empty(), enclosing: None },
        ]);
        environment
    }

    /// A new scope inside the current scope of `enclosing`.
    pub fn with_enclosing(enclosing: Environment) -> (environment: Environment)
        requires
            enclosing.wf(),
        ensures
            environment.wf(),
            environment@ == enclosing@.enter(enclosing@.current),
    {
        let mut environment = enclosing;
        let parent = environment.current;
        environment.enter(parent);
        environment
    }

    pub fn current(&self) -> (scope: usize)
        ensures
            scope == self@.current,
    {
        self.current
    }

    /// How many scopes there are.
    pub fn len(&self) -> (count: usize)
        ensures
            count == self@.scopes.len(),
    {
        self.scopes.len()
    }

    /// Makes a new, empty scope inside `parent` and moves into it.
    pub fn enter(&mut self, parent: usize)
        requires
            old(self).wf(),
        ensures
            final(self).wf(),
            final(self)@ == old(self)@.enter(parent as nat),
    {
        self.scopes.push(Scope::new(Some(parent)));
        self.current = self.scopes.len() - 1;
        assert(self@.scopes =~= old(self)@.enter(parent as nat).scopes);
    }

    /// Moves to `scope`.
    pub fn leave(&mut self, scope: usize)
        requires
            old(self).wf(),
            scope < old(self)@.scopes.len(),
        ensures
            final(self).wf(),
            final(self)@ == old(self)@.at(scope as nat),
    {
        self.current = scope;
    }

    /// Binds the name of the token in the current scope, whether or not it was bound there
    /// before.
    pub fn define(&mut self, name: &Token, value: LiteralValue)
        requires
            old(self).wf(),
        ensures
            final(self).wf(),
            final(self)@ == old(self)@.define(name@.lexeme, value@),
    {
        self.bind(&name.lexeme, value);
    }

    /// Binds `name` in the current scope, whether or not it was bound there before.
    pub fn bind(&mut self, name: &Vec<u8>, value: LiteralValue)
        requires
            old(self).wf(),
        ensures
            final(self).wf(),
            final(self)@ == old(self)@.define(name@, value@),
    {
        let current = self.current;
        self.write(current, name, value);
    }

    /// Binds `name` in scope `scope`.
    fn write(&mut self, scope: usize, name: &Vec<u8>, value: LiteralValue)
        requires
            old(self).wf(),
            scope < old(self).scopes.len(),
        ensures
            final(self).wf(),
            final(self)@ == old(self)@.write(scope as nat, name@, value@),
    {
        let ghost before = self.scopes@;
        self.scopes[scope].set(name, value);
        assert(forall|i: int|
            0 <= i < self.scopes.len() && i != scope ==> self.scopes@[i] == before[i]);
        assert(self@.scopes =~= old(self)@.write(scope as nat, name@, value@).scopes);
    }

    /// The scope that binds `name`, looking from the current scope outwards.
    fn find(&self, name: &Vec<u8>) -> (found: Option<usize>)
        requires
            self.wf(),
        ensures
            match found {
                Some(scope) => scope < self.scopes.len() && resolve(
                    self@.scopes,
                    self@.current,
                    name@,
                ) == Some(scope as nat) && self@.scopes[scope as int].bindings.contains_key(name@),
                None => resolve(self@.scopes, self@.current, name@).is_none(),
            },
    {
        let mut at: usize = self.current;
        loop
            invariant
                self.wf(),
                at < self.scopes.len(),
                resolve(self@.scopes, at as nat, name@) == resolve(
                    self@.scopes,
                    self@.current,
                    name@,
                ),
            decreases at,
        {
            if self.scopes[at].binds(name) {
                return Some(at);
            }
            match self.scopes[at].enclosing() {
                Some(outer) => {
                    if outer < at {
                        at = outer;
                    } else {
                        return None;
                    }
                },
                None => {
                    return None;
                },
            }
        }
    }

    /// The value of `name`: that of the first binding on the way out from the current scope.
    pub fn get(&self, name: &Vec<u8>) -> (value: Option<LiteralValue>)
        requires
            self.wf(),
        ensures
            match value {
                Some(v) => self@.lookup(name@) == Some(v@),
                None => self@.lookup(name@).is_none(),
            },
    {
        match self.find(name) {
            Some(scope) => {
                assert(self@.scopes[scope as int] == self.scopes[scope as int]@);
                self.scopes[scope].get(name)
            },
            None => None,
        }
    }

    /// Writes `value` to the innermost binding of the name of the token. Says whether there
    /// was one: no binding is made.
    pub fn assign(&mut self, token: &Token, value: &LiteralValue) -> (assigned: bool)
        requires
            old(self).wf(),
        ensures
            final(self).wf(),
            match old(self)@.assign(token@.lexeme, value@) {
                Some(environment) => assigned && final(self)@ == environment,
                None => !assigned && final(self)@ == old(self)@,
            },
    {
        self.rebind(&token.lexeme, value)
    }

    /// Writes `value` to the innermost binding of `name`. Says whether there was one: no
    /// binding is made.
    pub fn rebind(&mut self, name: &Vec<u8>, value: &LiteralValue) -> (assigned: bool)
        requires
            old(self).wf(),
        ensures
            final(self).wf(),
            match old(self)@.assign(name@, value@) {
                Some(environment) => assigned && final(self)@ == environment,
                None => !assigned && final(self)@ == old(self)@,
            },
    {
        match self.find(name) {
            Some(scope) => {
                self.write(scope, name, value.clone());
                true
            },
            None => false,
        }
    }
}

} // verus!
