//! Variable scopes: a chain from the innermost block out to the globals.
use vstd::prelude::*;
use vstd::string::StringExecFns;
use crate::interpreter::RuntimeError;
use crate::interpreter::RuntimeErrorView;
use crate::literal_object::Literal;
use crate::literal_object::Value;
use crate::support::same_text;
use crate::token::Token;
use crate::token::TokenView;

verus! {

/// The scopes of a chain as contracts speak of them, innermost first: each
/// maps the names it defines to their values.
pub type Scopes = Seq<Map<Seq<char>, Value>>;

/// The value that `name` stands for: that of the nearest scope defining it.
pub open spec fn lookup(scopes: Scopes, name: Seq<char>) -> Option<Value>
    decreases scopes.len(),
{
    if scopes.len() == 0 {
        None
    } else if scopes[0].contains_key(name) {
        Some(scopes[0][name])
    } else {
        lookup(scopes.drop_first(), name)
    }
}

/// The scopes after `name` is defined in the innermost one.
pub open spec fn defined(scopes: Scopes, name: Seq<char>, value: Value) -> Scopes {
    scopes.update(0, scopes[0].insert(name, value))
}

/// The scopes after `value` is assigned to `name` in the nearest scope that
/// defines it, or `None` where no scope does.
pub open spec fn assigned(scopes: Scopes, name: Seq<char>, value: Value) -> Option<Scopes>
    decreases scopes.len(),
{
    if scopes.len() == 0 {
        None
    } else if scopes[0].contains_key(name) {
        Some(scopes.update(0, scopes[0].insert(name, value)))
    } else {
        match assigned(scopes.drop_first(), name, value) {
            Some(outer) => Some(seq![scopes[0]] + outer),
            None => None,
        }
    }
}

/// The error for a name that no scope defines.
pub open spec fn undefined_variable(name: TokenView) -> RuntimeErrorView {
    RuntimeErrorView {
        token: name,
        message: "Undefined variable '"@ + name.lexeme + "'."@,
    }
}

/// The map that a list of bindings stands for: of two bindings of one name,
/// the later one counts.
pub open spec fn bindings_map(bindings: Seq<(String, Literal)>) -> Map<Seq<char>, Value>
    decreases bindings.len(),
{
    if bindings.len() == 0 {
        Map::empty()
    } else {
        bindings_map(bindings.drop_last()).insert(bindings.last().0@, bindings.last().1@)
    }
}

/// Whether the binding at `index` is the last one of `name`.
pub open spec fn binds_at(bindings: Seq<(String, Literal)>, name: Seq<char>, index: int) -> bool {
    &&& 0 <= index < bindings.len()
    &&& bindings[index].0@ == name
    &&& forall|later: int| index < later < bindings.len() ==> (#[trigger] bindings[later]).0@ != name
}

/// A name that no binding has is not in the map.
pub proof fn lemma_unbound(bindings: Seq<(String, Literal)>, name: Seq<char>)
    requires
        forall|i: int| 0 <= i < bindings.len() ==> (#[trigger] bindings[i]).0@ != name,
    ensures
        !bindings_map(bindings).contains_key(name),
    decreases bindings.len(),
{
    if bindings.len() > 0 {
        lemma_unbound(bindings.drop_last(), name);
    }
}

/// The map gives a name the value of its last binding, and overwriting that
/// binding is inserting into the map.
pub proof fn lemma_bound(
    bindings: Seq<(String, Literal)>,
    name: Seq<char>,
    index: int,
    binding: (String, Literal),
)
    requires
        binds_at(bindings, name, index),
        binding.0@ == name,
    ensures
        bindings_map(bindings).contains_key(name),
        bindings_map(bindings)[name] == bindings[index].1@,
        bindings_map(bindings.update(index, binding)) == bindings_map(bindings).insert(
            name,
            binding.1@,
        ),
    decreases bindings.len(),
{
    let updated = bindings.update(index, binding);
    if index == bindings.len() - 1 {
        assert(updated.drop_last() =~= bindings.drop_last());
        assert(bindings_map(updated) =~= bindings_map(bindings).insert(name, binding.1@));
    } else {
        lemma_bound(bindings.drop_last(), name, index, binding);
        assert(updated.drop_last() =~= bindings.drop_last().update(index, binding));
        assert(bindings_map(updated) =~= bindings_map(bindings).insert(name, binding.1@));
    }
}

/// One scope with the chain of scopes around it.
pub struct Environment {
    pub values: Vec<(String, Literal)>,
    pub enclosing: Option<Box<Environment>>,
}

impl Environment {
    /// The scopes of the chain, innermost first.
    pub open spec fn scopes(&self) -> Scopes
        decreases self,
    {
        match self.enclosing {
            Some(outer) => seq![bindings_map(self.values@)] + outer.scopes(),
            None => seq![bindings_map(self.values@)],
        }
    }
}

/// A chain has its own scope, and more than one exactly where it is enclosed.
pub proof fn lemma_scope_count(environment: Environment)
    ensures
        environment@.len() >= 1,
        environment.enclosing is Some <==> environment@.len() >= 2,
    decreases environment,
{
    match environment.enclosing {
        Some(outer) => {
            lemma_scope_count(*outer);
        },
        None => {},
    }
}

impl View for Environment {
    type V = Scopes;

    open spec fn view(&self) -> Scopes {
        self.scopes()
    }
}

impl Environment {
    /// An empty scope, inside `enclosing` where there is one.
    pub fn new(enclosing: Option<Box<Environment>>) -> (environment: Self)
        ensures
            environment.values@.len() == 0,
            environment.enclosing == enclosing,
            environment@ == match enclosing {
                Some(outer) => seq![Map::<Seq<char>, Value>::empty()] + outer@,
                None => seq![Map::<Seq<char>, Value>::empty()],
            },
    {
        Environment { values: Vec::new(), enclosing }
    }

    /// An empty scope inside `enclosing`.
    pub fn new_enclosed(enclosing: Environment) -> (environment: Self)
        ensures
            environment.values@.len() == 0,
            environment.enclosing == Some(Box::new(enclosing)),
            environment@ == seq![Map::<Seq<char>, Value>::empty()] + enclosing@,
    {
        Environment { values: Vec::new(), enclosing: Some(Box::new(enclosing)) }
    }

    /// The index of the last binding of `name` in this scope.
    fn find(&self, name: &str) -> (found: Option<usize>)
        ensures
            match found {
                Some(index) => binds_at(self.values@, name@, index as int),
                None => forall|i: int|
                    0 <= i < self.values@.len() ==> (#[trigger] self.values@[i]).0@ != name@,
            },
    {
        let mut index = self.values.len();
        while index > 0
            invariant
                index <= self.values@.len(),
                forall|i: int|
                    index <= i < self.values@.len() ==> (#[trigger] self.values@[i]).0@ != name@,
            decreases index,
        {
            index = index - 1;
            if same_text(self.values[index].0.as_str(), name) {
                return Some(index);
            }
        }
        None
    }

    /// Binds `name` to `value` in this scope, whether or not it was bound.
    pub fn define(&mut self, name: &str, value: Literal)
        ensures
            final(self)@ == defined(old(self)@, name@, value@),
            final(self).enclosing == old(self).enclosing,
    {
        let binding = (String::from_str(name), value);
        match self.find(name) {
            Some(index) => {
                proof {
                    lemma_bound(self.values@, name@, index as int, binding);
                }
                self.values[index] = binding;
            },
            None => {
                assert(self.values@.push(binding).drop_last() =~= self.values@);
                self.values.push(binding);
            },
        }
        assert(final(self)@ =~= defined(old(self)@, name@, value@));
    }

    /// Gives `value` to `name` in the nearest scope that defines it, and
    /// fails where none does, leaving every scope as it was.
    pub fn assign(&mut self, name: Token, value: Literal) -> (result: Result<(), RuntimeError>)
        ensures
            final(self)@.len() == old(self)@.len(),
            match assigned(old(self)@, name@.lexeme, value@) {
                Some(scopes) => result is Ok && final(self)@ == scopes,
                None => {
                    &&& result is Err
                    &&& result->Err_0@ == undefined_variable(name@)
                    &&& final(self)@ == old(self)@
                },
            },
        decreases *old(self),
    {
        match self.find(name.lexeme.as_str()) {
            Some(index) => {
                let binding = (name.lexeme, value);
                proof {
                    lemma_bound(self.values@, name@.lexeme, index as int, binding);
                }
                self.values[index] = binding;
                assert(final(self)@ =~= assigned(old(self)@, name@.lexeme, value@)->0);
                Ok(())
            },
            None => {
                proof {
                    lemma_unbound(self.values@, name@.lexeme);
                }
                match &mut self.enclosing {
                    Some(outer) => {
                        let ghost outer_before = outer@;
                        assert(old(self)@.drop_first() =~= outer_before);
                        assert(old(self)@ =~= seq![old(self)@[0]] + outer_before);
                        let result = outer.assign(name, value);
                        assert(final(self)@ =~= seq![old(self)@[0]] + outer@);
                        result
                    },
                    None => {
                        assert(old(self)@.drop_first() =~= Seq::<Map<Seq<char>, Value>>::empty());
                        assert(assigned(old(self)@.drop_first(), name@.lexeme, value@) is None);
                        Err(undefined(name))
                    },
                }
            },
        }
    }

    /// The value of `name` in the nearest scope that defines it.
    pub fn get(&self, name: Token) -> (result: Result<Literal, RuntimeError>)
        ensures
            match lookup(self@, name@.lexeme) {
                Some(value) => result is Ok && result->Ok_0@ == value,
                None => result is Err && result->Err_0@ == undefined_variable(name@),
            },
        decreases self,
    {
        match self.find(name.lexeme.as_str()) {
            Some(index) => {
                proof {
                    lemma_bound(self.values@, name@.lexeme, index as int, self.values@[index as int]);
                }
                Ok(self.values[index].1.clone())
            },
            None => {
                proof {
                    lemma_unbound(self.values@, name@.lexeme);
                }
                match &self.enclosing {
                    Some(outer) => {
                        assert(self@.drop_first() =~= outer@);
                        outer.get(name)
                    },
                    None => {
                        assert(self@.drop_first() =~= Seq::<Map<Seq<char>, Value>>::empty());
                        assert(lookup(self@.drop_first(), name@.lexeme) is None);
                        Err(undefined(name))
                    },
                }
            },
        }
    }
}

/// Builds the error for a name that no scope defines.
fn undefined(name: Token) -> (error: RuntimeError)
    ensures
        error@ == undefined_variable(name@),
{
    let mut message = String::from_str("Undefined variable '");
    message.append(name.lexeme.as_str());
    message.append("'.");
    RuntimeError::new(name, message.as_str())
}

} // verus!
