//! The environment: the values that names stand for while a program is
//! evaluated.

use crate::binding::Binding;
use crate::types::Value;
use vstd::hash_map::StringHashMap;
use vstd::prelude::*;

verus! {

/// Why an expression could not be evaluated.
#[derive(Debug, PartialEq, Eq)]
pub enum EvalError {
    /// The name is bound to no value.
    UnboundName(String),
    /// The right operand of a division is zero.
    DivisionByZero,
}

/// An [`EvalError`] as contracts see it: with the name as a sequence of
/// characters.
pub enum EvalErrorView {
    UnboundName(Seq<char>),
    DivisionByZero,
}

impl View for EvalError {
    type V = EvalErrorView;

    open spec fn view(&self) -> EvalErrorView {
        match self {
            EvalError::UnboundName(name) => EvalErrorView::UnboundName(name@),
            EvalError::DivisionByZero => EvalErrorView::DivisionByZero,
        }
    }
}

/// A flat store of named values. A name has at most one value: storing a
/// value under a name that has one replaces it.
pub struct Environment {
    env: StringHashMap<Value>,
}

impl View for Environment {
    type V = Map<Seq<char>, Value>;

    closed spec fn view(&self) -> Map<Seq<char>, Value> {
        self.env@
    }
}

/// What looking `name` up in `env` gives.
pub open spec fn lookup(env: Map<Seq<char>, Value>, name: Seq<char>) -> Result<
    Value,
    EvalErrorView,
> {
    if env.contains_key(name) {
        Ok(env[name])
    } else {
        Err(EvalErrorView::UnboundName(name))
    }
}

/// Whether the outcome of a lookup is the one that `v` describes.
pub open spec fn found(r: Result<Value, EvalError>, v: Result<Value, EvalErrorView>) -> bool {
    match (r, v) {
        (Ok(value), Ok(expected)) => value == expected,
        (Err(e), Err(expected)) => e@ == expected,
        _ => false,
    }
}

impl Environment {
    /// An environment in which no name is bound.
    pub fn new() -> (r: Self)
        ensures
            r@ == Map::<Seq<char>, Value>::empty(),
    {
        Self { env: StringHashMap::new() }
    }

    /// The value that `key` is bound to. Fails if it is bound to none.
    pub fn get_binding(&self, key: &str) -> (r: Result<Value, EvalError>)
        ensures
            found(r, lookup(self@, key@)),
    {
        match self.env.get(key) {
            Some(value) => Ok(*value),
            None => Err(EvalError::UnboundName(key.to_owned())),
        }
    }

    /// Binds the name of `binding` to its value, in place of the value that
    /// the name had, if it had one.
    pub fn store_binding(&mut self, binding: Binding)
        ensures
            final(self)@ == old(self)@.insert(binding.name@, binding.value),
    {
        self.env.insert(binding.name, binding.value);
    }
}

/// A value that was stored under a name is the one that the name gives; a
/// later value replaces an earlier one; other names keep what they had; and
/// where nothing was stored, every lookup fails.
pub proof fn lemma_store_then_lookup(
    env: Map<Seq<char>, Value>,
    name: Seq<char>,
    first: Value,
    second: Value,
    other: Seq<char>,
)
    ensures
        lookup(env.insert(name, first), name) == Ok::<Value, EvalErrorView>(first),
        lookup(env.insert(name, first).insert(name, second), name) == Ok::<Value, EvalErrorView>(
            second,
        ),
        other != name ==> lookup(env.insert(name, first), other) == lookup(env, other),
        lookup(Map::empty(), name) == Err::<Value, EvalErrorView>(EvalErrorView::UnboundName(name)),
{
}

} // verus!
