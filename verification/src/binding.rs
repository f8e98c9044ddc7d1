//! Bindings: a name and the value it stands for.

use crate::environment::Environment;
use crate::expression::{
    after_operation_on_numbers, in_range, number_of, operation_on_numbers,
    operation_on_numbers_ahead, value_of, Expression,
};
use crate::types::{skip_whitespace, Value};
use crate::utils::{
    after_run, extract_keyword, extract_name, extract_whitespace, keyword_error, run, CharClass,
};
use vstd::pervasive::unreached;
use vstd::prelude::*;

verus! {

/// A name bound to a value.
#[derive(Debug, PartialEq, Eq)]
pub struct Binding {
    pub name: String,
    pub value: Value,
}

impl Clone for Binding {
    fn clone(&self) -> (r: Self)
        ensures
            r.name@ == self.name@,
            r.value == self.value,
    {
        Self { name: self.name.clone(), value: self.value }
    }
}

/// In a text that starts with `let`: what stands after `let` and the white
/// space that follows it.
pub open spec fn from_name(s: Seq<char>) -> Seq<char> {
    skip_whitespace(s.skip(3))
}

/// The name that a binding text binds: the word after `let`.
pub open spec fn bound_name(s: Seq<char>) -> Seq<char> {
    run(from_name(s), CharClass::NonWhitespace)
}

/// What stands after the name and the white space that follows it.
pub open spec fn from_sign(s: Seq<char>) -> Seq<char> {
    skip_whitespace(after_run(from_name(s), CharClass::NonWhitespace))
}

/// What stands after the sign `=` and the white space that follows it.
pub open spec fn from_value(s: Seq<char>) -> Seq<char> {
    skip_whitespace(from_sign(s).skip(1))
}

/// Whether `s` has the form of a binding as far as its keywords go: it
/// starts with `let`, and `=` follows the name.
pub open spec fn is_binding(s: Seq<char>) -> bool {
    seq!['l', 'e', 't'].is_prefix_of(s) && seq!['='].is_prefix_of(from_sign(s))
}

/// Whether the value of the binding text `s` can be read and computed: an
/// operation on two numbers follows the sign `=`, it divides by no zero, and
/// its result is representable.
pub open spec fn has_value(s: Seq<char>) -> bool {
    &&& operation_on_numbers_ahead(from_value(s))
    &&& in_range(operation_on_numbers(from_value(s)), Map::empty())
    &&& value_of(operation_on_numbers(from_value(s)), Map::empty()) is Ok
}

/// The number that the binding text `s` binds its name to.
pub open spec fn bound_value(s: Seq<char>) -> int {
    value_of(operation_on_numbers(from_value(s)), Map::empty())->Ok_0
}

impl Binding {
    /// Reads a binding from the front of `string`: `let`, a name, `=`, and an
    /// operation on two numbers, whose result the name is bound to. Returns
    /// what follows the binding, and the binding. Fails if `let` or `=` is
    /// missing. Returns `None` if both are there and the value cannot be
    /// read or computed.
    pub fn try_new(string: &str) -> (r: Option<Result<(&str, Self), String>>)
        ensures
            r is None <==> is_binding(string@) && !has_value(string@),
            is_binding(string@) && has_value(string@) ==> r is Some && r->Some_0 is Ok
                && r->Some_0->Ok_0.0@ == after_operation_on_numbers(from_value(string@))
                && r->Some_0->Ok_0.1.name@ == bound_name(string@) && number_of(
                r->Some_0->Ok_0.1.value,
            ) == bound_value(string@),
            !is_binding(string@) ==> r is Some && r->Some_0 is Err && r->Some_0->Err_0@
                == keyword_error(),
    {
        proof {
            reveal_strlit("let");
            reveal_strlit("=");
        }
        let string = match extract_keyword(string, "let") {
            Ok(rest) => rest,
            Err(e) => {
                return Some(Err(e));
            },
        };
        let (string, _) = extract_whitespace(string);
        let (string, name) = match extract_name(string) {
            Ok(parts) => parts,
            Err(e) => {
                return Some(Err(e));
            },
        };
        let (string, _) = extract_whitespace(string);
        let string = match extract_keyword(string, "=") {
            Ok(rest) => rest,
            Err(e) => {
                return Some(Err(e));
            },
        };
        let (string, _) = extract_whitespace(string);
        let (string, expr) = match Expression::try_new(string) {
            Some(read) => read,
            None => {
                return None;
            },
        };
        match expr.try_eval(&Environment::new()) {
            Some(Ok(value)) => Some(Ok((string, Self { name: name.to_owned(), value }))),
            _ => None,
        }
    }

    /// Reads a binding from the front of `string`: `let`, a name, `=`, and an
    /// operation on two numbers, whose result the name is bound to. Returns
    /// what follows the binding, and the binding. Fails if `let` or `=` is
    /// missing.
    pub fn new(string: &str) -> (r: Result<(&str, Self), String>)
        requires
            is_binding(string@) ==> has_value(string@),
        ensures
            is_binding(string@) ==> r is Ok && r->Ok_0.0@ == after_operation_on_numbers(
                from_value(string@),
            ) && r->Ok_0.1.name@ == bound_name(string@) && number_of(r->Ok_0.1.value)
                == bound_value(string@),
            !is_binding(string@) ==> r is Err && r->Err_0@ == keyword_error(),
    {
        match Binding::try_new(string) {
            Some(r) => r,
            None => unreached(),
        }
    }
}

} // verus!
