//! A small pipeline for a language of arithmetic: source lines become
//! tokens, tokens become statements, and statements are evaluated or turned
//! into an assembly program that prints their values.

pub mod binding;
pub mod codegen;
pub mod environment;
pub mod expression;
pub mod lexer;
pub mod parser;
pub mod statement;
pub mod token;
pub mod types;
pub mod utils;

use crate::expression::{operation_on_numbers, operation_on_numbers_ahead, Expression};
use crate::lexer::texts;
use crate::utils::{
    exrtact_until_char, lemma_run_len, lines_of, split_first, strip_carriage_return, CharClass,
};
use vstd::prelude::*;

verus! {

/// The number of lines that a new [`Buffer`] has room for.
pub const VEC_STARTING_SIZE: usize = 64000;

/// Source text, line by line.
#[derive(Debug, PartialEq, Eq)]
pub struct Buffer(pub Vec<String>);

impl Clone for Buffer {
    fn clone(&self) -> (r: Self)
        ensures
            texts(r.0@) == texts(self.0@),
    {
        let mut lines: Vec<String> = Vec::with_capacity(VEC_STARTING_SIZE);
        let mut i: usize = 0;
        while i < self.0.len()
            invariant
                i <= self.0@.len(),
                texts(lines@) == texts(self.0@).take(i as int),
            decreases self.0@.len() - i,
        {
            let ghost copied = texts(lines@);
            lines.push(self.0[i].clone());
            proof {
                assert(texts(lines@) =~= copied.push(self.0@[i as int]@));
            }
            i = i + 1;
        }
        Self(lines)
    }
}

impl Buffer {
    /// A buffer without lines.
    pub fn new() -> (r: Self)
        ensures
            r.0@.len() == 0,
    {
        Self(Vec::with_capacity(VEC_STARTING_SIZE))
    }

    /// Appends the lines of `string` to the buffer.
    pub fn push(&mut self, string: &str)
        ensures
            texts(final(self).0@) == texts(old(self).0@) + lines_of(string@),
    {
        let ghost before = texts(self.0@);
        let mut rest: &str = string;
        while !rest.is_empty()
            invariant
                before == texts(old(self).0@),
                texts(self.0@) + lines_of(rest@) == before + lines_of(string@),
            decreases rest@.len(),
        {
            let (after, line) = exrtact_until_char(rest, '\n');
            proof {
                lemma_run_len(rest@, CharClass::Except('\n'));
            }
            match split_first(after) {
                None => {
                    self.0.push(line.to_owned());
                    proof {
                        assert(line@ == rest@);
                    }
                    rest = after;
                },
                Some((_, next)) => {
                    let line = strip_carriage_return(line);
                    self.0.push(line.to_owned());
                    rest = next;
                },
            }
        }
    }
}

/// Whether every line of `lines` starts with an operation on two numbers.
pub open spec fn all_operations_on_numbers(lines: Seq<Seq<char>>) -> bool {
    forall|i: int| 0 <= i < lines.len() ==> operation_on_numbers_ahead(#[trigger] lines[i])
}

/// Reads one expression, an operation on two numbers, from the front of
/// each line of `buffer`.
pub fn convert_strings_to_expressions(buffer: Buffer) -> (r: Vec<Expression>)
    requires
        all_operations_on_numbers(texts(buffer.0@)),
    ensures
        r@.len() == buffer.0@.len(),
        forall|i: int| 0 <= i < r@.len() ==> (#[trigger] r@[i])@ == operation_on_numbers(
            buffer.0@[i]@,
        ),
{
    let mut vec: Vec<Expression> = Vec::new();
    let mut i: usize = 0;
    while i < buffer.0.len()
        invariant
            i <= buffer.0@.len(),
            all_operations_on_numbers(texts(buffer.0@)),
            vec@.len() == i,
            forall|j: int| 0 <= j < i ==> (#[trigger] vec@[j])@ == operation_on_numbers(
                buffer.0@[j]@,
            ),
        decreases buffer.0@.len() - i,
    {
        proof {
            assert(texts(buffer.0@)[i as int] == buffer.0@[i as int]@);
        }
        let (_, expression) = Expression::new(buffer.0[i].as_str());
        vec.push(expression);
        i = i + 1;
    }
    vec
}

} // verus!
