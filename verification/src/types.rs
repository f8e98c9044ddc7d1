//! Numbers and arithmetic operations, and how they are read from text.

use crate::utils::{
    after_run, extract_number, extract_whitespace, is_digit, run, split_first, CharClass,
};
use vstd::pervasive::unreached;
use vstd::prelude::*;
use vstd::string::StringExecFns;

verus! {

/// An integer: a literal of the language, or the result of evaluating an
/// expression.
#[derive(Clone, Copy, Debug, PartialEq, Eq, Structural)]
pub struct Number(pub i64);

/// What an expression evaluates to.
#[derive(Clone, Copy, Debug, PartialEq, Eq, Structural)]
pub enum Value {
    Number(Number),
}

/// The four arithmetic operations of the language.
#[derive(Clone, Copy, Debug, PartialEq, Eq, Structural)]
pub enum Operation {
    Addition,
    Subtraction,
    Multiplication,
    Division,
}

/// The value of a decimal digit; 0 for any other character.
pub open spec fn digit_value(c: char) -> nat {
    if is_digit(c) {
        (c as u32 - '0' as u32) as nat
    } else {
        0
    }
}

/// The number that the digits of `s` denote in base ten.
pub open spec fn decimal_value(s: Seq<char>) -> nat
    decreases s.len(),
{
    if s.len() == 0 {
        0
    } else {
        10 * decimal_value(s.drop_last()) + digit_value(s.last())
    }
}

/// Whether every character of `s` is a decimal digit.
pub open spec fn all_digits(s: Seq<char>) -> bool {
    forall|j: int| 0 <= j < s.len() ==> is_digit(#[trigger] s[j])
}

/// A number literal: one or more decimal digits whose value an `i64` can
/// hold.
pub open spec fn is_number_literal(s: Seq<char>) -> bool {
    s.len() > 0 && all_digits(s) && decimal_value(s) <= i64::MAX
}

/// A prefix of `s` denotes no more than `s` itself.
pub proof fn lemma_decimal_value_prefix(s: Seq<char>, j: int)
    requires
        0 <= j <= s.len(),
    ensures
        decimal_value(s.take(j)) <= decimal_value(s),
    decreases s.len() - j,
{
    if j < s.len() {
        lemma_decimal_value_prefix(s, j + 1);
        assert(s.take(j + 1).drop_last() == s.take(j));
    } else {
        assert(s.take(j) == s);
    }
}

/// Reads `text` as a number literal. Returns `None` if it is no number
/// literal.
pub fn parse_decimal(text: &str) -> (r: Option<i64>)
    ensures
        r is Some <==> is_number_literal(text@),
        r is Some ==> r->Some_0 == decimal_value(text@),
{
    let n = text.unicode_len();
    let mut acc: i64 = 0;
    let mut valid = true;
    for c in it: text.chars()
        invariant
            it.seq() == text@,
            n == text@.len(),
            valid ==> acc == decimal_value(text@.take(it.index() as int)) && all_digits(
                text@.take(it.index() as int),
            ),
            !valid ==> !(all_digits(text@) && decimal_value(text@) <= i64::MAX),
    {
        let ghost i = it.index() as int;
        proof {
            assert(text@.take(i + 1).drop_last() == text@.take(i));
            lemma_decimal_value_prefix(text@, i + 1);
        }
        if valid {
            if '0' <= c && c <= '9' {
                let d: i64 = (c as u32 - '0' as u32) as i64;
                if acc <= (i64::MAX - d) / 10 {
                    acc = acc * 10 + d;
                } else {
                    valid = false;
                }
            } else {
                valid = false;
            }
        }
    }
    proof {
        assert(text@.take(n as int) == text@);
    }
    if valid && n > 0 {
        Some(acc)
    } else {
        None
    }
}

/// What is left of `s` after its leading white space.
pub open spec fn skip_whitespace(s: Seq<char>) -> Seq<char> {
    after_run(s, CharClass::Whitespace)
}

/// Whether `s`, after optional white space, starts with a number literal.
pub open spec fn number_ahead(s: Seq<char>) -> bool {
    is_number_literal(run(skip_whitespace(s), CharClass::Digit))
}

/// The number that the digits at the front of `s` denote, after optional
/// white space.
pub open spec fn number_at(s: Seq<char>) -> nat {
    decimal_value(run(skip_whitespace(s), CharClass::Digit))
}

/// What follows the digits at the front of `s`.
pub open spec fn after_number(s: Seq<char>) -> Seq<char> {
    after_run(skip_whitespace(s), CharClass::Digit)
}

impl Number {
    /// Reads a number from the front of `string`, after optional white space.
    /// Returns what follows the number, and the number; `None` if no number
    /// literal stands there.
    pub fn try_new(string: &str) -> (r: Option<(&str, Number)>)
        ensures
            r is Some <==> number_ahead(string@),
            r is Some ==> r->Some_0.0@ == after_number(string@) && r->Some_0.1.0 == number_at(
                string@,
            ),
    {
        let (string, _) = extract_whitespace(string);
        let (string, number) = extract_number(string);
        match parse_decimal(number) {
            Some(n) => Some((string, Number(n))),
            None => None,
        }
    }

    /// Reads a number from the front of `string`, after optional white space.
    /// Returns what follows the number, and the number.
    pub fn new(string: &str) -> (r: (&str, Number))
        requires
            number_ahead(string@),
        ensures
            r.0@ == after_number(string@),
            r.1.0 == number_at(string@),
    {
        match Number::try_new(string) {
            Some(read) => read,
            None => unreached(),
        }
    }
}

/// The operation that `c` stands for, if any.
pub open spec fn operation_of(c: char) -> Option<Operation> {
    if c == '+' {
        Some(Operation::Addition)
    } else if c == '-' {
        Some(Operation::Subtraction)
    } else if c == '*' {
        Some(Operation::Multiplication)
    } else if c == '/' {
        Some(Operation::Division)
    } else {
        None
    }
}

/// Whether `s`, after optional white space, starts with the sign of an
/// operation.
pub open spec fn operation_ahead(s: Seq<char>) -> bool {
    skip_whitespace(s).len() > 0 && operation_of(skip_whitespace(s)[0]) is Some
}

/// The operation whose sign stands at the front of `s`, after optional white
/// space.
pub open spec fn operation_at(s: Seq<char>) -> Operation {
    operation_of(skip_whitespace(s)[0])->Some_0
}

/// What follows the sign of an operation at the front of `s`.
pub open spec fn after_operation(s: Seq<char>) -> Seq<char> {
    skip_whitespace(s).skip(1)
}

/// Reads the sign of an operation from the front of `string`, after optional
/// white space. Returns what follows the sign, and the operation.
pub fn extract_operation(string: &str) -> (r: (&str, Operation))
    requires
        operation_ahead(string@),
    ensures
        r.0@ == after_operation(string@),
        r.1 == operation_at(string@),
{
    match Operation::try_new(string) {
        Some(read) => read,
        None => unreached(),
    }
}

impl Operation {
    /// Reads the sign of an operation from the front of `string`, after
    /// optional white space. Returns what follows the sign, and the
    /// operation; `None` if no such sign stands there.
    pub fn try_new(string: &str) -> (r: Option<(&str, Operation)>)
        ensures
            r is Some <==> operation_ahead(string@),
            r is Some ==> r->Some_0.0@ == after_operation(string@) && r->Some_0.1
                == operation_at(string@),
    {
        let (string, _) = extract_whitespace(string);
        let (c, string) = match split_first(string) {
            Some(parts) => parts,
            None => {
                return None;
            },
        };
        let op = if c == '+' {
            Operation::Addition
        } else if c == '-' {
            Operation::Subtraction
        } else if c == '*' {
            Operation::Multiplication
        } else if c == '/' {
            Operation::Division
        } else {
            return None;
        };
        Some((string, op))
    }

    /// Reads the sign of an operation from the front of `string`, after
    /// optional white space. Returns what follows the sign, and the operation.
    pub fn new(string: &str) -> (r: (&str, Operation))
        requires
            operation_ahead(string@),
        ensures
            r.0@ == after_operation(string@),
            r.1 == operation_at(string@),
    {
        extract_operation(string)
    }
}

/// The character that stands for the digit `d`.
pub open spec fn digit_char(d: nat) -> char {
    if d == 0 {
        '0'
    } else if d == 1 {
        '1'
    } else if d == 2 {
        '2'
    } else if d == 3 {
        '3'
    } else if d == 4 {
        '4'
    } else if d == 5 {
        '5'
    } else if d == 6 {
        '6'
    } else if d == 7 {
        '7'
    } else if d == 8 {
        '8'
    } else {
        '9'
    }
}

/// The digits of `n` in base ten, without leading zeros.
pub open spec fn digits(n: nat) -> Seq<char>
    decreases n,
{
    if n < 10 {
        seq![digit_char(n)]
    } else {
        digits(n / 10).push(digit_char(n % 10))
    }
}

/// `n` in base ten, with a minus sign before it if it is negative.
pub open spec fn decimal_text(n: int) -> Seq<char> {
    if n < 0 {
        seq!['-'] + digits((-n) as nat)
    } else {
        digits(n as nat)
    }
}

/// The digits of a number denote that number.
pub proof fn lemma_digits_denote(n: nat)
    ensures
        digits(n).len() > 0,
        all_digits(digits(n)),
        decimal_value(digits(n)) == n,
    decreases n,
{
    if n < 10 {
        assert(decimal_value(digits(n).drop_last()) == 0);
    } else {
        lemma_digits_denote(n / 10);
        let d = digits(n);
        assert(d.drop_last() =~= digits(n / 10));
    }
}

/// The text that stands for the digit `d`.
fn digit_text(d: u64) -> (r: &'static str)
    requires
        d < 10,
    ensures
        r@ == seq![digit_char(d as nat)],
{
    proof {
        reveal_strlit("0");
        reveal_strlit("1");
        reveal_strlit("2");
        reveal_strlit("3");
        reveal_strlit("4");
        reveal_strlit("5");
        reveal_strlit("6");
        reveal_strlit("7");
        reveal_strlit("8");
        reveal_strlit("9");
    }
    let r = if d == 0 {
        "0"
    } else if d == 1 {
        "1"
    } else if d == 2 {
        "2"
    } else if d == 3 {
        "3"
    } else if d == 4 {
        "4"
    } else if d == 5 {
        "5"
    } else if d == 6 {
        "6"
    } else if d == 7 {
        "7"
    } else if d == 8 {
        "8"
    } else {
        "9"
    };
    r
}

/// Appends the digits of `n` to `out`.
pub fn push_digits(out: &mut String, n: u64)
    ensures
        final(out)@ == old(out)@ + digits(n as nat),
    decreases n,
{
    if n >= 10 {
        push_digits(out, n / 10);
    }
    out.append(digit_text(n % 10));
}

/// Appends `n` in base ten to `out`.
pub fn push_decimal(out: &mut String, n: i64)
    ensures
        final(out)@ == old(out)@ + decimal_text(n as int),
{
    if n < 0 {
        out.append("-");
        let magnitude: u64 = (-(n + 1)) as u64 + 1;
        push_digits(out, magnitude);
        proof {
            reveal_strlit("-");
        }
    } else {
        push_digits(out, n as u64);
    }
}

} // verus!
