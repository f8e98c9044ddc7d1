//! Text helpers: splitting off a leading run of characters from a string.

use vstd::prelude::*;
use vstd::std_specs::iter::IteratorSpec;
use vstd::string::StringSliceAdditionalSpecFns;
use vstd::utf8::{
    char_is_scalar, encode_scalar, encode_utf8, encode_utf8_decode_utf8, encode_utf8_first_scalar,
    encode_utf8_valid_utf8, is_char_boundary, length_of_first_scalar, pop_first_scalar,
};

verus! {

/// A class of characters, used to say how far a leading run extends.
#[derive(Clone, Copy, Debug, PartialEq, Eq)]
pub enum CharClass {
    /// White space (see [`is_whitespace`]).
    Whitespace,
    /// Everything but white space.
    NonWhitespace,
    /// The decimal digits `0` to `9`.
    Digit,
    /// Every character but the given one.
    Except(char),
}

/// The characters that separate words: the code points with the Unicode
/// property `White_Space`.
pub open spec fn is_whitespace(c: char) -> bool {
    let n = c as u32;
    (0x09 <= n <= 0x0d) || n == 0x20 || n == 0x85 || n == 0xa0 || n == 0x1680 || (0x2000 <= n
        <= 0x200a) || n == 0x2028 || n == 0x2029 || n == 0x202f || n == 0x205f || n == 0x3000
}

/// The decimal digits.
pub open spec fn is_digit(c: char) -> bool {
    '0' <= c <= '9'
}

impl CharClass {
    /// Whether `c` belongs to the class.
    pub open spec fn holds(self, c: char) -> bool {
        match self {
            CharClass::Whitespace => is_whitespace(c),
            CharClass::NonWhitespace => !is_whitespace(c),
            CharClass::Digit => is_digit(c),
            CharClass::Except(x) => c != x,
        }
    }

    /// Tests whether `c` belongs to the class.
    pub fn test(&self, c: char) -> (b: bool)
        ensures
            b == self.holds(c),
    {
        match self {
            CharClass::Whitespace => char_is_whitespace(c),
            CharClass::NonWhitespace => !char_is_whitespace(c),
            CharClass::Digit => '0' <= c && c <= '9',
            CharClass::Except(x) => c != *x,
        }
    }
}

/// Tests whether `c` is white space.
pub fn char_is_whitespace(c: char) -> (b: bool)
    ensures
        b == is_whitespace(c),
{
    let n: u32 = c as u32;
    (0x09 <= n && n <= 0x0d) || n == 0x20 || n == 0x85 || n == 0xa0 || n == 0x1680 || (0x2000
        <= n && n <= 0x200a) || n == 0x2028 || n == 0x2029 || n == 0x202f || n == 0x205f || n
        == 0x3000
}

/// The length of the longest prefix of `s` whose characters all belong to
/// `class`.
pub open spec fn run_len(s: Seq<char>, class: CharClass) -> nat
    decreases s.len(),
{
    if s.len() > 0 && class.holds(s[0]) {
        1 + run_len(s.drop_first(), class)
    } else {
        0
    }
}

/// A position `k` up to which every character belongs to `class`, and that is
/// the end of `s` or holds a character outside `class`, is the run's length.
pub proof fn lemma_run_len_is(s: Seq<char>, class: CharClass, k: int)
    requires
        0 <= k <= s.len(),
        forall|j: int| 0 <= j < k ==> class.holds(#[trigger] s[j]),
        k == s.len() || !class.holds(s[k]),
    ensures
        run_len(s, class) == k,
    decreases k,
{
    if k > 0 {
        let t = s.drop_first();
        lemma_run_len_is(t, class, k - 1);
    }
}

/// The run is a prefix of `s`, lies within `class`, and cannot be extended.
pub proof fn lemma_run_len(s: Seq<char>, class: CharClass)
    ensures
        run_len(s, class) <= s.len(),
        forall|j: int| 0 <= j < run_len(s, class) ==> class.holds(#[trigger] s[j]),
        run_len(s, class) < s.len() ==> !class.holds(s[run_len(s, class) as int]),
    decreases s.len(),
{
    if s.len() > 0 && class.holds(s[0]) {
        let t = s.drop_first();
        lemma_run_len(t, class);
        assert forall|j: int| 0 <= j < run_len(s, class) implies class.holds(#[trigger] s[j]) by {
            if j > 0 {
                assert(s[j] == t[j - 1]);
            }
        }
    }
}

/// The longest prefix of `s` whose characters all belong to `class`.
pub open spec fn run(s: Seq<char>, class: CharClass) -> Seq<char> {
    s.take(run_len(s, class) as int)
}

/// What is left of `s` after [`run`].
pub open spec fn after_run(s: Seq<char>, class: CharClass) -> Seq<char> {
    s.skip(run_len(s, class) as int)
}

/// The number of bytes that the characters `s` take in UTF-8.
pub open spec fn byte_len(s: Seq<char>) -> nat {
    encode_utf8(s).len()
}

/// The encoding of two texts joined is the two encodings joined.
pub proof fn lemma_encode_joined(a: Seq<char>, b: Seq<char>)
    ensures
        encode_utf8(a + b) == encode_utf8(a) + encode_utf8(b),
    decreases a.len(),
{
    if a.len() > 0 {
        lemma_encode_joined(a.drop_first(), b);
        assert((a + b).drop_first() =~= a.drop_first() + b);
    }
}

/// The encoding of a text of one character is the encoding of the character.
pub proof fn lemma_encode_one(c: char)
    ensures
        encode_utf8(seq![c]) == encode_scalar(c as u32),
{
    let one = seq![c];
    assert(encode_utf8(one.drop_first()) =~= Seq::<u8>::empty());
}

/// In the encoding of two texts joined, the second starts at a character
/// boundary.
pub proof fn lemma_boundary_between(a: Seq<char>, b: Seq<char>)
    ensures
        is_char_boundary(encode_utf8(a + b), byte_len(a) as int),
    decreases a.len(),
{
    let bytes = encode_utf8(a + b);
    encode_utf8_valid_utf8(a + b);
    if a.len() > 0 {
        encode_utf8_first_scalar(a + b);
        assert((a + b).drop_first() =~= a.drop_first() + b);
        assert(pop_first_scalar(bytes) =~= encode_utf8(a.drop_first() + b));
        lemma_boundary_between(a.drop_first(), b);
    }
}

/// Computes the number of bytes that `c` takes in UTF-8.
pub fn char_width(c: char) -> (w: usize)
    ensures
        w == byte_len(seq![c]),
        1 <= w <= 4,
{
    proof {
        lemma_encode_one(c);
    }
    let u = c as u32;
    if u < 0x80 {
        1
    } else if u < 0x800 {
        2
    } else if u < 0x10000 {
        3
    } else {
        4
    }
}

/// Splits `s` after its first `k` characters, which take `b` bytes.
fn split_after<'a>(s: &'a str, b: usize, Ghost(k): Ghost<int>) -> (r: (&'a str, &'a str))
    requires
        0 <= k <= s@.len(),
        b == byte_len(s@.take(k)),
    ensures
        r.0@ == s@.take(k),
        r.1@ == s@.skip(k),
{
    proof {
        assert(s@.take(k) + s@.skip(k) =~= s@);
        lemma_boundary_between(s@.take(k), s@.skip(k));
        lemma_encode_joined(s@.take(k), s@.skip(k));
    }
    let (head, tail) = s.split_at(b);
    proof {
        let bytes = s.spec_bytes();
        assert(bytes.subrange(0, b as int) =~= encode_utf8(s@.take(k)));
        assert(bytes.subrange(b as int, bytes.len() as int) =~= encode_utf8(s@.skip(k)));
        encode_utf8_decode_utf8(head@);
        encode_utf8_decode_utf8(tail@);
        encode_utf8_decode_utf8(s@.take(k));
        encode_utf8_decode_utf8(s@.skip(k));
    }
    (head, tail)
}

/// Splits the first character off `s`. Returns the character and what
/// follows it; `None` if `s` is empty.
pub fn split_first(s: &str) -> (r: Option<(char, &str)>)
    ensures
        r is Some <==> s@.len() > 0,
        r is Some ==> r->Some_0.0 == s@[0] && r->Some_0.1@ == s@.skip(1),
{
    broadcast use vstd::string::group_string_axioms;

    let mut it = s.chars();
    match it.next() {
        None => None,
        Some(c) => {
            proof {
                assert(s@.take(1) =~= seq![c]);
            }
            let (_, tail) = split_after(s, char_width(c), Ghost(1));
            Some((c, tail))
        },
    }
}

/// Splits `string` after its longest prefix in `class`. Returns the remainder
/// first and the prefix second.
pub fn extract(class: CharClass, string: &str) -> (r: (&str, &str))
    ensures
        r.1@ == run(string@, class),
        r.0@ == after_run(string@, class),
{
    let total = string.as_bytes().len();
    let mut k: Ghost<int> = Ghost(0);
    let mut b: usize = 0;
    let mut it = string.chars();
    loop
        invariant_except_break
            it.remaining() == string@.skip(k@),
        invariant
            it.obeys_prophetic_iter_laws(),
            total == byte_len(string@),
            0 <= k@ <= string@.len(),
            b == byte_len(string@.take(k@)),
            forall|j: int| 0 <= j < k@ ==> class.holds(#[trigger] string@[j]),
        ensures
            k@ == string@.len() || !class.holds(string@[k@]),
        decreases string@.len() - k@,
    {
        broadcast use vstd::string::group_string_axioms;

        match it.next() {
            None => {
                break;
            },
            Some(c) => {
                if !class.test(c) {
                    break;
                }
                proof {
                    let head = string@.take(k@);
                    assert(string@.take(k@ + 1) =~= head + seq![c]);
                    lemma_encode_joined(head, seq![c]);
                    assert(string@.take(k@ + 1) + string@.skip(k@ + 1) =~= string@);
                    lemma_encode_joined(string@.take(k@ + 1), string@.skip(k@ + 1));
                }
                b = b + char_width(c);
                proof {
                    k@ = k@ + 1;
                }
            },
        }
    }
    proof {
        lemma_run_len_is(string@, class, k@);
    }
    let (head, tail) = split_after(string, b, k);
    (tail, head)
}

/// Splits `string` after its leading white space: the remainder first, the
/// white space second.
pub fn extract_whitespace(string: &str) -> (r: (&str, &str))
    ensures
        r.1@ == run(string@, CharClass::Whitespace),
        r.0@ == after_run(string@, CharClass::Whitespace),
{
    extract(CharClass::Whitespace, string)
}

/// Splits `string` before its first occurrence of `until`, or at its end if
/// there is none: the remainder first, what stands before it second.
pub fn exrtact_until_char(string: &str, until: char) -> (r: (&str, &str))
    ensures
        r.1@ == run(string@, CharClass::Except(until)),
        r.0@ == after_run(string@, CharClass::Except(until)),
{
    extract(CharClass::Except(until), string)
}

/// Splits `string` before its first white space, or at its end if there is
/// none: the remainder first, the leading word second.
pub fn extract_until_whitespace(string: &str) -> (r: (&str, &str))
    ensures
        r.1@ == run(string@, CharClass::NonWhitespace),
        r.0@ == after_run(string@, CharClass::NonWhitespace),
{
    extract(CharClass::NonWhitespace, string)
}

/// Splits `string` after its leading decimal digits: the remainder first, the
/// digits second.
pub fn extract_number(string: &str) -> (r: (&str, &str))
    ensures
        r.1@ == run(string@, CharClass::Digit),
        r.0@ == after_run(string@, CharClass::Digit),
{
    extract(CharClass::Digit, string)
}

/// Splits a name, which ends at the first white space, off `string`: the
/// remainder first, the name second. It never fails.
pub fn extract_name(string: &str) -> (r: Result<(&str, &str), String>)
    ensures
        r is Ok,
        r->Ok_0.1@ == run(string@, CharClass::NonWhitespace),
        r->Ok_0.0@ == after_run(string@, CharClass::NonWhitespace),
{
    Ok(extract(CharClass::NonWhitespace, string))
}

/// Whether two strings hold the same characters.
pub fn same_text(a: &str, b: &str) -> (r: bool)
    ensures
        r == (a@ == b@),
{
    let x = a.as_bytes();
    let y = b.as_bytes();
    if x.len() != y.len() {
        return false;
    }
    let mut i: usize = 0;
    while i < x.len()
        invariant
            x@ == a.spec_bytes(),
            y@ == b.spec_bytes(),
            x@.len() == y@.len(),
            i <= x@.len(),
            forall|j: int| 0 <= j < i ==> x@[j] == y@[j],
        decreases x@.len() - i,
    {
        if x[i] != y[i] {
            return false;
        }
        i = i + 1;
    }
    proof {
        assert(x@ =~= y@);
        encode_utf8_decode_utf8(a@);
        encode_utf8_decode_utf8(b@);
    }
    true
}

/// The text of the error that [`extract_keyword`] returns.
pub open spec fn keyword_error() -> Seq<char> {
    "Error extracting keyword"@
}

/// Takes `starting_string` off the front of `string`. Fails if `string` does
/// not start with it.
pub fn extract_keyword<'a>(string: &'a str, starting_string: &str) -> (r: Result<&'a str, String>)
    ensures
        starting_string@.is_prefix_of(string@) ==> r is Ok && r->Ok_0@ == string@.skip(
            starting_string@.len() as int,
        ),
        !starting_string@.is_prefix_of(string@) ==> r is Err && r->Err_0@ == keyword_error(),
{
    let n = string.unicode_len();
    let m = starting_string.unicode_len();
    if m <= n && same_text(string.substring_char(0, m), starting_string) {
        Ok(string.substring_char(m, n))
    } else {
        Err("Error extracting keyword".to_owned())
    }
}

/// The part of `path` before its first `.`; all of it, if it has none.
pub fn remove_file_extension(path: &str) -> (r: String)
    ensures
        r@ == run(path@, CharClass::Except('.')),
{
    extract(CharClass::Except('.'), path).1.to_owned()
}

/// `line` without the carriage return at its end, if it has one.
pub open spec fn without_carriage_return(line: Seq<char>) -> Seq<char> {
    if line.len() > 0 && line.last() == '\r' {
        line.drop_last()
    } else {
        line
    }
}

/// The lines of `text`. A line ends with a line feed, or a carriage return
/// and a line feed, neither of which belongs to the line; the last line may
/// end with the text instead, and then keeps a carriage return at its end.
pub open spec fn lines_of(text: Seq<char>) -> Seq<Seq<char>>
    decreases text.len(),
{
    if text.len() == 0 {
        Seq::empty()
    } else if run_len(text, CharClass::Except('\n')) == text.len() {
        seq![text]
    } else {
        proof {
            lemma_run_len(text, CharClass::Except('\n'));
        }
        seq![without_carriage_return(run(text, CharClass::Except('\n')))] + lines_of(
            after_run(text, CharClass::Except('\n')).skip(1),
        )
    }
}

/// Takes the carriage return off the end of `line`, if it has one.
pub fn strip_carriage_return(line: &str) -> (r: &str)
    ensures
        r@ == without_carriage_return(line@),
{
    let n = line.unicode_len();
    if n > 0 && line.get_char(n - 1) == '\r' {
        line.substring_char(0, n - 1)
    } else {
        line
    }
}

} // verus!
