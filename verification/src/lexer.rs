//! The lexer's rules: how a line falls into words, and what token a word
//! gives.

use crate::token::{
    end_of_file, end_of_line, lexed, numbers_well_formed, tokenize, LexError, LexErrorKind,
    LexErrorView, Token, TokenKind, TokenView,
};
use crate::types::{is_number_literal, parse_decimal, skip_whitespace};
use crate::utils::{
    after_run, extract_until_whitespace, extract_whitespace, is_digit, is_whitespace,
    lemma_run_len, lemma_run_len_is, run, run_len, same_text, split_first, CharClass,
};
use vstd::prelude::*;

verus! {

/// What the lexer expects of the next word.
#[derive(Clone, Copy, Debug, PartialEq, Eq, Structural)]
pub enum LexerState {
    /// Nothing in particular.
    Ready,
    /// The name that `let` or `let!` binds.
    ExpectingName,
}

impl LexerState {
    /// The state in which the lexer is after a token of kind `kind`, or at
    /// the start of the text (`None`).
    pub open spec fn following(kind: Option<TokenKind>) -> LexerState {
        if kind == Some(TokenKind::Let) || kind == Some(TokenKind::MutLet) {
            LexerState::ExpectingName
        } else {
            LexerState::Ready
        }
    }

    /// Computes [`LexerState::following`].
    pub fn after(kind: Option<TokenKind>) -> (r: LexerState)
        ensures
            r == LexerState::following(kind),
    {
        match kind {
            Some(TokenKind::Let) | Some(TokenKind::MutLet) => LexerState::ExpectingName,
            _ => LexerState::Ready,
        }
    }
}

/// The first word of `s`: what stands between its leading white space and
/// the next white space.
pub open spec fn first_word(s: Seq<char>) -> Seq<char> {
    run(skip_whitespace(s), CharClass::NonWhitespace)
}

/// What follows the first word of `s` and the white space after it.
pub open spec fn after_first_word(s: Seq<char>) -> Seq<char> {
    skip_whitespace(after_run(skip_whitespace(s), CharClass::NonWhitespace))
}

/// Taking a word off a text leaves a shorter text.
pub proof fn lemma_after_first_word(s: Seq<char>)
    ensures
        first_word(s).len() + after_first_word(s).len() <= s.len(),
        first_word(s).len() == 0 ==> skip_whitespace(s).len() == 0,
        forall|j: int|
            0 <= j < first_word(s).len() ==> !is_whitespace(#[trigger] first_word(s)[j]),
{
    let t = skip_whitespace(s);
    lemma_run_len(s, CharClass::Whitespace);
    lemma_run_len(t, CharClass::NonWhitespace);
    lemma_run_len(after_run(t, CharClass::NonWhitespace), CharClass::Whitespace);
}

/// Splits the first word off `str`. Returns the word, and what follows it
/// with the white space between removed.
pub fn parse_token(str: &str) -> (r: (&str, &str))
    ensures
        r.0@ == first_word(str@),
        r.1@ == after_first_word(str@),
{
    let (rest, _) = extract_whitespace(str);
    let (rest, word) = extract_until_whitespace(rest);
    let (rest, _) = extract_whitespace(rest);
    (word, rest)
}

/// Takes one space off the front of `str`. Returns `None` if `str` does not
/// start with a space.
pub fn remove_whitespace(str: &str) -> (r: Option<&str>)
    ensures
        r is Some <==> str@.len() > 0 && str@[0] == ' ',
        r is Some ==> r->Some_0@ == str@.skip(1),
{
    match split_first(str) {
        Some((' ', rest)) => Some(rest),
        _ => None,
    }
}

/// The reserved words and the kinds of token they give.
pub open spec fn keyword_kind(w: Seq<char>) -> Option<TokenKind> {
    if w == seq!['l', 'e', 't'] {
        Some(TokenKind::Let)
    } else if w == seq!['l', 'e', 't', '!'] {
        Some(TokenKind::MutLet)
    } else {
        None
    }
}

/// Looks `word` up among the reserved words.
pub fn keyword(word: &str) -> (r: Option<TokenKind>)
    ensures
        r == keyword_kind(word@),
{
    proof {
        reveal_strlit("let");
        reveal_strlit("let!");
        assert("let"@ =~= seq!['l', 'e', 't']);
        assert("let!"@ =~= seq!['l', 'e', 't', '!']);
    }
    if same_text(word, "let") {
        Some(TokenKind::Let)
    } else if same_text(word, "let!") {
        Some(TokenKind::MutLet)
    } else {
        None
    }
}

/// The kind of token that a one-character word gives, if it is an operator
/// or the assignment sign.
pub open spec fn sign_kind(w: Seq<char>) -> Option<TokenKind> {
    if w.len() != 1 {
        None
    } else if w[0] == '+' {
        Some(TokenKind::Plus)
    } else if w[0] == '-' {
        Some(TokenKind::Minus)
    } else if w[0] == '*' {
        Some(TokenKind::Mul)
    } else if w[0] == '/' {
        Some(TokenKind::Div)
    } else if w[0] == '=' {
        Some(TokenKind::Assignment)
    } else {
        None
    }
}

/// Whether `w` is wrapped in double quotes.
pub open spec fn is_quoted(w: Seq<char>) -> bool {
    w.len() >= 2 && w[0] == '"' && w[w.len() - 1] == '"'
}

/// The kind of token that the word `w` gives wherever it stands: a number
/// literal, a sign, a quoted name or a reserved word, tried in this order.
pub open spec fn word_kind(w: Seq<char>) -> Option<TokenKind> {
    if is_number_literal(w) {
        Some(TokenKind::Number)
    } else if sign_kind(w) is Some {
        sign_kind(w)
    } else if is_quoted(w) {
        Some(TokenKind::Symbol)
    } else {
        keyword_kind(w)
    }
}

/// The kind of token that `str` gives wherever it stands, if any.
pub fn parse_token_kind(str: &str) -> (r: Option<TokenKind>)
    ensures
        r == word_kind(str@),
{
    if parse_decimal(str).is_some() {
        return Some(TokenKind::Number);
    }
    let n = str.unicode_len();
    if n == 1 {
        let c = str.get_char(0);
        if c == '+' {
            return Some(TokenKind::Plus);
        } else if c == '-' {
            return Some(TokenKind::Minus);
        } else if c == '*' {
            return Some(TokenKind::Mul);
        } else if c == '/' {
            return Some(TokenKind::Div);
        } else if c == '=' {
            return Some(TokenKind::Assignment);
        }
    }
    if n >= 2 && str.get_char(0) == '"' && str.get_char(n - 1) == '"' {
        return Some(TokenKind::Symbol);
    }
    keyword(str)
}

/// Whether the comment marker `//` stands in `w` at position `i`.
pub open spec fn marker_at(w: Seq<char>, i: int) -> bool {
    0 <= i && i + 1 < w.len() && w[i] == '/' && w[i + 1] == '/'
}

/// The position of the first comment marker in `w` at or after `i`; the
/// length of `w` if there is none.
pub open spec fn comment_from(w: Seq<char>, i: int) -> int
    decreases w.len() - i,
{
    if i < 0 || i + 1 >= w.len() {
        w.len() as int
    } else if marker_at(w, i) {
        i
    } else {
        comment_from(w, i + 1)
    }
}

/// The position of the first comment marker in `w`; the length of `w` if
/// there is none.
pub open spec fn comment_start(w: Seq<char>) -> int {
    comment_from(w, 0)
}

/// A position before which no marker stands, and that holds a marker or lies
/// where none can follow, is where the comment starts.
pub proof fn lemma_comment_from(w: Seq<char>, i: int, k: int)
    requires
        0 <= i <= k,
        forall|j: int| i <= j < k ==> !marker_at(w, j),
        marker_at(w, k) || (k + 1 >= w.len()),
    ensures
        comment_from(w, i) == if marker_at(w, k) { k } else { w.len() as int },
    decreases k - i,
{
    if i < k {
        lemma_comment_from(w, i + 1, k);
    }
}

/// Finds the first comment marker in `word`.
pub fn find_comment(word: &str) -> (r: usize)
    ensures
        r == comment_start(word@),
        r <= word@.len(),
{
    let n = word.unicode_len();
    let mut found: usize = n;
    let mut after_slash = false;
    let mut i: usize = 0;
    for c in it: word.chars()
        invariant
            it.seq() == word@,
            n == word@.len(),
            i == it.index(),
            after_slash == (i > 0 && word@[i - 1] == '/'),
            found == n ==> forall|j: int| 0 <= j && j + 1 < i ==> !marker_at(word@, j),
            found != n ==> marker_at(word@, found as int) && forall|j: int|
                0 <= j < found ==> !marker_at(word@, j),
    {
        if found == n && after_slash && c == '/' {
            found = i - 1;
        }
        after_slash = c == '/';
        i = i + 1;
    }
    proof {
        if found == n {
            if n >= 1 {
                lemma_comment_from(word@, 0, n - 1);
            }
        } else {
            lemma_comment_from(word@, 0, found as int);
        }
    }
    found
}

/// Tells whether `word` holds a semicolon.
pub fn has_semicolon(word: &str) -> (r: bool)
    ensures
        r == word@.contains(';'),
{
    let mut found = false;
    for c in it: word.chars()
        invariant
            it.seq() == word@,
            found == exists|j: int| 0 <= j < it.index() && word@[j] == ';',
    {
        if c == ';' {
            found = true;
        }
    }
    found
}

/// The token that the word `w` gives in state `state`, comments aside. The
/// rules, in order: a word that is of a kind wherever it stands
/// ([`word_kind`]) gives a token of that kind, a quoted name without its
/// quotes; but a reserved word where a name is expected is an error.
/// Any other word is the name where a name is expected, and an error
/// elsewhere.
pub open spec fn plain_token(w: Seq<char>, state: LexerState) -> Result<TokenView, LexErrorView> {
    match word_kind(w) {
        Some(TokenKind::Symbol) => Ok(
            TokenView { kind: TokenKind::Symbol, value: w.subrange(1, w.len() - 1) },
        ),
        Some(kind) => if state == LexerState::ExpectingName && (kind == TokenKind::Let || kind
            == TokenKind::MutLet) {
            Err(LexErrorView { kind: LexErrorKind::KeywordAsName, text: w })
        } else {
            Ok(TokenView { kind, value: w })
        },
        None => if state == LexerState::ExpectingName {
            Ok(TokenView { kind: TokenKind::Binding, value: w })
        } else if w.contains(';') {
            Err(LexErrorView { kind: LexErrorKind::Semicolon, text: w })
        } else {
            Err(LexErrorView { kind: LexErrorKind::Unclassifiable, text: w })
        },
    }
}

/// Whether the outcome for a word is the one that `v` describes.
pub open spec fn token_matches(
    r: Result<Token, LexError>,
    v: Result<TokenView, LexErrorView>,
) -> bool {
    match (r, v) {
        (Ok(t), Ok(tv)) => t@ == tv,
        (Err(e), Err(ev)) => e@ == ev,
        _ => false,
    }
}

/// Computes [`plain_token`].
pub fn classify(word: &str, state: LexerState) -> (r: Result<Token, LexError>)
    ensures
        token_matches(r, plain_token(word@, state)),
{
    match parse_token_kind(word) {
        Some(TokenKind::Symbol) => {
            let n = word.unicode_len();
            Ok(Token::new(TokenKind::Symbol, word.substring_char(1, n - 1)))
        },
        Some(kind) => {
            if state == LexerState::ExpectingName && (kind == TokenKind::Let || kind
                == TokenKind::MutLet) {
                Err(LexError { kind: LexErrorKind::KeywordAsName, text: word.to_owned() })
            } else {
                Ok(Token::new(kind, word))
            }
        },
        None => {
            if state == LexerState::ExpectingName {
                Ok(Token::new(TokenKind::Binding, word))
            } else if has_semicolon(word) {
                Err(LexError { kind: LexErrorKind::Semicolon, text: word.to_owned() })
            } else {
                Err(LexError { kind: LexErrorKind::Unclassifiable, text: word.to_owned() })
            }
        },
    }
}

/// What a word gives: at most one token, and whether a comment in it ends
/// the line.
pub struct WordScan {
    pub token: Option<TokenView>,
    pub ends_line: bool,
}

/// What the word `w` gives in state `state`. A word that is of a kind
/// wherever it stands, and any word where a name is expected, is taken
/// whole. Otherwise a comment marker in the word ends the line: what stands
/// before the marker, if anything, is taken as a word, and the rest is
/// dropped.
pub open spec fn scan(w: Seq<char>, state: LexerState) -> Result<WordScan, LexErrorView> {
    let whole = word_kind(w) is Some || state == LexerState::ExpectingName || comment_start(w)
        == w.len();
    if !whole && comment_start(w) == 0 {
        Ok(WordScan { token: None, ends_line: true })
    } else {
        let text = if whole {
            w
        } else {
            w.take(comment_start(w))
        };
        match plain_token(text, state) {
            Ok(t) => Ok(WordScan { token: Some(t), ends_line: !whole }),
            Err(e) => Err(e),
        }
    }
}

/// Whether what was found in a word is what `v` describes.
pub open spec fn scan_matches(
    r: Result<(Option<Token>, bool), LexError>,
    v: Result<WordScan, LexErrorView>,
) -> bool {
    match (r, v) {
        (Ok((Some(t), ends)), Ok(found)) => found.token == Some(t@) && found.ends_line == ends,
        (Ok((None, ends)), Ok(found)) => found.token is None && found.ends_line == ends,
        (Err(e), Err(ev)) => e@ == ev,
        _ => false,
    }
}

/// Computes [`scan`]: the token that `word` gives, if any, and whether the
/// line ends with it.
pub fn scan_word(word: &str, state: LexerState) -> (r: Result<(Option<Token>, bool), LexError>)
    ensures
        scan_matches(r, scan(word@, state)),
{
    let n = word.unicode_len();
    if state == LexerState::ExpectingName || parse_token_kind(word).is_some() {
        return match classify(word, state) {
            Ok(t) => Ok((Some(t), false)),
            Err(e) => Err(e),
        };
    }
    let m = find_comment(word);
    if m == n {
        match classify(word, state) {
            Ok(t) => Ok((Some(t), false)),
            Err(e) => Err(e),
        }
    } else if m == 0 {
        Ok((None, true))
    } else {
        match classify(word.substring_char(0, m), state) {
            Ok(t) => Ok((Some(t), true)),
            Err(e) => Err(e),
        }
    }
}

/// The tokens of the line `s`, read in state `state`: those of its words in
/// order, up to the end of the line or to a comment.
pub open spec fn line_tokens(s: Seq<char>, state: LexerState) -> Result<
    Seq<TokenView>,
    LexErrorView,
>
    decreases s.len(),
{
    let w = first_word(s);
    if w.len() == 0 {
        Ok(Seq::empty())
    } else {
        match scan(w, state) {
            Err(e) => Err(e),
            Ok(found) => {
                let head = match found.token {
                    Some(t) => seq![t],
                    None => Seq::empty(),
                };
                if found.ends_line {
                    Ok(head)
                } else {
                    proof {
                        lemma_after_first_word(s);
                    }
                    let next = match found.token {
                        Some(t) => LexerState::following(Some(t.kind)),
                        None => state,
                    };
                    match line_tokens(after_first_word(s), next) {
                        Err(e) => Err(e),
                        Ok(rest) => Ok(head + rest),
                    }
                }
            },
        }
    }
}

/// The tokens of a line, closed by an end-of-line token if there are any.
pub open spec fn close_line(tokens: Seq<TokenView>) -> Seq<TokenView> {
    if tokens.len() > 0 {
        tokens.push(end_of_line())
    } else {
        tokens
    }
}

/// The tokens of the lines `lines`, each line read from the state
/// [`LexerState::Ready`] and closed as [`close_line`] says; the first error,
/// if a word is refused.
pub open spec fn lex_lines(lines: Seq<Seq<char>>) -> Result<Seq<TokenView>, LexErrorView>
    decreases lines.len(),
{
    if lines.len() == 0 {
        Ok(Seq::empty())
    } else {
        match lex_lines(lines.drop_last()) {
            Err(e) => Err(e),
            Ok(before) => match line_tokens(lines.last(), LexerState::Ready) {
                Err(e) => Err(e),
                Ok(line) => Ok(before + close_line(line)),
            },
        }
    }
}

/// The token sequence of a source text given as lines: the tokens of its
/// lines, then the end-of-file token.
pub open spec fn lex(lines: Seq<Seq<char>>) -> Result<Seq<TokenView>, LexErrorView> {
    match lex_lines(lines) {
        Err(e) => Err(e),
        Ok(tokens) => Ok(tokens.push(end_of_file())),
    }
}

/// The texts of a sequence of strings.
pub open spec fn texts(lines: Seq<String>) -> Seq<Seq<char>> {
    lines.map_values(|line: String| line@)
}

/// Whether `t` is a token that a word can give: of a kind that words give,
/// and a number literal if it is a number token.
pub open spec fn is_word_token(t: TokenView) -> bool {
    &&& t.kind != TokenKind::EndOfLine
    &&& t.kind != TokenKind::EndOfFile
    &&& t.kind == TokenKind::Number ==> is_number_literal(t.value)
}

/// Every token of a line is one that a word can give.
pub proof fn lemma_line_tokens(s: Seq<char>, state: LexerState)
    ensures
        line_tokens(s, state) matches Ok(tokens) ==> forall|i: int|
            0 <= i < tokens.len() ==> is_word_token(#[trigger] tokens[i]),
    decreases s.len(),
{
    let w = first_word(s);
    if w.len() > 0 {
        if let Ok(found) = scan(w, state) {
            if !found.ends_line {
                lemma_after_first_word(s);
                let next = match found.token {
                    Some(t) => LexerState::following(Some(t.kind)),
                    None => state,
                };
                lemma_line_tokens(after_first_word(s), next);
            }
        }
    }
}

/// In the tokens of a text every number token holds a number literal.
pub proof fn lemma_lex_lines_numbers(lines: Seq<Seq<char>>)
    ensures
        lex_lines(lines) matches Ok(tokens) ==> numbers_well_formed(tokens),
    decreases lines.len(),
{
    if lines.len() > 0 {
        lemma_lex_lines_numbers(lines.drop_last());
        lemma_line_tokens(lines.last(), LexerState::Ready);
    }
}

/// In a token sequence that the lexer gives every number token holds a
/// number literal.
pub proof fn lemma_lex_numbers(lines: Seq<Seq<char>>)
    ensures
        lex(lines) matches Ok(tokens) ==> numbers_well_formed(tokens),
{
    lemma_lex_lines_numbers(lines);
}

/// A token sequence that the lexer gives ends with the end-of-file token,
/// and holds no other.
pub proof fn lemma_lex_ends_with_end_of_file(lines: Seq<Seq<char>>)
    ensures
        lex(lines) matches Ok(tokens) ==> tokens.len() > 0 && tokens.last() == end_of_file()
            && forall|i: int|
            0 <= i < tokens.len() - 1 ==> (#[trigger] tokens[i]).kind != TokenKind::EndOfFile,
{
    lemma_lex_lines_end_of_file(lines);
}

/// The tokens of the lines of a text hold no end-of-file token.
proof fn lemma_lex_lines_end_of_file(lines: Seq<Seq<char>>)
    ensures
        lex_lines(lines) matches Ok(tokens) ==> forall|i: int|
            0 <= i < tokens.len() ==> (#[trigger] tokens[i]).kind != TokenKind::EndOfFile,
    decreases lines.len(),
{
    if lines.len() > 0 {
        lemma_lex_lines_end_of_file(lines.drop_last());
        lemma_line_tokens(lines.last(), LexerState::Ready);
    }
}

/// A source text that is one line with one word gives three tokens: the
/// token of the word, the end-of-line token and the end-of-file token.
pub proof fn lemma_lex_one_word(w: Seq<char>, t: TokenView)
    requires
        w.len() > 0,
        forall|j: int| 0 <= j < w.len() ==> !is_whitespace(#[trigger] w[j]),
        scan(w, LexerState::Ready) == Ok::<WordScan, LexErrorView>(
            WordScan { token: Some(t), ends_line: false },
        ),
    ensures
        lex(seq![w]) == Ok::<Seq<TokenView>, LexErrorView>(
            seq![t, end_of_line(), end_of_file()],
        ),
{
    assert(skip_whitespace(w) == w);
    lemma_run_len_is(w, CharClass::NonWhitespace, w.len() as int);
    let next = LexerState::following(Some(t.kind));
    assert(line_tokens(after_first_word(w), next) == Ok::<Seq<TokenView>, LexErrorView>(
        Seq::empty(),
    ));
    let lines = seq![w];
    assert(lex_lines(lines.drop_last()) == Ok::<Seq<TokenView>, LexErrorView>(Seq::empty()));
    assert(Seq::<TokenView>::empty() + close_line(seq![t]) =~= seq![t, end_of_line()]);
    assert(seq![t, end_of_line()].push(end_of_file()) =~= seq![
        t,
        end_of_line(),
        end_of_file(),
    ]);
}

/// A source text that is one number literal `n` gives three tokens: the
/// number token with the text `n`, the end-of-line token and the end-of-file
/// token.
pub proof fn lemma_lex_number(n: Seq<char>)
    requires
        is_number_literal(n),
    ensures
        lex(seq![n]) == Ok::<Seq<TokenView>, LexErrorView>(
            seq![TokenView { kind: TokenKind::Number, value: n }, end_of_line(), end_of_file()],
        ),
{
    lemma_lex_one_word(n, TokenView { kind: TokenKind::Number, value: n });
}

/// A source text that is one operator or the assignment sign gives three
/// tokens: the token of the sign, the end-of-line token and the end-of-file
/// token.
pub proof fn lemma_lex_sign(w: Seq<char>)
    requires
        sign_kind(w) is Some,
    ensures
        lex(seq![w]) == Ok::<Seq<TokenView>, LexErrorView>(
            seq![TokenView { kind: sign_kind(w)->Some_0, value: w }, end_of_line(), end_of_file()],
        ),
{
    lemma_lex_one_word(w, TokenView { kind: sign_kind(w)->Some_0, value: w });
}

/// The tokens of `source`, as the parser reads them: see [`tokenize`].
pub fn parse_tokens(source: Vec<String>) -> (r: Result<Vec<Token>, LexError>)
    ensures
        lexed(r, lex(texts(source@))),
{
    tokenize(source)
}

} // verus!
