//! Tokens, and the lexer that turns source lines into them.

use crate::lexer::{
    close_line, lemma_after_first_word, lex, lex_lines, line_tokens, parse_token, scan_word,
    texts, LexerState,
};
use crate::types::is_number_literal;
use vstd::prelude::*;

verus! {

/// The kinds of token.
#[derive(Clone, Copy, Debug, PartialEq, Eq, Hash, Structural)]
pub enum TokenKind {
    /// A number literal.
    Number,
    /// A quoted name; the token's text is the name without the quotes.
    Symbol,
    /// `+`
    Plus,
    /// `-`
    Minus,
    /// `*`
    Mul,
    /// `/`
    Div,
    /// `=`
    Assignment,
    /// The keyword `let`.
    Let,
    /// The keyword `let!`.
    MutLet,
    /// The name that follows `let` or `let!`.
    Binding,
    /// Closes each line that holds at least one token.
    EndOfLine,
    /// Closes the token sequence.
    EndOfFile,
}

/// A token: its kind and its text.
#[derive(Debug, PartialEq, Eq)]
pub struct Token {
    kind: TokenKind,
    value: String,
}

/// A [`Token`] as contracts see it: with its text as a sequence of
/// characters.
pub struct TokenView {
    pub kind: TokenKind,
    pub value: Seq<char>,
}

impl View for Token {
    type V = TokenView;

    closed spec fn view(&self) -> TokenView {
        TokenView { kind: self.kind, value: self.value@ }
    }
}

impl Clone for Token {
    fn clone(&self) -> (r: Self)
        ensures
            r@ == self@,
    {
        Token { kind: self.kind, value: self.value.clone() }
    }
}

impl Token {
    /// A token of the given kind and text.
    pub fn new(kind: TokenKind, value: &str) -> (r: Self)
        ensures
            r@ == (TokenView { kind, value: value@ }),
    {
        Token { kind, value: value.to_owned() }
    }

    /// The token's kind.
    pub fn kind(&self) -> (r: &TokenKind)
        ensures
            *r == self@.kind,
    {
        &self.kind
    }

    /// The token's text.
    pub fn value(&self) -> (r: &String)
        ensures
            r@ == self@.value,
    {
        &self.value
    }
}

/// The views of a sequence of tokens, in order.
pub open spec fn token_views(tokens: Seq<Token>) -> Seq<TokenView> {
    tokens.map_values(|t: Token| t@)
}

/// Whether every number token of `tokens` holds a number literal.
pub open spec fn numbers_well_formed(tokens: Seq<TokenView>) -> bool {
    forall|i: int|
        0 <= i < tokens.len() && (#[trigger] tokens[i]).kind == TokenKind::Number
            ==> is_number_literal(tokens[i].value)
}

/// The token that closes a line.
pub open spec fn end_of_line() -> TokenView {
    TokenView { kind: TokenKind::EndOfLine, value: seq!['E', 'O', 'L'] }
}

/// The token that closes a token sequence.
pub open spec fn end_of_file() -> TokenView {
    TokenView { kind: TokenKind::EndOfFile, value: seq!['E', 'O', 'F'] }
}

/// Why a text could not be turned into tokens.
#[derive(Clone, Copy, Debug, PartialEq, Eq, Structural)]
pub enum LexErrorKind {
    /// The word is `;`, or holds one.
    Semicolon,
    /// A keyword stands where `let` or `let!` wants a name.
    KeywordAsName,
    /// The word is of no kind.
    Unclassifiable,
}

/// A failure of the lexer: what went wrong, and the word it went wrong on.
#[derive(Debug, PartialEq, Eq)]
pub struct LexError {
    pub kind: LexErrorKind,
    pub text: String,
}

/// A [`LexError`] as contracts see it: with its text as a sequence of
/// characters.
pub struct LexErrorView {
    pub kind: LexErrorKind,
    pub text: Seq<char>,
}

impl View for LexError {
    type V = LexErrorView;

    open spec fn view(&self) -> LexErrorView {
        LexErrorView { kind: self.kind, text: self.text@ }
    }
}

/// A lexer at work: the source lines, the tokens of the lines read so far,
/// and the place reached.
#[derive(Debug, PartialEq, Eq)]
pub struct Lexer {
    /// The tokens of the lines read so far.
    pub tokens: Vec<Token>,
    /// The source text, line by line.
    pub source: Vec<String>,
    /// How many lines have been read, and how many words of the line that is
    /// being read.
    pub loc: (usize, usize),
}

/// Whether a result of the lexer is the one that `v` describes.
pub open spec fn lexed(
    r: Result<Vec<Token>, LexError>,
    v: Result<Seq<TokenView>, LexErrorView>,
) -> bool {
    match (r, v) {
        (Ok(tokens), Ok(views)) => token_views(tokens@) == views,
        (Err(e), Err(ev)) => e@ == ev,
        _ => false,
    }
}

/// A failure in the first lines of a text is the failure of the whole text.
pub proof fn lemma_lex_lines_fails(lines: Seq<Seq<char>>, k: int)
    requires
        0 <= k <= lines.len(),
        lex_lines(lines.take(k)) is Err,
    ensures
        lex_lines(lines) == lex_lines(lines.take(k)),
    decreases lines.len() - k,
{
    if k < lines.len() {
        assert(lines.take(k + 1).drop_last() == lines.take(k));
        lemma_lex_lines_fails(lines, k + 1);
    } else {
        assert(lines.take(k) == lines);
    }
}

impl Lexer {
    /// A lexer that has read nothing of `source` yet.
    pub fn new(source: Vec<String>) -> (r: Self)
        ensures
            r.tokens@.len() == 0,
            r.source == source,
            r.loc == (0usize, 0usize),
    {
        Self { tokens: Vec::new(), source, loc: (0, 0) }
    }

    /// Appends `token` to the tokens.
    pub fn push_token(&mut self, token: Token)
        ensures
            final(self).tokens@ == old(self).tokens@.push(token),
            final(self).source == old(self).source,
            final(self).loc == old(self).loc,
    {
        self.tokens.push(token);
    }

    /// The kind of the last token, if there is a token.
    pub fn previous(&self) -> (r: Option<TokenKind>)
        ensures
            self.tokens@.len() == 0 ==> r is None,
            self.tokens@.len() > 0 ==> r == Some(self.tokens@.last()@.kind),
    {
        let n = self.tokens.len();
        if n == 0 {
            None
        } else {
            Some(self.tokens[n - 1].kind)
        }
    }

    /// Reads the next line of the source: appends its tokens, and the
    /// end-of-line token if the line has any. On an error the lexer stays on
    /// the line, and has appended the tokens that stand before the word that
    /// was refused.
    pub fn read_line(&mut self) -> (r: Result<(), LexError>)
        requires
            old(self).loc.0 < old(self).source@.len(),
        ensures
            final(self).source == old(self).source,
            old(self).tokens@.len() <= final(self).tokens@.len(),
            token_views(final(self).tokens@).take(old(self).tokens@.len() as int) == token_views(
                old(self).tokens@,
            ),
            r is Err ==> final(self).loc.0 == old(self).loc.0,
            match r {
                Ok(()) => {
                    &&& line_tokens(old(self).source@[old(self).loc.0 as int]@, LexerState::Ready)
                        matches Ok(line)
                    &&& token_views(final(self).tokens@) == token_views(old(self).tokens@)
                        + close_line(line)
                    &&& final(self).loc == (((old(self).loc.0 + 1) as usize), 0usize)
                },
                Err(e) => line_tokens(
                    old(self).source@[old(self).loc.0 as int]@,
                    LexerState::Ready,
                ) == Err::<Seq<TokenView>, LexErrorView>(e@),
            },
    {
        let line = self.source[self.loc.0].clone();
        let ghost before = token_views(self.tokens@);
        let ghost whole = line_tokens(line@, LexerState::Ready);
        let start = self.tokens.len();
        let count = self.source.len();
        let width = line.as_str().unicode_len();
        let mut rest: &str = line.as_str();
        let mut state = LexerState::Ready;
        let mut done = false;
        self.loc.1 = 0;
        while !done
            invariant
                self.source == old(self).source,
                self.loc.0 == old(self).loc.0,
                old(self).loc.0 < old(self).source@.len(),
                count == old(self).source@.len(),
                line@ == old(self).source@[old(self).loc.0 as int]@,
                width == line@.len(),
                self.loc.1 + rest@.len() <= width,
                start == old(self).tokens@.len(),
                self.tokens@.len() >= start,
                token_views(self.tokens@).take(start as int) == before,
                whole == line_tokens(line@, LexerState::Ready),
                before == token_views(old(self).tokens@),
                !done ==> whole == match line_tokens(rest@, state) {
                    Ok(more) => Ok(token_views(self.tokens@).skip(start as int) + more),
                    Err(e) => Err(e),
                },
                done ==> whole == Ok::<Seq<TokenView>, LexErrorView>(
                    token_views(self.tokens@).skip(start as int),
                ),
            decreases rest@.len() + (if done { 0int } else { 1int }),
        {
            let ghost emitted = token_views(self.tokens@).skip(start as int);
            let (word, after) = parse_token(rest);
            proof {
                lemma_after_first_word(rest@);
            }
            if word.is_empty() {
                done = true;
            } else {
                match scan_word(word, state) {
                    Err(e) => {
                        return Err(e);
                    },
                    Ok((found, ends)) => {
                        if let Some(token) = found {
                            let ghost view = token@;
                            self.push_token(token);
                            proof {
                                assert(token_views(self.tokens@).skip(start as int) == emitted
                                    + seq![view]);
                                assert forall|more: Seq<TokenView>|
                                    emitted + (seq![view] + more) == (emitted + seq![view])
                                        + more by {}
                            }
                            state = LexerState::after(self.previous());
                        }
                        self.loc.1 = self.loc.1 + 1;
                        rest = after;
                        done = ends;
                    },
                }
            }
        }
        if self.tokens.len() > start {
            self.push_token(Token::new(TokenKind::EndOfLine, "EOL"));
            proof {
                reveal_strlit("EOL");
                assert("EOL"@ =~= seq!['E', 'O', 'L']);
            }
        }
        self.loc = (self.loc.0 + 1, 0);
        Ok(())
    }
}

/// Turns source lines into tokens. Each line is split into words at white
/// space; each word gives a token as [`crate::lexer::scan`] says; a line that holds a
/// token is closed by an end-of-line token, and the whole by the end-of-file
/// token. Fails on the first word that gives an error.
pub fn tokenize(source: Vec<String>) -> (r: Result<Vec<Token>, LexError>)
    ensures
        lexed(r, lex(texts(source@))),
{
    let ghost lines = texts(source@);
    let mut lexer = Lexer::new(source);
    let n = lexer.source.len();
    proof {
        assert(token_views(lexer.tokens@) =~= Seq::<TokenView>::empty());
    }
    while lexer.loc.0 < n
        invariant
            n == lexer.source@.len(),
            lines == texts(lexer.source@),
            lines == texts(source@),
            lexer.loc.0 <= n,
            lex_lines(lines.take(lexer.loc.0 as int)) == Ok::<Seq<TokenView>, LexErrorView>(
                token_views(lexer.tokens@),
            ),
        decreases n - lexer.loc.0,
    {
        let ghost i = lexer.loc.0 as int;
        proof {
            assert(lines.take(i + 1).drop_last() == lines.take(i));
        }
        match lexer.read_line() {
            Err(e) => {
                proof {
                    lemma_lex_lines_fails(lines, i + 1);
                }
                return Err(e);
            },
            Ok(()) => {
            },
        }
    }
    proof {
        assert(lines.take(n as int) == lines);
    }
    let ghost body = token_views(lexer.tokens@);
    lexer.push_token(Token::new(TokenKind::EndOfFile, "EOF"));
    proof {
        reveal_strlit("EOF");
        assert("EOF"@ =~= seq!['E', 'O', 'F']);
        assert(token_views(lexer.tokens@) =~= body.push(end_of_file()));
    }
    Ok(lexer.tokens)
}

} // verus!
