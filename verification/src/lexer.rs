//! The lexer: from source text to tokens.
//!
//! There is no look-ahead: `(.symbol)` is an open parenthesis, a dot, a symbol
//! and a close parenthesis.

use vstd::prelude::*;
use crate::error::{err_lexer, spos, ErrorKind, RuntimeError, SourcePos};
use crate::strings::push_char;

verus! {

pub const OPEN_PAREN: char = '(';

pub const CLOSE_PAREN: char = ')';

pub const SPACE: char = ' ';

pub const TAB: char = '\t';

pub const CR: char = '\r';

pub const LF: char = '\n';

pub const DOT: char = '.';

pub const DOUBLE_QUOTE: char = '"';

pub const SINGLE_QUOTE: char = '\'';

/// What a token is.
#[derive(Debug, PartialEq)]
pub enum TokenType {
    OpenParen,
    CloseParen,
    Symbol(String),
    Dot,
    Text(String),
    Quote,
}

/// A token and the position of its first character.
#[derive(Debug, PartialEq)]
pub struct Token {
    pub pos: SourcePos,
    pub token: TokenType,
}

/// What a token is, with its text as a sequence of characters.
pub enum TokenKind {
    OpenParen,
    CloseParen,
    Symbol(Seq<char>),
    Dot,
    Text(Seq<char>),
    Quote,
}

/// A token as the lexer's specification sees it.
pub struct TokenView {
    pub line: int,
    pub column: int,
    pub kind: TokenKind,
}

impl View for TokenType {
    type V = TokenKind;

    open spec fn view(&self) -> TokenKind {
        match self {
            TokenType::OpenParen => TokenKind::OpenParen,
            TokenType::CloseParen => TokenKind::CloseParen,
            TokenType::Symbol(name) => TokenKind::Symbol(name@),
            TokenType::Dot => TokenKind::Dot,
            TokenType::Text(text) => TokenKind::Text(text@),
            TokenType::Quote => TokenKind::Quote,
        }
    }
}

impl View for Token {
    type V = TokenView;

    open spec fn view(&self) -> TokenView {
        TokenView { line: self.pos.line as int, column: self.pos.column as int, kind: self.token@ }
    }
}

impl Token {
    /// The token `token` at `pos`.
    pub fn new(pos: SourcePos, token: TokenType) -> (t: Token)
        ensures
            t.pos == pos,
            t.token == token,
    {
        Token { pos, token }
    }
}

/// The views of a row of tokens.
pub open spec fn token_views(tokens: Seq<Token>) -> Seq<TokenView> {
    tokens.map_values(|t: Token| t@)
}

/// Why the lexer refuses a text.
pub enum LexFault {
    /// A tab stands where white space may stand.
    Tab,
    /// A double quote opens a text that no double quote closes.
    Unterminated,
}

/// A refusal of the lexer: the fault and where it was found.
pub struct LexError {
    pub line: int,
    pub column: int,
    pub fault: LexFault,
}

/// The message that the lexer gives for a fault.
pub open spec fn fault_message(fault: LexFault) -> Seq<char> {
    match fault {
        LexFault::Tab => "tabs are not valid whitespace"@,
        LexFault::Unterminated => "Unterminated string"@,
    }
}

/// Whether `c` ends a symbol: a parenthesis, white space or a double quote.
pub open spec fn is_terminating(c: char) -> bool {
    c == OPEN_PAREN || c == CLOSE_PAREN || c == SPACE || c == TAB || c == CR || c == LF || c
        == DOUBLE_QUOTE
}

/// The index at or after `from` of the first character that ends a symbol,
/// or the length of the text if there is none.
pub open spec fn symbol_end(chars: Seq<char>, from: int) -> int
    decreases chars.len() - from,
{
    if from < 0 || from >= chars.len() || is_terminating(chars[from]) {
        from
    } else {
        symbol_end(chars, from + 1)
    }
}

/// The index at or after `from` of the first double quote, or the length of
/// the text if there is none.
pub open spec fn text_end(chars: Seq<char>, from: int) -> int
    decreases chars.len() - from,
{
    if from < 0 || from >= chars.len() || chars[from] == DOUBLE_QUOTE {
        from
    } else {
        text_end(chars, from + 1)
    }
}

/// One token in front of the tokens of the rest, or the refusal of the rest.
pub open spec fn token_then(token: TokenView, rest: Result<Seq<TokenView>, LexError>) -> Result<
    Seq<TokenView>,
    LexError,
> {
    match rest {
        Ok(tokens) => Ok(seq![token] + tokens),
        Err(e) => Err(e),
    }
}

/// The tokens of `chars` from index `at` on, where `at` stands in line
/// `line` at column `column`.
///
/// A space is skipped. A line feed, a carriage return, or a carriage return
/// with the line feed after it, begins a new line. A tab is refused. A
/// parenthesis, a dot and a single quote are tokens of one character. A
/// double quote opens a text that runs up to the next double quote, line ends
/// included, and is refused if there is none. Any other character begins a
/// symbol that runs up to the next character that ends one.
pub open spec fn lex(chars: Seq<char>, at: int, line: int, column: int) -> Result<
    Seq<TokenView>,
    LexError,
>
    decreases chars.len() - at,
    via lex_decreases
{
    if at < 0 || at >= chars.len() {
        Ok(Seq::empty())
    } else {
        let c = chars[at];
        if c == TAB {
            Err(LexError { line, column, fault: LexFault::Tab })
        } else if c == SPACE {
            lex(chars, at + 1, line, column + 1)
        } else if c == CR {
            if at + 1 < chars.len() && chars[at + 1] == LF {
                lex(chars, at + 2, line + 1, 0)
            } else {
                lex(chars, at + 1, line + 1, 0)
            }
        } else if c == LF {
            lex(chars, at + 1, line + 1, 0)
        } else if c == DOT {
            token_then(
                TokenView { line, column, kind: TokenKind::Dot },
                lex(chars, at + 1, line, column + 1),
            )
        } else if c == OPEN_PAREN {
            token_then(
                TokenView { line, column, kind: TokenKind::OpenParen },
                lex(chars, at + 1, line, column + 1),
            )
        } else if c == CLOSE_PAREN {
            token_then(
                TokenView { line, column, kind: TokenKind::CloseParen },
                lex(chars, at + 1, line, column + 1),
            )
        } else if c == DOUBLE_QUOTE {
            let end = text_end(chars, at + 1);
            if end >= chars.len() {
                Err(
                    LexError {
                        line,
                        column: column + (end - at - 1),
                        fault: LexFault::Unterminated,
                    },
                )
            } else {
                token_then(
                    TokenView {
                        line,
                        column,
                        kind: TokenKind::Text(chars.subrange(at + 1, end)),
                    },
                    lex(chars, end + 1, line, column + (end - at + 1)),
                )
            }
        } else if c == SINGLE_QUOTE {
            token_then(
                TokenView { line, column, kind: TokenKind::Quote },
                lex(chars, at + 1, line, column + 1),
            )
        } else {
            let end = symbol_end(chars, at + 1);
            token_then(
                TokenView { line, column, kind: TokenKind::Symbol(chars.subrange(at, end)) },
                lex(chars, end, line, column + (end - at)),
            )
        }
    }
}

#[via_fn]
proof fn lex_decreases(chars: Seq<char>, at: int, line: int, column: int) {
    if 0 <= at < chars.len() {
        lemma_symbol_end_bounds(chars, at + 1);
        lemma_text_end_bounds(chars, at + 1);
    }
}

/// A symbol ends at or after the index where the search for its end begins,
/// and within the text.
pub proof fn lemma_symbol_end_bounds(chars: Seq<char>, from: int)
    requires
        0 <= from <= chars.len(),
    ensures
        from <= symbol_end(chars, from) <= chars.len(),
    decreases chars.len() - from,
{
    if from < chars.len() && !is_terminating(chars[from]) {
        lemma_symbol_end_bounds(chars, from + 1);
    }
}

/// A text ends at or after the index where the search for its end begins,
/// and within the source.
pub proof fn lemma_text_end_bounds(chars: Seq<char>, from: int)
    requires
        0 <= from <= chars.len(),
    ensures
        from <= text_end(chars, from) <= chars.len(),
    decreases chars.len() - from,
{
    if from < chars.len() && chars[from] != DOUBLE_QUOTE {
        lemma_text_end_bounds(chars, from + 1);
    }
}

/// The tokens of a source text.
pub open spec fn spec_tokenize(input: Seq<char>) -> Result<Seq<TokenView>, LexError> {
    lex(input, 0, 1, 0)
}

/// The tokens `front` in front of the tokens of the rest, or the refusal of
/// the rest.
pub open spec fn tokens_then(front: Seq<TokenView>, rest: Result<Seq<TokenView>, LexError>)
    -> Result<Seq<TokenView>, LexError> {
    match rest {
        Ok(tokens) => Ok(front + tokens),
        Err(e) => Err(e),
    }
}

/// The characters of a text, in order.
pub fn chars_of(input: &str) -> (chars: Vec<char>)
    ensures
        chars@ == input@,
{
    let mut chars: Vec<char> = Vec::new();
    for c in it: input.chars()
        invariant
            chars@ == it.seq().take(it.index()),
            it.seq() == input@,
    {
        chars.push(c);
    }
    chars
}

/// Whether `c` ends a symbol.
fn ends_symbol(c: char) -> (b: bool)
    ensures
        b == is_terminating(c),
{
    c == OPEN_PAREN || c == CLOSE_PAREN || c == SPACE || c == TAB || c == CR || c == LF || c
        == DOUBLE_QUOTE
}

/// Splits a source text into tokens. A text of more than `u32::MAX - 1`
/// characters has positions that a token cannot hold.
pub fn tokenize(input: &str) -> (r: Result<Vec<Token>, RuntimeError>)
    requires
        input@.len() < u32::MAX,
    ensures
        match r {
            Ok(tokens) => spec_tokenize(input@) == Ok::<Seq<TokenView>, LexError>(
                token_views(tokens@),
            ),
            Err(e) => {
                &&& spec_tokenize(input@) matches Err(fault) && e.spec_pos() == Some(
                    SourcePos { line: fault.line as u32, column: fault.column as u32 },
                ) && (e.spec_kind() matches ErrorKind::LexerError(text) && text@ == fault_message(
                    fault.fault,
                ))
            },
        },
{
    let chars = chars_of(input);
    let n: usize = chars.len();
    let mut tokens: Vec<Token> = Vec::new();
    let mut lineno: u32 = 1;
    let mut charno: u32 = 0;
    let mut i: usize = 0;
    assert(token_views(tokens@) =~= Seq::<TokenView>::empty());
    assert(lex(chars@, 0, 1, 0) == tokens_then(token_views(tokens@), lex(chars@, 0, 1, 0))) by {
        match lex(chars@, 0, 1, 0) {
            Ok(rest) => {
                assert(Seq::<TokenView>::empty() + rest =~= rest);
            },
            Err(_) => {},
        }
    }
    while i < n
        invariant
            chars@ == input@,
            n == chars@.len(),
            n < u32::MAX,
            i <= n,
            1 <= lineno <= 1 + i,
            charno <= i,
            spec_tokenize(chars@) == tokens_then(
                token_views(tokens@),
                lex(chars@, i as int, lineno as int, charno as int),
            ),
        decreases n - i,
    {
        let c = chars[i];
        let ghost front = token_views(tokens@);
        if c == TAB {
            return Err(err_lexer(spos(lineno, charno), "tabs are not valid whitespace"));
        } else if c == SPACE {
            i = i + 1;
            charno = charno + 1;
        } else if c == CR {
            if i + 1 < n && chars[i + 1] == LF {
                i = i + 2;
            } else {
                i = i + 1;
            }
            lineno = lineno + 1;
            charno = 0;
        } else if c == LF {
            i = i + 1;
            lineno = lineno + 1;
            charno = 0;
        } else if c == DOT || c == OPEN_PAREN || c == CLOSE_PAREN || c == SINGLE_QUOTE {
            let token = if c == DOT {
                TokenType::Dot
            } else if c == OPEN_PAREN {
                TokenType::OpenParen
            } else if c == CLOSE_PAREN {
                TokenType::CloseParen
            } else {
                TokenType::Quote
            };
            let token = Token::new(spos(lineno, charno), token);
            proof {
                lemma_token_joins(front, token@, lex(chars@, i + 1, lineno as int, charno + 1));
            }
            tokens.push(token);
            assert(token_views(tokens@) =~= front.push(token@));
            i = i + 1;
            charno = charno + 1;
        } else if c == DOUBLE_QUOTE {
            let mut text = String::new();
            let mut j: usize = i + 1;
            while j < n && chars[j] != DOUBLE_QUOTE
                invariant
                    n == chars@.len(),
                    i < j <= n,
                    text@ == chars@.subrange(i + 1, j as int),
                    text_end(chars@, i + 1) == text_end(chars@, j as int),
                decreases n - j,
            {
                push_char(&mut text, chars[j]);
                j = j + 1;
                assert(text@ =~= chars@.subrange(i + 1, j as int));
            }
            if j >= n {
                return Err(
                    err_lexer(spos(lineno, charno + ((j - i - 1) as u32)), "Unterminated string"),
                );
            }
            let token = Token::new(spos(lineno, charno), TokenType::Text(text));
            proof {
                lemma_token_joins(
                    front,
                    token@,
                    lex(chars@, j + 1, lineno as int, charno + (j - i + 1)),
                );
            }
            tokens.push(token);
            assert(token_views(tokens@) =~= front.push(token@));
            charno = charno + ((j - i + 1) as u32);
            i = j + 1;
        } else {
            let mut symbol = String::new();
            push_char(&mut symbol, c);
            let mut j: usize = i + 1;
            assert(symbol@ =~= chars@.subrange(i as int, j as int));
            while j < n && !ends_symbol(chars[j])
                invariant
                    n == chars@.len(),
                    i < j <= n,
                    symbol@ == chars@.subrange(i as int, j as int),
                    symbol_end(chars@, i + 1) == symbol_end(chars@, j as int),
                decreases n - j,
            {
                push_char(&mut symbol, chars[j]);
                j = j + 1;
                assert(symbol@ =~= chars@.subrange(i as int, j as int));
            }
            let token = Token::new(spos(lineno, charno), TokenType::Symbol(symbol));
            proof {
                lemma_token_joins(front, token@, lex(chars@, j as int, lineno as int, charno + (j - i)));
            }
            tokens.push(token);
            assert(token_views(tokens@) =~= front.push(token@));
            charno = charno + ((j - i) as u32);
            i = j;
        }
    }
    proof {
        assert(token_views(tokens@) + Seq::<TokenView>::empty() =~= token_views(tokens@));
    }
    Ok(tokens)
}

/// A token put behind the tokens in front is a token put in front of the
/// rest.
pub proof fn lemma_token_joins(
    front: Seq<TokenView>,
    token: TokenView,
    rest: Result<Seq<TokenView>, LexError>,
)
    ensures
        tokens_then(front, token_then(token, rest)) == tokens_then(front.push(token), rest),
{
    match rest {
        Ok(tokens) => {
            assert(front + (seq![token] + tokens) =~= front.push(token) + tokens);
        },
        Err(_) => {},
    }
}

} // verus!
