//! Splits source text into tokens.
//!
//! A token is a run of identifier characters, a string between two quotes of
//! one kind, a comment, or a single character of punctuation. Spaces
//! separate tokens and are no tokens themselves. Each line feed is a token,
//! and its place is noted so that a place in the text can be told as a line
//! and a column.

use vstd::prelude::*;

verus! {

/// The tokens of a text, and the places of its line feeds.
#[derive(Debug, PartialEq, Eq)]
pub struct TokenStream {
    pub tokens: Vec<TokenItem>,
    pub line_offsets: Vec<usize>,
}

/// A token with its place in the text.
#[derive(Clone, Copy, Debug, PartialEq, Eq, Structural)]
pub struct TokenItem {
    pub token: Token,
    pub start: usize,
    pub len: usize,
}

#[derive(Clone, Copy, Debug, PartialEq, Eq, Structural)]
pub enum Token {
    LineFeed,
    Exclaimation,
    Hash,
    Dollar,
    Percent,
    Ampersand,
    LeftParen,
    RightParen,
    Asterisk,
    Plus,
    Comma,
    Minus,
    Period,
    Slash,
    Colon,
    Semicolon,
    LessThan,
    Equal,
    GreaterThan,
    Question,
    AtSign,
    LeftSquare,
    BackSlash,
    RightSquare,
    Caret,
    Underscore,
    Tick,
    LeftCurly,
    VerticalBar,
    RightCurly,
    Tilde,
    Identifier,
    SingleQuoteString,
    DoubleQuoteString,
    LineComment,
    BlockComment,
    Unknown,
}

/// Why a text could not be split, where, and the tokens before that place.
#[derive(Debug, PartialEq, Eq)]
pub struct TokenError {
    pub partial_stream: TokenStream,
    pub error_kind: TokenErrorKind,
    pub loc: usize,
}

#[derive(Clone, Copy, Debug, PartialEq, Eq, Structural)]
pub enum TokenErrorKind {
    /// A character that starts no token.
    UnknownToken(u8),
    /// A string whose closing quote is missing.
    UnclosedString,
    /// A block comment whose end is missing.
    UnclosedComment,
}

pub const LINEFEED: u8 = 0x0A;

pub const SPACE: u8 = 0x20;

pub const DOUBLEQUOTE: u8 = 0x22;

pub const SINGLEQUOTE: u8 = 0x27;

pub const ASTERISK: u8 = 0x2A;

pub const SLASH: u8 = 0x2F;

pub const UNDERSCORE: u8 = 0x5F;

/// A [`TokenStream`] as contracts see it.
pub struct StreamView {
    pub tokens: Seq<TokenItem>,
    pub line_offsets: Seq<usize>,
}

impl View for TokenStream {
    type V = StreamView;

    open spec fn view(&self) -> StreamView {
        StreamView { tokens: self.tokens@, line_offsets: self.line_offsets@ }
    }
}

/// A [`TokenError`] as contracts see it.
pub struct ErrorView {
    pub partial_stream: StreamView,
    pub error_kind: TokenErrorKind,
    pub loc: usize,
}

impl View for TokenError {
    type V = ErrorView;

    open spec fn view(&self) -> ErrorView {
        ErrorView {
            partial_stream: self.partial_stream@,
            error_kind: self.error_kind,
            loc: self.loc,
        }
    }
}

/// Whether the character can stand in an identifier: a digit, a letter, an
/// underscore, or a byte of a character beyond ASCII.
pub open spec fn identifier_char(c: u8) -> bool {
    (0x30 <= c <= 0x39) || (0x41 <= c <= 0x5A) || (0x61 <= c <= 0x7A) || c == UNDERSCORE || c
        >= 0x80
}

/// The token of a single character of punctuation.
pub open spec fn punctuation(c: u8) -> Option<Token> {
    if c == 0x0A {
        Some(Token::LineFeed)
    } else if c == 0x21 {
        Some(Token::Exclaimation)
    } else if c == 0x23 {
        Some(Token::Hash)
    } else if c == 0x24 {
        Some(Token::Dollar)
    } else if c == 0x25 {
        Some(Token::Percent)
    } else if c == 0x26 {
        Some(Token::Ampersand)
    } else if c == 0x28 {
        Some(Token::LeftParen)
    } else if c == 0x29 {
        Some(Token::RightParen)
    } else if c == 0x2A {
        Some(Token::Asterisk)
    } else if c == 0x2B {
        Some(Token::Plus)
    } else if c == 0x2C {
        Some(Token::Comma)
    } else if c == 0x2D {
        Some(Token::Minus)
    } else if c == 0x2E {
        Some(Token::Period)
    } else if c == 0x3A {
        Some(Token::Colon)
    } else if c == 0x3B {
        Some(Token::Semicolon)
    } else if c == 0x3C {
        Some(Token::LessThan)
    } else if c == 0x3D {
        Some(Token::Equal)
    } else if c == 0x3E {
        Some(Token::GreaterThan)
    } else if c == 0x3F {
        Some(Token::Question)
    } else if c == 0x40 {
        Some(Token::AtSign)
    } else if c == 0x5B {
        Some(Token::LeftSquare)
    } else if c == 0x5C {
        Some(Token::BackSlash)
    } else if c == 0x5D {
        Some(Token::RightSquare)
    } else if c == 0x5E {
        Some(Token::Caret)
    } else if c == 0x60 {
        Some(Token::Tick)
    } else if c == 0x7B {
        Some(Token::LeftCurly)
    } else if c == 0x7C {
        Some(Token::VerticalBar)
    } else if c == 0x7D {
        Some(Token::RightCurly)
    } else if c == 0x7E {
        Some(Token::Tilde)
    } else {
        None
    }
}

/// The first place from `i` on that holds no identifier character: the end
/// of the text if there is none.
pub open spec fn identifier_end(source: Seq<u8>, i: int) -> int
    decreases source.len() - i,
{
    if 0 <= i < source.len() && identifier_char(source[i]) {
        identifier_end(source, i + 1)
    } else {
        i
    }
}

/// The place behind the first `quote` from `i` on, if there is one.
pub open spec fn string_end(source: Seq<u8>, i: int, quote: u8) -> Option<int>
    decreases source.len() - i,
{
    if 0 <= i < source.len() {
        if source[i] == quote {
            Some(i + 1)
        } else {
            string_end(source, i + 1, quote)
        }
    } else {
        None
    }
}

/// The first place from `i` on that holds a line feed: the end of the text
/// if there is none.
pub open spec fn line_end(source: Seq<u8>, i: int) -> int
    decreases source.len() - i,
{
    if 0 <= i < source.len() && source[i] != LINEFEED {
        line_end(source, i + 1)
    } else {
        i
    }
}

/// The place of the slash of the first `*/` from `i` on, if there is one.
pub open spec fn block_end(source: Seq<u8>, i: int) -> Option<int>
    decreases source.len() - i,
{
    if 0 <= i && i + 1 < source.len() {
        if source[i] == ASTERISK && source[i + 1] == SLASH {
            Some(i + 1)
        } else {
            block_end(source, i + 1)
        }
    } else {
        None
    }
}

/// What is found at one place of the text.
pub enum Found {
    /// A token that ends before the given place.
    Token(Token, int),
    /// Nothing that counts, up to the given place.
    Skip(int),
    Error(TokenErrorKind),
}

/// What is found at place `start` of the text.
///
/// * An identifier character starts an identifier, which goes on as long as
///   identifier characters follow.
/// * A quote starts a string, which ends with the next quote of the same
///   kind.
/// * `//` starts a line comment, which ends before the next line feed.
/// * `/*` starts a block comment, which ends before the slash of the next
///   `*/`.
/// * Any other slash, and a space, is skipped.
pub open spec fn found_at(source: Seq<u8>, start: int) -> Found {
    let c = source[start];
    if identifier_char(c) {
        Found::Token(Token::Identifier, identifier_end(source, start + 1))
    } else if c == DOUBLEQUOTE || c == SINGLEQUOTE {
        match string_end(source, start + 1, c) {
            Some(end) => Found::Token(
                if c == DOUBLEQUOTE {
                    Token::DoubleQuoteString
                } else {
                    Token::SingleQuoteString
                },
                end,
            ),
            None => Found::Error(TokenErrorKind::UnclosedString),
        }
    } else if c == SLASH {
        if start + 1 < source.len() && source[start + 1] == SLASH {
            Found::Token(Token::LineComment, line_end(source, start + 1))
        } else if start + 1 < source.len() && source[start + 1] == ASTERISK {
            match block_end(source, start + 1) {
                Some(end) => Found::Token(Token::BlockComment, end),
                None => Found::Error(TokenErrorKind::UnclosedComment),
            }
        } else {
            Found::Skip(start + 1)
        }
    } else if c == SPACE {
        Found::Skip(start + 1)
    } else {
        match punctuation(c) {
            Some(t) => Found::Token(t, start + 1),
            None => Found::Error(TokenErrorKind::UnknownToken(c)),
        }
    }
}

/// The outcome of splitting the text from place `cursor` on, with the tokens
/// and the line feeds found before.
pub open spec fn scanned(source: Seq<u8>, cursor: int, acc: StreamView) -> Result<
    StreamView,
    ErrorView,
>
    decreases source.len() - cursor,
{
    if 0 <= cursor < source.len() {
        match found_at(source, cursor) {
            Found::Token(token, end) => if cursor < end <= source.len() {
                scanned(
                    source,
                    end,
                    StreamView {
                        tokens: acc.tokens.push(
                            TokenItem {
                                token,
                                start: cursor as usize,
                                len: (end - cursor) as usize,
                            },
                        ),
                        line_offsets: if token == Token::LineFeed {
                            acc.line_offsets.push(cursor as usize)
                        } else {
                            acc.line_offsets
                        },
                    },
                )
            } else {
                Ok(acc)
            },
            Found::Skip(end) => if cursor < end <= source.len() {
                scanned(source, end, acc)
            } else {
                Ok(acc)
            },
            Found::Error(kind) => Err(
                ErrorView { partial_stream: acc, error_kind: kind, loc: cursor as usize },
            ),
        }
    } else {
        Ok(acc)
    }
}

/// How many of the leading line feeds stand before place `offset`.
pub open spec fn lines_before(line_offsets: Seq<usize>, offset: usize) -> nat
    decreases line_offsets.len(),
{
    if line_offsets.len() == 0 || line_offsets.first() >= offset {
        0
    } else {
        1 + lines_before(line_offsets.drop_first(), offset)
    }
}

impl StreamView {
    /// The place at which the line of place `offset` starts: behind the last
    /// of the line feeds counted by `lines_before`, or at the start of the
    /// text.
    pub open spec fn line_start(self, offset: usize) -> int {
        let n = lines_before(self.line_offsets, offset);
        if n == 0 {
            0
        } else {
            self.line_offsets[n - 1] + 1
        }
    }
}

pub fn is_identifier(c: u8) -> (r: bool)
    ensures
        r == identifier_char(c),
{
    (c >= 0x30 && c <= 0x39) || (c >= 0x41 && c <= 0x5A) || (c >= 0x61 && c <= 0x7A) || c
        == UNDERSCORE || c >= 0x80
}

fn punctuation_of(c: u8) -> (r: Option<Token>)
    ensures
        r == punctuation(c),
{
    if c == 0x0A {
        Some(Token::LineFeed)
    } else if c == 0x21 {
        Some(Token::Exclaimation)
    } else if c == 0x23 {
        Some(Token::Hash)
    } else if c == 0x24 {
        Some(Token::Dollar)
    } else if c == 0x25 {
        Some(Token::Percent)
    } else if c == 0x26 {
        Some(Token::Ampersand)
    } else if c == 0x28 {
        Some(Token::LeftParen)
    } else if c == 0x29 {
        Some(Token::RightParen)
    } else if c == 0x2A {
        Some(Token::Asterisk)
    } else if c == 0x2B {
        Some(Token::Plus)
    } else if c == 0x2C {
        Some(Token::Comma)
    } else if c == 0x2D {
        Some(Token::Minus)
    } else if c == 0x2E {
        Some(Token::Period)
    } else if c == 0x3A {
        Some(Token::Colon)
    } else if c == 0x3B {
        Some(Token::Semicolon)
    } else if c == 0x3C {
        Some(Token::LessThan)
    } else if c == 0x3D {
        Some(Token::Equal)
    } else if c == 0x3E {
        Some(Token::GreaterThan)
    } else if c == 0x3F {
        Some(Token::Question)
    } else if c == 0x40 {
        Some(Token::AtSign)
    } else if c == 0x5B {
        Some(Token::LeftSquare)
    } else if c == 0x5C {
        Some(Token::BackSlash)
    } else if c == 0x5D {
        Some(Token::RightSquare)
    } else if c == 0x5E {
        Some(Token::Caret)
    } else if c == 0x60 {
        Some(Token::Tick)
    } else if c == 0x7B {
        Some(Token::LeftCurly)
    } else if c == 0x7C {
        Some(Token::VerticalBar)
    } else if c == 0x7D {
        Some(Token::RightCurly)
    } else if c == 0x7E {
        Some(Token::Tilde)
    } else {
        None
    }
}

impl TokenStream {
    pub fn new() -> (ts: TokenStream)
        ensures
            ts@ == (StreamView { tokens: Seq::empty(), line_offsets: Seq::empty() }),
    {
        TokenStream { tokens: Vec::new(), line_offsets: Vec::new() }
    }

    /// The line and the column of a place in the text, both counted from 1.
    pub fn offset_to_line_col(&self, offset: usize) -> (r: (usize, usize))
        requires
            offset < usize::MAX,
            self@.line_offsets.len() < usize::MAX,
        ensures
            r.0 == lines_before(self@.line_offsets, offset) + 1,
            r.1 == offset - self@.line_start(offset) + 1,
    {
        let ghost all = self.line_offsets@;
        let mut line_start: usize = 0;
        let mut k: usize = 0;
        assert(all.subrange(0, all.len() as int) =~= all);
        while k < self.line_offsets.len() && self.line_offsets[k] < offset
            invariant
                k <= self.line_offsets.len(),
                all == self.line_offsets@,
                offset < usize::MAX,
                line_start <= offset,
                line_start == (if k == 0 {
                    0
                } else {
                    all[k - 1] + 1
                }),
                lines_before(all, offset) == k + lines_before(
                    all.subrange(k as int, all.len() as int),
                    offset,
                ),
            decreases self.line_offsets.len() - k,
        {
            let ghost rest = all.subrange(k as int, all.len() as int);
            assert(rest.first() == all[k as int]);
            assert(rest.drop_first() =~= all.subrange(k + 1, all.len() as int));
            line_start = self.line_offsets[k] + 1;
            k += 1;
        }
        proof {
            let rest = all.subrange(k as int, all.len() as int);
            if k < all.len() {
                assert(rest.first() == all[k as int]);
            }
            assert(lines_before(rest, offset) == 0);
        }
        (k + 1, offset - line_start + 1)
    }
}

fn scan_identifier(source: &[u8], from: usize) -> (end: usize)
    requires
        from <= source@.len(),
    ensures
        end == identifier_end(source@, from as int),
        from <= end <= source@.len(),
{
    let mut i = from;
    while i < source.len() && is_identifier(source[i])
        invariant
            from <= i <= source@.len(),
            identifier_end(source@, i as int) == identifier_end(source@, from as int),
        decreases source.len() - i,
    {
        i += 1;
    }
    i
}

fn scan_string(source: &[u8], from: usize, quote: u8) -> (end: Option<usize>)
    requires
        from <= source@.len(),
    ensures
        match end {
            Some(e) => string_end(source@, from as int, quote) == Some(e as int) && from < e
                <= source@.len(),
            None => string_end(source@, from as int, quote) is None,
        },
{
    let mut i = from;
    while i < source.len()
        invariant
            from <= i <= source@.len(),
            string_end(source@, i as int, quote) == string_end(source@, from as int, quote),
        decreases source.len() - i,
    {
        if source[i] == quote {
            return Some(i + 1);
        }
        i += 1;
    }
    None
}

fn scan_line(source: &[u8], from: usize) -> (end: usize)
    requires
        from <= source@.len(),
    ensures
        end == line_end(source@, from as int),
        from <= end <= source@.len(),
{
    let mut i = from;
    while i < source.len() && source[i] != LINEFEED
        invariant
            from <= i <= source@.len(),
            line_end(source@, i as int) == line_end(source@, from as int),
        decreases source.len() - i,
    {
        i += 1;
    }
    i
}

fn scan_block(source: &[u8], from: usize) -> (end: Option<usize>)
    requires
        from <= source@.len(),
    ensures
        match end {
            Some(e) => block_end(source@, from as int) == Some(e as int) && from < e
                < source@.len(),
            None => block_end(source@, from as int) is None,
        },
{
    let mut i = from;
    while i < source.len() && i + 1 < source.len()
        invariant
            from <= i <= source@.len(),
            block_end(source@, i as int) == block_end(source@, from as int),
        decreases source.len() - i,
    {
        if source[i] == ASTERISK && source[i + 1] == SLASH {
            return Some(i + 1);
        }
        i += 1;
    }
    None
}

/// What stands at place `start` of the text.
enum Piece {
    Token(Token, usize),
    Skip(usize),
    Error(TokenErrorKind),
}

fn piece_at(source: &[u8], start: usize) -> (r: Piece)
    requires
        start < source@.len(),
    ensures
        match r {
            Piece::Token(t, end) => found_at(source@, start as int) == Found::Token(t, end as int)
                && start < end <= source@.len(),
            Piece::Skip(end) => found_at(source@, start as int) == Found::Skip(end as int) && start
                < end <= source@.len(),
            Piece::Error(kind) => found_at(source@, start as int) == Found::Error(kind),
        },
{
    let c = source[start];
    if is_identifier(c) {
        Piece::Token(Token::Identifier, scan_identifier(source, start + 1))
    } else if c == DOUBLEQUOTE || c == SINGLEQUOTE {
        match scan_string(source, start + 1, c) {
            Some(end) => Piece::Token(
                if c == DOUBLEQUOTE {
                    Token::DoubleQuoteString
                } else {
                    Token::SingleQuoteString
                },
                end,
            ),
            None => Piece::Error(TokenErrorKind::UnclosedString),
        }
    } else if c == SLASH {
        if start + 1 < source.len() && source[start + 1] == SLASH {
            Piece::Token(Token::LineComment, scan_line(source, start + 1))
        } else if start + 1 < source.len() && source[start + 1] == ASTERISK {
            match scan_block(source, start + 1) {
                Some(end) => Piece::Token(Token::BlockComment, end),
                None => Piece::Error(TokenErrorKind::UnclosedComment),
            }
        } else {
            Piece::Skip(start + 1)
        }
    } else if c == SPACE {
        Piece::Skip(start + 1)
    } else {
        match punctuation_of(c) {
            Some(t) => Piece::Token(t, start + 1),
            None => Piece::Error(TokenErrorKind::UnknownToken(c)),
        }
    }
}

/// Splits a text into tokens.
pub fn parse(source: &[u8]) -> (r: Result<TokenStream, TokenError>)
    ensures
        match r {
            Ok(ts) => scanned(
                source@,
                0,
                StreamView { tokens: Seq::empty(), line_offsets: Seq::empty() },
            ) == Ok::<StreamView, ErrorView>(ts@),
            Err(e) => scanned(
                source@,
                0,
                StreamView { tokens: Seq::empty(), line_offsets: Seq::empty() },
            ) == Err::<StreamView, ErrorView>(e@),
        },
{
    let ghost start = StreamView { tokens: Seq::empty(), line_offsets: Seq::empty() };
    let mut ts = TokenStream::new();
    let mut cursor: usize = 0;
    while cursor < source.len()
        invariant
            cursor <= source@.len(),
            start == (StreamView { tokens: Seq::empty(), line_offsets: Seq::empty() }),
            scanned(source@, cursor as int, ts@) == scanned(source@, 0, start),
        decreases source.len() - cursor,
    {
        match piece_at(source, cursor) {
            Piece::Token(token, end) => {
                ts.tokens.push(TokenItem { token, start: cursor, len: end - cursor });
                match token {
                    Token::LineFeed => {
                        ts.line_offsets.push(cursor);
                    },
                    _ => {},
                }
                cursor = end;
            },
            Piece::Skip(end) => {
                cursor = end;
            },
            Piece::Error(kind) => {
                return Err(TokenError { partial_stream: ts, error_kind: kind, loc: cursor });
            },
        }
    }
    Ok(ts)
}

} // verus!
