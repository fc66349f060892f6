use tootvm::token::{
    is_identifier, parse, Token, TokenError, TokenErrorKind, TokenItem, TokenStream,
};

fn item(token: Token, start: usize, len: usize) -> TokenItem {
    TokenItem { token, start, len }
}

fn kinds(source: &[u8]) -> Vec<Token> {
    parse(source).unwrap().tokens.iter().map(|t| t.token).collect()
}

#[test]
fn new_stream_is_empty() {
    let ts = TokenStream::new();
    assert!(ts.tokens.is_empty() && ts.line_offsets.is_empty());
    assert_eq!(parse(b""), Ok(TokenStream::new()));
    assert_eq!(parse(b"   "), Ok(TokenStream::new()));
}

#[test]
fn identifier_characters_are_digits_letters_underscore_and_beyond_ascii() {
    for c in 0..=255u8 {
        let expected = c.is_ascii_alphanumeric() || c == b'_' || c >= 0x80;
        assert_eq!(is_identifier(c), expected, "{}", c);
    }
}

#[test]
fn text_is_split_at_spaces_and_punctuation() {
    let ts = parse(b"5 + 6\n7 + 10\n3 + 4").unwrap();
    assert_eq!(
        ts.tokens,
        vec![
            item(Token::Identifier, 0, 1),
            item(Token::Plus, 2, 1),
            item(Token::Identifier, 4, 1),
            item(Token::LineFeed, 5, 1),
            item(Token::Identifier, 6, 1),
            item(Token::Plus, 8, 1),
            item(Token::Identifier, 10, 2),
            item(Token::LineFeed, 12, 1),
            item(Token::Identifier, 13, 1),
            item(Token::Plus, 15, 1),
            item(Token::Identifier, 17, 1),
        ]
    );
    assert_eq!(ts.line_offsets, vec![5, 12]);
}

#[test]
fn place_is_told_as_line_and_column() {
    let ts = parse(b"5 + 6\n7 + 10\n3 + 4").unwrap();
    assert_eq!(ts.offset_to_line_col(0), (1, 1));
    assert_eq!(ts.offset_to_line_col(4), (1, 5));
    assert_eq!(ts.offset_to_line_col(5), (1, 6));
    assert_eq!(ts.offset_to_line_col(6), (2, 1));
    assert_eq!(ts.offset_to_line_col(12), (2, 7));
    assert_eq!(ts.offset_to_line_col(13), (3, 1));
    assert_eq!(ts.offset_to_line_col(17), (3, 5));
    assert_eq!(TokenStream::new().offset_to_line_col(9), (1, 10));
}

#[test]
fn every_punctuation_character_has_its_token() {
    assert_eq!(
        kinds(b"!#$%&()*+,-.:;<=>?@[\\]^`{|}~"),
        vec![
            Token::Exclaimation,
            Token::Hash,
            Token::Dollar,
            Token::Percent,
            Token::Ampersand,
            Token::LeftParen,
            Token::RightParen,
            Token::Asterisk,
            Token::Plus,
            Token::Comma,
            Token::Minus,
            Token::Period,
            Token::Colon,
            Token::Semicolon,
            Token::LessThan,
            Token::Equal,
            Token::GreaterThan,
            Token::Question,
            Token::AtSign,
            Token::LeftSquare,
            Token::BackSlash,
            Token::RightSquare,
            Token::Caret,
            Token::Tick,
            Token::LeftCurly,
            Token::VerticalBar,
            Token::RightCurly,
            Token::Tilde,
        ]
    );
}

#[test]
fn identifier_runs_as_long_as_identifier_characters_follow() {
    let ts = parse("ab_9\u{e9}(x".as_bytes()).unwrap();
    assert_eq!(
        ts.tokens,
        vec![item(Token::Identifier, 0, 6), item(Token::LeftParen, 6, 1), item(Token::Identifier, 7, 1)]
    );
    assert_eq!(kinds(b"_"), vec![Token::Identifier]);
}

#[test]
fn string_ends_at_the_next_quote_of_its_kind() {
    let ts = parse(b"\"a 'b'\" 'c\"' x").unwrap();
    assert_eq!(
        ts.tokens,
        vec![
            item(Token::DoubleQuoteString, 0, 7),
            item(Token::SingleQuoteString, 8, 4),
            item(Token::Identifier, 13, 1),
        ]
    );
    assert_eq!(parse(b"''").unwrap().tokens, vec![item(Token::SingleQuoteString, 0, 2)]);
}

#[test]
fn string_without_its_closing_quote_is_an_error() {
    let e = parse(b"a \"bc").unwrap_err();
    assert_eq!(e.error_kind, TokenErrorKind::UnclosedString);
    assert_eq!(e.loc, 2);
    assert_eq!(e.partial_stream.tokens, vec![item(Token::Identifier, 0, 1)]);
    assert_eq!(parse(b"'").unwrap_err().error_kind, TokenErrorKind::UnclosedString);
}

#[test]
fn line_comment_ends_before_the_line_feed() {
    let ts = parse(b"a // b c\nd").unwrap();
    assert_eq!(
        ts.tokens,
        vec![
            item(Token::Identifier, 0, 1),
            item(Token::LineComment, 2, 6),
            item(Token::LineFeed, 8, 1),
            item(Token::Identifier, 9, 1),
        ]
    );
    assert_eq!(parse(b"//x").unwrap().tokens, vec![item(Token::LineComment, 0, 3)]);
    assert_eq!(parse(b"//").unwrap().tokens, vec![item(Token::LineComment, 0, 2)]);
}

#[test]
fn block_comment_ends_before_the_slash_that_closes_it() {
    let ts = parse(b"a /* b\n */ c").unwrap();
    assert_eq!(
        ts.tokens,
        vec![
            item(Token::Identifier, 0, 1),
            item(Token::BlockComment, 2, 7),
            item(Token::Identifier, 11, 1),
        ]
    );
    assert!(ts.line_offsets.is_empty());
}

#[test]
fn block_comment_without_its_end_is_an_error() {
    let e = parse(b"a /* b").unwrap_err();
    assert_eq!(e.error_kind, TokenErrorKind::UnclosedComment);
    assert_eq!(e.loc, 2);
    assert_eq!(parse(b"/*").unwrap_err().error_kind, TokenErrorKind::UnclosedComment);
}

#[test]
fn slash_that_starts_no_comment_is_skipped() {
    assert_eq!(kinds(b"a / b"), vec![Token::Identifier, Token::Identifier]);
    assert_eq!(kinds(b"/"), vec![]);
}

#[test]
fn character_that_starts_no_token_is_an_error() {
    let e: TokenError = parse(b"a\tb").unwrap_err();
    assert_eq!(e.error_kind, TokenErrorKind::UnknownToken(9));
    assert_eq!(e.loc, 1);
    assert_eq!(e.partial_stream.tokens, vec![item(Token::Identifier, 0, 1)]);
    assert_eq!(parse(&[0]).unwrap_err().error_kind, TokenErrorKind::UnknownToken(0));
}
