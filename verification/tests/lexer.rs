use stickyimmix::error::{spos, ErrorKind, SourcePos};
use stickyimmix::lexer::{tokenize, Token, TokenType};

#[test]
fn lexer_empty_string() {
    if let Ok(tokens) = tokenize("") {
        assert!(tokens.len() == 0);
    } else {
        assert!(false, "unexpected error");
    }
}

#[test]
fn lexer_one_line() {
    if let Ok(tokens) = tokenize("(foo bar baz)") {
        assert!(tokens.len() == 5);
        assert_eq!(tokens[0], Token::new(spos(1, 0), TokenType::OpenParen));
        assert_eq!(
            tokens[1],
            Token::new(spos(1, 1), TokenType::Symbol(String::from("foo")))
        );
        assert_eq!(
            tokens[2],
            Token::new(spos(1, 5), TokenType::Symbol(String::from("bar")))
        );
        assert_eq!(
            tokens[3],
            Token::new(spos(1, 9), TokenType::Symbol(String::from("baz")))
        );
        assert_eq!(tokens[4], Token::new(spos(1, 12), TokenType::CloseParen));
    } else {
        assert!(false, "unexpected error");
    }
}

#[test]
fn lexer_multi_line() {
    if let Ok(tokens) = tokenize("( foo\nbar\nbaz\n)") {
        assert!(tokens.len() == 5);
        assert_eq!(tokens[0], Token::new(spos(1, 0), TokenType::OpenParen));
        assert_eq!(
            tokens[1],
            Token::new(spos(1, 2), TokenType::Symbol(String::from("foo")))
        );
        assert_eq!(
            tokens[2],
            Token::new(spos(2, 0), TokenType::Symbol(String::from("bar")))
        );
        assert_eq!(
            tokens[3],
            Token::new(spos(3, 0), TokenType::Symbol(String::from("baz")))
        );
        assert_eq!(tokens[4], Token::new(spos(4, 0), TokenType::CloseParen));
    } else {
        assert!(false, "unexpected error");
    }
}

#[test]
fn lexer_bad_whitespace() {
    if let Err(e) = tokenize("(foo\n\t(bar))") {
        if let Some(SourcePos { line, column }) = e.error_pos() {
            assert_eq!(line, 2);
            assert_eq!(column, 0);
        } else {
            assert!(false, "Expected error position");
        }
    } else {
        assert!(false, "expected ParseEvalError for tab character");
    }
}

#[test]
fn lexer_text() {
    if let Ok(_tokens) = tokenize("(foo \"text\" bar)") {
        // nothing more is asked of the tokens
    } else {
        assert!(false, "unexpected error")
    }
}

#[test]
fn lexer_text_token_holds_the_text_and_its_position() {
    let tokens = tokenize("(foo \"te xt\" bar)").unwrap();
    assert_eq!(tokens.len(), 5);
    assert_eq!(
        tokens[2],
        Token::new(spos(1, 5), TokenType::Text(String::from("te xt")))
    );
    assert_eq!(
        tokens[3],
        Token::new(spos(1, 13), TokenType::Symbol(String::from("bar")))
    );
    assert_eq!(tokens[4], Token::new(spos(1, 16), TokenType::CloseParen));
}

#[test]
fn lexer_unterminated_text_is_refused_at_its_end() {
    let e = tokenize("(a \"bcd").unwrap_err();
    assert_eq!(e.error_pos(), Some(spos(1, 6)));
    assert_eq!(
        *e.error_kind(),
        ErrorKind::LexerError(String::from("Unterminated string"))
    );
    assert_eq!(e.message(), "Parse error: Unterminated string");
}

#[test]
fn lexer_tab_message() {
    let e = tokenize("\t").unwrap_err();
    assert_eq!(e.error_pos(), Some(spos(1, 0)));
    assert_eq!(
        *e.error_kind(),
        ErrorKind::LexerError(String::from("tabs are not valid whitespace"))
    );
}

#[test]
fn lexer_dot_and_quote_are_tokens_of_their_own() {
    let tokens = tokenize("'(.a)").unwrap();
    assert_eq!(tokens.len(), 5);
    assert_eq!(tokens[0], Token::new(spos(1, 0), TokenType::Quote));
    assert_eq!(tokens[1], Token::new(spos(1, 1), TokenType::OpenParen));
    assert_eq!(tokens[2], Token::new(spos(1, 2), TokenType::Dot));
    assert_eq!(
        tokens[3],
        Token::new(spos(1, 3), TokenType::Symbol(String::from("a")))
    );
    assert_eq!(tokens[4], Token::new(spos(1, 4), TokenType::CloseParen));
}

#[test]
fn lexer_dot_and_quote_inside_a_symbol_belong_to_it() {
    let tokens = tokenize("a.b'c d").unwrap();
    assert_eq!(tokens.len(), 2);
    assert_eq!(
        tokens[0],
        Token::new(spos(1, 0), TokenType::Symbol(String::from("a.b'c")))
    );
    assert_eq!(
        tokens[1],
        Token::new(spos(1, 6), TokenType::Symbol(String::from("d")))
    );
}

#[test]
fn lexer_carriage_return_and_line_feed_are_one_line_end() {
    let tokens = tokenize("a\r\nb\rc").unwrap();
    assert_eq!(tokens.len(), 3);
    assert_eq!(
        tokens[1],
        Token::new(spos(2, 0), TokenType::Symbol(String::from("b")))
    );
    assert_eq!(
        tokens[2],
        Token::new(spos(3, 0), TokenType::Symbol(String::from("c")))
    );
}

#[test]
fn lexer_counts_characters_not_bytes() {
    let tokens = tokenize("\u{3053}\u{3093} x").unwrap();
    assert_eq!(tokens.len(), 2);
    assert_eq!(
        tokens[0],
        Token::new(
            spos(1, 0),
            TokenType::Symbol(String::from("\u{3053}\u{3093}"))
        )
    );
    assert_eq!(
        tokens[1],
        Token::new(spos(1, 3), TokenType::Symbol(String::from("x")))
    );
}
