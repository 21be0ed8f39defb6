use mosaic_lexer::lexer::Lexer;
use mosaic_lexer::token::{Token, TokenType};

fn scan(source: &str) -> (Vec<Token>, Lexer) {
    let mut lexer = Lexer::new(String::from(source));
    let tokens = lexer.scan_tokens();
    (tokens, lexer)
}

fn kinds(tokens: &[Token]) -> Vec<&TokenType> {
    tokens.iter().map(|t| &t.token_type).collect()
}

#[test]
fn empty_source_yields_eof_only() {
    let (tokens, lexer) = scan("");
    assert_eq!(tokens.len(), 1);
    assert_eq!(tokens[0].token_type, TokenType::Eof);
    assert_eq!(tokens[0].lexeme, "");
    assert_eq!(tokens[0].line, 1);
    assert!(!lexer.had_error());
}

#[test]
fn number_plus_number() {
    let (tokens, lexer) = scan("1 + 2.5");
    assert_eq!(tokens.len(), 4);
    match &tokens[0].token_type {
        TokenType::Number(text) => assert_eq!(text.parse::<f64>().unwrap(), 1.0),
        other => panic!("expected a number, got {:?}", other),
    }
    assert_eq!(tokens[1].token_type, TokenType::Plus);
    match &tokens[2].token_type {
        TokenType::Number(text) => assert_eq!(text.parse::<f64>().unwrap(), 2.5),
        other => panic!("expected a number, got {:?}", other),
    }
    assert_eq!(tokens[3].token_type, TokenType::Eof);
    assert_eq!(tokens[0].lexeme, "1");
    assert_eq!(tokens[2].lexeme, "2.5");
    assert!(!lexer.had_error());
}

#[test]
fn underscore_identifier_is_one_token() {
    let (tokens, _) = scan("foo_bar");
    assert_eq!(tokens.len(), 2);
    assert_eq!(
        tokens[0].token_type,
        TokenType::Identifier(String::from("foo_bar"))
    );
    assert_eq!(tokens[0].lexeme, "foo_bar");
    assert_eq!(tokens[1].token_type, TokenType::Eof);
}

#[test]
fn keyword_is_not_an_identifier() {
    let (tokens, _) = scan("if");
    assert_eq!(tokens.len(), 2);
    assert_eq!(tokens[0].token_type, TokenType::If);
    assert_eq!(tokens[0].lexeme, "if");
}

#[test]
fn all_keywords_resolve() {
    let source = "and class else false fun for if nil or print return super this true var while";
    let (tokens, _) = scan(source);
    let expected = vec![
        TokenType::And,
        TokenType::Class,
        TokenType::Else,
        TokenType::False,
        TokenType::Fun,
        TokenType::For,
        TokenType::If,
        TokenType::Nil,
        TokenType::Or,
        TokenType::Print,
        TokenType::Return,
        TokenType::Super,
        TokenType::This,
        TokenType::True,
        TokenType::Var,
        TokenType::While,
        TokenType::Eof,
    ];
    assert_eq!(kinds(&tokens), expected.iter().collect::<Vec<_>>());
}

#[test]
fn keyword_prefix_stays_identifier() {
    let (tokens, _) = scan("iffy");
    assert_eq!(
        tokens[0].token_type,
        TokenType::Identifier(String::from("iffy"))
    );
}

#[test]
fn multiline_string_is_one_token_on_closing_line() {
    let (tokens, lexer) = scan("\"hello\nworld\"");
    assert_eq!(tokens.len(), 2);
    assert_eq!(
        tokens[0].token_type,
        TokenType::StrLit(String::from("hello\nworld"))
    );
    assert_eq!(tokens[0].lexeme, "\"hello\nworld\"");
    assert_eq!(tokens[0].line, 2);
    assert_eq!(lexer.line, 2);
    assert!(!lexer.had_error());
}

#[test]
fn string_value_excludes_quotes() {
    let (tokens, _) = scan("\"abc\" x");
    assert_eq!(tokens[0].token_type, TokenType::StrLit(String::from("abc")));
    assert_eq!(tokens[0].lexeme, "\"abc\"");
    assert_eq!(
        tokens[1].token_type,
        TokenType::Identifier(String::from("x"))
    );
}

#[test]
fn unterminated_string_reports_and_still_ends_with_eof() {
    let (tokens, lexer) = scan("\"unterminated");
    assert!(lexer.had_error());
    assert!(!lexer.had_runtime_error());
    assert_eq!(
        lexer.diagnostics().as_slice(),
        &[String::from("[line 1] Unterminated string.")]
    );
    assert_eq!(tokens.len(), 1);
    assert_eq!(tokens[0].token_type, TokenType::Eof);
}

#[test]
fn unexpected_character_reports_and_scan_continues() {
    let (tokens, lexer) = scan("@");
    assert!(lexer.had_error());
    assert_eq!(
        lexer.diagnostics().as_slice(),
        &[String::from("[line 1] Error: Unexpected character.")]
    );
    assert_eq!(tokens.len(), 1);
    assert_eq!(tokens[0].token_type, TokenType::Eof);
}

#[test]
fn errors_do_not_stop_the_scan() {
    let (tokens, lexer) = scan("@+#");
    assert!(lexer.had_error());
    assert_eq!(lexer.diagnostics().len(), 2);
    assert_eq!(tokens.len(), 2);
    assert_eq!(tokens[0].token_type, TokenType::Plus);
    assert_eq!(tokens[1].token_type, TokenType::Eof);
}

#[test]
fn whitespace_and_comments_scan_to_eof_alone() {
    let (tokens, lexer) = scan("  \t\r\n// a comment\n   // another");
    assert_eq!(tokens.len(), 1);
    assert_eq!(tokens[0].token_type, TokenType::Eof);
    assert_eq!(tokens[0].line, 3);
    assert!(!lexer.had_error());
}

#[test]
fn comment_runs_to_end_of_line_only() {
    let (tokens, _) = scan("// hi\n+foo");
    assert_eq!(tokens.len(), 3);
    assert_eq!(tokens[0].token_type, TokenType::Plus);
    assert_eq!(tokens[0].line, 2);
    assert_eq!(
        tokens[1].token_type,
        TokenType::Identifier(String::from("foo"))
    );
    assert_eq!(tokens[1].line, 2);
}

#[test]
fn slash_alone_is_division() {
    let (tokens, _) = scan("8/2");
    assert_eq!(tokens[0].token_type, TokenType::Number(String::from("8")));
    assert_eq!(tokens[1].token_type, TokenType::Slash);
    assert_eq!(tokens[2].token_type, TokenType::Number(String::from("2")));
}

#[test]
fn one_and_two_character_operators() {
    let (tokens, _) = scan("! != = == < <= > >=");
    let expected = vec![
        TokenType::Bang,
        TokenType::BangEqual,
        TokenType::Equal,
        TokenType::EqualEqual,
        TokenType::Less,
        TokenType::LessEqual,
        TokenType::Greater,
        TokenType::GreaterEqual,
        TokenType::Eof,
    ];
    assert_eq!(kinds(&tokens), expected.iter().collect::<Vec<_>>());
    assert_eq!(tokens[1].lexeme, "!=");
    assert_eq!(tokens[3].lexeme, "==");
}

#[test]
fn punctuation_tokens() {
    let (tokens, _) = scan("(){},.-;*");
    let expected = vec![
        TokenType::LeftParen,
        TokenType::RightParen,
        TokenType::LeftBrace,
        TokenType::RightBrace,
        TokenType::Comma,
        TokenType::Dot,
        TokenType::Minus,
        TokenType::Semicolon,
        TokenType::Star,
        TokenType::Eof,
    ];
    assert_eq!(kinds(&tokens), expected.iter().collect::<Vec<_>>());
}

#[test]
fn number_needs_digit_after_point() {
    let (tokens, _) = scan("7.");
    assert_eq!(tokens[0].token_type, TokenType::Number(String::from("7")));
    assert_eq!(tokens[1].token_type, TokenType::Dot);
    assert_eq!(tokens[2].token_type, TokenType::Eof);
}

#[test]
fn number_consumes_one_fraction_only() {
    let (tokens, _) = scan("123.456.789");
    assert_eq!(
        tokens[0].token_type,
        TokenType::Number(String::from("123.456"))
    );
    assert_eq!(tokens[1].token_type, TokenType::Dot);
    assert_eq!(
        tokens[2].token_type,
        TokenType::Number(String::from("789"))
    );
}

#[test]
fn number_lexeme_keeps_first_digit() {
    let (tokens, _) = scan("42");
    assert_eq!(tokens[0].token_type, TokenType::Number(String::from("42")));
    assert_eq!(tokens[0].lexeme, "42");
}

#[test]
fn token_lines_count_preceding_newlines() {
    let (tokens, _) = scan("a\nb\n\ncde");
    assert_eq!(tokens[0].line, 1);
    assert_eq!(tokens[1].line, 2);
    assert_eq!(tokens[2].line, 4);
    assert_eq!(tokens[3].token_type, TokenType::Eof);
    assert_eq!(tokens[3].line, 4);
}

#[test]
fn diagnostic_line_numbers_render_in_decimal() {
    let source = format!("{}@", "\n".repeat(11));
    let mut lexer = Lexer::new(source);
    let _ = lexer.scan_tokens();
    assert_eq!(
        lexer.diagnostics().as_slice(),
        &[String::from("[line 12] Error: Unexpected character.")]
    );
}

#[test]
fn non_literal_tokens_rescan_to_same_kind() {
    let (tokens, _) = scan("(){},.-+;*/! != = == < <= > >= if while 3 \"s\" name");
    for token in &tokens {
        let literal = matches!(
            token.token_type,
            TokenType::Number(_) | TokenType::StrLit(_) | TokenType::Identifier(_)
        );
        if literal {
            continue;
        }
        let (again, _) = scan(&token.lexeme);
        assert!(!again.is_empty());
        assert_eq!(again[0].token_type, token.token_type);
    }
}
