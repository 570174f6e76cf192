use lox_scanner::scanner::Scanner;
use lox_scanner::token::LexError;
use lox_scanner::token::Token;
use lox_scanner::token::TokenKind;

fn scan(source: &str) -> (Vec<Token>, Vec<LexError>) {
    let mut scanner = Scanner::new(source.to_string());
    let tokens = scanner.scan_file().clone();
    let errors = scanner.errors().clone();
    (tokens, errors)
}

fn kinds(source: &str) -> Vec<TokenKind> {
    let (tokens, errors) = scan(source);
    assert!(errors.is_empty(), "unexpected lexical errors for {:?}", source);
    tokens.into_iter().map(|t| t.token_type).collect()
}

fn single_operator(source: &str, expected: TokenKind) {
    let (tokens, errors) = scan(source);
    assert!(errors.is_empty());
    assert_eq!(tokens.len(), 2, "want one operator token plus end-of-input");
    assert_eq!(tokens[0].token_type, expected);
    assert_eq!(tokens[0].lexeme, source);
    assert_eq!(tokens[0].line, 0);
    assert_eq!(tokens[1].token_type, TokenKind::Eof);
    assert_eq!(tokens[1].lexeme, "");
}

#[test]
fn left_paren_token() {
    single_operator("(", TokenKind::LeftParen);
}

#[test]
fn right_paren_token() {
    single_operator(")", TokenKind::RightParen);
}

#[test]
fn left_brace_token() {
    single_operator("{", TokenKind::LeftBrace);
}

#[test]
fn right_brace_token() {
    single_operator("}", TokenKind::RightBrace);
}

#[test]
fn comma_token() {
    single_operator(",", TokenKind::Comma);
}

#[test]
fn dot_token() {
    single_operator(".", TokenKind::Dot);
}

#[test]
fn minus_token() {
    single_operator("-", TokenKind::Minus);
}

#[test]
fn plus_token() {
    single_operator("+", TokenKind::Plus);
}

#[test]
fn semicolon_token() {
    single_operator(";", TokenKind::Semicolon);
}

#[test]
fn star_token() {
    single_operator("*", TokenKind::Star);
}

#[test]
fn slash_token_when_not_a_comment() {
    single_operator("/", TokenKind::Slash);
}

#[test]
fn bang_equal_is_one_token() {
    assert_eq!(kinds("!="), vec![TokenKind::BangEqual, TokenKind::Eof]);
}

#[test]
fn bang_alone_at_end_of_input() {
    assert_eq!(kinds("!"), vec![TokenKind::Bang, TokenKind::Eof]);
}

#[test]
fn equal_equal_vs_equal() {
    assert_eq!(kinds("=="), vec![TokenKind::EqualEqual, TokenKind::Eof]);
    assert_eq!(kinds("="), vec![TokenKind::Equal, TokenKind::Eof]);
}

#[test]
fn less_equal_vs_less() {
    assert_eq!(kinds("<="), vec![TokenKind::LessEqual, TokenKind::Eof]);
    assert_eq!(kinds("<"), vec![TokenKind::Less, TokenKind::Eof]);
}

#[test]
fn greater_equal_vs_greater() {
    assert_eq!(kinds(">="), vec![TokenKind::GreaterEqual, TokenKind::Eof]);
    assert_eq!(kinds(">"), vec![TokenKind::Greater, TokenKind::Eof]);
}

#[test]
fn two_char_operator_consumes_both_characters() {
    // If the `=` were not consumed, a spurious Equal token would follow.
    assert_eq!(
        kinds("!=="),
        vec![TokenKind::BangEqual, TokenKind::Equal, TokenKind::Eof]
    );
}

#[test]
fn comment_produces_no_token() {
    let (tokens, errors) = scan("// anything\n1");
    assert!(errors.is_empty());
    assert_eq!(tokens.len(), 2);
    assert_eq!(
        tokens[0].token_type,
        TokenKind::Number { text: "1".to_string() }
    );
    assert_eq!(tokens[0].line, 1);
    assert_eq!(tokens[1].token_type, TokenKind::Eof);
}

#[test]
fn comment_at_end_of_input_without_newline() {
    let (tokens, errors) = scan("// just a comment");
    assert!(errors.is_empty());
    assert_eq!(tokens.len(), 1);
    assert_eq!(tokens[0].token_type, TokenKind::Eof);
}

#[test]
fn string_payload_and_lexeme() {
    let (tokens, errors) = scan("\"hello\"");
    assert!(errors.is_empty());
    assert_eq!(tokens.len(), 2);
    assert_eq!(
        tokens[0].token_type,
        TokenKind::StringT { value: "hello".to_string() }
    );
    assert_eq!(tokens[0].lexeme, "\"hello\"");
    assert_eq!(tokens[1].token_type, TokenKind::Eof);
}

#[test]
fn string_with_newlines_counts_lines() {
    let (tokens, errors) = scan("\"a\nb\"");
    assert!(errors.is_empty());
    assert_eq!(tokens.len(), 2);
    assert_eq!(
        tokens[0].token_type,
        TokenKind::StringT { value: "a\nb".to_string() }
    );
    assert_eq!(tokens[0].line, 1);
}

#[test]
fn unterminated_string_is_an_error() {
    let mut scanner = Scanner::new("\"abc".to_string());
    let tokens = scanner.scan_file().clone();
    assert!(scanner.had_error());
    assert_eq!(scanner.errors().len(), 1);
    assert_eq!(scanner.errors()[0], LexError::UnterminatedString { line: 0 });
    // No token for the broken literal: only end-of-input remains.
    assert_eq!(tokens.len(), 1);
    assert_eq!(tokens[0].token_type, TokenKind::Eof);
}

#[test]
fn integer_number() {
    let (tokens, errors) = scan("123");
    assert!(errors.is_empty());
    assert_eq!(tokens.len(), 2);
    match &tokens[0].token_type {
        TokenKind::Number { text } => {
            assert_eq!(text, "123");
            assert_eq!(text.parse::<f64>().unwrap(), 123.0);
        }
        other => panic!("expected a number token, got {:?}", other),
    }
    assert_eq!(tokens[0].lexeme, "123");
}

#[test]
fn decimal_number() {
    let (tokens, errors) = scan("3.14");
    assert!(errors.is_empty());
    assert_eq!(tokens.len(), 2);
    match &tokens[0].token_type {
        TokenKind::Number { text } => {
            assert_eq!(text, "3.14");
            assert_eq!(text.parse::<f64>().unwrap(), 3.14);
        }
        other => panic!("expected a number token, got {:?}", other),
    }
}

#[test]
fn trailing_dot_is_not_absorbed() {
    let (tokens, errors) = scan("3.");
    assert!(errors.is_empty());
    assert_eq!(tokens.len(), 3);
    match &tokens[0].token_type {
        TokenKind::Number { text } => {
            assert_eq!(text, "3");
            assert_eq!(text.parse::<f64>().unwrap(), 3.0);
        }
        other => panic!("expected a number token, got {:?}", other),
    }
    assert_eq!(tokens[1].token_type, TokenKind::Dot);
    assert_eq!(tokens[2].token_type, TokenKind::Eof);
}

#[test]
fn keyword_token() {
    assert_eq!(kinds("while"), vec![TokenKind::While, TokenKind::Eof]);
}

#[test]
fn keyword_prefix_is_an_identifier() {
    assert_eq!(
        kinds("whilex"),
        vec![
            TokenKind::Identifier { name: "whilex".to_string() },
            TokenKind::Eof
        ]
    );
}

#[test]
fn all_keywords() {
    let expected = vec![
        TokenKind::And,
        TokenKind::Class,
        TokenKind::Else,
        TokenKind::False,
        TokenKind::For,
        TokenKind::Fun,
        TokenKind::If,
        TokenKind::Nil,
        TokenKind::Or,
        TokenKind::Print,
        TokenKind::Return,
        TokenKind::Super,
        TokenKind::This,
        TokenKind::True,
        TokenKind::Var,
        TokenKind::While,
        TokenKind::Eof,
    ];
    let source = "and class else false for fun if nil or print return super this true var while";
    assert_eq!(kinds(source), expected);
}

#[test]
fn underscore_identifier() {
    assert_eq!(
        kinds("_tmp1 a_b"),
        vec![
            TokenKind::Identifier { name: "_tmp1".to_string() },
            TokenKind::Identifier { name: "a_b".to_string() },
            TokenKind::Eof
        ]
    );
}

#[test]
fn line_tracking_before_a_token() {
    let (tokens, errors) = scan("\n\n\nfoo");
    assert!(errors.is_empty());
    assert_eq!(tokens.len(), 2);
    assert_eq!(
        tokens[0].token_type,
        TokenKind::Identifier { name: "foo".to_string() }
    );
    // Three newlines before the token raise its line by 3 from line 0.
    assert_eq!(tokens[0].line, 3);
    assert_eq!(tokens[1].line, 3);
}

#[test]
fn scanning_twice_yields_identical_sequences() {
    let source = "var x = 3.14; // init\nwhile (x <= 10) { print \"hi\"; }";
    let (tokens_a, errors_a) = scan(source);
    let (tokens_b, errors_b) = scan(source);
    assert_eq!(tokens_a, tokens_b);
    assert_eq!(errors_a, errors_b);
}

#[test]
fn empty_input_yields_only_end_of_input() {
    let (tokens, errors) = scan("");
    assert!(errors.is_empty());
    assert_eq!(tokens.len(), 1);
    assert_eq!(tokens[0].token_type, TokenKind::Eof);
    assert_eq!(tokens[0].lexeme, "");
    assert_eq!(tokens[0].line, 0);
}

#[test]
fn unexpected_character_is_an_error() {
    let mut scanner = Scanner::new("@#1".to_string());
    let tokens = scanner.scan_file().clone();
    assert!(scanner.had_error());
    assert_eq!(scanner.errors().len(), 2);
    assert_eq!(
        scanner.errors()[0],
        LexError::UnexpectedCharacter { ch: '@', line: 0 }
    );
    assert_eq!(
        scanner.errors()[1],
        LexError::UnexpectedCharacter { ch: '#', line: 0 }
    );
    // Scanning continues past the errors.
    assert_eq!(tokens.len(), 2);
    assert_eq!(
        tokens[0].token_type,
        TokenKind::Number { text: "1".to_string() }
    );
}

#[test]
fn whitespace_produces_no_token() {
    let (tokens, errors) = scan(" \t\r ");
    assert!(errors.is_empty());
    assert_eq!(tokens.len(), 1);
    assert_eq!(tokens[0].token_type, TokenKind::Eof);
}

#[test]
fn mixed_statement() {
    let (tokens, errors) = scan("var answer = 42;");
    assert!(errors.is_empty());
    let got: Vec<TokenKind> = tokens.into_iter().map(|t| t.token_type).collect();
    assert_eq!(
        got,
        vec![
            TokenKind::Var,
            TokenKind::Identifier { name: "answer".to_string() },
            TokenKind::Equal,
            TokenKind::Number { text: "42".to_string() },
            TokenKind::Semicolon,
            TokenKind::Eof,
        ]
    );
}

#[test]
fn eof_token_carries_final_line() {
    let (tokens, errors) = scan("a\nb\n");
    assert!(errors.is_empty());
    assert_eq!(tokens.len(), 3);
    assert_eq!(tokens[0].line, 0);
    assert_eq!(tokens[1].line, 1);
    assert_eq!(tokens[2].token_type, TokenKind::Eof);
    assert_eq!(tokens[2].line, 2);
}

#[test]
fn non_ascii_text_inside_a_string() {
    let source = "\"h\u{e9}llo\"";
    let (tokens, errors) = scan(source);
    assert!(errors.is_empty());
    assert_eq!(tokens.len(), 2);
    assert_eq!(
        tokens[0].token_type,
        TokenKind::StringT { value: "h\u{e9}llo".to_string() }
    );
    assert_eq!(tokens[0].lexeme, source);
}

#[test]
fn non_ascii_character_outside_a_string_is_unexpected() {
    let mut scanner = Scanner::new("\u{e9}+".to_string());
    let tokens = scanner.scan_file().clone();
    assert_eq!(
        scanner.errors().clone(),
        vec![LexError::UnexpectedCharacter { ch: '\u{e9}', line: 0 }]
    );
    assert_eq!(tokens[0].token_type, TokenKind::Plus);
}

#[test]
fn tokens_accessor_matches_scan_result() {
    let mut scanner = Scanner::new("1 + 2".to_string());
    let tokens = scanner.scan_file().clone();
    assert_eq!(tokens, scanner.tokens().clone());
    assert!(!scanner.had_error());
}
