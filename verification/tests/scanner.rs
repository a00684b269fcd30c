use jlox::object::Object;
use jlox::scan::{ScanError, Scanner};
use jlox::token::{Token, TokenType};
use jlox::{JLox, LoxError};

fn scan_ok(src: &str) -> Vec<Token> {
    let mut scanner = Scanner::new(src.as_bytes().to_vec());
    scanner.scan().expect("scan should succeed")
}

fn scan_err(src: &str) -> ScanError {
    let mut scanner = Scanner::new(src.as_bytes().to_vec());
    scanner.scan().expect_err("scan should fail")
}

fn kinds(tokens: &[Token]) -> Vec<TokenType> {
    tokens.iter().map(|t| t.kind.clone()).collect()
}

#[test]
fn empty_input_scans_to_no_tokens() {
    assert!(scan_ok("").is_empty());
}

#[test]
fn whitespace_and_comments_only_scan_to_no_tokens() {
    assert!(scan_ok(" \t\r\n// a comment\n   // another\n").is_empty());
}

#[test]
fn comment_without_trailing_newline_ends_cleanly() {
    assert!(scan_ok("// last line has no newline").is_empty());
}

#[test]
fn two_char_operators_use_maximal_munch() {
    let tokens = scan_ok("!= == <= >=");
    assert_eq!(
        kinds(&tokens),
        vec![
            TokenType::BangEqual,
            TokenType::EqualEqual,
            TokenType::LessEqual,
            TokenType::GreaterEqual,
        ]
    );
    for t in &tokens {
        assert_eq!(t.lexeme.len(), 2);
        assert!(t.kind != TokenType::Equal);
    }
}

#[test]
fn one_char_operators_stand_alone() {
    let tokens = scan_ok("! = < > !x");
    assert_eq!(
        kinds(&tokens),
        vec![
            TokenType::Bang,
            TokenType::Equal,
            TokenType::Less,
            TokenType::Greater,
            TokenType::Bang,
            TokenType::Identifier(b"x".to_vec()),
        ]
    );
}

#[test]
fn punctuation_tokens() {
    let tokens = scan_ok("(){},.-+;*/");
    assert_eq!(
        kinds(&tokens),
        vec![
            TokenType::LeftParen,
            TokenType::RightParen,
            TokenType::LeftBrace,
            TokenType::RightBrace,
            TokenType::Comma,
            TokenType::Dot,
            TokenType::Minus,
            TokenType::Plus,
            TokenType::Semicolon,
            TokenType::Star,
            TokenType::Slash,
        ]
    );
}

#[test]
fn string_literal_value_is_text_between_quotes() {
    let tokens = scan_ok("\"abc\"");
    assert_eq!(tokens.len(), 1);
    assert_eq!(tokens[0].kind, TokenType::String);
    assert_eq!(tokens[0].object, Object::Text(b"abc".to_vec()));
    assert_eq!(tokens[0].lexeme, b"\"abc\"".to_vec());
}

#[test]
fn empty_string_literal() {
    let tokens = scan_ok("\"\"");
    assert_eq!(tokens.len(), 1);
    assert_eq!(tokens[0].object, Object::Text(Vec::new()));
    assert_eq!(tokens[0].lexeme, b"\"\"".to_vec());
}

#[test]
fn number_literal_matches_float_parse() {
    let tokens = scan_ok("123.45");
    assert_eq!(tokens.len(), 1);
    assert_eq!(tokens[0].kind, TokenType::Number);
    assert_eq!(tokens[0].lexeme, b"123.45".to_vec());
    match &tokens[0].object {
        Object::Number(digits) => {
            assert_eq!(digits, &b"123.45".to_vec());
            let from_literal: f64 = String::from_utf8(digits.clone()).unwrap().parse().unwrap();
            let from_lexeme: f64 =
                String::from_utf8(tokens[0].lexeme.clone()).unwrap().parse().unwrap();
            assert_eq!(from_literal, 123.45);
            assert_eq!(from_lexeme, from_literal);
        }
        other => panic!("expected a number literal, got {:?}", other),
    }
}

#[test]
fn integer_number_literal() {
    let tokens = scan_ok("42");
    assert_eq!(tokens.len(), 1);
    assert_eq!(tokens[0].object, Object::Number(b"42".to_vec()));
    let v: f64 = String::from_utf8(tokens[0].lexeme.clone()).unwrap().parse().unwrap();
    assert_eq!(v, 42.0);
}

#[test]
fn trailing_dot_is_not_part_of_the_number() {
    let tokens = scan_ok("123.");
    assert_eq!(
        kinds(&tokens),
        vec![TokenType::Number, TokenType::Dot]
    );
    assert_eq!(tokens[0].lexeme, b"123".to_vec());
    assert_eq!(tokens[1].lexeme, b".".to_vec());
}

#[test]
fn method_call_dot_after_number_stays_separate() {
    let tokens = scan_ok("1.abs");
    assert_eq!(
        kinds(&tokens),
        vec![
            TokenType::Number,
            TokenType::Dot,
            TokenType::Identifier(b"abs".to_vec()),
        ]
    );
}

#[test]
fn reserved_word_exact_match_wins() {
    let tokens = scan_ok("while");
    assert_eq!(kinds(&tokens), vec![TokenType::While]);
    assert_eq!(tokens[0].object, Object::Absent);
}

#[test]
fn reserved_word_prefix_is_an_identifier() {
    let tokens = scan_ok("whilex printer");
    assert_eq!(
        kinds(&tokens),
        vec![
            TokenType::Identifier(b"whilex".to_vec()),
            TokenType::Identifier(b"printer".to_vec()),
        ]
    );
}

#[test]
fn all_reserved_words_are_recognized() {
    let tokens = scan_ok(
        "and class else false for fun if nil or print return super this true var while",
    );
    assert_eq!(
        kinds(&tokens),
        vec![
            TokenType::And,
            TokenType::Class,
            TokenType::Else,
            TokenType::False,
            TokenType::For,
            TokenType::Fun,
            TokenType::If,
            TokenType::Nil,
            TokenType::Or,
            TokenType::Print,
            TokenType::Return,
            TokenType::Super,
            TokenType::This,
            TokenType::True,
            TokenType::Var,
            TokenType::While,
        ]
    );
}

#[test]
fn unterminated_string_reports_opening_quote_position() {
    match scan_err("\"abc") {
        ScanError::UnterminatedString(line, col) => {
            assert_eq!(line, 0);
            assert_eq!(col, 0);
        }
        other => panic!("expected an unterminated string error, got {:?}", other),
    }
}

#[test]
fn unterminated_string_position_counts_from_its_own_quote() {
    match scan_err("ab \"cd\nef") {
        ScanError::UnterminatedString(line, col) => {
            assert_eq!(line, 0);
            assert_eq!(col, 3);
        }
        other => panic!("expected an unterminated string error, got {:?}", other),
    }
}

#[test]
fn multiline_string_advances_line_and_baseline() {
    let tokens = scan_ok("\"a\nb\" x");
    assert_eq!(tokens.len(), 2);
    let s = &tokens[0];
    assert_eq!(s.kind, TokenType::String);
    assert_eq!(s.object, Object::Text(b"a\nb".to_vec()));
    assert_eq!(s.line, 0);
    assert_eq!(s.col_start, 0);
    assert_eq!((s.start, s.end), (0, 5));
    assert_eq!(s.col_end, 2);
    let x = &tokens[1];
    assert_eq!(x.kind, TokenType::Identifier(b"x".to_vec()));
    assert_eq!(x.line, 1);
    assert_eq!(x.col_start, 3);
    assert_eq!((x.start, x.end), (6, 7));
}

#[test]
fn round_trip_lexeme_equals_source_slice() {
    let src = "var x = 12.5; // note\nprint \"hi\";";
    let tokens = scan_ok(src);
    assert!(!tokens.is_empty());
    for t in &tokens {
        assert_eq!(&src.as_bytes()[t.start..t.end], t.lexeme.as_slice());
    }
}

#[test]
fn rescanning_the_same_source_is_identical() {
    let src = "fun add(a, b) { return a + b; } // twice\n\"s\" 1.5";
    let first = scan_ok(src);
    let second = scan_ok(src);
    assert_eq!(first, second);
}

#[test]
fn invalid_token_error_carries_byte_and_position() {
    match scan_err("@") {
        ScanError::InvalidToken(byte, line, col) => {
            assert_eq!(byte, b'@');
            assert_eq!(line, 0);
            assert_eq!(col, 1);
        }
        other => panic!("expected an invalid token error, got {:?}", other),
    }
}

#[test]
fn invalid_token_after_newline_reports_its_line() {
    match scan_err("ok\n  #") {
        ScanError::InvalidToken(byte, line, col) => {
            assert_eq!(byte, b'#');
            assert_eq!(line, 1);
            assert_eq!(col, 3);
        }
        other => panic!("expected an invalid token error, got {:?}", other),
    }
}

#[test]
fn error_discards_tokens_scanned_before_it() {
    let mut scanner = Scanner::new(b"a b c $".to_vec());
    assert!(scanner.scan().is_err());
}

#[test]
fn positions_of_simple_tokens() {
    let tokens = scan_ok("()\n{}");
    let expect = [
        (TokenType::LeftParen, 0usize, 0usize, 1usize, 0usize, 1usize),
        (TokenType::RightParen, 0, 1, 2, 1, 2),
        (TokenType::LeftBrace, 1, 3, 4, 0, 1),
        (TokenType::RightBrace, 1, 4, 5, 1, 2),
    ];
    assert_eq!(tokens.len(), expect.len());
    for (t, (kind, line, start, end, col_start, col_end)) in tokens.iter().zip(expect.iter()) {
        assert_eq!(&t.kind, kind);
        assert_eq!(t.line, *line);
        assert_eq!(t.start, *start);
        assert_eq!(t.end, *end);
        assert_eq!(t.col_start, *col_start);
        assert_eq!(t.col_end, *col_end);
    }
}

#[test]
fn comment_then_token_on_next_line() {
    let tokens = scan_ok("// c\n+");
    assert_eq!(tokens.len(), 1);
    assert_eq!(tokens[0].kind, TokenType::Plus);
    assert_eq!(tokens[0].line, 1);
    assert_eq!(tokens[0].col_start, 0);
}

#[test]
fn carriage_return_is_plain_whitespace() {
    let tokens = scan_ok("a\r\nb");
    assert_eq!(tokens.len(), 2);
    assert_eq!(tokens[0].line, 0);
    assert_eq!(tokens[1].line, 1);
    assert_eq!(tokens[1].col_start, 0);
}

#[test]
fn handle_source_returns_last_literal() {
    let mut interpreter = JLox::new();
    let out = interpreter.handle_source(&b"1 2 3".to_vec()).unwrap();
    assert_eq!(out, Object::Number(b"3".to_vec()));
}

#[test]
fn handle_source_of_trivia_is_absent() {
    let mut interpreter = JLox::new();
    let out = interpreter.handle_source(&b"// nothing here\n".to_vec()).unwrap();
    assert!(out.is_none());
}

#[test]
fn handle_source_propagates_scan_errors() {
    let mut interpreter = JLox::new();
    match interpreter.handle_source(&b"\"open".to_vec()) {
        Err(LoxError::Scan(ScanError::UnterminatedString(line, col))) => {
            assert_eq!((line, col), (0, 0));
        }
        other => panic!("expected a scan error, got {:?}", other),
    }
}

#[test]
fn interpreter_shell_starts_clean_and_resets() {
    let mut interpreter = JLox::new();
    assert!(!interpreter.had_error);
    interpreter.had_error = true;
    interpreter.reset_error();
    assert!(!interpreter.had_error);
}

#[test]
fn object_reports_presence() {
    assert!(Object::new().is_none());
    assert!(!Object::new().is_some());
    assert!(Object::Text(b"s".to_vec()).is_some());
    assert!(Object::Number(b"1".to_vec()).is_some());
}

#[test]
fn token_surrenders_its_object() {
    let tokens = scan_ok("\"payload\"");
    let object = tokens.into_iter().next().unwrap().into_object();
    assert_eq!(object, Object::Text(b"payload".to_vec()));
}

#[test]
fn string_spanning_lines_keeps_following_column_accurate() {
    let tokens = scan_ok("\"a\nbc\" + 1");
    assert_eq!(tokens.len(), 3);
    assert_eq!(tokens[1].kind, TokenType::Plus);
    assert_eq!(tokens[1].line, 1);
    assert_eq!(tokens[1].col_start, 4);
    assert_eq!(tokens[2].kind, TokenType::Number);
    assert_eq!(tokens[2].col_start, 6);
}

#[test]
fn identifiers_may_contain_digits_after_a_letter() {
    let tokens = scan_ok("a1 b2c3");
    assert_eq!(
        kinds(&tokens),
        vec![
            TokenType::Identifier(b"a1".to_vec()),
            TokenType::Identifier(b"b2c3".to_vec()),
        ]
    );
}

#[test]
fn slash_comment_needs_two_slashes() {
    let tokens = scan_ok("1 / 2 // half\n");
    assert_eq!(
        kinds(&tokens),
        vec![TokenType::Number, TokenType::Slash, TokenType::Number]
    );
}

#[test]
fn triple_equal_scans_as_double_then_single() {
    let tokens = scan_ok("===");
    assert_eq!(kinds(&tokens), vec![TokenType::EqualEqual, TokenType::Equal]);
    assert_eq!((tokens[0].start, tokens[0].end), (0, 2));
    assert_eq!((tokens[1].start, tokens[1].end), (2, 3));
}

#[test]
fn bang_at_end_of_input_is_one_character() {
    let tokens = scan_ok("!");
    assert_eq!(kinds(&tokens), vec![TokenType::Bang]);
}

#[test]
fn two_numbers_around_a_dot_keep_their_spans() {
    let tokens = scan_ok("1.2.3");
    assert_eq!(
        kinds(&tokens),
        vec![TokenType::Number, TokenType::Dot, TokenType::Number]
    );
    assert_eq!(tokens[0].lexeme, b"1.2".to_vec());
    assert_eq!(tokens[2].lexeme, b"3".to_vec());
}
