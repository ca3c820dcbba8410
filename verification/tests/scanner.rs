use rlox::scanner::{is_alpha, is_digit, Scanner};
use rlox::token::{Token, TokenType};

fn scan_all(source: &str) -> Vec<Token> {
    let mut scanner = Scanner::default();
    scanner.init(source.to_string());
    let mut tokens = Vec::new();
    loop {
        let token = scanner.scan_token();
        tokens.push(token);
        if token.ty == TokenType::eof {
            break;
        }
        assert!(tokens.len() <= source.len() + 1);
    }
    tokens
}

fn types(source: &str) -> Vec<TokenType> {
    scan_all(source).iter().map(|t| t.ty).collect()
}

fn lexeme<'a>(source: &'a str, token: &Token) -> &'a str {
    &source[token.start..token.start + token.length]
}

#[test]
fn declaration_yields_its_tokens_in_order() {
    let source = "var x = 12.5;\n";
    let tokens = scan_all(source);
    let found: Vec<TokenType> = tokens.iter().map(|t| t.ty).collect();
    assert_eq!(
        found,
        vec![
            TokenType::var,
            TokenType::identifier,
            TokenType::equal,
            TokenType::number,
            TokenType::semicolon,
            TokenType::eof,
        ]
    );
    assert_eq!(lexeme(source, &tokens[0]), "var");
    assert_eq!(lexeme(source, &tokens[1]), "x");
    assert_eq!(lexeme(source, &tokens[2]), "=");
    assert_eq!(lexeme(source, &tokens[3]), "12.5");
    assert_eq!(lexeme(source, &tokens[4]), ";");
    for token in &tokens[..5] {
        assert_eq!(token.line, 0);
    }
    assert_eq!(tokens[5].line, 1);
    assert_eq!(tokens[5].start, source.len());
    assert_eq!(tokens[5].length, 0);
}

#[test]
fn unterminated_string_is_one_error_token() {
    let mut scanner = Scanner::default();
    scanner.init("\"abc".to_string());
    let first = scanner.scan_token();
    assert_eq!(first, Token { ty: TokenType::error, start: 0, length: 0, line: 0 });
    let second = scanner.scan_token();
    assert_eq!(second, Token { ty: TokenType::eof, start: 4, length: 0, line: 0 });
    let third = scanner.scan_token();
    assert_eq!(third, second);
}

#[test]
fn comment_is_skipped_and_line_counted() {
    let source = "// comment\n1";
    let tokens = scan_all(source);
    assert_eq!(tokens.len(), 2);
    assert_eq!(tokens[0], Token { ty: TokenType::number, start: 11, length: 1, line: 1 });
    assert_eq!(lexeme(source, &tokens[0]), "1");
    assert_eq!(tokens[1], Token { ty: TokenType::eof, start: 12, length: 0, line: 1 });
}

#[test]
fn empty_source_is_eof_again_and_again() {
    let mut scanner = Scanner::default();
    let eof = Token { ty: TokenType::eof, start: 0, length: 0, line: 0 };
    assert_eq!(scanner.scan_token(), eof);
    scanner.init(String::new());
    assert_eq!(scanner.scan_token(), eof);
    assert_eq!(scanner.scan_token(), eof);
}

#[test]
fn init_discards_the_state_before() {
    let mut scanner = Scanner::default();
    scanner.init("\n\n\nfoo bar".to_string());
    assert_eq!(
        scanner.scan_token(),
        Token { ty: TokenType::identifier, start: 3, length: 3, line: 3 }
    );
    scanner.init("+".to_string());
    assert_eq!(scanner.scan_token(), Token { ty: TokenType::plus, start: 0, length: 1, line: 0 });
    assert_eq!(scanner.bytes(), b"+");
}

#[test]
fn single_character_tokens() {
    assert_eq!(
        types("(){},.-+;/*"),
        vec![
            TokenType::left_paren,
            TokenType::right_paren,
            TokenType::left_brace,
            TokenType::right_brace,
            TokenType::comma,
            TokenType::dot,
            TokenType::minus,
            TokenType::plus,
            TokenType::semicolon,
            TokenType::slash,
            TokenType::star,
            TokenType::eof,
        ]
    );
}

#[test]
fn operators_prefer_the_two_character_form() {
    assert_eq!(
        types("! != = == < <= > >="),
        vec![
            TokenType::bang,
            TokenType::bang_equal,
            TokenType::equal,
            TokenType::equal_equal,
            TokenType::less,
            TokenType::less_equal,
            TokenType::greater,
            TokenType::greater_equal,
            TokenType::eof,
        ]
    );
    let source = "===!<=>";
    let tokens = scan_all(source);
    let texts: Vec<&str> = tokens.iter().map(|t| lexeme(source, t)).collect();
    assert_eq!(texts, vec!["==", "=", "!", "<=", ">", ""]);
    assert_eq!(
        types(source),
        vec![
            TokenType::equal_equal,
            TokenType::equal,
            TokenType::bang,
            TokenType::less_equal,
            TokenType::greater,
            TokenType::eof,
        ]
    );
}

#[test]
fn every_keyword_is_recognised() {
    let source = "and class else false for fun if nil or print return super this true var while";
    assert_eq!(
        types(source),
        vec![
            TokenType::and,
            TokenType::class,
            TokenType::else_,
            TokenType::false_,
            TokenType::for_,
            TokenType::fun,
            TokenType::if_,
            TokenType::nil,
            TokenType::or,
            TokenType::print,
            TokenType::return_,
            TokenType::super_,
            TokenType::this,
            TokenType::true_,
            TokenType::var,
            TokenType::while_,
            TokenType::eof,
        ]
    );
}

#[test]
fn near_keywords_are_identifiers() {
    let source = "And classy _else fals for1 fu i nil_ orr Print returns supe thi tru va whil e _ a1_b2";
    let tokens = scan_all(source);
    assert_eq!(tokens.len(), 20);
    for token in &tokens[..19] {
        assert_eq!(token.ty, TokenType::identifier);
    }
    assert_eq!(lexeme(source, &tokens[18]), "a1_b2");
    assert_eq!(lexeme(source, &tokens[17]), "_");
}

#[test]
fn numbers_take_one_fraction() {
    let source = "12 12. .5 1.2.3 007 3.14159x";
    let tokens = scan_all(source);
    let found: Vec<(TokenType, &str)> =
        tokens.iter().map(|t| (t.ty, lexeme(source, t))).collect();
    assert_eq!(
        found,
        vec![
            (TokenType::number, "12"),
            (TokenType::number, "12"),
            (TokenType::dot, "."),
            (TokenType::dot, "."),
            (TokenType::number, "5"),
            (TokenType::number, "1.2"),
            (TokenType::dot, "."),
            (TokenType::number, "3"),
            (TokenType::number, "007"),
            (TokenType::number, "3.14159"),
            (TokenType::identifier, "x"),
            (TokenType::eof, ""),
        ]
    );
}

#[test]
fn strings_keep_their_quotes_and_count_their_lines() {
    let source = "\"one\ntwo\" x \"\"";
    let tokens = scan_all(source);
    assert_eq!(
        tokens,
        vec![
            Token { ty: TokenType::string, start: 0, length: 9, line: 1 },
            Token { ty: TokenType::identifier, start: 10, length: 1, line: 1 },
            Token { ty: TokenType::string, start: 12, length: 2, line: 1 },
            Token { ty: TokenType::eof, start: 14, length: 0, line: 1 },
        ]
    );
    assert_eq!(lexeme(source, &tokens[0]), "\"one\ntwo\"");
}

#[test]
fn unterminated_string_counts_its_lines() {
    let mut scanner = Scanner::default();
    scanner.init("x \"a\nb\nc".to_string());
    assert_eq!(scanner.scan_token().ty, TokenType::identifier);
    assert_eq!(
        scanner.scan_token(),
        Token { ty: TokenType::error, start: 0, length: 0, line: 2 }
    );
    assert_eq!(scanner.scan_token(), Token { ty: TokenType::eof, start: 8, length: 0, line: 2 });
}

#[test]
fn unrecognised_bytes_are_errors_of_one_byte() {
    let source = "#@ a\n$";
    let tokens = scan_all(source);
    assert_eq!(
        tokens,
        vec![
            Token { ty: TokenType::error, start: 0, length: 0, line: 0 },
            Token { ty: TokenType::error, start: 0, length: 0, line: 0 },
            Token { ty: TokenType::identifier, start: 3, length: 1, line: 0 },
            Token { ty: TokenType::error, start: 0, length: 0, line: 1 },
            Token { ty: TokenType::eof, start: 6, length: 0, line: 1 },
        ]
    );
}

#[test]
fn bytes_outside_ascii_are_errors_byte_by_byte() {
    let source = "é1";
    assert_eq!(source.len(), 3);
    assert_eq!(
        types(source),
        vec![TokenType::error, TokenType::error, TokenType::number, TokenType::eof]
    );
    let quoted = "\"é\"";
    assert_eq!(
        scan_all(quoted)[0],
        Token { ty: TokenType::string, start: 0, length: 4, line: 0 }
    );
}

#[test]
fn a_zero_byte_is_not_the_end() {
    let source = "\"a\0b\" \0 1";
    let tokens = scan_all(source);
    assert_eq!(
        tokens,
        vec![
            Token { ty: TokenType::string, start: 0, length: 5, line: 0 },
            Token { ty: TokenType::error, start: 0, length: 0, line: 0 },
            Token { ty: TokenType::number, start: 8, length: 1, line: 0 },
            Token { ty: TokenType::eof, start: 9, length: 0, line: 0 },
        ]
    );
    assert_eq!(types("// a\0b\n+"), vec![TokenType::plus, TokenType::eof]);
}

#[test]
fn blanks_and_comments_between_tokens() {
    let source = " \t\r\n// first\n  // second\r\n/ // third";
    let tokens = scan_all(source);
    assert_eq!(
        tokens,
        vec![
            Token { ty: TokenType::slash, start: 26, length: 1, line: 3 },
            Token { ty: TokenType::eof, start: 36, length: 0, line: 3 },
        ]
    );
    assert_eq!(types("//"), vec![TokenType::eof]);
    assert_eq!(types("/"), vec![TokenType::slash, TokenType::eof]);
    assert_eq!(types("/ /"), vec![TokenType::slash, TokenType::slash, TokenType::eof]);
    assert_eq!(types("1//2\n3"), vec![TokenType::number, TokenType::number, TokenType::eof]);
}

#[test]
fn line_is_the_count_of_line_feeds_before_the_end_of_the_token() {
    let source = "a\nb\n\nc";
    let lines: Vec<i32> = scan_all(source).iter().map(|t| t.line).collect();
    assert_eq!(lines, vec![0, 1, 3, 3]);
    let trailing = "a\n\n";
    let lines: Vec<i32> = scan_all(trailing).iter().map(|t| t.line).collect();
    assert_eq!(lines, vec![0, 2]);
}

#[test]
fn scanning_moves_forward_until_eof() {
    let source = "fun add(a, b) { return a + b; } // done\nprint add(1, 2.5) >= 3;";
    let tokens = scan_all(source);
    assert_eq!(tokens.len(), 25);
    let mut last_end = 0;
    for token in &tokens {
        assert!(token.start >= last_end);
        assert!(token.start + token.length <= source.len());
        last_end = token.start + token.length;
    }
    assert_eq!(tokens[24].ty, TokenType::eof);
    assert_eq!(tokens[24].start, source.len());
}

#[test]
fn digits_and_letters() {
    for ch in 0u8..=255 {
        assert_eq!(is_digit(ch), ch.is_ascii_digit());
        assert_eq!(is_alpha(ch), ch.is_ascii_alphabetic() || ch == b'_');
    }
}

#[test]
fn categories_are_numbered_in_order() {
    assert_eq!(TokenType::left_paren.code(), 0);
    assert_eq!(TokenType::star.code(), 10);
    assert_eq!(TokenType::bang.code(), 11);
    assert_eq!(TokenType::less_equal.code(), 18);
    assert_eq!(TokenType::identifier.code(), 19);
    assert_eq!(TokenType::string.code(), 20);
    assert_eq!(TokenType::number.code(), 21);
    assert_eq!(TokenType::and.code(), 22);
    assert_eq!(TokenType::while_.code(), 37);
    assert_eq!(TokenType::error.code(), 38);
    assert_eq!(TokenType::eof.code(), 39);
}

#[test]
fn sources_with_countable_lines_are_accepted() {
    assert!(Scanner::accepts(""));
    assert!(Scanner::accepts("a\nb\n\n"));
    assert!(Scanner::accepts(&"\n".repeat(100_000)));
}
