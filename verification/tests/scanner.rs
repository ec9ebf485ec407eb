use lox::scanner::{
    find_keyword, get_keywords_hashmap, is_alpha, is_alphanumeric, is_digit, LiteralValue,
    ScanError, ScanErrorKind, Scanner, Token, TokenType,
};

fn scan(source: &str) -> Vec<Token> {
    Scanner::new(source).scan_tokens().unwrap()
}

fn kinds(source: &str) -> Vec<TokenType> {
    scan(source).iter().map(|token| token.token_type).collect()
}

#[test]
fn scan_one_char_tokens() {
    let source = "() {} ,. -+ ; / *";
    let mut scanner = Scanner::new(source);
    let tokens = scanner.scan_tokens().unwrap();

    assert_eq!(tokens.len(), 12);

    assert_eq!(tokens[0].token_type, TokenType::LeftParen);
    assert_eq!(tokens[1].token_type, TokenType::RightParen);
    assert_eq!(tokens[2].token_type, TokenType::LeftBrace);
    assert_eq!(tokens[3].token_type, TokenType::RightBrace);
    assert_eq!(tokens[4].token_type, TokenType::Comma);
    assert_eq!(tokens[5].token_type, TokenType::Dot);
    assert_eq!(tokens[6].token_type, TokenType::Minus);
    assert_eq!(tokens[7].token_type, TokenType::Plus);
    assert_eq!(tokens[8].token_type, TokenType::Semicolon);
    assert_eq!(tokens[9].token_type, TokenType::Slash);
    assert_eq!(tokens[10].token_type, TokenType::Star);
    assert_eq!(tokens[11].token_type, TokenType::Eof);
}

#[test]
fn scan_two_char_tokens() {
    let source = "! != = == > >= < <=";
    let mut scanner = Scanner::new(source);
    let tokens = scanner.scan_tokens().unwrap();

    assert_eq!(tokens.len(), 9);

    assert_eq!(tokens[0].token_type, TokenType::Bang);
    assert_eq!(tokens[1].token_type, TokenType::BangEqual);
    assert_eq!(tokens[2].token_type, TokenType::Equal);
    assert_eq!(tokens[3].token_type, TokenType::EqualEqual);
    assert_eq!(tokens[4].token_type, TokenType::Greater);
    assert_eq!(tokens[5].token_type, TokenType::GreaterEqual);
    assert_eq!(tokens[6].token_type, TokenType::Less);
    assert_eq!(tokens[7].token_type, TokenType::LessEqual);
    assert_eq!(tokens[8].token_type, TokenType::Eof);
}

#[test]
fn scan_string_literal() {
    let source = "\"Hello, world!\"";
    let mut scanner = Scanner::new(source);
    let tokens = scanner.scan_tokens().unwrap();

    assert_eq!(tokens.len(), 2);

    assert_eq!(tokens[0].token_type, TokenType::StringLit);
    match tokens[0].literal.as_ref().unwrap() {
        LiteralValue::StringValue(s) => assert_eq!(s, b"Hello, world!"),
        _ => panic!("Incorrect LiteralValue type"),
    }
    assert_eq!(tokens[1].token_type, TokenType::Eof);
}

#[test]
fn scan_unterminated_string_literal() {
    let source = "\"Hello, world!";
    let mut scanner = Scanner::new(source);

    match scanner.scan_tokens() {
        Err(_) => (),
        _ => panic!("Should have failed scanning."),
    }
}

#[test]
fn scan_multiline_string_literal() {
    let source = "\"Hello,\nworld\n!\"";
    let mut scanner = Scanner::new(source);
    let tokens = scanner.scan_tokens().unwrap();

    assert_eq!(tokens.len(), 2);

    assert_eq!(tokens[0].token_type, TokenType::StringLit);
    match tokens[0].literal.as_ref().unwrap() {
        LiteralValue::StringValue(s) => assert_eq!(s, b"Hello,\nworld\n!"),
        _ => panic!("Incorrect LiteralValue type"),
    }
    assert_eq!(tokens[1].token_type, TokenType::Eof);
}

fn number_of(token: &Token) -> f64 {
    match token.literal.as_ref() {
        Some(LiteralValue::Number(digits)) => {
            String::from_utf8(digits.clone()).unwrap().parse::<f64>().unwrap()
        }
        _ => panic!("Incorrect literal type"),
    }
}

#[test]
fn scan_number_literals() {
    let source = "123.45\n67.0\n8";
    let mut scanner = Scanner::new(source);
    let tokens = scanner.scan_tokens().unwrap();

    assert_eq!(tokens.len(), 4);

    assert_eq!(tokens[0].token_type, TokenType::Number);
    assert_eq!(number_of(&tokens[0]), 123.45);

    assert_eq!(tokens[1].token_type, TokenType::Number);
    assert_eq!(number_of(&tokens[1]), 67.0);

    assert_eq!(tokens[2].token_type, TokenType::Number);
    assert_eq!(number_of(&tokens[2]), 8.0);

    assert_eq!(tokens[3].token_type, TokenType::Eof);
}

#[test]
fn scan_identifier() {
    let source = "varname = 6;";
    let mut scanner = Scanner::new(source);
    let tokens = scanner.scan_tokens().unwrap();

    assert_eq!(tokens.len(), 5);

    assert_eq!(tokens[0].token_type, TokenType::Identifier);
    assert_eq!(tokens[1].token_type, TokenType::Equal);
    assert_eq!(tokens[2].token_type, TokenType::Number);
    assert_eq!(tokens[3].token_type, TokenType::Semicolon);
    assert_eq!(tokens[4].token_type, TokenType::Eof);
}

#[test]
fn scan_keywords() {
    let source = "var varname = 6.3;\nwhile true { print 123 };";
    let mut scanner = Scanner::new(source);
    let tokens = scanner.scan_tokens().unwrap();

    assert_eq!(tokens.len(), 13);

    assert_eq!(tokens[0].token_type, TokenType::Var);
    assert_eq!(tokens[1].token_type, TokenType::Identifier);
    assert_eq!(tokens[2].token_type, TokenType::Equal);
    assert_eq!(tokens[3].token_type, TokenType::Number);
    assert_eq!(tokens[4].token_type, TokenType::Semicolon);
    assert_eq!(tokens[5].token_type, TokenType::While);
    assert_eq!(tokens[6].token_type, TokenType::True);
    assert_eq!(tokens[7].token_type, TokenType::LeftBrace);
    assert_eq!(tokens[8].token_type, TokenType::Print);
    assert_eq!(tokens[9].token_type, TokenType::Number);
    assert_eq!(tokens[10].token_type, TokenType::RightBrace);
    assert_eq!(tokens[11].token_type, TokenType::Semicolon);
    assert_eq!(tokens[12].token_type, TokenType::Eof);
}

#[test]
fn empty_text_is_eof_alone() {
    let tokens = scan("");
    assert_eq!(
        tokens,
        vec![Token { token_type: TokenType::Eof, lexeme: vec![], literal: None, line: 1 }]
    );
}

#[test]
fn every_keyword_has_its_kind() {
    assert_eq!(
        kinds("and class else false for fun if nil or print return super this true var while"),
        vec![
            TokenType::And,
            TokenType::Class,
            TokenType::Else,
            TokenType::False,
            TokenType::For,
            TokenType::Fun,
            TokenType::If,
            TokenType::Nil,
            TokenType::Or,
            TokenType::Print,
            TokenType::Return,
            TokenType::Super,
            TokenType::This,
            TokenType::True,
            TokenType::Var,
            TokenType::While,
            TokenType::Eof,
        ]
    );
}

#[test]
fn keyword_table_has_sixteen_words_and_no_word_twice() {
    let table = get_keywords_hashmap();
    assert_eq!(table.len(), 16);
    for (i, first) in table.iter().enumerate() {
        for second in table.iter().skip(i + 1) {
            assert_ne!(first.text, second.text);
        }
    }
    assert_eq!(find_keyword(&table, &b"while".to_vec()), Some(TokenType::While));
    assert_eq!(find_keyword(&table, &b"and".to_vec()), Some(TokenType::And));
    assert_eq!(find_keyword(&table, &b"whil".to_vec()), None);
    assert_eq!(find_keyword(&table, &b"whiles".to_vec()), None);
    assert_eq!(find_keyword(&table, &b"".to_vec()), None);
}

#[test]
fn words_that_start_like_keywords_are_identifiers() {
    assert_eq!(
        kinds("variable _var or_ orchid nil2 For"),
        vec![
            TokenType::Identifier,
            TokenType::Identifier,
            TokenType::Identifier,
            TokenType::Identifier,
            TokenType::Identifier,
            TokenType::Identifier,
            TokenType::Eof,
        ]
    );
}

#[test]
fn byte_classes() {
    assert!(is_digit(b'0'));
    assert!(is_digit(b'9'));
    assert!(!is_digit(b'/'));
    assert!(!is_digit(b':'));
    assert!(!is_digit(b'a'));
    assert!(is_alpha(b'a'));
    assert!(is_alpha(b'z'));
    assert!(is_alpha(b'A'));
    assert!(is_alpha(b'Z'));
    assert!(is_alpha(b'_'));
    assert!(!is_alpha(b'@'));
    assert!(!is_alpha(b'['));
    assert!(!is_alpha(b'`'));
    assert!(!is_alpha(b'{'));
    assert!(!is_alpha(b'5'));
    assert!(is_alphanumeric(b'5'));
    assert!(is_alphanumeric(b'q'));
    assert!(!is_alphanumeric(b' '));
    assert!(!is_alphanumeric(0xc3));
}

#[test]
fn comments_run_to_the_end_of_the_line() {
    let tokens = scan("1 // two three\n4 // five");
    assert_eq!(tokens.len(), 3);
    assert_eq!(tokens[0].lexeme, b"1");
    assert_eq!(tokens[0].line, 1);
    assert_eq!(tokens[1].lexeme, b"4");
    assert_eq!(tokens[1].line, 2);
    assert_eq!(tokens[2].token_type, TokenType::Eof);
    assert_eq!(tokens[2].line, 2);
}

#[test]
fn a_slash_before_a_star_is_a_slash() {
    assert_eq!(
        kinds("a /* b"),
        vec![
            TokenType::Identifier,
            TokenType::Slash,
            TokenType::Star,
            TokenType::Identifier,
            TokenType::Eof
        ]
    );
}

#[test]
fn lines_are_counted_from_one() {
    let tokens = scan("a\nb\n\nc \"x\ny\" d");
    let lines: Vec<usize> = tokens.iter().map(|token| token.line).collect();
    assert_eq!(lines, vec![1, 2, 4, 5, 5, 5]);
}

#[test]
fn a_number_takes_a_dot_only_before_a_digit() {
    let tokens = scan("12.5.7 3. .5 1.x");
    let lexemes: Vec<&[u8]> = tokens.iter().map(|token| token.lexeme.as_slice()).collect();
    let expected: Vec<&[u8]> =
        vec![b"12.5", b".", b"7", b"3", b".", b".", b"5", b"1", b".", b"x", b""];
    assert_eq!(lexemes, expected);
    assert_eq!(tokens[0].literal, Some(LiteralValue::Number(b"12.5".to_vec())));
    assert_eq!(tokens[3].literal, Some(LiteralValue::Number(b"3".to_vec())));
}

#[test]
fn a_string_keeps_its_bytes() {
    let tokens = scan("\"gr\u{fc}\u{df}e // no comment\"");
    assert_eq!(tokens.len(), 2);
    assert_eq!(tokens[0].lexeme, "\"gr\u{fc}\u{df}e // no comment\"".as_bytes());
    assert_eq!(
        tokens[0].literal,
        Some(LiteralValue::StringValue("gr\u{fc}\u{df}e // no comment".as_bytes().to_vec()))
    );
}

#[test]
fn only_number_and_string_tokens_carry_a_literal() {
    for token in scan("x = 1 + \"s\"; print nil;") {
        let carries = token.literal.is_some();
        let literal_kind =
            token.token_type == TokenType::Number || token.token_type == TokenType::StringLit;
        assert_eq!(carries, literal_kind);
    }
}

#[test]
fn every_error_is_collected_with_its_line() {
    let errors = Scanner::new("a @ b\n# c\n\"open\n").scan_tokens().unwrap_err();
    assert_eq!(
        errors,
        vec![
            ScanError { kind: ScanErrorKind::UnrecognizedChar { byte: b'@' }, line: 1 },
            ScanError { kind: ScanErrorKind::UnrecognizedChar { byte: b'#' }, line: 2 },
            ScanError { kind: ScanErrorKind::UnterminatedString, line: 4 },
        ]
    );
}

#[test]
fn bytes_outside_ascii_start_no_token() {
    let errors = Scanner::new("\u{e9}").scan_tokens().unwrap_err();
    assert_eq!(
        errors,
        vec![
            ScanError { kind: ScanErrorKind::UnrecognizedChar { byte: 0xc3 }, line: 1 },
            ScanError { kind: ScanErrorKind::UnrecognizedChar { byte: 0xa9 }, line: 1 },
        ]
    );
}

#[test]
fn every_lexeme_is_a_piece_of_the_text_on_its_line() {
    let source = "var a = \"two\nlines\";\nfun f(x) { return x >= 10.5; } // done\nprint f(a);";
    let bytes = source.as_bytes();
    let tokens = scan(source);
    let mut from = 0;
    for token in &tokens {
        let at = (from..=bytes.len() - token.lexeme.len())
            .find(|&start| bytes[start..start + token.lexeme.len()] == token.lexeme[..])
            .unwrap();
        let to = at + token.lexeme.len();
        let line = 1 + bytes[..to].iter().filter(|&&byte| byte == b'\n').count();
        if token.token_type != TokenType::Eof {
            assert_eq!(token.line, line);
        }
        from = to;
    }
    let last = tokens.last().unwrap();
    assert_eq!(last.token_type, TokenType::Eof);
    assert_eq!(last.line, 1 + bytes.iter().filter(|&&byte| byte == b'\n').count());
}

#[test]
fn scanning_again_adds_another_eof() {
    let mut scanner = Scanner::new("x");
    assert_eq!(scanner.scan_tokens().unwrap().len(), 2);
    let again = scanner.scan_tokens().unwrap();
    assert_eq!(again.len(), 3);
    assert_eq!(again[2].token_type, TokenType::Eof);
}
