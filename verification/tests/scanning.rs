use rlox::scanner::{Scanner, SyntaxError};
use rlox::token::{GenericToken, Literal, Token};
use rlox::token_kind::TokenKind;

fn scan(source: &str) -> Result<Vec<Token>, Vec<SyntaxError>> {
    let scanner = Scanner::new(source);
    assert!(scanner.lines_fit());
    scanner.scan_tokens()
}

fn tokens_of(source: &str) -> Vec<Token> {
    match scan(source) {
        Ok(tokens) => tokens,
        Err(errors) => panic!("{:?} does not scan: {:?}", source, errors),
    }
}

fn errors_of(source: &str) -> Vec<SyntaxError> {
    match scan(source) {
        Ok(tokens) => panic!("{:?} scans: {:?}", source, tokens),
        Err(errors) => errors,
    }
}

fn kinds_of(source: &str) -> Vec<TokenKind> {
    tokens_of(source).iter().map(|token| token.kind).collect()
}

fn plain(kind: TokenKind, lexeme: &str, line: u32) -> Token {
    GenericToken::new(kind, lexeme.to_string(), None, line)
}

fn number(lexeme: &str, line: u32) -> Token {
    GenericToken::new(
        TokenKind::Number,
        lexeme.to_string(),
        Some(Literal::Number(lexeme.to_string())),
        line,
    )
}

fn string(inside: &str, line: u32) -> Token {
    GenericToken::new(
        TokenKind::String,
        format!("\"{}\"", inside),
        Some(Literal::Text(inside.to_string())),
        line,
    )
}

fn end(line: u32) -> Token {
    plain(TokenKind::Eof, "", line)
}

fn value_of(token: &Token) -> f64 {
    match &token.literal {
        Some(Literal::Number(numeral)) => match numeral.parse::<f64>() {
            Ok(value) => value,
            Err(_) => panic!("{:?} is no number", numeral),
        },
        other => panic!("{:?} is no number", other),
    }
}

#[test]
fn empty_source_gives_the_end_token() {
    assert_eq!(tokens_of(""), vec![end(1)]);
}

#[test]
fn blank_source_gives_the_end_token() {
    assert_eq!(tokens_of(" \t\r "), vec![end(1)]);
    assert_eq!(tokens_of(" \n\t\n\r\n "), vec![end(4)]);
}

#[test]
fn end_token_has_no_text_and_no_value() {
    let tokens = tokens_of("1 + 2");
    let last = &tokens[tokens.len() - 1];
    assert_eq!(last.kind, TokenKind::Eof);
    assert_eq!(last.lexeme, "");
    assert_eq!(last.literal, None);
    let ends = tokens.iter().filter(|token| token.kind == TokenKind::Eof).count();
    assert_eq!(ends, 1);
}

#[test]
fn punctuation_of_one_character() {
    assert_eq!(
        tokens_of("(){},.-+;*/"),
        vec![
            plain(TokenKind::LeftParen, "(", 1),
            plain(TokenKind::RightParen, ")", 1),
            plain(TokenKind::LeftBrace, "{", 1),
            plain(TokenKind::RightBrace, "}", 1),
            plain(TokenKind::Comma, ",", 1),
            plain(TokenKind::Dot, ".", 1),
            plain(TokenKind::Minus, "-", 1),
            plain(TokenKind::Plus, "+", 1),
            plain(TokenKind::Semicolon, ";", 1),
            plain(TokenKind::Star, "*", 1),
            plain(TokenKind::Slash, "/", 1),
            end(1),
        ]
    );
}

#[test]
fn equal_equal_is_one_token() {
    assert_eq!(tokens_of("=="), vec![plain(TokenKind::EqualEqual, "==", 1), end(1)]);
}

#[test]
fn bang_alone_and_bang_equal() {
    assert_eq!(tokens_of("!"), vec![plain(TokenKind::Bang, "!", 1), end(1)]);
    assert_eq!(tokens_of("!="), vec![plain(TokenKind::BangEqual, "!=", 1), end(1)]);
}

#[test]
fn operators_of_one_and_two_characters() {
    assert_eq!(
        kinds_of("! != = == < <= > >="),
        vec![
            TokenKind::Bang,
            TokenKind::BangEqual,
            TokenKind::Equal,
            TokenKind::EqualEqual,
            TokenKind::Less,
            TokenKind::LessEqual,
            TokenKind::Greater,
            TokenKind::GreaterEqual,
            TokenKind::Eof,
        ]
    );
}

#[test]
fn the_longer_operator_is_taken_first() {
    assert_eq!(
        tokens_of("==="),
        vec![plain(TokenKind::EqualEqual, "==", 1), plain(TokenKind::Equal, "=", 1), end(1)]
    );
    assert_eq!(
        tokens_of("<=="),
        vec![plain(TokenKind::LessEqual, "<=", 1), plain(TokenKind::Equal, "=", 1), end(1)]
    );
    assert_eq!(
        tokens_of("= ="),
        vec![plain(TokenKind::Equal, "=", 1), plain(TokenKind::Equal, "=", 1), end(1)]
    );
}

#[test]
fn number_with_a_fraction() {
    let tokens = tokens_of("123.456");
    assert_eq!(tokens, vec![number("123.456", 1), end(1)]);
    assert_eq!(value_of(&tokens[0]), 123.456);
}

#[test]
fn number_leaves_a_trailing_point() {
    let tokens = tokens_of("123.");
    assert_eq!(tokens, vec![number("123", 1), plain(TokenKind::Dot, ".", 1), end(1)]);
    assert_eq!(value_of(&tokens[0]), 123.0);
}

#[test]
fn number_takes_one_fraction_only() {
    assert_eq!(
        tokens_of("1.2.3"),
        vec![number("1.2", 1), plain(TokenKind::Dot, ".", 1), number("3", 1), end(1)]
    );
    assert_eq!(
        tokens_of(".5"),
        vec![plain(TokenKind::Dot, ".", 1), number("5", 1), end(1)]
    );
    assert_eq!(tokens_of("0"), vec![number("0", 1), end(1)]);
}

#[test]
fn number_ends_where_a_word_begins() {
    assert_eq!(
        tokens_of("12ab"),
        vec![number("12", 1), plain(TokenKind::Identifier, "ab", 1), end(1)]
    );
}

#[test]
fn string_value_is_the_text_between_the_quotes() {
    let tokens = tokens_of("\"abc\"");
    assert_eq!(tokens, vec![string("abc", 1), end(1)]);
    assert_eq!(tokens[0].lexeme, "\"abc\"");
    assert_eq!(tokens[0].literal, Some(Literal::Text("abc".to_string())));
}

#[test]
fn empty_string() {
    assert_eq!(tokens_of("\"\""), vec![string("", 1), end(1)]);
}

#[test]
fn string_keeps_what_stands_in_it() {
    assert_eq!(tokens_of("\"a // b\""), vec![string("a // b", 1), end(1)]);
    assert_eq!(tokens_of("\"if 1 @\""), vec![string("if 1 @", 1), end(1)]);
}

#[test]
fn unterminated_string_is_one_error() {
    let errors = errors_of("\"abc");
    assert_eq!(errors.len(), 1);
    assert_eq!(errors[0].message, "Unterminated string.");
    assert_eq!(errors[0].line, 1);
}

#[test]
fn unterminated_string_has_the_line_of_the_end() {
    assert_eq!(
        errors_of("1\n\"abc\ndef\n"),
        vec![SyntaxError { line: 4, message: "Unterminated string.".to_string() }]
    );
}

#[test]
fn lone_quote_is_an_unterminated_string() {
    assert_eq!(
        errors_of("\""),
        vec![SyntaxError { line: 1, message: "Unterminated string.".to_string() }]
    );
}

#[test]
fn identifier_and_reserved_word() {
    assert_eq!(tokens_of("foo"), vec![plain(TokenKind::Identifier, "foo", 1), end(1)]);
    assert_eq!(tokens_of("if"), vec![plain(TokenKind::If, "if", 1), end(1)]);
}

#[test]
fn every_reserved_word_has_its_kind() {
    assert_eq!(
        kinds_of(
            "and class else false fun for if nil or print return super this true var while"
        ),
        vec![
            TokenKind::And,
            TokenKind::Class,
            TokenKind::Else,
            TokenKind::False,
            TokenKind::Fun,
            TokenKind::For,
            TokenKind::If,
            TokenKind::Nil,
            TokenKind::Or,
            TokenKind::Print,
            TokenKind::Return,
            TokenKind::Super,
            TokenKind::This,
            TokenKind::True,
            TokenKind::Var,
            TokenKind::While,
            TokenKind::Eof,
        ]
    );
}

#[test]
fn reserved_words_are_matched_whole_and_by_case() {
    assert_eq!(
        kinds_of("If IF iff i _if if_ or1 orchid"),
        vec![
            TokenKind::Identifier,
            TokenKind::Identifier,
            TokenKind::Identifier,
            TokenKind::Identifier,
            TokenKind::Identifier,
            TokenKind::Identifier,
            TokenKind::Identifier,
            TokenKind::Identifier,
            TokenKind::Eof,
        ]
    );
}

#[test]
fn words_hold_letters_digits_and_underscores() {
    assert_eq!(
        tokens_of("_a1_b2 __ x9"),
        vec![
            plain(TokenKind::Identifier, "_a1_b2", 1),
            plain(TokenKind::Identifier, "__", 1),
            plain(TokenKind::Identifier, "x9", 1),
            end(1),
        ]
    );
}

#[test]
fn words_of_other_scripts() {
    assert_eq!(
        tokens_of("größe = 京都;"),
        vec![
            plain(TokenKind::Identifier, "größe", 1),
            plain(TokenKind::Equal, "=", 1),
            plain(TokenKind::Identifier, "京都", 1),
            plain(TokenKind::Semicolon, ";", 1),
            end(1),
        ]
    );
}

#[test]
fn characters_of_several_bytes_in_a_string() {
    assert_eq!(tokens_of("\"é💝\" 1"), vec![string("é💝", 1), number("1", 1), end(1)]);
}

#[test]
fn character_of_several_bytes_that_begins_nothing() {
    assert_eq!(
        errors_of("a 💝 b"),
        vec![SyntaxError { line: 1, message: "Unexpected Character.".to_string() }]
    );
}

#[test]
fn comment_gives_no_token() {
    assert_eq!(tokens_of("// comment\n123"), vec![number("123", 2), end(2)]);
}

#[test]
fn comment_runs_to_the_end_of_the_source() {
    assert_eq!(tokens_of("1 // rest"), vec![number("1", 1), end(1)]);
    assert_eq!(tokens_of("//"), vec![end(1)]);
    assert_eq!(tokens_of("// \"open @ #"), vec![end(1)]);
}

#[test]
fn slash_alone_is_a_token() {
    assert_eq!(
        tokens_of("1 / 2"),
        vec![number("1", 1), plain(TokenKind::Slash, "/", 1), number("2", 1), end(1)]
    );
    assert_eq!(
        tokens_of("/ /"),
        vec![plain(TokenKind::Slash, "/", 1), plain(TokenKind::Slash, "/", 1), end(1)]
    );
}

#[test]
fn every_line_feed_counts() {
    assert_eq!(
        tokens_of("a\nb\n\nc"),
        vec![
            plain(TokenKind::Identifier, "a", 1),
            plain(TokenKind::Identifier, "b", 2),
            plain(TokenKind::Identifier, "c", 4),
            end(4),
        ]
    );
}

#[test]
fn line_feed_in_a_string_counts_for_what_follows() {
    assert_eq!(
        tokens_of("\"a\nb\" c"),
        vec![string("a\nb", 1), plain(TokenKind::Identifier, "c", 2), end(2)]
    );
}

#[test]
fn line_feed_behind_a_comment_counts() {
    assert_eq!(
        tokens_of("a // one\n// two\nb"),
        vec![
            plain(TokenKind::Identifier, "a", 1),
            plain(TokenKind::Identifier, "b", 3),
            end(3),
        ]
    );
}

#[test]
fn carriage_return_does_not_count_as_a_line() {
    assert_eq!(
        tokens_of("a\r\nb\rc"),
        vec![
            plain(TokenKind::Identifier, "a", 1),
            plain(TokenKind::Identifier, "b", 2),
            plain(TokenKind::Identifier, "c", 2),
            end(2),
        ]
    );
}

#[test]
fn two_errors_on_one_line() {
    assert_eq!(
        errors_of("@#1"),
        vec![
            SyntaxError { line: 1, message: "Unexpected Character.".to_string() },
            SyntaxError { line: 1, message: "Unexpected Character.".to_string() },
        ]
    );
}

#[test]
fn errors_come_in_the_order_of_the_source() {
    assert_eq!(
        errors_of("a @\nb #\n\"open"),
        vec![
            SyntaxError { line: 1, message: "Unexpected Character.".to_string() },
            SyntaxError { line: 2, message: "Unexpected Character.".to_string() },
            SyntaxError { line: 3, message: "Unterminated string.".to_string() },
        ]
    );
}

#[test]
fn one_error_discards_all_tokens() {
    assert!(scan("var a = 1; @").is_err());
    assert!(scan("var a = 1;").is_ok());
}

#[test]
fn lexemes_are_the_text_of_the_source() {
    let source = "var total = (a1 + 2.50) * \"x y\"; // sum\nprint total >= 10 != false;";
    let tokens = tokens_of(source);
    let mut from = 0;
    for token in &tokens[..tokens.len() - 1] {
        assert!(!token.lexeme.is_empty());
        match source[from..].find(token.lexeme.as_str()) {
            Some(at) => {
                let between = source[from..from + at].trim_start();
                assert!(between.is_empty() || between.starts_with("//"));
                from += at + token.lexeme.len();
            }
            None => panic!("{:?} is not in the source behind {}", token.lexeme, from),
        }
    }
    assert_eq!(&source[from..], "");
}

#[test]
fn a_small_program() {
    assert_eq!(
        tokens_of("fun add(a, b) {\n  return a + b;\n}\nprint add(1, 2.5);\n"),
        vec![
            plain(TokenKind::Fun, "fun", 1),
            plain(TokenKind::Identifier, "add", 1),
            plain(TokenKind::LeftParen, "(", 1),
            plain(TokenKind::Identifier, "a", 1),
            plain(TokenKind::Comma, ",", 1),
            plain(TokenKind::Identifier, "b", 1),
            plain(TokenKind::RightParen, ")", 1),
            plain(TokenKind::LeftBrace, "{", 1),
            plain(TokenKind::Return, "return", 2),
            plain(TokenKind::Identifier, "a", 2),
            plain(TokenKind::Plus, "+", 2),
            plain(TokenKind::Identifier, "b", 2),
            plain(TokenKind::Semicolon, ";", 2),
            plain(TokenKind::RightBrace, "}", 3),
            plain(TokenKind::Print, "print", 4),
            plain(TokenKind::Identifier, "add", 4),
            plain(TokenKind::LeftParen, "(", 4),
            number("1", 4),
            plain(TokenKind::Comma, ",", 4),
            number("2.5", 4),
            plain(TokenKind::RightParen, ")", 4),
            plain(TokenKind::Semicolon, ";", 4),
            end(5),
        ]
    );
}

#[test]
fn lines_of_a_source_at_hand_fit() {
    assert!(Scanner::new("").lines_fit());
    assert!(Scanner::new("a\nb\n\"c\nd\"\n// e\n").lines_fit());
}

#[test]
fn scanning_twice_gives_the_same() {
    let source = "var a = \"x\ny\"; // c\nprint a <= 1.5;";
    assert_eq!(scan(source), scan(source));
}

#[test]
fn line_feed_is_counted_once_where_it_is_read() {
    assert_eq!(
        tokens_of("\n\n(\n)"),
        vec![plain(TokenKind::LeftParen, "(", 3), plain(TokenKind::RightParen, ")", 4), end(4)]
    );
    assert_eq!(
        tokens_of("a\n!\n=\n/\n/"),
        vec![
            plain(TokenKind::Identifier, "a", 1),
            plain(TokenKind::Bang, "!", 2),
            plain(TokenKind::Equal, "=", 3),
            plain(TokenKind::Slash, "/", 4),
            plain(TokenKind::Slash, "/", 5),
            end(5),
        ]
    );
}
