use lox_lexer::classes::{find_run_end, is_whitespace, CharClass};
use lox_lexer::cursor::Cursor;
use lox_lexer::diagnostic::{Diagnostic, DiagnosticKind};
use lox_lexer::keywords::lookup;
use lox_lexer::lexer::{split_lines, Lexer};
use lox_lexer::number::normalize;
use lox_lexer::text::{push_range, to_chars};
use lox_lexer::token::{Token, TokenType};

fn chars(text: &str) -> Vec<char> {
    text.chars().collect()
}

fn token(token_type: TokenType, lexeme: &str, literal: &str, line: usize) -> Token {
    Token::new(token_type, lexeme.to_string(), literal.to_string(), line)
}

#[test]
fn token_new_keeps_its_parts() {
    let token = Token::new(TokenType::STRING, "\"a\"".to_string(), "a".to_string(), 7);
    assert_eq!(token.token_type, TokenType::STRING);
    assert_eq!(token.lexeme, "\"a\"");
    assert_eq!(token.literal, "a");
    assert_eq!(token.line, 7);
}

#[test]
fn token_render() {
    assert_eq!(token(TokenType::LEFT_PAREN, "(", "null", 1).render(), "LEFT_PAREN ( null");
    assert_eq!(token(TokenType::STRING, "\"hi\"", "hi", 1).render(), "STRING \"hi\" hi");
    assert_eq!(token(TokenType::NUMBER, "1.50", "1.5", 3).render(), "NUMBER 1.50 1.5");
    assert_eq!(token(TokenType::CLASS, "class", "null", 1).render(), "CLASS class null");
    assert_eq!(token(TokenType::EOF, "", "null", 1).render(), "EOF  null");
}

#[test]
fn token_type_names() {
    let expected = [
        (TokenType::LEFT_PAREN, "LEFT_PAREN"),
        (TokenType::RIGHT_PAREN, "RIGHT_PAREN"),
        (TokenType::LEFT_BRACE, "LEFT_BRACE"),
        (TokenType::RIGHT_BRACE, "RIGHT_BRACE"),
        (TokenType::COMMA, "COMMA"),
        (TokenType::DOT, "DOT"),
        (TokenType::MINUS, "MINUS"),
        (TokenType::PLUS, "PLUS"),
        (TokenType::SEMICOLON, "SEMICOLON"),
        (TokenType::SLASH, "SLASH"),
        (TokenType::STAR, "STAR"),
        (TokenType::BANG, "BANG"),
        (TokenType::BANG_EQUAL, "BANG_EQUAL"),
        (TokenType::EQUAL, "EQUAL"),
        (TokenType::EQUAL_EQUAL, "EQUAL_EQUAL"),
        (TokenType::GREATER, "GREATER"),
        (TokenType::GREATER_EQUAL, "GREATER_EQUAL"),
        (TokenType::LESS, "LESS"),
        (TokenType::LESS_EQUAL, "LESS_EQUAL"),
        (TokenType::COMMENT, "COMMENT"),
        (TokenType::IDENTIFIER, "IDENTIFIER"),
        (TokenType::STRING, "STRING"),
        (TokenType::NUMBER, "NUMBER"),
        (TokenType::AND, "AND"),
        (TokenType::CLASS, "CLASS"),
        (TokenType::ELSE, "ELSE"),
        (TokenType::FALSE, "FALSE"),
        (TokenType::FUN, "FUN"),
        (TokenType::FOR, "FOR"),
        (TokenType::IF, "IF"),
        (TokenType::NIL, "NIL"),
        (TokenType::OR, "OR"),
        (TokenType::PRINT, "PRINT"),
        (TokenType::RETURN, "RETURN"),
        (TokenType::SUPER, "SUPER"),
        (TokenType::THIS, "THIS"),
        (TokenType::TRUE, "TRUE"),
        (TokenType::VAR, "VAR"),
        (TokenType::WHILE, "WHILE"),
        (TokenType::EOF, "EOF"),
    ];
    for (kind, name) in expected {
        assert_eq!(kind.name(), name);
        assert_eq!(kind.name(), format!("{:?}", kind));
    }
}

#[test]
fn diagnostic_messages() {
    let unexpected = Diagnostic::new(DiagnosticKind::UnexpectedCharacter('#'), 4);
    assert_eq!(unexpected.kind, DiagnosticKind::UnexpectedCharacter('#'));
    assert_eq!(unexpected.line, 4);
    assert_eq!(unexpected.message, "Unexpected character: #");
    let unterminated = Diagnostic::new(DiagnosticKind::UnterminatedString, 9);
    assert_eq!(unterminated.kind, DiagnosticKind::UnterminatedString);
    assert_eq!(unterminated.line, 9);
    assert_eq!(unterminated.message, "Unterminated string.");
}

#[test]
fn keyword_lookup_is_exact() {
    assert_eq!(lookup("and"), Some(TokenType::AND));
    assert_eq!(lookup("while"), Some(TokenType::WHILE));
    assert_eq!(lookup("fun"), Some(TokenType::FUN));
    assert_eq!(lookup("for"), Some(TokenType::FOR));
    assert_eq!(lookup("And"), None);
    assert_eq!(lookup("an"), None);
    assert_eq!(lookup("andy"), None);
    assert_eq!(lookup(""), None);
    assert_eq!(lookup("function"), None);
}

#[test]
fn to_chars_keeps_every_character() {
    assert_eq!(to_chars("a\u{e9}\u{1F600}\n"), vec!['a', '\u{e9}', '\u{1F600}', '\n']);
    assert_eq!(to_chars(""), Vec::<char>::new());
}

#[test]
fn push_range_appends() {
    let source = chars("abcdef");
    let mut out = "x".to_string();
    push_range(&mut out, &source, 2, 5);
    assert_eq!(out, "xcde");
    push_range(&mut out, &source, 3, 3);
    assert_eq!(out, "xcde");
}

#[test]
fn whitespace_class() {
    assert!(is_whitespace(' '));
    assert!(is_whitespace('\t'));
    assert!(is_whitespace('\r'));
    assert!(!is_whitespace('\n'));
    assert!(!is_whitespace('a'));
    assert!(!is_whitespace('\u{a0}'));
    assert!(!is_whitespace('\u{c}'));
}

#[test]
fn char_classes() {
    assert!(CharClass::Digit.contains('0'));
    assert!(CharClass::Digit.contains('9'));
    assert!(!CharClass::Digit.contains('a'));
    assert!(!CharClass::Digit.contains('\u{663}'));
    assert!(CharClass::Word.contains('_'));
    assert!(CharClass::Word.contains('z'));
    assert!(CharClass::Word.contains('A'));
    assert!(CharClass::Word.contains('5'));
    assert!(!CharClass::Word.contains('-'));
    assert!(!CharClass::Word.contains('\u{e9}'));
    assert!(CharClass::Zero.contains('0'));
    assert!(!CharClass::Zero.contains('1'));
    assert!(CharClass::StringBody.contains('a'));
    assert!(!CharClass::StringBody.contains('"'));
    assert!(CharClass::LineBody.contains('\r'));
    assert!(!CharClass::LineBody.contains('\n'));
}

#[test]
fn run_ends() {
    let text = chars("123abc");
    assert_eq!(find_run_end(&text, 0, CharClass::Digit), 3);
    assert_eq!(find_run_end(&text, 3, CharClass::Digit), 3);
    assert_eq!(find_run_end(&text, 1, CharClass::Word), 6);
    assert_eq!(find_run_end(&text, 6, CharClass::Word), 6);
}

#[test]
fn split_lines_at_line_feeds() {
    assert_eq!(split_lines(""), Vec::<Vec<char>>::new());
    assert_eq!(split_lines("a"), vec![chars("a")]);
    assert_eq!(split_lines("a\n"), vec![chars("a")]);
    assert_eq!(split_lines("a\nb"), vec![chars("a"), chars("b")]);
    assert_eq!(split_lines("a\n\nb\n"), vec![chars("a"), chars(""), chars("b")]);
    assert_eq!(split_lines("\n"), vec![chars("")]);
    assert_eq!(split_lines("a\r\nb"), vec![chars("a\r"), chars("b")]);
}

#[test]
fn normalize_number_text() {
    assert_eq!(normalize(&chars("10")), "10.0");
    assert_eq!(normalize(&chars("10.")), "10.0");
    assert_eq!(normalize(&chars("10.250")), "10.25");
    assert_eq!(normalize(&chars("0.0")), "0.0");
    assert_eq!(normalize(&chars("00.00")), "0.0");
    assert_eq!(normalize(&chars("x")), "0.0");
}

#[test]
fn cursor_advance_and_peek() {
    let text = chars("ab");
    let mut cursor = Cursor::new(&text);
    assert_eq!(cursor.peek(), Some('a'));
    assert_eq!(cursor.peek_ahead(1), Some('b'));
    assert_eq!(cursor.peek_ahead(2), None);
    assert_eq!(cursor.peek_ahead(usize::MAX), None);
    assert_eq!(cursor.advance(), Some('a'));
    assert_eq!(cursor.peek(), Some('b'));
    assert_eq!(cursor.advance(), Some('b'));
    assert_eq!(cursor.peek(), None);
    assert_eq!(cursor.advance(), None);
    assert_eq!(cursor.advance(), None);
}

#[test]
fn cursor_extent_and_take() {
    let text = chars("12.5+x");
    let mut cursor = Cursor::new(&text);
    assert_eq!(cursor.extent(0, CharClass::Digit), 2);
    assert_eq!(cursor.extent(3, CharClass::Digit), 4);
    assert_eq!(cursor.extent(9, CharClass::Digit), 9);
    assert_eq!(cursor.peek(), Some('1'));
    let mut out = String::new();
    cursor.take_into(4, &mut out);
    assert_eq!(out, "12.5");
    assert_eq!(cursor.peek(), Some('+'));
    cursor.take_into(10, &mut out);
    assert_eq!(out, "12.5+x");
    assert_eq!(cursor.peek(), None);
}

#[test]
fn scan_token_hands_out_one_unit() {
    let mut lexer = Lexer::new(String::new());
    let text = chars("= 1");
    let mut cursor = Cursor::new(&text);
    let ch = cursor.advance().unwrap();
    let found = lexer.scan_token(3, ch, &mut cursor);
    assert_eq!(found, Some(token(TokenType::EQUAL, "=", "null", 3)));
    assert_eq!(cursor.peek(), Some(' '));
    let ch = cursor.advance().unwrap();
    assert_eq!(lexer.scan_token(3, ch, &mut cursor), None);
    assert!(lexer.diagnostics().is_empty());
    assert_eq!(cursor.peek(), Some('1'));
}

#[test]
fn scan_token_records_an_unexpected_character() {
    let mut lexer = Lexer::new(String::new());
    let text = chars("@)");
    let mut cursor = Cursor::new(&text);
    let ch = cursor.advance().unwrap();
    assert_eq!(lexer.scan_token(2, ch, &mut cursor), None);
    assert_eq!(
        lexer.diagnostics(),
        &vec![Diagnostic::new(DiagnosticKind::UnexpectedCharacter('@'), 2)]
    );
    assert_eq!(lexer.error_code(), 65);
    assert_eq!(cursor.peek(), Some(')'));
    assert!(lexer.tokens().is_empty());
}

#[test]
fn scan_comparison_operator_pairs() {
    let mut lexer = Lexer::new(String::new());
    let text = chars("/=");
    let mut cursor = Cursor::new(&text);
    let found = lexer.scan_comparison_operator(1, '/', &mut cursor);
    assert_eq!(found, Some(token(TokenType::COMMENT, "//", "null", 1)));
    assert_eq!(cursor.peek(), Some('='));
    let mut cursor = Cursor::new(&text);
    let found = lexer.scan_comparison_operator(1, '<', &mut cursor);
    assert_eq!(found, Some(token(TokenType::LESS, "<", "null", 1)));
    assert_eq!(cursor.peek(), Some('/'));
    assert_eq!(cursor.advance(), Some('/'));
    let found = lexer.scan_comparison_operator(1, '>', &mut cursor);
    assert_eq!(found, Some(token(TokenType::GREATER_EQUAL, ">=", "null", 1)));
    assert_eq!(cursor.peek(), None);
}

#[test]
fn scan_string_closed_and_open() {
    let mut lexer = Lexer::new(String::new());
    let text = chars("ab\" c");
    let mut cursor = Cursor::new(&text);
    let found = lexer.scan_string(5, &mut cursor);
    assert_eq!(found, Some(token(TokenType::STRING, "\"ab\"", "ab", 5)));
    assert_eq!(cursor.peek(), Some(' '));
    assert!(lexer.diagnostics().is_empty());
    let found = lexer.scan_string(5, &mut cursor);
    assert_eq!(found, None);
    assert_eq!(cursor.peek(), None);
    assert_eq!(
        lexer.diagnostics(),
        &vec![Diagnostic::new(DiagnosticKind::UnterminatedString, 5)]
    );
}

#[test]
fn scan_number_takes_its_extent() {
    let mut lexer = Lexer::new(String::new());
    let text = chars("2.50.1");
    let mut cursor = Cursor::new(&text);
    let found = lexer.scan_number(1, '1', &mut cursor);
    assert_eq!(found, Some(token(TokenType::NUMBER, "12.50", "12.5", 1)));
    assert_eq!(cursor.peek(), Some('.'));
    let text = chars(".x");
    let mut cursor = Cursor::new(&text);
    let found = lexer.scan_number(1, '4', &mut cursor);
    assert_eq!(found, Some(token(TokenType::NUMBER, "4", "4.0", 1)));
    assert_eq!(cursor.peek(), Some('.'));
}

#[test]
fn scan_identifier_takes_the_whole_word() {
    let mut lexer = Lexer::new(String::new());
    let text = chars("hile1 x");
    let mut cursor = Cursor::new(&text);
    let found = lexer.scan_identifier(1, 'w', &mut cursor);
    assert_eq!(found, Some(token(TokenType::IDENTIFIER, "while1", "null", 1)));
    assert_eq!(cursor.peek(), Some(' '));
    let text = chars("hile(");
    let mut cursor = Cursor::new(&text);
    let found = lexer.scan_identifier(1, 'w', &mut cursor);
    assert_eq!(found, Some(token(TokenType::WHILE, "while", "null", 1)));
    assert_eq!(cursor.peek(), Some('('));
}

#[test]
fn scan_line_appends() {
    let mut lexer = Lexer::new(String::new());
    lexer.scan_line(&chars("a ="), 1);
    lexer.scan_line(&chars("? 1 // x"), 2);
    assert_eq!(
        lexer.tokens(),
        &vec![
            token(TokenType::IDENTIFIER, "a", "null", 1),
            token(TokenType::EQUAL, "=", "null", 1),
            token(TokenType::NUMBER, "1", "1.0", 2),
        ]
    );
    assert_eq!(
        lexer.diagnostics(),
        &vec![Diagnostic::new(DiagnosticKind::UnexpectedCharacter('?'), 2)]
    );
    assert_eq!(lexer.error_code(), 65);
    lexer.scan_line(&chars("b"), 3);
    assert_eq!(lexer.error_code(), 65);
    assert_eq!(lexer.tokens().len(), 4);
}
