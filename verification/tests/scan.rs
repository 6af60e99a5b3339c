use lox_lexer::diagnostic::{Diagnostic, DiagnosticKind, LEXICAL_ERROR};
use lox_lexer::lexer::Lexer;
use lox_lexer::token::{Token, TokenType};

fn scan(source: &str) -> Lexer {
    let mut lexer = Lexer::new(source.to_string());
    lexer.tokenize();
    lexer
}

fn token(token_type: TokenType, lexeme: &str, literal: &str, line: usize) -> Token {
    Token::new(token_type, lexeme.to_string(), literal.to_string(), line)
}

fn kinds(lexer: &Lexer) -> Vec<TokenType> {
    let mut kinds = Vec::new();
    for token in lexer.tokens() {
        kinds.push(token.token_type);
    }
    kinds
}

#[test]
fn new_session_is_empty() {
    let lexer = Lexer::new("var x;".to_string());
    assert_eq!(lexer.source(), "var x;");
    assert!(lexer.tokens().is_empty());
    assert!(lexer.diagnostics().is_empty());
    assert_eq!(lexer.error_code(), 0);
    assert_eq!(lexer.end_of_input(), token(TokenType::EOF, "", "null", 1));
}

#[test]
fn clean_source_has_no_diagnostics() {
    let lexer = scan("var answer = 42;\nprint answer; // done\n");
    assert!(lexer.diagnostics().is_empty());
    assert_eq!(lexer.error_code(), 0);
    assert_eq!(
        lexer.tokens(),
        &vec![
            token(TokenType::VAR, "var", "null", 1),
            token(TokenType::IDENTIFIER, "answer", "null", 1),
            token(TokenType::EQUAL, "=", "null", 1),
            token(TokenType::NUMBER, "42", "42.0", 1),
            token(TokenType::SEMICOLON, ";", "null", 1),
            token(TokenType::PRINT, "print", "null", 2),
            token(TokenType::IDENTIFIER, "answer", "null", 2),
            token(TokenType::SEMICOLON, ";", "null", 2),
        ]
    );
}

#[test]
fn lexemes_and_skipped_text_rebuild_the_source() {
    let source = "if (a >= 10) { print \"big\"; } // yes\n\tb = a / 2.50;";
    let lexer = scan(source);
    assert!(lexer.diagnostics().is_empty());
    let mut rest = source;
    let mut rebuilt = String::new();
    for token in lexer.tokens() {
        let at = rest.find(token.lexeme.as_str()).unwrap();
        let skipped = &rest[..at];
        assert!(skipped.trim().is_empty() || skipped.trim_start().starts_with("//"));
        rebuilt.push_str(skipped);
        rebuilt.push_str(&token.lexeme);
        rest = &rest[at + token.lexeme.len()..];
    }
    rebuilt.push_str(rest);
    assert!(rest.trim().is_empty());
    assert_eq!(rebuilt, source);
    assert_eq!(lexer.tokens().len(), 17);
}

#[test]
fn punctuation_one_token_each() {
    let lexer = scan("(){},.-+;*");
    assert_eq!(
        lexer.tokens(),
        &vec![
            token(TokenType::LEFT_PAREN, "(", "null", 1),
            token(TokenType::RIGHT_PAREN, ")", "null", 1),
            token(TokenType::LEFT_BRACE, "{", "null", 1),
            token(TokenType::RIGHT_BRACE, "}", "null", 1),
            token(TokenType::COMMA, ",", "null", 1),
            token(TokenType::DOT, ".", "null", 1),
            token(TokenType::MINUS, "-", "null", 1),
            token(TokenType::PLUS, "+", "null", 1),
            token(TokenType::SEMICOLON, ";", "null", 1),
            token(TokenType::STAR, "*", "null", 1),
        ]
    );
    assert_eq!(lexer.error_code(), 0);
}

#[test]
fn whitespace_is_skipped() {
    let lexer = scan(" \t( \r ) \t");
    assert_eq!(
        lexer.tokens(),
        &vec![
            token(TokenType::LEFT_PAREN, "(", "null", 1),
            token(TokenType::RIGHT_PAREN, ")", "null", 1),
        ]
    );
    assert!(lexer.diagnostics().is_empty());
}

#[test]
fn number_without_fraction() {
    let lexer = scan("123");
    assert_eq!(lexer.tokens(), &vec![token(TokenType::NUMBER, "123", "123.0", 1)]);
}

#[test]
fn number_with_dangling_dot() {
    let lexer = scan("123.");
    assert_eq!(
        lexer.tokens(),
        &vec![
            token(TokenType::NUMBER, "123", "123.0", 1),
            token(TokenType::DOT, ".", "null", 1),
        ]
    );
}

#[test]
fn number_with_fraction() {
    let lexer = scan("123.45");
    assert_eq!(lexer.tokens(), &vec![token(TokenType::NUMBER, "123.45", "123.45", 1)]);
}

#[test]
fn number_with_trailing_zero() {
    let lexer = scan("123.40");
    assert_eq!(lexer.tokens(), &vec![token(TokenType::NUMBER, "123.40", "123.4", 1)]);
}

#[test]
fn number_with_zero_fraction() {
    let lexer = scan("7.000");
    assert_eq!(lexer.tokens(), &vec![token(TokenType::NUMBER, "7.000", "7.0", 1)]);
}

#[test]
fn number_with_leading_zeros() {
    let lexer = scan("007 000 0.50");
    assert_eq!(
        lexer.tokens(),
        &vec![
            token(TokenType::NUMBER, "007", "7.0", 1),
            token(TokenType::NUMBER, "000", "0.0", 1),
            token(TokenType::NUMBER, "0.50", "0.5", 1),
        ]
    );
}

#[test]
fn number_stops_at_second_dot() {
    let lexer = scan("1.2.3");
    assert_eq!(
        lexer.tokens(),
        &vec![
            token(TokenType::NUMBER, "1.2", "1.2", 1),
            token(TokenType::DOT, ".", "null", 1),
            token(TokenType::NUMBER, "3", "3.0", 1),
        ]
    );
}

#[test]
fn number_then_two_dots() {
    let lexer = scan("1..2");
    assert_eq!(
        kinds(&lexer),
        vec![TokenType::NUMBER, TokenType::DOT, TokenType::DOT, TokenType::NUMBER]
    );
    assert_eq!(lexer.tokens()[0].lexeme, "1");
    assert_eq!(lexer.tokens()[3].literal, "2.0");
}

#[test]
fn number_keeps_every_digit() {
    let lexer = scan("12345678901234567890.123456789012345678900");
    assert_eq!(
        lexer.tokens(),
        &vec![token(
            TokenType::NUMBER,
            "12345678901234567890.123456789012345678900",
            "12345678901234567890.1234567890123456789",
            1
        )]
    );
}

#[test]
fn number_followed_by_word() {
    let lexer = scan("12abc");
    assert_eq!(
        lexer.tokens(),
        &vec![
            token(TokenType::NUMBER, "12", "12.0", 1),
            token(TokenType::IDENTIFIER, "abc", "null", 1),
        ]
    );
}

#[test]
fn format_float_from_string_normalizes() {
    assert_eq!(Lexer::format_float_from_string("123".to_string()), "123.0");
    assert_eq!(Lexer::format_float_from_string("123.".to_string()), "123.0");
    assert_eq!(Lexer::format_float_from_string("123.0".to_string()), "123.0");
    assert_eq!(Lexer::format_float_from_string("123.45".to_string()), "123.45");
    assert_eq!(Lexer::format_float_from_string("123.40".to_string()), "123.4");
    assert_eq!(Lexer::format_float_from_string("0".to_string()), "0.0");
    assert_eq!(Lexer::format_float_from_string("0010.0100".to_string()), "10.01");
}

#[test]
fn format_float_from_string_malformed_is_zero() {
    assert_eq!(Lexer::format_float_from_string("".to_string()), "0.0");
    assert_eq!(Lexer::format_float_from_string("abc".to_string()), "0.0");
    assert_eq!(Lexer::format_float_from_string(".5".to_string()), "0.0");
    assert_eq!(Lexer::format_float_from_string("1.2.3".to_string()), "0.0");
    assert_eq!(Lexer::format_float_from_string("12a".to_string()), "0.0");
    assert_eq!(Lexer::format_float_from_string("1.5x".to_string()), "0.0");
    assert_eq!(Lexer::format_float_from_string("-1".to_string()), "0.0");
}

#[test]
fn keyword_is_recognized() {
    let lexer = scan("class");
    assert_eq!(lexer.tokens(), &vec![token(TokenType::CLASS, "class", "null", 1)]);
}

#[test]
fn keyword_prefix_is_identifier() {
    let lexer = scan("classFoo");
    assert_eq!(lexer.tokens(), &vec![token(TokenType::IDENTIFIER, "classFoo", "null", 1)]);
}

#[test]
fn keywords_are_case_sensitive() {
    let lexer = scan("Class CLASS clas _class class_ class1");
    assert_eq!(
        kinds(&lexer),
        vec![
            TokenType::IDENTIFIER,
            TokenType::IDENTIFIER,
            TokenType::IDENTIFIER,
            TokenType::IDENTIFIER,
            TokenType::IDENTIFIER,
            TokenType::IDENTIFIER,
        ]
    );
}

#[test]
fn all_reserved_words() {
    let lexer = scan(
        "and class else false for fun if nil or print return super this true var while",
    );
    assert_eq!(
        kinds(&lexer),
        vec![
            TokenType::AND,
            TokenType::CLASS,
            TokenType::ELSE,
            TokenType::FALSE,
            TokenType::FOR,
            TokenType::FUN,
            TokenType::IF,
            TokenType::NIL,
            TokenType::OR,
            TokenType::PRINT,
            TokenType::RETURN,
            TokenType::SUPER,
            TokenType::THIS,
            TokenType::TRUE,
            TokenType::VAR,
            TokenType::WHILE,
        ]
    );
    for token in lexer.tokens() {
        assert_eq!(token.literal, "null");
        assert_eq!(token.line, 1);
    }
}

#[test]
fn identifier_with_digits_and_underscores() {
    let lexer = scan("_a1_b2 x");
    assert_eq!(
        lexer.tokens(),
        &vec![
            token(TokenType::IDENTIFIER, "_a1_b2", "null", 1),
            token(TokenType::IDENTIFIER, "x", "null", 1),
        ]
    );
}

#[test]
fn bang_equal_is_one_token() {
    let lexer = scan("!=");
    assert_eq!(lexer.tokens(), &vec![token(TokenType::BANG_EQUAL, "!=", "null", 1)]);
}

#[test]
fn bang_alone_is_bang() {
    let lexer = scan("!");
    assert_eq!(lexer.tokens(), &vec![token(TokenType::BANG, "!", "null", 1)]);
}

#[test]
fn operators_take_the_longest_match() {
    let lexer = scan("== = <= < >= > ! / ===");
    assert_eq!(
        lexer.tokens(),
        &vec![
            token(TokenType::EQUAL_EQUAL, "==", "null", 1),
            token(TokenType::EQUAL, "=", "null", 1),
            token(TokenType::LESS_EQUAL, "<=", "null", 1),
            token(TokenType::LESS, "<", "null", 1),
            token(TokenType::GREATER_EQUAL, ">=", "null", 1),
            token(TokenType::GREATER, ">", "null", 1),
            token(TokenType::BANG, "!", "null", 1),
            token(TokenType::SLASH, "/", "null", 1),
            token(TokenType::EQUAL_EQUAL, "==", "null", 1),
            token(TokenType::EQUAL, "=", "null", 1),
        ]
    );
}

#[test]
fn less_then_greater_are_two_operators() {
    let lexer = scan("<>");
    assert_eq!(
        lexer.tokens(),
        &vec![
            token(TokenType::LESS, "<", "null", 1),
            token(TokenType::GREATER, ">", "null", 1),
        ]
    );
}

#[test]
fn string_literal() {
    let lexer = scan("\"hi\"");
    assert_eq!(lexer.tokens(), &vec![token(TokenType::STRING, "\"hi\"", "hi", 1)]);
    assert!(lexer.diagnostics().is_empty());
}

#[test]
fn string_keeps_what_stands_inside() {
    let lexer = scan("\"a // b @ 1.50\" \"\"");
    assert_eq!(
        lexer.tokens(),
        &vec![
            token(TokenType::STRING, "\"a // b @ 1.50\"", "a // b @ 1.50", 1),
            token(TokenType::STRING, "\"\"", "", 1),
        ]
    );
    assert!(lexer.diagnostics().is_empty());
}

#[test]
fn string_named_null_is_a_string() {
    let lexer = scan("\"null\" nil");
    assert_eq!(
        lexer.tokens(),
        &vec![
            token(TokenType::STRING, "\"null\"", "null", 1),
            token(TokenType::NIL, "nil", "null", 1),
        ]
    );
}

#[test]
fn unterminated_string() {
    let lexer = scan("\"hi");
    assert!(lexer.tokens().is_empty());
    assert_eq!(
        lexer.diagnostics(),
        &vec![Diagnostic::new(DiagnosticKind::UnterminatedString, 1)]
    );
    assert_eq!(lexer.diagnostics()[0].message, "Unterminated string.");
    assert_eq!(lexer.error_code(), 65);
}

#[test]
fn lone_quote_is_unterminated() {
    let lexer = scan("\"");
    assert!(lexer.tokens().is_empty());
    assert_eq!(
        lexer.diagnostics(),
        &vec![Diagnostic::new(DiagnosticKind::UnterminatedString, 1)]
    );
}

#[test]
fn string_does_not_run_over_the_line() {
    let lexer = scan("a \"open\nclosed\" b");
    assert_eq!(
        lexer.tokens(),
        &vec![
            token(TokenType::IDENTIFIER, "a", "null", 1),
            token(TokenType::IDENTIFIER, "closed", "null", 2),
        ]
    );
    assert_eq!(
        lexer.diagnostics(),
        &vec![
            Diagnostic::new(DiagnosticKind::UnterminatedString, 1),
            Diagnostic::new(DiagnosticKind::UnterminatedString, 2),
        ]
    );
}

#[test]
fn comment_takes_the_rest_of_the_line() {
    let lexer = scan("// ignore this\n(");
    assert_eq!(lexer.tokens(), &vec![token(TokenType::LEFT_PAREN, "(", "null", 2)]);
    assert!(lexer.diagnostics().is_empty());
    assert_eq!(lexer.end_of_input().line, 2);
    assert_eq!(lexer.end_of_input(), token(TokenType::EOF, "", "null", 2));
}

#[test]
fn comment_hides_errors() {
    let lexer = scan("a // @ \" #\nb");
    assert_eq!(
        lexer.tokens(),
        &vec![
            token(TokenType::IDENTIFIER, "a", "null", 1),
            token(TokenType::IDENTIFIER, "b", "null", 2),
        ]
    );
    assert!(lexer.diagnostics().is_empty());
    assert_eq!(lexer.error_code(), 0);
}

#[test]
fn comment_marker_is_never_a_token() {
    let lexer = scan("/ // /\n///");
    assert_eq!(lexer.tokens(), &vec![token(TokenType::SLASH, "/", "null", 1)]);
}

#[test]
fn error_recovery_within_a_line() {
    let lexer = scan("(@)");
    assert_eq!(
        lexer.tokens(),
        &vec![
            token(TokenType::LEFT_PAREN, "(", "null", 1),
            token(TokenType::RIGHT_PAREN, ")", "null", 1),
        ]
    );
    assert_eq!(
        lexer.diagnostics(),
        &vec![Diagnostic::new(DiagnosticKind::UnexpectedCharacter('@'), 1)]
    );
    assert_eq!(lexer.diagnostics()[0].kind, DiagnosticKind::UnexpectedCharacter('@'));
    assert_eq!(lexer.diagnostics()[0].line, 1);
    assert_eq!(lexer.diagnostics()[0].message, "Unexpected character: @");
    assert_eq!(lexer.error_code(), LEXICAL_ERROR);
    assert_eq!(lexer.error_code(), 65);
}

#[test]
fn every_error_is_kept_in_order() {
    let lexer = scan("#\n1 $ 2\n\"x\n%");
    assert_eq!(
        lexer.tokens(),
        &vec![
            token(TokenType::NUMBER, "1", "1.0", 2),
            token(TokenType::NUMBER, "2", "2.0", 2),
        ]
    );
    assert_eq!(
        lexer.diagnostics(),
        &vec![
            Diagnostic::new(DiagnosticKind::UnexpectedCharacter('#'), 1),
            Diagnostic::new(DiagnosticKind::UnexpectedCharacter('$'), 2),
            Diagnostic::new(DiagnosticKind::UnterminatedString, 3),
            Diagnostic::new(DiagnosticKind::UnexpectedCharacter('%'), 4),
        ]
    );
    assert_eq!(lexer.error_code(), 65);
}

#[test]
fn characters_outside_ascii_are_unexpected() {
    let lexer = scan("a\u{e9}b \u{a0}");
    assert_eq!(
        lexer.tokens(),
        &vec![
            token(TokenType::IDENTIFIER, "a", "null", 1),
            token(TokenType::IDENTIFIER, "b", "null", 1),
        ]
    );
    assert_eq!(
        lexer.diagnostics(),
        &vec![
            Diagnostic::new(DiagnosticKind::UnexpectedCharacter('\u{e9}'), 1),
            Diagnostic::new(DiagnosticKind::UnexpectedCharacter('\u{a0}'), 1),
        ]
    );
}

#[test]
fn scanning_twice_gives_the_same() {
    let source = "var a = \"x\";\n@ 1.50 // c\n\"open";
    let first = scan(source);
    let second = scan(source);
    assert_eq!(first.tokens(), second.tokens());
    assert_eq!(first.diagnostics(), second.diagnostics());
    assert_eq!(first.error_code(), second.error_code());
    assert_eq!(first.end_of_input(), second.end_of_input());
    assert_eq!(first.tokens().len(), 6);
    assert_eq!(first.diagnostics().len(), 2);
}

#[test]
fn scanning_again_starts_afresh() {
    let mut lexer = scan("( @");
    let tokens = lexer.tokens().clone();
    let diagnostics = lexer.diagnostics().clone();
    lexer.tokenize();
    assert_eq!(lexer.tokens(), &tokens);
    assert_eq!(lexer.diagnostics(), &diagnostics);
    assert_eq!(lexer.tokens().len(), 1);
    assert_eq!(lexer.diagnostics().len(), 1);
    assert_eq!(lexer.error_code(), 65);
}

#[test]
fn empty_source() {
    let lexer = scan("");
    assert!(lexer.tokens().is_empty());
    assert!(lexer.diagnostics().is_empty());
    assert_eq!(lexer.error_code(), 0);
    assert_eq!(lexer.end_of_input(), token(TokenType::EOF, "", "null", 1));
}

#[test]
fn end_of_input_line() {
    assert_eq!(scan("a").end_of_input().line, 1);
    assert_eq!(scan("a\n").end_of_input().line, 1);
    assert_eq!(scan("a\nb").end_of_input().line, 2);
    assert_eq!(scan("a\n\n").end_of_input().line, 2);
    assert_eq!(scan("\n\n\n").end_of_input().line, 3);
    assert_eq!(scan("\n").end_of_input().line, 1);
}

#[test]
fn end_of_input_is_not_stored() {
    let lexer = scan("a");
    assert_eq!(lexer.tokens().len(), 1);
    assert_eq!(lexer.end_of_input().render(), "EOF  null");
}

#[test]
fn line_numbers_count_every_line() {
    let lexer = scan("a\n\n\nb\r\nc");
    assert_eq!(
        lexer.tokens(),
        &vec![
            token(TokenType::IDENTIFIER, "a", "null", 1),
            token(TokenType::IDENTIFIER, "b", "null", 4),
            token(TokenType::IDENTIFIER, "c", "null", 5),
        ]
    );
    assert!(lexer.diagnostics().is_empty());
}

#[test]
fn listing_has_one_token_per_line() {
    let lexer = scan("var s = \"hi\";\n1.50 @");
    assert_eq!(
        lexer.listing(),
        "VAR var null\nIDENTIFIER s null\nEQUAL = null\nSTRING \"hi\" hi\nSEMICOLON ; null\nNUMBER 1.50 1.5\nEOF  null\n"
    );
}

#[test]
fn listing_of_nothing_is_the_end_marker() {
    assert_eq!(scan("").listing(), "EOF  null\n");
    assert_eq!(Lexer::new("(".to_string()).listing(), "EOF  null\n");
}
