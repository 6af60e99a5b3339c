//! The scan session: one source text, cut into tokens and diagnostics.

use vstd::prelude::*;
use vstd::string::StringExecFns;
use crate::classes::{find_run_end, is_whitespace, CharClass};
use crate::cursor::Cursor;
use crate::diagnostic::{
    diagnostic_at, diagnostic_views, status_of, Diagnostic, DiagnosticKind, DiagnosticView,
    LEXICAL_ERROR,
};
use crate::grammar::{
    diagnostics_of_lines, is_comment, is_operator_start, lemma_comment_marker,
    lemma_next_position, line_diagnostics, line_tokens, lines_from, lines_of, number_end,
    number_token, operator_end, operator_token, plain_token, scan_unit, source_diagnostics,
    source_tokens, string_end, string_unit, tokens_of_lines, unit_end, word_end, word_token,
    Outcome,
};
use crate::keywords::lookup;
use crate::number::{canonical_number, normalize};
use crate::text::to_chars;
use crate::token::{absent_literal, listing_text, token_views, Token, TokenType, TokenView};

verus! {

/// A scan session. It owns the source text, and gathers the tokens and the
/// diagnostics of a scan in the order in which the scan meets them.
#[derive(Debug, Clone)]
pub struct Lexer {
    source: String,
    tokens: Vec<Token>,
    diagnostics: Vec<Diagnostic>,
    line: usize,
    error_code: u8,
}

/// A session as a mathematical value.
pub struct LexerView {
    /// The source text.
    pub source: Seq<char>,
    /// The tokens gathered so far.
    pub tokens: Seq<TokenView>,
    /// The diagnostics recorded so far.
    pub diagnostics: Seq<DiagnosticView>,
    /// The number of the last line that a scan of the whole text reached;
    /// zero before any.
    pub line: nat,
    /// The status of the session: zero until the first diagnostic is
    /// recorded, [`LEXICAL_ERROR`] from then on.
    pub error_code: u8,
}

impl LexerView {
    /// The session before any scan of `source`.
    pub open spec fn fresh(source: Seq<char>) -> LexerView {
        LexerView {
            source,
            tokens: Seq::empty(),
            diagnostics: Seq::empty(),
            line: 0,
            error_code: 0,
        }
    }

    /// The session after one more diagnostic: it is appended, and the
    /// session has failed for good.
    pub open spec fn with_diagnostic(self, diagnostic: DiagnosticView) -> LexerView {
        LexerView {
            diagnostics: self.diagnostics.push(diagnostic),
            error_code: LEXICAL_ERROR,
            ..self
        }
    }

    /// The session after a scan of the whole of `source`.
    pub open spec fn scanned(source: Seq<char>) -> LexerView {
        LexerView {
            source,
            tokens: source_tokens(source),
            diagnostics: source_diagnostics(source),
            line: lines_of(source).len(),
            error_code: status_of(source_diagnostics(source).len()),
        }
    }

    /// The end-of-input marker of the session: no lexeme, no literal, and
    /// the number of the last line, which is 1 where there is no line.
    pub open spec fn end_of_input(self) -> TokenView {
        plain_token(
            TokenType::EOF,
            Seq::empty(),
            if self.line == 0 {
                1
            } else {
                self.line
            },
        )
    }
}

/// Whether a session went from `before` to `after`, and handed out `token`,
/// as `outcome` asks: a token is handed out and leaves the session as it
/// was; an error is recorded and nothing handed out; a blank does neither.
pub open spec fn delivers(
    before: LexerView,
    outcome: Outcome,
    after: LexerView,
    token: Option<Token>,
) -> bool {
    match outcome {
        Outcome::Blank => after == before && token.is_none(),
        Outcome::Token(expected) => after == before && token.is_some() && token.unwrap()@
            == expected,
        Outcome::Error(diagnostic) => after == before.with_diagnostic(diagnostic)
            && token.is_none(),
    }
}

impl View for Lexer {
    type V = LexerView;

    closed spec fn view(&self) -> LexerView {
        LexerView {
            source: self.source@,
            tokens: token_views(self.tokens@),
            diagnostics: diagnostic_views(self.diagnostics@),
            line: self.line as nat,
            error_code: self.error_code,
        }
    }
}

/// The views of a sequence of lines.
pub open spec fn line_views(lines: Seq<Vec<char>>) -> Seq<Seq<char>> {
    Seq::new(lines.len(), |k: int| lines[k]@)
}

/// Splits `source` into its lines.
pub fn split_lines(source: &str) -> (lines: Vec<Vec<char>>)
    ensures
        line_views(lines@) == lines_of(source@),
{
    let chars = to_chars(source);
    let mut lines: Vec<Vec<char>> = Vec::new();
    let mut start: usize = 0;
    while start < chars.len()
        invariant
            chars@ == source@,
            start <= chars@.len(),
            line_views(lines@) + lines_from(chars@, start as int) == lines_of(chars@),
        decreases chars@.len() - start,
    {
        let end = find_run_end(chars.as_slice(), start, CharClass::LineBody);
        let mut line: Vec<char> = Vec::new();
        let mut i: usize = start;
        while i < end
            invariant
                start <= i <= end <= chars@.len(),
                line@ == chars@.subrange(start as int, i as int),
            decreases end - i,
        {
            line.push(chars[i]);
            i += 1;
        }
        proof {
            let ghost before = line_views(lines@);
            let ghost rest = lines_from(chars@, end + 1);
            assert(lines_from(chars@, start as int) == seq![line@] + rest);
            assert(end == chars@.len() ==> rest == lines_from(chars@, end as int));
            assert(line_views(lines@.push(line)) == before.push(line@));
            assert(before.push(line@) + rest == before + (seq![line@] + rest));
        }
        lines.push(line);
        start = if end < chars.len() {
            end + 1
        } else {
            end
        };
    }
    proof {
        assert(lines_from(chars@, start as int) == Seq::<Seq<char>>::empty());
        assert(line_views(lines@) + Seq::<Seq<char>>::empty() == line_views(lines@));
    }
    lines
}

/// The string of the single character `ch`.
fn single(ch: char) -> (text: String)
    ensures
        text@ == seq![ch],
{
    let mut text = String::new();
    text.push(ch);
    text
}

/// The literal of a token that has none.
fn no_literal() -> (text: String)
    ensures
        text@ == absent_literal(),
{
    String::from_str("null")
}

impl Lexer {
    /// A session on `source`, with nothing scanned yet.
    pub fn new(source: String) -> (lexer: Lexer)
        ensures
            lexer@ == LexerView::fresh(source@),
    {
        let lexer = Lexer {
            source,
            tokens: Vec::new(),
            diagnostics: Vec::new(),
            line: 0,
            error_code: 0,
        };
        assert(lexer@.tokens == Seq::<TokenView>::empty());
        assert(lexer@.diagnostics == Seq::<DiagnosticView>::empty());
        lexer
    }

    /// The source text.
    pub fn source(&self) -> (source: &String)
        ensures
            source@ == self@.source,
    {
        &self.source
    }

    /// The tokens gathered so far, in source order.
    pub fn tokens(&self) -> (tokens: &Vec<Token>)
        ensures
            token_views(tokens@) == self@.tokens,
    {
        &self.tokens
    }

    /// The diagnostics recorded so far, in the order in which the scan met
    /// them.
    pub fn diagnostics(&self) -> (diagnostics: &Vec<Diagnostic>)
        ensures
            diagnostic_views(diagnostics@) == self@.diagnostics,
    {
        &self.diagnostics
    }

    /// The status of the session: zero while no diagnostic was recorded,
    /// [`LEXICAL_ERROR`] once one was.
    pub fn error_code(&self) -> (code: u8)
        ensures
            code == self@.error_code,
    {
        self.error_code
    }

    /// The end-of-input marker. It is made on request and never stored
    /// among the tokens.
    pub fn end_of_input(&self) -> (token: Token)
        ensures
            token@ == self@.end_of_input(),
    {
        let line: usize = if self.line == 0 {
            1
        } else {
            self.line
        };
        Token::new(TokenType::EOF, String::new(), no_literal(), line)
    }

    /// The tokens written out, one to a line, with the end-of-input marker
    /// on the last line.
    pub fn listing(&self) -> (text: String)
        ensures
            text@ == listing_text(self@.tokens.push(self@.end_of_input())),
    {
        let mut text = String::new();
        let mut i: usize = 0;
        while i < self.tokens.len()
            invariant
                i <= self.tokens@.len(),
                text@ == listing_text(token_views(self.tokens@).take(i as int)),
            decreases self.tokens@.len() - i,
        {
            proof {
                let ghost upto = token_views(self.tokens@).take(i + 1);
                assert(upto.drop_last() == token_views(self.tokens@).take(i as int));
                assert(upto.last() == self.tokens@[i as int]@);
            }
            text.append(self.tokens[i].render().as_str());
            text.push('\n');
            i += 1;
        }
        proof {
            let ghost all = self@.tokens.push(self@.end_of_input());
            assert(token_views(self.tokens@).take(i as int) == self@.tokens);
            assert(all.drop_last() == self@.tokens);
        }
        text.append(self.end_of_input().render().as_str());
        text.push('\n');
        text
    }

    /// Records `diagnostic` and marks the session as failed.
    fn record(&mut self, diagnostic: Diagnostic)
        ensures
            final(self)@ == old(self)@.with_diagnostic(diagnostic@),
    {
        self.diagnostics.push(diagnostic);
        self.error_code = LEXICAL_ERROR;
        assert(diagnostic_views(self.diagnostics@) == diagnostic_views(old(self).diagnostics@).push(
            diagnostic@,
        ));
    }

    /// Scans the one- or two-character operator that starts with `ch`,
    /// which was just consumed: the longest match, with the one-character
    /// token to fall back on. Two slashes make the comment marker.
    pub fn scan_comparison_operator(&mut self, line: usize, ch: char, cursor: &mut Cursor) -> (token:
        Option<Token>)
        requires
            is_operator_start(ch),
        ensures
            final(cursor).text() == old(cursor).text(),
            final(cursor).position() == operator_end(
                ch,
                old(cursor).text(),
                old(cursor).position(),
            ),
            delivers(
                old(self)@,
                Outcome::Token(
                    operator_token(ch, old(cursor).text(), old(cursor).position(), line as nat),
                ),
                final(self)@,
                token,
            ),
    {
        proof {
            cursor.lemma_position_in_line();
        }
        let second: char = if ch == '/' {
            '/'
        } else {
            '='
        };
        let paired = match cursor.peek() {
            Some(next) => next == second,
            None => false,
        };
        let token_type = if ch == '!' {
            if paired {
                TokenType::BANG_EQUAL
            } else {
                TokenType::BANG
            }
        } else if ch == '=' {
            if paired {
                TokenType::EQUAL_EQUAL
            } else {
                TokenType::EQUAL
            }
        } else if ch == '<' {
            if paired {
                TokenType::LESS_EQUAL
            } else {
                TokenType::LESS
            }
        } else if ch == '>' {
            if paired {
                TokenType::GREATER_EQUAL
            } else {
                TokenType::GREATER
            }
        } else {
            if paired {
                TokenType::COMMENT
            } else {
                TokenType::SLASH
            }
        };
        let mut lexeme = single(ch);
        if paired {
            cursor.take_into(1, &mut lexeme);
        }
        Some(Token::new(token_type, lexeme, no_literal(), line))
    }

    /// Scans the string whose opening quote was just consumed. Where the
    /// line holds a closing quote, the token has both quotes in its lexeme
    /// and what stands between them as its literal. Where it holds none,
    /// the rest of the line is dropped and a diagnostic recorded.
    pub fn scan_string(&mut self, line: usize, cursor: &mut Cursor) -> (token: Option<Token>)
        ensures
            final(cursor).text() == old(cursor).text(),
            final(cursor).position() == string_end(old(cursor).text(), old(cursor).position()),
            delivers(
                old(self)@,
                string_unit(old(cursor).text(), old(cursor).position(), line as nat),
                final(self)@,
                token,
            ),
    {
        proof {
            cursor.lemma_position_in_line();
        }
        let body = cursor.extent(0, CharClass::StringBody);
        let closed = cursor.peek_ahead(body).is_some();
        let mut string = String::new();
        cursor.take_into(body, &mut string);
        if closed {
            let mut lexeme = single('"');
            lexeme.append(string.as_str());
            cursor.take_into(1, &mut lexeme);
            proof {
                let ghost s = old(cursor).text();
                let ghost i = old(cursor).position();
                assert(lexeme@ == seq!['"'] + s.subrange(i, string_end(s, i)));
            }
            Some(Token::new(TokenType::STRING, lexeme, string, line))
        } else {
            self.record(Diagnostic::new(DiagnosticKind::UnterminatedString, line));
            None
        }
    }

    /// Scans the number whose first digit `ch` was just consumed. The cursor
    /// looks ahead for the whole extent of the number and then consumes it
    /// in one step.
    pub fn scan_number(&mut self, line: usize, ch: char, cursor: &mut Cursor) -> (token: Option<
        Token,
    >)
        ensures
            final(cursor).text() == old(cursor).text(),
            final(cursor).position() == number_end(old(cursor).text(), old(cursor).position()),
            delivers(
                old(self)@,
                Outcome::Token(
                    number_token(ch, old(cursor).text(), old(cursor).position(), line as nat),
                ),
                final(self)@,
                token,
            ),
    {
        proof {
            cursor.lemma_position_in_line();
        }
        let whole = cursor.extent(0, CharClass::Digit);
        let mut extent = whole;
        if cursor.peek_ahead(whole) == Some('.') {
            let fraction_starts = match cursor.peek_ahead(whole + 1) {
                Some(next) => CharClass::Digit.contains(next),
                None => false,
            };
            if fraction_starts {
                extent = cursor.extent(whole + 1, CharClass::Digit);
            }
        }
        let mut lexeme = single(ch);
        cursor.take_into(extent, &mut lexeme);
        let literal = Lexer::format_float_from_string(lexeme.clone());
        Some(Token::new(TokenType::NUMBER, lexeme, literal, line))
    }

    /// The literal of a number: the canonical decimal form of `value`.
    pub fn format_float_from_string(value: String) -> (literal: String)
        ensures
            literal@ == canonical_number(value@),
    {
        let chars = to_chars(value.as_str());
        normalize(chars.as_slice())
    }

    /// Scans the word whose first character was just consumed: the longest
    /// run of letters, digits and underscores, looked up among the reserved
    /// words as a whole.
    pub fn scan_identifier(&mut self, line: usize, first_char: char, cursor: &mut Cursor) -> (token:
        Option<Token>)
        ensures
            final(cursor).text() == old(cursor).text(),
            final(cursor).position() == word_end(old(cursor).text(), old(cursor).position()),
            delivers(
                old(self)@,
                Outcome::Token(
                    word_token(
                        first_char,
                        old(cursor).text(),
                        old(cursor).position(),
                        line as nat,
                    ),
                ),
                final(self)@,
                token,
            ),
    {
        proof {
            cursor.lemma_position_in_line();
        }
        let extent = cursor.extent(0, CharClass::Word);
        let mut identifier = single(first_char);
        cursor.take_into(extent, &mut identifier);
        let token_type = match lookup(identifier.as_str()) {
            Some(reserved) => reserved,
            None => TokenType::IDENTIFIER,
        };
        Some(Token::new(token_type, identifier, no_literal(), line))
    }

    /// Dispatches on `ch`, the character that was just consumed, and scans
    /// the unit that it starts. A token is handed out. An error is recorded
    /// and costs only the characters of the failed unit: the scan goes on
    /// behind it.
    pub fn scan_token(&mut self, line: usize, ch: char, cursor: &mut Cursor) -> (token: Option<
        Token,
    >)
        ensures
            final(cursor).text() == old(cursor).text(),
            final(cursor).position() == unit_end(ch, old(cursor).text(), old(cursor).position()),
            delivers(
                old(self)@,
                scan_unit(ch, old(cursor).text(), old(cursor).position(), line as nat),
                final(self)@,
                token,
            ),
    {
        if is_whitespace(ch) {
            return None;
        }
        match ch {
            '(' => Some(Token::new(TokenType::LEFT_PAREN, single(ch), no_literal(), line)),
            ')' => Some(Token::new(TokenType::RIGHT_PAREN, single(ch), no_literal(), line)),
            '{' => Some(Token::new(TokenType::LEFT_BRACE, single(ch), no_literal(), line)),
            '}' => Some(Token::new(TokenType::RIGHT_BRACE, single(ch), no_literal(), line)),
            ',' => Some(Token::new(TokenType::COMMA, single(ch), no_literal(), line)),
            '.' => Some(Token::new(TokenType::DOT, single(ch), no_literal(), line)),
            '-' => Some(Token::new(TokenType::MINUS, single(ch), no_literal(), line)),
            '+' => Some(Token::new(TokenType::PLUS, single(ch), no_literal(), line)),
            ';' => Some(Token::new(TokenType::SEMICOLON, single(ch), no_literal(), line)),
            '*' => Some(Token::new(TokenType::STAR, single(ch), no_literal(), line)),
            '!' | '=' | '<' | '>' | '/' => self.scan_comparison_operator(line, ch, cursor),
            '"' => self.scan_string(line, cursor),
            _ => {
                if CharClass::Digit.contains(ch) {
                    self.scan_number(line, ch, cursor)
                } else if CharClass::Word.contains(ch) {
                    self.scan_identifier(line, ch, cursor)
                } else {
                    self.record(Diagnostic::new(DiagnosticKind::UnexpectedCharacter(ch), line));
                    None
                }
            },
        }
    }

    /// Scans one line, whose number is `line`: appends its tokens to the
    /// tokens of the session and its diagnostics to the diagnostics. A
    /// comment ends the scan of the line.
    pub fn scan_line(&mut self, text: &[char], line: usize)
        ensures
            final(self)@.source == old(self)@.source,
            final(self)@.line == old(self)@.line,
            final(self)@.tokens == old(self)@.tokens + line_tokens(text@, 0, line as nat),
            final(self)@.diagnostics == old(self)@.diagnostics + line_diagnostics(
                text@,
                0,
                line as nat,
            ),
            final(self)@.error_code == if line_diagnostics(text@, 0, line as nat).len() == 0 {
                old(self)@.error_code
            } else {
                LEXICAL_ERROR
            },
    {
        let mut cursor = Cursor::new(text);
        loop
            invariant_except_break
                self@.tokens + line_tokens(text@, cursor.position(), line as nat) == old(
                    self,
                )@.tokens + line_tokens(text@, 0, line as nat),
                self@.diagnostics + line_diagnostics(text@, cursor.position(), line as nat) == old(
                    self,
                )@.diagnostics + line_diagnostics(text@, 0, line as nat),
            invariant
                cursor.text() == text@,
                0 <= cursor.position() <= text@.len(),
                self@.source == old(self)@.source,
                self@.line == old(self)@.line,
                self@.error_code == if self@.diagnostics.len() == old(self)@.diagnostics.len() {
                    old(self)@.error_code
                } else {
                    LEXICAL_ERROR
                },
                self@.diagnostics.len() >= old(self)@.diagnostics.len(),
            ensures
                self@.source == old(self)@.source,
                self@.line == old(self)@.line,
                self@.tokens == old(self)@.tokens + line_tokens(text@, 0, line as nat),
                self@.diagnostics == old(self)@.diagnostics + line_diagnostics(
                    text@,
                    0,
                    line as nat,
                ),
                self@.error_code == if self@.diagnostics.len() == old(self)@.diagnostics.len() {
                    old(self)@.error_code
                } else {
                    LEXICAL_ERROR
                },
            decreases text@.len() - cursor.position(),
        {
            let ghost at = cursor.position();
            let ghost tokens_before = self@.tokens;
            let ghost diagnostics_before = self@.diagnostics;
            let ghost tokens_ahead = line_tokens(text@, at, line as nat);
            let ghost diagnostics_ahead = line_diagnostics(text@, at, line as nat);
            match cursor.advance() {
                None => {
                    assert(tokens_before + tokens_ahead == tokens_before);
                    assert(diagnostics_before + diagnostics_ahead == diagnostics_before);
                    break ;
                },
                Some(ch) => {
                    proof {
                        lemma_next_position(text@, at);
                    }
                    match self.scan_token(line, ch, &mut cursor) {
                        Some(token) => {
                            if token.token_type == TokenType::COMMENT {
                                proof {
                                    lemma_comment_marker(ch, text@, at + 1, line as nat);
                                    assert(is_comment(text@, at));
                                    assert(line_tokens(text@, text@.len() as int, line as nat)
                                        == Seq::<TokenView>::empty());
                                    assert(line_diagnostics(
                                        text@,
                                        text@.len() as int,
                                        line as nat,
                                    ) == Seq::<DiagnosticView>::empty());
                                }
                                assert(tokens_before + tokens_ahead == tokens_before);
                                assert(diagnostics_before + diagnostics_ahead
                                    == diagnostics_before);
                                break ;
                            }
                            let ghost rest = line_tokens(text@, cursor.position(), line as nat);
                            proof {
                                lemma_comment_marker(ch, text@, at + 1, line as nat);
                            }
                            assert(tokens_ahead == seq![token@] + rest);
                            assert(tokens_before.push(token@) + rest == tokens_before + (
                            seq![token@] + rest));
                            self.tokens.push(token);
                            assert(self@.tokens == tokens_before.push(token@));
                        },
                        None => {
                            let ghost rest = line_diagnostics(
                                text@,
                                cursor.position(),
                                line as nat,
                            );
                            assert(self@.diagnostics != diagnostics_before ==> self@.diagnostics
                                + rest == diagnostics_before + (seq![self@.diagnostics.last()]
                                + rest));
                        },
                    }
                },
            }
        }
    }

    /// Scans the whole source text, line by line. Whatever the session held
    /// from an earlier scan is dropped first, so that the outcome depends
    /// on the source text alone: its tokens in source order, its
    /// diagnostics in the order met, and the status that goes with them.
    pub fn tokenize(&mut self)
        ensures
            final(self)@ == LexerView::scanned(old(self)@.source),
    {
        let lines = split_lines(self.source.as_str());
        self.tokens = Vec::new();
        self.diagnostics = Vec::new();
        self.error_code = 0;
        self.line = 0;
        let ghost all = lines_of(self@.source);
        assert(self@.tokens == Seq::<TokenView>::empty());
        assert(self@.diagnostics == Seq::<DiagnosticView>::empty());
        assert(self@.tokens + tokens_of_lines(all, 0, 1) == tokens_of_lines(all, 0, 1));
        assert(self@.diagnostics + diagnostics_of_lines(all, 0, 1) == diagnostics_of_lines(
            all,
            0,
            1,
        ));
        let mut k: usize = 0;
        while k < lines.len()
            invariant
                k <= lines@.len(),
                line_views(lines@) == all,
                all == lines_of(old(self)@.source),
                self@.source == old(self)@.source,
                self@.line == k,
                self@.tokens + tokens_of_lines(all, k as int, (k + 1) as nat) == tokens_of_lines(
                    all,
                    0,
                    1,
                ),
                self@.diagnostics + diagnostics_of_lines(all, k as int, (k + 1) as nat)
                    == diagnostics_of_lines(all, 0, 1),
                self@.error_code == status_of(self@.diagnostics.len()),
            decreases lines@.len() - k,
        {
            let ghost tokens_before = self@.tokens;
            let ghost diagnostics_before = self@.diagnostics;
            let ghost here = all[k as int];
            let ghost line = (k + 1) as nat;
            assert(lines@[k as int]@ == here);
            self.scan_line(lines[k].as_slice(), k + 1);
            self.line = k + 1;
            proof {
                let ghost tokens_after = tokens_of_lines(all, k + 1, line + 1);
                let ghost diagnostics_after = diagnostics_of_lines(all, k + 1, line + 1);
                assert((tokens_before + line_tokens(here, 0, line)) + tokens_after == tokens_before
                    + (line_tokens(here, 0, line) + tokens_after));
                assert((diagnostics_before + line_diagnostics(here, 0, line)) + diagnostics_after
                    == diagnostics_before + (line_diagnostics(here, 0, line) + diagnostics_after));
            }
            k += 1;
        }
        proof {
            assert(self@.tokens + Seq::<TokenView>::empty() == self@.tokens);
            assert(self@.diagnostics + Seq::<DiagnosticView>::empty() == self@.diagnostics);
        }
    }
}

} // verus!
