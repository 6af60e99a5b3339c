//! The scanner as mathematics: what each line, and each source text, is cut
//! into.
//!
//! A line is a sequence of characters and a position in it is an index. The
//! scanner takes the character at a position and decides, from that
//! character and from what follows it, which unit starts there and where
//! the unit ends.

use vstd::prelude::*;
use crate::classes::{is_alpha, is_blank, is_digit, lemma_run_end, run_end, CharClass};
use crate::diagnostic::{diagnostic_at, DiagnosticKind, DiagnosticView};
use crate::keywords::word_kind;
use crate::number::canonical_number;
use crate::token::{absent_literal, TokenType, TokenView};

verus! {

/// The kind of a punctuation character; `None` for any other character.
pub open spec fn punctuation(ch: char) -> Option<TokenType> {
    if ch == '(' {
        Some(TokenType::LEFT_PAREN)
    } else if ch == ')' {
        Some(TokenType::RIGHT_PAREN)
    } else if ch == '{' {
        Some(TokenType::LEFT_BRACE)
    } else if ch == '}' {
        Some(TokenType::RIGHT_BRACE)
    } else if ch == ',' {
        Some(TokenType::COMMA)
    } else if ch == '.' {
        Some(TokenType::DOT)
    } else if ch == '-' {
        Some(TokenType::MINUS)
    } else if ch == '+' {
        Some(TokenType::PLUS)
    } else if ch == ';' {
        Some(TokenType::SEMICOLON)
    } else if ch == '*' {
        Some(TokenType::STAR)
    } else {
        None
    }
}

/// The characters that start a one- or two-character operator, or the
/// comment marker.
pub open spec fn is_operator_start(ch: char) -> bool {
    ch == '!' || ch == '=' || ch == '<' || ch == '>' || ch == '/'
}

/// Whether `next`, coming right after the operator start `ch`, makes a
/// two-character unit with it: `=` after `!`, `=`, `<` and `>`, and `/`
/// after `/`.
pub open spec fn completes(ch: char, next: char) -> bool {
    if ch == '/' {
        next == '/'
    } else {
        next == '='
    }
}

/// Whether the operator start `ch` is completed by the character at `i`.
pub open spec fn is_paired(ch: char, s: Seq<char>, i: int) -> bool {
    0 <= i < s.len() && completes(ch, s[i])
}

/// The kind of the unit that the operator start `ch` makes, with the
/// character that completes it or alone.
pub open spec fn operator_kind(ch: char, paired: bool) -> TokenType {
    if ch == '!' {
        if paired {
            TokenType::BANG_EQUAL
        } else {
            TokenType::BANG
        }
    } else if ch == '=' {
        if paired {
            TokenType::EQUAL_EQUAL
        } else {
            TokenType::EQUAL
        }
    } else if ch == '<' {
        if paired {
            TokenType::LESS_EQUAL
        } else {
            TokenType::LESS
        }
    } else if ch == '>' {
        if paired {
            TokenType::GREATER_EQUAL
        } else {
            TokenType::GREATER
        }
    } else {
        if paired {
            TokenType::COMMENT
        } else {
            TokenType::SLASH
        }
    }
}

/// The text of a unit whose first character is `ch` and whose other
/// characters are those of `s` from `i` up to `end`.
pub open spec fn unit_text(ch: char, s: Seq<char>, i: int, end: int) -> Seq<char> {
    seq![ch] + s.subrange(i, end)
}

/// A token without a literal.
pub open spec fn plain_token(token_type: TokenType, lexeme: Seq<char>, line: nat) -> TokenView {
    TokenView { token_type, lexeme, literal: absent_literal(), line }
}

/// Where the operator ends that starts with `ch` just before `i`: after the
/// character that completes it, where there is one.
pub open spec fn operator_end(ch: char, s: Seq<char>, i: int) -> int {
    if is_paired(ch, s, i) {
        i + 1
    } else {
        i
    }
}

/// The token of the operator that starts with `ch` just before `i`: the
/// longest match, which is two characters where the next one completes `ch`
/// and one character else.
pub open spec fn operator_token(ch: char, s: Seq<char>, i: int, line: nat) -> TokenView {
    plain_token(
        operator_kind(ch, is_paired(ch, s, i)),
        unit_text(ch, s, i, operator_end(ch, s, i)),
        line,
    )
}

/// Whether the string opened just before `i` is closed on its line.
pub open spec fn is_terminated(s: Seq<char>, i: int) -> bool {
    run_end(s, i, CharClass::StringBody) < s.len()
}

/// Where the string ends that was opened just before `i`: after its closing
/// quote, or at the end of the line where it has none.
pub open spec fn string_end(s: Seq<char>, i: int) -> int {
    if is_terminated(s, i) {
        run_end(s, i, CharClass::StringBody) + 1
    } else {
        run_end(s, i, CharClass::StringBody)
    }
}

/// The token of the string opened just before `i` and closed on its line:
/// the lexeme has both quotes, the literal is what stands between them.
pub open spec fn string_token(s: Seq<char>, i: int, line: nat) -> TokenView {
    TokenView {
        token_type: TokenType::STRING,
        lexeme: unit_text('"', s, i, string_end(s, i)),
        literal: s.subrange(i, run_end(s, i, CharClass::StringBody)),
        line,
    }
}

/// What the string is that was opened just before `i`: a token where the
/// line closes it, and else the error of an unterminated string, which
/// takes the rest of the line with it.
pub open spec fn string_unit(s: Seq<char>, i: int, line: nat) -> Outcome {
    if is_terminated(s, i) {
        Outcome::Token(string_token(s, i, line))
    } else {
        Outcome::Error(diagnostic_at(DiagnosticKind::UnterminatedString, line))
    }
}

/// Where a number ends whose first digit stands just before `i`: after the
/// digits that follow and, where a dot and at least one digit come next,
/// after that dot and its digits. A dot with no digit behind it is left
/// for the next unit, and so is a second dot.
pub open spec fn number_end(s: Seq<char>, i: int) -> int {
    let whole_end = run_end(s, i, CharClass::Digit);
    if whole_end + 1 < s.len() && s[whole_end] == '.' && is_digit(s[whole_end + 1]) {
        run_end(s, whole_end + 1, CharClass::Digit)
    } else {
        whole_end
    }
}

/// The token of the number whose first digit `ch` stands just before `i`:
/// the literal is the canonical form of the lexeme.
pub open spec fn number_token(ch: char, s: Seq<char>, i: int, line: nat) -> TokenView {
    let lexeme = unit_text(ch, s, i, number_end(s, i));
    TokenView { token_type: TokenType::NUMBER, lexeme, literal: canonical_number(lexeme), line }
}

/// Where a word ends whose first character stands just before `i`: after
/// the letters, digits and underscores that follow.
pub open spec fn word_end(s: Seq<char>, i: int) -> int {
    run_end(s, i, CharClass::Word)
}

/// The token of the word whose first character `ch` stands just before
/// `i`: a reserved word where the whole word spells one, else an
/// identifier.
pub open spec fn word_token(ch: char, s: Seq<char>, i: int, line: nat) -> TokenView {
    let lexeme = unit_text(ch, s, i, word_end(s, i));
    plain_token(word_kind(lexeme), lexeme, line)
}

/// Where the unit ends that starts with `ch`, when `ch` stands just before
/// `i` in the line `s`: the position of the first character after it.
pub open spec fn unit_end(ch: char, s: Seq<char>, i: int) -> int {
    if is_operator_start(ch) {
        operator_end(ch, s, i)
    } else if ch == '"' {
        string_end(s, i)
    } else if is_digit(ch) {
        number_end(s, i)
    } else if is_alpha(ch) {
        word_end(s, i)
    } else {
        i
    }
}

/// What the scanner makes of one unit.
pub enum Outcome {
    /// A blank character: nothing.
    Blank,
    /// A token.
    Token(TokenView),
    /// An error, recorded in place of a token.
    Error(DiagnosticView),
}

/// What the unit is that starts with `ch`, when `ch` stands just before `i`
/// in the line `s`. The rules, first match first:
/// a blank character is skipped;
/// a punctuation character is its own token;
/// an operator start makes the two-character token with the character that
/// completes it, else the one-character token;
/// a double quote opens a string, which runs to the next double quote, and
/// is an error where the line has none;
/// a digit starts a number; a letter or underscore starts a word;
/// any other character is an error, and only that character is dropped.
pub open spec fn scan_unit(ch: char, s: Seq<char>, i: int, line: nat) -> Outcome {
    if is_blank(ch) {
        Outcome::Blank
    } else {
        match punctuation(ch) {
            Some(kind) => Outcome::Token(plain_token(kind, seq![ch], line)),
            None => if is_operator_start(ch) {
                Outcome::Token(operator_token(ch, s, i, line))
            } else if ch == '"' {
                string_unit(s, i, line)
            } else if is_digit(ch) {
                Outcome::Token(number_token(ch, s, i, line))
            } else if is_alpha(ch) {
                Outcome::Token(word_token(ch, s, i, line))
            } else {
                Outcome::Error(diagnostic_at(DiagnosticKind::UnexpectedCharacter(ch), line))
            },
        }
    }
}

/// A unit ends at or after the position that follows its first character,
/// and inside the line.
pub proof fn lemma_unit_end_in_line(ch: char, s: Seq<char>, i: int)
    requires
        0 <= i <= s.len(),
    ensures
        i <= unit_end(ch, s, i) <= s.len(),
{
    lemma_run_end(s, i, CharClass::StringBody);
    lemma_run_end(s, i, CharClass::Word);
    lemma_run_end(s, i, CharClass::Digit);
    let whole_end = run_end(s, i, CharClass::Digit);
    if whole_end + 1 < s.len() {
        lemma_run_end(s, whole_end + 1, CharClass::Digit);
    }
}

/// Whether a comment starts at `i`: two slashes in a row.
pub open spec fn is_comment(s: Seq<char>, i: int) -> bool {
    0 <= i < s.len() && s[i] == '/' && is_paired('/', s, i + 1)
}

/// Only two slashes make the comment marker.
pub proof fn lemma_comment_marker(ch: char, s: Seq<char>, i: int, line: nat)
    ensures
        scan_unit(ch, s, i, line) matches Outcome::Token(token) && token.token_type
            == TokenType::COMMENT <==> ch == '/' && is_paired('/', s, i),
{
}

/// The position at which the scan of the line `s` goes on after it has
/// dealt with position `i`: at a comment, the end of the line; else the end
/// of the unit that starts at `i`.
pub open spec fn next_position(s: Seq<char>, i: int) -> int {
    if is_comment(s, i) {
        s.len() as int
    } else {
        unit_end(s[i], s, i + 1)
    }
}

/// The token, if any, that position `i` of the line `s` contributes: none
/// for a blank character, for a comment and for an error.
pub open spec fn token_at(s: Seq<char>, i: int, line: nat) -> Option<TokenView> {
    if is_comment(s, i) {
        None
    } else {
        match scan_unit(s[i], s, i + 1, line) {
            Outcome::Token(token) => Some(token),
            _ => None,
        }
    }
}

/// The diagnostic, if any, that position `i` of the line `s` contributes.
pub open spec fn diagnostic_at_position(s: Seq<char>, i: int, line: nat) -> Option<
    DiagnosticView,
> {
    if is_comment(s, i) {
        None
    } else {
        match scan_unit(s[i], s, i + 1, line) {
            Outcome::Error(diagnostic) => Some(diagnostic),
            _ => None,
        }
    }
}

/// The scan always moves forward and stays inside the line.
pub proof fn lemma_next_position(s: Seq<char>, i: int)
    requires
        0 <= i < s.len(),
    ensures
        i < next_position(s, i) <= s.len(),
{
    lemma_unit_end_in_line(s[i], s, i + 1);
}

/// The tokens of the line `s` from position `i` on, in order. `line` is the
/// number that each of them carries.
pub open spec fn line_tokens(s: Seq<char>, i: int, line: nat) -> Seq<TokenView>
    decreases s.len() - i,
    via line_tokens_decreases
{
    if 0 <= i < s.len() {
        let rest = line_tokens(s, next_position(s, i), line);
        match token_at(s, i, line) {
            Some(token) => seq![token] + rest,
            None => rest,
        }
    } else {
        Seq::empty()
    }
}

#[via_fn]
proof fn line_tokens_decreases(s: Seq<char>, i: int, line: nat) {
    if 0 <= i < s.len() {
        lemma_next_position(s, i);
    }
}

/// The diagnostics of the line `s` from position `i` on, in order.
pub open spec fn line_diagnostics(s: Seq<char>, i: int, line: nat) -> Seq<DiagnosticView>
    decreases s.len() - i,
    via line_diagnostics_decreases
{
    if 0 <= i < s.len() {
        let rest = line_diagnostics(s, next_position(s, i), line);
        match diagnostic_at_position(s, i, line) {
            Some(diagnostic) => seq![diagnostic] + rest,
            None => rest,
        }
    } else {
        Seq::empty()
    }
}

#[via_fn]
proof fn line_diagnostics_decreases(s: Seq<char>, i: int, line: nat) {
    if 0 <= i < s.len() {
        lemma_next_position(s, i);
    }
}

/// The lines of `src` from position `start` on. A line runs up to the next
/// line feed, which ends it and belongs to no line; the last line needs
/// none. A carriage return before the line feed stays in the line, where it
/// is a blank character.
pub open spec fn lines_from(src: Seq<char>, start: int) -> Seq<Seq<char>>
    decreases src.len() + 1 - start,
    via lines_from_decreases
{
    if 0 <= start < src.len() {
        let end = run_end(src, start, CharClass::LineBody);
        seq![src.subrange(start, end)] + lines_from(src, end + 1)
    } else {
        Seq::empty()
    }
}

#[via_fn]
proof fn lines_from_decreases(src: Seq<char>, start: int) {
    if 0 <= start < src.len() {
        lemma_run_end(src, start, CharClass::LineBody);
    }
}

/// The lines of `src`. Empty text has no line.
pub open spec fn lines_of(src: Seq<char>) -> Seq<Seq<char>> {
    lines_from(src, 0)
}

/// The tokens of the lines from the `k`-th on, where that line has the
/// number `line` and each further line the next number.
pub open spec fn tokens_of_lines(lines: Seq<Seq<char>>, k: int, line: nat) -> Seq<TokenView>
    decreases lines.len() - k,
{
    if 0 <= k < lines.len() {
        line_tokens(lines[k], 0, line) + tokens_of_lines(lines, k + 1, line + 1)
    } else {
        Seq::empty()
    }
}

/// The diagnostics of the lines from the `k`-th on, where that line has the
/// number `line` and each further line the next number.
pub open spec fn diagnostics_of_lines(lines: Seq<Seq<char>>, k: int, line: nat) -> Seq<
    DiagnosticView,
>
    decreases lines.len() - k,
{
    if 0 <= k < lines.len() {
        line_diagnostics(lines[k], 0, line) + diagnostics_of_lines(lines, k + 1, line + 1)
    } else {
        Seq::empty()
    }
}

/// The tokens of a source text: those of its lines, the first of which has
/// the number 1.
pub open spec fn source_tokens(src: Seq<char>) -> Seq<TokenView> {
    tokens_of_lines(lines_of(src), 0, 1)
}

/// The diagnostics of a source text, in the order in which the scan meets
/// them.
pub open spec fn source_diagnostics(src: Seq<char>) -> Seq<DiagnosticView> {
    diagnostics_of_lines(lines_of(src), 0, 1)
}

/// The line number of the end of input: that of the last line, and 1 for
/// empty text.
pub open spec fn end_line(src: Seq<char>) -> nat {
    if lines_of(src).len() == 0 {
        1
    } else {
        lines_of(src).len()
    }
}

/// The end-of-input marker of a source text: no lexeme, no literal.
pub open spec fn end_token(src: Seq<char>) -> TokenView {
    plain_token(TokenType::EOF, Seq::empty(), end_line(src))
}

} // verus!
