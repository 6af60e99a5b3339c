//! What holds of every scan.

use vstd::prelude::*;
use crate::classes::{
    is_alpha, is_blank, is_digit, lemma_run_end, lemma_run_end_unique, run_end, CharClass,
};
use crate::diagnostic::{diagnostic_at, DiagnosticKind, DiagnosticView};
use crate::grammar::{
    diagnostics_of_lines, end_token, is_comment, is_operator_start, is_terminated,
    is_paired, lemma_next_position, line_diagnostics, line_tokens, lines_from, lines_of,
    next_position, number_end, number_token, operator_token, punctuation, source_diagnostics,
    source_tokens, string_token, token_at, tokens_of_lines, unit_text, word_end, word_token,
};
use crate::keywords::reserved_kind;
use crate::number::{canonical_number, is_decimal};
use crate::lexer::LexerView;
use crate::token::{absent_literal, TokenType, TokenView};

verus! {

/// The characters that the scanner knows what to do with at the start of
/// a unit.
pub open spec fn is_known_start(ch: char) -> bool {
    is_blank(ch) || punctuation(ch).is_some() || is_operator_start(ch) || ch == '"' || is_digit(ch)
        || is_alpha(ch)
}

/// Whether the unit at position `i` of the line `s` is an invalid
/// character.
pub open spec fn is_invalid_character(s: Seq<char>, i: int) -> bool {
    !is_known_start(s[i])
}

/// Whether the unit at position `i` of the line `s` is a string that the
/// line does not close.
pub open spec fn is_unterminated_string(s: Seq<char>, i: int) -> bool {
    s[i] == '"' && !is_terminated(s, i + 1)
}

/// Whether the line `s`, scanned from position `i` on, meets neither an
/// invalid character nor an unterminated string. What stands inside a
/// string or behind a comment marker is never met.
pub open spec fn line_is_clean(s: Seq<char>, i: int) -> bool
    decreases s.len() - i,
    via line_is_clean_decreases
{
    if 0 <= i < s.len() {
        &&& !is_invalid_character(s, i)
        &&& !is_unterminated_string(s, i)
        &&& line_is_clean(s, next_position(s, i))
    } else {
        true
    }
}

#[via_fn]
proof fn line_is_clean_decreases(s: Seq<char>, i: int) {
    if 0 <= i < s.len() {
        lemma_next_position(s, i);
    }
}

/// Whether a source text holds neither an invalid character nor an
/// unterminated string.
pub open spec fn source_is_clean(src: Seq<char>) -> bool {
    forall|k: int| 0 <= k < lines_of(src).len() ==> line_is_clean(#[trigger] lines_of(src)[k], 0)
}

/// A line has no diagnostics exactly when it is clean.
pub proof fn lemma_clean_line(s: Seq<char>, i: int, line: nat)
    requires
        0 <= i <= s.len(),
    ensures
        line_is_clean(s, i) <==> line_diagnostics(s, i, line).len() == 0,
    decreases s.len() - i,
{
    if i < s.len() {
        lemma_next_position(s, i);
        lemma_clean_line(s, next_position(s, i), line);
    }
}

/// The lines from the `k`-th on have no diagnostics exactly when each of
/// them is clean.
pub proof fn lemma_clean_lines(lines: Seq<Seq<char>>, k: int, line: nat)
    requires
        0 <= k <= lines.len(),
    ensures
        (forall|j: int| k <= j < lines.len() ==> line_is_clean(#[trigger] lines[j], 0))
            <==> diagnostics_of_lines(lines, k, line).len() == 0,
    decreases lines.len() - k,
{
    if k < lines.len() {
        lemma_clean_line(lines[k], 0, line);
        lemma_clean_lines(lines, k + 1, line + 1);
        if diagnostics_of_lines(lines, k, line).len() == 0 {
            assert forall|j: int| k <= j < lines.len() implies line_is_clean(
                #[trigger] lines[j],
                0,
            ) by {
                if j > k {
                    assert(k + 1 <= j);
                }
            }
        }
    }
}

/// A source text with no invalid character and no unterminated string
/// gives no diagnostic, and the session that scanned it reports success.
/// The other way round, a scan without diagnostics means that the source
/// text was clean.
pub proof fn law_clean_source_scans_without_diagnostics(src: Seq<char>)
    ensures
        source_is_clean(src) <==> source_diagnostics(src).len() == 0,
        source_is_clean(src) ==> LexerView::scanned(src).diagnostics == Seq::<
            DiagnosticView,
        >::empty() && LexerView::scanned(src).error_code == 0,
        !source_is_clean(src) ==> LexerView::scanned(src).error_code != 0,
{
    lemma_clean_lines(lines_of(src), 0, 1);
}

/// Scanning is a function of the source text. Two sessions that were
/// started on the same text and scanned it hold the same tokens, the same
/// diagnostics and the same status; and a session that scans its text once
/// more ends as it was.
pub proof fn law_same_source_same_scan(
    first_before: LexerView,
    first_after: LexerView,
    second_before: LexerView,
    second_after: LexerView,
)
    requires
        first_before.source == second_before.source,
        first_after == LexerView::scanned(first_before.source),
        second_after == LexerView::scanned(second_before.source),
    ensures
        first_after.tokens == second_after.tokens,
        first_after.diagnostics == second_after.diagnostics,
        first_after.error_code == second_after.error_code,
        LexerView::scanned(first_after.source) == first_after,
{
}

/// The end-of-input marker of a session that scanned `src` carries the
/// number of the last line of `src`, and 1 where `src` is empty.
pub proof fn law_end_of_input_stands_on_last_line(src: Seq<char>)
    ensures
        LexerView::scanned(src).end_of_input() == end_token(src),
        src.len() == 0 ==> end_token(src).line == 1,
        src.len() > 0 ==> end_token(src).line == lines_of(src).len() >= 1,
{
}

/// The lexeme of a token is the text of its unit, verbatim: what the line
/// holds from the position of the token to the position at which the scan
/// goes on.
pub proof fn lemma_lexeme_is_verbatim(s: Seq<char>, i: int, line: nat)
    requires
        0 <= i < s.len(),
    ensures
        token_at(s, i, line) matches Some(token) ==> token.lexeme == s.subrange(
            i,
            next_position(s, i),
        ),
{
    lemma_next_position(s, i);
    let end = next_position(s, i);
    assert(seq![s[i]] + s.subrange(i + 1, end) =~= s.subrange(i, end));
    if is_blank(s[i]) || is_comment(s, i) {
    } else if punctuation(s[i]).is_some() {
        assert(end == i + 1);
        assert(seq![s[i]] =~= s.subrange(i, end));
    }
}

/// The text between the tokens of the line `s` from position `i` on: one
/// gap before each token and one after the last. A gap holds, in order,
/// whatever the scan passed over there: blank characters, a comment, and
/// the text of units that failed. Between two tokens that touch, the gap
/// is empty.
pub open spec fn line_gaps(s: Seq<char>, i: int, line: nat) -> Seq<Seq<char>>
    decreases s.len() - i,
    via line_gaps_decreases
{
    if 0 <= i < s.len() {
        let rest = line_gaps(s, next_position(s, i), line);
        match token_at(s, i, line) {
            Some(_) => seq![Seq::empty()] + rest,
            None => widen_first(s.subrange(i, next_position(s, i)), rest),
        }
    } else {
        seq![Seq::empty()]
    }
}

#[via_fn]
proof fn line_gaps_decreases(s: Seq<char>, i: int, line: nat) {
    if 0 <= i < s.len() {
        lemma_next_position(s, i);
    }
}

/// `gaps` with `text` put in front of the first gap.
pub open spec fn widen_first(text: Seq<char>, gaps: Seq<Seq<char>>) -> Seq<Seq<char>> {
    gaps.update(0, text + gaps[0])
}

/// The gaps of two stretches of text that follow one another: the last gap
/// of the first stretch and the first gap of the second are one gap.
pub open spec fn join_gaps(first: Seq<Seq<char>>, second: Seq<Seq<char>>) -> Seq<Seq<char>> {
    first.drop_last() + widen_first(first.last(), second)
}

/// The text between the tokens of `src` from position `start` on, where
/// the line at `start` has the number `line`. The line feeds stand in the
/// gaps.
pub open spec fn source_gaps_from(src: Seq<char>, start: int, line: nat) -> Seq<Seq<char>>
    decreases src.len() + 1 - start,
    via source_gaps_from_decreases
{
    if 0 <= start < src.len() {
        let end = run_end(src, start, CharClass::LineBody);
        let here = line_gaps(src.subrange(start, end), 0, line);
        if end < src.len() {
            join_gaps(here, widen_first(seq!['\n'], source_gaps_from(src, end + 1, line + 1)))
        } else {
            here
        }
    } else {
        seq![Seq::empty()]
    }
}

#[via_fn]
proof fn source_gaps_from_decreases(src: Seq<char>, start: int, line: nat) {
    if 0 <= start < src.len() {
        lemma_run_end(src, start, CharClass::LineBody);
    }
}

/// The text between the tokens of `src`.
pub open spec fn source_gaps(src: Seq<char>) -> Seq<Seq<char>> {
    source_gaps_from(src, 0, 1)
}

/// The lexemes of `tokens` with `gaps` between them: the first gap, then
/// each lexeme followed by the next gap. There is one gap more than there
/// are tokens.
pub open spec fn weave(tokens: Seq<TokenView>, gaps: Seq<Seq<char>>) -> Seq<char>
    decreases tokens.len(),
{
    if tokens.len() == 0 {
        gaps[0]
    } else {
        gaps[0] + tokens[0].lexeme + weave(tokens.drop_first(), gaps.drop_first())
    }
}

/// Text put in front of the first gap comes out in front of the whole.
proof fn lemma_weave_widen_first(text: Seq<char>, tokens: Seq<TokenView>, gaps: Seq<Seq<char>>)
    requires
        gaps.len() == tokens.len() + 1,
    ensures
        weave(tokens, widen_first(text, gaps)) == text + weave(tokens, gaps),
{
    let wide = widen_first(text, gaps);
    if tokens.len() == 0 {
    } else {
        assert(wide.drop_first() =~= gaps.drop_first());
        let rest = weave(tokens.drop_first(), gaps.drop_first());
        assert((text + gaps[0]) + tokens[0].lexeme + rest =~= text + (gaps[0] + tokens[0].lexeme
            + rest));
    }
}

/// Weaving two stretches one after the other weaves their tokens with
/// their joined gaps.
proof fn lemma_weave_join(
    first: Seq<TokenView>,
    first_gaps: Seq<Seq<char>>,
    second: Seq<TokenView>,
    second_gaps: Seq<Seq<char>>,
)
    requires
        first_gaps.len() == first.len() + 1,
        second_gaps.len() == second.len() + 1,
    ensures
        join_gaps(first_gaps, second_gaps).len() == first.len() + second.len() + 1,
        weave(first + second, join_gaps(first_gaps, second_gaps)) == weave(first, first_gaps)
            + weave(second, second_gaps),
    decreases first.len(),
{
    let joined = join_gaps(first_gaps, second_gaps);
    if first.len() == 0 {
        assert(first + second =~= second);
        assert(joined =~= widen_first(first_gaps[0], second_gaps));
        lemma_weave_widen_first(first_gaps[0], second, second_gaps);
    } else {
        lemma_weave_join(first.drop_first(), first_gaps.drop_first(), second, second_gaps);
        assert((first + second).drop_first() =~= first.drop_first() + second);
        assert(joined.drop_first() =~= join_gaps(first_gaps.drop_first(), second_gaps));
        let rest = weave(first.drop_first(), first_gaps.drop_first());
        let tail = weave(second, second_gaps);
        assert(first_gaps[0] + first[0].lexeme + (rest + tail) =~= (first_gaps[0]
            + first[0].lexeme + rest) + tail);
    }
}

/// A line from position `i` on is its tokens' lexemes woven with its gaps.
pub proof fn lemma_line_is_woven(s: Seq<char>, i: int, line: nat)
    requires
        0 <= i <= s.len(),
    ensures
        line_gaps(s, i, line).len() == line_tokens(s, i, line).len() + 1,
        weave(line_tokens(s, i, line), line_gaps(s, i, line)) == s.skip(i),
    decreases s.len() - i,
{
    if i < s.len() {
        let next = next_position(s, i);
        lemma_next_position(s, i);
        lemma_line_is_woven(s, next, line);
        lemma_lexeme_is_verbatim(s, i, line);
        let tokens = line_tokens(s, next, line);
        let gaps = line_gaps(s, next, line);
        assert(s.subrange(i, next) + s.skip(next) =~= s.skip(i));
        match token_at(s, i, line) {
            Some(token) => {
                assert((seq![token] + tokens).drop_first() =~= tokens);
                assert((seq![Seq::<char>::empty()] + gaps).drop_first() =~= gaps);
                assert(Seq::<char>::empty() + token.lexeme + s.skip(next) =~= s.skip(i));
            },
            None => {
                lemma_weave_widen_first(s.subrange(i, next), tokens, gaps);
            },
        }
    } else {
        assert(s.skip(i) =~= Seq::<char>::empty());
    }
}

/// In a sequence of lines with one more line in front, the lines behind
/// the first have the tokens that they have on their own.
proof fn lemma_tokens_behind_first_line(
    head: Seq<char>,
    tail: Seq<Seq<char>>,
    k: int,
    line: nat,
)
    requires
        0 <= k <= tail.len(),
    ensures
        tokens_of_lines(seq![head] + tail, k + 1, line) == tokens_of_lines(tail, k, line),
    decreases tail.len() - k,
{
    let all = seq![head] + tail;
    if k < tail.len() {
        lemma_tokens_behind_first_line(head, tail, k + 1, line + 1);
        assert(all[k + 1] == tail[k]);
    }
}

/// The tokens of the lines of `src` from position `start` on, where the
/// line at `start` has the number `line`.
pub open spec fn tokens_from(src: Seq<char>, start: int, line: nat) -> Seq<TokenView> {
    tokens_of_lines(lines_from(src, start), 0, line)
}

/// A source text from the start of a line on is its tokens' lexemes woven
/// with its gaps.
pub proof fn lemma_source_is_woven(src: Seq<char>, start: int, line: nat)
    requires
        0 <= start <= src.len(),
    ensures
        source_gaps_from(src, start, line).len() == tokens_from(src, start, line).len() + 1,
        weave(tokens_from(src, start, line), source_gaps_from(src, start, line)) == src.skip(
            start,
        ),
    decreases src.len() - start,
{
    if start < src.len() {
        let end = run_end(src, start, CharClass::LineBody);
        lemma_run_end(src, start, CharClass::LineBody);
        let text = src.subrange(start, end);
        let here = line_tokens(text, 0, line);
        let here_gaps = line_gaps(text, 0, line);
        lemma_line_is_woven(text, 0, line);
        assert(text.skip(0) =~= text);
        let tail = lines_from(src, end + 1);
        lemma_tokens_behind_first_line(text, tail, 0, line + 1);
        assert(tokens_from(src, start, line) == here + tokens_from(src, end + 1, line + 1));
        if end < src.len() {
            lemma_source_is_woven(src, end + 1, line + 1);
            let behind = tokens_from(src, end + 1, line + 1);
            let behind_gaps = source_gaps_from(src, end + 1, line + 1);
            lemma_weave_widen_first(seq!['\n'], behind, behind_gaps);
            lemma_weave_join(here, here_gaps, behind, widen_first(seq!['\n'], behind_gaps));
            assert(text + (seq!['\n'] + src.skip(end + 1)) =~= src.skip(start));
        } else {
            assert(tail =~= Seq::<Seq<char>>::empty());
            assert(here + Seq::<TokenView>::empty() =~= here);
            assert(text =~= src.skip(start));
        }
    } else {
        assert(src.skip(start) =~= Seq::<char>::empty());
    }
}

/// The lexemes of all tokens, put back between the stretches of text that
/// the scan passed over, give the source text again, character for
/// character.
pub proof fn law_tokens_and_gaps_rebuild_source(src: Seq<char>)
    ensures
        source_gaps(src).len() == source_tokens(src).len() + 1,
        weave(source_tokens(src), source_gaps(src)) == src,
{
    lemma_source_is_woven(src, 0, 1);
    assert(src.skip(0) =~= src);
}

/// The one spelling of a kind that has one: punctuation, operators and
/// reserved words.
pub open spec fn fixed_spelling(kind: TokenType) -> Option<Seq<char>> {
    match kind {
        TokenType::LEFT_PAREN => Some(seq!['(']),
        TokenType::RIGHT_PAREN => Some(seq![')']),
        TokenType::LEFT_BRACE => Some(seq!['{']),
        TokenType::RIGHT_BRACE => Some(seq!['}']),
        TokenType::COMMA => Some(seq![',']),
        TokenType::DOT => Some(seq!['.']),
        TokenType::MINUS => Some(seq!['-']),
        TokenType::PLUS => Some(seq!['+']),
        TokenType::SEMICOLON => Some(seq![';']),
        TokenType::SLASH => Some(seq!['/']),
        TokenType::STAR => Some(seq!['*']),
        TokenType::BANG => Some(seq!['!']),
        TokenType::BANG_EQUAL => Some(seq!['!', '=']),
        TokenType::EQUAL => Some(seq!['=']),
        TokenType::EQUAL_EQUAL => Some(seq!['=', '=']),
        TokenType::GREATER => Some(seq!['>']),
        TokenType::GREATER_EQUAL => Some(seq!['>', '=']),
        TokenType::LESS => Some(seq!['<']),
        TokenType::LESS_EQUAL => Some(seq!['<', '=']),
        TokenType::AND => Some("and"@),
        TokenType::CLASS => Some("class"@),
        TokenType::ELSE => Some("else"@),
        TokenType::FALSE => Some("false"@),
        TokenType::FUN => Some("fun"@),
        TokenType::FOR => Some("for"@),
        TokenType::IF => Some("if"@),
        TokenType::NIL => Some("nil"@),
        TokenType::OR => Some("or"@),
        TokenType::PRINT => Some("print"@),
        TokenType::RETURN => Some("return"@),
        TokenType::SUPER => Some("super"@),
        TokenType::THIS => Some("this"@),
        TokenType::TRUE => Some("true"@),
        TokenType::VAR => Some("var"@),
        TokenType::WHILE => Some("while"@),
        _ => None,
    }
}

/// Whether `text` is shaped like a word: a letter or underscore, then
/// letters, digits and underscores.
pub open spec fn is_word_text(text: Seq<char>) -> bool {
    &&& text.len() >= 1
    &&& is_alpha(text[0])
    &&& forall|k: int| 0 <= k < text.len() ==> CharClass::Word.has(#[trigger] text[k])
}

/// What holds of every token that a scan gathers.
/// It stands on a line of the text and is not empty. It is neither the
/// comment marker nor the end-of-input marker. A kind with one spelling
/// has that spelling for its lexeme, and no literal. A string has both
/// quotes in its lexeme and no quote in its literal, which is what stands
/// between them. A number is a decimal number, and its literal is the
/// canonical form of its lexeme. An identifier is a word that is not
/// reserved, and has no literal.
pub open spec fn is_well_formed(token: TokenView) -> bool {
    &&& token.line >= 1
    &&& token.lexeme.len() >= 1
    &&& match fixed_spelling(token.token_type) {
        Some(spelling) => token.lexeme == spelling && token.literal == absent_literal(),
        None => match token.token_type {
            TokenType::STRING => {
                &&& token.lexeme == seq!['"'] + token.literal + seq!['"']
                &&& forall|k: int| 0 <= k < token.literal.len() ==> token.literal[k] != '"'
            },
            TokenType::NUMBER => {
                &&& is_decimal(token.lexeme)
                &&& token.lexeme.last() != '.'
                &&& token.literal == canonical_number(token.lexeme)
            },
            TokenType::IDENTIFIER => {
                &&& is_word_text(token.lexeme)
                &&& reserved_kind(token.lexeme).is_none()
                &&& token.literal == absent_literal()
            },
            _ => false,
        },
    }
}

/// The token of a number is well formed.
proof fn lemma_number_is_well_formed(ch: char, s: Seq<char>, i: int, line: nat)
    requires
        0 <= i <= s.len(),
        is_digit(ch),
        line >= 1,
    ensures
        is_well_formed(number_token(ch, s, i, line)),
{
    let whole_end = run_end(s, i, CharClass::Digit);
    let end = number_end(s, i);
    let lexeme = unit_text(ch, s, i, end);
    lemma_run_end(s, i, CharClass::Digit);
    if end != whole_end {
        lemma_run_end(s, whole_end + 1, CharClass::Digit);
    }
    assert(i <= whole_end <= end <= s.len());
    assert(lexeme.len() == end - i + 1);
    assert forall|k: int| 0 <= k < whole_end - i + 1 implies CharClass::Digit.has(
        #[trigger] lexeme[k],
    ) by {
        if k > 0 {
            assert(lexeme[k] == s[i + k - 1]);
        }
    }
    if end == whole_end {
        lemma_run_end_unique(lexeme, 0, CharClass::Digit, lexeme.len() as int);
    } else {
        lemma_run_end(s, whole_end + 1, CharClass::Digit);
        let dot = whole_end - i + 1;
        assert(lexeme[dot] == s[whole_end]);
        lemma_run_end_unique(lexeme, 0, CharClass::Digit, dot);
        assert forall|k: int| dot + 1 <= k < lexeme.len() implies CharClass::Digit.has(
            #[trigger] lexeme[k],
        ) by {
            assert(lexeme[k] == s[i + k - 1]);
        }
        lemma_run_end_unique(lexeme, dot + 1, CharClass::Digit, lexeme.len() as int);
        assert(lexeme.last() == s[end - 1]);
    }
}

/// The token of a word is well formed.
proof fn lemma_word_is_well_formed(ch: char, s: Seq<char>, i: int, line: nat)
    requires
        0 <= i <= s.len(),
        is_alpha(ch),
        line >= 1,
    ensures
        is_well_formed(word_token(ch, s, i, line)),
{
    let lexeme = unit_text(ch, s, i, word_end(s, i));
    lemma_run_end(s, i, CharClass::Word);
    assert forall|k: int| 0 <= k < lexeme.len() implies CharClass::Word.has(
        #[trigger] lexeme[k],
    ) by {
        if k > 0 {
            assert(lexeme[k] == s[i + k - 1]);
        }
    }
}

/// The token of a closed string is well formed.
proof fn lemma_string_is_well_formed(s: Seq<char>, i: int, line: nat)
    requires
        0 <= i <= s.len(),
        is_terminated(s, i),
        line >= 1,
    ensures
        is_well_formed(string_token(s, i, line)),
{
    let token = string_token(s, i, line);
    let quote = run_end(s, i, CharClass::StringBody);
    lemma_run_end(s, i, CharClass::StringBody);
    assert(token.lexeme =~= seq!['"'] + token.literal + seq!['"']);
    assert forall|k: int| 0 <= k < token.literal.len() implies token.literal[k] != '"' by {
        assert(CharClass::StringBody.has(s[i + k]));
    }
}

/// The token of an operator is well formed, unless it is the comment
/// marker.
proof fn lemma_operator_is_well_formed(ch: char, s: Seq<char>, i: int, line: nat)
    requires
        0 <= i <= s.len(),
        is_operator_start(ch),
        !(ch == '/' && is_paired(ch, s, i)),
        line >= 1,
    ensures
        is_well_formed(operator_token(ch, s, i, line)),
{
    let token = operator_token(ch, s, i, line);
    if is_paired(ch, s, i) {
        assert(token.lexeme =~= seq![ch, '=']);
    } else {
        assert(token.lexeme =~= seq![ch]);
    }
}

/// The token at a position of a line is well formed.
pub proof fn lemma_token_at_is_well_formed(s: Seq<char>, i: int, line: nat)
    requires
        0 <= i < s.len(),
        line >= 1,
    ensures
        token_at(s, i, line) matches Some(token) ==> is_well_formed(token) && token.line == line,
{
    let ch = s[i];
    if is_blank(ch) || is_comment(s, i) {
    } else if punctuation(ch).is_some() {
    } else if is_operator_start(ch) {
        lemma_operator_is_well_formed(ch, s, i + 1, line);
    } else if ch == '"' {
        if is_terminated(s, i + 1) {
            lemma_string_is_well_formed(s, i + 1, line);
        }
    } else if is_digit(ch) {
        lemma_number_is_well_formed(ch, s, i + 1, line);
    } else if is_alpha(ch) {
        lemma_word_is_well_formed(ch, s, i + 1, line);
    }
}

/// The tokens of a line are well formed and carry the number of the line.
pub proof fn lemma_line_tokens_are_well_formed(s: Seq<char>, i: int, line: nat)
    requires
        0 <= i <= s.len(),
        line >= 1,
    ensures
        forall|k: int|
            0 <= k < line_tokens(s, i, line).len() ==> is_well_formed(
                #[trigger] line_tokens(s, i, line)[k],
            ) && line_tokens(s, i, line)[k].line == line,
    decreases s.len() - i,
{
    if i < s.len() {
        lemma_next_position(s, i);
        lemma_token_at_is_well_formed(s, i, line);
        lemma_line_tokens_are_well_formed(s, next_position(s, i), line);
    }
}

/// The tokens of the lines from the `k`-th on are well formed, and their
/// line numbers lie between that of the `k`-th line and that of the last.
pub proof fn lemma_tokens_of_lines_are_well_formed(lines: Seq<Seq<char>>, k: int, line: nat)
    requires
        0 <= k <= lines.len(),
        line >= 1,
    ensures
        forall|j: int|
            0 <= j < tokens_of_lines(lines, k, line).len() ==> {
                let token = #[trigger] tokens_of_lines(lines, k, line)[j];
                is_well_formed(token) && line <= token.line < line + lines.len() - k
            },
    decreases lines.len() - k,
{
    if k < lines.len() {
        lemma_line_tokens_are_well_formed(lines[k], 0, line);
        lemma_tokens_of_lines_are_well_formed(lines, k + 1, line + 1);
    }
}

/// Every token of a scan is well formed, and stands on a line of the
/// source text.
pub proof fn law_tokens_are_well_formed(src: Seq<char>)
    ensures
        forall|j: int|
            0 <= j < source_tokens(src).len() ==> {
                let token = #[trigger] source_tokens(src)[j];
                is_well_formed(token) && 1 <= token.line <= lines_of(src).len()
            },
{
    lemma_tokens_of_lines_are_well_formed(lines_of(src), 0, 1);
}

/// The tokens of the lines from the `k`-th on come in the order of their
/// lines.
proof fn lemma_tokens_in_line_order(lines: Seq<Seq<char>>, k: int, line: nat)
    requires
        0 <= k <= lines.len(),
        line >= 1,
    ensures
        forall|i: int, j: int|
            0 <= i <= j < tokens_of_lines(lines, k, line).len() ==> (#[trigger] tokens_of_lines(
                lines,
                k,
                line,
            )[i]).line <= (#[trigger] tokens_of_lines(lines, k, line)[j]).line,
    decreases lines.len() - k,
{
    if k < lines.len() {
        let here = line_tokens(lines[k], 0, line);
        let behind = tokens_of_lines(lines, k + 1, line + 1);
        lemma_line_tokens_are_well_formed(lines[k], 0, line);
        lemma_tokens_of_lines_are_well_formed(lines, k + 1, line + 1);
        lemma_tokens_in_line_order(lines, k + 1, line + 1);
        let all = tokens_of_lines(lines, k, line);
        assert forall|i: int, j: int| 0 <= i <= j < all.len() implies (#[trigger] all[i]).line <= (
        #[trigger] all[j]).line by {
            if i < here.len() {
                assert(all[i] == here[i]);
            } else {
                assert(all[i] == behind[i - here.len()]);
            }
            if j < here.len() {
                assert(all[j] == here[j]);
            } else {
                assert(all[j] == behind[j - here.len()]);
            }
        }
    }
}

/// The tokens of a scan come in source order: none stands on an earlier
/// line than the one before it.
pub proof fn law_tokens_come_in_line_order(src: Seq<char>)
    ensures
        forall|i: int, j: int|
            0 <= i <= j < source_tokens(src).len() ==> (#[trigger] source_tokens(src)[i]).line <= (
            #[trigger] source_tokens(src)[j]).line,
{
    lemma_tokens_in_line_order(lines_of(src), 0, 1);
}

/// What holds of every diagnostic that a scan records: it stands on a
/// line of the text and carries the message of its kind, and a character
/// that it calls unexpected is one that starts no unit.
pub open spec fn is_sound(diagnostic: DiagnosticView) -> bool {
    &&& diagnostic.line >= 1
    &&& diagnostic == diagnostic_at(diagnostic.kind, diagnostic.line)
    &&& diagnostic.kind matches DiagnosticKind::UnexpectedCharacter(ch) ==> !is_known_start(ch)
}

/// The diagnostics of a line are sound and carry the number of the line.
proof fn lemma_line_diagnostics_are_sound(s: Seq<char>, i: int, line: nat)
    requires
        0 <= i <= s.len(),
        line >= 1,
    ensures
        forall|k: int|
            0 <= k < line_diagnostics(s, i, line).len() ==> is_sound(
                #[trigger] line_diagnostics(s, i, line)[k],
            ) && line_diagnostics(s, i, line)[k].line == line,
    decreases s.len() - i,
{
    if i < s.len() {
        lemma_next_position(s, i);
        lemma_line_diagnostics_are_sound(s, next_position(s, i), line);
    }
}

/// The diagnostics of the lines from the `k`-th on are sound, and their
/// line numbers lie between that of the `k`-th line and that of the last.
proof fn lemma_diagnostics_of_lines_are_sound(lines: Seq<Seq<char>>, k: int, line: nat)
    requires
        0 <= k <= lines.len(),
        line >= 1,
    ensures
        forall|j: int|
            0 <= j < diagnostics_of_lines(lines, k, line).len() ==> {
                let diagnostic = #[trigger] diagnostics_of_lines(lines, k, line)[j];
                is_sound(diagnostic) && line <= diagnostic.line < line + lines.len() - k
            },
    decreases lines.len() - k,
{
    if k < lines.len() {
        lemma_line_diagnostics_are_sound(lines[k], 0, line);
        lemma_diagnostics_of_lines_are_sound(lines, k + 1, line + 1);
    }
}

/// Every diagnostic of a scan is sound, and stands on a line of the
/// source text.
pub proof fn law_diagnostics_are_sound(src: Seq<char>)
    ensures
        forall|j: int|
            0 <= j < source_diagnostics(src).len() ==> {
                let diagnostic = #[trigger] source_diagnostics(src)[j];
                is_sound(diagnostic) && 1 <= diagnostic.line <= lines_of(src).len()
            },
{
    lemma_diagnostics_of_lines_are_sound(lines_of(src), 0, 1);
}

} // verus!
