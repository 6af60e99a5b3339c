//! The table of reserved words.

use vstd::prelude::*;
use crate::token::TokenType;

verus! {

/// The kind of the reserved word that `text` spells, exactly and with
/// case; `None` for every other text.
pub open spec fn reserved_kind(text: Seq<char>) -> Option<TokenType> {
    if text == "and"@ {
        Some(TokenType::AND)
    } else if text == "class"@ {
        Some(TokenType::CLASS)
    } else if text == "else"@ {
        Some(TokenType::ELSE)
    } else if text == "false"@ {
        Some(TokenType::FALSE)
    } else if text == "for"@ {
        Some(TokenType::FOR)
    } else if text == "fun"@ {
        Some(TokenType::FUN)
    } else if text == "if"@ {
        Some(TokenType::IF)
    } else if text == "nil"@ {
        Some(TokenType::NIL)
    } else if text == "or"@ {
        Some(TokenType::OR)
    } else if text == "print"@ {
        Some(TokenType::PRINT)
    } else if text == "return"@ {
        Some(TokenType::RETURN)
    } else if text == "super"@ {
        Some(TokenType::SUPER)
    } else if text == "this"@ {
        Some(TokenType::THIS)
    } else if text == "true"@ {
        Some(TokenType::TRUE)
    } else if text == "var"@ {
        Some(TokenType::VAR)
    } else if text == "while"@ {
        Some(TokenType::WHILE)
    } else {
        None
    }
}

/// The kind of a word: that of the reserved word it spells, or an
/// identifier.
pub open spec fn word_kind(text: Seq<char>) -> TokenType {
    match reserved_kind(text) {
        Some(kind) => kind,
        None => TokenType::IDENTIFIER,
    }
}

/// Looks `text` up among the reserved words.
pub fn lookup(text: &str) -> (kind: Option<TokenType>)
    ensures
        kind == reserved_kind(text@),
{
    if *text == *"and" {
        Some(TokenType::AND)
    } else if *text == *"class" {
        Some(TokenType::CLASS)
    } else if *text == *"else" {
        Some(TokenType::ELSE)
    } else if *text == *"false" {
        Some(TokenType::FALSE)
    } else if *text == *"for" {
        Some(TokenType::FOR)
    } else if *text == *"fun" {
        Some(TokenType::FUN)
    } else if *text == *"if" {
        Some(TokenType::IF)
    } else if *text == *"nil" {
        Some(TokenType::NIL)
    } else if *text == *"or" {
        Some(TokenType::OR)
    } else if *text == *"print" {
        Some(TokenType::PRINT)
    } else if *text == *"return" {
        Some(TokenType::RETURN)
    } else if *text == *"super" {
        Some(TokenType::SUPER)
    } else if *text == *"this" {
        Some(TokenType::THIS)
    } else if *text == *"true" {
        Some(TokenType::TRUE)
    } else if *text == *"var" {
        Some(TokenType::VAR)
    } else if *text == *"while" {
        Some(TokenType::WHILE)
    } else {
        None
    }
}

} // verus!
