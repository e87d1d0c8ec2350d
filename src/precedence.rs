//! The binding strength of operators, lowest to highest.

use vstd::prelude::*;
use crate::token::TokenType;

verus! {

pub const LOWEST: i8 = 1;
pub const EQUALS: i8 = 2;
pub const LESSGREATER: i8 = 3;
pub const SUM: i8 = 4;
pub const PRODUCT: i8 = 5;
pub const PREFIX: i8 = 6;
pub const CALL: i8 = 7;

/// The precedence of a token kind in infix position; `LOWEST` for the rest.
pub open spec fn precedence(k: TokenType) -> i8 {
    match k {
        TokenType::EQ | TokenType::NOT_EQ => EQUALS,
        TokenType::LT | TokenType::GT => LESSGREATER,
        TokenType::PLUS | TokenType::MINUS => SUM,
        TokenType::SLASH | TokenType::ASTERISK => PRODUCT,
        TokenType::LPAREN => CALL,
        _ => LOWEST,
    }
}

pub fn get_precedence(typ: TokenType) -> (r: i8)
    ensures
        r == precedence(typ),
{
    match typ {
        TokenType::EQ => EQUALS,
        TokenType::NOT_EQ => EQUALS,
        TokenType::LT => LESSGREATER,
        TokenType::GT => LESSGREATER,
        TokenType::PLUS => SUM,
        TokenType::MINUS => SUM,
        TokenType::SLASH => PRODUCT,
        TokenType::ASTERISK => PRODUCT,
        TokenType::LPAREN => CALL,
        _ => LOWEST,
    }
}

} // verus!
