use vstd::prelude::*;

use crate::token::TokenType;

verus! {

/// Binding strength of an operator position, weakest first.
#[derive(Debug, PartialEq, Eq, Structural, Hash, Copy, Clone)]
pub enum Operator {
    LOWEST,
    EQUALS,
    LESSGREATER,
    SUM,
    PRODUCT,
    PREFIX,
    CALL,
}

/// The place of an operator level in the order `LOWEST < EQUALS < ... < CALL`.
pub open spec fn rank(op: Operator) -> int {
    match op {
        Operator::LOWEST => 1,
        Operator::EQUALS => 2,
        Operator::LESSGREATER => 3,
        Operator::SUM => 4,
        Operator::PRODUCT => 5,
        Operator::PREFIX => 6,
        Operator::CALL => 7,
    }
}

/// The level at which a token binds when it follows an operand.
pub open spec fn precedence_of(t: TokenType) -> Operator {
    match t {
        TokenType::EQ => Operator::EQUALS,
        TokenType::NotEq => Operator::EQUALS,
        TokenType::LT => Operator::LESSGREATER,
        TokenType::GT => Operator::LESSGREATER,
        TokenType::PLUS => Operator::SUM,
        TokenType::MINUS => Operator::SUM,
        TokenType::SLASH => Operator::PRODUCT,
        TokenType::ASTERISK => Operator::PRODUCT,
        TokenType::LPAREN => Operator::CALL,
        _ => Operator::LOWEST,
    }
}

/// The rank of an operator level.
pub fn get_operator_precedence(operator: &Operator) -> (r: i8)
    ensures
        r == rank(*operator),
{
    match operator {
        Operator::LOWEST => 1,
        Operator::EQUALS => 2,
        Operator::LESSGREATER => 3,
        Operator::SUM => 4,
        Operator::PRODUCT => 5,
        Operator::PREFIX => 6,
        Operator::CALL => 7,
    }
}

/// The level at which a token of kind `token_type` binds as an infix operator.
pub fn get_token_type_operator_precedence(token_type: TokenType) -> (r: Operator)
    ensures
        r == precedence_of(token_type),
{
    match token_type {
        TokenType::EQ => Operator::EQUALS,
        TokenType::NotEq => Operator::EQUALS,
        TokenType::LT => Operator::LESSGREATER,
        TokenType::GT => Operator::LESSGREATER,
        TokenType::PLUS => Operator::SUM,
        TokenType::MINUS => Operator::SUM,
        TokenType::SLASH => Operator::PRODUCT,
        TokenType::ASTERISK => Operator::PRODUCT,
        TokenType::LPAREN => Operator::CALL,
        _ => Operator::LOWEST,
    }
}

} // verus!
