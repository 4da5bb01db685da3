use interpreter::ast::{
    Expression, Identifier, LetStatement, Program, Statement, TokenNode,
};
use interpreter::operators::{get_operator_precedence, get_token_type_operator_precedence, Operator};
use interpreter::token::{Token, TokenType};

#[test]
fn string() {
    let token = Token { token_type: TokenType::LET, literal: String::from("let") };
    let my_var = String::from("myVar");
    let identifier_token = Token { token_type: TokenType::IDENT, literal: my_var.clone() };
    let identifier = Identifier { token: identifier_token, value: my_var.clone() };

    let another_var = String::from("anotherVar");
    let value_token = Token { token_type: TokenType::IDENT, literal: another_var.clone() };
    let value_identifier =
        Expression::Identifier(Identifier { token: value_token, value: another_var.clone() });
    let statement = LetStatement { token: token, name: identifier, value: Some(value_identifier) };
    let program = Program { statements: vec![Statement::LetStatement(statement)] };
    assert_eq!(program.string(), String::from("LET myVar = anotherVar;"));
}

#[test]
fn program_token_comes_from_first_statement() {
    let empty = Program { statements: vec![] };
    assert_eq!(TokenType::EOF, empty.token_type());
    assert_eq!("", empty.token_literal());
    assert_eq!("", empty.string());
}

#[test]
fn precedence_levels_are_ordered() {
    let levels = [
        Operator::LOWEST,
        Operator::EQUALS,
        Operator::LESSGREATER,
        Operator::SUM,
        Operator::PRODUCT,
        Operator::PREFIX,
        Operator::CALL,
    ];
    for (i, op) in levels.iter().enumerate() {
        assert_eq!(i as i8 + 1, get_operator_precedence(op));
    }
}

#[test]
fn token_kinds_map_to_precedence() {
    assert_eq!(Operator::EQUALS, get_token_type_operator_precedence(TokenType::EQ));
    assert_eq!(Operator::EQUALS, get_token_type_operator_precedence(TokenType::NotEq));
    assert_eq!(Operator::LESSGREATER, get_token_type_operator_precedence(TokenType::LT));
    assert_eq!(Operator::LESSGREATER, get_token_type_operator_precedence(TokenType::GT));
    assert_eq!(Operator::SUM, get_token_type_operator_precedence(TokenType::PLUS));
    assert_eq!(Operator::SUM, get_token_type_operator_precedence(TokenType::MINUS));
    assert_eq!(Operator::PRODUCT, get_token_type_operator_precedence(TokenType::ASTERISK));
    assert_eq!(Operator::PRODUCT, get_token_type_operator_precedence(TokenType::SLASH));
    assert_eq!(Operator::CALL, get_token_type_operator_precedence(TokenType::LPAREN));
    assert_eq!(Operator::LOWEST, get_token_type_operator_precedence(TokenType::SEMICOLON));
}
