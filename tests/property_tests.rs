use interpreter::ast::TokenNode;
use interpreter::evaluator::evaluate;
use interpreter::lexer::Lexer;
use interpreter::object::Object;
use interpreter::parser::parse;
use interpreter::token::{lookup_keyword, TokenType};

#[test]
fn lexer_round_trip_on_symbols() {
    let mut l = Lexer::new("=+(){},;");
    let expected = [
        (TokenType::ASSIGN, "="),
        (TokenType::PLUS, "+"),
        (TokenType::LPAREN, "("),
        (TokenType::RPAREN, ")"),
        (TokenType::LBRACE, "{"),
        (TokenType::RBRACE, "}"),
        (TokenType::COMMA, ","),
        (TokenType::SEMICOLON, ";"),
        (TokenType::EOF, ""),
    ];
    for (kind, literal) in expected {
        let t = l.next_token();
        assert_eq!(kind, t.token_type);
        assert_eq!(literal, t.literal);
    }
}

#[test]
fn keyword_lookup_table() {
    assert_eq!(TokenType::LET, lookup_keyword("let"));
    assert_eq!(TokenType::FUNCTION, lookup_keyword("fn"));
    assert_eq!(TokenType::IF, lookup_keyword("if"));
    assert_eq!(TokenType::ELSE, lookup_keyword("else"));
    assert_eq!(TokenType::RETURN, lookup_keyword("return"));
    assert_eq!(TokenType::TRUE, lookup_keyword("true"));
    assert_eq!(TokenType::FALSE, lookup_keyword("false"));
    assert_eq!(TokenType::IDENT, lookup_keyword("blah"));
}

#[test]
fn three_let_statements() {
    let (program, errors) = parse("let x = 5; let y = 10; let foobar = 838383;");
    assert!(errors.is_empty());
    assert_eq!(3, program.statements.len());
    let names: Vec<String> = program
        .statements
        .iter()
        .map(|s| match s {
            interpreter::ast::Statement::LetStatement(l) => l.name.value.clone(),
            _ => panic!("expected a let statement"),
        })
        .collect();
    assert_eq!(vec!["x", "y", "foobar"], names);
}

#[test]
fn precedence_examples() {
    let tests = [
        ("-a * b", "((-a) * b)"),
        ("a + b * c + d / e - f", "(((a + (b * c)) + (d / e)) - f)"),
        ("3 + 4 * 5 == 3 * 1 + 4 * 5", "((3 + (4 * 5)) == ((3 * 1) + (4 * 5)))"),
        ("1 + (2 + 3) + 4", "((1 + (2 + 3)) + 4)"),
        ("add(a + b + c * d / f + g)", "add((((a + b) + ((c * d) / f)) + g))"),
    ];
    for (input, expected) in tests {
        let (program, errors) = parse(input);
        assert!(errors.is_empty());
        assert_eq!(expected, program.string());
    }
}

#[test]
fn integer_and_boolean_values() {
    assert_eq!(Object::new_integer(5), evaluate("5").unwrap());
    assert_eq!(Object::new_integer(-5), evaluate("-5").unwrap());
    assert_eq!(Object::new_bool(true), evaluate("1 < 2").unwrap());
    assert_eq!(Object::new_bool(true), evaluate("(1 < 2) == true").unwrap());
}

#[test]
fn bang_table() {
    assert_eq!(Object::new_bool(false), evaluate("!true").unwrap());
    assert_eq!(Object::new_bool(true), evaluate("!false").unwrap());
    assert_eq!(Object::new_bool(false), evaluate("!5").unwrap());
    assert_eq!(Object::new_bool(true), evaluate("!!5").unwrap());
}

#[test]
fn if_without_taken_branch_is_null() {
    assert_eq!(Object::null(), evaluate("if (false) { 10 }").unwrap());
    assert_eq!(Object::new_integer(20), evaluate("if (1 > 2) { 10 } else { 20 }").unwrap());
}

#[test]
fn statements_after_return_are_ignored() {
    assert_eq!(Object::new_integer(10), evaluate("9; return 2 * 5; 9;").unwrap());
}

#[test]
fn two_broken_lets_give_two_errors_and_no_value() {
    let source = "let = 5; let y 10;";
    let (_, errors) = parse(source);
    assert!(errors.len() >= 2, "{:?}", errors);
    assert!(evaluate(source).is_err());
}

#[test]
fn rendering_is_stable_under_reparsing() {
    for input in [
        "a + b * c",
        "-a * b",
        "!(true == false)",
        "add(a, b * 2, f(c))(d)",
        "a + b / c - -d",
        "1 + (2 + 3) + 4",
    ] {
        let (first, errors) = parse(input);
        assert!(errors.is_empty());
        let rendered = first.string();
        let (second, errors) = parse(&rendered);
        assert!(errors.is_empty(), "{}", rendered);
        assert_eq!(rendered, second.string());
    }
}
