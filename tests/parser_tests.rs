use interpreter::ast::{Expression, Program, Statement, TokenNode};
use interpreter::lexer::Lexer;
use interpreter::parser::{parse, Parser};
use interpreter::token::TokenType;

#[derive(Debug, Clone)]
pub enum ExpressionExpectation {
    Integer(i64),
    Identifier(String),
    Bool(bool),
}

fn test_infix_expression(
    expression: &Expression,
    operator: String,
    left: ExpressionExpectation,
    right: ExpressionExpectation,
) -> Result<(), String> {
    match expression {
        Expression::InfixExpression(infix_expression) => {
            assert_eq!(operator, infix_expression.operator);
            assert!(infix_expression.left.is_some());
            assert!(infix_expression.right.is_some());
            if let Err(e) = test_literal_expression(infix_expression.left.as_ref().unwrap(), left) {
                return Err(format!("unexpected left expression {}", e));
            }
            if let Err(e) = test_literal_expression(infix_expression.right.as_ref().unwrap(), right) {
                return Err(format!("unexpected right expression {}", e));
            }
            Ok(())
        }
        _ => Err(String::from("expected infix expression")),
    }
}

fn test_literal_expression(
    expression: &Expression,
    expectation: ExpressionExpectation,
) -> Result<(), String> {
    match expectation {
        ExpressionExpectation::Identifier(value) => test_identifier(expression, value),
        ExpressionExpectation::Integer(value) => test_integer_literal(expression, value),
        ExpressionExpectation::Bool(value) => test_boolean_expression(expression, value),
    }
}

fn test_integer_literal(expression: &Expression, value: i64) -> Result<(), String> {
    match expression {
        Expression::IntegerLiteral(integer_literal) => {
            if integer_literal.value != value {
                return Err(format!(
                    "expected integer literal value {} but received {}",
                    value, integer_literal.value
                ));
            }
            if integer_literal.token_literal() != format!("{}", value) {
                return Err(format!(
                    "expected integer literal token literal {} but received {}",
                    value, integer_literal.value
                ));
            }
            Ok(())
        }
        _ => Err(String::from("expected integeral literal")),
    }
}

fn test_boolean_expression(expression: &Expression, value: bool) -> Result<(), String> {
    match expression {
        Expression::Boolean(boolean_expression) => {
            if boolean_expression.value != value {
                return Err(format!(
                    "expected boolean value {} but received {}",
                    value, boolean_expression.value
                ));
            }
            if boolean_expression.token_literal() != format!("{}", value) {
                return Err(format!(
                    "expected boolean literal {} but received {}",
                    value, boolean_expression.value
                ));
            }
            Ok(())
        }
        _ => Err(String::from("expected boolean expression")),
    }
}

fn test_identifier(expression: &Expression, value: String) -> Result<(), String> {
    match expression {
        Expression::Identifier(identifier_expression) => {
            if identifier_expression.value != value {
                return Err(format!(
                    "expected identifier expression value {} but received {}",
                    value, identifier_expression.value
                ));
            }
            if identifier_expression.token_literal() != value {
                return Err(format!(
                    "expected identifier expression literal {} but received {}",
                    value, identifier_expression.value
                ));
            }
            Ok(())
        }
        _ => Err(String::from("expected identifier expressions")),
    }
}

fn parse_source(input: &str) -> (Program, Vec<String>) {
    let mut l = Lexer::new(input);
    let mut p = Parser::new(&mut l);
    let program = p.parse_program();
    (program, p.errors)
}

#[test]
fn parser_let_statements() {
    let input = "\
    let x = 5;\
    let y = 10;\
    let foobar = 838383;";
    let mut l = Lexer::new(input);
    let mut p = Parser::new(&mut l);
    let program: Program = p.parse_program();
    assert_eq!(3, program.statements.len(), "unexpected number of statements parsed");
    assert_eq!(0, p.errors.len());

    let tests = vec!["x", "y", "foobar"];
    for (i, id) in tests.iter().enumerate() {
        let statement = &program.statements[i];
        match statement {
            Statement::LetStatement(let_statement) => {
                assert_eq!(TokenType::LET, let_statement.token_type());
                assert_eq!(String::from(*id), let_statement.name.value);
            }
            _ => {
                assert!(false, "all statements should be let statements");
            }
        }
    }
}

#[test]
fn return_statements() {
    let input = "\
    return 5;\
    return 10;\
    return 838383;";
    let mut l = Lexer::new(input);
    let mut p = Parser::new(&mut l);
    let program: Program = p.parse_program();
    assert_eq!(3, program.statements.len(), "unexpected number of statements parsed");
    assert_eq!(0, p.errors.len());

    for statement in program.statements.iter() {
        match statement {
            Statement::ReturnStatement(st) => {
                assert_eq!(TokenType::RETURN, st.token_type());
            }
            _ => {
                assert!(false, "all statements should be let statements");
            }
        }
    }
}

#[test]
fn parser_identifier_expression() {
    let input = "foobar;";
    let mut l = Lexer::new(input);
    let mut p = Parser::new(&mut l);
    let program = p.parse_program();
    assert_eq!(1, program.statements.len());
    match &program.statements[0] {
        Statement::ExpressionStatement(st) => {
            assert_eq!(TokenType::IDENT, st.token_type());
            assert_eq!(true, st.value.is_some());
            let expression = st.value.as_ref().unwrap();
            match test_identifier(expression, String::from("foobar")) {
                Ok(()) => {}
                Err(e) => assert!(false, "{}", e),
            }
        }
        _ => {
            assert!(false, "expected expression statement");
        }
    }
}

#[test]
fn parser_integer_literal_expression() {
    let input = "5;";
    let mut l = Lexer::new(input);
    let mut p = Parser::new(&mut l);
    let program = p.parse_program();
    assert_eq!(1, program.statements.len());
    match &program.statements[0] {
        Statement::ExpressionStatement(st) => {
            assert_eq!(TokenType::INT, st.token_type());
            assert_eq!(true, st.value.is_some());
            let expression = st.value.as_ref().unwrap();
            match test_integer_literal(expression, 5) {
                Ok(()) => {}
                Err(e) => assert!(false, "{}", e),
            }
        }
        _ => {
            assert!(false, "expected expression statement");
        }
    }
}

#[test]
fn parser_integer_boolean_expression() {
    let tests = vec![("true;", true), ("false;", false)];
    for (input, value) in tests.iter() {
        let mut l = Lexer::new(*input);
        let mut p = Parser::new(&mut l);
        let program = p.parse_program();
        assert_eq!(1, program.statements.len());
        match &program.statements[0] {
            Statement::ExpressionStatement(st) => {
                assert_eq!(true, st.value.is_some());
                let expression = st.value.as_ref().unwrap();
                match test_boolean_expression(expression, *value) {
                    Ok(()) => {}
                    Err(e) => assert!(false, "{}", e),
                }
            }
            _ => {
                assert!(false, "expected expression statement");
            }
        }
    }
}

#[test]
fn parser_parse_prefix_expression() {
    let tests: Vec<(&str, &str, ExpressionExpectation)> = vec![
        ("!5", "!", ExpressionExpectation::Integer(5)),
        ("-5", "-", ExpressionExpectation::Integer(5)),
        ("!false", "!", ExpressionExpectation::Bool(false)),
        ("!true", "!", ExpressionExpectation::Bool(true)),
    ];
    for (input, operator, value) in tests.iter() {
        let mut l = Lexer::new(*input);
        let mut p = Parser::new(&mut l);
        let program = p.parse_program();
        assert_eq!(0, p.errors.len());

        assert_eq!(1, program.statements.len());
        match &program.statements[0] {
            Statement::ExpressionStatement(expression_statement) => {
                let expression = expression_statement.value.as_ref().unwrap();
                match expression {
                    Expression::PrefixExpression(prefix_expression) => {
                        assert_eq!(String::from(*operator), prefix_expression.operator);
                        assert!(prefix_expression.right.is_some());
                        let expression = prefix_expression.right.as_ref().unwrap();
                        if let Err(e) = test_literal_expression(expression, (*value).clone()) {
                            assert!(false, "{}", e);
                        }
                    }
                    _ => {
                        assert!(false, "expected prefix expression");
                    }
                }
            }
            _ => {
                assert!(false, "expected expression statement");
            }
        }
    }
}

#[test]
fn parser_parse_infix_expression() {
    let tests: Vec<(&str, ExpressionExpectation, &str, ExpressionExpectation)> = vec![
        ("5 + 6;", ExpressionExpectation::Integer(5), "+", ExpressionExpectation::Integer(6)),
        ("5 - 6;", ExpressionExpectation::Integer(5), "-", ExpressionExpectation::Integer(6)),
        ("5 * 6;", ExpressionExpectation::Integer(5), "*", ExpressionExpectation::Integer(6)),
        ("5 / 6;", ExpressionExpectation::Integer(5), "/", ExpressionExpectation::Integer(6)),
        ("5 > 6;", ExpressionExpectation::Integer(5), ">", ExpressionExpectation::Integer(6)),
        ("5 < 6;", ExpressionExpectation::Integer(5), "<", ExpressionExpectation::Integer(6)),
        ("5 == 6;", ExpressionExpectation::Integer(5), "==", ExpressionExpectation::Integer(6)),
        ("5 != 6;", ExpressionExpectation::Integer(5), "!=", ExpressionExpectation::Integer(6)),
        ("true == true", ExpressionExpectation::Bool(true), "==", ExpressionExpectation::Bool(true)),
        ("true != false", ExpressionExpectation::Bool(true), "!=", ExpressionExpectation::Bool(false)),
        ("false == false", ExpressionExpectation::Bool(false), "==", ExpressionExpectation::Bool(false)),
    ];
    for (input, left_value, operator, right_value) in tests.iter() {
        let mut l = Lexer::new(*input);
        let mut p = Parser::new(&mut l);
        let program = p.parse_program();
        assert_eq!(1, program.statements.len());
        assert_eq!(0, p.errors.len(), "{}", p.errors.join(", "));

        match &program.statements[0] {
            Statement::ExpressionStatement(expression_statement) => {
                let expression = expression_statement.value.as_ref().unwrap();
                if let Err(e) = test_infix_expression(
                    expression,
                    String::from(*operator),
                    (*left_value).clone(),
                    (*right_value).clone(),
                ) {
                    assert!(false, "{}", e);
                }
            }
            _ => {
                assert!(false, "expected expression statement");
            }
        }
    }
}

#[test]
fn parser_precedence_parsing() {
    let tests: Vec<(&str, &str)> = vec![
        ("-a * b", "((-a) * b)"),
        ("!-a", "(!(-a))"),
        ("a + b + c", "((a + b) + c)"),
        ("a + b - c", "((a + b) - c)"),
        ("a * b * c", "((a * b) * c)"),
        ("a * b / c", "((a * b) / c)"),
        ("a + b / c", "(a + (b / c))"),
        ("a + b * c + d / e - f", "(((a + (b * c)) + (d / e)) - f)"),
        ("3 + 4; -5 * 5", "(3 + 4)((-5) * 5)"),
        ("5 > 4 == 3 < 4", "((5 > 4) == (3 < 4))"),
        ("5 < 4 != 3 > 4", "((5 < 4) != (3 > 4))"),
        ("3 + 4 * 5 == 3 * 1 + 4 * 5", "((3 + (4 * 5)) == ((3 * 1) + (4 * 5)))"),
        ("true", "true"),
        ("false", "false"),
        ("3 > 5 == false", "((3 > 5) == false)"),
        ("3 < 5 == true", "((3 < 5) == true)"),
        ("1 + (2 + 3) + 4", "((1 + (2 + 3)) + 4)"),
        ("(5 + 5) * 2", "((5 + 5) * 2)"),
        ("2 / (5 + 5)", "(2 / (5 + 5))"),
        ("-(5 + 5)", "(-(5 + 5))"),
        ("!(true == true)", "(!(true == true))"),
        ("add(b * c)", "add((b * c))"),
        ("a + add(b * c) + d", "((a + add((b * c))) + d)"),
        (
            "add(a, b, 1, 2 * 3, 4 + 5, add(6, 7 * 8))",
            "add(a, b, 1, (2 * 3), (4 + 5), add(6, (7 * 8)))",
        ),
        ("add(a + b + c * d / f + g)", "add((((a + b) + ((c * d) / f)) + g))"),
    ];
    for (input, expected_output) in tests.iter() {
        let mut l = Lexer::new(*input);
        let mut p = Parser::new(&mut l);
        let program = p.parse_program();
        assert_eq!(0, p.errors.len(), "{}", p.errors.join(", "));
        assert_eq!(*expected_output, program.string().as_str());
    }
}

#[test]
fn parse_call_expression() {
    let input = "add(1, 2 * 3, 4 + 5);";
    let mut l = Lexer::new(input);
    let mut p = Parser::new(&mut l);
    let program: Program = p.parse_program();
    assert_eq!(0, p.errors.len());
    assert_eq!(1, program.statements.len(), "unexpected number of statements parsed");

    let stmt = match &program.statements[0] {
        Statement::ExpressionStatement(stmt) => Some(stmt),
        _ => None,
    };
    assert!(stmt.is_some());
    assert!(stmt.unwrap().value.is_some());

    let expression = match stmt.unwrap().value.as_ref().unwrap() {
        Expression::CallExpression(call_expression) => Some(call_expression),
        _ => None,
    };
    assert!(expression.is_some());
    let call = expression.unwrap();

    if let Err(e) = test_identifier(&call.function, String::from("add")) {
        panic!("function identifier failure: {}", e);
    }

    assert_eq!(3, call.arguments.len());

    if let Err(e) = test_literal_expression(&call.arguments[0], ExpressionExpectation::Integer(1)) {
        panic!("unexpected first argument: {}", e);
    }
    if let Err(e) = test_infix_expression(
        &call.arguments[1],
        String::from("*"),
        ExpressionExpectation::Integer(2),
        ExpressionExpectation::Integer(3),
    ) {
        panic!("unexpected second argument: {}", e);
    }
    if let Err(e) = test_infix_expression(
        &call.arguments[2],
        String::from("+"),
        ExpressionExpectation::Integer(4),
        ExpressionExpectation::Integer(5),
    ) {
        panic!("unexpected third argument: {}", e);
    }
}

#[test]
fn parse_let_statement_let_statements() {
    let tests = vec![
        ("let x = 5;", "x", ExpressionExpectation::Integer(5)),
        ("let y = true;", "y", ExpressionExpectation::Bool(true)),
        ("let foobar = y;", "foobar", ExpressionExpectation::Identifier(String::from("y"))),
    ];
    for (input, identifier_name, value) in tests.iter() {
        let mut l = Lexer::new(input);
        let mut p = Parser::new(&mut l);
        let program: Program = p.parse_program();
        assert_eq!(1, program.statements.len(), "unexpected number of statements parsed");
        assert_eq!(0, p.errors.len());

        let let_statment = match &program.statements[0] {
            Statement::LetStatement(let_statement) => Some(let_statement),
            _ => None,
        };
        assert!(let_statment.is_some());
        let let_statment = let_statment.unwrap();
        assert_eq!(TokenType::LET, let_statment.token_type());
        assert_eq!(*identifier_name, let_statment.name.string());

        assert!(let_statment.value.is_some());
        if let Err(e) = test_literal_expression(let_statment.value.as_ref().unwrap(), (*value).clone()) {
            panic!("{}", e);
        }
    }
}

#[test]
fn if_expression() {
    let input = "if (x < y) { x }";
    let mut l = Lexer::new(input);
    let mut p = Parser::new(&mut l);
    let program = p.parse_program();
    assert_eq!(0, p.errors.len());
    assert_eq!(1, program.statements.len());
    let expression = match &program.statements[0] {
        Statement::ExpressionStatement(st) => {
            assert_eq!(true, st.value.is_some());
            st.value.as_ref()
        }
        _ => {
            panic!("expected expression statement");
        }
    };
    assert!(expression.is_some());
    let if_expression = match expression.unwrap() {
        Expression::IfExpression(exp) => Some(exp),
        _ => None,
    };
    assert!(if_expression.is_some(), "expected if expression");
    let if_expression = if_expression.unwrap();

    let err = test_infix_expression(
        &if_expression.condition,
        String::from("<"),
        ExpressionExpectation::Identifier(String::from("x")),
        ExpressionExpectation::Identifier(String::from("y")),
    );
    assert!(err.is_ok(), "{:?}", err);

    assert_eq!(1, if_expression.consequence.statements.len());
    assert!(if_expression.alternative.is_none());

    let consequence_statement = match &if_expression.consequence.statements[0] {
        Statement::ExpressionStatement(expression_statement) => Some(expression_statement),
        _ => None,
    };
    assert!(consequence_statement.is_some());
    let consequence_identifier = consequence_statement.unwrap().value.as_ref();
    assert!(consequence_identifier.is_some());
    if let Err(e) = test_identifier(consequence_identifier.unwrap(), String::from("x")) {
        panic!("{}", e);
    }
}

#[test]
fn fn_literal_parsing() {
    let input = "fn(x, y) { x + y; }";
    let mut l = Lexer::new(input);
    let mut p = Parser::new(&mut l);
    let program = p.parse_program();
    assert_eq!(0, p.errors.len(), "{}", p.errors.join(", "));
    assert_eq!(1, program.statements.len());

    let expression_statement = match &program.statements[0] {
        Statement::ExpressionStatement(stmt) => Some(stmt),
        _ => None,
    };
    assert!(expression_statement.is_some());
    let expression = expression_statement.unwrap().value.as_ref();
    assert!(expression.is_some());

    let fn_literal = match expression.unwrap() {
        Expression::FnLiteral(fn_literal) => Some(fn_literal),
        _ => None,
    };
    assert!(fn_literal.is_some());
    let fn_literal = fn_literal.unwrap();
    assert_eq!(2, fn_literal.parameters.len());

    assert!(test_literal_expression(
        &Expression::Identifier(fn_literal.parameters[0].clone()),
        ExpressionExpectation::Identifier(String::from("x")),
    )
    .is_ok());
    assert!(test_literal_expression(
        &Expression::Identifier(fn_literal.parameters[1].clone()),
        ExpressionExpectation::Identifier(String::from("y")),
    )
    .is_ok());

    assert!(fn_literal.body.is_some());
    let body = fn_literal.body.as_ref().unwrap();
    assert_eq!(1, body.statements.len());

    let body_statement = match &body.statements[0] {
        Statement::ExpressionStatement(exp_stmnt) => Some(exp_stmnt),
        _ => None,
    };
    assert!(body_statement.is_some());
    let body_expression = body_statement.unwrap().value.as_ref();
    assert!(body_expression.is_some());
    assert!(test_infix_expression(
        body_expression.unwrap(),
        String::from("+"),
        ExpressionExpectation::Identifier(String::from("x")),
        ExpressionExpectation::Identifier(String::from("y")),
    )
    .is_ok());
}

#[test]
fn parameter_parsing() {
    let tests: Vec<(&str, Vec<&str>)> = vec![
        ("fn() {};", vec![]),
        ("fn(x) {};", vec!["x"]),
        ("fn(x, y, z) {};", vec!["x", "y", "z"]),
    ];
    for (input, expected_parameters) in tests.iter() {
        let mut l = Lexer::new(*input);
        let mut p = Parser::new(&mut l);
        let program = p.parse_program();
        assert_eq!(0, p.errors.len(), "{}", p.errors.join("; "));
        assert_eq!(1, program.statements.len());

        let statement = match &program.statements[0] {
            Statement::ExpressionStatement(stmt) => Some(stmt),
            _ => None,
        };
        assert!(statement.is_some(), "expected expression statement");
        assert!(statement.unwrap().value.is_some());

        let fn_literal = match statement.unwrap().value.as_ref().unwrap() {
            Expression::FnLiteral(fn_literal) => Some(fn_literal),
            _ => None,
        };
        assert!(fn_literal.is_some(), "expected Expression::FnLiteral");
        let fn_literal = fn_literal.unwrap();
        assert_eq!(expected_parameters.len(), fn_literal.parameters.len());

        for (i, param) in expected_parameters.iter().enumerate() {
            let identifier = Expression::Identifier(fn_literal.parameters[i].clone());
            if let Err(e) = test_identifier(&identifier, String::from(*param)) {
                panic!("identifier did not match {}", e);
            }
        }
    }
}

#[test]
fn parse_entry_point_reports_errors() {
    let (program, errors) = parse("let x = 5;");
    assert_eq!(1, program.statements.len());
    assert!(errors.is_empty());
    let (_, errors) = parse("let = 5;");
    assert_eq!(vec![String::from("expected next token to be IDENT, got ASSIGN instead")], errors);
}

#[test]
fn missing_token_at_end_of_input() {
    let (_, errors) = parse_source("let x");
    assert_eq!(
        vec![String::from("expected next token to be ASSIGN, but none exists")],
        errors
    );
}

#[test]
fn token_without_prefix_rule_is_reported() {
    let (program, errors) = parse_source("@");
    assert_eq!(vec![String::from("no prefix parse function for ILLEGAL")], errors);
    assert_eq!(1, program.statements.len());
    let (_, errors) = parse_source("let x = ;");
    assert_eq!(vec![String::from("no prefix parse function for SEMICOLON")], errors);
}

#[test]
fn integer_literal_too_large_is_reported() {
    let (_, errors) = parse_source("99999999999999999999");
    assert_eq!(vec![String::from("could not parse 99999999999999999999 as integer")], errors);
    let (program, errors) = parse_source("9223372036854775807");
    assert!(errors.is_empty());
    assert_eq!("9223372036854775807", program.string());
}

#[test]
fn parsing_resumes_after_a_broken_statement() {
    let (program, errors) = parse_source("let 5; let y = 2; y");
    assert_eq!(1, errors.len());
    assert_eq!("LET y = 2;y", program.string());
}

#[test]
fn if_else_and_return_render() {
    let (program, errors) = parse_source("if (a) { return 1; } else { b }");
    assert!(errors.is_empty(), "{:?}", errors);
    assert_eq!("if a RETURN 1; else b", program.string());
    let (program, errors) = parse_source("return;");
    assert!(errors.is_empty());
    assert_eq!("RETURN ;", program.string());
}

#[test]
fn fn_literal_renders_parameters_and_body() {
    let (program, errors) = parse_source("fn(x, y) { x + y; }");
    assert!(errors.is_empty());
    assert_eq!("fn (x, y) (x + y)", program.string());
}

#[test]
fn grouped_expression_needs_closing_paren() {
    let (_, errors) = parse_source("(1 + 2");
    assert_eq!(
        vec![String::from("expected next token to be RPAREN, but none exists")],
        errors
    );
}

#[test]
fn parser_token_queries() {
    let mut l = Lexer::new("a + 1");
    let mut p = Parser::new(&mut l);
    assert!(p.current_token_is(TokenType::IDENT));
    assert!(p.peek_token_is(TokenType::PLUS));
    assert_eq!(interpreter::operators::Operator::SUM, p.peek_precedence());
    p.next_token();
    assert_eq!(interpreter::operators::Operator::SUM, p.current_precedence());
    assert!(p.expect_peek(TokenType::INT));
    assert_eq!("1", p.current_token.as_ref().unwrap().literal);
    assert_eq!(TokenType::EOF, p.peek_token.as_ref().unwrap().token_type);
    assert!(!p.expect_peek(TokenType::INT));
    assert_eq!(vec![String::from("expected next token to be INT, but none exists")], p.errors);
    assert!(p.expect_peek(TokenType::EOF));
    assert_eq!(TokenType::EOF, p.current_token.as_ref().unwrap().token_type);
}

#[test]
fn parser_holds_current_and_peek_tokens() {
    let mut l = Lexer::new("let x");
    let p = Parser::new(&mut l);
    assert_eq!(TokenType::LET, p.current_token.as_ref().unwrap().token_type);
    assert_eq!("x", p.peek_token.as_ref().unwrap().literal);
}
