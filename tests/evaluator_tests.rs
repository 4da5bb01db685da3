use interpreter::ast::Node;
use interpreter::evaluator::{
    evaluate, evaluate_bang_operator, evaluate_infix_expression, evaluate_integer_infix_expression,
    evaluate_minus_operator, evaluate_node, evaluate_prefix_expression, evaluate_program,
};
use interpreter::object::{Bool, Integer, Null, Object, ReturnValue};
use interpreter::parser::parse;

fn test_bool_object(obj: Object, expected: bool) {
    let value = match obj {
        Object::Bool(bool_object) => Some(bool_object.value),
        _ => None,
    };
    assert!(value.is_some());
    assert_eq!(expected, value.unwrap());
}

fn test_integer_object(obj: Object, expected: i64) {
    let value = match obj {
        Object::Integer(int) => Some(int.value),
        _ => None,
    };
    assert!(value.is_some());
    assert_eq!(expected, value.unwrap());
}

fn is_null(obj: &Object) -> bool {
    matches!(obj, Object::Null(_))
}

#[test]
fn bang_operator() {
    let tests = vec![
        ("!true", false),
        ("!false", true),
        ("!5", false),
        ("!!true", true),
        ("!!false", false),
        ("!!5", true),
    ];
    for (input, expected_value) in tests.iter() {
        let obj = match evaluate(*input) {
            Ok(object) => Some(object),
            Err(e) => panic!("{}", e),
        };
        assert!(obj.is_some());
        test_bool_object(obj.unwrap(), *expected_value);
    }
}

#[test]
fn evaluate_bool() {
    let tests = vec![("true", true), ("false", false)];
    for (input, expected_value) in tests.iter() {
        let obj = match evaluate(*input) {
            Ok(object) => Some(object),
            Err(e) => panic!("{}", e),
        };
        assert!(obj.is_some());
        test_bool_object(obj.unwrap(), *expected_value);
    }
}

#[test]
fn evaluate_integer() {
    let tests = vec![("5", 5), ("10", 10), ("-5", -5), ("-10", -10)];
    for (input, expected_value) in tests.iter() {
        let obj = match evaluate(*input) {
            Ok(object) => Some(object),
            Err(e) => panic!("{}", e),
        };
        assert!(obj.is_some());
        test_integer_object(obj.unwrap(), *expected_value);
    }
}

#[test]
fn if_else_expression() {
    let tests = vec![
        ("if (true) { 10 }", Object::Integer(Integer { value: 10 })),
        ("if (false) { 10 }", Object::Null(Null {})),
        ("if (1) { 10 }", Object::Integer(Integer { value: 10 })),
        ("if (1 < 2) { 10 }", Object::Integer(Integer { value: 10 })),
        ("if (1 > 2) { 10 }", Object::Null(Null {})),
        ("if (1 > 2) { 10 } else { 20 }", Object::Integer(Integer { value: 20 })),
        ("if (1 < 2) { 10 } else { 20 }", Object::Integer(Integer { value: 10 })),
    ];
    for (input, expected_value) in tests.iter() {
        let obj = match evaluate(*input) {
            Ok(object) => Some(object),
            Err(e) => panic!("{}", e),
        };
        assert!(obj.is_some(), "{}", *input);
        assert_eq!(*expected_value, obj.unwrap(), "{}", *input);
    }
}

#[test]
fn return_value() {
    let tests = vec![
        ("return 10;", Object::new_integer(10)),
        ("return 10; 9;", Object::new_integer(10)),
        ("return 2 * 5; 9;", Object::new_integer(10)),
        ("9; return 2 * 5; 9;", Object::new_integer(10)),
    ];
    for (input, expected_value) in tests.iter() {
        let obj = match evaluate(*input) {
            Ok(object) => Some(object),
            Err(e) => panic!("{}", e),
        };
        assert!(obj.is_some(), "{}", *input);
        assert_eq!(*expected_value, obj.unwrap(), "{}", *input);
    }
}

#[test]
fn integer_arithmetic() {
    let tests = vec![
        ("5 + 5 + 5 + 5 - 10", 10),
        ("2 * 2 * 2 * 2 * 2", 32),
        ("-50 + 100 + -50", 0),
        ("5 * 2 + 10", 20),
        ("20 + 2 * -10", 0),
        ("50 / 2 * 2 + 10", 60),
        ("2 * (5 + 10)", 30),
        ("(5 + 10 * 2 + 15 / 3) * 2 + -10", 50),
        ("-7 / 2", -3),
        ("7 / -2", -3),
        ("-7 / -2", 3),
    ];
    for (input, expected) in tests {
        test_integer_object(evaluate(input).unwrap(), expected);
    }
}

#[test]
fn comparisons_and_equality() {
    let tests = vec![
        ("1 < 2", true),
        ("1 > 2", false),
        ("1 == 1", true),
        ("1 != 1", false),
        ("true == true", true),
        ("true != false", true),
        ("(1 < 2) == true", true),
        ("(1 > 2) == true", false),
        ("1 == true", false),
    ];
    for (input, expected) in tests {
        test_bool_object(evaluate(input).unwrap(), expected);
    }
}

#[test]
fn type_mismatches_give_null() {
    for input in ["-true", "5 + true", "true + false", "1 / 0", "9223372036854775807 + 1", "-9223372036854775807 - 2"] {
        let obj = evaluate(input).unwrap();
        assert!(is_null(&obj), "{}", input);
    }
}

#[test]
fn nested_return_leaves_every_block() {
    let obj = evaluate("if (10 > 1) { if (10 > 1) { return 10; } return 1; }").unwrap();
    test_integer_object(obj, 10);
    let obj = evaluate("return;").unwrap();
    assert!(is_null(&obj));
}

#[test]
fn unsupported_nodes_are_errors() {
    assert_eq!(Err(String::from("unexpected statement type")), evaluate("let x = 5;"));
    assert_eq!(Err(String::from("unexpected expression type")), evaluate("x"));
    assert_eq!(Err(String::from("unexpected expression type")), evaluate("fn(x) { x }"));
    assert_eq!(Err(String::from("unexpected expression type")), evaluate("add(1, 2)"));
}

#[test]
fn syntax_errors_stop_evaluation() {
    let r = evaluate("let = 1; let x 2;");
    assert_eq!(
        Err(String::from(
            "expected next token to be IDENT, got ASSIGN instead\nexpected next token to be ASSIGN, got INT instead"
        )),
        r
    );
}

#[test]
fn operator_helpers() {
    test_bool_object(evaluate_bang_operator(Object::new_bool(true)), false);
    test_bool_object(evaluate_bang_operator(Object::null()), true);
    test_bool_object(evaluate_bang_operator(Object::new_integer(0)), false);
    test_integer_object(evaluate_minus_operator(Object::new_integer(7)), -7);
    assert!(is_null(&evaluate_minus_operator(Object::new_bool(true))));
    assert!(is_null(&evaluate_minus_operator(Object::new_integer(i64::MIN))));
    assert!(is_null(&evaluate_prefix_expression(String::from("+"), Object::new_integer(1))));
    test_bool_object(
        evaluate_infix_expression(String::from("=="), Object::null(), Object::null()),
        true,
    );
    assert!(is_null(&evaluate_infix_expression(
        String::from("<"),
        Object::new_bool(true),
        Object::new_integer(1)
    )));
    test_integer_object(
        evaluate_integer_infix_expression(Integer { value: 6 }, Integer { value: 7 }, String::from("*")),
        42,
    );
    assert!(is_null(&evaluate_integer_infix_expression(
        Integer { value: 1 },
        Integer { value: 2 },
        String::from("%")
    )));
}

#[test]
fn program_and_node_evaluation() {
    let (program, errors) = parse("1; 2 * 3");
    assert!(errors.is_empty());
    test_integer_object(evaluate_program(&program).unwrap(), 6);
    test_integer_object(evaluate_node(Node::Program(program)).unwrap(), 6);
    let (program, _) = parse("return 4; 5");
    let statements = program.statements;
    let mut block = None;
    for s in statements {
        block = Some(evaluate_node(Node::Statement(s)));
        break;
    }
    match block.unwrap().unwrap() {
        Object::ReturnValue(rv) => test_integer_object(rv.value, 4),
        other => panic!("expected a returned value, got {:?}", other),
    }
}

#[test]
fn object_display_and_truthiness() {
    assert_eq!("-42", Object::new_integer(-42).string());
    assert_eq!("0", Object::new_integer(0).string());
    assert_eq!("-9223372036854775808", Object::new_integer(i64::MIN).string());
    assert_eq!("true", Object::new_bool(true).string());
    assert_eq!("null", Object::null().string());
    let rv = Object::ReturnValue(Box::new(ReturnValue { value: Object::new_integer(1) }));
    assert_eq!("RETURN_VALUE", rv.string());
    assert!(rv.is_return_value());
    assert!(!Object::null().is_return_value());
    assert!(Object::new_integer(0).is_truthy());
    assert!(!Object::null().is_truthy());
    assert!(!Object::Bool(Bool { value: false }).is_truthy());
    assert!(Object::new_integer(3).equals(&Object::new_integer(3)));
    assert!(!Object::new_integer(1).equals(&Object::new_bool(true)));
    assert!(Object::null() == Object::null());
    let a = Object::ReturnValue(Box::new(ReturnValue { value: Object::new_integer(1) }));
    let b = Object::ReturnValue(Box::new(ReturnValue { value: Object::new_integer(1) }));
    assert!(!a.equals(&b));
    assert!(a.is_truthy());
    let f = Object::ReturnValue(Box::new(ReturnValue { value: Object::new_bool(false) }));
    assert!(f.is_truthy());
}
