use vstd::prelude::*;

use crate::ast::{
    TokView, block_model, box_model, expr_model, lemma_stmts_model_index, stmt_model, stmts_model, Expr,
    Expression, Node, Program, Statement, Stmt,
};
use crate::chars::{push_text, same_text, text};
use crate::lexer::lex_all;
use crate::object::{same_value, truthy, Bool, Integer, Null, Object, ReturnValue};
use crate::parser::{errs_view, p_program, parse};

verus! {

pub open spec fn int_obj(v: int) -> Object {
    Object::Integer(Integer { value: v as i64 })
}

pub open spec fn bool_obj(b: bool) -> Object {
    Object::Bool(Bool { value: b })
}

pub open spec fn null_obj() -> Object {
    Object::Null(Null {})
}

pub open spec fn fits(v: int) -> bool {
    i64::MIN <= v <= i64::MAX
}

/// An integer result, or `null` when it does not fit in an `i64`.
pub open spec fn checked(v: int) -> Object {
    if fits(v) {
        int_obj(v)
    } else {
        null_obj()
    }
}

/// Division that rounds toward zero.
pub open spec fn trunc_div(x: int, y: int) -> int {
    let q = abs(x) / abs(y);
    if (x < 0) != (y < 0) {
        -q
    } else {
        q
    }
}

pub open spec fn abs(x: int) -> int {
    if x < 0 {
        -x
    } else {
        x
    }
}

/// `!v`: `true` for `false` and `null`, `false` for everything else.
pub open spec fn bang(v: Object) -> Object {
    match v {
        Object::Bool(b) => bool_obj(!b.value),
        Object::Null(_) => bool_obj(true),
        _ => bool_obj(false),
    }
}

/// `-v`: the negated integer, and `null` for anything that is no integer.
pub open spec fn minus(v: Object) -> Object {
    match v {
        Object::Integer(i) => checked(-(i.value as int)),
        _ => null_obj(),
    }
}

pub open spec fn prefix_result(op: Seq<char>, v: Object) -> Object {
    if op == "!"@ {
        bang(v)
    } else if op == "-"@ {
        minus(v)
    } else {
        null_obj()
    }
}

/// Integer arithmetic and comparison; `null` for an unknown operator, a division
/// by zero, or a result outside the `i64` range.
pub open spec fn integer_result(op: Seq<char>, x: int, y: int) -> Object {
    if op == "+"@ {
        checked(x + y)
    } else if op == "-"@ {
        checked(x - y)
    } else if op == "*"@ {
        checked(x * y)
    } else if op == "/"@ {
        if y == 0 {
            null_obj()
        } else {
            checked(trunc_div(x, y))
        }
    } else if op == ">"@ {
        bool_obj(x > y)
    } else if op == "<"@ {
        bool_obj(x < y)
    } else {
        null_obj()
    }
}

/// `==` and `!=` compare any two values; the other operators need two integers
/// and give `null` otherwise.
pub open spec fn infix_result(op: Seq<char>, a: Object, b: Object) -> Object {
    if op == "=="@ {
        bool_obj(same_value(a, b))
    } else if op == "!="@ {
        bool_obj(!same_value(a, b))
    } else {
        match (a, b) {
            (Object::Integer(x), Object::Integer(y)) => integer_result(
                op,
                x.value as int,
                y.value as int,
            ),
            _ => null_obj(),
        }
    }
}

pub open spec fn unexpected_expression() -> Seq<char> {
    "unexpected expression type"@
}

pub open spec fn unexpected_statement() -> Seq<char> {
    "unexpected statement type"@
}

pub open spec fn unexpected_node() -> Seq<char> {
    "unexpected node type"@
}

/// The value of an expression. A `return` inside an operand or a condition
/// ends the evaluation with its carried value.
pub open spec fn eval_expr(e: Expr) -> Result<Object, Seq<char>>
    decreases e, 0nat,
{
    match e {
        Expr::Int(_, v) => Ok(int_obj(v as int)),
        Expr::Bool(_, b) => Ok(bool_obj(b)),
        Expr::Prefix(_, op, right) => match right {
            None => Err(unexpected_node()),
            Some(r) => match eval_expr(*r) {
                Err(m) => Err(m),
                Ok(v) => if v is ReturnValue {
                    Ok(v)
                } else {
                    Ok(prefix_result(op, v))
                },
            },
        },
        Expr::Infix(_, op, left, right) => match (left, right) {
            (Some(l), Some(r)) => match eval_expr(*l) {
                Err(m) => Err(m),
                Ok(a) => if a is ReturnValue {
                    Ok(a)
                } else {
                    match eval_expr(*r) {
                        Err(m) => Err(m),
                        Ok(b) => if b is ReturnValue {
                            Ok(b)
                        } else {
                            Ok(infix_result(op, a, b))
                        },
                    }
                },
            },
            _ => Err(unexpected_node()),
        },
        Expr::If(_, cond, cons, alt) => match eval_expr(*cond) {
            Err(m) => Err(m),
            Ok(c) => if c is ReturnValue {
                Ok(c)
            } else if truthy(c) {
                eval_from(cons.statements, 0, null_obj())
            } else {
                match alt {
                    Some(a) => eval_from(a.statements, 0, null_obj()),
                    None => Ok(null_obj()),
                }
            },
        },
        _ => Err(unexpected_expression()),
    }
}

/// The value of a statement; a `return` wraps its value so that it travels up.
pub open spec fn eval_stmt(s: Stmt) -> Result<Object, Seq<char>>
    decreases s, 0nat,
{
    match s {
        Stmt::Expr(_, Some(v)) => eval_expr(v),
        Stmt::Expr(_, None) => Err(unexpected_node()),
        Stmt::Return(_, None) => Ok(Object::ReturnValue(Box::new(ReturnValue { value: null_obj() }))),
        Stmt::Return(_, Some(v)) => match eval_expr(v) {
            Err(m) => Err(m),
            Ok(x) => if x is ReturnValue {
                Ok(x)
            } else {
                Ok(Object::ReturnValue(Box::new(ReturnValue { value: x })))
            },
        },
        Stmt::Let(..) => Err(unexpected_statement()),
    }
}

/// Runs statements from index `i` on, where `last` is the value of the one before:
/// stops at the first error or returned value, else yields the last value.
pub open spec fn eval_from(ss: Seq<Stmt>, i: int, last: Object) -> Result<Object, Seq<char>>
    decreases ss, ss.len() - i,
{
    if i < 0 || i >= ss.len() {
        Ok(last)
    } else {
        match eval_stmt(ss[i]) {
            Err(m) => Err(m),
            Ok(v) => if v is ReturnValue {
                Ok(v)
            } else {
                eval_from(ss, i + 1, v)
            },
        }
    }
}

/// The value of a block: its last statement's value, or the first returned value.
pub open spec fn eval_block(ss: Seq<Stmt>) -> Result<Object, Seq<char>> {
    eval_from(ss, 0, null_obj())
}

/// The value of a program: as a block, with a returned value unwrapped.
pub open spec fn eval_program(ss: Seq<Stmt>) -> Result<Object, Seq<char>> {
    match eval_block(ss) {
        Ok(Object::ReturnValue(r)) => Ok(r.value),
        other => other,
    }
}

/// What an evaluation gave, with the error as plain text.
pub open spec fn result_view(r: Result<Object, String>) -> Result<Object, Seq<char>> {
    match r {
        Ok(o) => Ok(o),
        Err(m) => Err(m@),
    }
}

/// The value that `evaluate_node` gives for each kind of node.
pub open spec fn node_value(node: Node) -> Result<Object, Seq<char>> {
    match node {
        Node::Program(p) => eval_program(p@),
        Node::Statement(s) => eval_stmt(s@),
        Node::Expression(e) => eval_expr(e@),
        Node::BlockStatement(b) => eval_block(b@.statements),
        Node::BooleanExpression(b) => eval_expr(expr_model(Expression::Boolean(b))),
        Node::CallExpression(c) => eval_expr(expr_model(Expression::CallExpression(Box::new(c)))),
        Node::ExpressionStatement(x) => eval_stmt(stmt_model(Statement::ExpressionStatement(x))),
        Node::FnLiteral(f) => eval_expr(expr_model(Expression::FnLiteral(f))),
        Node::Identifier(i) => eval_expr(expr_model(Expression::Identifier(i))),
        Node::IfExpression(x) => eval_expr(expr_model(Expression::IfExpression(x))),
        Node::InfixExpression(x) => eval_expr(expr_model(Expression::InfixExpression(x))),
        Node::IntegerLiteral(i) => eval_expr(expr_model(Expression::IntegerLiteral(i))),
        Node::LetStatement(l) => eval_stmt(stmt_model(Statement::LetStatement(l))),
        Node::PrefixExpression(x) => eval_expr(expr_model(Expression::PrefixExpression(x))),
        Node::ReturnStatement(x) => eval_stmt(stmt_model(Statement::ReturnStatement(x))),
    }
}

/// Error messages, one per line.
pub open spec fn join_lines(es: Seq<Seq<char>>) -> Seq<char>
    decreases es.len(),
{
    if es.len() == 0 {
        Seq::empty()
    } else if es.len() == 1 {
        es[0]
    } else {
        join_lines(es.subrange(0, es.len() - 1)) + "\n"@ + es[es.len() - 1]
    }
}

/// What `evaluate` gives for the program that the tokens `toks` spell: the syntax
/// errors when there are any, else the program's value.
pub open spec fn source_value(toks: Seq<TokView>) -> Result<Object, Seq<char>> {
    let s = p_program(toks, 0, Seq::empty(), Seq::empty());
    if s.errs.len() > 0 {
        Err(join_lines(s.errs))
    } else {
        eval_program(s.out)
    }
}

/// Syntax errors gate evaluation: when parsing a source reports any error, its
/// outcome is exactly those errors, and no value is computed.
pub proof fn law_errors_gate_evaluation(toks: Seq<TokView>)
    requires
        p_program(toks, 0, Seq::empty(), Seq::empty()).errs.len() > 0,
    ensures
        source_value(toks) == Err::<Object, Seq<char>>(
            join_lines(p_program(toks, 0, Seq::empty(), Seq::empty()).errs),
        ),
{
}

pub fn evaluate_bang_operator(right: Object) -> (r: Object)
    ensures
        r == bang(right),
{
    match right {
        Object::Bool(b) => Object::Bool(Bool { value: !b.value }),
        Object::Null(_) => Object::Bool(Bool { value: true }),
        _ => Object::Bool(Bool { value: false }),
    }
}

pub fn evaluate_minus_operator(right: Object) -> (r: Object)
    ensures
        r == minus(right),
{
    match right {
        Object::Integer(i) => {
            if i.value == i64::MIN {
                Object::Null(Null {})
            } else {
                Object::Integer(Integer { value: -i.value })
            }
        },
        _ => Object::Null(Null {}),
    }
}

pub fn evaluate_prefix_expression(operator: String, right: Object) -> (r: Object)
    ensures
        r == prefix_result(operator@, right),
{
    if same_text(operator.as_str(), "!") {
        evaluate_bang_operator(right)
    } else if same_text(operator.as_str(), "-") {
        evaluate_minus_operator(right)
    } else {
        Object::Null(Null {})
    }
}

fn integer_or_null(v: i128) -> (r: Object)
    ensures
        r == checked(v as int),
{
    if i64::MIN as i128 <= v && v <= i64::MAX as i128 {
        Object::Integer(Integer { value: v as i64 })
    } else {
        Object::Null(Null {})
    }
}

pub fn evaluate_integer_infix_expression(left: Integer, right: Integer, operator: String) -> (r:
    Object)
    ensures
        r == integer_result(operator@, left.value as int, right.value as int),
{
    let a = left.value as i128;
    let b = right.value as i128;
    let op = operator.as_str();
    if same_text(op, "+") {
        integer_or_null(a + b)
    } else if same_text(op, "-") {
        integer_or_null(a - b)
    } else if same_text(op, "*") {
        assert(-0x4000_0000_0000_0000_0000_0000_0000_0000 <= a * b <= 0x4000_0000_0000_0000_0000_0000_0000_0000) by (nonlinear_arith)
            requires
                -0x8000_0000_0000_0000 <= a <= 0x7fff_ffff_ffff_ffff,
                -0x8000_0000_0000_0000 <= b <= 0x7fff_ffff_ffff_ffff,
        ;
        integer_or_null(a * b)
    } else if same_text(op, "/") {
        if b == 0 {
            return Object::Null(Null {});
        }
        let ua: u128 = if a < 0 {
            (0 - a) as u128
        } else {
            a as u128
        };
        let ub: u128 = if b < 0 {
            (0 - b) as u128
        } else {
            b as u128
        };
        let q = ua / ub;
        assert(q <= ua) by (nonlinear_arith)
            requires
                ub >= 1,
                q == ua / ub,
        ;
        let q = q as i128;
        if (a < 0) != (b < 0) {
            integer_or_null(0 - q)
        } else {
            integer_or_null(q)
        }
    } else if same_text(op, ">") {
        Object::Bool(Bool { value: a > b })
    } else if same_text(op, "<") {
        Object::Bool(Bool { value: a < b })
    } else {
        Object::Null(Null {})
    }
}

pub fn evaluate_infix_expression(operator: String, left: Object, right: Object) -> (r: Object)
    ensures
        r == infix_result(operator@, left, right),
{
    if same_text(operator.as_str(), "==") {
        return Object::Bool(Bool { value: left.equals(&right) });
    }
    if same_text(operator.as_str(), "!=") {
        return Object::Bool(Bool { value: !left.equals(&right) });
    }
    match (left, right) {
        (Object::Integer(x), Object::Integer(y)) => evaluate_integer_infix_expression(
            x,
            y,
            operator,
        ),
        _ => Object::Null(Null {}),
    }
}

fn eval_expression(e: &Expression) -> (r: Result<Object, String>)
    ensures
        result_view(r) == eval_expr(e@),
    decreases e,
{
    match e {
        Expression::IntegerLiteral(i) => Ok(Object::Integer(Integer { value: i.value })),
        Expression::Boolean(b) => Ok(Object::Bool(Bool { value: b.value })),
        Expression::PrefixExpression(p) => {
            match &p.right {
                None => Err(text("unexpected node type")),
                Some(r) => {
                    assert(box_model(p.right) == Some(Box::new(expr_model(**r))));
                    match eval_expression(r) {
                        Err(m) => Err(m),
                        Ok(v) => {
                            if v.is_return_value() {
                                Ok(v)
                            } else {
                                Ok(evaluate_prefix_expression(p.operator.clone(), v))
                            }
                        },
                    }
                },
            }
        },
        Expression::InfixExpression(x) => {
            match (&x.left, &x.right) {
                (Some(l), Some(r)) => {
                    assert(box_model(x.left) == Some(Box::new(expr_model(**l))));
                    assert(box_model(x.right) == Some(Box::new(expr_model(**r))));
                    let a = match eval_expression(l) {
                        Err(m) => {
                            return Err(m);
                        },
                        Ok(a) => a,
                    };
                    if a.is_return_value() {
                        return Ok(a);
                    }
                    let b = match eval_expression(r) {
                        Err(m) => {
                            return Err(m);
                        },
                        Ok(b) => b,
                    };
                    if b.is_return_value() {
                        return Ok(b);
                    }
                    Ok(evaluate_infix_expression(x.operator.clone(), a, b))
                },
                _ => Err(text("unexpected node type")),
            }
        },
        Expression::IfExpression(x) => {
            let c = match eval_expression(&x.condition) {
                Err(m) => {
                    return Err(m);
                },
                Ok(c) => c,
            };
            if c.is_return_value() {
                return Ok(c);
            }
            if c.is_truthy() {
                assert(block_model(*x.consequence).statements == stmts_model(
                    x.consequence.statements@,
                ));
                eval_statements(&x.consequence.statements)
            } else {
                match &x.alternative {
                    Some(a) => {
                        assert(block_model(**a).statements == stmts_model(a.statements@));
                        eval_statements(&a.statements)
                    },
                    None => Ok(Object::Null(Null {})),
                }
            }
        },
        _ => Err(text("unexpected expression type")),
    }
}

fn eval_statement(s: &Statement) -> (r: Result<Object, String>)
    ensures
        result_view(r) == eval_stmt(s@),
    decreases s,
{
    match s {
        Statement::ExpressionStatement(x) => match &x.value {
            Some(v) => eval_expression(v),
            None => Err(text("unexpected node type")),
        },
        Statement::ReturnStatement(x) => match &x.value {
            None => Ok(Object::ReturnValue(Box::new(ReturnValue { value: Object::Null(Null {}) }))),
            Some(v) => match eval_expression(v) {
                Err(m) => Err(m),
                Ok(o) => {
                    if o.is_return_value() {
                        Ok(o)
                    } else {
                        Ok(Object::ReturnValue(Box::new(ReturnValue { value: o })))
                    }
                },
            },
        },
        Statement::LetStatement(_) => Err(text("unexpected statement type")),
    }
}

/// Runs statements in order: the value of the last one, or the first returned value
/// still wrapped, or the first error.
fn eval_statements(ss: &Vec<Statement>) -> (r: Result<Object, String>)
    ensures
        result_view(r) == eval_block(stmts_model(ss@)),
    decreases ss,
{
    let ghost m = stmts_model(ss@);
    proof {
        lemma_stmts_model_index(ss@);
    }
    let n = ss.len();
    let mut last = Object::Null(Null {});
    let mut i: usize = 0;
    while i < n
        invariant
            n == ss@.len(),
            m == stmts_model(ss@),
            m.len() == n,
            forall|j: int| 0 <= j < n ==> #[trigger] m[j] == stmt_model(ss@[j]),
            i <= n,
            eval_from(m, i as int, last) == eval_from(m, 0, null_obj()),
        decreases n - i,
    {
        match eval_statement(&ss[i]) {
            Err(e) => {
                return Err(e);
            },
            Ok(v) => {
                if v.is_return_value() {
                    return Ok(v);
                }
                last = v;
            },
        }
        i = i + 1;
    }
    Ok(last)
}

/// The value of a program; a returned value comes out unwrapped.
pub fn evaluate_program(program: &Program) -> (r: Result<Object, String>)
    ensures
        result_view(r) == eval_program(program@),
{
    match eval_statements(&program.statements) {
        Ok(Object::ReturnValue(rv)) => Ok(rv.value),
        other => other,
    }
}

/// Evaluates any node of the tree.
pub fn evaluate_node(node: Node) -> (r: Result<Object, String>)
    ensures
        result_view(r) == node_value(node),
{
    match node {
        Node::Program(p) => evaluate_program(&p),
        Node::Statement(s) => eval_statement(&s),
        Node::Expression(e) => eval_expression(&e),
        Node::BlockStatement(b) => eval_statements(&b.statements),
        Node::BooleanExpression(b) => eval_expression(&Expression::Boolean(b)),
        Node::CallExpression(c) => eval_expression(&Expression::CallExpression(Box::new(c))),
        Node::ExpressionStatement(x) => eval_statement(&Statement::ExpressionStatement(x)),
        Node::FnLiteral(f) => eval_expression(&Expression::FnLiteral(f)),
        Node::Identifier(i) => eval_expression(&Expression::Identifier(i)),
        Node::IfExpression(x) => eval_expression(&Expression::IfExpression(x)),
        Node::InfixExpression(x) => eval_expression(&Expression::InfixExpression(x)),
        Node::IntegerLiteral(i) => eval_expression(&Expression::IntegerLiteral(i)),
        Node::LetStatement(l) => eval_statement(&Statement::LetStatement(l)),
        Node::PrefixExpression(x) => eval_expression(&Expression::PrefixExpression(x)),
        Node::ReturnStatement(x) => eval_statement(&Statement::ReturnStatement(x)),
    }
}

fn join_errors(es: &Vec<String>) -> (r: String)
    ensures
        r@ == join_lines(errs_view(es@)),
{
    let mut out = String::new();
    let n = es.len();
    let mut i: usize = 0;
    while i < n
        invariant
            n == es@.len(),
            i <= n,
            out@ == join_lines(errs_view(es@.subrange(0, i as int))),
        decreases n - i,
    {
        if i > 0 {
            push_text(&mut out, "\n");
        }
        push_text(&mut out, es[i].as_str());
        proof {
            let pre = errs_view(es@.subrange(0, i as int));
            let next = errs_view(es@.subrange(0, i + 1));
            assert(next.subrange(0, i as int) == pre);
            assert(next[i as int] == es@[i as int]@);
            assert(next.len() == i + 1);
        }
        i = i + 1;
    }
    assert(es@.subrange(0, n as int) == es@);
    out
}

/// Lexes, parses and evaluates `input`. Syntax errors stop it before evaluation
/// and come back joined, one per line.
pub fn evaluate(input: &str) -> (r: Result<Object, String>)
    ensures
        result_view(r) == source_value(lex_all(input@, 0)),
{
    let (program, errors) = parse(input);
    let ghost toks = lex_all(input@, 0);
    if errors.len() > 0 {
        let r = Err(join_errors(&errors));
        assert(result_view(r) == source_value(toks));
        return r;
    }
    let r = evaluate_program(&program);
    assert(result_view(r) == source_value(toks));
    r
}

} // verus!
