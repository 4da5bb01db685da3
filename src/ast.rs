use vstd::prelude::*;

use crate::chars::{push_text, text};
use crate::token::{Token, TokenType};

verus! {

#[derive(Debug, Clone)]
pub struct Identifier {
    pub token: Token,
    pub value: String,
}

#[derive(Debug, Clone)]
pub struct IntegerLiteral {
    pub token: Token,
    pub value: i64,
}

#[derive(Debug, Clone)]
pub struct BooleanExpression {
    pub token: Token,
    pub value: bool,
}

#[derive(Debug)]
pub struct PrefixExpression {
    pub token: Token,
    pub operator: String,
    pub right: Option<Box<Expression>>,
}

#[derive(Debug)]
pub struct InfixExpression {
    pub token: Token,
    pub operator: String,
    pub left: Option<Box<Expression>>,
    pub right: Option<Box<Expression>>,
}

#[derive(Debug)]
pub struct IfExpression {
    pub token: Token,
    pub condition: Box<Expression>,
    pub consequence: Box<BlockStatement>,
    pub alternative: Option<Box<BlockStatement>>,
}

#[derive(Debug)]
pub struct FnLiteral {
    pub token: Token,
    pub parameters: Vec<Identifier>,
    pub body: Option<BlockStatement>,
}

#[derive(Debug)]
pub struct CallExpression {
    pub token: Token,
    pub function: Expression,
    pub arguments: Vec<Expression>,
}

#[derive(Debug)]
pub enum Expression {
    Identifier(Identifier),
    IntegerLiteral(IntegerLiteral),
    Boolean(BooleanExpression),
    InfixExpression(InfixExpression),
    PrefixExpression(PrefixExpression),
    IfExpression(IfExpression),
    FnLiteral(FnLiteral),
    CallExpression(Box<CallExpression>),
}

#[derive(Debug)]
pub struct LetStatement {
    pub token: Token,
    pub name: Identifier,
    pub value: Option<Expression>,
}

#[derive(Debug)]
pub struct ReturnStatement {
    pub token: Token,
    pub value: Option<Expression>,
}

#[derive(Debug)]
pub struct ExpressionStatement {
    pub token: Token,
    pub value: Option<Expression>,
}

#[derive(Debug)]
pub struct BlockStatement {
    pub token: Token,
    pub statements: Vec<Statement>,
}

#[derive(Debug)]
pub enum Statement {
    ExpressionStatement(ExpressionStatement),
    LetStatement(LetStatement),
    ReturnStatement(ReturnStatement),
}

/// The root of a parsed source: its statements in order.
#[derive(Debug)]
pub struct Program {
    pub statements: Vec<Statement>,
}

/// Any node of the tree.
pub enum Node {
    Program(Program),
    Statement(Statement),
    Expression(Expression),
    BlockStatement(BlockStatement),
    BooleanExpression(BooleanExpression),
    CallExpression(CallExpression),
    ExpressionStatement(ExpressionStatement),
    FnLiteral(FnLiteral),
    Identifier(Identifier),
    IfExpression(IfExpression),
    InfixExpression(InfixExpression),
    IntegerLiteral(IntegerLiteral),
    LetStatement(LetStatement),
    PrefixExpression(PrefixExpression),
    ReturnStatement(ReturnStatement),
}

/// An expression as plain values: the tree with each list held as a sequence.
pub enum Expr {
    Ident(TokView, Seq<char>),
    Int(TokView, i64),
    Bool(TokView, bool),
    Prefix(TokView, Seq<char>, Option<Box<Expr>>),
    Infix(TokView, Seq<char>, Option<Box<Expr>>, Option<Box<Expr>>),
    If(TokView, Box<Expr>, Block, Option<Block>),
    Fn(TokView, Seq<(TokView, Seq<char>)>, Option<Block>),
    Call(TokView, Box<Expr>, Seq<Expr>),
}

/// A token as plain values: its kind and its text.
pub type TokView = (TokenType, Seq<char>);

pub open spec fn tok_view(t: Token) -> TokView {
    (t.token_type, t.literal@)
}

/// An identifier as plain values: its token and its name.
pub open spec fn ident_view(i: Identifier) -> (TokView, Seq<char>) {
    (tok_view(i.token), i.value@)
}

pub open spec fn params_model(ps: Seq<Identifier>) -> Seq<(TokView, Seq<char>)> {
    ps.map_values(|i: Identifier| ident_view(i))
}

/// A block as plain values.
pub struct Block {
    pub token: TokView,
    pub statements: Seq<Stmt>,
}

/// A statement as plain values.
pub enum Stmt {
    Let(TokView, (TokView, Seq<char>), Option<Expr>),
    Return(TokView, Option<Expr>),
    Expr(TokView, Option<Expr>),
}

pub open spec fn box_model(e: Option<Box<Expression>>) -> Option<Box<Expr>>
    decreases e,
{
    match e {
        Some(x) => Some(Box::new(expr_model(*x))),
        None => None,
    }
}

pub open spec fn opt_model(e: Option<Expression>) -> Option<Expr>
    decreases e,
{
    match e {
        Some(x) => Some(expr_model(x)),
        None => None,
    }
}

pub open spec fn expr_model(e: Expression) -> Expr
    decreases e,
{
    match e {
        Expression::Identifier(i) => Expr::Ident(tok_view(i.token), i.value@),
        Expression::IntegerLiteral(i) => Expr::Int(tok_view(i.token), i.value),
        Expression::Boolean(b) => Expr::Bool(tok_view(b.token), b.value),
        Expression::PrefixExpression(p) => Expr::Prefix(
            tok_view(p.token),
            p.operator@,
            box_model(p.right),
        ),
        Expression::InfixExpression(x) => Expr::Infix(
            tok_view(x.token),
            x.operator@,
            box_model(x.left),
            box_model(x.right),
        ),
        Expression::IfExpression(x) => Expr::If(
            tok_view(x.token),
            Box::new(expr_model(*x.condition)),
            block_model(*x.consequence),
            match x.alternative {
                Some(a) => Some(block_model(*a)),
                None => None,
            },
        ),
        Expression::FnLiteral(f) => Expr::Fn(
            tok_view(f.token),
            params_model(f.parameters@),
            match f.body {
                Some(b) => Some(block_model(b)),
                None => None,
            },
        ),
        Expression::CallExpression(c) => Expr::Call(
            tok_view(c.token),
            Box::new(expr_model(c.function)),
            exprs_model(c.arguments@),
        ),
    }
}

pub open spec fn exprs_model(es: Seq<Expression>) -> Seq<Expr>
    decreases es,
{
    if es.len() == 0 {
        Seq::empty()
    } else {
        exprs_model(es.subrange(0, es.len() - 1)).push(expr_model(es[es.len() - 1]))
    }
}

pub open spec fn stmt_model(s: Statement) -> Stmt
    decreases s,
{
    match s {
        Statement::LetStatement(l) => Stmt::Let(
            tok_view(l.token),
            ident_view(l.name),
            opt_model(l.value),
        ),
        Statement::ReturnStatement(r) => Stmt::Return(tok_view(r.token), opt_model(r.value)),
        Statement::ExpressionStatement(x) => Stmt::Expr(tok_view(x.token), opt_model(x.value)),
    }
}

pub open spec fn stmts_model(ss: Seq<Statement>) -> Seq<Stmt>
    decreases ss,
{
    if ss.len() == 0 {
        Seq::empty()
    } else {
        stmts_model(ss.subrange(0, ss.len() - 1)).push(stmt_model(ss[ss.len() - 1]))
    }
}

pub open spec fn block_model(b: BlockStatement) -> Block
    decreases b,
{
    Block { token: tok_view(b.token), statements: stmts_model(b.statements@) }
}

impl View for Expression {
    type V = Expr;

    open spec fn view(&self) -> Expr {
        expr_model(*self)
    }
}

impl View for Statement {
    type V = Stmt;

    open spec fn view(&self) -> Stmt {
        stmt_model(*self)
    }
}

impl View for BlockStatement {
    type V = Block;

    open spec fn view(&self) -> Block {
        block_model(*self)
    }
}

impl View for Program {
    type V = Seq<Stmt>;

    open spec fn view(&self) -> Seq<Stmt> {
        stmts_model(self.statements@)
    }
}

/// Appending one more element extends the model by that element's model.
pub proof fn lemma_exprs_model_push(es: Seq<Expression>, i: int)
    requires
        0 <= i < es.len(),
    ensures
        exprs_model(es.subrange(0, i + 1)) == exprs_model(es.subrange(0, i)).push(expr_model(es[i])),
        exprs_model(es.subrange(0, i)).len() == i,
{
    assert(es.subrange(0, i + 1).subrange(0, i) == es.subrange(0, i));
    lemma_exprs_model_len(es.subrange(0, i));
}

pub proof fn lemma_exprs_model_len(es: Seq<Expression>)
    ensures
        exprs_model(es).len() == es.len(),
    decreases es.len(),
{
    if es.len() > 0 {
        lemma_exprs_model_len(es.subrange(0, es.len() - 1));
    }
}

pub proof fn lemma_stmts_model_index(ss: Seq<Statement>)
    ensures
        stmts_model(ss).len() == ss.len(),
        forall|j: int| 0 <= j < ss.len() ==> #[trigger] stmts_model(ss)[j] == stmt_model(ss[j]),
    decreases ss.len(),
{
    if ss.len() > 0 {
        let init = ss.subrange(0, ss.len() - 1);
        lemma_stmts_model_index(init);
        assert forall|j: int| 0 <= j < ss.len() implies #[trigger] stmts_model(ss)[j] == stmt_model(ss[j]) by {
            if j < ss.len() - 1 {
                assert(init[j] == ss[j]);
            }
        }
    }
}

pub proof fn lemma_stmts_model_len(ss: Seq<Statement>)
    ensures
        stmts_model(ss).len() == ss.len(),
    decreases ss.len(),
{
    if ss.len() > 0 {
        lemma_stmts_model_len(ss.subrange(0, ss.len() - 1));
    }
}

pub proof fn lemma_stmts_model_push(ss: Seq<Statement>, i: int)
    requires
        0 <= i < ss.len(),
    ensures
        stmts_model(ss.subrange(0, i + 1)) == stmts_model(ss.subrange(0, i)).push(stmt_model(ss[i])),
        stmts_model(ss.subrange(0, i)).len() == i,
{
    assert(ss.subrange(0, i + 1).subrange(0, i) == ss.subrange(0, i));
    lemma_stmts_model_len(ss.subrange(0, i));
}

/// The text of an expression: literals as written, every prefix and infix node in parentheses.
pub open spec fn render_expr(e: Expr) -> Seq<char>
    decreases e,
{
    match e {
        Expr::Ident(_, name) => name,
        Expr::Int(tok, _) => tok.1,
        Expr::Bool(_, b) => render_bool(b),
        Expr::Prefix(_, op, right) => "("@ + op + match right {
            Some(r) => render_expr(*r),
            None => Seq::empty(),
        } + ")"@,
        Expr::Infix(_, op, left, right) => "("@ + match left {
            Some(l) => render_expr(*l),
            None => "_"@,
        } + " "@ + op + " "@ + match right {
            Some(r) => render_expr(*r),
            None => "_"@,
        } + ")"@,
        Expr::If(_, cond, cons, alt) => "if "@ + render_expr(*cond) + " "@ + render_stmts(
            cons.statements,
        ) + match alt {
            Some(a) => " else "@ + render_stmts(a.statements),
            None => Seq::empty(),
        },
        Expr::Fn(tok, params, body) => tok.1 + " ("@ + render_params(params) + ") "@
            + match body {
            Some(b) => render_stmts(b.statements),
            None => Seq::empty(),
        },
        Expr::Call(_, f, args) => render_expr(*f) + "("@ + render_exprs(args) + ")"@,
    }
}

/// Expressions separated by `, `.
pub open spec fn render_exprs(es: Seq<Expr>) -> Seq<char>
    decreases es,
{
    if es.len() == 0 {
        Seq::empty()
    } else if es.len() == 1 {
        render_expr(es[0])
    } else {
        render_exprs(es.subrange(0, es.len() - 1)) + ", "@ + render_expr(es[es.len() - 1])
    }
}

/// Parameter names separated by `, `.
pub open spec fn render_params(ps: Seq<(TokView, Seq<char>)>) -> Seq<char>
    decreases ps.len(),
{
    if ps.len() == 0 {
        Seq::empty()
    } else if ps.len() == 1 {
        ps[0].1
    } else {
        render_params(ps.subrange(0, ps.len() - 1)) + ", "@ + ps[ps.len() - 1].1
    }
}

pub open spec fn render_bool(b: bool) -> Seq<char> {
    if b {
        "true"@
    } else {
        "false"@
    }
}

/// The text of a statement.
pub open spec fn render_stmt(s: Stmt) -> Seq<char>
    decreases s,
{
    match s {
        Stmt::Let(_, name, value) => "LET "@ + name.1 + " = "@ + match value {
            Some(v) => render_expr(v),
            None => Seq::empty(),
        } + ";"@,
        Stmt::Return(_, value) => "RETURN "@ + match value {
            Some(v) => render_expr(v),
            None => Seq::empty(),
        } + ";"@,
        Stmt::Expr(_, value) => match value {
            Some(v) => render_expr(v),
            None => Seq::empty(),
        },
    }
}

/// The texts of statements, one after another with nothing between.
pub open spec fn render_stmts(ss: Seq<Stmt>) -> Seq<char>
    decreases ss,
{
    if ss.len() == 0 {
        Seq::empty()
    } else {
        render_stmts(ss.subrange(0, ss.len() - 1)) + render_stmt(ss[ss.len() - 1])
    }
}

fn push_opt_expr(out: &mut String, e: &Option<Box<Expression>>, missing: &str)
    ensures
        final(out)@ == old(out)@ + match box_model(*e) {
            Some(x) => render_expr(*x),
            None => missing@,
        },
    decreases e,
{
    match e {
        Some(x) => {
            assert(box_model(*e) == Some(Box::new(expr_model(**x))));
            write_expression(out, x);
        },
        None => push_text(out, missing),
    }
}

/// Appends the text of `e` to `out`.
pub fn write_expression(out: &mut String, e: &Expression)
    ensures
        final(out)@ == old(out)@ + render_expr(e@),
    decreases e,
{
    match e {
        Expression::Identifier(i) => push_text(out, i.value.as_str()),
        Expression::IntegerLiteral(i) => push_text(out, i.token.literal.as_str()),
        Expression::Boolean(b) => write_bool(out, b.value),
        Expression::PrefixExpression(p) => write_prefix(out, p),
        Expression::InfixExpression(x) => write_infix(out, x),
        Expression::IfExpression(x) => write_if(out, x),
        Expression::FnLiteral(f) => write_fn(out, f),
        Expression::CallExpression(c) => write_call(out, c),
    }
}

fn write_bool(out: &mut String, b: bool)
    ensures
        final(out)@ == old(out)@ + render_bool(b),
{
    if b {
        push_text(out, "true");
    } else {
        push_text(out, "false");
    }
}

fn write_prefix(out: &mut String, p: &PrefixExpression)
    ensures
        final(out)@ == old(out)@ + render_expr(expr_model(Expression::PrefixExpression(*p))),
    decreases p,
{
    push_text(out, "(");
    push_text(out, p.operator.as_str());
    proof {
        reveal_strlit("");
    }
    push_opt_expr(out, &p.right, "");
    push_text(out, ")");
}

fn write_infix(out: &mut String, x: &InfixExpression)
    ensures
        final(out)@ == old(out)@ + render_expr(expr_model(Expression::InfixExpression(*x))),
    decreases x,
{
    push_text(out, "(");
    push_opt_expr(out, &x.left, "_");
    push_text(out, " ");
    push_text(out, x.operator.as_str());
    push_text(out, " ");
    push_opt_expr(out, &x.right, "_");
    push_text(out, ")");
}

fn write_if(out: &mut String, x: &IfExpression)
    ensures
        final(out)@ == old(out)@ + render_expr(expr_model(Expression::IfExpression(*x))),
    decreases x,
{
    assert(block_model(*x.consequence).statements == stmts_model(x.consequence.statements@));
    push_text(out, "if ");
    write_expression(out, &x.condition);
    push_text(out, " ");
    write_statements(out, &x.consequence.statements);
    match &x.alternative {
        Some(a) => {
            assert(block_model(**a).statements == stmts_model(a.statements@));
            push_text(out, " else ");
            write_statements(out, &a.statements);
        },
        None => {},
    }
}

fn write_fn(out: &mut String, f: &FnLiteral)
    ensures
        final(out)@ == old(out)@ + render_expr(expr_model(Expression::FnLiteral(*f))),
    decreases f,
{
    push_text(out, f.token.literal.as_str());
    push_text(out, " (");
    write_parameters(out, &f.parameters);
    push_text(out, ") ");
    match &f.body {
        Some(b) => {
            assert(block_model(*b).statements == stmts_model(b.statements@));
            write_statements(out, &b.statements);
        },
        None => {},
    }
}

fn write_call(out: &mut String, c: &CallExpression)
    ensures
        final(out)@ == old(out)@ + render_expr(expr_model(Expression::CallExpression(Box::new(*c)))),
    decreases c,
{
    write_expression(out, &c.function);
    push_text(out, "(");
    write_expressions(out, &c.arguments);
    push_text(out, ")");
}

/// Appends the texts of `es`, separated by `, `, to `out`.
pub fn write_expressions(out: &mut String, es: &Vec<Expression>)
    ensures
        final(out)@ == old(out)@ + render_exprs(exprs_model(es@)),
    decreases es,
{
    let n = es.len();
    let mut i: usize = 0;
    while i < n
        invariant
            n == es@.len(),
            i <= n,
            out@ == old(out)@ + render_exprs(exprs_model(es@.subrange(0, i as int))),
        decreases n - i,
    {
        let ghost before = out@;
        if i > 0 {
            push_text(out, ", ");
        }
        write_expression(out, &es[i]);
        proof {
            lemma_exprs_model_push(es@, i as int);
            let m = exprs_model(es@.subrange(0, i as int));
            assert(m.push(expr_model(es@[i as int])).subrange(0, i as int) == m);
        }
        i = i + 1;
    }
    assert(es@.subrange(0, n as int) == es@);
}

fn write_parameters(out: &mut String, ps: &Vec<Identifier>)
    ensures
        final(out)@ == old(out)@ + render_params(params_model(ps@)),
{
    let n = ps.len();
    let mut i: usize = 0;
    while i < n
        invariant
            n == ps@.len(),
            i <= n,
            out@ == old(out)@ + render_params(params_model(ps@.subrange(0, i as int))),
        decreases n - i,
    {
        if i > 0 {
            push_text(out, ", ");
        }
        push_text(out, ps[i].value.as_str());
        proof {
            let pre = params_model(ps@.subrange(0, i as int));
            let next = params_model(ps@.subrange(0, i + 1));
            assert(next.subrange(0, i as int) =~= pre);
            assert(next[i as int] == ident_view(ps@[i as int]));
        }
        i = i + 1;
    }
    assert(ps@.subrange(0, n as int) == ps@);
}

/// Appends the text of `s` to `out`.
pub fn write_statement(out: &mut String, s: &Statement)
    ensures
        final(out)@ == old(out)@ + render_stmt(s@),
    decreases s,
{
    match s {
        Statement::LetStatement(l) => write_statement_let(out, l),
        Statement::ReturnStatement(r) => write_statement_return(out, r),
        Statement::ExpressionStatement(x) => {
            match &x.value {
                Some(v) => write_expression(out, v),
                None => {},
            }
        },
    }
}

fn write_statement_let(out: &mut String, l: &LetStatement)
    ensures
        final(out)@ == old(out)@ + render_stmt(stmt_model(Statement::LetStatement(*l))),
    decreases l,
{
    push_text(out, "LET ");
    push_text(out, l.name.value.as_str());
    push_text(out, " = ");
    match &l.value {
        Some(v) => write_expression(out, v),
        None => {},
    }
    push_text(out, ";");
}

fn write_statement_return(out: &mut String, r: &ReturnStatement)
    ensures
        final(out)@ == old(out)@ + render_stmt(stmt_model(Statement::ReturnStatement(*r))),
    decreases r,
{
    push_text(out, "RETURN ");
    match &r.value {
        Some(v) => write_expression(out, v),
        None => {},
    }
    push_text(out, ";");
}

/// Appends the texts of `ss`, one after another, to `out`.
pub fn write_statements(out: &mut String, ss: &Vec<Statement>)
    ensures
        final(out)@ == old(out)@ + render_stmts(stmts_model(ss@)),
    decreases ss,
{
    let n = ss.len();
    let mut i: usize = 0;
    while i < n
        invariant
            n == ss@.len(),
            i <= n,
            out@ == old(out)@ + render_stmts(stmts_model(ss@.subrange(0, i as int))),
        decreases n - i,
    {
        write_statement(out, &ss[i]);
        proof {
            lemma_stmts_model_push(ss@, i as int);
            let m = stmts_model(ss@.subrange(0, i as int));
            assert(m.push(stmt_model(ss@[i as int])).subrange(0, i as int) == m);
        }
        i = i + 1;
    }
    assert(ss@.subrange(0, n as int) == ss@);
}


/// What every node offers: the token it starts with, and its text.
pub trait TokenNode {
    spec fn spec_token_type(&self) -> TokenType;

    spec fn spec_token_literal(&self) -> Seq<char>;

    spec fn spec_string(&self) -> Seq<char>;

    fn token_type(&self) -> (r: TokenType)
        ensures
            r == self.spec_token_type(),
    ;

    fn token_literal(&self) -> (r: String)
        ensures
            r@ == self.spec_token_literal(),
    ;

    fn string(&self) -> (r: String)
        ensures
            r@ == self.spec_string(),
    ;
}


impl TokenNode for Identifier {
    open spec fn spec_token_type(&self) -> TokenType {
        self.token.token_type
    }

    open spec fn spec_token_literal(&self) -> Seq<char> {
        self.token.literal@
    }

    open spec fn spec_string(&self) -> Seq<char> {
        self.value@
    }

    fn token_type(&self) -> (r: TokenType) {
        self.token.token_type
    }

    fn token_literal(&self) -> (r: String) {
        self.token.literal.clone()
    }

    fn string(&self) -> (r: String) {
        let mut s = String::new();
        push_text(&mut s, self.value.as_str());
        s
    }
}


impl TokenNode for IntegerLiteral {
    open spec fn spec_token_type(&self) -> TokenType {
        self.token.token_type
    }

    open spec fn spec_token_literal(&self) -> Seq<char> {
        self.token.literal@
    }

    open spec fn spec_string(&self) -> Seq<char> {
        self.token.literal@
    }

    fn token_type(&self) -> (r: TokenType) {
        self.token.token_type
    }

    fn token_literal(&self) -> (r: String) {
        self.token.literal.clone()
    }

    fn string(&self) -> (r: String) {
        let mut s = String::new();
        push_text(&mut s, self.token.literal.as_str());
        s
    }
}


impl TokenNode for BooleanExpression {
    open spec fn spec_token_type(&self) -> TokenType {
        self.token.token_type
    }

    open spec fn spec_token_literal(&self) -> Seq<char> {
        self.token.literal@
    }

    open spec fn spec_string(&self) -> Seq<char> {
        render_bool(self.value)
    }

    fn token_type(&self) -> (r: TokenType) {
        self.token.token_type
    }

    fn token_literal(&self) -> (r: String) {
        self.token.literal.clone()
    }

    fn string(&self) -> (r: String) {
        let mut s = String::new();
        write_bool(&mut s, self.value);
        s
    }
}


impl TokenNode for PrefixExpression {
    open spec fn spec_token_type(&self) -> TokenType {
        self.token.token_type
    }

    open spec fn spec_token_literal(&self) -> Seq<char> {
        self.token.literal@
    }

    open spec fn spec_string(&self) -> Seq<char> {
        render_expr(expr_model(Expression::PrefixExpression(*self)))
    }

    fn token_type(&self) -> (r: TokenType) {
        self.token.token_type
    }

    fn token_literal(&self) -> (r: String) {
        self.token.literal.clone()
    }

    fn string(&self) -> (r: String) {
        let mut s = String::new();
        write_prefix(&mut s, self);
        s
    }
}


impl TokenNode for InfixExpression {
    open spec fn spec_token_type(&self) -> TokenType {
        self.token.token_type
    }

    open spec fn spec_token_literal(&self) -> Seq<char> {
        self.token.literal@
    }

    open spec fn spec_string(&self) -> Seq<char> {
        render_expr(expr_model(Expression::InfixExpression(*self)))
    }

    fn token_type(&self) -> (r: TokenType) {
        self.token.token_type
    }

    fn token_literal(&self) -> (r: String) {
        self.token.literal.clone()
    }

    fn string(&self) -> (r: String) {
        let mut s = String::new();
        write_infix(&mut s, self);
        s
    }
}


impl TokenNode for IfExpression {
    open spec fn spec_token_type(&self) -> TokenType {
        self.token.token_type
    }

    open spec fn spec_token_literal(&self) -> Seq<char> {
        self.token.literal@
    }

    open spec fn spec_string(&self) -> Seq<char> {
        render_expr(expr_model(Expression::IfExpression(*self)))
    }

    fn token_type(&self) -> (r: TokenType) {
        self.token.token_type
    }

    fn token_literal(&self) -> (r: String) {
        self.token.literal.clone()
    }

    fn string(&self) -> (r: String) {
        let mut s = String::new();
        write_if(&mut s, self);
        s
    }
}


impl TokenNode for FnLiteral {
    open spec fn spec_token_type(&self) -> TokenType {
        self.token.token_type
    }

    open spec fn spec_token_literal(&self) -> Seq<char> {
        self.token.literal@
    }

    open spec fn spec_string(&self) -> Seq<char> {
        render_expr(expr_model(Expression::FnLiteral(*self)))
    }

    fn token_type(&self) -> (r: TokenType) {
        self.token.token_type
    }

    fn token_literal(&self) -> (r: String) {
        self.token.literal.clone()
    }

    fn string(&self) -> (r: String) {
        let mut s = String::new();
        write_fn(&mut s, self);
        s
    }
}


impl TokenNode for CallExpression {
    open spec fn spec_token_type(&self) -> TokenType {
        self.token.token_type
    }

    open spec fn spec_token_literal(&self) -> Seq<char> {
        self.token.literal@
    }

    open spec fn spec_string(&self) -> Seq<char> {
        render_expr(expr_model(Expression::CallExpression(Box::new(*self))))
    }

    fn token_type(&self) -> (r: TokenType) {
        self.token.token_type
    }

    fn token_literal(&self) -> (r: String) {
        self.token.literal.clone()
    }

    fn string(&self) -> (r: String) {
        let mut s = String::new();
        write_call(&mut s, self);
        s
    }
}


impl TokenNode for LetStatement {
    open spec fn spec_token_type(&self) -> TokenType {
        TokenType::LET
    }

    open spec fn spec_token_literal(&self) -> Seq<char> {
        "LET"@
    }

    open spec fn spec_string(&self) -> Seq<char> {
        render_stmt(stmt_model(Statement::LetStatement(*self)))
    }

    fn token_type(&self) -> (r: TokenType) {
        TokenType::LET
    }

    fn token_literal(&self) -> (r: String) {
        text("LET")
    }

    fn string(&self) -> (r: String) {
        let mut s = String::new();
        write_statement_let(&mut s, self);
        s
    }
}


impl TokenNode for ReturnStatement {
    open spec fn spec_token_type(&self) -> TokenType {
        TokenType::RETURN
    }

    open spec fn spec_token_literal(&self) -> Seq<char> {
        "RETURN"@
    }

    open spec fn spec_string(&self) -> Seq<char> {
        render_stmt(stmt_model(Statement::ReturnStatement(*self)))
    }

    fn token_type(&self) -> (r: TokenType) {
        TokenType::RETURN
    }

    fn token_literal(&self) -> (r: String) {
        text("RETURN")
    }

    fn string(&self) -> (r: String) {
        let mut s = String::new();
        write_statement_return(&mut s, self);
        s
    }
}


impl TokenNode for ExpressionStatement {
    open spec fn spec_token_type(&self) -> TokenType {
        self.token.token_type
    }

    open spec fn spec_token_literal(&self) -> Seq<char> {
        self.token.literal@
    }

    open spec fn spec_string(&self) -> Seq<char> {
        render_stmt(stmt_model(Statement::ExpressionStatement(*self)))
    }

    fn token_type(&self) -> (r: TokenType) {
        self.token.token_type
    }

    fn token_literal(&self) -> (r: String) {
        self.token.literal.clone()
    }

    fn string(&self) -> (r: String) {
        let mut s = String::new();
        match &self.value {
            Some(v) => write_expression(&mut s, v),
            None => {},
        }
        s
    }
}


impl TokenNode for BlockStatement {
    open spec fn spec_token_type(&self) -> TokenType {
        self.token.token_type
    }

    open spec fn spec_token_literal(&self) -> Seq<char> {
        self.token.literal@
    }

    open spec fn spec_string(&self) -> Seq<char> {
        render_stmts(stmts_model(self.statements@))
    }

    fn token_type(&self) -> (r: TokenType) {
        self.token.token_type
    }

    fn token_literal(&self) -> (r: String) {
        self.token.literal.clone()
    }

    fn string(&self) -> (r: String) {
        let mut s = String::new();
        write_statements(&mut s, &self.statements);
        s
    }
}


impl TokenNode for Statement {
    open spec fn spec_token_type(&self) -> TokenType {
        match self {
            Statement::ExpressionStatement(x) => x.token.token_type,
            Statement::LetStatement(_) => TokenType::LET,
            Statement::ReturnStatement(_) => TokenType::RETURN,
        }
    }

    open spec fn spec_token_literal(&self) -> Seq<char> {
        match self {
            Statement::ExpressionStatement(x) => x.token.literal@,
            Statement::LetStatement(_) => "LET"@,
            Statement::ReturnStatement(_) => "RETURN"@,
        }
    }

    open spec fn spec_string(&self) -> Seq<char> {
        render_stmt(self@)
    }

    fn token_type(&self) -> (r: TokenType) {
        match self {
            Statement::ExpressionStatement(x) => x.token_type(),
            Statement::LetStatement(x) => x.token_type(),
            Statement::ReturnStatement(x) => x.token_type(),
        }
    }

    fn token_literal(&self) -> (r: String) {
        match self {
            Statement::ExpressionStatement(x) => x.token_literal(),
            Statement::LetStatement(x) => x.token_literal(),
            Statement::ReturnStatement(x) => x.token_literal(),
        }
    }

    fn string(&self) -> (r: String) {
        let mut s = String::new();
        write_statement(&mut s, self);
        s
    }
}


impl TokenNode for Program {
    open spec fn spec_token_type(&self) -> TokenType {
        if self.statements@.len() > 0 {
            self.statements@[0].spec_token_type()
        } else {
            TokenType::EOF
        }
    }

    open spec fn spec_token_literal(&self) -> Seq<char> {
        if self.statements@.len() > 0 {
            self.statements@[0].spec_token_literal()
        } else {
            Seq::empty()
        }
    }

    open spec fn spec_string(&self) -> Seq<char> {
        render_stmts(stmts_model(self.statements@))
    }

    fn token_type(&self) -> (r: TokenType) {
        if self.statements.len() > 0 {
            self.statements[0].token_type()
        } else {
            TokenType::EOF
        }
    }

    fn token_literal(&self) -> (r: String) {
        if self.statements.len() > 0 {
            self.statements[0].token_literal()
        } else {
            String::new()
        }
    }

    fn string(&self) -> (r: String) {
        let mut s = String::new();
        write_statements(&mut s, &self.statements);
        s
    }
}

impl Expression {
    /// The text of this expression.
    pub fn string(&self) -> (r: String)
        ensures
            r@ == render_expr(self@),
    {
        let mut s = String::new();
        write_expression(&mut s, self);
        s
    }
}

} // verus!
