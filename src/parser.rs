use vstd::prelude::*;

use crate::ast::{
    ident_view, params_model, tok_view, TokView, block_model, box_model, expr_model, exprs_model, opt_model, stmt_model, stmts_model, Block,
    BlockStatement, BooleanExpression, CallExpression, Expr, Expression, ExpressionStatement,
    FnLiteral, Identifier, IfExpression, InfixExpression, IntegerLiteral, LetStatement,
    PrefixExpression, Program, ReturnStatement, Statement, Stmt,
};
use crate::chars::{digits_to_i64, digits_value, is_digit, push_text, text};
use crate::lexer::{lemma_lexeme_progress, lemma_skip_spaces, lex_all, next_lexeme, skip_spaces, Lexer};
use crate::operators::{
    get_operator_precedence, get_token_type_operator_precedence, precedence_of, rank, Operator,
};
use crate::token::{Token, TokenType};

verus! {

/// The outcome of one parsing step: what was built, how many tokens the cursor
/// moved forward, and the error list afterwards.
pub struct Parsed<T> {
    pub out: T,
    pub used: nat,
    pub errs: Seq<Seq<char>>,
}

/// The kind of the token at `p`; every position past the end reads as `EOF`.
pub open spec fn kind_at(toks: Seq<TokView>, p: int) -> TokenType {
    view_at(toks, p).0
}

/// The token at `p`; every position past the end reads as an `EOF` with no text.
pub open spec fn view_at(toks: Seq<TokView>, p: int) -> TokView {
    if 0 <= p < toks.len() {
        toks[p]
    } else {
        (TokenType::EOF, Seq::empty())
    }
}

pub open spec fn clip(x: int) -> nat {
    if x < 0 {
        0
    } else {
        x as nat
    }
}

/// Kinds that can start an expression.
pub open spec fn has_prefix(t: TokenType) -> bool {
    t == TokenType::IDENT || t == TokenType::INT || t == TokenType::BANG || t == TokenType::MINUS
        || t == TokenType::TRUE || t == TokenType::FALSE || t == TokenType::LPAREN || t
        == TokenType::IF || t == TokenType::FUNCTION
}

/// Kinds that are binary operators.
pub open spec fn is_infix_kind(t: TokenType) -> bool {
    t == TokenType::PLUS || t == TokenType::MINUS || t == TokenType::SLASH || t
        == TokenType::ASTERISK || t == TokenType::EQ || t == TokenType::NotEq || t == TokenType::GT
        || t == TokenType::LT
}

pub open spec fn peek_error(expected: TokenType, got: TokenType) -> Seq<char> {
    if got == TokenType::EOF {
        "expected next token to be "@ + expected.spec_name() + ", but none exists"@
    } else {
        "expected next token to be "@ + expected.spec_name() + ", got "@ + got.spec_name()
            + " instead"@
    }
}

pub open spec fn no_prefix_error(t: TokenType) -> Seq<char> {
    "no prefix parse function for "@ + t.spec_name()
}

pub open spec fn int_error(lit: Seq<char>) -> Seq<char> {
    "could not parse "@ + lit + " as integer"@
}

/// The value of an integer literal: a non-empty run of digits that fits in an `i64`.
pub open spec fn int_value(lit: Seq<char>) -> Option<int> {
    if lit.len() > 0 && (forall|i: int| 0 <= i < lit.len() ==> is_digit(#[trigger] lit[i]))
        && digits_value(lit) <= i64::MAX {
        Some(digits_value(lit))
    } else {
        None
    }
}

pub open spec fn ident_of(t: TokView) -> (TokView, Seq<char>) {
    (t, t.1)
}

pub open spec fn opt_box(e: Option<Expr>) -> Option<Box<Expr>> {
    match e {
        Some(x) => Some(Box::new(x)),
        None => None,
    }
}

/// Moves to the next token when it has kind `t`; records an error otherwise.
pub open spec fn expect(toks: Seq<TokView>, p: int, errs: Seq<Seq<char>>, t: TokenType) -> Parsed<
    bool,
> {
    if kind_at(toks, p + 1) == t {
        Parsed { out: true, used: 1, errs }
    } else {
        Parsed { out: false, used: 0, errs: errs.push(peek_error(t, kind_at(toks, p + 1))) }
    }
}

/// How far a statement reaches past its last token `q`: over a following `;`,
/// and onto the next token, but never past the end.
pub open spec fn statement_end(toks: Seq<TokView>, q: int) -> nat {
    if kind_at(toks, q + 1) == TokenType::SEMICOLON {
        2
    } else if kind_at(toks, q) == TokenType::EOF {
        0
    } else {
        1
    }
}

/// The tokens skipped to drop a broken statement: up to and including the next `;`,
/// stopping before a `}` or the end.
pub open spec fn resync(toks: Seq<TokView>, p: int) -> nat
    decreases clip(toks.len() - p),
{
    let t = kind_at(toks, p);
    if t == TokenType::SEMICOLON {
        1
    } else if t == TokenType::RBRACE || t == TokenType::EOF {
        0
    } else {
        1 + resync(toks, p + 1)
    }
}

/// Parses an expression whose first token is at `p`, folding in operators that bind
/// more tightly than `prec`. The cursor ends on the expression's last token.
pub open spec fn p_expr(toks: Seq<TokView>, p: int, errs: Seq<Seq<char>>, prec: int) -> Parsed<
    Option<Expr>,
>
    decreases clip(toks.len() - p), 9nat,
{
    let t = kind_at(toks, p);
    if !has_prefix(t) {
        Parsed { out: None, used: 0, errs: errs.push(no_prefix_error(t)) }
    } else {
        let a = p_prefix(toks, p, errs);
        match a.out {
            None => a,
            Some(left) => {
                let b = p_loop(toks, p + a.used, a.errs, prec, left);
                Parsed { out: b.out, used: a.used + b.used, errs: b.errs }
            },
        }
    }
}

/// Folds operators after `left`, whose last token is at `p`.
pub open spec fn p_loop(
    toks: Seq<TokView>,
    p: int,
    errs: Seq<Seq<char>>,
    prec: int,
    left: Expr,
) -> Parsed<Option<Expr>>
    decreases clip(toks.len() - p), 7nat,
{
    let pk = kind_at(toks, p + 1);
    if pk == TokenType::SEMICOLON || prec >= rank(precedence_of(pk)) {
        Parsed { out: Some(left), used: 0, errs }
    } else if is_infix_kind(pk) {
        let a = p_infix(toks, p + 1, errs, left);
        let b = p_loop(toks, p + 1 + a.used, a.errs, prec, a.out);
        Parsed { out: b.out, used: 1 + a.used + b.used, errs: b.errs }
    } else if pk == TokenType::LPAREN {
        let a = p_call(toks, p + 1, errs, left);
        match a.out {
            None => Parsed { out: None, used: 1 + a.used, errs: a.errs },
            Some(e) => {
                let b = p_loop(toks, p + 1 + a.used, a.errs, prec, e);
                Parsed { out: b.out, used: 1 + a.used + b.used, errs: b.errs }
            },
        }
    } else {
        Parsed { out: Some(left), used: 0, errs }
    }
}

/// The operator at `p` applied to `left` and to the operand parsed after it.
pub open spec fn p_infix(toks: Seq<TokView>, p: int, errs: Seq<Seq<char>>, left: Expr) -> Parsed<
    Expr,
>
    decreases clip(toks.len() - p), 6nat,
{
    if !(0 <= p < toks.len()) {
        Parsed { out: left, used: 0, errs }
    } else {
        let tok = toks[p];
        let r = p_expr(toks, p + 1, errs, rank(precedence_of(tok.0)));
        Parsed {
            out: Expr::Infix(tok, tok.1, Some(Box::new(left)), opt_box(r.out)),
            used: 1 + r.used,
            errs: r.errs,
        }
    }
}

/// A call of `f` whose `(` is at `p`.
pub open spec fn p_call(toks: Seq<TokView>, p: int, errs: Seq<Seq<char>>, f: Expr) -> Parsed<
    Option<Expr>,
>
    decreases clip(toks.len() - p), 6nat,
{
    if !(0 <= p < toks.len()) {
        Parsed { out: None, used: 0, errs }
    } else {
        let a = p_args(toks, p, errs);
        match a.out {
            None => Parsed { out: None, used: a.used, errs: a.errs },
            Some(args) => Parsed {
                out: Some(Expr::Call(toks[p], Box::new(f), args)),
                used: a.used,
                errs: a.errs,
            },
        }
    }
}

/// The arguments of a call whose `(` is at `p`, up to the closing `)`.
pub open spec fn p_args(toks: Seq<TokView>, p: int, errs: Seq<Seq<char>>) -> Parsed<
    Option<Seq<Expr>>,
>
    decreases clip(toks.len() - p), 5nat,
{
    if !(0 <= p < toks.len()) {
        Parsed { out: None, used: 0, errs }
    } else if kind_at(toks, p + 1) == TokenType::RPAREN {
        Parsed { out: Some(Seq::empty()), used: 1, errs }
    } else {
        let a = p_expr(toks, p + 1, errs, rank(Operator::LOWEST));
        match a.out {
            None => Parsed { out: None, used: 1 + a.used, errs: a.errs },
            Some(e) => {
                let b = p_more_args(toks, p + 1 + a.used, a.errs, seq![e]);
                Parsed { out: b.out, used: 1 + a.used + b.used, errs: b.errs }
            },
        }
    }
}

/// Further arguments after one whose last token is at `p`, then the closing `)`.
pub open spec fn p_more_args(
    toks: Seq<TokView>,
    p: int,
    errs: Seq<Seq<char>>,
    acc: Seq<Expr>,
) -> Parsed<Option<Seq<Expr>>>
    decreases clip(toks.len() - p), 4nat,
{
    if kind_at(toks, p + 1) == TokenType::COMMA {
        let a = p_expr(toks, p + 2, errs, rank(Operator::LOWEST));
        match a.out {
            None => Parsed { out: None, used: 2 + a.used, errs: a.errs },
            Some(e) => {
                let b = p_more_args(toks, p + 2 + a.used, a.errs, acc.push(e));
                Parsed { out: b.out, used: 2 + a.used + b.used, errs: b.errs }
            },
        }
    } else {
        let x = expect(toks, p, errs, TokenType::RPAREN);
        if x.out {
            Parsed { out: Some(acc), used: 1, errs: x.errs }
        } else {
            Parsed { out: None, used: 0, errs: x.errs }
        }
    }
}

/// The expression that starts with the token at `p`, before any infix operator.
pub open spec fn p_prefix(toks: Seq<TokView>, p: int, errs: Seq<Seq<char>>) -> Parsed<Option<Expr>>
    decreases clip(toks.len() - p), 8nat,
{
    if !(0 <= p < toks.len()) {
        Parsed { out: None, used: 0, errs }
    } else {
        let tok = toks[p];
        let t = tok.0;
        if t == TokenType::IDENT {
            Parsed { out: Some(Expr::Ident(tok, tok.1)), used: 0, errs }
        } else if t == TokenType::INT {
            match int_value(tok.1) {
                Some(v) => Parsed { out: Some(Expr::Int(tok, v as i64)), used: 0, errs },
                None => Parsed { out: None, used: 0, errs: errs.push(int_error(tok.1)) },
            }
        } else if t == TokenType::TRUE || t == TokenType::FALSE {
            Parsed { out: Some(Expr::Bool(tok, t == TokenType::TRUE)), used: 0, errs }
        } else if t == TokenType::BANG || t == TokenType::MINUS {
            let r = p_expr(toks, p + 1, errs, rank(Operator::PREFIX));
            Parsed {
                out: Some(Expr::Prefix(tok, tok.1, opt_box(r.out))),
                used: 1 + r.used,
                errs: r.errs,
            }
        } else if t == TokenType::LPAREN {
            let r = p_expr(toks, p + 1, errs, rank(Operator::LOWEST));
            match r.out {
                None => Parsed { out: None, used: 1 + r.used, errs: r.errs },
                Some(e) => {
                    let x = expect(toks, p + 1 + r.used, r.errs, TokenType::RPAREN);
                    if x.out {
                        Parsed { out: Some(e), used: 2 + r.used, errs: x.errs }
                    } else {
                        Parsed { out: None, used: 1 + r.used, errs: x.errs }
                    }
                },
            }
        } else if t == TokenType::IF {
            p_if(toks, p, errs)
        } else if t == TokenType::FUNCTION {
            p_fn(toks, p, errs)
        } else {
            Parsed { out: None, used: 0, errs }
        }
    }
}

/// `if ( <condition> ) { <block> }`, optionally followed by `else { <block> }`.
pub open spec fn p_if(toks: Seq<TokView>, p: int, errs: Seq<Seq<char>>) -> Parsed<Option<Expr>>
    decreases clip(toks.len() - p), 7nat,
{
    let x1 = expect(toks, p, errs, TokenType::LPAREN);
    if !(0 <= p < toks.len()) || !x1.out {
        Parsed { out: None, used: 0, errs: x1.errs }
    } else {
        let c = p_expr(toks, p + 2, x1.errs, rank(Operator::LOWEST));
        match c.out {
            None => Parsed { out: None, used: 2 + c.used, errs: c.errs },
            Some(cond) => {
                let q = p + 2 + c.used;
                let x2 = expect(toks, q, c.errs, TokenType::RPAREN);
                if !x2.out {
                    Parsed { out: None, used: 2 + c.used, errs: x2.errs }
                } else {
                    let x3 = expect(toks, q + 1, x2.errs, TokenType::LBRACE);
                    if !x3.out {
                        Parsed { out: None, used: 3 + c.used, errs: x3.errs }
                    } else {
                        let b = p_block(toks, q + 2, x3.errs);
                        let cons = Block { token: toks[q + 2], statements: b.out };
                        let r = q + 2 + b.used;
                        if kind_at(toks, r + 1) == TokenType::ELSE {
                            let x4 = expect(toks, r + 1, b.errs, TokenType::LBRACE);
                            if !x4.out {
                                Parsed { out: None, used: 5 + c.used + b.used, errs: x4.errs }
                            } else {
                                let a = p_block(toks, r + 2, x4.errs);
                                let alt = Block { token: toks[r + 2], statements: a.out };
                                Parsed {
                                    out: Some(Expr::If(toks[p], Box::new(cond), cons, Some(alt))),
                                    used: 6 + c.used + b.used + a.used,
                                    errs: a.errs,
                                }
                            }
                        } else {
                            Parsed {
                                out: Some(Expr::If(toks[p], Box::new(cond), cons, None)),
                                used: 4 + c.used + b.used,
                                errs: b.errs,
                            }
                        }
                    }
                }
            },
        }
    }
}

/// `fn ( <parameters> ) { <block> }`.
pub open spec fn p_fn(toks: Seq<TokView>, p: int, errs: Seq<Seq<char>>) -> Parsed<Option<Expr>>
    decreases clip(toks.len() - p), 7nat,
{
    let x1 = expect(toks, p, errs, TokenType::LPAREN);
    if !(0 <= p < toks.len()) || !x1.out {
        Parsed { out: None, used: 0, errs: x1.errs }
    } else {
        let ps = p_params(toks, p + 1, x1.errs);
        match ps.out {
            None => Parsed { out: None, used: 1 + ps.used, errs: ps.errs },
            Some(params) => {
                let q = p + 1 + ps.used;
                let x2 = expect(toks, q, ps.errs, TokenType::LBRACE);
                if !x2.out {
                    Parsed { out: None, used: 1 + ps.used, errs: x2.errs }
                } else {
                    let b = p_block(toks, q + 1, x2.errs);
                    let body = Block { token: toks[q + 1], statements: b.out };
                    Parsed {
                        out: Some(Expr::Fn(toks[p], params, Some(body))),
                        used: 2 + ps.used + b.used,
                        errs: b.errs,
                    }
                }
            },
        }
    }
}

/// The parameter list whose `(` is at `p`, up to the closing `)`.
pub open spec fn p_params(toks: Seq<TokView>, p: int, errs: Seq<Seq<char>>) -> Parsed<
    Option<Seq<(TokView, Seq<char>)>>,
> {
    if kind_at(toks, p + 1) == TokenType::RPAREN {
        Parsed { out: Some(Seq::empty()), used: 1, errs }
    } else {
        let x = expect(toks, p, errs, TokenType::IDENT);
        if !x.out {
            Parsed { out: None, used: 0, errs: x.errs }
        } else {
            let r = p_more_params(toks, p + 1, x.errs, seq![ident_of(toks[p + 1])]);
            Parsed { out: r.out, used: 1 + r.used, errs: r.errs }
        }
    }
}

/// Further parameters after one at `p`, then the closing `)`.
pub open spec fn p_more_params(
    toks: Seq<TokView>,
    p: int,
    errs: Seq<Seq<char>>,
    acc: Seq<(TokView, Seq<char>)>,
) -> Parsed<Option<Seq<(TokView, Seq<char>)>>>
    decreases clip(toks.len() - p),
{
    if kind_at(toks, p + 1) == TokenType::COMMA {
        let x = expect(toks, p + 1, errs, TokenType::IDENT);
        if !x.out {
            Parsed { out: None, used: 1, errs: x.errs }
        } else {
            let r = p_more_params(toks, p + 2, x.errs, acc.push(ident_of(toks[p + 2])));
            Parsed { out: r.out, used: 2 + r.used, errs: r.errs }
        }
    } else {
        let x = expect(toks, p, errs, TokenType::RPAREN);
        if x.out {
            Parsed { out: Some(acc), used: 1, errs: x.errs }
        } else {
            Parsed { out: None, used: 0, errs: x.errs }
        }
    }
}

/// The statements of a block whose `{` is at `p`; the cursor ends on the closing `}`.
pub open spec fn p_block(toks: Seq<TokView>, p: int, errs: Seq<Seq<char>>) -> Parsed<Seq<Stmt>>
    decreases clip(toks.len() - p), 13nat,
{
    if !(0 <= p < toks.len()) {
        Parsed { out: Seq::empty(), used: 0, errs }
    } else {
        let r = p_block_stmts(toks, p + 1, errs, Seq::empty());
        Parsed { out: r.out, used: 1 + r.used, errs: r.errs }
    }
}

pub open spec fn push_some<T>(acc: Seq<T>, x: Option<T>) -> Seq<T> {
    match x {
        Some(v) => acc.push(v),
        None => acc,
    }
}

/// Statements from `p` on, until a `}` or the end.
pub open spec fn p_block_stmts(
    toks: Seq<TokView>,
    p: int,
    errs: Seq<Seq<char>>,
    acc: Seq<Stmt>,
) -> Parsed<Seq<Stmt>>
    decreases clip(toks.len() - p), 12nat,
{
    let t = kind_at(toks, p);
    if t == TokenType::RBRACE || t == TokenType::EOF {
        Parsed { out: acc, used: 0, errs }
    } else {
        let s = p_stmt(toks, p, errs);
        if s.used == 0 {
            Parsed { out: acc, used: 0, errs: s.errs }
        } else {
            let r = p_block_stmts(toks, p + s.used, s.errs, push_some(acc, s.out));
            Parsed { out: r.out, used: s.used + r.used, errs: r.errs }
        }
    }
}

/// One statement starting at `p`; the cursor ends on the token after it.
pub open spec fn p_stmt(toks: Seq<TokView>, p: int, errs: Seq<Seq<char>>) -> Parsed<Option<Stmt>>
    decreases clip(toks.len() - p), 11nat,
{
    let t = kind_at(toks, p);
    if t == TokenType::LET {
        p_let(toks, p, errs)
    } else if t == TokenType::RETURN {
        p_return(toks, p, errs)
    } else {
        p_expr_stmt(toks, p, errs)
    }
}

/// `let <name> = <expression>`; a broken one is dropped up to the next `;`.
pub open spec fn p_let(toks: Seq<TokView>, p: int, errs: Seq<Seq<char>>) -> Parsed<Option<Stmt>>
    decreases clip(toks.len() - p), 10nat,
{
    let x1 = expect(toks, p, errs, TokenType::IDENT);
    if kind_at(toks, p) == TokenType::EOF {
        Parsed { out: None, used: 0, errs }
    } else if !x1.out {
        Parsed { out: None, used: 1 + resync(toks, p + 1), errs: x1.errs }
    } else {
        let x2 = expect(toks, p + 1, x1.errs, TokenType::ASSIGN);
        if !x2.out {
            Parsed { out: None, used: 2 + resync(toks, p + 2), errs: x2.errs }
        } else {
            let v = p_expr(toks, p + 3, x2.errs, rank(Operator::LOWEST));
            Parsed {
                out: Some(Stmt::Let(view_at(toks, p), ident_of(view_at(toks, p + 1)), v.out)),
                used: 3 + v.used + statement_end(toks, p + 3 + v.used),
                errs: v.errs,
            }
        }
    }
}

/// `return`, with an optional expression.
pub open spec fn p_return(toks: Seq<TokView>, p: int, errs: Seq<Seq<char>>) -> Parsed<Option<Stmt>>
    decreases clip(toks.len() - p), 10nat,
{
    let t1 = kind_at(toks, p + 1);
    if kind_at(toks, p) == TokenType::EOF {
        Parsed { out: None, used: 0, errs }
    } else if t1 == TokenType::SEMICOLON {
        Parsed { out: Some(Stmt::Return(view_at(toks, p), None)), used: 2, errs }
    } else if t1 == TokenType::RBRACE || t1 == TokenType::EOF {
        Parsed { out: Some(Stmt::Return(view_at(toks, p), None)), used: 1, errs }
    } else {
        let v = p_expr(toks, p + 1, errs, rank(Operator::LOWEST));
        Parsed {
            out: Some(Stmt::Return(view_at(toks, p), v.out)),
            used: 1 + v.used + statement_end(toks, p + 1 + v.used),
            errs: v.errs,
        }
    }
}

/// An expression used as a statement.
pub open spec fn p_expr_stmt(toks: Seq<TokView>, p: int, errs: Seq<Seq<char>>) -> Parsed<
    Option<Stmt>,
>
    decreases clip(toks.len() - p), 10nat,
{
    if kind_at(toks, p) == TokenType::EOF {
        Parsed { out: None, used: 0, errs }
    } else {
        let v = p_expr(toks, p, errs, rank(Operator::LOWEST));
        Parsed {
            out: Some(Stmt::Expr(view_at(toks, p), v.out)),
            used: v.used + statement_end(toks, p + v.used),
            errs: v.errs,
        }
    }
}

/// The statements of a whole program, from `p` to the end.
pub open spec fn p_program(toks: Seq<TokView>, p: int, errs: Seq<Seq<char>>, acc: Seq<Stmt>) -> Parsed<
    Seq<Stmt>,
>
    decreases clip(toks.len() - p),
{
    if kind_at(toks, p) == TokenType::EOF {
        Parsed { out: acc, used: 0, errs }
    } else {
        let s = p_stmt(toks, p, errs);
        if s.used == 0 {
            Parsed { out: acc, used: 0, errs: s.errs }
        } else {
            let r = p_program(toks, p + s.used, s.errs, push_some(acc, s.out));
            Parsed { out: r.out, used: s.used + r.used, errs: r.errs }
        }
    }
}

/// A statement that starts on a token other than `EOF` uses at least that token.
pub(crate) proof fn lemma_stmt_progress(toks: Seq<TokView>, p: int, errs: Seq<Seq<char>>)
    requires
        kind_at(toks, p) != TokenType::EOF,
    ensures
        p_stmt(toks, p, errs).used >= 1,
{
    let v = p_expr(toks, p, errs, rank(Operator::LOWEST));
    if v.used == 0 {
        assert(statement_end(toks, p + v.used) >= 1);
    }
}

/// The text of each error message.
pub open spec fn errs_view(es: Seq<String>) -> Seq<Seq<char>> {
    es.map_values(|e: String| e@)
}

pub open spec fn opt_stmt_model(s: Option<Statement>) -> Option<Stmt> {
    match s {
        Some(x) => Some(stmt_model(x)),
        None => None,
    }
}

pub proof fn lemma_box_model(x: Option<Expression>)
    ensures
        box_model(
            match x {
                Some(e) => Some(Box::new(e)),
                None => None,
            },
        ) == opt_box(opt_model(x)),
{
    match x {
        Some(e) => {
            assert(box_model(Some(Box::new(e))) == Some(Box::new(expr_model(e))));
        },
        None => {},
    }
}

pub proof fn lemma_exprs_model_snoc(es: Seq<Expression>, x: Expression)
    ensures
        exprs_model(es.push(x)) == exprs_model(es).push(expr_model(x)),
{
    assert(es.push(x).subrange(0, es.len() as int) == es);
}

pub proof fn lemma_stmts_model_snoc(ss: Seq<Statement>, x: Statement)
    ensures
        stmts_model(ss.push(x)) == stmts_model(ss).push(stmt_model(x)),
{
    assert(ss.push(x).subrange(0, ss.len() as int) == ss);
}

/// The value of an integer literal, or `None` when it is no run of digits or does not fit.
pub fn parse_int_literal(s: &str) -> (r: Option<i64>)
    ensures
        match int_value(s@) {
            Some(v) => r == Some(v as i64),
            None => r is None,
        },
{
    let n = s.unicode_len();
    if n == 0 {
        return None;
    }
    let mut i: usize = 0;
    while i < n
        invariant
            n == s@.len(),
            i <= n,
            forall|k: int| 0 <= k < i ==> is_digit(#[trigger] s@[k]),
        decreases n - i,
    {
        let c = s.get_char(i);
        if !('0' <= c && c <= '9') {
            assert(!is_digit(s@[i as int]));
            return None;
        }
        i = i + 1;
    }
    digits_to_i64(s)
}

/// The tokens from `k` on, as the lexer still has them to give: `EOF` alone past the end.
pub open spec fn rest(toks: Seq<TokView>, k: int) -> Seq<TokView> {
    if 0 <= k < toks.len() {
        toks.subrange(k, toks.len() as int)
    } else {
        seq![(TokenType::EOF, Seq::<char>::empty())]
    }
}

/// Reading one token from a lexer whose remaining tokens are `rest(toks, k)` gives the
/// token at `k` and leaves `rest(toks, k + 1)`.
proof fn lemma_pull(s: Seq<char>, c: nat, toks: Seq<TokView>, k: int)
    requires
        c <= s.len(),
        0 <= k,
        lex_all(s, c) == rest(toks, k),
    ensures
        (next_lexeme(s, c).0, next_lexeme(s, c).1) == view_at(toks, k),
        next_lexeme(s, c).2 <= s.len(),
        lex_all(s, next_lexeme(s, c).2) == rest(toks, k + 1),
{
    let t = next_lexeme(s, c);
    lemma_lexeme_progress(s, c);
    lemma_skip_spaces(s, c);
    assert(rest(toks, k)[0] == (t.0, t.1));
    if 0 <= k < toks.len() {
        assert(toks.subrange(k, toks.len() as int)[0] == toks[k]);
    }
    if t.0 == TokenType::EOF {
        let j = skip_spaces(s, c);
        assert(t.2 == j);
        assert(t.1 == Seq::<char>::empty());
        lemma_skip_spaces(s, j);
        assert(skip_spaces(s, j) == j);
        assert(lex_all(s, j) == seq![(TokenType::EOF, Seq::<char>::empty())]);
        assert(rest(toks, k).len() == 1);
    } else {
        assert(lex_all(s, c) == seq![(t.0, t.1)] + lex_all(s, t.2));
        assert(lex_all(s, t.2).len() >= 1);
        assert(toks.subrange(k + 1, toks.len() as int) == toks.subrange(k, toks.len() as int).subrange(
            1,
            toks.len() - k,
        ));
        assert(lex_all(s, t.2) == (seq![(t.0, t.1)] + lex_all(s, t.2)).subrange(
            1,
            lex_all(s, c).len() as int,
        ));
    }
}

/// Builds the tree of a program from the tokens of a lexer, collecting syntax errors
/// on the way. It holds the current token and the one after it, and reads the next
/// from the lexer as it moves on.
pub struct Parser {
    l: Lexer,
    pub errors: Vec<String>,
    pub current_token: Option<Token>,
    pub peek_token: Option<Token>,
    stream: Ghost<Seq<TokView>>,
    at: Ghost<int>,
}

impl Parser {
    /// Every token of the input, as the lexer gives them up to the first `EOF`.
    pub closed spec fn toks(&self) -> Seq<TokView> {
        self.stream@
    }

    /// The position of the current token.
    pub closed spec fn pos(&self) -> int {
        self.at@
    }

    /// The error messages so far.
    pub closed spec fn errs(&self) -> Seq<Seq<char>> {
        errs_view(self.errors@)
    }

    /// How many tokens lie ahead of the current one.
    pub closed spec fn remaining(&self) -> int {
        clip(self.stream@.len() - self.at@) as int
    }

    pub closed spec fn wf(&self) -> bool {
        &&& self.l.wf()
        &&& 0 <= self.at@
        &&& lex_all(self.l.text(), self.l.cursor()) == rest(self.stream@, self.at@ + 2)
        &&& self.current_token matches Some(c) && tok_view(c) == view_at(self.stream@, self.at@)
        &&& self.peek_token matches Some(n) && tok_view(n) == view_at(self.stream@, self.at@ + 1)
    }

    /// `self` is what `before` became after the parsing step `s`.
    pub open spec fn moved<T>(&self, before: Parser, s: Parsed<T>) -> bool {
        &&& self.wf()
        &&& self.toks() == before.toks()
        &&& self.pos() == before.pos() + s.used
        &&& self.errs() == s.errs
    }

    /// A parser that takes over `l` and stands on its first token; `l` is left empty.
    pub fn new(l: &mut Lexer) -> (p: Parser)
        requires
            old(l).wf(),
        ensures
            final(l).wf(),
            p.wf(),
            p.toks() == lex_all(old(l).text(), old(l).cursor()),
            p.pos() == 0,
            p.errs() == Seq::<Seq<char>>::empty(),
    {
        let mut lexer = Lexer::new("");
        core::mem::swap(l, &mut lexer);
        let ghost stream = lex_all(lexer.text(), lexer.cursor());
        proof {
            lexer.lemma_cursor();
            lemma_lexeme_progress(lexer.text(), lexer.cursor());
            assert(stream.len() >= 1);
            assert(rest(stream, 0) == stream);
            lemma_pull(lexer.text(), lexer.cursor(), stream, 0);
        }
        let c = lexer.next_token();
        proof {
            lexer.lemma_cursor();
            lemma_pull(lexer.text(), lexer.cursor(), stream, 1);
        }
        let n = lexer.next_token();
        let p = Parser {
            l: lexer,
            errors: Vec::new(),
            current_token: Some(c),
            peek_token: Some(n),
            stream: Ghost(stream),
            at: Ghost(0),
        };
        assert(p.errs() =~= Seq::<Seq<char>>::empty());
        p
    }

    fn kind(&self) -> (r: TokenType)
        requires
            self.wf(),
        ensures
            r == kind_at(self.toks(), self.pos()),
    {
        match &self.current_token {
            Some(t) => t.token_type,
            None => TokenType::EOF,
        }
    }

    fn peek_kind(&self) -> (r: TokenType)
        requires
            self.wf(),
        ensures
            r == kind_at(self.toks(), self.pos() + 1),
    {
        match &self.peek_token {
            Some(t) => t.token_type,
            None => TokenType::EOF,
        }
    }

    fn current(&self) -> (r: Token)
        requires
            self.wf(),
        ensures
            tok_view(r) == view_at(self.toks(), self.pos()),
    {
        match &self.current_token {
            Some(t) => t.copy(),
            None => Token { literal: String::new(), token_type: TokenType::EOF },
        }
    }

    /// Moves to the next token, reading one more from the lexer; past the end every
    /// token is `EOF`.
    pub fn next_token(&mut self)
        requires
            old(self).wf(),
        ensures
            final(self).wf(),
            final(self).toks() == old(self).toks(),
            final(self).errs() == old(self).errs(),
            final(self).pos() == old(self).pos() + 1,
    {
        proof {
            self.l.lemma_cursor();
            lemma_pull(self.l.text(), self.l.cursor(), self.stream@, self.at@ + 2);
        }
        let t = self.l.next_token();
        let mut n = Some(t);
        core::mem::swap(&mut self.peek_token, &mut n);
        self.current_token = n;
        self.at = Ghost(self.at@ + 1);
    }

    /// Whether the current token has kind `tt`.
    pub fn current_token_is(&self, tt: TokenType) -> (r: bool)
        requires
            self.wf(),
        ensures
            r == (kind_at(self.toks(), self.pos()) == tt),
    {
        self.kind() == tt
    }

    /// Whether the next token has kind `tt`.
    pub fn peek_token_is(&self, tt: TokenType) -> (r: bool)
        requires
            self.wf(),
        ensures
            r == (kind_at(self.toks(), self.pos() + 1) == tt),
    {
        self.peek_kind() == tt
    }

    /// The level at which the next token binds.
    pub fn peek_precedence(&self) -> (r: Operator)
        requires
            self.wf(),
        ensures
            r == precedence_of(kind_at(self.toks(), self.pos() + 1)),
    {
        get_token_type_operator_precedence(self.peek_kind())
    }

    /// The level at which the current token binds.
    pub fn current_precedence(&self) -> (r: Operator)
        requires
            self.wf(),
        ensures
            r == precedence_of(kind_at(self.toks(), self.pos())),
    {
        get_token_type_operator_precedence(self.kind())
    }

    fn push_error(&mut self, m: String)
        requires
            old(self).wf(),
        ensures
            final(self).wf(),
            final(self).toks() == old(self).toks(),
            final(self).pos() == old(self).pos(),
            final(self).errs() == old(self).errs().push(m@),
    {
        let ghost before = self.errors@;
        self.errors.push(m);
        assert(errs_view(self.errors@) =~= errs_view(before).push(m@));
    }

    fn peek_error(&mut self, expected: TokenType, got: TokenType)
        requires
            old(self).wf(),
        ensures
            final(self).wf(),
            final(self).toks() == old(self).toks(),
            final(self).pos() == old(self).pos(),
            final(self).errs() == old(self).errs().push(peek_error(expected, got)),
    {
        let mut m = text("expected next token to be ");
        push_text(&mut m, expected.name().as_str());
        if got == TokenType::EOF {
            push_text(&mut m, ", but none exists");
        } else {
            push_text(&mut m, ", got ");
            push_text(&mut m, got.name().as_str());
            push_text(&mut m, " instead");
        }
        self.push_error(m);
    }

    /// Moves onto the next token when it has kind `tt`; records an error otherwise.
    pub fn expect_peek(&mut self, tt: TokenType) -> (r: bool)
        requires
            old(self).wf(),
        ensures
            ({
                let s = expect(old(self).toks(), old(self).pos(), old(self).errs(), tt);
                final(self).moved(*old(self), s) && r == s.out
            }),
    {
        let pk = self.peek_kind();
        if pk == tt {
            self.next_token();
            true
        } else {
            self.peek_error(tt, pk);
            false
        }
    }

    fn has_prefix_kind(t: TokenType) -> (r: bool)
        ensures
            r == has_prefix(t),
    {
        match t {
            TokenType::IDENT | TokenType::INT | TokenType::BANG | TokenType::MINUS
            | TokenType::TRUE | TokenType::FALSE | TokenType::LPAREN | TokenType::IF
            | TokenType::FUNCTION => true,
            _ => false,
        }
    }

    fn is_infix_token(t: TokenType) -> (r: bool)
        ensures
            r == is_infix_kind(t),
    {
        match t {
            TokenType::PLUS | TokenType::MINUS | TokenType::SLASH | TokenType::ASTERISK
            | TokenType::EQ | TokenType::NotEq | TokenType::GT | TokenType::LT => true,
            _ => false,
        }
    }

    /// Parses an expression starting at the current token, folding in operators that
    /// bind more tightly than `precedence`; ends on the expression's last token.
    pub fn parse_expression(&mut self, precedence: Operator) -> (r: Option<Expression>)
        requires
            old(self).wf(),
        ensures
            ({
                let s = p_expr(old(self).toks(), old(self).pos(), old(self).errs(), rank(precedence));
                final(self).moved(*old(self), s) && opt_model(r) == s.out
            }),
        decreases old(self).remaining(), 9nat,
    {
        let t = self.kind();
        if !Self::has_prefix_kind(t) {
            let mut m = text("no prefix parse function for ");
            push_text(&mut m, t.name().as_str());
            self.push_error(m);
            return None;
        }
        let left = match self.parse_prefix() {
            None => {
                return None;
            },
            Some(e) => e,
        };
        self.parse_operators(precedence, left)
    }

    fn parse_operators(&mut self, precedence: Operator, left: Expression) -> (r: Option<Expression>)
        requires
            old(self).wf(),
        ensures
            ({
                let s = p_loop(
                    old(self).toks(),
                    old(self).pos(),
                    old(self).errs(),
                    rank(precedence),
                    left@,
                );
                final(self).moved(*old(self), s) && opt_model(r) == s.out
            }),
        decreases old(self).remaining(), 7nat,
    {
        let pk = self.peek_kind();
        if pk == TokenType::SEMICOLON || get_operator_precedence(&precedence)
            >= get_operator_precedence(&get_token_type_operator_precedence(pk)) {
            return Some(left);
        }
        if Self::is_infix_token(pk) {
            self.next_token();
            let e = self.parse_infix_expression(left);
            self.parse_operators(precedence, Expression::InfixExpression(e))
        } else if pk == TokenType::LPAREN {
            self.next_token();
            match self.parse_call_expression(left) {
                None => None,
                Some(e) => self.parse_operators(precedence, e),
            }
        } else {
            Some(left)
        }
    }

    fn parse_infix_expression(&mut self, left: Expression) -> (r: InfixExpression)
        requires
            old(self).wf(),
            old(self).pos() < old(self).toks().len(),
        ensures
            ({
                let s = p_infix(old(self).toks(), old(self).pos(), old(self).errs(), left@);
                final(self).moved(*old(self), s) && expr_model(Expression::InfixExpression(r))
                    == s.out
            }),
        decreases old(self).remaining(), 6nat,
    {
        let token = self.current();
        let operator = token.literal.clone();
        let precedence = get_token_type_operator_precedence(token.token_type);
        self.next_token();
        let right = self.parse_expression(precedence);
        proof {
            lemma_box_model(right);
            lemma_box_model(Some(left));
        }
        let right = match right {
            Some(e) => Some(Box::new(e)),
            None => None,
        };
        InfixExpression { token, operator, left: Some(Box::new(left)), right }
    }

    /// A call of `function` whose `(` is the current token.
    pub fn parse_call_expression(&mut self, function: Expression) -> (r: Option<Expression>)
        requires
            old(self).wf(),
            old(self).pos() < old(self).toks().len(),
        ensures
            ({
                let s = p_call(old(self).toks(), old(self).pos(), old(self).errs(), function@);
                final(self).moved(*old(self), s) && opt_model(r) == s.out
            }),
        decreases old(self).remaining(), 6nat,
    {
        let token = self.current();
        match self.parse_call_arguments() {
            None => None,
            Some(arguments) => Some(
                Expression::CallExpression(Box::new(CallExpression { token, function, arguments })),
            ),
        }
    }

    /// The arguments of a call whose `(` is the current token; ends on the `)`.
    pub fn parse_call_arguments(&mut self) -> (r: Option<Vec<Expression>>)
        requires
            old(self).wf(),
            old(self).pos() < old(self).toks().len(),
        ensures
            ({
                let s = p_args(old(self).toks(), old(self).pos(), old(self).errs());
                &&& final(self).moved(*old(self), s)
                &&& match r {
                    Some(v) => s.out == Some(exprs_model(v@)),
                    None => s.out is None,
                }
            }),
        decreases old(self).remaining(), 5nat,
    {
        if self.peek_kind() == TokenType::RPAREN {
            self.next_token();
            let v: Vec<Expression> = Vec::new();
            assert(exprs_model(v@) =~= Seq::empty());
            return Some(v);
        }
        self.next_token();
        let first = match self.parse_expression(Operator::LOWEST) {
            None => {
                return None;
            },
            Some(e) => e,
        };
        let mut args: Vec<Expression> = Vec::new();
        args.push(first);
        proof {
            lemma_exprs_model_snoc(Seq::empty(), first);
            assert(args@ == Seq::<Expression>::empty().push(first));
            assert(exprs_model(Seq::<Expression>::empty()) =~= Seq::empty());
        }
        self.parse_more_arguments(args)
    }

    fn parse_more_arguments(&mut self, acc: Vec<Expression>) -> (r: Option<Vec<Expression>>)
        requires
            old(self).wf(),
        ensures
            ({
                let s = p_more_args(
                    old(self).toks(),
                    old(self).pos(),
                    old(self).errs(),
                    exprs_model(acc@),
                );
                &&& final(self).moved(*old(self), s)
                &&& match r {
                    Some(v) => s.out == Some(exprs_model(v@)),
                    None => s.out is None,
                }
            }),
        decreases old(self).remaining(), 4nat,
    {
        if self.peek_kind() == TokenType::COMMA {
            self.next_token();
            self.next_token();
            match self.parse_expression(Operator::LOWEST) {
                None => None,
                Some(e) => {
                    let mut acc = acc;
                    proof {
                        lemma_exprs_model_snoc(acc@, e);
                    }
                    acc.push(e);
                    self.parse_more_arguments(acc)
                },
            }
        } else {
            if self.expect_peek(TokenType::RPAREN) {
                Some(acc)
            } else {
                None
            }
        }
    }
}

impl Parser {
    fn parse_prefix(&mut self) -> (r: Option<Expression>)
        requires
            old(self).wf(),
            old(self).pos() < old(self).toks().len(),
        ensures
            ({
                let s = p_prefix(old(self).toks(), old(self).pos(), old(self).errs());
                final(self).moved(*old(self), s) && opt_model(r) == s.out
            }),
        decreases old(self).remaining(), 8nat,
    {
        let t = self.kind();
        match t {
            TokenType::IDENT => Some(self.parse_identifier()),
            TokenType::INT => self.parse_integer(),
            TokenType::TRUE | TokenType::FALSE => Some(self.parse_boolean()),
            TokenType::BANG | TokenType::MINUS => Some(self.parse_prefix_expression()),
            TokenType::LPAREN => self.parse_grouped_expression(),
            TokenType::IF => self.parse_if_expression(),
            TokenType::FUNCTION => self.parse_fn_literal(),
            _ => None,
        }
    }

    fn parse_identifier(&self) -> (r: Expression)
        requires
            self.wf(),
            self.pos() < self.toks().len(),
        ensures
            r@ == Expr::Ident(self.toks()[self.pos()], self.toks()[self.pos()].1),
    {
        let token = self.current();
        let value = token.literal.clone();
        Expression::Identifier(Identifier { token, value })
    }

    fn parse_integer(&mut self) -> (r: Option<Expression>)
        requires
            old(self).wf(),
            old(self).pos() < old(self).toks().len(),
            kind_at(old(self).toks(), old(self).pos()) == TokenType::INT,
        ensures
            ({
                let s = p_prefix(old(self).toks(), old(self).pos(), old(self).errs());
                final(self).moved(*old(self), s) && opt_model(r) == s.out
            }),
    {
        let token = self.current();
        match parse_int_literal(token.literal.as_str()) {
            Some(value) => Some(Expression::IntegerLiteral(IntegerLiteral { token, value })),
            None => {
                let mut m = text("could not parse ");
                push_text(&mut m, token.literal.as_str());
                push_text(&mut m, " as integer");
                self.push_error(m);
                None
            },
        }
    }

    fn parse_boolean(&self) -> (r: Expression)
        requires
            self.wf(),
            self.pos() < self.toks().len(),
        ensures
            r@ == Expr::Bool(self.toks()[self.pos()], self.toks()[self.pos()].0 == TokenType::TRUE),
    {
        let token = self.current();
        let value = token.token_type == TokenType::TRUE;
        Expression::Boolean(BooleanExpression { token, value })
    }

    fn parse_prefix_expression(&mut self) -> (r: Expression)
        requires
            old(self).wf(),
            old(self).pos() < old(self).toks().len(),
            kind_at(old(self).toks(), old(self).pos()) == TokenType::BANG || kind_at(
                old(self).toks(),
                old(self).pos(),
            ) == TokenType::MINUS,
        ensures
            ({
                let s = p_prefix(old(self).toks(), old(self).pos(), old(self).errs());
                final(self).moved(*old(self), s) && Some(r@) == s.out
            }),
        decreases old(self).remaining(), 7nat,
    {
        let token = self.current();
        let operator = token.literal.clone();
        self.next_token();
        let right = self.parse_expression(Operator::PREFIX);
        proof {
            lemma_box_model(right);
        }
        let right = match right {
            Some(e) => Some(Box::new(e)),
            None => None,
        };
        Expression::PrefixExpression(PrefixExpression { token, operator, right })
    }

    fn parse_grouped_expression(&mut self) -> (r: Option<Expression>)
        requires
            old(self).wf(),
            old(self).pos() < old(self).toks().len(),
            kind_at(old(self).toks(), old(self).pos()) == TokenType::LPAREN,
        ensures
            ({
                let s = p_prefix(old(self).toks(), old(self).pos(), old(self).errs());
                final(self).moved(*old(self), s) && opt_model(r) == s.out
            }),
        decreases old(self).remaining(), 7nat,
    {
        self.next_token();
        let e = match self.parse_expression(Operator::LOWEST) {
            None => {
                return None;
            },
            Some(e) => e,
        };
        if self.expect_peek(TokenType::RPAREN) {
            Some(e)
        } else {
            None
        }
    }

    #[verifier::rlimit(50)]
    fn parse_if_expression(&mut self) -> (r: Option<Expression>)
        requires
            old(self).wf(),
            old(self).pos() < old(self).toks().len(),
        ensures
            ({
                let s = p_if(old(self).toks(), old(self).pos(), old(self).errs());
                final(self).moved(*old(self), s) && opt_model(r) == s.out
            }),
        decreases old(self).remaining(), 7nat,
    {
        let token = self.current();
        if !self.expect_peek(TokenType::LPAREN) {
            return None;
        }
        self.next_token();
        let condition = match self.parse_expression(Operator::LOWEST) {
            None => {
                return None;
            },
            Some(e) => e,
        };
        if !self.expect_peek(TokenType::RPAREN) {
            return None;
        }
        if !self.expect_peek(TokenType::LBRACE) {
            return None;
        }
        let consequence = self.parse_block_statement();
        let mut alternative = None;
        if self.peek_kind() == TokenType::ELSE {
            self.next_token();
            if !self.expect_peek(TokenType::LBRACE) {
                return None;
            }
            alternative = Some(Box::new(self.parse_block_statement()));
        }
        Some(
            Expression::IfExpression(
                IfExpression {
                    token,
                    condition: Box::new(condition),
                    consequence: Box::new(consequence),
                    alternative,
                },
            ),
        )
    }

    fn parse_fn_parameters(&mut self) -> (r: Option<Vec<Identifier>>)
        requires
            old(self).wf(),
        ensures
            ({
                let s = p_params(old(self).toks(), old(self).pos(), old(self).errs());
                &&& final(self).moved(*old(self), s)
                &&& match r {
                    Some(v) => s.out == Some(params_model(v@)),
                    None => s.out is None,
                }
            }),
    {
        let mut parameters: Vec<Identifier> = Vec::new();
        if self.peek_kind() == TokenType::RPAREN {
            self.next_token();
            return Some(parameters);
        }
        if !self.expect_peek(TokenType::IDENT) {
            return None;
        }
        let token = self.current();
        let value = token.literal.clone();
        parameters.push(Identifier { token, value });
        let ghost start = self.pos();
        let ghost e0 = self.errs();
        let ghost whole = p_more_params(self.toks(), start, e0, params_model(parameters@));
        let ghost target = p_params(old(self).toks(), old(self).pos(), old(self).errs());
        assert(params_model(parameters@) =~= seq![ident_of(self.toks()[start])]);
        assert(target.out == whole.out && target.used == 1 + whole.used && target.errs == whole.errs);
        loop
            invariant
                self.wf(),
                self.toks() == old(self).toks(),
                start == old(self).pos() + 1,
                target == p_params(old(self).toks(), old(self).pos(), old(self).errs()),
                target.out == whole.out && target.used == 1 + whole.used && target.errs == whole.errs,
                start <= self.pos(),
                ({
                    let c = p_more_params(self.toks(), self.pos(), self.errs(), params_model(parameters@));
                    c.out == whole.out && c.errs == whole.errs && self.pos() + c.used == start
                        + whole.used
                }),
            decreases self.remaining(),
        {
            if self.peek_kind() == TokenType::COMMA {
                self.next_token();
                if !self.expect_peek(TokenType::IDENT) {
                    return None;
                }
                let token = self.current();
                let value = token.literal.clone();
                let ghost before = parameters@;
                let id = Identifier { token, value };
                parameters.push(id);
                assert(params_model(parameters@) =~= params_model(before).push(ident_view(id)));
            } else {
                if self.expect_peek(TokenType::RPAREN) {
                    return Some(parameters);
                } else {
                    return None;
                }
            }
        }
    }

    fn parse_fn_literal(&mut self) -> (r: Option<Expression>)
        requires
            old(self).wf(),
            old(self).pos() < old(self).toks().len(),
        ensures
            ({
                let s = p_fn(old(self).toks(), old(self).pos(), old(self).errs());
                final(self).moved(*old(self), s) && opt_model(r) == s.out
            }),
        decreases old(self).remaining(), 7nat,
    {
        let token = self.current();
        if !self.expect_peek(TokenType::LPAREN) {
            return None;
        }
        let parameters = match self.parse_fn_parameters() {
            None => {
                return None;
            },
            Some(ps) => ps,
        };
        if !self.expect_peek(TokenType::LBRACE) {
            return None;
        }
        let body = self.parse_block_statement();
        Some(Expression::FnLiteral(FnLiteral { token, parameters, body: Some(body) }))
    }

    /// The block whose `{` is the current token; ends on its closing `}`.
    fn parse_block_statement(&mut self) -> (r: BlockStatement)
        requires
            old(self).wf(),
            old(self).pos() < old(self).toks().len(),
        ensures
            ({
                let s = p_block(old(self).toks(), old(self).pos(), old(self).errs());
                &&& final(self).moved(*old(self), s)
                &&& block_model(r) == Block {
                    token: old(self).toks()[old(self).pos()],
                    statements: s.out,
                }
            }),
        decreases old(self).remaining(), 13nat,
    {
        let token = self.current();
        self.next_token();
        let mut statements: Vec<Statement> = Vec::new();
        let ghost start = self.pos();
        let ghost e0 = self.errs();
        let ghost whole = p_block_stmts(self.toks(), start, e0, Seq::empty());
        proof {
            assert(stmts_model(statements@) =~= Seq::empty());
        }
        loop
            invariant_except_break
                ({
                    let c = p_block_stmts(
                        self.toks(),
                        self.pos(),
                        self.errs(),
                        stmts_model(statements@),
                    );
                    c.out == whole.out && c.errs == whole.errs && self.pos() + c.used == start
                        + whole.used
                }),
            invariant
                self.wf(),
                self.toks() == old(self).toks(),
                start == old(self).pos() + 1,
                e0 == old(self).errs(),
                whole == p_block_stmts(old(self).toks(), start, e0, Seq::empty()),
                start <= self.pos(),
            ensures
                whole.out == stmts_model(statements@),
                whole.errs == self.errs(),
                self.pos() == start + whole.used,
            decreases self.remaining(),
        {
            let t = self.kind();
            if t == TokenType::RBRACE || t == TokenType::EOF {
                break;
            }
            proof {
                lemma_stmt_progress(self.toks(), self.pos(), self.errs());
            }
            let st = self.parse_statement();
            match st {
                Some(x) => {
                    proof {
                        lemma_stmts_model_snoc(statements@, x);
                    }
                    statements.push(x);
                },
                None => {},
            }
        }
        BlockStatement { token, statements }
    }

    /// One statement starting at the current token; ends on the token after it.
    fn parse_statement(&mut self) -> (r: Option<Statement>)
        requires
            old(self).wf(),
        ensures
            ({
                let s = p_stmt(old(self).toks(), old(self).pos(), old(self).errs());
                final(self).moved(*old(self), s) && opt_stmt_model(r) == s.out
            }),
        decreases old(self).remaining(), 11nat,
    {
        let t = self.kind();
        if t == TokenType::LET {
            match self.parse_let_statement() {
                Some(l) => Some(Statement::LetStatement(l)),
                None => None,
            }
        } else if t == TokenType::RETURN {
            match self.parse_return_statement() {
                Some(x) => Some(Statement::ReturnStatement(x)),
                None => None,
            }
        } else {
            match self.parse_expression_statement() {
                Some(x) => Some(Statement::ExpressionStatement(x)),
                None => None,
            }
        }
    }

    fn skip_statement(&mut self)
        requires
            old(self).wf(),
        ensures
            final(self).wf(),
            final(self).toks() == old(self).toks(),
            final(self).errs() == old(self).errs(),
            final(self).pos() == old(self).pos() + resync(old(self).toks(), old(self).pos()),
    {
        let ghost target = old(self).pos() + resync(old(self).toks(), old(self).pos());
        loop
            invariant_except_break
                self.pos() + resync(self.toks(), self.pos()) == target,
            invariant
                self.wf(),
                self.toks() == old(self).toks(),
                self.errs() == old(self).errs(),
                target == old(self).pos() + resync(old(self).toks(), old(self).pos()),
            ensures
                self.pos() == target,
            decreases self.remaining(),
        {
            let t = self.kind();
            if t == TokenType::RBRACE || t == TokenType::EOF {
                break;
            }
            self.next_token();
            if t == TokenType::SEMICOLON {
                break;
            }
        }
    }

    fn finish_statement(&mut self)
        requires
            old(self).wf(),
        ensures
            final(self).wf(),
            final(self).toks() == old(self).toks(),
            final(self).errs() == old(self).errs(),
            final(self).pos() == old(self).pos() + statement_end(old(self).toks(), old(self).pos()),
    {
        if self.peek_kind() == TokenType::SEMICOLON {
            self.next_token();
            self.next_token();
        } else if self.kind() != TokenType::EOF {
            self.next_token();
        }
    }

    /// `let <name> = <expression>`; a broken one is dropped up to the next `;`.
    pub fn parse_let_statement(&mut self) -> (r: Option<LetStatement>)
        requires
            old(self).wf(),
        ensures
            ({
                let s = p_let(old(self).toks(), old(self).pos(), old(self).errs());
                &&& final(self).moved(*old(self), s)
                &&& match r {
                    Some(l) => s.out == Some(stmt_model(Statement::LetStatement(l))),
                    None => s.out is None,
                }
            }),
        decreases old(self).remaining(), 10nat,
    {
        if self.kind() == TokenType::EOF {
            return None;
        }
        let token = self.current();
        if !self.expect_peek(TokenType::IDENT) {
            self.next_token();
            self.skip_statement();
            return None;
        }
        let name_token = self.current();
        let value = name_token.literal.clone();
        let name = Identifier { token: name_token, value };
        if !self.expect_peek(TokenType::ASSIGN) {
            self.next_token();
            self.skip_statement();
            return None;
        }
        self.next_token();
        let value = self.parse_expression(Operator::LOWEST);
        self.finish_statement();
        Some(LetStatement { token, name, value })
    }

    /// `return`, with an optional expression.
    pub fn parse_return_statement(&mut self) -> (r: Option<ReturnStatement>)
        requires
            old(self).wf(),
        ensures
            ({
                let s = p_return(old(self).toks(), old(self).pos(), old(self).errs());
                &&& final(self).moved(*old(self), s)
                &&& match r {
                    Some(x) => s.out == Some(stmt_model(Statement::ReturnStatement(x))),
                    None => s.out is None,
                }
            }),
        decreases old(self).remaining(), 10nat,
    {
        if self.kind() == TokenType::EOF {
            return None;
        }
        let token = self.current();
        let t1 = self.peek_kind();
        if t1 == TokenType::SEMICOLON {
            self.next_token();
            self.next_token();
            return Some(ReturnStatement { token, value: None });
        }
        if t1 == TokenType::RBRACE || t1 == TokenType::EOF {
            self.next_token();
            return Some(ReturnStatement { token, value: None });
        }
        self.next_token();
        let value = self.parse_expression(Operator::LOWEST);
        self.finish_statement();
        Some(ReturnStatement { token, value })
    }

    fn parse_expression_statement(&mut self) -> (r: Option<ExpressionStatement>)
        requires
            old(self).wf(),
        ensures
            ({
                let s = p_expr_stmt(old(self).toks(), old(self).pos(), old(self).errs());
                &&& final(self).moved(*old(self), s)
                &&& match r {
                    Some(x) => s.out == Some(stmt_model(Statement::ExpressionStatement(x))),
                    None => s.out is None,
                }
            }),
        decreases old(self).remaining(), 10nat,
    {
        if self.kind() == TokenType::EOF {
            return None;
        }
        let token = self.current();
        let value = self.parse_expression(Operator::LOWEST);
        self.finish_statement();
        Some(ExpressionStatement { token, value })
    }

    /// Every statement up to the end of the input, in order.
    pub fn parse_statements(&mut self) -> (r: Vec<Statement>)
        requires
            old(self).wf(),
        ensures
            ({
                let s = p_program(old(self).toks(), old(self).pos(), old(self).errs(), Seq::empty());
                final(self).moved(*old(self), s) && stmts_model(r@) == s.out
            }),
    {
        let mut statements: Vec<Statement> = Vec::new();
        let ghost start = self.pos();
        let ghost e0 = self.errs();
        let ghost whole = p_program(self.toks(), start, e0, Seq::empty());
        proof {
            assert(stmts_model(statements@) =~= Seq::empty());
        }
        loop
            invariant_except_break
                ({
                    let c = p_program(self.toks(), self.pos(), self.errs(), stmts_model(statements@));
                    c.out == whole.out && c.errs == whole.errs && self.pos() + c.used == start
                        + whole.used
                }),
            invariant
                self.wf(),
                self.toks() == old(self).toks(),
                start == old(self).pos(),
                e0 == old(self).errs(),
                whole == p_program(self.toks(), start, e0, Seq::empty()),
            ensures
                whole.out == stmts_model(statements@),
                whole.errs == self.errs(),
                self.pos() == start + whole.used,
            decreases self.remaining(),
        {
            if self.kind() == TokenType::EOF {
                break;
            }
            proof {
                lemma_stmt_progress(self.toks(), self.pos(), self.errs());
            }
            let st = self.parse_statement();
            match st {
                Some(x) => {
                    proof {
                        lemma_stmts_model_snoc(statements@, x);
                    }
                    statements.push(x);
                },
                None => {},
            }
        }
        statements
    }

    /// The whole program; syntax errors are left in `errors`.
    pub fn parse_program(&mut self) -> (r: Program)
        requires
            old(self).wf(),
        ensures
            ({
                let s = p_program(old(self).toks(), old(self).pos(), old(self).errs(), Seq::empty());
                final(self).moved(*old(self), s) && r@ == s.out
            }),
    {
        Program { statements: self.parse_statements() }
    }
}

pub(crate) proof fn lemma_push_keeps(errs: Seq<Seq<char>>, m: Seq<char>)
    ensures
        errs.is_prefix_of(errs.push(m)),
{
    assert(errs.push(m).subrange(0, errs.len() as int) =~= errs);
}

pub(crate) proof fn lemma_keeps_trans(a: Seq<Seq<char>>, b: Seq<Seq<char>>, c: Seq<Seq<char>>)
    requires
        a.is_prefix_of(b),
        b.is_prefix_of(c),
    ensures
        a.is_prefix_of(c),
{
    assert(c.subrange(0, a.len() as int) =~= b.subrange(0, a.len() as int));
}

pub(crate) proof fn lemma_expect_keeps(toks: Seq<TokView>, p: int, errs: Seq<Seq<char>>, t: TokenType)
    ensures
        errs.is_prefix_of(expect(toks, p, errs, t).errs),
{
    lemma_push_keeps(errs, peek_error(t, kind_at(toks, p + 1)));
    assert(errs.is_prefix_of(errs));
}

pub(crate) proof fn lemma_expr_keeps(toks: Seq<TokView>, p: int, errs: Seq<Seq<char>>, prec: int)
    ensures
        errs.is_prefix_of(p_expr(toks, p, errs, prec).errs),
    decreases clip(toks.len() - p), 9nat,
{
    let t = kind_at(toks, p);
    if !has_prefix(t) {
        lemma_push_keeps(errs, no_prefix_error(t));
    } else {
        let a = p_prefix(toks, p, errs);
        lemma_prefix_keeps(toks, p, errs);
        if let Some(left) = a.out {
            lemma_loop_keeps(toks, p + a.used, a.errs, prec, left);
            lemma_keeps_trans(errs, a.errs, p_loop(toks, p + a.used, a.errs, prec, left).errs);
        }
    }
}

pub(crate) proof fn lemma_loop_keeps(toks: Seq<TokView>, p: int, errs: Seq<Seq<char>>, prec: int, left: Expr)
    ensures
        errs.is_prefix_of(p_loop(toks, p, errs, prec, left).errs),
    decreases clip(toks.len() - p), 7nat,
{
    let pk = kind_at(toks, p + 1);
    assert(errs.is_prefix_of(errs));
    if pk == TokenType::SEMICOLON || prec >= rank(precedence_of(pk)) {
    } else if is_infix_kind(pk) {
        let a = p_infix(toks, p + 1, errs, left);
        lemma_infix_keeps(toks, p + 1, errs, left);
        lemma_loop_keeps(toks, p + 1 + a.used, a.errs, prec, a.out);
        lemma_keeps_trans(errs, a.errs, p_loop(toks, p + 1 + a.used, a.errs, prec, a.out).errs);
    } else if pk == TokenType::LPAREN {
        let a = p_call(toks, p + 1, errs, left);
        lemma_call_keeps(toks, p + 1, errs, left);
        if let Some(e) = a.out {
            lemma_loop_keeps(toks, p + 1 + a.used, a.errs, prec, e);
            lemma_keeps_trans(errs, a.errs, p_loop(toks, p + 1 + a.used, a.errs, prec, e).errs);
        }
    }
}

pub(crate) proof fn lemma_infix_keeps(toks: Seq<TokView>, p: int, errs: Seq<Seq<char>>, left: Expr)
    ensures
        errs.is_prefix_of(p_infix(toks, p, errs, left).errs),
    decreases clip(toks.len() - p), 6nat,
{
    assert(errs.is_prefix_of(errs));
    if 0 <= p < toks.len() {
        lemma_expr_keeps(toks, p + 1, errs, rank(precedence_of(toks[p].0)));
    }
}

pub(crate) proof fn lemma_call_keeps(toks: Seq<TokView>, p: int, errs: Seq<Seq<char>>, f: Expr)
    ensures
        errs.is_prefix_of(p_call(toks, p, errs, f).errs),
    decreases clip(toks.len() - p), 6nat,
{
    assert(errs.is_prefix_of(errs));
    if 0 <= p < toks.len() {
        lemma_args_keeps(toks, p, errs);
    }
}

pub(crate) proof fn lemma_args_keeps(toks: Seq<TokView>, p: int, errs: Seq<Seq<char>>)
    ensures
        errs.is_prefix_of(p_args(toks, p, errs).errs),
    decreases clip(toks.len() - p), 5nat,
{
    assert(errs.is_prefix_of(errs));
    if 0 <= p < toks.len() && kind_at(toks, p + 1) != TokenType::RPAREN {
        let a = p_expr(toks, p + 1, errs, rank(Operator::LOWEST));
        lemma_expr_keeps(toks, p + 1, errs, rank(Operator::LOWEST));
        if let Some(e) = a.out {
            lemma_more_args_keeps(toks, p + 1 + a.used, a.errs, seq![e]);
            lemma_keeps_trans(errs, a.errs, p_more_args(toks, p + 1 + a.used, a.errs, seq![e]).errs);
        }
    }
}

pub(crate) proof fn lemma_more_args_keeps(toks: Seq<TokView>, p: int, errs: Seq<Seq<char>>, acc: Seq<Expr>)
    ensures
        errs.is_prefix_of(p_more_args(toks, p, errs, acc).errs),
    decreases clip(toks.len() - p), 4nat,
{
    if kind_at(toks, p + 1) == TokenType::COMMA {
        let a = p_expr(toks, p + 2, errs, rank(Operator::LOWEST));
        lemma_expr_keeps(toks, p + 2, errs, rank(Operator::LOWEST));
        if let Some(e) = a.out {
            lemma_more_args_keeps(toks, p + 2 + a.used, a.errs, acc.push(e));
            lemma_keeps_trans(
                errs,
                a.errs,
                p_more_args(toks, p + 2 + a.used, a.errs, acc.push(e)).errs,
            );
        }
    } else {
        lemma_expect_keeps(toks, p, errs, TokenType::RPAREN);
    }
}

pub(crate) proof fn lemma_prefix_keeps(toks: Seq<TokView>, p: int, errs: Seq<Seq<char>>)
    ensures
        errs.is_prefix_of(p_prefix(toks, p, errs).errs),
    decreases clip(toks.len() - p), 8nat,
{
    assert(errs.is_prefix_of(errs));
    if 0 <= p < toks.len() {
        let tok = toks[p];
        let t = tok.0;
        if t == TokenType::INT {
            lemma_push_keeps(errs, int_error(tok.1));
        } else if t == TokenType::BANG || t == TokenType::MINUS {
            lemma_expr_keeps(toks, p + 1, errs, rank(Operator::PREFIX));
        } else if t == TokenType::LPAREN {
            let r = p_expr(toks, p + 1, errs, rank(Operator::LOWEST));
            lemma_expr_keeps(toks, p + 1, errs, rank(Operator::LOWEST));
            lemma_expect_keeps(toks, p + 1 + r.used, r.errs, TokenType::RPAREN);
            lemma_keeps_trans(
                errs,
                r.errs,
                expect(toks, p + 1 + r.used, r.errs, TokenType::RPAREN).errs,
            );
        } else if t == TokenType::IF {
            lemma_if_keeps(toks, p, errs);
        } else if t == TokenType::FUNCTION {
            lemma_fn_keeps(toks, p, errs);
        }
    }
}

pub(crate) proof fn lemma_if_keeps(toks: Seq<TokView>, p: int, errs: Seq<Seq<char>>)
    ensures
        errs.is_prefix_of(p_if(toks, p, errs).errs),
    decreases clip(toks.len() - p), 7nat,
{
    let x1 = expect(toks, p, errs, TokenType::LPAREN);
    lemma_expect_keeps(toks, p, errs, TokenType::LPAREN);
    if 0 <= p < toks.len() && x1.out {
        let c = p_expr(toks, p + 2, x1.errs, rank(Operator::LOWEST));
        lemma_expr_keeps(toks, p + 2, x1.errs, rank(Operator::LOWEST));
        lemma_keeps_trans(errs, x1.errs, c.errs);
        if c.out is Some {
            let q = p + 2 + c.used;
            let x2 = expect(toks, q, c.errs, TokenType::RPAREN);
            lemma_expect_keeps(toks, q, c.errs, TokenType::RPAREN);
            lemma_keeps_trans(errs, c.errs, x2.errs);
            if x2.out {
                let x3 = expect(toks, q + 1, x2.errs, TokenType::LBRACE);
                lemma_expect_keeps(toks, q + 1, x2.errs, TokenType::LBRACE);
                lemma_keeps_trans(errs, x2.errs, x3.errs);
                if x3.out {
                    let b = p_block(toks, q + 2, x3.errs);
                    lemma_block_keeps(toks, q + 2, x3.errs);
                    lemma_keeps_trans(errs, x3.errs, b.errs);
                    let r = q + 2 + b.used;
                    if kind_at(toks, r + 1) == TokenType::ELSE {
                        let x4 = expect(toks, r + 1, b.errs, TokenType::LBRACE);
                        lemma_expect_keeps(toks, r + 1, b.errs, TokenType::LBRACE);
                        lemma_keeps_trans(errs, b.errs, x4.errs);
                        if x4.out {
                            lemma_block_keeps(toks, r + 2, x4.errs);
                            lemma_keeps_trans(errs, x4.errs, p_block(toks, r + 2, x4.errs).errs);
                        }
                    }
                }
            }
        }
    }
}

pub(crate) proof fn lemma_fn_keeps(toks: Seq<TokView>, p: int, errs: Seq<Seq<char>>)
    ensures
        errs.is_prefix_of(p_fn(toks, p, errs).errs),
    decreases clip(toks.len() - p), 7nat,
{
    let x1 = expect(toks, p, errs, TokenType::LPAREN);
    lemma_expect_keeps(toks, p, errs, TokenType::LPAREN);
    if 0 <= p < toks.len() && x1.out {
        let ps = p_params(toks, p + 1, x1.errs);
        lemma_params_keeps(toks, p + 1, x1.errs);
        lemma_keeps_trans(errs, x1.errs, ps.errs);
        if ps.out is Some {
            let q = p + 1 + ps.used;
            let x2 = expect(toks, q, ps.errs, TokenType::LBRACE);
            lemma_expect_keeps(toks, q, ps.errs, TokenType::LBRACE);
            lemma_keeps_trans(errs, ps.errs, x2.errs);
            if x2.out {
                lemma_block_keeps(toks, q + 1, x2.errs);
                lemma_keeps_trans(errs, x2.errs, p_block(toks, q + 1, x2.errs).errs);
            }
        }
    }
}

pub(crate) proof fn lemma_params_keeps(toks: Seq<TokView>, p: int, errs: Seq<Seq<char>>)
    ensures
        errs.is_prefix_of(p_params(toks, p, errs).errs),
{
    assert(errs.is_prefix_of(errs));
    if kind_at(toks, p + 1) != TokenType::RPAREN {
        let x = expect(toks, p, errs, TokenType::IDENT);
        lemma_expect_keeps(toks, p, errs, TokenType::IDENT);
        if x.out {
            let acc = seq![ident_of(toks[p + 1])];
            lemma_more_params_keeps(toks, p + 1, x.errs, acc);
            lemma_keeps_trans(errs, x.errs, p_more_params(toks, p + 1, x.errs, acc).errs);
        }
    }
}

pub(crate) proof fn lemma_more_params_keeps(
    toks: Seq<TokView>,
    p: int,
    errs: Seq<Seq<char>>,
    acc: Seq<(TokView, Seq<char>)>,
)
    ensures
        errs.is_prefix_of(p_more_params(toks, p, errs, acc).errs),
    decreases clip(toks.len() - p),
{
    if kind_at(toks, p + 1) == TokenType::COMMA {
        let x = expect(toks, p + 1, errs, TokenType::IDENT);
        lemma_expect_keeps(toks, p + 1, errs, TokenType::IDENT);
        if x.out {
            let acc2 = acc.push(ident_of(toks[p + 2]));
            lemma_more_params_keeps(toks, p + 2, x.errs, acc2);
            lemma_keeps_trans(errs, x.errs, p_more_params(toks, p + 2, x.errs, acc2).errs);
        }
    } else {
        lemma_expect_keeps(toks, p, errs, TokenType::RPAREN);
    }
}

pub(crate) proof fn lemma_block_keeps(toks: Seq<TokView>, p: int, errs: Seq<Seq<char>>)
    ensures
        errs.is_prefix_of(p_block(toks, p, errs).errs),
    decreases clip(toks.len() - p), 13nat,
{
    assert(errs.is_prefix_of(errs));
    if 0 <= p < toks.len() {
        lemma_block_stmts_keeps(toks, p + 1, errs, Seq::empty());
    }
}

pub(crate) proof fn lemma_block_stmts_keeps(toks: Seq<TokView>, p: int, errs: Seq<Seq<char>>, acc: Seq<Stmt>)
    ensures
        errs.is_prefix_of(p_block_stmts(toks, p, errs, acc).errs),
    decreases clip(toks.len() - p), 12nat,
{
    assert(errs.is_prefix_of(errs));
    let t = kind_at(toks, p);
    if t != TokenType::RBRACE && t != TokenType::EOF {
        let st = p_stmt(toks, p, errs);
        lemma_stmt_keeps(toks, p, errs);
        if st.used != 0 {
            let acc2 = push_some(acc, st.out);
            lemma_block_stmts_keeps(toks, p + st.used, st.errs, acc2);
            lemma_keeps_trans(errs, st.errs, p_block_stmts(toks, p + st.used, st.errs, acc2).errs);
        }
    }
}

pub(crate) proof fn lemma_stmt_keeps(toks: Seq<TokView>, p: int, errs: Seq<Seq<char>>)
    ensures
        errs.is_prefix_of(p_stmt(toks, p, errs).errs),
    decreases clip(toks.len() - p), 11nat,
{
    let t = kind_at(toks, p);
    if t == TokenType::LET {
        lemma_let_keeps(toks, p, errs);
    } else if t == TokenType::RETURN {
        lemma_return_keeps(toks, p, errs);
    } else {
        lemma_expr_stmt_keeps(toks, p, errs);
    }
}

pub(crate) proof fn lemma_let_keeps(toks: Seq<TokView>, p: int, errs: Seq<Seq<char>>)
    ensures
        errs.is_prefix_of(p_let(toks, p, errs).errs),
    decreases clip(toks.len() - p), 10nat,
{
    assert(errs.is_prefix_of(errs));
    let x1 = expect(toks, p, errs, TokenType::IDENT);
    lemma_expect_keeps(toks, p, errs, TokenType::IDENT);
    if kind_at(toks, p) != TokenType::EOF && x1.out {
        let x2 = expect(toks, p + 1, x1.errs, TokenType::ASSIGN);
        lemma_expect_keeps(toks, p + 1, x1.errs, TokenType::ASSIGN);
        lemma_keeps_trans(errs, x1.errs, x2.errs);
        if x2.out {
            lemma_expr_keeps(toks, p + 3, x2.errs, rank(Operator::LOWEST));
            lemma_keeps_trans(errs, x2.errs, p_expr(toks, p + 3, x2.errs, rank(Operator::LOWEST)).errs);
        }
    }
}

pub(crate) proof fn lemma_return_keeps(toks: Seq<TokView>, p: int, errs: Seq<Seq<char>>)
    ensures
        errs.is_prefix_of(p_return(toks, p, errs).errs),
    decreases clip(toks.len() - p), 10nat,
{
    assert(errs.is_prefix_of(errs));
    lemma_expr_keeps(toks, p + 1, errs, rank(Operator::LOWEST));
}

pub(crate) proof fn lemma_expr_stmt_keeps(toks: Seq<TokView>, p: int, errs: Seq<Seq<char>>)
    ensures
        errs.is_prefix_of(p_expr_stmt(toks, p, errs).errs),
    decreases clip(toks.len() - p), 10nat,
{
    assert(errs.is_prefix_of(errs));
    lemma_expr_keeps(toks, p, errs, rank(Operator::LOWEST));
}

/// Syntax errors accumulate: parsing the rest of a program from any point never
/// drops or changes an error already recorded; new ones are only appended, so a
/// later broken statement adds to the list instead of replacing it.
pub proof fn law_errors_accumulate(toks: Seq<TokView>, p: int, errs: Seq<Seq<char>>, acc: Seq<Stmt>)
    ensures
        errs.is_prefix_of(p_program(toks, p, errs, acc).errs),
    decreases clip(toks.len() - p),
{
    assert(errs.is_prefix_of(errs));
    if kind_at(toks, p) != TokenType::EOF {
        let st = p_stmt(toks, p, errs);
        lemma_stmt_keeps(toks, p, errs);
        if st.used != 0 {
            let acc2 = push_some(acc, st.out);
            law_errors_accumulate(toks, p + st.used, st.errs, acc2);
            lemma_keeps_trans(errs, st.errs, p_program(toks, p + st.used, st.errs, acc2).errs);
        }
    }
}

/// Parses `source`: the program, and the syntax errors met on the way (none on success).
pub fn parse(source: &str) -> (r: (Program, Vec<String>))
    ensures
        ({
            let s = p_program(lex_all(source@, 0), 0, Seq::empty(), Seq::empty());
            r.0@ == s.out && errs_view(r.1@) == s.errs
        }),
{
    let mut l = Lexer::new(source);
    let mut p = Parser::new(&mut l);
    let program = p.parse_program();
    proof {
        p.lemma_errs();
    }
    (program, p.errors)
}

impl Parser {
    proof fn lemma_errs(&self)
        ensures
            self.errs() == errs_view(self.errors@),
    {
    }
}

} // verus!
