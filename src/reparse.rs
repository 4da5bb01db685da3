use vstd::prelude::*;

use crate::ast::{TokView, render_bool, render_expr, render_exprs, render_stmt, render_stmts, Expr, Stmt};
use crate::chars::{is_digit, is_letter, is_space};
use crate::lexer::{lemma_lexeme_progress, lemma_scan_letters, lemma_skip_spaces, lex_all, next_lexeme, scan_digits, scan_letters, skip_spaces};
use crate::operators::{precedence_of, rank, Operator};
use crate::parser::{
    law_errors_accumulate, lemma_expect_keeps, lemma_loop_keeps, lemma_stmt_progress, p_params, p_more_params, push_some, has_prefix, clip, ident_of, expect, int_value, is_infix_kind, kind_at, p_args, p_call, p_expr, p_expr_stmt, p_infix, p_loop, p_more_args, p_prefix, p_program, p_stmt, statement_end, Parsed,
};
use crate::token::{keyword_kind, symbol_kind, TokenType};

verus! {

pub open spec fn open_paren() -> (TokenType, Seq<char>) {
    (TokenType::LPAREN, seq!['('])
}

pub open spec fn close_paren() -> (TokenType, Seq<char>) {
    (TokenType::RPAREN, seq![')'])
}

pub open spec fn comma() -> (TokenType, Seq<char>) {
    (TokenType::COMMA, seq![','])
}

/// An expression made of identifiers, literals, prefix and infix operators and calls,
/// with every operand present and each node's text the text of its token.
pub open spec fn simple(e: Expr) -> bool
    decreases e,
{
    match e {
        Expr::Ident(t, name) => t.0 == TokenType::IDENT && name == t.1,
        Expr::Int(t, _) => t.0 == TokenType::INT && int_value(t.1) is Some,
        Expr::Bool(t, b) => t.0 == if b {
            TokenType::TRUE
        } else {
            TokenType::FALSE
        },
        Expr::Prefix(tok, op, right) => (tok.0 == TokenType::BANG || tok.0 == TokenType::MINUS) && op
            == tok.1 && match right {
            Some(r) => simple(*r),
            None => false,
        },
        Expr::Infix(tok, op, left, right) => is_infix_kind(tok.0) && op == tok.1
            && match (left, right) {
            (Some(l), Some(r)) => simple(*l) && simple(*r),
            _ => false,
        },
        Expr::Call(tok, f, args) => tok.0 == TokenType::LPAREN && simple(*f) && simple_all(
            args,
        ),
        _ => false,
    }
}

pub open spec fn simple_all(args: Seq<Expr>) -> bool
    decreases args,
{
    if args.len() == 0 {
        true
    } else {
        simple(args[0]) && simple_all(args.subrange(1, args.len() as int))
    }
}

/// The tokens (kind and text) that the rendered text of `e` reads as.
pub open spec fn spelled(e: Expr) -> Seq<(TokenType, Seq<char>)>
    decreases e,
{
    match e {
        Expr::Ident(t, _) => seq![t],
        Expr::Int(t, _) => seq![t],
        Expr::Bool(t, _) => seq![t],
        Expr::Prefix(tok, _, right) => match right {
            Some(r) => seq![open_paren(), tok] + spelled(*r) + seq![close_paren()],
            None => Seq::empty(),
        },
        Expr::Infix(tok, _, left, right) => match (left, right) {
            (Some(l), Some(r)) => seq![open_paren()] + spelled(*l) + seq![tok] + spelled(*r)
                + seq![close_paren()],
            _ => Seq::empty(),
        },
        Expr::Call(tok, f, args) => spelled(*f) + seq![tok] + spelled_args(args) + seq![
            close_paren(),
        ],
        _ => Seq::empty(),
    }
}

pub open spec fn spelled_args(args: Seq<Expr>) -> Seq<(TokenType, Seq<char>)>
    decreases args,
{
    if args.len() == 0 {
        Seq::empty()
    } else {
        spelled(args[0]) + spelled_more(args.subrange(1, args.len() as int))
    }
}

pub open spec fn spelled_more(args: Seq<Expr>) -> Seq<(TokenType, Seq<char>)>
    decreases args,
{
    if args.len() == 0 {
        Seq::empty()
    } else {
        seq![comma()] + spelled(args[0]) + spelled_more(args.subrange(1, args.len() as int))
    }
}

/// The tokens from `p` on read as `vs`.
pub open spec fn spells(toks: Seq<TokView>, p: int, vs: Seq<TokView>) -> bool {
    &&& 0 <= p
    &&& p + vs.len() <= toks.len()
    &&& toks.subrange(p, p + vs.len()) == vs
}

pub open spec fn stopper(k: TokenType) -> bool {
    k == TokenType::RPAREN || k == TokenType::COMMA || k == TokenType::EOF
}

pub open spec fn starts_expression(k: TokenType) -> bool {
    k == TokenType::LPAREN || k == TokenType::IDENT || k == TokenType::INT || k == TokenType::TRUE
        || k == TokenType::FALSE
}

proof fn lemma_spells_split(
    toks: Seq<TokView>,
    p: int,
    a: Seq<(TokenType, Seq<char>)>,
    b: Seq<(TokenType, Seq<char>)>,
)
    requires
        spells(toks, p, a + b),
    ensures
        spells(toks, p, a),
        spells(toks, p + a.len(), b),
{
    let tv = toks;
    assert(tv.subrange(p, p + a.len()) == (a + b).subrange(0, a.len() as int));
    assert((a + b).subrange(0, a.len() as int) == a);
    assert(tv.subrange(p + a.len(), p + a.len() + b.len()) == (a + b).subrange(
        a.len() as int,
        (a + b).len() as int,
    ));
    assert((a + b).subrange(a.len() as int, (a + b).len() as int) == b);
}

proof fn lemma_spells_at(toks: Seq<TokView>, p: int, vs: Seq<(TokenType, Seq<char>)>, i: int)
    requires
        spells(toks, p, vs),
        0 <= i < vs.len(),
    ensures
        toks[p + i] == vs[i],
        kind_at(toks, p + i) == vs[i].0,
{
    assert(toks.subrange(p, p + vs.len())[i] == vs[i]);
}

proof fn lemma_spelled_shape(e: Expr)
    requires
        simple(e),
    ensures
        spelled(e).len() >= 1,
        starts_expression(spelled(e)[0].0),
        spelled(e)[spelled(e).len() - 1].0 != TokenType::EOF,
    decreases e,
{
    match e {
        Expr::Call(tok, f, args) => {
            lemma_spelled_shape(*f);
            let s = spelled(*f) + seq![tok] + spelled_args(args) + seq![close_paren()];
            assert(s[0] == spelled(*f)[0]);
            assert(s[s.len() - 1] == close_paren());
        },
        Expr::Infix(tok, op, Some(l), Some(r)) => {
            lemma_spelled_shape(*l);
            lemma_spelled_shape(*r);
            let s = seq![open_paren()] + spelled(*l) + seq![tok] + spelled(*r) + seq![
                close_paren(),
            ];
            assert(s[s.len() - 1] == close_paren());
        },
        Expr::Prefix(tok, op, Some(r)) => {
            lemma_spelled_shape(*r);
            let s = seq![open_paren(), tok] + spelled(*r) + seq![close_paren()];
            assert(s[s.len() - 1] == close_paren());
        },
        _ => {},
    }
}

proof fn lemma_render_exprs_same(v: Seq<Expr>, w: Seq<Expr>)
    requires
        v.len() == w.len(),
        forall|i: int| 0 <= i < v.len() ==> render_expr(#[trigger] v[i]) == render_expr(w[i]),
    ensures
        render_exprs(v) == render_exprs(w),
    decreases v.len(),
{
    if v.len() > 1 {
        let v1 = v.subrange(0, v.len() - 1);
        let w1 = w.subrange(0, w.len() - 1);
        assert forall|i: int| 0 <= i < v1.len() implies render_expr(#[trigger] v1[i]) == render_expr(
            w1[i],
        ) by {
            assert(v1[i] == v[i]);
            assert(w1[i] == w[i]);
        }
        lemma_render_exprs_same(v1, w1);
    } else if v.len() == 1 {
        assert(render_expr(v[0]) == render_expr(w[0]));
    }
}

/// Parses a simple expression spelled at `p` when a closing token follows it.
proof fn lemma_primary(e: Expr, toks: Seq<TokView>, p: int, errs: Seq<Seq<char>>, prec: int) -> (x:
    Expr)
    requires
        simple(e),
        spells(toks, p, spelled(e)),
        1 <= prec <= 6,
        stopper(kind_at(toks, p + spelled(e).len())),
    ensures
        p_expr(toks, p, errs, prec) == (Parsed {
            out: Some(x),
            used: (spelled(e).len() - 1) as nat,
            errs,
        }),
        render_expr(x) == render_expr(e),
    decreases e, 3nat,
{
    lemma_spelled_shape(e);
    let x = lemma_operand(e, toks, p, errs, prec);
    let q = p + spelled(e).len() - 1;
    assert(p_loop(toks, q, errs, prec, x) == (Parsed { out: Some(x), used: 0, errs }));
    x
}

/// Parsing a simple expression spelled at `p` reaches its last token with an
/// expression of the same text, and goes on from there.
proof fn lemma_operand(e: Expr, toks: Seq<TokView>, p: int, errs: Seq<Seq<char>>, prec: int) -> (x:
    Expr)
    requires
        simple(e),
        spells(toks, p, spelled(e)),
        1 <= prec <= 6,
    ensures
        render_expr(x) == render_expr(e),
        ({
            let b = p_loop(toks, p + spelled(e).len() - 1, errs, prec, x);
            p_expr(toks, p, errs, prec) == (Parsed {
                out: b.out,
                used: (spelled(e).len() - 1 + b.used) as nat,
                errs: b.errs,
            })
        }),
    decreases e, 2nat,
{
    lemma_spelled_shape(e);
    lemma_spells_at(toks, p, spelled(e), 0);
    match e {
        Expr::Call(tok, f, args) => {
            let sf = spelled(*f);
            let sa = spelled_args(args);
            assert(spelled(e) == sf + (seq![tok] + sa + seq![close_paren()]));
            lemma_spells_split(toks, p, sf, seq![tok] + sa + seq![close_paren()]);
            lemma_spelled_shape(*f);
            let xf = lemma_operand(*f, toks, p, errs, prec);
            let qf = p + sf.len() - 1;
            let rest = seq![tok] + sa + seq![close_paren()];
            lemma_spells_at(toks, qf + 1, rest, 0);
            assert(rest == seq![tok] + (sa + seq![close_paren()]));
            lemma_spells_split(toks, qf + 1, seq![tok], sa + seq![close_paren()]);
            let v = lemma_args(args, toks, qf + 1, errs);
            let call = Expr::Call(toks[qf + 1], Box::new(xf), v);
            lemma_render_exprs_same(v, args);
            let a = p_call(toks, qf + 1, errs, xf);
            assert(a == (Parsed { out: Some(call), used: (sa.len() + 1) as nat, errs }));
            assert(p + spelled(e).len() - 1 == qf + 1 + a.used);
            call
        },
        _ => {
            let x = lemma_head(e, toks, p, errs);
            x
        },
    }
}

/// The expression that starts at `p`, for a simple expression that is no call.
#[verifier::rlimit(50)]
proof fn lemma_head(e: Expr, toks: Seq<TokView>, p: int, errs: Seq<Seq<char>>) -> (x: Expr)
    requires
        simple(e),
        !(e is Call),
        spells(toks, p, spelled(e)),
    ensures
        p_prefix(toks, p, errs) == (Parsed {
            out: Some(x),
            used: (spelled(e).len() - 1) as nat,
            errs,
        }),
        render_expr(x) == render_expr(e),
    decreases e, 1nat,
{
    lemma_spells_at(toks, p, spelled(e), 0);
    let tok0 = toks[p];
    match e {
        Expr::Ident(_, _) => Expr::Ident(tok0, tok0.1),
        Expr::Int(_, _) => Expr::Int(tok0, (int_value(tok0.1)->0) as i64),
        Expr::Bool(_, b) => Expr::Bool(tok0, b),
        Expr::Prefix(tok, op, Some(r)) => {
            let sr = spelled(*r);
            assert(spelled(e) == seq![open_paren()] + (seq![tok] + sr + seq![close_paren()]));
            lemma_spells_split(toks, p, seq![open_paren()], seq![tok] + sr + seq![close_paren()]);
            assert(seq![tok] + sr + seq![close_paren()] == seq![tok] + (sr + seq![
                close_paren(),
            ]));
            lemma_spells_split(toks, p + 1, seq![tok], sr + seq![close_paren()]);
            lemma_spells_split(toks, p + 2, sr, seq![close_paren()]);
            lemma_spells_at(toks, p + 1, seq![tok], 0);
            lemma_spells_at(toks, p + 2 + sr.len(), seq![close_paren()], 0);
            let xr = lemma_primary(*r, toks, p + 2, errs, rank(Operator::PREFIX));
            let t1 = toks[p + 1];
            let pre = Expr::Prefix(t1, t1.1, Some(Box::new(xr)));
            assert(p_prefix(toks, p + 1, errs) == (Parsed { out: Some(pre), used: sr.len(), errs }));
            assert(p_loop(toks, p + 1 + sr.len(), errs, rank(Operator::LOWEST), pre) == (Parsed {
                out: Some(pre),
                used: 0,
                errs,
            }));
            assert(p_expr(toks, p + 1, errs, rank(Operator::LOWEST)) == (Parsed {
                out: Some(pre),
                used: sr.len(),
                errs,
            }));
            assert(expect(toks, p + 1 + sr.len(), errs, TokenType::RPAREN).out);
            pre
        },
        Expr::Infix(tok, op, Some(l), Some(r)) => {
            let sl = spelled(*l);
            let sr = spelled(*r);
            assert(spelled(e) == seq![open_paren()] + (sl + (seq![tok] + (sr + seq![
                close_paren(),
            ]))));
            lemma_spells_split(
                toks,
                p,
                seq![open_paren()],
                sl + (seq![tok] + (sr + seq![close_paren()])),
            );
            lemma_spells_split(toks, p + 1, sl, seq![tok] + (sr + seq![close_paren()]));
            let ql = p + sl.len();
            lemma_spells_split(toks, ql + 1, seq![tok], sr + seq![close_paren()]);
            lemma_spells_split(toks, ql + 2, sr, seq![close_paren()]);
            lemma_spells_at(toks, ql + 1, seq![tok], 0);
            lemma_spells_at(toks, ql + 2 + sr.len(), seq![close_paren()], 0);
            let xl = lemma_operand(*l, toks, p + 1, errs, rank(Operator::LOWEST));
            let t2 = toks[ql + 1];
            let pr = rank(precedence_of(t2.0));
            assert(2 <= pr <= 5);
            let xr = lemma_primary(*r, toks, ql + 2, errs, pr);
            let inf = Expr::Infix(t2, t2.1, Some(Box::new(xl)), Some(Box::new(xr)));
            assert(p_infix(toks, ql + 1, errs, xl) == (Parsed {
                out: inf,
                used: sr.len(),
                errs,
            }));
            assert(p_loop(toks, ql + 1 + sr.len(), errs, rank(Operator::LOWEST), inf) == (Parsed {
                out: Some(inf),
                used: 0,
                errs,
            }));
            assert(p_loop(toks, ql, errs, rank(Operator::LOWEST), xl) == (Parsed {
                out: Some(inf),
                used: 1 + sr.len(),
                errs,
            }));
            assert(expect(toks, ql + 1 + sr.len(), errs, TokenType::RPAREN).out);
            inf
        },
        _ => {
            e
        },
    }
}

/// The arguments of a call whose `(` is at `p`.
proof fn lemma_args(args: Seq<Expr>, toks: Seq<TokView>, p: int, errs: Seq<Seq<char>>) -> (v: Seq<
    Expr,
>)
    requires
        simple_all(args),
        0 <= p,
        spells(toks, p + 1, spelled_args(args) + seq![close_paren()]),
    ensures
        p_args(toks, p, errs) == (Parsed {
            out: Some(v),
            used: (spelled_args(args).len() + 1) as nat,
            errs,
        }),
        v.len() == args.len(),
        forall|i: int| 0 <= i < args.len() ==> render_expr(#[trigger] v[i]) == render_expr(args[i]),
    decreases args, 1nat,
{
    let sa = spelled_args(args);
    lemma_spells_split(toks, p + 1, sa, seq![close_paren()]);
    lemma_spells_at(toks, p + 1 + sa.len(), seq![close_paren()], 0);
    if args.len() == 0 {
        Seq::empty()
    } else {
        let a0 = args[0];
        let rest = args.subrange(1, args.len() as int);
        let s0 = spelled(a0);
        let sm = spelled_more(rest);
        assert(sa + seq![close_paren()] == s0 + (sm + seq![close_paren()]));
        lemma_spells_split(toks, p + 1, s0, sm + seq![close_paren()]);
        lemma_spelled_shape(a0);
        lemma_spells_at(toks, p + 1, s0, 0);
        lemma_more_shape(rest);
        lemma_spells_at(toks, p + 1 + s0.len(), sm + seq![close_paren()], 0);
        let x0 = lemma_primary(a0, toks, p + 1, errs, rank(Operator::LOWEST));
        let v = lemma_more(rest, toks, p + s0.len(), errs, seq![x0]);
        assert forall|i: int| 0 <= i < args.len() implies render_expr(#[trigger] v[i])
            == render_expr(args[i]) by {
            if i == 0 {
                assert(v.subrange(0, 1)[0] == v[0]);
                assert(v[0] == seq![x0][0]);
            } else {
                assert(rest[i - 1] == args[i]);
                assert(render_expr(v[seq![x0].len() + (i - 1)]) == render_expr(rest[i - 1]));
            }
        }
        v
    }
}

proof fn lemma_more_shape(rest: Seq<Expr>)
    ensures
        (spelled_more(rest) + seq![close_paren()])[0].0 == TokenType::COMMA || (spelled_more(rest)
            + seq![close_paren()])[0].0 == TokenType::RPAREN,
{
    if rest.len() > 0 {
        assert((spelled_more(rest) + seq![close_paren()])[0] == comma());
    } else {
        assert(spelled_more(rest) + seq![close_paren()] == seq![close_paren()]);
    }
}

/// Further arguments after one whose last token is at `q`, then the `)`.
proof fn lemma_more(
    rest: Seq<Expr>,
    toks: Seq<TokView>,
    q: int,
    errs: Seq<Seq<char>>,
    acc: Seq<Expr>,
) -> (v: Seq<Expr>)
    requires
        simple_all(rest),
        0 <= q,
        spells(toks, q + 1, spelled_more(rest) + seq![close_paren()]),
    ensures
        p_more_args(toks, q, errs, acc) == (Parsed {
            out: Some(v),
            used: (spelled_more(rest).len() + 1) as nat,
            errs,
        }),
        v.len() == acc.len() + rest.len(),
        v.subrange(0, acc.len() as int) == acc,
        forall|i: int|
            0 <= i < rest.len() ==> render_expr(#[trigger] v[acc.len() + i]) == render_expr(rest[i]),
    decreases rest, 0nat,
{
    let sm = spelled_more(rest);
    lemma_spells_at(toks, q + 1, sm + seq![close_paren()], 0);
    if rest.len() == 0 {
        assert(sm + seq![close_paren()] == seq![close_paren()]);
        assert(acc.subrange(0, acc.len() as int) == acc);
        acc
    } else {
        let r0 = rest[0];
        let tail = rest.subrange(1, rest.len() as int);
        let s0 = spelled(r0);
        let st = spelled_more(tail);
        assert(sm + seq![close_paren()] == seq![comma()] + (s0 + (st + seq![close_paren()])));
        lemma_spells_split(toks, q + 1, seq![comma()], s0 + (st + seq![close_paren()]));
        lemma_spells_split(toks, q + 2, s0, st + seq![close_paren()]);
        lemma_spelled_shape(r0);
        lemma_more_shape(tail);
        lemma_spells_at(toks, q + 2 + s0.len(), st + seq![close_paren()], 0);
        let x0 = lemma_primary(r0, toks, q + 2, errs, rank(Operator::LOWEST));
        let v = lemma_more(tail, toks, q + 1 + s0.len(), errs, acc.push(x0));
        assert forall|i: int| 0 <= i < rest.len() implies render_expr(#[trigger] v[acc.len() + i])
            == render_expr(rest[i]) by {
            if i == 0 {
                assert(v.subrange(0, acc.len() as int + 1)[acc.len() as int] == acc.push(x0)[acc.len() as int]);
            } else {
                assert(tail[i - 1] == rest[i]);
                assert(v[acc.push(x0).len() + (i - 1)] == v[acc.len() + i]);
            }
        }
        assert(v.subrange(0, acc.len() as int) == v.subrange(0, acc.len() as int + 1).subrange(
            0,
            acc.len() as int,
        ));
        assert(acc.push(x0).subrange(0, acc.len() as int) == acc);
        v
    }
}

/// The text the lexer reads as an operator of kind `t`.
pub open spec fn op_text(t: TokenType) -> Seq<char> {
    match t {
        TokenType::PLUS => seq!['+'],
        TokenType::MINUS => seq!['-'],
        TokenType::ASTERISK => seq!['*'],
        TokenType::SLASH => seq!['/'],
        TokenType::LT => seq!['<'],
        TokenType::GT => seq!['>'],
        TokenType::EQ => seq!['=', '='],
        TokenType::NotEq => seq!['!', '='],
        TokenType::BANG => seq!['!'],
        _ => Seq::empty(),
    }
}

/// A name that the lexer reads as one identifier: a run of letters that starts with
/// neither whitespace nor a symbol, and is no keyword.
pub open spec fn word(w: Seq<char>) -> bool {
    &&& w.len() > 0
    &&& keyword_kind(w) == TokenType::IDENT
    &&& !is_space(w[0])
    &&& symbol_kind(w[0]) is None
    &&& forall|k: int| 0 <= k < w.len() ==> is_letter(#[trigger] w[k])
}

/// Every token in `e` carries the text that the lexer gives its kind.
pub open spec fn canonical(e: Expr) -> bool
    decreases e,
{
    match e {
        Expr::Ident(_, name) => word(name),
        Expr::Bool(t, b) => t.1 == render_bool(b),
        Expr::Prefix(tok, _, right) => tok.1 == op_text(tok.0) && match right {
            Some(r) => canonical(*r),
            None => true,
        },
        Expr::Infix(tok, _, left, right) => tok.1 == op_text(tok.0) && match (
            left,
            right,
        ) {
            (Some(l), Some(r)) => canonical(*l) && canonical(*r),
            _ => true,
        },
        Expr::Call(tok, f, args) => tok.1 == seq!['('] && canonical(*f) && canonical_all(
            args,
        ),
        _ => true,
    }
}

pub open spec fn canonical_all(args: Seq<Expr>) -> bool
    decreases args,
{
    if args.len() == 0 {
        true
    } else {
        canonical(args[0]) && canonical_all(args.subrange(1, args.len() as int))
    }
}

/// No letter or digit at `j`, so a token that ends just before it ends there.
pub open spec fn clean_after(s: Seq<char>, j: int) -> bool {
    j < s.len() ==> !is_letter(s[j]) && !is_digit(s[j])
}

proof fn lemma_text_split(s: Seq<char>, i: nat, a: Seq<char>, b: Seq<char>)
    requires
        i + a.len() + b.len() <= s.len(),
        s.subrange(i as int, (i + a.len() + b.len()) as int) == a + b,
    ensures
        s.subrange(i as int, (i + a.len()) as int) == a,
        s.subrange((i + a.len()) as int, (i + a.len() + b.len()) as int) == b,
{
    let j = i as int;
    assert(s.subrange(j, j + a.len()) == (a + b).subrange(0, a.len() as int));
    assert((a + b).subrange(0, a.len() as int) == a);
    assert(s.subrange(j + a.len(), j + a.len() + b.len()) == (a + b).subrange(
        a.len() as int,
        (a + b).len() as int,
    ));
    assert((a + b).subrange(a.len() as int, (a + b).len() as int) == b);
}

proof fn lemma_text_at(s: Seq<char>, i: nat, a: Seq<char>, k: int)
    requires
        i + a.len() <= s.len(),
        s.subrange(i as int, (i + a.len()) as int) == a,
        0 <= k < a.len(),
    ensures
        s[i + k] == a[k],
{
    assert(s.subrange(i as int, (i + a.len()) as int)[k] == a[k]);
}

/// One more token: when the next one is no `EOF`, it heads the rest.
proof fn lemma_lex_step(s: Seq<char>, i: nat)
    requires
        next_lexeme(s, i).0 != TokenType::EOF,
    ensures
        lex_all(s, i) == seq![(next_lexeme(s, i).0, next_lexeme(s, i).1)] + lex_all(
            s,
            next_lexeme(s, i).2,
        ),
{
}

proof fn lemma_scan_word(s: Seq<char>, i: nat, w: Seq<char>, k: nat)
    requires
        i + w.len() <= s.len(),
        s.subrange(i as int, i + w.len() as int) == w,
        k <= w.len(),
        forall|m: int| 0 <= m < w.len() ==> is_letter(#[trigger] w[m]),
        clean_after(s, i + w.len() as int),
    ensures
        scan_letters(s, i + k) == i + w.len(),
    decreases w.len() - k,
{
    if k < w.len() {
        lemma_text_at(s, i, w, k as int);
        lemma_scan_word(s, i, w, k + 1);
    }
}

proof fn lemma_scan_number(s: Seq<char>, i: nat, w: Seq<char>, k: nat)
    requires
        i + w.len() <= s.len(),
        s.subrange(i as int, i + w.len() as int) == w,
        k <= w.len(),
        forall|m: int| 0 <= m < w.len() ==> is_digit(#[trigger] w[m]),
        clean_after(s, i + w.len() as int),
    ensures
        scan_digits(s, i + k) == i + w.len(),
    decreases w.len() - k,
{
    if k < w.len() {
        lemma_text_at(s, i, w, k as int);
        lemma_scan_number(s, i, w, k + 1);
    }
}

/// A one-character symbol at `i`, with no `=` after it.
proof fn lemma_lex_symbol(s: Seq<char>, i: nat, c: char)
    requires
        i < s.len(),
        s[i as int] == c,
        symbol_kind(c) is Some,
        !is_space(c),
        (c == '=' || c == '!') ==> !(i + 1 < s.len() && s[i as int + 1] == '='),
    ensures
        lex_all(s, i) == seq![(symbol_kind(c)->0, seq![c])] + lex_all(s, i + 1),
{
    assert(skip_spaces(s, i) == i);
    lemma_lex_step(s, i);
}

/// Whitespace at `i` is passed over.
proof fn lemma_lex_space(s: Seq<char>, i: nat)
    requires
        i < s.len(),
        is_space(s[i as int]),
    ensures
        lex_all(s, i) == lex_all(s, i + 1),
{
    assert(next_lexeme(s, i) == next_lexeme(s, i + 1));
}

/// A simple, canonical expression's text starts with `(`, a letter or a digit.
proof fn lemma_render_start(e: Expr)
    requires
        simple(e),
        canonical(e),
    ensures
        render_expr(e).len() > 0,
        render_expr(e)[0] == '(' || (is_letter(render_expr(e)[0]) && !is_space(render_expr(e)[0])
            && symbol_kind(render_expr(e)[0]) is None) || is_digit(render_expr(e)[0]),
    decreases e,
{
    reveal_strlit("(");
    reveal_strlit("true");
    reveal_strlit("false");
    match e {
        Expr::Ident(_, name) => {
            assert(is_letter(name[0]));
        },
        Expr::Int(t, _) => {
            assert(is_digit(t.1[0]));
        },
        Expr::Call(tok, f, args) => {
            lemma_render_start(*f);
            let r = render_expr(*f) + "("@ + render_exprs(args) + ")"@;
            assert(r[0] == render_expr(*f)[0]);
        },
        Expr::Prefix(tok, op, Some(r)) => {
            let t = "("@ + op + render_expr(*r) + ")"@;
            assert(t[0] == '(');
        },
        Expr::Infix(tok, op, Some(l), Some(r)) => {
            let t = "("@ + render_expr(*l) + " "@ + op + " "@ + render_expr(*r) + ")"@;
            assert(t[0] == '(');
        },
        _ => {},
    }
}

proof fn lemma_all_index(args: Seq<Expr>)
    requires
        simple_all(args),
        canonical_all(args),
    ensures
        forall|k: int| 0 <= k < args.len() ==> simple(#[trigger] args[k]) && canonical(args[k]),
    decreases args.len(),
{
    if args.len() > 0 {
        let rest = args.subrange(1, args.len() as int);
        lemma_all_index(rest);
        assert forall|k: int| 0 <= k < args.len() implies simple(#[trigger] args[k]) && canonical(
            args[k],
        ) by {
            if k > 0 {
                assert(rest[k - 1] == args[k]);
            }
        }
    }
}

proof fn lemma_spelled_more_push(b: Seq<Expr>, x: Expr)
    ensures
        spelled_more(b.push(x)) == spelled_more(b) + seq![comma()] + spelled(x),
    decreases b.len(),
{
    if b.len() == 0 {
        assert(b.push(x).subrange(1, 1) == Seq::<Expr>::empty());
        assert(spelled_more(b.push(x)) == seq![comma()] + spelled(x) + spelled_more(
            Seq::<Expr>::empty(),
        ));
    } else {
        let t = b.subrange(1, b.len() as int);
        assert(b.push(x).subrange(1, b.len() as int + 1) == t.push(x));
        lemma_spelled_more_push(t, x);
    }
}

proof fn lemma_spelled_args_push(a: Seq<Expr>, x: Expr)
    requires
        a.len() > 0,
    ensures
        spelled_args(a.push(x)) == spelled_args(a) + seq![comma()] + spelled(x),
{
    let t = a.subrange(1, a.len() as int);
    assert(a.push(x).subrange(1, a.len() as int + 1) == t.push(x));
    assert(a.push(x)[0] == a[0]);
    lemma_spelled_more_push(t, x);
}

/// An operator token at `k`, written as the lexer writes its kind.
proof fn lemma_lex_op(s: Seq<char>, k: nat, t: TokenType)
    requires
        is_infix_kind(t) || t == TokenType::BANG,
        k + op_text(t).len() <= s.len(),
        s.subrange(k as int, k + op_text(t).len() as int) == op_text(t),
        k + op_text(t).len() < s.len() ==> s[k + op_text(t).len() as int] != '=',
    ensures
        lex_all(s, k) == seq![(t, op_text(t))] + lex_all(s, k + op_text(t).len()),
{
    let w = op_text(t);
    lemma_text_at(s, k, w, 0);
    if w.len() == 2 {
        lemma_text_at(s, k, w, 1);
        assert(skip_spaces(s, k) == k);
        assert(s.subrange(k as int, k as int + 2) == w);
        lemma_lex_step(s, k);
    } else {
        lemma_lex_symbol(s, k, w[0]);
    }
}

/// Lexing the text of a simple, canonical expression gives the tokens it is spelled with.
proof fn lemma_lex_expr(e: Expr, s: Seq<char>, i: nat)
    requires
        simple(e),
        canonical(e),
        i + render_expr(e).len() <= s.len(),
        s.subrange(i as int, i + render_expr(e).len() as int) == render_expr(e),
        clean_after(s, i + render_expr(e).len() as int),
    ensures
        lex_all(s, i) == spelled(e) + lex_all(s, i + render_expr(e).len()),
    decreases e, 2nat,
{
    match e {
        Expr::Prefix(_, _, Some(_)) => lemma_lex_prefix(e, s, i),
        Expr::Infix(_, _, Some(_), Some(_)) => lemma_lex_infix(e, s, i),
        Expr::Call(_, _, _) => lemma_lex_call(e, s, i),
        _ => lemma_lex_atom(e, s, i),
    }
}

proof fn lemma_lex_atom(e: Expr, s: Seq<char>, i: nat)
    requires
        simple(e),
        canonical(e),
        e is Ident || e is Int || e is Bool,
        i + render_expr(e).len() <= s.len(),
        s.subrange(i as int, i + render_expr(e).len() as int) == render_expr(e),
        clean_after(s, i + render_expr(e).len() as int),
    ensures
        lex_all(s, i) == spelled(e) + lex_all(s, i + render_expr(e).len()),
{
    reveal_strlit("true");
    reveal_strlit("false");
    let re = render_expr(e);
    lemma_render_start(e);
    lemma_text_at(s, i, re, 0);
    match e {
        Expr::Ident(_, w) => {
            assert(is_letter(w[0]) && !is_space(w[0]) && symbol_kind(w[0]) is None);
            lemma_scan_word(s, i, w, 0);
            assert(skip_spaces(s, i) == i);
            lemma_lex_step(s, i);
        },
        Expr::Int(t, _) => {
            let d = t.1;
            lemma_scan_number(s, i, d, 0);
            assert(skip_spaces(s, i) == i);
            lemma_lex_step(s, i);
        },
        Expr::Bool(_, b) => {
            let w = render_bool(b);
            if b {
                assert(w =~= seq!['t', 'r', 'u', 'e']);
            } else {
                assert(w =~= seq!['f', 'a', 'l', 's', 'e']);
            }
            assert forall|m: int| 0 <= m < w.len() implies is_letter(#[trigger] w[m]) by {}
            lemma_scan_word(s, i, w, 0);
            assert(skip_spaces(s, i) == i);
            lemma_lex_step(s, i);
        },
        _ => {},
    }
}

proof fn lemma_lex_prefix(e: Expr, s: Seq<char>, i: nat)
    requires
        simple(e),
        canonical(e),
        e matches Expr::Prefix(_, _, Some(_)),
        i + render_expr(e).len() <= s.len(),
        s.subrange(i as int, i + render_expr(e).len() as int) == render_expr(e),
    ensures
        lex_all(s, i) == spelled(e) + lex_all(s, i + render_expr(e).len()),
    decreases e, 1nat,
{
    reveal_strlit("(");
    reveal_strlit(")");
    if let Expr::Prefix(tok, op, Some(r)) = e {
        let re = render_expr(e);
        let rr = render_expr(*r);
        let ot = op_text(tok.0);
        assert(re == seq!['('] + (ot + (rr + seq![')'])));
        lemma_text_split(s, i, seq!['('], ot + (rr + seq![')']));
        lemma_text_split(s, i + 1, ot, rr + seq![')']);
        lemma_text_split(s, i + 1 + ot.len(), rr, seq![')']);
        lemma_render_start(*r);
        lemma_text_at(s, i, seq!['('], 0);
        lemma_text_at(s, i + 2, rr, 0);
        lemma_text_at(s, i + 2 + rr.len(), seq![')'], 0);
        lemma_lex_symbol(s, i, '(');
        lemma_lex_op(s, i + 1, tok.0);
        lemma_lex_expr(*r, s, i + 2);
        lemma_lex_symbol(s, i + 2 + rr.len(), ')');
        assert(spelled(e) == seq![open_paren(), tok] + spelled(*r) + seq![close_paren()]);
    }
}

#[verifier::rlimit(50)]
proof fn lemma_lex_infix(e: Expr, s: Seq<char>, i: nat)
    requires
        simple(e),
        canonical(e),
        e matches Expr::Infix(_, _, Some(_), Some(_)),
        i + render_expr(e).len() <= s.len(),
        s.subrange(i as int, i + render_expr(e).len() as int) == render_expr(e),
    ensures
        lex_all(s, i) == spelled(e) + lex_all(s, i + render_expr(e).len()),
    decreases e, 1nat,
{
    reveal_strlit("(");
    reveal_strlit(")");
    reveal_strlit(" ");
    if let Expr::Infix(tok, op, Some(l), Some(r)) = e {
        let re = render_expr(e);
        let rl = render_expr(*l);
        let rr = render_expr(*r);
        let ot = op_text(tok.0);
        let tail = seq![' '] + (ot + (seq![' '] + (rr + seq![')'])));
        assert(re == seq!['('] + (rl + tail));
        lemma_text_split(s, i, seq!['('], rl + tail);
        lemma_text_split(s, i + 1, rl, tail);
        let k1 = i + 1 + rl.len();
        lemma_text_split(s, k1, seq![' '], ot + (seq![' '] + (rr + seq![')'])));
        lemma_text_split(s, k1 + 1, ot, seq![' '] + (rr + seq![')']));
        let k2 = k1 + 1 + ot.len();
        lemma_text_split(s, k2, seq![' '], rr + seq![')']);
        lemma_text_split(s, k2 + 1, rr, seq![')']);
        lemma_text_at(s, i, seq!['('], 0);
        lemma_text_at(s, k1, seq![' '], 0);
        lemma_text_at(s, k2, seq![' '], 0);
        lemma_text_at(s, k2 + 1 + rr.len(), seq![')'], 0);
        lemma_lex_symbol(s, i, '(');
        lemma_lex_expr(*l, s, i + 1);
        lemma_lex_space(s, k1);
        lemma_lex_op(s, k1 + 1, tok.0);
        lemma_lex_space(s, k2);
        lemma_lex_expr(*r, s, k2 + 1);
        lemma_lex_symbol(s, k2 + 1 + rr.len(), ')');
        assert(spelled(e) == seq![open_paren()] + spelled(*l) + seq![tok] + spelled(*r)
            + seq![close_paren()]);
    }
}

proof fn lemma_lex_call(e: Expr, s: Seq<char>, i: nat)
    requires
        simple(e),
        canonical(e),
        e is Call,
        i + render_expr(e).len() <= s.len(),
        s.subrange(i as int, i + render_expr(e).len() as int) == render_expr(e),
    ensures
        lex_all(s, i) == spelled(e) + lex_all(s, i + render_expr(e).len()),
    decreases e, 1nat,
{
    reveal_strlit("(");
    reveal_strlit(")");
    if let Expr::Call(tok, f, args) = e {
        let re = render_expr(e);
        let rf = render_expr(*f);
        let ra = render_exprs(args);
        assert(re == rf + (seq!['('] + (ra + seq![')'])));
        lemma_text_split(s, i, rf, seq!['('] + (ra + seq![')']));
        lemma_text_split(s, i + rf.len(), seq!['('], ra + seq![')']);
        lemma_text_split(s, i + rf.len() + 1, ra, seq![')']);
        lemma_text_at(s, i + rf.len(), seq!['('], 0);
        lemma_text_at(s, i + rf.len() + 1 + ra.len(), seq![')'], 0);
        lemma_lex_expr(*f, s, i);
        lemma_lex_symbol(s, i + rf.len(), '(');
        lemma_all_index(args);
        lemma_lex_args(args, s, i + rf.len() + 1);
        lemma_lex_symbol(s, i + rf.len() + 1 + ra.len(), ')');
        assert(spelled(e) == spelled(*f) + seq![tok] + spelled_args(args) + seq![
            close_paren(),
        ]);
    }
}

/// Lexing the text of call arguments gives the tokens they are spelled with.
proof fn lemma_lex_args(args: Seq<Expr>, s: Seq<char>, i: nat)
    requires
        forall|k: int| 0 <= k < args.len() ==> simple(#[trigger] args[k]) && canonical(args[k]),
        i + render_exprs(args).len() <= s.len(),
        s.subrange(i as int, i + render_exprs(args).len() as int) == render_exprs(args),
        clean_after(s, i + render_exprs(args).len() as int),
    ensures
        lex_all(s, i) == spelled_args(args) + lex_all(s, i + render_exprs(args).len()),
    decreases args, 0nat,
{
    reveal_strlit(", ");
    if args.len() == 1 {
        assert(args[0] == args[0]);
        lemma_lex_expr(args[0], s, i);
        assert(args.subrange(1, 1) == Seq::<Expr>::empty());
    } else if args.len() > 1 {
        let init = args.subrange(0, args.len() - 1);
        let last = args[args.len() - 1];
        let ri = render_exprs(init);
        let rl = render_expr(last);
        assert(render_exprs(args) == ri + (seq![',', ' '] + rl));
        lemma_text_split(s, i, ri, seq![',', ' '] + rl);
        lemma_text_split(s, i + ri.len(), seq![',', ' '], rl);
        lemma_text_at(s, i + ri.len(), seq![',', ' '], 0);
        lemma_text_at(s, i + ri.len(), seq![',', ' '], 1);
        assert forall|k: int| 0 <= k < init.len() implies simple(#[trigger] init[k]) && canonical(
            init[k],
        ) by {
            assert(init[k] == args[k]);
        }
        lemma_lex_args(init, s, i);
        lemma_lex_symbol(s, i + ri.len(), ',');
        lemma_lex_space(s, i + ri.len() + 1);
        lemma_lex_expr(last, s, i + ri.len() + 2);
        assert(args == init.push(last));
        lemma_spelled_args_push(init, last);
    }
}

/// Rendering is undone by parsing: the tokens that the text of a simple expression
/// reads as (identifiers, literals, prefix and infix operators, calls, each operator
/// node in the parentheses that rendering puts around it) parse without errors into a
/// single expression statement whose text is again the text of that expression.
pub proof fn law_parse_inverts_render(e: Expr, toks: Seq<TokView>)
    requires
        simple(e),
        toks == spelled(e).push((TokenType::EOF, Seq::<char>::empty())),
    ensures
        ({
            let s = p_program(toks, 0, Seq::empty(), Seq::empty());
            &&& s.errs.len() == 0
            &&& s.out.len() == 1
            &&& s.out[0] matches Stmt::Expr(_, Some(x)) && render_expr(x) == render_expr(e)
        }),
{
    let se = spelled(e);
    let n = se.len() as int;
    lemma_spelled_shape(e);
    assert(toks.subrange(0, n) == se);
    assert(spells(toks, 0, se));
    assert(toks[n] == (TokenType::EOF, Seq::<char>::empty()));
    assert(kind_at(toks, n) == TokenType::EOF);
    lemma_spells_at(toks, 0, se, 0);
    lemma_spells_at(toks, 0, se, n - 1);
    let errs = Seq::<Seq<char>>::empty();
    let x = lemma_primary(e, toks, 0, errs, rank(Operator::LOWEST));
    assert(statement_end(toks, n - 1) == 1);
    let st = Stmt::Expr(toks[0], Some(x));
    assert(p_expr_stmt(toks, 0, errs) == (Parsed { out: Some(st), used: n as nat, errs }));
    assert(p_stmt(toks, 0, errs) == (Parsed { out: Some(st), used: n as nat, errs }));
    assert(p_program(toks, n, errs, seq![st]) == (Parsed { out: seq![st], used: 0, errs }));
    assert(Seq::<Stmt>::empty().push(st) == seq![st]);
}

/// Rendering is stable under reparsing. When source text parses without errors into
/// one expression statement with no `if` and no function literal in it, parsing the
/// rendered text of that program again records no errors and renders to the same text.
pub proof fn law_render_is_stable(src: Seq<char>)
    requires
        ({
            let s1 = p_program(lex_all(src, 0), 0, Seq::empty(), Seq::empty());
            &&& s1.errs.len() == 0
            &&& s1.out.len() == 1
            &&& s1.out[0] matches Stmt::Expr(_, Some(e)) && no_blocks(e)
        }),
    ensures
        ({
            let s1 = p_program(lex_all(src, 0), 0, Seq::empty(), Seq::empty());
            let s2 = p_program(lex_all(render_stmts(s1.out), 0), 0, Seq::empty(), Seq::empty());
            s2.errs.len() == 0 && render_stmts(s2.out) == render_stmts(s1.out)
        }),
{
    lemma_clean_program(src);
    let s1 = p_program(lex_all(src, 0), 0, Seq::empty(), Seq::empty());
    if let Stmt::Expr(_, Some(e)) = s1.out[0] {
        let text = render_expr(e);
        assert(s1.out.subrange(0, 0) == Seq::<Stmt>::empty());
        assert(render_stmts(s1.out) == render_stmts(Seq::<Stmt>::empty()) + render_stmt(s1.out[0]));
        assert(render_stmt(s1.out[0]) == render_expr(e));
        assert(render_stmts(Seq::<Stmt>::empty()) + render_expr(e) == render_expr(e));
        assert(render_stmts(s1.out) == text);
        assert(text.subrange(0, text.len() as int) == text);
        lemma_lex_expr(e, text, 0);
        assert(skip_spaces(text, text.len()) == text.len());
        assert(lex_all(text, text.len()) == seq![(TokenType::EOF, Seq::<char>::empty())]);
        assert(spelled(e) + seq![(TokenType::EOF, Seq::<char>::empty())] == spelled(e).push(
            (TokenType::EOF, Seq::<char>::empty()),
        ));
        let toks2 = lex_all(text, 0);
        law_parse_inverts_render(e, toks2);
        let s2 = p_program(toks2, 0, Seq::empty(), Seq::empty());
        if let Stmt::Expr(_, Some(x)) = s2.out[0] {
            assert(s2.out.subrange(0, 0) == Seq::<Stmt>::empty());
            assert(render_stmts(s2.out) == render_stmts(Seq::<Stmt>::empty()) + render_stmt(
                s2.out[0],
            ));
            assert(render_stmt(s2.out[0]) == render_expr(x));
            assert(render_stmts(Seq::<Stmt>::empty()) + render_expr(x) == render_expr(x));
        }
    }
}

/// A token whose text is the one the lexer gives its kind.
pub open spec fn tok_ok(t: TokView) -> bool {
    if t.0 == TokenType::IDENT {
        word(t.1)
    } else if t.0 == TokenType::TRUE {
        t.1 == render_bool(true)
    } else if t.0 == TokenType::FALSE {
        t.1 == render_bool(false)
    } else if t.0 == TokenType::LPAREN {
        t.1 == seq!['(']
    } else if is_infix_kind(t.0) || t.0 == TokenType::BANG {
        t.1 == op_text(t.0)
    } else {
        true
    }
}

pub open spec fn toks_ok(toks: Seq<TokView>) -> bool {
    forall|k: int| 0 <= k < toks.len() ==> tok_ok(#[trigger] toks[k])
}

proof fn lemma_lexeme_ok(s: Seq<char>, i: nat)
    requires
        i <= s.len(),
    ensures
        tok_ok((next_lexeme(s, i).0, next_lexeme(s, i).1)),
{
    reveal_strlit("true");
    reveal_strlit("false");
    let j = skip_spaces(s, i);
    lemma_skip_spaces(s, i);
    let t = next_lexeme(s, i);
    if j < s.len() {
        let c = s[j as int];
        if c == '=' && j + 1 < s.len() && s[j as int + 1] == '=' {
            assert(s.subrange(j as int, j as int + 2) =~= seq!['=', '=']);
            assert(tok_ok((t.0, t.1)));
        } else if c == '!' && j + 1 < s.len() && s[j as int + 1] == '=' {
            assert(s.subrange(j as int, j as int + 2) =~= seq!['!', '=']);
            assert(tok_ok((t.0, t.1)));
        } else if symbol_kind(c) is Some {
            assert(t.1 == seq![c]);
            assert(tok_ok((t.0, t.1)));
        } else if is_letter(c) {
            let k = scan_letters(s, j);
            lemma_scan_letters(s, j);
            lemma_scan_letters(s, j + 1);
            let w = s.subrange(j as int, k as int);
            assert(w[0] == c);
            assert forall|m: int| 0 <= m < w.len() implies is_letter(#[trigger] w[m]) by {
                assert(w[m] == s[j + m]);
            }
            assert(t.1 == w);
            assert(t.0 == keyword_kind(w));
            if t.0 == TokenType::TRUE {
                assert(w =~= seq!['t', 'r', 'u', 'e']);
                assert(render_bool(true) =~= seq!['t', 'r', 'u', 'e']);
            }
            if t.0 == TokenType::FALSE {
                assert(w =~= seq!['f', 'a', 'l', 's', 'e']);
                assert(render_bool(false) =~= seq!['f', 'a', 'l', 's', 'e']);
            }
            assert(w.len() > 0);
            assert(!is_space(w[0]));
            assert(tok_ok((t.0, t.1)));
        }
    }
}

/// Every token that the lexer gives carries the text of its kind.
pub proof fn lemma_lex_ok(s: Seq<char>, i: nat)
    requires
        i <= s.len(),
    ensures
        toks_ok(lex_all(s, i)),
    decreases s.len() - i,
{
    let t = next_lexeme(s, i);
    lemma_lexeme_ok(s, i);
    lemma_lexeme_progress(s, i);
    if t.0 != TokenType::EOF {
        lemma_lex_ok(s, t.2);
        let l = lex_all(s, i);
        assert(l == seq![(t.0, t.1)] + lex_all(s, t.2));
        assert forall|k: int| 0 <= k < l.len() implies tok_ok(#[trigger] l[k]) by {
            if k > 0 {
                assert(l[k] == lex_all(s, t.2)[k - 1]);
            }
        }
    }
}

/// An expression with no `if` and no function literal anywhere in it.
pub open spec fn no_blocks(e: Expr) -> bool
    decreases e,
{
    match e {
        Expr::If(..) => false,
        Expr::Fn(..) => false,
        Expr::Prefix(_, _, right) => match right {
            Some(r) => no_blocks(*r),
            None => true,
        },
        Expr::Infix(_, _, left, right) => (match left {
            Some(l) => no_blocks(*l),
            None => true,
        }) && match right {
            Some(r) => no_blocks(*r),
            None => true,
        },
        Expr::Call(_, f, args) => no_blocks(*f) && no_blocks_all(args),
        _ => true,
    }
}

pub open spec fn no_blocks_all(args: Seq<Expr>) -> bool
    decreases args,
{
    if args.len() == 0 {
        true
    } else {
        no_blocks(args[0]) && no_blocks_all(args.subrange(1, args.len() as int))
    }
}

/// Without `if` or function literals, the expression is simple and canonical.
pub open spec fn good(e: Expr) -> bool {
    no_blocks(e) ==> simple(e) && canonical(e)
}

pub open spec fn all_good(v: Seq<Expr>) -> bool {
    forall|k: int| 0 <= k < v.len() ==> good(#[trigger] v[k])
}

proof fn lemma_good_all(v: Seq<Expr>)
    requires
        all_good(v),
        no_blocks_all(v),
    ensures
        simple_all(v),
        canonical_all(v),
    decreases v.len(),
{
    if v.len() > 0 {
        let t = v.subrange(1, v.len() as int);
        assert(good(v[0]));
        assert forall|k: int| 0 <= k < t.len() implies good(#[trigger] t[k]) by {
            assert(t[k] == v[k + 1]);
        }
        lemma_good_all(t);
    }
}

proof fn lemma_clean_expr(toks: Seq<TokView>, p: int, errs: Seq<Seq<char>>, prec: int)
    requires
        toks_ok(toks),
        p_expr(toks, p, errs, prec).errs.len() == 0,
    ensures
        p_expr(toks, p, errs, prec).out matches Some(x) && good(x),
    decreases clip(toks.len() - p), 9nat,
{
    let t = kind_at(toks, p);
    if has_prefix(t) {
        let a = p_prefix(toks, p, errs);
        if let Some(left) = a.out {
            let b = p_loop(toks, p + a.used, a.errs, prec, left);
            lemma_loop_keeps(toks, p + a.used, a.errs, prec, left);
            lemma_clean_prefix(toks, p, errs);
            lemma_clean_loop(toks, p + a.used, a.errs, prec, left);
        } else {
            lemma_clean_prefix(toks, p, errs);
        }
    }
}

proof fn lemma_clean_prefix(toks: Seq<TokView>, p: int, errs: Seq<Seq<char>>)
    requires
        toks_ok(toks),
        has_prefix(kind_at(toks, p)),
        p_prefix(toks, p, errs).errs.len() == 0,
    ensures
        p_prefix(toks, p, errs).out matches Some(x) && good(x),
    decreases clip(toks.len() - p), 8nat,
{
    let tok = toks[p];
    let t = tok.0;
    assert(tok_ok(tok));
    if t == TokenType::INT {
    } else if t == TokenType::BANG || t == TokenType::MINUS {
        lemma_clean_expr(toks, p + 1, errs, rank(Operator::PREFIX));
    } else if t == TokenType::LPAREN {
        let r = p_expr(toks, p + 1, errs, rank(Operator::LOWEST));
        if r.out is Some {
            lemma_expect_keeps(toks, p + 1 + r.used, r.errs, TokenType::RPAREN);
        }
        lemma_clean_expr(toks, p + 1, errs, rank(Operator::LOWEST));
    } else if t == TokenType::IF {
        let x1 = expect(toks, p, errs, TokenType::LPAREN);
        if x1.out && p_expr(toks, p + 2, x1.errs, rank(Operator::LOWEST)).out is None {
            lemma_clean_expr(toks, p + 2, x1.errs, rank(Operator::LOWEST));
        }
    } else if t == TokenType::FUNCTION {
        let x1 = expect(toks, p, errs, TokenType::LPAREN);
        if x1.out && p_params(toks, p + 1, x1.errs).out is None {
            lemma_clean_params(toks, p + 1, x1.errs);
        }
    }
}

proof fn lemma_clean_params(toks: Seq<TokView>, p: int, errs: Seq<Seq<char>>)
    requires
        p_params(toks, p, errs).errs.len() == 0,
    ensures
        p_params(toks, p, errs).out is Some,
{
    if kind_at(toks, p + 1) != TokenType::RPAREN {
        let x = expect(toks, p, errs, TokenType::IDENT);
        if x.out {
            lemma_clean_more_params(toks, p + 1, x.errs, seq![ident_of(toks[p + 1])]);
        }
    }
}

proof fn lemma_clean_more_params(
    toks: Seq<TokView>,
    p: int,
    errs: Seq<Seq<char>>,
    acc: Seq<(TokView, Seq<char>)>,
)
    requires
        p_more_params(toks, p, errs, acc).errs.len() == 0,
    ensures
        p_more_params(toks, p, errs, acc).out is Some,
    decreases clip(toks.len() - p),
{
    if kind_at(toks, p + 1) == TokenType::COMMA {
        let x = expect(toks, p + 1, errs, TokenType::IDENT);
        if x.out {
            lemma_clean_more_params(toks, p + 2, x.errs, acc.push(ident_of(toks[p + 2])));
        }
    }
}

proof fn lemma_clean_loop(
    toks: Seq<TokView>,
    p: int,
    errs: Seq<Seq<char>>,
    prec: int,
    left: Expr,
)
    requires
        toks_ok(toks),
        good(left),
        p_loop(toks, p, errs, prec, left).errs.len() == 0,
    ensures
        p_loop(toks, p, errs, prec, left).out matches Some(x) && good(x),
    decreases clip(toks.len() - p), 7nat,
{
    let pk = kind_at(toks, p + 1);
    if pk == TokenType::SEMICOLON || prec >= rank(precedence_of(pk)) {
    } else if is_infix_kind(pk) {
        let a = p_infix(toks, p + 1, errs, left);
        lemma_loop_keeps(toks, p + 1 + a.used, a.errs, prec, a.out);
        lemma_clean_infix(toks, p + 1, errs, left);
        lemma_clean_loop(toks, p + 1 + a.used, a.errs, prec, a.out);
    } else if pk == TokenType::LPAREN {
        let a = p_call(toks, p + 1, errs, left);
        if let Some(e) = a.out {
            lemma_loop_keeps(toks, p + 1 + a.used, a.errs, prec, e);
            lemma_clean_call(toks, p + 1, errs, left);
            lemma_clean_loop(toks, p + 1 + a.used, a.errs, prec, e);
        } else {
            lemma_clean_call(toks, p + 1, errs, left);
        }
    }
}

proof fn lemma_clean_infix(toks: Seq<TokView>, p: int, errs: Seq<Seq<char>>, left: Expr)
    requires
        toks_ok(toks),
        good(left),
        is_infix_kind(kind_at(toks, p)),
        p_infix(toks, p, errs, left).errs.len() == 0,
    ensures
        good(p_infix(toks, p, errs, left).out),
    decreases clip(toks.len() - p), 6nat,
{
    let tok = toks[p];
    assert(tok_ok(tok));
    lemma_clean_expr(toks, p + 1, errs, rank(precedence_of(tok.0)));
}

proof fn lemma_clean_call(toks: Seq<TokView>, p: int, errs: Seq<Seq<char>>, f: Expr)
    requires
        toks_ok(toks),
        good(f),
        kind_at(toks, p) == TokenType::LPAREN,
        p_call(toks, p, errs, f).errs.len() == 0,
    ensures
        p_call(toks, p, errs, f).out matches Some(x) && good(x),
    decreases clip(toks.len() - p), 6nat,
{
    assert(tok_ok(toks[p]));
    lemma_clean_args(toks, p, errs);
    if let Some(v) = p_args(toks, p, errs).out {
        if no_blocks(Expr::Call(toks[p], Box::new(f), v)) {
            lemma_good_all(v);
        }
    }
}

proof fn lemma_clean_args(toks: Seq<TokView>, p: int, errs: Seq<Seq<char>>)
    requires
        toks_ok(toks),
        0 <= p < toks.len(),
        p_args(toks, p, errs).errs.len() == 0,
    ensures
        p_args(toks, p, errs).out matches Some(v) && all_good(v),
    decreases clip(toks.len() - p), 5nat,
{
    if kind_at(toks, p + 1) != TokenType::RPAREN {
        let a = p_expr(toks, p + 1, errs, rank(Operator::LOWEST));
        if let Some(e) = a.out {
            crate::parser::lemma_more_args_keeps(toks, p + 1 + a.used, a.errs, seq![e]);
            lemma_clean_expr(toks, p + 1, errs, rank(Operator::LOWEST));
            assert(all_good(seq![e]));
            lemma_clean_more(toks, p + 1 + a.used, a.errs, seq![e]);
        } else {
            lemma_clean_expr(toks, p + 1, errs, rank(Operator::LOWEST));
        }
    }
}

proof fn lemma_clean_more(toks: Seq<TokView>, p: int, errs: Seq<Seq<char>>, acc: Seq<Expr>)
    requires
        toks_ok(toks),
        all_good(acc),
        p_more_args(toks, p, errs, acc).errs.len() == 0,
    ensures
        p_more_args(toks, p, errs, acc).out matches Some(v) && all_good(v),
    decreases clip(toks.len() - p), 4nat,
{
    if kind_at(toks, p + 1) == TokenType::COMMA {
        let a = p_expr(toks, p + 2, errs, rank(Operator::LOWEST));
        if let Some(e) = a.out {
            crate::parser::lemma_more_args_keeps(toks, p + 2 + a.used, a.errs, acc.push(e));
            lemma_clean_expr(toks, p + 2, errs, rank(Operator::LOWEST));
            assert(all_good(acc.push(e))) by {
                assert forall|k: int| 0 <= k < acc.push(e).len() implies good(
                    #[trigger] acc.push(e)[k],
                ) by {
                    if k < acc.len() {
                        assert(acc.push(e)[k] == acc[k]);
                    }
                }
            }
            lemma_clean_more(toks, p + 2 + a.used, a.errs, acc.push(e));
        } else {
            lemma_clean_expr(toks, p + 2, errs, rank(Operator::LOWEST));
        }
    }
}

proof fn lemma_program_keeps_acc(toks: Seq<TokView>, p: int, errs: Seq<Seq<char>>, acc: Seq<Stmt>)
    ensures
        acc.is_prefix_of(p_program(toks, p, errs, acc).out),
    decreases clip(toks.len() - p),
{
    assert(acc.subrange(0, acc.len() as int) =~= acc);
    if kind_at(toks, p) != TokenType::EOF {
        let st = p_stmt(toks, p, errs);
        if st.used != 0 {
            let acc2 = push_some(acc, st.out);
            lemma_program_keeps_acc(toks, p + st.used, st.errs, acc2);
            let out = p_program(toks, p + st.used, st.errs, acc2).out;
            assert(acc2.subrange(0, acc.len() as int) =~= acc);
            assert(out.subrange(0, acc.len() as int) =~= acc2.subrange(0, acc.len() as int));
        }
    }
}

/// A source that parses without errors into one expression statement with no `if`
/// and no function literal gives a simple, canonical expression.
proof fn lemma_clean_program(src: Seq<char>)
    requires
        ({
            let s1 = p_program(lex_all(src, 0), 0, Seq::empty(), Seq::empty());
            &&& s1.errs.len() == 0
            &&& s1.out.len() == 1
            &&& s1.out[0] matches Stmt::Expr(_, Some(e)) && no_blocks(e)
        }),
    ensures
        p_program(lex_all(src, 0), 0, Seq::empty(), Seq::empty()).out[0] matches Stmt::Expr(
            _,
            Some(e),
        ) && simple(e) && canonical(e),
{
    let toks = lex_all(src, 0);
    let e0 = Seq::<Seq<char>>::empty();
    lemma_lex_ok(src, 0);
    let s1 = p_program(toks, 0, e0, Seq::empty());
    let st = p_stmt(toks, 0, e0);
    lemma_stmt_progress(toks, 0, e0);
    let acc = push_some(Seq::<Stmt>::empty(), st.out);
    law_errors_accumulate(toks, st.used as int, st.errs, acc);
    lemma_program_keeps_acc(toks, st.used as int, st.errs, acc);
    assert(st.errs.len() == 0);
    let k = kind_at(toks, 0);
    if k == TokenType::LET {
        assert(expect(toks, 0, e0, TokenType::IDENT).out);
        assert(expect(toks, 1, e0, TokenType::ASSIGN).out);
        assert(st.out matches Some(Stmt::Let(..)));
        assert(acc == seq![st.out->0]);
        assert(s1.out[0] == acc[0]);
    } else if k == TokenType::RETURN {
        assert(st.out matches Some(Stmt::Return(..)));
        assert(acc == seq![st.out->0]);
        assert(s1.out[0] == acc[0]);
    } else {
        let v = p_expr(toks, 0, e0, rank(Operator::LOWEST));
        assert(st == p_expr_stmt(toks, 0, e0));
        lemma_clean_expr(toks, 0, e0, rank(Operator::LOWEST));
        assert(acc == seq![st.out->0]);
        assert(s1.out[0] == acc[0]);
    }
}

} // verus!
