//! Properties that relate the parser's rules to the canonical rendering.

use vstd::prelude::*;
use crate::token::{TokenModel, TokenType};
use crate::lexer::tok;
use crate::precedence::{precedence, CALL, LOWEST, PREFIX};
use crate::ast::ExprModel;
use crate::grammar::{
    adv, arguments_of, cur, expression_of, has_infix_rule, infix_loop, infix_step, literal_value,
    more_arguments, peek, prefix_of, within, PState,
};

verus! {

/// An expression of atoms, prefix and infix operators and calls as the
/// parser builds it: each node keeps the token it came from, and
/// identifiers and operators carry that token's text.
pub open spec fn operator_tree(e: ExprModel) -> bool
    decreases e,
{
    match e {
        ExprModel::Ident(i) => i.token.kind == TokenType::IDENT && i.value == i.token.literal,
        ExprModel::Int { token, value } => token.kind == TokenType::INT && literal_value(token.literal)
            == Some(value),
        ExprModel::Bool { token, value } => (token.kind == TokenType::TRUE || token.kind
            == TokenType::FALSE) && value == (token.kind == TokenType::TRUE),
        ExprModel::Prefix { token, operator, right } => (token.kind == TokenType::BANG || token.kind
            == TokenType::MINUS) && operator == token.literal && operator_tree(*right),
        ExprModel::Infix { token, left, operator, right } => has_infix_rule(token.kind) && token.kind
            != TokenType::LPAREN && operator == token.literal && operator_tree(*left) && operator_tree(
            *right,
        ),
        ExprModel::Call { token, function, arguments } => token.kind == TokenType::LPAREN
            && operator_tree(*function) && operator_trees(arguments),
        _ => false,
    }
}

pub open spec fn operator_trees(a: Seq<ExprModel>) -> bool
    decreases a,
{
    if a.len() == 0 {
        true
    } else {
        operator_tree(a[0]) && operator_trees(a.drop_first())
    }
}

pub open spec fn open_paren() -> TokenModel {
    tok(TokenType::LPAREN, seq!['('])
}

pub open spec fn close_paren() -> TokenModel {
    tok(TokenType::RPAREN, seq![')'])
}

pub open spec fn comma() -> TokenModel {
    tok(TokenType::COMMA, seq![','])
}

/// The tokens of an expression's canonical text: operators fully
/// parenthesised, arguments separated by commas.
pub open spec fn tokens_of(e: ExprModel) -> Seq<TokenModel>
    decreases e,
{
    match e {
        ExprModel::Ident(i) => seq![i.token],
        ExprModel::Int { token, .. } => seq![token],
        ExprModel::Bool { token, .. } => seq![token],
        ExprModel::Prefix { token, right, .. } => seq![open_paren(), token] + tokens_of(*right) + seq![
            close_paren(),
        ],
        ExprModel::Infix { token, left, right, .. } => seq![open_paren()] + tokens_of(*left) + seq![token]
            + tokens_of(*right) + seq![close_paren()],
        ExprModel::Call { token, function, arguments } => tokens_of(*function) + seq![token]
            + argument_tokens(arguments) + seq![close_paren()],
        _ => seq![],
    }
}

pub open spec fn argument_tokens(a: Seq<ExprModel>) -> Seq<TokenModel>
    decreases a,
{
    if a.len() == 0 {
        seq![]
    } else {
        tokens_of(a[0]) + later_arguments(a.drop_first())
    }
}

/// Each argument after the first, preceded by a comma.
pub open spec fn later_arguments(a: Seq<ExprModel>) -> Seq<TokenModel>
    decreases a,
{
    if a.len() == 0 {
        seq![]
    } else {
        seq![comma()] + tokens_of(a[0]) + later_arguments(a.drop_first())
    }
}

pub open spec fn has_prefix_start(k: TokenType) -> bool {
    k == TokenType::IDENT || k == TokenType::INT || k == TokenType::TRUE || k == TokenType::FALSE
        || k == TokenType::LPAREN
}

proof fn lemma_tokens_shape(e: ExprModel)
    requires
        operator_tree(e),
    ensures
        tokens_of(e).len() >= 1,
        has_prefix_start(tokens_of(e)[0].kind),
    decreases e,
{
    if let ExprModel::Call { function, .. } = e {
        lemma_tokens_shape(*function);
    }
}

/// A token after which no infix operator binding more tightly than `prec`
/// continues an expression.
pub open spec fn stops(rest: Seq<TokenModel>, prec: i8) -> bool {
    rest.len() == 0 || rest[0].kind == TokenType::SEMICOLON || !(prec < precedence(rest[0].kind)
        && has_infix_rule(rest[0].kind))
}

proof fn lemma_loop_stops(s: PState, prec: i8, e: ExprModel)
    requires
        stops(s.toks.drop_first(), prec),
        s.toks.len() >= 1,
    ensures
        infix_loop(s, prec, e) == (e, s),
{
}

/// The expression is read, and the infix loop left to continue after it.
proof fn lemma_reads(e: ExprModel, rest: Seq<TokenModel>, prec: i8, errs: Seq<Seq<char>>)
    requires
        operator_tree(e),
        prec < CALL,
    ensures
        expression_of(PState { toks: tokens_of(e) + rest, errors: errs }, prec) == infix_loop(
            PState { toks: seq![tokens_of(e).last()] + rest, errors: errs },
            prec,
            e,
        ),
    decreases e, 2int,
{
    lemma_tokens_shape(e);
    let s = PState { toks: tokens_of(e) + rest, errors: errs };
    match e {
        ExprModel::Call { token, function, arguments } => {
            let f = *function;
            lemma_tokens_shape(f);
            let after = seq![token] + argument_tokens(arguments) + seq![close_paren()] + rest;
            assert(s.toks =~= tokens_of(f) + after);
            lemma_reads(f, after, prec, errs);
            let f_end = PState { toks: seq![tokens_of(f).last()] + after, errors: errs };
            assert(peek(f_end) == token);
            let at_paren = adv(f_end);
            assert(at_paren.toks =~= seq![token] + argument_tokens(arguments) + (seq![close_paren()] + rest));
            lemma_arguments(token, arguments, rest, errs);
            let e_end = PState { toks: seq![close_paren()] + rest, errors: errs };
            assert(infix_step(at_paren, f) == (e, e_end));
            assert(tokens_of(e).last() == close_paren());
        },
        _ => {
            lemma_prefix_part(e, rest, errs);
        },
    }
}

/// An expression followed by a token that stops it parses back to itself.
proof fn lemma_expression(e: ExprModel, rest: Seq<TokenModel>, prec: i8, errs: Seq<Seq<char>>)
    requires
        operator_tree(e),
        prec < CALL,
        stops(rest, prec),
    ensures
        expression_of(PState { toks: tokens_of(e) + rest, errors: errs }, prec) == (
            e,
            PState { toks: seq![tokens_of(e).last()] + rest, errors: errs },
        ),
    decreases e, 3int,
{
    lemma_reads(e, rest, prec, errs);
    let end = PState { toks: seq![tokens_of(e).last()] + rest, errors: errs };
    assert(end.toks.drop_first() =~= rest);
    lemma_loop_stops(end, prec, e);
}

/// The prefix rule of the first token reads an expression that is not a
/// call whole, up to its last token.
proof fn lemma_prefix_part(e: ExprModel, rest: Seq<TokenModel>, errs: Seq<Seq<char>>)
    requires
        operator_tree(e),
        !(e is Call),
    ensures
        prefix_of(PState { toks: tokens_of(e) + rest, errors: errs }) == (
            e,
            PState { toks: seq![tokens_of(e).last()] + rest, errors: errs },
        ),
    decreases e, 1int,
{
    let s = PState { toks: tokens_of(e) + rest, errors: errs };
    match e {
        ExprModel::Prefix { token, operator, right } => {
            let r = *right;
            lemma_tokens_shape(r);
            let after = seq![close_paren()] + rest;
            let inner = PState { toks: seq![token] + tokens_of(r) + after, errors: errs };
            assert(adv(s).toks =~= inner.toks);
            lemma_expression(r, after, PREFIX, errs);
            assert(adv(inner).toks =~= tokens_of(r) + after);
            let r_end = PState { toks: seq![tokens_of(r).last()] + after, errors: errs };
            assert(r_end.toks.drop_first() =~= after);
            lemma_loop_stops(r_end, LOWEST, e);
            assert(expression_of(inner, LOWEST) == (e, r_end));
            assert(adv(r_end).toks =~= seq![tokens_of(e).last()] + rest);
        },
        ExprModel::Infix { token, left, operator, right } => {
            let l = *left;
            let r = *right;
            lemma_tokens_shape(l);
            lemma_tokens_shape(r);
            let after = seq![close_paren()] + rest;
            let mid = seq![token] + tokens_of(r) + after;
            let inner = PState { toks: tokens_of(l) + mid, errors: errs };
            assert(adv(s).toks =~= inner.toks);
            lemma_reads(l, mid, LOWEST, errs);
            let l_end = PState { toks: seq![tokens_of(l).last()] + mid, errors: errs };
            assert(peek(l_end) == token);
            let at_op = adv(l_end);
            assert(at_op.toks =~= mid);
            assert(adv(at_op).toks =~= tokens_of(r) + after);
            lemma_expression(r, after, precedence(token.kind), errs);
            let r_end = PState { toks: seq![tokens_of(r).last()] + after, errors: errs };
            assert(infix_step(at_op, l) == (e, r_end));
            assert(r_end.toks.drop_first() =~= after);
            lemma_loop_stops(r_end, LOWEST, e);
            assert(infix_loop(l_end, LOWEST, l) == (e, r_end));
            assert(expression_of(inner, LOWEST) == (e, r_end));
            assert(adv(r_end).toks =~= seq![tokens_of(e).last()] + rest);
        },
        _ => {
            assert(s.toks =~= seq![tokens_of(e).last()] + rest);
        },
    }
}

/// `( arguments )`, the current token being the `(`, reads back the arguments.
proof fn lemma_arguments(
    token: TokenModel,
    a: Seq<ExprModel>,
    rest: Seq<TokenModel>,
    errs: Seq<Seq<char>>,
)
    requires
        operator_trees(a),
    ensures
        arguments_of(
            PState { toks: seq![token] + argument_tokens(a) + (seq![close_paren()] + rest), errors: errs },
        ) == (a, PState { toks: seq![close_paren()] + rest, errors: errs }),
    decreases a, 1int,
{
    let s = PState { toks: seq![token] + argument_tokens(a) + (seq![close_paren()] + rest), errors: errs };
    if a.len() == 0 {
        assert(argument_tokens(a) =~= seq![]);
        assert(s.toks =~= seq![token, close_paren()] + rest);
        assert(peek(s) == close_paren());
        assert(adv(s).toks =~= seq![close_paren()] + rest);
    } else {
        let a0 = a[0];
        lemma_tokens_shape(a0);
        let after = later_arguments(a.drop_first()) + (seq![close_paren()] + rest);
        assert(adv(s).toks =~= tokens_of(a0) + after);
        lemma_later_start(a.drop_first(), rest);
        lemma_expression(a0, after, LOWEST, errs);
        let a0_end = PState { toks: seq![tokens_of(a0).last()] + after, errors: errs };
        assert(peek(s) == tokens_of(a0)[0]);
        assert(a0_end.toks =~= seq![tokens_of(a0).last()] + later_arguments(a.drop_first()) + (seq![
            close_paren(),
        ] + rest));
        lemma_more(a.drop_first(), seq![a0], tokens_of(a0).last(), rest, errs);
        assert(seq![a0] + a.drop_first() =~= a);
    }
}

proof fn lemma_later_start(a: Seq<ExprModel>, rest: Seq<TokenModel>)
    ensures
        stops(later_arguments(a) + (seq![close_paren()] + rest), LOWEST),
{
    if a.len() == 0 {
        assert(later_arguments(a) + (seq![close_paren()] + rest) =~= seq![close_paren()] + rest);
    } else {
        assert((later_arguments(a) + (seq![close_paren()] + rest))[0] == comma());
    }
}

/// The arguments after the first, each after its comma, up to the `)`.
proof fn lemma_more(
    a: Seq<ExprModel>,
    acc: Seq<ExprModel>,
    last: TokenModel,
    rest: Seq<TokenModel>,
    errs: Seq<Seq<char>>,
)
    requires
        operator_trees(a),
    ensures
        more_arguments(
            PState { toks: seq![last] + later_arguments(a) + (seq![close_paren()] + rest), errors: errs },
            acc,
        ) == (acc + a, PState { toks: seq![close_paren()] + rest, errors: errs }),
    decreases a, 0int,
{
    let s = PState { toks: seq![last] + later_arguments(a) + (seq![close_paren()] + rest), errors: errs };
    if a.len() == 0 {
        assert(later_arguments(a) =~= seq![]);
        assert(s.toks =~= seq![last, close_paren()] + rest);
        assert(peek(s) == close_paren());
        assert(adv(s).toks =~= seq![close_paren()] + rest);
        assert(acc + a =~= acc);
    } else {
        let a0 = a[0];
        lemma_tokens_shape(a0);
        let after = later_arguments(a.drop_first()) + (seq![close_paren()] + rest);
        assert(s.toks =~= seq![last, comma()] + (tokens_of(a0) + after));
        assert(adv(adv(s)).toks =~= tokens_of(a0) + after);
        lemma_later_start(a.drop_first(), rest);
        lemma_expression(a0, after, LOWEST, errs);
        assert(peek(s) == comma());
        let a0_end = PState { toks: seq![tokens_of(a0).last()] + after, errors: errs };
        assert(a0_end.toks =~= seq![tokens_of(a0).last()] + later_arguments(a.drop_first()) + (seq![
            close_paren(),
        ] + rest));
        lemma_more(a.drop_first(), acc.push(a0), tokens_of(a0).last(), rest, errs);
        assert(acc.push(a0) + a.drop_first() =~= acc + a);
    }
}

/// Parsing the tokens of an expression's canonical text, built of atoms,
/// prefix and infix operators and calls, gives back the expression itself;
/// the parser stops on the last of those tokens, recording nothing.
pub proof fn lemma_reparse_canonical(e: ExprModel)
    requires
        operator_tree(e),
    ensures
        expression_of(PState { toks: tokens_of(e), errors: seq![] }, LOWEST) == (
            e,
            PState { toks: seq![tokens_of(e).last()], errors: seq![] },
        ),
{
    lemma_expression(e, seq![], LOWEST, seq![]);
    assert(tokens_of(e) + seq![] =~= tokens_of(e));
    assert(seq![tokens_of(e).last()] + seq![] =~= seq![tokens_of(e).last()]);
}

} // verus!
