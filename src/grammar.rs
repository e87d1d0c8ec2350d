//! What the parser computes, stated over sequences of tokens: the Pratt
//! algorithm with its recovery rules, as spec functions.

use vstd::prelude::*;
use crate::token::{TokenModel, TokenType};
use crate::lexer::tok;
use crate::precedence::{precedence, LOWEST, PREFIX};
use crate::ast::{BlockModel, ExprModel, IdentModel, StmtModel};

verus! {

/// The parser's state: the tokens not yet consumed (the current token first;
/// `EOF` is implicit after them) and the diagnostics recorded so far.
pub struct PState {
    pub toks: Seq<TokenModel>,
    pub errors: Seq<Seq<char>>,
}

pub open spec fn eof_tok() -> TokenModel {
    tok(TokenType::EOF, seq![])
}

pub open spec fn cur(s: PState) -> TokenModel {
    if s.toks.len() > 0 {
        s.toks[0]
    } else {
        eof_tok()
    }
}

pub open spec fn peek(s: PState) -> TokenModel {
    if s.toks.len() > 1 {
        s.toks[1]
    } else {
        eof_tok()
    }
}

/// Moves to the next token; at the end nothing changes.
pub open spec fn adv(s: PState) -> PState {
    if s.toks.len() > 0 {
        PState { toks: s.toks.drop_first(), errors: s.errors }
    } else {
        s
    }
}

pub open spec fn with_error(s: PState, m: Seq<char>) -> PState {
    PState { toks: s.toks, errors: s.errors.push(m) }
}

/// `inner`, a state reached from `outer`, which never holds more tokens.
pub open spec fn within(outer: PState, inner: PState) -> PState {
    if inner.toks.len() <= outer.toks.len() {
        inner
    } else {
        outer
    }
}

/// The name of a token kind, as diagnostics show it.
pub open spec fn kind_name(k: TokenType) -> Seq<char> {
    match k {
        TokenType::ILLEGAL => "ILLEGAL"@,
        TokenType::EOF => "EOF"@,
        TokenType::IDENT => "IDENT"@,
        TokenType::INT => "INT"@,
        TokenType::ASSIGN => "ASSIGN"@,
        TokenType::PLUS => "PLUS"@,
        TokenType::MINUS => "MINUS"@,
        TokenType::BANG => "BANG"@,
        TokenType::ASTERISK => "ASTERISK"@,
        TokenType::SLASH => "SLASH"@,
        TokenType::LT => "LT"@,
        TokenType::GT => "GT"@,
        TokenType::EQ => "EQ"@,
        TokenType::NOT_EQ => "NOT_EQ"@,
        TokenType::COMMA => "COMMA"@,
        TokenType::SEMICOLON => "SEMICOLON"@,
        TokenType::LPAREN => "LPAREN"@,
        TokenType::RPAREN => "RPAREN"@,
        TokenType::LBRACE => "LBRACE"@,
        TokenType::RBRACE => "RBRACE"@,
        TokenType::FUNCTION => "FUNCTION"@,
        TokenType::LET => "LET"@,
        TokenType::TRUE => "TRUE"@,
        TokenType::FALSE => "FALSE"@,
        TokenType::IF => "IF"@,
        TokenType::ELSE => "ELSE"@,
        TokenType::RETURN => "RETURN"@,
    }
}

pub open spec fn no_prefix_message(k: TokenType) -> Seq<char> {
    "no prefix parse function for "@ + kind_name(k)
}

pub open spec fn expect_message(want: TokenType, got: TokenType) -> Seq<char> {
    "expected next token to be "@ + kind_name(want) + ", got "@ + kind_name(got) + " instead"@
}

pub open spec fn integer_message(lit: Seq<char>) -> Seq<char> {
    "could not parse "@ + lit + " as integer"@
}

/// The value of a string of decimal digits.
pub open spec fn decimal_value(d: Seq<char>) -> int
    decreases d.len(),
{
    if d.len() == 0 {
        0
    } else {
        decimal_value(d.drop_last()) * 10 + (d.last() as int - '0' as int)
    }
}

pub open spec fn all_digits(d: Seq<char>) -> bool {
    forall|k: int| 0 <= k < d.len() ==> '0' <= #[trigger] d[k] <= '9'
}

/// The value of an integer literal, where it is one that fits in `i64`.
pub open spec fn literal_value(d: Seq<char>) -> Option<i64> {
    if d.len() > 0 && all_digits(d) && decimal_value(d) <= i64::MAX {
        Some(decimal_value(d) as i64)
    } else {
        None
    }
}

pub open spec fn has_prefix_rule(k: TokenType) -> bool {
    match k {
        TokenType::IDENT | TokenType::INT | TokenType::BANG | TokenType::MINUS | TokenType::TRUE
        | TokenType::FALSE | TokenType::LPAREN | TokenType::IF | TokenType::FUNCTION => true,
        _ => false,
    }
}

pub open spec fn has_infix_rule(k: TokenType) -> bool {
    match k {
        TokenType::PLUS | TokenType::MINUS | TokenType::SLASH | TokenType::ASTERISK | TokenType::EQ
        | TokenType::NOT_EQ | TokenType::LT | TokenType::GT | TokenType::LPAREN => true,
        _ => false,
    }
}

/// Consumes the next token if it has kind `k`; records a diagnostic if not.
pub open spec fn expect(s: PState, k: TokenType) -> (bool, PState) {
    if peek(s).kind == k {
        (true, adv(s))
    } else {
        (false, with_error(s, expect_message(k, peek(s).kind)))
    }
}

/// The placeholder for the diagnostic just recorded.
pub open spec fn recovery(s: PState) -> ExprModel {
    ExprModel::Error { message: s.errors.last() }
}

/// Consumes an optional semicolon that follows.
pub open spec fn skip_semicolon(s: PState) -> PState {
    if peek(s).kind == TokenType::SEMICOLON {
        adv(s)
    } else {
        s
    }
}

/// An expression whose operators bind more tightly than `prec`, starting at
/// the current token; on return the current token is its last one.
pub open spec fn expression_of(s: PState, prec: i8) -> (ExprModel, PState)
    decreases s.toks.len(), 5int,
{
    let t = cur(s);
    if !has_prefix_rule(t.kind) {
        let m = no_prefix_message(t.kind);
        (ExprModel::Error { message: m }, with_error(s, m))
    } else {
        let (left, s1) = prefix_of(s);
        infix_loop(within(s, s1), prec, left)
    }
}

/// Folds infix operators onto `left` while the next one binds more tightly
/// than `prec`.
pub open spec fn infix_loop(s: PState, prec: i8, left: ExprModel) -> (ExprModel, PState)
    decreases s.toks.len(), 4int,
{
    let k = peek(s).kind;
    if k != TokenType::SEMICOLON && prec < precedence(k) && has_infix_rule(k) {
        let s1 = adv(s);
        let (e, s2) = infix_step(s1, left);
        infix_loop(within(s1, s2), prec, e)
    } else {
        (left, s)
    }
}

/// Applies the infix rule of the current token to `left`: a call for `(`, a
/// binary operation for the others.
pub open spec fn infix_step(s: PState, left: ExprModel) -> (ExprModel, PState)
    decreases s.toks.len(), 7int,
{
    let t = cur(s);
    if t.kind == TokenType::LPAREN {
        let (args, s1) = arguments_of(s);
        (ExprModel::Call { token: t, function: Box::new(left), arguments: args }, s1)
    } else if has_infix_rule(t.kind) {
        let (right, s1) = expression_of(adv(s), precedence(t.kind));
        (
            ExprModel::Infix { token: t, left: Box::new(left), operator: t.literal, right: Box::new(right) },
            s1,
        )
    } else {
        (left, s)
    }
}

/// An argument list, the current token being `(`.
pub open spec fn arguments_of(s: PState) -> (Seq<ExprModel>, PState)
    decreases s.toks.len(), 6int,
{
    if peek(s).kind == TokenType::RPAREN {
        (seq![], adv(s))
    } else {
        let (first, s1) = expression_of(adv(s), LOWEST);
        more_arguments(within(adv(s), s1), seq![first])
    }
}

/// The expression that the current token starts, by its prefix rule.
pub open spec fn prefix_of(s: PState) -> (ExprModel, PState)
    decreases s.toks.len(), 4int,
{
    let t = cur(s);
    match t.kind {
        TokenType::IDENT => (ExprModel::Ident(IdentModel { token: t, value: t.literal }), s),
        TokenType::INT => match literal_value(t.literal) {
            Some(v) => (ExprModel::Int { token: t, value: v }, s),
            None => {
                let m = integer_message(t.literal);
                (ExprModel::Error { message: m }, with_error(s, m))
            },
        },
        TokenType::TRUE | TokenType::FALSE => (
            ExprModel::Bool { token: t, value: t.kind == TokenType::TRUE },
            s,
        ),
        TokenType::BANG | TokenType::MINUS => {
            let (right, s1) = expression_of(adv(s), PREFIX);
            (ExprModel::Prefix { token: t, operator: t.literal, right: Box::new(right) }, s1)
        },
        TokenType::LPAREN => {
            let (e, s1) = expression_of(adv(s), LOWEST);
            let (ok, s2) = expect(within(adv(s), s1), TokenType::RPAREN);
            if ok {
                (e, s2)
            } else {
                (recovery(s2), s2)
            }
        },
        TokenType::IF => conditional_of(s),
        TokenType::FUNCTION => function_of(s),
        _ => {
            let m = no_prefix_message(t.kind);
            (ExprModel::Error { message: m }, with_error(s, m))
        },
    }
}

/// `if ( condition ) { ... } [else { ... }]`, the current token being `if`.
pub open spec fn conditional_of(s: PState) -> (ExprModel, PState)
    decreases s.toks.len(), 3int,
{
    let t = cur(s);
    let (ok1, s1) = expect(s, TokenType::LPAREN);
    if !ok1 {
        (recovery(s1), s1)
    } else {
        let (cond, s2) = expression_of(adv(s1), LOWEST);
        let (ok2, s3) = expect(within(adv(s1), s2), TokenType::RPAREN);
        if !ok2 {
            (recovery(s3), s3)
        } else {
            let (ok3, s4) = expect(s3, TokenType::LBRACE);
            if !ok3 {
                (recovery(s4), s4)
            } else {
                let (cons, s5) = block_of(s4);
                let s5 = within(s4, s5);
                if peek(s5).kind == TokenType::ELSE {
                    let (ok4, s6) = expect(adv(s5), TokenType::LBRACE);
                    if !ok4 {
                        (recovery(s6), s6)
                    } else {
                        let (alt, s7) = block_of(s6);
                        (
                            ExprModel::If {
                                token: t,
                                condition: Box::new(cond),
                                consequence: cons,
                                alternative: Some(alt),
                            },
                            s7,
                        )
                    }
                } else {
                    (
                        ExprModel::If {
                            token: t,
                            condition: Box::new(cond),
                            consequence: cons,
                            alternative: None,
                        },
                        s5,
                    )
                }
            }
        }
    }
}

/// `fn ( params ) { ... }`, the current token being `fn`.
pub open spec fn function_of(s: PState) -> (ExprModel, PState)
    decreases s.toks.len(), 3int,
{
    let t = cur(s);
    let (ok1, s1) = expect(s, TokenType::LPAREN);
    if !ok1 {
        (recovery(s1), s1)
    } else {
        match parameters_of(s1) {
            (None, s2) => (recovery(s2), s2),
            (Some(params), s2) => {
                let (ok2, s3) = expect(within(s1, s2), TokenType::LBRACE);
                if !ok2 {
                    (recovery(s3), s3)
                } else {
                    let (body, s4) = block_of(s3);
                    (ExprModel::Function { token: t, params, body }, s4)
                }
            },
        }
    }
}

/// A parameter list, the current token being `(`; `None` where it is not
/// closed by `)`.
pub open spec fn parameters_of(s: PState) -> (Option<Seq<IdentModel>>, PState)
    decreases s.toks.len(), 2int,
{
    if peek(s).kind == TokenType::RPAREN {
        (Some(seq![]), adv(s))
    } else {
        let s1 = adv(s);
        let first = IdentModel { token: cur(s1), value: cur(s1).literal };
        more_parameters(s1, seq![first])
    }
}

pub open spec fn more_parameters(s: PState, acc: Seq<IdentModel>) -> (
    Option<Seq<IdentModel>>,
    PState,
)
    decreases s.toks.len(), 1int,
{
    if peek(s).kind == TokenType::COMMA {
        let s1 = adv(adv(s));
        more_parameters(s1, acc.push(IdentModel { token: cur(s1), value: cur(s1).literal }))
    } else {
        let (ok, s1) = expect(s, TokenType::RPAREN);
        if ok {
            (Some(acc), s1)
        } else {
            (None, s1)
        }
    }
}

/// The arguments after the first, up to the closing `)`.
pub open spec fn more_arguments(s: PState, acc: Seq<ExprModel>) -> (Seq<ExprModel>, PState)
    decreases s.toks.len(), 1int,
{
    if peek(s).kind == TokenType::COMMA {
        let s1 = adv(adv(s));
        let (e, s2) = expression_of(s1, LOWEST);
        more_arguments(within(s1, s2), acc.push(e))
    } else {
        let (ok, s1) = expect(s, TokenType::RPAREN);
        (acc, s1)
    }
}

/// `{ statements }`, the current token being `{`; on return the current
/// token is the closing `}` (or `EOF`).
pub open spec fn block_of(s: PState) -> (BlockModel, PState)
    decreases s.toks.len(), 9int,
{
    let (stmts, s1) = statements_until_brace(adv(s), seq![]);
    (BlockModel { token: cur(s), statements: stmts }, s1)
}

pub open spec fn statements_until_brace(s: PState, acc: Seq<StmtModel>) -> (Seq<StmtModel>, PState)
    decreases s.toks.len(), 8int,
{
    let k = cur(s).kind;
    if k == TokenType::RBRACE || k == TokenType::EOF {
        (acc, s)
    } else {
        let (st, s1) = statement_of(s);
        let acc1 = match st {
            Some(x) => acc.push(x),
            None => acc,
        };
        statements_until_brace(adv(within(s, s1)), acc1)
    }
}

/// The statement that starts at the current token; `None` for a `let`
/// statement that is not well formed. On return the current token is its last.
pub open spec fn statement_of(s: PState) -> (Option<StmtModel>, PState)
    decreases s.toks.len(), 7int,
{
    match cur(s).kind {
        TokenType::LET => let_of(s),
        TokenType::RETURN => return_of(s),
        _ => expression_statement_of(s),
    }
}

pub open spec fn let_of(s: PState) -> (Option<StmtModel>, PState)
    decreases s.toks.len(), 6int,
{
    let t = cur(s);
    let (ok1, s1) = expect(s, TokenType::IDENT);
    if !ok1 {
        (None, s1)
    } else {
        let name = IdentModel { token: cur(s1), value: cur(s1).literal };
        let (ok2, s2) = expect(s1, TokenType::ASSIGN);
        if !ok2 {
            (None, s2)
        } else {
            let (v, s3) = expression_of(adv(s2), LOWEST);
            (Some(StmtModel::Let { token: t, name, value: v }), skip_semicolon(s3))
        }
    }
}

pub open spec fn return_of(s: PState) -> (Option<StmtModel>, PState)
    decreases s.toks.len(), 6int,
{
    let (v, s1) = expression_of(adv(s), LOWEST);
    (Some(StmtModel::Return { token: cur(s), value: v }), skip_semicolon(s1))
}

pub open spec fn expression_statement_of(s: PState) -> (Option<StmtModel>, PState)
    decreases s.toks.len(), 6int,
{
    let (e, s1) = expression_of(s, LOWEST);
    (Some(StmtModel::Expr { token: cur(s), expression: e }), skip_semicolon(s1))
}

/// The statements of a whole program, up to `EOF`.
pub open spec fn program_of(s: PState, acc: Seq<StmtModel>) -> (Seq<StmtModel>, PState)
    decreases s.toks.len(), 10int,
{
    if cur(s).kind == TokenType::EOF {
        (acc, s)
    } else {
        let (st, s1) = statement_of(s);
        let acc1 = match st {
            Some(x) => acc.push(x),
            None => acc,
        };
        program_of(adv(within(s, s1)), acc1)
    }
}

pub proof fn lemma_until_brace_step(s: PState, acc: Seq<StmtModel>)
    requires
        cur(s).kind != TokenType::RBRACE,
        cur(s).kind != TokenType::EOF,
    ensures
        statements_until_brace(s, acc) == statements_until_brace(
            adv(within(s, statement_of(s).1)),
            match statement_of(s).0 {
                Some(x) => acc.push(x),
                None => acc,
            },
        ),
{
}

pub proof fn lemma_until_brace_end(s: PState, acc: Seq<StmtModel>)
    requires
        cur(s).kind == TokenType::RBRACE || cur(s).kind == TokenType::EOF,
    ensures
        statements_until_brace(s, acc) == (acc, s),
{
}

pub proof fn lemma_block_step(s: PState)
    ensures
        block_of(s) == (
            BlockModel { token: cur(s), statements: statements_until_brace(adv(s), seq![]).0 },
            statements_until_brace(adv(s), seq![]).1,
        ),
{
}

pub proof fn lemma_program_step(s: PState, acc: Seq<StmtModel>)
    requires
        cur(s).kind != TokenType::EOF,
    ensures
        program_of(s, acc) == program_of(
            adv(within(s, statement_of(s).1)),
            match statement_of(s).0 {
                Some(x) => acc.push(x),
                None => acc,
            },
        ),
{
}

pub proof fn lemma_program_end(s: PState, acc: Seq<StmtModel>)
    requires
        cur(s).kind == TokenType::EOF,
    ensures
        program_of(s, acc) == (acc, s),
{
}

pub proof fn lemma_return_step(s: PState)
    ensures
        return_of(s) == (
            Some(StmtModel::Return { token: cur(s), value: expression_of(adv(s), LOWEST).0 }),
            skip_semicolon(expression_of(adv(s), LOWEST).1),
        ),
{
}

} // verus!
