//! The Pratt parser: tokens from a lexer to a syntax tree, recording
//! diagnostics and recovering with placeholders instead of stopping.

use vstd::prelude::*;
use crate::token::{Token, TokenModel, TokenType};
use crate::lexer::{lemma_lex_progress, lex_next, tokens_from, Lexer};
use crate::grammar::{
    adv, all_digits, arguments_of, block_of, conditional_of, function_of, let_of, return_of,
    expression_statement_of, lemma_block_step, lemma_program_end, lemma_program_step,
    lemma_return_step, lemma_until_brace_end, lemma_until_brace_step, cur, decimal_value, eof_tok, expect, expect_message,
    expression_of, has_infix_rule, has_prefix_rule, infix_loop, infix_step, integer_message,
    kind_name, literal_value, more_arguments, more_parameters, no_prefix_message, parameters_of,
    peek, prefix_of, program_of, recovery, statement_of, statements_until_brace, with_error,
    PState,
};
use crate::ast::{
    expr_model, exprs_model, idents_model, stmts_model, BlockModel, BlockStatement, Boolean, CallExpression,
    ExprModel, Expression, ExpressionStatement, FunctionLiteral, IFExpression, Identifier,
    IdentModel, InfixExpression, IntegerLiteral, LetStatement, PrefixExpression, Program,
    ReturnStatement, Statement, StmtModel,
};
use crate::precedence::{get_precedence, precedence, LOWEST, PREFIX};

verus! {

/// The parser's state: its lexer, the current token and one token of
/// lookahead, and the diagnostics recorded so far.
pub struct Parser {
    lexer: Lexer,
    cur_token: Token,
    peek_token: Token,
    errors: Vec<String>,
}

pub open spec fn texts(v: Seq<String>) -> Seq<Seq<char>> {
    v.map_values(|e: String| e@)
}

pub open spec fn opt_stmt_model(r: Option<Statement>) -> Option<StmtModel> {
    match r {
        Some(st) => Some(st@),
        None => None,
    }
}

pub open spec fn opt_idents_model(r: Option<Vec<Identifier>>) -> Option<Seq<IdentModel>> {
    match r {
        Some(v) => Some(idents_model(v@)),
        None => None,
    }
}

proof fn lemma_decimal_nonneg(d: Seq<char>)
    requires
        all_digits(d),
    ensures
        decimal_value(d) >= 0,
    decreases d.len(),
{
    if d.len() > 0 {
        assert(all_digits(d.drop_last()));
        lemma_decimal_nonneg(d.drop_last());
    }
}

proof fn lemma_decimal_grows(d: Seq<char>, k: int)
    requires
        all_digits(d),
        0 <= k <= d.len(),
    ensures
        decimal_value(d.subrange(0, k)) <= decimal_value(d),
    decreases d.len() - k,
{
    if k < d.len() {
        lemma_decimal_grows(d, k + 1);
        let a = d.subrange(0, k + 1);
        assert(a.drop_last() =~= d.subrange(0, k));
        assert(all_digits(d.subrange(0, k)));
        lemma_decimal_nonneg(d.subrange(0, k));
    } else {
        assert(d.subrange(0, k) =~= d);
    }
}

/// The value of a decimal literal, where it is one that fits in `i64`.
fn parse_decimal(s: &str) -> (r: Option<i64>)
    ensures
        r == literal_value(s@),
{
    let n = s.unicode_len();
    if n == 0 {
        return None;
    }
    let mut v: i64 = 0;
    let mut i: usize = 0;
    assert(s@.subrange(0, 0) =~= Seq::<char>::empty());
    while i < n
        invariant
            n == s@.len(),
            i <= n,
            all_digits(s@.subrange(0, i as int)),
            v == decimal_value(s@.subrange(0, i as int)),
        decreases n - i,
    {
        let c = s.get_char(i);
        let ghost a = s@.subrange(0, i + 1);
        assert(a.drop_last() =~= s@.subrange(0, i as int));
        if c < '0' || c > '9' {
            assert(!all_digits(s@));
            return None;
        }
        proof {
            lemma_decimal_nonneg(s@.subrange(0, i as int));
        }
        let d = (c as u32 - 48) as i64;
        if v > (i64::MAX - d) / 10 {
            assert(v * 10 + d > i64::MAX) by (nonlinear_arith)
                requires
                    v > (i64::MAX - d) / 10,
                    0 <= d <= 9,
            ;
            proof {
                if all_digits(s@) {
                    lemma_decimal_grows(s@, i + 1);
                }
            }
            return None;
        }
        assert(v * 10 + d <= i64::MAX) by (nonlinear_arith)
            requires
                v <= (i64::MAX - d) / 10,
                0 <= d <= 9,
                v >= 0,
        ;
        v = v * 10 + d;
        i = i + 1;
    }
    assert(s@.subrange(0, n as int) =~= s@);
    Some(v)
}

proof fn lemma_exprs_push(v: Seq<Expression>, x: Expression)
    ensures
        exprs_model(v.push(x)) == exprs_model(v).push(x@),
{
    reveal(expr_model);
    assert(v.push(x).drop_last() =~= v);
}

proof fn lemma_empty_models()
    ensures
        stmts_model(Seq::<Statement>::empty()) == Seq::<StmtModel>::empty(),
        exprs_model(Seq::<Expression>::empty()) == Seq::<ExprModel>::empty(),
{
    reveal(expr_model);
}

proof fn lemma_block_model(b: BlockStatement)
    ensures
        b@ == (BlockModel { token: b.token@, statements: stmts_model(b.statements@) }),
{
    reveal(expr_model);
}

proof fn lemma_let_model(l: LetStatement)
    ensures
        Statement::Let(l)@ == (StmtModel::Let { token: l.token@, name: l.name@, value: l.value@ }),
{
    reveal(expr_model);
}

proof fn lemma_return_model(x: ReturnStatement)
    ensures
        Statement::Return(x)@ == (StmtModel::Return { token: x.token@, value: x.return_value@ }),
{
    reveal(expr_model);
}

proof fn lemma_expression_statement_model(x: ExpressionStatement)
    ensures
        Statement::Expression(x)@ == (StmtModel::Expr { token: x.token@, expression: x.expression@ }),
{
    reveal(expr_model);
}

proof fn lemma_stmts_push(v: Seq<Statement>, x: Statement)
    ensures
        stmts_model(v.push(x)) == stmts_model(v).push(x@),
{
    reveal(expr_model);
    assert(v.push(x).drop_last() =~= v);
}

fn kind_text(k: TokenType) -> (r: &'static str)
    ensures
        r@ == kind_name(k),
{
    match k {
        TokenType::ILLEGAL => "ILLEGAL",
        TokenType::EOF => "EOF",
        TokenType::IDENT => "IDENT",
        TokenType::INT => "INT",
        TokenType::ASSIGN => "ASSIGN",
        TokenType::PLUS => "PLUS",
        TokenType::MINUS => "MINUS",
        TokenType::BANG => "BANG",
        TokenType::ASTERISK => "ASTERISK",
        TokenType::SLASH => "SLASH",
        TokenType::LT => "LT",
        TokenType::GT => "GT",
        TokenType::EQ => "EQ",
        TokenType::NOT_EQ => "NOT_EQ",
        TokenType::COMMA => "COMMA",
        TokenType::SEMICOLON => "SEMICOLON",
        TokenType::LPAREN => "LPAREN",
        TokenType::RPAREN => "RPAREN",
        TokenType::LBRACE => "LBRACE",
        TokenType::RBRACE => "RBRACE",
        TokenType::FUNCTION => "FUNCTION",
        TokenType::LET => "LET",
        TokenType::TRUE => "TRUE",
        TokenType::FALSE => "FALSE",
        TokenType::IF => "IF",
        TokenType::ELSE => "ELSE",
        TokenType::RETURN => "RETURN",
    }
}

impl Parser {
    /// The tokens not yet consumed, the current one first.
    pub closed spec fn stream(&self) -> Seq<TokenModel> {
        if self.cur_token.typ == TokenType::EOF {
            seq![]
        } else if self.peek_token.typ == TokenType::EOF {
            seq![self.cur_token@]
        } else {
            seq![self.cur_token@, self.peek_token@] + tokens_from(self.lexer.source(), self.lexer.pos())
        }
    }

    pub closed spec fn model(&self) -> PState {
        PState { toks: self.stream(), errors: texts(self.errors@) }
    }

    pub closed spec fn wf(&self) -> bool {
        let s = self.lexer.source();
        let p = self.lexer.pos();
        &&& self.lexer.wf()
        &&& self.cur_token.typ == TokenType::EOF ==> self.cur_token@ == eof_tok()
            && self.peek_token.typ == TokenType::EOF
        &&& self.peek_token.typ == TokenType::EOF ==> self.peek_token@ == eof_tok()
            && lex_next(s, p).0.kind == TokenType::EOF
    }

    proof fn lemma_current(&self)
        requires
            self.wf(),
        ensures
            cur(self.model()) == self.cur_token@,
            peek(self.model()) == self.peek_token@,
    {
    }

    /// Takes the lexer and reads the current token and the lookahead.
    pub fn new(lexer: Lexer) -> (r: Parser)
        requires
            lexer.wf(),
        ensures
            r.wf(),
            r.model() == (PState { toks: tokens_from(lexer.source(), lexer.pos()), errors: seq![] }),
    {
        let ghost src = lexer.source();
        let ghost start = lexer.pos();
        let mut lexer = lexer;
        proof {
            lexer.lemma_wf_bounds();
            lemma_lex_progress(src, start);
        }
        let tk1 = lexer.next_token();
        let ghost after_first = lexer.pos();
        proof {
            lemma_lex_progress(src, after_first);
        }
        let tk2 = lexer.next_token();
        proof {
            lemma_lex_progress(src, lexer.pos());
        }
        let r = Parser { lexer, cur_token: tk1, peek_token: tk2, errors: Vec::new() };
        assert(texts(r.errors@) =~= seq![]);
        let ghost after_second = r.lexer.pos();
        if r.cur_token.typ == TokenType::EOF {
            assert(tokens_from(src, start) =~= seq![]);
        } else if r.peek_token.typ == TokenType::EOF {
            assert(tokens_from(src, after_first) =~= seq![]);
            assert(tokens_from(src, start) =~= seq![r.cur_token@] + tokens_from(src, after_first));
            assert(r.stream() =~= tokens_from(src, start));
        } else {
            assert(tokens_from(src, after_first) =~= seq![r.peek_token@] + tokens_from(src, after_second));
            assert(tokens_from(src, start) =~= seq![r.cur_token@] + tokens_from(src, after_first));
            assert(r.stream() =~= tokens_from(src, start));
        }
        r
    }

    /// Moves to the next token.
    fn next_token(&mut self)
        requires
            old(self).wf(),
        ensures
            final(self).wf(),
            final(self).model() == adv(old(self).model()),
    {
        let ghost s = self.lexer.source();
        let ghost p = self.lexer.pos();
        proof {
            self.lexer.lemma_wf_bounds();
            lemma_lex_progress(s, p);
        }
        let t = self.lexer.next_token();
        proof {
            self.lexer.lemma_wf_bounds();
            lemma_lex_progress(s, self.lexer.pos());
        }
        std::mem::swap(&mut self.cur_token, &mut self.peek_token);
        self.peek_token = t;
        assert(self.model().toks =~= adv(old(self).model()).toks);
    }

    fn record(&mut self, m: String)
        requires
            old(self).wf(),
        ensures
            final(self).wf(),
            final(self).model() == with_error(old(self).model(), m@),
    {
        self.errors.push(m);
        assert(texts(self.errors@) =~= texts(old(self).errors@).push(m@));
    }

    fn no_prefix_parse_fn_error(&mut self, t: TokenType) -> (m: String)
        requires
            old(self).wf(),
        ensures
            final(self).wf(),
            m@ == no_prefix_message(t),
            final(self).model() == with_error(old(self).model(), m@),
    {
        let mut m = String::from_str("no prefix parse function for ");
        m.append(kind_text(t));
        self.record(m.clone());
        m
    }

    fn peek_error(&mut self, t: TokenType) -> (m: String)
        requires
            old(self).wf(),
        ensures
            final(self).wf(),
            m@ == expect_message(t, peek(old(self).model()).kind),
            final(self).model() == with_error(old(self).model(), m@),
    {
        proof {
            self.lemma_current();
        }
        let mut m = String::from_str("expected next token to be ");
        m.append(kind_text(t));
        m.append(", got ");
        m.append(kind_text(self.peek_token.typ));
        m.append(" instead");
        self.record(m.clone());
        m
    }

    fn cur_token_is(&self, t: TokenType) -> (r: bool)
        requires
            self.wf(),
        ensures
            r == (cur(self.model()).kind == t),
    {
        proof {
            self.lemma_current();
        }
        self.cur_token.typ == t
    }

    fn peek_token_is(&self, t: TokenType) -> (r: bool)
        requires
            self.wf(),
        ensures
            r == (peek(self.model()).kind == t),
    {
        proof {
            self.lemma_current();
        }
        self.peek_token.typ == t
    }

    fn cur_precedence(&self) -> (r: i8)
        requires
            self.wf(),
        ensures
            r == precedence(cur(self.model()).kind),
    {
        proof {
            self.lemma_current();
        }
        get_precedence(self.cur_token.typ)
    }

    fn peek_precedence(&self) -> (r: i8)
        requires
            self.wf(),
        ensures
            r == precedence(peek(self.model()).kind),
    {
        proof {
            self.lemma_current();
        }
        get_precedence(self.peek_token.typ)
    }

    /// The placeholder for the diagnostic recorded last.
    fn tmp_value(&self) -> (r: Expression)
        requires
            self.model().errors.len() > 0,
        ensures
            r@ == recovery(self.model()),
    {
        let m = self.errors[self.errors.len() - 1].clone();
        let r = Expression::Error(m);
        assert(r@ == recovery(self.model())) by {
            reveal(expr_model);
        }
        r
    }

    /// Moves on if the lookahead has kind `t`; records a diagnostic if not.
    fn expect_peek(&mut self, t: TokenType) -> (r: bool)
        requires
            old(self).wf(),
        ensures
            final(self).wf(),
            (r, final(self).model()) == expect(old(self).model(), t),
            final(self).model().toks.len() <= old(self).model().toks.len(),
            !r ==> final(self).model().errors.len() > 0,
    {
        if self.peek_token_is(t) {
            self.next_token();
            true
        } else {
            self.peek_error(t);
            false
        }
    }

    fn parse_identifier(&self) -> (r: Expression)
        requires
            self.wf(),
            cur(self.model()).kind == TokenType::IDENT,
        ensures
            (r@, self.model()) == prefix_of(self.model()),
    {
        proof {
            self.lemma_current();
        }
        let r = Expression::Identifier(
            Identifier { token: self.cur_token.duplicate(), value: self.cur_token.literal.clone() },
        );
        assert(r@ == ExprModel::Ident(IdentModel { token: self.cur_token@, value: self.cur_token.literal@ }))
            by {
            reveal(expr_model);
        }
        r
    }

    fn parse_boolean(&self) -> (r: Expression)
        requires
            self.wf(),
            cur(self.model()).kind == TokenType::TRUE || cur(self.model()).kind == TokenType::FALSE,
        ensures
            (r@, self.model()) == prefix_of(self.model()),
    {
        proof {
            self.lemma_current();
        }
        let value = self.cur_token_is(TokenType::TRUE);
        let r = Expression::Boolean(Boolean { token: self.cur_token.duplicate(), value });
        assert(r@ == ExprModel::Bool { token: self.cur_token@, value }) by {
            reveal(expr_model);
        }
        r
    }

    fn parse_integer_literal(&mut self) -> (r: Expression)
        requires
            old(self).wf(),
            cur(old(self).model()).kind == TokenType::INT,
        ensures
            final(self).wf(),
            (r@, final(self).model()) == prefix_of(old(self).model()),
            final(self).model().toks.len() <= old(self).model().toks.len(),
    {
        proof {
            self.lemma_current();
        }
        let token = self.cur_token.duplicate();
        match parse_decimal(token.literal.as_str()) {
            Some(v) => {
                let ghost t = token@;
                let r = Expression::IntegerLiteral(IntegerLiteral { token, value: v });
                assert(r@ == ExprModel::Int { token: t, value: v }) by {
                    reveal(expr_model);
                }
                r
            },
            None => {
                let mut m = String::from_str("could not parse ");
                m.append(token.literal.as_str());
                m.append(" as integer");
                assert(m@ == integer_message(token.literal@));
                self.record(m.clone());
                let r = Expression::Error(m);
                assert(r@ == ExprModel::Error { message: m@ }) by {
                    reveal(expr_model);
                }
                r
            },
        }
    }

    fn parse_prefix_expression(&mut self) -> (r: Expression)
        requires
            old(self).wf(),
            cur(old(self).model()).kind == TokenType::BANG || cur(old(self).model()).kind == TokenType::MINUS,
        ensures
            final(self).wf(),
            (r@, final(self).model()) == prefix_of(old(self).model()),
            final(self).model().toks.len() <= old(self).model().toks.len(),
        decreases old(self).model().toks.len(), 4int,
    {
        proof {
            self.lemma_current();
        }
        let token = self.cur_token.duplicate();
        let operator = self.cur_token.literal.clone();
        self.next_token();
        let right = self.parse_expression(PREFIX);
        let ghost t = token@;
        let ghost rm = right@;
        let r = Expression::Prefix(Box::new(PrefixExpression { token, operator, right }));
        assert(r@ == ExprModel::Prefix { token: t, operator: t.literal, right: Box::new(rm) }) by {
            reveal(expr_model);
        }
        r
    }

    fn parse_grouped_expression(&mut self) -> (r: Expression)
        requires
            old(self).wf(),
            cur(old(self).model()).kind == TokenType::LPAREN,
        ensures
            final(self).wf(),
            (r@, final(self).model()) == prefix_of(old(self).model()),
            final(self).model().toks.len() <= old(self).model().toks.len(),
        decreases old(self).model().toks.len(), 4int,
    {
        self.next_token();
        let exp = self.parse_expression(LOWEST);
        if self.expect_peek(TokenType::RPAREN) {
            exp
        } else {
            self.tmp_value()
        }
    }

    fn parse_if_expression(&mut self) -> (r: Expression)
        requires
            old(self).wf(),
            cur(old(self).model()).kind == TokenType::IF,
        ensures
            final(self).wf(),
            (r@, final(self).model()) == conditional_of(old(self).model()),
            final(self).model().toks.len() <= old(self).model().toks.len(),
        decreases old(self).model().toks.len(), 4int,
    {
        proof {
            self.lemma_current();
        }
        let token = self.cur_token.duplicate();
        if !self.expect_peek(TokenType::LPAREN) {
            return self.tmp_value();
        }
        self.next_token();
        let condition = self.parse_expression(LOWEST);
        if !self.expect_peek(TokenType::RPAREN) {
            return self.tmp_value();
        }
        if !self.expect_peek(TokenType::LBRACE) {
            return self.tmp_value();
        }
        let consequence = self.parse_block_statement();
        let ghost t = token@;
        let ghost cm = condition@;
        let ghost km = consequence@;
        if self.peek_token_is(TokenType::ELSE) {
            self.next_token();
            if !self.expect_peek(TokenType::LBRACE) {
                return self.tmp_value();
            }
            let alternative = self.parse_block_statement();
            let ghost am = alternative@;
            let r = Expression::If(
                Box::new(IFExpression { token, condition, consequence, alternative: Some(alternative) }),
            );
            assert(r@ == ExprModel::If {
                token: t,
                condition: Box::new(cm),
                consequence: km,
                alternative: Some(am),
            }) by {
                reveal(expr_model);
            }
            r
        } else {
            let r = Expression::If(
                Box::new(IFExpression { token, condition, consequence, alternative: None }),
            );
            assert(r@ == ExprModel::If {
                token: t,
                condition: Box::new(cm),
                consequence: km,
                alternative: None,
            }) by {
                reveal(expr_model);
            }
            r
        }
    }

    fn parse_function_literal(&mut self) -> (r: Expression)
        requires
            old(self).wf(),
            cur(old(self).model()).kind == TokenType::FUNCTION,
        ensures
            final(self).wf(),
            (r@, final(self).model()) == function_of(old(self).model()),
            final(self).model().toks.len() <= old(self).model().toks.len(),
        decreases old(self).model().toks.len(), 4int,
    {
        proof {
            self.lemma_current();
        }
        let token = self.cur_token.duplicate();
        if !self.expect_peek(TokenType::LPAREN) {
            return self.tmp_value();
        }
        let params = match self.parse_function_params() {
            Some(p) => p,
            None => {
                return self.tmp_value();
            },
        };
        if !self.expect_peek(TokenType::LBRACE) {
            return self.tmp_value();
        }
        let body = self.parse_block_statement();
        let ghost t = token@;
        let ghost pm = idents_model(params@);
        let ghost bm = body@;
        let r = Expression::Function(Box::new(FunctionLiteral { token, params, body }));
        assert(r@ == ExprModel::Function { token: t, params: pm, body: bm }) by {
            reveal(expr_model);
        }
        r
    }

    fn parse_function_params(&mut self) -> (r: Option<Vec<Identifier>>)
        requires
            old(self).wf(),
        ensures
            final(self).wf(),
            (opt_idents_model(r), final(self).model()) == parameters_of(old(self).model()),
            final(self).model().toks.len() <= old(self).model().toks.len(),
            r is None ==> final(self).model().errors.len() > 0,
    {
        let mut ans: Vec<Identifier> = Vec::new();
        if self.peek_token_is(TokenType::RPAREN) {
            self.next_token();
            assert(idents_model(ans@) =~= seq![]);
            return Some(ans);
        }
        self.next_token();
        proof {
            self.lemma_current();
        }
        ans.push(Identifier { token: self.cur_token.duplicate(), value: self.cur_token.literal.clone() });
        assert(idents_model(ans@) =~= seq![IdentModel { token: cur(self.model()), value: cur(self.model()).literal }]);
        while self.peek_token_is(TokenType::COMMA)
            invariant
                self.wf(),
                self.model().toks.len() <= old(self).model().toks.len(),
                more_parameters(self.model(), idents_model(ans@)) == parameters_of(old(self).model()),
            decreases self.model().toks.len(),
        {
            self.next_token();
            self.next_token();
            proof {
                self.lemma_current();
            }
            let ghost prev = ans@;
            ans.push(Identifier { token: self.cur_token.duplicate(), value: self.cur_token.literal.clone() });
            assert(idents_model(ans@) =~= idents_model(prev).push(
                IdentModel { token: cur(self.model()), value: cur(self.model()).literal },
            ));
        }
        if !self.expect_peek(TokenType::RPAREN) {
            return None;
        }
        Some(ans)
    }

    #[verifier::rlimit(40)]
    fn parse_block_statement(&mut self) -> (r: BlockStatement)
        requires
            old(self).wf(),
        ensures
            final(self).wf(),
            (r@, final(self).model()) == block_of(old(self).model()),
            final(self).model().toks.len() <= old(self).model().toks.len(),
        decreases old(self).model().toks.len(), 9int,
    {
        proof {
            self.lemma_current();
        }
        let token = self.cur_token.duplicate();
        let mut stmts: Vec<Statement> = Vec::new();
        proof {
            lemma_block_step(old(self).model());
        }
        self.next_token();
        proof {
            lemma_empty_models();
        }
        assert(stmts@ =~= Seq::<Statement>::empty());
        while !self.cur_token_is(TokenType::RBRACE) && !self.cur_token_is(TokenType::EOF)
            invariant
                self.wf(),
                self.model().toks.len() <= old(self).model().toks.len(),
                statements_until_brace(self.model(), stmts_model(stmts@)) == statements_until_brace(
                    adv(old(self).model()),
                    seq![],
                ),
            decreases self.model().toks.len(),
        {
            let ghost s0 = self.model();
            proof {
                self.lemma_current();
                lemma_until_brace_step(s0, stmts_model(stmts@));
            }
            let st = self.parse_statement();
            let ghost prev = stmts@;
            match st {
                Some(x) => {
                    proof {
                        lemma_stmts_push(prev, x);
                    }
                    stmts.push(x);
                },
                None => {},
            }
            self.next_token();
        }
        proof {
            self.lemma_current();
            lemma_until_brace_end(self.model(), stmts_model(stmts@));
        }
        let r = BlockStatement { token, statements: stmts };
        proof {
            lemma_block_model(r);
        }
        r
    }

    fn parse_statement(&mut self) -> (r: Option<Statement>)
        requires
            old(self).wf(),
        ensures
            final(self).wf(),
            (opt_stmt_model(r), final(self).model()) == statement_of(old(self).model()),
            final(self).model().toks.len() <= old(self).model().toks.len(),
        decreases old(self).model().toks.len(), 7int,
    {
        proof {
            self.lemma_current();
        }
        match self.cur_token.typ {
            TokenType::LET => self.parse_let_statement(),
            TokenType::RETURN => self.parse_return_statement(),
            _ => self.parse_expression_statement(),
        }
    }

    fn parse_let_statement(&mut self) -> (r: Option<Statement>)
        requires
            old(self).wf(),
            cur(old(self).model()).kind == TokenType::LET,
        ensures
            final(self).wf(),
            (opt_stmt_model(r), final(self).model()) == let_of(old(self).model()),
            final(self).model().toks.len() <= old(self).model().toks.len(),
        decreases old(self).model().toks.len(), 6int,
    {
        proof {
            self.lemma_current();
        }
        let token = self.cur_token.duplicate();
        if !self.expect_peek(TokenType::IDENT) {
            return None;
        }
        proof {
            self.lemma_current();
        }
        let name = Identifier { token: self.cur_token.duplicate(), value: self.cur_token.literal.clone() };
        if !self.expect_peek(TokenType::ASSIGN) {
            return None;
        }
        self.next_token();
        let value = self.parse_expression(LOWEST);
        if self.peek_token_is(TokenType::SEMICOLON) {
            self.next_token();
        }
        let l = LetStatement { token, name, value };
        proof {
            lemma_let_model(l);
        }
        Some(Statement::Let(l))
    }

    #[verifier::rlimit(40)]
    fn parse_return_statement(&mut self) -> (r: Option<Statement>)
        requires
            old(self).wf(),
            cur(old(self).model()).kind == TokenType::RETURN,
        ensures
            final(self).wf(),
            (opt_stmt_model(r), final(self).model()) == return_of(old(self).model()),
            final(self).model().toks.len() <= old(self).model().toks.len(),
        decreases old(self).model().toks.len(), 6int,
    {
        proof {
            self.lemma_current();
        }
        let ghost s0 = self.model();
        proof {
            lemma_return_step(s0);
        }
        let token = self.cur_token.duplicate();
        self.next_token();
        let value = self.parse_expression(LOWEST);
        if self.peek_token_is(TokenType::SEMICOLON) {
            self.next_token();
        }
        let x = ReturnStatement { token, return_value: value };
        proof {
            lemma_return_model(x);
        }
        Some(Statement::Return(x))
    }

    fn parse_expression_statement(&mut self) -> (r: Option<Statement>)
        requires
            old(self).wf(),
            cur(old(self).model()).kind != TokenType::LET,
            cur(old(self).model()).kind != TokenType::RETURN,
        ensures
            final(self).wf(),
            (opt_stmt_model(r), final(self).model()) == expression_statement_of(old(self).model()),
            final(self).model().toks.len() <= old(self).model().toks.len(),
        decreases old(self).model().toks.len(), 6int,
    {
        proof {
            self.lemma_current();
        }
        let token = self.cur_token.duplicate();
        let expression = self.parse_expression(LOWEST);
        if self.peek_token_is(TokenType::SEMICOLON) {
            self.next_token();
        }
        let x = ExpressionStatement { token, expression };
        proof {
            lemma_expression_statement_model(x);
        }
        Some(Statement::Expression(x))
    }

    fn parse_expression(&mut self, precedence: i8) -> (r: Expression)
        requires
            old(self).wf(),
        ensures
            final(self).wf(),
            (r@, final(self).model()) == expression_of(old(self).model(), precedence),
            final(self).model().toks.len() <= old(self).model().toks.len(),
        decreases old(self).model().toks.len(), 5int,
    {
        proof {
            self.lemma_current();
        }
        let k = self.cur_token.typ;
        let mut left = match k {
            TokenType::IDENT => self.parse_identifier(),
            TokenType::INT => self.parse_integer_literal(),
            TokenType::BANG | TokenType::MINUS => self.parse_prefix_expression(),
            TokenType::TRUE | TokenType::FALSE => self.parse_boolean(),
            TokenType::LPAREN => self.parse_grouped_expression(),
            TokenType::IF => self.parse_if_expression(),
            TokenType::FUNCTION => self.parse_function_literal(),
            _ => {
                let m = self.no_prefix_parse_fn_error(k);
                let r = Expression::Error(m);
                assert(r@ == ExprModel::Error { message: m@ }) by {
                    reveal(expr_model);
                }
                return r;
            },
        };
        proof {
            self.lemma_current();
        }
        while self.peek_token.typ != TokenType::SEMICOLON && precedence < self.peek_precedence()
            && has_infix(self.peek_token.typ)
            invariant
                self.wf(),
                self.model().toks.len() <= old(self).model().toks.len(),
                infix_loop(self.model(), precedence, left@) == expression_of(old(self).model(), precedence),
            decreases self.model().toks.len(),
        {
            proof {
                self.lemma_current();
            }
            let is_call = self.peek_token.typ == TokenType::LPAREN;
            self.next_token();
            if is_call {
                left = self.parse_call_expression(left);
            } else {
                left = self.parse_infix_expression(left);
            }
            proof {
                self.lemma_current();
            }
        }
        left
    }

    fn parse_infix_expression(&mut self, left: Expression) -> (r: Expression)
        requires
            old(self).wf(),
            has_infix_rule(cur(old(self).model()).kind),
            cur(old(self).model()).kind != TokenType::LPAREN,
        ensures
            final(self).wf(),
            (r@, final(self).model()) == infix_step(old(self).model(), left@),
            final(self).model().toks.len() <= old(self).model().toks.len(),
        decreases old(self).model().toks.len(), 7int,
    {
        proof {
            self.lemma_current();
        }
        let token = self.cur_token.duplicate();
        let operator = self.cur_token.literal.clone();
        let p = self.cur_precedence();
        self.next_token();
        let right = self.parse_expression(p);
        let ghost t = token@;
        let ghost lm = left@;
        let ghost rm = right@;
        let r = Expression::Infix(Box::new(InfixExpression { token, left, operator, right }));
        assert(r@ == ExprModel::Infix {
            token: t,
            left: Box::new(lm),
            operator: t.literal,
            right: Box::new(rm),
        }) by {
            reveal(expr_model);
        }
        r
    }

    fn parse_call_expression(&mut self, func: Expression) -> (r: Expression)
        requires
            old(self).wf(),
            cur(old(self).model()).kind == TokenType::LPAREN,
        ensures
            final(self).wf(),
            (r@, final(self).model()) == infix_step(old(self).model(), func@),
            final(self).model().toks.len() <= old(self).model().toks.len(),
        decreases old(self).model().toks.len(), 7int,
    {
        proof {
            self.lemma_current();
        }
        let token = self.cur_token.duplicate();
        let args = self.parse_call_args();
        let ghost t = token@;
        let ghost fm = func@;
        let ghost am = exprs_model(args@);
        let r = Expression::Call(Box::new(CallExpression { token, func, args }));
        assert(r@ == ExprModel::Call { token: t, function: Box::new(fm), arguments: am }) by {
            reveal(expr_model);
        }
        r
    }

    fn parse_call_args(&mut self) -> (r: Vec<Expression>)
        requires
            old(self).wf(),
        ensures
            final(self).wf(),
            (exprs_model(r@), final(self).model()) == arguments_of(old(self).model()),
            final(self).model().toks.len() <= old(self).model().toks.len(),
        decreases old(self).model().toks.len(), 6int,
    {
        let mut ans: Vec<Expression> = Vec::new();
        proof {
            lemma_empty_models();
        }
        assert(ans@ =~= Seq::<Expression>::empty());
        if self.peek_token_is(TokenType::RPAREN) {
            self.next_token();
            return ans;
        }
        self.next_token();
        let exp = self.parse_expression(LOWEST);
        proof {
            lemma_exprs_push(ans@, exp);
        }
        ans.push(exp);
        while self.peek_token_is(TokenType::COMMA)
            invariant
                self.wf(),
                self.model().toks.len() <= old(self).model().toks.len(),
                more_arguments(self.model(), exprs_model(ans@)) == arguments_of(old(self).model()),
            decreases self.model().toks.len(),
        {
            self.next_token();
            self.next_token();
            let exp = self.parse_expression(LOWEST);
            proof {
                lemma_exprs_push(ans@, exp);
            }
            ans.push(exp);
        }
        self.expect_peek(TokenType::RPAREN);
        ans
    }

    /// Parses statements up to the end of input.
    #[verifier::rlimit(40)]
    pub fn parse_program(&mut self) -> (r: Program)
        requires
            old(self).wf(),
        ensures
            final(self).wf(),
            r@ == program_of(old(self).model(), seq![]).0,
            final(self).model() == program_of(old(self).model(), seq![]).1,
            cur(final(self).model()).kind == TokenType::EOF,
    {
        let mut program = Program::new();
        proof {
            lemma_empty_models();
        }
        assert(program.statements@ =~= Seq::<Statement>::empty());
        while !self.cur_token_is(TokenType::EOF)
            invariant
                self.wf(),
                program_of(self.model(), program@) == program_of(old(self).model(), seq![]),
            decreases self.model().toks.len(),
        {
            let ghost s0 = self.model();
            proof {
                self.lemma_current();
                lemma_program_step(s0, program@);
            }
            let st = self.parse_statement();
            let ghost prev = program.statements@;
            match st {
                Some(x) => {
                    proof {
                        lemma_stmts_push(prev, x);
                    }
                    program.statements.push(x);
                },
                None => {},
            }
            self.next_token();
        }
        proof {
            self.lemma_current();
            lemma_program_end(self.model(), program@);
        }
        program
    }

    /// The diagnostics recorded so far, in order.
    pub fn errors(&self) -> (r: &Vec<String>)
        ensures
            texts(r@) == self.model().errors,
    {
        &self.errors
    }

    /// Whether no diagnostic has been recorded.
    pub fn check_errors(&self) -> (r: bool)
        ensures
            r == (self.model().errors.len() == 0),
    {
        self.errors.len() == 0
    }
}

fn has_infix(k: TokenType) -> (r: bool)
    ensures
        r == has_infix_rule(k),
{
    match k {
        TokenType::PLUS | TokenType::MINUS | TokenType::SLASH | TokenType::ASTERISK | TokenType::EQ
        | TokenType::NOT_EQ | TokenType::LT | TokenType::GT | TokenType::LPAREN => true,
        _ => false,
    }
}

} // verus!
