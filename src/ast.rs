//! The syntax tree: closed sums of statements and expressions, their
//! mathematical models, and the canonical rendering of each node as text.

use vstd::prelude::*;
use crate::token::{Token, TokenModel};

verus! {

// ---------------------------------------------------------------------------
// Models
// ---------------------------------------------------------------------------

pub struct IdentModel {
    pub token: TokenModel,
    pub value: Seq<char>,
}

pub enum ExprModel {
    Ident(IdentModel),
    Int { token: TokenModel, value: i64 },
    Bool { token: TokenModel, value: bool },
    Prefix { token: TokenModel, operator: Seq<char>, right: Box<ExprModel> },
    Infix { token: TokenModel, left: Box<ExprModel>, operator: Seq<char>, right: Box<ExprModel> },
    If {
        token: TokenModel,
        condition: Box<ExprModel>,
        consequence: BlockModel,
        alternative: Option<BlockModel>,
    },
    Function { token: TokenModel, params: Seq<IdentModel>, body: BlockModel },
    Call { token: TokenModel, function: Box<ExprModel>, arguments: Seq<ExprModel> },
    /// A recovery point, carrying the diagnostic recorded there.
    Error { message: Seq<char> },
}

pub struct BlockModel {
    pub token: TokenModel,
    pub statements: Seq<StmtModel>,
}

pub enum StmtModel {
    Let { token: TokenModel, name: IdentModel, value: ExprModel },
    Return { token: TokenModel, value: ExprModel },
    Expr { token: TokenModel, expression: ExprModel },
}

// ---------------------------------------------------------------------------
// Parameter lists as text
// ---------------------------------------------------------------------------

/// The parameters' names, separated by commas.
pub open spec fn params_text(p: Seq<IdentModel>) -> Seq<char>
    decreases p.len(),
{
    if p.len() == 0 {
        Seq::empty()
    } else if p.len() == 1 {
        p[0].value
    } else {
        params_text(p.drop_last()) + seq![','] + p.last().value
    }
}

// ---------------------------------------------------------------------------
// Nodes
// ---------------------------------------------------------------------------

pub struct Identifier {
    pub token: Token,
    pub value: String,
}

pub struct Boolean {
    pub token: Token,
    pub value: bool,
}

pub struct IntegerLiteral {
    pub token: Token,
    pub value: i64,
}

pub struct PrefixExpression {
    pub token: Token,
    pub operator: String,
    pub right: Expression,
}

pub struct InfixExpression {
    pub token: Token,
    pub left: Expression,
    pub operator: String,
    pub right: Expression,
}

/// A conditional; `alternative` is `None` when there is no `else`.
pub struct IFExpression {
    pub token: Token,
    pub condition: Expression,
    pub consequence: BlockStatement,
    pub alternative: Option<BlockStatement>,
}

pub struct BlockStatement {
    pub token: Token,
    pub statements: Vec<Statement>,
}

pub struct FunctionLiteral {
    pub token: Token,
    pub params: Vec<Identifier>,
    pub body: BlockStatement,
}

pub struct CallExpression {
    pub token: Token,
    pub func: Expression,
    pub args: Vec<Expression>,
}

pub enum Expression {
    Identifier(Identifier),
    IntegerLiteral(IntegerLiteral),
    Boolean(Boolean),
    Prefix(Box<PrefixExpression>),
    Infix(Box<InfixExpression>),
    If(Box<IFExpression>),
    Function(Box<FunctionLiteral>),
    Call(Box<CallExpression>),
    /// A recovery point, carrying the diagnostic recorded there.
    Error(String),
}

pub struct LetStatement {
    pub token: Token,
    pub name: Identifier,
    pub value: Expression,
}

pub struct ReturnStatement {
    pub token: Token,
    pub return_value: Expression,
}

pub struct ExpressionStatement {
    pub token: Token,
    pub expression: Expression,
}

pub enum Statement {
    Let(LetStatement),
    Return(ReturnStatement),
    Expression(ExpressionStatement),
}

/// A parsed source text: its statements in order.
pub struct Program {
    pub statements: Vec<Statement>,
}

// ---------------------------------------------------------------------------
// From nodes to models
// ---------------------------------------------------------------------------

pub open spec fn ident_model(i: Identifier) -> IdentModel {
    IdentModel { token: i.token@, value: i.value@ }
}

#[verifier::opaque]
pub open spec fn expr_model(e: Expression) -> ExprModel
    decreases e,
{
    match e {
        Expression::Identifier(i) => ExprModel::Ident(ident_model(i)),
        Expression::IntegerLiteral(i) => ExprModel::Int { token: i.token@, value: i.value },
        Expression::Boolean(b) => ExprModel::Bool { token: b.token@, value: b.value },
        Expression::Prefix(p) => ExprModel::Prefix {
            token: p.token@,
            operator: p.operator@,
            right: Box::new(expr_model(p.right)),
        },
        Expression::Infix(p) => ExprModel::Infix {
            token: p.token@,
            left: Box::new(expr_model(p.left)),
            operator: p.operator@,
            right: Box::new(expr_model(p.right)),
        },
        Expression::If(f) => ExprModel::If {
            token: f.token@,
            condition: Box::new(expr_model(f.condition)),
            consequence: block_model(f.consequence),
            alternative: match f.alternative {
                Some(a) => Some(block_model(a)),
                None => None,
            },
        },
        Expression::Function(f) => ExprModel::Function {
            token: f.token@,
            params: idents_model(f.params@),
            body: block_model(f.body),
        },
        Expression::Call(c) => ExprModel::Call {
            token: c.token@,
            function: Box::new(expr_model(c.func)),
            arguments: exprs_model(c.args@),
        },
        Expression::Error(m) => ExprModel::Error { message: m@ },
    }
}

pub open spec fn idents_model(v: Seq<Identifier>) -> Seq<IdentModel> {
    v.map_values(|i: Identifier| ident_model(i))
}

pub open spec fn exprs_model(v: Seq<Expression>) -> Seq<ExprModel>
    decreases v,
{
    if v.len() == 0 {
        Seq::empty()
    } else {
        exprs_model(v.drop_last()).push(expr_model(v.last()))
    }
}

pub open spec fn stmt_model(s: Statement) -> StmtModel
    decreases s,
{
    match s {
        Statement::Let(l) => StmtModel::Let {
            token: l.token@,
            name: ident_model(l.name),
            value: expr_model(l.value),
        },
        Statement::Return(r) => StmtModel::Return { token: r.token@, value: expr_model(r.return_value) },
        Statement::Expression(x) => StmtModel::Expr {
            token: x.token@,
            expression: expr_model(x.expression),
        },
    }
}

pub open spec fn stmts_model(v: Seq<Statement>) -> Seq<StmtModel>
    decreases v,
{
    if v.len() == 0 {
        Seq::empty()
    } else {
        stmts_model(v.drop_last()).push(stmt_model(v.last()))
    }
}

pub open spec fn block_model(b: BlockStatement) -> BlockModel
    decreases b,
{
    BlockModel { token: b.token@, statements: stmts_model(b.statements@) }
}

impl View for Identifier {
    type V = IdentModel;

    open spec fn view(&self) -> IdentModel {
        ident_model(*self)
    }
}

impl View for Expression {
    type V = ExprModel;

    open spec fn view(&self) -> ExprModel {
        expr_model(*self)
    }
}

impl View for Statement {
    type V = StmtModel;

    open spec fn view(&self) -> StmtModel {
        stmt_model(*self)
    }
}

impl View for BlockStatement {
    type V = BlockModel;

    open spec fn view(&self) -> BlockModel {
        block_model(*self)
    }
}

impl View for Program {
    type V = Seq<StmtModel>;

    open spec fn view(&self) -> Seq<StmtModel> {
        stmts_model(self.statements@)
    }
}


// ---------------------------------------------------------------------------
// Construction and access
// ---------------------------------------------------------------------------

impl Program {
    pub fn new() -> (r: Program)
        ensures
            r.statements@.len() == 0,
    {
        Program { statements: Vec::new() }
    }

    pub fn get_statements_len(&self) -> (r: usize)
        ensures
            r == self.statements@.len(),
    {
        self.statements.len()
    }

    pub fn get_statement(&self, index: usize) -> (r: &Statement)
        requires
            index < self.statements@.len(),
        ensures
            *r == self.statements@[index as int],
    {
        &self.statements[index]
    }

    /// The statement at `index`, where it is a `let` statement.
    pub fn get_let_statement(&self, index: usize) -> (r: Option<&LetStatement>)
        ensures
            match r {
                Some(l) => index < self.statements@.len() && self.statements@[index as int] == Statement::Let(*l),
                None => index >= self.statements@.len() || !(self.statements@[index as int] is Let),
            },
    {
        if index >= self.statements.len() {
            return None;
        }
        match &self.statements[index] {
            Statement::Let(l) => Some(l),
            _ => None,
        }
    }
}

impl Identifier {
    pub fn new(token: Token, value: String) -> (r: Identifier)
        ensures
            r.token == token,
            r.value == value,
    {
        Identifier { token, value }
    }
}

impl Boolean {
    pub fn new(token: Token, value: bool) -> (r: Boolean)
        ensures
            r.token == token,
            r.value == value,
    {
        Boolean { token, value }
    }
}

impl IntegerLiteral {
    pub fn new(token: Token, value: i64) -> (r: IntegerLiteral)
        ensures
            r.token == token,
            r.value == value,
    {
        IntegerLiteral { token, value }
    }
}

impl LetStatement {
    pub fn new(token: Token, name: Identifier, value: Expression) -> (r: LetStatement)
        ensures
            r.token == token,
            r.name == name,
            r.value == value,
    {
        LetStatement { token, name, value }
    }
}

impl ReturnStatement {
    pub fn new(token: Token, return_value: Expression) -> (r: ReturnStatement)
        ensures
            r.token == token,
            r.return_value == return_value,
    {
        ReturnStatement { token, return_value }
    }
}

impl ExpressionStatement {
    pub fn new(token: Token, expression: Expression) -> (r: ExpressionStatement)
        ensures
            r.token == token,
            r.expression == expression,
    {
        ExpressionStatement { token, expression }
    }
}

impl PrefixExpression {
    pub fn new(token: Token, operator: String, right: Expression) -> (r: PrefixExpression)
        ensures
            r.token == token,
            r.operator == operator,
            r.right == right,
    {
        PrefixExpression { token, operator, right }
    }
}

impl InfixExpression {
    pub fn new(token: Token, left: Expression, operator: String, right: Expression) -> (r: InfixExpression)
        ensures
            r.token == token,
            r.left == left,
            r.operator == operator,
            r.right == right,
    {
        InfixExpression { token, left, operator, right }
    }
}

impl IFExpression {
    pub fn new(
        token: Token,
        condition: Expression,
        consequence: BlockStatement,
        alternative: Option<BlockStatement>,
    ) -> (r: IFExpression)
        ensures
            r.token == token,
            r.condition == condition,
            r.consequence == consequence,
            r.alternative == alternative,
    {
        IFExpression { token, condition, consequence, alternative }
    }
}

impl BlockStatement {
    pub fn new(token: Token, statements: Vec<Statement>) -> (r: BlockStatement)
        ensures
            r.token == token,
            r.statements == statements,
    {
        BlockStatement { token, statements }
    }
}

impl FunctionLiteral {
    pub fn new(token: Token, params: Vec<Identifier>, body: BlockStatement) -> (r: FunctionLiteral)
        ensures
            r.token == token,
            r.params == params,
            r.body == body,
    {
        FunctionLiteral { token, params, body }
    }
}

impl CallExpression {
    pub fn new(token: Token, func: Expression, args: Vec<Expression>) -> (r: CallExpression)
        ensures
            r.token == token,
            r.func == func,
            r.args == args,
    {
        CallExpression { token, func, args }
    }
}

// ---------------------------------------------------------------------------
// Rendering
// ---------------------------------------------------------------------------

/// The canonical text of an expression node.
pub open spec fn text_of(e: Expression) -> Seq<char>
    decreases e,
{
    match e {
        Expression::Identifier(i) => i.value@,
        Expression::IntegerLiteral(i) => i.token.literal@,
        Expression::Boolean(b) => b.token.literal@,
        Expression::Prefix(p) => seq!['('] + p.operator@ + text_of(p.right) + seq![')'],
        Expression::Infix(p) => seq!['('] + text_of(p.left) + seq![' '] + p.operator@ + seq![' ']
            + text_of(p.right) + seq![')'],
        Expression::If(f) => seq!['i', 'f'] + text_of(f.condition) + seq![' '] + stmts_text_of(
            f.consequence.statements@,
        ) + match f.alternative {
            Some(a) => seq![' ', 'e', 'l', 's', 'e', ' '] + stmts_text_of(a.statements@),
            None => Seq::empty(),
        },
        Expression::Function(f) => f.token.literal@ + seq!['('] + params_text(idents_model(f.params@))
            + seq![')'] + stmts_text_of(f.body.statements@),
        Expression::Call(c) => text_of(c.func) + seq!['('] + args_text_of(c.args@) + seq![')'],
        Expression::Error(_) => Seq::empty(),
    }
}

pub open spec fn args_text_of(a: Seq<Expression>) -> Seq<char>
    decreases a,
{
    if a.len() == 0 {
        Seq::empty()
    } else if a.len() == 1 {
        text_of(a[0])
    } else {
        args_text_of(a.drop_last()) + seq![','] + text_of(a.last())
    }
}

pub open spec fn stmt_text_of(s: Statement) -> Seq<char>
    decreases s,
{
    match s {
        Statement::Let(l) => l.token.literal@ + seq![' '] + l.name.value@ + seq![' ', '=', ' '] + text_of(
            l.value,
        ) + seq![';'],
        Statement::Return(r) => r.token.literal@ + seq![' '] + text_of(r.return_value) + seq![';'],
        Statement::Expression(x) => text_of(x.expression),
    }
}

pub open spec fn stmts_text_of(s: Seq<Statement>) -> Seq<char>
    decreases s,
{
    if s.len() == 0 {
        Seq::empty()
    } else {
        stmts_text_of(s.drop_last()) + stmt_text_of(s.last())
    }
}

proof fn lemma_punctuation_text()
    ensures
        "("@ == seq!['('],
        ")"@ == seq![')'],
        " "@ == seq![' '],
        ","@ == seq![','],
        ";"@ == seq![';'],
        " = "@ == seq![' ', '=', ' '],
        "if"@ == seq!['i', 'f'],
        " else "@ == seq![' ', 'e', 'l', 's', 'e', ' '],
{
    reveal_strlit("(");
    reveal_strlit(")");
    reveal_strlit(" ");
    reveal_strlit(",");
    reveal_strlit(";");
    reveal_strlit(" = ");
    reveal_strlit("if");
    reveal_strlit(" else ");
    assert("("@ =~= seq!['(']);
    assert(")"@ =~= seq![')']);
    assert(" "@ =~= seq![' ']);
    assert(","@ =~= seq![',']);
    assert(";"@ =~= seq![';']);
    assert(" = "@ =~= seq![' ', '=', ' ']);
    assert("if"@ =~= seq!['i', 'f']);
    assert(" else "@ =~= seq![' ', 'e', 'l', 's', 'e', ' ']);
}

fn expression_text(e: &Expression) -> (r: String)
    ensures
        r@ == text_of(*e),
    decreases e,
{
    proof {
        lemma_punctuation_text();
    }
    match e {
        Expression::Identifier(i) => i.value.clone(),
        Expression::IntegerLiteral(i) => i.token.literal.clone(),
        Expression::Boolean(b) => b.token.literal.clone(),
        Expression::Prefix(p) => {
            let mut out = String::from_str("(");
            out.append(p.operator.as_str());
            let right = expression_text(&p.right);
            out.append(right.as_str());
            out.append(")");
            out
        },
        Expression::Infix(p) => {
            let mut out = String::from_str("(");
            let left = expression_text(&p.left);
            out.append(left.as_str());
            out.append(" ");
            out.append(p.operator.as_str());
            out.append(" ");
            let right = expression_text(&p.right);
            out.append(right.as_str());
            out.append(")");
            out
        },
        Expression::If(f) => {
            let mut out = String::from_str("if");
            let cond = expression_text(&f.condition);
            out.append(cond.as_str());
            out.append(" ");
            let cons = statements_text(&f.consequence.statements);
            out.append(cons.as_str());
            match &f.alternative {
                Some(a) => {
                    out.append(" else ");
                    let alt = statements_text(&a.statements);
                    out.append(alt.as_str());
                    assert(out@ =~= text_of(*e));
                },
                None => {
                    assert(out@ =~= text_of(*e));
                },
            }
            out
        },
        Expression::Function(f) => {
            let mut out = f.token.literal.clone();
            out.append("(");
            let params = params_joined(&f.params);
            out.append(params.as_str());
            out.append(")");
            let body = statements_text(&f.body.statements);
            out.append(body.as_str());
            out
        },
        Expression::Call(c) => {
            let mut out = expression_text(&c.func);
            out.append("(");
            let args = args_joined(&c.args);
            out.append(args.as_str());
            out.append(")");
            out
        },
        Expression::Error(_) => String::new(),
    }
}

fn args_joined(v: &Vec<Expression>) -> (r: String)
    ensures
        r@ == args_text_of(v@),
    decreases v,
{
    proof {
        lemma_punctuation_text();
    }
    assert(v@.subrange(0, 0) =~= Seq::<Expression>::empty());
    let mut out = String::new();
    let mut i: usize = 0;
    while i < v.len()
        invariant
            i <= v@.len(),
            out@ == args_text_of(v@.subrange(0, i as int)),
            ","@ == seq![','],
        decreases v@.len() - i,
    {
        let ghost ms = v@.subrange(0, i + 1);
        if i > 0 {
            out.append(",");
        }
        let t = expression_text(&v[i]);
        out.append(t.as_str());
        assert(ms.drop_last() =~= v@.subrange(0, i as int));
        assert(ms.last() == v@[i as int]);
        assert(out@ =~= args_text_of(ms));
        i = i + 1;
    }
    assert(v@.subrange(0, v@.len() as int) =~= v@);
    out
}

fn params_joined(v: &Vec<Identifier>) -> (r: String)
    ensures
        r@ == params_text(idents_model(v@)),
{
    proof {
        lemma_punctuation_text();
    }
    let mut out = String::new();
    let mut i: usize = 0;
    while i < v.len()
        invariant
            i <= v@.len(),
            out@ == params_text(idents_model(v@.subrange(0, i as int))),
            ","@ == seq![','],
        decreases v@.len() - i,
    {
        let ghost ms = idents_model(v@.subrange(0, i + 1));
        if i > 0 {
            out.append(",");
        }
        out.append(v[i].value.as_str());
        assert(ms.drop_last() =~= idents_model(v@.subrange(0, i as int)));
        assert(ms.len() == i + 1 && ms.last() == ident_model(v@[i as int]));
        assert(out@ =~= params_text(ms));
        i = i + 1;
    }
    assert(v@.subrange(0, v@.len() as int) =~= v@);
    out
}

fn statement_text(st: &Statement) -> (r: String)
    ensures
        r@ == stmt_text_of(*st),
    decreases st,
{
    proof {
        lemma_punctuation_text();
    }
    match st {
        Statement::Let(l) => {
            let mut out = l.token.literal.clone();
            out.append(" ");
            out.append(l.name.value.as_str());
            out.append(" = ");
            let v = expression_text(&l.value);
            out.append(v.as_str());
            out.append(";");
            out
        },
        Statement::Return(s) => {
            let mut out = s.token.literal.clone();
            out.append(" ");
            let v = expression_text(&s.return_value);
            out.append(v.as_str());
            out.append(";");
            out
        },
        Statement::Expression(x) => expression_text(&x.expression),
    }
}

fn statements_text(v: &Vec<Statement>) -> (r: String)
    ensures
        r@ == stmts_text_of(v@),
    decreases v,
{
    assert(v@.subrange(0, 0) =~= Seq::<Statement>::empty());
    let mut out = String::new();
    let mut i: usize = 0;
    while i < v.len()
        invariant
            i <= v@.len(),
            out@ == stmts_text_of(v@.subrange(0, i as int)),
        decreases v@.len() - i,
    {
        let ghost ms = v@.subrange(0, i + 1);
        let t = statement_text(&v[i]);
        out.append(t.as_str());
        assert(ms.drop_last() =~= v@.subrange(0, i as int));
        assert(ms.last() == v@[i as int]);
        assert(out@ == stmts_text_of(ms));
        i = i + 1;
    }
    assert(v@.subrange(0, v@.len() as int) =~= v@);
    out
}

// ---------------------------------------------------------------------------
// Node: the literal of a node's token, and its canonical text
// ---------------------------------------------------------------------------

pub open spec fn expr_token_literal(e: Expression) -> Seq<char> {
    match e {
        Expression::Identifier(i) => i.token.literal@,
        Expression::IntegerLiteral(i) => i.token.literal@,
        Expression::Boolean(b) => b.token.literal@,
        Expression::Prefix(p) => p.token.literal@,
        Expression::Infix(p) => p.token.literal@,
        Expression::If(f) => f.token.literal@,
        Expression::Function(f) => f.token.literal@,
        Expression::Call(c) => c.token.literal@,
        Expression::Error(_) => Seq::empty(),
    }
}

pub open spec fn stmt_token_literal(s: Statement) -> Seq<char> {
    match s {
        Statement::Let(l) => l.token.literal@,
        Statement::Return(r) => r.token.literal@,
        Statement::Expression(x) => x.token.literal@,
    }
}

/// What every node offers: the literal of the token it came from, and its
/// canonical text.
pub trait Node {
    spec fn literal_text(&self) -> Seq<char>;

    spec fn text(&self) -> Seq<char>;

    fn token_literal(&self) -> (r: String)
        ensures
            r@ == self.literal_text(),
    ;

    fn to_string(&self) -> (r: String)
        ensures
            r@ == self.text(),
    ;
}

fn statement_literal(s: &Statement) -> (r: String)
    ensures
        r@ == stmt_token_literal(*s),
{
    match s {
        Statement::Let(l) => l.token.literal.clone(),
        Statement::Return(r) => r.token.literal.clone(),
        Statement::Expression(x) => x.token.literal.clone(),
    }
}

impl Node for Expression {
    open spec fn literal_text(&self) -> Seq<char> {
        expr_token_literal(*self)
    }

    open spec fn text(&self) -> Seq<char> {
        text_of(*self)
    }

    fn token_literal(&self) -> (r: String) {
        match self {
            Expression::Identifier(i) => i.token.literal.clone(),
            Expression::IntegerLiteral(i) => i.token.literal.clone(),
            Expression::Boolean(b) => b.token.literal.clone(),
            Expression::Prefix(p) => p.token.literal.clone(),
            Expression::Infix(p) => p.token.literal.clone(),
            Expression::If(f) => f.token.literal.clone(),
            Expression::Function(f) => f.token.literal.clone(),
            Expression::Call(c) => c.token.literal.clone(),
            Expression::Error(_) => String::new(),
        }
    }

    fn to_string(&self) -> (r: String) {
        expression_text(self)
    }
}

impl Node for Statement {
    open spec fn literal_text(&self) -> Seq<char> {
        stmt_token_literal(*self)
    }

    open spec fn text(&self) -> Seq<char> {
        stmt_text_of(*self)
    }

    fn token_literal(&self) -> (r: String) {
        statement_literal(self)
    }

    fn to_string(&self) -> (r: String) {
        statement_text(self)
    }
}

impl Node for Program {
    open spec fn literal_text(&self) -> Seq<char> {
        if self.statements@.len() > 0 {
            stmt_token_literal(self.statements@[0])
        } else {
            Seq::empty()
        }
    }

    open spec fn text(&self) -> Seq<char> {
        stmts_text_of(self.statements@)
    }

    fn token_literal(&self) -> (r: String) {
        if self.statements.len() > 0 {
            statement_literal(&self.statements[0])
        } else {
            String::new()
        }
    }

    fn to_string(&self) -> (r: String) {
        statements_text(&self.statements)
    }
}

impl Node for Identifier {
    open spec fn literal_text(&self) -> Seq<char> {
        self.token.literal@
    }

    open spec fn text(&self) -> Seq<char> {
        self.value@
    }

    fn token_literal(&self) -> (r: String) {
        self.token.literal.clone()
    }

    fn to_string(&self) -> (r: String) {
        self.value.clone()
    }
}

impl Node for BlockStatement {
    open spec fn literal_text(&self) -> Seq<char> {
        self.token.literal@
    }

    open spec fn text(&self) -> Seq<char> {
        stmts_text_of(self.statements@)
    }

    fn token_literal(&self) -> (r: String) {
        self.token.literal.clone()
    }

    fn to_string(&self) -> (r: String) {
        statements_text(&self.statements)
    }
}

} // verus!
