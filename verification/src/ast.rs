use vstd::prelude::*;

use crate::token::{Token, TokenModel};
use vstd::string::StringExecFns;

verus! {

/// A name in the source, with the token it was read from.
#[derive(Debug, Clone, PartialEq)]
pub struct Identifier {
    pub token: Token,
    pub value: String,
}

/// A `{ ... }` block: its opening token and the statements in it.
#[derive(Debug, PartialEq)]
pub struct BlockStatement {
    pub token: Token,
    pub statements: Vec<Statement>,
}

/// A statement of the language.
#[non_exhaustive]
#[derive(Debug, PartialEq)]
pub enum Statement {
    /// `const name = value;`
    Let { token: Token, name: Identifier, value: Expression },
    /// `return value;`
    Return { token: Token, return_value: Expression },
    /// An expression used as a statement.
    Expression { token: Token, expression: Expression },
    /// A nested block.
    Block(BlockStatement),
    /// `if (condition) { ... } else { ... }`
    If {
        token: Token,
        condition: Expression,
        consequence: BlockStatement,
        alternative: Option<BlockStatement>,
    },
    /// `while (condition) { ... }`
    While { token: Token, condition: Expression, body: BlockStatement },
    /// `for (initializer; condition; update) { ... }`
    For {
        token: Token,
        initializer: Option<Box<Statement>>,
        condition: Option<Expression>,
        update: Option<Box<Statement>>,
        body: BlockStatement,
    },
    /// `break;`
    Break { token: Token },
    /// `continue;`
    Continue { token: Token },
}

/// An expression of the language. A float literal's value is the bit pattern
/// of the IEEE double its text denotes.
#[derive(Debug, PartialEq)]
pub enum Expression {
    Identifier(Identifier),
    Int { token: Token, value: i64 },
    Float { token: Token, value: u64 },
    String { token: Token, value: String },
    Bool { token: Token, value: bool },
    Prefix { token: Token, operator: String, right: Box<Expression> },
    Infix { token: Token, left: Box<Expression>, operator: String, right: Box<Expression> },
    Function { token: Token, parameters: Vec<Identifier>, body: BlockStatement },
    Call { token: Token, function: Box<Expression>, arguments: Vec<Expression> },
}

/// A whole program: its statements in order.
#[derive(Debug, PartialEq)]
pub struct Program {
    pub statements: Vec<Statement>,
}

// ---------------------------------------------------------------------------
// Models
/// The model of an identifier.
pub struct IdentModel {
    pub token: TokenModel,
    pub value: Seq<char>,
}

/// The model of an expression.
pub enum ExprModel {
    Ident(IdentModel),
    Int { token: TokenModel, value: i64 },
    Float { token: TokenModel, value: u64 },
    Str { token: TokenModel, value: Seq<char> },
    Bool { token: TokenModel, value: bool },
    Prefix { token: TokenModel, operator: Seq<char>, right: Box<ExprModel> },
    Infix { token: TokenModel, left: Box<ExprModel>, operator: Seq<char>, right: Box<ExprModel> },
    Function { token: TokenModel, parameters: Seq<IdentModel>, body: BlockModel },
    Call { token: TokenModel, function: Box<ExprModel>, arguments: Seq<ExprModel> },
}

/// The model of a block.
pub struct BlockModel {
    pub token: TokenModel,
    pub statements: Seq<StmtModel>,
}

/// The model of a statement.
pub enum StmtModel {
    Let { token: TokenModel, name: IdentModel, value: ExprModel },
    Return { token: TokenModel, return_value: ExprModel },
    Expr { token: TokenModel, expression: ExprModel },
    Block(BlockModel),
    If {
        token: TokenModel,
        condition: ExprModel,
        consequence: BlockModel,
        alternative: Option<BlockModel>,
    },
    While { token: TokenModel, condition: ExprModel, body: BlockModel },
    For {
        token: TokenModel,
        initializer: Option<Box<StmtModel>>,
        condition: Option<ExprModel>,
        update: Option<Box<StmtModel>>,
        body: BlockModel,
    },
    Break { token: TokenModel },
    Continue { token: TokenModel },
}

impl View for Identifier {
    type V = IdentModel;

    open spec fn view(&self) -> IdentModel {
        IdentModel { token: self.token@, value: self.value@ }
    }
}

/// The models of a sequence of identifiers.
pub open spec fn idents_model(s: Seq<Identifier>) -> Seq<IdentModel> {
    s.map_values(|i: Identifier| i@)
}

/// The model of an expression.
pub open spec fn expr_model(e: Expression) -> ExprModel
    decreases e,
{
    match e {
        Expression::Identifier(i) => ExprModel::Ident(i@),
        Expression::Int { token, value } => ExprModel::Int { token: token@, value },
        Expression::Float { token, value } => ExprModel::Float { token: token@, value },
        Expression::String { token, value } => ExprModel::Str { token: token@, value: value@ },
        Expression::Bool { token, value } => ExprModel::Bool { token: token@, value },
        Expression::Prefix { token, operator, right } => ExprModel::Prefix {
            token: token@,
            operator: operator@,
            right: Box::new(expr_model(*right)),
        },
        Expression::Infix { token, left, operator, right } => ExprModel::Infix {
            token: token@,
            left: Box::new(expr_model(*left)),
            operator: operator@,
            right: Box::new(expr_model(*right)),
        },
        Expression::Function { token, parameters, body } => ExprModel::Function {
            token: token@,
            parameters: idents_model(parameters@),
            body: block_model(body),
        },
        Expression::Call { token, function, arguments } => ExprModel::Call {
            token: token@,
            function: Box::new(expr_model(*function)),
            arguments: exprs_model(arguments@),
        },
    }
}

/// The models of a sequence of expressions.
pub open spec fn exprs_model(s: Seq<Expression>) -> Seq<ExprModel>
    decreases s,
{
    if s.len() == 0 {
        Seq::empty()
    } else {
        exprs_model(s.drop_last()).push(expr_model(s.last()))
    }
}

/// The model of a block.
pub open spec fn block_model(b: BlockStatement) -> BlockModel
    decreases b,
{
    BlockModel { token: b.token@, statements: stmts_model(b.statements@) }
}

/// The model of an optional block.
pub open spec fn opt_block_model(b: Option<BlockStatement>) -> Option<BlockModel>
    decreases b,
{
    match b {
        Some(b) => Some(block_model(b)),
        None => None,
    }
}

/// The model of an optional expression.
pub open spec fn opt_expr_model(e: Option<Expression>) -> Option<ExprModel>
    decreases e,
{
    match e {
        Some(e) => Some(expr_model(e)),
        None => None,
    }
}

/// The model of an optional boxed statement.
pub open spec fn opt_stmt_box_model(s: Option<Box<Statement>>) -> Option<Box<StmtModel>>
    decreases s,
{
    match s {
        Some(s) => Some(Box::new(stmt_model(*s))),
        None => None,
    }
}

/// The model of a statement.
pub open spec fn stmt_model(s: Statement) -> StmtModel
    decreases s,
{
    match s {
        Statement::Let { token, name, value } => StmtModel::Let {
            token: token@,
            name: name@,
            value: expr_model(value),
        },
        Statement::Return { token, return_value } => StmtModel::Return {
            token: token@,
            return_value: expr_model(return_value),
        },
        Statement::Expression { token, expression } => StmtModel::Expr {
            token: token@,
            expression: expr_model(expression),
        },
        Statement::Block(b) => StmtModel::Block(block_model(b)),
        Statement::If { token, condition, consequence, alternative } => StmtModel::If {
            token: token@,
            condition: expr_model(condition),
            consequence: block_model(consequence),
            alternative: opt_block_model(alternative),
        },
        Statement::While { token, condition, body } => StmtModel::While {
            token: token@,
            condition: expr_model(condition),
            body: block_model(body),
        },
        Statement::For { token, initializer, condition, update, body } => StmtModel::For {
            token: token@,
            initializer: opt_stmt_box_model(initializer),
            condition: opt_expr_model(condition),
            update: opt_stmt_box_model(update),
            body: block_model(body),
        },
        Statement::Break { token } => StmtModel::Break { token: token@ },
        Statement::Continue { token } => StmtModel::Continue { token: token@ },
    }
}

/// The models of a sequence of statements.
pub open spec fn stmts_model(s: Seq<Statement>) -> Seq<StmtModel>
    decreases s,
{
    if s.len() == 0 {
        Seq::empty()
    } else {
        stmts_model(s.drop_last()).push(stmt_model(s.last()))
    }
}

/// The model of an optional statement.
pub open spec fn opt_stmt_model(s: Option<Statement>) -> Option<StmtModel> {
    match s {
        Some(s) => Some(stmt_model(s)),
        None => None,
    }
}

pub proof fn lemma_exprs_model_push(s: Seq<Expression>, e: Expression)
    ensures
        exprs_model(s.push(e)) == exprs_model(s).push(expr_model(e)),
{
    assert(s.push(e).drop_last() =~= s);
}

pub proof fn lemma_stmts_model_push(s: Seq<Statement>, e: Statement)
    ensures
        stmts_model(s.push(e)) == stmts_model(s).push(stmt_model(e)),
{
    assert(s.push(e).drop_last() =~= s);
}

pub proof fn lemma_idents_model_push(s: Seq<Identifier>, e: Identifier)
    ensures
        idents_model(s.push(e)) == idents_model(s).push(e@),
{
    assert(idents_model(s.push(e)) =~= idents_model(s).push(e@));
}

impl View for Program {
    type V = Seq<StmtModel>;

    open spec fn view(&self) -> Seq<StmtModel> {
        stmts_model(self.statements@)
    }
}


// ---------------------------------------------------------------------------
// Printing
/// `parts` joined with `sep` between each two of them.
pub open spec fn join(parts: Seq<Seq<char>>, sep: Seq<char>) -> Seq<char>
    decreases parts.len(),
{
    if parts.len() == 0 {
        Seq::empty()
    } else if parts.len() == 1 {
        parts[0]
    } else {
        join(parts.drop_last(), sep) + sep + parts.last()
    }
}

/// The text of an expression.
pub open spec fn expr_text(e: ExprModel) -> Seq<char>
    decreases e,
{
    match e {
        ExprModel::Ident(i) => i.value,
        ExprModel::Int { token, .. } => token.lit,
        ExprModel::Float { token, .. } => token.lit,
        ExprModel::Str { token, .. } => token.lit,
        ExprModel::Bool { token, .. } => token.lit,
        ExprModel::Prefix { operator, right, .. } => "("@ + operator + expr_text(*right) + ")"@,
        ExprModel::Infix { left, operator, right, .. } => "("@ + expr_text(*left) + " "@ + operator
            + " "@ + expr_text(*right) + ")"@,
        ExprModel::Function { parameters, body, .. } => "func("@ + join(
            parameters.map_values(|p: IdentModel| p.value),
            ", "@,
        ) + ") "@ + block_text(body),
        ExprModel::Call { function, arguments, .. } => expr_text(*function) + "("@ + join(
            exprs_text(arguments),
            ", "@,
        ) + ")"@,
    }
}

/// The texts of a sequence of expressions.
pub open spec fn exprs_text(s: Seq<ExprModel>) -> Seq<Seq<char>>
    decreases s,
{
    if s.len() == 0 {
        Seq::empty()
    } else {
        exprs_text(s.drop_last()).push(expr_text(s.last()))
    }
}

/// The text of a block: its statements' texts, one after the other.
pub open spec fn block_text(b: BlockModel) -> Seq<char>
    decreases b,
{
    stmts_text(b.statements)
}

/// The statements' texts, one after the other.
pub open spec fn stmts_text(s: Seq<StmtModel>) -> Seq<char>
    decreases s,
{
    if s.len() == 0 {
        Seq::empty()
    } else {
        stmts_text(s.drop_last()) + stmt_text(s.last())
    }
}

/// `t` without a final `;`.
pub open spec fn drop_semicolon(t: Seq<char>) -> Seq<char> {
    if t.len() > 0 && t.last() == ';' {
        t.drop_last()
    } else {
        t
    }
}

/// The text of a statement.
pub open spec fn stmt_text(s: StmtModel) -> Seq<char>
    decreases s,
{
    match s {
        StmtModel::Let { token, name, value } => token.lit + " "@ + name.value + " = "@ + expr_text(
            value,
        ) + ";"@,
        StmtModel::Return { token, return_value } => token.lit + " "@ + expr_text(return_value)
            + ";"@,
        StmtModel::Expr { expression, .. } => expr_text(expression),
        StmtModel::Block(b) => block_text(b),
        StmtModel::If { condition, consequence, alternative, .. } => "if ("@ + expr_text(condition)
            + ") "@ + block_text(consequence) + match alternative {
            Some(alt) => " else "@ + block_text(alt),
            None => Seq::empty(),
        },
        StmtModel::While { condition, body, .. } => "while ("@ + expr_text(condition) + ") "@
            + block_text(body),
        StmtModel::For { initializer, condition, update, body, .. } => "for ("@ + match initializer {
            Some(i) => stmt_text(*i),
            None => ";"@,
        } + " "@ + match condition {
            Some(c) => expr_text(c),
            None => Seq::empty(),
        } + ";"@ + match update {
            Some(u) => " "@ + drop_semicolon(stmt_text(*u)),
            None => Seq::empty(),
        } + ") "@ + block_text(body),
        StmtModel::Break { .. } => "break;"@,
        StmtModel::Continue { .. } => "continue;"@,
    }
}

impl Identifier {
    /// The text of the identifier: its name.
    pub fn to_string(&self) -> (s: String)
        ensures
            s@ == self.value@,
    {
        self.value.clone()
    }
}

impl Expression {
    /// The text of the expression, operators fully parenthesised.
    pub fn to_string(&self) -> (s: String)
        ensures
            s@ == expr_text(expr_model(*self)),
        decreases self,
    {
        match self {
            Expression::Identifier(i) => i.value.clone(),
            Expression::Int { token, .. } => token.literal.clone(),
            Expression::Float { token, .. } => token.literal.clone(),
            Expression::String { token, .. } => token.literal.clone(),
            Expression::Bool { token, .. } => token.literal.clone(),
            Expression::Prefix { operator, right, .. } => {
                let mut s = String::from_str("(");
                s.append(operator.as_str());
                let r = right.to_string();
                s.append(r.as_str());
                s.append(")");
                s
            },
            Expression::Infix { left, operator, right, .. } => {
                let mut s = String::from_str("(");
                let l = left.to_string();
                s.append(l.as_str());
                s.append(" ");
                s.append(operator.as_str());
                s.append(" ");
                let r = right.to_string();
                s.append(r.as_str());
                s.append(")");
                s
            },
            Expression::Function { parameters, body, .. } => {
                let mut s = String::from_str("func(");
                let ghost names = idents_model(parameters@).map_values(|p: IdentModel| p.value);
                let mut i: usize = 0;
                while i < parameters.len()
                    invariant
                        0 <= i <= parameters@.len(),
                        names == idents_model(parameters@).map_values(|p: IdentModel| p.value),
                        s@ == "func("@ + join(names.take(i as int), ", "@),
                    decreases parameters@.len() - i,
                {
                    if i > 0 {
                        s.append(", ");
                    }
                    s.append(parameters[i].value.as_str());
                    proof {
                        assert(names.take(i + 1).drop_last() =~= names.take(i as int));
                    }
                    i = i + 1;
                }
                assert(names.take(parameters@.len() as int) =~= names);
                s.append(") ");
                let b = body.to_string();
                s.append(b.as_str());
                s
            },
            Expression::Call { function, arguments, .. } => {
                let mut s = function.to_string();
                s.append("(");
                let ghost prefix = s@;
                let ghost texts = exprs_text(exprs_model(arguments@));
                proof {
                    lemma_exprs_text_len(arguments@);
                }
                let mut i: usize = 0;
                #[verifier::loop_isolation(false)]
                while i < arguments.len()
                    invariant
                        0 <= i <= arguments@.len(),
                        texts == exprs_text(exprs_model(arguments@)),
                        texts.len() == arguments@.len(),
                        forall|j: int|
                            0 <= j < arguments@.len() ==> #[trigger] texts[j] == expr_text(
                                expr_model(arguments@[j]),
                            ),
                        s@ == prefix + join(texts.take(i as int), ", "@),
                    decreases arguments@.len() - i,
                {
                    if i > 0 {
                        s.append(", ");
                    }
                    proof {
                        assert(decreases_to!(*arguments => arguments[i as int]));
                    }
                    let a = arguments[i].to_string();
                    s.append(a.as_str());
                    proof {
                        assert(texts.take(i + 1).drop_last() =~= texts.take(i as int));
                    }
                    i = i + 1;
                }
                assert(texts.take(arguments@.len() as int) =~= texts);
                s.append(")");
                s
            },
        }
    }
}

impl BlockStatement {
    /// The texts of the block's statements, one after the other.
    pub fn to_string(&self) -> (s: String)
        ensures
            s@ == block_text(block_model(*self)),
        decreases self,
    {
        let mut s = String::new();
        let ghost m = stmts_model(self.statements@);
        let mut i: usize = 0;
        while i < self.statements.len()
            invariant
                0 <= i <= self.statements@.len(),
                m == stmts_model(self.statements@),
                s@ == stmts_text(stmts_model(self.statements@.take(i as int))),
            decreases self.statements@.len() - i,
        {
            proof {
                assert(decreases_to!(self.statements => self.statements[i as int]));
            }
            let t = self.statements[i].to_string();
            s.append(t.as_str());
            proof {
                lemma_stmts_text_take(self.statements@, i as int);
            }
            i = i + 1;
        }
        assert(self.statements@.take(self.statements@.len() as int) =~= self.statements@);
        s
    }
}

impl Statement {
    /// The text of the statement.
    pub fn to_string(&self) -> (s: String)
        ensures
            s@ == stmt_text(stmt_model(*self)),
        decreases self,
    {
        match self {
            Statement::Let { token, name, value } => {
                let mut s = token.literal.clone();
                s.append(" ");
                s.append(name.value.as_str());
                s.append(" = ");
                let v = value.to_string();
                s.append(v.as_str());
                s.append(";");
                s
            },
            Statement::Return { token, return_value } => {
                let mut s = token.literal.clone();
                s.append(" ");
                let v = return_value.to_string();
                s.append(v.as_str());
                s.append(";");
                s
            },
            Statement::Expression { expression, .. } => expression.to_string(),
            Statement::Block(block) => block.to_string(),
            Statement::If { condition, consequence, alternative, .. } => {
                let mut s = String::from_str("if (");
                let c = condition.to_string();
                s.append(c.as_str());
                s.append(") ");
                let b = consequence.to_string();
                s.append(b.as_str());
                if let Some(alt) = alternative {
                    s.append(" else ");
                    let a = alt.to_string();
                    s.append(a.as_str());
                }
                s
            },
            Statement::While { condition, body, .. } => {
                let mut s = String::from_str("while (");
                let c = condition.to_string();
                s.append(c.as_str());
                s.append(") ");
                let b = body.to_string();
                s.append(b.as_str());
                s
            },
            Statement::For { initializer, condition, update, body, .. } => {
                let mut s = String::from_str("for (");
                if let Some(init) = initializer {
                    let init_str = init.to_string();
                    s.append(init_str.as_str());
                } else {
                    s.append(";");
                }
                s.append(" ");
                if let Some(cond) = condition {
                    let c = cond.to_string();
                    s.append(c.as_str());
                }
                s.append(";");
                if let Some(upd) = update {
                    let upd_str = upd.to_string();
                    let trimmed = without_final_semicolon(&upd_str);
                    s.append(" ");
                    s.append(trimmed.as_str());
                }
                s.append(") ");
                let b = body.to_string();
                s.append(b.as_str());
                s
            },
            Statement::Break { .. } => String::from_str("break;"),
            Statement::Continue { .. } => String::from_str("continue;"),
        }
    }
}

/// `t` without a final `;`.
fn without_final_semicolon(t: &String) -> (r: String)
    ensures
        r@ == drop_semicolon(t@),
{
    let cs = crate::lexer::chars_of(t.as_str());
    if cs.len() > 0 && cs[cs.len() - 1] == ';' {
        let r = crate::lexer::text(&cs.as_slice()[0..cs.len() - 1]);
        r
    } else {
        t.clone()
    }
}

impl Program {
    /// The texts of the program's statements, one after the other.
    pub fn to_string(&self) -> (s: String)
        ensures
            s@ == stmts_text(self@),
    {
        let mut s = String::new();
        let mut i: usize = 0;
        while i < self.statements.len()
            invariant
                0 <= i <= self.statements@.len(),
                s@ == stmts_text(stmts_model(self.statements@.take(i as int))),
            decreases self.statements@.len() - i,
        {
            let t = self.statements[i].to_string();
            s.append(t.as_str());
            proof {
                lemma_stmts_text_take(self.statements@, i as int);
            }
            i = i + 1;
        }
        assert(self.statements@.take(self.statements@.len() as int) =~= self.statements@);
        s
    }
}

// ---------------------------------------------------------------------------
// Copies and comparisons
/// A copy of a token.
pub fn copy_token(t: &Token) -> (r: Token)
    ensures
        r@ == t@,
{
    Token { token_type: t.token_type, literal: t.literal.clone() }
}

/// Two tokens are alike: same kind, same text.
pub fn same_token(a: &Token, b: &Token) -> (r: bool)
    ensures
        r == (a@ == b@),
{
    a.token_type == b.token_type && a.literal == b.literal
}

impl Identifier {
    /// A copy of the identifier.
    pub fn duplicate(&self) -> (r: Identifier)
        ensures
            r@ == self@,
    {
        Identifier { token: copy_token(&self.token), value: self.value.clone() }
    }

    /// Whether the two identifiers are alike.
    pub fn same_as(&self, other: &Identifier) -> (r: bool)
        ensures
            r == (self@ == other@),
    {
        same_token(&self.token, &other.token) && self.value == other.value
    }
}

/// A copy of a list of identifiers.
pub fn duplicate_identifiers(v: &Vec<Identifier>) -> (r: Vec<Identifier>)
    ensures
        idents_model(r@) == idents_model(v@),
{
    let mut r: Vec<Identifier> = Vec::new();
    let mut i: usize = 0;
    while i < v.len()
        invariant
            0 <= i <= v@.len(),
            idents_model(r@) == idents_model(v@.take(i as int)),
        decreases v@.len() - i,
    {
        let x = v[i].duplicate();
        proof {
            lemma_idents_model_push(r@, x);
            assert(idents_model(v@.take(i + 1)) =~= idents_model(v@.take(i as int)).push(v@[i as int]@));
        }
        r.push(x);
        i = i + 1;
    }
    assert(v@.take(v@.len() as int) =~= v@);
    r
}

/// Whether two lists of identifiers are alike.
pub fn same_identifiers(a: &Vec<Identifier>, b: &Vec<Identifier>) -> (r: bool)
    ensures
        r == (idents_model(a@) == idents_model(b@)),
{
    if a.len() != b.len() {
        assert(idents_model(a@).len() != idents_model(b@).len());
        return false;
    }
    let mut i: usize = 0;
    while i < a.len()
        invariant
            a@.len() == b@.len(),
            0 <= i <= a@.len(),
            forall|j: int| 0 <= j < i ==> a@[j]@ == b@[j]@,
        decreases a@.len() - i,
    {
        if !a[i].same_as(&b[i]) {
            assert(idents_model(a@)[i as int] != idents_model(b@)[i as int]);
            return false;
        }
        i = i + 1;
    }
    assert(idents_model(a@) =~= idents_model(b@));
    true
}

impl Expression {
    /// A copy of the expression.
    pub fn duplicate(&self) -> (r: Expression)
        ensures
            expr_model(r) == expr_model(*self),
        decreases self,
    {
        match self {
            Expression::Identifier(i) => Expression::Identifier(i.duplicate()),
            Expression::Int { token, value } => Expression::Int { token: copy_token(token), value: *value },
            Expression::Float { token, value } => Expression::Float {
                token: copy_token(token),
                value: *value,
            },
            Expression::String { token, value } => Expression::String {
                token: copy_token(token),
                value: value.clone(),
            },
            Expression::Bool { token, value } => Expression::Bool { token: copy_token(token), value: *value },
            Expression::Prefix { token, operator, right } => Expression::Prefix {
                token: copy_token(token),
                operator: operator.clone(),
                right: Box::new(right.duplicate()),
            },
            Expression::Infix { token, left, operator, right } => Expression::Infix {
                token: copy_token(token),
                left: Box::new(left.duplicate()),
                operator: operator.clone(),
                right: Box::new(right.duplicate()),
            },
            Expression::Function { token, parameters, body } => Expression::Function {
                token: copy_token(token),
                parameters: duplicate_identifiers(parameters),
                body: body.duplicate(),
            },
            Expression::Call { token, function, arguments } => {
                let mut args: Vec<Expression> = Vec::new();
                let mut i: usize = 0;
                #[verifier::loop_isolation(false)]
                while i < arguments.len()
                    invariant
                        0 <= i <= arguments@.len(),
                        exprs_model(args@) == exprs_model(arguments@.take(i as int)),
                    decreases arguments@.len() - i,
                {
                    proof {
                        assert(decreases_to!(*arguments => arguments[i as int]));
                    }
                    let a = arguments[i].duplicate();
                    proof {
                        lemma_exprs_model_push(args@, a);
                        lemma_exprs_model_push(arguments@.take(i as int), arguments@[i as int]);
                        assert(arguments@.take(i as int).push(arguments@[i as int]) =~= arguments@.take(i + 1));
                    }
                    args.push(a);
                    i = i + 1;
                }
                assert(arguments@.take(arguments@.len() as int) =~= arguments@);
                Expression::Call {
                    token: copy_token(token),
                    function: Box::new(function.duplicate()),
                    arguments: args,
                }
            },
        }
    }
}

impl BlockStatement {
    /// A copy of the block.
    pub fn duplicate(&self) -> (r: BlockStatement)
        ensures
            block_model(r) == block_model(*self),
        decreases self,
    {
        let mut stmts: Vec<Statement> = Vec::new();
        let mut i: usize = 0;
        while i < self.statements.len()
            invariant
                0 <= i <= self.statements@.len(),
                stmts_model(stmts@) == stmts_model(self.statements@.take(i as int)),
            decreases self.statements@.len() - i,
        {
            proof {
                assert(decreases_to!(self.statements => self.statements[i as int]));
            }
            let st = self.statements[i].duplicate();
            proof {
                lemma_stmts_model_push(stmts@, st);
                lemma_stmts_model_push(self.statements@.take(i as int), self.statements@[i as int]);
                assert(self.statements@.take(i as int).push(self.statements@[i as int])
                    =~= self.statements@.take(i + 1));
            }
            stmts.push(st);
            i = i + 1;
        }
        assert(self.statements@.take(self.statements@.len() as int) =~= self.statements@);
        BlockStatement { token: copy_token(&self.token), statements: stmts }
    }
}

impl Statement {
    /// A copy of the statement.
    pub fn duplicate(&self) -> (r: Statement)
        ensures
            stmt_model(r) == stmt_model(*self),
        decreases self,
    {
        match self {
            Statement::Let { token, name, value } => Statement::Let {
                token: copy_token(token),
                name: name.duplicate(),
                value: value.duplicate(),
            },
            Statement::Return { token, return_value } => Statement::Return {
                token: copy_token(token),
                return_value: return_value.duplicate(),
            },
            Statement::Expression { token, expression } => Statement::Expression {
                token: copy_token(token),
                expression: expression.duplicate(),
            },
            Statement::Block(b) => Statement::Block(b.duplicate()),
            Statement::If { token, condition, consequence, alternative } => Statement::If {
                token: copy_token(token),
                condition: condition.duplicate(),
                consequence: consequence.duplicate(),
                alternative: match alternative {
                    Some(a) => Some(a.duplicate()),
                    None => None,
                },
            },
            Statement::While { token, condition, body } => Statement::While {
                token: copy_token(token),
                condition: condition.duplicate(),
                body: body.duplicate(),
            },
            Statement::For { token, initializer, condition, update, body } => Statement::For {
                token: copy_token(token),
                initializer: match initializer {
                    Some(i) => Some(Box::new(i.duplicate())),
                    None => None,
                },
                condition: match condition {
                    Some(c) => Some(c.duplicate()),
                    None => None,
                },
                update: match update {
                    Some(u) => Some(Box::new(u.duplicate())),
                    None => None,
                },
                body: body.duplicate(),
            },
            Statement::Break { token } => Statement::Break { token: copy_token(token) },
            Statement::Continue { token } => Statement::Continue { token: copy_token(token) },
        }
    }
}

pub proof fn lemma_stmts_model_index(s: Seq<Statement>)
    ensures
        stmts_model(s).len() == s.len(),
        forall|j: int| 0 <= j < s.len() ==> #[trigger] stmts_model(s)[j] == stmt_model(s[j]),
    decreases s.len(),
{
    if s.len() > 0 {
        lemma_stmts_model_index(s.drop_last());
        assert forall|j: int| 0 <= j < s.len() implies #[trigger] stmts_model(s)[j] == stmt_model(
            s[j],
        ) by {
            if j < s.len() - 1 {
                assert(s.drop_last()[j] == s[j]);
            }
        }
    }
}

impl Expression {
    /// Whether the two expressions are alike, token for token.
    pub fn same_as(&self, other: &Expression) -> (r: bool)
        ensures
            r == (expr_model(*self) == expr_model(*other)),
        decreases self,
    {
        match (self, other) {
            (Expression::Identifier(a), Expression::Identifier(b)) => a.same_as(b),
            (Expression::Int { token: t1, value: v1 }, Expression::Int { token: t2, value: v2 }) =>
                same_token(t1, t2) && *v1 == *v2,
            (Expression::Float { token: t1, value: v1 }, Expression::Float { token: t2, value: v2 }) =>
                same_token(t1, t2) && *v1 == *v2,
            (
                Expression::String { token: t1, value: v1 },
                Expression::String { token: t2, value: v2 },
            ) => same_token(t1, t2) && *v1 == *v2,
            (Expression::Bool { token: t1, value: v1 }, Expression::Bool { token: t2, value: v2 }) =>
                same_token(t1, t2) && *v1 == *v2,
            (
                Expression::Prefix { token: t1, operator: o1, right: r1 },
                Expression::Prefix { token: t2, operator: o2, right: r2 },
            ) => same_token(t1, t2) && *o1 == *o2 && r1.same_as(r2),
            (
                Expression::Infix { token: t1, left: l1, operator: o1, right: r1 },
                Expression::Infix { token: t2, left: l2, operator: o2, right: r2 },
            ) => same_token(t1, t2) && l1.same_as(l2) && *o1 == *o2 && r1.same_as(r2),
            (
                Expression::Function { token: t1, parameters: p1, body: b1 },
                Expression::Function { token: t2, parameters: p2, body: b2 },
            ) => same_token(t1, t2) && same_identifiers(p1, p2) && b1.same_as(b2),
            (
                Expression::Call { token: t1, function: f1, arguments: a1 },
                Expression::Call { token: t2, function: f2, arguments: a2 },
            ) => {
                if !same_token(t1, t2) || !f1.same_as(f2) {
                    return false;
                }
                proof {
                    lemma_exprs_model_index(a1@);
                    lemma_exprs_model_index(a2@);
                }
                if a1.len() != a2.len() {
                    return false;
                }
                let mut i: usize = 0;
                #[verifier::loop_isolation(false)]
                while i < a1.len()
                    invariant
                        0 <= i <= a1@.len(),
                        a1@.len() == a2@.len(),
                        forall|j: int| 0 <= j < i ==> expr_model(a1@[j]) == expr_model(a2@[j]),
                    decreases a1@.len() - i,
                {
                    proof {
                        assert(decreases_to!(*a1 => a1[i as int]));
                    }
                    if !a1[i].same_as(&a2[i]) {
                        assert(exprs_model(a1@)[i as int] != exprs_model(a2@)[i as int]);
                        return false;
                    }
                    i = i + 1;
                }
                assert(exprs_model(a1@) =~= exprs_model(a2@));
                true
            },
            _ => false,
        }
    }
}

impl BlockStatement {
    /// Whether the two blocks are alike, token for token.
    pub fn same_as(&self, other: &BlockStatement) -> (r: bool)
        ensures
            r == (block_model(*self) == block_model(*other)),
        decreases self,
    {
        if !same_token(&self.token, &other.token) {
            return false;
        }
        proof {
            lemma_stmts_model_index(self.statements@);
            lemma_stmts_model_index(other.statements@);
        }
        if self.statements.len() != other.statements.len() {
            return false;
        }
        let mut i: usize = 0;
        while i < self.statements.len()
            invariant
                0 <= i <= self.statements@.len(),
                self.statements@.len() == other.statements@.len(),
                stmts_model(self.statements@).len() == self.statements@.len(),
                stmts_model(other.statements@).len() == other.statements@.len(),
                forall|j: int|
                    0 <= j < self.statements@.len() ==> #[trigger] stmts_model(self.statements@)[j]
                        == stmt_model(self.statements@[j]),
                forall|j: int|
                    0 <= j < other.statements@.len() ==> #[trigger] stmts_model(other.statements@)[j]
                        == stmt_model(other.statements@[j]),
                forall|j: int|
                    0 <= j < i ==> stmt_model(self.statements@[j]) == stmt_model(other.statements@[j]),
            decreases self.statements@.len() - i,
        {
            proof {
                assert(decreases_to!(self.statements => self.statements[i as int]));
            }
            if !self.statements[i].same_as(&other.statements[i]) {
                assert(stmts_model(self.statements@)[i as int] != stmts_model(other.statements@)[i as int]);
                return false;
            }
            i = i + 1;
        }
        assert(stmts_model(self.statements@) =~= stmts_model(other.statements@));
        true
    }
}

impl Statement {
    /// Whether the two statements are alike, token for token.
    pub fn same_as(&self, other: &Statement) -> (r: bool)
        ensures
            r == (stmt_model(*self) == stmt_model(*other)),
        decreases self,
    {
        match (self, other) {
            (
                Statement::Let { token: t1, name: n1, value: v1 },
                Statement::Let { token: t2, name: n2, value: v2 },
            ) => same_token(t1, t2) && n1.same_as(n2) && v1.same_as(v2),
            (
                Statement::Return { token: t1, return_value: v1 },
                Statement::Return { token: t2, return_value: v2 },
            ) => same_token(t1, t2) && v1.same_as(v2),
            (
                Statement::Expression { token: t1, expression: e1 },
                Statement::Expression { token: t2, expression: e2 },
            ) => same_token(t1, t2) && e1.same_as(e2),
            (Statement::Block(b1), Statement::Block(b2)) => b1.same_as(b2),
            (
                Statement::If { token: t1, condition: c1, consequence: k1, alternative: a1 },
                Statement::If { token: t2, condition: c2, consequence: k2, alternative: a2 },
            ) => same_token(t1, t2) && c1.same_as(c2) && k1.same_as(k2) && match (a1, a2) {
                (Some(x), Some(y)) => x.same_as(y),
                (None, None) => true,
                _ => false,
            },
            (
                Statement::While { token: t1, condition: c1, body: b1 },
                Statement::While { token: t2, condition: c2, body: b2 },
            ) => same_token(t1, t2) && c1.same_as(c2) && b1.same_as(b2),
            (
                Statement::For { token: t1, initializer: i1, condition: c1, update: u1, body: b1 },
                Statement::For { token: t2, initializer: i2, condition: c2, update: u2, body: b2 },
            ) => {
                let inits = match (i1, i2) {
                    (Some(x), Some(y)) => x.same_as(y),
                    (None, None) => true,
                    _ => false,
                };
                let conds = match (c1, c2) {
                    (Some(x), Some(y)) => x.same_as(y),
                    (None, None) => true,
                    _ => false,
                };
                let updates = match (u1, u2) {
                    (Some(x), Some(y)) => x.same_as(y),
                    (None, None) => true,
                    _ => false,
                };
                same_token(t1, t2) && inits && conds && updates && b1.same_as(b2)
            },
            (Statement::Break { token: t1 }, Statement::Break { token: t2 }) => same_token(t1, t2),
            (Statement::Continue { token: t1 }, Statement::Continue { token: t2 }) => same_token(
                t1,
                t2,
            ),
            _ => false,
        }
    }
}

pub proof fn lemma_exprs_model_index(s: Seq<Expression>)
    ensures
        exprs_model(s).len() == s.len(),
        forall|j: int| 0 <= j < s.len() ==> #[trigger] exprs_model(s)[j] == expr_model(s[j]),
    decreases s.len(),
{
    if s.len() > 0 {
        lemma_exprs_model_index(s.drop_last());
        assert forall|j: int| 0 <= j < s.len() implies #[trigger] exprs_model(s)[j] == expr_model(
            s[j],
        ) by {
            if j < s.len() - 1 {
                assert(s.drop_last()[j] == s[j]);
            }
        }
    }
}

pub proof fn lemma_exprs_text_index(m: Seq<ExprModel>)
    ensures
        exprs_text(m).len() == m.len(),
        forall|j: int| 0 <= j < m.len() ==> #[trigger] exprs_text(m)[j] == expr_text(m[j]),
    decreases m.len(),
{
    if m.len() > 0 {
        lemma_exprs_text_index(m.drop_last());
        assert forall|j: int| 0 <= j < m.len() implies #[trigger] exprs_text(m)[j] == expr_text(
            m[j],
        ) by {
            if j < m.len() - 1 {
                assert(m.drop_last()[j] == m[j]);
            }
        }
    }
}

pub proof fn lemma_exprs_text_len(s: Seq<Expression>)
    ensures
        exprs_text(exprs_model(s)).len() == s.len(),
        forall|j: int|
            0 <= j < s.len() ==> #[trigger] exprs_text(exprs_model(s))[j] == expr_text(
                expr_model(s[j]),
            ),
{
    lemma_exprs_model_index(s);
    lemma_exprs_text_index(exprs_model(s));
}

/// Printing a statement sequence one statement longer appends that
/// statement's text.
pub proof fn lemma_stmts_text_take(s: Seq<Statement>, i: int)
    requires
        0 <= i < s.len(),
    ensures
        stmts_text(stmts_model(s.take(i + 1))) == stmts_text(stmts_model(s.take(i))) + stmt_text(
            stmt_model(s[i]),
        ),
{
    assert(s.take(i + 1).drop_last() =~= s.take(i));
    let m = stmts_model(s.take(i));
    assert(stmts_model(s.take(i + 1)) == m.push(stmt_model(s[i])));
    assert(m.push(stmt_model(s[i])).drop_last() =~= m);
}

} // verus!
