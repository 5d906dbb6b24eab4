//! Expressions: a closed recursive tagged union, exclusively owned and never
//! mutated after construction.

use vstd::prelude::*;
use crate::token::{Token, TokenModel};
use crate::value::{Val, Value};

verus! {

/// A left-associative binary operator application.
#[derive(Debug)]
pub struct BinaryExpression {
    pub left: Expression,
    pub operator: Token,
    pub right: Expression,
}

/// A parenthesized expression.
#[derive(Debug)]
pub struct GroupingExpression {
    pub expr: Expression,
}

/// A literal value.
#[derive(Debug)]
pub struct LiteralExpression {
    pub value: Value,
}

/// A prefix operator application.
#[derive(Debug)]
pub struct UnaryExpression {
    pub operator: Token,
    pub right: Expression,
}

/// A postfix operator application; the target must be a bare variable.
#[derive(Debug)]
pub struct PostfixExpression {
    pub left: Expression,
    pub operator: Token,
}

/// A variable read.
#[derive(Debug)]
pub struct VariableExpression {
    pub name: Token,
}

/// An assignment to an existing variable.
#[derive(Debug)]
pub struct AssignExpression {
    pub name: Token,
    pub value: Expression,
}

/// A short-circuit `and`/`or` application.
#[derive(Debug)]
pub struct LogicalExpression {
    pub left: Expression,
    pub operator: Token,
    pub right: Expression,
}

/// An expression tree.
#[derive(Debug)]
pub enum Expression {
    Binary(Box<BinaryExpression>),
    Grouping(Box<GroupingExpression>),
    Literal(Box<LiteralExpression>),
    Unary(Box<UnaryExpression>),
    Postfix(Box<PostfixExpression>),
    Variable(Box<VariableExpression>),
    Assign(Box<AssignExpression>),
    Logical(Box<LogicalExpression>),
}

/// The model of a binary application.
pub struct BinaryModel {
    pub left: ExprModel,
    pub operator: TokenModel,
    pub right: ExprModel,
}

/// The model of a parenthesized expression.
pub struct GroupingModel {
    pub expr: ExprModel,
}

/// The model of a literal.
pub struct LiteralModel {
    pub value: Val,
}

/// The model of a prefix application.
pub struct UnaryModel {
    pub operator: TokenModel,
    pub right: ExprModel,
}

/// The model of a postfix application.
pub struct PostfixModel {
    pub left: ExprModel,
    pub operator: TokenModel,
}

/// The model of a variable read.
pub struct VariableModel {
    pub name: TokenModel,
}

/// The model of an assignment.
pub struct AssignModel {
    pub name: TokenModel,
    pub value: ExprModel,
}

/// The model of a short-circuit application.
pub struct LogicalModel {
    pub left: ExprModel,
    pub operator: TokenModel,
    pub right: ExprModel,
}

/// The model of an expression tree: what the parser's contract yields and
/// the denotational semantics consume.
pub enum ExprModel {
    Binary(Box<BinaryModel>),
    Grouping(Box<GroupingModel>),
    Literal(Box<LiteralModel>),
    Unary(Box<UnaryModel>),
    Postfix(Box<PostfixModel>),
    Variable(Box<VariableModel>),
    Assign(Box<AssignModel>),
    Logical(Box<LogicalModel>),
}

/// The model a binary node denotes.
pub open spec fn binary_model(b: BinaryExpression) -> BinaryModel
    decreases b,
{
    BinaryModel { left: expr_model(b.left), operator: b.operator@, right: expr_model(b.right) }
}

/// The model a grouping node denotes.
pub open spec fn grouping_model(g: GroupingExpression) -> GroupingModel
    decreases g,
{
    GroupingModel { expr: expr_model(g.expr) }
}

/// The model a literal node denotes.
pub open spec fn literal_model(l: LiteralExpression) -> LiteralModel {
    LiteralModel { value: l.value@ }
}

/// The model a unary node denotes.
pub open spec fn unary_model(u: UnaryExpression) -> UnaryModel
    decreases u,
{
    UnaryModel { operator: u.operator@, right: expr_model(u.right) }
}

/// The model a postfix node denotes.
pub open spec fn postfix_model(p: PostfixExpression) -> PostfixModel
    decreases p,
{
    PostfixModel { left: expr_model(p.left), operator: p.operator@ }
}

/// The model a variable node denotes.
pub open spec fn variable_model(v: VariableExpression) -> VariableModel {
    VariableModel { name: v.name@ }
}

/// The model an assignment node denotes.
pub open spec fn assign_model(a: AssignExpression) -> AssignModel
    decreases a,
{
    AssignModel { name: a.name@, value: expr_model(a.value) }
}

/// The model a short-circuit node denotes.
pub open spec fn logical_model(l: LogicalExpression) -> LogicalModel
    decreases l,
{
    LogicalModel { left: expr_model(l.left), operator: l.operator@, right: expr_model(l.right) }
}

/// The model an expression tree denotes: the same tree over token models
/// and value models.
pub open spec fn expr_model(e: Expression) -> ExprModel
    decreases e,
{
    match e {
        Expression::Binary(b) => ExprModel::Binary(Box::new(binary_model(*b))),
        Expression::Grouping(g) => ExprModel::Grouping(Box::new(grouping_model(*g))),
        Expression::Literal(l) => ExprModel::Literal(Box::new(literal_model(*l))),
        Expression::Unary(u) => ExprModel::Unary(Box::new(unary_model(*u))),
        Expression::Postfix(p) => ExprModel::Postfix(Box::new(postfix_model(*p))),
        Expression::Variable(v) => ExprModel::Variable(Box::new(variable_model(*v))),
        Expression::Assign(a) => ExprModel::Assign(Box::new(assign_model(*a))),
        Expression::Logical(l) => ExprModel::Logical(Box::new(logical_model(*l))),
    }
}

} // verus!
