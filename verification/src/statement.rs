//! Statements: the executable tree the parser hands to the interpreter.

use vstd::prelude::*;
use crate::expression::{expr_model, ExprModel, Expression};
use crate::token::{Token, TokenModel};

verus! {

/// An expression evaluated for its effects.
#[derive(Debug)]
pub struct ExpressionStatement {
    pub expr: Expression,
}

/// Evaluate an expression and write its canonical text to the output.
#[derive(Debug)]
pub struct PrintStatement {
    pub expr: Expression,
}

/// Declare a variable in the current frame, with an optional initializer.
#[derive(Debug)]
pub struct VarStatement {
    pub name: Token,
    pub initializer: Option<Expression>,
}

/// A braced block: its statements run in one fresh child frame.
#[derive(Debug)]
pub struct BlockStatement {
    pub statements: Vec<Statement>,
}

/// A conditional with block bodies.
#[derive(Debug)]
pub struct IfStatement {
    pub condition: Expression,
    pub then_branch: BlockStatement,
    pub else_branch: Option<BlockStatement>,
}

/// A loop re-running its block body while the condition is truthy.
#[derive(Debug)]
pub struct WhileStatement {
    pub condition: Expression,
    pub body: BlockStatement,
}

/// A statement tree.
#[derive(Debug)]
pub enum Statement {
    Expression(ExpressionStatement),
    Print(PrintStatement),
    Var(VarStatement),
    Block(BlockStatement),
    If(IfStatement),
    While(WhileStatement),
}

/// The model of an expression statement.
pub struct ExpressionStmtModel {
    pub expr: ExprModel,
}

/// The model of a print statement.
pub struct PrintModel {
    pub expr: ExprModel,
}

/// The model of a variable declaration.
pub struct VarModel {
    pub name: TokenModel,
    pub initializer: Option<ExprModel>,
}

/// The model of a block.
pub struct BlockModel {
    pub statements: Seq<StmtModel>,
}

/// The model of a conditional.
pub struct IfModel {
    pub condition: ExprModel,
    pub then_branch: BlockModel,
    pub else_branch: Option<BlockModel>,
}

/// The model of a loop.
pub struct WhileModel {
    pub condition: ExprModel,
    pub body: BlockModel,
}

/// The model of a statement tree: what the parser's contract yields and the
/// denotational semantics consume.
pub enum StmtModel {
    Expression(ExpressionStmtModel),
    Print(PrintModel),
    Var(VarModel),
    Block(BlockModel),
    If(IfModel),
    While(WhileModel),
}

/// The model a print statement denotes.
pub open spec fn print_model(p: PrintStatement) -> PrintModel
    decreases p,
{
    PrintModel { expr: expr_model(p.expr) }
}

/// The model an expression statement denotes.
pub open spec fn expr_stmt_model(e: ExpressionStatement) -> ExpressionStmtModel
    decreases e,
{
    ExpressionStmtModel { expr: expr_model(e.expr) }
}

/// The model a variable declaration denotes.
pub open spec fn var_model(v: VarStatement) -> VarModel
    decreases v,
{
    VarModel {
        name: v.name@,
        initializer: match v.initializer {
            Some(e) => Some(expr_model(e)),
            None => None,
        },
    }
}

/// The model a block denotes.
pub open spec fn block_model(b: BlockStatement) -> BlockModel
    decreases b,
{
    BlockModel { statements: stmts_model(b.statements@) }
}

/// The model a conditional denotes.
pub open spec fn if_model(i: IfStatement) -> IfModel
    decreases i,
{
    IfModel {
        condition: expr_model(i.condition),
        then_branch: block_model(i.then_branch),
        else_branch: match i.else_branch {
            Some(b) => Some(block_model(b)),
            None => None,
        },
    }
}

/// The model a loop denotes.
pub open spec fn while_model(w: WhileStatement) -> WhileModel
    decreases w,
{
    WhileModel { condition: expr_model(w.condition), body: block_model(w.body) }
}

/// The model a statement tree denotes.
pub open spec fn stmt_model(s: Statement) -> StmtModel
    decreases s,
{
    match s {
        Statement::Expression(e) => StmtModel::Expression(expr_stmt_model(e)),
        Statement::Print(p) => StmtModel::Print(print_model(p)),
        Statement::Var(v) => StmtModel::Var(var_model(v)),
        Statement::Block(b) => StmtModel::Block(block_model(b)),
        Statement::If(i) => StmtModel::If(if_model(i)),
        Statement::While(w) => StmtModel::While(while_model(w)),
    }
}

/// The models a statement sequence denotes, in order.
pub open spec fn stmts_model(ss: Seq<Statement>) -> Seq<StmtModel>
    decreases ss,
{
    if ss.len() == 0 {
        Seq::empty()
    } else {
        stmts_model(ss.drop_last()).push(stmt_model(ss.last()))
    }
}

/// The model sequence is the pointwise model of the sequence.
pub proof fn lemma_stmts_model(ss: Seq<Statement>)
    ensures
        stmts_model(ss).len() == ss.len(),
        forall|i: int| 0 <= i < ss.len() ==> stmts_model(ss)[i] == stmt_model(#[trigger] ss[i]),
    decreases ss.len(),
{
    if ss.len() > 0 {
        lemma_stmts_model(ss.drop_last());
        assert forall|i: int| 0 <= i < ss.len() implies stmts_model(ss)[i] == stmt_model(
            #[trigger] ss[i],
        ) by {
            if i < ss.len() - 1 {
                assert(ss.drop_last()[i] == ss[i]);
                assert(stmts_model(ss)[i] == stmts_model(ss.drop_last())[i]);
            } else {
                assert(stmts_model(ss)[i] == stmt_model(ss.last()));
            }
        }
    }
}

} // verus!
