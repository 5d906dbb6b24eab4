//! The recursive-descent parser: a token sequence in, a statement sequence
//! out.
//!
//! Parsing is total: any failure while parsing one top-level declaration is
//! reported, the cursor is resynchronized just past the next statement
//! boundary, and a harmless no-op statement takes the failed one's place, so
//! [`Parser::parse`] always returns a complete program for any input.
//!
//! The expression grammar, lowest to highest precedence: assignment, the
//! short-circuit `or`/`and` level, equality (`is`/`not`), comparison, term,
//! factor, unary, postfix, primary. Binary levels are left-associative;
//! assignment is right-associative and only valid on a bare variable.

use vstd::prelude::*;
use vstd::string::*;
use crate::error::{Diag, ErrorHandler};
use crate::expression::{
    expr_model, AssignExpression, AssignModel, BinaryExpression, BinaryModel, ExprModel,
    Expression, GroupingExpression, GroupingModel, LiteralExpression, LiteralModel,
    LogicalExpression, LogicalModel, PostfixExpression, PostfixModel, UnaryExpression, UnaryModel,
    VariableExpression, VariableModel,
};
use crate::lexer::toks_model;
use crate::statement::{
    stmts_model, BlockModel, BlockStatement, ExpressionStatement, ExpressionStmtModel,
    IfStatement, IfModel, PrintModel, PrintStatement, Statement, StmtModel, VarModel,
    VarStatement, WhileModel, WhileStatement,
};
use crate::token::{Token, TokenModel, TokenType};
use crate::value::{Val, Value};

verus! {

/// A parse error: the token it was attributed to and its text. It never
/// escapes [`Parser::parse`]: recovery turns it into a no-op statement.
pub struct ParseError {
    pub token: Token,
    pub message: String,
}

/// A diagnostic list that extends an extension of another extends it too.
broadcast proof fn lemma_prefix_trans(a: Seq<Diag>, b: Seq<Diag>, c: Seq<Diag>)
    requires
        #[trigger] a.is_prefix_of(b),
        #[trigger] b.is_prefix_of(c),
    ensures
        a.is_prefix_of(c),
{
    assert(a =~= c.subrange(0, a.len() as int));
}


/// The outcome of parsing one expression: where the cursor stands, the
/// diagnostics so far, and the tree, or nothing after a parse error.
pub struct PExpr {
    pub cursor: int,
    pub diags: Seq<Diag>,
    pub expr: Option<ExprModel>,
}

/// The outcome of parsing one statement.
pub struct PStmt {
    pub cursor: int,
    pub diags: Seq<Diag>,
    pub stmt: Option<StmtModel>,
}

/// The outcome of parsing a block's statement run.
pub struct PBlock {
    pub cursor: int,
    pub diags: Seq<Diag>,
    pub stmts: Option<Seq<StmtModel>>,
}

/// The outcome of parsing one top-level declaration: recovery makes it
/// total.
pub struct PDecl {
    pub cursor: int,
    pub diags: Seq<Diag>,
    pub stmt: StmtModel,
}

/// Consuming one token of a required kind: on any other token the message
/// is reported at the current token's line and nothing is consumed.
pub open spec fn p_consume(
    ts: Seq<TokenModel>,
    i: int,
    d: Seq<Diag>,
    t: TokenType,
    msg: Seq<char>,
) -> (int, Seq<Diag>, bool) {
    if 0 <= i < ts.len() && ts[i].token_type == t && ts[i].token_type != TokenType::EOF {
        (i + 1, d, true)
    } else {
        (i, d.push(Diag { line: ts[i].line, message: msg }), false)
    }
}

/// The grammar of a primary expression: a literal, a variable, or a
/// parenthesized group; anything else is a parse error at the current
/// token.
pub open spec fn p_primary(ts: Seq<TokenModel>, i: int, d: Seq<Diag>) -> PExpr
    decreases ts.len() - i, 3int,
{
    if 0 <= i < ts.len() && ts[i].token_type == TokenType::Identifier {
        PExpr {
            cursor: i + 1,
            diags: d,
            expr: Some(ExprModel::Variable(Box::new(VariableModel { name: ts[i] }))),
        }
    } else if 0 <= i < ts.len() && ts[i].token_type == TokenType::False {
        PExpr {
            cursor: i + 1,
            diags: d,
            expr: Some(ExprModel::Literal(Box::new(LiteralModel { value: Val::Bool(false) }))),
        }
    } else if 0 <= i < ts.len() && ts[i].token_type == TokenType::True {
        PExpr {
            cursor: i + 1,
            diags: d,
            expr: Some(ExprModel::Literal(Box::new(LiteralModel { value: Val::Bool(true) }))),
        }
    } else if 0 <= i < ts.len() && ts[i].token_type == TokenType::NoneKw {
        PExpr {
            cursor: i + 1,
            diags: d,
            expr: Some(ExprModel::Literal(Box::new(LiteralModel { value: Val::Null }))),
        }
    } else if 0 <= i < ts.len() && (ts[i].token_type == TokenType::Number || ts[i].token_type
        == TokenType::String) {
        PExpr {
            cursor: i + 1,
            diags: d,
            expr: Some(ExprModel::Literal(Box::new(LiteralModel { value: ts[i].literal }))),
        }
    } else if 0 <= i < ts.len() && ts[i].token_type == TokenType::ParenOpen {
        let r = p_expression(ts, i + 1, d);
        match r.expr {
            None => r,
            Some(e) => {
                let (j, d2, ok) = p_consume(
                    ts,
                    r.cursor,
                    r.diags,
                    TokenType::ParenClose,
                    "Expected ')' after expression."@,
                );
                if ok {
                    PExpr {
                        cursor: j,
                        diags: d2,
                        expr: Some(ExprModel::Grouping(Box::new(GroupingModel { expr: e }))),
                    }
                } else {
                    PExpr { cursor: j, diags: d2, expr: None }
                }
            },
        }
    } else {
        PExpr {
            cursor: i,
            diags: d.push(Diag { line: ts[i].line, message: "Expected an expression."@ }),
            expr: None,
        }
    }
}

/// The postfix operators following a parsed primary, folded left to right.
pub open spec fn p_postfix_tail(ts: Seq<TokenModel>, i: int, d: Seq<Diag>, acc: ExprModel) -> PExpr
    decreases ts.len() - i, 4int,
{
    if 0 <= i < ts.len() && (ts[i].token_type == TokenType::PlusPlus || ts[i].token_type
        == TokenType::MinusMinus) {
        p_postfix_tail(
            ts,
            i + 1,
            d,
            ExprModel::Postfix(Box::new(PostfixModel { left: acc, operator: ts[i] })),
        )
    } else {
        PExpr { cursor: i, diags: d, expr: Some(acc) }
    }
}

/// The grammar of a postfix expression: a primary followed by any run of
/// `++`/`--`.
pub open spec fn p_postfix(ts: Seq<TokenModel>, i: int, d: Seq<Diag>) -> PExpr
    decreases ts.len() - i, 5int,
{
    let r = p_primary(ts, i, d);
    match r.expr {
        None => r,
        Some(e) => if r.cursor >= i && r.cursor <= ts.len() {
            p_postfix_tail(ts, r.cursor, r.diags, e)
        } else {
            r
        },
    }
}

/// The grammar of a unary expression: any run of `not`/`-` before a
/// postfix expression.
pub open spec fn p_unary(ts: Seq<TokenModel>, i: int, d: Seq<Diag>) -> PExpr
    decreases ts.len() - i, 6int,
{
    if 0 <= i < ts.len() && (ts[i].token_type == TokenType::Not || ts[i].token_type
        == TokenType::Minus) {
        let r = p_unary(ts, i + 1, d);
        match r.expr {
            None => r,
            Some(e) => PExpr {
                cursor: r.cursor,
                diags: r.diags,
                expr: Some(ExprModel::Unary(Box::new(UnaryModel { operator: ts[i], right: e }))),
            },
        }
    } else {
        p_postfix(ts, i, d)
    }
}

/// A left-associative binary level: the operators already parsed fold into
/// a left-deepening tree.
pub open spec fn p_factor_tail(ts: Seq<TokenModel>, i: int, d: Seq<Diag>, acc: ExprModel) -> PExpr
    decreases ts.len() - i, 7int,
{
    if 0 <= i < ts.len() && (ts[i].token_type == TokenType::Divide || ts[i].token_type
        == TokenType::Multiply) {
        let r = p_unary(ts, i + 1, d);
        match r.expr {
            None => r,
            Some(right) => {
                let folded = ExprModel::Binary(
                    Box::new(BinaryModel { left: acc, operator: ts[i], right }),
                );
                if r.cursor > i && r.cursor <= ts.len() {
                    p_factor_tail(ts, r.cursor, r.diags, folded)
                } else {
                    PExpr { cursor: r.cursor, diags: r.diags, expr: Some(folded) }
                }
            },
        }
    } else {
        PExpr { cursor: i, diags: d, expr: Some(acc) }
    }
}

/// The grammar of a factor: `*`/`/` over unaries, left-associative.
pub open spec fn p_factor(ts: Seq<TokenModel>, i: int, d: Seq<Diag>) -> PExpr
    decreases ts.len() - i, 8int,
{
    let r = p_unary(ts, i, d);
    match r.expr {
        None => r,
        Some(e) => if r.cursor >= i && r.cursor <= ts.len() {
            p_factor_tail(ts, r.cursor, r.diags, e)
        } else {
            r
        },
    }
}

/// A left-associative binary level over factors.
pub open spec fn p_term_tail(ts: Seq<TokenModel>, i: int, d: Seq<Diag>, acc: ExprModel) -> PExpr
    decreases ts.len() - i, 9int,
{
    if 0 <= i < ts.len() && (ts[i].token_type == TokenType::Minus || ts[i].token_type
        == TokenType::Plus) {
        let r = p_factor(ts, i + 1, d);
        match r.expr {
            None => r,
            Some(right) => {
                let folded = ExprModel::Binary(
                    Box::new(BinaryModel { left: acc, operator: ts[i], right }),
                );
                if r.cursor > i && r.cursor <= ts.len() {
                    p_term_tail(ts, r.cursor, r.diags, folded)
                } else {
                    PExpr { cursor: r.cursor, diags: r.diags, expr: Some(folded) }
                }
            },
        }
    } else {
        PExpr { cursor: i, diags: d, expr: Some(acc) }
    }
}

/// The grammar of a term: `+`/`-` over factors, left-associative.
pub open spec fn p_term(ts: Seq<TokenModel>, i: int, d: Seq<Diag>) -> PExpr
    decreases ts.len() - i, 10int,
{
    let r = p_factor(ts, i, d);
    match r.expr {
        None => r,
        Some(e) => if r.cursor >= i && r.cursor <= ts.len() {
            p_term_tail(ts, r.cursor, r.diags, e)
        } else {
            r
        },
    }
}

/// A left-associative binary level over terms.
pub open spec fn p_comparison_tail(
    ts: Seq<TokenModel>,
    i: int,
    d: Seq<Diag>,
    acc: ExprModel,
) -> PExpr
    decreases ts.len() - i, 11int,
{
    if 0 <= i < ts.len() && (ts[i].token_type == TokenType::Greater || ts[i].token_type
        == TokenType::GreaterEqual || ts[i].token_type == TokenType::Less || ts[i].token_type
        == TokenType::LessEqual) {
        let r = p_term(ts, i + 1, d);
        match r.expr {
            None => r,
            Some(right) => {
                let folded = ExprModel::Binary(
                    Box::new(BinaryModel { left: acc, operator: ts[i], right }),
                );
                if r.cursor > i && r.cursor <= ts.len() {
                    p_comparison_tail(ts, r.cursor, r.diags, folded)
                } else {
                    PExpr { cursor: r.cursor, diags: r.diags, expr: Some(folded) }
                }
            },
        }
    } else {
        PExpr { cursor: i, diags: d, expr: Some(acc) }
    }
}

/// The grammar of a comparison: `<`, `<=`, `>`, `>=` over terms,
/// left-associative.
pub open spec fn p_comparison(ts: Seq<TokenModel>, i: int, d: Seq<Diag>) -> PExpr
    decreases ts.len() - i, 12int,
{
    let r = p_term(ts, i, d);
    match r.expr {
        None => r,
        Some(e) => if r.cursor >= i && r.cursor <= ts.len() {
            p_comparison_tail(ts, r.cursor, r.diags, e)
        } else {
            r
        },
    }
}

/// A left-associative binary level over comparisons.
pub open spec fn p_equality_tail(
    ts: Seq<TokenModel>,
    i: int,
    d: Seq<Diag>,
    acc: ExprModel,
) -> PExpr
    decreases ts.len() - i, 13int,
{
    if 0 <= i < ts.len() && (ts[i].token_type == TokenType::Is || ts[i].token_type
        == TokenType::Not) {
        let r = p_comparison(ts, i + 1, d);
        match r.expr {
            None => r,
            Some(right) => {
                let folded = ExprModel::Binary(
                    Box::new(BinaryModel { left: acc, operator: ts[i], right }),
                );
                if r.cursor > i && r.cursor <= ts.len() {
                    p_equality_tail(ts, r.cursor, r.diags, folded)
                } else {
                    PExpr { cursor: r.cursor, diags: r.diags, expr: Some(folded) }
                }
            },
        }
    } else {
        PExpr { cursor: i, diags: d, expr: Some(acc) }
    }
}

/// The grammar of an equality: `is`/`not` over comparisons,
/// left-associative.
pub open spec fn p_equality(ts: Seq<TokenModel>, i: int, d: Seq<Diag>) -> PExpr
    decreases ts.len() - i, 14int,
{
    let r = p_comparison(ts, i, d);
    match r.expr {
        None => r,
        Some(e) => if r.cursor >= i && r.cursor <= ts.len() {
            p_equality_tail(ts, r.cursor, r.diags, e)
        } else {
            r
        },
    }
}

/// The short-circuit level over equalities.
pub open spec fn p_logical_tail(
    ts: Seq<TokenModel>,
    i: int,
    d: Seq<Diag>,
    acc: ExprModel,
) -> PExpr
    decreases ts.len() - i, 15int,
{
    if 0 <= i < ts.len() && (ts[i].token_type == TokenType::Or || ts[i].token_type
        == TokenType::And) {
        let r = p_equality(ts, i + 1, d);
        match r.expr {
            None => r,
            Some(right) => {
                let folded = ExprModel::Logical(
                    Box::new(LogicalModel { left: acc, operator: ts[i], right }),
                );
                if r.cursor > i && r.cursor <= ts.len() {
                    p_logical_tail(ts, r.cursor, r.diags, folded)
                } else {
                    PExpr { cursor: r.cursor, diags: r.diags, expr: Some(folded) }
                }
            },
        }
    } else {
        PExpr { cursor: i, diags: d, expr: Some(acc) }
    }
}

/// The grammar of the `or`/`and` level over equalities, left-associative.
pub open spec fn p_logical(ts: Seq<TokenModel>, i: int, d: Seq<Diag>) -> PExpr
    decreases ts.len() - i, 16int,
{
    let r = p_equality(ts, i, d);
    match r.expr {
        None => r,
        Some(e) => if r.cursor >= i && r.cursor <= ts.len() {
            p_logical_tail(ts, r.cursor, r.diags, e)
        } else {
            r
        },
    }
}

/// The grammar of an assignment: right-associative, only valid on a bare
/// variable; an invalid target is reported but the original expression is
/// kept and parsing proceeds.
pub open spec fn p_assignment(ts: Seq<TokenModel>, i: int, d: Seq<Diag>) -> PExpr
    decreases ts.len() - i, 17int,
{
    let r = p_logical(ts, i, d);
    match r.expr {
        None => r,
        Some(e) => if 0 <= r.cursor < ts.len() && ts[r.cursor].token_type == TokenType::Equal
            && r.cursor >= i {
            let r2 = p_assignment(ts, r.cursor + 1, r.diags);
            match r2.expr {
                None => r2,
                Some(v) => match e {
                    ExprModel::Variable(x) => PExpr {
                        cursor: r2.cursor,
                        diags: r2.diags,
                        expr: Some(
                            ExprModel::Assign(Box::new(AssignModel { name: x.name, value: v })),
                        ),
                    },
                    _ => PExpr {
                        cursor: r2.cursor,
                        diags: r2.diags.push(
                            Diag {
                                line: ts[r.cursor].line,
                                message: "Invalid assignment target."@,
                            },
                        ),
                        expr: Some(e),
                    },
                },
            }
        } else {
            r
        },
    }
}

/// The grammar of an expression.
pub open spec fn p_expression(ts: Seq<TokenModel>, i: int, d: Seq<Diag>) -> PExpr
    decreases ts.len() - i, 18int,
{
    p_assignment(ts, i, d)
}


/// The grammar of a print statement, the marker already consumed.
pub open spec fn p_print(ts: Seq<TokenModel>, i: int, d: Seq<Diag>) -> PStmt
    decreases ts.len() - i, 20int,
{
    let r = p_expression(ts, i, d);
    match r.expr {
        None => PStmt { cursor: r.cursor, diags: r.diags, stmt: None },
        Some(e) => {
            let (j, d2, ok) = p_consume(
                ts,
                r.cursor,
                r.diags,
                TokenType::StatementEnd,
                "Expected statement end after expression."@,
            );
            PStmt {
                cursor: j,
                diags: d2,
                stmt: if ok {
                    Some(StmtModel::Print(PrintModel { expr: e }))
                } else {
                    None
                },
            }
        },
    }
}

/// The grammar of an expression statement.
pub open spec fn p_exprstmt(ts: Seq<TokenModel>, i: int, d: Seq<Diag>) -> PStmt
    decreases ts.len() - i, 20int,
{
    let r = p_expression(ts, i, d);
    match r.expr {
        None => PStmt { cursor: r.cursor, diags: r.diags, stmt: None },
        Some(e) => {
            let (j, d2, ok) = p_consume(
                ts,
                r.cursor,
                r.diags,
                TokenType::StatementEnd,
                "Expected statement end after expression."@,
            );
            PStmt {
                cursor: j,
                diags: d2,
                stmt: if ok {
                    Some(StmtModel::Expression(ExpressionStmtModel { expr: e }))
                } else {
                    None
                },
            }
        },
    }
}

/// The grammar of a variable declaration, the keyword already consumed.
pub open spec fn p_var(ts: Seq<TokenModel>, i: int, d: Seq<Diag>) -> PStmt
    decreases ts.len() - i, 20int,
{
    let (j, d1, ok) = p_consume(ts, i, d, TokenType::Identifier, "Expected variable name."@);
    if !ok {
        PStmt { cursor: j, diags: d1, stmt: None }
    } else {
        let name = ts[i];
        if 0 <= j < ts.len() && ts[j].token_type == TokenType::Equal {
            let r = p_expression(ts, j + 1, d1);
            match r.expr {
                None => PStmt { cursor: r.cursor, diags: r.diags, stmt: None },
                Some(init) => {
                    let (k, d2, ok2) = p_consume(
                        ts,
                        r.cursor,
                        r.diags,
                        TokenType::StatementEnd,
                        "Expected statement end after variable declaration."@,
                    );
                    PStmt {
                        cursor: k,
                        diags: d2,
                        stmt: if ok2 {
                            Some(StmtModel::Var(VarModel { name, initializer: Some(init) }))
                        } else {
                            None
                        },
                    }
                },
            }
        } else {
            let (k, d2, ok2) = p_consume(
                ts,
                j,
                d1,
                TokenType::StatementEnd,
                "Expected statement end after variable declaration."@,
            );
            PStmt {
                cursor: k,
                diags: d2,
                stmt: if ok2 {
                    Some(StmtModel::Var(VarModel { name, initializer: None }))
                } else {
                    None
                },
            }
        }
    }
}

/// Where the recovery scan stops: just past the nearest following
/// statement boundary, or at the end of the stream.
pub open spec fn sync_end(ts: Seq<TokenModel>, i: int) -> int
    decreases ts.len() - i,
{
    if !(0 <= i < ts.len()) {
        i
    } else if ts[i].token_type == TokenType::EOF {
        i
    } else if ts[i].token_type == TokenType::StatementEnd {
        i + 1
    } else {
        sync_end(ts, i + 1)
    }
}

/// The no-op statement substituted for a failed declaration.
pub open spec fn noop_stmt() -> StmtModel {
    StmtModel::Expression(
        ExpressionStmtModel { expr: ExprModel::Literal(Box::new(LiteralModel { value: Val::Null })) },
    )
}

/// The grammar of the declarations of a block, up to and including the
/// closing brace.
pub open spec fn p_block_tail(
    ts: Seq<TokenModel>,
    i: int,
    d: Seq<Diag>,
    acc: Seq<StmtModel>,
) -> PBlock
    decreases ts.len() - i, 23int,
{
    if 0 <= i < ts.len() && ts[i].token_type != TokenType::BraceClose && ts[i].token_type
        != TokenType::EOF {
        let r = p_declaration(ts, i, d);
        if r.cursor > i && r.cursor <= ts.len() {
            p_block_tail(ts, r.cursor, r.diags, acc.push(r.stmt))
        } else {
            PBlock { cursor: r.cursor, diags: r.diags, stmts: Some(acc.push(r.stmt)) }
        }
    } else {
        let (j, d2, ok) = p_consume(ts, i, d, TokenType::BraceClose, "Expected '}' after block."@);
        PBlock {
            cursor: j,
            diags: d2,
            stmts: if ok {
                Some(acc)
            } else {
                None
            },
        }
    }
}

/// The grammar of a block's statement run, the opening brace already
/// consumed.
pub open spec fn p_block(ts: Seq<TokenModel>, i: int, d: Seq<Diag>) -> PBlock
    decreases ts.len() - i, 24int,
{
    p_block_tail(ts, i, d, Seq::empty())
}

/// The grammar of a block statement.
pub open spec fn p_block_statement(ts: Seq<TokenModel>, i: int, d: Seq<Diag>) -> PStmt
    decreases ts.len() - i, 25int,
{
    let r = p_block(ts, i, d);
    match r.stmts {
        None => PStmt { cursor: r.cursor, diags: r.diags, stmt: None },
        Some(stmts) => {
            let (j, d2, ok) = p_consume(
                ts,
                r.cursor,
                r.diags,
                TokenType::StatementEnd,
                "Expected statement end after block."@,
            );
            PStmt {
                cursor: j,
                diags: d2,
                stmt: if ok {
                    Some(StmtModel::Block(BlockModel { statements: stmts }))
                } else {
                    None
                },
            }
        },
    }
}

/// The rest of a conditional after its then-block: an optional `else`
/// block directly after the closing brace, then the statement boundary.
#[verifier::rlimit(100)]
pub open spec fn p_if_rest(
    ts: Seq<TokenModel>,
    i: int,
    d: Seq<Diag>,
    cond: ExprModel,
    then_stmts: Seq<StmtModel>,
) -> PStmt
    decreases ts.len() - i, 19int,
{
    if 0 <= i < ts.len() && ts[i].token_type == TokenType::Else {
        let (k, d2, ok) = p_consume(ts, i + 1, d, TokenType::BraceOpen, "Expected '{' after else."@);
        if !ok {
            PStmt { cursor: k, diags: d2, stmt: None }
        } else {
            let re = p_block(ts, k, d2);
            match re.stmts {
                None => PStmt { cursor: re.cursor, diags: re.diags, stmt: None },
                Some(else_stmts) => {
                    let (m, d4, ok3) = p_consume(
                        ts,
                        re.cursor,
                        re.diags,
                        TokenType::StatementEnd,
                        "Expected statement end after block."@,
                    );
                    PStmt {
                        cursor: m,
                        diags: d4,
                        stmt: if ok3 {
                            Some(
                                StmtModel::If(
                                    IfModel {
                                        condition: cond,
                                        then_branch: BlockModel { statements: then_stmts },
                                        else_branch: Some(BlockModel { statements: else_stmts }),
                                    },
                                ),
                            )
                        } else {
                            None
                        },
                    }
                },
            }
        }
    } else {
        let (m, d4, ok3) = p_consume(
            ts,
            i,
            d,
            TokenType::StatementEnd,
            "Expected statement end after block."@,
        );
        PStmt {
            cursor: m,
            diags: d4,
            stmt: if ok3 {
                Some(
                    StmtModel::If(
                        IfModel {
                            condition: cond,
                            then_branch: BlockModel { statements: then_stmts },
                            else_branch: None,
                        },
                    ),
                )
            } else {
                None
            },
        }
    }
}

/// The body of a conditional after its condition: the braced then-block,
/// then the rest.
#[verifier::rlimit(100)]
pub open spec fn p_if_then(ts: Seq<TokenModel>, i: int, d: Seq<Diag>, cond: ExprModel) -> PStmt
    decreases ts.len() - i, 19int,
{
    let (j, d2, ok) = p_consume(ts, i, d, TokenType::BraceOpen, "Expected '{' after condition."@);
    if !ok {
        PStmt { cursor: j, diags: d2, stmt: None }
    } else {
        let rb = p_block(ts, j, d2);
        match rb.stmts {
            None => PStmt { cursor: rb.cursor, diags: rb.diags, stmt: None },
            Some(then_stmts) => if rb.cursor > i && rb.cursor <= ts.len() {
                p_if_rest(ts, rb.cursor, rb.diags, cond, then_stmts)
            } else {
                PStmt { cursor: rb.cursor, diags: rb.diags, stmt: None }
            },
        }
    }
}

/// The grammar of a conditional, the keyword already consumed: a
/// condition, a block, and an optional `else` block.
#[verifier::rlimit(100)]
pub open spec fn p_if(ts: Seq<TokenModel>, i: int, d: Seq<Diag>) -> PStmt
    decreases ts.len() - i, 20int,
{
    let r = p_expression(ts, i, d);
    match r.expr {
        None => PStmt { cursor: r.cursor, diags: r.diags, stmt: None },
        Some(cond) => if r.cursor >= i && r.cursor <= ts.len() {
            p_if_then(ts, r.cursor, r.diags, cond)
        } else {
            PStmt { cursor: r.cursor, diags: r.diags, stmt: None }
        },
    }
}

/// The body of a loop after its condition: the braced block, then the
/// statement boundary.
#[verifier::rlimit(100)]
pub open spec fn p_while_rest(ts: Seq<TokenModel>, i: int, d: Seq<Diag>, cond: ExprModel) -> PStmt
    decreases ts.len() - i, 19int,
{
    let (j, d2, ok) = p_consume(ts, i, d, TokenType::BraceOpen, "Expected '{' after condition."@);
    if !ok {
        PStmt { cursor: j, diags: d2, stmt: None }
    } else {
        let rb = p_block(ts, j, d2);
        match rb.stmts {
            None => PStmt { cursor: rb.cursor, diags: rb.diags, stmt: None },
            Some(body) => {
                let (m, d4, ok3) = p_consume(
                    ts,
                    rb.cursor,
                    rb.diags,
                    TokenType::StatementEnd,
                    "Expected statement end after block."@,
                );
                PStmt {
                    cursor: m,
                    diags: d4,
                    stmt: if ok3 {
                        Some(
                            StmtModel::While(
                                WhileModel { condition: cond, body: BlockModel { statements: body } },
                            ),
                        )
                    } else {
                        None
                    },
                }
            },
        }
    }
}

/// The grammar of a loop, the keyword already consumed: a condition and a
/// block body.
#[verifier::rlimit(100)]
pub open spec fn p_while(ts: Seq<TokenModel>, i: int, d: Seq<Diag>) -> PStmt
    decreases ts.len() - i, 20int,
{
    let r = p_expression(ts, i, d);
    match r.expr {
        None => PStmt { cursor: r.cursor, diags: r.diags, stmt: None },
        Some(cond) => if r.cursor >= i && r.cursor <= ts.len() {
            p_while_rest(ts, r.cursor, r.diags, cond)
        } else {
            PStmt { cursor: r.cursor, diags: r.diags, stmt: None }
        },
    }
}

/// The grammar of a statement: print, block, conditional, loop, or a plain
/// expression statement.
pub open spec fn p_statement(ts: Seq<TokenModel>, i: int, d: Seq<Diag>) -> PStmt
    decreases ts.len() - i, 21int,
{
    if 0 <= i < ts.len() && ts[i].token_type == TokenType::DollarLess {
        p_print(ts, i + 1, d)
    } else if 0 <= i < ts.len() && ts[i].token_type == TokenType::BraceOpen {
        p_block_statement(ts, i + 1, d)
    } else if 0 <= i < ts.len() && ts[i].token_type == TokenType::If {
        p_if(ts, i + 1, d)
    } else if 0 <= i < ts.len() && ts[i].token_type == TokenType::While {
        p_while(ts, i + 1, d)
    } else {
        p_exprstmt(ts, i, d)
    }
}

/// The grammar of one top-level declaration: a parse error is reported,
/// the cursor moves just past the next statement boundary, and a no-op
/// statement stands in for the failed one, so declarations always parse.
pub open spec fn p_declaration(ts: Seq<TokenModel>, i: int, d: Seq<Diag>) -> PDecl
    decreases ts.len() - i, 22int,
{
    let r = if 0 <= i < ts.len() && ts[i].token_type == TokenType::Offering {
        p_var(ts, i + 1, d)
    } else {
        p_statement(ts, i, d)
    };
    match r.stmt {
        Some(s) => PDecl { cursor: r.cursor, diags: r.diags, stmt: s },
        None => PDecl { cursor: sync_end(ts, r.cursor), diags: r.diags, stmt: noop_stmt() },
    }
}

/// The grammar of a whole program: top-level declarations to the end of
/// the stream, blank statements skipped.
pub open spec fn p_parse_tail(
    ts: Seq<TokenModel>,
    i: int,
    d: Seq<Diag>,
    acc: Seq<StmtModel>,
) -> (Seq<StmtModel>, Seq<Diag>)
    decreases ts.len() - i, 26int,
{
    if 0 <= i < ts.len() && ts[i].token_type != TokenType::EOF {
        if ts[i].token_type == TokenType::StatementEnd {
            p_parse_tail(ts, i + 1, d, acc)
        } else {
            let r = p_declaration(ts, i, d);
            if r.cursor > i && r.cursor <= ts.len() {
                p_parse_tail(ts, r.cursor, r.diags, acc.push(r.stmt))
            } else {
                (acc.push(r.stmt), r.diags)
            }
        }
    } else {
        (acc, d)
    }
}

/// The parse of a whole token stream from a cursor: the complete statement
/// sequence and the diagnostics of the parse.
pub open spec fn p_parse(ts: Seq<TokenModel>, i: int, d: Seq<Diag>) -> (Seq<StmtModel>, Seq<Diag>) {
    p_parse_tail(ts, i, d, Seq::empty())
}


/// The models of a parser's tokens.
pub open spec fn ptoks(p: Parser) -> Seq<TokenModel> {
    toks_model(p.tokens@)
}

/// The model of an expression-parse result.
pub open spec fn expr_opt(r: Result<Expression, ParseError>) -> Option<ExprModel> {
    match r {
        Ok(e) => Some(expr_model(e)),
        Err(_) => None,
    }
}

/// The model of a statement-parse result.
pub open spec fn stmt_opt(r: Result<Statement, ParseError>) -> Option<StmtModel> {
    match r {
        Ok(st) => Some(crate::statement::stmt_model(st)),
        Err(_) => None,
    }
}

/// The model of a block-parse result.
pub open spec fn block_opt(r: Result<Vec<Statement>, ParseError>) -> Option<Seq<StmtModel>> {
    match r {
        Ok(v) => Some(stmts_model(v@)),
        Err(_) => None,
    }
}

/// The parser.
pub struct Parser {
    pub tokens: Vec<Token>,
    pub current: usize,
    pub last_token: Option<Token>,
    pub reporter: ErrorHandler,
}

impl Parser {
    /// The parser's invariant: the stream ends with the `EOF` sentinel and
    /// the cursor never passes it.
    pub open spec fn wf(&self) -> bool {
        &&& self.tokens@.len() >= 1
        &&& self.tokens@.last().token_type == TokenType::EOF
        &&& self.current < self.tokens@.len()
    }

    /// Whether the cursor is on the `EOF` sentinel.
    pub open spec fn spec_at_end(&self) -> bool {
        self.tokens@[self.current as int].token_type == TokenType::EOF
    }

    /// What stays fixed across every parsing step: the tokens themselves,
    /// and the cursor only ever moves forward.
    pub open spec fn steps_from(pre: Parser, post: Parser) -> bool {
        &&& post.wf()
        &&& post.tokens == pre.tokens
        &&& post.current >= pre.current
        &&& pre.reporter@.is_prefix_of(post.reporter@)
    }

    /// A parser at the beginning of a token stream.
    pub fn new(tokens: Vec<Token>) -> (p: Parser)
        requires
            tokens@.len() >= 1,
            tokens@.last().token_type == TokenType::EOF,
        ensures
            p.wf(),
            p.tokens == tokens,
            p.current == 0,
            p.reporter@ == Seq::<Diag>::empty(),
    {
        Parser { tokens, current: 0, last_token: None, reporter: ErrorHandler::new() }
    }

    /// Report a parse error at a token and hand it back for propagation.
    fn error(&mut self, token: Token, msg: &str) -> (e: ParseError)
        requires
            old(self).wf(),
        ensures
            final(self).wf(),
            final(self).tokens == old(self).tokens,
            final(self).current == old(self).current,
            final(self).last_token == old(self).last_token,
            final(self).reporter@ == old(self).reporter@.push(
                Diag { line: token.line as nat, message: msg@ },
            ),
            old(self).reporter@.is_prefix_of(final(self).reporter@),
    {
        self.reporter.report(token.line, msg);
        proof {
            assert(old(self).reporter@.is_prefix_of(self.reporter@));
        }
        ParseError { token, message: String::from_str(msg) }
    }

    /// The token under the cursor.
    fn peek(&self) -> (r: &Token)
        requires
            self.wf(),
        ensures
            *r == self.tokens@[self.current as int],
    {
        &self.tokens[self.current]
    }

    /// Whether the cursor is at the end of the stream.
    fn at_end(&self) -> (r: bool)
        requires
            self.wf(),
        ensures
            r == self.spec_at_end(),
    {
        self.peek().token_type == TokenType::EOF
    }

    /// Whether the token under the cursor has the given kind; never true at
    /// the end of the stream.
    fn check(&self, typ: TokenType) -> (r: bool)
        requires
            self.wf(),
        ensures
            r == (!self.spec_at_end() && self.tokens@[self.current as int].token_type == typ),
    {
        if self.at_end() {
            false
        } else {
            self.peek().token_type == typ
        }
    }

    /// The most recently consumed token.
    fn previous(&self) -> (r: Token)
        requires
            self.last_token is Some,
        ensures
            r@ == self.last_token->0@,
    {
        match &self.last_token {
            Some(t) => t.clone(),
            None => Token::new(TokenType::EOF, String::new(), Value::Nil, 0),
        }
    }

    /// Consume and return the token under the cursor; the cursor never
    /// passes the `EOF` sentinel.
    fn advance(&mut self) -> (r: Token)
        requires
            old(self).wf(),
        ensures
            final(self).wf(),
            final(self).tokens == old(self).tokens,
            final(self).reporter == old(self).reporter,
            r@ == old(self).tokens@[old(self).current as int]@,
            final(self).last_token matches Some(t) && t@ == r@,
            !old(self).spec_at_end() ==> final(self).current == old(self).current + 1,
            old(self).spec_at_end() ==> final(self).current == old(self).current,
    {
        let n = self.tokens.len();
        let ret = self.tokens[self.current].clone();
        if self.tokens[self.current].token_type != TokenType::EOF {
            proof {
                assert(self.current < n);
            }
            self.current = self.current + 1;
        }
        let again = ret.clone();
        self.last_token = Some(again);
        ret
    }

    /// Consume the next token exactly when its kind is one of `types`.
    fn match_next(&mut self, types: &[TokenType]) -> (r: bool)
        requires
            old(self).wf(),
        ensures
            final(self).wf(),
            final(self).tokens == old(self).tokens,
            final(self).reporter == old(self).reporter,
            r == (!old(self).spec_at_end() && types@.contains(
                old(self).tokens@[old(self).current as int].token_type,
            )),
            r ==> final(self).current == old(self).current + 1
                && (final(self).last_token matches Some(t)
                && t@ == old(self).tokens@[old(self).current as int]@),
            !r ==> *final(self) == *old(self),
    {
        let n = types.len();
        let mut i: usize = 0;
        while i < n
            invariant
                i <= n,
                n == types@.len(),
                self == old(self),
                old(self).wf(),
                forall|j: int|
                    0 <= j < i ==> !(old(self).spec_at_end() == false && (#[trigger] types@[j])
                        == old(self).tokens@[old(self).current as int].token_type),
            decreases n - i,
        {
            if self.check(types[i]) {
                let _ = self.advance();
                return true;
            }
            i = i + 1;
        }
        false
    }

    /// Discard tokens until just past the next statement boundary: the
    /// parser's recovery action after a parse error.
    fn synchronize(&mut self)
        requires
            old(self).wf(),
        ensures
            final(self).wf(),
            final(self).tokens == old(self).tokens,
            final(self).reporter == old(self).reporter,
            final(self).current >= old(self).current,
            !old(self).spec_at_end() ==> final(self).current > old(self).current,
            final(self).current as int == sync_end(ptoks(*old(self)), old(self).current as int),
    {
        let ghost ts = ptoks(*old(self));
        let ghost c0: int = old(self).current as int;
        proof {
            assert(ts[c0] == self.tokens@[c0]@);
        }
        let mut t = self.advance();
        while !self.at_end() && t.token_type != TokenType::StatementEnd
            invariant
                self.wf(),
                self.tokens == old(self).tokens,
                ts == ptoks(*old(self)),
                c0 == old(self).current,
                self.reporter == old(self).reporter,
                self.current >= old(self).current,
                !old(self).spec_at_end() ==> self.current > old(self).current,
                sync_end(ts, c0) == (if t@.token_type == TokenType::StatementEnd {
                    self.current as int
                } else {
                    sync_end(ts, self.current as int)
                }),
            decreases self.tokens@.len() - self.current,
        {
            proof {
                assert(ts[self.current as int] == self.tokens@[self.current as int]@);
            }
            t = self.advance();
        }
        proof {
            assert(ts[self.current as int] == self.tokens@[self.current as int]@);
        }
    }

    /// Consume a token of the given kind, or report a parse error at the
    /// current token.
    fn consume_if(&mut self, token_type: TokenType, err_msg: &str) -> (r: Result<Token, ParseError>)
        requires
            old(self).wf(),
        ensures
            Self::steps_from(*old(self), *final(self)),
            r matches Ok(t) ==> final(self).current == old(self).current + 1 && t@ == old(
                self,
            ).tokens@[old(self).current as int]@ && (final(self).last_token matches Some(lt)
                && lt@ == t@),
            r is Ok == (!old(self).spec_at_end() && old(self).tokens@[old(
                self,
            ).current as int].token_type == token_type),
            ({
                let (j, d2, ok) = p_consume(
                    ptoks(*old(self)),
                    old(self).current as int,
                    old(self).reporter@,
                    token_type,
                    err_msg@,
                );
                &&& final(self).current as int == j
                &&& final(self).reporter@ == d2
                &&& r is Ok == ok
            }),
    {
        proof {
            assert(ptoks(*self)[self.current as int] == self.tokens@[self.current as int]@);
        }
        if self.check(token_type) {
            let t = self.advance();
            proof {
                assert(self.reporter@.is_prefix_of(self.reporter@));
            }
            return Ok(t);
        }
        let bad = self.tokens[self.current].clone();
        Err(self.error(bad, err_msg))
    }

    /// Parse a primary expression: a literal, a variable, or a
    /// parenthesized group.
    #[verifier::rlimit(100)]
    #[verifier::spinoff_prover]
    fn handle_primary(&mut self) -> (r: Result<Expression, ParseError>)
        requires
            old(self).wf(),
        ensures
            Self::steps_from(*old(self), *final(self)),
            r is Ok ==> final(self).current > old(self).current,
            (PExpr {
                cursor: final(self).current as int,
                diags: final(self).reporter@,
                expr: expr_opt(r),
            }) == p_primary(ptoks(*old(self)), old(self).current as int, old(self).reporter@),
        decreases self.tokens@.len() - self.current, 3nat,
    {
        broadcast use lemma_prefix_trans;

        let ghost ts = ptoks(*old(self));
        let ghost c0: int = old(self).current as int;
        proof {
            assert(ts[c0] == old(self).tokens@[c0]@);
        }
        if self.check(TokenType::Identifier) {
            let name = self.advance();
            Ok(Expression::Variable(Box::new(VariableExpression { name })))
        } else if self.check(TokenType::False) {
            let _ = self.advance();
            Ok(Expression::Literal(Box::new(LiteralExpression { value: Value::Boolean(false) })))
        } else if self.check(TokenType::True) {
            let _ = self.advance();
            Ok(Expression::Literal(Box::new(LiteralExpression { value: Value::Boolean(true) })))
        } else if self.check(TokenType::NoneKw) {
            let _ = self.advance();
            Ok(Expression::Literal(Box::new(LiteralExpression { value: Value::Nil })))
        } else if self.check(TokenType::Number) || self.check(TokenType::String) {
            let t = self.advance();
            Ok(Expression::Literal(Box::new(LiteralExpression { value: t.literal })))
        } else if self.check(TokenType::ParenOpen) {
            let _ = self.advance();
            let expr = match self.handle_expression() {
                Ok(e) => e,
                Err(e) => {
                    return Err(e);
                },
            };
            match self.consume_if(TokenType::ParenClose, "Expected ')' after expression.") {
                Ok(_) => {},
                Err(e) => {
                    return Err(e);
                },
            }
            Ok(Expression::Grouping(Box::new(GroupingExpression { expr })))
        } else {
            let bad = self.tokens[self.current].clone();
            Err(self.error(bad, "Expected an expression."))
        }
    }

    /// Parse a postfix application: a primary expression followed by any
    /// run of `++`/`--`.
    #[verifier::rlimit(100)]
    #[verifier::spinoff_prover]
    fn handle_postfix(&mut self) -> (r: Result<Expression, ParseError>)
        requires
            old(self).wf(),
        ensures
            Self::steps_from(*old(self), *final(self)),
            r is Ok ==> final(self).current > old(self).current,
            (PExpr {
                cursor: final(self).current as int,
                diags: final(self).reporter@,
                expr: expr_opt(r),
            }) == p_postfix(ptoks(*old(self)), old(self).current as int, old(self).reporter@),
        decreases self.tokens@.len() - self.current, 4nat,
    {
        broadcast use lemma_prefix_trans;

        let ghost ts = ptoks(*old(self));
        let ghost c0: int = old(self).current as int;
        let ghost d0 = old(self).reporter@;
        let mut expr = match self.handle_primary() {
            Ok(e) => e,
            Err(e) => {
                return Err(e);
            },
        };
        proof {
            assert(p_postfix(ts, c0, d0) == p_postfix_tail(
                ts,
                self.current as int,
                self.reporter@,
                expr_model(expr),
            ));
        }
        while self.match_next(&[TokenType::PlusPlus, TokenType::MinusMinus])
            invariant
                self.wf(),
                self.tokens == old(self).tokens,
                ts == ptoks(*old(self)),
                c0 == old(self).current,
                d0 == old(self).reporter@,
                self.current > old(self).current,
                old(self).reporter@.is_prefix_of(self.reporter@),
                p_postfix(ts, c0, d0) == p_postfix_tail(
                    ts,
                    self.current as int,
                    self.reporter@,
                    expr_model(expr),
                ),
            decreases self.tokens@.len() - self.current,
        {
            let ghost cur: int = self.current - 1;
            proof {
                assert(ts[cur] == self.tokens@[cur]@);
            }
            let operator = self.previous();
            expr = Expression::Postfix(Box::new(PostfixExpression { left: expr, operator }));
        }
        Ok(expr)
    }

    /// Parse a unary application: any run of `not`/`-` before a postfix
    /// expression.
    #[verifier::rlimit(100)]
    #[verifier::spinoff_prover]
    fn handle_unary(&mut self) -> (r: Result<Expression, ParseError>)
        requires
            old(self).wf(),
        ensures
            Self::steps_from(*old(self), *final(self)),
            r is Ok ==> final(self).current > old(self).current,
            (PExpr {
                cursor: final(self).current as int,
                diags: final(self).reporter@,
                expr: expr_opt(r),
            }) == p_unary(ptoks(*old(self)), old(self).current as int, old(self).reporter@),
        decreases self.tokens@.len() - self.current, 5nat,
    {
        broadcast use lemma_prefix_trans;

        let ghost ts = ptoks(*old(self));
        let ghost c0: int = old(self).current as int;
        proof {
            assert(ts[c0] == old(self).tokens@[c0]@);
        }
        if self.match_next(&[TokenType::Not, TokenType::Minus]) {
            let operator = self.previous();
            let right = match self.handle_unary() {
                Ok(e) => e,
                Err(e) => {
                    return Err(e);
                },
            };
            return Ok(Expression::Unary(Box::new(UnaryExpression { operator, right })));
        }
        self.handle_postfix()
    }

    /// Parse a factor level: left-associative.
    #[verifier::rlimit(100)]
    #[verifier::spinoff_prover]
    fn handle_factor(&mut self) -> (r: Result<Expression, ParseError>)
        requires
            old(self).wf(),
        ensures
            Self::steps_from(*old(self), *final(self)),
            r is Ok ==> final(self).current > old(self).current,
            (PExpr {
                cursor: final(self).current as int,
                diags: final(self).reporter@,
                expr: expr_opt(r),
            }) == p_factor(ptoks(*old(self)), old(self).current as int, old(self).reporter@),
        decreases self.tokens@.len() - self.current, 6nat,
    {
        broadcast use lemma_prefix_trans;

        let ghost ts = ptoks(*old(self));
        let ghost c0: int = old(self).current as int;
        let ghost d0 = old(self).reporter@;
        let mut expr = match self.handle_unary() {
            Ok(e) => e,
            Err(e) => {
                return Err(e);
            },
        };
        proof {
            assert(p_factor(ts, c0, d0) == p_factor_tail(
                ts,
                self.current as int,
                self.reporter@,
                expr_model(expr),
            ));
        }
        while self.match_next(&[TokenType::Divide, TokenType::Multiply])
            invariant
                self.wf(),
                self.tokens == old(self).tokens,
                ts == ptoks(*old(self)),
                c0 == old(self).current,
                d0 == old(self).reporter@,
                self.current > old(self).current,
                old(self).reporter@.is_prefix_of(self.reporter@),
                p_factor(ts, c0, d0) == p_factor_tail(
                    ts,
                    self.current as int,
                    self.reporter@,
                    expr_model(expr),
                ),
            decreases self.tokens@.len() - self.current,
        {
            let ghost cur: int = self.current - 1;
            proof {
                assert(ts[cur] == self.tokens@[cur]@);
            }
            let operator = self.previous();
            let right = match self.handle_unary() {
                Ok(e) => e,
                Err(e) => {
                    return Err(e);
                },
            };
            expr = Expression::Binary(Box::new(BinaryExpression { left: expr, operator, right }));
        }
        Ok(expr)
    }

    /// Parse a term level: left-associative.
    #[verifier::rlimit(100)]
    #[verifier::spinoff_prover]
    fn handle_term(&mut self) -> (r: Result<Expression, ParseError>)
        requires
            old(self).wf(),
        ensures
            Self::steps_from(*old(self), *final(self)),
            r is Ok ==> final(self).current > old(self).current,
            (PExpr {
                cursor: final(self).current as int,
                diags: final(self).reporter@,
                expr: expr_opt(r),
            }) == p_term(ptoks(*old(self)), old(self).current as int, old(self).reporter@),
        decreases self.tokens@.len() - self.current, 7nat,
    {
        broadcast use lemma_prefix_trans;

        let ghost ts = ptoks(*old(self));
        let ghost c0: int = old(self).current as int;
        let ghost d0 = old(self).reporter@;
        let mut expr = match self.handle_factor() {
            Ok(e) => e,
            Err(e) => {
                return Err(e);
            },
        };
        proof {
            assert(p_term(ts, c0, d0) == p_term_tail(
                ts,
                self.current as int,
                self.reporter@,
                expr_model(expr),
            ));
        }
        while self.match_next(&[TokenType::Minus, TokenType::Plus])
            invariant
                self.wf(),
                self.tokens == old(self).tokens,
                ts == ptoks(*old(self)),
                c0 == old(self).current,
                d0 == old(self).reporter@,
                self.current > old(self).current,
                old(self).reporter@.is_prefix_of(self.reporter@),
                p_term(ts, c0, d0) == p_term_tail(
                    ts,
                    self.current as int,
                    self.reporter@,
                    expr_model(expr),
                ),
            decreases self.tokens@.len() - self.current,
        {
            let ghost cur: int = self.current - 1;
            proof {
                assert(ts[cur] == self.tokens@[cur]@);
            }
            let operator = self.previous();
            let right = match self.handle_factor() {
                Ok(e) => e,
                Err(e) => {
                    return Err(e);
                },
            };
            expr = Expression::Binary(Box::new(BinaryExpression { left: expr, operator, right }));
        }
        Ok(expr)
    }

    /// Parse a comparison level: left-associative.
    #[verifier::rlimit(100)]
    #[verifier::spinoff_prover]
    fn handle_comparison(&mut self) -> (r: Result<Expression, ParseError>)
        requires
            old(self).wf(),
        ensures
            Self::steps_from(*old(self), *final(self)),
            r is Ok ==> final(self).current > old(self).current,
            (PExpr {
                cursor: final(self).current as int,
                diags: final(self).reporter@,
                expr: expr_opt(r),
            }) == p_comparison(ptoks(*old(self)), old(self).current as int, old(self).reporter@),
        decreases self.tokens@.len() - self.current, 8nat,
    {
        broadcast use lemma_prefix_trans;

        let ghost ts = ptoks(*old(self));
        let ghost c0: int = old(self).current as int;
        let ghost d0 = old(self).reporter@;
        let mut expr = match self.handle_term() {
            Ok(e) => e,
            Err(e) => {
                return Err(e);
            },
        };
        proof {
            assert(p_comparison(ts, c0, d0) == p_comparison_tail(
                ts,
                self.current as int,
                self.reporter@,
                expr_model(expr),
            ));
        }
        while self.match_next(&[TokenType::Greater, TokenType::GreaterEqual, TokenType::Less, TokenType::LessEqual])
            invariant
                self.wf(),
                self.tokens == old(self).tokens,
                ts == ptoks(*old(self)),
                c0 == old(self).current,
                d0 == old(self).reporter@,
                self.current > old(self).current,
                old(self).reporter@.is_prefix_of(self.reporter@),
                p_comparison(ts, c0, d0) == p_comparison_tail(
                    ts,
                    self.current as int,
                    self.reporter@,
                    expr_model(expr),
                ),
            decreases self.tokens@.len() - self.current,
        {
            let ghost cur: int = self.current - 1;
            proof {
                assert(ts[cur] == self.tokens@[cur]@);
            }
            let operator = self.previous();
            let right = match self.handle_term() {
                Ok(e) => e,
                Err(e) => {
                    return Err(e);
                },
            };
            expr = Expression::Binary(Box::new(BinaryExpression { left: expr, operator, right }));
        }
        Ok(expr)
    }

    /// Parse a equality level: left-associative.
    #[verifier::rlimit(100)]
    #[verifier::spinoff_prover]
    fn handle_equality(&mut self) -> (r: Result<Expression, ParseError>)
        requires
            old(self).wf(),
        ensures
            Self::steps_from(*old(self), *final(self)),
            r is Ok ==> final(self).current > old(self).current,
            (PExpr {
                cursor: final(self).current as int,
                diags: final(self).reporter@,
                expr: expr_opt(r),
            }) == p_equality(ptoks(*old(self)), old(self).current as int, old(self).reporter@),
        decreases self.tokens@.len() - self.current, 9nat,
    {
        broadcast use lemma_prefix_trans;

        let ghost ts = ptoks(*old(self));
        let ghost c0: int = old(self).current as int;
        let ghost d0 = old(self).reporter@;
        let mut expr = match self.handle_comparison() {
            Ok(e) => e,
            Err(e) => {
                return Err(e);
            },
        };
        proof {
            assert(p_equality(ts, c0, d0) == p_equality_tail(
                ts,
                self.current as int,
                self.reporter@,
                expr_model(expr),
            ));
        }
        while self.match_next(&[TokenType::Is, TokenType::Not])
            invariant
                self.wf(),
                self.tokens == old(self).tokens,
                ts == ptoks(*old(self)),
                c0 == old(self).current,
                d0 == old(self).reporter@,
                self.current > old(self).current,
                old(self).reporter@.is_prefix_of(self.reporter@),
                p_equality(ts, c0, d0) == p_equality_tail(
                    ts,
                    self.current as int,
                    self.reporter@,
                    expr_model(expr),
                ),
            decreases self.tokens@.len() - self.current,
        {
            let ghost cur: int = self.current - 1;
            proof {
                assert(ts[cur] == self.tokens@[cur]@);
            }
            let operator = self.previous();
            let right = match self.handle_comparison() {
                Ok(e) => e,
                Err(e) => {
                    return Err(e);
                },
            };
            expr = Expression::Binary(Box::new(BinaryExpression { left: expr, operator, right }));
        }
        Ok(expr)
    }

    /// Parse a logical level: left-associative.
    #[verifier::rlimit(100)]
    #[verifier::spinoff_prover]
    fn handle_logical(&mut self) -> (r: Result<Expression, ParseError>)
        requires
            old(self).wf(),
        ensures
            Self::steps_from(*old(self), *final(self)),
            r is Ok ==> final(self).current > old(self).current,
            (PExpr {
                cursor: final(self).current as int,
                diags: final(self).reporter@,
                expr: expr_opt(r),
            }) == p_logical(ptoks(*old(self)), old(self).current as int, old(self).reporter@),
        decreases self.tokens@.len() - self.current, 10nat,
    {
        broadcast use lemma_prefix_trans;

        let ghost ts = ptoks(*old(self));
        let ghost c0: int = old(self).current as int;
        let ghost d0 = old(self).reporter@;
        let mut expr = match self.handle_equality() {
            Ok(e) => e,
            Err(e) => {
                return Err(e);
            },
        };
        proof {
            assert(p_logical(ts, c0, d0) == p_logical_tail(
                ts,
                self.current as int,
                self.reporter@,
                expr_model(expr),
            ));
        }
        while self.match_next(&[TokenType::Or, TokenType::And])
            invariant
                self.wf(),
                self.tokens == old(self).tokens,
                ts == ptoks(*old(self)),
                c0 == old(self).current,
                d0 == old(self).reporter@,
                self.current > old(self).current,
                old(self).reporter@.is_prefix_of(self.reporter@),
                p_logical(ts, c0, d0) == p_logical_tail(
                    ts,
                    self.current as int,
                    self.reporter@,
                    expr_model(expr),
                ),
            decreases self.tokens@.len() - self.current,
        {
            let ghost cur: int = self.current - 1;
            proof {
                assert(ts[cur] == self.tokens@[cur]@);
            }
            let operator = self.previous();
            let right = match self.handle_equality() {
                Ok(e) => e,
                Err(e) => {
                    return Err(e);
                },
            };
            expr = Expression::Logical(Box::new(LogicalExpression { left: expr, operator, right }));
        }
        Ok(expr)
    }

    /// Parse an assignment: right-associative, and only valid when the
    /// left-hand side is a bare variable; an invalid target is reported but
    /// does not abort parsing.
    #[verifier::rlimit(100)]
    #[verifier::spinoff_prover]
    fn handle_assignment(&mut self) -> (r: Result<Expression, ParseError>)
        requires
            old(self).wf(),
        ensures
            Self::steps_from(*old(self), *final(self)),
            r is Ok ==> final(self).current > old(self).current,
            (PExpr {
                cursor: final(self).current as int,
                diags: final(self).reporter@,
                expr: expr_opt(r),
            }) == p_assignment(ptoks(*old(self)), old(self).current as int, old(self).reporter@),
        decreases self.tokens@.len() - self.current, 11nat,
    {
        broadcast use lemma_prefix_trans;

        let ghost ts = ptoks(*old(self));
        let expr = match self.handle_logical() {
            Ok(e) => e,
            Err(e) => {
                return Err(e);
            },
        };
        let ghost cur: int = self.current as int;
        proof {
            assert(ts[cur] == self.tokens@[cur]@);
        }
        if self.check(TokenType::Equal) {
            let equals = self.advance();
            let value = match self.handle_assignment() {
                Ok(e) => e,
                Err(e) => {
                    return Err(e);
                },
            };
            if let Expression::Variable(x) = expr {
                let name = x.name;
                return Ok(Expression::Assign(Box::new(AssignExpression { name, value })));
            }
            // Report, but keep parsing with the unmodified expression.
            let _ = self.error(equals, "Invalid assignment target.");
        }
        Ok(expr)
    }

    /// Parse an expression.
    fn handle_expression(&mut self) -> (r: Result<Expression, ParseError>)
        requires
            old(self).wf(),
        ensures
            Self::steps_from(*old(self), *final(self)),
            r is Ok ==> final(self).current > old(self).current,
            (PExpr {
                cursor: final(self).current as int,
                diags: final(self).reporter@,
                expr: expr_opt(r),
            }) == p_expression(ptoks(*old(self)), old(self).current as int, old(self).reporter@),
        decreases self.tokens@.len() - self.current, 12nat,
    {
        self.handle_assignment()
    }

    /// Parse a print statement: the print marker is already consumed.
    #[verifier::rlimit(100)]
    #[verifier::spinoff_prover]
    fn handle_print_statement(&mut self) -> (r: Result<Statement, ParseError>)
        requires
            old(self).wf(),
        ensures
            Self::steps_from(*old(self), *final(self)),
            r is Ok ==> final(self).current > old(self).current,
            (PStmt {
                cursor: final(self).current as int,
                diags: final(self).reporter@,
                stmt: stmt_opt(r),
            }) == p_print(ptoks(*old(self)), old(self).current as int, old(self).reporter@),
        decreases self.tokens@.len() - self.current, 14nat,
    {
        broadcast use lemma_prefix_trans;

        let expr = match self.handle_expression() {
            Ok(e) => e,
            Err(e) => {
                return Err(e);
            },
        };
        match self.consume_if(TokenType::StatementEnd, "Expected statement end after expression.") {
            Ok(_) => {},
            Err(e) => {
                return Err(e);
            },
        }
        Ok(Statement::Print(PrintStatement { expr }))
    }

    /// Parse an expression statement.
    #[verifier::rlimit(100)]
    #[verifier::spinoff_prover]
    fn handle_expression_statement(&mut self) -> (r: Result<Statement, ParseError>)
        requires
            old(self).wf(),
        ensures
            Self::steps_from(*old(self), *final(self)),
            r is Ok ==> final(self).current > old(self).current,
            (PStmt {
                cursor: final(self).current as int,
                diags: final(self).reporter@,
                stmt: stmt_opt(r),
            }) == p_exprstmt(ptoks(*old(self)), old(self).current as int, old(self).reporter@),
        decreases self.tokens@.len() - self.current, 14nat,
    {
        broadcast use lemma_prefix_trans;

        let expr = match self.handle_expression() {
            Ok(e) => e,
            Err(e) => {
                return Err(e);
            },
        };
        match self.consume_if(TokenType::StatementEnd, "Expected statement end after expression.") {
            Ok(_) => {},
            Err(e) => {
                return Err(e);
            },
        }
        Ok(Statement::Expression(ExpressionStatement { expr }))
    }

    /// Parse the declarations of a block up to and including the closing
    /// brace; the opening brace is already consumed.
    #[verifier::rlimit(100)]
    #[verifier::spinoff_prover]
    fn parse_block(&mut self) -> (r: Result<Vec<Statement>, ParseError>)
        requires
            old(self).wf(),
        ensures
            Self::steps_from(*old(self), *final(self)),
            r is Ok ==> final(self).current > old(self).current,
            (PBlock {
                cursor: final(self).current as int,
                diags: final(self).reporter@,
                stmts: block_opt(r),
            }) == p_block(ptoks(*old(self)), old(self).current as int, old(self).reporter@),
        decreases self.tokens@.len() - self.current, 19nat,
    {
        broadcast use lemma_prefix_trans;

        let ghost ts = ptoks(*old(self));
        let ghost c0: int = old(self).current as int;
        let ghost d0 = old(self).reporter@;
        let mut statements: Vec<Statement> = Vec::new();
        proof {
            assert(stmts_model(statements@) =~= Seq::<StmtModel>::empty());
        }
        while !self.check(TokenType::BraceClose) && !self.at_end()
            invariant
                self.wf(),
                self.tokens == old(self).tokens,
                ts == ptoks(*old(self)),
                c0 == old(self).current,
                d0 == old(self).reporter@,
                self.current >= old(self).current,
                old(self).reporter@.is_prefix_of(self.reporter@),
                p_block(ts, c0, d0) == p_block_tail(
                    ts,
                    self.current as int,
                    self.reporter@,
                    stmts_model(statements@),
                ),
            decreases self.tokens@.len() - self.current,
        {
            let ghost cur: int = self.current as int;
            proof {
                assert(ts[cur] == self.tokens@[cur]@);
            }
            let ghost pre_acc = statements@;
            let decl = self.handle_declaration();
            statements.push(decl);
            proof {
                assert(statements@.drop_last() =~= pre_acc);
            }
        }
        proof {
            assert(ts[self.current as int] == self.tokens@[self.current as int]@);
        }
        match self.consume_if(TokenType::BraceClose, "Expected '}' after block.") {
            Ok(_) => {},
            Err(e) => {
                return Err(e);
            },
        }
        Ok(statements)
    }

    /// Parse a block statement: the opening brace is already consumed.
    #[verifier::rlimit(100)]
    #[verifier::spinoff_prover]
    fn handle_block_statement(&mut self) -> (r: Result<Statement, ParseError>)
        requires
            old(self).wf(),
        ensures
            Self::steps_from(*old(self), *final(self)),
            r is Ok ==> final(self).current > old(self).current,
            (PStmt {
                cursor: final(self).current as int,
                diags: final(self).reporter@,
                stmt: stmt_opt(r),
            }) == p_block_statement(
                ptoks(*old(self)),
                old(self).current as int,
                old(self).reporter@,
            ),
        decreases self.tokens@.len() - self.current, 20nat,
    {
        broadcast use lemma_prefix_trans;

        let statements = match self.parse_block() {
            Ok(st) => st,
            Err(e) => {
                return Err(e);
            },
        };
        match self.consume_if(TokenType::StatementEnd, "Expected statement end after block.") {
            Ok(_) => {},
            Err(e) => {
                return Err(e);
            },
        }
        Ok(Statement::Block(BlockStatement { statements }))
    }

    /// Parse the body of a conditional after its condition: the braced
    /// then-block, and an optional `else` block directly after its closing
    /// brace.
    #[verifier::rlimit(100)]
    #[verifier::spinoff_prover]
    fn handle_if_body(&mut self, condition: Expression) -> (r: Result<Statement, ParseError>)
        requires
            old(self).wf(),
        ensures
            Self::steps_from(*old(self), *final(self)),
            r is Ok ==> final(self).current > old(self).current,
            (PStmt {
                cursor: final(self).current as int,
                diags: final(self).reporter@,
                stmt: stmt_opt(r),
            }) == p_if_then(
                ptoks(*old(self)),
                old(self).current as int,
                old(self).reporter@,
                expr_model(condition),
            ),
        decreases self.tokens@.len() - self.current, 13nat,
    {
        broadcast use lemma_prefix_trans;

        let ghost ts = ptoks(*old(self));
        let ghost c0: int = old(self).current as int;
        let ghost d0 = old(self).reporter@;
        match self.consume_if(TokenType::BraceOpen, "Expected '{' after condition.") {
            Ok(_) => {},
            Err(e) => {
                return Err(e);
            },
        }
        let then_statements = match self.parse_block() {
            Ok(st) => st,
            Err(e) => {
                return Err(e);
            },
        };
        let ghost mid: int = self.current as int;
        let ghost dmid = self.reporter@;
        proof {
            assert(ts[mid] == self.tokens@[mid]@);
            assert(p_if_then(ts, c0, d0, expr_model(condition)) == p_if_rest(
                ts,
                mid,
                dmid,
                expr_model(condition),
                stmts_model(then_statements@),
            ));
        }
        let mut else_branch: Option<BlockStatement> = None;
        if self.check(TokenType::Else) {
            let _ = self.advance();
            match self.consume_if(TokenType::BraceOpen, "Expected '{' after else.") {
                Ok(_) => {},
                Err(e) => {
                    return Err(e);
                },
            }
            let else_statements = match self.parse_block() {
                Ok(st) => st,
                Err(e) => {
                    return Err(e);
                },
            };
            else_branch = Some(BlockStatement { statements: else_statements });
        }
        match self.consume_if(TokenType::StatementEnd, "Expected statement end after block.") {
            Ok(_) => {},
            Err(e) => {
                return Err(e);
            },
        }
        Ok(
            Statement::If(
                IfStatement {
                    condition,
                    then_branch: BlockStatement { statements: then_statements },
                    else_branch,
                },
            ),
        )
    }

    /// Parse a conditional: the `if` keyword is already consumed. The
    /// bodies are blocks; an `else` must follow the closing brace of the
    /// then-block before any statement boundary.
    #[verifier::rlimit(100)]
    #[verifier::spinoff_prover]
    fn handle_if_statement(&mut self) -> (r: Result<Statement, ParseError>)
        requires
            old(self).wf(),
        ensures
            Self::steps_from(*old(self), *final(self)),
            r is Ok ==> final(self).current > old(self).current,
            (PStmt {
                cursor: final(self).current as int,
                diags: final(self).reporter@,
                stmt: stmt_opt(r),
            }) == p_if(ptoks(*old(self)), old(self).current as int, old(self).reporter@),
        decreases self.tokens@.len() - self.current, 14nat,
    {
        broadcast use lemma_prefix_trans;

        let condition = match self.handle_expression() {
            Ok(e) => e,
            Err(e) => {
                return Err(e);
            },
        };
        self.handle_if_body(condition)
    }

    /// Parse the body of a loop after its condition: the braced block,
    /// then the statement boundary.
    #[verifier::rlimit(100)]
    #[verifier::spinoff_prover]
    fn handle_while_body(&mut self, condition: Expression) -> (r: Result<Statement, ParseError>)
        requires
            old(self).wf(),
        ensures
            Self::steps_from(*old(self), *final(self)),
            r is Ok ==> final(self).current > old(self).current,
            (PStmt {
                cursor: final(self).current as int,
                diags: final(self).reporter@,
                stmt: stmt_opt(r),
            }) == p_while_rest(
                ptoks(*old(self)),
                old(self).current as int,
                old(self).reporter@,
                expr_model(condition),
            ),
        decreases self.tokens@.len() - self.current, 13nat,
    {
        broadcast use lemma_prefix_trans;

        match self.consume_if(TokenType::BraceOpen, "Expected '{' after condition.") {
            Ok(_) => {},
            Err(e) => {
                return Err(e);
            },
        }
        let body_statements = match self.parse_block() {
            Ok(st) => st,
            Err(e) => {
                return Err(e);
            },
        };
        match self.consume_if(TokenType::StatementEnd, "Expected statement end after block.") {
            Ok(_) => {},
            Err(e) => {
                return Err(e);
            },
        }
        Ok(
            Statement::While(
                WhileStatement { condition, body: BlockStatement { statements: body_statements } },
            ),
        )
    }

    /// Parse a loop: the `while` keyword is already consumed; the body is
    /// a block.
    #[verifier::rlimit(100)]
    #[verifier::spinoff_prover]
    fn handle_while_statement(&mut self) -> (r: Result<Statement, ParseError>)
        requires
            old(self).wf(),
        ensures
            Self::steps_from(*old(self), *final(self)),
            r is Ok ==> final(self).current > old(self).current,
            (PStmt {
                cursor: final(self).current as int,
                diags: final(self).reporter@,
                stmt: stmt_opt(r),
            }) == p_while(ptoks(*old(self)), old(self).current as int, old(self).reporter@),
        decreases self.tokens@.len() - self.current, 14nat,
    {
        broadcast use lemma_prefix_trans;

        let condition = match self.handle_expression() {
            Ok(e) => e,
            Err(e) => {
                return Err(e);
            },
        };
        self.handle_while_body(condition)
    }

    /// Parse one statement.
    #[verifier::rlimit(100)]
    #[verifier::spinoff_prover]
    fn handle_statement(&mut self) -> (r: Result<Statement, ParseError>)
        requires
            old(self).wf(),
        ensures
            Self::steps_from(*old(self), *final(self)),
            r is Ok ==> final(self).current > old(self).current,
            (PStmt {
                cursor: final(self).current as int,
                diags: final(self).reporter@,
                stmt: stmt_opt(r),
            }) == p_statement(ptoks(*old(self)), old(self).current as int, old(self).reporter@),
        decreases self.tokens@.len() - self.current, 15nat,
    {
        broadcast use lemma_prefix_trans;

        let ghost ts = ptoks(*old(self));
        let ghost c0: int = old(self).current as int;
        proof {
            assert(ts[c0] == old(self).tokens@[c0]@);
        }
        if self.check(TokenType::DollarLess) {
            let _ = self.advance();
            return self.handle_print_statement();
        } else if self.check(TokenType::BraceOpen) {
            let _ = self.advance();
            return self.handle_block_statement();
        } else if self.check(TokenType::If) {
            let _ = self.advance();
            return self.handle_if_statement();
        } else if self.check(TokenType::While) {
            let _ = self.advance();
            return self.handle_while_statement();
        }
        self.handle_expression_statement()
    }

    /// Parse a variable declaration: the `offering` keyword is already
    /// consumed.
    #[verifier::rlimit(100)]
    #[verifier::spinoff_prover]
    fn handle_var_declaration(&mut self) -> (r: Result<Statement, ParseError>)
        requires
            old(self).wf(),
        ensures
            Self::steps_from(*old(self), *final(self)),
            r is Ok ==> final(self).current > old(self).current,
            (PStmt {
                cursor: final(self).current as int,
                diags: final(self).reporter@,
                stmt: stmt_opt(r),
            }) == p_var(ptoks(*old(self)), old(self).current as int, old(self).reporter@),
        decreases self.tokens@.len() - self.current, 14nat,
    {
        broadcast use lemma_prefix_trans;

        let ghost ts = ptoks(*old(self));
        let name = match self.consume_if(TokenType::Identifier, "Expected variable name.") {
            Ok(t) => t,
            Err(e) => {
                return Err(e);
            },
        };
        let ghost j: int = self.current as int;
        proof {
            assert(ts[j] == self.tokens@[j]@);
        }
        let mut initializer: Option<Expression> = None;
        if self.check(TokenType::Equal) {
            let _ = self.advance();
            let init = match self.handle_expression() {
                Ok(e) => e,
                Err(e) => {
                    return Err(e);
                },
            };
            initializer = Some(init);
        }
        match self.consume_if(
            TokenType::StatementEnd,
            "Expected statement end after variable declaration.",
        ) {
            Ok(_) => {},
            Err(e) => {
                return Err(e);
            },
        }
        Ok(Statement::Var(VarStatement { name, initializer }))
    }

    /// Parse one top-level declaration. A parse error is reported, the
    /// cursor resynchronized past the next statement boundary, and a no-op
    /// statement returned in the failed one's place, so parsing never
    /// aborts.
    #[verifier::rlimit(100)]
    #[verifier::spinoff_prover]
    fn handle_declaration(&mut self) -> (r: Statement)
        requires
            old(self).wf(),
            !old(self).spec_at_end(),
        ensures
            Self::steps_from(*old(self), *final(self)),
            final(self).current > old(self).current,
            (PDecl {
                cursor: final(self).current as int,
                diags: final(self).reporter@,
                stmt: crate::statement::stmt_model(r),
            }) == p_declaration(ptoks(*old(self)), old(self).current as int, old(self).reporter@),
        decreases self.tokens@.len() - self.current, 18nat,
    {
        broadcast use lemma_prefix_trans;

        let ghost ts = ptoks(*old(self));
        let ghost c0: int = old(self).current as int;
        proof {
            assert(ts[c0] == old(self).tokens@[c0]@);
        }
        let attempt = if self.check(TokenType::Offering) {
            let _ = self.advance();
            self.handle_var_declaration()
        } else {
            self.handle_statement()
        };
        match attempt {
            Ok(x) => x,
            Err(_) => {
                // Recover: discard to the next boundary and substitute a
                // harmless no-op statement.
                self.synchronize();
                Statement::Expression(
                    ExpressionStatement {
                        expr: Expression::Literal(
                            Box::new(LiteralExpression { value: Value::Nil }),
                        ),
                    },
                )
            },
        }
    }

    /// Parse a whole program: every top-level declaration to the end of the
    /// input. Never aborts: for any token stream the returned statements
    /// and the diagnostics reported are exactly the parse of the stream,
    /// with a no-op in place of each failed statement.
    #[verifier::rlimit(100)]
    #[verifier::spinoff_prover]
    pub fn parse(&mut self) -> (r: Vec<Statement>)
        requires
            old(self).wf(),
        ensures
            final(self).wf(),
            final(self).tokens == old(self).tokens,
            final(self).spec_at_end(),
            old(self).reporter@.is_prefix_of(final(self).reporter@),
            (stmts_model(r@), final(self).reporter@) == p_parse(
                ptoks(*old(self)),
                old(self).current as int,
                old(self).reporter@,
            ),
    {
        broadcast use lemma_prefix_trans;

        let ghost ts = ptoks(*old(self));
        let ghost c0: int = old(self).current as int;
        let ghost d0 = old(self).reporter@;
        let mut statements: Vec<Statement> = Vec::new();
        proof {
            assert(stmts_model(statements@) =~= Seq::<StmtModel>::empty());
        }
        while !self.at_end()
            invariant
                self.wf(),
                self.tokens == old(self).tokens,
                ts == ptoks(*old(self)),
                c0 == old(self).current,
                d0 == old(self).reporter@,
                old(self).reporter@.is_prefix_of(self.reporter@),
                p_parse(ts, c0, d0) == p_parse_tail(
                    ts,
                    self.current as int,
                    self.reporter@,
                    stmts_model(statements@),
                ),
            decreases self.tokens@.len() - self.current,
        {
            let ghost cur: int = self.current as int;
            proof {
                assert(ts[cur] == self.tokens@[cur]@);
            }
            if self.check(TokenType::StatementEnd) {
                // A blank statement: nothing to parse.
                let _ = self.advance();
            } else {
                let ghost pre_acc = statements@;
                let decl = self.handle_declaration();
                statements.push(decl);
                proof {
                    assert(statements@.drop_last() =~= pre_acc);
                }
            }
        }
        proof {
            assert(ts[self.current as int] == self.tokens@[self.current as int]@);
        }
        statements
    }
}

} // verus!