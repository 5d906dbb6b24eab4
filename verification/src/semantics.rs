//! The meaning of expressions and statements.
//!
//! [`eval_expr`] gives every expression a meaning as a mathematical function
//! from a scope chain to a new scope chain and a value or a runtime error;
//! expression evaluation always terminates, so it needs no step budget.
//! Statement execution is indexed by a fuel bound on the number of
//! iterations each loop may take; a loop that needs more raises the budget
//! error. The interpreter runs every top-level statement with the largest
//! budget its counter type can hold.

use vstd::prelude::*;
use crate::environment::{chain_assign, chain_lookup, env_define, lemma_chain_assign_lookup, EnvModel};
use crate::error::{undefined_err, Diag, ErrorKind, EvalErr, RuntimeError};
use crate::expression::{AssignModel, BinaryModel, ExprModel, LogicalModel, PostfixModel, UnaryModel, VariableModel};
use crate::statement::{BlockModel, StmtModel, WhileModel};
use crate::token::TokenType;
use crate::value::{render, truthy, vals_equal, Val, Value};

verus! {

/// The model of the printed output: one entry per executed print statement.
pub type OutModel = Seq<Seq<char>>;

/// Whether a mathematical number fits the runtime number type.
pub open spec fn fits_num(x: int) -> bool {
    i64::MIN <= x <= i64::MAX
}

/// Division truncating toward zero, the runtime rule for `/`.
pub open spec fn div_trunc(a: int, b: int) -> int
    recommends
        b != 0,
{
    if a >= 0 && b > 0 {
        a / b
    } else if a < 0 && b < 0 {
        (-a) / (-b)
    } else if a < 0 {
        -((-a) / b)
    } else {
        -(a / (-b))
    }
}

/// A type-mismatch error at `line`.
pub open spec fn type_err(line: nat, msg: Seq<char>) -> EvalErr {
    EvalErr { kind: ErrorKind::TypeMismatch, line, message: msg }
}

/// The result of a numeric operation, or an overflow error when it does not
/// fit the number type.
pub open spec fn num_result(x: int, line: nat) -> Result<Val, EvalErr> {
    if fits_num(x) {
        Ok(Val::Num(x as i64))
    } else {
        Err(EvalErr { kind: ErrorKind::Overflow, line, message: "Number overflow."@ })
    }
}

/// What a binary operator yields on already-evaluated operands.
pub open spec fn eval_binary_op(op: TokenType, l: Val, r: Val, line: nat) -> Result<Val, EvalErr> {
    match op {
        TokenType::Minus => match (l, r) {
            (Val::Num(x), Val::Num(y)) => num_result(x - y, line),
            _ => Err(type_err(line, "Minus binary operator can only be used on numbers."@)),
        },
        TokenType::Divide => match (l, r) {
            (Val::Num(x), Val::Num(y)) => if y == 0 {
                Err(EvalErr { kind: ErrorKind::DivisionByZero, line, message: "Division by zero."@ })
            } else {
                num_result(div_trunc(x as int, y as int), line)
            },
            _ => Err(type_err(line, "Divide binary operator can only be used on numbers."@)),
        },
        TokenType::Multiply => match (l, r) {
            (Val::Num(x), Val::Num(y)) => num_result(x * y, line),
            _ => Err(type_err(line, "Multiply binary operator can only be used on numbers."@)),
        },
        TokenType::Plus => match l {
            Val::Str(x) => Ok(Val::Str(x + render(r))),
            Val::Num(x) => match r {
                Val::Num(y) => num_result(x + y, line),
                _ => Err(type_err(line, "Cannot add non-number to number."@)),
            },
            _ => Err(
                type_err(line, "Plus binary operator can only be used with strings or numbers"@),
            ),
        },
        TokenType::Greater => match (l, r) {
            (Val::Num(x), Val::Num(y)) => Ok(Val::Bool(x > y)),
            _ => Err(type_err(line, "Greater binary operator can only be used on numbers."@)),
        },
        TokenType::GreaterEqual => match (l, r) {
            (Val::Num(x), Val::Num(y)) => Ok(Val::Bool(x >= y)),
            _ => Err(
                type_err(line, "Greater-or-Equal binary operator can only be used on numbers."@),
            ),
        },
        TokenType::Less => match (l, r) {
            (Val::Num(x), Val::Num(y)) => Ok(Val::Bool(x < y)),
            _ => Err(type_err(line, "Less binary operator can only be used on numbers."@)),
        },
        TokenType::LessEqual => match (l, r) {
            (Val::Num(x), Val::Num(y)) => Ok(Val::Bool(x <= y)),
            _ => Err(type_err(line, "Less-or-Equal binary operator can only be used on numbers."@)),
        },
        TokenType::Is => Ok(Val::Bool(vals_equal(l, r))),
        _ => Err(
            EvalErr {
                kind: ErrorKind::UnknownOperator,
                line,
                message: "Unknown operator in binary expression."@,
            },
        ),
    }
}

/// What a unary operator yields on an already-evaluated operand.
pub open spec fn eval_unary_op(op: TokenType, v: Val, line: nat) -> Result<Val, EvalErr> {
    match op {
        TokenType::Minus => match v {
            Val::Num(x) => num_result(-x, line),
            _ => Err(type_err(line, "Minus unary operator can only be used on numbers."@)),
        },
        TokenType::Not => Ok(Val::Bool(!truthy(v))),
        _ => Err(
            EvalErr {
                kind: ErrorKind::UnknownOperator,
                line,
                message: "Unknown operator in unary expression."@,
            },
        ),
    }
}

/// The meaning of a unary application: evaluate the operand, then apply the
/// operator.
pub open spec fn eval_unary_expr(env: EnvModel, u: UnaryModel) -> (
    EnvModel,
    Result<Val, EvalErr>,
)
    decreases u,
{
    let (env1, r) = eval_expr(env, u.right);
    match r {
        Ok(v) => (env1, eval_unary_op(u.operator.token_type, v, u.operator.line)),
        Err(e) => (env1, Err(e)),
    }
}

/// The meaning of a binary application: evaluate the left operand, then the
/// right, then apply the operator.
pub open spec fn eval_binary_expr(env: EnvModel, b: BinaryModel) -> (
    EnvModel,
    Result<Val, EvalErr>,
)
    decreases b,
{
    let (env1, rl) = eval_expr(env, b.left);
    match rl {
        Ok(lv) => {
            let (env2, rr) = eval_expr(env1, b.right);
            match rr {
                Ok(rv) => (
                    env2,
                    eval_binary_op(b.operator.token_type, lv, rv, b.operator.line),
                ),
                Err(e) => (env2, Err(e)),
            }
        },
        Err(e) => (env1, Err(e)),
    }
}

/// The meaning of `and`/`or`: evaluate the left operand; if it decides, it is
/// itself the result and the right operand is never evaluated.
pub open spec fn eval_logical_expr(env: EnvModel, l: LogicalModel) -> (
    EnvModel,
    Result<Val, EvalErr>,
)
    decreases l,
{
    let (env1, rl) = eval_expr(env, l.left);
    match rl {
        Ok(lv) => {
            if l.operator.token_type == TokenType::Or {
                if truthy(lv) {
                    (env1, Ok(lv))
                } else {
                    eval_expr(env1, l.right)
                }
            } else {
                if !truthy(lv) {
                    (env1, Ok(lv))
                } else {
                    eval_expr(env1, l.right)
                }
            }
        },
        Err(e) => (env1, Err(e)),
    }
}

/// The meaning of a variable read.
pub open spec fn eval_variable_expr(env: EnvModel, v: VariableModel) -> (
    EnvModel,
    Result<Val, EvalErr>,
) {
    (
        env,
        match chain_lookup(env, v.name.lexeme) {
            Some(val) => Ok(val),
            None => Err(undefined_err(v.name.line)),
        },
    )
}

/// The meaning of an assignment: evaluate the right-hand side, write it to
/// the existing binding, and yield the assigned value.
pub open spec fn eval_assign_expr(env: EnvModel, a: AssignModel) -> (
    EnvModel,
    Result<Val, EvalErr>,
)
    decreases a,
{
    let (env1, r) = eval_expr(env, a.value);
    match r {
        Ok(v) => match chain_assign(env1, a.name.lexeme, v) {
            Some(env2) => (env2, Ok(v)),
            None => (env1, Err(undefined_err(a.name.line))),
        },
        Err(e) => (env1, Err(e)),
    }
}

/// The meaning of a postfix application: the target must be a bare variable
/// bound to a number; the stepped value is written back and is the result.
pub open spec fn eval_postfix_expr(env: EnvModel, p: PostfixModel) -> (
    EnvModel,
    Result<Val, EvalErr>,
) {
    match p.left {
        ExprModel::Variable(v) => match chain_lookup(env, v.name.lexeme) {
            Some(val) => match val {
                Val::Num(n) => {
                    let stepped = postfix_step(p.operator.token_type, n, p.operator.line);
                    match stepped {
                        Ok(nv) => match chain_assign(env, v.name.lexeme, nv) {
                            Some(env2) => (env2, Ok(nv)),
                            None => (env, Err(undefined_err(v.name.line))),
                        },
                        Err(e) => (env, Err(e)),
                    }
                },
                _ => (
                    env,
                    Err(
                        type_err(
                            p.operator.line,
                            "Postfix operators can only be used with numbers."@,
                        ),
                    ),
                ),
            },
            None => (env, Err(undefined_err(v.name.line))),
        },
        _ => (
            env,
            Err(
                EvalErr {
                    kind: ErrorKind::InvalidTarget,
                    line: p.operator.line,
                    message: "Expected variable in postfix operator."@,
                },
            ),
        ),
    }
}

/// The meaning of an expression: the scope chain it leaves behind and the
/// value it yields or the runtime error it raises. A raised error leaves the
/// chain as it stood when evaluation stopped.
pub open spec fn eval_expr(env: EnvModel, e: ExprModel) -> (EnvModel, Result<Val, EvalErr>)
    decreases e,
{
    match e {
        ExprModel::Literal(l) => (env, Ok(l.value)),
        ExprModel::Grouping(g) => eval_expr(env, g.expr),
        ExprModel::Unary(u) => eval_unary_expr(env, *u),
        ExprModel::Binary(b) => eval_binary_expr(env, *b),
        ExprModel::Logical(l) => eval_logical_expr(env, *l),
        ExprModel::Variable(v) => eval_variable_expr(env, *v),
        ExprModel::Assign(a) => eval_assign_expr(env, *a),
        ExprModel::Postfix(p) => eval_postfix_expr(env, *p),
    }
}

/// The model of an evaluation result.
pub open spec fn res_model(r: Result<Value, RuntimeError>) -> Result<Val, EvalErr> {
    match r {
        Ok(v) => Ok(v@),
        Err(e) => Err(e@),
    }
}

/// The model of an execution result.
pub open spec fn unit_model(r: Result<(), RuntimeError>) -> Result<(), EvalErr> {
    match r {
        Ok(_) => Ok(()),
        Err(e) => Err(e@),
    }
}

/// The model of the collected output lines.
pub open spec fn outs(s: Seq<String>) -> OutModel {
    s.map_values(|x: String| x@)
}

/// Drop the value of an expression evaluated only for its effects.
pub open spec fn unit_result(r: Result<Val, EvalErr>) -> Result<(), EvalErr> {
    match r {
        Ok(_) => Ok(()),
        Err(e) => Err(e),
    }
}

/// The state a statement leaves behind: the scope chain, the output, and
/// whether it finished or raised a runtime error. `fuel` bounds how many
/// iterations each loop may still take; a loop that needs more raises the
/// budget error.
pub type StepOut = (EnvModel, OutModel, Result<(), EvalErr>);

/// The meaning of one statement, with `fuel` bounding loop iterations.
pub open spec fn exec_stmt(fuel: nat, env: EnvModel, out: OutModel, s: StmtModel) -> StepOut
    decreases fuel, s,
{
    match s {
        StmtModel::Expression(es) => {
            let (env1, r) = eval_expr(env, es.expr);
            (env1, out, unit_result(r))
        },
        StmtModel::Print(p) => {
            let (env1, r) = eval_expr(env, p.expr);
            match r {
                Ok(v) => (env1, out.push(render(v)), Ok(())),
                Err(e) => (env1, out, Err(e)),
            }
        },
        StmtModel::Var(vs) => match vs.initializer {
            Some(init) => {
                let (env1, r) = eval_expr(env, init);
                match r {
                    Ok(v) => (env_define(env1, vs.name.lexeme, v), out, Ok(())),
                    Err(e) => (env1, out, Err(e)),
                }
            },
            None => (env_define(env, vs.name.lexeme, Val::Null), out, Ok(())),
        },
        StmtModel::Block(b) => exec_block(fuel, env, out, b),
        StmtModel::If(i) => {
            let (env1, r) = eval_expr(env, i.condition);
            match r {
                Ok(v) => if truthy(v) {
                    exec_block(fuel, env1, out, i.then_branch)
                } else {
                    match i.else_branch {
                        Some(b) => exec_block(fuel, env1, out, b),
                        None => (env1, out, Ok(())),
                    }
                },
                Err(e) => (env1, out, Err(e)),
            }
        },
        StmtModel::While(w) => exec_while(fuel, env, out, w),
    }
}

/// The meaning of a block: its statements run in one fresh child frame,
/// which is discarded afterwards whether or not they finished.
pub open spec fn exec_block(fuel: nat, env: EnvModel, out: OutModel, b: BlockModel) -> StepOut
    decreases fuel, b,
{
    let (env1, out1, r) = exec_stmts(fuel, env.push(Map::empty()), out, b.statements);
    (env1.drop_last(), out1, r)
}

/// The meaning of a statement sequence: run in order, stopping at the first
/// runtime error. Written as "run all but the last, then the last", so that
/// a loop that executes the sequence front to back can grow the meaning of
/// the prefix it has finished one statement at a time.
pub open spec fn exec_stmts(fuel: nat, env: EnvModel, out: OutModel, ss: Seq<StmtModel>) -> StepOut
    decreases fuel, ss,
{
    if ss.len() == 0 {
        (env, out, Ok(()))
    } else {
        let (env1, out1, r) = exec_stmts(fuel, env, out, ss.drop_last());
        match r {
            Ok(_) => exec_stmt(fuel, env1, out1, ss.last()),
            Err(e) => (env1, out1, Err(e)),
        }
    }
}

/// The meaning of a while statement: re-evaluate the condition and re-run
/// the body block until the condition is falsy, spending one unit of fuel
/// per further iteration; with the fuel gone the budget error is raised.
pub open spec fn exec_while(fuel: nat, env: EnvModel, out: OutModel, w: WhileModel) -> StepOut
    decreases fuel, w,
{
    let (env1, r) = eval_expr(env, w.condition);
    match r {
        Ok(v) => if !truthy(v) {
            (env1, out, Ok(()))
        } else {
            let (env2, out2, br) = exec_block(fuel, env1, out, w.body);
            match br {
                Ok(_) => if fuel == 0 {
                    (env2, out2, Err(crate::error::exhausted_err()))
                } else {
                    exec_while((fuel - 1) as nat, env2, out2, w)
                },
                Err(e) => (env2, out2, Err(e)),
            }
        },
        Err(e) => (env1, out, Err(e)),
    }
}

/// The meaning of a whole program run: top-level statements execute in
/// order; a runtime error is reported as a diagnostic and execution proceeds
/// with the next top-level statement.
pub open spec fn run_stmts(
    fuel: nat,
    env: EnvModel,
    out: OutModel,
    diags: Seq<Diag>,
    ss: Seq<StmtModel>,
) -> (EnvModel, OutModel, Seq<Diag>)
    decreases fuel, ss,
{
    if ss.len() == 0 {
        (env, out, diags)
    } else {
        let (env1, out1, diags1) = run_stmts(fuel, env, out, diags, ss.drop_last());
        let (env2, out2, r) = exec_stmt(fuel, env1, out1, ss.last());
        (
            env2,
            out2,
            match r {
                Ok(_) => diags1,
                Err(e) => diags1.push(Diag { line: e.line, message: e.message }),
            },
        )
    }
}

/// Assigning through the chain never changes how many frames it has.
pub proof fn lemma_chain_assign_len(env: EnvModel, name: Seq<char>, value: Val)
    ensures
        chain_assign(env, name, value) matches Some(e) ==> e.len() == env.len(),
    decreases env.len(),
{
    if env.len() > 0 && !env.last().contains_key(name) {
        lemma_chain_assign_len(env.drop_last(), name, value);
    }
}

/// The result of the postfix step on a number, before it is written back.
pub open spec fn postfix_step(op: TokenType, n: i64, line: nat) -> Result<Val, EvalErr> {
    if op == TokenType::MinusMinus {
        num_result(n - 1, line)
    } else if op == TokenType::PlusPlus {
        num_result(n + 1, line)
    } else {
        Err(
            EvalErr {
                kind: ErrorKind::UnknownOperator,
                line,
                message: "Unrecognized postfix operator."@,
            },
        )
    }
}

/// Evaluating an expression never changes how many frames the chain has.
pub proof fn lemma_eval_expr_len(env: EnvModel, e: ExprModel)
    ensures
        eval_expr(env, e).0.len() == env.len(),
    decreases e,
{
    match e {
        ExprModel::Literal(_) => {},
        ExprModel::Grouping(g) => {
            lemma_eval_expr_len(env, g.expr);
        },
        ExprModel::Unary(u) => {
            assert(eval_expr(env, e) == eval_unary_expr(env, *u));
            lemma_eval_expr_len(env, u.right);
        },
        ExprModel::Binary(b) => {
            assert(eval_expr(env, e) == eval_binary_expr(env, *b));
            lemma_eval_expr_len(env, b.left);
            lemma_eval_expr_len(eval_expr(env, b.left).0, b.right);
        },
        ExprModel::Logical(l) => {
            assert(eval_expr(env, e) == eval_logical_expr(env, *l));
            lemma_eval_expr_len(env, l.left);
            lemma_eval_expr_len(eval_expr(env, l.left).0, l.right);
        },
        ExprModel::Variable(v) => {
            assert(eval_expr(env, e) == eval_variable_expr(env, *v));
        },
        ExprModel::Assign(a) => {
            assert(eval_expr(env, e) == eval_assign_expr(env, *a));
            lemma_eval_expr_len(env, a.value);
            let (env1, r) = eval_expr(env, a.value);
            match r {
                Ok(v) => {
                    lemma_chain_assign_len(env1, a.name.lexeme, v);
                },
                Err(_) => {},
            }
        },
        ExprModel::Postfix(p) => {
            assert(eval_expr(env, e) == eval_postfix_expr(env, *p));
            match p.left {
                ExprModel::Variable(v) => {
                    match chain_lookup(env, v.name.lexeme) {
                        Some(Val::Num(n)) => {
                            let stepped = postfix_step(
                                p.operator.token_type,
                                n,
                                p.operator.line,
                            );
                            match stepped {
                                Ok(nv) => {
                                    lemma_chain_assign_len(env, v.name.lexeme, nv);
                                },
                                Err(_) => {},
                            }
                        },
                        _ => {},
                    }
                },
                _ => {},
            }
        },
    }
}

/// Executing a statement never changes how many frames the chain has.
pub proof fn lemma_exec_stmt_len(fuel: nat, env: EnvModel, out: OutModel, s: StmtModel)
    requires
        env.len() > 0,
    ensures
        exec_stmt(fuel, env, out, s).0.len() == env.len(),
    decreases fuel, s,
{
    match s {
        StmtModel::Expression(es) => {
            lemma_eval_expr_len(env, es.expr);
        },
        StmtModel::Print(p) => {
            lemma_eval_expr_len(env, p.expr);
        },
        StmtModel::Var(vs) => {
            match vs.initializer {
                Some(init) => {
                    lemma_eval_expr_len(env, init);
                },
                None => {},
            }
        },
        StmtModel::Block(b) => {
            lemma_exec_block_len(fuel, env, out, b);
        },
        StmtModel::If(i) => {
            lemma_eval_expr_len(env, i.condition);
            let env1 = eval_expr(env, i.condition).0;
            lemma_exec_block_len(fuel, env1, out, i.then_branch);
            match i.else_branch {
                Some(b) => {
                    lemma_exec_block_len(fuel, env1, out, b);
                },
                None => {},
            }
        },
        StmtModel::While(w) => {
            lemma_exec_while_len(fuel, env, out, w);
        },
    }
}

/// Running a block leaves exactly the frames that were there before.
pub proof fn lemma_exec_block_len(fuel: nat, env: EnvModel, out: OutModel, b: BlockModel)
    ensures
        exec_block(fuel, env, out, b).0.len() == env.len(),
    decreases fuel, b,
{
    lemma_exec_stmts_len(fuel, env.push(Map::empty()), out, b.statements);
}

/// Running a statement sequence never changes how many frames the chain has.
pub proof fn lemma_exec_stmts_len(fuel: nat, env: EnvModel, out: OutModel, ss: Seq<StmtModel>)
    requires
        env.len() > 0,
    ensures
        exec_stmts(fuel, env, out, ss).0.len() == env.len(),
    decreases fuel, ss,
{
    if ss.len() > 0 {
        lemma_exec_stmts_len(fuel, env, out, ss.drop_last());
        let (env1, out1, r) = exec_stmts(fuel, env, out, ss.drop_last());
        match r {
            Ok(_) => {
                lemma_exec_stmt_len(fuel, env1, out1, ss.last());
            },
            Err(_) => {},
        }
    }
}

/// Running a while statement never changes how many frames the chain has.
pub proof fn lemma_exec_while_len(fuel: nat, env: EnvModel, out: OutModel, w: WhileModel)
    requires
        env.len() > 0,
    ensures
        exec_while(fuel, env, out, w).0.len() == env.len(),
    decreases fuel, w,
{
    lemma_eval_expr_len(env, w.condition);
    let (env1, r) = eval_expr(env, w.condition);
    match r {
        Ok(v) => {
            if truthy(v) {
                lemma_exec_block_len(fuel, env1, out, w.body);
                let (env2, out2, br) = exec_block(fuel, env1, out, w.body);
                match br {
                    Ok(_) => {
                        if fuel > 0 {
                            lemma_exec_while_len((fuel - 1) as nat, env2, out2, w);
                        }
                    },
                    Err(_) => {},
                }
            }
        },
        Err(_) => {},
    }
}

/// A sequence whose prefix already raised an error means exactly what that
/// prefix means: the statements after the error never run.
pub proof fn lemma_exec_stmts_err_prefix(
    f: nat,
    env: EnvModel,
    out: OutModel,
    ss: Seq<StmtModel>,
    j: int,
    e1: EnvModel,
    o1: OutModel,
    err: EvalErr,
)
    requires
        0 <= j <= ss.len(),
        exec_stmts(f, env, out, ss.take(j)) == (e1, o1, Err::<(), EvalErr>(err)),
    ensures
        exec_stmts(f, env, out, ss) == (e1, o1, Err::<(), EvalErr>(err)),
    decreases ss.len() - j,
{
    if j == ss.len() {
        assert(ss.take(j) =~= ss);
    } else {
        assert(ss.take(j + 1).drop_last() =~= ss.take(j));
        lemma_exec_stmts_err_prefix(f, env, out, ss, j + 1, e1, o1, err);
    }
}

/// A sequence that extends an extension of another extends it too.
pub broadcast proof fn lemma_seq_prefix_trans<A>(a: Seq<A>, b: Seq<A>, c: Seq<A>)
    requires
        #[trigger] a.is_prefix_of(b),
        #[trigger] b.is_prefix_of(c),
    ensures
        a.is_prefix_of(c),
{
    assert(a =~= c.subrange(0, a.len() as int));
}

/// Executing a statement only ever appends to the output.
pub proof fn lemma_exec_stmt_extends(fuel: nat, env: EnvModel, out: OutModel, s: StmtModel)
    ensures
        out.is_prefix_of(exec_stmt(fuel, env, out, s).1),
    decreases fuel, s,
{
    broadcast use lemma_seq_prefix_trans;

    assert(out.is_prefix_of(out)) by {
        assert(out =~= out.subrange(0, out.len() as int));
    }
    match s {
        StmtModel::Expression(_) => {},
        StmtModel::Print(p) => {
            let (env1, r) = eval_expr(env, p.expr);
            match r {
                Ok(v) => {
                    assert(out.is_prefix_of(out.push(render(v)))) by {
                        assert(out =~= out.push(render(v)).subrange(0, out.len() as int));
                    }
                },
                Err(_) => {},
            }
        },
        StmtModel::Var(_) => {},
        StmtModel::Block(b) => {
            lemma_exec_block_extends(fuel, env, out, b);
        },
        StmtModel::If(i) => {
            let env1 = eval_expr(env, i.condition).0;
            lemma_exec_block_extends(fuel, env1, out, i.then_branch);
            match i.else_branch {
                Some(b) => {
                    lemma_exec_block_extends(fuel, env1, out, b);
                },
                None => {},
            }
        },
        StmtModel::While(w) => {
            lemma_exec_while_extends(fuel, env, out, w);
        },
    }
}

/// Running a block only ever appends to the output.
pub proof fn lemma_exec_block_extends(fuel: nat, env: EnvModel, out: OutModel, b: BlockModel)
    ensures
        out.is_prefix_of(exec_block(fuel, env, out, b).1),
    decreases fuel, b,
{
    lemma_exec_stmts_extends(fuel, env.push(Map::empty()), out, b.statements);
}

/// Running a statement sequence only ever appends to the output.
pub proof fn lemma_exec_stmts_extends(fuel: nat, env: EnvModel, out: OutModel, ss: Seq<StmtModel>)
    ensures
        out.is_prefix_of(exec_stmts(fuel, env, out, ss).1),
    decreases fuel, ss,
{
    broadcast use lemma_seq_prefix_trans;

    assert(out.is_prefix_of(out)) by {
        assert(out =~= out.subrange(0, out.len() as int));
    }
    if ss.len() > 0 {
        lemma_exec_stmts_extends(fuel, env, out, ss.drop_last());
        let (env1, out1, r) = exec_stmts(fuel, env, out, ss.drop_last());
        match r {
            Ok(_) => {
                lemma_exec_stmt_extends(fuel, env1, out1, ss.last());
            },
            Err(_) => {},
        }
    }
}

/// Running a while statement only ever appends to the output.
pub proof fn lemma_exec_while_extends(fuel: nat, env: EnvModel, out: OutModel, w: WhileModel)
    ensures
        out.is_prefix_of(exec_while(fuel, env, out, w).1),
    decreases fuel, w,
{
    broadcast use lemma_seq_prefix_trans;

    assert(out.is_prefix_of(out)) by {
        assert(out =~= out.subrange(0, out.len() as int));
    }
    let (env1, r) = eval_expr(env, w.condition);
    match r {
        Ok(v) => {
            if truthy(v) {
                lemma_exec_block_extends(fuel, env1, out, w.body);
                let (env2, out2, br) = exec_block(fuel, env1, out, w.body);
                match br {
                    Ok(_) => {
                        if fuel > 0 {
                            lemma_exec_while_extends((fuel - 1) as nat, env2, out2, w);
                        }
                    },
                    Err(_) => {},
                }
            }
        },
        Err(_) => {},
    }
}

/// A whole run only ever appends to the output and to the diagnostics.
pub proof fn lemma_run_stmts_extends(
    fuel: nat,
    env: EnvModel,
    out: OutModel,
    diags: Seq<Diag>,
    ss: Seq<StmtModel>,
)
    ensures
        out.is_prefix_of(run_stmts(fuel, env, out, diags, ss).1),
        diags.is_prefix_of(run_stmts(fuel, env, out, diags, ss).2),
    decreases fuel, ss,
{
    broadcast use lemma_seq_prefix_trans;

    assert(out.is_prefix_of(out)) by {
        assert(out =~= out.subrange(0, out.len() as int));
    }
    assert(diags.is_prefix_of(diags)) by {
        assert(diags =~= diags.subrange(0, diags.len() as int));
    }
    if ss.len() > 0 {
        lemma_run_stmts_extends(fuel, env, out, diags, ss.drop_last());
        let (env1, out1, diags1) = run_stmts(fuel, env, out, diags, ss.drop_last());
        lemma_exec_stmt_extends(fuel, env1, out1, ss.last());
        let (env2, out2, r) = exec_stmt(fuel, env1, out1, ss.last());
        match r {
            Ok(_) => {},
            Err(e) => {
                let d = Diag { line: e.line, message: e.message };
                assert(diags1.is_prefix_of(diags1.push(d))) by {
                    assert(diags1 =~= diags1.push(d).subrange(0, diags1.len() as int));
                }
            },
        }
    }
}

/// Law: block-local shadowing does not leak. Defining a name in a freshly
/// entered block frame makes that name denote the new value inside the
/// block, and leaving the block restores every enclosing frame exactly as
/// it was.
pub proof fn lemma_shadowing_does_not_leak(env: EnvModel, name: Seq<char>, value: Val)
    ensures
        chain_lookup(env_define(env.push(Map::empty()), name, value), name) == Some(value),
        env_define(env.push(Map::empty()), name, value).drop_last() == env,
{
    let inner = env_define(env.push(Map::empty()), name, value);
    assert(inner.last() == Map::<Seq<char>, Val>::empty().insert(name, value));
    assert(inner.drop_last() =~= env);
}

/// Law: a literal evaluates to its own value and touches nothing.
pub proof fn lemma_eval_literal(env: EnvModel, e: ExprModel)
    ensures
        e matches ExprModel::Literal(l) ==> eval_expr(env, e) == (
            env,
            Ok::<Val, EvalErr>(l.value),
        ),
{
}

/// Law: a grouping means exactly what the expression inside it means.
pub proof fn lemma_eval_grouping(env: EnvModel, e: ExprModel)
    ensures
        e matches ExprModel::Grouping(g) ==> eval_expr(env, e) == eval_expr(env, g.expr),
{
}

/// Law: a postfix step on a variable bound to a number yields the stepped
/// value, not the old one, and the variable holds the stepped value
/// afterwards.
pub proof fn lemma_postfix_returns_new_value(env: EnvModel, e: ExprModel)
    ensures
        e matches ExprModel::Postfix(p) ==> {
            ||| !(p.left matches ExprModel::Variable(ignored))
            ||| {
                let v = p.left->Variable_0;
                (chain_lookup(env, v.name.lexeme) matches Some(Val::Num(n))
                    && p.operator.token_type == TokenType::PlusPlus && n < i64::MAX) ==> ({
                    let (env1, r) = eval_expr(env, e);
                    let stepped = Val::Num(
                        (chain_lookup(env, v.name.lexeme)->0->Num_0 + 1) as i64,
                    );
                    &&& r == Ok::<Val, EvalErr>(stepped)
                    &&& chain_lookup(env1, v.name.lexeme) == Some(stepped)
                })
            }
        },
{
    match e {
        ExprModel::Postfix(p) => {
            assert(eval_expr(env, e) == eval_postfix_expr(env, *p));
            match p.left {
                ExprModel::Variable(v) => {
                    match chain_lookup(env, v.name.lexeme) {
                        Some(Val::Num(n)) => {
                            if p.operator.token_type == TokenType::PlusPlus && n < i64::MAX {
                                crate::environment::lemma_chain_assign_some(
                                    env,
                                    v.name.lexeme,
                                    Val::Num((n + 1) as i64),
                                );
                                lemma_chain_assign_lookup(
                                    env,
                                    v.name.lexeme,
                                    Val::Num((n + 1) as i64),
                                );
                            }
                        },
                        _ => {},
                    }
                },
                _ => {},
            }
        },
        _ => {},
    }
}

/// Law: `and` short-circuits — when its left operand comes out falsy, the
/// whole expression is that operand's own result and the right operand is
/// never evaluated, so nothing the right operand would do can happen.
pub proof fn lemma_and_short_circuit(env: EnvModel, e: ExprModel)
    ensures
        e matches ExprModel::Logical(l) ==> {
            let (env1, r) = eval_expr(env, l.left);
            (r matches Ok(v) && l.operator.token_type == TokenType::And && !truthy(v))
                ==> eval_expr(env, e) == (env1, r)
        },
{
    match e {
        ExprModel::Logical(l) => {
            assert(eval_expr(env, e) == eval_logical_expr(env, *l));
        },
        _ => {},
    }
}

/// Law: `or` short-circuits — when its left operand comes out truthy, the
/// whole expression is that operand's own result and the right operand is
/// never evaluated.
pub proof fn lemma_or_short_circuit(env: EnvModel, e: ExprModel)
    ensures
        e matches ExprModel::Logical(l) ==> {
            let (env1, r) = eval_expr(env, l.left);
            (r matches Ok(v) && l.operator.token_type == TokenType::Or && truthy(v))
                ==> eval_expr(env, e) == (env1, r)
        },
{
    match e {
        ExprModel::Logical(l) => {
            assert(eval_expr(env, e) == eval_logical_expr(env, *l));
        },
        _ => {},
    }
}

} // verus!
