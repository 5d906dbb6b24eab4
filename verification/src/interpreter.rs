//! The tree-walking evaluator.
//!
//! An interpreter owns one scope chain for its whole life, a buffer of output
//! lines that print statements append to, and an error handler that runtime
//! errors are reported to. Every method's contract ties what it does to the
//! denotational semantics in [`crate::semantics`].

use vstd::prelude::*;
use vstd::string::*;
use crate::environment::Environment;
use crate::error::{ErrorHandler, ErrorKind, RuntimeError};
use crate::expression::{
    assign_model, binary_model, expr_model, logical_model, postfix_model, unary_model,
    variable_model, AssignExpression, BinaryExpression, ExprModel, Expression, LogicalExpression,
    PostfixExpression, UnaryExpression, VariableExpression,
};
use crate::semantics::{
    eval_assign_expr, eval_binary_expr, eval_binary_op, eval_expr, eval_logical_expr,
    eval_postfix_expr, eval_unary_expr, eval_variable_expr, exec_block, exec_stmt, exec_stmts,
    exec_while, outs, res_model, run_stmts, unit_model,
};
use crate::statement::{
    block_model, expr_stmt_model, lemma_stmts_model, print_model, stmt_model, stmts_model,
    var_model, while_model, BlockStatement, ExpressionStatement, IfStatement, PrintStatement,
    Statement, StmtModel, VarStatement, WhileStatement,
};
use crate::token::Token;
use crate::value::{render, to_text, truthy, vals_equal, Val, Value};

verus! {

/// The evaluator: one scope chain, the output it has printed, and the
/// handler its runtime errors are reported to.
pub struct Interpreter {
    pub env: Environment,
    pub output: Vec<String>,
    pub reporter: ErrorHandler,
}

/// What every expression evaluation guarantees: the scope chain moves to the
/// state the semantics give, the result denotes the semantic result, and
/// neither output nor diagnostics are touched.
pub open spec fn expr_post(
    pre: Interpreter,
    post: Interpreter,
    r: Result<Value, RuntimeError>,
    m: (crate::environment::EnvModel, Result<Val, crate::error::EvalErr>),
) -> bool {
    &&& post.env@ == m.0
    &&& res_model(r) == m.1
    &&& post.output == pre.output
    &&& post.reporter == pre.reporter
}

impl Interpreter {
    /// The interpreter's invariant: the scope chain always holds at least
    /// the global frame.
    pub open spec fn wf(&self) -> bool {
        self.env@.len() > 0
    }

    /// A fresh interpreter: one empty global frame, nothing printed,
    /// nothing reported.
    pub fn new() -> (it: Interpreter)
        ensures
            it.wf(),
            it.env@ =~= seq![Map::<Seq<char>, Val>::empty()],
            it.output@ =~= Seq::<String>::empty(),
            it.reporter@ =~= Seq::<crate::error::Diag>::empty(),
    {
        Interpreter { env: Environment::new(), output: Vec::new(), reporter: ErrorHandler::new() }
    }

    /// Truthiness of a value.
    fn is_truthy(val: &Value) -> (r: bool)
        ensures
            r == truthy(val@),
    {
        match val {
            Value::Nil => false,
            Value::Boolean(x) => *x,
            _ => true,
        }
    }

    /// Structural equality of two values.
    fn is_equal(a: Value, b: Value) -> (r: bool)
        ensures
            r == vals_equal(a@, b@),
    {
        match a {
            Value::Nil => match b {
                Value::Nil => true,
                _ => false,
            },
            Value::Boolean(x) => match b {
                Value::Boolean(y) => y == x,
                _ => false,
            },
            Value::Number(x) => match b {
                Value::Number(y) => x == y,
                _ => false,
            },
            Value::String(x) => match b {
                Value::String(y) => x == y,
                _ => false,
            },
        }
    }

    /// A runtime error attributed to `token`.
    fn error(kind: ErrorKind, token: &Token, msg: &str) -> (e: RuntimeError)
        ensures
            e@ == (crate::error::EvalErr { kind, line: token.line as nat, message: msg@ }),
    {
        RuntimeError::new(kind, token.clone(), msg)
    }

    /// Evaluate a unary application.
    fn eval_unary(&mut self, expr: &UnaryExpression) -> (r: Result<Value, RuntimeError>)
        requires
            old(self).wf(),
        ensures
            final(self).wf(),
            expr_post(*old(self), *final(self), r, eval_unary_expr(old(self).env@, unary_model(*expr))),
        decreases *expr,
    {
        let right = match self.evaluate(&expr.right) {
            Ok(v) => v,
            Err(e) => {
                return Err(e);
            },
        };
        match expr.operator.token_type {
            crate::token::TokenType::Minus => {
                let x = match right {
                    Value::Number(x) => x,
                    _ => {
                        return Err(
                            Self::error(
                                ErrorKind::TypeMismatch,
                                &expr.operator,
                                "Minus unary operator can only be used on numbers.",
                            ),
                        );
                    },
                };
                if x == i64::MIN {
                    Err(Self::error(ErrorKind::Overflow, &expr.operator, "Number overflow."))
                } else {
                    Ok(Value::Number(-x))
                }
            },
            crate::token::TokenType::Not => Ok(Value::Boolean(!Self::is_truthy(&right))),
            _ => Err(
                Self::error(
                    ErrorKind::UnknownOperator,
                    &expr.operator,
                    "Unknown operator in unary expression.",
                ),
            ),
        }
    }

    /// Evaluate a variable read.
    fn eval_variable(&self, expr: &VariableExpression) -> (r: Result<Value, RuntimeError>)
        ensures
            res_model(r) == eval_variable_expr(self.env@, variable_model(*expr)).1,
            eval_variable_expr(self.env@, variable_model(*expr)).0 == self.env@,
    {
        self.env.get(&expr.name)
    }

    /// Evaluate an assignment.
    fn eval_assign(&mut self, expr: &AssignExpression) -> (r: Result<Value, RuntimeError>)
        requires
            old(self).wf(),
        ensures
            final(self).wf(),
            expr_post(*old(self), *final(self), r, eval_assign_expr(old(self).env@, assign_model(*expr))),
        decreases *expr,
    {
        let value = match self.evaluate(&expr.value) {
            Ok(v) => v,
            Err(e) => {
                return Err(e);
            },
        };
        match self.env.assign(&expr.name, value.clone()) {
            Ok(_) => {
                proof {
                    crate::semantics::lemma_chain_assign_len(
                        old(self).env@,
                        expr.name.lexeme@,
                        value@,
                    );
                }
                Ok(value)
            },
            Err(e) => Err(e),
        }
    }

    /// Evaluate a short-circuit `and`/`or` application.
    fn eval_logical(&mut self, expr: &LogicalExpression) -> (r: Result<Value, RuntimeError>)
        requires
            old(self).wf(),
        ensures
            final(self).wf(),
            expr_post(*old(self), *final(self), r, eval_logical_expr(old(self).env@, logical_model(*expr))),
        decreases *expr,
    {
        let left = match self.evaluate(&expr.left) {
            Ok(v) => v,
            Err(e) => {
                return Err(e);
            },
        };
        if expr.operator.token_type == crate::token::TokenType::Or {
            if Self::is_truthy(&left) {
                return Ok(left);
            }
        } else {
            if !Self::is_truthy(&left) {
                return Ok(left);
            }
        }
        self.evaluate(&expr.right)
    }

    /// Evaluate a postfix application: the target must be a bare variable
    /// bound to a number; the stepped value is written back and returned.
    fn eval_postfix(&mut self, expr: &PostfixExpression) -> (r: Result<Value, RuntimeError>)
        requires
            old(self).wf(),
        ensures
            final(self).wf(),
            expr_post(*old(self), *final(self), r, eval_postfix_expr(old(self).env@, postfix_model(*expr))),
    {
        let var = match &expr.left {
            Expression::Variable(x) => x,
            _ => {
                return Err(
                    Self::error(
                        ErrorKind::InvalidTarget,
                        &expr.operator,
                        "Expected variable in postfix operator.",
                    ),
                );
            },
        };
        let old_val = match self.env.get(&var.name) {
            Ok(v) => v,
            Err(e) => {
                return Err(e);
            },
        };
        let n = match old_val {
            Value::Number(x) => x,
            _ => {
                return Err(
                    Self::error(
                        ErrorKind::TypeMismatch,
                        &expr.operator,
                        "Postfix operators can only be used with numbers.",
                    ),
                );
            },
        };
        let new_val: i64 = match expr.operator.token_type {
            crate::token::TokenType::MinusMinus => {
                if n == i64::MIN {
                    return Err(
                        Self::error(ErrorKind::Overflow, &expr.operator, "Number overflow."),
                    );
                }
                n - 1
            },
            crate::token::TokenType::PlusPlus => {
                if n == i64::MAX {
                    return Err(
                        Self::error(ErrorKind::Overflow, &expr.operator, "Number overflow."),
                    );
                }
                n + 1
            },
            _ => {
                return Err(
                    Self::error(
                        ErrorKind::UnknownOperator,
                        &expr.operator,
                        "Unrecognized postfix operator.",
                    ),
                );
            },
        };
        match self.env.assign(&var.name, Value::Number(new_val)) {
            Ok(_) => {
                proof {
                    crate::semantics::lemma_chain_assign_len(
                        old(self).env@,
                        var.name.lexeme@,
                        Val::Num(new_val),
                    );
                }
                Ok(Value::Number(new_val))
            },
            Err(e) => Err(e),
        }
    }

    /// Truncating division of two numbers; the divisor is nonzero.
    fn divide_numbers(x: i64, y: i64, op: &Token) -> (r: Result<Value, RuntimeError>)
        requires
            y != 0,
        ensures
            res_model(r) == crate::semantics::num_result(
                crate::semantics::div_trunc(x as int, y as int),
                op.line as nat,
            ),
    {
        let ma: u64 = if x < 0 {
            (-(x as i128)) as u64
        } else {
            x as u64
        };
        let mb: u64 = if y < 0 {
            (-(y as i128)) as u64
        } else {
            y as u64
        };
        let q: u64 = ma / mb;
        proof {
            assert(q <= ma) by (nonlinear_arith)
                requires
                    mb >= 1,
                    q == ma / mb,
            ;
        }
        if (x < 0) != (y < 0) {
            proof {
                assert(crate::semantics::div_trunc(x as int, y as int) == -(q as int));
            }
            Ok(Value::Number((-(q as i128)) as i64))
        } else {
            proof {
                assert(crate::semantics::div_trunc(x as int, y as int) == q as int);
            }
            if q > i64::MAX as u64 {
                Err(Self::error(ErrorKind::Overflow, op, "Number overflow."))
            } else {
                Ok(Value::Number(q as i64))
            }
        }
    }

    /// Multiplication of two numbers, watching for overflow.
    fn multiply_numbers(x: i64, y: i64, op: &Token) -> (r: Result<Value, RuntimeError>)
        ensures
            res_model(r) == crate::semantics::num_result(x as int * y as int, op.line as nat),
    {
        proof {
            assert((x as i128) * (y as i128) <= i128::MAX && (x as i128) * (y as i128)
                >= i128::MIN) by (nonlinear_arith)
                requires
                    i64::MIN <= x <= i64::MAX,
                    i64::MIN <= y <= i64::MAX,
            ;
        }
        let p: i128 = (x as i128) * (y as i128);
        if p < i64::MIN as i128 || p > i64::MAX as i128 {
            Err(Self::error(ErrorKind::Overflow, op, "Number overflow."))
        } else {
            Ok(Value::Number(p as i64))
        }
    }

    /// Apply a binary operator to already-evaluated operands.
    #[verifier::spinoff_prover]
    fn apply_binary(op: &Token, left: Value, right: Value) -> (r: Result<Value, RuntimeError>)
        ensures
            res_model(r) == eval_binary_op(op.token_type, left@, right@, op.line as nat),
    {
        match op.token_type {
            crate::token::TokenType::Minus => {
                let (x, y) = match (left, right) {
                    (Value::Number(x), Value::Number(y)) => (x, y),
                    _ => {
                        return Err(
                            Self::error(
                                ErrorKind::TypeMismatch,
                                op,
                                "Minus binary operator can only be used on numbers.",
                            ),
                        );
                    },
                };
                let s: i128 = x as i128 - y as i128;
                if s < i64::MIN as i128 || s > i64::MAX as i128 {
                    Err(Self::error(ErrorKind::Overflow, op, "Number overflow."))
                } else {
                    Ok(Value::Number(s as i64))
                }
            },
            crate::token::TokenType::Divide => {
                let (x, y) = match (left, right) {
                    (Value::Number(x), Value::Number(y)) => (x, y),
                    _ => {
                        return Err(
                            Self::error(
                                ErrorKind::TypeMismatch,
                                op,
                                "Divide binary operator can only be used on numbers.",
                            ),
                        );
                    },
                };
                if y == 0 {
                    return Err(
                        Self::error(ErrorKind::DivisionByZero, op, "Division by zero."),
                    );
                }
                Self::divide_numbers(x, y, op)
            },
            crate::token::TokenType::Multiply => {
                let (x, y) = match (left, right) {
                    (Value::Number(x), Value::Number(y)) => (x, y),
                    _ => {
                        return Err(
                            Self::error(
                                ErrorKind::TypeMismatch,
                                op,
                                "Multiply binary operator can only be used on numbers.",
                            ),
                        );
                    },
                };
                Self::multiply_numbers(x, y, op)
            },
            crate::token::TokenType::Plus => {
                if let Value::String(x) = left {
                    let rendered = to_text(&right);
                    Ok(Value::String(x.concat(rendered.as_str())))
                } else if let Value::Number(x) = left {
                    let y = match right {
                        Value::Number(y) => y,
                        _ => {
                            return Err(
                                Self::error(
                                    ErrorKind::TypeMismatch,
                                    op,
                                    "Cannot add non-number to number.",
                                ),
                            );
                        },
                    };
                    let s: i128 = x as i128 + y as i128;
                    if s < i64::MIN as i128 || s > i64::MAX as i128 {
                        Err(Self::error(ErrorKind::Overflow, op, "Number overflow."))
                    } else {
                        Ok(Value::Number(s as i64))
                    }
                } else {
                    Err(
                        Self::error(
                            ErrorKind::TypeMismatch,
                            op,
                            "Plus binary operator can only be used with strings or numbers",
                        ),
                    )
                }
            },
            crate::token::TokenType::Greater => {
                let (x, y) = match (left, right) {
                    (Value::Number(x), Value::Number(y)) => (x, y),
                    _ => {
                        return Err(
                            Self::error(
                                ErrorKind::TypeMismatch,
                                op,
                                "Greater binary operator can only be used on numbers.",
                            ),
                        );
                    },
                };
                Ok(Value::Boolean(x > y))
            },
            crate::token::TokenType::GreaterEqual => {
                let (x, y) = match (left, right) {
                    (Value::Number(x), Value::Number(y)) => (x, y),
                    _ => {
                        return Err(
                            Self::error(
                                ErrorKind::TypeMismatch,
                                op,
                                "Greater-or-Equal binary operator can only be used on numbers.",
                            ),
                        );
                    },
                };
                Ok(Value::Boolean(x >= y))
            },
            crate::token::TokenType::Less => {
                let (x, y) = match (left, right) {
                    (Value::Number(x), Value::Number(y)) => (x, y),
                    _ => {
                        return Err(
                            Self::error(
                                ErrorKind::TypeMismatch,
                                op,
                                "Less binary operator can only be used on numbers.",
                            ),
                        );
                    },
                };
                Ok(Value::Boolean(x < y))
            },
            crate::token::TokenType::LessEqual => {
                let (x, y) = match (left, right) {
                    (Value::Number(x), Value::Number(y)) => (x, y),
                    _ => {
                        return Err(
                            Self::error(
                                ErrorKind::TypeMismatch,
                                op,
                                "Less-or-Equal binary operator can only be used on numbers.",
                            ),
                        );
                    },
                };
                Ok(Value::Boolean(x <= y))
            },
            crate::token::TokenType::Is => Ok(Value::Boolean(Self::is_equal(left, right))),
            _ => Err(
                Self::error(
                    ErrorKind::UnknownOperator,
                    op,
                    "Unknown operator in binary expression.",
                ),
            ),
        }
    }

    /// Evaluate a binary application: both operands first, left to right,
    /// then the operator's rule.
    fn eval_binary(&mut self, expr: &BinaryExpression) -> (r: Result<Value, RuntimeError>)
        requires
            old(self).wf(),
        ensures
            final(self).wf(),
            expr_post(*old(self), *final(self), r, eval_binary_expr(old(self).env@, binary_model(*expr))),
        decreases *expr,
    {
        let left = match self.evaluate(&expr.left) {
            Ok(v) => v,
            Err(e) => {
                return Err(e);
            },
        };
        let right = match self.evaluate(&expr.right) {
            Ok(v) => v,
            Err(e) => {
                return Err(e);
            },
        };
        Self::apply_binary(&expr.operator, left, right)
    }

    /// Evaluate an expression against the current scope chain.
    pub fn evaluate(&mut self, expr: &Expression) -> (r: Result<Value, RuntimeError>)
        requires
            old(self).wf(),
        ensures
            final(self).wf(),
            expr_post(*old(self), *final(self), r, eval_expr(old(self).env@, expr_model(*expr))),
        decreases *expr,
    {
        match expr {
            Expression::Literal(x) => Ok(x.value.clone()),
            Expression::Grouping(x) => self.evaluate(&x.expr),
            Expression::Unary(x) => self.eval_unary(x),
            Expression::Postfix(x) => self.eval_postfix(x),
            Expression::Binary(x) => self.eval_binary(x),
            Expression::Variable(x) => self.eval_variable(x),
            Expression::Assign(x) => self.eval_assign(x),
            Expression::Logical(x) => self.eval_logical(x),
        }
    }

    /// Execute a print statement: evaluate and append the canonical text to
    /// the output.
    fn execute_print_statement(&mut self, statement: &PrintStatement) -> (r: Result<
        (),
        RuntimeError,
    >)
        requires
            old(self).wf(),
        ensures
            final(self).wf(),
            final(self).reporter == old(self).reporter,
            forall|f: nat|
                #[trigger] exec_stmt(
                    f,
                    old(self).env@,
                    outs(old(self).output@),
                    StmtModel::Print(print_model(*statement)),
                ) == (final(self).env@, outs(final(self).output@), unit_model(r)),
    {
        let val = match self.evaluate(&statement.expr) {
            Ok(v) => v,
            Err(e) => {
                return Err(e);
            },
        };
        let text = to_text(&val);
        let ghost mid = *self;
        self.output.push(text);
        proof {
            assert(outs(self.output@) =~= outs(mid.output@).push(render(val@)));
        }
        Ok(())
    }

    /// Execute an expression statement: evaluate for its effects alone.
    fn execute_expression_statement(&mut self, statement: &ExpressionStatement) -> (r: Result<
        (),
        RuntimeError,
    >)
        requires
            old(self).wf(),
        ensures
            final(self).wf(),
            final(self).reporter == old(self).reporter,
            forall|f: nat|
                #[trigger] exec_stmt(
                    f,
                    old(self).env@,
                    outs(old(self).output@),
                    StmtModel::Expression(expr_stmt_model(*statement)),
                ) == (final(self).env@, outs(final(self).output@), unit_model(r)),
    {
        match self.evaluate(&statement.expr) {
            Ok(_) => Ok(()),
            Err(e) => Err(e),
        }
    }

    /// Execute a variable declaration: evaluate the optional initializer
    /// (`none` when absent) and define the name in the current frame.
    fn execute_var_statement(&mut self, statement: &VarStatement) -> (r: Result<(), RuntimeError>)
        requires
            old(self).wf(),
        ensures
            final(self).wf(),
            final(self).reporter == old(self).reporter,
            forall|f: nat|
                #[trigger] exec_stmt(
                    f,
                    old(self).env@,
                    outs(old(self).output@),
                    StmtModel::Var(var_model(*statement)),
                ) == (final(self).env@, outs(final(self).output@), unit_model(r)),
    {
        let mut value = Value::Nil;
        match &statement.initializer {
            Some(init) => {
                value = match self.evaluate(init) {
                    Ok(v) => v,
                    Err(e) => {
                        return Err(e);
                    },
                };
            },
            None => {},
        }
        let ghost mid = *self;
        self.env.define(statement.name.lexeme.clone(), value);
        proof {
            assert(self.env@.len() == mid.env@.len());
        }
        Ok(())
    }

    /// Execute a run of statements in the current frame, stopping at the
    /// first runtime error.
    fn execute_block(&mut self, fuel: u64, statements: &Vec<Statement>) -> (r: Result<
        (),
        RuntimeError,
    >)
        requires
            old(self).wf(),
        ensures
            final(self).wf(),
            final(self).reporter == old(self).reporter,
            exec_stmts(fuel as nat, old(self).env@, outs(old(self).output@), stmts_model(statements@)) == (
                final(self).env@,
                outs(final(self).output@),
                unit_model(r),
            ),
        decreases fuel, *statements, 1nat,
    {
        let ghost pre = *self;
        let ghost mst = stmts_model(statements@);
        let n = statements.len();
        let mut i: usize = 0;
        proof {
            lemma_stmts_model(statements@);
            assert(mst.take(0) =~= Seq::<StmtModel>::empty());
        }
        while i < n
            invariant
                pre == *old(self),
                i <= n,
                n == statements@.len(),
                mst == stmts_model(statements@),
                mst.len() == n,
                forall|j: int| 0 <= j < n ==> mst[j] == stmt_model(#[trigger] statements@[j]),
                self.wf(),
                self.reporter == pre.reporter,
                exec_stmts(fuel as nat, pre.env@, outs(pre.output@), mst.take(i as int)) == (
                    self.env@,
                    outs(self.output@),
                    Ok::<(), crate::error::EvalErr>(()),
                ),
            decreases n - i,
        {
            let ghost mid = *self;
            let r = self.execute(fuel, &statements[i]);
            proof {
                assert(mst.take(i as int + 1).drop_last() =~= mst.take(i as int));
                assert(mst.take(i as int + 1).last() == mst[i as int]);
            }
            match r {
                Ok(_) => {},
                Err(e) => {
                    proof {
                        crate::semantics::lemma_exec_stmts_err_prefix(
                            fuel as nat,
                            pre.env@,
                            outs(pre.output@),
                            mst,
                            i as int + 1,
                            self.env@,
                            outs(self.output@),
                            e@,
                        );
                    }
                    return Err(e);
                },
            }
            i = i + 1;
        }
        proof {
            assert(mst.take(n as int) =~= mst);
        }
        Ok(())
    }

    /// Execute a block statement: one fresh child frame around its
    /// statements, discarded afterwards whether or not they finished.
    fn execute_block_statement(&mut self, fuel: u64, statement: &BlockStatement) -> (r: Result<
        (),
        RuntimeError,
    >)
        requires
            old(self).wf(),
        ensures
            final(self).wf(),
            final(self).reporter == old(self).reporter,
            exec_block(fuel as nat, old(self).env@, outs(old(self).output@), block_model(*statement)) == (
                final(self).env@,
                outs(final(self).output@),
                unit_model(r),
            ),
        decreases fuel, *statement, 2nat,
    {
        let ghost pre = *self;
        self.env.push_frame();
        let ghost pushed = self.env@;
        let r = self.execute_block(fuel, &statement.statements);
        proof {
            crate::semantics::lemma_exec_stmts_len(
                fuel as nat,
                pushed,
                outs(pre.output@),
                stmts_model(statement.statements@),
            );
        }
        self.env.pop_frame();
        r
    }

    /// Execute a conditional: evaluate the condition's truthiness and run
    /// the matching block, if any.
    fn execute_if_statement(&mut self, fuel: u64, statement: &IfStatement) -> (r: Result<
        (),
        RuntimeError,
    >)
        requires
            old(self).wf(),
        ensures
            final(self).wf(),
            final(self).reporter == old(self).reporter,
            exec_stmt(
                fuel as nat,
                old(self).env@,
                outs(old(self).output@),
                StmtModel::If(crate::statement::if_model(*statement)),
            ) == (final(self).env@, outs(final(self).output@), unit_model(r)),
        decreases fuel, *statement, 3nat,
    {
        let cond = match self.evaluate(&statement.condition) {
            Ok(v) => v,
            Err(e) => {
                return Err(e);
            },
        };
        if Self::is_truthy(&cond) {
            self.execute_block_statement(fuel, &statement.then_branch)
        } else {
            match &statement.else_branch {
                Some(b) => self.execute_block_statement(fuel, b),
                None => Ok(()),
            }
        }
    }

    /// Execute a while statement: re-evaluate the condition and re-run the
    /// body block until the condition comes out falsy, spending one unit of
    /// the iteration budget per further round.
    fn execute_while_statement(&mut self, fuel: u64, statement: &WhileStatement) -> (r: Result<
        (),
        RuntimeError,
    >)
        requires
            old(self).wf(),
        ensures
            final(self).wf(),
            final(self).reporter == old(self).reporter,
            exec_while(fuel as nat, old(self).env@, outs(old(self).output@), while_model(*statement)) == (
                final(self).env@,
                outs(final(self).output@),
                unit_model(r),
            ),
        decreases fuel, *statement, 3nat,
    {
        let cond = match self.evaluate(&statement.condition) {
            Ok(v) => v,
            Err(e) => {
                return Err(e);
            },
        };
        if !Self::is_truthy(&cond) {
            return Ok(());
        }
        match self.execute_block_statement(fuel, &statement.body) {
            Ok(_) => {},
            Err(e) => {
                return Err(e);
            },
        }
        if fuel == 0 {
            let marker = Token::new(
                crate::token::TokenType::While,
                String::new(),
                Value::Nil,
                0,
            );
            let e = RuntimeError::new(ErrorKind::Exhausted, marker, "Loop budget exhausted.");
            proof {
                assert(e@ == crate::error::exhausted_err());
            }
            return Err(e);
        }
        self.execute_while_statement(fuel - 1, statement)
    }

    /// Execute one statement against the current scope chain, with `fuel`
    /// bounding how many iterations each loop in it may take.
    fn execute(&mut self, fuel: u64, statement: &Statement) -> (r: Result<(), RuntimeError>)
        requires
            old(self).wf(),
        ensures
            final(self).wf(),
            final(self).reporter == old(self).reporter,
            exec_stmt(fuel as nat, old(self).env@, outs(old(self).output@), stmt_model(*statement)) == (
                final(self).env@,
                outs(final(self).output@),
                unit_model(r),
            ),
        decreases fuel, *statement, 4nat,
    {
        match statement {
            Statement::Print(x) => self.execute_print_statement(x),
            Statement::Expression(x) => self.execute_expression_statement(x),
            Statement::Var(x) => self.execute_var_statement(x),
            Statement::Block(x) => self.execute_block_statement(fuel, x),
            Statement::If(x) => self.execute_if_statement(fuel, x),
            Statement::While(x) => self.execute_while_statement(fuel, x),
        }
    }

    /// Run a whole program: each top-level statement in order, each with the
    /// full iteration budget; a runtime error is reported to the handler and
    /// execution proceeds with the next top-level statement.
    pub fn interpret(&mut self, statements: Vec<Statement>)
        requires
            old(self).wf(),
        ensures
            final(self).wf(),
            run_stmts(
                u64::MAX as nat,
                old(self).env@,
                outs(old(self).output@),
                old(self).reporter@,
                stmts_model(statements@),
            ) == (final(self).env@, outs(final(self).output@), final(self).reporter@),
    {
        let ghost pre = *self;
        let ghost mst = stmts_model(statements@);
        let n = statements.len();
        let mut i: usize = 0;
        proof {
            lemma_stmts_model(statements@);
            assert(mst.take(0) =~= Seq::<StmtModel>::empty());
        }
        while i < n
            invariant
                pre == *old(self),
                i <= n,
                n == statements@.len(),
                mst == stmts_model(statements@),
                mst.len() == n,
                forall|j: int| 0 <= j < n ==> mst[j] == stmt_model(#[trigger] statements@[j]),
                self.wf(),
                run_stmts(
                    u64::MAX as nat,
                    pre.env@,
                    outs(pre.output@),
                    pre.reporter@,
                    mst.take(i as int),
                ) == (self.env@, outs(self.output@), self.reporter@),
            decreases n - i,
        {
            let r = self.execute(u64::MAX, &statements[i]);
            match r {
                Ok(_) => {},
                Err(x) => {
                    self.reporter.report(x.token.line, x.message.as_str());
                },
            }
            proof {
                assert(mst.take(i as int + 1).drop_last() =~= mst.take(i as int));
                assert(mst.take(i as int + 1).last() == mst[i as int]);
            }
            i = i + 1;
        }
        proof {
            assert(mst.take(n as int) =~= mst);
        }
    }
}

} // verus!
