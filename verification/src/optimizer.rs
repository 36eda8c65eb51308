//! Optimization passes on the syntax tree: the constants of a program are
//! collected, and expressions are simplified at their root.

use crate::ast::{Ast, Expr, Statement};
use crate::error::EngineError;
use crate::prover::{copy_expr, same_expr};
use crate::scalar::Real;
use crate::symbols::SymbolTable;
use vstd::prelude::*;

verus! {

/// The optimizer; holds the constants of the programs it has seen.
pub struct Optimizer {
    pub constant_cache: SymbolTable<Real>,
}

/// Whether a term is the number zero, of either sign.
pub open spec fn zero_literal(expr: Expr) -> bool {
    match expr {
        Expr::Number(x) => x.same_value(Real { bits: 0 }),
        _ => false,
    }
}

/// An expression simplified at its root: a product with the number zero is
/// zero; a sum with the number zero is the other operand, simplified; the
/// conjugate transpose of a conjugate transpose is the operand, simplified;
/// anything else is itself.
pub open spec fn simplified(expr: Expr) -> Expr
    decreases expr,
{
    match expr {
        Expr::Mul(left, right) => if zero_literal(*left) || zero_literal(*right) {
            Expr::Number(Real { bits: 0 })
        } else {
            expr
        },
        Expr::Add(left, right) => if zero_literal(*left) {
            simplified(*right)
        } else if zero_literal(*right) {
            simplified(*left)
        } else {
            expr
        },
        Expr::Dagger(inner) => match *inner {
            Expr::Dagger(inner2) => simplified(*inner2),
            _ => expr,
        },
        _ => expr,
    }
}

/// The constants that the statements from `from` on declare, added to
/// `known` in their order.
pub open spec fn collected(known: Map<Seq<char>, Real>, stmts: Seq<Statement>, from: int) -> Map<
    Seq<char>,
    Real,
>
    decreases stmts.len() - from,
{
    if from < 0 || from >= stmts.len() {
        known
    } else {
        match stmts[from] {
            Statement::ConstDecl { name, value } => collected(
                known.insert(name@, value),
                stmts,
                from + 1,
            ),
            _ => collected(known, stmts, from + 1),
        }
    }
}

/// Whether a term is the number zero, of either sign.
fn is_zero_literal(expr: &Expr) -> (r: bool)
    ensures
        r == zero_literal(*expr),
{
    match expr {
        Expr::Number(x) => x.equals(Real::zero()),
        _ => false,
    }
}

impl Optimizer {
    /// An optimizer that has seen no constants.
    pub fn new() -> (o: Optimizer)
        ensures
            o.constant_cache@ == Map::<Seq<char>, Real>::empty(),
    {
        Optimizer { constant_cache: SymbolTable::new() }
    }

    /// Applies all passes: the constants of the program are collected, the
    /// program itself is returned as it is.
    pub fn optimize(&mut self, ast: Ast) -> (r: Result<Ast, EngineError>)
        ensures
            r == Ok::<Ast, EngineError>(ast),
            final(self).constant_cache@ == collected(
                old(self).constant_cache@,
                ast.statements@,
                0,
            ),
    {
        self.constant_folding(ast)
    }

    /// Collects the constants that a program declares.
    pub fn constant_folding(&mut self, ast: Ast) -> (r: Result<Ast, EngineError>)
        ensures
            r == Ok::<Ast, EngineError>(ast),
            final(self).constant_cache@ == collected(
                old(self).constant_cache@,
                ast.statements@,
                0,
            ),
    {
        let mut i: usize = 0;
        while i < ast.statements.len()
            invariant
                i <= ast.statements@.len(),
                collected(old(self).constant_cache@, ast.statements@, 0) == collected(
                    self.constant_cache@,
                    ast.statements@,
                    i as int,
                ),
            decreases ast.statements@.len() - i,
        {
            match &ast.statements[i] {
                Statement::ConstDecl { name, value } => {
                    self.constant_cache.insert(name.clone(), *value);
                },
                _ => {},
            }
            i += 1;
        }
        Ok(ast)
    }

    /// Simplifies an expression at its root; the result is a copy.
    pub fn simplify_expr(&self, expr: &Expr) -> (r: Expr)
        ensures
            same_expr(simplified(*expr), r),
        decreases expr,
    {
        match expr {
            Expr::Mul(left, right) => {
                if is_zero_literal(left) {
                    Expr::Number(Real::zero())
                } else if is_zero_literal(right) {
                    Expr::Number(Real::zero())
                } else {
                    copy_expr(expr)
                }
            },
            Expr::Add(left, right) => {
                if is_zero_literal(left) {
                    self.simplify_expr(right)
                } else if is_zero_literal(right) {
                    self.simplify_expr(left)
                } else {
                    copy_expr(expr)
                }
            },
            Expr::Dagger(inner) => {
                match &**inner {
                    Expr::Dagger(inner2) => self.simplify_expr(inner2),
                    _ => copy_expr(expr),
                }
            },
            _ => copy_expr(expr),
        }
    }

    /// Which matrices of a program are sparse: none is known to be.
    pub fn detect_sparsity(&self, ast: &Ast) -> (r: SymbolTable<bool>)
        ensures
            r@ == Map::<Seq<char>, bool>::empty(),
    {
        SymbolTable::new()
    }
}

} // verus!
