//! Term rewriting on expressions: structural equality, the rewrite rules
//! and their application at the root of an expression.

use crate::arith::{is_norm, Arithmetic};
use crate::ast::{Expr, MatrixLiteral, VectorLiteral};
use crate::ode::MINUS_ONE_BITS;
use crate::logging::{elapsed_nanos, instant_now, now_millis};
use crate::matrix::Matrix;
use crate::scalar::Real;
use vstd::prelude::*;

verus! {

/// Whether two lists of expressions are equal element by element.
pub open spec fn same_list(a: Seq<Expr>, b: Seq<Expr>) -> bool
    decreases a, 0nat,
{
    a.len() == b.len() && forall|i: int| 0 <= i < a.len() ==> same_expr(#[trigger] a[i], b[i])
}

/// Whether two grids of expressions are equal element by element.
pub open spec fn same_rows(a: Seq<Vec<Expr>>, b: Seq<Vec<Expr>>) -> bool
    decreases a, 1nat,
{
    a.len() == b.len() && forall|i: int| 0 <= i < a.len() ==> same_list((#[trigger] a[i])@, b[i]@)
}

/// Whether two expressions are the same term: the same form, the same
/// numbers bit for bit, the same names, and the same operands.
pub open spec fn same_expr(a: Expr, b: Expr) -> bool
    decreases a, 2nat,
{
    match (a, b) {
        (Expr::Number(x), Expr::Number(y)) => x == y,
        (Expr::ComplexNumber(x), Expr::ComplexNumber(y)) => x == y,
        (Expr::Identifier(x), Expr::Identifier(y)) => x@ == y@,
        (Expr::Matrix(x), Expr::Matrix(y)) => same_rows(x.rows@, y.rows@),
        (Expr::Vector(x), Expr::Vector(y)) => same_list(x.elements@, y.elements@),
        (Expr::Add(a1, a2), Expr::Add(b1, b2)) => same_expr(*a1, *b1) && same_expr(*a2, *b2),
        (Expr::Sub(a1, a2), Expr::Sub(b1, b2)) => same_expr(*a1, *b1) && same_expr(*a2, *b2),
        (Expr::Mul(a1, a2), Expr::Mul(b1, b2)) => same_expr(*a1, *b1) && same_expr(*a2, *b2),
        (Expr::Div(a1, a2), Expr::Div(b1, b2)) => same_expr(*a1, *b1) && same_expr(*a2, *b2),
        (Expr::Pow(a1, a2), Expr::Pow(b1, b2)) => same_expr(*a1, *b1) && same_expr(*a2, *b2),
        (Expr::Dagger(x), Expr::Dagger(y)) => same_expr(*x, *y),
        (Expr::Trace(x), Expr::Trace(y)) => same_expr(*x, *y),
        (Expr::Tensor(a1, a2), Expr::Tensor(b1, b2)) => same_expr(*a1, *b1) && same_expr(
            *a2,
            *b2,
        ),
        (Expr::Commutator(a1, a2), Expr::Commutator(b1, b2)) => same_expr(*a1, *b1) && same_expr(
            *a2,
            *b2,
        ),
        (Expr::AntiCommutator(a1, a2), Expr::AntiCommutator(b1, b2)) => same_expr(*a1, *b1)
            && same_expr(*a2, *b2),
        (Expr::Expm(x), Expr::Expm(y)) => same_expr(*x, *y),
        (Expr::Sqrt(x), Expr::Sqrt(y)) => same_expr(*x, *y),
        (Expr::Sin(x), Expr::Sin(y)) => same_expr(*x, *y),
        (Expr::Cos(x), Expr::Cos(y)) => same_expr(*x, *y),
        (Expr::Exp(x), Expr::Exp(y)) => same_expr(*x, *y),
        (Expr::FuncCall { name: n1, args: x }, Expr::FuncCall { name: n2, args: y }) => n1@ == n2@
            && same_list(x@, y@),
        _ => false,
    }
}

/// Being the same term is reflexive.
pub proof fn lemma_same_expr_reflexive(expr: Expr)
    ensures
        same_expr(expr, expr),
    decreases expr,
{
    match expr {
        Expr::Matrix(m) => {
            assert forall|i: int| 0 <= i < m.rows@.len() implies same_list(
                (#[trigger] m.rows@[i])@,
                m.rows@[i]@,
            ) by {
                lemma_same_list_reflexive(m.rows@[i]@);
            }
            assert(same_rows(m.rows@, m.rows@));
        },
        Expr::Vector(v) => {
            lemma_same_list_reflexive(v.elements@);
            assert(same_expr(expr, expr));
        },
        Expr::Add(a, b) => {
            lemma_same_expr_reflexive(*a);
            lemma_same_expr_reflexive(*b);
            assert(same_expr(expr, expr));
        },
        Expr::Sub(a, b) => {
            lemma_same_expr_reflexive(*a);
            lemma_same_expr_reflexive(*b);
            assert(same_expr(expr, expr));
        },
        Expr::Mul(a, b) => {
            lemma_same_expr_reflexive(*a);
            lemma_same_expr_reflexive(*b);
            assert(same_expr(expr, expr));
        },
        Expr::Div(a, b) => {
            lemma_same_expr_reflexive(*a);
            lemma_same_expr_reflexive(*b);
            assert(same_expr(expr, expr));
        },
        Expr::Pow(a, b) => {
            lemma_same_expr_reflexive(*a);
            lemma_same_expr_reflexive(*b);
            assert(same_expr(expr, expr));
        },
        Expr::Tensor(a, b) => {
            lemma_same_expr_reflexive(*a);
            lemma_same_expr_reflexive(*b);
            assert(same_expr(expr, expr));
        },
        Expr::Commutator(a, b) => {
            lemma_same_expr_reflexive(*a);
            lemma_same_expr_reflexive(*b);
            assert(same_expr(expr, expr));
        },
        Expr::AntiCommutator(a, b) => {
            lemma_same_expr_reflexive(*a);
            lemma_same_expr_reflexive(*b);
            assert(same_expr(expr, expr));
        },
        Expr::Dagger(x) => {
            lemma_same_expr_reflexive(*x);
            assert(same_expr(expr, expr));
        },
        Expr::Trace(x) => {
            lemma_same_expr_reflexive(*x);
            assert(same_expr(expr, expr));
        },
        Expr::Expm(x) => {
            lemma_same_expr_reflexive(*x);
            assert(same_expr(expr, expr));
        },
        Expr::Sqrt(x) => {
            lemma_same_expr_reflexive(*x);
            assert(same_expr(expr, expr));
        },
        Expr::Sin(x) => {
            lemma_same_expr_reflexive(*x);
            assert(same_expr(expr, expr));
        },
        Expr::Cos(x) => {
            lemma_same_expr_reflexive(*x);
            assert(same_expr(expr, expr));
        },
        Expr::Exp(x) => {
            lemma_same_expr_reflexive(*x);
            assert(same_expr(expr, expr));
        },
        Expr::FuncCall { args, .. } => {
            lemma_same_list_reflexive(args@);
            assert(same_expr(expr, expr));
        },
        Expr::Number(_) => {
            assert(same_expr(expr, expr));
        },
        Expr::ComplexNumber(_) => {
            assert(same_expr(expr, expr));
        },
        Expr::Identifier(_) => {
            assert(same_expr(expr, expr));
        },
    }
}

/// Being the same list of terms is reflexive.
pub proof fn lemma_same_list_reflexive(list: Seq<Expr>)
    ensures
        same_list(list, list),
    decreases list,
{
    assert forall|i: int| 0 <= i < list.len() implies same_expr(#[trigger] list[i], list[i]) by {
        lemma_same_expr_reflexive(list[i]);
    }
}

/// Whether two lists of expressions are the same, element by element.
pub fn list_equal(a: &Vec<Expr>, b: &Vec<Expr>) -> (r: bool)
    ensures
        r == same_list(a@, b@),
    decreases a@, 0nat,
{
    if a.len() != b.len() {
        return false;
    }
    let mut i: usize = 0;
    while i < a.len()
        invariant
            i <= a@.len(),
            a@.len() == b@.len(),
            forall|k: int| 0 <= k < i ==> same_expr(#[trigger] a@[k], b@[k]),
        decreases a@.len() - i,
    {
        if !expr_equal(&a[i], &b[i]) {
            return false;
        }
        i += 1;
    }
    true
}

/// Whether two grids of expressions are the same, element by element.
pub fn rows_equal(a: &Vec<Vec<Expr>>, b: &Vec<Vec<Expr>>) -> (r: bool)
    ensures
        r == same_rows(a@, b@),
    decreases a@, 1nat,
{
    if a.len() != b.len() {
        return false;
    }
    let mut i: usize = 0;
    while i < a.len()
        invariant
            i <= a@.len(),
            a@.len() == b@.len(),
            forall|k: int| 0 <= k < i ==> same_list((#[trigger] a@[k])@, b@[k]@),
        decreases a@.len() - i,
    {
        if !list_equal(&a[i], &b[i]) {
            return false;
        }
        i += 1;
    }
    true
}

/// Whether two expressions are the same term.
pub fn expr_equal(a: &Expr, b: &Expr) -> (r: bool)
    ensures
        r == same_expr(*a, *b),
    decreases a, 2nat,
{
    match (a, b) {
        (Expr::Number(x), Expr::Number(y)) => x.bits == y.bits,
        (Expr::ComplexNumber(x), Expr::ComplexNumber(y)) => x.re.bits == y.re.bits && x.im.bits
            == y.im.bits,
        (Expr::Identifier(x), Expr::Identifier(y)) => *x == *y,
        (Expr::Matrix(x), Expr::Matrix(y)) => rows_equal(&x.rows, &y.rows),
        (Expr::Vector(x), Expr::Vector(y)) => list_equal(&x.elements, &y.elements),
        (Expr::Add(a1, a2), Expr::Add(b1, b2)) => expr_equal(a1, b1) && expr_equal(a2, b2),
        (Expr::Sub(a1, a2), Expr::Sub(b1, b2)) => expr_equal(a1, b1) && expr_equal(a2, b2),
        (Expr::Mul(a1, a2), Expr::Mul(b1, b2)) => expr_equal(a1, b1) && expr_equal(a2, b2),
        (Expr::Div(a1, a2), Expr::Div(b1, b2)) => expr_equal(a1, b1) && expr_equal(a2, b2),
        (Expr::Pow(a1, a2), Expr::Pow(b1, b2)) => expr_equal(a1, b1) && expr_equal(a2, b2),
        (Expr::Dagger(x), Expr::Dagger(y)) => expr_equal(x, y),
        (Expr::Trace(x), Expr::Trace(y)) => expr_equal(x, y),
        (Expr::Tensor(a1, a2), Expr::Tensor(b1, b2)) => expr_equal(a1, b1) && expr_equal(a2, b2),
        (Expr::Commutator(a1, a2), Expr::Commutator(b1, b2)) => expr_equal(a1, b1) && expr_equal(
            a2,
            b2,
        ),
        (Expr::AntiCommutator(a1, a2), Expr::AntiCommutator(b1, b2)) => expr_equal(a1, b1)
            && expr_equal(a2, b2),
        (Expr::Expm(x), Expr::Expm(y)) => expr_equal(x, y),
        (Expr::Sqrt(x), Expr::Sqrt(y)) => expr_equal(x, y),
        (Expr::Sin(x), Expr::Sin(y)) => expr_equal(x, y),
        (Expr::Cos(x), Expr::Cos(y)) => expr_equal(x, y),
        (Expr::Exp(x), Expr::Exp(y)) => expr_equal(x, y),
        (Expr::FuncCall { name: n1, args: x }, Expr::FuncCall { name: n2, args: y }) => *n1 == *n2
            && list_equal(x, y),
        _ => false,
    }
}

/// A copy of a list of expressions.
pub fn copy_list(a: &Vec<Expr>) -> (r: Vec<Expr>)
    ensures
        same_list(a@, r@),
    decreases a@, 0nat,
{
    let mut out: Vec<Expr> = Vec::new();
    let mut i: usize = 0;
    while i < a.len()
        invariant
            i <= a@.len(),
            out@.len() == i,
            forall|k: int| 0 <= k < i ==> same_expr(#[trigger] a@[k], out@[k]),
        decreases a@.len() - i,
    {
        out.push(copy_expr(&a[i]));
        i += 1;
    }
    out
}

/// A copy of a grid of expressions.
pub fn copy_rows(a: &Vec<Vec<Expr>>) -> (r: Vec<Vec<Expr>>)
    ensures
        same_rows(a@, r@),
    decreases a@, 1nat,
{
    let mut out: Vec<Vec<Expr>> = Vec::new();
    let mut i: usize = 0;
    while i < a.len()
        invariant
            i <= a@.len(),
            out@.len() == i,
            forall|k: int| 0 <= k < i ==> same_list((#[trigger] a@[k])@, out@[k]@),
        decreases a@.len() - i,
    {
        out.push(copy_list(&a[i]));
        i += 1;
    }
    out
}

/// A copy of an expression: the same term.
pub fn copy_expr(a: &Expr) -> (r: Expr)
    ensures
        same_expr(*a, r),
    decreases a, 2nat,
{
    match a {
        Expr::Number(x) => Expr::Number(*x),
        Expr::ComplexNumber(x) => Expr::ComplexNumber(*x),
        Expr::Identifier(x) => Expr::Identifier(x.clone()),
        Expr::Matrix(x) => Expr::Matrix(MatrixLiteral { rows: copy_rows(&x.rows) }),
        Expr::Vector(x) => Expr::Vector(VectorLiteral { elements: copy_list(&x.elements) }),
        Expr::Add(a1, a2) => Expr::Add(Box::new(copy_expr(a1)), Box::new(copy_expr(a2))),
        Expr::Sub(a1, a2) => Expr::Sub(Box::new(copy_expr(a1)), Box::new(copy_expr(a2))),
        Expr::Mul(a1, a2) => Expr::Mul(Box::new(copy_expr(a1)), Box::new(copy_expr(a2))),
        Expr::Div(a1, a2) => Expr::Div(Box::new(copy_expr(a1)), Box::new(copy_expr(a2))),
        Expr::Pow(a1, a2) => Expr::Pow(Box::new(copy_expr(a1)), Box::new(copy_expr(a2))),
        Expr::Dagger(x) => Expr::Dagger(Box::new(copy_expr(x))),
        Expr::Trace(x) => Expr::Trace(Box::new(copy_expr(x))),
        Expr::Tensor(a1, a2) => Expr::Tensor(Box::new(copy_expr(a1)), Box::new(copy_expr(a2))),
        Expr::Commutator(a1, a2) => Expr::Commutator(
            Box::new(copy_expr(a1)),
            Box::new(copy_expr(a2)),
        ),
        Expr::AntiCommutator(a1, a2) => Expr::AntiCommutator(
            Box::new(copy_expr(a1)),
            Box::new(copy_expr(a2)),
        ),
        Expr::Expm(x) => Expr::Expm(Box::new(copy_expr(x))),
        Expr::Sqrt(x) => Expr::Sqrt(Box::new(copy_expr(x))),
        Expr::Sin(x) => Expr::Sin(Box::new(copy_expr(x))),
        Expr::Cos(x) => Expr::Cos(Box::new(copy_expr(x))),
        Expr::Exp(x) => Expr::Exp(Box::new(copy_expr(x))),
        Expr::FuncCall { name, args } => Expr::FuncCall {
            name: name.clone(),
            args: copy_list(args),
        },
    }
}

/// Bit pattern of `1e-15`: numbers of smaller modulus count as zero.
pub const TINY_BITS: u64 = 0x3cd203af9ee75616;

/// The rewrite rules.
#[derive(Clone, Copy, Debug, PartialEq, Eq, Hash, Structural)]
pub enum RewriteRule {
    DaggerDagger,
    DaggerSum,
    DaggerProduct,
    DaggerScalar,
    TraceCyclic,
    TraceLinear,
    TraceScalar,
    CommutatorSelf,
    CommutatorAnti,
    CommutatorLinear,
    JacobiIdentity,
    TensorDistribute,
    TensorAssoc,
    TensorDagger,
    PauliSquare,
    PauliCommutator,
    PauliAnticommutator,
    MultiplyZero,
    AddZero,
    MultiplyIdentity,
    Canonicalize,
    HermitianByConstruction,
}

/// The rules of a prover: those used in the search, and those that bring an
/// expression into canonical form.
pub struct RewriteSystem {
    pub rules: Vec<RewriteRule>,
    pub canonical_rules: Vec<RewriteRule>,
}

/// Limits of a proof search.
#[derive(Clone, Copy, Debug, PartialEq, Eq, Structural)]
pub struct ProverConfig {
    pub max_steps: usize,
    pub max_depth: usize,
    /// In milliseconds.
    pub timeout: u64,
    pub enable_smt: bool,
    pub counterexample_samples: usize,
}

/// One step of the verification of a certificate.
#[derive(Debug, PartialEq, Eq)]
pub struct VerificationStep {
    pub step_number: usize,
    pub description: String,
    pub verified: bool,
}

impl Default for ProverConfig {
    fn default() -> (c: ProverConfig)
        ensures
            c == (ProverConfig {
                max_steps: 1000,
                max_depth: 20,
                timeout: 5000,
                enable_smt: false,
                counterexample_samples: 100,
            }),
    {
        ProverConfig {
            max_steps: 1000,
            max_depth: 20,
            timeout: 5000,
            enable_smt: false,
            counterexample_samples: 100,
        }
    }
}

impl Default for RewriteSystem {
    fn default() -> (s: RewriteSystem)
        ensures
            s.rules@ == search_rules(),
            s.canonical_rules@ == canonical(),
    {
        RewriteSystem {
            rules: RewriteRule::all_rules(),
            canonical_rules: RewriteRule::canonical_rules(),
        }
    }
}

/// The rules that the search applies, in their order.
pub open spec fn search_rules() -> Seq<RewriteRule> {
    seq![
        RewriteRule::DaggerDagger,
        RewriteRule::DaggerSum,
        RewriteRule::DaggerProduct,
        RewriteRule::CommutatorSelf,
        RewriteRule::CommutatorAnti,
        RewriteRule::MultiplyZero,
        RewriteRule::AddZero,
        RewriteRule::MultiplyIdentity,
        RewriteRule::PauliSquare,
    ]
}

/// The rules that bring an expression into canonical form, in their order.
pub open spec fn canonical() -> Seq<RewriteRule> {
    seq![
        RewriteRule::AddZero,
        RewriteRule::MultiplyZero,
        RewriteRule::MultiplyIdentity,
        RewriteRule::DaggerDagger,
    ]
}

/// `zero` says whether a term counts as zero: a number whose modulus lies
/// below `1e-15`.
pub open spec fn is_zero_test<A: Arithmetic>(ar: &A, expr: Expr, zero: bool) -> bool {
    match expr {
        Expr::Number(x) => zero == x.absolute().lt(Real { bits: TINY_BITS }),
        Expr::ComplexNumber(c) => exists|n: Real| #[trigger]
            is_norm(ar, c, n) && zero == n.lt(Real { bits: TINY_BITS }),
        _ => !zero,
    }
}

/// Whether a term is the identity: the name `I` or `identity`.
pub open spec fn names_identity(expr: Expr) -> bool {
    match expr {
        Expr::Identifier(name) => name@ == "I"@ || name@ == "identity"@,
        _ => false,
    }
}

/// `either` says whether one of two terms counts as zero, the left one
/// being looked at first.
pub open spec fn is_either_zero<A: Arithmetic>(ar: &A, left: Expr, right: Expr, either: bool) -> bool {
    exists|l: bool| #[trigger]
        is_zero_test(ar, left, l) && if l {
            either
        } else {
            is_zero_test(ar, right, either)
        }
}

/// The number zero as a term.
pub open spec fn zero_term() -> Expr {
    Expr::Number(Real { bits: 0 })
}

/// `r` is what a rule gives at the root of `expr`, if it applies there:
/// `(A†)† = A`; `0 * A = 0`; `A + 0 = A`; `I * A = A`; `[A, A] = 0`;
/// `[A, B] = -1 * [B, A]`. The other rules apply nowhere.
pub open spec fn is_rewritten<A: Arithmetic>(
    ar: &A,
    rule: RewriteRule,
    expr: Expr,
    r: Option<Expr>,
) -> bool {
    match (rule, expr) {
        (RewriteRule::DaggerDagger, Expr::Dagger(inner)) => match *inner {
            Expr::Dagger(x) => r is Some && same_expr(*x, r->Some_0),
            _ => r is None,
        },
        (RewriteRule::MultiplyZero, Expr::Mul(lhs, rhs)) => exists|either: bool| #[trigger]
            is_either_zero(ar, *lhs, *rhs, either) && if either {
                r == Some(zero_term())
            } else {
                r is None
            },
        (RewriteRule::AddZero, Expr::Add(lhs, rhs)) => exists|right: bool| #[trigger]
            is_zero_test(ar, *rhs, right) && if right {
                r is Some && same_expr(*lhs, r->Some_0)
            } else {
                exists|left: bool| #[trigger]
                    is_zero_test(ar, *lhs, left) && if left {
                        r is Some && same_expr(*rhs, r->Some_0)
                    } else {
                        r is None
                    }
            },
        (RewriteRule::MultiplyIdentity, Expr::Mul(lhs, rhs)) => if names_identity(*lhs) {
            r is Some && same_expr(*rhs, r->Some_0)
        } else if names_identity(*rhs) {
            r is Some && same_expr(*lhs, r->Some_0)
        } else {
            r is None
        },
        (RewriteRule::CommutatorSelf, Expr::Commutator(lhs, rhs)) => if same_expr(*lhs, *rhs) {
            r == Some(zero_term())
        } else {
            r is None
        },
        (RewriteRule::CommutatorAnti, Expr::Commutator(lhs, rhs)) => r is Some && match r->Some_0 {
            Expr::Mul(sign, swapped) => *sign == Expr::Number(Real { bits: MINUS_ONE_BITS })
                && match *swapped {
                Expr::Commutator(first, second) => same_expr(*rhs, *first) && same_expr(
                    *lhs,
                    *second,
                ),
                _ => false,
            },
            _ => false,
        },
        _ => r is None,
    }
}

/// The text that describes a rule.
pub open spec fn description_of(rule: RewriteRule) -> Seq<char> {
    match rule {
        RewriteRule::DaggerDagger => "(A†)† = A"@,
        RewriteRule::DaggerSum => "(A + B)† = A† + B†"@,
        RewriteRule::DaggerProduct => "(AB)† = B†A†"@,
        RewriteRule::CommutatorSelf => "[A, A] = 0"@,
        RewriteRule::CommutatorAnti => "[A, B] = -[B, A]"@,
        RewriteRule::MultiplyZero => "0 * A = 0"@,
        RewriteRule::AddZero => "A + 0 = A"@,
        RewriteRule::MultiplyIdentity => "I * A = A"@,
        RewriteRule::DaggerScalar => "DaggerScalar"@,
        RewriteRule::TraceCyclic => "TraceCyclic"@,
        RewriteRule::TraceLinear => "TraceLinear"@,
        RewriteRule::TraceScalar => "TraceScalar"@,
        RewriteRule::CommutatorLinear => "CommutatorLinear"@,
        RewriteRule::JacobiIdentity => "JacobiIdentity"@,
        RewriteRule::TensorDistribute => "TensorDistribute"@,
        RewriteRule::TensorAssoc => "TensorAssoc"@,
        RewriteRule::TensorDagger => "TensorDagger"@,
        RewriteRule::PauliSquare => "PauliSquare"@,
        RewriteRule::PauliCommutator => "PauliCommutator"@,
        RewriteRule::PauliAnticommutator => "PauliAnticommutator"@,
        RewriteRule::Canonicalize => "Canonicalize"@,
        RewriteRule::HermitianByConstruction => "HermitianByConstruction"@,
    }
}

/// Whether a term counts as zero.
pub fn is_zero<A: Arithmetic>(ar: &A, expr: &Expr) -> (zero: bool)
    ensures
        is_zero_test(ar, *expr, zero),
{
    match expr {
        Expr::Number(x) => {
            let zero = x.abs().less_than(Real::from_bits(TINY_BITS));
            assert(is_zero_test(ar, *expr, zero));
            zero
        },
        Expr::ComplexNumber(c) => {
            let n = ar.norm(*c);
            let zero = n.less_than(Real::from_bits(TINY_BITS));
            assert(is_norm(ar, *c, n) && zero == n.lt(Real { bits: TINY_BITS }));
            assert(is_zero_test(ar, *expr, zero));
            zero
        },
        _ => {
            assert(is_zero_test(ar, *expr, false));
            false
        },
    }
}

/// Whether a term is the identity: the name `I` or `identity`.
pub fn is_identity(expr: &Expr) -> (r: bool)
    ensures
        r == names_identity(*expr),
{
    match expr {
        Expr::Identifier(name) => {
            let short = "I".to_string();
            let long = "identity".to_string();
            *name == short || *name == long
        },
        _ => false,
    }
}

impl RewriteRule {
    /// The rules that the search applies.
    pub fn all_rules() -> (r: Vec<RewriteRule>)
        ensures
            r@ == search_rules(),
    {
        let r = vec![
            RewriteRule::DaggerDagger,
            RewriteRule::DaggerSum,
            RewriteRule::DaggerProduct,
            RewriteRule::CommutatorSelf,
            RewriteRule::CommutatorAnti,
            RewriteRule::MultiplyZero,
            RewriteRule::AddZero,
            RewriteRule::MultiplyIdentity,
            RewriteRule::PauliSquare,
        ];
        assert(r@ =~= search_rules());
        r
    }

    /// The rules that bring an expression into canonical form.
    pub fn canonical_rules() -> (r: Vec<RewriteRule>)
        ensures
            r@ == canonical(),
    {
        let r = vec![
            RewriteRule::AddZero,
            RewriteRule::MultiplyZero,
            RewriteRule::MultiplyIdentity,
            RewriteRule::DaggerDagger,
        ];
        assert(r@ =~= canonical());
        r
    }

    /// Applies the rule at the root of an expression: the rewritten
    /// expression, or `None` where the rule does not apply there.
    pub fn apply<A: Arithmetic>(&self, ar: &A, expr: &Expr) -> (r: Option<Expr>)
        ensures
            is_rewritten(ar, *self, *expr, r),
    {
        match (self, expr) {
            (RewriteRule::DaggerDagger, Expr::Dagger(inner)) => match &**inner {
                Expr::Dagger(x) => Some(copy_expr(x)),
                _ => None,
            },
            (RewriteRule::MultiplyZero, Expr::Mul(lhs, rhs)) => {
                let left = is_zero(ar, lhs);
                let either = if left {
                    true
                } else {
                    is_zero(ar, rhs)
                };
                assert(is_either_zero(ar, **lhs, **rhs, either)) by {
                    assert(is_zero_test(ar, **lhs, left));
                }
                if either {
                    Some(Expr::Number(Real::zero()))
                } else {
                    None
                }
            },
            (RewriteRule::AddZero, Expr::Add(lhs, rhs)) => {
                let right = is_zero(ar, rhs);
                if right {
                    Some(copy_expr(lhs))
                } else {
                    let left = is_zero(ar, lhs);
                    if left {
                        Some(copy_expr(rhs))
                    } else {
                        None
                    }
                }
            },
            (RewriteRule::MultiplyIdentity, Expr::Mul(lhs, rhs)) => {
                if is_identity(lhs) {
                    Some(copy_expr(rhs))
                } else if is_identity(rhs) {
                    Some(copy_expr(lhs))
                } else {
                    None
                }
            },
            (RewriteRule::CommutatorSelf, Expr::Commutator(lhs, rhs)) => {
                if expr_equal(lhs, rhs) {
                    Some(Expr::Number(Real::zero()))
                } else {
                    None
                }
            },
            (RewriteRule::CommutatorAnti, Expr::Commutator(lhs, rhs)) => {
                let swapped = Expr::Commutator(Box::new(copy_expr(rhs)), Box::new(copy_expr(lhs)));
                Some(
                    Expr::Mul(
                        Box::new(Expr::Number(Real::from_bits(MINUS_ONE_BITS))),
                        Box::new(swapped),
                    ),
                )
            },
            _ => None,
        }
    }

    /// The text that describes the rule.
    pub fn description(&self) -> (r: String)
        ensures
            r@ == description_of(*self),
    {
        match self {
            RewriteRule::DaggerDagger => "(A†)† = A".to_string(),
            RewriteRule::DaggerSum => "(A + B)† = A† + B†".to_string(),
            RewriteRule::DaggerProduct => "(AB)† = B†A†".to_string(),
            RewriteRule::CommutatorSelf => "[A, A] = 0".to_string(),
            RewriteRule::CommutatorAnti => "[A, B] = -[B, A]".to_string(),
            RewriteRule::MultiplyZero => "0 * A = 0".to_string(),
            RewriteRule::AddZero => "A + 0 = A".to_string(),
            RewriteRule::MultiplyIdentity => "I * A = A".to_string(),
            RewriteRule::DaggerScalar => "DaggerScalar".to_string(),
            RewriteRule::TraceCyclic => "TraceCyclic".to_string(),
            RewriteRule::TraceLinear => "TraceLinear".to_string(),
            RewriteRule::TraceScalar => "TraceScalar".to_string(),
            RewriteRule::CommutatorLinear => "CommutatorLinear".to_string(),
            RewriteRule::JacobiIdentity => "JacobiIdentity".to_string(),
            RewriteRule::TensorDistribute => "TensorDistribute".to_string(),
            RewriteRule::TensorAssoc => "TensorAssoc".to_string(),
            RewriteRule::TensorDagger => "TensorDagger".to_string(),
            RewriteRule::PauliSquare => "PauliSquare".to_string(),
            RewriteRule::PauliCommutator => "PauliCommutator".to_string(),
            RewriteRule::PauliAnticommutator => "PauliAnticommutator".to_string(),
            RewriteRule::Canonicalize => "Canonicalize".to_string(),
            RewriteRule::HermitianByConstruction => "HermitianByConstruction".to_string(),
        }
    }
}

/// Something that a proof may take for granted.
#[derive(Debug, PartialEq, Eq)]
pub struct Assumption {
    pub description: String,
}

/// The kinds of properties of an operator.
#[derive(Clone, Copy, Debug, PartialEq, Eq, Structural)]
pub enum PropertyKind {
    Hermitian,
    Unitary,
    PSD,
    TraceOne,
    CPTP,
    Commutes,
    Idempotent,
}

/// What a proof proves.
#[derive(Debug, PartialEq, Eq)]
pub enum Statement {
    Identity { lhs: Expr, rhs: Expr },
    Property { kind: PropertyKind, expr: Expr },
}

/// One rewriting step of a proof.
#[derive(Debug, PartialEq, Eq)]
pub struct ProofStep {
    pub rule: RewriteRule,
    pub before: Expr,
    pub after: Expr,
    pub justification: String,
}

/// What vouches for a proof.
#[derive(Debug, PartialEq, Eq)]
pub struct Certificate {
    /// SHA-256 of the assumptions, in hexadecimal digits.
    pub hash: String,
    /// Milliseconds since the Unix epoch.
    pub timestamp: i64,
    pub engine_version: String,
    pub assumptions: Vec<Assumption>,
    pub verification_steps: Vec<VerificationStep>,
}

/// A proof of a statement by rewriting.
#[derive(Debug, PartialEq, Eq)]
pub struct Proof {
    pub statement: Statement,
    pub steps: Vec<ProofStep>,
    pub assumptions_used: Vec<Assumption>,
    pub certificate: Certificate,
}

/// A matrix as pairs of real and imaginary part.
#[derive(Debug, PartialEq, Eq)]
pub struct MatrixValue {
    pub rows: usize,
    pub cols: usize,
    pub elements: Vec<Vec<(Real, Real)>>,
}

/// Values of the parameters for which the two sides of an identity differ.
#[derive(Debug, PartialEq, Eq)]
pub struct Counterexample {
    pub params: Vec<(String, Real)>,
    pub lhs_value: MatrixValue,
    pub rhs_value: MatrixValue,
    pub difference_norm: Real,
}

/// Why a proof was not found.
#[derive(Clone, Copy, Debug, PartialEq, Eq, Structural)]
pub enum Reason {
    Timeout,
    Exhausted,
    InsufficientAssumptions,
    NumericViolation(Real),
    CannotEvaluate,
}

/// The outcome of an attempt to prove an identity.
#[derive(Debug, PartialEq, Eq)]
pub enum ProofResult {
    Proven(Proof),
    Refuted(Counterexample),
    Unknown(Reason),
}

/// A property of one or more operators.
#[derive(Debug, PartialEq, Eq)]
pub enum Property {
    Hermitian(Expr),
    Unitary(Expr),
    PSD(Expr),
    TraceOne(Expr),
    CPTP(Vec<Expr>),
    Commutes(Expr, Expr),
    Idempotent(Expr),
}

/// A check of a property on numbers.
#[derive(Debug, PartialEq, Eq)]
pub struct NumericProof {
    pub method: String,
    pub norm_diff: Real,
    pub params_used: Vec<(String, Real)>,
}

/// How a property was established, or why it was not.
#[derive(Debug, PartialEq, Eq)]
pub enum PropertyResult {
    SymbolicProof(Vec<ProofStep>),
    NumericCertificate(NumericProof),
    Failed(Reason),
}

/// The outcome of an attempt to prove a property.
#[derive(Debug, PartialEq, Eq)]
pub struct PropertyProof {
    pub property: Property,
    pub result: PropertyResult,
    pub certificate: Option<Certificate>,
}

/// The assumptions of a prover and the parameters bound by them.
pub struct AssumptionContext {
    assumptions: Vec<Assumption>,
    pub bound_params: Vec<(String, Real)>,
}

/// The identities that a prover has decided: both sides and the kind of
/// outcome.
pub struct ProofCache {
    entries: Vec<(Expr, Expr, ProofResult)>,
}

/// The prover.
pub struct Prover {
    rewrite_rules: RewriteSystem,
    assumptions: AssumptionContext,
    proof_cache: ProofCache,
    config: ProverConfig,
}

/// The SHA-256 digest of the UTF-8 bytes of a text, in lowercase
/// hexadecimal digits.
pub uninterp spec fn sha256_hex_of(text: Seq<char>) -> Seq<char>;

/// `sha2::Sha256::digest` on the bytes of `text`, its output written with
/// `{:x}`: the digest in lowercase hexadecimal digits.
#[verifier::external_body]
fn sha256_hex(text: &str) -> (r: String)
    ensures
        r@ == sha256_hex_of(text@),
{
    format!("{:x}", <sha2::Sha256 as sha2::Digest>::digest(text.as_bytes()))
}

impl MatrixValue {
    /// The elements of a matrix as pairs of real and imaginary part.
    pub fn from_array(arr: &Matrix) -> (v: MatrixValue)
        requires
            arr.wf(),
        ensures
            v.rows == arr.nrows(),
            v.cols == arr.ncols(),
            v.elements@.len() == arr.nrows(),
            forall|i: int, j: int|
                0 <= i < arr.nrows() && 0 <= j < arr.ncols() ==> (#[trigger] v.elements@[i]@[j])
                    == (arr@[i][j].re, arr@[i][j].im),
            forall|i: int| 0 <= i < arr.nrows() ==> (#[trigger] v.elements@[i])@.len() == arr.ncols(),
    {
        let rows: usize = arr.rows();
        let cols: usize = arr.cols();
        let mut elements: Vec<Vec<(Real, Real)>> = Vec::new();
        let mut i: usize = 0;
        while i < rows
            invariant
                i <= rows,
                arr.wf(),
                rows == arr.nrows(),
                cols == arr.ncols(),
                elements@.len() == i,
                forall|p: int| 0 <= p < i ==> (#[trigger] elements@[p])@.len() == cols,
                forall|p: int, q: int|
                    0 <= p < i && 0 <= q < cols ==> (#[trigger] elements@[p]@[q]) == (
                        arr@[p][q].re,
                        arr@[p][q].im,
                    ),
            decreases rows - i,
        {
            let mut row: Vec<(Real, Real)> = Vec::new();
            let mut j: usize = 0;
            while j < cols
                invariant
                    j <= cols,
                    i < rows,
                    arr.wf(),
                    rows == arr.nrows(),
                    cols == arr.ncols(),
                    row@.len() == j,
                    forall|q: int|
                        0 <= q < j ==> (#[trigger] row@[q]) == (
                            arr@[i as int][q].re,
                            arr@[i as int][q].im,
                        ),
                decreases cols - j,
            {
                let c = arr.get(i, j);
                row.push((c.re, c.im));
                j += 1;
            }
            elements.push(row);
            i += 1;
        }
        MatrixValue { rows, cols, elements }
    }
}

impl AssumptionContext {
    /// A context without assumptions.
    pub fn new() -> (c: AssumptionContext)
        ensures
            c.count() == 0,
            c.held() == Seq::<Assumption>::empty(),
    {
        AssumptionContext { assumptions: Vec::new(), bound_params: Vec::new() }
    }

    /// The number of assumptions.
    pub closed spec fn count(&self) -> nat {
        self.assumptions@.len()
    }

    /// The assumptions, in the order in which they were added.
    pub closed spec fn held(&self) -> Seq<Assumption> {
        self.assumptions@
    }

    /// Adds an assumption.
    pub fn add(&mut self, assumption: Assumption)
        ensures
            final(self).count() == old(self).count() + 1,
            final(self).held() == old(self).held().push(assumption),
    {
        self.assumptions.push(assumption);
    }

    /// The names of the parameters that the assumptions leave free: none
    /// is known.
    pub fn free_params(&self) -> (r: Vec<String>)
        ensures
            r@.len() == 0,
    {
        Vec::new()
    }

    /// The assumptions that a proof uses: none is known to be used.
    pub fn used_in_proof(&self, steps: &Vec<ProofStep>) -> (r: Vec<Assumption>)
        ensures
            r@.len() == 0,
    {
        Vec::new()
    }
}

/// The number of operations around the leaves of a term; a literal, a
/// name and a call count as leaves.
pub open spec fn height(expr: Expr) -> nat
    decreases expr,
{
    match expr {
        Expr::Add(a, b) => 1 + height(*a) + height(*b),
        Expr::Sub(a, b) => 1 + height(*a) + height(*b),
        Expr::Mul(a, b) => 1 + height(*a) + height(*b),
        Expr::Div(a, b) => 1 + height(*a) + height(*b),
        Expr::Pow(a, b) => 1 + height(*a) + height(*b),
        Expr::Tensor(a, b) => 1 + height(*a) + height(*b),
        Expr::Commutator(a, b) => 1 + height(*a) + height(*b),
        Expr::AntiCommutator(a, b) => 1 + height(*a) + height(*b),
        Expr::Dagger(x) => 1 + height(*x),
        Expr::Trace(x) => 1 + height(*x),
        Expr::Expm(x) => 1 + height(*x),
        Expr::Sqrt(x) => 1 + height(*x),
        Expr::Sin(x) => 1 + height(*x),
        Expr::Cos(x) => 1 + height(*x),
        Expr::Exp(x) => 1 + height(*x),
        _ => 0,
    }
}

/// The same terms have the same height.
pub proof fn lemma_same_height(a: Expr, b: Expr)
    requires
        same_expr(a, b),
    ensures
        height(a) == height(b),
    decreases a,
{
    match (a, b) {
        (Expr::Add(a1, a2), Expr::Add(b1, b2)) => {
            lemma_same_height(*a1, *b1);
            lemma_same_height(*a2, *b2);
        },
        (Expr::Sub(a1, a2), Expr::Sub(b1, b2)) => {
            lemma_same_height(*a1, *b1);
            lemma_same_height(*a2, *b2);
        },
        (Expr::Mul(a1, a2), Expr::Mul(b1, b2)) => {
            lemma_same_height(*a1, *b1);
            lemma_same_height(*a2, *b2);
        },
        (Expr::Div(a1, a2), Expr::Div(b1, b2)) => {
            lemma_same_height(*a1, *b1);
            lemma_same_height(*a2, *b2);
        },
        (Expr::Pow(a1, a2), Expr::Pow(b1, b2)) => {
            lemma_same_height(*a1, *b1);
            lemma_same_height(*a2, *b2);
        },
        (Expr::Tensor(a1, a2), Expr::Tensor(b1, b2)) => {
            lemma_same_height(*a1, *b1);
            lemma_same_height(*a2, *b2);
        },
        (Expr::Commutator(a1, a2), Expr::Commutator(b1, b2)) => {
            lemma_same_height(*a1, *b1);
            lemma_same_height(*a2, *b2);
        },
        (Expr::AntiCommutator(a1, a2), Expr::AntiCommutator(b1, b2)) => {
            lemma_same_height(*a1, *b1);
            lemma_same_height(*a2, *b2);
        },
        (Expr::Dagger(x), Expr::Dagger(y)) => lemma_same_height(*x, *y),
        (Expr::Trace(x), Expr::Trace(y)) => lemma_same_height(*x, *y),
        (Expr::Expm(x), Expr::Expm(y)) => lemma_same_height(*x, *y),
        (Expr::Sqrt(x), Expr::Sqrt(y)) => lemma_same_height(*x, *y),
        (Expr::Sin(x), Expr::Sin(y)) => lemma_same_height(*x, *y),
        (Expr::Cos(x), Expr::Cos(y)) => lemma_same_height(*x, *y),
        (Expr::Exp(x), Expr::Exp(y)) => lemma_same_height(*x, *y),
        _ => {},
    }
}

/// Whether a rule is one of those that bring a term into canonical form.
pub open spec fn is_canonical_rule(rule: RewriteRule) -> bool {
    rule == RewriteRule::AddZero || rule == RewriteRule::MultiplyZero || rule
        == RewriteRule::MultiplyIdentity || rule == RewriteRule::DaggerDagger
}

/// A canonical rule that applies makes the term lower.
pub proof fn lemma_canonical_rule_lowers<A: Arithmetic>(
    ar: &A,
    rule: RewriteRule,
    expr: Expr,
    r: Option<Expr>,
)
    requires
        is_canonical_rule(rule),
        is_rewritten(ar, rule, expr, r),
        r is Some,
    ensures
        height(r->Some_0) < height(expr),
{
    match (rule, expr) {
        (RewriteRule::DaggerDagger, Expr::Dagger(inner)) => match *inner {
            Expr::Dagger(x) => {
                lemma_same_height(*x, r->Some_0);
                assert(height(*inner) == 1 + height(*x));
                assert(height(expr) == 1 + height(*inner));
            },
            _ => {},
        },
        (RewriteRule::AddZero, Expr::Add(lhs, rhs)) => {
            if same_expr(*lhs, r->Some_0) {
                lemma_same_height(*lhs, r->Some_0);
            }
            if same_expr(*rhs, r->Some_0) {
                lemma_same_height(*rhs, r->Some_0);
            }
            assert(same_expr(*lhs, r->Some_0) || same_expr(*rhs, r->Some_0));
            assert(height(expr) == 1 + height(*lhs) + height(*rhs));
        },
        (RewriteRule::MultiplyIdentity, Expr::Mul(lhs, rhs)) => {
            if same_expr(*lhs, r->Some_0) {
                lemma_same_height(*lhs, r->Some_0);
            }
            if same_expr(*rhs, r->Some_0) {
                lemma_same_height(*rhs, r->Some_0);
            }
            assert(height(expr) == 1 + height(*lhs) + height(*rhs));
        },
        (RewriteRule::MultiplyZero, Expr::Mul(lhs, rhs)) => {
            assert(r == Some(zero_term()));
            assert(height(zero_term()) == 0);
            assert(height(expr) == 1 + height(*lhs) + height(*rhs));
        },
        _ => {
            assert(r is None);
        },
    }
}

/// A step says that its rule, applied to a term that is the same as
/// `before`, gives a term that is the same as `after`.
pub open spec fn is_valid_step<A: Arithmetic>(ar: &A, step: ProofStep) -> bool {
    exists|from: Expr, to: Expr|
        same_expr(from, step.before) && #[trigger] is_rewritten(ar, step.rule, from, Some(to))
            && same_expr(to, step.after)
}

/// Every step is valid.
pub open spec fn all_valid<A: Arithmetic>(ar: &A, steps: Seq<ProofStep>) -> bool {
    forall|i: int| 0 <= i < steps.len() ==> is_valid_step(ar, #[trigger] steps[i])
}

/// The rules of the steps of a proof, in their order.
pub open spec fn rules_of(steps: Seq<ProofStep>) -> Seq<RewriteRule> {
    Seq::new(steps.len(), |i: int| steps[i].rule)
}

/// What an outcome says in short.
pub enum Outline {
    Proven { rules: Seq<RewriteRule> },
    Refuted,
    Unknown(Reason),
}

/// The outline of an outcome: for a proof the rules of its steps.
pub open spec fn outline(result: ProofResult) -> Outline {
    match result {
        ProofResult::Proven(proof) => Outline::Proven { rules: rules_of(proof.steps@) },
        ProofResult::Refuted(_) => Outline::Refuted,
        ProofResult::Unknown(reason) => Outline::Unknown(reason),
    }
}

/// The first entry at or after `from` whose sides are the same as `lhs`
/// and `rhs`.
pub open spec fn cached_at(
    entries: Seq<(Expr, Expr, ProofResult)>,
    lhs: Expr,
    rhs: Expr,
    from: int,
) -> Option<int>
    decreases entries.len() - from,
{
    if from < 0 || from >= entries.len() {
        None
    } else if same_expr(entries[from].0, lhs) && same_expr(entries[from].1, rhs) {
        Some(from)
    } else {
        cached_at(entries, lhs, rhs, from + 1)
    }
}

/// A copy of a list of assumptions.
fn copy_assumptions(items: &Vec<Assumption>) -> (r: Vec<Assumption>)
    ensures
        r@.len() == items@.len(),
        forall|i: int| 0 <= i < r@.len() ==> (#[trigger] r@[i]).description == items@[i].description,
{
    let mut out: Vec<Assumption> = Vec::new();
    let mut i: usize = 0;
    while i < items.len()
        invariant
            i <= items@.len(),
            out@.len() == i,
            forall|k: int|
                0 <= k < i ==> (#[trigger] out@[k]).description == items@[k].description,
        decreases items@.len() - i,
    {
        out.push(Assumption { description: items[i].description.clone() });
        i += 1;
    }
    out
}

impl ProofStep {
    /// A copy: the same rule, the same terms, the same justification.
    pub fn duplicate(&self) -> (r: ProofStep)
        ensures
            r.rule == self.rule,
            same_expr(self.before, r.before),
            same_expr(self.after, r.after),
            r.justification == self.justification,
    {
        ProofStep {
            rule: self.rule,
            before: copy_expr(&self.before),
            after: copy_expr(&self.after),
            justification: self.justification.clone(),
        }
    }
}

/// A copy of a list of steps.
fn copy_steps(steps: &Vec<ProofStep>) -> (r: Vec<ProofStep>)
    ensures
        r@.len() == steps@.len(),
        rules_of(r@) == rules_of(steps@),
        forall|i: int|
            0 <= i < r@.len() ==> same_expr(steps@[i].before, (#[trigger] r@[i]).before)
                && same_expr(steps@[i].after, r@[i].after) && r@[i].rule == steps@[i].rule,
{
    let mut out: Vec<ProofStep> = Vec::new();
    let mut i: usize = 0;
    while i < steps.len()
        invariant
            i <= steps@.len(),
            out@.len() == i,
            forall|k: int|
                0 <= k < i ==> same_expr(steps@[k].before, (#[trigger] out@[k]).before)
                    && same_expr(steps@[k].after, out@[k].after) && out@[k].rule
                    == steps@[k].rule,
        decreases steps@.len() - i,
    {
        out.push(steps[i].duplicate());
        i += 1;
    }
    assert(rules_of(out@) =~= rules_of(steps@));
    out
}

impl ProofResult {
    /// A copy with the same outline.
    pub fn duplicate(&self) -> (r: ProofResult)
        ensures
            outline(r) == outline(*self),
    {
        match self {
            ProofResult::Proven(proof) => {
                let statement = match &proof.statement {
                    Statement::Identity { lhs, rhs } => Statement::Identity {
                        lhs: copy_expr(lhs),
                        rhs: copy_expr(rhs),
                    },
                    Statement::Property { kind, expr } => Statement::Property {
                        kind: *kind,
                        expr: copy_expr(expr),
                    },
                };
                let mut verification_steps: Vec<VerificationStep> = Vec::new();
                let mut i: usize = 0;
                while i < proof.certificate.verification_steps.len()
                    invariant
                        i <= proof.certificate.verification_steps@.len(),
                    decreases proof.certificate.verification_steps@.len() - i,
                {
                    let v = &proof.certificate.verification_steps[i];
                    verification_steps.push(
                        VerificationStep {
                            step_number: v.step_number,
                            description: v.description.clone(),
                            verified: v.verified,
                        },
                    );
                    i += 1;
                }
                ProofResult::Proven(
                    Proof {
                        statement,
                        steps: copy_steps(&proof.steps),
                        assumptions_used: copy_assumptions(&proof.assumptions_used),
                        certificate: Certificate {
                            hash: proof.certificate.hash.clone(),
                            timestamp: proof.certificate.timestamp,
                            engine_version: proof.certificate.engine_version.clone(),
                            assumptions: copy_assumptions(&proof.certificate.assumptions),
                            verification_steps,
                        },
                    },
                )
            },
            ProofResult::Refuted(ce) => {
                let mut params: Vec<(String, Real)> = Vec::new();
                let mut i: usize = 0;
                while i < ce.params.len()
                    invariant
                        i <= ce.params@.len(),
                    decreases ce.params@.len() - i,
                {
                    params.push((ce.params[i].0.clone(), ce.params[i].1));
                    i += 1;
                }
                ProofResult::Refuted(
                    Counterexample {
                        params,
                        lhs_value: copy_matrix_value(&ce.lhs_value),
                        rhs_value: copy_matrix_value(&ce.rhs_value),
                        difference_norm: ce.difference_norm,
                    },
                )
            },
            ProofResult::Unknown(reason) => ProofResult::Unknown(*reason),
        }
    }
}

/// A copy of the elements of a matrix.
fn copy_matrix_value(v: &MatrixValue) -> (r: MatrixValue)
    ensures
        r.rows == v.rows,
        r.cols == v.cols,
        r.elements@.len() == v.elements@.len(),
{
    let mut elements: Vec<Vec<(Real, Real)>> = Vec::new();
    let mut i: usize = 0;
    while i < v.elements.len()
        invariant
            i <= v.elements@.len(),
            elements@.len() == i,
        decreases v.elements@.len() - i,
    {
        let mut row: Vec<(Real, Real)> = Vec::new();
        let mut j: usize = 0;
        while j < v.elements[i].len()
            invariant
                i < v.elements@.len(),
                j <= v.elements@[i as int]@.len(),
            decreases v.elements@[i as int]@.len() - j,
        {
            row.push(v.elements[i][j]);
            j += 1;
        }
        elements.push(row);
        i += 1;
    }
    MatrixValue { rows: v.rows, cols: v.cols, elements }
}

impl ProofCache {
    /// The entries, oldest first.
    pub closed spec fn held(&self) -> Seq<(Expr, Expr, ProofResult)> {
        self.entries@
    }

    /// A cache without entries.
    pub fn new() -> (c: ProofCache)
        ensures
            c.held().len() == 0,
    {
        ProofCache { entries: Vec::new() }
    }

    /// The outcome held for an identity: that of the oldest entry with the
    /// same sides.
    pub fn get(&self, lhs: &Expr, rhs: &Expr) -> (r: Option<&ProofResult>)
        ensures
            match cached_at(self.held(), *lhs, *rhs, 0) {
                Some(i) => r == Some(&self.held()[i].2),
                None => r is None,
            },
    {
        let mut i: usize = 0;
        while i < self.entries.len()
            invariant
                i <= self.entries@.len(),
                cached_at(self.entries@, *lhs, *rhs, 0) == cached_at(
                    self.entries@,
                    *lhs,
                    *rhs,
                    i as int,
                ),
            decreases self.entries@.len() - i,
        {
            if expr_equal(&self.entries[i].0, lhs) && expr_equal(&self.entries[i].1, rhs) {
                return Some(&self.entries[i].2);
            }
            i += 1;
        }
        None
    }

    /// Adds an entry for an identity.
    pub fn insert(&mut self, lhs: Expr, rhs: Expr, value: ProofResult)
        ensures
            final(self).held() == old(self).held().push((lhs, rhs, value)),
    {
        self.entries.push((lhs, rhs, value));
    }

    /// The number of entries.
    pub fn len(&self) -> (n: usize)
        ensures
            n == self.held().len(),
    {
        self.entries.len()
    }
}

/// No canonical rule applies at the root of a term.
pub open spec fn is_canonical<A: Arithmetic>(ar: &A, expr: Expr) -> bool {
    forall|k: int| 0 <= k < canonical().len() ==> #[trigger] is_rewritten(ar, canonical()[k], expr, None)
}

/// `ok` says whether a step stands: its rule applies to `before` and gives
/// a term that is the same as `after`.
pub open spec fn is_step_checked<A: Arithmetic>(ar: &A, step: ProofStep, ok: bool) -> bool {
    exists|out: Option<Expr>| #[trigger]
        is_rewritten(ar, step.rule, step.before, out) && ok == (out is Some && same_expr(
            out->Some_0,
            step.after,
        ))
}

/// The term that step `i` of a proof of an identity must start from: the
/// left side for the first step, the result of the step before for the
/// others.
pub open spec fn expected_before(lhs: Expr, steps: Seq<ProofStep>, i: int) -> Expr {
    if i == 0 {
        lhs
    } else {
        steps[i - 1].after
    }
}

/// Step `i` of a proof of an identity stands and starts from where it must.
pub open spec fn step_holds<A: Arithmetic>(ar: &A, lhs: Expr, steps: Seq<ProofStep>, i: int) -> bool {
    same_expr(steps[i].before, expected_before(lhs, steps, i)) && is_step_checked(
        ar,
        steps[i],
        true,
    )
}

/// Step `i` of a proof of an identity does not start from where it must, or
/// does not stand.
pub open spec fn step_fails<A: Arithmetic>(ar: &A, lhs: Expr, steps: Seq<ProofStep>, i: int) -> bool {
    !same_expr(steps[i].before, expected_before(lhs, steps, i)) || is_step_checked(
        ar,
        steps[i],
        false,
    )
}

/// `ok` says whether a proof stands. A proof of an identity stands when
/// every step stands and starts from where the step before ended, the first
/// from the left side, and the last ends with the right side. A proof of a
/// property stands when it has no steps.
pub open spec fn is_proof_checked<A: Arithmetic>(ar: &A, proof: Proof, ok: bool) -> bool {
    match proof.statement {
        Statement::Identity { lhs, rhs } => if ok {
            (forall|i: int| 0 <= i < proof.steps@.len() ==> #[trigger] step_holds(ar, lhs, proof.steps@, i))
                && (proof.steps@.len() > 0 ==> same_expr(proof.steps@.last().after, rhs))
        } else {
            (exists|i: int|
                0 <= i < proof.steps@.len() && #[trigger] step_fails(ar, lhs, proof.steps@, i)
                    && forall|k: int| 0 <= k < i ==> #[trigger] step_holds(ar, lhs, proof.steps@, k))
                || (proof.steps@.len() > 0 && !same_expr(proof.steps@.last().after, rhs))
        },
        Statement::Property { .. } => ok == (proof.steps@.len() == 0),
    }
}

/// The text that stands for a list of assumptions: their descriptions
/// between brackets, separated by a comma and a blank.
pub open spec fn assumptions_text(items: Seq<Assumption>, count: nat) -> Seq<char>
    decreases count,
{
    if count == 0 {
        "["@
    } else if count == 1 {
        "["@ + items[0].description@
    } else {
        assumptions_text(items, (count - 1) as nat) + ", "@ + items[count - 1].description@
    }
}

impl Prover {
    /// The rules are those of a fresh rewrite system.
    pub closed spec fn wf(&self) -> bool {
        self.rewrite_rules.rules@ == search_rules() && self.rewrite_rules.canonical_rules@
            == canonical()
    }

    /// The identities decided so far.
    pub closed spec fn cache(&self) -> Seq<(Expr, Expr, ProofResult)> {
        self.proof_cache.held()
    }

    /// The limits of the search.
    pub closed spec fn limits(&self) -> ProverConfig {
        self.config
    }

    /// The assumptions made so far, in the order in which they were added.
    pub closed spec fn assumed(&self) -> Seq<Assumption> {
        self.assumptions.held()
    }

    /// A prover without assumptions that has decided nothing.
    pub fn new(config: ProverConfig) -> (p: Prover)
        ensures
            p.wf(),
            p.cache().len() == 0,
            p.limits() == config,
            p.assumed() == Seq::<Assumption>::empty(),
    {
        Prover {
            rewrite_rules: RewriteSystem::default(),
            assumptions: AssumptionContext::new(),
            proof_cache: ProofCache::new(),
            config,
        }
    }

    /// Adds an assumption after those made before.
    pub fn add_assumption(&mut self, assumption: Assumption)
        requires
            old(self).wf(),
        ensures
            final(self).wf(),
            final(self).cache() == old(self).cache(),
            final(self).limits() == old(self).limits(),
            final(self).assumed() == old(self).assumed().push(assumption),
    {
        self.assumptions.add(assumption);
    }

    /// The number of identities decided so far.
    pub fn cached(&self) -> (n: usize)
        ensures
            n == self.cache().len(),
    {
        self.proof_cache.len()
    }

    /// Brings a term into canonical form: canonical rules are applied at
    /// the root, the first that applies first, until none applies. The
    /// result is a copy of the term where none applied, and lower otherwise.
    pub fn canonicalize<A: Arithmetic>(&self, ar: &A, expr: &Expr) -> (r: Expr)
        requires
            self.wf(),
        ensures
            is_canonical(ar, r),
            height(r) <= height(*expr),
            height(r) == height(*expr) ==> same_expr(*expr, r),
    {
        let mut current = copy_expr(expr);
        proof {
            lemma_same_height(*expr, current);
        }
        loop
            invariant
                self.wf(),
                height(current) <= height(*expr),
                height(current) == height(*expr) ==> same_expr(*expr, current),
            ensures
                is_canonical(ar, current),
                height(current) <= height(*expr),
                height(current) == height(*expr) ==> same_expr(*expr, current),
            decreases height(current),
        {
            let mut next: Option<Expr> = None;
            let mut k: usize = 0;
            while k < self.rewrite_rules.canonical_rules.len()
                invariant_except_break
                    k <= canonical().len(),
                    next is None,
                    forall|j: int|
                        0 <= j < k ==> #[trigger] is_rewritten(ar, canonical()[j], current, None),
                invariant
                    self.wf(),
                ensures
                    next is None ==> is_canonical(ar, current),
                    next is Some ==> height(next->Some_0) < height(current),
                decreases canonical().len() - k,
            {
                let rule = self.rewrite_rules.canonical_rules[k];
                let out = rule.apply(ar, &current);
                if out.is_some() {
                    proof {
                        assert(is_canonical_rule(rule));
                        lemma_canonical_rule_lowers(ar, rule, current, out);
                    }
                    next = out;
                    break ;
                }
                k += 1;
            }
            match next {
                Some(e) => {
                    current = e;
                },
                None => {
                    break ;
                },
            }
        }
        current
    }

    /// Whether a rule applied to `before` gives a term that is the same as
    /// `after`.
    pub fn verify_rule_application<A: Arithmetic>(
        &self,
        ar: &A,
        rule: &RewriteRule,
        before: &Expr,
        after: &Expr,
    ) -> (ok: bool)
        ensures
            exists|out: Option<Expr>| #[trigger]
                is_rewritten(ar, *rule, *before, out) && ok == (out is Some && same_expr(
                    out->Some_0,
                    *after,
                )),
    {
        match rule.apply(ar, before) {
            Some(result) => expr_equal(&result, after),
            None => false,
        }
    }

    /// Checks a proof step by step.
    pub fn verify_proof<A: Arithmetic>(&self, ar: &A, proof: &Proof) -> (ok: bool)
        ensures
            is_proof_checked(ar, *proof, ok),
    {
        let (lhs, rhs) = match &proof.statement {
            Statement::Identity { lhs, rhs } => (lhs, rhs),
            Statement::Property { .. } => {
                return proof.steps.len() == 0;
            },
        };
        let mut i: usize = 0;
        while i < proof.steps.len()
            invariant
                i <= proof.steps@.len(),
                proof.statement == (Statement::Identity { lhs: *lhs, rhs: *rhs }),
                forall|k: int| 0 <= k < i ==> #[trigger] step_holds(ar, *lhs, proof.steps@, k),
            decreases proof.steps@.len() - i,
        {
            let step = &proof.steps[i];
            let linked = if i == 0 {
                expr_equal(&step.before, lhs)
            } else {
                expr_equal(&step.before, &proof.steps[i - 1].after)
            };
            if !linked {
                assert(step_fails(ar, *lhs, proof.steps@, i as int));
                return false;
            }
            let stands = self.verify_rule_application(ar, &step.rule, &step.before, &step.after);
            assert(is_step_checked(ar, *step, stands));
            if !stands {
                assert(step_fails(ar, *lhs, proof.steps@, i as int));
                return false;
            }
            assert(step_holds(ar, *lhs, proof.steps@, i as int));
            i += 1;
        }
        if proof.steps.len() > 0 {
            let last = &proof.steps[proof.steps.len() - 1];
            if !expr_equal(&last.after, rhs) {
                return false;
            }
        }
        true
    }

    /// Looks for parameters at which the two sides of an identity differ.
    /// Terms cannot be evaluated, so none is ever found.
    pub fn find_counterexample(&self, lhs: &Expr, rhs: &Expr) -> (r: Option<Counterexample>)
        ensures
            r is None,
    {
        None
    }

    /// The text that stands for a list of assumptions.
    fn fingerprint(assumptions: &Vec<Assumption>) -> (r: String)
        ensures
            r@ == assumptions_text(assumptions@, assumptions@.len()) + "]"@,
    {
        let mut text = "[".to_string();
        let mut i: usize = 0;
        while i < assumptions.len()
            invariant
                i <= assumptions@.len(),
                text@ == assumptions_text(assumptions@, i as nat),
            decreases assumptions@.len() - i,
        {
            if i > 0 {
                text.append(", ");
            }
            text.append(assumptions[i].description.as_str());
            proof {
                assert(text@ =~= assumptions_text(assumptions@, (i + 1) as nat));
            }
            i += 1;
        }
        text.append("]");
        text
    }

    /// A certificate for a proof that uses the given assumptions: their
    /// SHA-256, the present time and the version of the engine.
    pub fn generate_certificate(&self, assumptions: &Vec<Assumption>) -> (c: Certificate)
        ensures
            c.hash@ == sha256_hex_of(
                assumptions_text(assumptions@, assumptions@.len()) + "]"@,
            ),
            c.engine_version@ == crate::VERSION@,
            c.assumptions@.len() == assumptions@.len(),
            c.verification_steps@.len() == 0,
    {
        let text = Prover::fingerprint(assumptions);
        Certificate {
            hash: sha256_hex(text.as_str()),
            timestamp: now_millis(),
            engine_version: crate::VERSION.to_string(),
            assumptions: copy_assumptions(assumptions),
            verification_steps: Vec::new(),
        }
    }
}

/// Being the same term is transitive.
pub proof fn lemma_same_expr_transitive(a: Expr, b: Expr, c: Expr)
    requires
        same_expr(a, b),
        same_expr(b, c),
    ensures
        same_expr(a, c),
    decreases a, 2nat,
{
    match (a, b, c) {
        (Expr::Matrix(x), Expr::Matrix(y), Expr::Matrix(z)) => {
            assert(same_rows(x.rows@, y.rows@));
            assert(same_rows(y.rows@, z.rows@));
            lemma_same_rows_transitive(x.rows@, y.rows@, z.rows@);
            assert(same_expr(a, c));
        },
        (Expr::Vector(x), Expr::Vector(y), Expr::Vector(z)) => {
            lemma_same_list_transitive(x.elements@, y.elements@, z.elements@);
            assert(same_expr(a, c));
        },
        (
            Expr::FuncCall { args: x, .. },
            Expr::FuncCall { args: y, .. },
            Expr::FuncCall { args: z, .. },
        ) => {
            lemma_same_list_transitive(x@, y@, z@);
            assert(same_expr(a, c));
        },
        (Expr::Add(a1, a2), Expr::Add(b1, b2), Expr::Add(c1, c2)) => {
            lemma_same_expr_transitive(*a1, *b1, *c1);
            lemma_same_expr_transitive(*a2, *b2, *c2);
            assert(same_expr(a, c));
        },
        (Expr::Sub(a1, a2), Expr::Sub(b1, b2), Expr::Sub(c1, c2)) => {
            lemma_same_expr_transitive(*a1, *b1, *c1);
            lemma_same_expr_transitive(*a2, *b2, *c2);
            assert(same_expr(a, c));
        },
        (Expr::Mul(a1, a2), Expr::Mul(b1, b2), Expr::Mul(c1, c2)) => {
            lemma_same_expr_transitive(*a1, *b1, *c1);
            lemma_same_expr_transitive(*a2, *b2, *c2);
            assert(same_expr(a, c));
        },
        (Expr::Div(a1, a2), Expr::Div(b1, b2), Expr::Div(c1, c2)) => {
            lemma_same_expr_transitive(*a1, *b1, *c1);
            lemma_same_expr_transitive(*a2, *b2, *c2);
            assert(same_expr(a, c));
        },
        (Expr::Pow(a1, a2), Expr::Pow(b1, b2), Expr::Pow(c1, c2)) => {
            lemma_same_expr_transitive(*a1, *b1, *c1);
            lemma_same_expr_transitive(*a2, *b2, *c2);
            assert(same_expr(a, c));
        },
        (Expr::Tensor(a1, a2), Expr::Tensor(b1, b2), Expr::Tensor(c1, c2)) => {
            lemma_same_expr_transitive(*a1, *b1, *c1);
            lemma_same_expr_transitive(*a2, *b2, *c2);
            assert(same_expr(a, c));
        },
        (Expr::Commutator(a1, a2), Expr::Commutator(b1, b2), Expr::Commutator(c1, c2)) => {
            lemma_same_expr_transitive(*a1, *b1, *c1);
            lemma_same_expr_transitive(*a2, *b2, *c2);
            assert(same_expr(a, c));
        },
        (Expr::AntiCommutator(a1, a2), Expr::AntiCommutator(b1, b2), Expr::AntiCommutator(c1, c2)) => {
            lemma_same_expr_transitive(*a1, *b1, *c1);
            lemma_same_expr_transitive(*a2, *b2, *c2);
            assert(same_expr(a, c));
        },
        (Expr::Dagger(x), Expr::Dagger(y), Expr::Dagger(z)) => {
            lemma_same_expr_transitive(*x, *y, *z);
            assert(same_expr(a, c));
        },
        (Expr::Trace(x), Expr::Trace(y), Expr::Trace(z)) => {
            lemma_same_expr_transitive(*x, *y, *z);
            assert(same_expr(a, c));
        },
        (Expr::Expm(x), Expr::Expm(y), Expr::Expm(z)) => {
            lemma_same_expr_transitive(*x, *y, *z);
            assert(same_expr(a, c));
        },
        (Expr::Sqrt(x), Expr::Sqrt(y), Expr::Sqrt(z)) => {
            lemma_same_expr_transitive(*x, *y, *z);
            assert(same_expr(a, c));
        },
        (Expr::Sin(x), Expr::Sin(y), Expr::Sin(z)) => {
            lemma_same_expr_transitive(*x, *y, *z);
            assert(same_expr(a, c));
        },
        (Expr::Cos(x), Expr::Cos(y), Expr::Cos(z)) => {
            lemma_same_expr_transitive(*x, *y, *z);
            assert(same_expr(a, c));
        },
        (Expr::Exp(x), Expr::Exp(y), Expr::Exp(z)) => {
            lemma_same_expr_transitive(*x, *y, *z);
            assert(same_expr(a, c));
        },
        _ => {
            assert(same_expr(a, c));
        },
    }
}

/// Being the same list of terms is transitive.
pub proof fn lemma_same_list_transitive(a: Seq<Expr>, b: Seq<Expr>, c: Seq<Expr>)
    requires
        same_list(a, b),
        same_list(b, c),
    ensures
        same_list(a, c),
    decreases a, 0nat,
{
    assert forall|i: int| 0 <= i < a.len() implies same_expr(#[trigger] a[i], c[i]) by {
        assert(same_expr(a[i], b[i]));
        assert(same_expr(b[i], c[i]));
        lemma_same_expr_transitive(a[i], b[i], c[i]);
    }
}

/// Being the same grid of terms is transitive.
pub proof fn lemma_same_rows_transitive(a: Seq<Vec<Expr>>, b: Seq<Vec<Expr>>, c: Seq<Vec<Expr>>)
    requires
        same_rows(a, b),
        same_rows(b, c),
    ensures
        same_rows(a, c),
    decreases a, 1nat,
{
    assert forall|i: int| 0 <= i < a.len() implies same_list((#[trigger] a[i])@, c[i]@) by {
        assert(same_list(a[i]@, b[i]@));
        assert(same_list(b[i]@, c[i]@));
        lemma_same_list_transitive(a[i]@, b[i]@, c[i]@);
    }
}

/// Whether a list of terms holds one that is the same as `expr`.
pub open spec fn is_held(terms: Seq<Expr>, expr: Expr) -> bool {
    exists|i: int| 0 <= i < terms.len() && same_expr(#[trigger] terms[i], expr)
}

/// The place of the first term of a frontier, at or after `from`, that
/// `seen` holds.
pub open spec fn first_meeting(
    frontier: Seq<(Expr, Vec<ProofStep>)>,
    seen: Seq<Expr>,
    from: int,
) -> Option<int>
    decreases frontier.len() - from,
{
    if from < 0 || from >= frontier.len() {
        None
    } else if is_held(seen, frontier[from].0) {
        Some(from)
    } else {
        first_meeting(frontier, seen, from + 1)
    }
}

/// `longer` holds copies of `steps` and then one step by `rule` from a
/// term that is the same as `from` to one that is the same as `to`.
pub open spec fn is_extended(
    steps: Seq<ProofStep>,
    rule: RewriteRule,
    from: Expr,
    to: Expr,
    longer: Seq<ProofStep>,
) -> bool {
    &&& longer.len() == steps.len() + 1
    &&& rules_of(longer) == rules_of(steps).push(rule)
    &&& forall|j: int|
        0 <= j < steps.len() ==> same_expr(steps[j].before, (#[trigger] longer[j]).before)
            && same_expr(steps[j].after, longer[j].after)
    &&& same_expr(from, longer.last().before)
    &&& same_expr(to, longer.last().after)
}

/// What one rule makes of one term of a frontier, `found` and `visited`
/// being the new frontier and the terms seen before it and after: where
/// the rule does not apply, or gives a term that was seen, nothing
/// changes; else the term is recorded as seen and enters the new frontier
/// with the steps of the term it came from and the step that gave it.
pub open spec fn is_expansion_step<A: Arithmetic>(
    ar: &A,
    entry: (Expr, Vec<ProofStep>),
    rule: RewriteRule,
    found_before: Seq<(Expr, Vec<ProofStep>)>,
    visited_before: Seq<Expr>,
    found: Seq<(Expr, Vec<ProofStep>)>,
    visited: Seq<Expr>,
) -> bool {
    exists|t: Option<Expr>| #[trigger]
        is_rewritten(ar, rule, entry.0, t) && if t is None || is_held(visited_before, t->Some_0) {
            found == found_before && visited == visited_before
        } else {
            &&& visited.len() == visited_before.len() + 1
            &&& visited.drop_last() == visited_before
            &&& same_expr(t->Some_0, visited.last())
            &&& found.len() == found_before.len() + 1
            &&& found.drop_last() == found_before
            &&& found.last().0 == t->Some_0
            &&& is_extended(entry.1@, rule, entry.0, t->Some_0, found.last().1@)
        }
}

/// The new frontier and the terms seen after the first `k` search rules
/// were applied to one term of a frontier, in their order.
pub open spec fn is_entry_expanded<A: Arithmetic>(
    ar: &A,
    entry: (Expr, Vec<ProofStep>),
    k: nat,
    found_before: Seq<(Expr, Vec<ProofStep>)>,
    visited_before: Seq<Expr>,
    found: Seq<(Expr, Vec<ProofStep>)>,
    visited: Seq<Expr>,
) -> bool
    decreases k,
{
    if k == 0 {
        found == found_before && visited == visited_before
    } else {
        exists|f: Seq<(Expr, Vec<ProofStep>)>, v: Seq<Expr>|
            is_entry_expanded(ar, entry, (k - 1) as nat, found_before, visited_before, f, v)
                && #[trigger] is_expansion_step(
                ar,
                entry,
                search_rules()[k - 1],
                f,
                v,
                found,
                visited,
            )
    }
}

/// The new frontier and the terms seen after every search rule was
/// applied to one term of a frontier.
pub open spec fn is_entry_done<A: Arithmetic>(
    ar: &A,
    entry: (Expr, Vec<ProofStep>),
    found_before: Seq<(Expr, Vec<ProofStep>)>,
    visited_before: Seq<Expr>,
    found: Seq<(Expr, Vec<ProofStep>)>,
    visited: Seq<Expr>,
) -> bool {
    is_entry_expanded(
        ar,
        entry,
        search_rules().len(),
        found_before,
        visited_before,
        found,
        visited,
    )
}

/// The new frontier and the terms seen after the first `i` terms of a
/// frontier were expanded, `seen` being the terms seen at the start.
pub open spec fn is_frontier_expanded<A: Arithmetic>(
    ar: &A,
    frontier: Seq<(Expr, Vec<ProofStep>)>,
    seen: Seq<Expr>,
    i: nat,
    found: Seq<(Expr, Vec<ProofStep>)>,
    visited: Seq<Expr>,
) -> bool
    decreases i,
{
    if i == 0 {
        found == Seq::<(Expr, Vec<ProofStep>)>::empty() && visited == seen
    } else {
        exists|f: Seq<(Expr, Vec<ProofStep>)>, v: Seq<Expr>|
            is_frontier_expanded(ar, frontier, seen, (i - 1) as nat, f, v)
                && #[trigger] is_entry_done(ar, frontier[i - 1], f, v, found, visited)
    }
}

/// `found` is the frontier that follows `frontier`, and `visited` the
/// terms seen after it, `seen` being those seen before: every search rule
/// was applied at the root of every term, term by term and rule by rule.
pub open spec fn is_expansion<A: Arithmetic>(
    ar: &A,
    frontier: Seq<(Expr, Vec<ProofStep>)>,
    seen: Seq<Expr>,
    found: Seq<(Expr, Vec<ProofStep>)>,
    visited: Seq<Expr>,
) -> bool {
    is_frontier_expanded(ar, frontier, seen, frontier.len(), found, visited)
}

/// Where a search from both sides stands: the frontier of each side and
/// the terms that each side has seen.
pub struct Fronts {
    pub left: Seq<(Expr, Vec<ProofStep>)>,
    pub right: Seq<(Expr, Vec<ProofStep>)>,
    pub left_seen: Seq<Expr>,
    pub right_seen: Seq<Expr>,
}

/// The start of one side of a search: a copy of `expr` without steps is
/// the frontier, and a copy of `expr` is all that was seen.
pub open spec fn is_start(
    expr: Expr,
    frontier: Seq<(Expr, Vec<ProofStep>)>,
    seen: Seq<Expr>,
) -> bool {
    &&& frontier.len() == 1
    &&& same_expr(expr, frontier[0].0)
    &&& frontier[0].1@.len() == 0
    &&& seen.len() == 1
    &&& same_expr(expr, seen[0])
}

/// Whether a side is left with something to expand.
pub open spec fn has_terms(s: Fronts) -> bool {
    s.left.len() > 0 || s.right.len() > 0
}

/// A round in which the sides do not meet: the left frontier is expanded,
/// and none of its new terms was seen by the right side; then the right
/// frontier is expanded, and none of its new terms was seen by the left
/// side, the new terms of this round among them.
pub open spec fn is_quiet_round<A: Arithmetic>(ar: &A, before: Fronts, after: Fronts) -> bool {
    &&& is_expansion(ar, before.left, before.left_seen, after.left, after.left_seen)
    &&& first_meeting(after.left, before.right_seen, 0) is None
    &&& is_expansion(ar, before.right, before.right_seen, after.right, after.right_seen)
    &&& first_meeting(after.right, after.left_seen, 0) is None
}

/// Where the search for `lhs = rhs` stands after `d` rounds in which the
/// sides did not meet, each begun with something to expand.
pub open spec fn is_search_state<A: Arithmetic>(
    ar: &A,
    lhs: Expr,
    rhs: Expr,
    d: nat,
    s: Fronts,
) -> bool
    decreases d,
{
    if d == 0 {
        is_start(lhs, s.left, s.left_seen) && is_start(rhs, s.right, s.right_seen)
    } else {
        exists|before: Fronts|
            is_search_state(ar, lhs, rhs, (d - 1) as nat, before) && has_terms(before)
                && #[trigger] is_quiet_round(ar, before, s)
    }
}

/// A round from `s` in which the sides meet, `rules` being the rules of
/// the steps that led to the term on which they meet: the first new term
/// of the left side that the right side has seen; or, where there is none,
/// the first new term of the right side that the left side has seen.
pub open spec fn is_meeting_round<A: Arithmetic>(
    ar: &A,
    s: Fronts,
    rules: Seq<RewriteRule>,
) -> bool {
    exists|nl: Seq<(Expr, Vec<ProofStep>)>, nls: Seq<Expr>| #[trigger]
        is_expansion(ar, s.left, s.left_seen, nl, nls) && match first_meeting(
            nl,
            s.right_seen,
            0,
        ) {
            Some(i) => rules == rules_of(nl[i].1@),
            None => exists|nr: Seq<(Expr, Vec<ProofStep>)>, nrs: Seq<Expr>| #[trigger]
                is_expansion(ar, s.right, s.right_seen, nr, nrs) && match first_meeting(
                    nr,
                    nls,
                    0,
                ) {
                    Some(i) => rules == rules_of(nr[i].1@),
                    None => false,
                },
        }
}

/// How a search ends where it stands at `s`. Where another round is
/// `open`, because the depth allows one and there is something to expand,
/// the search ends there only because the clock ran out or because the
/// sides meet in that round. Where none is, the search is exhausted.
pub open spec fn is_search_end<A: Arithmetic>(
    ar: &A,
    s: Fronts,
    open: bool,
    r: ProofResult,
) -> bool {
    match r {
        ProofResult::Proven(proof) => open && is_meeting_round(ar, s, rules_of(proof.steps@)),
        ProofResult::Refuted(_) => false,
        ProofResult::Unknown(reason) => if open {
            reason == Reason::Timeout
        } else {
            reason == Reason::Exhausted
        },
    }
}

/// What a search of at most `max_depth` rounds gives: after some rounds in
/// which the sides did not meet, it ends as [`is_search_end`] says.
pub open spec fn is_search_outcome<A: Arithmetic>(
    ar: &A,
    lhs: Expr,
    rhs: Expr,
    max_depth: usize,
    r: ProofResult,
) -> bool {
    exists|d: nat, s: Fronts| #[trigger]
        is_search_state(ar, lhs, rhs, d, s) && d <= max_depth && is_search_end(
            ar,
            s,
            d < max_depth && has_terms(s),
            r,
        )
}

/// Every term of a frontier comes with valid steps.
pub open spec fn frontier_valid<A: Arithmetic>(ar: &A, frontier: Seq<(Expr, Vec<ProofStep>)>) -> bool {
    forall|i: int| 0 <= i < frontier.len() ==> all_valid(ar, (#[trigger] frontier[i]).1@)
}

/// What a search can give: a proof of the identity whose steps are valid
/// rule applications, or no answer because time or depth ran out.
pub open spec fn is_search_result<A: Arithmetic>(
    ar: &A,
    lhs: Expr,
    rhs: Expr,
    result: ProofResult,
) -> bool {
    match result {
        ProofResult::Proven(proof) => all_valid(ar, proof.steps@) && match proof.statement {
            Statement::Identity { lhs: l, rhs: r } => same_expr(lhs, l) && same_expr(rhs, r),
            _ => false,
        },
        ProofResult::Refuted(_) => false,
        ProofResult::Unknown(reason) => reason == Reason::Timeout || reason == Reason::Exhausted,
    }
}

/// A copy of a valid step is valid.
pub proof fn lemma_copy_valid<A: Arithmetic>(ar: &A, step: ProofStep, copy: ProofStep)
    requires
        is_valid_step(ar, step),
        copy.rule == step.rule,
        same_expr(step.before, copy.before),
        same_expr(step.after, copy.after),
    ensures
        is_valid_step(ar, copy),
{
    let (from, to) = choose|from: Expr, to: Expr|
        same_expr(from, step.before) && #[trigger] is_rewritten(ar, step.rule, from, Some(to))
            && same_expr(to, step.after);
    lemma_same_expr_transitive(from, step.before, copy.before);
    lemma_same_expr_transitive(to, step.after, copy.after);
}

/// Whether a list of terms holds one that is the same as `expr`.
pub fn holds_term(terms: &Vec<Expr>, expr: &Expr) -> (r: bool)
    ensures
        r == is_held(terms@, *expr),
{
    let mut i: usize = 0;
    while i < terms.len()
        invariant
            i <= terms@.len(),
            forall|k: int| 0 <= k < i ==> !same_expr(#[trigger] terms@[k], *expr),
        decreases terms@.len() - i,
    {
        if expr_equal(&terms[i], expr) {
            return true;
        }
        i += 1;
    }
    false
}

impl Prover {
    /// Applies every search rule at the root of every term of a frontier;
    /// each result that was not seen before is recorded as seen and enters
    /// the new frontier, with the steps that led to it.
    pub fn expand_frontier<A: Arithmetic>(
        &self,
        ar: &A,
        frontier: &Vec<(Expr, Vec<ProofStep>)>,
        visited: &mut Vec<Expr>,
    ) -> (r: Vec<(Expr, Vec<ProofStep>)>)
        requires
            self.wf(),
            frontier_valid(ar, frontier@),
        ensures
            is_expansion(ar, frontier@, old(visited)@, r@, final(visited)@),
            frontier_valid(ar, r@),
            forall|i: int| 0 <= i < r@.len() ==> (#[trigger] r@[i]).1@.len() > 0,
            old(visited)@.len() <= final(visited)@.len(),
            final(visited)@.subrange(0, old(visited)@.len() as int) == old(visited)@,
    {
        let mut new_frontier: Vec<(Expr, Vec<ProofStep>)> = Vec::new();
        let mut i: usize = 0;
        assert(visited@.subrange(0, visited@.len() as int) =~= visited@);
        assert(new_frontier@ =~= Seq::<(Expr, Vec<ProofStep>)>::empty());
        while i < frontier.len()
            invariant
                i <= frontier@.len(),
                is_frontier_expanded(
                    ar,
                    frontier@,
                    old(visited)@,
                    i as nat,
                    new_frontier@,
                    visited@,
                ),
                self.wf(),
                frontier_valid(ar, frontier@),
                frontier_valid(ar, new_frontier@),
                forall|k: int|
                    0 <= k < new_frontier@.len() ==> (#[trigger] new_frontier@[k]).1@.len() > 0,
                old(visited)@.len() <= visited@.len(),
                visited@.subrange(0, old(visited)@.len() as int) == old(visited)@,
            decreases frontier@.len() - i,
        {
            let expr = &frontier[i].0;
            let steps = &frontier[i].1;
            let ghost found_before = new_frontier@;
            let ghost visited_before = visited@;
            let mut k: usize = 0;
            while k < self.rewrite_rules.rules.len()
                invariant
                    k <= search_rules().len(),
                    i < frontier@.len(),
                    is_entry_expanded(
                        ar,
                        frontier@[i as int],
                        k as nat,
                        found_before,
                        visited_before,
                        new_frontier@,
                        visited@,
                    ),
                    self.wf(),
                    *expr == frontier@[i as int].0,
                    *steps == frontier@[i as int].1,
                    frontier_valid(ar, frontier@),
                    frontier_valid(ar, new_frontier@),
                    forall|j: int|
                        0 <= j < new_frontier@.len() ==> (#[trigger] new_frontier@[j]).1@.len()
                            > 0,
                    old(visited)@.len() <= visited@.len(),
                    visited@.subrange(0, old(visited)@.len() as int) == old(visited)@,
                decreases search_rules().len() - k,
            {
                let rule = self.rewrite_rules.rules[k];
                let ghost found_then = new_frontier@;
                let ghost visited_then = visited@;
                let applied = rule.apply(ar, expr);
                let ghost given = applied;
                match applied {
                    Some(new_expr) => {
                        if !holds_term(visited, &new_expr) {
                            let ghost seen = visited@;
                            visited.push(copy_expr(&new_expr));
                            assert(visited@.subrange(0, old(visited)@.len() as int) =~= seen.subrange(
                                0,
                                old(visited)@.len() as int,
                            ));
                            let mut new_steps = copy_steps(steps);
                            let step = ProofStep {
                                rule,
                                before: copy_expr(expr),
                                after: copy_expr(&new_expr),
                                justification: rule.description(),
                            };
                            proof {
                                assert(same_expr(*expr, step.before) && is_rewritten(
                                    ar,
                                    rule,
                                    *expr,
                                    Some(new_expr),
                                ) && same_expr(new_expr, step.after));
                                assert(is_valid_step(ar, step));
                                assert(all_valid(ar, steps@));
                                assert forall|j: int| 0 <= j < new_steps@.len() implies is_valid_step(
                                    ar,
                                    #[trigger] new_steps@[j],
                                ) by {
                                    lemma_copy_valid(ar, steps@[j], new_steps@[j]);
                                }
                            }
                            let ghost copied = new_steps@;
                            new_steps.push(step);
                            assert forall|j: int| 0 <= j < new_steps@.len() implies is_valid_step(
                                ar,
                                #[trigger] new_steps@[j],
                            ) by {
                                if j < copied.len() {
                                    assert(new_steps@[j] == copied[j]);
                                }
                            }
                            let ghost before = new_frontier@;
                            proof {
                                assert(rules_of(new_steps@) =~= rules_of(steps@).push(rule));
                                assert forall|j: int| 0 <= j < steps@.len() implies same_expr(
                                    steps@[j].before,
                                    (#[trigger] new_steps@[j]).before,
                                ) && same_expr(steps@[j].after, new_steps@[j].after) by {
                                    assert(new_steps@[j] == copied[j]);
                                }
                                assert(is_extended(steps@, rule, *expr, new_expr, new_steps@));
                            }
                            new_frontier.push((new_expr, new_steps));
                            assert forall|j: int| 0 <= j < new_frontier@.len() implies all_valid(
                                ar,
                                (#[trigger] new_frontier@[j]).1@,
                            ) && new_frontier@[j].1@.len() > 0 by {
                                if j < before.len() {
                                    assert(new_frontier@[j] == before[j]);
                                }
                            }
                            assert(visited@.drop_last() =~= visited_then);
                            assert(new_frontier@.drop_last() =~= found_then);
                        }
                    },
                    None => {},
                }
                proof {
                    let c: nat = (k + 1) as nat;
                    assert(search_rules()[c - 1] == rule);
                    assert(is_rewritten(ar, rule, frontier@[i as int].0, given));
                    assert(is_expansion_step(
                        ar,
                        frontier@[i as int],
                        search_rules()[c - 1],
                        found_then,
                        visited_then,
                        new_frontier@,
                        visited@,
                    ));
                    assert(is_entry_expanded(
                        ar,
                        frontier@[i as int],
                        (c - 1) as nat,
                        found_before,
                        visited_before,
                        found_then,
                        visited_then,
                    ));
                    assert(is_entry_expanded(
                        ar,
                        frontier@[i as int],
                        c,
                        found_before,
                        visited_before,
                        new_frontier@,
                        visited@,
                    ));
                }
                k += 1;
            }
            proof {
                let c: nat = (i + 1) as nat;
                assert(is_entry_done(
                    ar,
                    frontier@[c - 1],
                    found_before,
                    visited_before,
                    new_frontier@,
                    visited@,
                ));
                assert(is_frontier_expanded(
                    ar,
                    frontier@,
                    old(visited)@,
                    (c - 1) as nat,
                    found_before,
                    visited_before,
                ));
                assert(is_frontier_expanded(
                    ar,
                    frontier@,
                    old(visited)@,
                    c,
                    new_frontier@,
                    visited@,
                ));
            }
            i += 1;
        }
        new_frontier
    }

    /// The proof of an identity from the steps that the search found.
    pub fn construct_proof<A: Arithmetic>(
        &self,
        ar: &A,
        lhs: &Expr,
        rhs: &Expr,
        steps: &Vec<ProofStep>,
    ) -> (r: ProofResult)
        requires
            all_valid(ar, steps@),
        ensures
            is_search_result(ar, *lhs, *rhs, r),
            r is Proven,
            rules_of(r->Proven_0.steps@) == rules_of(steps@),
    {
        let copied = copy_steps(steps);
        proof {
            assert forall|j: int| 0 <= j < copied@.len() implies is_valid_step(
                ar,
                #[trigger] copied@[j],
            ) by {
                lemma_copy_valid(ar, steps@[j], copied@[j]);
            }
        }
        let used = self.assumptions.used_in_proof(steps);
        let certificate = self.generate_certificate(&used);
        ProofResult::Proven(
            Proof {
                statement: Statement::Identity { lhs: copy_expr(lhs), rhs: copy_expr(rhs) },
                steps: copied,
                assumptions_used: used,
                certificate,
            },
        )
    }

    /// The first term of a frontier that the other side has seen, if any.
    fn meeting(frontier: &Vec<(Expr, Vec<ProofStep>)>, seen: &Vec<Expr>) -> (r: Option<usize>)
        ensures
            match r {
                Some(i) => first_meeting(frontier@, seen@, 0) == Some(i as int) && i
                    < frontier@.len(),
                None => first_meeting(frontier@, seen@, 0) is None,
            },
    {
        let mut i: usize = 0;
        while i < frontier.len()
            invariant
                i <= frontier@.len(),
                first_meeting(frontier@, seen@, 0) == first_meeting(frontier@, seen@, i as int),
            decreases frontier@.len() - i,
        {
            if holds_term(seen, &frontier[i].0) {
                return Some(i);
            }
            i += 1;
        }
        None
    }

    /// Searches from both sides of an identity at once, at most as deep as
    /// the configuration allows: each round expands the frontier of the left
    /// side and then that of the right side, and ends the search when a new
    /// term of one side was seen by the other. The proof holds the steps
    /// that led to that term.
    pub fn bidirectional_search<A: Arithmetic>(&self, ar: &A, lhs: &Expr, rhs: &Expr) -> (r:
        ProofResult)
        requires
            self.wf(),
        ensures
            is_search_result(ar, *lhs, *rhs, r),
            is_search_outcome(ar, *lhs, *rhs, self.limits().max_depth, r),
    {
        let start = instant_now();
        let mut lhs_frontier: Vec<(Expr, Vec<ProofStep>)> = Vec::new();
        lhs_frontier.push((copy_expr(lhs), Vec::new()));
        let mut rhs_frontier: Vec<(Expr, Vec<ProofStep>)> = Vec::new();
        rhs_frontier.push((copy_expr(rhs), Vec::new()));
        let mut lhs_visited: Vec<Expr> = Vec::new();
        lhs_visited.push(copy_expr(lhs));
        let mut rhs_visited: Vec<Expr> = Vec::new();
        rhs_visited.push(copy_expr(rhs));
        let timeout: u128 = (self.config.timeout as u128) * 1_000_000;
        let mut depth: usize = 0;
        let mut more = true;
        while depth < self.config.max_depth && more
            invariant
                self.wf(),
                depth <= self.config.max_depth,
                frontier_valid(ar, lhs_frontier@),
                frontier_valid(ar, rhs_frontier@),
                more == (lhs_frontier@.len() > 0 || rhs_frontier@.len() > 0),
                is_search_state(
                    ar,
                    *lhs,
                    *rhs,
                    depth as nat,
                    Fronts {
                        left: lhs_frontier@,
                        right: rhs_frontier@,
                        left_seen: lhs_visited@,
                        right_seen: rhs_visited@,
                    },
                ),
            decreases self.config.max_depth - depth,
        {
            let ghost here = Fronts {
                left: lhs_frontier@,
                right: rhs_frontier@,
                left_seen: lhs_visited@,
                right_seen: rhs_visited@,
            };
            if elapsed_nanos(&start) > timeout {
                let r = ProofResult::Unknown(Reason::Timeout);
                assert(is_search_state(ar, *lhs, *rhs, depth as nat, here) && is_search_end(
                    ar,
                    here,
                    depth < self.config.max_depth && has_terms(here),
                    r,
                ));
                return r;
            }
            let new_lhs = self.expand_frontier(ar, &lhs_frontier, &mut lhs_visited);
            match Prover::meeting(&new_lhs, &rhs_visited) {
                Some(i) => {
                    let r = self.construct_proof(ar, lhs, rhs, &new_lhs[i].1);
                    assert(is_expansion(ar, here.left, here.left_seen, new_lhs@, lhs_visited@));
                    assert(is_meeting_round(ar, here, rules_of(r->Proven_0.steps@)));
                    assert(is_search_state(ar, *lhs, *rhs, depth as nat, here) && is_search_end(
                        ar,
                        here,
                        depth < self.config.max_depth && has_terms(here),
                        r,
                    ));
                    return r;
                },
                None => {},
            }
            let new_rhs = self.expand_frontier(ar, &rhs_frontier, &mut rhs_visited);
            match Prover::meeting(&new_rhs, &lhs_visited) {
                Some(i) => {
                    let r = self.construct_proof(ar, lhs, rhs, &new_rhs[i].1);
                    assert(is_expansion(ar, here.left, here.left_seen, new_lhs@, lhs_visited@)
                        && is_expansion(
                        ar,
                        here.right,
                        here.right_seen,
                        new_rhs@,
                        rhs_visited@,
                    ));
                    assert(is_meeting_round(ar, here, rules_of(r->Proven_0.steps@)));
                    assert(is_search_state(ar, *lhs, *rhs, depth as nat, here) && is_search_end(
                        ar,
                        here,
                        depth < self.config.max_depth && has_terms(here),
                        r,
                    ));
                    return r;
                },
                None => {},
            }
            lhs_frontier = new_lhs;
            rhs_frontier = new_rhs;
            more = lhs_frontier.len() > 0 || rhs_frontier.len() > 0;
            proof {
                let after = Fronts {
                    left: lhs_frontier@,
                    right: rhs_frontier@,
                    left_seen: lhs_visited@,
                    right_seen: rhs_visited@,
                };
                let c: nat = (depth + 1) as nat;
                assert(is_search_state(ar, *lhs, *rhs, (c - 1) as nat, here) && has_terms(here)
                    && is_quiet_round(ar, here, after));
                assert(is_search_state(ar, *lhs, *rhs, c, after));
            }
            depth += 1;
        }
        let ghost last = Fronts {
            left: lhs_frontier@,
            right: rhs_frontier@,
            left_seen: lhs_visited@,
            right_seen: rhs_visited@,
        };
        let r = match self.find_counterexample(lhs, rhs) {
            Some(ce) => ProofResult::Refuted(ce),
            None => ProofResult::Unknown(Reason::Exhausted),
        };
        assert(is_search_state(ar, *lhs, *rhs, depth as nat, last) && is_search_end(
            ar,
            last,
            depth < self.config.max_depth && has_terms(last),
            r,
        ));
        r
    }

    /// Decides an identity. An identity decided before gets the outcome held
    /// for it. Else both sides are brought into canonical form; where these
    /// are the same term the proof is that one step, and nothing is recorded;
    /// else the outcome of the search is recorded and returned.
    pub fn prove_identity<A: Arithmetic>(&mut self, ar: &A, lhs: &Expr, rhs: &Expr) -> (r:
        ProofResult)
        requires
            old(self).wf(),
        ensures
            final(self).wf(),
            final(self).limits() == old(self).limits(),
            match cached_at(old(self).cache(), *lhs, *rhs, 0) {
                Some(i) => outline(r) == outline(old(self).cache()[i].2) && final(self).cache()
                    == old(self).cache(),
                None => (final(self).cache() == old(self).cache() && outline(r) == (
                Outline::Proven { rules: seq![RewriteRule::Canonicalize] })) || (final(self).cache().len() == old(self).cache().len() + 1 && final(self).cache().subrange(
                    0,
                    old(self).cache().len() as int,
                ) == old(self).cache() && same_expr(*lhs, final(self).cache().last().0)
                    && same_expr(*rhs, final(self).cache().last().1) && outline(
                    final(self).cache().last().2,
                ) == outline(r) && exists|l: Expr, c: Expr| #[trigger]
                    is_search_result(ar, l, c, r) && is_canonical(ar, l) && is_canonical(ar, c)),
            },
    {
        match self.proof_cache.get(lhs, rhs) {
            Some(held) => {
                return held.duplicate();
            },
            None => {},
        }
        let lhs_canon = self.canonicalize(ar, lhs);
        let rhs_canon = self.canonicalize(ar, rhs);
        if expr_equal(&lhs_canon, &rhs_canon) {
            let none: Vec<Assumption> = Vec::new();
            let certificate = self.generate_certificate(&none);
            let step = ProofStep {
                rule: RewriteRule::Canonicalize,
                before: copy_expr(lhs),
                after: lhs_canon,
                justification: "Canonical form".to_string(),
            };
            let steps = vec![step];
            assert(rules_of(steps@) =~= seq![RewriteRule::Canonicalize]);
            let proof = Proof {
                statement: Statement::Identity { lhs: copy_expr(lhs), rhs: copy_expr(rhs) },
                steps,
                assumptions_used: Vec::new(),
                certificate,
            };
            return ProofResult::Proven(proof);
        }
        let result = self.bidirectional_search(ar, &lhs_canon, &rhs_canon);
        let ghost before = self.proof_cache.held();
        let kept = result.duplicate();
        self.proof_cache.insert(copy_expr(lhs), copy_expr(rhs), kept);
        assert(self.proof_cache.held().subrange(0, before.len() as int) =~= before);
        assert(is_search_result(ar, lhs_canon, rhs_canon, result) && is_canonical(ar, lhs_canon)
            && is_canonical(ar, rhs_canon));
        result
    }

    /// The proof that a term is Hermitian because it is the same term as
    /// its own conjugate transpose. No term is, so there is never one.
    pub fn symbolic_hermitian_proof(&self, expr: &Expr) -> (r: Option<Vec<ProofStep>>)
        ensures
            r is None,
    {
        let dagger_expr = Expr::Dagger(Box::new(copy_expr(expr)));
        let same = expr_equal(expr, &dagger_expr);
        proof {
            lemma_dagger_copy_differs(*expr, dagger_expr);
        }
        if same {
            let step = ProofStep {
                rule: RewriteRule::HermitianByConstruction,
                before: copy_expr(expr),
                after: copy_expr(expr),
                justification: "Expression equals its own Hermitian conjugate".to_string(),
            };
            let steps = vec![step];
            assert(rules_of(steps@) =~= seq![RewriteRule::HermitianByConstruction]);
            Some(steps)
        } else {
            None
        }
    }

    /// Tries to prove that a term is Hermitian: by the symbolic proof, else
    /// by numbers. Terms cannot be evaluated, so the attempt by numbers
    /// fails.
    pub fn prove_hermitian(&self, expr: &Expr) -> (r: PropertyProof)
        ensures
            r.property is Hermitian,
            same_expr(*expr, r.property->Hermitian_0),
            r.result == PropertyResult::Failed(Reason::CannotEvaluate),
            r.certificate is None,
    {
        match self.symbolic_hermitian_proof(expr) {
            Some(steps) => {
                let none: Vec<Assumption> = Vec::new();
                PropertyProof {
                    property: Property::Hermitian(copy_expr(expr)),
                    result: PropertyResult::SymbolicProof(steps),
                    certificate: Some(self.generate_certificate(&none)),
                }
            },
            None => PropertyProof {
                property: Property::Hermitian(copy_expr(expr)),
                result: PropertyResult::Failed(Reason::CannotEvaluate),
                certificate: None,
            },
        }
    }

    /// Tries to prove a property. Only Hermiticity can be asked for.
    pub fn prove_property(&self, prop: Property) -> (r: PropertyProof)
        requires
            prop is Hermitian,
        ensures
            r.property is Hermitian,
            same_expr(prop->Hermitian_0, r.property->Hermitian_0),
            r.result == PropertyResult::Failed(Reason::CannotEvaluate),
            r.certificate is None,
    {
        match &prop {
            Property::Hermitian(expr) => self.prove_hermitian(expr),
            _ => vstd::pervasive::unreached(),
        }
    }
}

/// No term is the same as the conjugate transpose of a copy of itself.
pub proof fn lemma_dagger_copy_differs(expr: Expr, other: Expr)
    requires
        other is Dagger,
        same_expr(expr, *other->Dagger_0) || same_expr(*other->Dagger_0, expr),
    ensures
        !same_expr(expr, other),
    decreases expr,
{
    match expr {
        Expr::Dagger(inner) => {
            if same_expr(expr, other) {
                let copy = *other->Dagger_0;
                assert(same_expr(*inner, copy));
                assert(copy is Dagger);
                lemma_dagger_copy_differs(*inner, copy);
            }
        },
        _ => {},
    }
}

} // verus!
