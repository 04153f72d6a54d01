//! The expression language of programs.
//!
//! Requirements, compute steps and terminals are expressions over the
//! values bound by earlier steps; `eval_expr` gives each expression its
//! mathematical value and `eval` computes it.

use vstd::prelude::*;

verus! {

use vstd::wrapping::i64_specs;

/// One arithmetic or logical expression over the values bound by the earlier
/// steps of a program.
///
/// A variable refers to a binder by position: `Var(0)` is the first value
/// bound on the current branch (by a bind or a compute step), `Var(1)` the
/// second, and so on.  Comparisons and connectives yield `1` for true and `0`
/// for false; a predicate holds exactly when its value is nonzero.  The
/// arithmetic operators wrap around on overflow.
pub enum Expr {
    /// A literal value.
    Const(i64),
    /// The value bound by the binder at the given position.
    Var(usize),
    /// Wrapping sum of the two operands.
    Add(Box<Expr>, Box<Expr>),
    /// Wrapping difference of the two operands.
    Sub(Box<Expr>, Box<Expr>),
    /// Wrapping product of the two operands.
    Mul(Box<Expr>, Box<Expr>),
    /// `1` when the operands are equal, else `0`.
    Equals(Box<Expr>, Box<Expr>),
    /// `1` when the operands differ, else `0`.
    Differs(Box<Expr>, Box<Expr>),
    /// `1` when the first operand is strictly smaller, else `0`.
    LessThan(Box<Expr>, Box<Expr>),
    /// `1` when the first operand is smaller or equal, else `0`.
    AtMost(Box<Expr>, Box<Expr>),
    /// `1` when both operands are nonzero, else `0`.
    Both(Box<Expr>, Box<Expr>),
    /// `1` when at least one operand is nonzero, else `0`.
    Either(Box<Expr>, Box<Expr>),
    /// `1` when the operand is zero, else `0`.
    Negate(Box<Expr>),
}

/// The value of an expression in an environment of bound values.
///
/// A variable whose position is not bound evaluates to zero; a well-formed
/// program never contains such a variable (see `expr_wf`).
pub open spec fn eval_expr(e: Expr, env: Seq<i64>) -> i64
    decreases e,
{
    match e {
        Expr::Const(c) => c,
        Expr::Var(i) => if (i as int) < env.len() {
            env[i as int]
        } else {
            0
        },
        Expr::Add(a, b) => i64_specs::wrapping_add(eval_expr(*a, env), eval_expr(*b, env)),
        Expr::Sub(a, b) => i64_specs::wrapping_sub(eval_expr(*a, env), eval_expr(*b, env)),
        Expr::Mul(a, b) => i64_specs::wrapping_mul(eval_expr(*a, env), eval_expr(*b, env)),
        Expr::Equals(a, b) => if eval_expr(*a, env) == eval_expr(*b, env) {
            1
        } else {
            0
        },
        Expr::Differs(a, b) => if eval_expr(*a, env) != eval_expr(*b, env) {
            1
        } else {
            0
        },
        Expr::LessThan(a, b) => if eval_expr(*a, env) < eval_expr(*b, env) {
            1
        } else {
            0
        },
        Expr::AtMost(a, b) => if eval_expr(*a, env) <= eval_expr(*b, env) {
            1
        } else {
            0
        },
        Expr::Both(a, b) => if eval_expr(*a, env) != 0 && eval_expr(*b, env) != 0 {
            1
        } else {
            0
        },
        Expr::Either(a, b) => if eval_expr(*a, env) != 0 || eval_expr(*b, env) != 0 {
            1
        } else {
            0
        },
        Expr::Negate(a) => if eval_expr(*a, env) == 0 {
            1
        } else {
            0
        },
    }
}

/// Whether every variable of the expression points below `n`, the number of
/// values bound before the expression is evaluated.
pub open spec fn expr_wf(e: Expr, n: nat) -> bool
    decreases e,
{
    match e {
        Expr::Const(_) => true,
        Expr::Var(i) => (i as nat) < n,
        Expr::Add(a, b) => expr_wf(*a, n) && expr_wf(*b, n),
        Expr::Sub(a, b) => expr_wf(*a, n) && expr_wf(*b, n),
        Expr::Mul(a, b) => expr_wf(*a, n) && expr_wf(*b, n),
        Expr::Equals(a, b) => expr_wf(*a, n) && expr_wf(*b, n),
        Expr::Differs(a, b) => expr_wf(*a, n) && expr_wf(*b, n),
        Expr::LessThan(a, b) => expr_wf(*a, n) && expr_wf(*b, n),
        Expr::AtMost(a, b) => expr_wf(*a, n) && expr_wf(*b, n),
        Expr::Both(a, b) => expr_wf(*a, n) && expr_wf(*b, n),
        Expr::Either(a, b) => expr_wf(*a, n) && expr_wf(*b, n),
        Expr::Negate(a) => expr_wf(*a, n),
    }
}

/// Evaluates an expression against the current environment of bound values.
pub fn eval(e: &Expr, env: &Vec<i64>) -> (r: i64)
    ensures
        r == eval_expr(*e, env@),
    decreases e,
{
    match e {
        Expr::Const(c) => *c,
        Expr::Var(i) => if *i < env.len() {
            env[*i]
        } else {
            0
        },
        Expr::Add(a, b) => eval(&**a, env).wrapping_add(eval(&**b, env)),
        Expr::Sub(a, b) => eval(&**a, env).wrapping_sub(eval(&**b, env)),
        Expr::Mul(a, b) => eval(&**a, env).wrapping_mul(eval(&**b, env)),
        Expr::Equals(a, b) => {
            let va = eval(&**a, env);
            let vb = eval(&**b, env);
            if va == vb {
                1
            } else {
                0
            }
        },
        Expr::Differs(a, b) => {
            let va = eval(&**a, env);
            let vb = eval(&**b, env);
            if va != vb {
                1
            } else {
                0
            }
        },
        Expr::LessThan(a, b) => {
            let va = eval(&**a, env);
            let vb = eval(&**b, env);
            if va < vb {
                1
            } else {
                0
            }
        },
        Expr::AtMost(a, b) => {
            let va = eval(&**a, env);
            let vb = eval(&**b, env);
            if va <= vb {
                1
            } else {
                0
            }
        },
        Expr::Both(a, b) => {
            let va = eval(&**a, env);
            let vb = eval(&**b, env);
            if va != 0 && vb != 0 {
                1
            } else {
                0
            }
        },
        Expr::Either(a, b) => {
            let va = eval(&**a, env);
            let vb = eval(&**b, env);
            if va != 0 || vb != 0 {
                1
            } else {
                0
            }
        },
        Expr::Negate(a) => {
            let va = eval(&**a, env);
            if va == 0 {
                1
            } else {
                0
            }
        },
    }
}

/// Checks that every variable of the expression points below `n`.
pub fn check_expr(e: &Expr, n: usize) -> (b: bool)
    ensures
        b == expr_wf(*e, n as nat),
    decreases e,
{
    match e {
        Expr::Const(_) => true,
        Expr::Var(i) => *i < n,
        Expr::Add(a, b) => check_expr(&**a, n) && check_expr(&**b, n),
        Expr::Sub(a, b) => check_expr(&**a, n) && check_expr(&**b, n),
        Expr::Mul(a, b) => check_expr(&**a, n) && check_expr(&**b, n),
        Expr::Equals(a, b) => check_expr(&**a, n) && check_expr(&**b, n),
        Expr::Differs(a, b) => check_expr(&**a, n) && check_expr(&**b, n),
        Expr::LessThan(a, b) => check_expr(&**a, n) && check_expr(&**b, n),
        Expr::AtMost(a, b) => check_expr(&**a, n) && check_expr(&**b, n),
        Expr::Both(a, b) => check_expr(&**a, n) && check_expr(&**b, n),
        Expr::Either(a, b) => check_expr(&**a, n) && check_expr(&**b, n),
        Expr::Negate(a) => check_expr(&**a, n),
    }
}

/// Builds a copy of the expression that shares nothing with the original.
pub fn clone_expr(e: &Expr) -> (r: Expr)
    ensures
        r == *e,
    decreases e,
{
    match e {
        Expr::Const(c) => Expr::Const(*c),
        Expr::Var(i) => Expr::Var(*i),
        Expr::Add(a, b) => Expr::Add(Box::new(clone_expr(&**a)), Box::new(clone_expr(&**b))),
        Expr::Sub(a, b) => Expr::Sub(Box::new(clone_expr(&**a)), Box::new(clone_expr(&**b))),
        Expr::Mul(a, b) => Expr::Mul(Box::new(clone_expr(&**a)), Box::new(clone_expr(&**b))),
        Expr::Equals(a, b) => Expr::Equals(
            Box::new(clone_expr(&**a)),
            Box::new(clone_expr(&**b)),
        ),
        Expr::Differs(a, b) => Expr::Differs(
            Box::new(clone_expr(&**a)),
            Box::new(clone_expr(&**b)),
        ),
        Expr::LessThan(a, b) => Expr::LessThan(
            Box::new(clone_expr(&**a)),
            Box::new(clone_expr(&**b)),
        ),
        Expr::AtMost(a, b) => Expr::AtMost(
            Box::new(clone_expr(&**a)),
            Box::new(clone_expr(&**b)),
        ),
        Expr::Both(a, b) => Expr::Both(Box::new(clone_expr(&**a)), Box::new(clone_expr(&**b))),
        Expr::Either(a, b) => Expr::Either(
            Box::new(clone_expr(&**a)),
            Box::new(clone_expr(&**b)),
        ),
        Expr::Negate(a) => Expr::Negate(Box::new(clone_expr(&**a))),
    }
}

impl Expr {
    /// Builds the wrapping sum of two expressions.
    pub fn add(a: Expr, b: Expr) -> (r: Expr)
        ensures
            r == Expr::Add(Box::new(a), Box::new(b)),
    {
        Expr::Add(Box::new(a), Box::new(b))
    }

    /// Builds the wrapping difference of two expressions.
    pub fn sub(a: Expr, b: Expr) -> (r: Expr)
        ensures
            r == Expr::Sub(Box::new(a), Box::new(b)),
    {
        Expr::Sub(Box::new(a), Box::new(b))
    }

    /// Builds the wrapping product of two expressions.
    pub fn mul(a: Expr, b: Expr) -> (r: Expr)
        ensures
            r == Expr::Mul(Box::new(a), Box::new(b)),
    {
        Expr::Mul(Box::new(a), Box::new(b))
    }

    /// Builds the predicate that the two expressions are equal.
    pub fn equals(a: Expr, b: Expr) -> (r: Expr)
        ensures
            r == Expr::Equals(Box::new(a), Box::new(b)),
    {
        Expr::Equals(Box::new(a), Box::new(b))
    }

    /// Builds the predicate that the two expressions differ.
    pub fn differs(a: Expr, b: Expr) -> (r: Expr)
        ensures
            r == Expr::Differs(Box::new(a), Box::new(b)),
    {
        Expr::Differs(Box::new(a), Box::new(b))
    }

    /// Builds the predicate that the first expression is strictly smaller.
    pub fn less_than(a: Expr, b: Expr) -> (r: Expr)
        ensures
            r == Expr::LessThan(Box::new(a), Box::new(b)),
    {
        Expr::LessThan(Box::new(a), Box::new(b))
    }

    /// Builds the predicate that the first expression is smaller or equal.
    pub fn at_most(a: Expr, b: Expr) -> (r: Expr)
        ensures
            r == Expr::AtMost(Box::new(a), Box::new(b)),
    {
        Expr::AtMost(Box::new(a), Box::new(b))
    }

    /// Builds the conjunction of two predicates.
    pub fn both(a: Expr, b: Expr) -> (r: Expr)
        ensures
            r == Expr::Both(Box::new(a), Box::new(b)),
    {
        Expr::Both(Box::new(a), Box::new(b))
    }

    /// Builds the disjunction of two predicates.
    pub fn either(a: Expr, b: Expr) -> (r: Expr)
        ensures
            r == Expr::Either(Box::new(a), Box::new(b)),
    {
        Expr::Either(Box::new(a), Box::new(b))
    }

    /// Builds the negation of a predicate.
    pub fn negate(a: Expr) -> (r: Expr)
        ensures
            r == Expr::Negate(Box::new(a)),
    {
        Expr::Negate(Box::new(a))
    }
}

} // verus!
