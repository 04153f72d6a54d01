//! The mathematical meaning of a program: the exact sequence of results
//! its search produces, in order.
//!
//! `run_from` composes the steps from the last to the first.  With no step
//! left, the terminal yields one result — or none, for the empty program.
//! A requirement guards everything inside it; a compute step binds one more
//! value; a bind concatenates the sequences of its candidates in order.
//! The innermost bind thereby keeps the at-most-one surviving result of
//! each candidate, and every enclosing bind flattens the multi-result
//! sequences of its candidates: one flat, pruned sequence for the whole
//! program.

use vstd::prelude::*;

verus! {

use crate::expr::Expr;
use crate::expr::eval;
use crate::expr::eval_expr;
use crate::program::Program;
use crate::program::StepView;
use crate::program::steps_view;
use crate::program::terminal_view;

/// The values of the terminal expressions in an environment: one result of
/// the search.
pub open spec fn eval_exprs(t: Seq<Expr>, env: Seq<i64>) -> Seq<i64> {
    t.map_values(|e: Expr| eval_expr(e, env))
}

/// The sequence of results that a depth-first traversal of the steps from
/// position `i` produces, in order, in the given environment.
///
/// At the end of the steps, the terminal — if there is one — is evaluated
/// once and yields the single result of this branch; without a terminal the
/// branch yields nothing.  A requirement keeps the branch exactly when its
/// predicate is nonzero.  A compute step binds one more value.  A bind step
/// concatenates, in the list's order, the results of one sub-traversal per
/// candidate value.
pub open spec fn run_from(
    steps: Seq<StepView>,
    i: nat,
    term: Option<Seq<Expr>>,
    env: Seq<i64>,
) -> Seq<Seq<i64>>
    decreases steps.len() - i, 1nat, 0nat,
{
    if i >= steps.len() {
        match term {
            Option::Some(t) => seq![eval_exprs(t, env)],
            Option::None => Seq::empty(),
        }
    } else {
        match steps[i as int] {
            StepView::Bind(vals) => run_bind(steps, i, vals, 0, term, env),
            StepView::Require(p) => if eval_expr(p, env) != 0 {
                run_from(steps, (i + 1) as nat, term, env)
            } else {
                Seq::empty()
            },
            StepView::Compute(e) => run_from(steps, (i + 1) as nat, term, env.push(eval_expr(e, env))),
        }
    }
}

/// The results contributed by the candidate values of the bind step at
/// position `i` from position `k` of its list on: one sub-traversal per
/// value, concatenated in the list's order.
pub open spec fn run_bind(
    steps: Seq<StepView>,
    i: nat,
    vals: Seq<i64>,
    k: nat,
    term: Option<Seq<Expr>>,
    env: Seq<i64>,
) -> Seq<Seq<i64>>
    decreases steps.len() - i, 0nat, vals.len() - k,
{
    if i >= steps.len() || k >= vals.len() {
        Seq::empty()
    } else {
        run_from(steps, (i + 1) as nat, term, env.push(vals[k as int])) + run_bind(
            steps,
            i,
            vals,
            (k + 1) as nat,
            term,
            env,
        )
    }
}

/// Evaluates the terminal expressions against the current environment.
pub fn eval_list(t: &Vec<Expr>, env: &Vec<i64>) -> (r: Vec<i64>)
    ensures
        r@ == eval_exprs(t@, env@),
{
    let mut out: Vec<i64> = Vec::new();
    let mut i: usize = 0;
    while i < t.len()
        invariant
            i <= t@.len(),
            out@.len() == i as int,
            forall|j: int| 0 <= j < i ==> out@[j] == eval_expr(t@[j], env@),
        decreases t@.len() - i,
    {
        let v = eval(&t[i], env);
        out.push(v);
        i = i + 1;
    }
    proof {
        assert(out@ =~= eval_exprs(t@, env@));
    }
    out
}

/// The full sequence of results of a program, in the order in which an
/// enumerator yields them.
pub open spec fn program_results(p: Program) -> Seq<Seq<i64>> {
    run_from(steps_view(p.steps@), 0, terminal_view(p.terminal), Seq::empty())
}

} // verus!
