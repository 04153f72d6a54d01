//! Laws of the search semantics, stated and proved once for every program.

use vstd::prelude::*;

verus! {

use crate::enumerate::Enumerator;
use crate::expr::Expr;
use crate::expr::eval_expr;
use crate::program::Program;
use crate::program::StepView;
use crate::program::terminal_view;
use crate::semantics::eval_exprs;
use crate::semantics::program_results;
use crate::semantics::run_bind;
use crate::semantics::run_from;

/// A program with no steps but with a terminal yields exactly one result:
/// the value of the terminal expressions, evaluated once in the empty
/// environment.
pub proof fn lemma_terminal_only(p: Program, t: Seq<Expr>)
    requires
        p.steps@.len() == 0,
        terminal_view(p.terminal) == Option::Some(t),
    ensures
        program_results(p) == seq![eval_exprs(t, Seq::empty())],
{
}

/// A program with no steps and no terminal yields no result at all.
pub proof fn lemma_empty_program(p: Program)
    requires
        p.steps@.len() == 0,
        terminal_view(p.terminal) is None,
    ensures
        program_results(p) == Seq::<Seq<i64>>::empty(),
{
}

/// A choice whose immediately following requirement rejects it contributes
/// nothing: the whole subtree under that choice — every deeper bind
/// included — yields no result, and the traversal of the remaining
/// candidates is exactly the traversal with that choice left out.
pub proof fn lemma_require_prunes_choice(
    steps: Seq<StepView>,
    i: nat,
    vals: Seq<i64>,
    k: nat,
    p: Expr,
    term: Option<Seq<Expr>>,
    env: Seq<i64>,
)
    requires
        (i as int) < steps.len(),
        steps[i as int] == StepView::Bind(vals),
        (i + 1) < steps.len(),
        steps[i as int + 1] == StepView::Require(p),
        k < vals.len(),
        eval_expr(p, env.push(vals[k as int])) == 0,
    ensures
        run_from(steps, (i + 1) as nat, term, env.push(vals[k as int]))
            == Seq::<Seq<i64>>::empty(),
        run_bind(steps, i, vals, k, term, env) == run_bind(steps, i, vals, (k + 1) as nat, term, env),
{
    assert(run_from(steps, (i + 1) as nat, term, env.push(vals[k as int]))
        == Seq::<Seq<i64>>::empty());
    assert(run_bind(steps, i, vals, k, term, env) =~= run_bind(
        steps,
        i,
        vals,
        (k + 1) as nat,
        term,
        env,
    ));
}

/// The position, in the result sequence of two nested binds, of the pair
/// made from outer candidate `i` and inner candidate `j`.
pub open spec fn pair_slot(i: int, j: int, inner_len: nat) -> int {
    i * inner_len + j
}

/// At the end of a two-bind program whose terminal is the pair of bound
/// variables, the surviving leaf yields exactly the bound pair.
proof fn lemma_pair_leaf(sigma: Seq<StepView>, env: Seq<i64>)
    requires
        sigma.len() == 2,
        env.len() == 2,
    ensures
        run_from(sigma, 2, Option::Some(seq![Expr::Var(0usize), Expr::Var(1usize)]), env) == seq![
            seq![env[0], env[1]],
        ],
{
    let t = seq![Expr::Var(0usize), Expr::Var(1usize)];
    assert(eval_expr(t[0], env) == env[0]);
    assert(eval_expr(t[1], env) == env[1]);
    assert(eval_exprs(t, env) =~= seq![env[0], env[1]]);
    assert(run_from(sigma, 2, Option::Some(t), env) =~= seq![seq![env[0], env[1]]]);
}

/// The inner bind of a two-bind program pairs the one outer value already
/// bound with every remaining inner candidate, in the candidate order.
proof fn lemma_inner_bind(sigma: Seq<StepView>, r2: Seq<i64>, k: nat, env: Seq<i64>)
    requires
        sigma.len() == 2,
        sigma[1] == StepView::Bind(r2),
        env.len() == 1,
        k <= r2.len(),
    ensures
        run_bind(
            sigma,
            1,
            r2,
            k,
            Option::Some(seq![Expr::Var(0usize), Expr::Var(1usize)]),
            env,
        ) == Seq::new((r2.len() - k) as nat, |j: int| seq![env[0], r2[k + j]]),
    decreases r2.len() - k,
{
    let tau = Option::Some(seq![Expr::Var(0usize), Expr::Var(1usize)]);
    if k >= r2.len() {
        assert(run_bind(sigma, 1, r2, k, tau, env) =~= Seq::new(
            (r2.len() - k) as nat,
            |j: int| seq![env[0], r2[k + j]],
        ));
    } else {
        lemma_pair_leaf(sigma, env.push(r2[k as int]));
        lemma_inner_bind(sigma, r2, (k + 1) as nat, env);
        assert(env.push(r2[k as int])[0] == env[0]);
        assert(env.push(r2[k as int])[1] == r2[k as int]);
        assert(run_bind(sigma, 1, r2, k, tau, env) =~= Seq::new(
            (r2.len() - k) as nat,
            |j: int| seq![env[0], r2[k + j]],
        ));
    }
}

/// The outer bind of a two-bind program, from candidate `k` on, yields
/// every remaining outer candidate paired with every inner candidate, the
/// inner candidate varying fastest.
proof fn lemma_outer_bind(sigma: Seq<StepView>, r1: Seq<i64>, r2: Seq<i64>, k: nat)
    requires
        sigma == seq![StepView::Bind(r1), StepView::Bind(r2)],
        k <= r1.len(),
    ensures
        run_bind(
            sigma,
            0,
            r1,
            k,
            Option::Some(seq![Expr::Var(0usize), Expr::Var(1usize)]),
            Seq::empty(),
        ).len() == (r1.len() - k) * r2.len(),
        forall|i: int, j: int|
            0 <= i < r1.len() - k && 0 <= j < r2.len() ==> run_bind(
                sigma,
                0,
                r1,
                k,
                Option::Some(seq![Expr::Var(0usize), Expr::Var(1usize)]),
                Seq::empty(),
            )[#[trigger] pair_slot(i, j, r2.len())] == seq![r1[k + i], r2[j]],
    decreases r1.len() - k,
{
    let tau = Option::Some(seq![Expr::Var(0usize), Expr::Var(1usize)]);
    let ee = Seq::<i64>::empty();
    let l1 = r1.len() as int;
    let l2 = r2.len() as int;
    if k >= r1.len() {
        assert(run_bind(sigma, 0, r1, k, tau, ee).len() == 0);
        assert((l1 - k) * l2 == 0) by (nonlinear_arith)
            requires
                l1 == k,
        ;
    } else {
        let env1 = ee.push(r1[k as int]);
        assert(sigma[0] == StepView::Bind(r1));
        assert(sigma[1] == StepView::Bind(r2));
        assert(run_bind(sigma, 0, r1, k, tau, ee) == run_from(sigma, 1, tau, env1) + run_bind(
            sigma,
            0,
            r1,
            (k + 1) as nat,
            tau,
            ee,
        ));
        assert(run_from(sigma, 1, tau, env1) == run_bind(sigma, 1, r2, 0, tau, env1));
        lemma_inner_bind(sigma, r2, 0, env1);
        let first = Seq::new(r2.len(), |j: int| seq![env1[0], r2[j]]);
        assert(run_bind(sigma, 1, r2, 0, tau, env1) == first);
        lemma_outer_bind(sigma, r1, r2, (k + 1) as nat);
        let rest = run_bind(sigma, 0, r1, (k + 1) as nat, tau, ee);
        let whole = run_bind(sigma, 0, r1, k, tau, ee);
        assert(whole == first + rest);
        assert(rest.len() == (l1 - k - 1) * l2);
        assert((l1 - k) * l2 == l2 + (l1 - k - 1) * l2) by (nonlinear_arith);
        assert(whole.len() == (l1 - k) * l2);
        assert forall|i: int, j: int| 0 <= i < l1 - k && 0 <= j < l2 implies whole[#[trigger] pair_slot(
            i,
            j,
            r2.len(),
        )] == seq![r1[k + i], r2[j]] by {
            let slot = i * l2 + j;
            if i == 0 {
                assert(whole[slot] == first[j]);
                assert(first[j] == seq![r1[k as int], r2[j]]);
            } else {
                assert(slot >= l2 && slot - l2 == (i - 1) * l2 + j && slot < whole.len())
                    by (nonlinear_arith)
                    requires
                        1 <= i < l1 - k,
                        0 <= j < l2,
                        slot == i * l2 + j,
                        whole.len() == (l1 - k) * l2,
                ;
                assert(whole[slot] == rest[slot - l2]);
                assert(rest[pair_slot(i - 1, j, r2.len())] == seq![r1[k + 1 + (i - 1)], r2[j]]);
            }
        }
    }
}

/// Order law: a program of two binds with no pruning, whose terminal is the
/// pair of bound variables, yields all pairs in lexicographic order — every
/// outer candidate paired with every inner candidate, in the inner list's
/// order, before the outer bind advances.
pub proof fn lemma_two_bind_order(p: Program, r1: Seq<i64>, r2: Seq<i64>)
    requires
        p.steps_model() == seq![StepView::Bind(r1), StepView::Bind(r2)],
        terminal_view(p.terminal) == Option::Some(seq![Expr::Var(0usize), Expr::Var(1usize)]),
    ensures
        program_results(p).len() == r1.len() * r2.len(),
        forall|i: int, j: int|
            0 <= i < r1.len() && 0 <= j < r2.len() ==> program_results(p)[#[trigger] pair_slot(
                i,
                j,
                r2.len(),
            )] == seq![r1[i], r2[j]],
{
    let sigma = p.steps_model();
    let tau = terminal_view(p.terminal);
    assert(sigma[0] == StepView::Bind(r1));
    assert(run_from(sigma, 0, tau, Seq::empty()) == run_bind(
        sigma,
        0,
        r1,
        0,
        tau,
        Seq::empty(),
    ));
    lemma_outer_bind(sigma, r1, r2, 0);
}

/// Invoking the same program any number of times is independent: every
/// enumerator made from it carries the whole result sequence of the program
/// itself, so two enumerators made from one program yield identical
/// sequences, however each of them is consumed.
pub proof fn lemma_reinvocation_agrees(p: Program, a: Enumerator, b: Enumerator)
    requires
        a.results() == program_results(p),
        b.results() == program_results(p),
    ensures
        a.results() == b.results(),
{
}

} // verus!
