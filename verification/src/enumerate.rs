//! The compiler and runtime: turning a program into a lazy enumerator of
//! its results.
//!
//! `amb` captures the program by value into a fresh `Enumerator`, whose
//! `next` walks the search tree depth-first with an explicit stack of
//! suspended binds — the traversal state is a plain value, so yielding a
//! result and resuming later costs nothing and abandoning the enumerator is
//! always safe.  The contract of `next` ties every pull to the program's
//! result sequence defined in `crate::semantics`.

use vstd::prelude::*;

verus! {

use crate::expr::Expr;
use crate::expr::eval;
use crate::program::Program;
use crate::program::Step;
use crate::program::StepView;
use crate::program::step_view;
use crate::program::steps_view;
use crate::program::clone_steps;
use crate::program::clone_terminal;
use crate::program::terminal_view;
use crate::semantics::eval_exprs;
use crate::semantics::eval_list;
use crate::semantics::program_results;
use crate::semantics::run_bind;
use crate::semantics::run_from;

/// One suspended bind of the traversal: the enumerator is part-way through
/// the candidate list of the bind step at position `step`.
struct Frame {
    /// The position of the bind step in the program.
    step: usize,
    /// The position, in the bind's candidate list, of the value currently
    /// bound on this branch.
    k: usize,
    /// How many values were bound before this bind was entered; the
    /// environment below that length is the context shared by all of this
    /// bind's branches.
    env_len: usize,
}

/// The candidate list of a bind step; empty for the other step kinds.
spec fn bind_vals(s: StepView) -> Seq<i64> {
    match s {
        StepView::Bind(v) => v,
        StepView::Require(_) => Seq::empty(),
        StepView::Compute(_) => Seq::empty(),
    }
}

/// Whether one frame points at a bind step and a live candidate.
spec fn frame_ok(f: Frame, steps: Seq<StepView>) -> bool {
    &&& (f.step as int) < steps.len()
    &&& steps[f.step as int] is Bind
    &&& (f.k as int) < bind_vals(steps[f.step as int]).len()
}

/// Whether the frame stack is well formed: every frame points at a live
/// candidate of a bind step, owns a prefix of the current environment, and
/// the prefixes grow with depth.
spec fn frames_ok(fs: Seq<Frame>, steps: Seq<StepView>, env_len: int) -> bool {
    &&& forall|j: int| 0 <= j < fs.len() ==> frame_ok(#[trigger] fs[j], steps)
    &&& forall|j: int| 0 <= j < fs.len() ==> (#[trigger] fs[j]).env_len <= env_len
    &&& forall|j1: int, j2: int|
        0 <= j1 <= j2 < fs.len() ==> (#[trigger] fs[j1]).env_len <= (#[trigger] fs[j2]).env_len
}

/// The results still owed by one suspended bind: the sub-traversals of the
/// candidates after the one currently bound, in the environment the bind was
/// entered with.
spec fn frame_rest(
    f: Frame,
    steps: Seq<StepView>,
    term: Option<Seq<Expr>>,
    env: Seq<i64>,
) -> Seq<Seq<i64>> {
    run_bind(
        steps,
        f.step as nat,
        bind_vals(steps[f.step as int]),
        (f.k + 1) as nat,
        term,
        env.take(f.env_len as int),
    )
}

/// The results still owed by the whole frame stack, innermost bind first.
spec fn pend(
    fs: Seq<Frame>,
    steps: Seq<StepView>,
    term: Option<Seq<Expr>>,
    env: Seq<i64>,
) -> Seq<Seq<i64>>
    decreases fs.len(),
{
    if fs.len() == 0 {
        Seq::empty()
    } else {
        frame_rest(fs.last(), steps, term, env) + pend(fs.drop_last(), steps, term, env)
    }
}

/// An upper measure of the work left in a full traversal of the steps from
/// position `i`: it shrinks with every move the enumerator makes.
spec fn tree_size(steps: Seq<StepView>, i: nat) -> nat
    decreases steps.len() - i,
{
    if i >= steps.len() {
        1
    } else {
        match steps[i as int] {
            StepView::Bind(v) => 2 + v.len() * (tree_size(steps, (i + 1) as nat) + 1),
            StepView::Require(_) => 2 + tree_size(steps, (i + 1) as nat),
            StepView::Compute(_) => 2 + tree_size(steps, (i + 1) as nat),
        }
    }
}

/// The work measure of one suspended bind: the candidates it has not yet
/// tried, weighted by the work below the bind.
spec fn frame_size(f: Frame, steps: Seq<StepView>) -> nat {
    if f.k + 1 <= bind_vals(steps[f.step as int]).len() {
        ((bind_vals(steps[f.step as int]).len() - 1 - f.k) as nat) * (tree_size(
            steps,
            (f.step + 1) as nat,
        ) + 1)
    } else {
        0
    }
}

/// The work measure of the whole frame stack.
spec fn stack_size(fs: Seq<Frame>, steps: Seq<StepView>) -> nat
    decreases fs.len(),
{
    if fs.len() == 0 {
        0
    } else {
        frame_size(fs.last(), steps) + 1 + stack_size(fs.drop_last(), steps)
    }
}

/// Two environments that agree on every prefix a frame owns give the frame
/// stack the same owed results.
proof fn lemma_pend_agree(
    fs: Seq<Frame>,
    steps: Seq<StepView>,
    term: Option<Seq<Expr>>,
    env1: Seq<i64>,
    env2: Seq<i64>,
)
    requires
        forall|j: int|
            0 <= j < fs.len() ==> env1.take((#[trigger] fs[j]).env_len as int) == env2.take(
                fs[j].env_len as int,
            ),
    ensures
        pend(fs, steps, term, env1) == pend(fs, steps, term, env2),
    decreases fs.len(),
{
    if fs.len() > 0 {
        assert(fs.last() == fs[fs.len() - 1]);
        assert forall|j: int| 0 <= j < fs.drop_last().len() implies env1.take(
            (#[trigger] fs.drop_last()[j]).env_len as int,
        ) == env2.take(fs.drop_last()[j].env_len as int) by {
            assert(fs.drop_last()[j] == fs[j]);
        }
        lemma_pend_agree(fs.drop_last(), steps, term, env1, env2);
    }
}

/// Binding one more value leaves every suspended bind's owed results
/// unchanged: each owns only a prefix of the environment it was entered
/// with.
proof fn lemma_pend_push(
    fs: Seq<Frame>,
    steps: Seq<StepView>,
    term: Option<Seq<Expr>>,
    env: Seq<i64>,
    v: i64,
)
    requires
        forall|j: int| 0 <= j < fs.len() ==> (#[trigger] fs[j]).env_len <= env.len(),
    ensures
        pend(fs, steps, term, env.push(v)) == pend(fs, steps, term, env),
{
    assert forall|j: int| 0 <= j < fs.len() implies env.push(v).take(
        (#[trigger] fs[j]).env_len as int,
    ) == env.take(fs[j].env_len as int) by {
        assert(env.push(v).take(fs[j].env_len as int) =~= env.take(fs[j].env_len as int));
    }
    lemma_pend_agree(fs, steps, term, env.push(v), env);
}

/// Dropping values above every suspended bind's prefix leaves the owed
/// results unchanged.
proof fn lemma_pend_take(
    fs: Seq<Frame>,
    steps: Seq<StepView>,
    term: Option<Seq<Expr>>,
    env: Seq<i64>,
    m: int,
)
    requires
        0 <= m <= env.len(),
        forall|j: int| 0 <= j < fs.len() ==> (#[trigger] fs[j]).env_len <= m,
    ensures
        pend(fs, steps, term, env.take(m)) == pend(fs, steps, term, env),
{
    assert forall|j: int| 0 <= j < fs.len() implies env.take(m).take(
        (#[trigger] fs[j]).env_len as int,
    ) == env.take(fs[j].env_len as int) by {
        assert(env.take(m).take(fs[j].env_len as int) =~= env.take(fs[j].env_len as int));
    }
    lemma_pend_agree(fs, steps, term, env.take(m), env);
}

/// A lazy, pull-based traversal of one program's search tree.
///
/// Each call of [`Enumerator::next`] resumes the depth-first traversal
/// exactly where the previous call left off and yields the next surviving
/// result, so the whole cross-product of candidate lists is never held at
/// once and a branch whose requirement fails is abandoned before anything
/// below it is explored.  The enumerator owns a copy of the program and all
/// the values it has bound: it shares nothing with its program or with any
/// other enumerator, and abandoning it part-way is always safe.
pub struct Enumerator {
    /// The enumerator's own copy of the program's steps.
    steps: Vec<Step>,
    /// The enumerator's own copy of the program's terminal.
    terminal: Option<Vec<Expr>>,
    /// The suspended binds of the current branch, outermost first.
    frames: Vec<Frame>,
    /// The values bound on the current branch, in binding order.
    env: Vec<i64>,
    /// Whether the traversal has begun.
    started: bool,
    /// Whether the traversal has ended.
    done: bool,
    /// How many times each step's candidate list has been entered; a
    /// requirement or compute step keeps the count zero.
    entered: Vec<u64>,
    /// How many results have been yielded.
    emitted: Ghost<nat>,
}

impl Enumerator {
    /// The full sequence of results this enumerator yields over its life,
    /// determined by its program alone.
    pub closed spec fn results(self) -> Seq<Seq<i64>> {
        run_from(steps_view(self.steps@), 0, terminal_view(self.terminal), Seq::empty())
    }

    /// How many results have been yielded so far.
    pub closed spec fn emitted(self) -> nat {
        self.emitted@
    }

    /// How many steps the enumerator's program has.
    pub closed spec fn n_steps(self) -> nat {
        self.steps@.len()
    }

    /// How many times each step's candidate list has been entered so far.
    pub closed spec fn entered_counts(self) -> Seq<u64> {
        self.entered@
    }

    /// The enumerator's internal soundness: its suspended state always owes
    /// exactly the results not yet yielded.
    pub closed spec fn wf(self) -> bool {
        &&& terminal_view(self.terminal) is None ==> self.steps@.len() == 0
        &&& self.entered@.len() == self.steps@.len()
        &&& frames_ok(self.frames@, steps_view(self.steps@), self.env@.len() as int)
        &&& self.emitted@ <= self.results().len()
        &&& if !self.started {
            &&& self.frames@.len() == 0
            &&& self.env@.len() == 0
            &&& !self.done
            &&& self.emitted@ == 0
        } else if self.done {
            self.emitted@ == self.results().len()
        } else {
            self.results().skip(self.emitted@ as int) == pend(
                self.frames@,
                steps_view(self.steps@),
                terminal_view(self.terminal),
                self.env@,
            )
        }
    }

    /// How many times the candidate list of the step at `step` has been
    /// entered so far; zero for a step out of range.
    ///
    /// A list is entered once each time the traversal reaches its bind step
    /// on some branch — advancing through the list while backtracking belongs
    /// to the same entry — so the count shows which choice dimensions a
    /// pruned branch never touched.  The count saturates instead of wrapping.
    pub fn times_entered(&self, step: usize) -> (n: u64)
        ensures
            (step as int) < self.entered_counts().len() ==> n == self.entered_counts()[step as int],
            (step as int) >= self.entered_counts().len() ==> n == 0,
    {
        if step < self.entered.len() {
            self.entered[step]
        } else {
            0
        }
    }

    /// Pulls the next result of the search, resuming the depth-first
    /// traversal exactly where the previous pull left off.
    ///
    /// The call yields element number `emitted()` of the enumerator's result
    /// sequence and advances the cursor by one; it returns `None` exactly
    /// when every result has been yielded.  No result is ever skipped,
    /// duplicated or reordered, and a branch pruned by a requirement costs
    /// no deeper exploration.
    #[verifier::loop_isolation(false)]
    #[verifier::rlimit(100)]
    pub fn next(&mut self) -> (r: Option<Vec<i64>>)
        requires
            old(self).wf(),
        ensures
            final(self).wf(),
            final(self).results() == old(self).results(),
            final(self).n_steps() == old(self).n_steps(),
            final(self).entered_counts().len() == old(self).entered_counts().len(),
            forall|t: int|
                0 <= t < old(self).entered_counts().len() ==> old(self).entered_counts()[t]
                    <= #[trigger] final(self).entered_counts()[t],
            match r {
                Option::Some(v) => {
                    &&& old(self).emitted() < old(self).results().len()
                    &&& v@ == old(self).results()[old(self).emitted() as int]
                    &&& final(self).emitted() == old(self).emitted() + 1
                },
                Option::None => {
                    &&& old(self).emitted() == old(self).results().len()
                    &&& final(self).emitted() == old(self).emitted()
                },
            },
    {
        if self.done {
            return Option::None;
        }
        let ghost sigma = steps_view(self.steps@);
        let ghost tau = terminal_view(self.terminal);
        let ghost res = self.results();
        let ghost e0 = self.emitted@;
        let ghost ent0 = self.entered@;
        let total: usize = self.steps.len();
        proof {
            assert(sigma.len() == total as int);
        }
        let mut ip: usize = 0;
        let mut descending: bool = true;
        if !self.started {
            self.started = true;
            proof {
                assert(self.env@ =~= Seq::<i64>::empty());
                assert(pend(self.frames@, sigma, tau, self.env@) == Seq::<Seq<i64>>::empty());
                assert(run_from(sigma, 0, tau, self.env@) + Seq::<Seq<i64>>::empty()
                    =~= run_from(sigma, 0, tau, self.env@));
                assert(res.skip(0) =~= res);
            }
        } else {
            descending = false;
        }
        loop
            invariant
                steps_view(self.steps@) == sigma,
                terminal_view(self.terminal) == tau,
                self.emitted@ == e0,
                self.started,
                !self.done,
                self.entered@.len() == sigma.len(),
                self.steps@.len() == sigma.len(),
                forall|t: int| 0 <= t < sigma.len() ==> ent0[t] <= #[trigger] self.entered@[t],
                frames_ok(self.frames@, sigma, self.env@.len() as int),
                descending ==> ip as int <= sigma.len(),
                descending ==> run_from(sigma, ip as nat, tau, self.env@) + pend(
                    self.frames@,
                    sigma,
                    tau,
                    self.env@,
                ) == res.skip(e0 as int),
                !descending ==> pend(self.frames@, sigma, tau, self.env@) == res.skip(e0 as int),
            decreases (if descending {
                tree_size(sigma, ip as nat) + stack_size(self.frames@, sigma)
            } else {
                stack_size(self.frames@, sigma)
            }),
        {
            if descending {
                if ip == self.steps.len() {
                    match &self.terminal {
                        Option::Some(t) => {
                            let out = eval_list(t, &self.env);
                            proof {
                                let p0 = pend(self.frames@, sigma, tau, self.env@);
                                assert(run_from(sigma, ip as nat, tau, self.env@) == seq![
                                    eval_exprs(t@, self.env@),
                                ]);
                                assert(res.skip(e0 as int) == seq![out@] + p0);
                                assert(res.skip(e0 as int).len() == res.len() - e0);
                                assert(res.skip(e0 as int)[0] == res[e0 as int]);
                                assert(res[e0 as int] == out@);
                                assert forall|x: int| 0 <= x < p0.len() implies p0[x] == res.skip(
                                    e0 as int + 1,
                                )[x] by {
                                    assert((seq![out@] + p0)[x + 1] == p0[x]);
                                    assert(res.skip(e0 as int)[x + 1] == res[e0 as int + 1 + x]);
                                    assert(res.skip(e0 as int + 1)[x] == res[e0 as int + 1 + x]);
                                }
                                assert(p0 =~= res.skip(e0 as int + 1));
                            }
                            self.emitted = Ghost(e0 + 1);
                            return Option::Some(out);
                        },
                        Option::None => {
                            proof {
                                assert(sigma.len() == 0);
                                if self.frames@.len() > 0 {
                                    assert(frame_ok(self.frames@[0], sigma));
                                    assert(false);
                                }
                                assert(run_from(sigma, ip as nat, tau, self.env@)
                                    == Seq::<Seq<i64>>::empty());
                                assert(res.skip(e0 as int) =~= Seq::<Seq<i64>>::empty());
                                assert(e0 == res.len());
                            }
                            self.done = true;
                            return Option::None;
                        },
                    }
                } else {
                    let ghost fs0 = self.frames@;
                    let ghost env0 = self.env@;
                    proof {
                        assert(sigma[ip as int] == step_view(self.steps@[ip as int]));
                    }
                    match &self.steps[ip] {
                        Step::Require(p) => {
                            let v = eval(p, &self.env);
                            if v != 0 {
                                proof {
                                    assert(run_from(sigma, ip as nat, tau, self.env@) == run_from(
                                        sigma,
                                        (ip + 1) as nat,
                                        tau,
                                        self.env@,
                                    ));
                                }
                                ip = ip + 1;
                            } else {
                                proof {
                                    assert(run_from(sigma, ip as nat, tau, self.env@)
                                        == Seq::<Seq<i64>>::empty());
                                    assert(Seq::<Seq<i64>>::empty() + pend(fs0, sigma, tau, env0)
                                        =~= pend(fs0, sigma, tau, env0));
                                }
                                descending = false;
                            }
                        },
                        Step::Compute(e) => {
                            let v = eval(e, &self.env);
                            proof {
                                assert(run_from(sigma, ip as nat, tau, env0) == run_from(
                                    sigma,
                                    (ip + 1) as nat,
                                    tau,
                                    env0.push(v),
                                ));
                                lemma_pend_push(fs0, sigma, tau, env0, v);
                            }
                            self.env.push(v);
                            ip = ip + 1;
                        },
                        Step::Bind(vals) => {
                            let c = self.entered[ip];
                            self.entered[ip] = if c < u64::MAX {
                                c + 1
                            } else {
                                c
                            };
                            proof {
                                assert(bind_vals(sigma[ip as int]) == vals@);
                                assert(run_from(sigma, ip as nat, tau, env0) == run_bind(
                                    sigma,
                                    ip as nat,
                                    vals@,
                                    0,
                                    tau,
                                    env0,
                                ));
                            }
                            if vals.len() > 0 {
                                let v = vals[0];
                                let el = self.env.len();
                                proof {
                                    assert(run_bind(sigma, ip as nat, vals@, 0, tau, env0)
                                        == run_from(
                                        sigma,
                                        (ip + 1) as nat,
                                        tau,
                                        env0.push(vals@[0]),
                                    ) + run_bind(sigma, ip as nat, vals@, 1, tau, env0));
                                }
                                self.frames.push(
                                    Frame { step: ip, k: 0, env_len: el },
                                );
                                self.env.push(v);
                                proof {
                                    let f1 = Frame { step: ip, k: 0, env_len: el };
                                    assert(self.frames@.last() == f1);
                                    assert(self.frames@.drop_last() =~= fs0);
                                    assert(self.env@ == env0.push(v));
                                    assert(self.env@.take(el as int) =~= env0);
                                    assert(frame_rest(f1, sigma, tau, self.env@) == run_bind(
                                        sigma,
                                        ip as nat,
                                        vals@,
                                        1,
                                        tau,
                                        env0,
                                    ));
                                    lemma_pend_push(fs0, sigma, tau, env0, v);
                                    assert(pend(self.frames@, sigma, tau, self.env@) == frame_rest(
                                        f1,
                                        sigma,
                                        tau,
                                        self.env@,
                                    ) + pend(fs0, sigma, tau, env0));
                                    let tn = tree_size(sigma, (ip + 1) as nat);
                                    let lv = vals@.len();
                                    assert(lv * (tn + 1) == (lv - 1) * (tn + 1) + (tn + 1))
                                        by (nonlinear_arith)
                                        requires
                                            lv >= 1,
                                    ;
                                    assert(frame_size(f1, sigma) == (lv - 1) * (tn + 1));
                                    assert(stack_size(self.frames@, sigma) == frame_size(f1, sigma)
                                        + 1 + stack_size(fs0, sigma));
                                }
                                ip = ip + 1;
                            } else {
                                proof {
                                    assert(run_bind(sigma, ip as nat, vals@, 0, tau, env0)
                                        == Seq::<Seq<i64>>::empty());
                                    assert(Seq::<Seq<i64>>::empty() + pend(fs0, sigma, tau, env0)
                                        =~= pend(fs0, sigma, tau, env0));
                                }
                                descending = false;
                            }
                        },
                    }
                }
            } else {
                let ghost fs0 = self.frames@;
                let ghost env0 = self.env@;
                let popped = self.frames.pop();
                match popped {
                    Option::None => {
                        proof {
                            assert(fs0.len() == 0);
                            assert(pend(fs0, sigma, tau, env0) == Seq::<Seq<i64>>::empty());
                            assert(res.skip(e0 as int) =~= Seq::<Seq<i64>>::empty());
                            assert(e0 == res.len());
                        }
                        self.done = true;
                        return Option::None;
                    },
                    Option::Some(f) => {
                        proof {
                            assert(fs0.len() > 0);
                            assert(f == fs0.last());
                            assert(self.frames@ =~= fs0.drop_last());
                            assert(frame_ok(f, sigma));
                            assert(sigma[f.step as int] == step_view(self.steps@[f.step as int]));
                            assert forall|j: int| 0 <= j < self.frames@.len() implies (
                            #[trigger] self.frames@[j]).env_len <= f.env_len as int by {
                                assert(self.frames@[j] == fs0[j]);
                                assert(fs0[j].env_len <= fs0[fs0.len() - 1].env_len);
                            }
                        }
                        self.env.truncate(f.env_len);
                        proof {
                            assert(self.env@ == env0.take(f.env_len as int));
                            lemma_pend_take(
                                self.frames@,
                                sigma,
                                tau,
                                env0,
                                f.env_len as int,
                            );
                            assert(pend(self.frames@, sigma, tau, self.env@) == pend(
                                self.frames@,
                                sigma,
                                tau,
                                env0,
                            ));
                            assert(pend(fs0, sigma, tau, env0) == frame_rest(f, sigma, tau, env0)
                                + pend(self.frames@, sigma, tau, env0));
                        }
                        match &self.steps[f.step] {
                            Step::Bind(vals) => {
                                proof {
                                    assert(bind_vals(sigma[f.step as int]) == vals@);
                                    assert(f.k < vals@.len());
                                }
                                let nv = vals.len();
                                if f.k < nv - 1 {
                                    let v = vals[f.k + 1];
                                    let ghost fs1 = self.frames@;
                                    let ghost env1 = self.env@;
                                    proof {
                                        assert(frame_rest(f, sigma, tau, env0) == run_bind(
                                            sigma,
                                            f.step as nat,
                                            vals@,
                                            (f.k + 1) as nat,
                                            tau,
                                            env1,
                                        ));
                                        assert(run_bind(
                                            sigma,
                                            f.step as nat,
                                            vals@,
                                            (f.k + 1) as nat,
                                            tau,
                                            env1,
                                        ) == run_from(
                                            sigma,
                                            (f.step + 1) as nat,
                                            tau,
                                            env1.push(vals@[f.k + 1]),
                                        ) + run_bind(
                                            sigma,
                                            f.step as nat,
                                            vals@,
                                            (f.k + 2) as nat,
                                            tau,
                                            env1,
                                        ));
                                    }
                                    self.frames.push(
                                        Frame { step: f.step, k: f.k + 1, env_len: f.env_len },
                                    );
                                    self.env.push(v);
                                    ip = f.step + 1;
                                    descending = true;
                                    proof {
                                        let f1 = Frame {
                                            step: f.step,
                                            k: (f.k + 1) as usize,
                                            env_len: f.env_len,
                                        };
                                        assert(self.frames@.last() == f1);
                                        assert(self.frames@.drop_last() =~= fs1);
                                        assert(self.env@ == env1.push(v));
                                        assert(self.env@.take(f.env_len as int) =~= env1);
                                        assert(frame_rest(f1, sigma, tau, self.env@) == run_bind(
                                            sigma,
                                            f.step as nat,
                                            vals@,
                                            (f.k + 2) as nat,
                                            tau,
                                            env1,
                                        ));
                                        lemma_pend_push(fs1, sigma, tau, env1, v);
                                        assert(pend(self.frames@, sigma, tau, self.env@)
                                            == frame_rest(f1, sigma, tau, self.env@) + pend(
                                            fs1,
                                            sigma,
                                            tau,
                                            env1,
                                        ));
                                        let tn = tree_size(sigma, (f.step + 1) as nat);
                                        let rr = vals@.len() - 1 - f.k;
                                        assert(rr * (tn + 1) == (rr - 1) * (tn + 1) + (tn + 1))
                                            by (nonlinear_arith)
                                            requires
                                                rr >= 1,
                                        ;
                                        assert(frame_size(f, sigma) == rr * (tn + 1));
                                        assert(frame_size(f1, sigma) == (rr - 1) * (tn + 1));
                                        assert(stack_size(fs0, sigma) == frame_size(f, sigma) + 1
                                            + stack_size(fs1, sigma));
                                        assert(stack_size(self.frames@, sigma) == frame_size(
                                            f1,
                                            sigma,
                                        ) + 1 + stack_size(fs1, sigma));
                                    }
                                } else {
                                    proof {
                                        assert(frame_rest(f, sigma, tau, env0)
                                            == Seq::<Seq<i64>>::empty());
                                        assert(Seq::<Seq<i64>>::empty() + pend(
                                            self.frames@,
                                            sigma,
                                            tau,
                                            env0,
                                        ) =~= pend(self.frames@, sigma, tau, env0));
                                        assert(stack_size(fs0, sigma) == frame_size(f, sigma) + 1
                                            + stack_size(self.frames@, sigma));
                                    }
                                }
                            },
                            Step::Require(_) => {
                                proof {
                                    assert(false);
                                }
                            },
                            Step::Compute(_) => {
                                proof {
                                    assert(false);
                                }
                            },
                        }
                    },
                }
            }
        }
    }
}

/// Compiles a program into a fresh enumerator over its results.
///
/// Every invocation yields an independent enumerator with its own copy of
/// the program and its own traversal cursor: consuming one never affects
/// another, and the result sequence is determined by the program alone.
pub fn amb(program: &Program) -> (e: Enumerator)
    requires
        program.valid(),
    ensures
        e.wf(),
        e.emitted() == 0,
        e.results() == program_results(*program),
        e.n_steps() == program.steps@.len(),
        e.entered_counts() == Seq::new(program.steps@.len(), |i: int| 0u64),
{
    let n = program.steps.len();
    let mut zeroes: Vec<u64> = Vec::new();
    let mut i: usize = 0;
    while i < n
        invariant
            i <= n,
            zeroes@.len() == i as int,
            forall|j: int| 0 <= j < i ==> zeroes@[j] == 0u64,
        decreases n - i,
    {
        zeroes.push(0);
        i = i + 1;
    }
    let e = Enumerator {
        steps: clone_steps(&program.steps),
        terminal: clone_terminal(&program.terminal),
        frames: Vec::new(),
        env: Vec::new(),
        started: false,
        done: false,
        entered: zeroes,
        emitted: Ghost(0),
    };
    proof {
        assert(steps_view(e.steps@).len() == e.steps@.len());
        assert(steps_view(program.steps@).len() == program.steps@.len());
        assert(e.entered_counts() =~= Seq::new(program.steps@.len(), |i: int| 0u64));
    }
    e
}

} // verus!
