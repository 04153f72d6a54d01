//! The step model: pure data describing a search, with no behaviour
//! beyond construction and inspection.
//!
//! A program is an ordered list of bind, require and compute steps plus a
//! terminal; `Program::new` is the list-based builder, and it rejects a
//! malformed definition once, at construction time.

use vstd::prelude::*;

verus! {

use crate::expr::Expr;
use crate::expr::check_expr;
use crate::expr::clone_expr;
use crate::expr::expr_wf;

/// One step of a program.
pub enum Step {
    /// Introduces a choice dimension: the search tries every value of the
    /// list, in the list's order, binding each in turn as the next variable.
    Bind(Vec<i64>),
    /// Requires a predicate of the values bound so far: when it evaluates to
    /// zero, the current branch is pruned and nothing below it is explored.
    Require(Expr),
    /// Evaluates an expression and binds its value as the next variable; a
    /// compute step always succeeds and never prunes.
    Compute(Expr),
}

/// A step as a mathematical value: a bind is its candidate sequence, the
/// other steps are their expression.
pub enum StepView {
    /// The candidates of a bind step, in the order the search tries them.
    Bind(Seq<i64>),
    /// The predicate of a requirement.
    Require(Expr),
    /// The expression of a compute step.
    Compute(Expr),
}

/// The mathematical value of one step.
pub open spec fn step_view(s: Step) -> StepView {
    match s {
        Step::Bind(v) => StepView::Bind(v@),
        Step::Require(p) => StepView::Require(p),
        Step::Compute(e) => StepView::Compute(e),
    }
}

/// The mathematical value of a step list.
pub open spec fn steps_view(v: Seq<Step>) -> Seq<StepView> {
    v.map_values(|s: Step| step_view(s))
}

/// The terminal as a mathematical value.
pub open spec fn terminal_view(t: Option<Vec<Expr>>) -> Option<Seq<Expr>> {
    match t {
        Option::Some(v) => Option::Some(v@),
        Option::None => Option::None,
    }
}

/// A program: an ordered list of steps, and the terminal expressions whose
/// values form one result at each surviving leaf of the search.
///
/// A program is either empty — no steps and no terminal — or it carries a
/// terminal; `Program::new` rejects every other shape.  A program is built
/// once and never changed; invoking it any number of times yields
/// independent enumerators.
pub struct Program {
    /// The steps, in the order in which the search performs them.
    pub steps: Vec<Step>,
    /// The expressions evaluated at each surviving leaf; their values, in
    /// order, form one result.
    pub terminal: Option<Vec<Expr>>,
}

/// What a program definition can be rejected for.
#[derive(Debug)]
pub enum ProgramError {
    /// A program with at least one step must carry a terminal expression.
    MissingTerminal,
    /// The step at this position names a variable that no earlier step binds.
    UnboundVar { step: usize },
    /// A terminal expression names a variable that no step binds.
    UnboundVarInTerminal,
}

/// How many variables the steps before position `i` bind: bind and compute
/// steps each bind one new variable, a requirement binds none.
pub open spec fn binders_before(steps: Seq<StepView>, i: nat) -> nat
    decreases i,
{
    if i == 0 {
        0
    } else {
        binders_before(steps, (i - 1) as nat) + match steps[i - 1] {
            StepView::Bind(_) => 1nat,
            StepView::Require(_) => 0nat,
            StepView::Compute(_) => 1nat,
        }
    }
}

/// Whether the step at position `i` observes only variables bound by the
/// steps before it.
pub open spec fn step_wf(steps: Seq<StepView>, i: nat) -> bool {
    match steps[i as int] {
        StepView::Bind(_) => true,
        StepView::Require(p) => expr_wf(p, binders_before(steps, i)),
        StepView::Compute(e) => expr_wf(e, binders_before(steps, i)),
    }
}

impl Program {
    /// The program's steps as mathematical values.
    pub open spec fn steps_model(self) -> Seq<StepView> {
        steps_view(self.steps@)
    }

    /// Whether the program's shape is acceptable: a program with steps must
    /// carry a terminal.
    pub open spec fn shape_ok(self) -> bool {
        self.steps@.len() == 0 || self.terminal is Some
    }

    /// Whether every step and every terminal expression observes only
    /// variables bound before it.
    pub open spec fn scopes_ok(self) -> bool {
        &&& forall|i: int|
            0 <= i < self.steps@.len() ==> #[trigger] step_wf(self.steps_model(), i as nat)
        &&& match self.terminal {
            Option::Some(t) => forall|j: int|
                0 <= j < t@.len() ==> #[trigger] expr_wf(
                    t@[j],
                    binders_before(self.steps_model(), self.steps@.len()),
                ),
            Option::None => true,
        }
    }

    /// Whether the program is acceptable: `Program::new` returns exactly the
    /// valid programs.
    pub open spec fn valid(self) -> bool {
        self.shape_ok() && self.scopes_ok()
    }

    /// Builds a program from its steps and its terminal expressions,
    /// rejecting a malformed definition once, at construction.
    ///
    /// A non-empty program without a terminal is rejected, as is a step or a
    /// terminal expression that names a variable no earlier step binds; the
    /// diagnostic identifies the offending step.
    pub fn new(steps: Vec<Step>, terminal: Option<Vec<Expr>>) -> (r: Result<
        Program,
        ProgramError,
    >)
        ensures
            match r {
                Result::Ok(p) => p.steps@ == steps@ && terminal_view(p.terminal)
                    == terminal_view(terminal) && p.valid(),
                Result::Err(ProgramError::MissingTerminal) => steps@.len() > 0 && terminal is None,
                Result::Err(ProgramError::UnboundVar { step }) => (steps@.len() == 0
                    || terminal is Some) && step < steps@.len() && !step_wf(
                    steps_view(steps@),
                    step as nat,
                ) && (forall|j: int|
                    0 <= j < step ==> #[trigger] step_wf(steps_view(steps@), j as nat)),
                Result::Err(ProgramError::UnboundVarInTerminal) => (steps@.len() == 0
                    || terminal is Some) && (forall|j: int|
                    0 <= j < steps@.len() ==> #[trigger] step_wf(steps_view(steps@), j as nat)) && (
                terminal matches Option::Some(t) && exists|j: int|
                    0 <= j < t@.len() && !expr_wf(
                        t@[j],
                        binders_before(steps_view(steps@), steps@.len()),
                    )),
            },
    {
        if steps.len() > 0 && terminal.is_none() {
            return Result::Err(ProgramError::MissingTerminal);
        }
        let mut i: usize = 0;
        let mut nb: usize = 0;
        while i < steps.len()
            invariant
                i <= steps@.len(),
                nb <= i,
                steps@.len() == 0 || terminal is Some,
                nb as nat == binders_before(steps_view(steps@), i as nat),
                forall|j: int| 0 <= j < i ==> #[trigger] step_wf(steps_view(steps@), j as nat),
            decreases steps@.len() - i,
        {
            proof {
                assert(steps_view(steps@)[i as int] == step_view(steps@[i as int]));
            }
            match &steps[i] {
                Step::Bind(_) => {
                    nb = nb + 1;
                },
                Step::Require(p) => {
                    if !check_expr(p, nb) {
                        return Result::Err(ProgramError::UnboundVar { step: i });
                    }
                },
                Step::Compute(e) => {
                    if !check_expr(e, nb) {
                        return Result::Err(ProgramError::UnboundVar { step: i });
                    }
                    nb = nb + 1;
                },
            }
            i = i + 1;
        }
        if let Option::Some(t) = &terminal {
            let mut j: usize = 0;
            while j < t.len()
                invariant
                    j <= t@.len(),
                    terminal_view(terminal) == Option::Some(t@),
                    steps@.len() == 0 || terminal is Some,
                    nb as nat == binders_before(steps_view(steps@), steps@.len()),
                    forall|k: int|
                        0 <= k < steps@.len() ==> #[trigger] step_wf(steps_view(steps@), k as nat),
                    forall|k: int|
                        0 <= k < j ==> #[trigger] expr_wf(
                            t@[k],
                            binders_before(steps_view(steps@), steps@.len()),
                        ),
                decreases t@.len() - j,
            {
                if !check_expr(&t[j], nb) {
                    proof {
                        assert(0 <= j < t@.len() && !expr_wf(
                            t@[j as int],
                            binders_before(steps_view(steps@), steps@.len()),
                        ));
                    }
                    return Result::Err(ProgramError::UnboundVarInTerminal);
                }
                j = j + 1;
            }
        }
        Result::Ok(Program { steps, terminal })
    }
}

/// Builds a copy of a step with the same mathematical value, sharing nothing
/// with the original.
pub fn clone_step(s: &Step) -> (r: Step)
    ensures
        step_view(r) == step_view(*s),
{
    match s {
        Step::Bind(vals) => {
            let mut copy: Vec<i64> = Vec::new();
            let mut i: usize = 0;
            while i < vals.len()
                invariant
                    i <= vals@.len(),
                    copy@ == vals@.take(i as int),
                decreases vals@.len() - i,
            {
                copy.push(vals[i]);
                proof {
                    assert(copy@ =~= vals@.take(i + 1));
                }
                i = i + 1;
            }
            proof {
                assert(copy@ =~= vals@);
            }
            Step::Bind(copy)
        },
        Step::Require(p) => Step::Require(clone_expr(p)),
        Step::Compute(e) => Step::Compute(clone_expr(e)),
    }
}

/// Builds a copy of a step list with the same mathematical value, sharing
/// nothing with the original.
pub fn clone_steps(steps: &Vec<Step>) -> (r: Vec<Step>)
    ensures
        steps_view(r@) == steps_view(steps@),
{
    let mut copy: Vec<Step> = Vec::new();
    let mut i: usize = 0;
    while i < steps.len()
        invariant
            i <= steps@.len(),
            copy@.len() == i as int,
            steps_view(copy@) == steps_view(steps@).take(i as int),
        decreases steps@.len() - i,
    {
        copy.push(clone_step(&steps[i]));
        proof {
            assert(steps_view(copy@) =~= steps_view(steps@).take(i + 1));
        }
        i = i + 1;
    }
    proof {
        assert(steps_view(copy@) =~= steps_view(steps@));
    }
    copy
}

/// Builds a copy of a terminal with the same mathematical value, sharing
/// nothing with the original.
pub fn clone_terminal(t: &Option<Vec<Expr>>) -> (r: Option<Vec<Expr>>)
    ensures
        terminal_view(r) == terminal_view(*t),
{
    match t {
        Option::Some(exprs) => {
            let mut copy: Vec<Expr> = Vec::new();
            let mut i: usize = 0;
            while i < exprs.len()
                invariant
                    i <= exprs@.len(),
                    copy@ == exprs@.take(i as int),
                decreases exprs@.len() - i,
            {
                copy.push(clone_expr(&exprs[i]));
                proof {
                    assert(copy@ =~= exprs@.take(i + 1));
                }
                i = i + 1;
            }
            proof {
                assert(copy@ =~= exprs@);
            }
            Option::Some(copy)
        },
        Option::None => Option::None,
    }
}

} // verus!
