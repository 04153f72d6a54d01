use amb::Enumerator;
use amb::Expr;
use amb::Program;
use amb::ProgramError;
use amb::Step;
use amb::amb;

fn collect_all(e: &mut Enumerator) -> Vec<Vec<i64>> {
    let mut out = Vec::new();
    while let Some(v) = e.next() {
        out.push(v);
    }
    out
}

#[test]
fn terminal_only_yields_once() {
    let program = Program::new(
        vec![],
        Some(vec![Expr::add(Expr::Const(40), Expr::Const(2))]),
    )
    .unwrap();
    let mut e = amb(&program);
    assert_eq!(e.next(), Some(vec![42]));
    assert_eq!(e.next(), None);
    assert_eq!(e.next(), None);
}

#[test]
fn empty_program_yields_nothing() {
    let program = Program::new(vec![], None).unwrap();
    let mut e = amb(&program);
    assert_eq!(e.next(), None);
    assert_eq!(e.next(), None);
}

#[test]
fn two_binds_yield_all_pairs_in_order() {
    let steps = vec![Step::Bind(vec![1, 2, 3]), Step::Bind(vec![10, 20])];
    let terminal = Some(vec![Expr::Var(0), Expr::Var(1)]);
    let program = Program::new(steps, terminal).unwrap();
    assert_eq!(
        collect_all(&mut amb(&program)),
        vec![
            vec![1, 10],
            vec![1, 20],
            vec![2, 10],
            vec![2, 20],
            vec![3, 10],
            vec![3, 20]
        ]
    );
}

#[test]
fn failed_requirement_skips_deeper_binds() {
    // The requirement after the first bind admits only the value 2; the
    // second bind's candidate list must be entered for that value alone.
    let steps = vec![
        Step::Bind(vec![2, 4, 6]),
        Step::Require(Expr::less_than(Expr::Var(0), Expr::Const(3))),
        Step::Bind(vec![7, 8]),
    ];
    let terminal = Some(vec![Expr::Var(0), Expr::Var(1)]);
    let program = Program::new(steps, terminal).unwrap();
    let mut e = amb(&program);
    assert_eq!(collect_all(&mut e), vec![vec![2, 7], vec![2, 8]]);
    assert_eq!(e.times_entered(0), 1);
    assert_eq!(e.times_entered(2), 1);
}

#[test]
fn scenario_c_inner_iterable_untouched() {
    // Bind x over {1,2,3}; require x == 1; bind y over {1,2,3}.  The results
    // are (1,1), (1,2), (1,3), and y's candidate list is never entered while
    // x is 2 or 3.
    let steps = vec![
        Step::Bind(vec![1, 2, 3]),
        Step::Require(Expr::equals(Expr::Var(0), Expr::Const(1))),
        Step::Bind(vec![1, 2, 3]),
    ];
    let terminal = Some(vec![Expr::Var(0), Expr::Var(1)]);
    let program = Program::new(steps, terminal).unwrap();
    let mut e = amb(&program);
    assert_eq!(
        collect_all(&mut e),
        vec![vec![1, 1], vec![1, 2], vec![1, 3]]
    );
    assert_eq!(e.times_entered(0), 1);
    assert_eq!(e.times_entered(2), 1);
}

#[test]
fn reinvocation_is_independent() {
    let steps = vec![
        Step::Bind(vec![1, 2, 3]),
        Step::Bind(vec![1, 2, 3]),
        Step::Require(Expr::equals(
            Expr::add(Expr::Var(0), Expr::Var(1)),
            Expr::Const(4),
        )),
    ];
    let terminal = Some(vec![Expr::Var(0), Expr::Var(1)]);
    let program = Program::new(steps, terminal).unwrap();

    let mut first = amb(&program);
    let mut second = amb(&program);

    // Consuming the first enumerator part-way does not move the second.
    assert_eq!(first.next(), Some(vec![1, 3]));
    assert_eq!(first.next(), Some(vec![2, 2]));
    assert_eq!(second.next(), Some(vec![1, 3]));

    let rest_of_first = collect_all(&mut first);
    let rest_of_second = collect_all(&mut second);
    assert_eq!(rest_of_first, vec![vec![3, 1]]);
    assert_eq!(rest_of_second, vec![vec![2, 2], vec![3, 1]]);

    // Two fresh enumerators of the same program agree on everything.
    assert_eq!(
        collect_all(&mut amb(&program)),
        collect_all(&mut amb(&program))
    );
}

#[test]
fn missing_terminal_is_rejected() {
    let r = Program::new(vec![Step::Bind(vec![1])], None);
    assert!(matches!(r, Err(ProgramError::MissingTerminal)));
}

#[test]
fn unbound_variable_in_step_is_rejected() {
    // The first step can observe no variable at all; the requirement names
    // one, so the definition is rejected, naming the offending step.
    let steps = vec![
        Step::Require(Expr::equals(Expr::Var(0), Expr::Const(1))),
        Step::Bind(vec![1, 2]),
    ];
    let r = Program::new(steps, Some(vec![Expr::Const(0)]));
    assert!(matches!(r, Err(ProgramError::UnboundVar { step: 0 })));
}

#[test]
fn later_step_sees_earlier_binders_only() {
    // A requirement after the first bind may name variable 0 but not 1.
    let accepted = Program::new(
        vec![
            Step::Bind(vec![1, 2]),
            Step::Require(Expr::equals(Expr::Var(0), Expr::Const(1))),
            Step::Bind(vec![3]),
        ],
        Some(vec![Expr::Var(1)]),
    );
    assert!(accepted.is_ok());

    let rejected = Program::new(
        vec![
            Step::Bind(vec![1, 2]),
            Step::Require(Expr::equals(Expr::Var(1), Expr::Const(1))),
            Step::Bind(vec![3]),
        ],
        Some(vec![Expr::Var(1)]),
    );
    assert!(matches!(rejected, Err(ProgramError::UnboundVar { step: 1 })));
}

#[test]
fn unbound_variable_in_terminal_is_rejected() {
    let r = Program::new(vec![], Some(vec![Expr::Var(0)]));
    assert!(matches!(r, Err(ProgramError::UnboundVarInTerminal)));
}

#[test]
fn empty_candidate_list_yields_nothing() {
    let steps = vec![Step::Bind(vec![]), Step::Bind(vec![1, 2])];
    let terminal = Some(vec![Expr::Var(0), Expr::Var(1)]);
    let program = Program::new(steps, terminal).unwrap();
    let mut e = amb(&program);
    assert_eq!(e.next(), None);
    // The empty list was entered once; the inner one never.
    assert_eq!(e.times_entered(0), 1);
    assert_eq!(e.times_entered(1), 0);
}

#[test]
fn compute_binds_a_new_variable() {
    let steps = vec![
        Step::Bind(vec![1, 2]),
        Step::Compute(Expr::add(Expr::Var(0), Expr::Const(10))),
    ];
    let terminal = Some(vec![Expr::Var(0), Expr::Var(1)]);
    let program = Program::new(steps, terminal).unwrap();
    assert_eq!(
        collect_all(&mut amb(&program)),
        vec![vec![1, 11], vec![2, 12]]
    );
}

#[test]
fn arithmetic_wraps_on_overflow() {
    let steps = vec![Step::Compute(Expr::add(
        Expr::Const(i64::MAX),
        Expr::Const(1),
    ))];
    let terminal = Some(vec![Expr::Var(0)]);
    let program = Program::new(steps, terminal).unwrap();
    assert_eq!(collect_all(&mut amb(&program)), vec![vec![i64::MIN]]);
}

#[test]
fn expression_operators_evaluate_exactly() {
    let terminal = vec![
        Expr::sub(Expr::Const(3), Expr::Const(5)),
        Expr::mul(Expr::Const(6), Expr::Const(7)),
        Expr::equals(Expr::Const(4), Expr::Const(4)),
        Expr::differs(Expr::Const(4), Expr::Const(4)),
        Expr::less_than(Expr::Const(2), Expr::Const(3)),
        Expr::less_than(Expr::Const(3), Expr::Const(3)),
        Expr::at_most(Expr::Const(3), Expr::Const(3)),
        Expr::at_most(Expr::Const(4), Expr::Const(3)),
        Expr::both(Expr::Const(1), Expr::Const(0)),
        Expr::both(Expr::Const(2), Expr::Const(5)),
        Expr::either(Expr::Const(0), Expr::Const(9)),
        Expr::either(Expr::Const(0), Expr::Const(0)),
        Expr::negate(Expr::Const(0)),
        Expr::negate(Expr::Const(7)),
    ];
    let program = Program::new(vec![], Some(terminal)).unwrap();
    assert_eq!(
        collect_all(&mut amb(&program)),
        vec![vec![-2, 42, 1, 0, 1, 0, 1, 0, 0, 1, 1, 0, 1, 0]]
    );
}

#[test]
fn pulls_resume_where_they_left_off() {
    let steps = vec![Step::Bind(vec![4, 5, 6])];
    let terminal = Some(vec![Expr::Var(0)]);
    let program = Program::new(steps, terminal).unwrap();
    let mut e = amb(&program);
    assert_eq!(e.next(), Some(vec![4]));
    assert_eq!(e.next(), Some(vec![5]));
    assert_eq!(e.next(), Some(vec![6]));
    assert_eq!(e.next(), None);
    assert_eq!(e.next(), None);
}

#[test]
fn entered_count_out_of_range_is_zero() {
    let program = Program::new(vec![], None).unwrap();
    let e = amb(&program);
    assert_eq!(e.times_entered(0), 0);
    assert_eq!(e.times_entered(17), 0);
}
