use amb::Expr;
use amb::Program;
use amb::Step;
use amb::amb;
use amb::Enumerator;

fn drain(e: &mut Enumerator) -> Vec<Vec<i64>> {
    let mut out = Vec::new();
    while let Some(v) = e.next() {
        out.push(v);
    }
    out
}

fn one_to_five() -> Vec<i64> {
    vec![1, 2, 3, 4, 5]
}

fn pair_sum_program() -> Program {
    let steps = vec![
        Step::Bind(one_to_five()),
        Step::Bind(one_to_five()),
        Step::Require(Expr::equals(
            Expr::add(Expr::Var(0), Expr::Var(1)),
            Expr::Const(5),
        )),
    ];
    let terminal = Some(vec![Expr::Var(0), Expr::Var(1)]);
    Program::new(steps, terminal).unwrap()
}

#[test]
fn it_works() {
    let program = pair_sum_program();
    assert_eq!(
        drain(&mut amb(&program)),
        vec![vec![1, 4], vec![2, 3], vec![3, 2], vec![4, 1]]
    );
}

#[test]
fn with_explicit_return() {
    // The terminal is handed to the builder explicitly, as the final
    // argument; the produced pairs are the same as with the implicit form.
    let steps = vec![
        Step::Bind(one_to_five()),
        Step::Bind(one_to_five()),
        Step::Require(Expr::equals(
            Expr::add(Expr::Var(0), Expr::Var(1)),
            Expr::Const(5),
        )),
    ];
    let returned = vec![Expr::Var(0), Expr::Var(1)];
    let program = Program::new(steps, Some(returned)).unwrap();
    assert_eq!(
        drain(&mut amb(&program)),
        vec![vec![1, 4], vec![2, 3], vec![3, 2], vec![4, 1]]
    );
}

#[test]
fn nested_amb() {
    let steps = vec![
        Step::Bind(one_to_five()),
        Step::Bind(one_to_five()),
        Step::Bind(one_to_five()),
        Step::Require(Expr::equals(
            Expr::add(Expr::add(Expr::Var(0), Expr::Var(1)), Expr::Var(2)),
            Expr::Const(15),
        )),
    ];
    let terminal = Some(vec![Expr::Var(0), Expr::Var(1), Expr::Var(2)]);
    let program = Program::new(steps, terminal).unwrap();
    assert_eq!(drain(&mut amb(&program)), vec![vec![5, 5, 5]]);
}
