use amb::Expr;
use amb::Program;
use amb::Step;
use amb::amb;

use std::collections::HashMap;
use std::collections::HashSet;

#[derive(Debug, Eq, PartialEq, Hash, Copy, Clone)]
enum Color {
    Red,
    Green,
    Yellow,
    Blue,
}

#[derive(Eq, PartialEq, Debug, Hash, Clone)]
enum Node {
    A,
    B,
    C,
    D,
    E,
    F,
}

#[test]
fn map_coloring() {
    let colors = vec![Color::Red, Color::Yellow, Color::Green, Color::Blue];
    let num_colors = colors.len() as i64;
    let color_choices: Vec<i64> = (0..num_colors).collect();

    let nodes = vec![Node::A, Node::B, Node::C, Node::D, Node::E, Node::F];

    let adjacency_list = HashMap::from([
        (Node::A, vec![Node::B, Node::C, Node::D, Node::F]),
        (Node::B, vec![Node::A, Node::C, Node::D]),
        (Node::C, vec![Node::A, Node::B, Node::D, Node::E]),
        (Node::D, vec![Node::A, Node::B, Node::C, Node::E, Node::F]),
        (Node::E, vec![Node::C, Node::D, Node::F]),
        (Node::F, vec![Node::A, Node::D, Node::E]),
    ]);

    // One bind per node, choosing a color index; one requirement per
    // adjacency, that the two nodes' colors differ.
    let mut steps = Vec::new();
    for _ in 0..nodes.len() {
        steps.push(Step::Bind(color_choices.clone()));
    }
    for (node, neighbours) in adjacency_list.iter() {
        let i = nodes.iter().position(|n| n == node).unwrap();
        for neighbour in neighbours.iter() {
            let j = nodes.iter().position(|n| n == neighbour).unwrap();
            steps.push(Step::Require(Expr::differs(Expr::Var(i), Expr::Var(j))));
        }
    }
    let terminal: Vec<Expr> = (0..nodes.len()).map(Expr::Var).collect();

    let program = Program::new(steps, Some(terminal)).unwrap();
    let mut enumerator = amb(&program);

    let get_color = |a: usize| colors[a];
    let solution: Option<HashMap<Node, Color>> = enumerator.next().map(|assignment| {
        nodes
            .iter()
            .cloned()
            .zip(assignment.iter().map(|&c| get_color(c as usize)))
            .collect()
    });

    // Every adjacent pair must indeed have different colors.
    if let Some(assignment) = &solution {
        for (node, neighbours) in adjacency_list.iter() {
            for neighbour in neighbours.iter() {
                assert_ne!(assignment[node], assignment[neighbour]);
            }
        }
    }

    println!("Solution: {:?}", solution);
}

#[test]
fn eight_queens() {
    // One bind per column, choosing the queen's row; for every pair of
    // columns, the rows must differ and must not lie on a diagonal.
    let mut steps = Vec::new();
    for _ in 0..8 {
        steps.push(Step::Bind((1..=8).collect()));
    }
    for upto_column in 1..8usize {
        for curr_column in 0..upto_column {
            let d = (upto_column - curr_column) as i64;
            steps.push(Step::Require(Expr::differs(
                Expr::Var(curr_column),
                Expr::Var(upto_column),
            )));
            steps.push(Step::Require(Expr::differs(
                Expr::sub(Expr::Var(upto_column), Expr::Var(curr_column)),
                Expr::Const(d),
            )));
            steps.push(Step::Require(Expr::differs(
                Expr::sub(Expr::Var(upto_column), Expr::Var(curr_column)),
                Expr::Const(-d),
            )));
        }
    }
    let terminal: Vec<Expr> = (0..8).map(Expr::Var).collect();

    let program = Program::new(steps, Some(terminal)).unwrap();
    let mut enumerator = amb(&program);

    let solution = enumerator.next();
    render_board(solution.as_deref());
}

// Given row assignments for a queen in each column, render a chess board.
fn render_board(solution_opt: Option<&[i64]>) {
    if solution_opt.is_none() {
        return;
    }

    let solution = solution_opt.unwrap();

    if solution.len() != 8 {
        println!("Error: Solution must have exactly 8 values.");
        return;
    }

    let queen_positions: HashSet<(usize, usize)> = solution
        .iter()
        .enumerate()
        .map(|(col, &row)| (row as usize - 1, col))
        .collect();

    println!("  a b c d e f g h");

    for row_idx in (0..8).rev() {
        let mut line = format!("{} ", row_idx + 1);

        for col_idx in 0..8 {
            let cell = (row_idx, col_idx);
            if queen_positions.contains(&cell) {
                line.push_str("Q ");
            } else {
                line.push_str(". ");
            }
        }
        println!("{}", line);
    }
}
