use pocket_cube::cube::{Cube, Facelet};
use pocket_cube::full_solve::{optimal_solve, HeuristicType};
use pocket_cube::moves::{nice_write, CanFullMove, CanMove};
use pocket_cube::setup::parse_line;

// Exhibits the problem, though I don't know why. This has a solution of length 9.
const PROBLEM_CHILD: &'static str = "F2 R' F' F2 U2 R2 F R U' R U2 R' L";

fn do_test(input: &str, ht: HeuristicType, exp_length: usize) {
    let moves = parse_line(input).unwrap();
    let mut start = Cube::make_solved(Facelet::Green, Facelet::White);

    for m in moves {
        start = start.apply_full(m);
    }

    let start = start;

    let solution = optimal_solve(start.clone(), ht);

    println!(
        "Given scramble \"{}\", got solution \"{}\"",
        input,
        nice_write(&solution)
    );

    let mut running = start;

    for m in &solution {
        running = running.apply(*m);
    }

    assert!(running.solved(), "Solution should result in a solved cube");
    assert_eq!(
        solution.len(),
        exp_length,
        "Solution should have the right length; expected {} but got {}.",
        exp_length,
        solution.len()
    );
}

#[test]
fn test_sample_no_heuristic() {
    do_test(PROBLEM_CHILD, HeuristicType::Unguided, 9);
}

#[test]
fn test_sample_orr_heuristic() {
    do_test(PROBLEM_CHILD, HeuristicType::Orr, 9);
}

#[test]
fn test_sample_pos_heuristic() {
    do_test(PROBLEM_CHILD, HeuristicType::Pos, 9);
}

#[test]
fn test_sample_full_heuristic() {
    do_test(PROBLEM_CHILD, HeuristicType::PosAndOrr, 9);
}

#[test]
fn solves_short_scramble() {
    let moves = parse_line("R U2 F' R'").unwrap();
    let start = Cube::make_solved(Facelet::Green, Facelet::White).apply_many_full(&moves);

    let solution = optimal_solve(start, HeuristicType::Orr);

    assert!(solution.len() <= 4);
    assert!(start.apply_many(&solution).solved());
}

#[test]
fn a_cube_eleven_moves_away() {
    let moves = parse_line("R U R U R F2 R F' R F2 U2").unwrap();
    let start = Cube::make_solved(Facelet::Green, Facelet::White).apply_many_full(&moves);

    let solution = optimal_solve(start, HeuristicType::PosAndOrr);

    assert_eq!(solution.len(), 11);
    assert!(start.apply_many(&solution).solved());
}
