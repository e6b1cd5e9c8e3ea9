use pocket_cube::cube::{Cube, Facelet};
use pocket_cube::moves::{Amt, CanMove, Dir, Move};
use pocket_cube::orr_solve::optimal_solve_orientation;
use pocket_cube::pos_solve::optimal_solve_position;

fn do_orr_solve_test(cube: Cube) -> Vec<Move> {
    let arr = cube.clone().make_orr_arr_from_dlb();

    let soln = optimal_solve_orientation(arr.clone());

    assert!(soln.len() < 12);

    if arr.is_solved() {
        assert_eq!(soln, vec![]);
        return soln;
    }

    let mut running = arr.clone();
    let mut running_cube = cube.clone();

    for m in soln.iter().copied() {
        assert!(!running.is_solved());

        running = running.apply(m);
        running_cube = running_cube.apply(m);
    }

    assert!(running.is_solved());

    assert!(running_cube.make_orr_arr_from_dlb().is_solved());

    return soln;
}

fn do_pos_solve_test(cube: Cube) -> Vec<Move> {
    let arr = cube.clone().make_pos_arr_from_dlb();

    let soln = optimal_solve_position(arr.clone());

    assert!(soln.len() < 12);

    if arr.is_solved() {
        assert_eq!(soln, vec![]);
        return soln;
    }

    let mut running = arr.clone();
    let mut running_cube = cube.clone();

    for m in soln.iter().copied() {
        assert!(!running.is_solved());

        running = running.apply(m);
        running_cube = running_cube.apply(m);
    }

    assert!(running.is_solved());

    assert!(running_cube.make_pos_arr_from_dlb().is_solved());

    return soln;
}

fn complex_cube() -> Cube {
    // random bunch of moves, no significance
    Cube::make_solved(Facelet::Red, Facelet::White)
        .right_rev()
        .up_two()
        .front_rev()
        .right_two()
        .front_rev()
        .right_rev()
        .up_two()
        .right()
        .front_rev()
        .up()
        .front()
        .up()
}

#[test]
fn orr_solve_noop_solve() {
    let c = Cube::make_solved(Facelet::Green, Facelet::Yellow);

    let soln = do_orr_solve_test(c);

    assert_eq!(soln, vec![]);
}

#[test]
fn trivial_solve() {
    // note that R2 doesn't change orientation so it starts solved
    let c = Cube::make_solved(Facelet::Green, Facelet::Yellow).right_two();

    let soln = do_orr_solve_test(c);

    assert_eq!(soln, vec![]);
}

#[test]
fn orr_solve_simple_solve() {
    let c = Cube::make_solved(Facelet::Green, Facelet::Yellow).up();

    let soln = do_orr_solve_test(c);

    assert_eq!(
        soln,
        vec![Move {
            dir: Dir::U,
            amt: Amt::One
        }]
    );
}

#[test]
fn one_nontrivial_move() {
    let c = Cube::make_solved(Facelet::Green, Facelet::Yellow)
        .right_two()
        .front_rev();

    let soln = do_orr_solve_test(c);

    // actually more than one optimal solution here, not gonna assert on the exact match
    assert_eq!(soln.len(), 1);
}

#[test]
fn orr_solve_two_move() {
    let c = Cube::make_solved(Facelet::Green, Facelet::Yellow)
        .up()
        .front_rev();

    let soln = do_orr_solve_test(c);

    // actually more than one optimal solution here, not gonna assert on the exact match
    assert_eq!(soln.len(), 2);
}

#[test]
fn orr_solve_complex_move() {
    do_orr_solve_test(complex_cube());
}

#[test]
fn pos_solve_noop_solve() {
    let c = Cube::make_solved(Facelet::Green, Facelet::Yellow);

    let soln = do_pos_solve_test(c);

    assert_eq!(soln, vec![]);
}

#[test]
fn pos_solve_simple_solve() {
    let c = Cube::make_solved(Facelet::Green, Facelet::Yellow).right_two();

    let soln = do_pos_solve_test(c);

    assert_eq!(
        soln,
        vec![Move {
            dir: Dir::R,
            amt: Amt::Two
        }]
    );
}

#[test]
fn pos_solve_two_move() {
    let c = Cube::make_solved(Facelet::Green, Facelet::Yellow)
        .right_two()
        .front_rev();

    let soln = do_pos_solve_test(c);

    // actually more than one optimal solution here, not gonna assert on the exact match
    assert_eq!(soln.len(), 2);
}

#[test]
fn pos_solve_complex_move() {
    do_pos_solve_test(complex_cube());
}

#[test]
fn solve_noop_solve() {
    let c = Cube::make_solved(Facelet::Green, Facelet::Yellow);

    let soln = do_pos_solve_test(c);

    assert_eq!(soln, vec![]);
}

#[test]
fn solve_simple_solve() {
    let c = Cube::make_solved(Facelet::Green, Facelet::Yellow).right_two();

    let soln = do_pos_solve_test(c);

    assert_eq!(
        soln,
        vec![Move {
            dir: Dir::R,
            amt: Amt::Two
        }]
    );
}

#[test]
fn solve_two_move() {
    let c = Cube::make_solved(Facelet::Green, Facelet::Yellow)
        .right_two()
        .front_rev();

    let soln = do_pos_solve_test(c);

    // actually more than one optimal solution here, not gonna assert on the exact match
    assert_eq!(soln.len(), 2);
}

#[test]
fn solve_complex_move() {
    do_pos_solve_test(complex_cube());
}
