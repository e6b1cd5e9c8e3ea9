use pocket_cube::cube::{next_color, try_next_color, CornerError, Cube, FBFace, Facelet};

fn facelets() -> [Facelet; 6] {
    [
        Facelet::Blue,
        Facelet::Orange,
        Facelet::White,
        Facelet::Green,
        Facelet::Red,
        Facelet::Yellow,
    ]
}

fn assert_period<F: Fn(Cube) -> Cube>(f: F, period: usize, name: &str) {
    let start = Cube::make_solved(Facelet::Green, Facelet::White);

    let mut running = start.clone();
    let mut i = 0;

    running = f(running);
    i += 1;

    while i < period {
        assert_ne!(
            running, start,
            "Should not reach the start state after {:?} iterations of {}",
            i, name
        );
        running = f(running);
        i += 1;
    }

    assert_eq!(
        running, start,
        "Should reach the start state after {:?} iterations of {}",
        period, name
    );
}

#[test]
fn opp_test() {
    assert_eq!(Facelet::Yellow.opposite(), Facelet::White);
    assert_eq!(Facelet::White.opposite(), Facelet::Yellow);
    assert_eq!(Facelet::Green.opposite(), Facelet::Blue);
    assert_eq!(Facelet::Blue.opposite(), Facelet::Green);
    assert_eq!(Facelet::Red.opposite(), Facelet::Orange);
    assert_eq!(Facelet::Orange.opposite(), Facelet::Red);

    for v in facelets() {
        assert_eq!(v.opposite().opposite(), v);
    }
}

#[test]
fn corner_exists_test() {
    for a in facelets() {
        for b in facelets() {
            if a != b && a.opposite() != b {
                // basically just assert we get _something_
                let c = next_color(a.clone(), b.clone());
                assert_ne!(a, c);
                assert_ne!(b, c);
            } else {
                // otherwise, we do want to make sure it fails, there should be nothing there
                assert!(try_next_color(a.clone(), b.clone()).is_err());
            }
        }
    }
}

#[test]
fn solved_cube_exists() {
    for a in facelets() {
        for b in facelets() {
            if a != b && a.opposite() != b {
                // basically just assert we get _something_
                let _ = Cube::make_solved(a.clone(), b.clone());
                assert!(Cube::try_make_solved(a, b).is_ok());
            } else {
                // otherwise, we do want to make sure it fails, there should be nothing there
                assert!(Cube::try_make_solved(a.clone(), b.clone()).is_err());
            }
        }
    }
}

#[test]
fn corner_errors_name_the_reason() {
    assert_eq!(
        try_next_color(Facelet::Red, Facelet::Red),
        Err(CornerError::Equal)
    );
    assert_eq!(
        try_next_color(Facelet::Red, Facelet::Orange),
        Err(CornerError::Opposite)
    );
    assert_eq!(
        Cube::try_make_solved(Facelet::Blue, Facelet::Blue),
        Err(CornerError::Equal)
    );
    assert_eq!(
        Cube::try_make_solved(Facelet::Blue, Facelet::Green),
        Err(CornerError::Opposite)
    );
    assert_eq!(try_next_color(Facelet::Green, Facelet::White), Ok(Facelet::Red));
}

#[test]
fn next_color_reads_clockwise() {
    assert_eq!(next_color(Facelet::Green, Facelet::White), Facelet::Red);
    assert_eq!(next_color(Facelet::White, Facelet::Red), Facelet::Green);
    assert_eq!(next_color(Facelet::Red, Facelet::Green), Facelet::White);
    assert_eq!(next_color(Facelet::White, Facelet::Green), Facelet::Orange);
    assert_eq!(next_color(Facelet::Yellow, Facelet::Orange), Facelet::Green);
}

#[test]
fn facelet_from_letter() {
    assert_eq!(Facelet::try_from('Y'), Ok(Facelet::Yellow));
    assert_eq!(Facelet::try_from('r'), Ok(Facelet::Red));
    assert_eq!(Facelet::try_from('W'), Ok(Facelet::White));
    assert_eq!(Facelet::try_from('o'), Ok(Facelet::Orange));
    assert_eq!(Facelet::try_from('B'), Ok(Facelet::Blue));
    assert_eq!(Facelet::try_from('g'), Ok(Facelet::Green));
    assert_eq!(Facelet::try_from('x'), Err('x'));
}

#[test]
fn solved_cube_has_the_given_colors() {
    let cube = Cube::make_solved(Facelet::Green, Facelet::White);
    assert!(cube.solved());
    assert!(cube.is_wf());
    assert!(cube.f.solved() && cube.f.ul == Facelet::Green);
    assert!(cube.u.solved() && cube.u.bl == Facelet::White);
    assert!(cube.r.solved() && cube.r.ub == Facelet::Red);
    assert!(cube.l.solved() && cube.l.ub == Facelet::Orange);
    assert!(cube.b.solved() && cube.b.ul == Facelet::Blue);
    assert!(cube.d.solved() && cube.d.bl == Facelet::Yellow);
}

#[test]
fn half_turn_twice_and_reverse_turns() {
    let start = Cube::make_solved(Facelet::Green, Facelet::White).right().up().front();
    assert_eq!(start.left_two().left_two(), start);
    assert_eq!(start.right_two().right_two(), start);
    assert_eq!(start.up_two().up_two(), start);
    assert_eq!(start.front_two().front_two(), start);
    assert_eq!(start.down_two().down_two(), start);
    assert_eq!(start.back_two().back_two(), start);
    assert_eq!(start.left().left_rev(), start);
    assert_eq!(start.right().right_rev(), start);
    assert_eq!(start.up().up_rev(), start);
    assert_eq!(start.front().front_rev(), start);
    assert_eq!(start.down().down_rev(), start);
    assert_eq!(start.back().back_rev(), start);
    assert_eq!(start.right_rev(), start.right().right().right());
}

#[test]
fn turns_keep_a_cube_well_formed() {
    let start = Cube::make_solved(Facelet::Red, Facelet::Yellow);
    let moved = start.left().up_rev().back_two().down().front().right_rev();
    assert!(moved.is_wf());
    assert!(moved.has_real_corners());
    assert!(!moved.solved());
}

#[test]
fn a_cube_with_a_cubie_twice_is_not_well_formed() {
    let mut cube = Cube::make_solved(Facelet::Green, Facelet::White);
    // copy the cubie at the front of the upper right into the back of it
    cube.u.br = cube.u.fr;
    cube.b.ur = cube.r.uf;
    cube.r.ub = cube.f.ur;
    assert!(cube.has_real_corners());
    assert!(!cube.is_wf());
    // and a corner that is no cubie at all
    let mut other = Cube::make_solved(Facelet::Green, Facelet::White);
    other.u.br = Facelet::Yellow;
    assert!(!other.has_real_corners());
    assert!(!other.is_wf());
}


#[test]
fn simple_assertions_left() {
    let start = Cube::make_solved(Facelet::Green, Facelet::White);
    let next = start.left();

    let f = next.f;

    assert_eq!(
        f,
        FBFace {
            ul: Facelet::White,
            ur: Facelet::Green,
            dl: Facelet::White,
            dr: Facelet::Green
        }
    );
}

#[test]
fn simple_assertions_right() {
    let start = Cube::make_solved(Facelet::Green, Facelet::White);
    let next = start.right();

    let f = next.f;

    assert_eq!(
        f,
        FBFace {
            ul: Facelet::Green,
            ur: Facelet::Yellow,
            dl: Facelet::Green,
            dr: Facelet::Yellow
        }
    );
}

#[test]
fn simple_assertions_mid() {
    let start = Cube::make_solved(Facelet::Yellow, Facelet::Orange);

    let next = start.clone().back().down().right();

    let f = next.f;

    assert_eq!(
        f,
        FBFace {
            ul: Facelet::Yellow,
            ur: Facelet::Red,
            dl: Facelet::Orange,
            dr: Facelet::Red
        }
    );
}

#[test]
fn simple_assertions_complex() {
    let start = Cube::make_solved(Facelet::Yellow, Facelet::Orange);

    let next = start.clone().back().down().right().front().up().left();

    let f = next.f;

    assert_eq!(
        f,
        FBFace {
            ul: Facelet::White,
            ur: Facelet::Green,
            dl: Facelet::Blue,
            dr: Facelet::Red
        }
    );
}

#[test]
fn simple_rotations() {
    assert_ne!(
        Cube::make_solved(Facelet::Green, Facelet::White),
        Cube::make_solved(Facelet::Green, Facelet::White).left()
    );

    assert_period(|cube| cube.left(), 4, "L");
    assert_period(|cube| cube.left_two(), 2, "L2");
    assert_period(|cube| cube.left_rev(), 4, "L'");

    assert_period(|cube| cube.right(), 4, "R");
    assert_period(|cube| cube.right_two(), 2, "R2");
    assert_period(|cube| cube.right_rev(), 4, "R'");

    assert_period(|cube| cube.up(), 4, "U");
    assert_period(|cube| cube.up_two(), 2, "U2");
    assert_period(|cube| cube.up_rev(), 4, "U'");

    assert_period(|cube| cube.down(), 4, "D");
    assert_period(|cube| cube.down_two(), 2, "D2");
    assert_period(|cube| cube.down_rev(), 4, "D'");

    assert_period(|cube| cube.back(), 4, "B");
    assert_period(|cube| cube.back_two(), 2, "B2");
    assert_period(|cube| cube.back_rev(), 4, "B'");

    assert_period(|cube| cube.front(), 4, "F");
    assert_period(|cube| cube.front_two(), 2, "F2");
    assert_period(|cube| cube.front_rev(), 4, "F'");
}
