use pocket_cube::arrangement::{
    make_orr_from_dlb, make_pos_from_dlb, CubeletArrangement, CubeletOrientation,
    CubeletOrientationArrangement,
};
use pocket_cube::cube::{Cube, CubeletPos, Facelet};
use pocket_cube::moves::{Amt, CanMove, Dir, Move};

fn all_moves() -> Vec<Move> {
    let mut out = Vec::new();
    for dir in [Dir::R, Dir::U, Dir::F] {
        for amt in [Amt::One, Amt::Two, Amt::Rev] {
            out.push(Move { dir, amt });
        }
    }
    out
}

fn sample_sequences() -> Vec<Vec<Move>> {
    let moves = all_moves();
    let mut out = vec![vec![]];
    let mut seed: usize = 12345;
    for len in 1..12 {
        for _ in 0..20 {
            let mut seq = Vec::new();
            for _ in 0..len {
                seed = seed.wrapping_mul(6364136223846793005).wrapping_add(1442695040888963407);
                seq.push(moves[(seed >> 33) % 9]);
            }
            out.push(seq);
        }
    }
    out
}

#[test]
fn slot_from_its_sides() {
    assert_eq!(CubeletPos::from_pos(true, true, true), CubeletPos::URF);
    assert_eq!(CubeletPos::from_pos(true, true, false), CubeletPos::URB);
    assert_eq!(CubeletPos::from_pos(true, false, true), CubeletPos::ULF);
    assert_eq!(CubeletPos::from_pos(true, false, false), CubeletPos::ULB);
    assert_eq!(CubeletPos::from_pos(false, true, true), CubeletPos::DRF);
    assert_eq!(CubeletPos::from_pos(false, true, false), CubeletPos::DRB);
    assert_eq!(CubeletPos::from_pos(false, false, true), CubeletPos::DLF);
    assert_eq!(CubeletPos::from_pos(false, false, false), CubeletPos::DLB);
    for u in [true, false] {
        for r in [true, false] {
            for f in [true, false] {
                let p = CubeletPos::from_pos(u, r, f);
                assert_eq!((p.u(), p.r(), p.f()), (u, r, f));
            }
        }
    }
}

#[test]
fn solved_cube_comes_apart_solved() {
    let cube = Cube::make_solved(Facelet::Green, Facelet::White);
    assert!(cube.make_pos_arr_from_dlb().is_solved());
    assert!(cube.make_orr_arr_from_dlb().is_solved());
    assert_eq!(cube.make_pos_arr_from_dlb(), CubeletArrangement::make_solved());
    assert_eq!(
        cube.make_orr_arr_from_dlb(),
        CubeletOrientationArrangement::make_solved()
    );
}

#[test]
fn home_and_twist_of_one_cubie() {
    let cube = Cube::make_solved(Facelet::Green, Facelet::White);
    let des = cube.make_desired_from_dlb();
    assert_eq!(des.f, Facelet::Green);
    assert_eq!(des.u, Facelet::White);
    assert_eq!(des.r, Facelet::Red);
    assert_eq!(des.l, Facelet::Orange);
    assert_eq!(des.b, Facelet::Blue);
    assert_eq!(des.d, Facelet::Yellow);
    assert_eq!(
        make_pos_from_dlb(&des, Facelet::White, Facelet::Red, Facelet::Green),
        CubeletPos::URF
    );
    assert_eq!(
        make_pos_from_dlb(&des, Facelet::Orange, Facelet::Yellow, Facelet::Blue),
        CubeletPos::DLB
    );
    assert_eq!(
        make_orr_from_dlb(&des, Facelet::Red, Facelet::Green, Facelet::White),
        CubeletOrientation::OK
    );
    assert_eq!(
        make_orr_from_dlb(&des, Facelet::Green, Facelet::Red, Facelet::White),
        CubeletOrientation::CW
    );
    assert_eq!(
        make_orr_from_dlb(&des, Facelet::Green, Facelet::White, Facelet::Red),
        CubeletOrientation::CCW
    );
}

#[test]
fn quarter_turn_of_the_upper_face_twists_four_cubies() {
    let arr = Cube::make_solved(Facelet::Green, Facelet::White)
        .up()
        .make_orr_arr_from_dlb();
    assert_eq!(arr.ulb, CubeletOrientation::CW);
    assert_eq!(arr.urb, CubeletOrientation::CCW);
    assert_eq!(arr.ulf, CubeletOrientation::CCW);
    assert_eq!(arr.urf, CubeletOrientation::CW);
    assert_eq!(arr.dlb, CubeletOrientation::OK);
    assert_eq!(arr.dlf, CubeletOrientation::OK);
    assert_eq!(arr.drb, CubeletOrientation::OK);
    assert_eq!(arr.drf, CubeletOrientation::OK);
    assert_eq!(arr.twist_total(), 6);
    assert!(arr.is_solvable());
    assert_eq!(CubeletOrientation::CW.thirds(), 1);
    assert_eq!(CubeletOrientation::CCW.cw(), CubeletOrientation::OK);
    assert_eq!(CubeletOrientation::OK.ccw(), CubeletOrientation::CCW);
}

#[test]
fn half_turn_of_the_right_face_leaves_every_cubie_upright() {
    let arr = Cube::make_solved(Facelet::Green, Facelet::Yellow)
        .right_two()
        .make_orr_arr_from_dlb();
    assert!(arr.is_solved());
    let pos = Cube::make_solved(Facelet::Green, Facelet::Yellow)
        .right_two()
        .make_pos_arr_from_dlb();
    assert!(!pos.is_solved());
    assert_eq!(pos.urf, CubeletPos::DRB);
    assert_eq!(pos.drb, CubeletPos::URF);
    assert_eq!(pos.urb, CubeletPos::DRF);
    assert_eq!(pos.drf, CubeletPos::URB);
}

#[test]
fn taking_apart_commutes_with_moves() {
    for seq in sample_sequences() {
        let start = Cube::make_solved(Facelet::Green, Facelet::White);
        let cube = start.apply_many(&seq);
        assert!(cube.is_wf());
        assert_eq!(
            cube.make_pos_arr_from_dlb(),
            start.make_pos_arr_from_dlb().apply_many(&seq)
        );
        assert_eq!(
            cube.make_orr_arr_from_dlb(),
            start.make_orr_arr_from_dlb().apply_many(&seq)
        );
    }
}

#[test]
fn twists_add_up_to_whole_turns_after_any_moves() {
    for seq in sample_sequences() {
        let arr = CubeletOrientationArrangement::make_solved().apply_many(&seq);
        assert_eq!(arr.twist_total() % 3, 0);
        assert!(arr.is_solvable());
        let pos = CubeletArrangement::make_solved().apply_many(&seq);
        assert!(pos.is_permutation());
    }
}

#[test]
fn one_twisted_cubie_cannot_be_solved() {
    let mut arr = CubeletOrientationArrangement::make_solved();
    arr.urf = CubeletOrientation::CW;
    assert!(!arr.is_solvable());
    arr.ulf = CubeletOrientation::CCW;
    assert!(arr.is_solvable());
    arr.dlb = CubeletOrientation::CW;
    arr.ulf = CubeletOrientation::CW;
    assert_eq!(arr.twist_total(), 3);
    assert!(!arr.is_solvable());
}

#[test]
fn arrangements_have_period_four() {
    let pos = Cube::make_solved(Facelet::Green, Facelet::White)
        .right()
        .up()
        .make_pos_arr_from_dlb();
    let orr = Cube::make_solved(Facelet::Green, Facelet::White)
        .right()
        .up()
        .make_orr_arr_from_dlb();
    assert_eq!(pos.r().r().r().r(), pos);
    assert_eq!(pos.u().u().u().u(), pos);
    assert_eq!(pos.f().f().f().f(), pos);
    assert_eq!(pos.r_two().r_two(), pos);
    assert_eq!(pos.u_two(), pos.u().u());
    assert_eq!(pos.f_rev().f(), pos);
    assert_eq!(orr.r().r().r().r(), orr);
    assert_eq!(orr.u().u().u().u(), orr);
    assert_eq!(orr.f().f().f().f(), orr);
    assert_eq!(orr.u_two().u_two(), orr);
    assert_eq!(orr.f_two(), orr.f().f());
    assert_eq!(orr.r_two(), orr.r().r());
    assert_eq!(orr.u_rev().u(), orr);
    assert_eq!(orr.r_rev().r(), orr);
    assert_eq!(orr.f().f_rev(), orr);
    assert_ne!(orr.u(), orr);
}
