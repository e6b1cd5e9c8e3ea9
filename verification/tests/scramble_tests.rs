use pocket_cube::arrangement::{
    CubeletArrangement, CubeletOrientation, CubeletOrientationArrangement,
};
use pocket_cube::cube::{all_cubies, Cube, CubeletPos, Facelet};
use pocket_cube::full_solve::{FullHeuristic, Heuristic, OrrHeuristic};
use pocket_cube::len_bound::{load_orr_heuristic, put_orr, put_pos};
use pocket_cube::scramble::{
    cubie_list, full_scramble, put_cubie, put_dlb, put_dlf, put_drb, put_drf, put_last, put_ulb,
    put_ulf, put_urb, put_urf, scramble_cfl, scramble_cfl_oll, scramble_cll, scramble_ofl,
    scramble_oll,
};

const Y: Facelet = Facelet::Yellow;
const W: Facelet = Facelet::White;

fn check(cube: &Cube) {
    assert!(cube.has_real_corners());
    assert!(cube.is_wf());
    assert!(cube.make_orr_arr_from_dlb().is_solvable());
    assert!(cube.make_pos_arr_from_dlb().is_permutation());
}

fn bottom_upright(cube: &Cube) -> bool {
    cube.d.bl == Y && cube.d.br == Y && cube.d.fl == Y && cube.d.fr == Y
}

fn top_upright(cube: &Cube) -> bool {
    cube.u.bl == W && cube.u.br == W && cube.u.fl == W && cube.u.fr == W
}

fn bottom_solved(cube: &Cube) -> bool {
    let c = scramble_cll();
    cube.d == c.d
        && cube.l.db == c.l.db
        && cube.l.df == c.l.df
        && cube.r.db == c.r.db
        && cube.r.df == c.r.df
        && cube.f.dl == c.f.dl
        && cube.f.dr == c.f.dr
        && cube.b.dl == c.b.dl
        && cube.b.dr == c.b.dr
}

#[test]
fn putting_cubies_in() {
    let rows = all_cubies();
    let mut cube = Cube::make_solved(Facelet::Green, Facelet::Yellow);
    put_dlb(&mut cube, rows[0]);
    assert_eq!((cube.d.bl, cube.b.dl, cube.l.db), (Y, Facelet::Orange, Facelet::Green));
    put_dlf(&mut cube, rows[1]);
    assert_eq!((cube.d.fl, cube.l.df, cube.f.dl), (Y, Facelet::Green, Facelet::Red));
    put_drf(&mut cube, rows[2]);
    assert_eq!((cube.d.fr, cube.f.dr, cube.r.df), (Y, Facelet::Red, Facelet::Blue));
    put_drb(&mut cube, rows[3]);
    assert_eq!((cube.d.br, cube.r.db, cube.b.dr), (Y, Facelet::Blue, Facelet::Orange));
    put_ulb(&mut cube, rows[4]);
    assert_eq!((cube.u.bl, cube.l.ub, cube.b.ul), (W, Facelet::Blue, Facelet::Red));
    put_ulf(&mut cube, rows[5]);
    assert_eq!((cube.u.fl, cube.f.ul, cube.l.uf), (W, Facelet::Red, Facelet::Green));
    put_urf(&mut cube, rows[6]);
    assert_eq!((cube.u.fr, cube.r.uf, cube.f.ur), (W, Facelet::Green, Facelet::Orange));
    put_urb(&mut cube, rows[7]);
    assert_eq!((cube.u.br, cube.b.ur, cube.r.ub), (W, Facelet::Orange, Facelet::Blue));
    assert_eq!(cube, scramble_cll());
}

#[test]
fn putting_a_cubie_in_twisted() {
    let rows = all_cubies();
    for (index, twist, expected) in [
        (6, 0, (W, Facelet::Green, Facelet::Orange)),
        (6, 1, (Facelet::Green, Facelet::Orange, W)),
        (6, 2, (Facelet::Orange, W, Facelet::Green)),
        (6, 3, (W, Facelet::Green, Facelet::Orange)),
        (6, 4, (Facelet::Green, Facelet::Orange, W)),
        (6, -1, (W, Facelet::Green, Facelet::Orange)),
    ] {
        let mut cube = scramble_cll();
        put_cubie(&mut cube, index, rows[6], twist);
        assert_eq!((cube.u.fr, cube.r.uf, cube.f.ur), expected);
    }
    let mut cube = scramble_cll();
    let before = cube;
    put_cubie(&mut cube, 0, rows[0], 0);
    assert_eq!(cube, before);
    for i in 0..8 {
        put_cubie(&mut cube, i, rows[i as usize], 0);
    }
    assert_eq!(cube, before);
    assert_eq!(cubie_list(), rows.to_vec());
}

#[test]
fn the_last_cubie_takes_the_twist_that_fits() {
    let rows = all_cubies();
    let mut cube = scramble_cll();
    put_cubie(&mut cube, 6, rows[6], 1);
    assert!(!cube.make_orr_arr_from_dlb().is_solvable());
    put_last(&mut cube, rows[7]);
    assert!(cube.make_orr_arr_from_dlb().is_solvable());
    assert!(cube.is_wf());
    assert_ne!(cube.u.br, W);
}

#[test]
fn cll_scramble_is_fixed() {
    let cube = scramble_cll();
    check(&cube);
    assert!(bottom_upright(&cube) && top_upright(&cube));
    assert!(bottom_solved(&cube));
    assert!(cube.make_orr_arr_from_dlb().is_solvable());
    assert!(!cube.solved());
    assert_eq!(cube.f.dl, Facelet::Red);
    assert_eq!(cube.l.ub, Facelet::Blue);
}

#[test]
fn ofl_scramble_keeps_the_lower_layer_upright() {
    for _ in 0..50 {
        let cube = scramble_ofl();
        check(&cube);
        assert!(bottom_upright(&cube));
    }
}

#[test]
fn cfl_scramble_keeps_the_lower_layer_solved() {
    for _ in 0..50 {
        let cube = scramble_cfl();
        check(&cube);
        assert!(bottom_solved(&cube));
    }
}

#[test]
fn oll_scramble_keeps_every_cubie_upright() {
    for _ in 0..50 {
        let cube = scramble_oll();
        check(&cube);
        assert!(bottom_upright(&cube) && top_upright(&cube));
    }
}

#[test]
fn cfl_oll_scramble_keeps_both() {
    let mut seen = std::collections::HashSet::new();
    for _ in 0..200 {
        let cube = scramble_cfl_oll();
        check(&cube);
        assert!(bottom_upright(&cube) && top_upright(&cube));
        assert!(bottom_solved(&cube));
        seen.insert(cube);
    }
    // chance picks among the 24 orders of the upper layer
    assert!(seen.len() > 1);
    assert!(seen.len() <= 24);
}

#[test]
fn full_scramble_can_be_solved() {
    let mut seen = std::collections::HashSet::new();
    for _ in 0..50 {
        let cube = full_scramble();
        check(&cube);
        seen.insert(cube);
    }
    assert!(seen.len() > 1);
}

#[test]
fn putting_homes_and_twists() {
    let mut pos = CubeletArrangement::make_solved();
    put_pos(&mut pos, 6, 7);
    assert_eq!(pos.urf, CubeletPos::URB);
    put_pos(&mut pos, 7, 6);
    assert_eq!(pos.urb, CubeletPos::URF);
    put_pos(&mut pos, 0, 0);
    assert_eq!(pos.dlb, CubeletPos::DLB);
    put_pos(&mut pos, 1, 4);
    assert_eq!(pos.dlf, CubeletPos::ULB);
    put_pos(&mut pos, 2, 5);
    assert_eq!(pos.drf, CubeletPos::ULF);
    put_pos(&mut pos, 3, 1);
    assert_eq!(pos.drb, CubeletPos::DLF);
    put_pos(&mut pos, 4, 2);
    assert_eq!(pos.ulb, CubeletPos::DRF);
    put_pos(&mut pos, 5, 3);
    assert_eq!(pos.ulf, CubeletPos::DRB);
    assert!(pos.is_permutation());

    let mut orr = CubeletOrientationArrangement::make_solved();
    put_orr(&mut orr, 5, 1);
    assert_eq!(orr.ulf, CubeletOrientation::CW);
    put_orr(&mut orr, 2, 2);
    assert_eq!(orr.drf, CubeletOrientation::CCW);
    assert!(orr.is_solvable());
    put_orr(&mut orr, 5, 0);
    assert_eq!(orr.ulf, CubeletOrientation::OK);
    assert!(!orr.is_solvable());
}

#[test]
fn every_solvable_orientation_gets_an_estimate() {
    let mut h = OrrHeuristic::default();
    load_orr_heuristic(&mut h);
    assert_eq!(h.cache_size(), 729);
    let runs = h.solver_runs();
    assert!(runs <= 729);
    let mut orr = CubeletOrientationArrangement::make_solved();
    put_orr(&mut orr, 3, 1);
    put_orr(&mut orr, 6, 1);
    put_orr(&mut orr, 7, 1);
    assert!(orr.is_solvable());
    let cost = h.estimate_or_die(CubeletArrangement::make_solved(), orr);
    assert!(cost >= 1);
    assert_eq!(
        h.estimated_remaining_cost(CubeletArrangement::make_solved(), orr),
        cost
    );
    assert_eq!(h.solver_runs(), runs);
    let mut full = FullHeuristic::default();
    load_orr_heuristic(&mut full);
    assert_eq!(full.orr_cache_size(), 729);
}
