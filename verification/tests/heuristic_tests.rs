use pocket_cube::arrangement::{CubeletArrangement, CubeletOrientationArrangement};
use pocket_cube::cube::{Cube, Facelet};
use pocket_cube::full_solve::{
    load_with_depth, optimal_solve_heuristic, solve_if_possible, solve_with_heuristic,
    FullHeuristic, Heuristic, HeuristicType, NoHeuristic, OrrHeuristic, PosHeuristic,
    ShortCircuitCache, SimpleShortCircuitCache,
};
use pocket_cube::key::Keyed;
use pocket_cube::moves::{Amt, CanMove, Dir, Move};
use pocket_cube::search::{find_solution, shortest_solution, MAX_FUEL};

fn mv(dir: Dir, amt: Amt) -> Move {
    Move { dir, amt }
}

fn scrambled() -> Cube {
    Cube::make_solved(Facelet::Green, Facelet::White)
        .right()
        .up_two()
        .front_rev()
        .right_rev()
}

#[test]
fn asking_twice_runs_one_search() {
    let cube = scrambled();
    let pos = cube.make_pos_arr_from_dlb();
    let orr = cube.make_orr_arr_from_dlb();

    let mut h = PosHeuristic::default();
    assert_eq!(h.solver_runs(), 0);
    assert_eq!(h.cache_size(), 0);
    let first = h.estimated_remaining_cost(pos, orr);
    assert_eq!(h.solver_runs(), 1);
    let size = h.cache_size();
    assert!(size >= 1);
    let second = h.estimated_remaining_cost(pos, orr);
    assert_eq!(first, second);
    assert_eq!(h.solver_runs(), 1);
    assert_eq!(h.cache_size(), size);
    assert_eq!(h.estimate_or_die(pos, orr), first);

    let mut o = OrrHeuristic::default();
    let first = o.estimated_remaining_cost(pos, orr);
    let second = o.estimated_remaining_cost(pos, orr);
    assert_eq!(first, second);
    assert_eq!(o.solver_runs(), 1);
    assert_eq!(o.estimate_or_die(pos, orr), first);

    let mut f = FullHeuristic::default();
    let first = f.estimated_remaining_cost(pos, orr);
    assert_eq!(f.solver_runs(), 2);
    let second = f.estimated_remaining_cost(pos, orr);
    assert_eq!(first, second);
    assert_eq!(f.solver_runs(), 2);
    assert_eq!(f.estimate_or_die(pos, orr), first);
    assert!(f.pos_cache_size() >= 1);
    assert!(f.orr_cache_size() >= 1);
}

#[test]
fn states_along_the_solution_are_remembered() {
    let cube = scrambled();
    let pos = cube.make_pos_arr_from_dlb();
    let orr = cube.make_orr_arr_from_dlb();
    let mut h = PosHeuristic::default();
    let dist = h.estimated_remaining_cost(pos, orr);
    let solution = shortest_solution(pos, MAX_FUEL).unwrap();
    assert_eq!(solution.len(), dist);
    assert_eq!(h.cache_size(), dist + 1);
    let mut running = pos;
    let mut remaining = dist;
    for m in solution {
        running = running.apply(m);
        remaining -= 1;
        assert_eq!(h.estimate_or_die(running, orr), remaining);
    }
    assert_eq!(h.solver_runs(), 1);
    assert!(running.is_solved());
}

#[test]
fn estimates_never_exceed_the_moves_that_scrambled() {
    let moves = [
        mv(Dir::R, Amt::One),
        mv(Dir::U, Amt::Rev),
        mv(Dir::F, Amt::Two),
        mv(Dir::R, Amt::Rev),
        mv(Dir::U, Amt::Two),
        mv(Dir::F, Amt::One),
    ];
    let mut pos_h = PosHeuristic::default();
    let mut orr_h = OrrHeuristic::default();
    let mut full_h = FullHeuristic::default();
    let mut none_h = NoHeuristic::default();
    let mut cube = Cube::make_solved(Facelet::Green, Facelet::White);
    for (i, m) in moves.iter().enumerate() {
        cube = cube.apply(*m);
        let pos = cube.make_pos_arr_from_dlb();
        let orr = cube.make_orr_arr_from_dlb();
        let p = pos_h.estimated_remaining_cost(pos, orr);
        let o = orr_h.estimated_remaining_cost(pos, orr);
        let f = full_h.estimated_remaining_cost(pos, orr);
        assert!(p <= i + 1);
        assert!(o <= i + 1);
        assert_eq!(f, p.max(o));
        assert_eq!(none_h.estimated_remaining_cost(pos, orr), 0);
        assert_eq!(none_h.estimate_or_die(pos, orr), 0);
        // an independent search for the position puzzle gives the same number
        let mut running = Vec::new();
        let mut fuel = 0;
        while !find_solution(pos, &mut running, fuel) {
            fuel += 1;
        }
        assert_eq!(p, fuel);
        assert_eq!(running.len(), fuel);
    }
}

#[test]
fn solved_arrangements_are_zero_away() {
    let mut h = FullHeuristic::default();
    assert_eq!(
        h.estimated_remaining_cost(
            CubeletArrangement::make_solved(),
            CubeletOrientationArrangement::make_solved()
        ),
        0
    );
}

#[test]
fn keys_tell_states_apart() {
    let start = Cube::make_solved(Facelet::Green, Facelet::White);
    let mut seen = std::collections::HashSet::new();
    let mut pos_seen = std::collections::HashSet::new();
    let mut orr_seen = std::collections::HashSet::new();
    let mut cubes = vec![start];
    for dir in [Dir::R, Dir::U, Dir::F] {
        for amt in [Amt::One, Amt::Two, Amt::Rev] {
            cubes.push(start.apply(mv(dir, amt)));
        }
    }
    for c in &cubes {
        assert!(seen.insert(c.key()));
        pos_seen.insert(c.make_pos_arr_from_dlb().key());
        orr_seen.insert(c.make_orr_arr_from_dlb().key());
    }
    assert_eq!(seen.len(), 10);
    assert_eq!(pos_seen.len(), 10);
    // the right face twists nothing, half turns twist nothing, and a quarter
    // turn twists the same either way
    assert_eq!(orr_seen.len(), 3);
    assert_eq!(CubeletArrangement::make_solved().key(), 0o54671023);
    assert_eq!(CubeletOrientationArrangement::make_solved().key(), 0);
}

#[test]
fn table_of_known_solutions_by_depth() {
    let mut cache = SimpleShortCircuitCache::default();
    assert_eq!(cache.cache_size(), 0);
    assert_eq!(cache.depth(), 0);
    load_with_depth(&mut cache, 0, Facelet::Green, Facelet::White);
    assert_eq!(cache.cache_size(), 1);
    load_with_depth(&mut cache, 1, Facelet::Green, Facelet::White);
    assert_eq!(cache.cache_size(), 10);
    load_with_depth(&mut cache, 2, Facelet::Green, Facelet::White);
    assert_eq!(cache.cache_size(), 64);
    load_with_depth(&mut cache, 3, Facelet::Green, Facelet::White);
    assert_eq!(cache.cache_size(), 385);

    let start = Cube::make_solved(Facelet::Green, Facelet::White);
    assert_eq!(cache.known_solution(&start), Some(&vec![]));
    assert_eq!(
        cache.known_solution(&start.right()),
        Some(&vec![mv(Dir::R, Amt::Rev)])
    );
    let two = start.up_two().front();
    let known = cache.known_solution(&two).unwrap();
    assert_eq!(known.len(), 2);
    assert!(two.apply_many(known).solved());
    // two turns of one face are one turn, so this cube is two moves away
    let merged = start.right().right().up();
    assert_eq!(cache.known_solution(&merged).unwrap().len(), 2);
    let far = start.right().up().front().right().up();
    assert_eq!(cache.known_solution(&far), None);
}

#[test]
fn learning_a_path_stores_its_reverse() {
    let mut cache = SimpleShortCircuitCache::default();
    let start = Cube::make_solved(Facelet::Green, Facelet::White);
    let path = [mv(Dir::R, Amt::One), mv(Dir::U, Amt::Two)];
    let cube = start.apply_many(&path);
    cache.learn_path(cube, &path);
    assert_eq!(
        cache.known_solution(&cube),
        Some(&vec![mv(Dir::U, Amt::Two), mv(Dir::R, Amt::Rev)])
    );
    assert_eq!(cache.cache_size(), 1);
}

#[test]
fn every_estimate_gives_a_shortest_solution() {
    let cube = scrambled().up().front_two();
    let mut cache = SimpleShortCircuitCache::default();
    load_with_depth(&mut cache, 3, Facelet::Green, Facelet::White);
    let empty = SimpleShortCircuitCache::default();

    let a = optimal_solve_heuristic(cube, &mut NoHeuristic::default(), &cache);
    let b = optimal_solve_heuristic(cube, &mut PosHeuristic::default(), &cache);
    let c = optimal_solve_heuristic(cube, &mut OrrHeuristic::default(), &cache);
    let d = optimal_solve_heuristic(cube, &mut FullHeuristic::default(), &cache);
    let e = optimal_solve_heuristic(cube, &mut FullHeuristic::default(), &empty);
    let plain = shortest_solution(cube, MAX_FUEL).unwrap();
    for s in [&a, &b, &c, &d, &e] {
        assert_eq!(s.len(), plain.len());
        assert!(cube.apply_many(s).solved());
    }
    assert_eq!(plain.len(), 6);
}

#[test]
fn solved_cube_needs_no_moves() {
    let cube = Cube::make_solved(Facelet::Red, Facelet::Blue);
    let cache = SimpleShortCircuitCache::default();
    assert_eq!(
        optimal_solve_heuristic(cube, &mut NoHeuristic::default(), &cache),
        vec![]
    );
    assert_eq!(solve_if_possible(cube, HeuristicType::PosAndOrr), Some(vec![]));
}

#[test]
fn a_low_ceiling_finds_nothing() {
    let cube = scrambled();
    let cache = SimpleShortCircuitCache::default();
    assert_eq!(
        solve_with_heuristic(cube, &mut NoHeuristic::default(), 4, &cache),
        None
    );
    assert_eq!(
        solve_with_heuristic(cube, &mut FullHeuristic::default(), 5, &cache).map(|s| s.len()),
        Some(4)
    );
    assert_eq!(shortest_solution(cube, 4), None);
    assert_eq!(shortest_solution(cube, 5).map(|s| s.len()), Some(4));
}

#[test]
fn broken_cubes_are_turned_down() {
    let mut cube = scrambled();
    cube.u.br = Facelet::Yellow;
    assert_eq!(solve_if_possible(cube, HeuristicType::Orr), None);
    // one cubie twisted in place: well-formed, but no turns solve it
    let mut twisted = Cube::make_solved(Facelet::Green, Facelet::White);
    let (a, b, c) = (twisted.u.fr, twisted.r.uf, twisted.f.ur);
    twisted.u.fr = b;
    twisted.r.uf = c;
    twisted.f.ur = a;
    assert!(twisted.is_wf());
    assert!(!twisted.make_orr_arr_from_dlb().is_solvable());
}
