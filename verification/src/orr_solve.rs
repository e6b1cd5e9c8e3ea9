//! The orientation puzzle alone: bringing every cubie upright, wherever
//! it sits.

use vstd::prelude::*;
use crate::arrangement::CubeletOrientationArrangement;
use crate::moves::Move;
use crate::search::{first_of_shortest, optimal, shortest_solution, solves, MAX_FUEL};
use crate::sequence::reduced;

verus! {

/// Finds a shortest move sequence that brings every cubie upright. The
/// arrangement must have a solution of fewer than `MAX_FUEL` moves.
pub fn optimal_solve_orientation(arr: CubeletOrientationArrangement) -> (solution: Vec<Move>)
    requires
        exists|s: Seq<Move>| s.len() < MAX_FUEL && solves(arr, s),
    ensures
        optimal(arr, solution@),
        reduced(solution@),
        first_of_shortest(arr, solution@),
        solution@.len() < MAX_FUEL,
{
    // it is known that every pocket cube can be solved in 11 moves, so the
    // search below never comes back empty-handed
    match shortest_solution(arr, MAX_FUEL) {
        Some(solution) => solution,
        None => {
            proof {
                let s = choose|s: Seq<Move>| s.len() < MAX_FUEL && solves(arr, s);
                assert(solves(arr, s));
            }
            Vec::new()
        },
    }
}

} // verus!
