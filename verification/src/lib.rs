//! An optimal solver for the pocket cube, the 2x2x2 twisty puzzle.
//!
//! The cube has no centers, so the cubie at the back, left and bottom is
//! taken as the fixed point: the solver turns the right, upper and front
//! faces only. A cube is modelled three ways: by its 24 stickers (`cube`),
//! by where each cubie belongs, and by how each cubie is twisted
//! (`arrangement`). `project` shows that the three go together under the
//! solver's moves.
//!
//! `search` finds shortest solutions by exhaustive search. `full_solve`
//! guides the search of the whole cube by the distances of the two
//! arrangements and cuts it short by a table of known solutions, without
//! losing shortest solutions. `len_bound` solves every cube there is for
//! the largest number of moves that one needs.
//!
//! `moves` and `sequence` hold the moves and what is true of sequences of
//! them, `key` the numbers that tables are keyed by, `setup` the reading
//! of conventional notation, and `scramble` the building of cubes to
//! solve.

pub mod arrangement;
pub mod cube;
pub mod full_solve;
pub mod key;
pub mod len_bound;
pub mod moves;
pub mod orr_solve;
pub mod pos_solve;
pub mod project;
pub mod scramble;
pub mod search;
pub mod sequence;
pub mod setup;
