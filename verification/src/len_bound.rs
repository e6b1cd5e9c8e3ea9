//! Working out the optimal-path-bound for the pocket cube (sometimes called
//! "God's number"): the largest number of moves that any cube needs.

use vstd::prelude::*;
use crate::arrangement::{CubeletArrangement, CubeletOrientation, CubeletOrientationArrangement};
use crate::cube::{all_cubies, cubie_row, triple, Cube, CubeletPos, Facelet};
use crate::full_solve::{
    capped_distance, exact, load_with_depth, solve_with_heuristic, FullHeuristic, Heuristic,
    ShortCircuitCache, SimpleShortCircuitCache,
};
use crate::scramble::{put_cubie, slot_at, turned};
use crate::search::MAX_FUEL;

verus! {

impl CubeletOrientationArrangement {
    /// The twist at the slot with the number `i`.
    pub open spec fn at(self, i: int) -> CubeletOrientation {
        if i == 0 {
            self.dlb
        } else if i == 1 {
            self.dlf
        } else if i == 2 {
            self.drf
        } else if i == 3 {
            self.drb
        } else if i == 4 {
            self.ulb
        } else if i == 5 {
            self.ulf
        } else if i == 6 {
            self.urf
        } else {
            self.urb
        }
    }

    /// Whether the two arrangements have the same twists at the slots with
    /// numbers below `k`.
    pub open spec fn same_below(self, other: CubeletOrientationArrangement, k: int) -> bool {
        forall|i: int| 0 <= i < k ==> #[trigger] self.at(i) == other.at(i)
    }
}

impl CubeletArrangement {
    /// The home of the cubie at the slot with the number `i`.
    pub open spec fn at(self, i: int) -> CubeletPos {
        if i == 0 {
            self.dlb
        } else if i == 1 {
            self.dlf
        } else if i == 2 {
            self.drf
        } else if i == 3 {
            self.drb
        } else if i == 4 {
            self.ulb
        } else if i == 5 {
            self.ulf
        } else if i == 6 {
            self.urf
        } else {
            self.urb
        }
    }

    /// Whether the two arrangements have the same cubies at the slots with
    /// numbers below `k`.
    pub open spec fn same_below(self, other: CubeletArrangement, k: int) -> bool {
        forall|i: int| 0 <= i < k ==> #[trigger] self.at(i) == other.at(i)
    }

    /// Whether the slots with numbers from `k` on hold the cubies whose
    /// homes have the numbers in `rest`, each once, in some order.
    pub open spec fn filled_from(self, k: int, rest: Seq<usize>) -> bool
        decreases 8 - k,
    {
        if k >= 8 {
            rest.len() == 0
        } else {
            exists|i: int|
                0 <= i < rest.len() && self.at(k) == slot_at(#[trigger] rest[i] as int)
                    && self.filled_from(k + 1, rest.remove(i))
        }
    }
}

/// The twist with the number `i`: upright, clockwise, counter-clockwise.
pub open spec fn twist_at(i: int) -> CubeletOrientation {
    if i == 0 {
        CubeletOrientation::OK
    } else if i == 1 {
        CubeletOrientation::CW
    } else {
        CubeletOrientation::CCW
    }
}

/// Says that the cubie at the slot with the number `put_pos_ind` belongs in
/// the slot with the number `val_pos_ind`. Both numbers are from 0 to 7.
pub fn put_pos(pos_arr: &mut CubeletArrangement, put_pos_ind: usize, val_pos_ind: usize)
    requires
        put_pos_ind < 8,
        val_pos_ind < 8,
    ensures
        final(pos_arr).at(put_pos_ind as int) == slot_at(val_pos_ind as int),
        forall|i: int|
            0 <= i < 8 && i != put_pos_ind ==> #[trigger] final(pos_arr).at(i) == old(pos_arr).at(
                i,
            ),
{
    let orr = if val_pos_ind == 0 {
        CubeletPos::DLB
    } else if val_pos_ind == 1 {
        CubeletPos::DLF
    } else if val_pos_ind == 2 {
        CubeletPos::DRF
    } else if val_pos_ind == 3 {
        CubeletPos::DRB
    } else if val_pos_ind == 4 {
        CubeletPos::ULB
    } else if val_pos_ind == 5 {
        CubeletPos::ULF
    } else if val_pos_ind == 6 {
        CubeletPos::URF
    } else {
        CubeletPos::URB
    };

    if put_pos_ind == 0 {
        pos_arr.dlb = orr
    } else if put_pos_ind == 1 {
        pos_arr.dlf = orr
    } else if put_pos_ind == 2 {
        pos_arr.drf = orr
    } else if put_pos_ind == 3 {
        pos_arr.drb = orr
    } else if put_pos_ind == 4 {
        pos_arr.ulb = orr
    } else if put_pos_ind == 5 {
        pos_arr.ulf = orr
    } else if put_pos_ind == 6 {
        pos_arr.urf = orr
    } else {
        pos_arr.urb = orr
    }
}

/// Gives the cubie at the slot with the number `pos_index`, from 0 to 7,
/// the twist with the number `orr_ind`, from 0 to 2.
pub fn put_orr(orr_arr: &mut CubeletOrientationArrangement, pos_index: usize, orr_ind: usize)
    requires
        pos_index < 8,
        orr_ind < 3,
    ensures
        final(orr_arr).at(pos_index as int) == twist_at(orr_ind as int),
        forall|i: int|
            0 <= i < 8 && i != pos_index ==> #[trigger] final(orr_arr).at(i) == old(orr_arr).at(i),
{
    let orr = if orr_ind == 0 {
        CubeletOrientation::OK
    } else if orr_ind == 1 {
        CubeletOrientation::CW
    } else {
        CubeletOrientation::CCW
    };

    if pos_index == 0 {
        orr_arr.dlb = orr
    } else if pos_index == 1 {
        orr_arr.dlf = orr
    } else if pos_index == 2 {
        orr_arr.drf = orr
    } else if pos_index == 3 {
        orr_arr.drb = orr
    } else if pos_index == 4 {
        orr_arr.ulb = orr
    } else if pos_index == 5 {
        orr_arr.ulf = orr
    } else if pos_index == 6 {
        orr_arr.urf = orr
    } else {
        orr_arr.urb = orr
    }
}

/// Whether the estimator remembers an estimate for every solvable
/// orientation arrangement that has the twists of `orr` at the slots with
/// numbers below `k`, and whose twist at the slot `k` has a number below
/// `j`.
pub open spec fn orr_loaded<H: Heuristic>(
    h: H,
    pos: CubeletArrangement,
    orr: CubeletOrientationArrangement,
    k: int,
    j: int,
) -> bool {
    forall|target: CubeletOrientationArrangement|
        orr.same_below(target, k) && target.is_solvable() && (exists|t: int|
            0 <= t < j && target.at(k) == twist_at(t)) ==> (#[trigger] h.stored(pos, target))
            is Some
}

/// Whether the second estimator remembers all that the first does.
pub open spec fn keeps<H: Heuristic>(before: H, after: H) -> bool {
    forall|p: CubeletArrangement, o: CubeletOrientationArrangement|
        before.stored(p, o) is Some ==> #[trigger] after.stored(p, o) == before.stored(p, o)
}

/// Visits every orientation arrangement that has the twists of `orr` at
/// the slots with numbers below `next_pos`, and has the estimator work out
/// the solvable ones.
#[verifier::spinoff_prover]
#[verifier::rlimit(50)]
fn walk_orientations<H: Heuristic>(
    orr: &mut CubeletOrientationArrangement,
    pos: &CubeletArrangement,
    next_pos: usize,
    h: &mut H,
)
    requires
        1 <= next_pos <= 7,
        old(h).inv(),
    ensures
        final(h).inv(),
        keeps(*old(h), *final(h)),
        old(orr).same_below(*final(orr), next_pos as int),
        orr_loaded(*final(h), *pos, *old(orr), next_pos as int, 3),
    decreases 7 - next_pos,
{
    let ghost orr0 = *orr;
    let ghost h0 = *h;
    let mut orr_ind: usize = 0;
    while orr_ind < 3
        invariant
            orr_ind <= 3,
            1 <= next_pos <= 7,
            h.inv(),
            keeps(h0, *h),
            orr0.same_below(*orr, next_pos as int),
            orr_loaded(*h, *pos, orr0, next_pos as int, orr_ind as int),
        decreases 3 - orr_ind,
    {
        let ghost before = *h;
        put_orr(orr, next_pos, orr_ind);
        let ghost placed = *orr;
        if next_pos < 7 {
            walk_orientations(orr, pos, next_pos + 1, h);
        } else {
            if orr.is_solvable() {
                h.estimated_remaining_cost(*pos, *orr);
            }
        }
        proof {
            assert(keeps(before, *h));
            assert(keeps(h0, *h)) by {
                assert forall|p: CubeletArrangement, o: CubeletOrientationArrangement|
                    h0.stored(p, o) is Some implies #[trigger] h.stored(p, o) == h0.stored(
                    p,
                    o,
                ) by {
                    assert(before.stored(p, o) == h0.stored(p, o));
                }
            }
            assert(orr0.same_below(*orr, next_pos as int)) by {
                assert forall|i: int| 0 <= i < next_pos implies #[trigger] orr0.at(i) == orr.at(
                    i,
                ) by {
                    assert(placed.at(i) == orr.at(i));
                }
            }
            assert forall|target: CubeletOrientationArrangement|
                orr0.same_below(target, next_pos as int) && target.is_solvable() && (exists|t: int|
                    0 <= t < orr_ind + 1 && target.at(next_pos as int) == twist_at(t)) implies (
            #[trigger] h.stored(*pos, target)) is Some by {
                if exists|t: int| 0 <= t < orr_ind && target.at(next_pos as int) == twist_at(t) {
                    assert(before.stored(*pos, target) is Some);
                } else {
                    assert(target.at(next_pos as int) == twist_at(orr_ind as int));
                    assert(placed.same_below(target, next_pos + 1)) by {
                        assert forall|i: int| 0 <= i < next_pos + 1 implies #[trigger] placed.at(i)
                            == target.at(i) by {
                            if i < next_pos {
                                assert(orr0.at(i) == target.at(i));
                            }
                        }
                    }
                    if next_pos < 7 {
                        assert(exists|t: int| 0 <= t < 3 && target.at(next_pos + 1) == twist_at(t))
                            by {
                            let v = target.at(next_pos + 1);
                            assert(v == twist_at(0) || v == twist_at(1) || v == twist_at(2));
                        }
                    } else {
                        assert(placed == target) by {
                            assert(placed.at(0) == target.at(0));
                            assert(placed.at(1) == target.at(1));
                            assert(placed.at(2) == target.at(2));
                            assert(placed.at(3) == target.at(3));
                            assert(placed.at(4) == target.at(4));
                            assert(placed.at(5) == target.at(5));
                            assert(placed.at(6) == target.at(6));
                            assert(placed.at(7) == target.at(7));
                        }
                    }
                }
            }
        }
        orr_ind += 1;
    }
}

/// Has the estimator work out every solvable orientation arrangement, all
/// 729 of them, so that the search finds their estimates ready.
pub fn load_orr_heuristic<H: Heuristic>(h: &mut H)
    requires
        old(h).inv(),
    ensures
        final(h).inv(),
        keeps(*old(h), *final(h)),
        forall|target: CubeletOrientationArrangement|
            target.is_solvable() ==> (#[trigger] final(h).stored(
                CubeletArrangement::spec_make_solved(),
                target,
            )) is Some,
{
    // pos doesn't matter but method signature demands it
    let pos = CubeletArrangement::make_solved();
    let mut orr = CubeletOrientationArrangement::make_solved();

    // first cube goes in oriented, which is fine by symmetry
    put_orr(&mut orr, 0, 0);
    let ghost start = orr;

    walk_orientations(&mut orr, &pos, 1, h);
    proof {
        assert forall|target: CubeletOrientationArrangement| target.is_solvable() implies (
        #[trigger] h.stored(pos, target)) is Some by {
            assert(start.same_below(target, 1)) by {
                assert forall|i: int| 0 <= i < 1 implies #[trigger] start.at(i) == target.at(
                    i,
                ) by {}
            }
            let v = target.at(1);
            assert(v == twist_at(0) || v == twist_at(1) || v == twist_at(2));
        }
    }
}

/// Whether no number occurs twice in the list.
pub open spec fn once_each(rest: Seq<usize>) -> bool {
    forall|x: int, y: int| 0 <= x < y < rest.len() ==> rest[x] != rest[y]
}

impl CubeletArrangement {
    /// In a permutation, different slots hold the cubies of different
    /// homes.
    pub proof fn lemma_at_differs(self, i: int, j: int)
        requires
            self.distinct(),
            0 <= i < 8,
            0 <= j < 8,
            i != j,
        ensures
            self.at(i) != self.at(j),
    {
    }

    /// If `rest` lists, each once, the numbers of the homes that do not
    /// occur in the slots with numbers below `k` of a permutation, then the
    /// slots from `k` on hold the cubies of `rest`.
    pub proof fn lemma_permutation_filled(self, k: int, rest: Seq<usize>)
        requires
            1 <= k <= 8,
            self.distinct(),
            rest.len() == 8 - k,
            once_each(rest),
            forall|v: usize|
                0 <= v < 8 ==> (#[trigger] rest.contains(v) <==> forall|j: int|
                    0 <= j < k ==> self.at(j) != slot_at(v as int)),
        ensures
            self.filled_from(k, rest),
        decreases 8 - k,
    {
        if k < 8 {
            let v = crate::scramble::slot_number(self.at(k)) as usize;
            assert(slot_at(v as int) == self.at(k));
            assert forall|j: int| 0 <= j < k implies self.at(j) != slot_at(v as int) by {
                self.lemma_at_differs(j, k);
            }
            assert(rest.contains(v));
            let i = choose|i: int| 0 <= i < rest.len() && rest[i] == v;
            let next = rest.remove(i);
            assert(once_each(next)) by {
                assert forall|x: int, y: int| 0 <= x < y < next.len() implies next[x] != next[y] by {
                    let x0 = if x < i {
                        x
                    } else {
                        x + 1
                    };
                    let y0 = if y < i {
                        y
                    } else {
                        y + 1
                    };
                    assert(next[x] == rest[x0] && next[y] == rest[y0]);
                }
            }
            assert forall|w: usize| 0 <= w < 8 implies (#[trigger] next.contains(w) <==> forall|
                j: int,
            |
                0 <= j < k + 1 ==> self.at(j) != slot_at(w as int)) by {
                if next.contains(w) {
                    let x = choose|x: int| 0 <= x < next.len() && next[x] == w;
                    let x0 = if x < i {
                        x
                    } else {
                        x + 1
                    };
                    assert(rest[x0] == w);
                    assert(rest.contains(w));
                    assert(w != v) by {
                        if x0 < i {
                            assert(rest[x0] != rest[i]);
                        } else {
                            assert(rest[i] != rest[x0]);
                        }
                    }
                    assert(slot_at(w as int) != slot_at(v as int));
                }
                if forall|j: int| 0 <= j < k + 1 ==> self.at(j) != slot_at(w as int) {
                    assert(self.at(k) != slot_at(w as int));
                    assert(w != v);
                    assert(rest.contains(w));
                    let x0 = choose|x0: int| 0 <= x0 < rest.len() && rest[x0] == w;
                    let x = if x0 < i {
                        x0
                    } else {
                        x0 - 1
                    };
                    assert(next[x] == w);
                }
            }
            self.lemma_permutation_filled(k + 1, next);
            assert(rest[i] == v);
        }
    }

    /// A permutation that leaves the cubie at the back, left and bottom in
    /// place holds the other seven in the other seven slots.
    pub proof fn lemma_wf_filled(self)
        requires
            self.wf(),
        ensures
            self.filled_from(1, seq![1usize, 2, 3, 4, 5, 6, 7]),
    {
        let rest = seq![1usize, 2, 3, 4, 5, 6, 7];
        assert forall|v: usize| 0 <= v < 8 implies (#[trigger] rest.contains(v) <==> forall|j: int|
            0 <= j < 1 ==> self.at(j) != slot_at(v as int)) by {
            if v != 0 {
                assert(rest[v - 1] == v);
            }
            if forall|j: int| 0 <= j < 1 ==> self.at(j) != slot_at(v as int) {
                assert(self.at(0) != slot_at(v as int));
            }
        }
        self.lemma_permutation_filled(1, rest);
    }
}

/// Whether the estimator remembers an estimate for every position
/// arrangement that has the cubies of `pos` at the slots with numbers below
/// `k`, one of the first `j` cubies of `rest` at the slot `k`, and the
/// others of `rest` beyond.
pub open spec fn pos_loaded<H: Heuristic>(
    h: H,
    orr: CubeletOrientationArrangement,
    pos: CubeletArrangement,
    k: int,
    rest: Seq<usize>,
    j: int,
) -> bool {
    forall|target: CubeletArrangement|
        pos.same_below(target, k) && (exists|i: int|
            0 <= i < j && i < rest.len() && target.at(k) == slot_at(#[trigger] rest[i] as int)
                && target.filled_from(k + 1, rest.remove(i))) ==> (#[trigger] h.stored(
            target,
            orr,
        )) is Some
}

/// Visits every position arrangement that has the cubies of `pos` at the
/// slots with numbers below `next_pos` and those of `remaining_positions`
/// beyond, and has the estimator work each out.
#[verifier::spinoff_prover]
#[verifier::rlimit(50)]
fn walk_positions<H: Heuristic>(
    pos: &mut CubeletArrangement,
    orr: &CubeletOrientationArrangement,
    next_pos: usize,
    h: &mut H,
    remaining_positions: &mut Vec<usize>,
)
    requires
        1 <= next_pos <= 7,
        old(remaining_positions)@.len() == 8 - next_pos,
        forall|i: int|
            0 <= i < old(remaining_positions)@.len() ==> #[trigger] old(remaining_positions)@[i]
                < 8,
        old(h).inv(),
    ensures
        final(h).inv(),
        keeps(*old(h), *final(h)),
        final(remaining_positions)@ == old(remaining_positions)@,
        old(pos).same_below(*final(pos), next_pos as int),
        pos_loaded(
            *final(h),
            *orr,
            *old(pos),
            next_pos as int,
            old(remaining_positions)@,
            old(remaining_positions)@.len() as int,
        ),
    decreases 7 - next_pos,
{
    let ghost pos0 = *pos;
    let ghost h0 = *h;
    let ghost rest = remaining_positions@;
    if next_pos == 7 {
        put_pos(pos, next_pos, remaining_positions[0]);
        h.estimated_remaining_cost(*pos, *orr);
        proof {
            let placed = *pos;
            assert forall|target: CubeletArrangement|
                pos0.same_below(target, 7) && (exists|i: int|
                    0 <= i < 1 && i < rest.len() && target.at(7) == slot_at(
                        #[trigger] rest[i] as int,
                    ) && target.filled_from(8, rest.remove(i))) implies (#[trigger] h.stored(
                target,
                *orr,
            )) is Some by {
                assert(placed == target) by {
                    assert(pos0.at(0) == target.at(0) && placed.at(0) == pos0.at(0));
                    assert(pos0.at(1) == target.at(1) && placed.at(1) == pos0.at(1));
                    assert(pos0.at(2) == target.at(2) && placed.at(2) == pos0.at(2));
                    assert(pos0.at(3) == target.at(3) && placed.at(3) == pos0.at(3));
                    assert(pos0.at(4) == target.at(4) && placed.at(4) == pos0.at(4));
                    assert(pos0.at(5) == target.at(5) && placed.at(5) == pos0.at(5));
                    assert(pos0.at(6) == target.at(6) && placed.at(6) == pos0.at(6));
                    assert(placed.at(7) == slot_at(rest[0] as int));
                    assert(placed.at(7) == target.at(7));
                }
            }
        }
    } else {
        let num_trials = remaining_positions.len();
        let mut j: usize = 0;
        while j < num_trials
            invariant
                j <= num_trials,
                num_trials == rest.len(),
                1 <= next_pos < 7,
                rest.len() == 8 - next_pos,
                remaining_positions@ == rest,
                forall|i: int| 0 <= i < rest.len() ==> #[trigger] rest[i] < 8,
                h.inv(),
                keeps(h0, *h),
                pos0.same_below(*pos, next_pos as int),
                pos_loaded(*h, *orr, pos0, next_pos as int, rest, j as int),
            decreases num_trials - j,
        {
            let ghost before = *h;
            let next_trial = remaining_positions.remove(j);
            put_pos(pos, next_pos, next_trial);
            let ghost placed = *pos;
            walk_positions(pos, orr, next_pos + 1, h, remaining_positions);
            remaining_positions.insert(j, next_trial);
            proof {
                assert(remaining_positions@ =~= rest);
                assert(keeps(h0, *h)) by {
                    assert forall|p: CubeletArrangement, o: CubeletOrientationArrangement|
                        h0.stored(p, o) is Some implies #[trigger] h.stored(p, o) == h0.stored(
                        p,
                        o,
                    ) by {
                        assert(before.stored(p, o) == h0.stored(p, o));
                    }
                }
                assert(pos0.same_below(*pos, next_pos as int)) by {
                    assert forall|i: int| 0 <= i < next_pos implies #[trigger] pos0.at(i)
                        == pos.at(i) by {
                        assert(placed.at(i) == pos.at(i));
                    }
                }
                assert forall|target: CubeletArrangement|
                    pos0.same_below(target, next_pos as int) && (exists|i: int|
                        0 <= i < j + 1 && i < rest.len() && target.at(next_pos as int) == slot_at(
                            #[trigger] rest[i] as int,
                        ) && target.filled_from(next_pos + 1, rest.remove(i))) implies (
                #[trigger] h.stored(target, *orr)) is Some by {
                    let i = choose|i: int|
                        0 <= i < j + 1 && i < rest.len() && target.at(next_pos as int) == slot_at(
                            #[trigger] rest[i] as int,
                        ) && target.filled_from(next_pos + 1, rest.remove(i));
                    if i < j {
                        assert(before.stored(target, *orr) is Some);
                    } else {
                        assert(placed.same_below(target, next_pos + 1)) by {
                            assert forall|x: int| 0 <= x < next_pos + 1 implies #[trigger]
                                placed.at(x) == target.at(x) by {
                                if x < next_pos {
                                    assert(pos0.at(x) == target.at(x));
                                }
                            }
                        }
                        assert(target.filled_from(next_pos + 1, rest.remove(j as int)));
                    }
                }
            }
            j += 1;
        }
    }
}

/// Has the estimator work out every position arrangement that leaves the
/// cubie at the back, left and bottom in place, all 5040 of them, so that
/// the search finds their estimates ready.
pub fn load_pos_heuristic<H: Heuristic>(h: &mut H)
    requires
        old(h).inv(),
    ensures
        final(h).inv(),
        keeps(*old(h), *final(h)),
        forall|target: CubeletArrangement|
            target.wf() ==> (#[trigger] final(h).stored(
                target,
                CubeletOrientationArrangement::spec_make_solved(),
            )) is Some,
{
    let mut pos = CubeletArrangement::make_solved();
    // orr doesn't matter but method signature demands it
    let orr = CubeletOrientationArrangement::make_solved();

    // first cube goes in in the right place, which is fine by symmetry
    let mut remaining: Vec<usize> = Vec::new();
    let mut v: usize = 1;
    while v < 8
        invariant
            1 <= v <= 8,
            remaining@.len() == v - 1,
            forall|i: int| 0 <= i < remaining@.len() ==> #[trigger] remaining@[i] == i + 1,
        decreases 8 - v,
    {
        remaining.push(v);
        v += 1;
    }
    assert(remaining@ =~= seq![1, 2, 3, 4, 5, 6, 7]);

    put_pos(&mut pos, 0, 0);
    let ghost start = pos;

    walk_positions(&mut pos, &orr, 1, h, &mut remaining);
    proof {
        let rest = seq![1usize, 2, 3, 4, 5, 6, 7];
        assert forall|target: CubeletArrangement| target.wf() implies (#[trigger] h.stored(
            target,
            orr,
        )) is Some by {
            target.lemma_wf_filled();
            assert(start.same_below(target, 1)) by {
                assert forall|i: int| 0 <= i < 1 implies #[trigger] start.at(i) == target.at(
                    i,
                ) by {}
            }
        }
    }
}

/// The three stickers of each cubie of a list.
pub open spec fn rows(cubies: Seq<[Facelet; 3]>) -> Seq<(Facelet, Facelet, Facelet)> {
    Seq::new(cubies.len(), |i: int| triple(cubies[i]))
}

impl Cube {
    /// Whether the two cubes have the same cubies, twisted the same way, at
    /// the slots with numbers below `k`.
    pub open spec fn same_below(self, other: Cube, k: int) -> bool {
        forall|i: int| 0 <= i < k ==> #[trigger] self.ud_corner(slot_at(i)) == other.ud_corner(
            slot_at(i),
        )
    }

    /// Whether the slots with numbers from `k` on hold the cubies of
    /// `rest`, each once, in some order and each twisted in some way.
    pub open spec fn built_from(self, k: int, rest: Seq<(Facelet, Facelet, Facelet)>) -> bool
        decreases 8 - k,
    {
        if k >= 8 {
            rest.len() == 0
        } else {
            exists|i: int, t: int|
                0 <= i < rest.len() && 0 <= t < 3 && self.ud_corner(slot_at(k)) == #[trigger] turned(
                    rest[i],
                    t,
                ) && self.built_from(k + 1, rest.remove(i))
        }
    }

    /// Whether the cube is one that the search for the bound has to solve:
    /// well-formed, and with twists that add up to whole turns.
    pub open spec fn counts(self) -> bool {
        self.wf() && self.spec_orr_arr().is_solvable()
    }
}

/// The cubies at the given indices of the table of all cubies.
pub open spec fn rows_at(ids: Seq<int>) -> Seq<(Facelet, Facelet, Facelet)> {
    Seq::new(ids.len(), |x: int| cubie_row(ids[x]))
}

impl Cube {
    /// Every slot of a cube with real cubies holds a cubie of the table.
    pub proof fn lemma_slot_row(self, k: int)
        requires
            0 <= k < 8,
            self.corners_ok(),
        ensures
            exists|id: int| 0 <= id < 8 && #[trigger] self.holds_row(k, id),
    {
        let c = self.corner(slot_at(k));
        let ud = self.ud_corner(slot_at(k));
        assert(self.corner_ok(slot_at(k)));
        self.lemma_readings(k);
        crate::cube::lemma_corner_facts(c.0, c.1, c.2);
        crate::cube::lemma_table(ud.0, ud.1, ud.2);
        let id = choose|id: int|
            0 <= id < 8 && crate::cube::turns_to(#[trigger] cubie_row(id), ud.0, ud.1, ud.2);
        assert(self.holds_row(k, id));
    }

    /// In a well-formed cube, two slots never hold one cubie of the table,
    /// and no slot holds two.
    pub proof fn lemma_one_row_each(self, j: int, k: int, id: int, other: int)
        requires
            self.wf(),
            0 <= j < 8,
            0 <= k < 8,
            0 <= id < 8,
            0 <= other < 8,
            self.holds_row(j, id),
            self.holds_row(k, other),
        ensures
            (j == k) == (id == other),
    {
        self.lemma_readings(j);
        self.lemma_readings(k);
        if j == k {
            crate::scramble::lemma_rows_differ(
                id,
                other,
                self.ud_corner(slot_at(j)),
                self.ud_corner(slot_at(j)),
            );
        } else if id == other {
            assert(slot_at(j) != slot_at(k));
            assert(self.corners_differ(slot_at(j), slot_at(k)));
        }
    }

    /// If `ids` lists, each once, the cubies of the table that do not sit
    /// in the slots with numbers below `k` of a well-formed cube, then the
    /// slots from `k` on are built from them.
    #[verifier::spinoff_prover]
    #[verifier::rlimit(50)]
    pub proof fn lemma_wf_built(self, k: int, ids: Seq<int>)
        requires
            1 <= k <= 8,
            self.wf(),
            ids.len() == 8 - k,
            crate::scramble::distinct_ids(ids),
            forall|x: int| 0 <= x < ids.len() ==> 0 <= #[trigger] ids[x] < 8,
            forall|id: int|
                0 <= id < 8 ==> (#[trigger] ids.contains(id) <==> forall|j: int|
                    0 <= j < k ==> !self.holds_row(j, id)),
        ensures
            self.built_from(k, rows_at(ids)),
        decreases 8 - k,
    {
        let rest = rows_at(ids);
        if k < 8 {
            self.lemma_slot_row(k);
            let id = choose|id: int| 0 <= id < 8 && #[trigger] self.holds_row(k, id);
            assert forall|j: int| 0 <= j < k implies !self.holds_row(j, id) by {
                if self.holds_row(j, id) {
                    self.lemma_one_row_each(j, k, id, id);
                }
            }
            assert(ids.contains(id));
            let i = choose|i: int| 0 <= i < ids.len() && ids[i] == id;
            let next = ids.remove(i);
            assert(crate::scramble::distinct_ids(next)) by {
                assert forall|x: int, y: int| 0 <= x < y < next.len() implies next[x] != next[y] by {
                    let x0 = if x < i {
                        x
                    } else {
                        x + 1
                    };
                    let y0 = if y < i {
                        y
                    } else {
                        y + 1
                    };
                    assert(next[x] == ids[x0] && next[y] == ids[y0]);
                }
            }
            assert forall|x: int| 0 <= x < next.len() implies 0 <= #[trigger] next[x] < 8 by {
                let x0 = if x < i {
                    x
                } else {
                    x + 1
                };
                assert(next[x] == ids[x0]);
            }
            assert forall|w: int| 0 <= w < 8 implies (#[trigger] next.contains(w) <==> forall|
                j: int,
            |
                0 <= j < k + 1 ==> !self.holds_row(j, w)) by {
                if next.contains(w) {
                    let x = choose|x: int| 0 <= x < next.len() && next[x] == w;
                    let x0 = if x < i {
                        x
                    } else {
                        x + 1
                    };
                    assert(ids[x0] == w);
                    assert(ids.contains(w));
                    assert(w != id) by {
                        if x0 < i {
                            assert(ids[x0] != ids[i]);
                        } else {
                            assert(ids[i] != ids[x0]);
                        }
                    }
                    if self.holds_row(k, w) {
                        self.lemma_one_row_each(k, k, w, id);
                    }
                }
                if forall|j: int| 0 <= j < k + 1 ==> !self.holds_row(j, w) {
                    assert(!self.holds_row(k, w));
                    assert(w != id);
                    assert(ids.contains(w));
                    let x0 = choose|x0: int| 0 <= x0 < ids.len() && ids[x0] == w;
                    let x = if x0 < i {
                        x0
                    } else {
                        x0 - 1
                    };
                    assert(next[x] == w);
                }
            }
            self.lemma_wf_built(k + 1, next);
            assert(rows_at(next) =~= rest.remove(i));
            let ud = self.ud_corner(slot_at(k));
            let row = cubie_row(id);
            assert(rest[i] == row);
            let t = if ud == row {
                0int
            } else if ud == (row.1, row.2, row.0) {
                1int
            } else {
                2int
            };
            assert(ud == turned(rest[i], t));
        }
    }

    /// A well-formed cube with the first cubie of the table upright at the
    /// back, left and bottom is built from the other seven.
    pub proof fn lemma_wf_built_from(self)
        requires
            self.wf(),
            self.ud_corner(CubeletPos::DLB) == cubie_row(0),
        ensures
            self.built_from(1, rows_from(1)),
    {
        let ids = Seq::new(7, |x: int| x + 1);
        assert(self.holds_row(0, 0));
        assert forall|id: int| 0 <= id < 8 implies (#[trigger] ids.contains(id) <==> forall|j: int|
            0 <= j < 1 ==> !self.holds_row(j, id)) by {
            if id != 0 {
                assert(ids[id - 1] == id);
                if self.holds_row(0, id) {
                    self.lemma_one_row_each(0, 0, id, 0);
                }
            }
            if forall|j: int| 0 <= j < 1 ==> !self.holds_row(j, id) {
                assert(!self.holds_row(0, id));
            }
        }
        self.lemma_wf_built(1, ids);
        assert(rows_at(ids) =~= rows_from(1));
    }
}

/// Whether the cube can be solved in at most `bound` moves, or `bound` is
/// `MAX_FUEL` at least.
pub open spec fn within(cube: Cube, bound: nat) -> bool {
    exists|v: nat| v <= bound && #[trigger] capped_distance(cube, v)
}

/// Whether slot `k` of the cube holds one of the first `j` cubies of
/// `rest`, or the cubie at index `j` twisted by less than `t`, and the
/// others of `rest` lie beyond.
pub open spec fn tried_cubie(
    target: Cube,
    k: int,
    rest: Seq<(Facelet, Facelet, Facelet)>,
    j: int,
    t: int,
) -> bool {
    exists|i: int, x: int|
        0 <= i < rest.len() && 0 <= x < 3 && (i < j || (i == j && x < t)) && target.ud_corner(
            slot_at(k),
        ) == #[trigger] turned(rest[i], x) && target.built_from(k + 1, rest.remove(i))
}

/// Whether `worst` is the largest number of moves that a cube needs that
/// counts and fills the slots from `k` on with the cubies of `rest`.
pub open spec fn worst_of(
    cube: Cube,
    k: int,
    rest: Seq<(Facelet, Facelet, Facelet)>,
    worst: nat,
) -> bool {
    &&& worst <= MAX_FUEL
    &&& forall|target: Cube|
        cube.same_below(target, k) && #[trigger] target.built_from(k, rest) && target.counts()
            ==> within(target, worst)
    &&& worst > 0 ==> exists|target: Cube|
        cube.same_below(target, k) && #[trigger] target.built_from(k, rest) && target.counts()
            && capped_distance(target, worst)
}

/// Whether `worst` is the largest number of moves that a cube needs that
/// counts and has been tried.
pub open spec fn worst_so_far(
    cube: Cube,
    k: int,
    rest: Seq<(Facelet, Facelet, Facelet)>,
    j: int,
    t: int,
    worst: nat,
) -> bool {
    &&& worst <= MAX_FUEL
    &&& forall|target: Cube|
        cube.same_below(target, k) && #[trigger] tried_cubie(target, k, rest, j, t)
            && target.counts() ==> within(target, worst)
    &&& worst > 0 ==> exists|target: Cube|
        cube.same_below(target, k) && #[trigger] tried_cubie(target, k, rest, j, t)
            && target.counts() && capped_distance(target, worst)
}

/// A cube that needs no more than `a` moves needs no more than `b`, where
/// `a` is at most `b`.
pub proof fn lemma_within_more(cube: Cube, a: nat, b: nat)
    requires
        within(cube, a),
        a <= b,
    ensures
        within(cube, b),
{
    let v = choose|v: nat| v <= a && #[trigger] capped_distance(cube, v);
    assert(v <= b && capped_distance(cube, v));
}

/// The larger of two numbers.
pub open spec fn larger(a: nat, b: nat) -> nat {
    if a >= b {
        a
    } else {
        b
    }
}

/// Once the cubes with one more cubie in one more twist at slot `k` have
/// been solved, the worst so far is the larger of what it was and what they
/// need.
#[verifier::spinoff_prover]
#[verifier::rlimit(50)]
pub proof fn lemma_step_worst(
    cube0: Cube,
    placed: Cube,
    k: int,
    rest: Seq<(Facelet, Facelet, Facelet)>,
    j: int,
    t: int,
    running_max: nat,
    len: nat,
)
    requires
        0 <= k < 8,
        0 <= j < rest.len(),
        0 <= t < 3,
        cube0.same_below(placed, k),
        placed.ud_corner(slot_at(k)) == turned(rest[j], t),
        worst_so_far(cube0, k, rest, j, t, running_max),
        worst_of(placed, k + 1, rest.remove(j), len),
    ensures
        worst_so_far(cube0, k, rest, j, t + 1, larger(running_max, len)),
{
    let best = larger(running_max, len);
    assert forall|target: Cube|
        cube0.same_below(target, k) && #[trigger] tried_cubie(target, k, rest, j, t + 1)
            && target.counts() implies within(target, best) by {
        let (i, x) = choose|i: int, x: int|
            0 <= i < rest.len() && 0 <= x < 3 && (i < j || (i == j && x < t + 1))
                && target.ud_corner(slot_at(k)) == #[trigger] turned(rest[i], x)
                && target.built_from(k + 1, rest.remove(i));
        if i < j || (i == j && x < t) {
            assert(tried_cubie(target, k, rest, j, t));
            lemma_within_more(target, running_max, best);
        } else {
            assert(placed.same_below(target, k + 1)) by {
                assert forall|y: int| 0 <= y < k + 1 implies #[trigger] placed.ud_corner(slot_at(y))
                    == target.ud_corner(slot_at(y)) by {
                    if y < k {
                        assert(cube0.ud_corner(slot_at(y)) == placed.ud_corner(slot_at(y)));
                        assert(cube0.ud_corner(slot_at(y)) == target.ud_corner(slot_at(y)));
                    }
                }
            }
            assert(target.built_from(k + 1, rest.remove(j)));
            lemma_within_more(target, len, best);
        }
    }
    if best > 0 {
        if best == running_max {
            let target = choose|target: Cube|
                cube0.same_below(target, k) && #[trigger] tried_cubie(target, k, rest, j, t)
                    && target.counts() && capped_distance(target, running_max);
            let (i, x) = choose|i: int, x: int|
                0 <= i < rest.len() && 0 <= x < 3 && (i < j || (i == j && x < t))
                    && target.ud_corner(slot_at(k)) == #[trigger] turned(rest[i], x)
                    && target.built_from(k + 1, rest.remove(i));
            assert(turned(rest[i], x) == target.ud_corner(slot_at(k)));
            assert(tried_cubie(target, k, rest, j, t + 1));
        } else {
            let target = choose|target: Cube|
                placed.same_below(target, k + 1) && #[trigger] target.built_from(
                    k + 1,
                    rest.remove(j),
                ) && target.counts() && capped_distance(target, len);
            assert(cube0.same_below(target, k)) by {
                assert forall|y: int| 0 <= y < k implies #[trigger] cube0.ud_corner(slot_at(y))
                    == target.ud_corner(slot_at(y)) by {
                    assert(cube0.ud_corner(slot_at(y)) == placed.ud_corner(slot_at(y)));
                    assert(placed.ud_corner(slot_at(y)) == target.ud_corner(slot_at(y)));
                }
            }
            assert(placed.ud_corner(slot_at(k)) == target.ud_corner(slot_at(k)));
            assert(turned(rest[j], t) == target.ud_corner(slot_at(k)));
            assert(tried_cubie(target, k, rest, j, t + 1));
        }
    }
}

/// Once a cubie has been tried in every twist, the next is due.
#[verifier::spinoff_prover]
#[verifier::rlimit(50)]
pub proof fn lemma_next_cubie(
    cube0: Cube,
    k: int,
    rest: Seq<(Facelet, Facelet, Facelet)>,
    j: int,
    worst: nat,
)
    requires
        worst_so_far(cube0, k, rest, j, 3, worst),
    ensures
        worst_so_far(cube0, k, rest, j + 1, 0, worst),
{
    assert forall|target: Cube|
        cube0.same_below(target, k) && #[trigger] tried_cubie(target, k, rest, j + 1, 0)
            && target.counts() implies within(target, worst) by {
        let (i, x) = choose|i: int, x: int|
            0 <= i < rest.len() && 0 <= x < 3 && (i < j + 1 || (i == j + 1 && x < 0))
                && target.ud_corner(slot_at(k)) == #[trigger] turned(rest[i], x)
                && target.built_from(k + 1, rest.remove(i));
        assert(turned(rest[i], x) == target.ud_corner(slot_at(k)));
        assert(tried_cubie(target, k, rest, j, 3));
    }
    if worst > 0 {
        let target = choose|target: Cube|
            cube0.same_below(target, k) && #[trigger] tried_cubie(target, k, rest, j, 3)
                && target.counts() && capped_distance(target, worst);
        let (i, x) = choose|i: int, x: int|
            0 <= i < rest.len() && 0 <= x < 3 && (i < j || (i == j && x < 3)) && target.ud_corner(
                slot_at(k),
            ) == #[trigger] turned(rest[i], x) && target.built_from(k + 1, rest.remove(i));
        assert(turned(rest[i], x) == target.ud_corner(slot_at(k)));
        assert(tried_cubie(target, k, rest, j + 1, 0));
    }
}

/// Before anything has been tried, the worst is nothing; once every cubie
/// has been tried, the worst so far is the worst.
#[verifier::spinoff_prover]
#[verifier::rlimit(50)]
pub proof fn lemma_all_tried(
    cube0: Cube,
    k: int,
    rest: Seq<(Facelet, Facelet, Facelet)>,
    worst: nat,
)
    requires
        0 <= k < 8,
    ensures
        worst_so_far(cube0, k, rest, 0, 0, 0),
        worst_so_far(cube0, k, rest, rest.len() as int, 0, worst) ==> worst_of(
            cube0,
            k,
            rest,
            worst,
        ),
{
    assert forall|target: Cube|
        cube0.same_below(target, k) && #[trigger] tried_cubie(target, k, rest, 0, 0)
            && target.counts() implies within(target, 0) by {
        let (i, x) = choose|i: int, x: int|
            0 <= i < rest.len() && 0 <= x < 3 && (i < 0 || (i == 0 && x < 0)) && target.ud_corner(
                slot_at(k),
            ) == #[trigger] turned(rest[i], x) && target.built_from(k + 1, rest.remove(i));
    }
    if worst_so_far(cube0, k, rest, rest.len() as int, 0, worst) {
        assert forall|target: Cube|
            cube0.same_below(target, k) && #[trigger] target.built_from(k, rest)
                && target.counts() implies within(target, worst) by {
            let (i, x) = choose|i: int, x: int|
                0 <= i < rest.len() && 0 <= x < 3 && target.ud_corner(slot_at(k))
                    == #[trigger] turned(rest[i], x) && target.built_from(k + 1, rest.remove(i));
            assert(turned(rest[i], x) == target.ud_corner(slot_at(k)));
            assert(tried_cubie(target, k, rest, rest.len() as int, 0));
        }
        if worst > 0 {
            let target = choose|target: Cube|
                cube0.same_below(target, k) && #[trigger] tried_cubie(
                    target,
                    k,
                    rest,
                    rest.len() as int,
                    0,
                ) && target.counts() && capped_distance(target, worst);
            let (i, x) = choose|i: int, x: int|
                0 <= i < rest.len() && 0 <= x < 3 && (i < rest.len() || (i == rest.len() && x < 0))
                    && target.ud_corner(slot_at(k)) == #[trigger] turned(rest[i], x)
                    && target.built_from(k + 1, rest.remove(i));
            assert(turned(rest[i], x) == target.ud_corner(slot_at(k)));
            assert(target.built_from(k, rest));
        }
    }
}

/// What a cube with all eight slots filled needs is the worst of all that
/// agree with it.
#[verifier::spinoff_prover]
#[verifier::rlimit(50)]
pub proof fn lemma_leaf_worst(placed: Cube, len: nat)
    requires
        len <= MAX_FUEL,
        placed.counts() ==> capped_distance(placed, len),
        !placed.counts() ==> len == 0,
    ensures
        worst_of(placed, 8, Seq::empty(), len),
{
    let none = Seq::<(Facelet, Facelet, Facelet)>::empty();
    assert forall|target: Cube|
        placed.same_below(target, 8) && #[trigger] target.built_from(8, none)
            && target.counts() implies within(target, len) by {
        placed.lemma_corners_make_cube(target);
    }
    if len > 0 {
        assert(placed.same_below(placed, 8));
        assert(placed.built_from(8, none));
    }
}

/// Tries every way to fill the slots that are still open with the cubies
/// that remain, each twisted each way, solves every cube that counts, and
/// returns the largest number of moves that one of them needs; `MAX_FUEL`
/// stands for all that is not below it. The slots are filled in the order
/// of their numbers, so the open ones are the last.
#[verifier::spinoff_prover]
#[verifier::rlimit(50)]
fn walk_cubes<H: Heuristic, S: ShortCircuitCache>(
    cube: &mut Cube,
    remaining_cubelets: &mut Vec<[Facelet; 3]>,
    h: &mut H,
    s: &S,
) -> (worst: usize)
    requires
        1 <= old(remaining_cubelets)@.len() <= 7,
        old(h).inv(),
        s.inv(),
        exact(*s),
    ensures
        final(h).inv(),
        final(remaining_cubelets)@ == old(remaining_cubelets)@,
        old(cube).same_below(*final(cube), 8 - old(remaining_cubelets)@.len()),
        worst_of(
            *old(cube),
            8 - old(remaining_cubelets)@.len(),
            rows(old(remaining_cubelets)@),
            worst as nat,
        ),
    decreases old(remaining_cubelets)@.len(),
{
    let ghost cube0 = *cube;
    let ghost given = remaining_cubelets@;
    let ghost rest = rows(given);
    let num_trials = remaining_cubelets.len();
    let next_pos = 8 - num_trials;
    let ghost k = next_pos as int;

    let mut running_max: usize = 0;
    proof {
        lemma_all_tried(cube0, k, rest, 0);
        assert(cube0.same_below(*cube, k));
    }

    let mut j: usize = 0;
    while j < num_trials
        invariant
            j <= num_trials,
            1 <= num_trials <= 7,
            num_trials == given.len(),
            given == old(remaining_cubelets)@,
            next_pos == 8 - num_trials,
            k == next_pos,
            remaining_cubelets@ == given,
            rest == rows(given),
            h.inv(),
            s.inv(),
            exact(*s),
            cube0.same_below(*cube, k),
            worst_so_far(cube0, k, rest, j as int, 0, running_max as nat),
        decreases num_trials - j,
    {
        let next_cubelet = remaining_cubelets.remove(j);
        proof {
            assert(rows(remaining_cubelets@) =~= rest.remove(j as int));
            assert(triple(next_cubelet) == rest[j as int]);
        }

        let mut orr: usize = 0;
        while orr < 3
            invariant
                orr <= 3,
                j < num_trials,
                1 <= num_trials <= 7,
                num_trials == given.len(),
                given == old(remaining_cubelets)@,
                next_pos == 8 - num_trials,
                k == next_pos,
                remaining_cubelets@ == given.remove(j as int),
                rows(remaining_cubelets@) == rest.remove(j as int),
                triple(next_cubelet) == rest[j as int],
                rest == rows(given),
                h.inv(),
                s.inv(),
                exact(*s),
                cube0.same_below(*cube, k),
                worst_so_far(cube0, k, rest, j as int, orr as int, running_max as nat),
            decreases 3 - orr,
        {
            let ghost before = *cube;
            put_cubie(cube, next_pos as i32, next_cubelet, orr as i32);
            let ghost placed = *cube;
            let ghost piece = turned(rest[j as int], orr as int);
            proof {
                before.lemma_put(slot_at(k), piece);
                assert(cube0.same_below(placed, k)) by {
                    assert forall|i: int| 0 <= i < k implies #[trigger] cube0.ud_corner(slot_at(i))
                        == placed.ud_corner(slot_at(i)) by {
                        assert(before.ud_corner(slot_at(i)) == cube0.ud_corner(slot_at(i)));
                    }
                }
            }
            let len = if next_pos == 7 {
                let counts = cube.is_wf() && cube.make_orr_arr_from_dlb().is_solvable();
                let len = if counts {
                    let found = solve_with_heuristic(*cube, h, MAX_FUEL, s);
                    match found {
                        Some(solution) => {
                            proof {
                                assert(crate::search::solves(placed, solution@));
                                assert(capped_distance(placed, solution@.len()));
                            }
                            solution.len()
                        },
                        None => MAX_FUEL,
                    }
                } else {
                    0
                };
                proof {
                    lemma_leaf_worst(placed, len as nat);
                    assert(rest.remove(j as int) =~= Seq::empty());
                }
                len
            } else {
                assert(remaining_cubelets@.len() == num_trials - 1);
                walk_cubes(cube, remaining_cubelets, h, s)
            };
            proof {
                assert(cube0.same_below(*cube, k)) by {
                    assert forall|i: int| 0 <= i < k implies #[trigger] cube0.ud_corner(slot_at(i))
                        == cube.ud_corner(slot_at(i)) by {
                        assert(placed.ud_corner(slot_at(i)) == cube0.ud_corner(slot_at(i)));
                        assert(placed.ud_corner(slot_at(i)) == cube.ud_corner(slot_at(i)));
                    }
                }
                lemma_step_worst(
                    cube0,
                    placed,
                    k,
                    rest,
                    j as int,
                    orr as int,
                    running_max as nat,
                    len as nat,
                );
            }
            if len > running_max {
                running_max = len;
            }
            orr += 1;
        }

        remaining_cubelets.insert(j, next_cubelet);
        proof {
            assert(remaining_cubelets@ =~= given);
            lemma_next_cubie(cube0, k, rest, j as int, running_max as nat);
        }
        j += 1;
    }
    proof {
        lemma_all_tried(cube0, k, rest, running_max as nat);
    }

    running_max
}

/// The cubies of the table of all cubies from the one at index `from` on.
pub open spec fn rows_from(from: int) -> Seq<(Facelet, Facelet, Facelet)> {
    Seq::new((8 - from) as nat, |i: int| cubie_row(from + i))
}

/// Solves every cube that counts and returns the largest number of moves
/// that one of them needs, with `MAX_FUEL` standing for all that is not
/// below it. By symmetry the first cubie of the table sits at the back,
/// left and bottom, its yellow sticker down; the other seven are tried in
/// every slot and every twist.
#[verifier::spinoff_prover]
#[verifier::rlimit(50)]
pub fn try_combinations<H: Heuristic, S: ShortCircuitCache>(h: &mut H, s: &S) -> (worst: usize)
    requires
        old(h).inv(),
        s.inv(),
        exact(*s),
    ensures
        final(h).inv(),
        worst <= MAX_FUEL,
        forall|target: Cube|
            target.ud_corner(CubeletPos::DLB) == cubie_row(0) && #[trigger] target.counts()
                ==> within(target, worst as nat),
        worst > 0 ==> exists|target: Cube|
            target.ud_corner(CubeletPos::DLB) == cubie_row(0) && #[trigger] target.counts()
                && capped_distance(target, worst as nat),
{
    let mut my_cube = Cube::make_solved(Facelet::Green, Facelet::White);

    let table = all_cubies();
    let mut all_cubies: Vec<[Facelet; 3]> = Vec::new();
    let mut i: usize = 1;
    while i < 8
        invariant
            1 <= i <= 8,
            all_cubies@.len() == i - 1,
            forall|x: int| 0 <= x < 8 ==> triple(#[trigger] table[x]) == cubie_row(x),
            forall|x: int| 0 <= x < i - 1 ==> triple(#[trigger] all_cubies@[x]) == cubie_row(x + 1),
        decreases 8 - i,
    {
        assert(triple(table[i as int]) == cubie_row(i as int));
        all_cubies.push(table[i]);
        i += 1;
    }
    assert(rows(all_cubies@) =~= rows_from(1));

    let dlb = table[0];
    assert(triple(table[0]) == cubie_row(0));

    // first cubie is correct and oriented, by symmetry
    let ghost before = my_cube;
    put_cubie(&mut my_cube, 0, dlb, 0);
    let ghost start = my_cube;
    proof {
        before.lemma_put(slot_at(0), cubie_row(0));
    }

    let worst = walk_cubes(&mut my_cube, &mut all_cubies, h, s);
    proof {
        assert forall|target: Cube|
            target.ud_corner(CubeletPos::DLB) == cubie_row(0) && #[trigger] target.counts()
                implies within(target, worst as nat) by {
            assert(start.same_below(target, 1)) by {
                assert forall|x: int| 0 <= x < 1 implies #[trigger] start.ud_corner(slot_at(x))
                    == target.ud_corner(slot_at(x)) by {}
            }
            target.lemma_wf_built_from();
        }
        if worst > 0 {
            let target = choose|target: Cube|
                start.same_below(target, 1) && #[trigger] target.built_from(1, rows_from(1))
                    && target.counts() && capped_distance(target, worst as nat);
            assert(start.ud_corner(slot_at(0)) == target.ud_corner(slot_at(0)));
            assert(target.counts());
        }
    }
    worst
}

/// The depth to which the table of known solutions is filled before the
/// bound is worked out. Nine is the sweet spot between spending all the
/// time on the table and spending too long on each cube.
pub const LEN_BOUND_DEPTH: usize = 9;

/// Works out the largest number of moves that any cube needs: it prepares
/// the estimates and the table of known solutions, then solves every cube
/// that counts. `MAX_FUEL` would stand for all that is not below it.
pub fn compute_len_bound() -> (worst: usize)
    ensures
        worst <= MAX_FUEL,
        forall|target: Cube|
            target.ud_corner(CubeletPos::DLB) == cubie_row(0) && #[trigger] target.counts()
                ==> within(target, worst as nat),
        worst > 0 ==> exists|target: Cube|
            target.ud_corner(CubeletPos::DLB) == cubie_row(0) && #[trigger] target.counts()
                && capped_distance(target, worst as nat),
{
    // By symmetry, we can assume the DLB corner is yellow/orange/green, with
    // yellow on bottom
    let mut heuristic = FullHeuristic::default();

    load_orr_heuristic(&mut heuristic);
    load_pos_heuristic(&mut heuristic);

    let mut short_circuit_cache = SimpleShortCircuitCache::default();

    // Note: we know the front/top goal facelets because DLB is fixed
    load_with_depth(&mut short_circuit_cache, LEN_BOUND_DEPTH, Facelet::Red, Facelet::White);

    // ... then solve every possible combination, short-circuiting as soon as
    // we hit something that the table knows
    try_combinations(&mut heuristic, &short_circuit_cache)
}

} // verus!
