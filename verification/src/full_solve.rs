//! The optimal solver: distance estimates from the two arrangements, a
//! table of short solutions, and the search that uses both.

use std::collections::HashMap;
use vstd::prelude::*;
use crate::arrangement::{CubeletArrangement, CubeletOrientationArrangement};
use crate::cube::{can_meet, Cube, Facelet};
use crate::key::Keyed;
use crate::moves::{apply_seq, reversed, reversed_seq, Amt, CanMove, Dir, Move};
use crate::search::{
    candidate, last_dir, last_dir_of, lemma_none_within_all, lemma_none_within_step, needs,
    none_within, optimal, shortest_solution, solves, Puzzle, MAX_FUEL,
};
use crate::sequence::{
    lemma_apply_concat, lemma_apply_front, lemma_apply_push, lemma_apply_unfold,
    lemma_normalized_reduced, lemma_normalized_same, lemma_reverse, lemma_reverse_twice,
    normalized, reduced,
};

verus! {

broadcast use vstd::std_specs::hash::group_hash_axioms;

/// Describes which estimate guides the search.
#[derive(Copy, Clone, Eq, PartialEq, Structural, Debug, Hash)]
pub enum HeuristicType {
    Unguided,
    Pos,
    Orr,
    PosAndOrr,
}

/// Whether `v` is the least number of moves that solve `t`, or `MAX_FUEL`
/// if nothing that short solves it.
pub open spec fn capped_distance<T: Puzzle>(t: T, v: nat) -> bool {
    &&& v <= MAX_FUEL
    &&& needs(t, v)
    &&& v < MAX_FUEL ==> exists|s: Seq<Move>| s.len() == v && #[trigger] solves(t, s)
}

/// A state has one capped distance.
pub proof fn lemma_capped_distance_unique<T: Puzzle>(t: T, v: nat, w: nat)
    requires
        capped_distance(t, v),
        capped_distance(t, w),
    ensures
        v == w,
{
    if v < w {
        let s = choose|s: Seq<Move>| s.len() == v && #[trigger] solves(t, s);
        assert(solves(t, s));
    }
    if w < v {
        let s = choose|s: Seq<Move>| s.len() == w && #[trigger] solves(t, s);
        assert(solves(t, s));
    }
}

/// One move changes the capped distance of a state by one at most. So
/// along a path the moves made and the distance that remains never add up
/// to less than before.
pub proof fn lemma_capped_distance_step<T: Puzzle>(t: T, m: Move, v: nat, w: nat)
    requires
        capped_distance(t, v),
        capped_distance(t.spec_apply(m), w),
    ensures
        v <= w + 1,
{
    if w < MAX_FUEL {
        let s = choose|s: Seq<Move>| s.len() == w && #[trigger] solves(t.spec_apply(m), s);
        let whole = seq![m] + s;
        assert(whole[0] == m);
        assert(whole.skip(1) =~= s);
        lemma_apply_front(t, whole);
        assert(solves(t, whole));
    }
}

/// Whether every entry of a table of distances, keyed by the states'
/// numbers, is the capped distance of its state.
pub open spec fn table_ok<T: Puzzle + Keyed>(table: Map<u64, usize>) -> bool {
    forall|t: T| #[trigger]
        table.contains_key(t.spec_key()) ==> capped_distance(t, table[t.spec_key()] as nat)
}

/// Whether the second table has every entry of the first.
pub open spec fn extends(old_table: Map<u64, usize>, new_table: Map<u64, usize>) -> bool {
    forall|k: u64| #[trigger]
        old_table.contains_key(k) ==> new_table.contains_key(k) && new_table[k] == old_table[k]
}

/// Looks up the distance of an arrangement that must be in the table.
pub fn cache_helper_or_die<T: Puzzle + Keyed>(cache: &HashMap<u64, usize>, arr: T) -> (dist: usize)
    requires
        table_ok::<T>(cache@),
        cache@.contains_key(arr.spec_key()),
    ensures
        dist == cache@[arr.spec_key()],
        capped_distance(arr, dist as nat),
{
    let k = arr.key();
    assert(cache@.contains_key(arr.spec_key()));
    match cache.get(&k) {
        Some(dist) => *dist,
        None => 0,
    }
}

/// Along a shortest solution, what remains is a shortest solution of the
/// state reached so far.
pub proof fn lemma_optimal_suffix<T: Puzzle>(t: T, solution: Seq<Move>, i: int)
    requires
        optimal(t, solution),
        0 <= i <= solution.len(),
    ensures
        optimal(apply_seq(t, solution.take(i)), solution.skip(i)),
{
    let mid = apply_seq(t, solution.take(i));
    assert(solution.take(i) + solution.skip(i) =~= solution);
    lemma_apply_concat(t, solution.take(i), solution.skip(i));
    assert forall|other: Seq<Move>| #[trigger] solves(mid, other) implies solution.skip(i).len()
        <= other.len() by {
        lemma_apply_concat(t, solution.take(i), other);
        assert(solves(t, solution.take(i) + other));
    }
}

/// Gets the distance of an arrangement from the table, or works it out by
/// exhaustive search and stores it. The search gives a shortest solution,
/// and every state along it is stored with the number of moves that remain,
/// which is its distance too. `runs` counts the searches.
#[verifier::spinoff_prover]
#[verifier::rlimit(50)]
pub fn cache_helper<T: Puzzle + Keyed>(
    cache: &mut HashMap<u64, usize>,
    runs: &mut usize,
    arr: T,
) -> (dist: usize)
    requires
        table_ok::<T>(old(cache)@),
    ensures
        table_ok::<T>(final(cache)@),
        extends(old(cache)@, final(cache)@),
        final(cache)@.contains_key(arr.spec_key()),
        final(cache)@[arr.spec_key()] == dist,
        capped_distance(arr, dist as nat),
        old(cache)@.contains_key(arr.spec_key()) ==> final(cache)@ == old(cache)@ && *final(runs)
            == *old(runs),
        !old(cache)@.contains_key(arr.spec_key()) ==> *final(runs) == if *old(runs) < usize::MAX {
            *old(runs) + 1
        } else {
            usize::MAX as int
        },
{
    let k = arr.key();
    if let Some(dist) = cache.get(&k) {
        return *dist;
    }
    if *runs < usize::MAX {
        *runs = *runs + 1;
    }
    match shortest_solution(arr, MAX_FUEL) {
        None => {
            proof {
                assert forall|t: T| #[trigger]
                    cache@.insert(k, MAX_FUEL).contains_key(t.spec_key()) implies capped_distance(
                    t,
                    cache@.insert(k, MAX_FUEL)[t.spec_key()] as nat,
                ) by {
                    t.lemma_key_injective(arr);
                    if t.spec_key() != k {
                        assert(cache@.contains_key(t.spec_key()));
                    }
                }
            }
            cache.insert(k, MAX_FUEL);
            MAX_FUEL
        },
        Some(solution) => {
            let full_length = solution.len();
            let ghost before = cache@;
            let mut running = arr;
            let mut remaining_length = solution.len();
            let mut i: usize = 0;
            proof {
                lemma_apply_unfold(arr, solution@.take(0));
                lemma_optimal_suffix(arr, solution@, 0);
                lemma_store_keeps_ok(cache@, running, remaining_length);
            }
            cache.insert(running.key(), remaining_length);

            // it is a fact that if the shortest path from A to B is P, and P passes
            // through C, then the rest of P is a shortest path from C to B
            while i < solution.len()
                invariant
                    i <= solution@.len(),
                    full_length == solution@.len(),
                    full_length < MAX_FUEL,
                    optimal(arr, solution@),
                    running == apply_seq(arr, solution@.take(i as int)),
                    remaining_length == solution@.len() - i,
                    table_ok::<T>(cache@),
                    extends(before, cache@),
                    cache@.contains_key(arr.spec_key()),
                    cache@[arr.spec_key()] == full_length,
                decreases solution@.len() - i,
            {
                let m = solution[i];
                proof {
                    assert(solution@.take(i + 1) =~= solution@.take(i as int).push(m));
                    lemma_apply_push(arr, solution@.take(i as int), m);
                    lemma_optimal_suffix(arr, solution@, i + 1);
                }
                running = running.apply(m);
                remaining_length = remaining_length - 1;
                proof {
                    lemma_store_keeps_ok(cache@, running, remaining_length);
                    if running.spec_key() == arr.spec_key() {
                        running.lemma_key_injective(arr);
                        lemma_optimal_suffix(arr, solution@, 0);
                        lemma_capped_distance_unique(
                            arr,
                            remaining_length as nat,
                            full_length as nat,
                        );
                    }
                }
                cache.insert(running.key(), remaining_length);
                i += 1;
            }
            proof {
                lemma_optimal_suffix(arr, solution@, 0);
            }
            full_length
        },
    }
}

/// Storing the length of a shortest solution of a state keeps a table of
/// distances in order, and changes no entry that was there.
#[verifier::spinoff_prover]
#[verifier::rlimit(50)]
pub proof fn lemma_store_keeps_ok<T: Puzzle + Keyed>(table: Map<u64, usize>, t: T, v: usize)
    requires
        table_ok::<T>(table),
        v < MAX_FUEL,
        exists|s: Seq<Move>| s.len() == v && #[trigger] optimal(t, s),
    ensures
        capped_distance(t, v as nat),
        table_ok::<T>(table.insert(t.spec_key(), v)),
        extends(table, table.insert(t.spec_key(), v)),
{
    let s = choose|s: Seq<Move>| s.len() == v && #[trigger] optimal(t, s);
    assert(solves(t, s));
    assert(capped_distance(t, v as nat));
    let after = table.insert(t.spec_key(), v);
    assert forall|x: T| #[trigger] after.contains_key(x.spec_key()) implies capped_distance(
        x,
        after[x.spec_key()] as nat,
    ) by {
        x.lemma_key_injective(t);
        if x.spec_key() != t.spec_key() {
            assert(table.contains_key(x.spec_key()));
        }
    }
    assert forall|k: u64| #[trigger] table.contains_key(k) implies after.contains_key(k)
        && after[k] == table[k] by {
        if k == t.spec_key() {
            assert(table.contains_key(t.spec_key()));
            lemma_capped_distance_unique(t, v as nat, table[k] as nat);
        }
    }
}

/// Whether `cost` never exceeds the number of moves that solve both the
/// position and the orientation arrangement at once.
pub open spec fn admissible(
    pos: CubeletArrangement,
    orr: CubeletOrientationArrangement,
    cost: nat,
) -> bool {
    forall|s: Seq<Move>|
        #![trigger solves(pos, s)]
        #![trigger solves(orr, s)]
        solves(pos, s) && solves(orr, s) ==> cost <= s.len()
}

/// An estimate of how many moves a cube still needs, from where its cubies
/// belong and how they are twisted. The estimate never exceeds the true
/// number, and it may be remembered.
pub trait Heuristic {
    /// What the estimator keeps true of all it remembers.
    spec fn inv(&self) -> bool;

    /// The estimate that is remembered for a cube, if any.
    spec fn stored(
        &self,
        pos: CubeletArrangement,
        orr: CubeletOrientationArrangement,
    ) -> Option<nat>;

    /// How often the estimator has run an exhaustive search.
    spec fn searches(&self) -> nat;

    /// Estimates the remaining cost, remembering what it works out. What
    /// was remembered before stays as it was; an estimate that was
    /// remembered is returned without a new search.
    fn estimated_remaining_cost(
        &mut self,
        pos: CubeletArrangement,
        orr: CubeletOrientationArrangement,
    ) -> (cost: usize)
        requires
            old(self).inv(),
        ensures
            final(self).inv(),
            cost <= MAX_FUEL,
            admissible(pos, orr, cost as nat),
            final(self).stored(pos, orr) == Some(cost as nat),
            forall|p: CubeletArrangement, o: CubeletOrientationArrangement|
                old(self).stored(p, o) is Some ==> #[trigger] final(self).stored(p, o) == old(
                    self,
                ).stored(p, o),
            old(self).stored(pos, orr) is Some ==> final(self).searches() == old(self).searches(),
    ;

    /// Returns the estimate that is remembered for a cube. There must be
    /// one.
    fn estimate_or_die(
        &self,
        pos: CubeletArrangement,
        orr: CubeletOrientationArrangement,
    ) -> (cost: usize)
        requires
            self.inv(),
            self.stored(pos, orr) is Some,
        ensures
            self.stored(pos, orr) == Some(cost as nat),
            cost <= MAX_FUEL,
            admissible(pos, orr, cost as nat),
    ;
}

/// The estimate that is always zero: the search runs unguided.
pub struct NoHeuristic;

impl Default for NoHeuristic {
    fn default() -> (r: NoHeuristic)
        ensures
            r.inv(),
    {
        NoHeuristic
    }
}

impl Heuristic for NoHeuristic {
    open spec fn inv(&self) -> bool {
        true
    }

    open spec fn stored(
        &self,
        pos: CubeletArrangement,
        orr: CubeletOrientationArrangement,
    ) -> Option<nat> {
        Some(0)
    }

    open spec fn searches(&self) -> nat {
        0
    }

    fn estimated_remaining_cost(
        &mut self,
        _pos: CubeletArrangement,
        _orr: CubeletOrientationArrangement,
    ) -> (cost: usize) {
        0
    }

    fn estimate_or_die(
        &self,
        _pos: CubeletArrangement,
        _orr: CubeletOrientationArrangement,
    ) -> (cost: usize) {
        0
    }
}

/// The estimate from where the cubies belong: the distance of the position
/// arrangement.
pub struct PosHeuristic {
    pos_dist_cache: HashMap<u64, usize>,
    runs: usize,
}

impl PosHeuristic {
    /// The number of arrangements whose distance is remembered.
    pub closed spec fn spec_cache_size(&self) -> nat {
        self.pos_dist_cache@.len()
    }

    /// The number of arrangements whose distance is remembered.
    pub fn cache_size(&self) -> (n: usize)
        ensures
            n == self.spec_cache_size(),
    {
        self.pos_dist_cache.len()
    }

    /// How often an exhaustive search has been run.
    pub fn solver_runs(&self) -> (n: usize)
        ensures
            n == self.searches(),
    {
        self.runs
    }
}

impl Default for PosHeuristic {
    fn default() -> (r: PosHeuristic)
        ensures
            r.inv(),
            r.searches() == 0,
            forall|p: CubeletArrangement, o: CubeletOrientationArrangement|
                #[trigger] r.stored(p, o) is None,
    {
        PosHeuristic { pos_dist_cache: HashMap::new(), runs: 0 }
    }
}

impl Heuristic for PosHeuristic {
    closed spec fn inv(&self) -> bool {
        table_ok::<CubeletArrangement>(self.pos_dist_cache@)
    }

    closed spec fn stored(
        &self,
        pos: CubeletArrangement,
        orr: CubeletOrientationArrangement,
    ) -> Option<nat> {
        if self.pos_dist_cache@.contains_key(pos.spec_key()) {
            Some(self.pos_dist_cache@[pos.spec_key()] as nat)
        } else {
            None
        }
    }

    closed spec fn searches(&self) -> nat {
        self.runs as nat
    }

    fn estimated_remaining_cost(
        &mut self,
        pos: CubeletArrangement,
        _orr: CubeletOrientationArrangement,
    ) -> (cost: usize) {
        let cost = cache_helper(&mut self.pos_dist_cache, &mut self.runs, pos);
        proof {
            assert forall|p: CubeletArrangement, o: CubeletOrientationArrangement|
                old(self).stored(p, o) is Some implies #[trigger] self.stored(p, o) == old(
                self,
            ).stored(p, o) by {
                assert(old(self).pos_dist_cache@.contains_key(p.spec_key()));
            }
        }
        cost
    }

    fn estimate_or_die(
        &self,
        pos: CubeletArrangement,
        _orr: CubeletOrientationArrangement,
    ) -> (cost: usize) {
        cache_helper_or_die(&self.pos_dist_cache, pos)
    }
}

impl PosHeuristic {
    /// Every remembered estimate is the least number of moves that bring
    /// the cubies home, or `MAX_FUEL` where nothing that short does. So it
    /// never exceeds the length of anything that does.
    pub proof fn lemma_stored_distance(
        &self,
        pos: CubeletArrangement,
        orr: CubeletOrientationArrangement,
    )
        requires
            self.inv(),
            self.stored(pos, orr) is Some,
        ensures
            capped_distance(pos, self.stored(pos, orr).unwrap()),
            forall|s: Seq<Move>| #[trigger] solves(pos, s) ==> self.stored(pos, orr).unwrap() <= s.len(),
    {
        assert(self.pos_dist_cache@.contains_key(pos.spec_key()));
    }
}

/// The estimate from how the cubies are twisted: the distance of the
/// orientation arrangement.
pub struct OrrHeuristic {
    orr_dist_cache: HashMap<u64, usize>,
    runs: usize,
}

impl OrrHeuristic {
    /// The number of arrangements whose distance is remembered.
    pub closed spec fn spec_cache_size(&self) -> nat {
        self.orr_dist_cache@.len()
    }

    /// The number of arrangements whose distance is remembered.
    pub fn cache_size(&self) -> (n: usize)
        ensures
            n == self.spec_cache_size(),
    {
        self.orr_dist_cache.len()
    }

    /// How often an exhaustive search has been run.
    pub fn solver_runs(&self) -> (n: usize)
        ensures
            n == self.searches(),
    {
        self.runs
    }
}

impl Default for OrrHeuristic {
    fn default() -> (r: OrrHeuristic)
        ensures
            r.inv(),
            r.searches() == 0,
            forall|p: CubeletArrangement, o: CubeletOrientationArrangement|
                #[trigger] r.stored(p, o) is None,
    {
        OrrHeuristic { orr_dist_cache: HashMap::new(), runs: 0 }
    }
}

impl Heuristic for OrrHeuristic {
    closed spec fn inv(&self) -> bool {
        table_ok::<CubeletOrientationArrangement>(self.orr_dist_cache@)
    }

    closed spec fn stored(
        &self,
        pos: CubeletArrangement,
        orr: CubeletOrientationArrangement,
    ) -> Option<nat> {
        if self.orr_dist_cache@.contains_key(orr.spec_key()) {
            Some(self.orr_dist_cache@[orr.spec_key()] as nat)
        } else {
            None
        }
    }

    closed spec fn searches(&self) -> nat {
        self.runs as nat
    }

    fn estimated_remaining_cost(
        &mut self,
        _pos: CubeletArrangement,
        orr: CubeletOrientationArrangement,
    ) -> (cost: usize) {
        let cost = cache_helper(&mut self.orr_dist_cache, &mut self.runs, orr);
        proof {
            assert forall|p: CubeletArrangement, o: CubeletOrientationArrangement|
                old(self).stored(p, o) is Some implies #[trigger] self.stored(p, o) == old(
                self,
            ).stored(p, o) by {
                assert(old(self).orr_dist_cache@.contains_key(o.spec_key()));
            }
        }
        cost
    }

    fn estimate_or_die(
        &self,
        _pos: CubeletArrangement,
        orr: CubeletOrientationArrangement,
    ) -> (cost: usize) {
        cache_helper_or_die(&self.orr_dist_cache, orr)
    }
}

impl OrrHeuristic {
    /// Every remembered estimate is the least number of moves that bring
    /// the cubies upright, or `MAX_FUEL` where nothing that short does. So
    /// it never exceeds the length of anything that does.
    pub proof fn lemma_stored_distance(
        &self,
        pos: CubeletArrangement,
        orr: CubeletOrientationArrangement,
    )
        requires
            self.inv(),
            self.stored(pos, orr) is Some,
        ensures
            capped_distance(orr, self.stored(pos, orr).unwrap()),
            forall|s: Seq<Move>| #[trigger] solves(orr, s) ==> self.stored(pos, orr).unwrap() <= s.len(),
    {
        assert(self.orr_dist_cache@.contains_key(orr.spec_key()));
    }
}

/// The larger of the two estimates. A cube is solved only when both of its
/// arrangements are, so the larger one is still never too large.
pub struct FullHeuristic {
    pos_dist_cache: HashMap<u64, usize>,
    orr_dist_cache: HashMap<u64, usize>,
    runs: usize,
}

impl FullHeuristic {
    /// The number of position arrangements whose distance is remembered.
    pub closed spec fn spec_pos_cache_size(&self) -> nat {
        self.pos_dist_cache@.len()
    }

    /// The number of position arrangements whose distance is remembered.
    pub fn pos_cache_size(&self) -> (n: usize)
        ensures
            n == self.spec_pos_cache_size(),
    {
        self.pos_dist_cache.len()
    }

    /// The number of orientation arrangements whose distance is
    /// remembered.
    pub closed spec fn spec_orr_cache_size(&self) -> nat {
        self.orr_dist_cache@.len()
    }

    /// The number of orientation arrangements whose distance is remembered.
    pub fn orr_cache_size(&self) -> (n: usize)
        ensures
            n == self.spec_orr_cache_size(),
    {
        self.orr_dist_cache.len()
    }

    /// How often an exhaustive search has been run.
    pub fn solver_runs(&self) -> (n: usize)
        ensures
            n == self.searches(),
    {
        self.runs
    }
}

impl Default for FullHeuristic {
    fn default() -> (r: FullHeuristic)
        ensures
            r.inv(),
            r.searches() == 0,
            forall|p: CubeletArrangement, o: CubeletOrientationArrangement|
                #[trigger] r.stored(p, o) is None,
    {
        FullHeuristic { pos_dist_cache: HashMap::new(), orr_dist_cache: HashMap::new(), runs: 0 }
    }
}

impl Heuristic for FullHeuristic {
    closed spec fn inv(&self) -> bool {
        &&& table_ok::<CubeletArrangement>(self.pos_dist_cache@)
        &&& table_ok::<CubeletOrientationArrangement>(self.orr_dist_cache@)
    }

    closed spec fn stored(
        &self,
        pos: CubeletArrangement,
        orr: CubeletOrientationArrangement,
    ) -> Option<nat> {
        if self.pos_dist_cache@.contains_key(pos.spec_key()) && self.orr_dist_cache@.contains_key(
            orr.spec_key(),
        ) {
            let a = self.orr_dist_cache@[orr.spec_key()] as nat;
            let b = self.pos_dist_cache@[pos.spec_key()] as nat;
            Some(if a >= b { a } else { b })
        } else {
            None
        }
    }

    closed spec fn searches(&self) -> nat {
        self.runs as nat
    }

    fn estimated_remaining_cost(
        &mut self,
        pos: CubeletArrangement,
        orr: CubeletOrientationArrangement,
    ) -> (cost: usize) {
        let a = cache_helper(&mut self.orr_dist_cache, &mut self.runs, orr);
        let b = cache_helper(&mut self.pos_dist_cache, &mut self.runs, pos);
        proof {
            assert forall|p: CubeletArrangement, o: CubeletOrientationArrangement|
                old(self).stored(p, o) is Some implies #[trigger] self.stored(p, o) == old(
                self,
            ).stored(p, o) by {
                assert(old(self).pos_dist_cache@.contains_key(p.spec_key()));
                assert(old(self).orr_dist_cache@.contains_key(o.spec_key()));
            }
        }
        if a >= b {
            a
        } else {
            b
        }
    }

    fn estimate_or_die(
        &self,
        pos: CubeletArrangement,
        orr: CubeletOrientationArrangement,
    ) -> (cost: usize) {
        let a = cache_helper_or_die(&self.orr_dist_cache, orr);
        let b = cache_helper_or_die(&self.pos_dist_cache, pos);
        if a >= b {
            a
        } else {
            b
        }
    }
}

impl FullHeuristic {
    /// Every remembered estimate is the larger of the two capped distances
    /// of the arrangements. So it never exceeds the length of anything
    /// that solves both.
    pub proof fn lemma_stored_distance(
        &self,
        pos: CubeletArrangement,
        orr: CubeletOrientationArrangement,
    )
        requires
            self.inv(),
            self.stored(pos, orr) is Some,
        ensures
            capped_distance(pos, self.stored(pos, orr).unwrap()) || capped_distance(
                orr,
                self.stored(pos, orr).unwrap(),
            ),
            forall|v: nat, w: nat|
                capped_distance(pos, v) && capped_distance(orr, w) ==> self.stored(pos, orr)
                    == Some(if w >= v {
                    w
                } else {
                    v
                }),
            admissible(pos, orr, self.stored(pos, orr).unwrap()),
    {
        assert(self.pos_dist_cache@.contains_key(pos.spec_key()));
        assert(self.orr_dist_cache@.contains_key(orr.spec_key()));
        let a = self.orr_dist_cache@[orr.spec_key()] as nat;
        let b = self.pos_dist_cache@[pos.spec_key()] as nat;
        assert forall|v: nat, w: nat|
            capped_distance(pos, v) && capped_distance(orr, w) implies self.stored(pos, orr)
            == Some(if w >= v {
            w
        } else {
            v
        }) by {
            lemma_capped_distance_unique(pos, v, b);
            lemma_capped_distance_unique(orr, w, a);
        }
    }
}

/// A table of solutions that are already known, so that the search can
/// stop short where it meets one.
pub trait ShortCircuitCache {
    /// What the table keeps true of all it holds.
    spec fn inv(&self) -> bool;

    /// The solution that the table holds for a cube, if any.
    spec fn known(&self, cube: Cube) -> Option<Seq<Move>>;

    /// Whatever the table holds for a cube solves it.
    proof fn lemma_known_solves(&self, cube: Cube)
        requires
            self.inv(),
            self.known(cube) is Some,
        ensures
            solves(cube, self.known(cube).unwrap()),
    ;

    /// Stores, for a cube, the reverse of the moves that led to it from a
    /// solved cube.
    fn learn_path(&mut self, cube: Cube, solution: &[Move])
        requires
            old(self).inv(),
            solves(cube, reversed_seq(solution@)),
        ensures
            final(self).inv(),
            final(self).known(cube) == Some(reversed_seq(solution@)),
            forall|c: Cube| c != cube ==> #[trigger] final(self).known(c) == old(self).known(c),
            final(self).spec_depth() == old(self).spec_depth(),
    ;

    /// Looks a cube up.
    fn known_solution(&self, cube: &Cube) -> (r: Option<&Vec<Move>>)
        requires
            self.inv(),
        ensures
            match r {
                Some(solution) => self.known(*cube) == Some(solution@),
                None => self.known(*cube) is None,
            },
    ;

    /// The depth that the table was made for.
    spec fn spec_depth(&self) -> nat;

    /// The depth that the table was made for. Learning paths does not
    /// change it.
    fn depth(&self) -> (d: usize)
        ensures
            d == self.spec_depth(),
    ;
}

/// Whether the table holds, for every cube, a shortest solution or none.
pub open spec fn exact<S: ShortCircuitCache>(cache: S) -> bool {
    forall|c: Cube| #[trigger] cache.known(c) is Some ==> needs(c, cache.known(c).unwrap().len())
}

/// What holds of an entry while the table is being filled around `root`:
/// it is what the table held before, or it leads to `root` in at most
/// `depth` moves.
pub open spec fn entry_fine(
    c: Cube,
    e: Seq<Move>,
    was: Option<Seq<Move>>,
    root: Cube,
    depth: nat,
) -> bool {
    was == Some(e) || (e.len() <= depth && apply_seq(c, e) == root)
}

/// Whether every entry of the table is fine, given what the table was
/// before it was filled.
pub open spec fn entries_fine<S: ShortCircuitCache>(
    cache: S,
    original: S,
    root: Cube,
    depth: nat,
) -> bool {
    forall|c: Cube| #[trigger]
        cache.known(c) is Some ==> entry_fine(
            c,
            cache.known(c).unwrap(),
            original.known(c),
            root,
            depth,
        )
}

/// Whether the second table holds, for every cube of the first, a solution
/// that is no longer.
pub open spec fn improves<S: ShortCircuitCache>(before: S, after: S) -> bool {
    forall|c: Cube| #[trigger]
        before.known(c) is Some ==> after.known(c) is Some && after.known(c).unwrap().len()
            <= before.known(c).unwrap().len()
}

/// Whether the table holds every cube that a candidate of at most
/// `depth - n` moves leads to from `cube`, with a solution of at most `n`
/// moves more than the candidate.
pub open spec fn covered<S: ShortCircuitCache>(
    cache: S,
    cube: Cube,
    last: Option<Dir>,
    n: nat,
    depth: nat,
) -> bool {
    forall|p: Seq<Move>| #[trigger]
        candidate(p, last, (depth - n) as nat) ==> {
            let c = apply_seq(cube, p);
            cache.known(c) is Some && cache.known(c).unwrap().len() <= n + p.len()
        }
}

/// What a table covers it still covers once it has improved.
pub proof fn lemma_covered_stable<S: ShortCircuitCache>(
    before: S,
    after: S,
    cube: Cube,
    last: Option<Dir>,
    n: nat,
    depth: nat,
)
    requires
        improves(before, after),
        covered(before, cube, last, n, depth),
    ensures
        covered(after, cube, last, n, depth),
{
    assert forall|p: Seq<Move>| #[trigger] candidate(p, last, (depth - n) as nat) implies {
        let c = apply_seq(cube, p);
        after.known(c) is Some && after.known(c).unwrap().len() <= n + p.len()
    } by {
        let c = apply_seq(cube, p);
        assert(before.known(c) is Some);
    }
}

/// If a table holds a cube, and covers what every first move leads to, it
/// covers what the cube leads to.
#[verifier::spinoff_prover]
#[verifier::rlimit(50)]
pub proof fn lemma_covered_step<S: ShortCircuitCache>(
    cache: S,
    cube: Cube,
    last: Option<Dir>,
    n: nat,
    depth: nat,
)
    requires
        n <= depth,
        cache.known(cube) is Some,
        cache.known(cube).unwrap().len() <= n,
        n < depth ==> forall|m: Move|
            last != Some(m.dir) ==> #[trigger] covered(
                cache,
                cube.spec_apply(m),
                Some(m.dir),
                n + 1,
                depth,
            ),
    ensures
        covered(cache, cube, last, n, depth),
{
    assert forall|p: Seq<Move>| #[trigger] candidate(p, last, (depth - n) as nat) implies {
        let c = apply_seq(cube, p);
        cache.known(c) is Some && cache.known(c).unwrap().len() <= n + p.len()
    } by {
        lemma_apply_unfold(cube, p);
        if p.len() > 0 {
            let m = p[0];
            let rest = p.skip(1);
            assert(covered(cache, cube.spec_apply(m), Some(m.dir), n + 1, depth));
            assert(reduced(rest)) by {
                assert forall|i: int| 0 < i < rest.len() implies !#[trigger]
                    crate::sequence::repeats_face(rest, i) by {
                    assert(!crate::sequence::repeats_face(p, i + 1));
                }
            }
            if rest.len() > 0 {
                assert(!crate::sequence::repeats_face(p, 1));
            }
            assert(candidate(rest, Some(m.dir), (depth - (n + 1)) as nat));
            lemma_apply_front(cube, p);
        }
    }
}

/// Once the search from the solved cube `root` is done, every entry is a
/// shortest solution, and every cube within `depth` moves has one.
#[verifier::spinoff_prover]
#[verifier::rlimit(50)]
pub proof fn lemma_loaded<S: ShortCircuitCache>(cache: S, original: S, root: Cube, depth: nat)
    requires
        cache.inv(),
        exact(original),
        root.wf(),
        root.solved(),
        entries_fine(cache, original, root, depth),
        covered(cache, root, None, 0, depth),
    ensures
        exact(cache),
        forall|s: Seq<Move>|
            s.len() <= depth ==> (#[trigger] cache.known(apply_seq(root, s))) is Some,
{
    assert forall|s: Seq<Move>| s.len() <= depth implies (#[trigger] cache.known(
        apply_seq(root, s),
    )) is Some by {
        lemma_normalized_reduced(s);
        lemma_normalized_same(root, s);
        assert(candidate(normalized(s), None, (depth - 0) as nat));
    }
    assert forall|c: Cube| #[trigger] cache.known(c) is Some implies needs(
        c,
        cache.known(c).unwrap().len(),
    ) by {
        let e = cache.known(c).unwrap();
        assert(entry_fine(c, e, original.known(c), root, depth));
        if original.known(c) == Some(e) {
            assert(original.known(c) is Some);
        } else {
            assert forall|s: Seq<Move>| #[trigger] solves(c, s) implies e.len() <= s.len() by {
                // the cube lies within reach of the root, so whatever solves it
                // leads back to the root
                lemma_reverse(c, e);
                root.lemma_seq_commutes(reversed_seq(e));
                c.lemma_seq_commutes(s);
                apply_seq(c, s).lemma_solved_unique(root);
                lemma_reverse(c, s);
                let p = normalized(reversed_seq(s));
                lemma_reverse_twice(s);
                lemma_normalized_reduced(reversed_seq(s));
                lemma_normalized_same(root, reversed_seq(s));
                if p.len() <= depth {
                    assert(candidate(p, None, (depth - 0) as nat));
                }
            }
        }
    }
}

/// The place of a face in the order in which the table is filled.
pub open spec fn fill_index(d: Dir) -> int {
    match d {
        Dir::R => 0,
        Dir::F => 1,
        Dir::U => 2,
    }
}

/// The face at a place in the order in which the table is filled.
pub fn fill_dir_at(i: usize) -> (d: Dir)
    requires
        i < 3,
    ensures
        fill_index(d) == i,
{
    if i == 0 {
        Dir::R
    } else if i == 1 {
        Dir::F
    } else {
        Dir::U
    }
}

/// Whether a move with the face at place `rank` has been tried when the
/// amount at index `a` of the face at place `d` is next.
pub open spec fn tried_at(rank: int, amt: Amt, d: int, a: int) -> bool {
    rank < d || (rank == d && crate::search::amt_index(amt) < a)
}

/// Visits `cube`, which the moves of `running` lead to from `root`, and all
/// that lies beyond it within `max_depth` moves of `root`. Each cube keeps
/// the shortest path that has led to it.
#[verifier::spinoff_prover]
#[verifier::rlimit(50)]
fn walk<S: ShortCircuitCache>(
    cube: Cube,
    cache: &mut S,
    running: &mut Vec<Move>,
    max_depth: usize,
    Ghost(root): Ghost<Cube>,
    Ghost(original): Ghost<S>,
)
    requires
        old(cache).inv(),
        root.wf(),
        root.solved(),
        cube == apply_seq(root, old(running)@),
        old(running)@.len() <= max_depth,
        entries_fine(*old(cache), original, root, max_depth as nat),
    ensures
        final(cache).inv(),
        final(running)@ == old(running)@,
        entries_fine(*final(cache), original, root, max_depth as nat),
        improves(*old(cache), *final(cache)),
        final(cache).spec_depth() == old(cache).spec_depth(),
        covered(
            *final(cache),
            cube,
            last_dir(old(running)@),
            old(running)@.len() as nat,
            max_depth as nat,
        ),
    decreases max_depth - old(running)@.len(),
{
    let ghost start = running@;
    let ghost at_entry = *cache;
    let n = running.len();
    let shorter = match cache.known_solution(&cube) {
        None => true,
        Some(existing) => n < existing.len(),
    };
    if shorter {
        proof {
            lemma_reverse(root, start);
            lemma_reverse_twice(start);
        }
        cache.learn_path(cube, running.as_slice());
    }
    let ghost recorded = *cache;
    proof {
        assert(improves(at_entry, recorded)) by {
            assert forall|c: Cube| #[trigger] at_entry.known(c) is Some implies recorded.known(c)
                is Some && recorded.known(c).unwrap().len() <= at_entry.known(c).unwrap().len() by {
                if shorter && c != cube {
                    assert(recorded.known(c) == at_entry.known(c));
                }
            }
        }
        assert(entries_fine(recorded, original, root, max_depth as nat)) by {
            assert forall|c: Cube| #[trigger] recorded.known(c) is Some implies entry_fine(
                c,
                recorded.known(c).unwrap(),
                original.known(c),
                root,
                max_depth as nat,
            ) by {
                if shorter && c != cube {
                    assert(recorded.known(c) == at_entry.known(c));
                }
                if !shorter || c != cube {
                    assert(at_entry.known(c) is Some);
                }
            }
        }
    }
    let last = last_dir_of(running);
    if n >= max_depth {
        proof {
            lemma_covered_step(recorded, cube, last, n as nat, max_depth as nat);
        }
        return ;
    }
    let mut d: usize = 0;
    while d < 3
        invariant
            d <= 3,
            n < max_depth,
            n == start.len(),
            running@ == start,
            start == old(running)@,
            root.wf(),
            root.solved(),
            cube == apply_seq(root, start),
            last == last_dir(start),
            cache.inv(),
            cache.spec_depth() == old(cache).spec_depth(),
            entries_fine(*cache, original, root, max_depth as nat),
            improves(recorded, *cache),
            forall|m: Move|
                tried_at(fill_index(m.dir), m.amt, d as int, 0) && last != Some(m.dir)
                    ==> #[trigger] covered(
                    *cache,
                    cube.spec_apply(m),
                    Some(m.dir),
                    (n + 1) as nat,
                    max_depth as nat,
                ),
        decreases 3 - d,
    {
        let dir = fill_dir_at(d);
        if !crate::search::is_dir(last, dir) {
            let mut a: usize = 0;
            while a < 3
                invariant
                    a <= 3,
                    d < 3,
                    fill_index(dir) == d,
                    last != Some(dir),
                    n < max_depth,
                    n == start.len(),
                    running@ == start,
                    start == old(running)@,
                    root.wf(),
                    root.solved(),
                    cube == apply_seq(root, start),
                    cache.inv(),
                    cache.spec_depth() == old(cache).spec_depth(),
                    entries_fine(*cache, original, root, max_depth as nat),
                    improves(recorded, *cache),
                    forall|m: Move|
                        tried_at(fill_index(m.dir), m.amt, d as int, a as int) && last != Some(
                            m.dir,
                        ) ==> #[trigger] covered(
                            *cache,
                            cube.spec_apply(m),
                            Some(m.dir),
                            (n + 1) as nat,
                            max_depth as nat,
                        ),
                decreases 3 - a,
            {
                let m = Move { dir, amt: crate::search::amt_at(a) };
                let next_cube = cube.apply(m);
                let ghost before = *cache;
                proof {
                    lemma_apply_push(root, start, m);
                }
                running.push(m);
                walk(next_cube, cache, running, max_depth, Ghost(root), Ghost(original));
                running.pop();
                proof {
                    assert(running@ =~= start);
                    assert(last_dir(start.push(m)) == Some(m.dir));
                    let after = *cache;
                    assert(improves(recorded, after)) by {
                        assert forall|c: Cube| #[trigger] recorded.known(c) is Some implies
                            after.known(c) is Some && after.known(c).unwrap().len()
                            <= recorded.known(c).unwrap().len() by {
                            assert(before.known(c) is Some);
                        }
                    }
                    assert forall|x: Move|
                        tried_at(fill_index(x.dir), x.amt, d as int, a + 1) && last != Some(
                            x.dir,
                        ) implies #[trigger] covered(
                        after,
                        cube.spec_apply(x),
                        Some(x.dir),
                        (n + 1) as nat,
                        max_depth as nat,
                    ) by {
                        if x != m {
                            assert(tried_at(fill_index(x.dir), x.amt, d as int, a as int));
                            lemma_covered_stable(
                                before,
                                after,
                                cube.spec_apply(x),
                                Some(x.dir),
                                (n + 1) as nat,
                                max_depth as nat,
                            );
                        }
                    }
                }
                a += 1;
            }
        }
        d += 1;
    }
    proof {
        assert forall|m: Move| last != Some(m.dir) implies #[trigger] covered(
            *cache,
            cube.spec_apply(m),
            Some(m.dir),
            (n + 1) as nat,
            max_depth as nat,
        ) by {
            assert(tried_at(fill_index(m.dir), m.amt, 3, 0));
        }
        assert(cache.known(cube) is Some && cache.known(cube).unwrap().len() <= n) by {
            assert(recorded.known(cube) is Some);
        }
        lemma_covered_step(*cache, cube, last, n as nat, max_depth as nat);
        assert(improves(at_entry, *cache)) by {
            assert forall|c: Cube| #[trigger] at_entry.known(c) is Some implies cache.known(c)
                is Some && cache.known(c).unwrap().len() <= at_entry.known(c).unwrap().len() by {
                assert(recorded.known(c) is Some);
            }
        }
    }
}

/// Fills the table with a shortest solution for every cube that is at
/// most `depth` moves away from the solved cube with the colors `f` in
/// front and `u` on top. The two colors must be able to meet on a corner,
/// and what the table holds already must be shortest solutions. One
/// exhaustive search outward from the solved cube visits every such cube,
/// and each keeps the shortest path that led to it. What the table held
/// stays, unless the search found the same cube by no longer a path, and
/// nothing else is added.
pub fn load_with_depth<S: ShortCircuitCache>(cache: &mut S, depth: usize, f: Facelet, u: Facelet)
    requires
        old(cache).inv(),
        can_meet(f, u),
        exact(*old(cache)),
    ensures
        final(cache).inv(),
        exact(*final(cache)),
        improves(*old(cache), *final(cache)),
        final(cache).spec_depth() == old(cache).spec_depth(),
        entries_fine(
            *final(cache),
            *old(cache),
            Cube::spec_make_solved(f, u),
            depth as nat,
        ),
        forall|s: Seq<Move>|
            s.len() <= depth ==> (#[trigger] final(cache).known(
                apply_seq(Cube::spec_make_solved(f, u), s),
            )) is Some,
{
    let cube = Cube::make_solved(f, u);
    let mut running: Vec<Move> = Vec::with_capacity(depth);
    let ghost original = *cache;
    proof {
        lemma_apply_unfold(cube, running@);
    }
    walk(cube, cache, &mut running, depth, Ghost(cube), Ghost(original));
    proof {
        lemma_loaded(*cache, original, cube, depth as nat);
    }
}

/// A table of known solutions, keyed by the cubes' numbers.
pub struct SimpleShortCircuitCache {
    cache: HashMap<u64, Vec<Move>>,
    depth: usize,
}

impl Default for SimpleShortCircuitCache {
    fn default() -> (r: SimpleShortCircuitCache)
        ensures
            r.inv(),
            r.spec_depth() == 0,
            r.spec_cache_size() == 0,
            forall|c: Cube| #[trigger] r.known(c) is None,
    {
        SimpleShortCircuitCache { cache: HashMap::new(), depth: 0 }
    }
}

impl SimpleShortCircuitCache {
    /// The number of cubes in the table.
    pub closed spec fn spec_cache_size(&self) -> nat {
        self.cache@.len()
    }

    /// The number of cubes in the table.
    pub fn cache_size(&self) -> (n: usize)
        ensures
            n == self.spec_cache_size(),
    {
        self.cache.len()
    }
}

impl ShortCircuitCache for SimpleShortCircuitCache {
    closed spec fn inv(&self) -> bool {
        forall|c: Cube| #[trigger]
            self.cache@.contains_key(c.spec_key()) ==> solves(c, self.cache@[c.spec_key()]@)
    }

    closed spec fn known(&self, cube: Cube) -> Option<Seq<Move>> {
        if self.cache@.contains_key(cube.spec_key()) {
            Some(self.cache@[cube.spec_key()]@)
        } else {
            None
        }
    }

    closed spec fn spec_depth(&self) -> nat {
        self.depth as nat
    }

    proof fn lemma_known_solves(&self, cube: Cube) {
        assert(self.cache@.contains_key(cube.spec_key()));
    }

    fn learn_path(&mut self, cube: Cube, solution: &[Move])
        ensures
            final(self).spec_cache_size() == old(self).spec_cache_size() + (if old(self).known(
                cube,
            ) is None {
                1nat
            } else {
                0nat
            }),
    {
        let solution = reversed(solution);
        let k = cube.key();
        proof {
            assert forall|c: Cube| #[trigger]
                self.cache@.insert(k, solution).contains_key(c.spec_key()) implies solves(
                c,
                self.cache@.insert(k, solution)[c.spec_key()]@,
            ) by {
                c.lemma_key_injective(cube);
                if c != cube {
                    assert(self.cache@.contains_key(c.spec_key()));
                }
            }
            assert forall|c: Cube| c != cube implies c.spec_key() != k by {
                c.lemma_key_injective(cube);
            }
        }
        self.cache.insert(k, solution);
    }

    fn depth(&self) -> (d: usize) {
        self.depth
    }

    fn known_solution(&self, cube: &Cube) -> (r: Option<&Vec<Move>>) {
        let k = cube.key();
        self.cache.get(&k)
    }
}

/// How one search under a cost ceiling ends.
enum SolveResult {
    /// found a solution
    Success,
    /// failed to find a solution; the number is the smallest estimated total
    /// cost that was over the ceiling
    Failed(usize),
}

/// The place of a face in the order in which the optimal solver tries them.
pub open spec fn solve_index(d: Dir) -> int {
    match d {
        Dir::F => 0,
        Dir::R => 1,
        Dir::U => 2,
    }
}

/// The face at a place in the order in which the optimal solver tries them.
pub fn solve_dir_at(i: usize) -> (d: Dir)
    requires
        i < 3,
    ensures
        solve_index(d) == i,
{
    if i == 0 {
        Dir::F
    } else if i == 1 {
        Dir::R
    } else {
        Dir::U
    }
}

/// If no candidate of at most `n` moves solves a state, none of fewer
/// does.
pub proof fn lemma_none_within_fewer<T: Puzzle>(t: T, last: Option<Dir>, n: nat, fewer: nat)
    requires
        none_within(t, last, n),
        fewer <= n,
    ensures
        none_within(t, last, fewer),
{
    assert forall|s: Seq<Move>| #[trigger] candidate(s, last, fewer) implies !solves(t, s) by {
        assert(candidate(s, last, n));
    }
}

/// If every solution of a state has at least `n` moves, no candidate of
/// fewer solves it.
pub proof fn lemma_needs_none_within<T: Puzzle>(t: T, last: Option<Dir>, n: nat)
    requires
        needs(t, n),
        n > 0,
    ensures
        none_within(t, last, (n - 1) as nat),
{
}

/// An estimate that is never too large for both arrangements of a
/// well-formed cube is never too large for the cube.
pub proof fn lemma_admissible_needs(cube: Cube, cost: nat)
    requires
        cube.wf(),
        admissible(cube.spec_pos_arr(), cube.spec_orr_arr(), cost),
    ensures
        needs(cube, cost),
{
    assert forall|s: Seq<Move>| #[trigger] solves(cube, s) implies cost <= s.len() by {
        cube.lemma_solution_projects(s);
    }
}

/// Searches depth first for a solution whose cost, together with the moves
/// of `running`, stays within `max_cost`. A branch is cut where the moves so
/// far and the estimate of what remains exceed the ceiling, and where the
/// table of known solutions holds the cube: the known solution is taken if
/// it fits, and else nothing fits.
#[verifier::spinoff_prover]
#[verifier::rlimit(50)]
fn solve<H: Heuristic, S: ShortCircuitCache>(
    cube: Cube,
    pos_arr: CubeletArrangement,
    orr_arr: CubeletOrientationArrangement,
    heuristic: &mut H,
    running: &mut Vec<Move>,
    max_cost: usize,
    short_circuit_cache: &S,
) -> (res: SolveResult)
    requires
        cube.wf(),
        pos_arr == cube.spec_pos_arr(),
        orr_arr == cube.spec_orr_arr(),
        old(heuristic).inv(),
        short_circuit_cache.inv(),
        exact(*short_circuit_cache),
        old(running)@.len() <= max_cost,
        max_cost <= MAX_FUEL,
    ensures
        final(heuristic).inv(),
        match res {
            SolveResult::Success => {
                let n = old(running)@.len() as int;
                &&& n <= final(running)@.len() <= max_cost
                &&& final(running)@.take(n) == old(running)@
                &&& solves(cube, final(running)@.skip(n))
            },
            SolveResult::Failed(next) => {
                &&& final(running)@ == old(running)@
                &&& next > max_cost
                &&& none_within(
                    cube,
                    last_dir(old(running)@),
                    (next - old(running)@.len() - 1) as nat,
                )
            },
        },
    decreases max_cost - old(running)@.len(),
{
    let ghost start = running@;
    let n = running.len();
    let last = last_dir_of(running);
    if cube.solved() {
        proof {
            assert(running@.skip(n as int) =~= Seq::<Move>::empty());
            assert(running@.take(n as int) =~= start);
            lemma_apply_unfold(cube, Seq::<Move>::empty());
        }
        return SolveResult::Success;
    } else if n == max_cost {
        proof {
            lemma_none_within_step(cube, last, 0);
        }
        return SolveResult::Failed(max_cost + 1);
    }
    if let Some(known) = short_circuit_cache.known_solution(&cube) {
        proof {
            short_circuit_cache.lemma_known_solves(cube);
            assert(short_circuit_cache.known(cube) is Some);
            lemma_apply_unfold(cube, known@);
        }
        if known.len() <= max_cost - n {
            let mut i: usize = 0;
            while i < known.len()
                invariant
                    i <= known@.len(),
                    running@ == start + known@.take(i as int),
                decreases known@.len() - i,
            {
                proof {
                    assert(known@.take(i + 1) =~= known@.take(i as int).push(known@[i as int]));
                }
                running.push(known[i]);
                i += 1;
            }
            proof {
                assert(known@.take(known@.len() as int) =~= known@);
                assert(running@.take(n as int) =~= start);
                assert(running@.skip(n as int) =~= known@);
            }
            return SolveResult::Success;
        } else {
            proof {
                lemma_needs_none_within(cube, last, known@.len());
                lemma_none_within_fewer(cube, last, (known@.len() - 1) as nat, (max_cost - n) as nat);
            }
            if known.len() <= MAX_FUEL {
                return SolveResult::Failed(n + known.len());
            } else {
                return SolveResult::Failed(max_cost + 1);
            }
        }
    }
    let mut lowest: usize = usize::MAX;
    let mut d: usize = 0;
    while d < 3
        invariant
            d <= 3,
            n < max_cost,
            max_cost <= MAX_FUEL,
            n == start.len(),
            running@ == start,
            start == old(running)@,
            last == last_dir(start),
            cube.wf(),
            !cube.solved(),
            pos_arr == cube.spec_pos_arr(),
            orr_arr == cube.spec_orr_arr(),
            heuristic.inv(),
            short_circuit_cache.inv(),
            exact(*short_circuit_cache),
            lowest > max_cost,
            forall|m: Move|
                tried_at(solve_index(m.dir), m.amt, d as int, 0) && last != Some(m.dir)
                    ==> #[trigger] none_within(
                    cube.spec_apply(m),
                    Some(m.dir),
                    (lowest - n - 2) as nat,
                ),
        decreases 3 - d,
    {
        let dir = solve_dir_at(d);
        if !crate::search::is_dir(last, dir) {
            let mut a: usize = 0;
            while a < 3
                invariant
                    a <= 3,
                    d < 3,
                    solve_index(dir) == d,
                    last != Some(dir),
                    n < max_cost,
                    max_cost <= MAX_FUEL,
                    n == start.len(),
                    running@ == start,
                    start == old(running)@,
                    cube.wf(),
                    !cube.solved(),
                    pos_arr == cube.spec_pos_arr(),
                    orr_arr == cube.spec_orr_arr(),
                    heuristic.inv(),
                    short_circuit_cache.inv(),
                    exact(*short_circuit_cache),
                    lowest > max_cost,
                    forall|m: Move|
                        tried_at(solve_index(m.dir), m.amt, d as int, a as int) && last != Some(
                            m.dir,
                        ) ==> #[trigger] none_within(
                            cube.spec_apply(m),
                            Some(m.dir),
                            (lowest - n - 2) as nat,
                        ),
                decreases 3 - a,
            {
                let m = Move { amt: crate::search::amt_at(a), dir };
                running.push(m);

                let next_cube = cube.apply(m);
                proof {
                    cube.lemma_move_commutes(m);
                }

                if next_cube.solved() {
                    proof {
                        let tail = running@.skip(n as int);
                        assert(running@.take(n as int) =~= start);
                        assert(tail =~= seq![m]);
                        assert(tail.skip(1) =~= Seq::<Move>::empty());
                        lemma_apply_front(cube, tail);
                        lemma_apply_unfold(next_cube, Seq::<Move>::empty());
                    }
                    return SolveResult::Success;
                }
                let next_pos_arr = pos_arr.apply(m);
                let next_orr_arr = orr_arr.apply(m);

                let heuristic_cost = heuristic.estimated_remaining_cost(next_pos_arr, next_orr_arr);

                let est_cost = running.len() + heuristic_cost;
                let ghost old_lowest = lowest;
                let ghost mut child_bound: nat = 0;

                if est_cost <= max_cost {
                    // if we have enough gas to get to the next node, try it out
                    let iterate_result = solve(
                        next_cube,
                        next_pos_arr,
                        next_orr_arr,
                        heuristic,
                        running,
                        max_cost,
                        short_circuit_cache,
                    );

                    match iterate_result {
                        // immediately return, so the "running" vec has all the stuff it needs
                        SolveResult::Success => {
                            proof {
                                let tail = running@.skip(n as int);
                                assert(running@.take(n as int) =~= running@.take(n + 1).take(
                                    n as int,
                                ));
                                assert(running@.take(n as int) =~= start);
                                assert(tail[0] == running@.take(n + 1)[n as int]);
                                assert(tail.skip(1) =~= running@.skip(n + 1));
                                lemma_apply_front(cube, tail);
                            }
                            return SolveResult::Success;
                        },
                        SolveResult::Failed(next) => {
                            proof {
                                assert(last_dir(start.push(m)) == Some(m.dir));
                                child_bound = (next - n - 2) as nat;
                            }
                            if next < lowest {
                                lowest = next;
                            }
                        },
                    }
                } else {
                    proof {
                        lemma_admissible_needs(next_cube, heuristic_cost as nat);
                        lemma_needs_none_within(next_cube, Some(m.dir), heuristic_cost as nat);
                        child_bound = (heuristic_cost - 1) as nat;
                    }
                    if est_cost < lowest {
                        lowest = est_cost;
                    }
                }

                running.pop();
                proof {
                    assert(running@ =~= start);
                    assert forall|x: Move|
                        tried_at(solve_index(x.dir), x.amt, d as int, a + 1) && last != Some(
                            x.dir,
                        ) implies #[trigger] none_within(
                        cube.spec_apply(x),
                        Some(x.dir),
                        (lowest - n - 2) as nat,
                    ) by {
                        if x != m {
                            assert(tried_at(solve_index(x.dir), x.amt, d as int, a as int));
                            lemma_none_within_fewer(
                                cube.spec_apply(x),
                                Some(x.dir),
                                (old_lowest - n - 2) as nat,
                                (lowest - n - 2) as nat,
                            );
                        } else {
                            lemma_none_within_fewer(
                                next_cube,
                                Some(m.dir),
                                child_bound,
                                (lowest - n - 2) as nat,
                            );
                        }
                    }
                }
                a += 1;
            }
        }
        d += 1;
    }
    proof {
        let k = (lowest - n - 1) as nat;
        assert forall|m: Move| last != Some(m.dir) implies #[trigger] none_within(
            cube.spec_apply(m),
            Some(m.dir),
            (k - 1) as nat,
        ) by {
            assert(tried_at(solve_index(m.dir), m.amt, 3, 0));
            assert((k - 1) as nat == (lowest - n - 2) as nat);
        }
        lemma_none_within_step(cube, last, k);
    }
    SolveResult::Failed(lowest)
}

/// Finds a shortest solution of fewer than `max_fuel` moves, if there is
/// one. The search starts under the ceiling that the estimate for the cube
/// itself gives, and each time it fails the ceiling is raised to the
/// smallest estimated total cost that was cut off.
pub fn solve_with_heuristic<H: Heuristic, S: ShortCircuitCache>(
    cube: Cube,
    heuristic: &mut H,
    max_fuel: usize,
    short_circuit_cache: &S,
) -> (r: Option<Vec<Move>>)
    requires
        cube.wf(),
        old(heuristic).inv(),
        short_circuit_cache.inv(),
        exact(*short_circuit_cache),
        max_fuel <= MAX_FUEL,
    ensures
        final(heuristic).inv(),
        match r {
            Some(solution) => solution@.len() < max_fuel && optimal(cube, solution@),
            None => needs(cube, max_fuel as nat),
        },
{
    let pos_arr = cube.make_pos_arr_from_dlb();
    let orr_arr = cube.make_orr_arr_from_dlb();

    let mut ceiling = heuristic.estimated_remaining_cost(pos_arr, orr_arr);
    proof {
        lemma_admissible_needs(cube, ceiling as nat);
    }

    while ceiling < max_fuel
        invariant
            cube.wf(),
            pos_arr == cube.spec_pos_arr(),
            orr_arr == cube.spec_orr_arr(),
            heuristic.inv(),
            short_circuit_cache.inv(),
            exact(*short_circuit_cache),
            max_fuel <= MAX_FUEL,
            needs(cube, ceiling as nat),
        decreases max_fuel - ceiling,
    {
        let mut running: Vec<Move> = Vec::new();

        let sr = solve(
            cube,
            pos_arr,
            orr_arr,
            heuristic,
            &mut running,
            ceiling,
            short_circuit_cache,
        );

        match sr {
            SolveResult::Success => {
                proof {
                    assert(running@.skip(0) =~= running@);
                }
                return Some(running);
            },
            SolveResult::Failed(next) => {
                proof {
                    lemma_none_within_all(cube, (next - 1) as nat);
                }
                ceiling = if next < max_fuel {
                    next
                } else {
                    max_fuel
                };
            },
        }
    }
    proof {
        assert forall|s: Seq<Move>| #[trigger] solves(cube, s) implies max_fuel <= s.len() by {}
    }
    None
}

/// Finds a shortest solution of a cube. The cube must be well-formed and
/// have a solution of fewer than `MAX_FUEL` moves, as every cube has that
/// turns alone have scrambled.
pub fn optimal_solve_heuristic<H: Heuristic, S: ShortCircuitCache>(
    cube: Cube,
    heuristic: &mut H,
    short_circuit_cache: &S,
) -> (solution: Vec<Move>)
    requires
        cube.wf(),
        old(heuristic).inv(),
        short_circuit_cache.inv(),
        exact(*short_circuit_cache),
        exists|s: Seq<Move>| s.len() < MAX_FUEL && solves(cube, s),
    ensures
        final(heuristic).inv(),
        optimal(cube, solution@),
        solution@.len() < MAX_FUEL,
{
    if cube.solved() {
        proof {
            lemma_apply_unfold(cube, Seq::<Move>::empty());
        }
        return Vec::new();
    }
    match solve_with_heuristic(cube, heuristic, MAX_FUEL, short_circuit_cache) {
        Some(solution) => solution,
        None => {
            proof {
                let s = choose|s: Seq<Move>| s.len() < MAX_FUEL && solves(cube, s);
                assert(solves(cube, s));
            }
            Vec::new()
        },
    }
}

/// The depth to which the optimal solver fills its table of known
/// solutions.
pub const SHORT_CIRCUIT_DEPTH: usize = 5;

/// Finds a shortest solution of a cube, guided by the chosen estimate and
/// by a table of the solutions of at most `SHORT_CIRCUIT_DEPTH` moves. The
/// cube must be well-formed and have a solution of fewer than `MAX_FUEL`
/// moves.
pub fn optimal_solve(cube: Cube, heuristic_type: HeuristicType) -> (solution: Vec<Move>)
    requires
        cube.wf(),
        exists|s: Seq<Move>| s.len() < MAX_FUEL && solves(cube, s),
    ensures
        optimal(cube, solution@),
        solution@.len() < MAX_FUEL,
{
    match solve_if_possible(cube, heuristic_type) {
        Some(solution) => solution,
        None => {
            proof {
                let s = choose|s: Seq<Move>| s.len() < MAX_FUEL && solves(cube, s);
                assert(solves(cube, s));
            }
            Vec::new()
        },
    }
}

/// Finds a shortest solution of any cube that has one of fewer than
/// `MAX_FUEL` moves, guided by the chosen estimate and by a table of the
/// solutions of at most `SHORT_CIRCUIT_DEPTH` moves. There is none for a
/// cube that is not well-formed, and none where every solution is too
/// long.
pub fn solve_if_possible(cube: Cube, heuristic_type: HeuristicType) -> (r: Option<Vec<Move>>)
    ensures
        match r {
            Some(solution) => cube.wf() && optimal(cube, solution@) && solution@.len() < MAX_FUEL,
            None => !cube.wf() || needs(cube, MAX_FUEL as nat),
        },
{
    if !cube.is_wf() {
        return None;
    }
    if cube.solved() {
        proof {
            lemma_apply_unfold(cube, Seq::<Move>::empty());
        }
        return Some(Vec::new());
    }
    let mut short_circuit_cache = SimpleShortCircuitCache::default();
    let des = cube.make_desired_from_dlb();
    proof {
        cube.lemma_frame();
    }

    load_with_depth(&mut short_circuit_cache, SHORT_CIRCUIT_DEPTH, des.f, des.u);

    match heuristic_type {
        HeuristicType::Unguided => {
            let mut heuristic = NoHeuristic::default();
            solve_with_heuristic(cube, &mut heuristic, MAX_FUEL, &short_circuit_cache)
        },
        HeuristicType::Pos => {
            let mut heuristic = PosHeuristic::default();
            solve_with_heuristic(cube, &mut heuristic, MAX_FUEL, &short_circuit_cache)
        },
        HeuristicType::Orr => {
            let mut heuristic = OrrHeuristic::default();
            solve_with_heuristic(cube, &mut heuristic, MAX_FUEL, &short_circuit_cache)
        },
        HeuristicType::PosAndOrr => {
            let mut heuristic = FullHeuristic::default();
            solve_with_heuristic(cube, &mut heuristic, MAX_FUEL, &short_circuit_cache)
        },
    }
}

} // verus!
