//! Exhaustive search for a shortest move sequence, by depth-first search
//! under a growing bound on the length.

use vstd::prelude::*;
use crate::arrangement::{CubeletArrangement, CubeletOrientationArrangement};
use crate::cube::Cube;
use crate::moves::{apply_seq, Amt, CanMove, Dir, Move};
use crate::sequence::{
    lemma_apply_front, lemma_apply_unfold, lemma_normalized_reduced, lemma_normalized_same,
    normalized, reduced, repeats_face,
};

verus! {

/// The bound under which the solvers give up: they look for solutions of
/// fewer moves than this. Every pocket cube is known to need far fewer.
pub const MAX_FUEL: usize = 13;

/// A puzzle state that can be moved and that is solved or not.
pub trait Puzzle: CanMove + Copy {
    /// Whether the state is solved.
    spec fn spec_done(self) -> bool;

    /// Whether the state is solved.
    fn done(&self) -> (r: bool)
        ensures
            r == self.spec_done(),
    ;
}

impl Puzzle for Cube {
    open spec fn spec_done(self) -> bool {
        self.solved()
    }

    fn done(&self) -> (r: bool) {
        self.solved()
    }
}

impl Puzzle for CubeletArrangement {
    open spec fn spec_done(self) -> bool {
        self.is_solved()
    }

    fn done(&self) -> (r: bool) {
        self.is_solved()
    }
}

impl Puzzle for CubeletOrientationArrangement {
    open spec fn spec_done(self) -> bool {
        self.is_solved()
    }

    fn done(&self) -> (r: bool) {
        self.is_solved()
    }
}

/// Whether the moves of `s` solve `t`.
pub open spec fn solves<T: Puzzle>(t: T, s: Seq<Move>) -> bool {
    apply_seq(t, s).spec_done()
}

/// Whether `s` solves `t` and nothing shorter does.
pub open spec fn optimal<T: Puzzle>(t: T, s: Seq<Move>) -> bool {
    &&& solves(t, s)
    &&& forall|other: Seq<Move>| #[trigger] solves(t, other) ==> s.len() <= other.len()
}

/// Whether nothing shorter than `n` moves solves `t`.
pub open spec fn needs<T: Puzzle>(t: T, n: nat) -> bool {
    forall|s: Seq<Move>| #[trigger] solves(t, s) ==> n <= s.len()
}

/// The face that the last move of `s` turns.
pub open spec fn last_dir(s: Seq<Move>) -> Option<Dir> {
    if s.len() == 0 {
        None
    } else {
        Some(s.last().dir)
    }
}

/// Whether the search may continue with `s` after a turn of the face
/// `last`: `s` is reduced, has at most `n` moves, and does not begin with
/// another turn of that face.
pub open spec fn candidate(s: Seq<Move>, last: Option<Dir>, n: nat) -> bool {
    &&& reduced(s)
    &&& s.len() <= n
    &&& s.len() > 0 ==> last != Some(s[0].dir)
}

/// Whether no candidate of at most `n` moves solves `t`.
pub open spec fn none_within<T: Puzzle>(t: T, last: Option<Dir>, n: nat) -> bool {
    forall|s: Seq<Move>| #[trigger] candidate(s, last, n) ==> !solves(t, s)
}

/// The place of a face in the order in which the search tries them.
pub open spec fn dir_index(d: Dir) -> int {
    match d {
        Dir::R => 0,
        Dir::U => 1,
        Dir::F => 2,
    }
}

/// The place of an amount in the order in which the search tries them.
pub open spec fn amt_index(a: Amt) -> int {
    match a {
        Amt::One => 0,
        Amt::Two => 1,
        Amt::Rev => 2,
    }
}

/// The place of a move in the order in which the search tries them: face
/// by face, each in its three amounts.
pub open spec fn move_rank(m: Move) -> int {
    dir_index(m.dir) * 3 + amt_index(m.amt)
}

/// Whether the search comes to `a` no later than to `b`: `b` goes on from
/// `a`, or where the two first differ, the move of `a` is tried first.
pub open spec fn comes_first(a: Seq<Move>, b: Seq<Move>) -> bool
    decreases a.len(),
{
    if a.len() == 0 {
        true
    } else if b.len() == 0 {
        false
    } else if a[0] == b[0] {
        comes_first(a.skip(1), b.skip(1))
    } else {
        move_rank(a[0]) < move_rank(b[0])
    }
}

/// Whether the search comes to `found` no later than to any candidate of
/// at most `n` moves that solves the state `t`.
pub open spec fn first_within<T: Puzzle>(t: T, found: Seq<Move>, last: Option<Dir>, n: nat) -> bool {
    forall|s: Seq<Move>| #[trigger] candidate(s, last, n) && solves(t, s) ==> comes_first(found, s)
}

/// Whether `found` is the first of the shortest solutions of the state in
/// the order of the search, among those that never turn one face twice in
/// a row.
pub open spec fn first_of_shortest<T: Puzzle>(t: T, found: Seq<Move>) -> bool {
    forall|s: Seq<Move>| reduced(s) && #[trigger] optimal(t, s) ==> comes_first(found, s)
}

/// Whether the search has tried the move when it is about to try the
/// amount at index `a` of the face at index `d`.
pub open spec fn tried(m: Move, d: int, a: int) -> bool {
    dir_index(m.dir) < d || (dir_index(m.dir) == d && amt_index(m.amt) < a)
}

/// The face at a place in the order in which the search tries them.
pub fn dir_at(i: usize) -> (d: Dir)
    requires
        i < 3,
    ensures
        dir_index(d) == i,
{
    if i == 0 {
        Dir::R
    } else if i == 1 {
        Dir::U
    } else {
        Dir::F
    }
}

/// The amount at a place in the order in which the search tries them.
pub fn amt_at(i: usize) -> (a: Amt)
    requires
        i < 3,
    ensures
        amt_index(a) == i,
{
    if i == 0 {
        Amt::One
    } else if i == 1 {
        Amt::Two
    } else {
        Amt::Rev
    }
}

/// The face that the last of the moves turns, if there is a move.
pub fn last_dir_of(moves: &Vec<Move>) -> (r: Option<Dir>)
    ensures
        r == last_dir(moves@),
{
    if moves.len() == 0 {
        None
    } else {
        Some(moves[moves.len() - 1].dir)
    }
}

/// Whether `last` is a turn of the face `dir`.
pub fn is_dir(last: Option<Dir>, dir: Dir) -> (r: bool)
    ensures
        r == (last == Some(dir)),
{
    match last {
        Some(d) => d == dir,
        None => false,
    }
}

/// If an unsolved state has no candidate solution through any first move,
/// it has none.
#[verifier::spinoff_prover]
#[verifier::rlimit(50)]
pub proof fn lemma_none_within_step<T: Puzzle>(t: T, last: Option<Dir>, n: nat)
    requires
        !t.spec_done(),
        n > 0 ==> forall|m: Move|
            last != Some(m.dir) ==> #[trigger] none_within(
                t.spec_apply(m),
                Some(m.dir),
                (n - 1) as nat,
            ),
    ensures
        none_within(t, last, n),
{
    assert forall|s: Seq<Move>| #[trigger] candidate(s, last, n) implies !solves(t, s) by {
        lemma_apply_unfold(t, s);
        if s.len() > 0 {
            let m = s[0];
            let rest = s.skip(1);
            assert(none_within(t.spec_apply(m), Some(m.dir), (n - 1) as nat));
            assert(reduced(rest)) by {
                assert forall|i: int| 0 < i < rest.len() implies !#[trigger] repeats_face(
                    rest,
                    i,
                ) by {
                    assert(!repeats_face(s, i + 1));
                }
            }
            if rest.len() > 0 {
                assert(!repeats_face(s, 1));
            }
            assert(candidate(rest, Some(m.dir), (n - 1) as nat));
            lemma_apply_front(t, s);
        }
    }
}

/// If the search has found nothing through the moves that it tried before
/// `m`, and through `m` it comes to `rest` first, then it comes to `m` and
/// `rest` first.
pub proof fn lemma_first_within_step<T: Puzzle>(
    t: T,
    last: Option<Dir>,
    n: nat,
    m: Move,
    rest: Seq<Move>,
    d: int,
    a: int,
)
    requires
        !t.spec_done(),
        n > 0,
        dir_index(m.dir) == d,
        amt_index(m.amt) == a,
        forall|x: Move|
            tried(x, d, a) && last != Some(x.dir) ==> #[trigger] none_within(
                t.spec_apply(x),
                Some(x.dir),
                (n - 1) as nat,
            ),
        first_within(t.spec_apply(m), rest, Some(m.dir), (n - 1) as nat),
    ensures
        first_within(t, seq![m] + rest, last, n),
{
    let found = seq![m] + rest;
    assert(found[0] == m);
    assert(found.skip(1) =~= rest);
    assert forall|s: Seq<Move>| #[trigger] candidate(s, last, n) && solves(t, s) implies comes_first(
        found,
        s,
    ) by {
        lemma_apply_unfold(t, s);
        let x = s[0];
        let tail = s.skip(1);
        assert(reduced(tail)) by {
            assert forall|i: int| 0 < i < tail.len() implies !#[trigger] repeats_face(tail, i) by {
                assert(!repeats_face(s, i + 1));
            }
        }
        if tail.len() > 0 {
            assert(!repeats_face(s, 1));
        }
        assert(candidate(tail, Some(x.dir), (n - 1) as nat));
        lemma_apply_front(t, s);
        if tried(x, d, a) {
            assert(none_within(t.spec_apply(x), Some(x.dir), (n - 1) as nat));
        }
    }
}

/// A candidate after a move, with the move put in front, is a candidate
/// of one move more.
pub proof fn lemma_candidate_cons(m: Move, rest: Seq<Move>, last: Option<Dir>, n: nat)
    requires
        n > 0,
        last != Some(m.dir),
        candidate(rest, Some(m.dir), (n - 1) as nat),
    ensures
        candidate(seq![m] + rest, last, n),
{
    let s = seq![m] + rest;
    assert(s[0] == m);
    assert forall|i: int| 0 < i < s.len() implies !#[trigger] repeats_face(s, i) by {
        if i > 1 {
            assert(!repeats_face(rest, i - 1));
            assert(s[i] == rest[i - 1] && s[i - 1] == rest[i - 2]);
        } else {
            assert(s[1] == rest[0]);
        }
    }
}

/// If no reduced sequence of at most `n` moves solves a state, no sequence
/// of at most `n` moves does.
pub proof fn lemma_none_within_all<T: Puzzle>(t: T, n: nat)
    requires
        none_within(t, None, n),
    ensures
        needs(t, n + 1),
{
    assert forall|s: Seq<Move>| #[trigger] solves(t, s) implies n + 1 <= s.len() by {
        let p = normalized(s);
        lemma_normalized_reduced(s);
        lemma_normalized_same(t, s);
        if s.len() <= n {
            assert(candidate(p, None, n));
        }
    }
}

/// Looks for a solution of at most `fuel` moves, depth first, never
/// turning one face twice in a row, nor the face that the last move of
/// `running` turned. The first solution that the search comes to is
/// appended to `running`; where there is none, `running` is left as it was.
#[verifier::spinoff_prover]
#[verifier::rlimit(50)]
pub fn find_solution<T: Puzzle>(arr: T, running: &mut Vec<Move>, fuel: usize) -> (found: bool)
    ensures
        found ==> {
            let n = old(running)@.len() as int;
            &&& n <= final(running)@.len() <= n + fuel
            &&& final(running)@.take(n) == old(running)@
            &&& solves(arr, final(running)@.skip(n))
            &&& candidate(final(running)@.skip(n), last_dir(old(running)@), fuel as nat)
            &&& first_within(arr, final(running)@.skip(n), last_dir(old(running)@), fuel as nat)
        },
        !found ==> final(running)@ == old(running)@ && none_within(
            arr,
            last_dir(old(running)@),
            fuel as nat,
        ),
    decreases fuel,
{
    let ghost start = running@;
    let ghost n = start.len() as int;
    if arr.done() {
        proof {
            assert(running@.skip(n) =~= Seq::<Move>::empty());
            assert(running@.take(n) =~= start);
            lemma_apply_unfold(arr, Seq::<Move>::empty());
        }
        return true;
    }
    let last = last_dir_of(running);
    if fuel == 0 {
        proof {
            lemma_none_within_step(arr, last, 0);
        }
        return false;
    }
    let mut d: usize = 0;
    while d < 3
        invariant
            d <= 3,
            fuel > 0,
            !arr.spec_done(),
            running@ == start,
            start == old(running)@,
            n == start.len(),
            last == last_dir(start),
            forall|m: Move|
                tried(m, d as int, 0) && last != Some(m.dir) ==> #[trigger] none_within(
                    arr.spec_apply(m),
                    Some(m.dir),
                    (fuel - 1) as nat,
                ),
        decreases 3 - d,
    {
        let dir = dir_at(d);
        if !is_dir(last, dir) {
            let mut a: usize = 0;
            while a < 3
                invariant
                    a <= 3,
                    d < 3,
                    fuel > 0,
                    dir_index(dir) == d,
                    last != Some(dir),
                    last == last_dir(start),
                    !arr.spec_done(),
                    running@ == start,
                    start == old(running)@,
                    n == start.len(),
                    forall|m: Move|
                        tried(m, d as int, a as int) && last != Some(m.dir)
                            ==> #[trigger] none_within(
                            arr.spec_apply(m),
                            Some(m.dir),
                            (fuel - 1) as nat,
                        ),
                decreases 3 - a,
            {
                let m = Move { dir, amt: amt_at(a) };
                let moved = arr.apply(m);
                running.push(m);
                let found = find_solution(moved, running, fuel - 1);
                if found {
                    proof {
                        let tail = running@.skip(n);
                        assert(running@.take(n) =~= running@.take(n + 1).take(n));
                        assert(running@.take(n) =~= start);
                        assert(tail[0] == running@.take(n + 1)[n]);
                        assert(tail.skip(1) =~= running@.skip(n + 1));
                        lemma_apply_front(arr, tail);
                        assert(last_dir(start.push(m)) == Some(m.dir));
                        lemma_first_within_step(
                            arr,
                            last,
                            fuel as nat,
                            m,
                            running@.skip(n + 1),
                            d as int,
                            a as int,
                        );
                        assert(tail =~= seq![m] + running@.skip(n + 1));
                        lemma_candidate_cons(m, running@.skip(n + 1), last, fuel as nat);
                    }
                    return true;
                }
                running.pop();
                proof {
                    assert(running@ =~= start);
                    assert(last_dir(start.push(m)) == Some(m.dir));
                }
                a += 1;
            }
        }
        d += 1;
    }
    proof {
        assert forall|m: Move| last != Some(m.dir) implies #[trigger] none_within(
            arr.spec_apply(m),
            Some(m.dir),
            (fuel - 1) as nat,
        ) by {
            assert(tried(m, 3, 0));
        }
        lemma_none_within_step(arr, last, fuel as nat);
    }
    false
}

/// Finds a shortest solution among those of fewer than `max_fuel` moves:
/// it tries the bounds 0, 1, 2 and so on, and the first bound under which
/// the search succeeds is the length of a shortest solution. Of several
/// shortest solutions it gives the one that the search comes to first.
pub fn shortest_solution<T: Puzzle>(arr: T, max_fuel: usize) -> (r: Option<Vec<Move>>)
    ensures
        match r {
            Some(solution) => solution@.len() < max_fuel && optimal(arr, solution@) && reduced(
                solution@,
            ) && first_of_shortest(arr, solution@),
            None => needs(arr, max_fuel as nat),
        },
{
    let mut fuel: usize = 0;
    while fuel < max_fuel
        invariant
            fuel <= max_fuel,
            needs(arr, fuel as nat),
        decreases max_fuel - fuel,
    {
        let mut running: Vec<Move> = Vec::with_capacity(fuel);
        let found = find_solution(arr, &mut running, fuel);
        if found {
            proof {
                assert(running@.skip(0) =~= running@);
                assert forall|s: Seq<Move>| reduced(s) && #[trigger] optimal(arr, s) implies comes_first(
                    running@,
                    s,
                ) by {
                    assert(solves(arr, running@));
                    assert(s.len() <= running@.len());
                    assert(candidate(s, None, fuel as nat));
                }
            }
            return Some(running);
        }
        proof {
            lemma_none_within_all(arr, fuel as nat);
        }
        fuel += 1;
    }
    None
}

} // verus!
