//! The move vocabulary: the three turns the solver uses, the six turns of
//! conventional notation, and what it means to apply them.

use vstd::prelude::*;
use vstd::string::StringExecFns;
use crate::arrangement::{CubeletArrangement, CubeletOrientationArrangement};
use crate::cube::Cube;

verus! {

/// The face a solver move turns. The corner at the back, left and bottom
/// never moves under these three.
#[derive(Copy, Clone, Eq, PartialEq, Structural, Debug)]
pub enum Dir {
    R,
    U,
    F,
}

/// How far a face is turned: a quarter turn clockwise, a half turn, or a
/// quarter turn counter-clockwise.
#[derive(Copy, Clone, Eq, PartialEq, Structural, Debug)]
pub enum Amt {
    One,
    Two,
    Rev,
}

impl Amt {
    /// The number of clockwise quarter turns that make up the amount.
    pub open spec fn quarters(self) -> nat {
        match self {
            Amt::One => 1,
            Amt::Two => 2,
            Amt::Rev => 3,
        }
    }

    /// The amount that undoes this one.
    pub open spec fn spec_reversed(self) -> Amt {
        match self {
            Amt::Two => Amt::Two,
            Amt::One => Amt::Rev,
            Amt::Rev => Amt::One,
        }
    }

    /// The amount that undoes this one: together they make a full turn.
    #[verifier::when_used_as_spec(spec_reversed)]
    pub fn reversed(self) -> (r: Amt)
        ensures
            r == self.spec_reversed(),
            self.quarters() + r.quarters() == 4,
    {
        match self {
            Amt::Two => Amt::Two,
            Amt::One => Amt::Rev,
            Amt::Rev => Amt::One,
        }
    }
}

/// One solver move: a face and how far it is turned.
#[derive(Copy, Clone, Eq, PartialEq, Structural, Debug)]
pub struct Move {
    pub dir: Dir,
    pub amt: Amt,
}

impl Move {
    /// The move that undoes this one.
    pub open spec fn spec_reversed(self) -> Move {
        Move { dir: self.dir, amt: self.amt.reversed() }
    }

    /// The move that undoes this one: the same face, the reversed amount.
    #[verifier::when_used_as_spec(spec_reversed)]
    pub fn reversed(self) -> (r: Move)
        ensures
            r == self.spec_reversed(),
    {
        Move { dir: self.dir, amt: self.amt.reversed() }
    }

    /// The move in writing: the face's letter, then nothing, `2` or `'`.
    pub open spec fn spec_notation(self) -> Seq<char> {
        let face = match self.dir {
            Dir::R => seq!['R'],
            Dir::U => seq!['U'],
            Dir::F => seq!['F'],
        };
        match self.amt {
            Amt::One => face,
            Amt::Two => face.push('2'),
            Amt::Rev => face.push('\''),
        }
    }

    /// Writes the move down: the face's letter, then nothing, `2` or `'`.
    pub fn notation(&self) -> (r: String)
        ensures
            r@ == self.spec_notation(),
    {
        let mut out = String::new();
        proof {
            reveal_strlit("R");
            reveal_strlit("U");
            reveal_strlit("F");
            reveal_strlit("2");
            reveal_strlit("'");
        }
        match self.dir {
            Dir::R => out.append("R"),
            Dir::U => out.append("U"),
            Dir::F => out.append("F"),
        }
        match self.amt {
            Amt::One => {},
            Amt::Two => out.append("2"),
            Amt::Rev => out.append("'"),
        }
        assert(out@ =~= self.spec_notation());
        out
    }
}

/// The sequence that undoes `s`: its moves in reverse order, each reversed.
pub open spec fn reversed_seq(s: Seq<Move>) -> Seq<Move> {
    Seq::new(s.len(), |i: int| s[s.len() - 1 - i].reversed())
}

/// The sequence that undoes `moves`: its moves in reverse order, each
/// reversed.
pub fn reversed(moves: &[Move]) -> (r: Vec<Move>)
    ensures
        r@ == reversed_seq(moves@),
{
    let n = moves.len();
    let mut out: Vec<Move> = Vec::with_capacity(n);
    let mut i: usize = 0;
    while i < n
        invariant
            n == moves@.len(),
            i <= n,
            out@.len() == i,
            forall|k: int| 0 <= k < i ==> out@[k] == (#[trigger] moves@[n - 1 - k]).reversed(),
        decreases n - i,
    {
        out.push(moves[n - 1 - i].reversed());
        i += 1;
    }
    assert(out@ =~= reversed_seq(moves@));
    out
}

/// The move that undoes `m`.
pub fn flip_move(m: Move) -> (r: Move)
    ensures
        r == m.spec_reversed(),
{
    let amt = match m.amt {
        Amt::One => Amt::Rev,
        Amt::Two => Amt::Two,
        Amt::Rev => Amt::One,
    };

    Move { amt, dir: m.dir }
}

/// The sequence that undoes `moves`, as a scramble that `moves` solves.
pub fn flipped(moves: &[Move]) -> (r: Vec<Move>)
    ensures
        r@ == reversed_seq(moves@),
{
    let n = moves.len();
    let mut out: Vec<Move> = Vec::with_capacity(n);
    let mut i: usize = n;
    while i > 0
        invariant
            n == moves@.len(),
            i <= n,
            out@.len() == n - i,
            forall|k: int| 0 <= k < n - i ==> out@[k] == (#[trigger] moves@[n - 1 - k]).reversed(),
        decreases i,
    {
        i -= 1;
        let m = moves[i];
        out.push(flip_move(m));
    }
    assert(out@ =~= reversed_seq(moves@));
    out
}

/// The moves of `s` in writing, with one space between neighbours.
pub open spec fn nice_seq(s: Seq<Move>) -> Seq<char>
    decreases s.len(),
{
    if s.len() == 0 {
        Seq::empty()
    } else if s.len() == 1 {
        s[0].spec_notation()
    } else {
        nice_seq(s.drop_last()) + seq![' '] + s.last().spec_notation()
    }
}

/// Writes a move sequence down, with one space between neighbours and
/// nothing for the empty sequence.
pub fn nice_write(moves: &[Move]) -> (r: String)
    ensures
        r@ == nice_seq(moves@),
{
    if moves.len() == 0 {
        return String::new();
    }
    let mut running = String::new();
    let first = moves[0].notation();
    running.append(first.as_str());
    assert(moves@.take(1) =~= seq![moves@[0]]);
    assert(running@ =~= nice_seq(moves@.take(1)));
    let mut i: usize = 1;
    while i < moves.len()
        invariant
            1 <= i <= moves@.len(),
            running@ == nice_seq(moves@.take(i as int)),
        decreases moves@.len() - i,
    {
        let next = moves[i].notation();
        proof {
            reveal_strlit(" ");
            assert(moves@.take(i + 1).drop_last() =~= moves@.take(i as int));
            assert(" "@ =~= seq![' ']);
        }
        running.append(" ");
        running.append(next.as_str());
        i += 1;
    }
    assert(moves@.take(moves@.len() as int) =~= moves@);
    running
}

/// A puzzle state that the three solver moves act on.
///
/// A half turn is two quarter turns, a counter-clockwise turn is three, and
/// four quarter turns of one face change nothing.
pub trait CanMove: Sized {
    /// The state after the move.
    spec fn spec_apply(self, m: Move) -> Self;

    /// Applies one move.
    fn apply(self, m: Move) -> (r: Self)
        ensures
            r == self.spec_apply(m),
    ;

    /// Applies the moves in order.
    fn apply_many(self, moves: &[Move]) -> (r: Self)
        ensures
            r == moves@.fold_left(self, |t: Self, m: Move| t.spec_apply(m)),
    {
        let ghost start = self;
        let mut running = self;
        let mut i: usize = 0;
        while i < moves.len()
            invariant
                i <= moves@.len(),
                running == moves@.take(i as int).fold_left(start, |t: Self, m: Move| t.spec_apply(m)),
            decreases moves@.len() - i,
        {
            proof {
                assert(moves@.take(i + 1).drop_last() =~= moves@.take(i as int));
            }
            running = running.apply(moves[i]);
            i += 1;
        }
        assert(moves@.take(moves@.len() as int) =~= moves@);
        running
    }

    /// How the three amounts of one face relate.
    proof fn lemma_turns(self, dir: Dir)
        ensures
            self.spec_apply(Move { dir, amt: Amt::Two }) == self.spec_apply(
                Move { dir, amt: Amt::One },
            ).spec_apply(Move { dir, amt: Amt::One }),
            self.spec_apply(Move { dir, amt: Amt::Rev }) == self.spec_apply(
                Move { dir, amt: Amt::One },
            ).spec_apply(Move { dir, amt: Amt::One }).spec_apply(Move { dir, amt: Amt::One }),
            self.spec_apply(Move { dir, amt: Amt::One }).spec_apply(
                Move { dir, amt: Amt::One },
            ).spec_apply(Move { dir, amt: Amt::One }).spec_apply(Move { dir, amt: Amt::One })
                == self,
    ;
}

/// The state after the moves of `s`, applied in order.
pub open spec fn apply_seq<T: CanMove>(t: T, s: Seq<Move>) -> T {
    s.fold_left(t, |t: T, m: Move| t.spec_apply(m))
}

impl CanMove for Cube {
    open spec fn spec_apply(self, m: Move) -> Cube {
        match m.dir {
            Dir::R => match m.amt {
                Amt::One => self.right(),
                Amt::Two => self.right_two(),
                Amt::Rev => self.right_rev(),
            },
            Dir::U => match m.amt {
                Amt::One => self.up(),
                Amt::Two => self.up_two(),
                Amt::Rev => self.up_rev(),
            },
            Dir::F => match m.amt {
                Amt::One => self.front(),
                Amt::Two => self.front_two(),
                Amt::Rev => self.front_rev(),
            },
        }
    }

    fn apply(self, m: Move) -> (r: Cube) {
        match m.dir {
            Dir::R => match m.amt {
                Amt::One => self.right(),
                Amt::Two => self.right_two(),
                Amt::Rev => self.right_rev(),
            },
            Dir::U => match m.amt {
                Amt::One => self.up(),
                Amt::Two => self.up_two(),
                Amt::Rev => self.up_rev(),
            },
            Dir::F => match m.amt {
                Amt::One => self.front(),
                Amt::Two => self.front_two(),
                Amt::Rev => self.front_rev(),
            },
        }
    }

    #[verifier::spinoff_prover]
    proof fn lemma_turns(self, dir: Dir) {
        self.lemma_quarter_turns();
    }
}

impl CanMove for CubeletOrientationArrangement {
    open spec fn spec_apply(self, m: Move) -> CubeletOrientationArrangement {
        match m.dir {
            Dir::R => match m.amt {
                Amt::One => self.r(),
                Amt::Two => self.r_two(),
                Amt::Rev => self.r_rev(),
            },
            Dir::U => match m.amt {
                Amt::One => self.u(),
                Amt::Two => self.u_two(),
                Amt::Rev => self.u_rev(),
            },
            Dir::F => match m.amt {
                Amt::One => self.f(),
                Amt::Two => self.f_two(),
                Amt::Rev => self.f_rev(),
            },
        }
    }

    fn apply(self, m: Move) -> (r: CubeletOrientationArrangement) {
        match m.dir {
            Dir::R => match m.amt {
                Amt::One => self.r(),
                Amt::Two => self.r_two(),
                Amt::Rev => self.r_rev(),
            },
            Dir::U => match m.amt {
                Amt::One => self.u(),
                Amt::Two => self.u_two(),
                Amt::Rev => self.u_rev(),
            },
            Dir::F => match m.amt {
                Amt::One => self.f(),
                Amt::Two => self.f_two(),
                Amt::Rev => self.f_rev(),
            },
        }
    }

    #[verifier::spinoff_prover]
    proof fn lemma_turns(self, dir: Dir) {
        self.lemma_quarter_turns();
    }
}

impl CanMove for CubeletArrangement {
    open spec fn spec_apply(self, m: Move) -> CubeletArrangement {
        match m.dir {
            Dir::R => match m.amt {
                Amt::One => self.r(),
                Amt::Two => self.r_two(),
                Amt::Rev => self.r_rev(),
            },
            Dir::U => match m.amt {
                Amt::One => self.u(),
                Amt::Two => self.u_two(),
                Amt::Rev => self.u_rev(),
            },
            Dir::F => match m.amt {
                Amt::One => self.f(),
                Amt::Two => self.f_two(),
                Amt::Rev => self.f_rev(),
            },
        }
    }

    fn apply(self, m: Move) -> (r: CubeletArrangement) {
        match m.dir {
            Dir::R => match m.amt {
                Amt::One => self.r(),
                Amt::Two => self.r_two(),
                Amt::Rev => self.r_rev(),
            },
            Dir::U => match m.amt {
                Amt::One => self.u(),
                Amt::Two => self.u_two(),
                Amt::Rev => self.u_rev(),
            },
            Dir::F => match m.amt {
                Amt::One => self.f(),
                Amt::Two => self.f_two(),
                Amt::Rev => self.f_rev(),
            },
        }
    }

    #[verifier::spinoff_prover]
    proof fn lemma_turns(self, dir: Dir) {
        self.lemma_quarter_turns();
    }
}

/// The face a move of conventional notation turns.
#[derive(Copy, Clone, Eq, PartialEq, Structural, Debug)]
pub enum FullDir {
    R,
    L,
    F,
    B,
    U,
    D,
}

/// One move of conventional notation: any of the six faces, and how far.
#[derive(Copy, Clone, Eq, PartialEq, Structural, Debug)]
pub struct FullMove(pub FullDir, pub Amt);

/// A puzzle state that all six face turns act on.
pub trait CanFullMove: Sized {
    /// The state after the move.
    spec fn spec_apply_full(self, m: FullMove) -> Self;

    /// Applies one move.
    fn apply_full(self, m: FullMove) -> (r: Self)
        ensures
            r == self.spec_apply_full(m),
    ;

    /// Applies the moves in order.
    fn apply_many_full(self, moves: &[FullMove]) -> (r: Self)
        ensures
            r == moves@.fold_left(self, |t: Self, m: FullMove| t.spec_apply_full(m)),
    {
        let ghost start = self;
        let mut running = self;
        let mut i: usize = 0;
        while i < moves.len()
            invariant
                i <= moves@.len(),
                running == moves@.take(i as int).fold_left(start, |t: Self, m: FullMove| t.spec_apply_full(m)),
            decreases moves@.len() - i,
        {
            proof {
                assert(moves@.take(i + 1).drop_last() =~= moves@.take(i as int));
            }
            running = running.apply_full(moves[i]);
            i += 1;
        }
        assert(moves@.take(moves@.len() as int) =~= moves@);
        running
    }
}

/// The state after the moves of `s`, applied in order.
pub open spec fn apply_full_seq<T: CanFullMove>(t: T, s: Seq<FullMove>) -> T {
    s.fold_left(t, |t: T, m: FullMove| t.spec_apply_full(m))
}

impl CanFullMove for Cube {
    open spec fn spec_apply_full(self, m: FullMove) -> Cube {
        match m.0 {
            FullDir::R => match m.1 {
                Amt::One => self.right(),
                Amt::Two => self.right_two(),
                Amt::Rev => self.right_rev(),
            },
            FullDir::U => match m.1 {
                Amt::One => self.up(),
                Amt::Two => self.up_two(),
                Amt::Rev => self.up_rev(),
            },
            FullDir::F => match m.1 {
                Amt::One => self.front(),
                Amt::Two => self.front_two(),
                Amt::Rev => self.front_rev(),
            },
            FullDir::L => match m.1 {
                Amt::One => self.left(),
                Amt::Two => self.left_two(),
                Amt::Rev => self.left_rev(),
            },
            FullDir::B => match m.1 {
                Amt::One => self.back(),
                Amt::Two => self.back_two(),
                Amt::Rev => self.back_rev(),
            },
            FullDir::D => match m.1 {
                Amt::One => self.down(),
                Amt::Two => self.down_two(),
                Amt::Rev => self.down_rev(),
            },
        }
    }

    fn apply_full(self, m: FullMove) -> (r: Cube) {
        match m.0 {
            FullDir::R => match m.1 {
                Amt::One => self.right(),
                Amt::Two => self.right_two(),
                Amt::Rev => self.right_rev(),
            },
            FullDir::U => match m.1 {
                Amt::One => self.up(),
                Amt::Two => self.up_two(),
                Amt::Rev => self.up_rev(),
            },
            FullDir::F => match m.1 {
                Amt::One => self.front(),
                Amt::Two => self.front_two(),
                Amt::Rev => self.front_rev(),
            },
            FullDir::L => match m.1 {
                Amt::One => self.left(),
                Amt::Two => self.left_two(),
                Amt::Rev => self.left_rev(),
            },
            FullDir::B => match m.1 {
                Amt::One => self.back(),
                Amt::Two => self.back_two(),
                Amt::Rev => self.back_rev(),
            },
            FullDir::D => match m.1 {
                Amt::One => self.down(),
                Amt::Two => self.down_two(),
                Amt::Rev => self.down_rev(),
            },
        }
    }
}

} // verus!
