//! How the cube and its two arrangements go together: taking a cube apart
//! commutes with the solver's moves, so whatever solves the cube solves
//! both arrangements.

use vstd::prelude::*;
use crate::arrangement::{CubeletOrientation, CubeletOrientationArrangement};
use crate::cube::{lemma_corner_facts, Cube, CubeletPos};
use crate::moves::{apply_seq, Amt, CanMove, Dir, Move};
use crate::search::solves;
use crate::sequence::lemma_apply_unfold;

verus! {

impl Cube {
    /// A quarter turn of one of the solver's three faces keeps a
    /// well-formed cube well-formed and its frame in place, and turns both
    /// arrangements along.
    pub proof fn lemma_quarter_commutes(self, dir: Dir)
        requires
            self.wf(),
        ensures
            ({
                let m = Move { dir, amt: Amt::One };
                &&& self.spec_apply(m).wf()
                &&& self.spec_apply(m).spec_desired() == self.spec_desired()
                &&& self.spec_apply(m).spec_pos_arr() == self.spec_pos_arr().spec_apply(m)
                &&& self.spec_apply(m).spec_orr_arr() == self.spec_orr_arr().spec_apply(m)
            }),
    {
        match dir {
            Dir::R => {
                self.lemma_right_wf();
                self.lemma_right_commutes();
            },
            Dir::U => {
                self.lemma_up_wf();
                self.lemma_up_commutes();
            },
            Dir::F => {
                self.lemma_front_wf();
                self.lemma_front_commutes();
            },
        }
    }

    /// A move of the solver keeps a well-formed cube well-formed and its
    /// frame in place, and moves both arrangements along.
    #[verifier::spinoff_prover]
    pub proof fn lemma_move_commutes(self, m: Move)
        requires
            self.wf(),
        ensures
            self.spec_apply(m).wf(),
            self.spec_apply(m).spec_desired() == self.spec_desired(),
            self.spec_apply(m).spec_pos_arr() == self.spec_pos_arr().spec_apply(m),
            self.spec_apply(m).spec_orr_arr() == self.spec_orr_arr().spec_apply(m),
    {
        let q = Move { dir: m.dir, amt: Amt::One };
        let c1 = self.spec_apply(q);
        self.lemma_quarter_commutes(m.dir);
        let p = self.spec_pos_arr();
        let o = self.spec_orr_arr();
        let pos1 = p.spec_apply(q);
        let orr1 = o.spec_apply(q);
        assert(c1.spec_pos_arr() == pos1 && c1.spec_orr_arr() == orr1);
        self.lemma_turns(m.dir);
        p.lemma_turns(m.dir);
        o.lemma_turns(m.dir);
        if m.amt == Amt::One {
            assert(m == q);
        } else {
            let c2 = c1.spec_apply(q);
            c1.lemma_quarter_commutes(m.dir);
            let pos2 = pos1.spec_apply(q);
            let orr2 = orr1.spec_apply(q);
            assert(c2.spec_pos_arr() == pos2 && c2.spec_orr_arr() == orr2);
            if m.amt == Amt::Two {
                assert(m == Move { dir: m.dir, amt: Amt::Two });
                assert(self.spec_apply(m) == c2);
                assert(p.spec_apply(m) == pos2);
                assert(o.spec_apply(m) == orr2);
            } else {
                let c3 = c2.spec_apply(q);
                c2.lemma_quarter_commutes(m.dir);
                assert(m == Move { dir: m.dir, amt: Amt::Rev });
                assert(self.spec_apply(m) == c3);
                assert(p.spec_apply(m) == pos2.spec_apply(q));
                assert(o.spec_apply(m) == orr2.spec_apply(q));
            }
        }
    }

    /// A move sequence of the solver keeps a well-formed cube well-formed
    /// and its frame in place, and moves both arrangements along.
    pub proof fn lemma_seq_commutes(self, s: Seq<Move>)
        requires
            self.wf(),
        ensures
            apply_seq(self, s).wf(),
            apply_seq(self, s).spec_desired() == self.spec_desired(),
            apply_seq(self, s).spec_pos_arr() == apply_seq(self.spec_pos_arr(), s),
            apply_seq(self, s).spec_orr_arr() == apply_seq(self.spec_orr_arr(), s),
        decreases s.len(),
    {
        lemma_apply_unfold(self, s);
        lemma_apply_unfold(self.spec_pos_arr(), s);
        lemma_apply_unfold(self.spec_orr_arr(), s);
        if s.len() > 0 {
            self.lemma_seq_commutes(s.drop_last());
            apply_seq(self, s.drop_last()).lemma_move_commutes(s.last());
        }
    }

    /// In a solved cube every cubie is at home and upright.
    pub proof fn lemma_solved_arrangements(self)
        requires
            self.wf(),
            self.solved(),
        ensures
            self.spec_pos_arr().is_solved(),
            self.spec_orr_arr().is_solved(),
    {
        self.lemma_frame();
        self.lemma_solved_faces();
    }

    /// In a solved cube opposite faces show opposite colors.
    pub proof fn lemma_solved_faces(self)
        requires
            self.wf(),
            self.solved(),
        ensures
            self.u.bl == self.d.bl.opposite(),
            self.r.db == self.l.db.opposite(),
            self.f.dl == self.b.dl.opposite(),
    {
        let a = self.corner(CubeletPos::DLB);
        let b = self.corner(CubeletPos::DLF);
        let c = self.corner(CubeletPos::DRB);
        let d = self.corner(CubeletPos::ULB);
        assert(self.corner_ok(CubeletPos::DLB));
        assert(self.corner_ok(CubeletPos::DLF));
        assert(self.corner_ok(CubeletPos::DRB));
        assert(self.corner_ok(CubeletPos::ULB));
        lemma_corner_facts(a.0, a.1, a.2);
        lemma_corner_facts(b.0, b.1, b.2);
        lemma_corner_facts(c.0, c.1, c.2);
        lemma_corner_facts(d.0, d.1, d.2);
        crate::cube::lemma_corner_third(a.0, a.1);
        crate::cube::lemma_corner_third(a.1, a.2);
        crate::cube::lemma_corner_third(a.2, a.0);
        crate::cube::lemma_corner_third(b.0, b.1);
        crate::cube::lemma_corner_third(b.1, b.2);
        crate::cube::lemma_corner_third(b.2, b.0);
        crate::cube::lemma_corner_third(c.0, c.1);
        crate::cube::lemma_corner_third(c.1, c.2);
        crate::cube::lemma_corner_third(c.2, c.0);
        crate::cube::lemma_corner_third(d.0, d.1);
        crate::cube::lemma_corner_third(d.1, d.2);
        crate::cube::lemma_corner_third(d.2, d.0);
    }

    /// A solved cube is known by its cubie at the back, left and bottom.
    pub proof fn lemma_solved_unique(self, other: Cube)
        requires
            self.wf(),
            self.solved(),
            other.wf(),
            other.solved(),
            self.spec_desired() == other.spec_desired(),
        ensures
            self == other,
    {
        self.lemma_solved_faces();
        other.lemma_solved_faces();
        assert(self.u == other.u);
        assert(self.d == other.d);
        assert(self.r == other.r);
        assert(self.l == other.l);
        assert(self.f == other.f);
        assert(self.b == other.b);
    }

    /// Whatever solves a well-formed cube solves both of its arrangements.
    pub proof fn lemma_solution_projects(self, s: Seq<Move>)
        requires
            self.wf(),
            solves(self, s),
        ensures
            solves(self.spec_pos_arr(), s),
            solves(self.spec_orr_arr(), s),
    {
        self.lemma_seq_commutes(s);
        apply_seq(self, s).lemma_solved_arrangements();
    }
}

/// Every move keeps the sum of the twists a whole number of turns.
pub proof fn lemma_move_keeps_solvable(arr: CubeletOrientationArrangement, m: Move)
    ensures
        arr.spec_apply(m).is_solvable() == arr.is_solvable(),
{
    let t = arr;
    lemma_orientation_r(t);
    lemma_orientation_r(t.spec_r());
    lemma_orientation_r(t.spec_r().spec_r());
    lemma_orientation_u(t);
    lemma_orientation_u(t.spec_u());
    lemma_orientation_u(t.spec_u().spec_u());
    lemma_orientation_f(t);
    lemma_orientation_f(t.spec_f());
    lemma_orientation_f(t.spec_f().spec_f());
}

/// A quarter turn of the right face keeps the sum of the twists.
pub proof fn lemma_orientation_r(arr: CubeletOrientationArrangement)
    ensures
        arr.spec_r().is_solvable() == arr.is_solvable(),
{
}

/// A quarter turn of the upper face keeps the sum of the twists a whole
/// number of turns.
#[verifier::spinoff_prover]
pub proof fn lemma_orientation_u(arr: CubeletOrientationArrangement)
    ensures
        arr.spec_u().is_solvable() == arr.is_solvable(),
{
    crate::arrangement::lemma_twists_cancel(
        arr.ulf,
        arr.ulb,
        arr.urf,
        arr.urb,
        arr.dlf.spec_thirds() + arr.dlb.spec_thirds() + arr.drf.spec_thirds()
            + arr.drb.spec_thirds(),
    );
}

/// A quarter turn of the front face keeps the sum of the twists a whole
/// number of turns.
#[verifier::spinoff_prover]
pub proof fn lemma_orientation_f(arr: CubeletOrientationArrangement)
    ensures
        arr.spec_f().is_solvable() == arr.is_solvable(),
{
    crate::arrangement::lemma_twists_cancel(
        arr.urf,
        arr.drf,
        arr.ulf,
        arr.dlf,
        arr.ulb.spec_thirds() + arr.urb.spec_thirds() + arr.dlb.spec_thirds()
            + arr.drb.spec_thirds(),
    );
}

/// Moves never change whether the twists add up to whole turns. So every
/// arrangement that moves lead to from the solved one has twists that add
/// up to whole turns.
pub proof fn lemma_orientation_invariant(arr: CubeletOrientationArrangement, s: Seq<Move>)
    ensures
        apply_seq(arr, s).is_solvable() == arr.is_solvable(),
        apply_seq(CubeletOrientationArrangement::spec_make_solved(), s).twist_sum() % 3 == 0,
    decreases s.len(),
{
    reveal(CubeletOrientation::spec_thirds);
    let start = CubeletOrientationArrangement::spec_make_solved();
    assert(start.is_solvable());
    lemma_apply_unfold(arr, s);
    lemma_apply_unfold(start, s);
    if s.len() > 0 {
        lemma_orientation_invariant(arr, s.drop_last());
        lemma_orientation_invariant(start, s.drop_last());
        lemma_move_keeps_solvable(apply_seq(arr, s.drop_last()), s.last());
        lemma_move_keeps_solvable(apply_seq(start, s.drop_last()), s.last());
    }
}

/// Whatever the solver's moves make of a well-formed solved cube, the
/// twists of its cubies add up to whole turns.
pub proof fn lemma_reachable_twists(cube: Cube, s: Seq<Move>)
    requires
        cube.wf(),
        cube.solved(),
    ensures
        apply_seq(cube, s).spec_orr_arr().twist_sum() % 3 == 0,
        apply_seq(cube, s).spec_orr_arr().is_solvable(),
{
    cube.lemma_seq_commutes(s);
    cube.lemma_solved_arrangements();
    lemma_orientation_invariant(cube.spec_orr_arr(), s);
}

} // verus!
