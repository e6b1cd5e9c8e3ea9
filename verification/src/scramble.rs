//! Building cubes cubie by cubie: the scrambles, which construct a cube
//! that is scrambled but can be solved.

use itertools::Itertools;
use rand::rngs::ThreadRng;
use rand::Rng;
use vstd::prelude::*;
use crate::arrangement::{lemma_covers, CubeletOrientation, CubeletOrientationArrangement};
use crate::cube::{
    all_cubies, cubie_row, is_corner, lemma_corner_facts, lemma_table, triple, turns_to, Cube,
    CubeletPos, FBFace, Facelet, LRFace, UDFace,
};

verus! {

/// The slot with the given number: the lower layer first, then the upper
/// one, each from the back left corner round by the front.
pub open spec fn slot_at(i: int) -> CubeletPos {
    if i == 0 {
        CubeletPos::DLB
    } else if i == 1 {
        CubeletPos::DLF
    } else if i == 2 {
        CubeletPos::DRF
    } else if i == 3 {
        CubeletPos::DRB
    } else if i == 4 {
        CubeletPos::ULB
    } else if i == 5 {
        CubeletPos::ULF
    } else if i == 6 {
        CubeletPos::URF
    } else {
        CubeletPos::URB
    }
}

/// The stickers of a cubie read from `k` stickers further on, clockwise;
/// as they are where `k` is not positive.
pub open spec fn turned(t: (Facelet, Facelet, Facelet), k: int) -> (Facelet, Facelet, Facelet) {
    if k <= 0 || k % 3 == 0 {
        t
    } else if k % 3 == 1 {
        (t.1, t.2, t.0)
    } else {
        (t.2, t.0, t.1)
    }
}

impl Cube {
    /// The three stickers at a corner slot, read clockwise from the one on
    /// the upper or lower face.
    pub open spec fn ud_corner(self, slot: CubeletPos) -> (Facelet, Facelet, Facelet) {
        match slot {
            CubeletPos::DLB => (self.d.bl, self.b.dl, self.l.db),
            CubeletPos::DLF => (self.d.fl, self.l.df, self.f.dl),
            CubeletPos::DRF => (self.d.fr, self.f.dr, self.r.df),
            CubeletPos::DRB => (self.d.br, self.r.db, self.b.dr),
            CubeletPos::ULB => (self.u.bl, self.l.ub, self.b.ul),
            CubeletPos::ULF => (self.u.fl, self.f.ul, self.l.uf),
            CubeletPos::URF => (self.u.fr, self.r.uf, self.f.ur),
            CubeletPos::URB => (self.u.br, self.b.ur, self.r.ub),
        }
    }

    /// The cube with the stickers `t` at a corner slot, read clockwise from
    /// the one on the upper or lower face, and all else as it is.
    pub open spec fn spec_put(self, slot: CubeletPos, t: (Facelet, Facelet, Facelet)) -> Cube {
        match slot {
            CubeletPos::DLB => Cube {
                d: UDFace { bl: t.0, ..self.d },
                b: FBFace { dl: t.1, ..self.b },
                l: LRFace { db: t.2, ..self.l },
                ..self
            },
            CubeletPos::DLF => Cube {
                d: UDFace { fl: t.0, ..self.d },
                l: LRFace { df: t.1, ..self.l },
                f: FBFace { dl: t.2, ..self.f },
                ..self
            },
            CubeletPos::DRF => Cube {
                d: UDFace { fr: t.0, ..self.d },
                f: FBFace { dr: t.1, ..self.f },
                r: LRFace { df: t.2, ..self.r },
                ..self
            },
            CubeletPos::DRB => Cube {
                d: UDFace { br: t.0, ..self.d },
                r: LRFace { db: t.1, ..self.r },
                b: FBFace { dr: t.2, ..self.b },
                ..self
            },
            CubeletPos::ULB => Cube {
                u: UDFace { bl: t.0, ..self.u },
                l: LRFace { ub: t.1, ..self.l },
                b: FBFace { ul: t.2, ..self.b },
                ..self
            },
            CubeletPos::ULF => Cube {
                u: UDFace { fl: t.0, ..self.u },
                f: FBFace { ul: t.1, ..self.f },
                l: LRFace { uf: t.2, ..self.l },
                ..self
            },
            CubeletPos::URF => Cube {
                u: UDFace { fr: t.0, ..self.u },
                r: LRFace { uf: t.1, ..self.r },
                f: FBFace { ur: t.2, ..self.f },
                ..self
            },
            CubeletPos::URB => Cube {
                u: UDFace { br: t.0, ..self.u },
                b: FBFace { ur: t.1, ..self.b },
                r: LRFace { ub: t.2, ..self.r },
                ..self
            },
        }
    }

}

impl Cube {
    /// Putting a cubie into the slot DLB changes that corner and no
    /// other.
    pub proof fn lemma_put_dlb(self, t: (Facelet, Facelet, Facelet))
        ensures
            self.spec_put(CubeletPos::DLB, t).ud_corner(CubeletPos::DLB) == t,
            self.spec_put(CubeletPos::DLB, t).ud_corner(CubeletPos::DLF) == self.ud_corner(
                CubeletPos::DLF,
            ),
            self.spec_put(CubeletPos::DLB, t).ud_corner(CubeletPos::DRF) == self.ud_corner(
                CubeletPos::DRF,
            ),
            self.spec_put(CubeletPos::DLB, t).ud_corner(CubeletPos::DRB) == self.ud_corner(
                CubeletPos::DRB,
            ),
            self.spec_put(CubeletPos::DLB, t).ud_corner(CubeletPos::ULB) == self.ud_corner(
                CubeletPos::ULB,
            ),
            self.spec_put(CubeletPos::DLB, t).ud_corner(CubeletPos::ULF) == self.ud_corner(
                CubeletPos::ULF,
            ),
            self.spec_put(CubeletPos::DLB, t).ud_corner(CubeletPos::URF) == self.ud_corner(
                CubeletPos::URF,
            ),
            self.spec_put(CubeletPos::DLB, t).ud_corner(CubeletPos::URB) == self.ud_corner(
                CubeletPos::URB,
            ),
    {
    }

    /// Putting a cubie into the slot DLF changes that corner and no
    /// other.
    pub proof fn lemma_put_dlf(self, t: (Facelet, Facelet, Facelet))
        ensures
            self.spec_put(CubeletPos::DLF, t).ud_corner(CubeletPos::DLF) == t,
            self.spec_put(CubeletPos::DLF, t).ud_corner(CubeletPos::DLB) == self.ud_corner(
                CubeletPos::DLB,
            ),
            self.spec_put(CubeletPos::DLF, t).ud_corner(CubeletPos::DRF) == self.ud_corner(
                CubeletPos::DRF,
            ),
            self.spec_put(CubeletPos::DLF, t).ud_corner(CubeletPos::DRB) == self.ud_corner(
                CubeletPos::DRB,
            ),
            self.spec_put(CubeletPos::DLF, t).ud_corner(CubeletPos::ULB) == self.ud_corner(
                CubeletPos::ULB,
            ),
            self.spec_put(CubeletPos::DLF, t).ud_corner(CubeletPos::ULF) == self.ud_corner(
                CubeletPos::ULF,
            ),
            self.spec_put(CubeletPos::DLF, t).ud_corner(CubeletPos::URF) == self.ud_corner(
                CubeletPos::URF,
            ),
            self.spec_put(CubeletPos::DLF, t).ud_corner(CubeletPos::URB) == self.ud_corner(
                CubeletPos::URB,
            ),
    {
    }

    /// Putting a cubie into the slot DRF changes that corner and no
    /// other.
    pub proof fn lemma_put_drf(self, t: (Facelet, Facelet, Facelet))
        ensures
            self.spec_put(CubeletPos::DRF, t).ud_corner(CubeletPos::DRF) == t,
            self.spec_put(CubeletPos::DRF, t).ud_corner(CubeletPos::DLB) == self.ud_corner(
                CubeletPos::DLB,
            ),
            self.spec_put(CubeletPos::DRF, t).ud_corner(CubeletPos::DLF) == self.ud_corner(
                CubeletPos::DLF,
            ),
            self.spec_put(CubeletPos::DRF, t).ud_corner(CubeletPos::DRB) == self.ud_corner(
                CubeletPos::DRB,
            ),
            self.spec_put(CubeletPos::DRF, t).ud_corner(CubeletPos::ULB) == self.ud_corner(
                CubeletPos::ULB,
            ),
            self.spec_put(CubeletPos::DRF, t).ud_corner(CubeletPos::ULF) == self.ud_corner(
                CubeletPos::ULF,
            ),
            self.spec_put(CubeletPos::DRF, t).ud_corner(CubeletPos::URF) == self.ud_corner(
                CubeletPos::URF,
            ),
            self.spec_put(CubeletPos::DRF, t).ud_corner(CubeletPos::URB) == self.ud_corner(
                CubeletPos::URB,
            ),
    {
    }

    /// Putting a cubie into the slot DRB changes that corner and no
    /// other.
    pub proof fn lemma_put_drb(self, t: (Facelet, Facelet, Facelet))
        ensures
            self.spec_put(CubeletPos::DRB, t).ud_corner(CubeletPos::DRB) == t,
            self.spec_put(CubeletPos::DRB, t).ud_corner(CubeletPos::DLB) == self.ud_corner(
                CubeletPos::DLB,
            ),
            self.spec_put(CubeletPos::DRB, t).ud_corner(CubeletPos::DLF) == self.ud_corner(
                CubeletPos::DLF,
            ),
            self.spec_put(CubeletPos::DRB, t).ud_corner(CubeletPos::DRF) == self.ud_corner(
                CubeletPos::DRF,
            ),
            self.spec_put(CubeletPos::DRB, t).ud_corner(CubeletPos::ULB) == self.ud_corner(
                CubeletPos::ULB,
            ),
            self.spec_put(CubeletPos::DRB, t).ud_corner(CubeletPos::ULF) == self.ud_corner(
                CubeletPos::ULF,
            ),
            self.spec_put(CubeletPos::DRB, t).ud_corner(CubeletPos::URF) == self.ud_corner(
                CubeletPos::URF,
            ),
            self.spec_put(CubeletPos::DRB, t).ud_corner(CubeletPos::URB) == self.ud_corner(
                CubeletPos::URB,
            ),
    {
    }

    /// Putting a cubie into the slot ULB changes that corner and no
    /// other.
    pub proof fn lemma_put_ulb(self, t: (Facelet, Facelet, Facelet))
        ensures
            self.spec_put(CubeletPos::ULB, t).ud_corner(CubeletPos::ULB) == t,
            self.spec_put(CubeletPos::ULB, t).ud_corner(CubeletPos::DLB) == self.ud_corner(
                CubeletPos::DLB,
            ),
            self.spec_put(CubeletPos::ULB, t).ud_corner(CubeletPos::DLF) == self.ud_corner(
                CubeletPos::DLF,
            ),
            self.spec_put(CubeletPos::ULB, t).ud_corner(CubeletPos::DRF) == self.ud_corner(
                CubeletPos::DRF,
            ),
            self.spec_put(CubeletPos::ULB, t).ud_corner(CubeletPos::DRB) == self.ud_corner(
                CubeletPos::DRB,
            ),
            self.spec_put(CubeletPos::ULB, t).ud_corner(CubeletPos::ULF) == self.ud_corner(
                CubeletPos::ULF,
            ),
            self.spec_put(CubeletPos::ULB, t).ud_corner(CubeletPos::URF) == self.ud_corner(
                CubeletPos::URF,
            ),
            self.spec_put(CubeletPos::ULB, t).ud_corner(CubeletPos::URB) == self.ud_corner(
                CubeletPos::URB,
            ),
    {
    }

    /// Putting a cubie into the slot ULF changes that corner and no
    /// other.
    pub proof fn lemma_put_ulf(self, t: (Facelet, Facelet, Facelet))
        ensures
            self.spec_put(CubeletPos::ULF, t).ud_corner(CubeletPos::ULF) == t,
            self.spec_put(CubeletPos::ULF, t).ud_corner(CubeletPos::DLB) == self.ud_corner(
                CubeletPos::DLB,
            ),
            self.spec_put(CubeletPos::ULF, t).ud_corner(CubeletPos::DLF) == self.ud_corner(
                CubeletPos::DLF,
            ),
            self.spec_put(CubeletPos::ULF, t).ud_corner(CubeletPos::DRF) == self.ud_corner(
                CubeletPos::DRF,
            ),
            self.spec_put(CubeletPos::ULF, t).ud_corner(CubeletPos::DRB) == self.ud_corner(
                CubeletPos::DRB,
            ),
            self.spec_put(CubeletPos::ULF, t).ud_corner(CubeletPos::ULB) == self.ud_corner(
                CubeletPos::ULB,
            ),
            self.spec_put(CubeletPos::ULF, t).ud_corner(CubeletPos::URF) == self.ud_corner(
                CubeletPos::URF,
            ),
            self.spec_put(CubeletPos::ULF, t).ud_corner(CubeletPos::URB) == self.ud_corner(
                CubeletPos::URB,
            ),
    {
    }

    /// Putting a cubie into the slot URF changes that corner and no
    /// other.
    pub proof fn lemma_put_urf(self, t: (Facelet, Facelet, Facelet))
        ensures
            self.spec_put(CubeletPos::URF, t).ud_corner(CubeletPos::URF) == t,
            self.spec_put(CubeletPos::URF, t).ud_corner(CubeletPos::DLB) == self.ud_corner(
                CubeletPos::DLB,
            ),
            self.spec_put(CubeletPos::URF, t).ud_corner(CubeletPos::DLF) == self.ud_corner(
                CubeletPos::DLF,
            ),
            self.spec_put(CubeletPos::URF, t).ud_corner(CubeletPos::DRF) == self.ud_corner(
                CubeletPos::DRF,
            ),
            self.spec_put(CubeletPos::URF, t).ud_corner(CubeletPos::DRB) == self.ud_corner(
                CubeletPos::DRB,
            ),
            self.spec_put(CubeletPos::URF, t).ud_corner(CubeletPos::ULB) == self.ud_corner(
                CubeletPos::ULB,
            ),
            self.spec_put(CubeletPos::URF, t).ud_corner(CubeletPos::ULF) == self.ud_corner(
                CubeletPos::ULF,
            ),
            self.spec_put(CubeletPos::URF, t).ud_corner(CubeletPos::URB) == self.ud_corner(
                CubeletPos::URB,
            ),
    {
    }

    /// Putting a cubie into the slot URB changes that corner and no
    /// other.
    pub proof fn lemma_put_urb(self, t: (Facelet, Facelet, Facelet))
        ensures
            self.spec_put(CubeletPos::URB, t).ud_corner(CubeletPos::URB) == t,
            self.spec_put(CubeletPos::URB, t).ud_corner(CubeletPos::DLB) == self.ud_corner(
                CubeletPos::DLB,
            ),
            self.spec_put(CubeletPos::URB, t).ud_corner(CubeletPos::DLF) == self.ud_corner(
                CubeletPos::DLF,
            ),
            self.spec_put(CubeletPos::URB, t).ud_corner(CubeletPos::DRF) == self.ud_corner(
                CubeletPos::DRF,
            ),
            self.spec_put(CubeletPos::URB, t).ud_corner(CubeletPos::DRB) == self.ud_corner(
                CubeletPos::DRB,
            ),
            self.spec_put(CubeletPos::URB, t).ud_corner(CubeletPos::ULB) == self.ud_corner(
                CubeletPos::ULB,
            ),
            self.spec_put(CubeletPos::URB, t).ud_corner(CubeletPos::ULF) == self.ud_corner(
                CubeletPos::ULF,
            ),
            self.spec_put(CubeletPos::URB, t).ud_corner(CubeletPos::URF) == self.ud_corner(
                CubeletPos::URF,
            ),
    {
    }

    /// Putting a cubie into a slot changes that corner and no other.
    pub proof fn lemma_put(self, slot: CubeletPos, t: (Facelet, Facelet, Facelet))
        ensures
            self.spec_put(slot, t).ud_corner(slot) == t,
            forall|other: CubeletPos|
                other != slot ==> #[trigger] self.spec_put(slot, t).ud_corner(other)
                    == self.ud_corner(other),
    {
        match slot {
            CubeletPos::DLB => {
                self.lemma_put_dlb(t);
            },
            CubeletPos::DLF => {
                self.lemma_put_dlf(t);
            },
            CubeletPos::DRF => {
                self.lemma_put_drf(t);
            },
            CubeletPos::DRB => {
                self.lemma_put_drb(t);
            },
            CubeletPos::ULB => {
                self.lemma_put_ulb(t);
            },
            CubeletPos::ULF => {
                self.lemma_put_ulf(t);
            },
            CubeletPos::URF => {
                self.lemma_put_urf(t);
            },
            CubeletPos::URB => {
                self.lemma_put_urb(t);
            },
        }
    }

    /// A cube is known by its eight corners.
    pub proof fn lemma_corners_make_cube(self, other: Cube)
        requires
            forall|i: int| 0 <= i < 8 ==> #[trigger] self.ud_corner(slot_at(i)) == other.ud_corner(
                slot_at(i),
            ),
        ensures
            self == other,
    {
        assert(self.ud_corner(slot_at(0)) == other.ud_corner(slot_at(0)));
        assert(self.ud_corner(slot_at(1)) == other.ud_corner(slot_at(1)));
        assert(self.ud_corner(slot_at(2)) == other.ud_corner(slot_at(2)));
        assert(self.ud_corner(slot_at(3)) == other.ud_corner(slot_at(3)));
        assert(self.ud_corner(slot_at(4)) == other.ud_corner(slot_at(4)));
        assert(self.ud_corner(slot_at(5)) == other.ud_corner(slot_at(5)));
        assert(self.ud_corner(slot_at(6)) == other.ud_corner(slot_at(6)));
        assert(self.ud_corner(slot_at(7)) == other.ud_corner(slot_at(7)));
        assert(self.u == other.u);
        assert(self.d == other.d);
        assert(self.r == other.r);
        assert(self.l == other.l);
        assert(self.f == other.f);
        assert(self.b == other.b);
    }
}

/// Puts a cubie into the slot DLB: its stickers in clockwise order,
/// starting on the bottom.
pub fn put_dlb(cube: &mut Cube, cubie: [Facelet; 3])
    ensures
        *final(cube) == old(cube).spec_put(CubeletPos::DLB, triple(cubie)),
{
    let x = cubie[0];
    let y = cubie[1];
    let z = cubie[2];

    // these must be put in in clockwise order, starting on the bottom
    cube.d.bl = x;
    cube.b.dl = y;
    cube.l.db = z;
}

/// Puts a cubie into the slot DLF: its stickers in clockwise order,
/// starting on the bottom.
pub fn put_dlf(cube: &mut Cube, cubie: [Facelet; 3])
    ensures
        *final(cube) == old(cube).spec_put(CubeletPos::DLF, triple(cubie)),
{
    let x = cubie[0];
    let y = cubie[1];
    let z = cubie[2];

    // these must be put in in clockwise order, starting on the bottom
    cube.d.fl = x;
    cube.l.df = y;
    cube.f.dl = z;
}

/// Puts a cubie into the slot DRF: its stickers in clockwise order,
/// starting on the bottom.
pub fn put_drf(cube: &mut Cube, cubie: [Facelet; 3])
    ensures
        *final(cube) == old(cube).spec_put(CubeletPos::DRF, triple(cubie)),
{
    let x = cubie[0];
    let y = cubie[1];
    let z = cubie[2];

    // these must be put in in clockwise order, starting on the bottom
    cube.d.fr = x;
    cube.f.dr = y;
    cube.r.df = z;
}

/// Puts a cubie into the slot DRB: its stickers in clockwise order,
/// starting on the bottom.
pub fn put_drb(cube: &mut Cube, cubie: [Facelet; 3])
    ensures
        *final(cube) == old(cube).spec_put(CubeletPos::DRB, triple(cubie)),
{
    let x = cubie[0];
    let y = cubie[1];
    let z = cubie[2];

    // these must be put in in clockwise order, starting on the bottom
    cube.d.br = x;
    cube.r.db = y;
    cube.b.dr = z;
}

/// Puts a cubie into the slot ULB: its stickers in clockwise order,
/// starting on the top.
pub fn put_ulb(cube: &mut Cube, cubie: [Facelet; 3])
    ensures
        *final(cube) == old(cube).spec_put(CubeletPos::ULB, triple(cubie)),
{
    let x = cubie[0];
    let y = cubie[1];
    let z = cubie[2];

    // these must be put in in clockwise order, starting on the top
    cube.u.bl = x;
    cube.l.ub = y;
    cube.b.ul = z;
}

/// Puts a cubie into the slot ULF: its stickers in clockwise order,
/// starting on the top.
pub fn put_ulf(cube: &mut Cube, cubie: [Facelet; 3])
    ensures
        *final(cube) == old(cube).spec_put(CubeletPos::ULF, triple(cubie)),
{
    let x = cubie[0];
    let y = cubie[1];
    let z = cubie[2];

    // these must be put in in clockwise order, starting on the top
    cube.u.fl = x;
    cube.f.ul = y;
    cube.l.uf = z;
}

/// Puts a cubie into the slot URF: its stickers in clockwise order,
/// starting on the top.
pub fn put_urf(cube: &mut Cube, cubie: [Facelet; 3])
    ensures
        *final(cube) == old(cube).spec_put(CubeletPos::URF, triple(cubie)),
{
    let x = cubie[0];
    let y = cubie[1];
    let z = cubie[2];

    // these must be put in in clockwise order, starting on the top
    cube.u.fr = x;
    cube.r.uf = y;
    cube.f.ur = z;
}

/// Puts a cubie into the slot URB: its stickers in clockwise order,
/// starting on the top.
pub fn put_urb(cube: &mut Cube, cubie: [Facelet; 3])
    ensures
        *final(cube) == old(cube).spec_put(CubeletPos::URB, triple(cubie)),
{
    let x = cubie[0];
    let y = cubie[1];
    let z = cubie[2];

    // these must be put in in clockwise order, starting on the top
    cube.u.br = x;
    cube.b.ur = y;
    cube.r.ub = z;
}

/// Puts a cubie into the slot with the number `pos_index`, which is from 0
/// to 7. The stickers are given clockwise from the one that belongs on
/// the upper or lower face, and are read from `orientation` stickers
/// further on.
pub fn put_cubie(cube: &mut Cube, pos_index: i32, cubie: [Facelet; 3], orientation: i32)
    requires
        0 <= pos_index < 8,
    ensures
        *final(cube) == old(cube).spec_put(
            slot_at(pos_index as int),
            turned(triple(cubie), orientation as int),
        ),
{
    let ghost given = triple(cubie);
    let mut cubie = cubie;
    let mut i: i32 = 0;
    while i < orientation
        invariant
            0 <= i,
            i <= orientation || orientation < 0,
            orientation < 0 ==> i == 0,
            triple(cubie) == turned(given, i as int),
        decreases orientation - i,
    {
        proof {
            assert((i + 1) % 3 == (if i % 3 == 2 { 0int } else { i % 3 + 1 }));
        }
        cubie = [cubie[1], cubie[2], cubie[0]];
        i += 1;
    }
    assert(triple(cubie) == turned(given, orientation as int));

    if pos_index == 0 {
        put_dlb(cube, cubie)
    } else if pos_index == 1 {
        put_dlf(cube, cubie)
    } else if pos_index == 2 {
        put_drf(cube, cubie)
    } else if pos_index == 3 {
        put_drb(cube, cubie)
    } else if pos_index == 4 {
        put_ulb(cube, cubie)
    } else if pos_index == 5 {
        put_ulf(cube, cubie)
    } else if pos_index == 6 {
        put_urf(cube, cubie)
    } else {
        put_urb(cube, cubie)
    }
}

/// Builds the cube whose lower layer is solved and whose upper layer is
/// scrambled, with every cubie upright: each slot holds the cubie of the
/// same number in the table of all cubies.
pub fn scramble_cll() -> (cube: Cube)
    ensures
        forall|i: int| 0 <= i < 8 ==> cube.ud_corner(slot_at(i)) == #[trigger] cubie_row(i),
{
    let mut my_cube = Cube::make_solved(Facelet::Green, Facelet::Yellow);

    let all_cubies = all_cubies();
    proof {
        assert(triple(all_cubies[0]) == cubie_row(0));
        assert(triple(all_cubies[1]) == cubie_row(1));
        assert(triple(all_cubies[2]) == cubie_row(2));
        assert(triple(all_cubies[3]) == cubie_row(3));
        assert(triple(all_cubies[4]) == cubie_row(4));
        assert(triple(all_cubies[5]) == cubie_row(5));
        assert(triple(all_cubies[6]) == cubie_row(6));
        assert(triple(all_cubies[7]) == cubie_row(7));
    }

    // take specific yellow cubelets to put into the cube
    put_cubie(&mut my_cube, 0, all_cubies[0], 0);
    put_cubie(&mut my_cube, 1, all_cubies[1], 0);
    put_cubie(&mut my_cube, 2, all_cubies[2], 0);
    put_cubie(&mut my_cube, 3, all_cubies[3], 0);

    // then do specific white cubies at the end
    put_cubie(&mut my_cube, 4, all_cubies[4], 0);
    put_cubie(&mut my_cube, 5, all_cubies[5], 0);
    put_cubie(&mut my_cube, 6, all_cubies[6], 0);
    put_cubie(&mut my_cube, 7, all_cubies[7], 0);

    my_cube
}

/// The random number generator of the thread, from the crate `rand`.
#[verifier::external_type_specification]
#[verifier::external_body]
pub struct ExThreadRng(ThreadRng);

/// Calls `rand::thread_rng` for the random number generator of the thread.
/// Nothing is claimed of it.
#[verifier::external_body]
fn thread_rng() -> ThreadRng {
    rand::thread_rng()
}

/// Calls `Rng::gen_range` with the range from `low` up to but not
/// including `high`, which must not be empty. The number that comes back
/// lies in the range; which one it is, is left open.
#[verifier::external_body]
fn gen_range(rng: &mut ThreadRng, low: usize, high: usize) -> (r: usize)
    requires
        low < high,
    ensures
        low <= r < high,
{
    rng.gen_range(low..high)
}

/// Calls `Itertools::permutations` on the numbers below four, for all their
/// orders. There is at least one, and each holds each of the four numbers
/// once.
#[verifier::external_body]
fn permutations_of_four() -> (perms: Vec<Vec<usize>>)
    ensures
        perms@.len() >= 1,
        forall|i: int|
            0 <= i < perms@.len() ==> {
                let p = (#[trigger] perms@[i])@;
                &&& p.len() == 4
                &&& p[0] < 4 && p[1] < 4 && p[2] < 4 && p[3] < 4
                &&& p[0] != p[1] && p[0] != p[2] && p[0] != p[3]
                &&& p[1] != p[2] && p[1] != p[3] && p[2] != p[3]
            },
{
    (0..4usize).permutations(4).collect()
}

impl Cube {
    /// Whether the slot with the number `i` holds a real cubie.
    pub open spec fn real_at(self, i: int) -> bool {
        is_corner(
            self.ud_corner(slot_at(i)).0,
            self.ud_corner(slot_at(i)).1,
            self.ud_corner(slot_at(i)).2,
        )
    }

    /// Whether the slots with numbers below `n` hold real cubies.
    pub open spec fn real_below(self, n: int) -> bool {
        forall|i: int| 0 <= i < n ==> #[trigger] self.real_at(i)
    }

    /// A cube whose eight slots hold real cubies, read from the upper or
    /// lower face, has real cubies read from the left or right face too.
    pub proof fn lemma_real_corners(self)
        requires
            self.real_below(8),
        ensures
            self.corners_ok(),
    {
        assert(self.real_at(0) && self.real_at(1) && self.real_at(2) && self.real_at(3));
        assert(self.real_at(4) && self.real_at(5) && self.real_at(6) && self.real_at(7));
        let a = self.ud_corner(slot_at(0));
        lemma_corner_facts(a.0, a.1, a.2);
        let a = self.ud_corner(slot_at(1));
        lemma_corner_facts(a.0, a.1, a.2);
        let a = self.ud_corner(slot_at(2));
        lemma_corner_facts(a.0, a.1, a.2);
        let a = self.ud_corner(slot_at(3));
        lemma_corner_facts(a.0, a.1, a.2);
        let a = self.ud_corner(slot_at(4));
        lemma_corner_facts(a.0, a.1, a.2);
        let a = self.ud_corner(slot_at(5));
        lemma_corner_facts(a.0, a.1, a.2);
        let a = self.ud_corner(slot_at(6));
        lemma_corner_facts(a.0, a.1, a.2);
        let a = self.ud_corner(slot_at(7));
        lemma_corner_facts(a.0, a.1, a.2);
    }
}

/// Two cubies of the table that are one cubie, however each is read, have
/// one index.
pub proof fn lemma_rows_differ(
    i: int,
    j: int,
    x: (Facelet, Facelet, Facelet),
    y: (Facelet, Facelet, Facelet),
)
    requires
        0 <= i < 8,
        0 <= j < 8,
        turns_to(cubie_row(i), x.0, x.1, x.2),
        turns_to(cubie_row(j), y.0, y.1, y.2),
        turns_to(x, y.0, y.1, y.2),
    ensures
        i == j,
{
}

impl Cube {
    /// Whether the slot with the number `i` holds the cubie at index `id`
    /// of the table of all cubies, twisted in some way.
    pub open spec fn holds_row(self, i: int, id: int) -> bool {
        turns_to(
            cubie_row(id),
            self.ud_corner(slot_at(i)).0,
            self.ud_corner(slot_at(i)).1,
            self.ud_corner(slot_at(i)).2,
        )
    }

    /// Whether the slots with the first numbers hold the cubies at the
    /// given indices of the table, each twisted in some way and none twice.
    pub open spec fn built_of(self, ids: Seq<int>) -> bool {
        &&& distinct_ids(ids)
        &&& forall|i: int|
            0 <= i < ids.len() ==> 0 <= #[trigger] ids[i] < 8 && self.holds_row(i, ids[i])
    }

    /// The corner at a slot, read from the left or right face, is the
    /// corner read from the upper or lower face and turned.
    pub proof fn lemma_readings(self, i: int)
        requires
            0 <= i < 8,
        ensures
            self.corner(slot_at(i)) == lr_reading(i, self.ud_corner(slot_at(i))),
    {
    }

    /// A cube that is built of the eight cubies of the table, each once, is
    /// well-formed.
    #[verifier::spinoff_prover]
    #[verifier::rlimit(50)]
    pub proof fn lemma_built_wf(self, ids: Seq<int>)
        requires
            ids.len() == 8,
            self.built_of(ids),
        ensures
            self.wf(),
    {
        assert forall|i: int| 0 <= i < 8 implies #[trigger] self.real_at(i) by {
            assert(0 <= ids[i] < 8 && self.holds_row(i, ids[i]));
            let row = cubie_row(ids[i]);
            lemma_table(row.0, row.1, row.2);
            assert(is_corner(row.0, row.1, row.2)) by {
                assert(turns_to(cubie_row(ids[i]), row.0, row.1, row.2));
            }
            lemma_corner_facts(row.0, row.1, row.2);
        }
        self.lemma_real_corners();
        assert forall|s: CubeletPos, t: CubeletPos| s != t implies #[trigger] self.corners_differ(
            s,
            t,
        ) by {
            let i = slot_number(s);
            let j = slot_number(t);
            assert(slot_at(i) == s && slot_at(j) == t);
            self.lemma_readings(i);
            self.lemma_readings(j);
            assert(0 <= ids[i] < 8 && self.holds_row(i, ids[i]));
            assert(0 <= ids[j] < 8 && self.holds_row(j, ids[j]));
            if !self.corners_differ(s, t) {
                lemma_rows_differ(
                    ids[i],
                    ids[j],
                    self.ud_corner(slot_at(i)),
                    self.ud_corner(slot_at(j)),
                );
            }
        }
    }

    /// Putting a cubie of the table into the next slot of a cube that is
    /// built of others gives a cube that is built of one more.
    pub proof fn lemma_put_built(self, ids: Seq<int>, id: int, k: int)
        requires
            ids.len() < 8,
            self.built_of(ids),
            0 <= id < 8,
            forall|x: int| 0 <= x < ids.len() ==> #[trigger] ids[x] != id,
        ensures
            self.spec_put(slot_at(ids.len() as int), turned(cubie_row(id), k)).built_of(
                ids.push(id),
            ),
    {
        let n = ids.len() as int;
        let c = self.spec_put(slot_at(n), turned(cubie_row(id), k));
        self.lemma_put(slot_at(n), turned(cubie_row(id), k));
        assert forall|i: int| 0 <= i < n + 1 implies 0 <= #[trigger] ids.push(id)[i] < 8
            && c.holds_row(i, ids.push(id)[i]) by {
            if i < n {
                assert(0 <= ids[i] < 8 && self.holds_row(i, ids[i]));
                assert(slot_at(i) != slot_at(n));
            }
        }
    }
}

/// The number of a slot.
pub open spec fn slot_number(s: CubeletPos) -> int {
    match s {
        CubeletPos::DLB => 0,
        CubeletPos::DLF => 1,
        CubeletPos::DRF => 2,
        CubeletPos::DRB => 3,
        CubeletPos::ULB => 4,
        CubeletPos::ULF => 5,
        CubeletPos::URF => 6,
        CubeletPos::URB => 7,
    }
}

/// The table of all cubies as a list, to take cubies from.
pub fn cubie_list() -> (list: Vec<[Facelet; 3]>)
    ensures
        list@.len() == 8,
        forall|i: int| 0 <= i < 8 ==> triple(#[trigger] list@[i]) == cubie_row(i),
{
    let table = all_cubies();
    let mut list: Vec<[Facelet; 3]> = Vec::new();
    let mut i: usize = 0;
    while i < 8
        invariant
            i <= 8,
            list@.len() == i,
            forall|x: int| 0 <= x < 8 ==> triple(#[trigger] table[x]) == cubie_row(x),
            forall|x: int| 0 <= x < i ==> triple(#[trigger] list@[x]) == cubie_row(x),
        decreases 8 - i,
    {
        assert(triple(table[i as int]) == cubie_row(i as int));
        list.push(table[i]);
        i += 1;
    }
    list
}

/// The twists of the cubies in all slots but the last, in thirds of a turn.
pub open spec fn twists_before_last(arr: CubeletOrientationArrangement) -> nat {
    arr.ulf.spec_thirds() + arr.ulb.spec_thirds() + arr.urf.spec_thirds() + arr.dlf.spec_thirds()
        + arr.dlb.spec_thirds() + arr.drf.spec_thirds() + arr.drb.spec_thirds()
}

/// A cube with a cubie put into the last slot has that cubie there, read
/// from the left or right face, and all other corners as they were.
pub proof fn lemma_put_last_corners(cube: Cube, x: (Facelet, Facelet, Facelet))
    ensures
        cube.spec_put(CubeletPos::URB, x).corner(CubeletPos::URB) == (x.2, x.0, x.1),
        cube.spec_put(CubeletPos::URB, x).corner(CubeletPos::DLB) == cube.corner(CubeletPos::DLB),
        cube.spec_put(CubeletPos::URB, x).corner(CubeletPos::DLF) == cube.corner(CubeletPos::DLF),
        cube.spec_put(CubeletPos::URB, x).corner(CubeletPos::DRF) == cube.corner(CubeletPos::DRF),
        cube.spec_put(CubeletPos::URB, x).corner(CubeletPos::DRB) == cube.corner(CubeletPos::DRB),
        cube.spec_put(CubeletPos::URB, x).corner(CubeletPos::ULB) == cube.corner(CubeletPos::ULB),
        cube.spec_put(CubeletPos::URB, x).corner(CubeletPos::ULF) == cube.corner(CubeletPos::ULF),
        cube.spec_put(CubeletPos::URB, x).corner(CubeletPos::URF) == cube.corner(CubeletPos::URF),
        cube.spec_put(CubeletPos::URB, x).spec_desired() == cube.spec_desired(),
{
}

/// The three ways to read a real cubie give three different twists.
pub proof fn lemma_three_twists_differ(
    des: crate::arrangement::DesiredFaces,
    t: (Facelet, Facelet, Facelet),
)
    requires
        des.wf(),
        is_corner(t.0, t.1, t.2),
    ensures
        des.twist(t.2, t.0, t.1) != des.twist(t.0, t.1, t.2),
        des.twist(t.0, t.1, t.2) != des.twist(t.1, t.2, t.0),
        des.twist(t.2, t.0, t.1) != des.twist(t.1, t.2, t.0),
{
    lemma_corner_facts(t.0, t.1, t.2);
    lemma_covers(des, t.0, t.1, t.2);
}

/// The twists of a cube with a cubie put into the last slot are those of
/// the cube, but for the twist of that cubie.
#[verifier::spinoff_prover]
#[verifier::rlimit(50)]
pub proof fn lemma_put_last_twists(cube: Cube, x: (Facelet, Facelet, Facelet))
    ensures
        cube.spec_put(CubeletPos::URB, x).spec_orr_arr() == (CubeletOrientationArrangement {
            urb: cube.spec_desired().twist(x.2, x.0, x.1),
            ..cube.spec_orr_arr()
        }),
{
    lemma_put_last_corners(cube, x);
    let c = cube.spec_put(CubeletPos::URB, x);
    assert(c.twist_of(CubeletPos::URB) == cube.spec_desired().twist(x.2, x.0, x.1));
    assert(c.twist_of(CubeletPos::DLB) == cube.twist_of(CubeletPos::DLB));
    assert(c.twist_of(CubeletPos::DLF) == cube.twist_of(CubeletPos::DLF));
    assert(c.twist_of(CubeletPos::DRF) == cube.twist_of(CubeletPos::DRF));
    assert(c.twist_of(CubeletPos::DRB) == cube.twist_of(CubeletPos::DRB));
    assert(c.twist_of(CubeletPos::ULB) == cube.twist_of(CubeletPos::ULB));
    assert(c.twist_of(CubeletPos::ULF) == cube.twist_of(CubeletPos::ULF));
    assert(c.twist_of(CubeletPos::URF) == cube.twist_of(CubeletPos::URF));
}

/// Of three different twists in the last slot, one makes the twists of all
/// eight add up to whole turns.
#[verifier::spinoff_prover]
pub proof fn lemma_one_of_three(
    base: CubeletOrientationArrangement,
    a: CubeletOrientation,
    b: CubeletOrientation,
    c: CubeletOrientation,
)
    requires
        base.dlb == CubeletOrientation::OK,
        a != b,
        b != c,
        a != c,
    ensures
        (CubeletOrientationArrangement { urb: a, ..base }).is_solvable()
            || (CubeletOrientationArrangement { urb: b, ..base }).is_solvable()
            || (CubeletOrientationArrangement { urb: c, ..base }).is_solvable(),
{
    reveal(CubeletOrientation::spec_thirds);
    let rest = twists_before_last(base);
    let x = a.spec_thirds();
    let y = b.spec_thirds();
    let z = c.spec_thirds();
    assert(x < 3 && y < 3 && z < 3 && x != y && y != z && x != z);
    assert((CubeletOrientationArrangement { urb: a, ..base }).twist_sum() == rest + x);
    assert((CubeletOrientationArrangement { urb: b, ..base }).twist_sum() == rest + y);
    assert((CubeletOrientationArrangement { urb: c, ..base }).twist_sum() == rest + z);
    assert((rest + x) % 3 == 0 || (rest + y) % 3 == 0 || (rest + z) % 3 == 0);
}

/// Whichever cubie goes into the last slot, one of its three twists makes
/// the twists of all eight add up to whole turns.
#[verifier::spinoff_prover]
#[verifier::rlimit(50)]
pub proof fn lemma_last_twist(cube: Cube, t: (Facelet, Facelet, Facelet))
    requires
        cube.real_at(0),
        is_corner(t.0, t.1, t.2),
    ensures
        exists|k: int|
            0 <= k < 3 && (#[trigger] cube.spec_put(CubeletPos::URB, turned(t, k)))
                .spec_orr_arr().is_solvable(),
{
    let c0 = cube.spec_put(CubeletPos::URB, turned(t, 0));
    let c1 = cube.spec_put(CubeletPos::URB, turned(t, 1));
    let c2 = cube.spec_put(CubeletPos::URB, turned(t, 2));
    lemma_put_last_twists(cube, turned(t, 0));
    lemma_put_last_twists(cube, turned(t, 1));
    lemma_put_last_twists(cube, turned(t, 2));
    let d = cube.ud_corner(CubeletPos::DLB);
    assert(cube.real_at(0));
    lemma_corner_facts(d.0, d.1, d.2);
    let des = cube.spec_desired();
    cube.lemma_frame();
    lemma_three_twists_differ(des, t);
    let base = cube.spec_orr_arr();
    lemma_one_of_three(
        base,
        des.twist(t.2, t.0, t.1),
        des.twist(t.0, t.1, t.2),
        des.twist(t.1, t.2, t.0),
    );
    assert(turned(t, 0) == t);
    assert(turned(t, 1) == (t.1, t.2, t.0));
    assert(turned(t, 2) == (t.2, t.0, t.1));
    if c0.spec_orr_arr().is_solvable() {
    } else if c1.spec_orr_arr().is_solvable() {
    } else {
        assert(c2.spec_orr_arr().is_solvable());
    }
}

/// Puts the last cubie into the last slot, in the first of its three
/// twists that makes the twists of all eight add up to whole turns.
#[verifier::spinoff_prover]
#[verifier::rlimit(50)]
pub fn put_last(cube: &mut Cube, cubie: [Facelet; 3])
    requires
        old(cube).real_at(0),
        is_corner(cubie[0], cubie[1], cubie[2]),
    ensures
        final(cube).spec_orr_arr().is_solvable(),
        exists|k: int|
            0 <= k < 3 && *final(cube) == #[trigger] old(cube).spec_put(
                CubeletPos::URB,
                turned(triple(cubie), k),
            ),
{
    let ghost start = *cube;
    let ghost t = triple(cubie);
    let mut rotation: i32 = 0;
    while rotation < 3
        invariant
            0 <= rotation <= 3,
            t == triple(cubie),
            start == *old(cube),
            forall|i: int| 0 <= i < 7 ==> #[trigger] cube.ud_corner(slot_at(i)) == start.ud_corner(
                slot_at(i),
            ),
            forall|k: int|
                0 <= k < rotation ==> !(#[trigger] start.spec_put(
                    CubeletPos::URB,
                    turned(t, k),
                )).spec_orr_arr().is_solvable(),
        decreases 3 - rotation,
    {
        let ghost before = *cube;
        put_cubie(cube, 7, cubie, rotation);
        proof {
            let piece = turned(t, rotation as int);
            before.lemma_put(CubeletPos::URB, piece);
            start.lemma_put(CubeletPos::URB, piece);
            assert forall|i: int| 0 <= i < 8 implies #[trigger] cube.ud_corner(slot_at(i))
                == start.spec_put(CubeletPos::URB, piece).ud_corner(slot_at(i)) by {
                if i < 7 {
                    assert(slot_at(i) != CubeletPos::URB);
                    assert(before.ud_corner(slot_at(i)) == start.ud_corner(slot_at(i)));
                }
            }
            cube.lemma_corners_make_cube(start.spec_put(CubeletPos::URB, piece));
        }

        if cube.make_orr_arr_from_dlb().is_solvable() {
            return ;
        }
        proof {
            assert forall|i: int| 0 <= i < 7 implies #[trigger] cube.ud_corner(slot_at(i))
                == start.ud_corner(slot_at(i)) by {
                assert(slot_at(i) != CubeletPos::URB);
            }
        }
        rotation += 1;
    }
    proof {
        lemma_last_twist(start, t);
        assert(false);
    }
}

/// Whether no index of the table is in both lists.
pub open spec fn disjoint_ids(a: Seq<int>, b: Seq<int>) -> bool {
    forall|x: int, y: int| 0 <= x < a.len() && 0 <= y < b.len() ==> a[x] != b[y]
}

/// Taking a cubie from the list of those that are left and putting it into
/// the next slot keeps the books in order: the cube is built of one more
/// cubie, and the list holds the others.
pub proof fn lemma_take_and_put(
    before: Cube,
    placed: Seq<int>,
    left: Seq<int>,
    cubies: Seq<[Facelet; 3]>,
    ind: int,
    k: int,
)
    requires
        placed.len() < 8,
        before.built_of(placed),
        listed(cubies, left),
        distinct_ids(left),
        disjoint_ids(left, placed),
        0 <= ind < left.len(),
        0 <= k,
    ensures
        before.spec_put(slot_at(placed.len() as int), turned(triple(cubies[ind]), k)).built_of(
            placed.push(left[ind]),
        ),
        before.spec_put(slot_at(placed.len() as int), turned(triple(cubies[ind]), k)).same_below(
            before,
            placed.len() as int,
        ),
        listed(cubies.remove(ind), left.remove(ind)),
        distinct_ids(left.remove(ind)),
        disjoint_ids(left.remove(ind), placed.push(left[ind])),
{
    let id = left[ind];
    assert(0 <= id < 8 && triple(cubies[ind]) == cubie_row(id));
    assert forall|x: int| 0 <= x < placed.len() implies #[trigger] placed[x] != id by {}
    before.lemma_put_built(placed, id, k);
    before.lemma_put(slot_at(placed.len() as int), turned(cubie_row(id), k));
    let c = before.spec_put(slot_at(placed.len() as int), turned(cubie_row(id), k));
    assert forall|i: int| 0 <= i < placed.len() implies #[trigger] c.ud_corner(slot_at(i))
        == before.ud_corner(slot_at(i)) by {
        assert(slot_at(i) != slot_at(placed.len() as int));
    }
    let new_left = left.remove(ind);
    let new_placed = placed.push(id);
    assert(listed(cubies.remove(ind), new_left));
    assert(distinct_ids(new_left));
    assert forall|x: int, y: int|
        0 <= x < new_left.len() && 0 <= y < new_placed.len() implies new_left[x]
        != new_placed[y] by {
        let x0 = if x < ind {
            x
        } else {
            x + 1
        };
        assert(new_left[x] == left[x0]);
        if y < placed.len() {
            assert(left[x0] != placed[y]);
        } else {
            assert(x0 != ind);
            if x0 < ind {
                assert(left[x0] != left[ind]);
            } else {
                assert(left[ind] != left[x0]);
            }
        }
    }
}

/// Puts the last cubie that is left into the last slot, in the twist that
/// makes the twists of all eight add up to whole turns.
fn finish(
    cube: &mut Cube,
    all_cubies: &mut Vec<[Facelet; 3]>,
    Ghost(placed): Ghost<Seq<int>>,
    Ghost(left): Ghost<Seq<int>>,
)
    requires
        placed.len() == 7,
        old(cube).built_of(placed),
        old(all_cubies)@.len() == 1,
        listed(old(all_cubies)@, left),
        disjoint_ids(left, placed),
    ensures
        final(cube).wf(),
        final(cube).spec_orr_arr().is_solvable(),
        final(cube).same_below(*old(cube), 7),
{
    let cubie = all_cubies.remove(0);
    let ghost before = *cube;
    let ghost id = left[0];
    proof {
        assert(0 <= id < 8 && triple(cubie) == cubie_row(id));
        let row = cubie_row(id);
        lemma_table(row.0, row.1, row.2);
        assert(turns_to(cubie_row(id), row.0, row.1, row.2));
        assert(0 <= placed[0] < 8 && before.holds_row(0, placed[0]));
        let first = cubie_row(placed[0]);
        lemma_table(first.0, first.1, first.2);
        assert(turns_to(cubie_row(placed[0]), first.0, first.1, first.2));
        lemma_corner_facts(first.0, first.1, first.2);
        assert(before.real_at(0));
    }
    put_last(cube, cubie);
    proof {
        let k = choose|k: int|
            0 <= k < 3 && *cube == #[trigger] before.spec_put(
                CubeletPos::URB,
                turned(triple(cubie), k),
            );
        assert forall|x: int| 0 <= x < placed.len() implies #[trigger] placed[x] != id by {}
        before.lemma_put_built(placed, id, k);
        cube.lemma_built_wf(placed.push(id));
        before.lemma_put(CubeletPos::URB, turned(triple(cubie), k));
        assert forall|i: int| 0 <= i < 7 implies #[trigger] cube.ud_corner(slot_at(i))
            == before.ud_corner(slot_at(i)) by {
            assert(slot_at(i) != CubeletPos::URB);
        }
    }
}

/// Builds a cube whose lower layer has its yellow stickers down, all else
/// left to chance.
#[verifier::spinoff_prover]
#[verifier::rlimit(50)]
pub fn scramble_ofl() -> (cube: Cube)
    ensures
        cube.wf(),
        cube.spec_orr_arr().is_solvable(),
        forall|i: int| 0 <= i < 4 ==> (#[trigger] cube.ud_corner(slot_at(i))).0 == Facelet::Yellow,
{
    let mut my_cube = Cube::make_solved(Facelet::Green, Facelet::Yellow);

    let mut all_cubies = cubie_list();

    let mut rng = thread_rng();

    // take random yellow cubelets to put into the cube
    let ghost mut left = Seq::new(8, |x: int| x);
    let ghost mut placed = Seq::<int>::empty();
    let mut i: usize = 0;
    while i < 4
        invariant
            i <= 4,
            all_cubies@.len() == 8 - i,
            listed(all_cubies@, left),
            distinct_ids(left),
            disjoint_ids(left, placed),
            forall|x: int| 0 <= x < 4 - i ==> 0 <= #[trigger] left[x] < 4,
            placed.len() == i,
            my_cube.built_of(placed),
            forall|x: int| 0 <= x < i ==> (#[trigger] my_cube.ud_corner(slot_at(x))).0
                == Facelet::Yellow,
        decreases 4 - i,
    {
        let ind = gen_range(&mut rng, 0, 4 - i);
        let ghost cubies = all_cubies@;
        let cubie = all_cubies.remove(ind);
        let ghost before = my_cube;
        put_cubie(&mut my_cube, i as i32, cubie, 0);
        proof {
            lemma_take_and_put(before, placed, left, cubies, ind as int, 0);
            before.lemma_put(slot_at(i as int), triple(cubie));
            assert(triple(cubie) == cubie_row(left[ind as int]));
            assert forall|x: int| 0 <= x < i + 1 implies (#[trigger] my_cube.ud_corner(
                slot_at(x),
            )).0 == Facelet::Yellow by {
                if x < i {
                    assert(before.ud_corner(slot_at(x)).0 == Facelet::Yellow);
                    assert(slot_at(x) != slot_at(i as int));
                }
            }
            placed = placed.push(left[ind as int]);
            left = left.remove(ind as int);
        }
        i += 1;
    }

    // then do the white cubies at the end
    while i < 7
        invariant
            4 <= i <= 7,
            all_cubies@.len() == 8 - i,
            listed(all_cubies@, left),
            distinct_ids(left),
            disjoint_ids(left, placed),
            placed.len() == i,
            my_cube.built_of(placed),
            forall|x: int| 0 <= x < 4 ==> (#[trigger] my_cube.ud_corner(slot_at(x))).0
                == Facelet::Yellow,
        decreases 7 - i,
    {
        let ind = gen_range(&mut rng, 0, all_cubies.len());
        let ghost cubies = all_cubies@;
        let cubie = all_cubies.remove(ind);

        let rotation = gen_range(&mut rng, 0, 3);

        let ghost before = my_cube;
        put_cubie(&mut my_cube, i as i32, cubie, rotation as i32);
        proof {
            lemma_take_and_put(before, placed, left, cubies, ind as int, rotation as int);
            assert forall|x: int| 0 <= x < 4 implies (#[trigger] my_cube.ud_corner(slot_at(x))).0
                == Facelet::Yellow by {
                assert(before.ud_corner(slot_at(x)).0 == Facelet::Yellow);
                assert(my_cube.ud_corner(slot_at(x)) == before.ud_corner(slot_at(x)));
            }
            placed = placed.push(left[ind as int]);
            left = left.remove(ind as int);
        }
        i += 1;
    }

    let ghost before = my_cube;
    finish(&mut my_cube, &mut all_cubies, Ghost(placed), Ghost(left));
    proof {
        assert forall|x: int| 0 <= x < 4 implies (#[trigger] my_cube.ud_corner(slot_at(x))).0
            == Facelet::Yellow by {
            assert(before.ud_corner(slot_at(x)).0 == Facelet::Yellow);
            assert(my_cube.ud_corner(slot_at(x)) == before.ud_corner(slot_at(x)));
        }
    }
    my_cube
}

/// Builds a cube whose lower layer is solved, all else left to chance.
#[verifier::spinoff_prover]
#[verifier::rlimit(50)]
pub fn scramble_cfl() -> (cube: Cube)
    ensures
        cube.wf(),
        cube.spec_orr_arr().is_solvable(),
        forall|i: int| 0 <= i < 4 ==> cube.ud_corner(slot_at(i)) == #[trigger] cubie_row(i),
{
    let mut my_cube = Cube::make_solved(Facelet::Green, Facelet::Yellow);

    let mut all_cubies = cubie_list();

    let mut rng = thread_rng();

    // take the yellow cubelets in order to put into the cube
    let ghost mut left = Seq::new(8, |x: int| x);
    let ghost mut placed = Seq::<int>::empty();
    let mut i: usize = 0;
    while i < 4
        invariant
            i <= 4,
            all_cubies@.len() == 8 - i,
            listed(all_cubies@, left),
            distinct_ids(left),
            disjoint_ids(left, placed),
            left.len() == 8 - i,
            left[0] == i,
            i < 4 ==> forall|x: int| 0 <= x < 8 - i ==> #[trigger] left[x] == x + i,
            placed.len() == i,
            my_cube.built_of(placed),
            forall|x: int| 0 <= x < i ==> my_cube.ud_corner(slot_at(x)) == #[trigger] cubie_row(x),
        decreases 4 - i,
    {
        let ghost cubies = all_cubies@;
        let cubie = all_cubies.remove(0);
        let ghost before = my_cube;
        put_cubie(&mut my_cube, i as i32, cubie, 0);
        proof {
            lemma_take_and_put(before, placed, left, cubies, 0, 0);
            before.lemma_put(slot_at(i as int), triple(cubie));
            assert(triple(cubie) == cubie_row(left[0]));
            assert forall|x: int| 0 <= x < i + 1 implies my_cube.ud_corner(slot_at(x))
                == #[trigger] cubie_row(x) by {
                if x < i {
                    assert(before.ud_corner(slot_at(x)) == cubie_row(x));
                    assert(slot_at(x) != slot_at(i as int));
                }
            }
            placed = placed.push(left[0]);
            let new_left = left.remove(0);
            assert(new_left[0] == left[1]);
            assert forall|x: int| 0 <= x < 8 - (i + 1) implies #[trigger] new_left[x] == x + (i
                + 1) by {
                assert(new_left[x] == left[x + 1]);
            }
            left = new_left;
        }
        i += 1;
    }

    // then do the white cubies at the end
    while i < 7
        invariant
            4 <= i <= 7,
            all_cubies@.len() == 8 - i,
            listed(all_cubies@, left),
            distinct_ids(left),
            disjoint_ids(left, placed),
            placed.len() == i,
            my_cube.built_of(placed),
            forall|x: int| 0 <= x < 4 ==> my_cube.ud_corner(slot_at(x)) == #[trigger] cubie_row(x),
        decreases 7 - i,
    {
        let ind = gen_range(&mut rng, 0, all_cubies.len());
        let ghost cubies = all_cubies@;
        let cubie = all_cubies.remove(ind);

        let rotation = gen_range(&mut rng, 0, 3);

        let ghost before = my_cube;
        put_cubie(&mut my_cube, i as i32, cubie, rotation as i32);
        proof {
            lemma_take_and_put(before, placed, left, cubies, ind as int, rotation as int);
            assert forall|x: int| 0 <= x < 4 implies my_cube.ud_corner(slot_at(x))
                == #[trigger] cubie_row(x) by {
                assert(before.ud_corner(slot_at(x)) == cubie_row(x));
                assert(my_cube.ud_corner(slot_at(x)) == before.ud_corner(slot_at(x)));
            }
            placed = placed.push(left[ind as int]);
            left = left.remove(ind as int);
        }
        i += 1;
    }

    let ghost before = my_cube;
    finish(&mut my_cube, &mut all_cubies, Ghost(placed), Ghost(left));
    proof {
        assert forall|x: int| 0 <= x < 4 implies my_cube.ud_corner(slot_at(x))
            == #[trigger] cubie_row(x) by {
            assert(before.ud_corner(slot_at(x)) == cubie_row(x));
            assert(my_cube.ud_corner(slot_at(x)) == before.ud_corner(slot_at(x)));
        }
    }
    my_cube
}

/// Builds a cube with all left to chance but this: turns can solve it.
pub fn full_scramble() -> (cube: Cube)
    ensures
        cube.wf(),
        cube.spec_orr_arr().is_solvable(),
{
    let mut my_cube = Cube::make_solved(Facelet::Green, Facelet::White);

    let mut all_cubies = cubie_list();

    let mut rng = thread_rng();

    let ghost mut left = Seq::new(8, |x: int| x);
    let ghost mut placed = Seq::<int>::empty();
    let mut i: usize = 0;
    while i < 7
        invariant
            i <= 7,
            all_cubies@.len() == 8 - i,
            listed(all_cubies@, left),
            distinct_ids(left),
            disjoint_ids(left, placed),
            placed.len() == i,
            my_cube.built_of(placed),
        decreases 7 - i,
    {
        let ind = gen_range(&mut rng, 0, all_cubies.len());
        let ghost cubies = all_cubies@;
        let cubie = all_cubies.remove(ind);

        let rotation = gen_range(&mut rng, 0, 3);

        let ghost before = my_cube;
        put_cubie(&mut my_cube, i as i32, cubie, rotation as i32);
        proof {
            lemma_take_and_put(before, placed, left, cubies, ind as int, rotation as int);
            placed = placed.push(left[ind as int]);
            left = left.remove(ind as int);
        }
        i += 1;
    }

    finish(&mut my_cube, &mut all_cubies, Ghost(placed), Ghost(left));
    my_cube
}

/// How a cubie is read from its sticker on the left or right face, given
/// its reading from the upper or lower face, in the slot with the number
/// `i`.
pub open spec fn lr_reading(
    i: int,
    ud: (Facelet, Facelet, Facelet),
) -> (Facelet, Facelet, Facelet) {
    if i == 0 || i == 2 || i == 5 || i == 7 {
        (ud.2, ud.0, ud.1)
    } else {
        (ud.1, ud.2, ud.0)
    }
}

/// The frame that the cubie sets up that sits at the back, left and bottom
/// with the given reading from the lower face.
pub open spec fn frame_of(ud: (Facelet, Facelet, Facelet)) -> crate::arrangement::DesiredFaces {
    crate::arrangement::DesiredFaces {
        l: ud.2,
        d: ud.0,
        b: ud.1,
        r: ud.2.opposite(),
        u: ud.0.opposite(),
        f: ud.1.opposite(),
    }
}

/// The twist, in thirds of a turn, of the cubie at index `row` of the table
/// where it sits upright in the slot with the number `i`, in the frame of
/// the cubie at index `first` upright at the back, left and bottom.
pub open spec fn upright_twist(first: int, i: int, row: int) -> nat {
    let t = lr_reading(i, cubie_row(row));
    frame_of(cubie_row(first)).twist(t.0, t.1, t.2).spec_thirds()
}

/// The yellow cubies, upright in the lower layer in any order, have twists
/// that add up to whole turns.
#[verifier::spinoff_prover]
pub proof fn lemma_lower_layer(r0: int, r1: int, r2: int, r3: int)
    requires
        0 <= r0 < 4 && 0 <= r1 < 4 && 0 <= r2 < 4 && 0 <= r3 < 4,
        r0 != r1 && r0 != r2 && r0 != r3 && r1 != r2 && r1 != r3 && r2 != r3,
    ensures
        (upright_twist(r0, 0, r0) + upright_twist(r0, 1, r1) + upright_twist(r0, 2, r2)
            + upright_twist(r0, 3, r3)) % 3 == 0,
{
    reveal(CubeletOrientation::spec_thirds);
    lemma_upright_values(r0, 0, r0);
    lemma_upright_values(r0, 1, r1);
    lemma_upright_values(r0, 2, r2);
    lemma_upright_values(r0, 3, r3);
}

/// The white cubies, upright in the upper layer in any order, have twists
/// that add up to whole turns, whichever yellow cubie sets up the frame.
#[verifier::spinoff_prover]
pub proof fn lemma_upper_layer(r0: int, w0: int, w1: int, w2: int, w3: int)
    requires
        0 <= r0 < 4,
        4 <= w0 < 8 && 4 <= w1 < 8 && 4 <= w2 < 8 && 4 <= w3 < 8,
        w0 != w1 && w0 != w2 && w0 != w3 && w1 != w2 && w1 != w3 && w2 != w3,
    ensures
        (upright_twist(r0, 4, w0) + upright_twist(r0, 5, w1) + upright_twist(r0, 6, w2)
            + upright_twist(r0, 7, w3)) % 3 == 0,
{
    lemma_upright_values(r0, 4, w0);
    lemma_upright_values(r0, 5, w1);
    lemma_upright_values(r0, 6, w2);
    lemma_upright_values(r0, 7, w3);
}

/// Whether the cubie at index `row` of the table, read from its second
/// sticker, shows a color of the left-right axis of the frame that the
/// cubie at index `first` sets up.
pub open spec fn second_is_rl(first: int, row: int) -> bool {
    frame_of(cubie_row(first)).on_rl(cubie_row(row).1)
}

/// An upright cubie is untwisted where its sticker of the left-right axis
/// meets the left or right face. That depends on the slot and the cubie
/// alone, and goes by turns: along each layer the slots take turns, and so
/// do the cubies along the table.
#[verifier::spinoff_prover]
#[verifier::rlimit(50)]
pub proof fn lemma_upright_values(first: int, i: int, row: int)
    requires
        0 <= first < 4,
        0 <= i < 8,
        0 <= row < 8,
    ensures
        upright_twist(first, i, row) == (if i == 0 || i == 2 || i == 5 || i == 7 {
            if second_is_rl(first, row) {
                2nat
            } else {
                0nat
            }
        } else {
            if second_is_rl(first, row) {
                0nat
            } else {
                1nat
            }
        }),
        second_is_rl(first, row) == (if row < 4 {
            (row - first) % 2 != 0
        } else {
            (row - first) % 2 == 0
        }),
{
    reveal(CubeletOrientation::spec_thirds);
}

/// Whether no index of the table occurs twice in the list.
pub open spec fn distinct_ids(ids: Seq<int>) -> bool {
    forall|x: int, y: int| 0 <= x < y < ids.len() ==> ids[x] != ids[y]
}

/// Whether the cubies of the list are those at the given indices of the
/// table of all cubies.
pub open spec fn listed(cubies: Seq<[Facelet; 3]>, ids: Seq<int>) -> bool {
    &&& cubies.len() == ids.len()
    &&& forall|x: int|
        0 <= x < ids.len() ==> 0 <= #[trigger] ids[x] < 8 && triple(cubies[x]) == cubie_row(ids[x])
}

impl Cube {
    /// Whether the four slots of the lower layer hold the yellow cubies at
    /// the given indices of the table, upright and none twice.
    pub open spec fn lower_upright(self, ids: Seq<int>) -> bool {
        &&& ids.len() == 4
        &&& distinct_ids(ids)
        &&& forall|i: int|
            0 <= i < 4 ==> 0 <= #[trigger] ids[i] < 4 && self.ud_corner(slot_at(i)) == cubie_row(
                ids[i],
            )
    }

    /// Whether the four slots of the upper layer hold the white cubies at
    /// the given indices of the table, upright and none twice.
    pub open spec fn upper_upright(self, ids: Seq<int>) -> bool {
        &&& ids.len() == 4
        &&& distinct_ids(ids)
        &&& forall|i: int|
            0 <= i < 4 ==> 4 <= #[trigger] ids[i] < 8 && self.ud_corner(slot_at(4 + i))
                == cubie_row(ids[i])
    }

    /// Whether every cubie is upright: yellow down in the lower layer,
    /// white up in the upper one.
    pub open spec fn all_upright(self) -> bool {
        &&& forall|i: int| 0 <= i < 4 ==> (#[trigger] self.ud_corner(slot_at(i))).0
            == Facelet::Yellow
        &&& forall|i: int| 4 <= i < 8 ==> (#[trigger] self.ud_corner(slot_at(i))).0
            == Facelet::White
    }

    /// A cube with the yellow cubies upright in the lower layer and the
    /// white ones upright in the upper layer has real cubies in every slot,
    /// and their twists add up to whole turns.
    #[verifier::spinoff_prover]
    #[verifier::rlimit(50)]
    pub proof fn lemma_upright_solvable(self, lower: Seq<int>, upper: Seq<int>)
        requires
            self.lower_upright(lower),
            self.upper_upright(upper),
        ensures
            self.wf(),
            self.spec_orr_arr().is_solvable(),
            self.all_upright(),
    {
        assert(self.wf()) by {
            let ids = lower + upper;
            assert(distinct_ids(ids)) by {
                assert forall|x: int, y: int| 0 <= x < y < ids.len() implies ids[x] != ids[y] by {
                    if y < 4 {
                        assert(lower[x] != lower[y]);
                    } else if x >= 4 {
                        assert(upper[x - 4] != upper[y - 4]);
                    } else {
                        assert(lower[x] < 4 && upper[y - 4] >= 4);
                    }
                }
            }
            assert forall|i: int| 0 <= i < ids.len() implies 0 <= #[trigger] ids[i] < 8
                && self.holds_row(i, ids[i]) by {
                if i < 4 {
                    assert(0 <= lower[i] < 4);
                    assert(self.ud_corner(slot_at(i)) == cubie_row(lower[i]));
                } else {
                    assert(4 <= upper[i - 4] < 8);
                    assert(self.ud_corner(slot_at(4 + (i - 4))) == cubie_row(upper[i - 4]));
                }
            }
            self.lemma_built_wf(ids);
        }
        assert forall|i: int| 0 <= i < 8 implies #[trigger] self.real_at(i) by {
            let id = if i < 4 {
                lower[i]
            } else {
                upper[i - 4]
            };
            if i < 4 {
                assert(self.ud_corner(slot_at(i)) == cubie_row(lower[i]));
            } else {
                assert(self.ud_corner(slot_at(4 + (i - 4))) == cubie_row(upper[i - 4]));
            }
            let t = cubie_row(id);
            lemma_table(t.0, t.1, t.2);
        }
        self.lemma_real_corners();
        self.lemma_frame();
        lemma_lower_layer(lower[0], lower[1], lower[2], lower[3]);
        lemma_upper_layer(lower[0], upper[0], upper[1], upper[2], upper[3]);
        let first = lower[0];
        assert(self.ud_corner(slot_at(0)) == cubie_row(lower[0]));
        assert(self.ud_corner(slot_at(1)) == cubie_row(lower[1]));
        assert(self.ud_corner(slot_at(2)) == cubie_row(lower[2]));
        assert(self.ud_corner(slot_at(3)) == cubie_row(lower[3]));
        assert(self.ud_corner(slot_at(4 + 0int)) == cubie_row(upper[0]));
        assert(self.ud_corner(slot_at(4 + 1int)) == cubie_row(upper[1]));
        assert(self.ud_corner(slot_at(4 + 2int)) == cubie_row(upper[2]));
        assert(self.ud_corner(slot_at(4 + 3int)) == cubie_row(upper[3]));
        assert(self.spec_desired() == frame_of(cubie_row(first)));
        let o = self.spec_orr_arr();
        assert(o.dlb.spec_thirds() == upright_twist(first, 0, lower[0]));
        assert(o.dlf.spec_thirds() == upright_twist(first, 1, lower[1]));
        assert(o.drf.spec_thirds() == upright_twist(first, 2, lower[2]));
        assert(o.drb.spec_thirds() == upright_twist(first, 3, lower[3]));
        assert(o.ulb.spec_thirds() == upright_twist(first, 4, upper[0]));
        assert(o.ulf.spec_thirds() == upright_twist(first, 5, upper[1]));
        assert(o.urf.spec_thirds() == upright_twist(first, 6, upper[2]));
        assert(o.urb.spec_thirds() == upright_twist(first, 7, upper[3]));
        let low = upright_twist(first, 0, lower[0]) + upright_twist(first, 1, lower[1])
            + upright_twist(first, 2, lower[2]) + upright_twist(first, 3, lower[3]);
        let high = upright_twist(first, 4, upper[0]) + upright_twist(first, 5, upper[1])
            + upright_twist(first, 6, upper[2]) + upright_twist(first, 7, upper[3]);
        assert(o.twist_sum() == low + high);
        assert((low + high) % 3 == 0);
        assert forall|i: int| 0 <= i < 8 implies (#[trigger] self.ud_corner(slot_at(i))).0 == (if i
            < 4 {
            Facelet::Yellow
        } else {
            Facelet::White
        }) by {
            if i < 4 {
                assert(self.ud_corner(slot_at(i)) == cubie_row(lower[i]));
            } else {
                assert(self.ud_corner(slot_at(4 + (i - 4))) == cubie_row(upper[i - 4]));
            }
        }
    }
}

/// Fills the upper layer with the four given white cubies, upright, in the
/// first order in which the twists of all eight cubies add up to whole
/// turns. The lower layer must hold the yellow cubies upright.
#[verifier::spinoff_prover]
#[verifier::rlimit(50)]
fn put_upper_layer(
    cube: &mut Cube,
    scrambled_cubies: &Vec<[Facelet; 3]>,
    Ghost(lower): Ghost<Seq<int>>,
    Ghost(ids): Ghost<Seq<int>>,
)
    requires
        old(cube).lower_upright(lower),
        listed(scrambled_cubies@, ids),
        ids.len() == 4,
        distinct_ids(ids),
        forall|x: int| 0 <= x < 4 ==> 4 <= #[trigger] ids[x] < 8,
    ensures
        final(cube).same_below(*old(cube), 4),
        final(cube).wf(),
        final(cube).spec_orr_arr().is_solvable(),
        final(cube).all_upright(),
{
    // to control the orientation parity problem, we have to arrange them nicely
    // into the top layer; we scramble in advance, then do this
    // deterministically, so we should have an unbiased distribution
    let perms = permutations_of_four();
    let ghost start = *cube;
    let mut n: usize = 0;
    while n < perms.len()
        invariant
            n == 0,
            perms@.len() >= 1,
            *cube == start,
            start == *old(cube),
            start.lower_upright(lower),
            listed(scrambled_cubies@, ids),
            ids.len() == 4,
            distinct_ids(ids),
            forall|x: int| 0 <= x < 4 ==> 4 <= #[trigger] ids[x] < 8,
            forall|i: int|
                0 <= i < perms@.len() ==> {
                    let p = (#[trigger] perms@[i])@;
                    &&& p.len() == 4
                    &&& p[0] < 4 && p[1] < 4 && p[2] < 4 && p[3] < 4
                    &&& p[0] != p[1] && p[0] != p[2] && p[0] != p[3]
                    &&& p[1] != p[2] && p[1] != p[3] && p[2] != p[3]
                },
        decreases perms@.len() - n,
    {
        let perm = &perms[n];
        assert(perm@ == perms@[n as int]@);
        let ghost upper = Seq::new(4, |q: int| ids[perm@[q] as int]);
        let mut q: usize = 0;
        while q < 4
            invariant
                q <= 4,
                perm@.len() == 4,
                perm@[0] < 4 && perm@[1] < 4 && perm@[2] < 4 && perm@[3] < 4,
                listed(scrambled_cubies@, ids),
                ids.len() == 4,
                upper == Seq::new(4, |q: int| ids[perm@[q] as int]),
                cube.same_below(start, 4),
                forall|x: int| 0 <= x < q ==> #[trigger] cube.ud_corner(slot_at(4 + x))
                    == cubie_row(upper[x]),
            decreases 4 - q,
        {
            let cubelet_ind = perm[q];
            let cubie = scrambled_cubies[cubelet_ind];
            let ghost before = *cube;
            put_cubie(cube, (4 + q) as i32, cubie, 0);
            proof {
                before.lemma_put(slot_at(4 + q), triple(cubie));
                assert(triple(cubie) == cubie_row(ids[cubelet_ind as int]));
                assert forall|x: int| 0 <= x < 4 implies #[trigger] cube.ud_corner(slot_at(x))
                    == start.ud_corner(slot_at(x)) by {
                    assert(before.ud_corner(slot_at(x)) == start.ud_corner(slot_at(x)));
                    assert(slot_at(x) != slot_at(4 + q));
                }
                assert forall|x: int| 0 <= x < q + 1 implies #[trigger] cube.ud_corner(
                    slot_at(4 + x),
                ) == cubie_row(upper[x]) by {
                    if x < q {
                        assert(before.ud_corner(slot_at(4 + x)) == cubie_row(upper[x]));
                        assert(slot_at(4 + x) != slot_at(4 + q));
                    }
                }
            }
            q += 1;
        }
        proof {
            assert(cube.lower_upright(lower)) by {
                assert forall|i: int| 0 <= i < 4 implies 0 <= #[trigger] lower[i] < 4
                    && cube.ud_corner(slot_at(i)) == cubie_row(lower[i]) by {
                    assert(cube.ud_corner(slot_at(i)) == start.ud_corner(slot_at(i)));
                }
            }
            assert(cube.upper_upright(upper)) by {
                assert(distinct_ids(upper));
                assert forall|i: int| 0 <= i < 4 implies 4 <= #[trigger] upper[i] < 8
                    && cube.ud_corner(slot_at(4 + i)) == cubie_row(upper[i]) by {}
            }
            cube.lemma_upright_solvable(lower, upper);
        }

        if cube.make_orr_arr_from_dlb().is_solvable() {
            return ;
        }
        n += 1;
    }
}

/// Takes four of the white cubies that are left in the list, by chance.
#[verifier::spinoff_prover]
#[verifier::rlimit(50)]
fn take_upper_layer(
    all_cubies: &mut Vec<[Facelet; 3]>,
    rng: &mut ThreadRng,
    Ghost(ids): Ghost<Seq<int>>,
) -> (r: (Vec<[Facelet; 3]>, Ghost<Seq<int>>))
    requires
        old(all_cubies)@.len() == 4,
        listed(old(all_cubies)@, ids),
        distinct_ids(ids),
        forall|x: int| 0 <= x < 4 ==> 4 <= #[trigger] ids[x] < 8,
    ensures
        listed(r.0@, r.1@),
        r.1@.len() == 4,
        distinct_ids(r.1@),
        forall|x: int| 0 <= x < 4 ==> 4 <= #[trigger] r.1@[x] < 8,
{
    let mut scrambled_cubies: Vec<[Facelet; 3]> = Vec::with_capacity(4);
    let ghost mut left = ids;
    let ghost mut taken = Seq::<int>::empty();
    let mut i: usize = 0;
    while i < 4
        invariant
            i <= 4,
            all_cubies@.len() == 4 - i,
            listed(all_cubies@, left),
            listed(scrambled_cubies@, taken),
            taken.len() == i,
            distinct_ids(left),
            distinct_ids(taken),
            forall|x: int| 0 <= x < left.len() ==> 4 <= #[trigger] left[x] < 8,
            forall|x: int| 0 <= x < taken.len() ==> 4 <= #[trigger] taken[x] < 8,
            forall|x: int, y: int|
                0 <= x < left.len() && 0 <= y < taken.len() ==> left[x] != taken[y],
        decreases 4 - i,
    {
        let ind = gen_range(rng, 0, all_cubies.len());
        let cubie = all_cubies.remove(ind);
        scrambled_cubies.push(cubie);
        proof {
            let id = left[ind as int];
            let new_left = left.remove(ind as int);
            let new_taken = taken.push(id);
            assert(listed(all_cubies@, new_left));
            assert(listed(scrambled_cubies@, new_taken));
            assert(distinct_ids(new_left));
            assert(distinct_ids(new_taken));
            left = new_left;
            taken = new_taken;
        }
        i += 1;
    }
    (scrambled_cubies, Ghost(taken))
}

/// Builds a cube with every cubie upright: yellow down in the lower layer
/// and white up in the upper one, the places in each layer left to chance.
#[verifier::spinoff_prover]
#[verifier::rlimit(50)]
pub fn scramble_oll() -> (cube: Cube)
    ensures
        cube.wf(),
        cube.spec_orr_arr().is_solvable(),
        cube.all_upright(),
{
    let mut my_cube = Cube::make_solved(Facelet::Green, Facelet::Yellow);

    let mut all_cubies = cubie_list();

    let mut rng = thread_rng();

    // take random yellow cubelets to put into the cube
    let ghost mut left = Seq::new(8, |x: int| x);
    let ghost mut lower = Seq::<int>::empty();
    let mut i: usize = 0;
    while i < 4
        invariant
            i <= 4,
            all_cubies@.len() == 8 - i,
            listed(all_cubies@, left),
            distinct_ids(left),
            forall|x: int| 0 <= x < 4 - i ==> 0 <= #[trigger] left[x] < 4,
            forall|x: int| 4 - i <= x < 8 - i ==> 4 <= #[trigger] left[x] < 8,
            lower.len() == i,
            distinct_ids(lower),
            forall|x: int|
                0 <= x < i ==> 0 <= #[trigger] lower[x] < 4 && my_cube.ud_corner(slot_at(x))
                    == cubie_row(lower[x]),
            forall|x: int, y: int|
                0 <= x < left.len() && 0 <= y < lower.len() ==> left[x] != lower[y],
        decreases 4 - i,
    {
        let ind = gen_range(&mut rng, 0, 4 - i);
        let cubie = all_cubies.remove(ind);
        let ghost before = my_cube;
        put_cubie(&mut my_cube, i as i32, cubie, 0);
        proof {
            before.lemma_put(slot_at(i as int), triple(cubie));
            let id = left[ind as int];
            let new_left = left.remove(ind as int);
            let new_lower = lower.push(id);
            assert(listed(all_cubies@, new_left));
            assert(distinct_ids(new_left));
            assert(distinct_ids(new_lower));
            assert forall|x: int| 0 <= x < i + 1 implies 0 <= #[trigger] new_lower[x] < 4
                && my_cube.ud_corner(slot_at(x)) == cubie_row(new_lower[x]) by {
                if x < i {
                    assert(before.ud_corner(slot_at(x)) == cubie_row(lower[x]));
                    assert(slot_at(x) != slot_at(i as int));
                }
            }
            left = new_left;
            lower = new_lower;
        }
        i += 1;
    }

    // then do the white cubies at the end; we'll scramble the order but leave
    // the orientations fixed
    let (scrambled_cubies, Ghost(upper)) = take_upper_layer(
        &mut all_cubies,
        &mut rng,
        Ghost(left),
    );

    put_upper_layer(&mut my_cube, &scrambled_cubies, Ghost(lower), Ghost(upper));
    my_cube
}

/// Builds a cube whose lower layer is solved, and whose upper layer has
/// its white stickers up, with the places in it left to chance.
#[verifier::spinoff_prover]
#[verifier::rlimit(50)]
pub fn scramble_cfl_oll() -> (cube: Cube)
    ensures
        cube.wf(),
        cube.spec_orr_arr().is_solvable(),
        cube.all_upright(),
        forall|i: int| 0 <= i < 4 ==> cube.ud_corner(slot_at(i)) == #[trigger] cubie_row(i),
{
    let mut my_cube = Cube::make_solved(Facelet::Green, Facelet::Yellow);

    let mut all_cubies = cubie_list();

    let mut rng = thread_rng();

    // take specific yellow cubelets to put into the cube, so the bottom is
    // completely perfect
    let ghost mut left = Seq::new(8, |x: int| x);
    let mut i: usize = 0;
    while i < 4
        invariant
            i <= 4,
            all_cubies@.len() == 8 - i,
            listed(all_cubies@, left),
            left == Seq::new((8 - i) as nat, |x: int| x + i),
            forall|x: int| 0 <= x < i ==> my_cube.ud_corner(slot_at(x)) == #[trigger] cubie_row(x),
        decreases 4 - i,
    {
        let cubie = all_cubies.remove(0);
        let ghost before = my_cube;
        put_cubie(&mut my_cube, i as i32, cubie, 0);
        proof {
            before.lemma_put(slot_at(i as int), triple(cubie));
            let new_left = left.remove(0);
            assert(new_left =~= Seq::new((8 - (i + 1)) as nat, |x: int| x + (i + 1)));
            assert(listed(all_cubies@, new_left));
            assert(left[0] == i);
            assert(triple(cubie) == cubie_row(left[0]));
            assert forall|x: int| 0 <= x < i + 1 implies my_cube.ud_corner(slot_at(x))
                == #[trigger] cubie_row(x) by {
                if x < i {
                    assert(before.ud_corner(slot_at(x)) == cubie_row(x));
                    assert(slot_at(x) != slot_at(i as int));
                }
            }
            left = new_left;
        }
        i += 1;
    }
    let ghost lower = Seq::new(4, |x: int| x);
    proof {
        assert(my_cube.lower_upright(lower)) by {
            assert forall|x: int| 0 <= x < 4 implies 0 <= #[trigger] lower[x] < 4
                && my_cube.ud_corner(slot_at(x)) == cubie_row(lower[x]) by {
                assert(my_cube.ud_corner(slot_at(x)) == cubie_row(x));
            }
        }
    }

    // then do the white cubies at the end; we'll scramble the order but leave
    // the orientations fixed
    let (scrambled_cubies, Ghost(upper)) = take_upper_layer(
        &mut all_cubies,
        &mut rng,
        Ghost(left),
    );

    let ghost before = my_cube;
    put_upper_layer(&mut my_cube, &scrambled_cubies, Ghost(lower), Ghost(upper));
    proof {
        assert forall|x: int| 0 <= x < 4 implies my_cube.ud_corner(slot_at(x))
            == #[trigger] cubie_row(x) by {
            assert(before.ud_corner(slot_at(x)) == cubie_row(x));
            assert(my_cube.ud_corner(slot_at(x)) == before.ud_corner(slot_at(x)));
        }
    }
    my_cube
}

} // verus!
