//! The two compact pictures of a cube that the heuristics work on: where
//! each cubie belongs, and how each cubie is twisted. Both are taken
//! relative to the cubie at the back, left and bottom, which the solver's
//! moves leave alone.

use vstd::prelude::*;
use crate::cube::{can_meet, is_corner, lemma_corner_facts, turns_to, Cube, CubeletPos, Facelet};

verus! {

impl CubeletPos {
    /// The slot at the given side of each axis: up or down, right or left,
    /// front or back.
    pub open spec fn spec_from_pos(u: bool, r: bool, f: bool) -> CubeletPos {
        if u {
            if r {
                if f { CubeletPos::URF } else { CubeletPos::URB }
            } else {
                if f { CubeletPos::ULF } else { CubeletPos::ULB }
            }
        } else {
            if r {
                if f { CubeletPos::DRF } else { CubeletPos::DRB }
            } else {
                if f { CubeletPos::DLF } else { CubeletPos::DLB }
            }
        }
    }

    /// The slot at the given side of each axis: up or down, right or left,
    /// front or back.
    #[verifier::when_used_as_spec(spec_from_pos)]
    pub fn from_pos(u: bool, r: bool, f: bool) -> (p: CubeletPos)
        ensures
            p == CubeletPos::spec_from_pos(u, r, f),
            p.u() == u,
            p.r() == r,
            p.f() == f,
    {
        match (u, r, f) {
            (true, true, true) => CubeletPos::URF,
            (true, true, false) => CubeletPos::URB,
            (true, false, true) => CubeletPos::ULF,
            (true, false, false) => CubeletPos::ULB,
            (false, true, true) => CubeletPos::DRF,
            (false, true, false) => CubeletPos::DRB,
            (false, false, true) => CubeletPos::DLF,
            (false, false, false) => CubeletPos::DLB,
        }
    }

    /// Whether the slot is in the upper layer.
    pub open spec fn spec_u(&self) -> bool {
        *self == CubeletPos::ULF || *self == CubeletPos::ULB || *self == CubeletPos::URF || *self
            == CubeletPos::URB
    }

    /// Whether the slot is in the upper layer.
    #[verifier::when_used_as_spec(spec_u)]
    pub fn u(&self) -> (r: bool)
        ensures
            r == self.spec_u(),
    {
        match self {
            CubeletPos::ULF => true,
            CubeletPos::ULB => true,
            CubeletPos::URF => true,
            CubeletPos::URB => true,
            CubeletPos::DLF => false,
            CubeletPos::DLB => false,
            CubeletPos::DRF => false,
            CubeletPos::DRB => false,
        }
    }

    /// Whether the slot is in the right layer.
    pub open spec fn spec_r(&self) -> bool {
        *self == CubeletPos::URF || *self == CubeletPos::URB || *self == CubeletPos::DRF || *self
            == CubeletPos::DRB
    }

    /// Whether the slot is in the right layer.
    #[verifier::when_used_as_spec(spec_r)]
    pub fn r(&self) -> (r: bool)
        ensures
            r == self.spec_r(),
    {
        match self {
            CubeletPos::ULF => false,
            CubeletPos::ULB => false,
            CubeletPos::URF => true,
            CubeletPos::URB => true,
            CubeletPos::DLF => false,
            CubeletPos::DLB => false,
            CubeletPos::DRF => true,
            CubeletPos::DRB => true,
        }
    }

    /// Whether the slot is in the front layer.
    pub open spec fn spec_f(&self) -> bool {
        *self == CubeletPos::ULF || *self == CubeletPos::URF || *self == CubeletPos::DLF || *self
            == CubeletPos::DRF
    }

    /// Whether the slot is in the front layer.
    #[verifier::when_used_as_spec(spec_f)]
    pub fn f(&self) -> (r: bool)
        ensures
            r == self.spec_f(),
    {
        match self {
            CubeletPos::ULF => true,
            CubeletPos::ULB => false,
            CubeletPos::URF => true,
            CubeletPos::URB => false,
            CubeletPos::DLF => true,
            CubeletPos::DLB => false,
            CubeletPos::DRF => true,
            CubeletPos::DRB => false,
        }
    }
}

/// The color that each face must show once the cube is solved around the
/// cubie at the back, left and bottom.
#[derive(Clone, Copy, PartialEq, Eq, Structural, Debug)]
pub struct DesiredFaces {
    pub u: Facelet,
    pub d: Facelet,
    pub r: Facelet,
    pub l: Facelet,
    pub f: Facelet,
    pub b: Facelet,
}

impl DesiredFaces {
    /// Opposite faces want opposite colors, and the three axes differ.
    pub open spec fn wf(self) -> bool {
        &&& self.u == self.d.opposite()
        &&& self.r == self.l.opposite()
        &&& self.f == self.b.opposite()
        &&& self.l != self.d && self.l != self.u
        &&& self.l != self.b && self.l != self.f
        &&& self.d != self.b && self.d != self.f
    }

    /// Whether the color belongs on the upper or lower face.
    pub open spec fn on_ud(self, x: Facelet) -> bool {
        x == self.u || x == self.d
    }

    /// Whether the color belongs on the right or left face.
    pub open spec fn on_rl(self, x: Facelet) -> bool {
        x == self.r || x == self.l
    }

    /// Whether the color belongs on the front or back face.
    pub open spec fn on_fb(self, x: Facelet) -> bool {
        x == self.f || x == self.b
    }

    /// Whether the three colors lie on the three axes, one on each.
    pub open spec fn covers(self, a: Facelet, b: Facelet, c: Facelet) -> bool {
        &&& self.on_ud(a) || self.on_ud(b) || self.on_ud(c)
        &&& self.on_rl(a) || self.on_rl(b) || self.on_rl(c)
        &&& self.on_fb(a) || self.on_fb(b) || self.on_fb(c)
    }

    /// The slot where the cubie with these three colors belongs.
    pub open spec fn home(self, a: Facelet, b: Facelet, c: Facelet) -> CubeletPos {
        CubeletPos::spec_from_pos(
            a == self.u || b == self.u || c == self.u,
            a == self.r || b == self.r || c == self.r,
            a == self.f || b == self.f || c == self.f,
        )
    }

    /// How far the cubie with these stickers is twisted, the stickers read
    /// clockwise from the one on the left or right face.
    pub open spec fn twist(self, a: Facelet, b: Facelet, c: Facelet) -> CubeletOrientation {
        if self.on_rl(a) {
            CubeletOrientation::OK
        } else if self.on_rl(b) {
            CubeletOrientation::CW
        } else {
            CubeletOrientation::CCW
        }
    }
}

/// Three colors of which any two can meet lie on the three axes of a
/// frame, one on each.
pub proof fn lemma_covers(des: DesiredFaces, a: Facelet, b: Facelet, c: Facelet)
    requires
        des.wf(),
        can_meet(a, b),
        can_meet(b, c),
        can_meet(c, a),
    ensures
        des.covers(a, b, c),
        des.on_rl(a) || des.on_rl(b) || des.on_rl(c),
        !(des.on_rl(a) && des.on_rl(b)),
        !(des.on_rl(b) && des.on_rl(c)),
        !(des.on_rl(c) && des.on_rl(a)),
{
}

/// Two cubies that belong in one slot are one cubie.
pub proof fn lemma_same_home(
    des: DesiredFaces,
    s: (Facelet, Facelet, Facelet),
    t: (Facelet, Facelet, Facelet),
)
    requires
        des.wf(),
        is_corner(s.0, s.1, s.2),
        is_corner(t.0, t.1, t.2),
        des.home(s.0, s.1, s.2) == des.home(t.0, t.1, t.2),
    ensures
        turns_to(s, t.0, t.1, t.2),
{
    lemma_corner_facts(s.0, s.1, s.2);
    lemma_corner_facts(t.0, t.1, t.2);
    lemma_covers(des, s.0, s.1, s.2);
    lemma_covers(des, t.0, t.1, t.2);
    assert(des.u != des.d && des.r != des.l && des.f != des.b);
    // The two cubies show the same color on each axis.
    let su = if des.on_ud(s.0) { s.0 } else if des.on_ud(s.1) { s.1 } else { s.2 };
    let tu = if des.on_ud(t.0) { t.0 } else if des.on_ud(t.1) { t.1 } else { t.2 };
    assert(su == tu);
    let sr = if des.on_rl(s.0) { s.0 } else if des.on_rl(s.1) { s.1 } else { s.2 };
    let tr = if des.on_rl(t.0) { t.0 } else if des.on_rl(t.1) { t.1 } else { t.2 };
    assert(sr == tr);
    let sf = if des.on_fb(s.0) { s.0 } else if des.on_fb(s.1) { s.1 } else { s.2 };
    let tf = if des.on_fb(t.0) { t.0 } else if des.on_fb(t.1) { t.1 } else { t.2 };
    assert(sf == tf);
}

/// Finds the slot where a cubie belongs, from its three colors in any
/// order. Each axis of `desired_faces` must have one of the colors.
pub fn make_pos_from_dlb(desired_faces: &DesiredFaces, a: Facelet, b: Facelet, c: Facelet) -> (p:
    CubeletPos)
    requires
        desired_faces.wf(),
        desired_faces.covers(a, b, c),
    ensures
        p == desired_faces.home(a, b, c),
{
    let mut u: Option<bool> = None;
    let mut r: Option<bool> = None;
    let mut f: Option<bool> = None;

    let facelets = [a, b, c];
    let mut i: usize = 0;
    while i < 3
        invariant
            i <= 3,
            desired_faces.wf(),
            facelets[0] == a && facelets[1] == b && facelets[2] == c,
            u == found_side(desired_faces.u, desired_faces.d, a, b, c, i as int),
            r == found_side(desired_faces.r, desired_faces.l, a, b, c, i as int),
            f == found_side(desired_faces.f, desired_faces.b, a, b, c, i as int),
        decreases 3 - i,
    {
        let facelet = facelets[i];
        if facelet == desired_faces.u {
            u = Some(true);
        }
        if facelet == desired_faces.d {
            u = Some(false);
        }
        if facelet == desired_faces.r {
            r = Some(true);
        }
        if facelet == desired_faces.l {
            r = Some(false);
        }
        if facelet == desired_faces.f {
            f = Some(true);
        }
        if facelet == desired_faces.b {
            f = Some(false);
        }
        i += 1;
    }

    match (u, r, f) {
        (Some(u), Some(r), Some(f)) => CubeletPos::from_pos(u, r, f),
        _ => CubeletPos::DLB,
    }
}

/// Which side of one axis the first `n` of the colors `a`, `b`, `c` show:
/// the last of them that has the color `hi` or `lo` decides.
pub open spec fn found_side(hi: Facelet, lo: Facelet, a: Facelet, b: Facelet, c: Facelet, n: int) -> Option<bool> {
    if n >= 3 && c == lo {
        Some(false)
    } else if n >= 3 && c == hi {
        Some(true)
    } else if n >= 2 && b == lo {
        Some(false)
    } else if n >= 2 && b == hi {
        Some(true)
    } else if n >= 1 && a == lo {
        Some(false)
    } else if n >= 1 && a == hi {
        Some(true)
    } else {
        None
    }
}

/// How far a cubie is twisted in its slot: whether its sticker of the
/// left-right axis sits on the left or right face, or one step clockwise or
/// counter-clockwise from there.
#[derive(Clone, Copy, PartialEq, Eq, Structural, Debug, Hash)]
pub enum CubeletOrientation {
    OK,
    CW,
    CCW,
}

impl CubeletOrientation {
    /// The twist in thirds of a full clockwise turn.
    #[verifier::opaque]
    pub open spec fn spec_thirds(self) -> nat {
        match self {
            CubeletOrientation::OK => 0,
            CubeletOrientation::CW => 1,
            CubeletOrientation::CCW => 2,
        }
    }

    /// The twist in thirds of a full clockwise turn.
    pub fn thirds(self) -> (n: u8)
        ensures
            n == self.spec_thirds(),
            n <= 2,
    {
        proof {
            reveal(CubeletOrientation::spec_thirds);
        }
        match self {
            CubeletOrientation::OK => 0,
            CubeletOrientation::CW => 1,
            CubeletOrientation::CCW => 2,
        }
    }

    /// The twist one third of a turn further clockwise.
    pub open spec fn spec_cw(self) -> CubeletOrientation {
        match self {
            CubeletOrientation::OK => CubeletOrientation::CW,
            CubeletOrientation::CW => CubeletOrientation::CCW,
            CubeletOrientation::CCW => CubeletOrientation::OK,
        }
    }

    /// The twist one third of a turn further clockwise.
    #[verifier::when_used_as_spec(spec_cw)]
    pub fn cw(self) -> (r: CubeletOrientation)
        ensures
            r == self.spec_cw(),
    {
        proof {
            reveal(CubeletOrientation::spec_thirds);
        }
        match self {
            CubeletOrientation::OK => CubeletOrientation::CW,
            CubeletOrientation::CW => CubeletOrientation::CCW,
            CubeletOrientation::CCW => CubeletOrientation::OK,
        }
    }

    /// The twist one third of a turn further counter-clockwise.
    pub open spec fn spec_ccw(self) -> CubeletOrientation {
        match self {
            CubeletOrientation::OK => CubeletOrientation::CCW,
            CubeletOrientation::CW => CubeletOrientation::OK,
            CubeletOrientation::CCW => CubeletOrientation::CW,
        }
    }

    /// The twist one third of a turn further counter-clockwise.
    #[verifier::when_used_as_spec(spec_ccw)]
    pub fn ccw(self) -> (r: CubeletOrientation)
        ensures
            r == self.spec_ccw(),
    {
        proof {
            reveal(CubeletOrientation::spec_thirds);
        }
        match self {
            CubeletOrientation::OK => CubeletOrientation::CCW,
            CubeletOrientation::CW => CubeletOrientation::OK,
            CubeletOrientation::CCW => CubeletOrientation::CW,
        }
    }
}

/// Finds how far a cubie is twisted, from its three stickers read clockwise
/// from the one on the left or right face.
pub fn make_orr_from_dlb(desired_faces: &DesiredFaces, a: Facelet, b: Facelet, c: Facelet) -> (o:
    CubeletOrientation)
    ensures
        o == desired_faces.twist(a, b, c),
{
    if a == desired_faces.r || a == desired_faces.l {
        CubeletOrientation::OK
    } else if b == desired_faces.r || b == desired_faces.l {
        CubeletOrientation::CW
    } else {
        CubeletOrientation::CCW
    }
}

/// For each corner slot, the slot where the cubie that sits there belongs.
#[derive(Clone, Copy, PartialEq, Eq, Structural, Debug, Hash)]
pub struct CubeletArrangement {
    pub ulf: CubeletPos,
    pub ulb: CubeletPos,
    pub urf: CubeletPos,
    pub urb: CubeletPos,
    pub dlf: CubeletPos,
    pub dlb: CubeletPos,
    pub drf: CubeletPos,
    pub drb: CubeletPos,
}

impl CubeletArrangement {
    /// Whether no two slots hold cubies that belong in one slot.
    pub open spec fn distinct(self) -> bool {
        &&& self.ulf != self.ulb && self.ulf != self.urf && self.ulf != self.urb && self.ulf
            != self.dlf && self.ulf != self.dlb && self.ulf != self.drf && self.ulf != self.drb
        &&& self.ulb != self.urf && self.ulb != self.urb && self.ulb != self.dlf && self.ulb
            != self.dlb && self.ulb != self.drf && self.ulb != self.drb
        &&& self.urf != self.urb && self.urf != self.dlf && self.urf != self.dlb && self.urf
            != self.drf && self.urf != self.drb
        &&& self.urb != self.dlf && self.urb != self.dlb && self.urb != self.drf && self.urb
            != self.drb
        &&& self.dlf != self.dlb && self.dlf != self.drf && self.dlf != self.drb
        &&& self.dlb != self.drf && self.dlb != self.drb
        &&& self.drf != self.drb
    }

    /// A permutation of the eight cubies that leaves the one at the back,
    /// left and bottom in place.
    pub open spec fn wf(self) -> bool {
        self.dlb == CubeletPos::DLB && self.distinct()
    }

    /// Whether the arrangement is a permutation of the eight cubies that
    /// leaves the one at the back, left and bottom in place.
    pub fn is_permutation(&self) -> (r: bool)
        ensures
            r == self.wf(),
    {
        self.dlb == CubeletPos::DLB && self.ulf != self.ulb && self.ulf != self.urf && self.ulf
            != self.urb && self.ulf != self.dlf && self.ulf != self.dlb && self.ulf != self.drf
            && self.ulf != self.drb && self.ulb != self.urf && self.ulb != self.urb && self.ulb
            != self.dlf && self.ulb != self.dlb && self.ulb != self.drf && self.ulb != self.drb
            && self.urf != self.urb && self.urf != self.dlf && self.urf != self.dlb && self.urf
            != self.drf && self.urf != self.drb && self.urb != self.dlf && self.urb != self.dlb
            && self.urb != self.drf && self.urb != self.drb && self.dlf != self.dlb && self.dlf
            != self.drf && self.dlf != self.drb && self.dlb != self.drf && self.dlb != self.drb
            && self.drf != self.drb
    }

    /// The arrangement with every cubie where it belongs.
    pub open spec fn spec_make_solved() -> CubeletArrangement {
        CubeletArrangement {
            ulf: CubeletPos::ULF,
            ulb: CubeletPos::ULB,
            urf: CubeletPos::URF,
            urb: CubeletPos::URB,
            dlf: CubeletPos::DLF,
            dlb: CubeletPos::DLB,
            drf: CubeletPos::DRF,
            drb: CubeletPos::DRB,
        }
    }

    /// The arrangement with every cubie where it belongs.
    #[verifier::when_used_as_spec(spec_make_solved)]
    pub fn make_solved() -> (r: CubeletArrangement)
        ensures
            r == CubeletArrangement::spec_make_solved(),
            r.wf(),
    {
        CubeletArrangement {
            ulf: CubeletPos::ULF,
            ulb: CubeletPos::ULB,
            urf: CubeletPos::URF,
            urb: CubeletPos::URB,
            dlf: CubeletPos::DLF,
            dlb: CubeletPos::DLB,
            drf: CubeletPos::DRF,
            drb: CubeletPos::DRB,
        }
    }

    /// Whether every cubie is where it belongs.
    pub open spec fn spec_is_solved(&self) -> bool {
        *self == CubeletArrangement::spec_make_solved()
    }

    /// Whether every cubie is where it belongs.
    #[verifier::when_used_as_spec(spec_is_solved)]
    pub fn is_solved(&self) -> (r: bool)
        ensures
            r == self.spec_is_solved(),
    {
        *self == CubeletArrangement::make_solved()
    }

    /// Four quarter turns of one face change nothing. So two half turns
    /// change nothing, and a counter-clockwise quarter turn undoes a
    /// clockwise one.
    pub proof fn lemma_quarter_turns(self)
        ensures
            self.r().r().r().r() == self,
            self.u().u().u().u() == self,
            self.f().f().f().f() == self,
            self.r_two().r_two() == self,
            self.u_two().u_two() == self,
            self.f_two().f_two() == self,
            self.r().r_rev() == self && self.r_rev().r() == self,
            self.u().u_rev() == self && self.u_rev().u() == self,
            self.f().f_rev() == self && self.f_rev().f() == self,
    {
    }

    /// The arrangement after a clockwise quarter turn of the right face.
    pub open spec fn spec_r(self) -> CubeletArrangement {
        CubeletArrangement { urf: self.drf, urb: self.urf, drf: self.drb, drb: self.urb, ..self }
    }

    /// Turns the right face a quarter turn clockwise.
    #[verifier::when_used_as_spec(spec_r)]
    pub fn r(self) -> (r: CubeletArrangement)
        ensures
            r == self.spec_r(),
            self.wf() ==> r.wf(),
    {
        let CubeletArrangement { ulf, urf, ulb, urb, dlf, dlb, drf, drb } = self;

        CubeletArrangement { ulf, ulb, dlf, dlb, urf: drf, urb: urf, drf: drb, drb: urb }
    }

    /// The arrangement after a half turn of the right face.
    pub open spec fn spec_r_two(self) -> CubeletArrangement {
        self.r().r()
    }

    /// Turns the right face a half turn.
    #[verifier::when_used_as_spec(spec_r_two)]
    pub fn r_two(self) -> (r: CubeletArrangement)
        ensures
            r == self.spec_r_two(),
            self.wf() ==> r.wf(),
    {
        self.r().r()
    }

    /// The arrangement after a counter-clockwise quarter turn of the right
    /// face.
    pub open spec fn spec_r_rev(self) -> CubeletArrangement {
        self.r().r().r()
    }

    /// Turns the right face a quarter turn counter-clockwise.
    #[verifier::when_used_as_spec(spec_r_rev)]
    pub fn r_rev(self) -> (r: CubeletArrangement)
        ensures
            r == self.spec_r_rev(),
            self.wf() ==> r.wf(),
    {
        self.r().r().r()
    }

    /// The arrangement after a clockwise quarter turn of the upper face.
    pub open spec fn spec_u(self) -> CubeletArrangement {
        CubeletArrangement { ulf: self.urf, urf: self.urb, urb: self.ulb, ulb: self.ulf, ..self }
    }

    /// Turns the upper face a quarter turn clockwise.
    #[verifier::when_used_as_spec(spec_u)]
    pub fn u(self) -> (r: CubeletArrangement)
        ensures
            r == self.spec_u(),
            self.wf() ==> r.wf(),
    {
        let CubeletArrangement { ulf, urf, ulb, urb, dlf, dlb, drf, drb } = self;

        CubeletArrangement { dlf, drf, dlb, drb, ulf: urf, urf: urb, urb: ulb, ulb: ulf }
    }

    /// The arrangement after a half turn of the upper face.
    pub open spec fn spec_u_two(self) -> CubeletArrangement {
        self.u().u()
    }

    /// Turns the upper face a half turn.
    #[verifier::when_used_as_spec(spec_u_two)]
    pub fn u_two(self) -> (r: CubeletArrangement)
        ensures
            r == self.spec_u_two(),
            self.wf() ==> r.wf(),
    {
        self.u().u()
    }

    /// The arrangement after a counter-clockwise quarter turn of the upper
    /// face.
    pub open spec fn spec_u_rev(self) -> CubeletArrangement {
        self.u().u().u()
    }

    /// Turns the upper face a quarter turn counter-clockwise.
    #[verifier::when_used_as_spec(spec_u_rev)]
    pub fn u_rev(self) -> (r: CubeletArrangement)
        ensures
            r == self.spec_u_rev(),
            self.wf() ==> r.wf(),
    {
        self.u().u().u()
    }

    /// The arrangement after a clockwise quarter turn of the front face.
    pub open spec fn spec_f(self) -> CubeletArrangement {
        CubeletArrangement { ulf: self.dlf, dlf: self.drf, drf: self.urf, urf: self.ulf, ..self }
    }

    /// Turns the front face a quarter turn clockwise.
    #[verifier::when_used_as_spec(spec_f)]
    pub fn f(self) -> (r: CubeletArrangement)
        ensures
            r == self.spec_f(),
            self.wf() ==> r.wf(),
    {
        let CubeletArrangement { ulf, urf, ulb, urb, dlf, dlb, drf, drb } = self;

        CubeletArrangement { ulb, urb, dlb, drb, ulf: dlf, dlf: drf, drf: urf, urf: ulf }
    }

    /// The arrangement after a half turn of the front face.
    pub open spec fn spec_f_two(self) -> CubeletArrangement {
        self.f().f()
    }

    /// Turns the front face a half turn.
    #[verifier::when_used_as_spec(spec_f_two)]
    pub fn f_two(self) -> (r: CubeletArrangement)
        ensures
            r == self.spec_f_two(),
            self.wf() ==> r.wf(),
    {
        self.f().f()
    }

    /// The arrangement after a counter-clockwise quarter turn of the front
    /// face.
    pub open spec fn spec_f_rev(self) -> CubeletArrangement {
        self.f().f().f()
    }

    /// Turns the front face a quarter turn counter-clockwise.
    #[verifier::when_used_as_spec(spec_f_rev)]
    pub fn f_rev(self) -> (r: CubeletArrangement)
        ensures
            r == self.spec_f_rev(),
            self.wf() ==> r.wf(),
    {
        self.f().f().f()
    }
}

/// Twisting two cubies clockwise and two counter-clockwise leaves the sum
/// of the four twists, counted in whole turns, as it was.
pub proof fn lemma_twists_cancel(
    a: CubeletOrientation,
    b: CubeletOrientation,
    c: CubeletOrientation,
    d: CubeletOrientation,
    rest: nat,
)
    ensures
        (a.spec_cw().spec_thirds() + b.spec_ccw().spec_thirds() + c.spec_ccw().spec_thirds()
            + d.spec_cw().spec_thirds() + rest) % 3 == (a.spec_thirds() + b.spec_thirds()
            + c.spec_thirds() + d.spec_thirds() + rest) % 3,
{
    reveal(CubeletOrientation::spec_thirds);
    let x = a.spec_cw().spec_thirds() + d.spec_cw().spec_thirds() - a.spec_thirds()
        - d.spec_thirds();
    let y = b.spec_ccw().spec_thirds() + c.spec_ccw().spec_thirds() - b.spec_thirds()
        - c.spec_thirds();
    assert(x == 2 || x == -1 || x == -4);
    assert(y == 4 || y == 1 || y == -2);
    let old_sum = a.spec_thirds() + b.spec_thirds() + c.spec_thirds() + d.spec_thirds() + rest;
    let k = x + y;
    assert(k == 6 || k == 3 || k == 0 || k == -3 || k == -6);
    assert((old_sum + k) % 3 == old_sum % 3);
}

/// For each corner slot, how far the cubie that sits there is twisted.
#[derive(Clone, Copy, PartialEq, Eq, Structural, Debug, Hash)]
pub struct CubeletOrientationArrangement {
    pub ulf: CubeletOrientation,
    pub ulb: CubeletOrientation,
    pub urf: CubeletOrientation,
    pub urb: CubeletOrientation,
    pub dlf: CubeletOrientation,
    pub dlb: CubeletOrientation,
    pub drf: CubeletOrientation,
    pub drb: CubeletOrientation,
}

impl CubeletOrientationArrangement {
    /// The arrangement with no cubie twisted.
    pub open spec fn spec_make_solved() -> CubeletOrientationArrangement {
        CubeletOrientationArrangement {
            ulf: CubeletOrientation::OK,
            ulb: CubeletOrientation::OK,
            urf: CubeletOrientation::OK,
            urb: CubeletOrientation::OK,
            dlf: CubeletOrientation::OK,
            dlb: CubeletOrientation::OK,
            drf: CubeletOrientation::OK,
            drb: CubeletOrientation::OK,
        }
    }

    /// The arrangement with no cubie twisted.
    #[verifier::when_used_as_spec(spec_make_solved)]
    pub fn make_solved() -> (r: CubeletOrientationArrangement)
        ensures
            r == CubeletOrientationArrangement::spec_make_solved(),
            r.is_solvable(),
    {
        proof {
            reveal(CubeletOrientation::spec_thirds);
        }
        CubeletOrientationArrangement {
            ulf: CubeletOrientation::OK,
            ulb: CubeletOrientation::OK,
            urf: CubeletOrientation::OK,
            urb: CubeletOrientation::OK,
            dlf: CubeletOrientation::OK,
            dlb: CubeletOrientation::OK,
            drf: CubeletOrientation::OK,
            drb: CubeletOrientation::OK,
        }
    }

    /// Whether no cubie is twisted.
    pub open spec fn spec_is_solved(&self) -> bool {
        *self == CubeletOrientationArrangement::spec_make_solved()
    }

    /// Whether no cubie is twisted.
    #[verifier::when_used_as_spec(spec_is_solved)]
    pub fn is_solved(&self) -> (r: bool)
        ensures
            r == self.spec_is_solved(),
    {
        *self == CubeletOrientationArrangement::make_solved()
    }

    /// The twists of all eight cubies together, in thirds of a full
    /// clockwise turn.
    pub open spec fn twist_sum(self) -> nat {
        self.ulf.spec_thirds() + self.ulb.spec_thirds() + self.urf.spec_thirds()
            + self.urb.spec_thirds() + self.dlf.spec_thirds() + self.dlb.spec_thirds()
            + self.drf.spec_thirds() + self.drb.spec_thirds()
    }

    /// Adds up the twists of all eight cubies, in thirds of a full clockwise
    /// turn.
    #[verifier::spinoff_prover]
    pub fn twist_total(&self) -> (n: u8)
        ensures
            n == self.twist_sum(),
            n <= 16,
    {
        let ulf = self.ulf.thirds();
        let ulb = self.ulb.thirds();
        let urf = self.urf.thirds();
        let urb = self.urb.thirds();
        let upper: u8 = ulf + ulb + urf + urb;
        let dlf = self.dlf.thirds();
        let dlb = self.dlb.thirds();
        let drf = self.drf.thirds();
        let drb = self.drb.thirds();
        let lower: u8 = dlf + dlb + drf + drb;
        assert(upper == self.ulf.spec_thirds() + self.ulb.spec_thirds() + self.urf.spec_thirds()
            + self.urb.spec_thirds());
        assert(lower == self.dlf.spec_thirds() + self.dlb.spec_thirds() + self.drf.spec_thirds()
            + self.drb.spec_thirds());
        upper + lower
    }

    /// Whether the twists add up to whole turns, with the cubie at the
    /// back, left and bottom untwisted.
    pub open spec fn spec_is_solvable(&self) -> bool {
        self.dlb == CubeletOrientation::OK && self.twist_sum() % 3 == 0
    }

    /// Whether turns alone can bring every cubie upright: the twists add up
    /// to whole turns, and the cubie at the back, left and bottom is
    /// untwisted.
    #[verifier::when_used_as_spec(spec_is_solvable)]
    pub fn is_solvable(&self) -> (r: bool)
        ensures
            r == self.spec_is_solvable(),
    {
        let sum = self.twist_total();
        self.dlb == CubeletOrientation::OK && sum % 3 == 0
    }

    /// Four quarter turns of one face change nothing. So two half turns
    /// change nothing, and a counter-clockwise quarter turn undoes a
    /// clockwise one.
    pub proof fn lemma_quarter_turns(self)
        ensures
            self.r().r().r().r() == self,
            self.u().u().u().u() == self,
            self.f().f().f().f() == self,
            self.r_two().r_two() == self,
            self.u_two().u_two() == self,
            self.f_two().f_two() == self,
            self.r().r_rev() == self && self.r_rev().r() == self,
            self.u().u_rev() == self && self.u_rev().u() == self,
            self.f().f_rev() == self && self.f_rev().f() == self,
    {
    }

    /// The arrangement after a clockwise quarter turn of the right face,
    /// which carries cubies along without twisting them.
    pub open spec fn spec_r(self) -> CubeletOrientationArrangement {
        CubeletOrientationArrangement {
            urf: self.drf,
            urb: self.urf,
            drf: self.drb,
            drb: self.urb,
            ..self
        }
    }

    /// Turns the right face a quarter turn clockwise.
    #[verifier::when_used_as_spec(spec_r)]
    pub fn r(self) -> (r: CubeletOrientationArrangement)
        ensures
            r == self.spec_r(),
            r.is_solvable() == self.is_solvable(),
    {
        let CubeletOrientationArrangement { ulf, urf, ulb, urb, dlf, dlb, drf, drb } = self;

        CubeletOrientationArrangement { ulf, ulb, dlf, dlb, urf: drf, urb: urf, drf: drb, drb: urb }
    }

    /// The arrangement after a half turn of the right face.
    pub open spec fn spec_r_two(self) -> CubeletOrientationArrangement {
        self.r().r()
    }

    /// Turns the right face a half turn.
    #[verifier::when_used_as_spec(spec_r_two)]
    pub fn r_two(self) -> (r: CubeletOrientationArrangement)
        ensures
            r == self.spec_r_two(),
            r.is_solvable() == self.is_solvable(),
    {
        self.r().r()
    }

    /// The arrangement after a counter-clockwise quarter turn of the right
    /// face.
    pub open spec fn spec_r_rev(self) -> CubeletOrientationArrangement {
        self.r().r().r()
    }

    /// Turns the right face a quarter turn counter-clockwise.
    #[verifier::when_used_as_spec(spec_r_rev)]
    pub fn r_rev(self) -> (r: CubeletOrientationArrangement)
        ensures
            r == self.spec_r_rev(),
            r.is_solvable() == self.is_solvable(),
    {
        self.r().r().r()
    }

    /// The arrangement after a clockwise quarter turn of the upper face,
    /// which twists the four cubies it carries along.
    pub open spec fn spec_u(self) -> CubeletOrientationArrangement {
        CubeletOrientationArrangement {
            ulb: self.ulf.cw(),
            urb: self.ulb.ccw(),
            ulf: self.urf.ccw(),
            urf: self.urb.cw(),
            ..self
        }
    }

    /// Turns the upper face a quarter turn clockwise.
    #[verifier::when_used_as_spec(spec_u)]
    pub fn u(self) -> (r: CubeletOrientationArrangement)
        ensures
            r == self.spec_u(),
            r.is_solvable() == self.is_solvable(),
    {
        let CubeletOrientationArrangement { ulf, urf, ulb, urb, dlf, dlb, drf, drb } = self;
        proof {
            lemma_twists_cancel(
                ulf,
                ulb,
                urf,
                urb,
                dlf.spec_thirds() + dlb.spec_thirds() + drf.spec_thirds() + drb.spec_thirds(),
            );
        }

        CubeletOrientationArrangement {
            dlf,
            drf,
            dlb,
            drb,
            ulb: ulf.cw(),
            urb: ulb.ccw(),
            ulf: urf.ccw(),
            urf: urb.cw(),
        }
    }

    /// The arrangement after a half turn of the upper face.
    pub open spec fn spec_u_two(self) -> CubeletOrientationArrangement {
        self.u().u()
    }

    /// Turns the upper face a half turn.
    #[verifier::when_used_as_spec(spec_u_two)]
    pub fn u_two(self) -> (r: CubeletOrientationArrangement)
        ensures
            r == self.spec_u_two(),
            r.is_solvable() == self.is_solvable(),
    {
        self.u().u()
    }

    /// The arrangement after a counter-clockwise quarter turn of the upper
    /// face.
    pub open spec fn spec_u_rev(self) -> CubeletOrientationArrangement {
        self.u().u().u()
    }

    /// Turns the upper face a quarter turn counter-clockwise.
    #[verifier::when_used_as_spec(spec_u_rev)]
    pub fn u_rev(self) -> (r: CubeletOrientationArrangement)
        ensures
            r == self.spec_u_rev(),
            r.is_solvable() == self.is_solvable(),
    {
        self.u().u().u()
    }

    /// The arrangement after a clockwise quarter turn of the front face,
    /// which twists the four cubies it carries along.
    pub open spec fn spec_f(self) -> CubeletOrientationArrangement {
        CubeletOrientationArrangement {
            dlf: self.drf.ccw(),
            drf: self.urf.cw(),
            ulf: self.dlf.cw(),
            urf: self.ulf.ccw(),
            ..self
        }
    }

    /// Turns the front face a quarter turn clockwise.
    #[verifier::when_used_as_spec(spec_f)]
    pub fn f(self) -> (r: CubeletOrientationArrangement)
        ensures
            r == self.spec_f(),
            r.is_solvable() == self.is_solvable(),
    {
        let CubeletOrientationArrangement { ulf, urf, ulb, urb, dlf, dlb, drf, drb } = self;
        proof {
            lemma_twists_cancel(
                urf,
                drf,
                ulf,
                dlf,
                ulb.spec_thirds() + urb.spec_thirds() + dlb.spec_thirds() + drb.spec_thirds(),
            );
        }

        CubeletOrientationArrangement {
            ulb,
            urb,
            dlb,
            drb,
            dlf: drf.ccw(),
            drf: urf.cw(),
            ulf: dlf.cw(),
            urf: ulf.ccw(),
        }
    }

    /// The arrangement after a half turn of the front face.
    pub open spec fn spec_f_two(self) -> CubeletOrientationArrangement {
        self.f().f()
    }

    /// Turns the front face a half turn.
    #[verifier::when_used_as_spec(spec_f_two)]
    pub fn f_two(self) -> (r: CubeletOrientationArrangement)
        ensures
            r == self.spec_f_two(),
            r.is_solvable() == self.is_solvable(),
    {
        self.f().f()
    }

    /// The arrangement after a counter-clockwise quarter turn of the front
    /// face.
    pub open spec fn spec_f_rev(self) -> CubeletOrientationArrangement {
        self.f().f().f()
    }

    /// Turns the front face a quarter turn counter-clockwise.
    #[verifier::when_used_as_spec(spec_f_rev)]
    pub fn f_rev(self) -> (r: CubeletOrientationArrangement)
        ensures
            r == self.spec_f_rev(),
            r.is_solvable() == self.is_solvable(),
    {
        self.f().f().f()
    }
}

impl Cube {
    /// The colors that the faces must show once the cube is solved around
    /// the cubie at the back, left and bottom.
    pub open spec fn spec_desired(&self) -> DesiredFaces {
        DesiredFaces {
            l: self.l.db,
            d: self.d.bl,
            b: self.b.dl,
            r: self.l.db.opposite(),
            u: self.d.bl.opposite(),
            f: self.b.dl.opposite(),
        }
    }

    /// Reads off the cubie at the back, left and bottom which color each
    /// face must show in the end.
    #[verifier::when_used_as_spec(spec_desired)]
    pub fn make_desired_from_dlb(&self) -> (des: DesiredFaces)
        ensures
            des == self.spec_desired(),
    {
        let l = self.l.db;
        let d = self.d.bl;
        let b = self.b.dl;

        let r = l.opposite();
        let u = d.opposite();
        let f = b.opposite();

        DesiredFaces { l, d, b, r, u, f }
    }

    /// The slot where the cubie at `slot` belongs.
    pub open spec fn home_of(self, slot: CubeletPos) -> CubeletPos {
        let t = self.corner(slot);
        self.spec_desired().home(t.0, t.1, t.2)
    }

    /// How far the cubie at `slot` is twisted.
    pub open spec fn twist_of(self, slot: CubeletPos) -> CubeletOrientation {
        let t = self.corner(slot);
        self.spec_desired().twist(t.0, t.1, t.2)
    }

    /// Where each cubie belongs.
    pub open spec fn spec_pos_arr(self) -> CubeletArrangement {
        CubeletArrangement {
            ulf: self.home_of(CubeletPos::ULF),
            ulb: self.home_of(CubeletPos::ULB),
            urf: self.home_of(CubeletPos::URF),
            urb: self.home_of(CubeletPos::URB),
            dlf: self.home_of(CubeletPos::DLF),
            dlb: self.home_of(CubeletPos::DLB),
            drf: self.home_of(CubeletPos::DRF),
            drb: self.home_of(CubeletPos::DRB),
        }
    }

    /// How far each cubie is twisted.
    pub open spec fn spec_orr_arr(self) -> CubeletOrientationArrangement {
        CubeletOrientationArrangement {
            ulf: self.twist_of(CubeletPos::ULF),
            ulb: self.twist_of(CubeletPos::ULB),
            urf: self.twist_of(CubeletPos::URF),
            urb: self.twist_of(CubeletPos::URB),
            dlf: self.twist_of(CubeletPos::DLF),
            dlb: self.twist_of(CubeletPos::DLB),
            drf: self.twist_of(CubeletPos::DRF),
            drb: self.twist_of(CubeletPos::DRB),
        }
    }

    /// Works out, for each corner slot, where the cubie that sits there
    /// belongs. Every slot must hold a real cubie.
    #[verifier::when_used_as_spec(spec_pos_arr)]
    pub fn make_pos_arr_from_dlb(self) -> (arr: CubeletArrangement)
        requires
            self.corners_ok(),
        ensures
            arr == self.spec_pos_arr(),
            arr.dlb == CubeletPos::DLB,
            self.wf() ==> arr.wf(),
    {
        let des = self.make_desired_from_dlb();
        proof {
            self.lemma_corners_cover();
            self.lemma_frame();
            if self.wf() {
                self.lemma_wf_pos_arr();
            }
            assert(des.covers(self.corner(CubeletPos::DLB).0, self.corner(CubeletPos::DLB).1, self.corner(CubeletPos::DLB).2));
            assert(des.covers(self.corner(CubeletPos::DRB).0, self.corner(CubeletPos::DRB).1, self.corner(CubeletPos::DRB).2));
            assert(des.covers(self.corner(CubeletPos::DLF).0, self.corner(CubeletPos::DLF).1, self.corner(CubeletPos::DLF).2));
            assert(des.covers(self.corner(CubeletPos::DRF).0, self.corner(CubeletPos::DRF).1, self.corner(CubeletPos::DRF).2));
            assert(des.covers(self.corner(CubeletPos::ULB).0, self.corner(CubeletPos::ULB).1, self.corner(CubeletPos::ULB).2));
            assert(des.covers(self.corner(CubeletPos::URB).0, self.corner(CubeletPos::URB).1, self.corner(CubeletPos::URB).2));
            assert(des.covers(self.corner(CubeletPos::ULF).0, self.corner(CubeletPos::ULF).1, self.corner(CubeletPos::ULF).2));
            assert(des.covers(self.corner(CubeletPos::URF).0, self.corner(CubeletPos::URF).1, self.corner(CubeletPos::URF).2));
        }

        let Cube { u, d, r, l, f, b } = self;

        let dlb = make_pos_from_dlb(&des, l.db, d.bl, b.dl);
        let drb = make_pos_from_dlb(&des, r.db, b.dr, d.br);
        let dlf = make_pos_from_dlb(&des, l.df, f.dl, d.fl);
        let drf = make_pos_from_dlb(&des, r.df, d.fr, f.dr);

        let ulb = make_pos_from_dlb(&des, l.ub, b.ul, u.bl);
        let urb = make_pos_from_dlb(&des, r.ub, u.br, b.ur);
        let ulf = make_pos_from_dlb(&des, l.uf, u.fl, f.ul);
        let urf = make_pos_from_dlb(&des, r.uf, f.ur, u.fr);

        CubeletArrangement { dlb, drb, dlf, drf, ulb, urb, ulf, urf }
    }

    /// Works out, for each corner slot, how far the cubie that sits there
    /// is twisted.
    #[verifier::when_used_as_spec(spec_orr_arr)]
    pub fn make_orr_arr_from_dlb(self) -> (arr: CubeletOrientationArrangement)
        ensures
            arr == self.spec_orr_arr(),
            arr.dlb == CubeletOrientation::OK,
    {
        let des = self.make_desired_from_dlb();

        let Cube { u, d, r, l, f, b } = self;

        let dlb = make_orr_from_dlb(&des, l.db, d.bl, b.dl);
        let dlf = make_orr_from_dlb(&des, l.df, f.dl, d.fl);
        let drb = make_orr_from_dlb(&des, r.db, b.dr, d.br);
        let drf = make_orr_from_dlb(&des, r.df, d.fr, f.dr);

        let ulb = make_orr_from_dlb(&des, l.ub, b.ul, u.bl);
        let urb = make_orr_from_dlb(&des, r.ub, u.br, b.ur);
        let ulf = make_orr_from_dlb(&des, l.uf, u.fl, f.ul);
        let urf = make_orr_from_dlb(&des, r.uf, f.ur, u.fr);

        CubeletOrientationArrangement { dlb, drb, dlf, drf, ulb, urb, ulf, urf }
    }

    /// The cubie at the back, left and bottom of a cube with real cubies
    /// sets up a frame, and every cubie has one color on each of its axes.
    pub proof fn lemma_corners_cover(self)
        requires
            self.corners_ok(),
        ensures
            self.spec_desired().wf(),
            forall|slot: CubeletPos|
                #![trigger self.corner(slot)]
                self.spec_desired().covers(
                    self.corner(slot).0,
                    self.corner(slot).1,
                    self.corner(slot).2,
                ),
    {
        let des = self.spec_desired();
        self.lemma_frame();
        assert forall|slot: CubeletPos| #![trigger self.corner(slot)]
            des.covers(self.corner(slot).0, self.corner(slot).1, self.corner(slot).2) by {
            let t = self.corner(slot);
            assert(self.corner_ok(slot));
            lemma_corner_facts(t.0, t.1, t.2);
            lemma_covers(des, t.0, t.1, t.2);
        }
    }

    /// The cubie at the back, left and bottom sets up a frame, in which it
    /// is at home and untwisted.
    pub proof fn lemma_frame(self)
        requires
            self.corner_ok(CubeletPos::DLB),
        ensures
            self.spec_desired().wf(),
            self.home_of(CubeletPos::DLB) == CubeletPos::DLB,
            self.twist_of(CubeletPos::DLB) == CubeletOrientation::OK,
    {
        let t = self.corner(CubeletPos::DLB);
        lemma_corner_facts(t.0, t.1, t.2);
    }

    /// Every cubie has exactly one sticker of the left-right axis.
    pub proof fn lemma_corners_one_rl(self)
        requires
            self.corners_ok(),
        ensures
            forall|slot: CubeletPos|
                #![trigger self.corner(slot)]
                {
                    let t = self.corner(slot);
                    let des = self.spec_desired();
                    &&& des.on_rl(t.0) || des.on_rl(t.1) || des.on_rl(t.2)
                    &&& !(des.on_rl(t.0) && des.on_rl(t.1))
                    &&& !(des.on_rl(t.1) && des.on_rl(t.2))
                    &&& !(des.on_rl(t.2) && des.on_rl(t.0))
                },
    {
        let des = self.spec_desired();
        self.lemma_frame();
        assert forall|slot: CubeletPos| #![trigger self.corner(slot)]
            {
                let t = self.corner(slot);
                &&& des.on_rl(t.0) || des.on_rl(t.1) || des.on_rl(t.2)
                &&& !(des.on_rl(t.0) && des.on_rl(t.1))
                &&& !(des.on_rl(t.1) && des.on_rl(t.2))
                &&& !(des.on_rl(t.2) && des.on_rl(t.0))
            } by {
            let t = self.corner(slot);
            assert(self.corner_ok(slot));
            lemma_corner_facts(t.0, t.1, t.2);
            lemma_covers(des, t.0, t.1, t.2);
        }
    }

    /// Taking a cube apart commutes with a quarter turn of the right face:
    /// the arrangements of the turned cube are the turned arrangements.
    pub proof fn lemma_right_commutes(self)
        requires
            self.corners_ok(),
        ensures
            self.spec_right().spec_desired() == self.spec_desired(),
            self.spec_right().spec_pos_arr() == self.spec_pos_arr().spec_r(),
            self.spec_right().spec_orr_arr() == self.spec_orr_arr().spec_r(),
    {
        reveal(Cube::spec_right);
        let c = self.spec_right();
        let des = self.spec_desired();
        self.lemma_frame();
        self.lemma_corners_one_rl();
        assert(c.spec_desired() == des);
        assert(c.home_of(CubeletPos::ULF) == self.home_of(CubeletPos::ULF));
        assert(c.home_of(CubeletPos::ULB) == self.home_of(CubeletPos::ULB));
        assert(c.home_of(CubeletPos::URF) == self.home_of(CubeletPos::DRF));
        assert(c.home_of(CubeletPos::URB) == self.home_of(CubeletPos::URF));
        assert(c.home_of(CubeletPos::DLF) == self.home_of(CubeletPos::DLF));
        assert(c.home_of(CubeletPos::DLB) == self.home_of(CubeletPos::DLB));
        assert(c.home_of(CubeletPos::DRF) == self.home_of(CubeletPos::DRB));
        assert(c.home_of(CubeletPos::DRB) == self.home_of(CubeletPos::URB));
        assert(c.twist_of(CubeletPos::ULF) == self.twist_of(CubeletPos::ULF));
        assert(c.twist_of(CubeletPos::ULB) == self.twist_of(CubeletPos::ULB));
        assert(c.twist_of(CubeletPos::URF) == self.twist_of(CubeletPos::DRF));
        assert(c.twist_of(CubeletPos::URB) == self.twist_of(CubeletPos::URF));
        assert(c.twist_of(CubeletPos::DLF) == self.twist_of(CubeletPos::DLF));
        assert(c.twist_of(CubeletPos::DLB) == self.twist_of(CubeletPos::DLB));
        assert(c.twist_of(CubeletPos::DRF) == self.twist_of(CubeletPos::DRB));
        assert(c.twist_of(CubeletPos::DRB) == self.twist_of(CubeletPos::URB));
    }

    /// Taking a cube apart commutes with a quarter turn of the upper face:
    /// the arrangements of the turned cube are the turned arrangements.
    pub proof fn lemma_up_commutes(self)
        requires
            self.corners_ok(),
        ensures
            self.spec_up().spec_desired() == self.spec_desired(),
            self.spec_up().spec_pos_arr() == self.spec_pos_arr().spec_u(),
            self.spec_up().spec_orr_arr() == self.spec_orr_arr().spec_u(),
    {
        reveal(Cube::spec_up);
        let c = self.spec_up();
        let des = self.spec_desired();
        self.lemma_frame();
        self.lemma_corners_one_rl();
        assert(c.spec_desired() == des);
        assert(c.home_of(CubeletPos::ULF) == self.home_of(CubeletPos::URF));
        assert(c.home_of(CubeletPos::ULB) == self.home_of(CubeletPos::ULF));
        assert(c.home_of(CubeletPos::URF) == self.home_of(CubeletPos::URB));
        assert(c.home_of(CubeletPos::URB) == self.home_of(CubeletPos::ULB));
        assert(c.home_of(CubeletPos::DLF) == self.home_of(CubeletPos::DLF));
        assert(c.home_of(CubeletPos::DLB) == self.home_of(CubeletPos::DLB));
        assert(c.home_of(CubeletPos::DRF) == self.home_of(CubeletPos::DRF));
        assert(c.home_of(CubeletPos::DRB) == self.home_of(CubeletPos::DRB));
        assert(c.twist_of(CubeletPos::ULF) == self.twist_of(CubeletPos::URF).spec_ccw());
        assert(c.twist_of(CubeletPos::ULB) == self.twist_of(CubeletPos::ULF).spec_cw());
        assert(c.twist_of(CubeletPos::URF) == self.twist_of(CubeletPos::URB).spec_cw());
        assert(c.twist_of(CubeletPos::URB) == self.twist_of(CubeletPos::ULB).spec_ccw());
        assert(c.twist_of(CubeletPos::DLF) == self.twist_of(CubeletPos::DLF));
        assert(c.twist_of(CubeletPos::DLB) == self.twist_of(CubeletPos::DLB));
        assert(c.twist_of(CubeletPos::DRF) == self.twist_of(CubeletPos::DRF));
        assert(c.twist_of(CubeletPos::DRB) == self.twist_of(CubeletPos::DRB));
    }

    /// Taking a cube apart commutes with a quarter turn of the front face:
    /// the arrangements of the turned cube are the turned arrangements.
    pub proof fn lemma_front_commutes(self)
        requires
            self.corners_ok(),
        ensures
            self.spec_front().spec_desired() == self.spec_desired(),
            self.spec_front().spec_pos_arr() == self.spec_pos_arr().spec_f(),
            self.spec_front().spec_orr_arr() == self.spec_orr_arr().spec_f(),
    {
        reveal(Cube::spec_front);
        let c = self.spec_front();
        let des = self.spec_desired();
        self.lemma_frame();
        self.lemma_corners_one_rl();
        assert(c.spec_desired() == des);
        assert(c.home_of(CubeletPos::ULF) == self.home_of(CubeletPos::DLF));
        assert(c.home_of(CubeletPos::ULB) == self.home_of(CubeletPos::ULB));
        assert(c.home_of(CubeletPos::URF) == self.home_of(CubeletPos::ULF));
        assert(c.home_of(CubeletPos::URB) == self.home_of(CubeletPos::URB));
        assert(c.home_of(CubeletPos::DLF) == self.home_of(CubeletPos::DRF));
        assert(c.home_of(CubeletPos::DLB) == self.home_of(CubeletPos::DLB));
        assert(c.home_of(CubeletPos::DRF) == self.home_of(CubeletPos::URF));
        assert(c.home_of(CubeletPos::DRB) == self.home_of(CubeletPos::DRB));
        assert(c.twist_of(CubeletPos::ULF) == self.twist_of(CubeletPos::DLF).spec_cw());
        assert(c.twist_of(CubeletPos::ULB) == self.twist_of(CubeletPos::ULB));
        assert(c.twist_of(CubeletPos::URF) == self.twist_of(CubeletPos::ULF).spec_ccw());
        assert(c.twist_of(CubeletPos::URB) == self.twist_of(CubeletPos::URB));
        assert(c.twist_of(CubeletPos::DLF) == self.twist_of(CubeletPos::DRF).spec_ccw());
        assert(c.twist_of(CubeletPos::DLB) == self.twist_of(CubeletPos::DLB));
        assert(c.twist_of(CubeletPos::DRF) == self.twist_of(CubeletPos::URF).spec_cw());
        assert(c.twist_of(CubeletPos::DRB) == self.twist_of(CubeletPos::DRB));
    }

    /// In a well-formed cube the cubies' home slots are a permutation.
    pub proof fn lemma_wf_pos_arr(self)
        requires
            self.wf(),
        ensures
            self.spec_pos_arr().wf(),
    {
        self.lemma_frame();
        self.lemma_homes_differ();
        let arr = self.spec_pos_arr();
        assert(arr.ulf == self.home_of(CubeletPos::ULF));
        assert(arr.ulb == self.home_of(CubeletPos::ULB));
        assert(arr.urf == self.home_of(CubeletPos::URF));
        assert(arr.urb == self.home_of(CubeletPos::URB));
        assert(arr.dlf == self.home_of(CubeletPos::DLF));
        assert(arr.dlb == self.home_of(CubeletPos::DLB));
        assert(arr.drf == self.home_of(CubeletPos::DRF));
        assert(arr.drb == self.home_of(CubeletPos::DRB));
    }

    /// A cube with real cubies is well-formed exactly when the cubies' home
    /// slots are a permutation.
    pub proof fn lemma_wf_by_homes(self)
        requires
            self.corners_ok(),
        ensures
            self.wf() == self.spec_pos_arr().wf(),
    {
        self.lemma_frame();
        if self.wf() {
            self.lemma_wf_pos_arr();
        }
        if self.spec_pos_arr().wf() {
            assert forall|s: CubeletPos, t: CubeletPos| s != t implies #[trigger]
                self.corners_differ(s, t) by {
                assert(self.home_of(s) != self.home_of(t));
            }
        }
    }

    /// Whether the three stickers are those of a real cubie, read
    /// clockwise.
    pub fn real_corner(a: Facelet, b: Facelet, c: Facelet) -> (r: bool)
        ensures
            r == is_corner(a, b, c),
    {
        if a == b || a.opposite() == b {
            proof {
                if is_corner(a, b, c) {
                    lemma_corner_facts(a, b, c);
                }
            }
            false
        } else {
            proof {
                crate::cube::lemma_corner_third(a, b);
            }
            crate::cube::next_color(a, b) == c
        }
    }

    /// Whether every corner slot holds a real cubie.
    pub fn has_real_corners(&self) -> (r: bool)
        ensures
            r == self.corners_ok(),
    {
        Cube::real_corner(self.l.db, self.d.bl, self.b.dl) && Cube::real_corner(
            self.l.df,
            self.f.dl,
            self.d.fl,
        ) && Cube::real_corner(self.r.db, self.b.dr, self.d.br) && Cube::real_corner(
            self.r.df,
            self.d.fr,
            self.f.dr,
        ) && Cube::real_corner(self.l.ub, self.b.ul, self.u.bl) && Cube::real_corner(
            self.r.ub,
            self.u.br,
            self.b.ur,
        ) && Cube::real_corner(self.l.uf, self.u.fl, self.f.ul) && Cube::real_corner(
            self.r.uf,
            self.f.ur,
            self.u.fr,
        )
    }

    /// Whether the cube can be taken apart and put together from the eight
    /// cubies: every corner slot holds a real cubie, and no cubie twice.
    pub fn is_wf(&self) -> (r: bool)
        ensures
            r == self.wf(),
    {
        if !self.has_real_corners() {
            return false;
        }
        proof {
            self.lemma_wf_by_homes();
        }
        self.make_pos_arr_from_dlb().is_permutation()
    }

    /// In a well-formed cube no two slots hold cubies with one home.
    pub proof fn lemma_homes_differ(self)
        requires
            self.wf(),
        ensures
            forall|s: CubeletPos, t: CubeletPos|
                s != t ==> #[trigger] self.home_of(s) != #[trigger] self.home_of(t),
    {
        self.lemma_frame();
        assert forall|s: CubeletPos, t: CubeletPos| s != t implies #[trigger] self.home_of(s)
            != #[trigger] self.home_of(t) by {
            assert(self.corner_ok(s));
            assert(self.corner_ok(t));
            assert(self.corners_differ(s, t));
            if self.home_of(s) == self.home_of(t) {
                lemma_same_home(self.spec_desired(), self.corner(s), self.corner(t));
            }
        }
    }
}

} // verus!
