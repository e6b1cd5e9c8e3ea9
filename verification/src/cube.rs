//! The facelet model of the pocket cube: colors, faces, the cube itself and
//! the six face turns.

use vstd::prelude::*;

verus! {

/// The color of one sticker.
#[derive(Clone, Copy, PartialEq, Eq, Structural, Debug, Hash)]
pub enum Facelet {
    Yellow,
    Red,
    White,
    Orange,
    Blue,
    Green,
}

impl Facelet {
    /// The color on the far side of a solved cube.
    pub open spec fn spec_opposite(&self) -> Facelet {
        match self {
            Facelet::Yellow => Facelet::White,
            Facelet::White => Facelet::Yellow,
            Facelet::Red => Facelet::Orange,
            Facelet::Orange => Facelet::Red,
            Facelet::Blue => Facelet::Green,
            Facelet::Green => Facelet::Blue,
        }
    }

    /// The color on the far side of a solved cube. It is never the color
    /// itself, and taking it twice gives the color back.
    #[verifier::when_used_as_spec(spec_opposite)]
    pub fn opposite(&self) -> (r: Facelet)
        ensures
            r == self.spec_opposite(),
            r != *self,
            r.spec_opposite() == *self,
    {
        match self {
            Facelet::Yellow => Facelet::White,
            Facelet::White => Facelet::Yellow,
            Facelet::Red => Facelet::Orange,
            Facelet::Orange => Facelet::Red,
            Facelet::Blue => Facelet::Green,
            Facelet::Green => Facelet::Blue,
        }
    }

    /// The color that a letter stands for, in either case.
    pub open spec fn spec_from_char(value: char) -> Result<Facelet, char> {
        if value == 'Y' || value == 'y' {
            Ok(Facelet::Yellow)
        } else if value == 'R' || value == 'r' {
            Ok(Facelet::Red)
        } else if value == 'W' || value == 'w' {
            Ok(Facelet::White)
        } else if value == 'O' || value == 'o' {
            Ok(Facelet::Orange)
        } else if value == 'B' || value == 'b' {
            Ok(Facelet::Blue)
        } else if value == 'G' || value == 'g' {
            Ok(Facelet::Green)
        } else {
            Err(value)
        }
    }
}

impl TryFrom<char> for Facelet {
    type Error = char;

    fn try_from(value: char) -> (r: Result<Facelet, char>) {
        match value {
            'Y' | 'y' => Ok(Facelet::Yellow),
            'R' | 'r' => Ok(Facelet::Red),
            'W' | 'w' => Ok(Facelet::White),
            'O' | 'o' => Ok(Facelet::Orange),
            'B' | 'b' => Ok(Facelet::Blue),
            'G' | 'g' => Ok(Facelet::Green),
            other => Err(other),
        }
    }
}

impl vstd::std_specs::convert::TryFromSpecImpl<char> for Facelet {
    open spec fn obeys_try_from_spec() -> bool {
        true
    }

    open spec fn try_from_spec(value: char) -> Result<Facelet, char> {
        Facelet::spec_from_char(value)
    }
}

/// Whether `row`, read from one of its three stickers onwards, is `a`, `b`, `c`.
pub open spec fn turns_to(row: (Facelet, Facelet, Facelet), a: Facelet, b: Facelet, c: Facelet) -> bool {
    row == (a, b, c) || row == (b, c, a) || row == (c, a, b)
}

/// Whether `a`, `b`, `c` are the stickers of one of the eight cubies, read
/// clockwise around its corner.
#[verifier::opaque]
pub open spec fn is_corner(a: Facelet, b: Facelet, c: Facelet) -> bool {
    ||| turns_to((Facelet::Yellow, Facelet::Orange, Facelet::Green), a, b, c)
    ||| turns_to((Facelet::Yellow, Facelet::Green, Facelet::Red), a, b, c)
    ||| turns_to((Facelet::Yellow, Facelet::Red, Facelet::Blue), a, b, c)
    ||| turns_to((Facelet::Yellow, Facelet::Blue, Facelet::Orange), a, b, c)
    ||| turns_to((Facelet::White, Facelet::Blue, Facelet::Red), a, b, c)
    ||| turns_to((Facelet::White, Facelet::Red, Facelet::Green), a, b, c)
    ||| turns_to((Facelet::White, Facelet::Green, Facelet::Orange), a, b, c)
    ||| turns_to((Facelet::White, Facelet::Orange, Facelet::Blue), a, b, c)
}

/// Whether two colors can meet on a cubie: they are neither equal nor
/// opposite.
pub open spec fn can_meet(a: Facelet, b: Facelet) -> bool {
    a != b && a.opposite() != b
}

/// Two colors share a cubie exactly when they can meet, and then the third
/// color is determined.
pub proof fn lemma_corner_third(a: Facelet, b: Facelet)
    ensures
        (exists|c: Facelet| is_corner(a, b, c)) <==> can_meet(a, b),
        forall|c: Facelet, d: Facelet| is_corner(a, b, c) && is_corner(a, b, d) ==> c == d,
{
    reveal(is_corner);
    if can_meet(a, b) {
        let c = if is_corner(a, b, Facelet::Yellow) {
            Facelet::Yellow
        } else if is_corner(a, b, Facelet::White) {
            Facelet::White
        } else if is_corner(a, b, Facelet::Red) {
            Facelet::Red
        } else if is_corner(a, b, Facelet::Orange) {
            Facelet::Orange
        } else if is_corner(a, b, Facelet::Blue) {
            Facelet::Blue
        } else {
            Facelet::Green
        };
        assert(is_corner(a, b, c));
    }
}

/// The color that completes the corner of `a` and `b`, read clockwise.
pub open spec fn third_color(a: Facelet, b: Facelet) -> Facelet {
    choose|c: Facelet| is_corner(a, b, c)
}

/// The stickers of a cubie can be read from any of the three, but only
/// clockwise, and any two of them can meet.
pub proof fn lemma_corner_facts(a: Facelet, b: Facelet, c: Facelet)
    requires
        is_corner(a, b, c),
    ensures
        is_corner(b, c, a),
        is_corner(c, a, b),
        !is_corner(a, c, b),
        !is_corner(c, b, a),
        !is_corner(b, a, c),
        can_meet(a, b),
        can_meet(b, c),
        can_meet(c, a),
{
    reveal(is_corner);
}

/// Two different cubies stay different from whichever sticker each is read.
pub proof fn lemma_differ_turned(
    x: (Facelet, Facelet, Facelet),
    y: (Facelet, Facelet, Facelet),
    x2: (Facelet, Facelet, Facelet),
    y2: (Facelet, Facelet, Facelet),
)
    requires
        !turns_to(x, y.0, y.1, y.2),
        turns_to(x, x2.0, x2.1, x2.2),
        turns_to(y, y2.0, y2.1, y2.2),
    ensures
        !turns_to(x2, y2.0, y2.1, y2.2),
{
}

/// The stickers of the cubie at index `i` of the table of all cubies, read
/// clockwise from its yellow or white sticker.
pub open spec fn cubie_row(i: int) -> (Facelet, Facelet, Facelet) {
    if i == 0 {
        (Facelet::Yellow, Facelet::Orange, Facelet::Green)
    } else if i == 1 {
        (Facelet::Yellow, Facelet::Green, Facelet::Red)
    } else if i == 2 {
        (Facelet::Yellow, Facelet::Red, Facelet::Blue)
    } else if i == 3 {
        (Facelet::Yellow, Facelet::Blue, Facelet::Orange)
    } else if i == 4 {
        (Facelet::White, Facelet::Blue, Facelet::Red)
    } else if i == 5 {
        (Facelet::White, Facelet::Red, Facelet::Green)
    } else if i == 6 {
        (Facelet::White, Facelet::Green, Facelet::Orange)
    } else {
        (Facelet::White, Facelet::Orange, Facelet::Blue)
    }
}

/// The three stickers of a cubie as a triple.
pub open spec fn triple(cubie: [Facelet; 3]) -> (Facelet, Facelet, Facelet) {
    (cubie[0], cubie[1], cubie[2])
}

/// The eight cubies, each read clockwise from its yellow or white sticker.
pub fn all_cubies() -> (table: [[Facelet; 3]; 8])
    ensures
        forall|i: int| 0 <= i < 8 ==> triple(#[trigger] table[i]) == cubie_row(i),
{
    [
        [Facelet::Yellow, Facelet::Orange, Facelet::Green],
        [Facelet::Yellow, Facelet::Green, Facelet::Red],
        [Facelet::Yellow, Facelet::Red, Facelet::Blue],
        [Facelet::Yellow, Facelet::Blue, Facelet::Orange],
        [Facelet::White, Facelet::Blue, Facelet::Red],
        [Facelet::White, Facelet::Red, Facelet::Green],
        [Facelet::White, Facelet::Green, Facelet::Orange],
        [Facelet::White, Facelet::Orange, Facelet::Blue],
    ]
}

/// Every row of the table is a cubie, and every cubie is a row of it.
pub proof fn lemma_table(a: Facelet, b: Facelet, c: Facelet)
    ensures
        is_corner(a, b, c) <==> exists|i: int| 0 <= i < 8 && turns_to(#[trigger] cubie_row(i), a, b, c),
{
    reveal(is_corner);
    if is_corner(a, b, c) {
        let i = if turns_to(cubie_row(0), a, b, c) {
            0int
        } else if turns_to(cubie_row(1), a, b, c) {
            1
        } else if turns_to(cubie_row(2), a, b, c) {
            2
        } else if turns_to(cubie_row(3), a, b, c) {
            3
        } else if turns_to(cubie_row(4), a, b, c) {
            4
        } else if turns_to(cubie_row(5), a, b, c) {
            5
        } else if turns_to(cubie_row(6), a, b, c) {
            6
        } else {
            7
        };
        assert(turns_to(cubie_row(i), a, b, c));
    }
}

/// Whether `a` is followed by `b` when the cubie is read clockwise.
pub open spec fn follows(cubie: (Facelet, Facelet, Facelet), a: Facelet, b: Facelet) -> bool {
    (cubie.0 == a && cubie.1 == b) || (cubie.1 == a && cubie.2 == b) || (cubie.2 == a && cubie.0 == b)
}

/// Finds the color that completes a corner: `a`, `b` and the result are the
/// stickers of one cubie, read clockwise. Two colors that are equal or
/// opposite never meet on a corner.
pub fn next_color(a: Facelet, b: Facelet) -> (c: Facelet)
    requires
        can_meet(a, b),
    ensures
        is_corner(a, b, c),
        c == third_color(a, b),
{
    proof {
        lemma_corner_third(a, b);
    }
    let table = all_cubies();
    let mut row: usize = 0;
    while row < 8
        invariant
            row <= 8,
            forall|i: int| 0 <= i < 8 ==> triple(#[trigger] table[i]) == cubie_row(i),
            forall|j: int| 0 <= j < row ==> !follows(#[trigger] cubie_row(j), a, b),
        decreases 8 - row,
    {
        let cubie = table[row];
        assert(triple(table[row as int]) == cubie_row(row as int));
        let mut i: usize = 0;
        while i < 3
            invariant
                i <= 3,
                triple(cubie) == cubie_row(row as int),
                0 <= row < 8,
                i >= 1 ==> !(cubie[0] == a && cubie[1] == b),
                i >= 2 ==> !(cubie[1] == a && cubie[2] == b),
                i >= 3 ==> !(cubie[2] == a && cubie[0] == b),
            decreases 3 - i,
        {
            if a == cubie[i] {
                let next = (i + 1) % 3;
                if b == cubie[next] {
                    let last = (next + 1) % 3;
                    proof {
                        assert(follows(cubie_row(row as int), a, b));
                        assert(turns_to(cubie_row(row as int), a, b, cubie[last as int]));
                        lemma_table(a, b, cubie[last as int]);
                        lemma_corner_third(a, b);
                        assert(is_corner(a, b, third_color(a, b)));
                    }
                    return cubie[last];
                }
            }
            i += 1;
        }
        row += 1;
    }
    proof {
        lemma_corner_third(a, b);
        let c = choose|c: Facelet| is_corner(a, b, c);
        lemma_table(a, b, c);
        let i = choose|i: int| 0 <= i < 8 && turns_to(#[trigger] cubie_row(i), a, b, c);
        assert(follows(cubie_row(i), a, b));
    }
    a
}

/// Why two colors are not the stickers of one cubie.
#[derive(Clone, Copy, PartialEq, Eq, Structural, Debug)]
pub enum CornerError {
    /// The two colors are one color.
    Equal,
    /// The two colors belong on opposite faces.
    Opposite,
}

/// Finds the color that completes a corner, as `next_color` does, for any
/// two colors: equal colors and opposite colors are turned down.
pub fn try_next_color(a: Facelet, b: Facelet) -> (r: Result<Facelet, CornerError>)
    ensures
        r == Err::<Facelet, CornerError>(CornerError::Equal) <==> a == b,
        r == Err::<Facelet, CornerError>(CornerError::Opposite) <==> a.opposite() == b,
        r matches Ok(c) ==> can_meet(a, b) && c == third_color(a, b) && is_corner(a, b, c),
{
    if a == b {
        Err(CornerError::Equal)
    } else if a.opposite() == b {
        Err(CornerError::Opposite)
    } else {
        Ok(next_color(a, b))
    }
}

/// The upper or the lower face.
#[derive(Clone, Copy, PartialEq, Eq, Structural, Debug, Hash)]
pub struct UDFace {
    pub bl: Facelet,
    pub br: Facelet,
    pub fl: Facelet,
    pub fr: Facelet,
}

impl UDFace {
    /// Whether the four stickers have one color.
    pub open spec fn spec_solved(&self) -> bool {
        self.bl == self.br && self.bl == self.fl && self.bl == self.fr
    }

    /// Whether the four stickers have one color.
    #[verifier::when_used_as_spec(spec_solved)]
    pub fn solved(&self) -> (r: bool)
        ensures
            r == self.spec_solved(),
    {
        self.bl == self.br && self.bl == self.fl && self.bl == self.fr
    }
}

/// The front or the back face.
#[derive(Clone, Copy, PartialEq, Eq, Structural, Debug, Hash)]
pub struct FBFace {
    pub ul: Facelet,
    pub ur: Facelet,
    pub dl: Facelet,
    pub dr: Facelet,
}

impl FBFace {
    /// Whether the four stickers have one color.
    pub open spec fn spec_solved(&self) -> bool {
        self.ul == self.ur && self.ul == self.dl && self.ul == self.dr
    }

    /// Whether the four stickers have one color.
    #[verifier::when_used_as_spec(spec_solved)]
    pub fn solved(&self) -> (r: bool)
        ensures
            r == self.spec_solved(),
    {
        self.ul == self.ur && self.ul == self.dl && self.ul == self.dr
    }
}

/// The left or the right face.
#[derive(Clone, Copy, PartialEq, Eq, Structural, Debug, Hash)]
pub struct LRFace {
    pub ub: Facelet,
    pub uf: Facelet,
    pub db: Facelet,
    pub df: Facelet,
}

impl LRFace {
    /// Whether the four stickers have one color.
    pub open spec fn spec_solved(&self) -> bool {
        self.ub == self.uf && self.ub == self.db && self.ub == self.df
    }

    /// Whether the four stickers have one color.
    #[verifier::when_used_as_spec(spec_solved)]
    pub fn solved(&self) -> (r: bool)
        ensures
            r == self.spec_solved(),
    {
        self.ub == self.uf && self.ub == self.db && self.ub == self.df
    }
}

/// One of the eight corner slots, named by the three faces that meet there.
#[derive(Clone, Copy, PartialEq, Eq, Structural, Debug, Hash)]
pub enum CubeletPos {
    ULF,
    ULB,
    URF,
    URB,
    DLF,
    DLB,
    DRF,
    DRB,
}

/// All 24 stickers of the cube, face by face.
#[derive(Clone, Copy, PartialEq, Eq, Structural, Debug, Hash)]
pub struct Cube {
    pub u: UDFace,
    pub d: UDFace,
    pub r: LRFace,
    pub l: LRFace,
    pub f: FBFace,
    pub b: FBFace,
}

impl Cube {
    /// The three stickers at a corner slot, read clockwise from the one on
    /// the left or right face.
    pub open spec fn corner(self, slot: CubeletPos) -> (Facelet, Facelet, Facelet) {
        match slot {
            CubeletPos::DLB => (self.l.db, self.d.bl, self.b.dl),
            CubeletPos::DLF => (self.l.df, self.f.dl, self.d.fl),
            CubeletPos::DRB => (self.r.db, self.b.dr, self.d.br),
            CubeletPos::DRF => (self.r.df, self.d.fr, self.f.dr),
            CubeletPos::ULB => (self.l.ub, self.b.ul, self.u.bl),
            CubeletPos::URB => (self.r.ub, self.u.br, self.b.ur),
            CubeletPos::ULF => (self.l.uf, self.u.fl, self.f.ul),
            CubeletPos::URF => (self.r.uf, self.f.ur, self.u.fr),
        }
    }

    /// Whether the corner slot holds the stickers of a real cubie.
    pub open spec fn corner_ok(self, slot: CubeletPos) -> bool {
        is_corner(self.corner(slot).0, self.corner(slot).1, self.corner(slot).2)
    }

    /// Whether two corner slots hold different cubies.
    pub open spec fn corners_differ(self, s: CubeletPos, t: CubeletPos) -> bool {
        !turns_to(self.corner(s), self.corner(t).0, self.corner(t).1, self.corner(t).2)
    }

    /// Every corner slot holds a real cubie.
    pub open spec fn corners_ok(self) -> bool {
        &&& self.corner_ok(CubeletPos::DLB)
        &&& self.corner_ok(CubeletPos::DLF)
        &&& self.corner_ok(CubeletPos::DRB)
        &&& self.corner_ok(CubeletPos::DRF)
        &&& self.corner_ok(CubeletPos::ULB)
        &&& self.corner_ok(CubeletPos::URB)
        &&& self.corner_ok(CubeletPos::ULF)
        &&& self.corner_ok(CubeletPos::URF)
    }

    /// A cube that can be taken apart and put together from the eight
    /// cubies: every corner slot holds a real cubie, and no cubie twice.
    pub open spec fn wf(self) -> bool {
        &&& self.corners_ok()
        &&& forall|s: CubeletPos, t: CubeletPos| s != t ==> #[trigger] self.corners_differ(s, t)
    }

    /// Whether each face has one color.
    pub open spec fn spec_solved(&self) -> bool {
        &&& self.u.solved()
        &&& self.d.solved()
        &&& self.r.solved()
        &&& self.l.solved()
        &&& self.f.solved()
        &&& self.b.solved()
    }

    /// Whether each face has one color.
    #[verifier::when_used_as_spec(spec_solved)]
    pub fn solved(&self) -> (r: bool)
        ensures
            r == self.spec_solved(),
    {
        self.u.solved() && self.d.solved() && self.r.solved() && self.l.solved()
            && self.f.solved() && self.b.solved()
    }

    /// The solved cube with the given colors on its front and upper faces.
    pub open spec fn spec_make_solved(front_color: Facelet, up_color: Facelet) -> Cube {
        let back_color = front_color.opposite();
        let down_color = up_color.opposite();
        let right_color = third_color(front_color, up_color);
        let left_color = right_color.opposite();
        Cube {
            u: UDFace { bl: up_color, br: up_color, fl: up_color, fr: up_color },
            d: UDFace { bl: down_color, br: down_color, fl: down_color, fr: down_color },
            r: LRFace { ub: right_color, uf: right_color, db: right_color, df: right_color },
            l: LRFace { ub: left_color, uf: left_color, db: left_color, df: left_color },
            f: FBFace { ul: front_color, ur: front_color, dl: front_color, dr: front_color },
            b: FBFace { ul: back_color, ur: back_color, dl: back_color, dr: back_color },
        }
    }

    /// The solved cube with the given colors on its front and upper faces,
    /// as `make_solved` gives it, for any two colors: equal colors and
    /// opposite colors are turned down.
    pub fn try_make_solved(front_color: Facelet, up_color: Facelet) -> (r: Result<
        Cube,
        CornerError,
    >)
        ensures
            r == Err::<Cube, CornerError>(CornerError::Equal) <==> front_color == up_color,
            r == Err::<Cube, CornerError>(CornerError::Opposite) <==> front_color.opposite()
                == up_color,
            r matches Ok(cube) ==> can_meet(front_color, up_color) && cube
                == Cube::spec_make_solved(front_color, up_color),
    {
        if front_color == up_color {
            Err(CornerError::Equal)
        } else if front_color.opposite() == up_color {
            Err(CornerError::Opposite)
        } else {
            Ok(Cube::make_solved(front_color, up_color))
        }
    }

    /// The solved cube with the given colors on its front and upper faces.
    /// The two colors must be able to meet on a corner: neither equal nor
    /// opposite.
    #[verifier::when_used_as_spec(spec_make_solved)]
    pub fn make_solved(front_color: Facelet, up_color: Facelet) -> (cube: Cube)
        requires
            can_meet(front_color, up_color),
        ensures
            cube == Cube::spec_make_solved(front_color, up_color),
            cube.solved(),
            cube.wf(),
            cube.f.ul == front_color,
            cube.u.bl == up_color,
    {
        let back_color = front_color.opposite();
        let down_color = up_color.opposite();

        let right_color = next_color(front_color, up_color);
        let left_color = right_color.opposite();
        proof {
            reveal(is_corner);
        }

        Cube {
            u: UDFace { bl: up_color, br: up_color, fl: up_color, fr: up_color },
            d: UDFace { bl: down_color, br: down_color, fl: down_color, fr: down_color },
            r: LRFace { ub: right_color, uf: right_color, db: right_color, df: right_color },
            l: LRFace { ub: left_color, uf: left_color, db: left_color, df: left_color },
            f: FBFace { ul: front_color, ur: front_color, dl: front_color, dr: front_color },
            b: FBFace { ul: back_color, ur: back_color, dl: back_color, dr: back_color },
        }
    }

    /// The cube after a clockwise quarter turn of the left face.
    #[verifier::opaque]
    pub open spec fn spec_left(self) -> Cube {
        Cube {
            u: UDFace {
                bl: self.b.dl,
                br: self.u.br,
                fl: self.b.ul,
                fr: self.u.fr,
            },
            d: UDFace {
                bl: self.f.dl,
                br: self.d.br,
                fl: self.f.ul,
                fr: self.d.fr,
            },
            r: self.r,
            l: LRFace {
                ub: self.l.db,
                uf: self.l.ub,
                db: self.l.df,
                df: self.l.uf,
            },
            f: FBFace {
                ul: self.u.bl,
                ur: self.f.ur,
                dl: self.u.fl,
                dr: self.f.dr,
            },
            b: FBFace {
                ul: self.d.bl,
                ur: self.b.ur,
                dl: self.d.fl,
                dr: self.b.dr,
            },
        }
    }

    /// The slot from which a clockwise quarter turn of the left face brings
    /// the cubie that ends up at `slot`.
    pub open spec fn left_source(slot: CubeletPos) -> CubeletPos {
        match slot {
            CubeletPos::ULF => CubeletPos::ULB,
            CubeletPos::ULB => CubeletPos::DLB,
            CubeletPos::URF => CubeletPos::URF,
            CubeletPos::URB => CubeletPos::URB,
            CubeletPos::DLF => CubeletPos::ULF,
            CubeletPos::DLB => CubeletPos::DLF,
            CubeletPos::DRF => CubeletPos::DRF,
            CubeletPos::DRB => CubeletPos::DRB,
        }
    }

    /// A quarter turn of the left face carries whole cubies from slot to
    /// slot: what arrives at `slot` is the cubie from its source, perhaps
    /// read from another of its stickers.
    pub proof fn lemma_left_carries(self, slot: CubeletPos)
        ensures
            turns_to(
                self.corner(Cube::left_source(slot)),
                self.spec_left().corner(slot).0,
                self.spec_left().corner(slot).1,
                self.spec_left().corner(slot).2,
            ),
    {
        reveal(Cube::spec_left);
    }

    /// A quarter turn of the left face keeps a well-formed cube well-formed.
    pub proof fn lemma_left_wf(self)
        requires
            self.wf(),
        ensures
            self.spec_left().wf(),
    {
        let c = self.spec_left();
        assert forall|s: CubeletPos| c.corner_ok(s) by {
            let s0 = Cube::left_source(s);
            self.lemma_left_carries(s);
            assert(self.corner_ok(s0));
            lemma_corner_facts(self.corner(s0).0, self.corner(s0).1, self.corner(s0).2);
        }
        assert(c.corners_ok());
        assert forall|s: CubeletPos, t: CubeletPos| s != t implies #[trigger] c.corners_differ(
            s,
            t,
        ) by {
            let s0 = Cube::left_source(s);
            let t0 = Cube::left_source(t);
            self.lemma_left_carries(s);
            self.lemma_left_carries(t);
            assert(self.corners_differ(s0, t0));
            lemma_differ_turned(self.corner(s0), self.corner(t0), c.corner(s), c.corner(t));
        }
    }

    /// Turns the left face a quarter turn clockwise.
    #[verifier::when_used_as_spec(spec_left)]
    pub fn left(self) -> (r: Cube)
        ensures
            r == self.spec_left(),
            self.wf() ==> r.wf(),
    {
        proof {
            reveal(Cube::spec_left);
            if self.wf() {
                self.lemma_left_wf();
            }
        }
        let Cube { u, d, r, l, f, b } = self;
        Cube {
            u: UDFace {
                bl: b.dl,
                br: u.br,
                fl: b.ul,
                fr: u.fr,
            },
            d: UDFace {
                bl: f.dl,
                br: d.br,
                fl: f.ul,
                fr: d.fr,
            },
            r,
            l: LRFace {
                ub: l.db,
                uf: l.ub,
                db: l.df,
                df: l.uf,
            },
            f: FBFace {
                ul: u.bl,
                ur: f.ur,
                dl: u.fl,
                dr: f.dr,
            },
            b: FBFace {
                ul: d.bl,
                ur: b.ur,
                dl: d.fl,
                dr: b.dr,
            },
        }
    }

    /// The cube after a half turn of the left face.
    pub open spec fn spec_left_two(self) -> Cube {
        self.spec_left().spec_left()
    }

    /// Turns the left face a half turn: two quarter turns.
    #[verifier::when_used_as_spec(spec_left_two)]
    pub fn left_two(self) -> (r: Cube)
        ensures
            r == self.spec_left_two(),
            self.wf() ==> r.wf(),
    {
        self.left().left()
    }

    /// The cube after a counter-clockwise quarter turn of the left face.
    pub open spec fn spec_left_rev(self) -> Cube {
        self.spec_left().spec_left().spec_left()
    }

    /// Turns the left face a quarter turn counter-clockwise: three quarter
    /// turns clockwise.
    #[verifier::when_used_as_spec(spec_left_rev)]
    pub fn left_rev(self) -> (r: Cube)
        ensures
            r == self.spec_left_rev(),
            self.wf() ==> r.wf(),
    {
        self.left().left().left()
    }

    /// The cube after a clockwise quarter turn of the right face.
    #[verifier::opaque]
    pub open spec fn spec_right(self) -> Cube {
        Cube {
            u: UDFace {
                bl: self.u.bl,
                br: self.f.ur,
                fl: self.u.fl,
                fr: self.f.dr,
            },
            d: UDFace {
                bl: self.d.bl,
                br: self.b.ur,
                fl: self.d.fl,
                fr: self.b.dr,
            },
            r: LRFace {
                ub: self.r.uf,
                uf: self.r.df,
                db: self.r.ub,
                df: self.r.db,
            },
            l: self.l,
            f: FBFace {
                ul: self.f.ul,
                ur: self.d.fr,
                dl: self.f.dl,
                dr: self.d.br,
            },
            b: FBFace {
                ul: self.b.ul,
                ur: self.u.fr,
                dl: self.b.dl,
                dr: self.u.br,
            },
        }
    }

    /// The slot from which a clockwise quarter turn of the right face brings
    /// the cubie that ends up at `slot`.
    pub open spec fn right_source(slot: CubeletPos) -> CubeletPos {
        match slot {
            CubeletPos::ULF => CubeletPos::ULF,
            CubeletPos::ULB => CubeletPos::ULB,
            CubeletPos::URF => CubeletPos::DRF,
            CubeletPos::URB => CubeletPos::URF,
            CubeletPos::DLF => CubeletPos::DLF,
            CubeletPos::DLB => CubeletPos::DLB,
            CubeletPos::DRF => CubeletPos::DRB,
            CubeletPos::DRB => CubeletPos::URB,
        }
    }

    /// A quarter turn of the right face carries whole cubies from slot to
    /// slot: what arrives at `slot` is the cubie from its source, perhaps
    /// read from another of its stickers.
    pub proof fn lemma_right_carries(self, slot: CubeletPos)
        ensures
            turns_to(
                self.corner(Cube::right_source(slot)),
                self.spec_right().corner(slot).0,
                self.spec_right().corner(slot).1,
                self.spec_right().corner(slot).2,
            ),
    {
        reveal(Cube::spec_right);
    }

    /// A quarter turn of the right face keeps a well-formed cube well-formed.
    pub proof fn lemma_right_wf(self)
        requires
            self.wf(),
        ensures
            self.spec_right().wf(),
    {
        let c = self.spec_right();
        assert forall|s: CubeletPos| c.corner_ok(s) by {
            let s0 = Cube::right_source(s);
            self.lemma_right_carries(s);
            assert(self.corner_ok(s0));
            lemma_corner_facts(self.corner(s0).0, self.corner(s0).1, self.corner(s0).2);
        }
        assert(c.corners_ok());
        assert forall|s: CubeletPos, t: CubeletPos| s != t implies #[trigger] c.corners_differ(
            s,
            t,
        ) by {
            let s0 = Cube::right_source(s);
            let t0 = Cube::right_source(t);
            self.lemma_right_carries(s);
            self.lemma_right_carries(t);
            assert(self.corners_differ(s0, t0));
            lemma_differ_turned(self.corner(s0), self.corner(t0), c.corner(s), c.corner(t));
        }
    }

    /// Turns the right face a quarter turn clockwise.
    #[verifier::when_used_as_spec(spec_right)]
    pub fn right(self) -> (r: Cube)
        ensures
            r == self.spec_right(),
            self.wf() ==> r.wf(),
    {
        proof {
            reveal(Cube::spec_right);
            if self.wf() {
                self.lemma_right_wf();
            }
        }
        let Cube { u, d, r, l, f, b } = self;
        Cube {
            u: UDFace {
                bl: u.bl,
                br: f.ur,
                fl: u.fl,
                fr: f.dr,
            },
            d: UDFace {
                bl: d.bl,
                br: b.ur,
                fl: d.fl,
                fr: b.dr,
            },
            r: LRFace {
                ub: r.uf,
                uf: r.df,
                db: r.ub,
                df: r.db,
            },
            l,
            f: FBFace {
                ul: f.ul,
                ur: d.fr,
                dl: f.dl,
                dr: d.br,
            },
            b: FBFace {
                ul: b.ul,
                ur: u.fr,
                dl: b.dl,
                dr: u.br,
            },
        }
    }

    /// The cube after a half turn of the right face.
    pub open spec fn spec_right_two(self) -> Cube {
        self.spec_right().spec_right()
    }

    /// Turns the right face a half turn: two quarter turns.
    #[verifier::when_used_as_spec(spec_right_two)]
    pub fn right_two(self) -> (r: Cube)
        ensures
            r == self.spec_right_two(),
            self.wf() ==> r.wf(),
    {
        self.right().right()
    }

    /// The cube after a counter-clockwise quarter turn of the right face.
    pub open spec fn spec_right_rev(self) -> Cube {
        self.spec_right().spec_right().spec_right()
    }

    /// Turns the right face a quarter turn counter-clockwise: three quarter
    /// turns clockwise.
    #[verifier::when_used_as_spec(spec_right_rev)]
    pub fn right_rev(self) -> (r: Cube)
        ensures
            r == self.spec_right_rev(),
            self.wf() ==> r.wf(),
    {
        self.right().right().right()
    }

    /// The cube after a clockwise quarter turn of the upper face.
    #[verifier::opaque]
    pub open spec fn spec_up(self) -> Cube {
        Cube {
            u: UDFace {
                bl: self.u.fl,
                br: self.u.bl,
                fl: self.u.fr,
                fr: self.u.br,
            },
            d: self.d,
            r: LRFace {
                ub: self.b.ul,
                uf: self.b.ur,
                db: self.r.db,
                df: self.r.df,
            },
            l: LRFace {
                ub: self.f.ul,
                uf: self.f.ur,
                db: self.l.db,
                df: self.l.df,
            },
            f: FBFace {
                ul: self.r.uf,
                ur: self.r.ub,
                dl: self.f.dl,
                dr: self.f.dr,
            },
            b: FBFace {
                ul: self.l.uf,
                ur: self.l.ub,
                dl: self.b.dl,
                dr: self.b.dr,
            },
        }
    }

    /// The slot from which a clockwise quarter turn of the upper face brings
    /// the cubie that ends up at `slot`.
    pub open spec fn up_source(slot: CubeletPos) -> CubeletPos {
        match slot {
            CubeletPos::ULF => CubeletPos::URF,
            CubeletPos::ULB => CubeletPos::ULF,
            CubeletPos::URF => CubeletPos::URB,
            CubeletPos::URB => CubeletPos::ULB,
            CubeletPos::DLF => CubeletPos::DLF,
            CubeletPos::DLB => CubeletPos::DLB,
            CubeletPos::DRF => CubeletPos::DRF,
            CubeletPos::DRB => CubeletPos::DRB,
        }
    }

    /// A quarter turn of the upper face carries whole cubies from slot to
    /// slot: what arrives at `slot` is the cubie from its source, perhaps
    /// read from another of its stickers.
    pub proof fn lemma_up_carries(self, slot: CubeletPos)
        ensures
            turns_to(
                self.corner(Cube::up_source(slot)),
                self.spec_up().corner(slot).0,
                self.spec_up().corner(slot).1,
                self.spec_up().corner(slot).2,
            ),
    {
        reveal(Cube::spec_up);
    }

    /// A quarter turn of the upper face keeps a well-formed cube well-formed.
    pub proof fn lemma_up_wf(self)
        requires
            self.wf(),
        ensures
            self.spec_up().wf(),
    {
        let c = self.spec_up();
        assert forall|s: CubeletPos| c.corner_ok(s) by {
            let s0 = Cube::up_source(s);
            self.lemma_up_carries(s);
            assert(self.corner_ok(s0));
            lemma_corner_facts(self.corner(s0).0, self.corner(s0).1, self.corner(s0).2);
        }
        assert(c.corners_ok());
        assert forall|s: CubeletPos, t: CubeletPos| s != t implies #[trigger] c.corners_differ(
            s,
            t,
        ) by {
            let s0 = Cube::up_source(s);
            let t0 = Cube::up_source(t);
            self.lemma_up_carries(s);
            self.lemma_up_carries(t);
            assert(self.corners_differ(s0, t0));
            lemma_differ_turned(self.corner(s0), self.corner(t0), c.corner(s), c.corner(t));
        }
    }

    /// Turns the upper face a quarter turn clockwise.
    #[verifier::when_used_as_spec(spec_up)]
    pub fn up(self) -> (r: Cube)
        ensures
            r == self.spec_up(),
            self.wf() ==> r.wf(),
    {
        proof {
            reveal(Cube::spec_up);
            if self.wf() {
                self.lemma_up_wf();
            }
        }
        let Cube { u, d, r, l, f, b } = self;
        Cube {
            u: UDFace {
                bl: u.fl,
                br: u.bl,
                fl: u.fr,
                fr: u.br,
            },
            d,
            r: LRFace {
                ub: b.ul,
                uf: b.ur,
                db: r.db,
                df: r.df,
            },
            l: LRFace {
                ub: f.ul,
                uf: f.ur,
                db: l.db,
                df: l.df,
            },
            f: FBFace {
                ul: r.uf,
                ur: r.ub,
                dl: f.dl,
                dr: f.dr,
            },
            b: FBFace {
                ul: l.uf,
                ur: l.ub,
                dl: b.dl,
                dr: b.dr,
            },
        }
    }

    /// The cube after a half turn of the upper face.
    pub open spec fn spec_up_two(self) -> Cube {
        self.spec_up().spec_up()
    }

    /// Turns the upper face a half turn: two quarter turns.
    #[verifier::when_used_as_spec(spec_up_two)]
    pub fn up_two(self) -> (r: Cube)
        ensures
            r == self.spec_up_two(),
            self.wf() ==> r.wf(),
    {
        self.up().up()
    }

    /// The cube after a counter-clockwise quarter turn of the upper face.
    pub open spec fn spec_up_rev(self) -> Cube {
        self.spec_up().spec_up().spec_up()
    }

    /// Turns the upper face a quarter turn counter-clockwise: three quarter
    /// turns clockwise.
    #[verifier::when_used_as_spec(spec_up_rev)]
    pub fn up_rev(self) -> (r: Cube)
        ensures
            r == self.spec_up_rev(),
            self.wf() ==> r.wf(),
    {
        self.up().up().up()
    }

    /// The cube after a clockwise quarter turn of the front face.
    #[verifier::opaque]
    pub open spec fn spec_front(self) -> Cube {
        Cube {
            u: UDFace {
                bl: self.u.bl,
                br: self.u.br,
                fl: self.l.df,
                fr: self.l.uf,
            },
            d: UDFace {
                bl: self.d.bl,
                br: self.d.br,
                fl: self.r.df,
                fr: self.r.uf,
            },
            r: LRFace {
                ub: self.r.ub,
                uf: self.u.fl,
                db: self.r.db,
                df: self.u.fr,
            },
            l: LRFace {
                ub: self.l.ub,
                uf: self.d.fl,
                db: self.l.db,
                df: self.d.fr,
            },
            f: FBFace {
                ul: self.f.dl,
                ur: self.f.ul,
                dl: self.f.dr,
                dr: self.f.ur,
            },
            b: self.b,
        }
    }

    /// The slot from which a clockwise quarter turn of the front face brings
    /// the cubie that ends up at `slot`.
    pub open spec fn front_source(slot: CubeletPos) -> CubeletPos {
        match slot {
            CubeletPos::ULF => CubeletPos::DLF,
            CubeletPos::ULB => CubeletPos::ULB,
            CubeletPos::URF => CubeletPos::ULF,
            CubeletPos::URB => CubeletPos::URB,
            CubeletPos::DLF => CubeletPos::DRF,
            CubeletPos::DLB => CubeletPos::DLB,
            CubeletPos::DRF => CubeletPos::URF,
            CubeletPos::DRB => CubeletPos::DRB,
        }
    }

    /// A quarter turn of the front face carries whole cubies from slot to
    /// slot: what arrives at `slot` is the cubie from its source, perhaps
    /// read from another of its stickers.
    pub proof fn lemma_front_carries(self, slot: CubeletPos)
        ensures
            turns_to(
                self.corner(Cube::front_source(slot)),
                self.spec_front().corner(slot).0,
                self.spec_front().corner(slot).1,
                self.spec_front().corner(slot).2,
            ),
    {
        reveal(Cube::spec_front);
    }

    /// A quarter turn of the front face keeps a well-formed cube well-formed.
    pub proof fn lemma_front_wf(self)
        requires
            self.wf(),
        ensures
            self.spec_front().wf(),
    {
        let c = self.spec_front();
        assert forall|s: CubeletPos| c.corner_ok(s) by {
            let s0 = Cube::front_source(s);
            self.lemma_front_carries(s);
            assert(self.corner_ok(s0));
            lemma_corner_facts(self.corner(s0).0, self.corner(s0).1, self.corner(s0).2);
        }
        assert(c.corners_ok());
        assert forall|s: CubeletPos, t: CubeletPos| s != t implies #[trigger] c.corners_differ(
            s,
            t,
        ) by {
            let s0 = Cube::front_source(s);
            let t0 = Cube::front_source(t);
            self.lemma_front_carries(s);
            self.lemma_front_carries(t);
            assert(self.corners_differ(s0, t0));
            lemma_differ_turned(self.corner(s0), self.corner(t0), c.corner(s), c.corner(t));
        }
    }

    /// Turns the front face a quarter turn clockwise.
    #[verifier::when_used_as_spec(spec_front)]
    pub fn front(self) -> (r: Cube)
        ensures
            r == self.spec_front(),
            self.wf() ==> r.wf(),
    {
        proof {
            reveal(Cube::spec_front);
            if self.wf() {
                self.lemma_front_wf();
            }
        }
        let Cube { u, d, r, l, f, b } = self;
        Cube {
            u: UDFace {
                bl: u.bl,
                br: u.br,
                fl: l.df,
                fr: l.uf,
            },
            d: UDFace {
                bl: d.bl,
                br: d.br,
                fl: r.df,
                fr: r.uf,
            },
            r: LRFace {
                ub: r.ub,
                uf: u.fl,
                db: r.db,
                df: u.fr,
            },
            l: LRFace {
                ub: l.ub,
                uf: d.fl,
                db: l.db,
                df: d.fr,
            },
            f: FBFace {
                ul: f.dl,
                ur: f.ul,
                dl: f.dr,
                dr: f.ur,
            },
            b,
        }
    }

    /// The cube after a half turn of the front face.
    pub open spec fn spec_front_two(self) -> Cube {
        self.spec_front().spec_front()
    }

    /// Turns the front face a half turn: two quarter turns.
    #[verifier::when_used_as_spec(spec_front_two)]
    pub fn front_two(self) -> (r: Cube)
        ensures
            r == self.spec_front_two(),
            self.wf() ==> r.wf(),
    {
        self.front().front()
    }

    /// The cube after a counter-clockwise quarter turn of the front face.
    pub open spec fn spec_front_rev(self) -> Cube {
        self.spec_front().spec_front().spec_front()
    }

    /// Turns the front face a quarter turn counter-clockwise: three quarter
    /// turns clockwise.
    #[verifier::when_used_as_spec(spec_front_rev)]
    pub fn front_rev(self) -> (r: Cube)
        ensures
            r == self.spec_front_rev(),
            self.wf() ==> r.wf(),
    {
        self.front().front().front()
    }

    /// The cube after a clockwise quarter turn of the lower face.
    #[verifier::opaque]
    pub open spec fn spec_down(self) -> Cube {
        Cube {
            u: self.u,
            d: UDFace {
                bl: self.d.br,
                br: self.d.fr,
                fl: self.d.bl,
                fr: self.d.fl,
            },
            r: LRFace {
                ub: self.r.ub,
                uf: self.r.uf,
                db: self.f.dr,
                df: self.f.dl,
            },
            l: LRFace {
                ub: self.l.ub,
                uf: self.l.uf,
                db: self.b.dr,
                df: self.b.dl,
            },
            f: FBFace {
                ul: self.f.ul,
                ur: self.f.ur,
                dl: self.l.db,
                dr: self.l.df,
            },
            b: FBFace {
                ul: self.b.ul,
                ur: self.b.ur,
                dl: self.r.db,
                dr: self.r.df,
            },
        }
    }

    /// The slot from which a clockwise quarter turn of the lower face brings
    /// the cubie that ends up at `slot`.
    pub open spec fn down_source(slot: CubeletPos) -> CubeletPos {
        match slot {
            CubeletPos::ULF => CubeletPos::ULF,
            CubeletPos::ULB => CubeletPos::ULB,
            CubeletPos::URF => CubeletPos::URF,
            CubeletPos::URB => CubeletPos::URB,
            CubeletPos::DLF => CubeletPos::DLB,
            CubeletPos::DLB => CubeletPos::DRB,
            CubeletPos::DRF => CubeletPos::DLF,
            CubeletPos::DRB => CubeletPos::DRF,
        }
    }

    /// A quarter turn of the lower face carries whole cubies from slot to
    /// slot: what arrives at `slot` is the cubie from its source, perhaps
    /// read from another of its stickers.
    pub proof fn lemma_down_carries(self, slot: CubeletPos)
        ensures
            turns_to(
                self.corner(Cube::down_source(slot)),
                self.spec_down().corner(slot).0,
                self.spec_down().corner(slot).1,
                self.spec_down().corner(slot).2,
            ),
    {
        reveal(Cube::spec_down);
    }

    /// A quarter turn of the lower face keeps a well-formed cube well-formed.
    pub proof fn lemma_down_wf(self)
        requires
            self.wf(),
        ensures
            self.spec_down().wf(),
    {
        let c = self.spec_down();
        assert forall|s: CubeletPos| c.corner_ok(s) by {
            let s0 = Cube::down_source(s);
            self.lemma_down_carries(s);
            assert(self.corner_ok(s0));
            lemma_corner_facts(self.corner(s0).0, self.corner(s0).1, self.corner(s0).2);
        }
        assert(c.corners_ok());
        assert forall|s: CubeletPos, t: CubeletPos| s != t implies #[trigger] c.corners_differ(
            s,
            t,
        ) by {
            let s0 = Cube::down_source(s);
            let t0 = Cube::down_source(t);
            self.lemma_down_carries(s);
            self.lemma_down_carries(t);
            assert(self.corners_differ(s0, t0));
            lemma_differ_turned(self.corner(s0), self.corner(t0), c.corner(s), c.corner(t));
        }
    }

    /// Turns the lower face a quarter turn clockwise.
    #[verifier::when_used_as_spec(spec_down)]
    pub fn down(self) -> (r: Cube)
        ensures
            r == self.spec_down(),
            self.wf() ==> r.wf(),
    {
        proof {
            reveal(Cube::spec_down);
            if self.wf() {
                self.lemma_down_wf();
            }
        }
        let Cube { u, d, r, l, f, b } = self;
        Cube {
            u,
            d: UDFace {
                bl: d.br,
                br: d.fr,
                fl: d.bl,
                fr: d.fl,
            },
            r: LRFace {
                ub: r.ub,
                uf: r.uf,
                db: f.dr,
                df: f.dl,
            },
            l: LRFace {
                ub: l.ub,
                uf: l.uf,
                db: b.dr,
                df: b.dl,
            },
            f: FBFace {
                ul: f.ul,
                ur: f.ur,
                dl: l.db,
                dr: l.df,
            },
            b: FBFace {
                ul: b.ul,
                ur: b.ur,
                dl: r.db,
                dr: r.df,
            },
        }
    }

    /// The cube after a half turn of the lower face.
    pub open spec fn spec_down_two(self) -> Cube {
        self.spec_down().spec_down()
    }

    /// Turns the lower face a half turn: two quarter turns.
    #[verifier::when_used_as_spec(spec_down_two)]
    pub fn down_two(self) -> (r: Cube)
        ensures
            r == self.spec_down_two(),
            self.wf() ==> r.wf(),
    {
        self.down().down()
    }

    /// The cube after a counter-clockwise quarter turn of the lower face.
    pub open spec fn spec_down_rev(self) -> Cube {
        self.spec_down().spec_down().spec_down()
    }

    /// Turns the lower face a quarter turn counter-clockwise: three quarter
    /// turns clockwise.
    #[verifier::when_used_as_spec(spec_down_rev)]
    pub fn down_rev(self) -> (r: Cube)
        ensures
            r == self.spec_down_rev(),
            self.wf() ==> r.wf(),
    {
        self.down().down().down()
    }

    /// The cube after a clockwise quarter turn of the back face.
    #[verifier::opaque]
    pub open spec fn spec_back(self) -> Cube {
        Cube {
            u: UDFace {
                bl: self.r.ub,
                br: self.r.db,
                fl: self.u.fl,
                fr: self.u.fr,
            },
            d: UDFace {
                bl: self.l.ub,
                br: self.l.db,
                fl: self.d.fl,
                fr: self.d.fr,
            },
            r: LRFace {
                ub: self.d.br,
                uf: self.r.uf,
                db: self.d.bl,
                df: self.r.df,
            },
            l: LRFace {
                ub: self.u.br,
                uf: self.l.uf,
                db: self.u.bl,
                df: self.l.df,
            },
            f: self.f,
            b: FBFace {
                ul: self.b.ur,
                ur: self.b.dr,
                dl: self.b.ul,
                dr: self.b.dl,
            },
        }
    }

    /// The slot from which a clockwise quarter turn of the back face brings
    /// the cubie that ends up at `slot`.
    pub open spec fn back_source(slot: CubeletPos) -> CubeletPos {
        match slot {
            CubeletPos::ULF => CubeletPos::ULF,
            CubeletPos::ULB => CubeletPos::URB,
            CubeletPos::URF => CubeletPos::URF,
            CubeletPos::URB => CubeletPos::DRB,
            CubeletPos::DLF => CubeletPos::DLF,
            CubeletPos::DLB => CubeletPos::ULB,
            CubeletPos::DRF => CubeletPos::DRF,
            CubeletPos::DRB => CubeletPos::DLB,
        }
    }

    /// A quarter turn of the back face carries whole cubies from slot to
    /// slot: what arrives at `slot` is the cubie from its source, perhaps
    /// read from another of its stickers.
    pub proof fn lemma_back_carries(self, slot: CubeletPos)
        ensures
            turns_to(
                self.corner(Cube::back_source(slot)),
                self.spec_back().corner(slot).0,
                self.spec_back().corner(slot).1,
                self.spec_back().corner(slot).2,
            ),
    {
        reveal(Cube::spec_back);
    }

    /// A quarter turn of the back face keeps a well-formed cube well-formed.
    pub proof fn lemma_back_wf(self)
        requires
            self.wf(),
        ensures
            self.spec_back().wf(),
    {
        let c = self.spec_back();
        assert forall|s: CubeletPos| c.corner_ok(s) by {
            let s0 = Cube::back_source(s);
            self.lemma_back_carries(s);
            assert(self.corner_ok(s0));
            lemma_corner_facts(self.corner(s0).0, self.corner(s0).1, self.corner(s0).2);
        }
        assert(c.corners_ok());
        assert forall|s: CubeletPos, t: CubeletPos| s != t implies #[trigger] c.corners_differ(
            s,
            t,
        ) by {
            let s0 = Cube::back_source(s);
            let t0 = Cube::back_source(t);
            self.lemma_back_carries(s);
            self.lemma_back_carries(t);
            assert(self.corners_differ(s0, t0));
            lemma_differ_turned(self.corner(s0), self.corner(t0), c.corner(s), c.corner(t));
        }
    }

    /// Turns the back face a quarter turn clockwise.
    #[verifier::when_used_as_spec(spec_back)]
    pub fn back(self) -> (r: Cube)
        ensures
            r == self.spec_back(),
            self.wf() ==> r.wf(),
    {
        proof {
            reveal(Cube::spec_back);
            if self.wf() {
                self.lemma_back_wf();
            }
        }
        let Cube { u, d, r, l, f, b } = self;
        Cube {
            u: UDFace {
                bl: r.ub,
                br: r.db,
                fl: u.fl,
                fr: u.fr,
            },
            d: UDFace {
                bl: l.ub,
                br: l.db,
                fl: d.fl,
                fr: d.fr,
            },
            r: LRFace {
                ub: d.br,
                uf: r.uf,
                db: d.bl,
                df: r.df,
            },
            l: LRFace {
                ub: u.br,
                uf: l.uf,
                db: u.bl,
                df: l.df,
            },
            f,
            b: FBFace {
                ul: b.ur,
                ur: b.dr,
                dl: b.ul,
                dr: b.dl,
            },
        }
    }

    /// The cube after a half turn of the back face.
    pub open spec fn spec_back_two(self) -> Cube {
        self.spec_back().spec_back()
    }

    /// Turns the back face a half turn: two quarter turns.
    #[verifier::when_used_as_spec(spec_back_two)]
    pub fn back_two(self) -> (r: Cube)
        ensures
            r == self.spec_back_two(),
            self.wf() ==> r.wf(),
    {
        self.back().back()
    }

    /// The cube after a counter-clockwise quarter turn of the back face.
    pub open spec fn spec_back_rev(self) -> Cube {
        self.spec_back().spec_back().spec_back()
    }

    /// Turns the back face a quarter turn counter-clockwise: three quarter
    /// turns clockwise.
    #[verifier::when_used_as_spec(spec_back_rev)]
    pub fn back_rev(self) -> (r: Cube)
        ensures
            r == self.spec_back_rev(),
            self.wf() ==> r.wf(),
    {
        self.back().back().back()
    }

    /// Two half turns of one face change nothing, and a counter-clockwise
    /// quarter turn undoes a clockwise one.
    pub proof fn lemma_half_and_reverse_turns(self)
        ensures
            self.left_two().left_two() == self,
            self.right_two().right_two() == self,
            self.up_two().up_two() == self,
            self.front_two().front_two() == self,
            self.down_two().down_two() == self,
            self.back_two().back_two() == self,
            self.left().left_rev() == self && self.left_rev().left() == self,
            self.right().right_rev() == self && self.right_rev().right() == self,
            self.up().up_rev() == self && self.up_rev().up() == self,
            self.front().front_rev() == self && self.front_rev().front() == self,
            self.down().down_rev() == self && self.down_rev().down() == self,
            self.back().back_rev() == self && self.back_rev().back() == self,
    {
        self.lemma_quarter_turns();
    }

    /// Four quarter turns of one face change nothing.
    pub proof fn lemma_quarter_turns(self)
        ensures
            self.left().left().left().left() == self,
            self.right().right().right().right() == self,
            self.up().up().up().up() == self,
            self.front().front().front().front() == self,
            self.down().down().down().down() == self,
            self.back().back().back().back() == self,
    {
        assert(self.left().left().left().left() == self) by {
            reveal(Cube::spec_left);
            let c = self.left().left().left().left();
            assert(c.u == self.u && c.d == self.d && c.r == self.r && c.l == self.l && c.f == self.f && c.b == self.b);
        }
        assert(self.right().right().right().right() == self) by {
            reveal(Cube::spec_right);
            let c = self.right().right().right().right();
            assert(c.u == self.u && c.d == self.d && c.r == self.r && c.l == self.l && c.f == self.f && c.b == self.b);
        }
        assert(self.up().up().up().up() == self) by {
            reveal(Cube::spec_up);
            let c = self.up().up().up().up();
            assert(c.u == self.u && c.d == self.d && c.r == self.r && c.l == self.l && c.f == self.f && c.b == self.b);
        }
        assert(self.front().front().front().front() == self) by {
            reveal(Cube::spec_front);
            let c = self.front().front().front().front();
            assert(c.u == self.u && c.d == self.d && c.r == self.r && c.l == self.l && c.f == self.f && c.b == self.b);
        }
        assert(self.down().down().down().down() == self) by {
            reveal(Cube::spec_down);
            let c = self.down().down().down().down();
            assert(c.u == self.u && c.d == self.d && c.r == self.r && c.l == self.l && c.f == self.f && c.b == self.b);
        }
        assert(self.back().back().back().back() == self) by {
            reveal(Cube::spec_back);
            let c = self.back().back().back().back();
            assert(c.u == self.u && c.d == self.d && c.r == self.r && c.l == self.l && c.f == self.f && c.b == self.b);
        }
    }
}

} // verus!
