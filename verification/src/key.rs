//! Numbers that stand for puzzle states, so that tables can be keyed by
//! them: different states always get different numbers.

use vstd::prelude::*;
use crate::arrangement::{CubeletArrangement, CubeletOrientation, CubeletOrientationArrangement};
use crate::cube::{Cube, CubeletPos, FBFace, Facelet, LRFace, UDFace};

verus! {

/// A value with a number of its own.
pub trait Keyed: Sized {
    /// The number that stands for the value.
    spec fn spec_key(self) -> u64;

    /// Computes the number that stands for the value.
    fn key(&self) -> (k: u64)
        ensures
            k == self.spec_key(),
    ;

    /// Different values have different numbers.
    proof fn lemma_key_injective(self, other: Self)
        ensures
            self.spec_key() == other.spec_key() ==> self == other,
    ;
}

/// The number with the digit `lo` appended to the digits of `hi`, in the
/// given base.
pub open spec fn pack(hi: int, lo: int, base: int) -> int {
    hi * base + lo
}

/// Appending digits is one to one.
pub proof fn lemma_pack_injective(hi: int, lo: int, hi2: int, lo2: int, base: int)
    requires
        0 <= lo < base,
        0 <= lo2 < base,
        pack(hi, lo, base) == pack(hi2, lo2, base),
    ensures
        hi == hi2,
        lo == lo2,
{
    assert((hi - hi2) * base == lo2 - lo) by (nonlinear_arith)
        requires
            hi * base + lo == hi2 * base + lo2,
    ;
    if hi != hi2 {
        assert((hi - hi2) * base >= base || (hi - hi2) * base <= -base) by (nonlinear_arith)
            requires
                hi != hi2,
                base > 0,
        ;
    }
}

impl Facelet {
    /// The digit that stands for the color.
    #[verifier::opaque]
    pub open spec fn spec_digit(self) -> int {
        match self {
            Facelet::Yellow => 0,
            Facelet::Red => 1,
            Facelet::White => 2,
            Facelet::Orange => 3,
            Facelet::Blue => 4,
            Facelet::Green => 5,
        }
    }

    /// The digit that stands for the color.
    pub fn digit(&self) -> (d: u64)
        ensures
            d == self.spec_digit(),
            d < 6,
    {
        proof {
            reveal(Facelet::spec_digit);
        }
        match self {
            Facelet::Yellow => 0,
            Facelet::Red => 1,
            Facelet::White => 2,
            Facelet::Orange => 3,
            Facelet::Blue => 4,
            Facelet::Green => 5,
        }
    }
}

impl CubeletPos {
    /// The digit that stands for the slot.
    #[verifier::opaque]
    pub open spec fn spec_digit(self) -> int {
        match self {
            CubeletPos::DLB => 0,
            CubeletPos::DLF => 1,
            CubeletPos::DRF => 2,
            CubeletPos::DRB => 3,
            CubeletPos::ULB => 4,
            CubeletPos::ULF => 5,
            CubeletPos::URF => 6,
            CubeletPos::URB => 7,
        }
    }

    /// The digit that stands for the slot.
    pub fn digit(&self) -> (d: u64)
        ensures
            d == self.spec_digit(),
            d < 8,
    {
        proof {
            reveal(CubeletPos::spec_digit);
        }
        match self {
            CubeletPos::DLB => 0,
            CubeletPos::DLF => 1,
            CubeletPos::DRF => 2,
            CubeletPos::DRB => 3,
            CubeletPos::ULB => 4,
            CubeletPos::ULF => 5,
            CubeletPos::URF => 6,
            CubeletPos::URB => 7,
        }
    }
}

impl Facelet {
    /// Different colors have different digits, all below six.
    pub proof fn lemma_digit_injective(self, other: Facelet)
        ensures
            0 <= self.spec_digit() < 6,
            self.spec_digit() == other.spec_digit() ==> self == other,
    {
        reveal(Facelet::spec_digit);
    }
}

impl CubeletPos {
    /// Different slots have different digits, all below eight.
    pub proof fn lemma_digit_injective(self, other: CubeletPos)
        ensures
            0 <= self.spec_digit() < 8,
            self.spec_digit() == other.spec_digit() ==> self == other,
    {
        reveal(CubeletPos::spec_digit);
    }
}

impl CubeletOrientation {
    /// Different twists have different digits, all below three.
    pub proof fn lemma_digit_injective(self, other: CubeletOrientation)
        ensures
            0 <= self.spec_digit() < 3,
            self.spec_digit() == other.spec_digit() ==> self == other,
    {
        reveal(CubeletOrientation::spec_digit);
    }
}

impl CubeletOrientation {
    /// The digit that stands for the twist.
    #[verifier::opaque]
    pub open spec fn spec_digit(self) -> int {
        match self {
            CubeletOrientation::OK => 0,
            CubeletOrientation::CW => 1,
            CubeletOrientation::CCW => 2,
        }
    }

    /// The digit that stands for the twist.
    pub fn digit(&self) -> (d: u64)
        ensures
            d == self.spec_digit(),
            d < 3,
    {
        proof {
            reveal(CubeletOrientation::spec_digit);
        }
        match self {
            CubeletOrientation::OK => 0,
            CubeletOrientation::CW => 1,
            CubeletOrientation::CCW => 2,
        }
    }
}

impl CubeletArrangement {
    /// The digits of the eight slots, read as one number.
    pub open spec fn digits(self) -> int {
        pack(pack(pack(pack(pack(pack(pack(self.ulf.spec_digit(), self.ulb.spec_digit(), 8), self.urf.spec_digit(), 8), self.urb.spec_digit(), 8), self.dlf.spec_digit(), 8), self.dlb.spec_digit(), 8), self.drf.spec_digit(), 8), self.drb.spec_digit(), 8)
    }

    /// The digits of the eight slots make a number that fits the key.
    pub proof fn lemma_key_bound(self)
        ensures
            0 <= self.digits() < 16777216,
    {
        self.ulf.lemma_digit_injective(self.ulf);
        self.ulb.lemma_digit_injective(self.ulb);
        self.urf.lemma_digit_injective(self.urf);
        self.urb.lemma_digit_injective(self.urb);
        self.dlf.lemma_digit_injective(self.dlf);
        self.dlb.lemma_digit_injective(self.dlb);
        self.drf.lemma_digit_injective(self.drf);
        self.drb.lemma_digit_injective(self.drb);
    }
}

impl Keyed for CubeletArrangement {
    open spec fn spec_key(self) -> u64 {
        self.digits() as u64
    }

    fn key(&self) -> (k: u64) {
        proof {
            self.lemma_key_bound();
        }
        let d = self.ulf.digit();
        let mut k: u64 = d;
        let d = self.ulb.digit();
        assert(k < 8);
        k = k * 8 + d;
        assert(k == pack(self.ulf.spec_digit(), self.ulb.spec_digit(), 8));
        let d = self.urf.digit();
        assert(k < 64);
        k = k * 8 + d;
        assert(k == pack(pack(self.ulf.spec_digit(), self.ulb.spec_digit(), 8), self.urf.spec_digit(), 8));
        let d = self.urb.digit();
        assert(k < 512);
        k = k * 8 + d;
        assert(k == pack(pack(pack(self.ulf.spec_digit(), self.ulb.spec_digit(), 8), self.urf.spec_digit(), 8), self.urb.spec_digit(), 8));
        let d = self.dlf.digit();
        assert(k < 4096);
        k = k * 8 + d;
        assert(k == pack(pack(pack(pack(self.ulf.spec_digit(), self.ulb.spec_digit(), 8), self.urf.spec_digit(), 8), self.urb.spec_digit(), 8), self.dlf.spec_digit(), 8));
        let d = self.dlb.digit();
        assert(k < 32768);
        k = k * 8 + d;
        assert(k == pack(pack(pack(pack(pack(self.ulf.spec_digit(), self.ulb.spec_digit(), 8), self.urf.spec_digit(), 8), self.urb.spec_digit(), 8), self.dlf.spec_digit(), 8), self.dlb.spec_digit(), 8));
        let d = self.drf.digit();
        assert(k < 262144);
        k = k * 8 + d;
        assert(k == pack(pack(pack(pack(pack(pack(self.ulf.spec_digit(), self.ulb.spec_digit(), 8), self.urf.spec_digit(), 8), self.urb.spec_digit(), 8), self.dlf.spec_digit(), 8), self.dlb.spec_digit(), 8), self.drf.spec_digit(), 8));
        let d = self.drb.digit();
        assert(k < 2097152);
        k = k * 8 + d;
        assert(k == pack(pack(pack(pack(pack(pack(pack(self.ulf.spec_digit(), self.ulb.spec_digit(), 8), self.urf.spec_digit(), 8), self.urb.spec_digit(), 8), self.dlf.spec_digit(), 8), self.dlb.spec_digit(), 8), self.drf.spec_digit(), 8), self.drb.spec_digit(), 8));
        k
    }

    #[verifier::spinoff_prover]
    proof fn lemma_key_injective(self, other: CubeletArrangement) {
        if self.spec_key() == other.spec_key() {
            self.lemma_key_bound();
            other.lemma_key_bound();
            self.ulf.lemma_digit_injective(other.ulf);
            other.ulf.lemma_digit_injective(self.ulf);
            self.ulb.lemma_digit_injective(other.ulb);
            other.ulb.lemma_digit_injective(self.ulb);
            self.urf.lemma_digit_injective(other.urf);
            other.urf.lemma_digit_injective(self.urf);
            self.urb.lemma_digit_injective(other.urb);
            other.urb.lemma_digit_injective(self.urb);
            self.dlf.lemma_digit_injective(other.dlf);
            other.dlf.lemma_digit_injective(self.dlf);
            self.dlb.lemma_digit_injective(other.dlb);
            other.dlb.lemma_digit_injective(self.dlb);
            self.drf.lemma_digit_injective(other.drf);
            other.drf.lemma_digit_injective(self.drf);
            self.drb.lemma_digit_injective(other.drb);
            other.drb.lemma_digit_injective(self.drb);
            lemma_pack_injective(
                pack(pack(pack(pack(pack(pack(self.ulf.spec_digit(), self.ulb.spec_digit(), 8), self.urf.spec_digit(), 8), self.urb.spec_digit(), 8), self.dlf.spec_digit(), 8), self.dlb.spec_digit(), 8), self.drf.spec_digit(), 8),
                self.drb.spec_digit(),
                pack(pack(pack(pack(pack(pack(other.ulf.spec_digit(), other.ulb.spec_digit(), 8), other.urf.spec_digit(), 8), other.urb.spec_digit(), 8), other.dlf.spec_digit(), 8), other.dlb.spec_digit(), 8), other.drf.spec_digit(), 8),
                other.drb.spec_digit(),
                8,
            );
            self.drb.lemma_digit_injective(other.drb);
            lemma_pack_injective(
                pack(pack(pack(pack(pack(self.ulf.spec_digit(), self.ulb.spec_digit(), 8), self.urf.spec_digit(), 8), self.urb.spec_digit(), 8), self.dlf.spec_digit(), 8), self.dlb.spec_digit(), 8),
                self.drf.spec_digit(),
                pack(pack(pack(pack(pack(other.ulf.spec_digit(), other.ulb.spec_digit(), 8), other.urf.spec_digit(), 8), other.urb.spec_digit(), 8), other.dlf.spec_digit(), 8), other.dlb.spec_digit(), 8),
                other.drf.spec_digit(),
                8,
            );
            self.drf.lemma_digit_injective(other.drf);
            lemma_pack_injective(
                pack(pack(pack(pack(self.ulf.spec_digit(), self.ulb.spec_digit(), 8), self.urf.spec_digit(), 8), self.urb.spec_digit(), 8), self.dlf.spec_digit(), 8),
                self.dlb.spec_digit(),
                pack(pack(pack(pack(other.ulf.spec_digit(), other.ulb.spec_digit(), 8), other.urf.spec_digit(), 8), other.urb.spec_digit(), 8), other.dlf.spec_digit(), 8),
                other.dlb.spec_digit(),
                8,
            );
            self.dlb.lemma_digit_injective(other.dlb);
            lemma_pack_injective(
                pack(pack(pack(self.ulf.spec_digit(), self.ulb.spec_digit(), 8), self.urf.spec_digit(), 8), self.urb.spec_digit(), 8),
                self.dlf.spec_digit(),
                pack(pack(pack(other.ulf.spec_digit(), other.ulb.spec_digit(), 8), other.urf.spec_digit(), 8), other.urb.spec_digit(), 8),
                other.dlf.spec_digit(),
                8,
            );
            self.dlf.lemma_digit_injective(other.dlf);
            lemma_pack_injective(
                pack(pack(self.ulf.spec_digit(), self.ulb.spec_digit(), 8), self.urf.spec_digit(), 8),
                self.urb.spec_digit(),
                pack(pack(other.ulf.spec_digit(), other.ulb.spec_digit(), 8), other.urf.spec_digit(), 8),
                other.urb.spec_digit(),
                8,
            );
            self.urb.lemma_digit_injective(other.urb);
            lemma_pack_injective(
                pack(self.ulf.spec_digit(), self.ulb.spec_digit(), 8),
                self.urf.spec_digit(),
                pack(other.ulf.spec_digit(), other.ulb.spec_digit(), 8),
                other.urf.spec_digit(),
                8,
            );
            self.urf.lemma_digit_injective(other.urf);
            lemma_pack_injective(
                self.ulf.spec_digit(),
                self.ulb.spec_digit(),
                other.ulf.spec_digit(),
                other.ulb.spec_digit(),
                8,
            );
            self.ulb.lemma_digit_injective(other.ulb);
            self.ulf.lemma_digit_injective(other.ulf);
        }
    }
}

impl CubeletOrientationArrangement {
    /// The digits of the eight slots, read as one number.
    pub open spec fn digits(self) -> int {
        pack(pack(pack(pack(pack(pack(pack(self.ulf.spec_digit(), self.ulb.spec_digit(), 3), self.urf.spec_digit(), 3), self.urb.spec_digit(), 3), self.dlf.spec_digit(), 3), self.dlb.spec_digit(), 3), self.drf.spec_digit(), 3), self.drb.spec_digit(), 3)
    }

    /// The digits of the eight slots make a number that fits the key.
    pub proof fn lemma_key_bound(self)
        ensures
            0 <= self.digits() < 6561,
    {
        self.ulf.lemma_digit_injective(self.ulf);
        self.ulb.lemma_digit_injective(self.ulb);
        self.urf.lemma_digit_injective(self.urf);
        self.urb.lemma_digit_injective(self.urb);
        self.dlf.lemma_digit_injective(self.dlf);
        self.dlb.lemma_digit_injective(self.dlb);
        self.drf.lemma_digit_injective(self.drf);
        self.drb.lemma_digit_injective(self.drb);
    }
}

impl Keyed for CubeletOrientationArrangement {
    open spec fn spec_key(self) -> u64 {
        self.digits() as u64
    }

    fn key(&self) -> (k: u64) {
        proof {
            self.lemma_key_bound();
        }
        let d = self.ulf.digit();
        let mut k: u64 = d;
        let d = self.ulb.digit();
        assert(k < 3);
        k = k * 3 + d;
        assert(k == pack(self.ulf.spec_digit(), self.ulb.spec_digit(), 3));
        let d = self.urf.digit();
        assert(k < 9);
        k = k * 3 + d;
        assert(k == pack(pack(self.ulf.spec_digit(), self.ulb.spec_digit(), 3), self.urf.spec_digit(), 3));
        let d = self.urb.digit();
        assert(k < 27);
        k = k * 3 + d;
        assert(k == pack(pack(pack(self.ulf.spec_digit(), self.ulb.spec_digit(), 3), self.urf.spec_digit(), 3), self.urb.spec_digit(), 3));
        let d = self.dlf.digit();
        assert(k < 81);
        k = k * 3 + d;
        assert(k == pack(pack(pack(pack(self.ulf.spec_digit(), self.ulb.spec_digit(), 3), self.urf.spec_digit(), 3), self.urb.spec_digit(), 3), self.dlf.spec_digit(), 3));
        let d = self.dlb.digit();
        assert(k < 243);
        k = k * 3 + d;
        assert(k == pack(pack(pack(pack(pack(self.ulf.spec_digit(), self.ulb.spec_digit(), 3), self.urf.spec_digit(), 3), self.urb.spec_digit(), 3), self.dlf.spec_digit(), 3), self.dlb.spec_digit(), 3));
        let d = self.drf.digit();
        assert(k < 729);
        k = k * 3 + d;
        assert(k == pack(pack(pack(pack(pack(pack(self.ulf.spec_digit(), self.ulb.spec_digit(), 3), self.urf.spec_digit(), 3), self.urb.spec_digit(), 3), self.dlf.spec_digit(), 3), self.dlb.spec_digit(), 3), self.drf.spec_digit(), 3));
        let d = self.drb.digit();
        assert(k < 2187);
        k = k * 3 + d;
        assert(k == pack(pack(pack(pack(pack(pack(pack(self.ulf.spec_digit(), self.ulb.spec_digit(), 3), self.urf.spec_digit(), 3), self.urb.spec_digit(), 3), self.dlf.spec_digit(), 3), self.dlb.spec_digit(), 3), self.drf.spec_digit(), 3), self.drb.spec_digit(), 3));
        k
    }

    #[verifier::spinoff_prover]
    proof fn lemma_key_injective(self, other: CubeletOrientationArrangement) {
        if self.spec_key() == other.spec_key() {
            self.lemma_key_bound();
            other.lemma_key_bound();
            self.ulf.lemma_digit_injective(other.ulf);
            other.ulf.lemma_digit_injective(self.ulf);
            self.ulb.lemma_digit_injective(other.ulb);
            other.ulb.lemma_digit_injective(self.ulb);
            self.urf.lemma_digit_injective(other.urf);
            other.urf.lemma_digit_injective(self.urf);
            self.urb.lemma_digit_injective(other.urb);
            other.urb.lemma_digit_injective(self.urb);
            self.dlf.lemma_digit_injective(other.dlf);
            other.dlf.lemma_digit_injective(self.dlf);
            self.dlb.lemma_digit_injective(other.dlb);
            other.dlb.lemma_digit_injective(self.dlb);
            self.drf.lemma_digit_injective(other.drf);
            other.drf.lemma_digit_injective(self.drf);
            self.drb.lemma_digit_injective(other.drb);
            other.drb.lemma_digit_injective(self.drb);
            lemma_pack_injective(
                pack(pack(pack(pack(pack(pack(self.ulf.spec_digit(), self.ulb.spec_digit(), 3), self.urf.spec_digit(), 3), self.urb.spec_digit(), 3), self.dlf.spec_digit(), 3), self.dlb.spec_digit(), 3), self.drf.spec_digit(), 3),
                self.drb.spec_digit(),
                pack(pack(pack(pack(pack(pack(other.ulf.spec_digit(), other.ulb.spec_digit(), 3), other.urf.spec_digit(), 3), other.urb.spec_digit(), 3), other.dlf.spec_digit(), 3), other.dlb.spec_digit(), 3), other.drf.spec_digit(), 3),
                other.drb.spec_digit(),
                3,
            );
            self.drb.lemma_digit_injective(other.drb);
            lemma_pack_injective(
                pack(pack(pack(pack(pack(self.ulf.spec_digit(), self.ulb.spec_digit(), 3), self.urf.spec_digit(), 3), self.urb.spec_digit(), 3), self.dlf.spec_digit(), 3), self.dlb.spec_digit(), 3),
                self.drf.spec_digit(),
                pack(pack(pack(pack(pack(other.ulf.spec_digit(), other.ulb.spec_digit(), 3), other.urf.spec_digit(), 3), other.urb.spec_digit(), 3), other.dlf.spec_digit(), 3), other.dlb.spec_digit(), 3),
                other.drf.spec_digit(),
                3,
            );
            self.drf.lemma_digit_injective(other.drf);
            lemma_pack_injective(
                pack(pack(pack(pack(self.ulf.spec_digit(), self.ulb.spec_digit(), 3), self.urf.spec_digit(), 3), self.urb.spec_digit(), 3), self.dlf.spec_digit(), 3),
                self.dlb.spec_digit(),
                pack(pack(pack(pack(other.ulf.spec_digit(), other.ulb.spec_digit(), 3), other.urf.spec_digit(), 3), other.urb.spec_digit(), 3), other.dlf.spec_digit(), 3),
                other.dlb.spec_digit(),
                3,
            );
            self.dlb.lemma_digit_injective(other.dlb);
            lemma_pack_injective(
                pack(pack(pack(self.ulf.spec_digit(), self.ulb.spec_digit(), 3), self.urf.spec_digit(), 3), self.urb.spec_digit(), 3),
                self.dlf.spec_digit(),
                pack(pack(pack(other.ulf.spec_digit(), other.ulb.spec_digit(), 3), other.urf.spec_digit(), 3), other.urb.spec_digit(), 3),
                other.dlf.spec_digit(),
                3,
            );
            self.dlf.lemma_digit_injective(other.dlf);
            lemma_pack_injective(
                pack(pack(self.ulf.spec_digit(), self.ulb.spec_digit(), 3), self.urf.spec_digit(), 3),
                self.urb.spec_digit(),
                pack(pack(other.ulf.spec_digit(), other.ulb.spec_digit(), 3), other.urf.spec_digit(), 3),
                other.urb.spec_digit(),
                3,
            );
            self.urb.lemma_digit_injective(other.urb);
            lemma_pack_injective(
                pack(self.ulf.spec_digit(), self.ulb.spec_digit(), 3),
                self.urf.spec_digit(),
                pack(other.ulf.spec_digit(), other.ulb.spec_digit(), 3),
                other.urf.spec_digit(),
                3,
            );
            self.urf.lemma_digit_injective(other.urf);
            lemma_pack_injective(
                self.ulf.spec_digit(),
                self.ulb.spec_digit(),
                other.ulf.spec_digit(),
                other.ulb.spec_digit(),
                3,
            );
            self.ulb.lemma_digit_injective(other.ulb);
            self.ulf.lemma_digit_injective(other.ulf);
        }
    }
}

impl UDFace {
    /// The digits of the four stickers, read as one number.
    #[verifier::opaque]
    pub open spec fn digits(self) -> int {
        pack(pack(pack(self.bl.spec_digit(), self.br.spec_digit(), 6), self.fl.spec_digit(), 6), self.fr.spec_digit(), 6)
    }

    /// Computes the digits of the four stickers, read as one number.
    pub fn face_key(&self) -> (k: u64)
        ensures
            k == self.digits(),
            k < 1296,
    {
        proof {
            reveal(UDFace::digits);
        }
        let d = self.bl.digit();
        let mut k: u64 = d;
        let d = self.br.digit();
        k = k * 6 + d;
        let d = self.fl.digit();
        k = k * 6 + d;
        let d = self.fr.digit();
        k = k * 6 + d;
        k
    }

    /// Different faces have different numbers.
    pub proof fn lemma_digits_injective(self, other: UDFace)
        ensures
            0 <= self.digits() < 1296,
            self.digits() == other.digits() ==> self == other,
    {
        reveal(UDFace::digits);
        self.bl.lemma_digit_injective(other.bl);
        self.br.lemma_digit_injective(other.br);
        self.fl.lemma_digit_injective(other.fl);
        self.fr.lemma_digit_injective(other.fr);
        other.bl.lemma_digit_injective(self.bl);
        other.br.lemma_digit_injective(self.br);
        other.fl.lemma_digit_injective(self.fl);
        other.fr.lemma_digit_injective(self.fr);
        if self.digits() == other.digits() {
            lemma_pack_injective(
                pack(pack(self.bl.spec_digit(), self.br.spec_digit(), 6), self.fl.spec_digit(), 6),
                self.fr.spec_digit(),
                pack(pack(other.bl.spec_digit(), other.br.spec_digit(), 6), other.fl.spec_digit(), 6),
                other.fr.spec_digit(),
                6,
            );
            lemma_pack_injective(
                pack(self.bl.spec_digit(), self.br.spec_digit(), 6),
                self.fl.spec_digit(),
                pack(other.bl.spec_digit(), other.br.spec_digit(), 6),
                other.fl.spec_digit(),
                6,
            );
            lemma_pack_injective(
                self.bl.spec_digit(),
                self.br.spec_digit(),
                other.bl.spec_digit(),
                other.br.spec_digit(),
                6,
            );
        }
    }
}

impl LRFace {
    /// The digits of the four stickers, read as one number.
    #[verifier::opaque]
    pub open spec fn digits(self) -> int {
        pack(pack(pack(self.ub.spec_digit(), self.uf.spec_digit(), 6), self.db.spec_digit(), 6), self.df.spec_digit(), 6)
    }

    /// Computes the digits of the four stickers, read as one number.
    pub fn face_key(&self) -> (k: u64)
        ensures
            k == self.digits(),
            k < 1296,
    {
        proof {
            reveal(LRFace::digits);
        }
        let d = self.ub.digit();
        let mut k: u64 = d;
        let d = self.uf.digit();
        k = k * 6 + d;
        let d = self.db.digit();
        k = k * 6 + d;
        let d = self.df.digit();
        k = k * 6 + d;
        k
    }

    /// Different faces have different numbers.
    pub proof fn lemma_digits_injective(self, other: LRFace)
        ensures
            0 <= self.digits() < 1296,
            self.digits() == other.digits() ==> self == other,
    {
        reveal(LRFace::digits);
        self.ub.lemma_digit_injective(other.ub);
        self.uf.lemma_digit_injective(other.uf);
        self.db.lemma_digit_injective(other.db);
        self.df.lemma_digit_injective(other.df);
        other.ub.lemma_digit_injective(self.ub);
        other.uf.lemma_digit_injective(self.uf);
        other.db.lemma_digit_injective(self.db);
        other.df.lemma_digit_injective(self.df);
        if self.digits() == other.digits() {
            lemma_pack_injective(
                pack(pack(self.ub.spec_digit(), self.uf.spec_digit(), 6), self.db.spec_digit(), 6),
                self.df.spec_digit(),
                pack(pack(other.ub.spec_digit(), other.uf.spec_digit(), 6), other.db.spec_digit(), 6),
                other.df.spec_digit(),
                6,
            );
            lemma_pack_injective(
                pack(self.ub.spec_digit(), self.uf.spec_digit(), 6),
                self.db.spec_digit(),
                pack(other.ub.spec_digit(), other.uf.spec_digit(), 6),
                other.db.spec_digit(),
                6,
            );
            lemma_pack_injective(
                self.ub.spec_digit(),
                self.uf.spec_digit(),
                other.ub.spec_digit(),
                other.uf.spec_digit(),
                6,
            );
        }
    }
}

impl FBFace {
    /// The digits of the four stickers, read as one number.
    #[verifier::opaque]
    pub open spec fn digits(self) -> int {
        pack(pack(pack(self.ul.spec_digit(), self.ur.spec_digit(), 6), self.dl.spec_digit(), 6), self.dr.spec_digit(), 6)
    }

    /// Computes the digits of the four stickers, read as one number.
    pub fn face_key(&self) -> (k: u64)
        ensures
            k == self.digits(),
            k < 1296,
    {
        proof {
            reveal(FBFace::digits);
        }
        let d = self.ul.digit();
        let mut k: u64 = d;
        let d = self.ur.digit();
        k = k * 6 + d;
        let d = self.dl.digit();
        k = k * 6 + d;
        let d = self.dr.digit();
        k = k * 6 + d;
        k
    }

    /// Different faces have different numbers.
    pub proof fn lemma_digits_injective(self, other: FBFace)
        ensures
            0 <= self.digits() < 1296,
            self.digits() == other.digits() ==> self == other,
    {
        reveal(FBFace::digits);
        self.ul.lemma_digit_injective(other.ul);
        self.ur.lemma_digit_injective(other.ur);
        self.dl.lemma_digit_injective(other.dl);
        self.dr.lemma_digit_injective(other.dr);
        other.ul.lemma_digit_injective(self.ul);
        other.ur.lemma_digit_injective(self.ur);
        other.dl.lemma_digit_injective(self.dl);
        other.dr.lemma_digit_injective(self.dr);
        if self.digits() == other.digits() {
            lemma_pack_injective(
                pack(pack(self.ul.spec_digit(), self.ur.spec_digit(), 6), self.dl.spec_digit(), 6),
                self.dr.spec_digit(),
                pack(pack(other.ul.spec_digit(), other.ur.spec_digit(), 6), other.dl.spec_digit(), 6),
                other.dr.spec_digit(),
                6,
            );
            lemma_pack_injective(
                pack(self.ul.spec_digit(), self.ur.spec_digit(), 6),
                self.dl.spec_digit(),
                pack(other.ul.spec_digit(), other.ur.spec_digit(), 6),
                other.dl.spec_digit(),
                6,
            );
            lemma_pack_injective(
                self.ul.spec_digit(),
                self.ur.spec_digit(),
                other.ul.spec_digit(),
                other.ur.spec_digit(),
                6,
            );
        }
    }
}

impl Cube {
    /// The digits of all 24 stickers, read as one number.
    pub open spec fn digits(self) -> int {
        pack(pack(pack(pack(pack(self.u.digits(), self.d.digits(), 1296), self.r.digits(), 1296), self.l.digits(), 1296), self.f.digits(), 1296), self.b.digits(), 1296)
    }

    /// The digits of all stickers make a number that fits the key.
    pub proof fn lemma_key_bound(self)
        ensures
            0 <= self.digits() < 4738381338321616896,
    {
        self.u.lemma_digits_injective(self.u);
        self.d.lemma_digits_injective(self.d);
        self.r.lemma_digits_injective(self.r);
        self.l.lemma_digits_injective(self.l);
        self.f.lemma_digits_injective(self.f);
        self.b.lemma_digits_injective(self.b);
    }
}

impl Keyed for Cube {
    open spec fn spec_key(self) -> u64 {
        self.digits() as u64
    }

    fn key(&self) -> (k: u64) {
        proof {
            self.lemma_key_bound();
        }
        let d = self.u.face_key();
        let mut k: u64 = d;
        let d = self.d.face_key();
        assert(k < 1296);
        k = k * 1296 + d;
        assert(k == pack(self.u.digits(), self.d.digits(), 1296));
        let d = self.r.face_key();
        assert(k < 1679616);
        k = k * 1296 + d;
        assert(k == pack(pack(self.u.digits(), self.d.digits(), 1296), self.r.digits(), 1296));
        let d = self.l.face_key();
        assert(k < 2176782336);
        k = k * 1296 + d;
        assert(k == pack(pack(pack(self.u.digits(), self.d.digits(), 1296), self.r.digits(), 1296), self.l.digits(), 1296));
        let d = self.f.face_key();
        assert(k < 2821109907456);
        k = k * 1296 + d;
        assert(k == pack(pack(pack(pack(self.u.digits(), self.d.digits(), 1296), self.r.digits(), 1296), self.l.digits(), 1296), self.f.digits(), 1296));
        let d = self.b.face_key();
        assert(k < 3656158440062976);
        k = k * 1296 + d;
        assert(k == pack(pack(pack(pack(pack(self.u.digits(), self.d.digits(), 1296), self.r.digits(), 1296), self.l.digits(), 1296), self.f.digits(), 1296), self.b.digits(), 1296));
        k
    }

    #[verifier::spinoff_prover]
    proof fn lemma_key_injective(self, other: Cube) {
        self.u.lemma_digits_injective(other.u);
        other.u.lemma_digits_injective(self.u);
        self.d.lemma_digits_injective(other.d);
        other.d.lemma_digits_injective(self.d);
        self.r.lemma_digits_injective(other.r);
        other.r.lemma_digits_injective(self.r);
        self.l.lemma_digits_injective(other.l);
        other.l.lemma_digits_injective(self.l);
        self.f.lemma_digits_injective(other.f);
        other.f.lemma_digits_injective(self.f);
        self.b.lemma_digits_injective(other.b);
        other.b.lemma_digits_injective(self.b);
        if self.spec_key() == other.spec_key() {
            self.lemma_key_bound();
            other.lemma_key_bound();
            lemma_pack_injective(
                pack(pack(pack(pack(self.u.digits(), self.d.digits(), 1296), self.r.digits(), 1296), self.l.digits(), 1296), self.f.digits(), 1296),
                self.b.digits(),
                pack(pack(pack(pack(other.u.digits(), other.d.digits(), 1296), other.r.digits(), 1296), other.l.digits(), 1296), other.f.digits(), 1296),
                other.b.digits(),
                1296,
            );
            lemma_pack_injective(
                pack(pack(pack(self.u.digits(), self.d.digits(), 1296), self.r.digits(), 1296), self.l.digits(), 1296),
                self.f.digits(),
                pack(pack(pack(other.u.digits(), other.d.digits(), 1296), other.r.digits(), 1296), other.l.digits(), 1296),
                other.f.digits(),
                1296,
            );
            lemma_pack_injective(
                pack(pack(self.u.digits(), self.d.digits(), 1296), self.r.digits(), 1296),
                self.l.digits(),
                pack(pack(other.u.digits(), other.d.digits(), 1296), other.r.digits(), 1296),
                other.l.digits(),
                1296,
            );
            lemma_pack_injective(
                pack(self.u.digits(), self.d.digits(), 1296),
                self.r.digits(),
                pack(other.u.digits(), other.d.digits(), 1296),
                other.r.digits(),
                1296,
            );
            lemma_pack_injective(
                self.u.digits(),
                self.d.digits(),
                other.u.digits(),
                other.d.digits(),
                1296,
            );
        }
    }
}

} // verus!
