//! Unsigned 256-bit integers, held as two 128-bit halves.

use vstd::prelude::*;

verus! {

/// Two to the power 128.
pub open spec fn half_base() -> nat {
    0x1_0000_0000_0000_0000_0000_0000_0000_0000nat
}

/// The number that a sequence of bytes spells, most significant byte first.
pub open spec fn be_value(bytes: Seq<u8>) -> nat
    decreases bytes.len(),
{
    if bytes.len() == 0 {
        0
    } else {
        be_value(bytes.drop_last()) * 256 + bytes.last() as nat
    }
}

/// Four times `v`, or the largest 256-bit integer where that is less.
pub open spec fn fourfold(v: nat) -> nat {
    if v * 4 <= U256::spec_max()@ {
        v * 4
    } else {
        U256::spec_max()@
    }
}

/// An unsigned integer below two to the power 256.
#[derive(Clone, Copy, Debug, PartialEq, Eq, Structural)]
pub struct U256 {
    pub hi: u128,
    pub lo: u128,
}

impl View for U256 {
    type V = nat;

    open spec fn view(&self) -> nat {
        (self.hi as nat) * 0x1_0000_0000_0000_0000_0000_0000_0000_0000nat + (self.lo as nat)
    }
}

impl U256 {
    /// The number `hi * 2^128 + lo`.
    pub fn new(hi: u128, lo: u128) -> (r: U256)
        ensures
            r.hi == hi,
            r.lo == lo,
    {
        U256 { hi, lo }
    }

    pub fn zero() -> (r: U256)
        ensures
            r@ == 0,
            r == (U256 { hi: 0, lo: 0 }),
    {
        U256 { hi: 0, lo: 0 }
    }

    /// The easiest target that the ledger ever asks for: `2^240 - 1`.
    pub fn min_target() -> (r: U256)
        ensures
            r == Self::spec_min_target(),
    {
        U256 { hi: 0xFFFF_FFFF_FFFF_FFFF_FFFF_FFFF_FFFF, lo: u128::MAX }
    }

    pub open spec fn spec_min_target() -> U256 {
        U256 { hi: 0xFFFF_FFFF_FFFF_FFFF_FFFF_FFFF_FFFF, lo: u128::MAX }
    }

    pub fn le(&self, other: &U256) -> (r: bool)
        ensures
            r == (self@ <= other@),
    {
        self.hi < other.hi || (self.hi == other.hi && self.lo <= other.lo)
    }

    pub fn lt(&self, other: &U256) -> (r: bool)
        ensures
            r == (self@ < other@),
    {
        self.hi < other.hi || (self.hi == other.hi && self.lo < other.lo)
    }

    /// A quarter of the number, rounded down.
    pub fn quarter(&self) -> (r: U256)
        ensures
            r@ == self@ / 4,
    {
        let hi: u128 = self.hi / 4;
        let lo: u128 = (self.hi % 4) * 0x4000_0000_0000_0000_0000_0000_0000_0000u128 + self.lo / 4;
        U256 { hi, lo }
    }

    /// Four times the number, where that is below `2^256`.
    pub fn times_four(&self) -> (r: U256)
        requires
            self.hi < 0x4000_0000_0000_0000_0000_0000_0000_0000u128,
        ensures
            r@ == self@ * 4,
    {
        let hi: u128 = self.hi * 4 + self.lo / 0x4000_0000_0000_0000_0000_0000_0000_0000u128;
        let lo: u128 = (self.lo % 0x4000_0000_0000_0000_0000_0000_0000_0000u128) * 4;
        U256 { hi, lo }
    }

    /// The largest 256-bit integer.
    pub open spec fn spec_max() -> U256 {
        U256 { hi: u128::MAX, lo: u128::MAX }
    }

    /// Four times the number, or the largest 256-bit integer where that is
    /// less.
    pub fn times_four_saturating(&self) -> (r: U256)
        ensures
            r@ == fourfold(self@),
    {
        if self.hi < 0x4000_0000_0000_0000_0000_0000_0000_0000u128 {
            self.times_four()
        } else {
            U256 { hi: u128::MAX, lo: u128::MAX }
        }
    }

    /// The number that `bytes` spell, most significant byte first, where it
    /// is below `2^256`.
    pub fn from_big_endian(bytes: &Vec<u8>) -> (r: Option<U256>)
        ensures
            r.is_some() <==> be_value(bytes@) < half_base() * half_base(),
            r.is_some() ==> r.unwrap()@ == be_value(bytes@),
    {
        let mut hi: u128 = 0;
        let mut lo: u128 = 0;
        let mut fits: bool = true;
        let mut i: usize = 0;
        while i < bytes.len()
            invariant
                i <= bytes.len(),
                fits ==> (U256 { hi, lo })@ == be_value(bytes@.take(i as int)),
                !fits ==> be_value(bytes@.take(i as int)) >= half_base() * half_base(),
            decreases bytes.len() - i,
        {
            let b: u8 = bytes[i];
            proof {
                assert(bytes@.take(i + 1).drop_last() =~= bytes@.take(i as int));
                assert(bytes@.take(i + 1).last() == b);
                assert(half_base() * half_base() >= 0);
            }
            if fits {
                if hi >= 0x0100_0000_0000_0000_0000_0000_0000_0000u128 {
                    fits = false;
                } else {
                    let carry: u128 = lo / 0x0100_0000_0000_0000_0000_0000_0000_0000u128;
                    let rest: u128 = lo % 0x0100_0000_0000_0000_0000_0000_0000_0000u128;
                    hi = hi * 256 + carry;
                    lo = rest * 256 + b as u128;
                }
            }
            i = i + 1;
        }
        proof {
            assert(bytes@.take(i as int) =~= bytes@);
        }
        if fits {
            Some(U256 { hi, lo })
        } else {
            None
        }
    }
}

} // verus!
