//! Plain value types shared by the pallets.
use vstd::prelude::*;

verus! {

broadcast use vstd::array::group_array_axioms;

/// Accounts of the pallets are numbered, eight bytes wide.  An account
/// derived from a kind tag and an index (see `account`) then keeps the tag
/// and only the low four bytes of the index, so two indices that agree in
/// those bytes share an account.
pub type AccountId = u64;

/// Amounts of a currency.
pub type Balance = u128;

/// Heights of blocks.
pub type BlockNumber = u32;

/// Identifiers of currencies.
pub type AssetId = u64;

/// Parts per billion.
pub const PERBILL_ACCURACY: u32 = 1_000_000_000u32;

/// A fraction in parts per billion, never above one whole.
#[derive(Clone, Copy, Debug, PartialEq, Eq)]
pub struct Perbill {
    parts: u32,
}

impl Perbill {
    /// The parts per billion this fraction holds.
    pub closed spec fn spec_parts(self) -> u32 {
        self.parts
    }

    /// What every fraction keeps: at most one whole.
    pub closed spec fn wf(self) -> bool {
        self.parts <= PERBILL_ACCURACY
    }

    /// The fraction of `parts` billionths, cut to one whole.
    pub fn from_parts(parts: u32) -> (p: Self)
        ensures
            p.wf(),
            p.spec_parts() == if parts <= PERBILL_ACCURACY { parts } else { PERBILL_ACCURACY },
    {
        if parts <= PERBILL_ACCURACY {
            Perbill { parts }
        } else {
            Perbill { parts: PERBILL_ACCURACY }
        }
    }

    /// The fraction of `x` percent, cut to one hundred percent.
    pub fn from_percent(x: u32) -> (p: Self)
        ensures
            p.wf(),
            p.spec_parts() == (if x <= 100 { x } else { 100 }) * 10_000_000,
    {
        let x = if x <= 100 { x } else { 100u32 };
        Perbill { parts: x * 10_000_000u32 }
    }

    /// The parts per billion this fraction holds.
    pub fn deconstruct(&self) -> (parts: u32)
        ensures
            parts == self.spec_parts(),
    {
        self.parts
    }
}


/// Whether two 32-byte strings are the same.
pub fn eq_bytes32(a: &[u8; 32], b: &[u8; 32]) -> (r: bool)
    ensures
        r == (*a == *b),
{
    let mut i: usize = 0;
    while i < 32
        invariant
            i <= 32,
            forall|j: int| 0 <= j < i ==> a[j] == b[j],
        decreases 32 - i,
    {
        if a[i] != b[i] {
            return false;
        }
        i += 1;
    }
    assert(*a =~= *b);
    true
}

} // verus!
