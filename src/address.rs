use vstd::prelude::*;

verus! {

broadcast use vstd::array::group_array_axioms;

/// A 32-byte account identifier: a user, a market, a vault or a mint.
#[derive(Clone, Copy, Debug, PartialEq, Eq)]
pub struct Address {
    pub bytes: [u8; 32],
}

/// The all-zero address, used for "no participant" (the taker of a cancellation).
pub open spec fn zero_address() -> Address {
    Address { bytes: vstd::array::spec_array_fill_for_copy_type::<u8, 32>(0u8) }
}

impl Address {
    pub fn new(bytes: [u8; 32]) -> (r: Address)
        ensures
            r.bytes == bytes,
    {
        Address { bytes }
    }

    pub fn zero() -> (r: Address)
        ensures
            r == zero_address(),
    {
        Address { bytes: [0u8; 32] }
    }

    /// Byte-wise equality.
    pub fn same_as(&self, other: &Address) -> (r: bool)
        ensures
            r == (*self == *other),
    {
        let mut i: usize = 0;
        while i < 32
            invariant
                i <= 32,
                forall|j: int| 0 <= j < i ==> self.bytes[j] == other.bytes[j],
            decreases 32 - i,
        {
            if self.bytes[i] != other.bytes[i] {
                return false;
            }
            i = i + 1;
        }
        assert(self.bytes =~= other.bytes);
        true
    }

    pub fn is_zero(&self) -> (r: bool)
        ensures
            r == (*self == zero_address()),
    {
        let z = Address::zero();
        self.same_as(&z)
    }
}

} // verus!
