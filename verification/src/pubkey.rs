//! Addresses of accounts and programs.

use vstd::prelude::*;

verus! {

/// Width in bytes of an account's address.
pub const PUBKEY_BYTES: usize = 32;

/// The address of an account or of a program.
#[derive(Clone, Copy, Debug, PartialEq, Eq, Hash)]
pub struct Pubkey {
    pub bytes: [u8; 32],
}

impl View for Pubkey {
    type V = Seq<u8>;

    open spec fn view(&self) -> Seq<u8> {
        self.bytes@
    }
}

impl Pubkey {
    /// The address with the given bytes.
    pub fn new(bytes: [u8; 32]) -> (key: Pubkey)
        ensures
            key.bytes == bytes,
    {
        Pubkey { bytes }
    }

    /// The address that the bytes spell, if there are thirty-two of them.
    pub fn from_slice(bytes: &[u8]) -> (key: Option<Pubkey>)
        ensures
            key is Some <==> bytes@.len() == 32,
            key matches Some(k) ==> k@ == bytes@,
    {
        if bytes.len() != PUBKEY_BYTES {
            return None;
        }
        let mut copy: [u8; 32] = [0u8; 32];
        let mut i: usize = 0;
        while i < PUBKEY_BYTES
            invariant
                i <= 32,
                bytes@.len() == 32,
                forall|j: int| 0 <= j < i ==> copy@[j] == bytes@[j],
            decreases 32 - i,
        {
            copy[i] = bytes[i];
            i = i + 1;
        }
        proof {
            assert(copy@ =~= bytes@);
        }
        Some(Pubkey { bytes: copy })
    }

    /// Whether the two addresses are the same.
    pub fn same_as(&self, other: &Pubkey) -> (same: bool)
        ensures
            same == (self@ == other@),
    {
        let mut i: usize = 0;
        while i < PUBKEY_BYTES
            invariant
                i <= 32,
                forall|j: int| 0 <= j < i ==> self.bytes@[j] == other.bytes@[j],
            decreases 32 - i,
        {
            if self.bytes[i] != other.bytes[i] {
                return false;
            }
            i = i + 1;
        }
        proof {
            assert(self.bytes@ =~= other.bytes@);
        }
        true
    }

    /// The thirty-two bytes of the address.
    pub fn as_slice(&self) -> (bytes: &[u8])
        ensures
            bytes@ == self@,
            bytes@.len() == 32,
    {
        self.bytes.as_slice()
    }
}

} // verus!
