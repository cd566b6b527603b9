//! Values that every contract of the platform speaks of.

use vstd::prelude::*;

verus! {

/// An account or a contract: its kind and its identifier of 32 bytes, as two
/// big-endian halves.
#[derive(Clone, Copy, Debug, PartialEq, Eq, Structural)]
pub struct Address {
    /// Whether this is a contract; an account otherwise.
    pub contract: bool,
    pub hi: u128,
    pub lo: u128,
}

/// A name of up to 32 ASCII characters. The characters stand left-justified,
/// padded with zero bytes, in two big-endian halves.
#[derive(Clone, Copy, Debug, PartialEq, Eq, Structural)]
pub struct Symbol {
    pub hi: u128,
    pub lo: u128,
}

/// A digest of 32 bytes, as two big-endian halves.
#[derive(Clone, Copy, Debug, PartialEq, Eq, Structural)]
pub struct Digest {
    pub hi: u128,
    pub lo: u128,
}

/// Why a call was refused. A refused call leaves the contract as it was.
#[derive(Debug, PartialEq, Eq)]
pub enum Failure<E> {
    /// The contract's own reason.
    Error(E),
    /// An address whose consent the call needs has not signed it.
    Unauthorized,
}

/// What a call finds around it: the ledger it runs in, the contract's own
/// address, and who signed.
#[derive(Debug)]
pub struct Context {
    /// Ledger time, in seconds.
    pub now: u64,
    /// Number of the ledger.
    pub sequence: u32,
    /// The address of the contract that is called.
    pub contract: Address,
    /// The addresses that authorized this call.
    pub authorized: Vec<Address>,
}

impl Context {
    /// `who` consented to this call.
    pub open spec fn authorizes(self, who: Address) -> bool {
        self.authorized@.contains(who)
    }

    /// Tests whether `who` consented to this call.
    pub fn has_auth(&self, who: Address) -> (yes: bool)
        ensures
            yes == self.authorizes(who),
    {
        let n: usize = self.authorized.len();
        for i in 0..n
            invariant
                n == self.authorized@.len(),
                forall|j: int| 0 <= j < i ==> self.authorized@[j] != who,
        {
            if self.authorized[i] == who {
                return true;
            }
        }
        false
    }
}

} // verus!
