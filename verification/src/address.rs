use vstd::prelude::*;
use vstd::std_specs::cmp::PartialEqSpecImpl;

verus! {

/// An account on the ledger: a user account, named by its public key,
/// or a contract, named by its hash. Two addresses are the same account
/// exactly when they agree in both fields.
#[derive(Clone, Copy, Debug, Eq)]
pub struct Address {
    /// Whether the address names a contract rather than a user account.
    pub contract: bool,
    /// The public key of the account or the hash of the contract.
    pub key: [u8; 32],
}

impl PartialEq for Address {
    fn eq(&self, other: &Address) -> (r: bool) {
        if self.contract != other.contract {
            return false;
        }
        let mut i: usize = 0;
        while i < 32
            invariant
                i <= 32,
                self.contract == other.contract,
                forall|j: int| 0 <= j < i ==> self.key[j] == other.key[j],
            decreases 32 - i,
        {
            if self.key[i] != other.key[i] {
                return false;
            }
            i += 1;
        }
        assert(self.key =~= other.key);
        true
    }
}

impl PartialEqSpecImpl for Address {
    open spec fn obeys_eq_spec() -> bool {
        true
    }

    open spec fn eq_spec(&self, other: &Address) -> bool {
        *self == *other
    }
}

} // verus!
