use vstd::prelude::*;

verus! {

/// An opaque 32-byte participant identifier (an account address on the ledger).
#[derive(Clone, Copy, Debug, Eq)]
pub struct Identity {
    pub bytes: [u8; 32],
}

impl Identity {
    /// The identifier's bytes as a sequence.
    pub open spec fn key(self) -> Seq<u8> {
        self.bytes@
    }

    /// Builds an identifier from its 32 bytes.
    pub fn new(bytes: [u8; 32]) -> (r: Identity)
        ensures
            r.bytes == bytes,
    {
        Identity { bytes }
    }

    /// Whether the two identifiers are the same.
    pub fn same(&self, other: &Identity) -> (r: bool)
        ensures
            r == (*self == *other),
    {
        proof {
            Identity::lemma_key_injective(*self, *other);
        }
        *self == *other
    }

    /// Two identifiers are equal exactly when their byte sequences are.
    pub proof fn lemma_key_injective(a: Identity, b: Identity)
        ensures
            (a.key() == b.key()) == (a == b),
    {
        if a.key() == b.key() {
            assert(a.bytes =~= b.bytes);
        }
    }
}

impl PartialEq for Identity {
    fn eq(&self, other: &Identity) -> (r: bool) {
        let mut i: usize = 0;
        while i < 32
            invariant
                0 <= i <= 32,
                forall|j: int| 0 <= j < i ==> self.bytes@[j] == other.bytes@[j],
            decreases 32 - i,
        {
            if self.bytes[i] != other.bytes[i] {
                return false;
            }
            i = i + 1;
        }
        assert(self.bytes@ =~= other.bytes@);
        true
    }
}

impl vstd::std_specs::cmp::PartialEqSpecImpl for Identity {
    open spec fn obeys_eq_spec() -> bool {
        true
    }

    open spec fn eq_spec(&self, other: &Identity) -> bool {
        self.bytes@ == other.bytes@
    }
}


} // verus!
