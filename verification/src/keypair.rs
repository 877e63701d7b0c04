//! The keypair that signs and pays.

use crate::instruction::Pubkey;
use crate::sdk::{check_keypair, keypair_fault};
use vstd::prelude::*;

verus! {

/// The 32 bytes of an ed25519 secret key, and those of its public key.
pub struct Keypair(pub(crate) [u8; 64]);

/// The public key of a keypair with these bytes: the last 32 of them.
pub open spec fn public_key(keypair: Seq<u8>) -> Pubkey {
    choose|key: Pubkey| key.0@ == keypair.subrange(32, 64)
}

impl View for Keypair {
    type V = Seq<u8>;

    closed spec fn view(&self) -> Seq<u8> {
        self.0@
    }
}

impl Keypair {
    /// The public key belongs to the secret one.
    #[verifier::type_invariant]
    spec fn sound(&self) -> bool {
        keypair_fault(self.0@) is None
    }

    /// The keypair with these bytes, or why they are none.
    pub fn new(bytes: [u8; 64]) -> (made: Result<Self, String>)
        ensures
            match keypair_fault(bytes@) {
                None => made matches Ok(keypair) && keypair@ == bytes@,
                Some(view) => made matches Err(reason) && reason@ == view,
            },
    {
        match check_keypair(&bytes) {
            None => Ok(Keypair(bytes)),
            Some(reason) => Err(reason),
        }
    }

    /// The public key.
    pub fn pubkey(&self) -> (key: Pubkey)
        ensures
            key == public_key(self@),
            key.0@ == self@.subrange(32, 64),
            keypair_fault(self@) is None,
    {
        proof {
            use_type_invariant(self);
        }
        let mut bytes: [u8; 32] = [0; 32];
        let mut i: usize = 0;
        while i < 32
            invariant
                i <= 32,
                forall|k: int| 0 <= k < i ==> bytes[k] == self.0[k + 32],
            decreases 32 - i,
        {
            bytes[i] = self.0[i + 32];
            i += 1;
        }
        assert(bytes@ =~= self@.subrange(32, 64));
        let key = Pubkey(bytes);
        assert(key.0@ == self@.subrange(32, 64));
        assert(key.0 =~= public_key(self@).0);
        key
    }
}

} // verus!
