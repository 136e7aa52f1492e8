use vstd::prelude::*;

verus! {

/// The two families of ciphers a tunnel can be configured with.
#[derive(Clone, Copy, Debug, PartialEq, Eq, Structural)]
pub enum CipherCategory {
    /// A keystream cipher: no framing, the peer sends an IV first.
    Stream,
    /// An authenticated cipher working on sealed chunks: the peer sends a salt first.
    Aead,
}

/// What the tunnel logic reads of a configured cipher: its family and the
/// sizes of its initialisation material.
#[derive(Clone, Copy, Debug, PartialEq, Eq, Structural)]
pub struct CipherSpec {
    pub category: CipherCategory,
    pub iv_size: usize,
    pub salt_size: usize,
}

impl CipherSpec {
    /// Length of the initialisation material (IV or salt) exchanged at the
    /// start of each direction.
    pub open spec fn spec_init_len(self) -> nat {
        match self.category {
            CipherCategory::Stream => self.iv_size as nat,
            CipherCategory::Aead => self.salt_size as nat,
        }
    }

    /// The IV size for a stream cipher, the salt size for an AEAD cipher.
    pub fn init_len(&self) -> (r: usize)
        ensures
            r == self.spec_init_len(),
    {
        match self.category {
            CipherCategory::Stream => self.iv_size,
            CipherCategory::Aead => self.salt_size,
        }
    }
}

} // verus!
