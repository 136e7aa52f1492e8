use vstd::prelude::*;

pub mod address;
pub mod aead;
pub mod cipher;
pub mod handshake;
pub mod pool;
pub mod tunnel;

verus! {

} // verus!
