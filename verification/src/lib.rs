//! A stream cipher built on a memory-hard, Balloon-hashing-style keystream
//! generator, together with the protocol that uses it for authenticated,
//! salted encryption and decryption of byte sequences.
//!
//! ## WARNING: experimental design
//! Neither the design nor the implementation of this cipher have been
//! independently evaluated. It is not a replacement for audited
//! cryptographic primitives and must not be relied on in production.
//!
//! The keystream generator owns a fixed-size buffer of 64-byte blocks that
//! is filled by a sequential hash chain and then repeatedly mixed; every
//! hash invocation absorbs a monotonically increasing counter. The stream
//! cipher XORs the generated keystream into data, either folding the
//! ciphertext into a salt accumulator (an all-or-nothing transform) or
//! feeding it into a running hash used for authentication.

use vstd::prelude::*;

pub mod cipher;
pub mod hash;
pub mod hashing;
pub mod kdf;
pub mod progress;

verus! {

} // verus!
