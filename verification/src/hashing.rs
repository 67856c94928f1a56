//! The cryptographic hash primitive behind the keystream generator and the
//! MAC: SHA3-512, treated as an opaque function from byte sequences to
//! 64-byte digests.

use sha3::Digest;
use sha3::Sha3_512;
use vstd::prelude::*;

verus! {

/// The 64-byte SHA3-512 digest of a byte sequence. The digest is a pure
/// function of the input bytes; nothing further is assumed about it.
pub uninterp spec fn sha3_512_of(data: Seq<u8>) -> [u8; 64];

/// The digest as a byte sequence; its length is always 64.
pub open spec fn digest_of(data: Seq<u8>) -> Seq<u8> {
    sha3_512_of(data)@
}

/// Relies on sha3::Sha3_512 (through the Digest trait): the digest is a
/// function of the input bytes alone, 64 bytes long.
#[verifier::external_body]
pub(crate) fn sha3_512(data: &[u8]) -> (r: Vec<u8>)
    ensures
        r@ == sha3_512_of(data@)@,
{
    Sha3_512::digest(data).to_vec()
}

/// Appends the bytes of `src` to `dst`.
pub(crate) fn extend_bytes(dst: &mut Vec<u8>, src: &[u8])
    ensures
        final(dst)@ == old(dst)@ + src@,
{
    let n = src.len();
    for i in 0..n
        invariant
            n == src@.len(),
            dst@ == old(dst)@ + src@.subrange(0, i as int),
    {
        dst.push(src[i]);
        assert(old(dst)@ + src@.subrange(0, i as int + 1) == (old(dst)@ + src@.subrange(
            0,
            i as int,
        )).push(src@[i as int]));
    }
    assert(src@.subrange(0, n as int) == src@);
}

/// The digest of two byte slices hashed in order.
pub(crate) fn digest2(a: &[u8], b: &[u8]) -> (r: Vec<u8>)
    ensures
        r@ == digest_of(a@ + b@),
{
    let mut v: Vec<u8> = Vec::new();
    extend_bytes(&mut v, a);
    extend_bytes(&mut v, b);
    assert(v@ == a@ + b@);
    sha3_512(v.as_slice())
}

/// The digest of three byte slices hashed in order.
pub(crate) fn digest3(a: &[u8], b: &[u8], c: &[u8]) -> (r: Vec<u8>)
    ensures
        r@ == digest_of(a@ + b@ + c@),
{
    let mut v: Vec<u8> = Vec::new();
    extend_bytes(&mut v, a);
    extend_bytes(&mut v, b);
    extend_bytes(&mut v, c);
    assert(v@ == a@ + b@ + c@);
    sha3_512(v.as_slice())
}

/// A running hash: accumulates bytes and produces their SHA3-512 digest on
/// demand. Its view is the sequence of bytes absorbed so far, so the
/// accumulation is verified and only the final digest call is trusted.
pub struct RunningHash {
    data: Vec<u8>,
}

impl View for RunningHash {
    type V = Seq<u8>;

    closed spec fn view(&self) -> Seq<u8> {
        self.data@
    }
}

impl RunningHash {
    /// A fresh running hash with nothing absorbed.
    pub fn new() -> (r: Self)
        ensures
            r@ == Seq::<u8>::empty(),
    {
        RunningHash { data: Vec::new() }
    }

    /// Absorbs `bytes` after everything absorbed before.
    pub fn update(&mut self, bytes: &[u8])
        ensures
            final(self)@ == old(self)@ + bytes@,
    {
        extend_bytes(&mut self.data, bytes);
    }

    /// The SHA3-512 digest of all bytes absorbed so far.
    pub fn finalize(&self) -> (r: Vec<u8>)
        ensures
            r@ == digest_of(self@),
            r@.len() == 64,
    {
        sha3_512(self.data.as_slice())
    }
}

} // verus!
