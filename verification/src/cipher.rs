//! The stream cipher and the authenticated encryption protocol built on the
//! keystream generator: XOR-keystream application coupled either to a
//! rolling salt fold (an all-or-nothing transform) or to a running hash,
//! and the encrypt / salt-recovery / decrypt entry points.

use crate::hash::gen_new;
use crate::hash::winc;
use crate::hash::spec_step_internal;
use crate::hash::spec_step_output;
use crate::hash::Balloon;
use crate::hash::GenModel;
use crate::hashing::digest_of;
use crate::hashing::extend_bytes;
use crate::hashing::RunningHash;
use crate::kdf::argon2id_derive;
use crate::kdf::derived_key_of;
use crate::progress::sat_add;
use crate::progress::Progress;
use vstd::arithmetic::div_mod::lemma_add_mod_noop;
use vstd::arithmetic::div_mod::lemma_add_mod_noop_right;
use vstd::arithmetic::div_mod::lemma_small_mod;
use rand::Rng;
use rand::SeedableRng;
use rand_chacha::ChaCha20Rng;
use vstd::prelude::*;
use vstd::slice::slice_subrange;

verus! {

/// All parameters of the memory-hard construction: `s_cost` blocks of
/// buffer, `t_cost` rounds of mixing, `step_delta` pseudorandom samples per
/// mixing step. All three must be positive.
#[derive(Clone, Copy, PartialEq, Eq, Structural, Debug)]
pub struct CryptSettings {
    pub s_cost: usize,
    pub t_cost: usize,
    pub step_delta: usize,
}

impl CryptSettings {
    /// All three cost parameters are positive. Settings that fail this are
    /// rejected by the protocol entry points with `InvalidSettings`.
    pub open spec fn valid(self) -> bool {
        &&& self.s_cost >= 1
        &&& self.t_cost >= 1
        &&& self.step_delta >= 1
    }

    /// Less aggressive settings, suited to tests.
    pub fn default_for_testing() -> (r: Self)
        ensures
            r == (CryptSettings { s_cost: 1000, t_cost: 2, step_delta: 3 }),
    {
        CryptSettings { s_cost: 1000, t_cost: 2, step_delta: 3 }
    }

    /// Whether the parameters are positive, checked at run time.
    pub fn check_valid(&self) -> (r: bool)
        ensures
            r == self.valid(),
    {
        self.s_cost >= 1 && self.t_cost >= 1 && self.step_delta >= 1
    }
}

impl std::default::Default for CryptSettings {
    /// Default settings: a buffer of about 30 MB.
    fn default() -> (r: Self)
        ensures
            r == (CryptSettings { s_cost: 468750, t_cost: 2, step_delta: 3 }),
    {
        CryptSettings { s_cost: 468750, t_cost: 2, step_delta: 3 }
    }
}

/// What went wrong in a protocol entry point.
#[derive(Clone, Copy, PartialEq, Eq, Structural, Debug)]
pub enum CryptError {
    /// A cost parameter of `CryptSettings` is zero.
    InvalidSettings,
    /// The external key-derivation function rejected its input.
    KeyDerivationFailure,
    /// The ciphertext is shorter than the 64-byte MAC block.
    TruncatedCiphertext,
}

/// The keystream-facing part of a stream cipher's state: the generator, the
/// current 64-byte mask, and the cursor into it. The fold cursor is kept
/// outside, because it never influences the keystream.
#[verifier::ext_equal]
pub ghost struct CipherState {
    pub gen: GenModel,
    pub mask: Seq<u8>,
    pub mask_ptr: nat,
}

/// The full abstract state of a stream cipher: the keystream state and the
/// fold cursor used by the salt-coupled mode.
#[verifier::ext_equal]
pub ghost struct StreamModel {
    pub cipher: CipherState,
    pub salt_ptr: u64,
}

/// `p + n` on the 64-bit fold cursor, wrapping around at the top.
pub open spec fn wadd(p: u64, n: nat) -> u64 {
    ((p + n) % 0x10000000000000000) as u64
}

/// The state after refilling an exhausted mask: one generator step makes a
/// new mask and the cursor returns to 0.
pub open spec fn refilled(st: CipherState) -> CipherState {
    if st.mask_ptr >= 64 {
        CipherState {
            gen: spec_step_internal(st.gen),
            mask: digest_of(spec_step_output(st.gen)),
            mask_ptr: 0,
        }
    } else {
        st
    }
}

/// The keystream state after one byte has been enciphered.
pub open spec fn after_byte(st: CipherState) -> CipherState {
    let n = refilled(st);
    CipherState { gen: n.gen, mask: n.mask, mask_ptr: n.mask_ptr + 1 }
}

/// The ciphertext byte produced for `b`: XOR with the current mask byte,
/// after a refill if the mask is exhausted.
pub open spec fn byte_out(st: CipherState, b: u8) -> u8 {
    let n = refilled(st);
    b ^ n.mask[n.mask_ptr as int]
}

/// The keystream state after enciphering all of `d`, byte by byte.
pub open spec fn apply_state(st: CipherState, d: Seq<u8>) -> CipherState
    decreases d.len(),
{
    if d.len() == 0 {
        st
    } else {
        after_byte(apply_state(st, d.drop_last()))
    }
}

/// The bytes produced by enciphering all of `d`, byte by byte.
pub open spec fn apply_output(st: CipherState, d: Seq<u8>) -> Seq<u8>
    decreases d.len(),
{
    if d.len() == 0 {
        Seq::empty()
    } else {
        apply_output(st, d.drop_last()).push(byte_out(apply_state(st, d.drop_last()), d.last()))
    }
}

/// How many generator steps enciphering `d` takes: one per mask refill.
pub open spec fn steps_used(st: CipherState, d: Seq<u8>) -> nat
    decreases d.len(),
{
    if d.len() == 0 {
        0
    } else {
        steps_used(st, d.drop_last()) + if apply_state(st, d.drop_last()).mask_ptr >= 64 {
            1nat
        } else {
            0nat
        }
    }
}

/// One step of the salt fold: XOR `b` into the accumulator at position
/// `wadd(p, k) % 64`, the fold cursor after `k` earlier bytes.
pub open spec fn fold_byte(prev: Seq<u8>, p: u64, k: nat, b: u8) -> Seq<u8> {
    let j = wadd(p, k) as int % 64;
    prev.update(j, prev[j] ^ b)
}

/// The salt accumulator after folding the bytes of `d` into it, in order,
/// starting at fold cursor `p`: each byte is XORed into the accumulator at
/// the cursor's position modulo 64.
pub open spec fn fold_state(acc: Seq<u8>, p: u64, d: Seq<u8>) -> Seq<u8>
    decreases d.len(),
{
    if d.len() == 0 {
        acc
    } else {
        fold_byte(fold_state(acc, p, d.drop_last()), p, (d.len() - 1) as nat, d.last())
    }
}

/// `wadd` of nothing moves nothing.
pub proof fn lemma_wadd_zero(p: u64)
    ensures
        wadd(p, 0) == p,
{
    lemma_small_mod(p as nat, 0x10000000000000000 as nat);
}

/// Advancing the fold cursor by one more byte wraps like a 64-bit counter.
pub proof fn lemma_wadd_step(p: u64, n: nat)
    ensures
        wadd(p, n + 1) == winc(wadd(p, n)),
{
    let m: int = 0x10000000000000000;
    let w: int = (p + n) % m;
    lemma_add_mod_noop(p + n, 1, m);
    lemma_small_mod(1nat, m as nat);
    if w == m - 1 {
        assert((w + 1) % m == 0) by {
            vstd::arithmetic::div_mod::lemma_mod_self_0(m);
        }
    } else {
        lemma_small_mod((w + 1) as nat, m as nat);
    }
}

/// Unfolds one pushed byte out of the three enciphering recursions.
pub proof fn lemma_apply_push(st: CipherState, d: Seq<u8>, b: u8)
    ensures
        apply_state(st, d.push(b)) == after_byte(apply_state(st, d)),
        apply_output(st, d.push(b)) == apply_output(st, d).push(byte_out(apply_state(st, d), b)),
        steps_used(st, d.push(b)) == steps_used(st, d) + if apply_state(st, d).mask_ptr >= 64 {
            1nat
        } else {
            0nat
        },
{
    assert(d.push(b).drop_last() =~= d);
}

/// Unfolds one pushed byte out of the fold recursion.
pub proof fn lemma_fold_push(acc: Seq<u8>, p: u64, d: Seq<u8>, b: u8)
    ensures
        fold_state(acc, p, d.push(b)) == fold_byte(fold_state(acc, p, d), p, d.len(), b),
{
    assert(d.push(b).drop_last() =~= d);
}

/// Advancing the fold cursor in two legs lands where one leg would.
pub proof fn lemma_wadd_assoc(p: u64, x: nat, y: nat)
    ensures
        wadd(wadd(p, x), y) == wadd(p, x + y),
{
    let m: int = 0x10000000000000000;
    lemma_add_mod_noop_right((p + x) % m, y as int, m);
    lemma_add_mod_noop(p + x, y as int, m);
    lemma_add_mod_noop_right(p + x, y as int, m);
}

/// Enciphering a concatenation equals enciphering the parts in sequence:
/// the ciphertext is the concatenation of the parts' ciphertexts, the
/// final keystream state is the same, and so is the number of generator
/// steps. Chunk boundaries are never observable in the result.
pub proof fn lemma_apply_concat(st: CipherState, a: Seq<u8>, b: Seq<u8>)
    ensures
        apply_state(st, a + b) == apply_state(apply_state(st, a), b),
        apply_output(st, a + b) == apply_output(st, a) + apply_output(apply_state(st, a), b),
        steps_used(st, a + b) == steps_used(st, a) + steps_used(apply_state(st, a), b),
    decreases b.len(),
{
    if b.len() == 0 {
        assert(a + b =~= a);
        assert(apply_output(st, a) + apply_output(apply_state(st, a), b) =~= apply_output(st, a));
    } else {
        lemma_apply_concat(st, a, b.drop_last());
        assert((a + b).drop_last() =~= a + b.drop_last());
        assert((a + b).last() == b.last());
        let sta = apply_state(st, a);
        assert(apply_output(st, a) + apply_output(sta, b.drop_last()).push(
            byte_out(apply_state(sta, b.drop_last()), b.last()),
        ) =~= (apply_output(st, a) + apply_output(sta, b.drop_last())).push(
            byte_out(apply_state(sta, b.drop_last()), b.last()),
        ));
    }
}

/// Enciphering `d` produces exactly one byte per input byte.
pub proof fn lemma_apply_output_len(st: CipherState, d: Seq<u8>)
    ensures
        apply_output(st, d).len() == d.len(),
    decreases d.len(),
{
    if d.len() > 0 {
        lemma_apply_output_len(st, d.drop_last());
    }
}

/// The keystream state and the generator steps taken depend only on how
/// many bytes were enciphered, never on their values.
pub proof fn lemma_apply_state_len(st: CipherState, a: Seq<u8>, b: Seq<u8>)
    requires
        a.len() == b.len(),
    ensures
        apply_state(st, a) == apply_state(st, b),
        steps_used(st, a) == steps_used(st, b),
    decreases a.len(),
{
    if a.len() > 0 {
        lemma_apply_state_len(st, a.drop_last(), b.drop_last());
    }
}

/// Enciphering is an involution: applying the keystream from the same
/// starting state to the ciphertext gives back the plaintext.
pub proof fn lemma_apply_involution(st: CipherState, d: Seq<u8>)
    ensures
        apply_output(st, apply_output(st, d)) == d,
    decreases d.len(),
{
    if d.len() == 0 {
        assert(apply_output(st, d) =~= Seq::<u8>::empty());
        assert(apply_output(st, apply_output(st, d)) =~= d);
    } else {
        let d1 = d.drop_last();
        let x = d.last();
        let c1 = apply_output(st, d1);
        lemma_apply_involution(st, d1);
        lemma_apply_output_len(st, d1);
        let s = apply_state(st, d1);
        let cb = byte_out(s, x);
        assert(apply_output(st, d) == c1.push(cb));
        lemma_apply_push(st, c1, cb);
        lemma_apply_state_len(st, c1, d1);
        let mv = refilled(s).mask[refilled(s).mask_ptr as int];
        assert(((x ^ mv) ^ mv) == x) by (bit_vector);
        assert(apply_output(st, apply_output(st, d)) =~= d);
    }
}

/// What the fold contributes at accumulator position `j`: the XOR of the
/// folded bytes whose cursor position landed on `j`.
pub open spec fn fold_acc(p: u64, d: Seq<u8>, j: int) -> u8
    decreases d.len(),
{
    if d.len() == 0 {
        0
    } else {
        fold_acc(p, d.drop_last(), j) ^ (if wadd(p, (d.len() - 1) as nat) as int % 64 == j {
            d.last()
        } else {
            0
        })
    }
}

/// The fold, position by position: each accumulator byte ends up as its
/// start value XOR the fold's contribution at that position.
pub proof fn lemma_fold_char(acc: Seq<u8>, p: u64, d: Seq<u8>, j: int)
    requires
        acc.len() == 64,
        0 <= j < 64,
    ensures
        fold_state(acc, p, d).len() == 64,
        fold_state(acc, p, d)[j] == acc[j] ^ fold_acc(p, d, j),
    decreases d.len(),
{
    if d.len() == 0 {
        let a = acc[j];
        assert((a ^ 0) == a) by (bit_vector);
    } else {
        lemma_fold_char(acc, p, d.drop_last(), j);
        let prev = fold_state(acc, p, d.drop_last());
        let jj = wadd(p, (d.len() - 1) as nat) as int % 64;
        let a = acc[j];
        let y = fold_acc(p, d.drop_last(), j);
        let z = d.last();
        if jj == j {
            assert(((a ^ y) ^ z) == (a ^ (y ^ z))) by (bit_vector);
        } else {
            assert((y ^ 0) == y) by (bit_vector);
        }
    }
}

/// Folding the same byte sequence twice from the same cursor position
/// cancels out: the accumulator returns to its start value.
pub proof fn lemma_fold_involution(acc: Seq<u8>, p: u64, d: Seq<u8>)
    requires
        acc.len() == 64,
    ensures
        fold_state(fold_state(acc, p, d), p, d) == acc,
{
    let once = fold_state(acc, p, d);
    lemma_fold_char(acc, p, d, 0);
    assert forall|j: int| 0 <= j < 64 implies fold_state(once, p, d)[j] == acc[j] by {
        lemma_fold_char(acc, p, d, j);
        lemma_fold_char(once, p, d, j);
        let a = acc[j];
        let y = fold_acc(p, d, j);
        assert(((a ^ y) ^ y) == a) by (bit_vector);
    }
    lemma_fold_char(once, p, d, 0);
    assert(fold_state(once, p, d) =~= acc);
}

/// Folding a concatenation equals folding the parts in sequence, the
/// cursor carried across the boundary.
pub proof fn lemma_fold_concat(acc: Seq<u8>, p: u64, a: Seq<u8>, b: Seq<u8>)
    ensures
        fold_state(acc, p, a + b) == fold_state(fold_state(acc, p, a), wadd(p, a.len()), b),
    decreases b.len(),
{
    if b.len() == 0 {
        assert(a + b =~= a);
    } else {
        lemma_fold_concat(acc, p, a, b.drop_last());
        assert((a + b).drop_last() =~= a + b.drop_last());
        lemma_wadd_assoc(p, a.len(), (b.len() - 1) as nat);
    }
}

/// The state of a fresh stream cipher: a newly constructed generator,
/// already stepped once for the first mask, and both cursors at 0.
pub open spec fn stream_init(passwd: Seq<u8>, salt: Seq<u8>, s: CryptSettings) -> StreamModel {
    let g = gen_new(passwd, salt, s.s_cost as nat, s.t_cost as nat, s.step_delta as nat);
    StreamModel {
        cipher: CipherState {
            gen: spec_step_internal(g),
            mask: digest_of(spec_step_output(g)),
            mask_ptr: 0,
        },
        salt_ptr: 0,
    }
}

/// A stream cipher over an exclusively owned keystream generator, with the
/// current mask block, the cursor into it, and the fold cursor of the
/// salt-coupled mode, which is never reset for the cipher's lifetime.
pub struct Stream {
    balloon: Balloon,
    mask: Vec<u8>,
    mask_ptr: usize,
    salt_ptr: u64,
}

impl View for Stream {
    type V = StreamModel;

    closed spec fn view(&self) -> StreamModel {
        StreamModel {
            cipher: CipherState {
                gen: self.balloon@,
                mask: self.mask@,
                mask_ptr: self.mask_ptr as nat,
            },
            salt_ptr: self.salt_ptr,
        }
    }
}

impl Stream {
    /// The structural invariant: a well-formed generator, a 64-byte mask,
    /// and the mask cursor at most one past its end.
    pub closed spec fn wf(&self) -> bool {
        &&& self.balloon.wf()
        &&& self.mask.len() == 64
        &&& self.mask_ptr <= 64
    }

    /// Creates a stream cipher: builds the generator from the password, the
    /// salt and the settings, and draws the first mask from it.
    pub fn new(passwd: &[u8], salt: Vec<u8>, settings: CryptSettings, prog: &mut Progress) -> (r:
        Self)
        requires
            settings.valid(),
            settings.s_cost * settings.t_cost <= usize::MAX,
        ensures
            r@ == stream_init(passwd@, salt@, settings),
            r.wf(),
            final(prog).spec_count() == sat_add(
                old(prog).spec_count(),
                (settings.s_cost * settings.t_cost + 1) as nat,
            ),
            final(prog).spec_max() == sat_add(
                old(prog).spec_max(),
                (settings.s_cost * settings.t_cost) as nat,
            ),
            final(prog).spec_state() == "Mixing buffer"@,
    {
        let ghost gsalt = salt@;
        let mut balloon = Balloon::new(
            passwd,
            salt,
            settings.s_cost,
            settings.t_cost,
            settings.step_delta,
            prog,
        );
        let mask = balloon.step(prog);
        let r = Stream { balloon, mask, mask_ptr: 0, salt_ptr: 0 };
        proof {
            assert(r@ =~~= stream_init(passwd@, gsalt, settings));
        }
        r
    }

    /// XORs the keystream into `data` in place, refilling the mask from the
    /// generator whenever its 64 bytes are used up.
    fn apply_mask(&mut self, data: &mut Vec<u8>, prog: &mut Progress)
        requires
            old(self).wf(),
        ensures
            final(self).wf(),
            final(data)@ == apply_output(old(self)@.cipher, old(data)@),
            final(data)@.len() == old(data)@.len(),
            final(self)@.cipher == apply_state(old(self)@.cipher, old(data)@),
            final(self)@.salt_ptr == old(self)@.salt_ptr,
            final(prog).spec_count() == sat_add(
                old(prog).spec_count(),
                steps_used(old(self)@.cipher, old(data)@),
            ),
            final(prog).spec_max() == old(prog).spec_max(),
            final(prog).spec_state() == old(prog).spec_state(),
    {
        let ghost st0 = self@.cipher;
        let ghost d0 = data@;
        let ghost p_keep = self@.salt_ptr;
        let ghost c0 = prog.spec_count();
        let n = data.len();
        for i in 0..n
            invariant
                self.wf(),
                n == d0.len(),
                data@.len() == n,
                data@ == apply_output(st0, d0.subrange(0, i as int)) + d0.subrange(
                    i as int,
                    n as int,
                ),
                apply_output(st0, d0.subrange(0, i as int)).len() == i,
                self@.cipher == apply_state(st0, d0.subrange(0, i as int)),
                self@.salt_ptr == p_keep,
                prog.spec_count() == sat_add(c0, steps_used(st0, d0.subrange(0, i as int))),
                prog.spec_max() == old(prog).spec_max(),
                prog.spec_state() == old(prog).spec_state(),
        {
            let ghost pre = d0.subrange(0, i as int);
            let ghost stpre = self@.cipher;
            if self.mask_ptr >= 64 {
                let mask = self.balloon.step(prog);
                self.mask = mask;
                self.mask_ptr = 0;
            }
            proof {
                assert(self@.cipher =~~= refilled(stpre));
                assert(data@[i as int] == d0.subrange(i as int, n as int)[0]);
            }
            let c = data[i] ^ self.mask[self.mask_ptr];
            data[i] = c;
            self.mask_ptr = self.mask_ptr + 1;
            proof {
                assert(d0.subrange(0, i as int + 1) =~= pre.push(d0[i as int]));
                lemma_apply_push(st0, pre, d0[i as int]);
                assert(c == byte_out(stpre, d0[i as int]));
                assert(self@.cipher =~~= after_byte(stpre));
                assert(data@ =~= apply_output(st0, pre.push(d0[i as int])) + d0.subrange(
                    i as int + 1,
                    n as int,
                ));
            }
        }
        proof {
            assert(d0.subrange(0, n as int) =~= d0);
        }
    }

    /// Applies the keystream to `data` in place and folds every produced
    /// ciphertext byte into the 64-byte salt accumulator at the fold
    /// cursor's position; the fold cursor advances with every byte and is
    /// never reset for the cipher's lifetime, so the final accumulator
    /// depends on every ciphertext byte this cipher ever produced, in
    /// order.
    pub fn apply_with_salt(&mut self, data: &mut Vec<u8>, salt: &mut Vec<u8>, prog: &mut Progress)
        requires
            old(self).wf(),
            old(salt)@.len() == 64,
        ensures
            final(self).wf(),
            final(data)@ == apply_output(old(self)@.cipher, old(data)@),
            final(self)@.cipher == apply_state(old(self)@.cipher, old(data)@),
            final(self)@.salt_ptr == wadd(old(self)@.salt_ptr, old(data)@.len()),
            final(salt)@ == fold_state(
                old(salt)@,
                old(self)@.salt_ptr,
                apply_output(old(self)@.cipher, old(data)@),
            ),
            final(salt)@.len() == 64,
            final(prog).spec_count() == sat_add(
                old(prog).spec_count(),
                steps_used(old(self)@.cipher, old(data)@),
            ),
            final(prog).spec_max() == old(prog).spec_max(),
            final(prog).spec_state() == old(prog).spec_state(),
    {
        self.apply_mask(data, prog);
        let ghost ct = data@;
        let ghost salt0 = salt@;
        let ghost p0 = self@.salt_ptr;
        proof {
            lemma_wadd_zero(p0);
        }
        let n = data.len();
        for i in 0..n
            invariant
                salt@.len() == 64,
                n == ct.len(),
                data@ == ct,
                salt@ == fold_state(salt0, p0, ct.subrange(0, i as int)),
                self@.salt_ptr == wadd(p0, i as nat),
                self.wf(),
                self@.cipher == apply_state(old(self)@.cipher, old(data)@),
                prog.spec_count() == sat_add(
                    old(prog).spec_count(),
                    steps_used(old(self)@.cipher, old(data)@),
                ),
                prog.spec_max() == old(prog).spec_max(),
                prog.spec_state() == old(prog).spec_state(),
        {
            let j = (self.salt_ptr % 64) as usize;
            let s = salt[j] ^ data[i];
            salt[j] = s;
            self.salt_ptr = self.salt_ptr.wrapping_add(1);
            proof {
                assert(ct.subrange(0, i as int + 1) =~= ct.subrange(0, i as int).push(
                    ct[i as int],
                ));
                lemma_fold_push(salt0, p0, ct.subrange(0, i as int), ct[i as int]);
                lemma_wadd_step(p0, i as nat);
            }
        }
        proof {
            assert(ct.subrange(0, n as int) =~= ct);
        }
    }

    /// Applies the keystream to `data` in place, exactly as
    /// `apply_with_salt` does, but feeds every produced ciphertext byte
    /// into the running hash instead of the salt accumulator. The XOR
    /// output is identical in the two modes; only the side accumulator
    /// differs.
    pub fn apply_with_hash(&mut self, data: &mut Vec<u8>, hash: &mut RunningHash, prog: &mut Progress)
        requires
            old(self).wf(),
        ensures
            final(self).wf(),
            final(data)@ == apply_output(old(self)@.cipher, old(data)@),
            final(self)@.cipher == apply_state(old(self)@.cipher, old(data)@),
            final(self)@.salt_ptr == old(self)@.salt_ptr,
            final(hash)@ == old(hash)@ + apply_output(old(self)@.cipher, old(data)@),
            final(prog).spec_count() == sat_add(
                old(prog).spec_count(),
                steps_used(old(self)@.cipher, old(data)@),
            ),
            final(prog).spec_max() == old(prog).spec_max(),
            final(prog).spec_state() == old(prog).spec_state(),
    {
        self.apply_mask(data, prog);
        hash.update(data.as_slice());
    }
}

/// Replays the salt fold over a full ciphertext: starting from the folded
/// ("encrypted") salt, XOR every ciphertext byte, in order, into the
/// accumulator at the fold cursor's position. Because the XOR fold is
/// self-inverse under replay with the same byte sequence, this turns the
/// folded salt back into the original one; the key is not needed.
pub fn decrypt_salt(salt: &mut Vec<u8>, source: &Vec<u8>)
    requires
        old(salt)@.len() == 64,
    ensures
        final(salt)@ == fold_state(old(salt)@, 0, source@),
        final(salt)@.len() == 64,
{
    let mut salt_ptr: u64 = 0;
    proof {
        lemma_wadd_zero(0);
    }
    let n = source.len();
    for i in 0..n
        invariant
            salt@.len() == 64,
            n == source@.len(),
            salt@ == fold_state(old(salt)@, 0, source@.subrange(0, i as int)),
            salt_ptr == wadd(0, i as nat),
    {
        let j = (salt_ptr % 64) as usize;
        let s = salt[j] ^ source[i];
        salt[j] = s;
        salt_ptr = salt_ptr.wrapping_add(1);
        proof {
            assert(source@.subrange(0, i as int + 1) =~= source@.subrange(0, i as int).push(
                source@[i as int],
            ));
            lemma_fold_push(old(salt)@, 0, source@.subrange(0, i as int), source@[i as int]);
            lemma_wadd_step(0, i as nat);
        }
    }
    proof {
        assert(source@.subrange(0, n as int) =~= source@);
    }
}

/// What encryption produces from a payload, a password, an original salt
/// and settings: the ciphertext (the enciphered MAC block followed by the
/// enciphered payload) and the folded salt, the accumulator after every
/// ciphertext byte has been folded into the original salt.
pub open spec fn spec_encrypt(
    data: Seq<u8>,
    password: Seq<u8>,
    salt: Seq<u8>,
    s: CryptSettings,
) -> (Seq<u8>, Seq<u8>) {
    let key = derived_key_of(password, salt)@;
    let mac = digest_of(key + data);
    let st0 = stream_init(key, salt, s).cipher;
    let c1 = apply_output(st0, mac);
    let c2 = apply_output(apply_state(st0, mac), data);
    let ct = c1 + c2;
    (ct, fold_state(salt, 0, ct))
}

/// What decryption produces from a ciphertext, a password, the recovered
/// original salt and settings: the deciphered payload, and whether the
/// deciphered MAC block matches the MAC recomputed over key and payload.
pub open spec fn spec_decrypt(
    ct: Seq<u8>,
    password: Seq<u8>,
    salt: Seq<u8>,
    s: CryptSettings,
) -> (Seq<u8>, bool)
    recommends
        ct.len() >= 64,
{
    let key = derived_key_of(password, salt)@;
    let st0 = stream_init(key, salt, s).cipher;
    let mac_dec = apply_output(st0, ct.subrange(0, 64));
    let pt = apply_output(apply_state(st0, ct.subrange(0, 64)), ct.subrange(64, ct.len() as int));
    (pt, mac_dec == digest_of(key + pt))
}

/// How many generator steps an encryption takes: building the generator,
/// the first mask, and one step per mask refill over MAC and payload.
pub open spec fn spec_encrypt_steps(
    data: Seq<u8>,
    password: Seq<u8>,
    salt: Seq<u8>,
    s: CryptSettings,
) -> nat {
    let key = derived_key_of(password, salt)@;
    let mac = digest_of(key + data);
    let st0 = stream_init(key, salt, s).cipher;
    (s.s_cost * s.t_cost + 1 + steps_used(st0, mac) + steps_used(apply_state(st0, mac), data)) as nat
}

/// How many generator steps a decryption takes.
pub open spec fn spec_decrypt_steps(
    ct: Seq<u8>,
    password: Seq<u8>,
    salt: Seq<u8>,
    s: CryptSettings,
) -> nat {
    let key = derived_key_of(password, salt)@;
    let st0 = stream_init(key, salt, s).cipher;
    (s.s_cost * s.t_cost + 1 + steps_used(st0, ct.subrange(0, 64)) + steps_used(
        apply_state(st0, ct.subrange(0, 64)),
        ct.subrange(64, ct.len() as int),
    )) as nat
}

/// Relies on rand_chacha::ChaCha20Rng::from_entropy and rand::Rng::fill:
/// fills 64 bytes from a generator seeded with operating-system entropy.
/// Nothing is assumed of the byte values themselves.
#[verifier::external_body]
fn gen_salt() -> (r: Vec<u8>)
    ensures
        r@.len() == 64,
{
    let mut rng = ChaCha20Rng::from_entropy();
    let mut res = [0u8; 64];
    rng.fill(&mut res[..]);
    res.to_vec()
}

/// Whether two byte vectors hold the same bytes.
fn bytes_eq(a: &Vec<u8>, b: &Vec<u8>) -> (r: bool)
    ensures
        r == (a@ == b@),
{
    if a.len() != b.len() {
        return false;
    }
    let n = a.len();
    for i in 0..n
        invariant
            n == a@.len(),
            n == b@.len(),
            forall|k: int| 0 <= k < i ==> a@[k] == b@[k],
    {
        if a[i] != b[i] {
            return false;
        }
    }
    proof {
        assert(a@ =~= b@);
    }
    true
}

/// A vector of `n` zero bytes.
fn zero_bytes(n: usize) -> (r: Vec<u8>)
    ensures
        r@ == Seq::new(n as nat, |i: int| 0u8),
{
    let mut r: Vec<u8> = Vec::new();
    for i in 0..n
        invariant
            r@ =~= Seq::new(i as nat, |k: int| 0u8),
    {
        r.push(0);
        proof {
            assert(r@ =~= Seq::new(i as nat + 1, |k: int| 0u8));
        }
    }
    r
}

/// Encrypts `data` under the given password and a caller-supplied 64-byte
/// salt: derives the key, computes the MAC of key and payload, enciphers
/// the MAC block and then the payload, folding every ciphertext byte into
/// the salt accumulator. Returns the ciphertext (MAC block first) and the
/// folded salt; the original salt is recoverable from the two only
/// together, by replaying the fold over the full ciphertext.
pub fn encrypt_with_salt(
    data: &Vec<u8>,
    password: &[u8],
    salt: &Vec<u8>,
    settings: CryptSettings,
    prog: &mut Progress,
) -> (r: Result<(Vec<u8>, Vec<u8>), CryptError>)
    requires
        salt@.len() == 64,
        settings.s_cost * settings.t_cost <= usize::MAX,
    ensures
        (r is Ok) <==> (settings.valid() && password@.len() <= 0xFFFFFFFF),
        !settings.valid() ==> r == Err::<(Vec<u8>, Vec<u8>), CryptError>(
            CryptError::InvalidSettings,
        ),
        settings.valid() && password@.len() > 0xFFFFFFFF ==> r == Err::<
            (Vec<u8>, Vec<u8>),
            CryptError,
        >(CryptError::KeyDerivationFailure),
        r is Err && settings.valid() ==> final(prog).spec_count() == old(prog).spec_count()
            && final(prog).spec_max() == old(prog).spec_max() && final(prog).spec_state()
            == "Deriving Password"@,
        r matches Ok(out) ==> {
            &&& out.0@ == spec_encrypt(data@, password@, salt@, settings).0
            &&& out.1@ == spec_encrypt(data@, password@, salt@, settings).1
            &&& out.0@.len() == data@.len() + 64
            &&& final(prog).spec_count() == sat_add(
                old(prog).spec_count(),
                spec_encrypt_steps(data@, password@, salt@, settings),
            )
            &&& final(prog).spec_max() == sat_add(
                old(prog).spec_max(),
                (settings.s_cost * settings.t_cost) as nat,
            )
            &&& final(prog).spec_state() == "Encrypting"@
        },
        !settings.valid() ==> *final(prog) == *old(prog),
{
    if !settings.check_valid() {
        return Err(CryptError::InvalidSettings);
    }
    prog.set_state("Deriving Password".to_owned());
    let key = match argon2id_derive(password, salt.as_slice()) {
        Ok(k) => k,
        Err(_) => {
            return Err(CryptError::KeyDerivationFailure);
        },
    };
    let ghost gkey = derived_key_of(password@, salt@)@;

    prog.set_state("Calculating MAC".to_owned());
    let mut mac_hash = RunningHash::new();
    mac_hash.update(key.as_slice());
    mac_hash.update(data.as_slice());
    proof {
        assert(Seq::<u8>::empty() + gkey + data@ =~= gkey + data@);
    }
    let mut mac = mac_hash.finalize();
    let ghost gmac = digest_of(gkey + data@);

    let mut acc: Vec<u8> = Vec::new();
    extend_bytes(&mut acc, salt.as_slice());
    let mut key_salt: Vec<u8> = Vec::new();
    extend_bytes(&mut key_salt, salt.as_slice());
    proof {
        assert(Seq::<u8>::empty() + salt@ =~= salt@);
    }
    let mut stream = Stream::new(key.as_slice(), key_salt, settings, prog);
    let ghost st0 = stream@.cipher;

    prog.set_state("Encrypting".to_owned());
    stream.apply_with_salt(&mut mac, &mut acc, prog);
    let mut payload: Vec<u8> = Vec::new();
    extend_bytes(&mut payload, data.as_slice());
    proof {
        assert(Seq::<u8>::empty() + data@ =~= data@);
    }
    stream.apply_with_salt(&mut payload, &mut acc, prog);
    let ghost c1 = apply_output(st0, gmac);
    let ghost c2 = apply_output(apply_state(st0, gmac), data@);
    proof {
        lemma_apply_output_len(st0, gmac);
        lemma_wadd_zero(0);
        lemma_fold_concat(salt@, 0, c1, c2);
        lemma_apply_output_len(apply_state(st0, gmac), data@);
    }
    let mut ct = mac;
    ct.append(&mut payload);
    proof {
        assert(ct@ == spec_encrypt(data@, password@, salt@, settings).0);
        assert(acc@ == spec_encrypt(data@, password@, salt@, settings).1);
    }
    Ok((ct, acc))
}

/// Encrypts `data` under the given password and settings, with a fresh
/// 64-byte salt drawn from the operating system's entropy source. Returns
/// the ciphertext (MAC block first) and the folded salt that the caller
/// must keep to decrypt later; the folded salt is not the original salt.
pub fn encrypt(
    data: &Vec<u8>,
    password: &[u8],
    settings: CryptSettings,
    prog: &mut Progress,
) -> (r: Result<(Vec<u8>, Vec<u8>), CryptError>)
    requires
        settings.s_cost * settings.t_cost <= usize::MAX,
    ensures
        (r is Ok) <==> (settings.valid() && password@.len() <= 0xFFFFFFFF),
        !settings.valid() ==> r == Err::<(Vec<u8>, Vec<u8>), CryptError>(
            CryptError::InvalidSettings,
        ),
        settings.valid() && password@.len() > 0xFFFFFFFF ==> r == Err::<
            (Vec<u8>, Vec<u8>),
            CryptError,
        >(CryptError::KeyDerivationFailure),
        r is Err && settings.valid() ==> final(prog).spec_count() == old(prog).spec_count()
            && final(prog).spec_max() == old(prog).spec_max() && final(prog).spec_state()
            == "Deriving Password"@,
        !settings.valid() ==> *final(prog) == *old(prog),
        r matches Ok(out) ==> exists|salt: Seq<u8>|
            {
                &&& salt.len() == 64
                &&& out.0@ == #[trigger] spec_encrypt(data@, password@, salt, settings).0
                &&& out.1@ == spec_encrypt(data@, password@, salt, settings).1
                &&& out.0@.len() == data@.len() + 64
                &&& final(prog).spec_count() == sat_add(
                    old(prog).spec_count(),
                    spec_encrypt_steps(data@, password@, salt, settings),
                )
                &&& final(prog).spec_max() == sat_add(
                    old(prog).spec_max(),
                    (settings.s_cost * settings.t_cost) as nat,
                )
                &&& final(prog).spec_state() == "Encrypting"@
            },
{
    let salt = gen_salt();
    let r = encrypt_with_salt(data, password, &salt, settings, prog);
    proof {
        if r is Ok {
            // The freshly drawn salt is the witness of the existential.
            let w = spec_encrypt(data@, password@, salt@, settings);
        }
    }
    r
}

/// Decrypts a ciphertext under the given password, the recovered original
/// salt and settings: derives the key, deciphers the leading 64-byte MAC
/// block (folding into a throwaway accumulator), then deciphers the
/// payload while feeding every deciphered byte into a running hash seeded
/// with the key. Returns the deciphered payload together with whether the
/// recomputed MAC matches the deciphered one. A mismatch means a wrong
/// password or a tampered ciphertext; the payload is returned in full even
/// then, by design, so callers must check the flag before trusting it.
pub fn decrypt(
    source: &Vec<u8>,
    password: &[u8],
    decrypted_salt: &Vec<u8>,
    settings: CryptSettings,
    prog: &mut Progress,
) -> (r: Result<(Vec<u8>, bool), CryptError>)
    requires
        decrypted_salt@.len() == 64,
        settings.s_cost * settings.t_cost <= usize::MAX,
    ensures
        (r is Ok) <==> (settings.valid() && password@.len() <= 0xFFFFFFFF && source@.len() >= 64),
        !settings.valid() ==> r == Err::<(Vec<u8>, bool), CryptError>(CryptError::InvalidSettings),
        settings.valid() && password@.len() > 0xFFFFFFFF ==> r == Err::<(Vec<u8>, bool), CryptError>(
            CryptError::KeyDerivationFailure,
        ),
        settings.valid() && password@.len() <= 0xFFFFFFFF && source@.len() < 64 ==> r == Err::<
            (Vec<u8>, bool),
            CryptError,
        >(CryptError::TruncatedCiphertext),
        r is Err && settings.valid() ==> final(prog).spec_count() == old(prog).spec_count()
            && final(prog).spec_max() == old(prog).spec_max() && final(prog).spec_state()
            == "Deriving Password"@,
        r matches Ok(out) ==> {
            &&& out.0@ == spec_decrypt(source@, password@, decrypted_salt@, settings).0
            &&& out.1 == spec_decrypt(source@, password@, decrypted_salt@, settings).1
            &&& out.0@.len() + 64 == source@.len()
            &&& final(prog).spec_count() == sat_add(
                old(prog).spec_count(),
                spec_decrypt_steps(source@, password@, decrypted_salt@, settings),
            )
            &&& final(prog).spec_max() == sat_add(
                old(prog).spec_max(),
                (settings.s_cost * settings.t_cost) as nat,
            )
            &&& final(prog).spec_state() == "Decrypting"@
        },
        !settings.valid() ==> *final(prog) == *old(prog),
{
    if !settings.check_valid() {
        return Err(CryptError::InvalidSettings);
    }
    prog.set_state("Deriving Password".to_owned());
    let key = match argon2id_derive(password, decrypted_salt.as_slice()) {
        Ok(k) => k,
        Err(_) => {
            return Err(CryptError::KeyDerivationFailure);
        },
    };
    let ghost gkey = derived_key_of(password@, decrypted_salt@)@;
    if source.len() < 64 {
        return Err(CryptError::TruncatedCiphertext);
    }

    let mut expected_mac: Vec<u8> = Vec::new();
    extend_bytes(&mut expected_mac, slice_subrange(source.as_slice(), 0, 64));
    let mut rest: Vec<u8> = Vec::new();
    extend_bytes(&mut rest, slice_subrange(source.as_slice(), 64, source.len()));
    proof {
        assert(Seq::<u8>::empty() + source@.subrange(0, 64) =~= source@.subrange(0, 64));
        assert(Seq::<u8>::empty() + source@.subrange(64, source@.len() as int) =~= source@.subrange(
            64,
            source@.len() as int,
        ));
    }

    let mut key_salt: Vec<u8> = Vec::new();
    extend_bytes(&mut key_salt, decrypted_salt.as_slice());
    proof {
        assert(Seq::<u8>::empty() + decrypted_salt@ =~= decrypted_salt@);
    }
    let mut stream = Stream::new(key.as_slice(), key_salt, settings, prog);
    let ghost st0 = stream@.cipher;

    prog.set_state("Decrypting".to_owned());
    let mut throwaway = zero_bytes(64);
    stream.apply_with_salt(&mut expected_mac, &mut throwaway, prog);

    let mut mac_hash = RunningHash::new();
    mac_hash.update(key.as_slice());
    proof {
        assert(Seq::<u8>::empty() + gkey =~= gkey);
    }
    stream.apply_with_hash(&mut rest, &mut mac_hash, prog);
    let mac = mac_hash.finalize();
    let ghost pt = apply_output(
        apply_state(st0, source@.subrange(0, 64)),
        source@.subrange(64, source@.len() as int),
    );
    proof {
        assert(gkey + pt =~= Seq::<u8>::empty() + gkey + pt);
        lemma_apply_output_len(apply_state(st0, source@.subrange(0, 64)), source@.subrange(
            64,
            source@.len() as int,
        ));
    }
    let ok = bytes_eq(&expected_mac, &mac);
    Ok((rest, ok))
}

/// Round trip: for every payload, password, 64-byte salt and settings,
/// replaying the fold over the ciphertext turns the folded salt back into
/// the original salt, and decrypting the ciphertext under the same
/// password and that salt authenticates and reproduces the payload
/// exactly.
pub proof fn lemma_round_trip(data: Seq<u8>, password: Seq<u8>, salt: Seq<u8>, s: CryptSettings)
    requires
        salt.len() == 64,
    ensures
        fold_state(spec_encrypt(data, password, salt, s).1, 0, spec_encrypt(data, password, salt, s).0)
            == salt,
        spec_decrypt(spec_encrypt(data, password, salt, s).0, password, salt, s).0 == data,
        spec_decrypt(spec_encrypt(data, password, salt, s).0, password, salt, s).1 == true,
{
    let key = derived_key_of(password, salt)@;
    let mac = digest_of(key + data);
    let st0 = stream_init(key, salt, s).cipher;
    let c1 = apply_output(st0, mac);
    let st1 = apply_state(st0, mac);
    let c2 = apply_output(st1, data);
    let ct = c1 + c2;

    // Replaying the fold over the full ciphertext recovers the salt.
    lemma_fold_involution(salt, 0, ct);

    // The ciphertext splits back into the enciphered MAC and payload.
    lemma_apply_output_len(st0, mac);
    lemma_apply_output_len(st1, data);
    assert(ct.subrange(0, 64) =~= c1);
    assert(ct.subrange(64, ct.len() as int) =~= c2);

    // Deciphering the MAC block undoes enciphering it.
    lemma_apply_involution(st0, mac);

    // The keystream state depends only on byte counts, so deciphering
    // continues exactly where enciphering did.
    lemma_apply_state_len(st0, c1, mac);

    // Deciphering the payload undoes enciphering it.
    lemma_apply_involution(st1, data);
}

/// The two coupling modes produce byte-identical ciphertext. The XOR
/// output is a function of the keystream state alone — a `CipherState`
/// holds neither the fold cursor nor either accumulator — so two stream
/// ciphers that agree on it produce the same bytes whether the output is
/// folded into a salt or fed into a running hash.
pub proof fn lemma_coupling_equivalence(s1: StreamModel, s2: StreamModel, d: Seq<u8>)
    requires
        s1.cipher == s2.cipher,
    ensures
        apply_output(s1.cipher, d) == apply_output(s2.cipher, d),
        apply_state(s1.cipher, d) == apply_state(s2.cipher, d),
{
}

/// Whatever the password, decryption writes exactly one payload byte per
/// ciphertext byte after the 64-byte MAC block: a wrong password changes
/// the byte values, never how many bytes the destination receives.
pub proof fn lemma_decrypt_length(ct: Seq<u8>, password: Seq<u8>, salt: Seq<u8>, s: CryptSettings)
    requires
        ct.len() >= 64,
    ensures
        spec_decrypt(ct, password, salt, s).0.len() == ct.len() - 64,
{
    let key = derived_key_of(password, salt)@;
    let st0 = stream_init(key, salt, s).cipher;
    lemma_apply_output_len(apply_state(st0, ct.subrange(0, 64)), ct.subrange(64, ct.len() as int));
}

} // verus!
