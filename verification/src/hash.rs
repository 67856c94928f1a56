//! The memory-hard keystream generator: a fixed-size buffer of 64-byte
//! blocks, filled by a sequential hash chain and then mixed in place. Every
//! hash invocation absorbs a monotonically increasing counter, so no two
//! invocations ever see the same input. The externally visible keystream is
//! decoupled from the buffer by one extra hash layer.
//!
//! Note on the "previous block" selection in the mixing step: when the
//! current position is not 0, the step reads the block at the current
//! position itself rather than the one before it, against the apparent
//! intent of a wrapped previous index. The asymmetry is part of this
//! construction as deployed, and changing it would change every keystream
//! ever produced, so it is kept deliberately; it is also an open question
//! of the design, one more reason this cipher is experimental and must not
//! be relied on without independent review.

use crate::hashing::digest2;
use crate::hashing::digest3;
use crate::hashing::digest_of;
use crate::hashing::extend_bytes;
use crate::hashing::sha3_512;
use crate::progress::sat_add;
use crate::progress::Progress;
use vstd::bytes::spec_u64_from_le_bytes;
use vstd::bytes::spec_u64_to_le_bytes;
use vstd::bytes::u64_from_le_bytes;
use vstd::bytes::u64_to_le_bytes;
use vstd::prelude::*;
use vstd::slice::slice_subrange;

verus! {

/// The views of a sequence of byte vectors, as a sequence of byte
/// sequences.
pub open spec fn views_of(b: Seq<Vec<u8>>) -> Seq<Seq<u8>> {
    Seq::new(b.len(), |i: int| b[i]@)
}

/// `c + 1` on a 64-bit counter, wrapping around at the top.
pub open spec fn winc(c: u64) -> u64 {
    if c == u64::MAX {
        0
    } else {
        (c + 1) as u64
    }
}

/// The abstract state of a keystream generator: the buffer of blocks, the
/// salt absorbed by the probing hashes, the number of pseudorandom samples
/// taken per mixing step, the hash counter, and the current position.
#[verifier::ext_equal]
pub ghost struct GenModel {
    pub buffer: Seq<Seq<u8>>,
    pub salt: Seq<u8>,
    pub step_delta: nat,
    pub cnt: u64,
    pub pos: nat,
}

/// The first `k` blocks of the buffer fill: block 0 hashes the counter, the
/// password and the salt; every later block hashes the counter and its
/// predecessor, a strictly sequential chain.
pub open spec fn fill_blocks(passwd: Seq<u8>, salt: Seq<u8>, k: nat) -> Seq<Seq<u8>>
    decreases k,
{
    if k == 0 {
        Seq::empty()
    } else if k == 1 {
        seq![digest_of(spec_u64_to_le_bytes(0) + passwd + salt)]
    } else {
        let p = fill_blocks(passwd, salt, (k - 1) as nat);
        p.push(digest_of(spec_u64_to_le_bytes((k - 1) as u64) + p.last()))
    }
}

/// The generator state right after the fill, before any mixing.
pub open spec fn gen_fill(passwd: Seq<u8>, salt: Seq<u8>, s_cost: nat, step_delta: nat) -> GenModel {
    GenModel {
        buffer: fill_blocks(passwd, salt, s_cost),
        salt: salt,
        step_delta: step_delta,
        cnt: s_cost as u64,
        pos: 0,
    }
}

/// The buffer index probed by sample `i`: the low 8 bytes, read
/// little-endian, of a hash of the sample number, the counter and the salt,
/// reduced modulo the buffer length.
pub open spec fn sample_index(m: GenModel, i: nat) -> int {
    let probe = digest_of(spec_u64_to_le_bytes(i as u64) + spec_u64_to_le_bytes(m.cnt) + m.salt);
    spec_u64_from_le_bytes(probe.subrange(0, 8)) as int % m.buffer.len() as int
}

/// One pseudorandom sample of the mixing step: probe an index, then replace
/// the current block by a hash of the counter, the current block and the
/// probed block.
pub open spec fn sample_once(m: GenModel, i: nat) -> GenModel {
    let other = sample_index(m, i);
    let c1 = winc(m.cnt);
    let b = digest_of(spec_u64_to_le_bytes(c1) + m.buffer[m.pos as int] + m.buffer[other]);
    GenModel {
        buffer: m.buffer.update(m.pos as int, b),
        salt: m.salt,
        step_delta: m.step_delta,
        cnt: winc(c1),
        pos: m.pos,
    }
}

/// Samples `0 .. k` applied in order.
pub open spec fn samples(m: GenModel, k: nat) -> GenModel
    decreases k,
{
    if k == 0 {
        m
    } else {
        sample_once(samples(m, (k - 1) as nat), (k - 1) as nat)
    }
}

/// One internal mixing step at the current position: hash the "previous"
/// block (the last block when the position is 0, otherwise the current
/// block itself), the counter and the current block; then take `step_delta`
/// pseudorandom samples; then advance the position.
pub open spec fn spec_step_internal(m: GenModel) -> GenModel {
    let prev = if m.pos == 0 {
        m.buffer[m.buffer.len() - 1]
    } else {
        m.buffer[m.pos as int]
    };
    let b = digest_of(prev + spec_u64_to_le_bytes(m.cnt) + m.buffer[m.pos as int]);
    let m1 = GenModel {
        buffer: m.buffer.update(m.pos as int, b),
        salt: m.salt,
        step_delta: m.step_delta,
        cnt: winc(m.cnt),
        pos: m.pos,
    };
    let m2 = samples(m1, m.step_delta);
    GenModel {
        buffer: m2.buffer,
        salt: m2.salt,
        step_delta: m2.step_delta,
        cnt: m2.cnt,
        pos: ((m.pos + 1) as int % m.buffer.len() as int) as nat,
    }
}

/// The block an internal mixing step hands out: the mixed block at the
/// position the step worked on.
pub open spec fn spec_step_output(m: GenModel) -> Seq<u8> {
    spec_step_internal(m).buffer[m.pos as int]
}

/// `n` internal mixing steps applied in order.
pub open spec fn steps_n(m: GenModel, n: nat) -> GenModel
    decreases n,
{
    if n == 0 {
        m
    } else {
        spec_step_internal(steps_n(m, (n - 1) as nat))
    }
}

/// The generator state after construction: the fill, then `s_cost * t_cost`
/// internal mixing steps.
pub open spec fn gen_new(
    passwd: Seq<u8>,
    salt: Seq<u8>,
    s_cost: nat,
    t_cost: nat,
    step_delta: nat,
) -> GenModel {
    steps_n(gen_fill(passwd, salt, s_cost, step_delta), s_cost * t_cost)
}

/// Each pseudorandom sample advances the hash counter twice: once for the
/// probe, once for the mixing hash.
proof fn lemma_samples_cnt(m: GenModel, k: nat)
    requires
        m.cnt + 2 * k <= u64::MAX,
    ensures
        samples(m, k).cnt == m.cnt + 2 * k,
        samples(m, k).step_delta == m.step_delta,
    decreases k,
{
    if k > 0 {
        lemma_samples_cnt(m, (k - 1) as nat);
    }
}

/// One internal mixing step advances the hash counter once for the
/// chaining hash and twice per pseudorandom sample.
proof fn lemma_step_internal_cnt(m: GenModel)
    requires
        m.cnt + 1 + 2 * m.step_delta <= u64::MAX,
    ensures
        spec_step_internal(m).cnt == m.cnt + 1 + 2 * m.step_delta,
        spec_step_internal(m).step_delta == m.step_delta,
{
    let prev = if m.pos == 0 {
        m.buffer[m.buffer.len() - 1]
    } else {
        m.buffer[m.pos as int]
    };
    let b = digest_of(prev + spec_u64_to_le_bytes(m.cnt) + m.buffer[m.pos as int]);
    let m1 = GenModel {
        buffer: m.buffer.update(m.pos as int, b),
        salt: m.salt,
        step_delta: m.step_delta,
        cnt: winc(m.cnt),
        pos: m.pos,
    };
    assert(winc(m.cnt) == m.cnt + 1);
    lemma_samples_cnt(m1, m.step_delta);
}

/// `n` internal mixing steps advance the hash counter `n` times as much.
proof fn lemma_steps_n_cnt(m: GenModel, n: nat)
    requires
        m.cnt + n * (1 + 2 * m.step_delta) <= u64::MAX,
    ensures
        steps_n(m, n).cnt == m.cnt + n * (1 + 2 * m.step_delta),
        steps_n(m, n).step_delta == m.step_delta,
    decreases n,
{
    if n > 0 {
        assert(n * (1 + 2 * m.step_delta) == (n - 1) * (1 + 2 * m.step_delta) + (1 + 2
            * m.step_delta)) by (nonlinear_arith)
            requires
                n >= 1,
        ;
        assert((n - 1) * (1 + 2 * m.step_delta) >= 0) by (nonlinear_arith)
            requires
                n >= 1,
        ;
        lemma_steps_n_cnt(m, (n - 1) as nat);
        let prev = steps_n(m, (n - 1) as nat);
        lemma_step_internal_cnt(prev);
        assert(steps_n(m, n) == spec_step_internal(prev));
        assert(steps_n(m, n).cnt == m.cnt + n * (1 + 2 * m.step_delta));
    } else {
        assert(n * (1 + 2 * m.step_delta) == 0) by (nonlinear_arith)
            requires
                n == 0,
        ;
        assert(steps_n(m, n).cnt == m.cnt + n * (1 + 2 * m.step_delta));
    }
}

/// The hash counter never resets and is absorbed into every hash
/// invocation, so no two invocations ever see the same input. After
/// construction it has advanced exactly once per fill block, plus, for
/// each of the `s_cost * t_cost` mixing steps, once for the chaining hash
/// and twice per pseudorandom sample.
pub proof fn lemma_gen_new_cnt(
    passwd: Seq<u8>,
    salt: Seq<u8>,
    s_cost: nat,
    t_cost: nat,
    step_delta: nat,
)
    requires
        s_cost + s_cost * t_cost * (1 + 2 * step_delta) <= u64::MAX,
    ensures
        gen_new(passwd, salt, s_cost, t_cost, step_delta).cnt == s_cost + s_cost * t_cost * (2
            * step_delta + 1),
{
    let fill = gen_fill(passwd, salt, s_cost, step_delta);
    assert((s_cost * t_cost) * (1 + 2 * step_delta) == s_cost * t_cost * (2 * step_delta + 1))
        by (nonlinear_arith);
    assert(s_cost * t_cost * (2 * step_delta + 1) >= 0) by (nonlinear_arith);
    lemma_steps_n_cnt(fill, s_cost * t_cost);
}

/// The keystream as a pure function of its inputs: the block handed out
/// by the `n`th call of `step`, counting from 0, on a generator freshly
/// built from the password, the salt and the three cost parameters.
pub open spec fn keystream_block(
    passwd: Seq<u8>,
    salt: Seq<u8>,
    s_cost: nat,
    t_cost: nat,
    step_delta: nat,
    n: nat,
) -> Seq<u8> {
    digest_of(spec_step_output(steps_n(gen_new(passwd, salt, s_cost, t_cost, step_delta), n)))
}

/// Determinism of the keystream: a generator that stands in the state
/// reached from (password, salt, costs) after `n` steps hands out
/// `keystream_block(...)` of those inputs and `n` alone, and moves to the
/// state after `n + 1` steps. With `Balloon::new` and `Balloon::step`,
/// which pin the implementation to exactly these states, two
/// independently constructed generators with identical inputs produce
/// identical `step` sequences, byte for byte, indefinitely.
pub proof fn lemma_keystream_deterministic(
    passwd: Seq<u8>,
    salt: Seq<u8>,
    s_cost: nat,
    t_cost: nat,
    step_delta: nat,
    n: nat,
    g: GenModel,
)
    requires
        g == steps_n(gen_new(passwd, salt, s_cost, t_cost, step_delta), n),
    ensures
        digest_of(spec_step_output(g)) == keystream_block(passwd, salt, s_cost, t_cost, step_delta, n),
        spec_step_internal(g) == steps_n(gen_new(passwd, salt, s_cost, t_cost, step_delta), n + 1),
{
    assert(steps_n(gen_new(passwd, salt, s_cost, t_cost, step_delta), n + 1)
        == spec_step_internal(steps_n(gen_new(passwd, salt, s_cost, t_cost, step_delta), n)));
}

/// The keystream generator. Owns a buffer of `s_cost` 64-byte blocks that
/// stays resident for the generator's whole lifetime; the memory residency
/// is the point of the construction, so blocks are never rederived lazily.
pub struct Balloon {
    buffer: Vec<Vec<u8>>,
    salt: Vec<u8>,
    step_delta: usize,
    cnt: u64,
    pos: usize,
}

impl View for Balloon {
    type V = GenModel;

    closed spec fn view(&self) -> GenModel {
        GenModel {
            buffer: views_of(self.buffer@),
            salt: self.salt@,
            step_delta: self.step_delta as nat,
            cnt: self.cnt,
            pos: self.pos as nat,
        }
    }
}

impl Balloon {
    /// The structural invariant: a nonempty buffer, the position inside it,
    /// and at least one sample per mixing step.
    pub closed spec fn wf(&self) -> bool {
        &&& self.buffer.len() >= 1
        &&& self.pos < self.buffer.len()
        &&& self.step_delta >= 1
    }

    /// The hash counter; it increases with every hash invocation and is
    /// absorbed into each of them.
    pub fn counter(&self) -> (r: u64)
        ensures
            r == self@.cnt,
    {
        self.cnt
    }

    /// Creates a generator: allocates `s_cost` blocks, fills them with a
    /// sequential hash chain over the password and the salt, then runs
    /// `t_cost` rounds of mixing, each of which steps once at every buffer
    /// position. The target of `prog` is raised by `s_cost * t_cost` and its
    /// counter is incremented once per mixing step.
    pub fn new(
        passwd: &[u8],
        salt: Vec<u8>,
        s_cost: usize,
        t_cost: usize,
        step_delta: usize,
        prog: &mut Progress,
    ) -> (r: Self)
        requires
            s_cost >= 1,
            t_cost >= 1,
            step_delta >= 1,
            s_cost * t_cost <= usize::MAX,
        ensures
            r@ == gen_new(passwd@, salt@, s_cost as nat, t_cost as nat, step_delta as nat),
            r.wf(),
            r@.buffer.len() == s_cost,
            final(prog).spec_count() == sat_add(old(prog).spec_count(), (s_cost * t_cost) as nat),
            final(prog).spec_max() == sat_add(old(prog).spec_max(), (s_cost * t_cost) as nat),
            final(prog).spec_state() == "Mixing buffer"@,
    {
        let ghost gpass = passwd@;
        let ghost gsalt = salt@;
        prog.set_state("Filling buffer".to_owned());
        let total = s_cost * t_cost;
        prog.inc_max(total);

        // Fill the buffer: a hash chain with no random access.
        let mut buffer: Vec<Vec<u8>> = Vec::new();
        let zero = u64_to_le_bytes(0);
        let b0 = digest3(zero.as_slice(), passwd, salt.as_slice());
        buffer.push(b0);
        let mut cnt: u64 = 1;
        proof {
            assert(views_of(buffer@) =~= fill_blocks(gpass, gsalt, 1));
        }
        for m in 1..s_cost
            invariant
                1 <= m <= s_cost,
                cnt == m,
                buffer.len() == m,
                views_of(buffer@) == fill_blocks(gpass, gsalt, m as nat),
        {
            let ghost dv = views_of(buffer@);
            let cb = u64_to_le_bytes(cnt);
            let b = digest2(cb.as_slice(), buffer[m - 1].as_slice());
            buffer.push(b);
            cnt = cnt + 1;
            proof {
                assert(dv.last() == dv[m - 1]);
                assert(views_of(buffer@) =~= dv.push(
                    digest_of(spec_u64_to_le_bytes(m as u64) + dv.last()),
                ));
            }
        }

        let mut res = Balloon { buffer, salt, step_delta, cnt, pos: 0 };
        proof {
            assert(res@ =~~= gen_fill(gpass, gsalt, s_cost as nat, step_delta as nat));
        }
        prog.set_state("Mixing buffer".to_owned());

        // Mix the buffer: t_cost rounds of s_cost internal steps each.
        let ghost m0 = res@;
        let ghost count0 = prog.spec_count();
        for k in 0..total
            invariant
                res@ == steps_n(m0, k as nat),
                res.wf(),
                res@.buffer.len() == s_cost,
                prog.spec_count() == sat_add(count0, k as nat),
                prog.spec_max() == sat_add(old(prog).spec_max(), total as nat),
                prog.spec_state() == "Mixing buffer"@,
        {
            res.step_internal(prog);
        }
        res
    }

    /// One internal mixing step; doing this `s_cost` times equals one round
    /// of buffer mixing. Returns the mixed block at the position the step
    /// worked on, before the position advances.
    fn step_internal(&mut self, prog: &mut Progress) -> (r: Vec<u8>)
        requires
            old(self).wf(),
        ensures
            final(self)@ == spec_step_internal(old(self)@),
            final(self).wf(),
            final(self)@.buffer.len() == old(self)@.buffer.len(),
            r@ == spec_step_output(old(self)@),
            final(prog).spec_count() == sat_add(old(prog).spec_count(), 1),
            final(prog).spec_max() == old(prog).spec_max(),
            final(prog).spec_state() == old(prog).spec_state(),
    {
        let ghost m = self@;
        prog.inc();
        let s_cost = self.buffer.len();

        // Hash the "previous" block, the counter, and the current block.
        let mut inp: Vec<u8> = Vec::new();
        if self.pos == 0 {
            extend_bytes(&mut inp, self.buffer[s_cost - 1].as_slice());
        } else {
            extend_bytes(&mut inp, self.buffer[self.pos].as_slice());
        }
        let cb = u64_to_le_bytes(self.cnt);
        extend_bytes(&mut inp, cb.as_slice());
        extend_bytes(&mut inp, self.buffer[self.pos].as_slice());
        let b = sha3_512(inp.as_slice());
        self.cnt = self.cnt.wrapping_add(1);
        let ghost dv = views_of(self.buffer@);
        proof {
            assert(inp@ =~= (if m.pos == 0 {
                m.buffer[m.buffer.len() - 1]
            } else {
                m.buffer[m.pos as int]
            }) + spec_u64_to_le_bytes(m.cnt) + m.buffer[m.pos as int]);
        }
        self.buffer[self.pos] = b;
        let ghost m1 = samples(m, 0);
        proof {
            assert(views_of(self.buffer@) =~= dv.update(m.pos as int, b@));
            assert(self@ =~~= (GenModel {
                buffer: m.buffer.update(m.pos as int, digest_of(
                    (if m.pos == 0 {
                        m.buffer[m.buffer.len() - 1]
                    } else {
                        m.buffer[m.pos as int]
                    }) + spec_u64_to_le_bytes(m.cnt) + m.buffer[m.pos as int],
                )),
                salt: m.salt,
                step_delta: m.step_delta,
                cnt: winc(m.cnt),
                pos: m.pos,
            }));
        }
        let ghost mbase = self@;

        // Pseudorandom samples: probe an index from a hash of the sample
        // number, the counter and the salt, then fold the probed block in.
        let delta = self.step_delta;
        for i in 0..delta
            invariant
                self@ == samples(mbase, i as nat),
                self.wf(),
                self@.buffer.len() == mbase.buffer.len(),
                self@.salt == mbase.salt,
                self@.pos == mbase.pos,
                self.buffer.len() == s_cost,
                self.pos == mbase.pos,
                prog.spec_count() == sat_add(old(prog).spec_count(), 1),
                prog.spec_max() == old(prog).spec_max(),
                prog.spec_state() == old(prog).spec_state(),
        {
            let ghost ms = self@;
            let ib = u64_to_le_bytes(i as u64);
            let cb1 = u64_to_le_bytes(self.cnt);
            let probe = digest3(ib.as_slice(), cb1.as_slice(), self.salt.as_slice());
            self.cnt = self.cnt.wrapping_add(1);
            let idx = u64_from_le_bytes(slice_subrange(probe.as_slice(), 0, 8));
            let other = (idx % (s_cost as u64)) as usize;
            proof {
                assert(other as int == sample_index(ms, i as nat));
                assert(0 <= other < s_cost);
            }
            let cb2 = u64_to_le_bytes(self.cnt);
            let b2 = digest3(
                cb2.as_slice(),
                self.buffer[self.pos].as_slice(),
                self.buffer[other].as_slice(),
            );
            self.cnt = self.cnt.wrapping_add(1);
            let ghost dv2 = views_of(self.buffer@);
            proof {
                assert(cb2@ + self.buffer@[self.pos as int]@ + self.buffer@[other as int]@
                    =~= spec_u64_to_le_bytes(winc(ms.cnt)) + ms.buffer[ms.pos as int]
                    + ms.buffer[sample_index(ms, i as nat)]);
            }
            self.buffer[self.pos] = b2;
            proof {
                assert(views_of(self.buffer@) =~= dv2.update(ms.pos as int, b2@));
                assert(self@ =~~= sample_once(ms, i as nat));
            }
        }

        let mut out: Vec<u8> = Vec::new();
        extend_bytes(&mut out, self.buffer[self.pos].as_slice());
        self.pos = (self.pos + 1) % s_cost;
        proof {
            assert(out@ =~= samples(mbase, m.step_delta).buffer[m.pos as int]);
            assert(self@ =~~= spec_step_internal(m));
        }
        out
    }

    /// One public advance of the keystream: runs the internal mixing step
    /// once and applies one extra hash layer to its result, so the keystream
    /// never exposes raw buffer contents.
    pub fn step(&mut self, prog: &mut Progress) -> (r: Vec<u8>)
        requires
            old(self).wf(),
        ensures
            final(self)@ == spec_step_internal(old(self)@),
            final(self).wf(),
            final(self)@.buffer.len() == old(self)@.buffer.len(),
            r@ == digest_of(spec_step_output(old(self)@)),
            r@.len() == 64,
            final(prog).spec_count() == sat_add(old(prog).spec_count(), 1),
            final(prog).spec_max() == old(prog).spec_max(),
            final(prog).spec_state() == old(prog).spec_state(),
    {
        let t = self.step_internal(prog);
        sha3_512(t.as_slice())
    }
}

} // verus!
