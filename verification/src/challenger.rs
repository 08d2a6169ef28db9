//! The Fiat-Shamir transcript: a duplex sponge that absorbs field elements
//! and gives out challenges that depend on everything absorbed before.

use crate::field::all_canonical;
use crate::field::ext_canonical;
use crate::field::is_canonical;
use crate::field::Ext;
use crate::field::Felt;
use crate::hash::overwrite;
use crate::hash::zero_state;
use crate::hash::Digest;
use crate::hash::Permutation;
use vstd::arithmetic::power2::pow2;
use vstd::prelude::*;

verus! {

/// Number of bits in the canonical representative of a field element.
pub const NUM_BITS: usize = 31;

/// The transcript as a mathematical value.
pub struct DuplexState {
    /// The sixteen elements of the sponge.
    pub sponge_state: Seq<Felt>,
    /// What was absorbed since the sponge was last permuted.
    pub input_buffer: Seq<Felt>,
    /// What is left to give out of the last permutation; the last entry
    /// leaves first.
    pub output_buffer: Seq<Felt>,
}

/// The transcript of one verification.
#[derive(Debug)]
pub struct DuplexChallenger {
    pub sponge_state: [Felt; 16],
    pub input_buffer: Vec<Felt>,
    pub output_buffer: Vec<Felt>,
}

impl View for DuplexChallenger {
    type V = DuplexState;

    open spec fn view(&self) -> DuplexState {
        DuplexState {
            sponge_state: self.sponge_state@,
            input_buffer: self.input_buffer@,
            output_buffer: self.output_buffer@,
        }
    }
}

/// The buffered input goes into the sponge, the sponge is permuted, and its
/// sixteen elements become the new output.
pub open spec fn duplexing<H: Permutation>(perm: H, s: DuplexState) -> DuplexState {
    let permuted = perm.spec_permute(overwrite(s.sponge_state, s.input_buffer));
    DuplexState {
        sponge_state: permuted,
        input_buffer: Seq::empty(),
        output_buffer: permuted,
    }
}

/// The transcript after `value` has been absorbed: pending output is
/// dropped, and the sponge is permuted once eight elements are buffered.
pub open spec fn spec_observe<H: Permutation>(perm: H, s: DuplexState, value: Felt) -> DuplexState {
    let buffered = DuplexState {
        sponge_state: s.sponge_state,
        input_buffer: s.input_buffer.push(value),
        output_buffer: Seq::empty(),
    };
    if buffered.input_buffer.len() == 8 {
        duplexing(perm, buffered)
    } else {
        buffered
    }
}

/// The transcript after `values` have been absorbed one by one, in order.
pub open spec fn observe_all<H: Permutation>(perm: H, s: DuplexState, values: Seq<Felt>) -> DuplexState
    decreases values.len(),
{
    if values.len() == 0 {
        s
    } else {
        spec_observe(perm, observe_all(perm, s, values.drop_last()), values.last())
    }
}

/// The transcript from which the next challenge is taken: the sponge is
/// permuted first if input is pending or no output is left.
pub open spec fn ready<H: Permutation>(perm: H, s: DuplexState) -> DuplexState {
    if s.input_buffer.len() > 0 || s.output_buffer.len() == 0 {
        duplexing(perm, s)
    } else {
        s
    }
}

/// The next challenge.
pub open spec fn sampled_value<H: Permutation>(perm: H, s: DuplexState) -> Felt {
    ready(perm, s).output_buffer.last()
}

/// The transcript after the next challenge has been taken.
pub open spec fn after_sample<H: Permutation>(perm: H, s: DuplexState) -> DuplexState {
    let r = ready(perm, s);
    DuplexState {
        sponge_state: r.sponge_state,
        input_buffer: r.input_buffer,
        output_buffer: r.output_buffer.drop_last(),
    }
}

/// The transcript after `n` challenges have been taken.
pub open spec fn after_samples<H: Permutation>(perm: H, s: DuplexState, n: nat) -> DuplexState
    decreases n,
{
    if n == 0 {
        s
    } else {
        after_sample(perm, after_samples(perm, s, (n - 1) as nat))
    }
}

/// The next extension-field challenge: four base-field challenges, taken
/// as the coefficients from the constant term up.
pub open spec fn sampled_ext<H: Permutation>(perm: H, s: DuplexState) -> Ext {
    Ext {
        c0: sampled_value(perm, s),
        c1: sampled_value(perm, after_samples(perm, s, 1)),
        c2: sampled_value(perm, after_samples(perm, s, 2)),
        c3: sampled_value(perm, after_samples(perm, s, 3)),
    }
}

/// The lowest `n` bits of `x`, lowest first.
pub open spec fn bits_le(x: nat, n: nat) -> Seq<bool>
    decreases n,
{
    if n == 0 {
        Seq::empty()
    } else {
        bits_le(x, (n - 1) as nat).push((x / pow2((n - 1) as nat)) % 2 == 1)
    }
}

/// The number that `bits` spell, lowest bit first.
pub open spec fn index_value(bits: Seq<bool>) -> nat
    decreases bits.len(),
{
    if bits.len() == 0 {
        0
    } else {
        (if bits[0] {
            1nat
        } else {
            0nat
        }) + 2 * index_value(bits.drop_first())
    }
}

/// The number that `bits` spell, highest bit first: the value of the
/// position with its bits reversed.
pub open spec fn reversed_index_value(bits: Seq<bool>) -> nat
    decreases bits.len(),
{
    if bits.len() == 0 {
        0
    } else {
        2 * reversed_index_value(bits.drop_last()) + (if bits.last() {
            1nat
        } else {
            0nat
        })
    }
}

/// A bit put in front of `bits` counts `2^bits.len()` in the reversed
/// value.
pub proof fn lemma_reversed_index_value_front(bit: bool, bits: Seq<bool>)
    ensures
        reversed_index_value(seq![bit] + bits) == (if bit {
            pow2(bits.len())
        } else {
            0nat
        }) + reversed_index_value(bits),
    decreases bits.len(),
{
    vstd::arithmetic::power2::lemma2_to64();
    if bits.len() == 0 {
        assert(seq![bit] + bits =~= seq![bit]);
        assert(seq![bit].drop_last() =~= Seq::<bool>::empty());
        assert(reversed_index_value(seq![bit]) == 2 * reversed_index_value(
            Seq::<bool>::empty(),
        ) + (if bit {
            1nat
        } else {
            0nat
        }));
    } else {
        lemma_reversed_index_value_front(bit, bits.drop_last());
        assert((seq![bit] + bits).drop_last() =~= seq![bit] + bits.drop_last());
        vstd::arithmetic::power2::lemma_pow2_unfold(bits.len());
    }
}

/// Positions are taken by truncation: the lowest `k` bits of a position of
/// `n` bits are the position of `k` bits drawn from the same challenge.
pub proof fn lemma_index_truncation(x: nat, n: nat, k: nat)
    requires
        k <= n,
    ensures
        bits_le(x, n).len() == n,
        bits_le(x, n).take(k as int) == bits_le(x, k),
    decreases n,
{
    if n > 0 {
        lemma_index_truncation(x, (n - 1) as nat, if k < n {
            k
        } else {
            (n - 1) as nat
        });
        if k < n {
            assert(bits_le(x, n).take(k as int) =~= bits_le(x, (n - 1) as nat).take(k as int));
        } else {
            assert(bits_le(x, n).take(k as int) =~= bits_le(x, n));
        }
    } else {
        assert(bits_le(x, n).take(k as int) =~= bits_le(x, k));
    }
}

/// The bits of a position spell the challenge they were drawn from, as far
/// as they reach: the value of the lowest `n` bits of `x` is `x mod 2^n`.
pub proof fn lemma_index_value_of_bits(x: nat, n: nat)
    ensures
        index_value(bits_le(x, n)) == x % pow2(n),
    decreases n,
{
    vstd::arithmetic::power2::lemma2_to64();
    if n == 0 {
    } else {
        let bits = bits_le(x, n);
        lemma_index_truncation(x, n, n);
        lemma_bits_drop_first(x, n);
        lemma_index_value_of_bits(x / 2, (n - 1) as nat);
        lemma_index_truncation(x, n, 1);
        assert(bits[0] == bits_le(x, 1)[0]);
        assert(bits_le(x, 1) =~= bits_le(x, 0).push((x / pow2(0)) % 2 == 1));
        assert(bits[0] == (x % 2 == 1));
        vstd::arithmetic::power2::lemma_pow2_unfold(n);
        vstd::arithmetic::power2::lemma_pow2_pos((n - 1) as nat);
        vstd::arithmetic::div_mod::lemma_mod_breakdown(x as int, 2, pow2((n - 1) as nat) as int);
    }
}

/// Without its lowest bit, a position is the position drawn from half the
/// challenge.
pub proof fn lemma_bits_drop_first(x: nat, n: nat)
    requires
        n > 0,
    ensures
        bits_le(x, n).drop_first() == bits_le(x / 2, (n - 1) as nat),
    decreases n,
{
    lemma_index_truncation(x, n, n);
    lemma_index_truncation(x / 2, (n - 1) as nat, (n - 1) as nat);
    if n == 1 {
        assert(bits_le(x, n).drop_first() =~= bits_le(x / 2, 0));
    } else {
        lemma_bits_drop_first(x, (n - 1) as nat);
        let m = (n - 2) as nat;
        vstd::arithmetic::power2::lemma_pow2_unfold((n - 1) as nat);
        vstd::arithmetic::power2::lemma_pow2_pos(m);
        vstd::arithmetic::div_mod::lemma_div_denominator(x as int, 2, pow2(m) as int);
        assert(bits_le(x, n).drop_first() =~= bits_le(x, (n - 1) as nat).drop_first().push(
            (x / pow2((n - 1) as nat)) % 2 == 1,
        ));
    }
}

/// A smaller domain is queried at the high bits of the position: without
/// its `r` lowest bits, a position spells the position divided by `2^r`.
pub proof fn lemma_index_embedding(bits: Seq<bool>, r: nat)
    requires
        r <= bits.len(),
    ensures
        index_value(bits.skip(r as int)) == index_value(bits) / pow2(r),
    decreases r,
{
    vstd::arithmetic::power2::lemma2_to64();
    if r == 0 {
        assert(bits.skip(0) =~= bits);
    } else {
        lemma_index_embedding(bits.drop_first(), (r - 1) as nat);
        assert(bits.drop_first().skip(r - 1) =~= bits.skip(r as int));
        let rest = index_value(bits.drop_first());
        let low: nat = if bits[0] {
            1
        } else {
            0
        };
        assert(index_value(bits) == low + 2 * rest);
        vstd::arithmetic::power2::lemma_pow2_unfold(r);
        vstd::arithmetic::power2::lemma_pow2_pos((r - 1) as nat);
        vstd::arithmetic::div_mod::lemma_div_denominator(
            index_value(bits) as int,
            2,
            pow2((r - 1) as nat) as int,
        );
        assert((low + 2 * rest) / 2 == rest);
    }
}

/// No bit of `bits` is set.
pub open spec fn all_zero(bits: Seq<bool>) -> bool {
    forall|i: int| 0 <= i < bits.len() ==> !#[trigger] bits[i]
}

/// The lowest `n` bits of `value`, lowest first.
pub fn num2bits(value: Felt, n: usize) -> (bits: Vec<bool>)
    requires
        n <= NUM_BITS,
    ensures
        bits@ == bits_le(value as nat, n as nat),
{
    let mut bits: Vec<bool> = Vec::new();
    let mut rest: u32 = value;
    let mut i: usize = 0;
    proof {
        vstd::arithmetic::power2::lemma2_to64();
    }
    while i < n
        invariant
            i <= n <= 31,
            rest as nat == (value as nat) / pow2(i as nat),
            bits@ == bits_le(value as nat, i as nat),
        decreases n - i,
    {
        bits.push(rest % 2 == 1);
        proof {
            let v = value as int;
            let d = pow2(i as nat) as int;
            vstd::arithmetic::power2::lemma_pow2_pos(i as nat);
            vstd::arithmetic::power2::lemma_pow2_unfold((i + 1) as nat);
            vstd::arithmetic::div_mod::lemma_div_denominator(v, d, 2);
            assert(d * 2 == pow2((i + 1) as nat));
        }
        rest = rest / 2;
        i += 1;
    }
    bits
}

/// Whether no bit of `bits` is set.
pub fn no_bit_set(bits: &Vec<bool>) -> (none: bool)
    ensures
        none == all_zero(bits@),
{
    let mut i: usize = 0;
    while i < bits.len()
        invariant
            i <= bits@.len(),
            forall|j: int| 0 <= j < i ==> !bits@[j],
        decreases bits@.len() - i,
    {
        if bits[i] {
            return false;
        }
        i += 1;
    }
    true
}

impl DuplexChallenger {
    /// The buffers are no longer than the sponge allows, and all elements
    /// are canonical.
    pub open spec fn wf(&self) -> bool {
        &&& self.input_buffer@.len() < 8
        &&& self.output_buffer@.len() <= 16
        &&& all_canonical(self.sponge_state@)
        &&& all_canonical(self.input_buffer@)
        &&& all_canonical(self.output_buffer@)
    }

    /// Whether the transcript is well formed.
    pub fn is_wf(&self) -> (ok: bool)
        ensures
            ok == self.wf(),
    {
        self.input_buffer.len() < 8 && self.output_buffer.len() <= 16
            && crate::field::is_all_canonical(self.sponge_state.as_slice())
            && crate::field::is_all_canonical(self.input_buffer.as_slice())
            && crate::field::is_all_canonical(self.output_buffer.as_slice())
    }

    /// A fresh transcript: an all-zero sponge and empty buffers.
    pub fn new() -> (challenger: Self)
        ensures
            challenger.wf(),
            challenger@ == (DuplexState {
                sponge_state: zero_state(),
                input_buffer: Seq::empty(),
                output_buffer: Seq::empty(),
            }),
    {
        let challenger = DuplexChallenger {
            sponge_state: [0u32;16],
            input_buffer: Vec::new(),
            output_buffer: Vec::new(),
        };
        assert(challenger.sponge_state@ =~= zero_state());
        challenger
    }

    fn duplexing<H: Permutation>(&mut self, builder: &H)
        requires
            builder.wf(),
            old(self).input_buffer@.len() <= 8,
            all_canonical(old(self).sponge_state@),
            all_canonical(old(self).input_buffer@),
        ensures
            final(self).wf(),
            final(self)@ == duplexing(*builder, old(self)@),
            final(self).output_buffer@.len() == 16,
    {
        let n = self.input_buffer.len();
        let ghost before = self.sponge_state@;
        let mut i: usize = 0;
        while i < n
            invariant
                n == self.input_buffer@.len(),
                n <= 8,
                i <= n,
                before.len() == 16,
                all_canonical(before),
                all_canonical(self.input_buffer@),
                all_canonical(self.sponge_state@),
                self.input_buffer@ == old(self).input_buffer@,
                self.sponge_state@ == overwrite(before, self.input_buffer@.take(i as int)),
            decreases n - i,
        {
            let value = self.input_buffer[i];
            self.sponge_state[i] = value;
            assert(self.sponge_state@ =~= overwrite(before, self.input_buffer@.take(i + 1)));
            i += 1;
        }
        assert(self.input_buffer@.take(n as int) =~= self.input_buffer@);
        self.sponge_state = builder.permute(&self.sponge_state);
        self.input_buffer = Vec::new();
        let mut output: Vec<Felt> = Vec::new();
        let mut j: usize = 0;
        while j < 16
            invariant
                j <= 16,
                output@ == self.sponge_state@.take(j as int),
            decreases 16 - j,
        {
            output.push(self.sponge_state[j]);
            assert(output@ =~= self.sponge_state@.take(j + 1));
            j += 1;
        }
        assert(self.sponge_state@.take(16) =~= self.sponge_state@);
        self.output_buffer = output;
    }

    /// Absorbs one field element.
    pub fn observe<H: Permutation>(&mut self, builder: &H, value: Felt)
        requires
            builder.wf(),
            old(self).wf(),
            is_canonical(value),
        ensures
            final(self).wf(),
            final(self)@ == spec_observe(*builder, old(self)@, value),
    {
        self.output_buffer = Vec::new();
        self.input_buffer.push(value);
        if self.input_buffer.len() == 8 {
            self.duplexing(builder);
        }
    }

    /// Absorbs a sequence of field elements, one by one and in order.
    pub fn observe_slice<H: Permutation>(&mut self, builder: &H, values: &[Felt])
        requires
            builder.wf(),
            old(self).wf(),
            all_canonical(values@),
        ensures
            final(self).wf(),
            final(self)@ == observe_all(*builder, old(self)@, values@),
    {
        let n = values.len();
        let mut i: usize = 0;
        assert(values@.take(0) =~= Seq::<Felt>::empty());
        while i < n
            invariant
                n == values@.len(),
                i <= n,
                builder.wf(),
                self.wf(),
                all_canonical(values@),
                self@ == observe_all(*builder, old(self)@, values@.take(i as int)),
            decreases n - i,
        {
            self.observe(builder, values[i]);
            assert(values@.take(i + 1).drop_last() =~= values@.take(i as int));
            i += 1;
        }
        assert(values@.take(n as int) =~= values@);
    }

    /// Absorbs a digest, element by element.
    pub fn observe_digest<H: Permutation>(&mut self, builder: &H, digest: &Digest)
        requires
            builder.wf(),
            old(self).wf(),
            all_canonical(digest@),
        ensures
            final(self).wf(),
            final(self)@ == observe_all(*builder, old(self)@, digest@),
    {
        self.observe_slice(builder, digest.as_slice());
    }

    /// Draws one base-field challenge.
    pub fn sample<H: Permutation>(&mut self, builder: &H) -> (value: Felt)
        requires
            builder.wf(),
            old(self).wf(),
        ensures
            final(self).wf(),
            value == sampled_value(*builder, old(self)@),
            final(self)@ == after_sample(*builder, old(self)@),
            is_canonical(value),
    {
        if self.input_buffer.len() > 0 || self.output_buffer.len() == 0 {
            self.duplexing(builder);
        }
        let ghost r = self@;
        let value = self.output_buffer.pop().unwrap();
        value
    }

    /// Draws one extension-field challenge.
    pub fn sample_ext<H: Permutation>(&mut self, builder: &H) -> (value: Ext)
        requires
            builder.wf(),
            old(self).wf(),
        ensures
            final(self).wf(),
            value == sampled_ext(*builder, old(self)@),
            final(self)@ == after_samples(*builder, old(self)@, 4),
            ext_canonical(value),
    {
        proof {
            reveal_with_fuel(after_samples, 5);
        }
        let c0 = self.sample(builder);
        let c1 = self.sample(builder);
        let c2 = self.sample(builder);
        let c3 = self.sample(builder);
        Ext { c0, c1, c2, c3 }
    }

    /// Draws the `n` lowest bits of one base-field challenge, lowest first.
    pub fn sample_bits<H: Permutation>(&mut self, builder: &H, n: usize) -> (bits: Vec<bool>)
        requires
            builder.wf(),
            old(self).wf(),
            n <= NUM_BITS,
        ensures
            final(self).wf(),
            bits@ == bits_le(sampled_value(*builder, old(self)@) as nat, n as nat),
            final(self)@ == after_sample(*builder, old(self)@),
    {
        let value = self.sample(builder);
        num2bits(value, n)
    }

    /// Checks a proof-of-work witness: the witness is absorbed, and the
    /// `bits` lowest bits of the challenge drawn next must all be zero.
    pub fn check_witness<H: Permutation>(&mut self, builder: &H, bits: usize, witness: Felt) -> (ok:
        bool)
        requires
            builder.wf(),
            old(self).wf(),
            is_canonical(witness),
            bits <= NUM_BITS,
        ensures
            final(self).wf(),
            final(self)@ == after_sample(*builder, spec_observe(*builder, old(self)@, witness)),
            ok == all_zero(
                bits_le(
                    sampled_value(*builder, spec_observe(*builder, old(self)@, witness)) as nat,
                    bits as nat,
                ),
            ),
    {
        self.observe(builder, witness);
        let drawn = self.sample_bits(builder, bits);
        no_bit_set(&drawn)
    }
}

} // verus!
