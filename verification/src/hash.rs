//! Hashing over field elements: a permutation of sixteen elements, the
//! sponge that turns it into a hash, and the two-to-one compression that
//! Merkle paths are checked with.

use crate::field::all_canonical;
use crate::field::Felt;
use p3_field::AbstractField;
use p3_field::PrimeField32;
use p3_koala_bear::DiffusionMatrixKoalaBear;
use p3_koala_bear::KoalaBear;
use p3_poseidon2::Poseidon2ExternalMatrixGeneral;
use vstd::prelude::*;

verus! {

/// Number of field elements in a digest.
pub const DIGEST_SIZE: usize = 8;

/// Number of field elements the sponge takes in per permutation call.
pub const HASH_RATE: usize = 8;

/// A digest: eight field elements in a fixed order.
pub type Digest = [Felt; DIGEST_SIZE];

/// What `Poseidon2::permute` of `p3_poseidon2` returns, for the KoalaBear
/// field at width 16 with the cube as S-box, as a function of its round
/// constants and of the state it is given (all as canonical representatives).
pub uninterp spec fn poseidon2_permutation(
    external_constants: Seq<Seq<u32>>,
    internal_constants: Seq<u32>,
    state: Seq<u32>,
) -> Seq<u32>;

/// Every row of round constants is canonical.
pub open spec fn rows_canonical(rows: Seq<Seq<Felt>>) -> bool {
    forall|i: int| 0 <= i < rows.len() ==> all_canonical(#[trigger] rows[i])
}

/// Builds the Poseidon2 permutation of `p3_poseidon2` over
/// `p3_koala_bear::KoalaBear` (width 16, S-box degree 3, the general external
/// matrix and KoalaBear's diffusion matrix) from the given round constants,
/// one external round per row and one internal round per entry, and applies
/// it to `state`. The contract names the result and says that it is given in
/// canonical form; nothing is claimed of how the permutation mixes.
#[verifier::external_body]
fn poseidon2_permute(
    external_constants: &Vec<[Felt; 16]>,
    internal_constants: &Vec<Felt>,
    state: &[Felt; 16],
) -> (out: [Felt; 16])
    requires
        rows_canonical(external_constants.deep_view()),
        all_canonical(internal_constants@),
        all_canonical(state@),
    ensures
        out@ == poseidon2_permutation(
            external_constants.deep_view(),
            internal_constants@,
            state@,
        ),
        all_canonical(out@),
{
    let external = external_constants.iter().map(|r| r.map(KoalaBear::from_canonical_u32)).collect();
    let internal = internal_constants.iter().map(|x| KoalaBear::from_canonical_u32(*x)).collect();
    let perm: p3_poseidon2::Poseidon2<KoalaBear, _, DiffusionMatrixKoalaBear, 16, 3> =
        p3_poseidon2::Poseidon2::new(
        external_constants.len(),
        external,
        Poseidon2ExternalMatrixGeneral,
        internal_constants.len(),
        internal,
        DiffusionMatrixKoalaBear::default(),
    );
    let input = state.map(KoalaBear::from_canonical_u32);
    p3_symmetric::Permutation::permute(&perm, input).map(|x| x.as_canonical_u32())
}

/// A permutation of sixteen field elements: the one primitive that hashing
/// and the transcript are built from.
pub trait Permutation {
    /// The permutation's parameters are valid.
    spec fn wf(&self) -> bool;

    /// The permuted state.
    spec fn spec_permute(&self, state: Seq<Felt>) -> Seq<Felt>;

    /// Permutes `state`.
    fn permute(&self, state: &[Felt; 16]) -> (out: [Felt; 16])
        requires
            self.wf(),
            all_canonical(state@),
        ensures
            out@ == self.spec_permute(state@),
            all_canonical(out@),
    ;
}

/// The Poseidon2 permutation over KoalaBear, given by its round constants.
pub struct Poseidon2 {
    /// One row of sixteen constants per external round.
    pub external_constants: Vec<[Felt; 16]>,
    /// One constant per internal round.
    pub internal_constants: Vec<Felt>,
}

impl Poseidon2 {
    /// Whether the round constants are canonical.
    pub fn is_wf(&self) -> (ok: bool)
        ensures
            ok == self.wf(),
    {
        let n = self.external_constants.len();
        let ghost rows = self.external_constants.deep_view();
        let mut i: usize = 0;
        while i < n
            invariant
                i <= n,
                n == self.external_constants@.len(),
                rows == self.external_constants.deep_view(),
                forall|k: int| 0 <= k < i ==> all_canonical(#[trigger] rows[k]),
            decreases n - i,
        {
            assert(rows[i as int] =~= self.external_constants@[i as int]@);
            if !crate::field::is_all_canonical(self.external_constants[i].as_slice()) {
                return false;
            }
            i += 1;
        }
        crate::field::is_all_canonical(self.internal_constants.as_slice())
    }
}

impl Permutation for Poseidon2 {
    open spec fn wf(&self) -> bool {
        &&& rows_canonical(self.external_constants.deep_view())
        &&& all_canonical(self.internal_constants@)
    }

    open spec fn spec_permute(&self, state: Seq<Felt>) -> Seq<Felt> {
        poseidon2_permutation(
            self.external_constants.deep_view(),
            self.internal_constants@,
            state,
        )
    }

    fn permute(&self, state: &[Felt; 16]) -> (out: [Felt; 16]) {
        poseidon2_permute(&self.external_constants, &self.internal_constants, state)
    }
}

/// The all-zero state a sponge starts from.
pub open spec fn zero_state() -> Seq<Felt> {
    Seq::new(16, |i: int| 0u32)
}

/// `state` with its first entries replaced by `chunk`.
pub open spec fn overwrite(state: Seq<Felt>, chunk: Seq<Felt>) -> Seq<Felt> {
    chunk + state.skip(chunk.len() as int)
}

/// The sponge state after `input` has been taken in, eight elements at a
/// time: each chunk overwrites the front of the state, which is then
/// permuted. A last chunk of fewer than eight elements is treated the same
/// way, and nothing is appended to the input.
pub open spec fn sponge_absorb<H: Permutation>(perm: H, state: Seq<Felt>, input: Seq<Felt>) -> Seq<
    Felt,
>
    decreases input.len(),
{
    if input.len() == 0 {
        state
    } else {
        let n = if input.len() < 8 {
            input.len() as int
        } else {
            8
        };
        sponge_absorb(perm, perm.spec_permute(overwrite(state, input.take(n))), input.skip(n))
    }
}

/// The digest of `input`: the first eight elements of the sponge state
/// after `input` has been taken in from the all-zero state.
pub open spec fn spec_hash<H: Permutation>(perm: H, input: Seq<Felt>) -> Seq<Felt> {
    sponge_absorb(perm, zero_state(), input).take(8)
}

/// The digest of two digests: the first eight elements of the permutation
/// applied to `left` followed by `right`.
pub open spec fn spec_compress<H: Permutation>(perm: H, left: Seq<Felt>, right: Seq<Felt>) -> Seq<
    Felt,
> {
    perm.spec_permute(left + right).take(8)
}

/// The first eight elements of a state.
fn truncate(state: &[Felt; 16]) -> (digest: Digest)
    ensures
        digest@ == state@.take(8),
{
    let digest = [
        state[0],
        state[1],
        state[2],
        state[3],
        state[4],
        state[5],
        state[6],
        state[7],
    ];
    assert(digest@ =~= state@.take(8));
    digest
}

/// Hashes a sequence of field elements into a digest.
pub fn hash<H: Permutation>(builder: &H, input: &Vec<Felt>) -> (digest: Digest)
    requires
        builder.wf(),
        all_canonical(input@),
    ensures
        digest@ == spec_hash(*builder, input@),
        all_canonical(digest@),
{
    let mut state: [Felt; 16] = [0u32;16];
    assert(state@ =~= zero_state());
    let n = input.len();
    let mut pos: usize = 0;
    assert(input@.skip(0) =~= input@);
    while pos < n
        invariant
            n == input.len(),
            pos <= n,
            builder.wf(),
            all_canonical(input@),
            all_canonical(state@),
            sponge_absorb(*builder, state@, input@.skip(pos as int)) == sponge_absorb(
                *builder,
                zero_state(),
                input@,
            ),
        decreases n - pos,
    {
        let take: usize = if n - pos < HASH_RATE {
            n - pos
        } else {
            HASH_RATE
        };
        let ghost before = state@;
        let ghost rest = input@.skip(pos as int);
        let mut i: usize = 0;
        while i < take
            invariant
                n == input.len(),
                pos + take <= n,
                take <= 8,
                i <= take,
                all_canonical(input@),
                all_canonical(state@),
                all_canonical(before),
                before.len() == 16,
                rest == input@.skip(pos as int),
                state@ == overwrite(before, rest.take(i as int)),
            decreases take - i,
        {
            state[i] = input[pos + i];
            assert(state@ =~= overwrite(before, rest.take(i + 1)));
            i += 1;
        }
        state = builder.permute(&state);
        assert(rest.skip(take as int) =~= input@.skip((pos + take) as int));
        pos += take;
    }
    truncate(&state)
}

/// Compresses two digests into one.
pub fn compress<H: Permutation>(builder: &H, left: &Digest, right: &Digest) -> (digest: Digest)
    requires
        builder.wf(),
        all_canonical(left@),
        all_canonical(right@),
    ensures
        digest@ == spec_compress(*builder, left@, right@),
        all_canonical(digest@),
{
    let state: [Felt; 16] = [
        left[0],
        left[1],
        left[2],
        left[3],
        left[4],
        left[5],
        left[6],
        left[7],
        right[0],
        right[1],
        right[2],
        right[3],
        right[4],
        right[5],
        right[6],
        right[7],
    ];
    assert(state@ =~= left@ + right@);
    let out = builder.permute(&state);
    truncate(&out)
}

} // verus!
