//! The records a verification works on: the verifying key, with the two
//! ways it enters a proof (absorbed into the transcript, and hashed into one
//! binding digest), and the parts of a FRI proof.

use crate::challenger::observe_all;
use crate::challenger::spec_observe;
use crate::challenger::DuplexChallenger;
use crate::field::all_canonical;
use crate::field::is_canonical;
use crate::field::spec_two_adic_generator;
use crate::field::two_adic_generator;
use crate::field::Ext;
use crate::field::Felt;
use crate::field::TWO_ADICITY;
use crate::hash::spec_hash;
use crate::hash::Digest;
use crate::hash::Permutation;
use vstd::arithmetic::power2::pow2;
use vstd::prelude::*;

verus! {

/// An element of the degree-seven extension in which the cumulative sum
/// lives: seven base-field coefficients.
#[derive(Clone, Copy, Debug)]
pub struct SepticExtension(pub [Felt; 7]);

/// A point, by its two coordinates.
#[derive(Clone, Copy, Debug)]
pub struct SepticCurve {
    pub x: SepticExtension,
    pub y: SepticExtension,
}

/// A running sum of points that ties the chips of a proof together. Only its
/// fourteen coefficients are ever read here.
#[derive(Clone, Copy, Debug)]
pub struct SepticDigest(pub SepticCurve);

/// A multiplicative coset of order `2^log_n`.
#[derive(Clone, Copy, Debug)]
pub struct TwoAdicMultiplicativeCoset {
    pub log_n: usize,
    pub shift: Felt,
}

/// The shape of a committed matrix.
#[derive(Clone, Copy, Debug)]
pub struct Dimensions {
    pub width: usize,
    pub height: usize,
}

impl TwoAdicMultiplicativeCoset {
    /// The coset has a generator in the field and a nonzero, canonical shift.
    pub open spec fn wf(&self) -> bool {
        &&& self.log_n <= TWO_ADICITY
        &&& self.shift != 0
        &&& is_canonical(self.shift)
    }

    /// Whether the coset is well formed.
    pub fn is_wf(&self) -> (ok: bool)
        ensures
            ok == self.wf(),
    {
        self.log_n <= TWO_ADICITY && self.shift != 0 && self.shift < crate::field::P
    }

    /// Number of points of the coset.
    pub fn size(&self) -> (n: usize)
        requires
            self.log_n <= TWO_ADICITY,
        ensures
            n == pow2(self.log_n as nat),
            n <= 0x100_0000,
    {
        proof {
            vstd::arithmetic::power2::lemma2_to64();
            if self.log_n < 24 {
                vstd::arithmetic::power2::lemma_pow2_strictly_increases(self.log_n as nat, 24);
            }
            vstd::bits::lemma_u32_shl_is_mul(1u32, self.log_n as u32);
        }
        (1u32 << (self.log_n as u32)) as usize
    }

    /// What the binding digest takes of a domain: its log-size, its size,
    /// its shift and the generator of its order.
    pub open spec fn hash_inputs(&self) -> Seq<Felt> {
        seq![
            self.log_n as u32,
            pow2(self.log_n as nat) as u32,
            self.shift,
            spec_two_adic_generator(self.log_n as nat),
        ]
    }
}

/// One chip of a verifying key: its name, the domain of its preprocessed
/// trace, and the shape of that trace.
pub type ChipInformation = (String, TwoAdicMultiplicativeCoset, Dimensions);

/// The domains of `chips`, in order.
pub open spec fn domains(chips: Seq<ChipInformation>) -> Seq<TwoAdicMultiplicativeCoset> {
    Seq::new(chips.len(), |i: int| chips[i].1)
}

/// Every domain is well formed.
pub open spec fn domains_wf(doms: Seq<TwoAdicMultiplicativeCoset>) -> bool {
    forall|i: int| 0 <= i < doms.len() ==> (#[trigger] doms[i]).wf()
}

/// What the binding digest takes of a sequence of domains: four elements
/// for each, in the order of the sequence.
pub open spec fn domains_hash_inputs(doms: Seq<TwoAdicMultiplicativeCoset>) -> Seq<Felt>
    decreases doms.len(),
{
    if doms.len() == 0 {
        Seq::empty()
    } else {
        domains_hash_inputs(doms.drop_last()) + doms.last().hash_inputs()
    }
}

/// The verifying key of a program.
pub struct VerifyingKeyVariable {
    /// The commitment to the preprocessed traces.
    pub commitment: Digest,
    /// The address of the program's first instruction.
    pub pc_start: Felt,
    /// The cumulative sum the chips start from.
    pub initial_global_cumulative_sum: SepticDigest,
    /// The chips, in the order in which they are committed.
    pub chip_information: Vec<ChipInformation>,
    /// The position of each chip, by name.
    pub chip_ordering: ChipOrdering,
}

impl VerifyingKeyVariable {
    /// The fourteen coefficients of the cumulative sum, `x` before `y`.
    pub open spec fn cumulative_sum_elements(&self) -> Seq<Felt> {
        self.initial_global_cumulative_sum.0.x.0@ + self.initial_global_cumulative_sum.0.y.0@
    }

    /// What the key puts into a transcript: the commitment, the entry
    /// point, the cumulative sum, and one zero.
    pub open spec fn observed_elements(&self) -> Seq<Felt> {
        self.commitment@ + seq![self.pc_start] + self.cumulative_sum_elements() + seq![0u32]
    }

    /// What the binding digest is the hash of: the commitment, the entry
    /// point, the cumulative sum, and the domains of the chips in their order.
    pub open spec fn hash_inputs(&self) -> Seq<Felt> {
        self.commitment@ + seq![self.pc_start] + self.cumulative_sum_elements()
            + domains_hash_inputs(domains(self.chip_information@))
    }

    /// The key's field elements are canonical and its domains well formed.
    pub open spec fn wf(&self) -> bool {
        &&& all_canonical(self.commitment@)
        &&& is_canonical(self.pc_start)
        &&& all_canonical(self.initial_global_cumulative_sum.0.x.0@)
        &&& all_canonical(self.initial_global_cumulative_sum.0.y.0@)
        &&& domains_wf(domains(self.chip_information@))
    }

    /// Feeds the key into a transcript: the commitment, the entry point,
    /// the two coordinates of the cumulative sum, and one zero, in this
    /// order.
    pub fn observe_into<H: Permutation>(&self, builder: &H, challenger: &mut DuplexChallenger)
        requires
            self.wf(),
            builder.wf(),
            old(challenger).wf(),
        ensures
            final(challenger).wf(),
            final(challenger)@ == observe_all(
                *builder,
                old(challenger)@,
                self.observed_elements(),
            ),
    {
        let ghost start = challenger@;
        let ghost commitment = self.commitment@;
        let ghost x = self.initial_global_cumulative_sum.0.x.0@;
        let ghost y = self.initial_global_cumulative_sum.0.y.0@;
        challenger.observe_digest(builder, &self.commitment);
        challenger.observe(builder, self.pc_start);
        challenger.observe_slice(builder, self.initial_global_cumulative_sum.0.x.0.as_slice());
        challenger.observe_slice(builder, self.initial_global_cumulative_sum.0.y.0.as_slice());
        let zero: Felt = 0;
        challenger.observe(builder, zero);
        proof {
            lemma_observe_all_push(*builder, start, commitment, self.pc_start);
            lemma_observe_all_concat(*builder, start, commitment + seq![self.pc_start], x);
            lemma_observe_all_concat(*builder, start, commitment + seq![self.pc_start] + x, y);
            assert(commitment + seq![self.pc_start] + x + y == commitment + seq![self.pc_start]
                + (x + y));
            lemma_observe_all_push(
                *builder,
                start,
                commitment + seq![self.pc_start] + (x + y),
                0u32,
            );
        }
    }

    /// Hashes the key and the domains of its chips into one digest.
    pub fn hash<H: Permutation>(&self, builder: &H) -> (digest: Digest)
        requires
            self.wf(),
            builder.wf(),
        ensures
            digest@ == spec_hash(*builder, self.hash_inputs()),
            all_canonical(digest@),
    {
        let mut inputs: Vec<Felt> = Vec::new();
        extend(&mut inputs, self.commitment.as_slice());
        inputs.push(self.pc_start);
        extend(&mut inputs, self.initial_global_cumulative_sum.0.x.0.as_slice());
        extend(&mut inputs, self.initial_global_cumulative_sum.0.y.0.as_slice());
        let ghost head = inputs@;
        assert(head == self.commitment@ + seq![self.pc_start] + self.cumulative_sum_elements());
        let n = self.chip_information.len();
        let mut i: usize = 0;
        assert(domains(self.chip_information@).take(0) =~= Seq::empty());
        while i < n
            invariant
                n == self.chip_information@.len(),
                i <= n,
                self.wf(),
                all_canonical(inputs@),
                inputs@ == head + domains_hash_inputs(
                    domains(self.chip_information@).take(i as int),
                ),
            decreases n - i,
        {
            let domain = &self.chip_information[i].1;
            let ghost doms = domains(self.chip_information@);
            assert(doms[i as int] == *domain);
            assert(domain.wf());
            let size = domain.size();
            let g = two_adic_generator(domain.log_n);
            inputs.push(domain.log_n as u32);
            inputs.push(size as u32);
            inputs.push(domain.shift);
            inputs.push(g);
            proof {
                assert(doms.take(i + 1).drop_last() =~= doms.take(i as int));
                assert(doms.take(i + 1).last() == *domain);
                assert(inputs@ =~= head + domains_hash_inputs(doms.take(i + 1)));
            }
            i += 1;
        }
        assert(domains(self.chip_information@).take(n as int) =~= domains(
            self.chip_information@,
        ));
        crate::hash::hash(builder, &inputs)
    }
}

/// Why a record was refused before anything was computed on it.
#[derive(Clone, Copy, Debug, PartialEq, Eq, Structural)]
pub enum StructuralError {
    /// A field element is not in canonical form.
    NonCanonicalElement,
    /// A domain is larger than the field allows, or its shift is zero or
    /// not canonical.
    InvalidDomain,
    /// The table of chip positions does not order the chips.
    InconsistentChipOrdering,
}

impl VerifyingKeyVariable {
    /// The commitment, the entry point and the cumulative sum are canonical.
    pub open spec fn elements_canonical(&self) -> bool {
        &&& all_canonical(self.commitment@)
        &&& is_canonical(self.pc_start)
        &&& all_canonical(self.initial_global_cumulative_sum.0.x.0@)
        &&& all_canonical(self.initial_global_cumulative_sum.0.y.0@)
    }

    /// The table of chip positions orders the chips of the key.
    pub open spec fn consistent(&self) -> bool {
        ordering_consistent(self.chip_ordering@, self.chip_information@.len() as nat)
    }

    /// What `validate` answers.
    pub open spec fn validity(&self) -> Result<(), StructuralError> {
        if !self.elements_canonical() {
            Err(StructuralError::NonCanonicalElement)
        } else if !domains_wf(domains(self.chip_information@)) {
            Err(StructuralError::InvalidDomain)
        } else if !self.consistent() {
            Err(StructuralError::InconsistentChipOrdering)
        } else {
            Ok(())
        }
    }

    /// Checks the shape of the key, before anything is computed from it.
    pub fn validate(&self) -> (outcome: Result<(), StructuralError>)
        ensures
            outcome == self.validity(),
            outcome is Ok <==> self.wf() && self.consistent(),
    {
        if !(crate::field::is_all_canonical(self.commitment.as_slice()) && self.pc_start
            < crate::field::P && crate::field::is_all_canonical(
            self.initial_global_cumulative_sum.0.x.0.as_slice(),
        ) && crate::field::is_all_canonical(self.initial_global_cumulative_sum.0.y.0.as_slice())) {
            return Err(StructuralError::NonCanonicalElement);
        }
        let n = self.chip_information.len();
        let ghost doms = domains(self.chip_information@);
        let mut i: usize = 0;
        while i < n
            invariant
                n == self.chip_information@.len(),
                i <= n,
                self.elements_canonical(),
                doms == domains(self.chip_information@),
                forall|j: int| 0 <= j < i ==> (#[trigger] doms[j]).wf(),
            decreases n - i,
        {
            if !self.chip_information[i].1.is_wf() {
                assert(!doms[i as int].wf());
                return Err(StructuralError::InvalidDomain);
            }
            i += 1;
        }
        if !self.chip_ordering.is_consistent(n) {
            return Err(StructuralError::InconsistentChipOrdering);
        }
        Ok(())
    }
}

/// The elements taken of a sequence of domains are four for each, and
/// those of the `i`-th domain stand at the positions from `4 * i`.
pub proof fn lemma_domains_hash_inputs_index(doms: Seq<TwoAdicMultiplicativeCoset>, i: int, k: int)
    requires
        0 <= i < doms.len(),
        0 <= k < 4,
    ensures
        domains_hash_inputs(doms).len() == 4 * doms.len(),
        domains_hash_inputs(doms)[4 * i + k] == doms[i].hash_inputs()[k],
    decreases doms.len(),
{
    lemma_domains_hash_inputs_len(doms.drop_last());
    if i < doms.len() - 1 {
        lemma_domains_hash_inputs_index(doms.drop_last(), i, k);
    }
}

/// The elements taken of a sequence of domains are four for each.
pub proof fn lemma_domains_hash_inputs_len(doms: Seq<TwoAdicMultiplicativeCoset>)
    ensures
        domains_hash_inputs(doms).len() == 4 * doms.len(),
    decreases doms.len(),
{
    if doms.len() > 0 {
        lemma_domains_hash_inputs_len(doms.drop_last());
    }
}

/// The binding digest is a function of what can be observed of a key:
/// two keys with the same commitment, entry point, cumulative sum and
/// sequence of domains have the same digest under the same hash, whatever
/// their chips are called, whatever shapes their traces have, and whatever
/// their tables of chip positions hold.
pub proof fn lemma_hash_determined_by_content<H: Permutation>(
    perm: H,
    a: VerifyingKeyVariable,
    b: VerifyingKeyVariable,
)
    requires
        a.commitment@ == b.commitment@,
        a.pc_start == b.pc_start,
        a.cumulative_sum_elements() == b.cumulative_sum_elements(),
        domains(a.chip_information@) == domains(b.chip_information@),
    ensures
        a.hash_inputs() == b.hash_inputs(),
        spec_hash(perm, a.hash_inputs()) == spec_hash(perm, b.hash_inputs()),
{
}

/// The order of the chips is part of what is hashed: two well-formed keys
/// whose sequences of domains differ are hashed from different inputs, so
/// that equal digests would be a collision of the hash.
pub proof fn lemma_chip_order_is_hashed(a: VerifyingKeyVariable, b: VerifyingKeyVariable)
    requires
        a.wf(),
        b.wf(),
        domains(a.chip_information@) != domains(b.chip_information@),
    ensures
        a.hash_inputs() != b.hash_inputs(),
{
    let da = domains(a.chip_information@);
    let db = domains(b.chip_information@);
    lemma_domains_hash_inputs_len(da);
    lemma_domains_hash_inputs_len(db);
    let head_a = a.commitment@ + seq![a.pc_start] + a.cumulative_sum_elements();
    let head_b = b.commitment@ + seq![b.pc_start] + b.cumulative_sum_elements();
    assert(head_a.len() == 23);
    assert(head_b.len() == 23);
    if da.len() == db.len() {
        if forall|i: int| 0 <= i < da.len() ==> da[i] == db[i] {
            assert(da =~= db);
        }
        let i = choose|i: int| 0 <= i < da.len() && da[i] != db[i];
        lemma_domains_hash_inputs_index(da, i, 0);
        lemma_domains_hash_inputs_index(db, i, 0);
        lemma_domains_hash_inputs_index(da, i, 2);
        lemma_domains_hash_inputs_index(db, i, 2);
        assert(da[i].wf() && db[i].wf());
        assert(a.hash_inputs()[23 + 4 * i] == da[i].log_n as u32);
        assert(b.hash_inputs()[23 + 4 * i] == db[i].log_n as u32);
        assert(a.hash_inputs()[23 + 4 * i + 2] == da[i].shift);
        assert(b.hash_inputs()[23 + 4 * i + 2] == db[i].shift);
    } else {
        assert(a.hash_inputs().len() != b.hash_inputs().len());
    }
}

/// Appends `values` to `target`.
fn extend(target: &mut Vec<Felt>, values: &[Felt])
    ensures
        final(target)@ == old(target)@ + values@,
{
    let n = values.len();
    let mut i: usize = 0;
    while i < n
        invariant
            n == values@.len(),
            i <= n,
            target@ == old(target)@ + values@.take(i as int),
        decreases n - i,
    {
        target.push(values[i]);
        assert(target@ =~= old(target)@ + values@.take(i + 1));
        i += 1;
    }
    assert(values@.take(n as int) =~= values@);
}

/// Absorbing one more value after a sequence is absorbing the longer
/// sequence.
pub proof fn lemma_observe_all_push<H: Permutation>(
    perm: H,
    s: crate::challenger::DuplexState,
    values: Seq<Felt>,
    value: Felt,
)
    ensures
        spec_observe(perm, observe_all(perm, s, values), value) == observe_all(
            perm,
            s,
            values + seq![value],
        ),
{
    assert((values + seq![value]).drop_last() =~= values);
}

/// Absorbing two sequences one after the other is absorbing their
/// concatenation.
pub proof fn lemma_observe_all_concat<H: Permutation>(
    perm: H,
    s: crate::challenger::DuplexState,
    first: Seq<Felt>,
    second: Seq<Felt>,
)
    ensures
        observe_all(perm, observe_all(perm, s, first), second) == observe_all(
            perm,
            s,
            first + second,
        ),
    decreases second.len(),
{
    if second.len() == 0 {
        assert(first + second =~= first);
    } else {
        lemma_observe_all_concat(perm, s, first, second.drop_last());
        assert((first + second).drop_last() =~= first + second.drop_last());
    }
}

/// What opens one round of the commit phase at a queried position: the
/// value next to the queried one, and the path to the round's commitment.
#[derive(Clone, Debug)]
pub struct FriCommitPhaseProofStepVariable {
    pub sibling_value: Ext,
    pub opening_proof: Vec<Digest>,
}

/// The rows of the matrices of one batch at a queried position, with the
/// path to the batch's commitment.
#[derive(Clone, Debug)]
pub struct BatchOpeningVariable {
    pub opened_values: Vec<Vec<Felt>>,
    pub opening_proof: Vec<Digest>,
}

/// What one query is answered with: an opening of every committed batch,
/// and an opening of every round of the commit phase.
#[derive(Clone, Debug)]
pub struct FriQueryProofVariable {
    pub input_proof: Vec<BatchOpeningVariable>,
    pub commit_phase_openings: Vec<FriCommitPhaseProofStepVariable>,
}

/// A FRI proof.
#[derive(Clone, Debug)]
pub struct FriProofVariable {
    /// One commitment for each folding round.
    pub commit_phase_commits: Vec<Digest>,
    /// One answer for each query.
    pub query_proofs: Vec<FriQueryProofVariable>,
    /// The constant that every query folds down to.
    pub final_poly: Ext,
    /// The proof-of-work witness.
    pub pow_witness: Felt,
}

/// The challenges of a FRI verification, as drawn from the transcript.
#[derive(Clone, Debug)]
pub struct FriChallenges {
    /// For each query, the bits of the queried position, lowest first.
    pub query_indices: Vec<Vec<bool>>,
    /// The folding challenge of each round.
    pub betas: Vec<Ext>,
    /// The square of the folding challenge of each round.
    pub betas_squared: Vec<Ext>,
}

/// The claims about one committed matrix: its domain, the points it was
/// opened at, and for each point the value of every column.
#[derive(Clone, Debug)]
pub struct TwoAdicPcsMatsVariable {
    pub domain: TwoAdicMultiplicativeCoset,
    pub points: Vec<Ext>,
    pub values: Vec<Vec<Ext>>,
}

/// One committed batch of matrices with the claims about them.
#[derive(Clone, Debug)]
pub struct TwoAdicPcsRoundVariable {
    pub batch_commit: Digest,
    pub domains_points_and_opens: Vec<TwoAdicPcsMatsVariable>,
}

/// The position of each chip, by name. The table is a
/// `hashbrown::HashMap<String, usize>`.
#[verifier::external_body]
pub struct ChipOrdering {
    map: hashbrown::HashMap<String, usize>,
}

/// The entries of a table of chip positions.
pub uninterp spec fn chip_ordering_entries(ordering: ChipOrdering) -> Map<Seq<char>, usize>;

impl View for ChipOrdering {
    type V = Map<Seq<char>, usize>;

    open spec fn view(&self) -> Map<Seq<char>, usize> {
        chip_ordering_entries(*self)
    }
}

/// Calls `HashMap::new` of `hashbrown`, which makes an empty table.
#[verifier::external_body]
fn hash_map_new() -> (ordering: ChipOrdering)
    ensures
        chip_ordering_entries(ordering) == no_entries(),
{
    ChipOrdering { map: hashbrown::HashMap::new() }
}

/// Calls `HashMap::insert` of `hashbrown`: the key then maps to the new
/// value, the other entries stay, and the value that the key had before, if
/// any, is returned.
#[verifier::external_body]
fn hash_map_insert(ordering: &mut ChipOrdering, name: String, index: usize) -> (previous: Option<
    usize,
>)
    ensures
        chip_ordering_entries(*final(ordering)) == chip_ordering_entries(*old(ordering)).insert(
            name@,
            index,
        ),
        previous == lookup(chip_ordering_entries(*old(ordering)), name@),
{
    ordering.map.insert(name, index)
}

/// Calls `HashMap::get` of `hashbrown`, which finds the value of a key, and
/// copies the value out.
#[verifier::external_body]
fn hash_map_get(ordering: &ChipOrdering, name: &str) -> (index: Option<usize>)
    ensures
        index == lookup(chip_ordering_entries(*ordering), name@),
{
    ordering.map.get(name).copied()
}

/// Calls `HashMap::iter` of `hashbrown`, which visits every entry once in
/// an order of its own choosing, and copies the entries out. The contract
/// says that what comes back lists the table, and leaves the order open.
#[verifier::external_body]
fn hash_map_entries(ordering: &ChipOrdering) -> (entries: Vec<(String, usize)>)
    ensures
        lists(entries@, chip_ordering_entries(*ordering)),
{
    ordering.map.iter().map(|(name, index)| (name.clone(), *index)).collect()
}

/// The table without entries.
pub open spec fn no_entries() -> Map<Seq<char>, usize> {
    Map::empty()
}

/// The position that `table` gives to `name`, if any.
pub open spec fn lookup(table: Map<Seq<char>, usize>, name: Seq<char>) -> Option<usize> {
    if table.contains_key(name) {
        Some(table[name])
    } else {
        None
    }
}

/// `entries` lists `table`: every entry of the table occurs in it, once,
/// and nothing else does.
pub open spec fn lists(entries: Seq<(String, usize)>, table: Map<Seq<char>, usize>) -> bool {
    &&& table.dom().finite()
    &&& entries.len() == table.dom().len()
    &&& forall|i: int|
        0 <= i < entries.len() ==> table.contains_key(#[trigger] entries[i].0@)
            && table[entries[i].0@] == entries[i].1
    &&& forall|i: int, j: int|
        0 <= i < j < entries.len() ==> #[trigger] entries[i].0@ != #[trigger] entries[j].0@
    &&& forall|name: Seq<char>| table.contains_key(name) ==> listed(entries, name)
}

/// `name` is the key of one of `entries`.
pub open spec fn listed(entries: Seq<(String, usize)>, name: Seq<char>) -> bool {
    exists|i: int| 0 <= i < entries.len() && #[trigger] entries[i].0@ == name
}

/// `index` is the value of one of the first `upto` entries.
pub open spec fn taken(entries: Seq<(String, usize)>, upto: int, index: usize) -> bool {
    exists|i: int| 0 <= i < upto && #[trigger] entries[i].1 == index
}

/// The table gives each of its `n` names a position below `n`, and no two
/// names the same one: the positions are a permutation of `0..n`.
pub open spec fn ordering_consistent(ordering: Map<Seq<char>, usize>, n: nat) -> bool {
    &&& ordering.dom().finite()
    &&& ordering.dom().len() == n
    &&& forall|name: Seq<char>| ordering.contains_key(name) ==> #[trigger] ordering[name] < n
    &&& forall|a: Seq<char>, b: Seq<char>|
        ordering.contains_key(a) && ordering.contains_key(b) && a != b ==> #[trigger] ordering[a]
            != #[trigger] ordering[b]
}

impl ChipOrdering {
    /// An empty table.
    pub fn new() -> (ordering: Self)
        ensures
            ordering@ == no_entries(),
    {
        hash_map_new()
    }

    /// Gives `name` the position `index`, and returns the position it had.
    pub fn insert(&mut self, name: String, index: usize) -> (previous: Option<usize>)
        ensures
            final(self)@ == old(self)@.insert(name@, index),
            previous == lookup(old(self)@, name@),
    {
        hash_map_insert(self, name, index)
    }

    /// The position of the chip called `name`.
    pub fn get(&self, name: &str) -> (index: Option<usize>)
        ensures
            index == lookup(self@, name@),
    {
        hash_map_get(self, name)
    }

    /// Whether the table orders `n` chips: it has `n` names, and their
    /// positions are a permutation of `0..n`.
    pub fn is_consistent(&self, n: usize) -> (ok: bool)
        ensures
            ok == ordering_consistent(self@, n as nat),
    {
        let entries = hash_map_entries(self);
        if entries.len() != n {
            return false;
        }
        let mut seen: Vec<bool> = Vec::new();
        let mut k: usize = 0;
        while k < n
            invariant
                k <= n,
                seen@.len() == k,
                forall|j: int| 0 <= j < k ==> !seen@[j],
            decreases n - k,
        {
            seen.push(false);
            k += 1;
        }
        let mut i: usize = 0;
        while i < n
            invariant
                i <= n,
                n == entries@.len(),
                seen@.len() == n,
                forall|j: int| 0 <= j < i ==> (#[trigger] entries@[j]).1 < n,
                forall|a: int, b: int|
                    0 <= a < b < i ==> (#[trigger] entries@[a]).1 != (#[trigger] entries@[b]).1,
                forall|v: int| 0 <= v < n ==> (#[trigger] seen@[v] <==> taken(entries@, i as int, v as usize)),
                self@.dom().finite(),
                self@.dom().len() == n,
                forall|j: int|
                    0 <= j < entries@.len() ==> self@.contains_key(#[trigger] entries@[j].0@)
                        && self@[entries@[j].0@] == entries@[j].1,
                forall|a: int, b: int|
                    0 <= a < b < entries@.len() ==> #[trigger] entries@[a].0@
                        != #[trigger] entries@[b].0@,
            decreases n - i,
        {
            let index = entries[i].1;
            let ghost name = entries@[i as int].0@;
            assert(self@.contains_key(name) && self@[name] == index);
            if index >= n {
                return false;
            }
            if seen[index] {
                proof {
                    assert(taken(entries@, i as int, index));
                    let j = choose|j: int| 0 <= j < i && #[trigger] entries@[j].1 == index;
                    let other = entries@[j].0@;
                    assert(self@.contains_key(other) && self@[other] == index);
                    assert(other != name);
                }
                return false;
            }
            let ghost before = seen@;
            seen.set(index, true);
            proof {
                assert forall|v: int| 0 <= v < n implies (#[trigger] seen@[v] <==> taken(
                    entries@,
                    i + 1,
                    v as usize,
                )) by {
                    if v == index {
                        assert(entries@[i as int].1 == index);
                    } else {
                        if before[v] {
                            assert(taken(entries@, i as int, v as usize));
                            let j = choose|j: int| 0 <= j < i && #[trigger] entries@[j].1 == v as usize;
                            assert(0 <= j < i + 1 && entries@[j].1 == v as usize);
                        }
                        if taken(entries@, i + 1, v as usize) {
                            let j = choose|j: int|
                                0 <= j < i + 1 && #[trigger] entries@[j].1 == v as usize;
                            assert(j != i);
                            assert(0 <= j < i && entries@[j].1 == v as usize);
                        }
                    }
                }
                assert forall|a: int, b: int| 0 <= a < b < i + 1 implies (#[trigger] entries@[a]).1
                    != (#[trigger] entries@[b]).1 by {
                    if b == i {
                        if entries@[a].1 == index {
                            assert(taken(entries@, i as int, index));
                        }
                    }
                }
            }
            i += 1;
        }
        proof {
            assert forall|name: Seq<char>| self@.contains_key(name) implies #[trigger] self@[name]
                < n by {
                assert(listed(entries@, name));
                let j = choose|j: int| 0 <= j < entries@.len() && #[trigger] entries@[j].0@ == name;
                assert(entries@[j].1 < n);
            }
            assert forall|a: Seq<char>, b: Seq<char>|
                self@.contains_key(a) && self@.contains_key(b) && a != b implies #[trigger] self@[a]
                != #[trigger] self@[b] by {
                assert(listed(entries@, a));
                assert(listed(entries@, b));
                let ja = choose|j: int| 0 <= j < entries@.len() && #[trigger] entries@[j].0@ == a;
                let jb = choose|j: int| 0 <= j < entries@.len() && #[trigger] entries@[j].0@ == b;
                assert(ja != jb);
                if ja < jb {
                    assert(entries@[ja].1 != entries@[jb].1);
                } else {
                    assert(entries@[jb].1 != entries@[ja].1);
                }
            }
        }
        true
    }
}

} // verus!
