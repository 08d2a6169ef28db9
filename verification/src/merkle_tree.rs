//! Openings of a commitment to a batch of matrices: the rows of the
//! matrices at one position, and the path from them to the commitment.

use crate::field::all_canonical;
use crate::field::Felt;
use crate::hash::compress;
use crate::hash::hash;
use crate::hash::spec_compress;
use crate::hash::spec_hash;
use crate::hash::Digest;
use crate::hash::Permutation;
use vstd::prelude::*;

verus! {

/// The rows as sequences.
pub open spec fn rows_view(rows: Seq<Vec<Felt>>) -> Seq<Seq<Felt>> {
    Seq::new(rows.len(), |i: int| rows[i]@)
}

/// The digests as sequences.
pub open spec fn digests_view(digests: Seq<Digest>) -> Seq<Seq<Felt>> {
    Seq::new(digests.len(), |i: int| digests[i]@)
}

/// Every row is canonical.
pub open spec fn all_rows_canonical(rows: Seq<Seq<Felt>>) -> bool {
    forall|i: int| 0 <= i < rows.len() ==> all_canonical(#[trigger] rows[i])
}

/// The rows of the matrices of height `2^h`, one after the other in the
/// order of the batch.
pub open spec fn rows_at(log_heights: Seq<usize>, opened: Seq<Seq<Felt>>, h: int) -> Seq<Felt>
    decreases log_heights.len(),
{
    if log_heights.len() == 0 {
        Seq::empty()
    } else {
        rows_at(log_heights.drop_last(), opened.drop_last(), h) + (if log_heights.last() == h {
            opened.last()
        } else {
            Seq::empty()
        })
    }
}

/// Some matrix of the batch has height `2^h`.
pub open spec fn any_at(log_heights: Seq<usize>, h: int) -> bool {
    exists|i: int| 0 <= i < log_heights.len() && #[trigger] log_heights[i] == h
}

/// An opening has the shape of its batch: a row for each matrix, a bit for
/// each digest of the path, no matrix taller than the tree, and at least
/// one as tall.
pub open spec fn batch_shape(
    log_heights: Seq<usize>,
    opened: Seq<Seq<Felt>>,
    index_bits: Seq<bool>,
    path: Seq<Seq<Felt>>,
) -> bool {
    &&& log_heights.len() == opened.len()
    &&& index_bits.len() == path.len()
    &&& forall|i: int| 0 <= i < log_heights.len() ==> #[trigger] log_heights[i] <= path.len()
    &&& any_at(log_heights, path.len() as int)
}

/// The digest reached after `levels` steps up the tree. The tallest
/// matrices' rows are hashed into the leaf. Each step compresses the
/// digest with the path's next digest, which stands on the left where the
/// position's bit is set; where matrices have the height reached, their
/// rows are hashed and compressed in on the right.
pub open spec fn merkle_root<H: Permutation>(
    perm: H,
    log_heights: Seq<usize>,
    opened: Seq<Seq<Felt>>,
    index_bits: Seq<bool>,
    path: Seq<Seq<Felt>>,
    levels: nat,
) -> Seq<Felt>
    decreases levels,
{
    if levels == 0 {
        spec_hash(perm, rows_at(log_heights, opened, path.len() as int))
    } else {
        let below = merkle_root(perm, log_heights, opened, index_bits, path, (levels - 1) as nat);
        let sibling = path[levels - 1];
        let up = if index_bits[levels - 1] {
            spec_compress(perm, sibling, below)
        } else {
            spec_compress(perm, below, sibling)
        };
        let h = path.len() - levels;
        if any_at(log_heights, h) {
            spec_compress(perm, up, spec_hash(perm, rows_at(log_heights, opened, h)))
        } else {
            up
        }
    }
}

/// The opening leads to the commitment.
#[verifier::opaque]
pub open spec fn batch_opens<H: Permutation>(
    perm: H,
    commit: Seq<Felt>,
    log_heights: Seq<usize>,
    opened: Seq<Seq<Felt>>,
    index_bits: Seq<bool>,
    path: Seq<Seq<Felt>>,
) -> bool {
    merkle_root(perm, log_heights, opened, index_bits, path, path.len()) == commit
}

/// The rows of the matrices of height `2^h`, and whether there are any.
fn rows_at_height(log_heights: &Vec<usize>, opened: &Vec<Vec<Felt>>, h: usize) -> (found: (
    bool,
    Vec<Felt>,
))
    requires
        log_heights@.len() == opened@.len(),
        all_rows_canonical(rows_view(opened@)),
    ensures
        found.0 == any_at(log_heights@, h as int),
        found.1@ == rows_at(log_heights@, rows_view(opened@), h as int),
        all_canonical(found.1@),
{
    let mut any = false;
    let mut rows: Vec<Felt> = Vec::new();
    let n = log_heights.len();
    let mut i: usize = 0;
    let ghost all = rows_view(opened@);
    while i < n
        invariant
            n == log_heights@.len(),
            n == opened@.len(),
            i <= n,
            all == rows_view(opened@),
            all_rows_canonical(all),
            any == any_at(log_heights@.take(i as int), h as int),
            rows@ == rows_at(log_heights@.take(i as int), all.take(i as int), h as int),
            all_canonical(rows@),
        decreases n - i,
    {
        let ghost heads = log_heights@.take(i + 1);
        proof {
            assert(heads.drop_last() =~= log_heights@.take(i as int));
            assert(all.take(i + 1).drop_last() =~= all.take(i as int));
            assert(all.take(i + 1).last() == opened@[i as int]@);
            assert(all_canonical(all[i as int]));
        }
        if log_heights[i] == h {
            let row = &opened[i];
            let m = row.len();
            let ghost before = rows@;
            let mut k: usize = 0;
            while k < m
                invariant
                    m == row@.len(),
                    k <= m,
                    all_canonical(row@),
                    all_canonical(before),
                    rows@ == before + row@.take(k as int),
                decreases m - k,
            {
                rows.push(row[k]);
                assert(rows@ =~= before + row@.take(k + 1));
                k += 1;
            }
            assert(row@.take(m as int) =~= row@);
            any = true;
            assert(heads[i as int] == h);
        } else {
            assert(rows@ + Seq::<Felt>::empty() =~= rows@);
            proof {
                if any_at(heads, h as int) {
                    let j = choose|j: int| 0 <= j < heads.len() && #[trigger] heads[j] == h;
                    assert(log_heights@.take(i as int)[j] == h);
                }
                if any {
                    let j = choose|j: int|
                        0 <= j < i && #[trigger] log_heights@.take(i as int)[j] == h;
                    assert(heads[j] == h);
                }
            }
        }
        i += 1;
    }
    proof {
        assert(log_heights@.take(n as int) =~= log_heights@);
        assert(all.take(n as int) =~= all);
    }
    (any, rows)
}

/// Whether two digests are the same.
pub fn same_digest(a: &Digest, b: &Digest) -> (same: bool)
    ensures
        same == (a@ == b@),
{
    let mut i: usize = 0;
    while i < 8
        invariant
            i <= 8,
            forall|j: int| 0 <= j < i ==> a@[j] == b@[j],
        decreases 8 - i,
    {
        if a[i] != b[i] {
            return false;
        }
        i += 1;
    }
    assert(a@ =~= b@);
    true
}

/// Checks an opening of a batch of matrices, of heights `2^log_heights[i]`,
/// against the batch's commitment.
pub fn verify_batch<H: Permutation>(
    builder: &H,
    commit: &Digest,
    log_heights: &Vec<usize>,
    index_bits: &[bool],
    opened_values: &Vec<Vec<Felt>>,
    proof: &Vec<Digest>,
) -> (ok: bool)
    requires
        builder.wf(),
        batch_shape(log_heights@, rows_view(opened_values@), index_bits@, digests_view(proof@)),
        all_rows_canonical(rows_view(opened_values@)),
        all_rows_canonical(digests_view(proof@)),
    ensures
        ok == batch_opens(
            *builder,
            commit@,
            log_heights@,
            rows_view(opened_values@),
            index_bits@,
            digests_view(proof@),
        ),
{
    reveal(batch_opens);
    let depth = proof.len();
    let ghost opened = rows_view(opened_values@);
    let ghost path = digests_view(proof@);
    let leaf = rows_at_height(log_heights, opened_values, depth);
    let mut root = hash(builder, &leaf.1);
    let mut level: usize = 0;
    while level < depth
        invariant
            level <= depth,
            depth == proof@.len(),
            depth == index_bits@.len(),
            builder.wf(),
            opened == rows_view(opened_values@),
            path == digests_view(proof@),
            log_heights@.len() == opened_values@.len(),
            all_rows_canonical(opened),
            all_rows_canonical(path),
            all_canonical(root@),
            root@ == merkle_root(*builder, log_heights@, opened, index_bits@, path, level as nat),
        decreases depth - level,
    {
        let sibling = &proof[level];
        assert(path[level as int] == sibling@);
        assert(all_canonical(path[level as int]));
        let up = if index_bits[level] {
            compress(builder, sibling, &root)
        } else {
            compress(builder, &root, sibling)
        };
        let h = depth - level - 1;
        let joining = rows_at_height(log_heights, opened_values, h);
        if joining.0 {
            let joined = hash(builder, &joining.1);
            root = compress(builder, &up, &joined);
        } else {
            root = up;
        }
        level += 1;
    }
    same_digest(&root, commit)
}

} // verus!
