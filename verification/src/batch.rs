//! Batch orchestration: shape checks for the encoder's input tensor, the
//! row-wise latent slicing, and the per-row ranking with failure isolation.
//!
//! The encoder itself is an outside inference engine; this module prepares
//! its input (a flattened, uniformly shaped batch), cuts its output back
//! into rows, slices each latent row to the centroid dimensionality, and
//! turns per-centroid distance keys into rankings. One malformed row never
//! disturbs its siblings: it yields an empty ranking in place.

use vstd::prelude::*;

use crate::error::ShapeError;
use crate::rank::rank_by_keys;
use crate::rank::valid_ranking;

verus! {

/// A batch of feature rows, flattened row-major for the encoder's 2-D input
/// tensor of shape `[rows, cols]`.
#[derive(Debug)]
pub struct FlatBatch {
    pub flat: Vec<i64>,
    pub rows: usize,
    pub cols: usize,
}

/// The uniform shape a feature batch must have: at least one row, and every
/// row as wide as the first.
pub open spec fn batch_wf(b: Seq<Seq<i64>>) -> bool {
    &&& b.len() > 0
    &&& forall|i: int| 0 <= i < b.len() ==> (#[trigger] b[i]).len() == b[0].len()
}

/// Check a feature batch's shape and flatten it row-major. A batch with no
/// rows or with rows of differing widths is rejected whole: that is a
/// structural failure of the call, not a per-row one.
#[verifier::loop_isolation(false)]
pub fn prepare_batch(batch: &Vec<Vec<i64>>) -> (r: Result<FlatBatch, ShapeError>)
    ensures
        match r {
            Ok(fb) => {
                &&& batch_wf(batch.deep_view())
                &&& fb.rows == batch.deep_view().len()
                &&& fb.cols == batch.deep_view()[0].len()
                &&& fb.flat@ == batch.deep_view().flatten()
            },
            Err(e) => {
                &&& (e == ShapeError::EmptyBatch <==> batch.deep_view().len() == 0)
                &&& e != ShapeError::LatentTooShort
                &&& !batch_wf(batch.deep_view())
            },
        },
{
    let ghost dv = batch.deep_view();
    if batch.len() == 0 {
        return Err(ShapeError::EmptyBatch);
    }
    let cols = batch[0].len();
    let mut i: usize = 1;
    while i < batch.len()
        invariant
            1 <= i <= dv.len(),
            cols == dv[0].len(),
            forall|j: int| 0 <= j < i ==> (#[trigger] dv[j]).len() == cols,
        decreases dv.len() - i,
    {
        if batch[i].len() != cols {
            assert(dv[i as int].len() != dv[0].len());
            return Err(ShapeError::RowWidthMismatch);
        }
        i = i + 1;
    }
    let mut flat: Vec<i64> = Vec::new();
    let mut n: usize = 0;
    while n < batch.len()
        invariant
            0 <= n <= dv.len(),
            flat@ == dv.take(n as int).flatten(),
            forall|j: int| 0 <= j < dv.len() ==> (#[trigger] dv[j]).len() == cols,
        decreases dv.len() - n,
    {
        let ghost before = flat@;
        flat.extend_from_slice(batch[n].as_slice());
        proof {
            assert(flat@ =~= before + dv[n as int]);
            assert(dv.take(n + 1) =~= dv.take(n as int).push(dv[n as int]));
            dv.take(n as int).lemma_flatten_push(dv[n as int]);
        }
        n = n + 1;
    }
    proof {
        assert(dv.take(dv.len() as int) =~= dv);
    }
    Ok(FlatBatch { flat, rows: batch.len(), cols })
}

/// Cut a flattened row-major matrix back into its rows; this is how the
/// encoder's 2-D output tensor, carried as bit patterns, becomes one latent
/// row per batch input.
#[verifier::loop_isolation(false)]
pub fn split_rows(flat: &Vec<u32>, rows: usize, cols: usize) -> (r: Vec<Vec<u32>>)
    requires
        flat@.len() == rows * cols,
    ensures
        r.deep_view().len() == rows,
        forall|i: int|
            0 <= i < rows ==> (#[trigger] r.deep_view()[i]) == flat@.subrange(
                i * cols,
                i * cols + cols,
            ),
{
    let flen = flat.len();
    let mut r: Vec<Vec<u32>> = Vec::new();
    let mut i: usize = 0;
    let mut offset: usize = 0;
    while i < rows
        invariant
            0 <= i <= rows,
            offset == i * cols,
            flen == flat@.len(),
            flat@.len() == rows * cols,
            r.deep_view().len() == i,
            forall|p: int|
                0 <= p < i ==> (#[trigger] r.deep_view()[p]) == flat@.subrange(
                    p * cols,
                    p * cols + cols,
                ),
        decreases rows - i,
    {
        proof {
            assert((i + 1) * cols == i * cols + cols) by (nonlinear_arith);
            assert((i + 1) * cols <= rows * cols) by (nonlinear_arith)
                requires
                    0 <= cols,
                    i + 1 <= rows,
            ;
        }
        let mut row: Vec<u32> = Vec::new();
        let mut j: usize = 0;
        while j < cols
            invariant
                0 <= j <= cols,
                offset + cols <= flat@.len(),
                row@ == flat@.subrange(offset as int, offset as int + j),
            decreases cols - j,
        {
            row.push(flat[offset + j]);
            proof {
                assert(row@ =~= flat@.subrange(offset as int, offset as int + j + 1));
            }
            j = j + 1;
        }
        let ghost rdv = r.deep_view();
        r.push(row);
        proof {
            assert(r.deep_view() =~~= rdv.push(row@));
        }
        offset = offset + cols;
        i = i + 1;
    }
    r
}

/// Slice one latent row to its first `d` entries, dropping any trailing
/// dimensions beyond the centroid dimensionality; a row with fewer than `d`
/// entries has the wrong shape.
#[verifier::loop_isolation(false)]
pub fn slice_latent(latent: &Vec<u32>, d: usize) -> (r: Result<Vec<u32>, ShapeError>)
    ensures
        match r {
            Ok(s) => latent@.len() >= d && s@ == latent@.take(d as int),
            Err(e) => e == ShapeError::LatentTooShort && latent@.len() < d,
        },
{
    if latent.len() < d {
        return Err(ShapeError::LatentTooShort);
    }
    let mut s: Vec<u32> = Vec::new();
    let mut i: usize = 0;
    while i < d
        invariant
            0 <= i <= d <= latent@.len(),
            s@ == latent@.take(i as int),
        decreases d - i,
    {
        s.push(latent[i]);
        proof {
            assert(s@ =~= latent@.take(i + 1));
        }
        i = i + 1;
    }
    Ok(s)
}

/// Slice every latent row of a batch to the first `d` entries. A row that is
/// too short is marked `None` in place of aborting its siblings; every other
/// row keeps its position.
#[verifier::loop_isolation(false)]
pub fn slice_latents(latents: &Vec<Vec<u32>>, d: usize) -> (r: Vec<Option<Vec<u32>>>)
    ensures
        r.deep_view().len() == latents.deep_view().len(),
        forall|i: int|
            0 <= i < latents.deep_view().len() ==> match #[trigger] r.deep_view()[i] {
                Some(s) => latents.deep_view()[i].len() >= d && s == latents.deep_view()[i].take(
                    d as int,
                ),
                None => latents.deep_view()[i].len() < d,
            },
{
    let mut r: Vec<Option<Vec<u32>>> = Vec::new();
    let mut i: usize = 0;
    while i < latents.len()
        invariant
            0 <= i <= latents.deep_view().len(),
            r.deep_view().len() == i,
            forall|p: int|
                0 <= p < i ==> match #[trigger] r.deep_view()[p] {
                    Some(s) => latents.deep_view()[p].len() >= d
                        && s == latents.deep_view()[p].take(d as int),
                    None => latents.deep_view()[p].len() < d,
                },
        decreases latents.deep_view().len() - i,
    {
        let ghost rdv = r.deep_view();
        match slice_latent(&latents[i], d) {
            Ok(s) => {
                let ghost sv = s@;
                r.push(Some(s));
                proof {
                    assert(r.deep_view() =~~= rdv.push(Some(sv)));
                }
            },
            Err(_) => {
                r.push(None);
                proof {
                    assert(r.deep_view() =~~= rdv.push(None));
                }
            },
        }
        i = i + 1;
    }
    r
}

/// What one row of a batch result must be, given that row's distance keys:
/// the full ranking when the row carries one key per centroid, and the empty
/// sentinel when the row failed upstream (`None`) or has the wrong width.
pub open spec fn row_ranked(entry: Option<Seq<u32>>, k: int, out: Seq<usize>) -> bool {
    match entry {
        Some(keys) => if keys.len() == k {
            valid_ranking(keys, out)
        } else {
            out.len() == 0
        },
        None => out.len() == 0,
    }
}

/// A whole batch result: one entry per input row, in the input's order,
/// each entry determined by its own row's keys alone.
pub open spec fn batch_ranked(key_rows: Seq<Option<Seq<u32>>>, k: int, out: Seq<Seq<usize>>) -> bool {
    &&& out.len() == key_rows.len()
    &&& forall|i: int| 0 <= i < key_rows.len() ==> row_ranked(key_rows[i], k, #[trigger] out[i])
}

/// Rank every row of a batch independently, given each row's per-centroid
/// distance keys (`None` marks a row that already failed). A failed row
/// yields an empty ranking in place; it never aborts the batch, and every
/// result keeps its input row's position.
#[verifier::loop_isolation(false)]
pub fn rank_rows(key_rows: &Vec<Option<Vec<u32>>>, k: usize) -> (out: Vec<Vec<usize>>)
    ensures
        batch_ranked(key_rows.deep_view(), k as int, out.deep_view()),
{
    let mut out: Vec<Vec<usize>> = Vec::new();
    let mut i: usize = 0;
    while i < key_rows.len()
        invariant
            0 <= i <= key_rows.deep_view().len(),
            out.deep_view().len() == i,
            forall|p: int|
                0 <= p < i ==> row_ranked(
                    key_rows.deep_view()[p],
                    k as int,
                    #[trigger] out.deep_view()[p],
                ),
        decreases key_rows.deep_view().len() - i,
    {
        let ghost odv = out.deep_view();
        match &key_rows[i] {
            Some(keys) => {
                proof {
                    assert(keys.deep_view() =~= keys@);
                    assert(key_rows.deep_view()[i as int] == Some(keys@));
                }
                if keys.len() == k {
                    let ranking = rank_by_keys(keys);
                    let ghost rv = ranking@;
                    out.push(ranking);
                    proof {
                        assert(out.deep_view() =~~= odv.push(rv));
                    }
                } else {
                    out.push(Vec::new());
                    proof {
                        assert(out.deep_view() =~~= odv.push(Seq::empty()));
                    }
                }
            },
            None => {
                out.push(Vec::new());
                proof {
                    assert(out.deep_view() =~~= odv.push(Seq::empty()));
                }
            },
        }
        i = i + 1;
    }
    out
}

/// Row isolation and row-order preservation: the result at position `i` is
/// fully determined by the input row at position `i`. In particular, rows
/// elsewhere in the batch — malformed or not — cannot change it, and a batch
/// result always pairs `out[i]` with `input[i]`.
pub proof fn lemma_row_isolation(
    kr1: Seq<Option<Seq<u32>>>,
    kr2: Seq<Option<Seq<u32>>>,
    k: int,
    out1: Seq<Seq<usize>>,
    out2: Seq<Seq<usize>>,
    i: int,
)
    requires
        batch_ranked(kr1, k, out1),
        batch_ranked(kr2, k, out2),
        0 <= i < kr1.len(),
        0 <= i < kr2.len(),
        kr1[i] == kr2[i],
    ensures
        out1[i] == out2[i],
{
    match kr1[i] {
        Some(keys) => {
            if keys.len() == k {
                crate::rank::lemma_ranking_deterministic(keys, out1[i], out2[i]);
            } else {
                assert(out1[i] =~= out2[i]);
            }
        },
        None => {
            assert(out1[i] =~= out2[i]);
        },
    }
}

} // verus!
