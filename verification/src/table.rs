//! The centroid table: an immutable matrix of K centroid rows by D
//! coordinates, loaded once and read for the lifetime of the process.
//!
//! Coordinates are carried as IEEE 754 single precision bit patterns
//! (`u32`), so the table is plain integer data; the numeric evaluation of
//! the distance metric happens outside, next to the inference engine, and
//! hands back per-centroid distance keys.

use vstd::prelude::*;

use crate::error::AssetError;

verus! {

/// The well-formed shape of a centroid table: at least one centroid row, and
/// the same column count on every row.
pub open spec fn table_wf(t: Seq<Seq<u32>>) -> bool {
    &&& t.len() > 0
    &&& forall|i: int| 0 <= i < t.len() ==> (#[trigger] t[i]).len() == t[0].len()
}

/// K centroid rows of D coordinates each; never mutated after construction.
#[derive(Debug)]
pub struct CentroidTable {
    rows: Vec<Vec<u32>>,
}

impl View for CentroidTable {
    type V = Seq<Seq<u32>>;

    closed spec fn view(&self) -> Seq<Seq<u32>> {
        self.rows.deep_view()
    }
}

impl CentroidTable {
    #[verifier::type_invariant]
    spec fn inv(self) -> bool {
        table_wf(self@)
    }

    /// Build the table from decoded coordinate rows. This is the only
    /// constructor, so every table in existence is non-empty and
    /// rectangular; a row count of zero or a ragged matrix is an asset
    /// error, never a table.
    pub fn from_rows(rows: Vec<Vec<u32>>) -> (r: Result<CentroidTable, AssetError>)
        ensures
            match r {
                Ok(t) => t@ == rows.deep_view() && table_wf(rows.deep_view()),
                Err(e) => {
                    &&& (e == AssetError::NoRows <==> rows.deep_view().len() == 0)
                    &&& e != AssetError::BadNumber
                    &&& !table_wf(rows.deep_view())
                },
            },
    {
        if rows.len() == 0 {
            return Err(AssetError::NoRows);
        }
        let d = rows[0].len();
        let mut i: usize = 1;
        while i < rows.len()
            invariant
                1 <= i <= rows.deep_view().len(),
                d == rows.deep_view()[0].len(),
                forall|j: int| 0 <= j < i ==> (#[trigger] rows.deep_view()[j]).len() == d,
            decreases rows.deep_view().len() - i,
        {
            if rows[i].len() != d {
                assert(rows.deep_view()[i as int].len() != rows.deep_view()[0].len());
                return Err(AssetError::ColumnMismatch);
            }
            i = i + 1;
        }
        let t = CentroidTable { rows };
        Ok(t)
    }

    /// K, the number of centroids (clusters), derived from the loaded shape.
    pub fn centroid_count(&self) -> (k: usize)
        ensures
            k == self@.len(),
            k > 0,
    {
        proof {
            use_type_invariant(self);
        }
        self.rows.len()
    }

    /// D, the latent dimensionality, derived from the loaded shape.
    pub fn dimensionality(&self) -> (d: usize)
        ensures
            self@.len() > 0,
            d == self@[0].len(),
            forall|i: int| 0 <= i < self@.len() ==> (#[trigger] self@[i]).len() == d,
    {
        proof {
            use_type_invariant(self);
        }
        let r = &self.rows[0];
        r.len()
    }

    /// Read-only access to one centroid row; there is no mutation API.
    pub fn row(&self, i: usize) -> (r: &Vec<u32>)
        requires
            i < self@.len(),
        ensures
            r@ == self@[i as int],
    {
        &self.rows[i]
    }
}

} // verus!
