use vstd::prelude::*;

verus! {

/// A centroid asset could not be turned into a centroid table: the text has
/// no data rows, its rows disagree on their column count, or a cell does not
/// hold a numeric value.
#[derive(Clone, Copy, Debug, PartialEq, Eq, Structural)]
pub enum AssetError {
    /// The asset holds no data rows at all.
    NoRows,
    /// Some row's column count differs from the first row's.
    ColumnMismatch,
    /// Some cell could not be read as a numeric value.
    BadNumber,
}

/// A single row of a batch has the wrong width: a feature row that does not
/// match the width of its batch, or a latent row shorter than the centroid
/// dimensionality.
#[derive(Clone, Copy, Debug, PartialEq, Eq, Structural)]
pub enum ShapeError {
    /// The batch holds no rows, so no input tensor shape can be derived.
    EmptyBatch,
    /// A feature row's width differs from the first row's.
    RowWidthMismatch,
    /// A latent row is shorter than the centroid dimensionality.
    LatentTooShort,
}

impl AssetError {
    /// A short description, in place of a `Display` impl.
    pub fn describe(&self) -> (r: &'static str)
    {
        match self {
            AssetError::NoRows => "centroid asset holds no rows",
            AssetError::ColumnMismatch => "centroid asset rows differ in column count",
            AssetError::BadNumber => "centroid asset cell is not a number",
        }
    }
}

impl ShapeError {
    /// A short description, in place of a `Display` impl.
    pub fn describe(&self) -> (r: &'static str)
    {
        match self {
            ShapeError::EmptyBatch => "batch holds no rows",
            ShapeError::RowWidthMismatch => "feature row width differs across the batch",
            ShapeError::LatentTooShort => "latent row is shorter than the centroid dimensionality",
        }
    }
}

} // verus!
