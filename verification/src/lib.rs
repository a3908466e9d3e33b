//! A verified core for centroid-based similarity ranking: map a batch of
//! feature vectors, encoded to a latent space by an outside model, onto a
//! full nearest-first ranking of precomputed cluster centroids.
//!
//! Every decision lives here and is verified: the centroid table's shape
//! invariants, the asset text's line/cell structure, batch shape checks and
//! flattening, latent slicing, the tie-broken full ranking, and per-row
//! failure isolation. Floating-point evaluation of the root-mean-square
//! metric and the inference engine itself stay with the embedding
//! application, which hands the library distance keys: bit patterns of the
//! non-negative single-precision distances, whose unsigned order is the
//! distances' order.

pub mod asset;
pub mod batch;
pub mod error;
pub mod rank;
pub mod table;
