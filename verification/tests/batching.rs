use cheminee_similarity_model::batch::{
    prepare_batch, rank_rows, slice_latent, slice_latents, split_rows,
};
use cheminee_similarity_model::error::ShapeError;
use cheminee_similarity_model::rank::rank_by_keys;
use cheminee_similarity_model::table::CentroidTable;

fn rms_key(lat: &[f32], cen: &[f32]) -> u32 {
    let mut sum: f32 = 0.0;
    for i in 0..lat.len() {
        let d = lat[i] - cen[i];
        sum += d * d;
    }
    (sum / lat.len() as f32).sqrt().to_bits()
}

fn keys_for(table: &CentroidTable, lat: &[f32]) -> Vec<u32> {
    let mut keys = Vec::new();
    for i in 0..table.centroid_count() {
        let cen: Vec<f32> = table.row(i).iter().map(|b| f32::from_bits(*b)).collect();
        keys.push(rms_key(lat, &cen));
    }
    keys
}

fn example_table() -> CentroidTable {
    let rows: Vec<Vec<u32>> = [[0.0f32, 0.0], [10.0, 10.0], [5.0, 5.0]]
        .iter()
        .map(|r| r.iter().map(|v| v.to_bits()).collect())
        .collect();
    CentroidTable::from_rows(rows).unwrap()
}

#[test]
fn prepare_batch_flattens_row_major() {
    let batch = vec![vec![1i64, 2, 3], vec![4, 5, 6]];
    let fb = prepare_batch(&batch).unwrap();
    assert_eq!(fb.rows, 2);
    assert_eq!(fb.cols, 3);
    assert_eq!(fb.flat, vec![1, 2, 3, 4, 5, 6]);
}

#[test]
fn prepare_batch_rejects_empty_batch() {
    let batch: Vec<Vec<i64>> = vec![];
    assert_eq!(prepare_batch(&batch).unwrap_err(), ShapeError::EmptyBatch);
}

#[test]
fn prepare_batch_rejects_ragged_rows() {
    let batch = vec![vec![1i64, 2], vec![3], vec![4, 5]];
    assert_eq!(prepare_batch(&batch).unwrap_err(), ShapeError::RowWidthMismatch);
}

#[test]
fn split_rows_cuts_flat_output_into_rows() {
    let flat: Vec<u32> = vec![10, 11, 12, 20, 21, 22];
    let rows = split_rows(&flat, 2, 3);
    assert_eq!(rows, vec![vec![10, 11, 12], vec![20, 21, 22]]);
}

#[test]
fn slice_latent_drops_trailing_dimensions() {
    let latent: Vec<u32> = vec![1, 2, 3, 4, 5];
    let sliced = slice_latent(&latent, 3).unwrap();
    assert_eq!(sliced, vec![1, 2, 3]);
}

#[test]
fn slice_latent_rejects_short_rows() {
    let latent: Vec<u32> = vec![1, 2];
    assert_eq!(slice_latent(&latent, 3).unwrap_err(), ShapeError::LatentTooShort);
}

#[test]
fn one_malformed_row_yields_empty_ranking_without_touching_siblings() {
    let table = example_table();
    let d = table.dimensionality();
    let k = table.centroid_count();
    let good = vec![1.0f32.to_bits(), 1.0f32.to_bits(), 9.0f32.to_bits()];
    let bad = vec![1.0f32.to_bits()];
    let latents = vec![good.clone(), good.clone(), bad, good.clone()];
    let sliced = slice_latents(&latents, d);
    assert!(sliced[0].is_some() && sliced[1].is_some() && sliced[3].is_some());
    assert!(sliced[2].is_none());
    let key_rows: Vec<Option<Vec<u32>>> = sliced
        .into_iter()
        .map(|entry| {
            entry.map(|bits| {
                let lat: Vec<f32> = bits.iter().map(|b| f32::from_bits(*b)).collect();
                keys_for(&table, &lat)
            })
        })
        .collect();
    let results = rank_rows(&key_rows, k);
    assert_eq!(results.len(), 4);
    assert_eq!(results[2], Vec::<usize>::new());
    for i in [0usize, 1, 3] {
        assert_eq!(results[i].len(), k);
        assert_eq!(results[i], vec![0, 2, 1]);
    }
}

#[test]
fn batch_results_keep_their_input_row_order() {
    let table = example_table();
    let d = table.dimensionality();
    let near_first = vec![1.0f32, 1.0];
    let near_last = vec![9.0f32, 9.0];
    let near_middle = vec![5.5f32, 5.5];
    let rows = [near_first, near_last, near_middle];
    let latents: Vec<Vec<u32>> =
        rows.iter().map(|r| r.iter().map(|v| v.to_bits()).collect()).collect();
    let sliced = slice_latents(&latents, d);
    let key_rows: Vec<Option<Vec<u32>>> = sliced
        .into_iter()
        .enumerate()
        .map(|(i, entry)| {
            assert!(entry.is_some());
            let _ = i;
            entry.map(|bits| {
                let lat: Vec<f32> = bits.iter().map(|b| f32::from_bits(*b)).collect();
                keys_for(&table, &lat)
            })
        })
        .collect();
    let results = rank_rows(&key_rows, table.centroid_count());
    assert_eq!(results.len(), 3);
    for (i, row) in rows.iter().enumerate() {
        let expected = rank_by_keys(&keys_for(&table, row));
        assert_eq!(results[i], expected);
    }
    assert_eq!(results[0], vec![0, 2, 1]);
    assert_eq!(results[1], vec![1, 2, 0]);
    assert_eq!(results[2], vec![2, 1, 0]);
}

#[test]
fn wrong_width_key_row_downgrades_to_empty() {
    let key_rows: Vec<Option<Vec<u32>>> = vec![Some(vec![5, 1, 3]), Some(vec![5, 1]), None];
    let results = rank_rows(&key_rows, 3);
    assert_eq!(results, vec![vec![1, 2, 0], vec![], vec![]]);
}

#[test]
fn shape_error_descriptions_name_their_cause() {
    assert!(ShapeError::EmptyBatch.describe().contains("no rows"));
    assert!(ShapeError::RowWidthMismatch.describe().contains("width"));
    assert!(ShapeError::LatentTooShort.describe().contains("shorter"));
}
