use cheminee_similarity_model::asset::{check_shape, split_bytes, tokenize_asset};
use cheminee_similarity_model::error::AssetError;
use cheminee_similarity_model::rank::rank_by_keys;
use cheminee_similarity_model::table::CentroidTable;

/// The numeric half of loading, as the embedding application performs it:
/// decode every cell into a single-precision value, carried by bit pattern.
fn decode_cells(cells: &[Vec<Vec<u8>>]) -> Result<Vec<Vec<u32>>, AssetError> {
    let mut rows = Vec::new();
    for line in cells {
        let mut row = Vec::new();
        for cell in line {
            let text = std::str::from_utf8(cell).map_err(|_| AssetError::BadNumber)?;
            let value: f32 = text.trim().parse().map_err(|_| AssetError::BadNumber)?;
            row.push(value.to_bits());
        }
        rows.push(row);
    }
    Ok(rows)
}

fn load_table(text: &[u8]) -> Result<CentroidTable, AssetError> {
    let cells = tokenize_asset(&text.to_vec());
    check_shape(&cells)?;
    let rows = decode_cells(&cells)?;
    CentroidTable::from_rows(rows)
}

#[test]
fn splits_bytes_at_separators() {
    let text = b"ab,c,,d".to_vec();
    let parts = split_bytes(&text, b',');
    assert_eq!(parts, vec![b"ab".to_vec(), b"c".to_vec(), b"".to_vec(), b"d".to_vec()]);
}

#[test]
fn tokenizes_lines_and_cells() {
    let text = b"0,0\n10,10\n5,5".to_vec();
    let cells = tokenize_asset(&text);
    assert_eq!(cells.len(), 3);
    assert_eq!(cells[1], vec![b"10".to_vec(), b"10".to_vec()]);
}

#[test]
fn a_trailing_newline_adds_no_phantom_line() {
    let with_newline = tokenize_asset(&b"1,2\n3,4\n".to_vec());
    let without = tokenize_asset(&b"1,2\n3,4".to_vec());
    assert_eq!(with_newline, without);
}

#[test]
fn empty_text_has_no_rows() {
    let cells = tokenize_asset(&Vec::new());
    assert_eq!(check_shape(&cells).unwrap_err(), AssetError::NoRows);
}

#[test]
fn inconsistent_column_counts_fail_the_load() {
    assert_eq!(load_table(b"1,2\n3,4,5\n6,7").unwrap_err(), AssetError::ColumnMismatch);
}

#[test]
fn a_non_numeric_cell_fails_the_load() {
    assert_eq!(load_table(b"1,2\n3,oops").unwrap_err(), AssetError::BadNumber);
}

#[test]
fn an_empty_asset_fails_the_load() {
    assert_eq!(load_table(b"").unwrap_err(), AssetError::NoRows);
}

#[test]
fn from_rows_rejects_ragged_matrices() {
    let rows: Vec<Vec<u32>> = vec![vec![1, 2], vec![3]];
    assert_eq!(CentroidTable::from_rows(rows).unwrap_err(), AssetError::ColumnMismatch);
}

#[test]
fn from_rows_rejects_empty_matrices() {
    assert_eq!(CentroidTable::from_rows(Vec::new()).unwrap_err(), AssetError::NoRows);
}

#[test]
fn loaded_shape_is_derived_from_the_text() {
    let table = load_table(b"0,0\n10,10\n5,5\n").unwrap();
    assert_eq!(table.centroid_count(), 3);
    assert_eq!(table.dimensionality(), 2);
    assert_eq!(table.row(1), &vec![10.0f32.to_bits(), 10.0f32.to_bits()]);
}

#[test]
fn whitespace_around_cells_is_tolerated_by_decoding() {
    let table = load_table(b"0.5, 1.5\r\n2.5, 3.5\r\n").unwrap();
    assert_eq!(table.centroid_count(), 2);
    assert_eq!(table.row(0), &vec![0.5f32.to_bits(), 1.5f32.to_bits()]);
}

#[test]
fn a_loaded_table_ranks_the_worked_example() {
    let table = load_table(b"0,0\n10,10\n5,5\n").unwrap();
    let lat = [1.0f32, 1.0];
    let mut keys = Vec::new();
    for i in 0..table.centroid_count() {
        let cen: Vec<f32> = table.row(i).iter().map(|b| f32::from_bits(*b)).collect();
        let mut sum = 0.0f32;
        for j in 0..lat.len() {
            let d = lat[j] - cen[j];
            sum += d * d;
        }
        keys.push((sum / lat.len() as f32).sqrt().to_bits());
    }
    assert_eq!(rank_by_keys(&keys), vec![0, 2, 1]);
}

#[test]
fn error_descriptions_name_their_cause() {
    assert!(AssetError::ColumnMismatch.describe().contains("column count"));
    assert!(AssetError::BadNumber.describe().contains("not a number"));
    assert!(AssetError::NoRows.describe().contains("no rows"));
}
