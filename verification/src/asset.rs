//! The centroid asset's textual structure: one centroid per line,
//! comma-separated cells, a constant column count across lines.
//!
//! This module owns the format itself — cutting the text into lines and
//! cells and checking that the matrix of cells is rectangular. Decoding one
//! cell into a numeric value is the caller's step; a cell that does not
//! decode is the remaining load failure (`AssetError::BadNumber`).

use vstd::prelude::*;

use crate::error::AssetError;

verus! {

/// Split `s` at every occurrence of `sep`. Splitting the empty text gives
/// one empty segment, and every separator opens a new segment, so the
/// result always holds one segment more than there are separators.
pub open spec fn split_on(s: Seq<u8>, sep: u8) -> Seq<Seq<u8>>
    decreases s.len(),
{
    if s.len() == 0 {
        seq![Seq::<u8>::empty()]
    } else if s[0] == sep {
        seq![Seq::<u8>::empty()] + split_on(s.skip(1), sep)
    } else {
        let rest = split_on(s.skip(1), sep);
        seq![seq![s[0]] + rest[0]] + rest.skip(1)
    }
}

/// Splitting never yields an empty list of segments.
pub proof fn lemma_split_on_nonempty(s: Seq<u8>, sep: u8)
    ensures
        split_on(s, sep).len() >= 1,
    decreases s.len(),
{
    if s.len() != 0 && s[0] != sep {
        lemma_split_on_nonempty(s.skip(1), sep);
    }
}

/// Rejoin split segments with the separator between them.
pub open spec fn join_with(parts: Seq<Seq<u8>>, sep: u8) -> Seq<u8>
    decreases parts.len(),
{
    if parts.len() == 0 {
        Seq::empty()
    } else if parts.len() == 1 {
        parts[0]
    } else {
        parts[0] + seq![sep] + join_with(parts.skip(1), sep)
    }
}

/// Splitting loses nothing: rejoining the segments with the separator
/// restores the text exactly.
pub proof fn lemma_split_on_round_trip(s: Seq<u8>, sep: u8)
    ensures
        join_with(split_on(s, sep), sep) == s,
    decreases s.len(),
{
    if s.len() == 0 {
        assert(join_with(split_on(s, sep), sep) =~= s);
    } else if s[0] == sep {
        lemma_split_on_round_trip(s.skip(1), sep);
        lemma_split_on_nonempty(s.skip(1), sep);
        let parts = seq![Seq::<u8>::empty()] + split_on(s.skip(1), sep);
        assert(parts.skip(1) =~= split_on(s.skip(1), sep));
        assert(parts.len() >= 2);
        assert(join_with(parts, sep) == parts[0] + seq![sep] + join_with(parts.skip(1), sep));
        assert(join_with(parts.skip(1), sep) == s.skip(1));
        assert(parts[0] =~= Seq::<u8>::empty());
        assert(Seq::<u8>::empty() + seq![sep] + s.skip(1) =~= s);
        assert(join_with(parts, sep) == s);
    } else {
        lemma_split_on_round_trip(s.skip(1), sep);
        lemma_split_on_nonempty(s.skip(1), sep);
        let rest = split_on(s.skip(1), sep);
        let parts = seq![seq![s[0]] + rest[0]] + rest.skip(1);
        if rest.len() == 1 {
            assert(join_with(rest, sep) == rest[0]);
            assert(join_with(parts, sep) =~= s);
        } else {
            assert(parts.skip(1) =~= rest.skip(1));
            let j_tail = join_with(rest.skip(1), sep);
            assert(join_with(parts, sep) == parts[0] + seq![sep] + j_tail);
            assert(join_with(rest, sep) == rest[0] + seq![sep] + j_tail);
            assert(parts[0] =~= seq![s[0]] + rest[0]);
            assert(seq![s[0]] + rest[0] + seq![sep] + j_tail =~= seq![s[0]] + (rest[0] + seq![sep]
                + j_tail));
            assert(seq![s[0]] + s.skip(1) =~= s);
            assert(join_with(parts, sep) == s);
        }
    }
}

/// No segment of a split holds the separator: the separators sit between
/// the segments, never inside one.
pub proof fn lemma_split_on_segments_free_of_sep(s: Seq<u8>, sep: u8)
    ensures
        forall|i: int, j: int|
            0 <= i < split_on(s, sep).len() && 0 <= j < split_on(s, sep)[i].len()
                ==> #[trigger] split_on(s, sep)[i][j] != sep,
    decreases s.len(),
{
    if s.len() == 0 {
    } else if s[0] == sep {
        lemma_split_on_segments_free_of_sep(s.skip(1), sep);
        assert forall|i: int, j: int|
            0 <= i < split_on(s, sep).len() && 0 <= j < split_on(s, sep)[i].len()
            implies #[trigger] split_on(s, sep)[i][j] != sep by {
            if i > 0 {
                assert(split_on(s, sep)[i] == split_on(s.skip(1), sep)[i - 1]);
            }
        }
    } else {
        lemma_split_on_segments_free_of_sep(s.skip(1), sep);
        lemma_split_on_nonempty(s.skip(1), sep);
        let rest = split_on(s.skip(1), sep);
        assert forall|i: int, j: int|
            0 <= i < split_on(s, sep).len() && 0 <= j < split_on(s, sep)[i].len()
            implies #[trigger] split_on(s, sep)[i][j] != sep by {
            if i == 0 {
                assert(split_on(s, sep)[0] == seq![s[0]] + rest[0]);
                if j > 0 {
                    assert(split_on(s, sep)[0][j] == rest[0][j - 1]);
                }
            } else {
                assert(split_on(s, sep)[i] == rest[i]);
            }
        }
    }
}

/// The lines of the asset text: newline-separated segments, with one
/// trailing empty segment dropped so that text ending in a newline has no
/// phantom empty line (and empty text has no lines at all).
pub open spec fn lines_of(text: Seq<u8>) -> Seq<Seq<u8>> {
    let parts = split_on(text, 10u8);
    if parts.len() > 0 && parts.last().len() == 0 {
        parts.drop_last()
    } else {
        parts
    }
}

/// The cell matrix of the asset text: each line cut at its commas.
pub open spec fn csv_cells(text: Seq<u8>) -> Seq<Seq<Seq<u8>>> {
    lines_of(text).map_values(|l: Seq<u8>| split_on(l, 44u8))
}

/// Glue a partial segment onto the front of already-split remainder text.
spec fn glue(prefix: Seq<u8>, parts: Seq<Seq<u8>>) -> Seq<Seq<u8>> {
    seq![prefix + parts[0]] + parts.skip(1)
}

/// Cut `text` at every occurrence of `sep`.
#[verifier::loop_isolation(false)]
pub fn split_bytes(text: &Vec<u8>, sep: u8) -> (r: Vec<Vec<u8>>)
    ensures
        r.deep_view() == split_on(text@, sep),
{
    let mut done: Vec<Vec<u8>> = Vec::new();
    let mut cur: Vec<u8> = Vec::new();
    let mut i: usize = 0;
    proof {
        lemma_split_on_nonempty(text@, sep);
        assert(text@.skip(0) =~= text@);
        assert(glue(cur@, split_on(text@, sep)) =~~= split_on(text@, sep));
        assert(done.deep_view() + glue(cur@, split_on(text@, sep)) =~~= split_on(text@, sep));
    }
    while i < text.len()
        invariant
            0 <= i <= text@.len(),
            split_on(text@, sep) =~~= done.deep_view() + glue(
                cur@,
                split_on(text@.skip(i as int), sep),
            ),
        decreases text@.len() - i,
    {
        let ghost rem = text@.skip(i as int);
        let ghost rem1 = text@.skip(i + 1);
        proof {
            assert(rem.len() > 0 && rem[0] == text@[i as int]);
            assert(rem.skip(1) =~= rem1);
            lemma_split_on_nonempty(rem1, sep);
        }
        let c = text[i];
        if c == sep {
            let ghost ddv = done.deep_view();
            let finished = cur;
            cur = Vec::new();
            done.push(finished);
            proof {
                // split_on(rem) opens with an empty segment here, so the
                // glued head is exactly the finished segment.
                assert(split_on(rem, sep) =~= seq![Seq::<u8>::empty()] + split_on(rem1, sep));
                assert(done.deep_view() =~~= ddv.push(finished@));
                assert(glue(finished@, split_on(rem, sep))[0] =~= finished@);
                assert(glue(finished@, split_on(rem, sep)).skip(1) =~= split_on(rem1, sep));
                assert(glue(cur@, split_on(rem1, sep))[0] =~= split_on(rem1, sep)[0]);
                assert(done.deep_view() + glue(cur@, split_on(rem1, sep)) =~~= ddv + glue(
                    finished@,
                    split_on(rem, sep),
                ));
            }
        } else {
            let ghost curv = cur@;
            cur.push(c);
            proof {
                // The head segment of the remainder grows by one byte.
                let rest = split_on(rem1, sep);
                assert(split_on(rem, sep) =~= seq![seq![rem[0]] + rest[0]] + rest.skip(1));
                assert(glue(curv, split_on(rem, sep))[0] =~= cur@ + rest[0]);
                assert(glue(curv, split_on(rem, sep)) =~~= glue(cur@, rest));
            }
        }
        i = i + 1;
    }
    proof {
        assert(text@.skip(text@.len() as int) =~= Seq::<u8>::empty());
        assert(split_on(text@.skip(i as int), sep) =~= seq![Seq::<u8>::empty()]);
    }
    let ghost ddv = done.deep_view();
    let ghost curv = cur@;
    done.push(cur);
    proof {
        assert(done.deep_view() =~~= ddv.push(curv));
        assert(glue(curv, seq![Seq::<u8>::empty()])[0] =~= curv);
        assert(done.deep_view() =~~= ddv + glue(curv, seq![Seq::<u8>::empty()]));
    }
    done
}

/// Cut the asset text into its cell matrix: lines at newlines (one trailing
/// empty line ignored), cells at commas.
#[verifier::loop_isolation(false)]
pub fn tokenize_asset(text: &Vec<u8>) -> (cells: Vec<Vec<Vec<u8>>>)
    ensures
        cells.deep_view() == csv_cells(text@),
{
    let mut lines = split_bytes(text, 10u8);
    let ghost parts = split_on(text@, 10u8);
    proof {
        lemma_split_on_nonempty(text@, 10u8);
    }
    if lines.len() > 0 {
        let last_is_empty = lines[lines.len() - 1].len() == 0;
        if last_is_empty {
            let ghost before = lines.deep_view();
            lines.pop();
            proof {
                assert(lines.deep_view() =~= before.drop_last());
            }
        }
    }
    proof {
        assert(lines.deep_view() =~= lines_of(text@));
    }
    let mut cells: Vec<Vec<Vec<u8>>> = Vec::new();
    let mut i: usize = 0;
    while i < lines.len()
        invariant
            0 <= i <= lines@.len(),
            lines.deep_view() == lines_of(text@),
            cells.deep_view() =~= csv_cells(text@).take(i as int),
        decreases lines@.len() - i,
    {
        let row = split_bytes(&lines[i], 44u8);
        let ghost cdv = cells.deep_view();
        let ghost rdv = row.deep_view();
        cells.push(row);
        proof {
            assert(lines@[i as int].deep_view() =~= lines@[i as int]@);
            assert(lines@[i as int]@ == lines_of(text@)[i as int]);
            assert(cells.deep_view() =~~= cdv.push(rdv));
            assert(csv_cells(text@).take(i + 1) =~= csv_cells(text@).take(i as int).push(
                csv_cells(text@)[i as int],
            ));
        }
        i = i + 1;
    }
    proof {
        assert(csv_cells(text@).take(csv_cells(text@).len() as int) =~= csv_cells(text@));
    }
    cells
}

/// Check that the cell matrix is usable as a centroid table: at least one
/// line, and the same cell count on every line. On success, return the
/// shape `(rows, cols)`.
#[verifier::loop_isolation(false)]
pub fn check_shape(cells: &Vec<Vec<Vec<u8>>>) -> (r: Result<(usize, usize), AssetError>)
    ensures
        match r {
            Ok(shape) => {
                &&& cells.deep_view().len() > 0
                &&& shape.0 == cells.deep_view().len()
                &&& shape.1 == cells.deep_view()[0].len()
                &&& forall|i: int|
                    0 <= i < cells.deep_view().len() ==> (#[trigger] cells.deep_view()[i]).len()
                        == cells.deep_view()[0].len()
            },
            Err(e) => {
                &&& (e == AssetError::NoRows <==> cells.deep_view().len() == 0)
                &&& e != AssetError::BadNumber
                &&& (e == AssetError::ColumnMismatch ==> exists|i: int|
                    0 <= i < cells.deep_view().len() && (#[trigger] cells.deep_view()[i]).len()
                        != cells.deep_view()[0].len())
            },
        },
{
    if cells.len() == 0 {
        return Err(AssetError::NoRows);
    }
    let d = cells[0].len();
    proof {
        assert(cells.deep_view()[0].len() == d);
    }
    let mut i: usize = 1;
    while i < cells.len()
        invariant
            1 <= i <= cells.deep_view().len(),
            d == cells.deep_view()[0].len(),
            forall|j: int| 0 <= j < i ==> (#[trigger] cells.deep_view()[j]).len() == d,
        decreases cells.deep_view().len() - i,
    {
        if cells[i].len() != d {
            proof {
                assert(cells.deep_view()[i as int].len() != cells.deep_view()[0].len());
            }
            return Err(AssetError::ColumnMismatch);
        }
        i = i + 1;
    }
    Ok((cells.len(), d))
}

} // verus!
