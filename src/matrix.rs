use vstd::prelude::*;
use crate::error::NetError;

verus! {

/// All rows have the width `c`.
pub open spec fn all_width<T>(rows: Seq<Vec<T>>, c: nat) -> bool {
    forall|i: int| 0 <= i < rows.len() ==> (#[trigger] rows[i])@.len() == c
}

/// `data` is the row-major layout of `r` rows of width `c` taken from `rows`.
pub open spec fn row_major<T>(rows: Seq<Vec<T>>, r: nat, c: nat, data: Seq<T>) -> bool {
    &&& data.len() == r * c
    &&& forall|i: int, j: int|
        0 <= i < r && 0 <= j < c ==> #[trigger] data[i * c + j] == rows[i]@[j]
}

proof fn lemma_cell_in_range(i: int, j: int, r: int, c: int)
    requires
        0 <= i < r,
        0 <= j < c,
    ensures
        0 <= i * c + j < r * c,
        i * c + j < (i + 1) * c,
        i * c <= i * c + j,
{
    assert(0 <= i * c + j < r * c) by (nonlinear_arith)
        requires
            0 <= i < r,
            0 <= j < c,
    ;
    assert((i + 1) * c == i * c + c) by (nonlinear_arith);
    assert(i * c >= 0) by (nonlinear_arith)
        requires
            0 <= i,
            0 <= c,
    ;
}

/// Lays a list of equally wide rows out as one row-major matrix, returning its
/// row count, its column count and its elements. Rows of different widths are
/// a `DimensionMismatch`; no rows give a `0 × 0` matrix.
pub fn rows_to_matrix<T: Copy>(rows: &Vec<Vec<T>>) -> (r: Result<(usize, usize, Vec<T>), NetError>)
    ensures
        match r {
            Ok((nr, nc, data)) => {
                &&& nr == rows@.len()
                &&& (nr == 0 ==> nc == 0)
                &&& all_width(rows@, nc as nat)
                &&& row_major(rows@, nr as nat, nc as nat, data@)
            },
            Err(e) => e == NetError::DimensionMismatch && rows@.len() > 0 && !all_width(
                rows@,
                rows@[0]@.len(),
            ),
        },
{
    let nr = rows.len();
    if nr == 0 {
        return Ok((0, 0, Vec::new()));
    }
    let nc = rows[0].len();
    let mut i: usize = 0;
    while i < nr
        invariant
            nr == rows@.len(),
            nc == rows@[0]@.len(),
            i <= nr,
            forall|k: int| 0 <= k < i ==> (#[trigger] rows@[k])@.len() == nc,
        decreases nr - i,
    {
        if rows[i].len() != nc {
            return Err(NetError::DimensionMismatch);
        }
        i = i + 1;
    }
    let mut data: Vec<T> = Vec::new();
    let mut i: usize = 0;
    while i < nr
        invariant
            nr == rows@.len(),
            all_width(rows@, nc as nat),
            i <= nr,
            data@.len() == i * nc,
            forall|a: int, b: int|
                0 <= a < i && 0 <= b < nc ==> #[trigger] data@[a * nc + b] == rows@[a]@[b],
        decreases nr - i,
    {
        let row = &rows[i];
        let mut j: usize = 0;
        while j < nc
            invariant
                nr == rows@.len(),
                all_width(rows@, nc as nat),
                i < nr,
                row == &rows@[i as int],
                j <= nc,
                data@.len() == i * nc + j,
                forall|a: int, b: int|
                    0 <= a < i && 0 <= b < nc ==> #[trigger] data@[a * nc + b] == rows@[a]@[b],
                forall|b: int| 0 <= b < j ==> #[trigger] data@[i * nc + b] == rows@[i as int]@[b],
            decreases nc - j,
        {
            let ghost before = data@;
            data.push(row[j]);
            proof {
                assert forall|a: int, b: int| 0 <= a < i && 0 <= b < nc implies #[trigger] data@[a
                    * nc + b] == rows@[a]@[b] by {
                    lemma_cell_in_range(a, b, i as int, nc as int);
                    assert(data@[a * nc + b] == before[a * nc + b]);
                }
                assert forall|b: int| 0 <= b < j + 1 implies #[trigger] data@[i * nc + b]
                    == rows@[i as int]@[b] by {
                    if b < j {
                        assert(data@[i * nc + b] == before[i * nc + b]);
                    }
                }
            }
            j = j + 1;
        }
        proof {
            assert((i + 1) * nc == i * nc + nc) by (nonlinear_arith);
            assert forall|a: int, b: int| 0 <= a < i + 1 && 0 <= b < nc implies #[trigger] data@[a
                * nc + b] == rows@[a]@[b] by {
                if a < i {
                } else {
                    assert(a == i);
                }
            }
        }
        i = i + 1;
    }
    assert(nr * nc == data@.len());
    Ok((nr, nc, data))
}

/// Splits a row-major matrix of `nr` rows of width `nc` back into its rows.
pub fn matrix_to_rows<T: Copy>(nr: usize, nc: usize, data: &Vec<T>) -> (r: Vec<Vec<T>>)
    requires
        data@.len() == nr * nc,
    ensures
        r@.len() == nr,
        all_width(r@, nc as nat),
        row_major(r@, nr as nat, nc as nat, data@),
{
    let len = data.len();
    let mut out: Vec<Vec<T>> = Vec::new();
    let mut i: usize = 0;
    while i < nr
        invariant
            len == data@.len(),
            data@.len() == nr * nc,
            i <= nr,
            out@.len() == i,
            forall|a: int| 0 <= a < i ==> (#[trigger] out@[a])@.len() == nc,
            forall|a: int, b: int|
                0 <= a < i && 0 <= b < nc ==> #[trigger] out@[a]@[b] == data@[a * nc + b],
        decreases nr - i,
    {
        let mut row: Vec<T> = Vec::new();
        let mut j: usize = 0;
        while j < nc
            invariant
                len == data@.len(),
                data@.len() == nr * nc,
                i < nr,
                j <= nc,
                row@.len() == j,
                forall|b: int| 0 <= b < j ==> #[trigger] row@[b] == data@[i * nc + b],
            decreases nc - j,
        {
            proof {
                lemma_cell_in_range(i as int, j as int, nr as int, nc as int);
            }
            row.push(data[i * nc + j]);
            j = j + 1;
        }
        out.push(row);
        i = i + 1;
    }
    proof {
        assert forall|a: int, b: int| 0 <= a < nr && 0 <= b < nc implies #[trigger] data@[a * nc
            + b] == out@[a]@[b] by {}
    }
    out
}

} // verus!
