//! What a request asks for, and the product as the answer carries it.
//!
//! The product itself is floating point and is computed by the caller.

use vstd::prelude::*;

use crate::error::ComputeError;
use crate::protocol::{Frame, FrameModel, MatrixDims};

verus! {

/// A product, row by row. The elements are bit patterns of 32-bit floats.
#[derive(Debug)]
pub struct MatrixResult {
    pub rows: u8,
    pub cols: u8,
    pub data: Vec<u32>,
}

/// Two matrices that can be multiplied, row by row.
#[derive(Debug)]
pub struct Operands {
    pub dims_a: MatrixDims,
    pub dims_b: MatrixDims,
    pub a: Vec<u32>,
    pub b: Vec<u32>,
}

/// Why a frame cannot be answered with a product, if it cannot.
pub open spec fn refusal(f: FrameModel) -> Option<ComputeError> {
    match f {
        FrameModel::Request { dims_a, dims_b, data, .. } => if dims_a.cols != dims_b.rows {
            Some(ComputeError::DimensionMismatch)
        } else if data.len() != dims_a.elements() + dims_b.elements() {
            Some(ComputeError::InvalidFrame)
        } else {
            None
        },
        _ => Some(ComputeError::InvalidFrame),
    }
}

/// The shape of the product that a request asks for.
pub open spec fn product_dims(f: FrameModel) -> MatrixDims {
    match f {
        FrameModel::Request { dims_a, dims_b, .. } => MatrixDims {
            rows: dims_a.rows,
            cols: dims_b.cols,
        },
        _ => MatrixDims { rows: 0, cols: 0 },
    }
}

/// A matrix given column by column, row by row.
pub open spec fn by_rows(columns: Seq<u32>, rows: nat, cols: nat) -> Seq<u32> {
    Seq::new(rows * cols, |k: int| columns[(k % (cols as int)) * rows + k / (cols as int)])
}

/// The two matrices of a request.
pub fn operands(frame: &Frame) -> (r: Result<Operands, ComputeError>)
    ensures
        match r {
            Ok(ops) => {
                &&& refusal(frame@) is None
                &&& frame@ matches FrameModel::Request { dims_a, dims_b, data, .. }
                &&& ops.dims_a == dims_a
                &&& ops.dims_b == dims_b
                &&& ops.a@ == data.take(dims_a.elements() as int)
                &&& ops.b@ == data.skip(dims_a.elements() as int)
                &&& ops.a@.len() == dims_a.elements()
                &&& ops.b@.len() == dims_b.elements()
            },
            Err(e) => refusal(frame@) == Some(e),
        },
{
    match frame {
        Frame::Request { dims_a, dims_b, data, .. } => {
            if dims_a.cols != dims_b.rows {
                return Err(ComputeError::DimensionMismatch);
            }
            let a_count = dims_a.count();
            let b_count = dims_b.count();
            if data.len() != a_count + b_count {
                return Err(ComputeError::InvalidFrame);
            }
            let a = vstd::slice::slice_subrange(data.as_slice(), 0, a_count);
            let b = vstd::slice::slice_subrange(data.as_slice(), a_count, data.len());
            let a = copy_of(a);
            let b = copy_of(b);
            assert(a@ =~= data@.take(a_count as int));
            assert(b@ =~= data@.skip(a_count as int));
            Ok(Operands { dims_a: *dims_a, dims_b: *dims_b, a, b })
        },
        _ => Err(ComputeError::InvalidFrame),
    }
}

/// A copy of `s`.
fn copy_of(s: &[u32]) -> (r: Vec<u32>)
    ensures
        r@ == s@,
{
    let mut r: Vec<u32> = Vec::new();
    r.extend_from_slice(s);
    assert(r@ =~= s@);
    r
}

/// The product that answers a frame, or why there is none. `product` holds the elements of the
/// product column by column; it is not looked at where there is none.
pub fn process_frame(frame: &Frame, product: &Vec<u32>) -> (r: Result<MatrixResult, ComputeError>)
    requires
        refusal(frame@) is None ==> product@.len() == product_dims(frame@).elements(),
    ensures
        match r {
            Ok(m) => {
                &&& refusal(frame@) is None
                &&& m.rows == product_dims(frame@).rows
                &&& m.cols == product_dims(frame@).cols
                &&& m.data@ == by_rows(product@, m.rows as nat, m.cols as nat)
                &&& m.data@.len() == product_dims(frame@).elements()
            },
            Err(e) => refusal(frame@) == Some(e),
        },
{
    match operands(frame) {
        Ok(ops) => {
            let rows = ops.dims_a.rows;
            let cols = ops.dims_b.cols;
            let data = to_rows(product, rows, cols);
            Ok(MatrixResult { rows, cols, data })
        },
        Err(e) => Err(e),
    }
}

/// The elements of `columns`, a matrix given column by column, row by row.
fn to_rows(columns: &Vec<u32>, rows: u8, cols: u8) -> (r: Vec<u32>)
    requires
        columns@.len() == rows * cols,
    ensures
        r@ == by_rows(columns@, rows as nat, cols as nat),
        r@.len() == rows * cols,
{
    let nrows: usize = rows as usize;
    let ncols: usize = cols as usize;
    let ghost want = by_rows(columns@, rows as nat, cols as nat);
    let mut data: Vec<u32> = Vec::new();
    let mut i: usize = 0;
    assert(0 <= nrows * ncols <= 255 * 255) by (nonlinear_arith)
        requires
            nrows <= 255,
            ncols <= 255,
    ;
    while i < nrows
        invariant
            i <= nrows <= 255,
            ncols <= 255,
            nrows == rows,
            ncols == cols,
            columns@.len() == nrows * ncols,
            want == by_rows(columns@, rows as nat, cols as nat),
            want.len() == nrows * ncols,
            i * ncols <= nrows * ncols,
            data@ == want.take(i * ncols),
        decreases nrows - i,
    {
        let mut j: usize = 0;
        assert((i + 1) * ncols <= nrows * ncols) by (nonlinear_arith)
            requires
                i < nrows,
        ;
        assert((i + 1) * ncols == i * ncols + ncols) by (nonlinear_arith);
        while j < ncols
            invariant
                i < nrows <= 255,
                j <= ncols <= 255,
                nrows == rows,
                ncols == cols,
                columns@.len() == nrows * ncols,
                want == by_rows(columns@, rows as nat, cols as nat),
                want.len() == nrows * ncols,
                i * ncols + ncols <= nrows * ncols,
                data@ == want.take(i * ncols + j),
            decreases ncols - j,
        {
            proof {
                lemma_place_in_columns(i as int, j as int, nrows as int, ncols as int);
                let k = i * ncols + j;
                assert(want[k] == columns@[j * nrows + i]);
                assert(want.take(k + 1) =~= want.take(k).push(want[k]));
            }
            data.push(columns[j * nrows + i]);
            j += 1;
        }
        assert(i * ncols + ncols == (i + 1) * ncols);
        i += 1;
    }
    assert(want.take(nrows * ncols) =~= want);
    data
}

/// Where row `i`, column `j` stands row by row and column by column.
proof fn lemma_place_in_columns(i: int, j: int, rows: int, cols: int)
    requires
        0 <= i < rows <= 255,
        0 <= j < cols <= 255,
    ensures
        (i * cols + j) % cols == j,
        (i * cols + j) / cols == i,
        0 <= j * rows + i < rows * cols,
        0 <= j * rows <= 255 * 255,
        0 <= i * cols + j < rows * cols,
{
    vstd::arithmetic::div_mod::lemma_fundamental_div_mod_converse(i * cols + j, cols, i, j);
    assert(j * rows + i < rows * cols) by (nonlinear_arith)
        requires
            0 <= i < rows,
            0 <= j < cols,
    ;
    assert(i * cols + j < rows * cols) by (nonlinear_arith)
        requires
            0 <= i < rows,
            0 <= j < cols,
    ;
    assert(0 <= j * rows <= 255 * 255) by (nonlinear_arith)
        requires
            0 <= j <= 255,
            0 <= rows <= 255,
    ;
    assert(0 <= i * cols) by (nonlinear_arith)
        requires
            0 <= i,
            0 <= cols,
    ;
}

/// Row `i`, column `j` of the product goes out as element `j` of row `i`.
pub proof fn lemma_by_rows_keeps_elements(columns: Seq<u32>, rows: nat, cols: nat, i: int, j: int)
    requires
        rows <= 255,
        cols <= 255,
        0 <= i < rows,
        0 <= j < cols,
    ensures
        0 <= i * cols + j < rows * cols,
        by_rows(columns, rows, cols)[i * cols + j] == columns[j * rows + i],
{
    lemma_place_in_columns(i, j, rows as int, cols as int);
}

/// A frame is refused if and only if it is no request, its shapes do not fit together, or it does
/// not hold the elements of both; a product has the rows of the first and the columns of the
/// second matrix.
pub proof fn lemma_refusal_is_about_shapes(f: FrameModel)
    ensures
        refusal(f) is None <==> f is Request && f->dims_a.cols == f->dims_b.rows
            && f->Request_data.len() == f->dims_a.rows * f->dims_a.cols + f->dims_b.rows
            * f->dims_b.cols,
        refusal(f) == Some(ComputeError::DimensionMismatch) <==> f is Request && f->dims_a.cols
            != f->dims_b.rows,
        refusal(f) != Some(ComputeError::CrcError),
        refusal(f) != Some(ComputeError::DataOverflow),
        f is Request ==> product_dims(f).rows == f->dims_a.rows && product_dims(f).cols
            == f->dims_b.cols,
{
}

} // verus!
