//! Row-major grid geometry and transposition.
use vstd::prelude::*;

verus! {

/// Position of the cell at (`row`, `col`) in a row-major buffer whose rows
/// are `width` cells long.
pub open spec fn cell_index(width: int, row: int, col: int) -> int {
    row * width + col
}

/// A buffer of `len` cells holds a grid of `height` rows by `width` columns,
/// neither axis being empty.
pub open spec fn is_grid(len: nat, width: nat, height: nat) -> bool {
    width > 0 && height > 0 && len == width * height
}

/// Why a buffer and a pair of dimensions do not make a grid.
#[derive(Clone, Copy, Debug, PartialEq, Eq, Structural)]
pub enum GeometryError {
    /// The width or the height is zero: there is no axis to transform.
    DegenerateGeometry,
    /// The buffer does not hold `width * height` cells.
    DimensionMismatch,
}

/// Tells whether `len` cells make a grid of `height` rows by `width` columns,
/// and if not, why: an empty axis is reported before a wrong length.
pub fn check_geometry(len: usize, width: u32, height: u32) -> (r: Result<(), GeometryError>)
    ensures
        r.is_ok() <==> is_grid(len as nat, width as nat, height as nat),
        (r matches Err(GeometryError::DegenerateGeometry)) <==> (width == 0 || height == 0),
        (r matches Err(GeometryError::DimensionMismatch)) <==> (width > 0 && height > 0 && len
            != width * height),
{
    if width == 0 || height == 0 {
        return Err(GeometryError::DegenerateGeometry);
    }
    proof {
        assert(0 <= width * height <= 0xffff_ffff * 0xffff_ffff) by (nonlinear_arith)
            requires
                0 <= width <= 0xffff_ffff,
                0 <= height <= 0xffff_ffff,
        ;
    }
    let cells: u64 = (width as u64) * (height as u64);
    if len as u64 == cells {
        Ok(())
    } else {
        Err(GeometryError::DimensionMismatch)
    }
}

/// The grid of `width` rows by `height` columns whose cell (`col`, `row`) is
/// cell (`row`, `col`) of `cells`, a grid of `height` rows by `width` columns.
pub open spec fn transposed<T>(cells: Seq<T>, width: nat, height: nat) -> Seq<T> {
    Seq::new(
        cells.len(),
        |i: int| cells[cell_index(width as int, i % (height as int), i / (height as int))],
    )
}

/// An index below `width * height` splits into a row below `height` and a
/// column below `width`, and is put together again from them.
pub proof fn lemma_cell_split(width: int, height: int, i: int)
    requires
        width > 0,
        height > 0,
        0 <= i < width * height,
    ensures
        0 <= i / width < height,
        0 <= i % width < width,
        cell_index(width, i / width, i % width) == i,
{
    vstd::arithmetic::div_mod::lemma_fundamental_div_mod(i, width);
    vstd::arithmetic::div_mod::lemma_mod_bound(i, width);
    assert(0 <= i / width < height) by (nonlinear_arith)
        requires
            width > 0,
            0 <= i < width * height,
            i == width * (i / width) + i % width,
            0 <= i % width < width,
    ;
    assert(width * (i / width) == (i / width) * width) by (nonlinear_arith);
}

/// A row below `height` and a column below `width` give an index below
/// `width * height`, from which both are recovered.
pub proof fn lemma_cell_join(width: int, height: int, row: int, col: int)
    requires
        0 <= row < height,
        0 <= col < width,
    ensures
        0 <= cell_index(width, row, col) < width * height,
        cell_index(width, row, col) / width == row,
        cell_index(width, row, col) % width == col,
{
    assert(0 <= row * width + col < width * height) by (nonlinear_arith)
        requires
            0 <= row < height,
            0 <= col < width,
    ;
    vstd::arithmetic::div_mod::lemma_fundamental_div_mod_converse(
        row * width + col,
        width,
        row,
        col,
    );
}

/// Transposing twice gives the grid back, cell for cell.
pub proof fn lemma_transpose_involution<T>(cells: Seq<T>, width: nat, height: nat)
    requires
        cells.len() == width * height,
    ensures
        transposed(transposed(cells, width, height), height, width) == cells,
{
    let once = transposed(cells, width, height);
    let twice = transposed(once, height, width);
    assert(twice.len() == cells.len());
    assert forall|i: int| 0 <= i < cells.len() implies twice[i] == cells[i] by {
        let w = width as int;
        let h = height as int;
        assert(w > 0 && h > 0) by (nonlinear_arith)
            requires
                0 <= i < w * h,
                w >= 0,
                h >= 0,
        ;
        lemma_cell_split(w, h, i);
        // cell i of the second transpose is cell (i % w, i / w) of `once`
        let j = cell_index(h, i % w, i / w);
        assert(w * h == h * w) by (nonlinear_arith);
        lemma_cell_join(h, w, i % w, i / w);
        assert(twice[i] == once[j]);
        assert(j % h == i / w);
        assert(j / h == i % w);
        assert(once[j] == cells[cell_index(w, i / w, i % w)]);
    }
    assert(twice =~= cells);
}

/// Calls `transpose::transpose`, the out-of-place transposition of a
/// row-major buffer.  Trusted: every cell (`row`, `col`) of the `height` by
/// `width` input is copied to cell (`col`, `row`) of the output, which keeps
/// its length.  The outside function panics unless both buffers hold exactly
/// `width * height` cells, which the precondition asks for.
#[verifier::external_body]
fn transpose_into<T: Copy>(input: &Vec<T>, output: &mut Vec<T>, width: usize, height: usize)
    requires
        input@.len() == width * height,
        old(output)@.len() == input@.len(),
    ensures
        final(output)@.len() == input@.len(),
        forall|row: int, col: int|
            0 <= row < height && 0 <= col < width ==> final(output)@[#[trigger] cell_index(
                height as int,
                col,
                row,
            )] == input@[cell_index(width as int, row, col)],
{
    transpose::transpose(input.as_slice(), output.as_mut_slice(), width, height);
}

/// Transposes the `height` by `width` grid in `input` into `output`, which
/// becomes a `width` by `height` grid.  No cell is changed, only moved.
pub fn transpose<T: Copy>(input: &Vec<T>, output: &mut Vec<T>, width: usize, height: usize)
    requires
        input@.len() == width * height,
        old(output)@.len() == input@.len(),
    ensures
        final(output)@ == transposed(input@, width as nat, height as nat),
{
    transpose_into(input, output, width, height);
    proof {
        let w = width as int;
        let h = height as int;
        let expected = transposed(input@, width as nat, height as nat);
        assert forall|i: int| 0 <= i < output@.len() implies output@[i] == expected[i] by {
            assert(w > 0 && h > 0) by (nonlinear_arith)
                requires
                    0 <= i < w * h,
                    w >= 0,
                    h >= 0,
            ;
            assert(w * h == h * w) by (nonlinear_arith);
            lemma_cell_split(h, w, i);
            assert(cell_index(h, i / h, i % h) == i);
        }
        assert(output@ =~= expected);
    }
}

} // verus!
