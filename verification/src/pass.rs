//! One-dimensional kernels applied along the rows of a grid.
use vstd::prelude::*;
use vstd::slice::slice_subrange;

verus! {

/// Which of the two kernels of a transform pair is applied.
#[derive(Clone, Copy, Debug, PartialEq, Eq, Structural)]
pub enum TransformDirection {
    /// From samples to coefficients.
    Forward,
    /// From coefficients back to samples.
    Inverse,
}

/// The `i`-th run of `chunk_len` consecutive cells of `cells`.
pub open spec fn chunk<T>(cells: Seq<T>, chunk_len: int, i: int) -> Seq<T> {
    cells.subrange(i * chunk_len, (i + 1) * chunk_len)
}

/// `output` is a sequence that `kernel` may return for `input` in the given
/// direction.
pub open spec fn kernel_maps<T, K: Fn(TransformDirection, &[T]) -> Vec<T>>(
    kernel: K,
    direction: TransformDirection,
    input: Seq<T>,
    output: Seq<T>,
) -> bool {
    exists|row: &[T], out: Vec<T>|
        row@ == input && out@ == output && #[trigger] kernel.ensures((direction, row), out)
}

/// `kernel` accepts every sequence of `len` cells in the given direction and
/// answers with a sequence of the same length.
pub open spec fn kernel_ready<T, K: Fn(TransformDirection, &[T]) -> Vec<T>>(
    kernel: K,
    direction: TransformDirection,
    len: nat,
) -> bool {
    &&& forall|row: &[T]| row@.len() == len ==> #[trigger] kernel.requires((direction, row))
    &&& forall|row: &[T], out: Vec<T>|
        row@.len() == len && #[trigger] kernel.ensures((direction, row), out) ==> out@.len()
            == len
}

/// `output` has the length of `input`, and each of its chunks is what
/// `kernel` returned for the chunk of `input` at the same place.
pub open spec fn rows_transformed<T, K: Fn(TransformDirection, &[T]) -> Vec<T>>(
    kernel: K,
    direction: TransformDirection,
    input: Seq<T>,
    output: Seq<T>,
    chunk_len: nat,
) -> bool {
    &&& output.len() == input.len()
    &&& forall|i: int|
        0 <= i < input.len() / chunk_len ==> kernel_maps(
            kernel,
            direction,
            #[trigger] chunk(input, chunk_len as int, i),
            chunk(output, chunk_len as int, i),
        )
}

/// `kernel` is a function of its input: whatever it may return for one
/// sequence of `len` cells in the given direction is one and the same.
pub open spec fn kernel_deterministic<T, K: Fn(TransformDirection, &[T]) -> Vec<T>>(
    kernel: K,
    direction: TransformDirection,
    len: nat,
) -> bool {
    forall|input: Seq<T>, a: Seq<T>, b: Seq<T>|
        input.len() == len && #[trigger] kernel_maps(kernel, direction, input, a)
            && #[trigger] kernel_maps(kernel, direction, input, b) ==> a == b
}

/// A pass over a deterministic kernel has one result only.  Chunk `i` of the
/// output depends on chunk `i` of the input and on nothing else, so two
/// passes over the same input agree cell for cell, in whatever order and by
/// however many workers their chunks were computed.
pub proof fn lemma_axis_pass_deterministic<T, K: Fn(TransformDirection, &[T]) -> Vec<T>>(
    kernel: K,
    direction: TransformDirection,
    input: Seq<T>,
    chunk_len: nat,
    first: Seq<T>,
    second: Seq<T>,
)
    requires
        chunk_len > 0,
        input.len() % chunk_len == 0,
        kernel_deterministic(kernel, direction, chunk_len),
        rows_transformed(kernel, direction, input, first, chunk_len),
        rows_transformed(kernel, direction, input, second, chunk_len),
    ensures
        first == second,
{
    let n = chunk_len as int;
    let len = input.len() as int;
    vstd::arithmetic::div_mod::lemma_fundamental_div_mod(len, n);
    assert forall|p: int| 0 <= p < len implies first[p] == second[p] by {
        let i = p / n;
        vstd::arithmetic::div_mod::lemma_fundamental_div_mod(p, n);
        vstd::arithmetic::div_mod::lemma_mod_bound(p, n);
        assert(0 <= i < len / n && (i + 1) * n <= len && i * n == n * i && (i + 1) * n == i * n
            + n && 0 <= i * n) by (nonlinear_arith)
            requires
                n > 0,
                0 <= p < len,
                len == n * (len / n),
                p == n * i + p % n,
                0 <= p % n < n,
        ;
        let source = chunk(input, n, i);
        assert(source.len() == chunk_len);
        assert(kernel_maps(kernel, direction, source, chunk(first, n, i)));
        assert(kernel_maps(kernel, direction, source, chunk(second, n, i)));
        assert(chunk(first, n, i)[p % n] == first[p]);
        assert(chunk(second, n, i)[p % n] == second[p]);
    }
    assert(first =~= second);
}

/// Applies `kernel` to every chunk of `chunk_len` cells of `data`, in order,
/// and returns the results laid out like the input: chunk `i` of the output
/// comes from chunk `i` of the input and from nothing else.
pub fn axis_pass<T: Copy, K: Fn(TransformDirection, &[T]) -> Vec<T>>(
    data: &Vec<T>,
    chunk_len: usize,
    direction: TransformDirection,
    kernel: &K,
) -> (out: Vec<T>)
    requires
        chunk_len > 0,
        data@.len() % (chunk_len as nat) == 0,
        kernel_ready(*kernel, direction, chunk_len as nat),
    ensures
        rows_transformed(*kernel, direction, data@, out@, chunk_len as nat),
{
    let rows: usize = data.len() / chunk_len;
    let mut out: Vec<T> = Vec::with_capacity(data.len());
    let mut i: usize = 0;
    proof {
        vstd::arithmetic::div_mod::lemma_fundamental_div_mod(
            data@.len() as int,
            chunk_len as int,
        );
    }
    while i < rows
        invariant
            chunk_len > 0,
            i <= rows,
            data@.len() == chunk_len * rows,
            data@.len() <= usize::MAX,
            rows == data@.len() / (chunk_len as nat),
            out@.len() == i * chunk_len,
            kernel_ready(*kernel, direction, chunk_len as nat),
            forall|j: int|
                0 <= j < i ==> kernel_maps(
                    *kernel,
                    direction,
                    #[trigger] chunk(data@, chunk_len as int, j),
                    chunk(out@, chunk_len as int, j),
                ),
        decreases rows - i,
    {
        proof {
            assert(i * chunk_len + chunk_len <= chunk_len * rows) by (nonlinear_arith)
                requires
                    i < rows,
                    chunk_len > 0,
            ;
            assert((i + 1) * chunk_len == i * chunk_len + chunk_len) by (nonlinear_arith);
            assert(0 <= i * chunk_len) by (nonlinear_arith);
            assert(i * chunk_len + chunk_len <= data@.len());
        }
        let start: usize = i * chunk_len;
        let row = slice_subrange(data.as_slice(), start, start + chunk_len);
        let row_out = kernel(direction, row);
        let ghost before = out@;
        let mut k: usize = 0;
        while k < chunk_len
            invariant
                k <= chunk_len,
                row_out@.len() == chunk_len,
                out@ == before + row_out@.subrange(0, k as int),
            decreases chunk_len - k,
        {
            out.push(row_out[k]);
            k += 1;
        }
        proof {
            assert(row_out@.subrange(0, chunk_len as int) =~= row_out@);
            assert(chunk(out@, chunk_len as int, i as int) =~= row_out@);
            assert(row@ == chunk(data@, chunk_len as int, i as int));
            assert forall|j: int| 0 <= j < i implies chunk(out@, chunk_len as int, j) == chunk(
                before,
                chunk_len as int,
                j,
            ) by {
                assert((j + 1) * chunk_len <= i * chunk_len) by (nonlinear_arith)
                    requires
                        0 <= j < i,
                        chunk_len > 0,
                ;
                assert(0 <= j * chunk_len) by (nonlinear_arith)
                    requires
                        0 <= j,
                        chunk_len > 0,
                ;
                assert(j * chunk_len <= (j + 1) * chunk_len) by (nonlinear_arith)
                    requires
                        0 <= j,
                        chunk_len > 0,
                ;
                assert(chunk(out@, chunk_len as int, j) =~= chunk(before, chunk_len as int, j));
            }
        }
        i += 1;
    }
    proof {
        assert(out@.len() == data@.len()) by (nonlinear_arith)
            requires
                out@.len() == i * chunk_len,
                i == rows,
                data@.len() == chunk_len * rows,
        ;
    }
    out
}

} // verus!
