//! The separable two-dimensional transform: rows, transpose, columns,
//! transpose back.
use vstd::prelude::*;
use crate::layout::{is_grid, transpose, transposed};
use crate::pass::{
    axis_pass, kernel_deterministic, kernel_ready, lemma_axis_pass_deterministic, rows_transformed,
    TransformDirection,
};

verus! {

/// `output` is what the separable transform may give for `input`, a grid of
/// `height` rows by `width` columns: some result of the row pass, transposed,
/// gave some result of the column pass, which transposed back is `output`.
pub open spec fn separable_transformed<T, K: Fn(TransformDirection, &[T]) -> Vec<T>>(
    kernel: K,
    direction: TransformDirection,
    input: Seq<T>,
    output: Seq<T>,
    width: nat,
    height: nat,
) -> bool {
    exists|rows_done: Seq<T>, cols_done: Seq<T>|
        {
            &&& rows_transformed(kernel, direction, input, rows_done, width)
            &&& #[trigger] rows_transformed(
                kernel,
                direction,
                transposed(rows_done, width, height),
                cols_done,
                height,
            )
            &&& output == transposed(cols_done, height, width)
        }
}

/// The separable transform over a deterministic kernel has one result only:
/// any two grids that it may give for one input are equal, however the work
/// of each pass was handed out.
pub proof fn lemma_transform_deterministic<T, K: Fn(TransformDirection, &[T]) -> Vec<T>>(
    kernel: K,
    direction: TransformDirection,
    input: Seq<T>,
    width: nat,
    height: nat,
    first: Seq<T>,
    second: Seq<T>,
)
    requires
        is_grid(input.len(), width, height),
        kernel_deterministic(kernel, direction, width),
        kernel_deterministic(kernel, direction, height),
        separable_transformed(kernel, direction, input, first, width, height),
        separable_transformed(kernel, direction, input, second, width, height),
    ensures
        first == second,
{
    let (rows_a, cols_a) = choose|rows_done: Seq<T>, cols_done: Seq<T>|
        {
            &&& rows_transformed(kernel, direction, input, rows_done, width)
            &&& #[trigger] rows_transformed(
                kernel,
                direction,
                transposed(rows_done, width, height),
                cols_done,
                height,
            )
            &&& first == transposed(cols_done, height, width)
        };
    let (rows_b, cols_b) = choose|rows_done: Seq<T>, cols_done: Seq<T>|
        {
            &&& rows_transformed(kernel, direction, input, rows_done, width)
            &&& #[trigger] rows_transformed(
                kernel,
                direction,
                transposed(rows_done, width, height),
                cols_done,
                height,
            )
            &&& second == transposed(cols_done, height, width)
        };
    vstd::arithmetic::div_mod::lemma_mod_multiples_basic(height as int, width as int);
    vstd::arithmetic::div_mod::lemma_mod_multiples_basic(width as int, height as int);
    assert(width * height == height * width) by (nonlinear_arith);
    lemma_axis_pass_deterministic(kernel, direction, input, width, rows_a, rows_b);
    let turned = transposed(rows_a, width, height);
    lemma_axis_pass_deterministic(kernel, direction, turned, height, cols_a, cols_b);
}

/// Runs `kernel` in the given direction over the `height` rows of the grid,
/// then over its `width` columns, and returns the grid in its first
/// orientation.
pub fn transform_2d<T: Copy, K: Fn(TransformDirection, &[T]) -> Vec<T>>(
    data: Vec<T>,
    width: u32,
    height: u32,
    direction: TransformDirection,
    kernel: &K,
) -> (out: Vec<T>)
    requires
        is_grid(data@.len(), width as nat, height as nat),
        kernel_ready(*kernel, direction, width as nat),
        kernel_ready(*kernel, direction, height as nat),
    ensures
        out@.len() == data@.len(),
        separable_transformed(*kernel, direction, data@, out@, width as nat, height as nat),
{
    let w: usize = width as usize;
    let h: usize = height as usize;
    let mut grid = data;
    proof {
        vstd::arithmetic::div_mod::lemma_mod_multiples_basic(h as int, w as int);
        vstd::arithmetic::div_mod::lemma_mod_multiples_basic(w as int, h as int);
        assert(w * h == h * w) by (nonlinear_arith);
    }
    let rows_done = axis_pass(&grid, w, direction, kernel);
    transpose(&rows_done, &mut grid, w, h);
    let cols_done = axis_pass(&grid, h, direction, kernel);
    transpose(&cols_done, &mut grid, h, w);
    grid
}

/// The forward transform of a grid of samples: `kernel` is applied in the
/// forward direction along both axes.
pub fn forward_transform<T: Copy, K: Fn(TransformDirection, &[T]) -> Vec<T>>(
    spatial_grid: Vec<T>,
    width: u32,
    height: u32,
    kernel: &K,
) -> (coefficients: Vec<T>)
    requires
        is_grid(spatial_grid@.len(), width as nat, height as nat),
        kernel_ready(*kernel, TransformDirection::Forward, width as nat),
        kernel_ready(*kernel, TransformDirection::Forward, height as nat),
    ensures
        coefficients@.len() == spatial_grid@.len(),
        separable_transformed(
            *kernel,
            TransformDirection::Forward,
            spatial_grid@,
            coefficients@,
            width as nat,
            height as nat,
        ),
{
    transform_2d(spatial_grid, width, height, TransformDirection::Forward, kernel)
}

/// The inverse transform of a grid of coefficients: `kernel` is applied in
/// the inverse direction along both axes.
pub fn inverse_transform<T: Copy, K: Fn(TransformDirection, &[T]) -> Vec<T>>(
    freq_grid: Vec<T>,
    width: u32,
    height: u32,
    kernel: &K,
) -> (samples: Vec<T>)
    requires
        is_grid(freq_grid@.len(), width as nat, height as nat),
        kernel_ready(*kernel, TransformDirection::Inverse, width as nat),
        kernel_ready(*kernel, TransformDirection::Inverse, height as nat),
    ensures
        samples@.len() == freq_grid@.len(),
        separable_transformed(
            *kernel,
            TransformDirection::Inverse,
            freq_grid@,
            samples@,
            width as nat,
            height as nat,
        ),
{
    transform_2d(freq_grid, width, height, TransformDirection::Inverse, kernel)
}

} // verus!
