//! The low-frequency mask: coefficients outside a rectangle at the origin are
//! replaced by zero.
use vstd::prelude::*;
use vstd::arithmetic::power2::{lemma_pow2_pos, lemma_pow2_strictly_increases, pow2};
use crate::layout::{is_grid, lemma_cell_join, lemma_cell_split};

verus! {

/// A fraction in (0, 1], held exactly as `mantissa / 2^shift`.
#[derive(Clone, Copy, Debug)]
pub struct KeepFraction {
    mantissa: u32,
    shift: u32,
}

/// `index < (numer / 2^log2_denom) * extent`, in exact arithmetic.
pub open spec fn below_fraction(numer: nat, log2_denom: nat, index: int, extent: int) -> bool {
    index * pow2(log2_denom) < numer * extent
}

/// The least count `c` with `c * unit >= amount`: `amount / unit` rounded up.
pub open spec fn ceil_div(amount: int, unit: int) -> int {
    if amount % unit == 0 {
        amount / unit
    } else {
        amount / unit + 1
    }
}

/// An index lies below `amount / unit` exactly when it lies below that
/// quotient rounded up.
pub proof fn lemma_ceil_div(amount: int, unit: int, index: int)
    requires
        unit > 0,
        amount >= 0,
    ensures
        index * unit < amount <==> index < ceil_div(amount, unit),
        0 <= ceil_div(amount, unit),
{
    vstd::arithmetic::div_mod::lemma_fundamental_div_mod(amount, unit);
    vstd::arithmetic::div_mod::lemma_mod_bound(amount, unit);
    let q = amount / unit;
    let r = amount % unit;
    assert(q >= 0) by (nonlinear_arith)
        requires
            amount == unit * q + r,
            0 <= r < unit,
            amount >= 0,
            unit > 0,
    ;
    if index < q {
        assert(index * unit < amount) by (nonlinear_arith)
            requires
                index < q,
                amount == unit * q + r,
                0 <= r,
                unit > 0,
        ;
    } else if index == q {
        assert(index * unit == unit * q) by (nonlinear_arith)
            requires
                index == q,
        ;
    } else {
        assert(index * unit >= amount) by (nonlinear_arith)
            requires
                index > q,
                amount == unit * q + r,
                r < unit,
                unit > 0,
        ;
    }
}

/// The sign bit of a binary32 bit pattern is set.
pub open spec fn binary32_negative(bits: u32) -> bool {
    bits >= 0x8000_0000
}

/// The eight-bit exponent field of a binary32 bit pattern.
pub open spec fn binary32_exponent(bits: u32) -> nat {
    ((bits as nat) / 0x80_0000) % 0x100
}

/// The twenty-three-bit fraction field of a binary32 bit pattern.
pub open spec fn binary32_fraction(bits: u32) -> nat {
    (bits as nat) % 0x80_0000
}

/// The significand of the finite binary32 value with this bit pattern, as an
/// integer: the fraction field, with the implicit leading bit unless the value
/// is subnormal.
pub open spec fn binary32_significand(bits: u32) -> nat {
    if binary32_exponent(bits) == 0 {
        binary32_fraction(bits)
    } else {
        0x80_0000 + binary32_fraction(bits)
    }
}

/// The magnitude of a binary32 value with an exponent field of at most 150 is
/// its significand divided by two to this power.
pub open spec fn binary32_scale(bits: u32) -> nat {
    if binary32_exponent(bits) == 0 {
        149
    } else {
        (150 - binary32_exponent(bits)) as nat
    }
}

/// The binary32 value with this bit pattern is greater than zero and at most
/// one.
pub open spec fn binary32_in_unit_interval(bits: u32) -> bool {
    &&& !binary32_negative(bits)
    &&& binary32_significand(bits) > 0
    &&& binary32_exponent(bits) < 127 || (binary32_exponent(bits) == 127 && binary32_fraction(bits)
        == 0)
}

impl KeepFraction {
    /// The numerator of the fraction.
    pub closed spec fn numer(&self) -> nat {
        self.mantissa as nat
    }

    /// The exponent of the power of two that is the denominator.
    pub closed spec fn log2_denom(&self) -> nat {
        self.shift as nat
    }

    /// The fraction is positive and at most one.
    pub open spec fn wf(&self) -> bool {
        0 < self.numer() <= pow2(self.log2_denom())
    }

    /// The fraction equals one.
    pub open spec fn is_one(&self) -> bool {
        self.numer() == pow2(self.log2_denom())
    }

    /// `index` lies strictly below this fraction of `extent`.
    pub open spec fn admits(&self, index: int, extent: int) -> bool {
        below_fraction(self.numer(), self.log2_denom(), index, extent)
    }

    /// This fraction is at most `other`.
    pub open spec fn at_most(&self, other: &KeepFraction) -> bool {
        self.numer() * pow2(other.log2_denom()) <= other.numer() * pow2(self.log2_denom())
    }

    /// The fraction `mantissa / 2^shift`, if it is positive and at most one.
    pub fn new(mantissa: u32, shift: u32) -> (r: Option<KeepFraction>)
        ensures
            r.is_some() <==> 0 < mantissa <= pow2(shift as nat),
            r matches Some(k) ==> k.wf() && k.numer() == mantissa && k.log2_denom() == shift,
    {
        if mantissa == 0 {
            return None;
        }
        if shift >= 32 {
            proof {
                vstd::arithmetic::power2::lemma2_to64();
                if shift > 32 {
                    lemma_pow2_strictly_increases(32, shift as nat);
                }
            }
            return Some(KeepFraction { mantissa, shift });
        }
        let bound: u64 = 1u64 << (shift as u64);
        proof {
            vstd::bits::lemma_u64_pow2_no_overflow(shift as nat);
            vstd::bits::lemma_u64_shl_is_mul(1u64, shift as u64);
        }
        if mantissa as u64 <= bound {
            Some(KeepFraction { mantissa, shift })
        } else {
            None
        }
    }

    /// The fraction one: everything is kept.
    pub fn one() -> (k: KeepFraction)
        ensures
            k.wf(),
            k.is_one(),
            k.numer() == 1,
            k.log2_denom() == 0,
    {
        proof {
            vstd::arithmetic::power2::lemma2_to64();
        }
        KeepFraction { mantissa: 1, shift: 0 }
    }

    /// The fraction that a binary32 bit pattern denotes, exactly, if that
    /// value is greater than zero and at most one; `None` for every other
    /// pattern (zero, negative values, values above one, infinities, NaN).
    pub fn from_bits(bits: u32) -> (r: Option<KeepFraction>)
        ensures
            r.is_some() <==> binary32_in_unit_interval(bits),
            r matches Some(k) ==> k.wf() && k.numer() == binary32_significand(bits)
                && k.log2_denom() == binary32_scale(bits),
    {
        if bits >= 0x8000_0000 {
            return None;
        }
        let exponent: u32 = (bits / 0x80_0000) % 0x100;
        let fraction: u32 = bits % 0x80_0000;
        proof {
            vstd::arithmetic::power2::lemma2_to64();
            lemma_pow2_strictly_increases(24, 149);
        }
        if exponent == 0 {
            if fraction == 0 {
                None
            } else {
                Some(KeepFraction { mantissa: fraction, shift: 149 })
            }
        } else if exponent < 127 {
            proof {
                if exponent < 126 {
                    lemma_pow2_strictly_increases(24, (150 - exponent) as nat);
                }
            }
            Some(KeepFraction { mantissa: 0x80_0000 + fraction, shift: 150 - exponent })
        } else if exponent == 127 && fraction == 0 {
            Some(KeepFraction { mantissa: 0x80_0000, shift: 23 })
        } else {
            None
        }
    }

    /// The numerator, as held.
    pub fn mantissa(&self) -> (m: u32)
        ensures
            m == self.numer(),
    {
        self.mantissa
    }

    /// The exponent of the denominator, as held.
    pub fn shift(&self) -> (s: u32)
        ensures
            s == self.log2_denom(),
    {
        self.shift
    }

    /// The number of indices of an axis of `extent` cells that lie below this
    /// fraction of it: `fraction * extent`, rounded up.
    pub fn cutoff(&self, extent: u32) -> (count: u32)
        requires
            self.wf(),
        ensures
            count <= extent,
            count == ceil_div(self.numer() * extent, pow2(self.log2_denom()) as int),
            forall|index: int| 0 <= index ==> (index < count <==> self.admits(index, extent as int)),
    {
        proof {
            assert(0 <= self.mantissa * extent <= 0xffff_ffff * 0xffff_ffff) by (nonlinear_arith)
                requires
                    0 <= self.mantissa <= 0xffff_ffff,
                    0 <= extent <= 0xffff_ffff,
            ;
        }
        let amount: u64 = (self.mantissa as u64) * (extent as u64);
        let ghost unit = pow2(self.shift as nat) as int;
        proof {
            lemma_pow2_pos(self.shift as nat);
            assert(self.mantissa * extent <= unit * extent) by (nonlinear_arith)
                requires
                    self.mantissa <= unit,
                    0 <= extent,
            ;
            assert forall|index: int| 0 <= index implies (index < ceil_div(amount as int, unit)
                <==> self.admits(index, extent as int)) by {
                lemma_ceil_div(amount as int, unit, index);
            }
            lemma_ceil_div(amount as int, unit, extent as int);
            assert(extent * unit == unit * extent) by (nonlinear_arith);
        }
        if self.shift >= 64 {
            proof {
                vstd::arithmetic::power2::lemma2_to64_rest();
                if self.shift > 64 {
                    lemma_pow2_strictly_increases(64, self.shift as nat);
                }
                vstd::arithmetic::div_mod::lemma_small_mod(amount as nat, unit as nat);
                vstd::arithmetic::div_mod::lemma_basic_div(amount as int, unit);
            }
            if amount > 0 {
                1
            } else {
                0
            }
        } else {
            let unit_exec: u64 = 1u64 << (self.shift as u64);
            proof {
                vstd::bits::lemma_u64_pow2_no_overflow(self.shift as nat);
                vstd::bits::lemma_u64_shl_is_mul(1u64, self.shift as u64);
            }
            let whole: u64 = amount / unit_exec;
            if amount % unit_exec == 0 {
                whole as u32
            } else {
                (whole + 1) as u32
            }
        }
    }
}

/// The grid in which every cell whose row lies below `keep_height` of the
/// height and whose column lies below `keep_width` of the width is that of
/// `cells`, and every other cell is `zero`.
pub open spec fn masked<T>(
    cells: Seq<T>,
    width: nat,
    height: nat,
    keep_width: KeepFraction,
    keep_height: KeepFraction,
    zero: T,
) -> Seq<T> {
    Seq::new(
        cells.len(),
        |i: int|
            if keep_height.admits(i / (width as int), height as int) && keep_width.admits(
                i % (width as int),
                width as int,
            ) {
                cells[i]
            } else {
                zero
            },
    )
}

/// Keeps the coefficients of the rectangle at the origin that spans
/// `keep_width` of the width and `keep_height` of the height, and replaces
/// every other coefficient by `zero`.
pub fn mask_region<T: Copy>(
    freq_grid: Vec<T>,
    width: u32,
    height: u32,
    keep_width: KeepFraction,
    keep_height: KeepFraction,
    zero: T,
) -> (out: Vec<T>)
    requires
        is_grid(freq_grid@.len(), width as nat, height as nat),
        keep_width.wf(),
        keep_height.wf(),
    ensures
        out@ == masked(freq_grid@, width as nat, height as nat, keep_width, keep_height, zero),
{
    let kept_cols: u32 = keep_width.cutoff(width);
    let kept_rows: u32 = keep_height.cutoff(height);
    let mut grid = freq_grid;
    let ghost cells = grid@;
    proof {
        assert(grid@.len() == grid.len());
    }
    let ghost target = masked(cells, width as nat, height as nat, keep_width, keep_height, zero);
    let mut row: u32 = 0;
    let mut i: usize = 0;
    while row < height
        invariant
            row <= height,
            width > 0,
            i == row * width,
            i <= cells.len(),
            cells.len() == width * height,
            cells.len() <= usize::MAX,
            grid@.len() == cells.len(),
            target == masked(cells, width as nat, height as nat, keep_width, keep_height, zero),
            forall|index: int|
                0 <= index ==> (index < kept_cols <==> keep_width.admits(index, width as int)),
            forall|index: int|
                0 <= index ==> (index < kept_rows <==> keep_height.admits(index, height as int)),
            forall|j: int| 0 <= j < i ==> grid@[j] == target[j],
            forall|j: int| i <= j < grid@.len() ==> grid@[j] == cells[j],
        decreases height - row,
    {
        proof {
            assert(row * width <= width * height) by (nonlinear_arith)
                requires
                    row < height,
                    width >= 0,
            ;
        }
        let mut col: u32 = 0;
        while col < width
            invariant
                row < height,
                col <= width,
                i == row * width + col,
                i <= cells.len(),
                cells.len() == width * height,
                cells.len() <= usize::MAX,
                grid@.len() == cells.len(),
                target == masked(
                    cells,
                    width as nat,
                    height as nat,
                    keep_width,
                    keep_height,
                    zero,
                ),
                forall|index: int|
                    0 <= index ==> (index < kept_cols <==> keep_width.admits(index, width as int)),
                forall|index: int|
                    0 <= index ==> (index < kept_rows <==> keep_height.admits(
                        index,
                        height as int,
                    )),
                forall|j: int| 0 <= j < i ==> grid@[j] == target[j],
                forall|j: int| i <= j < grid@.len() ==> grid@[j] == cells[j],
            decreases width - col,
        {
            proof {
                lemma_cell_join(width as int, height as int, row as int, col as int);
            }
            if row >= kept_rows || col >= kept_cols {
                grid.set(i, zero);
            }
            col = col + 1;
            i = i + 1;
        }
        proof {
            assert((row + 1) * width == row * width + width) by (nonlinear_arith);
            assert((row + 1) * width <= width * height) by (nonlinear_arith)
                requires
                    row < height,
                    width >= 0,
            ;
        }
        row = row + 1;
    }
    proof {
        assert(height * width == width * height) by (nonlinear_arith);
        assert(grid@ =~= target);
    }
    grid
}

/// Keeps the low-frequency corner of a grid of coefficients: the same
/// fraction of both axes, measured from cell (0, 0).
pub fn apply_low_frequency_mask<T: Copy>(
    freq_grid: Vec<T>,
    width: u32,
    height: u32,
    keep_fraction: KeepFraction,
    zero: T,
) -> (out: Vec<T>)
    requires
        is_grid(freq_grid@.len(), width as nat, height as nat),
        keep_fraction.wf(),
    ensures
        out@ == masked(freq_grid@, width as nat, height as nat, keep_fraction, keep_fraction, zero),
{
    mask_region(freq_grid, width, height, keep_fraction, keep_fraction, zero)
}

/// Keeping the whole of both axes changes nothing.
pub proof fn lemma_mask_full_is_identity<T>(
    cells: Seq<T>,
    width: nat,
    height: nat,
    keep_width: KeepFraction,
    keep_height: KeepFraction,
    zero: T,
)
    requires
        is_grid(cells.len(), width, height),
        keep_width.is_one(),
        keep_height.is_one(),
    ensures
        masked(cells, width, height, keep_width, keep_height, zero) == cells,
{
    let result = masked(cells, width, height, keep_width, keep_height, zero);
    assert forall|i: int| 0 <= i < cells.len() implies result[i] == cells[i] by {
        lemma_cell_split(width as int, height as int, i);
        lemma_one_admits(keep_width, i % (width as int), width as int);
        lemma_one_admits(keep_height, i / (width as int), height as int);
    }
    assert(result =~= cells);
}

/// The fraction one admits exactly the indices below the extent.
proof fn lemma_one_admits(keep: KeepFraction, index: int, extent: int)
    requires
        keep.is_one(),
    ensures
        keep.admits(index, extent) <==> index < extent,
{
    let unit = pow2(keep.log2_denom()) as int;
    lemma_pow2_pos(keep.log2_denom());
    assert(index * unit < unit * extent <==> index < extent) by (nonlinear_arith)
        requires
            unit > 0,
    ;
}

/// What a fraction admits, every fraction that is at least as large admits
/// too.
pub proof fn lemma_admits_monotone(
    smaller: KeepFraction,
    larger: KeepFraction,
    index: int,
    extent: int,
)
    requires
        smaller.at_most(&larger),
        0 <= extent,
        smaller.admits(index, extent),
    ensures
        larger.admits(index, extent),
{
    let ns = smaller.numer() as int;
    let us = pow2(smaller.log2_denom()) as int;
    let nl = larger.numer() as int;
    let ul = pow2(larger.log2_denom()) as int;
    lemma_pow2_pos(smaller.log2_denom());
    lemma_pow2_pos(larger.log2_denom());
    assert(index * ul < nl * extent) by (nonlinear_arith)
        requires
            index * us < ns * extent,
            ns * ul <= nl * us,
            us > 0,
            ul > 0,
            0 <= extent,
    {
        assert((index * us) * ul < (ns * extent) * ul);
        assert((ns * ul) * extent <= (nl * us) * extent);
        assert((index * ul) * us < (nl * extent) * us);
    }
}

/// The coefficients that survive a mask grow with its fractions: a cell kept
/// under the smaller fractions is kept under the larger ones, so masking
/// with the larger ones first loses nothing that the smaller ones keep.
pub proof fn lemma_mask_monotone<T>(
    cells: Seq<T>,
    width: nat,
    height: nat,
    smaller_width: KeepFraction,
    smaller_height: KeepFraction,
    larger_width: KeepFraction,
    larger_height: KeepFraction,
    zero: T,
)
    requires
        is_grid(cells.len(), width, height),
        smaller_width.at_most(&larger_width),
        smaller_height.at_most(&larger_height),
    ensures
        masked(
            masked(cells, width, height, larger_width, larger_height, zero),
            width,
            height,
            smaller_width,
            smaller_height,
            zero,
        ) == masked(cells, width, height, smaller_width, smaller_height, zero),
{
    let once = masked(cells, width, height, larger_width, larger_height, zero);
    let twice = masked(once, width, height, smaller_width, smaller_height, zero);
    let direct = masked(cells, width, height, smaller_width, smaller_height, zero);
    assert forall|i: int| 0 <= i < cells.len() implies twice[i] == direct[i] by {
        let row = i / (width as int);
        let col = i % (width as int);
        if smaller_height.admits(row, height as int) && smaller_width.admits(col, width as int) {
            lemma_admits_monotone(smaller_height, larger_height, row, height as int);
            lemma_admits_monotone(smaller_width, larger_width, col, width as int);
        }
    }
    assert(twice =~= direct);
}

/// A mask whose fractions cover at most one cell of each axis keeps the cell
/// at the origin and nothing else.
pub proof fn lemma_mask_origin_only<T>(
    cells: Seq<T>,
    width: nat,
    height: nat,
    keep_width: KeepFraction,
    keep_height: KeepFraction,
    zero: T,
)
    requires
        is_grid(cells.len(), width, height),
        keep_width.wf(),
        keep_height.wf(),
        keep_width.numer() * width <= pow2(keep_width.log2_denom()),
        keep_height.numer() * height <= pow2(keep_height.log2_denom()),
    ensures
        masked(cells, width, height, keep_width, keep_height, zero) == Seq::new(
            cells.len(),
            |i: int|
                if i == 0 {
                    cells[0]
                } else {
                    zero
                },
        ),
{
    let result = masked(cells, width, height, keep_width, keep_height, zero);
    let expected = Seq::new(
        cells.len(),
        |i: int|
            if i == 0 {
                cells[0]
            } else {
                zero
            },
    );
    assert forall|i: int| 0 <= i < cells.len() implies result[i] == expected[i] by {
        let w = width as int;
        let h = height as int;
        lemma_cell_split(w, h, i);
        let row = i / w;
        let col = i % w;
        let uw = pow2(keep_width.log2_denom()) as int;
        let uh = pow2(keep_height.log2_denom()) as int;
        let nw = keep_width.numer() as int;
        let nh = keep_height.numer() as int;
        if i == 0 {
            assert(0 * uh < nh * h) by (nonlinear_arith)
                requires
                    nh > 0,
                    h > 0,
            ;
            assert(0 * uw < nw * w) by (nonlinear_arith)
                requires
                    nw > 0,
                    w > 0,
            ;
        } else if row >= 1 {
            assert(row * uh >= nh * h) by (nonlinear_arith)
                requires
                    row >= 1,
                    nh * h <= uh,
                    uh >= 0,
            ;
        } else {
            assert(row * w == 0) by (nonlinear_arith)
                requires
                    row == 0,
            ;
            assert(col >= 1);
            assert(col * uw >= nw * w) by (nonlinear_arith)
                requires
                    col >= 1,
                    nw * w <= uw,
                    uw >= 0,
            ;
        }
    }
    assert(result =~= expected);
}

} // verus!
