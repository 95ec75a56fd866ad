//! The grid: a dense `N x N` amplitude field with a coincident per-cell
//! parameter field (propagation ratio `c`, damping ratio `k`), point access
//! and radial-pulse seeding.

use vstd::prelude::*;

verus! {

use vstd::arithmetic::div_mod::{
    lemma_div_is_ordered,
    lemma_div_pos_is_pos,
    lemma_mod_bound,
    lemma_multiply_divide_lt,
};
use crate::fixed::{fp_mul_spec, fp_mul_wide, gauss_kernel, gauss_kernel_spec};
use crate::{
    COORD_LIMIT, DEFAULT_DAMPING, DEFAULT_PROPAGATION, MAX_SIZE, SCALE, SIGMA_MAX, SIGMA_MIN,
    SimError,
};

/// Dense square field of amplitudes plus per-cell medium parameters, all
/// row-major with `size * size` entries.
pub struct Space {
    /// Amplitudes, cell `(x, y)` at index `x + y * size`.
    pub space: Vec<i64>,
    /// Per-cell propagation ratio `c`, each in `[0, SCALE]`.
    pub params_c: Vec<i64>,
    /// Per-cell damping ratio `k`, each nonnegative.
    pub params_k: Vec<i64>,
    /// Side length `N`, fixed for the grid's lifetime.
    pub size: usize,
}

impl Space {
    /// Both fields hold exactly `size * size` cells and every parameter pair
    /// is in its documented range.
    pub open spec fn wf(self) -> bool {
        &&& self.size <= MAX_SIZE
        &&& self.space@.len() == self.size * self.size
        &&& self.params_c@.len() == self.size * self.size
        &&& self.params_k@.len() == self.size * self.size
        &&& forall|i: int|
            0 <= i < self.params_c@.len() ==> 0 <= #[trigger] self.params_c@[i] <= SCALE
        &&& forall|i: int| 0 <= i < self.params_k@.len() ==> 0 <= #[trigger] self.params_k@[i]
    }

    /// A grid of the given size, at rest: all amplitudes zero, every cell's
    /// parameters at the defaults.
    pub fn new(size: usize) -> (s: Space)
        requires
            size <= MAX_SIZE,
        ensures
            s.wf(),
            s.size == size,
            forall|i: int| 0 <= i < s.space@.len() ==> #[trigger] s.space@[i] == 0,
            forall|i: int|
                0 <= i < s.params_c@.len() ==> #[trigger] s.params_c@[i] == DEFAULT_PROPAGATION,
            forall|i: int|
                0 <= i < s.params_k@.len() ==> #[trigger] s.params_k@[i] == DEFAULT_DAMPING,
    {
        proof {
            assert(size * size <= MAX_SIZE * MAX_SIZE) by (nonlinear_arith)
                requires
                    size <= MAX_SIZE,
            ;
        }
        let len = size * size;
        Space {
            space: filled(len, 0),
            params_c: filled(len, DEFAULT_PROPAGATION),
            params_k: filled(len, DEFAULT_DAMPING),
            size,
        }
    }

    /// The amplitude at `(x, y)`; out-of-range coordinates are an error, not
    /// a fault.
    pub fn get(&self, x: usize, y: usize) -> (r: Result<i64, SimError>)
        requires
            self.wf(),
        ensures
            x < self.size && y < self.size ==> r == Ok::<i64, SimError>(
                self.space@[x + y * self.size],
            ),
            !(x < self.size && y < self.size) ==> r == Err::<i64, SimError>(
                SimError::IndexOutOfRange,
            ),
    {
        if x < self.size && y < self.size {
            proof {
                lemma_cell_index_in_range(x as int, y as int, self.size as int);
            }
            Ok(self.space[x + y * self.size])
        } else {
            Err(SimError::IndexOutOfRange)
        }
    }

    /// Overwrite the amplitude at `(x, y)`; out-of-range coordinates are an
    /// error and leave the grid unchanged.
    pub fn put(&mut self, x: usize, y: usize, value: i64) -> (r: Result<(), SimError>)
        requires
            old(self).wf(),
        ensures
            final(self).wf(),
            final(self).size == old(self).size,
            final(self).params_c@ == old(self).params_c@,
            final(self).params_k@ == old(self).params_k@,
            x < old(self).size && y < old(self).size ==> r == Ok::<(), SimError>(())
                && final(self).space@ == old(self).space@.update(
                x + y * old(self).size,
                value,
            ),
            !(x < old(self).size && y < old(self).size) ==> r == Err::<(), SimError>(
                SimError::IndexOutOfRange,
            ) && final(self).space@ == old(self).space@,
    {
        if x < self.size && y < self.size {
            proof {
                lemma_cell_index_in_range(x as int, y as int, self.size as int);
            }
            self.space.set(x + y * self.size, value);
            Ok(())
        } else {
            Err(SimError::IndexOutOfRange)
        }
    }

    /// The candidate amplitude field after a radial pulse, without
    /// committing it; `Err` reports bad arguments or a cell leaving the
    /// representable range, and in either case nothing is mutated.
    pub fn gauss_candidate(&self, cx: i64, cy: i64, sigma: i64, power: i64) -> (r: Result<
        Vec<i64>,
        SimError,
    >)
        requires
            self.wf(),
        ensures
            !gauss_args_ok(cx, cy, sigma) ==> r == Err::<Vec<i64>, SimError>(
                SimError::InvalidParameter,
            ),
            gauss_args_ok(cx, cy, sigma) && !gauss_fits(
                self.space@,
                self.size as int,
                cx,
                cy,
                sigma,
                power,
            ) ==> r == Err::<Vec<i64>, SimError>(SimError::NumericInstability),
            gauss_args_ok(cx, cy, sigma) && gauss_fits(
                self.space@,
                self.size as int,
                cx,
                cy,
                sigma,
                power,
            ) ==> {
                &&& r is Ok
                &&& r->Ok_0@.len() == self.space@.len()
                &&& forall|i: int|
                    0 <= i < self.space@.len() ==> #[trigger] r->Ok_0@[i] == gauss_cell_spec(
                        self.space@,
                        self.size as int,
                        cx,
                        cy,
                        sigma,
                        power,
                        i,
                    )
            },
    {
        if !(-COORD_LIMIT <= cx && cx <= COORD_LIMIT && -COORD_LIMIT <= cy && cy <= COORD_LIMIT
            && SIGMA_MIN <= sigma && sigma <= SIGMA_MAX) {
            return Err(SimError::InvalidParameter);
        }
        proof {
            assert(SIGMA_MIN * SIGMA_MIN <= sigma * sigma <= SIGMA_MAX * SIGMA_MAX)
                by (nonlinear_arith)
                requires
                    SIGMA_MIN <= sigma <= SIGMA_MAX,
            ;
            lemma_div_is_ordered(SIGMA_MIN * SIGMA_MIN, sigma * sigma, SCALE as int);
            lemma_div_is_ordered(sigma * sigma, SIGMA_MAX * SIGMA_MAX, SCALE as int);
        }
        let s2_wide: i128 = fp_mul_wide(sigma as i128, sigma as i128);
        let s2: i64 = s2_wide as i64;
        let n = self.size;
        let len = self.space.len();
        let mut out: Vec<i64> = Vec::new();
        let mut i: usize = 0;
        while i < len
            invariant
                self.wf(),
                n == self.size,
                len == self.space@.len(),
                gauss_args_ok(cx, cy, sigma),
                s2 == fp_mul_spec(sigma as int, sigma as int),
                1 <= s2 <= 1_000_000_000_000_000_000,
                0 <= i <= len,
                out@.len() == i,
                forall|j: int|
                    0 <= j < i ==> #[trigger] out@[j] == gauss_cell_spec(
                        self.space@,
                        self.size as int,
                        cx,
                        cy,
                        sigma,
                        power,
                        j,
                    ),
            decreases len - i,
        {
            proof {
                assert(n * n > 0 ==> n >= 1) by (nonlinear_arith);
                lemma_mod_bound(i as int, n as int);
                lemma_multiply_divide_lt(i as int, n as int, n as int);
            }
            let x = i % n;
            let y = i / n;
            let dx = cx - (x as i64) * SCALE;
            let dy = cy - (y as i64) * SCALE;
            proof {
                lemma_sq_fp_bounds(dx as int);
                lemma_sq_fp_bounds(dy as int);
            }
            let dx2 = fp_mul_wide(dx as i128, dx as i128) as i64;
            let dy2 = fp_mul_wide(dy as i128, dy as i128) as i64;
            let r2 = dx2 + dy2;
            let kernel = gauss_kernel(r2, s2);
            proof {
                crate::fixed::lemma_fp_mul_bounds(
                    kernel as int,
                    power as int,
                    crate::fixed::INV_SQRT_2PI as int,
                    9_223_372_036_854_775_808int,
                );
            }
            let pulse: i128 = fp_mul_wide(kernel as i128, power as i128);
            let with_pulse: i128 = (self.space[i] as i128) + pulse;
            proof {
                assert(r2 == dist2_spec(cx as int, cy as int, i as int % self.size as int, i as int / self.size as int));
                assert(gauss_cell_spec(
                    self.space@,
                    self.size as int,
                    cx,
                    cy,
                    sigma,
                    power,
                    i as int,
                ) == with_pulse as int);
            }
            if with_pulse < i64::MIN as i128 || with_pulse > i64::MAX as i128 {
                return Err(SimError::NumericInstability);
            }
            out.push(with_pulse as i64);
            i = i + 1;
        }
        proof {
            assert forall|j: int| 0 <= j < len implies i64::MIN <= #[trigger] gauss_cell_spec(
                self.space@,
                self.size as int,
                cx,
                cy,
                sigma,
                power,
                j,
            ) <= i64::MAX by {
                assert(out@[j] == gauss_cell_spec(
                    self.space@,
                    self.size as int,
                    cx,
                    cy,
                    sigma,
                    power,
                    j,
                ));
            }
        }
        Ok(out)
    }

    /// Add a radial pulse: every cell gains `power * kernel(distance)` where
    /// the kernel is `gauss_kernel_spec` of the squared distance to the
    /// center `(cx, cy)` (all arguments fixed-point). All-or-nothing: on any
    /// error the grid is untouched.
    pub fn add_gauss(&mut self, cx: i64, cy: i64, sigma: i64, power: i64) -> (r: Result<
        (),
        SimError,
    >)
        requires
            old(self).wf(),
        ensures
            final(self).wf(),
            final(self).size == old(self).size,
            final(self).params_c@ == old(self).params_c@,
            final(self).params_k@ == old(self).params_k@,
            !gauss_args_ok(cx, cy, sigma) ==> r == Err::<(), SimError>(SimError::InvalidParameter)
                && final(self).space@ == old(self).space@,
            gauss_args_ok(cx, cy, sigma) && !gauss_fits(
                old(self).space@,
                old(self).size as int,
                cx,
                cy,
                sigma,
                power,
            ) ==> r == Err::<(), SimError>(SimError::NumericInstability) && final(self).space@
                == old(self).space@,
            gauss_args_ok(cx, cy, sigma) && gauss_fits(
                old(self).space@,
                old(self).size as int,
                cx,
                cy,
                sigma,
                power,
            ) ==> {
                &&& r == Ok::<(), SimError>(())
                &&& final(self).space@.len() == old(self).space@.len()
                &&& forall|i: int|
                    0 <= i < old(self).space@.len() ==> #[trigger] final(self).space@[i]
                        == gauss_cell_spec(
                        old(self).space@,
                        old(self).size as int,
                        cx,
                        cy,
                        sigma,
                        power,
                        i,
                    )
            },
    {
        let cand = match self.gauss_candidate(cx, cy, sigma, power) {
            Ok(v) => v,
            Err(e) => {
                return Err(e);
            },
        };
        self.space = cand;
        Ok(())
    }
}

/// Valid seeding arguments: the center within reach of the grid and the
/// width in the range the fixed-point kernel can evaluate.
pub open spec fn gauss_args_ok(cx: i64, cy: i64, sigma: i64) -> bool {
    &&& -COORD_LIMIT <= cx <= COORD_LIMIT
    &&& -COORD_LIMIT <= cy <= COORD_LIMIT
    &&& SIGMA_MIN <= sigma <= SIGMA_MAX
}

/// Squared Euclidean distance (fixed-point) from cell `(x, y)` to the
/// fixed-point center `(cx, cy)`.
pub open spec fn dist2_spec(cx: int, cy: int, x: int, y: int) -> int {
    fp_mul_spec(cx - x * SCALE, cx - x * SCALE) + fp_mul_spec(cy - y * SCALE, cy - y * SCALE)
}

/// The amplitude cell `i` would hold after the pulse, as an unbounded
/// integer (row-major: `x = i % n`, `y = i / n`).
pub open spec fn gauss_cell_spec(
    amp: Seq<i64>,
    n: int,
    cx: i64,
    cy: i64,
    sigma: i64,
    power: i64,
    i: int,
) -> int {
    amp[i] + fp_mul_spec(
        gauss_kernel_spec(
            dist2_spec(cx as int, cy as int, i % n, i / n),
            fp_mul_spec(sigma as int, sigma as int),
        ),
        power as int,
    )
}

/// The pulse keeps every cell representable.
pub open spec fn gauss_fits(
    amp: Seq<i64>,
    n: int,
    cx: i64,
    cy: i64,
    sigma: i64,
    power: i64,
) -> bool {
    forall|i: int|
        0 <= i < amp.len() ==> i64::MIN <= #[trigger] gauss_cell_spec(
            amp,
            n,
            cx,
            cy,
            sigma,
            power,
            i,
        ) <= i64::MAX
}

/// A cell's row-major index lies inside a well-formed grid.
proof fn lemma_cell_index_in_range(x: int, y: int, n: int)
    by (nonlinear_arith)
    requires
        0 <= x < n,
        0 <= y < n,
        n <= 1024,
    ensures
        0 <= x + y * n < n * n,
        n * n <= 1024 * 1024,
{
}

/// The fixed-point square of a bounded offset is small and nonnegative.
proof fn lemma_sq_fp_bounds(d: int)
    requires
        -102_000_000_000 <= d <= 102_000_000_000,
    ensures
        0 <= d * d <= 102_000_000_000 * 102_000_000_000,
        0 <= fp_mul_spec(d, d) <= 11_000_000_000_000_000,
{
    assert(0 <= d * d <= 102_000_000_000 * 102_000_000_000) by (nonlinear_arith)
        requires
            -102_000_000_000 <= d <= 102_000_000_000,
    ;
    lemma_div_pos_is_pos(d * d, SCALE as int);
    lemma_div_is_ordered(d * d, 102_000_000_000int * 102_000_000_000int, SCALE as int);
    assert(102_000_000_000 * 102_000_000_000 == 10_404_000_000_000_000_000_000int)
        by (nonlinear_arith);
    assert(10_404_000_000_000_000_000_000int / SCALE as int <= 11_000_000_000_000_000);
}

/// A vector of `len` copies of `v`.
fn filled(len: usize, v: i64) -> (r: Vec<i64>)
    ensures
        r@.len() == len,
        forall|i: int| 0 <= i < len ==> #[trigger] r@[i] == v,
{
    let mut r: Vec<i64> = Vec::new();
    let mut i: usize = 0;
    while i < len
        invariant
            0 <= i <= len,
            r@.len() == i,
            forall|j: int| 0 <= j < i ==> #[trigger] r@[j] == v,
        decreases len - i,
    {
        r.push(v);
        i = i + 1;
    }
    r
}

} // verus!
