//! The per-band finite-difference update: the exact fixed-point
//! specification of the damped wave stencil, the halo borrow, and the band
//! computation each worker performs.

use vstd::prelude::*;

verus! {

use vstd::arithmetic::div_mod::{lemma_fundamental_div_mod_converse, lemma_mod_bound, lemma_multiply_divide_lt};
use crate::fixed::{fp_mul_spec, fp_mul_wide, lemma_fp_mul_bounds, lemma_fp_mul_le_left};
use crate::space::Space;
use crate::{COEFF_BASE, DT, SCALE, SimError};

/// The stencil coefficient `dt^2 * c^2 / dx^2` for one cell, fixed-point:
/// `c^2` times the constant `COEFF_BASE`.
pub open spec fn coeff_spec(c: int) -> int {
    fp_mul_spec(fp_mul_spec(c, c), COEFF_BASE as int)
}

/// One cell's damped update from the values around it, as an unbounded
/// integer: `2u - p + coeff * (l + r + t + b - 4u) - k * dt * (u - p)`,
/// with `p` the previous and `u` the current amplitude.
pub open spec fn cell_math(
    p: int,
    u: int,
    l: int,
    r: int,
    t: int,
    b: int,
    c: int,
    k: int,
) -> int {
    let lap = l + r + t + b - 4 * u;
    let damp = fp_mul_spec(fp_mul_spec(k, DT as int), p - u);
    2 * u - p + fp_mul_spec(coeff_spec(c), lap) + damp
}

/// The update of interior cell `(x, y)` of an `n x n` grid, each operand
/// read at its row-major index and `c`, `k` taken from that cell's own
/// parameter pair.
pub open spec fn next_amp_spec(
    prev: Seq<i64>,
    cur: Seq<i64>,
    cs: Seq<i64>,
    ks: Seq<i64>,
    n: int,
    x: int,
    y: int,
) -> int
    recommends
        1 <= x < n - 1,
        1 <= y < n - 1,
        prev.len() == n * n,
        cur.len() == n * n,
        cs.len() == n * n,
        ks.len() == n * n,
{
    let i = x + y * n;
    cell_math(
        prev[i] as int,
        cur[i] as int,
        cur[i - 1] as int,
        cur[i + 1] as int,
        cur[i - n] as int,
        cur[i + n] as int,
        cs[i] as int,
        ks[i] as int,
    )
}

/// What the assembled next grid holds at flat index `i`: the stencil value
/// for interior cells, zero on the absolute outer ring (fixed Dirichlet
/// boundary, never updated).
pub open spec fn step_cell_spec(
    prev: Seq<i64>,
    cur: Seq<i64>,
    cs: Seq<i64>,
    ks: Seq<i64>,
    n: int,
    i: int,
) -> int {
    let x = i % n;
    let y = i / n;
    if 1 <= x < n - 1 && 1 <= y < n - 1 {
        next_amp_spec(prev, cur, cs, ks, n, x, y)
    } else {
        0
    }
}

/// Every cell of rows `[row_start, row_end)` stays representable under the
/// update.
pub open spec fn band_fits(
    prev: Seq<i64>,
    cur: Seq<i64>,
    cs: Seq<i64>,
    ks: Seq<i64>,
    n: int,
    row_start: int,
    row_end: int,
) -> bool {
    forall|i: int|
        row_start * n <= i < row_end * n ==> i64::MIN <= #[trigger] step_cell_spec(
            prev,
            cur,
            cs,
            ks,
            n,
            i,
        ) <= i64::MAX
}

/// The whole next grid stays representable.
pub open spec fn step_fits(
    prev: Seq<i64>,
    cur: Seq<i64>,
    cs: Seq<i64>,
    ks: Seq<i64>,
    n: int,
) -> bool {
    band_fits(prev, cur, cs, ks, n, 0, n)
}

/// Row `row` of a grid field as a band sees it: rows beyond the outer edge
/// read as zero (the halo is zero-filled, not wrapped).
pub open spec fn halo_val(src: Seq<i64>, n: int, row: int, x: int) -> i64 {
    if 0 <= row < n {
        src[x + row * n]
    } else {
        0
    }
}

/// Copy rows `[row_start - 1, row_end + 1)` of a grid field into a compact
/// buffer, zero-filling the two rows that can fall outside the grid. This
/// is the halo borrow: a band reads one row beyond each edge of what it
/// owns.
fn copy_rows_with_halo(src: &Vec<i64>, n: usize, row_start: usize, row_end: usize) -> (out: Vec<
    i64,
>)
    requires
        src@.len() == n * n,
        row_start <= row_end <= n,
        n <= 1024,
    ensures
        out@.len() == (row_end - row_start + 2) * n,
        forall|j: int|
            0 <= j < (row_end - row_start + 2) * n ==> #[trigger] out@[j] == halo_val(
                src@,
                n as int,
                row_start - 1 + j / (n as int),
                j % (n as int),
            ),
{
    let rows = row_end - row_start + 2;
    proof {
        assert(rows * n <= 1026 * 1024 && n * n <= 1024 * 1024) by (nonlinear_arith)
            requires
                rows <= n + 2,
                n <= 1024,
        ;
    }
    let total = rows * n;
    let mut out: Vec<i64> = Vec::new();
    let mut j: usize = 0;
    while j < total
        invariant
            src@.len() == n * n,
            row_start <= row_end <= n,
            n <= 1024,
            rows == row_end - row_start + 2,
            total == rows * n,
            total <= 1026 * 1024,
            0 <= j <= total,
            out@.len() == j,
            forall|j2: int|
                0 <= j2 < j ==> #[trigger] out@[j2] == halo_val(
                    src@,
                    n as int,
                    row_start - 1 + j2 / (n as int),
                    j2 % (n as int),
                ),
        decreases total - j,
    {
        proof {
            assert(n >= 1) by (nonlinear_arith)
                requires
                    j < total,
                    total == rows * n,
                    0 <= rows,
                    0 <= n,
            ;
            lemma_mod_bound(j as int, n as int);
            assert(n * rows == rows * n) by (nonlinear_arith);
            lemma_multiply_divide_lt(j as int, n as int, rows as int);
        }
        let lr = j / n;
        let x = j % n;
        let val = if row_start + lr >= 1 && row_start + lr <= n {
            let g = row_start + lr - 1;
            proof {
                assert(x + g * n < n * n && n * n <= 1024 * 1024) by (nonlinear_arith)
                    requires
                        0 <= x < n,
                        0 <= g < n,
                        n <= 1024,
                ;
            }
            src[x + g * n]
        } else {
            0
        };
        out.push(val);
        j = j + 1;
    }
    out
}

/// One cell's stencil evaluation on wide intermediates; `None` reports a
/// result outside the representable range.
fn cell_update(p: i64, u: i64, l: i64, r: i64, t: i64, b: i64, c: i64, k: i64) -> (res: Option<
    i64,
>)
    requires
        0 <= c <= SCALE,
        0 <= k,
    ensures
        res is Some <==> i64::MIN <= cell_math(
            p as int,
            u as int,
            l as int,
            r as int,
            t as int,
            b as int,
            c as int,
            k as int,
        ) <= i64::MAX,
        res is Some ==> res->0 == cell_math(
            p as int,
            u as int,
            l as int,
            r as int,
            t as int,
            b as int,
            c as int,
            k as int,
        ),
{
    proof {
        lemma_fp_mul_le_left(c as int, c as int);
    }
    let cc = fp_mul_wide(c as i128, c as i128);
    proof {
        lemma_fp_mul_bounds(cc as int, COEFF_BASE as int, SCALE as int, COEFF_BASE as int);
    }
    let coeff = fp_mul_wide(cc, COEFF_BASE as i128);
    let lap: i128 = (l as i128) + (r as i128) + (t as i128) + (b as i128) - 4 * (u as i128);
    proof {
        lemma_fp_mul_bounds(coeff as int, lap as int, 27_778int, 73_786_976_294_838_206_464int);
    }
    let cterm = fp_mul_wide(coeff, lap);
    proof {
        lemma_fp_mul_bounds(k as int, DT as int, 9_223_372_036_854_775_808int, DT as int);
    }
    let kdt = fp_mul_wide(k as i128, DT as i128);
    proof {
        lemma_fp_mul_bounds(
            kdt as int,
            (p as i128) - (u as i128),
            160_000_000_000_000_000int,
            18_446_744_073_709_551_616int,
        );
    }
    let damp = fp_mul_wide(kdt, (p as i128) - (u as i128));
    let val: i128 = 2 * (u as i128) - (p as i128) + cterm + damp;
    if val < i64::MIN as i128 || val > i64::MAX as i128 {
        None
    } else {
        Some(val as i64)
    }
}

/// One worker's task: compute rows `[row_start, row_end)` of the next grid
/// from the current and previous grids, borrowing one halo row beyond each
/// side of the band (zero-filled past the outer edge) and reading each
/// cell's own parameter pair from the current grid. Cells on the grid's
/// absolute outer ring are never updated and come back as zero. `Err`
/// reports a cell whose update left the representable range.
pub fn update_band(current: &Space, previous: &Space, row_start: usize, row_end: usize) -> (res:
    Result<Vec<i64>, SimError>)
    requires
        current.wf(),
        previous.wf(),
        previous.size == current.size,
        row_start <= row_end <= current.size,
    ensures
        res is Ok <==> band_fits(
            previous.space@,
            current.space@,
            current.params_c@,
            current.params_k@,
            current.size as int,
            row_start as int,
            row_end as int,
        ),
        res is Ok ==> res->Ok_0@.len() == (row_end - row_start) * current.size && forall|j: int|
            0 <= j < (row_end - row_start) * current.size ==> #[trigger] res->Ok_0@[j]
                == step_cell_spec(
                previous.space@,
                current.space@,
                current.params_c@,
                current.params_k@,
                current.size as int,
                row_start * current.size + j,
            ),
        res is Err ==> res == Err::<Vec<i64>, SimError>(SimError::NumericInstability),
{
    let n = current.size;
    let rows = row_end - row_start;
    let my_cur = copy_rows_with_halo(&current.space, n, row_start, row_end);
    let my_prev = copy_rows_with_halo(&previous.space, n, row_start, row_end);
    let mut out: Vec<i64> = Vec::new();
    let mut ly: usize = 1;
    while ly < rows + 1
        invariant
            current.wf(),
            previous.wf(),
            previous.size == n,
            n == current.size,
            row_start <= row_end <= n,
            rows == row_end - row_start,
            my_cur@.len() == (rows + 2) * n,
            my_prev@.len() == (rows + 2) * n,
            forall|j: int|
                0 <= j < (rows + 2) * n ==> #[trigger] my_cur@[j] == halo_val(
                    current.space@,
                    n as int,
                    row_start - 1 + j / (n as int),
                    j % (n as int),
                ),
            forall|j: int|
                0 <= j < (rows + 2) * n ==> #[trigger] my_prev@[j] == halo_val(
                    previous.space@,
                    n as int,
                    row_start - 1 + j / (n as int),
                    j % (n as int),
                ),
            1 <= ly <= rows + 1,
            out@.len() == (ly - 1) * n,
            forall|j: int|
                0 <= j < (ly - 1) * n ==> #[trigger] out@[j] == step_cell_spec(
                    previous.space@,
                    current.space@,
                    current.params_c@,
                    current.params_k@,
                    current.size as int,
                    row_start * current.size + j,
                ),
        decreases rows + 1 - ly,
    {
        let y = row_start + ly - 1;
        let mut x: usize = 0;
        while x < n
            invariant
                current.wf(),
                previous.wf(),
                previous.size == n,
                n == current.size,
                row_start <= row_end <= n,
                rows == row_end - row_start,
                my_cur@.len() == (rows + 2) * n,
                my_prev@.len() == (rows + 2) * n,
                forall|j: int|
                    0 <= j < (rows + 2) * n ==> #[trigger] my_cur@[j] == halo_val(
                        current.space@,
                        n as int,
                        row_start - 1 + j / (n as int),
                        j % (n as int),
                    ),
                forall|j: int|
                    0 <= j < (rows + 2) * n ==> #[trigger] my_prev@[j] == halo_val(
                        previous.space@,
                        n as int,
                        row_start - 1 + j / (n as int),
                        j % (n as int),
                    ),
                1 <= ly <= rows,
                y == row_start + ly - 1,
                0 <= x <= n,
                out@.len() == (ly - 1) * n + x,
                forall|j: int|
                    0 <= j < (ly - 1) * n + x ==> #[trigger] out@[j] == step_cell_spec(
                        previous.space@,
                        current.space@,
                        current.params_c@,
                        current.params_k@,
                        current.size as int,
                        row_start * current.size + j,
                    ),
            decreases n - x,
        {
            proof {
                lemma_band_indices(
                    x as int,
                    y as int,
                    ly as int,
                    n as int,
                    rows as int,
                    row_start as int,
                );
                lemma_fundamental_div_mod_converse(
                    x as int + y as int * n as int,
                    n as int,
                    y as int,
                    x as int,
                );
            }
            if x == 0 || x == n - 1 || y == 0 || y == n - 1 {
                out.push(0);
            } else {
                let i = x + y * n;
                let c = current.params_c[i];
                let k = current.params_k[i];
                let p = my_prev[x + ly * n];
                let u = my_cur[x + ly * n];
                let lv = my_cur[(x - 1) + ly * n];
                let rv = my_cur[(x + 1) + ly * n];
                let tv = my_cur[x + (ly - 1) * n];
                let bv = my_cur[x + (ly + 1) * n];
                proof {
                    lemma_band_reads(x as int, y as int, ly as int, n as int, row_start as int);
                    lemma_fundamental_div_mod_converse(
                        x as int + ly as int * n as int,
                        n as int,
                        ly as int,
                        x as int,
                    );
                    lemma_fundamental_div_mod_converse(
                        (x - 1) as int + ly as int * n as int,
                        n as int,
                        ly as int,
                        (x - 1) as int,
                    );
                    lemma_fundamental_div_mod_converse(
                        (x + 1) as int + ly as int * n as int,
                        n as int,
                        ly as int,
                        (x + 1) as int,
                    );
                    lemma_fundamental_div_mod_converse(
                        x as int + (ly - 1) as int * n as int,
                        n as int,
                        (ly - 1) as int,
                        x as int,
                    );
                    lemma_fundamental_div_mod_converse(
                        x as int + (ly + 1) as int * n as int,
                        n as int,
                        (ly + 1) as int,
                        x as int,
                    );
                    assert(u == current.space@[x + y * n]);
                    assert(p == previous.space@[x + y * n]);
                    assert(lv == current.space@[x + y * n - 1]);
                    assert(rv == current.space@[x + y * n + 1]);
                    assert(tv == current.space@[x + y * n - n]);
                    assert(bv == current.space@[x + y * n + n]);
                }
                match cell_update(p, u, lv, rv, tv, bv, c, k) {
                    Some(v) => {
                        out.push(v);
                    },
                    None => {
                        proof {
                            assert(step_cell_spec(
                                previous.space@,
                                current.space@,
                                current.params_c@,
                                current.params_k@,
                                current.size as int,
                                x as int + y as int * (current.size as int),
                            ) == next_amp_spec(
                                previous.space@,
                                current.space@,
                                current.params_c@,
                                current.params_k@,
                                current.size as int,
                                x as int,
                                y as int,
                            ));
                        }
                        return Err(SimError::NumericInstability);
                    },
                }
            }
            proof {
                assert(out@.len() == (ly - 1) * n + x + 1);
                assert(out@[((ly - 1) * n + x) as int] == step_cell_spec(
                    previous.space@,
                    current.space@,
                    current.params_c@,
                    current.params_k@,
                    current.size as int,
                    row_start * current.size + ((ly - 1) * n + x),
                ));
            }
            x = x + 1;
        }
        proof {
            assert((ly - 1) * n + n == ly * n) by (nonlinear_arith);
        }
        ly = ly + 1;
    }
    proof {
        assert((rows + 1 - 1) * n == rows * n);
        assert forall|i: int|
            row_start * n <= i < row_end * n implies i64::MIN <= #[trigger] step_cell_spec(
            previous.space@,
            current.space@,
            current.params_c@,
            current.params_k@,
            current.size as int,
            i,
        ) <= i64::MAX by {
            let j = i - row_start * n;
            assert(0 <= j < rows * n) by (nonlinear_arith)
                requires
                    row_start * n <= i < row_end * n,
                    rows == row_end - row_start,
                    j == i - row_start * (n as int),
            ;
            assert(out@[j] == step_cell_spec(
                previous.space@,
                current.space@,
                current.params_c@,
                current.params_k@,
                current.size as int,
                row_start * current.size + j,
            ));
        }
    }
    Ok(out)
}

/// Index bounds and identities for a band cell: the cell's flat index is in
/// range, its band-relative index matches, and the halo buffer is long
/// enough for all its reads.
proof fn lemma_band_indices(x: int, y: int, ly: int, n: int, rows: int, row_start: int)
    by (nonlinear_arith)
    requires
        0 <= x < n,
        n <= 1024,
        1 <= ly <= rows,
        rows <= n,
        y == row_start + ly - 1,
        0 <= row_start,
        row_start + rows <= n,
    ensures
        0 <= x + y * n < n * n,
        n * n <= 1024 * 1024,
        x + ly * n < (rows + 2) * n,
        x + (ly + 1) * n < (rows + 2) * n,
        0 <= x + (ly - 1) * n,
        x + (ly - 1) * n < (rows + 2) * n,
        x + 1 < n ==> (x + 1) + ly * n < (rows + 2) * n,
        (rows + 2) * n <= 1026 * 1024,
        y * n == row_start * n + (ly - 1) * n,
        row_start * n + ((ly - 1) * n + x) == x + y * n,
        row_start * n <= x + y * n < (row_start + rows) * n,
{
}

/// Each local halo read of an interior cell addresses the corresponding
/// global cell.
proof fn lemma_band_reads(x: int, y: int, ly: int, n: int, row_start: int)
    by (nonlinear_arith)
    requires
        1 <= x < n - 1,
        1 <= y < n - 1,
        y == row_start + ly - 1,
    ensures
        x + (y - 1) * n == x + y * n - n,
        x + (y + 1) * n == x + y * n + n,
        row_start - 1 + ly == y,
        row_start - 1 + (ly - 1) == y - 1,
        row_start - 1 + (ly + 1) == y + 1,
{
}

} // verus!
