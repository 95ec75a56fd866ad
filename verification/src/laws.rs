//! Global laws of the tick relation, stated over the simulator's
//! mathematical model and proved once and for all: a quiet grid stays
//! quiet, the outer ring is never written by the update, a cell with dead
//! coefficients holds a stationary impulse, partitioning does not change
//! the run, and commands drain at exactly one per tick in submission order.

use vstd::prelude::*;

verus! {

use vstd::arithmetic::div_mod::{
    lemma_fundamental_div_mod,
    lemma_fundamental_div_mod_converse,
};
use crate::fixed::fp_mul_spec;
use crate::stencil::{cell_math, coeff_spec, next_amp_spec, step_cell_spec};
use crate::wave_simulator::{
    apply_or_keep, drop_fits, grid_fits, model_wf, step_seq, tick_advances, tick_model,
    tick_quits, SimModel, WaveSimulator,
};

/// `k` ticks of the driver state machine.
pub open spec fn run_model(m: SimModel, k: nat) -> SimModel
    decreases k,
{
    if k == 0 {
        m
    } else {
        tick_model(run_model(m, (k - 1) as nat))
    }
}

/// Every amplitude of the field is zero.
pub open spec fn all_zero(s: Seq<i64>) -> bool {
    forall|i: int| 0 <= i < s.len() ==> #[trigger] s[i] == 0
}

/// The stencil applied to an all-zero pair of fields yields zero, whatever
/// the cell's coefficients.
proof fn lemma_cell_math_zero_grid(c: int, k: int)
    ensures
        cell_math(0, 0, 0, 0, 0, 0, c, k) == 0,
{
    assert(coeff_spec(c) * 0 == 0) by (nonlinear_arith);
    assert(fp_mul_spec(k, crate::DT as int) * 0 == 0) by (nonlinear_arith);
}

/// With a zero propagation ratio and a zero damping ratio, a cell whose
/// current and previous amplitudes agree reproduces that amplitude: the
/// coefficient and the damping both vanish and `2u - p == u`.
proof fn lemma_cell_math_stationary(u: int, l: int, r: int, t: int, b: int)
    ensures
        cell_math(u, u, l, r, t, b, 0, 0) == u,
{
    let lap = l + r + t + b - 4 * u;
    assert(coeff_spec(0) == 0);
    assert(coeff_spec(0) * lap == 0) by (nonlinear_arith)
        requires
            coeff_spec(0) == 0,
    ;
    assert(fp_mul_spec(0, crate::DT as int) == 0);
    assert(fp_mul_spec(fp_mul_spec(0, crate::DT as int), u - u) == 0);
}

/// The four stencil neighbors of an interior cell are in range.
proof fn lemma_stencil_neighbors(i: int, n: int)
    requires
        1 <= n,
        0 <= i < n * n,
        1 <= i % n < n - 1,
        1 <= i / n < n - 1,
    ensures
        i % n + (i / n) * n == i,
        0 <= i - n,
        i + n < n * n,
        1 <= i,
        i + 1 < n * n,
{
    lemma_fundamental_div_mod(i, n);
    assert(i % n + (i / n) * n == i && 0 <= i - n && i + n < n * n && 1 <= i && i + 1 < n * n)
        by (nonlinear_arith)
        requires
            1 <= n,
            i == n * (i / n) + i % n,
            1 <= i % n < n - 1,
            1 <= i / n < n - 1,
    ;
}

/// On all-zero current and previous fields every cell of the next field is
/// zero, so the whole update is representable.
proof fn lemma_step_zero(m: SimModel)
    requires
        model_wf(m),
        1 <= m.n,
        all_zero(m.cur),
        all_zero(m.prev),
    ensures
        grid_fits(m),
        forall|i: int|
            0 <= i < m.n * m.n ==> #[trigger] step_cell_spec(
                m.prev,
                m.cur,
                m.cs,
                m.ks,
                m.n as int,
                i,
            ) == 0,
{
    let n = m.n as int;
    assert forall|i: int| 0 <= i < m.n * m.n implies #[trigger] step_cell_spec(
        m.prev,
        m.cur,
        m.cs,
        m.ks,
        n,
        i,
    ) == 0 by {
        let x = i % n;
        let y = i / n;
        if 1 <= x < n - 1 && 1 <= y < n - 1 {
            lemma_stencil_neighbors(i, n);
            assert(m.cur[x + y * n] == 0);
            assert(m.prev[x + y * n] == 0);
            assert(m.cur[x + y * n - 1] == 0);
            assert(m.cur[x + y * n + 1] == 0);
            assert(m.cur[x + y * n - n] == 0);
            assert(m.cur[x + y * n + n] == 0);
            lemma_cell_math_zero_grid(m.cs[i] as int, m.ks[i] as int);
            assert(m.cs[x + y * n] == m.cs[i] && m.ks[x + y * n] == m.ks[i]);
        }
    }
}

/// Zero-input idempotence, one tick: a well-formed state at rest (all-zero
/// fields, nothing queued) ticks to a state at rest, and stays well formed.
pub proof fn lemma_zero_tick(m: SimModel)
    requires
        model_wf(m),
        all_zero(m.cur),
        all_zero(m.prev),
        m.queue.len() == 0,
    ensures
        model_wf(tick_model(m)),
        tick_model(m).n == m.n,
        tick_model(m).queue.len() == 0,
        all_zero(tick_model(m).cur),
        all_zero(tick_model(m).prev),
{
    if !m.stopped {
        if m.n == 0 {
            assert(step_seq(m).len() == 0);
            assert(grid_fits(m));
        } else {
            lemma_step_zero(m);
        }
        assert(all_zero(step_seq(m)));
    }
}

/// Zero-input idempotence: an all-zero grid with no seeding and no queued
/// commands remains all-zero after any number of ticks.
pub proof fn lemma_zero_idempotence(m: SimModel, k: nat)
    requires
        model_wf(m),
        all_zero(m.cur),
        all_zero(m.prev),
        m.queue.len() == 0,
    ensures
        all_zero(run_model(m, k).cur),
        all_zero(run_model(m, k).prev),
        model_wf(run_model(m, k)),
        run_model(m, k).queue.len() == 0,
        run_model(m, k).n == m.n,
    decreases k,
{
    if k > 0 {
        lemma_zero_idempotence(m, (k - 1) as nat);
        lemma_zero_tick(run_model(m, (k - 1) as nat));
    }
}

/// Boundary invariance: a tick that advances the simulation leaves every
/// cell of the outermost ring zero; the update rule never writes the ring
/// (fixed Dirichlet boundary), so only direct commands can make it
/// non-zero, and the next tick clears it again.
pub proof fn lemma_boundary_ring_zero(m: SimModel, i: int)
    requires
        model_wf(m),
        tick_advances(m),
        0 <= i < m.n * m.n,
        i % (m.n as int) == 0 || i % (m.n as int) == m.n - 1 || i / (m.n as int) == 0 || i / (
        m.n as int) == m.n - 1,
    ensures
        tick_model(m).cur[i] == 0,
{
    let m1 = apply_or_keep(m);
    assert(m1.n == m.n);
    assert(tick_model(m).cur == step_seq(m1));
    assert(step_cell_spec(m1.prev, m1.cur, m1.cs, m1.ks, m1.n as int, i) == 0);
}

/// Isolated impulse, one tick: at an interior cell whose propagation and
/// damping ratios are both zero and whose current and previous amplitudes
/// agree, an advancing tick with an empty queue reproduces the amplitude in
/// both fields (coefficient and damping vanish).
pub proof fn lemma_isolated_impulse_tick(m: SimModel, x: int, y: int)
    requires
        model_wf(m),
        m.queue.len() == 0,
        1 <= x < m.n - 1,
        1 <= y < m.n - 1,
        m.cs[x + y * m.n] == 0,
        m.ks[x + y * m.n] == 0,
        m.cur[x + y * m.n] == m.prev[x + y * m.n],
        tick_advances(m),
    ensures
        tick_model(m).cur[x + y * m.n] == m.cur[x + y * m.n],
        tick_model(m).prev[x + y * m.n] == m.cur[x + y * m.n],
        tick_model(m).cs[x + y * m.n] == 0,
        tick_model(m).ks[x + y * m.n] == 0,
        model_wf(tick_model(m)),
        tick_model(m).queue.len() == 0,
        tick_model(m).n == m.n,
        !tick_model(m).stopped,
{
    let n = m.n as int;
    let i = x + y * n;
    assert(0 <= i < n * n && i - n >= 0 && i + n < n * n && i - 1 >= 0 && i + 1 < n * n)
        by (nonlinear_arith)
        requires
            1 <= x < n - 1,
            1 <= y < n - 1,
            i == x + y * n,
    ;
    lemma_fundamental_div_mod_converse(i, n, y, x);
    assert(tick_model(m).cur == step_seq(m));
    lemma_cell_math_stationary(
        m.cur[i] as int,
        m.cur[i - 1] as int,
        m.cur[i + 1] as int,
        m.cur[i - n] as int,
        m.cur[i + n] as int,
    );
    assert(step_cell_spec(m.prev, m.cur, m.cs, m.ks, n, i) == next_amp_spec(
        m.prev,
        m.cur,
        m.cs,
        m.ks,
        n,
        x,
        y,
    ));
    assert(next_amp_spec(m.prev, m.cur, m.cs, m.ks, n, x, y) == m.cur[i]);
}

/// Isolated impulse: with a zero propagation ratio and zero damping ratio
/// at one interior cell, equal current and previous amplitudes there, and
/// no further commands, the amplitude stays put for any number of ticks
/// that advance the simulation.
pub proof fn lemma_isolated_impulse(m: SimModel, x: int, y: int, k: nat)
    requires
        model_wf(m),
        m.queue.len() == 0,
        1 <= x < m.n - 1,
        1 <= y < m.n - 1,
        m.cs[x + y * m.n] == 0,
        m.ks[x + y * m.n] == 0,
        m.cur[x + y * m.n] == m.prev[x + y * m.n],
        forall|j: nat| j < k ==> tick_advances(#[trigger] run_model(m, j)),
    ensures
        run_model(m, k).cur[x + y * m.n] == m.cur[x + y * m.n],
        run_model(m, k).prev[x + y * m.n] == m.cur[x + y * m.n],
        run_model(m, k).n == m.n,
    decreases k,
{
    if k > 0 {
        let prev_k = (k - 1) as nat;
        lemma_isolated_impulse(m, x, y, prev_k);
        let mp = run_model(m, prev_k);
        lemma_run_keeps_shape(m, prev_k);
        assert(tick_advances(mp));
        lemma_isolated_impulse_tick(mp, x, y);
    }
}

/// A run of advancing ticks keeps the model well formed, the grid size
/// fixed, and (with nothing queued) the queue empty.
proof fn lemma_run_keeps_shape(m: SimModel, k: nat)
    requires
        model_wf(m),
        m.queue.len() == 0,
        forall|j: nat| j < k ==> tick_advances(#[trigger] run_model(m, j)),
    ensures
        model_wf(run_model(m, k)),
        run_model(m, k).n == m.n,
        run_model(m, k).queue.len() == 0,
        run_model(m, k).cs == m.cs,
        run_model(m, k).ks == m.ks,
    decreases k,
{
    if k > 0 {
        let prev_k = (k - 1) as nat;
        lemma_run_keeps_shape(m, prev_k);
        let mp = run_model(m, prev_k);
        assert(tick_advances(mp));
        assert(step_seq(mp).len() == mp.n * mp.n);
    }
}

/// Partition equivalence: the tick relation is a function of the model
/// alone, and the model carries no worker count; `next` drives every
/// well-formed simulator along this same relation whatever its `workers`
/// field holds. So two simulators built over the same grid with the same
/// seed and command sequence -- one banded across one worker, one across
/// two, or any other split -- agree on every amplitude at every tick.
pub proof fn lemma_partition_equivalence(s1: WaveSimulator, s2: WaveSimulator, k: nat)
    requires
        s1.wf(),
        s2.wf(),
        s1.model() == s2.model(),
    ensures
        run_model(s1.model(), k) == run_model(s2.model(), k),
{
}

/// Command cadence: if the first `k` ticks all advance, they consume
/// exactly the first `k` queued commands, one per tick, in submission
/// order; after `k` ticks exactly the commands from index `k` on remain,
/// and the command consumed by tick `j + 1` is the one submitted `j`-th.
pub proof fn lemma_command_cadence(m: SimModel, k: nat)
    requires
        k <= m.queue.len(),
        forall|j: nat| j < k ==> tick_advances(#[trigger] run_model(m, j)),
    ensures
        run_model(m, k).queue == m.queue.skip(k as int),
        forall|j: nat| j < k ==> #[trigger] run_model(m, j).queue[0] == m.queue[j as int],
    decreases k,
{
    if k > 0 {
        let prev_k = (k - 1) as nat;
        lemma_command_cadence(m, prev_k);
        let mp = run_model(m, prev_k);
        assert(tick_advances(mp));
        assert(mp.queue == m.queue.skip(prev_k as int));
        assert(mp.queue.len() == m.queue.len() - prev_k);
        assert(run_model(m, k).queue == mp.queue.drop_first());
        assert(mp.queue.drop_first() =~= m.queue.skip(k as int));
        assert(mp.queue[0] == m.queue[prev_k as int]);
    }
}

} // verus!
