//! The driver: triple-buffered grids, per-band dispatch of the stencil
//! update, buffer rotation, and the command queue drained at one order per
//! tick.

use vstd::prelude::*;

verus! {

use vstd::arithmetic::div_mod::lemma_fundamental_div_mod;
use crate::space::Space;
use crate::stencil::{band_fits, step_cell_spec, step_fits, update_band};
use crate::{MAX_SIZE, SCALE, SimError};

/// A request to change one cell's medium coefficients (fixed-point values).
#[derive(Copy, Clone, Debug, PartialEq, Eq, Structural)]
pub enum Parameter {
    /// Set the propagation ratio `c` of cell `(x, y)`; valid values lie in
    /// `[0, SCALE]`.
    PropagationRatio(usize, usize, i64),
    /// Set the damping ratio `k` of cell `(x, y)`; valid values are
    /// nonnegative.
    DumpingRatio(usize, usize, i64),
}

/// A live edit command, consumed by the driver at most once per tick.
#[derive(Copy, Clone, Debug, PartialEq, Eq, Structural)]
pub enum Order {
    /// Add an impulse to the amplitude of cell `(x, y)`.
    Drop(usize, usize, i64),
    /// Overwrite one coefficient of a cell; the tuned cell restarts from
    /// rest (its amplitude is reset to zero).
    Change(Parameter),
    /// Stop the run after the tick that consumes this order.
    Quit,
}

/// The command's coordinates name a cell of an `n x n` grid.
pub open spec fn order_coords_ok(o: Order, n: nat) -> bool {
    match o {
        Order::Drop(x, y, _) => x < n && y < n,
        Order::Change(p) => match p {
            Parameter::PropagationRatio(x, y, _) => x < n && y < n,
            Parameter::DumpingRatio(x, y, _) => x < n && y < n,
        },
        Order::Quit => true,
    }
}

/// The command's value is inside the coefficient's documented range.
pub open spec fn order_value_ok(o: Order) -> bool {
    match o {
        Order::Change(p) => match p {
            Parameter::PropagationRatio(_, _, v) => 0 <= v <= SCALE,
            Parameter::DumpingRatio(_, _, v) => 0 <= v,
        },
        _ => true,
    }
}

/// A command the intake accepts.
pub open spec fn order_ok(o: Order, n: nat) -> bool {
    order_coords_ok(o, n) && order_value_ok(o)
}

/// The mathematical state of a simulator: the two amplitude fields a tick
/// reads, the current grid's parameter fields, the pending commands, and
/// whether the run has stopped. Deliberately independent of the worker
/// count: every partition of the grid into bands produces this same
/// evolution.
#[verifier::ext_equal]
pub ghost struct SimModel {
    pub prev: Seq<i64>,
    pub cur: Seq<i64>,
    pub cs: Seq<i64>,
    pub ks: Seq<i64>,
    pub n: nat,
    pub queue: Seq<Order>,
    pub stopped: bool,
}

/// All fields sized to the grid, parameters in range, and only accepted
/// commands queued.
pub open spec fn model_wf(m: SimModel) -> bool {
    &&& m.n <= MAX_SIZE
    &&& m.prev.len() == m.n * m.n
    &&& m.cur.len() == m.n * m.n
    &&& m.cs.len() == m.n * m.n
    &&& m.ks.len() == m.n * m.n
    &&& forall|i: int| 0 <= i < m.cs.len() ==> 0 <= #[trigger] m.cs[i] <= SCALE
    &&& forall|i: int| 0 <= i < m.ks.len() ==> 0 <= #[trigger] m.ks[i]
    &&& forall|i: int| 0 <= i < m.queue.len() ==> order_ok(#[trigger] m.queue[i], m.n)
}

/// If the head command is an impulse, it lands inside the representable
/// range.
pub open spec fn drop_fits(m: SimModel) -> bool {
    m.queue.len() > 0 ==> match m.queue[0] {
        Order::Drop(x, y, a) => i64::MIN <= m.cur[x + y * m.n] + a <= i64::MAX,
        _ => true,
    }
}

/// The head command applied to the grids, with the queue popped.
pub open spec fn apply_order(m: SimModel) -> SimModel
    recommends
        m.queue.len() > 0,
        drop_fits(m),
{
    let q = m.queue.drop_first();
    match m.queue[0] {
        Order::Drop(x, y, a) => SimModel {
            cur: m.cur.update(x + y * m.n, (m.cur[x + y * m.n] + a) as i64),
            queue: q,
            ..m
        },
        Order::Change(p) => match p {
            Parameter::PropagationRatio(x, y, v) => SimModel {
                cs: m.cs.update(x + y * m.n, v),
                cur: m.cur.update(x + y * m.n, 0),
                queue: q,
                ..m
            },
            Parameter::DumpingRatio(x, y, v) => SimModel {
                ks: m.ks.update(x + y * m.n, v),
                cur: m.cur.update(x + y * m.n, 0),
                queue: q,
                ..m
            },
        },
        Order::Quit => SimModel { queue: q, stopped: true, ..m },
    }
}

/// At most one command is applied per tick: the head if there is one.
pub open spec fn apply_or_keep(m: SimModel) -> SimModel {
    if m.queue.len() == 0 {
        m
    } else {
        apply_order(m)
    }
}

/// The fully assembled next amplitude field.
pub open spec fn step_seq(m: SimModel) -> Seq<i64> {
    Seq::new(m.n * m.n, |i: int| step_cell_spec(m.prev, m.cur, m.cs, m.ks, m.n as int, i) as i64)
}

/// Every cell of the next field stays representable.
pub open spec fn grid_fits(m: SimModel) -> bool {
    step_fits(m.prev, m.cur, m.cs, m.ks, m.n as int)
}

/// Buffer rotation: previous takes the current field, current takes the
/// freshly computed field; the parameter fields stay in place.
pub open spec fn rotate(m: SimModel) -> SimModel {
    SimModel { prev: m.cur, cur: step_seq(m), ..m }
}

/// The tick consumes a `Quit` at the head of the queue.
pub open spec fn tick_quits(m: SimModel) -> bool {
    !m.stopped && m.queue.len() > 0 && m.queue[0] is Quit
}

/// The tick fails with `NumericInstability`: an impulse or a stencil value
/// leaves the representable range.
pub open spec fn tick_err(m: SimModel) -> bool {
    !m.stopped && !tick_quits(m) && (!drop_fits(m) || !grid_fits(apply_or_keep(m)))
}

/// The tick advances the simulation by one step.
pub open spec fn tick_advances(m: SimModel) -> bool {
    !m.stopped && !tick_quits(m) && drop_fits(m) && grid_fits(apply_or_keep(m))
}

/// One tick of the driver state machine: poll at most one command, compute
/// the next field band by band, rotate. A stopped simulator stays put; a
/// `Quit` or an unrepresentable amplitude stops it.
pub open spec fn tick_model(m: SimModel) -> SimModel {
    if m.stopped {
        m
    } else if tick_quits(m) {
        SimModel { queue: m.queue.drop_first(), stopped: true, ..m }
    } else if !drop_fits(m) {
        SimModel { queue: m.queue.drop_first(), stopped: true, ..m }
    } else {
        let m1 = apply_or_keep(m);
        if grid_fits(m1) {
            rotate(m1)
        } else {
            SimModel { stopped: true, ..m1 }
        }
    }
}

/// The simulator: triple-buffered grids, the worker count the grid is
/// banded by, and the pending command queue.
pub struct WaveSimulator {
    /// State t-1.
    pub space_previous: Space,
    /// State t; commands edit this grid and its parameter fields.
    pub space_current: Space,
    /// The buffer the next state is assembled into; all zero between ticks.
    pub space_next: Space,
    /// Side length `N`.
    pub space_size: usize,
    /// Worker count `W`; each worker owns `N / W` contiguous rows per tick.
    pub workers: usize,
    /// Pending commands, oldest first.
    pub orders: Vec<Order>,
    /// Set once `Quit` is consumed or an update became unrepresentable.
    pub stopped: bool,
}

impl WaveSimulator {
    /// The mathematical state this simulator is at.
    pub open spec fn model(self) -> SimModel {
        SimModel {
            prev: self.space_previous.space@,
            cur: self.space_current.space@,
            cs: self.space_current.params_c@,
            ks: self.space_current.params_k@,
            n: self.space_size as nat,
            queue: self.orders@,
            stopped: self.stopped,
        }
    }

    /// The parts of well-formedness a tick keeps while it assembles the next
    /// grid: three same-sized grids, a worker count that divides the side
    /// length, and an intake-validated queue.
    pub open spec fn wf_core(self) -> bool {
        &&& self.space_previous.wf()
        &&& self.space_current.wf()
        &&& self.space_next.wf()
        &&& self.space_previous.size == self.space_size
        &&& self.space_current.size == self.space_size
        &&& self.space_next.size == self.space_size
        &&& 1 <= self.workers
        &&& self.space_size as int % self.workers as int == 0
        &&& forall|i: int|
            0 <= i < self.orders@.len() ==> order_ok(
                #[trigger] self.orders@[i],
                self.space_size as nat,
            )
    }

    /// Well-formed between ticks: additionally the next buffer is all zero.
    pub open spec fn wf(self) -> bool {
        &&& self.wf_core()
        &&& forall|i: int|
            0 <= i < self.space_next.space@.len() ==> #[trigger] self.space_next.space@[i] == 0
    }

    /// Build a simulator over an `N x N` grid banded across `W` workers.
    /// Succeeds exactly when `W >= 1` divides `N`; anything else is a
    /// `ConfigurationError`. The grids start at rest with default
    /// parameters.
    pub fn new(size: usize, workers: usize) -> (r: Result<WaveSimulator, SimError>)
        requires
            size <= MAX_SIZE,
        ensures
            r is Ok <==> (1 <= workers && size as int % workers as int == 0),
            r is Err ==> r == Err::<WaveSimulator, SimError>(SimError::ConfigurationError),
            r is Ok ==> {
                let s = r->Ok_0;
                &&& s.wf()
                &&& s.space_size == size
                &&& s.workers == workers
                &&& s.model().queue.len() == 0
                &&& !s.model().stopped
                &&& s.model().n == size
                &&& forall|i: int|
                    0 <= i < s.model().cur.len() ==> #[trigger] s.model().cur[i] == 0
                &&& forall|i: int|
                    0 <= i < s.model().prev.len() ==> #[trigger] s.model().prev[i] == 0
                &&& forall|i: int|
                    0 <= i < s.model().cs.len() ==> #[trigger] s.model().cs[i]
                        == crate::DEFAULT_PROPAGATION
                &&& forall|i: int|
                    0 <= i < s.model().ks.len() ==> #[trigger] s.model().ks[i]
                        == crate::DEFAULT_DAMPING
            },
    {
        if workers == 0 || size % workers != 0 {
            return Err(SimError::ConfigurationError);
        }
        Ok(
            WaveSimulator {
                space_previous: Space::new(size),
                space_current: Space::new(size),
                space_next: Space::new(size),
                space_size: size,
                workers,
                orders: Vec::new(),
                stopped: false,
            },
        )
    }

    /// Seed a stationary pulse: the same radial pulse added to both the
    /// current and the previous grid, so the wave starts at rest.
    /// All-or-nothing: on any error neither grid changes.
    pub fn add_gauss(&mut self, cx: i64, cy: i64, sigma: i64, power: i64) -> (r: Result<
        (),
        SimError,
    >)
        requires
            old(self).wf(),
        ensures
            final(self).wf(),
            final(self).workers == old(self).workers,
            final(self).space_size == old(self).space_size,
            final(self).model().cs == old(self).model().cs,
            final(self).model().ks == old(self).model().ks,
            final(self).model().queue == old(self).model().queue,
            final(self).model().stopped == old(self).model().stopped,
            !crate::space::gauss_args_ok(cx, cy, sigma) ==> r == Err::<(), SimError>(
                SimError::InvalidParameter,
            ) && final(self).model() == old(self).model(),
            crate::space::gauss_args_ok(cx, cy, sigma) && !(crate::space::gauss_fits(
                old(self).model().cur,
                old(self).model().n as int,
                cx,
                cy,
                sigma,
                power,
            ) && crate::space::gauss_fits(
                old(self).model().prev,
                old(self).model().n as int,
                cx,
                cy,
                sigma,
                power,
            )) ==> r == Err::<(), SimError>(SimError::NumericInstability) && final(self).model()
                == old(self).model(),
            crate::space::gauss_args_ok(cx, cy, sigma) && crate::space::gauss_fits(
                old(self).model().cur,
                old(self).model().n as int,
                cx,
                cy,
                sigma,
                power,
            ) && crate::space::gauss_fits(
                old(self).model().prev,
                old(self).model().n as int,
                cx,
                cy,
                sigma,
                power,
            ) ==> {
                &&& r == Ok::<(), SimError>(())
                &&& final(self).model().cur.len() == old(self).model().cur.len()
                &&& final(self).model().prev.len() == old(self).model().prev.len()
                &&& forall|i: int|
                    0 <= i < old(self).model().cur.len() ==> #[trigger] final(self).model().cur[i]
                        == crate::space::gauss_cell_spec(
                        old(self).model().cur,
                        old(self).model().n as int,
                        cx,
                        cy,
                        sigma,
                        power,
                        i,
                    )
                &&& forall|i: int|
                    0 <= i < old(self).model().prev.len() ==> #[trigger] final(self).model().prev[i]
                        == crate::space::gauss_cell_spec(
                        old(self).model().prev,
                        old(self).model().n as int,
                        cx,
                        cy,
                        sigma,
                        power,
                        i,
                    )
            },
    {
        let cur_cand = match self.space_current.gauss_candidate(cx, cy, sigma, power) {
            Ok(v) => v,
            Err(e) => {
                return Err(e);
            },
        };
        let prev_cand = match self.space_previous.gauss_candidate(cx, cy, sigma, power) {
            Ok(v) => v,
            Err(e) => {
                return Err(e);
            },
        };
        self.space_current.space = cur_cand;
        self.space_previous.space = prev_cand;
        Ok(())
    }

    /// Submit a command. Coordinates and coefficient values are validated
    /// here, at intake: a rejected command is reported and never queued, so
    /// it cannot fault the running simulation.
    pub fn order(&mut self, order: Order) -> (r: Result<(), SimError>)
        requires
            old(self).wf(),
        ensures
            final(self).wf(),
            final(self).workers == old(self).workers,
            final(self).space_size == old(self).space_size,
            order_ok(order, old(self).model().n) ==> r == Ok::<(), SimError>(())
                && final(self).model() == (SimModel {
                queue: old(self).model().queue.push(order),
                ..old(self).model()
            }),
            !order_coords_ok(order, old(self).model().n) ==> r == Err::<(), SimError>(
                SimError::IndexOutOfRange,
            ) && final(self).model() == old(self).model(),
            order_coords_ok(order, old(self).model().n) && !order_value_ok(order) ==> r == Err::<
                (),
                SimError,
            >(SimError::InvalidParameter) && final(self).model() == old(self).model(),
    {
        let n = self.space_size;
        match order {
            Order::Drop(x, y, _) => {
                if !(x < n && y < n) {
                    return Err(SimError::IndexOutOfRange);
                }
            },
            Order::Change(p) => match p {
                Parameter::PropagationRatio(x, y, v) => {
                    if !(x < n && y < n) {
                        return Err(SimError::IndexOutOfRange);
                    }
                    if !(0 <= v && v <= SCALE) {
                        return Err(SimError::InvalidParameter);
                    }
                },
                Parameter::DumpingRatio(x, y, v) => {
                    if !(x < n && y < n) {
                        return Err(SimError::IndexOutOfRange);
                    }
                    if !(0 <= v) {
                        return Err(SimError::InvalidParameter);
                    }
                },
            },
            Order::Quit => {},
        }
        self.orders.push(order);
        Ok(())
    }

    /// One tick: poll at most one command, dispatch one band per worker
    /// over the current and previous grids, splice the results into the
    /// next grid, and rotate the buffers. Returns `Ok(true)` when the
    /// simulation advanced, `Ok(false)` when it is (now) stopped, and
    /// `Err(NumericInstability)` when an amplitude left the representable
    /// range, which also stops the run.
    pub fn next(&mut self) -> (r: Result<bool, SimError>)
        requires
            old(self).wf(),
        ensures
            final(self).wf(),
            final(self).workers == old(self).workers,
            final(self).space_size == old(self).space_size,
            final(self).model() == tick_model(old(self).model()),
            r == Ok::<bool, SimError>(true) <==> tick_advances(old(self).model()),
            r == Err::<bool, SimError>(SimError::NumericInstability) <==> tick_err(
                old(self).model(),
            ),
            r == Ok::<bool, SimError>(false) <==> old(self).model().stopped || tick_quits(
                old(self).model(),
            ),
    {
        if self.stopped {
            return Ok(false);
        }
        let n = self.space_size;
        if self.orders.len() > 0 {
            proof {
                assert(order_ok(old(self).orders@[0], old(self).space_size as nat));
            }
            let o = self.orders.remove(0);
            proof {
                assert(self.orders@ =~= old(self).model().queue.drop_first());
            }
            match o {
                Order::Quit => {
                    self.stopped = true;
                    proof {
                        assert(final(self).model() =~= tick_model(old(self).model()));
                    }
                    return Ok(false);
                },
                Order::Drop(x, y, a) => {
                    proof {
                        lemma_flat_index(x as int, y as int, n as int);
                    }
                    let i = x + y * n;
                    let cur_v = self.space_current.space[i];
                    match cur_v.checked_add(a) {
                        Some(v) => {
                            self.space_current.space.set(i, v);
                        },
                        None => {
                            self.stopped = true;
                            proof {
                                assert(!drop_fits(old(self).model()));
                                assert(final(self).model() =~= tick_model(old(self).model()));
                            }
                            return Err(SimError::NumericInstability);
                        },
                    }
                },
                Order::Change(p) => match p {
                    Parameter::PropagationRatio(x, y, v) => {
                        proof {
                            lemma_flat_index(x as int, y as int, n as int);
                        }
                        let i = x + y * n;
                        self.space_current.params_c.set(i, v);
                        self.space_current.space.set(i, 0);
                    },
                    Parameter::DumpingRatio(x, y, v) => {
                        proof {
                            lemma_flat_index(x as int, y as int, n as int);
                        }
                        let i = x + y * n;
                        self.space_current.params_k.set(i, v);
                        self.space_current.space.set(i, 0);
                    },
                },
            }
        }
        let ghost m1 = apply_or_keep(old(self).model());
        proof {
            assert(self.model() =~= m1);
            assert(self.wf());
        }

        // Dispatch: worker b owns rows [b * len_per, (b + 1) * len_per).
        let len_per = n / self.workers;
        let w = self.workers;
        proof {
            lemma_fundamental_div_mod(n as int, w as int);
        }
        let mut b: usize = 0;
        proof {
            assert((0int * (len_per as int)) * (n as int) == 0 && (n as int) * (n as int) <= 1024
                * 1024) by (nonlinear_arith)
                requires
                    n <= 1024,
            ;
        }
        while b < w
            invariant
                self.wf_core(),
                !self.stopped,
                self.space_size == n,
                self.workers == w,
                old(self).space_size == n,
                old(self).workers == w,
                1 <= w,
                n == w * len_per,
                n <= MAX_SIZE,
                self.model() == m1,
                m1 == apply_or_keep(old(self).model()),
                !old(self).model().stopped,
                !tick_quits(old(self).model()),
                drop_fits(old(self).model()),
                m1.n == n,
                0 <= b <= w,
                forall|i: int|
                    0 <= i < b * len_per * n ==> #[trigger] self.space_next.space@[i]
                        == step_cell_spec(m1.prev, m1.cur, m1.cs, m1.ks, n as int, i),
                forall|i: int|
                    0 <= i < b * len_per * n ==> i64::MIN <= #[trigger] step_cell_spec(
                        m1.prev,
                        m1.cur,
                        m1.cs,
                        m1.ks,
                        n as int,
                        i,
                    ) <= i64::MAX,
                forall|i: int|
                    b * len_per * n <= i < n * n ==> #[trigger] self.space_next.space@[i] == 0,
            decreases w - b,
        {
            proof {
                lemma_band_layout(b as int, len_per as int, n as int, w as int);
            }
            let row_start = b * len_per;
            let row_end = (b + 1) * len_per;
            let band = match update_band(
                &self.space_current,
                &self.space_previous,
                row_start,
                row_end,
            ) {
                Ok(v) => v,
                Err(_) => {
                    // A cell left the representable range: erase the partly
                    // assembled next grid and stop.
                    zero_fill(&mut self.space_next.space);
                    self.stopped = true;
                    proof {
                        assert(!grid_fits(m1)) by {
                            if grid_fits(m1) {
                                assert forall|i: int|
                                    row_start * (m1.n as int) <= i < row_end * (m1.n as int)
                                    implies i64::MIN <= #[trigger] step_cell_spec(
                                    m1.prev,
                                    m1.cur,
                                    m1.cs,
                                    m1.ks,
                                    m1.n as int,
                                    i,
                                ) <= i64::MAX by {
                                    assert(0 <= i < (m1.n as int) * (m1.n as int))
                                        by (nonlinear_arith)
                                        requires
                                            row_start * (m1.n as int) <= i < row_end * (
                                            m1.n as int),
                                            0 <= row_start,
                                            row_end as int <= m1.n as int,
                                            0 <= m1.n,
                                    ;
                                }
                                assert(band_fits(
                                    m1.prev,
                                    m1.cur,
                                    m1.cs,
                                    m1.ks,
                                    m1.n as int,
                                    row_start as int,
                                    row_end as int,
                                ));
                                assert(band_fits(
                                    self.space_previous.space@,
                                    self.space_current.space@,
                                    self.space_current.params_c@,
                                    self.space_current.params_k@,
                                    self.space_current.size as int,
                                    row_start as int,
                                    row_end as int,
                                ));
                                assert(false);
                            }
                        }
                        assert(final(self).model() =~= tick_model(old(self).model()));
                    }
                    return Err(SimError::NumericInstability);
                },
            };
            let mut j: usize = 0;
            let band_len = band.len();
            while j < band_len
                invariant
                    self.wf_core(),
                    !self.stopped,
                    self.space_size == n,
                    self.workers == w,
                    1 <= w,
                    n == w * len_per,
                    n <= MAX_SIZE,
                    self.model() == m1,
                    m1.n == n,
                    0 <= b < w,
                    row_start == b * len_per,
                    row_end == (b + 1) * len_per,
                    row_start <= row_end <= n,
                    row_start * n + len_per * n == row_end * n,
                    row_end * n <= n * n,
                    n * n <= 1024 * 1024,
                    band_len == len_per * n,
                    band@.len() == band_len,
                    forall|j2: int|
                        0 <= j2 < band_len ==> #[trigger] band@[j2] == step_cell_spec(
                            m1.prev,
                            m1.cur,
                            m1.cs,
                            m1.ks,
                            n as int,
                            row_start * n + j2,
                        ),
                    0 <= j <= band_len,
                    forall|i: int|
                        0 <= i < row_start * n + j ==> #[trigger] self.space_next.space@[i]
                            == step_cell_spec(m1.prev, m1.cur, m1.cs, m1.ks, n as int, i),
                    forall|i: int|
                        0 <= i < row_end * n ==> i64::MIN <= #[trigger] step_cell_spec(
                            m1.prev,
                            m1.cur,
                            m1.cs,
                            m1.ks,
                            n as int,
                            i,
                        ) <= i64::MAX,
                    forall|i: int|
                        row_start * n + j <= i < n * n ==> #[trigger] self.space_next.space@[i]
                            == 0,
                decreases band_len - j,
            {
                self.space_next.space.set(row_start * n + j, band[j]);
                j = j + 1;
            }
            let ghost b_old = b as int;
            b = b + 1;
            proof {
                assert(b as int * len_per * n == ((b_old + 1) * len_per) * n)
                    by (nonlinear_arith)
                    requires
                        b == b_old + 1,
                ;
            }
        }
        proof {
            assert(w * len_per * n == (n as int) * (n as int)) by (nonlinear_arith)
                requires
                    n == w * len_per,
            ;
            assert(grid_fits(m1)) by {
                assert forall|i: int|
                    0 <= i < (m1.n as int) * (m1.n as int) implies i64::MIN
                    <= #[trigger] step_cell_spec(m1.prev, m1.cur, m1.cs, m1.ks, m1.n as int, i)
                    <= i64::MAX by {}
            }
        }

        // Rotate: previous <- current, current <- next, next <- zeroed.
        core::mem::swap(&mut self.space_previous.space, &mut self.space_current.space);
        core::mem::swap(&mut self.space_current.space, &mut self.space_next.space);
        zero_fill(&mut self.space_next.space);
        proof {
            assert(self.space_current.space@ =~= step_seq(m1)) by {
                assert forall|i: int| 0 <= i < (m1.n as nat) * (m1.n as nat) implies self.space_current.space@[i]
                    == step_seq(m1)[i] by {
                    assert(self.space_current.space@[i] == step_cell_spec(
                        m1.prev,
                        m1.cur,
                        m1.cs,
                        m1.ks,
                        n as int,
                        i,
                    ));
                }
            }
            assert(final(self).model() =~= tick_model(old(self).model()));
        }
        Ok(true)
    }
}

/// Flat row-major index of a cell: in range and free of overflow for a
/// grid of side at most 1024.
proof fn lemma_flat_index(x: int, y: int, n: int)
    by (nonlinear_arith)
    requires
        0 <= x < n,
        0 <= y < n,
        n <= 1024,
    ensures
        0 <= x + y * n < n * n,
        n * n <= 1024 * 1024,
{
}

/// Band boundaries for worker `b` of `w`, each owning `len_per` rows.
proof fn lemma_band_layout(b: int, len_per: int, n: int, w: int)
    by (nonlinear_arith)
    requires
        0 <= b < w,
        0 <= len_per,
        n == w * len_per,
        n <= 1024,
    ensures
        0 <= b * len_per <= (b + 1) * len_per <= n,
        (b + 1) * len_per - b * len_per == len_per,
        (b * len_per) * n + len_per * n == ((b + 1) * len_per) * n,
        ((b + 1) * len_per) * n <= n * n,
        n * n <= 1024 * 1024,
        b * len_per * n == (b * len_per) * n,
{
}

/// Overwrite every element with zero, keeping the length.
fn zero_fill(v: &mut Vec<i64>)
    ensures
        final(v)@.len() == old(v)@.len(),
        forall|i: int| 0 <= i < final(v)@.len() ==> #[trigger] final(v)@[i] == 0,
{
    let len = v.len();
    let mut i: usize = 0;
    while i < len
        invariant
            v@.len() == len,
            0 <= i <= len,
            forall|j: int| 0 <= j < i ==> #[trigger] v@[j] == 0,
        decreases len - i,
    {
        v.set(i, 0);
        i = i + 1;
    }
}

} // verus!
