use audio_sim::wave_simulator::{Order, Parameter, WaveSimulator};
use audio_sim::{SimError, SCALE};

fn amp(sim: &WaveSimulator, x: usize, y: usize) -> i64 {
    sim.space_current.get(x, y).unwrap()
}

#[test]
fn construction_follows_divisibility() {
    assert!(WaveSimulator::new(8, 1).is_ok());
    assert!(WaveSimulator::new(8, 2).is_ok());
    assert!(WaveSimulator::new(8, 4).is_ok());
    assert!(WaveSimulator::new(8, 8).is_ok());
    assert!(matches!(WaveSimulator::new(8, 3), Err(SimError::ConfigurationError)));
    assert!(matches!(WaveSimulator::new(8, 5), Err(SimError::ConfigurationError)));
    assert!(matches!(WaveSimulator::new(6, 4), Err(SimError::ConfigurationError)));
    assert!(matches!(WaveSimulator::new(8, 0), Err(SimError::ConfigurationError)));
}

#[test]
fn empty_grid_ticks() {
    let mut sim = WaveSimulator::new(0, 1).unwrap();
    assert_eq!(sim.next(), Ok(true));
}

#[test]
fn zero_grid_stays_zero() {
    let mut sim = WaveSimulator::new(6, 2).unwrap();
    for _ in 0..10 {
        assert_eq!(sim.next(), Ok(true));
        for y in 0..6 {
            for x in 0..6 {
                assert_eq!(amp(&sim, x, y), 0);
            }
        }
    }
}

#[test]
fn boundary_ring_resets_to_zero() {
    let mut sim = WaveSimulator::new(6, 1).unwrap();
    assert_eq!(sim.order(Order::Drop(0, 0, 5 * SCALE)), Ok(()));
    assert_eq!(sim.next(), Ok(true));
    assert_eq!(amp(&sim, 0, 0), 0);

    let mut sim = WaveSimulator::new(6, 2).unwrap();
    assert_eq!(sim.add_gauss(2 * SCALE, 2 * SCALE, SCALE, SCALE), Ok(()));
    assert_ne!(amp(&sim, 0, 0), 0);
    assert_eq!(sim.next(), Ok(true));
    for i in 0..6 {
        assert_eq!(amp(&sim, i, 0), 0);
        assert_eq!(amp(&sim, i, 5), 0);
        assert_eq!(amp(&sim, 0, i), 0);
        assert_eq!(amp(&sim, 5, i), 0);
    }
    assert_ne!(amp(&sim, 2, 2), 0);
}

#[test]
fn stationary_impulse_with_dead_coefficients() {
    // Set c = 0 and k = 0 on every cell (one command per tick), then seed a
    // stationary pulse; interior amplitudes must then hold indefinitely.
    let mut sim = WaveSimulator::new(4, 1).unwrap();
    for y in 0..4 {
        for x in 0..4 {
            assert_eq!(sim.order(Order::Change(Parameter::PropagationRatio(x, y, 0))), Ok(()));
            assert_eq!(sim.order(Order::Change(Parameter::DumpingRatio(x, y, 0))), Ok(()));
        }
    }
    for _ in 0..32 {
        assert_eq!(sim.next(), Ok(true));
    }
    assert_eq!(sim.orders.len(), 0);
    assert_eq!(sim.add_gauss(SCALE, SCALE, SCALE, SCALE), Ok(()));
    let held = amp(&sim, 1, 1);
    assert_eq!(held, 398_942);
    for _ in 0..5 {
        assert_eq!(sim.next(), Ok(true));
        assert_eq!(amp(&sim, 1, 1), held);
        assert_eq!(amp(&sim, 2, 1), 242_066);
        assert_eq!(amp(&sim, 1, 2), 242_066);
        assert_eq!(amp(&sim, 2, 2), 146_762);
    }
}

#[test]
fn partition_equivalence_across_worker_counts() {
    let mut sims: Vec<WaveSimulator> = vec![
        WaveSimulator::new(8, 1).unwrap(),
        WaveSimulator::new(8, 2).unwrap(),
        WaveSimulator::new(8, 4).unwrap(),
    ];
    for sim in sims.iter_mut() {
        assert_eq!(sim.add_gauss(3 * SCALE + 500_000, 2 * SCALE, 1_500_000, 2_000_000), Ok(()));
        assert_eq!(sim.order(Order::Drop(3, 4, 700_000)), Ok(()));
        assert_eq!(sim.order(Order::Change(Parameter::PropagationRatio(2, 2, 50_000))), Ok(()));
    }
    for _ in 0..6 {
        for sim in sims.iter_mut() {
            assert_eq!(sim.next(), Ok(true));
        }
        for y in 0..8 {
            for x in 0..8 {
                let v = amp(&sims[0], x, y);
                assert_eq!(amp(&sims[1], x, y), v);
                assert_eq!(amp(&sims[2], x, y), v);
            }
        }
    }
}

#[test]
fn command_cadence_one_per_tick() {
    let mut sim = WaveSimulator::new(8, 2).unwrap();
    assert_eq!(sim.order(Order::Change(Parameter::PropagationRatio(1, 1, 0))), Ok(()));
    assert_eq!(sim.order(Order::Change(Parameter::PropagationRatio(2, 2, 0))), Ok(()));
    assert_eq!(sim.order(Order::Change(Parameter::PropagationRatio(3, 3, 0))), Ok(()));
    assert_eq!(sim.orders.len(), 3);

    assert_eq!(sim.next(), Ok(true));
    assert_eq!(sim.orders.len(), 2);
    assert_eq!(sim.space_current.params_c[1 + 1 * 8], 0);
    assert_eq!(sim.space_current.params_c[2 + 2 * 8], 200_000);

    assert_eq!(sim.next(), Ok(true));
    assert_eq!(sim.orders.len(), 1);
    assert_eq!(sim.space_current.params_c[2 + 2 * 8], 0);
    assert_eq!(sim.space_current.params_c[3 + 3 * 8], 200_000);

    assert_eq!(sim.next(), Ok(true));
    assert_eq!(sim.orders.len(), 0);
    assert_eq!(sim.space_current.params_c[3 + 3 * 8], 0);
}

#[test]
fn concrete_scenario_one_tick() {
    // N = 4, W = 1, seed add_gauss(1, 1, 1.0, 1.0) on both fields; after one
    // tick the interior holds exactly the stencil of the seeded values and
    // the ring is zero.
    let mut sim = WaveSimulator::new(4, 1).unwrap();
    assert_eq!(sim.add_gauss(SCALE, SCALE, SCALE, SCALE), Ok(()));
    // The stationary seed: both fields hold the kernel.
    assert_eq!(amp(&sim, 1, 1), 398_942);
    assert_eq!(sim.space_previous.get(1, 1), Ok(398_942));

    assert_eq!(sim.next(), Ok(true));
    // By hand: u = p = 398942, all four neighbors 242066,
    // lap = 4 * 242066 - 4 * 398942 = -627504,
    // coeff = ((0.2^2 scaled) * dt^2/dx^2 scaled) = 1111,
    // damping = 0, so next = 398942 + trunc(1111 * -627504 / 10^6) = 398245.
    assert_eq!(amp(&sim, 1, 1), 398_245);
    assert_eq!(amp(&sim, 2, 1), 241_820);
    assert_eq!(amp(&sim, 1, 2), 241_820);
    assert_eq!(amp(&sim, 2, 2), 146_721);
    for i in 0..4 {
        assert_eq!(amp(&sim, i, 0), 0);
        assert_eq!(amp(&sim, i, 3), 0);
        assert_eq!(amp(&sim, 0, i), 0);
        assert_eq!(amp(&sim, 3, i), 0);
    }
    // The previous field now holds the seeded state.
    assert_eq!(sim.space_previous.get(1, 1), Ok(398_942));
}

#[test]
fn quit_stops_after_pending_commands() {
    let mut sim = WaveSimulator::new(4, 1).unwrap();
    assert_eq!(sim.order(Order::Drop(1, 1, SCALE)), Ok(()));
    assert_eq!(sim.order(Order::Quit), Ok(()));
    assert_eq!(sim.order(Order::Drop(2, 2, SCALE)), Ok(()));
    // Tick 1 applies the first drop.
    assert_eq!(sim.next(), Ok(true));
    // Tick 2 consumes Quit: stopped, no compute.
    assert_eq!(sim.next(), Ok(false));
    // Stopped for good; the last drop is never applied.
    assert_eq!(sim.next(), Ok(false));
    assert_eq!(sim.orders.len(), 1);
}

#[test]
fn intake_rejects_invalid_commands() {
    let mut sim = WaveSimulator::new(4, 1).unwrap();
    assert_eq!(sim.order(Order::Drop(9, 0, SCALE)), Err(SimError::IndexOutOfRange));
    assert_eq!(sim.order(Order::Drop(0, 4, SCALE)), Err(SimError::IndexOutOfRange));
    assert_eq!(
        sim.order(Order::Change(Parameter::PropagationRatio(5, 1, 0))),
        Err(SimError::IndexOutOfRange)
    );
    assert_eq!(
        sim.order(Order::Change(Parameter::PropagationRatio(1, 1, SCALE + 1))),
        Err(SimError::InvalidParameter)
    );
    assert_eq!(
        sim.order(Order::Change(Parameter::PropagationRatio(1, 1, -1))),
        Err(SimError::InvalidParameter)
    );
    assert_eq!(
        sim.order(Order::Change(Parameter::DumpingRatio(1, 1, -5))),
        Err(SimError::InvalidParameter)
    );
    assert_eq!(sim.orders.len(), 0);
    // The rejected commands never reach the simulation: it still ticks.
    assert_eq!(sim.next(), Ok(true));
}

#[test]
fn change_parameter_restarts_cell_from_rest() {
    let mut sim = WaveSimulator::new(4, 1).unwrap();
    assert_eq!(sim.add_gauss(SCALE, SCALE, SCALE, SCALE), Ok(()));
    assert_ne!(amp(&sim, 1, 1), 0);
    assert_eq!(sim.order(Order::Change(Parameter::DumpingRatio(1, 1, 500_000))), Ok(()));
    assert_eq!(sim.next(), Ok(true));
    // The tuned cell started this tick from rest; its parameter persisted.
    assert_eq!(sim.space_current.params_k[1 + 1 * 4], 500_000);
}

#[test]
fn stencil_overflow_stops_the_run() {
    let mut sim = WaveSimulator::new(4, 1).unwrap();
    assert_eq!(sim.order(Order::Drop(1, 1, i64::MAX)), Ok(()));
    assert_eq!(sim.next(), Err(SimError::NumericInstability));
    assert_eq!(sim.next(), Ok(false));
}

#[test]
fn impulse_overflow_stops_the_run() {
    let mut sim = WaveSimulator::new(4, 1).unwrap();
    assert_eq!(sim.space_current.put(1, 1, i64::MAX), Ok(()));
    assert_eq!(sim.order(Order::Drop(1, 1, 1)), Ok(()));
    assert_eq!(sim.next(), Err(SimError::NumericInstability));
    assert_eq!(sim.next(), Ok(false));
}

#[test]
fn simulator_gauss_is_all_or_nothing() {
    let mut sim = WaveSimulator::new(4, 1).unwrap();
    assert_eq!(sim.space_current.put(1, 1, i64::MAX), Ok(()));
    assert_eq!(sim.add_gauss(SCALE, SCALE, SCALE, SCALE), Err(SimError::NumericInstability));
    assert_eq!(amp(&sim, 1, 1), i64::MAX);
    assert_eq!(amp(&sim, 0, 0), 0);
    assert_eq!(sim.space_previous.get(0, 0), Ok(0));
}

#[test]
fn gauss_seeds_both_fields() {
    let mut sim = WaveSimulator::new(4, 2).unwrap();
    assert_eq!(sim.add_gauss(SCALE, SCALE, SCALE, SCALE), Ok(()));
    for y in 0..4 {
        for x in 0..4 {
            assert_eq!(sim.space_previous.get(x, y), sim.space_current.get(x, y));
        }
    }
}
