use stable_fluids::step::Fluid;

const DT: i64 = 6_944; // about 1/144 of a unit of time

#[test]
fn new_simulation_is_all_zero() {
    let s = Fluid::new(8, 10_000, 10_000);
    for x in 0..=9 {
        for y in 0..=9 {
            assert_eq!(s.sample_density(x, y), 0);
            assert_eq!(s.sample_velocity(x, y), (0, 0));
        }
    }
    assert_eq!(s.n(), 8);
}

#[test]
fn injections_accumulate() {
    let mut s = Fluid::new(8, 10_000, 10_000);
    s.inject_density(4, 4, 25_000_000);
    s.inject_density(4, 4, 25_000_000);
    assert_eq!(s.sample_density(4, 4), 50_000_000);
    s.inject_velocity(3, 3, 2_000_000, -1_000_000);
    s.inject_velocity(3, 3, 500_000, 500_000);
    assert_eq!(s.sample_velocity(3, 3), (2_500_000, -500_000));
    // other cells untouched
    assert_eq!(s.sample_density(3, 3), 0);
    assert_eq!(s.sample_velocity(4, 4), (0, 0));
}

#[test]
fn end_to_end_single_injection_and_tick() {
    // 8x8 grid, zero-initialized: one density impulse at (4, 4), one tick.
    let mut s = Fluid::new(8, 10_000, 10_000);
    s.inject_density(4, 4, 25_000_000);
    s.tick(DT);
    // the injected mass is still (almost all) there...
    assert!(s.sample_density(4, 4) > 0);
    assert_eq!(s.sample_density(4, 4), 24_567_915);
    // ...its nearest neighbours picked up the diffused share...
    assert_eq!(s.sample_density(3, 4), 106_618);
    assert_eq!(s.sample_density(5, 4), 106_618);
    assert_eq!(s.sample_density(4, 3), 106_618);
    assert_eq!(s.sample_density(4, 5), 106_618);
    // ...and everything far from the impulse is exactly zero, ghost cells
    // included: one step at this dt reaches no further than four cells.
    for x in 0..=9i64 {
        for y in 0..=9i64 {
            if (x - 4).abs() + (y - 4).abs() >= 5 {
                assert_eq!(s.sample_density(x as usize, y as usize), 0);
            }
        }
    }
    // the velocity field was zero and stays zero
    for x in 0..=9 {
        for y in 0..=9 {
            assert_eq!(s.sample_velocity(x, y), (0, 0));
        }
    }
}

#[test]
fn identical_runs_are_bit_identical() {
    let run = || {
        let mut s = Fluid::new(8, 10_000, 10_000);
        s.inject_velocity(3, 3, 2_000_000, -1_000_000);
        s.inject_density(4, 4, 25_000_000);
        s.tick(DT);
        s.inject_density(4, 4, 25_000_000);
        s.tick(DT);
        s
    };
    let a = run();
    let b = run();
    for x in 0..=9 {
        for y in 0..=9 {
            assert_eq!(a.sample_density(x, y), b.sample_density(x, y));
            assert_eq!(a.sample_velocity(x, y), b.sample_velocity(x, y));
        }
    }
    assert_eq!(a.sample_density(4, 4), 47_153_157);
}
