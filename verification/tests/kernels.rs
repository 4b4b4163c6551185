use stable_fluids::advect::advect;
use stable_fluids::boundary::{enforce, BoundaryKind};
use stable_fluids::diffuse::diffuse;
use stable_fluids::field::Field;
use stable_fluids::fixed::{fadd, fhalf};
use stable_fluids::project::project;

fn field_from(n: usize, cells: &[(usize, usize, i64)]) -> Field {
    let mut f = Field::new(n);
    for &(x, y, val) in cells {
        f.set(x, y, val);
    }
    f
}

#[test]
fn mirror_x_negates_left_right_and_copies_top_bottom() {
    let mut f = field_from(2, &[(1, 1, 5_000_000), (2, 1, -3_000_000), (1, 2, 7_000_000), (2, 2, 1_000_000)]);
    enforce(BoundaryKind::MirrorX, &mut f);
    for y in 1..=2 {
        assert_eq!(f.get(0, y), -f.get(1, y));
        assert_eq!(f.get(3, y), -f.get(2, y));
    }
    for x in 1..=2 {
        assert_eq!(f.get(x, 0), f.get(x, 1));
        assert_eq!(f.get(x, 3), f.get(x, 2));
    }
    // interior untouched
    assert_eq!(f.get(1, 1), 5_000_000);
    assert_eq!(f.get(2, 1), -3_000_000);
}

#[test]
fn mirror_y_negates_top_bottom_and_copies_left_right() {
    let mut f = field_from(2, &[(1, 1, 5_000_000), (2, 1, -3_000_000), (1, 2, 7_000_000), (2, 2, 1_000_000)]);
    enforce(BoundaryKind::MirrorY, &mut f);
    for x in 1..=2 {
        assert_eq!(f.get(x, 0), -f.get(x, 1));
        assert_eq!(f.get(x, 3), -f.get(x, 2));
    }
    for y in 1..=2 {
        assert_eq!(f.get(0, y), f.get(1, y));
        assert_eq!(f.get(3, y), f.get(2, y));
    }
}

#[test]
fn continuity_copies_all_sides() {
    let mut f = field_from(2, &[(1, 1, 5_000_000), (2, 1, -3_000_000), (1, 2, 7_000_000), (2, 2, 1_000_000)]);
    enforce(BoundaryKind::Continuity, &mut f);
    for y in 1..=2 {
        assert_eq!(f.get(0, y), f.get(1, y));
        assert_eq!(f.get(3, y), f.get(2, y));
    }
    for x in 1..=2 {
        assert_eq!(f.get(x, 0), f.get(x, 1));
        assert_eq!(f.get(x, 3), f.get(x, 2));
    }
    assert_eq!(f.get(0, 0), 5_000_000);
}

#[test]
fn corners_average_their_two_adjacent_borders() {
    for kind in [BoundaryKind::Continuity, BoundaryKind::MirrorX, BoundaryKind::MirrorY] {
        let mut f = field_from(3, &[
            (1, 1, 5_000_000), (3, 1, -3_000_001), (1, 3, 7_000_005), (3, 3, 999_999),
            (2, 2, 123_456),
        ]);
        enforce(kind, &mut f);
        assert_eq!(f.get(0, 0), fhalf(fadd(f.get(1, 0), f.get(0, 1))));
        assert_eq!(f.get(0, 4), fhalf(fadd(f.get(1, 4), f.get(0, 3))));
        assert_eq!(f.get(4, 0), fhalf(fadd(f.get(3, 0), f.get(4, 1))));
        assert_eq!(f.get(4, 4), fhalf(fadd(f.get(3, 4), f.get(4, 3))));
    }
}

#[test]
fn diffuse_with_zero_coefficient_preserves_source_interior() {
    let n = 4;
    let mut src = Field::new(n);
    let mut tgt = Field::new(n);
    let mut val: i64 = -5_000_000;
    for i in 1..=n {
        for j in 1..=n {
            src.set(i, j, val);
            tgt.set(i, j, 77_777_777); // stale guess that must be overwritten
            val += 1_234_567;
        }
    }
    diffuse(BoundaryKind::Continuity, &mut tgt, &src, 0, 6944);
    for i in 1..=n {
        for j in 1..=n {
            assert_eq!(tgt.get(i, j), src.get(i, j));
        }
    }
}

#[test]
fn diffuse_exact_two_by_two() {
    // n=2, diff=0.2, dt=0.25 so a = 0.2; twenty Gauss-Seidel passes
    let src = field_from(2, &[(1, 1, 16_000_000), (2, 2, 4_000_000)]);
    let mut tgt = Field::new(2);
    diffuse(BoundaryKind::Continuity, &mut tgt, &src, 200_000, 250_000);
    assert_eq!(tgt.get(1, 1), 12_063_491);
    assert_eq!(tgt.get(1, 2), 2_222_221);
    assert_eq!(tgt.get(2, 1), 2_222_221);
    assert_eq!(tgt.get(2, 2), 3_492_062);
    // boundary enforced after the last pass
    assert_eq!(tgt.get(0, 1), 12_063_491);
    assert_eq!(tgt.get(0, 0), 12_063_491);
}

#[test]
fn advect_identity_on_zero_velocity() {
    let n = 4;
    let u = Field::new(n);
    let v = Field::new(n);
    let mut src = Field::new(n);
    let mut tgt = Field::new(n);
    let mut val: i64 = 3;
    for i in 1..=n {
        for j in 1..=n {
            src.set(i, j, val);
            tgt.set(i, j, -9_999); // must be overwritten by the resample
            val = val.wrapping_mul(31) + 17;
        }
    }
    advect(BoundaryKind::Continuity, &mut tgt, &src, &u, &v, 6944);
    for i in 1..=n {
        for j in 1..=n {
            assert_eq!(tgt.get(i, j), src.get(i, j));
        }
    }
}

#[test]
fn advect_shifts_by_uniform_velocity() {
    // u = 0.5 everywhere, dt = 0.5, n = 4: backtrace offset is exactly one
    // cell in x, so each interior cell takes its left neighbour's value.
    let n = 4;
    let mut u = Field::new(n);
    let v = Field::new(n);
    for x in 0..=n + 1 {
        for y in 0..=n + 1 {
            u.set(x, y, 500_000);
        }
    }
    let src = field_from(n, &[(2, 2, 8_000_000), (3, 2, 2_000_000)]);
    let mut tgt = Field::new(n);
    advect(BoundaryKind::Continuity, &mut tgt, &src, &u, &v, 500_000);
    assert_eq!(tgt.get(1, 2), 0);
    assert_eq!(tgt.get(2, 2), 0);
    assert_eq!(tgt.get(3, 2), 8_000_000);
    assert_eq!(tgt.get(4, 2), 2_000_000);
}

fn divergence_l2(u: &Field, v: &Field, n: usize) -> i128 {
    let mut sum: i128 = 0;
    for i in 1..=n {
        for j in 1..=n {
            let d = (u.get(i + 1, j) as i128 - u.get(i - 1, j) as i128)
                + (v.get(i, j + 1) as i128 - v.get(i, j - 1) as i128);
            sum += d * d;
        }
    }
    sum
}

#[test]
fn project_reduces_divergence() {
    // The v update uses the symmetric stencil p[i, j+1] - p[i, j-1], the
    // physically correct counterpart of the u update; the exact values below
    // pin that choice down.
    // A radially expanding field: strongly positive divergence everywhere.
    let n = 8;
    let mut u = Field::new(n);
    let mut v = Field::new(n);
    for i in 1..=n {
        for j in 1..=n {
            u.set(i, j, (i as i64 - 4) * 1_000_000);
            v.set(i, j, (j as i64 - 4) * 1_000_000);
        }
    }
    enforce(BoundaryKind::MirrorX, &mut u);
    enforce(BoundaryKind::MirrorY, &mut v);
    let before = divergence_l2(&u, &v, n);
    assert_eq!(before, 1_568_000_000_000_000);
    project(&mut u, &mut v);
    let after = divergence_l2(&u, &v, n);
    assert_eq!(after, 260_283_582_729_600);
    assert!(after < before);
}
