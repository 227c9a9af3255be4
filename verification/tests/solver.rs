//! Solver behavior, in integer coordinate units. Where a scenario is
//! stated in abstract units with fractional results, the test uses a
//! fixed-point scale (noted at each test) so every expected value is
//! exact.

use fed::constrman::{Constr, ConstrMan};
use fed::dat::{StoreError, Vec2, ID};
use fed::pointman::PointMan;

#[test]
fn solve_empty_set_is_noop() {
    let mut pm = PointMan::new();
    let a = pm.add(Vec2::new(12, -7));
    let b = pm.add(Vec2::new(-3, 44));
    let cm = ConstrMan::new();
    let stats = cm.solve(&mut pm).unwrap();
    assert_eq!(stats.applied, 0);
    assert_eq!(stats.skipped, 0);
    assert_eq!(pm.get(a), Ok(Vec2::new(12, -7)));
    assert_eq!(pm.get(b), Ok(Vec2::new(-3, 44)));
}

#[test]
fn horizontal_scenario() {
    // Ten units to the distance unit: A=(0,0), B=(100,50); one sweep
    // levels them to A=(0,5), B=(100,45), computed as 0.9*0 + 0.1*50 = 5
    // and 0.9*50 + 0.1*0 = 45; both x coordinates are unchanged.
    let mut pm = PointMan::new();
    let a = pm.add(Vec2::new(0, 0));
    let b = pm.add(Vec2::new(100, 50));
    let mut cm = ConstrMan::new();
    cm.add(Constr::Hor(a, b));
    let stats = cm.solve(&mut pm).unwrap();
    assert_eq!(stats.applied, 1);
    assert_eq!(pm.get(a), Ok(Vec2::new(0, 5)));
    assert_eq!(pm.get(b), Ok(Vec2::new(100, 45)));
}

#[test]
fn distance_scenario() {
    // Ten units to the distance unit: A=(0,0), B=(100,0), target 50.
    // cd = 100, v = (A-B)*(50/100 - 1) = (50, 0); one sweep gives
    // A=(5,0), B=(95,0); the separation 90 is closer to 50 than 100 was.
    let mut pm = PointMan::new();
    let a = pm.add(Vec2::new(0, 0));
    let b = pm.add(Vec2::new(100, 0));
    let mut cm = ConstrMan::new();
    cm.add(Constr::Dist(a, b, 50));
    let stats = cm.solve(&mut pm).unwrap();
    assert_eq!(stats.applied, 1);
    assert_eq!(pm.get(a), Ok(Vec2::new(5, 0)));
    assert_eq!(pm.get(b), Ok(Vec2::new(95, 0)));
}

#[test]
fn horizontal_gap_shrinks_each_sweep() {
    let mut pm = PointMan::new();
    let a = pm.add(Vec2::new(7, 0));
    let b = pm.add(Vec2::new(-9, 500));
    let mut cm = ConstrMan::new();
    cm.add(Constr::Hor(a, b));
    let mut gap: i64 = 500;
    while gap >= 10 {
        cm.solve(&mut pm).unwrap();
        let pa = pm.get(a).unwrap();
        let pb = pm.get(b).unwrap();
        // x coordinates are never modified by the horizontal rule
        assert_eq!(pa.x, 7);
        assert_eq!(pb.x, -9);
        let new_gap = (pa.y - pb.y).abs();
        assert!(new_gap < gap, "gap must shrink strictly: {} -> {}", gap, new_gap);
        gap = new_gap;
    }
}

#[test]
fn vertical_gap_shrinks_each_sweep() {
    let mut pm = PointMan::new();
    let a = pm.add(Vec2::new(0, 3));
    let b = pm.add(Vec2::new(500, -4));
    let mut cm = ConstrMan::new();
    cm.add(Constr::Ver(a, b));
    let mut gap: i64 = 500;
    while gap >= 10 {
        cm.solve(&mut pm).unwrap();
        let pa = pm.get(a).unwrap();
        let pb = pm.get(b).unwrap();
        assert_eq!(pa.y, 3);
        assert_eq!(pb.y, -4);
        let new_gap = (pa.x - pb.x).abs();
        assert!(new_gap < gap, "gap must shrink strictly: {} -> {}", gap, new_gap);
        gap = new_gap;
    }
}

#[test]
fn vertical_scenario() {
    // The horizontal scenario with x and y swapped.
    let mut pm = PointMan::new();
    let a = pm.add(Vec2::new(0, 0));
    let b = pm.add(Vec2::new(50, 100));
    let mut cm = ConstrMan::new();
    cm.add(Constr::Ver(a, b));
    cm.solve(&mut pm).unwrap();
    assert_eq!(pm.get(a), Ok(Vec2::new(5, 0)));
    assert_eq!(pm.get(b), Ok(Vec2::new(45, 100)));
}

fn separation(pm: &PointMan, a: ID, b: ID) -> u64 {
    let pa = pm.get(a).unwrap();
    let pb = pm.get(b).unwrap();
    fed::num::isqrt(pa.dist2(pb))
}

#[test]
fn distance_converges() {
    // Ten thousand units to the distance unit: target 5.0000, starting
    // separation 10.0000. One sweep must come strictly closer; repeated
    // sweeps must come within 0.0010 of the target (tolerance 10 units).
    let mut pm = PointMan::new();
    let a = pm.add(Vec2::new(0, 0));
    let b = pm.add(Vec2::new(100000, 0));
    let mut cm = ConstrMan::new();
    cm.add(Constr::Dist(a, b, 50000));
    let mut residue: u64 = 50000;
    for _ in 0..200 {
        cm.solve(&mut pm).unwrap();
        let sep = separation(&pm, a, b);
        let r = if sep >= 50000 { sep - 50000 } else { 50000 - sep };
        assert!(r <= residue);
        residue = r;
        if residue < 10 {
            break;
        }
    }
    assert!(residue < 10, "did not converge: residue {}", residue);
}

#[test]
fn distance_grows_toward_target() {
    // Separation below the target: one sweep moves the points apart.
    let mut pm = PointMan::new();
    let a = pm.add(Vec2::new(0, 0));
    let b = pm.add(Vec2::new(100, 0));
    let mut cm = ConstrMan::new();
    cm.add(Constr::Dist(a, b, 300));
    cm.solve(&mut pm).unwrap();
    // v = (A-B)*(300/100 - 1) = (-200, 0), A' = A + (-20, 0)
    assert_eq!(pm.get(a), Ok(Vec2::new(-20, 0)));
    assert_eq!(pm.get(b), Ok(Vec2::new(120, 0)));
    assert_eq!(separation(&pm, a, b), 140);
}

#[test]
fn sweep_is_sequential_within_one_call() {
    // Two constraints share endpoint A. The distance rule must read the
    // A that the horizontal rule already corrected in this same sweep.
    let mut pm = PointMan::new();
    let a = pm.add(Vec2::new(0, 0));
    let b = pm.add(Vec2::new(100, 100));
    let c = pm.add(Vec2::new(200, 0));
    let mut cm = ConstrMan::new();
    cm.add(Constr::Hor(a, b));
    cm.add(Constr::Dist(a, c, 100));
    let stats = cm.solve(&mut pm).unwrap();
    assert_eq!(stats.applied, 2);
    // Stage 1, Hor(A,B): A=(0,10), B=(100,90).
    // Stage 2, Dist(A,C,100) reads the corrected A=(0,10):
    //   cd = isqrt(200^2 + 10^2) = 200, correction (10, 0) toward C.
    assert_eq!(pm.get(a), Ok(Vec2::new(10, 10)));
    assert_eq!(pm.get(b), Ok(Vec2::new(100, 90)));
    assert_eq!(pm.get(c), Ok(Vec2::new(190, 0)));
}

#[test]
fn degenerate_distance_is_skipped() {
    let mut pm = PointMan::new();
    let a = pm.add(Vec2::new(5, 5));
    let b = pm.add(Vec2::new(5, 5));
    let other = pm.add(Vec2::new(5, 105));
    let mut cm = ConstrMan::new();
    cm.add(Constr::Dist(a, b, 70));
    cm.add(Constr::Hor(a, other));
    let stats = cm.solve(&mut pm).unwrap();
    assert_eq!(stats.skipped, 1);
    assert_eq!(stats.applied, 1);
    // the degenerate pair is untouched for this sweep...
    assert_eq!(pm.get(b), Ok(Vec2::new(5, 5)));
    // ...while the later constraint was still applied
    assert_eq!(pm.get(a), Ok(Vec2::new(5, 15)));
    assert_eq!(pm.get(other), Ok(Vec2::new(5, 95)));
}

#[test]
fn self_referencing_constraints() {
    let mut pm = PointMan::new();
    let a = pm.add(Vec2::new(3, 4));
    let mut cm = ConstrMan::new();
    cm.add(Constr::Hor(a, a));
    cm.add(Constr::Dist(a, a, 50));
    let stats = cm.solve(&mut pm).unwrap();
    // leveling a point with itself moves nothing; a distance constraint
    // on coincident points is degenerate and skipped
    assert_eq!(stats.applied, 1);
    assert_eq!(stats.skipped, 1);
    assert_eq!(pm.get(a), Ok(Vec2::new(3, 4)));
}

#[test]
fn stale_constraint_fails_solve_untouched() {
    let mut pm = PointMan::new();
    let a = pm.add(Vec2::new(0, 0));
    let b = pm.add(Vec2::new(100, 50));
    let mut cm = ConstrMan::new();
    cm.add(Constr::Hor(a, b));
    cm.add(Constr::Ver(a, ID::new(17, 0)));
    assert_eq!(cm.solve(&mut pm), Err(StoreError::StaleOrUnknownID));
    // the failed sweep committed nothing, not even the valid first rule
    assert_eq!(pm.get(a), Ok(Vec2::new(0, 0)));
    assert_eq!(pm.get(b), Ok(Vec2::new(100, 50)));
}

#[test]
fn unrepresentable_correction_is_skipped() {
    let mut pm = PointMan::new();
    let a = pm.add(Vec2::new(0, 0));
    let b = pm.add(Vec2::new(10, 0));
    let mut cm = ConstrMan::new();
    cm.add(Constr::Dist(a, b, u64::MAX));
    let stats = cm.solve(&mut pm).unwrap();
    assert_eq!(stats.skipped, 1);
    assert_eq!(pm.get(a), Ok(Vec2::new(0, 0)));
    assert_eq!(pm.get(b), Ok(Vec2::new(10, 0)));
}

#[test]
fn measured_sweep_reports_largest_displacement() {
    let mut pm = PointMan::new();
    let a = pm.add(Vec2::new(0, 0));
    let b = pm.add(Vec2::new(100, 50));
    let untouched = pm.add(Vec2::new(9, 9));
    let mut cm = ConstrMan::new();
    cm.add(Constr::Hor(a, b));
    let (stats, worst) = cm.solve_measured(&mut pm).unwrap();
    assert_eq!(stats.applied, 1);
    // both endpoints moved 5 units in y: squared displacement 25
    assert_eq!(worst, 25);
    assert_eq!(pm.get(untouched), Ok(Vec2::new(9, 9)));
    // a caller-chosen convergence threshold: not yet below 2 units
    assert!(worst > 2 * 2);
}

#[test]
fn measured_sweep_converges_below_threshold() {
    let mut pm = PointMan::new();
    let a = pm.add(Vec2::new(0, 0));
    let b = pm.add(Vec2::new(0, 400));
    let mut cm = ConstrMan::new();
    cm.add(Constr::Hor(a, b));
    let threshold_sq: u64 = 3 * 3;
    let mut converged = false;
    for _ in 0..100 {
        let (_, worst) = cm.solve_measured(&mut pm).unwrap();
        if worst <= threshold_sq {
            converged = true;
            break;
        }
    }
    assert!(converged);
}

#[test]
fn points_without_constraints_pass_through() {
    let mut pm = PointMan::new();
    let a = pm.add(Vec2::new(0, 0));
    let b = pm.add(Vec2::new(100, 60));
    let lone = pm.add(Vec2::new(-55, 77));
    let mut cm = ConstrMan::new();
    cm.add(Constr::Hor(a, b));
    cm.solve(&mut pm).unwrap();
    assert_eq!(pm.get(lone), Ok(Vec2::new(-55, 77)));
}

#[test]
fn measured_sweep_fails_like_solve() {
    let mut pm = PointMan::new();
    let a = pm.add(Vec2::new(0, 0));
    let mut cm = ConstrMan::new();
    cm.add(Constr::Hor(a, ID::new(8, 0)));
    assert_eq!(cm.solve_measured(&mut pm), Err(StoreError::StaleOrUnknownID));
    assert_eq!(pm.get(a), Ok(Vec2::new(0, 0)));
}

#[test]
fn small_gap_stalls_without_crossing() {
    // below ten units the truncated tenth is zero: the pair no longer
    // moves, and in particular never crosses over
    let mut pm = PointMan::new();
    let a = pm.add(Vec2::new(0, 0));
    let b = pm.add(Vec2::new(0, 7));
    let mut cm = ConstrMan::new();
    cm.add(Constr::Hor(a, b));
    cm.solve(&mut pm).unwrap();
    assert_eq!(pm.get(a), Ok(Vec2::new(0, 0)));
    assert_eq!(pm.get(b), Ok(Vec2::new(0, 7)));
}

#[test]
fn distance_midpoint_preserved() {
    let mut pm = PointMan::new();
    let a = pm.add(Vec2::new(-30, 12));
    let b = pm.add(Vec2::new(90, -40));
    let mut cm = ConstrMan::new();
    cm.add(Constr::Dist(a, b, 37));
    for _ in 0..20 {
        cm.solve(&mut pm).unwrap();
        let pa = pm.get(a).unwrap();
        let pb = pm.get(b).unwrap();
        assert_eq!(pa.x + pb.x, 60);
        assert_eq!(pa.y + pb.y, -28);
    }
}
