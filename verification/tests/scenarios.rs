use std::cell::Cell;

use adaptive_sampler::AdaptiveSampler;
use adaptive_sampler::Subdiv;

fn key(x: f64) -> u64 {
    let b: u64 = x.to_bits();
    if b & (1u64 << 63) != 0 { !b } else { b ^ (1u64 << 63) }
}

fn unkey(k: u64) -> f64 {
    if k & (1u64 << 63) != 0 { f64::from_bits(k ^ (1u64 << 63)) } else { f64::from_bits(!k) }
}

fn euclid(x1: f64, x2: f64, y1: f64, y2: f64) -> f64 {
    (y2 - y1).powi(2) + (x2 - x1).powi(2)
}

fn sampler_for<F: Fn(f64) -> f64>(f: &F, lower: f64, upper: f64) -> AdaptiveSampler {
    let f_lower: f64 = f(lower);
    let f_upper: f64 = f(upper);
    AdaptiveSampler::new(key(lower), key(upper), key(f_lower), key(f_upper)).unwrap()
}

fn step<F: Fn(f64) -> f64>(f: &F, s: &mut AdaptiveSampler) -> (f64, f64) {
    let top: Subdiv = s.peek();
    let left: f64 = unkey(top.left);
    let right: f64 = unkey(top.right);
    let mid: f64 = (left + right) / 2.;
    let f_mid: f64 = f(mid);
    let loss_left: f64 = euclid(left, mid, unkey(top.f_left), f_mid);
    let loss_right: f64 = euclid(mid, right, f_mid, unkey(top.f_right));
    let (xk, yk) = s.next(key(mid), key(f_mid), key(loss_left), key(loss_right)).unwrap();
    (unkey(xk), unkey(yk))
}

/// Drive to convergence: step, then stop once the worst remaining loss is
/// at or below the tolerance.  The step budget only guards the test run;
/// every scenario here converges far below it.
fn until<F: Fn(f64) -> f64>(f: &F, s: &mut AdaptiveSampler, tol: f64) -> Vec<(f64, f64)> {
    let mut out: Vec<(f64, f64)> = Vec::new();
    let mut budget: usize = 100_000;
    loop {
        out.push(step(f, s));
        budget -= 1;
        assert!(budget > 0, "refinement did not converge");
        if !s.needs_refinement(key(tol)) {
            break;
        }
    }
    out
}

fn bump(x: f64) -> f64 {
    x + 0.0001 / (0.0001 + x * x)
}

#[test]
fn bump_function_samples_densely_near_the_peak() {
    let mut s = sampler_for(&bump, -1.0, 1.0);
    let samples: Vec<(f64, f64)> = until(&bump, &mut s, 0.01);
    // converged: no remaining segment scores above the tolerance
    assert!(!s.needs_refinement(key(0.01)));
    let mut near_peak: usize = 0;
    let mut near_edges: usize = 0;
    for &(x, y) in &samples {
        assert!(-1.0 < x && x < 1.0);
        assert_eq!(y, bump(x));
        if x.abs() < 0.1 {
            near_peak += 1;
        }
        if x.abs() > 0.9 {
            near_edges += 1;
        }
    }
    assert!(near_peak > near_edges);
    assert!(near_peak > 0);
}

#[test]
fn bump_function_refinement_is_reproducible() {
    let mut s1 = sampler_for(&bump, -1.0, 1.0);
    let first: Vec<(f64, f64)> = until(&bump, &mut s1, 0.01);
    let mut s2 = sampler_for(&bump, -1.0, 1.0);
    let second: Vec<(f64, f64)> = until(&bump, &mut s2, 0.01);
    assert_eq!(first.len(), second.len());
    for i in 0..first.len() {
        assert_eq!(first[i], second[i]);
    }
    assert_eq!(s1.subdivisions(), s2.subdivisions());
}

#[test]
fn linear_function_terminates_with_one_sample_at_half_tolerance() {
    let f = |x: f64| x;
    let mut s = sampler_for(&f, 0.0, 1.0);
    let samples: Vec<(f64, f64)> = until(&f, &mut s, 0.5);
    // both halves of the unit segment score exactly 0.5, within tolerance
    assert_eq!(samples, vec![(0.5, 0.5)]);
}

#[test]
fn linear_function_ends_evenly_spaced() {
    let f = |x: f64| x;
    let mut s = sampler_for(&f, 0.0, 1.0);
    // for a line, the loss is driven by segment length alone, so the
    // engine keeps splitting the widest segment: widths stay in lockstep
    let samples: Vec<(f64, f64)> = until(&f, &mut s, 0.02);
    // a width-w linear segment scores 2 * w^2: width 1/8 scores 0.03125,
    // width 1/16 scores 0.0078125, so refinement stops at sixteenths
    assert_eq!(samples.len(), 15);
    let segs: Vec<Subdiv> = s.subdivisions();
    assert_eq!(segs.len(), 16);
    for seg in segs {
        assert_eq!(unkey(seg.right) - unkey(seg.left), 0.0625);
    }
}

#[test]
fn tolerance_above_first_split_loss_returns_one_sample() {
    let f = |x: f64| x;
    let mut s = sampler_for(&f, 0.0, 1.0);
    // the tolerance exceeds the sentinel and both first-split scores:
    // the convergence check runs after a step, so exactly one sample
    let samples: Vec<(f64, f64)> = until(&f, &mut s, 2.0);
    assert_eq!(samples.len(), 1);
}

#[test]
fn construction_costs_two_evaluations_and_each_step_one() {
    let calls: Cell<usize> = Cell::new(0);
    let f = |x: f64| {
        calls.set(calls.get() + 1);
        x * x
    };
    let mut s = sampler_for(&f, 0.0, 4.0);
    assert_eq!(calls.get(), 2);
    for n in 1..=10 {
        step(&f, &mut s);
        assert_eq!(calls.get(), 2 + n);
    }
}
