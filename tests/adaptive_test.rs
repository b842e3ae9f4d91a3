use numlib::adaptive::{AdaptivePlan, Outcome, Panel};
use numlib::error::NumError;

fn simpson_panel(f: fn(f64) -> f64, a: f64, b: f64) -> f64 {
    let m = (a + b) / 2.0;
    (b - a) / 6.0 * (f(a) + 4.0 * f(m) + f(b))
}

fn run(f: fn(f64) -> f64, a: f64, b: f64, eps: f64, max_depth: u32) -> Result<(f64, u64), NumError> {
    let mut plan = AdaptivePlan::new(max_depth);
    let mut total = 0.0;
    while let Some(p) = plan.current() {
        let scale = (1u64 << p.depth) as f64;
        let w = (b - a) / scale;
        let lo = a + (p.index as f64) * w;
        let hi = lo + w;
        let mid = (lo + hi) / 2.0;
        let whole = simpson_panel(f, lo, hi);
        let delta = simpson_panel(f, lo, mid) + simpson_panel(f, mid, hi) - whole;
        let within = delta.abs() <= 15.0 * eps / scale;
        if let Outcome::Accepted(_) = plan.report(within)? {
            total += whole + delta + delta / 15.0;
        }
    }
    Ok((total, plan.evaluations()))
}

#[test]
fn adaptive_sine_over_two_periods() {
    let eps = 1e-6;
    let (r, evaluations) = run(f64::sin, 0.0, 4.0 * std::f64::consts::PI, eps, 20).unwrap();
    assert!(r.abs() <= eps);
    assert!(evaluations <= (1u64 << 21) - 1);
}

#[test]
fn adaptive_polynomial_exact() {
    let (r, evaluations) = run(|x| x * x * x, 0.0, 2.0, 1e-9, 10).unwrap();
    assert!((r - 4.0).abs() <= 1e-12);
    assert!(evaluations >= 1);
}

#[test]
fn plan_starts_with_whole_interval() {
    let plan = AdaptivePlan::new(5);
    assert_eq!(plan.current(), Some(Panel { depth: 0, index: 0 }));
    assert_eq!(plan.evaluations(), 0);
    assert!(!plan.failed());
}

#[test]
fn plan_refines_left_half_first() {
    let mut plan = AdaptivePlan::new(3);
    assert_eq!(plan.report(false), Ok(Outcome::Refined(Panel { depth: 0, index: 0 })));
    assert_eq!(plan.current(), Some(Panel { depth: 1, index: 0 }));
    assert_eq!(plan.report(true), Ok(Outcome::Accepted(Panel { depth: 1, index: 0 })));
    assert_eq!(plan.current(), Some(Panel { depth: 1, index: 1 }));
    assert_eq!(plan.report(false), Ok(Outcome::Refined(Panel { depth: 1, index: 1 })));
    assert_eq!(plan.current(), Some(Panel { depth: 2, index: 2 }));
    assert_eq!(plan.report(true), Ok(Outcome::Accepted(Panel { depth: 2, index: 2 })));
    assert_eq!(plan.report(true), Ok(Outcome::Accepted(Panel { depth: 2, index: 3 })));
    assert_eq!(plan.current(), None);
    assert_eq!(plan.evaluations(), 5);
}

#[test]
fn plan_fails_at_maximum_depth() {
    let mut plan = AdaptivePlan::new(2);
    let mut result = Ok(Outcome::Refined(Panel { depth: 0, index: 0 }));
    let mut steps = 0;
    while plan.current().is_some() {
        result = plan.report(false);
        steps += 1;
    }
    assert_eq!(result, Err(NumError::ConvergenceFailure));
    assert!(plan.failed());
    assert_eq!(steps, 3);
}

#[test]
fn plan_with_no_refinement_fails_at_once() {
    let mut plan = AdaptivePlan::new(0);
    assert_eq!(plan.report(false), Err(NumError::ConvergenceFailure));
    assert_eq!(plan.current(), None);
}

#[test]
fn plan_always_refining_stays_bounded() {
    let mut plan = AdaptivePlan::new(4);
    let mut count: u64 = 0;
    while plan.current().is_some() {
        let deep = plan.current().unwrap().depth == 4;
        let _ = plan.report(deep);
        count += 1;
    }
    assert_eq!(count, 31);
    assert_eq!(plan.evaluations(), 31);
}
