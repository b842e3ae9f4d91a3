use numlib::error::NumError;
use numlib::integrate::{make_rule, simpson_rule, three_eighths_rule, trapezoid_rule, Rule, RuleKind};

fn square(x: f64) -> f64 {
    x * x
}

fn estimate(rule: &Rule, a: f64, b: f64, f: fn(f64) -> f64) -> f64 {
    let n = (rule.weights.len() - 1) as f64;
    let h = (b - a) / n;
    let mut sum = 0.0;
    for (i, w) in rule.weights.iter().enumerate() {
        sum += (*w as f64) * f(a + (i as f64) * h);
    }
    h * (rule.num as f64) / (rule.den as f64) * sum
}

#[test]
fn trapezoid_quad() {
    let a: f64 = 0.66679;
    let rule = trapezoid_rule(100).unwrap();
    assert!((a - estimate(&rule, -1.0, 1.0, square)).abs() <= 2.0);
}

#[test]
fn simpson_test() {
    let a: f64 = 0.66679;
    let rule = simpson_rule(100).unwrap();
    assert!((a - estimate(&rule, -1.0, 1.0, square)).abs() <= 2.0);
}

#[test]
fn three_eighth_simpson_test() {
    let a: f64 = 0.66679;
    let rule = three_eighths_rule(100).unwrap();
    assert!((a - estimate(&rule, -1.0, 1.0, square)).abs() <= 2.0);
}

#[test]
fn simpson_square_on_unit_interval_within_tolerance() {
    let rule = simpson_rule(100).unwrap();
    let r = estimate(&rule, -1.0, 1.0, square);
    assert!((r - 2.0 / 3.0).abs() <= 1e-3);
}

#[test]
fn trapezoid_weights_exact() {
    let rule = trapezoid_rule(4).unwrap();
    assert_eq!(rule.weights, vec![1, 2, 2, 2, 1]);
    assert_eq!((rule.num, rule.den), (1, 2));
}

#[test]
fn simpson_weights_exact() {
    let rule = simpson_rule(6).unwrap();
    assert_eq!(rule.weights, vec![1, 4, 2, 4, 2, 4, 1]);
    assert_eq!((rule.num, rule.den), (1, 3));
}

#[test]
fn three_eighths_weights_exact() {
    let rule = three_eighths_rule(7).unwrap();
    assert_eq!(rule.weights, vec![0, 3, 3, 2, 3, 3, 2, 0]);
    assert_eq!((rule.num, rule.den), (3, 8));
}

#[test]
fn single_panel_trapezoid() {
    let rule = trapezoid_rule(1).unwrap();
    assert_eq!(rule.weights, vec![1, 1]);
    let r = estimate(&rule, 0.0, 2.0, square);
    assert_eq!(r, 2.0 * (0.0 + 4.0) / 2.0);
}

#[test]
fn zero_panels_rejected() {
    assert!(matches!(trapezoid_rule(0), Err(NumError::InvalidArgument)));
    assert!(matches!(simpson_rule(0), Err(NumError::InvalidArgument)));
    assert!(matches!(three_eighths_rule(-3), Err(NumError::InvalidArgument)));
}

#[test]
fn odd_simpson_rejected() {
    assert!(matches!(simpson_rule(7), Err(NumError::InvalidArgument)));
    assert!(matches!(make_rule(RuleKind::Simpson, 1), Err(NumError::InvalidArgument)));
    assert!(make_rule(RuleKind::Trapezoid, 7).is_ok());
}

#[test]
fn repeated_calls_bit_identical() {
    let r1 = estimate(&simpson_rule(100).unwrap(), 0.0, 3.0, f64::sin);
    let r2 = estimate(&simpson_rule(100).unwrap(), 0.0, 3.0, f64::sin);
    assert_eq!(r1.to_bits(), r2.to_bits());
    let t1 = trapezoid_rule(37).unwrap();
    let t2 = trapezoid_rule(37).unwrap();
    assert_eq!(t1.weights, t2.weights);
}

#[test]
fn reversed_interval_negates() {
    let rule = simpson_rule(100).unwrap();
    let forward = estimate(&rule, -1.0, 2.0, square);
    let backward = estimate(&rule, 2.0, -1.0, square);
    assert!((forward - 3.0).abs() <= 1e-9);
    assert!((forward + backward).abs() <= 1e-9);
    let trap = trapezoid_rule(9).unwrap();
    let f = estimate(&trap, 0.0, 1.0, f64::exp);
    let b = estimate(&trap, 1.0, 0.0, f64::exp);
    assert!((f + b).abs() <= 1e-12);
}

#[test]
fn trapezoid_error_shrinks_fourfold() {
    let exact = 1.0f64.exp() - 1.0;
    let mut previous = f64::INFINITY;
    for n in [8i64, 16, 32, 64] {
        let err = (estimate(&trapezoid_rule(n).unwrap(), 0.0, 1.0, f64::exp) - exact).abs();
        assert!(err < previous);
        if previous.is_finite() {
            let ratio = previous / err;
            assert!(ratio > 3.9 && ratio < 4.1);
        }
        previous = err;
    }
}
