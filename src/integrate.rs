use vstd::prelude::*;
use crate::error::NumError;

verus! {

/// The fixed-step composite rules.
#[derive(Clone, Copy, Debug, PartialEq, Eq, Structural)]
pub enum RuleKind {
    Trapezoid,
    Simpson,
    ThreeEighths,
}

/// A composite rule on `n` equal panels of `[a, b]`: with `h = (b - a) / n`
/// and `x_i = a + i * h`, the estimate is
/// `h * num / den * sum(weights[i] * f(x_i))` over `i` in `0..=n`.
/// The step keeps the sign of `b - a`, so a reversed interval integrates
/// in the opposite orientation.
pub struct Rule {
    pub weights: Vec<u64>,
    pub num: u64,
    pub den: u64,
}

/// The weight of node `i` of `n` panels in a rule of the given kind.
///
/// Trapezoid: `1, 2, ..., 2, 1`. Simpson: `1, 4, 2, 4, ..., 2, 4, 1`.
/// Three-eighths: `3` on interior nodes, `2` on interior multiples of three,
/// and nothing on the two end nodes, whose terms this rule leaves out.
pub open spec fn rule_weight(kind: RuleKind, n: nat, i: nat) -> nat {
    match kind {
        RuleKind::Trapezoid => if i == 0 || i == n { 1 } else { 2 },
        RuleKind::Simpson => if i == 0 || i == n { 1 } else if i % 2 == 1 { 4 } else { 2 },
        RuleKind::ThreeEighths => if i == 0 || i == n { 0 } else if i % 3 == 0 { 2 } else { 3 },
    }
}

/// The weights of all `n + 1` nodes.
pub open spec fn rule_weights(kind: RuleKind, n: nat) -> Seq<nat> {
    Seq::new(n + 1, |i: int| rule_weight(kind, n, i as nat))
}

/// The factor `num / den` that multiplies `h` times the weighted sum.
pub open spec fn rule_scale(kind: RuleKind) -> (nat, nat) {
    match kind {
        RuleKind::Trapezoid => (1, 2),
        RuleKind::Simpson => (1, 3),
        RuleKind::ThreeEighths => (3, 8),
    }
}

/// Whether the kind accepts `n` panels.
pub open spec fn panels_valid(kind: RuleKind, n: int) -> bool {
    n >= 1 && (kind == RuleKind::Simpson ==> n % 2 == 0)
}

impl Rule {
    pub open spec fn weights_view(&self) -> Seq<nat> {
        self.weights@.map_values(|w: u64| w as nat)
    }

    /// This is the rule of `kind` on `n` panels.
    pub open spec fn is_rule(&self, kind: RuleKind, n: nat) -> bool {
        &&& self.weights_view() == rule_weights(kind, n)
        &&& (self.num as nat, self.den as nat) == rule_scale(kind)
    }
}

fn node_weight(kind: RuleKind, n: u64, i: u64) -> (w: u64)
    ensures
        w as nat == rule_weight(kind, n as nat, i as nat),
{
    if i == 0 || i == n {
        match kind {
            RuleKind::ThreeEighths => 0,
            _ => 1,
        }
    } else {
        match kind {
            RuleKind::Trapezoid => 2,
            RuleKind::Simpson => if i % 2 == 1 { 4 } else { 2 },
            RuleKind::ThreeEighths => if i % 3 == 0 { 2 } else { 3 },
        }
    }
}

/// The rule of `kind` on `n` panels. Fails with `InvalidArgument` when `n < 1`,
/// or when `n` is odd for Simpson's rule.
pub fn make_rule(kind: RuleKind, n: i64) -> (r: Result<Rule, NumError>)
    ensures
        !panels_valid(kind, n as int) ==> r == Err::<Rule, NumError>(NumError::InvalidArgument),
        panels_valid(kind, n as int) ==> r is Ok && r->Ok_0.is_rule(kind, n as nat),
{
    if n < 1 {
        return Err(NumError::InvalidArgument);
    }
    if kind == RuleKind::Simpson && n % 2 != 0 {
        return Err(NumError::InvalidArgument);
    }
    let count: u64 = n as u64;
    let mut weights: Vec<u64> = Vec::new();
    let mut i: u64 = 0;
    while i <= count
        invariant
            count == n,
            count <= i64::MAX,
            i <= count + 1,
            weights@.len() == i,
            forall|j: int| 0 <= j < i ==> weights@[j] as nat == rule_weight(kind, count as nat, j as nat),
        decreases count + 1 - i,
    {
        weights.push(node_weight(kind, count, i));
        i = i + 1;
    }
    let (num, den): (u64, u64) = match kind {
        RuleKind::Trapezoid => (1, 2),
        RuleKind::Simpson => (1, 3),
        RuleKind::ThreeEighths => (3, 8),
    };
    let r = Rule { weights, num, den };
    assert(r.weights_view() =~= rule_weights(kind, n as nat));
    Ok(r)
}

/// The composite trapezoid rule on `n` panels. Fails with `InvalidArgument`
/// when `n < 1`.
pub fn trapezoid_rule(n: i64) -> (r: Result<Rule, NumError>)
    ensures
        n < 1 ==> r == Err::<Rule, NumError>(NumError::InvalidArgument),
        n >= 1 ==> r is Ok && r->Ok_0.is_rule(RuleKind::Trapezoid, n as nat),
{
    make_rule(RuleKind::Trapezoid, n)
}

/// Composite Simpson's rule on `n` panels. Fails with `InvalidArgument` when
/// `n < 1` or `n` is odd.
pub fn simpson_rule(n: i64) -> (r: Result<Rule, NumError>)
    ensures
        (n < 1 || n % 2 != 0) ==> r == Err::<Rule, NumError>(NumError::InvalidArgument),
        (n >= 1 && n % 2 == 0) ==> r is Ok && r->Ok_0.is_rule(RuleKind::Simpson, n as nat),
{
    make_rule(RuleKind::Simpson, n)
}

/// Simpson's three-eighths rule on `n` panels, end nodes left out. Fails with
/// `InvalidArgument` when `n < 1`.
pub fn three_eighths_rule(n: i64) -> (r: Result<Rule, NumError>)
    ensures
        n < 1 ==> r == Err::<Rule, NumError>(NumError::InvalidArgument),
        n >= 1 ==> r is Ok && r->Ok_0.is_rule(RuleKind::ThreeEighths, n as nat),
{
    make_rule(RuleKind::ThreeEighths, n)
}

/// `sum(w[i] * s[i])` over the common indices of the weights and the samples.
pub open spec fn weighted_sum(w: Seq<nat>, s: Seq<int>) -> int
    decreases w.len(),
{
    if w.len() == 0 || s.len() == 0 {
        0
    } else {
        w[0] as int * s[0] + weighted_sum(w.skip(1), s.skip(1))
    }
}

/// A weighted sum splits off its last term.
pub proof fn lemma_weighted_sum_last(w: Seq<nat>, s: Seq<int>)
    requires
        w.len() == s.len(),
        w.len() > 0,
    ensures
        weighted_sum(w, s) == weighted_sum(w.drop_last(), s.drop_last()) + w.last() as int * s.last(),
    decreases w.len(),
{
    if w.len() == 1 {
        assert(weighted_sum(w.skip(1), s.skip(1)) == 0);
        assert(weighted_sum(w.drop_last(), s.drop_last()) == 0);
    } else {
        lemma_weighted_sum_last(w.skip(1), s.skip(1));
        assert(w.skip(1).drop_last() =~= w.drop_last().skip(1));
        assert(s.skip(1).drop_last() =~= s.drop_last().skip(1));
        assert(weighted_sum(w.drop_last(), s.drop_last()) == w[0] as int * s[0]
            + weighted_sum(w.drop_last().skip(1), s.drop_last().skip(1)));
    }
}

/// Reading both weights and samples from the other end keeps a weighted sum.
pub proof fn lemma_weighted_sum_reverse(w: Seq<nat>, s: Seq<int>)
    requires
        w.len() == s.len(),
    ensures
        weighted_sum(w.reverse(), s.reverse()) == weighted_sum(w, s),
    decreases w.len(),
{
    if w.len() > 0 {
        lemma_weighted_sum_reverse(w.drop_last(), s.drop_last());
        assert(w.reverse().skip(1) =~= w.drop_last().reverse());
        assert(s.reverse().skip(1) =~= s.drop_last().reverse());
        lemma_weighted_sum_last(w, s);
    }
}

/// Whether the weights of `kind` on `n` panels read the same from both ends.
pub open spec fn symmetric(kind: RuleKind, n: nat) -> bool {
    match kind {
        RuleKind::Trapezoid => true,
        RuleKind::Simpson => n % 2 == 0,
        RuleKind::ThreeEighths => n % 3 == 0,
    }
}

/// Reversed interval: integrating from `b` to `a` uses the step `-h` and
/// meets the nodes in the opposite order, and for a rule whose weights are
/// symmetric (every trapezoid rule, every Simpson rule it accepts, a
/// three-eighths rule on a multiple of three panels) the estimate is the
/// negation of the one from `a` to `b`.
pub proof fn lemma_reversed_interval(kind: RuleKind, n: nat, h: int, s: Seq<int>)
    requires
        panels_valid(kind, n as int),
        symmetric(kind, n),
        s.len() == n + 1,
    ensures
        (-h) * weighted_sum(rule_weights(kind, n), s.reverse()) == -(h * weighted_sum(rule_weights(kind, n), s)),
{
    let w = rule_weights(kind, n);
    assert forall|i: int| 0 <= i < w.len() implies #[trigger] w.reverse()[i] == w[i] by {
        let j = n - i;
        assert(w.reverse()[i] == rule_weight(kind, n, j as nat));
        if kind == RuleKind::Simpson {
            assert(j % 2 == i % 2) by {
                assert(n % 2 == 0);
                assert(j + i == n);
            }
        }
        if kind == RuleKind::ThreeEighths {
            assert((j % 3 == 0) == (i % 3 == 0)) by {
                assert(n % 3 == 0);
                assert(j + i == n);
            }
        }
    }
    assert(w.reverse() =~= w);
    lemma_weighted_sum_reverse(w, s);
    let t = weighted_sum(w, s);
    assert((-h) * t == -(h * t)) by (nonlinear_arith);
}

/// One panel: the trapezoid rule on `n = 1` is the single-panel formula
/// `h * (f(a) + f(b)) / 2`.
pub proof fn lemma_single_panel_trapezoid(s: Seq<int>)
    requires
        s.len() == 2,
    ensures
        rule_weights(RuleKind::Trapezoid, 1) == seq![1nat, 1nat],
        rule_scale(RuleKind::Trapezoid) == (1nat, 2nat),
        weighted_sum(rule_weights(RuleKind::Trapezoid, 1), s) == s[0] + s[1],
{
    let w = rule_weights(RuleKind::Trapezoid, 1);
    assert(w =~= seq![1nat, 1nat]);
    assert(weighted_sum(w.skip(1).skip(1), s.skip(1).skip(1)) == 0);
    assert(w.skip(1)[0] == 1nat);
    assert(s.skip(1)[0] == s[1]);
    assert(weighted_sum(w.skip(1), s.skip(1)) == s[1]);
    assert(w[0] == 1nat);
}

/// Determinism: two rules of the same kind on the same number of panels hold
/// the same weights and scale, so evaluating them on the same function gives
/// the same result.
pub proof fn lemma_rule_determined(r1: &Rule, r2: &Rule, kind: RuleKind, n: nat)
    requires
        r1.is_rule(kind, n),
        r2.is_rule(kind, n),
    ensures
        r1.weights@ == r2.weights@,
        r1.num == r2.num,
        r1.den == r2.den,
{
    assert(r1.weights@.len() == r1.weights_view().len());
    assert(r2.weights@.len() == r2.weights_view().len());
    assert forall|i: int| 0 <= i < r1.weights@.len() implies r1.weights@[i] == r2.weights@[i] by {
        assert(r1.weights_view()[i] == r1.weights@[i] as nat);
        assert(r2.weights_view()[i] == r2.weights@[i] as nat);
    }
    assert(r1.weights@ =~= r2.weights@);
}

} // verus!
