use vstd::prelude::*;
use vstd::arithmetic::power2::{pow2, lemma_pow2_unfold, lemma_pow2_pos, lemma_pow2_strictly_increases, lemma2_to64_rest};
use crate::error::NumError;

verus! {

/// The deepest refinement a plan may be made with: panel indices and the
/// evaluation count then fit in 64 bits.
pub const MAX_DEPTH_LIMIT: u32 = 62;

/// Panel `index` of the `2^depth` equal panels of the whole interval: with
/// `w = (b - a) / 2^depth` it covers `[a + index * w, a + (index + 1) * w]`.
/// On it the tolerance is `eps / 2^depth`.
#[derive(Clone, Copy, Debug, PartialEq, Eq, Structural)]
pub struct Panel {
    pub depth: u32,
    pub index: u64,
}

/// What a report did with the panel it was about.
#[derive(Clone, Copy, Debug, PartialEq, Eq, Structural)]
pub enum Outcome {
    /// The panel met its tolerance: its corrected estimate is part of the sum.
    Accepted(Panel),
    /// The panel was split: its two halves are evaluated next, left first.
    Refined(Panel),
}

/// The width of a panel, in units of `2^-max` of the whole interval.
pub open spec fn span(max: nat, p: Panel) -> nat {
    pow2((max - p.depth as nat) as nat)
}

/// Where a panel starts, in the same units.
pub open spec fn start(max: nat, p: Panel) -> nat {
    p.index as nat * span(max, p)
}

/// The most evaluations a panel and all panels inside it can take.
pub open spec fn cost(max: nat, p: Panel) -> nat {
    (2 * span(max, p) - 1) as nat
}

pub open spec fn pending_cost(max: nat, s: Seq<Panel>) -> nat
    decreases s.len(),
{
    if s.len() == 0 {
        0
    } else {
        pending_cost(max, s.drop_last()) + cost(max, s.last())
    }
}

pub open spec fn pending_span(max: nat, s: Seq<Panel>) -> nat
    decreases s.len(),
{
    if s.len() == 0 {
        0
    } else {
        pending_span(max, s.drop_last()) + span(max, s.last())
    }
}

pub open spec fn panel_ok(max: nat, p: Panel) -> bool {
    p.depth <= max && (p.index as nat) < pow2(p.depth as nat)
}

/// Each pending panel ends where the one above it on the stack starts.
pub open spec fn contiguous(max: nat, s: Seq<Panel>) -> bool {
    forall|i: int| #![trigger s[i]] 0 <= i < s.len() - 1 ==> start(max, s[i]) == start(max, s[i + 1]) + span(max, s[i + 1])
}

pub open spec fn left_half(p: Panel) -> Panel {
    Panel { depth: (p.depth + 1) as u32, index: (2 * p.index) as u64 }
}

pub open spec fn right_half(p: Panel) -> Panel {
    Panel { depth: (p.depth + 1) as u32, index: (2 * p.index + 1) as u64 }
}

/// The order in which adaptive Simpson refinement visits panels: depth first,
/// left half before right half, never deeper than the maximum depth.
///
/// The caller asks for the current panel, evaluates it and reports whether
/// the panel met its tolerance; the plan answers with what to do next.
pub struct AdaptivePlan {
    max_depth: u32,
    pending: Vec<Panel>,
    evaluated: u64,
    failed: bool,
    covered: Ghost<nat>,
}

impl AdaptivePlan {
    pub closed spec fn max(&self) -> nat {
        self.max_depth as nat
    }

    /// The panels still to evaluate; the last one is the current panel.
    pub closed spec fn pending_view(&self) -> Seq<Panel> {
        self.pending@
    }

    pub closed spec fn evaluated_view(&self) -> nat {
        self.evaluated as nat
    }

    pub closed spec fn has_failed(&self) -> bool {
        self.failed
    }

    /// How much of the interval the accepted panels cover, in units of
    /// `2^-max`.
    pub closed spec fn covered(&self) -> nat {
        self.covered@
    }

    pub closed spec fn wf(&self) -> bool {
        let max = self.max_depth as nat;
        let s = self.pending@;
        &&& self.max_depth <= MAX_DEPTH_LIMIT
        &&& forall|i: int| 0 <= i < s.len() ==> panel_ok(max, #[trigger] s[i])
        &&& self.evaluated + pending_cost(max, s) <= pow2(max + 1) - 1
        &&& self.failed ==> s.len() == 0
        &&& !self.failed ==> self.covered@ + pending_span(max, s) == pow2(max)
        &&& !self.failed && s.len() > 0 ==> start(max, s.last()) == self.covered@
        &&& contiguous(max, s)
    }

    /// A plan for the whole interval, refining at most `max_depth` times.
    pub fn new(max_depth: u32) -> (r: Self)
        requires
            max_depth <= MAX_DEPTH_LIMIT,
        ensures
            r.wf(),
            r.max() == max_depth,
            r.pending_view() == seq![Panel { depth: 0, index: 0 }],
            r.evaluated_view() == 0,
            !r.has_failed(),
            r.covered() == 0,
    {
        let mut pending: Vec<Panel> = Vec::new();
        pending.push(Panel { depth: 0, index: 0 });
        let r = AdaptivePlan { max_depth, pending, evaluated: 0, failed: false, covered: Ghost(0) };
        proof {
            let max = max_depth as nat;
            let s = r.pending@;
            lemma_pow2_unfold(max + 1);
            lemma_pow2_pos(max);
            assert(pow2(0) == 1) by {
                vstd::arithmetic::power2::lemma2_to64();
            }
            assert(s.drop_last().len() == 0);
            assert(pending_cost(max, s.drop_last()) == 0);
            assert(pending_span(max, s.drop_last()) == 0);
            assert(s.last() == s[0]);
            assert(pending_cost(max, s) == cost(max, s[0]));
            assert(pending_span(max, s) == span(max, s[0]));
            assert(span(max, s[0]) == pow2(max));
            assert(pow2(max + 1) == 2 * pow2(max));
            assert(r.evaluated + pending_cost(max, s) <= pow2(max + 1) - 1);
            assert(forall|i: int| 0 <= i < s.len() ==> panel_ok(max, #[trigger] s[i]));
            assert(s.last().index == 0);
            let sp = span(max, s.last());
            assert(0 * sp == 0) by (nonlinear_arith);
            assert(start(max, s.last()) == 0);
            assert(contiguous(max, s));
        }
        r
    }

    /// The panel to evaluate next, if any is left.
    pub fn current(&self) -> (r: Option<Panel>)
        requires
            self.wf(),
        ensures
            self.pending_view().len() == 0 ==> r is None,
            self.pending_view().len() > 0 ==> r == Some(self.pending_view().last()),
    {
        let n = self.pending.len();
        if n == 0 {
            None
        } else {
            Some(self.pending[n - 1])
        }
    }

    /// How many panels have been reported on.
    pub fn evaluations(&self) -> (r: u64)
        ensures
            r as nat == self.evaluated_view(),
    {
        self.evaluated
    }

    /// Whether the plan stopped at the maximum depth.
    pub fn failed(&self) -> (r: bool)
        ensures
            r == self.has_failed(),
    {
        self.failed
    }

    /// Records the verdict on the current panel: whether its error estimate
    /// met the panel's tolerance.
    ///
    /// A panel that met it is accepted, and it starts where the panels
    /// accepted before it end. One that did not is split into halves, left
    /// half on top, while it is above the maximum depth; at the maximum depth
    /// the plan fails with `ConvergenceFailure` and nothing is left to do.
    pub fn report(&mut self, within_tolerance: bool) -> (r: Result<Outcome, NumError>)
        requires
            old(self).wf(),
            old(self).pending_view().len() > 0,
        ensures
            final(self).wf(),
            final(self).max() == old(self).max(),
            final(self).evaluated_view() == old(self).evaluated_view() + 1,
            ({
                let p = old(self).pending_view().last();
                let rest = old(self).pending_view().drop_last();
                &&& within_tolerance ==> {
                    &&& r == Ok::<Outcome, NumError>(Outcome::Accepted(p))
                    &&& start(old(self).max(), p) == old(self).covered()
                    &&& final(self).pending_view() == rest
                    &&& final(self).covered() == old(self).covered() + span(old(self).max(), p)
                    &&& !final(self).has_failed()
                }
                &&& !within_tolerance && p.depth < old(self).max() ==> {
                    &&& r == Ok::<Outcome, NumError>(Outcome::Refined(p))
                    &&& final(self).pending_view() == rest.push(right_half(p)).push(left_half(p))
                    &&& final(self).covered() == old(self).covered()
                    &&& !final(self).has_failed()
                }
                &&& !within_tolerance && p.depth >= old(self).max() ==> {
                    &&& r == Err::<Outcome, NumError>(NumError::ConvergenceFailure)
                    &&& final(self).pending_view().len() == 0
                    &&& final(self).has_failed()
                }
            }),
    {
        let ghost max = self.max_depth as nat;
        let ghost s = self.pending@;
        let ghost rest = s.drop_last();
        proof {
            lemma_pow2_pos((max - s.last().depth as nat) as nat);
            if max + 1 < 63 {
                lemma_pow2_strictly_increases(max + 1, 63);
            }
            lemma2_to64_rest();
            assert(s.last() == s[s.len() - 1]);
            assert(panel_ok(max, s[s.len() - 1]));
        }
        let p = self.pending.pop().unwrap();
        assert(self.pending@ == rest);
        self.evaluated = self.evaluated + 1;
        if within_tolerance {
            self.covered = Ghost(self.covered@ + span(max, p));
            proof {
                if rest.len() > 0 {
                    assert(s[rest.len() - 1] == rest.last());
                }
                assert forall|i: int| 0 <= i < rest.len() implies panel_ok(max, #[trigger] rest[i]) by {
                    assert(rest[i] == s[i]);
                }
                assert forall|i: int| #![trigger rest[i]] 0 <= i < rest.len() - 1 implies
                    start(max, rest[i]) == start(max, rest[i + 1]) + span(max, rest[i + 1]) by {
                    assert(rest[i] == s[i]);
                    assert(rest[i + 1] == s[i + 1]);
                }
            }
            Ok(Outcome::Accepted(p))
        } else if p.depth < self.max_depth {
            proof {
                let d = p.depth as nat;
                let k = p.index as nat;
                let e = (max - d) as nat;
                lemma_pow2_unfold(e);
                lemma_pow2_unfold(d + 1);
                assert(pow2(d + 1) <= pow2(max)) by {
                    if d + 1 < max {
                        lemma_pow2_strictly_increases(d + 1, max);
                    }
                }
                if max < 62 {
                    lemma_pow2_strictly_increases(max, 62);
                }
            }
            let left = Panel { depth: p.depth + 1, index: 2 * p.index };
            let right = Panel { depth: p.depth + 1, index: 2 * p.index + 1 };
            self.pending.push(right);
            self.pending.push(left);
            proof {
                let d = p.depth as nat;
                let k = p.index as nat;
                let c = pow2((max - d - 1) as nat);
                let t = self.pending@;
                assert(left == left_half(p));
                assert(right == right_half(p));
                assert(span(max, p) == 2 * c);
                assert(span(max, left) == c);
                assert(span(max, right) == c);
                assert(start(max, p) == k * (2 * c));
                assert(start(max, left) == (2 * k) * c);
                assert(start(max, right) == (2 * k + 1) * c);
                assert(k * (2 * c) == (2 * k) * c) by (nonlinear_arith);
                assert((2 * k + 1) * c == (2 * k) * c + c) by (nonlinear_arith);
                assert(t.last() == left);
                assert(t.drop_last() =~= rest.push(right));
                assert(rest.push(right).last() == right);
                assert(rest.push(right).drop_last() =~= rest);
                assert(pending_cost(max, rest.push(right)) == pending_cost(max, rest) + cost(max, right));
                assert(pending_cost(max, t) == pending_cost(max, rest.push(right)) + cost(max, left));
                assert(pending_span(max, rest.push(right)) == pending_span(max, rest) + span(max, right));
                assert(pending_span(max, t) == pending_span(max, rest.push(right)) + span(max, left));
                assert(pending_cost(max, s) == pending_cost(max, rest) + cost(max, p));
                assert(pending_span(max, s) == pending_span(max, rest) + span(max, p));
                assert(c >= 1) by {
                    lemma_pow2_pos((max - d - 1) as nat);
                }
                assert(t.last() == left);
                assert forall|i: int| 0 <= i < t.len() implies panel_ok(max, #[trigger] t[i]) by {
                    if i < rest.len() {
                        assert(t[i] == s[i]);
                    }
                }
                if rest.len() > 0 {
                    assert(s[rest.len() - 1] == rest.last());
                    assert(start(max, s[rest.len() - 1]) == start(max, s[rest.len() as int]) + span(max, s[rest.len() as int]));
                }
                assert forall|i: int| #![trigger t[i]] 0 <= i < t.len() - 1 implies
                    start(max, t[i]) == start(max, t[i + 1]) + span(max, t[i + 1]) by {
                    if i < rest.len() - 1 {
                        assert(t[i] == s[i]);
                        assert(t[i + 1] == s[i + 1]);
                    } else if i == rest.len() - 1 {
                        assert(t[i] == s[i]);
                        assert(t[i + 1] == right);
                    } else {
                        assert(t[i] == right);
                        assert(t[i + 1] == left);
                    }
                }
            }
            Ok(Outcome::Refined(p))
        } else {
            self.failed = true;
            self.pending.clear();
            Err(NumError::ConvergenceFailure)
        }
    }
}

/// Bounded refinement: however the verdicts fall, a plan with maximum depth
/// `D` has the caller evaluate at most `2^(D + 1) - 1` panels, every one of
/// them at depth at most `D`.
pub proof fn lemma_evaluations_bounded(plan: &AdaptivePlan)
    requires
        plan.wf(),
    ensures
        plan.evaluated_view() <= pow2(plan.max() + 1) - 1,
        forall|i: int| 0 <= i < plan.pending_view().len() ==> (#[trigger] plan.pending_view()[i]).depth <= plan.max(),
{
    assert forall|i: int| 0 <= i < plan.pending_view().len() implies (#[trigger] plan.pending_view()[i]).depth <= plan.max() by {
        assert(panel_ok(plan.max(), plan.pending_view()[i]));
    }
}

/// Coverage: the accepted panels and those still pending together cover
/// the whole interval exactly, and the current panel starts where the
/// accepted ones end. So when a plan runs out of panels without failing,
/// the accepted panels, which each start where the one before ends, tile
/// the whole interval.
pub proof fn lemma_panels_cover_interval(plan: &AdaptivePlan)
    requires
        plan.wf(),
        !plan.has_failed(),
    ensures
        plan.covered() + pending_span(plan.max(), plan.pending_view()) == pow2(plan.max()),
        plan.pending_view().len() > 0 ==> start(plan.max(), plan.pending_view().last()) == plan.covered(),
        plan.pending_view().len() == 0 ==> plan.covered() == pow2(plan.max()),
{
}

} // verus!
