//! The comparison of two tables of counts, and the check of regression limits.

use vstd::prelude::*;

use crate::api;
use crate::costs::{Costs, EventKind, EVENT_KINDS, lemma_index_injective};

verus! {

/// The change of a count in percent of the old count, as an exact fraction.
#[derive(Debug, Clone, Copy, PartialEq, Eq, Structural)]
pub enum PercentageDiff {
    /// `numerator / denominator` percent; the denominator is positive.
    Ratio { numerator: i128, denominator: u64 },
    /// The increase from an old count of zero to a positive count: greater than every
    /// percentage.
    Unbounded,
}

/// The change from `old` to `new` in percent of `old`: `(new - old) / old * 100`.
///
/// From zero to a positive count the change is `Unbounded`; from zero to zero it is zero.
pub open spec fn percentage_diff(new: u64, old: u64) -> PercentageDiff {
    if old > 0 {
        PercentageDiff::Ratio { numerator: ((new - old) * 100) as i128, denominator: old }
    } else if new > 0 {
        PercentageDiff::Unbounded
    } else {
        PercentageDiff::Ratio { numerator: 0, denominator: 1 }
    }
}

/// Whether the percentage is greater than `limit` thousandths of a percent.
pub open spec fn is_beyond(p: PercentageDiff, limit: u64) -> bool {
    match p {
        PercentageDiff::Ratio { numerator, denominator } => numerator * 1000 > limit * denominator,
        PercentageDiff::Unbounded => true,
    }
}

/// The new and the old count of one event.
#[derive(Debug, Clone, Copy, PartialEq, Eq, Structural)]
pub struct CostsDiff {
    pub new: Option<u64>,
    pub old: Option<u64>,
}

impl CostsDiff {
    /// The old count less the new count, where both are there.
    pub open spec fn spec_absolute_diff(self) -> Option<int> {
        match (self.new, self.old) {
            (Some(new), Some(old)) => Some(old - new),
            _ => None,
        }
    }

    /// The change in percent of the old count, where both counts are there.
    pub open spec fn spec_percentage_diff(self) -> Option<PercentageDiff> {
        match (self.new, self.old) {
            (Some(new), Some(old)) => Some(percentage_diff(new, old)),
            _ => None,
        }
    }

    /// Whether the count has grown by more than `limit` thousandths of a percent.
    pub open spec fn spec_exceeds(self, limit: u64) -> bool {
        match self.spec_percentage_diff() {
            Some(p) => is_beyond(p, limit),
            None => false,
        }
    }

    /// The old count less the new count. There is none where a count is missing.
    pub fn absolute_diff(&self) -> (r: Option<i128>)
        ensures
            match self.spec_absolute_diff() {
                Some(d) => r == Some(d as i128),
                None => r is None,
            },
    {
        match (self.new, self.old) {
            (Some(new), Some(old)) => Some(old as i128 - new as i128),
            _ => None,
        }
    }

    /// The change in percent of the old count. There is none where a count is missing:
    /// that is no error.
    pub fn percentage_diff(&self) -> (r: Option<PercentageDiff>)
        ensures
            r == self.spec_percentage_diff(),
    {
        match (self.new, self.old) {
            (Some(new), Some(old)) => {
                if old > 0 {
                    let delta: i128 = new as i128 - old as i128;
                    Some(PercentageDiff::Ratio { numerator: delta * 100, denominator: old })
                } else if new > 0 {
                    Some(PercentageDiff::Unbounded)
                } else {
                    Some(PercentageDiff::Ratio { numerator: 0, denominator: 1 })
                }
            },
            _ => None,
        }
    }

    /// Whether the count has grown by more than `limit` thousandths of a percent. Without an
    /// old count nothing has grown.
    pub fn exceeds(&self, limit: u64) -> (r: bool)
        ensures
            r == self.spec_exceeds(limit),
    {
        match (self.new, self.old) {
            (Some(new), Some(old)) => {
                if old == 0 {
                    new > 0
                } else if new <= old {
                    assert(limit * old >= 0) by (nonlinear_arith)
                        requires
                            limit >= 0,
                            old >= 0,
                    ;
                    false
                } else {
                    let delta: u128 = (new - old) as u128;
                    let left: u128 = delta * 100000;
                    assert(limit * old <= 0xffff_ffff_ffff_ffff * 0xffff_ffff_ffff_ffff) by (
                        nonlinear_arith)
                        requires
                            0 <= limit <= 0xffff_ffff_ffff_ffff,
                            0 <= old <= 0xffff_ffff_ffff_ffff,
                    ;
                    let right: u128 = limit as u128 * old as u128;
                    let ghost numerator = ((new - old) * 100) as i128;
                    assert(numerator * 1000 == left);
                    left > right
                }
            },
            _ => false,
        }
    }
}

/// The counts of a run beside the counts it is compared against, if there are any.
#[derive(Debug, Clone, Copy, PartialEq, Eq)]
pub struct CostsSummary {
    pub new: Costs,
    pub old: Option<Costs>,
}

impl CostsSummary {
    /// The new and the old count of `kind`.
    pub open spec fn spec_diff_by_kind(self, kind: EventKind) -> CostsDiff {
        CostsDiff {
            new: self.new.cost(kind),
            old: match self.old {
                Some(old) => old.cost(kind),
                None => None,
            },
        }
    }

    /// The summary of `new_costs` against `old_costs`.
    pub fn new(new_costs: &Costs, old_costs: Option<&Costs>) -> (r: Self)
        ensures
            r.new == *new_costs,
            match old_costs {
                Some(old) => r.old == Some(*old),
                None => r.old is None,
            },
    {
        CostsSummary {
            new: *new_costs,
            old: match old_costs {
                Some(old) => Some(*old),
                None => None,
            },
        }
    }

    /// The new and the old count of `kind`.
    pub fn diff_by_kind(&self, kind: EventKind) -> (r: CostsDiff)
        ensures
            r == self.spec_diff_by_kind(kind),
    {
        CostsDiff {
            new: self.new.try_cost_by_kind(kind).ok(),
            old: match &self.old {
                Some(old) => old.try_cost_by_kind(kind).ok(),
                None => None,
            },
        }
    }

    /// The kinds for which the summary holds a new or an old count, in the order of the kinds,
    /// each with its counts.
    pub fn all_diffs(&self) -> (r: Vec<(EventKind, CostsDiff)>)
        ensures
            forall|i: int| 0 <= i < r@.len() ==> (#[trigger] r@[i]).1 == self.spec_diff_by_kind(r@[i].0)
                && (r@[i].1.new is Some || r@[i].1.old is Some),
            forall|i: int, j: int|
                0 <= i < j < r@.len() ==> (#[trigger] r@[i]).0.spec_index() < (
                #[trigger] r@[j]).0.spec_index(),
            forall|kind: EventKind|
                {
                    let d = #[trigger] self.spec_diff_by_kind(kind);
                    d.new is Some || d.old is Some ==> r@.contains((kind, d))
                },
    {
        let mut r: Vec<(EventKind, CostsDiff)> = Vec::new();
        let mut i: usize = 0;
        while i < EVENT_KINDS
            invariant
                i <= EVENT_KINDS,
                forall|k: int| 0 <= k < r@.len() ==> (#[trigger] r@[k]).1 == self.spec_diff_by_kind(r@[k].0)
                    && (r@[k].1.new is Some || r@[k].1.old is Some) && r@[k].0.spec_index() < i,
                forall|k: int, j: int|
                    0 <= k < j < r@.len() ==> (#[trigger] r@[k]).0.spec_index() < (
                    #[trigger] r@[j]).0.spec_index(),
                forall|kind: EventKind|
                    kind.spec_index() < i ==> {
                        let d = #[trigger] self.spec_diff_by_kind(kind);
                        d.new is Some || d.old is Some ==> r@.contains((kind, d))
                    },
            decreases EVENT_KINDS - i,
        {
            proof {
                lemma_index_injective();
            }
            let kind = EventKind::from_index(i);
            let diff = self.diff_by_kind(kind);
            let ghost before = r@;
            if diff.new.is_some() || diff.old.is_some() {
                r.push((kind, diff));
                assert(r@[r@.len() - 1] == (kind, diff));
            }
            proof {
                assert forall|other: EventKind| other.spec_index() < i + 1 implies {
                    let d = #[trigger] self.spec_diff_by_kind(other);
                    d.new is Some || d.old is Some ==> r@.contains((other, d))
                } by {
                    let d = self.spec_diff_by_kind(other);
                    if d.new is Some || d.old is Some {
                        if other.spec_index() < i {
                            assert(before.contains((other, d)));
                            let k = choose|k: int| 0 <= k < before.len() && before[k] == (other, d);
                            assert(r@[k] == (other, d));
                        } else {
                            assert(other == kind);
                        }
                    }
                }
            }
            i += 1;
        }
        proof {
            lemma_index_injective();
        }
        r
    }
}

/// What a regression is measured against: for each listed event the limit of its growth, in
/// thousandths of a percent, and whether the first regression ends the group's run.
#[derive(Debug, Clone, PartialEq, Eq)]
pub struct RegressionConfig {
    pub limits: Vec<(EventKind, u64)>,
    pub fail_fast: bool,
}

/// A count that has grown beyond its limit.
#[derive(Debug, Clone, Copy, PartialEq, Eq, Structural)]
pub struct CallgrindRegressionSummary {
    pub event_kind: EventKind,
    pub new: u64,
    pub old: u64,
    pub diff_pct: PercentageDiff,
    /// The limit that was exceeded, in thousandths of a percent.
    pub limit: u64,
}

/// The regression that the limit of `kind` records for `summary`, if the count of `kind` has
/// grown beyond `limit`.
pub open spec fn regression_of(summary: CostsSummary, kind: EventKind, limit: u64) -> Option<
    CallgrindRegressionSummary,
> {
    let diff = summary.spec_diff_by_kind(kind);
    if diff.spec_exceeds(limit) {
        Some(
            CallgrindRegressionSummary {
                event_kind: kind,
                new: diff.new->0,
                old: diff.old->0,
                diff_pct: percentage_diff(diff.new->0, diff.old->0),
                limit,
            },
        )
    } else {
        None
    }
}

/// The regressions that the `limits` record for `summary`, in the order of the limits.
pub open spec fn regressions_of(summary: CostsSummary, limits: Seq<(EventKind, u64)>) -> Seq<
    CallgrindRegressionSummary,
>
    decreases limits.len(),
{
    if limits.len() == 0 {
        Seq::empty()
    } else {
        let rest = regressions_of(summary, limits.drop_last());
        match regression_of(summary, limits.last().0, limits.last().1) {
            Some(regression) => rest.push(regression),
            None => rest,
        }
    }
}

/// The limits of a description: its own, or ten percent of growth of the instructions where
/// it has none.
pub open spec fn limits_of(limits: Seq<(EventKind, u64)>) -> Seq<(EventKind, u64)> {
    if limits.len() == 0 {
        seq![(EventKind::Ir, 10000u64)]
    } else {
        limits
    }
}

impl RegressionConfig {
    /// The limits that a description asks for. Without a word on it, a regression does not
    /// end the group's run.
    pub fn from_api(value: &api::RegressionConfig) -> (r: Self)
        ensures
            r.limits@ == limits_of(value.limits@),
            r.fail_fast == (value.fail_fast == Some(true)),
    {
        let mut limits = api::clone_limits(&value.limits);
        if limits.len() == 0 {
            limits.push((EventKind::Ir, 10000));
            assert(limits@ =~= seq![(EventKind::Ir, 10000u64)]);
        }
        RegressionConfig {
            limits,
            fail_fast: match value.fail_fast {
                Some(b) => b,
                None => false,
            },
        }
    }

    /// The regressions of `summary`: one for each limit that the growth of its event exceeds,
    /// in the order of the limits. A count that equals its limit is within it.
    pub fn check(&self, summary: &CostsSummary) -> (r: Vec<CallgrindRegressionSummary>)
        ensures
            r@ == regressions_of(*summary, self.limits@),
    {
        let mut r: Vec<CallgrindRegressionSummary> = Vec::new();
        let mut i: usize = 0;
        assert(self.limits@.take(0) =~= Seq::<(EventKind, u64)>::empty());
        while i < self.limits.len()
            invariant
                i <= self.limits.len(),
                r@ == regressions_of(*summary, self.limits@.take(i as int)),
            decreases self.limits.len() - i,
        {
            let (kind, limit) = self.limits[i];
            proof {
                let next = self.limits@.take(i + 1);
                assert(next.drop_last() == self.limits@.take(i as int));
                assert(next.last() == (kind, limit));
            }
            let diff = summary.diff_by_kind(kind);
            if diff.exceeds(limit) {
                match (diff.new, diff.old, diff.percentage_diff()) {
                    (Some(new), Some(old), Some(diff_pct)) => {
                        r.push(
                            CallgrindRegressionSummary { event_kind: kind, new, old, diff_pct, limit },
                        );
                    },
                    _ => {},
                }
            }
            i += 1;
        }
        assert(self.limits@.take(self.limits@.len() as int) == self.limits@);
        r
    }
}

/// For a positive old count the change in percent is `(new - old) * 100 / old`; from zero to
/// a positive count it is the unbounded increase, and no division by zero takes place.
pub proof fn lemma_percentage_diff(new: u64, old: u64)
    ensures
        old > 0 ==> percentage_diff(new, old) == (PercentageDiff::Ratio {
            numerator: ((new - old) * 100) as i128,
            denominator: old,
        }),
        old == 0 && new > 0 ==> percentage_diff(new, old) == PercentageDiff::Unbounded,
        percentage_diff(new, old) matches PercentageDiff::Ratio { denominator, .. } ==> denominator
            > 0,
{
}

/// A table compared against itself shows no change: for each kind that it holds, the
/// absolute difference is zero and so is the percentage, and no limit is exceeded.
pub proof fn lemma_diff_against_itself_is_zero(costs: Costs, kind: EventKind, limit: u64)
    requires
        costs.cost(kind) is Some,
    ensures
        ({
            let diff = (CostsSummary { new: costs, old: Some(costs) }).spec_diff_by_kind(kind);
            &&& diff.spec_absolute_diff() == Some(0int)
            &&& diff.spec_percentage_diff() matches Some(PercentageDiff::Ratio { numerator, .. })
                && numerator == 0
            &&& !diff.spec_exceeds(limit)
        }),
{
    let diff = (CostsSummary { new: costs, old: Some(costs) }).spec_diff_by_kind(kind);
    let old = diff.old->0;
    assert(limit * old >= 0) by (nonlinear_arith)
        requires
            limit >= 0,
            old >= 0,
    ;
}

} // verus!
