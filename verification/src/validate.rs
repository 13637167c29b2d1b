//! The temporal rules of a TextGrid and the validator that reports the first
//! rule broken.
//!
//! Some rules always hold of valid data; the strict ones ask in addition that
//! the intervals of a tier cover the time domain without a gap.

use vstd::prelude::*;
use crate::model::{Entries, GridView, Interval, Point, TextGrid, Tier, TierView};
use crate::time::{le, lt, same, time_le, time_lt, time_same};

verus! {

/// A rule that an entry can break.
#[derive(Debug, Clone, Copy, PartialEq, Eq, Structural)]
pub enum Rule {
    /// The entry's own bounds are not ordered: `start <= end` fails. For a
    /// point this means that its time is no number.
    Unordered,
    /// An interval starts before the one stored in front of it ends.
    Overlap,
    /// Strict only: the first interval does not start where the time domain starts.
    Start,
    /// Strict only: an interval does not start where the one in front of it ends.
    Gap,
    /// Strict only: the last interval does not end where the time domain ends.
    End,
    /// A point is not later than the one stored in front of it.
    NotIncreasing,
}

/// The first rule that a TextGrid breaks, and where.
#[derive(Debug, Clone, Copy, PartialEq, Eq, Structural)]
pub enum ValidationError {
    /// The time domain is not ordered: `tmin <= tmax` fails.
    Bounds,
    /// Entry `entry` of tier `tier` (both counted from zero) breaks `rule`.
    Entry { tier: usize, entry: usize, rule: Rule },
}

/// The least index in `[from, to)` at which `f` gives something, with what it gives.
pub open spec fn first_some<T>(f: spec_fn(int) -> Option<T>, from: int, to: int) -> Option<(int, T)>
    decreases to - from,
{
    if from >= to {
        None
    } else {
        match f(from) {
            Some(v) => Some((from, v)),
            None => first_some(f, from + 1, to),
        }
    }
}

/// `first_some` finds the least index, and finds nothing only where there is nothing.
pub proof fn first_some_is_first<T>(f: spec_fn(int) -> Option<T>, from: int, to: int)
    ensures
        match first_some(f, from, to) {
            Some((k, v)) => from <= k < to && f(k) == Some(v) && forall|j: int|
                from <= j < k ==> (#[trigger] f(j)) is None,
            None => forall|j: int| from <= j < to ==> (#[trigger] f(j)) is None,
        },
    decreases to - from,
{
    if from < to {
        first_some_is_first(f, from + 1, to);
    }
}

/// An index at which `f` gives something, with nothing in front of it, is what `first_some` finds.
pub proof fn first_some_found<T>(f: spec_fn(int) -> Option<T>, from: int, to: int, k: int)
    requires
        from <= k < to,
        f(k) is Some,
        forall|j: int| from <= j < k ==> (#[trigger] f(j)) is None,
    ensures
        first_some(f, from, to) == Some((k, f(k)->0)),
{
    first_some_is_first(f, from, to);
}

/// Nothing anywhere means that `first_some` finds nothing.
pub proof fn first_some_absent<T>(f: spec_fn(int) -> Option<T>, from: int, to: int)
    requires
        forall|j: int| from <= j < to ==> (#[trigger] f(j)) is None,
    ensures
        first_some(f, from, to) is None,
{
    first_some_is_first(f, from, to);
}

impl TierView {
    /// The first rule that entry `i` breaks, in the order in which the rules
    /// are looked at, within the time domain `[tmin, tmax]`.
    pub open spec fn rule_at(self, i: int, tmin: u64, tmax: u64, strict: bool) -> Option<Rule> {
        let row = self.rows[i];
        if !le(row.tmin, row.tmax) {
            Some(Rule::Unordered)
        } else if self.is_interval {
            if i > 0 && !le(self.rows[i - 1].tmax, row.tmin) {
                Some(Rule::Overlap)
            } else if strict && i == 0 && !same(row.tmin, tmin) {
                Some(Rule::Start)
            } else if strict && i > 0 && !same(self.rows[i - 1].tmax, row.tmin) {
                Some(Rule::Gap)
            } else if strict && i == self.rows.len() - 1 && !same(row.tmax, tmax) {
                Some(Rule::End)
            } else {
                None
            }
        } else {
            if i > 0 && !lt(self.rows[i - 1].tmin, row.tmin) {
                Some(Rule::NotIncreasing)
            } else {
                None
            }
        }
    }

    /// The first entry that breaks a rule, with the rule.
    pub open spec fn first_fault(self, tmin: u64, tmax: u64, strict: bool) -> Option<(int, Rule)> {
        first_some(|i: int| self.rule_at(i, tmin, tmax, strict), 0, self.rows.len() as int)
    }
}

impl GridView {
    /// What tier `t` reports: its first broken rule, if it has one.
    pub open spec fn tier_fault(self, t: int, strict: bool) -> Option<ValidationError> {
        match self.tiers[t].first_fault(self.tmin, self.tmax, strict) {
            Some((i, rule)) => Some(
                ValidationError::Entry { tier: t as usize, entry: i as usize, rule },
            ),
            None => None,
        }
    }

    /// The first rule broken: the time domain comes first, then the tiers in
    /// their order, in each tier its entries in their order.
    pub open spec fn fault(self, strict: bool) -> Option<ValidationError> {
        if !le(self.tmin, self.tmax) {
            Some(ValidationError::Bounds)
        } else {
            match first_some(|t: int| self.tier_fault(t, strict), 0, self.tiers.len() as int) {
                Some((_, e)) => Some(e),
                None => None,
            }
        }
    }

    /// No rule is broken.
    pub open spec fn valid(self, strict: bool) -> bool {
        self.fault(strict) is None
    }

    /// No rule is broken, said rule by rule: the time domain is ordered and no
    /// entry of any tier breaks a rule.
    pub open spec fn keeps_every_rule(self, strict: bool) -> bool {
        &&& le(self.tmin, self.tmax)
        &&& forall|t: int, i: int|
            0 <= t < self.tiers.len() && 0 <= i < self.tiers[t].rows.len() ==> (
            #[trigger] self.tiers[t].rule_at(i, self.tmin, self.tmax, strict)) is None
    }
}

/// A TextGrid is valid exactly when it keeps every rule.
pub proof fn valid_means_every_rule(g: GridView, strict: bool)
    ensures
        g.valid(strict) <==> g.keeps_every_rule(strict),
{
    let per_tier = |t: int| g.tier_fault(t, strict);
    first_some_is_first(per_tier, 0, g.tiers.len() as int);
    if g.keeps_every_rule(strict) {
        assert forall|t: int| 0 <= t < g.tiers.len() implies (#[trigger] per_tier(t)) is None by {
            let per_entry = |i: int| g.tiers[t].rule_at(i, g.tmin, g.tmax, strict);
            assert forall|i: int| 0 <= i < g.tiers[t].rows.len() implies (#[trigger] per_entry(
                i,
            )) is None by {
                assert(g.tiers[t].rule_at(i, g.tmin, g.tmax, strict) is None);
            }
            first_some_absent(per_entry, 0, g.tiers[t].rows.len() as int);
        }
        first_some_absent(per_tier, 0, g.tiers.len() as int);
    }
    if g.valid(strict) {
        assert forall|t: int, i: int|
            0 <= t < g.tiers.len() && 0 <= i < g.tiers[t].rows.len() implies (
        #[trigger] g.tiers[t].rule_at(i, g.tmin, g.tmax, strict)) is None by {
            let per_entry = |i: int| g.tiers[t].rule_at(i, g.tmin, g.tmax, strict);
            assert(per_tier(t) is None);
            first_some_is_first(per_entry, 0, g.tiers[t].rows.len() as int);
            assert(per_entry(i) is None);
        }
    }
}

/// Strict validity implies lenient validity.
pub proof fn strict_implies_lenient(g: GridView)
    requires
        g.valid(true),
    ensures
        g.valid(false),
{
    valid_means_every_rule(g, true);
    valid_means_every_rule(g, false);
    assert forall|t: int, i: int|
        0 <= t < g.tiers.len() && 0 <= i < g.tiers[t].rows.len() implies (
    #[trigger] g.tiers[t].rule_at(i, g.tmin, g.tmax, false)) is None by {
        assert(g.tiers[t].rule_at(i, g.tmin, g.tmax, true) is None);
    }
}


fn check_intervals(v: &Vec<Interval>, tmin: u64, tmax: u64, strict: bool, Ghost(tier): Ghost<
    TierView,
>) -> (r: Option<(usize, Rule)>)
    requires
        tier.is_interval,
        tier.rows == crate::model::interval_rows(v@),
    ensures
        match tier.first_fault(tmin, tmax, strict) {
            Some((i, rule)) => r == Some((i as usize, rule)) && 0 <= i < v@.len(),
            None => r is None,
        },
{
    let ghost f = |i: int| tier.rule_at(i, tmin, tmax, strict);
    let n: usize = v.len();
    let mut i: usize = 0;
    while i < n
        invariant
            n == v@.len(),
            i <= n,
            tier.is_interval,
            tier.rows == crate::model::interval_rows(v@),
            f == (|i: int| tier.rule_at(i, tmin, tmax, strict)),
            forall|j: int| 0 <= j < i ==> (#[trigger] f(j)) is None,
        decreases n - i,
    {
        let e = &v[i];
        let found: Option<Rule> = if !time_le(e.start, e.end) {
            Some(Rule::Unordered)
        } else if i > 0 && !time_le(v[i - 1].end, e.start) {
            Some(Rule::Overlap)
        } else if strict && i == 0 && !time_same(e.start, tmin) {
            Some(Rule::Start)
        } else if strict && i > 0 && !time_same(v[i - 1].end, e.start) {
            Some(Rule::Gap)
        } else if strict && i == n - 1 && !time_same(e.end, tmax) {
            Some(Rule::End)
        } else {
            None
        };
        assert(found == f(i as int));
        match found {
            Some(rule) => {
                proof {
                    first_some_found(f, 0, n as int, i as int);
                }
                return Some((i, rule));
            },
            None => {},
        }
        i += 1;
    }
    proof {
        first_some_absent(f, 0, n as int);
    }
    None
}


fn check_points(v: &Vec<Point>, tmin: u64, tmax: u64, strict: bool, Ghost(tier): Ghost<
    TierView,
>) -> (r: Option<(usize, Rule)>)
    requires
        !tier.is_interval,
        tier.rows == crate::model::point_rows(v@),
    ensures
        match tier.first_fault(tmin, tmax, strict) {
            Some((i, rule)) => r == Some((i as usize, rule)) && 0 <= i < v@.len(),
            None => r is None,
        },
{
    let ghost f = |i: int| tier.rule_at(i, tmin, tmax, strict);
    let n: usize = v.len();
    let mut i: usize = 0;
    while i < n
        invariant
            n == v@.len(),
            i <= n,
            !tier.is_interval,
            tier.rows == crate::model::point_rows(v@),
            f == (|i: int| tier.rule_at(i, tmin, tmax, strict)),
            forall|j: int| 0 <= j < i ==> (#[trigger] f(j)) is None,
        decreases n - i,
    {
        let e = &v[i];
        let found: Option<Rule> = if !time_le(e.time, e.time) {
            Some(Rule::Unordered)
        } else if i > 0 && !time_lt(v[i - 1].time, e.time) {
            Some(Rule::NotIncreasing)
        } else {
            None
        };
        assert(found == f(i as int));
        match found {
            Some(rule) => {
                proof {
                    first_some_found(f, 0, n as int, i as int);
                }
                return Some((i, rule));
            },
            None => {},
        }
        i += 1;
    }
    proof {
        first_some_absent(f, 0, n as int);
    }
    None
}

impl Tier {
    /// The first entry of this tier that breaks a rule within the time domain
    /// `[tmin, tmax]`, with the rule.
    pub fn first_fault(&self, tmin: u64, tmax: u64, strict: bool) -> (r: Option<(usize, Rule)>)
        ensures
            match self@.first_fault(tmin, tmax, strict) {
                Some((i, rule)) => r == Some((i as usize, rule)) && 0 <= i < self@.rows.len(),
                None => r is None,
            },
    {
        match &self.entries {
            Entries::Intervals(v) => check_intervals(v, tmin, tmax, strict, Ghost(self@)),
            Entries::Points(v) => check_points(v, tmin, tmax, strict, Ghost(self@)),
        }
    }
}

impl TextGrid {
    /// Checks the temporal rules and reports the first one broken. With
    /// `strict` unset, gaps and boundary mismatches are tolerated.
    pub fn validate(&self, strict: bool) -> (r: Result<(), ValidationError>)
        ensures
            r == match self@.fault(strict) {
                Some(e) => Err::<(), ValidationError>(e),
                None => Ok(()),
            },
    {
        if !time_le(self.tmin, self.tmax) {
            return Err(ValidationError::Bounds);
        }
        let ghost f = |t: int| self@.tier_fault(t, strict);
        let n: usize = self.tiers.len();
        let mut t: usize = 0;
        while t < n
            invariant
                n == self.tiers@.len(),
                t <= n,
                le(self.tmin, self.tmax),
                f == (|t: int| self@.tier_fault(t, strict)),
                forall|j: int| 0 <= j < t ==> (#[trigger] f(j)) is None,
            decreases n - t,
        {
            match self.tiers[t].first_fault(self.tmin, self.tmax, strict) {
                Some((i, rule)) => {
                    proof {
                        assert(f(t as int) == Some(
                            ValidationError::Entry { tier: t, entry: i, rule },
                        ));
                        first_some_found(f, 0, n as int, t as int);
                    }
                    return Err(ValidationError::Entry { tier: t, entry: i, rule });
                },
                None => {
                    assert(f(t as int) is None);
                },
            }
            t += 1;
        }
        proof {
            first_some_absent(f, 0, n as int);
        }
        Ok(())
    }
}

} // verus!
