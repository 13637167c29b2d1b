//! The tier model: a TextGrid is a time domain and an ordered list of named
//! tiers, each holding either intervals or points.
//!
//! The mathematical model of a tier is a list of rows `(tmin, tmax, label)`; a
//! point is the row whose two bounds are its time.

use vstd::prelude::*;

verus! {

/// A labelled span `[start, end)` of an interval tier.
#[derive(Debug, Clone, PartialEq, Eq)]
pub struct Interval {
    pub start: u64,
    pub end: u64,
    pub label: String,
}

/// A labelled instant of a point tier.
#[derive(Debug, Clone, PartialEq, Eq)]
pub struct Point {
    pub time: u64,
    pub label: String,
}

/// What a tier holds: spans or instants, never both.
#[derive(Debug, Clone, PartialEq, Eq)]
pub enum Entries {
    Intervals(Vec<Interval>),
    Points(Vec<Point>),
}

/// A named annotation channel.
#[derive(Debug, Clone, PartialEq, Eq)]
pub struct Tier {
    pub name: String,
    pub entries: Entries,
}

/// Tiers in their stored order over the shared time domain `[tmin, tmax]`.
#[derive(Debug, Clone, PartialEq, Eq)]
pub struct TextGrid {
    pub tmin: u64,
    pub tmax: u64,
    pub tiers: Vec<Tier>,
    pub name: String,
}

/// One entry as the model sees it.
pub struct Row {
    pub tmin: u64,
    pub tmax: u64,
    pub label: Seq<char>,
}

/// The model of a tier.
pub struct TierView {
    pub name: Seq<char>,
    pub is_interval: bool,
    pub rows: Seq<Row>,
}

/// The model of a TextGrid.
pub struct GridView {
    pub tmin: u64,
    pub tmax: u64,
    pub tiers: Seq<TierView>,
    pub name: Seq<char>,
}

impl View for Interval {
    type V = Row;

    open spec fn view(&self) -> Row {
        Row { tmin: self.start, tmax: self.end, label: self.label@ }
    }
}

impl View for Point {
    type V = Row;

    open spec fn view(&self) -> Row {
        Row { tmin: self.time, tmax: self.time, label: self.label@ }
    }
}

/// The rows of a list of intervals.
pub open spec fn interval_rows(v: Seq<Interval>) -> Seq<Row> {
    Seq::new(v.len(), |i: int| v[i]@)
}

/// The rows of a list of points.
pub open spec fn point_rows(v: Seq<Point>) -> Seq<Row> {
    Seq::new(v.len(), |i: int| v[i]@)
}

impl View for Entries {
    type V = Seq<Row>;

    open spec fn view(&self) -> Seq<Row> {
        match self {
            Entries::Intervals(v) => interval_rows(v@),
            Entries::Points(v) => point_rows(v@),
        }
    }
}

impl View for Tier {
    type V = TierView;

    open spec fn view(&self) -> TierView {
        TierView {
            name: self.name@,
            is_interval: self.entries is Intervals,
            rows: self.entries@,
        }
    }
}

/// The models of a list of tiers.
pub open spec fn tier_views(v: Seq<Tier>) -> Seq<TierView> {
    Seq::new(v.len(), |i: int| v[i]@)
}

impl View for TextGrid {
    type V = GridView;

    open spec fn view(&self) -> GridView {
        GridView {
            tmin: self.tmin,
            tmax: self.tmax,
            tiers: tier_views(self.tiers@),
            name: self.name@,
        }
    }
}

impl TierView {
    /// Every point row has its time in both bounds. The model of a `Tier`
    /// always is of this shape.
    pub open spec fn well_formed(self) -> bool {
        !self.is_interval ==> forall|i: int|
            0 <= i < self.rows.len() ==> (#[trigger] self.rows[i]).tmin == self.rows[i].tmax
    }
}

impl GridView {
    /// Every tier is well formed.
    pub open spec fn well_formed(self) -> bool {
        forall|t: int| 0 <= t < self.tiers.len() ==> (#[trigger] self.tiers[t]).well_formed()
    }
}

impl Entries {
    /// Whether these are the entries of an interval tier.
    pub fn is_interval(&self) -> (r: bool)
        ensures
            r == (self is Intervals),
    {
        match self {
            Entries::Intervals(_) => true,
            Entries::Points(_) => false,
        }
    }

    /// The number of entries.
    pub fn len(&self) -> (n: usize)
        ensures
            n == self@.len(),
    {
        match self {
            Entries::Intervals(v) => v.len(),
            Entries::Points(v) => v.len(),
        }
    }
}

impl Tier {
    /// Whether this is an interval tier.
    pub fn is_interval(&self) -> (r: bool)
        ensures
            r == self@.is_interval,
    {
        self.entries.is_interval()
    }
}

/// The model of a tier is well formed, whatever the tier holds.
pub proof fn tier_model_is_well_formed(tier: Tier)
    ensures
        tier@.well_formed(),
{
}

/// The model of a TextGrid is well formed, whatever it holds.
pub proof fn grid_model_is_well_formed(grid: TextGrid)
    ensures
        grid@.well_formed(),
{
    assert forall|t: int| 0 <= t < grid@.tiers.len() implies (#[trigger] grid@.tiers[t]).well_formed() by {
        tier_model_is_well_formed(grid.tiers@[t]);
    }
}

} // verus!
