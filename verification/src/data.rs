//! The nested exchange form: a TextGrid as its time domain and a list of
//! `(name, is_interval, entries)`, each entry a `(start, end, label)`. A point
//! stands in it with its time as both bounds.
//!
//! The form keeps the tiers apart, so nothing is lost on the way there and back.

use vstd::prelude::*;
use crate::error::TextGridError;
use crate::model::{
    interval_rows,
    point_rows,
    tier_views,
    Entries,
    GridView,
    Interval,
    Point,
    Row,
    TextGrid,
    Tier,
    TierView,
};
use crate::time::{lower, upper, time_lt, INFINITY, NEG_INFINITY};
use crate::validate::{first_some, first_some_absent, first_some_found, first_some_is_first};

verus! {

/// One entry of the nested form: start, end and label.
pub type EntryData = (u64, u64, String);

/// One tier of the nested form: name, whether it holds intervals, and its entries.
pub type TierData = (String, bool, Vec<EntryData>);

/// The rows that a list of nested entries stands for.
pub open spec fn data_rows(entries: Seq<EntryData>) -> Seq<Row> {
    Seq::new(
        entries.len(),
        |i: int| Row { tmin: entries[i].0, tmax: entries[i].1, label: entries[i].2@ },
    )
}

/// The tier that a nested tier stands for.
pub open spec fn data_tier(d: TierData) -> TierView {
    TierView { name: d.0@, is_interval: d.1, rows: data_rows(d.2@) }
}

/// The tiers that a nested list stands for.
pub open spec fn data_tiers(data: Seq<TierData>) -> Seq<TierView> {
    Seq::new(data.len(), |i: int| data_tier(data[i]))
}

/// The name that a TextGrid gets where none is given.
pub open spec fn default_name() -> Seq<char> {
    "TextGrid"@
}

/// The model of an optional name.
pub open spec fn name_model(name: Option<String>) -> Option<Seq<char>> {
    match name {
        Some(s) => Some(s@),
        None => None,
    }
}

/// The least start among `rows` and `acc`; a start that is no number is passed over.
pub open spec fn least_from(acc: u64, rows: Seq<Row>) -> u64
    decreases rows.len(),
{
    if rows.len() == 0 {
        acc
    } else {
        lower(least_from(acc, rows.drop_last()), rows.last().tmin)
    }
}

/// The least start of all entries of all tiers; positive infinity where there is no entry.
pub open spec fn least_start(tiers: Seq<TierView>) -> u64
    decreases tiers.len(),
{
    if tiers.len() == 0 {
        INFINITY
    } else {
        least_from(least_start(tiers.drop_last()), tiers.last().rows)
    }
}

/// The greatest end among `rows` and `acc`; an end that is no number is passed over.
pub open spec fn greatest_from(acc: u64, rows: Seq<Row>) -> u64
    decreases rows.len(),
{
    if rows.len() == 0 {
        acc
    } else {
        upper(greatest_from(acc, rows.drop_last()), rows.last().tmax)
    }
}

/// The greatest end of all entries of all tiers; negative infinity where there is no entry.
pub open spec fn greatest_end(tiers: Seq<TierView>) -> u64
    decreases tiers.len(),
{
    if tiers.len() == 0 {
        NEG_INFINITY
    } else {
        greatest_from(greatest_end(tiers.drop_last()), tiers.last().rows)
    }
}

impl TierView {
    /// Whether row `i` of a point tier has two different bounds.
    pub open spec fn span_at(self, i: int) -> Option<()> {
        if self.rows[i].tmin != self.rows[i].tmax {
            Some(())
        } else {
            None
        }
    }

    /// The first row of a point tier that has two different bounds.
    pub open spec fn first_span(self) -> Option<int> {
        if self.is_interval {
            None
        } else {
            match first_some(|i: int| self.span_at(i), 0, self.rows.len() as int) {
                Some((i, _)) => Some(i),
                None => None,
            }
        }
    }
}

/// The first row of a point tier, over all tiers in their order, that has two
/// different bounds: the tier and the row.
pub open spec fn first_point_span(tiers: Seq<TierView>) -> Option<(int, int)> {
    first_some(|t: int| tiers[t].first_span(), 0, tiers.len() as int)
}

/// What `from_data` gives: the tiers as they stand, over the time domain given
/// or else spanned by the entries, if every point is a point and no rule is
/// broken.
pub open spec fn grid_from_data(
    tiers: Seq<TierView>,
    name: Option<Seq<char>>,
    tmin: Option<u64>,
    tmax: Option<u64>,
    strict: bool,
) -> Result<GridView, TextGridError> {
    match first_point_span(tiers) {
        Some((t, i)) => Err(TextGridError::PointSpan { tier: t as usize, entry: i as usize }),
        None => {
            let g = GridView {
                tmin: match tmin {
                    Some(t) => t,
                    None => least_start(tiers),
                },
                tmax: match tmax {
                    Some(t) => t,
                    None => greatest_end(tiers),
                },
                tiers,
                name: match name {
                    Some(n) => n,
                    None => default_name(),
                },
            };
            match g.fault(strict) {
                Some(e) => Err(TextGridError::Validation(e)),
                None => Ok(g),
            }
        },
    }
}


fn intervals_from(entries: &Vec<EntryData>) -> (v: Vec<Interval>)
    ensures
        interval_rows(v@) == data_rows(entries@),
{
    let n: usize = entries.len();
    let mut v: Vec<Interval> = Vec::new();
    let mut i: usize = 0;
    while i < n
        invariant
            n == entries@.len(),
            i <= n,
            v@.len() == i,
            forall|j: int| 0 <= j < i ==> (#[trigger] v@[j])@ == data_rows(entries@)[j],
        decreases n - i,
    {
        let e = &entries[i];
        v.push(Interval { start: e.0, end: e.1, label: e.2.clone() });
        i += 1;
    }
    assert(interval_rows(v@) =~= data_rows(entries@));
    v
}


fn points_from(entries: &Vec<EntryData>, Ghost(tier): Ghost<TierView>) -> (r: Result<
    Vec<Point>,
    usize,
>)
    requires
        !tier.is_interval,
        tier.rows == data_rows(entries@),
    ensures
        match tier.first_span() {
            Some(i) => r matches Err(k) && k as int == i,
            None => r matches Ok(v) && point_rows(v@) == data_rows(entries@),
        },
{
    let ghost f = |i: int| tier.span_at(i);
    let n: usize = entries.len();
    let mut v: Vec<Point> = Vec::new();
    let mut i: usize = 0;
    while i < n
        invariant
            n == entries@.len(),
            i <= n,
            v@.len() == i,
            !tier.is_interval,
            tier.rows == data_rows(entries@),
            f == (|i: int| tier.span_at(i)),
            forall|j: int| 0 <= j < i ==> (#[trigger] f(j)) is None,
            forall|j: int| 0 <= j < i ==> (#[trigger] v@[j])@ == data_rows(entries@)[j],
        decreases n - i,
    {
        let e = &entries[i];
        if e.0 != e.1 {
            proof {
                assert(f(i as int) is Some);
                first_some_found(f, 0, n as int, i as int);
            }
            return Err(i);
        }
        assert(f(i as int) is None);
        v.push(Point { time: e.0, label: e.2.clone() });
        i += 1;
    }
    proof {
        first_some_absent(f, 0, n as int);
        assert(point_rows(v@) =~= data_rows(entries@));
    }
    Ok(v)
}


fn least_of(data: &Vec<TierData>) -> (acc: u64)
    ensures
        acc == least_start(data_tiers(data@)),
{
    let ghost tiers = data_tiers(data@);
    let n: usize = data.len();
    let mut acc: u64 = INFINITY;
    let mut t: usize = 0;
    while t < n
        invariant
            n == data@.len(),
            t <= n,
            tiers == data_tiers(data@),
            acc == least_start(tiers.take(t as int)),
        decreases n - t,
    {
        let entries = &data[t].2;
        let ghost rows = tiers[t as int].rows;
        let ghost base = acc;
        let m: usize = entries.len();
        let mut i: usize = 0;
        while i < m
            invariant
                m == entries@.len(),
                i <= m,
                rows == data_rows(entries@),
                acc == least_from(base, rows.take(i as int)),
            decreases m - i,
        {
            proof {
                assert(rows.take(i + 1).drop_last() =~= rows.take(i as int));
            }
            if time_lt(entries[i].0, acc) {
                acc = entries[i].0;
            }
            i += 1;
        }
        proof {
            assert(rows.take(m as int) =~= rows);
            assert(tiers.take(t + 1).drop_last() =~= tiers.take(t as int));
        }
        t += 1;
    }
    proof {
        assert(tiers.take(n as int) =~= tiers);
    }
    acc
}


fn greatest_of(data: &Vec<TierData>) -> (acc: u64)
    ensures
        acc == greatest_end(data_tiers(data@)),
{
    let ghost tiers = data_tiers(data@);
    let n: usize = data.len();
    let mut acc: u64 = NEG_INFINITY;
    let mut t: usize = 0;
    while t < n
        invariant
            n == data@.len(),
            t <= n,
            tiers == data_tiers(data@),
            acc == greatest_end(tiers.take(t as int)),
        decreases n - t,
    {
        let entries = &data[t].2;
        let ghost rows = tiers[t as int].rows;
        let ghost base = acc;
        let m: usize = entries.len();
        let mut i: usize = 0;
        while i < m
            invariant
                m == entries@.len(),
                i <= m,
                rows == data_rows(entries@),
                acc == greatest_from(base, rows.take(i as int)),
            decreases m - i,
        {
            proof {
                assert(rows.take(i + 1).drop_last() =~= rows.take(i as int));
            }
            if time_lt(acc, entries[i].1) {
                acc = entries[i].1;
            }
            i += 1;
        }
        proof {
            assert(rows.take(m as int) =~= rows);
            assert(tiers.take(t + 1).drop_last() =~= tiers.take(t as int));
        }
        t += 1;
    }
    proof {
        assert(tiers.take(n as int) =~= tiers);
    }
    acc
}


fn tiers_from(data: &Vec<TierData>) -> (r: Result<Vec<Tier>, (usize, usize)>)
    ensures
        match first_point_span(data_tiers(data@)) {
            Some((t, i)) => r == Err::<Vec<Tier>, (usize, usize)>((t as usize, i as usize)),
            None => r matches Ok(v) && tier_views(v@) == data_tiers(data@),
        },
{
    let ghost tiers = data_tiers(data@);
    let ghost f = |t: int| tiers[t].first_span();
    let n: usize = data.len();
    let mut v: Vec<Tier> = Vec::new();
    let mut t: usize = 0;
    while t < n
        invariant
            n == data@.len(),
            t <= n,
            v@.len() == t,
            tiers == data_tiers(data@),
            f == (|t: int| tiers[t].first_span()),
            forall|j: int| 0 <= j < t ==> (#[trigger] f(j)) is None,
            forall|j: int| 0 <= j < t ==> (#[trigger] v@[j])@ == tiers[j],
        decreases n - t,
    {
        let d = &data[t];
        let entries = if d.1 {
            assert(f(t as int) is None);
            Entries::Intervals(intervals_from(&d.2))
        } else {
            match points_from(&d.2, Ghost(tiers[t as int])) {
                Ok(points) => {
                    assert(f(t as int) is None);
                    Entries::Points(points)
                },
                Err(i) => {
                    proof {
                        assert(f(t as int) == Some(i as int));
                        first_some_found(f, 0, n as int, t as int);
                    }
                    return Err((t, i));
                },
            }
        };
        v.push(Tier { name: d.0.clone(), entries });
        t += 1;
    }
    proof {
        first_some_absent(f, 0, n as int);
        assert(tier_views(v@) =~= tiers);
    }
    Ok(v)
}

impl TextGrid {
    /// Builds a TextGrid from the nested form. The time domain is `tmin` and
    /// `tmax` where given, else the least start and the greatest end of all
    /// entries; the name is `name` where given. A point tier's entries must
    /// have their time in both bounds. The result is validated under `strict`.
    pub fn from_data(
        data: Vec<TierData>,
        name: Option<String>,
        tmin: Option<u64>,
        tmax: Option<u64>,
        strict: bool,
    ) -> (r: Result<TextGrid, TextGridError>)
        ensures
            match grid_from_data(data_tiers(data@), name_model(name), tmin, tmax, strict) {
                Ok(g) => r matches Ok(grid) && grid@ == g,
                Err(e) => r == Err::<TextGrid, TextGridError>(e),
            },
    {
        let tiers = match tiers_from(&data) {
            Ok(tiers) => tiers,
            Err((t, i)) => {
                return Err(TextGridError::PointSpan { tier: t, entry: i });
            },
        };
        let lo: u64 = match tmin {
            Some(t) => t,
            None => least_of(&data),
        };
        let hi: u64 = match tmax {
            Some(t) => t,
            None => greatest_of(&data),
        };
        let label = match name {
            Some(n) => n,
            None => "TextGrid".to_owned(),
        };
        let grid = TextGrid { tmin: lo, tmax: hi, tiers, name: label };
        match grid.validate(strict) {
            Ok(()) => Ok(grid),
            Err(e) => Err(TextGridError::Validation(e)),
        }
    }

    /// The nested form of this TextGrid: its time domain and its tiers, each
    /// with its name, its kind and its entries.
    pub fn to_data(&self) -> (r: (u64, u64, Vec<TierData>))
        ensures
            r.0 == self.tmin,
            r.1 == self.tmax,
            data_tiers(r.2@) == self@.tiers,
    {
        let n: usize = self.tiers.len();
        let mut out: Vec<TierData> = Vec::new();
        let mut t: usize = 0;
        while t < n
            invariant
                n == self.tiers@.len(),
                t <= n,
                out@.len() == t,
                forall|j: int| 0 <= j < t ==> data_tier(#[trigger] out@[j]) == self.tiers@[j]@,
            decreases n - t,
        {
            let tier = &self.tiers[t];
            let mut rows: Vec<EntryData> = Vec::new();
            match &tier.entries {
                Entries::Intervals(v) => {
                    let m: usize = v.len();
                    let mut i: usize = 0;
                    while i < m
                        invariant
                            m == v@.len(),
                            i <= m,
                            rows@.len() == i,
                            forall|j: int|
                                0 <= j < i ==> (#[trigger] rows@[j]).0 == v@[j].start
                                    && rows@[j].1 == v@[j].end && rows@[j].2@ == v@[j].label@,
                        decreases m - i,
                    {
                        rows.push((v[i].start, v[i].end, v[i].label.clone()));
                        i += 1;
                    }
                    assert(data_rows(rows@) =~= interval_rows(v@));
                },
                Entries::Points(v) => {
                    let m: usize = v.len();
                    let mut i: usize = 0;
                    while i < m
                        invariant
                            m == v@.len(),
                            i <= m,
                            rows@.len() == i,
                            forall|j: int|
                                0 <= j < i ==> (#[trigger] rows@[j]).0 == v@[j].time
                                    && rows@[j].1 == v@[j].time && rows@[j].2@ == v@[j].label@,
                        decreases m - i,
                    {
                        rows.push((v[i].time, v[i].time, v[i].label.clone()));
                        i += 1;
                    }
                    assert(data_rows(rows@) =~= point_rows(v@));
                },
            }
            out.push((tier.name.clone(), tier.is_interval(), rows));
            t += 1;
        }
        assert(data_tiers(out@) =~= self@.tiers);
        (self.tmin, self.tmax, out)
    }
}

} // verus!
