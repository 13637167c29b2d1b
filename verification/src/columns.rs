//! The flat columnar form: one row per entry, the tiers one after the other,
//! as five parallel columns of start, end, label, tier name and kind.
//!
//! The way back groups neighbouring rows of one tier name into a tier, so two
//! runs of one name that do not touch become two tiers.

use vstd::prelude::*;
use crate::data::{data_rows, data_tiers, grid_from_data, name_model, EntryData, TierData};
use crate::error::TextGridError;
use crate::model::{GridView, Row, TextGrid, TierView};
use crate::validate::{first_some, first_some_absent, first_some_found};

verus! {

/// The five columns: starts, ends, labels, tier names, and whether the row is an interval.
pub type Vectors = (Vec<u64>, Vec<u64>, Vec<String>, Vec<String>, Vec<bool>);

/// One row of the flat form.
pub struct FlatRow {
    pub tmin: u64,
    pub tmax: u64,
    pub label: Seq<char>,
    pub tier: Seq<char>,
    pub is_interval: bool,
}

/// The texts of a list of strings.
pub open spec fn texts(v: Seq<String>) -> Seq<Seq<char>> {
    Seq::new(v.len(), |i: int| v[i]@)
}

/// The rows of one tier, each with the tier's name and kind.
pub open spec fn tier_flat(t: TierView) -> Seq<FlatRow> {
    Seq::new(
        t.rows.len(),
        |i: int|
            FlatRow {
                tmin: t.rows[i].tmin,
                tmax: t.rows[i].tmax,
                label: t.rows[i].label,
                tier: t.name,
                is_interval: t.is_interval,
            },
    )
}

/// The rows of all tiers, the tiers in their order.
pub open spec fn flat_rows(tiers: Seq<TierView>) -> Seq<FlatRow>
    decreases tiers.len(),
{
    if tiers.len() == 0 {
        Seq::empty()
    } else {
        flat_rows(tiers.drop_last()) + tier_flat(tiers.last())
    }
}

/// The rows that five columns of one length hold.
pub open spec fn column_rows(
    tmins: Seq<u64>,
    tmaxs: Seq<u64>,
    labels: Seq<Seq<char>>,
    tier_names: Seq<Seq<char>>,
    is_interval: Seq<bool>,
) -> Seq<FlatRow> {
    Seq::new(
        tmins.len(),
        |i: int|
            FlatRow {
                tmin: tmins[i],
                tmax: tmaxs[i],
                label: labels[i],
                tier: tier_names[i],
                is_interval: is_interval[i],
            },
    )
}

/// The rows that a tuple of columns holds, where they are of one length.
pub open spec fn vector_rows(v: Vectors) -> Seq<FlatRow> {
    column_rows(v.0@, v.1@, texts(v.2@), texts(v.3@), v.4@)
}

/// Whether the five columns are of one length.
pub open spec fn aligned(v: Vectors) -> bool {
    &&& v.1@.len() == v.0@.len()
    &&& v.2@.len() == v.0@.len()
    &&& v.3@.len() == v.0@.len()
    &&& v.4@.len() == v.0@.len()
}

/// Whether rows `i` and `i + 1` share a tier name but differ in kind.
pub open spec fn mixed_at(rows: Seq<FlatRow>, i: int) -> Option<()> {
    if rows[i].tier == rows[i + 1].tier && rows[i].is_interval != rows[i + 1].is_interval {
        Some(())
    } else {
        None
    }
}

/// The first row that shares its tier name with the next but differs from it in kind.
pub open spec fn first_mixed(rows: Seq<FlatRow>) -> Option<int> {
    match first_some(|i: int| mixed_at(rows, i), 0, rows.len() - 1) {
        Some((i, _)) => Some(i),
        None => None,
    }
}

/// The entry that a flat row stands for.
pub open spec fn entry_of(r: FlatRow) -> Row {
    Row { tmin: r.tmin, tmax: r.tmax, label: r.label }
}

/// The tiers that the rows fall into: each run of neighbouring rows with one
/// tier name is a tier, of the kind of its first row.
pub open spec fn group(rows: Seq<FlatRow>) -> Seq<TierView>
    decreases rows.len(),
{
    if rows.len() == 0 {
        Seq::empty()
    } else {
        let head = group(rows.drop_last());
        let r = rows.last();
        if rows.len() >= 2 && rows[rows.len() - 2].tier == r.tier {
            head.drop_last().push(
                TierView { rows: head.last().rows.push(entry_of(r)), ..head.last() },
            )
        } else {
            head.push(TierView { name: r.tier, is_interval: r.is_interval, rows: seq![entry_of(r)] })
        }
    }
}

/// What `from_vectors` gives for rows of five aligned columns: the rows
/// grouped into tiers, unless a run mixes the two kinds, and then as the
/// nested form gives it.
pub open spec fn grid_from_rows(
    rows: Seq<FlatRow>,
    name: Option<Seq<char>>,
    tmin: Option<u64>,
    tmax: Option<u64>,
    strict: bool,
) -> Result<GridView, TextGridError> {
    match first_mixed(rows) {
        Some(i) => Err(TextGridError::MixedTierKind { row: i as usize }),
        None => grid_from_data(group(rows), name, tmin, tmax, strict),
    }
}

fn flatten(data: &Vec<TierData>) -> (v: Vectors)
    ensures
        aligned(v),
        vector_rows(v) == flat_rows(data_tiers(data@)),
{
    let ghost tiers = data_tiers(data@);
    let mut tmins: Vec<u64> = Vec::new();
    let mut tmaxs: Vec<u64> = Vec::new();
    let mut labels: Vec<String> = Vec::new();
    let mut tier_names: Vec<String> = Vec::new();
    let mut kinds: Vec<bool> = Vec::new();
    let ghost mut done: Seq<FlatRow> = Seq::empty();
    let n: usize = data.len();
    let mut t: usize = 0;
    while t < n
        invariant
            n == data@.len(),
            t <= n,
            tiers == data_tiers(data@),
            done == flat_rows(tiers.take(t as int)),
            tmins@.len() == done.len(),
            tmaxs@.len() == done.len(),
            labels@.len() == done.len(),
            tier_names@.len() == done.len(),
            kinds@.len() == done.len(),
            forall|j: int|
                0 <= j < done.len() ==> (#[trigger] done[j]) == (FlatRow {
                    tmin: tmins@[j],
                    tmax: tmaxs@[j],
                    label: labels@[j]@,
                    tier: tier_names@[j]@,
                    is_interval: kinds@[j],
                }),
        decreases n - t,
    {
        let d = &data[t];
        let entries = &d.2;
        let ghost base = done;
        let m: usize = entries.len();
        let mut i: usize = 0;
        while i < m
            invariant
                m == entries@.len(),
                i <= m,
                t < n,
                n == data@.len(),
                tiers == data_tiers(data@),
                d == data@[t as int],
                entries == d.2,
                base == flat_rows(tiers.take(t as int)),
                done == base + tier_flat(tiers[t as int]).take(i as int),
                tmins@.len() == done.len(),
                tmaxs@.len() == done.len(),
                labels@.len() == done.len(),
                tier_names@.len() == done.len(),
                kinds@.len() == done.len(),
                forall|j: int|
                    0 <= j < done.len() ==> (#[trigger] done[j]) == (FlatRow {
                        tmin: tmins@[j],
                        tmax: tmaxs@[j],
                        label: labels@[j]@,
                        tier: tier_names@[j]@,
                        is_interval: kinds@[j],
                    }),
            decreases m - i,
        {
            let e = &entries[i];
            tmins.push(e.0);
            tmaxs.push(e.1);
            labels.push(e.2.clone());
            tier_names.push(d.0.clone());
            kinds.push(d.1);
            proof {
                let whole = tier_flat(tiers[t as int]);
                assert(whole.take(i + 1) =~= whole.take(i as int).push(whole[i as int]));
                let next = base + whole.take(i + 1);
                assert(next =~= done.push(whole[i as int]));
                done = next;
            }
            i += 1;
        }
        proof {
            let whole = tier_flat(tiers[t as int]);
            assert(whole.take(m as int) =~= whole);
            assert(tiers.take(t + 1).drop_last() =~= tiers.take(t as int));
            assert(tiers.take(t + 1).last() == tiers[t as int]);
        }
        t += 1;
    }
    let v = (tmins, tmaxs, labels, tier_names, kinds);
    proof {
        assert(tiers.take(n as int) =~= tiers);
        assert(vector_rows(v) =~= done);
    }
    v
}


fn find_mixed(tier_names: &Vec<String>, is_interval: &Vec<bool>, Ghost(rows): Ghost<
    Seq<FlatRow>,
>) -> (r: Option<usize>)
    requires
        rows.len() == tier_names@.len(),
        rows.len() == is_interval@.len(),
        forall|j: int|
            0 <= j < rows.len() ==> (#[trigger] rows[j]).tier == tier_names@[j]@ && rows[j].is_interval
                == is_interval@[j],
    ensures
        match first_mixed(rows) {
            Some(i) => r matches Some(k) && k as int == i,
            None => r is None,
        },
{
    let ghost f = |i: int| mixed_at(rows, i);
    let n: usize = tier_names.len();
    if n == 0 {
        return None;
    }
    let mut i: usize = 0;
    while i + 1 < n
        invariant
            n == rows.len(),
            n == tier_names@.len(),
            n == is_interval@.len(),
            i < n,
            f == (|i: int| mixed_at(rows, i)),
            forall|j: int|
                0 <= j < rows.len() ==> (#[trigger] rows[j]).tier == tier_names@[j]@
                    && rows[j].is_interval == is_interval@[j],
            forall|j: int| 0 <= j < i ==> (#[trigger] f(j)) is None,
        decreases n - i,
    {
        if tier_names[i] == tier_names[i + 1] && is_interval[i] != is_interval[i + 1] {
            proof {
                assert(f(i as int) is Some);
                first_some_found(f, 0, n - 1, i as int);
            }
            return Some(i);
        }
        assert(f(i as int) is None);
        i += 1;
    }
    proof {
        first_some_absent(f, 0, n - 1);
    }
    None
}

/// The tiers grouped so far, the last of them still open.
spec fn with_open(done: Seq<TierData>, name: Seq<char>, kind: bool, entries: Seq<EntryData>) -> Seq<
    TierView,
> {
    data_tiers(done).push(TierView { name, is_interval: kind, rows: data_rows(entries) })
}


fn regroup(v: &Vectors) -> (data: Vec<TierData>)
    requires
        aligned(*v),
    ensures
        data_tiers(data@) == group(vector_rows(*v)),
{
    let ghost rows = vector_rows(*v);
    let n: usize = v.0.len();
    let mut done: Vec<TierData> = Vec::new();
    if n == 0 {
        assert(data_tiers(done@) =~= group(rows));
        return done;
    }
    let mut name: String = v.3[0].clone();
    let mut kind: bool = v.4[0];
    let mut entries: Vec<EntryData> = Vec::new();
    entries.push((v.0[0], v.1[0], v.2[0].clone()));
    proof {
        assert(rows.take(1).drop_last() =~= Seq::<FlatRow>::empty());
        assert(group(rows.take(1).drop_last()) =~= Seq::<TierView>::empty());
        assert(rows.take(1).last() == rows[0]);
        assert(data_rows(entries@) =~= seq![entry_of(rows[0])]);
        assert(data_tiers(done@) =~= Seq::<TierView>::empty());
        assert(with_open(done@, name@, kind, entries@) =~= group(rows.take(1)));
    }
    let mut i: usize = 1;
    while i < n
        invariant
            aligned(*v),
            rows == vector_rows(*v),
            n == v.0@.len(),
            1 <= i <= n,
            name@ == rows[i - 1].tier,
            with_open(done@, name@, kind, entries@) == group(rows.take(i as int)),
        decreases n - i,
    {
        proof {
            assert(rows.take(i + 1).drop_last() =~= rows.take(i as int));
            assert(rows.take(i + 1)[i - 1] == rows[i - 1]);
            assert(rows.take(i + 1).last() == rows[i as int]);
        }
        let ghost before = with_open(done@, name@, kind, entries@);
        if v.3[i] == name {
            let ghost old_entries = entries@;
            entries.push((v.0[i], v.1[i], v.2[i].clone()));
            proof {
                assert(data_rows(entries@) =~= data_rows(old_entries).push(entry_of(rows[i as int])));
                assert(before.drop_last() =~= data_tiers(done@));
                assert(with_open(done@, name@, kind, entries@) =~= group(rows.take(i + 1)));
            }
        } else {
            let ghost old_done = done@;
            done.push((name, kind, entries));
            name = v.3[i].clone();
            kind = v.4[i];
            entries = Vec::new();
            entries.push((v.0[i], v.1[i], v.2[i].clone()));
            proof {
                assert(data_tiers(done@) =~= before);
                assert(data_rows(entries@) =~= seq![entry_of(rows[i as int])]);
                assert(with_open(done@, name@, kind, entries@) =~= group(rows.take(i + 1)));
            }
        }
        i += 1;
    }
    let ghost before = with_open(done@, name@, kind, entries@);
    done.push((name, kind, entries));
    proof {
        assert(rows.take(n as int) =~= rows);
        assert(data_tiers(done@) =~= before);
    }
    done
}

impl TextGrid {
    /// The flat form of this TextGrid: one row per entry, the tiers one after
    /// the other in their stored order. A point gives its time as both start
    /// and end.
    pub fn to_vectors(&self) -> (v: Vectors)
        ensures
            aligned(v),
            vector_rows(v) == flat_rows(self@.tiers),
    {
        let data = self.to_data();
        flatten(&data.2)
    }

    /// Builds a TextGrid from five columns. They must be of one length. Each
    /// run of neighbouring rows with one tier name becomes a tier, and must be
    /// of one kind. The rest is as `from_data` does it.
    pub fn from_vectors(
        tmins: Vec<u64>,
        tmaxs: Vec<u64>,
        labels: Vec<String>,
        tier_names: Vec<String>,
        is_intervals: Vec<bool>,
        tmin: Option<u64>,
        tmax: Option<u64>,
        name: Option<String>,
        strict: bool,
    ) -> (r: Result<TextGrid, TextGridError>)
        ensures
            !aligned((tmins, tmaxs, labels, tier_names, is_intervals)) ==> r == Err::<
                TextGrid,
                TextGridError,
            >(TextGridError::LengthMismatch),
            aligned((tmins, tmaxs, labels, tier_names, is_intervals)) ==> match grid_from_rows(
                vector_rows((tmins, tmaxs, labels, tier_names, is_intervals)),
                name_model(name),
                tmin,
                tmax,
                strict,
            ) {
                Ok(g) => r matches Ok(grid) && grid@ == g,
                Err(e) => r == Err::<TextGrid, TextGridError>(e),
            },
    {
        let n: usize = tmins.len();
        if tmaxs.len() != n || labels.len() != n || tier_names.len() != n || is_intervals.len()
            != n {
            return Err(TextGridError::LengthMismatch);
        }
        let v: Vectors = (tmins, tmaxs, labels, tier_names, is_intervals);
        match find_mixed(&v.3, &v.4, Ghost(vector_rows(v))) {
            Some(row) => {
                return Err(TextGridError::MixedTierKind { row });
            },
            None => {},
        }
        let data = regroup(&v);
        TextGrid::from_data(data, name, tmin, tmax, strict)
    }
}

} // verus!
