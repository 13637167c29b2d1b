//! What holds of the conversions taken together: a valid TextGrid comes back
//! unchanged from the nested form, and from the flat form where its tiers can
//! be told apart there.

use vstd::prelude::*;
use crate::columns::{
    entry_of,
    first_mixed,
    flat_rows,
    grid_from_rows,
    group,
    mixed_at,
    tier_flat,
    FlatRow,
};
use crate::data::{first_point_span, grid_from_data};
use crate::error::TextGridError;
use crate::model::{grid_model_is_well_formed, GridView, TextGrid, TierView};
use crate::validate::{first_some_absent, first_some_is_first};

verus! {

/// The tiers can be told apart in the flat form: none is empty, and no two
/// neighbours share a name.
pub open spec fn runs_apart(tiers: Seq<TierView>) -> bool {
    &&& forall|t: int| 0 <= t < tiers.len() ==> (#[trigger] tiers[t]).rows.len() > 0
    &&& forall|t: int| 0 <= t < tiers.len() - 1 ==> (#[trigger] tiers[t]).name != tiers[t + 1].name
}

/// No row shares its tier name with the next while differing from it in kind.
pub open spec fn one_kind_per_run(rows: Seq<FlatRow>) -> bool {
    forall|i: int| 0 <= i < rows.len() - 1 ==> (#[trigger] mixed_at(rows, i)) is None
}

/// The first `k` entries of a tier, as a tier.
pub open spec fn cut(tier: TierView, k: int) -> TierView {
    TierView { rows: tier.rows.take(k), ..tier }
}

proof fn flat_rows_end(tiers: Seq<TierView>)
    requires
        tiers.len() > 0,
        tiers.last().rows.len() > 0,
    ensures
        flat_rows(tiers).len() > 0,
        flat_rows(tiers).last().tier == tiers.last().name,
{
}

proof fn flat_rows_of_none(tiers: Seq<TierView>)
    requires
        flat_rows(tiers).len() > 0,
    ensures
        tiers.len() > 0,
{
}


proof fn group_grows(init: Seq<TierView>, last: TierView, k: int)
    requires
        runs_apart(init.push(last)),
        1 <= k <= last.rows.len(),
        group(flat_rows(init)) == init,
        one_kind_per_run(flat_rows(init)),
    ensures
        group(flat_rows(init) + tier_flat(last).take(k)) == init.push(cut(last, k)),
        one_kind_per_run(flat_rows(init) + tier_flat(last).take(k)),
    decreases k,
{
    let whole = tier_flat(last);
    let rows = flat_rows(init) + whole.take(k);
    let before = flat_rows(init) + whole.take(k - 1);
    let all = init.push(last);
    assert(rows.drop_last() =~= before);
    assert(rows.last() == whole[k - 1]);
    assert(last.rows.take(k) =~= last.rows.take(k - 1).push(last.rows[k - 1]));
    if k == 1 {
        assert(before =~= flat_rows(init));
        assert(last.rows.take(1) =~= seq![entry_of(rows.last())]);
        if flat_rows(init).len() > 0 {
            flat_rows_of_none(init);
            assert(init.last() == all[init.len() - 1]);
            assert(all[init.len() - 1].rows.len() > 0);
            flat_rows_end(init);
            assert(rows[rows.len() - 2] == flat_rows(init).last());
            assert(all[init.len() - 1].name != all[init.len() - 1 + 1].name);
        }
        assert(group(rows) =~= init.push(cut(last, 1)));
    } else {
        group_grows(init, last, k - 1);
        assert(rows[rows.len() - 2] == whole[k - 2]);
        let head = group(before);
        assert(head.drop_last() =~= init);
        assert(head.last() == cut(last, k - 1));
        assert(group(rows) =~= init.push(cut(last, k)));
    }
    assert forall|i: int| 0 <= i < rows.len() - 1 implies (#[trigger] mixed_at(rows, i)) is None by {
        if i < rows.len() - 2 {
            assert(mixed_at(before, i) is None);
            assert(rows[i] == before[i]);
            assert(rows[i + 1] == before[i + 1]);
        }
    }
}

/// Grouping undoes flattening where the tiers can be told apart, and finds
/// every run to be of one kind.
pub proof fn group_undoes_flat_rows(tiers: Seq<TierView>)
    requires
        runs_apart(tiers),
    ensures
        group(flat_rows(tiers)) == tiers,
        one_kind_per_run(flat_rows(tiers)),
        first_mixed(flat_rows(tiers)) is None,
    decreases tiers.len(),
{
    if tiers.len() == 0 {
        assert(group(flat_rows(tiers)) =~= tiers);
    } else {
        let init = tiers.drop_last();
        let last = tiers.last();
        assert(init.push(last) =~= tiers);
        assert(runs_apart(init)) by {
            assert forall|t: int| 0 <= t < init.len() implies (#[trigger] init[t]).rows.len() > 0 by {
                assert(tiers[t].rows.len() > 0);
            }
            assert forall|t: int| 0 <= t < init.len() - 1 implies (#[trigger] init[t]).name != init[t
                + 1].name by {
                assert(tiers[t].name != tiers[t + 1].name);
            }
        }
        group_undoes_flat_rows(init);
        assert(tiers[tiers.len() - 1].rows.len() > 0);
        group_grows(init, last, last.rows.len() as int);
        assert(tier_flat(last).take(last.rows.len() as int) =~= tier_flat(last));
        assert(last.rows.take(last.rows.len() as int) =~= last.rows);
        assert(cut(last, last.rows.len() as int) == last);
    }
    first_some_absent(|i: int| mixed_at(flat_rows(tiers), i), 0, flat_rows(tiers).len() - 1);
}

/// In the model of a TextGrid every point has its time in both bounds.
pub proof fn points_are_points(g: GridView)
    requires
        g.well_formed(),
    ensures
        first_point_span(g.tiers) is None,
{
    let per_tier = |t: int| g.tiers[t].first_span();
    assert forall|t: int| 0 <= t < g.tiers.len() implies (#[trigger] per_tier(t)) is None by {
        let tier = g.tiers[t];
        assert(tier.well_formed());
        if !tier.is_interval {
            let per_row = |i: int| tier.span_at(i);
            assert forall|i: int| 0 <= i < tier.rows.len() implies (#[trigger] per_row(i)) is None by {
                assert(tier.rows[i].tmin == tier.rows[i].tmax);
            }
            first_some_absent(per_row, 0, tier.rows.len() as int);
        }
    }
    first_some_absent(per_tier, 0, g.tiers.len() as int);
}

/// A valid TextGrid that goes to the nested form and back, with its own name
/// and time domain, comes back as it was.
pub proof fn data_round_trip(grid: TextGrid, strict: bool)
    requires
        grid@.valid(strict),
    ensures
        grid_from_data(
            grid@.tiers,
            Some(grid@.name),
            Some(grid@.tmin),
            Some(grid@.tmax),
            strict,
        ) == Ok::<GridView, TextGridError>(grid@),
{
    grid_model_is_well_formed(grid);
    points_are_points(grid@);
}

/// A valid TextGrid that goes to the flat form and back, with its own name
/// and time domain, comes back as it was, provided that its tiers can be told
/// apart in the flat form: none is empty and no two neighbours share a name.
pub proof fn vector_round_trip(grid: TextGrid, strict: bool)
    requires
        grid@.valid(strict),
        runs_apart(grid@.tiers),
    ensures
        grid_from_rows(
            flat_rows(grid@.tiers),
            Some(grid@.name),
            Some(grid@.tmin),
            Some(grid@.tmax),
            strict,
        ) == Ok::<GridView, TextGridError>(grid@),
{
    group_undoes_flat_rows(grid@.tiers);
    data_round_trip(grid, strict);
}

} // verus!
