//! TextGrid annotations: the tier model and its validation, the conversions
//! between the nested per-tier form and flat parallel columns, and the long
//! and short text file types.
//!
//! Every time is held as the bit pattern of an IEEE-754 double, so that the
//! whole library works on integers; see [`time`]. The library orders and
//! compares times itself. It neither parses nor formats decimal numerals:
//! [`reader::parse`] takes the doubles that the tokens of a file write, and
//! [`model::TextGrid::serialize`] takes the numerals that write its times.
//! It reads and writes no file either: it works on the text of one.
//!
//! What holds of the conversions taken together is proved in [`laws`] and
//! [`round_trip`].

use vstd::prelude::*;
use crate::columns::{aligned, flat_rows, grid_from_rows, vector_rows, Vectors};
use crate::data::{data_tiers, default_name, grid_from_data, TierData};
use crate::error::{error_text, TextGridError};
use crate::model::TextGrid;
use crate::text::{push_text, string_of};

pub use crate::batch::textgrids2vectors;

pub mod batch;
pub mod columns;
pub mod data;
pub mod error;
pub mod laws;
pub mod lexer;
pub mod model;
pub mod reader;
pub mod round_trip;
pub mod text;
pub mod time;
pub mod validate;
pub mod writer;

verus! {

/// The nested form of one TextGrid: its time domain and its tiers.
pub type Data = (u64, u64, Vec<TierData>);

/// What is said when the file `file` could not be read for the reason `cause`.
pub open spec fn read_failure(file: Seq<char>, cause: Seq<char>) -> Seq<char> {
    "Failed to read TextGrid file "@ + file + " because: "@ + cause
}

/// What is said when no TextGrid could be built for the reason `cause`.
pub open spec fn create_failure(cause: Seq<char>) -> Seq<char> {
    "Failed to create TextGrid because: "@ + cause
}

/// Words the failure to read `file` for the reason `cause`.
pub fn read_failure_message(file: &str, cause: &str) -> (m: String)
    ensures
        m@ == read_failure(file@, cause@),
{
    let mut out: Vec<char> = Vec::new();
    push_text(&mut out, "Failed to read TextGrid file ");
    push_text(&mut out, file);
    push_text(&mut out, " because: ");
    push_text(&mut out, cause);
    assert(out@ =~= read_failure(file@, cause@));
    string_of(&out)
}

/// Words the failure to build a TextGrid for the reason `cause`.
pub fn create_failure_message(cause: &str) -> (m: String)
    ensures
        m@ == create_failure(cause@),
{
    let mut out: Vec<char> = Vec::new();
    push_text(&mut out, "Failed to create TextGrid because: ");
    push_text(&mut out, cause);
    assert(out@ =~= create_failure(cause@));
    string_of(&out)
}

/// The flat form of the TextGrid that was read from `file`, or, where
/// reading failed for the reason given, the failure in words.
pub fn textgrid2vectors(file: &str, read: Result<TextGrid, String>) -> (r: Result<Vectors, String>)
    ensures
        match read {
            Ok(grid) => r matches Ok(v) && aligned(v) && vector_rows(v) == flat_rows(grid@.tiers),
            Err(cause) => r matches Err(m) && m@ == read_failure(file@, cause@),
        },
{
    match read {
        Ok(grid) => Ok(grid.to_vectors()),
        Err(cause) => Err(read_failure_message(file, cause.as_str())),
    }
}

/// The nested form of the TextGrid that was read from `file`, or, where
/// reading failed for the reason given, the failure in words.
pub fn textgrid2data(file: &str, read: Result<TextGrid, String>) -> (r: Result<Data, String>)
    ensures
        match read {
            Ok(grid) => r matches Ok(d) && d.0 == grid.tmin && d.1 == grid.tmax && data_tiers(d.2@)
                == grid@.tiers,
            Err(cause) => r matches Err(m) && m@ == read_failure(file@, cause@),
        },
{
    match read {
        Ok(grid) => Ok(grid.to_data()),
        Err(cause) => Err(read_failure_message(file, cause.as_str())),
    }
}

/// The nested forms of many TextGrids, in the order of the list.
pub fn textgrids2data(grids: &Vec<TextGrid>) -> (r: Vec<Data>)
    ensures
        r@.len() == grids@.len(),
        forall|i: int|
            0 <= i < grids@.len() ==> (#[trigger] r@[i]).0 == grids@[i].tmin && r@[i].1
                == grids@[i].tmax && data_tiers(r@[i].2@) == grids@[i]@.tiers,
{
    let n: usize = grids.len();
    let mut out: Vec<Data> = Vec::new();
    let mut i: usize = 0;
    while i < n
        invariant
            n == grids@.len(),
            i <= n,
            out@.len() == i,
            forall|j: int|
                0 <= j < i ==> (#[trigger] out@[j]).0 == grids@[j].tmin && out@[j].1
                    == grids@[j].tmax && data_tiers(out@[j].2@) == grids@[j]@.tiers,
        decreases n - i,
    {
        out.push(grids[i].to_data());
        i += 1;
    }
    out
}

/// The TextGrid named "TextGrid" that the nested form stands for, validated
/// leniently, or, where there is none, the reason in words.
pub fn data2textgrid(data: Vec<TierData>, tmin: Option<u64>, tmax: Option<u64>) -> (r: Result<
    TextGrid,
    String,
>)
    ensures
        match grid_from_data(data_tiers(data@), Some(default_name()), tmin, tmax, false) {
            Ok(g) => r matches Ok(grid) && grid@ == g,
            Err(e) => r matches Err(m) && m@ == create_failure(error_text(e)),
        },
{
    match TextGrid::from_data(data, Some("TextGrid".to_owned()), tmin, tmax, false) {
        Ok(grid) => Ok(grid),
        Err(e) => {
            let cause = e.message();
            Err(create_failure_message(cause.as_str()))
        },
    }
}

/// The TextGrid named "TextGrid" that the five columns stand for, validated
/// leniently, or, where there is none, the reason in words.
pub fn vectors2textgrid(
    tmins: Vec<u64>,
    tmaxs: Vec<u64>,
    labels: Vec<String>,
    tier_names: Vec<String>,
    is_intervals: Vec<bool>,
    tmin: Option<u64>,
    tmax: Option<u64>,
) -> (r: Result<TextGrid, String>)
    ensures
        !aligned((tmins, tmaxs, labels, tier_names, is_intervals)) ==> (r matches Err(m) && m@
            == create_failure(error_text(TextGridError::LengthMismatch))),
        aligned((tmins, tmaxs, labels, tier_names, is_intervals)) ==> match grid_from_rows(
            vector_rows((tmins, tmaxs, labels, tier_names, is_intervals)),
            Some(default_name()),
            tmin,
            tmax,
            false,
        ) {
            Ok(g) => r matches Ok(grid) && grid@ == g,
            Err(e) => r matches Err(m) && m@ == create_failure(error_text(e)),
        },
{
    match TextGrid::from_vectors(
        tmins,
        tmaxs,
        labels,
        tier_names,
        is_intervals,
        tmin,
        tmax,
        Some("TextGrid".to_owned()),
        false,
    ) {
        Ok(grid) => Ok(grid),
        Err(e) => {
            let cause = e.message();
            Err(create_failure_message(cause.as_str()))
        },
    }
}

} // verus!
