use pytextgrid::error::TextGridError;
use pytextgrid::model::{Entries, Interval, Point, TextGrid, Tier};
use pytextgrid::validate::{Rule, ValidationError};
use pytextgrid::{
    data2textgrid, textgrid2data, textgrid2vectors, textgrids2data, textgrids2vectors,
    vectors2textgrid,
};

fn t(x: f64) -> u64 {
    x.to_bits()
}

fn ts(xs: &[f64]) -> Vec<u64> {
    xs.iter().map(|x| x.to_bits()).collect()
}

fn strs(xs: &[&str]) -> Vec<String> {
    xs.iter().map(|x| x.to_string()).collect()
}

fn interval(start: f64, end: f64, label: &str) -> Interval {
    Interval { start: t(start), end: t(end), label: label.to_string() }
}

fn point(time: f64, label: &str) -> Point {
    Point { time: t(time), label: label.to_string() }
}

fn sample() -> TextGrid {
    TextGrid {
        tmin: t(0.0),
        tmax: t(3.0),
        tiers: vec![
            Tier {
                name: "words".to_string(),
                entries: Entries::Intervals(vec![interval(0.0, 1.0, "a"), interval(1.0, 3.0, "")]),
            },
            Tier { name: "marks".to_string(), entries: Entries::Points(vec![point(1.5, "x")]) },
            Tier {
                name: "words".to_string(),
                entries: Entries::Intervals(vec![interval(0.5, 2.5, "again")]),
            },
        ],
        name: "sample".to_string(),
    }
}

#[test]
fn point_tier_duplication() {
    let g = TextGrid {
        tmin: t(0.0),
        tmax: t(3.0),
        tiers: vec![Tier { name: "p".to_string(), entries: Entries::Points(vec![point(1.5, "x")]) }],
        name: "TextGrid".to_string(),
    };
    let (tmins, tmaxs, labels, tier_names, is_interval) = g.to_vectors();
    assert_eq!(tmins, ts(&[1.5]));
    assert_eq!(tmaxs, ts(&[1.5]));
    assert_eq!(labels, strs(&["x"]));
    assert_eq!(tier_names, strs(&["p"]));
    assert_eq!(is_interval, vec![false]);
}

#[test]
fn to_vectors_concatenates_tiers_in_stored_order() {
    let (tmins, tmaxs, labels, tier_names, is_interval) = sample().to_vectors();
    assert_eq!(tmins, ts(&[0.0, 1.0, 1.5, 0.5]));
    assert_eq!(tmaxs, ts(&[1.0, 3.0, 1.5, 2.5]));
    assert_eq!(labels, strs(&["a", "", "x", "again"]));
    assert_eq!(tier_names, strs(&["words", "words", "marks", "words"]));
    assert_eq!(is_interval, vec![true, true, false, true]);
}

#[test]
fn vector_round_trip_on_a_sample() {
    let g = sample();
    let (tmins, tmaxs, labels, tier_names, is_interval) = g.to_vectors();
    let back = TextGrid::from_vectors(
        tmins,
        tmaxs,
        labels,
        tier_names,
        is_interval,
        Some(g.tmin),
        Some(g.tmax),
        Some(g.name.clone()),
        false,
    );
    assert_eq!(back, Ok(g));
}

#[test]
fn data_round_trip_on_a_sample() {
    let mut g = sample();
    g.tiers.push(Tier { name: "words".to_string(), entries: Entries::Intervals(vec![]) });
    g.tiers.push(Tier { name: "words".to_string(), entries: Entries::Points(vec![]) });
    let (tmin, tmax, data) = g.to_data();
    assert_eq!(tmin, g.tmin);
    assert_eq!(tmax, g.tmax);
    let back = TextGrid::from_data(data, Some(g.name.clone()), Some(tmin), Some(tmax), false);
    assert_eq!(back, Ok(g));
}

#[test]
fn to_data_writes_a_point_with_its_time_twice() {
    let (tmin, tmax, data) = sample().to_data();
    assert_eq!(tmin, t(0.0));
    assert_eq!(tmax, t(3.0));
    assert_eq!(
        data,
        vec![
            ("words".to_string(), true, vec![(t(0.0), t(1.0), "a".to_string()), (t(1.0), t(3.0), "".to_string())]),
            ("marks".to_string(), false, vec![(t(1.5), t(1.5), "x".to_string())]),
            ("words".to_string(), true, vec![(t(0.5), t(2.5), "again".to_string())]),
        ]
    );
}

#[test]
fn neighbouring_runs_of_one_name_become_one_tier() {
    let back = TextGrid::from_vectors(
        ts(&[0.0, 1.0, 0.0, 5.0]),
        ts(&[1.0, 2.0, 1.0, 6.0]),
        strs(&["a", "b", "c", "d"]),
        strs(&["w", "w", "v", "w"]),
        vec![true, true, true, true],
        None,
        None,
        None,
        false,
    )
    .unwrap();
    assert_eq!(back.tiers.len(), 3);
    assert_eq!(back.tiers[0].name, "w");
    assert_eq!(back.tiers[0].entries, Entries::Intervals(vec![interval(0.0, 1.0, "a"), interval(1.0, 2.0, "b")]));
    assert_eq!(back.tiers[1].name, "v");
    assert_eq!(back.tiers[2].name, "w");
    assert_eq!(back.tiers[2].entries, Entries::Intervals(vec![interval(5.0, 6.0, "d")]));
    assert_eq!(back.tmin, t(0.0));
    assert_eq!(back.tmax, t(6.0));
    assert_eq!(back.name, "TextGrid");
}

#[test]
fn columns_of_different_length_are_rejected() {
    let r = TextGrid::from_vectors(
        ts(&[0.0, 1.0]),
        ts(&[1.0]),
        strs(&["a", "b"]),
        strs(&["w", "w"]),
        vec![true, true],
        None,
        None,
        None,
        false,
    );
    assert_eq!(r, Err(TextGridError::LengthMismatch));
    let r = TextGrid::from_vectors(
        ts(&[0.0]),
        ts(&[1.0]),
        strs(&["a"]),
        strs(&["w"]),
        vec![],
        None,
        None,
        None,
        false,
    );
    assert_eq!(r, Err(TextGridError::LengthMismatch));
}

#[test]
fn a_run_of_mixed_kinds_is_rejected() {
    let r = TextGrid::from_vectors(
        ts(&[0.0, 1.0, 2.0]),
        ts(&[1.0, 2.0, 2.0]),
        strs(&["a", "b", "c"]),
        strs(&["w", "w", "w"]),
        vec![true, true, false],
        None,
        None,
        None,
        false,
    );
    assert_eq!(r, Err(TextGridError::MixedTierKind { row: 1 }));
}

#[test]
fn a_point_with_two_times_is_rejected() {
    let r = TextGrid::from_vectors(
        ts(&[0.0, 1.0]),
        ts(&[1.0, 2.0]),
        strs(&["a", "b"]),
        strs(&["w", "p"]),
        vec![true, false],
        None,
        None,
        None,
        false,
    );
    assert_eq!(r, Err(TextGridError::PointSpan { tier: 1, entry: 0 }));
}

#[test]
fn from_vectors_validates() {
    let r = TextGrid::from_vectors(
        ts(&[0.0, 1.0]),
        ts(&[2.0, 3.0]),
        strs(&["a", "b"]),
        strs(&["w", "w"]),
        vec![true, true],
        None,
        None,
        None,
        false,
    );
    assert_eq!(
        r,
        Err(TextGridError::Validation(ValidationError::Entry { tier: 0, entry: 1, rule: Rule::Overlap }))
    );
    let gap = || {
        TextGrid::from_vectors(
            ts(&[0.0, 2.0]),
            ts(&[1.0, 3.0]),
            strs(&["a", "b"]),
            strs(&["w", "w"]),
            vec![true, true],
            Some(t(0.0)),
            Some(t(3.0)),
            None,
            true,
        )
    };
    assert_eq!(
        gap(),
        Err(TextGridError::Validation(ValidationError::Entry { tier: 0, entry: 1, rule: Rule::Gap }))
    );
}

#[test]
fn the_domain_defaults_to_the_span_of_the_entries() {
    let g = TextGrid::from_data(
        vec![
            ("w".to_string(), true, vec![(t(0.5), t(1.0), "a".to_string()), (t(1.0), t(2.0), "b".to_string())]),
            ("p".to_string(), false, vec![(t(-1.0), t(-1.0), "x".to_string()), (t(7.25), t(7.25), "y".to_string())]),
        ],
        None,
        None,
        None,
        false,
    )
    .unwrap();
    assert_eq!(g.tmin, t(-1.0));
    assert_eq!(g.tmax, t(7.25));
    let g = TextGrid::from_data(
        vec![("w".to_string(), true, vec![(t(0.5), t(1.0), "a".to_string())])],
        Some("mine".to_string()),
        Some(t(0.0)),
        None,
        false,
    )
    .unwrap();
    assert_eq!(g.tmin, t(0.0));
    assert_eq!(g.tmax, t(1.0));
    assert_eq!(g.name, "mine");
}

#[test]
fn no_entries_give_no_domain() {
    let r = TextGrid::from_data(vec![], None, None, None, false);
    assert_eq!(r, Err(TextGridError::Validation(ValidationError::Bounds)));
    let r = TextGrid::from_data(vec![], None, Some(t(0.0)), Some(t(1.0)), true);
    assert_eq!(r.unwrap().tiers.len(), 0);
}

#[test]
fn batch_file_id_correctness() {
    let first = TextGrid {
        tmin: t(0.0),
        tmax: t(2.0),
        tiers: vec![Tier {
            name: "a".to_string(),
            entries: Entries::Intervals(vec![interval(0.0, 1.0, "x"), interval(1.0, 2.0, "y")]),
        }],
        name: "TextGrid".to_string(),
    };
    let second = TextGrid {
        tmin: t(0.0),
        tmax: t(3.0),
        tiers: vec![Tier {
            name: "b".to_string(),
            entries: Entries::Points(vec![point(0.5, "p"), point(1.5, "q"), point(2.5, "r")]),
        }],
        name: "TextGrid".to_string(),
    };
    let (tmins, tmaxs, labels, tier_names, is_interval, file_id) =
        textgrids2vectors(&vec![first.to_vectors(), second.to_vectors()]);
    assert_eq!(file_id, vec![0, 0, 1, 1, 1]);
    assert_eq!(tmins, ts(&[0.0, 1.0, 0.5, 1.5, 2.5]));
    assert_eq!(tmaxs, ts(&[1.0, 2.0, 0.5, 1.5, 2.5]));
    assert_eq!(labels, strs(&["x", "y", "p", "q", "r"]));
    assert_eq!(tier_names, strs(&["a", "a", "b", "b", "b"]));
    assert_eq!(is_interval, vec![true, true, false, false, false]);
}

#[test]
fn rows_are_numbered_by_file() {
    let a = (ts(&[0.0]), ts(&[1.0]), strs(&["x"]), strs(&["t"]), vec![true]);
    let none = (ts(&[]), ts(&[]), strs(&[]), strs(&[]), vec![]);
    let b = (ts(&[2.0, 3.0]), ts(&[2.0, 3.0]), strs(&["y", "z"]), strs(&["p", "p"]), vec![false, false]);
    let (tmins, _, labels, _, _, file_id) = textgrids2vectors(&vec![a, none, b]);
    assert_eq!(file_id, vec![0, 2, 2]);
    assert_eq!(tmins, ts(&[0.0, 2.0, 3.0]));
    assert_eq!(labels, strs(&["x", "y", "z"]));
    let (_, _, _, _, _, file_id) = textgrids2vectors(&vec![]);
    assert_eq!(file_id, Vec::<u32>::new());
}

#[test]
fn textgrids2data_keeps_the_order_of_the_list() {
    let g = sample();
    let all = textgrids2data(&vec![g.clone(), TextGrid { tmin: t(1.0), tmax: t(2.0), tiers: vec![], name: "x".to_string() }]);
    assert_eq!(all.len(), 2);
    assert_eq!(all[0], g.to_data());
    assert_eq!(all[1], (t(1.0), t(2.0), vec![]));
}

#[test]
fn a_failed_reading_is_worded_with_the_file() {
    let r = textgrid2vectors("a.TextGrid", Err("no such file".to_string()));
    assert_eq!(r, Err("Failed to read TextGrid file a.TextGrid because: no such file".to_string()));
    let r = textgrid2data("b.TextGrid", Err("line 3".to_string()));
    assert_eq!(r, Err("Failed to read TextGrid file b.TextGrid because: line 3".to_string()));
}

#[test]
fn a_reading_gives_its_forms() {
    let g = sample();
    assert_eq!(textgrid2vectors("a.TextGrid", Ok(g.clone())), Ok(g.to_vectors()));
    assert_eq!(textgrid2data("a.TextGrid", Ok(g.clone())), Ok(g.to_data()));
}

#[test]
fn data2textgrid_names_the_grid_and_is_lenient() {
    let g = data2textgrid(
        vec![("w".to_string(), true, vec![(t(0.0), t(1.0), "a".to_string()), (t(2.0), t(3.0), "b".to_string())])],
        Some(t(0.0)),
        Some(t(3.0)),
    )
    .unwrap();
    assert_eq!(g.name, "TextGrid");
    assert_eq!(g.tiers.len(), 1);
    let r = data2textgrid(
        vec![("w".to_string(), true, vec![(t(0.0), t(2.0), "a".to_string()), (t(1.0), t(3.0), "b".to_string())])],
        None,
        None,
    );
    assert_eq!(
        r,
        Err("Failed to create TextGrid because: tier 0, entry 1: starts before the entry in front of it ends".to_string())
    );
}

#[test]
fn vectors2textgrid_words_its_failures() {
    let r = vectors2textgrid(ts(&[0.0]), ts(&[]), strs(&["a"]), strs(&["w"]), vec![true], None, None);
    assert_eq!(r, Err("Failed to create TextGrid because: the columns are not of one length".to_string()));
    let r = vectors2textgrid(
        ts(&[0.0, 1.0]),
        ts(&[1.0, 1.0]),
        strs(&["a", "b"]),
        strs(&["w", "w"]),
        vec![true, false],
        None,
        None,
    );
    assert_eq!(
        r,
        Err("Failed to create TextGrid because: row 0 and the next share a tier name but differ in kind".to_string())
    );
    let r = vectors2textgrid(
        ts(&[0.0]),
        ts(&[1.0]),
        strs(&["a"]),
        strs(&["w"]),
        vec![false],
        None,
        None,
    );
    assert_eq!(
        r,
        Err("Failed to create TextGrid because: tier 0, entry 0: a point has one time, not two".to_string())
    );
    let g = vectors2textgrid(ts(&[0.0]), ts(&[1.0]), strs(&["a"]), strs(&["w"]), vec![true], None, None).unwrap();
    assert_eq!(g.name, "TextGrid");
    assert_eq!(g.tmin, t(0.0));
    assert_eq!(g.tmax, t(1.0));
}

#[test]
fn neighbouring_tiers_of_one_name_merge_in_the_flat_form() {
    let g = TextGrid {
        tmin: t(0.0),
        tmax: t(3.0),
        tiers: vec![
            Tier { name: "w".to_string(), entries: Entries::Intervals(vec![interval(0.0, 1.0, "a")]) },
            Tier { name: "w".to_string(), entries: Entries::Intervals(vec![interval(1.0, 2.0, "b")]) },
            Tier { name: "gone".to_string(), entries: Entries::Points(vec![]) },
        ],
        name: "TextGrid".to_string(),
    };
    let (tmins, tmaxs, labels, tier_names, is_interval) = g.to_vectors();
    let back = TextGrid::from_vectors(
        tmins,
        tmaxs,
        labels,
        tier_names,
        is_interval,
        Some(g.tmin),
        Some(g.tmax),
        None,
        false,
    )
    .unwrap();
    assert_eq!(back.tiers.len(), 1);
    assert_eq!(
        back.tiers[0].entries,
        Entries::Intervals(vec![interval(0.0, 1.0, "a"), interval(1.0, 2.0, "b")])
    );
    let (tmin, tmax, data) = g.to_data();
    assert_eq!(TextGrid::from_data(data, None, Some(tmin), Some(tmax), false), Ok(g));
}

#[test]
fn times_that_are_no_numbers_are_passed_over_for_the_domain() {
    let g = TextGrid::from_data(
        vec![("p".to_string(), false, vec![(t(2.0), t(2.0), "a".to_string()), (t(5.0), t(5.0), "b".to_string())])],
        None,
        None,
        None,
        true,
    )
    .unwrap();
    assert_eq!((g.tmin, g.tmax), (t(2.0), t(5.0)));
    let r = TextGrid::from_data(
        vec![("w".to_string(), true, vec![(t(f64::NAN), t(1.0), "a".to_string())])],
        None,
        None,
        None,
        false,
    );
    assert_eq!(
        r,
        Err(TextGridError::Validation(ValidationError::Bounds))
    );
}

#[test]
fn error_messages_are_worded() {
    assert_eq!(TextGridError::LengthMismatch.message(), "the columns are not of one length");
    assert_eq!(
        TextGridError::MixedTierKind { row: 41 }.message(),
        "row 41 and the next share a tier name but differ in kind"
    );
    assert_eq!(
        TextGridError::PointSpan { tier: 3, entry: 1000 }.message(),
        "tier 3, entry 1000: a point has one time, not two"
    );
    assert_eq!(
        TextGridError::Validation(ValidationError::Entry { tier: 0, entry: 9, rule: Rule::NotIncreasing }).message(),
        "tier 0, entry 9: is not later than the point in front of it"
    );
    assert_eq!(
        ValidationError::Entry { tier: 1, entry: 0, rule: Rule::Start }.message(),
        "tier 1, entry 0: the first interval does not start at tmin"
    );
    assert_eq!(
        ValidationError::Entry { tier: 1, entry: 7, rule: Rule::End }.message(),
        "tier 1, entry 7: the last interval does not end at tmax"
    );
    assert_eq!(
        ValidationError::Entry { tier: 18446744073709551615, entry: 10, rule: Rule::Unordered }.message(),
        "tier 18446744073709551615, entry 10: start is not at or before end"
    );
}
