use pytextgrid::model::{Entries, Interval, Point, TextGrid, Tier};
use pytextgrid::validate::{Rule, ValidationError};

fn t(x: f64) -> u64 {
    x.to_bits()
}

fn interval(start: f64, end: f64, label: &str) -> Interval {
    Interval { start: t(start), end: t(end), label: label.to_string() }
}

fn point(time: f64, label: &str) -> Point {
    Point { time: t(time), label: label.to_string() }
}

fn grid(tmin: f64, tmax: f64, tiers: Vec<Tier>) -> TextGrid {
    TextGrid { tmin: t(tmin), tmax: t(tmax), tiers, name: "TextGrid".to_string() }
}

fn intervals(name: &str, v: Vec<Interval>) -> Tier {
    Tier { name: name.to_string(), entries: Entries::Intervals(v) }
}

fn points(name: &str, v: Vec<Point>) -> Tier {
    Tier { name: name.to_string(), entries: Entries::Points(v) }
}

fn entry(tier: usize, entry: usize, rule: Rule) -> Result<(), ValidationError> {
    Err(ValidationError::Entry { tier, entry, rule })
}

#[test]
fn strict_rejects_gaps() {
    let g = grid(0.0, 3.0, vec![intervals("w", vec![interval(0.0, 1.0, "a"), interval(2.0, 3.0, "b")])]);
    assert_eq!(g.validate(true), entry(0, 1, Rule::Gap));
    assert_eq!(g.validate(false), Ok(()));
}

#[test]
fn overlap_always_rejected() {
    let g = grid(0.0, 3.0, vec![intervals("w", vec![interval(0.0, 2.0, "a"), interval(1.0, 3.0, "b")])]);
    assert_eq!(g.validate(true), entry(0, 1, Rule::Overlap));
    assert_eq!(g.validate(false), entry(0, 1, Rule::Overlap));
}

#[test]
fn full_coverage_is_strictly_valid() {
    let g = grid(
        0.0,
        3.0,
        vec![
            intervals("w", vec![interval(0.0, 1.0, "a"), interval(1.0, 3.0, "b")]),
            points("p", vec![point(0.5, "x"), point(2.5, "y")]),
            intervals("empty", vec![]),
        ],
    );
    assert_eq!(g.validate(true), Ok(()));
    assert_eq!(g.validate(false), Ok(()));
}

#[test]
fn domain_must_be_ordered() {
    let g = grid(3.0, 0.0, vec![]);
    assert_eq!(g.validate(false), Err(ValidationError::Bounds));
    assert_eq!(g.validate(true), Err(ValidationError::Bounds));
    let g = grid(f64::NAN, 1.0, vec![]);
    assert_eq!(g.validate(false), Err(ValidationError::Bounds));
    let g = grid(2.0, 2.0, vec![]);
    assert_eq!(g.validate(true), Ok(()));
}

#[test]
fn entry_bounds_must_be_ordered() {
    let g = grid(0.0, 3.0, vec![intervals("w", vec![interval(2.0, 1.0, "a")])]);
    assert_eq!(g.validate(false), entry(0, 0, Rule::Unordered));
    let g = grid(0.0, 3.0, vec![intervals("w", vec![interval(0.0, f64::NAN, "a")])]);
    assert_eq!(g.validate(false), entry(0, 0, Rule::Unordered));
    let g = grid(0.0, 3.0, vec![points("p", vec![point(f64::NAN, "a")])]);
    assert_eq!(g.validate(false), entry(0, 0, Rule::Unordered));
}

#[test]
fn points_must_increase() {
    let g = grid(0.0, 3.0, vec![points("p", vec![point(1.0, "a"), point(1.0, "b")])]);
    assert_eq!(g.validate(false), entry(0, 1, Rule::NotIncreasing));
    let g = grid(0.0, 3.0, vec![points("p", vec![point(2.0, "a"), point(1.0, "b")])]);
    assert_eq!(g.validate(true), entry(0, 1, Rule::NotIncreasing));
    let g = grid(0.0, 3.0, vec![points("p", vec![point(1.0, "a"), point(2.0, "b")])]);
    assert_eq!(g.validate(true), Ok(()));
}

#[test]
fn strict_checks_both_ends() {
    let g = grid(0.0, 3.0, vec![intervals("w", vec![interval(0.5, 3.0, "a")])]);
    assert_eq!(g.validate(true), entry(0, 0, Rule::Start));
    assert_eq!(g.validate(false), Ok(()));
    let g = grid(0.0, 3.0, vec![intervals("w", vec![interval(0.0, 2.5, "a")])]);
    assert_eq!(g.validate(true), entry(0, 0, Rule::End));
    assert_eq!(g.validate(false), Ok(()));
}

#[test]
fn first_fault_in_stored_order_is_reported() {
    let g = grid(
        0.0,
        3.0,
        vec![
            points("p", vec![point(1.0, "a")]),
            intervals("w", vec![interval(0.0, 1.0, "a"), interval(1.0, 2.0, "b"), interval(1.5, 3.0, "c")]),
            intervals("v", vec![interval(2.0, 1.0, "a")]),
        ],
    );
    assert_eq!(g.validate(false), entry(1, 2, Rule::Overlap));
    assert_eq!(g.validate(true), entry(1, 2, Rule::Overlap));
}

#[test]
fn validation_message_names_tier_entry_and_rule() {
    let e = ValidationError::Entry { tier: 12, entry: 305, rule: Rule::Gap };
    assert_eq!(e.message(), "tier 12, entry 305: does not start where the entry in front of it ends");
    assert_eq!(ValidationError::Bounds.message(), "tmin is not at or before tmax");
    let e = ValidationError::Entry { tier: 0, entry: 0, rule: Rule::Overlap };
    assert_eq!(e.message(), "tier 0, entry 0: starts before the entry in front of it ends");
}
