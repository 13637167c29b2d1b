//! What can go wrong when a TextGrid is built, and how it is worded.

use vstd::prelude::*;
use crate::text::{digits_of, push_count, push_text, string_of};
use crate::validate::{Rule, ValidationError};

verus! {

/// What a reader of a TextGrid file looked for and did not find.
#[derive(Debug, Clone, Copy, PartialEq, Eq, Structural)]
pub enum Expected {
    /// A fixed word or string of the declared file type.
    Key,
    /// A number.
    Number,
    /// A count: decimal digits that fit the machine word.
    Count,
    /// A quoted string.
    Text,
    /// The class of a tier: `"IntervalTier"` or `"TextTier"`.
    Class,
    /// The end of the file.
    End,
    /// The quote that closes a string.
    ClosingQuote,
}

/// Where the text stops being a TextGrid file of the declared type: the line,
/// counted from one, and what was looked for there.
#[derive(Debug, Clone, Copy, PartialEq, Eq, Structural)]
pub struct ParseError {
    pub line: usize,
    pub expected: Expected,
}

/// Why a TextGrid could not be built from the values given.
#[derive(Debug, Clone, Copy, PartialEq, Eq, Structural)]
pub enum TextGridError {
    /// The text is no TextGrid file of the declared type.
    Parse(ParseError),
    /// The file type is neither `long` nor `short`.
    UnknownFileType,
    /// The five columns are not of one length.
    LengthMismatch,
    /// Rows `row` and `row + 1` (counted from zero) carry the same tier name
    /// but one is an interval and the other a point.
    MixedTierKind { row: usize },
    /// Entry `entry` of point tier `tier` (both counted from zero) has two
    /// different bounds, so it is no point.
    PointSpan { tier: usize, entry: usize },
    /// A temporal rule is broken.
    Validation(ValidationError),
}

/// The wording of a rule.
pub open spec fn rule_text(rule: Rule) -> Seq<char> {
    match rule {
        Rule::Unordered => "start is not at or before end"@,
        Rule::Overlap => "starts before the entry in front of it ends"@,
        Rule::Start => "the first interval does not start at tmin"@,
        Rule::Gap => "does not start where the entry in front of it ends"@,
        Rule::End => "the last interval does not end at tmax"@,
        Rule::NotIncreasing => "is not later than the point in front of it"@,
    }
}

/// The wording of a place: a tier and an entry, both counted from zero.
pub open spec fn place_text(tier: usize, entry: usize) -> Seq<char> {
    "tier "@ + digits_of(tier as nat) + ", entry "@ + digits_of(entry as nat) + ": "@
}

/// The wording of a validation error.
pub open spec fn validation_text(e: ValidationError) -> Seq<char> {
    match e {
        ValidationError::Bounds => "tmin is not at or before tmax"@,
        ValidationError::Entry { tier, entry, rule } => place_text(tier, entry) + rule_text(rule),
    }
}

/// The wording of what a reader looked for.
pub open spec fn expected_text(x: Expected) -> Seq<char> {
    match x {
        Expected::Key => "a keyword of the declared file type"@,
        Expected::Number => "a number"@,
        Expected::Count => "a count"@,
        Expected::Text => "a quoted string"@,
        Expected::Class => "the class of a tier"@,
        Expected::End => "the end of the file"@,
        Expected::ClosingQuote => "the closing quote of a string"@,
    }
}

/// The wording of a parse error.
pub open spec fn parse_text(e: ParseError) -> Seq<char> {
    "line "@ + digits_of(e.line as nat) + ": expected "@ + expected_text(e.expected)
}

/// The wording of an error.
pub open spec fn error_text(e: TextGridError) -> Seq<char> {
    match e {
        TextGridError::Parse(p) => parse_text(p),
        TextGridError::UnknownFileType => "the file type is neither long nor short"@,
        TextGridError::LengthMismatch => "the columns are not of one length"@,
        TextGridError::MixedTierKind { row } => "row "@ + digits_of(row as nat)
            + " and the next share a tier name but differ in kind"@,
        TextGridError::PointSpan { tier, entry } => place_text(tier, entry)
            + "a point has one time, not two"@,
        TextGridError::Validation(v) => validation_text(v),
    }
}

fn rule_words(rule: Rule) -> (s: &'static str)
    ensures
        s@ == rule_text(rule),
{
    match rule {
        Rule::Unordered => "start is not at or before end",
        Rule::Overlap => "starts before the entry in front of it ends",
        Rule::Start => "the first interval does not start at tmin",
        Rule::Gap => "does not start where the entry in front of it ends",
        Rule::End => "the last interval does not end at tmax",
        Rule::NotIncreasing => "is not later than the point in front of it",
    }
}

fn expected_words(x: Expected) -> (s: &'static str)
    ensures
        s@ == expected_text(x),
{
    match x {
        Expected::Key => "a keyword of the declared file type",
        Expected::Number => "a number",
        Expected::Count => "a count",
        Expected::Text => "a quoted string",
        Expected::Class => "the class of a tier",
        Expected::End => "the end of the file",
        Expected::ClosingQuote => "the closing quote of a string",
    }
}


fn push_parse(out: &mut Vec<char>, e: ParseError)
    ensures
        final(out)@ == old(out)@ + parse_text(e),
{
    push_text(out, "line ");
    push_count(out, e.line);
    push_text(out, ": expected ");
    push_text(out, expected_words(e.expected));
    assert(final(out)@ =~= old(out)@ + parse_text(e));
}


fn push_place(out: &mut Vec<char>, tier: usize, entry: usize)
    ensures
        final(out)@ == old(out)@ + place_text(tier, entry),
{
    push_text(out, "tier ");
    push_count(out, tier);
    push_text(out, ", entry ");
    push_count(out, entry);
    push_text(out, ": ");
    assert(final(out)@ =~= old(out)@ + place_text(tier, entry));
}


fn push_validation(out: &mut Vec<char>, e: ValidationError)
    ensures
        final(out)@ == old(out)@ + validation_text(e),
{
    match e {
        ValidationError::Bounds => {
            push_text(out, "tmin is not at or before tmax");
        },
        ValidationError::Entry { tier, entry, rule } => {
            push_place(out, tier, entry);
            push_text(out, rule_words(rule));
            assert(final(out)@ =~= old(out)@ + validation_text(e));
        },
    }
}

impl ValidationError {
    /// The error in words.
    pub fn message(&self) -> (s: String)
        ensures
            s@ == validation_text(*self),
    {
        let mut out: Vec<char> = Vec::new();
        push_validation(&mut out, *self);
        assert(out@ =~= validation_text(*self));
        string_of(&out)
    }
}

impl ParseError {
    /// The error in words.
    pub fn message(&self) -> (s: String)
        ensures
            s@ == parse_text(*self),
    {
        let mut out: Vec<char> = Vec::new();
        push_parse(&mut out, *self);
        assert(out@ =~= parse_text(*self));
        string_of(&out)
    }
}

impl TextGridError {
    /// The error in words.
    pub fn message(&self) -> (s: String)
        ensures
            s@ == error_text(*self),
    {
        let mut out: Vec<char> = Vec::new();
        match *self {
            TextGridError::Parse(p) => {
                push_parse(&mut out, p);
            },
            TextGridError::UnknownFileType => {
                push_text(&mut out, "the file type is neither long nor short");
            },
            TextGridError::LengthMismatch => {
                push_text(&mut out, "the columns are not of one length");
            },
            TextGridError::MixedTierKind { row } => {
                push_text(&mut out, "row ");
                push_count(&mut out, row);
                push_text(&mut out, " and the next share a tier name but differ in kind");
            },
            TextGridError::PointSpan { tier, entry } => {
                push_place(&mut out, tier, entry);
                push_text(&mut out, "a point has one time, not two");
            },
            TextGridError::Validation(v) => {
                push_validation(&mut out, v);
            },
        }
        assert(out@ =~= error_text(*self));
        string_of(&out)
    }
}

} // verus!
