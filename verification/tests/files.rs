use pytextgrid::error::{Expected, ParseError, TextGridError};
use pytextgrid::lexer::{lex_text, Token};
use pytextgrid::model::{Entries, Interval, Point, TextGrid, Tier};
use pytextgrid::reader::parse;
use pytextgrid::validate::{Rule, ValidationError};

fn t(x: f64) -> u64 {
    x.to_bits()
}

fn numbers(tokens: &Vec<Token>) -> Vec<Option<u64>> {
    tokens
        .iter()
        .map(|tok| if tok.quoted { None } else { tok.text.parse::<f64>().ok().map(|x| x.to_bits()) })
        .collect()
}

fn read(text: &str, strict: bool, file_type: &str) -> Result<TextGrid, TextGridError> {
    let tokens = match lex_text(text) {
        Ok(tokens) => tokens,
        Err(e) => return Err(TextGridError::Parse(e)),
    };
    let values = numbers(&tokens);
    parse(&tokens, &values, strict, file_type)
}

fn write(g: &TextGrid, long: bool) -> String {
    let numerals: Vec<String> = g.times().iter().map(|b| format!("{}", f64::from_bits(*b))).collect();
    g.serialize(long, &numerals).unwrap()
}

fn interval(start: f64, end: f64, label: &str) -> Interval {
    Interval { start: t(start), end: t(end), label: label.to_string() }
}

fn point(time: f64, label: &str) -> Point {
    Point { time: t(time), label: label.to_string() }
}

fn sample() -> TextGrid {
    TextGrid {
        tmin: t(0.0),
        tmax: t(3.0),
        tiers: vec![
            Tier {
                name: "words".to_string(),
                entries: Entries::Intervals(vec![interval(0.0, 1.0, "a"), interval(1.0, 3.0, "")]),
            },
            Tier { name: "marks".to_string(), entries: Entries::Points(vec![point(1.5, "x")]) },
        ],
        name: "TextGrid".to_string(),
    }
}

fn parse_error(line: usize, expected: Expected) -> TextGridError {
    TextGridError::Parse(ParseError { line, expected })
}

const LONG: &str = "File type = \"ooTextFile\"
Object class = \"TextGrid\"

xmin = 0
xmax = 3
tiers? <exists>
size = 2
item []:
    item [1]:
        class = \"IntervalTier\"
        name = \"words\"
        xmin = 0
        xmax = 3
        intervals: size = 2
        intervals [1]:
            xmin = 0
            xmax = 1
            text = \"a\"
        intervals [2]:
            xmin = 1
            xmax = 3
            text = \"\"
    item [2]:
        class = \"TextTier\"
        name = \"marks\"
        xmin = 0
        xmax = 3
        points: size = 1
        points [1]:
            number = 1.5
            mark = \"x\"
";

const SHORT: &str = "File type = \"ooTextFile\"
Object class = \"TextGrid\"

0
3
<exists>
2
\"IntervalTier\"
\"words\"
0
3
2
0
1
\"a\"
1
3
\"\"
\"TextTier\"
\"marks\"
0
3
1
1.5
\"x\"
";

#[test]
fn the_long_form_is_written_as_praat_writes_it() {
    assert_eq!(write(&sample(), true), LONG);
}

#[test]
fn the_short_form_is_written_one_value_per_line() {
    assert_eq!(write(&sample(), false), SHORT);
}

#[test]
fn the_long_form_is_read() {
    assert_eq!(read(LONG, true, "long"), Ok(sample()));
}

#[test]
fn the_short_form_is_read() {
    assert_eq!(read(SHORT, true, "short"), Ok(sample()));
}

#[test]
fn blanks_between_tokens_carry_no_meaning() {
    let text = LONG.replace("\n", " \r\n").replace(" = ", "   =\t");
    assert_eq!(read(&text, true, "long"), Ok(sample()));
}

#[test]
fn a_file_of_the_other_type_is_rejected() {
    assert_eq!(read(LONG, true, "short"), Err(parse_error(4, Expected::Number)));
    assert_eq!(read(SHORT, true, "long"), Err(parse_error(4, Expected::Key)));
}

#[test]
fn an_unknown_file_type_is_rejected() {
    assert_eq!(read(LONG, true, "binary"), Err(TextGridError::UnknownFileType));
    assert_eq!(read(LONG, true, ""), Err(TextGridError::UnknownFileType));
    assert_eq!(read(LONG, true, "Long"), Err(TextGridError::UnknownFileType));
}

#[test]
fn a_malformed_number_is_reported_with_its_line() {
    let text = LONG.replace("xmax = 1\n", "xmax = 1,0\n");
    assert_eq!(read(&text, false, "long"), Err(parse_error(17, Expected::Number)));
    let text = SHORT.replace("1.5", "one");
    assert_eq!(read(&text, false, "short"), Err(parse_error(24, Expected::Number)));
}

#[test]
fn a_malformed_count_is_reported() {
    let text = LONG.replace("size = 2\nitem", "size = 2.0\nitem");
    assert_eq!(read(&text, false, "long"), Err(parse_error(7, Expected::Count)));
    let text = LONG.replace("points: size = 1", "points: size = -1");
    assert_eq!(read(&text, false, "long"), Err(parse_error(28, Expected::Count)));
}

#[test]
fn a_wrong_class_is_reported() {
    let text = LONG.replace("\"TextTier\"", "\"PointTier\"");
    assert_eq!(read(&text, false, "long"), Err(parse_error(24, Expected::Class)));
}

#[test]
fn a_missing_label_is_reported() {
    let text = LONG.replace("text = \"a\"", "text = a");
    assert_eq!(read(&text, false, "long"), Err(parse_error(18, Expected::Text)));
}

#[test]
fn a_file_that_stops_early_is_reported() {
    let text = "File type = \"ooTextFile\"\nObject class = \"TextGrid\"\n\nxmin = 0\nxmax =";
    assert_eq!(read(text, false, "long"), Err(parse_error(5, Expected::Number)));
    assert_eq!(read("", false, "long"), Err(parse_error(1, Expected::Key)));
    let text = LONG.replace("size = 2\nitem", "size = 3\nitem");
    assert_eq!(read(&text, false, "long"), Err(parse_error(31, Expected::Key)));
}

#[test]
fn what_follows_the_last_tier_is_reported() {
    let text = format!("{}item [3]:\n", LONG);
    assert_eq!(read(&text, false, "long"), Err(parse_error(32, Expected::End)));
}

#[test]
fn a_string_that_never_ends_is_reported() {
    let cut = LONG.find("text = \"a\"").unwrap() + "text = \"a".len();
    assert_eq!(read(&LONG[..cut], false, "long"), Err(parse_error(18, Expected::ClosingQuote)));
    let text = LONG.replace("text = \"a\"", "text = \"a");
    assert_eq!(read(&text, false, "long"), Err(parse_error(31, Expected::ClosingQuote)));
    assert_eq!(lex_text("a \"b"), Err(ParseError { line: 1, expected: Expected::ClosingQuote }));
}

#[test]
fn a_wrong_header_is_reported() {
    let text = LONG.replace("ooTextFile", "ooBinaryFile");
    assert_eq!(read(&text, false, "long"), Err(parse_error(1, Expected::Key)));
    let text = LONG.replace("\"TextGrid\"", "\"Sound\"");
    assert_eq!(read(&text, false, "long"), Err(parse_error(2, Expected::Key)));
}

#[test]
fn reading_validates() {
    let text = LONG.replace("xmin = 1\n", "xmin = 1.5\n");
    assert_eq!(
        read(&text, true, "long"),
        Err(TextGridError::Validation(ValidationError::Entry { tier: 0, entry: 1, rule: Rule::Gap }))
    );
    assert!(read(&text, false, "long").is_ok());
    let text = LONG.replace("xmin = 1\n", "xmin = 0.5\n");
    assert_eq!(
        read(&text, false, "long"),
        Err(TextGridError::Validation(ValidationError::Entry { tier: 0, entry: 1, rule: Rule::Overlap }))
    );
}

#[test]
fn tokens_carry_their_lines() {
    let tokens = lex_text("a  \"b \"\"c\"\" \n d\"\n\n e\t\"\"").unwrap();
    assert_eq!(
        tokens,
        vec![
            Token { text: "a".to_string(), quoted: false, line: 1 },
            Token { text: "b \"c\" \n d".to_string(), quoted: true, line: 1 },
            Token { text: "e".to_string(), quoted: false, line: 4 },
            Token { text: "".to_string(), quoted: true, line: 4 },
        ]
    );
    assert_eq!(lex_text("").unwrap(), vec![]);
    assert_eq!(lex_text(" \n\t").unwrap(), vec![]);
}

#[test]
fn empty_label_preserved() {
    let g = TextGrid {
        tmin: t(0.0),
        tmax: t(1.0),
        tiers: vec![Tier { name: "w".to_string(), entries: Entries::Intervals(vec![interval(0.0, 1.0, "")]) }],
        name: "TextGrid".to_string(),
    };
    for long in [true, false] {
        let text = write(&g, long);
        assert!(text.contains("\"\""));
        let back = read(&text, true, if long { "long" } else { "short" }).unwrap();
        assert_eq!(back.tiers[0].entries, Entries::Intervals(vec![interval(0.0, 1.0, "")]));
        assert_eq!(back, g);
    }
}

#[test]
fn round_trip_identity() {
    let g = TextGrid {
        tmin: t(-0.5),
        tmax: t(1234.000000000001),
        tiers: vec![
            Tier {
                name: "say \"hi\"".to_string(),
                entries: Entries::Intervals(vec![
                    interval(-0.5, 0.1 + 0.2, "two\nlines"),
                    interval(0.1 + 0.2, 1e-7 + 1.0, "\"\""),
                    interval(1e-7 + 1.0, 1234.000000000001, " caf\u{e9} \u{4e2d}\u{6587} "),
                ]),
            },
            Tier { name: "".to_string(), entries: Entries::Points(vec![]) },
            Tier {
                name: "p p".to_string(),
                entries: Entries::Points(vec![point(5e-324, "\""), point(2.5, "xmin = 3"), point(1e22, "")]),
            },
            Tier { name: "none".to_string(), entries: Entries::Intervals(vec![]) },
        ],
        name: "TextGrid".to_string(),
    };
    assert_eq!(g.validate(false), Ok(()));
    for long in [true, false] {
        let text = write(&g, long);
        assert_eq!(read(&text, false, if long { "long" } else { "short" }), Ok(g.clone()));
    }
}

#[test]
fn the_name_is_not_written() {
    let mut g = sample();
    g.name = "other".to_string();
    assert_eq!(write(&g, true), LONG);
    assert_eq!(read(&write(&g, true), true, "long").unwrap().name, "TextGrid");
}

#[test]
fn times_come_in_the_order_of_the_file() {
    let times: Vec<f64> = sample().times().iter().map(|b| f64::from_bits(*b)).collect();
    assert_eq!(times, vec![0.0, 3.0, 0.0, 3.0, 0.0, 1.0, 1.0, 3.0, 0.0, 3.0, 1.5]);
}

#[test]
fn numerals_must_be_as_many_as_the_times() {
    let g = sample();
    assert_eq!(g.serialize(true, &vec![]), Err(TextGridError::LengthMismatch));
    let mut numerals: Vec<String> = g.times().iter().map(|b| format!("{}", f64::from_bits(*b))).collect();
    numerals.push("0".to_string());
    assert_eq!(g.serialize(false, &numerals), Err(TextGridError::LengthMismatch));
}

#[test]
fn numbers_beyond_the_list_count_as_none() {
    let tokens = lex_text(SHORT).unwrap();
    let mut values = numbers(&tokens);
    values.truncate(10);
    assert_eq!(parse(&tokens, &values, false, "short"), Err(parse_error(10, Expected::Number)));
}

#[test]
fn parse_errors_are_worded() {
    let e = ParseError { line: 17, expected: Expected::Number };
    assert_eq!(e.message(), "line 17: expected a number");
    assert_eq!(TextGridError::Parse(e).message(), "line 17: expected a number");
    assert_eq!(TextGridError::UnknownFileType.message(), "the file type is neither long nor short");
    let e = ParseError { line: 1, expected: Expected::ClosingQuote };
    assert_eq!(e.message(), "line 1: expected the closing quote of a string");
}
