//! Reading a TextGrid from the tokens of a file.
//!
//! The two file types hold the same values in the same order. The long type
//! writes a key in front of each value (`xmin = 0`), the short type writes the
//! bare value. One reader serves both: it is told whether keys are there, and
//! a file of the other type fails at its first value.
//!
//! A number in a file is a decimal numeral. What double it denotes is for the
//! caller to say: with the tokens comes a list that gives, for each token, the
//! bits of the double that the token writes, if it writes one.

use vstd::prelude::*;
use crate::data::{data_rows, data_tier, data_tiers, grid_from_data, EntryData, TierData};
use crate::error::{Expected, ParseError, TextGridError};
use crate::lexer::Token;
use crate::model::{GridView, Row, TextGrid, TierView};
use crate::text::{
    chars_of,
    count_of,
    digits_of,
    push_count,
    push_text,
    read_count,
    same_chars,
    same_text,
};

verus! {

/// A token with the number that it writes, if any.
pub struct Item {
    pub text: Seq<char>,
    pub quoted: bool,
    pub line: usize,
    pub value: Option<u64>,
}

/// Where a reading stands: the items still to be read, or the error that stopped it.
pub type State = Result<Seq<Item>, ParseError>;

/// The tokens with their numbers. A token beyond the list of numbers writes none.
pub open spec fn items(tokens: Seq<Token>, values: Seq<Option<u64>>) -> Seq<Item> {
    Seq::new(
        tokens.len(),
        |i: int|
            Item {
                text: tokens[i].text@,
                quoted: tokens[i].quoted,
                line: tokens[i].line,
                value: if i < values.len() {
                    values[i]
                } else {
                    None
                },
            },
    )
}

/// The line that an error at the end of the tokens names: that of the last token.
pub open spec fn end_line(tokens: Seq<Token>) -> usize {
    if tokens.len() > 0 {
        tokens.last().line
    } else {
        1
    }
}

/// The reading stopped at the head of `rest`, where `expected` was looked for.
pub open spec fn fail(rest: Seq<Item>, end: usize, expected: Expected) -> State {
    Err(
        ParseError {
            line: if rest.len() > 0 {
                rest[0].line
            } else {
                end
            },
            expected,
        },
    )
}

/// Reads the word `text`.
pub open spec fn word(r: State, text: Seq<char>, end: usize) -> State {
    match r {
        Err(e) => Err(e),
        Ok(rest) => if rest.len() > 0 && !rest[0].quoted && rest[0].text == text {
            Ok(rest.drop_first())
        } else {
            fail(rest, end, Expected::Key)
        },
    }
}

/// Reads the quoted string `text`.
pub open spec fn string(r: State, text: Seq<char>, end: usize) -> State {
    match r {
        Err(e) => Err(e),
        Ok(rest) => if rest.len() > 0 && rest[0].quoted && rest[0].text == text {
            Ok(rest.drop_first())
        } else {
            fail(rest, end, Expected::Key)
        },
    }
}

/// Reads the word `text` where the file type writes keys.
pub open spec fn key(r: State, long: bool, text: Seq<char>, end: usize) -> State {
    if long {
        word(r, text, end)
    } else {
        r
    }
}

/// Whether a number comes next.
pub open spec fn number_next(r: State) -> bool {
    r is Ok && r->Ok_0.len() > 0 && !r->Ok_0[0].quoted && r->Ok_0[0].value is Some
}

/// The number that comes next, zero where none does.
pub open spec fn number_value(r: State) -> u64 {
    if number_next(r) {
        r->Ok_0[0].value->0
    } else {
        0
    }
}

/// Reads a number.
pub open spec fn number(r: State, end: usize) -> State {
    match r {
        Err(e) => Err(e),
        Ok(rest) => if number_next(r) {
            Ok(rest.drop_first())
        } else {
            fail(rest, end, Expected::Number)
        },
    }
}

/// Whether a count comes next.
pub open spec fn count_next(r: State) -> bool {
    r is Ok && r->Ok_0.len() > 0 && !r->Ok_0[0].quoted && count_of(r->Ok_0[0].text) is Some
}

/// The count that comes next, zero where none does.
pub open spec fn count_value(r: State) -> usize {
    if count_next(r) {
        count_of(r->Ok_0[0].text)->0
    } else {
        0
    }
}

/// Reads a count.
pub open spec fn count(r: State, end: usize) -> State {
    match r {
        Err(e) => Err(e),
        Ok(rest) => if count_next(r) {
            Ok(rest.drop_first())
        } else {
            fail(rest, end, Expected::Count)
        },
    }
}

/// Whether a quoted string comes next.
pub open spec fn quoted_next(r: State) -> bool {
    r is Ok && r->Ok_0.len() > 0 && r->Ok_0[0].quoted
}

/// The quoted string that comes next, the empty one where none does.
pub open spec fn quoted_value(r: State) -> Seq<char> {
    if quoted_next(r) {
        r->Ok_0[0].text
    } else {
        Seq::empty()
    }
}

/// Reads a quoted string.
pub open spec fn quoted(r: State, end: usize) -> State {
    match r {
        Err(e) => Err(e),
        Ok(rest) => if quoted_next(r) {
            Ok(rest.drop_first())
        } else {
            fail(rest, end, Expected::Text)
        },
    }
}

/// Whether the class of an interval tier comes next.
pub open spec fn class_value(r: State) -> bool {
    quoted_next(r) && r->Ok_0[0].text == "IntervalTier"@
}

/// Reads the class of a tier.
pub open spec fn class(r: State, end: usize) -> State {
    match r {
        Err(e) => Err(e),
        Ok(rest) => if quoted_next(r) && (rest[0].text == "IntervalTier"@ || rest[0].text
            == "TextTier"@) {
            Ok(rest.drop_first())
        } else {
            fail(rest, end, Expected::Class)
        },
    }
}

/// Reads the end of the file.
pub open spec fn finish(r: State, end: usize) -> State {
    match r {
        Err(e) => Err(e),
        Ok(rest) => if rest.len() == 0 {
            Ok(rest)
        } else {
            fail(rest, end, Expected::End)
        },
    }
}

/// The word that numbers an item: `[3]:` for the third.
pub open spec fn index_word(j: nat) -> Seq<char> {
    seq!['['] + digits_of(j) + "]:"@
}

/// Reads entry `j` (counted from zero) of a tier: gives the entry and where
/// the reading stands after it. The entry counts only where the reading did
/// not stop.
pub open spec fn entry(r: State, long: bool, is_interval: bool, j: nat, end: usize) -> (Row, State) {
    if is_interval {
        let a = key(
            key(key(key(r, long, "intervals"@, end), long, index_word(j + 1), end), long, "xmin"@, end),
            long,
            "="@,
            end,
        );
        let b = number(a, end);
        let c = key(key(b, long, "xmax"@, end), long, "="@, end);
        let d = number(c, end);
        let e = key(key(d, long, "text"@, end), long, "="@, end);
        (
            Row { tmin: number_value(a), tmax: number_value(c), label: quoted_value(e) },
            quoted(e, end),
        )
    } else {
        let a = key(
            key(key(key(r, long, "points"@, end), long, index_word(j + 1), end), long, "number"@, end),
            long,
            "="@,
            end,
        );
        let b = number(a, end);
        let c = key(key(b, long, "mark"@, end), long, "="@, end);
        (
            Row { tmin: number_value(a), tmax: number_value(a), label: quoted_value(c) },
            quoted(c, end),
        )
    }
}

/// Reads the entries from `j` up to `count` behind those already read.
pub open spec fn entries(
    r: State,
    long: bool,
    is_interval: bool,
    j: nat,
    count: nat,
    acc: Seq<Row>,
    end: usize,
) -> (Seq<Row>, State)
    decreases count - j,
{
    if j >= count || r is Err {
        (acc, r)
    } else {
        let (row, next) = entry(r, long, is_interval, j, end);
        entries(next, long, is_interval, j + 1, count, acc.push(row), end)
    }
}

/// Where the reading stands in front of the entries of tier `t`, its header read.
pub open spec fn tier_size(r: State, long: bool, t: nat, end: usize) -> State {
    let a = tier_class(r, long, t, end);
    let c = key(key(class(a, end), long, "name"@, end), long, "="@, end);
    let d = quoted(c, end);
    let e = number(key(key(d, long, "xmin"@, end), long, "="@, end), end);
    let f = number(key(key(e, long, "xmax"@, end), long, "="@, end), end);
    key(
        key(
            key(
                f,
                long,
                if class_value(a) {
                    "intervals:"@
                } else {
                    "points:"@
                },
                end,
            ),
            long,
            "size"@,
            end,
        ),
        long,
        "="@,
        end,
    )
}

/// Where the reading stands in front of the class of tier `t`.
pub open spec fn tier_class(r: State, long: bool, t: nat, end: usize) -> State {
    key(
        key(key(key(r, long, "item"@, end), long, index_word(t + 1), end), long, "class"@, end),
        long,
        "="@,
        end,
    )
}

/// Where the reading stands in front of the name of tier `t`.
pub open spec fn tier_name(r: State, long: bool, t: nat, end: usize) -> State {
    key(key(class(tier_class(r, long, t, end), end), long, "name"@, end), long, "="@, end)
}

/// Reads tier `t` (counted from zero): gives the tier and where the reading
/// stands after it. A tier's own time domain is read and not kept.
pub open spec fn tier(r: State, long: bool, t: nat, end: usize) -> (TierView, State) {
    let is_interval = class_value(tier_class(r, long, t, end));
    let g = tier_size(r, long, t, end);
    let (rows, z) = entries(
        count(g, end),
        long,
        is_interval,
        0,
        count_value(g) as nat,
        Seq::empty(),
        end,
    );
    (TierView { name: quoted_value(tier_name(r, long, t, end)), is_interval, rows }, z)
}

/// Reads the tiers from `t` up to `count` behind those already read.
pub open spec fn tiers(r: State, long: bool, t: nat, count: nat, acc: Seq<TierView>, end: usize) -> (
    Seq<TierView>,
    State,
)
    decreases count - t,
{
    if t >= count || r is Err {
        (acc, r)
    } else {
        let (one, next) = tier(r, long, t, end);
        tiers(next, long, t + 1, count, acc.push(one), end)
    }
}

/// Where the reading stands in front of the start of the time domain.
pub open spec fn grid_tmin(r: State, long: bool, end: usize) -> State {
    let a = string(word(word(word(r, "File"@, end), "type"@, end), "="@, end), "ooTextFile"@, end);
    let b = string(word(word(word(a, "Object"@, end), "class"@, end), "="@, end), "TextGrid"@, end);
    key(key(b, long, "xmin"@, end), long, "="@, end)
}

/// Where the reading stands in front of the end of the time domain.
pub open spec fn grid_tmax(r: State, long: bool, end: usize) -> State {
    key(key(number(grid_tmin(r, long, end), end), long, "xmax"@, end), long, "="@, end)
}

/// Where the reading stands in front of the number of tiers.
pub open spec fn grid_size(r: State, long: bool, end: usize) -> State {
    let g = word(key(number(grid_tmax(r, long, end), end), long, "tiers?"@, end), "<exists>"@, end);
    key(key(g, long, "size"@, end), long, "="@, end)
}

/// What a file holds: its time domain and its tiers, and where the reading
/// stands at its end. The values count only where the reading did not stop.
pub struct Reading {
    pub tmin: u64,
    pub tmax: u64,
    pub tiers: Seq<TierView>,
    pub state: State,
}

/// Reads a whole file.
pub open spec fn document(r: State, long: bool, end: usize) -> Reading {
    let h = grid_size(r, long, end);
    let j = key(key(count(h, end), long, "item"@, end), long, "[]:"@, end);
    let (all, z) = tiers(j, long, 0, count_value(h) as nat, Seq::empty(), end);
    Reading {
        tmin: number_value(grid_tmin(r, long, end)),
        tmax: number_value(grid_tmax(r, long, end)),
        tiers: all,
        state: finish(z, end),
    }
}

/// The file type that a name stands for: whether it is the long one.
pub open spec fn file_kind(file_type: Seq<char>) -> Option<bool> {
    if file_type == "long"@ {
        Some(true)
    } else if file_type == "short"@ {
        Some(false)
    } else {
        None
    }
}

/// The TextGrid that the items write as a file of the given type, validated
/// under `strict`.
pub open spec fn parse_items(its: Seq<Item>, end: usize, strict: bool, file_type: Seq<char>) -> Result<
    GridView,
    TextGridError,
> {
    match file_kind(file_type) {
        None => Err(TextGridError::UnknownFileType),
        Some(long) => {
            let d = document(Ok(its), long, end);
            match d.state {
                Err(e) => Err(TextGridError::Parse(e)),
                Ok(_) => grid_from_data(d.tiers, None, Some(d.tmin), Some(d.tmax), strict),
            }
        },
    }
}

struct Reader<'a> {
    tokens: &'a Vec<Token>,
    values: &'a Vec<Option<u64>>,
    pos: usize,
    failed: Option<ParseError>,
    end: usize,
}

impl<'a> Reader<'a> {
    spec fn wf(&self) -> bool {
        self.pos <= self.tokens@.len() && self.end == end_line(self.tokens@)
    }

    spec fn state(&self) -> State {
        match self.failed {
            Some(e) => Err(e),
            None => Ok(items(self.tokens@, self.values@).skip(self.pos as int)),
        }
    }

    spec fn follows(&self, before: &Self) -> bool {
        &&& self.wf()
        &&& self.tokens == before.tokens
        &&& self.values == before.values
        &&& self.end == before.end
    }


    fn stop(&mut self, expected: Expected)
        requires
            old(self).wf(),
            old(self).failed is None,
        ensures
            final(self).follows(old(self)),
            final(self).state() == fail(old(self).state()->Ok_0, old(self).end, expected),
    {
        let line: usize = if self.pos < self.tokens.len() {
            self.tokens[self.pos].line
        } else {
            self.end
        };
        self.failed = Some(ParseError { line, expected });
    }


    fn advance(&mut self)
        requires
            old(self).wf(),
            old(self).failed is None,
            old(self).pos < old(self).tokens@.len(),
        ensures
            final(self).follows(old(self)),
            final(self).state() == Ok::<Seq<Item>, ParseError>(old(self).state()->Ok_0.drop_first()),
    {
        proof {
            let all = items(self.tokens@, self.values@);
            assert(all.skip(self.pos as int).drop_first() =~= all.skip(self.pos + 1));
        }
        let n: usize = self.tokens.len();
        assert(self.pos < n);
        self.pos = self.pos + 1;
    }


    fn word(&mut self, text: &str)
        requires
            old(self).wf(),
        ensures
            final(self).follows(old(self)),
            final(self).state() == word(old(self).state(), text@, old(self).end),
    {
        if self.failed.is_some() {
            return ;
        }
        if self.pos < self.tokens.len() && !self.tokens[self.pos].quoted && same_text(
            self.tokens[self.pos].text.as_str(),
            text,
        ) {
            self.advance();
        } else {
            self.stop(Expected::Key);
        }
    }


    fn string(&mut self, text: &str)
        requires
            old(self).wf(),
        ensures
            final(self).follows(old(self)),
            final(self).state() == string(old(self).state(), text@, old(self).end),
    {
        if self.failed.is_some() {
            return ;
        }
        if self.pos < self.tokens.len() && self.tokens[self.pos].quoted && same_text(
            self.tokens[self.pos].text.as_str(),
            text,
        ) {
            self.advance();
        } else {
            self.stop(Expected::Key);
        }
    }


    fn key(&mut self, long: bool, text: &str)
        requires
            old(self).wf(),
        ensures
            final(self).follows(old(self)),
            final(self).state() == key(old(self).state(), long, text@, old(self).end),
    {
        if long {
            self.word(text);
        }
    }


    fn index(&mut self, long: bool, j: usize)
        requires
            old(self).wf(),
        ensures
            final(self).follows(old(self)),
            final(self).state() == key(old(self).state(), long, index_word(j as nat), old(self).end),
    {
        if !long || self.failed.is_some() {
            return ;
        }
        let mut expected: Vec<char> = Vec::new();
        expected.push('[');
        push_count(&mut expected, j);
        push_text(&mut expected, "]:");
        assert(expected@ =~= index_word(j as nat));
        if self.pos < self.tokens.len() && !self.tokens[self.pos].quoted {
            let found = chars_of(self.tokens[self.pos].text.as_str());
            if same_chars(&found, &expected) {
                self.advance();
                return ;
            }
        }
        self.stop(Expected::Key);
    }


    fn number(&mut self) -> (v: u64)
        requires
            old(self).wf(),
        ensures
            final(self).follows(old(self)),
            final(self).state() == number(old(self).state(), old(self).end),
            v == number_value(old(self).state()),
    {
        if self.failed.is_some() {
            return 0;
        }
        if self.pos < self.tokens.len() && !self.tokens[self.pos].quoted && self.pos
            < self.values.len() {
            match self.values[self.pos] {
                Some(v) => {
                    self.advance();
                    return v;
                },
                None => {},
            }
        }
        self.stop(Expected::Number);
        0
    }


    fn count(&mut self) -> (n: usize)
        requires
            old(self).wf(),
        ensures
            final(self).follows(old(self)),
            final(self).state() == count(old(self).state(), old(self).end),
            n == count_value(old(self).state()),
    {
        if self.failed.is_some() {
            return 0;
        }
        if self.pos < self.tokens.len() && !self.tokens[self.pos].quoted {
            let digits = chars_of(self.tokens[self.pos].text.as_str());
            match read_count(&digits) {
                Some(n) => {
                    self.advance();
                    return n;
                },
                None => {},
            }
        }
        self.stop(Expected::Count);
        0
    }


    fn quoted(&mut self) -> (s: String)
        requires
            old(self).wf(),
        ensures
            final(self).follows(old(self)),
            final(self).state() == quoted(old(self).state(), old(self).end),
            s@ == quoted_value(old(self).state()),
    {
        if self.failed.is_none() && self.pos < self.tokens.len() && self.tokens[self.pos].quoted {
            let s = self.tokens[self.pos].text.clone();
            self.advance();
            return s;
        }
        if self.failed.is_none() {
            self.stop(Expected::Text);
        }
        String::new()
    }


    fn class(&mut self) -> (is_interval: bool)
        requires
            old(self).wf(),
        ensures
            final(self).follows(old(self)),
            final(self).state() == class(old(self).state(), old(self).end),
            is_interval == class_value(old(self).state()),
    {
        if self.failed.is_some() {
            return false;
        }
        if self.pos < self.tokens.len() && self.tokens[self.pos].quoted {
            let text = self.tokens[self.pos].text.as_str();
            if same_text(text, "IntervalTier") {
                self.advance();
                return true;
            }
            if same_text(text, "TextTier") {
                self.advance();
                return false;
            }
        }
        self.stop(Expected::Class);
        false
    }


    fn finish(&mut self)
        requires
            old(self).wf(),
        ensures
            final(self).follows(old(self)),
            final(self).state() == finish(old(self).state(), old(self).end),
    {
        if self.failed.is_none() && self.pos < self.tokens.len() {
            self.stop(Expected::End);
        }
    }


    fn entry(&mut self, long: bool, is_interval: bool, j: usize) -> (e: EntryData)
        requires
            old(self).wf(),
            j < usize::MAX,
        ensures
            final(self).follows(old(self)),
            final(self).state() == entry(old(self).state(), long, is_interval, j as nat, old(self).end).1,
            (Row { tmin: e.0, tmax: e.1, label: e.2@ }) == entry(
                old(self).state(),
                long,
                is_interval,
                j as nat,
                old(self).end,
            ).0,
    {
        if is_interval {
            self.key(long, "intervals");
            self.index(long, j + 1);
            self.key(long, "xmin");
            self.key(long, "=");
            let start: u64 = self.number();
            self.key(long, "xmax");
            self.key(long, "=");
            let stop: u64 = self.number();
            self.key(long, "text");
            self.key(long, "=");
            let label = self.quoted();
            (start, stop, label)
        } else {
            self.key(long, "points");
            self.index(long, j + 1);
            self.key(long, "number");
            self.key(long, "=");
            let time: u64 = self.number();
            self.key(long, "mark");
            self.key(long, "=");
            let label = self.quoted();
            (time, time, label)
        }
    }


    fn tier(&mut self, long: bool, t: usize) -> (d: TierData)
        requires
            old(self).wf(),
            t < usize::MAX,
        ensures
            final(self).follows(old(self)),
            final(self).state() == tier(old(self).state(), long, t as nat, old(self).end).1,
            data_tier(d) == tier(old(self).state(), long, t as nat, old(self).end).0,
    {
        let ghost r = self.state();
        let ghost end = self.end;
        self.key(long, "item");
        self.index(long, t + 1);
        self.key(long, "class");
        self.key(long, "=");
        let is_interval: bool = self.class();
        self.key(long, "name");
        self.key(long, "=");
        let name = self.quoted();
        self.key(long, "xmin");
        self.key(long, "=");
        let _: u64 = self.number();
        self.key(long, "xmax");
        self.key(long, "=");
        let _: u64 = self.number();
        self.key(
            long,
            if is_interval {
                "intervals:"
            } else {
                "points:"
            },
        );
        self.key(long, "size");
        self.key(long, "=");
        assert(self.state() == tier_size(r, long, t as nat, end));
        let size: usize = self.count();
        let ghost first = self.state();
        let mut rows: Vec<EntryData> = Vec::new();
        let mut j: usize = 0;
        assert(data_rows(rows@) =~= Seq::<Row>::empty());
        while j < size && self.failed.is_none()
            invariant
                self.follows(old(self)),
                end == self.end,
                j <= size,
                entries(first, long, is_interval, 0, size as nat, Seq::empty(), end) == entries(
                    self.state(),
                    long,
                    is_interval,
                    j as nat,
                    size as nat,
                    data_rows(rows@),
                    end,
                ),
            decreases size - j,
        {
            let ghost before = data_rows(rows@);
            let e = self.entry(long, is_interval, j);
            rows.push(e);
            assert(data_rows(rows@) =~= before.push(Row { tmin: e.0, tmax: e.1, label: e.2@ }));
            j += 1;
        }
        (name, is_interval, rows)
    }
}

/// Reads a TextGrid from the tokens of a file of the given type, `long` or
/// `short`, and validates it under `strict`. `values` gives for each token
/// the bits of the double that it writes, if it writes one. The TextGrid gets
/// the name that `from_data` gives where none is given.
pub fn parse(tokens: &Vec<Token>, values: &Vec<Option<u64>>, strict: bool, file_type: &str) -> (r:
    Result<TextGrid, TextGridError>)
    ensures
        match parse_items(items(tokens@, values@), end_line(tokens@), strict, file_type@) {
            Ok(g) => r matches Ok(grid) && grid@ == g,
            Err(e) => r == Err::<TextGrid, TextGridError>(e),
        },
{
    let long: bool = if same_text(file_type, "long") {
        true
    } else if same_text(file_type, "short") {
        false
    } else {
        return Err(TextGridError::UnknownFileType);
    };
    let end: usize = if tokens.len() > 0 {
        tokens[tokens.len() - 1].line
    } else {
        1
    };
    let mut rd = Reader { tokens, values, pos: 0, failed: None, end };
    let ghost r = rd.state();
    assert(items(tokens@, values@).skip(0) =~= items(tokens@, values@));
    rd.word("File");
    rd.word("type");
    rd.word("=");
    rd.string("ooTextFile");
    rd.word("Object");
    rd.word("class");
    rd.word("=");
    rd.string("TextGrid");
    rd.key(long, "xmin");
    rd.key(long, "=");
    let tmin: u64 = rd.number();
    rd.key(long, "xmax");
    rd.key(long, "=");
    let tmax: u64 = rd.number();
    rd.key(long, "tiers?");
    rd.word("<exists>");
    rd.key(long, "size");
    rd.key(long, "=");
    assert(rd.state() == grid_size(r, long, end));
    let size: usize = rd.count();
    rd.key(long, "item");
    rd.key(long, "[]:");
    let ghost first = rd.state();
    let mut data: Vec<TierData> = Vec::new();
    let mut t: usize = 0;
    assert(data_tiers(data@) =~= Seq::<TierView>::empty());
    while t < size && rd.failed.is_none()
        invariant
            rd.wf(),
            rd.tokens == tokens,
            rd.values == values,
            rd.end == end,
            t <= size,
            tiers(first, long, 0, size as nat, Seq::empty(), end) == tiers(
                rd.state(),
                long,
                t as nat,
                size as nat,
                data_tiers(data@),
                end,
            ),
        decreases size - t,
    {
        let ghost before = data_tiers(data@);
        let d = rd.tier(long, t);
        data.push(d);
        assert(data_tiers(data@) =~= before.push(data_tier(d)));
        t += 1;
    }
    rd.finish();
    match rd.failed {
        Some(e) => Err(TextGridError::Parse(e)),
        None => TextGrid::from_data(data, None, Some(tmin), Some(tmax), strict),
    }
}

} // verus!
