//! Writing a TextGrid as the text of a file.
//!
//! A file is written as a run of pieces: each a word or a quoted string with
//! the blanks that stand in front of it. The long file type writes a key in
//! front of each value and indents by depth; the short type writes the bare
//! values, one per line.
//!
//! How a double is written as a decimal numeral is for the caller to say: the
//! TextGrid hands out its times in the order in which the file holds them, and
//! takes their numerals back in that order.

use vstd::prelude::*;
use crate::columns::texts;
use crate::error::TextGridError;
use crate::model::{
    interval_rows,
    point_rows,
    Entries,
    GridView,
    Interval,
    Point,
    Row,
    TextGrid,
    Tier,
    TierView,
};
use crate::reader::index_word;
use crate::text::{chars_of, digits_of, push_count, push_text, string_of};

verus! {

/// A word or a quoted string with the blanks in front of it.
pub struct Piece {
    pub gap: Seq<char>,
    pub text: Seq<char>,
    pub quoted: bool,
}

/// `s` with each quote doubled.
pub open spec fn escape(s: Seq<char>) -> Seq<char>
    decreases s.len(),
{
    if s.len() == 0 {
        Seq::empty()
    } else {
        (if s[0] == '"' {
            seq!['"', '"']
        } else {
            seq![s[0]]
        }) + escape(s.drop_first())
    }
}

/// How a piece is written: its blanks, then the word as it is, or the string
/// in quotes with its own quotes doubled.
pub open spec fn spell(p: Piece) -> Seq<char> {
    p.gap + if p.quoted {
        seq!['"'] + escape(p.text) + seq!['"']
    } else {
        p.text
    }
}

/// How a run of pieces is written.
pub open spec fn spell_all(ps: Seq<Piece>) -> Seq<char>
    decreases ps.len(),
{
    if ps.len() == 0 {
        Seq::empty()
    } else {
        spell(ps[0]) + spell_all(ps.drop_first())
    }
}

/// The numeral at place `k`, nothing where the list has none.
pub open spec fn at(nums: Seq<Seq<char>>, k: int) -> Seq<char> {
    if 0 <= k < nums.len() {
        nums[k]
    } else {
        Seq::empty()
    }
}

/// A word behind the blanks `gap`.
pub open spec fn plain(gap: Seq<char>, text: Seq<char>) -> Piece {
    Piece { gap, text, quoted: false }
}

/// The blanks in front of a line at the given depth: a line break, and in the
/// long file type four spaces for each level.
pub open spec fn gap_at(long: bool, level: nat) -> Seq<char> {
    if !long || level == 0 {
        "\n"@
    } else if level == 1 {
        "\n    "@
    } else if level == 2 {
        "\n        "@
    } else {
        "\n            "@
    }
}

/// A value on a line of its own, in the long file type behind its key and `=`.
pub open spec fn keyed(long: bool, gap: Seq<char>, key: Seq<char>, value: Seq<char>, quoted: bool) -> Seq<
    Piece,
> {
    if long {
        seq![plain(gap, key), plain(" "@, "="@), Piece { gap: " "@, text: value, quoted }]
    } else {
        seq![Piece { gap, text: value, quoted }]
    }
}

/// A line of two words that only the long file type has.
pub open spec fn heading(long: bool, gap: Seq<char>, a: Seq<char>, b: Seq<char>) -> Seq<Piece> {
    if long {
        seq![plain(gap, a), plain(" "@, b)]
    } else {
        Seq::empty()
    }
}

/// The class of a tier as a file names it.
pub open spec fn class_name(is_interval: bool) -> Seq<char> {
    if is_interval {
        "IntervalTier"@
    } else {
        "TextTier"@
    }
}

/// The pieces of entry `j` (counted from zero), its times written by the
/// numerals from place `k` on.
pub open spec fn entry_pieces(
    row: Row,
    is_interval: bool,
    j: nat,
    nums: Seq<Seq<char>>,
    k: int,
    long: bool,
) -> Seq<Piece> {
    if is_interval {
        heading(long, gap_at(long, 2), "intervals"@, index_word(j + 1)) + keyed(
            long,
            gap_at(long, 3),
            "xmin"@,
            at(nums, k),
            false,
        ) + keyed(long, gap_at(long, 3), "xmax"@, at(nums, k + 1), false) + keyed(
            long,
            gap_at(long, 3),
            "text"@,
            row.label,
            true,
        )
    } else {
        heading(long, gap_at(long, 2), "points"@, index_word(j + 1)) + keyed(
            long,
            gap_at(long, 3),
            "number"@,
            at(nums, k),
            false,
        ) + keyed(long, gap_at(long, 3), "mark"@, row.label, true)
    }
}

/// How many times an entry has.
pub open spec fn width(is_interval: bool) -> int {
    if is_interval {
        2
    } else {
        1
    }
}

/// The pieces of the entries from `j` on.
pub open spec fn entries_pieces(
    rows: Seq<Row>,
    is_interval: bool,
    j: nat,
    nums: Seq<Seq<char>>,
    k: int,
    long: bool,
) -> Seq<Piece>
    decreases rows.len() - j,
{
    if j >= rows.len() {
        Seq::empty()
    } else {
        entry_pieces(rows[j as int], is_interval, j, nums, k, long) + entries_pieces(
            rows,
            is_interval,
            j + 1,
            nums,
            k + width(is_interval),
            long,
        )
    }
}

/// The line that gives the number of entries of a tier.
pub open spec fn size_line(long: bool, is_interval: bool, n: nat) -> Seq<Piece> {
    if long {
        seq![
            plain(
                gap_at(long, 2),
                if is_interval {
                    "intervals:"@
                } else {
                    "points:"@
                },
            ),
            plain(" "@, "size"@),
            plain(" "@, "="@),
            plain(" "@, digits_of(n)),
        ]
    } else {
        seq![plain(gap_at(long, 2), digits_of(n))]
    }
}

/// The pieces of what stands in front of the entries of tier `t` (counted
/// from zero): its class, its name, the time domain, and the number of its entries.
pub open spec fn tier_head(tier: TierView, t: nat, nums: Seq<Seq<char>>, k: int, long: bool) -> Seq<
    Piece,
> {
    heading(long, gap_at(long, 1), "item"@, index_word(t + 1)) + keyed(
        long,
        gap_at(long, 2),
        "class"@,
        class_name(tier.is_interval),
        true,
    ) + keyed(long, gap_at(long, 2), "name"@, tier.name, true) + keyed(
        long,
        gap_at(long, 2),
        "xmin"@,
        at(nums, k),
        false,
    ) + keyed(long, gap_at(long, 2), "xmax"@, at(nums, k + 1), false) + size_line(
        long,
        tier.is_interval,
        tier.rows.len(),
    )
}

/// How many times `n` entries have.
pub open spec fn span(is_interval: bool, n: int) -> int {
    if is_interval {
        2 * n
    } else {
        n
    }
}

/// How many times a tier has in a file: the time domain and those of its entries.
pub open spec fn tier_count(tier: TierView) -> int {
    2 + span(tier.is_interval, tier.rows.len() as int)
}

/// The pieces of the tiers from `t` on.
pub open spec fn tiers_pieces(tiers: Seq<TierView>, t: nat, nums: Seq<Seq<char>>, k: int, long: bool) -> Seq<
    Piece,
>
    decreases tiers.len() - t,
{
    if t >= tiers.len() {
        Seq::empty()
    } else {
        let tier = tiers[t as int];
        tier_head(tier, t, nums, k, long) + entries_pieces(
            tier.rows,
            tier.is_interval,
            0,
            nums,
            k + 2,
            long,
        ) + tiers_pieces(tiers, t + 1, nums, k + tier_count(tier), long)
    }
}

/// The pieces of what stands in front of the tiers.
pub open spec fn grid_head(g: GridView, nums: Seq<Seq<char>>, long: bool) -> Seq<Piece> {
    seq![
        plain(Seq::empty(), "File"@),
        plain(" "@, "type"@),
        plain(" "@, "="@),
        Piece { gap: " "@, text: "ooTextFile"@, quoted: true },
        plain("\n"@, "Object"@),
        plain(" "@, "class"@),
        plain(" "@, "="@),
        Piece { gap: " "@, text: "TextGrid"@, quoted: true },
    ] + keyed(long, "\n\n"@, "xmin"@, at(nums, 0), false) + keyed(
        long,
        "\n"@,
        "xmax"@,
        at(nums, 1),
        false,
    ) + (if long {
        seq![plain("\n"@, "tiers?"@), plain(" "@, "<exists>"@)]
    } else {
        seq![plain("\n"@, "<exists>"@)]
    }) + keyed(long, "\n"@, "size"@, digits_of(g.tiers.len()), false) + heading(
        long,
        "\n"@,
        "item"@,
        "[]:"@,
    )
}

/// The pieces of a file that holds the TextGrid, its times written by `nums`.
pub open spec fn pieces(g: GridView, nums: Seq<Seq<char>>, long: bool) -> Seq<Piece> {
    grid_head(g, nums, long) + tiers_pieces(g.tiers, 0, nums, 2, long)
}

/// The text of a file that holds the TextGrid, its times written by `nums`.
pub open spec fn written(g: GridView, nums: Seq<Seq<char>>, long: bool) -> Seq<char> {
    spell_all(pieces(g, nums, long)) + "\n"@
}

/// The times of an entry as a file holds them.
pub open spec fn row_times(row: Row, is_interval: bool) -> Seq<u64> {
    if is_interval {
        seq![row.tmin, row.tmax]
    } else {
        seq![row.tmin]
    }
}

/// The times of the entries from `j` on.
pub open spec fn rows_times(rows: Seq<Row>, is_interval: bool, j: nat) -> Seq<u64>
    decreases rows.len() - j,
{
    if j >= rows.len() {
        Seq::empty()
    } else {
        row_times(rows[j as int], is_interval) + rows_times(rows, is_interval, j + 1)
    }
}

/// The times of the tiers from `t` on: for each tier the time domain, then its entries.
pub open spec fn tiers_times(g: GridView, t: nat) -> Seq<u64>
    decreases g.tiers.len() - t,
{
    if t >= g.tiers.len() {
        Seq::empty()
    } else {
        seq![g.tmin, g.tmax] + rows_times(g.tiers[t as int].rows, g.tiers[t as int].is_interval, 0)
            + tiers_times(g, t + 1)
    }
}

/// Every time that a file of the TextGrid holds, in the order of the file.
pub open spec fn times(g: GridView) -> Seq<u64> {
    seq![g.tmin, g.tmax] + tiers_times(g, 0)
}

/// The entries from `j` on have as many times as their number and kind say.
pub proof fn rows_times_len(rows: Seq<Row>, is_interval: bool, j: nat)
    requires
        j <= rows.len(),
    ensures
        rows_times(rows, is_interval, j).len() == span(is_interval, rows.len() - j),
    decreases rows.len() - j,
{
    if j < rows.len() {
        rows_times_len(rows, is_interval, j + 1);
    }
}

impl TextGrid {
    /// Every time that a file of this TextGrid holds, in the order of the
    /// file: the time domain; then for each tier the time domain again and
    /// the times of its entries, start and end of an interval, the time of a point.
    pub fn times(&self) -> (out: Vec<u64>)
        ensures
            out@ == times(self@),
    {
        let ghost g = self@;
        let mut out: Vec<u64> = Vec::new();
        out.push(self.tmin);
        out.push(self.tmax);
        let n: usize = self.tiers.len();
        let mut t: usize = 0;
        assert(out@ =~= seq![g.tmin, g.tmax]);
        while t < n
            invariant
                g == self@,
                n == self.tiers@.len(),
                t <= n,
                out@ + tiers_times(g, t as nat) == times(g),
            decreases n - t,
        {
            let ghost rest = tiers_times(g, (t + 1) as nat);
            let ghost rows = g.tiers[t as int].rows;
            let ghost before = out@;
            out.push(self.tmin);
            out.push(self.tmax);
            match &self.tiers[t].entries {
                Entries::Intervals(v) => {
                    let m: usize = v.len();
                    let mut j: usize = 0;
                    assert(out@ + (rows_times(rows, true, 0) + rest) =~= before + tiers_times(
                        g,
                        t as nat,
                    ));
                    while j < m
                        invariant
                            m == v@.len(),
                            j <= m,
                            rows == interval_rows(v@),
                            out@ + (rows_times(rows, true, j as nat) + rest) == times(g),
                        decreases m - j,
                    {
                        let ghost here = out@;
                        out.push(v[j].start);
                        out.push(v[j].end);
                        assert(out@ + (rows_times(rows, true, (j + 1) as nat) + rest) =~= here + (
                        rows_times(rows, true, j as nat) + rest));
                        j += 1;
                    }
                    assert(out@ + rest =~= out@ + (rows_times(rows, true, m as nat) + rest));
                },
                Entries::Points(v) => {
                    let m: usize = v.len();
                    let mut j: usize = 0;
                    assert(out@ + (rows_times(rows, false, 0) + rest) =~= before + tiers_times(
                        g,
                        t as nat,
                    ));
                    while j < m
                        invariant
                            m == v@.len(),
                            j <= m,
                            rows == point_rows(v@),
                            out@ + (rows_times(rows, false, j as nat) + rest) == times(g),
                        decreases m - j,
                    {
                        let ghost here = out@;
                        out.push(v[j].time);
                        assert(out@ + (rows_times(rows, false, (j + 1) as nat) + rest) =~= here + (
                        rows_times(rows, false, j as nat) + rest));
                        j += 1;
                    }
                    assert(out@ + rest =~= out@ + (rows_times(rows, false, m as nat) + rest));
                },
            }
            t += 1;
        }
        assert(out@ + tiers_times(g, n as nat) =~= out@);
        out
    }
}

/// How many times the tiers from `t` on have in a file.
pub open spec fn tiers_count(tiers: Seq<TierView>, t: nat) -> int
    decreases tiers.len() - t,
{
    if t >= tiers.len() {
        0
    } else {
        tier_count(tiers[t as int]) + tiers_count(tiers, t + 1)
    }
}

/// A count is no less than nothing.
pub proof fn tiers_count_nonneg(tiers: Seq<TierView>, t: nat)
    ensures
        tiers_count(tiers, t) >= 0,
    decreases tiers.len() - t,
{
    if t < tiers.len() {
        tiers_count_nonneg(tiers, t + 1);
    }
}

/// The tiers from `t` on have as many times as their entries say.
pub proof fn tiers_times_len(g: GridView, t: nat)
    requires
        t <= g.tiers.len(),
    ensures
        tiers_times(g, t).len() == tiers_count(g.tiers, t),
    decreases g.tiers.len() - t,
{
    if t < g.tiers.len() {
        tiers_times_len(g, t + 1);
        rows_times_len(g.tiers[t as int].rows, g.tiers[t as int].is_interval, 0);
    }
}

/// Writing one more piece adds what the piece writes.
pub proof fn spell_all_push(ps: Seq<Piece>, p: Piece)
    ensures
        spell_all(ps.push(p)) == spell_all(ps) + spell(p),
    decreases ps.len(),
{
    if ps.len() == 0 {
        assert(ps.push(p).drop_first() =~= Seq::<Piece>::empty());
        assert(ps.push(p)[0] == p);
        assert(spell_all(ps.push(p).drop_first()) =~= Seq::<char>::empty());
        assert(spell_all(ps.push(p)) =~= spell(p));
        assert(spell_all(ps) + spell(p) =~= spell(p));
    } else {
        assert(ps.push(p).drop_first() =~= ps.drop_first().push(p));
        spell_all_push(ps.drop_first(), p);
        assert(spell_all(ps.push(p)) =~= spell_all(ps) + spell(p));
    }
}

/// What one character is written as inside quotes.
pub open spec fn escape_one(c: char) -> Seq<char> {
    if c == '"' {
        seq!['"', '"']
    } else {
        seq![c]
    }
}

/// Escaping one more character adds what the character is written as.
pub proof fn escape_push(s: Seq<char>, c: char)
    ensures
        escape(s.push(c)) == escape(s) + escape_one(c),
    decreases s.len(),
{
    if s.len() == 0 {
        assert(s.push(c).drop_first() =~= Seq::<char>::empty());
        assert(s.push(c)[0] == c);
        assert(escape(s.push(c).drop_first()) =~= Seq::<char>::empty());
        assert(escape(s.push(c)) =~= escape_one(c));
        assert(escape(s) + escape_one(c) =~= escape_one(c));
    } else {
        assert(s.push(c).drop_first() =~= s.drop_first().push(c));
        escape_push(s.drop_first(), c);
        assert(escape(s.push(c)) =~= escape(s) + escape_one(c));
    }
}

struct Chunk {
    gap: &'static str,
    text: String,
    quoted: bool,
}

spec fn chunk_piece(c: Chunk) -> Piece {
    Piece { gap: c.gap@, text: c.text@, quoted: c.quoted }
}

spec fn chunk_pieces(v: Seq<Chunk>) -> Seq<Piece> {
    Seq::new(v.len(), |i: int| chunk_piece(v[i]))
}

struct Writer {
    chunks: Vec<Chunk>,
    long: bool,
}

impl Writer {
    spec fn done(&self) -> Seq<Piece> {
        chunk_pieces(self.chunks@)
    }


    fn put(&mut self, gap: &'static str, text: String, quoted: bool)
        ensures
            final(self).long == old(self).long,
            final(self).done() == old(self).done().push(Piece { gap: gap@, text: text@, quoted }),
    {
        self.chunks.push(Chunk { gap, text, quoted });
        assert(self.done() =~= old(self).done().push(Piece { gap: gap@, text: text@, quoted }));
    }

    fn word(&mut self, gap: &'static str, text: &str)
        ensures
            final(self).long == old(self).long,
            final(self).done() == old(self).done().push(plain(gap@, text@)),
    {
        self.put(gap, text.to_owned(), false);
    }


    fn keyed(&mut self, gap: &'static str, key: &str, value: String, quoted: bool)
        ensures
            final(self).long == old(self).long,
            final(self).done() == old(self).done() + keyed(
                old(self).long,
                gap@,
                key@,
                value@,
                quoted,
            ),
    {
        if self.long {
            self.word(gap, key);
            self.word(" ", "=");
            self.put(" ", value, quoted);
        } else {
            self.put(gap, value, quoted);
        }
        assert(self.done() =~= old(self).done() + keyed(old(self).long, gap@, key@, value@, quoted));
    }


    fn heading(&mut self, gap: &'static str, a: &str, b: String)
        ensures
            final(self).long == old(self).long,
            final(self).done() == old(self).done() + heading(old(self).long, gap@, a@, b@),
    {
        if self.long {
            self.word(gap, a);
            self.put(" ", b, false);
        }
        assert(self.done() =~= old(self).done() + heading(old(self).long, gap@, a@, b@));
    }
}

fn gap_for(long: bool, level: usize) -> (gap: &'static str)
    ensures
        gap@ == gap_at(long, level as nat),
{
    if !long || level == 0 {
        "\n"
    } else if level == 1 {
        "\n    "
    } else if level == 2 {
        "\n        "
    } else {
        "\n            "
    }
}


fn index_text(j: usize) -> (s: String)
    ensures
        s@ == index_word(j as nat),
{
    let mut out: Vec<char> = Vec::new();
    out.push('[');
    push_count(&mut out, j);
    push_text(&mut out, "]:");
    assert(out@ =~= index_word(j as nat));
    string_of(&out)
}

fn count_text(n: usize) -> (s: String)
    ensures
        s@ == digits_of(n as nat),
{
    let mut out: Vec<char> = Vec::new();
    push_count(&mut out, n);
    assert(out@ =~= digits_of(n as nat));
    string_of(&out)
}

fn numeral(numerals: &Vec<String>, k: usize) -> (s: String)
    ensures
        s@ == at(texts(numerals@), k as int),
{
    if k < numerals.len() {
        numerals[k].clone()
    } else {
        String::new()
    }
}

fn class_text(is_interval: bool) -> (s: String)
    ensures
        s@ == class_name(is_interval),
{
    if is_interval {
        "IntervalTier".to_owned()
    } else {
        "TextTier".to_owned()
    }
}


fn push_escaped(out: &mut Vec<char>, text: &str)
    ensures
        final(out)@ == old(out)@ + escape(text@),
{
    let chars = chars_of(text);
    let n: usize = chars.len();
    let mut i: usize = 0;
    assert(old(out)@ + escape(chars@.take(0)) =~= old(out)@);
    while i < n
        invariant
            n == chars@.len(),
            i <= n,
            out@ == old(out)@ + escape(chars@.take(i as int)),
        decreases n - i,
    {
        let c: char = chars[i];
        proof {
            assert(chars@.take(i + 1) =~= chars@.take(i as int).push(c));
            escape_push(chars@.take(i as int), c);
        }
        let ghost before = out@;
        if c == '"' {
            out.push('"');
            out.push('"');
        } else {
            out.push(c);
        }
        assert(out@ =~= before + escape_one(c));
        assert(out@ =~= old(out)@ + escape(chars@.take(i + 1)));
        i += 1;
    }
    assert(chars@.take(n as int) =~= chars@);
}


fn spell_out(chunks: &Vec<Chunk>) -> (out: Vec<char>)
    ensures
        out@ == spell_all(chunk_pieces(chunks@)),
{
    let ghost ps = chunk_pieces(chunks@);
    let mut out: Vec<char> = Vec::new();
    let n: usize = chunks.len();
    let mut i: usize = 0;
    assert(ps.take(0) =~= Seq::<Piece>::empty());
    while i < n
        invariant
            n == chunks@.len(),
            i <= n,
            ps == chunk_pieces(chunks@),
            out@ == spell_all(ps.take(i as int)),
        decreases n - i,
    {
        let c = &chunks[i];
        let ghost before = out@;
        proof {
            assert(ps.take(i + 1) =~= ps.take(i as int).push(ps[i as int]));
            spell_all_push(ps.take(i as int), ps[i as int]);
        }
        push_text(&mut out, c.gap);
        if c.quoted {
            out.push('"');
            push_escaped(&mut out, c.text.as_str());
            out.push('"');
        } else {
            push_text(&mut out, c.text.as_str());
        }
        assert(out@ =~= before + spell(ps[i as int]));
        i += 1;
    }
    assert(ps.take(n as int) =~= ps);
    out
}


fn put_intervals(
    w: &mut Writer,
    v: &Vec<Interval>,
    numerals: &Vec<String>,
    k: usize,
    Ghost(rows): Ghost<Seq<Row>>,
) -> (kend: usize)
    requires
        rows == interval_rows(v@),
        k + 2 * v@.len() <= numerals@.len(),
    ensures
        final(w).long == old(w).long,
        kend == k + 2 * v@.len(),
        final(w).done() == old(w).done() + entries_pieces(
            rows,
            true,
            0,
            texts(numerals@),
            k as int,
            old(w).long,
        ),
{
    let ghost nums = texts(numerals@);
    let ghost long = w.long;
    let ghost whole = entries_pieces(rows, true, 0, nums, k as int, long);
    let long_now: bool = w.long;
    let total: usize = numerals.len();
    let m: usize = v.len();
    let mut at_k: usize = k;
    let mut j: usize = 0;
    assert(w.done() + whole =~= old(w).done() + whole);
    while j < m
        invariant
            m == v@.len(),
            j <= m,
            w.long == long,
            long_now == long,
            nums == texts(numerals@),
            rows == interval_rows(v@),
            total == numerals@.len(),
            at_k == k + 2 * j,
            k + 2 * m <= total,
            w.done() + entries_pieces(rows, true, j as nat, nums, at_k as int, long) == old(w).done()
                + whole,
        decreases m - j,
    {
        let ghost here = w.done();
        w.heading(gap_for(long_now, 2), "intervals", index_text(j + 1));
        w.keyed(gap_for(long_now, 3), "xmin", numeral(numerals, at_k), false);
        w.keyed(gap_for(long_now, 3), "xmax", numeral(numerals, at_k + 1), false);
        w.keyed(gap_for(long_now, 3), "text", v[j].label.clone(), true);
        proof {
            assert(w.done() =~= here + entry_pieces(rows[j as int], true, j as nat, nums, at_k as int, long));
            assert(w.done() + entries_pieces(rows, true, (j + 1) as nat, nums, at_k + 2, long) =~= here
                + entries_pieces(rows, true, j as nat, nums, at_k as int, long));
        }
        at_k = at_k + 2;
        j += 1;
    }
    assert(w.done() + entries_pieces(rows, true, m as nat, nums, at_k as int, long) =~= w.done());
    at_k
}


fn put_points(
    w: &mut Writer,
    v: &Vec<Point>,
    numerals: &Vec<String>,
    k: usize,
    Ghost(rows): Ghost<Seq<Row>>,
) -> (kend: usize)
    requires
        rows == point_rows(v@),
        k + v@.len() <= numerals@.len(),
    ensures
        final(w).long == old(w).long,
        kend == k + v@.len(),
        final(w).done() == old(w).done() + entries_pieces(
            rows,
            false,
            0,
            texts(numerals@),
            k as int,
            old(w).long,
        ),
{
    let ghost nums = texts(numerals@);
    let ghost long = w.long;
    let ghost whole = entries_pieces(rows, false, 0, nums, k as int, long);
    let long_now: bool = w.long;
    let total: usize = numerals.len();
    let m: usize = v.len();
    let mut at_k: usize = k;
    let mut j: usize = 0;
    assert(w.done() + whole =~= old(w).done() + whole);
    while j < m
        invariant
            m == v@.len(),
            j <= m,
            w.long == long,
            long_now == long,
            nums == texts(numerals@),
            rows == point_rows(v@),
            total == numerals@.len(),
            at_k == k + j,
            k + m <= total,
            w.done() + entries_pieces(rows, false, j as nat, nums, at_k as int, long) == old(w).done()
                + whole,
        decreases m - j,
    {
        let ghost here = w.done();
        w.heading(gap_for(long_now, 2), "points", index_text(j + 1));
        w.keyed(gap_for(long_now, 3), "number", numeral(numerals, at_k), false);
        w.keyed(gap_for(long_now, 3), "mark", v[j].label.clone(), true);
        proof {
            assert(w.done() =~= here + entry_pieces(rows[j as int], false, j as nat, nums, at_k as int, long));
            assert(w.done() + entries_pieces(rows, false, (j + 1) as nat, nums, at_k + 1, long) =~= here
                + entries_pieces(rows, false, j as nat, nums, at_k as int, long));
        }
        at_k = at_k + 1;
        j += 1;
    }
    assert(w.done() + entries_pieces(rows, false, m as nat, nums, at_k as int, long) =~= w.done());
    at_k
}


fn put_size_line(w: &mut Writer, is_interval: bool, m: usize)
    ensures
        final(w).long == old(w).long,
        final(w).done() == old(w).done() + size_line(old(w).long, is_interval, m as nat),
{
    let long: bool = w.long;
    if long {
        w.word(
            gap_for(long, 2),
            if is_interval {
                "intervals:"
            } else {
                "points:"
            },
        );
        w.word(" ", "size");
        w.word(" ", "=");
        w.put(" ", count_text(m), false);
    } else {
        w.put(gap_for(long, 2), count_text(m), false);
    }
    assert(w.done() =~= old(w).done() + size_line(long, is_interval, m as nat));
}

fn put_tier_head(w: &mut Writer, tier: &Tier, t: usize, numerals: &Vec<String>, k: usize)
    requires
        t < usize::MAX,
        k + 2 <= numerals@.len(),
    ensures
        final(w).long == old(w).long,
        final(w).done() == old(w).done() + tier_head(
            tier@,
            t as nat,
            texts(numerals@),
            k as int,
            old(w).long,
        ),
{
    let long: bool = w.long;
    let is_interval: bool = tier.is_interval();
    let m: usize = tier.entries.len();
    let total: usize = numerals.len();
    assert(k + 2 <= total);
    w.heading(gap_for(long, 1), "item", index_text(t + 1));
    w.keyed(gap_for(long, 2), "class", class_text(is_interval), true);
    w.keyed(gap_for(long, 2), "name", tier.name.clone(), true);
    w.keyed(gap_for(long, 2), "xmin", numeral(numerals, k), false);
    w.keyed(gap_for(long, 2), "xmax", numeral(numerals, k + 1), false);
    let ghost before = w.done();
    put_size_line(w, is_interval, m);
    assert(w.done() == before + size_line(long, is_interval, m as nat));
    assert(w.done() =~= old(w).done() + tier_head(
        tier@,
        t as nat,
        texts(numerals@),
        k as int,
        long,
    ));
}


fn put_grid_head(w: &mut Writer, n: usize, numerals: &Vec<String>, Ghost(g): Ghost<GridView>)
    requires
        old(w).done() == Seq::<Piece>::empty(),
        g.tiers.len() == n,
    ensures
        final(w).long == old(w).long,
        final(w).done() == grid_head(g, texts(numerals@), old(w).long),
{
    let long: bool = w.long;
    w.word("", "File");
    w.word(" ", "type");
    w.word(" ", "=");
    w.put(" ", "ooTextFile".to_owned(), true);
    w.word("\n", "Object");
    w.word(" ", "class");
    w.word(" ", "=");
    w.put(" ", "TextGrid".to_owned(), true);
    w.keyed("\n\n", "xmin", numeral(numerals, 0), false);
    w.keyed("\n", "xmax", numeral(numerals, 1), false);
    if long {
        w.word("\n", "tiers?");
        w.word(" ", "<exists>");
    } else {
        w.word("\n", "<exists>");
    }
    w.keyed("\n", "size", count_text(n), false);
    w.heading("\n", "item", "[]:".to_owned());
    proof {
        assert(""@ =~= Seq::<char>::empty()) by {
            reveal_strlit("");
        }
        assert(w.done() =~= grid_head(g, texts(numerals@), long));
    }
}

impl TextGrid {
    /// The text of a file of the long or the short type that holds this
    /// TextGrid. `numerals` writes the times that `times` gives, in that
    /// order, and must be as many. A tier's own time domain is written as
    /// that of the TextGrid; the name of the TextGrid is not written.
    pub fn serialize(&self, long: bool, numerals: &Vec<String>) -> (r: Result<String, TextGridError>)
        ensures
            numerals@.len() != times(self@).len() ==> (r matches Err(e) && e
                == TextGridError::LengthMismatch),
            numerals@.len() == times(self@).len() ==> (r matches Ok(s) && s@ == written(
                self@,
                texts(numerals@),
                long,
            )),
    {
        let ts = self.times();
        if numerals.len() != ts.len() {
            return Err(TextGridError::LengthMismatch);
        }
        let ghost g = self@;
        let ghost nums = texts(numerals@);
        let n: usize = self.tiers.len();
        let total: usize = numerals.len();
        let mut w = Writer { chunks: Vec::new(), long };
        assert(w.done() =~= Seq::<Piece>::empty());
        put_grid_head(&mut w, n, numerals, Ghost(g));
        proof {
            tiers_times_len(g, 0);
        }
        let mut k: usize = 2;
        let mut t: usize = 0;
        while t < n
            invariant
                g == self@,
                nums == texts(numerals@),
                n == self.tiers@.len(),
                total == numerals@.len(),
                t <= n,
                w.long == long,
                k + tiers_count(g.tiers, t as nat) == total,
                w.done() + tiers_pieces(g.tiers, t as nat, nums, k as int, long) == pieces(
                    g,
                    nums,
                    long,
                ),
            decreases n - t,
        {
            let tier = &self.tiers[t];
            let ghost view = g.tiers[t as int];
            let ghost before = w.done();
            let ghost rest = tiers_pieces(g.tiers, (t + 1) as nat, nums, k + tier_count(view), long);
            proof {
                tiers_count_nonneg(g.tiers, (t + 1) as nat);
                assert(view == tier@);
            }
            put_tier_head(&mut w, tier, t, numerals, k);
            let kend: usize = match &tier.entries {
                Entries::Intervals(v) => put_intervals(&mut w, v, numerals, k + 2, Ghost(view.rows)),
                Entries::Points(v) => put_points(&mut w, v, numerals, k + 2, Ghost(view.rows)),
            };
            proof {
                assert(w.done() + rest =~= before + tiers_pieces(g.tiers, t as nat, nums, k as int, long));
            }
            k = kend;
            t += 1;
        }
        let mut out = spell_out(&w.chunks);
        out.push('\n');
        proof {
            assert(w.done() + tiers_pieces(g.tiers, n as nat, nums, k as int, long) =~= w.done());
            assert("\n"@ =~= seq!['\n']) by {
                reveal_strlit("\n");
            }
            assert(out@ =~= written(g, nums, long));
        }
        Ok(string_of(&out))
    }
}

} // verus!
