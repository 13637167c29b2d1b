//! What is written is read back: the tokens of a written file are the pieces
//! it was written from, and the reader finds in them the TextGrid that the
//! writer was given.

use vstd::prelude::*;
use crate::lexer::{after_one, is_space, lex, quoted_body, word_len, Lexeme};
use crate::data::{default_name, grid_from_data};
use crate::error::TextGridError;
use crate::laws::points_are_points;
use crate::model::{
    grid_model_is_well_formed,
    interval_rows,
    point_rows,
    Entries,
    GridView,
    Row,
    TextGrid,
    TierView,
};
use crate::validate::valid_means_every_rule;
use crate::error::ParseError;
use crate::reader::{
    class,
    class_value,
    count,
    count_value,
    document,
    entries,
    entry,
    file_kind,
    finish,
    grid_size,
    grid_tmax,
    grid_tmin,
    index_word,
    key,
    number,
    number_value,
    parse_items,
    quoted,
    quoted_value,
    string,
    tier,
    tier_class,
    tier_name,
    tier_size,
    tiers,
    word,
    Item,
    State,
};
use crate::text::count_of_digits;
use crate::writer::{row_times, rows_times, rows_times_len, tiers_times};
use crate::text::{digits_are_read_back, digits_of, is_digit};
use crate::writer::{
    at,
    class_name,
    entries_pieces,
    entry_pieces,
    escape,
    gap_at,
    grid_head,
    heading,
    keyed,
    pieces,
    plain,
    size_line,
    span,
    spell,
    spell_all,
    tier_count,
    tier_head,
    tiers_count,
    tiers_count_nonneg,
    tiers_pieces,
    tiers_times_len,
    times,
    width,
    written,
    Piece,
};

verus! {

/// Whether `w` can stand in a file as a word: it is not empty and holds
/// neither a blank nor a quote.
pub open spec fn is_word(w: Seq<char>) -> bool {
    w.len() > 0 && forall|i: int| 0 <= i < w.len() ==> !is_space(#[trigger] w[i]) && w[i] != '"'
}

/// Whether `s` holds blanks only.
pub open spec fn is_gap(s: Seq<char>) -> bool {
    forall|i: int| 0 <= i < s.len() ==> is_space(#[trigger] s[i])
}

/// Whether a piece can be told from what follows it: its gap is blank, and
/// where it is no quoted string it is a word.
pub open spec fn sound(p: Piece) -> bool {
    is_gap(p.gap) && (p.quoted || is_word(p.text))
}

/// Whether the pieces can be told apart when written one after the other:
/// each is sound, and each but the first has a gap in front of it.
pub open spec fn orderly(ps: Seq<Piece>) -> bool {
    forall|i: int| 0 <= i < ps.len() ==> sound(#[trigger] ps[i]) && (i > 0 ==> ps[i].gap.len() > 0)
}

/// Whether the tokens say what the pieces say.
pub open spec fn say(xs: Seq<Lexeme>, ps: Seq<Piece>) -> bool {
    xs.len() == ps.len() && forall|i: int|
        0 <= i < ps.len() ==> (#[trigger] xs[i]).text == ps[i].text && xs[i].quoted == ps[i].quoted
}


proof fn lex_skips_gap(gap: Seq<char>, rest: Seq<char>)
    requires
        is_gap(gap),
    ensures
        lex(gap + rest) == lex(rest),
    decreases gap.len(),
{
    if gap.len() == 0 {
        assert(gap + rest =~= rest);
    } else {
        let s = gap + rest;
        assert(s[0] == gap[0]);
        assert(is_space(gap[0]));
        assert(s.drop_first() =~= gap.drop_first() + rest);
        assert forall|i: int| 0 <= i < gap.drop_first().len() implies is_space(
            #[trigger] gap.drop_first()[i],
        ) by {
            assert(gap.drop_first()[i] == gap[i + 1]);
        }
        lex_skips_gap(gap.drop_first(), rest);
    }
}


proof fn word_ends_at_gap(w: Seq<char>, rest: Seq<char>)
    requires
        forall|i: int| 0 <= i < w.len() ==> !is_space(#[trigger] w[i]) && w[i] != '"',
        rest.len() == 0 || is_space(rest[0]) || rest[0] == '"',
    ensures
        word_len(w + rest) == w.len(),
    decreases w.len(),
{
    let s = w + rest;
    if w.len() == 0 {
        assert(s =~= rest);
    } else {
        assert(s[0] == w[0]);
        assert(s.drop_first() =~= w.drop_first() + rest);
        assert forall|i: int| 0 <= i < w.drop_first().len() implies !is_space(
            #[trigger] w.drop_first()[i],
        ) && w.drop_first()[i] != '"' by {
            assert(w.drop_first()[i] == w[i + 1]);
        }
        word_ends_at_gap(w.drop_first(), rest);
    }
}


proof fn quoted_is_read_back(c: Seq<char>, rest: Seq<char>)
    requires
        rest.len() == 0 || rest[0] != '"',
    ensures
        quoted_body(escape(c) + seq!['"'] + rest) == Some((c, (escape(c).len() + 1) as nat)),
    decreases c.len(),
{
    let s = escape(c) + seq!['"'] + rest;
    if c.len() == 0 {
        assert(s =~= seq!['"'] + rest);
        assert(s[0] == '"');
        if s.len() >= 2 {
            assert(s[1] == rest[0]);
        }
    } else {
        let tail = escape(c.drop_first()) + seq!['"'] + rest;
        quoted_is_read_back(c.drop_first(), rest);
        if c[0] == '"' {
            assert(s[0] == '"');
            assert(s[1] == '"');
            assert(s.skip(2) =~= tail);
            assert(seq!['"'] + c.drop_first() =~= c);
        } else {
            assert(s[0] == c[0]);
            assert(s.drop_first() =~= tail);
            assert(seq![c[0]] + c.drop_first() =~= c);
        }
    }
}

/// The tokens of what orderly pieces write, with blanks behind them, say what
/// the pieces say.
pub proof fn lex_reads_pieces(ps: Seq<Piece>, tail: Seq<char>)
    requires
        orderly(ps),
        is_gap(tail),
    ensures
        lex(spell_all(ps) + tail) is Ok,
        say(lex(spell_all(ps) + tail)->Ok_0, ps),
    decreases ps.len(),
{
    if ps.len() == 0 {
        lex_skips_gap(tail, Seq::empty());
        assert(tail + Seq::<char>::empty() =~= tail);
        assert(spell_all(ps) + tail =~= tail);
    } else {
        let p = ps[0];
        let others = ps.drop_first();
        let rest = spell_all(others) + tail;
        assert(sound(p));
        assert forall|i: int| 0 <= i < others.len() implies sound(#[trigger] others[i]) && (i > 0
            ==> others[i].gap.len() > 0) by {
            assert(others[i] == ps[i + 1]);
        }
        lex_reads_pieces(others, tail);
        let body = if p.quoted {
            seq!['"'] + escape(p.text) + seq!['"']
        } else {
            p.text
        };
        assert(spell_all(ps) + tail =~= p.gap + (body + rest));
        lex_skips_gap(p.gap, body + rest);
        // what follows the piece begins with a blank, or is nothing
        assert(rest.len() == 0 || is_space(rest[0])) by {
            if others.len() > 0 {
                let q = others[0];
                assert(q == ps[1]);
                assert(q.gap.len() > 0);
                assert(is_space(q.gap[0]));
                assert(spell_all(others) =~= spell(q) + spell_all(others.drop_first()));
                assert(rest[0] == q.gap[0]);
            } else {
                assert(rest =~= tail);
                if tail.len() > 0 {
                    assert(is_space(tail[0]));
                }
            }
        }
        let s = body + rest;
        let x = Lexeme { text: p.text, quoted: p.quoted, rest: s.len() };
        if p.quoted {
            assert(s[0] == '"');
            assert(s.drop_first() =~= escape(p.text) + seq!['"'] + rest);
            quoted_is_read_back(p.text, rest);
            let n = (escape(p.text).len() + 1) as nat;
            assert(s.skip(1 + n as int) =~= rest);
            assert(lex(s) == after_one(x, lex(rest)));
        } else {
            assert(is_word(p.text));
            assert(s[0] == p.text[0]);
            word_ends_at_gap(p.text, rest);
            assert(s.take(p.text.len() as int) =~= p.text);
            assert(s.skip(p.text.len() as int) =~= rest);
            assert(lex(s) == after_one(x, lex(rest)));
        }
        let xs = lex(s)->Ok_0;
        let tail_xs = lex(rest)->Ok_0;
        assert(xs =~= seq![x] + tail_xs);
        assert forall|i: int| 0 <= i < ps.len() implies (#[trigger] xs[i]).text == ps[i].text
            && xs[i].quoted == ps[i].quoted by {
            if i > 0 {
                assert(xs[i] == tail_xs[i - 1]);
                assert(others[i - 1] == ps[i]);
            }
        }
    }
}

/// Whether the pieces can follow others: each is sound and has a gap in front of it.
pub open spec fn tidy(ps: Seq<Piece>) -> bool {
    forall|i: int| 0 <= i < ps.len() ==> sound(#[trigger] ps[i]) && ps[i].gap.len() > 0
}

proof fn tidy_join(a: Seq<Piece>, b: Seq<Piece>)
    requires
        tidy(a),
        tidy(b),
    ensures
        tidy(a + b),
{
    assert forall|i: int| 0 <= i < (a + b).len() implies sound(#[trigger] (a + b)[i]) && (a
        + b)[i].gap.len() > 0 by {
        if i < a.len() {
            assert((a + b)[i] == a[i]);
        } else {
            assert((a + b)[i] == b[i - a.len()]);
        }
    }
}


proof fn head_words()
    ensures
        is_word("File"@),
        is_word("type"@),
        is_word("="@),
        is_word("Object"@),
        is_word("class"@),
        is_word("tiers?"@),
        is_word("<exists>"@),
        is_word("size"@),
        is_word("item"@),
        is_word("[]:"@),
{
    reveal_strlit("File");
    reveal_strlit("type");
    reveal_strlit("=");
    reveal_strlit("Object");
    reveal_strlit("class");
    reveal_strlit("tiers?");
    reveal_strlit("<exists>");
    reveal_strlit("size");
    reveal_strlit("item");
    reveal_strlit("[]:");
}


proof fn tier_words()
    ensures
        is_word("name"@),
        is_word("xmin"@),
        is_word("xmax"@),
        is_word("intervals:"@),
        is_word("points:"@),
        is_word("intervals"@),
        is_word("points"@),
        is_word("number"@),
        is_word("mark"@),
        is_word("text"@),
{
    reveal_strlit("name");
    reveal_strlit("xmin");
    reveal_strlit("xmax");
    reveal_strlit("intervals:");
    reveal_strlit("points:");
    reveal_strlit("intervals");
    reveal_strlit("points");
    reveal_strlit("number");
    reveal_strlit("mark");
    reveal_strlit("text");
}


proof fn gaps_are_gaps()
    ensures
        is_gap(" "@) && " "@.len() > 0,
        is_gap("\n"@) && "\n"@.len() > 0,
        is_gap("\n\n"@) && "\n\n"@.len() > 0,
        forall|long: bool, level: nat|
            is_gap(#[trigger] gap_at(long, level)) && gap_at(long, level).len() > 0,
{
    reveal_strlit(" ");
    reveal_strlit("\n");
    reveal_strlit("\n\n");
    reveal_strlit("\n    ");
    reveal_strlit("\n        ");
    reveal_strlit("\n            ");
    assert(is_gap("\n    "@));
    assert(is_gap("\n        "@));
    assert(is_gap("\n            "@));
}

proof fn digits_are_a_word(n: nat)
    ensures
        is_word(digits_of(n)),
{
    digits_are_read_back(n);
    assert forall|i: int| 0 <= i < digits_of(n).len() implies !is_space(#[trigger] digits_of(n)[i])
        && digits_of(n)[i] != '"' by {
        assert(is_digit(digits_of(n)[i]));
    }
}


proof fn index_is_a_word(j: nat)
    ensures
        is_word(index_word(j)),
{
    reveal_strlit("]:");
    digits_are_a_word(j);
    let d = digits_of(j);
    let w = index_word(j);
    assert(w.len() == d.len() + 3);
    assert forall|i: int| 0 <= i < w.len() implies !is_space(#[trigger] w[i]) && w[i] != '"' by {
        if i == 0 {
            assert(w[i] == '[');
        } else if i <= d.len() {
            assert(w[i] == d[i - 1]);
        } else {
            assert(w[i] == "]:"@[i - 1 - d.len()]);
        }
    }
}


proof fn keyed_is_tidy(long: bool, gap: Seq<char>, key: Seq<char>, value: Seq<char>, quoted: bool)
    requires
        is_gap(gap),
        gap.len() > 0,
        is_word(key),
        quoted || is_word(value),
    ensures
        tidy(keyed(long, gap, key, value, quoted)),
{
    head_words();
    gaps_are_gaps();
}

proof fn heading_is_tidy(long: bool, gap: Seq<char>, a: Seq<char>, b: Seq<char>)
    requires
        is_gap(gap),
        gap.len() > 0,
        is_word(a),
        is_word(b),
    ensures
        tidy(heading(long, gap, a, b)),
{
    gaps_are_gaps();
}

/// Whether every numeral is a word.
pub open spec fn all_words(nums: Seq<Seq<char>>) -> bool {
    forall|k: int| 0 <= k < nums.len() ==> is_word(#[trigger] nums[k])
}


proof fn entry_is_tidy(row: Row, is_interval: bool, j: nat, nums: Seq<Seq<char>>, k: int, long: bool)
    requires
        all_words(nums),
        0 <= k,
        k + width(is_interval) <= nums.len(),
    ensures
        tidy(entry_pieces(row, is_interval, j, nums, k, long)),
{
    tier_words();
    gaps_are_gaps();
    index_is_a_word(j + 1);
    assert(is_word(nums[k]));
    if is_interval {
        assert(is_word(nums[k + 1]));
        let a = heading(long, gap_at(long, 2), "intervals"@, index_word(j + 1));
        let b = keyed(long, gap_at(long, 3), "xmin"@, at(nums, k), false);
        let c = keyed(long, gap_at(long, 3), "xmax"@, at(nums, k + 1), false);
        let d = keyed(long, gap_at(long, 3), "text"@, row.label, true);
        heading_is_tidy(long, gap_at(long, 2), "intervals"@, index_word(j + 1));
        keyed_is_tidy(long, gap_at(long, 3), "xmin"@, at(nums, k), false);
        keyed_is_tidy(long, gap_at(long, 3), "xmax"@, at(nums, k + 1), false);
        keyed_is_tidy(long, gap_at(long, 3), "text"@, row.label, true);
        tidy_join(a, b);
        tidy_join(a + b, c);
        tidy_join(a + b + c, d);
    } else {
        let a = heading(long, gap_at(long, 2), "points"@, index_word(j + 1));
        let b = keyed(long, gap_at(long, 3), "number"@, at(nums, k), false);
        let c = keyed(long, gap_at(long, 3), "mark"@, row.label, true);
        heading_is_tidy(long, gap_at(long, 2), "points"@, index_word(j + 1));
        keyed_is_tidy(long, gap_at(long, 3), "number"@, at(nums, k), false);
        keyed_is_tidy(long, gap_at(long, 3), "mark"@, row.label, true);
        tidy_join(a, b);
        tidy_join(a + b, c);
    }
}


proof fn entries_are_tidy(
    rows: Seq<Row>,
    is_interval: bool,
    j: nat,
    nums: Seq<Seq<char>>,
    k: int,
    long: bool,
)
    requires
        all_words(nums),
        0 <= k,
        j <= rows.len(),
        k + span(is_interval, rows.len() - j) <= nums.len(),
    ensures
        tidy(entries_pieces(rows, is_interval, j, nums, k, long)),
    decreases rows.len() - j,
{
    if j < rows.len() {
        entry_is_tidy(rows[j as int], is_interval, j, nums, k, long);
        entries_are_tidy(rows, is_interval, j + 1, nums, k + width(is_interval), long);
        tidy_join(
            entry_pieces(rows[j as int], is_interval, j, nums, k, long),
            entries_pieces(rows, is_interval, j + 1, nums, k + width(is_interval), long),
        );
    }
}


proof fn tier_head_is_tidy(tier: TierView, t: nat, nums: Seq<Seq<char>>, k: int, long: bool)
    requires
        all_words(nums),
        0 <= k,
        k + 2 <= nums.len(),
    ensures
        tidy(tier_head(tier, t, nums, k, long)),
{
    head_words();
    tier_words();
    gaps_are_gaps();
    index_is_a_word(t + 1);
    digits_are_a_word(tier.rows.len());
    assert(is_word(nums[k]));
    assert(is_word(nums[k + 1]));
    let a = heading(long, gap_at(long, 1), "item"@, index_word(t + 1));
    let b = keyed(long, gap_at(long, 2), "class"@, class_name(tier.is_interval), true);
    let c = keyed(long, gap_at(long, 2), "name"@, tier.name, true);
    let d = keyed(long, gap_at(long, 2), "xmin"@, at(nums, k), false);
    let e = keyed(long, gap_at(long, 2), "xmax"@, at(nums, k + 1), false);
    let f = size_line(long, tier.is_interval, tier.rows.len());
    heading_is_tidy(long, gap_at(long, 1), "item"@, index_word(t + 1));
    keyed_is_tidy(long, gap_at(long, 2), "class"@, class_name(tier.is_interval), true);
    keyed_is_tidy(long, gap_at(long, 2), "name"@, tier.name, true);
    keyed_is_tidy(long, gap_at(long, 2), "xmin"@, at(nums, k), false);
    keyed_is_tidy(long, gap_at(long, 2), "xmax"@, at(nums, k + 1), false);
    assert(tidy(f));
    tidy_join(a, b);
    tidy_join(a + b, c);
    tidy_join(a + b + c, d);
    tidy_join(a + b + c + d, e);
    tidy_join(a + b + c + d + e, f);
}


proof fn tiers_are_tidy(tiers: Seq<TierView>, t: nat, nums: Seq<Seq<char>>, k: int, long: bool)
    requires
        all_words(nums),
        0 <= k,
        t <= tiers.len(),
        k + tiers_count(tiers, t) <= nums.len(),
    ensures
        tidy(tiers_pieces(tiers, t, nums, k, long)),
    decreases tiers.len() - t,
{
    if t < tiers.len() {
        let tier = tiers[t as int];
        tiers_count_nonneg(tiers, t + 1);
        tier_head_is_tidy(tier, t, nums, k, long);
        entries_are_tidy(tier.rows, tier.is_interval, 0, nums, k + 2, long);
        tiers_are_tidy(tiers, t + 1, nums, k + tier_count(tier), long);
        let a = tier_head(tier, t, nums, k, long);
        let b = entries_pieces(tier.rows, tier.is_interval, 0, nums, k + 2, long);
        let c = tiers_pieces(tiers, t + 1, nums, k + tier_count(tier), long);
        tidy_join(a, b);
        tidy_join(a + b, c);
    }
}

/// The pieces of a file are orderly where every numeral is a word.
pub proof fn pieces_are_orderly(g: GridView, nums: Seq<Seq<char>>, long: bool)
    requires
        all_words(nums),
        nums.len() == times(g).len(),
    ensures
        orderly(pieces(g, nums, long)),
{
    head_words();
    tier_words();
    gaps_are_gaps();
    tiers_times_len(g, 0);
    tiers_count_nonneg(g.tiers, 0);
    digits_are_a_word(g.tiers.len());
    assert(is_word(nums[0]));
    assert(is_word(nums[1]));
    let first = seq![plain(Seq::empty(), "File"@)];
    let a = seq![
        plain(" "@, "type"@),
        plain(" "@, "="@),
        Piece { gap: " "@, text: "ooTextFile"@, quoted: true },
        plain("\n"@, "Object"@),
        plain(" "@, "class"@),
        plain(" "@, "="@),
        Piece { gap: " "@, text: "TextGrid"@, quoted: true },
    ];
    let b = keyed(long, "\n\n"@, "xmin"@, at(nums, 0), false);
    let c = keyed(long, "\n"@, "xmax"@, at(nums, 1), false);
    let d = if long {
        seq![plain("\n"@, "tiers?"@), plain(" "@, "<exists>"@)]
    } else {
        seq![plain("\n"@, "<exists>"@)]
    };
    let e = keyed(long, "\n"@, "size"@, digits_of(g.tiers.len()), false);
    let f = heading(long, "\n"@, "item"@, "[]:"@);
    let rest = tiers_pieces(g.tiers, 0, nums, 2, long);
    assert(tidy(a));
    keyed_is_tidy(long, "\n\n"@, "xmin"@, at(nums, 0), false);
    keyed_is_tidy(long, "\n"@, "xmax"@, at(nums, 1), false);
    assert(tidy(d));
    keyed_is_tidy(long, "\n"@, "size"@, digits_of(g.tiers.len()), false);
    heading_is_tidy(long, "\n"@, "item"@, "[]:"@);
    tiers_are_tidy(g.tiers, 0, nums, 2, long);
    tidy_join(a, b);
    tidy_join(a + b, c);
    tidy_join(a + b + c, d);
    tidy_join(a + b + c + d, e);
    tidy_join(a + b + c + d + e, f);
    tidy_join(a + b + c + d + e + f, rest);
    let others = a + b + c + d + e + f + rest;
    let all = pieces(g, nums, long);
    assert(all =~= first + others);
    assert forall|i: int| 0 <= i < all.len() implies sound(#[trigger] all[i]) && (i > 0
        ==> all[i].gap.len() > 0) by {
        if i > 0 {
            assert(all[i] == others[i - 1]);
        } else {
            assert(all[0] == plain(Seq::empty(), "File"@));
        }
    }
}

/// The tokens of a written file say what its pieces say.
pub proof fn written_is_lexed(g: GridView, nums: Seq<Seq<char>>, long: bool)
    requires
        all_words(nums),
        nums.len() == times(g).len(),
    ensures
        lex(written(g, nums, long)) is Ok,
        say(lex(written(g, nums, long))->Ok_0, pieces(g, nums, long)),
{
    pieces_are_orderly(g, nums, long);
    gaps_are_gaps();
    lex_reads_pieces(pieces(g, nums, long), "\n"@);
}

/// Whether the items say what the pieces say, and each word among them
/// carries the number that `read` finds in it.
#[verifier::opaque]
pub open spec fn carries(its: Seq<Item>, ps: Seq<Piece>, read: spec_fn(Seq<char>) -> Option<u64>) -> bool {
    its.len() == ps.len() && forall|i: int|
        0 <= i < ps.len() ==> (#[trigger] its[i]).text == ps[i].text && its[i].quoted == ps[i].quoted
            && (!its[i].quoted ==> its[i].value == read(its[i].text))
}

/// Whether `s` begins with `p`.
#[verifier::opaque]
pub open spec fn begins(s: Seq<u64>, p: Seq<u64>) -> bool {
    p.len() <= s.len() && forall|i: int| 0 <= i < p.len() ==> s[i] == #[trigger] p[i]
}

/// Whether the numerals are as many as the times and `read` finds each time in its numeral.
#[verifier::opaque]
pub open spec fn reads(nums: Seq<Seq<char>>, ts: Seq<u64>, read: spec_fn(Seq<char>) -> Option<u64>) -> bool {
    nums.len() == ts.len() && forall|k: int|
        0 <= k < nums.len() ==> read(#[trigger] nums[k]) == Some(ts[k])
}


proof fn carries_first(its: Seq<Item>, p: Piece, qs: Seq<Piece>, read: spec_fn(Seq<char>) -> Option<u64>)
    requires
        carries(its, seq![p] + qs, read),
    ensures
        its.len() > 0,
        its[0].text == p.text,
        its[0].quoted == p.quoted,
        !p.quoted ==> its[0].value == read(p.text),
        carries(its.drop_first(), qs, read),
{
    reveal(carries);
    let all = seq![p] + qs;
    assert(all[0] == p);
    assert(its[0].text == all[0].text);
    assert forall|i: int| 0 <= i < qs.len() implies (#[trigger] its.drop_first()[i]).text == qs[i].text
        && its.drop_first()[i].quoted == qs[i].quoted && (!its.drop_first()[i].quoted
        ==> its.drop_first()[i].value == read(its.drop_first()[i].text)) by {
        assert(all[i + 1] == qs[i]);
        assert(its.drop_first()[i] == its[i + 1]);
    }
}

proof fn read_word(
    its: Seq<Item>,
    gap: Seq<char>,
    w: Seq<char>,
    qs: Seq<Piece>,
    read: spec_fn(Seq<char>) -> Option<u64>,
    end: usize,
) -> (rest: Seq<Item>)
    requires
        carries(its, seq![plain(gap, w)] + qs, read),
    ensures
        word(Ok(its), w, end) == Ok::<Seq<Item>, ParseError>(rest),
        carries(rest, qs, read),
{
    carries_first(its, plain(gap, w), qs, read);
    its.drop_first()
}

proof fn read_string(
    its: Seq<Item>,
    gap: Seq<char>,
    w: Seq<char>,
    qs: Seq<Piece>,
    read: spec_fn(Seq<char>) -> Option<u64>,
    end: usize,
) -> (rest: Seq<Item>)
    requires
        carries(its, seq![Piece { gap, text: w, quoted: true }] + qs, read),
    ensures
        string(Ok(its), w, end) == Ok::<Seq<Item>, ParseError>(rest),
        quoted_value(Ok(its)) == w,
        quoted(Ok(its), end) == Ok::<Seq<Item>, ParseError>(rest),
        carries(rest, qs, read),
{
    carries_first(its, Piece { gap, text: w, quoted: true }, qs, read);
    its.drop_first()
}


proof fn read_heading(
    its: Seq<Item>,
    long: bool,
    gap: Seq<char>,
    a: Seq<char>,
    b: Seq<char>,
    qs: Seq<Piece>,
    read: spec_fn(Seq<char>) -> Option<u64>,
    end: usize,
) -> (rest: Seq<Item>)
    requires
        carries(its, heading(long, gap, a, b) + qs, read),
    ensures
        key(key(Ok(its), long, a, end), long, b, end) == Ok::<Seq<Item>, ParseError>(rest),
        carries(rest, qs, read),
{
    if long {
        assert(heading(long, gap, a, b) + qs =~= seq![plain(gap, a)] + (seq![plain(" "@, b)] + qs));
        let i1 = read_word(its, gap, a, seq![plain(" "@, b)] + qs, read, end);
        read_word(i1, " "@, b, qs, read, end)
    } else {
        assert(heading(long, gap, a, b) + qs =~= qs);
        its
    }
}

/// Where the reading stands in front of a value, its key read.
pub open spec fn at_value(its: Seq<Item>, long: bool, k: Seq<char>, end: usize) -> State {
    key(key(Ok(its), long, k, end), long, "="@, end)
}


proof fn read_key(
    its: Seq<Item>,
    long: bool,
    gap: Seq<char>,
    k: Seq<char>,
    value: Seq<char>,
    quoted: bool,
    qs: Seq<Piece>,
    read: spec_fn(Seq<char>) -> Option<u64>,
    end: usize,
) -> (rest: Seq<Item>)
    requires
        carries(its, keyed(long, gap, k, value, quoted) + qs, read),
    ensures
        at_value(its, long, k, end) == Ok::<Seq<Item>, ParseError>(rest),
        rest.len() > 0,
        rest[0].text == value,
        rest[0].quoted == quoted,
        !quoted ==> rest[0].value == read(value),
        carries(rest.drop_first(), qs, read),
{
    if long {
        let v = Piece { gap: " "@, text: value, quoted };
        assert(keyed(long, gap, k, value, quoted) + qs =~= seq![plain(gap, k)] + (seq![
            plain(" "@, "="@),
        ] + (seq![v] + qs)));
        let i1 = read_word(its, gap, k, seq![plain(" "@, "="@)] + (seq![v] + qs), read, end);
        let i2 = read_word(i1, " "@, "="@, seq![v] + qs, read, end);
        carries_first(i2, v, qs, read);
        i2
    } else {
        let v = Piece { gap, text: value, quoted };
        assert(keyed(long, gap, k, value, quoted) + qs =~= seq![v] + qs);
        carries_first(its, v, qs, read);
        its
    }
}


proof fn read_number(
    its: Seq<Item>,
    long: bool,
    gap: Seq<char>,
    k: Seq<char>,
    numeral: Seq<char>,
    v: u64,
    qs: Seq<Piece>,
    read: spec_fn(Seq<char>) -> Option<u64>,
    end: usize,
) -> (rest: Seq<Item>)
    requires
        carries(its, keyed(long, gap, k, numeral, false) + qs, read),
        read(numeral) == Some(v),
    ensures
        number_value(at_value(its, long, k, end)) == v,
        number(at_value(its, long, k, end), end) == Ok::<Seq<Item>, ParseError>(rest),
        carries(rest, qs, read),
{
    let a = read_key(its, long, gap, k, numeral, false, qs, read, end);
    a.drop_first()
}


proof fn read_text(
    its: Seq<Item>,
    long: bool,
    gap: Seq<char>,
    k: Seq<char>,
    text: Seq<char>,
    qs: Seq<Piece>,
    read: spec_fn(Seq<char>) -> Option<u64>,
    end: usize,
) -> (rest: Seq<Item>)
    requires
        carries(its, keyed(long, gap, k, text, true) + qs, read),
    ensures
        quoted_value(at_value(its, long, k, end)) == text,
        quoted(at_value(its, long, k, end), end) == Ok::<Seq<Item>, ParseError>(rest),
        carries(rest, qs, read),
{
    let a = read_key(its, long, gap, k, text, true, qs, read, end);
    a.drop_first()
}


proof fn read_entry(
    its: Seq<Item>,
    row: Row,
    is_interval: bool,
    j: nat,
    nums: Seq<Seq<char>>,
    k: int,
    long: bool,
    qs: Seq<Piece>,
    read: spec_fn(Seq<char>) -> Option<u64>,
    end: usize,
) -> (rest: Seq<Item>)
    requires
        carries(its, entry_pieces(row, is_interval, j, nums, k, long) + qs, read),
        0 <= k,
        k + width(is_interval) <= nums.len(),
        read(nums[k]) == Some(row.tmin),
        is_interval ==> read(nums[k + 1]) == Some(row.tmax),
        !is_interval ==> row.tmin == row.tmax,
    ensures
        entry(Ok(its), long, is_interval, j, end) == (row, Ok::<Seq<Item>, ParseError>(rest)),
        carries(rest, qs, read),
{
    if is_interval {
        let h = heading(long, gap_at(long, 2), "intervals"@, index_word(j + 1));
        let a = keyed(long, gap_at(long, 3), "xmin"@, at(nums, k), false);
        let b = keyed(long, gap_at(long, 3), "xmax"@, at(nums, k + 1), false);
        let c = keyed(long, gap_at(long, 3), "text"@, row.label, true);
        assert(entry_pieces(row, is_interval, j, nums, k, long) + qs =~= h + (a + (b + (c + qs))));
        let i1 = read_heading(
            its,
            long,
            gap_at(long, 2),
            "intervals"@,
            index_word(j + 1),
            a + (b + (c + qs)),
            read,
            end,
        );
        let i2 = read_number(
            i1,
            long,
            gap_at(long, 3),
            "xmin"@,
            at(nums, k),
            row.tmin,
            b + (c + qs),
            read,
            end,
        );
        let i3 = read_number(
            i2,
            long,
            gap_at(long, 3),
            "xmax"@,
            at(nums, k + 1),
            row.tmax,
            c + qs,
            read,
            end,
        );
        let i4 = read_text(i3, long, gap_at(long, 3), "text"@, row.label, qs, read, end);
        i4
    } else {
        let h = heading(long, gap_at(long, 2), "points"@, index_word(j + 1));
        let a = keyed(long, gap_at(long, 3), "number"@, at(nums, k), false);
        let c = keyed(long, gap_at(long, 3), "mark"@, row.label, true);
        assert(entry_pieces(row, is_interval, j, nums, k, long) + qs =~= h + (a + (c + qs)));
        let i1 = read_heading(
            its,
            long,
            gap_at(long, 2),
            "points"@,
            index_word(j + 1),
            a + (c + qs),
            read,
            end,
        );
        let i2 = read_number(
            i1,
            long,
            gap_at(long, 3),
            "number"@,
            at(nums, k),
            row.tmin,
            c + qs,
            read,
            end,
        );
        let i3 = read_text(i2, long, gap_at(long, 3), "mark"@, row.label, qs, read, end);
        i3
    }
}


proof fn read_entries(
    its: Seq<Item>,
    rows: Seq<Row>,
    is_interval: bool,
    j: nat,
    nums: Seq<Seq<char>>,
    ts: Seq<u64>,
    k: int,
    long: bool,
    qs: Seq<Piece>,
    read: spec_fn(Seq<char>) -> Option<u64>,
    end: usize,
    acc: Seq<Row>,
) -> (rest: Seq<Item>)
    requires
        j <= rows.len(),
        carries(its, entries_pieces(rows, is_interval, j, nums, k, long) + qs, read),
        reads(nums, ts, read),
        0 <= k <= ts.len(),
        begins(ts.skip(k), rows_times(rows, is_interval, j)),
        !is_interval ==> forall|i: int| 0 <= i < rows.len() ==> (#[trigger] rows[i]).tmin == rows[i].tmax,
    ensures
        entries(Ok(its), long, is_interval, j, rows.len(), acc, end) == (
            acc + rows.skip(j as int),
            Ok::<Seq<Item>, ParseError>(rest),
        ),
        carries(rest, qs, read),
    decreases rows.len() - j,
{
    if j >= rows.len() {
        assert(entries_pieces(rows, is_interval, j, nums, k, long) + qs =~= qs);
        assert(acc + rows.skip(j as int) =~= acc);
        its
    } else {
        reveal(begins);
        reveal(reads);
        let row = rows[j as int];
        let w = width(is_interval);
        let one = entry_pieces(row, is_interval, j, nums, k, long);
        let more = entries_pieces(rows, is_interval, j + 1, nums, k + w, long);
        let here = rows_times(rows, is_interval, j);
        let later = rows_times(rows, is_interval, j + 1);
        assert(entries_pieces(rows, is_interval, j, nums, k, long) + qs =~= one + (more + qs));
        assert(here == row_times(row, is_interval) + later);
        rows_times_len(rows, is_interval, j);
        rows_times_len(rows, is_interval, j + 1);
        assert(here[0] == row.tmin);
        assert(ts.skip(k)[0] == here[0]);
        if is_interval {
            assert(here[1] == row.tmax);
            assert(ts.skip(k)[1] == here[1]);
        }
        assert(begins(ts.skip(k + w), later)) by {
            assert forall|i: int| 0 <= i < later.len() implies ts.skip(k + w)[i] == #[trigger] later[i] by {
                assert(here[i + w] == later[i]);
                assert(ts.skip(k)[i + w] == here[i + w]);
            }
        }
        let i1 = read_entry(its, row, is_interval, j, nums, k, long, more + qs, read, end);
        let rest = read_entries(
            i1,
            rows,
            is_interval,
            j + 1,
            nums,
            ts,
            k + w,
            long,
            qs,
            read,
            end,
            acc.push(row),
        );
        assert(acc.push(row) + rows.skip(j as int + 1) =~= acc + rows.skip(j as int));
        rest
    }
}


proof fn read_class(
    its: Seq<Item>,
    long: bool,
    gap: Seq<char>,
    is_interval: bool,
    qs: Seq<Piece>,
    read: spec_fn(Seq<char>) -> Option<u64>,
    end: usize,
) -> (rest: Seq<Item>)
    requires
        carries(its, keyed(long, gap, "class"@, class_name(is_interval), true) + qs, read),
    ensures
        class_value(at_value(its, long, "class"@, end)) == is_interval,
        class(at_value(its, long, "class"@, end), end) == Ok::<Seq<Item>, ParseError>(rest),
        carries(rest, qs, read),
{
    reveal_strlit("IntervalTier");
    reveal_strlit("TextTier");
    let a = read_key(its, long, gap, "class"@, class_name(is_interval), true, qs, read, end);
    assert("IntervalTier"@.len() != "TextTier"@.len());
    a.drop_first()
}


proof fn read_count(
    its: Seq<Item>,
    long: bool,
    gap: Seq<char>,
    k: Seq<char>,
    n: nat,
    qs: Seq<Piece>,
    read: spec_fn(Seq<char>) -> Option<u64>,
    end: usize,
) -> (rest: Seq<Item>)
    requires
        carries(its, keyed(long, gap, k, digits_of(n), false) + qs, read),
        n <= usize::MAX,
    ensures
        count_value(at_value(its, long, k, end)) == n,
        count(at_value(its, long, k, end), end) == Ok::<Seq<Item>, ParseError>(rest),
        carries(rest, qs, read),
{
    count_of_digits(n as usize);
    let a = read_key(its, long, gap, k, digits_of(n), false, qs, read, end);
    a.drop_first()
}

/// Where the reading stands in front of the number of entries of a tier.
pub open spec fn at_size(its: Seq<Item>, long: bool, is_interval: bool, end: usize) -> State {
    key(
        key(
            key(
                Ok(its),
                long,
                if is_interval {
                    "intervals:"@
                } else {
                    "points:"@
                },
                end,
            ),
            long,
            "size"@,
            end,
        ),
        long,
        "="@,
        end,
    )
}


proof fn read_size(
    its: Seq<Item>,
    long: bool,
    is_interval: bool,
    n: nat,
    qs: Seq<Piece>,
    read: spec_fn(Seq<char>) -> Option<u64>,
    end: usize,
) -> (rest: Seq<Item>)
    requires
        carries(its, size_line(long, is_interval, n) + qs, read),
        n <= usize::MAX,
    ensures
        count_value(at_size(its, long, is_interval, end)) == n,
        count(at_size(its, long, is_interval, end), end) == Ok::<Seq<Item>, ParseError>(rest),
        carries(rest, qs, read),
{
    count_of_digits(n as usize);
    let v = plain(
        if long {
            " "@
        } else {
            gap_at(long, 2)
        },
        digits_of(n),
    );
    if long {
        let kw = if is_interval {
            "intervals:"@
        } else {
            "points:"@
        };
        assert(size_line(long, is_interval, n) + qs =~= seq![plain(gap_at(long, 2), kw)] + (seq![
            plain(" "@, "size"@),
        ] + (seq![plain(" "@, "="@)] + (seq![v] + qs))));
        let i1 = read_word(
            its,
            gap_at(long, 2),
            kw,
            seq![plain(" "@, "size"@)] + (seq![plain(" "@, "="@)] + (seq![v] + qs)),
            read,
            end,
        );
        let i2 = read_word(i1, " "@, "size"@, seq![plain(" "@, "="@)] + (seq![v] + qs), read, end);
        let i3 = read_word(i2, " "@, "="@, seq![v] + qs, read, end);
        carries_first(i3, v, qs, read);
        i3.drop_first()
    } else {
        assert(size_line(long, is_interval, n) + qs =~= seq![v] + qs);
        carries_first(its, v, qs, read);
        its.drop_first()
    }
}

/// Whether the TextGrid can be held: it has no more tiers, and no tier more
/// entries, than the machine word counts.
pub open spec fn fits(g: GridView) -> bool {
    &&& g.tiers.len() <= usize::MAX
    &&& forall|t: int| 0 <= t < g.tiers.len() ==> (#[trigger] g.tiers[t]).rows.len() <= usize::MAX
}


proof fn read_tier_name(
    its: Seq<Item>,
    long: bool,
    t: nat,
    is_interval: bool,
    name: Seq<char>,
    qs: Seq<Piece>,
    read: spec_fn(Seq<char>) -> Option<u64>,
    end: usize,
) -> (rest: Seq<Item>)
    requires
        carries(
            its,
            heading(long, gap_at(long, 1), "item"@, index_word(t + 1)) + (keyed(
                long,
                gap_at(long, 2),
                "class"@,
                class_name(is_interval),
                true,
            ) + (keyed(long, gap_at(long, 2), "name"@, name, true) + qs)),
            read,
        ),
    ensures
        class_value(tier_class(Ok(its), long, t, end)) == is_interval,
        quoted_value(tier_name(Ok(its), long, t, end)) == name,
        quoted(tier_name(Ok(its), long, t, end), end) == Ok::<Seq<Item>, ParseError>(rest),
        carries(rest, qs, read),
{
    let b = keyed(long, gap_at(long, 2), "name"@, name, true);
    let i1 = read_heading(
        its,
        long,
        gap_at(long, 1),
        "item"@,
        index_word(t + 1),
        keyed(long, gap_at(long, 2), "class"@, class_name(is_interval), true) + (b + qs),
        read,
        end,
    );
    assert(tier_class(Ok(its), long, t, end) == at_value(i1, long, "class"@, end));
    let i2 = read_class(i1, long, gap_at(long, 2), is_interval, b + qs, read, end);
    assert(tier_name(Ok(its), long, t, end) == at_value(i2, long, "name"@, end));
    read_text(i2, long, gap_at(long, 2), "name"@, name, qs, read, end)
}

/// Where the reading stands in front of the number of entries of a tier, its name read.
pub open spec fn past_name(its: Seq<Item>, long: bool, is_interval: bool, end: usize) -> State {
    let e = number(at_value(its, long, "xmin"@, end), end);
    let f = number(at_value_of(e, long, "xmax"@, end), end);
    at_value_of(
        key(
            f,
            long,
            if is_interval {
                "intervals:"@
            } else {
                "points:"@
            },
            end,
        ),
        long,
        "size"@,
        end,
    )
}


proof fn read_tier_size(
    its: Seq<Item>,
    long: bool,
    is_interval: bool,
    first: Seq<char>,
    last: Seq<char>,
    n: nat,
    qs: Seq<Piece>,
    read: spec_fn(Seq<char>) -> Option<u64>,
    end: usize,
) -> (rest: Seq<Item>)
    requires
        carries(
            its,
            keyed(long, gap_at(long, 2), "xmin"@, first, false) + (keyed(
                long,
                gap_at(long, 2),
                "xmax"@,
                last,
                false,
            ) + (size_line(long, is_interval, n) + qs)),
            read,
        ),
        read(first) is Some,
        read(last) is Some,
        n <= usize::MAX,
    ensures
        count_value(past_name(its, long, is_interval, end)) == n,
        count(past_name(its, long, is_interval, end), end) == Ok::<Seq<Item>, ParseError>(rest),
        carries(rest, qs, read),
{
    let e = size_line(long, is_interval, n);
    let i4 = read_number(
        its,
        long,
        gap_at(long, 2),
        "xmin"@,
        first,
        read(first)->0,
        keyed(long, gap_at(long, 2), "xmax"@, last, false) + (e + qs),
        read,
        end,
    );
    let i5 = read_number(i4, long, gap_at(long, 2), "xmax"@, last, read(last)->0, e + qs, read, end);
    assert(past_name(its, long, is_interval, end) == at_size(i5, long, is_interval, end));
    read_size(i5, long, is_interval, n, qs, read, end)
}


proof fn tier_pieces_in_order(
    one: TierView,
    t: nat,
    nums: Seq<Seq<char>>,
    k: int,
    long: bool,
    qs: Seq<Piece>,
)
    ensures
        tier_head(one, t, nums, k, long) + entries_pieces(
            one.rows,
            one.is_interval,
            0,
            nums,
            k + 2,
            long,
        ) + qs == heading(long, gap_at(long, 1), "item"@, index_word(t + 1)) + (keyed(
            long,
            gap_at(long, 2),
            "class"@,
            class_name(one.is_interval),
            true,
        ) + (keyed(long, gap_at(long, 2), "name"@, one.name, true) + (keyed(
            long,
            gap_at(long, 2),
            "xmin"@,
            at(nums, k),
            false,
        ) + (keyed(long, gap_at(long, 2), "xmax"@, at(nums, k + 1), false) + (size_line(
            long,
            one.is_interval,
            one.rows.len(),
        ) + (entries_pieces(one.rows, one.is_interval, 0, nums, k + 2, long) + qs)))))),
{
    let h = heading(long, gap_at(long, 1), "item"@, index_word(t + 1));
    let a = keyed(long, gap_at(long, 2), "class"@, class_name(one.is_interval), true);
    let b = keyed(long, gap_at(long, 2), "name"@, one.name, true);
    let c = keyed(long, gap_at(long, 2), "xmin"@, at(nums, k), false);
    let d = keyed(long, gap_at(long, 2), "xmax"@, at(nums, k + 1), false);
    let e = size_line(long, one.is_interval, one.rows.len());
    let f = entries_pieces(one.rows, one.is_interval, 0, nums, k + 2, long);
    assert(tier_head(one, t, nums, k, long) =~= h + a + b + c + d + e);
    assert(tier_head(one, t, nums, k, long) + f + qs =~= h + (a + (b + (c + (d + (e + (f + qs)))))));
}

proof fn read_tier(
    its: Seq<Item>,
    one: TierView,
    t: nat,
    nums: Seq<Seq<char>>,
    ts: Seq<u64>,
    k: int,
    long: bool,
    qs: Seq<Piece>,
    read: spec_fn(Seq<char>) -> Option<u64>,
    end: usize,
) -> (rest: Seq<Item>)
    requires
        carries(
            its,
            tier_head(one, t, nums, k, long) + entries_pieces(
                one.rows,
                one.is_interval,
                0,
                nums,
                k + 2,
                long,
            ) + qs,
            read,
        ),
        reads(nums, ts, read),
        0 <= k,
        k + 2 <= ts.len(),
        begins(ts.skip(k + 2), rows_times(one.rows, one.is_interval, 0)),
        one.well_formed(),
        one.rows.len() <= usize::MAX,
    ensures
        tier(Ok(its), long, t, end) == (one, Ok::<Seq<Item>, ParseError>(rest)),
        carries(rest, qs, read),
{
    let kind = one.is_interval;
    assert(nums.len() == ts.len() && read(nums[k]) is Some && read(nums[k + 1]) is Some) by {
        reveal(reads);
    }
    let c = keyed(long, gap_at(long, 2), "xmin"@, at(nums, k), false);
    let d = keyed(long, gap_at(long, 2), "xmax"@, at(nums, k + 1), false);
    let e = size_line(long, kind, one.rows.len());
    let f = entries_pieces(one.rows, kind, 0, nums, k + 2, long);
    tier_pieces_in_order(one, t, nums, k, long, qs);
    let i3 = read_tier_name(its, long, t, kind, one.name, c + (d + (e + (f + qs))), read, end);
    assert(tier_size(Ok(its), long, t, end) == past_name(i3, long, kind, end));
    let i6 = read_tier_size(
        i3,
        long,
        kind,
        at(nums, k),
        at(nums, k + 1),
        one.rows.len(),
        f + qs,
        read,
        end,
    );
    let rest = read_entries(
        i6,
        one.rows,
        kind,
        0,
        nums,
        ts,
        k + 2,
        long,
        qs,
        read,
        end,
        Seq::empty(),
    );
    assert(Seq::<Row>::empty() + one.rows.skip(0) =~= one.rows);
    rest
}


proof fn tier_times_split(g: GridView, t: nat, ts: Seq<u64>, k: int)
    requires
        t < g.tiers.len(),
        0 <= k <= ts.len(),
        begins(ts.skip(k), tiers_times(g, t)),
    ensures
        k + tier_count(g.tiers[t as int]) <= ts.len(),
        begins(ts.skip(k + 2), rows_times(g.tiers[t as int].rows, g.tiers[t as int].is_interval, 0)),
        begins(ts.skip(k + tier_count(g.tiers[t as int])), tiers_times(g, t + 1)),
{
    reveal(begins);
    let one = g.tiers[t as int];
    let mine = rows_times(one.rows, one.is_interval, 0);
    let later = tiers_times(g, t + 1);
    let here = tiers_times(g, t);
    assert(here == seq![g.tmin, g.tmax] + mine + later);
    rows_times_len(one.rows, one.is_interval, 0);
    assert(mine.len() == tier_count(one) - 2);
    assert forall|i: int| 0 <= i < mine.len() implies ts.skip(k + 2)[i] == #[trigger] mine[i] by {
        assert(here[i + 2] == mine[i]);
        assert(ts.skip(k)[i + 2] == here[i + 2]);
    }
    assert forall|i: int| 0 <= i < later.len() implies ts.skip(k + tier_count(one))[i]
        == #[trigger] later[i] by {
        assert(here[i + tier_count(one)] == later[i]);
        assert(ts.skip(k)[i + tier_count(one)] == here[i + tier_count(one)]);
    }
}


proof fn read_tiers(
    its: Seq<Item>,
    g: GridView,
    t: nat,
    nums: Seq<Seq<char>>,
    ts: Seq<u64>,
    k: int,
    long: bool,
    qs: Seq<Piece>,
    read: spec_fn(Seq<char>) -> Option<u64>,
    end: usize,
    acc: Seq<TierView>,
) -> (rest: Seq<Item>)
    requires
        t <= g.tiers.len(),
        carries(its, tiers_pieces(g.tiers, t, nums, k, long) + qs, read),
        reads(nums, ts, read),
        0 <= k <= ts.len(),
        begins(ts.skip(k), tiers_times(g, t)),
        g.well_formed(),
        fits(g),
    ensures
        tiers(Ok(its), long, t, g.tiers.len(), acc, end) == (
            acc + g.tiers.skip(t as int),
            Ok::<Seq<Item>, ParseError>(rest),
        ),
        carries(rest, qs, read),
    decreases g.tiers.len() - t,
{
    if t >= g.tiers.len() {
        assert(tiers_pieces(g.tiers, t, nums, k, long) + qs =~= qs);
        assert(acc + g.tiers.skip(t as int) =~= acc);
        its
    } else {
        let one = g.tiers[t as int];
        let head = tier_head(one, t, nums, k, long);
        let body = entries_pieces(one.rows, one.is_interval, 0, nums, k + 2, long);
        let more = tiers_pieces(g.tiers, t + 1, nums, k + tier_count(one), long);
        assert(tiers_pieces(g.tiers, t, nums, k, long) + qs =~= head + body + (more + qs));
        tier_times_split(g, t, ts, k);
        assert(one.well_formed());
        let i1 = read_tier(its, one, t, nums, ts, k, long, more + qs, read, end);
        let rest = read_tiers(
            i1,
            g,
            t + 1,
            nums,
            ts,
            k + tier_count(one),
            long,
            qs,
            read,
            end,
            acc.push(one),
        );
        assert(acc.push(one) + g.tiers.skip(t as int + 1) =~= acc + g.tiers.skip(t as int));
        rest
    }
}

/// The pieces of the two lines that every file begins with.
pub open spec fn header() -> Seq<Piece> {
    seq![
        plain(Seq::empty(), "File"@),
        plain(" "@, "type"@),
        plain(" "@, "="@),
        Piece { gap: " "@, text: "ooTextFile"@, quoted: true },
        plain("\n"@, "Object"@),
        plain(" "@, "class"@),
        plain(" "@, "="@),
        Piece { gap: " "@, text: "TextGrid"@, quoted: true },
    ]
}

/// Where the reading stands behind the two lines that every file begins with.
pub open spec fn past_header(r: State, end: usize) -> State {
    let a = string(word(word(word(r, "File"@, end), "type"@, end), "="@, end), "ooTextFile"@, end);
    string(word(word(word(a, "Object"@, end), "class"@, end), "="@, end), "TextGrid"@, end)
}


proof fn read_header(
    its: Seq<Item>,
    body: Seq<Piece>,
    read: spec_fn(Seq<char>) -> Option<u64>,
    end: usize,
) -> (rest: Seq<Item>)
    requires
        carries(its, header() + body, read),
    ensures
        past_header(Ok(its), end) == Ok::<Seq<Item>, ParseError>(rest),
        carries(rest, body, read),
{
    let w1 = plain(Seq::empty(), "File"@);
    let w2 = plain(" "@, "type"@);
    let w3 = plain(" "@, "="@);
    let w4 = Piece { gap: " "@, text: "ooTextFile"@, quoted: true };
    let w5 = plain("\n"@, "Object"@);
    let w6 = plain(" "@, "class"@);
    let w7 = plain(" "@, "="@);
    let w8 = Piece { gap: " "@, text: "TextGrid"@, quoted: true };
    let q8 = seq![w8] + body;
    let q7 = seq![w7] + q8;
    let q6 = seq![w6] + q7;
    let q5 = seq![w5] + q6;
    let q4 = seq![w4] + q5;
    let q3 = seq![w3] + q4;
    let q2 = seq![w2] + q3;
    assert(header() + body =~= seq![w1] + q2);
    let i1 = read_word(its, Seq::empty(), "File"@, q2, read, end);
    let i2 = read_word(i1, " "@, "type"@, q3, read, end);
    let i3 = read_word(i2, " "@, "="@, q4, read, end);
    let i4 = read_string(i3, " "@, "ooTextFile"@, q5, read, end);
    let i5 = read_word(i4, "\n"@, "Object"@, q6, read, end);
    let i6 = read_word(i5, " "@, "class"@, q7, read, end);
    let i7 = read_word(i6, " "@, "="@, q8, read, end);
    read_string(i7, " "@, "TextGrid"@, body, read, end)
}


proof fn read_domain(
    its: Seq<Item>,
    long: bool,
    first: Seq<char>,
    last: Seq<char>,
    tmin: u64,
    tmax: u64,
    qs: Seq<Piece>,
    read: spec_fn(Seq<char>) -> Option<u64>,
    end: usize,
) -> (rest: Seq<Item>)
    requires
        carries(
            its,
            header() + (keyed(long, "\n\n"@, "xmin"@, first, false) + (keyed(
                long,
                "\n"@,
                "xmax"@,
                last,
                false,
            ) + qs)),
            read,
        ),
        read(first) == Some(tmin),
        read(last) == Some(tmax),
    ensures
        number_value(grid_tmin(Ok(its), long, end)) == tmin,
        number_value(grid_tmax(Ok(its), long, end)) == tmax,
        number(grid_tmax(Ok(its), long, end), end) == Ok::<Seq<Item>, ParseError>(rest),
        carries(rest, qs, read),
{
    let b = keyed(long, "\n"@, "xmax"@, last, false);
    let i8 = read_header(its, keyed(long, "\n\n"@, "xmin"@, first, false) + (b + qs), read, end);
    assert(grid_tmin(Ok(its), long, end) == at_value(i8, long, "xmin"@, end));
    let i9 = read_number(i8, long, "\n\n"@, "xmin"@, first, tmin, b + qs, read, end);
    assert(grid_tmax(Ok(its), long, end) == at_value(i9, long, "xmax"@, end));
    read_number(i9, long, "\n"@, "xmax"@, last, tmax, qs, read, end)
}

/// The pieces of the line that says that there are tiers.
pub open spec fn exists_line(long: bool) -> Seq<Piece> {
    if long {
        seq![plain("\n"@, "tiers?"@), plain(" "@, "<exists>"@)]
    } else {
        seq![plain("\n"@, "<exists>"@)]
    }
}

/// Where the reading stands in front of the number of tiers, the time domain read.
pub open spec fn at_count(its: Seq<Item>, long: bool, end: usize) -> State {
    at_value_of(word(key(Ok(its), long, "tiers?"@, end), "<exists>"@, end), long, "size"@, end)
}

/// Where the reading stands in front of a value, its key read.
pub open spec fn at_value_of(r: State, long: bool, k: Seq<char>, end: usize) -> State {
    key(key(r, long, k, end), long, "="@, end)
}


proof fn read_exists(
    its: Seq<Item>,
    long: bool,
    qs: Seq<Piece>,
    read: spec_fn(Seq<char>) -> Option<u64>,
    end: usize,
) -> (rest: Seq<Item>)
    requires
        carries(its, exists_line(long) + qs, read),
    ensures
        word(key(Ok(its), long, "tiers?"@, end), "<exists>"@, end) == Ok::<Seq<Item>, ParseError>(rest),
        carries(rest, qs, read),
{
    if long {
        assert(exists_line(long) + qs =~= seq![plain("\n"@, "tiers?"@)] + (seq![
            plain(" "@, "<exists>"@),
        ] + qs));
        let x = read_word(its, "\n"@, "tiers?"@, seq![plain(" "@, "<exists>"@)] + qs, read, end);
        read_word(x, " "@, "<exists>"@, qs, read, end)
    } else {
        assert(exists_line(long) + qs =~= seq![plain("\n"@, "<exists>"@)] + qs);
        read_word(its, "\n"@, "<exists>"@, qs, read, end)
    }
}


proof fn read_sizes(
    its: Seq<Item>,
    long: bool,
    n: nat,
    qs: Seq<Piece>,
    read: spec_fn(Seq<char>) -> Option<u64>,
    end: usize,
) -> (rest: Seq<Item>)
    requires
        carries(
            its,
            exists_line(long) + (keyed(long, "\n"@, "size"@, digits_of(n), false) + (heading(
                long,
                "\n"@,
                "item"@,
                "[]:"@,
            ) + qs)),
            read,
        ),
        n <= usize::MAX,
    ensures
        count_value(at_count(its, long, end)) == n,
        key(key(count(at_count(its, long, end), end), long, "item"@, end), long, "[]:"@, end) == Ok::<
            Seq<Item>,
            ParseError,
        >(rest),
        carries(rest, qs, read),
{
    let e = heading(long, "\n"@, "item"@, "[]:"@);
    let i1 = read_exists(its, long, keyed(long, "\n"@, "size"@, digits_of(n), false) + (e + qs), read, end);
    assert(at_count(its, long, end) == at_value(i1, long, "size"@, end));
    let i2 = read_count(i1, long, "\n"@, "size"@, n, e + qs, read, end);
    read_heading(i2, long, "\n"@, "item"@, "[]:"@, qs, read, end)
}


proof fn pieces_in_order(g: GridView, nums: Seq<Seq<char>>, long: bool)
    ensures
        pieces(g, nums, long) == header() + (keyed(long, "\n\n"@, "xmin"@, at(nums, 0), false) + (keyed(
            long,
            "\n"@,
            "xmax"@,
            at(nums, 1),
            false,
        ) + (exists_line(long) + (keyed(long, "\n"@, "size"@, digits_of(g.tiers.len()), false) + (
        heading(long, "\n"@, "item"@, "[]:"@) + (tiers_pieces(g.tiers, 0, nums, 2, long) + Seq::<
            Piece,
        >::empty())))))),
{
    let a = keyed(long, "\n\n"@, "xmin"@, at(nums, 0), false);
    let b = keyed(long, "\n"@, "xmax"@, at(nums, 1), false);
    let c = exists_line(long);
    let d = keyed(long, "\n"@, "size"@, digits_of(g.tiers.len()), false);
    let e = heading(long, "\n"@, "item"@, "[]:"@);
    let f = tiers_pieces(g.tiers, 0, nums, 2, long);
    assert(grid_head(g, nums, long) =~= header() + a + b + c + d + e);
    assert(pieces(g, nums, long) =~= header() + (a + (b + (c + (d + (e + (f + Seq::<Piece>::empty())))))));
}


proof fn times_begin(g: GridView)
    ensures
        times(g).len() >= 2,
        times(g)[0] == g.tmin,
        times(g)[1] == g.tmax,
        begins(times(g).skip(2), tiers_times(g, 0)),
{
    reveal(begins);
    let ts = times(g);
    assert forall|i: int| 0 <= i < tiers_times(g, 0).len() implies ts.skip(2)[i]
        == #[trigger] tiers_times(g, 0)[i] by {
        assert(ts[i + 2] == tiers_times(g, 0)[i]);
    }
}

/// The reader finds in what carries the pieces of a file the time domain and
/// the tiers that the file was written from, and comes to its end.
pub proof fn pieces_are_read(
    its: Seq<Item>,
    g: GridView,
    nums: Seq<Seq<char>>,
    long: bool,
    read: spec_fn(Seq<char>) -> Option<u64>,
    end: usize,
)
    requires
        carries(its, pieces(g, nums, long), read),
        reads(nums, times(g), read),
        g.well_formed(),
        fits(g),
    ensures
        document(Ok(its), long, end).state is Ok,
        document(Ok(its), long, end).tmin == g.tmin,
        document(Ok(its), long, end).tmax == g.tmax,
        document(Ok(its), long, end).tiers == g.tiers,
{
    let ts = times(g);
    let none = Seq::<Piece>::empty();
    let c = exists_line(long);
    let d = keyed(long, "\n"@, "size"@, digits_of(g.tiers.len()), false);
    let e = heading(long, "\n"@, "item"@, "[]:"@);
    let f = tiers_pieces(g.tiers, 0, nums, 2, long);
    pieces_in_order(g, nums, long);
    times_begin(g);
    assert(nums.len() == ts.len() && read(nums[0]) == Some(ts[0]) && read(nums[1]) == Some(ts[1])) by {
        reveal(reads);
    }
    let i10 = read_domain(
        its,
        long,
        at(nums, 0),
        at(nums, 1),
        g.tmin,
        g.tmax,
        c + (d + (e + (f + none))),
        read,
        end,
    );
    assert(grid_size(Ok(its), long, end) == at_count(i10, long, end));
    let i13 = read_sizes(i10, long, g.tiers.len(), f + none, read, end);
    let rest = read_tiers(i13, g, 0, nums, ts, 2, long, none, read, end, Seq::empty());
    assert(Seq::<TierView>::empty() + g.tiers.skip(0) =~= g.tiers);
    assert(rest.len() == 0) by {
        reveal(carries);
    }
    assert(finish(Ok(rest), end) is Ok);
}

/// A TextGrid as it is held fits the machine word.
pub proof fn held_grid_fits(grid: TextGrid)
    ensures
        fits(grid@),
{
    let g = grid@;
    assert(g.tiers.len() == grid.tiers.len());
    assert forall|t: int| 0 <= t < g.tiers.len() implies (#[trigger] g.tiers[t]).rows.len()
        <= usize::MAX by {
        match grid.tiers@[t].entries {
            Entries::Intervals(v) => {
                assert(interval_rows(v@).len() == v.len());
            },
            Entries::Points(v) => {
                assert(point_rows(v@).len() == v.len());
            },
        }
    }
}

/// A valid TextGrid that is written as a file and read back comes back as it
/// was, under the name that a read TextGrid gets, provided that each of its
/// times is read back from the numeral that writes it.
///
/// `numerals` are the words that write the times; `read` says which number a
/// word writes; `its` are the tokens of the written file, each word with the
/// number that `read` finds in it.
pub proof fn text_round_trip(
    grid: TextGrid,
    long: bool,
    strict: bool,
    file_type: Seq<char>,
    numerals: Seq<Seq<char>>,
    read: spec_fn(Seq<char>) -> Option<u64>,
    its: Seq<Item>,
    end: usize,
)
    requires
        grid@.valid(strict),
        file_kind(file_type) == Some(long),
        all_words(numerals),
        reads(numerals, times(grid@), read),
        lex(written(grid@, numerals, long)) matches Ok(xs) ==> its.len() == xs.len() && forall|i: int|
            0 <= i < xs.len() ==> (#[trigger] its[i]).text == xs[i].text && its[i].quoted
                == xs[i].quoted && (!its[i].quoted ==> its[i].value == read(its[i].text)),
    ensures
        lex(written(grid@, numerals, long)) is Ok,
        parse_items(its, end, strict, file_type) == Ok::<GridView, TextGridError>(
            GridView { name: default_name(), ..grid@ },
        ),
{
    let g = grid@;
    assert(numerals.len() == times(g).len()) by {
        reveal(reads);
    }
    written_is_lexed(g, numerals, long);
    let xs = lex(written(g, numerals, long))->Ok_0;
    let ps = pieces(g, numerals, long);
    assert(carries(its, ps, read)) by {
        reveal(carries);
        assert forall|i: int| 0 <= i < ps.len() implies (#[trigger] its[i]).text == ps[i].text
            && its[i].quoted == ps[i].quoted && (!its[i].quoted ==> its[i].value == read(
            its[i].text,
        )) by {
            assert(xs[i].text == ps[i].text);
        }
    }
    grid_model_is_well_formed(grid);
    held_grid_fits(grid);
    pieces_are_read(its, g, numerals, long, read, end);
    let back = GridView { name: default_name(), ..g };
    points_are_points(back);
    valid_means_every_rule(g, strict);
    valid_means_every_rule(back, strict);
    assert(back.keeps_every_rule(strict)) by {
        assert forall|t: int, i: int|
            0 <= t < back.tiers.len() && 0 <= i < back.tiers[t].rows.len() implies (
        #[trigger] back.tiers[t].rule_at(i, back.tmin, back.tmax, strict)) is None by {
            assert(g.tiers[t].rule_at(i, g.tmin, g.tmax, strict) is None);
        }
    }
}

} // verus!
