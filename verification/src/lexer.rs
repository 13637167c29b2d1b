//! The words of a TextGrid file.
//!
//! A file is read as a run of tokens. A token is either a quoted string, in
//! which a doubled quote stands for one quote and which may run over several
//! lines, or a word: a run of characters that are neither blank nor a quote.
//! Blanks between tokens carry no meaning.

use vstd::prelude::*;
use crate::error::{Expected, ParseError};
use crate::text::{chars_of, string_of};

verus! {

/// Whether `c` is blank: a space, a tab, or the end of a line.
pub open spec fn is_space(c: char) -> bool {
    c == ' ' || c == '\t' || c == '\n' || c == '\r'
}

/// A token as the text gives it: what it says, whether it stood in quotes,
/// and how many characters of the text were left when it began, its own
/// included.
pub struct Lexeme {
    pub text: Seq<char>,
    pub quoted: bool,
    pub rest: nat,
}

/// A token with the line on which it begins, counted from one.
#[derive(Debug, Clone, PartialEq, Eq)]
pub struct Token {
    pub text: String,
    pub quoted: bool,
    pub line: usize,
}

/// The length of the word that `s` begins with.
pub open spec fn word_len(s: Seq<char>) -> nat
    decreases s.len(),
{
    if s.len() == 0 || is_space(s[0]) || s[0] == '"' {
        0
    } else {
        1 + word_len(s.drop_first())
    }
}

/// What a quoted string says, `s` being what follows its opening quote, and
/// how many characters it takes up to and with its closing quote. A doubled
/// quote says one quote; a single one closes the string.
pub open spec fn quoted_body(s: Seq<char>) -> Option<(Seq<char>, nat)>
    decreases s.len(),
{
    if s.len() == 0 {
        None
    } else if s[0] == '"' {
        if s.len() >= 2 && s[1] == '"' {
            match quoted_body(s.skip(2)) {
                Some((c, n)) => Some((seq!['"'] + c, n + 2)),
                None => None,
            }
        } else {
            Some((Seq::empty(), 1))
        }
    } else {
        match quoted_body(s.drop_first()) {
            Some((c, n)) => Some((seq![s[0]] + c, n + 1)),
            None => None,
        }
    }
}

/// `tail` with `first` in front of it.
pub open spec fn after_one(first: Lexeme, tail: Result<Seq<Lexeme>, nat>) -> Result<
    Seq<Lexeme>,
    nat,
> {
    match tail {
        Ok(t) => Ok(seq![first] + t),
        Err(e) => Err(e),
    }
}

/// The tokens of `s`, or, where a quoted string never ends, how many
/// characters were left when it began. The tests of a token's length make
/// sure that what is left gets shorter with each token.
pub open spec fn lex(s: Seq<char>) -> Result<Seq<Lexeme>, nat>
    decreases s.len(),
{
    if s.len() == 0 {
        Ok(Seq::empty())
    } else if is_space(s[0]) {
        lex(s.drop_first())
    } else if s[0] == '"' {
        match quoted_body(s.drop_first()) {
            None => Err(s.len()),
            Some((c, n)) => if 1 + n <= s.len() {
                after_one(Lexeme { text: c, quoted: true, rest: s.len() }, lex(s.skip(1 + n as int)))
            } else {
                Err(s.len())
            },
        }
    } else {
        let n = word_len(s);
        if 1 <= n <= s.len() {
            after_one(Lexeme { text: s.take(n as int), quoted: false, rest: s.len() }, lex(s.skip(n as int)))
        } else {
            Err(s.len())
        }
    }
}

/// How many lines end in `s`.
pub open spec fn newlines(s: Seq<char>) -> nat
    decreases s.len(),
{
    if s.len() == 0 {
        0
    } else {
        newlines(s.drop_last()) + if s.last() == '\n' {
            1nat
        } else {
            0nat
        }
    }
}

/// The line, counted from one, on which the character at `pos` stands.
pub open spec fn line_of(text: Seq<char>, pos: int) -> nat {
    1 + newlines(text.take(pos))
}

/// The token that a lexeme of `text` is.
pub open spec fn token_of(text: Seq<char>, x: Lexeme) -> (Seq<char>, bool, nat) {
    (x.text, x.quoted, line_of(text, text.len() - x.rest))
}

/// What a token says, whether it stood in quotes, and its line.
pub open spec fn token_model(t: Token) -> (Seq<char>, bool, nat) {
    (t.text@, t.quoted, t.line as nat)
}

/// The tokens of `text` as `lex_text` gives them.
pub open spec fn tokens_of(text: Seq<char>) -> Result<Seq<(Seq<char>, bool, nat)>, ParseError> {
    match lex(text) {
        Ok(xs) => Ok(Seq::new(xs.len(), |i: int| token_of(text, xs[i]))),
        Err(rest) => Err(
            ParseError {
                line: line_of(text, text.len() - rest) as usize,
                expected: Expected::ClosingQuote,
            },
        ),
    }
}

/// The models of a list of tokens.
pub open spec fn token_models(v: Seq<Token>) -> Seq<(Seq<char>, bool, nat)> {
    Seq::new(v.len(), |i: int| token_model(v[i]))
}

spec fn after(done: Seq<Lexeme>, tail: Result<Seq<Lexeme>, nat>) -> Result<Seq<Lexeme>, nat> {
    match tail {
        Ok(t) => Ok(done + t),
        Err(e) => Err(e),
    }
}

spec fn body_after(acc: Seq<char>, taken: nat, tail: Option<(Seq<char>, nat)>) -> Option<
    (Seq<char>, nat),
> {
    match tail {
        Some((c, n)) => Some((acc + c, taken + n)),
        None => None,
    }
}

proof fn newlines_step(text: Seq<char>, pos: int)
    requires
        0 <= pos < text.len(),
    ensures
        newlines(text.take(pos + 1)) == newlines(text.take(pos)) + if text[pos] == '\n' {
            1nat
        } else {
            0nat
        },
        newlines(text.take(pos)) <= pos,
    decreases pos,
{
    assert(text.take(pos + 1).drop_last() =~= text.take(pos));
    if pos > 0 {
        newlines_step(text, pos - 1);
    }
}

/// Splits `text` into its tokens, each with the line on which it begins. A
/// quoted string that never ends is reported with the line on which it begins.
pub fn lex_text(text: &str) -> (r: Result<Vec<Token>, ParseError>)
    ensures
        match tokens_of(text@) {
            Ok(ts) => r matches Ok(v) && token_models(v@) == ts,
            Err(e) => r == Err::<Vec<Token>, ParseError>(e),
        },
{
    let chars = chars_of(text);
    let ghost s = chars@;
    let n: usize = chars.len();
    let mut toks: Vec<Token> = Vec::new();
    let ghost mut done: Seq<Lexeme> = Seq::empty();
    let mut pos: usize = 0;
    let mut breaks: usize = 0;
    proof {
        assert(s.skip(0) =~= s);
        assert(s.take(0) =~= Seq::<char>::empty());
        let all = lex(s);
        if all is Ok {
            assert(done + all->Ok_0 =~= all->Ok_0);
        }
    }
    while pos < n
        invariant
            s == chars@,
            s == text@,
            n == s.len(),
            pos <= n,
            breaks == newlines(s.take(pos as int)),
            breaks <= pos,
            lex(s) == after(done, lex(s.skip(pos as int))),
            toks@.len() == done.len(),
            forall|i: int| 0 <= i < done.len() ==> token_model(#[trigger] toks@[i]) == token_of(s, done[i]),
        decreases n - pos,
    {
        let c: char = chars[pos];
        let ghost here = s.skip(pos as int);
        proof {
            newlines_step(s, pos as int);
            assert(here.drop_first() =~= s.skip(pos + 1));
            assert(here[0] == c);
        }
        if c == ' ' || c == '\t' || c == '\n' || c == '\r' {
            if c == '\n' {
                breaks += 1;
            }
            pos += 1;
        } else if c == '"' {
            let line: usize = breaks + 1;
            let mut body: Vec<char> = Vec::new();
            let mut q: usize = pos + 1;
            let mut closed: bool = false;
            while !closed && q < n
                invariant
                    s == chars@,
                    n == s.len(),
                    pos < q <= n,
                    breaks == newlines(s.take(q as int)),
                    breaks <= q,
                    !closed ==> quoted_body(s.skip(pos + 1)) == body_after(
                        body@,
                        (q - pos - 1) as nat,
                        quoted_body(s.skip(q as int)),
                    ),
                    closed ==> quoted_body(s.skip(pos + 1)) == Some((body@, (q - pos - 1) as nat)),
                decreases n - q + if closed { 0int } else { 1int },
            {
                let d: char = chars[q];
                let ghost there = s.skip(q as int);
                proof {
                    newlines_step(s, q as int);
                    assert(there[0] == d);
                    assert(there.drop_first() =~= s.skip(q + 1));
                }
                if d == '"' {
                    if q + 1 < n && chars[q + 1] == '"' {
                        proof {
                            newlines_step(s, q + 1);
                            assert(there[1] == '"');
                            assert(there.skip(2) =~= s.skip(q + 2));
                            let tail = quoted_body(s.skip(q + 2));
                            if tail is Some {
                                assert(body@.push('"') + tail.unwrap().0 =~= body@ + (seq!['"'] + tail.unwrap().0));
                            }
                        }
                        body.push('"');
                        q += 2;
                    } else {
                        proof {
                            assert(body@ + Seq::<char>::empty() =~= body@);
                        }
                        closed = true;
                        q += 1;
                    }
                } else {
                    proof {
                        let tail = quoted_body(s.skip(q + 1));
                        if tail is Some {
                            assert(body@.push(d) + tail.unwrap().0 =~= body@ + (seq![d] + tail.unwrap().0));
                        }
                    }
                    if d == '\n' {
                        breaks += 1;
                    }
                    body.push(d);
                    q += 1;
                }
            }
            if !closed {
                proof {
                    assert(s.skip(q as int).len() == 0);
                    assert(quoted_body(s.skip(pos + 1)) is None);
                    assert(lex(here) == Err::<Seq<Lexeme>, nat>(here.len()));
                    assert(s.len() - here.len() == pos);
                }
                return Err(ParseError { line, expected: Expected::ClosingQuote });
            }
            let ghost x = Lexeme { text: body@, quoted: true, rest: here.len() };
            proof {
                assert(here.skip(1 + (q - pos - 1)) =~= s.skip(q as int));
                let tail = lex(s.skip(q as int));
                assert(lex(here) == after_one(x, tail));
                if tail is Ok {
                    assert(done.push(x) + tail->Ok_0 =~= done + (seq![x] + tail->Ok_0));
                }
                assert(s.len() - x.rest == pos);
                done = done.push(x);
            }
            toks.push(Token { text: string_of(&body), quoted: true, line });
            pos = q;
        } else {
            let line: usize = breaks + 1;
            let mut word: Vec<char> = Vec::new();
            word.push(c);
            let mut e: usize = pos + 1;
            while e < n && !(chars[e] == ' ' || chars[e] == '\t' || chars[e] == '\n' || chars[e] == '\r'
                || chars[e] == '"')
                invariant
                    s == chars@,
                    n == s.len(),
                    pos < e <= n,
                    breaks == newlines(s.take(e as int)),
                    breaks <= e,
                    word@ == s.subrange(pos as int, e as int),
                    word_len(s.skip(pos as int)) == (e - pos) + word_len(s.skip(e as int)),
                decreases n - e,
            {
                proof {
                    newlines_step(s, e as int);
                    assert(s.skip(e as int)[0] == s[e as int]);
                    assert(s.skip(e as int).drop_first() =~= s.skip(e + 1));
                    assert(s.subrange(pos as int, e + 1) =~= s.subrange(pos as int, e as int).push(
                        s[e as int],
                    ));
                }
                word.push(chars[e]);
                e += 1;
            }
            let ghost x = Lexeme { text: word@, quoted: false, rest: here.len() };
            proof {
                if e < n {
                    assert(s.skip(e as int)[0] == s[e as int]);
                }
                assert(word_len(here) == e - pos);
                assert(here.take(e - pos) =~= word@);
                assert(here.skip(e - pos) =~= s.skip(e as int));
                let tail = lex(s.skip(e as int));
                assert(lex(here) == after_one(x, tail));
                if tail is Ok {
                    assert(done.push(x) + tail->Ok_0 =~= done + (seq![x] + tail->Ok_0));
                }
                assert(s.len() - x.rest == pos);
                done = done.push(x);
            }
            toks.push(Token { text: string_of(&word), quoted: false, line });
            pos = e;
        }
    }
    proof {
        assert(s.skip(n as int).len() == 0);
        assert(done + Seq::<Lexeme>::empty() =~= done);
        assert(lex(s) == Ok::<Seq<Lexeme>, nat>(done));
        assert(token_models(toks@) =~= tokens_of(s)->Ok_0);
    }
    Ok(toks)
}

} // verus!
