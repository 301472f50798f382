//! The clause grammar: recognise `START`, case-insensitively, require a
//! separator, accept the optional `AT` sugar, then parse one expression.
//! Once the keyword has matched, the parse is committed: every later failure
//! is a fatal syntax error, never a soft non-match.

use vstd::prelude::*;
use vstd::string::StrSliceExecFns;
use vstd::string::StringExecFns;
use crate::clause::Start;
use crate::text::{
    is_space_char, is_digit_char, digit_val, space_run, digit_run, digits_value,
    lemma_space_run_is, lemma_digit_run_is, lemma_digit_run_le, lemma_digit_run_at_least,
    lemma_digit_run_digits, lemma_digits_value_snoc, lemma_digits_value_mono,
};
use crate::value::{Value, ValueView};

verus! {

/// Signal returned when the parser produces no clause node.
#[derive(Debug, PartialEq, Eq)]
pub enum ParseError {
    /// The keyword is absent; the caller may try other grammar rules, and no
    /// input has been consumed.
    NoMatch,
    /// The keyword was recognised but what follows it is malformed; the
    /// containing statement cannot be recovered by backtracking.
    Fatal,
}

/// Outcome of the grammar rule on a whole input, at the specification level:
/// a non-match, a fatal syntax error, or a node with the count of consumed
/// characters.
pub enum StartParse {
    NoMatch,
    Fatal,
    Match(ValueView, int),
}

/// Case-insensitive match of the keyword `START` at the front of `s`.
pub open spec fn matches_start_kw(s: Seq<char>) -> bool {
    &&& s.len() >= 5
    &&& (s[0] == 'S' || s[0] == 's')
    &&& (s[1] == 'T' || s[1] == 't')
    &&& (s[2] == 'A' || s[2] == 'a')
    &&& (s[3] == 'R' || s[3] == 'r')
    &&& (s[4] == 'T' || s[4] == 't')
}

/// The optional sugar: the keyword `AT`, case-insensitively, followed by a
/// separator.
pub open spec fn at_prefix(s: Seq<char>) -> bool {
    &&& s.len() >= 3
    &&& (s[0] == 'A' || s[0] == 'a')
    &&& (s[1] == 'T' || s[1] == 't')
    &&& is_space_char(s[2])
}

/// Index of the first occurrence of `c` in `s`.
pub open spec fn find_char(s: Seq<char>, c: char) -> Option<int>
    decreases s.len(),
{
    if s.len() == 0 {
        None
    } else if s[0] == c {
        Some(0)
    } else {
        match find_char(s.skip(1), c) {
            Some(i) => Some(i + 1),
            None => None,
        }
    }
}

pub proof fn lemma_find_char_none(s: Seq<char>, c: char)
    requires
        forall|k: int| 0 <= k < s.len() ==> s[k] != c,
    ensures
        find_char(s, c) is None,
    decreases s.len(),
{
    if s.len() > 0 {
        let t = s.skip(1);
        assert forall|k: int| 0 <= k < t.len() implies t[k] != c by {
            assert(t[k] == s[k + 1]);
        }
        lemma_find_char_none(t, c);
    }
}

pub proof fn lemma_find_char_found(s: Seq<char>, c: char, j: int)
    requires
        0 <= j < s.len(),
        s[j] == c,
        forall|k: int| 0 <= k < j ==> s[k] != c,
    ensures
        find_char(s, c) == Some(j),
    decreases j,
{
    if j == 0 {
    } else {
        let t = s.skip(1);
        assert(t[j - 1] == s[j]);
        assert forall|k: int| 0 <= k < j - 1 implies t[k] != c by {
            assert(t[k] == s[k + 1]);
        }
        lemma_find_char_found(t, c, j - 1);
    }
}

/// Parse one expression at the front of `s`: a quoted string or a decimal
/// integer that fits the machine integer. On success, the value and the
/// count of consumed characters.
pub open spec fn parse_value(s: Seq<char>) -> Option<(ValueView, int)> {
    if s.len() == 0 {
        None
    } else if s[0] == '"' {
        match find_char(s.skip(1), '"') {
            Some(j) => Some((ValueView::Strand(s.skip(1).take(j)), j + 2)),
            None => None,
        }
    } else if s[0] == '-' {
        let d = digit_run(s.skip(1)) as int;
        if d == 0 {
            None
        } else {
            let m = digits_value(s.skip(1).take(d));
            if m <= 0x8000000000000000 {
                Some((ValueView::Number(-m), d + 1))
            } else {
                None
            }
        }
    } else {
        let d = digit_run(s) as int;
        if d == 0 {
            None
        } else {
            let m = digits_value(s.take(d));
            if m <= i64::MAX {
                Some((ValueView::Number(m), d))
            } else {
                None
            }
        }
    }
}

/// The whole grammar rule on input `s`.
pub open spec fn parse_start(s: Seq<char>) -> StartParse {
    if !matches_start_kw(s) {
        StartParse::NoMatch
    } else {
        let rest = s.skip(5);
        if rest.len() == 0 || !is_space_char(rest[0]) {
            StartParse::Fatal
        } else {
            let body = rest.skip(space_run(rest) as int);
            let body2 = if at_prefix(body) {
                body.skip(2 + space_run(body.skip(2)) as int)
            } else {
                body
            };
            match parse_value(body2) {
                Some((v, used)) => StartParse::Match(v, s.len() - body2.len() + used),
                None => StartParse::Fatal,
            }
        }
    }
}

/// Whether `c` is a separator character.
fn is_space(c: char) -> (b: bool)
    ensures
        b == is_space_char(c),
{
    c == ' ' || c == '\t' || c == '\r' || c == '\n'
}

/// Whether `c` is a decimal digit.
fn is_digit(c: char) -> (b: bool)
    ensures
        b == is_digit_char(c),
{
    let u: u32 = c as u32;
    48 <= u && u <= 57
}

/// Consume separators from position `from`; the position after them.
#[verifier::loop_isolation(false)]
fn skip_spaces(i: &str, from: usize) -> (q: usize)
    requires
        from <= i@.len(),
    ensures
        from <= q <= i@.len(),
        space_run(i@.skip(from as int)) == q - from,
{
    let n = i.unicode_len();
    let mut j: usize = from;
    let mut stop = false;
    while j < n && !stop
        invariant
            from <= j <= n,
            n == i@.len(),
            forall|k: int| from <= k < j ==> is_space_char(i@[k]),
            stop ==> j < n && !is_space_char(i@[j as int]),
        decreases n - j, (if stop { 0int } else { 1int }),
    {
        let c = i.get_char(j);
        if is_space(c) {
            j = j + 1;
        } else {
            stop = true;
        }
    }
    proof {
        let t = i@.skip(from as int);
        assert forall|k: int| 0 <= k < j - from implies is_space_char(t[k]) by {
            assert(t[k] == i@[from + k]);
        }
        if j < n {
            assert(t[j - from] == i@[j as int]);
        }
        lemma_space_run_is(t, (j - from) as nat);
    }
    j
}

/// Parse one expression at position `pos` of `i`: the value and the position
/// after it.
#[verifier::loop_isolation(false)]
fn parse_value_from(i: &str, pos: usize) -> (r: Option<(Value, usize)>)
    requires
        pos <= i@.len(),
    ensures
        match r {
            Some(p) => {
                &&& pos < p.1 <= i@.len()
                &&& parse_value(i@.skip(pos as int)) == Some((p.0@, p.1 - pos as int))
            },
            None => parse_value(i@.skip(pos as int)) is None,
        },
{
    let ghost s = i@;
    let ghost sub = i@.skip(pos as int);
    let n = i.unicode_len();
    if pos >= n {
        return None;
    }
    let c0 = i.get_char(pos);
    proof {
        assert(sub[0] == s[pos as int]);
    }
    if c0 == '"' {
        let mut j: usize = pos + 1;
        let mut found = false;
        while j < n && !found
            invariant
                pos + 1 <= j <= n,
                n == s.len(),
                s == i@,
                forall|k: int| pos + 1 <= k < j ==> s[k] != '"',
                found ==> j < n && s[j as int] == '"',
            decreases n - j, (if found { 0int } else { 1int }),
        {
            let c = i.get_char(j);
            if c == '"' {
                found = true;
            } else {
                j = j + 1;
            }
        }
        let ghost t = s.skip(pos + 1);
        proof {
            assert(sub.skip(1) =~= t);
        }
        if !found {
            proof {
                assert forall|k: int| 0 <= k < t.len() implies t[k] != '"' by {
                    assert(t[k] == s[pos + 1 + k]);
                }
                lemma_find_char_none(t, '"');
            }
            return None;
        }
        let inner = i.substring_char(pos + 1, j);
        let st = String::from_str(inner);
        proof {
            assert(t[j - pos - 1] == s[j as int]);
            assert forall|k: int| 0 <= k < j - pos - 1 implies t[k] != '"' by {
                assert(t[k] == s[pos + 1 + k]);
            }
            lemma_find_char_found(t, '"', j - pos - 1);
            assert(t.take(j - pos - 1) =~= s.subrange(pos + 1, j as int));
        }
        return Some((Value::Strand(st), j + 1));
    }
    // a decimal integer, optionally signed
    let neg = c0 == '-';
    let dstart: usize = if neg {
        pos + 1
    } else {
        pos
    };
    let limit: u64 = if neg {
        0x8000000000000000u64
    } else {
        0x7FFFFFFFFFFFFFFFu64
    };
    let ghost t = s.skip(dstart as int);
    proof {
        if neg {
            assert(sub.skip(1) =~= t);
        } else {
            assert(sub =~= t);
        }
    }
    let mut j: usize = dstart;
    let mut acc: u64 = 0;
    let mut stop = false;
    while j < n && !stop
        invariant
            pos <= dstart <= j <= n,
            n == s.len(),
            s == i@,
            t == s.skip(dstart as int),
            forall|k: int| dstart <= k < j ==> is_digit_char(s[k]),
            acc == digits_value(s.subrange(dstart as int, j as int)),
            acc <= limit,
            limit == (if neg { 0x8000000000000000u64 } else { 0x7FFFFFFFFFFFFFFFu64 }),
            stop ==> j < n && !is_digit_char(s[j as int]),
        decreases n - j, (if stop { 0int } else { 1int }),
    {
        let c = i.get_char(j);
        if is_digit(c) {
            let u: u32 = c as u32;
            let d: u64 = (u - 48) as u64;
            let ghost prefix = s.subrange(dstart as int, j as int);
            proof {
                assert(digit_val(s[j as int]) == d as int);
                assert(s.subrange(dstart as int, j as int + 1) =~= prefix.push(s[j as int]));
                lemma_digits_value_snoc(prefix, s[j as int]);
                vstd::arithmetic::div_mod::lemma_fundamental_div_mod((limit - d) as int, 10);
            }
            if acc > (limit - d) / 10 {
                proof {
                    let next = s.subrange(dstart as int, j as int + 1);
                    assert(digits_value(next) == acc * 10 + d > limit);
                    assert forall|k: int| 0 <= k < j + 1 - dstart implies is_digit_char(t[k]) by {
                        assert(t[k] == s[dstart + k]);
                    }
                    lemma_digit_run_at_least(t, (j + 1 - dstart) as nat);
                    lemma_digit_run_le(t);
                    let drun = digit_run(t) as int;
                    let g = t.take(drun);
                    lemma_digit_run_digits(t);
                    assert forall|k: int| 0 <= k < g.len() implies is_digit_char(g[k]) by {
                        assert(g[k] == t[k]);
                    }
                    lemma_digits_value_mono(g, j + 1 - dstart);
                    assert(g.take(j + 1 - dstart) =~= next);
                    assert(digits_value(g) > limit);
                }
                return None;
            }
            proof {
                assert(acc * 10 + d <= limit);
            }
            acc = acc * 10 + d;
            j = j + 1;
        } else {
            stop = true;
        }
    }
    if j == dstart {
        proof {
            if t.len() > 0 {
                assert(t[0] == s[dstart as int]);
            }
            lemma_digit_run_is(t, 0);
        }
        return None;
    }
    proof {
        assert forall|k: int| 0 <= k < j - dstart implies is_digit_char(t[k]) by {
            assert(t[k] == s[dstart + k]);
        }
        if j < n {
            assert(t[j - dstart] == s[j as int]);
        }
        lemma_digit_run_is(t, (j - dstart) as nat);
        assert(t.take(j - dstart) =~= s.subrange(dstart as int, j as int));
    }
    let v: i64 = if neg {
        if acc == 0x8000000000000000u64 {
            i64::MIN
        } else {
            -(acc as i64)
        }
    } else {
        acc as i64
    };
    Some((Value::Number(v), j))
}

/// Recognise the clause at the front of `i`. On success, the remaining input
/// and the node. `NoMatch` when the keyword is absent, with nothing consumed;
/// `Fatal` when input after the recognised keyword is malformed.
pub fn start<'a>(i: &'a str) -> (r: Result<(&'a str, Start), ParseError>)
    ensures
        match r {
            Ok(p) => {
                &&& p.0@.len() <= i@.len()
                &&& parse_start(i@) == StartParse::Match(p.1@, i@.len() - p.0@.len())
                &&& p.0@ == i@.skip(i@.len() - p.0@.len())
            },
            Err(ParseError::NoMatch) => parse_start(i@) == StartParse::NoMatch,
            Err(ParseError::Fatal) => parse_start(i@) == StartParse::Fatal,
        },
{
    let ghost s = i@;
    let n = i.unicode_len();
    if n < 5 {
        return Err(ParseError::NoMatch);
    }
    let c0 = i.get_char(0);
    if !(c0 == 'S' || c0 == 's') {
        return Err(ParseError::NoMatch);
    }
    let c1 = i.get_char(1);
    if !(c1 == 'T' || c1 == 't') {
        return Err(ParseError::NoMatch);
    }
    let c2 = i.get_char(2);
    if !(c2 == 'A' || c2 == 'a') {
        return Err(ParseError::NoMatch);
    }
    let c3 = i.get_char(3);
    if !(c3 == 'R' || c3 == 'r') {
        return Err(ParseError::NoMatch);
    }
    let c4 = i.get_char(4);
    if !(c4 == 'T' || c4 == 't') {
        return Err(ParseError::NoMatch);
    }
    // the keyword has matched: the parse is committed
    let ghost rest = s.skip(5);
    if n == 5 {
        return Err(ParseError::Fatal);
    }
    let c5 = i.get_char(5);
    proof {
        assert(rest[0] == s[5]);
    }
    if !is_space(c5) {
        return Err(ParseError::Fatal);
    }
    let q = skip_spaces(i, 5);
    let ghost body = rest.skip(space_run(rest) as int);
    proof {
        assert(s.skip(5).skip(q - 5) =~= s.skip(q as int));
        assert(body == s.skip(q as int));
    }
    let mut pos2: usize = q;
    if n - q >= 3 {
        let a0 = i.get_char(q);
        let a1 = i.get_char(q + 1);
        let a2 = i.get_char(q + 2);
        proof {
            assert(body[0] == s[q as int]);
            assert(body[1] == s[q + 1]);
            assert(body[2] == s[q + 2]);
        }
        if (a0 == 'A' || a0 == 'a') && (a1 == 'T' || a1 == 't') && is_space(a2) {
            pos2 = skip_spaces(i, q + 2);
            proof {
                assert(at_prefix(body));
                assert(body.skip(2) =~= s.skip(q + 2));
                assert(body.skip(2 + space_run(body.skip(2)) as int) =~= s.skip(pos2 as int));
            }
        } else {
            proof {
                assert(!at_prefix(body));
            }
        }
    } else {
        proof {
            assert(body.len() == n - q < 3);
            assert(!at_prefix(body));
        }
    }
    let ghost body2 = if at_prefix(body) {
        body.skip(2 + space_run(body.skip(2)) as int)
    } else {
        body
    };
    proof {
        assert(body2 =~= s.skip(pos2 as int));
    }
    match parse_value_from(i, pos2) {
        None => Err(ParseError::Fatal),
        Some(p) => {
            let (v, newpos) = p;
            let rem = i.substring_char(newpos, n);
            proof {
                assert(rem@ =~= s.skip(newpos as int));
                assert(s.len() - body2.len() + (newpos - pos2 as int) == newpos as int);
            }
            Ok((rem, Start(v)))
        },
    }
}

} // verus!
