//! Laws that tie the parser, the evaluator and the renderer together.

use vstd::prelude::*;
use crate::clause::render_start;
use crate::eval::clause_count;
use crate::parse::{parse_start, parse_value, at_prefix, StartParse};
use crate::text::{
    is_space_char, is_digit_char, render_int, render_nat, space_run, digits_value,
    lemma_space_run_le, lemma_space_run_is, lemma_digit_run_is, lemma_render_nat_digits,
    lemma_render_nat_value,
};
use crate::value::{ValueView, render_value};

verus! {

/// Law: for every non-negative integer `n` that the machine can hold,
/// parsing `START n` consumes the whole input, yields the number `n`, and
/// evaluation of that clause yields exactly `n`.
pub proof fn lemma_parse_then_eval(n: int)
    requires
        0 <= n <= i64::MAX,
    ensures
        parse_start(seq!['S', 'T', 'A', 'R', 'T', ' '] + render_int(n)) == StartParse::Match(
            ValueView::Number(n),
            (seq!['S', 'T', 'A', 'R', 'T', ' '] + render_int(n)).len() as int,
        ),
        clause_count(ValueView::Number(n)) == Some(n),
{
    let r = render_nat(n);
    let s = seq!['S', 'T', 'A', 'R', 'T', ' '] + r;
    assert(render_int(n) == r);
    lemma_render_nat_digits(n);
    assert(s[0] == 'S' && s[1] == 'T' && s[2] == 'A' && s[3] == 'R' && s[4] == 'T');
    let rest = s.skip(5);
    assert(rest[0] == s[5] == ' ');
    assert(is_space_char(' '));
    assert(rest.skip(1) =~= r);
    assert(is_digit_char(r[0]));
    assert(!is_space_char(r[0]));
    lemma_space_run_is(r, 0);
    assert(space_run(rest) == 1);
    let body = rest.skip(space_run(rest) as int);
    assert(body =~= r);
    assert(!(r[0] == 'A' || r[0] == 'a'));
    assert(!at_prefix(body));
    assert(r[0] != '"' && r[0] != '-');
    lemma_digit_run_is(r, r.len());
    assert(r.take(r.len() as int) =~= r);
    lemma_render_nat_value(n);
    assert(digits_value(r.take(r.len() as int)) == n);
    assert(parse_value(body) == Some((ValueView::Number(n), r.len() as int)));
    assert(s.len() - body.len() + r.len() as int == s.len() as int);
}

/// Law: the `AT` keyword is purely syntactic sugar. For any tail `body`
/// whose stripped form does not itself begin with the sugar, `START body`
/// and `START AT body` either both fail fatally or both yield clause nodes
/// wrapping the same value.
pub proof fn lemma_at_sugar(body: Seq<char>)
    requires
        !at_prefix(body.skip(space_run(body) as int)),
    ensures
        ({
            let plain = seq!['S', 'T', 'A', 'R', 'T', ' '] + body;
            let sugared = seq!['S', 'T', 'A', 'R', 'T', ' ', 'A', 'T', ' '] + body;
            match (parse_start(plain), parse_start(sugared)) {
                (StartParse::Match(v1, c1), StartParse::Match(v2, c2)) => v1 == v2,
                (StartParse::Fatal, StartParse::Fatal) => true,
                _ => false,
            }
        }),
{
    lemma_space_run_le(body);
    let stripped = body.skip(space_run(body) as int);
    let plain = seq!['S', 'T', 'A', 'R', 'T', ' '] + body;
    let sugared = seq!['S', 'T', 'A', 'R', 'T', ' ', 'A', 'T', ' '] + body;

    // the plain spelling
    assert(plain[0] == 'S' && plain[1] == 'T' && plain[2] == 'A' && plain[3] == 'R' && plain[4]
        == 'T');
    let rest_p = plain.skip(5);
    assert(rest_p[0] == plain[5] == ' ');
    assert(rest_p.skip(1) =~= body);
    assert(space_run(rest_p) == 1 + space_run(body));
    let body_p = rest_p.skip(space_run(rest_p) as int);
    assert(body_p =~= stripped);

    // the sugared spelling
    assert(sugared[0] == 'S' && sugared[1] == 'T' && sugared[2] == 'A' && sugared[3] == 'R'
        && sugared[4] == 'T');
    let rest_s = sugared.skip(5);
    assert(rest_s[0] == sugared[5] == ' ');
    let after_sp = seq!['A', 'T', ' '] + body;
    assert(rest_s.skip(1) =~= after_sp);
    assert(after_sp[0] == 'A');
    assert(!is_space_char('A'));
    assert(space_run(after_sp) == 0);
    assert(space_run(rest_s) == 1);
    let body_s = rest_s.skip(space_run(rest_s) as int);
    assert(body_s =~= after_sp);
    assert(body_s[2] == ' ');
    assert(at_prefix(body_s));
    assert(body_s.skip(2) =~= seq![' '] + body);
    assert((seq![' '] + body).skip(1) =~= body);
    assert(space_run(body_s.skip(2)) == 1 + space_run(body));
    let body2_s = body_s.skip(2 + space_run(body_s.skip(2)) as int);
    assert(body2_s =~= stripped);

    match parse_value(stripped) {
        Some(p) => {
            assert(parse_start(plain) matches StartParse::Match(v, c) && v == p.0);
            assert(parse_start(sugared) matches StartParse::Match(v, c) && v == p.0);
        },
        None => {
            assert(parse_start(plain) == StartParse::Fatal);
            assert(parse_start(sugared) == StartParse::Fatal);
        },
    }
}

/// Law: the canonical text of any parsed clause node is the keyword, one
/// separator, then the canonical text of its expression — the `AT` sugar is
/// never re-emitted, whichever spelling was parsed.
pub proof fn lemma_render_canonical(s: Seq<char>, v: ValueView, c: int)
    requires
        parse_start(s) == StartParse::Match(v, c),
    ensures
        render_start(v) == seq!['S', 'T', 'A', 'R', 'T', ' '] + render_value(v),
{
}

} // verus!
