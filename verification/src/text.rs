//! Lexical ground: character classes, runs of characters, decimal digit
//! strings and their values, and the decimal rendering of integers.

use vstd::prelude::*;
use vstd::string::StringExecFns;

verus! {

/// Characters the grammar accepts as separators between tokens.
pub open spec fn is_space_char(c: char) -> bool {
    c == ' ' || c == '\t' || c == '\r' || c == '\n'
}

/// Decimal digit characters.
pub open spec fn is_digit_char(c: char) -> bool {
    48 <= c as u32 <= 57
}

/// Numeric value of a decimal digit character.
pub open spec fn digit_val(c: char) -> int {
    c as u32 - 48
}

/// Length of the longest all-separator prefix of `s`.
pub open spec fn space_run(s: Seq<char>) -> nat
    decreases s.len(),
{
    if s.len() > 0 && is_space_char(s[0]) {
        (1 + space_run(s.skip(1))) as nat
    } else {
        0
    }
}

/// Length of the longest all-digit prefix of `s`.
pub open spec fn digit_run(s: Seq<char>) -> nat
    decreases s.len(),
{
    if s.len() > 0 && is_digit_char(s[0]) {
        (1 + digit_run(s.skip(1))) as nat
    } else {
        0
    }
}

pub proof fn lemma_space_run_le(s: Seq<char>)
    ensures
        space_run(s) <= s.len(),
    decreases s.len(),
{
    if s.len() > 0 && is_space_char(s[0]) {
        lemma_space_run_le(s.skip(1));
    }
}

pub proof fn lemma_digit_run_le(s: Seq<char>)
    ensures
        digit_run(s) <= s.len(),
    decreases s.len(),
{
    if s.len() > 0 && is_digit_char(s[0]) {
        lemma_digit_run_le(s.skip(1));
    }
}

/// A separator run is pinned by its characterization: `j` leading
/// separators, then a non-separator or the end of the input.
pub proof fn lemma_space_run_is(s: Seq<char>, j: nat)
    requires
        j <= s.len(),
        forall|k: int| 0 <= k < j ==> is_space_char(s[k]),
        j == s.len() || !is_space_char(s[j as int]),
    ensures
        space_run(s) == j,
    decreases j,
{
    if j == 0 {
    } else {
        assert(is_space_char(s[0]));
        let t = s.skip(1);
        assert forall|k: int| 0 <= k < j - 1 implies is_space_char(t[k]) by {
            assert(t[k] == s[k + 1]);
        }
        if j < s.len() {
            assert(t[j - 1] == s[j as int]);
        }
        lemma_space_run_is(t, (j - 1) as nat);
    }
}

/// The digit-run analogue of `lemma_space_run_is`.
pub proof fn lemma_digit_run_is(s: Seq<char>, j: nat)
    requires
        j <= s.len(),
        forall|k: int| 0 <= k < j ==> is_digit_char(s[k]),
        j == s.len() || !is_digit_char(s[j as int]),
    ensures
        digit_run(s) == j,
    decreases j,
{
    if j == 0 {
    } else {
        assert(is_digit_char(s[0]));
        let t = s.skip(1);
        assert forall|k: int| 0 <= k < j - 1 implies is_digit_char(t[k]) by {
            assert(t[k] == s[k + 1]);
        }
        if j < s.len() {
            assert(t[j - 1] == s[j as int]);
        }
        lemma_digit_run_is(t, (j - 1) as nat);
    }
}

/// A digit run covers at least every all-digit prefix.
pub proof fn lemma_digit_run_at_least(s: Seq<char>, j: nat)
    requires
        j <= s.len(),
        forall|k: int| 0 <= k < j ==> is_digit_char(s[k]),
    ensures
        digit_run(s) >= j,
    decreases j,
{
    if j > 0 {
        assert(is_digit_char(s[0]));
        let t = s.skip(1);
        assert forall|k: int| 0 <= k < j - 1 implies is_digit_char(t[k]) by {
            assert(t[k] == s[k + 1]);
        }
        lemma_digit_run_at_least(t, (j - 1) as nat);
    }
}

/// Every character inside a digit run is a digit.
pub proof fn lemma_digit_run_digits(s: Seq<char>)
    ensures
        forall|k: int| 0 <= k < digit_run(s) ==> is_digit_char(s[k]),
    decreases s.len(),
{
    if s.len() > 0 && is_digit_char(s[0]) {
        let t = s.skip(1);
        lemma_digit_run_digits(t);
        lemma_digit_run_le(t);
        assert forall|k: int| 0 <= k < digit_run(s) implies is_digit_char(s[k]) by {
            if k > 0 {
                assert(0 <= k - 1 < digit_run(t));
                assert(is_digit_char(t[k - 1]));
                assert(t[k - 1] == s[k]);
            }
        }
    }
}

/// Value of a decimal digit string, most significant digit first.
pub open spec fn digits_value(s: Seq<char>) -> int
    decreases s.len(),
{
    if s.len() == 0 {
        0
    } else {
        digits_value(s.drop_last()) * 10 + digit_val(s.last())
    }
}

pub proof fn lemma_digits_value_nonneg(s: Seq<char>)
    requires
        forall|k: int| 0 <= k < s.len() ==> is_digit_char(s[k]),
    ensures
        digits_value(s) >= 0,
    decreases s.len(),
{
    if s.len() > 0 {
        let t = s.drop_last();
        assert forall|k: int| 0 <= k < t.len() implies is_digit_char(t[k]) by {
            assert(t[k] == s[k]);
        }
        lemma_digits_value_nonneg(t);
    }
}

pub proof fn lemma_digits_value_snoc(s: Seq<char>, c: char)
    ensures
        digits_value(s.push(c)) == digits_value(s) * 10 + digit_val(c),
{
    assert(s.push(c).drop_last() =~= s);
    assert(s.push(c).last() == c);
}

/// A longer digit string never has a smaller value.
pub proof fn lemma_digits_value_mono(s: Seq<char>, j: int)
    requires
        0 <= j <= s.len(),
        forall|k: int| 0 <= k < s.len() ==> is_digit_char(s[k]),
    ensures
        digits_value(s.take(j)) <= digits_value(s),
    decreases s.len() - j,
{
    if j == s.len() {
        assert(s.take(j) =~= s);
    } else {
        assert(s.take(j + 1).drop_last() =~= s.take(j));
        assert(s.take(j + 1).last() == s[j]);
        let t = s.take(j);
        assert forall|k: int| 0 <= k < t.len() implies is_digit_char(t[k]) by {
            assert(t[k] == s[k]);
        }
        lemma_digits_value_nonneg(t);
        assert(digits_value(s.take(j + 1)) == digits_value(s.take(j)) * 10 + digit_val(s[j]));
        lemma_digits_value_mono(s, j + 1);
    }
}

/// The decimal digit character for `d`.
pub open spec fn digit_char(d: int) -> char {
    if d == 0 {
        '0'
    } else if d == 1 {
        '1'
    } else if d == 2 {
        '2'
    } else if d == 3 {
        '3'
    } else if d == 4 {
        '4'
    } else if d == 5 {
        '5'
    } else if d == 6 {
        '6'
    } else if d == 7 {
        '7'
    } else if d == 8 {
        '8'
    } else {
        '9'
    }
}

/// Decimal rendering of a non-negative integer, without a sign.
pub open spec fn render_nat(n: int) -> Seq<char>
    decreases n,
{
    if n < 10 {
        seq![digit_char(n)]
    } else {
        render_nat(n / 10).push(digit_char(n % 10))
    }
}

/// Decimal rendering of an integer: a leading `-` for negative values.
pub open spec fn render_int(n: int) -> Seq<char> {
    if n < 0 {
        seq!['-'] + render_nat(-n)
    } else {
        render_nat(n)
    }
}

/// The rendering of a non-negative integer is a non-empty digit string.
pub proof fn lemma_render_nat_digits(n: int)
    requires
        n >= 0,
    ensures
        render_nat(n).len() >= 1,
        forall|i: int| 0 <= i < render_nat(n).len() ==> is_digit_char(#[trigger] render_nat(n)[i]),
    decreases n,
{
    if n >= 10 {
        lemma_render_nat_digits(n / 10);
    }
}

/// Reading the rendering of a non-negative integer back gives the integer.
pub proof fn lemma_render_nat_value(n: int)
    requires
        n >= 0,
    ensures
        digits_value(render_nat(n)) == n,
    decreases n,
{
    if n < 10 {
        assert(render_nat(n) == seq![digit_char(n)]);
        assert(seq![digit_char(n)].drop_last() =~= Seq::<char>::empty());
        assert(digits_value(Seq::<char>::empty()) == 0);
        assert(digits_value(seq![digit_char(n)]) == digits_value(
            seq![digit_char(n)].drop_last(),
        ) * 10 + digit_val(seq![digit_char(n)].last()));
        assert(digit_val(digit_char(n)) == n);
    } else {
        assert(render_nat(n) == render_nat(n / 10).push(digit_char(n % 10)));
        lemma_render_nat_value(n / 10);
        lemma_digits_value_snoc(render_nat(n / 10), digit_char(n % 10));
        vstd::arithmetic::div_mod::lemma_fundamental_div_mod(n, 10);
        assert(digit_val(digit_char(n % 10)) == n % 10);
    }
}

/// The single-character string for a decimal digit.
pub fn digit_str(d: u64) -> (r: &'static str)
    requires
        d < 10,
    ensures
        r@ == seq![digit_char(d as int)],
{
    if d == 0 {
        proof { reveal_strlit("0"); assert("0"@ =~= seq![digit_char(0)]); }
        "0"
    } else if d == 1 {
        proof { reveal_strlit("1"); assert("1"@ =~= seq![digit_char(1)]); }
        "1"
    } else if d == 2 {
        proof { reveal_strlit("2"); assert("2"@ =~= seq![digit_char(2)]); }
        "2"
    } else if d == 3 {
        proof { reveal_strlit("3"); assert("3"@ =~= seq![digit_char(3)]); }
        "3"
    } else if d == 4 {
        proof { reveal_strlit("4"); assert("4"@ =~= seq![digit_char(4)]); }
        "4"
    } else if d == 5 {
        proof { reveal_strlit("5"); assert("5"@ =~= seq![digit_char(5)]); }
        "5"
    } else if d == 6 {
        proof { reveal_strlit("6"); assert("6"@ =~= seq![digit_char(6)]); }
        "6"
    } else if d == 7 {
        proof { reveal_strlit("7"); assert("7"@ =~= seq![digit_char(7)]); }
        "7"
    } else if d == 8 {
        proof { reveal_strlit("8"); assert("8"@ =~= seq![digit_char(8)]); }
        "8"
    } else {
        proof { reveal_strlit("9"); assert("9"@ =~= seq![digit_char(9)]); }
        "9"
    }
}

/// Decimal rendering of an unsigned machine integer.
pub fn render_u64(n: u64) -> (s: String)
    ensures
        s@ == render_nat(n as int),
    decreases n,
{
    if n < 10 {
        String::from_str(digit_str(n))
    } else {
        let prefix = render_u64(n / 10);
        let s = prefix.concat(digit_str(n % 10));
        proof {
            assert(s@ =~= render_nat((n / 10) as int).push(digit_char((n % 10) as int)));
        }
        s
    }
}

/// Decimal rendering of a signed machine integer.
pub fn render_i64(n: i64) -> (s: String)
    ensures
        s@ == render_int(n as int),
{
    if n >= 0 {
        render_u64(n as u64)
    } else {
        let mag: u64 = if n == i64::MIN {
            9223372036854775808u64
        } else {
            (-n) as u64
        };
        assert(mag as int == -(n as int));
        let tail = render_u64(mag);
        let s = String::from_str("-").concat(tail.as_str());
        proof {
            reveal_strlit("-");
            assert("-"@ =~= seq!['-']);
            assert(s@ =~= seq!['-'] + render_nat(-(n as int)));
        }
        s
    }
}

} // verus!
