//! Versioned binary encoding of a clause node, for persisting compiled query
//! plans. The first byte is the format revision; a number is a sign byte and
//! an eight-byte little-endian magnitude, a string is an eight-byte length
//! and four little-endian bytes per character. Decoding checks the revision,
//! so the format can grow without breaking older persisted plans.

use vstd::prelude::*;
use crate::clause::Start;
use crate::value::{Value, ValueView, wf_view};

verus! {

/// The current revision of the binary format.
pub const REVISION: u8 = 1;

/// A Unicode scalar value: what a `char` may hold.
pub open spec fn is_scalar_u32(u: u32) -> bool {
    u <= 0xD7FF || (0xE000 <= u && u <= 0x10FFFF)
}

/// Little-endian bytes of a 64-bit integer.
pub open spec fn u64_le(m: u64) -> Seq<u8> {
    seq![
        m as u8,
        (m >> 8) as u8,
        (m >> 16) as u8,
        (m >> 24) as u8,
        (m >> 32) as u8,
        (m >> 40) as u8,
        (m >> 48) as u8,
        (m >> 56) as u8,
    ]
}

/// Little-endian bytes of a 32-bit integer.
pub open spec fn u32_le(m: u32) -> Seq<u8> {
    seq![m as u8, (m >> 8) as u8, (m >> 16) as u8, (m >> 24) as u8]
}

/// The 64-bit integer with the given little-endian bytes.
pub open spec fn u64_of_bytes(
    b0: u8,
    b1: u8,
    b2: u8,
    b3: u8,
    b4: u8,
    b5: u8,
    b6: u8,
    b7: u8,
) -> u64 {
    (b0 as u64) | ((b1 as u64) << 8) | ((b2 as u64) << 16) | ((b3 as u64) << 24) | ((b4
        as u64) << 32) | ((b5 as u64) << 40) | ((b6 as u64) << 48) | ((b7 as u64) << 56)
}

/// The 32-bit integer with the given little-endian bytes.
pub open spec fn u32_of_bytes(b0: u8, b1: u8, b2: u8, b3: u8) -> u32 {
    (b0 as u32) | ((b1 as u32) << 8) | ((b2 as u32) << 16) | ((b3 as u32) << 24)
}

pub proof fn lemma_u64_round(m: u64)
    ensures
        u64_of_bytes(
            u64_le(m)[0],
            u64_le(m)[1],
            u64_le(m)[2],
            u64_le(m)[3],
            u64_le(m)[4],
            u64_le(m)[5],
            u64_le(m)[6],
            u64_le(m)[7],
        ) == m,
{
    assert(((m as u8) as u64) | ((((m >> 8) as u8) as u64) << 8) | ((((m >> 16) as u8)
        as u64) << 16) | ((((m >> 24) as u8) as u64) << 24) | ((((m >> 32) as u8) as u64)
        << 32) | ((((m >> 40) as u8) as u64) << 40) | ((((m >> 48) as u8) as u64) << 48) | ((((m
        >> 56) as u8) as u64) << 56) == m) by (bit_vector);
}

pub proof fn lemma_u32_round(m: u32)
    ensures
        u32_of_bytes(u32_le(m)[0], u32_le(m)[1], u32_le(m)[2], u32_le(m)[3]) == m,
{
    assert(((m as u8) as u32) | ((((m >> 8) as u8) as u32) << 8) | ((((m >> 16) as u8)
        as u32) << 16) | ((((m >> 24) as u8) as u32) << 24) == m) by (bit_vector);
}

/// Four little-endian bytes per character.
pub open spec fn chars_le(s: Seq<char>) -> Seq<u8>
    decreases s.len(),
{
    if s.len() == 0 {
        Seq::empty()
    } else {
        u32_le(s[0] as u32) + chars_le(s.skip(1))
    }
}

pub proof fn lemma_chars_le_len(s: Seq<char>)
    ensures
        chars_le(s).len() == 4 * s.len(),
    decreases s.len(),
{
    if s.len() > 0 {
        lemma_chars_le_len(s.skip(1));
    }
}

pub proof fn lemma_chars_le_concat(a: Seq<char>, b: Seq<char>)
    ensures
        chars_le(a + b) == chars_le(a) + chars_le(b),
    decreases a.len(),
{
    if a.len() == 0 {
        assert(a + b =~= b);
        assert(chars_le(a) + chars_le(b) =~= chars_le(b));
    } else {
        assert((a + b)[0] == a[0]);
        assert((a + b).skip(1) =~= a.skip(1) + b);
        lemma_chars_le_concat(a.skip(1), b);
        assert(u32_le(a[0] as u32) + (chars_le(a.skip(1)) + chars_le(b)) =~= (u32_le(
            a[0] as u32,
        ) + chars_le(a.skip(1))) + chars_le(b));
    }
}

/// Binary encoding of a value, the revision byte included.
pub open spec fn spec_encode(v: ValueView) -> Seq<u8> {
    match v {
        ValueView::Number(n) => if n >= 0 {
            seq![1u8, 0u8, 0u8] + u64_le(n as u64)
        } else {
            seq![1u8, 0u8, 1u8] + u64_le((-n) as u64)
        },
        ValueView::Strand(s) => seq![1u8, 1u8] + u64_le(s.len() as u64) + chars_le(s),
    }
}

/// Decode four bytes per character; `None` on a value no `char` may hold.
pub open spec fn decode_chars(b: Seq<u8>) -> Option<Seq<char>>
    decreases b.len(),
{
    if b.len() == 0 {
        Some(Seq::empty())
    } else if b.len() < 4 {
        None
    } else {
        let u = u32_of_bytes(b[0], b[1], b[2], b[3]);
        if is_scalar_u32(u) {
            match decode_chars(b.skip(4)) {
                Some(cs) => Some(seq![u as char] + cs),
                None => None,
            }
        } else {
            None
        }
    }
}

/// Decode a whole buffer back into a value; `None` on anything the encoder
/// cannot have produced under the current revision.
pub open spec fn spec_decode(b: Seq<u8>) -> Option<ValueView> {
    if b.len() < 2 || b[0] != 1u8 {
        None
    } else if b[1] == 0u8 {
        if b.len() != 11 {
            None
        } else {
            let m = u64_of_bytes(b[3], b[4], b[5], b[6], b[7], b[8], b[9], b[10]);
            if b[2] == 0u8 {
                if m <= i64::MAX {
                    Some(ValueView::Number(m as int))
                } else {
                    None
                }
            } else if b[2] == 1u8 {
                if 1 <= m <= 0x8000000000000000 {
                    Some(ValueView::Number(-(m as int)))
                } else {
                    None
                }
            } else {
                None
            }
        }
    } else if b[1] == 1u8 {
        if b.len() < 10 {
            None
        } else {
            let cnt = u64_of_bytes(b[2], b[3], b[4], b[5], b[6], b[7], b[8], b[9]);
            if b.len() == 10 + 4 * cnt {
                match decode_chars(b.skip(10)) {
                    Some(cs) => Some(ValueView::Strand(cs)),
                    None => None,
                }
            } else {
                None
            }
        }
    } else {
        None
    }
}

/// Decoding the bytes of an encoding gives back the characters.
proof fn lemma_decode_chars_of_encode(s: Seq<char>)
    ensures
        decode_chars(chars_le(s)) == Some(s),
    decreases s.len(),
{
    if s.len() == 0 {
    } else {
        let u = s[0] as u32;
        let b = chars_le(s);
        lemma_chars_le_len(s.skip(1));
        assert(b.len() == 4 + chars_le(s.skip(1)).len());
        assert(b[0] == u32_le(u)[0] && b[1] == u32_le(u)[1] && b[2] == u32_le(u)[2] && b[3]
            == u32_le(u)[3]);
        lemma_u32_round(u);
        assert(u32_of_bytes(b[0], b[1], b[2], b[3]) == u);
        vstd::utf8::char_is_scalar(s[0]);
        assert(is_scalar_u32(u));
        vstd::utf8::char_u32_cast(s[0], u);
        assert((u as char) == s[0]);
        assert(b.skip(4) =~= chars_le(s.skip(1)));
        lemma_decode_chars_of_encode(s.skip(1));
        assert(seq![u as char] + s.skip(1) =~= s);
    }
}

/// Law: decoding an encoding yields the original value — the versioned
/// binary round trip is the identity on every well-formed clause node.
pub proof fn lemma_encode_decode(v: ValueView)
    requires
        wf_view(v),
    ensures
        spec_decode(spec_encode(v)) == Some(v),
{
    match v {
        ValueView::Number(n) => {
            let mag: u64 = if n >= 0 {
                n as u64
            } else {
                (-n) as u64
            };
            let b = spec_encode(v);
            assert(b.len() == 11);
            assert(b[0] == 1u8 && b[1] == 0u8);
            assert(b[3] == u64_le(mag)[0] && b[4] == u64_le(mag)[1] && b[5] == u64_le(mag)[2]
                && b[6] == u64_le(mag)[3] && b[7] == u64_le(mag)[4] && b[8] == u64_le(mag)[5]
                && b[9] == u64_le(mag)[6] && b[10] == u64_le(mag)[7]);
            lemma_u64_round(mag);
            assert(u64_of_bytes(b[3], b[4], b[5], b[6], b[7], b[8], b[9], b[10]) == mag);
        },
        ValueView::Strand(s) => {
            let cnt: u64 = s.len() as u64;
            let b = spec_encode(v);
            lemma_chars_le_len(s);
            assert(b.len() == 10 + 4 * s.len());
            assert(b[0] == 1u8 && b[1] == 1u8);
            assert(b[2] == u64_le(cnt)[0] && b[3] == u64_le(cnt)[1] && b[4] == u64_le(cnt)[2]
                && b[5] == u64_le(cnt)[3] && b[6] == u64_le(cnt)[4] && b[7] == u64_le(cnt)[5]
                && b[8] == u64_le(cnt)[6] && b[9] == u64_le(cnt)[7]);
            lemma_u64_round(cnt);
            assert(u64_of_bytes(b[2], b[3], b[4], b[5], b[6], b[7], b[8], b[9]) == cnt);
            assert(b.skip(10) =~= chars_le(s));
            lemma_decode_chars_of_encode(s);
        },
    }
}

/// Relies on std's `String::push`: appends the given character to the end of
/// the string.
#[verifier::external_body]
fn push_char(s: &mut String, c: char)
    ensures
        final(s)@ == old(s)@.push(c),
{
    s.push(c);
}

/// Relies on std's `char::from_u32`: `Some` exactly on Unicode scalar values
/// (at most 0x10FFFF and not a surrogate), and the character has that scalar
/// value.
#[verifier::external_body]
fn char_from_u32(u: u32) -> (r: Option<char>)
    ensures
        match r {
            Some(c) => is_scalar_u32(u) && c as u32 == u,
            None => !is_scalar_u32(u),
        },
{
    char::from_u32(u)
}

/// Append the eight little-endian bytes of `m`.
fn push_u64_le(out: &mut Vec<u8>, m: u64)
    ensures
        final(out)@ == old(out)@ + u64_le(m),
{
    out.push(#[verifier::truncate] (m as u8));
    out.push(#[verifier::truncate] ((m >> 8) as u8));
    out.push(#[verifier::truncate] ((m >> 16) as u8));
    out.push(#[verifier::truncate] ((m >> 24) as u8));
    out.push(#[verifier::truncate] ((m >> 32) as u8));
    out.push(#[verifier::truncate] ((m >> 40) as u8));
    out.push(#[verifier::truncate] ((m >> 48) as u8));
    out.push(#[verifier::truncate] ((m >> 56) as u8));
    proof {
        assert(out@ =~= old(out)@ + u64_le(m));
    }
}

/// Append the four little-endian bytes of `m`.
fn push_u32_le(out: &mut Vec<u8>, m: u32)
    ensures
        final(out)@ == old(out)@ + u32_le(m),
{
    out.push(#[verifier::truncate] (m as u8));
    out.push(#[verifier::truncate] ((m >> 8) as u8));
    out.push(#[verifier::truncate] ((m >> 16) as u8));
    out.push(#[verifier::truncate] ((m >> 24) as u8));
    proof {
        assert(out@ =~= old(out)@ + u32_le(m));
    }
}

/// Read eight little-endian bytes at `off`.
fn read_u64_le(b: &[u8], off: usize) -> (m: u64)
    requires
        off + 8 <= b@.len(),
    ensures
        m == u64_of_bytes(
            b@[off as int],
            b@[off + 1],
            b@[off + 2],
            b@[off + 3],
            b@[off + 4],
            b@[off + 5],
            b@[off + 6],
            b@[off + 7],
        ),
{
    (b[off] as u64) | ((b[off + 1] as u64) << 8) | ((b[off + 2] as u64) << 16) | ((b[off
        + 3] as u64) << 24) | ((b[off + 4] as u64) << 32) | ((b[off + 5] as u64) << 40) | ((b[off
        + 6] as u64) << 48) | ((b[off + 7] as u64) << 56)
}

/// Read four little-endian bytes at `off`.
fn read_u32_le(b: &[u8], off: usize) -> (m: u32)
    requires
        off + 4 <= b@.len(),
    ensures
        m == u32_of_bytes(b@[off as int], b@[off + 1], b@[off + 2], b@[off + 3]),
{
    (b[off] as u32) | ((b[off + 1] as u32) << 8) | ((b[off + 2] as u32) << 16) | ((b[off
        + 3] as u32) << 24)
}

impl Start {
    /// Encode this node under the current format revision.
    #[verifier::loop_isolation(false)]
    pub fn encode(&self) -> (out: Vec<u8>)
        ensures
            out@ == spec_encode(self@),
    {
        let mut out: Vec<u8> = Vec::new();
        out.push(REVISION);
        match &self.0 {
            Value::Number(np) => {
                let nv: i64 = *np;
                out.push(0u8);
                let sign: u8 = if nv >= 0 {
                    0u8
                } else {
                    1u8
                };
                let mag: u64 = if nv >= 0 {
                    nv as u64
                } else if nv == i64::MIN {
                    0x8000000000000000u64
                } else {
                    (-nv) as u64
                };
                out.push(sign);
                push_u64_le(&mut out, mag);
                proof {
                    assert(out@ =~= spec_encode(self@));
                }
            },
            Value::Strand(st) => {
                out.push(1u8);
                let len = st.as_str().unicode_len();
                push_u64_le(&mut out, len as u64);
                let ghost header = out@;
                let mut k: usize = 0;
                while k < len
                    invariant
                        k <= len,
                        out@ == header + chars_le(st@.take(k as int)),
                    decreases len - k,
                {
                    let c = st.as_str().get_char(k);
                    push_u32_le(&mut out, c as u32);
                    proof {
                        assert(st@.take(k + 1) =~= st@.take(k as int) + seq![st@[k as int]]);
                        lemma_chars_le_concat(st@.take(k as int), seq![st@[k as int]]);
                        assert(seq![st@[k as int]][0] == st@[k as int]);
                        assert(seq![st@[k as int]].skip(1) =~= Seq::<char>::empty());
                        assert(chars_le(Seq::<char>::empty()) =~= Seq::<u8>::empty());
                        assert(chars_le(seq![st@[k as int]]) =~= u32_le(c as u32));
                        assert(out@ =~= header + chars_le(st@.take(k + 1)));
                    }
                    k = k + 1;
                }
                proof {
                    assert(st@.take(len as int) =~= st@);
                    assert(out@ =~= spec_encode(self@));
                }
            },
        }
        out
    }

    /// Decode a node from a whole buffer; `None` on anything the encoder
    /// cannot have produced under the current revision.
    #[verifier::loop_isolation(false)]
    pub fn decode(b: &[u8]) -> (r: Option<Start>)
        ensures
            match r {
                Some(node) => spec_decode(b@) == Some(node@),
                None => spec_decode(b@) is None,
            },
    {
        if b.len() < 2 {
            return None;
        }
        if b[0] != REVISION {
            return None;
        }
        let tag = b[1];
        if tag == 0u8 {
            if b.len() != 11 {
                return None;
            }
            let sign = b[2];
            let m = read_u64_le(b, 3);
            if sign == 0u8 {
                if m <= 0x7FFFFFFFFFFFFFFFu64 {
                    Some(Start(Value::Number(m as i64)))
                } else {
                    None
                }
            } else if sign == 1u8 {
                if 1 <= m && m <= 0x8000000000000000u64 {
                    let nv: i64 = if m == 0x8000000000000000u64 {
                        i64::MIN
                    } else {
                        -(m as i64)
                    };
                    Some(Start(Value::Number(nv)))
                } else {
                    None
                }
            } else {
                None
            }
        } else if tag == 1u8 {
            if b.len() < 10 {
                return None;
            }
            let cnt64 = read_u64_le(b, 2);
            let body = b.len() - 10;
            if body % 4 != 0 {
                proof {
                    if b@.len() == 10 + 4 * cnt64 {
                        vstd::arithmetic::div_mod::lemma_fundamental_div_mod_converse(
                            body as int,
                            4,
                            cnt64 as int,
                            0,
                        );
                        assert(false);
                    }
                }
                return None;
            }
            let cnt = body / 4;
            proof {
                vstd::arithmetic::div_mod::lemma_fundamental_div_mod(body as int, 4);
                assert(body == 4 * cnt);
            }
            if cnt as u64 != cnt64 {
                return None;
            }
            let mut st = String::new();
            let mut k: usize = 0;
            while k < cnt
                invariant
                    k <= cnt,
                    decode_chars(b@.skip(10)) == (match decode_chars(b@.skip(10 + 4 * k)) {
                        Some(cs) => Some(st@ + cs),
                        None => None,
                    }),
                decreases cnt - k,
            {
                let u = read_u32_le(b, 10 + 4 * k);
                let ghost rest = b@.skip(10 + 4 * k);
                proof {
                    assert(rest.len() == 4 * (cnt - k));
                    assert(rest[0] == b@[10 + 4 * k] && rest[1] == b@[10 + 4 * k + 1] && rest[2]
                        == b@[10 + 4 * k + 2] && rest[3] == b@[10 + 4 * k + 3]);
                    assert(rest.skip(4) =~= b@.skip(10 + 4 * (k + 1)));
                }
                match char_from_u32(u) {
                    Some(c) => {
                        proof {
                            vstd::utf8::char_u32_cast(c, u);
                            assert((u as char) == c);
                        }
                        let ghost st0 = st@;
                        push_char(&mut st, c);
                        proof {
                            assert(match decode_chars(b@.skip(10 + 4 * (k + 1))) {
                                Some(cs) => st@ + cs =~= st0 + (seq![c] + cs),
                                None => true,
                            });
                        }
                    },
                    None => {
                        return None;
                    },
                }
                k = k + 1;
            }
            proof {
                assert(b@.skip(10 + 4 * cnt) =~= Seq::<u8>::empty());
                assert(st@ + Seq::<char>::empty() =~= st@);
            }
            Some(Start(Value::Strand(st)))
        } else {
            None
        }
    }
}

} // verus!
