//! UTF-16 encoding and decoding of character sequences.
//!
//! String fields of a record are stored as little-endian 16-bit code units.
//! A unit outside the surrogate ranges stands for itself; a high surrogate
//! followed by a low surrogate encodes one supplementary character; any other
//! arrangement of surrogates is malformed.

use vstd::prelude::*;

verus! {

/// True when `u` is a UTF-16 high (leading) surrogate.
pub open spec fn is_high_surrogate(u: u16) -> bool {
    0xD800 <= u <= 0xDBFF
}

/// True when `u` is a UTF-16 low (trailing) surrogate.
pub open spec fn is_low_surrogate(u: u16) -> bool {
    0xDC00 <= u <= 0xDFFF
}

/// The scalar value of the surrogate pair `(hi, lo)`.
pub open spec fn pair_scalar(hi: u16, lo: u16) -> int
    recommends
        is_high_surrogate(hi),
        is_low_surrogate(lo),
{
    0x1_0000 + (hi - 0xD800) * 0x400 + (lo - 0xDC00)
}

/// The UTF-16 code units of the single character `c`.
pub open spec fn encode_char_utf16(c: char) -> Seq<u16> {
    let v = c as u32;
    if v < 0x1_0000 {
        seq![v as u16]
    } else {
        seq![
            (0xD800 + (v - 0x1_0000) / 0x400) as u16,
            (0xDC00 + (v - 0x1_0000) % 0x400) as u16,
        ]
    }
}

/// The UTF-16 code units of the character sequence `s`.
pub open spec fn encode_utf16(s: Seq<char>) -> Seq<u16>
    decreases s.len(),
{
    if s.len() == 0 {
        Seq::empty()
    } else {
        encode_char_utf16(s[0]) + encode_utf16(s.drop_first())
    }
}

/// The character sequence encoded by the code units `us`, or `None` when the
/// units contain a surrogate that is not part of a high-low pair.
pub open spec fn decode_utf16(us: Seq<u16>) -> Option<Seq<char>>
    decreases us.len(),
{
    if us.len() == 0 {
        Some(Seq::empty())
    } else if !is_high_surrogate(us[0]) && !is_low_surrogate(us[0]) {
        match decode_utf16(us.drop_first()) {
            Some(rest) => Some(seq![(us[0] as u32) as char] + rest),
            None => None,
        }
    } else if is_high_surrogate(us[0]) && us.len() >= 2 && is_low_surrogate(us[1]) {
        match decode_utf16(us.skip(2)) {
            Some(rest) => Some(seq![(pair_scalar(us[0], us[1]) as u32) as char] + rest),
            None => None,
        }
    } else {
        None
    }
}

/// The decoded characters, with the empty sequence standing in for
/// malformed units.
pub open spec fn decode_utf16_or_empty(us: Seq<u16>) -> Seq<char> {
    match decode_utf16(us) {
        Some(s) => s,
        None => Seq::empty(),
    }
}

/// `rest` with `s` prepended to its contents, when it has any.
pub open spec fn opt_prepend(s: Seq<char>, rest: Option<Seq<char>>) -> Option<Seq<char>> {
    match rest {
        Some(t) => Some(s + t),
        None => None,
    }
}

/// Relies on char::from_u32: the result is `Some` exactly on Unicode scalar
/// values (below 0x110000 and outside the surrogate range), and the
/// character it names has that value.
#[verifier::external_body]
fn char_from_u32(v: u32) -> (r: Option<char>)
    ensures
        r is Some <==> vstd::utf8::is_scalar(v),
        r matches Some(c) ==> c as u32 == v,
{
    char::from_u32(v)
}

/// Relies on String::push: it appends the one character at the end.
#[verifier::external_body]
fn push_char(s: &mut String, c: char)
    ensures
        final(s)@ == old(s)@.push(c),
{
    s.push(c);
}

/// Decodes `units` into a string, or `None` when the units are malformed.
pub fn units_to_string(units: &[u16]) -> (r: Option<String>)
    ensures
        r is Some <==> decode_utf16(units@) is Some,
        r matches Some(s) ==> decode_utf16(units@) == Some(s@),
{
    let n = units.len();
    let mut out = String::new();
    let mut i: usize = 0;
    proof {
        assert(units@.skip(0) =~= units@);
        match decode_utf16(units@) {
            Some(t) => {
                assert(Seq::<char>::empty() + t =~= t);
            },
            None => {},
        }
    }
    while i < n
        invariant
            i <= n,
            n == units@.len(),
            decode_utf16(units@) == opt_prepend(out@, decode_utf16(units@.skip(i as int))),
        decreases n - i,
    {
        let u = units[i];
        let ghost rest = units@.skip(i as int);
        proof {
            assert(rest[0] == units@[i as int]);
        }
        if u < 0xD800 || u > 0xDFFF {
            let c = match char_from_u32(u as u32) {
                Some(c) => c,
                None => unreached(),
            };
            proof {
                vstd::utf8::char_u32_cast(c, u as u32);
                assert(rest.drop_first() =~= units@.skip(i + 1));
            }
            let ghost prev = out@;
            push_char(&mut out, c);
            proof {
                match decode_utf16(units@.skip(i + 1)) {
                    Some(t) => {
                        assert(decode_utf16(rest) == Some(seq![c] + t));
                        assert(prev + (seq![c] + t) =~= out@ + t);
                    },
                    None => {},
                }
            }
            i = i + 1;
        } else if u <= 0xDBFF && i + 1 < n && 0xDC00 <= units[i + 1] && units[i + 1] <= 0xDFFF {
            let lo = units[i + 1];
            let v: u32 = 0x1_0000 + (u - 0xD800) as u32 * 0x400 + (lo - 0xDC00) as u32;
            let c = match char_from_u32(v) {
                Some(c) => c,
                None => unreached(),
            };
            proof {
                vstd::utf8::char_u32_cast(c, v);
                assert(rest[1] == units@[i + 1]);
                assert(rest.skip(2) =~= units@.skip(i + 2));
            }
            let ghost prev = out@;
            push_char(&mut out, c);
            proof {
                match decode_utf16(units@.skip(i + 2)) {
                    Some(t) => {
                        assert(decode_utf16(rest) == Some(seq![c] + t));
                        assert(prev + (seq![c] + t) =~= out@ + t);
                    },
                    None => {},
                }
            }
            i = i + 2;
        } else {
            proof {
                if is_high_surrogate(u) {
                    assert(rest.len() >= 2 ==> rest[1] == units@[i + 1]);
                }
                assert(decode_utf16(rest) is None);
            }
            return None;
        }
    }
    proof {
        assert(units@.skip(n as int) =~= Seq::<u16>::empty());
        assert(out@ + Seq::<char>::empty() =~= out@);
    }
    Some(out)
}

/// Decodes `units`, substituting the empty string for malformed units.
pub fn units_to_string_lossy(units: &[u16]) -> (r: String)
    ensures
        r@ == decode_utf16_or_empty(units@),
{
    match units_to_string(units) {
        Some(s) => s,
        None => String::new(),
    }
}

/// Encodes `s` into UTF-16 code units.
pub fn string_to_units(s: &str) -> (r: Vec<u16>)
    ensures
        r@ == encode_utf16(s@),
{
    let n = s.unicode_len();
    let mut out: Vec<u16> = Vec::new();
    let mut i: usize = 0;
    proof {
        assert(s@.take(0) =~= Seq::<char>::empty());
    }
    while i < n
        invariant
            i <= n,
            n == s@.len(),
            out@ == encode_utf16(s@.take(i as int)),
        decreases n - i,
    {
        let c = s.get_char(i);
        let v = c as u32;
        proof {
            vstd::utf8::char_is_scalar(c);
        }
        let ghost prev = out@;
        if v < 0x1_0000 {
            out.push(v as u16);
            proof {
                assert(prev + encode_char_utf16(c) =~= out@);
            }
        } else {
            let x = v - 0x1_0000;
            assert(x / 0x400 <= 0x3FF && x % 0x400 <= 0x3FF) by {
                assert(x <= 0xFFFFF);
            };
            out.push((0xD800 + x / 0x400) as u16);
            out.push((0xDC00 + x % 0x400) as u16);
            proof {
                assert(prev + encode_char_utf16(c) =~= out@);
            }
        }
        proof {
            lemma_encode_utf16_snoc(s@.take(i as int), c);
            assert(s@.take(i as int).push(c) =~= s@.take(i + 1));
        }
        i = i + 1;
    }
    proof {
        assert(s@.take(n as int) =~= s@);
    }
    out
}

/// Appending one character appends its code units.
pub proof fn lemma_encode_utf16_snoc(s: Seq<char>, c: char)
    ensures
        encode_utf16(s.push(c)) == encode_utf16(s) + encode_char_utf16(c),
    decreases s.len(),
{
    if s.len() == 0 {
        assert(s.push(c)[0] == c);
        assert(s.push(c).drop_first() =~= Seq::<char>::empty());
        assert(encode_utf16(s.push(c)) == encode_char_utf16(c) + encode_utf16(
            Seq::<char>::empty(),
        ));
        assert(encode_utf16(Seq::<char>::empty()) == Seq::<u16>::empty());
        assert(encode_char_utf16(c) + Seq::<u16>::empty() =~= Seq::<u16>::empty()
            + encode_char_utf16(c));
        assert(encode_utf16(s) == Seq::<u16>::empty());
    } else {
        lemma_encode_utf16_snoc(s.drop_first(), c);
        assert(s.push(c)[0] == s[0]);
        assert(s.push(c).drop_first() =~= s.drop_first().push(c));
        assert(encode_char_utf16(s[0]) + (encode_utf16(s.drop_first()) + encode_char_utf16(c))
            =~= (encode_char_utf16(s[0]) + encode_utf16(s.drop_first())) + encode_char_utf16(c));
    }
}

/// Decoding inverts encoding: a character sequence survives the trip into
/// UTF-16 code units and back unchanged.
pub proof fn lemma_utf16_round_trip(s: Seq<char>)
    ensures
        decode_utf16(encode_utf16(s)) == Some(s),
    decreases s.len(),
{
    let e = encode_utf16(s);
    if s.len() == 0 {
        assert(e =~= Seq::<u16>::empty());
        assert(Seq::<char>::empty() =~= s);
    } else {
        lemma_utf16_round_trip(s.drop_first());
        vstd::utf8::char_is_scalar(s[0]);
        let v = s[0] as u32;
        let ec = encode_char_utf16(s[0]);
        let tail = encode_utf16(s.drop_first());
        assert(e == ec + tail);
        if v < 0x1_0000 {
            assert(e[0] == v as u16);
            assert(!is_high_surrogate(e[0]) && !is_low_surrogate(e[0]));
            assert(e.drop_first() =~= tail);
            vstd::utf8::char_u32_cast(s[0], v);
            assert((e[0] as u32) as char == s[0]);
            assert(seq![s[0]] + s.drop_first() =~= s);
        } else {
            let x = v - 0x1_0000;
            assert(x / 0x400 <= 0x3FF && x % 0x400 <= 0x3FF) by {
                assert(x <= 0xFFFFF);
            };
            assert(e[0] == (0xD800 + x / 0x400) as u16);
            assert(e[1] == (0xDC00 + x % 0x400) as u16);
            assert(is_high_surrogate(e[0]) && is_low_surrogate(e[1]));
            assert(e.len() >= 2);
            assert(pair_scalar(e[0], e[1]) == 0x1_0000 + (x / 0x400) * 0x400 + x % 0x400);
            assert((x / 0x400) * 0x400 + x % 0x400 == x) by {
                vstd::arithmetic::div_mod::lemma_fundamental_div_mod(x as int, 0x400);
            };
            assert(e.skip(2) =~= tail);
            vstd::utf8::char_u32_cast(s[0], v);
            assert((pair_scalar(e[0], e[1]) as u32) as char == s[0]);
            assert(seq![s[0]] + s.drop_first() =~= s);
        }
    }
}

} // verus!
