//! Building record bytes from plain field values, and the proof that
//! decoding such bytes recovers the values.

use vstd::prelude::*;

use crate::layout;
use crate::utf16;
use crate::word_infos;

verus! {

/// Little-endian bytes of the 16-bit value `v`.
pub open spec fn le16_bytes(v: int) -> Seq<u8> {
    seq![(v % 0x100) as u8, (v / 0x100 % 0x100) as u8]
}

/// Little-endian bytes of the 32-bit value `v`.
pub open spec fn le32_bytes(v: int) -> Seq<u8> {
    seq![
        (v % 0x100) as u8,
        (v / 0x100 % 0x100) as u8,
        (v / 0x1_0000 % 0x100) as u8,
        (v / 0x100_0000 % 0x100) as u8,
    ]
}

/// The two little-endian bytes of `v` recombine to `v`.
pub proof fn lemma_le16_bytes_value(v: int)
    requires
        0 <= v < 0x1_0000,
    ensures
        le16_bytes(v)[0] + 0x100 * le16_bytes(v)[1] == v,
{
    assert(v % 0x100 + 0x100 * (v / 0x100 % 0x100) == v) by {
        vstd::arithmetic::div_mod::lemma_fundamental_div_mod(v, 0x100);
        assert(v / 0x100 < 0x100);
        assert(v / 0x100 % 0x100 == v / 0x100) by {
            vstd::arithmetic::div_mod::lemma_small_mod((v / 0x100) as nat, 0x100);
        };
    };
}

/// The four little-endian bytes of `v` recombine to `v`.
pub proof fn lemma_le32_bytes_value(v: int)
    requires
        0 <= v < 0x1_0000_0000,
    ensures
        le32_bytes(v)[0] + 0x100 * le32_bytes(v)[1] + 0x1_0000 * le32_bytes(v)[2] + 0x100_0000
            * le32_bytes(v)[3] == v,
{
    vstd::arithmetic::div_mod::lemma_fundamental_div_mod(v, 0x100);
    vstd::arithmetic::div_mod::lemma_fundamental_div_mod(v / 0x100, 0x100);
    vstd::arithmetic::div_mod::lemma_fundamental_div_mod(v / 0x1_0000, 0x100);
    assert(v / 0x100 / 0x100 == v / 0x1_0000) by {
        vstd::arithmetic::div_mod::lemma_div_denominator(v, 0x100, 0x100);
    };
    assert(v / 0x1_0000 / 0x100 == v / 0x100_0000) by {
        vstd::arithmetic::div_mod::lemma_div_denominator(v, 0x1_0000, 0x100);
    };
    assert(v / 0x100_0000 < 0x100);
    assert(v / 0x100_0000 % 0x100 == v / 0x100_0000) by {
        vstd::arithmetic::div_mod::lemma_small_mod((v / 0x100_0000) as nat, 0x100);
    };
}

/// The bytes of the code units `us`, two per unit, little-endian.
pub open spec fn enc_u16s(us: Seq<u16>) -> Seq<u8>
    decreases us.len(),
{
    if us.len() == 0 {
        Seq::empty()
    } else {
        le16_bytes(us[0] as int) + enc_u16s(us.drop_first())
    }
}

/// The bytes of the elements `vs`, four per element, little-endian.
pub open spec fn enc_u32s(vs: Seq<u32>) -> Seq<u8>
    decreases vs.len(),
{
    if vs.len() == 0 {
        Seq::empty()
    } else {
        le32_bytes(vs[0] as int) + enc_u32s(vs.drop_first())
    }
}

/// The bytes of a length-prefixed string field holding the text `s`.
pub open spec fn enc_str_field(s: Seq<char>) -> Seq<u8> {
    seq![utf16::encode_utf16(s).len() as u8] + enc_u16s(utf16::encode_utf16(s))
}

/// The bytes of a length-prefixed 32-bit array field holding `vs`.
pub open spec fn enc_arr_field(vs: Seq<u32>) -> Seq<u8> {
    seq![vs.len() as u8] + enc_u32s(vs)
}

/// Each unit's value can be read back out of `enc_u16s`.
pub proof fn lemma_enc_u16s(us: Seq<u16>)
    ensures
        enc_u16s(us).len() == 2 * us.len(),
        forall|k: int|
            0 <= k < us.len() ==> #[trigger] enc_u16s(us)[2 * k] + 0x100 * enc_u16s(us)[2 * k + 1]
                == us[k],
    decreases us.len(),
{
    if us.len() > 0 {
        lemma_enc_u16s(us.drop_first());
        lemma_le16_bytes_value(us[0] as int);
        let e = enc_u16s(us);
        let rest = enc_u16s(us.drop_first());
        assert forall|k: int| 0 <= k < us.len() implies #[trigger] e[2 * k] + 0x100 * e[2 * k + 1]
            == us[k] by {
            if k == 0 {
                assert(e[0] == le16_bytes(us[0] as int)[0]);
                assert(e[1] == le16_bytes(us[0] as int)[1]);
            } else {
                assert(e[2 * k] == rest[2 * (k - 1)]);
                assert(e[2 * k + 1] == rest[2 * (k - 1) + 1]);
                assert(rest[2 * (k - 1)] + 0x100 * rest[2 * (k - 1) + 1] == us.drop_first()[k - 1]);
            }
        };
    }
}

/// Each element's value can be read back out of `enc_u32s`.
pub proof fn lemma_enc_u32s(vs: Seq<u32>)
    ensures
        enc_u32s(vs).len() == 4 * vs.len(),
        forall|k: int|
            0 <= k < vs.len() ==> #[trigger] enc_u32s(vs)[4 * k] + 0x100 * enc_u32s(vs)[4 * k + 1]
                + 0x1_0000 * enc_u32s(vs)[4 * k + 2] + 0x100_0000 * enc_u32s(vs)[4 * k + 3]
                == vs[k],
    decreases vs.len(),
{
    if vs.len() > 0 {
        lemma_enc_u32s(vs.drop_first());
        lemma_le32_bytes_value(vs[0] as int);
        let e = enc_u32s(vs);
        let rest = enc_u32s(vs.drop_first());
        assert forall|k: int| 0 <= k < vs.len() implies #[trigger] e[4 * k] + 0x100 * e[4 * k + 1]
            + 0x1_0000 * e[4 * k + 2] + 0x100_0000 * e[4 * k + 3] == vs[k] by {
            if k == 0 {
                assert(e[0] == le32_bytes(vs[0] as int)[0]);
                assert(e[1] == le32_bytes(vs[0] as int)[1]);
                assert(e[2] == le32_bytes(vs[0] as int)[2]);
                assert(e[3] == le32_bytes(vs[0] as int)[3]);
            } else {
                assert(e[4 * k] == rest[4 * (k - 1)]);
                assert(e[4 * k + 1] == rest[4 * (k - 1) + 1]);
                assert(e[4 * k + 2] == rest[4 * (k - 1) + 2]);
                assert(e[4 * k + 3] == rest[4 * (k - 1) + 3]);
                assert(rest[4 * (k - 1)] + 0x100 * rest[4 * (k - 1) + 1] + 0x1_0000 * rest[4 * (k
                    - 1) + 2] + 0x100_0000 * rest[4 * (k - 1) + 3] == vs.drop_first()[k - 1]);
            }
        };
    }
}

/// True when `b` holds the bytes `part` starting at `i`.
pub open spec fn has_at(b: Seq<u8>, i: int, part: Seq<u8>) -> bool {
    0 <= i && i + part.len() <= b.len() && forall|j: int|
        0 <= j < part.len() ==> b[i + j] == part[j]
}

/// A buffer holding an encoded string field parses back to its text.
pub proof fn lemma_parse_str_at(b: Seq<u8>, i: int, s: Seq<char>)
    requires
        utf16::encode_utf16(s).len() <= 255,
        has_at(b, i, enc_str_field(s)),
    ensures
        layout::str_field_fits(b, i),
        layout::str_field_end(b, i) == i + enc_str_field(s).len(),
        layout::str_field_units(b, i) == utf16::encode_utf16(s),
        utf16::decode_utf16_or_empty(layout::str_field_units(b, i)) == s,
{
    let us = utf16::encode_utf16(s);
    lemma_enc_u16s(us);
    assert(b[i + 0] == enc_str_field(s)[0]);
    assert(b[i] == us.len() as u8);
    assert forall|k: int| 0 <= k < us.len() implies layout::str_field_units(b, i)[k] == us[k] by {
        assert(b[i + 1 + 2 * k] == enc_str_field(s)[1 + 2 * k]);
        assert(b[i + 1 + 2 * k + 1] == enc_str_field(s)[1 + 2 * k + 1]);
        assert(enc_str_field(s)[1 + 2 * k] == enc_u16s(us)[2 * k]);
        assert(enc_str_field(s)[1 + 2 * k + 1] == enc_u16s(us)[2 * k + 1]);
        assert(layout::le16_at(b, i + 1 + 2 * k) == us[k]);
    };
    assert(layout::str_field_units(b, i) =~= us);
    utf16::lemma_utf16_round_trip(s);
}

/// A buffer holding an encoded array field parses back to its elements.
pub proof fn lemma_parse_arr_at(b: Seq<u8>, i: int, vs: Seq<u32>)
    requires
        vs.len() <= 255,
        has_at(b, i, enc_arr_field(vs)),
    ensures
        layout::arr_field_fits(b, i),
        layout::arr_field_end(b, i) == i + enc_arr_field(vs).len(),
        layout::arr_field_elems(b, i) == vs,
{
    lemma_enc_u32s(vs);
    assert(b[i + 0] == enc_arr_field(vs)[0]);
    assert(b[i] == vs.len() as u8);
    assert forall|k: int| 0 <= k < vs.len() implies layout::arr_field_elems(b, i)[k] == vs[k] by {
        assert(b[i + 1 + 4 * k] == enc_arr_field(vs)[1 + 4 * k]);
        assert(b[i + 1 + 4 * k + 1] == enc_arr_field(vs)[1 + 4 * k + 1]);
        assert(b[i + 1 + 4 * k + 2] == enc_arr_field(vs)[1 + 4 * k + 2]);
        assert(b[i + 1 + 4 * k + 3] == enc_arr_field(vs)[1 + 4 * k + 3]);
        assert(enc_arr_field(vs)[1 + 4 * k] == enc_u32s(vs)[4 * k]);
        assert(enc_arr_field(vs)[1 + 4 * k + 1] == enc_u32s(vs)[4 * k + 1]);
        assert(enc_arr_field(vs)[1 + 4 * k + 2] == enc_u32s(vs)[4 * k + 2]);
        assert(enc_arr_field(vs)[1 + 4 * k + 3] == enc_u32s(vs)[4 * k + 3]);
        assert(layout::le32_at(b, i + 1 + 4 * k) == vs[k]);
    };
    assert(layout::arr_field_elems(b, i) =~= vs);
}

/// The plain field values a record is built from.
#[verifier::ext_equal]
pub ghost struct RecordFields {
    /// The literal text form.
    pub surface: Seq<char>,
    /// Byte length of the recognized head-word prefix.
    pub head_word_length: u8,
    /// Reference into an external part-of-speech table.
    pub pos_id: u16,
    /// Canonical spelling, as stored: empty stands for "same as surface".
    pub normalized_form: Seq<char>,
    /// Value of the signed dictionary-form reference.
    pub dictionary_form_word_id: int,
    /// Phonetic reading.
    pub reading_form: Seq<char>,
    /// Identifiers of the entry's A-mode sub-units.
    pub a_unit_split: Seq<u32>,
    /// Identifiers of the entry's B-mode sub-units.
    pub b_unit_split: Seq<u32>,
    /// Identifiers of the entry's components.
    pub word_structure: Seq<u32>,
}

/// True when the fields fit the length-prefixed encoding: at most 255 code
/// units per string, at most 255 elements per array, and a reference that
/// fits a signed 32-bit integer.
pub open spec fn fields_encodable(f: RecordFields) -> bool {
    &&& utf16::encode_utf16(f.surface).len() <= 255
    &&& utf16::encode_utf16(f.normalized_form).len() <= 255
    &&& utf16::encode_utf16(f.reading_form).len() <= 255
    &&& f.a_unit_split.len() <= 255
    &&& f.b_unit_split.len() <= 255
    &&& f.word_structure.len() <= 255
    &&& -0x8000_0000 <= f.dictionary_form_word_id < 0x8000_0000
}

/// The unsigned 32-bit pattern of the signed value `v`.
pub open spec fn raw_of_i32(v: int) -> int {
    if v >= 0 {
        v
    } else {
        v + 0x1_0000_0000
    }
}

/// The bytes of the record encoding `f`, fields in their layout order.
pub open spec fn enc_record(f: RecordFields) -> Seq<u8> {
    enc_str_field(f.surface) + seq![f.head_word_length] + le16_bytes(f.pos_id as int)
        + enc_str_field(f.normalized_form) + le32_bytes(raw_of_i32(f.dictionary_form_word_id))
        + enc_str_field(f.reading_form) + enc_arr_field(f.a_unit_split) + enc_arr_field(
        f.b_unit_split,
    ) + enc_arr_field(f.word_structure)
}

/// The model an encoded record decodes to: every field as it was given,
/// except that an empty normalized form falls back to the surface, and the
/// dictionary form starts out as the surface.
pub open spec fn decoded_fields(f: RecordFields) -> word_infos::WordInfoModel {
    word_infos::WordInfoModel {
        surface: f.surface,
        head_word_length: f.head_word_length,
        pos_id: f.pos_id,
        normalized_form: if f.normalized_form.len() == 0 {
            f.surface
        } else {
            f.normalized_form
        },
        reading_form: f.reading_form,
        a_unit_split: f.a_unit_split,
        b_unit_split: f.b_unit_split,
        word_structure: f.word_structure,
        dictionary_form_word_id: f.dictionary_form_word_id,
        dictionary_form: f.surface,
    }
}

/// Round trip: a record encoded from plain field values decodes, and
/// yields the same surface, part-of-speech id, reading form and array
/// contents, in order, with the documented normalized-form fallback.
pub proof fn lemma_record_round_trip(f: RecordFields)
    requires
        fields_encodable(f),
    ensures
        word_infos::record_fits(enc_record(f), 0),
        word_infos::record_end(enc_record(f), 0) == enc_record(f).len(),
        word_infos::record_at(enc_record(f), 0) == decoded_fields(f),
{
    let e = enc_record(f);
    let p1 = enc_str_field(f.surface);
    let p2 = seq![f.head_word_length];
    let p3 = le16_bytes(f.pos_id as int);
    let p4 = enc_str_field(f.normalized_form);
    let p5 = le32_bytes(raw_of_i32(f.dictionary_form_word_id));
    let p6 = enc_str_field(f.reading_form);
    let p7 = enc_arr_field(f.a_unit_split);
    let p8 = enc_arr_field(f.b_unit_split);
    let p9 = enc_arr_field(f.word_structure);
    let o2 = p1.len() as int;
    let o3 = o2 + p2.len();
    let o4 = o3 + p3.len();
    let o5 = o4 + p4.len();
    let o6 = o5 + p5.len();
    let o7 = o6 + p6.len();
    let o8 = o7 + p7.len();
    let o9 = o8 + p8.len();
    assert(e.len() == o9 + p9.len());
    assert(has_at(e, 0, p1) && has_at(e, o2, p2) && has_at(e, o3, p3) && has_at(e, o4, p4)
        && has_at(e, o5, p5) && has_at(e, o6, p6) && has_at(e, o7, p7) && has_at(e, o8, p8)
        && has_at(e, o9, p9));
    lemma_parse_str_at(e, 0, f.surface);
    assert(word_infos::hwl_pos(e, 0) == o2);
    assert(e[o2 + 0] == p2[0]);
    assert(word_infos::pos_id_pos(e, 0) == o3);
    assert(e[o3 + 0] == p3[0] && e[o3 + 1] == p3[1]);
    lemma_le16_bytes_value(f.pos_id as int);
    assert(layout::le16_at(e, o3) == f.pos_id);
    assert(word_infos::norm_pos(e, 0) == o4);
    lemma_parse_str_at(e, o4, f.normalized_form);
    assert(word_infos::dfwi_pos(e, 0) == o5);
    assert(e[o5 + 0] == p5[0] && e[o5 + 1] == p5[1] && e[o5 + 2] == p5[2] && e[o5 + 3] == p5[3]);
    lemma_le32_bytes_value(raw_of_i32(f.dictionary_form_word_id));
    assert(layout::le32_at(e, o5) == raw_of_i32(f.dictionary_form_word_id));
    assert(layout::le32_signed_at(e, o5) == f.dictionary_form_word_id);
    assert(word_infos::reading_pos(e, 0) == o6);
    lemma_parse_str_at(e, o6, f.reading_form);
    assert(word_infos::a_split_pos(e, 0) == o7);
    lemma_parse_arr_at(e, o7, f.a_unit_split);
    assert(word_infos::b_split_pos(e, 0) == o8);
    lemma_parse_arr_at(e, o8, f.b_unit_split);
    assert(word_infos::w_struct_pos(e, 0) == o9);
    lemma_parse_arr_at(e, o9, f.word_structure);
    assert(word_infos::record_at(e, 0) =~= decoded_fields(f));
}

/// Appending one unit appends its two bytes.
proof fn lemma_enc_u16s_snoc(us: Seq<u16>, u: u16)
    ensures
        enc_u16s(us.push(u)) == enc_u16s(us) + le16_bytes(u as int),
    decreases us.len(),
{
    if us.len() == 0 {
        assert(us.push(u)[0] == u);
        assert(us.push(u).drop_first() =~= Seq::<u16>::empty());
        assert(enc_u16s(us.push(u)) == le16_bytes(u as int) + enc_u16s(Seq::<u16>::empty()));
        assert(le16_bytes(u as int) + Seq::<u8>::empty() =~= Seq::<u8>::empty() + le16_bytes(
            u as int,
        ));
    } else {
        lemma_enc_u16s_snoc(us.drop_first(), u);
        assert(us.push(u)[0] == us[0]);
        assert(us.push(u).drop_first() =~= us.drop_first().push(u));
        assert(le16_bytes(us[0] as int) + (enc_u16s(us.drop_first()) + le16_bytes(u as int)) =~= (
        le16_bytes(us[0] as int) + enc_u16s(us.drop_first())) + le16_bytes(u as int));
    }
}

/// Appending one element appends its four bytes.
proof fn lemma_enc_u32s_snoc(vs: Seq<u32>, v: u32)
    ensures
        enc_u32s(vs.push(v)) == enc_u32s(vs) + le32_bytes(v as int),
    decreases vs.len(),
{
    if vs.len() == 0 {
        assert(vs.push(v)[0] == v);
        assert(vs.push(v).drop_first() =~= Seq::<u32>::empty());
        assert(enc_u32s(vs.push(v)) == le32_bytes(v as int) + enc_u32s(Seq::<u32>::empty()));
        assert(le32_bytes(v as int) + Seq::<u8>::empty() =~= Seq::<u8>::empty() + le32_bytes(
            v as int,
        ));
    } else {
        lemma_enc_u32s_snoc(vs.drop_first(), v);
        assert(vs.push(v)[0] == vs[0]);
        assert(vs.push(v).drop_first() =~= vs.drop_first().push(v));
        assert(le32_bytes(vs[0] as int) + (enc_u32s(vs.drop_first()) + le32_bytes(v as int)) =~= (
        le32_bytes(vs[0] as int) + enc_u32s(vs.drop_first())) + le32_bytes(v as int));
    }
}

/// Appends the two little-endian bytes of `v`.
fn push_u16_le(out: &mut Vec<u8>, v: u16)
    ensures
        final(out)@ == old(out)@ + le16_bytes(v as int),
{
    out.push((v % 0x100) as u8);
    out.push((v / 0x100) as u8);
    proof {
        assert(v / 0x100 % 0x100 == v / 0x100) by {
            vstd::arithmetic::div_mod::lemma_small_mod((v / 0x100) as nat, 0x100);
        };
        assert(out@ =~= old(out)@ + le16_bytes(v as int));
    }
}

/// Appends the four little-endian bytes of `v`.
fn push_u32_le(out: &mut Vec<u8>, v: u32)
    ensures
        final(out)@ == old(out)@ + le32_bytes(v as int),
{
    out.push((v % 0x100) as u8);
    out.push((v / 0x100 % 0x100) as u8);
    out.push((v / 0x1_0000 % 0x100) as u8);
    out.push((v / 0x100_0000) as u8);
    proof {
        assert(v / 0x100_0000 % 0x100 == v / 0x100_0000) by {
            vstd::arithmetic::div_mod::lemma_small_mod((v / 0x100_0000) as nat, 0x100);
        };
        assert(out@ =~= old(out)@ + le32_bytes(v as int));
    }
}

/// Appends a string field; fails without touching `out` when the text
/// needs more than 255 code units.
fn push_str_field(out: &mut Vec<u8>, s: &str) -> (ok: bool)
    ensures
        ok <==> utf16::encode_utf16(s@).len() <= 255,
        ok ==> final(out)@ == old(out)@ + enc_str_field(s@),
        !ok ==> final(out)@ == old(out)@,
{
    let units = utf16::string_to_units(s);
    let n = units.len();
    if n > 255 {
        return false;
    }
    out.push(n as u8);
    let ghost base = out@;
    let mut k: usize = 0;
    proof {
        assert(units@.take(0) =~= Seq::<u16>::empty());
        assert(base + Seq::<u8>::empty() =~= base);
    }
    while k < n
        invariant
            k <= n,
            n == units@.len(),
            out@ == base + enc_u16s(units@.take(k as int)),
        decreases n - k,
    {
        let u = units[k];
        push_u16_le(out, u);
        proof {
            lemma_enc_u16s_snoc(units@.take(k as int), units@[k as int]);
            assert(units@.take(k as int).push(units@[k as int]) =~= units@.take(k + 1));
        }
        k = k + 1;
    }
    proof {
        assert(units@.take(n as int) =~= units@);
        assert(base + enc_u16s(units@) =~= old(out)@ + enc_str_field(s@));
    }
    true
}

/// Appends an array field; fails without touching `out` when the array
/// holds more than 255 elements.
fn push_arr_field(out: &mut Vec<u8>, vs: &Vec<u32>) -> (ok: bool)
    ensures
        ok <==> vs@.len() <= 255,
        ok ==> final(out)@ == old(out)@ + enc_arr_field(vs@),
        !ok ==> final(out)@ == old(out)@,
{
    let n = vs.len();
    if n > 255 {
        return false;
    }
    out.push(n as u8);
    let ghost base = out@;
    let mut k: usize = 0;
    proof {
        assert(vs@.take(0) =~= Seq::<u32>::empty());
        assert(base + Seq::<u8>::empty() =~= base);
    }
    while k < n
        invariant
            k <= n,
            n == vs@.len(),
            out@ == base + enc_u32s(vs@.take(k as int)),
        decreases n - k,
    {
        let v = vs[k];
        push_u32_le(out, v);
        proof {
            lemma_enc_u32s_snoc(vs@.take(k as int), vs@[k as int]);
            assert(vs@.take(k as int).push(vs@[k as int]) =~= vs@.take(k + 1));
        }
        k = k + 1;
    }
    proof {
        assert(vs@.take(n as int) =~= vs@);
        assert(base + enc_u32s(vs@) =~= old(out)@ + enc_arr_field(vs@));
    }
    true
}

/// Encodes one record from plain field values, or `None` when a string
/// needs more than 255 code units or an array holds more than 255
/// elements.
pub fn encode_record(
    surface: &str,
    head_word_length: u8,
    pos_id: u16,
    normalized_form: &str,
    dictionary_form_word_id: i32,
    reading_form: &str,
    a_unit_split: &Vec<u32>,
    b_unit_split: &Vec<u32>,
    word_structure: &Vec<u32>,
) -> (r: Option<Vec<u8>>)
    ensures
        ({
            let f = (RecordFields {
                surface: surface@,
                head_word_length,
                pos_id,
                normalized_form: normalized_form@,
                dictionary_form_word_id: dictionary_form_word_id as int,
                reading_form: reading_form@,
                a_unit_split: a_unit_split@,
                b_unit_split: b_unit_split@,
                word_structure: word_structure@,
            });
            match r {
                Some(v) => fields_encodable(f) && v@ == enc_record(f),
                None => !fields_encodable(f),
            }
        }),
{
    let mut out: Vec<u8> = Vec::new();
    if !push_str_field(&mut out, surface) {
        return None;
    }
    out.push(head_word_length);
    push_u16_le(&mut out, pos_id);
    if !push_str_field(&mut out, normalized_form) {
        return None;
    }
    let raw: u32 = if dictionary_form_word_id >= 0 {
        dictionary_form_word_id as u32
    } else {
        0xFFFF_FFFFu32 - (-(dictionary_form_word_id + 1)) as u32
    };
    proof {
        assert(raw == raw_of_i32(dictionary_form_word_id as int));
    }
    push_u32_le(&mut out, raw);
    if !push_str_field(&mut out, reading_form) {
        return None;
    }
    if !push_arr_field(&mut out, a_unit_split) {
        return None;
    }
    if !push_arr_field(&mut out, b_unit_split) {
        return None;
    }
    if !push_arr_field(&mut out, word_structure) {
        return None;
    }
    proof {
        let f = (RecordFields {
            surface: surface@,
            head_word_length,
            pos_id,
            normalized_form: normalized_form@,
            dictionary_form_word_id: dictionary_form_word_id as int,
            reading_form: reading_form@,
            a_unit_split: a_unit_split@,
            b_unit_split: b_unit_split@,
            word_structure: word_structure@,
        });
        assert(out@ =~= enc_record(f));
    }
    Some(out)
}

} // verus!
