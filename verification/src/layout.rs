//! Byte-level layout of the record area: little-endian integers and the
//! length-prefixed string and array fields that records are built from.

use vstd::prelude::*;

use crate::utf16;

verus! {

/// Little-endian unsigned value of the two bytes at `i`.
pub open spec fn le16_at(b: Seq<u8>, i: int) -> int {
    b[i] + 0x100 * b[i + 1]
}

/// Little-endian unsigned value of the four bytes at `i`.
pub open spec fn le32_at(b: Seq<u8>, i: int) -> int {
    b[i] + 0x100 * b[i + 1] + 0x1_0000 * b[i + 2] + 0x100_0000 * b[i + 3]
}

/// The four bytes at `i` as a little-endian two's-complement 32-bit value.
pub open spec fn le32_signed_at(b: Seq<u8>, i: int) -> int {
    if le32_at(b, i) < 0x8000_0000 {
        le32_at(b, i)
    } else {
        le32_at(b, i) - 0x1_0000_0000
    }
}

/// Reads the two bytes at `i` as a little-endian unsigned 16-bit integer.
pub fn read_u16_le(b: &[u8], i: usize) -> (r: u16)
    requires
        i + 2 <= b@.len(),
    ensures
        r == le16_at(b@, i as int),
{
    let lo: u16 = b[i] as u16;
    let hi: u16 = b[i + 1] as u16;
    lo + hi * 0x100
}

/// Reads the four bytes at `i` as a little-endian unsigned 32-bit integer.
pub fn read_u32_le(b: &[u8], i: usize) -> (r: u32)
    requires
        i + 4 <= b@.len(),
    ensures
        r == le32_at(b@, i as int),
{
    let b0: u32 = b[i] as u32;
    let b1: u32 = b[i + 1] as u32;
    let b2: u32 = b[i + 2] as u32;
    let b3: u32 = b[i + 3] as u32;
    b0 + b1 * 0x100 + b2 * 0x1_0000 + b3 * 0x100_0000
}

/// Reads the four bytes at `i` as a little-endian signed 32-bit integer.
pub fn read_i32_le(b: &[u8], i: usize) -> (r: i32)
    requires
        i + 4 <= b@.len(),
    ensures
        r == le32_signed_at(b@, i as int),
{
    let raw = read_u32_le(b, i);
    if raw < 0x8000_0000 {
        raw as i32
    } else {
        -((0xFFFF_FFFFu32 - raw) as i32) - 1
    }
}

/// End of the length-prefixed string field that starts at `i`: one count
/// byte, then two bytes per code unit.
pub open spec fn str_field_end(b: Seq<u8>, i: int) -> int {
    i + 1 + 2 * b[i]
}

/// True when the string field at `i` lies entirely inside the buffer.
pub open spec fn str_field_fits(b: Seq<u8>, i: int) -> bool {
    0 <= i && i < b.len() && str_field_end(b, i) <= b.len()
}

/// The code units of the string field at `i`.
pub open spec fn str_field_units(b: Seq<u8>, i: int) -> Seq<u16> {
    Seq::new(b[i] as nat, |k: int| le16_at(b, i + 1 + 2 * k) as u16)
}

/// End of the length-prefixed 32-bit array field that starts at `i`: one
/// count byte, then four bytes per element.
pub open spec fn arr_field_end(b: Seq<u8>, i: int) -> int {
    i + 1 + 4 * b[i]
}

/// True when the array field at `i` lies entirely inside the buffer.
pub open spec fn arr_field_fits(b: Seq<u8>, i: int) -> bool {
    0 <= i && i < b.len() && arr_field_end(b, i) <= b.len()
}

/// The elements of the array field at `i`.
pub open spec fn arr_field_elems(b: Seq<u8>, i: int) -> Seq<u32> {
    Seq::new(b[i] as nat, |k: int| le32_at(b, i + 1 + 4 * k) as u32)
}

/// A zero-length array field always decodes, to the empty sequence.
pub proof fn lemma_empty_array_field(b: Seq<u8>, i: int)
    requires
        0 <= i < b.len(),
        b[i] == 0,
    ensures
        arr_field_fits(b, i),
        arr_field_elems(b, i) == Seq::<u32>::empty(),
        arr_field_end(b, i) == i + 1,
{
    assert(arr_field_elems(b, i) =~= Seq::<u32>::empty());
}

/// Reads the string field at `i`, decoding its code units into text;
/// malformed units decode to the empty string. Returns the text and the
/// offset just past the field, or `None` when the field runs past the
/// buffer end.
pub fn read_str_field(b: &[u8], i: usize) -> (r: Option<(String, usize)>)
    ensures
        r is Some <==> str_field_fits(b@, i as int),
        r matches Some(p) ==> p.1 == str_field_end(b@, i as int) && p.0@
            == utf16::decode_utf16_or_empty(str_field_units(b@, i as int)),
{
    if i >= b.len() {
        return None;
    }
    let n = b[i] as usize;
    if 2 * n > b.len() - (i + 1) {
        return None;
    }
    let mut units: Vec<u16> = Vec::new();
    let mut k: usize = 0;
    while k < n
        invariant
            k <= n,
            n == b@[i as int],
            i + 1 + 2 * n <= b@.len(),
            b@.len() <= usize::MAX,
            units@.len() == k,
            forall|j: int| 0 <= j < k ==> units@[j] == str_field_units(b@, i as int)[j],
        decreases n - k,
    {
        let u = read_u16_le(b, i + 1 + 2 * k);
        units.push(u);
        k = k + 1;
    }
    proof {
        assert(units@ =~= str_field_units(b@, i as int));
    }
    let s = utf16::units_to_string_lossy(units.as_slice());
    Some((s, i + 1 + 2 * n))
}

/// Reads the 32-bit array field at `i`. Returns the elements in encoding
/// order and the offset just past the field, or `None` when the field runs
/// past the buffer end.
pub fn read_arr_field(b: &[u8], i: usize) -> (r: Option<(Vec<u32>, usize)>)
    ensures
        r is Some <==> arr_field_fits(b@, i as int),
        r matches Some(p) ==> p.1 == arr_field_end(b@, i as int) && p.0@ == arr_field_elems(
            b@,
            i as int,
        ),
{
    if i >= b.len() {
        return None;
    }
    let n = b[i] as usize;
    if 4 * n > b.len() - (i + 1) {
        return None;
    }
    let mut elems: Vec<u32> = Vec::new();
    let mut k: usize = 0;
    while k < n
        invariant
            k <= n,
            n == b@[i as int],
            i + 1 + 4 * n <= b@.len(),
            b@.len() <= usize::MAX,
            elems@.len() == k,
            forall|j: int| 0 <= j < k ==> elems@[j] == arr_field_elems(b@, i as int)[j],
        decreases n - k,
    {
        let v = read_u32_le(b, i + 1 + 4 * k);
        elems.push(v);
        k = k + 1;
    }
    proof {
        assert(elems@ =~= arr_field_elems(b@, i as int));
    }
    Some((elems, i + 1 + 4 * n))
}

} // verus!
