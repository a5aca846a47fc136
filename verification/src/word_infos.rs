//! The decoded record type and the identifier-to-record lookup.
//!
//! A record is laid out as: surface (string field), head-word length (one
//! byte), part-of-speech id (16-bit), normalized form (string field),
//! dictionary-form word id (signed 32-bit), reading form (string field),
//! then the A-unit split, B-unit split and word-structure array fields.
//! All integers are little-endian. The offset table maps an entry
//! identifier to the byte offset of its record.

use vstd::prelude::*;

use crate::layout;
use crate::utf16;

verus! {

/// Why a lookup failed.
#[derive(Clone, Copy, Debug, PartialEq, Eq)]
pub enum LookupError {
    /// The identifier's slot in the offset table lies beyond the buffer.
    NotFound,
    /// A record's declared field lengths read past the buffer end, or its
    /// dictionary-form chain is deeper than one cross-reference.
    MalformedRecord,
    /// The record's dictionary-form cross-reference names an entry that
    /// itself fails to resolve.
    DanglingReference,
}

/// One decoded lexical entry.
#[derive(Debug, PartialEq)]
pub struct WordInfo {
    /// The literal text form as it appears in source text.
    pub surface: String,
    head_word_length: u8,
    /// Reference into an external part-of-speech table.
    pub pos_id: u16,
    /// Canonical spelling; equals `surface` when the encoded value is empty.
    pub normalized_form: String,
    /// Phonetic reading.
    pub reading_form: String,
    /// Identifiers of the entry's A-mode sub-units.
    pub a_unit_split: Vec<u32>,
    /// Identifiers of the entry's B-mode sub-units.
    pub b_unit_split: Vec<u32>,
    /// Identifiers of the entry's components.
    pub word_structure: Vec<u32>,
    /// Identifier of the entry supplying the canonical headword; negative
    /// means "use self".
    pub dictionary_form_word_id: i32,
    /// Canonical headword; `surface`, or another entry's `surface` when
    /// cross-referenced.
    pub dictionary_form: String,
}

/// The mathematical content of a decoded entry.
#[verifier::ext_equal]
pub ghost struct WordInfoModel {
    /// The literal text form.
    pub surface: Seq<char>,
    /// Byte length of the recognized head-word prefix.
    pub head_word_length: u8,
    /// Reference into an external part-of-speech table.
    pub pos_id: u16,
    /// Canonical spelling.
    pub normalized_form: Seq<char>,
    /// Phonetic reading.
    pub reading_form: Seq<char>,
    /// Identifiers of the entry's A-mode sub-units.
    pub a_unit_split: Seq<u32>,
    /// Identifiers of the entry's B-mode sub-units.
    pub b_unit_split: Seq<u32>,
    /// Identifiers of the entry's components.
    pub word_structure: Seq<u32>,
    /// Value of the signed dictionary-form reference.
    pub dictionary_form_word_id: int,
    /// Canonical headword.
    pub dictionary_form: Seq<char>,
}

impl View for WordInfo {
    type V = WordInfoModel;

    closed spec fn view(&self) -> WordInfoModel {
        WordInfoModel {
            surface: self.surface@,
            head_word_length: self.head_word_length,
            pos_id: self.pos_id,
            normalized_form: self.normalized_form@,
            reading_form: self.reading_form@,
            a_unit_split: self.a_unit_split@,
            b_unit_split: self.b_unit_split@,
            word_structure: self.word_structure@,
            dictionary_form_word_id: self.dictionary_form_word_id as int,
            dictionary_form: self.dictionary_form@,
        }
    }
}

/// Offset of the head-word-length byte of the record at `off`.
pub open spec fn hwl_pos(b: Seq<u8>, off: int) -> int {
    layout::str_field_end(b, off)
}

/// Offset of the part-of-speech id of the record at `off`.
pub open spec fn pos_id_pos(b: Seq<u8>, off: int) -> int {
    hwl_pos(b, off) + 1
}

/// Offset of the normalized-form field of the record at `off`.
pub open spec fn norm_pos(b: Seq<u8>, off: int) -> int {
    pos_id_pos(b, off) + 2
}

/// Offset of the dictionary-form word id of the record at `off`.
pub open spec fn dfwi_pos(b: Seq<u8>, off: int) -> int {
    layout::str_field_end(b, norm_pos(b, off))
}

/// Offset of the reading-form field of the record at `off`.
pub open spec fn reading_pos(b: Seq<u8>, off: int) -> int {
    dfwi_pos(b, off) + 4
}

/// Offset of the A-unit-split field of the record at `off`.
pub open spec fn a_split_pos(b: Seq<u8>, off: int) -> int {
    layout::str_field_end(b, reading_pos(b, off))
}

/// Offset of the B-unit-split field of the record at `off`.
pub open spec fn b_split_pos(b: Seq<u8>, off: int) -> int {
    layout::arr_field_end(b, a_split_pos(b, off))
}

/// Offset of the word-structure field of the record at `off`.
pub open spec fn w_struct_pos(b: Seq<u8>, off: int) -> int {
    layout::arr_field_end(b, b_split_pos(b, off))
}

/// Offset just past the record at `off`.
pub open spec fn record_end(b: Seq<u8>, off: int) -> int {
    layout::arr_field_end(b, w_struct_pos(b, off))
}

/// True when every field of the record at `off` lies inside the buffer.
pub open spec fn record_fits(b: Seq<u8>, off: int) -> bool {
    &&& layout::str_field_fits(b, off)
    &&& pos_id_pos(b, off) + 2 <= b.len()
    &&& layout::str_field_fits(b, norm_pos(b, off))
    &&& dfwi_pos(b, off) + 4 <= b.len()
    &&& layout::str_field_fits(b, reading_pos(b, off))
    &&& layout::arr_field_fits(b, a_split_pos(b, off))
    &&& layout::arr_field_fits(b, b_split_pos(b, off))
    &&& layout::arr_field_fits(b, w_struct_pos(b, off))
}

/// The entry encoded by the record at `off`, before any dictionary-form
/// cross-reference is resolved: `dictionary_form` is the surface, and the
/// normalized form falls back to the surface when its encoded value is
/// empty. Meaningful when `record_fits(b, off)`.
pub open spec fn record_at(b: Seq<u8>, off: int) -> WordInfoModel {
    let surface = utf16::decode_utf16_or_empty(layout::str_field_units(b, off));
    let norm = utf16::decode_utf16_or_empty(layout::str_field_units(b, norm_pos(b, off)));
    WordInfoModel {
        surface: surface,
        head_word_length: b[hwl_pos(b, off)],
        pos_id: layout::le16_at(b, pos_id_pos(b, off)) as u16,
        normalized_form: if norm.len() == 0 {
            surface
        } else {
            norm
        },
        reading_form: utf16::decode_utf16_or_empty(
            layout::str_field_units(b, reading_pos(b, off)),
        ),
        a_unit_split: layout::arr_field_elems(b, a_split_pos(b, off)),
        b_unit_split: layout::arr_field_elems(b, b_split_pos(b, off)),
        word_structure: layout::arr_field_elems(b, w_struct_pos(b, off)),
        dictionary_form_word_id: layout::le32_signed_at(b, dfwi_pos(b, off)),
        dictionary_form: surface,
    }
}

/// True when the offset-table slot of entry `id` lies inside the buffer.
pub open spec fn table_slot_fits(b: Seq<u8>, base: int, id: int) -> bool {
    0 <= base && 0 <= id && base + 4 * id + 4 <= b.len()
}

/// Byte offset of the record of entry `id`, read from the offset table.
pub open spec fn record_offset(b: Seq<u8>, base: int, id: int) -> int {
    layout::le32_at(b, base + 4 * id)
}

/// Resolving entry `id` to its own record, without following the
/// dictionary-form cross-reference.
pub open spec fn spec_decode_entry(b: Seq<u8>, base: int, id: int) -> Result<
    WordInfoModel,
    LookupError,
> {
    if !table_slot_fits(b, base, id) {
        Err(LookupError::NotFound)
    } else if !record_fits(b, record_offset(b, base, id)) {
        Err(LookupError::MalformedRecord)
    } else {
        Ok(record_at(b, record_offset(b, base, id)))
    }
}

/// The full lookup of entry `id`: decode its record, and when its
/// dictionary-form reference names a different entry, substitute that
/// entry's surface as the dictionary form. A reference whose target fails
/// to resolve invalidates the lookup; a target that itself refers onward
/// is a chain deeper than the format allows, and counts as malformed.
pub open spec fn spec_lookup(b: Seq<u8>, base: int, id: int) -> Result<
    WordInfoModel,
    LookupError,
> {
    match spec_decode_entry(b, base, id) {
        Err(e) => Err(e),
        Ok(w) => {
            let dfwi = w.dictionary_form_word_id;
            if dfwi >= 0 && dfwi != id {
                match spec_decode_entry(b, base, dfwi) {
                    Err(_) => Err(LookupError::DanglingReference),
                    Ok(t) => {
                        if t.dictionary_form_word_id >= 0 && t.dictionary_form_word_id != dfwi {
                            Err(LookupError::MalformedRecord)
                        } else {
                            Ok(WordInfoModel { dictionary_form: t.surface, ..w })
                        }
                    },
                }
            } else {
                Ok(w)
            }
        },
    }
}

/// An identifier whose offset-table slot starts at or past the buffer end
/// resolves to `NotFound`.
pub proof fn lemma_out_of_range_not_found(b: Seq<u8>, base: int, id: int)
    requires
        0 <= base,
        0 <= id,
        base + 4 * id >= b.len(),
    ensures
        spec_lookup(b, base, id) == Err::<WordInfoModel, LookupError>(LookupError::NotFound),
{
}

/// An entry whose dictionary-form reference is negative or names the entry
/// itself keeps its own surface as its dictionary form.
pub proof fn lemma_self_reference_keeps_surface(b: Seq<u8>, base: int, id: int)
    requires
        spec_lookup(b, base, id) matches Ok(w) && (w.dictionary_form_word_id < 0
            || w.dictionary_form_word_id == id),
    ensures
        spec_lookup(b, base, id) matches Ok(w) && w.dictionary_form == w.surface,
{
}

/// An entry whose record refers to a different entry, one whose own record
/// does not refer onward, resolves exactly when that target resolves, and
/// then borrows the target's surface as its dictionary form.
pub proof fn lemma_cross_reference(b: Seq<u8>, base: int, id: int, t_id: int)
    requires
        spec_decode_entry(b, base, id) matches Ok(w) && w.dictionary_form_word_id == t_id,
        t_id >= 0,
        t_id != id,
        spec_decode_entry(b, base, t_id) matches Ok(t) ==> (t.dictionary_form_word_id < 0
            || t.dictionary_form_word_id == t_id),
    ensures
        spec_lookup(b, base, id) is Ok <==> spec_lookup(b, base, t_id) is Ok,
        spec_lookup(b, base, id) matches Ok(w) ==> (spec_lookup(b, base, t_id) matches Ok(t)
            && w.dictionary_form == t.surface),
{
}

/// The normalized form of a resolved entry falls back to the surface: when
/// its encoded value decodes to nothing it equals the surface, and so it
/// can only be empty when the surface is empty too.
pub proof fn lemma_normalized_form_fallback(b: Seq<u8>, base: int, id: int)
    requires
        spec_lookup(b, base, id) is Ok,
    ensures
        spec_lookup(b, base, id) matches Ok(w) ==> {
            let off = record_offset(b, base, id);
            &&& utf16::decode_utf16_or_empty(layout::str_field_units(b, norm_pos(b, off))).len()
                == 0 ==> w.normalized_form == w.surface
            &&& w.normalized_form.len() == 0 ==> w.surface.len() == 0
        },
{
}

/// Decodes the record at `off` into an entry, or `None` when a field runs
/// past the buffer end.
fn decode_record(b: &[u8], off: usize) -> (r: Option<WordInfo>)
    ensures
        r is Some <==> record_fits(b@, off as int),
        r matches Some(w) ==> w@ == record_at(b@, off as int),
{
    let (surface, p1) = match layout::read_str_field(b, off) {
        Some(p) => p,
        None => {
            return None;
        },
    };
    if b.len() - p1 < 3 {
        return None;
    }
    let head_word_length = b[p1];
    let pos_id = layout::read_u16_le(b, p1 + 1);
    let (normalized_raw, p2) = match layout::read_str_field(b, p1 + 3) {
        Some(p) => p,
        None => {
            return None;
        },
    };
    if b.len() - p2 < 4 {
        return None;
    }
    let dictionary_form_word_id = layout::read_i32_le(b, p2);
    let (reading_form, p3) = match layout::read_str_field(b, p2 + 4) {
        Some(p) => p,
        None => {
            return None;
        },
    };
    let (a_unit_split, p4) = match layout::read_arr_field(b, p3) {
        Some(p) => p,
        None => {
            return None;
        },
    };
    let (b_unit_split, p5) = match layout::read_arr_field(b, p4) {
        Some(p) => p,
        None => {
            return None;
        },
    };
    let (word_structure, _p6) = match layout::read_arr_field(b, p5) {
        Some(p) => p,
        None => {
            return None;
        },
    };
    let normalized_form = if normalized_raw.as_str().is_empty() {
        surface.clone()
    } else {
        normalized_raw
    };
    let dictionary_form = surface.clone();
    Some(
        WordInfo {
            surface,
            head_word_length,
            pos_id,
            normalized_form,
            reading_form,
            a_unit_split,
            b_unit_split,
            word_structure,
            dictionary_form_word_id,
            dictionary_form,
        },
    )
}

/// A view of the dictionary buffer that resolves entry identifiers to
/// decoded records through the offset table.
pub struct WordInfos<'a> {
    bytes: &'a [u8],
    offset: usize,
    word_size: u32,
}

/// The mathematical content of a [`WordInfos`] handle.
pub ghost struct WordInfosView {
    /// The dictionary buffer.
    pub bytes: Seq<u8>,
    /// Byte offset where the offset table begins.
    pub base: int,
    /// Declared number of entries.
    pub count: int,
}

impl<'a> View for WordInfos<'a> {
    type V = WordInfosView;

    closed spec fn view(&self) -> WordInfosView {
        WordInfosView { bytes: self.bytes@, base: self.offset as int, count: self.word_size as int }
    }
}

impl<'a> WordInfos<'a> {
    /// Wraps `bytes`, whose offset table starts at `offset` and declares
    /// `word_size` entries.
    pub fn new(bytes: &'a [u8], offset: usize, word_size: u32) -> (r: WordInfos<'a>)
        ensures
            r@.bytes == bytes@,
            r@.base == offset as int,
            r@.count == word_size as int,
    {
        WordInfos { bytes, offset, word_size }
    }

    /// Looks up the offset-table slot of `id` and returns the byte offset
    /// of its record, or `NotFound` when the slot lies beyond the buffer.
    fn offset_of(&self, id: usize) -> (r: Result<usize, LookupError>)
        ensures
            r is Ok <==> table_slot_fits(self@.bytes, self@.base, id as int),
            r matches Ok(off) ==> off == record_offset(self@.bytes, self@.base, id as int),
            r matches Err(e) ==> e == LookupError::NotFound,
    {
        let len = self.bytes.len();
        if len < 4 || self.offset > len - 4 {
            return Err(LookupError::NotFound);
        }
        if id > (len - 4 - self.offset) / 4 {
            return Err(LookupError::NotFound);
        }
        let pos = self.offset + 4 * id;
        Ok(layout::read_u32_le(self.bytes, pos) as usize)
    }

    /// Resolves entry `id` to a fully populated record, or says why it
    /// cannot be: `NotFound` when the identifier has no offset-table slot,
    /// `MalformedRecord` when a record overruns the buffer or a
    /// dictionary-form chain is deeper than one cross-reference, and
    /// `DanglingReference` when the cross-reference target itself fails
    /// to resolve.
    pub fn lookup(&self, word_id: usize) -> (r: Result<WordInfo, LookupError>)
        ensures
            ({
                let s = spec_lookup(self@.bytes, self@.base, word_id as int);
                match r {
                    Ok(w) => s == Ok::<WordInfoModel, LookupError>(w@),
                    Err(e) => s == Err::<WordInfoModel, LookupError>(e),
                }
            }),
    {
        let rec_off = match self.offset_of(word_id) {
            Ok(off) => off,
            Err(e) => {
                return Err(e);
            },
        };
        let mut w = match decode_record(self.bytes, rec_off) {
            Some(w) => w,
            None => {
                return Err(LookupError::MalformedRecord);
            },
        };
        let dfwi = w.dictionary_form_word_id;
        if dfwi >= 0 && dfwi as usize != word_id {
            let target = dfwi as usize;
            let t_off = match self.offset_of(target) {
                Ok(off) => off,
                Err(_) => {
                    return Err(LookupError::DanglingReference);
                },
            };
            let t = match decode_record(self.bytes, t_off) {
                Some(t) => t,
                None => {
                    return Err(LookupError::DanglingReference);
                },
            };
            let t_dfwi = t.dictionary_form_word_id;
            if t_dfwi >= 0 && t_dfwi as usize != target {
                return Err(LookupError::MalformedRecord);
            }
            w.dictionary_form = t.surface;
            Ok(w)
        } else {
            Ok(w)
        }
    }

    /// Resolves entry `word_id` as [`Self::lookup`] does, flattening every
    /// failure into `None`.
    pub fn get_word_info(&self, word_id: usize) -> (r: Option<WordInfo>)
        ensures
            ({
                let s = spec_lookup(self@.bytes, self@.base, word_id as int);
                match r {
                    Some(w) => s == Ok::<WordInfoModel, LookupError>(w@),
                    None => s is Err,
                }
            }),
    {
        match self.lookup(word_id) {
            Ok(w) => Some(w),
            Err(_) => None,
        }
    }
}

} // verus!
