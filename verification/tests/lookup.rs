use word_infos::encoding::encode_record;
use word_infos::{LookupError, WordInfos};

/// Hand-encoded record: surface "cat", head-word length 3, pos id 0,
/// empty normalized form, dictionary-form word id -1, empty reading,
/// three empty arrays. 19 bytes.
fn cat_record() -> Vec<u8> {
    vec![
        3, 99, 0, 97, 0, 116, 0, // surface "cat"
        3, // head_word_length
        0, 0, // pos_id
        0, // normalized_form (empty)
        255, 255, 255, 255, // dictionary_form_word_id = -1
        0, // reading_form (empty)
        0, 0, 0, // three empty arrays
    ]
}

fn table_entry(off: u32) -> Vec<u8> {
    vec![
        (off & 0xFF) as u8,
        ((off >> 8) & 0xFF) as u8,
        ((off >> 16) & 0xFF) as u8,
        ((off >> 24) & 0xFF) as u8,
    ]
}

#[test]
fn lookup_resolves_self_referencing_entry() {
    // Offset table with two slots at offset 0: records at bytes 8 and 40.
    let mut buf = Vec::new();
    buf.extend(table_entry(8));
    buf.extend(table_entry(40));
    buf.extend(cat_record());
    let infos = WordInfos::new(&buf, 0, 2);
    let w = infos.lookup(0).expect("entry 0 decodes");
    assert_eq!(w.surface, "cat");
    assert_eq!(w.dictionary_form, "cat");
    assert_eq!(w.dictionary_form_word_id, -1);
    assert_eq!(w.pos_id, 0);
}

#[test]
fn empty_normalized_form_falls_back_to_surface() {
    let mut buf = table_entry(4);
    buf.extend(cat_record());
    let infos = WordInfos::new(&buf, 0, 1);
    let w = infos.lookup(0).unwrap();
    assert_eq!(w.normalized_form, "cat");
}

#[test]
fn zero_length_arrays_decode_to_empty_vectors() {
    let mut buf = table_entry(4);
    buf.extend(cat_record());
    let infos = WordInfos::new(&buf, 0, 1);
    let w = infos.lookup(0).unwrap();
    assert_eq!(w.a_unit_split, Vec::<u32>::new());
    assert_eq!(w.b_unit_split, Vec::<u32>::new());
    assert_eq!(w.word_structure, Vec::<u32>::new());
}

#[test]
fn cross_reference_borrows_target_surface() {
    // Entry 0 ("cat") refers to entry 1 ("dog") for its dictionary form.
    let rec0 = encode_record("cat", 3, 0, "", 1, "", &vec![], &vec![], &vec![]).unwrap();
    let rec1 = encode_record("dog", 3, 0, "", -1, "", &vec![], &vec![], &vec![]).unwrap();
    let mut buf = Vec::new();
    buf.extend(table_entry(8));
    buf.extend(table_entry(40));
    buf.extend(rec0.clone());
    while buf.len() < 40 {
        buf.push(0);
    }
    buf.extend(rec1);
    let infos = WordInfos::new(&buf, 0, 2);
    let w = infos.lookup(0).unwrap();
    assert_eq!(w.surface, "cat");
    assert_eq!(w.dictionary_form, "dog");
    assert_eq!(w.dictionary_form_word_id, 1);
    let t = infos.lookup(1).unwrap();
    assert_eq!(t.surface, "dog");
    assert_eq!(t.dictionary_form, "dog");
}

#[test]
fn entry_referencing_its_own_id_keeps_surface() {
    let rec = encode_record("run", 3, 9, "", 0, "", &vec![], &vec![], &vec![]).unwrap();
    let mut buf = table_entry(4);
    buf.extend(rec);
    let infos = WordInfos::new(&buf, 0, 1);
    let w = infos.lookup(0).unwrap();
    assert_eq!(w.dictionary_form_word_id, 0);
    assert_eq!(w.dictionary_form, "run");
}

#[test]
fn dangling_cross_reference_fails_lookup() {
    // Entry 0 refers to entry 5, whose table slot lies past the buffer.
    let rec = encode_record("cat", 3, 0, "", 5, "", &vec![], &vec![], &vec![]).unwrap();
    let mut buf = Vec::new();
    buf.extend(table_entry(8));
    buf.extend(table_entry(40));
    buf.extend(rec);
    let infos = WordInfos::new(&buf, 0, 2);
    assert_eq!(infos.lookup(0), Err(LookupError::DanglingReference));
    assert_eq!(infos.get_word_info(0), None);
}

#[test]
fn identifier_past_buffer_end_is_not_found() {
    let mut buf = table_entry(4);
    buf.extend(cat_record());
    let infos = WordInfos::new(&buf, 0, 1);
    assert_eq!(infos.lookup(100), Err(LookupError::NotFound));
    assert!(infos.get_word_info(100).is_none());
}

#[test]
fn empty_buffer_is_not_found() {
    let buf: Vec<u8> = Vec::new();
    let infos = WordInfos::new(&buf, 0, 0);
    assert_eq!(infos.lookup(0), Err(LookupError::NotFound));
}

#[test]
fn record_past_buffer_end_is_malformed() {
    // The record's surface claims 200 code units, far past the buffer end.
    let mut buf = table_entry(4);
    buf.push(200);
    let infos = WordInfos::new(&buf, 0, 1);
    assert_eq!(infos.lookup(0), Err(LookupError::MalformedRecord));
    assert_eq!(infos.get_word_info(0), None);
}

#[test]
fn chain_of_two_references_is_malformed() {
    // Entry 0 refers to entry 1, which itself refers onward to entry 2.
    let rec0 = encode_record("ab", 0, 0, "", 1, "", &vec![], &vec![], &vec![]).unwrap();
    let rec1 = encode_record("cd", 0, 0, "", 2, "", &vec![], &vec![], &vec![]).unwrap();
    let mut buf = Vec::new();
    buf.extend(table_entry(8));
    buf.extend(table_entry(8 + rec0.len() as u32));
    buf.extend(rec0);
    buf.extend(rec1);
    let infos = WordInfos::new(&buf, 0, 2);
    assert_eq!(infos.lookup(0), Err(LookupError::MalformedRecord));
}

#[test]
fn table_base_offset_shifts_slots() {
    // The same record found through a table that starts at offset 6.
    let mut buf = vec![9, 9, 9, 9, 9, 9];
    buf.extend(table_entry(10));
    buf.extend(cat_record());
    let infos = WordInfos::new(&buf, 6, 1);
    let w = infos.lookup(0).unwrap();
    assert_eq!(w.surface, "cat");
}

#[test]
fn lone_surrogate_decodes_to_empty_string() {
    // Surface holds a single unpaired high surrogate (0xD800); the decoder
    // substitutes the empty string, and the empty normalized form then
    // falls back to that empty surface.
    let mut buf = table_entry(4);
    buf.extend(vec![
        1, 0x00, 0xD8, // surface: lone high surrogate
        0, // head_word_length
        0, 0, // pos_id
        1, 120, 0, // normalized_form "x"
        255, 255, 255, 255, // dictionary_form_word_id = -1
        0, // reading_form
        0, 0, 0, // arrays
    ]);
    let infos = WordInfos::new(&buf, 0, 1);
    let w = infos.lookup(0).unwrap();
    assert_eq!(w.surface, "");
    assert_eq!(w.normalized_form, "x");
    assert_eq!(w.dictionary_form, "");
}

#[test]
fn all_empty_fields_decode() {
    let rec = encode_record("", 0, 0, "", -1, "", &vec![], &vec![], &vec![]).unwrap();
    let mut buf = table_entry(4);
    buf.extend(rec);
    let infos = WordInfos::new(&buf, 0, 1);
    let w = infos.lookup(0).unwrap();
    assert_eq!(w.surface, "");
    assert_eq!(w.normalized_form, "");
    assert_eq!(w.reading_form, "");
    assert_eq!(w.dictionary_form, "");
}
