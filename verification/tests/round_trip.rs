use word_infos::encoding::encode_record;
use word_infos::WordInfos;

fn table_entry(off: u32) -> Vec<u8> {
    vec![
        (off & 0xFF) as u8,
        ((off >> 8) & 0xFF) as u8,
        ((off >> 16) & 0xFF) as u8,
        ((off >> 24) & 0xFF) as u8,
    ]
}

#[test]
fn round_trip_preserves_every_field() {
    let a = vec![1, 2, 3];
    let b = Vec::new();
    let w = vec![7, 0xFFFF_FFFF];
    let rec = encode_record(
        "tokyo",
        5,
        42,
        "Tokyo",
        -1,
        "toukyou",
        &a,
        &b,
        &w,
    )
    .unwrap();
    let mut buf = table_entry(4);
    buf.extend(rec);
    let infos = WordInfos::new(&buf, 0, 1);
    let out = infos.lookup(0).unwrap();
    assert_eq!(out.surface, "tokyo");
    assert_eq!(out.pos_id, 42);
    assert_eq!(out.normalized_form, "Tokyo");
    assert_eq!(out.reading_form, "toukyou");
    assert_eq!(out.a_unit_split, a);
    assert_eq!(out.b_unit_split, b);
    assert_eq!(out.word_structure, w);
    assert_eq!(out.dictionary_form_word_id, -1);
    assert_eq!(out.dictionary_form, "tokyo");
}

#[test]
fn round_trip_preserves_wide_and_supplementary_characters() {
    // The treble clef (U+1D11E) needs a UTF-16 surrogate pair; the kana and
    // kanji need single non-ASCII units.
    let surface = "言\u{1D11E}葉";
    let reading = "ことば";
    let rec = encode_record(surface, 3, 7, "", -1, reading, &vec![], &vec![], &vec![]).unwrap();
    let mut buf = table_entry(4);
    buf.extend(rec);
    let infos = WordInfos::new(&buf, 0, 1);
    let out = infos.lookup(0).unwrap();
    assert_eq!(out.surface, surface);
    assert_eq!(out.reading_form, reading);
    assert_eq!(out.normalized_form, surface);
}

#[test]
fn round_trip_preserves_negative_reference_values() {
    let rec = encode_record("x", 1, 65535, "y", -123456, "z", &vec![], &vec![], &vec![]).unwrap();
    let mut buf = table_entry(4);
    buf.extend(rec);
    let infos = WordInfos::new(&buf, 0, 1);
    let out = infos.lookup(0).unwrap();
    assert_eq!(out.dictionary_form_word_id, -123456);
    assert_eq!(out.pos_id, 65535);
    assert_eq!(out.normalized_form, "y");
    assert_eq!(out.dictionary_form, "x");
}

#[test]
fn encode_rejects_string_longer_than_count_byte() {
    let long: String = "a".repeat(300);
    let r = encode_record(&long, 0, 0, "", -1, "", &vec![], &vec![], &vec![]);
    assert!(r.is_none());
    let r2 = encode_record("ok", 0, 0, &long, -1, "", &vec![], &vec![], &vec![]);
    assert!(r2.is_none());
}

#[test]
fn encode_rejects_array_longer_than_count_byte() {
    let long: Vec<u32> = (0..300).collect();
    let r = encode_record("ok", 0, 0, "", -1, "", &long, &vec![], &vec![]);
    assert!(r.is_none());
}

#[test]
fn encoded_bytes_match_hand_layout() {
    // "hi" as UTF-16, then each later field in layout order.
    let rec = encode_record("hi", 9, 0x0102, "", -2, "", &vec![5], &vec![], &vec![]).unwrap();
    assert_eq!(
        rec,
        vec![
            2, 104, 0, 105, 0, // surface "hi"
            9, // head_word_length
            2, 1, // pos_id 0x0102 little-endian
            0, // normalized_form empty
            254, 255, 255, 255, // -2 little-endian two's complement
            0, // reading_form empty
            1, 5, 0, 0, 0, // a_unit_split [5]
            0, // b_unit_split
            0, // word_structure
        ]
    );
}
