use postings_serializer::schema::{
    Field, FieldEntry, FieldType, Schema, Term, TextIndexingOptions, TextOptions, U32Options,
};
use postings_serializer::termdict::{TermDictionaryBuilder, TermInfo};

#[test]
fn frequencies_and_positions_by_indexing_option() {
    let all = [
        (TextIndexingOptions::Unindexed, false, false),
        (TextIndexingOptions::Untokenized, false, false),
        (TextIndexingOptions::TokenizedNoFreq, false, false),
        (TextIndexingOptions::TokenizedWithFreq, true, false),
        (TextIndexingOptions::TokenizedWithFreqAndPosition, true, true),
    ];
    for (options, freq, position) in all {
        assert_eq!(options.is_termfreq_enabled(), freq);
        assert_eq!(options.is_position_enabled(), position);
    }
}

#[test]
fn option_getters_return_the_fields() {
    let text = TextOptions { indexing: TextIndexingOptions::TokenizedWithFreq, stored: true };
    assert_eq!(text.get_indexing_options(), TextIndexingOptions::TokenizedWithFreq);
    assert!(U32Options { indexed: true, fast: false, stored: false }.is_indexed());
    assert!(!U32Options { indexed: false, fast: true, stored: true }.is_indexed());
}

#[test]
fn schema_hands_out_fields_in_order() {
    let mut schema = Schema::new();
    assert_eq!(schema.num_fields(), 0);
    let text = TextOptions { indexing: TextIndexingOptions::TokenizedNoFreq, stored: false };
    let numeric = U32Options { indexed: true, fast: false, stored: false };
    let title = schema.add_field(FieldEntry::new_text(String::from("title"), text));
    let count = schema.add_field(FieldEntry::new_u32(String::from("count"), numeric));
    assert_eq!(title, Some(Field(0)));
    assert_eq!(count, Some(Field(1)));
    assert_eq!(schema.num_fields(), 2);
    assert_eq!(schema.get_field_entry(Field(0)).name, "title");
    assert_eq!(*schema.get_field_entry(Field(0)).field_type(), FieldType::Str(text));
    assert_eq!(schema.get_field_entry(Field(1)).name, "count");
    assert_eq!(*schema.get_field_entry(Field(1)).field_type(), FieldType::U32(numeric));
}

#[test]
fn schema_refuses_the_257th_field() {
    let mut schema = Schema::new();
    let numeric = U32Options { indexed: true, fast: false, stored: false };
    for i in 0..256u32 {
        let field = schema.add_field(FieldEntry::new_u32(format!("f{}", i), numeric));
        assert_eq!(field, Some(Field(i as u8)));
    }
    assert_eq!(schema.add_field(FieldEntry::new_u32(String::from("late"), numeric)), None);
    assert_eq!(schema.num_fields(), 256);
}

#[test]
fn term_key_is_the_field_byte_and_the_value() {
    let term = Term::from_field_bytes(Field(3), &[9, 8, 7]);
    assert_eq!(term.field(), Field(3));
    assert_eq!(term.as_slice(), &[3, 9, 8, 7]);
    let empty = Term::from_field_bytes(Field(255), &[]);
    assert_eq!(empty.field(), Field(255));
    assert_eq!(empty.as_slice(), &[255]);
}

#[test]
fn text_term_holds_the_utf8_bytes() {
    let term = Term::from_field_text(Field(1), "cat");
    assert_eq!(term.as_slice(), &[1, b'c', b'a', b't']);
    let accented = Term::from_field_text(Field(0), "é");
    assert_eq!(accented.as_slice(), &[0, 0xC3, 0xA9]);
}

#[test]
fn integer_term_is_big_endian() {
    let term = Term::from_field_u32(Field(2), 0x0102_0304);
    assert_eq!(term.as_slice(), &[2, 1, 2, 3, 4]);
    assert_eq!(Term::from_field_u32(Field(2), 0).as_slice(), &[2, 0, 0, 0, 0]);
    assert_eq!(
        Term::from_field_u32(Field(2), u32::MAX).as_slice(),
        &[2, 255, 255, 255, 255]
    );
    // The keys are ordered as the numbers are.
    let small = Term::from_field_u32(Field(2), 255);
    let large = Term::from_field_u32(Field(2), 256);
    assert!(small.as_slice() < large.as_slice());
}

#[test]
fn dictionary_entry_is_key_length_key_and_three_numbers() {
    let mut builder = TermDictionaryBuilder::new();
    assert_eq!(builder.len(), 0);
    let info = TermInfo { doc_freq: 3, postings_offset: 300, positions_offset: 0 };
    builder.insert(b"ab", &info);
    assert_eq!(builder.len(), 7);
    let more = TermInfo { doc_freq: 200, postings_offset: u64::MAX, positions_offset: 1 };
    builder.insert(b"", &more);
    assert_eq!(
        builder.finish(),
        vec![
            130, b'a', b'b', 131, 44, 130, 128, // "ab"
            128, 72, 129, 127, 127, 127, 127, 127, 127, 127, 127, 127, 129, 129, // ""
        ]
    );
}

#[test]
fn dictionary_takes_keys_in_any_order() {
    let mut builder = TermDictionaryBuilder::new();
    let info = TermInfo { doc_freq: 1, postings_offset: 0, positions_offset: 0 };
    builder.insert(b"b", &info);
    builder.insert(b"a", &info);
    assert_eq!(
        builder.finish(),
        vec![129, b'b', 129, 128, 128, 129, b'a', 129, 128, 128]
    );
}

#[test]
fn empty_dictionary_has_no_bytes() {
    assert_eq!(TermDictionaryBuilder::new().finish(), Vec::<u8>::new());
}
