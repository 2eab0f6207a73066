use postings_serializer::schema::{
    Field, FieldEntry, Schema, Term, TextIndexingOptions, TextOptions, U32Options,
};
use postings_serializer::serializer::{PostingsSerializer, ProtocolViolation};

type Doc = (u32, u32, Vec<u32>);

/// Field 0 records frequencies and positions, field 1 frequencies, field 2
/// documents only, and field 3 is numeric.
fn four_field_schema() -> Schema {
    let mut schema = Schema::new();
    for (name, indexing) in [
        ("body", TextIndexingOptions::TokenizedWithFreqAndPosition),
        ("title", TextIndexingOptions::TokenizedWithFreq),
        ("tags", TextIndexingOptions::TokenizedNoFreq),
    ] {
        let options = TextOptions { indexing, stored: false };
        schema.add_field(FieldEntry::new_text(String::from(name), options)).unwrap();
    }
    let numeric = U32Options { indexed: true, fast: false, stored: false };
    schema.add_field(FieldEntry::new_u32(String::from("count"), numeric)).unwrap();
    schema
}

fn write_term(serializer: &mut PostingsSerializer, term: &Term, docs: &[Doc]) {
    assert_eq!(serializer.new_term(term, docs.len() as u32), Ok(()));
    for (doc_id, term_freq, positions) in docs {
        assert_eq!(serializer.write_doc(*doc_id, *term_freq, positions), Ok(()));
    }
    serializer.close_term();
}

fn cat_docs() -> Vec<Doc> {
    vec![(1, 2, vec![0, 5]), (3, 1, vec![2]), (7, 1, vec![9])]
}

fn four_docs() -> Vec<Doc> {
    vec![(2, 1, vec![1]), (4, 2, vec![0, 3]), (9, 1, vec![7]), (11, 3, vec![1, 1, 1])]
}

fn many_docs(count: u32) -> Vec<Doc> {
    (0..count).map(|i| (3 * i + 1, i % 5 + 1, vec![i % 7; (i % 5 + 1) as usize])).collect()
}

#[test]
fn a_fresh_serializer_is_idle_and_empty() {
    let serializer = PostingsSerializer::open(four_field_schema());
    assert!(!serializer.is_term_open());
    assert_eq!(serializer.written_bytes_postings(), 0);
    assert_eq!(serializer.written_bytes_positions(), 0);
    assert_eq!(serializer.schema().num_fields(), 4);
    let streams = serializer.close();
    assert_eq!(streams.terms, Vec::<u8>::new());
    assert_eq!(streams.postings, Vec::<u8>::new());
    assert_eq!(streams.positions, Vec::<u8>::new());
}

#[test]
fn new_term_while_a_term_is_open_is_refused() {
    let mut serializer = PostingsSerializer::open_with_block_len(four_field_schema(), 2);
    let cat = Term::from_field_text(Field(0), "cat");
    let dog = Term::from_field_text(Field(0), "dog");
    assert_eq!(serializer.new_term(&cat, 3), Ok(()));
    assert_eq!(serializer.write_doc(1, 2, &[0, 5]), Ok(()));
    assert_eq!(serializer.new_term(&dog, 1), Err(ProtocolViolation::TermAlreadyOpen));
    // The refused call changed nothing: the term goes on as before.
    assert!(serializer.is_term_open());
    assert_eq!(serializer.write_doc(3, 1, &[2]), Ok(()));
    assert_eq!(serializer.write_doc(7, 1, &[9]), Ok(()));
    let streams = serializer.close();
    assert_eq!(streams.postings, vec![2, 9, 2, 6, 132, 129]);
    assert_eq!(streams.positions, vec![132, 3, 40, 4, 146]);
    assert_eq!(streams.terms, vec![132, 0, b'c', b'a', b't', 131, 128, 128]);
}

#[test]
fn write_doc_while_no_term_is_open_is_refused() {
    let mut serializer = PostingsSerializer::open_with_block_len(four_field_schema(), 1);
    assert_eq!(serializer.write_doc(1, 1, &[0]), Err(ProtocolViolation::NoOpenTerm));
    assert_eq!(serializer.written_bytes_postings(), 0);
    write_term(&mut serializer, &Term::from_field_text(Field(0), "a"), &[(4, 1, vec![0])]);
    let postings = serializer.written_bytes_postings();
    let positions = serializer.written_bytes_positions();
    assert_eq!(serializer.write_doc(9, 1, &[0]), Err(ProtocolViolation::NoOpenTerm));
    assert!(!serializer.is_term_open());
    assert_eq!(serializer.written_bytes_postings(), postings);
    assert_eq!(serializer.written_bytes_positions(), positions);
    let streams = serializer.close();
    assert_eq!(streams.postings, vec![3, 4, 1, 1]);
    assert_eq!(streams.positions, vec![129, 0]);
}

#[test]
fn close_term_twice_is_close_term_once() {
    let mut serializer = PostingsSerializer::open_with_block_len(four_field_schema(), 2);
    assert_eq!(serializer.new_term(&Term::from_field_text(Field(0), "cat"), 3), Ok(()));
    for (doc_id, term_freq, positions) in cat_docs() {
        assert_eq!(serializer.write_doc(doc_id, term_freq, &positions), Ok(()));
    }
    serializer.close_term();
    assert!(!serializer.is_term_open());
    assert_eq!(serializer.written_bytes_postings(), 6);
    assert_eq!(serializer.written_bytes_positions(), 5);
    serializer.close_term();
    serializer.close_term();
    assert!(!serializer.is_term_open());
    assert_eq!(serializer.written_bytes_postings(), 6);
    assert_eq!(serializer.written_bytes_positions(), 5);
    let streams = serializer.close();
    assert_eq!(streams.postings, vec![2, 9, 2, 6, 132, 129]);
    assert_eq!(streams.positions, vec![132, 3, 40, 4, 146]);
    assert_eq!(streams.terms, vec![132, 0, b'c', b'a', b't', 131, 128, 128]);
}

#[test]
fn close_term_on_a_fresh_serializer_does_nothing() {
    let mut serializer = PostingsSerializer::open(four_field_schema());
    serializer.close_term();
    assert!(!serializer.is_term_open());
    let streams = serializer.close();
    assert_eq!(streams.terms, Vec::<u8>::new());
    assert_eq!(streams.postings, Vec::<u8>::new());
    assert_eq!(streams.positions, Vec::<u8>::new());
}

#[test]
fn close_closes_the_open_term() {
    let mut serializer = PostingsSerializer::open_with_block_len(four_field_schema(), 2);
    assert_eq!(serializer.new_term(&Term::from_field_text(Field(0), "cat"), 3), Ok(()));
    for (doc_id, term_freq, positions) in cat_docs() {
        assert_eq!(serializer.write_doc(doc_id, term_freq, &positions), Ok(()));
    }
    assert!(serializer.is_term_open());
    // Only the full block is in the stream so far.
    assert_eq!(serializer.written_bytes_postings(), 4);
    assert_eq!(serializer.written_bytes_positions(), 0);
    let streams = serializer.close();
    assert_eq!(streams.postings, vec![2, 9, 2, 6, 132, 129]);
    assert_eq!(streams.positions, vec![132, 3, 40, 4, 146]);
}

#[test]
fn positions_are_not_written_before_the_term_is_closed() {
    let mut serializer = PostingsSerializer::open_with_block_len(four_field_schema(), 2);
    assert_eq!(serializer.new_term(&Term::from_field_text(Field(0), "t"), 4), Ok(()));
    for (doc_id, term_freq, positions) in four_docs() {
        assert_eq!(serializer.write_doc(doc_id, term_freq, &positions), Ok(()));
        assert_eq!(serializer.written_bytes_positions(), 0);
    }
    assert_eq!(serializer.written_bytes_postings(), 8);
    serializer.close_term();
    assert_eq!(serializer.written_bytes_postings(), 8);
    assert_eq!(serializer.written_bytes_positions(), 8);
}

#[test]
fn a_multiple_of_the_block_length_is_written_as_blocks_only() {
    let mut serializer = PostingsSerializer::open_with_block_len(four_field_schema(), 2);
    write_term(&mut serializer, &Term::from_field_text(Field(0), "t"), &four_docs());
    let streams = serializer.close();
    // Gaps [2, 2] and frequencies [1, 2]; gaps [5, 2] against 4 and
    // frequencies [1, 3]; no tail.
    assert_eq!(streams.postings, vec![2, 10, 2, 9, 3, 21, 2, 13]);
    assert_eq!(streams.positions, vec![135, 1, 1, 3, 59, 1, 3, 129]);
}

#[test]
fn what_does_not_fill_a_block_is_written_as_one_tail() {
    let mut docs = four_docs();
    docs.push((12, 1, vec![4]));
    let mut serializer = PostingsSerializer::open_with_block_len(four_field_schema(), 2);
    write_term(&mut serializer, &Term::from_field_text(Field(0), "t"), &docs);
    let streams = serializer.close();
    // The two blocks as before, then the gap 1 against 11 and the
    // frequency 1.
    assert_eq!(streams.postings, vec![2, 10, 2, 9, 3, 21, 2, 13, 129, 129]);
    assert_eq!(streams.positions, vec![136, 1, 1, 3, 59, 1, 3, 3, 33]);
}

#[test]
fn fewer_documents_than_a_block_are_written_as_a_tail_only() {
    let mut serializer = PostingsSerializer::open(four_field_schema());
    write_term(&mut serializer, &Term::from_field_text(Field(1), "t"), &many_docs(127));
    let streams = serializer.close();
    assert_eq!(streams.postings.len(), 254);
    assert_eq!(streams.postings[..3], [129, 131, 131]);
    assert_eq!(streams.positions, Vec::<u8>::new());
}

#[test]
fn a_default_block_holds_128_documents() {
    let mut full = PostingsSerializer::open(four_field_schema());
    write_term(&mut full, &Term::from_field_text(Field(0), "t"), &many_docs(128));
    let full = full.close();
    // 1 + 128 * 2 / 8 bytes of ids, 1 + 128 * 3 / 8 bytes of frequencies.
    assert_eq!(full.postings.len(), 82);
    assert_eq!(full.postings[..4], [2, 253, 255, 255]);
    assert_eq!(full.postings[33], 3);
    assert_eq!(full.positions.len(), 225);

    let mut docs = many_docs(128);
    docs.push((1000, 2, vec![3, 4]));
    let mut more = PostingsSerializer::open(four_field_schema());
    write_term(&mut more, &Term::from_field_text(Field(0), "t"), &docs);
    let more = more.close();
    assert_eq!(more.postings[..82], full.postings[..]);
    // The gap 618 of the id 1000 against 382, and the frequency 2.
    assert_eq!(more.postings[82..], [106, 132, 130]);
    assert_eq!(more.positions.len(), 227);
}

#[test]
fn without_frequencies_the_postings_are_the_document_ids_alone() {
    let mut serializer = PostingsSerializer::open_with_block_len(four_field_schema(), 2);
    write_term(&mut serializer, &Term::from_field_text(Field(2), "cat"), &cat_docs());
    let streams = serializer.close();
    assert_eq!(streams.postings, vec![2, 9, 132]);
    assert_eq!(streams.positions, Vec::<u8>::new());

    let mut docs = four_docs();
    docs.push((12, 1, vec![4]));
    let mut serializer = PostingsSerializer::open_with_block_len(four_field_schema(), 3);
    write_term(&mut serializer, &Term::from_field_text(Field(2), "t"), &docs);
    let streams = serializer.close();
    assert_eq!(streams.postings, vec![3, 82, 1, 130, 129]);
    assert_eq!(streams.positions, Vec::<u8>::new());
}

#[test]
fn the_frequencies_given_do_not_matter_where_they_are_not_recorded() {
    let mut outputs = Vec::new();
    for term_freq in [0, 1, u32::MAX] {
        let mut serializer = PostingsSerializer::open_with_block_len(four_field_schema(), 2);
        let docs: Vec<Doc> =
            cat_docs().into_iter().map(|(id, _, positions)| (id, term_freq, positions)).collect();
        write_term(&mut serializer, &Term::from_field_u32(Field(3), 5), &docs);
        outputs.push(serializer.close().postings);
    }
    assert_eq!(outputs[0], vec![2, 9, 132]);
    assert_eq!(outputs[1], outputs[0]);
    assert_eq!(outputs[2], outputs[0]);
}

#[test]
fn with_frequencies_and_without_positions_the_positions_stream_stays() {
    let mut serializer = PostingsSerializer::open_with_block_len(four_field_schema(), 2);
    write_term(&mut serializer, &Term::from_field_text(Field(0), "a"), &cat_docs());
    assert_eq!(serializer.written_bytes_positions(), 5);
    write_term(&mut serializer, &Term::from_field_text(Field(1), "a"), &cat_docs());
    assert_eq!(serializer.written_bytes_positions(), 5);
    assert_eq!(serializer.written_bytes_postings(), 12);
    let streams = serializer.close();
    assert_eq!(streams.postings, vec![2, 9, 2, 6, 132, 129, 2, 9, 2, 6, 132, 129]);
    assert_eq!(streams.positions, vec![132, 3, 40, 4, 146]);
}

#[test]
fn offsets_are_the_stream_lengths_when_the_term_is_opened() {
    let mut serializer = PostingsSerializer::open_with_block_len(four_field_schema(), 2);
    write_term(&mut serializer, &Term::from_field_text(Field(0), "a"), &cat_docs());
    assert_eq!(serializer.written_bytes_postings(), 6);
    assert_eq!(serializer.written_bytes_positions(), 5);
    // No positions for field 2: the positions offset stays at 5 for the
    // next term too.
    write_term(&mut serializer, &Term::from_field_text(Field(2), "b"), &cat_docs());
    assert_eq!(serializer.written_bytes_postings(), 9);
    assert_eq!(serializer.written_bytes_positions(), 5);
    write_term(&mut serializer, &Term::from_field_u32(Field(3), 1), &four_docs());
    let streams = serializer.close();
    assert_eq!(
        streams.terms,
        vec![
            130, 0, b'a', 131, 128, 128, // "a": 3 documents, at 0 and 0
            130, 2, b'b', 131, 134, 133, // "b": 3 documents, at 6 and 5
            133, 3, 0, 0, 0, 1, 132, 137, 133, // 1: 4 documents, at 9 and 5
        ]
    );
    assert_eq!(streams.postings.len(), 13);
    assert_eq!(streams.positions.len(), 5);
}

#[test]
fn the_gap_base_starts_at_zero_for_each_term() {
    let mut serializer = PostingsSerializer::open_with_block_len(four_field_schema(), 1);
    write_term(&mut serializer, &Term::from_field_text(Field(2), "a"), &[(9, 1, vec![])]);
    write_term(&mut serializer, &Term::from_field_text(Field(2), "b"), &[(9, 1, vec![])]);
    let streams = serializer.close();
    assert_eq!(streams.postings, vec![4, 9, 4, 9]);
}

#[test]
fn the_tail_is_based_on_the_last_full_block() {
    let mut serializer = PostingsSerializer::open_with_block_len(four_field_schema(), 2);
    let docs = [(100, 1, vec![]), (200, 1, vec![]), (201, 1, vec![])];
    write_term(&mut serializer, &Term::from_field_text(Field(2), "a"), &docs);
    let streams = serializer.close();
    // Gaps [100, 100] at seven bits each, then the gap 1.
    assert_eq!(streams.postings, vec![7, 100, 50, 129]);
}

#[test]
fn a_term_without_documents_writes_its_position_count_only() {
    let mut serializer = PostingsSerializer::open(four_field_schema());
    write_term(&mut serializer, &Term::from_field_text(Field(0), "none"), &[]);
    let streams = serializer.close();
    assert_eq!(streams.postings, Vec::<u8>::new());
    assert_eq!(streams.positions, vec![128]);
    assert_eq!(streams.terms, vec![133, 0, b'n', b'o', b'n', b'e', 128, 128, 128]);
}

#[test]
fn document_ids_out_of_order_are_written_with_wrapped_gaps() {
    let mut serializer = PostingsSerializer::open(four_field_schema());
    let docs = [(5, 1, vec![]), (3, 1, vec![])];
    write_term(&mut serializer, &Term::from_field_text(Field(2), "a"), &docs);
    let streams = serializer.close();
    assert_eq!(streams.postings, vec![133, 126, 127, 127, 127, 143]);
}

#[test]
fn terms_out_of_order_are_written_as_they_come() {
    let mut serializer = PostingsSerializer::open(four_field_schema());
    write_term(&mut serializer, &Term::from_field_text(Field(2), "b"), &[(1, 1, vec![])]);
    write_term(&mut serializer, &Term::from_field_text(Field(2), "a"), &[(1, 1, vec![])]);
    let streams = serializer.close();
    assert_eq!(
        streams.terms,
        vec![130, 2, b'b', 129, 128, 128, 130, 2, b'a', 129, 129, 128]
    );
}

#[test]
fn with_block_length_zero_every_term_is_a_tail() {
    let mut serializer = PostingsSerializer::open_with_block_len(four_field_schema(), 0);
    write_term(&mut serializer, &Term::from_field_text(Field(0), "cat"), &cat_docs());
    let streams = serializer.close();
    // The gaps [1, 2, 4] and the frequencies [2, 1, 1]; four position gaps.
    assert_eq!(streams.postings, vec![129, 130, 132, 130, 129, 129]);
    assert_eq!(streams.positions, vec![132, 128, 133, 130, 137]);
}

#[test]
fn the_streams_can_be_read_while_they_are_written() {
    let mut serializer = PostingsSerializer::open_with_block_len(four_field_schema(), 2);
    assert_eq!(serializer.terms(), &[] as &[u8]);
    assert_eq!(serializer.new_term(&Term::from_field_text(Field(0), "cat"), 3), Ok(()));
    assert_eq!(serializer.terms(), &[132, 0, b'c', b'a', b't', 131, 128, 128]);
    assert_eq!(serializer.write_doc(1, 2, &[0, 5]), Ok(()));
    assert_eq!(serializer.postings(), &[] as &[u8]);
    assert_eq!(serializer.write_doc(3, 1, &[2]), Ok(()));
    assert_eq!(serializer.postings(), &[2, 9, 2, 6]);
    assert_eq!(serializer.write_doc(7, 1, &[9]), Ok(()));
    assert_eq!(serializer.postings(), &[2, 9, 2, 6]);
    assert_eq!(serializer.positions(), &[] as &[u8]);
    serializer.close_term();
    assert_eq!(serializer.postings(), &[2, 9, 2, 6, 132, 129]);
    assert_eq!(serializer.positions(), &[132, 3, 40, 4, 146]);
    assert_eq!(serializer.terms(), &[132, 0, b'c', b'a', b't', 131, 128, 128]);
}
