//! The postings serializer.
//!
//! A serializer is driven term by term and, within a term, document by
//! document:
//!
//! * `new_term(...)`
//! * `write_doc(...)`, once per document of the term
//! * `close_term()`
//! * ... the next term ...
//! * `close()`
//!
//! Terms have to come in increasing order of their keys, and the documents
//! of a term in increasing order of their ids. The serializer does not check
//! either order.
//!
//! It fills three byte streams. The term dictionary records for each term
//! where its postings and its positions begin. The postings stream holds,
//! for each term, its document ids in blocks of a fixed length, each block
//! followed by the block of the term frequencies where the field records
//! them, and then the documents that did not fill a block, in the
//! variable-length form. The positions stream holds, for each term of a
//! field that records positions, the number of position gaps of the term
//! and then the gaps of all its documents.

use crate::common::serialize_vint;
use crate::compression::{
    compress_block_sorted,
    compress_block_unsorted,
    compress_unsorted,
    compress_vint_sorted,
    compress_vint_unsorted,
    NUM_DOCS_PER_BLOCK,
};
use crate::layout::{block_postings_bytes, tail_postings_bytes, term_positions_bytes};
use crate::schema::{DocId, Field, FieldType, Schema, Term, TextIndexingOptions};
use crate::termdict::{dictionary_bytes, TermDictionaryBuilder, TermInfo, TermRecord};
use vstd::prelude::*;

verus! {

/// A call that the protocol does not allow in the state the serializer is
/// in. The serializer refuses the call and stays as it was.
#[derive(Clone, Copy, Debug, PartialEq, Eq, Structural)]
pub enum ProtocolViolation {
    /// `new_term` while the previous term was not closed.
    TermAlreadyOpen,
    /// `write_doc` while no term was open.
    NoOpenTerm,
}

/// What a serializer holds: the three streams as written so far, and what is
/// buffered for the open term.
#[verifier::ext_equal]
pub struct SerializerState {
    /// The number of documents in a full block.
    pub block_len: nat,
    /// The entries of the term dictionary.
    pub terms: Seq<TermRecord>,
    /// The postings stream.
    pub postings: Seq<u8>,
    /// The positions stream.
    pub positions: Seq<u8>,
    /// Whether a term is open.
    pub term_open: bool,
    /// The postings features of the field of the open term.
    pub options: TextIndexingOptions,
    /// The last document id of the last full block of the open term, or 0.
    pub last_doc_id_encoded: u32,
    /// The document ids of the open term that are in no block yet.
    pub doc_ids: Seq<u32>,
    /// The term frequencies that belong to `doc_ids`.
    pub term_freqs: Seq<u32>,
    /// The position gaps of all documents of the open term.
    pub position_deltas: Seq<u32>,
}

impl SerializerState {
    /// A serializer into which nothing was written.
    pub open spec fn initial(block_len: nat) -> SerializerState {
        SerializerState {
            block_len,
            terms: Seq::empty(),
            postings: Seq::empty(),
            positions: Seq::empty(),
            term_open: false,
            options: TextIndexingOptions::Unindexed,
            last_doc_id_encoded: 0,
            doc_ids: Seq::empty(),
            term_freqs: Seq::empty(),
            position_deltas: Seq::empty(),
        }
    }

    /// The buffers agree with each other and with the options: fewer
    /// pending documents than a block holds (a block length of zero means
    /// that there are no blocks, and all documents of a term are pending
    /// until it is closed); one pending frequency per pending document
    /// where frequencies are recorded, none otherwise; no position gaps
    /// where positions are not recorded; nothing pending while no term is
    /// open.
    pub open spec fn wf(self) -> bool {
        &&& self.block_len >= 1 ==> self.doc_ids.len() < self.block_len
        &&& self.term_freqs.len() == if self.options.termfreq_enabled() {
            self.doc_ids.len()
        } else {
            0
        }
        &&& !self.options.position_enabled() ==> self.position_deltas.len() == 0
        &&& !self.term_open ==> self.doc_ids.len() == 0 && self.position_deltas.len() == 0
    }

    /// Opening a term: the buffers are emptied, the gap base goes back to
    /// zero, and the dictionary gets an entry with the lengths of the two
    /// streams as they are now.
    pub open spec fn new_term(
        self,
        key: Seq<u8>,
        options: TextIndexingOptions,
        doc_freq: nat,
    ) -> SerializerState {
        SerializerState {
            terms: self.terms.push(
                TermRecord {
                    key,
                    doc_freq,
                    postings_offset: self.postings.len(),
                    positions_offset: self.positions.len(),
                },
            ),
            term_open: true,
            options,
            last_doc_id_encoded: 0,
            doc_ids: Seq::empty(),
            term_freqs: Seq::empty(),
            position_deltas: Seq::empty(),
            ..self
        }
    }

    /// Writing a document of the open term: it is buffered, with its
    /// frequency and its position gaps where the field records them. If it
    /// fills the block, the block goes to the postings stream and the
    /// document becomes the gap base. The positions stay buffered.
    pub open spec fn write_doc(
        self,
        doc_id: u32,
        term_freq: u32,
        position_deltas: Seq<u32>,
    ) -> SerializerState {
        let doc_ids = self.doc_ids.push(doc_id);
        let term_freqs = if self.options.termfreq_enabled() {
            self.term_freqs.push(term_freq)
        } else {
            self.term_freqs
        };
        let position_deltas = if self.options.position_enabled() {
            self.position_deltas + position_deltas
        } else {
            self.position_deltas
        };
        if doc_ids.len() == self.block_len {
            SerializerState {
                postings: self.postings + block_postings_bytes(
                    doc_ids,
                    term_freqs,
                    self.last_doc_id_encoded,
                    self.options.termfreq_enabled(),
                ),
                last_doc_id_encoded: doc_id,
                doc_ids: Seq::empty(),
                term_freqs: Seq::empty(),
                position_deltas,
                ..self
            }
        } else {
            SerializerState { doc_ids, term_freqs, position_deltas, ..self }
        }
    }

    /// Closing the term: the pending documents go to the postings stream,
    /// the position gaps to the positions stream, and the buffers are
    /// emptied. With no term open, nothing changes.
    pub open spec fn close_term(self) -> SerializerState {
        if self.term_open {
            SerializerState {
                postings: self.postings + tail_postings_bytes(
                    self.doc_ids,
                    self.term_freqs,
                    self.last_doc_id_encoded,
                    self.options.termfreq_enabled(),
                ),
                positions: self.positions + term_positions_bytes(
                    self.position_deltas,
                    self.block_len,
                    self.options.position_enabled(),
                ),
                term_open: false,
                doc_ids: Seq::empty(),
                term_freqs: Seq::empty(),
                position_deltas: Seq::empty(),
                ..self
            }
        } else {
            self
        }
    }
}

/// The three streams of a closed serializer.
pub struct SegmentPostings {
    /// The bytes of the term dictionary.
    pub terms: Vec<u8>,
    /// The postings stream.
    pub postings: Vec<u8>,
    /// The positions stream.
    pub positions: Vec<u8>,
}

/// `PostingsSerializer` serializes the postings of a segment into its term
/// dictionary, its postings stream and its positions stream.
pub struct PostingsSerializer {
    terms_builder: TermDictionaryBuilder,
    postings_write: Vec<u8>,
    positions_write: Vec<u8>,
    last_doc_id_encoded: u32,
    doc_ids: Vec<DocId>,
    term_freqs: Vec<u32>,
    position_deltas: Vec<u32>,
    schema: Schema,
    text_indexing_options: TextIndexingOptions,
    term_open: bool,
    block_len: usize,
}

impl View for PostingsSerializer {
    type V = SerializerState;

    closed spec fn view(&self) -> SerializerState {
        SerializerState {
            block_len: self.block_len as nat,
            terms: self.terms_builder@,
            postings: self.postings_write@,
            positions: self.positions_write@,
            term_open: self.term_open,
            options: self.text_indexing_options,
            last_doc_id_encoded: self.last_doc_id_encoded,
            doc_ids: self.doc_ids@,
            term_freqs: self.term_freqs@,
            position_deltas: self.position_deltas@,
        }
    }
}

impl PostingsSerializer {
    /// The schema that the serializer reads the options of a field from.
    pub closed spec fn spec_schema(&self) -> &Schema {
        &self.schema
    }

    /// The bytes of the dictionary are those of its entries.
    pub closed spec fn dictionary_wf(&self) -> bool {
        self.terms_builder.wf()
    }

    /// The serializer is in a state that its own operations lead to.
    pub open spec fn wf(&self) -> bool {
        self@.wf() && self.dictionary_wf()
    }

    /// Opens a serializer with blocks of `NUM_DOCS_PER_BLOCK` documents.
    pub fn open(schema: Schema) -> (serializer: PostingsSerializer)
        ensures
            serializer.wf(),
            serializer.schema() == schema,
            serializer@ == SerializerState::initial(NUM_DOCS_PER_BLOCK as nat),
    {
        PostingsSerializer::open_with_block_len(schema, NUM_DOCS_PER_BLOCK)
    }

    /// Opens a serializer with blocks of `block_len` documents. With a
    /// block length of zero no blocks are written: every term is written in
    /// the variable-length form.
    pub fn open_with_block_len(schema: Schema, block_len: usize) -> (serializer: PostingsSerializer)
        ensures
            serializer.wf(),
            serializer.schema() == schema,
            serializer@ == SerializerState::initial(block_len as nat),
    {
        let serializer = PostingsSerializer {
            terms_builder: TermDictionaryBuilder::new(),
            postings_write: Vec::new(),
            positions_write: Vec::new(),
            last_doc_id_encoded: 0u32,
            doc_ids: Vec::new(),
            term_freqs: Vec::new(),
            position_deltas: Vec::new(),
            schema: schema,
            text_indexing_options: TextIndexingOptions::Unindexed,
            term_open: false,
            block_len: block_len,
        };
        assert(serializer@ =~= SerializerState::initial(block_len as nat));
        serializer
    }

    /// The schema that the serializer reads the options of a field from.
    #[verifier::when_used_as_spec(spec_schema)]
    pub fn schema(&self) -> (schema: &Schema)
        ensures
            schema == self.spec_schema(),
    {
        &self.schema
    }

    /// Whether a term is open.
    pub fn is_term_open(&self) -> (open: bool)
        ensures
            open == self@.term_open,
    {
        self.term_open
    }

    /// The bytes of the term dictionary, as far as it is written.
    pub fn terms(&self) -> (bytes: &[u8])
        requires
            self.wf(),
        ensures
            bytes@ == dictionary_bytes(self@.terms),
    {
        self.terms_builder.as_slice()
    }

    /// The postings stream, as far as it is written.
    pub fn postings(&self) -> (bytes: &[u8])
        ensures
            bytes@ == self@.postings,
    {
        self.postings_write.as_slice()
    }

    /// The positions stream, as far as it is written.
    pub fn positions(&self) -> (bytes: &[u8])
        ensures
            bytes@ == self@.positions,
    {
        self.positions_write.as_slice()
    }

    /// The length of the postings stream.
    pub fn written_bytes_postings(&self) -> (len: usize)
        ensures
            len == self@.postings.len(),
    {
        self.postings_write.len()
    }

    /// The length of the positions stream.
    pub fn written_bytes_positions(&self) -> (len: usize)
        ensures
            len == self@.positions.len(),
    {
        self.positions_write.len()
    }

    fn load_indexing_options(&mut self, field: Field)
        requires
            old(self).schema.has_field(field),
        ensures
            *final(self) == (PostingsSerializer {
                text_indexing_options: old(self).schema.indexing_options(field),
                ..*old(self)
            }),
    {
        let field_entry = self.schema.get_field_entry(field);
        self.text_indexing_options =
        match *field_entry.field_type() {
            FieldType::Str(ref text_options) => { text_options.get_indexing_options() },
            FieldType::U32(ref u32_options) => {
                if u32_options.is_indexed() {
                    TextIndexingOptions::Unindexed
                } else {
                    TextIndexingOptions::Untokenized
                }
            },
        };
    }

    /// Starts the postings of a new term.
    /// * term - the term. Its key has to come after the key of the previous
    ///   term.
    /// * doc_freq - the number of documents that contain the term.
    ///
    /// While a term is open the call is refused.
    pub fn new_term(&mut self, term: &Term, doc_freq: DocId) -> (result: Result<
        (),
        ProtocolViolation,
    >)
        requires
            old(self).wf(),
            old(self).schema().has_field(term.spec_field()),
        ensures
            final(self).wf(),
            final(self).schema() == old(self).schema(),
            match result {
                Ok(()) => !old(self)@.term_open && final(self)@ == old(self)@.new_term(
                    term@,
                    old(self).schema().indexing_options(term.spec_field()),
                    doc_freq as nat,
                ) && final(self)@.terms.last().postings_offset == old(self)@.postings.len()
                    && final(self)@.terms.last().positions_offset == old(self)@.positions.len(),
                Err(violation) => old(self)@.term_open && violation
                    == ProtocolViolation::TermAlreadyOpen && final(self)@ == old(self)@,
            },
    {
        if self.term_open {
            return Err(ProtocolViolation::TermAlreadyOpen);
        }
        self.term_open = true;
        self.load_indexing_options(term.field());
        self.doc_ids.clear();
        self.last_doc_id_encoded = 0;
        self.term_freqs.clear();
        self.position_deltas.clear();
        let term_info = TermInfo {
            doc_freq: doc_freq,
            postings_offset: self.postings_write.len() as u64,
            positions_offset: self.positions_write.len() as u64,
        };
        self.terms_builder.insert(term.as_slice(), &term_info);
        assert(self@ =~= old(self)@.new_term(
            term@,
            old(self).schema().indexing_options(term.spec_field()),
            doc_freq as nat,
        ));
        Ok(())
    }

    /// Finishes the postings of the open term.
    ///
    /// The documents that did not fill a block are written in the
    /// variable-length form, and the positions of the term are written.
    /// With no term open, nothing happens.
    pub fn close_term(&mut self)
        requires
            old(self).wf(),
        ensures
            final(self).wf(),
            final(self).schema() == old(self).schema(),
            final(self)@ == old(self)@.close_term(),
            !final(self)@.term_open,
            !old(self)@.term_open ==> final(self)@ == old(self)@,
    {
        if self.term_open {
            if !self.doc_ids.is_empty() {
                // There are document ids waiting to be written: their
                // number is not a multiple of the block length.
                compress_vint_sorted(
                    self.doc_ids.as_slice(),
                    self.last_doc_id_encoded,
                    &mut self.postings_write,
                );
                self.doc_ids.clear();
                // ... and likewise the term frequencies.
                if self.text_indexing_options.is_termfreq_enabled() {
                    compress_vint_unsorted(self.term_freqs.as_slice(), &mut self.postings_write);
                    self.term_freqs.clear();
                }
            }
            // The positions are buffered until the end of the term, and
            // written here.
            if self.text_indexing_options.is_position_enabled() {
                serialize_vint(self.position_deltas.len() as u64, &mut self.positions_write);
                compress_unsorted(
                    self.position_deltas.as_slice(),
                    self.block_len,
                    &mut self.positions_write,
                );
                self.position_deltas.clear();
            }
            self.term_open = false;
        }
        assert(self@ =~= old(self)@.close_term());
    }

    /// Records that a document contains the open term, with the term's
    /// frequency in the document and the gaps between its positions there.
    ///
    /// The positions are given as gaps: for the positions `2, 3, 17`,
    /// `position_deltas` is `2, 1, 14`.
    ///
    /// The frequency and the positions are ignored where the field of the
    /// term does not record them. While no term is open the call is
    /// refused.
    pub fn write_doc(&mut self, doc_id: DocId, term_freq: u32, position_deltas: &[u32]) -> (result:
        Result<(), ProtocolViolation>)
        requires
            old(self).wf(),
        ensures
            final(self).wf(),
            final(self).schema() == old(self).schema(),
            match result {
                Ok(()) => old(self)@.term_open && final(self)@ == old(self)@.write_doc(
                    doc_id,
                    term_freq,
                    position_deltas@,
                ),
                Err(violation) => !old(self)@.term_open && violation
                    == ProtocolViolation::NoOpenTerm && final(self)@ == old(self)@,
            },
    {
        if !self.term_open {
            return Err(ProtocolViolation::NoOpenTerm);
        }
        self.doc_ids.push(doc_id);
        if self.text_indexing_options.is_termfreq_enabled() {
            self.term_freqs.push(term_freq);
        }
        if self.text_indexing_options.is_position_enabled() {
            self.position_deltas.extend_from_slice(position_deltas);
            assert(self.position_deltas@ =~= old(self).position_deltas@ + position_deltas@);
        }
        if self.doc_ids.len() == self.block_len {
            // encode the doc ids
            compress_block_sorted(
                self.doc_ids.as_slice(),
                self.last_doc_id_encoded,
                &mut self.postings_write,
            );
            self.last_doc_id_encoded = self.doc_ids[self.doc_ids.len() - 1];
            if self.text_indexing_options.is_termfreq_enabled() {
                // encode the term frequencies
                compress_block_unsorted(self.term_freqs.as_slice(), &mut self.postings_write);
                self.term_freqs.clear();
            }
            self.doc_ids.clear();
        }
        assert(self@ =~= old(self)@.write_doc(doc_id, term_freq, position_deltas@));
        Ok(())
    }

    /// Closes the serializer, and the open term if there is one, and hands
    /// out the three streams.
    pub fn close(self) -> (streams: SegmentPostings)
        requires
            self.wf(),
        ensures
            streams.terms@ == dictionary_bytes(self@.close_term().terms),
            streams.postings@ == self@.close_term().postings,
            streams.positions@ == self@.close_term().positions,
    {
        let mut serializer = self;
        serializer.close_term();
        SegmentPostings {
            terms: serializer.terms_builder.finish(),
            postings: serializer.postings_write,
            positions: serializer.positions_write,
        }
    }
}

} // verus!
