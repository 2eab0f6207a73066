//! Whole terms and whole sessions: what a run of calls leaves in the
//! streams, and what holds of every such run.

use crate::layout::{
    base_at,
    doc_ids_bytes,
    full_blocks_bytes,
    lemma_blocks_then_tail,
    lemma_postings_without_freqs,
    tail_postings_bytes,
    term_positions_bytes,
    term_postings_bytes,
};
use crate::reader::{
    lemma_positions_parse,
    lemma_postings_parse,
    positions_parse,
    positions_split,
    postings_parse,
};
use crate::schema::TextIndexingOptions;
use crate::serializer::SerializerState;
use crate::termdict::{key_before, keys_increasing, TermRecord};
use vstd::prelude::*;

verus! {

/// One document of a term: what one call of `write_doc` is given.
pub struct Posting {
    pub doc_id: u32,
    pub term_freq: u32,
    pub position_deltas: Seq<u32>,
}

/// One term with its documents: what the calls from `new_term` to
/// `close_term` are given, the document frequency being the number of
/// documents.
pub struct TermPostings {
    pub key: Seq<u8>,
    pub options: TextIndexingOptions,
    pub postings: Seq<Posting>,
}

/// The document ids of `postings`, in order.
pub open spec fn doc_ids_of(postings: Seq<Posting>) -> Seq<u32> {
    Seq::new(postings.len(), |i: int| postings[i].doc_id)
}

/// The term frequencies of `postings`, in order.
pub open spec fn term_freqs_of(postings: Seq<Posting>) -> Seq<u32> {
    Seq::new(postings.len(), |i: int| postings[i].term_freq)
}

/// The position gaps of `postings`, document after document.
pub open spec fn position_deltas_of(postings: Seq<Posting>) -> Seq<u32>
    decreases postings.len(),
{
    if postings.len() == 0 {
        Seq::empty()
    } else {
        postings[0].position_deltas + position_deltas_of(postings.skip(1))
    }
}

impl TermPostings {
    /// The dictionary entry of the term, if its postings begin at
    /// `postings_offset` and its positions at `positions_offset`.
    pub open spec fn record(self, postings_offset: nat, positions_offset: nat) -> TermRecord {
        TermRecord {
            key: self.key,
            doc_freq: self.postings.len(),
            postings_offset,
            positions_offset,
        }
    }

    /// The bytes of the term in the postings stream.
    pub open spec fn postings_bytes(self, block_len: nat) -> Seq<u8> {
        term_postings_bytes(
            doc_ids_of(self.postings),
            term_freqs_of(self.postings),
            0,
            block_len,
            self.options.termfreq_enabled(),
        )
    }

    /// The bytes of the term in the positions stream.
    pub open spec fn positions_bytes(self, block_len: nat) -> Seq<u8> {
        term_positions_bytes(
            position_deltas_of(self.postings),
            block_len,
            self.options.position_enabled(),
        )
    }
}

impl SerializerState {
    /// `write_doc` for each of `postings`, in order.
    pub open spec fn write_docs(self, postings: Seq<Posting>) -> SerializerState
        decreases postings.len(),
    {
        if postings.len() == 0 {
            self
        } else {
            self.write_doc(
                postings[0].doc_id,
                postings[0].term_freq,
                postings[0].position_deltas,
            ).write_docs(postings.skip(1))
        }
    }

    /// `new_term`, `write_doc` for each document of `term`, `close_term`.
    pub open spec fn write_term(self, term: TermPostings) -> SerializerState {
        self.new_term(term.key, term.options, term.postings.len()).write_docs(
            term.postings,
        ).close_term()
    }

    /// `write_term` for each of `terms`, in order.
    pub open spec fn write_terms(self, terms: Seq<TermPostings>) -> SerializerState
        decreases terms.len(),
    {
        if terms.len() == 0 {
            self
        } else {
            self.write_term(terms[0]).write_terms(terms.skip(1))
        }
    }
}

/// Closing a term twice is closing it once, and closing when no term is
/// open changes nothing: no stream, no buffer, no entry.
pub proof fn lemma_close_term_idempotent(s: SerializerState)
    ensures
        !s.term_open ==> s.close_term() == s,
        s.close_term().close_term() == s.close_term(),
        !s.close_term().term_open,
{
}

/// No call of the protocol revises what was written: the entries of the
/// dictionary stay, and each stream only grows at its end.
pub proof fn lemma_append_only(
    s: SerializerState,
    key: Seq<u8>,
    options: TextIndexingOptions,
    doc_freq: nat,
    posting: Posting,
)
    ensures
        s.new_term(key, options, doc_freq).terms.drop_last() == s.terms,
        s.new_term(key, options, doc_freq).postings == s.postings,
        s.new_term(key, options, doc_freq).positions == s.positions,
        s.write_doc(posting.doc_id, posting.term_freq, posting.position_deltas).terms == s.terms,
        s.postings.is_prefix_of(
            s.write_doc(posting.doc_id, posting.term_freq, posting.position_deltas).postings,
        ),
        s.write_doc(posting.doc_id, posting.term_freq, posting.position_deltas).positions
            == s.positions,
        s.close_term().terms == s.terms,
        s.postings.is_prefix_of(s.close_term().postings),
        s.positions.is_prefix_of(s.close_term().positions),
{
    assert(s.new_term(key, options, doc_freq).terms.drop_last() =~= s.terms);
}

/// After the documents `postings` of the open term, closing the term
/// leaves in the postings stream the layout of all the documents of the
/// current block and of `postings`; the position gaps are buffered, and
/// nothing else changes.
pub proof fn lemma_write_docs(s: SerializerState, postings: Seq<Posting>)
    requires
        s.wf(),
        s.term_open,
    ensures
        ({
            let r = s.write_docs(postings);
            &&& r.wf()
            &&& r.term_open
            &&& r.block_len == s.block_len
            &&& r.options == s.options
            &&& r.terms == s.terms
            &&& r.positions == s.positions
            &&& r.close_term().postings == s.postings + term_postings_bytes(
                s.doc_ids + doc_ids_of(postings),
                s.term_freqs + term_freqs_of(postings),
                s.last_doc_id_encoded,
                s.block_len,
                s.options.termfreq_enabled(),
            )
            &&& r.position_deltas == if s.options.position_enabled() {
                s.position_deltas + position_deltas_of(postings)
            } else {
                s.position_deltas
            }
        }),
    decreases postings.len(),
{
    let with_freqs = s.options.termfreq_enabled();
    let block_len = s.block_len;
    let base = s.last_doc_id_encoded;
    let ids = doc_ids_of(postings);
    let freqs = term_freqs_of(postings);
    let all_ids = s.doc_ids + ids;
    let all_freqs = s.term_freqs + freqs;
    if postings.len() == 0 {
        assert(all_ids =~= s.doc_ids);
        assert(all_freqs =~= s.term_freqs);
        assert(s.position_deltas + position_deltas_of(postings) =~= s.position_deltas);
    } else {
        let first = postings[0];
        let rest = postings.skip(1);
        let s1 = s.write_doc(first.doc_id, first.term_freq, first.position_deltas);
        lemma_write_docs(s1, rest);
        let r = s1.write_docs(rest);
        let rest_ids = s1.doc_ids + doc_ids_of(rest);
        let rest_freqs = s1.term_freqs + term_freqs_of(rest);
        assert(s.position_deltas + first.position_deltas + position_deltas_of(rest)
            =~= s.position_deltas + position_deltas_of(postings));
        if s.doc_ids.len() + 1 == block_len {
            assert(all_ids.take(block_len as int) =~= s.doc_ids.push(first.doc_id));
            assert(all_ids.skip(block_len as int) =~= rest_ids);
            assert(all_ids[block_len - 1] == first.doc_id);
            if with_freqs {
                assert(all_freqs.take(block_len as int) =~= s.term_freqs.push(first.term_freq));
                assert(all_freqs.skip(block_len as int) =~= rest_freqs);
            } else {
                lemma_postings_without_freqs(
                    rest_ids,
                    all_freqs.skip(block_len as int),
                    first.doc_id,
                    block_len,
                );
                lemma_postings_without_freqs(rest_ids, rest_freqs, first.doc_id, block_len);
            }
            assert(r.close_term().postings =~= s.postings + term_postings_bytes(
                all_ids,
                all_freqs,
                base,
                block_len,
                with_freqs,
            ));
        } else {
            assert(rest_ids =~= all_ids);
            if with_freqs {
                assert(rest_freqs =~= all_freqs);
            } else {
                lemma_postings_without_freqs(all_ids, all_freqs, base, block_len);
                lemma_postings_without_freqs(all_ids, rest_freqs, base, block_len);
            }
        }
    }
}

/// A term, written into an idle serializer, adds one entry to the
/// dictionary, whose two offsets are the lengths that the two streams had
/// before the term; it adds its postings to the postings stream and its
/// positions to the positions stream, and leaves the serializer idle.
pub proof fn lemma_write_term(s: SerializerState, term: TermPostings)
    requires
        s.wf(),
        !s.term_open,
    ensures
        ({
            let r = s.write_term(term);
            &&& r.wf()
            &&& !r.term_open
            &&& r.block_len == s.block_len
            &&& r.terms == s.terms.push(term.record(s.postings.len(), s.positions.len()))
            &&& r.postings == s.postings + term.postings_bytes(s.block_len)
            &&& r.positions == s.positions + term.positions_bytes(s.block_len)
        }),
{
    let opened = s.new_term(term.key, term.options, term.postings.len());
    lemma_write_docs(opened, term.postings);
    assert(opened.doc_ids + doc_ids_of(term.postings) =~= doc_ids_of(term.postings));
    assert(opened.term_freqs + term_freqs_of(term.postings) =~= term_freqs_of(term.postings));
    assert(opened.position_deltas + position_deltas_of(term.postings) =~= position_deltas_of(
        term.postings,
    ));
}

/// A term of `count` times the block length documents and `rest` more,
/// `rest` being less than a block, is written as `count` full blocks and
/// the tail of its last `rest` documents. If `rest` is zero the tail is
/// empty: the term is written as full blocks only.
pub proof fn lemma_term_blocks_and_tail(
    s: SerializerState,
    term: TermPostings,
    count: nat,
    rest: nat,
)
    requires
        s.wf(),
        !s.term_open,
        term.postings.len() == count * s.block_len + rest,
        rest < s.block_len,
    ensures
        ({
            let doc_ids = doc_ids_of(term.postings);
            let term_freqs = term_freqs_of(term.postings);
            let with_freqs = term.options.termfreq_enabled();
            let blocks = full_blocks_bytes(doc_ids, term_freqs, 0, s.block_len, with_freqs, count);
            let tail = tail_postings_bytes(
                doc_ids.skip((count * s.block_len) as int),
                term_freqs.skip((count * s.block_len) as int),
                base_at(doc_ids, 0, s.block_len, count),
                with_freqs,
            );
            &&& s.write_term(term).postings == s.postings + blocks + tail
            &&& doc_ids.skip((count * s.block_len) as int).len() == rest
            &&& rest == 0 ==> tail.len() == 0 && s.write_term(term).postings == s.postings
                + blocks
        }),
{
    lemma_write_term(s, term);
    let doc_ids = doc_ids_of(term.postings);
    let term_freqs = term_freqs_of(term.postings);
    let with_freqs = term.options.termfreq_enabled();
    lemma_blocks_then_tail(doc_ids, term_freqs, 0, s.block_len, with_freqs, count, rest);
    let blocks = full_blocks_bytes(doc_ids, term_freqs, 0, s.block_len, with_freqs, count);
    let tail = tail_postings_bytes(
        doc_ids.skip((count * s.block_len) as int),
        term_freqs.skip((count * s.block_len) as int),
        base_at(doc_ids, 0, s.block_len, count),
        with_freqs,
    );
    assert(s.postings + (blocks + tail) =~= s.postings + blocks + tail);
    if rest == 0 {
        assert(s.postings + blocks + tail =~= s.postings + blocks);
    }
}

/// Where the field of a term does not record frequencies, the term adds to
/// the postings stream the encoding of its document ids and nothing else.
/// Where it does not record positions, the term leaves the positions
/// stream as it was, so that its positions offset is also the length of
/// that stream when the term is closed.
pub proof fn lemma_feature_gating(s: SerializerState, term: TermPostings)
    requires
        s.wf(),
        !s.term_open,
    ensures
        !term.options.termfreq_enabled() ==> s.write_term(term).postings == s.postings
            + doc_ids_bytes(doc_ids_of(term.postings), 0, s.block_len),
        !term.options.position_enabled() ==> s.write_term(term).positions == s.positions
            && s.write_term(term).terms.last().positions_offset == s.write_term(
            term,
        ).positions.len(),
{
    lemma_write_term(s, term);
    lemma_postings_without_freqs(
        doc_ids_of(term.postings),
        term_freqs_of(term.postings),
        0,
        s.block_len,
    );
    if !term.options.position_enabled() {
        assert(s.positions + term.positions_bytes(s.block_len) =~= s.positions);
    }
}

/// A run of terms, written into an idle serializer, leaves it idle, adds
/// one entry per term to the dictionary, and revises nothing: what the
/// dictionary and the two streams held before is still there, followed by
/// what the terms added.
pub proof fn lemma_write_terms(s: SerializerState, terms: Seq<TermPostings>)
    requires
        s.wf(),
        !s.term_open,
    ensures
        ({
            let r = s.write_terms(terms);
            &&& r.wf()
            &&& !r.term_open
            &&& r.block_len == s.block_len
            &&& r.terms.len() == s.terms.len() + terms.len()
            &&& s.terms.is_prefix_of(r.terms)
            &&& s.postings.is_prefix_of(r.postings)
            &&& s.positions.is_prefix_of(r.positions)
        }),
    decreases terms.len(),
{
    if terms.len() > 0 {
        let s1 = s.write_term(terms[0]);
        lemma_write_term(s, terms[0]);
        lemma_write_terms(s1, terms.skip(1));
        let r = s1.write_terms(terms.skip(1));
        assert(s.terms =~= r.terms.subrange(0, s.terms.len() as int)) by {
            assert(s1.terms =~= r.terms.subrange(0, s1.terms.len() as int));
        }
        assert(s.postings =~= r.postings.subrange(0, s.postings.len() as int)) by {
            assert(s1.postings =~= r.postings.subrange(0, s1.postings.len() as int));
        }
        assert(s.positions =~= r.positions.subrange(0, s.positions.len() as int)) by {
            assert(s1.positions =~= r.positions.subrange(0, s1.positions.len() as int));
        }
    }
}

/// Where a stream begins with `head` and then `piece`, what it holds from
/// the end of `head` on begins with `piece`.
proof fn lemma_skip_to_piece(stream: Seq<u8>, head: Seq<u8>, piece: Seq<u8>)
    requires
        (head + piece).is_prefix_of(stream),
    ensures
        stream.skip(head.len() as int) == piece + stream.skip((head + piece).len() as int),
{
    let begun = head + piece;
    let from_head = stream.skip(head.len() as int);
    let from_piece = stream.skip(begun.len() as int);
    assert forall|i: int| 0 <= i < from_head.len() implies from_head[i] == (piece
        + from_piece)[i] by {
        if i < piece.len() {
            assert(stream.subrange(0, begun.len() as int)[head.len() + i] == begun[head.len() + i]);
        }
    }
    assert(from_head =~= piece + from_piece);
}

/// Every term of a run can be read back. After the run, the dictionary
/// holds for the term its key, the number of its documents, and as offsets
/// the lengths that the two streams had when the terms before it were
/// written. Reading the postings stream from the postings offset gives the
/// document ids of the term, and its frequencies where the field records
/// them; reading the positions stream from the positions offset gives its
/// position gaps where the field records them. This holds whatever order
/// the keys and the document ids are in.
pub proof fn lemma_round_trip(s: SerializerState, terms: Seq<TermPostings>, index: int)
    requires
        s.wf(),
        !s.term_open,
        0 <= index < terms.len(),
    ensures
        ({
            let r = s.write_terms(terms);
            let before = s.write_terms(terms.take(index));
            let term = terms[index];
            let entry = r.terms[s.terms.len() + index];
            let with_freqs = term.options.termfreq_enabled();
            &&& r.terms.len() == s.terms.len() + terms.len()
            &&& entry == term.record(before.postings.len(), before.positions.len())
            &&& entry.postings_offset <= r.postings.len()
            &&& entry.positions_offset <= r.positions.len()
            &&& postings_parse(
                r.postings.skip(entry.postings_offset as int),
                entry.doc_freq,
                0,
                r.block_len,
                with_freqs,
            ) == Some(
                (
                    doc_ids_of(term.postings),
                    if with_freqs {
                        term_freqs_of(term.postings)
                    } else {
                        Seq::empty()
                    },
                    term.postings_bytes(r.block_len).len(),
                ),
            )
            &&& term.options.position_enabled() ==> positions_parse(
                r.positions.skip(entry.positions_offset as int),
                r.block_len,
            ) == Some(
                (position_deltas_of(term.postings), term.positions_bytes(r.block_len).len()),
            )
        }),
    decreases terms.len(),
{
    let first = terms[0];
    let others = terms.skip(1);
    let s1 = s.write_term(first);
    let r = s1.write_terms(others);
    lemma_write_term(s, first);
    lemma_write_terms(s1, others);
    if index == 0 {
        assert(terms.take(0) =~= Seq::<TermPostings>::empty());
        let postings_bytes = first.postings_bytes(s.block_len);
        let positions_bytes = first.positions_bytes(s.block_len);
        let later_postings = r.postings.skip(s1.postings.len() as int);
        let later_positions = r.positions.skip(s1.positions.len() as int);
        assert(r.terms[s.terms.len() as int] == s1.terms[s.terms.len() as int]) by {
            assert(s1.terms =~= r.terms.subrange(0, s1.terms.len() as int));
        }
        lemma_skip_to_piece(r.postings, s.postings, postings_bytes);
        lemma_skip_to_piece(r.positions, s.positions, positions_bytes);
        lemma_postings_parse(
            doc_ids_of(first.postings),
            term_freqs_of(first.postings),
            0,
            s.block_len,
            first.options.termfreq_enabled(),
            later_postings,
        );
        if first.options.position_enabled() {
            lemma_positions_parse(position_deltas_of(first.postings), s.block_len, later_positions);
        }
    } else {
        lemma_round_trip(s1, others, index - 1);
        assert(terms.take(index).skip(1) =~= others.take(index - 1));
        assert(terms.take(index)[0] == first);
    }
}

/// Where each document has as many position gaps as its term frequency
/// says, the frequencies cut the position gaps of the term, as they are
/// read back, into the lists of the documents.
pub proof fn lemma_positions_split(postings: Seq<Posting>)
    requires
        forall|i: int|
            0 <= i < postings.len() ==> (#[trigger] postings[i]).position_deltas.len()
                == postings[i].term_freq,
    ensures
        positions_split(position_deltas_of(postings), term_freqs_of(postings)) == Seq::new(
            postings.len(),
            |i: int| postings[i].position_deltas,
        ),
    decreases postings.len(),
{
    let lists = Seq::new(postings.len(), |i: int| postings[i].position_deltas);
    let split = positions_split(position_deltas_of(postings), term_freqs_of(postings));
    if postings.len() > 0 {
        let first = postings[0];
        let others = postings.skip(1);
        let later = position_deltas_of(others);
        assert(first.position_deltas.len() == first.term_freq);
        assert forall|i: int| 0 <= i < others.len() implies (#[trigger] others[i])
            .position_deltas.len() == others[i].term_freq by {
            assert(others[i] == postings[i + 1]);
        }
        lemma_positions_split(others);
        assert(term_freqs_of(postings).skip(1) =~= term_freqs_of(others));
        assert(position_deltas_of(postings).take(first.term_freq as int)
            =~= first.position_deltas);
        assert(position_deltas_of(postings).skip(first.term_freq as int) =~= later);
        assert(split =~= lists);
    } else {
        assert(split =~= lists);
    }
}

/// The dictionary is as sorted as the terms were: a run of terms whose keys
/// are strictly increasing, written into a fresh serializer, leaves a
/// dictionary whose keys are strictly increasing.
pub proof fn lemma_sorted_dictionary(block_len: nat, terms: Seq<TermPostings>)
    requires
        forall|i: int, j: int|
            0 <= i < j < terms.len() ==> key_before(
                (#[trigger] terms[i]).key,
                (#[trigger] terms[j]).key,
            ),
    ensures
        keys_increasing(SerializerState::initial(block_len).write_terms(terms).terms),
{
    let s = SerializerState::initial(block_len);
    let r = s.write_terms(terms);
    lemma_write_terms(s, terms);
    assert forall|i: int, j: int| 0 <= i < j < r.terms.len() implies key_before(
        (#[trigger] r.terms[i]).key,
        (#[trigger] r.terms[j]).key,
    ) by {
        lemma_round_trip(s, terms, i);
        lemma_round_trip(s, terms, j);
        assert(key_before(terms[i].key, terms[j].key));
    }
}

} // verus!
