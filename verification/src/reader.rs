//! How the postings and the positions of a term are read back from the two
//! streams, given what the dictionary stores for the term: the reading is
//! stated here, not executed, and it is proved to give back what the
//! serializer was given.

use crate::common::{lemma_vint_parse_bytes, vint_bytes, vint_parse};
use crate::compression::{
    block_bytes,
    block_parse,
    composite_bytes,
    composite_parse,
    deltas,
    lemma_block_parse,
    lemma_composite_parse,
    lemma_undeltas_deltas,
    lemma_vint_list_parse,
    undeltas,
    vint_list_bytes,
    vint_list_parse,
};
use crate::layout::{
    block_postings_bytes,
    tail_postings_bytes,
    term_positions_bytes,
    term_postings_bytes,
};
use vstd::prelude::*;

verus! {

/// Reads `count` values from the front of `bytes`, in the block form if
/// `block` and in the variable-length form otherwise.
pub open spec fn values_parse(bytes: Seq<u8>, count: nat, block: bool) -> Option<(Seq<u32>, nat)> {
    if block {
        block_parse(bytes, count)
    } else {
        vint_list_parse(bytes, count)
    }
}

/// Reads one piece of a term, a full block or the tail, of `count`
/// documents: their ids, their frequencies where they are recorded, and
/// the number of bytes of the piece.
#[verifier::opaque]
pub open spec fn piece_parse(
    bytes: Seq<u8>,
    count: nat,
    base: u32,
    with_freqs: bool,
    block: bool,
) -> Option<(Seq<u32>, Seq<u32>, nat)> {
    match values_parse(bytes, count, block) {
        Some((gaps, used)) => if with_freqs {
            match values_parse(bytes.skip(used as int), count, block) {
                Some((term_freqs, more)) => Some((undeltas(gaps, base), term_freqs, used + more)),
                None => None,
            }
        } else {
            Some((undeltas(gaps, base), Seq::empty(), used))
        },
        None => None,
    }
}

/// Reads the postings of a term of `doc_freq` documents from the front of
/// `bytes`: full blocks while `block_len` documents are left to read, then
/// the tail.
pub open spec fn postings_parse(
    bytes: Seq<u8>,
    doc_freq: nat,
    base: u32,
    block_len: nat,
    with_freqs: bool,
) -> Option<(Seq<u32>, Seq<u32>, nat)>
    decreases doc_freq,
{
    if block_len >= 1 && doc_freq >= block_len {
        match piece_parse(bytes, block_len, base, with_freqs, true) {
            Some((doc_ids, term_freqs, used)) => match postings_parse(
                bytes.skip(used as int),
                (doc_freq - block_len) as nat,
                doc_ids.last(),
                block_len,
                with_freqs,
            ) {
                Some((more_ids, more_freqs, more)) => Some(
                    (doc_ids + more_ids, term_freqs + more_freqs, used + more),
                ),
                None => None,
            },
            None => None,
        }
    } else {
        piece_parse(bytes, doc_freq, base, with_freqs, false)
    }
}

/// Reads the positions of a term from the front of `bytes`: the number of
/// gaps, then the gaps.
pub open spec fn positions_parse(bytes: Seq<u8>, block_len: nat) -> Option<(Seq<u32>, nat)> {
    match vint_parse(bytes) {
        Some((count, used)) => match composite_parse(bytes.skip(used as int), count, block_len) {
            Some((position_deltas, more)) => Some((position_deltas, used + more)),
            None => None,
        },
        None => None,
    }
}

/// Cuts the position gaps of a term into those of its documents, document
/// `i` having `counts[i]` of them.
pub open spec fn positions_split(position_deltas: Seq<u32>, counts: Seq<u32>) -> Seq<Seq<u32>>
    decreases counts.len(),
{
    if counts.len() == 0 {
        Seq::empty()
    } else {
        seq![position_deltas.take(counts[0] as int)] + positions_split(
            position_deltas.skip(counts[0] as int),
            counts.skip(1),
        )
    }
}

/// Reading a piece gives back its documents, and its frequencies where
/// they are recorded, whatever follows it.
pub proof fn lemma_piece_parse(
    doc_ids: Seq<u32>,
    term_freqs: Seq<u32>,
    base: u32,
    with_freqs: bool,
    block: bool,
    rest: Seq<u8>,
)
    requires
        with_freqs ==> term_freqs.len() == doc_ids.len(),
    ensures
        ({
            let piece = if block {
                block_postings_bytes(doc_ids, term_freqs, base, with_freqs)
            } else {
                tail_postings_bytes(doc_ids, term_freqs, base, with_freqs)
            };
            piece_parse(piece + rest, doc_ids.len(), base, with_freqs, block) == Some(
                (
                    doc_ids,
                    if with_freqs {
                        term_freqs
                    } else {
                        Seq::empty()
                    },
                    piece.len(),
                ),
            )
        }),
{
    let gaps = deltas(doc_ids, base);
    let ids_bytes = if block {
        block_bytes(gaps)
    } else {
        vint_list_bytes(gaps)
    };
    let freqs_bytes = if !with_freqs {
        Seq::empty()
    } else if block {
        block_bytes(term_freqs)
    } else {
        vint_list_bytes(term_freqs)
    };
    let piece = if block {
        block_postings_bytes(doc_ids, term_freqs, base, with_freqs)
    } else {
        tail_postings_bytes(doc_ids, term_freqs, base, with_freqs)
    };
    reveal(piece_parse);
    lemma_undeltas_deltas(doc_ids, base);
    if doc_ids.len() == 0 && !block {
        assert(gaps =~= Seq::<u32>::empty());
        assert(undeltas(gaps, base) =~= doc_ids);
        assert(term_freqs.len() == 0 ==> term_freqs =~= Seq::<u32>::empty());
        assert((piece + rest).skip(0) =~= piece + rest);
    } else {
        assert(piece =~= ids_bytes + freqs_bytes);
        assert(piece + rest =~= ids_bytes + (freqs_bytes + rest));
        assert((piece + rest).skip(ids_bytes.len() as int) =~= freqs_bytes + rest);
        if block {
            lemma_block_parse(gaps, freqs_bytes + rest);
            if with_freqs {
                lemma_block_parse(term_freqs, rest);
            }
        } else {
            lemma_vint_list_parse(gaps, freqs_bytes + rest);
            if with_freqs {
                lemma_vint_list_parse(term_freqs, rest);
            }
        }
    }
}

/// Reading the postings of a term gives back its documents, and its
/// frequencies where they are recorded, whatever follows the term in the
/// stream.
pub proof fn lemma_postings_parse(
    doc_ids: Seq<u32>,
    term_freqs: Seq<u32>,
    base: u32,
    block_len: nat,
    with_freqs: bool,
    rest: Seq<u8>,
)
    requires
        with_freqs ==> term_freqs.len() == doc_ids.len(),
    ensures
        postings_parse(
            term_postings_bytes(doc_ids, term_freqs, base, block_len, with_freqs) + rest,
            doc_ids.len(),
            base,
            block_len,
            with_freqs,
        ) == Some(
            (
                doc_ids,
                if with_freqs {
                    term_freqs
                } else {
                    Seq::empty()
                },
                term_postings_bytes(doc_ids, term_freqs, base, block_len, with_freqs).len(),
            ),
        ),
    decreases doc_ids.len(),
{
    let bytes = term_postings_bytes(doc_ids, term_freqs, base, block_len, with_freqs) + rest;
    if block_len >= 1 && doc_ids.len() >= block_len {
        let block_ids = doc_ids.take(block_len as int);
        let block_freqs = term_freqs.take(block_len as int);
        let later_ids = doc_ids.skip(block_len as int);
        let later_freqs = term_freqs.skip(block_len as int);
        let block = block_postings_bytes(block_ids, block_freqs, base, with_freqs);
        let later = term_postings_bytes(
            later_ids,
            later_freqs,
            doc_ids[block_len - 1],
            block_len,
            with_freqs,
        ) + rest;
        lemma_piece_parse(block_ids, block_freqs, base, with_freqs, true, later);
        assert(bytes =~= block + later);
        assert(bytes.skip(block.len() as int) =~= later);
        assert(block_ids.last() == doc_ids[block_len - 1]);
        lemma_postings_parse(
            later_ids,
            later_freqs,
            doc_ids[block_len - 1],
            block_len,
            with_freqs,
            rest,
        );
        assert(block_ids + later_ids =~= doc_ids);
        if with_freqs {
            assert(block_freqs + later_freqs =~= term_freqs);
        } else {
            assert(Seq::<u32>::empty() + Seq::<u32>::empty() =~= Seq::<u32>::empty());
        }
    } else {
        lemma_piece_parse(doc_ids, term_freqs, base, with_freqs, false, rest);
    }
}

/// Reading the positions of a term gives back its position gaps, whatever
/// follows the term in the stream.
pub proof fn lemma_positions_parse(position_deltas: Seq<u32>, block_len: nat, rest: Seq<u8>)
    ensures
        positions_parse(
            term_positions_bytes(position_deltas, block_len, true) + rest,
            block_len,
        ) == Some(
            (position_deltas, term_positions_bytes(position_deltas, block_len, true).len()),
        ),
{
    let count = vint_bytes(position_deltas.len());
    let gaps = composite_bytes(position_deltas, block_len);
    let bytes = term_positions_bytes(position_deltas, block_len, true) + rest;
    lemma_vint_parse_bytes(position_deltas.len(), gaps + rest);
    assert(bytes =~= count + (gaps + rest));
    assert(bytes.skip(count.len() as int) =~= gaps + rest);
    lemma_composite_parse(position_deltas, block_len, rest);
}

} // verus!
