//! The layout of the postings of one term in the postings stream and in the
//! positions stream, stated on the whole lists of the term.

use crate::common::vint_bytes;
use crate::compression::{
    block_bytes,
    composite_bytes,
    sorted_block_bytes,
    sorted_vint_bytes,
    vint_list_bytes,
};
use vstd::prelude::*;

verus! {

/// One full block: the document ids in the sorted block form, with gaps
/// against `base`, then the frequencies in the unsorted block form where
/// they are recorded.
pub open spec fn block_postings_bytes(
    doc_ids: Seq<u32>,
    term_freqs: Seq<u32>,
    base: u32,
    with_freqs: bool,
) -> Seq<u8> {
    sorted_block_bytes(doc_ids, base) + if with_freqs {
        block_bytes(term_freqs)
    } else {
        Seq::empty()
    }
}

/// The documents that fill no block: nothing if there are none, else their
/// ids in the sorted variable-length form, with gaps against `base`, then
/// their frequencies in the unsorted variable-length form where they are
/// recorded.
pub open spec fn tail_postings_bytes(
    doc_ids: Seq<u32>,
    term_freqs: Seq<u32>,
    base: u32,
    with_freqs: bool,
) -> Seq<u8> {
    if doc_ids.len() == 0 {
        Seq::empty()
    } else {
        sorted_vint_bytes(doc_ids, base) + if with_freqs {
            vint_list_bytes(term_freqs)
        } else {
            Seq::empty()
        }
    }
}

/// The postings of a term: full blocks of `block_len` documents while that
/// many are left, each with the last document of the block before it as its
/// base, then the tail.
pub open spec fn term_postings_bytes(
    doc_ids: Seq<u32>,
    term_freqs: Seq<u32>,
    base: u32,
    block_len: nat,
    with_freqs: bool,
) -> Seq<u8>
    decreases doc_ids.len(),
{
    if block_len >= 1 && doc_ids.len() >= block_len {
        block_postings_bytes(
            doc_ids.take(block_len as int),
            term_freqs.take(block_len as int),
            base,
            with_freqs,
        ) + term_postings_bytes(
            doc_ids.skip(block_len as int),
            term_freqs.skip(block_len as int),
            doc_ids[block_len - 1],
            block_len,
            with_freqs,
        )
    } else {
        tail_postings_bytes(doc_ids, term_freqs, base, with_freqs)
    }
}

/// The first `count` full blocks of a term.
pub open spec fn full_blocks_bytes(
    doc_ids: Seq<u32>,
    term_freqs: Seq<u32>,
    base: u32,
    block_len: nat,
    with_freqs: bool,
    count: nat,
) -> Seq<u8>
    decreases count,
{
    if count == 0 {
        Seq::empty()
    } else {
        block_postings_bytes(
            doc_ids.take(block_len as int),
            term_freqs.take(block_len as int),
            base,
            with_freqs,
        ) + full_blocks_bytes(
            doc_ids.skip(block_len as int),
            term_freqs.skip(block_len as int),
            doc_ids[block_len - 1],
            block_len,
            with_freqs,
            (count - 1) as nat,
        )
    }
}

/// The base of block number `index`, and of the tail if `index` is the
/// number of full blocks: the last document of the block before it, or
/// `base` where there is none.
pub open spec fn base_at(doc_ids: Seq<u32>, base: u32, block_len: nat, index: nat) -> u32 {
    if index == 0 {
        base
    } else {
        doc_ids[index * block_len - 1]
    }
}

/// The document ids of a term alone, in the same blocks and tail.
pub open spec fn doc_ids_bytes(doc_ids: Seq<u32>, base: u32, block_len: nat) -> Seq<u8>
    decreases doc_ids.len(),
{
    if block_len >= 1 && doc_ids.len() >= block_len {
        sorted_block_bytes(doc_ids.take(block_len as int), base) + doc_ids_bytes(
            doc_ids.skip(block_len as int),
            doc_ids[block_len - 1],
            block_len,
        )
    } else if doc_ids.len() == 0 {
        Seq::empty()
    } else {
        sorted_vint_bytes(doc_ids, base)
    }
}

/// The positions of a term: nothing where positions are not recorded, else
/// the number of position gaps and then the gaps.
pub open spec fn term_positions_bytes(
    position_deltas: Seq<u32>,
    block_len: nat,
    with_positions: bool,
) -> Seq<u8> {
    if with_positions {
        vint_bytes(position_deltas.len()) + composite_bytes(position_deltas, block_len)
    } else {
        Seq::empty()
    }
}

/// Where frequencies are not recorded, the postings of a term are its
/// document ids alone: no byte of them depends on a frequency.
pub proof fn lemma_postings_without_freqs(
    doc_ids: Seq<u32>,
    term_freqs: Seq<u32>,
    base: u32,
    block_len: nat,
)
    ensures
        term_postings_bytes(doc_ids, term_freqs, base, block_len, false) == doc_ids_bytes(
            doc_ids,
            base,
            block_len,
        ),
    decreases doc_ids.len(),
{
    if block_len >= 1 && doc_ids.len() >= block_len {
        lemma_postings_without_freqs(
            doc_ids.skip(block_len as int),
            term_freqs.skip(block_len as int),
            doc_ids[block_len - 1],
            block_len,
        );
    }
}

/// A term of `count * block_len + rest` documents, with `rest` below
/// `block_len`, is `count` full blocks followed by the tail of its last
/// `rest` documents, and the tail of no documents is empty. Where
/// frequencies are recorded there is one for each document.
pub proof fn lemma_blocks_then_tail(
    doc_ids: Seq<u32>,
    term_freqs: Seq<u32>,
    base: u32,
    block_len: nat,
    with_freqs: bool,
    count: nat,
    rest: nat,
)
    requires
        doc_ids.len() == count * block_len + rest,
        rest < block_len,
        with_freqs ==> term_freqs.len() == doc_ids.len(),
    ensures
        term_postings_bytes(doc_ids, term_freqs, base, block_len, with_freqs) == full_blocks_bytes(
            doc_ids,
            term_freqs,
            base,
            block_len,
            with_freqs,
            count,
        ) + tail_postings_bytes(
            doc_ids.skip((count * block_len) as int),
            term_freqs.skip((count * block_len) as int),
            base_at(doc_ids, base, block_len, count),
            with_freqs,
        ),
        doc_ids.skip((count * block_len) as int).len() == rest,
        rest == 0 ==> tail_postings_bytes(
            doc_ids.skip((count * block_len) as int),
            term_freqs.skip((count * block_len) as int),
            base_at(doc_ids, base, block_len, count),
            with_freqs,
        ).len() == 0,
    decreases count,
{
    if count == 0 {
        assert(count * block_len == 0) by (nonlinear_arith)
            requires
                count == 0,
        ;
        assert(doc_ids.skip(0) =~= doc_ids);
        assert(term_freqs.skip(0) =~= term_freqs);
    } else {
        let before = (count - 1) as nat;
        assert(count * block_len == before * block_len + block_len) by (nonlinear_arith)
            requires
                before == count - 1,
        ;
        assert(before * block_len >= 0) by (nonlinear_arith);
        let later_ids = doc_ids.skip(block_len as int);
        let later_freqs = term_freqs.skip(block_len as int);
        let later_base = doc_ids[block_len - 1];
        lemma_blocks_then_tail(
            later_ids,
            later_freqs,
            later_base,
            block_len,
            with_freqs,
            before,
            rest,
        );
        assert(later_ids.skip((before * block_len) as int) =~= doc_ids.skip(
            (count * block_len) as int,
        ));
        if with_freqs {
            assert(later_freqs.skip((before * block_len) as int) =~= term_freqs.skip(
                (count * block_len) as int,
            ));
        }
        if before > 0 {
            assert(before * block_len >= block_len) by (nonlinear_arith)
                requires
                    before >= 1,
            ;
            assert(later_ids[before * block_len - 1] == doc_ids[count * block_len - 1]);
        } else {
            assert(before * block_len == 0) by (nonlinear_arith)
                requires
                    before == 0,
            ;
        }
        assert(base_at(later_ids, later_base, block_len, before) == base_at(
            doc_ids,
            base,
            block_len,
            count,
        ));
    }
}

} // verus!
