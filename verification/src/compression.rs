//! Encoding of blocks of `u32` values.
//!
//! There are two flavours. The *sorted* one writes each value as its gap to
//! the value before it, the first against a base that the caller supplies;
//! the *unsorted* one writes the values as they are. Each flavour has a
//! block form, bit-packed at the width of the widest value and preceded by
//! that width in one byte, and a variable-length form, one variable-length
//! integer per value.
//!
//! A reader has to know how many values a piece holds: neither form records
//! the count.

use crate::bitpacking::{
    compute_max_bit_width,
    fits,
    lemma_max_bit_width_fits,
    lemma_unpack_packed,
    max_bit_width,
    pack,
    packed_bytes,
    packed_len,
    unpacked,
};
use crate::common::{
    lemma_vint_parse_bytes,
    serialize_vint,
    vint_bytes,
    vint_parse,
};
use vstd::arithmetic::power2::lemma2_to64;
use vstd::prelude::*;
use vstd::slice::slice_subrange;

verus! {

/// The number of documents in a full block of a postings list.
pub const NUM_DOCS_PER_BLOCK: usize = 128;

/// The gap from `previous` up to `value`, modulo `2^32`.
pub open spec fn gap(value: u32, previous: u32) -> u32 {
    if value >= previous {
        (value - previous) as u32
    } else {
        (value + 0x1_0000_0000 - previous) as u32
    }
}

/// The gaps of `vals`: each value against the one before it, the first
/// against `base`.
pub open spec fn deltas(vals: Seq<u32>, base: u32) -> Seq<u32> {
    Seq::new(
        vals.len(),
        |i: int|
            gap(
                vals[i],
                if i == 0 {
                    base
                } else {
                    vals[i - 1]
                },
            ),
    )
}

/// The block form of `vals`: the width of the widest value, then the values
/// bit-packed at that width.
pub open spec fn block_bytes(vals: Seq<u32>) -> Seq<u8> {
    seq![max_bit_width(vals) as u8] + packed_bytes(vals, max_bit_width(vals))
}

/// The block form of the gaps of `vals` against `base`.
pub open spec fn sorted_block_bytes(vals: Seq<u32>, base: u32) -> Seq<u8> {
    block_bytes(deltas(vals, base))
}

/// The variable-length form of `vals`: one variable-length integer per
/// value, in order.
pub open spec fn vint_list_bytes(vals: Seq<u32>) -> Seq<u8>
    decreases vals.len(),
{
    if vals.len() == 0 {
        Seq::empty()
    } else {
        vint_list_bytes(vals.drop_last()) + vint_bytes(vals.last() as nat)
    }
}

/// The variable-length form of the gaps of `vals` against `base`.
pub open spec fn sorted_vint_bytes(vals: Seq<u32>, base: u32) -> Seq<u8> {
    vint_list_bytes(deltas(vals, base))
}

/// A sequence of any length in the unsorted flavour: block forms of
/// `block_len` values each while that many are left, then the
/// variable-length form of what remains.
pub open spec fn composite_bytes(vals: Seq<u32>, block_len: nat) -> Seq<u8>
    decreases vals.len(),
{
    if block_len == 0 || vals.len() < block_len {
        vint_list_bytes(vals)
    } else {
        block_bytes(vals.take(block_len as int)) + composite_bytes(
            vals.skip(block_len as int),
            block_len,
        )
    }
}

/// The gaps of `vals` against `base`.
pub fn compute_deltas(vals: &[u32], base: u32) -> (out: Vec<u32>)
    ensures
        out@ == deltas(vals@, base),
{
    let mut out: Vec<u32> = Vec::with_capacity(vals.len());
    let mut previous: u32 = base;
    let mut i: usize = 0;
    while i < vals.len()
        invariant
            i <= vals.len(),
            out@ == deltas(vals@, base).take(i as int),
            previous == if i == 0 {
                base
            } else {
                vals@[i - 1]
            },
        decreases vals.len() - i,
    {
        let value: u32 = vals[i];
        out.push(value.wrapping_sub(previous));
        assert(out@ =~= deltas(vals@, base).take(i + 1));
        previous = value;
        i = i + 1;
    }
    assert(out@ =~= deltas(vals@, base));
    out
}

/// Appends the unsorted block form of `vals` to `out`.
pub fn compress_block_unsorted(vals: &[u32], out: &mut Vec<u8>)
    ensures
        final(out)@ == old(out)@ + block_bytes(vals@),
{
    let width: u8 = compute_max_bit_width(vals);
    out.push(width);
    pack(vals, width, out);
    assert(out@ =~= old(out)@ + block_bytes(vals@));
}

/// Appends the sorted block form of `vals`, with gaps taken against `base`,
/// to `out`.
pub fn compress_block_sorted(vals: &[u32], base: u32, out: &mut Vec<u8>)
    ensures
        final(out)@ == old(out)@ + sorted_block_bytes(vals@, base),
{
    let gaps: Vec<u32> = compute_deltas(vals, base);
    compress_block_unsorted(gaps.as_slice(), out);
}

/// Appends the unsorted variable-length form of `vals` to `out`.
pub fn compress_vint_unsorted(vals: &[u32], out: &mut Vec<u8>)
    ensures
        final(out)@ == old(out)@ + vint_list_bytes(vals@),
{
    let mut i: usize = 0;
    assert(vals@.take(0) =~= Seq::<u32>::empty());
    assert(out@ =~= old(out)@ + vint_list_bytes(vals@.take(0)));
    while i < vals.len()
        invariant
            i <= vals.len(),
            out@ == old(out)@ + vint_list_bytes(vals@.take(i as int)),
        decreases vals.len() - i,
    {
        serialize_vint(vals[i] as u64, out);
        proof {
            let next = vals@.take(i + 1);
            assert(next.drop_last() =~= vals@.take(i as int));
            assert(next.last() == vals@[i as int]);
            assert(out@ =~= old(out)@ + vint_list_bytes(next));
        }
        i = i + 1;
    }
    assert(vals@.take(i as int) =~= vals@);
}

/// Appends the sorted variable-length form of `vals`, with gaps taken
/// against `base`, to `out`.
pub fn compress_vint_sorted(vals: &[u32], base: u32, out: &mut Vec<u8>)
    ensures
        final(out)@ == old(out)@ + sorted_vint_bytes(vals@, base),
{
    let gaps: Vec<u32> = compute_deltas(vals, base);
    compress_vint_unsorted(gaps.as_slice(), out);
}

/// Appends `vals`, a sequence of any length, to `out` in the unsorted
/// flavour: block forms of `block_len` values each, then the variable-length
/// form of the remainder.
pub fn compress_unsorted(vals: &[u32], block_len: usize, out: &mut Vec<u8>)
    ensures
        final(out)@ == old(out)@ + composite_bytes(vals@, block_len as nat),
{
    let mut start: usize = 0;
    assert(vals@.skip(0) =~= vals@);
    assert(out@ =~= old(out)@);
    while block_len > 0 && vals.len() - start >= block_len
        invariant
            start <= vals.len(),
            out@ + composite_bytes(vals@.skip(start as int), block_len as nat) == old(out)@
                + composite_bytes(vals@, block_len as nat),
        decreases vals.len() - start,
    {
        let ghost before = out@;
        let ghost rest = vals@.skip(start as int);
        compress_block_unsorted(slice_subrange(vals, start, start + block_len), out);
        proof {
            assert(vals@.subrange(start as int, start + block_len) =~= rest.take(block_len as int));
            assert(vals@.skip(start + block_len) =~= rest.skip(block_len as int));
            assert(out@ + composite_bytes(rest.skip(block_len as int), block_len as nat)
                =~= before + composite_bytes(rest, block_len as nat));
        }
        start = start + block_len;
    }
    compress_vint_unsorted(slice_subrange(vals, start, vals.len()), out);
    proof {
        assert(vals@.subrange(start as int, vals@.len() as int) =~= vals@.skip(start as int));
    }
}

/// The value that lies `gap` above `previous`, modulo `2^32`.
pub open spec fn step(previous: u32, gap: u32) -> u32 {
    ((previous + gap) % 0x1_0000_0000) as u32
}

/// The values whose gaps are `gaps`: each the value before it plus its
/// gap, the first `base` plus its gap.
pub open spec fn undeltas(gaps: Seq<u32>, base: u32) -> Seq<u32>
    decreases gaps.len(),
{
    if gaps.len() == 0 {
        Seq::empty()
    } else {
        let front = undeltas(gaps.drop_last(), base);
        front.push(
            step(
                if front.len() == 0 {
                    base
                } else {
                    front.last()
                },
                gaps.last(),
            ),
        )
    }
}

/// Reads `count` values in the block form from the front of `bytes`: the
/// values and the number of bytes they occupy, or `None` if `bytes` is too
/// short or names a width above 32.
pub open spec fn block_parse(bytes: Seq<u8>, count: nat) -> Option<(Seq<u32>, nat)> {
    if bytes.len() == 0 || bytes[0] > 32 {
        None
    } else {
        let width = bytes[0] as nat;
        let len = packed_len(count, width);
        if bytes.len() < 1 + len {
            None
        } else {
            Some((unpacked(bytes.subrange(1, (1 + len) as int), width, count), 1 + len))
        }
    }
}

/// Reads `count` values in the variable-length form from the front of
/// `bytes`: the values and the number of bytes they occupy, or `None` if
/// `bytes` ends too early or holds a value above `u32::MAX`.
pub open spec fn vint_list_parse(bytes: Seq<u8>, count: nat) -> Option<(Seq<u32>, nat)>
    decreases count,
{
    if count == 0 {
        Some((Seq::empty(), 0nat))
    } else {
        match vint_parse(bytes) {
            Some((value, used)) => if value > u32::MAX {
                None
            } else {
                match vint_list_parse(bytes.skip(used as int), (count - 1) as nat) {
                    Some((values, more)) => Some((seq![value as u32] + values, used + more)),
                    None => None,
                }
            },
            None => None,
        }
    }
}

/// Reads a sequence of `count` values, written as by `composite_bytes`,
/// from the front of `bytes`.
pub open spec fn composite_parse(bytes: Seq<u8>, count: nat, block_len: nat) -> Option<
    (Seq<u32>, nat),
>
    decreases count,
{
    if block_len == 0 || count < block_len {
        vint_list_parse(bytes, count)
    } else {
        match block_parse(bytes, block_len) {
            Some((block, used)) => match composite_parse(
                bytes.skip(used as int),
                (count - block_len) as nat,
                block_len,
            ) {
                Some((values, more)) => Some((block + values, used + more)),
                None => None,
            },
            None => None,
        }
    }
}

/// Adding up the gaps of a sequence gives the sequence back.
pub proof fn lemma_undeltas_deltas(vals: Seq<u32>, base: u32)
    ensures
        undeltas(deltas(vals, base), base) == vals,
    decreases vals.len(),
{
    let gaps = deltas(vals, base);
    if vals.len() > 0 {
        let front = vals.drop_last();
        lemma_undeltas_deltas(front, base);
        assert(gaps.drop_last() =~= deltas(front, base));
        assert(undeltas(gaps, base) =~= vals);
    } else {
        assert(undeltas(gaps, base) =~= vals);
    }
}

/// Reading a block gives its values back, whatever follows it.
pub proof fn lemma_block_parse(vals: Seq<u32>, rest: Seq<u8>)
    ensures
        block_parse(block_bytes(vals) + rest, vals.len()) == Some(
            (vals, block_bytes(vals).len()),
        ),
{
    let width = max_bit_width(vals);
    assert(fits(vals, 32)) by {
        lemma2_to64();
    }
    lemma_max_bit_width_fits(vals, 32);
    lemma_max_bit_width_fits(vals, width);
    lemma_unpack_packed(vals, width);
    let bytes = block_bytes(vals) + rest;
    assert(bytes[0] == width as u8);
    assert(bytes.subrange(1, (1 + packed_len(vals.len(), width)) as int) =~= packed_bytes(
        vals,
        width,
    ));
}

/// The variable-length form of a sequence is that of its first value
/// followed by that of the others.
pub proof fn lemma_vint_list_front(vals: Seq<u32>)
    requires
        vals.len() > 0,
    ensures
        vint_list_bytes(vals) == vint_bytes(vals[0] as nat) + vint_list_bytes(vals.skip(1)),
    decreases vals.len(),
{
    let front = vals.drop_last();
    if front.len() == 0 {
        assert(vals.skip(1) =~= Seq::<u32>::empty());
        assert(vint_list_bytes(front) =~= Seq::<u8>::empty());
        assert(vint_list_bytes(vals.skip(1)) =~= Seq::<u8>::empty());
        assert(vals.last() == vals[0]);
        assert(vint_list_bytes(vals) =~= vint_bytes(vals[0] as nat) + vint_list_bytes(
            vals.skip(1),
        ));
    } else {
        lemma_vint_list_front(front);
        assert(vals.skip(1).drop_last() =~= front.skip(1));
        assert(vint_list_bytes(vals) =~= vint_bytes(vals[0] as nat) + vint_list_bytes(
            vals.skip(1),
        ));
    }
}

/// Reading a variable-length list gives its values back, whatever follows
/// it.
pub proof fn lemma_vint_list_parse(vals: Seq<u32>, rest: Seq<u8>)
    ensures
        vint_list_parse(vint_list_bytes(vals) + rest, vals.len()) == Some(
            (vals, vint_list_bytes(vals).len()),
        ),
    decreases vals.len(),
{
    if vals.len() > 0 {
        let first = vint_bytes(vals[0] as nat);
        let others = vals.skip(1);
        let bytes = vint_list_bytes(vals) + rest;
        lemma_vint_list_front(vals);
        lemma_vint_parse_bytes(vals[0] as nat, vint_list_bytes(others) + rest);
        assert(bytes =~= first + (vint_list_bytes(others) + rest));
        assert(bytes.skip(first.len() as int) =~= vint_list_bytes(others) + rest);
        lemma_vint_list_parse(others, rest);
        assert(seq![vals[0]] + others =~= vals);
    } else {
        assert(vint_list_bytes(vals).len() == 0);
    }
}

/// Reading a composite sequence gives its values back, whatever follows
/// it.
pub proof fn lemma_composite_parse(vals: Seq<u32>, block_len: nat, rest: Seq<u8>)
    ensures
        composite_parse(composite_bytes(vals, block_len) + rest, vals.len(), block_len) == Some(
            (vals, composite_bytes(vals, block_len).len()),
        ),
    decreases vals.len(),
{
    if block_len == 0 || vals.len() < block_len {
        lemma_vint_list_parse(vals, rest);
    } else {
        let block = vals.take(block_len as int);
        let others = vals.skip(block_len as int);
        let bytes = composite_bytes(vals, block_len) + rest;
        let later = composite_bytes(others, block_len) + rest;
        lemma_block_parse(block, later);
        assert(bytes =~= block_bytes(block) + later);
        assert(bytes.skip(block_bytes(block).len() as int) =~= later);
        lemma_composite_parse(others, block_len, rest);
        assert(block + others =~= vals);
    }
}

} // verus!
