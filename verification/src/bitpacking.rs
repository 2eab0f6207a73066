//! Fixed-width bit packing. A block of values, each narrower than `width`
//! bits, is laid out back to back, least significant bit first, and the bit
//! string is cut into bytes.
//!
//! The layout is stated arithmetically: the values are the base-`2^width`
//! digits of one natural number, and the packed bytes are the base-256
//! digits of the same number.

use vstd::arithmetic::div_mod::{
    lemma_fundamental_div_mod_converse,
    lemma_hoist_over_denominator,
    lemma_mod_multiples_vanish,
    lemma_small_mod,
};
use vstd::arithmetic::power2::*;
use vstd::prelude::*;

verus! {

/// The number of bits needed to write `value`: the least `w` with
/// `value < 2^w`.
pub open spec fn bit_width(value: nat) -> nat
    decreases value,
{
    if value == 0 {
        0
    } else {
        1 + bit_width(value / 2)
    }
}

/// The least width in which every value of `vals` can be written.
pub open spec fn max_bit_width(vals: Seq<u32>) -> nat
    decreases vals.len(),
{
    if vals.len() == 0 {
        0
    } else {
        let rest = max_bit_width(vals.drop_last());
        let last = bit_width(vals.last() as nat);
        if last > rest {
            last
        } else {
            rest
        }
    }
}

/// Every value of `vals` is below `2^width`.
pub open spec fn fits(vals: Seq<u32>, width: nat) -> bool {
    forall|i: int| 0 <= i < vals.len() ==> (#[trigger] vals[i] as nat) < pow2(width)
}

/// The number whose base-`2^width` digits are `vals`, least significant
/// first.
pub open spec fn packed_value(vals: Seq<u32>, width: nat) -> nat
    decreases vals.len(),
{
    if vals.len() == 0 {
        0
    } else {
        packed_value(vals.drop_last(), width) + vals.last() as nat * pow2(
            ((vals.len() - 1) * width) as nat,
        )
    }
}

/// The number of bytes that `count` values of `width` bits occupy.
pub open spec fn packed_len(count: nat, width: nat) -> nat {
    (count * width + 7) / 8
}

/// The `len` lowest base-256 digits of `value`, least significant first.
pub open spec fn le_bytes(value: nat, len: nat) -> Seq<u8>
    decreases len,
{
    if len == 0 {
        Seq::empty()
    } else {
        seq![(value % 256) as u8] + le_bytes(value / 256, (len - 1) as nat)
    }
}

/// The number whose base-256 digits are `bytes`, least significant first.
pub open spec fn le_value(bytes: Seq<u8>) -> nat
    decreases bytes.len(),
{
    if bytes.len() == 0 {
        0
    } else {
        bytes[0] as nat + 256 * le_value(bytes.skip(1))
    }
}

/// The packed form of `vals` at `width` bits each.
pub open spec fn packed_bytes(vals: Seq<u32>, width: nat) -> Seq<u8> {
    le_bytes(packed_value(vals, width), packed_len(vals.len(), width))
}

/// The `count` values that `bytes` hold at `width` bits each: the
/// base-`2^width` digits of the number whose base-256 digits are `bytes`.
pub open spec fn unpacked(bytes: Seq<u8>, width: nat, count: nat) -> Seq<u32> {
    Seq::new(
        count,
        |i: int| ((le_value(bytes) / pow2((i * width) as nat)) % pow2(width)) as u32,
    )
}

/// `value` is below `2^w` exactly from `w = bit_width(value)` on.
pub proof fn lemma_bit_width(value: nat, width: nat)
    ensures
        value < pow2(width) <==> bit_width(value) <= width,
    decreases value,
{
    lemma2_to64();
    if value == 0 {
        lemma_pow2_pos(width);
    } else if width == 0 {
    } else {
        lemma_pow2_unfold(width);
        lemma_bit_width(value / 2, (width - 1) as nat);
    }
}

/// Every value of `vals` fits in `width` bits exactly from
/// `width = max_bit_width(vals)` on.
pub proof fn lemma_max_bit_width_fits(vals: Seq<u32>, width: nat)
    ensures
        fits(vals, width) <==> max_bit_width(vals) <= width,
    decreases vals.len(),
{
    if vals.len() > 0 {
        let front = vals.drop_last();
        lemma_max_bit_width_fits(front, width);
        lemma_bit_width(vals.last() as nat, width);
        if fits(vals, width) {
            assert forall|i: int| 0 <= i < front.len() implies (#[trigger] front[i] as nat) < pow2(
                width,
            ) by {
                assert(front[i] == vals[i]);
            }
            assert((vals[vals.len() - 1] as nat) < pow2(width));
        }
        if max_bit_width(vals) <= width {
            assert forall|i: int| 0 <= i < vals.len() implies (#[trigger] vals[i] as nat) < pow2(
                width,
            ) by {
                if i < front.len() {
                    assert(front[i] == vals[i]);
                }
            }
        }
    }
}

/// Appending a digit adds it at the next place.
pub proof fn lemma_le_value_push(bytes: Seq<u8>, byte: u8)
    ensures
        le_value(bytes.push(byte)) == le_value(bytes) + byte as nat * pow2(8 * bytes.len()),
    decreases bytes.len(),
{
    lemma2_to64();
    let pushed = bytes.push(byte);
    if bytes.len() == 0 {
        assert(pushed.skip(1) =~= Seq::<u8>::empty());
        assert(le_value(pushed.skip(1)) == 0);
        assert(le_value(pushed) == byte as nat);
        assert(byte as nat * pow2(0) == byte as nat) by (nonlinear_arith)
            requires
                pow2(0) == 1,
        ;
    } else {
        let tail = bytes.skip(1);
        lemma_le_value_push(tail, byte);
        assert(pushed.skip(1) =~= tail.push(byte));
        assert(pushed[0] == bytes[0]);
        lemma_pow2_adds(8, 8 * tail.len());
        assert(8 * bytes.len() == 8 + 8 * tail.len());
        let place = pow2(8 * tail.len());
        assert(pow2(8 * bytes.len()) == 256 * place);
        assert(256 * (byte as nat * place) == byte as nat * (256 * place)) by (nonlinear_arith);
    }
}

/// A byte string is the digits of its own value.
pub proof fn lemma_le_bytes_of_le_value(bytes: Seq<u8>)
    ensures
        le_bytes(le_value(bytes), bytes.len()) == bytes,
    decreases bytes.len(),
{
    if bytes.len() > 0 {
        let tail = bytes.skip(1);
        lemma_le_bytes_of_le_value(tail);
        let value = le_value(bytes);
        assert(value % 256 == bytes[0] as nat && value / 256 == le_value(tail));
        assert(le_bytes(value, bytes.len()) =~= bytes);
    } else {
        assert(le_bytes(le_value(bytes), bytes.len()) =~= bytes);
    }
}

/// The bit width of `value`.
pub fn compute_bit_width(value: u32) -> (width: u8)
    ensures
        width == bit_width(value as nat),
        width <= 32,
{
    let mut rest: u32 = value;
    let mut width: u8 = 0;
    proof {
        lemma2_to64();
    }
    while rest > 0
        invariant
            width <= 32,
            (rest as nat) < pow2((32 - width) as nat),
            bit_width(value as nat) == width + bit_width(rest as nat),
        decreases rest,
    {
        proof {
            lemma2_to64();
            if width < 32 {
                lemma_pow2_unfold((32 - width) as nat);
            }
        }
        rest = rest / 2;
        width = width + 1;
    }
    width
}

/// The least width in which every value of `vals` can be written.
pub fn compute_max_bit_width(vals: &[u32]) -> (width: u8)
    ensures
        width == max_bit_width(vals@),
        width <= 32,
        fits(vals@, width as nat),
{
    let mut width: u8 = 0;
    let mut i: usize = 0;
    assert(vals@.take(0) =~= Seq::<u32>::empty());
    while i < vals.len()
        invariant
            i <= vals.len(),
            width <= 32,
            width == max_bit_width(vals@.take(i as int)),
        decreases vals.len() - i,
    {
        let w = compute_bit_width(vals[i]);
        proof {
            let next = vals@.take(i + 1);
            assert(next.drop_last() =~= vals@.take(i as int));
            assert(next.last() == vals@[i as int]);
        }
        if w > width {
            width = w;
        }
        i = i + 1;
    }
    proof {
        assert(vals@.take(i as int) =~= vals@);
        lemma_max_bit_width_fits(vals@, width as nat);
    }
    width
}

/// Appends the packed form of `vals`, at `width` bits each, to `out`.
pub fn pack(vals: &[u32], width: u8, out: &mut Vec<u8>)
    requires
        width <= 32,
        fits(vals@, width as nat),
    ensures
        final(out)@ == old(out)@ + packed_bytes(vals@, width as nat),
{
    let ghost before = out@;
    let ghost mut emitted: Seq<u8> = Seq::empty();
    let mut pending: u64 = 0;
    let mut pending_bits: u8 = 0;
    let mut i: usize = 0;
    proof {
        lemma2_to64();
        assert(vals@.take(0) =~= Seq::<u32>::empty());
        assert(out@ =~= before + emitted);
    }
    while i < vals.len()
        invariant
            i <= vals.len(),
            width <= 32,
            fits(vals@, width as nat),
            out@ == before + emitted,
            pending_bits < 8,
            (pending as nat) < pow2(pending_bits as nat),
            8 * emitted.len() + pending_bits == i * width,
            packed_value(vals@.take(i as int), width as nat) == le_value(emitted) + pending as nat
                * pow2(8 * emitted.len()),
        decreases vals.len() - i,
    {
        let value: u32 = vals[i];
        let scale: u64 = 1u64 << pending_bits;
        proof {
            lemma2_to64();
            assert(1u64 << pending_bits == pow2(pending_bits as nat)) by {
                assert(pending_bits < 8);
                assert(1u64 << 0u8 == 1u64) by (bit_vector);
                assert(1u64 << 1u8 == 2u64) by (bit_vector);
                assert(1u64 << 2u8 == 4u64) by (bit_vector);
                assert(1u64 << 3u8 == 8u64) by (bit_vector);
                assert(1u64 << 4u8 == 16u64) by (bit_vector);
                assert(1u64 << 5u8 == 32u64) by (bit_vector);
                assert(1u64 << 6u8 == 64u64) by (bit_vector);
                assert(1u64 << 7u8 == 128u64) by (bit_vector);
            }
            assert((value as nat) < pow2(width as nat));
            lemma_pow2_adds(pending_bits as nat, width as nat);
            lemma_pow2_adds(8 * emitted.len(), pending_bits as nat);
            lemma_pow2_strictly_increases((pending_bits + width) as nat, 40);
            let next = vals@.take(i + 1);
            assert(next.drop_last() =~= vals@.take(i as int));
            assert(next.last() == value);
            lemma_pack_step(
                le_value(emitted),
                pending as nat,
                value as nat,
                pow2(pending_bits as nat),
                pow2(width as nat),
                pow2(8 * emitted.len()),
            );
        }
        assert((value as u64) * scale <= 0xFFFF_FFFF * 128) by (nonlinear_arith)
            requires
                value <= 0xFFFF_FFFF,
                scale <= 128,
        ;
        assert((i + 1) * width == i * width + width) by (nonlinear_arith);
        pending = pending + (value as u64) * scale;
        pending_bits = pending_bits + width;
        while pending_bits >= 8
            invariant
                out@ == before + emitted,
                pending_bits < 40,
                (pending as nat) < pow2(pending_bits as nat),
                8 * emitted.len() + pending_bits == (i + 1) * width,
                packed_value(vals@.take(i + 1), width as nat) == le_value(emitted) + pending as nat
                    * pow2(8 * emitted.len()),
            decreases pending_bits,
        {
            let byte: u8 = (pending % 256) as u8;
            proof {
                lemma2_to64();
                lemma_le_value_push(emitted, byte);
                lemma_pow2_adds(8, (pending_bits - 8) as nat);
                lemma_pow2_adds(8, 8 * emitted.len());
                lemma_emit_step(
                    le_value(emitted),
                    pending as nat,
                    pow2(8 * emitted.len()),
                );
                assert(out@.push(byte) =~= before + emitted.push(byte));
                emitted = emitted.push(byte);
            }
            out.push(byte);
            pending = pending / 256;
            pending_bits = pending_bits - 8;
        }
        i = i + 1;
    }
    proof {
        lemma2_to64();
        assert(vals@.take(i as int) =~= vals@);
    }
    if pending_bits > 0 {
        let byte: u8 = pending as u8;
        proof {
            lemma_pow2_strictly_increases(pending_bits as nat, 8);
            lemma_le_value_push(emitted, byte);
            assert(out@.push(byte) =~= before + emitted.push(byte));
            emitted = emitted.push(byte);
        }
        out.push(byte);
    } else {
        assert(pending == 0);
        assert(pending as nat * pow2(8 * emitted.len()) == 0) by (nonlinear_arith)
            requires
                pending == 0,
        ;
    }
    proof {
        assert(emitted.len() == packed_len(vals@.len(), width as nat));
        lemma_le_bytes_of_le_value(emitted);
    }
}

/// Adding a value above the pending bits.
proof fn lemma_pack_step(low: nat, pending: nat, value: nat, shift: nat, span: nat, place: nat)
    by (nonlinear_arith)
    requires
        pending < shift,
        value < span,
    ensures
        low + pending * place + value * (place * shift) == low + (pending + value * shift) * place,
        pending + value * shift < shift * span,
{
}

/// Moving the lowest pending byte to the emitted bytes.
proof fn lemma_emit_step(low: nat, pending: nat, place: nat)
    by (nonlinear_arith)
    ensures
        low + pending * place == low + (pending % 256) * place + (pending / 256) * (256 * place),
{
}

/// `le_bytes` gives as many digits as it is asked for.
pub proof fn lemma_le_bytes_len(value: nat, len: nat)
    ensures
        le_bytes(value, len).len() == len,
    decreases len,
{
    if len > 0 {
        lemma_le_bytes_len(value / 256, (len - 1) as nat);
    }
}

/// The digits of a number that fits in them give the number back.
pub proof fn lemma_le_value_of_le_bytes(value: nat, len: nat)
    requires
        value < pow2(8 * len),
    ensures
        le_value(le_bytes(value, len)) == value,
    decreases len,
{
    lemma2_to64();
    if len > 0 {
        let shorter = (len - 1) as nat;
        let tail = le_bytes(value / 256, shorter);
        lemma_pow2_adds(8, 8 * shorter);
        assert(8 * len == 8 + 8 * shorter);
        lemma_le_value_of_le_bytes(value / 256, shorter);
        let bytes = le_bytes(value, len);
        assert(bytes.skip(1) =~= tail);
        assert(bytes[0] == (value % 256) as u8);
    }
}

/// Values that fit in `width` bits pack into `width` bits each.
pub proof fn lemma_packed_value_bound(vals: Seq<u32>, width: nat)
    requires
        fits(vals, width),
    ensures
        packed_value(vals, width) < pow2(vals.len() * width),
    decreases vals.len(),
{
    lemma2_to64();
    if vals.len() == 0 {
        assert(vals.len() * width == 0) by (nonlinear_arith)
            requires
                vals.len() == 0,
        ;
    } else {
        let front = vals.drop_last();
        assert forall|i: int| 0 <= i < front.len() implies (#[trigger] front[i] as nat) < pow2(
            width,
        ) by {
            assert(front[i] == vals[i]);
        }
        lemma_packed_value_bound(front, width);
        let place = pow2(front.len() * width);
        let last = vals.last() as nat;
        assert(last < pow2(width)) by {
            assert((vals[vals.len() - 1] as nat) < pow2(width));
        }
        lemma_pow2_adds(front.len() * width, width);
        assert(vals.len() * width == front.len() * width + width) by (nonlinear_arith)
            requires
                front.len() == vals.len() - 1,
        ;
        assert(packed_value(front, width) + last * place < place * pow2(width))
            by (nonlinear_arith)
            requires
                packed_value(front, width) < place,
                last < pow2(width),
        ;
    }
}

/// Each value is a digit of the packed number.
pub proof fn lemma_packed_digit(vals: Seq<u32>, width: nat, index: nat)
    requires
        fits(vals, width),
        index < vals.len(),
    ensures
        (packed_value(vals, width) / pow2(index * width)) % pow2(width) == vals[index as int],
    decreases vals.len(),
{
    let front = vals.drop_last();
    let last = vals.last() as nat;
    let span = pow2(width);
    let low = packed_value(front, width);
    let place = pow2(front.len() * width);
    lemma_pow2_pos(width);
    lemma_pow2_pos(index * width);
    assert forall|i: int| 0 <= i < front.len() implies (#[trigger] front[i] as nat) < pow2(
        width,
    ) by {
        assert(front[i] == vals[i]);
    }
    assert(last < span) by {
        assert((vals[vals.len() - 1] as nat) < pow2(width));
    }
    lemma_packed_value_bound(front, width);
    if index == front.len() {
        lemma_fundamental_div_mod_converse(
            packed_value(vals, width) as int,
            place as int,
            last as int,
            low as int,
        );
        lemma_small_mod(last, span);
    } else {
        lemma_packed_digit(front, width, index);
        // The last value lies `above` whole digits over digit `index`.
        let above = (front.len() - index - 1) as nat;
        let divisor = pow2(index * width);
        let upper = pow2(above * width);
        lemma_pow2_adds(index * width, width + above * width);
        lemma_pow2_adds(width, above * width);
        assert(front.len() * width == index * width + (width + above * width))
            by (nonlinear_arith)
            requires
                front.len() == index + above + 1,
        ;
        assert(place == divisor * (span * upper));
        assert(last * place == (last * upper * span) * divisor) by (nonlinear_arith)
            requires
                place == divisor * (span * upper),
        ;
        lemma_hoist_over_denominator(low as int, (last * upper * span) as int, divisor);
        assert(packed_value(vals, width) / divisor == low / divisor + last * upper * span);
        lemma_mod_multiples_vanish(
            (last * upper) as int,
            (low / divisor) as int,
            span as int,
        );
        assert(span * (last * upper) == last * upper * span) by (nonlinear_arith);
    }
}

/// Unpacking what was packed gives the values back.
pub proof fn lemma_unpack_packed(vals: Seq<u32>, width: nat)
    requires
        fits(vals, width),
    ensures
        unpacked(packed_bytes(vals, width), width, vals.len()) == vals,
        packed_bytes(vals, width).len() == packed_len(vals.len(), width),
{
    let value = packed_value(vals, width);
    let len = packed_len(vals.len(), width);
    lemma_le_bytes_len(value, len);
    lemma_packed_value_bound(vals, width);
    if vals.len() * width < 8 * len {
        lemma_pow2_strictly_increases(vals.len() * width, 8 * len);
    }
    lemma_le_value_of_le_bytes(value, len);
    let bytes = packed_bytes(vals, width);
    assert forall|i: int| 0 <= i < vals.len() implies unpacked(bytes, width, vals.len())[i]
        == vals[i] by {
        lemma_packed_digit(vals, width, i as nat);
    }
    assert(unpacked(bytes, width, vals.len()) =~= vals);
}

} // verus!
