//! Variable-length integers: seven payload bits per byte, least significant
//! group first. The last byte of an integer, and only the last, has its high
//! bit set.

use vstd::prelude::*;

verus! {

/// Set on the last byte of a variable-length integer.
pub const STOP_BIT: u8 = 128;

/// The encoding of `value`.
pub open spec fn vint_bytes(value: nat) -> Seq<u8>
    decreases value,
{
    if value < 128 {
        seq![(value + 128) as u8]
    } else {
        seq![(value % 128) as u8] + vint_bytes(value / 128)
    }
}

/// Reads one variable-length integer from the front of `bytes`: the value
/// and the number of bytes it occupies, or `None` if `bytes` ends before a
/// byte with the stop bit.
pub open spec fn vint_parse(bytes: Seq<u8>) -> Option<(nat, nat)>
    decreases bytes.len(),
{
    if bytes.len() == 0 {
        None
    } else if bytes[0] >= 128 {
        Some(((bytes[0] - 128) as nat, 1nat))
    } else {
        match vint_parse(bytes.skip(1)) {
            Some((high, used)) => Some((bytes[0] as nat + 128 * high, used + 1)),
            None => None,
        }
    }
}

/// An encoding is never empty, and only its last byte has the stop bit.
pub proof fn lemma_vint_bytes_shape(value: nat)
    ensures
        vint_bytes(value).len() >= 1,
        vint_bytes(value).last() >= 128,
        forall|i: int| 0 <= i < vint_bytes(value).len() - 1 ==> vint_bytes(value)[i] < 128,
    decreases value,
{
    if value >= 128 {
        lemma_vint_bytes_shape(value / 128);
    }
}

/// Parsing an encoding gives the value back, whatever follows it.
pub proof fn lemma_vint_parse_bytes(value: nat, rest: Seq<u8>)
    ensures
        vint_parse(vint_bytes(value) + rest) == Some((value, vint_bytes(value).len())),
    decreases value,
{
    let all = vint_bytes(value) + rest;
    if value < 128 {
        assert(all[0] == vint_bytes(value)[0]);
    } else {
        let tail = vint_bytes(value / 128);
        lemma_vint_parse_bytes(value / 128, rest);
        assert(all[0] == (value % 128) as u8);
        assert(all.skip(1) =~= tail + rest);
    }
}

/// Appends the encoding of `value` to `out` and returns its length in bytes.
pub fn serialize_vint(value: u64, out: &mut Vec<u8>) -> (written: usize)
    ensures
        final(out)@ == old(out)@ + vint_bytes(value as nat),
        written == vint_bytes(value as nat).len(),
{
    let start: usize = out.len();
    let mut remaining: u64 = value;
    while remaining >= 128
        invariant
            out@.len() >= start,
            start == old(out)@.len(),
            out@ + vint_bytes(remaining as nat) == old(out)@ + vint_bytes(value as nat),
        decreases remaining,
    {
        let ghost before = out@;
        out.push((remaining % 128) as u8);
        assert(out@ + vint_bytes((remaining / 128) as nat) =~= before + vint_bytes(
            remaining as nat,
        ));
        remaining = remaining / 128;
    }
    let ghost before = out@;
    out.push(remaining as u8 + STOP_BIT);
    assert(out@ =~= before + vint_bytes(remaining as nat));
    out.len() - start
}

} // verus!
