use postings_serializer::bitpacking::{compute_bit_width, compute_max_bit_width, pack};
use postings_serializer::common::{serialize_vint, STOP_BIT};
use postings_serializer::compression::{
    compress_block_sorted, compress_block_unsorted, compress_unsorted, compress_vint_sorted,
    compress_vint_unsorted, compute_deltas, NUM_DOCS_PER_BLOCK,
};

fn vint(value: u64) -> Vec<u8> {
    let mut out = Vec::new();
    let written = serialize_vint(value, &mut out);
    assert_eq!(written, out.len());
    out
}

#[test]
fn vint_of_small_values_is_one_byte_with_the_stop_bit() {
    assert_eq!(STOP_BIT, 128);
    assert_eq!(vint(0), vec![128]);
    assert_eq!(vint(1), vec![129]);
    assert_eq!(vint(127), vec![255]);
}

#[test]
fn vint_splits_into_groups_of_seven_bits() {
    assert_eq!(vint(128), vec![0, 129]);
    assert_eq!(vint(300), vec![44, 130]);
    assert_eq!(vint(16383), vec![127, 255]);
    assert_eq!(vint(16384), vec![0, 0, 129]);
    assert_eq!(vint(u32::MAX as u64), vec![127, 127, 127, 127, 143]);
    assert_eq!(
        vint(u64::MAX),
        vec![127, 127, 127, 127, 127, 127, 127, 127, 127, 129]
    );
}

#[test]
fn vint_appends_and_keeps_what_was_there() {
    let mut out = vec![7, 8];
    assert_eq!(serialize_vint(300, &mut out), 2);
    assert_eq!(serialize_vint(5, &mut out), 1);
    assert_eq!(out, vec![7, 8, 44, 130, 133]);
}

#[test]
fn bit_width_is_the_position_of_the_highest_set_bit() {
    assert_eq!(compute_bit_width(0), 0);
    assert_eq!(compute_bit_width(1), 1);
    assert_eq!(compute_bit_width(2), 2);
    assert_eq!(compute_bit_width(3), 2);
    assert_eq!(compute_bit_width(255), 8);
    assert_eq!(compute_bit_width(256), 9);
    assert_eq!(compute_bit_width(1 << 31), 32);
    assert_eq!(compute_bit_width(u32::MAX), 32);
}

#[test]
fn max_bit_width_is_that_of_the_widest_value() {
    assert_eq!(compute_max_bit_width(&[]), 0);
    assert_eq!(compute_max_bit_width(&[0, 0]), 0);
    assert_eq!(compute_max_bit_width(&[1, 5, 2]), 3);
    assert_eq!(compute_max_bit_width(&[5, 1, 2]), 3);
    assert_eq!(compute_max_bit_width(&[0, u32::MAX, 7]), 32);
}

fn packed(vals: &[u32], width: u8) -> Vec<u8> {
    let mut out = Vec::new();
    pack(vals, width, &mut out);
    out
}

#[test]
fn pack_lays_values_back_to_back_from_the_lowest_bit() {
    assert_eq!(packed(&[1, 2], 2), vec![0b1001]);
    assert_eq!(packed(&[5, 3, 7], 3), vec![0b11_011_101, 0b1]);
    assert_eq!(packed(&[1; 9], 1), vec![255, 1]);
    assert_eq!(packed(&[0x1ff, 0, 0x155], 9), vec![255, 1, 84, 5]);
    assert_eq!(packed(&[8191, 1, 4096, 77], 13), vec![255, 63, 0, 0, 192, 38, 0]);
}

#[test]
fn pack_at_full_width_is_little_endian() {
    assert_eq!(
        packed(&[0xDEAD_BEEF, 1], 32),
        vec![0xEF, 0xBE, 0xAD, 0xDE, 1, 0, 0, 0]
    );
}

#[test]
fn pack_at_width_zero_and_of_nothing_is_empty() {
    assert_eq!(packed(&[0, 0, 0], 0), Vec::<u8>::new());
    assert_eq!(packed(&[], 7), Vec::<u8>::new());
}

#[test]
fn pack_appends_and_keeps_what_was_there() {
    let mut out = vec![42];
    pack(&[1, 2], 2, &mut out);
    assert_eq!(out, vec![42, 9]);
}

#[test]
fn deltas_are_gaps_to_the_previous_value() {
    assert_eq!(compute_deltas(&[10, 20, 35], 7), vec![3, 10, 15]);
    assert_eq!(compute_deltas(&[], 7), Vec::<u32>::new());
    assert_eq!(compute_deltas(&[4, 4], 4), vec![0, 0]);
}

#[test]
fn deltas_of_decreasing_values_wrap_around() {
    assert_eq!(compute_deltas(&[5, 3], 0), vec![5, u32::MAX - 1]);
    assert_eq!(compute_deltas(&[0], 1), vec![u32::MAX]);
}

#[test]
fn block_form_is_width_then_packed_values() {
    let mut out = Vec::new();
    compress_block_unsorted(&[1, 5, 2], &mut out);
    assert_eq!(out, vec![3, 169, 0]);
    let mut zeros = Vec::new();
    compress_block_unsorted(&[0, 0, 0], &mut zeros);
    assert_eq!(zeros, vec![0]);
    let mut none = Vec::new();
    compress_block_unsorted(&[], &mut none);
    assert_eq!(none, vec![0]);
    let mut wide = Vec::new();
    compress_block_unsorted(&[u32::MAX, 0], &mut wide);
    assert_eq!(wide, vec![32, 255, 255, 255, 255, 0, 0, 0, 0]);
}

#[test]
fn sorted_block_form_packs_the_gaps() {
    let mut out = vec![99];
    compress_block_sorted(&[10, 20, 35], 7, &mut out);
    assert_eq!(out, vec![99, 4, 163, 15]);
}

#[test]
fn sorted_block_form_of_unsorted_values_needs_the_full_width() {
    let mut out = Vec::new();
    compress_block_sorted(&[5, 3], 0, &mut out);
    assert_eq!(out, vec![32, 5, 0, 0, 0, 254, 255, 255, 255]);
}

#[test]
fn vint_form_is_one_vint_per_value() {
    let mut out = Vec::new();
    compress_vint_unsorted(&[0, 127, 128, 70000], &mut out);
    assert_eq!(out, vec![128, 255, 0, 129, 112, 34, 132]);
    let mut none = vec![1];
    compress_vint_unsorted(&[], &mut none);
    assert_eq!(none, vec![1]);
}

#[test]
fn sorted_vint_form_writes_the_gaps() {
    let mut out = Vec::new();
    compress_vint_sorted(&[10, 20, 35], 7, &mut out);
    assert_eq!(out, vec![131, 138, 143]);
    let mut wrapped = Vec::new();
    compress_vint_sorted(&[5, 3], 0, &mut wrapped);
    assert_eq!(wrapped, vec![133, 126, 127, 127, 127, 143]);
}

#[test]
fn composite_form_is_blocks_then_a_vint_tail() {
    let mut out = Vec::new();
    compress_unsorted(&[0, 5, 2], 2, &mut out);
    assert_eq!(out, vec![3, 40, 130]);
    let mut even = Vec::new();
    compress_unsorted(&[0, 5, 2, 9], 2, &mut even);
    assert_eq!(even, vec![3, 40, 4, 146]);
    let mut short = Vec::new();
    compress_unsorted(&[3, 4, 5], 5, &mut short);
    assert_eq!(short, vec![131, 132, 133]);
    let mut none = Vec::new();
    compress_unsorted(&[], 2, &mut none);
    assert_eq!(none, Vec::<u8>::new());
}

#[test]
fn composite_form_with_block_length_zero_is_all_vints() {
    let mut out = Vec::new();
    compress_unsorted(&[0, 5, 2], 0, &mut out);
    assert_eq!(out, vec![128, 133, 130]);
}

#[test]
fn default_block_holds_128_documents() {
    assert_eq!(NUM_DOCS_PER_BLOCK, 128);
}
