use vstd::prelude::*;

use crate::frame_meta::FrameMeta;

verus! {

/// The reference framing grammar for an accessory-link protocol. Two header
/// shapes are recognized, both needing 6 bytes to be told apart:
///
/// - a control frame `[0xff, 0x55, len_hi, len_lo, 0xee, ..]` whose total
///   length is always 6 bytes, its length field notwithstanding;
/// - a data frame `[0xff, 0x5a, len_hi, len_lo, ..]` whose total length is
///   the big-endian 16-bit value of `len_hi, len_lo`, header included.
#[derive(Debug, Default)]
pub struct Iap2FrameMeta {}

impl FrameMeta for Iap2FrameMeta {
    open spec fn spec_header_len() -> usize {
        6
    }

    open spec fn spec_match(data: Seq<u8>) -> bool {
        &&& data.len() >= 6
        &&& {
            ||| (data[0] == 0xff && data[1] == 0x5a)
            ||| (data[0] == 0xff && data[1] == 0x55 && data[4] == 0xee)
        }
    }

    open spec fn spec_total_len(data: Seq<u8>) -> usize {
        if Self::spec_match(data) {
            if data[1] == 0x55 {
                6
            } else {
                ((data[2] as usize) * 256 + (data[3] as usize)) as usize
            }
        } else {
            0
        }
    }

    proof fn lemma_header_len_positive() {
    }

    proof fn lemma_short_slice_no_match(data: Seq<u8>) {
    }

    proof fn lemma_no_match_total_len_zero(data: Seq<u8>) {
    }

    fn frame_header_len() -> (r: usize) {
        6
    }

    fn frame_match(data: &[u8]) -> (r: bool) {
        if data.len() < Self::frame_header_len() {
            return false;
        }
        match (data[0], data[1], data[4]) {
            (0xff, 0x5a, _) => true,
            (0xff, 0x55, 0xee) => true,
            _ => false,
        }
    }

    fn frame_totol_len(data: &[u8]) -> (r: usize) {
        if Self::frame_match(data) {
            match (data[0], data[1]) {
                (0xff, 0x55) => 6,
                (0xff, 0x5a) => (data[2] as usize) * 256 + (data[3] as usize),
                _ => 0,
            }
        } else {
            0
        }
    }
}

} // verus!
