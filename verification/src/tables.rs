//! The fixed tables of the encoder: the zig-zag permutation, the two base
//! quantization matrices, and the four default Huffman tables (JPEG Annex K)
//! in BITS/HUFFVAL spec form.
use vstd::prelude::*;

verus! {

pub open spec fn zig_zag_spec() -> Seq<u8> {
    seq![
        0, 1, 5, 6, 14, 15, 27, 28,
        2, 4, 7, 13, 16, 26, 29, 42,
        3, 8, 12, 17, 25, 30, 41, 43,
        9, 11, 18, 24, 31, 40, 44, 53,
        10, 19, 23, 32, 39, 45, 52, 54,
        20, 22, 33, 38, 46, 51, 55, 60,
        21, 34, 37, 47, 50, 56, 59, 61,
        35, 36, 48, 49, 57, 58, 62, 63,
    ]
}

/// The zig-zag permutation of the 64 block positions; entry `i` is the
/// position in the zig-zag scan of natural-order position `i`, and 0 is DC.
pub fn zig_zag_table() -> (t: [u8; 64])
    ensures
        t@ == zig_zag_spec(),
        forall|i: int| 0 <= i < 64 ==> t@[i] < 64,
{
    let t: [u8; 64] = [
        0, 1, 5, 6, 14, 15, 27, 28,
        2, 4, 7, 13, 16, 26, 29, 42,
        3, 8, 12, 17, 25, 30, 41, 43,
        9, 11, 18, 24, 31, 40, 44, 53,
        10, 19, 23, 32, 39, 45, 52, 54,
        20, 22, 33, 38, 46, 51, 55, 60,
        21, 34, 37, 47, 50, 56, 59, 61,
        35, 36, 48, 49, 57, 58, 62, 63,
    ];
    proof {
        assert(t@ =~= zig_zag_spec());
        assert(forall|i: int| 0 <= i < 64 ==> zig_zag_spec()[i] < 64);
    }
    t
}

pub open spec fn qt_luma_base_spec() -> Seq<u8> {
    seq![
        16, 11, 10, 16, 24, 40, 51, 61,
        12, 12, 14, 19, 26, 58, 60, 55,
        14, 13, 16, 24, 40, 57, 69, 56,
        14, 17, 22, 29, 51, 87, 80, 62,
        18, 22, 37, 56, 68, 109, 103, 77,
        24, 35, 55, 64, 81, 104, 113, 92,
        49, 64, 78, 87, 103, 121, 120, 101,
        72, 92, 95, 98, 112, 100, 103, 99,
    ]
}

/// The luma base quantization matrix (JPEG Annex K, table K.1).
pub fn qt_luma_base() -> (t: [u8; 64])
    ensures
        t@ == qt_luma_base_spec(),
        forall|i: int| 0 <= i < 64 ==> 10 <= #[trigger] t@[i] && t@[i] <= 121,
{
    let t: [u8; 64] = [
        16, 11, 10, 16, 24, 40, 51, 61,
        12, 12, 14, 19, 26, 58, 60, 55,
        14, 13, 16, 24, 40, 57, 69, 56,
        14, 17, 22, 29, 51, 87, 80, 62,
        18, 22, 37, 56, 68, 109, 103, 77,
        24, 35, 55, 64, 81, 104, 113, 92,
        49, 64, 78, 87, 103, 121, 120, 101,
        72, 92, 95, 98, 112, 100, 103, 99,
    ];
    proof {
        assert(t@ =~= qt_luma_base_spec());
        assert(forall|i: int| 0 <= i < 64 ==> 10 <= #[trigger] qt_luma_base_spec()[i] && qt_luma_base_spec()[i] <= 121);
    }
    t
}

pub open spec fn qt_chroma_base_spec() -> Seq<u8> {
    seq![
        16, 12, 14, 14, 18, 24, 49, 72,
        11, 10, 16, 24, 40, 51, 61, 12,
        13, 17, 22, 35, 64, 92, 14, 16,
        22, 37, 55, 78, 95, 19, 24, 29,
        56, 64, 87, 98, 26, 40, 51, 68,
        81, 103, 112, 58, 57, 87, 109, 104,
        121, 100, 60, 69, 80, 103, 113, 120,
        103, 55, 56, 62, 77, 92, 101, 99,
    ]
}

/// The chroma base quantization matrix. The quantizer reads every table
/// in zig-zag order and the DQT segment carries the same bytes, so the
/// encoder and any decoder agree on each coefficient's divisor.
pub fn qt_chroma_base() -> (t: [u8; 64])
    ensures
        t@ == qt_chroma_base_spec(),
        forall|i: int| 0 <= i < 64 ==> 10 <= #[trigger] t@[i] && t@[i] <= 121,
{
    let t: [u8; 64] = [
        16, 12, 14, 14, 18, 24, 49, 72,
        11, 10, 16, 24, 40, 51, 61, 12,
        13, 17, 22, 35, 64, 92, 14, 16,
        22, 37, 55, 78, 95, 19, 24, 29,
        56, 64, 87, 98, 26, 40, 51, 68,
        81, 103, 112, 58, 57, 87, 109, 104,
        121, 100, 60, 69, 80, 103, 113, 120,
        103, 55, 56, 62, 77, 92, 101, 99,
    ];
    proof {
        assert(t@ =~= qt_chroma_base_spec());
        assert(forall|i: int| 0 <= i < 64 ==> 10 <= #[trigger] qt_chroma_base_spec()[i] && qt_chroma_base_spec()[i] <= 121);
    }
    t
}

pub open spec fn ht_luma_dc_bits_spec() -> Seq<u8> {
    seq![0, 1, 5, 1, 1, 1, 1, 1, 1, 0, 0, 0, 0, 0, 0, 0]
}

pub open spec fn ht_luma_ac_bits_spec() -> Seq<u8> {
    seq![0, 2, 1, 3, 3, 2, 4, 3, 5, 5, 4, 4, 0, 0, 1, 0x7d]
}

pub open spec fn ht_chroma_dc_bits_spec() -> Seq<u8> {
    seq![0, 3, 1, 1, 1, 1, 1, 1, 1, 1, 1, 0, 0, 0, 0, 0]
}

pub open spec fn ht_chroma_ac_bits_spec() -> Seq<u8> {
    seq![0, 2, 1, 2, 4, 4, 3, 4, 7, 5, 4, 4, 0, 1, 2, 0x77]
}

/// The number of codes a BITS array declares: the sum of its 16 counts.
pub open spec fn sum_bits(bits: Seq<u8>) -> int
    recommends
        bits.len() == 16,
{
    bits[0] + bits[1] + bits[2] + bits[3] + bits[4] + bits[5] + bits[6] + bits[7] + bits[8]
        + bits[9] + bits[10] + bits[11] + bits[12] + bits[13] + bits[14] + bits[15]
}

/// The Kraft sum of a BITS array, scaled by 2^16: each code of length L
/// contributes 2^(16 - L).
pub open spec fn kraft_sum(bits: Seq<u8>) -> int
    recommends
        bits.len() == 16,
{
    bits[0] * 32768 + bits[1] * 16384 + bits[2] * 8192 + bits[3] * 4096 + bits[4] * 2048
        + bits[5] * 1024 + bits[6] * 512 + bits[7] * 256 + bits[8] * 128 + bits[9] * 64
        + bits[10] * 32 + bits[11] * 16 + bits[12] * 8 + bits[13] * 4 + bits[14] * 2 + bits[15] * 1
}

/// Each default Huffman table satisfies the Kraft inequality
/// `sum over codes of 2^(16 - length) <= 2^16`, so its code lengths
/// describe a prefix code. None of the four sums reaches 2^16 exactly:
/// the default tables are not complete codes (the DC tables fall short by
/// 128 and 32, the AC tables by 1).
pub proof fn lemma_default_tables_kraft()
    ensures
        kraft_sum(ht_luma_dc_bits_spec()) == 65408,
        kraft_sum(ht_chroma_dc_bits_spec()) == 65504,
        kraft_sum(ht_luma_ac_bits_spec()) == 65535,
        kraft_sum(ht_chroma_ac_bits_spec()) == 65535,
        kraft_sum(ht_luma_dc_bits_spec()) <= 65536,
        kraft_sum(ht_chroma_dc_bits_spec()) <= 65536,
        kraft_sum(ht_luma_ac_bits_spec()) <= 65536,
        kraft_sum(ht_chroma_ac_bits_spec()) <= 65536,
{
}

pub fn ht_luma_dc_bits() -> (t: [u8; 16])
    ensures
        t@ == ht_luma_dc_bits_spec(),
        sum_bits(t@) == 12,
        kraft_sum(t@) <= 65536,
{
    let t: [u8; 16] = [0, 1, 5, 1, 1, 1, 1, 1, 1, 0, 0, 0, 0, 0, 0, 0];
    proof {
        assert(t@ =~= ht_luma_dc_bits_spec());
    }
    t
}

pub fn ht_luma_ac_bits() -> (t: [u8; 16])
    ensures
        t@ == ht_luma_ac_bits_spec(),
        sum_bits(t@) == 162,
        kraft_sum(t@) <= 65536,
{
    let t: [u8; 16] = [0, 2, 1, 3, 3, 2, 4, 3, 5, 5, 4, 4, 0, 0, 1, 0x7d];
    proof {
        assert(t@ =~= ht_luma_ac_bits_spec());
    }
    t
}

pub fn ht_chroma_dc_bits() -> (t: [u8; 16])
    ensures
        t@ == ht_chroma_dc_bits_spec(),
        sum_bits(t@) == 12,
        kraft_sum(t@) <= 65536,
{
    let t: [u8; 16] = [0, 3, 1, 1, 1, 1, 1, 1, 1, 1, 1, 0, 0, 0, 0, 0];
    proof {
        assert(t@ =~= ht_chroma_dc_bits_spec());
    }
    t
}

pub fn ht_chroma_ac_bits() -> (t: [u8; 16])
    ensures
        t@ == ht_chroma_ac_bits_spec(),
        sum_bits(t@) == 162,
        kraft_sum(t@) <= 65536,
{
    let t: [u8; 16] = [0, 2, 1, 2, 4, 4, 3, 4, 7, 5, 4, 4, 0, 1, 2, 0x77];
    proof {
        assert(t@ =~= ht_chroma_ac_bits_spec());
    }
    t
}

pub open spec fn ht_dc_vals_spec() -> Seq<u8> {
    seq![0, 1, 2, 3, 4, 5, 6, 7, 8, 9, 10, 11]
}

/// The DC HUFFVAL list shared by the luma and chroma DC tables: the twelve
/// magnitude categories in order.
pub fn ht_dc_vals() -> (v: Vec<u8>)
    ensures
        v@ == ht_dc_vals_spec(),
        v@.len() == 12,
{
    let v: Vec<u8> = vec![0, 1, 2, 3, 4, 5, 6, 7, 8, 9, 10, 11];
    proof {
        assert(v@ =~= ht_dc_vals_spec());
    }
    v
}

pub open spec fn ht_luma_ac_vals_spec() -> Seq<u8> {
    seq![
        0x01, 0x02, 0x03, 0x00, 0x04, 0x11, 0x05, 0x12, 0x21, 0x31, 0x41, 0x06, 0x13, 0x51, 0x61,
        0x07, 0x22, 0x71, 0x14, 0x32, 0x81, 0x91, 0xA1, 0x08, 0x23, 0x42, 0xB1, 0xC1, 0x15, 0x52,
        0xD1, 0xF0, 0x24, 0x33, 0x62, 0x72, 0x82, 0x09, 0x0A, 0x16, 0x17, 0x18, 0x19, 0x1A, 0x25,
        0x26, 0x27, 0x28, 0x29, 0x2A, 0x34, 0x35, 0x36, 0x37, 0x38, 0x39, 0x3A, 0x43, 0x44, 0x45,
        0x46, 0x47, 0x48, 0x49, 0x4A, 0x53, 0x54, 0x55, 0x56, 0x57, 0x58, 0x59, 0x5A, 0x63, 0x64,
        0x65, 0x66, 0x67, 0x68, 0x69, 0x6A, 0x73, 0x74, 0x75, 0x76, 0x77, 0x78, 0x79, 0x7A, 0x83,
        0x84, 0x85, 0x86, 0x87, 0x88, 0x89, 0x8A, 0x92, 0x93, 0x94, 0x95, 0x96, 0x97, 0x98, 0x99,
        0x9A, 0xA2, 0xA3, 0xA4, 0xA5, 0xA6, 0xA7, 0xA8, 0xA9, 0xAA, 0xB2, 0xB3, 0xB4, 0xB5, 0xB6,
        0xB7, 0xB8, 0xB9, 0xBA, 0xC2, 0xC3, 0xC4, 0xC5, 0xC6, 0xC7, 0xC8, 0xC9, 0xCA, 0xD2, 0xD3,
        0xD4, 0xD5, 0xD6, 0xD7, 0xD8, 0xD9, 0xDA, 0xE1, 0xE2, 0xE3, 0xE4, 0xE5, 0xE6, 0xE7, 0xE8,
        0xE9, 0xEA, 0xF1, 0xF2, 0xF3, 0xF4, 0xF5, 0xF6, 0xF7, 0xF8, 0xF9, 0xFA,
    ]
}

/// The luma AC HUFFVAL list (162 run/size symbols).
pub fn ht_luma_ac_vals() -> (v: Vec<u8>)
    ensures
        v@ == ht_luma_ac_vals_spec(),
        v@.len() == 162,
{
    let v: Vec<u8> = vec![
        0x01, 0x02, 0x03, 0x00, 0x04, 0x11, 0x05, 0x12, 0x21, 0x31, 0x41, 0x06, 0x13, 0x51, 0x61,
        0x07, 0x22, 0x71, 0x14, 0x32, 0x81, 0x91, 0xA1, 0x08, 0x23, 0x42, 0xB1, 0xC1, 0x15, 0x52,
        0xD1, 0xF0, 0x24, 0x33, 0x62, 0x72, 0x82, 0x09, 0x0A, 0x16, 0x17, 0x18, 0x19, 0x1A, 0x25,
        0x26, 0x27, 0x28, 0x29, 0x2A, 0x34, 0x35, 0x36, 0x37, 0x38, 0x39, 0x3A, 0x43, 0x44, 0x45,
        0x46, 0x47, 0x48, 0x49, 0x4A, 0x53, 0x54, 0x55, 0x56, 0x57, 0x58, 0x59, 0x5A, 0x63, 0x64,
        0x65, 0x66, 0x67, 0x68, 0x69, 0x6A, 0x73, 0x74, 0x75, 0x76, 0x77, 0x78, 0x79, 0x7A, 0x83,
        0x84, 0x85, 0x86, 0x87, 0x88, 0x89, 0x8A, 0x92, 0x93, 0x94, 0x95, 0x96, 0x97, 0x98, 0x99,
        0x9A, 0xA2, 0xA3, 0xA4, 0xA5, 0xA6, 0xA7, 0xA8, 0xA9, 0xAA, 0xB2, 0xB3, 0xB4, 0xB5, 0xB6,
        0xB7, 0xB8, 0xB9, 0xBA, 0xC2, 0xC3, 0xC4, 0xC5, 0xC6, 0xC7, 0xC8, 0xC9, 0xCA, 0xD2, 0xD3,
        0xD4, 0xD5, 0xD6, 0xD7, 0xD8, 0xD9, 0xDA, 0xE1, 0xE2, 0xE3, 0xE4, 0xE5, 0xE6, 0xE7, 0xE8,
        0xE9, 0xEA, 0xF1, 0xF2, 0xF3, 0xF4, 0xF5, 0xF6, 0xF7, 0xF8, 0xF9, 0xFA,
    ];
    proof {
        assert(v@ =~= ht_luma_ac_vals_spec());
    }
    v
}

pub open spec fn ht_chroma_ac_vals_spec() -> Seq<u8> {
    seq![
        0x00, 0x01, 0x02, 0x03, 0x11, 0x04, 0x05, 0x21, 0x31, 0x06, 0x12, 0x41, 0x51, 0x07, 0x61,
        0x71, 0x13, 0x22, 0x32, 0x81, 0x08, 0x14, 0x42, 0x91, 0xA1, 0xB1, 0xC1, 0x09, 0x23, 0x33,
        0x52, 0xF0, 0x15, 0x62, 0x72, 0xD1, 0x0A, 0x16, 0x24, 0x34, 0xE1, 0x25, 0xF1, 0x17, 0x18,
        0x19, 0x1A, 0x26, 0x27, 0x28, 0x29, 0x2A, 0x35, 0x36, 0x37, 0x38, 0x39, 0x3A, 0x43, 0x44,
        0x45, 0x46, 0x47, 0x48, 0x49, 0x4A, 0x53, 0x54, 0x55, 0x56, 0x57, 0x58, 0x59, 0x5A, 0x63,
        0x64, 0x65, 0x66, 0x67, 0x68, 0x69, 0x6A, 0x73, 0x74, 0x75, 0x76, 0x77, 0x78, 0x79, 0x7A,
        0x82, 0x83, 0x84, 0x85, 0x86, 0x87, 0x88, 0x89, 0x8A, 0x92, 0x93, 0x94, 0x95, 0x96, 0x97,
        0x98, 0x99, 0x9A, 0xA2, 0xA3, 0xA4, 0xA5, 0xA6, 0xA7, 0xA8, 0xA9, 0xAA, 0xB2, 0xB3, 0xB4,
        0xB5, 0xB6, 0xB7, 0xB8, 0xB9, 0xBA, 0xC2, 0xC3, 0xC4, 0xC5, 0xC6, 0xC7, 0xC8, 0xC9, 0xCA,
        0xD2, 0xD3, 0xD4, 0xD5, 0xD6, 0xD7, 0xD8, 0xD9, 0xDA, 0xE2, 0xE3, 0xE4, 0xE5, 0xE6, 0xE7,
        0xE8, 0xE9, 0xEA, 0xF2, 0xF3, 0xF4, 0xF5, 0xF6, 0xF7, 0xF8, 0xF9, 0xFA,
    ]
}

/// The chroma AC HUFFVAL list (162 run/size symbols).
pub fn ht_chroma_ac_vals() -> (v: Vec<u8>)
    ensures
        v@ == ht_chroma_ac_vals_spec(),
        v@.len() == 162,
{
    let v: Vec<u8> = vec![
        0x00, 0x01, 0x02, 0x03, 0x11, 0x04, 0x05, 0x21, 0x31, 0x06, 0x12, 0x41, 0x51, 0x07, 0x61,
        0x71, 0x13, 0x22, 0x32, 0x81, 0x08, 0x14, 0x42, 0x91, 0xA1, 0xB1, 0xC1, 0x09, 0x23, 0x33,
        0x52, 0xF0, 0x15, 0x62, 0x72, 0xD1, 0x0A, 0x16, 0x24, 0x34, 0xE1, 0x25, 0xF1, 0x17, 0x18,
        0x19, 0x1A, 0x26, 0x27, 0x28, 0x29, 0x2A, 0x35, 0x36, 0x37, 0x38, 0x39, 0x3A, 0x43, 0x44,
        0x45, 0x46, 0x47, 0x48, 0x49, 0x4A, 0x53, 0x54, 0x55, 0x56, 0x57, 0x58, 0x59, 0x5A, 0x63,
        0x64, 0x65, 0x66, 0x67, 0x68, 0x69, 0x6A, 0x73, 0x74, 0x75, 0x76, 0x77, 0x78, 0x79, 0x7A,
        0x82, 0x83, 0x84, 0x85, 0x86, 0x87, 0x88, 0x89, 0x8A, 0x92, 0x93, 0x94, 0x95, 0x96, 0x97,
        0x98, 0x99, 0x9A, 0xA2, 0xA3, 0xA4, 0xA5, 0xA6, 0xA7, 0xA8, 0xA9, 0xAA, 0xB2, 0xB3, 0xB4,
        0xB5, 0xB6, 0xB7, 0xB8, 0xB9, 0xBA, 0xC2, 0xC3, 0xC4, 0xC5, 0xC6, 0xC7, 0xC8, 0xC9, 0xCA,
        0xD2, 0xD3, 0xD4, 0xD5, 0xD6, 0xD7, 0xD8, 0xD9, 0xDA, 0xE2, 0xE3, 0xE4, 0xE5, 0xE6, 0xE7,
        0xE8, 0xE9, 0xEA, 0xF2, 0xF3, 0xF4, 0xF5, 0xF6, 0xF7, 0xF8, 0xF9, 0xFA,
    ];
    proof {
        assert(v@ =~= ht_chroma_ac_vals_spec());
    }
    v
}

} // verus!
