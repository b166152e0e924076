//! The encode pipeline: color conversion, coefficient coding, segment
//! markers and the frame driver.
use vstd::prelude::*;
use vstd::arithmetic::power2::pow2;
use vstd::arithmetic::power2::lemma_pow2_unfold;
use vstd::arithmetic::power2::lemma_pow2_pos;
use vstd::arithmetic::power2::lemma2_to64;
use crate::dct::floor_div_i64;
use crate::dct::quant1;
use crate::dct::dct2d_at;
use crate::dct::fdct;
use crate::dct::quantize_block;
use crate::bitwriter::BitWriter;
use crate::bitwriter::stuff;
use crate::bitwriter::push_bits_s;
use crate::dct::inv_zig_zag_spec;
use crate::huffman::HuffTable;
use crate::tables::sum_bits;

verus! {

/// Luma of an RGB sample, centered and carried with 4 fractional bits:
/// 16 * (0.299 R + 0.587 G + 0.114 B - 128), the weights rounded to
/// sixteen fractional bits.
pub open spec fn ycc_y(r: int, g: int, b: int) -> int {
    (19595 * r + 38470 * g + 7471 * b + 2048) / 4096 - 2048
}

/// Blue-difference chroma, scale 16: 16 * (-0.1687 R - 0.3313 G + 0.5 B).
pub open spec fn ycc_cb(r: int, g: int, b: int) -> int {
    (-11056 * r - 21712 * g + 32768 * b + 2048) / 4096
}

/// Red-difference chroma, scale 16: 16 * (0.5 R - 0.4187 G - 0.0813 B).
pub open spec fn ycc_cr(r: int, g: int, b: int) -> int {
    (32768 * r - 27440 * g - 5328 * b + 2048) / 4096
}

/// RGB to centered YCbCr, fixed point with 4 fractional bits.
pub fn rgb_to_ycc(r: u8, g: u8, b: u8) -> (c: (i32, i32, i32))
    ensures
        c.0 == ycc_y(r as int, g as int, b as int),
        c.1 == ycc_cb(r as int, g as int, b as int),
        c.2 == ycc_cr(r as int, g as int, b as int),
        -2048 <= c.0 <= 2048,
        -2048 <= c.1 <= 2048,
        -2048 <= c.2 <= 2048,
{
    let ri = r as i64;
    let gi = g as i64;
    let bi = b as i64;
    let ynum = 19595 * ri + 38470 * gi + 7471 * bi + 2048;
    let cbnum = 32768 * bi + 2048 - 11056 * ri - 21712 * gi;
    let crnum = 32768 * ri + 2048 - 27440 * gi - 5328 * bi;
    let yq = floor_div_i64(ynum, 4096);
    let cbq = floor_div_i64(cbnum, 4096);
    let crq = floor_div_i64(crnum, 4096);
    proof {
        crate::dct::lemma_div_bound(ynum as int, 4096, 4081);
        crate::dct::lemma_div_bound(cbnum as int, 4096, 2048);
        crate::dct::lemma_div_bound(crnum as int, 4096, 2048);
        vstd::arithmetic::div_mod::lemma_div_pos_is_pos(ynum as int, 4096);
    }
    ((yq - 2048) as i32, cbq as i32, crq as i32)
}

/// The number of binary digits of `x`, counting 0 as one digit.
pub open spec fn bitlen(x: nat) -> nat
    decreases x,
{
    if x <= 1 {
        1
    } else {
        1 + bitlen(x / 2)
    }
}

proof fn lemma_bitlen_le(x: nat, n: nat)
    requires
        1 <= n,
        x < pow2(n),
    ensures
        bitlen(x) <= n,
    decreases n,
{
    lemma2_to64();
    if x > 1 {
        lemma_pow2_unfold(n);
        assert(n >= 2);
        lemma_bitlen_le(x / 2, (n - 1) as nat);
    }
}

proof fn lemma_bitlen_bound(x: nat)
    requires
        1 <= x,
    ensures
        x < pow2(bitlen(x)),
        bitlen(x) >= 1,
    decreases x,
{
    if x <= 1 {
        lemma2_to64();
    } else {
        lemma_bitlen_bound(x / 2);
        lemma_pow2_unfold(bitlen(x));
    }
}

/// The magnitude category of a nonzero coefficient: the bit width of |v|.
pub open spec fn vli_len(v: int) -> nat {
    bitlen((if v >= 0 {
        v
    } else {
        -v
    }) as nat)
}

/// The appended raw bits of a nonzero coefficient: `v` itself when
/// positive, else `v - 1` in `vli_len(v)`-bit two's complement.
pub open spec fn vli_bits(v: int) -> int {
    if v >= 0 {
        v
    } else {
        v - 1 + pow2(vli_len(v))
    }
}

/// Maps a nonzero coefficient to its (raw bits, bit count) pair.
pub fn calculate_variable_length_int(val: i32) -> (r: (u16, u16))
    requires
        val != 0,
        -4094 <= val <= 4094,
    ensures
        r.1 == vli_len(val as int),
        1 <= r.1 <= 12,
        r.0 == vli_bits(val as int),
        (r.0 as nat) < pow2(r.1 as nat),
{
    let abs0: u32 = if val < 0 {
        (-val) as u32
    } else {
        val as u32
    };
    let mut abs_val: u32 = abs0;
    let mut num_bits: u16 = 1;
    proof {
        lemma2_to64();
        lemma_bitlen_le(abs0 as nat, 12);
    }
    while abs_val > 1
        invariant
            1 <= abs0 <= 4094,
            1 <= num_bits <= 12,
            bitlen(abs0 as nat) <= 12,
            bitlen(abs0 as nat) == (num_bits - 1) + bitlen(abs_val as nat),
        decreases abs_val,
    {
        abs_val = abs_val / 2;
        proof {
            assert(bitlen(abs_val as nat) >= 1);
        }
        num_bits = num_bits + 1;
    }
    proof {
        lemma_bitlen_bound(abs0 as nat);
        lemma2_to64();
        lemma_bitlen_le(abs0 as nat, 12);
        assert(pow2(num_bits as nat) >= 1) by {
            lemma_pow2_pos(num_bits as nat);
        }
    }
    let bits: u16 = if val >= 0 {
        val as u16
    } else {
        let p = crate::bitwriter::pow2_u32(num_bits);
        ((val - 1 + p as i32)) as u16
    };
    (bits, num_bits)
}

/// Two big-endian bytes of a 16-bit value.
pub open spec fn be16(v: int) -> Seq<u8> {
    seq![(v / 256) as u8, (v % 256) as u8]
}

/// Appends a 16-bit value big-endian.
pub fn push_u16_be(out: &mut Vec<u8>, v: u16)
    ensures
        final(out)@ == old(out)@ + be16(v as int),
{
    out.push((v / 256) as u8);
    out.push((v % 256) as u8);
    proof {
        assert(out@ =~= old(out)@ + be16(v as int));
    }
}

/// Appends the bytes of a fixed-size array.
fn push_all<const N: usize>(out: &mut Vec<u8>, a: &[u8; N])
    ensures
        final(out)@ == old(out)@ + a@,
{
    let mut i: usize = 0;
    while i < N
        invariant
            i <= N,
            a@.len() == N,
            out@ == old(out)@ + a@.take(i as int),
        decreases N - i,
    {
        out.push(a[i]);
        i = i + 1;
        proof {
            assert(out@ =~= old(out)@ + a@.take(i as int));
        }
    }
    proof {
        assert(a@.take(N as int) =~= a@);
    }
}

/// The DQT segment: marker, length 67, table id, 64 table bytes.
pub open spec fn dqt_spec(id: u8, qt: Seq<u8>) -> Seq<u8> {
    seq![0xffu8, 0xdbu8, 0x00u8, 0x43u8, id] + qt
}

/// Appends a quantization-table segment.
pub fn append_dqt(out: &mut Vec<u8>, matrix: &[u8; 64], id: u8)
    requires
        id < 4,
    ensures
        final(out)@ == old(out)@ + dqt_spec(id, matrix@),
{
    push_u16_be(out, 0xffdb);
    push_u16_be(out, 0x0043);
    out.push(id);
    push_all(out, matrix);
    proof {
        assert(out@ =~= old(out)@ + dqt_spec(id, matrix@));
    }
}

/// The DHT segment: marker, declared length `19 + n` for `n` symbol
/// values, the class/destination byte, 16 BITS bytes, the HUFFVAL bytes.
pub open spec fn dht_spec(ht_class: u8, id: u8, bits: Seq<u8>, vals: Seq<u8>) -> Seq<u8> {
    seq![0xffu8, 0xc4u8] + be16(19 + vals.len() as int) + seq![(ht_class * 16 + id) as u8] + bits + vals
}

/// The declared length field of a DHT segment equals `2 + 1 + 16 + n`
/// where `n` is the number of symbols, and when the HUFFVAL list carries
/// exactly the number of codes its BITS array announces, that is
/// `19 + sum of BITS`.
pub proof fn lemma_dht_declared_length(ht_class: u8, id: u8, bits: Seq<u8>, vals: Seq<u8>)
    requires
        bits.len() == 16,
        vals.len() == sum_bits(bits),
        vals.len() <= 256,
    ensures
        dht_spec(ht_class, id, bits, vals).len() == 2 + (19 + sum_bits(bits)),
        dht_spec(ht_class, id, bits, vals)[2] == ((19 + sum_bits(bits)) / 256) as u8,
        dht_spec(ht_class, id, bits, vals)[3] == ((19 + sum_bits(bits)) % 256) as u8,
{
}

/// Each DHT segment the encoder emits declares the length `19 + n` where
/// `n` is the sum of its BITS array: 31 for the DC tables, 181 for the AC
/// tables.
pub proof fn lemma_default_dht_lengths()
    ensures
        dht_spec(0, 0, crate::tables::ht_luma_dc_bits_spec(), crate::tables::ht_dc_vals_spec())[3]
            == 31,
        dht_spec(1, 0, crate::tables::ht_luma_ac_bits_spec(), crate::tables::ht_luma_ac_vals_spec())[3]
            == 181,
        dht_spec(0, 1, crate::tables::ht_chroma_dc_bits_spec(), crate::tables::ht_dc_vals_spec())[3]
            == 31,
        dht_spec(
            1,
            1,
            crate::tables::ht_chroma_ac_bits_spec(),
            crate::tables::ht_chroma_ac_vals_spec(),
        )[3] == 181,
        31 == 19 + sum_bits(crate::tables::ht_luma_dc_bits_spec()),
        181 == 19 + sum_bits(crate::tables::ht_luma_ac_bits_spec()),
        31 == 19 + sum_bits(crate::tables::ht_chroma_dc_bits_spec()),
        181 == 19 + sum_bits(crate::tables::ht_chroma_ac_bits_spec()),
{
    lemma_dht_declared_length(0, 0, crate::tables::ht_luma_dc_bits_spec(), crate::tables::ht_dc_vals_spec());
    lemma_dht_declared_length(1, 0, crate::tables::ht_luma_ac_bits_spec(), crate::tables::ht_luma_ac_vals_spec());
    lemma_dht_declared_length(0, 1, crate::tables::ht_chroma_dc_bits_spec(), crate::tables::ht_dc_vals_spec());
    lemma_dht_declared_length(
        1,
        1,
        crate::tables::ht_chroma_ac_bits_spec(),
        crate::tables::ht_chroma_ac_vals_spec(),
    );
}

/// Appends a Huffman-table segment.
pub fn append_dht(out: &mut Vec<u8>, matrix_len: &[u8; 16], matrix_val: &Vec<u8>, ht_class: u8, id: u8)
    requires
        ht_class < 2,
        id < 4,
        matrix_val@.len() <= 256,
    ensures
        final(out)@ == old(out)@ + dht_spec(ht_class, id, matrix_len@, matrix_val@),
{
    push_u16_be(out, 0xffc4);
    let len: u16 = 2 + 1 + 16 + (matrix_val.len() as u16);
    push_u16_be(out, len);
    let tc_th: u8 = ht_class * 16 + id;
    out.push(tc_th);
    push_all(out, matrix_len);
    let mut i: usize = 0;
    let ghost mid = out@;
    while i < matrix_val.len()
        invariant
            i <= matrix_val@.len(),
            out@ == mid + matrix_val@.take(i as int),
        decreases matrix_val@.len() - i,
    {
        out.push(matrix_val[i]);
        i = i + 1;
        proof {
            assert(out@ =~= mid + matrix_val@.take(i as int));
        }
    }
    proof {
        assert(matrix_val@.take(matrix_val@.len() as int) =~= matrix_val@);
        assert(out@ =~= old(out)@ + dht_spec(ht_class, id, matrix_len@, matrix_val@));
    }
}

/// The fixed leading segments: SOI, APP0/JFIF at 96 dpi, and the comment.
pub open spec fn soi_app0_com_spec() -> Seq<u8> {
    seq![
        0xffu8, 0xd8u8,
        0xffu8, 0xe0u8, 0x00u8, 0x10u8,
        0x4au8, 0x46u8, 0x49u8, 0x46u8, 0x00u8,
        0x01u8, 0x02u8,
        0x01u8, 0x00u8, 0x60u8, 0x00u8, 0x60u8, 0x00u8, 0x00u8,
        0xffu8, 0xfeu8, 0x00u8, 0x1eu8,
        0x43u8, 0x72u8, 0x65u8, 0x61u8, 0x74u8, 0x65u8, 0x64u8, 0x20u8,
        0x62u8, 0x79u8, 0x20u8,
        0x54u8, 0x69u8, 0x6eu8, 0x79u8, 0x20u8,
        0x4au8, 0x50u8, 0x45u8, 0x47u8, 0x20u8,
        0x45u8, 0x6eu8, 0x63u8, 0x6fu8, 0x64u8, 0x65u8, 0x72u8,
    ]
}

/// The SOF0 segment for a 3-component 8-bit 4:4:4 frame of the given size.
pub open spec fn sof0_spec(w: int, h: int) -> Seq<u8> {
    seq![0xffu8, 0xc0u8, 0x00u8, 0x11u8, 0x08u8] + be16(h) + be16(w) + seq![
        0x03u8,
        0x01u8, 0x11u8, 0x00u8,
        0x02u8, 0x11u8, 0x01u8,
        0x03u8, 0x11u8, 0x01u8,
    ]
}

/// The SOS segment: three components, luma tables 0, chroma tables 1,
/// full spectral range.
pub open spec fn sos_spec() -> Seq<u8> {
    seq![
        0xffu8, 0xdau8, 0x00u8, 0x0cu8, 0x03u8,
        0x01u8, 0x00u8,
        0x02u8, 0x11u8,
        0x03u8, 0x11u8,
        0x00u8, 0x3fu8, 0x00u8,
    ]
}

/// Everything before the entropy-coded data: SOI, APP0, COM, both DQT
/// segments, SOF0, the four DHT segments and SOS.
pub open spec fn header_spec(w: int, h: int, qt_luma: Seq<u8>, qt_chroma: Seq<u8>) -> Seq<u8> {
    soi_app0_com_spec() + dqt_spec(0, qt_luma) + dqt_spec(1, qt_chroma) + sof0_spec(w, h)
        + dht_spec(0, 0, crate::tables::ht_luma_dc_bits_spec(), crate::tables::ht_dc_vals_spec())
        + dht_spec(1, 0, crate::tables::ht_luma_ac_bits_spec(), crate::tables::ht_luma_ac_vals_spec())
        + dht_spec(0, 1, crate::tables::ht_chroma_dc_bits_spec(), crate::tables::ht_dc_vals_spec())
        + dht_spec(
        1,
        1,
        crate::tables::ht_chroma_ac_bits_spec(),
        crate::tables::ht_chroma_ac_vals_spec(),
    ) + sos_spec()
}

/// Writes all segments up to and including SOS.
#[verifier::rlimit(100)]
pub fn write_header(w: u16, h: u16, qt_luma: &[u8; 64], qt_chroma: &[u8; 64]) -> (out: Vec<u8>)
    ensures
        out@ == header_spec(w as int, h as int, qt_luma@, qt_chroma@),
{
    let mut out: Vec<u8> = Vec::new();
    let lead: [u8; 52] = [
        0xff, 0xd8,
        0xff, 0xe0, 0x00, 0x10,
        0x4a, 0x46, 0x49, 0x46, 0x00,
        0x01, 0x02,
        0x01, 0x00, 0x60, 0x00, 0x60, 0x00, 0x00,
        0xff, 0xfe, 0x00, 0x1e,
        0x43, 0x72, 0x65, 0x61, 0x74, 0x65, 0x64, 0x20,
        0x62, 0x79, 0x20,
        0x54, 0x69, 0x6e, 0x79, 0x20,
        0x4a, 0x50, 0x45, 0x47, 0x20,
        0x45, 0x6e, 0x63, 0x6f, 0x64, 0x65, 0x72,
    ];
    proof {
        assert(lead@ =~= soi_app0_com_spec());
    }
    push_all(&mut out, &lead);
    append_dqt(&mut out, qt_luma, 0);
    append_dqt(&mut out, qt_chroma, 1);
    push_u16_be(&mut out, 0xffc0);
    push_u16_be(&mut out, 0x0011);
    out.push(0x08);
    push_u16_be(&mut out, h);
    push_u16_be(&mut out, w);
    let comp: [u8; 10] = [0x03, 0x01, 0x11, 0x00, 0x02, 0x11, 0x01, 0x03, 0x11, 0x01];
    push_all(&mut out, &comp);
    append_dht(&mut out, &crate::tables::ht_luma_dc_bits(), &crate::tables::ht_dc_vals(), 0, 0);
    append_dht(&mut out, &crate::tables::ht_luma_ac_bits(), &crate::tables::ht_luma_ac_vals(), 1, 0);
    append_dht(&mut out, &crate::tables::ht_chroma_dc_bits(), &crate::tables::ht_dc_vals(), 0, 1);
    append_dht(
        &mut out,
        &crate::tables::ht_chroma_ac_bits(),
        &crate::tables::ht_chroma_ac_vals(),
        1,
        1,
    );
    let sos: [u8; 14] = [
        0xff, 0xda, 0x00, 0x0c, 0x03, 0x01, 0x00, 0x02, 0x11, 0x03, 0x11, 0x00, 0x3f, 0x00,
    ];
    push_all(&mut out, &sos);
    proof {
        assert(sos@ =~= sos_spec());
        assert(seq![0xffu8, 0xc0u8, 0x00u8, 0x11u8, 0x08u8] + be16(h as int) + be16(w as int)
            + comp@ =~= sof0_spec(w as int, h as int));
        assert(out@ =~= header_spec(w as int, h as int, qt_luma@, qt_chroma@));
    }
    out
}

/// Clamp to the last valid coordinate: edge pixels replicate outward.
pub open spec fn clampi(v: int, hi: int) -> int {
    if v < hi {
        v
    } else {
        hi - 1
    }
}

/// The sample of channel `ch` at image position (x, y), with coordinates
/// past the right or bottom edge clamped to the last column or row.
pub open spec fn src_px(data: Seq<u8>, w: int, h: int, c: int, x: int, y: int, ch: int) -> u8 {
    data[(clampi(y, h) * w + clampi(x, w)) * c + ch]
}

pub open spec fn y_at(data: Seq<u8>, w: int, h: int, c: int, x: int, y: int) -> int {
    ycc_y(
        src_px(data, w, h, c, x, y, 0) as int,
        src_px(data, w, h, c, x, y, 1) as int,
        src_px(data, w, h, c, x, y, 2) as int,
    )
}

pub open spec fn cb_at(data: Seq<u8>, w: int, h: int, c: int, x: int, y: int) -> int {
    ycc_cb(
        src_px(data, w, h, c, x, y, 0) as int,
        src_px(data, w, h, c, x, y, 1) as int,
        src_px(data, w, h, c, x, y, 2) as int,
    )
}

pub open spec fn cr_at(data: Seq<u8>, w: int, h: int, c: int, x: int, y: int) -> int {
    ycc_cr(
        src_px(data, w, h, c, x, y, 0) as int,
        src_px(data, w, h, c, x, y, 1) as int,
        src_px(data, w, h, c, x, y, 2) as int,
    )
}

/// Only the first three channels of a pixel enter the converted block:
/// a fourth (alpha) channel never affects the encoded samples.
pub proof fn lemma_alpha_ignored(
    data4: Seq<u8>,
    data3: Seq<u8>,
    w: int,
    h: int,
    x: int,
    y: int,
)
    requires
        1 <= w,
        1 <= h,
        data4.len() == w * h * 4,
        data3.len() == w * h * 3,
        forall|p: int, ch: int|
            0 <= p < w * h && 0 <= ch < 3 ==> #[trigger] data4[p * 4 + ch] == data3[p * 3 + ch],
        0 <= x,
        0 <= y,
    ensures
        y_at(data4, w, h, 4, x, y) == y_at(data3, w, h, 3, x, y),
        cb_at(data4, w, h, 4, x, y) == cb_at(data3, w, h, 3, x, y),
        cr_at(data4, w, h, 4, x, y) == cr_at(data3, w, h, 3, x, y),
{
    let p = clampi(y, h) * w + clampi(x, w);
    assert(0 <= p < w * h) by (nonlinear_arith)
        requires
            0 <= clampi(y, h) <= h - 1,
            0 <= clampi(x, w) <= w - 1,
            1 <= w,
            1 <= h,
            p == clampi(y, h) * w + clampi(x, w),
    ;
    assert(data4[p * 4 + 0] == data3[p * 3 + 0]);
    assert(data4[p * 4 + 1] == data3[p * 3 + 1]);
    assert(data4[p * 4 + 2] == data3[p * 3 + 2]);
}


/// The Y samples of the 8x8 block at (x0, y0).
pub open spec fn y_block(data: Seq<u8>, w: int, h: int, c: int, x0: int, y0: int) -> Seq<i32> {
    Seq::new(64, |j: int| y_at(data, w, h, c, x0 + j % 8, y0 + j / 8) as i32)
}

/// The Cb samples of the 8x8 block at (x0, y0).
pub open spec fn cb_block(data: Seq<u8>, w: int, h: int, c: int, x0: int, y0: int) -> Seq<i32> {
    Seq::new(64, |j: int| cb_at(data, w, h, c, x0 + j % 8, y0 + j / 8) as i32)
}

/// The Cr samples of the 8x8 block at (x0, y0).
pub open spec fn cr_block(data: Seq<u8>, w: int, h: int, c: int, x0: int, y0: int) -> Seq<i32> {
    Seq::new(64, |j: int| cr_at(data, w, h, c, x0 + j % 8, y0 + j / 8) as i32)
}

/// The table contents one encode runs with: the two quantization tables
/// and the four expanded Huffman tables, as their per-symbol arrays.
pub struct EncKit {
    pub qt_luma: Seq<u8>,
    pub qt_chroma: Seq<u8>,
    pub ldc_size: Seq<u8>,
    pub ldc_code: Seq<u16>,
    pub lac_size: Seq<u8>,
    pub lac_code: Seq<u16>,
    pub cdc_size: Seq<u8>,
    pub cdc_code: Seq<u16>,
    pub cac_size: Seq<u8>,
    pub cac_code: Seq<u16>,
}

pub open spec fn kit_of(mem: State) -> EncKit {
    EncKit {
        qt_luma: mem.qt_luma@,
        qt_chroma: mem.qt_chroma@,
        ldc_size: mem.huff_luma_dc.size@,
        ldc_code: mem.huff_luma_dc.code@,
        lac_size: mem.huff_luma_ac.size@,
        lac_code: mem.huff_luma_ac.code@,
        cdc_size: mem.huff_chroma_dc.size@,
        cdc_code: mem.huff_chroma_dc.code@,
        cac_size: mem.huff_chroma_ac.size@,
        cac_code: mem.huff_chroma_ac.code@,
    }
}

/// One MCU: the Y, Cb and Cr blocks at (x, y) coded in turn, each with
/// its own predictor. The scan state is the writer state and the three
/// DC predictors.
pub open spec fn mcu_step_s(
    kit: EncKit,
    data: Seq<u8>,
    w: int,
    h: int,
    c: int,
    x: int,
    y: int,
    st: ((Seq<u8>, nat, nat), int, int, int),
) -> ((Seq<u8>, nat, nat), int, int, int) {
    let yb = y_block(data, w, h, c, x, y);
    let bb = cb_block(data, w, h, c, x, y);
    let rb = cr_block(data, w, h, c, x, y);
    let s1 = encode_block_s(st.0, yb, kit.qt_luma, kit.ldc_size, kit.ldc_code, kit.lac_size, kit.lac_code, st.1);
    let s2 = encode_block_s(s1, bb, kit.qt_chroma, kit.cdc_size, kit.cdc_code, kit.cac_size, kit.cac_code, st.2);
    let s3 = encode_block_s(s2, rb, kit.qt_chroma, kit.cdc_size, kit.cdc_code, kit.cac_size, kit.cac_code, st.3);
    (
        s3,
        quantized_block(yb, kit.qt_luma)[0],
        quantized_block(bb, kit.qt_chroma)[0],
        quantized_block(rb, kit.qt_chroma)[0],
    )
}

/// The MCUs of one row of blocks, from column `x` on, in steps of 8.
pub open spec fn scan_x_s(
    kit: EncKit,
    data: Seq<u8>,
    w: int,
    h: int,
    c: int,
    y: int,
    x: int,
    st: ((Seq<u8>, nat, nat), int, int, int),
) -> ((Seq<u8>, nat, nat), int, int, int)
    decreases w + 8 - x,
{
    if x >= w {
        st
    } else {
        scan_x_s(kit, data, w, h, c, y, x + 8, mcu_step_s(kit, data, w, h, c, x, y, st))
    }
}

/// The block rows of the image, from row `y` on, in steps of 8.
pub open spec fn scan_y_s(
    kit: EncKit,
    data: Seq<u8>,
    w: int,
    h: int,
    c: int,
    y: int,
    st: ((Seq<u8>, nat, nat), int, int, int),
) -> ((Seq<u8>, nat, nat), int, int, int)
    decreases h + 8 - y,
{
    if y >= h {
        st
    } else {
        scan_y_s(kit, data, w, h, c, y + 8, scan_x_s(kit, data, w, h, c, y, 0, st))
    }
}

/// The scan state at the start of an encode: nothing emitted, empty
/// accumulator, all three predictors zero.
pub open spec fn init_scan() -> ((Seq<u8>, nat, nat), int, int, int) {
    ((Seq::<u8>::empty(), 0nat, 0nat), 0int, 0int, 0int)
}

/// The bytes the bit writer holds after zero-padding to a byte boundary.
pub open spec fn padded_bytes(st: (Seq<u8>, nat, nat)) -> Seq<u8> {
    if st.2 == 0 {
        st.0
    } else {
        st.0.push((st.1 * vstd::arithmetic::power2::pow2((8 - st.2) as nat)) as u8)
    }
}

/// The whole entropy-coded segment of an image, unstuffed.
pub open spec fn entropy_bytes_s(kit: EncKit, data: Seq<u8>, w: int, h: int, c: int) -> Seq<u8> {
    padded_bytes(scan_y_s(kit, data, w, h, c, 0, init_scan()).0)
}


/// The three component blocks at (x0, y0) agree between an RGBA raster
/// and the RGB raster holding the same first three channels.
proof fn lemma_blocks_alpha(
    data4: Seq<u8>,
    data3: Seq<u8>,
    w: int,
    h: int,
    x0: int,
    y0: int,
)
    requires
        1 <= w,
        1 <= h,
        data4.len() == w * h * 4,
        data3.len() == w * h * 3,
        forall|p: int, ch: int|
            0 <= p < w * h && 0 <= ch < 3 ==> #[trigger] data4[p * 4 + ch] == data3[p * 3 + ch],
        0 <= x0,
        0 <= y0,
    ensures
        y_block(data4, w, h, 4, x0, y0) == y_block(data3, w, h, 3, x0, y0),
        cb_block(data4, w, h, 4, x0, y0) == cb_block(data3, w, h, 3, x0, y0),
        cr_block(data4, w, h, 4, x0, y0) == cr_block(data3, w, h, 3, x0, y0),
{
    assert forall|j: int|
        0 <= j < 64 implies #[trigger] y_at(data4, w, h, 4, x0 + j % 8, y0 + j / 8) == y_at(
        data3,
        w,
        h,
        3,
        x0 + j % 8,
        y0 + j / 8,
    ) by {
        lemma_alpha_ignored(data4, data3, w, h, x0 + j % 8, y0 + j / 8);
    }
    assert forall|j: int|
        0 <= j < 64 implies #[trigger] cb_at(data4, w, h, 4, x0 + j % 8, y0 + j / 8) == cb_at(
        data3,
        w,
        h,
        3,
        x0 + j % 8,
        y0 + j / 8,
    ) by {
        lemma_alpha_ignored(data4, data3, w, h, x0 + j % 8, y0 + j / 8);
    }
    assert forall|j: int|
        0 <= j < 64 implies #[trigger] cr_at(data4, w, h, 4, x0 + j % 8, y0 + j / 8) == cr_at(
        data3,
        w,
        h,
        3,
        x0 + j % 8,
        y0 + j / 8,
    ) by {
        lemma_alpha_ignored(data4, data3, w, h, x0 + j % 8, y0 + j / 8);
    }
    assert(y_block(data4, w, h, 4, x0, y0) =~= y_block(data3, w, h, 3, x0, y0));
    assert(cb_block(data4, w, h, 4, x0, y0) =~= cb_block(data3, w, h, 3, x0, y0));
    assert(cr_block(data4, w, h, 4, x0, y0) =~= cr_block(data3, w, h, 3, x0, y0));
}

proof fn lemma_scan_x_alpha(
    kit: EncKit,
    data4: Seq<u8>,
    data3: Seq<u8>,
    w: int,
    h: int,
    y: int,
    x: int,
    st: ((Seq<u8>, nat, nat), int, int, int),
)
    requires
        1 <= w,
        1 <= h,
        data4.len() == w * h * 4,
        data3.len() == w * h * 3,
        forall|p: int, ch: int|
            0 <= p < w * h && 0 <= ch < 3 ==> #[trigger] data4[p * 4 + ch] == data3[p * 3 + ch],
        0 <= x,
        0 <= y,
    ensures
        scan_x_s(kit, data4, w, h, 4, y, x, st) == scan_x_s(kit, data3, w, h, 3, y, x, st),
    decreases w + 8 - x,
{
    if x < w {
        lemma_blocks_alpha(data4, data3, w, h, x, y);
        assert(mcu_step_s(kit, data4, w, h, 4, x, y, st) == mcu_step_s(
            kit,
            data3,
            w,
            h,
            3,
            x,
            y,
            st,
        ));
        lemma_scan_x_alpha(
            kit,
            data4,
            data3,
            w,
            h,
            y,
            x + 8,
            mcu_step_s(kit, data4, w, h, 4, x, y, st),
        );
    }
}

proof fn lemma_scan_y_alpha(
    kit: EncKit,
    data4: Seq<u8>,
    data3: Seq<u8>,
    w: int,
    h: int,
    y: int,
    st: ((Seq<u8>, nat, nat), int, int, int),
)
    requires
        1 <= w,
        1 <= h,
        data4.len() == w * h * 4,
        data3.len() == w * h * 3,
        forall|p: int, ch: int|
            0 <= p < w * h && 0 <= ch < 3 ==> #[trigger] data4[p * 4 + ch] == data3[p * 3 + ch],
        0 <= y,
    ensures
        scan_y_s(kit, data4, w, h, 4, y, st) == scan_y_s(kit, data3, w, h, 3, y, st),
    decreases h + 8 - y,
{
    if y < h {
        lemma_scan_x_alpha(kit, data4, data3, w, h, y, 0, st);
        lemma_scan_y_alpha(
            kit,
            data4,
            data3,
            w,
            h,
            y + 8,
            scan_x_s(kit, data4, w, h, 4, y, 0, st),
        );
    }
}

/// The entropy-coded data of an RGBA raster equals that of the RGB
/// raster holding the same first three channels: alpha never reaches the
/// stream.
pub proof fn lemma_entropy_alpha_ignored(
    kit: EncKit,
    data4: Seq<u8>,
    data3: Seq<u8>,
    w: int,
    h: int,
)
    requires
        1 <= w,
        1 <= h,
        data4.len() == w * h * 4,
        data3.len() == w * h * 3,
        forall|p: int, ch: int|
            0 <= p < w * h && 0 <= ch < 3 ==> #[trigger] data4[p * 4 + ch] == data3[p * 3 + ch],
    ensures
        entropy_bytes_s(kit, data4, w, h, 4) == entropy_bytes_s(kit, data3, w, h, 3),
{
    lemma_scan_y_alpha(kit, data4, data3, w, h, 0, init_scan());
}

/// Converts the 8x8 block at (x0, y0) into Y, Cb and Cr sample blocks,
/// replicating the last row and column past the edges.
fn fill_mcu(data: &[u8], w: usize, h: usize, c: usize, x0: usize, y0: usize) -> (r: (
    Vec<i32>,
    Vec<i32>,
    Vec<i32>,
))
    requires
        1 <= w <= 65535,
        1 <= h <= 65535,
        c == 3 || c == 4,
        data@.len() == w * h * c,
        x0 < w,
        y0 < h,
    ensures
        r.0@.len() == 64,
        r.1@.len() == 64,
        r.2@.len() == 64,
        forall|j: int|
            0 <= j < 64 ==> -2048 <= #[trigger] r.0@[j] <= 2048 && -2048 <= #[trigger] r.1@[j]
                <= 2048 && -2048 <= #[trigger] r.2@[j] <= 2048,
        forall|j: int|
            0 <= j < 64 ==> #[trigger] r.0@[j] == y_at(
                data@,
                w as int,
                h as int,
                c as int,
                x0 + (j % 8),
                y0 + (j / 8),
            ),
        forall|j: int|
            0 <= j < 64 ==> #[trigger] r.1@[j] == cb_at(
                data@,
                w as int,
                h as int,
                c as int,
                x0 + (j % 8),
                y0 + (j / 8),
            ),
        forall|j: int|
            0 <= j < 64 ==> #[trigger] r.2@[j] == cr_at(
                data@,
                w as int,
                h as int,
                c as int,
                x0 + (j % 8),
                y0 + (j / 8),
            ),
        r.0@ == y_block(data@, w as int, h as int, c as int, x0 as int, y0 as int),
        r.1@ == cb_block(data@, w as int, h as int, c as int, x0 as int, y0 as int),
        r.2@ == cr_block(data@, w as int, h as int, c as int, x0 as int, y0 as int),
{
    let n = data.len();
    let mut yv: Vec<i32> = Vec::new();
    let mut bv: Vec<i32> = Vec::new();
    let mut rv: Vec<i32> = Vec::new();
    let mut j: usize = 0;
    while j < 64
        invariant
            j <= 64,
            1 <= w <= 65535,
            1 <= h <= 65535,
            c == 3 || c == 4,
            data@.len() == w * h * c,
            n == data@.len(),
            x0 < w,
            y0 < h,
            yv@.len() == j,
            bv@.len() == j,
            rv@.len() == j,
            forall|j2: int|
                0 <= j2 < j ==> -2048 <= #[trigger] yv@[j2] <= 2048 && -2048 <= #[trigger] bv@[j2]
                    <= 2048 && -2048 <= #[trigger] rv@[j2] <= 2048,
            forall|j2: int|
                0 <= j2 < j ==> #[trigger] yv@[j2] == y_at(
                    data@,
                    w as int,
                    h as int,
                    c as int,
                    x0 + (j2 % 8),
                    y0 + (j2 / 8),
                ),
            forall|j2: int|
                0 <= j2 < j ==> #[trigger] bv@[j2] == cb_at(
                    data@,
                    w as int,
                    h as int,
                    c as int,
                    x0 + (j2 % 8),
                    y0 + (j2 / 8),
                ),
            forall|j2: int|
                0 <= j2 < j ==> #[trigger] rv@[j2] == cr_at(
                    data@,
                    w as int,
                    h as int,
                    c as int,
                    x0 + (j2 % 8),
                    y0 + (j2 / 8),
                ),
        decreases 64 - j,
    {
        let oy = j / 8;
        let ox = j % 8;
        let row = if y0 + oy < h {
            y0 + oy
        } else {
            h - 1
        };
        let col = if x0 + ox < w {
            x0 + ox
        } else {
            w - 1
        };
        proof {
            assert(row * w + col <= w * h - 1) by (nonlinear_arith)
                requires
                    row <= h - 1,
                    col <= w - 1,
                    1 <= w,
                    1 <= h,
            ;
            assert((row * w + col) * c + 2 < w * h * c) by (nonlinear_arith)
                requires
                    row * w + col <= w * h - 1,
                    3 <= c,
            ;
        }
        let idx = (row * w + col) * c;
        let (cy, cb, cr) = rgb_to_ycc(data[idx], data[idx + 1], data[idx + 2]);
        proof {
            assert(row == clampi(y0 + oy, h as int));
            assert(col == clampi(x0 + ox, w as int));
        }
        yv.push(cy);
        bv.push(cb);
        rv.push(cr);
        j = j + 1;
    }
    proof {
        assert(yv@ =~= y_block(data@, w as int, h as int, c as int, x0 as int, y0 as int));
        assert(bv@ =~= cb_block(data@, w as int, h as int, c as int, x0 as int, y0 as int));
        assert(rv@ =~= cr_block(data@, w as int, h as int, c as int, x0 as int, y0 as int));
    }
    (yv, bv, rv)
}


/// The quantized coefficients of a block in zig-zag order: position `p`
/// carries the transform coefficient of natural position
/// `inv_zig_zag_spec()[p]`, quantized by table entry `p`.
#[verifier::opaque]
pub open spec fn quantized_block(mcu: Seq<i32>, qt: Seq<u8>) -> Seq<int> {
    Seq::new(
        64,
        |p: int|
            quant1(
                dct2d_at(mcu, inv_zig_zag_spec()[p] as int / 8, inv_zig_zag_spec()[p] as int % 8),
                qt[p] as int,
            ),
    )
}

/// One Huffman emission on the abstract writer state: `n` bits of `v`,
/// upper bits ignored.
pub open spec fn emit_s(st: (Seq<u8>, nat, nat), n: nat, v: nat) -> (Seq<u8>, nat, nat) {
    push_bits_s(st.0, st.1, st.2, n, v % vstd::arithmetic::power2::pow2(n))
}

/// The DC coding of a block: the Huffman code of the difference's
/// magnitude category, then the difference's raw bits; a zero difference
/// is the single category-0 code. `ts` and `tc` are the per-symbol
/// length and code arrays of the DC table.
pub open spec fn encode_dc_s(st: (Seq<u8>, nat, nat), diff: int, ts: Seq<u8>, tc: Seq<u16>) -> (
    Seq<u8>,
    nat,
    nat,
) {
    if diff == 0 {
        emit_s(st, ts[0] as nat, tc[0] as nat)
    } else {
        emit_s(
            emit_s(st, ts[vli_len(diff) as int] as nat, tc[vli_len(diff) as int] as nat),
            vli_len(diff),
            vli_bits(diff) as nat,
        )
    }
}

/// The largest index in `1 .. i` holding a nonzero coefficient, or 0.
pub open spec fn last_nz_below(du: Seq<int>, i: int) -> int
    decreases i,
{
    if i <= 1 {
        0
    } else if du[i - 1] != 0 {
        i - 1
    } else {
        last_nz_below(du, i - 1)
    }
}

/// The AC run-length coding from position `k` with `run` zeros pending:
/// sixteen zeros become a ZRL symbol, a nonzero coefficient becomes the
/// run/size symbol followed by its raw bits.
pub open spec fn encode_ac_s(
    st: (Seq<u8>, nat, nat),
    du: Seq<int>,
    k: int,
    last: int,
    run: nat,
    ts: Seq<u8>,
    tc: Seq<u16>,
) -> (Seq<u8>, nat, nat)
    decreases last + 1 - k,
{
    if k > last || k < 1 {
        st
    } else if du[k] == 0 {
        if run + 1 == 16 {
            encode_ac_s(emit_s(st, ts[0xf0] as nat, tc[0xf0] as nat), du, k + 1, last, 0, ts, tc)
        } else {
            encode_ac_s(st, du, k + 1, last, (run + 1) as nat, ts, tc)
        }
    } else {
        encode_ac_s(
            emit_s(
                emit_s(
                    st,
                    ts[run * 16 + vli_len(du[k]) as int] as nat,
                    tc[run * 16 + vli_len(du[k]) as int] as nat,
                ),
                vli_len(du[k]),
                vli_bits(du[k]) as nat,
            ),
            du,
            k + 1,
            last,
            0,
            ts,
            tc,
        )
    }
}

/// What one block appends to the stream: DC difference coding, the AC
/// run-length sweep up to the last nonzero coefficient, and an EOB when
/// coefficients remain beyond it.
pub open spec fn encode_block_s(
    st: (Seq<u8>, nat, nat),
    mcu: Seq<i32>,
    qt: Seq<u8>,
    dc_s: Seq<u8>,
    dc_c: Seq<u16>,
    ac_s: Seq<u8>,
    ac_c: Seq<u16>,
    pred: int,
) -> (Seq<u8>, nat, nat) {
    let du = quantized_block(mcu, qt);
    let last = last_nz_below(du, 64);
    let st2 = encode_ac_s(encode_dc_s(st, du[0] - pred, dc_s, dc_c), du, 1, last, 0, ac_s, ac_c);
    if last != 63 {
        emit_s(st2, ac_s[0] as nat, ac_c[0] as nat)
    } else {
        st2
    }
}

/// A transformed block scattered through the inverse zig-zag table and
/// quantized per slot is exactly `quantized_block`.
proof fn lemma_quantized_corresponds(mcu0: Seq<i32>, qt: Seq<u8>, blk: Seq<i32>, du: Seq<i32>)
    requires
        blk.len() == 64,
        du.len() == 64,
        qt.len() == 64,
        forall|v: int, u: int|
            0 <= v < 8 && 0 <= u < 8 ==> #[trigger] blk[v * 8 + u] == dct2d_at(mcu0, v, u),
        forall|p: int|
            0 <= p < 64 ==> #[trigger] du[p] == quant1(
                blk[inv_zig_zag_spec()[p] as int] as int,
                qt[p] as int,
            ),
    ensures
        quantized_block(mcu0, qt).len() == 64,
        forall|p: int| 0 <= p < 64 ==> #[trigger] du[p] == quantized_block(mcu0, qt)[p],
{
    reveal(quantized_block);
    assert forall|p: int| 0 <= p < 64 implies #[trigger] du[p] == quantized_block(mcu0, qt)[p] by {
        let i = inv_zig_zag_spec()[p] as int;
        assert(0 <= i < 64);
        vstd::arithmetic::div_mod::lemma_fundamental_div_mod(i, 8);
        let v = i / 8;
        let u = i % 8;
        assert(0 <= u < 8);
        assert(0 <= v < 8) by {
            vstd::arithmetic::div_mod::lemma_div_pos_is_pos(i, 8);
            vstd::arithmetic::div_mod::lemma_div_is_ordered(i, 63, 8);
        }
        assert(blk[v * 8 + u] == dct2d_at(mcu0, v, u));
        assert(i == v * 8 + u);
    }
}

/// Encodes one 8x8 sample block: forward DCT, quantization, then the DC
/// difference and the AC run-length symbols through the given tables.
#[verifier::rlimit(100)]
pub fn encode_and_append_mcu(
    bw: &mut BitWriter,
    mcu: Vec<i32>,
    qt: &[u8; 64],
    huff_dc: &HuffTable,
    huff_ac: &HuffTable,
    pred: &mut i32,
)
    requires
        old(bw).wf(),
        mcu@.len() == 64,
        forall|i: int| 0 <= i < 64 ==> -2048 <= #[trigger] mcu@[i] <= 2048,
        forall|i: int| 0 <= i < 64 ==> 1 <= #[trigger] qt@[i] <= 255,
        huff_dc.wf(),
        huff_ac.wf(),
        -2047 <= *old(pred) <= 2047,
    ensures
        final(bw).wf(),
        final(bw).base() == old(bw).base(),
        old(bw).emitted().is_prefix_of(final(bw).emitted()),
        -2047 <= *final(pred) <= 2047,
        *final(pred) == quantized_block(mcu@, qt@)[0],
        (final(bw).emitted(), final(bw).acc_spec(), final(bw).count_spec()) == encode_block_s(
            (old(bw).emitted(), old(bw).acc_spec(), old(bw).count_spec()),
            mcu@,
            qt@,
            huff_dc.size@,
            huff_dc.code@,
            huff_ac.size@,
            huff_ac.code@,
            *old(pred) as int,
        ),
{
    let ghost mcu0 = mcu@;
    let ghost st0 = (old(bw).emitted(), old(bw).acc_spec(), old(bw).count_spec());
    let mut block = mcu;
    fdct(&mut block);
    let du = quantize_block(&block, qt);
    let ghost dus = quantized_block(mcu0, qt@);
    proof {
        lemma_quantized_corresponds(mcu0, qt@, block@, du@);
    }
    let dc = du[0];
    let diff = dc - *pred;
    let ghost pred0 = *pred as int;
    *pred = dc;
    if diff != 0 {
        let (bits, num_bits) = calculate_variable_length_int(diff);
        let s = num_bits as usize;
        bw.append_bits(huff_dc.size[s] as u16, huff_dc.code[s]);
        bw.append_bits(num_bits, bits);
    } else {
        bw.append_bits(huff_dc.size[0] as u16, huff_dc.code[0]);
    }
    proof {
        assert((bw.emitted(), bw.acc_spec(), bw.count_spec()) == encode_dc_s(
            st0,
            dus[0] - pred0,
            huff_dc.size@,
            huff_dc.code@,
        ));
    }
    let ghost st1 = (bw.emitted(), bw.acc_spec(), bw.count_spec());
    let mut last: usize = 0;
    let mut i: usize = 1;
    while i < 64
        invariant
            1 <= i <= 64,
            last < i,
            du@.len() == 64,
            dus.len() == 64,
            forall|p: int| 0 <= p < 64 ==> #[trigger] du@[p] == dus[p],
            last == 0 || du@[last as int] != 0,
            last == last_nz_below(dus, i as int),
        decreases 64 - i,
    {
        if du[i] != 0 {
            last = i;
        }
        i = i + 1;
    }
    let ghost target = encode_ac_s(st1, dus, 1, last as int, 0, huff_ac.size@, huff_ac.code@);
    let mut k: usize = 1;
    while k <= last
        invariant
            1 <= k,
            k <= last + 1,
            last < 64,
            du@.len() == 64,
            dus.len() == 64,
            forall|p: int| 0 <= p < 64 ==> -2047 <= #[trigger] du@[p] <= 2047,
            forall|p: int| 0 <= p < 64 ==> #[trigger] du@[p] == dus[p],
            last == 0 || du@[last as int] != 0,
            bw.wf(),
            bw.base() == old(bw).base(),
            old(bw).emitted().is_prefix_of(bw.emitted()),
            huff_dc.wf(),
            huff_ac.wf(),
            target == encode_ac_s(
                (bw.emitted(), bw.acc_spec(), bw.count_spec()),
                dus,
                k as int,
                last as int,
                0,
                huff_ac.size@,
                huff_ac.code@,
            ),
        decreases last + 1 - k,
    {
        let ghost k0 = k;
        let mut zero_count: u16 = 0;
        while du[k] == 0
            invariant
                k0 <= k,
                1 <= k <= last,
                last < 64,
                du@.len() == 64,
                dus.len() == 64,
                forall|p: int| 0 <= p < 64 ==> #[trigger] du@[p] == dus[p],
                du@[last as int] != 0,
                zero_count <= 15,
                bw.wf(),
                bw.base() == old(bw).base(),
                old(bw).emitted().is_prefix_of(bw.emitted()),
                huff_ac.wf(),
                target == encode_ac_s(
                    (bw.emitted(), bw.acc_spec(), bw.count_spec()),
                    dus,
                    k as int,
                    last as int,
                    zero_count as nat,
                    huff_ac.size@,
                    huff_ac.code@,
                ),
            decreases last - k,
        {
            zero_count = zero_count + 1;
            k = k + 1;
            if zero_count == 16 {
                bw.append_bits(huff_ac.size[0xf0] as u16, huff_ac.code[0xf0]);
                zero_count = 0;
            }
        }
        let (bits, num_bits) = calculate_variable_length_int(du[k]);
        let sym = (zero_count as usize) * 16 + (num_bits as usize);
        bw.append_bits(huff_ac.size[sym] as u16, huff_ac.code[sym]);
        bw.append_bits(num_bits, bits);
        k = k + 1;
    }
    proof {
        assert((bw.emitted(), bw.acc_spec(), bw.count_spec()) == target);
    }
    if last != 63 {
        bw.append_bits(huff_ac.size[0] as u16, huff_ac.code[0]);
    }
    proof {
        assert((bw.emitted(), bw.acc_spec(), bw.count_spec()) == encode_block_s(
            st0,
            mcu0,
            qt@,
            huff_dc.size@,
            huff_dc.code@,
            huff_ac.size@,
            huff_ac.code@,
            pred0,
        ));
    }
}

/// The encoder state for one image: the four expanded Huffman tables and
/// the two quantization tables.
pub struct State {
    pub huff_luma_dc: HuffTable,
    pub huff_luma_ac: HuffTable,
    pub huff_chroma_dc: HuffTable,
    pub huff_chroma_ac: HuffTable,
    pub qt_luma: [u8; 64],
    pub qt_chroma: [u8; 64],
}

impl State {
    pub open spec fn wf(self) -> bool {
        &&& self.huff_luma_dc.wf()
        &&& self.huff_luma_ac.wf()
        &&& self.huff_chroma_dc.wf()
        &&& self.huff_chroma_ac.wf()
        &&& forall|i: int| 0 <= i < 64 ==> 1 <= #[trigger] self.qt_luma@[i] <= 255
        &&& forall|i: int| 0 <= i < 64 ==> 1 <= #[trigger] self.qt_chroma@[i] <= 255
    }
}

/// The shape every encoded file has: the exact header for its size and
/// quantization tables, then entropy-coded data in which each 0xFF is
/// followed by 0x00, then the EOI marker.
pub open spec fn jpeg_shape(o: Seq<u8>, w: int, h: int, qt_luma: Seq<u8>, qt_chroma: Seq<u8>) -> bool {
    let hdr = header_spec(w, h, qt_luma, qt_chroma);
    &&& o.len() >= hdr.len() + 2
    &&& o.subrange(0, hdr.len() as int) == hdr
    &&& o[0] == 0xff && o[1] == 0xd8
    &&& o[o.len() - 2] == 0xff && o[o.len() - 1] == 0xd9
    &&& forall|i: int| hdr.len() <= i < o.len() - 2 && o[i] == 0xff ==> #[trigger] o[i + 1] == 0x00
}


/// Encodes the three component blocks of one MCU position.
fn encode_mcu_at(
    bw: &mut BitWriter,
    mem: &State,
    data: &[u8],
    w: usize,
    h: usize,
    c: usize,
    x: usize,
    y: usize,
    pred_y: &mut i32,
    pred_b: &mut i32,
    pred_r: &mut i32,
)
    requires
        mem.wf(),
        1 <= w <= 65535,
        1 <= h <= 65535,
        c == 3 || c == 4,
        data@.len() == w * h * c,
        x < w,
        y < h,
        old(bw).wf(),
        -2047 <= *old(pred_y) <= 2047,
        -2047 <= *old(pred_b) <= 2047,
        -2047 <= *old(pred_r) <= 2047,
    ensures
        final(bw).wf(),
        final(bw).base() == old(bw).base(),
        old(bw).emitted().is_prefix_of(final(bw).emitted()),
        -2047 <= *final(pred_y) <= 2047,
        -2047 <= *final(pred_b) <= 2047,
        -2047 <= *final(pred_r) <= 2047,
        ((final(bw).emitted(), final(bw).acc_spec(), final(bw).count_spec()),
            *final(pred_y) as int, *final(pred_b) as int, *final(pred_r) as int) == mcu_step_s(
            kit_of(*mem),
            data@,
            w as int,
            h as int,
            c as int,
            x as int,
            y as int,
            (
                (old(bw).emitted(), old(bw).acc_spec(), old(bw).count_spec()),
                *old(pred_y) as int,
                *old(pred_b) as int,
                *old(pred_r) as int,
            ),
        ),
{
    let (by, bb, br) = fill_mcu(data, w, h, c, x, y);
    encode_and_append_mcu(bw, by, &mem.qt_luma, &mem.huff_luma_dc, &mem.huff_luma_ac, pred_y);
    encode_and_append_mcu(bw, bb, &mem.qt_chroma, &mem.huff_chroma_dc, &mem.huff_chroma_ac, pred_b);
    encode_and_append_mcu(bw, br, &mem.qt_chroma, &mem.huff_chroma_dc, &mem.huff_chroma_ac, pred_r);
}

/// Runs the whole encode: header, MCU sweep in row-major order, bit
/// padding and the EOI marker.
#[verifier::rlimit(100)]
pub fn encode_main(mem: &State, w: i32, h: i32, num_components: i32, data: &[u8]) -> (out: Vec<u8>)
    requires
        mem.wf(),
        1 <= w <= 65535,
        1 <= h <= 65535,
        num_components == 3 || num_components == 4,
        data@.len() == w as int * h as int * num_components as int,
    ensures
        jpeg_shape(out@, w as int, h as int, mem.qt_luma@, mem.qt_chroma@),
        out@ == header_spec(w as int, h as int, mem.qt_luma@, mem.qt_chroma@) + stuff(
            entropy_bytes_s(
                kit_of(*mem),
                data@,
                w as int,
                h as int,
                num_components as int,
            ),
        ) + seq![0xffu8, 0xd9u8],
{
    let ghost hdr_s = header_spec(w as int, h as int, mem.qt_luma@, mem.qt_chroma@);
    let hdr = write_header(w as u16, h as u16, &mem.qt_luma, &mem.qt_chroma);
    let mut bw = BitWriter::new(hdr);
    let wu = w as usize;
    let hu = h as usize;
    let cu = num_components as usize;
    let mut pred_y: i32 = 0;
    let mut pred_b: i32 = 0;
    let mut pred_r: i32 = 0;
    let ghost kit = kit_of(*mem);
    let ghost full = scan_y_s(kit, data@, wu as int, hu as int, cu as int, 0, init_scan());
    let mut y: usize = 0;
    while y < hu
        invariant
            mem.wf(),
            1 <= wu <= 65535,
            1 <= hu <= 65535,
            cu == 3 || cu == 4,
            data@.len() == wu * hu * cu,
            bw.wf(),
            bw.base() == hdr_s,
            -2047 <= pred_y <= 2047,
            -2047 <= pred_b <= 2047,
            -2047 <= pred_r <= 2047,
            kit == kit_of(*mem),
            full == scan_y_s(
                kit,
                data@,
                wu as int,
                hu as int,
                cu as int,
                y as int,
                (
                    (bw.emitted(), bw.acc_spec(), bw.count_spec()),
                    pred_y as int,
                    pred_b as int,
                    pred_r as int,
                ),
            ),
        decreases hu + 8 - y,
    {
        let ghost row_start = (
            (bw.emitted(), bw.acc_spec(), bw.count_spec()),
            pred_y as int,
            pred_b as int,
            pred_r as int,
        );
        let ghost row_target = scan_x_s(
            kit,
            data@,
            wu as int,
            hu as int,
            cu as int,
            y as int,
            0,
            row_start,
        );
        let mut x: usize = 0;
        while x < wu
            invariant
                mem.wf(),
                1 <= wu <= 65535,
                1 <= hu <= 65535,
                cu == 3 || cu == 4,
                data@.len() == wu * hu * cu,
                y < hu,
                bw.wf(),
                bw.base() == hdr_s,
                -2047 <= pred_y <= 2047,
                -2047 <= pred_b <= 2047,
                -2047 <= pred_r <= 2047,
                kit == kit_of(*mem),
                row_target == scan_x_s(
                    kit,
                    data@,
                    wu as int,
                    hu as int,
                    cu as int,
                    y as int,
                    x as int,
                    (
                        (bw.emitted(), bw.acc_spec(), bw.count_spec()),
                        pred_y as int,
                        pred_b as int,
                        pred_r as int,
                    ),
                ),
            decreases wu + 8 - x,
        {
            encode_mcu_at(
                &mut bw,
                mem,
                data,
                wu,
                hu,
                cu,
                x,
                y,
                &mut pred_y,
                &mut pred_b,
                &mut pred_r,
            );
            x = x + 8;
        }
        y = y + 8;
    }
    proof {
        assert(full == (
            (bw.emitted(), bw.acc_spec(), bw.count_spec()),
            pred_y as int,
            pred_b as int,
            pred_r as int,
        ));
    }
    bw.pad_to_byte();
    let ghost e = bw.emitted();
    proof {
        assert(e == padded_bytes(full.0));
        assert(e == entropy_bytes_s(kit, data@, wu as int, hu as int, cu as int));
    }
    let mut out = bw.into_bytes();
    out.push(0xff);
    out.push(0xd9);
    proof {
        crate::bitwriter::lemma_stuff_escaped(e);
        let hl = hdr_s.len() as int;
        let sl = stuff(e).len() as int;
        assert(out@ =~= hdr_s + stuff(e) + seq![0xffu8, 0xd9u8]);
        assert(out@.subrange(0, hl) =~= hdr_s);
        assert(hdr_s[0] == 0xff && hdr_s[1] == 0xd8) by {
            assert(soi_app0_com_spec()[0] == 0xff);
            assert(soi_app0_com_spec()[1] == 0xd8);
        }
        assert(out@[out@.len() - 2] == 0xff && out@[out@.len() - 1] == 0xd9);
        assert forall|i: int|
            hl <= i < out@.len() - 2 && out@[i] == 0xff implies #[trigger] out@[i + 1] == 0x00 by {
            assert(out@[i] == stuff(e)[i - hl]);
            assert(i - hl + 1 < sl && stuff(e)[i - hl + 1] == 0x00);
            assert(out@[i + 1] == stuff(e)[i - hl + 1]);
        }
    }
    out
}

} // verus!
