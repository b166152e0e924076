//! A baseline JPEG (JFIF) encoder: interleaved 8-bit RGB or RGBA rasters
//! in, a complete baseline sequential DCT bitstream out. The pipeline is
//! color conversion, a fixed-point forward DCT, quantization with zig-zag
//! reordering, and DC-difference / AC-run-length Huffman coding with the
//! default tables, packed MSB-first with JPEG byte stuffing.
use vstd::prelude::*;

pub mod bitwriter;
pub mod dct;
pub mod encoder;
pub mod huffman;
pub mod tables;

verus! {

/// The three quantization presets: `Highest` uses identity tables,
/// `High` the base tables divided by ten, `Medium` the base tables as
/// they stand.
pub enum Quality {
    Medium,
    High,
    Highest,
}

/// A base table scaled down by an integer factor; zero entries stay 1 so
/// no divisor can vanish.
pub open spec fn qt_from_base(base: Seq<u8>, factor: int) -> Seq<u8> {
    Seq::new(64, |i: int| if base[i] == 0 { 1u8 } else { ((base[i] as int) / factor) as u8 })
}

pub open spec fn quality_factor(quality: Quality) -> int {
    match quality {
        Quality::High => 10,
        _ => 1,
    }
}

/// The luma quantization table a preset selects.
pub open spec fn qt_luma_spec(quality: Quality) -> Seq<u8> {
    match quality {
        Quality::Highest => Seq::new(64, |i: int| 1u8),
        _ => qt_from_base(crate::tables::qt_luma_base_spec(), quality_factor(quality)),
    }
}

/// The chroma quantization table a preset selects.
pub open spec fn qt_chroma_spec(quality: Quality) -> Seq<u8> {
    match quality {
        Quality::Highest => Seq::new(64, |i: int| 1u8),
        _ => qt_from_base(crate::tables::qt_chroma_base_spec(), quality_factor(quality)),
    }
}

/// Scales a base table down entry-wise, keeping every divisor at least 1.
fn scale_qt(base: &[u8; 64], factor: u8) -> (t: [u8; 64])
    requires
        factor == 1 || factor == 10,
        forall|i: int| 0 <= i < 64 ==> #[trigger] base@[i] == 0 || base@[i] >= factor,
    ensures
        t@ == qt_from_base(base@, factor as int),
        forall|i: int| 0 <= i < 64 ==> 1 <= #[trigger] t@[i] <= 255,
{
    let mut t = *base;
    let mut i: usize = 0;
    while i < 64
        invariant
            i <= 64,
            t@.len() == 64,
            factor == 1 || factor == 10,
            forall|j: int| 0 <= j < 64 ==> #[trigger] base@[j] == 0 || base@[j] >= factor,
            forall|j: int| i <= j < 64 ==> #[trigger] t@[j] == base@[j],
            forall|j: int| 0 <= j < i ==> #[trigger] t@[j] == qt_from_base(base@, factor as int)[j],
            forall|j: int| 0 <= j < i ==> 1 <= #[trigger] t@[j] <= 255,
        decreases 64 - i,
    {
        if base[i] != 0 {
            t[i] = base[i] / factor;
        } else {
            t[i] = 1;
        }
        i = i + 1;
    }
    proof {
        assert(t@ =~= qt_from_base(base@, factor as int));
    }
    t
}

/// The identity quantization table.
fn unit_qt() -> (t: [u8; 64])
    ensures
        t@ == Seq::new(64, |i: int| 1u8),
        forall|i: int| 0 <= i < 64 ==> 1 <= #[trigger] t@[i] <= 255,
{
    let t: [u8; 64] = [
        1, 1, 1, 1, 1, 1, 1, 1,
        1, 1, 1, 1, 1, 1, 1, 1,
        1, 1, 1, 1, 1, 1, 1, 1,
        1, 1, 1, 1, 1, 1, 1, 1,
        1, 1, 1, 1, 1, 1, 1, 1,
        1, 1, 1, 1, 1, 1, 1, 1,
        1, 1, 1, 1, 1, 1, 1, 1,
        1, 1, 1, 1, 1, 1, 1, 1,
    ];
    proof {
        assert(t@ =~= Seq::new(64, |i: int| 1u8));
    }
    t
}

/// The table set a quality preset selects: its two quantization tables
/// and the four default Huffman tables in expanded form.
pub open spec fn default_kit(quality: Quality) -> crate::encoder::EncKit {
    crate::encoder::EncKit {
        qt_luma: qt_luma_spec(quality),
        qt_chroma: qt_chroma_spec(quality),
        ldc_size: crate::huffman::table_size_seq(
            crate::tables::ht_luma_dc_bits_spec(),
            crate::tables::ht_dc_vals_spec(),
        ),
        ldc_code: crate::huffman::table_code_seq(
            crate::tables::ht_luma_dc_bits_spec(),
            crate::tables::ht_dc_vals_spec(),
        ),
        lac_size: crate::huffman::table_size_seq(
            crate::tables::ht_luma_ac_bits_spec(),
            crate::tables::ht_luma_ac_vals_spec(),
        ),
        lac_code: crate::huffman::table_code_seq(
            crate::tables::ht_luma_ac_bits_spec(),
            crate::tables::ht_luma_ac_vals_spec(),
        ),
        cdc_size: crate::huffman::table_size_seq(
            crate::tables::ht_chroma_dc_bits_spec(),
            crate::tables::ht_dc_vals_spec(),
        ),
        cdc_code: crate::huffman::table_code_seq(
            crate::tables::ht_chroma_dc_bits_spec(),
            crate::tables::ht_dc_vals_spec(),
        ),
        cac_size: crate::huffman::table_size_seq(
            crate::tables::ht_chroma_ac_bits_spec(),
            crate::tables::ht_chroma_ac_vals_spec(),
        ),
        cac_code: crate::huffman::table_code_seq(
            crate::tables::ht_chroma_ac_bits_spec(),
            crate::tables::ht_chroma_ac_vals_spec(),
        ),
    }
}

/// The complete file an encode produces: the exact headers, the stuffed
/// entropy-coded data of the MCU sweep, and the EOI marker.
pub open spec fn encoded_file_spec(quality: Quality, w: int, h: int, c: int, data: Seq<u8>) -> Seq<
    u8,
> {
    crate::encoder::header_spec(w, h, qt_luma_spec(quality), qt_chroma_spec(quality))
        + crate::bitwriter::stuff(
        crate::encoder::entropy_bytes_s(default_kit(quality), data, w, h, c),
    ) + seq![0xffu8, 0xd9u8]
}

/// An RGBA raster encodes to exactly the same file as the RGB raster
/// holding the same first three channels of every pixel: the alpha
/// channel never reaches the output.
pub proof fn lemma_alpha_channel_ignored(
    quality: Quality,
    w: int,
    h: int,
    data4: Seq<u8>,
    data3: Seq<u8>,
)
    requires
        1 <= w,
        1 <= h,
        data4.len() == w * h * 4,
        data3.len() == w * h * 3,
        forall|p: int, ch: int|
            0 <= p < w * h && 0 <= ch < 3 ==> #[trigger] data4[p * 4 + ch] == data3[p * 3 + ch],
    ensures
        encoded_file_spec(quality, w, h, 4, data4) == encoded_file_spec(quality, w, h, 3, data3),
{
    crate::encoder::lemma_entropy_alpha_ignored(default_kit(quality), data4, data3, w, h);
}

/// Returns the complete JPEG file for an interleaved 8-bit raster.
///
/// `num_components` is 3 for RGB and 4 for RGBA; a fourth channel is
/// ignored. `data` holds exactly `w * h * num_components` samples in
/// row-major order.
pub fn encode_to_buffer(quality: Quality, w: i32, h: i32, num_components: i32, data: &[u8]) -> (out:
    Vec<u8>)
    requires
        1 <= w <= 65535,
        1 <= h <= 65535,
        num_components == 3 || num_components == 4,
        data@.len() == w as int * h as int * num_components as int,
    ensures
        crate::encoder::jpeg_shape(
            out@,
            w as int,
            h as int,
            qt_luma_spec(quality),
            qt_chroma_spec(quality),
        ),
        out@ == encoded_file_spec(
            quality,
            w as int,
            h as int,
            num_components as int,
            data@,
        ),
{
    let (qt_luma, qt_chroma) = match quality {
        Quality::Highest => (unit_qt(), unit_qt()),
        Quality::High => (
            scale_qt(&crate::tables::qt_luma_base(), 10),
            scale_qt(&crate::tables::qt_chroma_base(), 10),
        ),
        Quality::Medium => (
            scale_qt(&crate::tables::qt_luma_base(), 1),
            scale_qt(&crate::tables::qt_chroma_base(), 1),
        ),
    };
    let tables = crate::huffman::huff_expand();
    let mem = crate::encoder::State {
        huff_luma_dc: tables.0,
        huff_luma_ac: tables.1,
        huff_chroma_dc: tables.2,
        huff_chroma_ac: tables.3,
        qt_luma,
        qt_chroma,
    };
    let out = crate::encoder::encode_main(&mem, w, h, num_components, data);
    proof {
        assert(crate::encoder::kit_of(mem) == default_kit(quality));
    }
    out
}

} // verus!
