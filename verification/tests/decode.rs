use tiny_jpeg::encode_to_buffer;
use tiny_jpeg::Quality;

fn decode(buf: &[u8]) -> (Vec<u8>, u16, u16) {
    let mut d = jpeg_decoder::Decoder::new(buf);
    let pixels = d.decode().expect("decode failed");
    let info = d.info().expect("no image info");
    assert!(matches!(info.pixel_format, jpeg_decoder::PixelFormat::RGB24));
    assert_eq!(pixels.len(), info.width as usize * info.height as usize * 3);
    (pixels, info.width, info.height)
}

fn max_abs_diff(a: &[u8], b: &[u8]) -> u32 {
    assert_eq!(a.len(), b.len());
    a.iter()
        .zip(b.iter())
        .map(|(&x, &y)| (x as i32 - y as i32).unsigned_abs())
        .max()
        .unwrap()
}

#[test]
fn decoded_dimensions_and_error_bound() {
    // A smooth gray gradient, base tables: decoded pixels stay within 8
    // of the input. (Strongly colored content can exceed 8: the chroma
    // table quantizes some low frequencies coarsely.)
    const W: usize = 32;
    const H: usize = 24;
    let mut data = Vec::with_capacity(W * H * 3);
    for y in 0..H {
        for x in 0..W {
            let v = (x * 4 + y * 3 + 40) as u8;
            data.push(v);
            data.push(v);
            data.push(v);
        }
    }
    let out = encode_to_buffer(Quality::Medium, W as i32, H as i32, 3, &data);
    let (px, w, h) = decode(&out);
    assert_eq!((w as usize, h as usize), (W, H));
    assert!(max_abs_diff(&px, &data) <= 8, "error {}", max_abs_diff(&px, &data));
}

#[test]
fn uniform_color_highest_round_trips() {
    const W: usize = 24;
    const H: usize = 16;
    let mut data = Vec::with_capacity(W * H * 3);
    for _ in 0..W * H {
        data.push(37);
        data.push(130);
        data.push(200);
    }
    let out = encode_to_buffer(Quality::Highest, W as i32, H as i32, 3, &data);
    let (px, w, h) = decode(&out);
    assert_eq!((w as usize, h as usize), (W, H));
    assert!(max_abs_diff(&px, &data) <= 2, "error {}", max_abs_diff(&px, &data));
}

#[test]
fn second_generation_is_nearly_idempotent() {
    const W: usize = 16;
    const H: usize = 16;
    let mut data = Vec::with_capacity(W * H * 3);
    for p in 0..W * H {
        data.push(((p * 5) % 200 + 20) as u8);
        data.push(((p * 3) % 180 + 40) as u8);
        data.push(((p * 11) % 160 + 60) as u8);
    }
    let first = encode_to_buffer(Quality::Highest, W as i32, H as i32, 3, &data);
    let (px1, _, _) = decode(&first);
    let second = encode_to_buffer(Quality::Highest, W as i32, H as i32, 3, &px1);
    let (px2, _, _) = decode(&second);
    // Second-generation drift stays within 3 levels per channel: the
    // color conversions round once more in each generation.
    assert!(max_abs_diff(&px2, &px1) <= 3, "error {}", max_abs_diff(&px2, &px1));
}

#[test]
fn odd_dimensions_decode_exactly() {
    // Width and height that are no multiples of 8: the decoder discards
    // the padded pixels using the SOF dimensions.
    let data = vec![90u8; 13 * 7 * 3];
    let out = encode_to_buffer(Quality::Medium, 13, 7, 3, &data);
    let (_, w, h) = decode(&out);
    assert_eq!((w, h), (13, 7));
}

#[test]
fn seven_by_seven_borders_stay_clean() {
    let data = vec![200u8; 7 * 7 * 3];
    let out = encode_to_buffer(Quality::Medium, 7, 7, 3, &data);
    let (px, w, h) = decode(&out);
    assert_eq!((w, h), (7, 7));
    // Clamping the eighth row and column must not disturb the border.
    assert!(max_abs_diff(&px, &data) <= 4, "error {}", max_abs_diff(&px, &data));
}

#[test]
fn all_zero_block_highest() {
    let data = vec![0u8; 8 * 8 * 3];
    let out = encode_to_buffer(Quality::Highest, 8, 8, 3, &data);
    // One MCU of a constant image packs into five entropy bytes: the
    // luma DC category-11 code and difference, a luma EOB, and a
    // zero DC difference plus EOB for each chroma block; the 0xFF byte
    // is stuffed.
    let header_len = 52 + 69 + 69 + 19 + 33 + 183 + 33 + 183 + 14;
    assert_eq!(&out[header_len..out.len() - 2], &[0xff, 0x00, 0x3f, 0xfa, 0x00]);
    let (px, w, h) = decode(&out);
    assert_eq!((w, h), (8, 8));
    assert!(px.iter().all(|&p| p <= 2), "max {}", px.iter().max().unwrap());
}

#[test]
fn all_white_block_medium() {
    let data = vec![255u8; 8 * 8 * 3];
    let out = encode_to_buffer(Quality::Medium, 8, 8, 3, &data);
    // One large luma DC (category 6, value 63 after dividing by the DC
    // quantizer 16), a luma EOB, and zero-DC-plus-EOB for each chroma
    // block, zero-padded to three bytes.
    let header_len = 52 + 69 + 69 + 19 + 33 + 183 + 33 + 183 + 14;
    assert_eq!(&out[header_len..out.len() - 2], &[0xef, 0xe8, 0x00]);
    let (px, w, h) = decode(&out);
    assert_eq!((w, h), (8, 8));
    assert!(px.iter().all(|&p| p >= 251), "min {}", px.iter().min().unwrap());
}

#[test]
fn vertical_edge_tile_means() {
    // Left half black, right half white; the mean of each 8x8 tile's
    // luminance survives within 8 despite ringing.
    const W: usize = 16;
    const H: usize = 16;
    let mut data = Vec::with_capacity(W * H * 3);
    for _y in 0..H {
        for x in 0..W {
            let v = if x < 8 { 0u8 } else { 255u8 };
            data.push(v);
            data.push(v);
            data.push(v);
        }
    }
    let out = encode_to_buffer(Quality::High, W as i32, H as i32, 3, &data);
    let (px, _, _) = decode(&out);
    for ty in 0..2 {
        for tx in 0..2 {
            let mut sum: i64 = 0;
            for y in 0..8 {
                for x in 0..8 {
                    let p = ((ty * 8 + y) * W + tx * 8 + x) * 3;
                    let lum = (299 * px[p] as i64 + 587 * px[p + 1] as i64 + 114 * px[p + 2] as i64)
                        / 1000;
                    sum += lum;
                }
            }
            let mean = sum / 64;
            let expected: i64 = if tx == 0 { 0 } else { 255 };
            assert!((mean - expected).abs() <= 8, "tile mean {} vs {}", mean, expected);
        }
    }
}

#[test]
fn single_pixel_image() {
    let data = vec![128u8, 64, 200];
    let out = encode_to_buffer(Quality::Highest, 1, 1, 3, &data);
    // A few hundred bytes: the fixed headers plus a tiny entropy segment.
    assert!(out.len() >= 600 && out.len() <= 800, "len {}", out.len());
    let (px, w, h) = decode(&out);
    assert_eq!((w, h), (1, 1));
    assert!(max_abs_diff(&px, &data) <= 2, "error {}", max_abs_diff(&px, &data));
}

#[test]
fn large_white_rgba() {
    const W: usize = 4000;
    const H: usize = 2000;
    let data = vec![255u8; W * H * 4];
    let out = encode_to_buffer(Quality::Highest, W as i32, H as i32, 4, &data);
    let (px, w, h) = decode(&out);
    assert_eq!((w as usize, h as usize), (W, H));
    assert!(px.iter().all(|&p| p >= 250), "min {}", px.iter().min().unwrap());
}
