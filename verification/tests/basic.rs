use tiny_jpeg::encode_to_buffer;
use tiny_jpeg::Quality;

/// Byte offset of the entropy-coded data in every file the encoder
/// produces: SOI+APP0+COM (52) + 2 DQT (69 each) + SOF0 (19) + 2 DC DHT
/// (33 each) + 2 AC DHT (183 each) + SOS (14).
const HEADER_LEN: usize = 52 + 69 + 69 + 19 + 33 + 183 + 33 + 183 + 14;

fn check_file_shape(f: &[u8]) {
    assert!(f.len() >= HEADER_LEN + 2);
    assert_eq!(&f[0..2], &[0xff, 0xd8]);
    assert_eq!(&f[f.len() - 2..], &[0xff, 0xd9]);
    // Walk the marker segments up to SOS and check each DHT length
    // against the sum of its BITS array.
    let mut i = 2;
    loop {
        assert_eq!(f[i], 0xff, "expected a marker at {}", i);
        let m = f[i + 1];
        let len = ((f[i + 2] as usize) << 8) | (f[i + 3] as usize);
        if m == 0xc4 {
            let bits = &f[i + 5..i + 21];
            let total: usize = bits.iter().map(|&b| b as usize).sum();
            assert_eq!(len, 19 + total, "DHT length inconsistent with BITS");
        }
        if m == 0xda {
            i += 2 + len;
            break;
        }
        i += 2 + len;
    }
    assert_eq!(i, HEADER_LEN);
    // Within the entropy-coded segment every 0xFF is followed by 0x00.
    let mut j = HEADER_LEN;
    while j < f.len() - 2 {
        if f[j] == 0xff {
            assert_eq!(f[j + 1], 0x00, "unstuffed 0xFF at {}", j);
            j += 2;
        } else {
            j += 1;
        }
    }
}

#[test]
fn white_texture() {
    const W: i32 = 4000;
    const H: i32 = 2000;
    const C: i32 = 4;
    let data = vec![255u8; (W * H * C) as usize];
    let out = encode_to_buffer(Quality::Highest, W, H, C, &data);
    check_file_shape(&out);
}

#[test]
fn starts_and_ends_with_markers() {
    let data = vec![17u8; 5 * 4 * 3];
    let out = encode_to_buffer(Quality::Medium, 5, 4, 3, &data);
    check_file_shape(&out);
}

#[test]
fn header_declares_dimensions() {
    // SOF0 starts right after SOI+APP0+COM and the two DQT segments;
    // height is at offset +5, width at offset +7 inside the segment.
    let data = vec![0u8; 300 * 123 * 3];
    let out = encode_to_buffer(Quality::High, 300, 123, 3, &data);
    let sof = 52 + 69 + 69;
    assert_eq!(&out[sof..sof + 2], &[0xff, 0xc0]);
    assert_eq!(out[sof + 5] as usize * 256 + out[sof + 6] as usize, 123);
    assert_eq!(out[sof + 7] as usize * 256 + out[sof + 8] as usize, 300);
}

#[test]
fn one_pixel_tall_and_wide_are_valid() {
    let tall = vec![99u8; 1 * 9 * 3];
    let out = encode_to_buffer(Quality::Highest, 1, 9, 3, &tall);
    check_file_shape(&out);
    let wide = vec![99u8; 9 * 1 * 3];
    let out = encode_to_buffer(Quality::Highest, 9, 1, 3, &wide);
    check_file_shape(&out);
}

#[test]
fn alpha_channel_is_ignored() {
    const W: usize = 16;
    const H: usize = 16;
    let mut rgb = Vec::with_capacity(W * H * 3);
    let mut rgba = Vec::with_capacity(W * H * 4);
    for p in 0..W * H {
        let r = ((p * 7) % 256) as u8;
        let g = ((p * 13 + 40) % 256) as u8;
        let b = ((p * 29 + 90) % 256) as u8;
        rgb.push(r);
        rgb.push(g);
        rgb.push(b);
        rgba.push(r);
        rgba.push(g);
        rgba.push(b);
        rgba.push(0);
    }
    let out3 = encode_to_buffer(Quality::Medium, W as i32, H as i32, 3, &rgb);
    let out4 = encode_to_buffer(Quality::Medium, W as i32, H as i32, 4, &rgba);
    assert_eq!(out3, out4);
}

#[test]
fn quantization_tables_follow_quality() {
    // The first DQT segment starts right after the 52 fixed bytes; its
    // 64 table bytes begin 5 bytes into the segment.
    let data = vec![128u8; 8 * 8 * 3];
    let luma_base_first_row = [16u8, 11, 10, 16, 24, 40, 51, 61];

    let highest = encode_to_buffer(Quality::Highest, 8, 8, 3, &data);
    assert!(highest[52 + 5..52 + 5 + 64].iter().all(|&q| q == 1));

    let medium = encode_to_buffer(Quality::Medium, 8, 8, 3, &data);
    assert_eq!(&medium[52 + 5..52 + 5 + 8], &luma_base_first_row);

    let high = encode_to_buffer(Quality::High, 8, 8, 3, &data);
    let divided: Vec<u8> = luma_base_first_row.iter().map(|&q| q / 10).collect();
    assert_eq!(&high[52 + 5..52 + 5 + 8], &divided[..]);
}

#[test]
fn expanded_tables_satisfy_kraft_inequality() {
    let (ldc, lac, cdc, cac) = tiny_jpeg::huffman::huff_expand();
    let sum = |t: &tiny_jpeg::huffman::HuffTable| -> u64 {
        let mut s = 0u64;
        for v in 0..256 {
            let size = t.size[v];
            if size != 0 {
                assert!(size <= 16);
                s += 1u64 << (16 - size as u32);
            }
        }
        s
    };
    // None of the default tables is a complete code: all sums fall short
    // of 2^16.
    assert_eq!(sum(&ldc), 65408);
    assert_eq!(sum(&cdc), 65504);
    assert_eq!(sum(&lac), 65535);
    assert_eq!(sum(&cac), 65535);
    assert!(sum(&ldc) <= 65536);
    assert!(sum(&cdc) <= 65536);
    assert!(sum(&lac) <= 65536);
    assert!(sum(&cac) <= 65536);
}

#[test]
fn canonical_dc_codes() {
    let (ldc, _, _, _) = tiny_jpeg::huffman::huff_expand();
    // Category 0 is the single 2-bit code 00; categories 1..=5 are the
    // 3-bit codes 010..110; category 11 is the all-ones-but-last 9-bit
    // code.
    assert_eq!((ldc.size[0], ldc.code[0]), (2, 0b00));
    assert_eq!((ldc.size[1], ldc.code[1]), (3, 0b010));
    assert_eq!((ldc.size[5], ldc.code[5]), (3, 0b110));
    assert_eq!((ldc.size[6], ldc.code[6]), (4, 0b1110));
    assert_eq!((ldc.size[11], ldc.code[11]), (9, 0b111111110));
}

#[test]
fn variable_length_int_categories() {
    let vli = tiny_jpeg::encoder::calculate_variable_length_int;
    assert_eq!(vli(1), (1, 1));
    assert_eq!(vli(-1), (0, 1));
    assert_eq!(vli(2), (2, 2));
    assert_eq!(vli(3), (3, 2));
    assert_eq!(vli(-2), (1, 2));
    assert_eq!(vli(-3), (0, 2));
    assert_eq!(vli(255), (255, 8));
    assert_eq!(vli(-255), (0, 8));
    assert_eq!(vli(1023), (1023, 10));
    assert_eq!(vli(-1024), (1023, 11));
}

#[test]
fn zig_zag_tables_are_inverse() {
    let zz = tiny_jpeg::tables::zig_zag_table();
    let inv = tiny_jpeg::dct::inv_zig_zag_table();
    for i in 0..64 {
        assert_eq!(zz[inv[i] as usize] as usize, i);
        assert_eq!(inv[zz[i] as usize] as usize, i);
    }
}

#[test]
fn bit_writer_stuffs_ff_bytes() {
    let mut bw = tiny_jpeg::bitwriter::BitWriter::new(Vec::new());
    bw.append_bits(8, 0xff);
    bw.append_bits(4, 0x0a);
    bw.pad_to_byte();
    let out = bw.into_bytes();
    // The 0xFF byte is stuffed; the 4 pending bits are zero-padded.
    assert_eq!(out, vec![0xff, 0x00, 0xa0]);
}
