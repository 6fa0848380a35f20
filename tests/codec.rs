use image_bmp::decoder::decode;
use image_bmp::encoder::{encode, encode_indexed};
use image_bmp::pixels::channel_bytes;
use image_bmp::error::ImageError;
use image_bmp::header::{exceeds_ceiling, parse_header, Compression};
use image_bmp::pixels::{channel_of, extract_channel, Pixel};
use image_bmp::rle::rle_decode;

fn px(r: u8, g: u8, b: u8) -> Pixel {
    Pixel { r, g, b, a: 255 }
}

fn le32(v: u32) -> [u8; 4] {
    v.to_le_bytes()
}

/// A stream with the forty-byte information header.
fn bmp(width: i32, height: i32, bpp: u16, compression: u32, colors: u32, palette: &[[u8; 4]], data: &[u8]) -> Vec<u8> {
    let offset = 54 + 4 * palette.len() as u32;
    let mut out = vec![0x42, 0x4D];
    out.extend_from_slice(&le32(offset + data.len() as u32));
    out.extend_from_slice(&[0, 0, 0, 0]);
    out.extend_from_slice(&le32(offset));
    out.extend_from_slice(&le32(40));
    out.extend_from_slice(&width.to_le_bytes());
    out.extend_from_slice(&height.to_le_bytes());
    out.extend_from_slice(&1u16.to_le_bytes());
    out.extend_from_slice(&bpp.to_le_bytes());
    out.extend_from_slice(&le32(compression));
    out.extend_from_slice(&le32(data.len() as u32));
    out.extend_from_slice(&le32(2835));
    out.extend_from_slice(&le32(2835));
    out.extend_from_slice(&le32(colors));
    out.extend_from_slice(&le32(0));
    for e in palette {
        out.extend_from_slice(e);
    }
    out.extend_from_slice(data);
    out
}

fn is_format(r: &Result<image_bmp::decoder::DecodedImage, ImageError>) -> bool {
    matches!(r, Err(ImageError::FormatError(_)))
}

fn is_unsupported(r: &Result<image_bmp::decoder::DecodedImage, ImageError>) -> bool {
    matches!(r, Err(ImageError::UnsupportedError(_)))
}

#[test]
fn encode_writes_exact_header_and_padding() {
    let pixels = vec![px(1, 2, 3), px(4, 5, 6), px(7, 8, 9), px(10, 11, 12), px(13, 14, 15), px(16, 17, 18)];
    let bytes = encode(3, 2, &pixels, 24).unwrap();
    assert_eq!(bytes.len(), 54 + 2 * 12);
    assert_eq!(&bytes[0..2], b"BM");
    assert_eq!(&bytes[2..6], &le32(78));
    assert_eq!(&bytes[10..14], &le32(54));
    assert_eq!(&bytes[14..18], &le32(40));
    assert_eq!(&bytes[18..22], &le32(3));
    assert_eq!(&bytes[22..26], &le32(2));
    assert_eq!(&bytes[28..30], &24u16.to_le_bytes());
    // Bottom row first, blue-green-red, padded to twelve bytes.
    assert_eq!(&bytes[54..66], &[12, 11, 10, 15, 14, 13, 18, 17, 16, 0, 0, 0]);
    assert_eq!(&bytes[66..78], &[3, 2, 1, 6, 5, 4, 9, 8, 7, 0, 0, 0]);
}

#[test]
fn round_trip_24() {
    let pixels: Vec<Pixel> = (0..35u8).map(|i| px(i, i.wrapping_mul(7), 255 - i)).collect();
    let bytes = encode(7, 5, &pixels, 24).unwrap();
    let img = decode(&bytes).unwrap();
    assert_eq!(img.descriptor.width, 7);
    assert_eq!(img.descriptor.height, 5);
    assert_eq!(img.pixels, pixels);
    let again = decode(&encode(7, 5, &img.pixels, 24).unwrap()).unwrap();
    assert_eq!(again.pixels, img.pixels);
}

#[test]
fn round_trip_32_drops_alpha() {
    let pixels = vec![Pixel { r: 1, g: 2, b: 3, a: 4 }, px(5, 6, 7)];
    let bytes = encode(2, 1, &pixels, 32).unwrap();
    assert_eq!(&bytes[54..62], &[3, 2, 1, 4, 7, 6, 5, 255]);
    let img = decode(&bytes).unwrap();
    assert_eq!(img.pixels, vec![px(1, 2, 3), px(5, 6, 7)]);
}

#[test]
fn encode_rejects_bad_input() {
    let pixels = vec![px(0, 0, 0); 4];
    assert!(matches!(encode(2, 2, &pixels, 8), Err(ImageError::FormatError(_))));
    assert!(matches!(encode(3, 2, &pixels, 24), Err(ImageError::FormatError(_))));
    assert!(matches!(encode(0, 2, &pixels, 24), Err(ImageError::FormatError(_))));
    assert!(matches!(encode(65536, 65536, &pixels, 24), Err(ImageError::FormatError(_))));
}

fn check_single_colour(bytes: &[u8], w: usize, h: usize, colour: Pixel) {
    let img = decode(bytes).unwrap();
    assert_eq!(img.pixels.len(), w * h);
    assert!(img.pixels.iter().all(|p| *p == colour));
}

#[test]
fn single_colour_every_depth() {
    let (w, h) = (5usize, 3usize);
    let c = px(200, 100, 50);
    let entry = [50, 100, 200, 0];
    // 1 bit: index 1 everywhere; 5 bits use one byte, padded to four.
    let row1 = [0b1111_1000, 0, 0, 0];
    let data1: Vec<u8> = row1.iter().cycle().take(4 * h).cloned().collect();
    check_single_colour(&bmp(5, 3, 1, 0, 2, &[[0, 0, 0, 0], entry], &data1), w, h, c);
    // 4 bits: index 2 everywhere.
    let row4 = [0x22, 0x22, 0x20, 0];
    let data4: Vec<u8> = row4.iter().cycle().take(4 * h).cloned().collect();
    check_single_colour(&bmp(5, 3, 4, 0, 3, &[[0, 0, 0, 0], [1, 1, 1, 0], entry], &data4), w, h, c);
    // 8 bits: index 0 everywhere.
    let row8 = [0, 0, 0, 0, 0, 0, 0, 0];
    let data8: Vec<u8> = row8.iter().cycle().take(8 * h).cloned().collect();
    check_single_colour(&bmp(5, 3, 8, 0, 1, &[entry], &data8), w, h, c);
    // 16 bits, five bits per channel: 31,31,31 becomes 248 in each channel.
    let mut data16 = Vec::new();
    for _ in 0..h {
        for _ in 0..w {
            data16.extend_from_slice(&0x7FFFu16.to_le_bytes());
        }
        data16.extend_from_slice(&[0, 0]);
    }
    check_single_colour(&bmp(5, 3, 16, 0, 0, &[], &data16), w, h, px(248, 248, 248));
    // 24 bits.
    let mut data24 = Vec::new();
    for _ in 0..h {
        for _ in 0..w {
            data24.extend_from_slice(&[50, 100, 200]);
        }
        data24.push(0);
    }
    check_single_colour(&bmp(5, 3, 24, 0, 0, &[], &data24), w, h, c);
    // 32 bits: blue, green, red and an ignored byte.
    let data32: Vec<u8> = [50u8, 100, 200, 9].iter().cycle().take(4 * w * h).cloned().collect();
    check_single_colour(&bmp(5, 3, 32, 0, 0, &[], &data32), w, h, c);
}

#[test]
fn bitfields_565() {
    let mut s = bmp(2, 1, 16, 3, 0, &[], &[]);
    s.truncate(54);
    s.extend_from_slice(&le32(0xF800));
    s.extend_from_slice(&le32(0x07E0));
    s.extend_from_slice(&le32(0x001F));
    s.extend_from_slice(&[0xFF, 0xFF, 0x1F, 0x00]);
    s[10..14].copy_from_slice(&le32(66));
    let img = decode(&s).unwrap();
    assert_eq!(img.pixels, vec![px(248, 252, 248), px(0, 0, 248)]);
}

#[test]
fn bitfields_32_with_alpha() {
    let mut s = bmp(1, 1, 32, 3, 0, &[], &[]);
    s[14..18].copy_from_slice(&le32(56));
    s.truncate(54);
    s.extend_from_slice(&le32(0x00FF_0000));
    s.extend_from_slice(&le32(0x0000_FF00));
    s.extend_from_slice(&le32(0x0000_00FF));
    s.extend_from_slice(&le32(0xFF00_0000));
    s[10..14].copy_from_slice(&le32(70));
    s.extend_from_slice(&[1, 2, 3, 4]);
    let img = decode(&s).unwrap();
    assert_eq!(img.pixels, vec![Pixel { r: 3, g: 2, b: 1, a: 4 }]);
}

#[test]
fn channel_scaling() {
    let c = channel_of(0x0000_0F00);
    assert_eq!((c.shift, c.width), (8, 4));
    assert_eq!(extract_channel(0x0000_0A00, c), 0xA0);
    let wide = channel_of(0x003F_F000);
    assert_eq!((wide.shift, wide.width), (12, 10));
    assert_eq!(extract_channel(0x003F_F000, wide), 255);
    let none = channel_of(0);
    assert_eq!(extract_channel(0xFFFF_FFFF, none), 0);
}

#[test]
fn oversized_header_rejected() {
    // 65536 by 32768 pixels at four bytes each is 8 GiB; the file is tiny.
    let s = bmp(65536, 32768, 24, 0, 0, &[], &[]);
    assert!(is_format(&decode(&s)));
    assert!(matches!(parse_header(&s), Err(ImageError::FormatError(_))));
    let mut s2 = s.clone();
    s2[2..6].copy_from_slice(&le32(u32::MAX));
    assert!(is_format(&decode(&s2)));
}

#[test]
fn rle_end_of_bitmap_on_empty_image() {
    let out = rle_decode(&[0, 1], 0, 0, 1, false).unwrap();
    assert!(out.is_empty());
    let out = rle_decode(&[0, 1], 0, 4, 0, true).unwrap();
    assert!(out.is_empty());
}

#[test]
fn rle_early_end_of_bitmap_rejected() {
    assert!(matches!(rle_decode(&[0, 1], 0, 2, 2, false), Err(ImageError::FormatError(_))));
    assert!(matches!(rle_decode(&[2, 5, 0, 0, 0, 1], 0, 2, 2, false), Err(ImageError::FormatError(_))));
}

#[test]
fn rle8_runs_literals_and_delta() {
    // Row 0: run of 2 of index 1, literal 3 (padded), end of line; row 1: delta (2, 0), run of 3.
    let data = [2, 1, 0, 3, 4, 5, 6, 0, 0, 0, 0, 2, 2, 0, 3, 7];
    let out = rle_decode(&data, 0, 5, 2, false).unwrap();
    assert_eq!(out, vec![1, 1, 4, 5, 6, 0, 0, 7, 7, 7]);
}

#[test]
fn rle4_nibbles() {
    // Run of 3 from 0x12 gives 1,2,1; literal of 3 nibbles 3,4,5 in two bytes, padded to even.
    let data = [3, 0x12, 0, 3, 0x34, 0x50];
    let out = rle_decode(&data, 0, 6, 1, true).unwrap();
    assert_eq!(out, vec![1, 2, 1, 3, 4, 5]);
}

#[test]
fn rle_errors() {
    // Run longer than the row.
    assert!(matches!(rle_decode(&[3, 1], 0, 2, 1, false), Err(ImageError::FormatError(_))));
    // Stream ends before the image does.
    assert!(matches!(rle_decode(&[1, 1], 0, 2, 1, false), Err(ImageError::FormatError(_))));
    // Literal whose bytes are missing.
    assert!(matches!(rle_decode(&[0, 4, 1], 0, 4, 1, false), Err(ImageError::FormatError(_))));
    // Delta past the bottom of the image.
    assert!(matches!(rle_decode(&[0, 2, 0, 5], 0, 2, 2, false), Err(ImageError::FormatError(_))));
}

#[test]
fn rle8_image_through_palette() {
    let data = [2, 1, 0, 0, 1, 0, 1, 1, 0, 1];
    let pal = [[0, 0, 0, 0], [10, 20, 30, 0]];
    let s = bmp(2, 2, 8, 1, 2, &pal, &data);
    let img = decode(&s).unwrap();
    assert_eq!(img.descriptor.compression, Compression::Rle8);
    // Stored bottom row first: bottom = [1, 1], top = [0, 1].
    assert_eq!(img.pixels, vec![px(0, 0, 0), px(30, 20, 10), px(30, 20, 10), px(30, 20, 10)]);
}

#[test]
fn row_order_follows_height_sign() {
    let red = [0u8, 0, 255, 0];
    let blue = [255u8, 0, 0, 0];
    // First stored row red, second blue; one pixel each, padded to four bytes.
    let data: Vec<u8> = red.iter().chain(blue.iter()).cloned().collect();
    let up = decode(&bmp(1, 2, 24, 0, 0, &[], &data)).unwrap();
    assert_eq!(up.pixels, vec![px(0, 0, 255), px(255, 0, 0)]);
    assert!(!up.descriptor.top_down);
    let down = decode(&bmp(1, -2, 24, 0, 0, &[], &data)).unwrap();
    assert_eq!(down.pixels, vec![px(255, 0, 0), px(0, 0, 255)]);
    assert!(down.descriptor.top_down);
    assert_eq!(down.descriptor.height, 2);
}

#[test]
fn palette_index_past_end_rejected() {
    let pal = [[1, 2, 3, 0], [4, 5, 6, 0]];
    let s = bmp(2, 1, 8, 0, 2, &pal, &[1, 2, 0, 0]);
    assert!(is_format(&decode(&s)));
    let ok = bmp(2, 1, 8, 0, 2, &pal, &[1, 0, 0, 0]);
    assert_eq!(decode(&ok).unwrap().pixels, vec![px(6, 5, 4), px(3, 2, 1)]);
    // Compressed data is held to the colour table too.
    let rle = bmp(1, 1, 8, 1, 2, &pal, &[1, 9, 0, 1]);
    assert!(is_format(&decode(&rle)));
}

#[test]
fn header_errors() {
    let good = bmp(1, 1, 24, 0, 0, &[], &[1, 2, 3, 0]);
    assert!(decode(&good).is_ok());
    let mut sig = good.clone();
    sig[0] = b'X';
    assert!(is_format(&decode(&sig)));
    assert!(is_format(&decode(&good[0..10])));
    let mut unknown = good.clone();
    unknown[14..18].copy_from_slice(&le32(64));
    assert!(is_unsupported(&decode(&unknown)));
    let mut jpeg = good.clone();
    jpeg[30..34].copy_from_slice(&le32(4));
    assert!(is_unsupported(&decode(&jpeg)));
    let mut rle_wrong_depth = good.clone();
    rle_wrong_depth[30..34].copy_from_slice(&le32(1));
    assert!(is_format(&decode(&rle_wrong_depth)));
    let mut bad_bpp = good.clone();
    bad_bpp[28..30].copy_from_slice(&2u16.to_le_bytes());
    assert!(is_format(&decode(&bad_bpp)));
    assert!(is_format(&decode(&bmp(0, 1, 24, 0, 0, &[], &[]))));
    assert!(is_format(&decode(&bmp(1, 0, 24, 0, 0, &[], &[]))));
    assert!(is_format(&decode(&bmp(1, i32::MIN, 24, 0, 0, &[], &[]))));
    // Too many colour table entries for the depth.
    assert!(is_format(&decode(&bmp(1, 1, 1, 0, 3, &[], &[0, 0, 0, 0]))));
    // Pixel data cut short.
    assert!(is_format(&decode(&good[0..56])));
    // Colour table cut short.
    let short_pal = bmp(1, 1, 8, 0, 4, &[[0, 0, 0, 0]], &[]);
    assert!(is_format(&decode(&short_pal)));
}

#[test]
fn core_header_with_three_byte_palette() {
    let mut s = vec![0x42, 0x4D];
    s.extend_from_slice(&le32(0));
    s.extend_from_slice(&[0, 0, 0, 0]);
    s.extend_from_slice(&le32(32));
    s.extend_from_slice(&le32(12));
    s.extend_from_slice(&3u16.to_le_bytes());
    s.extend_from_slice(&1u16.to_le_bytes());
    s.extend_from_slice(&1u16.to_le_bytes());
    s.extend_from_slice(&1u16.to_le_bytes());
    s.extend_from_slice(&[1, 2, 3, 4, 5, 6]);
    s.extend_from_slice(&[0b0100_0000, 0, 0, 0]);
    let img = decode(&s).unwrap();
    assert_eq!(img.descriptor.palette_len, 2);
    assert_eq!(img.descriptor.palette_entry_size, 3);
    assert_eq!(img.pixels, vec![px(3, 2, 1), px(6, 5, 4), px(3, 2, 1)]);
}

#[test]
fn io_error_converts() {
    let e: ImageError = std::io::Error::new(std::io::ErrorKind::Other, "gone").into();
    assert!(matches!(e, ImageError::IoError(_)));
}

#[test]
fn encode_indexed_one_bit_exact() {
    let black = px(0, 0, 0);
    let white = px(255, 255, 255);
    let pixels = vec![white, black, white, black, black, white, black, black, white];
    let bytes = encode_indexed(9, 1, &pixels, 1, &vec![black, white]).unwrap();
    assert_eq!(bytes.len(), 54 + 8 + 4);
    assert_eq!(&bytes[10..14], &le32(62));
    assert_eq!(&bytes[46..50], &le32(2));
    assert_eq!(&bytes[54..62], &[0, 0, 0, 0, 255, 255, 255, 0]);
    assert_eq!(&bytes[62..66], &[0b1010_0100, 0b1000_0000, 0, 0]);
    assert_eq!(decode(&bytes).unwrap().pixels, pixels);
}

#[test]
fn encode_indexed_round_trips() {
    let pal: Vec<Pixel> = (0..16u8).map(|i| px(i * 16, 255 - i, i)).collect();
    let pixels: Vec<Pixel> = (0..21usize).map(|k| pal[(k * 5) % 16]).collect();
    for bpp in [4u16, 8] {
        let bytes = encode_indexed(7, 3, &pixels, bpp, &pal).unwrap();
        let img = decode(&bytes).unwrap();
        assert_eq!(img.descriptor.bits_per_pixel, bpp);
        assert_eq!(img.pixels, pixels);
    }
}

#[test]
fn encode_indexed_errors() {
    let pal = vec![px(1, 1, 1), px(2, 2, 2), px(3, 3, 3)];
    let pixels = vec![px(1, 1, 1), px(9, 9, 9)];
    assert!(matches!(encode_indexed(2, 1, &pixels, 8, &pal), Err(ImageError::FormatError(_))));
    let fine = vec![px(1, 1, 1), px(3, 3, 3)];
    assert!(encode_indexed(2, 1, &fine, 8, &pal).is_ok());
    assert!(matches!(encode_indexed(2, 1, &fine, 1, &pal), Err(ImageError::FormatError(_))));
    assert!(matches!(encode_indexed(2, 1, &fine, 24, &pal), Err(ImageError::FormatError(_))));
    assert!(matches!(encode_indexed(2, 1, &fine, 8, &vec![]), Err(ImageError::FormatError(_))));
}

#[test]
fn flattened_channels() {
    let pixels = vec![Pixel { r: 1, g: 2, b: 3, a: 4 }, px(5, 6, 7)];
    assert_eq!(channel_bytes(&pixels, false), vec![1, 2, 3, 5, 6, 7]);
    assert_eq!(channel_bytes(&pixels, true), vec![1, 2, 3, 4, 5, 6, 7, 255]);
}

#[test]
fn ceiling_boundary() {
    assert!(!exceeds_ceiling(16384, 16384));
    assert!(exceeds_ceiling(16385, 16384));
    assert!(exceeds_ceiling(u32::MAX, u32::MAX));
    assert!(!exceeds_ceiling(1, 1));
    // At the ceiling the header itself is accepted; the missing pixel data is reported.
    let s = bmp(16384, 16384, 24, 0, 0, &[], &[]);
    let d = parse_header(&s).unwrap();
    assert_eq!((d.width, d.height), (16384, 16384));
    assert!(is_format(&decode(&s)));
}

#[test]
fn header_fields_normalised() {
    let mut s = bmp(3, -4, 8, 0, 0, &[], &[]);
    s[10..14].copy_from_slice(&le32(1078));
    let d = parse_header(&s).unwrap();
    assert_eq!(d.width, 3);
    assert_eq!(d.height, 4);
    assert!(d.top_down);
    assert_eq!(d.palette_len, 256);
    assert_eq!(d.palette_offset, 54);
    assert_eq!(d.data_offset, 1078);
    assert_eq!(d.compression, Compression::Uncompressed);
    let s16 = bmp(1, 1, 16, 0, 0, &[], &[]);
    let d16 = parse_header(&s16).unwrap();
    assert_eq!((d16.red_mask, d16.green_mask, d16.blue_mask, d16.alpha_mask), (0x7C00, 0x03E0, 0x001F, 0));
}
