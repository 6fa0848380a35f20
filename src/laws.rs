//! Laws that relate the decoder, the encoder and the decompressor.
use vstd::prelude::*;
use crate::bytes::{le32, le32_signed, le16_bytes, le32_bytes, lemma_le32_round_trip, lemma_le16_round_trip};
use crate::error::ErrorKind;
use crate::header::{
    Compression, ImageDescriptor, header_spec, info_header, row_stride, within_ceiling,
    lemma_header_valid, known_info_len,
};
use crate::pixels::{Pixel, palette_spec, palette_present, direct_pixel};
use crate::decoder::{
    decode_spec, indices_spec, rows_present, resolved, all_resolved, image_of, stride_of, row_start,
    stored_row, stored_pixel, stored_index,
};
use crate::rle::{RleOp, op_at, rle_from, rle_spec};
use crate::encoder::{encode_spec, header_bytes, pixel_bytes, row_byte, pixel_byte, encodable};

verus! {

/// The descriptor that the decoder reads from what the encoder writes at 24 bits per pixel.
pub open spec fn encoded_descriptor(width: nat, height: nat) -> ImageDescriptor {
    ImageDescriptor {
        width: width as u32,
        height: height as u32,
        top_down: false,
        bits_per_pixel: 24,
        compression: Compression::Uncompressed,
        palette_len: 0,
        palette_entry_size: 4,
        palette_offset: 54,
        data_offset: 54,
        red_mask: 0,
        green_mask: 0,
        blue_mask: 0,
        alpha_mask: 0,
    }
}

#[verifier::rlimit(40)]
proof fn lemma_encoded_header(width: nat, height: nat, pixels: Seq<Pixel>)
    requires
        encodable(width, height, pixels, 24),
    ensures
        header_spec(encode_spec(width, height, pixels, 24)) == Ok::<ImageDescriptor, ErrorKind>(encoded_descriptor(width, height)),
        encode_spec(width, height, pixels, 24).len() == 54 + height * row_stride(width, 24),
{
    let s = encode_spec(width, height, pixels, 24);
    let hb = header_bytes(width, height, 24, 0);
    let size = height * row_stride(width, 24);
    assert(width <= width * height && height <= width * height) by (nonlinear_arith)
        requires height >= 1, width >= 1;
    assert(row_stride(width, 24) <= 3 * width + 4);
    assert(size <= height * (3 * width + 4)) by (nonlinear_arith)
        requires size == height * row_stride(width, 24), row_stride(width, 24) <= 3 * width + 4;
    assert(height * (3 * width + 4) == 3 * (width * height) + 4 * height) by (nonlinear_arith);
    assert(hb.len() == 54);
    assert forall|i: int| 0 <= i < 54 implies s[i] == hb[i] by {}
    assert(s[0] == 0x42u8);
    assert(s[1] == 0x4Du8);
    assert(s.subrange(10, 14) =~= le32_bytes(54));
    lemma_le32_round_trip(s, 10, 54);
    assert(s.subrange(14, 18) =~= le32_bytes(40));
    lemma_le32_round_trip(s, 14, 40);
    assert(s.subrange(18, 22) =~= le32_bytes(width));
    lemma_le32_round_trip(s, 18, width);
    assert(s.subrange(22, 26) =~= le32_bytes(height));
    lemma_le32_round_trip(s, 22, height);
    assert(s.subrange(28, 30) =~= le16_bytes(24));
    lemma_le16_round_trip(s, 28, 24);
    assert(s.subrange(30, 34) =~= le32_bytes(0));
    lemma_le32_round_trip(s, 30, 0);
    assert(s.subrange(46, 50) =~= le32_bytes(0));
    lemma_le32_round_trip(s, 46, 0);
    assert(le32_signed(s, 18) == width);
    assert(le32_signed(s, 22) == height);
    assert(info_header(s) == Ok::<ImageDescriptor, ErrorKind>(encoded_descriptor(width, height)));
}

proof fn lemma_encoded_byte(width: nat, height: nat, pixels: Seq<Pixel>, t: int, x: int, c: int)
    requires
        encodable(width, height, pixels, 24),
        0 <= t < height,
        0 <= x < width,
        0 <= c < 3,
    ensures
        0 <= t * width + x < width * height,
        encode_spec(width, height, pixels, 24)[54 + (height - 1 - t) * row_stride(width, 24) + 3 * x + c]
            == pixel_byte(pixels[t * width + x], c),
{
    let s = encode_spec(width, height, pixels, 24);
    let stride = row_stride(width, 24);
    let r = height - 1 - t;
    let j = 3 * x + c;
    let i = r * stride + j;
    assert(width * 24 == 24 * width) by (nonlinear_arith);
    assert(j < stride);
    assert(0 <= i < height * stride) by (nonlinear_arith)
        requires i == r * stride + j, 0 <= r < height, 0 <= j < stride;
    assert(t * width + x < width * height) by (nonlinear_arith)
        requires 0 <= t < height, 0 <= x < width;
    assert(0 <= t * width) by (nonlinear_arith)
        requires 0 <= t, 0 <= width;
    vstd::arithmetic::div_mod::lemma_fundamental_div_mod_converse(i, stride as int, r, j);
    vstd::arithmetic::div_mod::lemma_fundamental_div_mod_converse(j, 3, x, c);
    let body = pixel_bytes(width, height, pixels, 24);
    assert(s[54 + i] == body[i]);
    assert(body[i] == row_byte(width, height, pixels, 24, r, j));
    assert(j < width * 3);
}

/// Encoding an opaque pixel buffer at 24 bits per pixel and decoding the
/// stream gives back the same pixels.
pub proof fn lemma_encode_decode_24(width: nat, height: nat, pixels: Seq<Pixel>)
    requires
        encodable(width, height, pixels, 24),
        forall|i: int| 0 <= i < pixels.len() ==> (#[trigger] pixels[i]).a == 255,
    ensures
        decode_spec(encode_spec(width, height, pixels, 24))
            == Ok::<(ImageDescriptor, Seq<Pixel>), ErrorKind>((encoded_descriptor(width, height), pixels)),
{
    let s = encode_spec(width, height, pixels, 24);
    let d = encoded_descriptor(width, height);
    lemma_encoded_header(width, height, pixels);
    assert(width <= width * height && height <= width * height) by (nonlinear_arith)
        requires height >= 1, width >= 1;
    assert(d.width == width && d.height == height);
    assert(palette_present(s, d));
    let pal = palette_spec(s, d);
    assert(stride_of(d) == row_stride(width, 24));
    assert(rows_present(s, d));
    assert(indices_spec(s, d) == Ok::<Seq<u8>, ErrorKind>(Seq::empty()));
    let idx = Seq::<u8>::empty();
    assert(all_resolved(s, d, pal, idx));
    let img = image_of(s, d, pal, idx);
    assert forall|k: int| 0 <= k < width * height implies img[k] == pixels[k] by {
        let t = k / width as int;
        let x = k % width as int;
        vstd::arithmetic::div_mod::lemma_fundamental_div_mod(k, width as int);
        assert(k == width * t + x);
        assert(t * width == width * t) by (nonlinear_arith);
        assert(0 <= t < height) by (nonlinear_arith)
            requires k == width * t + x, 0 <= x < width, 0 <= k < width * height;
        lemma_encoded_byte(width, height, pixels, t, x, 0);
        lemma_encoded_byte(width, height, pixels, t, x, 1);
        lemma_encoded_byte(width, height, pixels, t, x, 2);
        assert(stored_row(d, t) == height - 1 - t);
        assert(row_start(d, stored_row(d, t)) == 54 + (height - 1 - t) * row_stride(width, 24));
        assert(img[k] == direct_pixel(s, d, row_start(d, stored_row(d, t)), x));
    }
    assert(img =~= pixels);
}

/// Decoding an uncompressed 24-bit image, encoding its pixels at 24 bits per
/// pixel and decoding that stream gives the same pixels again.
pub proof fn lemma_round_trip_24(s: Seq<u8>)
    requires
        decode_spec(s) is Ok,
        decode_spec(s)->Ok_0.0.bits_per_pixel == 24,
    ensures
        ({
            let (d, px) = decode_spec(s)->Ok_0;
            decode_spec(encode_spec(d.width as nat, d.height as nat, px, 24))
                == Ok::<(ImageDescriptor, Seq<Pixel>), ErrorKind>((encoded_descriptor(d.width as nat, d.height as nat), px))
        }),
{
    let (d, px) = decode_spec(s)->Ok_0;
    lemma_header_valid(s);
    let pal = palette_spec(s, d);
    let idx = indices_spec(s, d)->Ok_0;
    assert forall|i: int| 0 <= i < px.len() implies (#[trigger] px[i]).a == 255 by {
        let w = d.width as int;
        assert(px[i] == resolved(s, d, pal, idx, i / w, i % w)->Some_0);
    }
    lemma_encode_decode_24(d.width as nat, d.height as nat, px);
}

/// A header whose width and height ask for more pixel memory than the ceiling
/// allows makes decoding fail with a format error, whatever the file size
/// field and the rest of the stream say. Only a compression code that is not
/// handled at all is reported first, as unsupported.
pub proof fn lemma_oversized_header_rejected(s: Seq<u8>)
    requires
        s.len() >= 54,
        s[0] == 0x42 && s[1] == 0x4D,
        known_info_len(le32(s, 14)) && le32(s, 14) != 12,
        s.len() >= 14 + le32(s, 14),
        le32(s, 30) <= 3,
        le32_signed(s, 18) > 0,
        le32_signed(s, 22) != 0 && le32_signed(s, 22) != -0x8000_0000,
        !within_ceiling(le32_signed(s, 18) as nat,
            (if le32_signed(s, 22) < 0 { -le32_signed(s, 22) } else { le32_signed(s, 22) }) as nat),
    ensures
        decode_spec(s) == Err::<(ImageDescriptor, Seq<Pixel>), ErrorKind>(ErrorKind::Format),
{
}

/// Every header that the parser accepts keeps its pixel memory under the ceiling.
pub proof fn lemma_accepted_header_within_ceiling(s: Seq<u8>)
    requires
        header_spec(s) is Ok,
    ensures
        within_ceiling(header_spec(s)->Ok_0.width as nat, header_spec(s)->Ok_0.height as nat),
{
    lemma_header_valid(s);
}

/// An image without pixels decompresses to nothing, whatever the stream holds.
pub proof fn lemma_rle_empty_image(s: Seq<u8>, start: int, w: int, h: int, four: bool)
    requires
        w * h == 0,
    ensures
        rle_spec(s, start, w, h, four) == Ok::<Seq<u8>, ErrorKind>(Seq::empty()),
{
    assert(Seq::new((w * h) as nat, |i: int| 0u8) =~= Seq::<u8>::empty());
}

/// An end-of-bitmap marker ends decompression cleanly once all `w * h` pixels
/// are reached, and is a format error while pixels remain.
pub proof fn lemma_rle_end_of_bitmap(s: Seq<u8>, pos: int, x: int, y: int, out: Seq<u8>, w: int, h: int, four: bool)
    requires
        op_at(s, pos) == Some(RleOp::EndOfBitmap),
    ensures
        y * w + x < w * h ==> rle_from(s, pos, x, y, out, w, h, four) == Err::<Seq<u8>, ErrorKind>(ErrorKind::Format),
        y * w + x >= w * h ==> rle_from(s, pos, x, y, out, w, h, four) == Ok::<Seq<u8>, ErrorKind>(out),
{
}

/// Output row `t` is stored row `t` when the header's height is negative, and
/// stored row `height - 1 - t` when it is positive.
pub proof fn lemma_row_order(s: Seq<u8>, t: int, x: int)
    requires
        decode_spec(s) is Ok,
        0 <= t < decode_spec(s)->Ok_0.0.height,
        0 <= x < decode_spec(s)->Ok_0.0.width,
    ensures
        ({
            let (d, px) = decode_spec(s)->Ok_0;
            let pal = palette_spec(s, d);
            let idx = indices_spec(s, d)->Ok_0;
            &&& le32(s, 14) != 12 ==> (d.top_down <==> le32_signed(s, 22) < 0)
            &&& le32(s, 14) == 12 ==> !d.top_down
            &&& d.top_down ==> px[t * d.width + x] == stored_pixel(s, d, pal, idx, t, x)->Some_0
            &&& !d.top_down ==> px[t * d.width + x] == stored_pixel(s, d, pal, idx, d.height - 1 - t, x)->Some_0
        }),
{
    let (d, px) = decode_spec(s)->Ok_0;
    let w = d.width as int;
    let k = t * w + x;
    assert(0 <= k < w * d.height) by (nonlinear_arith)
        requires k == t * w + x, 0 <= t < d.height, 0 <= x < w;
    vstd::arithmetic::div_mod::lemma_fundamental_div_mod_converse(k, w, t, x);
}

/// A colour index at or past the end of the colour table makes decoding fail
/// with a format error.
pub proof fn lemma_index_past_palette(s: Seq<u8>, t: int, x: int)
    requires
        header_spec(s) is Ok,
        palette_present(s, header_spec(s)->Ok_0),
        indices_spec(s, header_spec(s)->Ok_0) is Ok,
        header_spec(s)->Ok_0.bits_per_pixel <= 8,
        0 <= t < header_spec(s)->Ok_0.height,
        0 <= x < header_spec(s)->Ok_0.width,
        stored_index(s, header_spec(s)->Ok_0, indices_spec(s, header_spec(s)->Ok_0)->Ok_0, t, x)
            >= header_spec(s)->Ok_0.palette_len,
    ensures
        decode_spec(s) == Err::<(ImageDescriptor, Seq<Pixel>), ErrorKind>(ErrorKind::Format),
{
    let d = header_spec(s)->Ok_0;
    let idx = indices_spec(s, d)->Ok_0;
    let pal = palette_spec(s, d);
    let tt = if d.top_down { t } else { d.height - 1 - t };
    assert(stored_row(d, tt) == t);
    assert(resolved(s, d, pal, idx, tt, x) is None);
}

/// A decoded image holds exactly `width * height` pixels, and when every
/// stored pixel has one colour, every decoded pixel has that colour.
pub proof fn lemma_uniform_image(s: Seq<u8>, c: Pixel)
    requires
        decode_spec(s) is Ok,
        ({
            let d = decode_spec(s)->Ok_0.0;
            forall|r: int, x: int| 0 <= r < d.height && 0 <= x < d.width
                ==> #[trigger] stored_pixel(s, d, palette_spec(s, d), indices_spec(s, d)->Ok_0, r, x) == Some(c)
        }),
    ensures
        decode_spec(s)->Ok_0.1.len() == decode_spec(s)->Ok_0.0.width * decode_spec(s)->Ok_0.0.height,
        forall|k: int| 0 <= k < decode_spec(s)->Ok_0.1.len() ==> #[trigger] decode_spec(s)->Ok_0.1[k] == c,
{
    let (d, px) = decode_spec(s)->Ok_0;
    let w = d.width as int;
    lemma_header_valid(s);
    assert forall|k: int| 0 <= k < px.len() implies #[trigger] px[k] == c by {
        let t = k / w;
        let x = k % w;
        vstd::arithmetic::div_mod::lemma_fundamental_div_mod(k, w);
        assert(t * w == w * t) by (nonlinear_arith);
        assert(0 <= t < d.height) by (nonlinear_arith)
            requires k == w * t + x, 0 <= x < w, 0 <= k < w * d.height;
        assert(stored_pixel(s, d, palette_spec(s, d), indices_spec(s, d)->Ok_0, stored_row(d, t), x) == Some(c));
    }
}

} // verus!
