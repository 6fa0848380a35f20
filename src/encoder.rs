//! The encoder: a pixel buffer, top row first, written as an uncompressed BMP
//! stream with the forty-byte information header and rows stored bottom-up.
//!
//! It never compresses, whatever the source of the pixels was: this keeps the
//! writer simple, and every reader of the format accepts uncompressed data.
use vstd::prelude::*;
use crate::bytes::{le16_bytes, le32_bytes, push_u16, push_u32};
use crate::error::{ImageError, ErrorKind, format_error};
use crate::header::{row_stride, within_ceiling, exceeds_ceiling, max_colors};
use vstd::arithmetic::power2::{pow2, lemma_pow2_adds, lemma2_to64};
use crate::bytes::pow2_u64;
use crate::pixels::Pixel;

verus! {

/// Size of the file header and the information header that the encoder writes.
pub const HEADER_BYTES: u32 = 54;

/// Bit depths that the encoder writes.
pub open spec fn encodable_bpp(bpp: nat) -> bool {
    bpp == 24 || bpp == 32
}

/// The width, height, buffer and depth make an image that the encoder can write.
pub open spec fn encodable(width: nat, height: nat, pixels: Seq<Pixel>, bpp: nat) -> bool {
    &&& encodable_bpp(bpp)
    &&& width >= 1
    &&& height >= 1
    &&& within_ceiling(width, height)
    &&& pixels.len() == width * height
}

/// The two headers of an encoded image.
/// `colors` is the number of colour table entries that follow them.
pub open spec fn header_bytes(width: nat, height: nat, bpp: nat, colors: nat) -> Seq<u8> {
    let size = height * row_stride(width, bpp);
    let offset = 54 + 4 * colors;
    seq![0x42u8, 0x4Du8] + le32_bytes(offset + size) + le32_bytes(0) + le32_bytes(offset)
        + le32_bytes(40) + le32_bytes(width) + le32_bytes(height) + le16_bytes(1)
        + le16_bytes(bpp) + le32_bytes(0) + le32_bytes(size) + le32_bytes(2835)
        + le32_bytes(2835) + le32_bytes(colors) + le32_bytes(0)
}

/// Byte `c` of a pixel as the encoder stores it: blue, green, red, alpha.
pub open spec fn pixel_byte(p: Pixel, c: int) -> u8 {
    if c == 0 { p.b } else if c == 1 { p.g } else if c == 2 { p.r } else { p.a }
}

/// Byte `j` of stored row `r`: the bottom row is stored first, and each row
/// ends in zero padding.
pub open spec fn row_byte(width: nat, height: nat, pixels: Seq<Pixel>, bpp: nat, r: int, j: int) -> u8 {
    let n = (bpp / 8) as int;
    if j < width * n {
        pixel_byte(pixels[(height - 1 - r) * width + j / n], j % n)
    } else {
        0
    }
}

/// The pixel data of an encoded image.
pub open spec fn pixel_bytes(width: nat, height: nat, pixels: Seq<Pixel>, bpp: nat) -> Seq<u8> {
    let stride = row_stride(width, bpp) as int;
    Seq::new(height * row_stride(width, bpp), |i: int| row_byte(width, height, pixels, bpp, i / stride, i % stride))
}

/// The whole stream that the encoder writes.
pub open spec fn encode_spec(width: nat, height: nat, pixels: Seq<Pixel>, bpp: nat) -> Seq<u8> {
    header_bytes(width, height, bpp, 0) + pixel_bytes(width, height, pixels, bpp)
}

/// Stored row `r` of an encoded image, padding included.
pub open spec fn row_bytes(width: nat, height: nat, pixels: Seq<Pixel>, bpp: nat, r: int) -> Seq<u8> {
    Seq::new(row_stride(width, bpp), |j: int| row_byte(width, height, pixels, bpp, r, j))
}

proof fn lemma_rows_step(width: nat, height: nat, pixels: Seq<Pixel>, bpp: nat, r: nat)
    requires
        r < height,
        row_stride(width, bpp) > 0,
    ensures
        pixel_bytes(width, height, pixels, bpp).subrange(0, ((r + 1) * row_stride(width, bpp)) as int)
            == pixel_bytes(width, height, pixels, bpp).subrange(0, (r * row_stride(width, bpp)) as int)
                + row_bytes(width, height, pixels, bpp, r as int),
{
    let stride = row_stride(width, bpp);
    let all = pixel_bytes(width, height, pixels, bpp);
    assert((r + 1) * stride == r * stride + stride) by (nonlinear_arith);
    assert((r + 1) * stride <= height * stride) by (nonlinear_arith)
        requires r < height;
    let row = row_bytes(width, height, pixels, bpp, r as int);
    assert forall|i: int| r * stride <= i < (r + 1) * stride implies #[trigger] all[i] == row[i - r * stride] by {
        vstd::arithmetic::div_mod::lemma_fundamental_div_mod_converse(
            i, stride as int, r as int, i - r * stride);
    }
    assert(all.subrange(0, ((r + 1) * stride) as int) =~= all.subrange(0, (r * stride) as int) + row_bytes(width, height, pixels, bpp, r as int));
}

fn write_header(width: u32, height: u32, bpp: u16, size: u32, colors: u32) -> (out: Vec<u8>)
    requires
        size == height * row_stride(width as nat, bpp as nat),
        colors <= 256,
        size + 54 + 4 * colors <= 0xFFFF_FFFF,
    ensures
        out@ == header_bytes(width as nat, height as nat, bpp as nat, colors as nat),
{
    let mut out: Vec<u8> = Vec::new();
    out.push(0x42);
    out.push(0x4D);
    push_u32(&mut out, 54 + 4 * colors + size);
    push_u32(&mut out, 0);
    push_u32(&mut out, 54 + 4 * colors);
    push_u32(&mut out, 40);
    push_u32(&mut out, width);
    push_u32(&mut out, height);
    push_u16(&mut out, 1);
    push_u16(&mut out, bpp);
    push_u32(&mut out, 0);
    push_u32(&mut out, size);
    push_u32(&mut out, 2835);
    push_u32(&mut out, 2835);
    push_u32(&mut out, colors);
    push_u32(&mut out, 0);
    assert(out@ =~= header_bytes(width as nat, height as nat, bpp as nat, colors as nat));
    out
}

fn write_row(out: &mut Vec<u8>, pixels: &Vec<Pixel>, w: usize, h: usize, bpp: u16, r: usize, stride: usize)
    requires
        bpp == 24 || bpp == 32,
        w >= 1,
        r < h,
        w * h <= 0x1000_0000,
        pixels@.len() == w * h,
        stride == row_stride(w as nat, bpp as nat),
        w * (bpp / 8) <= stride,
    ensures
        final(out)@ == old(out)@ + row_bytes(w as nat, h as nat, pixels@, bpp as nat, r as int),
{
    let n: usize = (bpp / 8) as usize;
    proof {
        assert((h - 1 - r) * w <= w * h) by (nonlinear_arith)
            requires r < h, w >= 1;
    }
    let src: usize = (h - 1 - r) * w;
    let ghost row = row_bytes(w as nat, h as nat, pixels@, bpp as nat, r as int);
    let mut j: usize = 0;
    while j < stride
        invariant
            n == bpp / 8,
            bpp == 24 || bpp == 32,
            w >= 1,
            r < h,
            w * h <= 0x1000_0000,
            pixels@.len() == w * h,
            w * n <= stride,
            src == (h - 1 - r) * w,
            row == row_bytes(w as nat, h as nat, pixels@, bpp as nat, r as int),
            stride == row.len(),
            j <= stride,
            out@ == old(out)@ + row.subrange(0, j as int),
        decreases stride - j,
    {
        let byte: u8 = if j < w * n {
            let x: usize = j / n;
            proof {
                assert(x < w) by (nonlinear_arith)
                    requires x == j / n, j < w * n, n >= 1;
                assert(src + x < w * h) by (nonlinear_arith)
                    requires src == (h - 1 - r) * w, x < w, r < h, w >= 1;
            }
            let p = pixels[src + x];
            let c: usize = j % n;
            if c == 0 { p.b } else if c == 1 { p.g } else if c == 2 { p.r } else { p.a }
        } else {
            0
        };
        assert(byte == row[j as int]);
        out.push(byte);
        assert(row.subrange(0, j + 1) =~= row.subrange(0, j as int).push(byte));
        j = j + 1;
    }
    assert(row.subrange(0, stride as int) =~= row);
}

/// Writes `pixels`, `width` by `height` and top row first, at `bpp` bits per pixel.
pub fn encode(width: u32, height: u32, pixels: &Vec<Pixel>, bpp: u16) -> (r: Result<Vec<u8>, ImageError>)
    ensures
        r is Ok <==> encodable(width as nat, height as nat, pixels@, bpp as nat),
        r is Ok ==> r->Ok_0@ == encode_spec(width as nat, height as nat, pixels@, bpp as nat),
        r is Err ==> r->Err_0.kind() == ErrorKind::Format,
{
    if bpp != 24 && bpp != 32 {
        return Err(format_error("the encoder writes 24 or 32 bits per pixel"));
    }
    if width == 0 || height == 0 || exceeds_ceiling(width, height) {
        return Err(format_error("image dimensions out of range"));
    }
    let w: usize = width as usize;
    let h: usize = height as usize;
    proof {
        assert(w <= w * h && h <= w * h) by (nonlinear_arith)
            requires h >= 1, w >= 1;
        assert(w * bpp <= 0x1000_0000 * 32) by (nonlinear_arith)
            requires w <= 0x1000_0000, bpp <= 32;
    }
    if pixels.len() != w * h {
        return Err(format_error("pixel buffer does not match the dimensions"));
    }
    let n: usize = (bpp / 8) as usize;
    let bits: u64 = w as u64 * bpp as u64;
    let stride: usize = ((bits + 31) / 32 * 4) as usize;
    proof {
        assert(w * bpp <= 32 * w) by (nonlinear_arith)
            requires bpp <= 32;
        assert(bits <= 32 * w);
        assert(stride <= 4 * w + 4);
        assert(h * stride <= 0x1000_0000 * 8) by (nonlinear_arith)
            requires w * h <= 0x1000_0000, stride <= 4 * w + 4, h >= 1, w >= 1;
        if bpp == 24 {
            assert(w * bpp == 24 * w) by (nonlinear_arith) requires bpp == 24;
            assert(w * n == 3 * w) by (nonlinear_arith) requires n == 3;
        } else {
            assert(w * bpp == 32 * w) by (nonlinear_arith) requires bpp == 32;
            assert(w * n == 4 * w) by (nonlinear_arith) requires n == 4;
        }
        assert(w * n <= stride);
    }
    let size: u32 = (h * stride) as u32;
    let mut out = write_header(width, height, bpp, size, 0);
    let ghost head = out@;
    let ghost body = pixel_bytes(w as nat, h as nat, pixels@, bpp as nat);
    let mut r: usize = 0;
    while r < h
        invariant
            w == width,
            h == height,
            w >= 1,
            n == bpp / 8,
            bpp == 24 || bpp == 32,
            stride == row_stride(w as nat, bpp as nat),
            stride > 0,
            w * n <= stride,
            h * stride <= 0x1000_0000 * 8,
            w * h <= 0x1000_0000,
            pixels@.len() == w * h,
            body == pixel_bytes(w as nat, h as nat, pixels@, bpp as nat),
            head.len() == 54,
            r <= h,
            out@ == head + body.subrange(0, r * stride),
        decreases h - r,
    {
        proof {
            lemma_rows_step(w as nat, h as nat, pixels@, bpp as nat, r as nat);
            assert((r + 1) * stride <= h * stride) by (nonlinear_arith)
                requires r < h;
        }
        write_row(&mut out, pixels, w, h, bpp, r, stride);
        assert(out@ =~= head + body.subrange(0, (r + 1) * stride));
        r = r + 1;
    }
    assert(body.subrange(0, h * stride) =~= body);
    Ok(out)
}

/// Two pixels that agree in red, green and blue.
pub open spec fn same_colour(a: Pixel, b: Pixel) -> bool {
    a.r == b.r && a.g == b.g && a.b == b.b
}

/// The first colour table entry at or after `i` with the colour of `p`.
pub open spec fn find_from(pal: Seq<Pixel>, p: Pixel, i: int) -> Option<nat>
    decreases pal.len() - i,
{
    if i < 0 || i >= pal.len() {
        None
    } else if same_colour(pal[i], p) {
        Some(i as nat)
    } else {
        find_from(pal, p, i + 1)
    }
}

/// The index that the encoder writes for `p`: its first entry in the colour table.
pub open spec fn palette_index(pal: Seq<Pixel>, p: Pixel) -> Option<nat> {
    find_from(pal, p, 0)
}

proof fn lemma_find_from_bound(pal: Seq<Pixel>, p: Pixel, i: int)
    requires
        0 <= i,
    ensures
        find_from(pal, p, i) is Some ==> find_from(pal, p, i)->Some_0 < pal.len(),
    decreases pal.len() - i,
{
    if i < pal.len() && !same_colour(pal[i], p) {
        lemma_find_from_bound(pal, p, i + 1);
    }
}

/// The buffer, dimensions, depth and colour table make an image that the
/// encoder can write with a colour table.
pub open spec fn indexable(width: nat, height: nat, pixels: Seq<Pixel>, bpp: nat, pal: Seq<Pixel>) -> bool {
    &&& (bpp == 1 || bpp == 4 || bpp == 8)
    &&& width >= 1
    &&& height >= 1
    &&& within_ceiling(width, height)
    &&& pixels.len() == width * height
    &&& 1 <= pal.len() <= max_colors(bpp)
    &&& forall|k: int| 0 <= k < pixels.len() ==> (#[trigger] palette_index(pal, pixels[k])) is Some
}

/// The colour table as stored: blue, green, red and a zero byte per entry.
pub open spec fn palette_bytes(pal: Seq<Pixel>) -> Seq<u8> {
    Seq::new(pal.len() * 4, |i: int| {
        let e = pal[i / 4];
        let c = i % 4;
        if c == 0 { e.b } else if c == 1 { e.g } else if c == 2 { e.r } else { 0 }
    })
}

/// The index of pixel `x` of stored row `r`, zero past the end of the row.
pub open spec fn index_or_zero(width: nat, height: nat, pixels: Seq<Pixel>, pal: Seq<Pixel>, r: int, x: int) -> nat {
    if x < width {
        palette_index(pal, pixels[(height - 1 - r) * width + x])->Some_0
    } else {
        0
    }
}

/// The first `n` indices of byte `j` of stored row `r`, packed most significant first.
pub open spec fn packed(width: nat, height: nat, pixels: Seq<Pixel>, pal: Seq<Pixel>, bpp: nat, r: int, j: int, n: nat) -> nat
    decreases n,
{
    if n == 0 {
        0
    } else {
        packed(width, height, pixels, pal, bpp, r, j, (n - 1) as nat) * pow2(bpp)
            + index_or_zero(width, height, pixels, pal, r, j * (8nat / bpp) as int + n - 1)
    }
}

/// Stored row `r` of an image with a colour table, padding included.
pub open spec fn indexed_row(width: nat, height: nat, pixels: Seq<Pixel>, pal: Seq<Pixel>, bpp: nat, r: int) -> Seq<u8> {
    Seq::new(row_stride(width, bpp), |j: int| packed(width, height, pixels, pal, bpp, r, j, 8nat / bpp) as u8)
}

/// The pixel data of an image with a colour table, bottom row first.
pub open spec fn indexed_pixel_bytes(width: nat, height: nat, pixels: Seq<Pixel>, pal: Seq<Pixel>, bpp: nat) -> Seq<u8> {
    let stride = row_stride(width, bpp) as int;
    Seq::new(height * row_stride(width, bpp), |i: int| indexed_row(width, height, pixels, pal, bpp, i / stride)[i % stride])
}

/// The whole stream that the encoder writes for an image with a colour table.
pub open spec fn encode_indexed_spec(width: nat, height: nat, pixels: Seq<Pixel>, bpp: nat, pal: Seq<Pixel>) -> Seq<u8> {
    header_bytes(width, height, bpp, pal.len()) + palette_bytes(pal) + indexed_pixel_bytes(width, height, pixels, pal, bpp)
}

fn find_colour(pal: &Vec<Pixel>, p: Pixel) -> (r: Option<u8>)
    requires
        pal@.len() <= 256,
    ensures
        r is Some <==> palette_index(pal@, p) is Some,
        r is Some ==> r->Some_0 == palette_index(pal@, p)->Some_0,
{
    let mut i: usize = 0;
    while i < pal.len()
        invariant
            pal@.len() <= 256,
            i <= pal@.len(),
            palette_index(pal@, p) == find_from(pal@, p, i as int),
        decreases pal@.len() - i,
    {
        let e = pal[i];
        if e.r == p.r && e.g == p.g && e.b == p.b {
            return Some(i as u8);
        }
        i = i + 1;
    }
    None
}

fn palette_indices(pixels: &Vec<Pixel>, pal: &Vec<Pixel>) -> (r: Option<Vec<u8>>)
    requires
        pal@.len() <= 256,
    ensures
        r is Some <==> forall|k: int| 0 <= k < pixels@.len() ==> (#[trigger] palette_index(pal@, pixels@[k])) is Some,
        r is Some ==> r->Some_0@.len() == pixels@.len(),
        r is Some ==> forall|k: int| 0 <= k < pixels@.len() ==> r->Some_0@[k] == (#[trigger] palette_index(pal@, pixels@[k]))->Some_0,
{
    let mut out: Vec<u8> = Vec::new();
    let mut k: usize = 0;
    while k < pixels.len()
        invariant
            pal@.len() <= 256,
            k <= pixels@.len(),
            out@.len() == k,
            forall|i: int| 0 <= i < k ==> (#[trigger] palette_index(pal@, pixels@[i])) is Some,
            forall|i: int| 0 <= i < k ==> out@[i] == (#[trigger] palette_index(pal@, pixels@[i]))->Some_0,
        decreases pixels@.len() - k,
    {
        match find_colour(pal, pixels[k]) {
            None => {
                return None;
            },
            Some(v) => {
                out.push(v);
            },
        }
        k = k + 1;
    }
    Some(out)
}

/// The indices of `pixels` in the colour table, one per pixel.
pub open spec fn indices_of(idx: Seq<u8>, pixels: Seq<Pixel>, pal: Seq<Pixel>) -> bool {
    &&& idx.len() == pixels.len()
    &&& forall|k: int| 0 <= k < pixels.len() ==> (#[trigger] palette_index(pal, pixels[k])) is Some
    &&& forall|k: int| 0 <= k < pixels.len() ==> idx[k] == (#[trigger] palette_index(pal, pixels[k]))->Some_0
}

fn pack_byte(idx: &Vec<u8>, pixels: &Vec<Pixel>, pal: &Vec<Pixel>, w: usize, h: usize, bpp: u16, r: usize, j: usize) -> (b: u8)
    requires
        bpp == 1 || bpp == 4 || bpp == 8,
        w >= 1,
        r < h,
        w * h <= 0x1000_0000,
        pixels@.len() == w * h,
        pal@.len() <= max_colors(bpp as nat),
        indices_of(idx@, pixels@, pal@),
        j < row_stride(w as nat, bpp as nat),
    ensures
        b == packed(w as nat, h as nat, pixels@, pal@, bpp as nat, r as int, j as int, 8nat / bpp as nat) as u8,
{
    let per: usize = if bpp == 1 { 8 } else if bpp == 4 { 2 } else { 1 };
    assert(per == 8nat / bpp as nat);
    assert(bpp * per == 8);
    let base: u64 = pow2_u64(bpp as u32);
    proof {
        lemma2_to64();
        assert((h - 1 - r) * w <= w * h) by (nonlinear_arith)
            requires r < h, w >= 1;
        assert(max_colors(bpp as nat) == pow2(bpp as nat));
        if bpp == 1 {
            assert(w * bpp == w);
            assert(j * per == 8 * j) by (nonlinear_arith) requires per == 8;
        } else if bpp == 4 {
            assert(w * bpp == 4 * w) by (nonlinear_arith) requires bpp == 4;
            assert(j * per == 2 * j) by (nonlinear_arith) requires per == 2;
        } else {
            assert(w * bpp == 8 * w) by (nonlinear_arith) requires bpp == 8;
            assert(j * per == j) by (nonlinear_arith) requires per == 1;
        }
        assert(j * per <= w + 32);
        assert(w <= w * h) by (nonlinear_arith)
            requires r < h, w >= 1;
    }
    let src: usize = (h - 1 - r) * w;
    let mut acc: u64 = 0;
    let mut q: usize = 0;
    while q < per
        invariant
            bpp == 1 || bpp == 4 || bpp == 8,
            per == 8nat / bpp as nat,
            base == pow2(bpp as nat),
            base >= 1,
            w >= 1,
            r < h,
            w * h <= 0x1000_0000,
            src == (h - 1 - r) * w,
            pixels@.len() == w * h,
            pal@.len() <= pow2(bpp as nat),
            indices_of(idx@, pixels@, pal@),
            j * per <= w + 32,
            w <= 0x1000_0000,
            q <= per,
            acc == packed(w as nat, h as nat, pixels@, pal@, bpp as nat, r as int, j as int, q as nat),
            acc < pow2((bpp * q) as nat),
            bpp * per == 8,
        decreases per - q,
    {
        let x: usize = j * per + q;
        let v: u64 = if x < w {
            proof {
                assert(src + x < w * h) by (nonlinear_arith)
                    requires src == (h - 1 - r) * w, x < w, r < h, w >= 1;
                lemma_find_from_bound(pal@, pixels@[src + x], 0);
                assert(palette_index(pal@, pixels@[src + x]) is Some);
                assert(idx@[src + x] == palette_index(pal@, pixels@[src + x])->Some_0);
                assert(palette_index(pal@, pixels@[src + x])->Some_0 < pal@.len());
                assert(idx@[src + x] < base);
                assert(src + x == (h - 1 - r) * w + x);
            }
            idx[src + x] as u64
        } else {
            0
        };
        proof {
            lemma2_to64();
            assert(v < base);
            assert(bpp * q + bpp <= 8) by (nonlinear_arith)
                requires q < per, bpp * per == 8, bpp >= 1;
            lemma_pow2_adds((bpp * q) as nat, bpp as nat);
            assert(bpp * (q + 1) == bpp * q + bpp) by (nonlinear_arith);
            if bpp * q + bpp < 8 {
                vstd::arithmetic::power2::lemma_pow2_strictly_increases((bpp * q + bpp) as nat, 8);
            }
            assert(acc * base + v < pow2((bpp * q) as nat) * base) by (nonlinear_arith)
                requires acc < pow2((bpp * q) as nat), v < base;
        }
        acc = acc * base + v;
        q = q + 1;
    }
    acc as u8
}

proof fn lemma_indexed_rows_step(width: nat, height: nat, pixels: Seq<Pixel>, pal: Seq<Pixel>, bpp: nat, r: nat)
    requires
        r < height,
        row_stride(width, bpp) > 0,
    ensures
        indexed_pixel_bytes(width, height, pixels, pal, bpp).subrange(0, ((r + 1) * row_stride(width, bpp)) as int)
            == indexed_pixel_bytes(width, height, pixels, pal, bpp).subrange(0, (r * row_stride(width, bpp)) as int)
                + indexed_row(width, height, pixels, pal, bpp, r as int),
{
    let stride = row_stride(width, bpp);
    let all = indexed_pixel_bytes(width, height, pixels, pal, bpp);
    assert((r + 1) * stride == r * stride + stride) by (nonlinear_arith);
    assert((r + 1) * stride <= height * stride) by (nonlinear_arith)
        requires r < height;
    let row = indexed_row(width, height, pixels, pal, bpp, r as int);
    assert forall|i: int| r * stride <= i < (r + 1) * stride implies #[trigger] all[i] == row[i - r * stride] by {
        vstd::arithmetic::div_mod::lemma_fundamental_div_mod_converse(
            i, stride as int, r as int, i - r * stride);
    }
    assert(all.subrange(0, ((r + 1) * stride) as int) =~= all.subrange(0, (r * stride) as int) + row);
}

fn write_indexed_row(out: &mut Vec<u8>, idx: &Vec<u8>, pixels: &Vec<Pixel>, pal: &Vec<Pixel>, w: usize, h: usize, bpp: u16, r: usize, stride: usize)
    requires
        bpp == 1 || bpp == 4 || bpp == 8,
        w >= 1,
        r < h,
        w * h <= 0x1000_0000,
        pixels@.len() == w * h,
        pal@.len() <= max_colors(bpp as nat),
        indices_of(idx@, pixels@, pal@),
        stride == row_stride(w as nat, bpp as nat),
    ensures
        final(out)@ == old(out)@ + indexed_row(w as nat, h as nat, pixels@, pal@, bpp as nat, r as int),
{
    let ghost row = indexed_row(w as nat, h as nat, pixels@, pal@, bpp as nat, r as int);
    let mut j: usize = 0;
    while j < stride
        invariant
            bpp == 1 || bpp == 4 || bpp == 8,
            w >= 1,
            r < h,
            w * h <= 0x1000_0000,
            pixels@.len() == w * h,
            pal@.len() <= max_colors(bpp as nat),
            indices_of(idx@, pixels@, pal@),
            stride == row_stride(w as nat, bpp as nat),
            row == indexed_row(w as nat, h as nat, pixels@, pal@, bpp as nat, r as int),
            stride == row.len(),
            j <= stride,
            out@ == old(out)@ + row.subrange(0, j as int),
        decreases stride - j,
    {
        let byte = pack_byte(idx, pixels, pal, w, h, bpp, r, j);
        out.push(byte);
        assert(row.subrange(0, j + 1) =~= row.subrange(0, j as int).push(byte));
        j = j + 1;
    }
    assert(row.subrange(0, stride as int) =~= row);
}

fn write_palette(out: &mut Vec<u8>, pal: &Vec<Pixel>)
    requires
        pal@.len() <= 256,
    ensures
        final(out)@ == old(out)@ + palette_bytes(pal@),
{
    let ghost all = palette_bytes(pal@);
    let mut i: usize = 0;
    while i < pal.len()
        invariant
            pal@.len() <= 256,
            all == palette_bytes(pal@),
            i <= pal@.len(),
            out@ == old(out)@ + all.subrange(0, (4 * i) as int),
        decreases pal@.len() - i,
    {
        let e = pal[i];
        out.push(e.b);
        out.push(e.g);
        out.push(e.r);
        out.push(0);
        proof {
            assert forall|c: int| 0 <= c < 4 implies #[trigger] all[4 * i + c] == out@[old(out)@.len() + 4 * i + c] by {
                vstd::arithmetic::div_mod::lemma_fundamental_div_mod_converse(4 * i + c, 4, i as int, c);
            }
            assert(out@ =~= old(out)@ + all.subrange(0, (4 * (i + 1)) as int));
        }
        i = i + 1;
    }
    assert(all.subrange(0, (4 * i) as int) =~= all);
}

/// Writes `pixels`, `width` by `height` and top row first, at 1, 4 or 8 bits
/// per pixel with the colour table `palette`. Each pixel is written as the
/// first entry of the table with its red, green and blue.
pub fn encode_indexed(width: u32, height: u32, pixels: &Vec<Pixel>, bpp: u16, palette: &Vec<Pixel>) -> (r: Result<Vec<u8>, ImageError>)
    ensures
        r is Ok <==> indexable(width as nat, height as nat, pixels@, bpp as nat, palette@),
        r is Ok ==> r->Ok_0@ == encode_indexed_spec(width as nat, height as nat, pixels@, bpp as nat, palette@),
        r is Err ==> r->Err_0.kind() == ErrorKind::Format,
{
    if bpp != 1 && bpp != 4 && bpp != 8 {
        return Err(format_error("a colour table goes with 1, 4 or 8 bits per pixel"));
    }
    if width == 0 || height == 0 || exceeds_ceiling(width, height) {
        return Err(format_error("image dimensions out of range"));
    }
    let w: usize = width as usize;
    let h: usize = height as usize;
    proof {
        assert(w <= w * h && h <= w * h) by (nonlinear_arith)
            requires h >= 1, w >= 1;
        assert(w * bpp <= 8 * w) by (nonlinear_arith)
            requires bpp <= 8;
    }
    if pixels.len() != w * h {
        return Err(format_error("pixel buffer does not match the dimensions"));
    }
    let max: usize = if bpp == 1 { 2 } else if bpp == 4 { 16 } else { 256 };
    if palette.len() == 0 || palette.len() > max {
        return Err(format_error("colour table length does not fit the depth"));
    }
    let idx = match palette_indices(pixels, palette) {
        None => { return Err(format_error("a pixel is missing from the colour table")); },
        Some(v) => v,
    };
    let bits: u64 = w as u64 * bpp as u64;
    let stride: usize = ((bits + 31) / 32 * 4) as usize;
    proof {
        assert(bits <= 8 * w);
        assert(stride <= w + 4);
        assert(h * stride <= 0x1000_0000 * 5) by (nonlinear_arith)
            requires w * h <= 0x1000_0000, stride <= w + 4, h >= 1, w >= 1;
    }
    let size: u32 = (h * stride) as u32;
    let colors: u32 = palette.len() as u32;
    let mut out = write_header(width, height, bpp, size, colors);
    write_palette(&mut out, palette);
    let ghost head = out@;
    let ghost body = indexed_pixel_bytes(w as nat, h as nat, pixels@, palette@, bpp as nat);
    let mut r: usize = 0;
    while r < h
        invariant
            w == width,
            h == height,
            w >= 1,
            bpp == 1 || bpp == 4 || bpp == 8,
            stride == row_stride(w as nat, bpp as nat),
            stride > 0,
            w * h <= 0x1000_0000,
            pixels@.len() == w * h,
            palette@.len() <= max_colors(bpp as nat),
            indices_of(idx@, pixels@, palette@),
            body == indexed_pixel_bytes(w as nat, h as nat, pixels@, palette@, bpp as nat),
            r <= h,
            out@ == head + body.subrange(0, r * stride),
        decreases h - r,
    {
        proof {
            lemma_indexed_rows_step(w as nat, h as nat, pixels@, palette@, bpp as nat, r as nat);
            assert((r + 1) * stride <= h * stride) by (nonlinear_arith)
                requires r < h;
        }
        write_indexed_row(&mut out, &idx, pixels, palette, w, h, bpp, r, stride);
        assert(out@ =~= head + body.subrange(0, (r + 1) * stride));
        r = r + 1;
    }
    assert(body.subrange(0, h * stride) =~= body);
    Ok(out)
}

} // verus!
