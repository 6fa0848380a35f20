//! The decode pipeline: header, colour table, decompression, pixel unpacking
//! and row order.
use vstd::prelude::*;
use vstd::arithmetic::div_mod::{lemma_fundamental_div_mod_converse};
use crate::error::{ImageError, ErrorKind, format_error};
use crate::header::{
    Compression, ImageDescriptor, header_spec, parse_header, row_stride, valid_descriptor,
    within_ceiling,
};
use crate::pixels::{
    Pixel, palette_present, palette_spec, read_palette, index_at, direct_pixel, read_index,
    read_direct, masks_to_channels, channels_of,
};
use crate::rle::{rle_spec, rle_decode};

verus! {

/// A decoded image: its descriptor and its pixels, top row first.
pub struct DecodedImage {
    pub descriptor: ImageDescriptor,
    /// `width * height` pixels, row after row from the top.
    pub pixels: Vec<Pixel>,
}

pub open spec fn is_rle(d: ImageDescriptor) -> bool {
    d.compression == Compression::Rle8 || d.compression == Compression::Rle4
}

/// The stored row that holds output row `t` (output rows run top to bottom).
pub open spec fn stored_row(d: ImageDescriptor, t: int) -> int {
    if d.top_down { t } else { d.height - 1 - t }
}

pub open spec fn stride_of(d: ImageDescriptor) -> nat {
    row_stride(d.width as nat, d.bits_per_pixel as nat)
}

/// Position in the stream of stored row `r` of uncompressed data.
pub open spec fn row_start(d: ImageDescriptor, r: int) -> int {
    d.data_offset + r * stride_of(d)
}

/// All stored rows of uncompressed data are inside the stream.
pub open spec fn rows_present(s: Seq<u8>, d: ImageDescriptor) -> bool {
    d.data_offset + d.height * stride_of(d) <= s.len()
}

/// The colour table entry `i`, or nothing when `i` is past its end.
pub open spec fn lookup(pal: Seq<Pixel>, i: nat) -> Option<Pixel> {
    if i < pal.len() { Some(pal[i as int]) } else { None }
}

/// The colour index of pixel `x` of stored row `r`, at depths with a colour table;
/// `idx` holds the decompressed indices of compressed data.
pub open spec fn stored_index(s: Seq<u8>, d: ImageDescriptor, idx: Seq<u8>, r: int, x: int) -> nat {
    if is_rle(d) {
        idx[r * d.width + x] as nat
    } else {
        index_at(s, row_start(d, r), x, d.bits_per_pixel as nat)
    }
}

/// Pixel `x` of stored row `r`, or nothing when its colour index is past the colour table.
pub open spec fn stored_pixel(s: Seq<u8>, d: ImageDescriptor, pal: Seq<Pixel>, idx: Seq<u8>, r: int, x: int) -> Option<Pixel> {
    if d.bits_per_pixel <= 8 {
        lookup(pal, stored_index(s, d, idx, r, x))
    } else {
        Some(direct_pixel(s, d, row_start(d, r), x))
    }
}

/// Output pixel `(t, x)`, output rows running top to bottom.
pub open spec fn resolved(s: Seq<u8>, d: ImageDescriptor, pal: Seq<Pixel>, idx: Seq<u8>, t: int, x: int) -> Option<Pixel> {
    stored_pixel(s, d, pal, idx, stored_row(d, t), x)
}

pub open spec fn all_resolved(s: Seq<u8>, d: ImageDescriptor, pal: Seq<Pixel>, idx: Seq<u8>) -> bool {
    forall|t: int, x: int| 0 <= t < d.height && 0 <= x < d.width ==> (#[trigger] resolved(s, d, pal, idx, t, x)) is Some
}

pub open spec fn image_of(s: Seq<u8>, d: ImageDescriptor, pal: Seq<Pixel>, idx: Seq<u8>) -> Seq<Pixel> {
    Seq::new((d.width * d.height) as nat, |k: int| resolved(s, d, pal, idx, k / d.width as int, k % d.width as int)->Some_0)
}

/// The indices of compressed data, or an empty sequence for uncompressed data.
pub open spec fn indices_spec(s: Seq<u8>, d: ImageDescriptor) -> Result<Seq<u8>, ErrorKind> {
    if is_rle(d) {
        rle_spec(s, d.data_offset as int, d.width as int, d.height as int, d.compression == Compression::Rle4)
    } else if !rows_present(s, d) {
        Err(ErrorKind::Format)
    } else {
        Ok(Seq::empty())
    }
}

/// What decoding makes of a whole stream: the descriptor and the pixels, top row first.
pub open spec fn decode_spec(s: Seq<u8>) -> Result<(ImageDescriptor, Seq<Pixel>), ErrorKind> {
    match header_spec(s) {
        Err(k) => Err(k),
        Ok(d) => if !palette_present(s, d) {
            Err(ErrorKind::Format)
        } else {
            match indices_spec(s, d) {
                Err(k) => Err(k),
                Ok(idx) => if all_resolved(s, d, palette_spec(s, d), idx) {
                    Ok((d, image_of(s, d, palette_spec(s, d), idx)))
                } else {
                    Err(ErrorKind::Format)
                },
            }
        },
    }
}

proof fn lemma_stride(w: nat, bpp: nat, x: nat)
    requires
        x < w,
        bpp == 1 || bpp == 4 || bpp == 8 || bpp == 16 || bpp == 24 || bpp == 32,
    ensures
        bpp == 1 ==> x / 8 < row_stride(w, bpp),
        bpp == 4 ==> x / 2 < row_stride(w, bpp),
        bpp == 8 ==> x < row_stride(w, bpp),
        bpp == 16 ==> 2 * x + 2 <= row_stride(w, bpp),
        bpp == 24 ==> 3 * x + 3 <= row_stride(w, bpp),
        bpp == 32 ==> 4 * x + 4 <= row_stride(w, bpp),
{
    assert(w * bpp == bpp * w) by (nonlinear_arith);
    if bpp == 1 {
        assert(w * bpp == w);
    } else if bpp == 4 {
        assert(w * bpp == 4 * w);
    } else if bpp == 8 {
        assert(w * bpp == 8 * w);
    } else if bpp == 16 {
        assert(w * bpp == 16 * w);
    } else if bpp == 24 {
        assert(w * bpp == 24 * w);
    } else {
        assert(w * bpp == 32 * w);
    }
}

/// Decodes a complete BMP stream.
pub fn decode(data: &[u8]) -> (r: Result<DecodedImage, ImageError>)
    ensures
        match r {
            Ok(img) => decode_spec(data@) == Ok::<(ImageDescriptor, Seq<Pixel>), ErrorKind>((img.descriptor, img.pixels@)),
            Err(e) => decode_spec(data@) == Err::<(ImageDescriptor, Seq<Pixel>), ErrorKind>(e.kind()),
        },
{
    let d = match parse_header(data) {
        Ok(d) => d,
        Err(e) => { return Err(e); },
    };
    let pal = match read_palette(data, &d) {
        Ok(p) => p,
        Err(e) => { return Err(e); },
    };
    let w: usize = d.width as usize;
    let h: usize = d.height as usize;
    proof {
        assert(w * h <= 0x1000_0000);
        assert(w <= w * h) by (nonlinear_arith)
            requires h >= 1, w >= 0;
    }
    let n: usize = data.len();
    proof {
        assert(w * d.bits_per_pixel <= 0x1000_0000 * 32) by (nonlinear_arith)
            requires w <= 0x1000_0000, d.bits_per_pixel <= 32;
        assert(w * d.bits_per_pixel <= 32 * w) by (nonlinear_arith)
            requires d.bits_per_pixel <= 32;
    }
    let bits: u64 = w as u64 * d.bits_per_pixel as u64;
    let stride: usize = ((bits + 31) / 32 * 4) as usize;
    let idx: Vec<u8> = if d.compression == Compression::Rle8 || d.compression == Compression::Rle4 {
        match rle_decode(data, d.data_offset as usize, w, h, d.compression == Compression::Rle4) {
            Ok(v) => v,
            Err(e) => { return Err(e); },
        }
    } else {
        proof {
            assert(h * stride <= 0x1000_0000 * 128) by (nonlinear_arith)
                requires w * h <= 0x1000_0000, stride <= 4 * w + 4, h >= 1, w >= 1;
        }
        if (n as u64) < d.data_offset as u64 + (h as u64) * (stride as u64) {
            return Err(format_error("truncated pixel data"));
        }
        Vec::new()
    };
    let ghost pal_s = palette_spec(data@, d);
    let ghost idx_s = idx@;
    let c = masks_to_channels(&d);
    let mut pixels: Vec<Pixel> = Vec::new();
    let mut t: usize = 0;
    while t < h
        invariant
            valid_descriptor(d),
            header_spec(data@) == Ok::<ImageDescriptor, ErrorKind>(d),
            palette_present(data@, d),
            indices_spec(data@, d) == Ok::<Seq<u8>, ErrorKind>(idx_s),
            w == d.width,
            h == d.height,
            w * h <= 0x1000_0000,
            n == data@.len(),
            stride == stride_of(d),
            pal@ == pal_s,
            pal_s == palette_spec(data@, d),
            idx@ == idx_s,
            is_rle(d) ==> idx@.len() == w * h,
            !is_rle(d) ==> rows_present(data@, d),
            channels_of(c, d),
            t <= h,
            pixels@.len() == t * w,
            forall|k: int| 0 <= k < pixels@.len() ==> pixels@[k]
                == resolved(data@, d, pal_s, idx_s, k / w as int, k % w as int)->Some_0,
            forall|tt: int, x: int| 0 <= tt < t && 0 <= x < w ==> (#[trigger] resolved(data@, d, pal_s, idx_s, tt, x)) is Some,
        decreases h - t,
    {
        let r: usize = if d.top_down { t } else { h - 1 - t };
        let mut x: usize = 0;
        while x < w
            invariant
                valid_descriptor(d),
                header_spec(data@) == Ok::<ImageDescriptor, ErrorKind>(d),
                palette_present(data@, d),
                indices_spec(data@, d) == Ok::<Seq<u8>, ErrorKind>(idx_s),
                w == d.width,
                h == d.height,
                w * h <= 0x1000_0000,
                n == data@.len(),
                stride == stride_of(d),
                pal@ == pal_s,
                pal_s == palette_spec(data@, d),
            pal_s == palette_spec(data@, d),
                idx@ == idx_s,
                is_rle(d) ==> idx@.len() == w * h,
                !is_rle(d) ==> rows_present(data@, d),
                channels_of(c, d),
                t < h,
                r == stored_row(d, t as int),
                x <= w,
                pixels@.len() == t * w + x,
                forall|k: int| 0 <= k < pixels@.len() ==> pixels@[k]
                    == resolved(data@, d, pal_s, idx_s, k / w as int, k % w as int)->Some_0,
                forall|tt: int, xx: int| 0 <= tt < t && 0 <= xx < w ==> (#[trigger] resolved(data@, d, pal_s, idx_s, tt, xx)) is Some,
                forall|xx: int| 0 <= xx < x ==> (#[trigger] resolved(data@, d, pal_s, idx_s, t as int, xx)) is Some,
            decreases w - x,
        {
            proof {
                assert(r * w + x < w * h) by (nonlinear_arith)
                    requires r < h, x < w;
                assert(r * stride + stride <= h * stride) by (nonlinear_arith)
                    requires r < h, stride >= 0;
                lemma_stride(w as nat, d.bits_per_pixel as nat, x as nat);
            }
            let p: Option<Pixel> = if d.compression == Compression::Rle8 || d.compression == Compression::Rle4 {
                let i = idx[r * w + x] as usize;
                if i < pal.len() { Some(pal[i]) } else { None }
            } else {
                let row: usize = d.data_offset as usize + r * stride;
                if d.bits_per_pixel <= 8 {
                    let i = read_index(data, row, x, d.bits_per_pixel) as usize;
                    if i < pal.len() { Some(pal[i]) } else { None }
                } else {
                    Some(read_direct(data, &d, &c, row, x))
                }
            };
            assert(p == resolved(data@, d, pal_s, idx_s, t as int, x as int));
            match p {
                None => {
                    assert(!all_resolved(data@, d, pal_s, idx_s));
                    assert(decode_spec(data@) == Err::<(ImageDescriptor, Seq<Pixel>), ErrorKind>(ErrorKind::Format));
                    return Err(format_error("colour index past the end of the colour table"));
                },
                Some(px) => {
                    proof {
                        lemma_fundamental_div_mod_converse((t * w + x) as int, w as int, t as int, x as int);
                    }
                    pixels.push(px);
                },
            }
            x = x + 1;
        }
        proof {
            assert((t + 1) * w == t * w + w) by (nonlinear_arith);
        }
        t = t + 1;
    }
    proof {
        assert(t * w == w * h) by (nonlinear_arith)
            requires t == h;
        let img = image_of(data@, d, pal_s, idx_s);
        assert(img.len() == pixels@.len());
        assert forall|k: int| 0 <= k < img.len() implies img[k] == pixels@[k] by {
            assert(pixels@[k] == resolved(data@, d, pal_s, idx_s, k / w as int, k % w as int)->Some_0);
        }
        assert(pixels@ =~= img);
    }
    Ok(DecodedImage { descriptor: d, pixels })
}

} // verus!
