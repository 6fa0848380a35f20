//! Resolved pixels, the colour table and per-depth pixel unpacking.
//!
//! A channel given by a bit mask is read from the lowest run of consecutive set
//! bits of that mask. It is brought to eight bits by keeping its eight most
//! significant bits when it is wider, and by shifting it left and filling the
//! low bits with zeros when it is narrower.
use vstd::prelude::*;
use vstd::arithmetic::power2::{pow2, lemma_pow2_adds, lemma_pow2_pos};
use crate::bytes::{le16, le32, read_u16, read_u32, pow2_u64};
use crate::error::{ImageError, ErrorKind, format_error};
use crate::header::{ImageDescriptor, valid_descriptor};

verus! {

/// One resolved pixel.
#[derive(Debug, Clone, Copy, PartialEq, Eq, Structural)]
pub struct Pixel {
    pub r: u8,
    pub g: u8,
    pub b: u8,
    pub a: u8,
}

/// Position of the first set bit of `m` at or above bit `i` (32 when there is none).
pub open spec fn first_set_from(m: nat, i: nat) -> nat
    decreases 32 - i,
{
    if i >= 32 || (m / pow2(i)) % 2 == 1 {
        i
    } else {
        first_set_from(m, i + 1)
    }
}

/// Position of the first clear bit of `m` at or above bit `i` (32 when there is none).
pub open spec fn first_clear_from(m: nat, i: nat) -> nat
    decreases 32 - i,
{
    if i >= 32 || (m / pow2(i)) % 2 == 0 {
        i
    } else {
        first_clear_from(m, i + 1)
    }
}

pub open spec fn mask_shift(m: nat) -> nat {
    first_set_from(m, 0)
}

pub open spec fn mask_width(m: nat) -> nat {
    (first_clear_from(m, mask_shift(m)) - mask_shift(m)) as nat
}

/// A channel of `width` bits at `shift` in `v`, brought to eight bits.
pub open spec fn scaled_channel(v: nat, shift: nat, width: nat) -> u8 {
    let raw = (v / pow2(shift)) % pow2(width);
    if width == 0 {
        0
    } else if width >= 8 {
        (raw / pow2((width - 8) as nat)) as u8
    } else {
        (raw * pow2((8 - width) as nat)) as u8
    }
}

/// The channel that mask `m` selects in `v`.
pub open spec fn channel_value(v: nat, m: nat) -> u8 {
    scaled_channel(v, mask_shift(m), mask_width(m))
}

proof fn lemma_first_set_bounds(m: nat, i: nat)
    requires
        i <= 32,
    ensures
        i <= first_set_from(m, i) <= 32,
    decreases 32 - i,
{
    if i < 32 && (m / pow2(i)) % 2 != 1 {
        lemma_first_set_bounds(m, i + 1);
    }
}

proof fn lemma_first_clear_bounds(m: nat, i: nat)
    requires
        i <= 32,
    ensures
        i <= first_clear_from(m, i) <= 32,
    decreases 32 - i,
{
    if i < 32 && (m / pow2(i)) % 2 != 0 {
        lemma_first_clear_bounds(m, i + 1);
    }
}

/// Where a mask's channel lies: its shift and its width in bits.
#[derive(Debug, Clone, Copy, PartialEq, Eq, Structural)]
pub struct Channel {
    pub shift: u32,
    pub width: u32,
}

/// Finds the shift and width of the channel that `m` selects.
pub fn channel_of(m: u32) -> (c: Channel)
    ensures
        c.shift == mask_shift(m as nat),
        c.width == mask_width(m as nat),
        c.shift + c.width <= 32,
{
    let mut s: u32 = 0;
    while s < 32 && (m as u64 / pow2_u64(s)) % 2 != 1
        invariant
            s <= 32,
            first_set_from(m as nat, 0) == first_set_from(m as nat, s as nat),
        decreases 32 - s,
    {
        s = s + 1;
    }
    let mut e: u32 = s;
    while e < 32 && (m as u64 / pow2_u64(e)) % 2 != 0
        invariant
            s <= e <= 32,
            first_clear_from(m as nat, s as nat) == first_clear_from(m as nat, e as nat),
        decreases 32 - e,
    {
        e = e + 1;
    }
    proof {
        lemma_first_clear_bounds(m as nat, e as nat);
    }
    Channel { shift: s, width: e - s }
}

/// Reads the channel `c` out of `v`.
pub fn extract_channel(v: u32, c: Channel) -> (r: u8)
    requires
        c.shift + c.width <= 32,
    ensures
        r == scaled_channel(v as nat, c.shift as nat, c.width as nat),
{
    let raw = (v as u64 / pow2_u64(c.shift)) % pow2_u64(c.width);
    if c.width == 0 {
        0
    } else if c.width >= 8 {
        (raw / pow2_u64(c.width - 8)) as u8
    } else {
        let f = pow2_u64(8 - c.width);
        proof {
            lemma_pow2_pos(c.width as nat);
            lemma_pow2_adds(c.width as nat, (8 - c.width) as nat);
            vstd::arithmetic::power2::lemma2_to64();
            assert(raw < pow2(c.width as nat));
            assert(raw * f <= pow2(c.width as nat) * f) by (nonlinear_arith)
                requires raw < pow2(c.width as nat), f >= 0;
        }
        (raw * f) as u8
    }
}

/// The colour table is wholly inside the stream.
pub open spec fn palette_present(s: Seq<u8>, d: ImageDescriptor) -> bool {
    d.palette_offset + d.palette_len * d.palette_entry_size <= s.len()
}

/// Colour table entry `i`, stored blue, green, red (and a reserved byte).
pub open spec fn palette_entry(s: Seq<u8>, d: ImageDescriptor, i: int) -> Pixel {
    let off = d.palette_offset + i * d.palette_entry_size;
    Pixel { r: s[off + 2], g: s[off + 1], b: s[off], a: 255 }
}

pub open spec fn palette_spec(s: Seq<u8>, d: ImageDescriptor) -> Seq<Pixel> {
    Seq::new(d.palette_len as nat, |i: int| palette_entry(s, d, i))
}

/// Reads the colour table that the descriptor announces.
pub fn read_palette(data: &[u8], d: &ImageDescriptor) -> (r: Result<Vec<Pixel>, ImageError>)
    requires
        valid_descriptor(*d),
    ensures
        r is Ok <==> palette_present(data@, *d),
        r is Ok ==> r->Ok_0@ == palette_spec(data@, *d),
        r is Err ==> r->Err_0.kind() == ErrorKind::Format,
{
    let size = d.palette_entry_size as u64;
    proof {
        assert(d.palette_len * size <= 256 * 4) by (nonlinear_arith)
            requires d.palette_len <= 256, size <= 4;
    }
    if (data.len() as u64) < d.palette_offset as u64 + d.palette_len as u64 * size {
        return Err(format_error("truncated colour table"));
    }
    let mut pal: Vec<Pixel> = Vec::new();
    let mut i: u32 = 0;
    while i < d.palette_len
        invariant
            i <= d.palette_len <= 256,
            size == d.palette_entry_size,
            size == 3 || size == 4,
            palette_present(data@, *d),
            pal@.len() == i,
            forall|j: int| 0 <= j < i ==> pal@[j] == palette_entry(data@, *d, j),
        decreases d.palette_len - i,
    {
        proof {
            assert(i * size + size <= d.palette_len * size) by (nonlinear_arith)
                requires i < d.palette_len, size >= 0;
            assert(i * size <= 256 * 4) by (nonlinear_arith)
                requires i < 256, size <= 4;
        }
        let _n: usize = data.len();
        assert(d.palette_offset + i * size + size <= data@.len());
        let off = d.palette_offset as usize + (i as usize) * (size as usize);
        pal.push(Pixel { r: data[off + 2], g: data[off + 1], b: data[off], a: 255 });
        i = i + 1;
    }
    assert(pal@ =~= palette_spec(data@, *d));
    Ok(pal)
}

/// The colour index of pixel `x` in the stored row that starts at `row`.
/// Indices are packed most significant bits first.
pub open spec fn index_at(s: Seq<u8>, row: int, x: int, bpp: nat) -> nat {
    if bpp == 8 {
        s[row + x] as nat
    } else if bpp == 4 {
        if x % 2 == 0 { (s[row + x / 2] / 16) as nat } else { (s[row + x / 2] % 16) as nat }
    } else {
        ((s[row + x / 8] as nat / pow2((7 - x % 8) as nat)) % 2) as nat
    }
}

/// The pixel `x` of the stored row at `row`, for depths without a colour table.
pub open spec fn direct_pixel(s: Seq<u8>, d: ImageDescriptor, row: int, x: int) -> Pixel {
    if d.bits_per_pixel == 24 {
        Pixel { r: s[row + 3 * x + 2], g: s[row + 3 * x + 1], b: s[row + 3 * x], a: 255 }
    } else {
        let v = if d.bits_per_pixel == 16 { le16(s, row + 2 * x) } else { le32(s, row + 4 * x) };
        Pixel {
            r: channel_value(v, d.red_mask as nat),
            g: channel_value(v, d.green_mask as nat),
            b: channel_value(v, d.blue_mask as nat),
            a: if d.alpha_mask == 0 { 255 } else { channel_value(v, d.alpha_mask as nat) },
        }
    }
}

/// The channels of the four masks.
pub struct Channels {
    pub red: Channel,
    pub green: Channel,
    pub blue: Channel,
    pub alpha: Channel,
}

pub open spec fn channels_of(c: Channels, d: ImageDescriptor) -> bool {
    &&& c.red.shift == mask_shift(d.red_mask as nat) && c.red.width == mask_width(d.red_mask as nat)
    &&& c.green.shift == mask_shift(d.green_mask as nat) && c.green.width == mask_width(d.green_mask as nat)
    &&& c.blue.shift == mask_shift(d.blue_mask as nat) && c.blue.width == mask_width(d.blue_mask as nat)
    &&& c.alpha.shift == mask_shift(d.alpha_mask as nat) && c.alpha.width == mask_width(d.alpha_mask as nat)
    &&& c.red.shift + c.red.width <= 32 && c.green.shift + c.green.width <= 32
    &&& c.blue.shift + c.blue.width <= 32 && c.alpha.shift + c.alpha.width <= 32
}

pub fn masks_to_channels(d: &ImageDescriptor) -> (c: Channels)
    ensures
        channels_of(c, *d),
{
    Channels {
        red: channel_of(d.red_mask),
        green: channel_of(d.green_mask),
        blue: channel_of(d.blue_mask),
        alpha: channel_of(d.alpha_mask),
    }
}

/// Reads one pixel of a depth without colour table.
pub fn read_direct(data: &[u8], d: &ImageDescriptor, c: &Channels, row: usize, x: usize) -> (p: Pixel)
    requires
        d.bits_per_pixel == 16 || d.bits_per_pixel == 24 || d.bits_per_pixel == 32,
        channels_of(*c, *d),
        d.bits_per_pixel == 16 ==> row + 2 * x + 2 <= data@.len(),
        d.bits_per_pixel == 24 ==> row + 3 * x + 3 <= data@.len(),
        d.bits_per_pixel == 32 ==> row + 4 * x + 4 <= data@.len(),
    ensures
        p == direct_pixel(data@, *d, row as int, x as int),
{
    let _n: usize = data.len();
    if d.bits_per_pixel == 24 {
        Pixel { r: data[row + 3 * x + 2], g: data[row + 3 * x + 1], b: data[row + 3 * x], a: 255 }
    } else {
        let v: u32 = if d.bits_per_pixel == 16 {
            read_u16(data, row + 2 * x) as u32
        } else {
            read_u32(data, row + 4 * x)
        };
        Pixel {
            r: extract_channel(v, c.red),
            g: extract_channel(v, c.green),
            b: extract_channel(v, c.blue),
            a: if d.alpha_mask == 0 { 255 } else { extract_channel(v, c.alpha) },
        }
    }
}

/// Reads the colour index of one pixel of an indexed depth.
pub fn read_index(data: &[u8], row: usize, x: usize, bpp: u16) -> (r: u8)
    requires
        bpp == 1 || bpp == 4 || bpp == 8,
        bpp == 8 ==> row + x < data@.len(),
        bpp == 4 ==> row + x / 2 < data@.len(),
        bpp == 1 ==> row + x / 8 < data@.len(),
    ensures
        r == index_at(data@, row as int, x as int, bpp as nat),
{
    let _n: usize = data.len();
    if bpp == 8 {
        data[row + x]
    } else if bpp == 4 {
        let b = data[row + x / 2];
        if x % 2 == 0 { b / 16 } else { b % 16 }
    } else {
        let b = data[row + x / 8];
        let k: u32 = (x % 8) as u32;
        assert(k < 8);
        let p = pow2_u64(7 - k);
        ((b as u64 / p) % 2) as u8
    }
}

/// The channels of `pixels` in order, red, green, blue and, when asked for, alpha.
pub open spec fn channel_bytes_spec(pixels: Seq<Pixel>, with_alpha: bool) -> Seq<u8> {
    let n: int = if with_alpha { 4 } else { 3 };
    Seq::new((pixels.len() * n) as nat, |i: int| {
        let p = pixels[i / n];
        let c = i % n;
        if c == 0 { p.r } else if c == 1 { p.g } else if c == 2 { p.b } else { p.a }
    })
}

/// Lays the pixels out as a flat byte buffer, three or four bytes per pixel.
pub fn channel_bytes(pixels: &Vec<Pixel>, with_alpha: bool) -> (r: Vec<u8>)
    requires
        pixels@.len() * 4 <= usize::MAX,
    ensures
        r@ == channel_bytes_spec(pixels@, with_alpha),
{
    let n: usize = if with_alpha { 4 } else { 3 };
    let mut out: Vec<u8> = Vec::new();
    let mut i: usize = 0;
    while i < pixels.len()
        invariant
            n == (if with_alpha { 4int } else { 3int }),
            pixels@.len() * 4 <= usize::MAX,
            i <= pixels@.len(),
            out@ =~= channel_bytes_spec(pixels@, with_alpha).subrange(0, (i * n) as int),
        decreases pixels@.len() - i,
    {
        let p = pixels[i];
        let ghost before = out@;
        out.push(p.r);
        out.push(p.g);
        out.push(p.b);
        if with_alpha {
            out.push(p.a);
        }
        proof {
            let full = channel_bytes_spec(pixels@, with_alpha);
            assert((i + 1) * n == i * n + n) by (nonlinear_arith);
            assert((i + 1) * n <= pixels@.len() * n) by (nonlinear_arith)
                requires i < pixels@.len(), n >= 0;
            assert forall|c: int| 0 <= c < n implies #[trigger] full[i * n + c] == out@[i * n + c] by {
                vstd::arithmetic::div_mod::lemma_fundamental_div_mod_converse(i * n + c, n as int, i as int, c);
            }
            assert(out@ =~= full.subrange(0, ((i + 1) * n) as int));
        }
        i = i + 1;
    }
    proof {
        assert(i * n == pixels@.len() * n);
    }
    out
}

} // verus!
