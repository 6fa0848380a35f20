//! The file header and the information header, normalised into one descriptor.
use vstd::prelude::*;
use crate::bytes::{le16, le32, le32_signed, read_u16, read_u32, read_i32};
use crate::error::{ErrorKind, ImageError, agrees, format_error, unsupported_error};

verus! {

/// Largest pixel buffer, in bytes at four channels per pixel, that a header may ask for.
pub const MAX_PIXEL_BYTES: u64 = 1073741824;

/// How the pixel data is stored.
#[derive(Debug, Clone, Copy, PartialEq, Eq, Structural)]
pub enum Compression {
    Uncompressed,
    Rle8,
    Rle4,
    Bitfields,
}

/// Everything the pixel decoder needs to know about an image, whatever header layout it came in.
#[derive(Debug, Clone, Copy, PartialEq, Eq, Structural)]
pub struct ImageDescriptor {
    /// Pixels per row; at least one.
    pub width: u32,
    /// Number of rows; at least one.
    pub height: u32,
    /// Rows are stored top row first (negative height in the header).
    pub top_down: bool,
    pub bits_per_pixel: u16,
    pub compression: Compression,
    /// Number of colour table entries; zero above eight bits per pixel.
    pub palette_len: u32,
    /// Bytes per colour table entry: three for the oldest header, four otherwise.
    pub palette_entry_size: u32,
    /// Position of the colour table in the stream.
    pub palette_offset: u32,
    /// Position of the pixel data in the stream.
    pub data_offset: u32,
    pub red_mask: u32,
    pub green_mask: u32,
    pub blue_mask: u32,
    /// Zero when the image carries no alpha channel.
    pub alpha_mask: u32,
}

pub open spec fn supported_bpp(bpp: nat) -> bool {
    bpp == 1 || bpp == 4 || bpp == 8 || bpp == 16 || bpp == 24 || bpp == 32
}

pub open spec fn known_info_len(n: nat) -> bool {
    n == 12 || n == 40 || n == 52 || n == 56 || n == 108 || n == 124
}

/// Colour table entries that an indexed depth can address.
pub open spec fn max_colors(bpp: nat) -> nat {
    if bpp == 1 { 2 } else if bpp == 4 { 16 } else { 256 }
}

/// The header's demand on memory stays under the ceiling.
pub open spec fn within_ceiling(width: nat, height: nat) -> bool {
    width * height * 4 <= MAX_PIXEL_BYTES
}

/// Bytes in one stored row, padding to a multiple of four included.
pub open spec fn row_stride(width: nat, bpp: nat) -> nat {
    ((width * bpp + 31) / 32 * 4) as nat
}

/// The descriptor is one that the header parser can produce.
pub open spec fn valid_descriptor(d: ImageDescriptor) -> bool {
    &&& d.width >= 1
    &&& d.height >= 1
    &&& supported_bpp(d.bits_per_pixel as nat)
    &&& within_ceiling(d.width as nat, d.height as nat)
    &&& d.palette_len <= 256
    &&& (d.bits_per_pixel <= 8 ==> d.palette_len >= 1)
    &&& (d.palette_entry_size == 3 || d.palette_entry_size == 4)
    &&& (d.compression == Compression::Rle8 ==> d.bits_per_pixel == 8)
    &&& (d.compression == Compression::Rle4 ==> d.bits_per_pixel == 4)
    &&& (d.compression == Compression::Bitfields ==> d.bits_per_pixel == 16 || d.bits_per_pixel == 32)
}

/// The descriptor for the oldest header layout, twelve bytes long.
pub open spec fn core_header(s: Seq<u8>) -> Result<ImageDescriptor, ErrorKind> {
    let width = le16(s, 18);
    let height = le16(s, 20);
    let bpp = le16(s, 24);
    if width == 0 || height == 0 {
        Err(ErrorKind::Format)
    } else if !(bpp == 1 || bpp == 4 || bpp == 8 || bpp == 24) {
        Err(ErrorKind::Format)
    } else if !within_ceiling(width, height) {
        Err(ErrorKind::Format)
    } else {
        Ok(ImageDescriptor {
            width: width as u32,
            height: height as u32,
            top_down: false,
            bits_per_pixel: bpp as u16,
            compression: Compression::Uncompressed,
            palette_len: if bpp <= 8 { max_colors(bpp) as u32 } else { 0 },
            palette_entry_size: 3,
            palette_offset: 26,
            data_offset: le32(s, 10) as u32,
            red_mask: 0,
            green_mask: 0,
            blue_mask: 0,
            alpha_mask: 0,
        })
    }
}

pub open spec fn compression_of(c: nat) -> Compression {
    if c == 1 { Compression::Rle8 }
    else if c == 2 { Compression::Rle4 }
    else if c == 3 { Compression::Bitfields }
    else { Compression::Uncompressed }
}

pub open spec fn compression_fits(c: nat, bpp: nat) -> bool {
    (c == 1 ==> bpp == 8) && (c == 2 ==> bpp == 4) && (c == 3 ==> bpp == 16 || bpp == 32)
}

/// The colour masks as (red, green, blue, alpha).
pub open spec fn masks_of(s: Seq<u8>, info_len: nat, c: nat, bpp: nat) -> (u32, u32, u32, u32) {
    if c == 3 {
        (le32(s, 54) as u32, le32(s, 58) as u32, le32(s, 62) as u32,
            if info_len >= 56 { le32(s, 66) as u32 } else { 0 })
    } else if bpp == 16 {
        (0x7C00, 0x03E0, 0x001F, 0)
    } else if bpp == 32 {
        (0x00FF_0000, 0x0000_FF00, 0x0000_00FF, 0)
    } else {
        (0, 0, 0, 0)
    }
}

/// The descriptor for the forty-byte header and its longer successors.
pub open spec fn info_header(s: Seq<u8>) -> Result<ImageDescriptor, ErrorKind> {
    let info_len = le32(s, 14);
    let width = le32_signed(s, 18);
    let height = le32_signed(s, 22);
    let bpp = le16(s, 28);
    let c = le32(s, 30);
    let colors = le32(s, 46);
    let abs_height = if height < 0 { -height } else { height };
    if width <= 0 || height == 0 || height == -0x8000_0000 {
        Err(ErrorKind::Format)
    } else if !supported_bpp(bpp) {
        Err(ErrorKind::Format)
    } else if c > 3 {
        Err(ErrorKind::Unsupported)
    } else if !compression_fits(c, bpp) {
        Err(ErrorKind::Format)
    } else if c == 3 && s.len() < 14 + info_len + (if info_len == 40 { 12int } else { 0 }) {
        Err(ErrorKind::Format)
    } else if bpp <= 8 && colors > max_colors(bpp) {
        Err(ErrorKind::Format)
    } else if !within_ceiling(width as nat, abs_height as nat) {
        Err(ErrorKind::Format)
    } else {
        let m = masks_of(s, info_len, c, bpp);
        Ok(ImageDescriptor {
            width: width as u32,
            height: abs_height as u32,
            top_down: height < 0,
            bits_per_pixel: bpp as u16,
            compression: compression_of(c),
            palette_len: if bpp > 8 { 0 } else if colors == 0 { max_colors(bpp) as u32 } else { colors as u32 },
            palette_entry_size: 4,
            palette_offset: (14 + info_len + (if c == 3 && info_len == 40 { 12int } else { 0 })) as u32,
            data_offset: le32(s, 10) as u32,
            red_mask: m.0,
            green_mask: m.1,
            blue_mask: m.2,
            alpha_mask: m.3,
        })
    }
}

/// What the header parser makes of a stream.
pub open spec fn header_spec(s: Seq<u8>) -> Result<ImageDescriptor, ErrorKind> {
    if s.len() < 18 || s[0] != 0x42 || s[1] != 0x4D {
        Err(ErrorKind::Format)
    } else if !known_info_len(le32(s, 14)) {
        Err(ErrorKind::Unsupported)
    } else if s.len() < 14 + le32(s, 14) {
        Err(ErrorKind::Format)
    } else if le32(s, 14) == 12 {
        core_header(s)
    } else {
        info_header(s)
    }
}

/// A descriptor produced by the parser is well formed.
pub proof fn lemma_header_valid(s: Seq<u8>)
    requires
        header_spec(s) is Ok,
    ensures
        valid_descriptor(header_spec(s)->Ok_0),
{
    let d = header_spec(s)->Ok_0;
    if le32(s, 14) == 12 {
        let width = le16(s, 18);
        let height = le16(s, 20);
        assert(width * height * 4 <= MAX_PIXEL_BYTES);
    }
}

/// Tells whether an image of this size would need more than the ceiling allows.
pub fn exceeds_ceiling(width: u32, height: u32) -> (r: bool)
    ensures
        r == !within_ceiling(width as nat, height as nat),
{
    let w = width as u64;
    let h = height as u64;
    proof {
        assert(w * h <= 0xFFFF_FFFF * 0xFFFF_FFFF) by (nonlinear_arith)
            requires w <= 0xFFFF_FFFF, h <= 0xFFFF_FFFF;
    }
    let p = w * h;
    p > MAX_PIXEL_BYTES / 4
}

fn parse_core(data: &[u8]) -> (r: Result<ImageDescriptor, ImageError>)
    requires
        data@.len() >= 26,
    ensures
        agrees(r, core_header(data@)),
{
    let width = read_u16(data, 18);
    let height = read_u16(data, 20);
    let bpp = read_u16(data, 24);
    if width == 0 || height == 0 {
        return Err(format_error("image dimensions must be positive"));
    }
    if !(bpp == 1 || bpp == 4 || bpp == 8 || bpp == 24) {
        return Err(format_error("invalid bit count"));
    }
    if exceeds_ceiling(width as u32, height as u32) {
        return Err(format_error("image too large"));
    }
    let palette_len: u32 = if bpp == 1 { 2 } else if bpp == 4 { 16 } else if bpp == 8 { 256 } else { 0 };
    Ok(ImageDescriptor {
        width: width as u32,
        height: height as u32,
        top_down: false,
        bits_per_pixel: bpp,
        compression: Compression::Uncompressed,
        palette_len,
        palette_entry_size: 3,
        palette_offset: 26,
        data_offset: read_u32(data, 10),
        red_mask: 0,
        green_mask: 0,
        blue_mask: 0,
        alpha_mask: 0,
    })
}

fn parse_info(data: &[u8], info_len: u32) -> (r: Result<ImageDescriptor, ImageError>)
    requires
        info_len == le32(data@, 14),
        known_info_len(info_len as nat),
        info_len != 12,
        data@.len() >= 14 + info_len,
    ensures
        agrees(r, info_header(data@)),
{
    let width = read_i32(data, 18);
    let height = read_i32(data, 22);
    let bpp = read_u16(data, 28);
    let c = read_u32(data, 30);
    let colors = read_u32(data, 46);
    if width <= 0 || height == 0 || height == i32::MIN {
        return Err(format_error("image dimensions must be positive"));
    }
    let abs_height: u32 = if height < 0 { (-height) as u32 } else { height as u32 };
    if !(bpp == 1 || bpp == 4 || bpp == 8 || bpp == 16 || bpp == 24 || bpp == 32) {
        return Err(format_error("invalid bit count"));
    }
    if c > 3 {
        return Err(unsupported_error("unsupported compression"));
    }
    if !((c != 1 || bpp == 8) && (c != 2 || bpp == 4) && (c != 3 || bpp == 16 || bpp == 32)) {
        return Err(format_error("compression does not fit the bit count"));
    }
    let extra: u32 = if c == 3 && info_len == 40 { 12 } else { 0 };
    if c == 3 && (data.len() as u64) < 14 + info_len as u64 + extra as u64 {
        return Err(format_error("missing colour masks"));
    }
    let max: u32 = if bpp == 1 { 2 } else if bpp == 4 { 16 } else { 256 };
    if bpp <= 8 && colors > max {
        return Err(format_error("colour table too long"));
    }
    if exceeds_ceiling(width as u32, abs_height) {
        return Err(format_error("image too large"));
    }
    let (red_mask, green_mask, blue_mask, alpha_mask) = if c == 3 {
        (read_u32(data, 54), read_u32(data, 58), read_u32(data, 62),
            if info_len >= 56 { read_u32(data, 66) } else { 0 })
    } else if bpp == 16 {
        (0x7C00u32, 0x03E0u32, 0x001Fu32, 0u32)
    } else if bpp == 32 {
        (0x00FF_0000u32, 0x0000_FF00u32, 0x0000_00FFu32, 0u32)
    } else {
        (0u32, 0u32, 0u32, 0u32)
    };
    let compression = if c == 1 {
        Compression::Rle8
    } else if c == 2 {
        Compression::Rle4
    } else if c == 3 {
        Compression::Bitfields
    } else {
        Compression::Uncompressed
    };
    let palette_len: u32 = if bpp > 8 { 0 } else if colors == 0 { max } else { colors };
    Ok(ImageDescriptor {
        width: width as u32,
        height: abs_height,
        top_down: height < 0,
        bits_per_pixel: bpp,
        compression,
        palette_len,
        palette_entry_size: 4,
        palette_offset: 14 + info_len + extra,
        data_offset: read_u32(data, 10),
        red_mask,
        green_mask,
        blue_mask,
        alpha_mask,
    })
}

/// Parses the file header and the information header.
pub fn parse_header(data: &[u8]) -> (r: Result<ImageDescriptor, ImageError>)
    ensures
        agrees(r, header_spec(data@)),
        r is Ok ==> valid_descriptor(r->Ok_0),
{
    if data.len() < 18 || data[0] != 0x42 || data[1] != 0x4D {
        return Err(format_error("not a BMP stream"));
    }
    let info_len = read_u32(data, 14);
    if !(info_len == 12 || info_len == 40 || info_len == 52 || info_len == 56 || info_len == 108
        || info_len == 124) {
        return Err(unsupported_error("unknown information header"));
    }
    if (data.len() as u64) < 14 + info_len as u64 {
        return Err(format_error("truncated header"));
    }
    let r = if info_len == 12 {
        parse_core(data)
    } else {
        parse_info(data, info_len)
    };
    proof {
        if r is Ok {
            lemma_header_valid(data@);
        }
    }
    r
}

} // verus!
