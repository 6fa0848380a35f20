//! The run-length decompressor for four- and eight-bit colour indices.
//!
//! It is a state machine over the compressed stream: the state is the read
//! position and the output cursor, and each step reads one operation and
//! applies it. The output holds one index per pixel, in stored row order.
use vstd::prelude::*;
use crate::error::{ImageError, ErrorKind, format_error};
use crate::error::agrees_vec;

verus! {

/// One operation of the compressed stream.
#[derive(Debug, Clone, Copy, PartialEq, Eq, Structural)]
pub enum RleOp {
    /// `count` pixels from one byte value.
    Run { count: u8, value: u8 },
    /// Move to the start of the next row.
    EndOfLine,
    /// The image is complete.
    EndOfBitmap,
    /// Move the cursor right by `dx` and up by `dy` rows.
    Delta { dx: u8, dy: u8 },
    /// `count` indices stored as they are, padded to an even number of bytes.
    Literal { count: u8 },
}

/// The operation at `pos`, if its leading bytes are there.
pub open spec fn op_at(s: Seq<u8>, pos: int) -> Option<RleOp> {
    if pos < 0 || pos + 2 > s.len() {
        None
    } else if s[pos] > 0 {
        Some(RleOp::Run { count: s[pos], value: s[pos + 1] })
    } else if s[pos + 1] == 0 {
        Some(RleOp::EndOfLine)
    } else if s[pos + 1] == 1 {
        Some(RleOp::EndOfBitmap)
    } else if s[pos + 1] == 2 {
        if pos + 4 > s.len() {
            None
        } else {
            Some(RleOp::Delta { dx: s[pos + 2], dy: s[pos + 3] })
        }
    } else {
        Some(RleOp::Literal { count: s[pos + 1] })
    }
}

/// Bytes that hold `count` literal indices, padding included.
pub open spec fn literal_bytes(count: nat, four: bool) -> nat {
    let n = if four { (count + 1) / 2 } else { count };
    n + n % 2
}

/// Bytes that an operation takes in the stream.
pub open spec fn op_len(op: RleOp, four: bool) -> nat {
    match op {
        RleOp::Delta { .. } => 4,
        RleOp::Literal { count } => 2 + literal_bytes(count as nat, four),
        _ => 2,
    }
}

/// Index `k` of a run: with four-bit indices the two halves of the byte alternate.
pub open spec fn run_value(v: u8, k: int, four: bool) -> u8 {
    if !four { v } else if k % 2 == 0 { v / 16 } else { v % 16 }
}

/// Index `k` of a literal whose bytes start at `start`.
pub open spec fn literal_value(s: Seq<u8>, start: int, k: int, four: bool) -> u8 {
    if !four { s[start + k] } else if k % 2 == 0 { s[start + k / 2] / 16 } else { s[start + k / 2] % 16 }
}

pub open spec fn write_run(out: Seq<u8>, at: int, n: int, v: u8, four: bool) -> Seq<u8> {
    Seq::new(out.len(), |i: int| if at <= i < at + n { run_value(v, i - at, four) } else { out[i] })
}

pub open spec fn write_literal(out: Seq<u8>, at: int, n: int, s: Seq<u8>, start: int, four: bool) -> Seq<u8> {
    Seq::new(out.len(), |i: int| if at <= i < at + n { literal_value(s, start, i - at, four) } else { out[i] })
}

/// The state of the decompressor.
#[derive(Debug, Clone, Copy, PartialEq, Eq, Structural)]
pub struct RleCursor {
    /// Read position in the stream.
    pub pos: usize,
    /// Column of the output cursor; equal to the width at the end of a row.
    pub x: usize,
    /// Row of the output cursor, in stored order.
    pub y: usize,
}

/// Decompresses from state `(pos, x, y, out)` for an image of `w` by `h` pixels.
/// It ends once the cursor has reached `w * h` pixels.
pub open spec fn rle_from(s: Seq<u8>, pos: int, x: int, y: int, out: Seq<u8>, w: int, h: int, four: bool) -> Result<Seq<u8>, ErrorKind>
    decreases s.len() - pos,
{
    if y * w + x >= w * h {
        Ok(out)
    } else {
        match op_at(s, pos) {
            None => Err(ErrorKind::Format),
            Some(op) => {
                let next = pos + op_len(op, four);
                if next > s.len() {
                    Err(ErrorKind::Format)
                } else {
                    match op {
                        RleOp::Run { count, value } => if x + count > w {
                            Err(ErrorKind::Format)
                        } else {
                            rle_from(s, next, x + count, y, write_run(out, y * w + x, count as int, value, four), w, h, four)
                        },
                        RleOp::EndOfLine => rle_from(s, next, 0, y + 1, out, w, h, four),
                        RleOp::EndOfBitmap => Err(ErrorKind::Format),
                        RleOp::Delta { dx, dy } => if x + dx > w || (y + dy) * w + x + dx > w * h {
                            Err(ErrorKind::Format)
                        } else {
                            rle_from(s, next, x + dx, y + dy, out, w, h, four)
                        },
                        RleOp::Literal { count } => if x + count > w {
                            Err(ErrorKind::Format)
                        } else {
                            rle_from(s, next, x + count, y, write_literal(out, y * w + x, count as int, s, pos + 2, four), w, h, four)
                        },
                    }
                }
            },
        }
    }
}

/// Decompresses the stream that starts at `start`; skipped pixels keep index zero.
pub open spec fn rle_spec(s: Seq<u8>, start: int, w: int, h: int, four: bool) -> Result<Seq<u8>, ErrorKind> {
    rle_from(s, start, 0, 0, Seq::new((w * h) as nat, |i: int| 0u8), w, h, four)
}

/// Reads the operation at `pos`.
pub fn read_op(data: &[u8], pos: usize) -> (r: Option<RleOp>)
    ensures
        r == op_at(data@, pos as int),
{
    let n: usize = data.len();
    if pos >= n || n - pos < 2 {
        None
    } else if data[pos] > 0 {
        Some(RleOp::Run { count: data[pos], value: data[pos + 1] })
    } else if data[pos + 1] == 0 {
        Some(RleOp::EndOfLine)
    } else if data[pos + 1] == 1 {
        Some(RleOp::EndOfBitmap)
    } else if data[pos + 1] == 2 {
        if n - pos < 4 {
            None
        } else {
            Some(RleOp::Delta { dx: data[pos + 2], dy: data[pos + 3] })
        }
    } else {
        Some(RleOp::Literal { count: data[pos + 1] })
    }
}

fn fill_run(out: &mut Vec<u8>, at: usize, n: usize, v: u8, four: bool)
    requires
        at + n <= old(out)@.len(),
    ensures
        final(out)@ == write_run(old(out)@, at as int, n as int, v, four),
{
    let mut k: usize = 0;
    while k < n
        invariant
            at + n <= out@.len(),
            k <= n,
            out@ == write_run(old(out)@, at as int, k as int, v, four),
        decreases n - k,
    {
        let _l: usize = out.len();
        let val = if !four { v } else if k % 2 == 0 { v / 16 } else { v % 16 };
        out.set(at + k, val);
        k = k + 1;
    }
}

fn fill_literal(out: &mut Vec<u8>, at: usize, n: usize, data: &[u8], start: usize, four: bool)
    requires
        at + n <= old(out)@.len(),
        !four ==> start + n <= data@.len(),
        four ==> start + (n + 1) / 2 <= data@.len(),
    ensures
        final(out)@ == write_literal(old(out)@, at as int, n as int, data@, start as int, four),
{
    let mut k: usize = 0;
    while k < n
        invariant
            at + n <= out@.len(),
            k <= n,
            !four ==> start + n <= data@.len(),
            four ==> start + (n + 1) / 2 <= data@.len(),
            out@ == write_literal(old(out)@, at as int, k as int, data@, start as int, four),
        decreases n - k,
    {
        let _l: usize = out.len();
        let _m: usize = data.len();
        let val = if !four {
            data[start + k]
        } else if k % 2 == 0 {
            data[start + k / 2] / 16
        } else {
            data[start + k / 2] % 16
        };
        out.set(at + k, val);
        k = k + 1;
    }
}

/// Decompresses the stream that starts at `start` into `w * h` colour indices.
pub fn rle_decode(data: &[u8], start: usize, w: usize, h: usize, four: bool) -> (r: Result<Vec<u8>, ImageError>)
    requires
        w * h <= 0x1000_0000,
    ensures
        agrees_vec(r, rle_spec(data@, start as int, w as int, h as int, four)),
        r is Ok ==> r->Ok_0@.len() == w * h,
{
    let total: usize = w * h;
    let mut out: Vec<u8> = Vec::new();
    while out.len() < total
        invariant
            total == w * h,
            out@.len() <= total,
            forall|i: int| 0 <= i < out@.len() ==> out@[i] == 0u8,
        decreases total - out@.len(),
    {
        out.push(0);
    }
    assert(out@ =~= Seq::new((w * h) as nat, |i: int| 0u8));
    let mut cur = RleCursor { pos: start, x: 0, y: 0 };
    let n: usize = data.len();
    loop
        invariant
            total == w * h <= 0x1000_0000,
            n == data@.len(),
            out@.len() == total,
            cur.x <= w,
            cur.y * w + cur.x <= total,
            rle_spec(data@, start as int, w as int, h as int, four)
                == rle_from(data@, cur.pos as int, cur.x as int, cur.y as int, out@, w as int, h as int, four),
        decreases n - cur.pos,
    {
        let at: usize = cur.y * w + cur.x;
        if at >= total {
            return Ok(out);
        }
        proof {
            if w == 0 {
                assert(w * h == 0);
            }
            assert(cur.y <= cur.y * w) by (nonlinear_arith)
                requires w >= 1, cur.y >= 0;
            assert((cur.y + 1) * w <= w * h) by (nonlinear_arith)
                requires cur.y * w + cur.x < w * h, cur.x >= 0, w >= 1;
            assert((cur.y + 1) * w == cur.y * w + w) by (nonlinear_arith);
            assert(cur.y < h) by (nonlinear_arith)
                requires (cur.y + 1) * w <= w * h, w >= 1;
        }
        let op = match read_op(data, cur.pos) {
            None => { return Err(format_error("truncated compressed data")); },
            Some(op) => op,
        };
        let len: usize = match op {
            RleOp::Delta { .. } => 4,
            RleOp::Literal { count } => {
                let c = count as usize;
                let b: usize = if four { (c + 1) / 2 } else { c };
                2 + b + b % 2
            },
            _ => 2,
        };
        if n - cur.pos < len {
            return Err(format_error("truncated compressed data"));
        }
        let next: usize = cur.pos + len;
        match op {
            RleOp::Run { count, value } => {
                if cur.x + count as usize > w {
                    return Err(format_error("run crosses the end of a row"));
                }
                fill_run(&mut out, at, count as usize, value, four);
                cur = RleCursor { pos: next, x: cur.x + count as usize, y: cur.y };
            },
            RleOp::EndOfLine => {
                cur = RleCursor { pos: next, x: 0, y: cur.y + 1 };
            },
            RleOp::EndOfBitmap => {
                return Err(format_error("end of bitmap before the last pixel"));
            },
            RleOp::Delta { dx, dy } => {
                if cur.x + dx as usize > w {
                    return Err(format_error("delta leaves the image"));
                }
                if dy as usize > h {
                    proof {
                        assert((cur.y + dy) * w + cur.x + dx > w * h) by (nonlinear_arith)
                            requires dy > h, w >= 1, cur.y >= 0, cur.x >= 0, dx >= 0;
                    }
                    return Err(format_error("delta leaves the image"));
                }
                let ny: usize = cur.y + dy as usize;
                proof {
                    assert(ny * w <= (h + h) * w) by (nonlinear_arith)
                        requires ny <= h + h, w >= 0;
                    assert((h + h) * w == 2 * (w * h)) by (nonlinear_arith);
                }
                let target: usize = ny * w + cur.x + dx as usize;
                if target > total {
                    return Err(format_error("delta leaves the image"));
                }
                cur = RleCursor { pos: next, x: cur.x + dx as usize, y: ny };
            },
            RleOp::Literal { count } => {
                if cur.x + count as usize > w {
                    return Err(format_error("literal crosses the end of a row"));
                }
                fill_literal(&mut out, at, count as usize, data, cur.pos + 2, four);
                cur = RleCursor { pos: next, x: cur.x + count as usize, y: cur.y };
            },
        }
    }
}

} // verus!
