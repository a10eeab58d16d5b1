//! Screen geometry of the waveform: one vertical segment per amplitude.
//!
//! Coordinates are exact fractions, so that the layout is the one the
//! formulas give, with rounding left to whoever draws it.
use vstd::prelude::*;

use crate::waveform::FULL_SCALE;

verus! {

/// An RGBA color.
#[derive(Clone, Copy, Debug, PartialEq, Eq, Structural)]
pub struct Rgba {
    pub r: u8,
    pub g: u8,
    pub b: u8,
    pub a: u8,
}

/// Base color of every segment, shown once its chunk has been played.
pub fn accent_color() -> (c: Rgba)
    ensures
        c == (Rgba { r: 230, g: 41, b: 55, a: 255 }),
{
    Rgba { r: 230, g: 41, b: 55, a: 255 }
}

/// Color of a segment whose chunk has not been played yet.
pub fn dimmed_color() -> (c: Rgba)
    ensures
        c == (Rgba { r: 50, g: 50, b: 50, a: 255 }),
{
    Rgba { r: 50, g: 50, b: 50, a: 255 }
}

/// The value `num / den`; `den` is positive.
#[derive(Clone, Copy, Debug, PartialEq, Eq, Structural)]
pub struct Fraction {
    pub num: i64,
    pub den: i64,
}

/// The vertical segment of one chunk, at horizontal position `x`, from
/// `top` to `bottom`.
#[derive(Clone, Copy, Debug, PartialEq, Eq, Structural)]
pub struct ChunkLine {
    pub x: Fraction,
    pub top: Fraction,
    pub bottom: Fraction,
    pub color: Rgba,
}

/// A reduced value lies in the range that widened samples take.
pub open spec fn peak_in_range(p: int) -> bool {
    -FULL_SCALE - 1 <= p <= FULL_SCALE
}

/// The segment of chunk `i` of `n`, amplitude `p / FULL_SCALE`, on a canvas of
/// `width` by `height`: at `x = i * width / n`, from
/// `top = (a + 1) * height / 2` to `bottom = height - top`.
pub open spec fn chunk_line_of(i: int, p: int, n: int, width: int, height: int) -> ChunkLine {
    ChunkLine {
        x: Fraction { num: (i * width) as i64, den: n as i64 },
        top: Fraction { num: ((p + FULL_SCALE) * height) as i64, den: (2 * FULL_SCALE) as i64 },
        bottom: Fraction { num: ((FULL_SCALE - p) * height) as i64, den: (2 * FULL_SCALE) as i64 },
        color: Rgba { r: 230, g: 41, b: 55, a: 255 },
    }
}

/// Width of each column: `width / n`.
pub fn column_width(width: i32, n: usize) -> (r: Fraction)
    requires
        width >= 0,
        1 <= n <= i32::MAX,
    ensures
        r == (Fraction { num: width as i64, den: n as i64 }),
{
    Fraction { num: width as i64, den: n as i64 }
}

/// Lays out one vertical segment per reduced value, left to right.
pub fn build_lines(peaks: &Vec<i32>, width: i32, height: i32) -> (r: Vec<ChunkLine>)
    requires
        width >= 0,
        height >= 0,
        peaks@.len() <= i32::MAX,
        forall|k: int| 0 <= k < peaks@.len() ==> #[trigger] peak_in_range(peaks@[k] as int),
    ensures
        r@.len() == peaks@.len(),
        forall|i: int|
            0 <= i < r@.len() ==> #[trigger] r@[i] == chunk_line_of(
                i,
                peaks@[i] as int,
                peaks@.len() as int,
                width as int,
                height as int,
            ),
{
    let n = peaks.len();
    let mut out: Vec<ChunkLine> = Vec::new();
    let mut i: usize = 0;
    while i < n
        invariant
            n == peaks@.len(),
            n <= i32::MAX,
            0 <= width,
            0 <= height,
            i <= n,
            forall|k: int| 0 <= k < peaks@.len() ==> #[trigger] peak_in_range(peaks@[k] as int),
            out@.len() == i,
            forall|j: int|
                0 <= j < i ==> #[trigger] out@[j] == chunk_line_of(
                    j,
                    peaks@[j] as int,
                    n as int,
                    width as int,
                    height as int,
                ),
        decreases n - i,
    {
        let p = peaks[i] as i64;
        assert(peak_in_range(peaks@[i as int] as int));
        proof {
            assert(i * width <= 0x7fff_ffff * 0x7fff_ffff) by (nonlinear_arith)
                requires
                    i <= 0x7fff_ffff,
                    0 <= width <= 0x7fff_ffff,
            ;
            assert((p + FULL_SCALE) * height <= 0x1000000 * 0x7fff_ffff) by (nonlinear_arith)
                requires
                    -1 <= p + FULL_SCALE <= 0x1000000,
                    0 <= height <= 0x7fff_ffff,
            ;
            assert((p + FULL_SCALE) * height >= -0x7fff_ffff) by (nonlinear_arith)
                requires
                    -1 <= p + FULL_SCALE,
                    0 <= height <= 0x7fff_ffff,
            ;
            assert((FULL_SCALE - p) * height <= 0x1000000 * 0x7fff_ffff) by (nonlinear_arith)
                requires
                    0 <= FULL_SCALE - p <= 0x1000000,
                    0 <= height <= 0x7fff_ffff,
            ;
            assert((FULL_SCALE - p) * height >= 0) by (nonlinear_arith)
                requires
                    0 <= FULL_SCALE - p,
                    0 <= height,
            ;
        }
        let line = ChunkLine {
            x: Fraction { num: i as i64 * width as i64, den: n as i64 },
            top: Fraction {
                num: (p + FULL_SCALE as i64) * height as i64,
                den: 2 * FULL_SCALE as i64,
            },
            bottom: Fraction {
                num: (FULL_SCALE as i64 - p) * height as i64,
                den: 2 * FULL_SCALE as i64,
            },
            color: accent_color(),
        };
        out.push(line);
        i = i + 1;
    }
    out
}

/// Color to draw chunk `i` with: its own color once revealed, else dimmed.
pub fn line_color(line: &ChunkLine, i: usize, last_revealed: usize) -> (c: Rgba)
    ensures
        c == if i <= last_revealed {
            line.color
        } else {
            Rgba { r: 50, g: 50, b: 50, a: 255 }
        },
{
    if crate::playback::is_revealed(i, last_revealed) {
        line.color
    } else {
        dimmed_color()
    }
}

} // verus!
