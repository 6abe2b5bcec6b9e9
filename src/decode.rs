//! Turning body lines into pixels, one image row per line.
use vstd::prelude::*;
use crate::header::{FileHeader, lines_view};
use crate::normalize::{NormMode, digit_of, intensity, intensity_spec, lenient_digit};
use crate::text::chars_of;

verus! {

/// One displayed pixel.
#[derive(Clone, Copy, Debug, PartialEq, Eq, Structural)]
pub struct Pixel {
    pub r: u8,
    pub g: u8,
    pub b: u8,
}

/// Whether the body held a line for every row the header declares.
#[derive(Clone, Copy, Debug, PartialEq, Eq, Structural)]
pub enum DecodeStatus {
    /// Every row was decoded.
    Complete,
    /// The body ran out of lines; later rows were not decoded.
    Truncated,
}

/// The pixel that rows the body does not reach are given.
pub open spec fn background() -> Pixel {
    Pixel { r: 0, g: 0, b: 0 }
}

/// The intensity read from position `i` of a body line; a position past the
/// end of the line reads as digit 0.
pub open spec fn channel_spec(h: FileHeader, mode: NormMode, line: Seq<char>, i: int) -> u8 {
    let base = h.numeric_base as nat;
    let d = if 0 <= i < line.len() {
        lenient_digit(line[i], base)
    } else {
        0
    };
    intensity_spec(mode, base, d) as u8
}

/// Pixel `x` of a row. With one channel per pixel, its single digit fills
/// red, green and blue; otherwise the pixel's first three digits are red,
/// green and blue (a channel the pixel lacks is 0, digits past the third
/// are skipped).
pub open spec fn pixel_spec(h: FileHeader, mode: NormMode, line: Seq<char>, x: int) -> Pixel {
    let cp = h.channels_per_pixel as int;
    if cp == 1 {
        let v = channel_spec(h, mode, line, x);
        Pixel { r: v, g: v, b: v }
    } else {
        Pixel {
            r: if cp > 0 {
                channel_spec(h, mode, line, x * cp)
            } else {
                0
            },
            g: if cp > 1 {
                channel_spec(h, mode, line, x * cp + 1)
            } else {
                0
            },
            b: if cp > 2 {
                channel_spec(h, mode, line, x * cp + 2)
            } else {
                0
            },
        }
    }
}

/// The `width` pixels a body line decodes to.
pub open spec fn row_spec(h: FileHeader, mode: NormMode, line: Seq<char>) -> Seq<Pixel> {
    Seq::new(h.width as nat, |x: int| pixel_spec(h, mode, line, x))
}

/// The rows of `lines`, one after another.
pub open spec fn rows_spec(h: FileHeader, mode: NormMode, lines: Seq<Seq<char>>) -> Seq<Pixel>
    decreases lines.len(),
{
    if lines.len() == 0 {
        seq![]
    } else {
        rows_spec(h, mode, lines.drop_last()) + row_spec(h, mode, lines.last())
    }
}

/// How many rows a body of `n` lines fills.
pub open spec fn rows_filled(h: FileHeader, n: int) -> int {
    if n < h.height {
        n
    } else {
        h.height as int
    }
}

/// The pixels of the rows that `body` reaches, row-major; lines past the
/// declared height are not read.
pub open spec fn decoded_spec(h: FileHeader, mode: NormMode, body: Seq<Seq<char>>) -> Seq<Pixel> {
    rows_spec(h, mode, body.take(rows_filled(h, body.len() as int)))
}

/// `Complete` when the body has a line for every declared row.
pub open spec fn status_spec(h: FileHeader, n: int) -> DecodeStatus {
    if n >= h.height {
        DecodeStatus::Complete
    } else {
        DecodeStatus::Truncated
    }
}

/// Each line adds one row of `width` pixels.
pub proof fn lemma_rows_len(h: FileHeader, mode: NormMode, lines: Seq<Seq<char>>)
    ensures
        rows_spec(h, mode, lines).len() == lines.len() * h.width,
    decreases lines.len(),
{
    if lines.len() > 0 {
        lemma_rows_len(h, mode, lines.drop_last());
        assert(lines.len() * h.width == (lines.len() - 1) * h.width + h.width) by (nonlinear_arith);
    }
}

fn channel(h: &FileHeader, mode: NormMode, line: &Vec<char>, i: usize) -> (r: u8)
    requires
        h.wf(),
    ensures
        r == channel_spec(*h, mode, line@, i as int),
{
    let d: u32 = if i < line.len() {
        digit_of(line[i], h.numeric_base)
    } else {
        0
    };
    intensity(mode, h.numeric_base, d)
}

/// Decodes one body line into a row of `width` pixels.
pub fn decode_row(h: &FileHeader, mode: NormMode, line: &str) -> (r: Vec<Pixel>)
    requires
        h.wf(),
    ensures
        r@ == row_spec(*h, mode, line@),
{
    let chars = chars_of(line);
    let cp = h.channels_per_pixel;
    let len = chars.len();
    let mut out: Vec<Pixel> = Vec::new();
    // start of the current pixel's digits, held at the line's end once past it
    let mut pos: usize = 0;
    let mut x: usize = 0;
    while x < h.width
        invariant
            h.wf(),
            chars@ == line@,
            len == chars.len(),
            cp == h.channels_per_pixel,
            x <= h.width,
            pos == (if x * cp < len {
                x * cp
            } else {
                len as int
            }),
            out@ == row_spec(*h, mode, line@).take(x as int),
        decreases h.width - x,
    {
        let p = if cp == 1 {
            let v = channel(h, mode, &chars, x);
            Pixel { r: v, g: v, b: v }
        } else {
            let r = if cp > 0 {
                channel(h, mode, &chars, pos)
            } else {
                0
            };
            let g = if cp > 1 && len - pos > 1 {
                channel(h, mode, &chars, pos + 1)
            } else {
                0
            };
            let b = if cp > 2 && len - pos > 2 {
                channel(h, mode, &chars, pos + 2)
            } else {
                0
            };
            Pixel { r, g, b }
        };
        proof {
            let ghost xi = x as int;
            let ghost cpi = cp as int;
            assert(intensity_spec(mode, h.numeric_base as nat, 0) == 0);
            if xi * cpi >= len {
                assert(xi * cpi + 1 >= len && xi * cpi + 2 >= len);
            }
            assert(p == pixel_spec(*h, mode, line@, xi));
            assert((xi + 1) * cpi == xi * cpi + cpi) by (nonlinear_arith);
        }
        out.push(p);
        if len - pos < cp {
            pos = len;
        } else {
            pos = pos + cp;
        }
        x = x + 1;
        assert(out@ =~= row_spec(*h, mode, line@).take(x as int));
    }
    assert(out@ =~= row_spec(*h, mode, line@));
    out
}

/// Decodes the rows that `body` reaches, row-major, `width` pixels per row;
/// a body shorter than the declared height gives fewer rows.
pub fn decode_pixels(h: &FileHeader, mode: NormMode, body: &Vec<String>) -> (r: Vec<Pixel>)
    requires
        h.wf(),
    ensures
        r@ == decoded_spec(*h, mode, lines_view(body@)),
        r@.len() == rows_filled(*h, body@.len() as int) * h.width,
{
    let ghost lv = lines_view(body@);
    let n: usize = if body.len() < h.height {
        body.len()
    } else {
        h.height
    };
    let mut out: Vec<Pixel> = Vec::new();
    let mut y: usize = 0;
    while y < n
        invariant
            h.wf(),
            lv == lines_view(body@),
            n <= body.len(),
            y <= n,
            out@ == rows_spec(*h, mode, lv.take(y as int)),
        decreases n - y,
    {
        let mut row = decode_row(h, mode, body[y].as_str());
        proof {
            assert(lv.take(y as int + 1).drop_last() =~= lv.take(y as int));
            assert(lv.take(y as int + 1).last() == body@[y as int]@);
        }
        out.append(&mut row);
        y = y + 1;
    }
    proof {
        lemma_rows_len(*h, mode, lv.take(n as int));
    }
    out
}

/// Writes the rows that `body` reaches over the start of `target`, a
/// `width * height` surface; pixels of rows the body does not reach keep
/// their earlier value. Reports whether every row was written.
pub fn decode_into(h: &FileHeader, mode: NormMode, body: &Vec<String>, target: &mut Vec<Pixel>) -> (r: DecodeStatus)
    requires
        h.wf(),
        old(target)@.len() == h.width * h.height,
    ensures
        final(target)@ == decoded_spec(*h, mode, lines_view(body@)) + old(target)@.skip(
            rows_filled(*h, body@.len() as int) * h.width,
        ),
        final(target)@.len() == old(target)@.len(),
        r == status_spec(*h, body@.len() as int),
{
    let px = decode_pixels(h, mode, body);
    proof {
        lemma_filled_fits(*h, body@.len() as int);
    }
    let ghost start = target@;
    let mut i: usize = 0;
    while i < px.len()
        invariant
            px@.len() <= start.len(),
            i <= px@.len(),
            target@ == px@.take(i as int) + start.skip(i as int),
        decreases px.len() - i,
    {
        target.set(i, px[i]);
        i = i + 1;
        assert(target@ =~= px@.take(i as int) + start.skip(i as int));
    }
    assert(px@.take(i as int) =~= px@);
    if body.len() >= h.height {
        DecodeStatus::Complete
    } else {
        DecodeStatus::Truncated
    }
}

/// The rows a body fills never exceed the image.
pub proof fn lemma_filled_fits(h: FileHeader, n: int)
    requires
        n >= 0,
    ensures
        0 <= rows_filled(h, n) * h.width <= h.width * h.height,
{
    let k = rows_filled(h, n);
    assert(0 <= k * h.width <= h.width * h.height) by (nonlinear_arith)
        requires
            0 <= k <= h.height,
    ;
}

/// A whole image decoded from a body.
pub struct Frame {
    /// `width * height` pixels, row-major.
    pub pixels: Vec<Pixel>,
    pub status: DecodeStatus,
}

/// Decodes a body into a fresh `width * height` image; rows the body does
/// not reach are left at the background (black).
pub fn decode_image(h: &FileHeader, mode: NormMode, body: &Vec<String>) -> (r: Frame)
    requires
        h.wf(),
    ensures
        r.pixels@.len() == h.width * h.height,
        r.pixels@ == decoded_spec(*h, mode, lines_view(body@)) + Seq::new(
            (h.width * h.height - rows_filled(*h, body@.len() as int) * h.width) as nat,
            |i: int| background(),
        ),
        r.status == status_spec(*h, body@.len() as int),
{
    let total = h.width * h.height;
    let mut pixels: Vec<Pixel> = Vec::new();
    let mut i: usize = 0;
    while i < total
        invariant
            i <= total,
            pixels@ == Seq::new(i as nat, |k: int| background()),
        decreases total - i,
    {
        pixels.push(Pixel { r: 0, g: 0, b: 0 });
        i = i + 1;
        assert(pixels@ =~= Seq::new(i as nat, |k: int| background()));
    }
    let ghost start = pixels@;
    let status = decode_into(h, mode, body, &mut pixels);
    proof {
        lemma_filled_fits(*h, body@.len() as int);
        let k = rows_filled(*h, body@.len() as int) * h.width;
        assert(start.skip(k) =~= Seq::new((total - k) as nat, |i: int| background()));
    }
    Frame { pixels, status }
}

} // verus!
