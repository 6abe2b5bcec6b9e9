//! Whole files: header, body, and the flat RGB buffer an image encoder takes.
use vstd::prelude::*;
use vstd::string::StrSliceExecFns;
use crate::decode::{Frame, Pixel, decode_image, decode_pixels, decoded_spec, rows_filled, background, status_spec};
use crate::header::{FileHeader, HeaderError, header_spec, lines_view, parse_header};
use crate::normalize::NormMode;

verus! {

/// Why a file could not be turned into an image.
#[derive(Clone, Copy, Debug, PartialEq, Eq, Structural)]
pub enum DecodeError {
    /// The header is missing or does not read.
    Header(HeaderError),
    /// The header reads but cannot be decoded: a base outside 2 to 36, no
    /// pixels, or an image too large to hold.
    InvalidHeader,
    /// The pixels do not cover the declared image exactly.
    BufferSizeMismatch,
}

/// Red, green and blue of each pixel in turn.
pub open spec fn rgb_bytes(px: Seq<Pixel>) -> Seq<u8>
    decreases px.len(),
{
    if px.len() == 0 {
        seq![]
    } else {
        rgb_bytes(px.drop_last()) + seq![px.last().r, px.last().g, px.last().b]
    }
}

/// Lays out `width * height` pixels as an 8-bit RGB buffer, three bytes per
/// pixel; any other number of pixels is refused.
pub fn to_rgb_bytes(h: &FileHeader, pixels: &Vec<Pixel>) -> (r: Result<Vec<u8>, DecodeError>)
    requires
        h.wf(),
    ensures
        pixels@.len() != h.width * h.height ==> r == Err::<Vec<u8>, DecodeError>(
            DecodeError::BufferSizeMismatch,
        ),
        pixels@.len() == h.width * h.height ==> (r matches Ok(b) && b@ == rgb_bytes(pixels@)),
{
    if pixels.len() != h.width * h.height {
        return Err(DecodeError::BufferSizeMismatch);
    }
    let mut out: Vec<u8> = Vec::new();
    let mut i: usize = 0;
    while i < pixels.len()
        invariant
            h.wf(),
            pixels@.len() == h.width * h.height,
            i <= pixels@.len(),
            out@ == rgb_bytes(pixels@.take(i as int)),
            out@.len() == 3 * i,
        decreases pixels.len() - i,
    {
        let p = pixels[i];
        out.push(p.r);
        out.push(p.g);
        out.push(p.b);
        proof {
            assert(pixels@.take(i as int + 1).drop_last() =~= pixels@.take(i as int));
        }
        i = i + 1;
        assert(out@ =~= rgb_bytes(pixels@.take(i as int)));
    }
    assert(pixels@.take(i as int) =~= pixels@);
    Ok(out)
}

/// Whether each row the body reaches holds a character for every channel
/// of every pixel of that row.
pub open spec fn rows_long_enough_spec(h: FileHeader, body: Seq<Seq<char>>) -> bool {
    forall|y: int|
        0 <= y < rows_filled(h, body.len() as int) ==> (#[trigger] body[y]).len() >= h.width
            * h.channels_per_pixel
}

/// The RGB buffer a body exports to under export-mode intensities: only a
/// body with a line for every declared row, each line long enough for its
/// row, gives one.
pub open spec fn export_spec(h: FileHeader, body: Seq<Seq<char>>) -> Result<Seq<u8>, DecodeError> {
    if body.len() >= h.height && rows_long_enough_spec(h, body) {
        Ok(rgb_bytes(decoded_spec(h, NormMode::Export, body)))
    } else {
        Err(DecodeError::BufferSizeMismatch)
    }
}

/// Whether every row that `body` reaches is long enough for its pixels.
pub fn rows_long_enough(h: &FileHeader, body: &Vec<String>) -> (r: bool)
    requires
        h.wf(),
    ensures
        r == rows_long_enough_spec(*h, lines_view(body@)),
{
    let ghost lv = lines_view(body@);
    let n: usize = if body.len() < h.height {
        body.len()
    } else {
        h.height
    };
    let need = h.width.checked_mul(h.channels_per_pixel);
    let mut y: usize = 0;
    while y < n
        invariant
            lv == lines_view(body@),
            n == rows_filled(*h, body@.len() as int),
            n <= body.len(),
            y <= n,
            need matches Some(k) ==> k == h.width * h.channels_per_pixel,
            need is None ==> h.width * h.channels_per_pixel > usize::MAX,
            forall|k: int| 0 <= k < y ==> (#[trigger] lv[k]).len() >= h.width * h.channels_per_pixel,
        decreases n - y,
    {
        let len = body[y].as_str().unicode_len();
        assert(lv[y as int] == body@[y as int]@);
        match need {
            Some(k) => {
                if len < k {
                    return false;
                }
            },
            None => {
                return false;
            },
        }
        y = y + 1;
    }
    true
}

/// Decodes a body with export-mode intensities into an RGB buffer of the
/// whole image; a body with fewer lines than declared rows, or with a row
/// line too short for its pixels, cannot fill it.
pub fn export_body(h: &FileHeader, body: &Vec<String>) -> (r: Result<Vec<u8>, DecodeError>)
    requires
        h.wf(),
    ensures
        r matches Ok(b) ==> export_spec(*h, lines_view(body@)) == Ok::<Seq<u8>, DecodeError>(b@),
        r matches Err(e) ==> export_spec(*h, lines_view(body@)) == Err::<Seq<u8>, DecodeError>(e),
{
    if body.len() < h.height || !rows_long_enough(h, body) {
        return Err(DecodeError::BufferSizeMismatch);
    }
    let px = decode_pixels(h, NormMode::Export, body);
    proof {
        assert(px@.len() == h.width * h.height) by (nonlinear_arith)
            requires
                px@.len() == h.height * h.width,
        ;
    }
    to_rgb_bytes(h, &px)
}

/// The lines after the header.
pub open spec fn body_view(lines: Seq<Seq<char>>) -> Seq<Seq<char>> {
    if lines.len() >= 2 {
        lines.skip(2)
    } else {
        seq![]
    }
}

/// Copies the lines after the two header lines.
pub fn body_lines(lines: &Vec<String>) -> (r: Vec<String>)
    ensures
        lines_view(r@) == body_view(lines_view(lines@)),
{
    let mut out: Vec<String> = Vec::new();
    if lines.len() <= 2 {
        assert(lines_view(out@) =~= body_view(lines_view(lines@)));
        return out;
    }
    let mut i: usize = 2;
    assert(lines_view(out@) =~= lines_view(lines@).subrange(2, 2));
    while i < lines.len()
        invariant
            2 <= i <= lines.len(),
            lines_view(out@) == lines_view(lines@).subrange(2, i as int),
        decreases lines.len() - i,
    {
        let ghost prev = out@;
        let s = lines[i].clone();
        out.push(s);
        assert(lines_view(out@) =~= lines_view(prev).push(lines@[i as int]@));
        i = i + 1;
        assert(lines_view(out@) =~= lines_view(lines@).subrange(2, i as int));
    }
    assert(lines_view(out@) =~= body_view(lines_view(lines@)));
    out
}

/// The header of a file, when it reads and can be decoded.
pub open spec fn file_header_spec(lines: Seq<Seq<char>>) -> Result<FileHeader, DecodeError> {
    match header_spec(lines) {
        Err(e) => Err(DecodeError::Header(e)),
        Ok(h) => if h.wf() {
            Ok(h)
        } else {
            Err(DecodeError::InvalidHeader)
        },
    }
}

/// Reads and checks the header of a whole file.
pub fn read_file_header(lines: &Vec<String>) -> (r: Result<FileHeader, DecodeError>)
    ensures
        r == file_header_spec(lines_view(lines@)),
{
    match parse_header(lines) {
        Err(e) => Err(DecodeError::Header(e)),
        Ok(h) => if h.is_valid() {
            Ok(h)
        } else {
            Err(DecodeError::InvalidHeader)
        },
    }
}

/// An image decoded for export: its header and its RGB bytes.
pub struct RgbExport {
    pub header: FileHeader,
    /// Three bytes per pixel, row-major.
    pub bytes: Vec<u8>,
}

/// The header and RGB buffer a whole file exports to.
pub open spec fn file_export_spec(lines: Seq<Seq<char>>) -> Result<(FileHeader, Seq<u8>), DecodeError> {
    match file_header_spec(lines) {
        Err(e) => Err(e),
        Ok(h) => match export_spec(h, body_view(lines)) {
            Ok(b) => Ok((h, b)),
            Err(e) => Err(e),
        },
    }
}

/// Decodes a whole file (header lines, then body) for export.
pub fn export_file(lines: &Vec<String>) -> (r: Result<RgbExport, DecodeError>)
    ensures
        match file_export_spec(lines_view(lines@)) {
            Ok((h, b)) => r matches Ok(x) && x.header == h && x.bytes@ == b,
            Err(e) => r == Err::<RgbExport, DecodeError>(e),
        },
{
    let h = read_file_header(lines)?;
    let body = body_lines(lines);
    match export_body(&h, &body) {
        Ok(bytes) => Ok(RgbExport { header: h, bytes }),
        Err(e) => Err(e),
    }
}

/// Exporting depends on the lines of a file alone: exporting the same lines
/// twice gives the same header and byte-identical buffers.
pub proof fn lemma_export_repeatable(first: Seq<String>, second: Seq<String>)
    requires
        lines_view(first) == lines_view(second),
    ensures
        file_export_spec(lines_view(first)) == file_export_spec(lines_view(second)),
{
}

/// A file decoded for display.
pub struct DecodedFile {
    pub header: FileHeader,
    pub frame: Frame,
}

/// Decodes a whole file (header lines, then body) into a fresh image under
/// `mode`; rows the body does not reach are background.
pub fn decode_file(lines: &Vec<String>, mode: NormMode) -> (r: Result<DecodedFile, DecodeError>)
    ensures
        match file_header_spec(lines_view(lines@)) {
            Err(e) => r == Err::<DecodedFile, DecodeError>(e),
            Ok(h) => r matches Ok(d) && d.header == h && d.frame.status == status_spec(
                h,
                body_view(lines_view(lines@)).len() as int,
            ) && d.frame.pixels@ == decoded_spec(h, mode, body_view(lines_view(lines@)))
                + Seq::new(
                (h.width * h.height - rows_filled(h, body_view(lines_view(lines@)).len() as int)
                    * h.width) as nat,
                |i: int| background(),
            ),
        },
{
    let h = read_file_header(lines)?;
    let body = body_lines(lines);
    let frame = decode_image(&h, mode, &body);
    Ok(DecodedFile { header: h, frame })
}

} // verus!
