//! The two-line header of an `npxl` file: geometry on the first line,
//! numeric base and channels per pixel on the second.
use vstd::prelude::*;
use crate::normalize::{MIN_BASE, MAX_BASE};
use crate::text::{chars_of, fields, parse_usize, parsed_usize, split_fields};

verus! {

/// Geometry and encoding of one file, as declared by its header.
#[derive(Clone, Copy, Debug, PartialEq, Eq, Structural)]
pub struct FileHeader {
    pub width: usize,
    pub height: usize,
    pub channels_per_pixel: usize,
    pub numeric_base: usize,
}

/// Why a header could not be read.
#[derive(Clone, Copy, Debug, PartialEq, Eq, Structural)]
pub enum HeaderError {
    /// The file has fewer than two lines.
    MissingLine,
    /// A header field is not an unsigned decimal number that fits in `usize`.
    BadNumber,
}

/// The characters of each line.
pub open spec fn lines_view(lines: Seq<String>) -> Seq<Seq<char>> {
    lines.map_values(|s: String| s@)
}

/// Whether every field reads as a number.
pub open spec fn all_numbers(fs: Seq<Seq<char>>) -> bool {
    forall|i: int| 0 <= i < fs.len() ==> (#[trigger] parsed_usize(fs[i])) is Some
}

/// The number in field `k`, or 0 when the line has fewer fields.
pub open spec fn field_or_zero(fs: Seq<Seq<char>>, k: int) -> usize {
    if 0 <= k < fs.len() {
        match parsed_usize(fs[k]) {
            Some(v) => v,
            None => 0,
        }
    } else {
        0
    }
}

/// The two leading numbers of a header line (absent ones are 0), when all
/// of its fields are numbers.
pub open spec fn line_pair(line: Seq<char>) -> Option<(usize, usize)> {
    let fs = fields(line);
    if all_numbers(fs) {
        Some((field_or_zero(fs, 0), field_or_zero(fs, 1)))
    } else {
        None
    }
}

/// The header that `lines` declares; only the first two lines are read.
pub open spec fn header_spec(lines: Seq<Seq<char>>) -> Result<FileHeader, HeaderError> {
    if lines.len() < 2 {
        Err(HeaderError::MissingLine)
    } else {
        match (line_pair(lines[0]), line_pair(lines[1])) {
            (Some(dims), Some(enc)) => Ok(
                FileHeader {
                    width: dims.0,
                    height: dims.1,
                    numeric_base: enc.0,
                    channels_per_pixel: enc.1,
                },
            ),
            _ => Err(HeaderError::BadNumber),
        }
    }
}

/// Reads the two leading numbers of a header line.
pub fn read_pair(line: &str) -> (r: Option<(usize, usize)>)
    ensures
        r == line_pair(line@),
{
    let chars = chars_of(line);
    let fs = split_fields(&chars);
    let ghost fv = fs@.map_values(|f: Vec<char>| f@);
    let mut first: usize = 0;
    let mut second: usize = 0;
    let mut i: usize = 0;
    while i < fs.len()
        invariant
            i <= fs.len(),
            fv == fields(line@),
            fv == fs@.map_values(|f: Vec<char>| f@),
            forall|k: int| 0 <= k < i ==> (#[trigger] parsed_usize(fv[k])) is Some,
            first == (if i > 0 {
                field_or_zero(fv, 0)
            } else {
                0
            }),
            second == (if i > 1 {
                field_or_zero(fv, 1)
            } else {
                0
            }),
        decreases fs.len() - i,
    {
        match parse_usize(&fs[i]) {
            Some(v) => {
                if i == 0 {
                    first = v;
                } else if i == 1 {
                    second = v;
                }
            },
            None => {
                assert(parsed_usize(fv[i as int]) is None);
                return None;
            },
        }
        i = i + 1;
    }
    Some((first, second))
}

/// Reads the header from the first two lines of a file.
pub fn parse_header(lines: &Vec<String>) -> (r: Result<FileHeader, HeaderError>)
    ensures
        r == header_spec(lines_view(lines@)),
{
    if lines.len() < 2 {
        return Err(HeaderError::MissingLine);
    }
    let dims = read_pair(lines[0].as_str());
    let enc = read_pair(lines[1].as_str());
    match (dims, enc) {
        (Some(d), Some(e)) => Ok(
            FileHeader { width: d.0, height: d.1, numeric_base: e.0, channels_per_pixel: e.1 },
        ),
        _ => Err(HeaderError::BadNumber),
    }
}

impl FileHeader {
    /// A header that can be decoded: a base digits can be read in, at least
    /// one pixel, and an RGB buffer of the whole image that fits in memory.
    pub open spec fn wf(&self) -> bool {
        &&& MIN_BASE <= self.numeric_base <= MAX_BASE
        &&& self.width > 0
        &&& self.height > 0
        &&& self.width * self.height * 3 <= usize::MAX
    }

    /// Whether this header can be decoded.
    pub fn is_valid(&self) -> (r: bool)
        ensures
            r == self.wf(),
    {
        if self.numeric_base < MIN_BASE || self.numeric_base > MAX_BASE || self.width == 0
            || self.height == 0 {
            return false;
        }
        match self.width.checked_mul(self.height) {
            Some(p) => p.checked_mul(3).is_some(),
            None => {
                assert(self.width * self.height * 3 > usize::MAX) by (nonlinear_arith)
                    requires
                        self.width * self.height > usize::MAX,
                ;
                false
            },
        }
    }
}

} // verus!
