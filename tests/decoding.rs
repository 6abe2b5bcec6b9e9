use npxl::assemble::concat_files;
use npxl::decode::{decode_image, decode_into, decode_pixels, decode_row, DecodeStatus, Pixel};
use npxl::export::{
    body_lines, decode_file, export_body, export_file, read_file_header, rows_long_enough,
    to_rgb_bytes,
    DecodeError,
};
use npxl::header::{parse_header, read_pair, FileHeader, HeaderError};
use npxl::normalize::{digit_of, intensity, NormMode};
use npxl::text::{chars_of, is_space, parse_usize, split_fields};

fn lines(v: &[&str]) -> Vec<String> {
    v.iter().map(|s| s.to_string()).collect()
}

fn px(r: u8, g: u8, b: u8) -> Pixel {
    Pixel { r, g, b }
}

fn header(width: usize, height: usize, base: usize, channels: usize) -> FileHeader {
    FileHeader { width, height, channels_per_pixel: channels, numeric_base: base }
}

#[test]
fn binary_row_exports_full_and_empty() {
    let out = export_file(&lines(&["2 1", "2 1", "10"])).unwrap();
    assert_eq!(out.header, header(2, 1, 2, 1));
    assert_eq!(out.bytes, vec![255, 255, 255, 0, 0, 0]);
}

#[test]
fn top_digit_of_base_four_is_white() {
    let out = export_file(&lines(&["1 1", "4 1", "3"])).unwrap();
    assert_eq!(out.bytes, vec![255, 255, 255]);
}

#[test]
fn export_intensity_is_monotone_and_bounded() {
    for base in 2usize..=36 {
        let mut prev: u8 = 0;
        for d in 0..base as u32 {
            let v = intensity(NormMode::Export, base, d);
            assert!(v >= prev);
            prev = v;
        }
    }
}

#[test]
fn export_intensity_exact_values() {
    assert_eq!(intensity(NormMode::Export, 2, 1), 255);
    assert_eq!(intensity(NormMode::Export, 16, 15), 255);
    assert_eq!(intensity(NormMode::Export, 10, 9), 252);
    assert_eq!(intensity(NormMode::Export, 36, 35), 245);
    assert_eq!(intensity(NormMode::Export, 10, 0), 0);
}

#[test]
fn viewer_intensity_exact_values() {
    assert_eq!(intensity(NormMode::Viewer, 2, 1), 127);
    assert_eq!(intensity(NormMode::Viewer, 4, 3), 189);
    assert_eq!(intensity(NormMode::Viewer, 10, 9), 225);
}

#[test]
fn digit_above_base_is_clamped() {
    assert_eq!(intensity(NormMode::Export, 4, 9), 255);
    assert_eq!(intensity(NormMode::Viewer, 4, 9), 189);
}

#[test]
fn joined_file_decodes_like_its_parts() {
    let head = lines(&["3 4", "2 1"]);
    let first = lines(&["101", "010"]);
    let second = lines(&["111"]);
    let joined = concat_files(&vec![head.clone(), first.clone(), second.clone()]);
    assert_eq!(joined, lines(&["3 4", "2 1", "101", "010", "111"]));
    let h = parse_header(&head).unwrap();
    let mut parts = decode_pixels(&h, NormMode::Export, &first);
    parts.extend(decode_pixels(&h, NormMode::Export, &second));
    let whole = decode_pixels(&h, NormMode::Export, &body_lines(&joined));
    assert_eq!(whole, parts);
    assert_eq!(whole.len(), 9);
}

#[test]
fn exporting_twice_gives_identical_bytes() {
    let file = lines(&["2 2", "16 3", "f00a0b", "123456"]);
    let a = export_file(&file).unwrap();
    let b = export_file(&file).unwrap();
    assert_eq!(a.bytes, b.bytes);
    assert_eq!(a.header, b.header);
}

#[test]
fn short_body_is_truncated_with_background_rows() {
    let file = lines(&["2 10", "2 1", "11", "11", "11", "11"]);
    let d = decode_file(&file, NormMode::Export).unwrap();
    assert_eq!(d.frame.status, DecodeStatus::Truncated);
    assert_eq!(d.frame.pixels.len(), 20);
    for (i, p) in d.frame.pixels.iter().enumerate() {
        if i < 8 {
            assert_eq!(*p, px(255, 255, 255));
        } else {
            assert_eq!(*p, px(0, 0, 0));
        }
    }
}

#[test]
fn short_body_cannot_be_exported() {
    let file = lines(&["2 10", "2 1", "11", "11", "11", "11"]);
    assert!(matches!(export_file(&file), Err(DecodeError::BufferSizeMismatch)));
}

#[test]
fn short_row_line_cannot_be_exported() {
    let file = lines(&["2 1", "2 1", "1"]);
    assert!(matches!(export_file(&file), Err(DecodeError::BufferSizeMismatch)));
    let rgb = lines(&["2 2", "16 3", "f00a0b", "12345"]);
    assert!(matches!(export_file(&rgb), Err(DecodeError::BufferSizeMismatch)));
    let h = header(2, 1, 2, 1);
    assert!(!rows_long_enough(&h, &lines(&["1"])));
    assert!(rows_long_enough(&h, &lines(&["10"])));
    // a line past the declared height is never read, however short
    assert!(rows_long_enough(&h, &lines(&["10", ""])));
    assert_eq!(export_body(&h, &lines(&["10", ""])), Ok(vec![255, 255, 255, 0, 0, 0]));
    // the display path still decodes a short line, reading its missing digits as 0
    let d = decode_file(&file, NormMode::Export).unwrap();
    assert_eq!(d.frame.pixels, vec![px(255, 255, 255), px(0, 0, 0)]);
}

#[test]
fn invalid_digit_reads_as_zero() {
    let out = export_file(&lines(&["3 1", "2 1", "191"])).unwrap();
    assert_eq!(out.bytes, vec![255, 255, 255, 0, 0, 0, 255, 255, 255]);
    assert_eq!(digit_of('9', 2), 0);
    assert_eq!(digit_of('z', 36), 35);
    assert_eq!(digit_of('#', 16), 0);
}

#[test]
fn letters_are_case_insensitive() {
    assert_eq!(digit_of('F', 16), 15);
    assert_eq!(digit_of('f', 16), 15);
    assert_eq!(digit_of('g', 16), 0);
}

#[test]
fn three_channels_fill_red_green_blue() {
    let out = export_file(&lines(&["1 1", "16 3", "f08"])).unwrap();
    assert_eq!(out.bytes, vec![255, 0, 136]);
}

#[test]
fn channels_past_the_third_are_skipped() {
    let h = header(2, 1, 10, 4);
    let row = decode_row(&h, NormMode::Export, "91239999");
    assert_eq!(row, vec![px(252, 28, 56), px(252, 252, 252)]);
}

#[test]
fn missing_characters_read_as_zero() {
    let h = header(3, 1, 2, 1);
    assert_eq!(decode_row(&h, NormMode::Export, "1"), vec![px(255, 255, 255), px(0, 0, 0), px(0, 0, 0)]);
    let h3 = header(2, 1, 2, 3);
    assert_eq!(decode_row(&h3, NormMode::Export, "1101"), vec![px(255, 255, 0), px(255, 0, 0)]);
}

#[test]
fn characters_past_the_row_are_ignored() {
    let h = header(1, 1, 2, 1);
    assert_eq!(decode_row(&h, NormMode::Export, "1000"), vec![px(255, 255, 255)]);
}

#[test]
fn lines_past_the_height_are_ignored() {
    let d = decode_file(&lines(&["1 1", "2 1", "1", "0", "0"]), NormMode::Export).unwrap();
    assert_eq!(d.frame.status, DecodeStatus::Complete);
    assert_eq!(d.frame.pixels, vec![px(255, 255, 255)]);
}

#[test]
fn viewer_mode_scales_by_base() {
    let d = decode_file(&lines(&["2 1", "2 1", "10"]), NormMode::Viewer).unwrap();
    assert_eq!(d.frame.pixels, vec![px(127, 127, 127), px(0, 0, 0)]);
}

#[test]
fn decode_into_keeps_unreached_rows() {
    let h = header(1, 3, 2, 1);
    let mut target = vec![px(1, 2, 3); 3];
    let status = decode_into(&h, NormMode::Export, &lines(&["1"]), &mut target);
    assert_eq!(status, DecodeStatus::Truncated);
    assert_eq!(target, vec![px(255, 255, 255), px(1, 2, 3), px(1, 2, 3)]);
    let full = decode_into(&h, NormMode::Export, &lines(&["0", "1", "0"]), &mut target);
    assert_eq!(full, DecodeStatus::Complete);
    assert_eq!(target, vec![px(0, 0, 0), px(255, 255, 255), px(0, 0, 0)]);
}

#[test]
fn decode_image_of_empty_body_is_background() {
    let h = header(2, 2, 2, 1);
    let f = decode_image(&h, NormMode::Export, &Vec::new());
    assert_eq!(f.status, DecodeStatus::Truncated);
    assert_eq!(f.pixels, vec![px(0, 0, 0); 4]);
}

#[test]
fn header_needs_two_lines() {
    assert_eq!(parse_header(&lines(&["2 1"])), Err(HeaderError::MissingLine));
    assert_eq!(parse_header(&Vec::new()), Err(HeaderError::MissingLine));
    assert!(matches!(
        export_file(&lines(&["2 1"])),
        Err(DecodeError::Header(HeaderError::MissingLine))
    ));
}

#[test]
fn header_fields_must_be_numbers() {
    assert_eq!(parse_header(&lines(&["2 x", "2 1"])), Err(HeaderError::BadNumber));
    assert_eq!(parse_header(&lines(&["2 1", "2 1 -3"])), Err(HeaderError::BadNumber));
    assert_eq!(parse_header(&lines(&["2 1", "2.5 1"])), Err(HeaderError::BadNumber));
}

#[test]
fn header_reads_fields_and_defaults_missing_ones() {
    assert_eq!(parse_header(&lines(&["  7\t5  9", "16 3", "junk"])), Ok(header(7, 5, 16, 3)));
    assert_eq!(parse_header(&lines(&["7", ""])), Ok(header(7, 0, 0, 0)));
    assert_eq!(parse_header(&lines(&["+7 05", "2 1"])), Ok(header(7, 5, 2, 1)));
}

#[test]
fn degenerate_headers_are_refused() {
    assert!(matches!(read_file_header(&lines(&["7", "2 1"])), Err(DecodeError::InvalidHeader)));
    assert!(matches!(read_file_header(&lines(&["1 1", "37 1"])), Err(DecodeError::InvalidHeader)));
    assert!(matches!(read_file_header(&lines(&["1 1", "1 1"])), Err(DecodeError::InvalidHeader)));
    assert!(matches!(
        decode_file(&lines(&["0 3", "2 1"]), NormMode::Viewer),
        Err(DecodeError::InvalidHeader)
    ));
    assert!(!header(usize::MAX, 2, 2, 1).is_valid());
    assert!(header(3, 2, 36, 1).is_valid());
}

#[test]
fn rgb_bytes_need_exactly_one_pixel_per_cell() {
    let h = header(2, 1, 2, 1);
    assert_eq!(to_rgb_bytes(&h, &vec![px(1, 2, 3)]), Err(DecodeError::BufferSizeMismatch));
    assert_eq!(
        to_rgb_bytes(&h, &vec![px(1, 2, 3), px(4, 5, 6)]),
        Ok(vec![1, 2, 3, 4, 5, 6])
    );
    assert_eq!(
        export_body(&h, &lines(&["01"])),
        Ok(vec![0, 0, 0, 255, 255, 255])
    );
}

#[test]
fn numbers_and_fields() {
    let c = chars_of("+12");
    assert_eq!(parse_usize(&c), Some(12));
    assert_eq!(parse_usize(&chars_of("")), None);
    assert_eq!(parse_usize(&chars_of("+")), None);
    assert_eq!(parse_usize(&chars_of("-1")), None);
    assert_eq!(parse_usize(&chars_of("99999999999999999999999")), None);
    let f = split_fields(&chars_of(" ab  c\u{3000}d "));
    assert_eq!(f, vec![vec!['a', 'b'], vec!['c'], vec!['d']]);
    assert!(is_space('\n') && is_space('\u{a0}') && !is_space('x'));
    assert_eq!(read_pair("4"), Some((4, 0)));
    assert_eq!(read_pair("4 5 6"), Some((4, 5)));
}
