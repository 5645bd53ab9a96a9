use actionq::cli::{parse_key_val, KeyValError};
use actionq::media::{compress_raw_rgb, decompress_jpeg_to_rgb, CompressError};

#[test]
fn key_val_splits_at_first_colon() {
    assert_eq!(parse_key_val("squat:10"), Ok(("squat".to_string(), 10)));
    assert_eq!(parse_key_val("a:b:3"), Err(KeyValError::InvalidCount));
    assert_eq!(parse_key_val(":+7"), Ok((String::new(), 7)));
}

#[test]
fn key_val_errors() {
    assert_eq!(parse_key_val("squat"), Err(KeyValError::NoSeparator));
    assert_eq!(parse_key_val(""), Err(KeyValError::NoSeparator));
    assert_eq!(parse_key_val("squat:"), Err(KeyValError::InvalidCount));
    assert_eq!(parse_key_val("squat:-1"), Err(KeyValError::InvalidCount));
    assert_eq!(parse_key_val("squat:4294967296"), Err(KeyValError::InvalidCount));
    assert_eq!(parse_key_val("squat:4294967295"), Ok(("squat".to_string(), 4294967295)));
}

#[test]
fn compress_makes_a_jpeg() {
    let raw: Vec<u8> = (0..(8 * 4 * 3)).map(|i| (i * 7 % 256) as u8).collect();
    let jpeg = compress_raw_rgb(&raw, 8, 4).unwrap();
    assert_ne!(jpeg, raw);
    assert_eq!(&jpeg[..2], &[0xFF, 0xD8]);
    assert_eq!(&jpeg[jpeg.len() - 2..], &[0xFF, 0xD9]);
}

#[test]
fn compress_rejects_bad_sizes() {
    assert_eq!(compress_raw_rgb(&vec![], 0, 5), Err(CompressError::InvalidSize));
    assert_eq!(compress_raw_rgb(&vec![], 70000, 0), Err(CompressError::InvalidSize));
}

#[test]
fn decompress_restores_dimensions() {
    let raw: Vec<u8> = (0..(8 * 4 * 3)).map(|i| (i * 5 % 256) as u8).collect();
    let jpeg = compress_raw_rgb(&raw, 8, 4).unwrap();
    let (pixels, w, h) = decompress_jpeg_to_rgb(&jpeg).unwrap();
    assert_eq!((w, h), (8, 4));
    assert_eq!(pixels.len(), 8 * 4 * 3);
    assert_eq!(decompress_jpeg_to_rgb(&vec![1, 2, 3]), Err(CompressError::Encoding));
}

#[test]
fn compress_accepts_the_largest_side() {
    let raw = vec![128u8; 3 * 65535];
    let jpeg = compress_raw_rgb(&raw, 65535, 1).unwrap();
    assert_eq!(&jpeg[..2], &[0xFF, 0xD8]);
}
