use pngme::endian::{push_be32, read_be32};
use pngme::error::Error;
use pngme::text::{byte_is_letter, byte_is_lower, byte_is_upper, push_decimal, text_of_utf8};

#[test]
fn push_be32_writes_the_most_significant_byte_first() {
    let mut out = vec![7u8];
    push_be32(&mut out, 0x0102_0304);
    assert_eq!(out, vec![7, 1, 2, 3, 4]);
    push_be32(&mut out, 0);
    push_be32(&mut out, u32::MAX);
    push_be32(&mut out, 2882656334);
    assert_eq!(&out[5..], &[0, 0, 0, 0, 255, 255, 255, 255, 0xAB, 0xD1, 0xD8, 0x4E]);
}

#[test]
fn read_be32_reads_at_the_given_place() {
    let bytes = [9, 0x01, 0x02, 0x03, 0x04, 0xFF, 0xFF, 0xFF, 0xFF, 0];
    assert_eq!(read_be32(&bytes, 1), 0x0102_0304);
    assert_eq!(read_be32(&bytes, 0), 0x0901_0203);
    assert_eq!(read_be32(&bytes, 5), u32::MAX);
    assert_eq!(read_be32(&bytes, 6), 0xFFFF_FF00);
}

#[test]
fn read_be32_undoes_push_be32() {
    for n in [0u32, 1, 255, 256, 65535, 65536, 0x00FF_FFFF, 0x0100_0000, 0x8000_0000, u32::MAX] {
        let mut out = Vec::new();
        push_be32(&mut out, n);
        assert_eq!(out, n.to_be_bytes().to_vec());
        assert_eq!(read_be32(&out, 0), n);
    }
}

#[test]
fn letters_are_told_by_their_range() {
    for b in 0..=255u8 {
        assert_eq!(byte_is_upper(b), b.is_ascii_uppercase());
        assert_eq!(byte_is_lower(b), b.is_ascii_lowercase());
        assert_eq!(byte_is_letter(b), b.is_ascii_alphabetic());
    }
    assert!(byte_is_upper(b'A') && byte_is_upper(b'Z'));
    assert!(!byte_is_upper(b'@') && !byte_is_upper(b'['));
    assert!(byte_is_lower(b'a') && byte_is_lower(b'z'));
    assert!(!byte_is_lower(b'`') && !byte_is_lower(b'{'));
}

#[test]
fn push_decimal_writes_plain_digits() {
    let mut out = String::from("n=");
    push_decimal(&mut out, 0);
    assert_eq!(out, "n=0");
    for (n, text) in [
        (7u64, "7"),
        (10, "10"),
        (42, "42"),
        (100, "100"),
        (2882656334, "2882656334"),
        (4294967295, "4294967295"),
        (u64::MAX, "18446744073709551615"),
    ] {
        let mut out = String::new();
        push_decimal(&mut out, n);
        assert_eq!(out, text);
        assert_eq!(out, n.to_string());
    }
}

#[test]
fn text_of_utf8_reads_or_refuses() {
    assert_eq!(text_of_utf8(b"plain".to_vec()), Ok(String::from("plain")));
    assert_eq!(text_of_utf8(Vec::new()), Ok(String::new()));
    assert_eq!(text_of_utf8(vec![0xE2, 0x9C, 0x93]), Ok(String::from("\u{2713}")));
    assert_eq!(text_of_utf8(vec![0xE2, 0x9C]), Err(Error::EncodingError));
    assert_eq!(text_of_utf8(vec![0x80]), Err(Error::EncodingError));
    assert_eq!(text_of_utf8(vec![0xF4, 0x90, 0x80, 0x80]), Err(Error::EncodingError));
}
