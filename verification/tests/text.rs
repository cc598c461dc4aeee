use u4pak::error::Error;
use u4pak::text::{decode_text, encode_text, read_path, write_path, Encoding};

#[test]
fn utf8_path_is_length_prefixed_bytes() {
    let mut out = Vec::new();
    assert_eq!(write_path(&mut out, "ab", Encoding::UTF8), Ok(()));
    assert_eq!(out, vec![2, 0, 0, 0, b'a', b'b']);
}

#[test]
fn length_prefix_counts_bytes_not_characters() {
    let mut out = Vec::new();
    assert_eq!(write_path(&mut out, "\u{e9}", Encoding::UTF8), Ok(()));
    assert_eq!(out, vec![2, 0, 0, 0, 0xC3, 0xA9]);
    let mut out = Vec::new();
    assert_eq!(write_path(&mut out, "\u{e9}", Encoding::Latin1), Ok(()));
    assert_eq!(out, vec![1, 0, 0, 0, 0xE9]);
}

#[test]
fn empty_path_is_four_zero_bytes() {
    for encoding in [Encoding::UTF8, Encoding::ASCII, Encoding::Latin1] {
        let mut out = Vec::new();
        assert_eq!(write_path(&mut out, "", encoding), Ok(()));
        assert_eq!(out, vec![0, 0, 0, 0]);
        assert_eq!(read_path(&out, 0, encoding), Ok((String::new(), 4)));
    }
}

#[test]
fn ascii_refuses_a_high_byte_and_names_it() {
    let mut out = vec![1, 2, 3];
    assert_eq!(
        write_path(&mut out, "caf\u{e9}.txt", Encoding::ASCII),
        Err(Error::IllegalEncoding(0xC3))
    );
    assert_eq!(out, vec![1, 2, 3]);
}

#[test]
fn same_path_passes_under_utf8_and_latin1() {
    let mut out = Vec::new();
    assert_eq!(write_path(&mut out, "caf\u{e9}.txt", Encoding::UTF8), Ok(()));
    assert_eq!(out.len(), 4 + 9);
    let mut out = Vec::new();
    assert_eq!(write_path(&mut out, "caf\u{e9}.txt", Encoding::Latin1), Ok(()));
    assert_eq!(out, vec![8, 0, 0, 0, b'c', b'a', b'f', 0xE9, b'.', b't', b'x', b't']);
}

#[test]
fn latin1_refuses_a_character_above_255_and_names_it() {
    let mut out = Vec::new();
    assert_eq!(
        write_path(&mut out, "a\u{20ac}\u{4e2d}", Encoding::Latin1),
        Err(Error::IllegalEncoding(0x20AC))
    );
    assert!(out.is_empty());
    assert_eq!(encode_text("\u{100}", Encoding::Latin1), Err(Error::IllegalEncoding(0x100)));
    assert_eq!(encode_text("\u{ff}", Encoding::Latin1), Ok(vec![0xFF]));
}

#[test]
fn ascii_boundary_is_127() {
    assert_eq!(encode_text("\u{7f}", Encoding::ASCII), Ok(vec![0x7F]));
    assert_eq!(encode_text("\u{80}", Encoding::ASCII), Err(Error::IllegalEncoding(0xC2)));
}

#[test]
fn paths_round_trip_under_every_encoding() {
    for (text, encoding) in [
        ("Game/Content/a.uasset", Encoding::ASCII),
        ("Game/\u{4e2d}\u{6587}/\u{1f600}.bin", Encoding::UTF8),
        ("Stra\u{df}e/\u{ff}\u{0}x", Encoding::Latin1),
    ] {
        let mut out = vec![0xEE];
        assert_eq!(write_path(&mut out, text, encoding), Ok(()));
        let end = out.len();
        out.push(0x55);
        assert_eq!(read_path(&out, 1, encoding), Ok((text.to_string(), end)));
    }
}

#[test]
fn latin1_reads_one_character_for_each_byte() {
    assert_eq!(decode_text(&[0x41, 0xE9, 0xFF, 0x80], Encoding::Latin1), Ok("A\u{e9}\u{ff}\u{80}".to_string()));
}

#[test]
fn invalid_text_is_refused_on_read() {
    assert_eq!(decode_text(&[0xC3], Encoding::UTF8), Err(Error::InvalidEncoding));
    assert_eq!(decode_text(&[0xFF, 0x41], Encoding::UTF8), Err(Error::InvalidEncoding));
    assert_eq!(decode_text(&[0xED, 0xA0, 0x80], Encoding::UTF8), Err(Error::InvalidEncoding));
    assert_eq!(decode_text(&[0x41, 0x80], Encoding::ASCII), Err(Error::InvalidEncoding));
    assert_eq!(decode_text(&[0xC3, 0xA9], Encoding::ASCII), Err(Error::InvalidEncoding));
    assert_eq!(decode_text(&[0xC3, 0xA9], Encoding::UTF8), Ok("\u{e9}".to_string()));
    assert_eq!(read_path(&[1, 0, 0, 0, 0xFF], 0, Encoding::UTF8), Err(Error::InvalidEncoding));
}

#[test]
fn short_strings_are_truncated() {
    assert_eq!(read_path(&[1, 0, 0], 0, Encoding::UTF8), Err(Error::Truncated));
    assert_eq!(read_path(&[2, 0, 0, 0, b'a'], 0, Encoding::UTF8), Err(Error::Truncated));
    assert_eq!(read_path(&[0xFF, 0xFF, 0xFF, 0xFF, b'a'], 0, Encoding::Latin1), Err(Error::Truncated));
    assert_eq!(read_path(&[0, 0, 0, 0], 1, Encoding::UTF8), Err(Error::Truncated));
}

#[test]
fn default_encoding_is_utf8() {
    assert_eq!(Encoding::default(), Encoding::UTF8);
}
