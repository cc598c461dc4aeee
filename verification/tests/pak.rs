use u4pak::error::Error;
use u4pak::digest::sha1_of;
use u4pak::index::{build_index, read_index};
use u4pak::pak::{
    index_region, read_footer, write_footer, Footer, Options, Pak, FOOTER_SIZE, PAK_MAGIC,
};
use u4pak::record::{CompressionBlock, Record, COMPR_NONE, COMPR_ZLIB};
use u4pak::text::Encoding;

fn record(name: &str, offset: u64, size: u64, timestamp: Option<u64>) -> Record {
    Record::new(name.to_string(), offset, size, size, COMPR_NONE, timestamp, [3; 20], None, false, 0)
}

/// A package made by hand: `data` bytes of payload, then the index, then the footer.
fn package(data: &[u8], mount_point: &str, records: &[Record], version: u32, encoding: Encoding) -> Vec<u8> {
    let index = build_index(mount_point, records, version, encoding).unwrap();
    let mut bytes = data.to_vec();
    let footer = Footer {
        magic: PAK_MAGIC,
        version,
        index_offset: bytes.len() as u64,
        index_size: index.len() as u64,
        index_sha1: sha1_of(&index).unwrap(),
    };
    bytes.extend_from_slice(&index);
    write_footer(&mut bytes, &footer);
    bytes
}

fn options(ignore_magic: bool, force_version: Option<u32>) -> Options {
    Options { ignore_magic, encoding: Encoding::UTF8, force_version }
}

#[test]
fn footer_is_44_bytes_in_the_documented_order() {
    let footer = Footer { magic: PAK_MAGIC, version: 3, index_offset: 0x10, index_size: 0x20, index_sha1: [9; 20] };
    let mut out = vec![1, 2];
    write_footer(&mut out, &footer);
    assert_eq!(out.len(), 2 + FOOTER_SIZE);
    assert_eq!(&out[2..6], &[0xE1, 0x12, 0x6F, 0x5A]);
    assert_eq!(&out[6..10], &[3, 0, 0, 0]);
    assert_eq!(&out[10..18], &[0x10, 0, 0, 0, 0, 0, 0, 0]);
    assert_eq!(&out[18..26], &[0x20, 0, 0, 0, 0, 0, 0, 0]);
    assert_eq!(&out[26..46], &[9; 20]);
    assert_eq!(read_footer(&out), Ok(footer));
}

#[test]
fn data_shorter_than_a_footer_is_truncated() {
    assert_eq!(read_footer(&[0; 43]), Err(Error::Truncated));
    assert_eq!(Pak::open(&[0; 43], &Options::default()).map(|pak| pak.version), Err(Error::Truncated));
    assert_eq!(Pak::open(&[], &Options::default()).map(|pak| pak.version), Err(Error::Truncated));
}

#[test]
fn index_round_trips() {
    let records = vec![record("a", 0, 1, None), record("dir/b", 1, 2, None)];
    for version in [2u32, 3] {
        let index = build_index("../../../", &records, version, Encoding::ASCII).unwrap();
        assert_eq!(read_index(&index, version, Encoding::ASCII), Ok(("../../../".to_string(), records.clone())));
    }
    let stamped = vec![record("a", 0, 1, Some(5)), record("dir/b", 1, 2, Some(0))];
    let index = build_index("", &stamped, 1, Encoding::Latin1).unwrap();
    assert_eq!(read_index(&index, 1, Encoding::Latin1), Ok((String::new(), stamped)));
}

#[test]
fn index_without_records_is_the_mount_point_alone() {
    assert_eq!(build_index("mp", &[], 3, Encoding::UTF8), Ok(vec![2, 0, 0, 0, b'm', b'p']));
    assert_eq!(read_index(&[2, 0, 0, 0, b'm', b'p'], 3, Encoding::UTF8), Ok(("mp".to_string(), Vec::new())));
}

#[test]
fn residual_or_missing_index_bytes_are_a_corrupt_index() {
    let records = vec![record("a", 0, 1, None), record("b", 1, 2, None)];
    let index = build_index("m", &records, 2, Encoding::UTF8).unwrap();
    for cut in 0..index.len() {
        let expected = if cut == 5 || cut == 5 + 5 + 48 {
            // cut between two entries: fewer records, no error
            continue;
        } else {
            Err(Error::CorruptIndex)
        };
        assert_eq!(read_index(&index[..cut], 2, Encoding::UTF8).map(|found| found.1.len()), expected);
    }
    let mut longer = index.clone();
    longer.push(0);
    assert_eq!(read_index(&longer, 2, Encoding::UTF8).map(|found| found.1.len()), Err(Error::CorruptIndex));
    assert_eq!(read_index(&index, 2, Encoding::UTF8).map(|found| found.1.len()), Ok(2));
}

#[test]
fn index_errors_name_their_cause() {
    let records = vec![record("caf\u{e9}", 0, 1, None)];
    assert_eq!(build_index("", &records, 3, Encoding::ASCII), Err(Error::IllegalEncoding(0xC3)));
    assert_eq!(build_index("\u{20ac}", &records, 3, Encoding::Latin1), Err(Error::IllegalEncoding(0x20AC)));
    assert_eq!(build_index("", &records, 0, Encoding::UTF8), Err(Error::UnsupportedVersion(0)));
    assert_eq!(read_index(&[0; 4], 7, Encoding::UTF8).map(|found| found.1.len()), Err(Error::UnsupportedVersion(7)));
    let index = build_index("", &records, 3, Encoding::UTF8).unwrap();
    assert_eq!(read_index(&index, 3, Encoding::ASCII).map(|found| found.1.len()), Err(Error::InvalidEncoding));
    assert_eq!(
        read_index(&index, 3, Encoding::Latin1).map(|found| found.1[0].filename.clone()),
        Ok("caf\u{c3}\u{a9}".to_string())
    );
}

#[test]
fn open_reads_what_was_written() {
    let records = vec![
        record("a.txt", 0, 4, None),
        Record::new(
            "b.bin".to_string(),
            4,
            6,
            9,
            COMPR_ZLIB,
            None,
            [8; 20],
            Some(vec![CompressionBlock { start_offset: 0, end_offset: 6 }]),
            false,
            16,
        ),
    ];
    let bytes = package(&[0; 10], "/mnt/", &records, 3, Encoding::UTF8);
    let pak = Pak::open(&bytes, &Options::default()).unwrap();
    assert_eq!(pak.version, 3);
    assert_eq!(pak.index_offset, 10);
    assert_eq!(pak.index_offset + pak.index_size, (bytes.len() - FOOTER_SIZE) as u64);
    assert_eq!(pak.mount_point, Some("/mnt/".to_string()));
    assert_eq!(pak.records, records);
    assert_eq!(pak.index_sha1, pak.index_digest);
    assert_eq!(pak.index_digest, sha1_of(&bytes[10..bytes.len() - FOOTER_SIZE]).unwrap());
}

#[test]
fn an_empty_mount_point_is_none() {
    let bytes = package(&[], "", &[], 2, Encoding::UTF8);
    let pak = Pak::open(&bytes, &Options::default()).unwrap();
    assert_eq!(pak.mount_point, None);
    assert!(pak.records.is_empty());
    assert_eq!(pak.version, 2);
}

#[test]
fn zeroed_magic_is_bad_magic_unless_ignored() {
    let records = vec![record("a.txt", 0, 4, None)];
    let mut bytes = package(&[1, 2, 3, 4], "", &records, 3, Encoding::UTF8);
    let at = bytes.len() - FOOTER_SIZE;
    bytes[at..at + 4].copy_from_slice(&[0, 0, 0, 0]);
    assert_eq!(Pak::open(&bytes, &options(false, None)).map(|pak| pak.version), Err(Error::BadMagic(0)));
    assert_eq!(Pak::open(&bytes, &options(false, Some(3))).map(|pak| pak.version), Err(Error::BadMagic(0)));
    let pak = Pak::open(&bytes, &options(true, Some(3))).unwrap();
    assert_eq!(pak.version, 3);
    assert_eq!(pak.records, records);
}

#[test]
fn versions_outside_one_to_three_are_unsupported() {
    let mut bytes = package(&[], "", &[], 3, Encoding::UTF8);
    let at = bytes.len() - FOOTER_SIZE;
    bytes[at + 4] = 4;
    assert_eq!(Pak::open(&bytes, &options(false, None)).map(|pak| pak.version), Err(Error::UnsupportedVersion(4)));
    bytes[at + 4] = 0;
    assert_eq!(Pak::open(&bytes, &options(false, None)).map(|pak| pak.version), Err(Error::UnsupportedVersion(0)));
    assert_eq!(Pak::open(&bytes, &options(false, Some(2))).map(|pak| pak.version), Ok(2));
    bytes[at + 4] = 3;
    assert_eq!(Pak::open(&bytes, &options(false, Some(9))).map(|pak| pak.version), Err(Error::UnsupportedVersion(9)));
}

#[test]
fn forced_version_decides_the_layout() {
    let records = vec![record("a", 0, 1, Some(42))];
    let bytes = package(&[0], "", &records, 1, Encoding::UTF8);
    assert_eq!(Pak::open(&bytes, &options(false, None)).map(|pak| pak.records), Ok(records));
    // read as version 2 the entry is eight bytes too long
    assert_eq!(Pak::open(&bytes, &options(false, Some(2))).map(|pak| pak.version), Err(Error::CorruptIndex));
}

#[test]
fn index_must_end_where_the_footer_starts() {
    let records = vec![record("a", 0, 1, None)];
    let bytes = package(&[0; 8], "", &records, 3, Encoding::UTF8);
    let at = bytes.len() - FOOTER_SIZE;
    let footer = read_footer(&bytes).unwrap();
    assert_eq!(index_region(&bytes, &footer), Ok(&bytes[8..at]));
    for (offset, size) in [(7u64, footer.index_size), (8, footer.index_size - 1), (8, footer.index_size + 1), (u64::MAX, 2), (8, u64::MAX)] {
        let mut wrong = bytes[..at].to_vec();
        write_footer(&mut wrong, &Footer { index_offset: offset, index_size: size, ..footer });
        assert_eq!(Pak::open(&wrong, &Options::default()).map(|pak| pak.version), Err(Error::CorruptIndex));
    }
}

#[test]
fn default_options_check_the_magic_and_read_utf8() {
    let o = Options::default();
    assert!(!o.ignore_magic);
    assert_eq!(o.encoding, Encoding::UTF8);
    assert_eq!(o.force_version, None);
}

#[test]
fn new_takes_the_recorded_digest_as_the_computed_one() {
    let pak = Pak::new(2, 5, 6, [4; 20], Some("m".to_string()), vec![record("a", 0, 1, None)]);
    assert_eq!(pak.index_digest, [4; 20]);
    assert_eq!(pak.index_sha1, [4; 20]);
    assert_eq!((pak.version, pak.index_offset, pak.index_size), (2, 5, 6));
    assert_eq!(pak.records.len(), 1);
}
