use u4pak::blocks::append_stream;
use u4pak::check::{check_payload, note_outcome, verdict, CheckOptions, Mismatch};
use u4pak::digest::sha1_of;
use u4pak::error::Error;
use u4pak::pack::{
    check_options, close_package, effective_block_size, effective_method, make_record, pack, pack_entry,
    PackInput, PackOptions, PackPath, COMPR_DEFAULT,
};
use u4pak::pak::{
    locate_index, read_footer, settle_version, Footer, Options, Pak, FOOTER_SIZE, PAK_MAGIC,
};
use u4pak::record::{CompressionBlock, Record, COMPR_NONE, COMPR_ZLIB};
use u4pak::text::Encoding;
use u4pak::unpack::{accept_restored, restore};

fn footer(magic: u32, version: u32, index_offset: u64, index_size: u64) -> Footer {
    Footer { magic, version, index_offset, index_size, index_sha1: [0; 20] }
}

fn inputs<'a>(big: &'a [u8]) -> Vec<PackInput<'a>> {
    vec![
        PackInput { path: PackPath::new("a/one"), data: b"one", created: Some(11) },
        PackInput { path: PackPath::compressed("two", COMPR_ZLIB, 300).unwrap(), data: big, created: Some(22) },
        PackInput { path: PackPath::compressed("three", COMPR_NONE, 5).unwrap(), data: b"", created: Some(33) },
    ]
}

#[test]
fn the_index_must_end_where_the_footer_starts() {
    assert_eq!(locate_index(&footer(0, 0, 0, 0), 44), Ok(()));
    assert_eq!(locate_index(&footer(0, 0, 10, 46), 100), Ok(()));
    assert_eq!(locate_index(&footer(0, 0, 56, 0), 100), Ok(()));
    assert_eq!(locate_index(&footer(0, 0, 0, u64::MAX - 44), u64::MAX), Ok(()));
    for (offset, size, length) in [
        (0u64, 0u64, 43u64),
        (0, 0, 0),
        (0, 1, 44),
        (10, 45, 100),
        (10, 47, 100),
        (57, 0, 100),
        (u64::MAX, 57, 100),
        (1, u64::MAX, 44),
    ] {
        assert_eq!(locate_index(&footer(0, 0, offset, size), length), Err(Error::CorruptIndex));
    }
}

#[test]
fn the_version_is_the_forced_one_or_the_footers() {
    let check = |magic, version, ignore_magic, force_version| {
        settle_version(
            &footer(magic, version, 0, 0),
            &Options { ignore_magic, encoding: Encoding::UTF8, force_version },
        )
    };
    assert_eq!(check(PAK_MAGIC, 1, false, None), Ok(1));
    assert_eq!(check(PAK_MAGIC, 3, false, None), Ok(3));
    assert_eq!(check(PAK_MAGIC, 3, false, Some(2)), Ok(2));
    assert_eq!(check(PAK_MAGIC, 77, false, Some(1)), Ok(1));
    assert_eq!(check(PAK_MAGIC, 0, false, None), Err(Error::UnsupportedVersion(0)));
    assert_eq!(check(PAK_MAGIC, 4, true, None), Err(Error::UnsupportedVersion(4)));
    assert_eq!(check(PAK_MAGIC, 2, false, Some(4)), Err(Error::UnsupportedVersion(4)));
    assert_eq!(check(PAK_MAGIC + 1, 2, false, None), Err(Error::BadMagic(PAK_MAGIC + 1)));
    assert_eq!(check(0, 9, false, None), Err(Error::BadMagic(0)));
    assert_eq!(check(0, 9, true, None), Err(Error::UnsupportedVersion(9)));
    assert_eq!(check(0, 9, true, Some(3)), Ok(3));
}

#[test]
fn footer_and_index_make_the_package_that_open_gives() {
    let big = vec![b'z'; 1000];
    let (bytes, built) = pack(&inputs(&big), &PackOptions { version: 1, ..PackOptions::default() }).unwrap();
    let at = bytes.len() - FOOTER_SIZE;
    let footer = read_footer(&bytes[at..]).unwrap();
    assert_eq!(footer, read_footer(&bytes).unwrap());
    let index = &bytes[footer.index_offset as usize..at];
    assert_eq!(Pak::from_index(&footer, index, &Options::default()), Ok(built.clone()));
    assert_eq!(Pak::open(&bytes, &Options::default()), Ok(built));
    assert_eq!(
        Pak::from_index(&footer, &index[1..], &Options::default()).map(|pak| pak.version),
        Err(Error::CorruptIndex)
    );
    let wrong = Footer { magic: 1, ..footer };
    assert_eq!(Pak::from_index(&wrong, index, &Options::default()).map(|pak| pak.version), Err(Error::BadMagic(1)));
    let wrong = Footer { version: 5, ..footer };
    assert_eq!(
        Pak::from_index(&wrong, index, &Options::default()).map(|pak| pak.version),
        Err(Error::UnsupportedVersion(5))
    );
}

#[test]
fn an_index_with_a_wrong_digest_still_opens() {
    let (bytes, built) = pack(&inputs(b"big"), &PackOptions::default()).unwrap();
    let at = bytes.len() - FOOTER_SIZE;
    let footer = Footer { index_sha1: [1; 20], ..read_footer(&bytes).unwrap() };
    let pak = Pak::from_index(&footer, &bytes[footer.index_offset as usize..at], &Options::default()).unwrap();
    assert_eq!(pak.index_sha1, [1; 20]);
    assert_eq!(pak.index_digest, built.index_sha1);
    assert_eq!(pak.records, built.records);
}

#[test]
fn payloads_are_checked_one_by_one() {
    let options = CheckOptions { abort_on_error: false, ignore_null_checksums: true };
    let mut record = Record::new("f".to_string(), 0, 3, 3, COMPR_NONE, None, sha1_of(b"abc").unwrap(), None, false, 0);
    assert_eq!(check_payload(&record, b"abc", &options), Ok(None));
    assert_eq!(
        check_payload(&record, b"abd", &options),
        Ok(Some(Mismatch { filename: "f".to_string(), expected: record.sha1, computed: sha1_of(b"abd").unwrap() }))
    );
    record.sha1 = [0; 20];
    assert_eq!(check_payload(&record, b"abd", &options), Ok(None));
    let strict = CheckOptions { abort_on_error: false, ignore_null_checksums: false };
    assert!(check_payload(&record, b"abd", &strict).unwrap().is_some());
}

#[test]
fn outcomes_are_noted_and_abort_stops_at_a_mismatch() {
    let m = |name: &str| Mismatch { filename: name.to_string(), expected: [1; 20], computed: [2; 20] };
    let go = CheckOptions { abort_on_error: false, ignore_null_checksums: false };
    let stop = CheckOptions { abort_on_error: true, ignore_null_checksums: false };
    let mut found = vec![m("a")];
    assert!(note_outcome(&mut found, None, &go));
    assert!(note_outcome(&mut found, None, &stop));
    assert_eq!(found, vec![m("a")]);
    assert!(note_outcome(&mut found, Some(m("b")), &go));
    assert_eq!(found, vec![m("a"), m("b")]);
    assert!(!note_outcome(&mut found, Some(m("c")), &stop));
    assert_eq!(found, vec![m("a"), m("b"), m("c")]);
}

#[test]
fn restored_bytes_must_have_the_recorded_size() {
    let record = Record::new("f".to_string(), 0, 9, 3, COMPR_ZLIB, None, [0; 20], None, false, 0);
    assert_eq!(accept_restored(&record, b"abc".to_vec()), Ok(b"abc".to_vec()));
    assert_eq!(accept_restored(&record, b"ab".to_vec()), Err(Error::CorruptData));
    assert_eq!(accept_restored(&record, b"abcd".to_vec()), Err(Error::CorruptData));
    assert_eq!(accept_restored(&record, Vec::new()), Err(Error::CorruptData));
}

#[test]
fn a_file_is_restored_from_its_payload_alone() {
    let big: Vec<u8> = (0..2000u32).map(|i| (i / 3) as u8).collect();
    let sources = inputs(&big);
    let (bytes, pak) = pack(&sources, &PackOptions::default()).unwrap();
    for (record, source) in pak.records.iter().zip(&sources) {
        let payload = &bytes[record.offset as usize..(record.offset + record.size) as usize];
        assert_eq!(restore(record, payload).as_deref(), Ok(source.data));
    }
    let mut odd = pak.records[1].clone();
    odd.compression_method = 3;
    assert_eq!(restore(&odd, b""), Err(Error::UnsupportedCompressionMethod(3)));
    assert_eq!(restore(&pak.records[1], b""), Err(Error::CorruptData));
    assert_eq!(restore(&pak.records[0], b"on"), Err(Error::CorruptData));
}

#[test]
fn a_stream_is_put_behind_the_payload() {
    let mut payload = vec![1, 2, 3];
    let mut blocks = vec![CompressionBlock { start_offset: 0, end_offset: 3 }];
    append_stream(&mut payload, &mut blocks, &[4, 5]);
    assert_eq!(payload, vec![1, 2, 3, 4, 5]);
    assert_eq!(
        blocks,
        vec![CompressionBlock { start_offset: 0, end_offset: 3 }, CompressionBlock { start_offset: 3, end_offset: 5 }]
    );
    append_stream(&mut payload, &mut blocks, &[]);
    assert_eq!(blocks[2], CompressionBlock { start_offset: 5, end_offset: 5 });
}

#[test]
fn options_are_checked_in_order() {
    let good = PackOptions::default();
    assert_eq!(check_options(&good), Ok(()));
    for version in [1u32, 2, 3] {
        for level in 1..=9u32 {
            assert_eq!(check_options(&PackOptions { version, compression_level: level, compression_method: COMPR_ZLIB, ..good }), Ok(()));
        }
    }
    let all_wrong = PackOptions { version: 0, compression_method: 9, compression_level: 0, compression_block_size: 0, ..good };
    assert_eq!(check_options(&all_wrong), Err(Error::UnsupportedVersion(0)));
    assert_eq!(check_options(&PackOptions { version: 2, ..all_wrong }), Err(Error::UnsupportedCompressionMethod(9)));
    assert_eq!(check_options(&PackOptions { version: 2, compression_method: 1, ..all_wrong }), Err(Error::IllegalArgument));
}

#[test]
fn method_and_block_size_are_the_files_own_or_the_options() {
    let options = PackOptions { compression_method: COMPR_ZLIB, compression_block_size: 10, ..PackOptions::default() };
    let data = [0u8; 25];
    let own = PackInput { path: PackPath::compressed("f", COMPR_NONE, 4).unwrap(), data: &data, created: None };
    let default = PackInput { path: PackPath::new("f"), data: &data, created: None };
    let large = PackInput { path: PackPath::compressed("f", COMPR_DEFAULT, 26).unwrap(), data: &data, created: None };
    let exact = PackInput { path: PackPath::compressed("f", COMPR_DEFAULT, 25).unwrap(), data: &data, created: None };
    let empty = PackInput { path: PackPath::new("f"), data: b"", created: None };
    assert_eq!(effective_method(&own, &options), COMPR_NONE);
    assert_eq!(effective_method(&default, &options), COMPR_ZLIB);
    assert_eq!(effective_method(&large, &options), COMPR_ZLIB);
    assert_eq!(effective_block_size(&own, &options), 4);
    assert_eq!(effective_block_size(&default, &options), 10);
    assert_eq!(effective_block_size(&large, &options), 25);
    assert_eq!(effective_block_size(&exact, &options), 25);
    assert_eq!(effective_block_size(&empty, &options), 0);
}

#[test]
fn a_record_is_filled_in_from_the_file_and_its_payload() {
    let data = [7u8; 25];
    let input = PackInput { path: PackPath::compressed("//dir//f/", COMPR_ZLIB, 10).unwrap(), data: &data, created: Some(99) };
    let blocks = vec![CompressionBlock { start_offset: 0, end_offset: 12 }];
    let v3 = PackOptions::default();
    let record = make_record(&input, &v3, 100, 12, [5; 20], Some(blocks.clone()));
    assert_eq!(record, Record::new("dir/f".to_string(), 100, 12, 25, COMPR_ZLIB, None, [5; 20], Some(blocks), false, 10));
    let v1 = PackOptions { version: 1, ..v3 };
    let record = make_record(&input, &v1, 0, 30, [6; 20], None);
    assert_eq!(record, Record::new("dir/f".to_string(), 0, 30, 25, COMPR_ZLIB, Some(99), [6; 20], None, false, 0));
}

#[test]
fn packing_file_by_file_gives_the_same_package() {
    let big: Vec<u8> = (0..3000u32).map(|i| (i % 11) as u8).collect();
    let sources = inputs(&big);
    for version in [1u32, 2, 3] {
        let options = PackOptions { version, mount_point: Some("/mp"), ..PackOptions::default() };
        let (whole, built) = pack(&sources, &options).unwrap();
        let mut bytes = Vec::new();
        let mut records = Vec::new();
        for source in &sources {
            let (record, payload) = pack_entry(source, &options, bytes.len() as u64).unwrap();
            assert_eq!(record.offset, bytes.len() as u64);
            assert_eq!(record.size, payload.len() as u64);
            assert_eq!(record.sha1, sha1_of(&payload).unwrap());
            bytes.extend_from_slice(&payload);
            records.push(record);
        }
        let (trailer, pak) = close_package(records, bytes.len() as u64, &options).unwrap();
        bytes.extend_from_slice(&trailer);
        assert_eq!(bytes, whole);
        assert_eq!(pak, built);
    }
}

#[test]
fn packing_a_file_checks_the_options_first() {
    let input = PackInput { path: PackPath::compressed("f", 5, 0).unwrap_or(PackPath::new("f")), data: b"x", created: None };
    let wrong = PackOptions { version: 7, ..PackOptions::default() };
    assert_eq!(pack_entry(&input, &wrong, 0).map(|made| made.1), Err(Error::UnsupportedVersion(7)));
    assert_eq!(close_package(Vec::new(), 0, &wrong).map(|made| made.0), Err(Error::UnsupportedVersion(7)));
    let v1 = PackOptions { version: 1, ..PackOptions::default() };
    assert_eq!(pack_entry(&input, &v1, 0).map(|made| made.1), Err(Error::Io));
}

#[test]
fn closing_a_package_writes_index_and_footer() {
    let record = Record::new("f".to_string(), 0, 3, 3, COMPR_NONE, None, [9; 20], None, false, 0);
    let options = PackOptions { version: 2, ..PackOptions::default() };
    let (trailer, pak) = close_package(vec![record.clone()], 3, &options).unwrap();
    assert_eq!(trailer.len(), 4 + 5 + 48 + FOOTER_SIZE);
    assert_eq!(&trailer[..4], &[0, 0, 0, 0]);
    assert_eq!(&trailer[4..9], &[1, 0, 0, 0, b'f']);
    let footer = read_footer(&trailer).unwrap();
    assert_eq!(
        footer,
        Footer { magic: PAK_MAGIC, version: 2, index_offset: 3, index_size: 57, index_sha1: sha1_of(&trailer[..57]).unwrap() }
    );
    assert_eq!(pak.records, vec![record]);
    assert_eq!((pak.index_offset, pak.index_size, pak.index_sha1), (3, 57, footer.index_sha1));
}

#[test]
fn the_verdict_counts_the_mismatches() {
    let m = Mismatch { filename: "f".to_string(), expected: [1; 20], computed: [2; 20] };
    assert_eq!(verdict(&[]), Ok(()));
    assert_eq!(verdict(&[m.clone()]), Err(Error::ChecksumMismatch(1)));
    assert_eq!(verdict(&[m.clone(), m.clone(), m]), Err(Error::ChecksumMismatch(3)));
}
