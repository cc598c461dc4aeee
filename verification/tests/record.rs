use u4pak::error::Error;
use u4pak::record::{read_record, write_record, CompressionBlock, Record, COMPR_NONE, COMPR_ZLIB};

fn digest(seed: u8) -> [u8; 20] {
    let mut d = [0u8; 20];
    for (i, b) in d.iter_mut().enumerate() {
        *b = seed.wrapping_add(i as u8);
    }
    d
}

fn plain(timestamp: Option<u64>) -> Record {
    Record::new("a/b.txt".to_string(), 1, 2, 2, COMPR_NONE, timestamp, digest(7), None, false, 0)
}

fn zipped() -> Record {
    Record::new(
        "z.bin".to_string(),
        0x1_0000_0001,
        30,
        100,
        COMPR_ZLIB,
        None,
        digest(100),
        Some(vec![
            CompressionBlock { start_offset: 0, end_offset: 10 },
            CompressionBlock { start_offset: 10, end_offset: 30 },
        ]),
        true,
        64,
    )
}

#[test]
fn version_2_layout_is_48_bytes() {
    let mut out = Vec::new();
    plain(None).write_v2(&mut out);
    let mut expected = vec![1, 0, 0, 0, 0, 0, 0, 0, 2, 0, 0, 0, 0, 0, 0, 0, 2, 0, 0, 0, 0, 0, 0, 0];
    expected.extend_from_slice(&[0, 0, 0, 0]);
    expected.extend_from_slice(&digest(7));
    assert_eq!(out, expected);
    assert_eq!(out.len(), 48);
}

#[test]
fn version_1_layout_has_the_timestamp_before_the_digest() {
    let mut out = Vec::new();
    plain(Some(0x0102)).write_v1(&mut out);
    assert_eq!(out.len(), 56);
    assert_eq!(&out[28..36], &[2, 1, 0, 0, 0, 0, 0, 0]);
    assert_eq!(&out[36..56], &digest(7));
}

#[test]
fn version_3_layout_of_a_stored_file_has_no_block_section() {
    let mut out = Vec::new();
    assert_eq!(plain(None).write_v3(&mut out), Ok(()));
    assert_eq!(out.len(), 48);
}

#[test]
fn version_3_layout_of_a_compressed_file() {
    let mut out = Vec::new();
    assert_eq!(zipped().write_v3(&mut out), Ok(()));
    assert_eq!(out.len(), 48 + 4 + 2 * 16 + 1 + 4);
    assert_eq!(&out[0..8], &[1, 0, 0, 0, 1, 0, 0, 0]);
    assert_eq!(&out[24..28], &[1, 0, 0, 0]);
    assert_eq!(&out[48..52], &[2, 0, 0, 0]);
    assert_eq!(&out[52..68], &[0, 0, 0, 0, 0, 0, 0, 0, 10, 0, 0, 0, 0, 0, 0, 0]);
    assert_eq!(&out[68..84], &[10, 0, 0, 0, 0, 0, 0, 0, 30, 0, 0, 0, 0, 0, 0, 0]);
    assert_eq!(out[84], 1);
    assert_eq!(&out[85..89], &[64, 0, 0, 0]);
}

#[test]
fn records_round_trip_in_every_version() {
    for (record, version) in [(plain(Some(77)), 1u32), (plain(None), 2), (plain(None), 3), (zipped(), 3)] {
        let mut out = vec![0xAB, 0xCD];
        assert_eq!(write_record(&mut out, &record, version), Ok(()));
        let end = out.len();
        out.extend_from_slice(&[1, 2, 3]);
        assert_eq!(
            read_record(&out, 2, version, record.filename.clone()),
            Ok((record.clone(), end))
        );
    }
}

#[test]
fn absent_timestamp_is_not_a_zero_timestamp() {
    let mut out = Vec::new();
    plain(Some(0)).write_v1(&mut out);
    let (back, _) = Record::read_v1(&out, 0, "a/b.txt".to_string()).unwrap();
    assert_eq!(back.timestamp, Some(0));
    let mut out = Vec::new();
    plain(None).write_v2(&mut out);
    let (back, _) = Record::read_v2(&out, 0, "a/b.txt".to_string()).unwrap();
    assert_eq!(back.timestamp, None);
    let (back, _) = Record::read_v3(&out, 0, "a/b.txt".to_string()).unwrap();
    assert_eq!(back.timestamp, None);
    assert_eq!(back.compression_blocks, None);
    assert!(!back.encrypted);
}

#[test]
fn older_layouts_do_not_store_blocks() {
    let mut out = Vec::new();
    zipped().write_v2(&mut out);
    assert_eq!(out.len(), 48);
    let (back, next) = Record::read_v2(&out, 0, "z.bin".to_string()).unwrap();
    assert_eq!(next, 48);
    assert_eq!(back.compression_method, COMPR_ZLIB);
    assert_eq!(back.compression_blocks, None);
    assert_eq!(back.compression_block_size, 0);
}

#[test]
fn a_record_cut_short_is_truncated() {
    let mut out = Vec::new();
    assert_eq!(zipped().write_v3(&mut out), Ok(()));
    for cut in 0..out.len() {
        assert_eq!(
            Record::read_v3(&out[..cut], 0, String::new()).map(|found| found.1),
            Err(Error::Truncated)
        );
    }
    assert_eq!(Record::read_v3(&out, 0, String::new()).map(|found| found.1), Ok(out.len()));
    assert_eq!(Record::read_v1(&[0; 55], 0, String::new()).map(|found| found.1), Err(Error::Truncated));
    assert_eq!(Record::read_v2(&[0; 48], 1, String::new()).map(|found| found.1), Err(Error::Truncated));
}

#[test]
fn a_huge_block_count_is_truncated_not_allocated() {
    let mut out = Vec::new();
    assert_eq!(zipped().write_v3(&mut out), Ok(()));
    out[48..52].copy_from_slice(&[0xFF, 0xFF, 0xFF, 0xFF]);
    assert_eq!(Record::read_v3(&out, 0, String::new()).map(|found| found.1), Err(Error::Truncated));
}

#[test]
fn unknown_versions_are_refused() {
    let mut out = vec![5];
    assert_eq!(write_record(&mut out, &plain(None), 0), Err(Error::UnsupportedVersion(0)));
    assert_eq!(write_record(&mut out, &plain(None), 4), Err(Error::UnsupportedVersion(4)));
    assert_eq!(out, vec![5]);
    assert_eq!(
        read_record(&[0; 100], 0, 9, String::new()).map(|found| found.1),
        Err(Error::UnsupportedVersion(9))
    );
}

#[test]
fn unsupported_methods_are_carried_through_the_index() {
    let mut record = zipped();
    record.compression_method = 4;
    let mut out = Vec::new();
    assert_eq!(record.write_v3(&mut out), Ok(()));
    assert_eq!(Record::read_v3(&out, 0, "z.bin".to_string()), Ok((record, out.len())));
}

#[test]
fn any_non_zero_flag_byte_reads_as_encrypted() {
    let mut out = Vec::new();
    assert_eq!(zipped().write_v3(&mut out), Ok(()));
    out[84] = 0;
    assert!(!Record::read_v3(&out, 0, String::new()).unwrap().0.encrypted);
    out[84] = 2;
    assert!(Record::read_v3(&out, 0, String::new()).unwrap().0.encrypted);
}
