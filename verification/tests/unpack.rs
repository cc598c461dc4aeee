use u4pak::digest::sha1_of;
use u4pak::error::Error;
use u4pak::pack::{pack, PackInput, PackOptions, PackPath};
use u4pak::paths::{destination_components, make_pak_path};
use u4pak::record::{CompressionBlock, Record, COMPR_NONE, COMPR_ZLIB};
use u4pak::unpack::extract;

fn packed() -> (Vec<u8>, Record, Vec<u8>) {
    let data: Vec<u8> = (0..300u32).map(|i| (i % 7) as u8).collect();
    let inputs = [PackInput { path: PackPath::compressed("z", COMPR_ZLIB, 100).unwrap(), data: &data, created: None }];
    let (bytes, pak) = pack(&inputs, &PackOptions::default()).unwrap();
    (bytes, pak.records[0].clone(), data)
}

#[test]
fn a_stored_file_is_copied() {
    let record = Record::new("s".to_string(), 3, 4, 4, COMPR_NONE, None, [0; 20], None, false, 0);
    assert_eq!(extract(&record, b"0123456789"), Ok(b"3456".to_vec()));
}

#[test]
fn a_stored_file_must_have_its_recorded_size() {
    let record = Record::new("s".to_string(), 3, 4, 5, COMPR_NONE, None, [0; 20], None, false, 0);
    assert_eq!(extract(&record, b"0123456789"), Err(Error::CorruptData));
}

#[test]
fn a_compressed_file_is_restored_block_by_block() {
    let (bytes, record, data) = packed();
    assert_eq!(record.compression_blocks.as_ref().unwrap().len(), 3);
    assert_eq!(extract(&record, &bytes), Ok(data));
}

#[test]
fn a_removed_block_is_corrupt_data() {
    let (bytes, record, _) = packed();
    for k in 0..3 {
        let mut short = record.clone();
        short.compression_blocks.as_mut().unwrap().remove(k);
        assert_eq!(extract(&short, &bytes), Err(Error::CorruptData));
    }
    let mut none = record.clone();
    none.compression_blocks = Some(Vec::new());
    assert_eq!(extract(&none, &bytes), Err(Error::CorruptData));
}

#[test]
fn a_truncated_block_is_corrupt_data() {
    let (bytes, record, _) = packed();
    for k in 0..3 {
        let mut cut = record.clone();
        cut.compression_blocks.as_mut().unwrap()[k].end_offset -= 1;
        assert_eq!(extract(&cut, &bytes), Err(Error::CorruptData));
        let mut cut = record.clone();
        cut.compression_blocks.as_mut().unwrap()[k].start_offset += 1;
        assert_eq!(extract(&cut, &bytes), Err(Error::CorruptData));
    }
}

#[test]
fn a_block_twice_is_corrupt_data() {
    let (bytes, record, _) = packed();
    let mut twice = record.clone();
    let first = twice.compression_blocks.as_ref().unwrap()[0];
    twice.compression_blocks.as_mut().unwrap().insert(0, first);
    assert_eq!(extract(&twice, &bytes), Err(Error::CorruptData));
}

#[test]
fn a_wrong_uncompressed_size_is_corrupt_data() {
    let (bytes, record, _) = packed();
    for size in [0u64, 299, 301, u64::MAX] {
        let mut wrong = record.clone();
        wrong.uncompressed_size = size;
        assert_eq!(extract(&wrong, &bytes), Err(Error::CorruptData));
    }
}

#[test]
fn extracting_a_payload_outside_the_data_is_an_io_error() {
    let (bytes, record, _) = packed();
    let mut wrong = record.clone();
    wrong.offset = bytes.len() as u64;
    assert_eq!(extract(&wrong, &bytes), Err(Error::Io));
    assert_eq!(extract(&record, &bytes[..record.size as usize - 1]), Err(Error::Io));
}

#[test]
fn other_methods_fail_cleanly() {
    let (bytes, record, _) = packed();
    for method in [2u32, 4, 0x10, u32::MAX] {
        let mut wrong = record.clone();
        wrong.compression_method = method;
        assert_eq!(extract(&wrong, &bytes), Err(Error::UnsupportedCompressionMethod(method)));
        wrong.offset = u64::MAX;
        assert_eq!(extract(&wrong, &bytes), Err(Error::UnsupportedCompressionMethod(method)));
    }
}

#[test]
fn a_zlib_record_without_blocks_is_one_stream() {
    let data = vec![3u8; 500];
    let inputs = [PackInput { path: PackPath::compressed("z", COMPR_ZLIB, 100).unwrap(), data: &data, created: Some(1) }];
    let (bytes, pak) = pack(&inputs, &PackOptions { version: 1, ..PackOptions::default() }).unwrap();
    let record = pak.records[0].clone();
    assert_eq!(record.compression_blocks, None);
    assert_eq!(extract(&record, &bytes), Ok(data));
    let mut cut = record.clone();
    cut.size -= 1;
    assert_eq!(extract(&cut, &bytes), Err(Error::CorruptData));
    let mut plain = record;
    plain.compression_method = COMPR_NONE;
    assert_eq!(extract(&plain, &bytes), Err(Error::CorruptData));
}

#[test]
fn blocks_are_relative_to_the_payload() {
    let (bytes, record, data) = packed();
    let mut shifted = vec![0xEE; 17];
    shifted.extend_from_slice(&bytes);
    let mut moved = record.clone();
    moved.offset += 17;
    assert_eq!(moved.compression_blocks, record.compression_blocks);
    assert_eq!(extract(&moved, &shifted), Ok(data));
    assert_eq!(moved.sha1, sha1_of(&shifted[17..17 + record.size as usize]).unwrap());
    let far = CompressionBlock { start_offset: record.size, end_offset: record.size + 1 };
    moved.compression_blocks.as_mut().unwrap().push(far);
    assert_eq!(extract(&moved, &shifted), Err(Error::CorruptData));
}

#[test]
fn stored_paths_have_no_empty_component() {
    assert_eq!(make_pak_path("a/b/c.txt"), "a/b/c.txt");
    assert_eq!(make_pak_path("/a//b///c.txt/"), "a/b/c.txt");
    assert_eq!(make_pak_path(""), "");
    assert_eq!(make_pak_path("///"), "");
    assert_eq!(make_pak_path("x"), "x");
    assert_eq!(make_pak_path("/x"), "x");
    assert_eq!(make_pak_path("x/"), "x");
    assert_eq!(make_pak_path("\u{e9}/\u{4e2d}"), "\u{e9}/\u{4e2d}");
    assert_eq!(make_pak_path("a\\b"), "a\\b");
    assert_eq!(make_pak_path("../a/./b"), "../a/./b");
}

#[test]
fn destination_components_are_the_non_empty_runs() {
    assert_eq!(destination_components("a/b/c.txt"), Ok(vec!["a".to_string(), "b".to_string(), "c.txt".to_string()]));
    assert_eq!(destination_components("/a//b/"), Ok(vec!["a".to_string(), "b".to_string()]));
    assert_eq!(destination_components(""), Ok(Vec::new()));
    assert_eq!(destination_components("/"), Ok(Vec::new()));
    assert_eq!(destination_components("x"), Ok(vec!["x".to_string()]));
    assert_eq!(destination_components("./a/.../..b/c.."), Ok(vec![".".to_string(), "a".to_string(), "...".to_string(), "..b".to_string(), "c..".to_string()]));
}

#[test]
fn parent_components_are_path_traversal() {
    for path in ["..", "../a", "a/../b", "a/b/..", "/../etc/passwd", "a//..//b", "../../../Game/x"] {
        assert_eq!(destination_components(path), Err(Error::PathTraversal));
    }
}
