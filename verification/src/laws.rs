//! What holds of the library as a whole: statements that relate the builder,
//! the reader, the integrity engine and the text encodings to one another.

use vstd::prelude::*;
use vstd::utf8::*;
use crate::error::Error;
use crate::digest::spec_sha1;
use crate::codec::lemma_le_len;
use crate::text::{
    Encoding,
    spec_path_storable,
    spec_ascii_prefix,
    spec_latin1_prefix,
    spec_text_encodable,
    spec_first_illegal,
};
use crate::record::{RecordView, COMPR_NONE, COMPR_ZLIB, spec_read_record, CompressionBlock};
use crate::index::{
    spec_version_supported,
    spec_index_bytes,
    spec_entry_writable,
    lemma_index_roundtrip,
};
use crate::pak::{
    PakView,
    Options,
    spec_open,
    spec_read_footer,
    spec_index_region,
    spec_footer_bytes,
    lemma_footer_roundtrip,
};
use crate::check::{
    CheckOptions,
    MismatchView,
    spec_payload,
    spec_exempt,
    spec_check_record,
    spec_check_records,
    spec_check_index,
    spec_check_integrity,
};
use crate::unpack::spec_extract;
use crate::zlib::spec_inflated;
use crate::blocks::spec_join;
use crate::pack::{
    SourceView,
    PlanView,
    spec_pack_entry,
    spec_pack_entries,
    spec_packed,
    spec_closed,
    spec_trailer,
    spec_footer_of,
    spec_entry_sound,
    spec_all_sound,
};

verus! {

/// The records that packing gives are as many as the files, and each is one
/// that the layout of the package's version holds without loss, but for what
/// the index writer checks: the count of its blocks.
pub proof fn lemma_packed_records_shape(sources: Seq<SourceView>, o: PlanView, offset: int)
    requires
        spec_pack_entries(sources, o, offset).is_ok(),
    ensures
        ({
            let records = spec_pack_entries(sources, o, offset).unwrap().0;
            &&& records.len() == sources.len()
            &&& forall|i: int|
                0 <= i < records.len() ==> {
                    let r = #[trigger] records[i];
                    &&& (o.version == 1 <==> r.timestamp.is_some())
                    &&& (r.has_block_section(o.version) <==> r.compression_blocks.is_some())
                    &&& (r.compression_blocks.is_none() ==> !r.encrypted
                        && r.compression_block_size == 0)
                    &&& (r.compression_method == COMPR_NONE || r.compression_method == COMPR_ZLIB)
                }
        }),
    decreases sources.len(),
{
    if sources.len() > 0 {
        let first = spec_pack_entry(sources.first(), o, offset).unwrap();
        let next = offset + first.1.len();
        lemma_packed_records_shape(sources.drop_first(), o, next);
        let records = spec_pack_entries(sources, o, offset).unwrap().0;
        assert forall|i: int| 0 <= i < records.len() implies {
            let r = #[trigger] records[i];
            &&& (o.version == 1 <==> r.timestamp.is_some())
            &&& (r.has_block_section(o.version) <==> r.compression_blocks.is_some())
            &&& (r.compression_blocks.is_none() ==> !r.encrypted && r.compression_block_size == 0)
            &&& (r.compression_method == COMPR_NONE || r.compression_method == COMPR_ZLIB)
        } by {
        }
    }
}

/// Round trip of any records: whatever records a package is closed with,
/// where each is one that the layout of the version holds without loss, the
/// package opens, under the encoding and the version it was written with, as
/// the package value with those records field for field, the same mount
/// point, and the same place and digest of the index. The magic may be
/// checked or not, and the version may be forced to the one that was
/// written or left to the footer. `region` stands for the data region,
/// whatever it holds.
pub proof fn lemma_close_open_roundtrip(
    region: Seq<u8>,
    records: Seq<RecordView>,
    plan: PlanView,
    trailer: Seq<u8>,
    pak: PakView,
    options: Options,
)
    requires
        spec_closed(records, region.len() as u64, plan, trailer, pak),
        region.len() + trailer.len() <= u64::MAX,
        pak.index_sha1.len() == 20,
        forall|i: int| 0 <= i < records.len() ==> (#[trigger] records[i]).fits(plan.version),
        options.encoding == plan.encoding,
        options.force_version.is_none() || options.force_version == Some(plan.version),
    ensures
        spec_open(region + trailer, options) == Ok::<PakView, Error>(pak),
{
    let version = plan.version;
    let bytes = region + trailer;
    let index = spec_index_bytes(plan.mount_point, records, version, plan.encoding);
    let footer = spec_footer_of(region.len() as u64, index, version);
    lemma_footer_roundtrip(region + index, footer);
    assert(bytes =~= (region + index) + spec_footer_bytes(footer));
    assert(bytes.subrange(footer.index_offset as int, footer.index_offset + footer.index_size)
        =~= index);
    lemma_index_roundtrip(plan.mount_point, records, version, plan.encoding);
}

/// Round trip of a built package: a package that was built from files opens
/// as the package value that the builder gave.
pub proof fn lemma_pack_open_roundtrip(
    sources: Seq<SourceView>,
    plan: PlanView,
    bytes: Seq<u8>,
    pak: PakView,
    options: Options,
)
    requires
        spec_packed(sources, plan, bytes, pak),
        bytes.len() <= u64::MAX,
        pak.index_sha1.len() == 20,
        forall|i: int| 0 <= i < pak.records.len() ==> (#[trigger] pak.records[i]).sha1.len() == 20,
        options.encoding == plan.encoding,
        options.force_version.is_none() || options.force_version == Some(plan.version),
    ensures
        spec_open(bytes, options) == Ok::<PakView, Error>(pak),
{
    let packed = spec_pack_entries(sources, plan, 0).unwrap();
    let records = packed.0;
    let region = packed.1;
    let version = plan.version;
    let index = spec_index_bytes(plan.mount_point, records, version, plan.encoding);
    let trailer = spec_trailer(region.len() as u64, index, version);
    lemma_le_len();
    lemma_packed_records_shape(sources, plan, 0);
    assert(pak.records == records);
    lemma_close_open_roundtrip(region, records, plan, trailer, pak, options);
}

/// A record that was read is one that the layout it was read under holds
/// without loss: it has a timestamp exactly in version 1, and blocks, a flag
/// and a block size exactly where version 3 stores them for a compressed
/// entry.
pub proof fn lemma_read_record_fits(data: Seq<u8>, pos: int, version: u32, filename: Seq<char>)
    requires
        spec_version_supported(version),
        spec_read_record(data, pos, version, filename).is_some(),
    ensures
        spec_read_record(data, pos, version, filename).unwrap().0.fits(version),
        spec_read_record(data, pos, version, filename).unwrap().0.filename == filename,
        pos < spec_read_record(data, pos, version, filename).unwrap().1 <= data.len(),
{
}

/// The index of a package that opens ends exactly where the footer starts,
/// the version is one of 1, 2 and 3, and the digest that is kept is the one
/// of the index bytes.
pub proof fn lemma_open_locates_index(data: Seq<u8>, options: Options)
    requires
        spec_open(data, options).is_ok(),
    ensures
        ({
            let pak = spec_open(data, options).unwrap();
            &&& spec_version_supported(pak.version)
            &&& pak.index_offset + pak.index_size + 44 == data.len()
            &&& pak.index_digest == spec_sha1(
                data.subrange(pak.index_offset as int, pak.index_offset + pak.index_size),
            )
        }),
{
}

/// A record that checks clean in some data checks clean in any data in which
/// its payload is the same.
proof fn lemma_same_payload_same_check(
    r: RecordView,
    data: Seq<u8>,
    other: Seq<u8>,
    options: CheckOptions,
)
    requires
        spec_payload(r, other) == spec_payload(r, data),
    ensures
        spec_check_record(r, other, options) == spec_check_record(r, data, options),
{
}

/// Records that all check clean give an empty report, and the other way
/// round.
proof fn lemma_clean_report(records: Seq<RecordView>, data: Seq<u8>, options: CheckOptions)
    ensures
        spec_check_records(records, data, options) == Ok::<Seq<MismatchView>, Error>(
            Seq::<MismatchView>::empty(),
        ) <==> forall|i: int|
            0 <= i < records.len() ==> spec_check_record(#[trigger] records[i], data, options)
                == Ok::<Option<MismatchView>, Error>(None),
    decreases records.len(),
{
    let clean = Ok::<Option<MismatchView>, Error>(None);
    let empty = Ok::<Seq<MismatchView>, Error>(Seq::<MismatchView>::empty());
    if records.len() > 0 {
        let rest = records.drop_first();
        lemma_clean_report(rest, data, options);
        if spec_check_records(records, data, options) == empty {
            match spec_check_record(records.first(), data, options) {
                Ok(Some(m)) => {
                    if !options.abort_on_error {
                        match spec_check_records(rest, data, options) {
                            Ok(tail) => {
                                assert((seq![m] + tail).len() > 0);
                            },
                            Err(_) => {},
                        }
                    }
                },
                _ => {},
            }
            assert forall|i: int| 0 <= i < records.len() implies spec_check_record(
                #[trigger] records[i],
                data,
                options,
            ) == clean by {
                if i > 0 {
                    assert(records[i] == rest[i - 1]);
                }
            }
        }
    }
}

/// A fresh package verifies: where every record is sound and the two digests
/// of the index agree, a full check reports no mismatch, under any options.
pub proof fn lemma_sound_package_checks_clean(
    pak: PakView,
    data: Seq<u8>,
    sources: Seq<SourceView>,
    options: CheckOptions,
)
    requires
        spec_all_sound(pak.records, data, sources),
        pak.index_digest == pak.index_sha1,
    ensures
        spec_check_integrity(pak, data, options) == Ok::<Seq<MismatchView>, Error>(
            Seq::<MismatchView>::empty(),
        ),
{
    lemma_clean_report(pak.records, data, options);
}

/// The report of records of which exactly one, the `k`-th, gives a mismatch
/// and all others check clean: that one mismatch.
proof fn lemma_single_mismatch(
    records: Seq<RecordView>,
    data: Seq<u8>,
    options: CheckOptions,
    k: int,
    m: MismatchView,
)
    requires
        0 <= k < records.len(),
        spec_check_record(records[k], data, options) == Ok::<Option<MismatchView>, Error>(Some(m)),
        forall|i: int|
            0 <= i < records.len() && i != k ==> spec_check_record(
                #[trigger] records[i],
                data,
                options,
            ) == Ok::<Option<MismatchView>, Error>(None),
    ensures
        spec_check_records(records, data, options) == Ok::<Seq<MismatchView>, Error>(seq![m]),
    decreases records.len(),
{
    let rest = records.drop_first();
    if k == 0 {
        lemma_clean_report(rest, data, options);
    } else {
        lemma_single_mismatch(rest, data, options, k - 1, m);
    }
}

/// Checksum fidelity: in a package whose records all check clean, changing
/// one byte inside the payload of record `k` makes the check report exactly
/// one mismatch, the one of that record, whether or not it stops at the
/// first. Left out are the inputs on which this cannot hold: a change that
/// also lies in the payload of another record, a record whose digest is
/// exempt, and a change that SHA-1 does not see.
pub proof fn lemma_flipped_byte_is_reported(
    records: Seq<RecordView>,
    data: Seq<u8>,
    options: CheckOptions,
    k: int,
    position: int,
    byte: u8,
)
    requires
        0 <= k < records.len(),
        spec_check_records(records, data, options) == Ok::<Seq<MismatchView>, Error>(
            Seq::<MismatchView>::empty(),
        ),
        records[k].offset <= position < records[k].offset + records[k].size <= data.len(),
        byte != data[position],
        forall|i: int|
            0 <= i < records.len() && i != k ==> !((#[trigger] records[i]).offset <= position
                < records[i].offset + records[i].size),
        !spec_exempt(records[k].sha1, options),
        spec_sha1(spec_payload(records[k], data.update(position, byte)).unwrap()) != spec_sha1(
            spec_payload(records[k], data).unwrap(),
        ),
    ensures
        spec_check_records(records, data.update(position, byte), options) == Ok::<
            Seq<MismatchView>,
            Error,
        >(
            seq![
                MismatchView {
                    filename: records[k].filename,
                    expected: records[k].sha1,
                    computed: spec_sha1(
                        spec_payload(records[k], data.update(position, byte)).unwrap(),
                    ),
                },
            ],
        ),
{
    let flipped = data.update(position, byte);
    let clean = Ok::<Option<MismatchView>, Error>(None);
    lemma_clean_report(records, data, options);
    let m = MismatchView {
        filename: records[k].filename,
        expected: records[k].sha1,
        computed: spec_sha1(spec_payload(records[k], flipped).unwrap()),
    };
    assert forall|i: int| 0 <= i < records.len() && i != k implies spec_check_record(
        #[trigger] records[i],
        flipped,
        options,
    ) == clean by {
        let r = records[i];
        if r.offset + r.size <= data.len() {
            assert(flipped.subrange(r.offset as int, r.offset + r.size) =~= data.subrange(
                r.offset as int,
                r.offset + r.size,
            ));
        }
        lemma_same_payload_same_check(r, data, flipped, options);
    }
    assert(spec_payload(records[k], flipped).unwrap().len() == spec_payload(
        records[k],
        data,
    ).unwrap().len());
    assert(spec_check_record(records[k], flipped, options) == Ok::<Option<MismatchView>, Error>(
        Some(m),
    ));
    lemma_single_mismatch(records, flipped, options, k, m);
}

/// Index integrity: in a package whose index carries the digest that the
/// footer records, changing one byte inside the index region leaves the
/// footer as it reads, magic and version included, and makes the check of
/// the index report a mismatch. Left out are a recorded digest that is
/// exempt and a change that SHA-1 does not see.
pub proof fn lemma_corrupt_index_is_reported(
    data: Seq<u8>,
    options: CheckOptions,
    position: int,
    byte: u8,
)
    requires
        spec_check_index(data, options) == Ok::<Option<MismatchView>, Error>(None),
        spec_read_footer(data).unwrap().index_offset <= position < spec_read_footer(
            data,
        ).unwrap().index_offset + spec_read_footer(data).unwrap().index_size,
        byte != data[position],
        !spec_exempt(spec_read_footer(data).unwrap().index_sha1, options),
        spec_sha1(
            spec_index_region(data.update(position, byte), spec_read_footer(data).unwrap()).unwrap(),
        ) != spec_sha1(spec_index_region(data, spec_read_footer(data).unwrap()).unwrap()),
    ensures
        spec_read_footer(data.update(position, byte)) == spec_read_footer(data),
        spec_check_index(data.update(position, byte), options) == Ok::<
            Option<MismatchView>,
            Error,
        >(
            Some(
                MismatchView {
                    filename: Seq::<char>::empty(),
                    expected: spec_read_footer(data).unwrap().index_sha1,
                    computed: spec_sha1(
                        spec_index_region(
                            data.update(position, byte),
                            spec_read_footer(data).unwrap(),
                        ).unwrap(),
                    ),
                },
            ),
        ),
{
    let flipped = data.update(position, byte);
    let f = spec_read_footer(data).unwrap();
    let at = data.len() - 44;
    assert(flipped.subrange(at, at + 4) =~= data.subrange(at, at + 4));
    assert(flipped.subrange(at + 4, at + 8) =~= data.subrange(at + 4, at + 8));
    assert(flipped.subrange(at + 8, at + 16) =~= data.subrange(at + 8, at + 16));
    assert(flipped.subrange(at + 16, at + 24) =~= data.subrange(at + 16, at + 24));
    assert(flipped.subrange(at + 24, at + 44) =~= data.subrange(at + 24, at + 44));
    assert(spec_index_region(flipped, f).unwrap().len() == spec_index_region(
        data,
        f,
    ).unwrap().len());
}

/// Block coverage: whatever extracting a record gives has exactly the
/// recorded uncompressed size, and a payload that cannot be restored to that
/// size is `CorruptData`: there is no shorter or longer success.
pub proof fn lemma_extract_is_whole(r: RecordView, data: Seq<u8>)
    ensures
        match spec_extract(r, data) {
            Ok(bytes) => bytes.len() == r.uncompressed_size,
            Err(e) => e == Error::CorruptData || e == Error::Io || e
                == Error::UnsupportedCompressionMethod(r.compression_method),
        },
{
}

/// Blocks that join from some floor on join to the same bytes from any lower
/// floor on.
proof fn lemma_join_lower_floor(
    payload: Seq<u8>,
    blocks: Seq<CompressionBlock>,
    floor: int,
    lower: int,
)
    requires
        lower <= floor,
        spec_join(payload, blocks, floor).is_some(),
    ensures
        spec_join(payload, blocks, lower) == spec_join(payload, blocks, floor),
{
}

/// Blocks that join still join without the `k`-th, to as many bytes fewer as
/// that block inflates to.
proof fn lemma_join_without(payload: Seq<u8>, blocks: Seq<CompressionBlock>, floor: int, k: int)
    requires
        0 <= k < blocks.len(),
        spec_join(payload, blocks, floor).is_some(),
    ensures
        spec_join(payload, blocks.remove(k), floor).is_some(),
        spec_inflated(
            payload.subrange(blocks[k].start_offset as int, blocks[k].end_offset as int),
        ).is_some(),
        spec_join(payload, blocks.remove(k), floor).unwrap().len() + spec_inflated(
            payload.subrange(blocks[k].start_offset as int, blocks[k].end_offset as int),
        ).unwrap().len() == spec_join(payload, blocks, floor).unwrap().len(),
    decreases blocks.len(),
{
    let first = blocks.first();
    let rest = blocks.drop_first();
    if k == 0 {
        lemma_join_lower_floor(payload, rest, first.end_offset as int, floor);
    } else {
        lemma_join_without(payload, rest, first.end_offset as int, k - 1);
        assert(blocks.remove(k).drop_first() =~= rest.remove(k - 1));
    }
}

/// Block coverage: a record that extracts, with one of its blocks taken out,
/// no longer does, where that block held any bytes at all: the result would
/// be short, and is refused as `CorruptData`.
pub proof fn lemma_missing_block_is_corrupt(r: RecordView, data: Seq<u8>, k: int)
    requires
        r.compression_method == COMPR_ZLIB,
        r.compression_blocks.is_some(),
        0 <= k < r.compression_blocks.unwrap().len(),
        spec_extract(r, data).is_ok(),
        ({
            let b = r.compression_blocks.unwrap()[k];
            let stream = spec_payload(r, data).unwrap().subrange(
                b.start_offset as int,
                b.end_offset as int,
            );
            spec_inflated(stream) != Some(Seq::<u8>::empty())
        }),
    ensures
        spec_extract(
            RecordView { compression_blocks: Some(r.compression_blocks.unwrap().remove(k)), ..r },
            data,
        ) == Err::<Seq<u8>, Error>(Error::CorruptData),
{
    let payload = spec_payload(r, data).unwrap();
    let blocks = r.compression_blocks.unwrap();
    lemma_join_without(payload, blocks, 0, k);
    let b = blocks[k];
    let part = spec_inflated(payload.subrange(b.start_offset as int, b.end_offset as int)).unwrap();
    assert(part.len() > 0) by {
        if part.len() == 0 {
            assert(part =~= Seq::<u8>::empty());
        }
    }
}

/// There is a first byte above 127 among the first `n` where there is any.
proof fn lemma_first_non_ascii(bytes: Seq<u8>, n: int)
    requires
        0 <= n <= bytes.len(),
        !spec_ascii_prefix(bytes, n),
    ensures
        exists|i: int| 0 <= i < n && #[trigger] spec_ascii_prefix(bytes, i) && bytes[i] > 127,
    decreases n,
{
    if n > 0 {
        if !spec_ascii_prefix(bytes, n - 1) {
            lemma_first_non_ascii(bytes, n - 1);
        }
    }
}

/// Encoding boundaries: text whose UTF-8 form holds a byte above 127 cannot
/// be written under ASCII, and the first such byte is the one that the
/// failure names; it can be written under UTF-8; and it can be written under
/// Latin-1 where no character is above code point 255.
pub proof fn lemma_encoding_boundaries(text: Seq<char>)
    requires
        exists|i: int| 0 <= i < encode_utf8(text).len() && encode_utf8(text)[i] > 127,
    ensures
        !spec_text_encodable(text, Encoding::ASCII),
        exists|code: u32| spec_first_illegal(text, Encoding::ASCII, code),
        spec_text_encodable(text, Encoding::UTF8),
        spec_latin1_prefix(text, text.len() as int) ==> spec_text_encodable(
            text,
            Encoding::Latin1,
        ),
{
    let bytes = encode_utf8(text);
    lemma_first_non_ascii(bytes, bytes.len() as int);
    let i = choose|i: int|
        0 <= i < bytes.len() && #[trigger] spec_ascii_prefix(bytes, i) && bytes[i] > 127;
    assert(spec_first_illegal(text, Encoding::ASCII, bytes[i] as u32));
}

} // verus!
