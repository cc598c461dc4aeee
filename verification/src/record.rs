//! One archive entry's metadata and its three on-disk layouts.
//!
//! | field                           | v1 | v2 | v3                         |
//! |---------------------------------|----|----|----------------------------|
//! | offset, size, uncompressed size | 64 | 64 | 64 bits each               |
//! | compression method              | 32 | 32 | 32 bits                    |
//! | timestamp                       | 64 | -  | -                          |
//! | SHA-1                           | 20 | 20 | 20 bytes                   |
//! | block count and blocks          | -  | -  | where the method is not 0  |
//! | encrypted flag (one byte)       | -  | -  | where the method is not 0  |
//! | compression block size          | -  | -  | where the method is not 0  |

use vstd::prelude::*;
use crate::error::Error;
use crate::digest::Sha1;
use crate::codec::{
    spec_u32_le,
    spec_u64_le,
    spec_u32_from_le,
    spec_u64_from_le,
    encode_u32,
    encode_u64,
    decode_u32,
    decode_u64,
    lemma_u32_le_roundtrip,
    lemma_u64_le_roundtrip,
    lemma_le_len,
};

verus! {

/// Compression method: the payload is stored as it is.
pub const COMPR_NONE: u32 = 0;

/// Compression method: the payload is made of zlib streams.
pub const COMPR_ZLIB: u32 = 1;

/// The byte range of one compressed chunk, relative to the start of the
/// entry's payload.
#[derive(Clone, Copy, Debug, PartialEq, Eq, Structural)]
pub struct CompressionBlock {
    /// Where the chunk's stream starts.
    pub start_offset: u64,
    /// Where it ends: the position behind its last byte.
    pub end_offset: u64,
}

/// The metadata of one archive entry.
#[derive(Clone, Debug, PartialEq, Eq)]
pub struct Record {
    /// Archive-relative path, with forward slashes.
    pub filename: String,
    /// Where the payload starts in the data section.
    pub offset: u64,
    /// Length of the payload as stored.
    pub size: u64,
    /// Length of the file after decompression.
    pub uncompressed_size: u64,
    /// `COMPR_NONE`, `COMPR_ZLIB`, or a code that the format allows and this
    /// library does not handle.
    pub compression_method: u32,
    /// Seconds since the epoch; only version 1 stores it.
    pub timestamp: Option<u64>,
    /// Digest of the payload as stored.
    pub sha1: Sha1,
    /// The compressed chunks; only version 3 stores them, and only for a
    /// compressed entry.
    pub compression_blocks: Option<Vec<CompressionBlock>>,
    /// Carried through; no cipher is implemented.
    pub encrypted: bool,
    /// Uncompressed size of every chunk but possibly the last.
    pub compression_block_size: u32,
}

/// A record as a mathematical value.
pub struct RecordView {
    pub filename: Seq<char>,
    pub offset: u64,
    pub size: u64,
    pub uncompressed_size: u64,
    pub compression_method: u32,
    pub timestamp: Option<u64>,
    pub sha1: Seq<u8>,
    pub compression_blocks: Option<Seq<CompressionBlock>>,
    pub encrypted: bool,
    pub compression_block_size: u32,
}

impl View for Record {
    type V = RecordView;

    open spec fn view(&self) -> RecordView {
        RecordView {
            filename: self.filename@,
            offset: self.offset,
            size: self.size,
            uncompressed_size: self.uncompressed_size,
            compression_method: self.compression_method,
            timestamp: self.timestamp,
            sha1: self.sha1@,
            compression_blocks: match self.compression_blocks {
                Some(blocks) => Some(blocks@),
                None => None,
            },
            encrypted: self.encrypted,
            compression_block_size: self.compression_block_size,
        }
    }
}

/// The views of a sequence of records, in order.
pub open spec fn spec_views(records: Seq<Record>) -> Seq<RecordView> {
    Seq::new(records.len(), |i: int| records[i]@)
}

impl RecordView {
    /// Whether layout `version` stores the blocks, the flag and the block size.
    pub open spec fn has_block_section(self, version: u32) -> bool {
        version == 3 && self.compression_method != COMPR_NONE
    }

    /// Whether layout `version` can hold every field of the record, so that
    /// nothing is lost by writing it: a timestamp exactly in version 1; blocks
    /// exactly where the layout stores them, and then no more than a 32-bit
    /// count of them; no flag and no block size where the layout has no place
    /// for them.
    pub open spec fn fits(self, version: u32) -> bool {
        &&& self.sha1.len() == 20
        &&& (version == 1 <==> self.timestamp.is_some())
        &&& if self.has_block_section(version) {
            self.compression_blocks.is_some() && self.compression_blocks.unwrap().len()
                <= u32::MAX
        } else {
            self.compression_blocks.is_none() && !self.encrypted && self.compression_block_size
                == 0
        }
    }

    /// Whether the record is one that a sound package holds: its digest has
    /// twenty bytes; its blocks, if any, lie in order inside the payload; only
    /// a compressed entry has blocks; and an entry that is stored as it is
    /// has its uncompressed size.
    pub open spec fn well_formed(self) -> bool {
        &&& self.sha1.len() == 20
        &&& self.blocks_ordered()
        &&& (self.compression_blocks.is_some() ==> self.compression_method != COMPR_NONE)
        &&& (self.compression_method == COMPR_NONE ==> self.size == self.uncompressed_size)
    }

    /// Whether the blocks, if any, lie inside the payload one after the other:
    /// each ends after it starts, none starts before its predecessor ends, and
    /// the last ends within `size`.
    pub open spec fn blocks_ordered(self) -> bool {
        match self.compression_blocks {
            None => true,
            Some(blocks) => spec_blocks_ordered(blocks, self.size),
        }
    }
}

/// Whether `blocks` lie inside a payload of `size` bytes one after the other.
pub open spec fn spec_blocks_ordered(blocks: Seq<CompressionBlock>, size: u64) -> bool {
    &&& forall|i: int|
        0 <= i < blocks.len() ==> (#[trigger] blocks[i]).start_offset < blocks[i].end_offset
            && blocks[i].end_offset <= size
    &&& forall|i: int, j: int|
        0 <= i < j < blocks.len() ==> (#[trigger] blocks[i]).end_offset <= (
        #[trigger] blocks[j]).start_offset
}

/// The sixteen bytes of one block: start, then end.
pub open spec fn spec_block_bytes(block: CompressionBlock) -> Seq<u8> {
    spec_u64_le(block.start_offset) + spec_u64_le(block.end_offset)
}

/// The bytes of a run of blocks, sixteen for each.
pub open spec fn spec_blocks_bytes(blocks: Seq<CompressionBlock>) -> Seq<u8>
    decreases blocks.len(),
{
    if blocks.len() == 0 {
        Seq::<u8>::empty()
    } else {
        spec_blocks_bytes(blocks.drop_last()) + spec_block_bytes(blocks.last())
    }
}

/// The part of a record that all layouts share up to the digest: three 64-bit
/// numbers, the method, and in version 1 the timestamp (zero where absent).
pub open spec fn spec_record_head(r: RecordView, version: u32) -> Seq<u8> {
    spec_u64_le(r.offset) + spec_u64_le(r.size) + spec_u64_le(r.uncompressed_size) + spec_u32_le(
        r.compression_method,
    ) + if version == 1 {
        spec_u64_le(
            match r.timestamp {
                Some(t) => t,
                None => 0,
            },
        )
    } else {
        Seq::<u8>::empty()
    }
}

/// The block section of a record: count, blocks, flag byte, block size.
pub open spec fn spec_block_section(r: RecordView) -> Seq<u8> {
    let blocks = match r.compression_blocks {
        Some(blocks) => blocks,
        None => Seq::<CompressionBlock>::empty(),
    };
    spec_u32_le(blocks.len() as u32) + spec_blocks_bytes(blocks) + seq![
        if r.encrypted {
            1u8
        } else {
            0u8
        },
    ] + spec_u32_le(r.compression_block_size)
}

/// The stored form of a record under layout `version`, without its name.
pub open spec fn spec_record_bytes(r: RecordView, version: u32) -> Seq<u8> {
    spec_record_head(r, version) + r.sha1 + if r.has_block_section(version) {
        spec_block_section(r)
    } else {
        Seq::<u8>::empty()
    }
}

/// Length of the part of a record that every entry of a layout has.
pub open spec fn spec_fixed_len(version: u32) -> int {
    if version == 1 {
        56
    } else {
        48
    }
}

/// The block stored at `pos`.
pub open spec fn spec_block_at(data: Seq<u8>, pos: int) -> CompressionBlock {
    CompressionBlock {
        start_offset: spec_u64_from_le(data.subrange(pos, pos + 8)),
        end_offset: spec_u64_from_le(data.subrange(pos + 8, pos + 16)),
    }
}

/// The `count` blocks stored from `pos` on.
pub open spec fn spec_blocks_at(data: Seq<u8>, pos: int, count: int) -> Seq<CompressionBlock> {
    Seq::new(count as nat, |i: int| spec_block_at(data, pos + 16 * i))
}

/// What reading a record body at `pos` under layout `version` gives: the record
/// (with the name that was read before it) and the position behind it, or
/// nothing where the data ends too early.
pub open spec fn spec_read_record(data: Seq<u8>, pos: int, version: u32, filename: Seq<char>)
    -> Option<(RecordView, int)> {
    let fixed = spec_fixed_len(version);
    if pos < 0 || pos + fixed > data.len() {
        None
    } else {
        let method = spec_u32_from_le(data.subrange(pos + 24, pos + 28));
        let plain = RecordView {
            filename,
            offset: spec_u64_from_le(data.subrange(pos, pos + 8)),
            size: spec_u64_from_le(data.subrange(pos + 8, pos + 16)),
            uncompressed_size: spec_u64_from_le(data.subrange(pos + 16, pos + 24)),
            compression_method: method,
            timestamp: if version == 1 {
                Some(spec_u64_from_le(data.subrange(pos + 28, pos + 36)))
            } else {
                None
            },
            sha1: data.subrange(pos + fixed - 20, pos + fixed),
            compression_blocks: None,
            encrypted: false,
            compression_block_size: 0,
        };
        if version == 3 && method != COMPR_NONE {
            let at = pos + fixed;
            if at + 4 > data.len() {
                None
            } else {
                let count = spec_u32_from_le(data.subrange(at, at + 4)) as int;
                let end = at + 4 + 16 * count;
                if end + 5 > data.len() {
                    None
                } else {
                    Some(
                        (
                            RecordView {
                                compression_blocks: Some(spec_blocks_at(data, at + 4, count)),
                                encrypted: data[end] != 0,
                                compression_block_size: spec_u32_from_le(
                                    data.subrange(end + 1, end + 5),
                                ),
                                ..plain
                            },
                            end + 5,
                        ),
                    )
                }
            }
        } else {
            Some((plain, pos + fixed))
        }
    }
}

impl Record {
    /// A record with the given fields.
    pub fn new(
        filename: String,
        offset: u64,
        size: u64,
        uncompressed_size: u64,
        compression_method: u32,
        timestamp: Option<u64>,
        sha1: Sha1,
        compression_blocks: Option<Vec<CompressionBlock>>,
        encrypted: bool,
        compression_block_size: u32,
    ) -> (r: Record)
        ensures
            r.filename == filename,
            r.offset == offset,
            r.size == size,
            r.uncompressed_size == uncompressed_size,
            r.compression_method == compression_method,
            r.timestamp == timestamp,
            r.sha1 == sha1,
            r.compression_blocks == compression_blocks,
            r.encrypted == encrypted,
            r.compression_block_size == compression_block_size,
    {
        Record {
            filename,
            offset,
            size,
            uncompressed_size,
            compression_method,
            timestamp,
            sha1,
            compression_blocks,
            encrypted,
            compression_block_size,
        }
    }

    /// Appends the three sizes and the method.
    fn write_sizes(&self, out: &mut Vec<u8>)
        ensures
            final(out)@ == old(out)@ + spec_u64_le(self.offset) + spec_u64_le(self.size)
                + spec_u64_le(self.uncompressed_size) + spec_u32_le(self.compression_method),
    {
        encode_u64(out, self.offset);
        encode_u64(out, self.size);
        encode_u64(out, self.uncompressed_size);
        encode_u32(out, self.compression_method);
    }

    /// Appends the digest.
    fn write_sha1(&self, out: &mut Vec<u8>)
        ensures
            final(out)@ == old(out)@ + self.sha1@,
    {
        let mut i: usize = 0;
        while i < 20
            invariant
                i <= 20,
                out@ == old(out)@ + self.sha1@.take(i as int),
            decreases 20 - i,
        {
            out.push(self.sha1[i]);
            i += 1;
        }
    }

    /// Appends the record under layout 1: sizes, method, timestamp (zero where
    /// there is none), digest.
    pub fn write_v1(&self, out: &mut Vec<u8>)
        ensures
            final(out)@ == old(out)@ + spec_record_bytes(self@, 1),
    {
        self.write_sizes(out);
        encode_u64(
            out,
            match self.timestamp {
                Some(t) => t,
                None => 0,
            },
        );
        self.write_sha1(out);
    }

    /// Appends the record under layout 2: sizes, method, digest.
    pub fn write_v2(&self, out: &mut Vec<u8>)
        ensures
            final(out)@ == old(out)@ + spec_record_bytes(self@, 2),
    {
        self.write_sizes(out);
        self.write_sha1(out);
    }

    /// Appends the record under layout 3: sizes, method, digest, and for a
    /// compressed entry the blocks, the flag and the block size. Fails with
    /// `Oversize`, leaving `out` as it was, where there are more blocks than a
    /// 32-bit count can say.
    pub fn write_v3(&self, out: &mut Vec<u8>) -> (r: Result<(), Error>)
        ensures
            match r {
                Ok(()) => spec_block_count_fits(self@, 3) && final(out)@ == old(out)@
                    + spec_record_bytes(self@, 3),
                Err(e) => e == Error::Oversize && !spec_block_count_fits(self@, 3) && final(out)@
                    == old(out)@,
            },
    {
        if self.compression_method != COMPR_NONE {
            if let Some(blocks) = &self.compression_blocks {
                if blocks.len() > u32::MAX as usize {
                    return Err(Error::Oversize);
                }
            }
        }
        self.write_sizes(out);
        self.write_sha1(out);
        if self.compression_method != COMPR_NONE {
            match &self.compression_blocks {
                Some(blocks) => {
                    encode_u32(out, blocks.len() as u32);
                    write_blocks(out, blocks.as_slice());
                },
                None => {
                    encode_u32(out, 0);
                    assert(spec_blocks_bytes(Seq::<CompressionBlock>::empty()) =~= Seq::<
                        u8,
                    >::empty());
                },
            }
            out.push(
                if self.encrypted {
                    1
                } else {
                    0
                },
            );
            encode_u32(out, self.compression_block_size);
        }
        Ok(())
    }

    /// Reads a record body at `pos` under layout 1.
    pub fn read_v1(data: &[u8], pos: usize, filename: String) -> (r: Result<
        (Record, usize),
        Error,
    >)
        ensures
            spec_read_result(r, data@, pos as int, 1, filename@),
    {
        read_body(data, pos, 1, filename)
    }

    /// Reads a record body at `pos` under layout 2.
    pub fn read_v2(data: &[u8], pos: usize, filename: String) -> (r: Result<
        (Record, usize),
        Error,
    >)
        ensures
            spec_read_result(r, data@, pos as int, 2, filename@),
    {
        read_body(data, pos, 2, filename)
    }

    /// Reads a record body at `pos` under layout 3.
    pub fn read_v3(data: &[u8], pos: usize, filename: String) -> (r: Result<
        (Record, usize),
        Error,
    >)
        ensures
            spec_read_result(r, data@, pos as int, 3, filename@),
    {
        read_body(data, pos, 3, filename)
    }
}

/// Whether the number of blocks that layout `version` would store fits a
/// 32-bit count.
pub open spec fn spec_block_count_fits(r: RecordView, version: u32) -> bool {
    r.has_block_section(version) && r.compression_blocks.is_some()
        ==> r.compression_blocks.unwrap().len() <= u32::MAX
}

/// How the result of reading a record relates to what is stored: the record
/// and the position behind it where the layout is complete, `Truncated` where
/// the data ends too early.
pub open spec fn spec_read_result(
    r: Result<(Record, usize), Error>,
    data: Seq<u8>,
    pos: int,
    version: u32,
    filename: Seq<char>,
) -> bool {
    match r {
        Ok((record, next)) => spec_read_record(data, pos, version, filename) == Some(
            (record@, next as int),
        ),
        Err(e) => e == Error::Truncated && spec_read_record(data, pos, version, filename).is_none(),
    }
}

/// Appends sixteen bytes for each block.
fn write_blocks(out: &mut Vec<u8>, blocks: &[CompressionBlock])
    ensures
        final(out)@ == old(out)@ + spec_blocks_bytes(blocks@),
{
    let mut i: usize = 0;
    while i < blocks.len()
        invariant
            i <= blocks@.len(),
            out@ == old(out)@ + spec_blocks_bytes(blocks@.take(i as int)),
        decreases blocks@.len() - i,
    {
        encode_u64(out, blocks[i].start_offset);
        encode_u64(out, blocks[i].end_offset);
        proof {
            let next = blocks@.take(i + 1);
            assert(next.drop_last() =~= blocks@.take(i as int));
        }
        i += 1;
    }
    assert(blocks@.take(blocks@.len() as int) =~= blocks@);
}

/// Reads `count` blocks from `pos` on, which must all lie inside `data`.
fn read_blocks(data: &[u8], pos: usize, count: usize) -> (blocks: Vec<CompressionBlock>)
    requires
        pos + 16 * count <= data@.len(),
    ensures
        blocks@ == spec_blocks_at(data@, pos as int, count as int),
{
    let mut blocks: Vec<CompressionBlock> = Vec::new();
    let mut i: usize = 0;
    assert(data@.len() == data.len());
    while i < count
        invariant
            i <= count,
            pos + 16 * count <= data@.len() <= usize::MAX,
            blocks@ == spec_blocks_at(data@, pos as int, i as int),
        decreases count - i,
    {
        let at: usize = pos + 16 * i;
        match (decode_u64(data, at), decode_u64(data, at + 8)) {
            (Ok((start_offset, _)), Ok((end_offset, _))) => {
                blocks.push(CompressionBlock { start_offset, end_offset });
            },
            _ => {
                assert(false);
            },
        }
        i += 1;
    }
    blocks
}

/// Reads the twenty bytes of a digest at `pos`, which must lie inside `data`.
fn read_sha1(data: &[u8], pos: usize) -> (digest: Sha1)
    requires
        pos + 20 <= data@.len(),
    ensures
        digest@ == data@.subrange(pos as int, pos + 20),
{
    let mut digest: Sha1 = [0u8; 20];
    let mut i: usize = 0;
    assert(data@.len() == data.len());
    while i < 20
        invariant
            i <= 20,
            pos + 20 <= data@.len() <= usize::MAX,
            forall|j: int| 0 <= j < i ==> digest@[j] == data@[pos + j],
        decreases 20 - i,
    {
        digest[i] = data[pos + i];
        i += 1;
    }
    digest
}

/// Reads a record body at `pos` under layout `version`, which is 1, 2 or 3.
fn read_body(data: &[u8], pos: usize, version: u32, filename: String) -> (r: Result<
    (Record, usize),
    Error,
>)
    requires
        1 <= version <= 3,
    ensures
        spec_read_result(r, data@, pos as int, version, filename@),
{
    let fixed: usize = if version == 1 {
        56
    } else {
        48
    };
    if data.len() < fixed || pos > data.len() - fixed {
        return Err(Error::Truncated);
    }
    let (offset, _) = decode_u64(data, pos)?;
    let (size, _) = decode_u64(data, pos + 8)?;
    let (uncompressed_size, _) = decode_u64(data, pos + 16)?;
    let (compression_method, _) = decode_u32(data, pos + 24)?;
    let timestamp = if version == 1 {
        let (t, _) = decode_u64(data, pos + 28)?;
        Some(t)
    } else {
        None
    };
    let sha1 = read_sha1(data, pos + fixed - 20);
    let at: usize = pos + fixed;
    if version == 3 && compression_method != COMPR_NONE {
        if data.len() - at < 4 {
            return Err(Error::Truncated);
        }
        let (count, _) = decode_u32(data, at)?;
        let room: usize = data.len() - at - 4;
        if room < 5 || (room - 5) / 16 < count as usize {
            return Err(Error::Truncated);
        }
        let end: usize = at + 4 + 16 * (count as usize);
        let blocks = read_blocks(data, at + 4, count as usize);
        let encrypted = data[end] != 0;
        let (compression_block_size, _) = decode_u32(data, end + 1)?;
        Ok(
            (
                Record {
                    filename,
                    offset,
                    size,
                    uncompressed_size,
                    compression_method,
                    timestamp,
                    sha1,
                    compression_blocks: Some(blocks),
                    encrypted,
                    compression_block_size,
                },
                end + 5,
            ),
        )
    } else {
        Ok(
            (
                Record {
                    filename,
                    offset,
                    size,
                    uncompressed_size,
                    compression_method,
                    timestamp,
                    sha1,
                    compression_blocks: None,
                    encrypted: false,
                    compression_block_size: 0,
                },
                at,
            ),
        )
    }
}

/// Appends `record` under layout `version`. Fails, leaving `out` as it was,
/// with `UnsupportedVersion` where the version is not 1, 2 or 3, and with
/// `Oversize` where layout 3 would have to count more blocks than 32 bits say.
pub fn write_record(out: &mut Vec<u8>, record: &Record, version: u32) -> (r: Result<(), Error>)
    ensures
        match r {
            Ok(()) => 1 <= version <= 3 && spec_block_count_fits(record@, version) && final(out)@
                == old(out)@ + spec_record_bytes(record@, version),
            Err(Error::UnsupportedVersion(v)) => v == version && !(1 <= version <= 3)
                && final(out)@ == old(out)@,
            Err(Error::Oversize) => 1 <= version <= 3 && !spec_block_count_fits(record@, version)
                && final(out)@ == old(out)@,
            Err(_) => false,
        },
{
    if version == 1 {
        record.write_v1(out);
        Ok(())
    } else if version == 2 {
        record.write_v2(out);
        Ok(())
    } else if version == 3 {
        record.write_v3(out)
    } else {
        Err(Error::UnsupportedVersion(version))
    }
}

/// Reads a record body at `pos` under layout `version`, and gives it the name
/// `filename`. Fails with `UnsupportedVersion` where the version is not 1, 2
/// or 3, and with `Truncated` where the data ends before the record does.
pub fn read_record(data: &[u8], pos: usize, version: u32, filename: String) -> (r: Result<
    (Record, usize),
    Error,
>)
    ensures
        match r {
            Ok((record, next)) => 1 <= version <= 3 && spec_read_record(
                data@,
                pos as int,
                version,
                filename@,
            ) == Some((record@, next as int)),
            Err(Error::UnsupportedVersion(v)) => v == version && !(1 <= version <= 3),
            Err(Error::Truncated) => 1 <= version <= 3 && spec_read_record(
                data@,
                pos as int,
                version,
                filename@,
            ).is_none(),
            Err(_) => false,
        },
{
    if version == 1 {
        Record::read_v1(data, pos, filename)
    } else if version == 2 {
        Record::read_v2(data, pos, filename)
    } else if version == 3 {
        Record::read_v3(data, pos, filename)
    } else {
        Err(Error::UnsupportedVersion(version))
    }
}

/// A run of blocks takes sixteen bytes for each, and the bytes of block `i`
/// start at `16 * i`.
pub proof fn lemma_blocks_bytes_layout(blocks: Seq<CompressionBlock>)
    ensures
        spec_blocks_bytes(blocks).len() == 16 * blocks.len(),
        forall|i: int|
            0 <= i < blocks.len() ==> #[trigger] spec_blocks_bytes(blocks).subrange(
                16 * i,
                16 * i + 16,
            ) == spec_block_bytes(blocks[i]),
    decreases blocks.len(),
{
    if blocks.len() > 0 {
        let front = blocks.drop_last();
        lemma_blocks_bytes_layout(front);
        lemma_u64_le_roundtrip(blocks.last().start_offset, Seq::<u8>::empty());
        lemma_u64_le_roundtrip(blocks.last().end_offset, Seq::<u8>::empty());
        let all = spec_blocks_bytes(blocks);
        assert forall|i: int| 0 <= i < blocks.len() implies #[trigger] all.subrange(
            16 * i,
            16 * i + 16,
        ) == spec_block_bytes(blocks[i]) by {
            if i < front.len() {
                assert(all.subrange(16 * i, 16 * i + 16) =~= spec_blocks_bytes(front).subrange(
                    16 * i,
                    16 * i + 16,
                ));
            }
        }
    }
}

/// Stored blocks, whatever surrounds them, read back as they were.
pub proof fn lemma_blocks_roundtrip(head: Seq<u8>, blocks: Seq<CompressionBlock>, tail: Seq<u8>)
    ensures
        spec_blocks_at(
            head + spec_blocks_bytes(blocks) + tail,
            head.len() as int,
            blocks.len() as int,
        ) == blocks,
{
    let data = head + spec_blocks_bytes(blocks) + tail;
    let pos = head.len() as int;
    lemma_blocks_bytes_layout(blocks);
    assert forall|i: int| 0 <= i < blocks.len() implies spec_block_at(data, pos + 16 * i)
        == blocks[i] by {
        let at = pos + 16 * i;
        let chunk = spec_blocks_bytes(blocks).subrange(16 * i, 16 * i + 16);
        lemma_u64_le_roundtrip(blocks[i].start_offset, Seq::<u8>::empty());
        lemma_u64_le_roundtrip(blocks[i].end_offset, Seq::<u8>::empty());
        assert(data.subrange(at, at + 8) =~= chunk.subrange(0, 8));
        assert(data.subrange(at + 8, at + 16) =~= chunk.subrange(8, 16));
        assert(chunk.subrange(0, 8) =~= spec_u64_le(blocks[i].start_offset) + Seq::<u8>::empty());
        assert(chunk.subrange(8, 16) =~= spec_u64_le(blocks[i].end_offset) + Seq::<u8>::empty());
    }
}

/// Length of the stored form of a record.
pub open spec fn spec_record_len(r: RecordView, version: u32) -> int {
    spec_fixed_len(version) + if r.has_block_section(version) {
        9 + 16 * match r.compression_blocks {
            Some(blocks) => blocks.len() as int,
            None => 0,
        }
    } else {
        0
    }
}

/// The stored form of a record has the length that its layout says.
pub proof fn lemma_record_len(r: RecordView, version: u32)
    requires
        r.sha1.len() == 20,
    ensures
        spec_record_bytes(r, version).len() == spec_record_len(r, version),
{
    lemma_le_len();
    if r.has_block_section(version) {
        match r.compression_blocks {
            Some(blocks) => lemma_blocks_bytes_layout(blocks),
            None => lemma_blocks_bytes_layout(Seq::<CompressionBlock>::empty()),
        }
    }
}

/// A record that its layout can hold, written under that layout, reads back
/// as the same record whatever surrounds it, and the read ends right behind
/// it.
pub proof fn lemma_record_roundtrip(head: Seq<u8>, r: RecordView, version: u32, tail: Seq<u8>)
    requires
        1 <= version <= 3,
        r.fits(version),
    ensures
        spec_read_record(
            head + spec_record_bytes(r, version) + tail,
            head.len() as int,
            version,
            r.filename,
        ) == Some((r, head.len() + spec_record_len(r, version))),
        spec_record_bytes(r, version).len() == spec_record_len(r, version),
{
    let body = spec_record_bytes(r, version);
    let data = head + body + tail;
    let pos = head.len() as int;
    let fixed = spec_fixed_len(version);
    let e = Seq::<u8>::empty();
    lemma_record_len(r, version);
    lemma_u64_le_roundtrip(r.offset, e);
    lemma_u64_le_roundtrip(r.size, e);
    lemma_u64_le_roundtrip(r.uncompressed_size, e);
    lemma_u32_le_roundtrip(r.compression_method, e);
    assert(data.subrange(pos, pos + 8) =~= spec_u64_le(r.offset) + e);
    assert(data.subrange(pos + 8, pos + 16) =~= spec_u64_le(r.size) + e);
    assert(data.subrange(pos + 16, pos + 24) =~= spec_u64_le(r.uncompressed_size) + e);
    assert(data.subrange(pos + 24, pos + 28) =~= spec_u32_le(r.compression_method) + e);
    if version == 1 {
        let t = r.timestamp.unwrap();
        lemma_u64_le_roundtrip(t, e);
        assert(data.subrange(pos + 28, pos + 36) =~= spec_u64_le(t) + e);
    }
    assert(data.subrange(pos + fixed - 20, pos + fixed) =~= r.sha1);
    if r.has_block_section(version) {
        let blocks = r.compression_blocks.unwrap();
        let count = blocks.len() as u32;
        let at = pos + fixed;
        let end = at + 4 + 16 * blocks.len();
        lemma_blocks_bytes_layout(blocks);
        lemma_u32_le_roundtrip(count, e);
        lemma_u32_le_roundtrip(r.compression_block_size, e);
        assert(data.subrange(at, at + 4) =~= spec_u32_le(count) + e);
        assert(data.subrange(end + 1, end + 5) =~= spec_u32_le(r.compression_block_size) + e);
        let before = head + spec_record_head(r, version) + r.sha1 + spec_u32_le(count);
        let after = seq![
            if r.encrypted {
                1u8
            } else {
                0u8
            },
        ] + spec_u32_le(r.compression_block_size) + tail;
        assert(data =~= before + spec_blocks_bytes(blocks) + after);
        lemma_blocks_roundtrip(before, blocks, after);
    }
}

} // verus!
