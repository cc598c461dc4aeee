//! The builder: from the files' bytes to the bytes of a package.
//!
//! A package is the payloads one after the other, then the index, then the
//! footer. Each payload is the file as it is, or its zlib form: in version 3
//! one stream for each block, in versions 1 and 2, whose records have no
//! place for blocks, one stream for the whole file.

use vstd::prelude::*;
use vstd::slice::slice_to_vec;
use crate::error::Error;
use crate::digest::{Sha1, spec_sha1, spec_hashable, sha1_of};
use crate::text::Encoding;
use crate::zlib::{MAX_LEVEL, spec_deflated, deflate};
use crate::record::{Record, RecordView, CompressionBlock, COMPR_NONE, COMPR_ZLIB, spec_views};
use crate::blocks::{spec_split, compress_blocks};
use crate::index::{
    spec_version_supported,
    spec_index_bytes,
    spec_index_writable,
    spec_index_write_error,
    build_index,
};
use crate::pak::{
    Pak,
    PakView,
    Footer,
    FooterView,
    PAK_MAGIC,
    spec_footer_bytes,
    spec_mount_point,
    write_footer,
};
use crate::paths::{spec_pak_path, make_pak_path};
use crate::check::spec_payload;
use crate::unpack::{spec_extract, spec_inflate_payload};

verus! {

/// In a `PackPath`: take the compression method from the options.
pub const COMPR_DEFAULT: u32 = 0xFFFF_FFFF;

/// The block size that the default options name.
pub const DEFAULT_BLOCK_SIZE: u32 = 65536;

/// The fastest compression level.
pub const COMPR_LEVEL_FAST: u32 = 1;

/// The compression level that the default options name.
pub const COMPR_LEVEL_DEFAULT: u32 = 6;

/// The compression level that gives the smallest output.
pub const COMPR_LEVEL_BEST: u32 = 9;

/// One file to pack: its archive path, and how to compress it where that
/// differs from the options.
#[derive(Clone, Copy, Debug, PartialEq, Eq)]
pub struct PackPath<'a> {
    /// `COMPR_NONE`, `COMPR_ZLIB`, or `COMPR_DEFAULT` for the options' method.
    pub compression_method: u32,
    /// The nominal block size, or zero for the options' block size.
    pub compression_block_size: u32,
    /// The archive path.
    pub filename: &'a str,
}

impl<'a> PackPath<'a> {
    /// A file that is packed as the options say.
    pub fn new(filename: &'a str) -> (p: Self)
        ensures
            p.compression_method == COMPR_DEFAULT,
            p.compression_block_size == 0,
            p.filename == filename,
    {
        Self { compression_method: COMPR_DEFAULT, compression_block_size: 0, filename }
    }

    /// A file with its own compression method and block size. The method must
    /// be `COMPR_NONE`, `COMPR_ZLIB` or `COMPR_DEFAULT`; any other is refused
    /// with `UnsupportedCompressionMethod`.
    pub fn compressed(filename: &'a str, compression_method: u32, compression_block_size: u32) -> (r:
        Result<Self, Error>)
        ensures
            match r {
                Ok(p) => spec_method_selectable(compression_method) && p.compression_method
                    == compression_method && p.compression_block_size == compression_block_size
                    && p.filename == filename,
                Err(e) => !spec_method_selectable(compression_method) && e
                    == Error::UnsupportedCompressionMethod(compression_method),
            },
    {
        if compression_method != COMPR_NONE && compression_method != COMPR_ZLIB
            && compression_method != COMPR_DEFAULT {
            return Err(Error::UnsupportedCompressionMethod(compression_method));
        }
        Ok(Self { compression_method, compression_block_size, filename })
    }
}

/// Whether a file may ask for `method`.
pub open spec fn spec_method_selectable(method: u32) -> bool {
    method == COMPR_NONE || method == COMPR_ZLIB || method == COMPR_DEFAULT
}

/// What holds for the whole package.
#[derive(Clone, Copy, Debug, PartialEq, Eq)]
pub struct PackOptions<'a> {
    /// The format version: 1, 2 or 3.
    pub version: u32,
    /// The mount point; none is stored as the empty string.
    pub mount_point: Option<&'a str>,
    /// The method of files that name none: `COMPR_NONE` or `COMPR_ZLIB`.
    pub compression_method: u32,
    /// The nominal block size of files that name none; not zero.
    pub compression_block_size: u32,
    /// The zlib level, from 1 to 9.
    pub compression_level: u32,
    /// The text encoding of the mount point and of the file names.
    pub encoding: Encoding,
}

impl<'a> Default for PackOptions<'a> {
    fn default() -> (o: Self)
        ensures
            o.version == 3,
            o.mount_point.is_none(),
            o.compression_method == COMPR_NONE,
            o.compression_block_size == DEFAULT_BLOCK_SIZE,
            o.compression_level == COMPR_LEVEL_DEFAULT,
            o.encoding == Encoding::UTF8,
    {
        Self {
            version: 3,
            mount_point: None,
            compression_method: COMPR_NONE,
            compression_block_size: DEFAULT_BLOCK_SIZE,
            compression_level: COMPR_LEVEL_DEFAULT,
            encoding: Encoding::UTF8,
        }
    }
}

/// One file to pack, with its bytes.
#[derive(Clone, Copy, Debug, PartialEq, Eq)]
pub struct PackInput<'a> {
    /// The archive path and the compression wishes.
    pub path: PackPath<'a>,
    /// The bytes of the file.
    pub data: &'a [u8],
    /// When the file was created, in seconds since the epoch. Version 1 needs
    /// it; versions 2 and 3 do not store it.
    pub created: Option<u64>,
}

/// A file to pack as a mathematical value.
pub struct SourceView {
    pub filename: Seq<char>,
    pub compression_method: u32,
    pub compression_block_size: u32,
    pub data: Seq<u8>,
    pub created: Option<u64>,
}

impl<'a> View for PackInput<'a> {
    type V = SourceView;

    open spec fn view(&self) -> SourceView {
        SourceView {
            filename: self.path.filename@,
            compression_method: self.path.compression_method,
            compression_block_size: self.path.compression_block_size,
            data: self.data@,
            created: self.created,
        }
    }
}

/// The views of a sequence of inputs, in order.
pub open spec fn spec_sources(inputs: Seq<PackInput>) -> Seq<SourceView> {
    Seq::new(inputs.len(), |i: int| inputs[i]@)
}

/// The options as a mathematical value; the mount point is the text that is
/// stored.
pub struct PlanView {
    pub version: u32,
    pub mount_point: Seq<char>,
    pub compression_method: u32,
    pub compression_block_size: u32,
    pub compression_level: u32,
    pub encoding: Encoding,
}

impl<'a> View for PackOptions<'a> {
    type V = PlanView;

    open spec fn view(&self) -> PlanView {
        PlanView {
            version: self.version,
            mount_point: match self.mount_point {
                Some(s) => s@,
                None => Seq::<char>::empty(),
            },
            compression_method: self.compression_method,
            compression_block_size: self.compression_block_size,
            compression_level: self.compression_level,
            encoding: self.encoding,
        }
    }
}

/// What is wrong with the options, if anything. In order: the version is not
/// 1, 2 or 3; the method is neither none nor zlib; the level is not between 1
/// and 9, or the block size is zero.
pub open spec fn spec_plan_error(o: PlanView) -> Option<Error> {
    if !spec_version_supported(o.version) {
        Some(Error::UnsupportedVersion(o.version))
    } else if o.compression_method != COMPR_NONE && o.compression_method != COMPR_ZLIB {
        Some(Error::UnsupportedCompressionMethod(o.compression_method))
    } else if o.compression_level < 1 || o.compression_level > MAX_LEVEL
        || o.compression_block_size == 0 {
        Some(Error::IllegalArgument)
    } else {
        None
    }
}

/// The method under which a file is packed: its own, or the options'.
pub open spec fn spec_effective_method(s: SourceView, o: PlanView) -> u32 {
    if s.compression_method == COMPR_DEFAULT {
        o.compression_method
    } else {
        s.compression_method
    }
}

/// The block size under which a file is packed: its own, or the options', and
/// no more than the length of the file.
pub open spec fn spec_effective_block_size(s: SourceView, o: PlanView) -> u32 {
    let nominal = if s.compression_block_size == 0 {
        o.compression_block_size
    } else {
        s.compression_block_size
    };
    if nominal > s.data.len() {
        s.data.len() as u32
    } else {
        nominal
    }
}

/// The payload of a zlib file and its blocks, or nothing where the encoder
/// fails. Version 3 splits the file into blocks; versions 1 and 2 store one
/// stream and no blocks.
pub open spec fn spec_stored_zlib(s: SourceView, o: PlanView) -> Option<
    (Seq<u8>, Option<Seq<CompressionBlock>>),
> {
    if o.version == 3 {
        match spec_split(s.data, spec_effective_block_size(s, o) as int, o.compression_level) {
            Some((payload, blocks)) => Some((payload, Some(blocks))),
            None => None,
        }
    } else {
        match spec_deflated(s.data, o.compression_level) {
            Some(payload) => Some((payload, None)),
            None => None,
        }
    }
}

/// The record of a file whose payload of `size` bytes, with digest `sha1`
/// and with `blocks`, starts at `offset`. The name is brought into its stored
/// form; the timestamp is kept in version 1 only; the block size is kept
/// only with blocks.
pub open spec fn spec_record_of(
    s: SourceView,
    o: PlanView,
    offset: u64,
    size: u64,
    sha1: Seq<u8>,
    blocks: Option<Seq<CompressionBlock>>,
) -> RecordView {
    RecordView {
        filename: spec_pak_path(s.filename),
        offset,
        size,
        uncompressed_size: s.data.len() as u64,
        compression_method: spec_effective_method(s, o),
        timestamp: if o.version == 1 {
            s.created
        } else {
            None
        },
        sha1,
        compression_blocks: blocks,
        encrypted: false,
        compression_block_size: if blocks.is_some() {
            spec_effective_block_size(s, o)
        } else {
            0
        },
    }
}

/// What packing one file at `offset` gives: its record and its payload. In
/// order: a method that is neither none nor zlib is
/// `UnsupportedCompressionMethod`; a missing creation time in version 1 is
/// `Io`; a failing encoder is `Io`; a payload too long to hash is `Oversize`.
pub open spec fn spec_pack_entry(s: SourceView, o: PlanView, offset: int) -> Result<
    (RecordView, Seq<u8>),
    Error,
> {
    let method = spec_effective_method(s, o);
    if method != COMPR_NONE && method != COMPR_ZLIB {
        Err(Error::UnsupportedCompressionMethod(method))
    } else if o.version == 1 && s.created.is_none() {
        Err(Error::Io)
    } else {
        let stored = if method == COMPR_NONE {
            Some((s.data, None::<Seq<CompressionBlock>>))
        } else {
            spec_stored_zlib(s, o)
        };
        match stored {
            None => Err(Error::Io),
            Some((payload, blocks)) => if !spec_hashable(payload) {
                Err(Error::Oversize)
            } else {
                Ok((spec_record_of(s, o, offset as u64, payload.len() as u64, spec_sha1(payload), blocks), payload))
            },
        }
    }
}

/// What packing files one after the other from `offset` on gives: their
/// records and the data region, or the error of the first file that fails.
pub open spec fn spec_pack_entries(sources: Seq<SourceView>, o: PlanView, offset: int) -> Result<
    (Seq<RecordView>, Seq<u8>),
    Error,
>
    decreases sources.len(),
{
    if sources.len() == 0 {
        Ok((Seq::<RecordView>::empty(), Seq::<u8>::empty()))
    } else {
        match spec_pack_entry(sources.first(), o, offset) {
            Err(e) => Err(e),
            Ok((r, payload)) => match spec_pack_entries(
                sources.drop_first(),
                o,
                offset + payload.len(),
            ) {
                Err(e) => Err(e),
                Ok((records, region)) => Ok((seq![r] + records, payload + region)),
            },
        }
    }
}

/// The footer of a package whose index starts at `index_offset`.
pub open spec fn spec_footer_of(index_offset: u64, index: Seq<u8>, version: u32) -> FooterView {
    FooterView {
        magic: PAK_MAGIC,
        version,
        index_offset,
        index_size: index.len() as u64,
        index_sha1: spec_sha1(index),
    }
}

/// What follows the data region: the index, then the footer.
pub open spec fn spec_trailer(index_offset: u64, index: Seq<u8>, version: u32) -> Seq<u8> {
    index + spec_footer_bytes(spec_footer_of(index_offset, index, version))
}

/// The bytes of a package: data region, index, footer.
pub open spec fn spec_package(region: Seq<u8>, index: Seq<u8>, version: u32) -> Seq<u8> {
    region + spec_trailer(region.len() as u64, index, version)
}

/// The package value that goes with a freshly built package.
pub open spec fn spec_built_pak(
    records: Seq<RecordView>,
    index_offset: u64,
    index: Seq<u8>,
    o: PlanView,
) -> PakView {
    PakView {
        version: o.version,
        index_offset,
        index_size: index.len() as u64,
        index_sha1: spec_sha1(index),
        index_digest: spec_sha1(index),
        mount_point: spec_mount_point(o.mount_point),
        records,
    }
}

/// Whether `trailer` and `pak` are what closing a package with `records`
/// gives, where the index starts at `index_offset`: the options are in order,
/// the index can be written and hashed, and the trailer is the index and the
/// footer.
pub open spec fn spec_closed(
    records: Seq<RecordView>,
    index_offset: u64,
    o: PlanView,
    trailer: Seq<u8>,
    pak: PakView,
) -> bool {
    let index = spec_index_bytes(o.mount_point, records, o.version, o.encoding);
    &&& spec_plan_error(o).is_none()
    &&& spec_index_writable(o.mount_point, records, o.version, o.encoding)
    &&& spec_hashable(index)
    &&& trailer == spec_trailer(index_offset, index, o.version)
    &&& pak == spec_built_pak(records, index_offset, index, o)
}

/// Whether closing a package with `records` fails with `e`. In order: the
/// error of the options; the error of writing the index; `Oversize` for an
/// index too long to hash.
pub open spec fn spec_close_error(records: Seq<RecordView>, o: PlanView, e: Error) -> bool {
    match spec_plan_error(o) {
        Some(wrong) => e == wrong,
        None => if spec_index_writable(o.mount_point, records, o.version, o.encoding) {
            e == Error::Oversize && !spec_hashable(
                spec_index_bytes(o.mount_point, records, o.version, o.encoding),
            )
        } else {
            spec_index_write_error(o.mount_point, records, o.version, o.encoding, e)
        },
    }
}

/// Whether `bytes` and `pak` are what packing `sources` under `o` gives: the
/// options are in order, every file packs, the index can be written and
/// hashed, and the bytes are the data region, the index and the footer.
pub open spec fn spec_packed(sources: Seq<SourceView>, o: PlanView, bytes: Seq<u8>, pak: PakView)
    -> bool {
    &&& spec_plan_error(o).is_none()
    &&& match spec_pack_entries(sources, o, 0) {
        Err(_) => false,
        Ok((records, region)) => {
            let index = spec_index_bytes(o.mount_point, records, o.version, o.encoding);
            &&& spec_index_writable(o.mount_point, records, o.version, o.encoding)
            &&& spec_hashable(index)
            &&& bytes == spec_package(region, index, o.version)
            &&& pak == spec_built_pak(records, region.len() as u64, index, o)
        },
    }
}

/// Whether packing `sources` under `o` fails with `e`. In order: the error of
/// the options; the error of the first file that fails; the error of closing
/// the package.
pub open spec fn spec_pack_error(sources: Seq<SourceView>, o: PlanView, e: Error) -> bool {
    match spec_plan_error(o) {
        Some(wrong) => e == wrong,
        None => match spec_pack_entries(sources, o, 0) {
            Err(failed) => e == failed,
            Ok((records, region)) => spec_close_error(records, o, e),
        },
    }
}

/// Whether a record of a package is sound for the file it was made from: it
/// is well formed, the payload lies inside the data, its digest is the
/// recorded one, and extracting it gives the file.
pub open spec fn spec_entry_sound(r: RecordView, data: Seq<u8>, file: Seq<u8>) -> bool {
    &&& r.well_formed()
    &&& match spec_payload(r, data) {
        None => false,
        Some(payload) => spec_hashable(payload) && spec_sha1(payload) == r.sha1,
    }
    &&& spec_extract(r, data) == Ok::<Seq<u8>, Error>(file)
}

/// Whether every record of a package is sound for its file.
pub open spec fn spec_all_sound(records: Seq<RecordView>, data: Seq<u8>, sources: Seq<SourceView>)
    -> bool {
    &&& records.len() == sources.len()
    &&& forall|i: int|
        0 <= i < records.len() ==> spec_entry_sound(#[trigger] records[i], data, sources[i].data)
}

/// A record that is sound in some data is sound in any data that the first
/// is the start of.
pub proof fn lemma_sound_extends(r: RecordView, data: Seq<u8>, file: Seq<u8>, more: Seq<u8>)
    requires
        spec_entry_sound(r, data, file),
    ensures
        spec_entry_sound(r, data + more, file),
{
    let longer = data + more;
    assert(longer.subrange(r.offset as int, r.offset + r.size) =~= data.subrange(
        r.offset as int,
        r.offset + r.size,
    ));
}

/// Checks the options: the version, the method, the level and the block
/// size.
pub fn check_options(options: &PackOptions) -> (r: Result<(), Error>)
    ensures
        match r {
            Ok(()) => spec_plan_error(options@).is_none(),
            Err(e) => spec_plan_error(options@) == Some(e),
        },
{
    if options.version < 1 || options.version > 3 {
        return Err(Error::UnsupportedVersion(options.version));
    }
    if options.compression_method != COMPR_NONE && options.compression_method != COMPR_ZLIB {
        return Err(Error::UnsupportedCompressionMethod(options.compression_method));
    }
    if options.compression_level < 1 || options.compression_level > MAX_LEVEL
        || options.compression_block_size == 0 {
        return Err(Error::IllegalArgument);
    }
    Ok(())
}

/// The method under which `input` is packed: its own, or the options'.
pub fn effective_method(input: &PackInput, options: &PackOptions) -> (method: u32)
    ensures
        method == spec_effective_method(input@, options@),
{
    if input.path.compression_method == COMPR_DEFAULT {
        options.compression_method
    } else {
        input.path.compression_method
    }
}

/// The block size under which `input` is packed: its own, or the options',
/// and no more than the length of the file.
pub fn effective_block_size(input: &PackInput, options: &PackOptions) -> (block_size: u32)
    ensures
        block_size == spec_effective_block_size(input@, options@),
{
    let nominal = if input.path.compression_block_size == 0 {
        options.compression_block_size
    } else {
        input.path.compression_block_size
    };
    if nominal as usize > input.data.len() {
        input.data.len() as u32
    } else {
        nominal
    }
}

/// Fills in the record of `input` once its payload is made: `size` bytes
/// with digest `sha1` and with `blocks`, starting at `offset`.
pub fn make_record(
    input: &PackInput,
    options: &PackOptions,
    offset: u64,
    size: u64,
    sha1: Sha1,
    blocks: Option<Vec<CompressionBlock>>,
) -> (record: Record)
    ensures
        record@ == spec_record_of(
            input@,
            options@,
            offset,
            size,
            sha1@,
            match blocks {
                Some(b) => Some(b@),
                None => None,
            },
        ),
{
    let compression_block_size: u32 = if blocks.is_some() {
        effective_block_size(input, options)
    } else {
        0
    };
    Record {
        filename: make_pak_path(input.path.filename),
        offset,
        size,
        uncompressed_size: input.data.len() as u64,
        compression_method: effective_method(input, options),
        timestamp: if options.version == 1 {
            input.created
        } else {
            None
        },
        sha1,
        compression_blocks: blocks,
        encrypted: false,
        compression_block_size,
    }
}

/// Whether `record` and `payload` are what packing the file `s` at `offset`
/// gives, and the record is sound for the payload: well formed, and, for a
/// zlib payload, one that inflates to the file.
pub open spec fn spec_entry_packed(
    s: SourceView,
    o: PlanView,
    offset: u64,
    record: RecordView,
    payload: Seq<u8>,
) -> bool {
    &&& spec_plan_error(o).is_none()
    &&& spec_pack_entry(s, o, offset as int) == Ok::<(RecordView, Seq<u8>), Error>(
        (record, payload),
    )
    &&& record.well_formed()
    &&& (record.compression_method == COMPR_ZLIB ==> spec_inflate_payload(record, payload)
        == Some(s.data))
}

/// Whether packing the file `s` fails with `e`: the error of the options,
/// else the error of the file.
pub open spec fn spec_entry_error(s: SourceView, o: PlanView, offset: u64, e: Error) -> bool {
    match spec_plan_error(o) {
        Some(wrong) => e == wrong,
        None => spec_pack_entry(s, o, offset as int) == Err::<(RecordView, Seq<u8>), Error>(e),
    }
}

/// Packs one file whose payload will start at `offset`: settles the method
/// and the block size, makes the payload, hashes it, and fills in the record.
/// For a writer that puts the payloads out one by one.
pub fn pack_entry(input: &PackInput, options: &PackOptions, offset: u64) -> (r: Result<
    (Record, Vec<u8>),
    Error,
>)
    ensures
        match r {
            Ok((record, payload)) => spec_entry_packed(
                input@,
                options@,
                offset,
                record@,
                payload@,
            ),
            Err(e) => spec_entry_error(input@, options@, offset, e),
        },
{
    check_options(options)?;
    let method = effective_method(input, options);
    if method != COMPR_NONE && method != COMPR_ZLIB {
        return Err(Error::UnsupportedCompressionMethod(method));
    }
    if options.version == 1 && input.created.is_none() {
        return Err(Error::Io);
    }
    let (payload, blocks) = if method == COMPR_NONE {
        (slice_to_vec(input.data), None)
    } else if options.version == 3 {
        let block_size = effective_block_size(input, options);
        match compress_blocks(input.data, block_size, options.compression_level) {
            Ok((payload, blocks)) => (payload, Some(blocks)),
            Err(_) => {
                return Err(Error::Io);
            },
        }
    } else {
        match deflate(input.data, options.compression_level) {
            Some(payload) => (payload, None),
            None => {
                return Err(Error::Io);
            },
        }
    };
    let sha1 = sha1_of(payload.as_slice())?;
    let record = make_record(input, options, offset, payload.len() as u64, sha1, blocks);
    Ok((record, payload))
}

/// Builds a package in memory: the payloads of the files in order, the index
/// with the mount point and one record for each file, and the footer. Gives
/// the bytes and the package value that opening them gives. Nothing is built
/// where the options are wrong, a file cannot be packed, or the index cannot
/// be written. Every record of what is built is sound: its payload carries
/// the recorded digest and extracts to the file it was made from.
pub fn pack(inputs: &[PackInput], options: &PackOptions) -> (r: Result<(Vec<u8>, Pak), Error>)
    ensures
        match r {
            Ok((bytes, pak)) => spec_packed(spec_sources(inputs@), options@, bytes@, pak@)
                && spec_all_sound(pak@.records, bytes@, spec_sources(inputs@))
                && pak@.index_sha1.len() == 20,
            Err(e) => spec_pack_error(spec_sources(inputs@), options@, e),
        },
{
    check_options(options)?;
    let ghost sources = spec_sources(inputs@);
    let ghost whole = spec_pack_entries(sources, options@, 0);
    let mut out: Vec<u8> = Vec::new();
    let mut records: Vec<Record> = Vec::new();
    let mut i: usize = 0;
    proof {
        assert(sources.skip(0) =~= sources);
    }
    while i < inputs.len()
        invariant
            i <= inputs@.len(),
            sources == spec_sources(inputs@),
            spec_plan_error(options@).is_none(),
            whole == spec_pack_entries(sources, options@, 0),
            records@.len() == i,
            match spec_pack_entries(sources.skip(i as int), options@, out@.len() as int) {
                Ok((rest, region)) => whole == Ok::<(Seq<RecordView>, Seq<u8>), Error>(
                    (spec_views(records@) + rest, out@ + region),
                ),
                Err(e) => whole == Err::<(Seq<RecordView>, Seq<u8>), Error>(e),
            },
            forall|j: int|
                0 <= j < i ==> spec_entry_sound(
                    #[trigger] spec_views(records@)[j],
                    out@,
                    sources[j].data,
                ),
        decreases inputs@.len() - i,
    {
        let ghost before = spec_views(records@);
        let ghost region = out@;
        proof {
            assert(sources.skip(i as int).drop_first() =~= sources.skip(i + 1));
        }
        let offset: u64 = out.len() as u64;
        let (record, payload) = pack_entry(&inputs[i], options, offset)?;
        out.extend_from_slice(payload.as_slice());
        proof {
            let r = record@;
            match spec_pack_entries(sources.skip(i + 1), options@, out@.len() as int) {
                Ok((rest, tail)) => {
                    assert(before + (seq![r] + rest) =~= before.push(r) + rest);
                    assert(region + (payload@ + tail) =~= out@ + tail);
                },
                Err(_) => {},
            }
            assert(out@ =~= region + payload@);
            assert forall|j: int| 0 <= j < i implies spec_entry_sound(
                #[trigger] before[j],
                out@,
                sources[j].data,
            ) by {
                lemma_sound_extends(before[j], region, sources[j].data, payload@);
            }
            assert(out@.subrange(r.offset as int, r.offset + r.size) =~= payload@);
            let file = inputs@[i as int].data;
            assert(file@.len() == file.len());
        }
        records.push(record);
        proof {
            assert(spec_views(records@) =~= before.push(record@));
        }
        i += 1;
    }
    let ghost region = out@;
    let (trailer, pak) = close_package(records, out.len() as u64, options)?;
    out.extend_from_slice(trailer.as_slice());
    proof {
        assert(out@ =~= region + trailer@);
        assert forall|j: int| 0 <= j < pak@.records.len() implies spec_entry_sound(
            #[trigger] pak@.records[j],
            out@,
            sources[j].data,
        ) by {
            lemma_sound_extends(pak@.records[j], region, sources[j].data, trailer@);
        }
    }
    Ok((out, pak))
}

/// Closes a package whose data region is written: makes the index of
/// `records` and the footer, for an index that starts at `index_offset`.
/// Gives the bytes that follow the data region, and the package value.
pub fn close_package(records: Vec<Record>, index_offset: u64, options: &PackOptions) -> (r: Result<
    (Vec<u8>, Pak),
    Error,
>)
    ensures
        match r {
            Ok((trailer, pak)) => spec_closed(
                spec_views(records@),
                index_offset,
                options@,
                trailer@,
                pak@,
            ) && pak@.index_sha1.len() == 20,
            Err(e) => spec_close_error(spec_views(records@), options@, e),
        },
{
    check_options(options)?;
    let unnamed = String::new();
    let mount_point: &str = match options.mount_point {
        Some(s) => s,
        None => unnamed.as_str(),
    };
    let mut trailer = build_index(
        mount_point,
        records.as_slice(),
        options.version,
        options.encoding,
    )?;
    let index_sha1 = sha1_of(trailer.as_slice())?;
    let footer = Footer {
        magic: PAK_MAGIC,
        version: options.version,
        index_offset,
        index_size: trailer.len() as u64,
        index_sha1,
    };
    write_footer(&mut trailer, &footer);
    let stored_mount_point = match options.mount_point {
        Some(s) => if s.is_empty() {
            None
        } else {
            Some(s.to_owned())
        },
        None => None,
    };
    let pak = Pak {
        version: options.version,
        index_offset,
        index_size: footer.index_size,
        index_sha1,
        index_digest: index_sha1,
        mount_point: stored_mount_point,
        records,
    };
    Ok((trailer, pak))
}

} // verus!
