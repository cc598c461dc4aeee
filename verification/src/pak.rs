//! The container: a data region, the index, and a footer of 44 bytes that
//! says where the index is.
//!
//! Footer layout, all numbers little-endian: magic (32 bits), version (32),
//! index offset (64), index size (64), SHA-1 of the index (20 bytes).

use vstd::prelude::*;
use vstd::slice::slice_subrange;
use crate::error::Error;
use crate::digest::{Sha1, spec_sha1, spec_hashable, sha1_of};
use crate::text::Encoding;
use crate::codec::{
    spec_u32_le,
    spec_u64_le,
    spec_u32_from_le,
    spec_u64_from_le,
    encode_u32,
    encode_u64,
    decode_u32,
    decode_u64,
    lemma_u32_le_roundtrip,
    lemma_u64_le_roundtrip,
    lemma_le_len,
};
use crate::record::{Record, RecordView, spec_views};
use crate::index::{spec_version_supported, spec_read_index, read_index};

verus! {

/// The number that every footer starts with.
pub const PAK_MAGIC: u32 = 0x5A6F12E1;

/// Length of the footer.
pub const FOOTER_SIZE: usize = 44;

/// How to open a package.
#[derive(Clone, Copy, Debug, PartialEq, Eq)]
pub struct Options {
    /// Accept a footer whose magic is wrong.
    pub ignore_magic: bool,
    /// The text encoding of the mount point and of the file names.
    pub encoding: Encoding,
    /// Read the index under this version, whatever the footer says.
    pub force_version: Option<u32>,
}

impl Default for Options {
    fn default() -> (o: Options)
        ensures
            !o.ignore_magic,
            o.encoding == Encoding::UTF8,
            o.force_version.is_none(),
    {
        Options { ignore_magic: false, encoding: Encoding::UTF8, force_version: None }
    }
}

/// The trailing 44 bytes of a package, decoded.
#[derive(Clone, Copy, Debug, PartialEq, Eq)]
pub struct Footer {
    /// `PAK_MAGIC` in a package that is in order.
    pub magic: u32,
    /// The format version of the index.
    pub version: u32,
    /// Where the index starts.
    pub index_offset: u64,
    /// Length of the index.
    pub index_size: u64,
    /// The recorded digest of the index.
    pub index_sha1: Sha1,
}

/// A footer as a mathematical value.
pub struct FooterView {
    pub magic: u32,
    pub version: u32,
    pub index_offset: u64,
    pub index_size: u64,
    pub index_sha1: Seq<u8>,
}

impl View for Footer {
    type V = FooterView;

    open spec fn view(&self) -> FooterView {
        FooterView {
            magic: self.magic,
            version: self.version,
            index_offset: self.index_offset,
            index_size: self.index_size,
            index_sha1: self.index_sha1@,
        }
    }
}

/// A parsed or freshly built package: what the footer and the index say.
#[derive(Clone, Debug, PartialEq, Eq)]
pub struct Pak {
    /// The version under which the index was read or written.
    pub version: u32,
    /// Where the index starts.
    pub index_offset: u64,
    /// Length of the index.
    pub index_size: u64,
    /// The digest of the index that the footer records.
    pub index_sha1: Sha1,
    /// The digest of the index bytes as they are.
    pub index_digest: Sha1,
    /// The mount point, where the index holds a non-empty one.
    pub mount_point: Option<String>,
    /// The records, in index order.
    pub records: Vec<Record>,
}

/// A package as a mathematical value.
pub struct PakView {
    pub version: u32,
    pub index_offset: u64,
    pub index_size: u64,
    pub index_sha1: Seq<u8>,
    pub index_digest: Seq<u8>,
    pub mount_point: Option<Seq<char>>,
    pub records: Seq<RecordView>,
}

impl View for Pak {
    type V = PakView;

    open spec fn view(&self) -> PakView {
        PakView {
            version: self.version,
            index_offset: self.index_offset,
            index_size: self.index_size,
            index_sha1: self.index_sha1@,
            index_digest: self.index_digest@,
            mount_point: match self.mount_point {
                Some(s) => Some(s@),
                None => None,
            },
            records: spec_views(self.records@),
        }
    }
}

/// The 44 bytes of a footer.
pub open spec fn spec_footer_bytes(f: FooterView) -> Seq<u8> {
    spec_u32_le(f.magic) + spec_u32_le(f.version) + spec_u64_le(f.index_offset) + spec_u64_le(
        f.index_size,
    ) + f.index_sha1
}

/// The footer that `data` ends with, or nothing where `data` is shorter than
/// a footer.
pub open spec fn spec_read_footer(data: Seq<u8>) -> Option<FooterView> {
    if data.len() < 44 {
        None
    } else {
        let at = data.len() - 44;
        Some(
            FooterView {
                magic: spec_u32_from_le(data.subrange(at, at + 4)),
                version: spec_u32_from_le(data.subrange(at + 4, at + 8)),
                index_offset: spec_u64_from_le(data.subrange(at + 8, at + 16)),
                index_size: spec_u64_from_le(data.subrange(at + 16, at + 24)),
                index_sha1: data.subrange(at + 24, at + 44),
            },
        )
    }
}

/// The version under which the index is read: the forced one, else the
/// footer's.
pub open spec fn spec_effective_version(footer_version: u32, force_version: Option<u32>) -> u32 {
    match force_version {
        Some(v) => v,
        None => footer_version,
    }
}

/// Whether the index that the footer describes ends exactly where the
/// footer starts in a package of `length` bytes.
pub open spec fn spec_index_located(f: FooterView, length: int) -> bool {
    length >= 44 && f.index_offset + f.index_size == length - 44
}

/// The index region that the footer points at: it must end exactly where the
/// footer starts.
pub open spec fn spec_index_region(data: Seq<u8>, f: FooterView) -> Option<Seq<u8>> {
    if spec_index_located(f, data.len() as int) {
        Some(data.subrange(f.index_offset as int, f.index_offset + f.index_size))
    } else {
        None
    }
}

/// What is wrong with a footer, if anything: a magic that is not the
/// package magic, unless it is ignored, is `BadMagic`; a version (forced, else
/// the footer's) outside 1 to 3 is `UnsupportedVersion`.
pub open spec fn spec_footer_error(f: FooterView, options: Options) -> Option<Error> {
    let version = spec_effective_version(f.version, options.force_version);
    if !options.ignore_magic && f.magic != PAK_MAGIC {
        Some(Error::BadMagic(f.magic))
    } else if !spec_version_supported(version) {
        Some(Error::UnsupportedVersion(version))
    } else {
        None
    }
}

/// The mount point as the package value holds it: absent where the stored
/// string is empty.
pub open spec fn spec_mount_point(stored: Seq<char>) -> Option<Seq<char>> {
    if stored.len() == 0 {
        None
    } else {
        Some(stored)
    }
}

/// What a footer and the index it describes make. In order: the error of
/// the footer; an index that is not as long as the footer says is
/// `CorruptIndex`; one too long to hash is `Oversize`; then the index is read
/// under the settled version, and its errors are passed on.
pub open spec fn spec_open_index(f: FooterView, index: Seq<u8>, options: Options) -> Result<
    PakView,
    Error,
> {
    let version = spec_effective_version(f.version, options.force_version);
    match spec_footer_error(f, options) {
        Some(e) => Err(e),
        None => if index.len() != f.index_size {
            Err(Error::CorruptIndex)
        } else if !spec_hashable(index) {
            Err(Error::Oversize)
        } else {
            match spec_read_index(index, version, options.encoding) {
                Err(e) => Err(e),
                Ok((mount_point, records)) => Ok(
                    PakView {
                        version,
                        index_offset: f.index_offset,
                        index_size: f.index_size,
                        index_sha1: f.index_sha1,
                        index_digest: spec_sha1(index),
                        mount_point: spec_mount_point(mount_point),
                        records,
                    },
                ),
            }
        },
    }
}

/// What opening `data` gives. In order: data shorter than a footer is
/// `Truncated`; then the error of the footer; an index that does not end
/// where the footer starts is `CorruptIndex`; then what the footer and the
/// index region make.
pub open spec fn spec_open(data: Seq<u8>, options: Options) -> Result<PakView, Error> {
    match spec_read_footer(data) {
        None => Err(Error::Truncated),
        Some(f) => match spec_footer_error(f, options) {
            Some(e) => Err(e),
            None => match spec_index_region(data, f) {
                None => Err(Error::CorruptIndex),
                Some(index) => spec_open_index(f, index, options),
            },
        },
    }
}

/// A footer that ends the data reads back as it was written.
pub proof fn lemma_footer_roundtrip(head: Seq<u8>, f: FooterView)
    requires
        f.index_sha1.len() == 20,
    ensures
        spec_footer_bytes(f).len() == 44,
        spec_read_footer(head + spec_footer_bytes(f)) == Some(f),
{
    let e = Seq::<u8>::empty();
    let data = head + spec_footer_bytes(f);
    let at = head.len() as int;
    lemma_le_len();
    lemma_u32_le_roundtrip(f.magic, e);
    lemma_u32_le_roundtrip(f.version, e);
    lemma_u64_le_roundtrip(f.index_offset, e);
    lemma_u64_le_roundtrip(f.index_size, e);
    assert(data.subrange(at, at + 4) =~= spec_u32_le(f.magic) + e);
    assert(data.subrange(at + 4, at + 8) =~= spec_u32_le(f.version) + e);
    assert(data.subrange(at + 8, at + 16) =~= spec_u64_le(f.index_offset) + e);
    assert(data.subrange(at + 16, at + 24) =~= spec_u64_le(f.index_size) + e);
    assert(data.subrange(at + 24, at + 44) =~= f.index_sha1);
}

/// Appends the 44 bytes of `footer`.
pub fn write_footer(out: &mut Vec<u8>, footer: &Footer)
    ensures
        final(out)@ == old(out)@ + spec_footer_bytes(footer@),
{
    encode_u32(out, footer.magic);
    encode_u32(out, footer.version);
    encode_u64(out, footer.index_offset);
    encode_u64(out, footer.index_size);
    let ghost before = out@;
    let mut i: usize = 0;
    while i < 20
        invariant
            i <= 20,
            out@ == before + footer.index_sha1@.take(i as int),
        decreases 20 - i,
    {
        out.push(footer.index_sha1[i]);
        assert(footer.index_sha1@.take(i + 1) =~= footer.index_sha1@.take(i as int).push(
            footer.index_sha1@[i as int],
        ));
        i += 1;
    }
}

/// Reads the footer from the last 44 bytes of `data`. Fails with `Truncated`
/// where there are fewer.
pub fn read_footer(data: &[u8]) -> (r: Result<Footer, Error>)
    ensures
        match r {
            Ok(footer) => spec_read_footer(data@) == Some(footer@),
            Err(e) => e == Error::Truncated && spec_read_footer(data@).is_none(),
        },
{
    if data.len() < FOOTER_SIZE {
        return Err(Error::Truncated);
    }
    let at: usize = data.len() - FOOTER_SIZE;
    let (magic, _) = decode_u32(data, at)?;
    let (version, _) = decode_u32(data, at + 4)?;
    let (index_offset, _) = decode_u64(data, at + 8)?;
    let (index_size, _) = decode_u64(data, at + 16)?;
    let mut index_sha1: Sha1 = [0u8; 20];
    let mut i: usize = 0;
    while i < 20
        invariant
            i <= 20,
            at + 44 == data@.len() <= usize::MAX,
            forall|j: int| 0 <= j < i ==> index_sha1@[j] == data@[at + 24 + j],
        decreases 20 - i,
    {
        index_sha1[i] = data[at + 24 + i];
        i += 1;
    }
    assert(index_sha1@ =~= data@.subrange(at + 24, at + 44));
    Ok(Footer { magic, version, index_offset, index_size, index_sha1 })
}

/// Checks that the index that `footer` describes ends exactly where the
/// footer starts in a package of `length` bytes; `CorruptIndex` where it does
/// not.
pub fn locate_index(footer: &Footer, length: u64) -> (r: Result<(), Error>)
    ensures
        match r {
            Ok(()) => spec_index_located(footer@, length as int),
            Err(e) => e == Error::CorruptIndex && !spec_index_located(footer@, length as int),
        },
{
    if length < 44 {
        return Err(Error::CorruptIndex);
    }
    let room: u64 = length - 44;
    if footer.index_offset > room || footer.index_size != room - footer.index_offset {
        return Err(Error::CorruptIndex);
    }
    Ok(())
}

/// The index region that `footer` points at in `data`, or `CorruptIndex`
/// where it does not end exactly where the footer starts.
pub fn index_region<'a>(data: &'a [u8], footer: &Footer) -> (r: Result<&'a [u8], Error>)
    ensures
        match r {
            Ok(index) => spec_index_region(data@, footer@) == Some(index@),
            Err(e) => e == Error::CorruptIndex && spec_index_region(data@, footer@).is_none(),
        },
{
    locate_index(footer, data.len() as u64)?;
    let start: usize = footer.index_offset as usize;
    let end: usize = data.len() - FOOTER_SIZE;
    Ok(slice_subrange(data, start, end))
}

/// Checks the magic of `footer`, unless told not to, and settles the version
/// under which the index is read: the forced one, else the footer's.
pub fn settle_version(footer: &Footer, options: &Options) -> (r: Result<u32, Error>)
    ensures
        match r {
            Ok(version) => spec_footer_error(footer@, *options).is_none() && version
                == spec_effective_version(footer.version, options.force_version),
            Err(e) => spec_footer_error(footer@, *options) == Some(e),
        },
{
    let version = match options.force_version {
        Some(v) => v,
        None => footer.version,
    };
    if !options.ignore_magic && footer.magic != PAK_MAGIC {
        return Err(Error::BadMagic(footer.magic));
    }
    if version < 1 || version > 3 {
        return Err(Error::UnsupportedVersion(version));
    }
    Ok(version)
}

impl Pak {
    /// Makes the package value of a footer and the bytes of the index that it
    /// describes: checks the magic unless told not to, settles the version,
    /// hashes the index, and reads the mount point and the records from it.
    /// For a reader that holds the footer and the index but not the payloads.
    pub fn from_index(footer: &Footer, index: &[u8], options: &Options) -> (r: Result<Pak, Error>)
        ensures
            match r {
                Ok(pak) => spec_open_index(footer@, index@, *options) == Ok::<PakView, Error>(
                    pak@,
                ),
                Err(e) => spec_open_index(footer@, index@, *options) == Err::<PakView, Error>(e),
            },
    {
        let version = settle_version(footer, options)?;
        if index.len() as u64 != footer.index_size {
            return Err(Error::CorruptIndex);
        }
        let index_digest = sha1_of(index)?;
        let (mount_point, records) = read_index(index, version, options.encoding)?;
        let mount_point = if mount_point.as_str().is_empty() {
            None
        } else {
            Some(mount_point)
        };
        Ok(
            Pak {
                version,
                index_offset: footer.index_offset,
                index_size: footer.index_size,
                index_sha1: footer.index_sha1,
                index_digest,
                mount_point,
                records,
            },
        )
    }

    /// Opens a package held in memory: reads the footer from the last 44
    /// bytes, checks the magic unless told not to, settles the version, takes
    /// the index region that the footer points at, hashes it, and reads the
    /// mount point and the records from it. Nothing is returned on failure.
    pub fn open(data: &[u8], options: &Options) -> (r: Result<Pak, Error>)
        ensures
            match r {
                Ok(pak) => spec_open(data@, *options) == Ok::<PakView, Error>(pak@),
                Err(e) => spec_open(data@, *options) == Err::<PakView, Error>(e),
            },
    {
        let footer = read_footer(data)?;
        let _ = settle_version(&footer, options)?;
        let index = index_region(data, &footer)?;
        Pak::from_index(&footer, index, options)
    }

    /// A package value with the given fields.
    pub fn new(
        version: u32,
        index_offset: u64,
        index_size: u64,
        index_sha1: Sha1,
        mount_point: Option<String>,
        records: Vec<Record>,
    ) -> (pak: Pak)
        ensures
            pak.version == version,
            pak.index_offset == index_offset,
            pak.index_size == index_size,
            pak.index_sha1 == index_sha1,
            pak.index_digest == index_sha1,
            pak.mount_point == mount_point,
            pak.records == records,
    {
        Pak {
            version,
            index_offset,
            index_size,
            index_sha1,
            index_digest: index_sha1,
            mount_point,
            records,
        }
    }
}

} // verus!
