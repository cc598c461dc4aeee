//! The extractor: from a record and the package's bytes to the file's bytes.

use vstd::prelude::*;
use vstd::slice::slice_to_vec;
use crate::error::Error;
use crate::record::{Record, RecordView, COMPR_NONE, COMPR_ZLIB};
use crate::zlib::{spec_inflated, inflate};
use crate::blocks::{spec_join, decompress_blocks};
use crate::check::{spec_payload, payload_of};

verus! {

/// What a zlib payload inflates to: the joined blocks where the record has
/// blocks, else the payload taken as one stream.
pub open spec fn spec_inflate_payload(r: RecordView, payload: Seq<u8>) -> Option<Seq<u8>> {
    match r.compression_blocks {
        Some(blocks) => spec_join(payload, blocks, 0),
        None => spec_inflated(payload),
    }
}

/// What a payload restores to under the record's method: itself where it is
/// stored as it is, else what it inflates to.
pub open spec fn spec_restored(r: RecordView, payload: Seq<u8>) -> Option<Seq<u8>> {
    if r.compression_method == COMPR_NONE {
        Some(payload)
    } else {
        spec_inflate_payload(r, payload)
    }
}

/// What is made of restored bytes: they are the file where there are any and
/// they have the recorded uncompressed size; all else is `CorruptData`.
pub open spec fn spec_accept(r: RecordView, restored: Option<Seq<u8>>) -> Result<Seq<u8>, Error> {
    match restored {
        Some(bytes) => if bytes.len() == r.uncompressed_size {
            Ok(bytes)
        } else {
            Err(Error::CorruptData)
        },
        None => Err(Error::CorruptData),
    }
}

/// What restoring the file from its payload gives. A method other than none
/// and zlib is `UnsupportedCompressionMethod`; a payload that cannot be
/// restored, or not to the recorded uncompressed size, is `CorruptData`.
pub open spec fn spec_restore(r: RecordView, payload: Seq<u8>) -> Result<Seq<u8>, Error> {
    if r.compression_method != COMPR_NONE && r.compression_method != COMPR_ZLIB {
        Err(Error::UnsupportedCompressionMethod(r.compression_method))
    } else {
        spec_accept(r, spec_restored(r, payload))
    }
}

/// What extracting a record gives. A method other than none and zlib is
/// `UnsupportedCompressionMethod`; a payload that does not lie inside the data
/// is `Io`; a payload that cannot be restored, or whose restored length is
/// not the recorded uncompressed size, is `CorruptData`.
pub open spec fn spec_extract(r: RecordView, data: Seq<u8>) -> Result<Seq<u8>, Error> {
    if r.compression_method != COMPR_NONE && r.compression_method != COMPR_ZLIB {
        Err(Error::UnsupportedCompressionMethod(r.compression_method))
    } else {
        match spec_payload(r, data) {
            None => Err(Error::Io),
            Some(payload) => spec_restore(r, payload),
        }
    }
}

/// Holds restored bytes against the record: they are returned where they
/// have the recorded uncompressed size, and refused as `CorruptData` where
/// they are shorter or longer.
pub fn accept_restored(record: &Record, restored: Vec<u8>) -> (r: Result<Vec<u8>, Error>)
    ensures
        match r {
            Ok(bytes) => bytes@ == restored@ && restored@.len() == record.uncompressed_size,
            Err(e) => e == Error::CorruptData && restored@.len() != record.uncompressed_size,
        },
{
    if restored.len() as u64 != record.uncompressed_size {
        return Err(Error::CorruptData);
    }
    Ok(restored)
}

/// Restores the file that `record` describes from its payload: a stored
/// payload is copied, a zlib payload is inflated block by block (as one
/// stream where the record has no blocks). Whatever is returned has exactly
/// the recorded uncompressed size.
pub fn restore(record: &Record, payload: &[u8]) -> (r: Result<Vec<u8>, Error>)
    ensures
        match r {
            Ok(bytes) => spec_restore(record@, payload@) == Ok::<Seq<u8>, Error>(bytes@)
                && bytes@.len() == record.uncompressed_size,
            Err(e) => spec_restore(record@, payload@) == Err::<Seq<u8>, Error>(e),
        },
{
    if record.compression_method != COMPR_NONE && record.compression_method != COMPR_ZLIB {
        return Err(Error::UnsupportedCompressionMethod(record.compression_method));
    }
    let restored = if record.compression_method == COMPR_NONE {
        slice_to_vec(payload)
    } else {
        match &record.compression_blocks {
            Some(blocks) => decompress_blocks(payload, blocks.as_slice())?,
            None => match inflate(payload) {
                Some(bytes) => bytes,
                None => {
                    return Err(Error::CorruptData);
                },
            },
        }
    };
    accept_restored(record, restored)
}

/// Restores the bytes of the file that `record` describes from the package
/// held in `data`: takes the payload that the record points at, and restores
/// the file from it. A payload that does not lie inside the data is `Io`.
pub fn extract(record: &Record, data: &[u8]) -> (r: Result<Vec<u8>, Error>)
    ensures
        match r {
            Ok(bytes) => spec_extract(record@, data@) == Ok::<Seq<u8>, Error>(bytes@)
                && bytes@.len() == record.uncompressed_size,
            Err(e) => spec_extract(record@, data@) == Err::<Seq<u8>, Error>(e),
        },
{
    if record.compression_method != COMPR_NONE && record.compression_method != COMPR_ZLIB {
        return Err(Error::UnsupportedCompressionMethod(record.compression_method));
    }
    let payload = payload_of(record, data)?;
    restore(record, payload)
}

} // verus!
