//! The index region: the mount point, then one entry after the other until
//! the region ends. An entry is the file name as a stored string, followed by
//! the record under the layout of the package's version.

use vstd::prelude::*;
use crate::error::Error;
use crate::text::{
    Encoding,
    spec_path_storable,
    spec_path_bytes,
    spec_read_path,
    spec_first_illegal,
    spec_text_encodable,
    write_path,
    read_path,
    lemma_path_roundtrip,
};
use crate::record::{
    Record,
    RecordView,
    spec_views,
    spec_record_bytes,
    spec_read_record,
    spec_block_count_fits,
    write_record,
    read_record,
    lemma_record_roundtrip,
};

verus! {

/// Whether `version` is one that this library reads and writes.
pub open spec fn spec_version_supported(version: u32) -> bool {
    1 <= version <= 3
}

/// The stored form of an entry: name, then record.
pub open spec fn spec_entry_bytes(r: RecordView, version: u32, encoding: Encoding) -> Seq<u8> {
    spec_path_bytes(r.filename, encoding) + spec_record_bytes(r, version)
}

/// The stored form of a run of entries.
pub open spec fn spec_entries_bytes(records: Seq<RecordView>, version: u32, encoding: Encoding)
    -> Seq<u8>
    decreases records.len(),
{
    if records.len() == 0 {
        Seq::<u8>::empty()
    } else {
        spec_entry_bytes(records.first(), version, encoding) + spec_entries_bytes(
            records.drop_first(),
            version,
            encoding,
        )
    }
}

/// The stored form of an index: mount point, then the entries.
pub open spec fn spec_index_bytes(
    mount_point: Seq<char>,
    records: Seq<RecordView>,
    version: u32,
    encoding: Encoding,
) -> Seq<u8> {
    spec_path_bytes(mount_point, encoding) + spec_entries_bytes(records, version, encoding)
}

/// Whether an entry can be written: its name can be stored and its blocks can
/// be counted.
pub open spec fn spec_entry_writable(r: RecordView, version: u32, encoding: Encoding) -> bool {
    spec_path_storable(r.filename, encoding) && spec_block_count_fits(r, version)
}

/// Whether writing an entry fails with `e`: `IllegalEncoding` with the first
/// code that the encoding cannot hold, or `Oversize` where the name is
/// encodable but too long, or is storable while the blocks cannot be counted.
pub open spec fn spec_entry_write_error(r: RecordView, version: u32, encoding: Encoding, e: Error)
    -> bool {
    match e {
        Error::IllegalEncoding(code) => spec_first_illegal(r.filename, encoding, code),
        Error::Oversize => spec_text_encodable(r.filename, encoding) && !spec_entry_writable(
            r,
            version,
            encoding,
        ),
        _ => false,
    }
}

/// Whether writing a string fails with `e`.
pub open spec fn spec_path_write_error(chars: Seq<char>, encoding: Encoding, e: Error) -> bool {
    match e {
        Error::IllegalEncoding(code) => spec_first_illegal(chars, encoding, code),
        Error::Oversize => spec_text_encodable(chars, encoding) && !spec_path_storable(
            chars,
            encoding,
        ),
        _ => false,
    }
}

/// Whether the first `n` entries can all be written.
pub open spec fn spec_entries_writable(
    records: Seq<RecordView>,
    n: int,
    version: u32,
    encoding: Encoding,
) -> bool {
    forall|i: int| 0 <= i < n ==> spec_entry_writable(#[trigger] records[i], version, encoding)
}

/// What reading one entry at `pos` gives: the record and the position behind
/// it. An entry that the data ends in is a corrupt index; a name that cannot
/// be decoded is an invalid encoding.
pub open spec fn spec_read_entry(data: Seq<u8>, pos: int, version: u32, encoding: Encoding)
    -> Result<(RecordView, int), Error> {
    match spec_read_path(data, pos, encoding) {
        Err(Error::InvalidEncoding) => Err(Error::InvalidEncoding),
        Err(_) => Err(Error::CorruptIndex),
        Ok((filename, at)) => match spec_read_record(data, at, version, filename) {
            None => Err(Error::CorruptIndex),
            Some((r, next)) => Ok((r, next)),
        },
    }
}

/// What reading entries from `pos` to the end of `data` gives: the records in
/// order, or the error of the first entry that cannot be read.
pub open spec fn spec_read_entries(data: Seq<u8>, pos: int, version: u32, encoding: Encoding)
    -> Result<Seq<RecordView>, Error>
    decreases data.len() - pos,
{
    if pos >= data.len() {
        Ok(Seq::<RecordView>::empty())
    } else {
        match spec_read_entry(data, pos, version, encoding) {
            Err(e) => Err(e),
            Ok((r, next)) => if next <= pos {
                Err(Error::CorruptIndex)
            } else {
                match spec_read_entries(data, next, version, encoding) {
                    Err(e) => Err(e),
                    Ok(rest) => Ok(seq![r] + rest),
                }
            },
        }
    }
}

/// What reading an index gives: the mount point and the records.
pub open spec fn spec_read_index(index: Seq<u8>, version: u32, encoding: Encoding) -> Result<
    (Seq<char>, Seq<RecordView>),
    Error,
> {
    match spec_read_path(index, 0, encoding) {
        Err(Error::InvalidEncoding) => Err(Error::InvalidEncoding),
        Err(_) => Err(Error::CorruptIndex),
        Ok((mount_point, at)) => match spec_read_entries(index, at, version, encoding) {
            Err(e) => Err(e),
            Ok(records) => Ok((mount_point, records)),
        },
    }
}

/// Entries written one after the other are the entries of the whole run.
pub proof fn lemma_entries_bytes_push(
    records: Seq<RecordView>,
    r: RecordView,
    version: u32,
    encoding: Encoding,
)
    ensures
        spec_entries_bytes(records.push(r), version, encoding) == spec_entries_bytes(
            records,
            version,
            encoding,
        ) + spec_entry_bytes(r, version, encoding),
    decreases records.len(),
{
    let all = records.push(r);
    if records.len() == 0 {
        assert(spec_entries_bytes(all.drop_first(), version, encoding) =~= Seq::<u8>::empty());
        assert(spec_entries_bytes(all, version, encoding) =~= spec_entry_bytes(
            r,
            version,
            encoding,
        ));
        assert(spec_entries_bytes(records, version, encoding) + spec_entry_bytes(
            r,
            version,
            encoding,
        ) =~= spec_entry_bytes(r, version, encoding));
    } else {
        lemma_entries_bytes_push(records.drop_first(), r, version, encoding);
        assert(all.drop_first() =~= records.drop_first().push(r));
        assert(spec_entries_bytes(all, version, encoding) =~= spec_entries_bytes(
            records,
            version,
            encoding,
        ) + spec_entry_bytes(r, version, encoding));
    }
}

/// A written entry, whatever surrounds it, reads back as the record it was
/// made from, and the read ends right behind it.
pub proof fn lemma_entry_roundtrip(
    head: Seq<u8>,
    r: RecordView,
    version: u32,
    encoding: Encoding,
    tail: Seq<u8>,
)
    requires
        spec_version_supported(version),
        r.fits(version),
        spec_path_storable(r.filename, encoding),
    ensures
        spec_read_entry(
            head + spec_entry_bytes(r, version, encoding) + tail,
            head.len() as int,
            version,
            encoding,
        ) == Ok::<(RecordView, int), Error>(
            (r, (head.len() + spec_entry_bytes(r, version, encoding).len()) as int),
        ),
        spec_entry_bytes(r, version, encoding).len() >= 52,
{
    let name = spec_path_bytes(r.filename, encoding);
    let body = spec_record_bytes(r, version);
    let data = head + spec_entry_bytes(r, version, encoding) + tail;
    lemma_path_roundtrip(head, r.filename, encoding, body + tail);
    assert(data =~= head + name + (body + tail));
    lemma_record_roundtrip(head + name, r, version, tail);
    assert(data =~= (head + name) + body + tail);
}

/// Written entries that end the data read back as the records they were made
/// from, in order.
pub proof fn lemma_entries_roundtrip(
    head: Seq<u8>,
    records: Seq<RecordView>,
    version: u32,
    encoding: Encoding,
)
    requires
        spec_version_supported(version),
        forall|i: int| 0 <= i < records.len() ==> (#[trigger] records[i]).fits(version),
        forall|i: int|
            0 <= i < records.len() ==> spec_path_storable(
                (#[trigger] records[i]).filename,
                encoding,
            ),
    ensures
        spec_read_entries(
            head + spec_entries_bytes(records, version, encoding),
            head.len() as int,
            version,
            encoding,
        ) == Ok::<Seq<RecordView>, Error>(records),
    decreases records.len(),
{
    let data = head + spec_entries_bytes(records, version, encoding);
    let pos = head.len() as int;
    if records.len() == 0 {
        assert(spec_read_entries(data, pos, version, encoding) == Ok::<Seq<RecordView>, Error>(
            Seq::<RecordView>::empty(),
        ));
        assert(records =~= Seq::<RecordView>::empty());
    } else {
        let r = records.first();
        let rest = records.drop_first();
        let entry = spec_entry_bytes(r, version, encoding);
        let tail = spec_entries_bytes(rest, version, encoding);
        lemma_entry_roundtrip(head, r, version, encoding, tail);
        assert(data =~= head + entry + tail);
        lemma_entries_roundtrip(head + entry, rest, version, encoding);
        assert(seq![r] + rest =~= records);
    }
}

/// A written index reads back as the mount point and the records it was made
/// from.
pub proof fn lemma_index_roundtrip(
    mount_point: Seq<char>,
    records: Seq<RecordView>,
    version: u32,
    encoding: Encoding,
)
    requires
        spec_version_supported(version),
        spec_path_storable(mount_point, encoding),
        forall|i: int| 0 <= i < records.len() ==> (#[trigger] records[i]).fits(version),
        forall|i: int|
            0 <= i < records.len() ==> spec_path_storable(
                (#[trigger] records[i]).filename,
                encoding,
            ),
    ensures
        spec_read_index(
            spec_index_bytes(mount_point, records, version, encoding),
            version,
            encoding,
        ) == Ok::<(Seq<char>, Seq<RecordView>), Error>((mount_point, records)),
{
    let head = spec_path_bytes(mount_point, encoding);
    let tail = spec_entries_bytes(records, version, encoding);
    let e = Seq::<u8>::empty();
    lemma_path_roundtrip(e, mount_point, encoding, tail);
    lemma_entries_roundtrip(head, records, version, encoding);
}

/// Whether an index can be written: the version is supported, the mount
/// point can be stored, and so can every entry.
pub open spec fn spec_index_writable(
    mount_point: Seq<char>,
    records: Seq<RecordView>,
    version: u32,
    encoding: Encoding,
) -> bool {
    spec_version_supported(version) && spec_path_storable(mount_point, encoding)
        && spec_entries_writable(records, records.len() as int, version, encoding)
}

/// Whether writing an index fails with `e`: `UnsupportedVersion` for a version
/// that is not 1, 2 or 3; else the error of the mount point; else the error
/// of the first entry that cannot be written.
pub open spec fn spec_index_write_error(
    mount_point: Seq<char>,
    records: Seq<RecordView>,
    version: u32,
    encoding: Encoding,
    e: Error,
) -> bool {
    if !spec_version_supported(version) {
        e == Error::UnsupportedVersion(version)
    } else if !spec_path_storable(mount_point, encoding) {
        spec_path_write_error(mount_point, encoding, e)
    } else {
        exists|i: int|
            0 <= i < records.len() && #[trigger] spec_entries_writable(
                records,
                i,
                version,
                encoding,
            ) && spec_entry_write_error(records[i], version, encoding, e)
    }
}

/// Writes an index into a fresh buffer: the mount point, then each record
/// with its name. Fails with `UnsupportedVersion` where the version is not 1,
/// 2 or 3; otherwise with the error of the first string or entry that cannot
/// be written.
pub fn build_index(mount_point: &str, records: &[Record], version: u32, encoding: Encoding) -> (r:
    Result<Vec<u8>, Error>)
    ensures
        match r {
            Ok(index) => spec_index_writable(mount_point@, spec_views(records@), version, encoding)
                && index@ == spec_index_bytes(
                mount_point@,
                spec_views(records@),
                version,
                encoding,
            ),
            Err(e) => spec_index_write_error(
                mount_point@,
                spec_views(records@),
                version,
                encoding,
                e,
            ),
        },
{
    if version < 1 || version > 3 {
        return Err(Error::UnsupportedVersion(version));
    }
    let mut out: Vec<u8> = Vec::new();
    write_path(&mut out, mount_point, encoding)?;
    let ghost views = spec_views(records@);
    let ghost head = out@;
    let mut i: usize = 0;
    while i < records.len()
        invariant
            i <= records@.len(),
            views == spec_views(records@),
            spec_version_supported(version),
            spec_path_storable(mount_point@, encoding),
            spec_entries_writable(views, i as int, version, encoding),
            out@ == head + spec_entries_bytes(views.take(i as int), version, encoding),
        decreases records@.len() - i,
    {
        let record = &records[i];
        write_path(&mut out, record.filename.as_str(), encoding)?;
        write_record(&mut out, record, version)?;
        proof {
            lemma_entries_bytes_push(views.take(i as int), record@, version, encoding);
            assert(views.take(i + 1) =~= views.take(i as int).push(record@));
        }
        i += 1;
    }
    assert(views.take(records@.len() as int) =~= views);
    Ok(out)
}

/// Reads one entry at `pos`: the name, then the record.
fn read_entry(data: &[u8], pos: usize, version: u32, encoding: Encoding) -> (r: Result<
    (Record, usize),
    Error,
>)
    requires
        spec_version_supported(version),
    ensures
        match r {
            Ok((record, next)) => spec_read_entry(data@, pos as int, version, encoding) == Ok::<
                (RecordView, int),
                Error,
            >((record@, next as int)) && next > pos,
            Err(e) => spec_read_entry(data@, pos as int, version, encoding) == Err::<
                (RecordView, int),
                Error,
            >(e),
        },
{
    let (filename, at) = match read_path(data, pos, encoding) {
        Ok(found) => found,
        Err(Error::InvalidEncoding) => {
            return Err(Error::InvalidEncoding);
        },
        Err(_) => {
            return Err(Error::CorruptIndex);
        },
    };
    match read_record(data, at, version, filename) {
        Ok(found) => Ok(found),
        Err(_) => Err(Error::CorruptIndex),
    }
}

/// Reads an index: the mount point, then entries until the data is used up.
/// A version that is not 1, 2 or 3 gives `UnsupportedVersion`. Data that ends
/// inside an entry, or goes on behind the last complete one, gives
/// `CorruptIndex`; text that cannot be decoded gives `InvalidEncoding`.
pub fn read_index(index: &[u8], version: u32, encoding: Encoding) -> (r: Result<
    (String, Vec<Record>),
    Error,
>)
    ensures
        match r {
            Ok((mount_point, records)) => spec_version_supported(version) && spec_read_index(
                index@,
                version,
                encoding,
            ) == Ok::<(Seq<char>, Seq<RecordView>), Error>((mount_point@, spec_views(records@))),
            Err(Error::UnsupportedVersion(v)) => v == version && !spec_version_supported(version),
            Err(e) => spec_version_supported(version) && spec_read_index(index@, version, encoding)
                == Err::<(Seq<char>, Seq<RecordView>), Error>(e),
        },
{
    if version < 1 || version > 3 {
        return Err(Error::UnsupportedVersion(version));
    }
    let (mount_point, start) = match read_path(index, 0, encoding) {
        Ok(found) => found,
        Err(Error::InvalidEncoding) => {
            return Err(Error::InvalidEncoding);
        },
        Err(_) => {
            return Err(Error::CorruptIndex);
        },
    };
    let mut records: Vec<Record> = Vec::new();
    let mut pos: usize = start;
    let ghost whole = spec_read_entries(index@, start as int, version, encoding);
    while pos < index.len()
        invariant
            spec_version_supported(version),
            whole == spec_read_entries(index@, start as int, version, encoding),
            spec_read_path(index@, 0, encoding) == Ok::<(Seq<char>, int), Error>(
                (mount_point@, start as int),
            ),
            match spec_read_entries(index@, pos as int, version, encoding) {
                Ok(rest) => whole == Ok::<Seq<RecordView>, Error>(spec_views(records@) + rest),
                Err(e) => whole == Err::<Seq<RecordView>, Error>(e),
            },
        decreases index@.len() - pos,
    {
        let ghost before = spec_views(records@);
        match read_entry(index, pos, version, encoding) {
            Err(e) => {
                return Err(e);
            },
            Ok((record, next)) => {
                proof {
                    let after = before.push(record@);
                    match spec_read_entries(index@, next as int, version, encoding) {
                        Ok(rest) => {
                            assert(before + (seq![record@] + rest) =~= after + rest);
                        },
                        Err(_) => {},
                    }
                }
                records.push(record);
                assert(spec_views(records@) =~= before.push(record@));
                pos = next;
            },
        }
    }
    Ok((mount_point, records))
}

} // verus!
