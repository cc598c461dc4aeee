//! The integrity engine: every record's payload, as it is stored, is hashed
//! and held against the digest in the record; the index is held against the
//! digest in the footer.

use vstd::prelude::*;
use vstd::slice::slice_subrange;
use crate::error::Error;
use crate::digest::{
    Sha1,
    spec_sha1,
    spec_hashable,
    spec_is_null_digest,
    sha1_of,
    digest_eq,
    is_null_digest,
};
use crate::record::{Record, RecordView, spec_views};
use crate::pak::{Pak, PakView, spec_read_footer, spec_index_region, read_footer, index_region};

verus! {

/// How to run a check.
#[derive(Clone, Copy, Debug, PartialEq, Eq)]
pub struct CheckOptions {
    /// Stop at the first mismatch.
    pub abort_on_error: bool,
    /// Take a recorded digest that is all zero as "never hashed", and pass it.
    pub ignore_null_checksums: bool,
}

/// One failed comparison, ready to be reported.
#[derive(Clone, Debug, PartialEq, Eq)]
pub struct Mismatch {
    /// The entry's name; empty for the index.
    pub filename: String,
    /// The digest that is recorded.
    pub expected: Sha1,
    /// The digest of the bytes as they are.
    pub computed: Sha1,
}

/// A mismatch as a mathematical value.
pub struct MismatchView {
    pub filename: Seq<char>,
    pub expected: Seq<u8>,
    pub computed: Seq<u8>,
}

impl View for Mismatch {
    type V = MismatchView;

    open spec fn view(&self) -> MismatchView {
        MismatchView {
            filename: self.filename@,
            expected: self.expected@,
            computed: self.computed@,
        }
    }
}

/// The views of a sequence of mismatches, in order.
pub open spec fn spec_mismatch_views(found: Seq<Mismatch>) -> Seq<MismatchView> {
    Seq::new(found.len(), |i: int| found[i]@)
}

/// The payload of a record in `data`: `size` bytes from `offset` on, or
/// nothing where they do not all lie inside the data.
pub open spec fn spec_payload(r: RecordView, data: Seq<u8>) -> Option<Seq<u8>> {
    if r.offset + r.size <= data.len() {
        Some(data.subrange(r.offset as int, r.offset + r.size))
    } else {
        None
    }
}

/// Whether a recorded digest is passed without a look at the bytes.
pub open spec fn spec_exempt(expected: Seq<u8>, options: CheckOptions) -> bool {
    options.ignore_null_checksums && spec_is_null_digest(expected)
}

/// What holding a computed digest against a recorded one gives: nothing where
/// the recorded one is exempt or they are equal, else the mismatch.
pub open spec fn spec_compare(
    filename: Seq<char>,
    expected: Seq<u8>,
    computed: Seq<u8>,
    options: CheckOptions,
) -> Option<MismatchView> {
    if spec_exempt(expected, options) || computed == expected {
        None
    } else {
        Some(MismatchView { filename, expected, computed })
    }
}

/// What checking a payload gives. The payload of an exempt record passes
/// unhashed; one too long to hash is `Oversize`. Otherwise its digest is held
/// against the recorded one.
pub open spec fn spec_check_payload(r: RecordView, payload: Seq<u8>, options: CheckOptions)
    -> Result<Option<MismatchView>, Error> {
    if spec_exempt(r.sha1, options) {
        Ok(None)
    } else if !spec_hashable(payload) {
        Err(Error::Oversize)
    } else {
        Ok(spec_compare(r.filename, r.sha1, spec_sha1(payload), options))
    }
}

/// What checking one record gives. An exempt record passes unread. A payload
/// that does not lie inside the data is `Io`. Otherwise the payload is
/// checked.
pub open spec fn spec_check_record(r: RecordView, data: Seq<u8>, options: CheckOptions) -> Result<
    Option<MismatchView>,
    Error,
> {
    if spec_exempt(r.sha1, options) {
        Ok(None)
    } else {
        match spec_payload(r, data) {
            None => Err(Error::Io),
            Some(payload) => spec_check_payload(r, payload, options),
        }
    }
}

/// What checking records in order gives: the mismatches found, in order. An
/// error ends the check. With `abort_on_error` the first mismatch ends it,
/// and is the only one returned.
pub open spec fn spec_check_records(records: Seq<RecordView>, data: Seq<u8>, options: CheckOptions)
    -> Result<Seq<MismatchView>, Error>
    decreases records.len(),
{
    if records.len() == 0 {
        Ok(Seq::<MismatchView>::empty())
    } else {
        match spec_check_record(records.first(), data, options) {
            Err(e) => Err(e),
            Ok(found) => if found.is_some() && options.abort_on_error {
                Ok(seq![found.unwrap()])
            } else {
                match spec_check_records(records.drop_first(), data, options) {
                    Err(e) => Err(e),
                    Ok(rest) => Ok(
                        match found {
                            Some(m) => seq![m] + rest,
                            None => rest,
                        },
                    ),
                }
            },
        }
    }
}

/// What checking the index of a package held in `data` gives, straight from the
/// bytes: the footer is read, the index region is taken and hashed, and the
/// digest is held against the footer's. The mismatch of an index has no name.
pub open spec fn spec_check_index(data: Seq<u8>, options: CheckOptions) -> Result<
    Option<MismatchView>,
    Error,
> {
    match spec_read_footer(data) {
        None => Err(Error::Truncated),
        Some(f) => match spec_index_region(data, f) {
            None => Err(Error::CorruptIndex),
            Some(index) => if !spec_hashable(index) {
                Err(Error::Oversize)
            } else {
                Ok(spec_compare(Seq::<char>::empty(), f.index_sha1, spec_sha1(index), options))
            },
        },
    }
}

/// What a full check of an opened package gives: the index first, from the
/// two digests that were kept when it was opened, then the records.
pub open spec fn spec_check_integrity(pak: PakView, data: Seq<u8>, options: CheckOptions) -> Result<
    Seq<MismatchView>,
    Error,
> {
    let index = spec_compare(Seq::<char>::empty(), pak.index_sha1, pak.index_digest, options);
    if index.is_some() && options.abort_on_error {
        Ok(seq![index.unwrap()])
    } else {
        match spec_check_records(pak.records, data, options) {
            Err(e) => Err(e),
            Ok(rest) => Ok(
                match index {
                    Some(m) => seq![m] + rest,
                    None => rest,
                },
            ),
        }
    }
}

/// The slice of `data` that holds the payload of `record`, or `Io` where the
/// payload does not lie inside the data.
pub fn payload_of<'a>(record: &Record, data: &'a [u8]) -> (r: Result<&'a [u8], Error>)
    ensures
        match r {
            Ok(payload) => spec_payload(record@, data@) == Some(payload@),
            Err(e) => e == Error::Io && spec_payload(record@, data@).is_none(),
        },
{
    let len: u64 = data.len() as u64;
    if record.offset > len || record.size > len - record.offset {
        return Err(Error::Io);
    }
    let start: usize = record.offset as usize;
    let end: usize = (record.offset + record.size) as usize;
    Ok(slice_subrange(data, start, end))
}

/// Holds a computed digest against a recorded one. Gives the mismatch to
/// report, or nothing where the recorded digest is exempt or the two agree.
pub fn compare_digests(filename: &str, expected: &Sha1, computed: &Sha1, options: &CheckOptions)
    -> (r: Option<Mismatch>)
    ensures
        match r {
            Some(m) => spec_compare(filename@, expected@, computed@, *options) == Some(m@),
            None => spec_compare(filename@, expected@, computed@, *options).is_none(),
        },
{
    if options.ignore_null_checksums && is_null_digest(expected) {
        return None;
    }
    if digest_eq(computed, expected) {
        return None;
    }
    Some(Mismatch { filename: filename.to_owned(), expected: *expected, computed: *computed })
}

/// Checks the payload of a record: hashes the bytes as they are stored and
/// holds the digest against the recorded one.
pub fn check_payload(record: &Record, payload: &[u8], options: &CheckOptions) -> (r: Result<
    Option<Mismatch>,
    Error,
>)
    ensures
        match r {
            Ok(Some(m)) => spec_check_payload(record@, payload@, *options) == Ok::<
                Option<MismatchView>,
                Error,
            >(Some(m@)),
            Ok(None) => spec_check_payload(record@, payload@, *options) == Ok::<
                Option<MismatchView>,
                Error,
            >(None),
            Err(e) => spec_check_payload(record@, payload@, *options) == Err::<
                Option<MismatchView>,
                Error,
            >(e),
        },
{
    if options.ignore_null_checksums && is_null_digest(&record.sha1) {
        return Ok(None);
    }
    let computed = sha1_of(payload)?;
    Ok(compare_digests(record.filename.as_str(), &record.sha1, &computed, options))
}

/// Checks one record against the data: takes the payload that the record
/// points at, unless the record is exempt, and checks it.
pub fn check_record(record: &Record, data: &[u8], options: &CheckOptions) -> (r: Result<
    Option<Mismatch>,
    Error,
>)
    ensures
        match r {
            Ok(Some(m)) => spec_check_record(record@, data@, *options) == Ok::<
                Option<MismatchView>,
                Error,
            >(Some(m@)),
            Ok(None) => spec_check_record(record@, data@, *options) == Ok::<
                Option<MismatchView>,
                Error,
            >(None),
            Err(e) => spec_check_record(record@, data@, *options) == Err::<
                Option<MismatchView>,
                Error,
            >(e),
        },
{
    if options.ignore_null_checksums && is_null_digest(&record.sha1) {
        return Ok(None);
    }
    let payload = payload_of(record, data)?;
    check_payload(record, payload, options)
}

/// Takes the outcome of one comparison into the report, and says whether
/// the check goes on: it stops at a mismatch where `abort_on_error` is set.
/// For a reader that checks the payloads one by one.
pub fn note_outcome(found: &mut Vec<Mismatch>, outcome: Option<Mismatch>, options: &CheckOptions)
    -> (go_on: bool)
    ensures
        final(found)@ == match outcome {
            Some(m) => old(found)@.push(m),
            None => old(found)@,
        },
        go_on == !(outcome.is_some() && options.abort_on_error),
{
    match outcome {
        Some(m) => {
            found.push(m);
            !options.abort_on_error
        },
        None => true,
    }
}

/// The verdict on a report: in order where it is empty, else
/// `ChecksumMismatch` with the number of mismatches.
pub fn verdict(found: &[Mismatch]) -> (r: Result<(), Error>)
    ensures
        match r {
            Ok(()) => found@.len() == 0,
            Err(e) => found@.len() > 0 && e == Error::ChecksumMismatch(found@.len() as usize),
        },
{
    if found.len() == 0 {
        Ok(())
    } else {
        Err(Error::ChecksumMismatch(found.len()))
    }
}

/// Checks records in order and gives the mismatches; their number is the
/// error count. A payload that cannot be read or hashed ends the check with
/// an error; with `abort_on_error` the first mismatch ends it.
pub fn check_records(records: &[Record], data: &[u8], options: &CheckOptions) -> (r: Result<
    Vec<Mismatch>,
    Error,
>)
    ensures
        match r {
            Ok(found) => spec_check_records(spec_views(records@), data@, *options) == Ok::<
                Seq<MismatchView>,
                Error,
            >(spec_mismatch_views(found@)),
            Err(e) => spec_check_records(spec_views(records@), data@, *options) == Err::<
                Seq<MismatchView>,
                Error,
            >(e),
        },
{
    let mut found: Vec<Mismatch> = Vec::new();
    let mut i: usize = 0;
    let ghost views = spec_views(records@);
    let ghost whole = spec_check_records(views, data@, *options);
    proof {
        assert(views.skip(0) =~= views);
    }
    while i < records.len()
        invariant
            i <= records@.len(),
            views == spec_views(records@),
            whole == spec_check_records(views, data@, *options),
            match spec_check_records(views.skip(i as int), data@, *options) {
                Ok(rest) => whole == Ok::<Seq<MismatchView>, Error>(
                    spec_mismatch_views(found@) + rest,
                ),
                Err(e) => whole == Err::<Seq<MismatchView>, Error>(e),
            },
        decreases records@.len() - i,
    {
        let ghost before = spec_mismatch_views(found@);
        proof {
            assert(views.skip(i as int).drop_first() =~= views.skip(i + 1));
        }
        let outcome = check_record(&records[i], data, options)?;
        let ghost noted = outcome;
        proof {
            if noted.is_some() {
                let m = noted.unwrap()@;
                match spec_check_records(views.skip(i + 1), data@, *options) {
                    Ok(rest) => {
                        assert(before + (seq![m] + rest) =~= before.push(m) + rest);
                    },
                    Err(_) => {},
                }
                assert(before + seq![m] =~= before.push(m));
            }
        }
        let go_on = note_outcome(&mut found, outcome, options);
        proof {
            if noted.is_some() {
                assert(spec_mismatch_views(found@) =~= before.push(noted.unwrap()@));
            }
        }
        if !go_on {
            return Ok(found);
        }
        i += 1;
    }
    proof {
        assert(spec_mismatch_views(found@) + Seq::<MismatchView>::empty() =~= spec_mismatch_views(
            found@,
        ));
    }
    Ok(found)
}

/// Checks the index of a package held in `data` against the digest in its
/// footer, without reading the records.
pub fn check_index(data: &[u8], options: &CheckOptions) -> (r: Result<Option<Mismatch>, Error>)
    ensures
        match r {
            Ok(Some(m)) => spec_check_index(data@, *options) == Ok::<Option<MismatchView>, Error>(
                Some(m@),
            ),
            Ok(None) => spec_check_index(data@, *options) == Ok::<Option<MismatchView>, Error>(
                None,
            ),
            Err(e) => spec_check_index(data@, *options) == Err::<Option<MismatchView>, Error>(e),
        },
{
    let footer = read_footer(data)?;
    let index = index_region(data, &footer)?;
    let computed = sha1_of(index)?;
    let unnamed = String::new();
    Ok(compare_digests(unnamed.as_str(), &footer.index_sha1, &computed, options))
}

impl Pak {
    /// Checks the whole package against `data`: the index, from the digests
    /// kept when the package was opened, then every record. Gives the
    /// mismatches in that order; their number is the error count.
    pub fn check_integrity(&self, data: &[u8], options: &CheckOptions) -> (r: Result<
        Vec<Mismatch>,
        Error,
    >)
        ensures
            match r {
                Ok(found) => spec_check_integrity(self@, data@, *options) == Ok::<
                    Seq<MismatchView>,
                    Error,
                >(spec_mismatch_views(found@)),
                Err(e) => spec_check_integrity(self@, data@, *options) == Err::<
                    Seq<MismatchView>,
                    Error,
                >(e),
            },
    {
        let unnamed = String::new();
        let index = compare_digests(
            unnamed.as_str(),
            &self.index_sha1,
            &self.index_digest,
            options,
        );
        match index {
            Some(m) => {
                if options.abort_on_error {
                    let mut found: Vec<Mismatch> = Vec::new();
                    found.push(m);
                    assert(spec_mismatch_views(found@) =~= seq![m@]);
                    return Ok(found);
                }
                let rest = check_records(self.records.as_slice(), data, options)?;
                let mut found: Vec<Mismatch> = Vec::new();
                found.push(m);
                let ghost first = m@;
                let ghost tail = spec_mismatch_views(rest@);
                let mut rest = rest;
                found.append(&mut rest);
                assert(spec_mismatch_views(found@) =~= seq![first] + tail);
                Ok(found)
            },
            None => check_records(self.records.as_slice(), data, options),
        }
    }
}

} // verus!
