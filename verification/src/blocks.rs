//! Compression blocks: a payload is cut into chunks of a nominal size, each
//! chunk becomes a zlib stream of its own, and the streams follow one another
//! without padding. A block records where one stream lies in the payload.

use vstd::prelude::*;
use vstd::slice::slice_subrange;
use crate::error::Error;
use crate::record::{CompressionBlock, spec_blocks_ordered};
use crate::zlib::{MAX_LEVEL, spec_deflated, spec_inflated, deflate, inflate};

verus! {

/// `data` cut into consecutive chunks of `block_size` bytes; the last may be
/// shorter. No chunk is empty, and empty data has no chunk.
pub open spec fn spec_chunks(data: Seq<u8>, block_size: int) -> Seq<Seq<u8>>
    decreases data.len(),
{
    if data.len() == 0 || block_size <= 0 {
        Seq::<Seq<u8>>::empty()
    } else if data.len() <= block_size {
        seq![data]
    } else {
        seq![data.take(block_size)] + spec_chunks(data.skip(block_size), block_size)
    }
}

/// The zlib stream that is stored for a chunk, or nothing where the encoder
/// fails or gives no bytes at all: a block must end after it starts.
pub open spec fn spec_stream_of(chunk: Seq<u8>, level: u32) -> Option<Seq<u8>> {
    match spec_deflated(chunk, level) {
        Some(stream) => if stream.len() > 0 {
            Some(stream)
        } else {
            None
        },
        None => None,
    }
}

/// The zlib stream of each chunk, or nothing where there is none for one of
/// them.
pub open spec fn spec_streams(chunks: Seq<Seq<u8>>, level: u32) -> Option<Seq<Seq<u8>>> {
    if forall|i: int| 0 <= i < chunks.len() ==> spec_stream_of(#[trigger] chunks[i], level).is_some() {
        Some(Seq::new(chunks.len(), |i: int| spec_stream_of(chunks[i], level).unwrap()))
    } else {
        None
    }
}

/// The blocks of streams that follow one another from `start` on.
pub open spec fn spec_layout(streams: Seq<Seq<u8>>, start: int) -> Seq<CompressionBlock>
    decreases streams.len(),
{
    if streams.len() == 0 {
        Seq::<CompressionBlock>::empty()
    } else {
        seq![
            CompressionBlock {
                start_offset: start as u64,
                end_offset: (start + streams.first().len()) as u64,
            },
        ] + spec_layout(streams.drop_first(), start + streams.first().len())
    }
}

/// What splitting gives: the payload, which is the streams of the chunks one
/// after the other, and the blocks that say where each stream lies. Nothing
/// where the encoder fails.
pub open spec fn spec_split(data: Seq<u8>, block_size: int, level: u32) -> Option<
    (Seq<u8>, Seq<CompressionBlock>),
> {
    match spec_streams(spec_chunks(data, block_size), level) {
        None => None,
        Some(streams) => Some((streams.flatten(), spec_layout(streams, 0))),
    }
}

/// What joining gives: the inflated streams of the blocks, one after the
/// other. Nothing where a block starts before `floor` (the end of the block
/// before it), ends before it starts or behind the payload, or holds a stream
/// that the decoder refuses.
pub open spec fn spec_join(payload: Seq<u8>, blocks: Seq<CompressionBlock>, floor: int) -> Option<
    Seq<u8>,
>
    decreases blocks.len(),
{
    if blocks.len() == 0 {
        Some(Seq::<u8>::empty())
    } else {
        let b = blocks.first();
        if b.start_offset < floor || b.end_offset < b.start_offset || b.end_offset > payload.len() {
            None
        } else {
            match spec_inflated(payload.subrange(b.start_offset as int, b.end_offset as int)) {
                None => None,
                Some(part) => match spec_join(payload, blocks.drop_first(), b.end_offset as int) {
                    None => None,
                    Some(rest) => Some(part + rest),
                },
            }
        }
    }
}

/// The chunks of data, put together again, are the data.
pub proof fn lemma_chunks_flatten(data: Seq<u8>, block_size: int)
    requires
        block_size > 0 || data.len() == 0,
    ensures
        spec_chunks(data, block_size).flatten() == data,
    decreases data.len(),
{
    let chunks = spec_chunks(data, block_size);
    if data.len() > 0 {
        if data.len() <= block_size {
            chunks.lemma_flatten_one_element();
        } else {
            let rest = spec_chunks(data.skip(block_size), block_size);
            lemma_chunks_flatten(data.skip(block_size), block_size);
            assert(chunks.drop_first() =~= rest);
        }
    }
}

/// The layout of streams with one more behind them is the layout of the
/// streams with one more block behind it.
pub proof fn lemma_layout_push(streams: Seq<Seq<u8>>, stream: Seq<u8>, start: int)
    ensures
        spec_layout(streams.push(stream), start) == spec_layout(streams, start).push(
            CompressionBlock {
                start_offset: (start + streams.flatten().len()) as u64,
                end_offset: (start + streams.flatten().len() + stream.len()) as u64,
            },
        ),
    decreases streams.len(),
{
    let all = streams.push(stream);
    if streams.len() == 0 {
        assert(spec_layout(all.drop_first(), start + stream.len()) =~= Seq::<
            CompressionBlock,
        >::empty());
        assert(spec_layout(all, start) =~= spec_layout(streams, start).push(
            CompressionBlock {
                start_offset: start as u64,
                end_offset: (start + stream.len()) as u64,
            },
        ));
    } else {
        let first = streams.first();
        lemma_layout_push(streams.drop_first(), stream, start + first.len());
        assert(all.drop_first() =~= streams.drop_first().push(stream));
        assert(spec_layout(all, start) =~= spec_layout(streams, start).push(
            CompressionBlock {
                start_offset: (start + streams.flatten().len()) as u64,
                end_offset: (start + streams.flatten().len() + stream.len()) as u64,
            },
        ));
    }
}

/// The blocks of streams that all hold bytes lie one after the other: each
/// ends after it starts, the first starts at `start`, none starts before its
/// predecessor ends, and the last ends where the streams end.
pub proof fn lemma_layout_ordered(streams: Seq<Seq<u8>>, start: int)
    requires
        0 <= start,
        start + streams.flatten().len() <= u64::MAX,
        forall|i: int| 0 <= i < streams.len() ==> (#[trigger] streams[i]).len() > 0,
    ensures
        spec_layout(streams, start).len() == streams.len(),
        forall|i: int|
            0 <= i < streams.len() ==> start <= (#[trigger] spec_layout(
                streams,
                start,
            )[i]).start_offset < spec_layout(streams, start)[i].end_offset <= start
                + streams.flatten().len(),
        forall|i: int, j: int|
            0 <= i < j < streams.len() ==> (#[trigger] spec_layout(streams, start)[i]).end_offset
                <= (#[trigger] spec_layout(streams, start)[j]).start_offset,
    decreases streams.len(),
{
    if streams.len() > 0 {
        let first = streams.first();
        let rest = streams.drop_first();
        let next = start + first.len();
        lemma_layout_ordered(rest, next);
    }
}

/// Streams that inflate to their chunks, laid out one after the other behind
/// `head`, join to the chunks put together.
pub proof fn lemma_join_layout(head: Seq<u8>, streams: Seq<Seq<u8>>, chunks: Seq<Seq<u8>>)
    requires
        streams.len() == chunks.len(),
        forall|i: int|
            0 <= i < streams.len() ==> spec_inflated(#[trigger] streams[i]) == Some(chunks[i]),
        head.len() + streams.flatten().len() <= u64::MAX,
    ensures
        spec_join(
            head + streams.flatten(),
            spec_layout(streams, head.len() as int),
            head.len() as int,
        ) == Some(chunks.flatten()),
    decreases streams.len(),
{
    let payload = head + streams.flatten();
    let start = head.len() as int;
    if streams.len() > 0 {
        let first = streams.first();
        let rest = streams.drop_first();
        let blocks = spec_layout(streams, start);
        assert(payload =~= (head + first) + rest.flatten());
        assert(payload.subrange(start, start + first.len()) =~= first);
        lemma_join_layout(head + first, rest, chunks.drop_first());
        assert(blocks.drop_first() =~= spec_layout(rest, start + first.len()));
    }
}

/// Puts one more stream behind the payload and records where it lies.
pub fn append_stream(payload: &mut Vec<u8>, blocks: &mut Vec<CompressionBlock>, stream: &[u8])
    ensures
        final(payload)@ == old(payload)@ + stream@,
        final(blocks)@ == old(blocks)@.push(
            CompressionBlock {
                start_offset: old(payload)@.len() as u64,
                end_offset: (old(payload)@.len() + stream@.len()) as u64,
            },
        ),
{
    let start: usize = payload.len();
    payload.extend_from_slice(stream);
    blocks.push(CompressionBlock { start_offset: start as u64, end_offset: payload.len() as u64 });
}

/// Cuts `data` into chunks of `block_size` bytes, deflates each at `level`,
/// and lays the streams out one after the other. Gives the payload and its
/// blocks. Fails with `IllegalArgument` where the level is above nine or the
/// block size is zero while there is data, and with `Io` where the encoder
/// fails or gives an empty stream. What comes out joins back to `data`, and
/// its blocks lie in the payload one after the other.
pub fn compress_blocks(data: &[u8], block_size: u32, level: u32) -> (r: Result<
    (Vec<u8>, Vec<CompressionBlock>),
    Error,
>)
    ensures
        match r {
            Ok((payload, blocks)) => level <= MAX_LEVEL && (block_size > 0 || data@.len() == 0)
                && spec_split(data@, block_size as int, level) == Some((payload@, blocks@))
                && spec_join(payload@, blocks@, 0) == Some(data@) && spec_blocks_ordered(
                blocks@,
                payload@.len() as u64,
            ),
            Err(Error::IllegalArgument) => level > MAX_LEVEL || (block_size == 0 && data@.len()
                > 0),
            Err(Error::Io) => level <= MAX_LEVEL && block_size > 0 && spec_split(
                data@,
                block_size as int,
                level,
            ).is_none(),
            Err(_) => false,
        },
{
    if level > MAX_LEVEL || (block_size == 0 && data.len() > 0) {
        return Err(Error::IllegalArgument);
    }
    let mut payload: Vec<u8> = Vec::new();
    let mut blocks: Vec<CompressionBlock> = Vec::new();
    let mut pos: usize = 0;
    let ghost chunks = spec_chunks(data@, block_size as int);
    let ghost mut done: Seq<Seq<u8>> = Seq::empty();
    let ghost mut streams: Seq<Seq<u8>> = Seq::empty();
    proof {
        assert(data@.skip(0) =~= data@);
    }
    while pos < data.len()
        invariant
            pos <= data@.len(),
            level <= MAX_LEVEL,
            block_size > 0 || data@.len() == 0,
            chunks == spec_chunks(data@, block_size as int),
            chunks == done + spec_chunks(data@.skip(pos as int), block_size as int),
            streams.len() == done.len(),
            forall|i: int|
                0 <= i < done.len() ==> spec_stream_of(#[trigger] done[i], level) == Some(
                    streams[i],
                ),
            forall|i: int|
                0 <= i < done.len() ==> spec_inflated(#[trigger] streams[i]) == Some(done[i]),
            payload@ == streams.flatten(),
            blocks@ == spec_layout(streams, 0),
        decreases data@.len() - pos,
    {
        let left: usize = data.len() - pos;
        let end: usize = if left <= block_size as usize {
            data.len()
        } else {
            pos + block_size as usize
        };
        let chunk = slice_subrange(data, pos, end);
        let ghost tail = data@.skip(pos as int);
        proof {
            if left <= block_size {
                assert(spec_chunks(data@.skip(end as int), block_size as int) =~= Seq::<
                    Seq<u8>,
                >::empty());
            } else {
                assert(chunk@ =~= tail.take(block_size as int));
                assert(tail.skip(block_size as int) =~= data@.skip(end as int));
            }
            assert(spec_chunks(tail, block_size as int) =~= seq![chunk@] + spec_chunks(
                data@.skip(end as int),
                block_size as int,
            ));
            assert(chunks =~= done.push(chunk@) + spec_chunks(
                data@.skip(end as int),
                block_size as int,
            ));
            assert(chunks[done.len() as int] == chunk@);
        }
        let stream = match deflate(chunk, level) {
            Some(stream) => stream,
            None => {
                return Err(Error::Io);
            },
        };
        if stream.len() == 0 {
            return Err(Error::Io);
        }
        append_stream(&mut payload, &mut blocks, stream.as_slice());
        proof {
            lemma_layout_push(streams, stream@, 0);
            streams.lemma_flatten_push(stream@);
            done = done.push(chunk@);
            streams = streams.push(stream@);
        }
        pos = end;
    }
    proof {
        assert(spec_streams(chunks, level).unwrap() =~= streams);
        assert(payload@.len() == payload.len());
        lemma_layout_ordered(streams, 0);
        lemma_join_layout(Seq::<u8>::empty(), streams, chunks);
        lemma_chunks_flatten(data@, block_size as int);
    }
    Ok((payload, blocks))
}

/// Inflates the stream of each block and puts the results together. Fails
/// with `CorruptData` where a block starts before its predecessor ends, ends
/// before it starts or behind the payload, or holds a stream that the decoder
/// refuses.
pub fn decompress_blocks(payload: &[u8], blocks: &[CompressionBlock]) -> (r: Result<Vec<u8>, Error>)
    ensures
        match r {
            Ok(out) => spec_join(payload@, blocks@, 0) == Some(out@),
            Err(e) => e == Error::CorruptData && spec_join(payload@, blocks@, 0).is_none(),
        },
{
    let mut out: Vec<u8> = Vec::new();
    let mut floor: u64 = 0;
    let mut i: usize = 0;
    let ghost whole = spec_join(payload@, blocks@, 0);
    proof {
        assert(blocks@.skip(0) =~= blocks@);
    }
    while i < blocks.len()
        invariant
            i <= blocks@.len(),
            whole == spec_join(payload@, blocks@, 0),
            match spec_join(payload@, blocks@.skip(i as int), floor as int) {
                Some(rest) => whole == Some(out@ + rest),
                None => whole.is_none(),
            },
        decreases blocks@.len() - i,
    {
        let b = blocks[i];
        proof {
            assert(blocks@.skip(i as int).drop_first() =~= blocks@.skip(i + 1));
        }
        if b.start_offset < floor || b.end_offset < b.start_offset || b.end_offset
            > payload.len() as u64 {
            return Err(Error::CorruptData);
        }
        let stream = slice_subrange(payload, b.start_offset as usize, b.end_offset as usize);
        match inflate(stream) {
            None => {
                return Err(Error::CorruptData);
            },
            Some(part) => {
                out.extend_from_slice(part.as_slice());
            },
        }
        floor = b.end_offset;
        i += 1;
    }
    Ok(out)
}

} // verus!
