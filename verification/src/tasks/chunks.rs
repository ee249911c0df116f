//! Frames that arrive in chunks: the chunks are put one after the other into
//! the display's buffer.

use super::task_display_handler::{
    append_to_display_buffer, queue_frame_ready, reset_display_buffer, DisplayMessage, Frame,
    Queued, DISPLAY_SIZE_IN_BYTES,
};
use crate::decoding::ChunkMetadata;
use vstd::prelude::*;

verus! {

/// How far a frame has arrived.
#[derive(Debug, Clone, Copy, PartialEq, Eq, Structural)]
pub struct ChunkMeta {
    /// Chunks that the frame consists of.
    pub total_chunks: usize,
    /// Chunks that have arrived.
    pub received_count: usize,
    /// Where the next chunk goes.
    pub offset: usize,
}

impl ChunkMeta {
    /// Nothing has arrived.
    pub fn new() -> (r: Self)
        ensures
            r == Self::empty(),
    {
        Self { total_chunks: 0, received_count: 0, offset: 0 }
    }

    /// Nothing has arrived.
    pub open spec fn empty() -> Self {
        ChunkMeta { total_chunks: 0, received_count: 0, offset: 0 }
    }

    /// Forgets what has arrived.
    pub fn reset(&mut self)
        ensures
            *final(self) == Self::empty(),
    {
        self.total_chunks = 0;
        self.received_count = 0;
        self.offset = 0;
    }

    /// All chunks have arrived.
    pub open spec fn complete(self) -> bool {
        self.received_count > 0 && self.received_count == self.total_chunks
    }

    /// Whether all chunks have arrived.
    pub fn is_complete(&self) -> (r: bool)
        ensures
            r == self.complete(),
    {
        self.received_count > 0 && self.received_count == self.total_chunks
    }
}

/// A frame while it arrives.
pub struct Assembly {
    pub meta: ChunkMeta,
    pub frame: Seq<u8>,
}

impl Assembly {
    /// The assembly when a chunk comes: the first chunk of a frame starts a
    /// new one.
    pub open spec fn started(self, index: usize, total: usize) -> Assembly {
        if index == 0 {
            Assembly {
                meta: ChunkMeta { total_chunks: total, received_count: 0, offset: 0 },
                frame: super::task_display_handler::blank(),
            }
        } else {
            self
        }
    }

    /// The assembly with a chunk's bytes, as far as they fit.
    pub open spec fn extended(self, data: Seq<u8>) -> Assembly {
        let written = super::task_display_handler::fitting(
            self.meta.offset as int,
            data.len() as int,
        );
        Assembly {
            meta: ChunkMeta {
                total_chunks: self.meta.total_chunks,
                received_count: (self.meta.received_count + 1) as usize,
                offset: (self.meta.offset + written) as usize,
            },
            frame: crate::secure_flash::splice(
                self.frame,
                self.meta.offset as int,
                data.take(written),
            ),
        }
    }

    /// The assembly after a chunk.
    pub open spec fn accept(self, index: usize, total: usize, data: Seq<u8>) -> Assembly {
        self.started(index, total).extended(data)
    }

    /// The assembly after the first chunks of a frame of `total` chunks, in
    /// order.
    pub open spec fn accept_all(self, total: usize, chunks: Seq<Seq<u8>>) -> Assembly
        decreases chunks.len(),
    {
        if chunks.len() == 0 {
            self
        } else {
            self.accept_all(total, chunks.drop_last()).accept(
                (chunks.len() - 1) as usize,
                total,
                chunks.last(),
            )
        }
    }
}

/// A chunk that is stored is the last one that its frame lacked.
pub open spec fn completes(meta: ChunkMeta, index: usize, total: usize) -> bool {
    Assembly { meta, frame: Seq::empty() }.accept(index, total, Seq::empty()).meta.complete()
}

/// What came of a chunk.
#[derive(Debug, Clone, Copy, PartialEq, Eq, Structural)]
pub enum Accepted {
    /// The buffer was in use.
    Locked,
    /// The chunk is in the buffer.
    Stored,
}

/// Puts a chunk's bytes into the buffer, unless that is in use.
pub fn accept_chunk(
    meta: &mut ChunkMeta,
    buffer: Option<&mut Frame>,
    index: usize,
    total: usize,
    data: &[u8],
) -> (r: Accepted)
    requires
        buffer is Some && index != 0 ==> old(meta).received_count < usize::MAX,
    ensures
        match buffer {
            None => {
                &&& r == Accepted::Locked
                &&& *final(meta) == (Assembly { meta: *old(meta), frame: Seq::empty() }.started(
                    index,
                    total,
                ).meta)
            },
            Some(frame) => {
                let after = Assembly { meta: *old(meta), frame: (*frame)@ }.accept(
                    index,
                    total,
                    data@,
                );
                &&& r == Accepted::Stored
                &&& *final(meta) == after.meta
                &&& final(frame)@ == after.frame
            },
        },
{
    match buffer {
        None => {
            if index == 0 {
                meta.reset();
                meta.total_chunks = total;
            }
            Accepted::Locked
        },
        Some(frame) => {
            if index == 0 {
                reset_display_buffer(Some(frame));
                meta.reset();
                meta.total_chunks = total;
            }
            match append_to_display_buffer(Some(frame), data, meta.offset) {
                Some(written) => {
                    meta.offset = meta.offset + written;
                    meta.received_count = meta.received_count + 1;
                    Accepted::Stored
                },
                None => Accepted::Locked,
            }
        },
    }
}

/// Bytes in a row.
pub open spec fn joined(chunks: Seq<Seq<u8>>) -> Seq<u8>
    decreases chunks.len(),
{
    if chunks.len() == 0 {
        Seq::empty()
    } else {
        joined(chunks.drop_last()) + chunks.last()
    }
}

/// The part of a frame's bytes that fits into the buffer.
pub open spec fn visible(bytes: Seq<u8>) -> Seq<u8> {
    if bytes.len() <= DISPLAY_SIZE_IN_BYTES {
        bytes
    } else {
        bytes.take(DISPLAY_SIZE_IN_BYTES as int)
    }
}

/// Chunks that arrive in order make up the frame: the buffer holds their bytes
/// in a row, as far as they fit, and nothing else; and the frame is complete
/// exactly when all its chunks have arrived.
pub proof fn law_chunks_make_up_frame(start: Assembly, total: usize, chunks: Seq<Seq<u8>>)
    requires
        start.frame.len() == DISPLAY_SIZE_IN_BYTES,
        0 < chunks.len() <= total,
    ensures
        ({
            let after = start.accept_all(total, chunks);
            &&& after.frame == crate::secure_flash::splice(
                super::task_display_handler::blank(),
                0,
                visible(joined(chunks)),
            )
            &&& after.meta.offset == visible(joined(chunks)).len()
            &&& after.meta.received_count == chunks.len()
            &&& after.meta.total_chunks == total
            &&& after.meta.complete() <==> chunks.len() == total
        }),
    decreases chunks.len(),
{
    let before = chunks.drop_last();
    let data = chunks.last();
    let blank = super::task_display_handler::blank();
    let earlier = start.accept_all(total, before);
    let started = earlier.started(before.len() as usize, total);
    let a = visible(joined(before));
    if before.len() == 0 {
        assert(joined(before) =~= Seq::<u8>::empty());
        assert(crate::secure_flash::splice(blank, 0, a) =~= blank);
    } else {
        law_chunks_make_up_frame(start, total, before);
    }
    assert(started.frame =~= crate::secure_flash::splice(blank, 0, a));
    assert(started.meta.offset == a.len());
    let written = super::task_display_handler::fitting(a.len() as int, data.len() as int);
    let b = visible(joined(chunks));
    assert(b =~= a + data.take(written));
    assert(started.extended(data).frame =~= crate::secure_flash::splice(blank, 0, b));
}

/// A chunk without its bytes, as the live topics carry it.
#[derive(Debug, Clone, Copy, PartialEq, Eq, Structural)]
pub struct FrameMetadata {
    /// Whether the sender wants a response.
    pub requires_response: bool,
    /// Number of the chunk, from 0 on.
    pub chunk_index: usize,
    /// Chunks that the frame consists of.
    pub total_chunks: usize,
    /// Unix time of the frame.
    pub timestamp: Option<u64>,
    /// Whether to unsubscribe from all dynamic topics once the frame is
    /// complete.
    pub unsubscribe_all: bool,
}

/// What is to be done after a chunk.
#[derive(Debug, Clone, Copy, PartialEq, Eq, Structural)]
pub struct ProcessChunkResult {
    /// Whether to send a response.
    pub send_response: bool,
    /// Whether the response reports success.
    pub success: bool,
    /// Whether to unsubscribe from all dynamic topics.
    pub unsubscribe_all: bool,
    /// Unix time of the frame.
    pub timestamp: Option<u64>,
    /// Whether the frame replaces the screen that reports a lost connection,
    /// so that the flag for that screen is to be cleared.
    pub clears_error: bool,
}

/// What is to be done after a chunk that was stored; `meta` counts it, and
/// `queued` tells whether the display took the frame.
pub open spec fn stored_result(metadata: FrameMetadata, meta: ChunkMeta, queued: bool) ->
    ProcessChunkResult {
    if meta.complete() {
        ProcessChunkResult {
            send_response: true,
            success: queued,
            unsubscribe_all: metadata.unsubscribe_all,
            timestamp: metadata.timestamp,
            clears_error: queued,
        }
    } else {
        ProcessChunkResult {
            send_response: metadata.requires_response,
            success: true,
            unsubscribe_all: false,
            timestamp: metadata.timestamp,
            clears_error: false,
        }
    }
}

/// What is to be done after a chunk that found the buffer in use.
pub open spec fn locked_result(metadata: FrameMetadata) -> ProcessChunkResult {
    ProcessChunkResult {
        send_response: metadata.requires_response,
        success: false,
        unsubscribe_all: false,
        timestamp: metadata.timestamp,
        clears_error: false,
    }
}

/// A chunk that was decoded, with what the live topics add to its metadata. A
/// message that does not give the additions has neither a time nor a wish to
/// unsubscribe.
pub fn frame_of(
    decoded: Result<(usize, ChunkMetadata), &'static str>,
    additions: Option<FrameMetadata>,
) -> (r: Result<(usize, FrameMetadata), &'static str>)
    ensures
        match decoded {
            Err(e) => r == Err::<(usize, FrameMetadata), &'static str>(e),
            Ok((len, m)) => r == Ok::<(usize, FrameMetadata), &'static str>(
                (
                    len,
                    FrameMetadata {
                        requires_response: m.requires_response,
                        chunk_index: m.chunk_index,
                        total_chunks: m.total_chunks,
                        timestamp: match additions {
                            Some(a) => a.timestamp,
                            None => None,
                        },
                        unsubscribe_all: additions matches Some(a) && a.unsubscribe_all,
                    },
                ),
            ),
        },
{
    match decoded {
        Err(e) => Err(e),
        Ok((len, m)) => {
            let (timestamp, unsubscribe_all): (Option<u64>, bool) = match additions {
                Some(a) => (a.timestamp, a.unsubscribe_all),
                None => (None, false),
            };
            let metadata = FrameMetadata {
                requires_response: m.requires_response,
                chunk_index: m.chunk_index,
                total_chunks: m.total_chunks,
                timestamp,
                unsubscribe_all,
            };
            Ok((len, metadata))
        },
    }
}

/// Takes in a chunk that was decoded into `decode_buf`. When it completes a
/// frame, the display is told, and only then. `decoded` is what decoding
/// returned: the number of bytes and the metadata, or an error. `try_send`
/// sends a message to the display and returns whether there was room.
pub fn process_chunk<S: FnOnce(DisplayMessage) -> bool>(
    decoded: Result<(usize, FrameMetadata), &'static str>,
    decode_buf: &[u8],
    meta: &mut ChunkMeta,
    buffer: Option<&mut Frame>,
    try_send: S,
) -> (r: Result<ProcessChunkResult, &'static str>)
    requires
        (decoded matches Ok((_, metadata)) && buffer is Some && metadata.chunk_index != 0) ==> old(
            meta,
        ).received_count < usize::MAX,
        decoded matches Ok((len, _)) ==> len <= decode_buf@.len(),
        (decoded matches Ok((_, metadata)) && buffer is Some && completes(
            *old(meta),
            metadata.chunk_index,
            metadata.total_chunks,
        )) ==> call_requires(try_send, (DisplayMessage::RawBinary,)),
    ensures
        match decoded {
            Err(e) => r == Err::<ProcessChunkResult, &'static str>(e) && *final(meta) == *old(meta),
            Ok((len, metadata)) => match buffer {
                None => {
                    &&& r == Ok::<ProcessChunkResult, &'static str>(locked_result(metadata))
                    &&& *final(meta) == (Assembly { meta: *old(meta), frame: Seq::empty() }.started(
                        metadata.chunk_index,
                        metadata.total_chunks,
                    ).meta)
                },
                Some(frame) => {
                    let after = Assembly { meta: *old(meta), frame: (*frame)@ }.accept(
                        metadata.chunk_index,
                        metadata.total_chunks,
                        decode_buf@.take(len as int),
                    );
                    &&& final(frame)@ == after.frame
                    &&& if after.meta.complete() {
                        &&& *final(meta) == ChunkMeta::empty()
                        &&& exists|queued: bool| #[trigger]
                            call_ensures(try_send, (DisplayMessage::RawBinary,), queued) && r
                                == Ok::<ProcessChunkResult, &'static str>(
                                stored_result(metadata, after.meta, queued),
                            )
                    } else {
                        &&& *final(meta) == after.meta
                        &&& r == Ok::<ProcessChunkResult, &'static str>(
                            stored_result(metadata, after.meta, false),
                        )
                    }
                },
            },
        },
        decoded is Err ==> (buffer matches Some(frame) ==> final(frame)@ == (*frame)@),
{
    let (len, metadata): (usize, FrameMetadata) = match decoded {
        Ok(d) => d,
        Err(e) => {
            return Err(e);
        },
    };
    let data: &[u8] = &decode_buf[0..len];
    match accept_chunk(meta, buffer, metadata.chunk_index, metadata.total_chunks, data) {
        Accepted::Locked => {
            return Ok(
                ProcessChunkResult {
                    send_response: metadata.requires_response,
                    success: false,
                    unsubscribe_all: false,
                    timestamp: metadata.timestamp,
                    clears_error: false,
                },
            );
        },
        Accepted::Stored => {},
    }
    if meta.is_complete() {
        let sent: Queued = queue_frame_ready(try_send);
        let queued: bool = match sent {
            Queued::SentClearsError => true,
            _ => false,
        };
        meta.reset();
        return Ok(
            ProcessChunkResult {
                send_response: true,
                success: queued,
                unsubscribe_all: metadata.unsubscribe_all,
                timestamp: metadata.timestamp,
                clears_error: queued,
            },
        );
    }
    Ok(
        ProcessChunkResult {
            send_response: metadata.requires_response,
            success: true,
            unsubscribe_all: false,
            timestamp: metadata.timestamp,
            clears_error: false,
        },
    )
}

/// A chunk that is stored is the last one of its frame: it is the only one, or
/// all others have been counted.
pub open spec fn is_last(metadata: FrameMetadata, counted: ChunkMeta) -> bool {
    if metadata.chunk_index == 0 {
        metadata.total_chunks == 1
    } else {
        counted.received_count + 1 == counted.total_chunks
    }
}

/// What a chunk is reported as. All topics are dropped exactly when the last
/// chunk of a frame asks for it. The last chunk is always answered, any other
/// exactly when its sender wants that. The answer reports success unless the
/// buffer was in use or the display had no room for the frame. The time is
/// the one that the chunk carries.
pub proof fn law_chunk_report<S: FnOnce(DisplayMessage) -> bool>(
    decoded: Result<(usize, FrameMetadata), &'static str>,
    decode_buf: &[u8],
    meta: &mut ChunkMeta,
    buffer: Option<&mut Frame>,
    try_send: S,
    r: Result<ProcessChunkResult, &'static str>,
)
    requires
        call_ensures(process_chunk::<S>, (decoded, decode_buf, meta, buffer, try_send), r),
        decoded matches Ok((_, metadata)) ==> metadata.chunk_index == 0 || old(meta).received_count
            < usize::MAX,
    ensures
        match (decoded, r) {
            (Err(e), _) => r == Err::<ProcessChunkResult, &'static str>(e) && *final(meta) == *old(
                meta,
            ),
            (Ok(_), Err(_)) => false,
            (Ok((_, metadata)), Ok(report)) => {
                let last = buffer is Some && is_last(metadata, *old(meta));
                &&& report.unsubscribe_all <==> metadata.unsubscribe_all && last
                &&& report.send_response <==> metadata.requires_response || last
                &&& report.timestamp == metadata.timestamp
                &&& buffer is None ==> !report.success
                &&& buffer is Some && !last ==> report.success
                &&& last ==> call_ensures(
                    try_send,
                    (DisplayMessage::RawBinary,),
                    report.success,
                )
                &&& report.clears_error <==> last && report.success
            },
        },
{
}

/// A frame that is complete leaves nothing behind: the next frame is counted
/// from the start. Until then, each chunk that is stored counts once, the
/// first one starts the count, and one that finds the buffer in use does not
/// count.
pub proof fn law_chunks_are_counted<S: FnOnce(DisplayMessage) -> bool>(
    len: usize,
    metadata: FrameMetadata,
    decode_buf: &[u8],
    meta: &mut ChunkMeta,
    buffer: Option<&mut Frame>,
    try_send: S,
    r: Result<ProcessChunkResult, &'static str>,
)
    requires
        call_ensures(
            process_chunk::<S>,
            (Ok((len, metadata)), decode_buf, meta, buffer, try_send),
            r,
        ),
        metadata.chunk_index == 0 || old(meta).received_count < usize::MAX,
    ensures
        ({
            let counted = if metadata.chunk_index == 0 {
                0int
            } else {
                old(meta).received_count as int
            };
            let wanted = if metadata.chunk_index == 0 {
                metadata.total_chunks
            } else {
                old(meta).total_chunks
            };
            if buffer is None {
                final(meta).received_count == counted && final(meta).total_chunks == wanted
            } else if counted + 1 == wanted {
                &&& final(meta).received_count == 0
                &&& final(meta).total_chunks == 0
                &&& final(meta).offset == 0
            } else {
                final(meta).received_count == counted + 1 && final(meta).total_chunks == wanted
            }
        }),
{
}

/// The live topics add a time and a wish to unsubscribe, and change nothing
/// else of a chunk.
pub proof fn law_additions(
    decoded: Result<(usize, ChunkMetadata), &'static str>,
    additions: Option<FrameMetadata>,
    r: Result<(usize, FrameMetadata), &'static str>,
)
    requires
        call_ensures(frame_of, (decoded, additions), r),
    ensures
        match (decoded, r) {
            (Err(e), Err(f)) => e == f,
            (Ok((n, chunk)), Ok((m, frame))) => {
                &&& m == n
                &&& frame.requires_response <==> chunk.requires_response
                &&& frame.chunk_index == chunk.chunk_index
                &&& frame.total_chunks == chunk.total_chunks
                &&& frame.unsubscribe_all ==> additions is Some
                &&& frame.timestamp is Some ==> additions is Some
                &&& additions matches Some(a) ==> frame.timestamp == a.timestamp
                    && frame.unsubscribe_all == a.unsubscribe_all
            },
            _ => false,
        },
{
}

/// A frame that comes in one chunk is what is shown: its bytes, as far as they
/// fit, with nothing of the frame before behind them.
pub proof fn law_frame_in_one_chunk<S: FnOnce(DisplayMessage) -> bool>(
    len: usize,
    metadata: FrameMetadata,
    decode_buf: &[u8],
    meta: &mut ChunkMeta,
    frame: &mut Frame,
    try_send: S,
    r: Result<ProcessChunkResult, &'static str>,
)
    requires
        call_ensures(
            process_chunk::<S>,
            (Ok((len, metadata)), decode_buf, meta, Some(frame), try_send),
            r,
        ),
        metadata.chunk_index == 0,
        metadata.total_chunks == 1,
        len <= decode_buf@.len(),
    ensures
        forall|i: int|
            0 <= i < 15_000 ==> #[trigger] final(frame)@[i] == (if i < len {
                decode_buf@[i]
            } else {
                0
            }),
{
}

/// The count of chunks begins at nothing and can be set back to that. A frame is
/// complete when as many chunks have arrived as it consists of, and at least
/// one.
pub proof fn law_count(new: ChunkMeta, meta: &ChunkMeta, done: bool, old_meta: &mut ChunkMeta)
    requires
        call_ensures(ChunkMeta::new, (), new),
        call_ensures(ChunkMeta::is_complete, (meta,), done),
        call_ensures(ChunkMeta::reset, (old_meta,), ()),
    ensures
        new.total_chunks == 0 && new.received_count == 0 && new.offset == 0,
        *final(old_meta) == new,
        done <==> meta.received_count > 0 && meta.received_count == meta.total_chunks,
{
}

/// A chunk goes into the buffer right after what is there, as far as there is
/// room, and nothing else in the buffer changes; the first chunk of a frame goes
/// to the beginning of a blank buffer. A buffer that is in use takes no chunk.
pub proof fn law_chunk_is_accepted(
    meta: &mut ChunkMeta,
    buffer: Option<&mut Frame>,
    index: usize,
    total: usize,
    data: &[u8],
    r: Accepted,
)
    requires
        call_ensures(accept_chunk, (meta, buffer, index, total, data), r),
        index != 0 ==> old(meta).offset <= 15_000 && old(meta).received_count < usize::MAX,
    ensures
        r == Accepted::Locked <==> buffer is None,
        final(meta).total_chunks == if index == 0 {
            total
        } else {
            old(meta).total_chunks
        },
        ({
            let start = if index == 0 {
                0
            } else {
                old(meta).offset as int
            };
            let counted = if index == 0 {
                0
            } else {
                old(meta).received_count as int
            };
            match buffer {
                None => final(meta).offset == start && final(meta).received_count == counted,
                Some(frame) => {
                    &&& final(meta).received_count == counted + 1
                    &&& final(meta).offset == if start + data@.len() <= 15_000 {
                        start + data@.len()
                    } else {
                        15_000
                    }
                    &&& forall|i: int|
                        0 <= i < 15_000 ==> #[trigger] final(frame)@[i] == if start <= i < start
                            + data@.len() {
                            data@[i - start]
                        } else if index == 0 {
                            0
                        } else {
                            (*frame)@[i]
                        }
                },
            }
        }),
{
}

} // verus!
