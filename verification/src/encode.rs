//! The two ends of a plain stream of pieces: the decoder that gathers the
//! pieces of a chunk and says what it misses, and the encoder that sends
//! them, in the order of their indices, as far as it is asked to.

use vstd::prelude::*;
use std::ops::Range;
use vstd::slice::slice_subrange;
use crate::error::ErrorCode;
use crate::protocol::piece_header;
use crate::protocol::PieceData;
use crate::protocol::PieceDataView;
use crate::protocol::PieceDesc;
use crate::raw::put_bytes;
use crate::stream::covered;
use crate::stream::lemma_piece_index;
use crate::stream::piece_count;
use crate::stream::piece_len;
use crate::stream::runs;
use crate::stream::ChunkStreamCache;
use crate::stream::StreamCacheView;
use crate::types::elapsed;
use crate::types::has_elapsed;
use crate::types::ChannelConfig;
use crate::types::ChunkId;
use crate::types::ChunkIdView;
use crate::types::TempSeq;
use crate::types::Timestamp;

verus! {

// ---- decoder ----------------------------------------------------------------

/// What a decoder misses: the greatest index it has seen, where it has seen
/// any, and the runs of pieces up to that one that are not there.
#[derive(Debug)]
pub struct LossReport {
    pub max_index: Option<u32>,
    pub lost_index: Vec<Range<u32>>,
}

/// Gathers the pieces of one chunk as they come in.
#[derive(Debug)]
pub struct StreamDecoder {
    cache: ChunkStreamCache,
    max_index: Option<u32>,
    last_recv: Timestamp,
    last_ctrl: Timestamp,
}

/// A decoder as plain values.
pub ghost struct StreamDecoderView {
    /// The pieces so far.
    pub cache: StreamCacheView,
    /// The greatest index seen so far.
    pub max_index: Option<u32>,
    /// When the last piece was taken in; when the decoder was made, until
    /// then.
    pub last_recv: Timestamp,
    /// When the decoder last said what it misses; when it was made, until
    /// then.
    pub last_ctrl: Timestamp,
}

impl View for StreamDecoder {
    type V = StreamDecoderView;

    closed spec fn view(&self) -> StreamDecoderView {
        StreamDecoderView {
            cache: self.cache@,
            max_index: self.max_index,
            last_recv: self.last_recv,
            last_ctrl: self.last_ctrl,
        }
    }
}

/// The greater of the greatest index seen so far and `index`.
pub open spec fn max_seen(so_far: Option<u32>, index: u32) -> Option<u32> {
    match so_far {
        Some(m) => if m >= index {
            Some(m)
        } else {
            Some(index)
        },
        None => Some(index),
    }
}

impl StreamDecoderView {
    /// The decoder after a piece came in at `now`: a piece of this chunk is
    /// seen, and taken in where its index was not there.
    pub open spec fn pushed(self, piece: PieceDataView, now: Timestamp) -> StreamDecoderView {
        if self.cache.accepts(piece) {
            StreamDecoderView {
                cache: self.cache.pushed(piece),
                max_index: max_seen(self.max_index, piece.desc.index()),
                last_recv: if self.cache.takes(piece) {
                    now
                } else {
                    self.last_recv
                },
                last_ctrl: self.last_ctrl,
            }
        } else {
            self
        }
    }

    /// Whether the decoder gives up at `now`: pieces are missing, and none
    /// came for longer than the channel goes on asking.
    pub open spec fn gives_up(self, now: Timestamp, config: ChannelConfig) -> bool {
        !self.cache.complete() && elapsed(now, self.last_recv, config.resend_timeout)
    }

    /// Whether the decoder says at `now` what it misses: pieces are missing,
    /// it does not give up, and it has not said so for longer than the
    /// channel waits before asking again.
    pub open spec fn reports(self, now: Timestamp, config: ChannelConfig) -> bool {
        !self.cache.complete() && !self.gives_up(now, config) && elapsed(
            now,
            self.last_ctrl,
            config.resend_interval,
        )
    }

    /// The decoder after the clock was read at `now`.
    pub open spec fn ticked(self, now: Timestamp, config: ChannelConfig) -> StreamDecoderView {
        if self.reports(now, config) {
            StreamDecoderView {
                cache: self.cache,
                max_index: self.max_index,
                last_recv: self.last_recv,
                last_ctrl: now,
            }
        } else {
            self
        }
    }

    /// Whether piece `i` is missed.
    pub open spec fn lost(self, i: int) -> bool {
        self.max_index matches Some(m) && self.cache.lost(m, i)
    }
}

impl StreamDecoder {
    /// What always holds of a decoder.
    pub open spec fn wf(&self) -> bool {
        self@.cache.wf()
    }

    /// A decoder for `chunk`, cut into pieces of `piece_size` bytes, made at
    /// `now`, with no piece there. There are no pieces of no bytes:
    /// `InvalidParam`.
    pub fn new(chunk: &ChunkId, piece_size: u16, now: Timestamp) -> (r: Result<
        StreamDecoder,
        ErrorCode,
    >)
        ensures
            r is Ok <==> piece_size > 0,
            r matches Ok(d) ==> d.wf() && d@ == (StreamDecoderView {
                cache: StreamCacheView::empty(chunk@, piece_size as nat),
                max_index: None,
                last_recv: now,
                last_ctrl: now,
            }),
            r matches Err(e) ==> e == ErrorCode::InvalidParam,
    {
        let cache = ChunkStreamCache::with_piece_size(chunk, piece_size)?;
        Ok(Self { cache, max_index: None, last_recv: now, last_ctrl: now })
    }

    /// The pieces so far.
    pub fn cache(&self) -> (c: &ChunkStreamCache)
        ensures
            c@ == self@.cache,
    {
        &self.cache
    }

    /// Takes in a piece that came at `now`, and says whether the chunk is
    /// whole now. A piece that is not one of this chunk, cut this way, is
    /// refused with `InvalidParam`, and nothing changes.
    pub fn push_piece_data(&mut self, piece: &PieceData, now: Timestamp) -> (r: Result<
        bool,
        ErrorCode,
    >)
        requires
            old(self).wf(),
        ensures
            final(self).wf(),
            final(self)@ == old(self)@.pushed(piece@, now),
            r is Ok <==> old(self)@.cache.accepts(piece@),
            r matches Ok(whole) ==> whole == final(self)@.cache.complete(),
            r matches Err(e) ==> e == ErrorCode::InvalidParam,
    {
        let index: u32 = match piece.desc {
            PieceDesc::Range(index, _) => index,
            PieceDesc::Raptor(index, _) => index,
        };
        let was_there: bool = self.cache.has(index);
        match self.cache.push(piece) {
            Ok(_) => {
                self.max_index = match self.max_index {
                    Some(m) => if m >= index {
                        Some(m)
                    } else {
                        Some(index)
                    },
                    None => Some(index),
                };
                if !was_there {
                    self.last_recv = now;
                }
                Ok(self.cache.is_complete())
            },
            Err(e) => Err(e),
        }
    }

    /// Reads the clock at `now`. Where the chunk is whole, nothing happens.
    /// Where no piece came for longer than the channel goes on asking, the
    /// decoder gives up: `Timeout`. Where it has not said what it misses
    /// for longer than the channel waits before asking again, it says so
    /// now. Else nothing happens.
    pub fn on_time_escape(&mut self, now: Timestamp, config: &ChannelConfig) -> (r: Result<
        Option<LossReport>,
        ErrorCode,
    >)
        requires
            old(self).wf(),
        ensures
            final(self).wf(),
            final(self)@ == old(self)@.ticked(now, *config),
            r is Err <==> old(self)@.gives_up(now, *config),
            r matches Err(e) ==> e == ErrorCode::Timeout,
            r matches Ok(o) ==> (o is Some <==> old(self)@.reports(now, *config)),
            r matches Ok(Some(report)) ==> report.max_index == old(self)@.max_index && runs(
                report.lost_index@,
            ) && forall|i: int| covered(report.lost_index@, i) <==> old(self)@.lost(i),
    {
        if self.cache.is_complete() {
            return Ok(None);
        }
        if has_elapsed(now, self.last_recv, config.resend_timeout) {
            return Err(ErrorCode::Timeout);
        }
        if !has_elapsed(now, self.last_ctrl, config.resend_interval) {
            return Ok(None);
        }
        self.last_ctrl = now;
        let lost_index: Vec<Range<u32>> = match self.max_index {
            Some(m) => self.cache.lost_ranges(m),
            None => {
                let none: Vec<Range<u32>> = Vec::new();
                assert forall|i: int| !covered(none@, i) by {}
                none
            },
        };
        Ok(Some(LossReport { max_index: self.max_index, lost_index }))
    }

    /// The content of the chunk, where it is whole.
    pub fn chunk_content(&self) -> (r: Option<Vec<u8>>)
        requires
            self.wf(),
        ensures
            r is Some <==> self@.cache.complete(),
            r matches Some(v) ==> v@ == self@.cache.content(),
    {
        self.cache.chunk_content()
    }
}

// ---- encoder ----------------------------------------------------------------

/// Whether `q` goes up: each index is greater than the one before it.
pub open spec fn increasing(q: Seq<u32>) -> bool {
    forall|a: int, b: int| 0 <= a < b < q.len() ==> (#[trigger] q[a]) < (#[trigger] q[b])
}

/// Whether piece `i` of `n` is asked for by one who has seen piece
/// `max_index` and misses the pieces in `lost`: it is one of those, or it
/// comes after `max_index`.
pub open spec fn wanted(n: int, max_index: u32, lost: Seq<Range<u32>>, i: int) -> bool {
    0 <= i < n && (i > max_index || covered(lost, i))
}

/// Sends the pieces of one chunk.
#[derive(Debug)]
pub struct StreamEncoder {
    chunk: ChunkId,
    piece_size: usize,
    content: Vec<u8>,
    queue: Vec<u32>,
    head: usize,
}

/// An encoder as plain values.
pub ghost struct StreamEncoderView {
    pub chunk: ChunkIdView,
    /// The size of every piece but the last.
    pub piece_size: nat,
    /// The content of the chunk.
    pub content: Seq<u8>,
    /// The indices of the pieces that are yet to be sent, in the order in
    /// which they will be.
    pub pending: Seq<u32>,
}

impl View for StreamEncoder {
    type V = StreamEncoderView;

    closed spec fn view(&self) -> StreamEncoderView {
        StreamEncoderView {
            chunk: self.chunk@,
            piece_size: self.piece_size as nat,
            content: self.content@,
            pending: self.queue@.skip(self.head as int),
        }
    }
}

impl StreamEncoderView {
    /// The number of pieces of the chunk.
    pub open spec fn piece_count(self) -> int {
        piece_count(self.chunk.len as int, self.piece_size as int)
    }

    /// Piece `index` of the chunk, as it is sent on session `session_id`.
    pub open spec fn piece(self, index: u32, session_id: TempSeq) -> PieceDataView {
        PieceDataView {
            est_seq: None,
            session_id,
            chunk: self.chunk,
            desc: PieceDesc::Range(index, self.piece_size as u16),
            data: self.content.subrange(
                index * self.piece_size,
                index * self.piece_size + piece_len(
                    self.chunk.len as int,
                    self.piece_size as int,
                    index as int,
                ),
            ),
        }
    }

    /// What always holds of an encoder: it has the whole content, and the
    /// pieces yet to be sent are pieces of the chunk, each once, in the
    /// order of their indices.
    pub open spec fn wf(self) -> bool {
        &&& 0 < self.piece_size <= u16::MAX
        &&& self.chunk.hash.len() == 28
        &&& self.content.len() == self.chunk.len
        &&& increasing(self.pending)
        &&& forall|k: int| 0 <= k < self.pending.len() ==> (#[trigger] self.pending[k])
            < self.piece_count()
    }

    /// The encoder with other pieces to send.
    pub open spec fn with_pending(self, pending: Seq<u32>) -> StreamEncoderView {
        StreamEncoderView {
            chunk: self.chunk,
            piece_size: self.piece_size,
            content: self.content,
            pending,
        }
    }
}

/// Whether index `i` lies in one of `ranges`.
fn in_ranges(ranges: &Vec<Range<u32>>, i: u32) -> (b: bool)
    ensures
        b == covered(ranges@, i as int),
{
    let n: usize = ranges.len();
    let mut k: usize = 0;
    while k < n
        invariant
            n == ranges@.len(),
            k <= n,
            forall|m: int| 0 <= m < k ==> !((#[trigger] ranges@[m]).start <= i < ranges@[m].end),
        decreases n - k,
    {
        if ranges[k].start <= i && i < ranges[k].end {
            return true;
        }
        k += 1;
    }
    false
}

impl StreamEncoder {
    /// What always holds of an encoder.
    pub closed spec fn wf(&self) -> bool {
        &&& self@.wf()
        &&& self.head <= self.queue@.len()
    }

    /// What always holds of an encoder holds of it as plain values.
    pub proof fn lemma_wf_view(&self)
        requires
            self.wf(),
        ensures
            self@.wf(),
    {
    }

    /// An encoder for `chunk` with the content `content`, cut into pieces of
    /// `piece_size` bytes, with every piece yet to be sent. `InvalidParam`
    /// where there would be pieces of no bytes, or `content` has not the
    /// length of the chunk.
    pub fn new(chunk: &ChunkId, piece_size: u16, content: Vec<u8>) -> (r: Result<
        StreamEncoder,
        ErrorCode,
    >)
        ensures
            r is Ok <==> piece_size > 0 && content@.len() == chunk@.len,
            r matches Ok(e) ==> e.wf() && e@.chunk == chunk@ && e@.piece_size == piece_size
                && e@.content == content@ && e@.pending.len() == e@.piece_count() && forall|
                i: int,
            |
                0 <= i < e@.piece_count() ==> (#[trigger] e@.pending[i]) == i,
            r matches Err(e) ==> e == ErrorCode::InvalidParam,
    {
        if piece_size == 0 || content.len() != chunk.len() {
            return Err(ErrorCode::InvalidParam);
        }
        let mut e = Self {
            chunk: *chunk,
            piece_size: piece_size as usize,
            content,
            queue: Vec::new(),
            head: 0,
        };
        proof {
            chunk.lemma_view_fits();
        }
        e.reset();
        Ok(e)
    }

    /// The number of pieces of the chunk.
    pub fn piece_count(&self) -> (n: usize)
        requires
            self.wf(),
        ensures
            n == self@.piece_count(),
    {
        let len: usize = self.chunk.len();
        let p: usize = self.piece_size;
        proof {
            lemma_piece_index(len as int, p as int, 0);
        }
        if len % p == 0 {
            len / p
        } else {
            len / p + 1
        }
    }

    /// The number of pieces that are yet to be sent.
    pub fn pending(&self) -> (n: usize)
        requires
            self.wf(),
        ensures
            n == self@.pending.len(),
    {
        self.queue.len() - self.head
    }

    /// Starts over: every piece of the chunk is yet to be sent, from the
    /// first on.
    pub fn reset(&mut self)
        requires
            0 < old(self)@.piece_size <= u16::MAX,
            old(self)@.chunk.hash.len() == 28,
            old(self)@.content.len() == old(self)@.chunk.len,
        ensures
            final(self).wf(),
            final(self)@ == old(self)@.with_pending(final(self)@.pending),
            final(self)@.pending.len() == old(self)@.piece_count(),
            forall|i: int|
                0 <= i < old(self)@.piece_count() ==> (#[trigger] final(self)@.pending[i]) == i,
    {
        let len: usize = self.chunk.len();
        let p: usize = self.piece_size;
        proof {
            lemma_piece_index(len as int, p as int, 0);
        }
        let n: usize = if len % p == 0 {
            len / p
        } else {
            len / p + 1
        };
        let mut queue: Vec<u32> = Vec::new();
        let mut i: usize = 0;
        while i < n
            invariant
                n <= u32::MAX,
                i <= n,
                queue@.len() == i,
                forall|k: int| 0 <= k < i ==> (#[trigger] queue@[k]) == k,
            decreases n - i,
        {
            queue.push(i as u32);
            i += 1;
        }
        self.queue = queue;
        self.head = 0;
        proof {
            assert(self.queue@.skip(0) =~= self.queue@);
        }
    }

    /// Takes a downloader's word for what to send: from now on, only the
    /// pieces in `lost_index` and those behind `max_index` are yet to be
    /// sent, each once, in the order of their indices.
    pub fn merge(&mut self, max_index: u32, lost_index: &Vec<Range<u32>>)
        requires
            old(self).wf(),
        ensures
            final(self).wf(),
            final(self)@ == old(self)@.with_pending(final(self)@.pending),
            forall|i: int|
                final(self)@.pending.contains(i as u32) && 0 <= i <= u32::MAX <==> wanted(
                    old(self)@.piece_count(),
                    max_index,
                    lost_index@,
                    i,
                ),
    {
        let n: usize = self.piece_count();
        proof {
            lemma_piece_index(self@.chunk.len as int, self@.piece_size as int, 0);
        }
        let mut queue: Vec<u32> = Vec::new();
        let mut i: usize = 0;
        while i < n
            invariant
                n <= u32::MAX,
                n == self@.piece_count(),
                i <= n,
                increasing(queue@),
                forall|k: int| 0 <= k < queue@.len() ==> (#[trigger] queue@[k]) < i,
                forall|j: int|
                    queue@.contains(j as u32) && 0 <= j <= u32::MAX <==> j < i && wanted(
                        n as int,
                        max_index,
                        lost_index@,
                        j,
                    ),
            decreases n - i,
        {
            let ghost before = queue@;
            let index: u32 = i as u32;
            if index > max_index || in_ranges(lost_index, index) {
                queue.push(index);
                proof {
                    assert forall|j: int|
                        queue@.contains(j as u32) && 0 <= j <= u32::MAX <==> j < i + 1 && wanted(
                            n as int,
                            max_index,
                            lost_index@,
                            j,
                        ) by {
                        if queue@.contains(j as u32) && 0 <= j <= u32::MAX {
                            let k = choose|k: int| 0 <= k < queue@.len() && queue@[k] == j as u32;
                            if k < before.len() {
                                assert(before[k] == j as u32);
                                assert(before.contains(j as u32));
                            }
                        }
                        if j < i && wanted(n as int, max_index, lost_index@, j) {
                            assert(before.contains(j as u32));
                            let k = choose|k: int| 0 <= k < before.len() && before[k] == j as u32;
                            assert(queue@[k] == j as u32);
                        }
                        if j == i {
                            assert(queue@[before.len() as int] == j as u32);
                        }
                    }
                }
            } else {
                proof {
                    assert forall|j: int|
                        queue@.contains(j as u32) && 0 <= j <= u32::MAX <==> j < i + 1 && wanted(
                            n as int,
                            max_index,
                            lost_index@,
                            j,
                        ) by {
                        if queue@.contains(j as u32) && 0 <= j <= u32::MAX {
                            let k = choose|k: int| 0 <= k < queue@.len() && queue@[k] == j as u32;
                            assert(queue@[k] < i);
                        }
                    }
                }
            }
            i += 1;
        }
        self.queue = queue;
        self.head = 0;
        proof {
            assert(self.queue@.skip(0) =~= self.queue@);
        }
    }

    /// Sends the next piece: writes the frame of the first piece that is yet
    /// to be sent into the front of `buf`, for session `session_id`, and
    /// returns the length of the frame; that piece is sent then. Where no
    /// piece is yet to be sent, writes nothing and returns 0. Where `buf`
    /// has no room for the frame: `InvalidParam`, and nothing changes.
    pub fn next_piece(&mut self, session_id: &TempSeq, buf: &mut [u8]) -> (r: Result<
        usize,
        ErrorCode,
    >)
        requires
            old(self).wf(),
        ensures
            final(self).wf(),
            final(buf)@.len() == old(buf)@.len(),
            r matches Ok(n) ==> (n == 0 <==> old(self)@.pending.len() == 0),
            old(self)@.pending.len() == 0 ==> r == Ok::<usize, ErrorCode>(0) && final(self)@
                == old(self)@ && final(buf)@ == old(buf)@,
            old(self)@.pending.len() > 0 ==> {
                let frame = old(self)@.piece(old(self)@.pending[0], *session_id).frame();
                if frame.len() <= old(buf)@.len() {
                    r is Ok && r->Ok_0 == frame.len() && final(buf)@ == frame
                        + old(buf)@.skip(frame.len() as int) && final(self)@
                        == old(self)@.with_pending(
                        old(self)@.pending.skip(1),
                    )
                } else {
                    r == Err::<usize, ErrorCode>(ErrorCode::InvalidParam) && final(self)@
                        == old(self)@ && final(buf)@ == old(buf)@
                }
            },
    {
        if self.head >= self.queue.len() {
            return Ok(0);
        }
        let index: u32 = self.queue[self.head];
        let p: u64 = self.piece_size as u64;
        let len: u64 = self.chunk.len() as u64;
        proof {
            assert(self@.pending[0] == index);
            lemma_piece_index(len as int, p as int, index as int);
            assert(index * p <= u32::MAX * u16::MAX) by (nonlinear_arith)
                requires
                    0 <= index <= u32::MAX,
                    0 <= p <= u16::MAX,
            ;
            assert((index + 1) * p == index * p + p) by (nonlinear_arith);
        }
        let start: u64 = (index as u64) * p;
        let end: u64 = if start + p <= len {
            start + p
        } else {
            len
        };
        let size: usize = (end - start) as usize;
        if buf.len() < 48 || buf.len() - 48 < size {
            return Err(ErrorCode::InvalidParam);
        }
        let desc = PieceDesc::Range(index, self.piece_size as u16);
        let data: &[u8] = slice_subrange(self.content.as_slice(), start as usize, end as usize);
        let rest = match PieceData::encode_header(buf, session_id, &self.chunk, &desc) {
            Ok(rest) => rest,
            Err(e) => {
                return Err(e);
            },
        };
        match put_bytes(rest, data) {
            Ok(_) => {},
            Err(e) => {
                return Err(e);
            },
        }
        self.head = self.head + 1;
        proof {
            let frame = old(self)@.piece(index, *session_id).frame();
            assert(frame == piece_header(None, *session_id, self@.chunk, desc) + data@);
            assert(buf@ =~= frame + old(buf)@.skip(frame.len() as int));
            assert(self@.pending =~= old(self)@.pending.skip(1));
        }
        Ok(48 + size)
    }
}

/// After a downloader's word, the pieces yet to be sent are exactly those
/// it asked for, each once: the pieces in the lost ranges and those behind
/// the greatest index seen.
pub proof fn lemma_merge_sends_each_once(
    pending: Seq<u32>,
    n: int,
    max_index: u32,
    lost: Seq<Range<u32>>,
)
    requires
        increasing(pending),
        forall|i: int|
            pending.contains(i as u32) && 0 <= i <= u32::MAX <==> wanted(n, max_index, lost, i),
    ensures
        pending.no_duplicates(),
        forall|k: int|
            0 <= k < pending.len() ==> wanted(n, max_index, lost, (#[trigger] pending[k]) as int),
        forall|i: int|
            wanted(n, max_index, lost, i) ==> exists|k: int|
                0 <= k < pending.len() && pending[k] == i,
{
    assert forall|k: int| 0 <= k < pending.len() implies wanted(
        n,
        max_index,
        lost,
        (#[trigger] pending[k]) as int,
    ) by {
        assert(pending.contains(pending[k]));
    }
    assert forall|i: int| wanted(n, max_index, lost, i) implies exists|k: int|
        0 <= k < pending.len() && pending[k] == i by {
        assert(pending.contains(i as u32));
        let k = choose|k: int| 0 <= k < pending.len() && pending[k] == i as u32;
        assert(pending[k] == i);
    }
}

} // verus!
