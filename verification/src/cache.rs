//! One chunk as its readers see it: the bytes that are there, and who
//! waits for those that are not.

use vstd::prelude::*;
use std::ops::Range;
use crate::encode::StreamEncoder;
use crate::error::ErrorCode;
use crate::protocol::PieceData;
use crate::stream::lemma_byte_place;
use crate::stream::lemma_piece_index;
use crate::stream::ChunkStreamCache;
use crate::stream::ReadState;
use crate::stream::StreamCacheView;
use crate::stream::WaitState;
use crate::types::ChunkId;

verus! {

/// What one who asks for a range of a chunk is told.
#[derive(Debug, PartialEq, Eq)]
pub enum RangeWait {
    /// The range is there, as far as it lies within the chunk: these bytes.
    Ready(Range<usize>),
    /// A piece of the range is not there; the ticket will be redeemed when
    /// it comes.
    Pending(u64),
}

impl StreamCacheView {
    /// What of `range` lies within the chunk: nothing at the end of the
    /// chunk for a range that starts behind it, and the range cut at the
    /// end of the chunk else.
    pub open spec fn effective(self, range: Range<usize>) -> Range<usize> {
        if range.start >= self.len() {
            Range { start: self.len() as usize, end: self.len() as usize }
        } else if range.end == 0 {
            Range { start: 0, end: 0 }
        } else if range.end > self.len() {
            Range { start: range.start, end: self.len() as usize }
        } else {
            range
        }
    }

    /// Whether piece `i` holds a byte of `range`.
    pub open spec fn touches(self, range: Range<usize>, i: int) -> bool {
        let e = self.effective(range);
        e.start < e.end && e.start as int / (self.piece_size as int) <= i <= (e.end - 1) / (
        self.piece_size as int)
    }

    /// Whether piece `i` is the first that holds a byte of `range` and is
    /// not there.
    pub open spec fn first_missing(self, range: Range<usize>, i: int) -> bool {
        &&& self.touches(range, i)
        &&& !self.has(i)
        &&& 0 <= i <= u32::MAX
        &&& forall|j: int| self.touches(range, j) && j < i ==> #[trigger] self.has(j)
    }

    /// Whether every piece that holds a byte of `range` is there.
    pub open spec fn has_range(self, range: Range<usize>) -> bool {
        forall|i: int| self.touches(range, i) ==> #[trigger] self.has(i)
    }

    /// The number of bytes that a reader with room for `room` bytes reads
    /// from place `offset` of the chunk on: what of the chunk lies behind
    /// `offset`, or as much of it as there is room for.
    pub open spec fn read_count(self, offset: int, room: int) -> int {
        if offset >= self.len() {
            0
        } else if room < self.len() - offset {
            room
        } else {
            self.len() - offset
        }
    }
}

/// One chunk as its readers see it.
#[derive(Debug)]
pub struct ChunkCache {
    chunk: ChunkId,
    stream_cache: ChunkStreamCache,
    error: Option<ErrorCode>,
}

impl View for ChunkCache {
    type V = StreamCacheView;

    closed spec fn view(&self) -> StreamCacheView {
        self.stream_cache@
    }
}

impl ChunkCache {
    /// What always holds of a cache.
    pub closed spec fn wf(&self) -> bool {
        &&& self.stream_cache.wf()
        &&& self.chunk@ == self.stream_cache@.chunk
    }

    /// Why the fetching of the chunk was given up, where it was: whoever
    /// asks for a piece that is not there is told so.
    pub closed spec fn error(&self) -> Option<ErrorCode> {
        self.error
    }

    /// What always holds of a cache holds of it as plain values.
    pub proof fn lemma_wf_view(&self)
        requires
            self.wf(),
        ensures
            self@.wf(),
    {
    }

    /// The cache of `chunk`, cut into pieces of the largest size a datagram
    /// carries, with no piece there.
    pub fn new(chunk: ChunkId) -> (c: ChunkCache)
        ensures
            c.wf(),
            c.error() is None,
            c@ == StreamCacheView::empty(chunk@, PieceData::max_payload_spec() as nat),
    {
        let stream_cache = ChunkStreamCache::new(&chunk);
        Self { chunk, stream_cache, error: None }
    }

    /// The cache of `chunk`, cut into pieces of `piece_size` bytes, with no
    /// piece there. There are no pieces of no bytes: `InvalidParam`.
    pub fn with_piece_size(chunk: ChunkId, piece_size: u16) -> (r: Result<ChunkCache, ErrorCode>)
        ensures
            r is Ok <==> piece_size > 0,
            r matches Ok(c) ==> c.wf() && c.error() is None && c@ == StreamCacheView::empty(
                chunk@,
                piece_size as nat,
            ),
            r matches Err(e) ==> e == ErrorCode::InvalidParam,
    {
        let stream_cache = ChunkStreamCache::with_piece_size(&chunk, piece_size)?;
        Ok(Self { chunk, stream_cache, error: None })
    }

    /// Why the fetching of the chunk was given up, where it was.
    pub fn canceled(&self) -> (e: Option<ErrorCode>)
        ensures
            e == self.error(),
    {
        self.error
    }

    /// Notes that the fetching of the chunk was given up for `err`, and
    /// lets everyone who waits go: their tickets are returned. The pieces
    /// stay as they are, and the first reason stands.
    pub fn cancel(&mut self, err: ErrorCode) -> (ids: Vec<u64>)
        requires
            old(self).wf(),
        ensures
            final(self).wf(),
            final(self).error() == (match old(self).error() {
                Some(e) => Some(e),
                None => Some(err),
            }),
            ids@ == crate::stream::tickets_of(old(self)@.waiters),
            final(self)@ == (StreamCacheView { waiters: Seq::empty(), ..old(self)@ }),
    {
        if self.error.is_none() {
            self.error = Some(err);
        }
        self.stream_cache.abort_all()
    }

    pub fn chunk(&self) -> (c: &ChunkId)
        requires
            self.wf(),
        ensures
            c@ == self@.chunk,
    {
        &self.chunk
    }

    /// The pieces of the chunk.
    pub fn stream(&self) -> (s: &ChunkStreamCache)
        requires
            self.wf(),
        ensures
            s@ == self@,
            s.wf(),
    {
        &self.stream_cache
    }

    /// Takes a piece in, as the pieces of the chunk do.
    pub fn push(&mut self, piece: &PieceData) -> (r: Result<Vec<u64>, ErrorCode>)
        requires
            old(self).wf(),
        ensures
            final(self).wf(),
            final(self).error() == old(self).error(),
            final(self)@ == old(self)@.pushed(piece@),
            r is Ok <==> old(self)@.accepts(piece@),
            r matches Ok(ids) ==> ids@ == old(self)@.woken(piece@),
            r matches Err(e) ==> e == ErrorCode::InvalidParam,
    {
        self.stream_cache.push(piece)
    }

    /// Fills the cache from the chunk's content, as the pieces of the chunk
    /// do.
    pub fn load(&mut self, content: &[u8]) -> (r: Result<Vec<u64>, ErrorCode>)
        requires
            old(self).wf(),
        ensures
            final(self).wf(),
            final(self).error() == old(self).error(),
            r is Ok <==> content@.len() == old(self)@.len(),
            r matches Ok(ids) ==> final(self)@ == old(self)@.loaded(content@) && ids@
                == crate::stream::tickets_of(old(self)@.waiters) && final(self)@.complete()
                && final(self)@.content() == content@,
            r matches Err(e) ==> e == ErrorCode::InvalidParam && final(self)@ == old(self)@,
    {
        self.stream_cache.load(content)
    }

    /// Gives a ticket back, as the pieces of the chunk do.
    pub fn abort_wait(&mut self, id: u64) -> (held: bool)
        requires
            old(self).wf(),
        ensures
            final(self).wf(),
            final(self).error() == old(self).error(),
            final(self)@ == old(self)@.aborted(id),
            held == (final(self)@.waiters.len() < old(self)@.waiters.len()),
    {
        self.stream_cache.abort_wait(id)
    }

    /// Whether the whole chunk is there.
    pub fn wait_loaded(&self) -> (b: bool)
        requires
            self.wf(),
        ensures
            b == self@.complete(),
    {
        self.stream_cache.is_complete()
    }

    /// An encoder that serves the chunk in pieces of the size of this
    /// cache. `NotFound` where the chunk is not whole here.
    pub fn create_encoder(&self) -> (r: Result<StreamEncoder, ErrorCode>)
        requires
            self.wf(),
        ensures
            r is Ok <==> self@.complete(),
            r matches Ok(e) ==> e.wf() && e@.chunk == self@.chunk && e@.piece_size
                == self@.piece_size && e@.content == self@.content() && e@.pending.len()
                == e@.piece_count() && forall|i: int|
                0 <= i < e@.piece_count() ==> (#[trigger] e@.pending[i]) == i,
            r matches Err(e) ==> e == ErrorCode::NotFound,
    {
        match self.stream_cache.chunk_content() {
            Some(content) => {
                match StreamEncoder::new(
                    &self.chunk,
                    self.stream_cache.piece_size() as u16,
                    content,
                ) {
                    Ok(e) => Ok(e),
                    Err(_) => Err(ErrorCode::NotFound),
                }
            },
            None => Err(ErrorCode::NotFound),
        }
    }

    /// The first piece that holds a byte of `range` and is not there.
    fn first_missing(&self, range: &Range<usize>) -> (r: Option<u32>)
        requires
            self.wf(),
        ensures
            r is None <==> self@.has_range(*range),
            r matches Some(i) ==> self@.first_missing(*range, i as int) && i < self@.pieces.len(),
    {
        let len: usize = self.chunk.len();
        if range.start >= len || range.end == 0 {
            return None;
        }
        let end: usize = if range.end > len {
            len
        } else {
            range.end
        };
        if range.start >= end {
            return None;
        }
        let p: usize = self.stream_cache.piece_size();
        let index_start: usize = range.start / p;
        let index_end: usize = (end - 1) / p;
        proof {
            lemma_byte_place(len as int, p as int, (end - 1) as int);
            lemma_piece_index(len as int, p as int, 0);
            assert(index_start <= index_end) by (nonlinear_arith)
                requires
                    index_start == range.start as int / (p as int),
                    index_end == (end - 1) / (p as int),
                    range.start <= end - 1,
                    p > 0,
            ;
        }
        let mut index: usize = index_start;
        while index <= index_end
            invariant
                self.wf(),
                p == self@.piece_size,
                self@.effective(*range).start < self@.effective(*range).end,
                index_start == self@.effective(*range).start as int / (p as int),
                index_end == (self@.effective(*range).end - 1) / (p as int),
                index_start <= index <= index_end + 1,
                index_end < self@.pieces.len(),
                self@.pieces.len() <= u32::MAX,
                forall|i: int| index_start <= i < index ==> #[trigger] self@.has(i),
            decreases index_end + 1 - index,
        {
            if !self.stream_cache.has(index as u32) {
                return Some(index as u32);
            }
            index += 1;
        }
        None
    }

    /// What of `range` lies within the chunk, where every piece that holds
    /// a byte of it is there; nothing where one is not.
    pub fn exists_range(&self, range: Range<usize>) -> (r: Option<Range<usize>>)
        requires
            self.wf(),
        ensures
            r is Some <==> self@.has_range(range),
            r matches Some(e) ==> e == self@.effective(range),
    {
        match self.first_missing(&range) {
            Some(_) => None,
            None => Some(self.effective(&range)),
        }
    }

    /// What of `range` lies within the chunk.
    fn effective(&self, range: &Range<usize>) -> (e: Range<usize>)
        requires
            self.wf(),
        ensures
            e == self@.effective(*range),
    {
        let len: usize = self.chunk.len();
        if range.start >= len {
            Range { start: len, end: len }
        } else if range.end == 0 {
            Range { start: 0, end: 0 }
        } else if range.end > len {
            Range { start: range.start, end: len }
        } else {
            Range { start: range.start, end: range.end }
        }
    }

    /// Asks for `range`: what of it lies within the chunk, where every
    /// piece that holds a byte of it is there; a ticket for the first piece
    /// that is not, where one is not, and the asker waits from now on. Where
    /// a piece is not there and the fetching of the chunk was given up, the
    /// reason is the answer. `Unknown` where there are no tickets left.
    pub fn wait_exists(&mut self, range: Range<usize>) -> (r: Result<RangeWait, ErrorCode>)
        requires
            old(self).wf(),
        ensures
            final(self).wf(),
            final(self).error() == old(self).error(),
            old(self)@.has_range(range) ==> r == Ok::<RangeWait, ErrorCode>(
                RangeWait::Ready(old(self)@.effective(range)),
            ) && final(self)@ == old(self)@,
            !old(self)@.has_range(range) ==> if old(self).error() is Some {
                r == Err::<RangeWait, ErrorCode>(old(self).error()->0) && final(self)@ == old(self)@
            } else if old(self)@.next_id == u64::MAX {
                r == Err::<RangeWait, ErrorCode>(ErrorCode::Unknown) && final(self)@ == old(self)@
            } else {
                r == Ok::<RangeWait, ErrorCode>(RangeWait::Pending(old(self)@.next_id))
                    && exists|i: int|
                    old(self)@.first_missing(range, i) && final(self)@ == old(self)@.waiting(
                        i as u32,
                    )
            },
    {
        match self.first_missing(&range) {
            None => Ok(RangeWait::Ready(self.effective(&range))),
            Some(index) => {
                if let Some(e) = self.error {
                    return Err(e);
                }
                match self.stream_cache.wait_exists(index) {
                    Ok(WaitState::Pending(id)) => Ok(RangeWait::Pending(id)),
                    Ok(WaitState::Ready) => Err(ErrorCode::Unknown),
                    Err(e) => Err(e),
                }
            },
        }
    }

    /// Reads the chunk from place `offset` on into the front of `buffer`,
    /// as much as `buffer` has room for and the chunk has, and says how
    /// much. Where a piece that holds one of those bytes is not there,
    /// nothing is read and the reader is given a ticket for the first such
    /// piece to wait with; where the fetching of the chunk was given up,
    /// the reason is the answer instead. `Unknown` where there are no
    /// tickets left.
    pub fn read(&mut self, offset: usize, buffer: &mut [u8]) -> (r: Result<ReadState, ErrorCode>)
        requires
            old(self).wf(),
        ensures
            final(self).wf(),
            final(self).error() == old(self).error(),
            final(buffer)@.len() == old(buffer)@.len(),
            ({
                let v = old(self)@;
                let n = v.read_count(offset as int, old(buffer)@.len() as int);
                let range = Range { start: offset, end: (offset + n) as usize };
                if n == 0 || v.has_range(range) {
                    &&& r == Ok::<ReadState, ErrorCode>(ReadState::Done(n as usize))
                    &&& final(self)@ == v
                    &&& forall|j: int| 0 <= j < n ==> final(buffer)@[j] == v.byte(offset + j)
                    &&& forall|j: int|
                        n <= j < old(buffer)@.len() ==> final(buffer)@[j] == old(buffer)@[j]
                } else if old(self).error() is Some {
                    r == Err::<ReadState, ErrorCode>(old(self).error()->0) && final(self)@ == v
                        && final(buffer)@ == old(buffer)@
                } else if v.next_id == u64::MAX {
                    r == Err::<ReadState, ErrorCode>(ErrorCode::Unknown) && final(self)@ == v
                        && final(buffer)@ == old(buffer)@
                } else {
                    &&& r == Ok::<ReadState, ErrorCode>(ReadState::Pending(v.next_id))
                    &&& final(buffer)@ == old(buffer)@
                    &&& exists|i: int|
                        v.first_missing(range, i) && final(self)@ == v.waiting(i as u32)
                }
            }),
    {
        let len: usize = self.chunk.len();
        if offset >= len || buffer.len() == 0 {
            return Ok(ReadState::Done(0));
        }
        let n: usize = if buffer.len() < len - offset {
            buffer.len()
        } else {
            len - offset
        };
        let range: Range<usize> = Range { start: offset, end: offset + n };
        match self.first_missing(&range) {
            Some(index) => {
                if let Some(e) = self.error {
                    return Err(e);
                }
                match self.stream_cache.wait_exists(index) {
                    Ok(WaitState::Pending(id)) => Ok(ReadState::Pending(id)),
                    Ok(WaitState::Ready) => Err(ErrorCode::Unknown),
                    Err(e) => Err(e),
                }
            },
            None => {
                let mut j: usize = 0;
                while j < n
                    invariant
                        self.wf(),
                        *self == *old(self),
                        len == self@.len(),
                        offset + n <= len,
                        n <= buffer@.len(),
                        buffer@.len() == old(buffer)@.len(),
                        range == (Range { start: offset, end: (offset + n) as usize }),
                        self@.has_range(range),
                        j <= n,
                        forall|i: int| 0 <= i < j ==> buffer@[i] == self@.byte(offset + i),
                        forall|i: int| j <= i < buffer@.len() ==> buffer@[i] == old(buffer)@[i],
                    decreases n - j,
                {
                    let at: usize = offset + j;
                    proof {
                        let p = self@.piece_size as int;
                        assert(self@.effective(range) == range);
                        vstd::arithmetic::div_mod::lemma_div_is_ordered(offset as int, at as int,
                            p);
                        vstd::arithmetic::div_mod::lemma_div_is_ordered(
                            at as int,
                            offset + n - 1,
                            p,
                        );
                        assert(self@.touches(range, at as int / p));
                    }
                    let v: u8 = self.stream_cache.byte_at(at);
                    buffer[j] = v;
                    j += 1;
                }
                Ok(ReadState::Done(n))
            },
        }
    }
}

} // verus!
