//! The pieces of one chunk.
//!
//! A chunk is cut into pieces of one size, the last one as long as what is
//! left. The cache holds the pieces that have come in, each under its index,
//! and remembers who waits for one that has not. It never waits itself:
//! whoever asks for a piece that is not there is given a ticket, and whoever
//! brings a piece is told which tickets it redeems.

use vstd::prelude::*;
use std::ops::Range;
use vstd::arithmetic::div_mod::lemma_fundamental_div_mod;
use vstd::arithmetic::div_mod::lemma_fundamental_div_mod_converse;
use vstd::slice::slice_subrange;
use vstd::slice::slice_to_vec;
use crate::error::ErrorCode;
use crate::protocol::PieceData;
use crate::protocol::PieceDataView;
use crate::protocol::PieceDesc;
use crate::raw::put_bytes;
use crate::raw::view_opt;
use crate::types::ChunkId;
use crate::types::ChunkIdView;

verus! {

// ---- how a chunk is cut -----------------------------------------------------

/// The number of pieces of `p` bytes that a chunk of `len` bytes is cut into.
pub open spec fn piece_count(len: int, p: int) -> int
    recommends
        p > 0,
{
    if len % p == 0 {
        len / p
    } else {
        len / p + 1
    }
}

/// The length of the `i`-th of those pieces.
pub open spec fn piece_len(len: int, p: int, i: int) -> int {
    if (i + 1) * p <= len {
        p
    } else {
        len - i * p
    }
}

/// An index names a piece exactly when the piece starts within the chunk.
pub proof fn lemma_piece_index(len: int, p: int, i: int)
    requires
        p > 0,
        len >= 0,
        i >= 0,
    ensures
        i < piece_count(len, p) <==> i * p < len,
        piece_count(len, p) >= 0,
        piece_count(len, p) <= len,
{
    let q = len / p;
    let r = len % p;
    lemma_fundamental_div_mod(len, p);
    assert(0 <= r < p);
    assert(q >= 0) by (nonlinear_arith)
        requires
            len == p * q + r,
            0 <= r < p,
            p > 0,
            len >= 0,
    ;
    assert(i < q ==> i * p + p <= q * p) by (nonlinear_arith)
        requires
            p > 0,
    ;
    assert(i >= q ==> i * p >= q * p) by (nonlinear_arith)
        requires
            p > 0,
    ;
    assert(i > q ==> i * p >= q * p + p) by (nonlinear_arith)
        requires
            p > 0,
    ;
    assert(p * q == q * p) by (nonlinear_arith);
    assert(q <= q * p) by (nonlinear_arith)
        requires
            p > 0,
            q >= 0,
    ;
}

/// Every byte of a chunk lies in one piece, at one place in it.
pub proof fn lemma_byte_place(len: int, p: int, j: int)
    requires
        p > 0,
        0 <= j < len,
    ensures
        0 <= j / p < piece_count(len, p),
        0 <= j % p < piece_len(len, p, j / p),
        (j / p) * p + j % p == j,
{
    let i = j / p;
    lemma_fundamental_div_mod(j, p);
    assert(p * i == i * p) by (nonlinear_arith);
    assert(0 <= j % p < p);
    assert(i >= 0) by (nonlinear_arith)
        requires
            j == i * p + j % p,
            0 <= j % p < p,
            j >= 0,
            p > 0,
    ;
    lemma_piece_index(len, p, i);
    assert((i + 1) * p == i * p + p) by (nonlinear_arith);
}

/// The byte at place `k` of piece `i` is byte `i * p + k` of the chunk.
pub proof fn lemma_place_byte(len: int, p: int, i: int, k: int)
    requires
        p > 0,
        len >= 0,
        0 <= i < piece_count(len, p),
        0 <= k < piece_len(len, p, i),
    ensures
        0 <= i * p + k < len,
        (i * p + k) / p == i,
        (i * p + k) % p == k,
        0 < piece_len(len, p, i) <= p,
{
    lemma_piece_index(len, p, i);
    assert((i + 1) * p == i * p + p) by (nonlinear_arith);
    assert(i * p >= 0) by (nonlinear_arith)
        requires
            i >= 0,
            p > 0,
    ;
    lemma_fundamental_div_mod_converse(i * p + k, p, i, k);
}

// ---- who waits ---------------------------------------------------------------

/// Someone who waits for a piece: the ticket, and the index of the piece.
#[derive(Clone, Copy, Debug, PartialEq, Eq, Structural)]
pub struct Waiter {
    pub id: u64,
    pub index: u32,
}

/// Those of `ws` who do not wait for piece `index`, in their order.
pub open spec fn waiters_without(ws: Seq<Waiter>, index: u32) -> Seq<Waiter>
    decreases ws.len(),
{
    if ws.len() == 0 {
        Seq::empty()
    } else if ws.last().index == index {
        waiters_without(ws.drop_last(), index)
    } else {
        waiters_without(ws.drop_last(), index).push(ws.last())
    }
}

/// The tickets of those of `ws` who wait for piece `index`, in their order.
pub open spec fn tickets_for(ws: Seq<Waiter>, index: u32) -> Seq<u64>
    decreases ws.len(),
{
    if ws.len() == 0 {
        Seq::empty()
    } else if ws.last().index == index {
        tickets_for(ws.drop_last(), index).push(ws.last().id)
    } else {
        tickets_for(ws.drop_last(), index)
    }
}

/// `ws` without the holder of ticket `id`.
pub open spec fn waiters_dropping(ws: Seq<Waiter>, id: u64) -> Seq<Waiter>
    decreases ws.len(),
{
    if ws.len() == 0 {
        Seq::empty()
    } else if ws.last().id == id {
        waiters_dropping(ws.drop_last(), id)
    } else {
        waiters_dropping(ws.drop_last(), id).push(ws.last())
    }
}

/// The tickets of all of `ws`, in their order.
pub open spec fn tickets_of(ws: Seq<Waiter>) -> Seq<u64> {
    Seq::new(ws.len(), |k: int| ws[k].id)
}

/// Whoever is left after those for `index` have gone was there before.
pub proof fn lemma_waiters_without(ws: Seq<Waiter>, index: u32)
    ensures
        waiters_without(ws, index).len() <= ws.len(),
        forall|k: int|
            0 <= k < waiters_without(ws, index).len() ==> ws.contains(
                #[trigger] waiters_without(ws, index)[k],
            ) && waiters_without(ws, index)[k].index != index,
        tickets_for(waiters_without(ws, index), index) == Seq::<u64>::empty(),
        waiters_without(waiters_without(ws, index), index) == waiters_without(ws, index),
    decreases ws.len(),
{
    if ws.len() > 0 {
        let front = ws.drop_last();
        lemma_waiters_without(front, index);
        let left = waiters_without(front, index);
        assert forall|k: int| 0 <= k < waiters_without(ws, index).len() implies ws.contains(
            #[trigger] waiters_without(ws, index)[k],
        ) && waiters_without(ws, index)[k].index != index by {
            if k < left.len() {
                let w = left[k];
                assert(front.contains(w));
                let at = choose|m: int| 0 <= m < front.len() && front[m] == w;
                assert(ws[at] == w);
            } else {
                assert(ws[ws.len() - 1] == ws.last());
            }
        }
        if ws.last().index != index {
            assert(left.push(ws.last()).drop_last() == left);
        }
    }
}

/// Whoever is left after a ticket was dropped was there before.
pub proof fn lemma_waiters_dropping(ws: Seq<Waiter>, id: u64)
    ensures
        waiters_dropping(ws, id).len() <= ws.len(),
        forall|k: int|
            0 <= k < waiters_dropping(ws, id).len() ==> ws.contains(
                #[trigger] waiters_dropping(ws, id)[k],
            ) && waiters_dropping(ws, id)[k].id != id,
    decreases ws.len(),
{
    if ws.len() > 0 {
        let front = ws.drop_last();
        lemma_waiters_dropping(front, id);
        let left = waiters_dropping(front, id);
        assert forall|k: int| 0 <= k < waiters_dropping(ws, id).len() implies ws.contains(
            #[trigger] waiters_dropping(ws, id)[k],
        ) && waiters_dropping(ws, id)[k].id != id by {
            if k < left.len() {
                let w = left[k];
                assert(front.contains(w));
                let at = choose|m: int| 0 <= m < front.len() && front[m] == w;
                assert(ws[at] == w);
            } else {
                assert(ws[ws.len() - 1] == ws.last());
            }
        }
    }
}

// ---- runs of indices ----------------------------------------------------------

/// Whether index `i` lies in one of `ranges`.
pub open spec fn covered(ranges: Seq<Range<u32>>, i: int) -> bool {
    exists|k: int| 0 <= k < ranges.len() && (#[trigger] ranges[k]).start <= i < ranges[k].end
}

/// Whether `ranges` are runs in their order: none is empty, and each starts
/// behind the end of the one before it, with a gap between them.
pub open spec fn runs(ranges: Seq<Range<u32>>) -> bool {
    &&& forall|k: int| 0 <= k < ranges.len() ==> (#[trigger] ranges[k]).start < ranges[k].end
    &&& forall|k: int, m: int|
        0 <= k < m < ranges.len() ==> (#[trigger] ranges[k]).end < (#[trigger] ranges[m]).start
}

// ---- the cache as plain values ----------------------------------------------

/// A stream cache as plain values.
pub ghost struct StreamCacheView {
    /// The chunk whose pieces these are.
    pub chunk: ChunkIdView,
    /// The size of every piece but the last.
    pub piece_size: nat,
    /// The pieces, each under its index: the bytes of those that are there.
    pub pieces: Seq<Option<Seq<u8>>>,
    /// Those who wait, in the order in which they came.
    pub waiters: Seq<Waiter>,
    /// The ticket the next to wait is given.
    pub next_id: u64,
}

impl StreamCacheView {
    /// The length of the chunk.
    pub open spec fn len(self) -> int {
        self.chunk.len as int
    }

    /// The length of piece `i`.
    pub open spec fn piece_len(self, i: int) -> int {
        piece_len(self.len(), self.piece_size as int, i)
    }

    /// Whether piece `i` is there.
    pub open spec fn has(self, i: int) -> bool {
        0 <= i < self.pieces.len() && self.pieces[i] is Some
    }

    /// Whether every piece is there.
    pub open spec fn complete(self) -> bool {
        forall|i: int| 0 <= i < self.pieces.len() ==> (#[trigger] self.pieces[i]) is Some
    }

    /// What always holds of a cache: there is a place for each piece of the
    /// chunk and for no other, a piece that is there has the length of its
    /// place, and nobody waits for a piece that is there or cannot be, nor
    /// holds a ticket that is yet to be given.
    pub open spec fn wf(self) -> bool {
        &&& 0 < self.piece_size <= u16::MAX
        &&& self.chunk.hash.len() == 28
        &&& self.pieces.len() == piece_count(self.len(), self.piece_size as int)
        &&& forall|i: int|
            0 <= i < self.pieces.len() && (#[trigger] self.pieces[i]) is Some
                ==> self.pieces[i]->0.len()
                == self.piece_len(i)
        &&& forall|k: int|
            0 <= k < self.waiters.len() ==> (#[trigger] self.waiters[k]).index < self.pieces.len()
                && self.pieces[self.waiters[k].index as int] is None && self.waiters[k].id
                < self.next_id
    }

    /// Byte `j` of the chunk, where the piece that holds it is there.
    pub open spec fn byte(self, j: int) -> u8 {
        self.pieces[j / (self.piece_size as int)]->0[j % (self.piece_size as int)]
    }

    /// The content of the chunk, where every piece is there.
    pub open spec fn content(self) -> Seq<u8> {
        Seq::new(self.len() as nat, |j: int| self.byte(j))
    }

    /// Whether a piece is one of this chunk cut this way: a range of this
    /// chunk, of this piece size, with an index that names one of its
    /// pieces, and with as many bytes as that piece has.
    pub open spec fn accepts(self, piece: PieceDataView) -> bool {
        &&& piece.chunk == self.chunk
        &&& piece.desc matches PieceDesc::Range(index, size)
        &&& size == self.piece_size
        &&& index < self.pieces.len()
        &&& piece.data.len() == self.piece_len(index as int)
    }

    /// Whether a piece is taken in: it is one of this chunk, and the piece
    /// of its index is not there yet.
    pub open spec fn takes(self, piece: PieceDataView) -> bool {
        self.accepts(piece) && self.pieces[piece.desc.index() as int] is None
    }

    /// The cache after a piece was brought: with the piece under its index
    /// and without those who waited for it, where it is taken in; as it was,
    /// where it is not.
    pub open spec fn pushed(self, piece: PieceDataView) -> StreamCacheView {
        if self.takes(piece) {
            StreamCacheView {
                chunk: self.chunk,
                piece_size: self.piece_size,
                pieces: self.pieces.update(piece.desc.index() as int, Some(piece.data)),
                waiters: waiters_without(self.waiters, piece.desc.index()),
                next_id: self.next_id,
            }
        } else {
            self
        }
    }

    /// The tickets that a piece redeems: of those who waited for it, where
    /// it is taken in; none, where it is not.
    pub open spec fn woken(self, piece: PieceDataView) -> Seq<u64> {
        if self.takes(piece) {
            tickets_for(self.waiters, piece.desc.index())
        } else {
            Seq::empty()
        }
    }

    /// The number of bytes that are read from piece `index`, which is there,
    /// from place `offset` on, into room for `room` bytes: what of the piece
    /// lies behind `offset`, or as much of it as there is room for.
    pub open spec fn read_len(self, index: int, offset: int, room: int) -> int {
        if offset >= self.piece_len(index) {
            0
        } else if room < self.piece_len(index) - offset {
            room
        } else {
            self.piece_len(index) - offset
        }
    }

    /// Whether piece `i` is missed by one who has seen piece `max_index`:
    /// it is no later than that one, and it is not there.
    pub open spec fn lost(self, max_index: u32, i: int) -> bool {
        0 <= i <= max_index && i < self.pieces.len() && self.pieces[i] is None
    }

    /// The cache of a chunk with no piece there and nobody waiting.
    pub open spec fn empty(chunk: ChunkIdView, piece_size: nat) -> StreamCacheView {
        StreamCacheView {
            chunk,
            piece_size,
            pieces: Seq::new(
                piece_count(chunk.len as int, piece_size as int) as nat,
                |i: int| None::<Seq<u8>>,
            ),
            waiters: Seq::empty(),
            next_id: 1,
        }
    }

    /// The cache with one more waiting for piece `index`.
    pub open spec fn waiting(self, index: u32) -> StreamCacheView {
        StreamCacheView {
            chunk: self.chunk,
            piece_size: self.piece_size,
            pieces: self.pieces,
            waiters: self.waiters.push(Waiter { id: self.next_id, index }),
            next_id: (self.next_id + 1) as u64,
        }
    }

    /// The cache without the holder of ticket `id`.
    pub open spec fn aborted(self, id: u64) -> StreamCacheView {
        StreamCacheView {
            chunk: self.chunk,
            piece_size: self.piece_size,
            pieces: self.pieces,
            waiters: waiters_dropping(self.waiters, id),
            next_id: self.next_id,
        }
    }

    /// The cache with every piece there, cut from `content`, and nobody
    /// waiting.
    pub open spec fn loaded(self, content: Seq<u8>) -> StreamCacheView {
        StreamCacheView {
            chunk: self.chunk,
            piece_size: self.piece_size,
            pieces: Seq::new(
                self.pieces.len(),
                |i: int|
                    Some(
                        content.subrange(
                            i * self.piece_size,
                            i * self.piece_size + self.piece_len(i),
                        ),
                    ),
            ),
            waiters: Seq::empty(),
            next_id: self.next_id,
        }
    }
}

/// Bringing a piece keeps a cache as it should be.
pub proof fn lemma_pushed_wf(v: StreamCacheView, piece: PieceDataView)
    requires
        v.wf(),
    ensures
        v.pushed(piece).wf(),
{
    if v.takes(piece) {
        let index = piece.desc.index();
        let after = v.pushed(piece);
        lemma_waiters_without(v.waiters, index);
        assert forall|k: int| 0 <= k
            < after.waiters.len() implies (#[trigger] after.waiters[k]).index
            < after.pieces.len() && after.pieces[after.waiters[k].index as int] is None
            && after.waiters[k].id < after.next_id by {
            let w = after.waiters[k];
            assert(v.waiters.contains(w));
            let at = choose|m: int| 0 <= m < v.waiters.len() && v.waiters[m] == w;
            assert(v.waiters[at].index < v.pieces.len());
        }
    }
}

/// A piece that is brought a second time changes nothing and redeems no
/// ticket.
pub proof fn lemma_push_idempotent(v: StreamCacheView, piece: PieceDataView)
    requires
        v.wf(),
    ensures
        v.pushed(piece).pushed(piece) == v.pushed(piece),
        v.pushed(piece).woken(piece) == Seq::<u64>::empty(),
{
}

/// A cache that was filled from a chunk's content holds that content.
pub proof fn lemma_loaded_content(v: StreamCacheView, content: Seq<u8>)
    requires
        v.wf(),
        content.len() == v.len(),
    ensures
        v.loaded(content).wf(),
        v.loaded(content).complete(),
        v.loaded(content).content() == content,
{
    let after = v.loaded(content);
    let p = v.piece_size as int;
    assert forall|j: int| 0 <= j < v.len() implies after.byte(j) == content[j] by {
        let i = j / p;
        let k = j % p;
        lemma_byte_place(v.len(), p, j);
        lemma_place_byte(v.len(), p, i, k);
        lemma_piece_index(v.len(), p, i);
        assert((i + 1) * p == i * p + p) by (nonlinear_arith);
        let piece = content.subrange(i * p, i * p + v.piece_len(i));
        assert(after.pieces[i] == Some(piece));
        assert(piece[k] == content[i * p + k]);
    }
    assert(after.content() =~= content);
    assert forall|i: int|
        0 <= i < after.pieces.len()
            && (#[trigger] after.pieces[i]) is Some implies after.pieces[i]->0.len()
        == after.piece_len(i) by {
        lemma_piece_index(v.len(), p, i);
        assert((i + 1) * p == i * p + p) by (nonlinear_arith);
        assert(i * p >= 0) by (nonlinear_arith)
            requires
                i >= 0,
                p > 0,
        ;
    }
}

// ---- the cache ----------------------------------------------------------------

/// The pieces of a list of places as plain values.
pub open spec fn pieces_view(ps: Seq<Option<Vec<u8>>>) -> Seq<Option<Seq<u8>>> {
    Seq::new(ps.len(), |i: int| view_opt(ps[i]))
}

/// What one who asks for a piece is told.
#[derive(Clone, Copy, Debug, PartialEq, Eq, Structural)]
pub enum WaitState {
    /// The piece is there.
    Ready,
    /// The piece is not there; the ticket will be redeemed when it comes.
    Pending(u64),
}

/// What one who reads from a piece is told.
#[derive(Clone, Copy, Debug, PartialEq, Eq, Structural)]
pub enum ReadState {
    /// So many bytes were read.
    Done(usize),
    /// The piece is not there; the ticket will be redeemed when it comes.
    Pending(u64),
}

/// The pieces of one chunk that have come in, and who waits for the others.
#[derive(Debug)]
pub struct ChunkStreamCache {
    chunk: ChunkId,
    piece_size: usize,
    pieces: Vec<Option<Vec<u8>>>,
    waiters: Vec<Waiter>,
    next_id: u64,
}

impl View for ChunkStreamCache {
    type V = StreamCacheView;

    closed spec fn view(&self) -> StreamCacheView {
        StreamCacheView {
            chunk: self.chunk@,
            piece_size: self.piece_size as nat,
            pieces: pieces_view(self.pieces@),
            waiters: self.waiters@,
            next_id: self.next_id,
        }
    }
}

impl ChunkStreamCache {
    /// What always holds of a cache.
    pub open spec fn wf(&self) -> bool {
        self@.wf()
    }

    /// The cache of `chunk`, cut into pieces of the largest size a datagram
    /// carries, with no piece there.
    pub fn new(chunk: &ChunkId) -> (c: ChunkStreamCache)
        ensures
            c.wf(),
            c@ == StreamCacheView::empty(chunk@, PieceData::max_payload_spec() as nat),
    {
        let size: usize = PieceData::max_payload();
        match Self::with_piece_size(chunk, size as u16) {
            Ok(c) => c,
            Err(_) => Self {
                chunk: *chunk,
                piece_size: size,
                pieces: Vec::new(),
                waiters: Vec::new(),
                next_id: 1,
            },
        }
    }

    /// The cache of `chunk`, cut into pieces of `piece_size` bytes, with no
    /// piece there. There are no pieces of no bytes: `InvalidParam`.
    pub fn with_piece_size(chunk: &ChunkId, piece_size: u16) -> (r: Result<
        ChunkStreamCache,
        ErrorCode,
    >)
        ensures
            r is Ok <==> piece_size > 0,
            r matches Ok(c) ==> c.wf() && c@ == StreamCacheView::empty(chunk@, piece_size as nat),
            r matches Err(e) ==> e == ErrorCode::InvalidParam,
    {
        if piece_size == 0 {
            return Err(ErrorCode::InvalidParam);
        }
        let len: usize = chunk.len();
        let p: usize = piece_size as usize;
        proof {
            lemma_piece_index(len as int, p as int, 0);
        }
        let count: usize = if len % p == 0 {
            len / p
        } else {
            len / p + 1
        };
        let mut pieces: Vec<Option<Vec<u8>>> = Vec::new();
        let mut i: usize = 0;
        while i < count
            invariant
                i <= count,
                pieces@.len() == i,
                forall|k: int| 0 <= k < i ==> (#[trigger] pieces@[k]) is None,
            decreases count - i,
        {
            pieces.push(None);
            i += 1;
        }
        let c = Self { chunk: *chunk, piece_size: p, pieces, waiters: Vec::new(), next_id: 1 };
        proof {
            chunk.lemma_view_fits();
            assert(c@.pieces =~= StreamCacheView::empty(chunk@, piece_size as nat).pieces);
        }
        Ok(c)
    }

    /// The chunk whose pieces these are.
    pub fn chunk(&self) -> (c: &ChunkId)
        ensures
            c@ == self@.chunk,
    {
        &self.chunk
    }

    /// The size of every piece but the last.
    pub fn piece_size(&self) -> (p: usize)
        ensures
            p == self@.piece_size,
    {
        self.piece_size
    }

    /// The number of pieces of the chunk.
    pub fn piece_count(&self) -> (n: usize)
        ensures
            n == self@.pieces.len(),
    {
        self.pieces.len()
    }

    /// The length of piece `index`.
    pub fn piece_len(&self, index: u32) -> (n: usize)
        requires
            self.wf(),
            index < self@.pieces.len(),
        ensures
            n == self@.piece_len(index as int),
            0 < n <= self@.piece_size,
            index * self@.piece_size + n <= self@.len(),
    {
        let p: u64 = self.piece_size as u64;
        let len: u64 = self.chunk.len() as u64;
        proof {
            lemma_piece_index(len as int, p as int, index as int);
            assert(index * p <= u32::MAX * u16::MAX) by (nonlinear_arith)
                requires
                    0 <= index <= u32::MAX,
                    0 <= p <= u16::MAX,
            ;
            assert((index + 1) * p == index * p + p) by (nonlinear_arith);
        }
        let start: u64 = (index as u64) * p;
        if start + p <= len {
            p as usize
        } else {
            (len - start) as usize
        }
    }

    /// Whether piece `index` is there.
    pub fn has(&self, index: u32) -> (b: bool)
        ensures
            b == self@.has(index as int),
    {
        let i: usize = index as usize;
        if i >= self.pieces.len() {
            return false;
        }
        self.pieces[i].is_some()
    }

    /// Whether every piece is there.
    pub fn is_complete(&self) -> (b: bool)
        ensures
            b == self@.complete(),
    {
        let n: usize = self.pieces.len();
        let mut i: usize = 0;
        while i < n
            invariant
                n == self.pieces@.len(),
                i <= n,
                forall|k: int| 0 <= k < i ==> (#[trigger] self@.pieces[k]) is Some,
            decreases n - i,
        {
            if self.pieces[i].is_none() {
                assert(self@.pieces[i as int] is None);
                return false;
            }
            i += 1;
        }
        true
    }

    /// Takes a piece in: puts it under its index and returns the tickets of
    /// those who waited for it, who wait no longer. A piece whose index is
    /// there already is let go, and nothing changes. A piece that is not one
    /// of this chunk, cut this way, is refused with `InvalidParam`, and
    /// nothing changes.
    pub fn push(&mut self, piece: &PieceData) -> (r: Result<Vec<u64>, ErrorCode>)
        requires
            old(self).wf(),
        ensures
            final(self).wf(),
            final(self)@ == old(self)@.pushed(piece@),
            r is Ok <==> old(self)@.accepts(piece@),
            r matches Ok(ids) ==> ids@ == old(self)@.woken(piece@),
            r matches Err(e) ==> e == ErrorCode::InvalidParam,
    {
        proof {
            lemma_pushed_wf(self@, piece@);
        }
        let index: u32 = match piece.desc {
            PieceDesc::Range(index, size) => {
                if size as usize != self.piece_size {
                    return Err(ErrorCode::InvalidParam);
                }
                index
            },
            PieceDesc::Raptor(_, _) => {
                return Err(ErrorCode::InvalidParam);
            },
        };
        if !piece.chunk.same(&self.chunk) {
            return Err(ErrorCode::InvalidParam);
        }
        let i: usize = index as usize;
        if i >= self.pieces.len() {
            return Err(ErrorCode::InvalidParam);
        }
        if piece.data.len() != self.piece_len(index) {
            return Err(ErrorCode::InvalidParam);
        }
        if self.pieces[i].is_some() {
            return Ok(Vec::new());
        }
        let data: Vec<u8> = slice_to_vec(piece.data.as_slice());
        self.pieces[i] = Some(data);
        let ids: Vec<u64> = self.wake(index);
        proof {
            assert(self@.pieces =~= old(self)@.pieces.update(index as int, Some(piece@.data)));
        }
        Ok(ids)
    }

    /// Lets those who wait for piece `index` go, and returns their tickets.
    fn wake(&mut self, index: u32) -> (ids: Vec<u64>)
        ensures
            ids@ == tickets_for(old(self).waiters@, index),
            final(self).waiters@ == waiters_without(old(self).waiters@, index),
            final(self).chunk == old(self).chunk,
            final(self).piece_size == old(self).piece_size,
            final(self).pieces == old(self).pieces,
            final(self).next_id == old(self).next_id,
    {
        let mut keep: Vec<Waiter> = Vec::new();
        let mut ids: Vec<u64> = Vec::new();
        let n: usize = self.waiters.len();
        let mut k: usize = 0;
        while k < n
            invariant
                n == self.waiters@.len(),
                k <= n,
                self.waiters@ == old(self).waiters@,
                keep@ == waiters_without(self.waiters@.take(k as int), index),
                ids@ == tickets_for(self.waiters@.take(k as int), index),
            decreases n - k,
        {
            let w: Waiter = self.waiters[k];
            proof {
                let next = self.waiters@.take(k + 1);
                assert(next.drop_last() =~= self.waiters@.take(k as int));
                assert(next.last() == w);
            }
            if w.index == index {
                ids.push(w.id);
            } else {
                keep.push(w);
            }
            k += 1;
        }
        assert(self.waiters@.take(n as int) =~= self.waiters@);
        self.waiters = keep;
        ids
    }

    /// Asks for piece `index`: `Ready` where it is there, and nothing
    /// changes; a ticket where it is not, and the asker waits from now on.
    /// `InvalidParam` where the chunk has no such piece; `Unknown` where
    /// there are no tickets left.
    pub fn wait_exists(&mut self, index: u32) -> (r: Result<WaitState, ErrorCode>)
        requires
            old(self).wf(),
        ensures
            final(self).wf(),
            index >= old(self)@.pieces.len() ==> r == Err::<WaitState, ErrorCode>(
                ErrorCode::InvalidParam,
            ) && final(self)@ == old(self)@,
            old(self)@.has(index as int) ==> r == Ok::<WaitState, ErrorCode>(WaitState::Ready)
                && final(self)@ == old(self)@,
            index < old(self)@.pieces.len() && !old(self)@.has(index as int) && old(self)@.next_id
                == u64::MAX ==> r == Err::<WaitState, ErrorCode>(ErrorCode::Unknown)
                    && final(self)@ == old(self)@,
            index < old(self)@.pieces.len() && !old(self)@.has(index as int) && old(self)@.next_id
                < u64::MAX ==> r == Ok::<WaitState, ErrorCode>(
                WaitState::Pending(old(self)@.next_id),
            ) && final(self)@ == old(self)@.waiting(index),
    {
        let i: usize = index as usize;
        if i >= self.pieces.len() {
            return Err(ErrorCode::InvalidParam);
        }
        if self.pieces[i].is_some() {
            return Ok(WaitState::Ready);
        }
        match self.register(index) {
            Some(id) => Ok(WaitState::Pending(id)),
            None => Err(ErrorCode::Unknown),
        }
    }

    /// Gives out a ticket for piece `index`, which is not there.
    fn register(&mut self, index: u32) -> (r: Option<u64>)
        requires
            old(self).wf(),
            index < old(self)@.pieces.len(),
            !old(self)@.has(index as int),
        ensures
            final(self).wf(),
            r is Some <==> old(self)@.next_id < u64::MAX,
            r matches Some(id) ==> id == old(self)@.next_id && final(self)@ == old(self)@.waiting(
                index,
            ),
            r is None ==> final(self)@ == old(self)@,
    {
        if self.next_id == u64::MAX {
            return None;
        }
        let id: u64 = self.next_id;
        self.waiters.push(Waiter { id, index });
        self.next_id = id + 1;
        Some(id)
    }

    /// Gives a ticket back: its holder waits no longer. The pieces stay as
    /// they are. Returns whether anyone held the ticket.
    pub fn abort_wait(&mut self, id: u64) -> (held: bool)
        requires
            old(self).wf(),
        ensures
            final(self).wf(),
            final(self)@ == old(self)@.aborted(id),
            held == (final(self)@.waiters.len() < old(self)@.waiters.len()),
    {
        let mut keep: Vec<Waiter> = Vec::new();
        let n: usize = self.waiters.len();
        let mut k: usize = 0;
        while k < n
            invariant
                n == self.waiters@.len(),
                k <= n,
                *self == *old(self),
                keep@ == waiters_dropping(self.waiters@.take(k as int), id),
                keep@.len() <= k,
            decreases n - k,
        {
            let w: Waiter = self.waiters[k];
            proof {
                let next = self.waiters@.take(k + 1);
                assert(next.drop_last() =~= self.waiters@.take(k as int));
                assert(next.last() == w);
            }
            if w.id != id {
                keep.push(w);
            }
            k += 1;
        }
        proof {
            assert(self.waiters@.take(n as int) =~= self.waiters@);
            lemma_waiters_dropping(self.waiters@, id);
            assert forall|m: int| 0 <= m < keep@.len() implies (#[trigger] keep@[m]).index
                < self@.pieces.len() && self@.pieces[keep@[m].index as int] is None && keep@[m].id
                < self.next_id by {
                let w = keep@[m];
                assert(self.waiters@.contains(w));
                let at = choose|j: int| 0 <= j < self.waiters@.len() && self.waiters@[j] == w;
                assert(self@.waiters[at].index < self@.pieces.len());
            }
        }
        let held: bool = keep.len() < n;
        self.waiters = keep;
        held
    }

    /// Fills the cache from the chunk's content: every piece is there
    /// afterwards, cut from `content`, and everyone who waited is let go;
    /// their tickets are returned. `InvalidParam`, and nothing changes,
    /// where `content` has not the length of the chunk.
    pub fn load(&mut self, content: &[u8]) -> (r: Result<Vec<u64>, ErrorCode>)
        requires
            old(self).wf(),
        ensures
            final(self).wf(),
            r is Ok <==> content@.len() == old(self)@.len(),
            r matches Ok(ids) ==> final(self)@ == old(self)@.loaded(content@) && ids@
                == tickets_of(old(self)@.waiters) && final(self)@.complete()
                    && final(self)@.content() == content@,
            r matches Err(e) ==> e == ErrorCode::InvalidParam && final(self)@ == old(self)@,
    {
        if content.len() != self.chunk.len() {
            return Err(ErrorCode::InvalidParam);
        }
        proof {
            lemma_loaded_content(self@, content@);
        }
        let ids: Vec<u64> = self.wake_all();
        let n: usize = self.pieces.len();
        let p: usize = self.piece_size;
        let mut i: usize = 0;
        while i < n
            invariant
                self.wf(),
                n == self.pieces@.len(),
                n == old(self).pieces@.len(),
                i <= n,
                p == self.piece_size,
                content@.len() == old(self)@.len(),
                self.chunk == old(self).chunk,
                self.piece_size == old(self).piece_size,
                self.waiters@.len() == 0,
                self.next_id == old(self).next_id,
                forall|m: int|
                    0 <= m < i ==> (#[trigger] self@.pieces[m]) == old(self)@.loaded(
                        content@,
                    ).pieces[m],
            decreases n - i,
        {
            let ghost before = self@;
            let index: u32 = i as u32;
            let len: usize = self.piece_len(index);
            proof {
                assert(i * p == index * self@.piece_size);
            }
            let start: usize = i * p;
            let data: Vec<u8> = slice_to_vec(slice_subrange(content, start, start + len));
            self.pieces[i] = Some(data);
            proof {
                assert(self@.pieces =~= before.pieces.update(i as int, Some(data@)));
            }
            i += 1;
        }
        proof {
            assert(self@.pieces =~= old(self)@.loaded(content@).pieces);
            assert(self@.waiters =~= Seq::<Waiter>::empty());
        }
        Ok(ids)
    }

    /// Lets everyone who waits go, and returns their tickets. The pieces
    /// stay as they are.
    pub fn abort_all(&mut self) -> (ids: Vec<u64>)
        requires
            old(self).wf(),
        ensures
            final(self).wf(),
            ids@ == tickets_of(old(self)@.waiters),
            final(self)@ == (StreamCacheView { waiters: Seq::empty(), ..old(self)@ }),
    {
        let ids = self.wake_all();
        assert(self@.waiters =~= Seq::<Waiter>::empty());
        ids
    }

    /// Lets everyone who waits go, and returns their tickets.
    fn wake_all(&mut self) -> (ids: Vec<u64>)
        ensures
            ids@ == tickets_of(old(self).waiters@),
            final(self).waiters@ == Seq::<Waiter>::empty(),
            final(self).chunk == old(self).chunk,
            final(self).piece_size == old(self).piece_size,
            final(self).pieces == old(self).pieces,
            final(self).next_id == old(self).next_id,
    {
        let mut ids: Vec<u64> = Vec::new();
        let n: usize = self.waiters.len();
        let mut k: usize = 0;
        while k < n
            invariant
                n == self.waiters@.len(),
                k <= n,
                *self == *old(self),
                ids@ == tickets_of(self.waiters@.take(k as int)),
            decreases n - k,
        {
            ids.push(self.waiters[k].id);
            k += 1;
            assert(ids@ =~= tickets_of(self.waiters@.take(k as int)));
        }
        assert(self.waiters@.take(n as int) =~= self.waiters@);
        self.waiters = Vec::new();
        ids
    }
}

impl ChunkStreamCache {
    /// Reads from one piece: copies the bytes of the piece that `desc`
    /// names, from place `offset` on, into the front of `buf`, as many as
    /// `buf` has room for, and says how many. Nothing is read at or behind
    /// the end of the chunk or of the piece. Where the piece is not there,
    /// nothing is read and the reader is given a ticket to wait with.
    /// `InvalidParam` where `desc` names no range of this cache's piece
    /// size; `Unknown` where there are no tickets left.
    pub fn async_read(&mut self, desc: &PieceDesc, offset: usize, buf: &mut [u8]) -> (r: Result<
        ReadState,
        ErrorCode,
    >)
        requires
            old(self).wf(),
        ensures
            final(self).wf(),
            final(buf)@.len() == old(buf)@.len(),
            !(desc is Range && desc.param() == old(self)@.piece_size) ==> r == Err::<
                ReadState,
                ErrorCode,
            >(ErrorCode::InvalidParam),
            desc is Range && desc.param() == old(self)@.piece_size ==> {
                let v = old(self)@;
                let index = desc.index();
                if index >= v.pieces.len() {
                    r == Ok::<ReadState, ErrorCode>(ReadState::Done(0))
                } else if v.pieces[index as int] is Some {
                    let n = v.read_len(index as int, offset as int, old(buf)@.len() as int);
                    r == Ok::<ReadState, ErrorCode>(ReadState::Done(n as usize)) && (n == 0
                        ==> final(buf)@ == old(buf)@) && (n > 0 ==> final(buf)@
                        == v.pieces[index as int]->0.subrange(offset as int, offset + n)
                            + old(buf)@.skip(n))
                } else if v.next_id == u64::MAX {
                    r == Err::<ReadState, ErrorCode>(ErrorCode::Unknown)
                } else {
                    r == Ok::<ReadState, ErrorCode>(ReadState::Pending(v.next_id)) && final(self)@
                        == v.waiting(index)
                }
            },
            !(r matches Ok(ReadState::Pending(_))) ==> final(self)@ == old(self)@,
            !(r matches Ok(ReadState::Done(_))) ==> final(buf)@ == old(buf)@,
    {
        let index: u32 = match desc {
            PieceDesc::Range(index, size) => {
                if *size as usize != self.piece_size {
                    return Err(ErrorCode::InvalidParam);
                }
                *index
            },
            PieceDesc::Raptor(_, _) => {
                return Err(ErrorCode::InvalidParam);
            },
        };
        let i: usize = index as usize;
        if i >= self.pieces.len() {
            return Ok(ReadState::Done(0));
        }
        let len: usize = self.piece_len(index);
        match &self.pieces[i] {
            Some(piece) => {
                assert(self@.pieces[i as int] == Some(piece@));
                if offset >= len || buf.len() == 0 {
                    return Ok(ReadState::Done(0));
                }
                let n: usize = if buf.len() < len - offset {
                    buf.len()
                } else {
                    len - offset
                };
                match put_bytes(buf, slice_subrange(piece.as_slice(), offset, offset + n)) {
                    Ok(_) => Ok(ReadState::Done(n)),
                    Err(e) => Err(e),
                }
            },
            None => {
                assert(self@.pieces[i as int] is None);
                match self.register(index) {
                    Some(id) => Ok(ReadState::Pending(id)),
                    None => Err(ErrorCode::Unknown),
                }
            },
        }
    }

    /// The content of the chunk, where every piece is there.
    pub fn chunk_content(&self) -> (r: Option<Vec<u8>>)
        requires
            self.wf(),
        ensures
            r is Some <==> self@.complete(),
            r matches Some(v) ==> v@ == self@.content(),
    {
        if !self.is_complete() {
            return None;
        }
        let n: usize = self.pieces.len();
        let ghost p = self.piece_size as int;
        let ghost len = self@.len();
        let mut out: Vec<u8> = Vec::new();
        let mut i: usize = 0;
        proof {
            lemma_piece_index(len, p, 0);
        }
        while i < n
            invariant
                self.wf(),
                self@.complete(),
                n == self.pieces@.len(),
                p == self.piece_size,
                len == self@.len(),
                i <= n,
                i < n ==> out@.len() == i * p,
                i == n ==> out@.len() == len,
                forall|j: int| 0 <= j < out@.len() ==> out@[j] == self@.byte(j),
            decreases n - i,
        {
            let ghost before = out@;
            let index: u32 = i as u32;
            let plen: usize = self.piece_len(index);
            match &self.pieces[i] {
                Some(piece) => {
                    assert(self@.pieces[i as int] == Some(piece@));
                    out.extend_from_slice(piece.as_slice());
                    proof {
                        assert(out@ == before + piece@);
                        assert forall|j: int| 0 <= j < out@.len() implies out@[j] == self@.byte(
                            j,
                        ) by {
                            if j >= before.len() {
                                lemma_place_byte(len, p, i as int, j - before.len());
                            }
                        }
                        lemma_piece_index(len, p, i as int);
                        lemma_piece_index(len, p, i + 1);
                        assert((i + 1) * p == i * p + p) by (nonlinear_arith);
                    }
                },
                None => {
                    assert(self@.pieces[i as int] is None);
                    return None;
                },
            }
            i += 1;
        }
        proof {
            if n == 0 {
                lemma_piece_index(len, p, 0);
            }
            assert(out@ =~= self@.content());
        }
        Some(out)
    }

    /// The runs of pieces that one who has seen piece `max_index` misses:
    /// the pieces no later than that one that are not there, as runs in
    /// their order.
    #[verifier::spinoff_prover]
    pub fn lost_ranges(&self, max_index: u32) -> (r: Vec<Range<u32>>)
        requires
            self.wf(),
        ensures
            runs(r@),
            forall|i: int| covered(r@, i) <==> self@.lost(max_index, i),
    {
        let n: usize = self.pieces.len();
        let mut out: Vec<Range<u32>> = Vec::new();
        let mut open: Option<u32> = None;
        let mut i: usize = 0;
        let ghost mut lim: int = 0;
        proof {
            lemma_piece_index(self@.len(), self@.piece_size as int, 0);
        }
        while i < n && i <= max_index as usize
            invariant
                n == self.pieces@.len(),
                n <= u32::MAX,
                i <= n,
                i <= max_index + 1,
                0 <= lim <= i,
                runs(out@),
                forall|k: int| 0 <= k < out@.len() ==> (#[trigger] out@[k]).end < lim || lim == 0,
                lim == 0 ==> out@.len() == 0,
                open matches Some(s) ==> s == lim && lim < i,
                open is None ==> lim == i,
                forall|j: int| lim <= j < i ==> (#[trigger] self@.pieces[j]) is None,
                forall|j: int| 0 <= j < lim ==> (covered(out@, j) <==> self@.lost(max_index, j)),
                forall|j: int| covered(out@, j) ==> j < lim,
            decreases n - i,
        {
            let ghost before = out@;
            let there: bool = self.pieces[i].is_some();
            assert(there == (self@.pieces[i as int] is Some));
            if there {
                if let Some(s) = open {
                    let run = Range { start: s, end: i as u32 };
                    out.push(run);
                    open = None;
                    proof {
                        lemma_covered_push(before, run);
                        assert(out@ == before.push(run));
                        assert forall|j: int| 0 <= j < i + 1 implies (covered(out@, j)
                            <==> self@.lost(max_index, j)) by {
                            lemma_covered_push(before, run);
                            assert(covered(before.push(run), j) <==> covered(before, j)
                                || run.start <= j < run.end);
                            assert(covered(out@, j) <==> covered(before, j) || s <= j < i);
                            if j < s {
                                assert(covered(before, j) <==> self@.lost(max_index, j));
                            } else if j < i {
                                assert(self@.pieces[j] is None);
                                assert(self@.lost(max_index, j));
                            } else {
                                assert(!covered(before, j));
                                assert(!self@.lost(max_index, j));
                            }
                        }
                        assert(runs(out@)) by {
                            assert forall|k: int, m: int| 0 <= k < m < out@.len() implies (
                            #[trigger] out@[k]).end < (#[trigger] out@[m]).start by {
                                if m < before.len() {
                                    assert(out@[k] == before[k] && out@[m] == before[m]);
                                } else {
                                    assert(out@[k] == before[k]);
                                }
                            }
                        }
                    }
                } else {
                    proof {
                        assert forall|j: int| 0 <= j < i + 1 implies (covered(out@, j)
                            <==> self@.lost(max_index, j)) by {}
                    }
                }
                proof {
                    lim = i + 1;
                }
            } else {
                if open.is_none() {
                    open = Some(i as u32);
                }
            }
            i += 1;
        }
        let ghost before = out@;
        if let Some(s) = open {
            let run = Range { start: s, end: i as u32 };
            out.push(run);
            proof {
                lemma_covered_push(before, run);
                assert(out@ == before.push(run));
                assert forall|j: int| covered(out@, j) <==> self@.lost(max_index, j) by {
                    lemma_covered_push(before, run);
                    assert(covered(before.push(run), j) <==> covered(before, j) || run.start <= j
                        < run.end);
                    assert(covered(out@, j) <==> covered(before, j) || s <= j < i);
                    if j < 0 {
                        assert(!covered(before, j));
                    } else if j < s {
                        assert(covered(before, j) <==> self@.lost(max_index, j));
                    } else if j < i {
                        assert(self@.pieces[j] is None);
                        assert(self@.lost(max_index, j));
                    } else {
                        assert(!covered(before, j));
                        assert(!self@.lost(max_index, j));
                    }
                }
                assert(runs(out@)) by {
                    assert forall|k: int, m: int| 0 <= k < m < out@.len() implies (
                    #[trigger] out@[k]).end < (#[trigger] out@[m]).start by {
                        if m < before.len() {
                            assert(out@[k] == before[k] && out@[m] == before[m]);
                        } else {
                            assert(out@[k] == before[k]);
                        }
                    }
                }
            }
        } else {
            proof {
                assert forall|j: int| covered(out@, j) <==> self@.lost(max_index, j) by {}
            }
        }
        out
    }
}

/// One more range covers what the others covered and what lies in it.
pub proof fn lemma_covered_push(ranges: Seq<Range<u32>>, r: Range<u32>)
    ensures
        forall|i: int| covered(ranges.push(r), i) <==> covered(ranges, i) || r.start <= i < r.end,
{
    let more = ranges.push(r);
    assert forall|i: int| covered(more, i) implies covered(ranges, i) || r.start <= i < r.end by {
        let k = choose|k: int| 0 <= k < more.len() && (#[trigger] more[k]).start <= i < more[k].end;
        if k < ranges.len() {
            assert(ranges[k] == more[k]);
        }
    }
    assert forall|i: int| covered(ranges, i) || r.start <= i < r.end implies covered(more, i) by {
        if covered(ranges, i) {
            let k = choose|k: int|
                0 <= k < ranges.len() && (#[trigger] ranges[k]).start <= i < ranges[k].end;
            assert(more[k] == ranges[k]);
        } else {
            assert(more[ranges.len() as int] == r);
        }
    }
}



impl ChunkStreamCache {
    /// Byte `at` of the chunk, which lies in a piece that is there.
    pub fn byte_at(&self, at: usize) -> (b: u8)
        requires
            self.wf(),
            at < self@.len(),
            self@.has(at as int / (self@.piece_size as int)),
        ensures
            b == self@.byte(at as int),
    {
        let p: usize = self.piece_size;
        proof {
            lemma_byte_place(self@.len(), p as int, at as int);
        }
        let i: usize = at / p;
        let k: usize = at % p;
        match &self.pieces[i] {
            Some(piece) => {
                assert(self@.pieces[i as int] == Some(piece@));
                piece[k]
            },
            None => {
                assert(self@.pieces[i as int] is None);
                0
            },
        }
    }
}

} // verus!
