//! Identifiers that messages carry: session numbers, chunk and device
//! identities, and the encoding a downloader asks for.

use vstd::prelude::*;
use vstd::slice::slice_subrange;
use crate::error::ErrorCode;
use crate::raw::bytes_equal;
use crate::raw::put_bytes;
use crate::raw::take_array;
use crate::raw::RawDecode;
use crate::raw::RawEncode;

verus! {

/// Microseconds since some fixed instant.
pub type Timestamp = u64;

/// A span of time in microseconds.
pub type Micros = u64;

// ---- TempSeq ----------------------------------------------------------------

/// A session number, or a command's sequence number, on one channel.
/// Zero is the number that no session has.
#[derive(Clone, Copy, Debug, PartialEq, Eq, Structural, PartialOrd, Ord, Hash)]
pub struct TempSeq(pub u32);

impl View for TempSeq {
    type V = TempSeq;

    open spec fn view(&self) -> TempSeq {
        *self
    }
}

impl TempSeq {
    pub fn value(&self) -> (v: u32)
        ensures
            v == self.0,
    {
        self.0
    }
}

impl From<u32> for TempSeq {
    fn from(v: u32) -> (r: TempSeq) {
        TempSeq(v)
    }
}

impl vstd::std_specs::convert::FromSpecImpl<u32> for TempSeq {
    open spec fn obeys_from_spec() -> bool {
        true
    }

    open spec fn from_spec(v: u32) -> TempSeq {
        TempSeq(v)
    }
}

impl Default for TempSeq {
    fn default() -> (r: TempSeq)
        ensures
            r == TempSeq(0),
    {
        TempSeq(0)
    }
}

impl RawEncode for TempSeq {
    open spec fn wire(v: TempSeq) -> Seq<u8> {
        <u32 as RawEncode>::wire(v.0)
    }

    open spec fn fits(v: TempSeq) -> bool {
        true
    }

    fn raw_measure(&self) -> (r: Result<usize, ErrorCode>) {
        Ok(4)
    }

    fn raw_encode<'a>(&self, buf: &'a mut [u8]) -> (r: Result<&'a mut [u8], ErrorCode>) {
        self.0.raw_encode(buf)
    }
}

impl RawDecode for TempSeq {
    open spec fn parse(bytes: Seq<u8>) -> Option<(TempSeq, int)> {
        match <u32 as RawDecode>::parse(bytes) {
            Some((v, n)) => Some((TempSeq(v), n)),
            None => None,
        }
    }

    proof fn lemma_parse_bounds(bytes: Seq<u8>) {
    }

    proof fn lemma_parse_wire(v: TempSeq, tail: Seq<u8>) {
        <u32 as RawDecode>::lemma_parse_wire(v.0, tail);
    }

    proof fn lemma_parse_cut(v: TempSeq, k: int) {
    }

    fn raw_decode<'a>(buf: &'a [u8]) -> (r: Result<(Self, &'a [u8]), ErrorCode>) {
        match u32::raw_decode(buf) {
            Ok((v, rest)) => Ok((TempSeq(v), rest)),
            Err(e) => Err(e),
        }
    }
}

// ---- ChunkId ----------------------------------------------------------------

/// The identity of a chunk: the length of its content and a hash of it.
#[derive(Clone, Copy, Debug, PartialEq, Eq, PartialOrd, Ord, Hash)]
pub struct ChunkId {
    len: u32,
    hash: [u8; 28],
}

/// A chunk's identity as plain values.
pub ghost struct ChunkIdView {
    pub len: u32,
    pub hash: Seq<u8>,
}

impl View for ChunkId {
    type V = ChunkIdView;

    closed spec fn view(&self) -> ChunkIdView {
        ChunkIdView { len: self.len, hash: self.hash@ }
    }
}

impl ChunkId {
    pub fn new(hash: &[u8; 28], len: u32) -> (c: ChunkId)
        ensures
            c@ == (ChunkIdView { len, hash: hash@ }),
    {
        ChunkId { len, hash: *hash }
    }

    /// The length of the chunk's content in bytes.
    pub fn len(&self) -> (n: usize)
        ensures
            n == self@.len,
    {
        self.len as usize
    }

    pub fn hash(&self) -> (h: &[u8; 28])
        ensures
            h@ == self@.hash,
    {
        &self.hash
    }

    /// Whether two identities name the same chunk.
    pub fn same(&self, other: &ChunkId) -> (r: bool)
        ensures
            r == (self@ == other@),
    {
        self.len == other.len && bytes_equal(self.hash.as_slice(), other.hash.as_slice())
    }

    /// Every identity holds exactly its 28 hash bytes.
    pub proof fn lemma_view_fits(&self)
        ensures
            <ChunkId as RawEncode>::fits(self@),
    {
    }
}

impl Default for ChunkId {
    fn default() -> (c: ChunkId)
        ensures
            c@ == (ChunkIdView { len: 0, hash: Seq::new(28, |i: int| 0u8) }),
    {
        let c = ChunkId { len: 0, hash: [0u8; 28] };
        assert(c.hash@ =~= Seq::new(28, |i: int| 0u8));
        c
    }
}

impl RawEncode for ChunkId {
    open spec fn wire(v: ChunkIdView) -> Seq<u8> {
        <u32 as RawEncode>::wire(v.len) + v.hash
    }

    open spec fn fits(v: ChunkIdView) -> bool {
        v.hash.len() == 28
    }

    fn raw_measure(&self) -> (r: Result<usize, ErrorCode>) {
        Ok(32)
    }

    fn raw_encode<'a>(&self, buf: &'a mut [u8]) -> (r: Result<&'a mut [u8], ErrorCode>) {
        if buf.len() < 32 {
            return Err(ErrorCode::InvalidParam);
        }
        let rest = match self.len.raw_encode(buf) {
            Ok(rest) => rest,
            Err(e) => {
                return Err(e);
            },
        };
        match put_bytes(rest, self.hash.as_slice()) {
            Ok(rest) => Ok(rest),
            Err(e) => Err(e),
        }
    }
}

impl RawDecode for ChunkId {
    open spec fn parse(bytes: Seq<u8>) -> Option<(ChunkIdView, int)> {
        if bytes.len() >= 32 {
            let (len, _) = <u32 as RawDecode>::parse(bytes).unwrap();
            Some((ChunkIdView { len, hash: bytes.subrange(4, 32) }, 32))
        } else {
            None
        }
    }

    proof fn lemma_parse_bounds(bytes: Seq<u8>) {
    }

    proof fn lemma_parse_wire(v: ChunkIdView, tail: Seq<u8>) {
        let all = Self::wire(v) + tail;
        <u32 as RawDecode>::lemma_parse_wire(v.len, v.hash + tail);
        assert(all == <u32 as RawEncode>::wire(v.len) + (v.hash + tail));
        assert(all.subrange(4, 32) == v.hash);
    }

    proof fn lemma_parse_cut(v: ChunkIdView, k: int) {
    }

    fn raw_decode<'a>(buf: &'a [u8]) -> (r: Result<(Self, &'a [u8]), ErrorCode>) {
        if buf.len() < 32 {
            return Err(ErrorCode::InvalidData);
        }
        let (len, rest) = match u32::raw_decode(buf) {
            Ok(p) => p,
            Err(e) => {
                return Err(e);
            },
        };
        match take_array::<28>(rest) {
            Some((hash, rest)) => {
                assert(hash@ == buf@.subrange(4, 32));
                assert(rest@ == buf@.skip(32));
                Ok((ChunkId { len, hash }, rest))
            },
            None => Err(ErrorCode::InvalidData),
        }
    }
}

// ---- DeviceId ---------------------------------------------------------------

/// The identity of a peer.
#[derive(Clone, Copy, Debug, PartialEq, Eq, PartialOrd, Ord, Hash)]
pub struct DeviceId {
    id: [u8; 32],
}

impl View for DeviceId {
    type V = Seq<u8>;

    closed spec fn view(&self) -> Seq<u8> {
        self.id@
    }
}

impl DeviceId {
    pub fn new(id: &[u8; 32]) -> (d: DeviceId)
        ensures
            d@ == id@,
    {
        DeviceId { id: *id }
    }

    pub fn as_bytes(&self) -> (b: &[u8; 32])
        ensures
            b@ == self@,
    {
        &self.id
    }

    /// Whether two identities name the same peer.
    pub fn same(&self, other: &DeviceId) -> (r: bool)
        ensures
            r == (self@ == other@),
    {
        bytes_equal(self.id.as_slice(), other.id.as_slice())
    }

    /// Every identity holds exactly its 32 bytes.
    pub proof fn lemma_view_fits(&self)
        ensures
            <DeviceId as RawEncode>::fits(self@),
    {
    }
}

impl Default for DeviceId {
    fn default() -> (d: DeviceId)
        ensures
            d@ == Seq::new(32, |i: int| 0u8),
    {
        let d = DeviceId { id: [0u8; 32] };
        assert(d.id@ =~= Seq::new(32, |i: int| 0u8));
        d
    }
}

impl RawEncode for DeviceId {
    open spec fn wire(v: Seq<u8>) -> Seq<u8> {
        v
    }

    open spec fn fits(v: Seq<u8>) -> bool {
        v.len() == 32
    }

    fn raw_measure(&self) -> (r: Result<usize, ErrorCode>) {
        Ok(32)
    }

    fn raw_encode<'a>(&self, buf: &'a mut [u8]) -> (r: Result<&'a mut [u8], ErrorCode>) {
        put_bytes(buf, self.id.as_slice())
    }
}

impl RawDecode for DeviceId {
    open spec fn parse(bytes: Seq<u8>) -> Option<(Seq<u8>, int)> {
        if bytes.len() >= 32 {
            Some((bytes.take(32), 32))
        } else {
            None
        }
    }

    proof fn lemma_parse_bounds(bytes: Seq<u8>) {
    }

    proof fn lemma_parse_wire(v: Seq<u8>, tail: Seq<u8>) {
        assert((v + tail).take(32) == v);
    }

    proof fn lemma_parse_cut(v: Seq<u8>, k: int) {
    }

    fn raw_decode<'a>(buf: &'a [u8]) -> (r: Result<(Self, &'a [u8]), ErrorCode>) {
        match take_array::<32>(buf) {
            Some((id, rest)) => Ok((DeviceId { id }, rest)),
            None => Err(ErrorCode::InvalidData),
        }
    }
}

// ---- PieceSessionType -------------------------------------------------------

/// The encoding a downloader would like its pieces in, each with the
/// parameter of that encoding where the downloader has a wish for it: the
/// size of a piece for a plain stream, the symbol count for the two coded
/// forms.
#[derive(Clone, Copy, Debug, PartialEq, Eq, Structural)]
pub enum PieceSessionType {
    Unknown,
    Stream(Option<u16>),
    RaptorA(Option<u16>),
    RaptorB(Option<u16>),
}

impl View for PieceSessionType {
    type V = PieceSessionType;

    open spec fn view(&self) -> PieceSessionType {
        *self
    }
}

impl PieceSessionType {
    /// The byte that tells the encodings apart on the wire.
    pub open spec fn tag(self) -> u8 {
        match self {
            PieceSessionType::Unknown => 0,
            PieceSessionType::Stream(_) => 1,
            PieceSessionType::RaptorA(_) => 2,
            PieceSessionType::RaptorB(_) => 3,
        }
    }

    /// The parameter, where there is one.
    pub open spec fn param(self) -> Option<u16> {
        match self {
            PieceSessionType::Unknown => None,
            PieceSessionType::Stream(p) => p,
            PieceSessionType::RaptorA(p) => p,
            PieceSessionType::RaptorB(p) => p,
        }
    }

    /// The encoding that a tag other than zero and a parameter stand for.
    pub open spec fn of_tag(tag: u8, p: Option<u16>) -> PieceSessionType {
        if tag == 1 {
            PieceSessionType::Stream(p)
        } else if tag == 2 {
            PieceSessionType::RaptorA(p)
        } else {
            PieceSessionType::RaptorB(p)
        }
    }

    fn tag_byte(&self) -> (t: u8)
        ensures
            t == self.tag(),
    {
        match self {
            PieceSessionType::Unknown => 0,
            PieceSessionType::Stream(_) => 1,
            PieceSessionType::RaptorA(_) => 2,
            PieceSessionType::RaptorB(_) => 3,
        }
    }

    fn param_value(&self) -> (p: Option<u16>)
        ensures
            p == self.param(),
    {
        match self {
            PieceSessionType::Unknown => None,
            PieceSessionType::Stream(p) => *p,
            PieceSessionType::RaptorA(p) => *p,
            PieceSessionType::RaptorB(p) => *p,
        }
    }

    fn from_tag(tag: u8, p: Option<u16>) -> (t: PieceSessionType)
        requires
            1 <= tag <= 3,
        ensures
            t == Self::of_tag(tag, p),
    {
        if tag == 1 {
            PieceSessionType::Stream(p)
        } else if tag == 2 {
            PieceSessionType::RaptorA(p)
        } else {
            PieceSessionType::RaptorB(p)
        }
    }
}

impl RawEncode for PieceSessionType {
    open spec fn wire(v: PieceSessionType) -> Seq<u8> {
        match v {
            PieceSessionType::Unknown => seq![0u8],
            _ => match v.param() {
                None => seq![v.tag(), 0u8],
                Some(p) => seq![v.tag(), 1u8] + <u16 as RawEncode>::wire(p),
            },
        }
    }

    open spec fn fits(v: PieceSessionType) -> bool {
        true
    }

    fn raw_measure(&self) -> (r: Result<usize, ErrorCode>) {
        match self {
            PieceSessionType::Unknown => Ok(1),
            _ => match self.param_value() {
                None => Ok(2),
                Some(_) => Ok(4),
            },
        }
    }

    fn raw_encode<'a>(&self, buf: &'a mut [u8]) -> (r: Result<&'a mut [u8], ErrorCode>) {
        let need: usize = match self.raw_measure() {
            Ok(n) => n,
            Err(e) => {
                return Err(e);
            },
        };
        if buf.len() < need {
            return Err(ErrorCode::InvalidParam);
        }
        let (head, tail) = buf.split_at_mut(need);
        head[0] = self.tag_byte();
        if need >= 2 {
            match self.param_value() {
                None => {
                    head[1] = 0;
                },
                Some(p) => {
                    head[1] = 1;
                    head[2] = (p / 256) as u8;
                    head[3] = (p % 256) as u8;
                },
            }
        }
        assert(head@ == Self::wire(*self));
        Ok(tail)
    }
}

impl RawDecode for PieceSessionType {
    open spec fn parse(bytes: Seq<u8>) -> Option<(PieceSessionType, int)> {
        if bytes.len() < 1 {
            None
        } else if bytes[0] == 0 {
            Some((PieceSessionType::Unknown, 1))
        } else if bytes[0] > 3 || bytes.len() < 2 {
            None
        } else if bytes[1] == 0 {
            Some((PieceSessionType::of_tag(bytes[0], None), 2))
        } else if bytes[1] == 1 && bytes.len() >= 4 {
            Some(
                (
                    PieceSessionType::of_tag(
                        bytes[0],
                        Some((bytes[2] * 256 + bytes[3]) as u16),
                    ),
                    4,
                ),
            )
        } else {
            None
        }
    }

    proof fn lemma_parse_bounds(bytes: Seq<u8>) {
    }

    proof fn lemma_parse_wire(v: PieceSessionType, tail: Seq<u8>) {
    }

    proof fn lemma_parse_cut(v: PieceSessionType, k: int) {
    }

    fn raw_decode<'a>(buf: &'a [u8]) -> (r: Result<(Self, &'a [u8]), ErrorCode>) {
        if buf.len() < 1 {
            return Err(ErrorCode::InvalidData);
        }
        let tag: u8 = buf[0];
        if tag == 0 {
            return Ok((PieceSessionType::Unknown, slice_subrange(buf, 1, buf.len())));
        }
        if tag > 3 || buf.len() < 2 {
            return Err(ErrorCode::InvalidData);
        }
        if buf[1] == 0 {
            Ok((Self::from_tag(tag, None), slice_subrange(buf, 2, buf.len())))
        } else if buf[1] == 1 && buf.len() >= 4 {
            let p: u16 = (buf[2] as u16) * 256 + (buf[3] as u16);
            Ok((Self::from_tag(tag, Some(p)), slice_subrange(buf, 4, buf.len())))
        } else {
            Err(ErrorCode::InvalidData)
        }
    }
}

// ---- timing -----------------------------------------------------------------

/// Whether more than `span` has passed at `now` since `since`.
pub open spec fn elapsed(now: Timestamp, since: Timestamp, span: Micros) -> bool {
    now > since && now - since > span
}

/// Whether more than `span` has passed at `now` since `since`.
pub fn has_elapsed(now: Timestamp, since: Timestamp, span: Micros) -> (b: bool)
    ensures
        b == elapsed(now, since, span),
{
    now > since && now - since > span
}

/// The timing of a channel and of the sessions on it.
#[derive(Clone, Copy, Debug, PartialEq, Eq, Structural)]
pub struct ChannelConfig {
    /// How long to wait for an answer before asking again.
    pub resend_interval: Micros,
    /// How long to go on asking before giving up.
    pub resend_timeout: Micros,
    /// How long a datagram may be under way.
    pub msl: Micros,
    /// How many samples the speed of a session is averaged over.
    pub history_speed: usize,
    /// The speed a download session is taken to have before it was measured.
    pub initial_speed: u32,
}

} // verus!
