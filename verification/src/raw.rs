//! The byte format of the values that messages are made of.
//!
//! Integers are written big-endian in their full width. A string is its
//! UTF-8 bytes behind a two-byte count of them. A value is written into the
//! front of a buffer, and what the writer hands back is the rest of that
//! buffer; a reader takes a value off the front of a slice and hands back the
//! rest of the slice.

use vstd::prelude::*;
use std::ops::Range;
use vstd::slice::slice_subrange;
use vstd::slice::slice_to_vec;
use vstd::string::StringSliceAdditionalSpecFns;
use vstd::utf8::decode_utf8;
use vstd::utf8::encode_utf8;
use vstd::utf8::encode_utf8_decode_utf8;
use vstd::utf8::encode_utf8_valid_utf8;
use vstd::utf8::valid_utf8;
use crate::error::ErrorCode;

verus! {

/// A value with a byte format.
pub trait RawEncode: View {
    /// The bytes that stand for the value.
    spec fn wire(v: Self::V) -> Seq<u8>;

    /// Whether the value can be written at all: whether each count in it
    /// fits the field that holds it.
    spec fn fits(v: Self::V) -> bool;

    /// The number of bytes the value takes, where it can be written and that
    /// number is one a machine word holds.
    fn raw_measure(&self) -> (r: Result<usize, ErrorCode>)
        ensures
            r is Ok <==> Self::fits(self@) && Self::wire(self@).len() <= usize::MAX,
            r matches Ok(n) ==> n == Self::wire(self@).len(),
            r matches Err(e) ==> e == ErrorCode::InvalidParam,
    ;

    /// Writes the value into the front of `buf` and returns the rest of
    /// `buf`. Fails, leaving `buf` as it was, where the value cannot be
    /// written or `buf` is too short for it.
    fn raw_encode<'a>(&self, buf: &'a mut [u8]) -> (r: Result<&'a mut [u8], ErrorCode>)
        ensures
            r is Ok <==> Self::fits(self@) && Self::wire(self@).len() <= old(buf)@.len(),
            r matches Ok(rest) ==> rest@ == old(buf)@.skip(Self::wire(self@).len() as int)
                && final(buf)@ == Self::wire(self@) + final(rest)@,
            r matches Err(e) ==> e == ErrorCode::InvalidParam && final(buf)@ == old(buf)@,
    ;
}

/// A value that can be read back from its byte format.
pub trait RawDecode: RawEncode + Sized {
    /// What a reader finds at the front of `bytes`: the value and the number
    /// of bytes it took, or nothing where no value stands there.
    spec fn parse(bytes: Seq<u8>) -> Option<(Self::V, int)>;

    /// A reader takes no more than there is, and what it finds can be written.
    proof fn lemma_parse_bounds(bytes: Seq<u8>)
        ensures
            Self::parse(bytes) matches Some((v, n)) ==> 0 <= n <= bytes.len() && Self::fits(v),
    ;

    /// Reading what was written gives the value back, whatever follows it.
    proof fn lemma_parse_wire(v: Self::V, tail: Seq<u8>)
        requires
            Self::fits(v),
        ensures
            Self::parse(Self::wire(v) + tail) == Some((v, Self::wire(v).len() as int)),
    ;

    /// Nothing is read from a written value that was cut short.
    proof fn lemma_parse_cut(v: Self::V, k: int)
        requires
            Self::fits(v),
            0 <= k < Self::wire(v).len(),
        ensures
            Self::parse(Self::wire(v).take(k)) is None,
    ;

    /// Reads a value off the front of `buf` and returns it with the rest of
    /// `buf`. Fails with `InvalidData` exactly where no value stands there.
    fn raw_decode<'a>(buf: &'a [u8]) -> (r: Result<(Self, &'a [u8]), ErrorCode>)
        ensures
            r is Ok <==> Self::parse(buf@) is Some,
            r matches Ok((x, rest)) ==> Self::parse(buf@) == Some((x@, buf@.len() - rest@.len()))
                && rest@ == buf@.skip(buf@.len() - rest@.len()),
            r matches Err(e) ==> e == ErrorCode::InvalidData,
    ;
}

/// Copies `src` into the front of `buf` and returns the rest of `buf`; fails,
/// leaving `buf` as it was, where `buf` is shorter than `src`.
pub fn put_bytes<'a>(buf: &'a mut [u8], src: &[u8]) -> (r: Result<&'a mut [u8], ErrorCode>)
    ensures
        r is Ok <==> src@.len() <= old(buf)@.len(),
        r matches Ok(rest) ==> rest@ == old(buf)@.skip(src@.len() as int)
            && final(buf)@ == src@ + final(rest)@,
        r matches Err(e) ==> e == ErrorCode::InvalidParam && final(buf)@ == old(buf)@,
{
    let n: usize = src.len();
    if buf.len() < n {
        return Err(ErrorCode::InvalidParam);
    }
    let (head, tail) = buf.split_at_mut(n);
    let mut i: usize = 0;
    while i < n
        invariant
            n == src@.len(),
            head@.len() == n,
            i <= n,
            head@.take(i as int) == src@.take(i as int),
        decreases n - i,
    {
        head[i] = src[i];
        i += 1;
        assert(head@.take(i as int) == src@.take(i as int));
    }
    assert(head@ == src@) by {
        assert(head@.take(n as int) == head@);
        assert(src@.take(n as int) == src@);
    }
    Ok(tail)
}

// ---- optional values ---------------------------------------------------------

/// The plain value of an optional value.
pub open spec fn view_opt<T: View>(o: Option<T>) -> Option<T::V> {
    match o {
        Some(x) => Some(x@),
        None => None,
    }
}

/// The bytes of an optional field: its bytes where it is there, none where
/// it is not.
pub open spec fn wire_opt<T: RawEncode>(v: Option<T::V>) -> Seq<u8> {
    match v {
        Some(x) => T::wire(x),
        None => Seq::empty(),
    }
}

/// Whether an optional field can be written.
pub open spec fn fits_opt<T: RawEncode>(v: Option<T::V>) -> bool {
    match v {
        Some(x) => T::fits(x),
        None => true,
    }
}

/// What a reader finds of an optional field whose flag says `present`.
pub open spec fn parse_opt<T: RawDecode>(present: bool, bytes: Seq<u8>) -> Option<
    (Option<T::V>, int),
> {
    if present {
        match T::parse(bytes) {
            Some((v, n)) => Some((Some(v), n)),
            None => None,
        }
    } else {
        Some((None, 0))
    }
}

/// Skipping twice is skipping once by the sum.
pub proof fn lemma_skip_skip(s: Seq<u8>, a: int, b: int)
    requires
        0 <= a,
        0 <= b,
        a + b <= s.len(),
    ensures
        s.skip(a).skip(b) == s.skip(a + b),
{
    assert(s.skip(a).skip(b) =~= s.skip(a + b));
}

/// Whether two byte strings are the same.
pub fn bytes_equal(a: &[u8], b: &[u8]) -> (r: bool)
    ensures
        r == (a@ == b@),
{
    if a.len() != b.len() {
        return false;
    }
    let n: usize = a.len();
    let mut i: usize = 0;
    while i < n
        invariant
            n == a@.len(),
            n == b@.len(),
            i <= n,
            a@.take(i as int) == b@.take(i as int),
        decreases n - i,
    {
        if a[i] != b[i] {
            return false;
        }
        i += 1;
        assert(a@.take(i as int) == b@.take(i as int)) by {
            assert(a@.take(i as int) == a@.take(i - 1).push(a@[i - 1]));
            assert(b@.take(i as int) == b@.take(i - 1).push(b@[i - 1]));
        }
    }
    assert(a@ == a@.take(n as int));
    assert(b@ == b@.take(n as int));
    true
}

// ---- one byte ---------------------------------------------------------------

impl RawEncode for u8 {
    open spec fn wire(v: u8) -> Seq<u8> {
        seq![v]
    }

    open spec fn fits(v: u8) -> bool {
        true
    }

    fn raw_measure(&self) -> (r: Result<usize, ErrorCode>) {
        Ok(1)
    }

    fn raw_encode<'a>(&self, buf: &'a mut [u8]) -> (r: Result<&'a mut [u8], ErrorCode>) {
        if buf.len() < 1 {
            return Err(ErrorCode::InvalidParam);
        }
        let (head, tail) = buf.split_at_mut(1);
        head[0] = *self;
        assert(head@ == <u8 as RawEncode>::wire(*self));
        assert(<u8 as RawEncode>::fits(*self));
        Ok(tail)
    }
}

impl RawDecode for u8 {
    open spec fn parse(bytes: Seq<u8>) -> Option<(u8, int)> {
        if bytes.len() >= 1 {
            Some((bytes[0], 1))
        } else {
            None
        }
    }

    proof fn lemma_parse_bounds(bytes: Seq<u8>) {
    }

    proof fn lemma_parse_wire(v: u8, tail: Seq<u8>) {
    }

    proof fn lemma_parse_cut(v: u8, k: int) {
    }

    fn raw_decode<'a>(buf: &'a [u8]) -> (r: Result<(Self, &'a [u8]), ErrorCode>) {
        if buf.len() < 1 {
            assert(<u8 as RawDecode>::parse(buf@) is None);
            return Err(ErrorCode::InvalidData);
        }
        let v: u8 = buf[0];
        assert(<u8 as RawDecode>::parse(buf@) == Some((v, 1int)));
        Ok((v, slice_subrange(buf, 1, buf.len())))
    }
}

// ---- two bytes --------------------------------------------------------------

impl RawEncode for u16 {
    open spec fn wire(v: u16) -> Seq<u8> {
        seq![(v / 256) as u8, (v % 256) as u8]
    }

    open spec fn fits(v: u16) -> bool {
        true
    }

    fn raw_measure(&self) -> (r: Result<usize, ErrorCode>) {
        Ok(2)
    }

    fn raw_encode<'a>(&self, buf: &'a mut [u8]) -> (r: Result<&'a mut [u8], ErrorCode>) {
        if buf.len() < 2 {
            return Err(ErrorCode::InvalidParam);
        }
        let v: u16 = *self;
        let (head, tail) = buf.split_at_mut(2);
        head[0] = (v / 256) as u8;
        head[1] = (v % 256) as u8;
        assert(head@ == Self::wire(v));
        Ok(tail)
    }
}

impl RawDecode for u16 {
    open spec fn parse(bytes: Seq<u8>) -> Option<(u16, int)> {
        if bytes.len() >= 2 {
            Some(((bytes[0] * 256 + bytes[1]) as u16, 2))
        } else {
            None
        }
    }

    proof fn lemma_parse_bounds(bytes: Seq<u8>) {
    }

    proof fn lemma_parse_wire(v: u16, tail: Seq<u8>) {
    }

    proof fn lemma_parse_cut(v: u16, k: int) {
    }

    fn raw_decode<'a>(buf: &'a [u8]) -> (r: Result<(Self, &'a [u8]), ErrorCode>) {
        if buf.len() < 2 {
            return Err(ErrorCode::InvalidData);
        }
        let v: u16 = (buf[0] as u16) * 256 + (buf[1] as u16);
        Ok((v, slice_subrange(buf, 2, buf.len())))
    }
}

// ---- four bytes -------------------------------------------------------------

impl RawEncode for u32 {
    open spec fn wire(v: u32) -> Seq<u8> {
        seq![
            (v / 0x100_0000) as u8,
            (v / 0x1_0000 % 256) as u8,
            (v / 0x100 % 256) as u8,
            (v % 256) as u8,
        ]
    }

    open spec fn fits(v: u32) -> bool {
        true
    }

    fn raw_measure(&self) -> (r: Result<usize, ErrorCode>) {
        Ok(4)
    }

    fn raw_encode<'a>(&self, buf: &'a mut [u8]) -> (r: Result<&'a mut [u8], ErrorCode>) {
        if buf.len() < 4 {
            return Err(ErrorCode::InvalidParam);
        }
        let v: u32 = *self;
        let (head, tail) = buf.split_at_mut(4);
        head[0] = (v / 0x100_0000) as u8;
        head[1] = (v / 0x1_0000 % 256) as u8;
        head[2] = (v / 0x100 % 256) as u8;
        head[3] = (v % 256) as u8;
        assert(head@ == Self::wire(v));
        Ok(tail)
    }
}

impl RawDecode for u32 {
    open spec fn parse(bytes: Seq<u8>) -> Option<(u32, int)> {
        if bytes.len() >= 4 {
            Some(
                (
                    (bytes[0] * 0x100_0000 + bytes[1] * 0x1_0000 + bytes[2] * 0x100
                        + bytes[3]) as u32,
                    4,
                ),
            )
        } else {
            None
        }
    }

    proof fn lemma_parse_bounds(bytes: Seq<u8>) {
    }

    proof fn lemma_parse_wire(v: u32, tail: Seq<u8>) {
    }

    proof fn lemma_parse_cut(v: u32, k: int) {
    }

    fn raw_decode<'a>(buf: &'a [u8]) -> (r: Result<(Self, &'a [u8]), ErrorCode>) {
        if buf.len() < 4 {
            return Err(ErrorCode::InvalidData);
        }
        let v: u32 = (buf[0] as u32) * 0x100_0000 + (buf[1] as u32) * 0x1_0000 + (buf[2] as u32)
            * 0x100 + (buf[3] as u32);
        Ok((v, slice_subrange(buf, 4, buf.len())))
    }
}

// ---- eight bytes ------------------------------------------------------------

impl RawEncode for u64 {
    open spec fn wire(v: u64) -> Seq<u8> {
        <u32 as RawEncode>::wire((v / 0x1_0000_0000) as u32) + <u32 as RawEncode>::wire(
            (v % 0x1_0000_0000) as u32,
        )
    }

    open spec fn fits(v: u64) -> bool {
        true
    }

    fn raw_measure(&self) -> (r: Result<usize, ErrorCode>) {
        Ok(8)
    }

    fn raw_encode<'a>(&self, buf: &'a mut [u8]) -> (r: Result<&'a mut [u8], ErrorCode>) {
        if buf.len() < 8 {
            return Err(ErrorCode::InvalidParam);
        }
        let v: u64 = *self;
        let high: u32 = (v / 0x1_0000_0000) as u32;
        let low: u32 = (v % 0x1_0000_0000) as u32;
        let rest = match high.raw_encode(buf) {
            Ok(rest) => rest,
            Err(e) => {
                return Err(e);
            },
        };
        match low.raw_encode(rest) {
            Ok(rest) => Ok(rest),
            Err(e) => Err(e),
        }
    }
}

impl RawDecode for u64 {
    open spec fn parse(bytes: Seq<u8>) -> Option<(u64, int)> {
        if bytes.len() >= 8 {
            let (high, _) = <u32 as RawDecode>::parse(bytes).unwrap();
            let (low, _) = <u32 as RawDecode>::parse(bytes.skip(4)).unwrap();
            Some(((high * 0x1_0000_0000 + low) as u64, 8))
        } else {
            None
        }
    }

    proof fn lemma_parse_bounds(bytes: Seq<u8>) {
    }

    proof fn lemma_parse_wire(v: u64, tail: Seq<u8>) {
        let high = (v / 0x1_0000_0000) as u32;
        let low = (v % 0x1_0000_0000) as u32;
        let all = Self::wire(v) + tail;
        <u32 as RawDecode>::lemma_parse_wire(high, <u32 as RawEncode>::wire(low) + tail);
        <u32 as RawDecode>::lemma_parse_wire(low, tail);
        assert(all == <u32 as RawEncode>::wire(high) + (<u32 as RawEncode>::wire(low) + tail));
        assert(all.skip(4) == <u32 as RawEncode>::wire(low) + tail);
    }

    proof fn lemma_parse_cut(v: u64, k: int) {
    }

    fn raw_decode<'a>(buf: &'a [u8]) -> (r: Result<(Self, &'a [u8]), ErrorCode>) {
        if buf.len() < 8 {
            return Err(ErrorCode::InvalidData);
        }
        let (high, rest) = match u32::raw_decode(buf) {
            Ok(p) => p,
            Err(e) => {
                return Err(e);
            },
        };
        let (low, rest) = match u32::raw_decode(rest) {
            Ok(p) => p,
            Err(e) => {
                return Err(e);
            },
        };
        let v: u64 = (high as u64) * 0x1_0000_0000 + (low as u64);
        assert(rest@ == buf@.skip(8));
        Ok((v, rest))
    }
}

// ---- a fixed run of bytes ---------------------------------------------------

/// Reads the first `N` bytes of `buf` into an array and returns it with the
/// rest of `buf`; nothing where `buf` is shorter than that.
pub fn take_array<'a, const N: usize>(buf: &'a [u8]) -> (r: Option<([u8; N], &'a [u8])>)
    ensures
        r is Some <==> N <= buf@.len(),
        r matches Some((a, rest)) ==> a@ == buf@.take(N as int) && rest@ == buf@.skip(N as int),
{
    if buf.len() < N {
        return None;
    }
    let mut a: [u8; N] = [0u8; N];
    let mut i: usize = 0;
    while i < N
        invariant
            N <= buf@.len(),
            i <= N,
            a@.len() == N,
            a@.take(i as int) == buf@.take(i as int),
        decreases N - i,
    {
        a[i] = buf[i];
        i += 1;
        assert(a@.take(i as int) == buf@.take(i as int));
    }
    assert(a@ == buf@.take(N as int)) by {
        assert(a@.take(N as int) == a@);
    }
    Some((a, slice_subrange(buf, N, buf.len())))
}

// ---- text -------------------------------------------------------------------

/// `String::from_utf8` of std: it accepts exactly the byte strings that are
/// well-formed UTF-8, and the string it then returns holds the characters
/// that those bytes spell.
#[verifier::external_body]
fn string_from_utf8(bytes: Vec<u8>) -> (r: Option<String>)
    ensures
        r is Some <==> valid_utf8(bytes@),
        r matches Some(s) ==> s@ == decode_utf8(bytes@),
{
    match String::from_utf8(bytes) {
        Ok(s) => Some(s),
        Err(_) => None,
    }
}

impl RawEncode for String {
    open spec fn wire(v: Seq<char>) -> Seq<u8> {
        <u16 as RawEncode>::wire(encode_utf8(v).len() as u16) + encode_utf8(v)
    }

    open spec fn fits(v: Seq<char>) -> bool {
        encode_utf8(v).len() <= u16::MAX
    }

    fn raw_measure(&self) -> (r: Result<usize, ErrorCode>) {
        let n: usize = self.as_str().as_bytes().len();
        if n > 0xffff {
            return Err(ErrorCode::InvalidParam);
        }
        Ok(n + 2)
    }

    fn raw_encode<'a>(&self, buf: &'a mut [u8]) -> (r: Result<&'a mut [u8], ErrorCode>) {
        let bytes: &[u8] = self.as_str().as_bytes();
        let n: usize = bytes.len();
        if n > 0xffff || buf.len() < n + 2 {
            return Err(ErrorCode::InvalidParam);
        }
        let count: u16 = n as u16;
        let rest = match count.raw_encode(buf) {
            Ok(rest) => rest,
            Err(e) => {
                return Err(e);
            },
        };
        match put_bytes(rest, bytes) {
            Ok(rest) => Ok(rest),
            Err(e) => Err(e),
        }
    }
}

impl RawDecode for String {
    open spec fn parse(bytes: Seq<u8>) -> Option<(Seq<char>, int)> {
        match <u16 as RawDecode>::parse(bytes) {
            Some((count, _)) => {
                if bytes.len() >= 2 + count && valid_utf8(bytes.subrange(2, 2 + count)) {
                    Some((decode_utf8(bytes.subrange(2, 2 + count)), 2 + count))
                } else {
                    None
                }
            },
            None => None,
        }
    }

    proof fn lemma_parse_bounds(bytes: Seq<u8>) {
        if let Some((v, n)) = Self::parse(bytes) {
            vstd::utf8::decode_utf8_encode_utf8(bytes.subrange(2, n));
        }
    }

    proof fn lemma_parse_wire(v: Seq<char>, tail: Seq<u8>) {
        let body = encode_utf8(v);
        let all = Self::wire(v) + tail;
        encode_utf8_valid_utf8(v);
        encode_utf8_decode_utf8(v);
        <u16 as RawDecode>::lemma_parse_wire(body.len() as u16, body + tail);
        assert(all == <u16 as RawEncode>::wire(body.len() as u16) + (body + tail));
        assert(all.subrange(2, 2 + body.len() as int) == body);
    }

    proof fn lemma_parse_cut(v: Seq<char>, k: int) {
        let body = encode_utf8(v);
        let cut = Self::wire(v).take(k);
        if k >= 2 {
            <u16 as RawDecode>::lemma_parse_wire(body.len() as u16, cut.skip(2));
            assert(cut == <u16 as RawEncode>::wire(body.len() as u16) + cut.skip(2));
        }
    }

    fn raw_decode<'a>(buf: &'a [u8]) -> (r: Result<(Self, &'a [u8]), ErrorCode>) {
        let (count, rest) = match u16::raw_decode(buf) {
            Ok(p) => p,
            Err(e) => {
                return Err(e);
            },
        };
        let n: usize = count as usize;
        if rest.len() < n {
            return Err(ErrorCode::InvalidData);
        }
        let body: &[u8] = slice_subrange(rest, 0, n);
        assert(body@ == buf@.subrange(2, 2 + n));
        match string_from_utf8(slice_to_vec(body)) {
            Some(s) => {
                let rest: &[u8] = slice_subrange(rest, n, rest.len());
                assert(rest@ == buf@.skip(2 + n));
                Ok((s, rest))
            },
            None => Err(ErrorCode::InvalidData),
        }
    }
}

// ---- a list of index ranges -------------------------------------------------

/// The bytes of one range: its start, then its end.
pub open spec fn range_wire(r: Range<u32>) -> Seq<u8> {
    <u32 as RawEncode>::wire(r.start) + <u32 as RawEncode>::wire(r.end)
}

/// The bytes of a run of ranges, one after another.
pub open spec fn ranges_wire(v: Seq<Range<u32>>) -> Seq<u8>
    decreases v.len(),
{
    if v.len() == 0 {
        Seq::empty()
    } else {
        ranges_wire(v.drop_last()) + range_wire(v.last())
    }
}

/// The range that stands at the front of `bytes`, which holds eight bytes
/// at least.
pub open spec fn range_at(bytes: Seq<u8>) -> Range<u32> {
    Range {
        start: <u32 as RawDecode>::parse(bytes).unwrap().0,
        end: <u32 as RawDecode>::parse(bytes.skip(4)).unwrap().0,
    }
}

/// The first `count` ranges that stand in `bytes`, which holds eight bytes
/// for each.
pub open spec fn ranges_at(bytes: Seq<u8>, count: int) -> Seq<Range<u32>>
    decreases count,
{
    if count <= 0 {
        Seq::empty()
    } else {
        ranges_at(bytes, count - 1).push(range_at(bytes.skip(8 * (count - 1))))
    }
}

/// A run of ranges takes eight bytes for each.
pub proof fn lemma_ranges_wire_len(v: Seq<Range<u32>>)
    ensures
        ranges_wire(v).len() == 8 * v.len(),
    decreases v.len(),
{
    if v.len() > 0 {
        lemma_ranges_wire_len(v.drop_last());
    }
}

/// As many ranges are read as were asked for.
pub proof fn lemma_ranges_at_len(bytes: Seq<u8>, count: int)
    requires
        0 <= count,
    ensures
        ranges_at(bytes, count).len() == count,
    decreases count,
{
    if count > 0 {
        lemma_ranges_at_len(bytes, count - 1);
    }
}

/// Reading a written run of ranges gives the run back, whatever follows it.
pub proof fn lemma_ranges_round_trip(v: Seq<Range<u32>>, tail: Seq<u8>)
    ensures
        ranges_at(ranges_wire(v) + tail, v.len() as int) == v,
    decreases v.len(),
{
    if v.len() > 0 {
        let front = v.drop_last();
        let last = v.last();
        let all = ranges_wire(v) + tail;
        lemma_ranges_wire_len(front);
        lemma_ranges_wire_len(v);
        lemma_ranges_round_trip(front, range_wire(last) + tail);
        assert(all == ranges_wire(front) + (range_wire(last) + tail));
        let at = all.skip(8 * front.len() as int);
        assert(at == range_wire(last) + tail);
        <u32 as RawDecode>::lemma_parse_wire(
            last.start,
            <u32 as RawEncode>::wire(last.end) + tail,
        );
        assert(at == <u32 as RawEncode>::wire(last.start) + (<u32 as RawEncode>::wire(last.end)
            + tail));
        <u32 as RawDecode>::lemma_parse_wire(last.end, tail);
        assert(at.skip(4) == <u32 as RawEncode>::wire(last.end) + tail);
        assert(range_at(at) == last);
        assert(ranges_at(all, v.len() as int) == front.push(last));
        assert(front.push(last) == v);
    }
}

impl RawEncode for Vec<Range<u32>> {
    open spec fn wire(v: Seq<Range<u32>>) -> Seq<u8> {
        <u16 as RawEncode>::wire(v.len() as u16) + ranges_wire(v)
    }

    open spec fn fits(v: Seq<Range<u32>>) -> bool {
        v.len() <= u16::MAX
    }

    fn raw_measure(&self) -> (r: Result<usize, ErrorCode>) {
        let n: usize = self.len();
        if n > 0xffff {
            return Err(ErrorCode::InvalidParam);
        }
        proof {
            lemma_ranges_wire_len(self@);
        }
        Ok(2 + 8 * n)
    }

    fn raw_encode<'a>(&self, buf: &'a mut [u8]) -> (r: Result<&'a mut [u8], ErrorCode>) {
        let n: usize = self.len();
        proof {
            lemma_ranges_wire_len(self@);
        }
        if n > 0xffff || buf.len() < 2 + 8 * n {
            return Err(ErrorCode::InvalidParam);
        }
        let mut bytes: Vec<u8> = Vec::new();
        let mut i: usize = 0;
        while i < n
            invariant
                n == self@.len(),
                i <= n,
                bytes@ == ranges_wire(self@.take(i as int)),
            decreases n - i,
        {
            let start: u32 = self[i].start;
            let end: u32 = self[i].end;
            bytes.push((start / 0x100_0000) as u8);
            bytes.push((start / 0x1_0000 % 256) as u8);
            bytes.push((start / 0x100 % 256) as u8);
            bytes.push((start % 256) as u8);
            bytes.push((end / 0x100_0000) as u8);
            bytes.push((end / 0x1_0000 % 256) as u8);
            bytes.push((end / 0x100 % 256) as u8);
            bytes.push((end % 256) as u8);
            proof {
                let next = self@.take(i + 1);
                assert(next.drop_last() == self@.take(i as int));
                assert(next.last() == self@[i as int]);
                assert(bytes@ == ranges_wire(next.drop_last()) + range_wire(next.last()));
            }
            i += 1;
        }
        assert(self@.take(n as int) == self@);
        let count: u16 = n as u16;
        let rest = count.raw_encode(buf)?;
        put_bytes(rest, bytes.as_slice())
    }
}

impl RawDecode for Vec<Range<u32>> {
    open spec fn parse(bytes: Seq<u8>) -> Option<(Seq<Range<u32>>, int)> {
        match <u16 as RawDecode>::parse(bytes) {
            Some((count, _)) => {
                if bytes.len() >= 2 + 8 * count {
                    Some((ranges_at(bytes.skip(2), count as int), 2 + 8 * count))
                } else {
                    None
                }
            },
            None => None,
        }
    }

    proof fn lemma_parse_bounds(bytes: Seq<u8>) {
        if let Some((v, n)) = Self::parse(bytes) {
            lemma_ranges_at_len(bytes.skip(2), (n - 2) / 8);
        }
    }

    proof fn lemma_parse_wire(v: Seq<Range<u32>>, tail: Seq<u8>) {
        let all = Self::wire(v) + tail;
        lemma_ranges_wire_len(v);
        <u16 as RawDecode>::lemma_parse_wire(v.len() as u16, ranges_wire(v) + tail);
        assert(all == <u16 as RawEncode>::wire(v.len() as u16) + (ranges_wire(v) + tail));
        assert(all.skip(2) == ranges_wire(v) + tail);
        lemma_ranges_round_trip(v, tail);
    }

    proof fn lemma_parse_cut(v: Seq<Range<u32>>, k: int) {
        let cut = Self::wire(v).take(k);
        lemma_ranges_wire_len(v);
        if k >= 2 {
            <u16 as RawDecode>::lemma_parse_wire(v.len() as u16, cut.skip(2));
            assert(cut == <u16 as RawEncode>::wire(v.len() as u16) + cut.skip(2));
        }
    }

    fn raw_decode<'a>(buf: &'a [u8]) -> (r: Result<(Self, &'a [u8]), ErrorCode>) {
        let (count, body) = u16::raw_decode(buf)?;
        let n: usize = count as usize;
        if body.len() < 8 * n {
            return Err(ErrorCode::InvalidData);
        }
        let mut out: Vec<Range<u32>> = Vec::new();
        let mut cur: &[u8] = body;
        let mut i: usize = 0;
        while i < n
            invariant
                i <= n,
                8 * n <= body@.len(),
                cur@ == body@.skip(8 * i as int),
                out@ == ranges_at(body@, i as int),
            decreases n - i,
        {
            let (start, after) = u32::raw_decode(cur)?;
            let (end, after) = u32::raw_decode(after)?;
            proof {
                lemma_skip_skip(body@, 8 * i as int, 8);
                assert(after@ == cur@.skip(8));
            }
            out.push(Range { start, end });
            cur = after;
            i += 1;
        }
        assert(cur@ == buf@.skip(2 + 8 * n as int)) by {
            lemma_skip_skip(buf@, 2, 8 * n as int);
        }
        Ok((out, cur))
    }
}

} // verus!
