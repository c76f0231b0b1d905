//! What holds of every message and its frame.
//!
//! A message that was written is read back as it was; a frame that was cut
//! short is read as nothing; and an optional field is found by the reader
//! exactly when the writer had it, under the flag of its place among the
//! optional fields.

use vstd::prelude::*;
use std::ops::Range;
use crate::flags::flag_bit;
use crate::flags::flag_set;
use crate::flags::frame_flags;
use crate::flags::lemma_flag_bits;
use crate::flags::lemma_flags_union;
use crate::protocol::ChannelEstimate;
use crate::protocol::InterestView;
use crate::protocol::PieceControlView;
use crate::protocol::PieceDataView;
use crate::protocol::PieceDesc;
use crate::protocol::RespInterestView;
use crate::raw::fits_opt;
use crate::raw::parse_opt;
use crate::raw::wire_opt;
use crate::raw::RawDecode;
use crate::raw::RawEncode;
use crate::types::ChunkId;
use crate::types::DeviceId;
use crate::types::PieceSessionType;
use crate::types::TempSeq;
use crate::error::ErrorCode;
use crate::protocol::PieceControlCommand;

verus! {

// ---- one field in front of others -------------------------------------------

/// A field is read off the front of what was written, whatever follows it,
/// and what follows it is what is left.
#[verifier::spinoff_prover]
#[verifier::rlimit(40)]
pub proof fn lemma_field_first<T: RawDecode>(v: T::V, tail: Seq<u8>)
    requires
        T::fits(v),
    ensures
        T::parse(T::wire(v) + tail) == Some((v, T::wire(v).len() as int)),
        (T::wire(v) + tail).skip(T::wire(v).len() as int) == tail,
{
    T::lemma_parse_wire(v, tail);
    assert((T::wire(v) + tail).skip(T::wire(v).len() as int) =~= tail);
}

/// The same for an optional field under its flag.
#[verifier::spinoff_prover]
#[verifier::rlimit(40)]
pub proof fn lemma_option_first<T: RawDecode>(v: Option<T::V>, tail: Seq<u8>)
    requires
        fits_opt::<T>(v),
    ensures
        parse_opt::<T>(v is Some, wire_opt::<T>(v) + tail) == Some(
            (v, wire_opt::<T>(v).len() as int),
        ),
        (wire_opt::<T>(v) + tail).skip(wire_opt::<T>(v).len() as int) == tail,
{
    if let Some(x) = v {
        T::lemma_parse_wire(x, tail);
    }
    assert((wire_opt::<T>(v) + tail).skip(wire_opt::<T>(v).len() as int) =~= tail);
}

/// Of a field and what follows it, cut after `k` bytes: the field is read
/// as nothing where the cut falls within it, and as itself where it does
/// not, and then what is left is what followed it, cut.
#[verifier::spinoff_prover]
#[verifier::rlimit(40)]
pub proof fn lemma_field_cut<T: RawDecode>(v: T::V, tail: Seq<u8>, k: int)
    requires
        T::fits(v),
        0 <= k <= (T::wire(v) + tail).len(),
    ensures
        k < T::wire(v).len() ==> T::parse((T::wire(v) + tail).take(k)) is None,
        k >= T::wire(v).len() ==> T::parse((T::wire(v) + tail).take(k)) == Some(
            (v, T::wire(v).len() as int),
        ) && (T::wire(v) + tail).take(k).skip(T::wire(v).len() as int) == tail.take(
            k - T::wire(v).len(),
        ),
{
    let w = T::wire(v);
    if k < w.len() {
        T::lemma_parse_cut(v, k);
        assert((w + tail).take(k) =~= w.take(k));
    } else {
        let left = tail.take(k - w.len());
        T::lemma_parse_wire(v, left);
        assert((w + tail).take(k) =~= w + left);
        assert((w + left).skip(w.len() as int) =~= left);
    }
}

/// The same for an optional field under its flag.
#[verifier::spinoff_prover]
#[verifier::rlimit(40)]
pub proof fn lemma_option_cut<T: RawDecode>(v: Option<T::V>, tail: Seq<u8>, k: int)
    requires
        fits_opt::<T>(v),
        0 <= k <= (wire_opt::<T>(v) + tail).len(),
    ensures
        k < wire_opt::<T>(v).len() ==> parse_opt::<T>(
            v is Some,
            (wire_opt::<T>(v) + tail).take(k),
        ) is None,
        k >= wire_opt::<T>(v).len() ==> parse_opt::<T>(
            v is Some,
            (wire_opt::<T>(v) + tail).take(k),
        ) == Some((v, wire_opt::<T>(v).len() as int)) && (wire_opt::<T>(v) + tail).take(k).skip(
            wire_opt::<T>(v).len() as int,
        ) == tail.take(k - wire_opt::<T>(v).len()),
{
    match v {
        Some(x) => {
            lemma_field_cut::<T>(x, tail, k);
        },
        None => {
            assert((wire_opt::<T>(v) + tail).take(k).skip(0) =~= tail.take(k));
        },
    }
}

// ---- Interest ---------------------------------------------------------------

/// An `Interest` that was written is read back as it was, whatever follows
/// its frame.
#[verifier::spinoff_prover]
#[verifier::rlimit(40)]
pub proof fn lemma_interest_round_trip(v: InterestView, tail: Seq<u8>)
    requires
        v.fits(),
    ensures
        InterestView::parse(v.body() + tail, Some(v.session_id)) == Some(
            (v, v.body().len() as int),
        ),
        v.frame().skip(1) == v.body(),
{
    let t3 = wire_opt::<String>(v.referer) + tail;
    let t2 = <PieceSessionType as RawEncode>::wire(v.prefer_type) + t3;
    let t1 = <ChunkId as RawEncode>::wire(v.chunk) + t2;
    let all = v.body() + tail;
    lemma_field_first::<u16>(v.flags(), t1);
    lemma_field_first::<ChunkId>(v.chunk, t2);
    lemma_field_first::<PieceSessionType>(v.prefer_type, t3);
    lemma_option_first::<String>(v.referer, tail);
    lemma_flags_union(v.referer is Some, false, false);
    assert(all =~= <u16 as RawEncode>::wire(v.flags()) + t1);
    assert(all.skip(2) == t1);
    let n1 = <ChunkId as RawEncode>::wire(v.chunk).len() as int;
    let n2 = <PieceSessionType as RawEncode>::wire(v.prefer_type).len() as int;
    assert(all.skip(2 + n1) =~= t1.skip(n1));
    assert(all.skip(2 + n1 + n2) =~= t2.skip(n2));
    assert(v.frame().skip(1) =~= v.body());
}

/// An `Interest` whose frame was cut short is read as nothing.
#[verifier::spinoff_prover]
#[verifier::rlimit(40)]
pub proof fn lemma_interest_cut(v: InterestView, k: int)
    requires
        v.fits(),
        0 <= k < v.body().len(),
    ensures
        InterestView::parse(v.body().take(k), Some(v.session_id)) is None,
{
    let t3 = wire_opt::<String>(v.referer);
    let t2 = <PieceSessionType as RawEncode>::wire(v.prefer_type) + t3;
    let t1 = <ChunkId as RawEncode>::wire(v.chunk) + t2;
    let cut = v.body().take(k);
    let n1 = <ChunkId as RawEncode>::wire(v.chunk).len() as int;
    let n2 = <PieceSessionType as RawEncode>::wire(v.prefer_type).len() as int;
    assert(v.body() =~= <u16 as RawEncode>::wire(v.flags()) + t1);
    lemma_flags_union(v.referer is Some, false, false);
    lemma_field_cut::<u16>(v.flags(), t1, k);
    if k >= 2 {
        lemma_field_cut::<ChunkId>(v.chunk, t2, k - 2);
        if k - 2 >= n1 {
            lemma_field_cut::<PieceSessionType>(v.prefer_type, t3, k - 2 - n1);
            assert(cut.skip(2 + n1) =~= cut.skip(2).skip(n1));
            if k - 2 - n1 >= n2 {
                assert(t3 =~= t3 + Seq::<u8>::empty());
                lemma_option_cut::<String>(v.referer, Seq::<u8>::empty(), k - 2 - n1 - n2);
                assert(cut.skip(2 + n1 + n2) =~= cut.skip(2 + n1).skip(n2));
            }
        }
    }
}

/// The frame of an `Interest` carries the flags of the message, and the
/// first flag is the referer's: it is set exactly when there is a referer,
/// and a reader finds a referer exactly when it is set.
#[verifier::spinoff_prover]
#[verifier::rlimit(40)]
pub proof fn lemma_interest_flags(v: InterestView, body: Seq<u8>, sequence: Option<TempSeq>)
    ensures
        frame_flags(v.frame()) == v.flags(),
        flag_set(v.flags(), flag_bit(0)) <==> v.referer is Some,
        InterestView::parse(body, sequence) matches Some((m, n)) ==> (m.referer is Some
            <==> flag_set(
            frame_flags(seq![0u8] + body),
            flag_bit(0),
        )),
{
    lemma_flag_bits();
    lemma_flags_union(v.referer is Some, false, false);
}

// ---- RespInterest -----------------------------------------------------------

/// Of the fields of a `RespInterest` that are always there and what follows
/// them, cut after `k` bytes: they are read as nothing where the cut falls
/// within them, and as themselves where it does not, and then what is left
/// is what followed them, cut.
#[verifier::spinoff_prover]
#[verifier::rlimit(40)]
proof fn lemma_resp_fixed_cut(v: RespInterestView, tail: Seq<u8>, k: int)
    requires
        v.fits(),
        0 <= k <= (v.fixed() + tail).len(),
    ensures
        k < v.fixed().len() ==> RespInterestView::parse_fixed((v.fixed() + tail).take(k)) is None,
        k >= v.fixed().len() ==> RespInterestView::parse_fixed((v.fixed() + tail).take(k)) == Some(
            ((v.chunk, v.err.code()), v.fixed().len() as int),
        ) && (v.fixed() + tail).take(k).skip(v.fixed().len() as int) == tail.take(
            k - v.fixed().len(),
        ),
{
    reveal(RespInterestView::parse_fixed);
    let t1 = <u16 as RawEncode>::wire(v.err.code()) + tail;
    let n1 = <ChunkId as RawEncode>::wire(v.chunk).len() as int;
    let cut = (v.fixed() + tail).take(k);
    assert(v.fixed() + tail =~= <ChunkId as RawEncode>::wire(v.chunk) + t1);
    lemma_field_cut::<ChunkId>(v.chunk, t1, k);
    if k >= n1 {
        lemma_field_cut::<u16>(v.err.code(), tail, k - n1);
        if k - n1 >= 2 {
            assert(cut.skip(n1 + 2) =~= cut.skip(n1).skip(2));
        }
    }
}

/// The same of its optional fields, under the flags of the message.
#[verifier::spinoff_prover]
#[verifier::rlimit(40)]
proof fn lemma_resp_options_cut(v: RespInterestView, tail: Seq<u8>, k: int)
    requires
        v.fits(),
        0 <= k <= (v.options() + tail).len(),
    ensures
        k < v.options().len() ==> RespInterestView::parse_options(
            v.flags(),
            (v.options() + tail).take(k),
        ) is None,
        k >= v.options().len() ==> RespInterestView::parse_options(
            v.flags(),
            (v.options() + tail).take(k),
        ) == Some(((v.redirect, v.redirect_referer, v.cache_node), v.options().len() as int)) && (
        v.options() + tail).take(k).skip(v.options().len() as int) == tail.take(
            k - v.options().len(),
        ),
{
    reveal(RespInterestView::parse_options);
    let t2 = wire_opt::<DeviceId>(v.cache_node) + tail;
    let t1 = wire_opt::<String>(v.redirect_referer) + t2;
    let n1 = wire_opt::<DeviceId>(v.redirect).len() as int;
    let n2 = wire_opt::<String>(v.redirect_referer).len() as int;
    let n3 = wire_opt::<DeviceId>(v.cache_node).len() as int;
    let cut = (v.options() + tail).take(k);
    lemma_flags_union(v.redirect is Some, v.redirect_referer is Some, v.cache_node is Some);
    assert(v.options() + tail =~= wire_opt::<DeviceId>(v.redirect) + t1);
    lemma_option_cut::<DeviceId>(v.redirect, t1, k);
    if k >= n1 {
        lemma_option_cut::<String>(v.redirect_referer, t2, k - n1);
        if k - n1 >= n2 {
            lemma_option_cut::<DeviceId>(v.cache_node, tail, k - n1 - n2);
            assert(cut.skip(n1 + n2) =~= cut.skip(n1).skip(n2));
            if k - n1 - n2 >= n3 {
                assert(cut.skip(n1 + n2 + n3) =~= cut.skip(n1 + n2).skip(n3));
            }
        }
    }
}

/// Of the body of a `RespInterest` and what follows it, cut after `k` bytes:
/// nothing is read where the cut falls within the body, and the message
/// where it does not.
#[verifier::spinoff_prover]
#[verifier::rlimit(40)]
proof fn lemma_resp_interest_body_cut(v: RespInterestView, tail: Seq<u8>, k: int)
    requires
        v.fits(),
        0 <= k <= (v.body() + tail).len(),
    ensures
        k < v.body().len() ==> RespInterestView::parse(
            (v.body() + tail).take(k),
            Some(v.session_id),
        ) is None,
        k >= v.body().len() ==> RespInterestView::parse(
            (v.body() + tail).take(k),
            Some(v.session_id),
        ) == Some((v, v.body().len() as int)),
{
    let t2 = v.options() + tail;
    let t1 = v.fixed() + t2;
    let n1 = v.fixed().len() as int;
    let cut = (v.body() + tail).take(k);
    assert(v.body() + tail =~= <u16 as RawEncode>::wire(v.flags()) + t1);
    lemma_field_cut::<u16>(v.flags(), t1, k);
    ErrorCode::lemma_code_round_trip(v.err);
    if k >= 2 {
        lemma_resp_fixed_cut(v, t2, k - 2);
        if k - 2 >= n1 {
            lemma_resp_options_cut(v, tail, k - 2 - n1);
            assert(cut.skip(2 + n1) =~= cut.skip(2).skip(n1));
        }
    }
}

/// A `RespInterest` that was written is read back as it was, whatever
/// follows its frame.
#[verifier::spinoff_prover]
#[verifier::rlimit(40)]
pub proof fn lemma_resp_interest_round_trip(v: RespInterestView, tail: Seq<u8>)
    requires
        v.fits(),
    ensures
        RespInterestView::parse(v.body() + tail, Some(v.session_id)) == Some(
            (v, v.body().len() as int),
        ),
        v.frame().skip(1) == v.body(),
{
    let all = v.body() + tail;
    lemma_resp_interest_body_cut(v, tail, all.len() as int);
    assert(all.take(all.len() as int) =~= all);
    assert(v.frame().skip(1) =~= v.body());
}

/// A `RespInterest` whose frame was cut short is read as nothing.
#[verifier::spinoff_prover]
#[verifier::rlimit(40)]
pub proof fn lemma_resp_interest_cut(v: RespInterestView, k: int)
    requires
        v.fits(),
        0 <= k < v.body().len(),
    ensures
        RespInterestView::parse(v.body().take(k), Some(v.session_id)) is None,
{
    lemma_resp_interest_body_cut(v, Seq::<u8>::empty(), k);
    assert(v.body() + Seq::<u8>::empty() =~= v.body());
}

/// The frame of a `RespInterest` carries the flags of the message, and the
/// optional fields own the first three flags in their order: each flag is
/// set exactly when its field is there, and a reader finds a field exactly
/// when its flag is set.
#[verifier::spinoff_prover]
#[verifier::rlimit(40)]
pub proof fn lemma_resp_interest_flags(
    v: RespInterestView,
    body: Seq<u8>,
    sequence: Option<TempSeq>,
)
    ensures
        frame_flags(v.frame()) == v.flags(),
        flag_set(v.flags(), flag_bit(0)) <==> v.redirect is Some,
        flag_set(v.flags(), flag_bit(1)) <==> v.redirect_referer is Some,
        flag_set(v.flags(), flag_bit(2)) <==> v.cache_node is Some,
        RespInterestView::parse(body, sequence) matches Some((m, n)) ==> (m.redirect is Some
            <==> flag_set(frame_flags(seq![1u8] + body), flag_bit(0))) && (m.redirect_referer
            is Some <==> flag_set(frame_flags(seq![1u8] + body), flag_bit(1))) && (m.cache_node
            is Some <==> flag_set(frame_flags(seq![1u8] + body), flag_bit(2))),
{
    reveal(RespInterestView::parse_options);
    lemma_flag_bits();
    lemma_flags_union(v.redirect is Some, v.redirect_referer is Some, v.cache_node is Some);
}

// ---- PieceControl -----------------------------------------------------------

/// Of the fields of a `PieceControl` that are always there and what follows
/// them, cut after `k` bytes: they are read as nothing where the cut falls
/// within them, and as themselves where it does not, and then what is left
/// is what followed them, cut.
#[verifier::spinoff_prover]
#[verifier::rlimit(40)]
proof fn lemma_control_fixed_cut(v: PieceControlView, tail: Seq<u8>, k: int)
    requires
        v.fits(),
        0 <= k <= (v.fixed() + tail).len(),
    ensures
        v.fixed().len() == 41,
        k < 41 ==> PieceControlView::parse_fixed((v.fixed() + tail).take(k)) is None,
        k >= 41 ==> PieceControlView::parse_fixed((v.fixed() + tail).take(k)) == Some(
            ((v.sequence, v.session_id, v.chunk, v.command), 41int),
        ) && (v.fixed() + tail).take(k).skip(41) == tail.take(k - 41),
{
    reveal(PieceControlView::parse_fixed);
    let t3 = <PieceControlCommand as RawEncode>::wire(v.command) + tail;
    let t2 = <ChunkId as RawEncode>::wire(v.chunk) + t3;
    let t1 = <TempSeq as RawEncode>::wire(v.session_id) + t2;
    let cut = (v.fixed() + tail).take(k);
    assert(v.fixed() + tail =~= <TempSeq as RawEncode>::wire(v.sequence) + t1);
    lemma_field_cut::<TempSeq>(v.sequence, t1, k);
    if k >= 4 {
        lemma_field_cut::<TempSeq>(v.session_id, t2, k - 4);
        if k >= 8 {
            lemma_field_cut::<ChunkId>(v.chunk, t3, k - 8);
            assert(cut.skip(8) =~= cut.skip(4).skip(4));
            if k >= 40 {
                lemma_field_cut::<PieceControlCommand>(v.command, tail, k - 40);
                assert(cut.skip(40) =~= cut.skip(8).skip(32));
                if k >= 41 {
                    assert(cut.skip(41) =~= cut.skip(40).skip(1));
                }
            }
        }
    }
}

/// The same of its optional fields, under the flags of the message.
#[verifier::spinoff_prover]
#[verifier::rlimit(40)]
proof fn lemma_control_options_cut(v: PieceControlView, tail: Seq<u8>, k: int)
    requires
        v.fits(),
        0 <= k <= (v.options() + tail).len(),
    ensures
        k < v.options().len() ==> PieceControlView::parse_options(
            v.flags(),
            (v.options() + tail).take(k),
        ) is None,
        k >= v.options().len() ==> PieceControlView::parse_options(
            v.flags(),
            (v.options() + tail).take(k),
        ) == Some(((v.max_index, v.lost_index), v.options().len() as int)) && (v.options()
            + tail).take(k).skip(v.options().len() as int) == tail.take(k - v.options().len()),
{
    reveal(PieceControlView::parse_options);
    let t1 = wire_opt::<Vec<Range<u32>>>(v.lost_index) + tail;
    let n1 = wire_opt::<u32>(v.max_index).len() as int;
    let n2 = wire_opt::<Vec<Range<u32>>>(v.lost_index).len() as int;
    let cut = (v.options() + tail).take(k);
    lemma_flags_union(v.max_index is Some, v.lost_index is Some, false);
    assert(v.options() + tail =~= wire_opt::<u32>(v.max_index) + t1);
    lemma_option_cut::<u32>(v.max_index, t1, k);
    if k >= n1 {
        lemma_option_cut::<Vec<Range<u32>>>(v.lost_index, tail, k - n1);
        if k - n1 >= n2 {
            assert(cut.skip(n1 + n2) =~= cut.skip(n1).skip(n2));
        }
    }
}

/// Of the body of a `PieceControl` and what follows it, cut after `k`
/// bytes: nothing is read where the cut falls within the body, and the
/// message where it does not.
#[verifier::spinoff_prover]
#[verifier::rlimit(40)]
proof fn lemma_piece_control_body_cut(v: PieceControlView, tail: Seq<u8>, k: int)
    requires
        v.fits(),
        0 <= k <= (v.body() + tail).len(),
    ensures
        k < v.body().len() ==> PieceControlView::parse((v.body() + tail).take(k)) is None,
        k >= v.body().len() ==> PieceControlView::parse((v.body() + tail).take(k)) == Some(
            (v, v.body().len() as int),
        ),
{
    let t2 = v.options() + tail;
    let t1 = v.fixed() + t2;
    let cut = (v.body() + tail).take(k);
    assert(v.body() + tail =~= <u16 as RawEncode>::wire(v.flags()) + t1);
    lemma_field_cut::<u16>(v.flags(), t1, k);
    lemma_control_fixed_cut(v, t2, 0);
    if k >= 2 {
        lemma_control_fixed_cut(v, t2, k - 2);
        if k - 2 >= 41 {
            lemma_control_options_cut(v, tail, k - 43);
            assert(cut.skip(43) =~= cut.skip(2).skip(41));
        }
    }
}

/// A `PieceControl` that was written is read back as it was, whatever
/// follows its frame.
#[verifier::spinoff_prover]
#[verifier::rlimit(40)]
pub proof fn lemma_piece_control_round_trip(v: PieceControlView, tail: Seq<u8>)
    requires
        v.fits(),
    ensures
        PieceControlView::parse(v.body() + tail) == Some((v, v.body().len() as int)),
        v.frame().skip(1) == v.body(),
{
    let all = v.body() + tail;
    lemma_piece_control_body_cut(v, tail, all.len() as int);
    assert(all.take(all.len() as int) =~= all);
    assert(v.frame().skip(1) =~= v.body());
}

/// A `PieceControl` whose frame was cut short is read as nothing.
#[verifier::spinoff_prover]
#[verifier::rlimit(40)]
pub proof fn lemma_piece_control_cut(v: PieceControlView, k: int)
    requires
        v.fits(),
        0 <= k < v.body().len(),
    ensures
        PieceControlView::parse(v.body().take(k)) is None,
{
    lemma_piece_control_body_cut(v, Seq::<u8>::empty(), k);
    assert(v.body() + Seq::<u8>::empty() =~= v.body());
}

/// The frame of a `PieceControl` carries the flags of the message, and the
/// optional fields own the first two flags in their order: each flag is set
/// exactly when its field is there, and a reader finds a field exactly when
/// its flag is set.
#[verifier::spinoff_prover]
#[verifier::rlimit(40)]
pub proof fn lemma_piece_control_flags(v: PieceControlView, body: Seq<u8>)
    ensures
        frame_flags(v.frame()) == v.flags(),
        flag_set(v.flags(), flag_bit(0)) <==> v.max_index is Some,
        flag_set(v.flags(), flag_bit(1)) <==> v.lost_index is Some,
        PieceControlView::parse(body) matches Some((m, n)) ==> (m.max_index is Some <==> flag_set(
            frame_flags(seq![0x61u8] + body),
            flag_bit(0),
        )) && (m.lost_index is Some <==> flag_set(frame_flags(seq![0x61u8] + body), flag_bit(1))),
{
    reveal(PieceControlView::parse_options);
    lemma_flag_bits();
    lemma_flags_union(v.max_index is Some, v.lost_index is Some, false);
}

// ---- PieceData --------------------------------------------------------------

/// A piece that was written is read back as it was.
#[verifier::spinoff_prover]
#[verifier::rlimit(40)]
pub proof fn lemma_piece_data_round_trip(v: PieceDataView)
    requires
        v.fits(),
    ensures
        PieceDataView::parse(v.frame().skip(1)) == Some(v),
{
    let est = match v.est_seq {
        Some(s) => s,
        None => TempSeq(0),
    };
    let t3 = <PieceDesc as RawEncode>::wire(v.desc) + v.data;
    let t2 = <ChunkId as RawEncode>::wire(v.chunk) + t3;
    let t1 = <TempSeq as RawEncode>::wire(v.session_id) + t2;
    let all = v.frame().skip(1);
    lemma_field_first::<TempSeq>(est, t1);
    lemma_field_first::<TempSeq>(v.session_id, t2);
    lemma_field_first::<ChunkId>(v.chunk, t3);
    lemma_field_first::<PieceDesc>(v.desc, v.data);
    assert(all =~= <TempSeq as RawEncode>::wire(est) + t1);
    assert(all.skip(4) == t1);
    assert(all.skip(8) =~= t1.skip(4));
    assert(all.skip(40) =~= t2.skip(32));
    assert(all.skip(47) =~= t3.skip(7));
}

/// A piece whose frame was cut within its header is read as nothing. (A
/// cut within the content cannot be told from a shorter piece: the content
/// runs to the end of the datagram.)
#[verifier::spinoff_prover]
#[verifier::rlimit(40)]
pub proof fn lemma_piece_data_cut(v: PieceDataView, k: int)
    requires
        v.fits(),
        0 <= k < 47,
    ensures
        PieceDataView::parse(v.frame().skip(1).take(k)) is None,
{
    let est = match v.est_seq {
        Some(s) => s,
        None => TempSeq(0),
    };
    let t3 = <PieceDesc as RawEncode>::wire(v.desc) + v.data;
    let t2 = <ChunkId as RawEncode>::wire(v.chunk) + t3;
    let t1 = <TempSeq as RawEncode>::wire(v.session_id) + t2;
    let all = v.frame().skip(1);
    let cut = all.take(k);
    assert(all =~= <TempSeq as RawEncode>::wire(est) + t1);
    lemma_field_cut::<TempSeq>(est, t1, k);
    if k >= 4 {
        lemma_field_cut::<TempSeq>(v.session_id, t2, k - 4);
        if k >= 8 {
            lemma_field_cut::<ChunkId>(v.chunk, t3, k - 8);
            assert(cut.skip(8) =~= cut.skip(4).skip(4));
            if k >= 40 {
                lemma_field_cut::<PieceDesc>(v.desc, v.data, k - 40);
                assert(cut.skip(40) =~= cut.skip(8).skip(32));
            }
        }
    }
}

// ---- ChannelEstimate --------------------------------------------------------

/// An estimate that was written is read back as it was, whatever follows
/// its frame; one whose frame was cut short is read as nothing.
#[verifier::spinoff_prover]
#[verifier::rlimit(40)]
pub proof fn lemma_channel_estimate_round_trip(v: ChannelEstimate, tail: Seq<u8>, k: int)
    ensures
        ChannelEstimate::parse(v.frame().skip(1) + tail) == Some((v, 12int)),
        0 <= k < 12 ==> ChannelEstimate::parse(v.frame().skip(1).take(k)) is None,
{
    let t1 = <u64 as RawEncode>::wire(v.recved) + tail;
    let all = v.frame().skip(1) + tail;
    lemma_field_first::<TempSeq>(v.sequence, t1);
    lemma_field_first::<u64>(v.recved, tail);
    assert(all =~= <TempSeq as RawEncode>::wire(v.sequence) + t1);
    assert(all.skip(4) == t1);
}

} // verus!
