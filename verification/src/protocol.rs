//! The messages of the chunk transfer protocol and their frames.
//!
//! Every frame opens with a command byte. `Interest`, `RespInterest` and
//! `PieceControl` follow it with a flags field, then their fields in a fixed
//! order; an optional field stands in the frame exactly when its flag is set.
//! `PieceData` and `ChannelEstimate` have no optional fields and no flags.
//! A reader is handed what lies behind the command byte.

use vstd::prelude::*;
use std::ops::Range;
use vstd::slice::slice_to_vec;
use crate::error::ErrorCode;
use crate::flags::flag_if;
use crate::flags::flag_set;
use crate::flags::lemma_flag_bits;
use crate::flags::FlagsCounter;
use crate::flags::FlagsDecodeContext;
use crate::flags::FlagsEncodeContext;
use crate::raw::fits_opt;
use crate::raw::lemma_ranges_wire_len;
use crate::raw::lemma_skip_skip;
use crate::raw::parse_opt;
use crate::raw::view_opt;
use crate::raw::wire_opt;
use crate::raw::put_bytes;
use crate::raw::RawDecode;
use crate::raw::RawEncode;
use crate::types::ChunkId;
use crate::types::ChunkIdView;
use crate::types::DeviceId;
use crate::types::PieceSessionType;
use crate::types::TempSeq;

verus! {

// ---- command codes ----------------------------------------------------------

/// The commands that travel as datagrams on a channel.
#[derive(Debug, Clone, Copy, Eq, PartialEq, Structural)]
pub enum CommandCode {
    Interest,
    RespInterest,
}

impl CommandCode {
    /// The command byte.
    pub open spec fn code(self) -> u8 {
        match self {
            CommandCode::Interest => 0,
            CommandCode::RespInterest => 1,
        }
    }

    pub fn value(self) -> (v: u8)
        ensures
            v == self.code(),
    {
        match self {
            CommandCode::Interest => 0,
            CommandCode::RespInterest => 1,
        }
    }

    /// The command a byte stands for; `InvalidParam` where it stands for none.
    pub fn try_from(v: u8) -> (r: Result<CommandCode, ErrorCode>)
        ensures
            v == 0 ==> r == Ok::<CommandCode, ErrorCode>(CommandCode::Interest),
            v == 1 ==> r == Ok::<CommandCode, ErrorCode>(CommandCode::RespInterest),
            v > 1 ==> r == Err::<CommandCode, ErrorCode>(ErrorCode::InvalidParam),
    {
        match v {
            0u8 => Ok(CommandCode::Interest),
            1u8 => Ok(CommandCode::RespInterest),
            _ => Err(ErrorCode::InvalidParam),
        }
    }
}

/// A message that travels as a datagram on a channel.
pub trait CommandPackage {
    /// The command that stands for the message.
    spec fn command() -> CommandCode;

    fn command_code() -> (c: CommandCode)
        ensures
            c == Self::command(),
    ;
}

/// The commands that travel directly on the transport.
#[derive(Debug, Clone, Copy, Eq, PartialEq, Structural)]
pub enum PackageCmdCode {
    PieceData,
    PieceControl,
    ChannelEstimate,
}

impl PackageCmdCode {
    /// The command byte.
    pub open spec fn code(self) -> u8 {
        match self {
            PackageCmdCode::PieceData => 0x60,
            PackageCmdCode::PieceControl => 0x61,
            PackageCmdCode::ChannelEstimate => 0x62,
        }
    }

    pub fn value(self) -> (v: u8)
        ensures
            v == self.code(),
    {
        match self {
            PackageCmdCode::PieceData => 0x60,
            PackageCmdCode::PieceControl => 0x61,
            PackageCmdCode::ChannelEstimate => 0x62,
        }
    }

    /// The command a byte stands for; `InvalidParam` where it stands for none.
    pub fn try_from(v: u8) -> (r: Result<PackageCmdCode, ErrorCode>)
        ensures
            r matches Ok(c) ==> c.code() == v,
            r is Ok <==> 0x60 <= v <= 0x62,
            r matches Err(e) ==> e == ErrorCode::InvalidParam,
    {
        match v {
            0x60u8 => Ok(PackageCmdCode::PieceData),
            0x61u8 => Ok(PackageCmdCode::PieceControl),
            0x62u8 => Ok(PackageCmdCode::ChannelEstimate),
            _ => Err(ErrorCode::InvalidParam),
        }
    }
}

/// A message that travels directly on the transport.
pub trait Package {
    /// The command that stands for the message.
    spec fn command() -> PackageCmdCode;

    fn cmd_code() -> (c: PackageCmdCode)
        ensures
            c == Self::command(),
    ;
}

/// What the datagram layer carries beside a command's frame.
#[derive(Debug, Clone, Copy, PartialEq, Eq, Structural)]
pub struct DatagramOptions {
    /// The session the command belongs to.
    pub sequence: Option<TempSeq>,
}

impl Default for DatagramOptions {
    fn default() -> (o: DatagramOptions)
        ensures
            o.sequence is None,
    {
        DatagramOptions { sequence: None }
    }
}

/// Zero adds no flag.
pub proof fn lemma_zero_or(x: u16)
    ensures
        0u16 | x == x,
        x | 0u16 == x,
{
    assert(0u16 | x == x) by (bit_vector);
    assert(x | 0u16 == x) by (bit_vector);
}

// ---- Interest ---------------------------------------------------------------

/// A request for a chunk.
#[derive(Debug)]
pub struct Interest {
    pub session_id: TempSeq,
    pub chunk: ChunkId,
    pub prefer_type: PieceSessionType,
    pub referer: Option<String>,
}

/// An `Interest` as plain values.
pub ghost struct InterestView {
    pub session_id: TempSeq,
    pub chunk: ChunkIdView,
    pub prefer_type: PieceSessionType,
    pub referer: Option<Seq<char>>,
}

impl View for Interest {
    type V = InterestView;

    open spec fn view(&self) -> InterestView {
        InterestView {
            session_id: self.session_id,
            chunk: self.chunk@,
            prefer_type: self.prefer_type,
            referer: view_opt(self.referer),
        }
    }
}

impl InterestView {
    /// Whether the message can be written.
    pub open spec fn fits(self) -> bool {
        <ChunkId as RawEncode>::fits(self.chunk) && fits_opt::<String>(self.referer)
    }

    /// The flags of its frame: the first flag for the referer.
    pub open spec fn flags(self) -> u16 {
        flag_if(self.referer is Some, 1)
    }

    /// Its frame behind the command byte.
    pub open spec fn body(self) -> Seq<u8> {
        <u16 as RawEncode>::wire(self.flags()) + <ChunkId as RawEncode>::wire(self.chunk)
            + <PieceSessionType as RawEncode>::wire(self.prefer_type) + wire_opt::<String>(
            self.referer,
        )
    }

    /// Its frame.
    pub open spec fn frame(self) -> Seq<u8> {
        seq![CommandCode::Interest.code()] + self.body()
    }

    /// What a reader makes of the bytes behind the command byte of a
    /// datagram that came for session `sequence`.
    pub open spec fn parse(body: Seq<u8>, sequence: Option<TempSeq>) -> Option<
        (InterestView, int),
    > {
        if sequence is None || body.len() < 2 {
            None
        } else {
            let flags = (body[0] * 256 + body[1]) as u16;
            match <ChunkId as RawDecode>::parse(body.skip(2)) {
                None => None,
                Some((chunk, n1)) => match <PieceSessionType as RawDecode>::parse(
                    body.skip(2 + n1),
                ) {
                    None => None,
                    Some((prefer_type, n2)) => match parse_opt::<String>(
                        flag_set(flags, 1),
                        body.skip(2 + n1 + n2),
                    ) {
                        None => None,
                        Some((referer, n3)) => Some(
                            (
                                InterestView {
                                    session_id: sequence->0,
                                    chunk,
                                    prefer_type,
                                    referer,
                                },
                                2 + n1 + n2 + n3,
                            ),
                        ),
                    },
                },
            }
        }
    }
}

impl CommandPackage for Interest {
    open spec fn command() -> CommandCode {
        CommandCode::Interest
    }

    fn command_code() -> (c: CommandCode) {
        CommandCode::Interest
    }
}

impl Interest {
    /// The length of the frame, where the message can be written.
    pub fn raw_measure_with_context(&self) -> (r: Result<usize, ErrorCode>)
        ensures
            r is Ok <==> self@.fits(),
            r matches Ok(n) ==> n == self@.frame().len(),
            r matches Err(e) ==> e == ErrorCode::InvalidParam,
    {
        let fixed: usize = 3 + self.chunk.raw_measure()? + self.prefer_type.raw_measure()?;
        match &self.referer {
            Some(s) => {
                let n: usize = s.raw_measure()?;
                Ok(fixed + n)
            },
            None => Ok(fixed),
        }
    }

    /// Writes the frame into the front of `enc_buf`, returns the rest of
    /// `enc_buf`, and notes the session in `options`. Fails, leaving both as
    /// they were, where the message cannot be written or `enc_buf` is too
    /// short for its frame.
    pub fn raw_encode_with_context<'a>(
        &self,
        enc_buf: &'a mut [u8],
        options: &mut DatagramOptions,
    ) -> (r: Result<&'a mut [u8], ErrorCode>)
        ensures
            r is Ok <==> self@.fits() && self@.frame().len() <= old(enc_buf)@.len(),
            r matches Ok(rest) ==> rest@ == old(enc_buf)@.skip(self@.frame().len() as int)
                && final(enc_buf)@ == self@.frame() + final(rest)@ && final(options).sequence
                == Some(self.session_id),
            r matches Err(e) ==> e == ErrorCode::InvalidParam && final(enc_buf)@ == old(enc_buf)@
                && *final(options) == *old(options),
    {
        let need: usize = self.raw_measure_with_context()?;
        if enc_buf.len() < need {
            return Err(ErrorCode::InvalidParam);
        }
        options.sequence = Some(self.session_id);
        let mut flags = FlagsCounter::new();
        let (mut context, buf) = FlagsEncodeContext::new(CommandCode::Interest.value(), enc_buf)?;
        let buf = context.encode(buf, &self.chunk)?;
        let buf = context.encode(buf, &self.prefer_type)?;
        let bit: u16 = flags.next();
        let _ = context.option_encode(buf, &self.referer, bit)?;
        proof {
            lemma_flag_bits();
            lemma_zero_or(flag_if(self.referer is Some, 1));
        }
        context.finish(enc_buf)
    }

    /// Reads an `Interest` off the front of `buf`, which starts behind the
    /// command byte, for the session that `options` names. Fails with
    /// `InvalidData` where `options` names none or the bytes hold no
    /// `Interest`.
    pub fn raw_decode_with_context<'a>(buf: &'a [u8], options: &DatagramOptions) -> (r: Result<
        (Interest, &'a [u8]),
        ErrorCode,
    >)
        ensures
            r is Ok <==> InterestView::parse(buf@, options.sequence) is Some,
            r matches Ok((m, rest)) ==> InterestView::parse(buf@, options.sequence) == Some(
                (m@, buf@.len() - rest@.len()),
            ) && rest@ == buf@.skip(buf@.len() - rest@.len()),
            r matches Err(e) ==> e == ErrorCode::InvalidData,
    {
        let session_id: TempSeq = match options.sequence {
            Some(s) => s,
            None => {
                return Err(ErrorCode::InvalidData);
            },
        };
        let mut flags = FlagsCounter::new();
        let (mut context, buf1) = FlagsDecodeContext::new(buf)?;
        proof {
            <ChunkId as RawDecode>::lemma_parse_bounds(buf1@);
        }
        let (chunk, buf2) = context.decode::<ChunkId>(buf1)?;
        proof {
            lemma_skip_skip(buf@, 2, buf1@.len() - buf2@.len());
            <PieceSessionType as RawDecode>::lemma_parse_bounds(buf2@);
        }
        let (prefer_type, buf3) = context.decode::<PieceSessionType>(buf2)?;
        let bit: u16 = flags.next();
        proof {
            lemma_flag_bits();
            lemma_skip_skip(buf@, buf@.len() - buf2@.len(), buf2@.len() - buf3@.len());
            <String as RawDecode>::lemma_parse_bounds(buf3@);
        }
        let (referer, buf4) = context.option_decode::<String>(buf3, bit)?;
        proof {
            lemma_skip_skip(buf@, buf@.len() - buf3@.len(), buf3@.len() - buf4@.len());
        }
        Ok((Interest { session_id, chunk, prefer_type, referer }, buf4))
    }
}

// ---- RespInterest -----------------------------------------------------------

/// The answer to an `Interest` that is not served: why, and where else the
/// chunk may be had.
#[derive(Debug)]
pub struct RespInterest {
    pub session_id: TempSeq,
    pub chunk: ChunkId,
    pub err: ErrorCode,
    pub redirect: Option<DeviceId>,
    pub redirect_referer: Option<String>,
    pub cache_node: Option<DeviceId>,
}

/// A `RespInterest` as plain values.
pub ghost struct RespInterestView {
    pub session_id: TempSeq,
    pub chunk: ChunkIdView,
    pub err: ErrorCode,
    pub redirect: Option<Seq<u8>>,
    pub redirect_referer: Option<Seq<char>>,
    pub cache_node: Option<Seq<u8>>,
}

impl View for RespInterest {
    type V = RespInterestView;

    open spec fn view(&self) -> RespInterestView {
        RespInterestView {
            session_id: self.session_id,
            chunk: self.chunk@,
            err: self.err,
            redirect: view_opt(self.redirect),
            redirect_referer: view_opt(self.redirect_referer),
            cache_node: view_opt(self.cache_node),
        }
    }
}

impl RespInterestView {
    /// Whether the message can be written.
    pub open spec fn fits(self) -> bool {
        <ChunkId as RawEncode>::fits(self.chunk) && fits_opt::<DeviceId>(self.redirect)
            && fits_opt::<String>(self.redirect_referer) && fits_opt::<DeviceId>(self.cache_node)
    }

    /// The flags of its frame: one for each optional field, in their order.
    pub open spec fn flags(self) -> u16 {
        flag_if(self.redirect is Some, 1) | flag_if(self.redirect_referer is Some, 2) | flag_if(
            self.cache_node is Some,
            4,
        )
    }

    /// Those of its optional fields that are there, one after another.
    pub open spec fn options(self) -> Seq<u8> {
        wire_opt::<DeviceId>(self.redirect) + wire_opt::<String>(self.redirect_referer)
            + wire_opt::<DeviceId>(self.cache_node)
    }

    /// The fields that are always there, one after another.
    pub open spec fn fixed(self) -> Seq<u8> {
        <ChunkId as RawEncode>::wire(self.chunk) + <u16 as RawEncode>::wire(self.err.code())
    }

    /// Its fields, one after another.
    pub open spec fn fields(self) -> Seq<u8> {
        self.fixed() + self.options()
    }

    /// Its frame behind the command byte: the flags, then the fields.
    pub open spec fn body(self) -> Seq<u8> {
        <u16 as RawEncode>::wire(self.flags()) + self.fields()
    }

    /// Its frame.
    pub open spec fn frame(self) -> Seq<u8> {
        seq![CommandCode::RespInterest.code()] + self.body()
    }

    /// What a reader finds of the fields that are always there: the chunk
    /// and the number of the verdict.
    #[verifier::opaque]
    pub open spec fn parse_fixed(bytes: Seq<u8>) -> Option<((ChunkIdView, u16), int)> {
        match <ChunkId as RawDecode>::parse(bytes) {
            None => None,
            Some((chunk, n1)) => match <u16 as RawDecode>::parse(bytes.skip(n1)) {
                None => None,
                Some((code, n2)) => Some(((chunk, code), n1 + n2)),
            },
        }
    }

    /// What a reader finds of the optional fields under `flags`.
    #[verifier::opaque]
    pub open spec fn parse_options(flags: u16, bytes: Seq<u8>) -> Option<
        ((Option<Seq<u8>>, Option<Seq<char>>, Option<Seq<u8>>), int),
    > {
        match parse_opt::<DeviceId>(flag_set(flags, 1), bytes) {
            None => None,
            Some((redirect, n1)) => match parse_opt::<String>(flag_set(flags, 2), bytes.skip(n1)) {
                None => None,
                Some((redirect_referer, n2)) => match parse_opt::<DeviceId>(
                    flag_set(flags, 4),
                    bytes.skip(n1 + n2),
                ) {
                    None => None,
                    Some((cache_node, n3)) => Some(
                        ((redirect, redirect_referer, cache_node), n1 + n2 + n3),
                    ),
                },
            },
        }
    }

    /// What a reader makes of the bytes behind the command byte of a
    /// datagram that came for session `sequence`.
    pub open spec fn parse(body: Seq<u8>, sequence: Option<TempSeq>) -> Option<
        (RespInterestView, int),
    > {
        if sequence is None || body.len() < 2 {
            None
        } else {
            let flags = (body[0] * 256 + body[1]) as u16;
            match Self::parse_fixed(body.skip(2)) {
                None => None,
                Some((fixed, n1)) => match Self::parse_options(flags, body.skip(2 + n1)) {
                    None => None,
                    Some((options, n2)) => Some(
                        (
                            RespInterestView {
                                session_id: sequence->0,
                                chunk: fixed.0,
                                err: ErrorCode::of_code(fixed.1),
                                redirect: options.0,
                                redirect_referer: options.1,
                                cache_node: options.2,
                            },
                            2 + n1 + n2,
                        ),
                    ),
                },
            }
        }
    }
}

impl CommandPackage for RespInterest {
    open spec fn command() -> CommandCode {
        CommandCode::RespInterest
    }

    fn command_code() -> (c: CommandCode) {
        CommandCode::RespInterest
    }
}

impl RespInterest {
    /// The length of the frame, where the message can be written.
    pub fn raw_measure_with_context(&self) -> (r: Result<usize, ErrorCode>)
        ensures
            r is Ok <==> self@.fits(),
            r matches Ok(n) ==> n == self@.frame().len(),
            r matches Err(e) ==> e == ErrorCode::InvalidParam,
    {
        let mut n: usize = 3 + self.chunk.raw_measure()? + 2;
        if let Some(d) = &self.redirect {
            n = n + d.raw_measure()?;
        }
        if let Some(s) = &self.redirect_referer {
            n = n + s.raw_measure()?;
        }
        if let Some(d) = &self.cache_node {
            n = n + d.raw_measure()?;
        }
        Ok(n)
    }

    /// Writes the frame into the front of `enc_buf`, returns the rest of
    /// `enc_buf`, and notes the session in `options`. Fails, leaving both as
    /// they were, where the message cannot be written or `enc_buf` is too
    /// short for its frame.
    pub fn raw_encode_with_context<'a>(
        &self,
        enc_buf: &'a mut [u8],
        options: &mut DatagramOptions,
    ) -> (r: Result<&'a mut [u8], ErrorCode>)
        ensures
            r is Ok <==> self@.fits() && self@.frame().len() <= old(enc_buf)@.len(),
            r matches Ok(rest) ==> rest@ == old(enc_buf)@.skip(self@.frame().len() as int)
                && final(enc_buf)@ == self@.frame() + final(rest)@ && final(options).sequence
                == Some(self.session_id),
            r matches Err(e) ==> e == ErrorCode::InvalidParam && final(enc_buf)@ == old(enc_buf)@
                && *final(options) == *old(options),
    {
        let need: usize = self.raw_measure_with_context()?;
        if enc_buf.len() < need {
            return Err(ErrorCode::InvalidParam);
        }
        options.sequence = Some(self.session_id);
        let (mut context, buf) = FlagsEncodeContext::new(
            CommandCode::RespInterest.value(),
            enc_buf,
        )?;
        let _ = self.encode_fields(&mut context, buf)?;
        context.finish(enc_buf)
    }

    /// Writes the fields behind the flags.
    fn encode_fields<'a>(&self, context: &mut FlagsEncodeContext, buf: &'a mut [u8]) -> (r: Result<
        &'a mut [u8],
        ErrorCode,
    >)
        requires
            old(context).length + old(buf)@.len() <= usize::MAX,
            old(context).flags == 0,
        ensures
            r is Ok <==> self@.fits() && self@.fields().len() <= old(buf)@.len(),
            r matches Ok(rest) ==> rest@ == old(buf)@.skip(self@.fields().len() as int)
                && final(buf)@ == self@.fields() + final(rest)@ && final(context).length
                == old(context).length
                + self@.fields().len() && final(context).flags == self@.flags(),
            r matches Err(e) ==> e == ErrorCode::InvalidParam,
    {
        let ghost whole = final(buf)@;
        let ghost start = buf@;
        let b1 = context.encode(buf, &self.chunk)?;
        let code: u16 = self.err.into_u16();
        let b2 = context.encode(b1, &code)?;
        let r = self.encode_options(context, b2);
        proof {
            if r is Ok {
                lemma_skip_skip(start, 32, 2);
                lemma_skip_skip(start, 34, self@.options().len() as int);
            }
            assert(r matches Ok(rest) ==> whole =~= self@.fields() + final(rest)@);
        }
        r
    }

    /// Writes the optional fields and gathers their flags.
    fn encode_options<'a>(&self, context: &mut FlagsEncodeContext, buf: &'a mut [u8]) -> (r:
        Result<&'a mut [u8], ErrorCode>)
        requires
            old(context).length + old(buf)@.len() <= usize::MAX,
            old(context).flags == 0,
        ensures
            r is Ok <==> self@.fits() && self@.options().len() <= old(buf)@.len(),
            r matches Ok(rest) ==> rest@ == old(buf)@.skip(self@.options().len() as int)
                && final(buf)@ == self@.options() + final(rest)@ && final(context).length
                == old(context).length
                + self@.options().len() && final(context).flags == self@.flags(),
            r matches Err(e) ==> e == ErrorCode::InvalidParam,
    {
        let mut flags = FlagsCounter::new();
        let bit0: u16 = flags.next();
        let bit1: u16 = flags.next();
        let bit2: u16 = flags.next();
        proof {
            self.chunk.lemma_view_fits();
            lemma_flag_bits();
            lemma_zero_or(flag_if(self.redirect is Some, 1));
        }
        let buf = context.option_encode(buf, &self.redirect, bit0)?;
        let buf = context.option_encode(buf, &self.redirect_referer, bit1)?;
        context.option_encode(buf, &self.cache_node, bit2)
    }

    /// Reads a `RespInterest` off the front of `buf`, which starts behind the
    /// command byte, for the session that `options` names. Fails with
    /// `InvalidData` where `options` names none or the bytes hold no
    /// `RespInterest`.
    pub fn raw_decode_with_context<'a>(buf: &'a [u8], options: &DatagramOptions) -> (r: Result<
        (RespInterest, &'a [u8]),
        ErrorCode,
    >)
        ensures
            r is Ok <==> RespInterestView::parse(buf@, options.sequence) is Some,
            r matches Ok((m, rest)) ==> RespInterestView::parse(buf@, options.sequence) == Some(
                (m@, buf@.len() - rest@.len()),
            ) && rest@ == buf@.skip(buf@.len() - rest@.len()),
            r matches Err(e) ==> e == ErrorCode::InvalidData,
    {
        let session_id: TempSeq = match options.sequence {
            Some(s) => s,
            None => {
                return Err(ErrorCode::InvalidData);
            },
        };
        let (mut context, buf1) = FlagsDecodeContext::new(buf)?;
        let ((chunk, code), buf2) = Self::decode_fixed(&mut context, buf1)?;
        proof {
            lemma_skip_skip(buf@, 2, buf1@.len() - buf2@.len());
        }
        let ((redirect, redirect_referer, cache_node), buf3) = Self::decode_options(
            &mut context,
            buf2,
        )?;
        proof {
            lemma_skip_skip(buf@, buf@.len() - buf2@.len(), buf2@.len() - buf3@.len());
        }
        let err: ErrorCode = ErrorCode::from_u16(code);
        Ok(
            (
                RespInterest { session_id, chunk, err, redirect, redirect_referer, cache_node },
                buf3,
            ),
        )
    }

    /// Reads the fields that are always there.
    fn decode_fixed<'a>(context: &mut FlagsDecodeContext, buf: &'a [u8]) -> (r: Result<
        ((ChunkId, u16), &'a [u8]),
        ErrorCode,
    >)
        ensures
            *final(context) == *old(context),
            r is Ok <==> RespInterestView::parse_fixed(buf@) is Some,
            r matches Ok((x, rest)) ==> RespInterestView::parse_fixed(buf@) == Some(
                ((x.0@, x.1), buf@.len() - rest@.len()),
            ) && rest@ == buf@.skip(buf@.len() - rest@.len()) && rest@.len() <= buf@.len(),
            r matches Err(e) ==> e == ErrorCode::InvalidData,
    {
        proof {
            reveal(RespInterestView::parse_fixed);
            <ChunkId as RawDecode>::lemma_parse_bounds(buf@);
        }
        let (chunk, buf1) = context.decode::<ChunkId>(buf)?;
        let (code, buf2) = context.decode::<u16>(buf1)?;
        proof {
            lemma_skip_skip(buf@, buf@.len() - buf1@.len(), 2);
        }
        Ok(((chunk, code), buf2))
    }

    /// Reads the optional fields that the flags announce.
    fn decode_options<'a>(context: &mut FlagsDecodeContext, buf: &'a [u8]) -> (r: Result<
        ((Option<DeviceId>, Option<String>, Option<DeviceId>), &'a [u8]),
        ErrorCode,
    >)
        ensures
            *final(context) == *old(context),
            r is Ok <==> RespInterestView::parse_options(old(context).flags, buf@) is Some,
            r matches Ok((x, rest)) ==> RespInterestView::parse_options(old(context).flags, buf@)
                == Some(
                ((view_opt(x.0), view_opt(x.1), view_opt(x.2)), buf@.len() - rest@.len()),
            ) && rest@ == buf@.skip(buf@.len() - rest@.len()) && rest@.len() <= buf@.len(),
            r matches Err(e) ==> e == ErrorCode::InvalidData,
    {
        let mut flags = FlagsCounter::new();
        let bit0: u16 = flags.next();
        let bit1: u16 = flags.next();
        let bit2: u16 = flags.next();
        proof {
            reveal(RespInterestView::parse_options);
            lemma_flag_bits();
            <DeviceId as RawDecode>::lemma_parse_bounds(buf@);
        }
        let (redirect, buf1) = context.option_decode::<DeviceId>(buf, bit0)?;
        proof {
            <String as RawDecode>::lemma_parse_bounds(buf1@);
        }
        let (redirect_referer, buf2) = context.option_decode::<String>(buf1, bit1)?;
        proof {
            lemma_skip_skip(buf@, buf@.len() - buf1@.len(), buf1@.len() - buf2@.len());
            <DeviceId as RawDecode>::lemma_parse_bounds(buf2@);
        }
        let (cache_node, buf3) = context.option_decode::<DeviceId>(buf2, bit2)?;
        proof {
            lemma_skip_skip(buf@, buf@.len() - buf2@.len(), buf2@.len() - buf3@.len());
        }
        Ok(((redirect, redirect_referer, cache_node), buf3))
    }
}

// ---- PieceDesc --------------------------------------------------------------

/// Which piece of a chunk a `PieceData` carries: a symbol of a coded chunk,
/// by its number and the symbol count of the coding, or a range of the plain
/// chunk, by its index and the size of the ranges.
#[derive(Clone, Copy, Debug, PartialEq, Eq, Structural)]
pub enum PieceDesc {
    Raptor(u32, u16),
    Range(u32, u16),
}

impl View for PieceDesc {
    type V = PieceDesc;

    open spec fn view(&self) -> PieceDesc {
        *self
    }
}

impl PieceDesc {
    /// The byte that tells the two kinds apart on the wire.
    pub open spec fn tag(self) -> u8 {
        match self {
            PieceDesc::Raptor(_, _) => 0,
            PieceDesc::Range(_, _) => 1,
        }
    }

    /// The number of the piece.
    pub open spec fn index(self) -> u32 {
        match self {
            PieceDesc::Raptor(i, _) => i,
            PieceDesc::Range(i, _) => i,
        }
    }

    /// The parameter of its encoding.
    pub open spec fn param(self) -> u16 {
        match self {
            PieceDesc::Raptor(_, k) => k,
            PieceDesc::Range(_, s) => s,
        }
    }

    /// The number of bytes a symbol's description takes on the wire.
    pub fn raw_raptor_bytes() -> (n: usize)
        ensures
            n == 7,
    {
        1 + 4 + 2
    }

    /// The number of bytes a range's description takes on the wire.
    pub fn raw_stream_bytes() -> (n: usize)
        ensures
            n == 7,
    {
        1 + 4 + 2
    }

    /// The symbol's number, where this is a symbol of a coding with
    /// `require_k` symbols.
    pub fn raptor_index(&self, require_k: u16) -> (r: Option<u32>)
        ensures
            r == (match *self {
                PieceDesc::Raptor(index, k) => if k == require_k {
                    Some(index)
                } else {
                    None
                },
                PieceDesc::Range(_, _) => None,
            }),
    {
        match self {
            Self::Raptor(index, k) => if *k == require_k {
                Some(*index)
            } else {
                None
            },
            Self::Range(_, _) => None,
        }
    }

    /// The range's index, where this is a range of size `require_range_size`.
    pub fn range_index(&self, require_range_size: u16) -> (r: Option<u32>)
        ensures
            r == (match *self {
                PieceDesc::Range(index, range_size) => if range_size == require_range_size {
                    Some(index)
                } else {
                    None
                },
                PieceDesc::Raptor(_, _) => None,
            }),
    {
        match self {
            Self::Range(index, range_size) => if *range_size == require_range_size {
                Some(*index)
            } else {
                None
            },
            Self::Raptor(_, _) => None,
        }
    }

    /// The range that holds byte `offset` of a chunk cut into ranges of
    /// `range_size` bytes, and where in that range the byte lies.
    pub fn from_stream_offset(range_size: usize, offset: u32) -> (r: (PieceDesc, u32))
        requires
            0 < range_size <= u16::MAX,
        ensures
            r.0 == PieceDesc::Range((offset as int / range_size as int) as u32, range_size as u16),
            r.1 == offset as int % range_size as int,
    {
        let size: u32 = range_size as u32;
        (PieceDesc::Range(offset / size, range_size as u16), offset % size)
    }

    /// The index and the size of a range; nothing for a symbol.
    pub fn unwrap_as_stream(&self) -> (r: Option<(u32, u16)>)
        ensures
            r == (match *self {
                PieceDesc::Range(index, range_size) => Some((index, range_size)),
                PieceDesc::Raptor(_, _) => None,
            }),
    {
        match self {
            Self::Range(index, range_size) => Some((*index, *range_size)),
            Self::Raptor(_, _) => None,
        }
    }
}

impl RawEncode for PieceDesc {
    open spec fn wire(v: PieceDesc) -> Seq<u8> {
        seq![v.tag()] + <u32 as RawEncode>::wire(v.index()) + <u16 as RawEncode>::wire(v.param())
    }

    open spec fn fits(v: PieceDesc) -> bool {
        true
    }

    fn raw_measure(&self) -> (r: Result<usize, ErrorCode>) {
        Ok(7)
    }

    fn raw_encode<'a>(&self, buf: &'a mut [u8]) -> (r: Result<&'a mut [u8], ErrorCode>) {
        if buf.len() < 7 {
            return Err(ErrorCode::InvalidParam);
        }
        let (tag, index, param): (u8, u32, u16) = match self {
            Self::Raptor(index, k) => (0u8, *index, *k),
            Self::Range(index, len) => (1u8, *index, *len),
        };
        let buf = tag.raw_encode(buf)?;
        let buf = index.raw_encode(buf)?;
        param.raw_encode(buf)
    }
}

impl RawDecode for PieceDesc {
    open spec fn parse(bytes: Seq<u8>) -> Option<(PieceDesc, int)> {
        if bytes.len() < 1 || bytes[0] > 1 || bytes.len() < 7 {
            None
        } else {
            let index = <u32 as RawDecode>::parse(bytes.skip(1)).unwrap().0;
            let param = <u16 as RawDecode>::parse(bytes.skip(5)).unwrap().0;
            if bytes[0] == 0 {
                Some((PieceDesc::Raptor(index, param), 7))
            } else {
                Some((PieceDesc::Range(index, param), 7))
            }
        }
    }

    proof fn lemma_parse_bounds(bytes: Seq<u8>) {
    }

    proof fn lemma_parse_wire(v: PieceDesc, tail: Seq<u8>) {
        let all = Self::wire(v) + tail;
        let w4 = <u32 as RawEncode>::wire(v.index());
        let w2 = <u16 as RawEncode>::wire(v.param());
        assert(all.skip(1) == w4 + (w2 + tail));
        assert(all.skip(5) == w2 + tail);
        <u32 as RawDecode>::lemma_parse_wire(v.index(), w2 + tail);
        <u16 as RawDecode>::lemma_parse_wire(v.param(), tail);
    }

    proof fn lemma_parse_cut(v: PieceDesc, k: int) {
    }

    fn raw_decode<'a>(buf: &'a [u8]) -> (r: Result<(Self, &'a [u8]), ErrorCode>) {
        let (code, buf1) = u8::raw_decode(buf)?;
        if code > 1 {
            return Err(ErrorCode::InvalidData);
        }
        let (index, buf2) = u32::raw_decode(buf1)?;
        let (param, buf3) = u16::raw_decode(buf2)?;
        proof {
            lemma_skip_skip(buf@, 1, 4);
            lemma_skip_skip(buf@, 5, 2);
        }
        if code == 0 {
            Ok((Self::Raptor(index, param), buf3))
        } else {
            Ok((Self::Range(index, param), buf3))
        }
    }
}

// ---- PieceControlCommand ----------------------------------------------------

/// What a downloader tells an uploader to do with a session.
#[derive(Debug, PartialEq, Eq, Clone, Copy, Structural)]
pub enum PieceControlCommand {
    Continue,
    Finish,
    Pause,
    Cancel,
}

impl View for PieceControlCommand {
    type V = PieceControlCommand;

    open spec fn view(&self) -> PieceControlCommand {
        *self
    }
}

impl PieceControlCommand {
    /// The byte that stands for the command on the wire.
    pub open spec fn code(self) -> u8 {
        match self {
            PieceControlCommand::Continue => 0,
            PieceControlCommand::Finish => 1,
            PieceControlCommand::Pause => 2,
            PieceControlCommand::Cancel => 3,
        }
    }

    /// The command a byte of at most three stands for.
    pub open spec fn of_code(c: u8) -> PieceControlCommand {
        if c == 0 {
            PieceControlCommand::Continue
        } else if c == 1 {
            PieceControlCommand::Finish
        } else if c == 2 {
            PieceControlCommand::Pause
        } else {
            PieceControlCommand::Cancel
        }
    }
}

impl RawEncode for PieceControlCommand {
    open spec fn wire(v: PieceControlCommand) -> Seq<u8> {
        seq![v.code()]
    }

    open spec fn fits(v: PieceControlCommand) -> bool {
        true
    }

    fn raw_measure(&self) -> (r: Result<usize, ErrorCode>) {
        Ok(1)
    }

    fn raw_encode<'a>(&self, buf: &'a mut [u8]) -> (r: Result<&'a mut [u8], ErrorCode>) {
        match self {
            Self::Continue => 0u8.raw_encode(buf),
            Self::Finish => 1u8.raw_encode(buf),
            Self::Pause => 2u8.raw_encode(buf),
            Self::Cancel => 3u8.raw_encode(buf),
        }
    }
}

impl RawDecode for PieceControlCommand {
    open spec fn parse(bytes: Seq<u8>) -> Option<(PieceControlCommand, int)> {
        if bytes.len() < 1 || bytes[0] > 3 {
            None
        } else {
            Some((PieceControlCommand::of_code(bytes[0]), 1))
        }
    }

    proof fn lemma_parse_bounds(bytes: Seq<u8>) {
    }

    proof fn lemma_parse_wire(v: PieceControlCommand, tail: Seq<u8>) {
    }

    proof fn lemma_parse_cut(v: PieceControlCommand, k: int) {
    }

    fn raw_decode<'a>(buf: &'a [u8]) -> (r: Result<(Self, &'a [u8]), ErrorCode>) {
        let (code, buf) = u8::raw_decode(buf)?;
        let command = match code {
            0u8 => Self::Continue,
            1u8 => Self::Finish,
            2u8 => Self::Pause,
            3u8 => Self::Cancel,
            _ => {
                return Err(ErrorCode::InvalidData);
            },
        };
        Ok((command, buf))
    }
}

// ---- transport --------------------------------------------------------------

/// The largest datagram the transport carries.
pub const MTU: usize = 1472;

/// The number of bytes at the front of a datagram that the transport fills.
pub const RAW_DATA_HEADER_LEN: usize = 8;

/// The number of bytes of a datagram that are left for a frame.
pub fn raw_data_max_payload_len() -> (n: usize)
    ensures
        n == MTU - RAW_DATA_HEADER_LEN,
{
    MTU - RAW_DATA_HEADER_LEN
}

// ---- PieceData --------------------------------------------------------------

/// One piece of a chunk's content.
#[derive(Debug)]
pub struct PieceData {
    /// A number the receiver is asked to echo in a `ChannelEstimate`.
    pub est_seq: Option<TempSeq>,
    pub session_id: TempSeq,
    pub chunk: ChunkId,
    pub desc: PieceDesc,
    pub data: Vec<u8>,
}

/// A `PieceData` as plain values.
pub ghost struct PieceDataView {
    pub est_seq: Option<TempSeq>,
    pub session_id: TempSeq,
    pub chunk: ChunkIdView,
    pub desc: PieceDesc,
    pub data: Seq<u8>,
}

impl View for PieceData {
    type V = PieceDataView;

    open spec fn view(&self) -> PieceDataView {
        PieceDataView {
            est_seq: self.est_seq,
            session_id: self.session_id,
            chunk: self.chunk@,
            desc: self.desc,
            data: self.data@,
        }
    }
}

/// The number an estimate field holds: the number to echo, or zero where
/// there is none.
pub open spec fn est_field(est_seq: Option<TempSeq>) -> TempSeq {
    match est_seq {
        Some(s) => s,
        None => TempSeq(0),
    }
}

/// The header of a piece's frame, with the command byte: an estimate field,
/// the session, the chunk, the description of the piece.
pub open spec fn piece_header(
    est_seq: Option<TempSeq>,
    session_id: TempSeq,
    chunk: ChunkIdView,
    desc: PieceDesc,
) -> Seq<u8> {
    seq![PackageCmdCode::PieceData.code()] + <TempSeq as RawEncode>::wire(est_field(est_seq))
        + <TempSeq as RawEncode>::wire(session_id) + <ChunkId as RawEncode>::wire(chunk)
        + <PieceDesc as RawEncode>::wire(desc)
}

impl PieceDataView {
    /// Whether the message can be written and read back: zero in the
    /// estimate field says that there is no number to echo, so zero is no
    /// number to echo.
    pub open spec fn fits(self) -> bool {
        <ChunkId as RawEncode>::fits(self.chunk) && self.est_seq != Some(TempSeq(0))
    }

    /// Its frame: the header, then the content to the end of the datagram.
    pub open spec fn frame(self) -> Seq<u8> {
        piece_header(self.est_seq, self.session_id, self.chunk, self.desc) + self.data
    }

    /// What a reader makes of the bytes behind the command byte.
    pub open spec fn parse(body: Seq<u8>) -> Option<PieceDataView> {
        match <TempSeq as RawDecode>::parse(body) {
            None => None,
            Some((est, n0)) => match <TempSeq as RawDecode>::parse(body.skip(n0)) {
                None => None,
                Some((session_id, n1)) => match <ChunkId as RawDecode>::parse(
                    body.skip(n0 + n1),
                ) {
                    None => None,
                    Some((chunk, n2)) => match <PieceDesc as RawDecode>::parse(
                        body.skip(n0 + n1 + n2),
                    ) {
                        None => None,
                        Some((desc, n3)) => Some(
                            PieceDataView {
                                est_seq: if est == TempSeq(0) {
                                    None
                                } else {
                                    Some(est)
                                },
                                session_id,
                                chunk,
                                desc,
                                data: body.skip(n0 + n1 + n2 + n3),
                            },
                        ),
                    },
                },
            },
        }
    }
}

impl Package for PieceData {
    open spec fn command() -> PackageCmdCode {
        PackageCmdCode::PieceData
    }

    fn cmd_code() -> (c: PackageCmdCode) {
        PackageCmdCode::PieceData
    }
}

impl PieceData {
    /// The number of bytes of a piece's frame between the command byte and
    /// the content.
    pub fn max_header_len() -> (n: usize)
        ensures
            n == 47,
    {
        4 + 4 + 32 + 7
    }

    /// The largest content that fits a datagram behind the header.
    pub open spec fn max_payload_spec() -> usize {
        1416
    }

    /// The largest content that fits a datagram behind the header.
    #[verifier::when_used_as_spec(max_payload_spec)]
    pub fn max_payload() -> (n: usize)
        ensures
            n == Self::max_payload_spec(),
            n == MTU - RAW_DATA_HEADER_LEN - 1 - 47,
    {
        raw_data_max_payload_len() - 1 - Self::max_header_len()
    }

    /// Writes the header of a piece's frame, with an estimate field of zero,
    /// into the front of `buf`, and returns the rest of `buf` for the
    /// content. Fails, leaving `buf` as it was, where `buf` is too short.
    pub fn encode_header<'a>(
        buf: &'a mut [u8],
        session_id: &TempSeq,
        chunk: &ChunkId,
        desc: &PieceDesc,
    ) -> (r: Result<&'a mut [u8], ErrorCode>)
        ensures
            r is Ok <==> old(buf)@.len() >= 48,
            r matches Ok(rest) ==> rest@ == old(buf)@.skip(48) && final(buf)@ == piece_header(
                None,
                *session_id,
                chunk@,
                *desc,
            ) + final(rest)@,
            r matches Err(e) ==> e == ErrorCode::InvalidParam && final(buf)@ == old(buf)@,
    {
        Self::encode_header_with(buf, None, session_id, chunk, desc)
    }

    /// Writes the header of a piece's frame with the estimate field filled.
    fn encode_header_with<'a>(
        buf: &'a mut [u8],
        est_seq: Option<TempSeq>,
        session_id: &TempSeq,
        chunk: &ChunkId,
        desc: &PieceDesc,
    ) -> (r: Result<&'a mut [u8], ErrorCode>)
        ensures
            r is Ok <==> old(buf)@.len() >= 48,
            r matches Ok(rest) ==> rest@ == old(buf)@.skip(48) && final(buf)@ == piece_header(
                est_seq,
                *session_id,
                chunk@,
                *desc,
            ) + final(rest)@,
            r matches Err(e) ==> e == ErrorCode::InvalidParam && final(buf)@ == old(buf)@,
    {
        if buf.len() < 48 {
            return Err(ErrorCode::InvalidParam);
        }
        proof {
            chunk.lemma_view_fits();
        }
        let est: TempSeq = match est_seq {
            Some(s) => s,
            None => TempSeq(0),
        };
        let buf = PackageCmdCode::PieceData.value().raw_encode(buf)?;
        let buf = est.raw_encode(buf)?;
        let buf = session_id.raw_encode(buf)?;
        let buf = chunk.raw_encode(buf)?;
        desc.raw_encode(buf)
    }

    /// Writes `est_seq` over the estimate field of the frame that starts at
    /// the front of `buf`.
    pub fn reset_estimate(buf: &mut [u8], est_seq: TempSeq)
        requires
            old(buf)@.len() >= 5,
        ensures
            final(buf)@ == old(buf)@.take(1) + <TempSeq as RawEncode>::wire(est_seq)
                + old(buf)@.skip(5),
    {
        let (_, field) = buf.split_at_mut(1);
        match est_seq.raw_encode(field) {
            Ok(_) => {},
            Err(_) => {},
        }
    }

    /// Writes the whole frame into the front of `buf` and returns the rest
    /// of `buf`. Fails, leaving `buf` as it was, where the message cannot be
    /// written or `buf` is too short for its frame.
    pub fn raw_encode<'a>(&self, buf: &'a mut [u8]) -> (r: Result<&'a mut [u8], ErrorCode>)
        ensures
            r is Ok <==> self@.fits() && self@.frame().len() <= old(buf)@.len(),
            r matches Ok(rest) ==> rest@ == old(buf)@.skip(self@.frame().len() as int)
                && final(buf)@ == self@.frame() + final(rest)@,
            r matches Err(e) ==> e == ErrorCode::InvalidParam && final(buf)@ == old(buf)@,
    {
        proof {
            self.chunk.lemma_view_fits();
        }
        if let Some(s) = self.est_seq {
            if s.0 == 0 {
                return Err(ErrorCode::InvalidParam);
            }
        }
        if buf.len() < 48 || buf.len() - 48 < self.data.len() {
            return Err(ErrorCode::InvalidParam);
        }
        let rest = Self::encode_header_with(
            buf,
            self.est_seq,
            &self.session_id,
            &self.chunk,
            &self.desc,
        )?;
        put_bytes(rest, self.data.as_slice())
    }

    /// Reads a piece from `buf`, which holds what lay behind the command
    /// byte of one datagram: the header, then the content, which is all the
    /// rest. Fails with `InvalidData` where `buf` holds no whole header.
    pub fn decode_from_raw_data(buf: &[u8]) -> (r: Result<PieceData, ErrorCode>)
        ensures
            r is Ok <==> PieceDataView::parse(buf@) is Some,
            r matches Ok(m) ==> PieceDataView::parse(buf@) == Some(m@),
            r matches Err(e) ==> e == ErrorCode::InvalidData,
    {
        let (est, buf1) = TempSeq::raw_decode(buf)?;
        let est_seq: Option<TempSeq> = if est.0 == 0 {
            None
        } else {
            Some(est)
        };
        let (session_id, buf2) = TempSeq::raw_decode(buf1)?;
        proof {
            lemma_skip_skip(buf@, 4, 4);
            <ChunkId as RawDecode>::lemma_parse_bounds(buf2@);
        }
        let (chunk, buf3) = ChunkId::raw_decode(buf2)?;
        proof {
            lemma_skip_skip(buf@, 8, 32);
        }
        let (desc, data) = PieceDesc::raw_decode(buf3)?;
        proof {
            lemma_skip_skip(buf@, 40, 7);
        }
        Ok(PieceData { est_seq, session_id, chunk, desc, data: slice_to_vec(data) })
    }
}

// ---- ChannelEstimate --------------------------------------------------------

/// The echo of a piece's estimate number, with the count of bytes received
/// on the channel so far.
#[derive(Debug, Clone, Copy, PartialEq, Eq, Structural)]
pub struct ChannelEstimate {
    pub sequence: TempSeq,
    pub recved: u64,
}

impl View for ChannelEstimate {
    type V = ChannelEstimate;

    open spec fn view(&self) -> ChannelEstimate {
        *self
    }
}

impl Default for ChannelEstimate {
    fn default() -> (e: ChannelEstimate)
        ensures
            e == (ChannelEstimate { sequence: TempSeq(0), recved: 0 }),
    {
        Self { sequence: TempSeq(0), recved: 0 }
    }
}

impl Package for ChannelEstimate {
    open spec fn command() -> PackageCmdCode {
        PackageCmdCode::ChannelEstimate
    }

    fn cmd_code() -> (c: PackageCmdCode) {
        PackageCmdCode::ChannelEstimate
    }
}

impl ChannelEstimate {
    /// Its frame.
    pub open spec fn frame(self) -> Seq<u8> {
        seq![PackageCmdCode::ChannelEstimate.code()] + <TempSeq as RawEncode>::wire(self.sequence)
            + <u64 as RawEncode>::wire(self.recved)
    }

    /// What a reader makes of the bytes behind the command byte.
    pub open spec fn parse(body: Seq<u8>) -> Option<(ChannelEstimate, int)> {
        if body.len() < 12 {
            None
        } else {
            Some(
                (
                    ChannelEstimate {
                        sequence: <TempSeq as RawDecode>::parse(body).unwrap().0,
                        recved: <u64 as RawDecode>::parse(body.skip(4)).unwrap().0,
                    },
                    12,
                ),
            )
        }
    }

    /// The length of the frame.
    pub fn raw_bytes() -> (n: usize)
        ensures
            n == 13,
    {
        1 + 4 + 8
    }

    /// Writes the frame into the front of `buf` and returns the rest of
    /// `buf`. Fails, leaving `buf` as it was, where `buf` is too short.
    pub fn raw_encode<'a>(&self, buf: &'a mut [u8]) -> (r: Result<&'a mut [u8], ErrorCode>)
        ensures
            r is Ok <==> old(buf)@.len() >= 13,
            r matches Ok(rest) ==> rest@ == old(buf)@.skip(13) && final(buf)@ == self.frame()
                + final(rest)@,
            r matches Err(e) ==> e == ErrorCode::InvalidParam && final(buf)@ == old(buf)@,
    {
        if buf.len() < 13 {
            return Err(ErrorCode::InvalidParam);
        }
        let buf = PackageCmdCode::ChannelEstimate.value().raw_encode(buf)?;
        let buf = self.sequence.raw_encode(buf)?;
        self.recved.raw_encode(buf)
    }

    /// Reads an estimate off the front of `buf`, which starts behind the
    /// command byte. Fails with `InvalidData` where `buf` is too short.
    pub fn raw_decode<'a>(buf: &'a [u8]) -> (r: Result<(ChannelEstimate, &'a [u8]), ErrorCode>)
        ensures
            r is Ok <==> Self::parse(buf@) is Some,
            r matches Ok((m, rest)) ==> Self::parse(buf@) == Some((m, 12int)) && rest@
                == buf@.skip(12),
            r matches Err(e) ==> e == ErrorCode::InvalidData,
    {
        if buf.len() < 12 {
            return Err(ErrorCode::InvalidData);
        }
        let (sequence, buf1) = TempSeq::raw_decode(buf)?;
        let (recved, buf2) = u64::raw_decode(buf1)?;
        proof {
            lemma_skip_skip(buf@, 4, 8);
        }
        Ok((Self { sequence, recved }, buf2))
    }
}

// ---- PieceControl -----------------------------------------------------------

/// A downloader's word to an uploader on one session: go on, with what was
/// lost so far; or stop, for one reason or another.
#[derive(Debug)]
pub struct PieceControl {
    /// The number of this command on its channel; later commands have
    /// greater numbers.
    pub sequence: TempSeq,
    pub session_id: TempSeq,
    pub chunk: ChunkId,
    pub command: PieceControlCommand,
    /// The greatest index the downloader has seen.
    pub max_index: Option<u32>,
    /// The indices up to `max_index` that the downloader is still missing,
    /// each range with its start and without its end.
    pub lost_index: Option<Vec<Range<u32>>>,
}

/// A `PieceControl` as plain values.
pub ghost struct PieceControlView {
    pub sequence: TempSeq,
    pub session_id: TempSeq,
    pub chunk: ChunkIdView,
    pub command: PieceControlCommand,
    pub max_index: Option<u32>,
    pub lost_index: Option<Seq<Range<u32>>>,
}

impl View for PieceControl {
    type V = PieceControlView;

    open spec fn view(&self) -> PieceControlView {
        PieceControlView {
            sequence: self.sequence,
            session_id: self.session_id,
            chunk: self.chunk@,
            command: self.command,
            max_index: self.max_index,
            lost_index: view_opt(self.lost_index),
        }
    }
}

impl PieceControlView {
    /// Whether the message can be written.
    pub open spec fn fits(self) -> bool {
        <ChunkId as RawEncode>::fits(self.chunk) && fits_opt::<Vec<Range<u32>>>(self.lost_index)
    }

    /// The flags of its frame: one for each optional field, in their order.
    pub open spec fn flags(self) -> u16 {
        flag_if(self.max_index is Some, 1) | flag_if(self.lost_index is Some, 2)
    }

    /// The fields that are always there, one after another.
    pub open spec fn fixed(self) -> Seq<u8> {
        <TempSeq as RawEncode>::wire(self.sequence) + <TempSeq as RawEncode>::wire(self.session_id)
            + <ChunkId as RawEncode>::wire(self.chunk) + <PieceControlCommand as RawEncode>::wire(
            self.command,
        )
    }

    /// Those of its optional fields that are there, one after another.
    pub open spec fn options(self) -> Seq<u8> {
        wire_opt::<u32>(self.max_index) + wire_opt::<Vec<Range<u32>>>(self.lost_index)
    }

    /// Its frame behind the command byte: the flags, then the fields.
    pub open spec fn body(self) -> Seq<u8> {
        <u16 as RawEncode>::wire(self.flags()) + (self.fixed() + self.options())
    }

    /// Its frame.
    pub open spec fn frame(self) -> Seq<u8> {
        seq![PackageCmdCode::PieceControl.code()] + self.body()
    }

    /// The number of datagrams that report a loss list of `n` ranges.
    pub open spec fn batch_count(n: int) -> int {
        (n + 124) / 125
    }

    /// The `i`-th run of at most 125 ranges of a loss list.
    pub open spec fn batch(l: Seq<Range<u32>>, i: int) -> Seq<Range<u32>> {
        l.subrange(
            125 * i,
            if 125 * (i + 1) <= l.len() {
                125 * (i + 1)
            } else {
                l.len() as int
            },
        )
    }

    /// The message with another loss list.
    pub open spec fn with_lost(self, l: Seq<Range<u32>>) -> PieceControlView {
        PieceControlView {
            sequence: self.sequence,
            session_id: self.session_id,
            chunk: self.chunk,
            command: self.command,
            max_index: self.max_index,
            lost_index: Some(l),
        }
    }

    /// The messages this one is sent as: a `Continue` with a loss list goes
    /// out once for each run of at most 125 ranges of the list, each time
    /// with that run for its list, and so not at all where the list is
    /// empty; every other message goes out as it is.
    pub open spec fn split(self) -> Seq<PieceControlView> {
        if self.command == PieceControlCommand::Continue && self.lost_index is Some {
            Seq::new(
                Self::batch_count(self.lost_index->0.len() as int) as nat,
                |i: int| self.with_lost(Self::batch(self.lost_index->0, i)),
            )
        } else {
            seq![self]
        }
    }

    /// The datagram that carries the message: room for the transport's
    /// header, then the frame.
    pub open spec fn datagram(self, header_len: int) -> Seq<u8> {
        Seq::new(header_len as nat, |i: int| 0u8) + self.frame()
    }

    /// Whether the message fits one datagram behind a transport header of
    /// `header_len` bytes.
    pub open spec fn sendable(self, header_len: int) -> bool {
        self.fits() && header_len + self.frame().len() <= MTU
    }

    /// Whether the message can be sent: the transport's header leaves room,
    /// a loss list comes with the greatest index seen, and each message it
    /// is sent as fits a datagram.
    pub open spec fn split_ok(self, header_len: int) -> bool {
        &&& header_len <= MTU
        &&& self.command == PieceControlCommand::Continue && self.lost_index is Some
            && self.lost_index->0.len() > 0 ==> self.max_index is Some
        &&& forall|i: int|
            0 <= i < self.split().len() ==> (#[trigger] self.split()[i]).sendable(header_len)
    }

    /// What a reader finds of the fields that are always there: the command's
    /// number, the session, the chunk and the command.
    #[verifier::opaque]
    pub open spec fn parse_fixed(bytes: Seq<u8>) -> Option<
        ((TempSeq, TempSeq, ChunkIdView, PieceControlCommand), int),
    > {
        match <TempSeq as RawDecode>::parse(bytes) {
            None => None,
            Some((sequence, n1)) => match <TempSeq as RawDecode>::parse(bytes.skip(n1)) {
                None => None,
                Some((session_id, n2)) => match <ChunkId as RawDecode>::parse(
                    bytes.skip(n1 + n2),
                ) {
                    None => None,
                    Some((chunk, n3)) => match <PieceControlCommand as RawDecode>::parse(
                        bytes.skip(n1 + n2 + n3),
                    ) {
                        None => None,
                        Some((command, n4)) => Some(
                            ((sequence, session_id, chunk, command), n1 + n2 + n3 + n4),
                        ),
                    },
                },
            },
        }
    }

    /// What a reader finds of the optional fields under `flags`.
    #[verifier::opaque]
    pub open spec fn parse_options(flags: u16, bytes: Seq<u8>) -> Option<
        ((Option<u32>, Option<Seq<Range<u32>>>), int),
    > {
        match parse_opt::<u32>(flag_set(flags, 1), bytes) {
            None => None,
            Some((max_index, n1)) => match parse_opt::<Vec<Range<u32>>>(
                flag_set(flags, 2),
                bytes.skip(n1),
            ) {
                None => None,
                Some((lost_index, n2)) => Some(((max_index, lost_index), n1 + n2)),
            },
        }
    }

    /// What a reader makes of the bytes behind the command byte.
    pub open spec fn parse(body: Seq<u8>) -> Option<(PieceControlView, int)> {
        if body.len() < 2 {
            None
        } else {
            let flags = (body[0] * 256 + body[1]) as u16;
            match Self::parse_fixed(body.skip(2)) {
                None => None,
                Some((fixed, n1)) => match Self::parse_options(flags, body.skip(2 + n1)) {
                    None => None,
                    Some((options, n2)) => Some(
                        (
                            PieceControlView {
                                sequence: fixed.0,
                                session_id: fixed.1,
                                chunk: fixed.2,
                                command: fixed.3,
                                max_index: options.0,
                                lost_index: options.1,
                            },
                            2 + n1 + n2,
                        ),
                    ),
                },
            }
        }
    }
}

impl Package for PieceControl {
    open spec fn command() -> PackageCmdCode {
        PackageCmdCode::PieceControl
    }

    fn cmd_code() -> (c: PackageCmdCode) {
        PackageCmdCode::PieceControl
    }
}

impl PieceControl {
    /// The datagrams that carry this command behind a transport header of
    /// `header_len` bytes, in the order in which they are to be sent. A
    /// `Continue` with a loss list is cut into runs of at most 125 ranges,
    /// one datagram for each; every other command is one datagram. Fails
    /// with `InvalidParam` where a loss list comes without the greatest
    /// index seen or a datagram would be larger than the transport carries.
    pub fn split_send(self, header_len: usize) -> (r: Result<Vec<Vec<u8>>, ErrorCode>)
        ensures
            r is Ok <==> self@.split_ok(header_len as int),
            r matches Ok(p) ==> p@.len() == self@.split().len() && forall|i: int|
                0 <= i < p@.len() ==> (#[trigger] p@[i])@ == self@.split()[i].datagram(
                    header_len as int,
                ),
            r matches Err(e) ==> e == ErrorCode::InvalidParam,
    {
        if header_len > MTU {
            return Err(ErrorCode::InvalidParam);
        }
        let mut packets: Vec<Vec<u8>> = Vec::new();
        let batched: bool = match self.command {
            PieceControlCommand::Continue => self.lost_index.is_some(),
            _ => false,
        };
        if !batched {
            match self.send_once(header_len) {
                Ok(d) => {
                    packets.push(d);
                    return Ok(packets);
                },
                Err(e) => {
                    assert(!self@.split()[0].sendable(header_len as int));
                    return Err(e);
                },
            }
        }
        let lost: &Vec<Range<u32>> = match &self.lost_index {
            Some(l) => l,
            None => {
                return Err(ErrorCode::InvalidParam);
            },
        };
        let n: usize = lost.len();
        if n > 0 && self.max_index.is_none() {
            return Err(ErrorCode::InvalidParam);
        }
        let count: usize = if n % 125 == 0 {
            n / 125
        } else {
            n / 125 + 1
        };
        let mut i: usize = 0;
        while i < count
            invariant
                batched,
                self.command == PieceControlCommand::Continue,
                self.lost_index == Some(*lost),
                n == lost@.len(),
                count == PieceControlView::batch_count(n as int),
                header_len <= MTU,
                i <= count,
                packets@.len() == i,
                forall|j: int|
                    0 <= j < i ==> (#[trigger] self@.split()[j]).sendable(header_len as int),
                forall|j: int|
                    0 <= j < i ==> (#[trigger] packets@[j])@ == self@.split()[j].datagram(
                        header_len as int,
                    ),
            decreases count - i,
        {
            let from: usize = 125 * i;
            let to: usize = if n - from > 125 {
                from + 125
            } else {
                n
            };
            let ctrl = PieceControl {
                sequence: self.sequence,
                session_id: self.session_id,
                chunk: self.chunk,
                command: self.command,
                max_index: self.max_index,
                lost_index: Some(copy_ranges(lost, from, to)),
            };
            assert(ctrl@ == self@.split()[i as int]);
            match ctrl.send_once(header_len) {
                Ok(d) => {
                    packets.push(d);
                },
                Err(e) => {
                    return Err(e);
                },
            }
            i += 1;
        }
        Ok(packets)
    }

    /// The one datagram that carries this command as it is.
    fn send_once(&self, header_len: usize) -> (r: Result<Vec<u8>, ErrorCode>)
        requires
            header_len <= MTU,
        ensures
            r is Ok <==> self@.sendable(header_len as int),
            r matches Ok(d) ==> d@ == self@.datagram(header_len as int),
            r matches Err(e) ==> e == ErrorCode::InvalidParam,
    {
        let mut buffer: Vec<u8> = Vec::new();
        buffer.resize(MTU, 0u8);
        let ghost blank = buffer@;
        let (_, body) = buffer.as_mut_slice().split_at_mut(header_len);
        let left: usize = match self.raw_encode(body) {
            Ok(rest) => rest.len(),
            Err(e) => {
                return Err(e);
            },
        };
        let used: usize = MTU - left;
        buffer.truncate(used);
        assert(buffer@ =~= self@.datagram(header_len as int));
        Ok(buffer)
    }

    /// The greatest number of lost ranges one datagram reports.
    pub fn max_index_payload() -> (n: usize)
        ensures
            n == 125,
    {
        125
    }

    /// The length of the frame, where the message can be written.
    pub fn raw_measure(&self) -> (r: Result<usize, ErrorCode>)
        ensures
            r is Ok <==> self@.fits(),
            r matches Ok(n) ==> n == self@.frame().len(),
            r matches Err(e) ==> e == ErrorCode::InvalidParam,
    {
        proof {
            self.chunk.lemma_view_fits();
        }
        let mut n: usize = 3 + 4 + 4 + 32 + 1;
        if self.max_index.is_some() {
            n = n + 4;
        }
        if let Some(l) = &self.lost_index {
            proof {
                lemma_ranges_wire_len(l@);
            }
            let m: usize = l.raw_measure()?;
            n = n + m;
        }
        Ok(n)
    }

    /// Writes the frame into the front of `enc_buf` and returns the rest of
    /// `enc_buf`. Fails, leaving `enc_buf` as it was, where the message
    /// cannot be written or `enc_buf` is too short for its frame.
    pub fn raw_encode<'a>(&self, enc_buf: &'a mut [u8]) -> (r: Result<&'a mut [u8], ErrorCode>)
        ensures
            r is Ok <==> self@.fits() && self@.frame().len() <= old(enc_buf)@.len(),
            r matches Ok(rest) ==> rest@ == old(enc_buf)@.skip(self@.frame().len() as int)
                && final(enc_buf)@ == self@.frame() + final(rest)@,
            r matches Err(e) ==> e == ErrorCode::InvalidParam && final(enc_buf)@ == old(enc_buf)@,
    {
        let need: usize = self.raw_measure()?;
        if enc_buf.len() < need {
            return Err(ErrorCode::InvalidParam);
        }
        let (mut context, buf) = FlagsEncodeContext::new(
            PackageCmdCode::PieceControl.value(),
            enc_buf,
        )?;
        let _ = self.encode_fields(&mut context, buf)?;
        context.finish(enc_buf)
    }

    /// Writes the fields behind the flags.
    fn encode_fields<'a>(&self, context: &mut FlagsEncodeContext, buf: &'a mut [u8]) -> (r: Result<
        &'a mut [u8],
        ErrorCode,
    >)
        requires
            old(context).length + old(buf)@.len() <= usize::MAX,
            old(context).flags == 0,
        ensures
            r is Ok <==> self@.fits() && (self@.fixed() + self@.options()).len() <= old(buf)@.len(),
            r matches Ok(rest) ==> rest@ == old(buf)@.skip(
                (self@.fixed() + self@.options()).len() as int,
            ) && final(buf)@ == (self@.fixed() + self@.options()) + final(rest)@
                && final(context).length == old(context).length + (self@.fixed()
                + self@.options()).len() && final(context).flags == self@.flags(),
            r matches Err(e) ==> e == ErrorCode::InvalidParam,
    {
        let ghost whole = final(buf)@;
        let ghost start = buf@;
        let b1 = self.encode_fixed(context, buf)?;
        let r = self.encode_options(context, b1);
        proof {
            if r is Ok {
                lemma_skip_skip(start, 41, self@.options().len() as int);
            }
            assert(r matches Ok(rest) ==> whole =~= (self@.fixed() + self@.options())
                + final(rest)@);
        }
        r
    }

    /// Writes the fields that are always there.
    fn encode_fixed<'a>(&self, context: &mut FlagsEncodeContext, buf: &'a mut [u8]) -> (r: Result<
        &'a mut [u8],
        ErrorCode,
    >)
        requires
            old(context).length + old(buf)@.len() <= usize::MAX,
        ensures
            r is Ok <==> 41 <= old(buf)@.len(),
            self@.fixed().len() == 41,
            r matches Ok(rest) ==> rest@ == old(buf)@.skip(41) && final(buf)@ == self@.fixed()
                + final(rest)@ && final(context).length == old(context).length + 41
                    && final(context).flags == old(context).flags,
            r matches Err(e) ==> e == ErrorCode::InvalidParam,
    {
        proof {
            self.chunk.lemma_view_fits();
        }
        let ghost whole = final(buf)@;
        let ghost start = buf@;
        let b1 = context.encode(buf, &self.sequence)?;
        let b2 = context.encode(b1, &self.session_id)?;
        let b3 = context.encode(b2, &self.chunk)?;
        let r = context.encode(b3, &self.command);
        proof {
            if r is Ok {
                lemma_skip_skip(start, 4, 4);
                lemma_skip_skip(start, 8, 32);
                lemma_skip_skip(start, 40, 1);
            }
            assert(r matches Ok(rest) ==> whole =~= self@.fixed() + final(rest)@);
        }
        r
    }

    /// Writes the optional fields and gathers their flags.
    fn encode_options<'a>(&self, context: &mut FlagsEncodeContext, buf: &'a mut [u8]) -> (r:
        Result<&'a mut [u8], ErrorCode>)
        requires
            old(context).length + old(buf)@.len() <= usize::MAX,
            old(context).flags == 0,
        ensures
            r is Ok <==> self@.fits() && self@.options().len() <= old(buf)@.len(),
            r matches Ok(rest) ==> rest@ == old(buf)@.skip(self@.options().len() as int)
                && final(buf)@ == self@.options() + final(rest)@ && final(context).length
                == old(context).length
                + self@.options().len() && final(context).flags == self@.flags(),
            r matches Err(e) ==> e == ErrorCode::InvalidParam,
    {
        let mut flags = FlagsCounter::new();
        let bit0: u16 = flags.next();
        let bit1: u16 = flags.next();
        proof {
            self.chunk.lemma_view_fits();
            lemma_flag_bits();
            lemma_zero_or(flag_if(self.max_index is Some, 1));
        }
        let buf = context.option_encode(buf, &self.max_index, bit0)?;
        context.option_encode(buf, &self.lost_index, bit1)
    }

    /// Reads a `PieceControl` off the front of `buf`, which starts behind the
    /// command byte. Fails with `InvalidData` where the bytes hold none.
    pub fn raw_decode<'a>(buf: &'a [u8]) -> (r: Result<(PieceControl, &'a [u8]), ErrorCode>)
        ensures
            r is Ok <==> PieceControlView::parse(buf@) is Some,
            r matches Ok((m, rest)) ==> PieceControlView::parse(buf@) == Some(
                (m@, buf@.len() - rest@.len()),
            ) && rest@ == buf@.skip(buf@.len() - rest@.len()),
            r matches Err(e) ==> e == ErrorCode::InvalidData,
    {
        let (mut context, buf1) = FlagsDecodeContext::new(buf)?;
        let ((sequence, session_id, chunk, command), buf2) = Self::decode_fixed(
            &mut context,
            buf1,
        )?;
        proof {
            lemma_skip_skip(buf@, 2, buf1@.len() - buf2@.len());
        }
        let ((max_index, lost_index), buf3) = Self::decode_options(&mut context, buf2)?;
        proof {
            lemma_skip_skip(buf@, buf@.len() - buf2@.len(), buf2@.len() - buf3@.len());
        }
        Ok((PieceControl { sequence, session_id, chunk, command, max_index, lost_index }, buf3))
    }

    /// Reads the fields that are always there.
    fn decode_fixed<'a>(context: &mut FlagsDecodeContext, buf: &'a [u8]) -> (r: Result<
        ((TempSeq, TempSeq, ChunkId, PieceControlCommand), &'a [u8]),
        ErrorCode,
    >)
        ensures
            *final(context) == *old(context),
            r is Ok <==> PieceControlView::parse_fixed(buf@) is Some,
            r matches Ok((x, rest)) ==> PieceControlView::parse_fixed(buf@) == Some(
                ((x.0, x.1, x.2@, x.3), buf@.len() - rest@.len()),
            ) && rest@ == buf@.skip(buf@.len() - rest@.len()) && rest@.len() <= buf@.len(),
            r matches Err(e) ==> e == ErrorCode::InvalidData,
    {
        proof {
            reveal(PieceControlView::parse_fixed);
        }
        let (sequence, buf1) = context.decode::<TempSeq>(buf)?;
        let (session_id, buf2) = context.decode::<TempSeq>(buf1)?;
        proof {
            lemma_skip_skip(buf@, 4, 4);
            <ChunkId as RawDecode>::lemma_parse_bounds(buf2@);
        }
        let (chunk, buf3) = context.decode::<ChunkId>(buf2)?;
        proof {
            lemma_skip_skip(buf@, 8, 32);
        }
        let (command, buf4) = context.decode::<PieceControlCommand>(buf3)?;
        proof {
            lemma_skip_skip(buf@, 40, 1);
        }
        Ok(((sequence, session_id, chunk, command), buf4))
    }

    /// Reads the optional fields that the flags announce.
    fn decode_options<'a>(context: &mut FlagsDecodeContext, buf: &'a [u8]) -> (r: Result<
        ((Option<u32>, Option<Vec<Range<u32>>>), &'a [u8]),
        ErrorCode,
    >)
        ensures
            *final(context) == *old(context),
            r is Ok <==> PieceControlView::parse_options(old(context).flags, buf@) is Some,
            r matches Ok((x, rest)) ==> PieceControlView::parse_options(old(context).flags, buf@)
                == Some(((x.0, view_opt(x.1)), buf@.len() - rest@.len())) && rest@ == buf@.skip(
                buf@.len() - rest@.len(),
            ) && rest@.len() <= buf@.len(),
            r matches Err(e) ==> e == ErrorCode::InvalidData,
    {
        let mut flags = FlagsCounter::new();
        let bit0: u16 = flags.next();
        let bit1: u16 = flags.next();
        proof {
            reveal(PieceControlView::parse_options);
            lemma_flag_bits();
            <u32 as RawDecode>::lemma_parse_bounds(buf@);
        }
        let (max_index, buf1) = context.option_decode::<u32>(buf, bit0)?;
        proof {
            <Vec<Range<u32>> as RawDecode>::lemma_parse_bounds(buf1@);
        }
        let (lost_index, buf2) = context.option_decode::<Vec<Range<u32>>>(buf1, bit1)?;
        proof {
            lemma_skip_skip(buf@, buf@.len() - buf1@.len(), buf1@.len() - buf2@.len());
        }
        Ok(((max_index, lost_index), buf2))
    }
}

/// A copy of the ranges of `l` from the `from`-th up to the `to`-th.
fn copy_ranges(l: &Vec<Range<u32>>, from: usize, to: usize) -> (out: Vec<Range<u32>>)
    requires
        from <= to <= l@.len(),
    ensures
        out@ == l@.subrange(from as int, to as int),
{
    let mut out: Vec<Range<u32>> = Vec::new();
    let mut j: usize = from;
    while j < to
        invariant
            from <= j <= to,
            to <= l@.len(),
            out@ == l@.subrange(from as int, j as int),
        decreases to - j,
    {
        out.push(Range { start: l[j].start, end: l[j].end });
        j += 1;
        assert(out@ =~= l@.subrange(from as int, j as int));
    }
    out
}

} // verus!
