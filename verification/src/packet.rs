//! The step between bytes and messages: what came in is read as one of the
//! five messages, and a message that is to go out is written as the
//! datagrams that carry it.

use vstd::prelude::*;
use vstd::slice::slice_subrange;
use crate::error::ErrorCode;
use crate::protocol::ChannelEstimate;
use crate::protocol::CommandCode;
use crate::protocol::DatagramOptions;
use crate::protocol::Interest;
use crate::protocol::InterestView;
use crate::protocol::PackageCmdCode;
use crate::protocol::PieceControl;
use crate::protocol::PieceControlView;
use crate::protocol::PieceData;
use crate::protocol::PieceDataView;
use crate::protocol::RespInterest;
use crate::protocol::RespInterestView;
use crate::protocol::MTU;
use crate::types::TempSeq;

verus! {

/// One of the five messages.
#[derive(Debug)]
pub enum Packet {
    Interest(Interest),
    RespInterest(RespInterest),
    PieceData(PieceData),
    PieceControl(PieceControl),
    ChannelEstimate(ChannelEstimate),
}

/// What is handed to the transport.
#[derive(Debug)]
pub enum Outgoing {
    /// The frame of a command for the datagram layer, which carries the
    /// session beside it.
    Datagram { sequence: TempSeq, data: Vec<u8> },
    /// A datagram for the transport itself: room for its header, then a
    /// frame.
    Raw(Vec<u8>),
}

impl Outgoing {
    /// Whether this is the frame `frame` for the datagram layer, for
    /// session `sequence`.
    pub open spec fn is_datagram(self, sequence: TempSeq, frame: Seq<u8>) -> bool {
        match self {
            Outgoing::Datagram { sequence: s, data } => s == sequence && data@ == frame,
            Outgoing::Raw(_) => false,
        }
    }

    /// Whether this is the datagram `bytes` for the transport itself.
    pub open spec fn is_raw(self, bytes: Seq<u8>) -> bool {
        match self {
            Outgoing::Datagram { .. } => false,
            Outgoing::Raw(d) => d@ == bytes,
        }
    }
}

/// Room for the transport's header, then `frame`.
pub open spec fn raw_datagram(header_len: int, frame: Seq<u8>) -> Seq<u8> {
    Seq::new(header_len as nat, |i: int| 0u8) + frame
}

impl Packet {
    /// Reads a command that came as a datagram: `code` is its command byte,
    /// `options` what the datagram layer carried beside it, `body` what lay
    /// behind the command byte. `InvalidData` where the command byte stands
    /// for no command or the bytes hold no such message.
    pub fn decode_command(code: u8, options: &DatagramOptions, body: &[u8]) -> (r: Result<
        Packet,
        ErrorCode,
    >)
        ensures
            r matches Err(e) ==> e == ErrorCode::InvalidData,
            code == 0 ==> (r is Ok <==> InterestView::parse(body@, options.sequence) is Some),
            code == 0 && r is Ok ==> r->Ok_0 is Interest && InterestView::parse(
                body@,
                options.sequence,
            ).unwrap().0 == r->Ok_0->Interest_0@,
            code == 1 ==> (r is Ok <==> RespInterestView::parse(body@, options.sequence) is Some),
            code == 1 && r is Ok ==> r->Ok_0 is RespInterest && RespInterestView::parse(
                body@,
                options.sequence,
            ).unwrap().0 == r->Ok_0->RespInterest_0@,
            code > 1 ==> r is Err,
    {
        match CommandCode::try_from(code) {
            Ok(CommandCode::Interest) => {
                let (m, _) = Interest::raw_decode_with_context(body, options)?;
                Ok(Packet::Interest(m))
            },
            Ok(CommandCode::RespInterest) => {
                let (m, _) = RespInterest::raw_decode_with_context(body, options)?;
                Ok(Packet::RespInterest(m))
            },
            Err(_) => Err(ErrorCode::InvalidData),
        }
    }

    /// Reads a datagram that came on the transport itself, from its command
    /// byte on. `InvalidData` where there is no command byte, it stands for
    /// no command, or the bytes behind it hold no such message.
    pub fn decode_raw(packet: &[u8]) -> (r: Result<Packet, ErrorCode>)
        ensures
            r matches Err(e) ==> e == ErrorCode::InvalidData,
            packet@.len() == 0 ==> r is Err,
            packet@.len() > 0 && !(0x60 <= packet@[0] <= 0x62) ==> r is Err,
            packet@.len() > 0 && packet@[0] == 0x60 ==> (r is Ok <==> PieceDataView::parse(
                packet@.skip(1),
            ) is Some),
            packet@.len() > 0 && packet@[0] == 0x60 && r is Ok ==> r->Ok_0 is PieceData
                && PieceDataView::parse(packet@.skip(1)) == Some(r->Ok_0->PieceData_0@),
            packet@.len() > 0 && packet@[0] == 0x61 ==> (r is Ok <==> PieceControlView::parse(
                packet@.skip(1),
            ) is Some),
            packet@.len() > 0 && packet@[0] == 0x61 && r is Ok ==> r->Ok_0 is PieceControl
                && PieceControlView::parse(packet@.skip(1)).unwrap().0
                == r->Ok_0->PieceControl_0@,
            packet@.len() > 0 && packet@[0] == 0x62 ==> (r is Ok <==> ChannelEstimate::parse(
                packet@.skip(1),
            ) is Some),
            packet@.len() > 0 && packet@[0] == 0x62 && r is Ok ==> r->Ok_0 is ChannelEstimate
                && ChannelEstimate::parse(packet@.skip(1)).unwrap().0
                == r->Ok_0->ChannelEstimate_0,
    {
        if packet.len() == 0 {
            return Err(ErrorCode::InvalidData);
        }
        let body: &[u8] = slice_subrange(packet, 1, packet.len());
        match PackageCmdCode::try_from(packet[0]) {
            Ok(PackageCmdCode::PieceData) => {
                let m = PieceData::decode_from_raw_data(body)?;
                Ok(Packet::PieceData(m))
            },
            Ok(PackageCmdCode::PieceControl) => {
                let (m, _) = PieceControl::raw_decode(body)?;
                Ok(Packet::PieceControl(m))
            },
            Ok(PackageCmdCode::ChannelEstimate) => {
                let (m, _) = ChannelEstimate::raw_decode(body)?;
                Ok(Packet::ChannelEstimate(m))
            },
            Err(_) => Err(ErrorCode::InvalidData),
        }
    }

    /// Writes the message as what is handed to the transport, behind room
    /// for a transport header of `header_len` bytes where it travels on the
    /// transport itself. A `PieceControl` may go out as several datagrams,
    /// or none. `InvalidParam` where the message cannot be written or is
    /// more than the transport carries.
    pub fn encode(self, header_len: usize) -> (r: Result<Vec<Outgoing>, ErrorCode>)
        ensures
            r matches Err(e) ==> e == ErrorCode::InvalidParam,
            match self {
                Packet::Interest(m) => (r is Ok <==> m@.fits() && m@.frame().len() <= MTU) && (
                r matches Ok(out) ==> out@.len() == 1 && out@[0].is_datagram(
                    m.session_id,
                    m@.frame(),
                )),
                Packet::RespInterest(m) => (r is Ok <==> m@.fits() && m@.frame().len() <= MTU) && (
                r matches Ok(out) ==> out@.len() == 1 && out@[0].is_datagram(
                    m.session_id,
                    m@.frame(),
                )),
                Packet::PieceData(m) => (r is Ok <==> m@.fits() && header_len + m@.frame().len()
                    <= MTU) && (r matches Ok(out) ==> out@.len() == 1 && out@[0].is_raw(
                    raw_datagram(header_len as int, m@.frame()),
                )),
                Packet::PieceControl(m) => (r is Ok <==> m@.split_ok(header_len as int)) && (
                r matches Ok(out) ==> out@.len() == m@.split().len() && forall|i: int|
                    0 <= i < out@.len() ==> (#[trigger] out@[i]).is_raw(
                        m@.split()[i].datagram(header_len as int),
                    )),
                Packet::ChannelEstimate(m) => (r is Ok <==> header_len + 13 <= MTU) && (
                r matches Ok(out) ==> out@.len() == 1 && out@[0].is_raw(
                    raw_datagram(header_len as int, m.frame()),
                )),
            },
    {
        let mut out: Vec<Outgoing> = Vec::new();
        match self {
            Packet::Interest(m) => {
                let mut options = DatagramOptions { sequence: None };
                let mut buffer: Vec<u8> = Vec::new();
                buffer.resize(MTU, 0u8);
                let left: usize = m.raw_encode_with_context(buffer.as_mut_slice(),
                    &mut options)?.len();
                buffer.truncate(MTU - left);
                assert(buffer@ =~= m@.frame());
                out.push(Outgoing::Datagram { sequence: m.session_id, data: buffer });
                Ok(out)
            },
            Packet::RespInterest(m) => {
                let mut options = DatagramOptions { sequence: None };
                let mut buffer: Vec<u8> = Vec::new();
                buffer.resize(MTU, 0u8);
                let left: usize = m.raw_encode_with_context(buffer.as_mut_slice(),
                    &mut options)?.len();
                buffer.truncate(MTU - left);
                assert(buffer@ =~= m@.frame());
                out.push(Outgoing::Datagram { sequence: m.session_id, data: buffer });
                Ok(out)
            },
            Packet::PieceData(m) => {
                if header_len > MTU {
                    return Err(ErrorCode::InvalidParam);
                }
                let mut buffer: Vec<u8> = Vec::new();
                buffer.resize(MTU, 0u8);
                let (_, body) = buffer.as_mut_slice().split_at_mut(header_len);
                let left: usize = m.raw_encode(body)?.len();
                buffer.truncate(MTU - left);
                assert(buffer@ =~= raw_datagram(header_len as int, m@.frame()));
                out.push(Outgoing::Raw(buffer));
                Ok(out)
            },
            Packet::PieceControl(m) => {
                let ghost v = m@;
                let datagrams: Vec<Vec<u8>> = m.split_send(header_len)?;
                let n: usize = datagrams.len();
                let mut datagrams = datagrams;
                let ghost all = datagrams@;
                let mut i: usize = 0;
                while i < n
                    invariant
                        n == all.len(),
                        i <= n,
                        datagrams@.len() == n,
                        out@.len() == i,
                        forall|k: int| i <= k < n ==> (#[trigger] datagrams@[k]) == all[k],
                        forall|k: int| 0 <= k < i ==> (#[trigger] out@[k]).is_raw(all[k]@),
                    decreases n - i,
                {
                    let mut d: Vec<u8> = Vec::new();
                    std::mem::swap(&mut d, &mut datagrams[i]);
                    out.push(Outgoing::Raw(d));
                    i += 1;
                }
                Ok(out)
            },
            Packet::ChannelEstimate(m) => {
                if header_len > MTU {
                    return Err(ErrorCode::InvalidParam);
                }
                let mut buffer: Vec<u8> = Vec::new();
                buffer.resize(MTU, 0u8);
                let (_, body) = buffer.as_mut_slice().split_at_mut(header_len);
                let left: usize = m.raw_encode(body)?.len();
                buffer.truncate(MTU - left);
                assert(buffer@ =~= raw_datagram(header_len as int, m.frame()));
                out.push(Outgoing::Raw(buffer));
                Ok(out)
            },
        }
    }
}

} // verus!
