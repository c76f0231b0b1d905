use ndn_transfer::error::ErrorCode;
use ndn_transfer::flags::FlagsCounter;
use ndn_transfer::flags::FlagsDecodeContext;
use ndn_transfer::flags::FlagsEncodeContext;
use ndn_transfer::packet::Outgoing;
use ndn_transfer::packet::Packet;
use ndn_transfer::protocol::ChannelEstimate;
use ndn_transfer::protocol::CommandCode;
use ndn_transfer::protocol::CommandPackage;
use ndn_transfer::protocol::DatagramOptions;
use ndn_transfer::protocol::Interest;
use ndn_transfer::protocol::Package;
use ndn_transfer::protocol::PackageCmdCode;
use ndn_transfer::protocol::PieceControl;
use ndn_transfer::protocol::PieceControlCommand;
use ndn_transfer::protocol::PieceData;
use ndn_transfer::protocol::PieceDesc;
use ndn_transfer::protocol::RespInterest;
use ndn_transfer::protocol::MTU;
use ndn_transfer::raw::RawDecode;
use ndn_transfer::raw::RawEncode;
use ndn_transfer::types::ChunkId;
use ndn_transfer::types::DeviceId;
use ndn_transfer::types::PieceSessionType;
use ndn_transfer::types::TempSeq;

fn chunk_of(seed: u8, len: u32) -> ChunkId {
    let mut hash = [0u8; 28];
    for (i, b) in hash.iter_mut().enumerate() {
        *b = seed.wrapping_add(i as u8);
    }
    ChunkId::new(&hash, len)
}

fn encode_interest(m: &Interest) -> Vec<u8> {
    let mut buf = [0u8; 1500];
    let mut options = DatagramOptions::default();
    let left = m.raw_encode_with_context(&mut buf, &mut options).unwrap().len();
    buf[..1500 - left].to_vec()
}

fn encode_resp(m: &RespInterest) -> Vec<u8> {
    let mut buf = [0u8; 1500];
    let mut options = DatagramOptions::default();
    let left = m.raw_encode_with_context(&mut buf, &mut options).unwrap().len();
    buf[..1500 - left].to_vec()
}

fn encode_control(m: &PieceControl) -> Vec<u8> {
    let mut buf = [0u8; 1500];
    let left = m.raw_encode(&mut buf).unwrap().len();
    buf[..1500 - left].to_vec()
}

#[test]
fn encode_protocol_ineterest() {
    let src = Interest {
        session_id: TempSeq::from(123),
        chunk: ChunkId::default(),
        prefer_type: PieceSessionType::Stream(Some(0)),
        referer: Some("referer".to_owned()),
    };

    let mut buf = [0u8; 1500];
    let mut options = DatagramOptions::default();
    let _ = src.raw_encode_with_context(&mut buf, &mut options).unwrap();

    let (cmd, dec) = u8::raw_decode(&buf)
        .map(|(code, dec)| (CommandCode::try_from(code).unwrap(), dec))
        .unwrap();
    assert_eq!(cmd, CommandCode::Interest);
    let (dst, _) = Interest::raw_decode_with_context(dec, &mut options).unwrap();
    assert_eq!(src.chunk, dst.chunk);
    assert_eq!(src.referer, dst.referer);
}

#[test]
fn interest_frame_bytes_are_exact() {
    let src = Interest {
        session_id: TempSeq::from(7),
        chunk: ChunkId::new(&[9u8; 28], 0x01020304),
        prefer_type: PieceSessionType::Stream(Some(0x0400)),
        referer: Some("ab".to_owned()),
    };
    let mut buf = [0xeeu8; 64];
    let mut options = DatagramOptions::default();
    let rest_len = src.raw_encode_with_context(&mut buf, &mut options).unwrap().len();
    let used = 64 - rest_len;
    let mut expect: Vec<u8> = vec![0, 0, 1];
    expect.extend_from_slice(&[1, 2, 3, 4]);
    expect.extend_from_slice(&[9u8; 28]);
    expect.extend_from_slice(&[1, 1, 4, 0]);
    expect.extend_from_slice(&[0, 2, b'a', b'b']);
    assert_eq!(&buf[..used], &expect[..]);
    assert_eq!(buf[used], 0xee);
    assert_eq!(options.sequence, Some(TempSeq::from(7)));
}

#[test]
fn interest_without_room_leaves_buffer() {
    let src = Interest {
        session_id: TempSeq::from(7),
        chunk: ChunkId::default(),
        prefer_type: PieceSessionType::Unknown,
        referer: None,
    };
    let mut buf = [0xeeu8; 35];
    let mut options = DatagramOptions::default();
    let r = src.raw_encode_with_context(&mut buf, &mut options).map(|rest| rest.len());
    assert_eq!(r, Err(ErrorCode::InvalidParam));
    assert_eq!(buf, [0xeeu8; 35]);
    assert_eq!(options.sequence, None);
}

#[test]
fn interest_round_trip_all_prefer_types() {
    let types = [
        PieceSessionType::Unknown,
        PieceSessionType::Stream(None),
        PieceSessionType::Stream(Some(1024)),
        PieceSessionType::RaptorA(None),
        PieceSessionType::RaptorA(Some(65535)),
        PieceSessionType::RaptorB(Some(1)),
    ];
    for t in types {
        for referer in [None, Some("ndn://a/b?c=d".to_owned()), Some(String::new())] {
            let src = Interest {
                session_id: TempSeq::from(0xdead_beef),
                chunk: chunk_of(3, 4096),
                prefer_type: t,
                referer: referer.clone(),
            };
            let frame = encode_interest(&src);
            assert_eq!(frame[0], 0);
            let options = DatagramOptions { sequence: Some(src.session_id) };
            let (dst, rest) = Interest::raw_decode_with_context(&frame[1..], &options).unwrap();
            assert!(rest.is_empty());
            assert_eq!(dst.session_id, src.session_id);
            assert_eq!(dst.chunk, src.chunk);
            assert_eq!(dst.prefer_type, src.prefer_type);
            assert_eq!(dst.referer, src.referer);
        }
    }
}

#[test]
fn interest_cut_short_is_invalid_data() {
    let src = Interest {
        session_id: TempSeq::from(5),
        chunk: chunk_of(1, 10),
        prefer_type: PieceSessionType::Stream(Some(1024)),
        referer: Some("referer".to_owned()),
    };
    let frame = encode_interest(&src);
    let options = DatagramOptions { sequence: Some(src.session_id) };
    for k in 0..frame.len() - 1 {
        let r = Interest::raw_decode_with_context(&frame[1..1 + k], &options);
        assert_eq!(r.err(), Some(ErrorCode::InvalidData), "cut at {}", k);
    }
}

#[test]
fn interest_without_sequence_is_invalid_data() {
    let src = Interest {
        session_id: TempSeq::from(5),
        chunk: chunk_of(1, 10),
        prefer_type: PieceSessionType::Unknown,
        referer: None,
    };
    let frame = encode_interest(&src);
    let r = Interest::raw_decode_with_context(&frame[1..], &DatagramOptions::default());
    assert_eq!(r.err(), Some(ErrorCode::InvalidData));
}

#[test]
fn interest_referer_flag_is_first_bit() {
    let mut src = Interest {
        session_id: TempSeq::from(5),
        chunk: chunk_of(1, 10),
        prefer_type: PieceSessionType::Unknown,
        referer: None,
    };
    let frame = encode_interest(&src);
    assert_eq!(&frame[1..3], &[0, 0]);
    src.referer = Some("x".to_owned());
    let frame = encode_interest(&src);
    assert_eq!(&frame[1..3], &[0, 1]);
}

#[test]
fn interest_referer_that_is_not_text_is_invalid_data() {
    let src = Interest {
        session_id: TempSeq::from(5),
        chunk: chunk_of(1, 10),
        prefer_type: PieceSessionType::Unknown,
        referer: Some("ab".to_owned()),
    };
    let mut frame = encode_interest(&src);
    let n = frame.len();
    frame[n - 2] = 0xff;
    frame[n - 1] = 0xfe;
    let options = DatagramOptions { sequence: Some(src.session_id) };
    let r = Interest::raw_decode_with_context(&frame[1..], &options);
    assert_eq!(r.err(), Some(ErrorCode::InvalidData));
}

#[test]
fn interest_referer_keeps_text_beyond_ascii() {
    let src = Interest {
        session_id: TempSeq::from(5),
        chunk: chunk_of(1, 10),
        prefer_type: PieceSessionType::Unknown,
        referer: Some("ré\u{4e2d}\u{1f600}".to_owned()),
    };
    let frame = encode_interest(&src);
    let options = DatagramOptions { sequence: Some(src.session_id) };
    let (dst, _) = Interest::raw_decode_with_context(&frame[1..], &options).unwrap();
    assert_eq!(dst.referer, src.referer);
    assert_eq!(frame[frame.len() - 10 - 2..frame.len() - 10], [0, 10]);
}

#[test]
fn interest_referer_too_long_is_invalid_param() {
    let src = Interest {
        session_id: TempSeq::from(5),
        chunk: chunk_of(1, 10),
        prefer_type: PieceSessionType::Unknown,
        referer: Some("x".repeat(70000)),
    };
    let mut buf = vec![0u8; 80000];
    let mut options = DatagramOptions::default();
    let r = src.raw_encode_with_context(&mut buf, &mut options).map(|rest| rest.len());
    assert_eq!(r, Err(ErrorCode::InvalidParam));
    assert_eq!(src.raw_measure_with_context(), Err(ErrorCode::InvalidParam));
}

#[test]
fn resp_interest_round_trip_and_flags() {
    let redirect = DeviceId::new(&[7u8; 32]);
    let node = DeviceId::new(&[8u8; 32]);
    for (a, b, c) in [
        (false, false, false),
        (true, false, false),
        (false, true, false),
        (false, false, true),
        (true, true, false),
        (true, false, true),
        (false, true, true),
        (true, true, true),
    ] {
        let src = RespInterest {
            session_id: TempSeq::from(77),
            chunk: chunk_of(9, 123456),
            err: ErrorCode::NotFound,
            redirect: if a { Some(redirect) } else { None },
            redirect_referer: if b { Some("over/there".to_owned()) } else { None },
            cache_node: if c { Some(node) } else { None },
        };
        let frame = encode_resp(&src);
        assert_eq!(frame[0], 1);
        let flags = (a as u8) | ((b as u8) << 1) | ((c as u8) << 2);
        assert_eq!(&frame[1..3], &[0, flags]);
        assert_eq!(&frame[35..37], &[0, 4]);
        let options = DatagramOptions { sequence: Some(src.session_id) };
        let (dst, rest) = RespInterest::raw_decode_with_context(&frame[1..], &options).unwrap();
        assert!(rest.is_empty());
        assert_eq!(dst.session_id, src.session_id);
        assert_eq!(dst.chunk, src.chunk);
        assert_eq!(dst.err, src.err);
        assert_eq!(dst.redirect, src.redirect);
        assert_eq!(dst.redirect_referer, src.redirect_referer);
        assert_eq!(dst.cache_node, src.cache_node);
        for k in 0..frame.len() - 1 {
            let r = RespInterest::raw_decode_with_context(&frame[1..1 + k], &options);
            assert_eq!(r.err(), Some(ErrorCode::InvalidData));
        }
    }
}

#[test]
fn error_codes_keep_their_numbers() {
    let all = [
        (ErrorCode::Success, 0u16),
        (ErrorCode::InvalidParam, 2),
        (ErrorCode::Timeout, 3),
        (ErrorCode::NotFound, 4),
        (ErrorCode::ErrorState, 7),
        (ErrorCode::Interrupted, 19),
        (ErrorCode::InvalidData, 21),
        (ErrorCode::ConnectFailed, 40),
        (ErrorCode::UserCanceled, 44),
        (ErrorCode::Unknown, 255),
    ];
    for (e, n) in all {
        assert_eq!(e.into_u16(), n);
        assert_eq!(ErrorCode::from_u16(n), e);
    }
    assert_eq!(ErrorCode::from_u16(1), ErrorCode::Unknown);
    assert_eq!(ErrorCode::from_u16(9999), ErrorCode::Unknown);
}

#[test]
fn error_code_survives_the_wire() {
    for e in [ErrorCode::Interrupted, ErrorCode::Timeout, ErrorCode::UserCanceled] {
        let src = RespInterest {
            session_id: TempSeq::from(1),
            chunk: chunk_of(0, 1),
            err: e,
            redirect: None,
            redirect_referer: None,
            cache_node: None,
        };
        let frame = encode_resp(&src);
        let options = DatagramOptions { sequence: Some(TempSeq::from(1)) };
        let (dst, _) = RespInterest::raw_decode_with_context(&frame[1..], &options).unwrap();
        assert_eq!(dst.err, e);
    }
}

#[test]
fn command_codes() {
    assert_eq!(CommandCode::try_from(0), Ok(CommandCode::Interest));
    assert_eq!(CommandCode::try_from(1), Ok(CommandCode::RespInterest));
    assert_eq!(CommandCode::try_from(2), Err(ErrorCode::InvalidParam));
    assert_eq!(CommandCode::Interest.value(), 0);
    assert_eq!(CommandCode::RespInterest.value(), 1);
    assert_eq!(Interest::command_code(), CommandCode::Interest);
    assert_eq!(RespInterest::command_code(), CommandCode::RespInterest);
    assert_eq!(PieceData::cmd_code(), PackageCmdCode::PieceData);
    assert_eq!(PieceControl::cmd_code(), PackageCmdCode::PieceControl);
    assert_eq!(ChannelEstimate::cmd_code(), PackageCmdCode::ChannelEstimate);
    assert_eq!(PackageCmdCode::try_from(0x61), Ok(PackageCmdCode::PieceControl));
    assert_eq!(PackageCmdCode::try_from(0x63), Err(ErrorCode::InvalidParam));
    assert_eq!(PackageCmdCode::ChannelEstimate.value(), 0x62);
}

#[test]
fn integers_are_big_endian() {
    let mut buf = [0u8; 16];
    let left = 0x0102u16.raw_encode(&mut buf).unwrap().len();
    assert_eq!(left, 14);
    assert_eq!(&buf[..2], &[1, 2]);
    let left = 0x01020304u32.raw_encode(&mut buf).unwrap().len();
    assert_eq!(left, 12);
    assert_eq!(&buf[..4], &[1, 2, 3, 4]);
    let left = 0x0102030405060708u64.raw_encode(&mut buf).unwrap().len();
    assert_eq!(left, 8);
    assert_eq!(&buf[..8], &[1, 2, 3, 4, 5, 6, 7, 8]);
    assert_eq!(u64::raw_decode(&buf).unwrap().0, 0x0102030405060708);
    assert_eq!(u32::raw_decode(&buf).unwrap().0, 0x01020304);
    assert_eq!(u16::raw_decode(&buf).unwrap().0, 0x0102);
    assert_eq!(u8::raw_decode(&buf).unwrap().0, 1);
    assert_eq!(u64::raw_decode(&buf[..7]).err(), Some(ErrorCode::InvalidData));
    assert_eq!(u16::MAX.raw_measure(), Ok(2));
    let mut small = [9u8; 3];
    assert_eq!(7u32.raw_encode(&mut small).err(), Some(ErrorCode::InvalidParam));
    assert_eq!(small, [9u8; 3]);
}

#[test]
fn flags_counter_hands_out_bits_in_order() {
    let mut c = FlagsCounter::new();
    assert_eq!(c.next(), 1);
    assert_eq!(c.next(), 2);
    assert_eq!(c.next(), 4);
    assert_eq!(c.next(), 8);
}

#[test]
fn flags_contexts_write_and_read_a_frame() {
    let mut buf = [0xaau8; 16];
    let mut flags = FlagsCounter::new();
    {
        let (mut ctx, rest) = FlagsEncodeContext::new(9, &mut buf).unwrap();
        let rest = ctx.encode(rest, &0x1122u16).unwrap();
        let rest = ctx.option_encode(rest, &None::<u32>, flags.next()).unwrap();
        let rest = ctx.option_encode(rest, &Some(0x33u8), flags.next()).unwrap();
        assert_eq!(rest.len(), 10);
        ctx.set_flags(0x8000);
        assert_eq!(ctx.get_flags(), 0x8002);
        assert_eq!(ctx.length, 6);
        let after = ctx.finish(&mut buf).unwrap();
        assert_eq!(after.len(), 10);
    }
    assert_eq!(&buf[..7], &[9, 0x80, 2, 0x11, 0x22, 0x33, 0xaa]);

    let mut flags = FlagsCounter::new();
    let (mut ctx, rest) = FlagsDecodeContext::new(&buf[1..]).unwrap();
    assert_eq!(ctx.flags(), 0x8002);
    let (a, rest) = ctx.decode::<u16>(rest).unwrap();
    assert_eq!(a, 0x1122);
    let (b, rest) = ctx.option_decode::<u32>(rest, flags.next()).unwrap();
    assert_eq!(b, None);
    let (c, rest) = ctx.option_decode::<u8>(rest, flags.next()).unwrap();
    assert_eq!(c, Some(0x33));
    assert_eq!(rest.len(), 10);
    assert!(ctx.check_flags(2));
    assert!(!ctx.check_flags(1));
}

#[test]
fn flags_context_refuses_short_buffers() {
    let mut buf = [1u8; 2];
    assert!(FlagsEncodeContext::new(0, &mut buf).is_err());
    assert_eq!(buf, [1u8; 2]);
    assert!(FlagsDecodeContext::new(&buf[..1]).is_err());
    let ctx = FlagsEncodeContext { flags: 1, length: 5 };
    let mut frame = [3u8; 4];
    assert_eq!(ctx.finish(&mut frame).err(), Some(ErrorCode::InvalidParam));
    assert_eq!(frame, [3u8; 4]);
}

#[test]
fn piece_desc_indices() {
    let r = PieceDesc::Range(5, 1024);
    let s = PieceDesc::Raptor(6, 12);
    assert_eq!(r.range_index(1024), Some(5));
    assert_eq!(r.range_index(1000), None);
    assert_eq!(r.raptor_index(1024), None);
    assert_eq!(s.raptor_index(12), Some(6));
    assert_eq!(s.raptor_index(13), None);
    assert_eq!(s.range_index(12), None);
    assert_eq!(PieceDesc::raw_raptor_bytes(), 7);
    assert_eq!(PieceDesc::raw_stream_bytes(), 7);
    assert_eq!(PieceDesc::from_stream_offset(1024, 2500), (PieceDesc::Range(2, 1024), 452));
    assert_eq!(r.unwrap_as_stream(), Some((5, 1024)));
    assert_eq!(s.unwrap_as_stream(), None);
}

#[test]
fn piece_desc_round_trip() {
    for d in [PieceDesc::Range(0x01020304, 0x0506), PieceDesc::Raptor(9, 10)] {
        let mut buf = [0u8; 7];
        let left = d.raw_encode(&mut buf).unwrap().len();
        assert_eq!(left, 0);
        let (e, rest) = PieceDesc::raw_decode(&buf).unwrap();
        assert_eq!(e, d);
        assert!(rest.is_empty());
    }
    assert_eq!(PieceDesc::raw_decode(&[1, 1, 2, 3, 4, 5, 6]).unwrap().0, PieceDesc::Range(0x01020304, 0x0506));
    assert_eq!(PieceDesc::raw_decode(&[2, 0, 0, 0, 0, 0, 0]).err(), Some(ErrorCode::InvalidData));
    assert_eq!(PieceDesc::raw_decode(&[1, 0, 0, 0, 0, 0]).err(), Some(ErrorCode::InvalidData));
}

#[test]
fn piece_data_header_and_payload() {
    assert_eq!(PieceData::max_header_len(), 47);
    assert_eq!(PieceData::max_payload(), 1416);
    let chunk = chunk_of(4, 3000);
    let mut buf = [0u8; 64];
    let left = PieceData::encode_header(
        &mut buf,
        &TempSeq::from(0x0a0b0c0d),
        &chunk,
        &PieceDesc::Range(2, 1024),
    )
    .unwrap()
    .len();
    assert_eq!(left, 16);
    assert_eq!(buf[0], 0x60);
    assert_eq!(&buf[1..5], &[0, 0, 0, 0]);
    assert_eq!(&buf[5..9], &[0x0a, 0x0b, 0x0c, 0x0d]);
    assert_eq!(&buf[9..13], &[0, 0, 0x0b, 0xb8]);
    assert_eq!(&buf[41..48], &[1, 0, 0, 0, 2, 4, 0]);
    PieceData::reset_estimate(&mut buf, TempSeq::from(0x01020304));
    assert_eq!(&buf[..6], &[0x60, 1, 2, 3, 4, 0x0a]);
    buf[48] = 0xab;
    buf[49] = 0xcd;
    let piece = PieceData::decode_from_raw_data(&buf[1..50]).unwrap();
    assert_eq!(piece.est_seq, Some(TempSeq::from(0x01020304)));
    assert_eq!(piece.session_id, TempSeq::from(0x0a0b0c0d));
    assert_eq!(piece.chunk, chunk);
    assert_eq!(piece.desc, PieceDesc::Range(2, 1024));
    assert_eq!(piece.data, vec![0xab, 0xcd]);
}

#[test]
fn piece_data_round_trip() {
    for est in [None, Some(TempSeq::from(9))] {
        let src = PieceData {
            est_seq: est,
            session_id: TempSeq::from(3),
            chunk: chunk_of(2, 5),
            desc: PieceDesc::Range(0, 1024),
            data: vec![1, 2, 3, 4, 5],
        };
        let mut buf = [0u8; 100];
        let left = src.raw_encode(&mut buf).unwrap().len();
        assert_eq!(left, 100 - 53);
        let dst = PieceData::decode_from_raw_data(&buf[1..53]).unwrap();
        assert_eq!(dst.est_seq, src.est_seq);
        assert_eq!(dst.session_id, src.session_id);
        assert_eq!(dst.chunk, src.chunk);
        assert_eq!(dst.desc, src.desc);
        assert_eq!(dst.data, src.data);
        for k in 0..47 {
            assert_eq!(
                PieceData::decode_from_raw_data(&buf[1..1 + k]).err(),
                Some(ErrorCode::InvalidData)
            );
        }
        assert_eq!(PieceData::decode_from_raw_data(&buf[1..48]).unwrap().data, Vec::<u8>::new());
    }
}

#[test]
fn piece_data_estimate_of_zero_cannot_be_written() {
    let src = PieceData {
        est_seq: Some(TempSeq::from(0)),
        session_id: TempSeq::from(3),
        chunk: chunk_of(2, 5),
        desc: PieceDesc::Range(0, 1024),
        data: vec![],
    };
    let mut buf = [7u8; 100];
    assert_eq!(src.raw_encode(&mut buf).err(), Some(ErrorCode::InvalidParam));
    assert_eq!(buf, [7u8; 100]);
}

#[test]
fn piece_control_round_trip_and_flags() {
    for (max, lost) in [
        (None, None),
        (Some(7u32), None),
        (None, Some(vec![1u32..2, 5..9])),
        (Some(0xffff_ffffu32), Some(vec![])),
        (Some(3), Some(vec![1..2])),
    ] {
        let src = PieceControl {
            sequence: TempSeq::from(11),
            session_id: TempSeq::from(22),
            chunk: chunk_of(5, 4096),
            command: PieceControlCommand::Continue,
            max_index: max,
            lost_index: lost.clone(),
        };
        let frame = encode_control(&src);
        assert_eq!(frame[0], 0x61);
        let flags = (max.is_some() as u8) | ((lost.is_some() as u8) << 1);
        assert_eq!(&frame[1..3], &[0, flags]);
        assert_eq!(src.raw_measure(), Ok(frame.len()));
        let (dst, rest) = PieceControl::raw_decode(&frame[1..]).unwrap();
        assert!(rest.is_empty());
        assert_eq!(dst.sequence, src.sequence);
        assert_eq!(dst.session_id, src.session_id);
        assert_eq!(dst.chunk, src.chunk);
        assert_eq!(dst.command, src.command);
        assert_eq!(dst.max_index, src.max_index);
        assert_eq!(dst.lost_index, src.lost_index);
        for k in 0..frame.len() - 1 {
            assert_eq!(
                PieceControl::raw_decode(&frame[1..1 + k]).err(),
                Some(ErrorCode::InvalidData)
            );
        }
    }
}

#[test]
fn piece_control_bytes_are_exact() {
    let src = PieceControl {
        sequence: TempSeq::from(1),
        session_id: TempSeq::from(2),
        chunk: ChunkId::new(&[0u8; 28], 3),
        command: PieceControlCommand::Cancel,
        max_index: Some(4),
        lost_index: Some(vec![5..6]),
    };
    let frame = encode_control(&src);
    let mut expect = vec![0x61u8, 0, 3, 0, 0, 0, 1, 0, 0, 0, 2, 0, 0, 0, 3];
    expect.extend_from_slice(&[0u8; 28]);
    expect.extend_from_slice(&[3, 0, 0, 0, 4, 0, 1, 0, 0, 0, 5, 0, 0, 0, 6]);
    assert_eq!(frame, expect);
    let mut bad = frame.clone();
    bad[43] = 4;
    assert_eq!(PieceControl::raw_decode(&bad[1..]).err(), Some(ErrorCode::InvalidData));
}

#[test]
fn piece_control_commands_have_their_codes() {
    for (c, n) in [
        (PieceControlCommand::Continue, 0u8),
        (PieceControlCommand::Finish, 1),
        (PieceControlCommand::Pause, 2),
        (PieceControlCommand::Cancel, 3),
    ] {
        let mut buf = [9u8; 1];
        c.raw_encode(&mut buf).unwrap();
        assert_eq!(buf, [n]);
        assert_eq!(PieceControlCommand::raw_decode(&buf).unwrap().0, c);
    }
    assert_eq!(PieceControlCommand::raw_decode(&[4]).err(), Some(ErrorCode::InvalidData));
}

fn control(command: PieceControlCommand, max: Option<u32>, lost: Option<Vec<std::ops::Range<u32>>>) -> PieceControl {
    PieceControl {
        sequence: TempSeq::from(1),
        session_id: TempSeq::from(2),
        chunk: chunk_of(1, 100_000),
        command,
        max_index: max,
        lost_index: lost,
    }
}

#[test]
fn split_send_cuts_loss_list_into_batches() {
    assert_eq!(PieceControl::max_index_payload(), 125);
    let lost: Vec<std::ops::Range<u32>> = (0..300u32).map(|i| (3 * i)..(3 * i + 1)).collect();
    let packets = control(PieceControlCommand::Continue, Some(1000), Some(lost.clone()))
        .split_send(8)
        .unwrap();
    assert_eq!(packets.len(), 3);
    let mut seen: Vec<std::ops::Range<u32>> = Vec::new();
    for (i, p) in packets.iter().enumerate() {
        assert!(p.len() <= MTU);
        assert_eq!(&p[..8], &[0u8; 8]);
        assert_eq!(p[8], 0x61);
        let (m, rest) = PieceControl::raw_decode(&p[9..]).unwrap();
        assert!(rest.is_empty());
        assert_eq!(m.command, PieceControlCommand::Continue);
        assert_eq!(m.max_index, Some(1000));
        assert_eq!(m.sequence, TempSeq::from(1));
        let batch = m.lost_index.unwrap();
        assert_eq!(batch.len(), if i < 2 { 125 } else { 50 });
        seen.extend(batch);
    }
    assert_eq!(seen, lost);
}

#[test]
fn split_send_of_exactly_one_batch() {
    let lost: Vec<std::ops::Range<u32>> = (0..125u32).map(|i| i..(i + 1)).collect();
    let packets = control(PieceControlCommand::Continue, Some(9), Some(lost)).split_send(0).unwrap();
    assert_eq!(packets.len(), 1);
    assert_eq!(packets[0].len(), 3 + 41 + 4 + 2 + 125 * 8);
}

#[test]
fn split_send_of_empty_loss_list_sends_nothing() {
    let packets = control(PieceControlCommand::Continue, Some(9), Some(vec![])).split_send(8).unwrap();
    assert!(packets.is_empty());
    let packets = control(PieceControlCommand::Continue, None, Some(vec![])).split_send(8).unwrap();
    assert!(packets.is_empty());
}

#[test]
fn split_send_sends_other_commands_once() {
    for c in [
        control(PieceControlCommand::Finish, None, None),
        control(PieceControlCommand::Cancel, None, Some(vec![1..2])),
        control(PieceControlCommand::Continue, Some(3), None),
    ] {
        let expect = encode_control(&c);
        let packets = c.split_send(8).unwrap();
        assert_eq!(packets.len(), 1);
        assert_eq!(&packets[0][..8], &[0u8; 8]);
        assert_eq!(&packets[0][8..], &expect[..]);
    }
}

#[test]
fn split_send_refuses_what_cannot_be_sent() {
    let r = control(PieceControlCommand::Continue, None, Some(vec![1..2])).split_send(8);
    assert_eq!(r.err(), Some(ErrorCode::InvalidParam));
    let r = control(PieceControlCommand::Finish, None, None).split_send(MTU + 1);
    assert_eq!(r.err(), Some(ErrorCode::InvalidParam));
    let r = control(PieceControlCommand::Finish, None, None).split_send(MTU - 10);
    assert_eq!(r.err(), Some(ErrorCode::InvalidParam));
    let many: Vec<std::ops::Range<u32>> = (0..200u32).map(|i| i..(i + 1)).collect();
    let r = control(PieceControlCommand::Cancel, None, Some(many)).split_send(8);
    assert_eq!(r.err(), Some(ErrorCode::InvalidParam));
}

#[test]
fn channel_estimate_round_trip() {
    let src = ChannelEstimate { sequence: TempSeq::from(0x01020304), recved: 0x0a0b0c0d0e0f1011 };
    let mut buf = [0u8; 13];
    assert_eq!(ChannelEstimate::raw_bytes(), 13);
    assert_eq!(src.raw_encode(&mut buf).unwrap().len(), 0);
    assert_eq!(buf, [0x62, 1, 2, 3, 4, 0x0a, 0x0b, 0x0c, 0x0d, 0x0e, 0x0f, 0x10, 0x11]);
    let (dst, rest) = ChannelEstimate::raw_decode(&buf[1..]).unwrap();
    assert_eq!(dst, src);
    assert!(rest.is_empty());
    for k in 0..12 {
        assert_eq!(ChannelEstimate::raw_decode(&buf[1..1 + k]).err(), Some(ErrorCode::InvalidData));
    }
    let mut small = [0u8; 12];
    assert_eq!(src.raw_encode(&mut small).err(), Some(ErrorCode::InvalidParam));
    assert_eq!(ChannelEstimate::default(), ChannelEstimate { sequence: TempSeq::from(0), recved: 0 });
}

#[test]
fn ids_round_trip() {
    let c = chunk_of(200, 0xfffffffe);
    let mut buf = [0u8; 40];
    assert_eq!(c.raw_encode(&mut buf).unwrap().len(), 8);
    assert_eq!(&buf[..4], &[0xff, 0xff, 0xff, 0xfe]);
    assert_eq!(&buf[4..32], &c.hash()[..]);
    assert_eq!(ChunkId::raw_decode(&buf).unwrap().0, c);
    assert_eq!(c.len(), 0xfffffffe);
    assert!(c.same(&chunk_of(200, 0xfffffffe)));
    assert!(!c.same(&chunk_of(200, 1)));
    assert!(!c.same(&chunk_of(201, 0xfffffffe)));
    let d = DeviceId::new(&[5u8; 32]);
    assert_eq!(d.raw_encode(&mut buf).unwrap().len(), 8);
    assert_eq!(&buf[..32], &[5u8; 32]);
    assert_eq!(DeviceId::raw_decode(&buf).unwrap().0, d);
    assert!(d.same(&DeviceId::new(&[5u8; 32])));
    assert!(!d.same(&DeviceId::default()));
    assert_eq!(d.as_bytes(), &[5u8; 32]);
    assert_eq!(TempSeq::default(), TempSeq::from(0));
    assert_eq!(TempSeq::from(9).value(), 9);
    assert_eq!(ChunkId::raw_decode(&buf[..31]).err(), Some(ErrorCode::InvalidData));
}

#[test]
fn lists_of_ranges_round_trip() {
    let v: Vec<std::ops::Range<u32>> = vec![0..1, 0x01020304..0x05060708];
    let mut buf = [0u8; 32];
    assert_eq!(v.raw_encode(&mut buf).unwrap().len(), 14);
    assert_eq!(&buf[..18], &[0, 2, 0, 0, 0, 0, 0, 0, 0, 1, 1, 2, 3, 4, 5, 6, 7, 8]);
    let (w, rest) = Vec::<std::ops::Range<u32>>::raw_decode(&buf[..18]).unwrap();
    assert_eq!(w, v);
    assert!(rest.is_empty());
    assert_eq!(
        Vec::<std::ops::Range<u32>>::raw_decode(&buf[..17]).err(),
        Some(ErrorCode::InvalidData)
    );
    assert_eq!(v.raw_measure(), Ok(18));
    let mut small = [1u8; 17];
    assert_eq!(v.raw_encode(&mut small).err(), Some(ErrorCode::InvalidParam));
    assert_eq!(small, [1u8; 17]);
}

#[test]
fn packets_are_read_by_their_command_byte() {
    let i = Interest {
        session_id: TempSeq::from(5),
        chunk: chunk_of(1, 10),
        prefer_type: PieceSessionType::Stream(Some(1024)),
        referer: None,
    };
    let frame = encode_interest(&i);
    let options = DatagramOptions { sequence: Some(TempSeq::from(5)) };
    match Packet::decode_command(frame[0], &options, &frame[1..]).unwrap() {
        Packet::Interest(m) => assert_eq!(m.chunk, i.chunk),
        other => panic!("{:?}", other),
    }
    assert_eq!(
        Packet::decode_command(2, &options, &frame[1..]).err(),
        Some(ErrorCode::InvalidData)
    );
    assert_eq!(Packet::decode_raw(&[]).err(), Some(ErrorCode::InvalidData));
    assert_eq!(Packet::decode_raw(&[0x63, 0, 0]).err(), Some(ErrorCode::InvalidData));
    let e = ChannelEstimate { sequence: TempSeq::from(1), recved: 2 };
    let mut buf = [0u8; 13];
    e.raw_encode(&mut buf).unwrap();
    match Packet::decode_raw(&buf).unwrap() {
        Packet::ChannelEstimate(m) => assert_eq!(m, e),
        other => panic!("{:?}", other),
    }
}

#[test]
fn packets_are_written_as_datagrams() {
    let i = Interest {
        session_id: TempSeq::from(5),
        chunk: chunk_of(1, 10),
        prefer_type: PieceSessionType::Stream(Some(1024)),
        referer: Some("r".to_owned()),
    };
    let frame = encode_interest(&i);
    let out = Packet::Interest(i).encode(8).unwrap();
    assert_eq!(out.len(), 1);
    match &out[0] {
        Outgoing::Datagram { sequence, data } => {
            assert_eq!(*sequence, TempSeq::from(5));
            assert_eq!(data, &frame);
        }
        other => panic!("{:?}", other),
    }
    let e = ChannelEstimate { sequence: TempSeq::from(1), recved: 2 };
    let out = Packet::ChannelEstimate(e).encode(8).unwrap();
    match &out[0] {
        Outgoing::Raw(d) => {
            assert_eq!(d.len(), 21);
            assert_eq!(&d[..9], &[0, 0, 0, 0, 0, 0, 0, 0, 0x62]);
        }
        other => panic!("{:?}", other),
    }
    let p = PieceData {
        est_seq: None,
        session_id: TempSeq::from(3),
        chunk: chunk_of(2, 5),
        desc: PieceDesc::Range(0, 1024),
        data: vec![0u8; 1416],
    };
    let out = Packet::PieceData(p).encode(8).unwrap();
    match &out[0] {
        Outgoing::Raw(d) => assert_eq!(d.len(), MTU),
        other => panic!("{:?}", other),
    }
    let p = PieceData {
        est_seq: None,
        session_id: TempSeq::from(3),
        chunk: chunk_of(2, 5),
        desc: PieceDesc::Range(0, 1024),
        data: vec![0u8; 1417],
    };
    assert_eq!(Packet::PieceData(p).encode(8).err(), Some(ErrorCode::InvalidParam));
    let lost: Vec<std::ops::Range<u32>> = (0..126u32).map(|i| i..(i + 1)).collect();
    let out = Packet::PieceControl(control(PieceControlCommand::Continue, Some(1), Some(lost)))
        .encode(8)
        .unwrap();
    assert_eq!(out.len(), 2);
}
