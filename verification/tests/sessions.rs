use ndn_transfer::download::DownloadSession;
use ndn_transfer::download::DownloadSessionState;
use ndn_transfer::download::FinishWait;
use ndn_transfer::download::Phase;
use ndn_transfer::encode::StreamEncoder;
use ndn_transfer::error::ErrorCode;
use ndn_transfer::protocol::Interest;
use ndn_transfer::protocol::PieceControl;
use ndn_transfer::protocol::PieceControlCommand;
use ndn_transfer::protocol::PieceData;
use ndn_transfer::protocol::PieceDesc;
use ndn_transfer::protocol::RespInterest;
use ndn_transfer::types::ChannelConfig;
use ndn_transfer::types::ChunkId;
use ndn_transfer::types::PieceSessionType;
use ndn_transfer::types::TempSeq;
use ndn_transfer::upload::UploadPhase;
use ndn_transfer::upload::UploadSession;
use ndn_transfer::upload::UploadTaskState;

const SECOND: u64 = 1_000_000;

fn config() -> ChannelConfig {
    ChannelConfig {
        resend_interval: SECOND,
        resend_timeout: 5 * SECOND,
        msl: 2 * SECOND,
        history_speed: 4,
        initial_speed: 50,
    }
}

fn chunk_of(len: u32) -> ChunkId {
    ChunkId::new(&[3u8; 28], len)
}

fn content_of(len: usize) -> Vec<u8> {
    (0..len).map(|i| (i * 7 + i / 256) as u8).collect()
}

fn piece(chunk: &ChunkId, content: &[u8], index: u32) -> PieceData {
    let from = index as usize * 1024;
    let to = usize::min(from + 1024, content.len());
    PieceData {
        est_seq: None,
        session_id: TempSeq::from(5),
        chunk: *chunk,
        desc: PieceDesc::Range(index, 1024),
        data: content[from..to].to_vec(),
    }
}

fn session(len: u32) -> DownloadSession {
    DownloadSession::new(
        chunk_of(len),
        TempSeq::from(5),
        PieceSessionType::Stream(Some(1024)),
        Some("referer".to_owned()),
        config(),
    )
}

fn resp(err: ErrorCode) -> RespInterest {
    RespInterest {
        session_id: TempSeq::from(5),
        chunk: chunk_of(4096),
        err,
        redirect: None,
        redirect_referer: None,
        cache_node: None,
    }
}

#[test]
fn download_starts_with_an_interest() {
    let mut s = session(4096);
    assert_eq!(s.phase(), Phase::Init);
    assert_eq!(s.state(), DownloadSessionState::Downloading(0));
    assert_eq!(s.chunk(), &chunk_of(4096));
    assert_eq!(s.session_id(), &TempSeq::from(5));
    assert_eq!(s.prefer_type(), &PieceSessionType::Stream(Some(1024)));
    assert_eq!(s.referer(), Some(&"referer".to_owned()));
    let (state, interest) = s.start(10);
    assert_eq!(state, DownloadSessionState::Downloading(0));
    let interest = interest.unwrap();
    assert_eq!(interest.session_id, TempSeq::from(5));
    assert_eq!(interest.chunk, chunk_of(4096));
    assert_eq!(interest.prefer_type, PieceSessionType::Stream(Some(1024)));
    assert_eq!(interest.referer, Some("referer".to_owned()));
    assert_eq!(s.phase(), Phase::Interesting { start_send_time: 10, last_send_time: 10 });
    let (_, again) = s.start(20);
    assert!(again.is_none());
    assert_eq!(s.phase(), Phase::Interesting { start_send_time: 10, last_send_time: 10 });
}

#[test]
fn download_happy_path() {
    let chunk = chunk_of(4096);
    let content = content_of(4096);
    let mut s = session(4096);
    s.start(10);
    assert_eq!(s.wait_finish(), FinishWait::Wait);
    assert_eq!(s.wait_finish(), FinishWait::Wait);
    for i in 0..3u32 {
        let out = s.push_piece_data(&piece(&chunk, &content, i), 20 + i as u64);
        assert!(out.control.is_none() && out.interest.is_none());
        assert_eq!(out.wake, 0);
        assert!(matches!(s.phase(), Phase::Downloading { .. }));
        assert_eq!(s.take_chunk_content(), None);
    }
    let out = s.push_piece_data(&piece(&chunk, &content, 3), 30);
    let c = out.control.unwrap();
    assert_eq!(c.command, PieceControlCommand::Finish);
    assert_eq!(c.max_index, None);
    assert_eq!(c.lost_index, None);
    assert_eq!(out.wake, 2);
    assert_eq!(s.phase(), Phase::Finished { send_ctrl_time: 30 });
    assert_eq!(s.state(), DownloadSessionState::Finished);
    assert_eq!(s.wait_finish(), FinishWait::Return(DownloadSessionState::Finished));
    assert_eq!(s.take_chunk_content(), Some(content));
    assert_eq!(s.take_chunk_content(), None);
}

#[test]
fn download_lossy_path() {
    let chunk = chunk_of(4096);
    let content = content_of(4096);
    let mut s = session(4096);
    s.start(0);
    for i in [0u32, 2, 3] {
        s.push_piece_data(&piece(&chunk, &content, i), 100);
    }
    let (r, out) = s.on_time_escape(100 + SECOND);
    assert_eq!(r, Ok(()));
    assert!(out.control.is_none());
    let (r, out) = s.on_time_escape(101 + SECOND);
    assert_eq!(r, Ok(()));
    let c = out.control.unwrap();
    assert_eq!(c.command, PieceControlCommand::Continue);
    assert_eq!(c.max_index, Some(3));
    assert_eq!(c.lost_index, Some(vec![1..2]));
    assert!(out.interest.is_none());
    let (_, out) = s.on_time_escape(102 + SECOND);
    assert!(out.control.is_none());
    let out = s.push_piece_data(&piece(&chunk, &content, 1), 200 + SECOND);
    assert_eq!(out.control.unwrap().command, PieceControlCommand::Finish);
    assert_eq!(s.take_chunk_content(), Some(content));
}

#[test]
fn download_reports_nothing_lost_without_a_list() {
    let chunk = chunk_of(4096);
    let content = content_of(4096);
    let mut s = session(4096);
    s.start(0);
    s.push_piece_data(&piece(&chunk, &content, 0), 100);
    s.push_piece_data(&piece(&chunk, &content, 1), 100);
    let (_, out) = s.on_time_escape(101 + SECOND);
    let c = out.control.unwrap();
    assert_eq!(c.command, PieceControlCommand::Continue);
    assert_eq!(c.max_index, Some(1));
    assert_eq!(c.lost_index, None);
}

#[test]
fn download_interest_timeout() {
    let mut s = session(4096);
    s.start(10);
    assert_eq!(s.wait_finish(), FinishWait::Wait);
    let (r, out) = s.on_time_escape(10 + SECOND);
    assert_eq!(r, Ok(()));
    assert!(out.interest.is_none());
    let (r, out) = s.on_time_escape(11 + SECOND);
    assert_eq!(r, Ok(()));
    assert_eq!(out.interest.unwrap().session_id, TempSeq::from(5));
    assert_eq!(s.phase(), Phase::Interesting { start_send_time: 10, last_send_time: 11 + SECOND });
    let (_, out) = s.on_time_escape(12 + SECOND);
    assert!(out.interest.is_none());
    let (_, out) = s.on_time_escape(12 + 2 * SECOND);
    assert!(out.interest.is_some());
    let (r, out) = s.on_time_escape(10 + 5 * SECOND);
    assert_eq!(r, Ok(()));
    assert_eq!(out.wake, 0);
    let (r, out) = s.on_time_escape(11 + 5 * SECOND);
    assert_eq!(r, Err(ErrorCode::Timeout));
    assert_eq!(out.wake, 1);
    assert!(out.interest.is_none() && out.control.is_none());
    assert_eq!(s.state(), DownloadSessionState::Canceled(ErrorCode::Timeout));
    assert_eq!(
        s.wait_finish(),
        FinishWait::Return(DownloadSessionState::Canceled(ErrorCode::Timeout))
    );
    let (r, out) = s.on_time_escape(99 * SECOND);
    assert_eq!(r, Ok(()));
    assert_eq!(out.wake, 0);
}

#[test]
fn download_decoder_timeout() {
    let chunk = chunk_of(4096);
    let content = content_of(4096);
    let mut s = session(4096);
    s.start(0);
    s.push_piece_data(&piece(&chunk, &content, 0), 100);
    s.wait_finish();
    let (r, _) = s.on_time_escape(100 + 5 * SECOND);
    assert_eq!(r, Ok(()));
    let (r, out) = s.on_time_escape(101 + 5 * SECOND);
    assert_eq!(r, Err(ErrorCode::Timeout));
    assert_eq!(out.wake, 1);
    assert_eq!(s.phase(), Phase::Canceled { send_ctrl_time: 0, err: ErrorCode::Timeout });
}

#[test]
fn download_late_pieces_after_finish() {
    let chunk = chunk_of(1024);
    let content = content_of(1024);
    let mut s = session(1024);
    s.start(0);
    let out = s.push_piece_data(&piece(&chunk, &content, 0), 100);
    assert_eq!(out.control.unwrap().command, PieceControlCommand::Finish);
    let out = s.push_piece_data(&piece(&chunk, &content, 0), 100 + SECOND);
    assert!(out.control.is_none());
    assert_eq!(out.wake, 0);
    let out = s.push_piece_data(&piece(&chunk, &content, 0), 101 + SECOND);
    assert_eq!(out.control.unwrap().command, PieceControlCommand::Finish);
    assert_eq!(s.phase(), Phase::Finished { send_ctrl_time: 101 + SECOND });
    let out = s.push_piece_data(&piece(&chunk, &content, 0), 101 + 2 * SECOND);
    assert!(out.control.is_none());
    let out = s.push_piece_data(&piece(&chunk, &content, 0), 102 + 2 * SECOND);
    assert_eq!(out.control.unwrap().command, PieceControlCommand::Finish);
    assert_eq!(s.take_chunk_content(), Some(content));
}

#[test]
fn download_cancel_is_idempotent() {
    let mut s = session(4096);
    s.start(0);
    s.wait_finish();
    assert_eq!(s.cancel_by_error(ErrorCode::UserCanceled), 1);
    assert_eq!(s.phase(), Phase::Canceled { send_ctrl_time: 0, err: ErrorCode::UserCanceled });
    assert_eq!(s.cancel_by_error(ErrorCode::Timeout), 0);
    assert_eq!(s.phase(), Phase::Canceled { send_ctrl_time: 0, err: ErrorCode::UserCanceled });
    assert_eq!(s.on_resp_interest(&resp(ErrorCode::NotFound)), 0);
    assert_eq!(s.state(), DownloadSessionState::Canceled(ErrorCode::UserCanceled));
    let (_, i) = s.start(5);
    assert!(i.is_none());
    assert_eq!(s.state(), DownloadSessionState::Canceled(ErrorCode::UserCanceled));
}

#[test]
fn download_canceled_answers_pieces_at_once_then_rarely() {
    let chunk = chunk_of(4096);
    let content = content_of(4096);
    let mut s = session(4096);
    s.start(0);
    s.push_piece_data(&piece(&chunk, &content, 0), 100);
    s.cancel_by_error(ErrorCode::UserCanceled);
    let out = s.push_piece_data(&piece(&chunk, &content, 1), 2 * SECOND);
    assert_eq!(out.control.unwrap().command, PieceControlCommand::Cancel);
    let out = s.push_piece_data(&piece(&chunk, &content, 2), 3 * SECOND);
    assert!(out.control.is_none());
    let out = s.push_piece_data(&piece(&chunk, &content, 2), 3 * SECOND + 1);
    assert_eq!(out.control.unwrap().command, PieceControlCommand::Cancel);
    assert_eq!(s.take_chunk_content(), None);
}

#[test]
fn download_finished_is_not_canceled() {
    let chunk = chunk_of(1024);
    let content = content_of(1024);
    let mut s = session(1024);
    s.start(0);
    s.push_piece_data(&piece(&chunk, &content, 0), 100);
    assert_eq!(s.cancel_by_error(ErrorCode::UserCanceled), 0);
    assert_eq!(s.state(), DownloadSessionState::Finished);
    assert_eq!(s.on_resp_interest(&resp(ErrorCode::NotFound)), 0);
    assert_eq!(s.state(), DownloadSessionState::Finished);
}

#[test]
fn download_resp_interest_cancels() {
    let mut s = session(4096);
    s.start(0);
    s.wait_finish();
    assert_eq!(s.on_resp_interest(&resp(ErrorCode::Success)), 0);
    assert!(matches!(s.phase(), Phase::Interesting { .. }));
    assert_eq!(s.on_resp_interest(&resp(ErrorCode::NotFound)), 1);
    assert_eq!(s.state(), DownloadSessionState::Canceled(ErrorCode::NotFound));
    let mut s = session(4096);
    assert_eq!(s.on_resp_interest(&resp(ErrorCode::Interrupted)), 0);
    assert_eq!(s.state(), DownloadSessionState::Canceled(ErrorCode::Interrupted));
}

#[test]
fn download_ignores_pieces_it_cannot_use() {
    let chunk = chunk_of(4096);
    let content = content_of(4096);
    let mut s = session(4096);
    let out = s.push_piece_data(&piece(&chunk, &content, 0), 1);
    assert!(out.control.is_none());
    assert_eq!(s.phase(), Phase::Init);
    let mut r = DownloadSession::new(
        chunk,
        TempSeq::from(5),
        PieceSessionType::RaptorA(Some(8)),
        None,
        config(),
    );
    r.start(0);
    r.push_piece_data(&piece(&chunk, &content, 0), 1);
    assert!(matches!(r.phase(), Phase::Interesting { .. }));
    let mut z = DownloadSession::new(
        chunk,
        TempSeq::from(5),
        PieceSessionType::Stream(Some(0)),
        None,
        config(),
    );
    z.start(0);
    z.push_piece_data(&piece(&chunk, &content, 0), 1);
    assert!(matches!(z.phase(), Phase::Interesting { .. }));
    s.start(0);
    let mut odd = piece(&chunk, &content, 0);
    odd.desc = PieceDesc::Range(0, 1000);
    s.push_piece_data(&odd, 1);
    assert!(matches!(s.phase(), Phase::Downloading { .. }));
    for i in 0..4u32 {
        s.push_piece_data(&piece(&chunk, &content, i), 2);
    }
    assert_eq!(s.take_chunk_content(), Some(content));
}

#[test]
fn download_default_piece_size() {
    let chunk = chunk_of(2000);
    let content = content_of(2000);
    let mut s =
        DownloadSession::new(chunk, TempSeq::from(5), PieceSessionType::Stream(None), None, config());
    s.start(0);
    let mut a = piece(&chunk, &content, 0);
    a.desc = PieceDesc::Range(0, 1416);
    a.data = content[..1416].to_vec();
    let mut b = piece(&chunk, &content, 0);
    b.desc = PieceDesc::Range(1, 1416);
    b.data = content[1416..].to_vec();
    s.push_piece_data(&b, 1);
    let out = s.push_piece_data(&a, 2);
    assert_eq!(out.control.unwrap().command, PieceControlCommand::Finish);
    assert_eq!(s.take_chunk_content(), Some(content));
}

#[test]
fn download_speeds() {
    let chunk = chunk_of(4096);
    let content = content_of(4096);
    let mut s = session(4096);
    assert_eq!(s.history_speed(), 50);
    assert_eq!(s.cur_speed(), 0);
    assert_eq!(s.calc_speed(1), 0);
    assert_eq!(s.history_speed(), 0);
    s.start(10);
    assert_eq!(s.calc_speed(11), 0);
    s.push_piece_data(&piece(&chunk, &content, 0), SECOND);
    s.push_piece_data(&piece(&chunk, &content, 1), SECOND);
    assert_eq!(s.calc_speed(2 * SECOND), 2048);
    assert_eq!(s.cur_speed(), 2048);
    assert_eq!(s.history_speed(), (2048) / 3);
    assert_eq!(s.calc_speed(3 * SECOND), 0);
    assert_eq!(s.cur_speed(), 0);
    assert_eq!(s.history_speed(), 512);
    s.cancel_by_error(ErrorCode::UserCanceled);
    assert_eq!(s.calc_speed(4 * SECOND), 0);
    assert_eq!(s.cur_speed(), 0);
    assert_eq!(s.history_speed(), 0);
}

#[test]
fn download_made_canceled() {
    let mut s =
        DownloadSession::canceled(chunk_of(1), TempSeq::from(2), config(), ErrorCode::ConnectFailed);
    assert_eq!(s.state(), DownloadSessionState::Canceled(ErrorCode::ConnectFailed));
    assert_eq!(
        s.wait_finish(),
        FinishWait::Return(DownloadSessionState::Canceled(ErrorCode::ConnectFailed))
    );
    assert_eq!(s.referer(), None);
}

fn upload(len: u32) -> UploadSession {
    let chunk = chunk_of(len);
    let encoder = StreamEncoder::new(&chunk, 1024, content_of(len as usize)).unwrap();
    UploadSession::new(
        chunk,
        TempSeq::from(5),
        PieceSessionType::Stream(Some(1024)),
        encoder,
        config(),
    )
}

fn interest() -> Interest {
    Interest {
        session_id: TempSeq::from(5),
        chunk: chunk_of(4096),
        prefer_type: PieceSessionType::Stream(Some(1024)),
        referer: None,
    }
}

fn control(command: PieceControlCommand, max: Option<u32>, lost: Option<Vec<std::ops::Range<u32>>>) -> PieceControl {
    PieceControl {
        sequence: TempSeq::from(1),
        session_id: TempSeq::from(5),
        chunk: chunk_of(4096),
        command,
        max_index: max,
        lost_index: lost,
    }
}

fn index_of(buf: &[u8], n: usize) -> u32 {
    match PieceData::decode_from_raw_data(&buf[1..n]).unwrap().desc {
        PieceDesc::Range(i, _) => i,
        PieceDesc::Raptor(_, _) => panic!(),
    }
}

#[test]
fn upload_sends_nothing_before_an_interest() {
    let mut u = upload(4096);
    let mut buf = [0xeeu8; 1500];
    assert_eq!(u.next_piece(&mut buf, 10), Ok(0));
    assert_eq!(buf, [0xee; 1500]);
    assert!(u.on_interest(&interest(), 20).is_none());
    assert_eq!(u.next_piece(&mut buf, 30), Ok(1072));
    assert_eq!(index_of(&buf, 1072), 0);
    assert_eq!(u.chunk(), &chunk_of(4096));
    assert_eq!(u.session_id(), &TempSeq::from(5));
    assert_eq!(u.piece_type(), &PieceSessionType::Stream(Some(1024)));
}

#[test]
fn upload_interest_starts_over() {
    let mut u = upload(4096);
    let mut buf = [0u8; 1500];
    u.on_interest(&interest(), 0);
    for i in 0..3u32 {
        let n = u.next_piece(&mut buf, 1).unwrap();
        assert_eq!(index_of(&buf, n), i);
    }
    assert!(u.on_interest(&interest(), 2).is_none());
    for i in 0..4u32 {
        let n = u.next_piece(&mut buf, 3).unwrap();
        assert_eq!(index_of(&buf, n), i);
    }
    assert_eq!(u.next_piece(&mut buf, 4), Ok(0));
    assert_eq!(u.state(), UploadTaskState::Uploading(0));
}

#[test]
fn upload_continue_replays_what_was_lost() {
    let mut u = upload(4096);
    let mut buf = [0u8; 1500];
    u.on_interest(&interest(), 0);
    while u.next_piece(&mut buf, 1).unwrap() > 0 {}
    assert!(u
        .on_piece_control(&control(PieceControlCommand::Continue, Some(3), Some(vec![1..2])), 2)
        .is_none());
    let n = u.next_piece(&mut buf, 3).unwrap();
    assert_eq!(index_of(&buf, n), 1);
    assert_eq!(u.next_piece(&mut buf, 4), Ok(0));
    u.on_piece_control(&control(PieceControlCommand::Continue, Some(1), None), 5);
    let n = u.next_piece(&mut buf, 6).unwrap();
    assert_eq!(index_of(&buf, n), 2);
    let n = u.next_piece(&mut buf, 6).unwrap();
    assert_eq!(index_of(&buf, n), 3);
    assert_eq!(u.next_piece(&mut buf, 7), Ok(0));
    u.on_piece_control(&control(PieceControlCommand::Continue, None, Some(vec![0..4])), 8);
    assert_eq!(u.next_piece(&mut buf, 9), Ok(0));
    u.on_piece_control(&control(PieceControlCommand::Pause, Some(0), Some(vec![0..4])), 8);
    assert_eq!(u.next_piece(&mut buf, 9), Ok(0));
}

#[test]
fn upload_finish_and_cancel() {
    let mut u = upload(4096);
    u.on_interest(&interest(), 0);
    assert!(u.on_piece_control(&control(PieceControlCommand::Finish, None, None), 1).is_none());
    assert_eq!(u.state(), UploadTaskState::Finished);
    let mut buf = [0u8; 1500];
    assert_eq!(u.next_piece(&mut buf, 2), Ok(0));
    assert!(u.on_interest(&interest(), 3).is_none());
    assert!(u.on_piece_control(&control(PieceControlCommand::Cancel, None, None), 4).is_none());
    assert_eq!(u.state(), UploadTaskState::Finished);
    assert_eq!(u.on_time_escape(5), None);

    let mut u = upload(4096);
    u.on_interest(&interest(), 0);
    u.next_piece(&mut buf, 1).unwrap();
    assert!(u.on_piece_control(&control(PieceControlCommand::Cancel, None, None), 2).is_none());
    assert_eq!(u.state(), UploadTaskState::Error(ErrorCode::Interrupted));
    let r = u.on_interest(&interest(), 3).unwrap();
    assert_eq!(r.err, ErrorCode::Interrupted);
    assert_eq!(r.session_id, TempSeq::from(5));
    assert_eq!(r.chunk, chunk_of(4096));
    assert!(r.redirect.is_none() && r.redirect_referer.is_none() && r.cache_node.is_none());
    let r = u.on_piece_control(&control(PieceControlCommand::Continue, Some(1), None), 4).unwrap();
    assert_eq!(r.err, ErrorCode::Interrupted);
    assert!(u.on_piece_control(&control(PieceControlCommand::Finish, None, None), 5).is_none());
    assert_eq!(u.state(), UploadTaskState::Error(ErrorCode::Interrupted));
    assert_eq!(u.next_piece(&mut buf, 6), Ok(0));
}

#[test]
fn upload_times_out_when_nothing_is_asked() {
    let mut u = upload(1024);
    let mut buf = [0u8; 1500];
    u.on_interest(&interest(), 0);
    assert_eq!(u.next_piece(&mut buf, 1), Ok(1072));
    assert_eq!(u.on_time_escape(100 * SECOND), Some(UploadTaskState::Uploading(0)));
    assert_eq!(u.next_piece(&mut buf, 10), Ok(0));
    assert_eq!(u.on_time_escape(10 + 5 * SECOND), Some(UploadTaskState::Uploading(0)));
    assert_eq!(u.on_time_escape(11 + 5 * SECOND), Some(UploadTaskState::Error(ErrorCode::Timeout)));
    assert_eq!(u.state(), UploadTaskState::Error(ErrorCode::Timeout));
    assert_eq!(u.on_time_escape(4 * SECOND), Some(UploadTaskState::Error(ErrorCode::Timeout)));
    assert_eq!(u.on_time_escape(4 * SECOND + 1), None);
    u.on_interest(&interest(), 10 * SECOND);
    assert_eq!(u.on_time_escape(14 * SECOND), Some(UploadTaskState::Error(ErrorCode::Timeout)));
    assert_eq!(u.on_time_escape(14 * SECOND + 1), None);
}

#[test]
fn upload_fails_when_the_buffer_is_too_small() {
    let mut u = upload(1024);
    let mut buf = [0xeeu8; 100];
    u.on_interest(&interest(), 0);
    assert_eq!(u.next_piece(&mut buf, 1), Err(ErrorCode::InvalidParam));
    assert_eq!(buf, [0xee; 100]);
    assert_eq!(u.state(), UploadTaskState::Error(ErrorCode::InvalidParam));
    u.cancel_by_error(ErrorCode::Timeout);
    assert_eq!(u.state(), UploadTaskState::Error(ErrorCode::InvalidParam));
    let mut v = upload(1024);
    v.cancel_by_error(ErrorCode::ConnectFailed);
    assert_eq!(v.state(), UploadTaskState::Error(ErrorCode::ConnectFailed));
}

#[test]
fn upload_speeds() {
    let mut u = upload(4096);
    let mut buf = [0u8; 1500];
    u.on_interest(&interest(), 0);
    assert_eq!(u.history_speed(), 0);
    u.next_piece(&mut buf, 1).unwrap();
    u.next_piece(&mut buf, 1).unwrap();
    assert_eq!(u.calc_speed(SECOND), 2144);
    assert_eq!(u.cur_speed(), 2144);
    assert_eq!(u.history_speed(), 2144);
    assert_eq!(u.calc_speed(2 * SECOND), 0);
    assert_eq!(u.history_speed(), 1072);
    u.on_piece_control(&control(PieceControlCommand::Finish, None, None), 3);
    assert_eq!(u.calc_speed(3 * SECOND), 0);
    assert_eq!(u.cur_speed(), 0);
    assert_eq!(u.history_speed(), 0);
    assert_eq!(UploadPhase::Finished, UploadPhase::Finished);
}
