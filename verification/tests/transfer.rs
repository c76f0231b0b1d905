use ndn_transfer::cache::ChunkCache;
use ndn_transfer::channel::Channel;
use ndn_transfer::channel::ChannelOutput;
use ndn_transfer::download::DownloadSessionState;
use ndn_transfer::download::FinishWait;
use ndn_transfer::downloader::ChannelManager;
use ndn_transfer::downloader::ChunkDownloader;
use ndn_transfer::downloader::DownloadSource;
use ndn_transfer::downloader::DownloaderState;
use ndn_transfer::error::ErrorCode;
use ndn_transfer::manager::ChunkManager;
use ndn_transfer::packet::Outgoing;
use ndn_transfer::packet::Packet;
use ndn_transfer::protocol::DatagramOptions;
use ndn_transfer::protocol::PieceControl;
use ndn_transfer::protocol::PieceControlCommand;
use ndn_transfer::protocol::PieceData;
use ndn_transfer::protocol::PieceDesc;
use ndn_transfer::types::ChannelConfig;
use ndn_transfer::types::ChunkId;
use ndn_transfer::types::DeviceId;
use ndn_transfer::types::PieceSessionType;
use ndn_transfer::types::TempSeq;
use ndn_transfer::upload::UploadTaskState;

const SECOND: u64 = 1_000_000;

fn config() -> ChannelConfig {
    ChannelConfig {
        resend_interval: SECOND,
        resend_timeout: 5 * SECOND,
        msl: 2 * SECOND,
        history_speed: 4,
        initial_speed: 0,
    }
}

fn chunk_of(len: u32) -> ChunkId {
    ChunkId::new(&[3u8; 28], len)
}

fn content_of(len: usize) -> Vec<u8> {
    (0..len).map(|i| (i * 13 + i / 256) as u8).collect()
}

fn device(n: u8) -> DeviceId {
    DeviceId::new(&[n; 32])
}

/// What goes out of one channel, as the bytes the transport would carry,
/// read again as the other side would read them.
fn over_the_wire(out: ChannelOutput) -> Vec<Packet> {
    let mut sent: Vec<Outgoing> = Vec::new();
    if let Some(m) = out.interest {
        sent.extend(Packet::Interest(m).encode(8).unwrap());
    }
    if let Some(m) = out.resp_interest {
        sent.extend(Packet::RespInterest(m).encode(8).unwrap());
    }
    if let Some(m) = out.control {
        sent.extend(Packet::PieceControl(m).encode(8).unwrap());
    }
    if let Some(m) = out.estimate {
        sent.extend(Packet::ChannelEstimate(m).encode(8).unwrap());
    }
    sent.into_iter()
        .map(|o| match o {
            Outgoing::Datagram { sequence, data } => Packet::decode_command(
                data[0],
                &DatagramOptions { sequence: Some(sequence) },
                &data[1..],
            )
            .unwrap(),
            Outgoing::Raw(d) => Packet::decode_raw(&d[8..]).unwrap(),
        })
        .collect()
}

struct Pair {
    down: Channel,
    up: Channel,
    store: ChunkCache,
    session: TempSeq,
}

/// A downloader's channel and an uploader's channel, after the downloader
/// asked for a chunk of `len` bytes in pieces of 1024 and the uploader took
/// the request.
fn pair(len: u32) -> Pair {
    let chunk = chunk_of(len);
    let mut store = ChunkCache::with_piece_size(chunk, 1024).unwrap();
    store.load(&content_of(len as usize)).unwrap();
    let mut down = Channel::new(device(2), config());
    let mut up = Channel::new(device(1), config());
    let session = down.download(chunk, PieceSessionType::Stream(Some(1024)), None).unwrap();
    let (state, out) = down.start(&session, 0).unwrap();
    assert_eq!(state, DownloadSessionState::Downloading(0));
    let mut packets = over_the_wire(out);
    assert_eq!(packets.len(), 1);
    let out = up.dispatch(packets.remove(0), 1);
    let asked = out.need_upload.unwrap();
    assert_eq!(asked.chunk, chunk);
    assert_eq!(asked.session_id, session);
    up.upload(&asked, store.create_encoder().unwrap(), 1).unwrap();
    Pair { down, up, store, session }
}

/// The next piece the uploader sends, as the downloader reads it.
fn next_piece(up: &mut Channel, now: u64) -> Option<Packet> {
    let mut buf = [0u8; 1472];
    let n = up.next_piece_of(0, &mut buf[8..], now).unwrap();
    if n == 0 {
        None
    } else {
        Some(Packet::decode_raw(&buf[8..8 + n]).unwrap())
    }
}

#[test]
fn happy_path_small_chunk() {
    let mut p = pair(4096);
    assert_eq!(p.down.wait_finish(&p.session), Ok(FinishWait::Wait));
    let mut controls: Vec<Packet> = Vec::new();
    for i in 0..4u32 {
        let piece = next_piece(&mut p.up, 10 + i as u64).unwrap();
        match &piece {
            Packet::PieceData(d) => assert_eq!(d.desc, PieceDesc::Range(i, 1024)),
            other => panic!("{:?}", other),
        }
        let out = p.down.dispatch(piece, 20 + i as u64);
        if i < 3 {
            assert!(out.is_none_like());
        } else {
            let wake = out.wake.unwrap();
            assert_eq!(wake.session_id, p.session);
            assert_eq!(wake.count, 1);
            controls = over_the_wire(out);
        }
    }
    assert!(next_piece(&mut p.up, 30).is_none());
    assert_eq!(controls.len(), 1);
    match &controls[0] {
        Packet::PieceControl(c) => {
            assert_eq!(c.command, PieceControlCommand::Finish);
            assert_eq!(c.session_id, p.session);
            assert_eq!(c.sequence, TempSeq::from(1));
        }
        other => panic!("{:?}", other),
    }
    assert_eq!(
        p.down.wait_finish(&p.session),
        Ok(FinishWait::Return(DownloadSessionState::Finished))
    );
    assert_eq!(p.down.take_chunk_content(&p.session), Some(content_of(4096)));
    assert_eq!(p.down.take_chunk_content(&p.session), None);
    let out = p.up.dispatch(controls.remove(0), 40);
    assert!(out.is_none_like());
    assert_eq!(p.up.upload_at(0).state(), UploadTaskState::Finished);
    assert!(p.store.wait_loaded());
}

trait NoneLike {
    fn is_none_like(&self) -> bool;
}

impl NoneLike for ChannelOutput {
    fn is_none_like(&self) -> bool {
        self.interest.is_none()
            && self.resp_interest.is_none()
            && self.control.is_none()
            && self.estimate.is_none()
            && self.wake.is_none()
            && self.need_upload.is_none()
    }
}

#[test]
fn lossy_path() {
    let mut p = pair(4096);
    for i in 0..4u32 {
        let piece = next_piece(&mut p.up, 10).unwrap();
        if i != 1 {
            assert!(p.down.dispatch(piece, 20).is_none_like());
        }
    }
    assert!(next_piece(&mut p.up, 30).is_none());
    let mut outs = p.down.on_time_escape(20 + SECOND);
    assert_eq!(outs.len(), 1);
    assert!(outs.remove(0).is_none_like());
    let mut outs = p.down.on_time_escape(21 + SECOND);
    let mut controls = over_the_wire(outs.remove(0));
    assert_eq!(controls.len(), 1);
    match &controls[0] {
        Packet::PieceControl(c) => {
            assert_eq!(c.command, PieceControlCommand::Continue);
            assert_eq!(c.max_index, Some(3));
            assert_eq!(c.lost_index, Some(vec![1..2]));
        }
        other => panic!("{:?}", other),
    }
    assert!(p.up.dispatch(controls.remove(0), 22 + SECOND).is_none_like());
    let piece = next_piece(&mut p.up, 23 + SECOND).unwrap();
    match &piece {
        Packet::PieceData(d) => assert_eq!(d.desc, PieceDesc::Range(1, 1024)),
        other => panic!("{:?}", other),
    }
    assert!(next_piece(&mut p.up, 24 + SECOND).is_none());
    let out = p.down.dispatch(piece, 25 + SECOND);
    match out.control {
        Some(PieceControl { command: PieceControlCommand::Finish, sequence, .. }) => {
            assert_eq!(sequence, TempSeq::from(2))
        }
        other => panic!("{:?}", other),
    }
    assert_eq!(p.down.take_chunk_content(&p.session), Some(content_of(4096)));
}

#[test]
fn interest_timeout() {
    let mut down = Channel::new(device(2), config());
    let session = down.download(chunk_of(4096), PieceSessionType::Stream(Some(1024)), None).unwrap();
    down.start(&session, 0).unwrap();
    assert_eq!(down.wait_finish(&session), Ok(FinishWait::Wait));
    let mut resent = 0;
    let mut now = 0;
    while now <= 5 * SECOND {
        let mut outs = down.on_time_escape(now);
        let out = outs.remove(0);
        assert!(out.wake.is_none());
        if let Some(i) = out.interest {
            assert_eq!(i.session_id, session);
            resent += 1;
        }
        now += SECOND / 4;
    }
    assert_eq!(resent, 4);
    let (r, out) = down.tick_download(0, 5 * SECOND + 1);
    assert_eq!(r, Err(ErrorCode::Timeout));
    assert_eq!(out.wake.unwrap().count, 1);
    assert_eq!(
        down.wait_finish(&session),
        Ok(FinishWait::Return(DownloadSessionState::Canceled(ErrorCode::Timeout)))
    );
    assert_eq!(down.remove_download(0), Ok(()));
    assert_eq!(down.download_count(), 0);
    assert_eq!(down.wait_finish(&session), Err(ErrorCode::NotFound));
}

#[test]
fn remote_cancel() {
    let mut p = pair(4096);
    let piece = next_piece(&mut p.up, 10).unwrap();
    p.down.dispatch(piece, 20);
    let cancel = PieceControl {
        sequence: TempSeq::from(1),
        session_id: p.session,
        chunk: chunk_of(4096),
        command: PieceControlCommand::Cancel,
        max_index: None,
        lost_index: None,
    };
    let mut packets = Packet::PieceControl(cancel).encode(8).unwrap();
    let bytes = match packets.remove(0) {
        Outgoing::Raw(d) => d,
        other => panic!("{:?}", other),
    };
    assert!(p.up.dispatch(Packet::decode_raw(&bytes[8..]).unwrap(), 30).is_none_like());
    assert_eq!(p.up.upload_at(0).state(), UploadTaskState::Error(ErrorCode::Interrupted));
    assert!(next_piece(&mut p.up, 31).is_none());
    let (_, again) = {
        let mut other = Channel::new(device(2), config());
        let id = other.download(chunk_of(4096), PieceSessionType::Stream(Some(1024)), None).unwrap();
        assert_eq!(id, p.session);
        other.start(&id, 40).unwrap()
    };
    let mut packets = over_the_wire(again);
    let out = p.up.dispatch(packets.remove(0), 41);
    assert!(out.need_upload.is_none());
    let mut answers = over_the_wire(out);
    assert_eq!(answers.len(), 1);
    match &answers[0] {
        Packet::RespInterest(r) => {
            assert_eq!(r.err, ErrorCode::Interrupted);
            assert_eq!(r.session_id, p.session);
        }
        other => panic!("{:?}", other),
    }
    let out = p.down.dispatch(answers.remove(0), 50);
    assert!(out.wake.is_none());
    assert_eq!(
        p.down.wait_finish(&p.session),
        Ok(FinishWait::Return(DownloadSessionState::Canceled(ErrorCode::Interrupted)))
    );
    assert_eq!(p.up.tick_upload(0, 41 + 4 * SECOND), Some(UploadTaskState::Error(ErrorCode::Interrupted)));
    let outs = p.up.on_time_escape(42 + 4 * SECOND);
    assert!(outs.is_empty());
    assert_eq!(p.up.upload_count(), 0);
}

#[test]
fn redundant_pieces_after_finish() {
    let mut p = pair(1024);
    let piece = next_piece(&mut p.up, 10).unwrap();
    let bytes = match Packet::decode_raw(&{
        let mut buf = vec![0u8; 1472];
        let n = match &piece {
            Packet::PieceData(d) => d.raw_encode(&mut buf).unwrap().len(),
            _ => panic!(),
        };
        buf.truncate(1472 - n);
        buf
    })
    .unwrap()
    {
        Packet::PieceData(d) => d,
        _ => panic!(),
    };
    let out = p.down.dispatch(piece, 100);
    assert_eq!(out.control.unwrap().command, PieceControlCommand::Finish);
    let late = |d: &PieceData| PieceData {
        est_seq: None,
        session_id: d.session_id,
        chunk: d.chunk,
        desc: d.desc,
        data: d.data.clone(),
    };
    let mut finishes = 0;
    let mut now = 100;
    while now <= 100 + 3 * SECOND + SECOND / 2 {
        let out = p.down.on_piece_data(&late(&bytes), now);
        if let Some(c) = out.control {
            assert_eq!(c.command, PieceControlCommand::Finish);
            finishes += 1;
        }
        now += SECOND / 10;
    }
    assert_eq!(finishes, 3);
    assert_eq!(p.down.take_chunk_content(&p.session), Some(content_of(1024)));
}

#[test]
fn estimate_is_echoed_with_bytes_received() {
    let mut p = pair(4096);
    let first = match next_piece(&mut p.up, 10).unwrap() {
        Packet::PieceData(d) => d,
        _ => panic!(),
    };
    let out = p.down.on_piece_data(&first, 20);
    assert!(out.estimate.is_none());
    let mut second = match next_piece(&mut p.up, 10).unwrap() {
        Packet::PieceData(d) => d,
        _ => panic!(),
    };
    second.est_seq = Some(TempSeq::from(77));
    let out = p.down.on_piece_data(&second, 20);
    let e = out.estimate.unwrap();
    assert_eq!(e.sequence, TempSeq::from(77));
    assert_eq!(e.recved, 2048);
    let mut stray = second;
    stray.session_id = TempSeq::from(999);
    stray.est_seq = Some(TempSeq::from(78));
    let out = p.down.on_piece_data(&stray, 20);
    assert_eq!(out.estimate.unwrap().recved, 3072);
    assert!(out.control.is_none() && out.wake.is_none());
}

#[test]
fn channel_shares_a_running_session() {
    let mut c = Channel::new(device(2), config());
    assert_eq!(c.remote(), &device(2));
    assert_eq!(c.config(), &config());
    assert_eq!(c.initial_download_session_speed(), 0);
    let a = c.download(chunk_of(10), PieceSessionType::Stream(None), None).unwrap();
    let b = c.download(chunk_of(10), PieceSessionType::Stream(None), None).unwrap();
    let other = c.download(chunk_of(10), PieceSessionType::Stream(None), Some("r".to_owned())).unwrap();
    let third = c.download(chunk_of(11), PieceSessionType::Stream(None), None).unwrap();
    assert_eq!(a, TempSeq::from(1));
    assert_eq!(b, a);
    assert_eq!(other, TempSeq::from(2));
    assert_eq!(third, TempSeq::from(3));
    assert_eq!(c.download_count(), 3);
    assert_eq!(c.find_download(&other), Some(1));
    assert_eq!(c.find_download(&TempSeq::from(9)), None);
    assert_eq!(c.find_running(&chunk_of(11), &None), Some(2));
    assert_eq!(c.remove_download(0), Err(ErrorCode::ErrorState));
    assert_eq!(c.cancel_download(&a, ErrorCode::UserCanceled), None);
    assert_eq!(c.find_running(&chunk_of(10), &None), None);
    let again = c.download(chunk_of(10), PieceSessionType::Stream(None), None).unwrap();
    assert_eq!(again, TempSeq::from(4));
    assert_eq!(c.start(&TempSeq::from(9), 0).err(), Some(ErrorCode::NotFound));
    assert!(!c.is_dead());
    c.mark_dead();
    assert!(c.is_dead());
    c.start(&again, 0).unwrap();
    assert!(!c.is_dead());
    c.mark_dead();
    c.clear_dead();
    assert!(!c.is_dead());
    assert_eq!(c.gen_command_seq(), Ok(TempSeq::from(1)));
    assert_eq!(c.gen_command_seq(), Ok(TempSeq::from(2)));
}

#[test]
fn channel_drops_what_belongs_to_no_session() {
    let mut p = pair(4096);
    let stray = PieceControl {
        sequence: TempSeq::from(1),
        session_id: TempSeq::from(999),
        chunk: chunk_of(4096),
        command: PieceControlCommand::Cancel,
        max_index: None,
        lost_index: None,
    };
    assert!(p.up.on_piece_control(&stray, 1).is_none_like());
    assert_eq!(p.up.upload_at(0).state(), UploadTaskState::Uploading(0));
    let resp = Channel::refuse(
        &ndn_transfer::protocol::Interest {
            session_id: TempSeq::from(999),
            chunk: chunk_of(4096),
            prefer_type: PieceSessionType::Unknown,
            referer: None,
        },
        ErrorCode::NotFound,
    );
    assert_eq!(resp.err, ErrorCode::NotFound);
    assert!(p.down.on_resp_interest(&resp).is_none_like());
    assert_eq!(p.down.download_at(0).state(), DownloadSessionState::Downloading(0));
    let est = Packet::ChannelEstimate(ndn_transfer::protocol::ChannelEstimate {
        sequence: TempSeq::from(1),
        recved: 5,
    });
    assert!(p.down.dispatch(est, 2).is_none_like());
    let asked = ndn_transfer::protocol::Interest {
        session_id: p.session,
        chunk: chunk_of(4096),
        prefer_type: PieceSessionType::Unknown,
        referer: None,
    };
    assert_eq!(
        p.up.upload(&asked, p.store.create_encoder().unwrap(), 3),
        Err(ErrorCode::ErrorState)
    );
}

fn source(n: u8) -> DownloadSource {
    DownloadSource { target: device(n), referer: None, encode_desc: PieceSessionType::Unknown }
}

#[test]
fn downloader_keeps_one_session_going() {
    let mut channels = ChannelManager::new(config());
    let mut d = ChunkDownloader::new(chunk_of(4096));
    assert_eq!(d.state(), DownloaderState::Loading);
    d.add_source(source(7));
    let out = d.on_drain(&mut channels, 0);
    assert_eq!(out.speed, 0);
    assert!(out.interest.is_none());
    assert_eq!(channels.channels.len(), 0);
    d.on_loaded(false);
    assert_eq!(d.state(), DownloaderState::Downloading);
    let out = d.on_drain(&mut channels, 1);
    let (at, interest) = out.interest.unwrap();
    assert_eq!(at, 0);
    assert_eq!(interest.chunk, chunk_of(4096));
    assert_eq!(interest.prefer_type, PieceSessionType::Stream(Some(1416)));
    assert_eq!(channels.channels.len(), 1);
    assert_eq!(channels.channels[0].remote(), &device(7));
    assert_eq!(channels.channels[0].download_count(), 1);
    let first = d.session().unwrap().session_id;
    for now in 2..10 {
        let out = d.on_drain(&mut channels, now);
        assert!(out.interest.is_none() && out.wake.is_none());
    }
    assert_eq!(channels.channels[0].download_count(), 1);
    assert_eq!(channels.channels[0].wait_finish(&first), Ok(FinishWait::Wait));
    d.clear_sources();
    d.add_source(source(8));
    let out = d.on_drain(&mut channels, 10);
    let (at, wake) = out.wake.unwrap();
    assert_eq!(at, 0);
    assert_eq!(wake.session_id, first);
    assert_eq!(wake.count, 1);
    assert_eq!(
        channels.channels[0].download_at(0).state(),
        DownloadSessionState::Canceled(ErrorCode::UserCanceled)
    );
    let (at, _) = out.interest.unwrap();
    assert_eq!(at, 1);
    assert_eq!(channels.channels[1].remote(), &device(8));
    assert_eq!(d.session().unwrap().channel, 1);
    d.clear_sources();
    let out = d.on_drain(&mut channels, 11);
    assert!(out.interest.is_none());
    assert!(d.session().is_none());
    let running: usize = channels
        .channels
        .iter()
        .map(|c| {
            (0..c.download_count())
                .filter(|k| c.download_at(*k).state() == DownloadSessionState::Downloading(0))
                .count()
        })
        .sum();
    assert_eq!(running, 0);
    assert_eq!(d.drain_score(), 0);
    assert_eq!(d.cur_speed(&channels), 0);
    assert_eq!(d.history_speed(&channels), 0);
    assert_eq!(d.source_count(), 0);
    assert!(!d.source_exists(&device(8), &None));
}

#[test]
fn downloader_that_finds_the_chunk_never_asks() {
    let mut channels = ChannelManager::new(config());
    let mut d = ChunkDownloader::new(chunk_of(4096));
    d.add_source(source(7));
    d.on_loaded(true);
    assert_eq!(d.state(), DownloaderState::Finished);
    let out = d.on_drain(&mut channels, 1);
    assert!(out.interest.is_none());
    assert_eq!(channels.channels.len(), 0);
    d.on_loaded(false);
    assert_eq!(d.state(), DownloaderState::Finished);
    let mut r = ChunkDownloader::new(chunk_of(4096));
    r.on_loaded(false);
    r.add_source(DownloadSource {
        target: device(7),
        referer: None,
        encode_desc: PieceSessionType::RaptorA(None),
    });
    assert!(r.on_drain(&mut channels, 1).interest.is_none());
    assert!(r.session().is_none());
}

#[test]
fn shared_demand() {
    let chunk = chunk_of(4096);
    let mut channels = ChannelManager::new(config());
    let mut m = ChunkManager::new();
    let a = m.create_downloader(&chunk, true).unwrap();
    let b = m.create_downloader(&chunk, true).unwrap();
    assert_eq!(a, b);
    assert_eq!(m.downloaders.len(), 1);
    assert_eq!(m.downloaders[0].holders, 2);
    assert_eq!(m.caches.len(), 1);
    let own = m.create_downloader(&chunk, false).unwrap();
    assert_ne!(own, a);
    assert_eq!(m.caches.len(), 1);
    assert_eq!(m.caches[0].holders, 2);
    let at = m.downloader_of(a).unwrap();
    m.downloaders[at].downloader.add_source(DownloadSource {
        target: device(7),
        referer: None,
        encode_desc: PieceSessionType::Stream(Some(1024)),
    });
    let out = m.on_drain(at, &mut channels, 0);
    let (on, interest) = out.interest.unwrap();
    assert_eq!(on, 0);
    let out = m.on_drain(at, &mut channels, 1);
    assert!(out.interest.is_none());
    assert_eq!(channels.channels[0].download_count(), 1);
    let session = interest.session_id;
    assert_eq!(channels.channels[0].wait_finish(&session), Ok(FinishWait::Wait));
    assert_eq!(channels.channels[0].wait_finish(&session), Ok(FinishWait::Wait));
    let content = content_of(4096);
    let mut woken = 0;
    for i in 0..4u32 {
        let piece = PieceData {
            est_seq: None,
            session_id: session,
            chunk,
            desc: PieceDesc::Range(i, 1024),
            data: content[i as usize * 1024..(i as usize + 1) * 1024].to_vec(),
        };
        let out = channels.channels[0].on_piece_data(&piece, 10);
        if let Some(w) = out.wake {
            woken += w.count;
        }
    }
    assert_eq!(woken, 2);
    for _ in 0..2 {
        assert_eq!(
            channels.channels[0].wait_finish(&session),
            Ok(FinishWait::Return(DownloadSessionState::Finished))
        );
    }
    let whole = channels.channels[0].take_chunk_content(&session).unwrap();
    let cache = m.cache_of(&chunk).unwrap();
    m.caches[cache].cache.load(&whole).unwrap();
    let mut buf = vec![0u8; 4096];
    m.caches[cache].cache.read(0, &mut buf).unwrap();
    assert_eq!(buf, content);
    let late = m.create_downloader(&chunk, false).unwrap();
    let at = m.downloader_of(late).unwrap();
    assert_eq!(m.downloaders[at].downloader.state(), DownloaderState::Finished);
    assert!(m.release_downloader(a));
    assert_eq!(m.downloaders.len(), 3);
    assert!(m.release_downloader(b));
    assert_eq!(m.downloaders.len(), 2);
    assert!(!m.release_downloader(a));
    assert!(m.release_downloader(own));
    assert!(m.release_downloader(late));
    assert_eq!(m.caches.len(), 0);
    assert!(!m.release_cache(&chunk));
}

#[test]
fn manager_shares_caches() {
    let mut m = ChunkManager::new();
    let a = m.create_cache(&chunk_of(1));
    let b = m.create_cache(&chunk_of(2));
    let c = m.create_cache(&chunk_of(1));
    assert_eq!((a, b, c), (0, 1, 0));
    assert_eq!(m.caches[0].holders, 2);
    assert_eq!(m.cache_of(&chunk_of(2)), Some(1));
    assert_eq!(m.cache_of(&chunk_of(3)), None);
    assert!(m.release_cache(&chunk_of(1)));
    assert_eq!(m.caches.len(), 2);
    assert!(m.release_cache(&chunk_of(1)));
    assert_eq!(m.caches.len(), 1);
    assert_eq!(m.cache_of(&chunk_of(2)), Some(0));
    assert_eq!(m.shared_of(&chunk_of(2)), None);
    let mut channels = ChannelManager::new(config());
    assert_eq!(channels.create_channel(&device(1)), 0);
    assert_eq!(channels.create_channel(&device(2)), 1);
    assert_eq!(channels.create_channel(&device(1)), 0);
    assert_eq!(channels.channel_of(&device(3)), None);
}

#[test]
fn transport_failure_cancels_every_session() {
    let mut p = pair(4096);
    let other = p.down.download(chunk_of(9), PieceSessionType::Stream(None), None).unwrap();
    assert_eq!(p.down.wait_finish(&p.session), Ok(FinishWait::Wait));
    assert_eq!(p.down.wait_finish(&p.session), Ok(FinishWait::Wait));
    let wake = p.down.cancel_by_error(ErrorCode::ConnectFailed);
    assert_eq!(wake.len(), 1);
    assert_eq!(wake[0].session_id, p.session);
    assert_eq!(wake[0].count, 2);
    assert!(p.down.is_dead());
    for id in [p.session, other] {
        assert_eq!(
            p.down.wait_finish(&id),
            Ok(FinishWait::Return(DownloadSessionState::Canceled(ErrorCode::ConnectFailed)))
        );
    }
    assert!(p.down.cancel_by_error(ErrorCode::Timeout).is_empty());
    assert_eq!(
        p.down.download_at(0).state(),
        DownloadSessionState::Canceled(ErrorCode::ConnectFailed)
    );
    assert!(p.up.cancel_by_error(ErrorCode::ConnectFailed).is_empty());
    assert_eq!(p.up.upload_at(0).state(), UploadTaskState::Error(ErrorCode::ConnectFailed));
    assert!(next_piece(&mut p.up, 5).is_none());
}

#[test]
fn commands_are_numbered_in_order() {
    let mut c = Channel::new(device(2), config());
    let mut last = 0;
    for _ in 0..5 {
        let request = ndn_transfer::download::ControlRequest {
            command: PieceControlCommand::Continue,
            max_index: Some(1),
            lost_index: None,
        };
        let m = c.send_piece_control(TempSeq::from(3), chunk_of(1), request).unwrap();
        assert!(m.sequence.value() > last);
        last = m.sequence.value();
        assert_eq!(m.session_id, TempSeq::from(3));
        assert_eq!(m.chunk, chunk_of(1));
        assert_eq!(m.max_index, Some(1));
    }
    assert_eq!(last, 5);
}

#[test]
fn downloader_joins_a_session_that_runs_for_its_chunk() {
    let chunk = chunk_of(4096);
    let mut channels = ChannelManager::new(config());
    let at = channels.create_channel(&device(7));
    let running = channels.channels[at]
        .download(chunk, PieceSessionType::Stream(Some(1024)), None)
        .unwrap();
    channels.channels[at].start(&running, 0).unwrap();
    let mut d = ChunkDownloader::new(chunk);
    d.on_loaded(false);
    d.add_source(source(7));
    let out = d.on_drain(&mut channels, 5);
    assert!(out.interest.is_none());
    assert!(out.wake.is_none());
    assert_eq!(out.speed, 0);
    let held = d.session().unwrap();
    assert_eq!(held.channel, at);
    assert_eq!(held.session_id, running);
    assert_eq!(channels.channels.len(), 1);
    assert_eq!(channels.channels[at].download_count(), 1);
    assert_eq!(
        channels.channels[at].download_at(0).prefer_type(),
        &PieceSessionType::Stream(Some(1024))
    );
}

#[test]
fn downloader_starts_a_session_that_was_only_asked_for() {
    let chunk = chunk_of(4096);
    let mut channels = ChannelManager::new(config());
    let at = channels.create_channel(&device(7));
    let asked = channels.channels[at]
        .download(chunk, PieceSessionType::Stream(Some(512)), None)
        .unwrap();
    channels.channels[at].mark_dead();
    let mut d = ChunkDownloader::new(chunk);
    d.on_loaded(false);
    d.add_source(source(7));
    d.add_source(source(8));
    let out = d.on_drain(&mut channels, 5);
    let (on, interest) = out.interest.unwrap();
    assert_eq!(on, at);
    assert_eq!(interest.session_id, asked);
    assert_eq!(interest.chunk, chunk);
    assert_eq!(interest.prefer_type, PieceSessionType::Stream(Some(512)));
    assert_eq!(interest.referer, None);
    assert!(!channels.channels[at].is_dead());
    assert_eq!(d.session().unwrap().session_id, asked);
    assert_eq!(channels.channels.len(), 1);
    assert_eq!(channels.channels[at].download_count(), 1);
    assert_eq!(
        channels.channels[at].download_at(0).phase(),
        ndn_transfer::download::Phase::Interesting { start_send_time: 5, last_send_time: 5 }
    );
}

#[test]
fn downloader_without_a_usable_source_changes_nothing() {
    let chunk = chunk_of(4096);
    let mut channels = ChannelManager::new(config());
    channels.create_channel(&device(9));
    let mut d = ChunkDownloader::new(chunk);
    d.on_loaded(false);
    let out = d.on_drain(&mut channels, 5);
    assert!(out.interest.is_none() && out.wake.is_none());
    assert!(d.session().is_none());
    d.add_source(DownloadSource {
        target: device(7),
        referer: None,
        encode_desc: PieceSessionType::RaptorB(Some(4)),
    });
    d.add_source(source(8));
    let out = d.on_drain(&mut channels, 6);
    assert!(out.interest.is_none() && out.wake.is_none());
    assert!(d.session().is_none());
    assert_eq!(channels.channels.len(), 1);
    assert_eq!(channels.channels[0].download_count(), 0);
}

#[test]
fn manager_numbers_downloaders_from_one() {
    let mut m = ChunkManager::new();
    assert_eq!(m.next_id, 1);
    assert_eq!(m.create_downloader(&chunk_of(1), false), Ok(1));
    assert_eq!(m.create_downloader(&chunk_of(1), false), Ok(2));
    assert_eq!(m.next_id, 3);
}

#[test]
fn one_tick_numbers_the_reports_in_the_order_of_the_sessions() {
    let mut down = Channel::new(device(2), config());
    let content = content_of(4096);
    let mut ids = Vec::new();
    for seed in 0..3u8 {
        let chunk = ChunkId::new(&[seed; 28], 4096);
        let id = down.download(chunk, PieceSessionType::Stream(Some(1024)), None).unwrap();
        down.start(&id, 0).unwrap();
        if seed != 1 {
            let piece = PieceData {
                est_seq: None,
                session_id: id,
                chunk,
                desc: PieceDesc::Range(2, 1024),
                data: content[2048..3072].to_vec(),
            };
            assert!(down.on_piece_data(&piece, 10).is_none_like());
        }
        ids.push((id, chunk));
    }
    let outs = down.on_time_escape(11 + SECOND);
    assert_eq!(outs.len(), 3);
    let first = outs[0].control.as_ref().unwrap();
    assert_eq!(first.sequence, TempSeq::from(1));
    assert_eq!(first.session_id, ids[0].0);
    assert_eq!(first.chunk, ids[0].1);
    assert_eq!(first.command, PieceControlCommand::Continue);
    assert_eq!(first.max_index, Some(2));
    assert_eq!(first.lost_index, Some(vec![0..2]));
    assert!(outs[0].interest.is_none());
    assert!(outs[1].control.is_none());
    assert_eq!(outs[1].interest.as_ref().unwrap().session_id, ids[1].0);
    let third = outs[2].control.as_ref().unwrap();
    assert_eq!(third.sequence, TempSeq::from(2));
    assert_eq!(third.session_id, ids[2].0);
    assert_eq!(down.gen_command_seq(), Ok(TempSeq::from(3)));
}
