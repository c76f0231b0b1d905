use ndn_transfer::cache::ChunkCache;
use ndn_transfer::cache::RangeWait;
use ndn_transfer::encode::StreamDecoder;
use ndn_transfer::encode::StreamEncoder;
use ndn_transfer::error::ErrorCode;
use ndn_transfer::protocol::PieceData;
use ndn_transfer::protocol::PieceDesc;
use ndn_transfer::speed::HistorySpeed;
use ndn_transfer::speed::SpeedCounter;
use ndn_transfer::stream::ChunkStreamCache;
use ndn_transfer::stream::ReadState;
use ndn_transfer::stream::WaitState;
use ndn_transfer::types::ChannelConfig;
use ndn_transfer::types::ChunkId;
use ndn_transfer::types::TempSeq;

fn chunk_of(len: u32) -> ChunkId {
    ChunkId::new(&[3u8; 28], len)
}

fn content_of(len: usize) -> Vec<u8> {
    (0..len).map(|i| (i * 7 + i / 256) as u8).collect()
}

fn piece(chunk: &ChunkId, content: &[u8], size: u16, index: u32) -> PieceData {
    let from = index as usize * size as usize;
    let to = usize::min(from + size as usize, content.len());
    PieceData {
        est_seq: None,
        session_id: TempSeq::from(1),
        chunk: *chunk,
        desc: PieceDesc::Range(index, size),
        data: content[from..to].to_vec(),
    }
}

fn config() -> ChannelConfig {
    ChannelConfig {
        resend_interval: 1_000_000,
        resend_timeout: 5_000_000,
        msl: 2_000_000,
        history_speed: 4,
        initial_speed: 0,
    }
}

#[test]
fn cache_counts_pieces() {
    let c = ChunkStreamCache::with_piece_size(&chunk_of(4096), 1024).unwrap();
    assert_eq!(c.piece_count(), 4);
    assert_eq!(c.piece_size(), 1024);
    let c = ChunkStreamCache::with_piece_size(&chunk_of(4097), 1024).unwrap();
    assert_eq!(c.piece_count(), 5);
    assert_eq!(c.piece_len(4), 1);
    assert_eq!(c.piece_len(3), 1024);
    let c = ChunkStreamCache::with_piece_size(&chunk_of(0), 1024).unwrap();
    assert_eq!(c.piece_count(), 0);
    assert!(c.is_complete());
    assert_eq!(c.chunk_content(), Some(vec![]));
    let c = ChunkStreamCache::new(&chunk_of(3000));
    assert_eq!(c.piece_size(), 1416);
    assert_eq!(c.piece_count(), 3);
    assert_eq!(c.piece_len(2), 168);
    assert_eq!(
        ChunkStreamCache::with_piece_size(&chunk_of(1), 0).err(),
        Some(ErrorCode::InvalidParam)
    );
}

#[test]
fn cache_takes_pieces_in_any_order() {
    let chunk = chunk_of(2500);
    let content = content_of(2500);
    let mut c = ChunkStreamCache::with_piece_size(&chunk, 1000).unwrap();
    assert!(!c.has(0) && !c.has(1) && !c.has(2) && !c.has(3));
    assert_eq!(c.push(&piece(&chunk, &content, 1000, 2)), Ok(vec![]));
    assert!(c.has(2) && !c.has(0));
    assert!(!c.is_complete());
    assert_eq!(c.chunk_content(), None);
    assert_eq!(c.push(&piece(&chunk, &content, 1000, 0)), Ok(vec![]));
    assert_eq!(c.push(&piece(&chunk, &content, 1000, 1)), Ok(vec![]));
    assert!(c.is_complete());
    assert_eq!(c.chunk_content(), Some(content));
}

#[test]
fn cache_lets_a_second_copy_go() {
    let chunk = chunk_of(2500);
    let content = content_of(2500);
    let mut c = ChunkStreamCache::with_piece_size(&chunk, 1000).unwrap();
    assert_eq!(c.wait_exists(1), Ok(WaitState::Pending(1)));
    assert_eq!(c.push(&piece(&chunk, &content, 1000, 1)), Ok(vec![1]));
    let mut other = piece(&chunk, &content, 1000, 1);
    other.data = vec![0xff; 1000];
    assert_eq!(c.push(&other), Ok(vec![]));
    assert_eq!(c.push(&piece(&chunk, &content, 1000, 1)), Ok(vec![]));
    c.push(&piece(&chunk, &content, 1000, 0)).unwrap();
    c.push(&piece(&chunk, &content, 1000, 2)).unwrap();
    assert_eq!(c.chunk_content(), Some(content));
}

#[test]
fn cache_refuses_what_is_not_its_piece() {
    let chunk = chunk_of(2500);
    let content = content_of(2500);
    let mut c = ChunkStreamCache::with_piece_size(&chunk, 1000).unwrap();
    let mut p = piece(&chunk, &content, 1000, 2);
    p.desc = PieceDesc::Range(3, 1000);
    assert_eq!(c.push(&p), Err(ErrorCode::InvalidParam));
    let mut p = piece(&chunk, &content, 1000, 2);
    p.data.push(0);
    assert_eq!(c.push(&p), Err(ErrorCode::InvalidParam));
    let mut p = piece(&chunk, &content, 1000, 0);
    p.desc = PieceDesc::Range(0, 999);
    assert_eq!(c.push(&p), Err(ErrorCode::InvalidParam));
    let mut p = piece(&chunk, &content, 1000, 0);
    p.desc = PieceDesc::Raptor(0, 1000);
    assert_eq!(c.push(&p), Err(ErrorCode::InvalidParam));
    let mut p = piece(&chunk, &content, 1000, 0);
    p.chunk = chunk_of(2501);
    assert_eq!(c.push(&p), Err(ErrorCode::InvalidParam));
    assert!(!c.has(0) && !c.has(1) && !c.has(2));
}

#[test]
fn cache_wakes_who_waited_for_the_piece() {
    let chunk = chunk_of(3000);
    let content = content_of(3000);
    let mut c = ChunkStreamCache::with_piece_size(&chunk, 1000).unwrap();
    assert_eq!(c.wait_exists(0), Ok(WaitState::Pending(1)));
    assert_eq!(c.wait_exists(1), Ok(WaitState::Pending(2)));
    assert_eq!(c.wait_exists(0), Ok(WaitState::Pending(3)));
    assert_eq!(c.wait_exists(3), Err(ErrorCode::InvalidParam));
    assert_eq!(c.push(&piece(&chunk, &content, 1000, 0)), Ok(vec![1, 3]));
    assert_eq!(c.wait_exists(0), Ok(WaitState::Ready));
    assert_eq!(c.push(&piece(&chunk, &content, 1000, 0)), Ok(vec![]));
    assert!(c.abort_wait(2));
    assert!(!c.abort_wait(2));
    assert_eq!(c.push(&piece(&chunk, &content, 1000, 1)), Ok(vec![]));
    assert!(c.has(1));
}

#[test]
fn cache_reads_from_one_piece() {
    let chunk = chunk_of(2500);
    let content = content_of(2500);
    let mut c = ChunkStreamCache::with_piece_size(&chunk, 1000).unwrap();
    c.push(&piece(&chunk, &content, 1000, 2)).unwrap();
    let mut buf = [0xeeu8; 8];
    assert_eq!(c.async_read(&PieceDesc::Range(2, 1000), 496, &mut buf), Ok(ReadState::Done(4)));
    assert_eq!(&buf[..4], &content[2496..2500]);
    assert_eq!(&buf[4..], &[0xee; 4]);
    assert_eq!(c.async_read(&PieceDesc::Range(2, 1000), 10, &mut buf), Ok(ReadState::Done(8)));
    assert_eq!(&buf[..], &content[2010..2018]);
    assert_eq!(c.async_read(&PieceDesc::Range(2, 1000), 500, &mut buf), Ok(ReadState::Done(0)));
    assert_eq!(c.async_read(&PieceDesc::Range(3, 1000), 0, &mut buf), Ok(ReadState::Done(0)));
    assert_eq!(c.async_read(&PieceDesc::Range(1, 1000), 0, &mut buf), Ok(ReadState::Pending(1)));
    assert_eq!(&buf[..], &content[2010..2018]);
    assert_eq!(
        c.async_read(&PieceDesc::Range(1, 999), 0, &mut buf),
        Err(ErrorCode::InvalidParam)
    );
    assert_eq!(
        c.async_read(&PieceDesc::Raptor(1, 1000), 0, &mut buf),
        Err(ErrorCode::InvalidParam)
    );
    assert_eq!(c.push(&piece(&chunk, &content, 1000, 1)), Ok(vec![1]));
}

#[test]
fn cache_is_filled_from_content() {
    let chunk = chunk_of(2500);
    let content = content_of(2500);
    let mut c = ChunkStreamCache::with_piece_size(&chunk, 1000).unwrap();
    c.wait_exists(2).unwrap();
    c.wait_exists(0).unwrap();
    assert_eq!(c.load(&content[..2499]), Err(ErrorCode::InvalidParam));
    assert!(!c.has(0));
    assert_eq!(c.load(&content), Ok(vec![1, 2]));
    assert!(c.is_complete());
    assert_eq!(c.chunk_content(), Some(content.clone()));
    assert_eq!(c.byte_at(2499), content[2499]);
    assert_eq!(c.byte_at(1000), content[1000]);
}

#[test]
fn cache_names_the_runs_it_misses() {
    let chunk = chunk_of(10_000);
    let content = content_of(10_000);
    let mut c = ChunkStreamCache::with_piece_size(&chunk, 1000).unwrap();
    assert_eq!(c.lost_ranges(3), vec![0..4]);
    for i in [0u32, 3, 4, 7] {
        c.push(&piece(&chunk, &content, 1000, i)).unwrap();
    }
    assert_eq!(c.lost_ranges(7), vec![1..3, 5..7]);
    assert_eq!(c.lost_ranges(9), vec![1..3, 5..7, 8..10]);
    assert_eq!(c.lost_ranges(100), vec![1..3, 5..7, 8..10]);
    assert_eq!(c.lost_ranges(0), Vec::<std::ops::Range<u32>>::new());
    assert_eq!(c.lost_ranges(1), vec![1..2]);
    assert_eq!(c.lost_ranges(5), vec![1..3, 5..6]);
}

#[test]
fn chunk_cache_ranges() {
    let chunk = chunk_of(2500);
    let content = content_of(2500);
    let mut c = ChunkCache::with_piece_size(chunk, 1000).unwrap();
    assert_eq!(c.exists_range(2500..3000), Some(2500..2500));
    assert_eq!(c.exists_range(9000..9001), Some(2500..2500));
    assert_eq!(c.exists_range(0..0), Some(0..0));
    assert_eq!(c.exists_range(0..1), None);
    c.push(&piece(&chunk, &content, 1000, 1)).unwrap();
    assert_eq!(c.exists_range(1000..2000), Some(1000..2000));
    assert_eq!(c.exists_range(1500..1501), Some(1500..1501));
    assert_eq!(c.exists_range(999..1001), None);
    assert_eq!(c.exists_range(1000..2001), None);
    assert_eq!(c.wait_exists(1000..2000), Ok(RangeWait::Ready(1000..2000)));
    assert_eq!(c.wait_exists(1000..5000), Ok(RangeWait::Pending(1)));
    assert_eq!(c.push(&piece(&chunk, &content, 1000, 2)), Ok(vec![1]));
    assert_eq!(c.wait_exists(1000..5000), Ok(RangeWait::Ready(1000..2500)));
    assert_eq!(c.wait_exists(500..1500), Ok(RangeWait::Pending(2)));
    assert!(c.abort_wait(2));
    assert!(!c.wait_loaded());
    assert_eq!(c.create_encoder().err(), Some(ErrorCode::NotFound));
}

#[test]
fn chunk_cache_reads_across_pieces() {
    let chunk = chunk_of(2500);
    let content = content_of(2500);
    let mut c = ChunkCache::with_piece_size(chunk, 1000).unwrap();
    let mut buf = vec![0xeeu8; 1200];
    assert_eq!(c.read(900, &mut buf), Ok(ReadState::Pending(1)));
    assert_eq!(buf, vec![0xee; 1200]);
    assert_eq!(c.load(&content), Ok(vec![1]));
    assert_eq!(c.read(900, &mut buf), Ok(ReadState::Done(1200)));
    assert_eq!(&buf[..], &content[900..2100]);
    let mut buf = vec![0xeeu8; 1200];
    assert_eq!(c.read(2000, &mut buf), Ok(ReadState::Done(500)));
    assert_eq!(&buf[..500], &content[2000..]);
    assert_eq!(&buf[500..], &[0xee; 700][..]);
    assert_eq!(c.read(2500, &mut buf), Ok(ReadState::Done(0)));
    assert_eq!(c.read(9999, &mut buf), Ok(ReadState::Done(0)));
    assert_eq!(c.read(0, &mut []), Ok(ReadState::Done(0)));
    assert!(c.wait_loaded());
    assert_eq!(c.chunk(), &chunk);
    assert!(c.stream().has(2));
}

#[test]
fn decoder_gathers_and_reports() {
    let chunk = chunk_of(4096);
    let content = content_of(4096);
    let mut d = StreamDecoder::new(&chunk, 1024, 100).unwrap();
    assert_eq!(d.push_piece_data(&piece(&chunk, &content, 1024, 0), 200), Ok(false));
    assert_eq!(d.push_piece_data(&piece(&chunk, &content, 1024, 2), 300), Ok(false));
    assert_eq!(d.push_piece_data(&piece(&chunk, &content, 1024, 3), 400), Ok(false));
    let mut beyond = piece(&chunk, &content, 1024, 3);
    beyond.desc = PieceDesc::Range(4, 1024);
    assert_eq!(d.push_piece_data(&beyond, 400), Err(ErrorCode::InvalidParam));
    assert!(d.on_time_escape(1_000_100, &config()).unwrap().is_none());
    let report = d.on_time_escape(1_000_101, &config()).unwrap().unwrap();
    assert_eq!(report.max_index, Some(3));
    assert_eq!(report.lost_index, vec![1..2]);
    assert!(d.on_time_escape(2_000_101, &config()).unwrap().is_none());
    let report = d.on_time_escape(2_000_102, &config()).unwrap().unwrap();
    assert_eq!(report.lost_index, vec![1..2]);
    assert_eq!(d.on_time_escape(5_000_401, &config()).err(), Some(ErrorCode::Timeout));
    assert_eq!(d.chunk_content(), None);
    assert_eq!(d.push_piece_data(&piece(&chunk, &content, 1024, 1), 500), Ok(true));
    assert!(d.on_time_escape(99_000_000, &config()).unwrap().is_none());
    assert_eq!(d.chunk_content(), Some(content));
    assert!(d.cache().is_complete());
    assert_eq!(StreamDecoder::new(&chunk, 0, 0).err(), Some(ErrorCode::InvalidParam));
}

fn sent_indices(e: &mut StreamEncoder) -> Vec<u32> {
    let mut out = Vec::new();
    let mut buf = [0u8; 2000];
    loop {
        let n = e.next_piece(&TempSeq::from(9), &mut buf).unwrap();
        if n == 0 {
            return out;
        }
        let p = PieceData::decode_from_raw_data(&buf[1..n]).unwrap();
        match p.desc {
            PieceDesc::Range(i, _) => out.push(i),
            PieceDesc::Raptor(_, _) => panic!(),
        }
    }
}

#[test]
fn encoder_sends_every_piece_in_order() {
    let chunk = chunk_of(4100);
    let content = content_of(4100);
    let mut e = StreamEncoder::new(&chunk, 1024, content.clone()).unwrap();
    assert_eq!(e.piece_count(), 5);
    assert_eq!(e.pending(), 5);
    let mut buf = [0xeeu8; 2000];
    for i in 0..5u32 {
        buf = [0xeeu8; 2000];
        let n = e.next_piece(&TempSeq::from(9), &mut buf).unwrap();
        let want = piece(&chunk, &content, 1024, i);
        assert_eq!(n, 48 + want.data.len());
        assert_eq!(buf[0], 0x60);
        let p = PieceData::decode_from_raw_data(&buf[1..n]).unwrap();
        assert_eq!(p.est_seq, None);
        assert_eq!(p.session_id, TempSeq::from(9));
        assert_eq!(p.chunk, chunk);
        assert_eq!(p.desc, PieceDesc::Range(i, 1024));
        assert_eq!(p.data, want.data);
        assert_eq!(buf[n], 0xee);
    }
    assert_eq!(e.next_piece(&TempSeq::from(9), &mut buf), Ok(0));
    assert_eq!(e.pending(), 0);
    e.reset();
    assert_eq!(sent_indices(&mut e), vec![0, 1, 2, 3, 4]);
}

#[test]
fn encoder_without_room_sends_nothing() {
    let chunk = chunk_of(100);
    let mut e = StreamEncoder::new(&chunk, 1024, content_of(100)).unwrap();
    let mut buf = [0xeeu8; 147];
    assert_eq!(e.next_piece(&TempSeq::from(9), &mut buf), Err(ErrorCode::InvalidParam));
    assert_eq!(buf, [0xee; 147]);
    assert_eq!(e.pending(), 1);
    let mut buf = [0xeeu8; 148];
    assert_eq!(e.next_piece(&TempSeq::from(9), &mut buf), Ok(148));
    assert_eq!(
        StreamEncoder::new(&chunk, 1024, content_of(99)).err(),
        Some(ErrorCode::InvalidParam)
    );
    assert_eq!(StreamEncoder::new(&chunk, 0, content_of(100)).err(), Some(ErrorCode::InvalidParam));
}

#[test]
fn encoder_merge_sends_lost_and_later_pieces_once() {
    let chunk = chunk_of(10_000);
    let mut e = StreamEncoder::new(&chunk, 1000, content_of(10_000)).unwrap();
    e.merge(6, &vec![1..3, 2..4, 5..5, 8..9, 20..30]);
    assert_eq!(sent_indices(&mut e), vec![1, 2, 3, 7, 8, 9]);
    assert_eq!(sent_indices(&mut e), Vec::<u32>::new());
    e.merge(3, &vec![1..2]);
    assert_eq!(sent_indices(&mut e), vec![1, 4, 5, 6, 7, 8, 9]);
    e.merge(9, &vec![]);
    assert_eq!(sent_indices(&mut e), Vec::<u32>::new());
    e.merge(u32::MAX, &vec![0..u32::MAX]);
    assert_eq!(sent_indices(&mut e), vec![0, 1, 2, 3, 4, 5, 6, 7, 8, 9]);
    e.merge(0, &vec![]);
    let mut buf = [0u8; 2000];
    e.next_piece(&TempSeq::from(9), &mut buf).unwrap();
    e.merge(7, &vec![]);
    assert_eq!(sent_indices(&mut e), vec![8, 9]);
}

#[test]
fn speed_counter_samples() {
    let mut c = SpeedCounter::new(500, 1_000_000);
    assert_eq!(c.update(1_000_000), 0);
    c.on_recv(1500);
    assert_eq!(c.update(3_000_000), 1000);
    assert_eq!(c.update(3_000_000), 1000);
    assert_eq!(c.update(2_000_000), 1000);
    assert_eq!(c.update(4_000_000), 0);
    c.on_recv(usize::MAX);
    c.on_recv(usize::MAX);
    assert_eq!(c.update(4_000_001), u32::MAX);
    c.on_recv(3);
    assert_eq!(c.update(4_000_004), 1_000_000);
}

#[test]
fn history_speed_window() {
    let mut h = HistorySpeed::new(77, 3);
    assert_eq!(h.average(), 77);
    assert_eq!(h.latest(), 77);
    h.update(None, 1);
    assert_eq!(h.average(), 77);
    h.update(Some(10), 1);
    h.update(Some(21), 2);
    assert_eq!(h.average(), 15);
    assert_eq!(h.latest(), 21);
    h.update(Some(30), 3);
    h.update(Some(u32::MAX), 4);
    assert_eq!(h.latest(), u32::MAX);
    assert_eq!(h.average(), ((21u64 + 30 + u32::MAX as u64) / 3) as u32);
    let d = h.duplicate();
    assert_eq!(d.average(), h.average());
    let mut none = HistorySpeed::new(5, 0);
    none.update(Some(9), 1);
    assert_eq!(none.average(), 5);
    assert_eq!(none.latest(), 5);
}

#[test]
fn canceled_cache_tells_readers_why() {
    let chunk = chunk_of(2500);
    let content = content_of(2500);
    let mut c = ChunkCache::with_piece_size(chunk, 1000).unwrap();
    c.push(&piece(&chunk, &content, 1000, 0)).unwrap();
    assert_eq!(c.canceled(), None);
    assert_eq!(c.wait_exists(0..2500), Ok(RangeWait::Pending(1)));
    let mut buf = [0u8; 16];
    assert_eq!(c.read(995, &mut buf), Ok(ReadState::Pending(2)));
    assert_eq!(c.cancel(ErrorCode::Timeout), vec![1, 2]);
    assert_eq!(c.cancel(ErrorCode::NotFound), Vec::<u64>::new());
    assert_eq!(c.canceled(), Some(ErrorCode::Timeout));
    assert_eq!(c.wait_exists(0..2500), Err(ErrorCode::Timeout));
    assert_eq!(c.read(995, &mut buf), Err(ErrorCode::Timeout));
    assert_eq!(c.read(0, &mut buf), Ok(ReadState::Done(16)));
    assert_eq!(&buf[..], &content[..16]);
    assert_eq!(c.wait_exists(0..1000), Ok(RangeWait::Ready(0..1000)));
    c.load(&content).unwrap();
    assert_eq!(c.read(995, &mut buf), Ok(ReadState::Done(16)));
}

#[test]
fn cache_lets_everyone_go() {
    let chunk = chunk_of(2500);
    let mut c = ChunkStreamCache::with_piece_size(&chunk, 1000).unwrap();
    c.wait_exists(2).unwrap();
    c.wait_exists(0).unwrap();
    assert_eq!(c.abort_all(), vec![1, 2]);
    assert_eq!(c.abort_all(), Vec::<u64>::new());
    assert!(!c.abort_wait(1));
    assert!(!c.has(0));
}
