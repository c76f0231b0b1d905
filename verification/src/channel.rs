//! Everything that goes on between this peer and one other.
//!
//! A channel keeps the download sessions this peer has with the other and
//! the upload sessions the other has with it, each under its number, hands
//! each message that comes in to the session it belongs to, and numbers the
//! commands that go out. It sends nothing itself: the messages that are to
//! go out, and who is to be woken, it hands to its caller.

use vstd::prelude::*;
use crate::download::ControlRequest;
use crate::download::DownloadOutput;
use crate::download::DownloadSession;
use crate::download::DownloadSessionState;
use crate::download::DownloadSessionView;
use crate::download::FinishWait;
use crate::download::Phase;
use crate::encode::StreamEncoder;
use crate::error::ErrorCode;
use crate::packet::Packet;
use crate::protocol::ChannelEstimate;
use crate::protocol::Interest;
use crate::protocol::PieceControl;
use crate::protocol::PieceControlCommand;
use crate::protocol::PieceData;
use crate::protocol::RespInterest;
use crate::raw::view_opt;
use crate::types::ChannelConfig;
use crate::types::ChunkId;
use crate::types::ChunkIdView;
use crate::types::DeviceId;
use crate::types::PieceSessionType;
use crate::types::TempSeq;
use crate::types::Timestamp;
use crate::upload::UploadSession;
use crate::upload::UploadSessionView;
use crate::upload::UploadTaskState;

verus! {

/// Those to wake who waited for a download session to end.
#[derive(Clone, Copy, Debug, PartialEq, Eq, Structural)]
pub struct SessionWake {
    pub session_id: TempSeq,
    pub count: usize,
}

/// What a channel wants done after it was told something.
#[derive(Debug)]
pub struct ChannelOutput {
    /// An `Interest` to send.
    pub interest: Option<Interest>,
    /// A `RespInterest` to send.
    pub resp_interest: Option<RespInterest>,
    /// A `PieceControl` to send.
    pub control: Option<PieceControl>,
    /// A `ChannelEstimate` to send.
    pub estimate: Option<ChannelEstimate>,
    /// Those to wake.
    pub wake: Option<SessionWake>,
    /// An `Interest` that asks for a chunk on a session the channel does
    /// not have: the caller is to begin an upload session for it, or to
    /// refuse it.
    pub need_upload: Option<Interest>,
}

impl ChannelOutput {
    /// Nothing to do.
    pub fn none() -> (o: ChannelOutput)
        ensures
            o.is_none(),
    {
        ChannelOutput {
            interest: None,
            resp_interest: None,
            control: None,
            estimate: None,
            wake: None,
            need_upload: None,
        }
    }

    /// Whether there is nothing to do.
    pub open spec fn is_none(self) -> bool {
        &&& self.interest is None
        &&& self.resp_interest is None
        &&& self.control is None
        &&& self.estimate is None
        &&& self.wake is None
        &&& self.need_upload is None
    }
}

/// A channel as plain values.
pub ghost struct ChannelView {
    /// The other peer.
    pub remote: Seq<u8>,
    pub config: ChannelConfig,
    /// Whether the other peer is taken to be gone.
    pub dead: bool,
    /// The number of the last command that went out.
    pub command_seq: u32,
    /// The number the next download session is given.
    pub next_session: u32,
    /// The bytes of content that came in on the channel.
    pub recved: u64,
    /// The download sessions, in the order in which they were made.
    pub downloads: Seq<DownloadSessionView>,
    /// The upload sessions, in the order in which they were made.
    pub uploads: Seq<UploadSessionView>,
}

impl ChannelView {
    /// Whether download session `k` still runs for `chunk` on behalf of
    /// `referer`.
    pub open spec fn runs_for(self, k: int, chunk: ChunkIdView,
        referer: Option<Seq<char>>) -> bool {
        &&& 0 <= k < self.downloads.len()
        &&& !self.downloads[k].phase.is_terminal()
        &&& self.downloads[k].chunk == chunk
        &&& self.downloads[k].referer == referer
    }

    /// What always holds of a channel: its sessions are as they should be;
    /// no two download sessions have one number, nor two upload sessions,
    /// and the numbers yet to be given are greater than those given; and no
    /// two download sessions that still run fetch one chunk on behalf of
    /// one referer.
    pub open spec fn wf(self) -> bool {
        &&& self.remote.len() == 32
        &&& forall|k: int|
            0 <= k < self.downloads.len() ==> (#[trigger] self.downloads[k]).wf()
                && self.downloads[k].session_id.0 < self.next_session && self.downloads[k].config
                == self.config
        &&& forall|k: int, m: int|
            0 <= k < m < self.downloads.len() ==> (#[trigger] self.downloads[k]).session_id != (
            #[trigger] self.downloads[m]).session_id
        &&& forall|k: int| 0 <= k < self.uploads.len() ==> (#[trigger] self.uploads[k]).wf()
        &&& forall|k: int, m: int|
            0 <= k < m < self.uploads.len() ==> (#[trigger] self.uploads[k]).session_id != (
            #[trigger] self.uploads[m]).session_id
        &&& forall|k: int, m: int|
            0 <= k < m < self.downloads.len() && !(#[trigger] self.downloads[k]).phase.is_terminal()
                && !(#[trigger] self.downloads[m]).phase.is_terminal() ==> !(self.downloads[k].chunk
                == self.downloads[m].chunk && self.downloads[k].referer
                == self.downloads[m].referer)
    }

    /// Where the download session with the number `id` stands, where there
    /// is one.
    pub open spec fn find_download(self, id: TempSeq) -> Option<int> {
        if exists|k: int| 0 <= k < self.downloads.len() && self.downloads[k].session_id == id {
            Some(choose|k: int| 0 <= k < self.downloads.len() && self.downloads[k].session_id == id)
        } else {
            None
        }
    }

    /// Where the upload session with the number `id` stands, where there is
    /// one.
    pub open spec fn find_upload(self, id: TempSeq) -> Option<int> {
        if exists|k: int| 0 <= k < self.uploads.len() && self.uploads[k].session_id == id {
            Some(choose|k: int| 0 <= k < self.uploads.len() && self.uploads[k].session_id == id)
        } else {
            None
        }
    }

    /// Where the download session stands that still runs for `chunk` on
    /// behalf of `referer`, where there is one.
    pub open spec fn find_running(self, chunk: ChunkIdView, referer: Option<Seq<char>>) -> Option<
        int,
    > {
        if exists|k: int| self.runs_for(k, chunk, referer) {
            Some(choose|k: int| self.runs_for(k, chunk, referer))
        } else {
            None
        }
    }

    /// The answer that refuses `interest` for `err`.
    pub open spec fn refusal(
        interest: crate::protocol::InterestView,
        err: ErrorCode,
    ) -> crate::protocol::RespInterestView {
        crate::protocol::RespInterestView {
            session_id: interest.session_id,
            chunk: interest.chunk,
            err,
            redirect: None,
            redirect_referer: None,
            cache_node: None,
        }
    }

    /// The command that session `s` wants sent, under the number
    /// `sequence`.
    pub open spec fn is_report(
        c: crate::protocol::PieceControlView,
        sequence: u32,
        s: DownloadSessionView,
    ) -> bool {
        &&& c.sequence == TempSeq(sequence)
        &&& c.session_id == s.session_id
        &&& c.chunk == s.chunk
        &&& c.command == PieceControlCommand::Continue
        &&& c.max_index == s.decoder->0.max_index
        &&& match c.lost_index {
            Some(l) => l.len() > 0 && crate::stream::runs(l) && forall|i: int|
                crate::stream::covered(l, i) <==> s.decoder->0.lost(i),
            None => forall|i: int| !s.decoder->0.lost(i),
        }
    }

    /// The number of the first `k` download sessions that say at `now`
    /// what they miss.
    pub open spec fn reports_before(self, now: Timestamp, k: int) -> int
        decreases k,
    {
        if k <= 0 {
            0
        } else if self.downloads[k - 1].reports(now) {
            self.reports_before(now, k - 1) + 1
        } else {
            self.reports_before(now, k - 1)
        }
    }

    /// The number of the last command that went out, after the clock was
    /// read at `now` for the first `k` download sessions: each that says
    /// what it misses takes the next number, while one is left.
    pub open spec fn seq_after(self, now: Timestamp, k: int) -> u32 {
        if self.command_seq + self.reports_before(now, k) >= u32::MAX {
            u32::MAX
        } else {
            (self.command_seq + self.reports_before(now, k)) as u32
        }
    }

    /// Whether `w` are those who wait for a download session that still
    /// runs to end.
    pub open spec fn waited(self, w: SessionWake) -> bool {
        exists|k: int|
            0 <= k < self.downloads.len() && !(#[trigger] self.downloads[k]).phase.is_terminal()
                && 0 < self.downloads[k].waiters <= usize::MAX && w == (SessionWake {
                session_id: self.downloads[k].session_id,
                count: self.downloads[k].waiters as usize,
            })
    }

    /// A channel to `remote` with no sessions; the other peer is taken to
    /// be there.
    pub open spec fn fresh(remote: Seq<u8>, config: ChannelConfig) -> ChannelView {
        ChannelView {
            remote,
            config,
            dead: false,
            command_seq: 0,
            next_session: 1,
            recved: 0,
            downloads: Seq::empty(),
            uploads: Seq::empty(),
        }
    }

    /// The download session the channel makes for `chunk` on behalf of
    /// `referer`: in `Init`, under the next number.
    pub open spec fn made(
        self,
        chunk: ChunkIdView,
        prefer_type: PieceSessionType,
        referer: Option<Seq<char>>,
    ) -> DownloadSessionView {
        DownloadSessionView {
            chunk,
            session_id: TempSeq(self.next_session),
            prefer_type,
            referer,
            config: self.config,
            waiters: 0,
            history: crate::speed::HistorySpeedView {
                initial: self.config.initial_speed,
                window: self.config.history_speed as nat,
                samples: Seq::empty(),
            },
            phase: Phase::Init,
            decoder: None,
            content: None,
        }
    }

    /// The number of the session that fetches `chunk` on behalf of
    /// `referer` on the channel: of the one that still runs for them, where
    /// there is one, and the next number else. None where no number is
    /// left.
    pub open spec fn download_gives(
        self,
        chunk: ChunkIdView,
        referer: Option<Seq<char>>,
    ) -> Option<TempSeq> {
        match self.find_running(chunk, referer) {
            Some(k) => Some(self.downloads[k].session_id),
            None => if self.next_session == u32::MAX {
                None
            } else {
                Some(TempSeq(self.next_session))
            },
        }
    }

    /// The channel after a session was asked for that fetches `chunk` on
    /// behalf of `referer`: with a new session for them behind the others,
    /// where none runs for them and a number is left; as it was, else.
    pub open spec fn downloaded(
        self,
        chunk: ChunkIdView,
        prefer_type: PieceSessionType,
        referer: Option<Seq<char>>,
    ) -> ChannelView {
        if self.find_running(chunk, referer) is Some || self.next_session == u32::MAX {
            self
        } else {
            ChannelView {
                next_session: (self.next_session + 1) as u32,
                downloads: self.downloads.push(self.made(chunk, prefer_type, referer)),
                ..self
            }
        }
    }

    /// The channel after the download session with the number `id` was
    /// started at `now`: the other peer is taken to be there, and the
    /// session is started. As it was, where there is no such session.
    pub open spec fn started(self, id: TempSeq, now: Timestamp) -> ChannelView {
        match self.find_download(id) {
            Some(k) => ChannelView {
                dead: false,
                ..self.with_download(k, self.downloads[k].started(now))
            },
            None => self,
        }
    }

    /// The channel after the download session with the number `id` was
    /// given up for `err`. As it was, where there is no such session.
    pub open spec fn canceled(self, id: TempSeq, err: ErrorCode) -> ChannelView {
        match self.find_download(id) {
            Some(k) => self.with_download(k, self.downloads[k].canceled(err)),
            None => self,
        }
    }

    /// The channel with download session `k` as `s`.
    pub open spec fn with_download(self, k: int, s: DownloadSessionView) -> ChannelView {
        ChannelView { downloads: self.downloads.update(k, s), ..self }
    }

    /// The channel with upload session `k` as `s`.
    pub open spec fn with_upload(self, k: int, s: UploadSessionView) -> ChannelView {
        ChannelView { uploads: self.uploads.update(k, s), ..self }
    }

    /// The channel after a command went out, where there was a number left
    /// for it.
    pub open spec fn numbered(self) -> ChannelView {
        if self.command_seq < u32::MAX {
            ChannelView { command_seq: (self.command_seq + 1) as u32, ..self }
        } else {
            self
        }
    }

    /// The channel after `bytes` of content came in; the count stops at the
    /// most a `u64` holds.
    pub open spec fn counted(self, bytes: nat) -> ChannelView {
        ChannelView {
            recved: if self.recved + bytes > u64::MAX {
                u64::MAX
            } else {
                (self.recved + bytes) as u64
            },
            ..self
        }
    }
}

/// The upload sessions that are kept when the clock is read at `now` for
/// each of `uploads`, in their order, each as reading the clock leaves it.
pub open spec fn swept(uploads: Seq<UploadSessionView>, now: Timestamp) -> Seq<UploadSessionView>
    decreases uploads.len(),
{
    if uploads.len() == 0 {
        Seq::empty()
    } else if uploads.last().kept(now) {
        swept(uploads.drop_last(), now).push(
            if uploads.last().times_out(now) {
                uploads.last().canceled(ErrorCode::Timeout)
            } else {
                uploads.last()
            },
        )
    } else {
        swept(uploads.drop_last(), now)
    }
}

/// Those to wake when every one of `sessions` is given up, in the order of
/// the sessions: for each that still runs and is waited for, all who wait
/// for it.
pub open spec fn wakes_of(sessions: Seq<DownloadSessionView>) -> Seq<SessionWake>
    decreases sessions.len(),
{
    if sessions.len() == 0 {
        Seq::empty()
    } else if !sessions.last().phase.is_terminal() && sessions.last().waiters > 0 {
        wakes_of(sessions.drop_last()).push(
            SessionWake {
                session_id: sessions.last().session_id,
                count: sessions.last().waiters as usize,
            },
        )
    } else {
        wakes_of(sessions.drop_last())
    }
}

/// Everything that goes on between this peer and one other.
#[derive(Debug)]
pub struct Channel {
    remote: DeviceId,
    config: ChannelConfig,
    dead: bool,
    command_seq: u32,
    next_session: u32,
    recved: u64,
    downloads: Vec<DownloadSession>,
    uploads: Vec<UploadSession>,
}

/// The download sessions of a list as plain values.
pub open spec fn downloads_view(v: Seq<DownloadSession>) -> Seq<DownloadSessionView> {
    Seq::new(v.len(), |k: int| v[k]@)
}

/// The upload sessions of a list as plain values.
pub open spec fn uploads_view(v: Seq<UploadSession>) -> Seq<UploadSessionView> {
    Seq::new(v.len(), |k: int| v[k]@)
}

impl View for Channel {
    type V = ChannelView;

    closed spec fn view(&self) -> ChannelView {
        ChannelView {
            remote: self.remote@,
            config: self.config,
            dead: self.dead,
            command_seq: self.command_seq,
            next_session: self.next_session,
            recved: self.recved,
            downloads: downloads_view(self.downloads@),
            uploads: uploads_view(self.uploads@),
        }
    }
}

impl Channel {
    /// What always holds of a channel.
    pub closed spec fn wf(&self) -> bool {
        &&& self@.wf()
        &&& forall|k: int| 0 <= k < self.uploads@.len() ==> (#[trigger] self.uploads@[k]).wf()
    }

    /// What always holds of a channel holds of it as plain values.
    pub proof fn lemma_wf_view(&self)
        requires
            self.wf(),
        ensures
            self@.wf(),
    {
    }

    /// A channel to `remote` with no sessions; the other peer is taken to
    /// be there.
    pub fn new(remote: DeviceId, config: ChannelConfig) -> (c: Channel)
        ensures
            c.wf(),
            c@ == (ChannelView {
                remote: remote@,
                config,
                dead: false,
                command_seq: 0,
                next_session: 1,
                recved: 0,
                downloads: Seq::empty(),
                uploads: Seq::empty(),
            }),
    {
        proof {
            remote.lemma_view_fits();
        }
        let c = Self {
            remote,
            config,
            dead: false,
            command_seq: 0,
            next_session: 1,
            recved: 0,
            downloads: Vec::new(),
            uploads: Vec::new(),
        };
        assert(c@.downloads =~= Seq::empty());
        assert(c@.uploads =~= Seq::empty());
        c
    }

    /// The other peer.
    pub fn remote(&self) -> (d: &DeviceId)
        ensures
            d@ == self@.remote,
    {
        &self.remote
    }

    pub fn config(&self) -> (c: &ChannelConfig)
        ensures
            *c == self@.config,
    {
        &self.config
    }

    /// The speed a download session is taken to have before it was
    /// measured.
    pub fn initial_download_session_speed(&self) -> (s: u32)
        ensures
            s == self@.config.initial_speed,
    {
        self.config.initial_speed
    }

    /// Whether the other peer is taken to be gone.
    pub fn is_dead(&self) -> (b: bool)
        ensures
            b == self@.dead,
    {
        self.dead
    }

    /// Takes the other peer to be there.
    pub fn clear_dead(&mut self)
        requires
            old(self).wf(),
        ensures
            final(self).wf(),
            final(self)@ == (ChannelView { dead: false, ..old(self)@ }),
    {
        self.dead = false;
    }

    /// Takes the other peer to be gone.
    pub fn mark_dead(&mut self)
        requires
            old(self).wf(),
        ensures
            final(self).wf(),
            final(self)@ == (ChannelView { dead: true, ..old(self)@ }),
    {
        self.dead = true;
    }

    /// The number of the download sessions.
    pub fn download_count(&self) -> (n: usize)
        ensures
            n == self@.downloads.len(),
    {
        self.downloads.len()
    }

    /// The number of the upload sessions.
    pub fn upload_count(&self) -> (n: usize)
        ensures
            n == self@.uploads.len(),
    {
        self.uploads.len()
    }

    /// The number for the next command that goes out: one more than the
    /// last. `Unknown` where no number is left.
    pub fn gen_command_seq(&mut self) -> (r: Result<TempSeq, ErrorCode>)
        requires
            old(self).wf(),
        ensures
            final(self).wf(),
            final(self)@ == old(self)@.numbered(),
            r is Ok <==> old(self)@.command_seq < u32::MAX,
            r matches Ok(s) ==> s.0 == old(self)@.command_seq + 1,
            r matches Err(e) ==> e == ErrorCode::Unknown,
    {
        if self.command_seq == u32::MAX {
            return Err(ErrorCode::Unknown);
        }
        self.command_seq = self.command_seq + 1;
        Ok(TempSeq(self.command_seq))
    }

    /// Where the download session with the number `id` stands.
    pub fn find_download(&self, id: &TempSeq) -> (r: Option<usize>)
        requires
            self.wf(),
        ensures
            r matches Some(k) ==> k < self@.downloads.len() && self@.downloads[k as int].session_id
                == *id,
            r is None ==> forall|k: int|
                0 <= k < self@.downloads.len() ==> (#[trigger] self@.downloads[k]).session_id
                    != *id,
            match r {
                Some(k) => self@.find_download(*id) == Some(k as int),
                None => self@.find_download(*id) is None,
            },
    {
        let n: usize = self.downloads.len();
        let mut k: usize = 0;
        while k < n
            invariant
                self.wf(),
                n == self.downloads@.len(),
                k <= n,
                forall|m: int| 0 <= m < k ==> (#[trigger] self@.downloads[m]).session_id != *id,
            decreases n - k,
        {
            if self.downloads[k].session_id().0 == id.0 {
                proof {
                    let v = self@;
                    assert(v.downloads[k as int].session_id == *id);
                    assert(exists|j: int|
                        0 <= j < v.downloads.len() && v.downloads[j].session_id == *id);
                    let found = choose|j: int|
                        0 <= j < v.downloads.len() && v.downloads[j].session_id == *id;
                    assert(0 <= found < v.downloads.len() && v.downloads[found].session_id == *id);
                    if found < k {
                        assert(v.downloads[found].session_id != v.downloads[k as int].session_id);
                    } else if found > k {
                        assert(v.downloads[k as int].session_id != v.downloads[found].session_id);
                    }
                }
                return Some(k);
            }
            k += 1;
        }
        None
    }

    /// Where the upload session with the number `id` stands.
    pub fn find_upload(&self, id: &TempSeq) -> (r: Option<usize>)
        requires
            self.wf(),
        ensures
            r matches Some(k) ==> k < self@.uploads.len() && self@.uploads[k as int].session_id
                == *id,
            r is None ==> forall|k: int|
                0 <= k < self@.uploads.len() ==> (#[trigger] self@.uploads[k]).session_id != *id,
            match r {
                Some(k) => self@.find_upload(*id) == Some(k as int),
                None => self@.find_upload(*id) is None,
            },
    {
        let n: usize = self.uploads.len();
        let mut k: usize = 0;
        while k < n
            invariant
                self.wf(),
                n == self.uploads@.len(),
                k <= n,
                forall|m: int| 0 <= m < k ==> (#[trigger] self@.uploads[m]).session_id != *id,
            decreases n - k,
        {
            if self.uploads[k].session_id().0 == id.0 {
                proof {
                    let v = self@;
                    assert(v.uploads[k as int].session_id == *id);
                    assert(exists|j: int| 0 <= j < v.uploads.len() && v.uploads[j].session_id
                        == *id);
                    let found = choose|j: int|
                        0 <= j < v.uploads.len() && v.uploads[j].session_id == *id;
                    assert(0 <= found < v.uploads.len() && v.uploads[found].session_id == *id);
                    if found < k {
                        assert(v.uploads[found].session_id != v.uploads[k as int].session_id);
                    } else if found > k {
                        assert(v.uploads[k as int].session_id != v.uploads[found].session_id);
                    }
                }
                return Some(k);
            }
            k += 1;
        }
        None
    }

    /// Where the download session stands that still runs for `chunk` on
    /// behalf of `referer`.
    pub fn find_running(&self, chunk: &ChunkId, referer: &Option<String>) -> (r: Option<usize>)
        requires
            self.wf(),
        ensures
            r matches Some(k) ==> self@.runs_for(k as int, chunk@, view_opt(*referer)),
            r is None ==> forall|k: int| !self@.runs_for(k, chunk@, view_opt(*referer)),
            match r {
                Some(k) => self@.find_running(chunk@, view_opt(*referer)) == Some(k as int),
                None => self@.find_running(chunk@, view_opt(*referer)) is None,
            },
    {
        let n: usize = self.downloads.len();
        let mut k: usize = 0;
        while k < n
            invariant
                self.wf(),
                n == self.downloads@.len(),
                k <= n,
                forall|m: int| 0 <= m < k ==> !self@.runs_for(m, chunk@, view_opt(*referer)),
            decreases n - k,
        {
            let s: &DownloadSession = &self.downloads[k];
            let running: bool = match s.phase() {
                Phase::Finished { .. } => false,
                Phase::Canceled { .. } => false,
                _ => true,
            };
            if running && s.chunk().same(chunk) {
                let same: bool = match s.referer() {
                    Some(t) => match referer {
                        Some(u) => {
                            let eq: bool = *t == *u;
                            eq
                        },
                        None => false,
                    },
                    None => referer.is_none(),
                };
                if same {
                    proof {
                        let v = self@;
                        let r = view_opt(*referer);
                        assert(v.runs_for(k as int, chunk@, r));
                        assert(exists|j: int| v.runs_for(j, chunk@, r));
                        let found = choose|j: int| v.runs_for(j, chunk@, r);
                        assert(v.runs_for(found, chunk@, r));
                        if found < k {
                            assert(!v.downloads[found].phase.is_terminal()
                                && !v.downloads[k as int].phase.is_terminal());
                        } else if found > k {
                            assert(!v.downloads[k as int].phase.is_terminal()
                                && !v.downloads[found].phase.is_terminal());
                        }
                    }
                    return Some(k);
                }
            }
            k += 1;
        }
        None
    }

    /// The download session that fetches `chunk` on behalf of `referer`:
    /// the one that still runs for them, where there is one, and a new one
    /// in `Init` under the next number, where there is none. Returns the
    /// number of the session. `Unknown` where no number is left for a new
    /// session.
    pub fn download(
        &mut self,
        chunk: ChunkId,
        prefer_type: PieceSessionType,
        referer: Option<String>,
    ) -> (r: Result<TempSeq, ErrorCode>)
        requires
            old(self).wf(),
        ensures
            final(self).wf(),
            match old(self)@.find_running(chunk@, view_opt(referer)) {
                Some(k) => r == Ok::<TempSeq, ErrorCode>(old(self)@.downloads[k].session_id)
                    && final(self)@ == old(self)@,
                None => if old(self)@.next_session == u32::MAX {
                    r == Err::<TempSeq, ErrorCode>(ErrorCode::Unknown) && final(self)@ == old(self)@
                } else {
                    r == Ok::<TempSeq, ErrorCode>(TempSeq(old(self)@.next_session)) && final(self)@
                        == (ChannelView {
                        next_session: (old(self)@.next_session + 1) as u32,
                        downloads: old(self)@.downloads.push(
                            DownloadSessionView {
                                chunk: chunk@,
                                session_id: TempSeq(old(self)@.next_session),
                                prefer_type,
                                referer: view_opt(referer),
                                config: old(self)@.config,
                                waiters: 0,
                                history: crate::speed::HistorySpeedView {
                                    initial: old(self)@.config.initial_speed,
                                    window: old(self)@.config.history_speed as nat,
                                    samples: Seq::empty(),
                                },
                                phase: Phase::Init,
                                decoder: None,
                                content: None,
                            },
                        ),
                        ..old(self)@
                    })
                },
            },
    {
        match self.find_running(&chunk, &referer) {
            Some(k) => {
                return Ok(*self.downloads[k].session_id());
            },
            None => {},
        }
        if self.next_session == u32::MAX {
            return Err(ErrorCode::Unknown);
        }
        let id = TempSeq(self.next_session);
        let session = DownloadSession::new(chunk, id, prefer_type, referer, self.config);
        let ghost before = self@;
        let ghost new_view = session@;
        self.downloads.push(session);
        self.next_session = self.next_session + 1;
        proof {
            assert(self@.downloads =~= before.downloads.push(new_view));
            assert(self@.uploads =~= before.uploads);
            assert forall|k: int, m: int|
                0 <= k < m < self@.downloads.len()
                    && !(#[trigger] self@.downloads[k]).phase.is_terminal()
                    && !(#[trigger] self@.downloads[m]).phase.is_terminal() implies !(
            self@.downloads[k].chunk == self@.downloads[m].chunk && self@.downloads[k].referer
                == self@.downloads[m].referer) by {
                if m == before.downloads.len() {
                    assert(!before.runs_for(k, chunk@, new_view.referer));
                }
            }
        }
        Ok(id)
    }

    /// Takes in a piece that came at `now`: counts its content, hands it to
    /// the download session it belongs to, and returns what is to be done.
    pub fn on_piece_data(&mut self, piece: &PieceData, now: Timestamp) -> (out: ChannelOutput)
        requires
            old(self).wf(),
        ensures
            final(self).wf(),
            Self::piece_data_handled(old(self)@, final(self)@, piece, now, out),
    {
        self.recved = self.recved.saturating_add(piece.data.len() as u64);
        let mut out = ChannelOutput::none();
        if let Some(seq) = piece.est_seq {
            out.estimate = Some(ChannelEstimate { sequence: seq, recved: self.recved });
        }
        let found: Option<usize> = self.find_download(&piece.session_id);
        match found {
            Some(k) => {
                let ghost before = self@;
                let session_out: DownloadOutput = self.downloads[k].push_piece_data(piece, now);
                proof {
                    assert(self@.downloads =~= before.downloads.update(
                        k as int,
                        before.downloads[k as int].pushed(piece@, now),
                    ));
                    assert(self@.uploads =~= before.uploads);
                }
                if session_out.wake > 0 {
                    out.wake = Some(
                        SessionWake { session_id: piece.session_id, count: session_out.wake },
                    );
                }
                if let Some(request) = session_out.control {
                    let chunk: ChunkId = *self.downloads[k].chunk();
                    out.control = self.stamp(piece.session_id, chunk, request);
                }
                out
            },
            None => out,
        }
    }

    /// The command that a session wants sent, under the next number;
    /// nothing where no number is left.
    pub fn send_piece_control(
        &mut self,
        session_id: TempSeq,
        chunk: ChunkId,
        request: ControlRequest,
    ) -> (r: Option<PieceControl>)
        requires
            old(self).wf(),
        ensures
            final(self).wf(),
            final(self)@ == old(self)@.numbered(),
            r is Some <==> old(self)@.command_seq < u32::MAX,
            r matches Some(c) ==> c@ == (crate::protocol::PieceControlView {
                sequence: TempSeq(final(self)@.command_seq),
                session_id,
                chunk: chunk@,
                command: request.command,
                max_index: request.max_index,
                lost_index: view_opt(request.lost_index),
            }),
    {
        self.stamp(session_id, chunk, request)
    }

    /// Numbers a command that a session wants sent; nothing where no number
    /// is left.
    fn stamp(&mut self, session_id: TempSeq, chunk: ChunkId, request: ControlRequest) -> (r: Option<
        PieceControl,
    >)
        requires
            old(self).wf(),
        ensures
            final(self).wf(),
            final(self)@ == old(self)@.numbered(),
            r is Some <==> old(self)@.command_seq < u32::MAX,
            r matches Some(c) ==> c@ == (crate::protocol::PieceControlView {
                sequence: TempSeq(final(self)@.command_seq),
                session_id,
                chunk: chunk@,
                command: request.command,
                max_index: request.max_index,
                lost_index: view_opt(request.lost_index),
            }),
    {
        match self.gen_command_seq() {
            Ok(sequence) => Some(
                PieceControl {
                    sequence,
                    session_id,
                    chunk,
                    command: request.command,
                    max_index: request.max_index,
                    lost_index: request.lost_index,
                },
            ),
            Err(_) => None,
        }
    }
}

impl Channel {
    /// What `on_piece_data` does to a channel and wants done.
    pub open spec fn piece_data_handled(
        before: ChannelView,
        after: ChannelView,
        piece: &PieceData,
        now: Timestamp,
        out: ChannelOutput,
    ) -> bool {
        let counted = before.counted(piece@.data.len());
        &&& out.interest is None && out.resp_interest is None && out.need_upload is None
        &&& match piece.est_seq {
            Some(seq) => out.estimate == Some(
                ChannelEstimate { sequence: seq, recved: after.recved },
            ),
            None => out.estimate is None,
        }
        &&& match before.find_download(piece.session_id) {
            None => after == counted && out.control is None && out.wake is None,
            Some(k) => {
                let s = before.downloads[k];
                let pushed = counted.with_download(k, s.pushed(piece@, now));
                &&& out.wake == (if s.push_wake(piece@, now) > 0 {
                    Some(
                        SessionWake {
                            session_id: piece.session_id,
                            count: s.push_wake(piece@, now) as usize,
                        },
                    )
                } else {
                    None
                })
                &&& match s.push_command(piece@, now) {
                    None => after == pushed && out.control is None,
                    Some(command) => {
                        &&& after == pushed.numbered()
                        &&& out.control is Some <==> before.command_seq < u32::MAX
                        &&& out.control matches Some(c) ==> c@ == (
                        crate::protocol::PieceControlView {
                            sequence: TempSeq(after.command_seq),
                            session_id: piece.session_id,
                            chunk: s.chunk,
                            command,
                            max_index: None,
                            lost_index: None,
                        })
                    },
                }
            },
        }
    }

    /// What `on_resp_interest` does to a channel and wants done.
    pub open spec fn resp_interest_handled(
        before: ChannelView,
        after: ChannelView,
        resp_interest: &RespInterest,
        out: ChannelOutput,
    ) -> bool {
        &&& out.interest is None && out.resp_interest is None && out.control is None && out.estimate
            is None && out.need_upload is None
        &&& match before.find_download(resp_interest.session_id) {
            None => after == before && out.wake is None,
            Some(k) => {
                let s = before.downloads[k];
                if resp_interest.err == ErrorCode::Success {
                    after == before && out.wake is None
                } else {
                    &&& after == before.with_download(k, s.canceled(resp_interest.err))
                    &&& out.wake == (if !s.phase.is_terminal() && s.waiters > 0 {
                        Some(
                            SessionWake {
                                session_id: resp_interest.session_id,
                                count: s.waiters as usize,
                            },
                        )
                    } else {
                        None
                    })
                }
            },
        }
    }

    /// What `on_interest` does to a channel and wants done.
    pub open spec fn interest_handled(
        before: ChannelView,
        after: ChannelView,
        interest: Interest,
        now: Timestamp,
        out: ChannelOutput,
    ) -> bool {
        &&& out.interest is None && out.control is None && out.estimate is None && out.wake is None
        &&& match before.find_upload(interest.session_id) {
            None => after == before && out.resp_interest is None && out.need_upload is Some
                && out.need_upload->0@ == interest@,
            Some(k) => {
                &&& out.need_upload is None
                &&& after == before.with_upload(k, after.uploads[k])
                &&& UploadSessionView::interest_taken(
                    before.uploads[k],
                    after.uploads[k],
                    now,
                    out.resp_interest,
                )
            },
        }
    }

    /// What `on_piece_control` does to a channel and wants done.
    pub open spec fn piece_control_handled(
        before: ChannelView,
        after: ChannelView,
        ctrl: &PieceControl,
        now: Timestamp,
        out: ChannelOutput,
    ) -> bool {
        &&& out.interest is None && out.control is None && out.estimate is None && out.wake is None
            && out.need_upload is None
        &&& match before.find_upload(ctrl.session_id) {
            None => after == before && out.resp_interest is None,
            Some(k) => {
                &&& after == before.with_upload(k, after.uploads[k])
                &&& UploadSessionView::control_taken(
                    before.uploads[k],
                    after.uploads[k],
                    ctrl,
                    now,
                    out.resp_interest,
                )
            },
        }
    }

    /// The download session that stands at `k`.
    pub fn download_at(&self, k: usize) -> (s: &DownloadSession)
        requires
            self.wf(),
            k < self@.downloads.len(),
        ensures
            s@ == self@.downloads[k as int],
            s.wf(),
    {
        &self.downloads[k]
    }

    /// The upload session that stands at `k`.
    pub fn upload_at(&self, k: usize) -> (s: &UploadSession)
        requires
            self.wf(),
            k < self@.uploads.len(),
        ensures
            s@ == self@.uploads[k as int],
            s.wf(),
    {
        &self.uploads[k]
    }

    /// Starts the download session with the number `session_id` at `now`:
    /// the other peer is taken to be there, and a session in `Init` asks
    /// for its chunk with the `Interest` that is returned to be sent.
    /// Returns the state of the session as others see it afterwards.
    /// `NotFound`, and nothing changes, where there is no such session.
    pub fn start(&mut self, session_id: &TempSeq, now: Timestamp) -> (r: Result<
        (DownloadSessionState, ChannelOutput),
        ErrorCode,
    >)
        requires
            old(self).wf(),
        ensures
            final(self).wf(),
            match old(self)@.find_download(*session_id) {
                None => r is Err && r->Err_0 == ErrorCode::NotFound && final(self)@ == old(self)@,
                Some(k) => {
                    let s = old(self)@.downloads[k];
                    &&& final(self)@ == (ChannelView {
                        dead: false,
                        ..old(self)@.with_download(k, s.started(now))
                    })
                    &&& r matches Ok(p)
                    &&& p.0 == s.started(now).phase.seen()
                    &&& p.1.interest is Some <==> s.phase is Init
                    &&& p.1.interest matches Some(i) ==> i@ == s.interest()
                    &&& p.1.resp_interest is None && p.1.control is None && p.1.estimate is None
                        && p.1.wake is None && p.1.need_upload is None
                },
            },
    {
        match self.find_download(session_id) {
            Some(k) => {
                let ghost before = self@;
                self.dead = false;
                let (state, interest) = self.downloads[k].start(now);
                proof {
                    assert(self@.downloads =~= before.downloads.update(
                        k as int,
                        before.downloads[k as int].started(now),
                    ));
                    assert(self@.uploads =~= before.uploads);
                }
                let mut out = ChannelOutput::none();
                out.interest = interest;
                Ok((state, out))
            },
            None => Err(ErrorCode::NotFound),
        }
    }

    /// Gives the download session with the number `session_id` up for
    /// `err`, and returns those to wake. Nothing changes where there is no
    /// such session or it has ended.
    pub fn cancel_download(&mut self, session_id: &TempSeq, err: ErrorCode) -> (wake: Option<
        SessionWake,
    >)
        requires
            old(self).wf(),
        ensures
            final(self).wf(),
            match old(self)@.find_download(*session_id) {
                None => final(self)@ == old(self)@ && wake is None,
                Some(k) => {
                    let s = old(self)@.downloads[k];
                    &&& final(self)@ == old(self)@.with_download(k, s.canceled(err))
                    &&& wake == (if !s.phase.is_terminal() && s.waiters > 0 {
                        Some(SessionWake { session_id: *session_id, count: s.waiters as usize })
                    } else {
                        None
                    })
                },
            },
    {
        match self.find_download(session_id) {
            Some(k) => {
                let ghost before = self@;
                let count: usize = self.downloads[k].cancel_by_error(err);
                proof {
                    assert(self@.downloads =~= before.downloads.update(
                        k as int,
                        before.downloads[k as int].canceled(err),
                    ));
                    assert(self@.uploads =~= before.uploads);
                }
                if count > 0 {
                    Some(SessionWake { session_id: *session_id, count })
                } else {
                    None
                }
            },
            None => None,
        }
    }

    /// Asks how the download session with the number `session_id` ended;
    /// where it has not, the one who asks waits from now on. `NotFound`
    /// where there is no such session.
    pub fn wait_finish(&mut self, session_id: &TempSeq) -> (r: Result<FinishWait, ErrorCode>)
        requires
            old(self).wf(),
        ensures
            final(self).wf(),
            match old(self)@.find_download(*session_id) {
                None => r is Err && r->Err_0 == ErrorCode::NotFound && final(self)@ == old(self)@,
                Some(k) => {
                    let s = old(self)@.downloads[k];
                    if s.phase.is_terminal() {
                        r == Ok::<FinishWait, ErrorCode>(FinishWait::Return(s.phase.seen()))
                            && final(self)@ == old(self)@
                    } else {
                        r == Ok::<FinishWait, ErrorCode>(FinishWait::Wait) && final(self)@
                            == old(self)@.with_download(
                            k,
                            DownloadSessionView {
                                waiters: if s.waiters < usize::MAX {
                                    s.waiters + 1
                                } else {
                                    s.waiters
                                },
                                ..s
                            },
                        )
                    }
                },
            },
    {
        match self.find_download(session_id) {
            Some(k) => {
                let ghost before = self@;
                let wait: FinishWait = self.downloads[k].wait_finish();
                proof {
                    assert(self@.downloads =~= before.downloads.update(
                        k as int,
                        self@.downloads[k as int],
                    ));
                    assert(self@.uploads =~= before.uploads);
                    if before.downloads[k as int].phase.is_terminal() {
                        assert(self@.downloads =~= before.downloads);
                    }
                }
                Ok(wait)
            },
            None => Err(ErrorCode::NotFound),
        }
    }

    /// Hands over the content of the chunk that the download session with
    /// the number `session_id` fetched, once.
    pub fn take_chunk_content(&mut self, session_id: &TempSeq) -> (r: Option<Vec<u8>>)
        requires
            old(self).wf(),
        ensures
            final(self).wf(),
            match old(self)@.find_download(*session_id) {
                None => r is None && final(self)@ == old(self)@,
                Some(k) => {
                    let s = old(self)@.downloads[k];
                    view_opt(r) == s.content && final(self)@ == old(self)@.with_download(
                        k,
                        DownloadSessionView { content: None, ..s },
                    )
                },
            },
    {
        match self.find_download(session_id) {
            Some(k) => {
                let ghost before = self@;
                let content: Option<Vec<u8>> = self.downloads[k].take_chunk_content();
                proof {
                    assert(self@.downloads =~= before.downloads.update(
                        k as int,
                        self@.downloads[k as int],
                    ));
                    assert(self@.uploads =~= before.uploads);
                }
                content
            },
            None => None,
        }
    }

    /// Takes the other peer's answer to an `Interest`: hands it to the
    /// download session it belongs to, and returns those to wake.
    pub fn on_resp_interest(&mut self, resp_interest: &RespInterest) -> (out: ChannelOutput)
        requires
            old(self).wf(),
        ensures
            final(self).wf(),
            Self::resp_interest_handled(old(self)@, final(self)@, resp_interest, out),
    {
        let mut out = ChannelOutput::none();
        match self.find_download(&resp_interest.session_id) {
            Some(k) => {
                let ghost before = self@;
                let count: usize = self.downloads[k].on_resp_interest(resp_interest);
                proof {
                    assert(self@.downloads =~= before.downloads.update(
                        k as int,
                        self@.downloads[k as int],
                    ));
                    assert(self@.uploads =~= before.uploads);
                    if resp_interest.err == ErrorCode::Success {
                        assert(self@.downloads =~= before.downloads);
                    }
                }
                if count > 0 {
                    out.wake = Some(SessionWake { session_id: resp_interest.session_id, count });
                }
                out
            },
            None => out,
        }
    }

    /// Takes an `Interest` that came at `now`. Where the channel has the
    /// upload session it names, the session takes it, and its answer, where
    /// it has one, is returned to be sent. Where the channel has no such
    /// session, the `Interest` is handed back: the caller is to begin an
    /// upload session for it or to refuse it.
    pub fn on_interest(&mut self, interest: Interest, now: Timestamp) -> (out: ChannelOutput)
        requires
            old(self).wf(),
        ensures
            final(self).wf(),
            Self::interest_handled(old(self)@, final(self)@, interest, now, out),
    {
        let mut out = ChannelOutput::none();
        match self.find_upload(&interest.session_id) {
            Some(k) => {
                let ghost before = self@;
                let ghost before_uploads = self.uploads@;
                out.resp_interest = self.uploads[k].on_interest(&interest, now);
                proof {
                    self.uploads@[k as int].lemma_wf_view();
                    assert(self@.downloads =~= before.downloads);
                    assert forall|m: int| 0 <= m < self.uploads@.len() implies (
                    #[trigger] self.uploads@[m]).wf() && self@.uploads[m].wf()
                        && self@.uploads[m].session_id == before.uploads[m].session_id by {
                        if m != k {
                            assert(self.uploads@[m] == before_uploads[m]);
                            before_uploads[m].lemma_wf_view();
                        }
                    }
                    assert(self@.uploads =~= before.uploads.update(
                        k as int,
                        self@.uploads[k as int],
                    ));
                }
                out
            },
            None => {
                out.need_upload = Some(interest);
                out
            },
        }
    }

    /// Begins an upload session for `interest`, which came at `now`, with
    /// `encoder` to send the chunk it asks for. `ErrorState`, and nothing
    /// changes, where the channel has an upload session under that number
    /// already.
    pub fn upload(&mut self, interest: &Interest, encoder: StreamEncoder, now: Timestamp) -> (r:
        Result<(), ErrorCode>)
        requires
            old(self).wf(),
            encoder.wf(),
            encoder@.chunk == interest@.chunk,
        ensures
            final(self).wf(),
            r is Ok <==> old(self)@.find_upload(interest.session_id) is None,
            r matches Err(e) ==> e == ErrorCode::ErrorState && final(self)@ == old(self)@,
            r is Ok ==> {
                let n = old(self)@.uploads.len() as int;
                &&& final(self)@.downloads == old(self)@.downloads
                &&& final(self)@.uploads.len() == n + 1
                &&& forall|m: int|
                    0 <= m < n ==> (#[trigger] final(self)@.uploads[m]) == old(self)@.uploads[m]
                &&& final(self)@.uploads[n].session_id == interest.session_id
                &&& final(self)@.uploads[n].chunk == interest@.chunk
                &&& final(self)@.uploads[n].phase is Uploading
                &&& final(self)@.uploads[n].interested
                &&& final(self)@.uploads[n].last_active == now
                &&& final(self)@ == (ChannelView {
                    uploads: old(self)@.uploads.push(final(self)@.uploads[n]),
                    ..old(self)@
                })
                &&& UploadSessionView::interest_taken(
                    UploadSessionView::fresh(
                        interest@.chunk,
                        interest.session_id,
                        interest.prefer_type,
                        old(self)@.config,
                        encoder@,
                    ),
                    final(self)@.uploads[n],
                    now,
                    None,
                )
            },
    {
        if self.find_upload(&interest.session_id).is_some() {
            return Err(ErrorCode::ErrorState);
        }
        let ghost before = self@;
        let mut session = UploadSession::new(
            interest.chunk,
            interest.session_id,
            interest.prefer_type,
            encoder,
            self.config,
        );
        let _ = session.on_interest(interest, now);
        proof {
            session.lemma_wf_view();
        }
        self.uploads.push(session);
        proof {
            assert(self@.downloads =~= before.downloads);
            assert forall|m: int| 0 <= m < before.uploads.len() implies (
            #[trigger] self@.uploads[m]) == before.uploads[m] by {}
            assert(self@.uploads =~= before.uploads.push(
                self@.uploads[before.uploads.len() as int],
            ));
        }
        Ok(())
    }

    /// The answer that refuses `interest` for `err`.
    pub fn refuse(interest: &Interest, err: ErrorCode) -> (r: RespInterest)
        ensures
            r@ == ChannelView::refusal(interest@, err),
    {
        RespInterest {
            session_id: interest.session_id,
            chunk: interest.chunk,
            err,
            redirect: None,
            redirect_referer: None,
            cache_node: None,
        }
    }

    /// Takes a command that came at `now`: hands it to the upload session
    /// it belongs to, and returns the session's answer, where it has one,
    /// to be sent.
    pub fn on_piece_control(&mut self, ctrl: &PieceControl, now: Timestamp) -> (out: ChannelOutput)
        requires
            old(self).wf(),
        ensures
            final(self).wf(),
            Self::piece_control_handled(old(self)@, final(self)@, ctrl, now, out),
    {
        let mut out = ChannelOutput::none();
        match self.find_upload(&ctrl.session_id) {
            Some(k) => {
                let ghost before = self@;
                let ghost before_uploads = self.uploads@;
                out.resp_interest = self.uploads[k].on_piece_control(ctrl, now);
                proof {
                    self.uploads@[k as int].lemma_wf_view();
                    assert(self@.downloads =~= before.downloads);
                    assert forall|m: int| 0 <= m < self.uploads@.len() implies (
                    #[trigger] self.uploads@[m]).wf() && self@.uploads[m].wf()
                        && self@.uploads[m].session_id == before.uploads[m].session_id by {
                        if m != k {
                            assert(self.uploads@[m] == before_uploads[m]);
                            before_uploads[m].lemma_wf_view();
                        }
                    }
                    assert(self@.uploads =~= before.uploads.update(
                        k as int,
                        self@.uploads[k as int],
                    ));
                }
                out
            },
            None => out,
        }
    }

    /// Sends the next piece of the upload session that stands at `k`, at
    /// `now`: as `next_piece` of that session does.
    pub fn next_piece_of(&mut self, k: usize, buf: &mut [u8], now: Timestamp) -> (r: Result<
        usize,
        ErrorCode,
    >)
        requires
            old(self).wf(),
            k < old(self)@.uploads.len(),
        ensures
            final(self).wf(),
            final(self)@ == old(self)@.with_upload(k as int, final(self)@.uploads[k as int]),
            UploadSessionView::piece_sent(
                old(self)@.uploads[k as int],
                final(self)@.uploads[k as int],
                old(buf)@,
                final(buf)@,
                now,
                r,
            ),
    {
        let ghost before = self@;
        let ghost before_uploads = self.uploads@;
        let r = self.uploads[k].next_piece(buf, now);
        proof {
            self.uploads@[k as int].lemma_wf_view();
            assert(self@.downloads =~= before.downloads);
            assert forall|m: int| 0 <= m < self.uploads@.len() implies (
            #[trigger] self.uploads@[m]).wf() && self@.uploads[m].wf()
                && self@.uploads[m].session_id == before.uploads[m].session_id by {
                if m != k {
                    assert(self.uploads@[m] == before_uploads[m]);
                    before_uploads[m].lemma_wf_view();
                }
            }
            assert(self@.uploads =~= before.uploads.update(k as int, self@.uploads[k as int]));
        }
        r
    }

    /// Reads the clock at `now` for the download session that stands at
    /// `k`, and returns what is to be done: as `on_time_escape` of that
    /// session does, with the command the session wants sent under the next
    /// number.
    pub fn tick_download(&mut self, k: usize, now: Timestamp) -> (r: (
        Result<(), ErrorCode>,
        ChannelOutput,
    ))
        requires
            old(self).wf(),
            k < old(self)@.downloads.len(),
        ensures
            final(self).wf(),
            ({
                let s = old(self)@.downloads[k as int];
                let ticked = old(self)@.with_download(k as int, s.ticked(now));
                &&& r.0 is Err <==> s.times_out(now)
                &&& r.0 matches Err(e) ==> e == ErrorCode::Timeout
                &&& r.1.resp_interest is None && r.1.estimate is None && r.1.need_upload is None
                &&& r.1.wake == (if s.times_out(now) && s.waiters > 0 {
                    Some(SessionWake { session_id: s.session_id, count: s.waiters as usize })
                } else {
                    None
                })
                &&& r.1.interest is Some <==> s.resends(now)
                &&& r.1.interest matches Some(i) ==> i@ == s.interest()
                &&& final(self)@ == (if s.reports(now) {
                    ticked.numbered()
                } else {
                    ticked
                })
                &&& r.1.control is Some <==> s.reports(now) && old(self)@.command_seq < u32::MAX
                &&& r.1.control matches Some(c) ==> ChannelView::is_report(
                    c@,
                    final(self)@.command_seq,
                    s,
                )
            }),
    {
        let ghost before = self@;
        let (result, session_out) = self.downloads[k].on_time_escape(now);
        proof {
            assert(self@.downloads =~= before.downloads.update(
                k as int,
                before.downloads[k as int].ticked(now),
            ));
            assert(self@.uploads =~= before.uploads);
        }
        let mut out = ChannelOutput::none();
        out.interest = session_out.interest;
        if session_out.wake > 0 {
            out.wake = Some(
                SessionWake {
                    session_id: *self.downloads[k].session_id(),
                    count: session_out.wake,
                },
            );
        }
        if let Some(request) = session_out.control {
            let session_id: TempSeq = *self.downloads[k].session_id();
            let chunk: ChunkId = *self.downloads[k].chunk();
            out.control = self.stamp(session_id, chunk, request);
        }
        (result, out)
    }

    /// Reads the clock at `now` for the upload session that stands at `k`:
    /// as `on_time_escape` of that session does. Returns the state of the
    /// session where it is kept, and nothing where it may be let go.
    pub fn tick_upload(&mut self, k: usize, now: Timestamp) -> (r: Option<UploadTaskState>)
        requires
            old(self).wf(),
            k < old(self)@.uploads.len(),
        ensures
            final(self).wf(),
            ({
                let s = old(self)@.uploads[k as int];
                &&& final(self)@ == old(self)@.with_upload(
                    k as int,
                    if s.times_out(now) {
                        s.canceled(ErrorCode::Timeout)
                    } else {
                        s
                    },
                )
                &&& r is Some <==> s.kept(now)
                &&& r matches Some(state) ==> state == final(self)@.uploads[k as int].phase.seen()
            }),
    {
        let ghost before = self@;
        let ghost before_uploads = self.uploads@;
        let r = self.uploads[k].on_time_escape(now);
        proof {
            self.uploads@[k as int].lemma_wf_view();
            assert(self@.downloads =~= before.downloads);
            assert forall|m: int| 0 <= m < self.uploads@.len() implies (
            #[trigger] self.uploads@[m]).wf() && self@.uploads[m].wf()
                && self@.uploads[m].session_id == before.uploads[m].session_id by {
                if m != k {
                    assert(self.uploads@[m] == before_uploads[m]);
                    before_uploads[m].lemma_wf_view();
                }
            }
            assert(self@.uploads =~= before.uploads.update(k as int, self@.uploads[k as int]));
        }
        r
    }

    /// Lets the upload session go that stands at `k`; those behind it move
    /// up.
    pub fn remove_upload(&mut self, k: usize)
        requires
            old(self).wf(),
            k < old(self)@.uploads.len(),
        ensures
            final(self).wf(),
            final(self)@ == (ChannelView {
                uploads: old(self)@.uploads.remove(k as int),
                ..old(self)@
            }),
    {
        let ghost before = self@;
        let _ = self.uploads.remove(k);
        proof {
            assert(self@.downloads =~= before.downloads);
            assert(self@.uploads =~= before.uploads.remove(k as int));
        }
    }

    /// Lets the download session go that stands at `k`, which has ended;
    /// those behind it move up.
    pub fn remove_download(&mut self, k: usize) -> (r: Result<(), ErrorCode>)
        requires
            old(self).wf(),
            k < old(self)@.downloads.len(),
        ensures
            final(self).wf(),
            r is Ok <==> old(self)@.downloads[k as int].phase.is_terminal(),
            r is Ok ==> final(self)@ == (ChannelView {
                downloads: old(self)@.downloads.remove(k as int),
                ..old(self)@
            }),
            r matches Err(e) ==> e == ErrorCode::ErrorState && final(self)@ == old(self)@,
    {
        match self.downloads[k].phase() {
            Phase::Finished { .. } => {},
            Phase::Canceled { .. } => {},
            _ => {
                return Err(ErrorCode::ErrorState);
            },
        }
        let ghost before = self@;
        let _ = self.downloads.remove(k);
        proof {
            assert(self@.uploads =~= before.uploads);
            assert(self@.downloads =~= before.downloads.remove(k as int));
        }
        Ok(())
    }
}

impl Channel {
    /// Takes in a message that came at `now`: hands it to the session it
    /// belongs to, as the function for its kind does, and returns what is
    /// to be done. A `ChannelEstimate` changes nothing and wants nothing
    /// done.
    pub fn dispatch(&mut self, packet: Packet, now: Timestamp) -> (out: ChannelOutput)
        requires
            old(self).wf(),
        ensures
            final(self).wf(),
            match packet {
                Packet::Interest(m) => Self::interest_handled(
                    old(self)@,
                    final(self)@,
                    m,
                    now,
                    out,
                ),
                Packet::RespInterest(m) => Self::resp_interest_handled(
                    old(self)@,
                    final(self)@,
                    &m,
                    out,
                ),
                Packet::PieceData(m) => Self::piece_data_handled(
                    old(self)@,
                    final(self)@,
                    &m,
                    now,
                    out,
                ),
                Packet::PieceControl(m) => Self::piece_control_handled(
                    old(self)@,
                    final(self)@,
                    &m,
                    now,
                    out,
                ),
                Packet::ChannelEstimate(_) => final(self)@ == old(self)@ && out.is_none(),
            },
    {
        match packet {
            Packet::Interest(m) => self.on_interest(m, now),
            Packet::RespInterest(m) => self.on_resp_interest(&m),
            Packet::PieceData(m) => self.on_piece_data(&m, now),
            Packet::PieceControl(m) => self.on_piece_control(&m, now),
            Packet::ChannelEstimate(_) => ChannelOutput::none(),
        }
    }

    /// Reads the clock at `now` for every session, the download sessions
    /// first and in their order, then the upload sessions, and returns what
    /// each download session wants done, in their order. Upload sessions
    /// that may be let go are let go.
    pub fn on_time_escape(&mut self, now: Timestamp) -> (out: Vec<ChannelOutput>)
        requires
            old(self).wf(),
        ensures
            final(self).wf(),
            out@.len() == old(self)@.downloads.len(),
            final(self)@.downloads.len() == old(self)@.downloads.len(),
            final(self)@.command_seq >= old(self)@.command_seq,
            forall|k: int|
                0 <= k < out@.len() ==> {
                    let s = old(self)@.downloads[k];
                    &&& (#[trigger] final(self)@.downloads[k]) == s.ticked(now)
                    &&& out@[k].interest is Some <==> s.resends(now)
                    &&& out@[k].interest matches Some(i) ==> i@ == s.interest()
                    &&& out@[k].wake == (if s.times_out(now) && s.waiters > 0 {
                        Some(SessionWake { session_id: s.session_id, count: s.waiters as usize })
                    } else {
                        None
                    })
                    &&& out@[k].control is Some ==> s.reports(now)
                    &&& out@[k].control matches Some(c) ==> old(self)@.command_seq < c.sequence.0
                        <= final(self)@.command_seq && ChannelView::is_report(c@, c.sequence.0, s)
                },
            forall|k: int, m: int|
                0 <= k < m < out@.len() && out@[k].control is Some && out@[m].control is Some ==> (
                #[trigger] out@[k]).control->0.sequence.0
                    < (#[trigger] out@[m]).control->0.sequence.0,
            final(self)@ == (ChannelView {
                command_seq: old(self)@.seq_after(now, old(self)@.downloads.len() as int),
                downloads: final(self)@.downloads,
                uploads: swept(old(self)@.uploads, now),
                ..old(self)@
            }),
            forall|k: int|
                0 <= k < out@.len() ==> {
                    let s = old(self)@.downloads[k];
                    &&& (#[trigger] out@[k]).resp_interest is None && out@[k].estimate is None
                        && out@[k].need_upload is None
                    &&& out@[k].control is Some <==> s.reports(now) && old(self)@.seq_after(now, k)
                        < u32::MAX
                    &&& out@[k].control is Some ==> out@[k].control->0.sequence == TempSeq(
                        old(self)@.seq_after(now, k + 1),
                    )
                },
    {
        let mut out: Vec<ChannelOutput> = Vec::new();
        let n: usize = self.downloads.len();
        let mut k: usize = 0;
        while k < n
            invariant
                self.wf(),
                n == old(self)@.downloads.len(),
                self@.downloads.len() == n,
                k <= n,
                out@.len() == k,
                self@.command_seq >= old(self)@.command_seq,
                self@.uploads == old(self)@.uploads,
                old(self)@.reports_before(now, k as int) >= 0,
                self@ == (ChannelView {
                    command_seq: old(self)@.seq_after(now, k as int),
                    downloads: self@.downloads,
                    ..old(self)@
                }),
                forall|j: int|
                    0 <= j < k ==> {
                        let s = old(self)@.downloads[j];
                        &&& (#[trigger] out@[j]).resp_interest is None && out@[j].estimate is None
                            && out@[j].need_upload is None
                        &&& out@[j].control is Some <==> s.reports(now) && old(self)@.seq_after(
                            now,
                            j,
                        ) < u32::MAX
                        &&& out@[j].control is Some ==> out@[j].control->0.sequence == TempSeq(
                            old(self)@.seq_after(now, j + 1),
                        )
                    },
                forall|m: int| k <= m < n ==> (#[trigger] self@.downloads[m])
                    == old(self)@.downloads[m],
                forall|j: int|
                    0 <= j < k ==> {
                        let s = old(self)@.downloads[j];
                        &&& (#[trigger] self@.downloads[j]) == s.ticked(now)
                        &&& out@[j].interest is Some <==> s.resends(now)
                        &&& out@[j].interest matches Some(i) ==> i@ == s.interest()
                        &&& out@[j].wake == (if s.times_out(now) && s.waiters > 0 {
                            Some(
                                SessionWake { session_id: s.session_id, count: s.waiters as usize },
                            )
                        } else {
                            None
                        })
                        &&& out@[j].control is Some ==> s.reports(now)
                        &&& out@[j].control matches Some(c) ==> old(self)@.command_seq
                            < c.sequence.0 <= self@.command_seq && ChannelView::is_report(
                            c@,
                            c.sequence.0,
                            s,
                        )
                    },
                forall|j: int, m: int|
                    0 <= j < m < k && out@[j].control is Some && out@[m].control is Some ==> (
                    #[trigger] out@[j]).control->0.sequence.0 < (
                    #[trigger] out@[m]).control->0.sequence.0,
            decreases n - k,
        {
            let ghost before = self@;
            let ghost done = out@;
            let (_, o) = self.tick_download(k, now);
            out.push(o);
            proof {
                assert forall|j: int| 0 <= j < k implies out@[j] == done[j] by {}
                assert(out@[k as int] == o);
                assert(before.downloads[k as int] == old(self)@.downloads[k as int]);
                assert(self@.command_seq == old(self)@.seq_after(now, k + 1));
                assert(o.control is Some ==> o.control->0@.sequence == TempSeq(
                    self@.command_seq,
                ));
                assert forall|j: int, m: int|
                    0 <= j < m < k + 1 && out@[j].control is Some && out@[m].control
                        is Some implies (#[trigger] out@[j]).control->0.sequence.0 < (
                #[trigger] out@[m]).control->0.sequence.0 by {
                    assert(out@[j] == done[j]);
                    if m == k {
                        assert(before.downloads[j] == old(self)@.downloads[j].ticked(now));
                        assert(done[j].control->0.sequence.0 <= before.command_seq);
                        assert(o.control->0@.sequence == TempSeq(self@.command_seq));
                    } else {
                        assert(out@[m] == done[m]);
                    }
                }
                assert forall|m: int| k + 1 <= m < n implies (#[trigger] self@.downloads[m])
                    == old(self)@.downloads[m] by {
                    assert(self@.downloads[m] == before.downloads[m]);
                }
                assert forall|j: int| 0 <= j < k implies (#[trigger] self@.downloads[j])
                    == old(self)@.downloads[j].ticked(now) by {
                    assert(self@.downloads[j] == before.downloads[j]);
                }
            }
            k += 1;
        }
        let ghost mid = self@;
        let ghost mut done: int = 0;
        let mut j: usize = 0;
        proof {
            assert(mid.uploads.take(0) =~= Seq::<UploadSessionView>::empty());
            assert(self@.uploads =~= swept(mid.uploads.take(0), now) + mid.uploads.skip(0));
        }
        while j < self.uploads.len()
            invariant
                self.wf(),
                0 <= done <= mid.uploads.len(),
                j == swept(mid.uploads.take(done), now).len(),
                self@ == (ChannelView {
                    uploads: swept(mid.uploads.take(done), now) + mid.uploads.skip(done),
                    ..mid
                }),
            decreases mid.uploads.len() - done,
        {
            let ghost before = self@;
            let ghost front = swept(mid.uploads.take(done), now);
            proof {
                assert(before.uploads[j as int] == mid.uploads.skip(done)[0]);
                assert(before.uploads[j as int] == mid.uploads[done]);
            }
            let kept: Option<UploadTaskState> = self.tick_upload(j, now);
            let ghost ticked = self@.uploads[j as int];
            if kept.is_none() {
                self.remove_upload(j);
            } else {
                j += 1;
            }
            proof {
                let next = mid.uploads.take(done + 1);
                assert(next.drop_last() =~= mid.uploads.take(done));
                assert(next.last() == mid.uploads[done]);
                if kept is Some {
                    assert(swept(next, now) == front.push(ticked));
                } else {
                    assert(swept(next, now) == front);
                }
                assert(self@.uploads =~= swept(next, now) + mid.uploads.skip(done + 1));
                done = done + 1;
            }
        }
        proof {
            assert(self@.uploads.len() == self.uploads@.len());
            assert(self@.uploads.len() == j + (mid.uploads.len() - done));
            assert(done == mid.uploads.len());
            assert(mid.uploads.take(done) =~= mid.uploads);
            assert(self@.uploads =~= swept(mid.uploads, now));
        }
        out
    }
}

impl Channel {
    /// Gives every session on the channel up for `err`, as when the
    /// transport to the other peer fails: every download session and every
    /// upload session is canceled for it as `cancel_by_error` of the
    /// session does, and the other peer is taken to be gone. Returns those
    /// to wake, in the order of their sessions.
    pub fn cancel_by_error(&mut self, err: ErrorCode) -> (wake: Vec<SessionWake>)
        requires
            old(self).wf(),
        ensures
            final(self).wf(),
            final(self)@.dead,
            final(self)@.remote == old(self)@.remote,
            final(self)@.config == old(self)@.config,
            final(self)@.command_seq == old(self)@.command_seq,
            final(self)@.next_session == old(self)@.next_session,
            final(self)@.recved == old(self)@.recved,
            final(self)@.downloads.len() == old(self)@.downloads.len(),
            forall|k: int|
                0 <= k < old(self)@.downloads.len() ==> (#[trigger] final(self)@.downloads[k])
                    == old(self)@.downloads[k].canceled(err),
            final(self)@.uploads.len() == old(self)@.uploads.len(),
            forall|k: int|
                0 <= k < old(self)@.uploads.len() ==> (#[trigger] final(self)@.uploads[k])
                    == old(self)@.uploads[k].canceled(err),
            forall|i: int| 0 <= i < wake@.len() ==> old(self)@.waited(#[trigger] wake@[i]),
            wake@ == wakes_of(old(self)@.downloads),
    {
        let mut wake: Vec<SessionWake> = Vec::new();
        self.dead = true;
        let n: usize = self.downloads.len();
        let mut k: usize = 0;
        while k < n
            invariant
                self.wf(),
                n == old(self)@.downloads.len(),
                self@.downloads.len() == n,
                k <= n,
                self@.dead,
                self@.remote == old(self)@.remote,
                self@.config == old(self)@.config,
                self@.command_seq == old(self)@.command_seq,
                self@.next_session == old(self)@.next_session,
                self@.recved == old(self)@.recved,
                self@.uploads == old(self)@.uploads,
                forall|m: int| k <= m < n ==> (#[trigger] self@.downloads[m])
                    == old(self)@.downloads[m],
                forall|m: int|
                    0 <= m < k ==> (#[trigger] self@.downloads[m])
                        == old(self)@.downloads[m].canceled(
                        err,
                    ),
                forall|i: int| 0 <= i < wake@.len() ==> old(self)@.waited(#[trigger] wake@[i]),
                wake@ == wakes_of(old(self)@.downloads.take(k as int)),
            decreases n - k,
        {
            let ghost before = self@;
            let ghost woken = wake@;
            let id: TempSeq = *self.downloads[k].session_id();
            let count: usize = self.downloads[k].cancel_by_error(err);
            proof {
                assert(self@.downloads =~= before.downloads.update(
                    k as int,
                    before.downloads[k as int].canceled(err),
                ));
                assert(self@.uploads =~= before.uploads);
                assert(before.downloads[k as int] == old(self)@.downloads[k as int]);
            }
            if count > 0 {
                wake.push(SessionWake { session_id: id, count });
                proof {
                    assert forall|i: int| 0 <= i < wake@.len() implies old(self)@.waited(
                        #[trigger] wake@[i],
                    ) by {
                        if i < woken.len() {
                            assert(wake@[i] == woken[i]);
                        } else {
                            assert(!old(self)@.downloads[k as int].phase.is_terminal());
                            assert(old(self)@.downloads[k as int].waiters == count);
                        }
                    }
                }
            }
            proof {
                let next = old(self)@.downloads.take(k + 1);
                assert(next.drop_last() =~= old(self)@.downloads.take(k as int));
                assert(next.last() == old(self)@.downloads[k as int]);
                assert(wake@ == wakes_of(next));
            }
            proof {
                assert forall|m: int| 0 <= m < k + 1 implies (#[trigger] self@.downloads[m])
                    == old(self)@.downloads[m].canceled(err) by {
                    if m < k {
                        assert(self@.downloads[m] == before.downloads[m]);
                    }
                }
                assert forall|m: int| k + 1 <= m < n implies (#[trigger] self@.downloads[m])
                    == old(self)@.downloads[m] by {
                    assert(self@.downloads[m] == before.downloads[m]);
                }
            }
            k += 1;
        }
        assert(old(self)@.downloads.take(n as int) =~= old(self)@.downloads);
        let u: usize = self.uploads.len();
        let mut j: usize = 0;
        while j < u
            invariant
                self.wf(),
                u == old(self)@.uploads.len(),
                self@.uploads.len() == u,
                j <= u,
                self@.dead,
                self@.remote == old(self)@.remote,
                self@.config == old(self)@.config,
                self@.command_seq == old(self)@.command_seq,
                self@.next_session == old(self)@.next_session,
                self@.recved == old(self)@.recved,
                self@.downloads.len() == old(self)@.downloads.len(),
                forall|m: int|
                    0 <= m < self@.downloads.len() ==> (#[trigger] self@.downloads[m])
                        == old(self)@.downloads[m].canceled(err),
                forall|i: int| 0 <= i < wake@.len() ==> old(self)@.waited(#[trigger] wake@[i]),
                wake@ == wakes_of(old(self)@.downloads),
                forall|m: int| j <= m < u ==> (#[trigger] self@.uploads[m])
                    == old(self)@.uploads[m],
                forall|m: int|
                    0 <= m < j ==> (#[trigger] self@.uploads[m]) == old(self)@.uploads[m].canceled(
                        err,
                    ),
            decreases u - j,
        {
            let ghost before = self@;
            let ghost before_uploads = self.uploads@;
            self.uploads[j].cancel_by_error(err);
            proof {
                self.uploads@[j as int].lemma_wf_view();
                assert(self@.downloads =~= before.downloads);
                assert forall|m: int| 0 <= m < self.uploads@.len() implies (
                #[trigger] self.uploads@[m]).wf() && self@.uploads[m].wf()
                    && self@.uploads[m].session_id == before.uploads[m].session_id by {
                    if m != j {
                        assert(self.uploads@[m] == before_uploads[m]);
                        before_uploads[m].lemma_wf_view();
                    }
                }
                assert forall|m: int| 0 <= m < j + 1 implies (#[trigger] self@.uploads[m])
                    == old(self)@.uploads[m].canceled(err) by {
                    if m < j {
                        assert(self@.uploads[m] == before.uploads[m]);
                    } else {
                        assert(before.uploads[m] == old(self)@.uploads[m]);
                    }
                }
                assert forall|m: int| j + 1 <= m < u implies (#[trigger] self@.uploads[m])
                    == old(self)@.uploads[m] by {
                    assert(self@.uploads[m] == before.uploads[m]);
                }
            }
            j += 1;
        }
        wake
    }
}

} // verus!
