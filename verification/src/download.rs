//! One attempt to fetch a chunk from one peer.
//!
//! A session starts in `Init`, asks for the chunk and is `Interesting` until
//! the first piece comes, gathers pieces while `Downloading`, and ends
//! `Finished` or `Canceled`. It never sends anything itself: what is to be
//! sent, and who is to be woken, it hands to its caller.

use vstd::prelude::*;
use std::ops::Range;
use crate::encode::StreamDecoder;
use crate::encode::StreamDecoderView;
use crate::error::ErrorCode;
use crate::protocol::Interest;
use crate::protocol::InterestView;
use crate::protocol::PieceControlCommand;
use crate::protocol::PieceData;
use crate::protocol::PieceDataView;
use crate::protocol::RespInterest;
use crate::raw::view_opt;
use crate::speed::HistorySpeed;
use crate::speed::HistorySpeedView;
use crate::speed::SpeedCounter;
use crate::stream::covered;
use crate::stream::runs;
use crate::stream::StreamCacheView;
use crate::types::elapsed;
use crate::types::has_elapsed;
use crate::types::ChannelConfig;
use crate::types::ChunkId;
use crate::types::ChunkIdView;
use crate::types::PieceSessionType;
use crate::types::TempSeq;
use crate::types::Timestamp;

verus! {

// ---- what others see --------------------------------------------------------

/// The state of a download session as others see it.
#[derive(Clone, Copy, Debug, PartialEq, Eq, Structural)]
pub enum DownloadSessionState {
    Downloading(u32),
    Finished,
    Canceled(ErrorCode),
}

/// What one who waits for a session to end is told.
#[derive(Clone, Copy, Debug, PartialEq, Eq, Structural)]
pub enum FinishWait {
    /// The session has not ended; the one who asked will be woken when it
    /// does.
    Wait,
    /// The session has ended, this way.
    Return(DownloadSessionState),
}

/// A command a session wants sent to the uploader, with what it reports.
#[derive(Debug)]
pub struct ControlRequest {
    pub command: PieceControlCommand,
    pub max_index: Option<u32>,
    pub lost_index: Option<Vec<Range<u32>>>,
}

/// What a session wants done after it was told something.
#[derive(Debug)]
pub struct DownloadOutput {
    /// An `Interest` to send.
    pub interest: Option<Interest>,
    /// A command to send.
    pub control: Option<ControlRequest>,
    /// The number of those to wake who waited for the session to end.
    pub wake: usize,
}

// ---- the states -------------------------------------------------------------

/// The states of a download session, with what each holds.
#[derive(Clone, Copy, Debug, PartialEq, Eq, Structural)]
pub enum Phase {
    /// Made, and nothing sent yet.
    Init,
    /// The chunk was asked for, first at `start_send_time` and last at
    /// `last_send_time`, and no piece has come.
    Interesting { start_send_time: Timestamp, last_send_time: Timestamp },
    /// Pieces are coming.
    Downloading { speed_counter: SpeedCounter },
    /// The chunk is whole. The uploader was last told so at `send_ctrl_time`.
    Finished { send_ctrl_time: Timestamp },
    /// The session was given up for `err`. The uploader was last told so at
    /// `send_ctrl_time`.
    Canceled { send_ctrl_time: Timestamp, err: ErrorCode },
}

impl Phase {
    /// Whether the session has ended.
    pub open spec fn is_terminal(self) -> bool {
        self is Finished || self is Canceled
    }

    /// How far along a state is: `Init`, `Interesting`, `Downloading`, ended.
    pub open spec fn rank(self) -> int {
        match self {
            Phase::Init => 0,
            Phase::Interesting { .. } => 1,
            Phase::Downloading { .. } => 2,
            Phase::Finished { .. } => 3,
            Phase::Canceled { .. } => 3,
        }
    }

    /// Whether `next` may come after `self`: a session never goes back, and
    /// one that has ended stays ended the way it did.
    pub open spec fn follows(self, next: Phase) -> bool {
        &&& self.rank() <= next.rank()
        &&& self is Finished ==> next is Finished
        &&& self matches Phase::Canceled { err, .. } ==> next matches Phase::Canceled {
            err: e,
            ..
        } && e == err
    }

    /// What others see of the state.
    pub open spec fn seen(self) -> DownloadSessionState {
        match self {
            Phase::Finished { .. } => DownloadSessionState::Finished,
            Phase::Canceled { err, .. } => DownloadSessionState::Canceled(err),
            _ => DownloadSessionState::Downloading(0),
        }
    }

    /// Going on from state to state never leads back.
    pub proof fn lemma_follows_transitive(a: Phase, b: Phase, c: Phase)
        requires
            a.follows(b),
            b.follows(c),
        ensures
            a.follows(c),
            a.follows(a),
    {
    }
}

/// Whether a command reports what a decoder misses: it says to go on, with
/// the greatest index seen, and with the runs of missing pieces where any
/// are missing.
pub open spec fn is_loss_report(c: ControlRequest, d: StreamDecoderView) -> bool {
    &&& c.command == PieceControlCommand::Continue
    &&& c.max_index == d.max_index
    &&& match c.lost_index {
        Some(l) => l@.len() > 0 && runs(l@) && forall|i: int| covered(l@, i) <==> d.lost(i),
        None => forall|i: int| !d.lost(i),
    }
}

/// Whether a command is `command` and reports nothing.
pub open spec fn is_plain_command(c: ControlRequest, command: PieceControlCommand) -> bool {
    c.command == command && c.max_index is None && c.lost_index is None
}

// ---- the session as plain values --------------------------------------------

/// A download session as plain values.
pub ghost struct DownloadSessionView {
    pub chunk: ChunkIdView,
    pub session_id: TempSeq,
    pub prefer_type: PieceSessionType,
    pub referer: Option<Seq<char>>,
    pub config: ChannelConfig,
    /// The number of those who wait for the session to end.
    pub waiters: nat,
    /// The latest samples of the session's speed.
    pub history: HistorySpeedView,
    pub phase: Phase,
    /// The pieces so far, while `Downloading`.
    pub decoder: Option<StreamDecoderView>,
    /// The content of the chunk, from when the session finished until it is
    /// taken.
    pub content: Option<Seq<u8>>,
}

impl DownloadSessionView {
    /// What always holds of a session: it gathers pieces exactly while
    /// `Downloading`, pieces of its own chunk of which some are missing;
    /// nobody waits for a session that has ended; and only a finished
    /// session has content to hand over.
    pub open spec fn wf(self) -> bool {
        &&& self.chunk.hash.len() == 28
        &&& self.history.wf()
        &&& self.phase is Downloading <==> self.decoder is Some
        &&& self.decoder matches Some(d) ==> d.cache.wf() && d.cache.chunk == self.chunk
            && !d.cache.complete()
        &&& self.phase.is_terminal() ==> self.waiters == 0
        &&& self.content is Some ==> self.phase is Finished
    }

    /// The session with another state and nothing else changed.
    pub open spec fn with_phase(self, phase: Phase) -> DownloadSessionView {
        DownloadSessionView { phase, ..self }
    }

    /// The `Interest` the session asks with.
    pub open spec fn interest(self) -> InterestView {
        InterestView {
            session_id: self.session_id,
            chunk: self.chunk,
            prefer_type: self.prefer_type,
            referer: self.referer,
        }
    }

    /// The session after it was given up for `err`: canceled for it, with
    /// nobody waiting and no pieces, where it had not ended; as it was,
    /// where it had.
    pub open spec fn canceled(self, err: ErrorCode) -> DownloadSessionView {
        if self.phase.is_terminal() {
            self
        } else {
            DownloadSessionView {
                phase: Phase::Canceled { send_ctrl_time: 0, err },
                waiters: 0,
                decoder: None,
                ..self
            }
        }
    }

    /// The session after it was started at `now`.
    pub open spec fn started(self, now: Timestamp) -> DownloadSessionView {
        if self.phase is Init {
            self.with_phase(Phase::Interesting { start_send_time: now, last_send_time: now })
        } else {
            self
        }
    }

    /// The size of the pieces the session expects: the one it asked for, or
    /// the largest a datagram carries where it asked for a plain stream of
    /// no particular size. None where it asked for no plain stream.
    pub open spec fn piece_size(self) -> Option<u16> {
        match self.prefer_type {
            PieceSessionType::Stream(Some(s)) => Some(s),
            PieceSessionType::Stream(None) => Some(PieceData::max_payload_spec() as u16),
            _ => None,
        }
    }

    /// The decoder a session makes at `now` when the first piece comes,
    /// where it can make one.
    pub open spec fn fresh_decoder(self, now: Timestamp) -> Option<StreamDecoderView> {
        match self.piece_size() {
            Some(s) => if s > 0 {
                Some(
                    StreamDecoderView {
                        cache: StreamCacheView::empty(self.chunk, s as nat),
                        max_index: None,
                        last_recv: now,
                        last_ctrl: now,
                    },
                )
            } else {
                None
            },
            None => None,
        }
    }

    /// The session after a piece came at `now` while it gathered pieces
    /// with decoder `d` and counted bytes with `counter`: finished, with
    /// the content of the chunk and nobody waiting, where the piece made
    /// the chunk whole; else still downloading, with the piece taken in
    /// where it was one of the chunk.
    pub open spec fn fed(
        self,
        d: StreamDecoderView,
        counter: SpeedCounter,
        piece: PieceDataView,
        now: Timestamp,
    ) -> DownloadSessionView {
        let after = d.pushed(piece, now);
        if after.cache.complete() {
            DownloadSessionView {
                phase: Phase::Finished { send_ctrl_time: now },
                waiters: 0,
                decoder: None,
                content: Some(after.cache.content()),
                ..self
            }
        } else {
            DownloadSessionView {
                phase: Phase::Downloading { speed_counter: counter },
                decoder: Some(after),
                ..self
            }
        }
    }

    /// The session after a piece came at `now`.
    pub open spec fn pushed(self, piece: PieceDataView, now: Timestamp) -> DownloadSessionView {
        match self.phase {
            Phase::Init => self,
            Phase::Interesting { .. } => match self.fresh_decoder(now) {
                Some(d) => self.fed(
                    d,
                    SpeedCounter { last_recv: piece.data.len() as u64, last_update: now,
                        cur_speed: 0 },
                    piece,
                    now,
                ),
                None => self,
            },
            Phase::Downloading { speed_counter } => self.fed(
                self.decoder->0,
                speed_counter.received(piece.data.len() as usize),
                piece,
                now,
            ),
            Phase::Finished { send_ctrl_time } => if elapsed(
                now,
                send_ctrl_time,
                self.config.resend_interval,
            ) {
                self.with_phase(Phase::Finished { send_ctrl_time: now })
            } else {
                self
            },
            Phase::Canceled { send_ctrl_time, err } => if elapsed(
                now,
                send_ctrl_time,
                self.config.resend_interval,
            ) {
                self.with_phase(Phase::Canceled { send_ctrl_time: now, err })
            } else {
                self
            },
        }
    }

    /// The command the session wants sent after a piece came at `now`:
    /// `Finish` when the piece made the chunk whole; for a piece that came
    /// after the end, the way the session ended, but not more often than
    /// the channel waits before asking again.
    pub open spec fn push_command(self, piece: PieceDataView, now: Timestamp) -> Option<
        PieceControlCommand,
    > {
        match self.phase {
            Phase::Finished { send_ctrl_time } => if elapsed(
                now,
                send_ctrl_time,
                self.config.resend_interval,
            ) {
                Some(PieceControlCommand::Finish)
            } else {
                None
            },
            Phase::Canceled { send_ctrl_time, .. } => if elapsed(
                now,
                send_ctrl_time,
                self.config.resend_interval,
            ) {
                Some(PieceControlCommand::Cancel)
            } else {
                None
            },
            _ => if self.pushed(piece, now).phase is Finished {
                Some(PieceControlCommand::Finish)
            } else {
                None
            },
        }
    }

    /// The number of those the session wants woken after a piece came at
    /// `now`: all who waited, when the piece made the chunk whole.
    pub open spec fn push_wake(self, piece: PieceDataView, now: Timestamp) -> nat {
        if !self.phase.is_terminal() && self.pushed(piece, now).phase is Finished {
            self.waiters
        } else {
            0
        }
    }

    /// Whether the session gives up at `now`: it asked for longer than the
    /// channel goes on asking, or its decoder gives up.
    pub open spec fn times_out(self, now: Timestamp) -> bool {
        match self.phase {
            Phase::Interesting { start_send_time, .. } => elapsed(
                now,
                start_send_time,
                self.config.resend_timeout,
            ),
            Phase::Downloading { .. } => self.decoder->0.gives_up(now, self.config),
            _ => false,
        }
    }

    /// Whether the session asks again at `now`: it does not give up, and it
    /// last asked longer ago than the channel waits before asking again.
    pub open spec fn resends(self, now: Timestamp) -> bool {
        self.phase matches Phase::Interesting { last_send_time, .. } && !self.times_out(now)
            && elapsed(now, last_send_time, self.config.resend_interval)
    }

    /// Whether the session says at `now` what it misses.
    pub open spec fn reports(self, now: Timestamp) -> bool {
        self.phase is Downloading && self.decoder->0.reports(now, self.config)
    }

    /// The session after the clock was read at `now`.
    pub open spec fn ticked(self, now: Timestamp) -> DownloadSessionView {
        if self.times_out(now) {
            self.canceled(ErrorCode::Timeout)
        } else {
            match self.phase {
                Phase::Interesting { start_send_time, last_send_time } => if self.resends(now) {
                    self.with_phase(Phase::Interesting { start_send_time, last_send_time: now })
                } else {
                    self
                },
                Phase::Downloading { .. } => DownloadSessionView {
                    decoder: Some(self.decoder->0.ticked(now, self.config)),
                    ..self
                },
                _ => self,
            }
        }
    }

    /// The speed sampled at `now`: what the counter says while pieces come,
    /// nothing else.
    pub open spec fn sample(self, now: Timestamp) -> u32 {
        match self.phase {
            Phase::Downloading { speed_counter } => speed_counter.speed_at(now),
            _ => 0,
        }
    }

    /// The session after its speed was sampled at `now`.
    pub open spec fn sampled(self, now: Timestamp) -> DownloadSessionView {
        match self.phase {
            Phase::Init => DownloadSessionView { history: self.history.updated(Some(0)), ..self },
            Phase::Interesting { .. } => DownloadSessionView {
                history: self.history.updated(Some(0)),
                ..self
            },
            Phase::Downloading { speed_counter } => DownloadSessionView {
                history: self.history.updated(Some(speed_counter.speed_at(now))),
                phase: Phase::Downloading { speed_counter: speed_counter.sampled(now) },
                ..self
            },
            _ => self,
        }
    }

    /// The latest sample of the speed while pieces come, nothing else.
    pub open spec fn cur_speed(self) -> u32 {
        if self.phase is Downloading {
            self.history.latest()
        } else {
            0
        }
    }

    /// The mean of the latest samples until the session ends, nothing
    /// after.
    pub open spec fn history_speed(self) -> u32 {
        if self.phase.is_terminal() {
            0
        } else {
            self.history.average()
        }
    }
}

// ---- the session --------------------------------------------------------------

/// Counts those who wait for a session to end.
#[derive(Clone, Copy, Debug, PartialEq, Eq, Structural)]
pub struct StateWaiter {
    pub count: usize,
}

impl StateWaiter {
    /// With nobody waiting.
    pub fn new() -> (w: StateWaiter)
        ensures
            w.count == 0,
    {
        Self { count: 0 }
    }

    /// One more waits; the count stops at the most a machine word holds.
    pub fn new_waiter(&mut self)
        ensures
            final(self).count == (if old(self).count < usize::MAX {
                (old(self).count + 1) as usize
            } else {
                old(self).count
            }),
    {
        if self.count < usize::MAX {
            self.count = self.count + 1;
        }
    }

    /// Everyone is woken: returns how many waited, and nobody waits after.
    pub fn wake(&mut self) -> (n: usize)
        ensures
            n == old(self).count,
            final(self).count == 0,
    {
        let n: usize = self.count;
        self.count = 0;
        n
    }
}

/// One attempt to fetch a chunk from one peer.
#[derive(Debug)]
pub struct DownloadSession {
    chunk: ChunkId,
    session_id: TempSeq,
    prefer_type: PieceSessionType,
    referer: Option<String>,
    config: ChannelConfig,
    waiters: StateWaiter,
    history_speed: HistorySpeed,
    phase: Phase,
    decoder: Option<StreamDecoder>,
    content: Option<Vec<u8>>,
}

impl View for DownloadSession {
    type V = DownloadSessionView;

    closed spec fn view(&self) -> DownloadSessionView {
        DownloadSessionView {
            chunk: self.chunk@,
            session_id: self.session_id,
            prefer_type: self.prefer_type,
            referer: view_opt(self.referer),
            config: self.config,
            waiters: self.waiters.count as nat,
            history: self.history_speed@,
            phase: self.phase,
            decoder: view_opt(self.decoder),
            content: view_opt(self.content),
        }
    }
}

impl DownloadOutput {
    /// Nothing to do.
    pub fn none() -> (o: DownloadOutput)
        ensures
            o.interest is None,
            o.control is None,
            o.wake == 0,
    {
        DownloadOutput { interest: None, control: None, wake: 0 }
    }

    /// A command to send that reports nothing, and `wake` to wake.
    fn command(command: PieceControlCommand, wake: usize) -> (o: DownloadOutput)
        ensures
            o.interest is None,
            o.control matches Some(c) && is_plain_command(c, command),
            o.wake == wake,
    {
        DownloadOutput {
            interest: None,
            control: Some(ControlRequest { command, max_index: None, lost_index: None }),
            wake,
        }
    }
}

impl DownloadSession {
    /// What always holds of a session.
    pub open spec fn wf(&self) -> bool {
        self@.wf()
    }

    /// A session in `Init` for `chunk`, under the number `session_id`, that
    /// asks for the encoding `prefer_type` on behalf of `referer`.
    pub fn new(
        chunk: ChunkId,
        session_id: TempSeq,
        prefer_type: PieceSessionType,
        referer: Option<String>,
        config: ChannelConfig,
    ) -> (s: DownloadSession)
        ensures
            s.wf(),
            s@ == (DownloadSessionView {
                chunk: chunk@,
                session_id,
                prefer_type,
                referer: view_opt(referer),
                config,
                waiters: 0,
                history: HistorySpeedView {
                    initial: config.initial_speed,
                    window: config.history_speed as nat,
                    samples: Seq::empty(),
                },
                phase: Phase::Init,
                decoder: None,
                content: None,
            }),
    {
        proof {
            chunk.lemma_view_fits();
        }
        Self {
            chunk,
            session_id,
            prefer_type,
            referer,
            config,
            waiters: StateWaiter::new(),
            history_speed: HistorySpeed::new(config.initial_speed, config.history_speed),
            phase: Phase::Init,
            decoder: None,
            content: None,
        }
    }

    /// A session that was given up for `err` before it began.
    pub fn canceled(chunk: ChunkId, session_id: TempSeq, config: ChannelConfig, err: ErrorCode) -> (
        s:
        DownloadSession)
        ensures
            s.wf(),
            s@ == (DownloadSessionView {
                chunk: chunk@,
                session_id,
                prefer_type: PieceSessionType::Unknown,
                referer: None,
                config,
                waiters: 0,
                history: HistorySpeedView {
                    initial: config.initial_speed,
                    window: config.history_speed as nat,
                    samples: Seq::empty(),
                },
                phase: Phase::Canceled { send_ctrl_time: 0, err },
                decoder: None,
                content: None,
            }),
    {
        proof {
            chunk.lemma_view_fits();
        }
        Self {
            chunk,
            session_id,
            prefer_type: PieceSessionType::Unknown,
            referer: None,
            config,
            waiters: StateWaiter::new(),
            history_speed: HistorySpeed::new(config.initial_speed, config.history_speed),
            phase: Phase::Canceled { send_ctrl_time: 0, err },
            decoder: None,
            content: None,
        }
    }

    pub fn chunk(&self) -> (c: &ChunkId)
        ensures
            c@ == self@.chunk,
    {
        &self.chunk
    }

    pub fn prefer_type(&self) -> (t: &PieceSessionType)
        ensures
            *t == self@.prefer_type,
    {
        &self.prefer_type
    }

    pub fn referer(&self) -> (r: Option<&String>)
        ensures
            r is Some <==> self@.referer is Some,
            r matches Some(s) ==> Some(s@) == self@.referer,
    {
        self.referer.as_ref()
    }

    pub fn session_id(&self) -> (s: &TempSeq)
        ensures
            *s == self@.session_id,
    {
        &self.session_id
    }

    /// The state of the session, with what it holds.
    pub fn phase(&self) -> (p: Phase)
        ensures
            p == self@.phase,
    {
        self.phase
    }

    /// The state of the session as others see it.
    pub fn state(&self) -> (s: DownloadSessionState)
        ensures
            s == self@.phase.seen(),
    {
        match self.phase {
            Phase::Finished { .. } => DownloadSessionState::Finished,
            Phase::Canceled { err, .. } => DownloadSessionState::Canceled(err),
            _ => DownloadSessionState::Downloading(0),
        }
    }

    /// The `Interest` the session asks with.
    fn make_interest(&self) -> (i: Interest)
        ensures
            i@ == self@.interest(),
    {
        let referer: Option<String> = match &self.referer {
            Some(s) => Some(s.clone()),
            None => None,
        };
        Interest {
            session_id: self.session_id,
            chunk: self.chunk,
            prefer_type: self.prefer_type,
            referer,
        }
    }

    /// Starts the session at `now`: a session in `Init` asks for its chunk,
    /// and the `Interest` to send is returned; any other stays as it is and
    /// sends nothing. Returns the state as others see it afterwards.
    pub fn start(&mut self, now: Timestamp) -> (r: (DownloadSessionState, Option<Interest>))
        requires
            old(self).wf(),
        ensures
            final(self).wf(),
            final(self)@ == old(self)@.started(now),
            old(self)@.phase.follows(final(self)@.phase),
            r.0 == final(self)@.phase.seen(),
            r.1 is Some <==> old(self)@.phase is Init,
            r.1 matches Some(i) ==> i@ == old(self)@.interest(),
    {
        match self.phase {
            Phase::Init => {
                self.phase = Phase::Interesting { start_send_time: now, last_send_time: now };
                let interest = self.make_interest();
                (self.state(), Some(interest))
            },
            _ => (self.state(), None),
        }
    }

    /// Asks how the session ended: where it has, that is the answer; where
    /// it has not, the one who asks waits from now on.
    pub fn wait_finish(&mut self) -> (r: FinishWait)
        requires
            old(self).wf(),
        ensures
            final(self).wf(),
            old(self)@.phase.is_terminal() ==> r == FinishWait::Return(old(self)@.phase.seen())
                && final(self)@ == old(self)@,
            !old(self)@.phase.is_terminal() ==> r == FinishWait::Wait && final(self)@ == (
            DownloadSessionView {
                waiters: if old(self)@.waiters < usize::MAX {
                    old(self)@.waiters + 1
                } else {
                    old(self)@.waiters
                },
                ..old(self)@
            }),
    {
        match self.phase {
            Phase::Finished { .. } => FinishWait::Return(DownloadSessionState::Finished),
            Phase::Canceled { err, .. } => FinishWait::Return(DownloadSessionState::Canceled(err)),
            _ => {
                self.waiters.new_waiter();
                FinishWait::Wait
            },
        }
    }

    /// Hands over the content of the chunk, once: a finished session that
    /// still has it gives it away; any other has none to give.
    pub fn take_chunk_content(&mut self) -> (r: Option<Vec<u8>>)
        requires
            old(self).wf(),
        ensures
            final(self).wf(),
            view_opt(r) == old(self)@.content,
            final(self)@ == (DownloadSessionView { content: None, ..old(self)@ }),
    {
        self.content.take()
    }

    /// Gives the session up for `err`: a session that has not ended is
    /// canceled for it, and the number of those to wake, who waited for it
    /// to end, is returned. A session that has ended stays as it is.
    pub fn cancel_by_error(&mut self, err: ErrorCode) -> (wake: usize)
        requires
            old(self).wf(),
        ensures
            final(self).wf(),
            final(self)@ == old(self)@.canceled(err),
            old(self)@.phase.follows(final(self)@.phase),
            wake == (if old(self)@.phase.is_terminal() {
                0
            } else {
                old(self)@.waiters
            }),
    {
        match self.phase {
            Phase::Finished { .. } => 0,
            Phase::Canceled { .. } => 0,
            _ => {
                self.phase = Phase::Canceled { send_ctrl_time: 0, err };
                self.decoder = None;
                self.waiters.wake()
            },
        }
    }

    /// Takes the uploader's answer: a verdict other than `Success` gives
    /// the session up for it, as `cancel_by_error` does; `Success` is no
    /// answer an uploader gives, and changes nothing. Returns the number of
    /// those to wake.
    pub fn on_resp_interest(&mut self, resp_interest: &RespInterest) -> (wake: usize)
        requires
            old(self).wf(),
        ensures
            final(self).wf(),
            old(self)@.phase.follows(final(self)@.phase),
            resp_interest.err == ErrorCode::Success ==> final(self)@ == old(self)@ && wake == 0,
            resp_interest.err != ErrorCode::Success ==> final(self)@ == old(self)@.canceled(
                resp_interest.err,
            ) && wake == (if old(self)@.phase.is_terminal() {
                0
            } else {
                old(self)@.waiters
            }),
    {
        match resp_interest.err {
            ErrorCode::Success => 0,
            err => self.cancel_by_error(err),
        }
    }

    /// Takes a piece that came at `now`, and returns what is to be done:
    /// the command to send where the piece made the chunk whole or came
    /// after the end, and the number of those to wake.
    pub fn push_piece_data(&mut self, piece: &PieceData, now: Timestamp) -> (out: DownloadOutput)
        requires
            old(self).wf(),
        ensures
            final(self).wf(),
            final(self)@ == old(self)@.pushed(piece@, now),
            old(self)@.phase.follows(final(self)@.phase),
            out.interest is None,
            out.wake == old(self)@.push_wake(piece@, now),
            match old(self)@.push_command(piece@, now) {
                Some(command) => out.control matches Some(c) && is_plain_command(c, command),
                None => out.control is None,
            },
    {
        match self.phase {
            Phase::Init => DownloadOutput::none(),
            Phase::Interesting { .. } => {
                let size: u16 = match self.prefer_type {
                    PieceSessionType::Stream(Some(s)) => s,
                    PieceSessionType::Stream(None) => PieceData::max_payload() as u16,
                    _ => {
                        return DownloadOutput::none();
                    },
                };
                match StreamDecoder::new(&self.chunk, size, now) {
                    Ok(d) => {
                        let counter = SpeedCounter::new(piece.data.len(), now);
                        self.feed(d, counter, piece, now)
                    },
                    Err(_) => DownloadOutput::none(),
                }
            },
            Phase::Downloading { speed_counter } => {
                let mut counter: SpeedCounter = speed_counter;
                counter.on_recv(piece.data.len());
                match self.decoder.take() {
                    Some(d) => self.feed(d, counter, piece, now),
                    None => DownloadOutput::none(),
                }
            },
            Phase::Finished { send_ctrl_time } => {
                if has_elapsed(now, send_ctrl_time, self.config.resend_interval) {
                    self.phase = Phase::Finished { send_ctrl_time: now };
                    DownloadOutput::command(PieceControlCommand::Finish, 0)
                } else {
                    DownloadOutput::none()
                }
            },
            Phase::Canceled { send_ctrl_time, err } => {
                if has_elapsed(now, send_ctrl_time, self.config.resend_interval) {
                    self.phase = Phase::Canceled { send_ctrl_time: now, err };
                    DownloadOutput::command(PieceControlCommand::Cancel, 0)
                } else {
                    DownloadOutput::none()
                }
            },
        }
    }

    /// Hands a piece to the decoder and goes on from there.
    fn feed(
        &mut self,
        decoder: StreamDecoder,
        counter: SpeedCounter,
        piece: &PieceData,
        now: Timestamp,
    ) -> (out: DownloadOutput)
        requires
            old(self)@.chunk.hash.len() == 28,
            old(self)@.history.wf(),
            old(self)@.content is None,
            !old(self)@.phase.is_terminal(),
            decoder.wf(),
            decoder@.cache.chunk == old(self)@.chunk,
        ensures
            final(self).wf(),
            final(self)@ == old(self)@.fed(decoder@, counter, piece@, now),
            out.interest is None,
            out.wake == (if final(self)@.phase is Finished {
                old(self)@.waiters
            } else {
                0
            }),
            final(self)@.phase is Finished ==> (out.control matches Some(c) && is_plain_command(
                c,
                PieceControlCommand::Finish,
            )),
            !(final(self)@.phase is Finished) ==> out.control is None,
    {
        let mut decoder = decoder;
        let _ = decoder.push_piece_data(piece, now);
        match decoder.chunk_content() {
            Some(content) => {
                self.content = Some(content);
                self.decoder = None;
                self.phase = Phase::Finished { send_ctrl_time: now };
                let wake: usize = self.waiters.wake();
                DownloadOutput::command(PieceControlCommand::Finish, wake)
            },
            None => {
                self.decoder = Some(decoder);
                self.phase = Phase::Downloading { speed_counter: counter };
                DownloadOutput::none()
            },
        }
    }

    /// Reads the clock at `now`, and returns what is to be done. A session
    /// that asked for longer than the channel goes on asking, or whose
    /// decoder gives up, is canceled for `Timeout`, which is returned as an
    /// error. One that last asked longer ago than the channel waits before
    /// asking again asks again. One that gathers pieces says what it
    /// misses when its decoder does.
    pub fn on_time_escape(&mut self, now: Timestamp) -> (r: (Result<(), ErrorCode>, DownloadOutput))
        requires
            old(self).wf(),
        ensures
            final(self).wf(),
            final(self)@ == old(self)@.ticked(now),
            old(self)@.phase.follows(final(self)@.phase),
            r.0 is Err <==> old(self)@.times_out(now),
            r.0 matches Err(e) ==> e == ErrorCode::Timeout,
            r.1.wake == (if old(self)@.times_out(now) {
                old(self)@.waiters
            } else {
                0
            }),
            r.1.interest is Some <==> old(self)@.resends(now),
            r.1.interest matches Some(i) ==> i@ == old(self)@.interest(),
            r.1.control is Some <==> old(self)@.reports(now),
            r.1.control matches Some(c) ==> is_loss_report(c, old(self)@.decoder->0),
    {
        match self.phase {
            Phase::Interesting { start_send_time, last_send_time } => {
                if has_elapsed(now, start_send_time, self.config.resend_timeout) {
                    let wake: usize = self.cancel_by_error(ErrorCode::Timeout);
                    (
                        Err(ErrorCode::Timeout),
                        DownloadOutput { interest: None, control: None, wake },
                    )
                } else if has_elapsed(now, last_send_time, self.config.resend_interval) {
                    self.phase = Phase::Interesting { start_send_time, last_send_time: now };
                    let interest = self.make_interest();
                    (Ok(()), DownloadOutput { interest: Some(interest), control: None, wake: 0 })
                } else {
                    (Ok(()), DownloadOutput::none())
                }
            },
            Phase::Downloading { .. } => {
                match self.decoder.take() {
                    Some(d) => {
                        let mut decoder = d;
                        match decoder.on_time_escape(now, &self.config) {
                            Ok(report) => {
                                self.decoder = Some(decoder);
                                match report {
                                    Some(report) => {
                                        let lost_index = if report.lost_index.len() == 0 {
                                            assert forall|i: int| !old(self)@.decoder->0.lost(
                                                i,
                                            ) by {
                                                assert(!covered(report.lost_index@, i));
                                            }
                                            None
                                        } else {
                                            Some(report.lost_index)
                                        };
                                        (
                                            Ok(()),
                                            DownloadOutput {
                                                interest: None,
                                                control: Some(
                                                    ControlRequest {
                                                        command: PieceControlCommand::Continue,
                                                        max_index: report.max_index,
                                                        lost_index,
                                                    },
                                                ),
                                                wake: 0,
                                            },
                                        )
                                    },
                                    None => (Ok(()), DownloadOutput::none()),
                                }
                            },
                            Err(_) => {
                                self.phase = Phase::Canceled {
                                    send_ctrl_time: 0,
                                    err: ErrorCode::Timeout,
                                };
                                let wake: usize = self.waiters.wake();
                                (
                                    Err(ErrorCode::Timeout),
                                    DownloadOutput { interest: None, control: None, wake },
                                )
                            },
                        }
                    },
                    None => (Ok(()), DownloadOutput::none()),
                }
            },
            _ => (Ok(()), DownloadOutput::none()),
        }
    }

    /// Samples the speed at `now` into the latest samples, and returns the
    /// sample.
    pub fn calc_speed(&mut self, now: Timestamp) -> (speed: u32)
        requires
            old(self).wf(),
        ensures
            final(self).wf(),
            final(self)@ == old(self)@.sampled(now),
            speed == old(self)@.sample(now),
    {
        match self.phase {
            Phase::Init => {
                self.history_speed.update(Some(0), now);
                0
            },
            Phase::Interesting { .. } => {
                self.history_speed.update(Some(0), now);
                0
            },
            Phase::Downloading { speed_counter } => {
                let mut counter: SpeedCounter = speed_counter;
                let cur_speed: u32 = counter.update(now);
                self.phase = Phase::Downloading { speed_counter: counter };
                self.history_speed.update(Some(cur_speed), now);
                cur_speed
            },
            _ => 0,
        }
    }

    /// The latest sample of the speed while pieces come, nothing else.
    pub fn cur_speed(&self) -> (speed: u32)
        requires
            self.wf(),
        ensures
            speed == self@.cur_speed(),
    {
        match self.phase {
            Phase::Downloading { .. } => self.history_speed.latest(),
            _ => 0,
        }
    }

    /// The mean of the latest samples until the session ends, nothing
    /// after.
    pub fn history_speed(&self) -> (speed: u32)
        requires
            self.wf(),
        ensures
            speed == self@.history_speed(),
    {
        match self.phase {
            Phase::Finished { .. } => 0,
            Phase::Canceled { .. } => 0,
            _ => self.history_speed.average(),
        }
    }
}

// ---- what holds of every session ----------------------------------------------

/// A session that was given up stays given up for the first reason: giving
/// it up again, for whatever reason, changes nothing. And one that had not
/// ended is then canceled for that first reason.
pub proof fn lemma_cancel_idempotent(s: DownloadSessionView, e1: ErrorCode, e2: ErrorCode)
    ensures
        s.canceled(e1).canceled(e2) == s.canceled(e1),
        !s.phase.is_terminal() ==> s.canceled(e1).canceled(e2).phase.seen()
            == DownloadSessionState::Canceled(e1),
{
}

/// Whatever a session is told, it never goes back to an earlier state, and
/// once it has ended it stays ended the way it did.
pub proof fn lemma_session_monotonic(
    s: DownloadSessionView,
    piece: PieceDataView,
    now: Timestamp,
    err: ErrorCode,
)
    requires
        s.wf(),
    ensures
        s.phase.follows(s.started(now).phase),
        s.phase.follows(s.pushed(piece, now).phase),
        s.phase.follows(s.ticked(now).phase),
        s.phase.follows(s.canceled(err).phase),
        s.phase.follows(s.sampled(now).phase),
{
}

} // verus!
