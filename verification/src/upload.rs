//! One chunk being served to one peer.
//!
//! A session is made when a peer asks for a chunk. It sends pieces while
//! `Uploading`, as far as the peer's commands ask for them, and ends
//! `Finished` when the peer has the chunk or in `Error` when something went
//! wrong or the peer called it off. It never sends anything itself: what is
//! to be sent it hands to its caller.

use vstd::prelude::*;
use std::ops::Range;
use crate::encode::increasing;
use crate::encode::wanted;
use crate::encode::StreamEncoder;
use crate::encode::StreamEncoderView;
use crate::error::ErrorCode;
use crate::protocol::Interest;
use crate::protocol::PieceControl;
use crate::protocol::PieceControlCommand;
use crate::protocol::RespInterest;
use crate::protocol::RespInterestView;
use crate::raw::view_opt;
use crate::speed::HistorySpeed;
use crate::speed::HistorySpeedView;
use crate::speed::SpeedCounter;
use crate::types::elapsed;
use crate::types::has_elapsed;
use crate::types::ChannelConfig;
use crate::types::ChunkId;
use crate::types::ChunkIdView;
use crate::types::Micros;
use crate::types::PieceSessionType;
use crate::types::TempSeq;
use crate::types::Timestamp;

verus! {

/// The state of an upload session as others see it.
#[derive(Clone, Copy, Debug, PartialEq, Eq, Structural)]
pub enum UploadTaskState {
    Uploading(u32),
    Finished,
    Error(ErrorCode),
}

/// The states of an upload session, with what each holds.
#[derive(Clone, Copy, Debug, PartialEq, Eq, Structural)]
pub enum UploadPhase {
    /// Pieces are sent as far as they are asked for. `pending_from` is when
    /// the session first had nothing to send, and 0 while it has.
    Uploading { speed_counter: SpeedCounter, pending_from: Timestamp },
    /// The peer has the chunk.
    Finished,
    /// The session failed, or was called off.
    Error(ErrorCode),
}

impl UploadPhase {
    /// What others see of the state.
    pub open spec fn seen(self) -> UploadTaskState {
        match self {
            UploadPhase::Uploading { .. } => UploadTaskState::Uploading(0),
            UploadPhase::Finished => UploadTaskState::Finished,
            UploadPhase::Error(e) => UploadTaskState::Error(e),
        }
    }
}

/// Twice the time a datagram may be under way: how long a failed session
/// is kept so that the peer learns of the failure.
pub open spec fn retention(config: ChannelConfig) -> Micros {
    if 2 * config.msl > u64::MAX {
        u64::MAX
    } else {
        (2 * config.msl) as u64
    }
}

/// The lost ranges a command reports: none where it has no list of them.
pub open spec fn reported(lost_index: Option<Seq<Range<u32>>>) -> Seq<Range<u32>> {
    match lost_index {
        Some(l) => l,
        None => Seq::empty(),
    }
}

/// An upload session as plain values.
pub ghost struct UploadSessionView {
    pub chunk: ChunkIdView,
    pub session_id: TempSeq,
    pub piece_type: PieceSessionType,
    pub config: ChannelConfig,
    /// When the peer was last heard of.
    pub last_active: Timestamp,
    /// Whether the peer has asked for the chunk on this session.
    pub interested: bool,
    /// The latest samples of the session's speed.
    pub history: HistorySpeedView,
    pub phase: UploadPhase,
    /// What is yet to be sent, while `Uploading`.
    pub encoder: Option<StreamEncoderView>,
}

impl UploadSessionView {
    /// What always holds of a session: it has pieces to send exactly while
    /// `Uploading`, and they are pieces of its own chunk.
    pub open spec fn wf(self) -> bool {
        &&& self.chunk.hash.len() == 28
        &&& self.history.wf()
        &&& self.phase is Uploading <==> self.encoder is Some
        &&& self.encoder matches Some(e) ==> e.wf() && e.chunk == self.chunk
    }

    /// A session that serves `chunk` under the number `session_id` with an
    /// encoder as `encoder`, before the peer's `Interest` was taken.
    pub open spec fn fresh(
        chunk: ChunkIdView,
        session_id: TempSeq,
        piece_type: PieceSessionType,
        config: ChannelConfig,
        encoder: StreamEncoderView,
    ) -> UploadSessionView {
        UploadSessionView {
            chunk,
            session_id,
            piece_type,
            config,
            last_active: 0,
            interested: false,
            history: HistorySpeedView {
                initial: 0,
                window: config.history_speed as nat,
                samples: Seq::empty(),
            },
            phase: UploadPhase::Uploading {
                speed_counter: SpeedCounter { last_recv: 0, last_update: 0, cur_speed: 0 },
                pending_from: 0,
            },
            encoder: Some(encoder),
        }
    }

    /// The session in another state, with nothing to send any more.
    pub open spec fn ended(self, phase: UploadPhase) -> UploadSessionView {
        UploadSessionView { phase, encoder: None, ..self }
    }

    /// The session after it was given up for `err`: failed for it, where it
    /// was uploading; as it was, where it was not.
    pub open spec fn canceled(self, err: ErrorCode) -> UploadSessionView {
        if self.phase is Uploading {
            self.ended(UploadPhase::Error(err))
        } else {
            self
        }
    }

    /// The answer to a peer that asks or commands on a failed session: the
    /// reason of the failure.
    pub open spec fn refusal(self) -> RespInterestView {
        RespInterestView {
            session_id: self.session_id,
            chunk: self.chunk,
            err: self.phase->Error_0,
            redirect: None,
            redirect_referer: None,
            cache_node: None,
        }
    }

    /// Whether the session gives up at `now`: it has had nothing to send
    /// for longer than the channel goes on asking.
    pub open spec fn times_out(self, now: Timestamp) -> bool {
        self.phase matches UploadPhase::Uploading { pending_from, .. } && pending_from > 0
            && elapsed(now, pending_from, self.config.resend_timeout)
    }

    /// Whether the session is kept at `now`: one that is uploading is, one
    /// that has finished is not, and one that failed is until the peer was
    /// not heard of for twice the time a datagram may be under way.
    pub open spec fn kept(self, now: Timestamp) -> bool {
        match self.phase {
            UploadPhase::Uploading { .. } => true,
            UploadPhase::Finished => false,
            UploadPhase::Error(_) => !elapsed(now, self.last_active, retention(self.config)),
        }
    }

    /// What `next_piece` does to a session and to the buffer, and returns.
    pub open spec fn piece_sent(
        before: UploadSessionView,
        after: UploadSessionView,
        room: Seq<u8>,
        written: Seq<u8>,
        now: Timestamp,
        r: Result<usize, ErrorCode>,
    ) -> bool {
        &&& written.len() == room.len()
        &&& r matches Ok(n) ==> (n == 0 ==> written == room) && (n > 0 ==> before.phase
            is Uploading && before.interested && before.encoder->0.pending.len() > 0)
        &&& !(before.phase is Uploading && before.interested) ==> r == Ok::<usize, ErrorCode>(0)
            && after == before && written == room
        &&& before.phase is Uploading && before.interested ==> {
            let speed_counter = before.phase->speed_counter;
            let e = before.encoder->0;
            if e.pending.len() == 0 {
                &&& r == Ok::<usize, ErrorCode>(0)
                &&& written == room
                &&& after == (UploadSessionView {
                    phase: UploadPhase::Uploading { speed_counter, pending_from: now },
                    ..before
                })
            } else {
                let frame = e.piece(e.pending[0], before.session_id).frame();
                if frame.len() <= room.len() {
                    &&& r is Ok
                    &&& r->Ok_0 == frame.len()
                    &&& written == frame + room.skip(frame.len() as int)
                    &&& after == (UploadSessionView {
                        phase: UploadPhase::Uploading {
                            speed_counter: speed_counter.received(frame.len() as usize),
                            pending_from: 0,
                        },
                        encoder: Some(e.with_pending(e.pending.skip(1))),
                        ..before
                    })
                } else {
                    &&& r == Err::<usize, ErrorCode>(ErrorCode::InvalidParam)
                    &&& written == room
                    &&& after == before.canceled(ErrorCode::InvalidParam)
                }
            }
        }
    }

    /// What `on_interest` does to a session, and returns.
    pub open spec fn interest_taken(
        before: UploadSessionView,
        after: UploadSessionView,
        now: Timestamp,
        r: Option<RespInterest>,
    ) -> bool {
        &&& after == (UploadSessionView {
            last_active: now,
            interested: true,
            encoder: after.encoder,
            ..before
        })
        &&& before.encoder matches Some(e) ==> after.encoder matches Some(f) && f
            == e.with_pending(f.pending) && f.pending.len() == e.piece_count() && forall|i: int|
            0 <= i < e.piece_count() ==> (#[trigger] f.pending[i]) == i
        &&& before.encoder is None ==> after.encoder is None
        &&& r is Some <==> before.phase is Error
        &&& r matches Some(resp) ==> resp@ == before.refusal()
    }

    /// What `on_piece_control` does to a session, and returns.
    pub open spec fn control_taken(
        before: UploadSessionView,
        after: UploadSessionView,
        ctrl: &PieceControl,
        now: Timestamp,
        r: Option<RespInterest>,
    ) -> bool {
        let heard = UploadSessionView { last_active: now, ..before };
        &&& r is Some <==> ctrl.command == PieceControlCommand::Continue && before.phase is Error
        &&& r matches Some(resp) ==> resp@ == before.refusal()
        &&& !(before.phase is Uploading) ==> after == heard
        &&& before.phase is Uploading ==> match ctrl.command {
            PieceControlCommand::Finish => after == (UploadSessionView {
                last_active: now,
                ..before.ended(UploadPhase::Finished)
            }),
            PieceControlCommand::Cancel => after == (UploadSessionView {
                last_active: now,
                ..before.ended(UploadPhase::Error(ErrorCode::Interrupted))
            }),
            PieceControlCommand::Pause => after == heard,
            PieceControlCommand::Continue => match ctrl.max_index {
                None => after == heard,
                Some(max_index) => {
                    let e = before.encoder->0;
                    let f = after.encoder->0;
                    &&& after == (UploadSessionView {
                        last_active: now,
                        encoder: Some(e.with_pending(f.pending)),
                        ..before
                    })
                    &&& increasing(f.pending)
                    &&& forall|i: int|
                        f.pending.contains(i as u32) && 0 <= i <= u32::MAX <==> #[trigger] wanted(
                            e.piece_count(),
                            max_index,
                            reported(view_opt(ctrl.lost_index)),
                            i,
                        )
                },
            },
        }
    }

    /// The speed sampled at `now`.
    pub open spec fn sample(self, now: Timestamp) -> u32 {
        match self.phase {
            UploadPhase::Uploading { speed_counter, .. } => speed_counter.speed_at(now),
            _ => 0,
        }
    }

    /// The session after its speed was sampled at `now`.
    pub open spec fn sampled(self, now: Timestamp) -> UploadSessionView {
        match self.phase {
            UploadPhase::Uploading { speed_counter, pending_from } => UploadSessionView {
                history: self.history.updated(Some(speed_counter.speed_at(now))),
                phase: UploadPhase::Uploading {
                    speed_counter: speed_counter.sampled(now),
                    pending_from,
                },
                ..self
            },
            _ => self,
        }
    }
}

/// One chunk being served to one peer.
#[derive(Debug)]
pub struct UploadSession {
    chunk: ChunkId,
    session_id: TempSeq,
    piece_type: PieceSessionType,
    config: ChannelConfig,
    last_active: Timestamp,
    interested: bool,
    history_speed: HistorySpeed,
    phase: UploadPhase,
    encoder: Option<StreamEncoder>,
}

impl View for UploadSession {
    type V = UploadSessionView;

    closed spec fn view(&self) -> UploadSessionView {
        UploadSessionView {
            chunk: self.chunk@,
            session_id: self.session_id,
            piece_type: self.piece_type,
            config: self.config,
            last_active: self.last_active,
            interested: self.interested,
            history: self.history_speed@,
            phase: self.phase,
            encoder: view_opt(self.encoder),
        }
    }
}

impl UploadSession {
    /// What always holds of a session.
    pub closed spec fn wf(&self) -> bool {
        &&& self@.wf()
        &&& self.encoder matches Some(e) ==> e.wf()
    }

    /// What always holds of a session holds of it as plain values.
    pub proof fn lemma_wf_view(&self)
        requires
            self.wf(),
        ensures
            self@.wf(),
    {
    }

    /// A session that serves `chunk` under the number `session_id` with
    /// `encoder`, in the encoding `piece_type`. It sends nothing until the
    /// peer's `Interest` was taken.
    pub fn new(
        chunk: ChunkId,
        session_id: TempSeq,
        piece_type: PieceSessionType,
        encoder: StreamEncoder,
        config: ChannelConfig,
    ) -> (s: UploadSession)
        requires
            encoder.wf(),
            encoder@.chunk == chunk@,
        ensures
            s.wf(),
            s@ == (UploadSessionView {
                chunk: chunk@,
                session_id,
                piece_type,
                config,
                last_active: 0,
                interested: false,
                history: HistorySpeedView {
                    initial: 0,
                    window: config.history_speed as nat,
                    samples: Seq::empty(),
                },
                phase: UploadPhase::Uploading {
                    speed_counter: SpeedCounter { last_recv: 0, last_update: 0, cur_speed: 0 },
                    pending_from: 0,
                },
                encoder: Some(encoder@),
            }),
    {
        proof {
            encoder.lemma_wf_view();
        }
        Self {
            chunk,
            session_id,
            piece_type,
            config,
            last_active: 0,
            interested: false,
            history_speed: HistorySpeed::new(0, config.history_speed),
            phase: UploadPhase::Uploading {
                speed_counter: SpeedCounter::new(0, 0),
                pending_from: 0,
            },
            encoder: Some(encoder),
        }
    }

    pub fn chunk(&self) -> (c: &ChunkId)
        ensures
            c@ == self@.chunk,
    {
        &self.chunk
    }

    pub fn piece_type(&self) -> (t: &PieceSessionType)
        ensures
            *t == self@.piece_type,
    {
        &self.piece_type
    }

    pub fn session_id(&self) -> (s: &TempSeq)
        ensures
            *s == self@.session_id,
    {
        &self.session_id
    }

    /// The state of the session as others see it.
    pub fn state(&self) -> (s: UploadTaskState)
        ensures
            s == self@.phase.seen(),
    {
        match self.phase {
            UploadPhase::Uploading { .. } => UploadTaskState::Uploading(0),
            UploadPhase::Finished => UploadTaskState::Finished,
            UploadPhase::Error(e) => UploadTaskState::Error(e),
        }
    }

    /// The answer to a peer on a failed session.
    fn refuse(&self, err: ErrorCode) -> (r: RespInterest)
        requires
            self@.phase == UploadPhase::Error(err),
        ensures
            r@ == self@.refusal(),
    {
        RespInterest {
            session_id: self.session_id,
            chunk: self.chunk,
            err,
            redirect: None,
            redirect_referer: None,
            cache_node: None,
        }
    }

    /// Sends the next piece at `now`: writes its frame into the front of
    /// `buf` and returns the length of the frame. A session whose peer has
    /// not asked yet, or that is not uploading, sends nothing and returns
    /// 0. One that has nothing to send returns 0 and notes since when. One
    /// whose piece finds no room in `buf` fails for `InvalidParam`, which
    /// is returned as an error.
    #[verifier::spinoff_prover]
    #[verifier::rlimit(40)]
    pub fn next_piece(&mut self, buf: &mut [u8], now: Timestamp) -> (r: Result<usize, ErrorCode>)
        requires
            old(self).wf(),
        ensures
            final(self).wf(),
            UploadSessionView::piece_sent(old(self)@, final(self)@, old(buf)@, final(buf)@, now, r),
    {
        if !self.interested {
            return Ok(0);
        }
        let (speed_counter, pending_from) = match self.phase {
            UploadPhase::Uploading { speed_counter, pending_from } => (speed_counter, pending_from),
            _ => {
                return Ok(0);
            },
        };
        let mut encoder: StreamEncoder = match self.encoder.take() {
            Some(e) => e,
            None => {
                return Ok(0);
            },
        };
        let ghost before = encoder@;
        let r = encoder.next_piece(&self.session_id, buf);
        proof {
            encoder.lemma_wf_view();
        }
        match r {
            Ok(len) => {
                let mut counter: SpeedCounter = speed_counter;
                if len > 0 {
                    assert(before.pending.len() > 0);
                    counter.on_recv(len);
                    self.phase = UploadPhase::Uploading { speed_counter: counter, pending_from: 0 };
                } else {
                    assert(before.pending.len() == 0);
                    self.phase = UploadPhase::Uploading { speed_counter, pending_from: now };
                }
                self.encoder = Some(encoder);
                Ok(len)
            },
            Err(e) => {
                self.phase = UploadPhase::Error(e);
                Err(e)
            },
        }
    }

    /// Gives the session up for `err`: one that is uploading fails for it,
    /// any other stays as it is.
    pub fn cancel_by_error(&mut self, err: ErrorCode)
        requires
            old(self).wf(),
        ensures
            final(self).wf(),
            final(self)@ == old(self)@.canceled(err),
    {
        match self.phase {
            UploadPhase::Uploading { .. } => {
                self.phase = UploadPhase::Error(err);
                self.encoder = None;
            },
            _ => {},
        }
    }

    /// Takes the peer's `Interest` at `now`. A session that is uploading
    /// starts over from the first piece. One that failed answers with the
    /// reason, which is returned to be sent. One that has finished keeps
    /// silent.
    pub fn on_interest(&mut self, interest: &Interest, now: Timestamp) -> (r: Option<RespInterest>)
        requires
            old(self).wf(),
        ensures
            final(self).wf(),
            UploadSessionView::interest_taken(old(self)@, final(self)@, now, r),
    {
        self.last_active = now;
        self.interested = true;
        match self.phase {
            UploadPhase::Uploading { .. } => {
                match self.encoder.take() {
                    Some(e) => {
                        let mut encoder: StreamEncoder = e;
                        proof {
                            encoder.lemma_wf_view();
                        }
                        encoder.reset();
                        proof {
                            encoder.lemma_wf_view();
                        }
                        self.encoder = Some(encoder);
                    },
                    None => {},
                }
                None
            },
            UploadPhase::Error(err) => Some(self.refuse(err)),
            UploadPhase::Finished => None,
        }
    }

    /// Takes the peer's command at `now`. `Finish` and `Cancel` end a
    /// session that is uploading: finished, or failed for `Interrupted`.
    /// `Continue` with the greatest index seen tells one that is uploading
    /// what to send from now on: the lost pieces and those behind that
    /// index; one that failed answers `Continue` with the reason, which is
    /// returned to be sent. Everything else changes nothing.
    pub fn on_piece_control(&mut self, ctrl: &PieceControl, now: Timestamp) -> (r: Option<
        RespInterest,
    >)
        requires
            old(self).wf(),
        ensures
            final(self).wf(),
            UploadSessionView::control_taken(old(self)@, final(self)@, ctrl, now, r),
    {
        self.last_active = now;
        match ctrl.command {
            PieceControlCommand::Finish => {
                match self.phase {
                    UploadPhase::Uploading { .. } => {
                        self.phase = UploadPhase::Finished;
                        self.encoder = None;
                    },
                    _ => {},
                }
                None
            },
            PieceControlCommand::Cancel => {
                match self.phase {
                    UploadPhase::Uploading { .. } => {
                        self.phase = UploadPhase::Error(ErrorCode::Interrupted);
                        self.encoder = None;
                    },
                    _ => {},
                }
                None
            },
            PieceControlCommand::Continue => {
                match self.phase {
                    UploadPhase::Uploading { .. } => {
                        if let Some(max_index) = ctrl.max_index {
                            match self.encoder.take() {
                                Some(e) => {
                                    let mut encoder: StreamEncoder = e;
                                    match &ctrl.lost_index {
                                        Some(l) => {
                                            encoder.merge(max_index, l);
                                        },
                                        None => {
                                            let none: Vec<Range<u32>> = Vec::new();
                                            encoder.merge(max_index, &none);
                                        },
                                    }
                                    proof {
                                        encoder.lemma_wf_view();
                                    }
                                    self.encoder = Some(encoder);
                                },
                                None => {},
                            }
                        }
                        None
                    },
                    UploadPhase::Error(err) => Some(self.refuse(err)),
                    UploadPhase::Finished => None,
                }
            },
            PieceControlCommand::Pause => None,
        }
    }

    /// Reads the clock at `now`, and returns the state of the session where
    /// it is kept, and nothing where it may be let go. A session that has
    /// had nothing to send for longer than the channel goes on asking fails
    /// for `Timeout`.
    pub fn on_time_escape(&mut self, now: Timestamp) -> (r: Option<UploadTaskState>)
        requires
            old(self).wf(),
        ensures
            final(self).wf(),
            final(self)@ == (if old(self)@.times_out(now) {
                old(self)@.canceled(ErrorCode::Timeout)
            } else {
                old(self)@
            }),
            r is Some <==> old(self)@.kept(now),
            r matches Some(s) ==> s == final(self)@.phase.seen(),
    {
        match self.phase {
            UploadPhase::Uploading { pending_from, .. } => {
                if pending_from > 0 && has_elapsed(now, pending_from, self.config.resend_timeout) {
                    self.phase = UploadPhase::Error(ErrorCode::Timeout);
                    self.encoder = None;
                    Some(UploadTaskState::Error(ErrorCode::Timeout))
                } else {
                    Some(UploadTaskState::Uploading(0))
                }
            },
            UploadPhase::Finished => None,
            UploadPhase::Error(err) => {
                let keep: Micros = if self.config.msl > u64::MAX / 2 {
                    u64::MAX
                } else {
                    2 * self.config.msl
                };
                if has_elapsed(now, self.last_active, keep) {
                    None
                } else {
                    Some(UploadTaskState::Error(err))
                }
            },
        }
    }

    /// Samples the speed at `now` into the latest samples, and returns the
    /// sample.
    pub fn calc_speed(&mut self, now: Timestamp) -> (speed: u32)
        requires
            old(self).wf(),
        ensures
            final(self).wf(),
            final(self)@ == old(self)@.sampled(now),
            speed == old(self)@.sample(now),
    {
        match self.phase {
            UploadPhase::Uploading { speed_counter, pending_from } => {
                let mut counter: SpeedCounter = speed_counter;
                let cur_speed: u32 = counter.update(now);
                self.phase = UploadPhase::Uploading { speed_counter: counter, pending_from };
                self.history_speed.update(Some(cur_speed), now);
                cur_speed
            },
            _ => 0,
        }
    }

    /// The latest sample of the speed while uploading, nothing else.
    pub fn cur_speed(&self) -> (speed: u32)
        requires
            self.wf(),
        ensures
            speed == (if self@.phase is Uploading {
                self@.history.latest()
            } else {
                0
            }),
    {
        match self.phase {
            UploadPhase::Uploading { .. } => self.history_speed.latest(),
            _ => 0,
        }
    }

    /// The mean of the latest samples while uploading, nothing else.
    pub fn history_speed(&self) -> (speed: u32)
        requires
            self.wf(),
        ensures
            speed == (if self@.phase is Uploading {
                self@.history.average()
            } else {
                0
            }),
    {
        match self.phase {
            UploadPhase::Uploading { .. } => self.history_speed.average(),
            _ => 0,
        }
    }
}

} // verus!
