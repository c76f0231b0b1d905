//! The demand for one chunk.
//!
//! A downloader gathers what is known of where a chunk may be had, and
//! keeps one download session going at a time: it begins one with the
//! first source it knows, and gives it up when that source is taken from
//! it. The channels to the other peers are handed to it when it is pumped.

use vstd::prelude::*;
use crate::channel::Channel;
use crate::channel::ChannelView;
use crate::channel::SessionWake;
use crate::error::ErrorCode;
use crate::protocol::Interest;
use crate::protocol::PieceData;
use crate::raw::view_opt;
use crate::types::ChannelConfig;
use crate::types::ChunkId;
use crate::types::ChunkIdView;
use crate::types::DeviceId;
use crate::types::PieceSessionType;
use crate::types::TempSeq;
use crate::types::Timestamp;

verus! {

// ---- the channels -------------------------------------------------------------

/// The channels of this peer, one to each of the others it deals with, in
/// the order in which they were made.
#[derive(Debug)]
pub struct ChannelManager {
    pub config: ChannelConfig,
    pub channels: Vec<Channel>,
}

/// The channels of a list as plain values.
pub open spec fn channels_view(v: Seq<Channel>) -> Seq<ChannelView> {
    Seq::new(v.len(), |k: int| v[k]@)
}

/// Where the channel to `target` stands among `channels`; behind them all
/// where there is none.
pub open spec fn channel_to(channels: Seq<ChannelView>, target: Seq<u8>) -> int {
    if exists|c: int| 0 <= c < channels.len() && (#[trigger] channels[c]).remote == target {
        choose|c: int| 0 <= c < channels.len() && (#[trigger] channels[c]).remote == target
    } else {
        channels.len() as int
    }
}

/// The channel to `target` as a session finds it: the one among `channels`
/// where there is one, and a new one with no sessions else.
pub open spec fn channel_for(
    channels: Seq<ChannelView>,
    target: Seq<u8>,
    config: ChannelConfig,
) -> ChannelView {
    if channel_to(channels, target) < channels.len() {
        channels[channel_to(channels, target)]
    } else {
        ChannelView::fresh(target, config)
    }
}

impl View for ChannelManager {
    type V = Seq<ChannelView>;

    open spec fn view(&self) -> Seq<ChannelView> {
        channels_view(self.channels@)
    }
}

impl ChannelManager {
    /// What always holds of the channels: each is as it should be, and no
    /// two lead to one peer.
    pub open spec fn wf(&self) -> bool {
        &&& forall|k: int| 0 <= k < self.channels@.len() ==> (#[trigger] self.channels@[k]).wf()
        &&& forall|k: int, m: int|
            0 <= k < m < self.channels@.len() ==> (#[trigger] self.channels@[k])@.remote != (
            #[trigger] self.channels@[m])@.remote
    }

    /// No channels yet.
    pub fn new(config: ChannelConfig) -> (m: ChannelManager)
        ensures
            m.wf(),
            m.config == config,
            m@.len() == 0,
    {
        Self { config, channels: Vec::new() }
    }

    /// Where the channel to `remote` stands, where there is one.
    pub fn channel_of(&self, remote: &DeviceId) -> (r: Option<usize>)
        requires
            self.wf(),
        ensures
            r matches Some(k) ==> k < self@.len() && self@[k as int].remote == remote@,
            r is None ==> forall|k: int| 0 <= k < self@.len() ==> (#[trigger] self@[k]).remote
                != remote@,
            channel_to(self@, remote@) == (match r {
                Some(k) => k as int,
                None => self@.len() as int,
            }),
    {
        let n: usize = self.channels.len();
        let mut k: usize = 0;
        while k < n
            invariant
                self.wf(),
                n == self.channels@.len(),
                k <= n,
                forall|m: int| 0 <= m < k ==> (#[trigger] self@[m]).remote != remote@,
            decreases n - k,
        {
            if self.channels[k].remote().same(remote) {
                proof {
                    let v = self@;
                    assert(v[k as int].remote == remote@);
                    let c = choose|c: int| 0 <= c < v.len() && (#[trigger] v[c]).remote == remote@;
                    assert(0 <= c < v.len() && v[c].remote == remote@);
                    if c < k {
                        assert(self.channels@[c]@.remote != self.channels@[k as int]@.remote);
                    } else if k < c {
                        assert(self.channels@[k as int]@.remote != self.channels@[c]@.remote);
                    }
                }
                return Some(k);
            }
            k += 1;
        }
        None
    }

    /// Where the channel to `remote` stands: a new one, with no sessions,
    /// behind the others, where there was none.
    pub fn create_channel(&mut self, remote: &DeviceId) -> (k: usize)
        requires
            old(self).wf(),
        ensures
            final(self).wf(),
            final(self).config == old(self).config,
            k == channel_to(old(self)@, remote@),
            k < final(self)@.len(),
            final(self)@[k as int].remote == remote@,
            k < old(self)@.len() ==> final(self).channels@ == old(self).channels@,
            k >= old(self)@.len() ==> k == old(self)@.len() && final(self).channels@.len() == k + 1
                && final(self).channels@.take(k as int) == old(self).channels@
                    && final(self)@[k as int] == (ChannelView {
                remote: remote@,
                config: old(self).config,
                dead: false,
                command_seq: 0,
                next_session: 1,
                recved: 0,
                downloads: Seq::empty(),
                uploads: Seq::empty(),
            }),
    {
        match self.channel_of(remote) {
            Some(k) => k,
            None => {
                let channel = Channel::new(*remote, self.config);
                let ghost before = self.channels@;
                self.channels.push(channel);
                proof {
                    assert(self.channels@.take(before.len() as int) =~= before);
                    assert forall|k: int, m: int|
                        0 <= k < m
                            < self.channels@.len() implies (#[trigger] self.channels@[k])@.remote
                        != (#[trigger] self.channels@[m])@.remote by {
                        if m == before.len() {
                            assert(self.channels@[k] == before[k]);
                            assert(channels_view(before)[k].remote != remote@);
                        }
                    }
                }
                self.channels.len() - 1
            },
        }
    }
}

// ---- where a chunk may be had -------------------------------------------------

/// A peer that a chunk may be had from, with the referer to ask it with
/// and the encoding to ask it for.
#[derive(Debug)]
pub struct DownloadSource {
    pub target: DeviceId,
    pub referer: Option<String>,
    pub encode_desc: PieceSessionType,
}

/// A source as plain values.
pub ghost struct DownloadSourceView {
    pub target: Seq<u8>,
    pub referer: Option<Seq<char>>,
    pub encode_desc: PieceSessionType,
}

impl View for DownloadSource {
    type V = DownloadSourceView;

    open spec fn view(&self) -> DownloadSourceView {
        DownloadSourceView {
            target: self.target@,
            referer: view_opt(self.referer),
            encode_desc: self.encode_desc,
        }
    }
}

/// The encoding a session asks a source for: a plain stream, in pieces of
/// the size the source names or, where it names none, of the largest size
/// a datagram carries. Nothing where the source offers no plain stream.
pub open spec fn filled(desc: PieceSessionType) -> Option<PieceSessionType> {
    match desc {
        PieceSessionType::Unknown => Some(
            PieceSessionType::Stream(Some(PieceData::max_payload_spec() as u16)),
        ),
        PieceSessionType::Stream(None) => Some(
            PieceSessionType::Stream(Some(PieceData::max_payload_spec() as u16)),
        ),
        PieceSessionType::Stream(Some(s)) => Some(PieceSessionType::Stream(Some(s))),
        _ => None,
    }
}

/// The encoding a session asks a source for.
pub fn fill_values(desc: PieceSessionType) -> (r: Option<PieceSessionType>)
    ensures
        r == filled(desc),
{
    match desc {
        PieceSessionType::Unknown => Some(
            PieceSessionType::Stream(Some(PieceData::max_payload() as u16)),
        ),
        PieceSessionType::Stream(None) => Some(
            PieceSessionType::Stream(Some(PieceData::max_payload() as u16)),
        ),
        PieceSessionType::Stream(Some(s)) => Some(PieceSessionType::Stream(Some(s))),
        _ => None,
    }
}

// ---- the downloader -------------------------------------------------------------

/// The states of a downloader.
#[derive(Clone, Copy, Debug, PartialEq, Eq, Structural)]
pub enum DownloaderState {
    /// It is not known yet whether the chunk is here already.
    Loading,
    /// The chunk is being fetched.
    Downloading,
    /// The chunk is here.
    Finished,
}

/// The session a downloader has going: the channel it is on, its number
/// there, and the source it fetches from.
#[derive(Debug)]
pub struct SessionRef {
    pub channel: usize,
    pub session_id: TempSeq,
    pub target: DeviceId,
    pub referer: Option<String>,
}

/// A session by its place: the channel it is on, and its number there.
pub ghost struct SessionKey {
    pub channel: int,
    pub session_id: TempSeq,
}

/// A source by what it is known by: the peer, and the referer to ask it
/// with.
pub ghost struct SourceKey {
    pub target: Seq<u8>,
    pub referer: Option<Seq<char>>,
}

/// Whether the session `key` still runs on `channels`.
pub open spec fn live(channels: Seq<ChannelView>, key: SessionKey) -> bool {
    &&& 0 <= key.channel < channels.len()
    &&& exists|k: int|
        0 <= k < channels[key.channel].downloads.len() && (
        #[trigger] channels[key.channel].downloads[k]).session_id == key.session_id
            && !channels[key.channel].downloads[k].phase.is_terminal()
}

/// Whether the session `key` is on `channels`, for `chunk` on behalf of
/// `referer`.
pub open spec fn session_on(
    channels: Seq<ChannelView>,
    key: SessionKey,
    chunk: ChunkIdView,
    referer: Option<Seq<char>>,
) -> bool {
    exists|k: int|
        0 <= k < channels[key.channel].downloads.len() && (
        #[trigger] channels[key.channel].downloads[k]).session_id == key.session_id
            && channels[key.channel].downloads[k].chunk == chunk
            && channels[key.channel].downloads[k].referer == referer
}

/// Whether `woken` are those who waited for the session `key`, with the
/// channel it is on.
pub open spec fn woken_for(woken: (usize, SessionWake), key: SessionKey) -> bool {
    woken.0 == key.channel && woken.1.session_id == key.session_id
}

/// Whether `sent` is the `Interest` of the session `key` for `chunk`, with
/// the channel to send it on.
pub open spec fn sent_for(sent: (usize, Interest), key: SessionKey, chunk: ChunkIdView) -> bool {
    sent.0 == key.channel && sent.1@.session_id == key.session_id && sent.1@.chunk == chunk
}

/// What a downloader wants done after it was pumped.
#[derive(Debug)]
pub struct DrainOutput {
    /// The speed the downloader achieves.
    pub speed: u32,
    /// An `Interest` to send, on the channel that stands at the index.
    pub interest: Option<(usize, Interest)>,
    /// Those to wake, who waited for a session on the channel that stands
    /// at the index.
    pub wake: Option<(usize, SessionWake)>,
}

/// The demand for one chunk.
pub struct ChunkDownloader {
    chunk: ChunkId,
    state: DownloaderState,
    session: Option<SessionRef>,
    sources: Vec<DownloadSource>,
    created: Ghost<Seq<SessionKey>>,
}

/// A downloader as plain values.
pub ghost struct ChunkDownloaderView {
    pub chunk: ChunkIdView,
    pub state: DownloaderState,
    /// The session the downloader has going.
    pub session: Option<SessionKey>,
    /// The source of that session.
    pub session_source: Option<SourceKey>,
    /// The sources it knows, in the order in which it learned of them.
    pub sources: Seq<DownloadSourceView>,
    /// Every session it ever had going, in their order.
    pub created: Seq<SessionKey>,
}

/// The sources of a list as plain values.
pub open spec fn sources_view(v: Seq<DownloadSource>) -> Seq<DownloadSourceView> {
    Seq::new(v.len(), |k: int| v[k]@)
}

impl View for ChunkDownloader {
    type V = ChunkDownloaderView;

    closed spec fn view(&self) -> ChunkDownloaderView {
        ChunkDownloaderView {
            chunk: self.chunk@,
            state: self.state,
            session: match self.session {
                Some(r) => Some(SessionKey { channel: r.channel as int, session_id: r.session_id }),
                None => None,
            },
            session_source: match self.session {
                Some(r) => Some(SourceKey { target: r.target@, referer: view_opt(r.referer) }),
                None => None,
            },
            sources: sources_view(self.sources@),
            created: self.created@,
        }
    }
}

impl ChunkDownloaderView {
    /// Whether the downloader knows a source at `target` with `referer`.
    pub open spec fn source_exists(self, target: Seq<u8>, referer: Option<Seq<char>>) -> bool {
        exists|k: int|
            0 <= k < self.sources.len() && (#[trigger] self.sources[k]).target == target
                && self.sources[k].referer == referer
    }

    /// Whether the downloader keeps the session it has going: it has one,
    /// and it still knows the source of it.
    pub open spec fn keeps(self) -> bool {
        self.session is Some && self.source_exists(
            self.session_source->0.target,
            self.session_source->0.referer,
        )
    }

    /// Whether a downloader that has no session going begins one: it knows
    /// a source that offers a plain stream, and the channel to the first
    /// source it knows has a session that still runs for the chunk and the
    /// referer, or a number left for a new one.
    pub open spec fn begins(self, channels: Seq<ChannelView>, config: ChannelConfig) -> bool {
        &&& self.sources.len() > 0
        &&& filled(self.sources[0].encode_desc) is Some
        &&& channel_for(channels, self.sources[0].target, config).download_gives(
            self.chunk,
            self.sources[0].referer,
        ) is Some
    }

    /// The session a downloader begins: on the channel to the first source
    /// it knows, under the number that channel gives.
    pub open spec fn begun_key(
        self,
        channels: Seq<ChannelView>,
        config: ChannelConfig,
    ) -> SessionKey {
        SessionKey {
            channel: channel_to(channels, self.sources[0].target),
            session_id: channel_for(channels, self.sources[0].target, config).download_gives(
                self.chunk,
                self.sources[0].referer,
            )->0,
        }
    }

    /// The channel to the first source a downloader knows, after the
    /// session it begins was asked for there.
    pub open spec fn asked(self, channels: Seq<ChannelView>, config: ChannelConfig) -> ChannelView {
        channel_for(channels, self.sources[0].target, config).downloaded(
            self.chunk,
            filled(self.sources[0].encode_desc)->0,
            self.sources[0].referer,
        )
    }

    /// The downloader after it began a session: it has that session going,
    /// from the first source it knows, and the session is the latest of
    /// those it ever had going.
    pub open spec fn begun(
        self,
        channels: Seq<ChannelView>,
        config: ChannelConfig,
    ) -> ChunkDownloaderView {
        ChunkDownloaderView {
            session: Some(self.begun_key(channels, config)),
            session_source: Some(
                SourceKey { target: self.sources[0].target, referer: self.sources[0].referer },
            ),
            created: self.created.push(self.begun_key(channels, config)),
            ..self
        }
    }

    /// What always holds between a downloader and the channels: of all the
    /// sessions it ever had going, only the one it has going now may still
    /// run; and each of them has a number that its channel has given out.
    pub open spec fn inv(self, channels: Seq<ChannelView>) -> bool {
        &&& self.session is Some <==> self.session_source is Some
        &&& self.session is Some ==> self.state is Downloading
        &&& self.session matches Some(key) ==> self.created.contains(key)
        &&& forall|i: int|
            0 <= i < self.created.len() ==> 0 <= (#[trigger] self.created[i]).channel
                < channels.len() && self.created[i].session_id.0
                < channels[self.created[i].channel].next_session
        &&& forall|i: int|
            0 <= i < self.created.len() && live(channels, #[trigger] self.created[i])
                ==> self.session == Some(self.created[i])
    }
}

/// The speed of the session a downloader has going, as `of` reads it off
/// a session; nothing where it has none, or the channels have no such
/// session.
pub open spec fn session_speed(
    d: ChunkDownloaderView,
    channels: Seq<ChannelView>,
    of: spec_fn(crate::download::DownloadSessionView) -> u32,
) -> u32 {
    match d.session {
        Some(key) => if 0 <= key.channel < channels.len() {
            match channels[key.channel].find_download(key.session_id) {
                Some(k) => of(channels[key.channel].downloads[k]),
                None => 0,
            }
        } else {
            0
        },
        None => 0,
    }
}

/// The channels after the session `key` was given up for `UserCanceled`.
pub open spec fn retired(channels: Seq<ChannelView>, key: SessionKey) -> Seq<ChannelView> {
    if 0 <= key.channel < channels.len() {
        channels.update(
            key.channel,
            channels[key.channel].canceled(key.session_id, ErrorCode::UserCanceled),
        )
    } else {
        channels
    }
}

/// Those to wake when the session `key` is given up, with the channel it
/// is on: all who waited for it to end, where it still ran.
pub open spec fn retire_wake(channels: Seq<ChannelView>, key: SessionKey) -> Option<
    (usize, SessionWake),
> {
    if 0 <= key.channel < channels.len() {
        match channels[key.channel].find_download(key.session_id) {
            Some(k) => if !channels[key.channel].downloads[k].phase.is_terminal()
                && channels[key.channel].downloads[k].waiters > 0 {
                Some(
                    (
                        key.channel as usize,
                        SessionWake {
                            session_id: key.session_id,
                            count: channels[key.channel].downloads[k].waiters as usize,
                        },
                    ),
                )
            } else {
                None
            },
            None => None,
        }
    } else {
        None
    }
}

/// What `on_drain` at `now` does to a downloader that fetches and does not
/// keep the session it has going, and to the channels, and wants done: the
/// session it had going is given up; then a session is begun with the first
/// source it knows, where one can be: asked for on the channel to that
/// source, which is made where there is none, and started.
pub open spec fn renewed(
    before: ChunkDownloaderView,
    after: ChunkDownloaderView,
    old_channels: Seq<ChannelView>,
    new_channels: Seq<ChannelView>,
    config: ChannelConfig,
    now: Timestamp,
    out: DrainOutput,
) -> bool {
    let idle = ChunkDownloaderView { session: None, session_source: None, ..before };
    let mid = match before.session {
        Some(key) => retired(old_channels, key),
        None => old_channels,
    };
    &&& out.wake == (match before.session {
        Some(key) => retire_wake(old_channels, key),
        None => None,
    })
    &&& if idle.begins(mid, config) {
        let key = idle.begun_key(mid, config);
        let asked = idle.asked(mid, config);
        &&& after == idle.begun(mid, config)
        &&& new_channels.len() == (if key.channel < mid.len() {
            mid.len()
        } else {
            mid.len() + 1
        })
        &&& forall|m: int|
            0 <= m < mid.len() && m != key.channel ==> (#[trigger] new_channels[m]) == mid[m]
        &&& new_channels[key.channel] == asked.started(key.session_id, now)
        &&& asked.find_download(key.session_id) is Some
        &&& out.interest is Some <==> asked.downloads[asked.find_download(
            key.session_id,
        )->0].phase is Init
        &&& out.interest is Some ==> {
            let sent = out.interest.unwrap();
            sent.0 == key.channel && sent.1@ == asked.downloads[asked.find_download(
                key.session_id,
            )->0].interest()
        }
    } else {
        after == idle && new_channels == mid && out.interest is None
    }
}

/// What `on_drain` does to a downloader and to the channels, and wants
/// done.
pub open spec fn drained(
    before: ChunkDownloaderView,
    after: ChunkDownloaderView,
    channels_before: Seq<Channel>,
    channels_after: Seq<Channel>,
    out: DrainOutput,
) -> bool {
    let old_channels = channels_view(channels_before);
    let new_channels = channels_view(channels_after);
    &&& new_channels.len() >= old_channels.len()
    &&& after.chunk == before.chunk
    &&& after.state == before.state
    &&& after.sources == before.sources
    &&& !(before.state is Downloading) || before.keeps() ==> after == before && channels_after
        == channels_before && out.interest is None && out.wake is None
    &&& !(before.state is Downloading && before.keeps()) ==> out.speed == 0
    &&& before.state is Downloading && before.keeps() ==> out.speed == session_speed(
        before,
        old_channels,
        |s: crate::download::DownloadSessionView| s.cur_speed(),
    )
    &&& before.state is Downloading && !before.keeps() ==> {
        &&& before.session matches Some(key) ==> !live(new_channels, key)
        &&& out.wake is Some ==> before.session is Some && woken_for(
            out.wake->0,
            before.session->0,
        )
        &&& after.session is None ==> after.created == before.created && out.interest is None
        &&& after.session matches Some(key) ==> {
            let source = before.sources[0];
            &&& before.sources.len() > 0
            &&& after.created == before.created.push(key)
            &&& after.session_source == Some(
                SourceKey { target: source.target, referer: source.referer },
            )
            &&& new_channels[key.channel].remote == source.target
            &&& session_on(new_channels, key, before.chunk, source.referer)
            &&& out.interest is Some ==> sent_for(out.interest->0, key, before.chunk)
        }
    }
}

/// Of all the sessions a downloader ever had going, at most one still
/// runs.
pub proof fn lemma_at_most_one_session(d: ChunkDownloaderView, channels: Seq<ChannelView>, i: int,
    j: int)
    requires
        d.inv(channels),
        0 <= i < d.created.len(),
        0 <= j < d.created.len(),
        live(channels, d.created[i]),
        live(channels, d.created[j]),
    ensures
        d.created[i] == d.created[j],
{
}

/// A copy of an optional text.
fn clone_text(t: &Option<String>) -> (r: Option<String>)
    ensures
        view_opt(r) == view_opt(*t),
{
    match t {
        Some(s) => Some(s.clone()),
        None => None,
    }
}

/// Whether two optional texts are the same.
fn same_text(a: &Option<String>, b: &Option<String>) -> (r: bool)
    ensures
        r == (view_opt(*a) == view_opt(*b)),
{
    match a {
        Some(x) => match b {
            Some(y) => {
                let same: bool = *x == *y;
                same
            },
            None => false,
        },
        None => b.is_none(),
    }
}

impl DrainOutput {
    /// Nothing achieved, nothing to do.
    pub fn none() -> (o: DrainOutput)
        ensures
            o.speed == 0,
            o.interest is None,
            o.wake is None,
    {
        DrainOutput { speed: 0, interest: None, wake: None }
    }
}

impl ChunkDownloader {
    /// A downloader for `chunk` that does not know yet whether the chunk is
    /// here, nor any source of it.
    pub fn new(chunk: ChunkId) -> (d: ChunkDownloader)
        ensures
            d@ == (ChunkDownloaderView {
                chunk: chunk@,
                state: DownloaderState::Loading,
                session: None,
                session_source: None,
                sources: Seq::empty(),
                created: Seq::empty(),
            }),
            forall|channels: Seq<ChannelView>| d@.inv(channels),
    {
        let d = Self {
            chunk,
            state: DownloaderState::Loading,
            session: None,
            sources: Vec::new(),
            created: Ghost(Seq::empty()),
        };
        assert(d@.sources =~= Seq::empty());
        d
    }

    /// Tells a downloader that is `Loading` whether the chunk is here
    /// already: it is `Finished` then, and never asks for it; else it is
    /// `Downloading` from now on. Any other downloader stays as it is.
    pub fn on_loaded(&mut self, finished: bool)
        ensures
            final(self)@ == (ChunkDownloaderView {
                state: if old(self)@.state is Loading {
                    if finished {
                        DownloaderState::Finished
                    } else {
                        DownloaderState::Downloading
                    }
                } else {
                    old(self)@.state
                },
                ..old(self)@
            }),
            forall|channels: Seq<ChannelView>|
                old(self)@.inv(channels) ==> final(self)@.inv(channels),
    {
        match self.state {
            DownloaderState::Loading => {
                if finished {
                    self.state = DownloaderState::Finished;
                } else {
                    self.state = DownloaderState::Downloading;
                }
            },
            _ => {},
        }
    }

    pub fn chunk(&self) -> (c: &ChunkId)
        ensures
            c@ == self@.chunk,
    {
        &self.chunk
    }

    pub fn state(&self) -> (s: DownloaderState)
        ensures
            s == self@.state,
    {
        self.state
    }

    /// The session the downloader has going.
    pub fn session(&self) -> (r: Option<&SessionRef>)
        ensures
            r is Some <==> self@.session is Some,
            r matches Some(s) ==> self@.session == Some(
                SessionKey { channel: s.channel as int, session_id: s.session_id },
            ) && self@.session_source == Some(
                SourceKey { target: s.target@, referer: view_opt(s.referer) },
            ),
    {
        self.session.as_ref()
    }

    /// The number of sources the downloader knows.
    pub fn source_count(&self) -> (n: usize)
        ensures
            n == self@.sources.len(),
    {
        self.sources.len()
    }

    /// Learns of a source; it comes behind those known already.
    pub fn add_source(&mut self, source: DownloadSource)
        ensures
            final(self)@ == (ChunkDownloaderView {
                sources: old(self)@.sources.push(source@),
                ..old(self)@
            }),
            forall|channels: Seq<ChannelView>|
                old(self)@.inv(channels) ==> final(self)@.inv(channels),
    {
        self.sources.push(source);
        assert(self@.sources =~= old(self)@.sources.push(source@));
    }

    /// Forgets every source; the session the downloader has going is given
    /// up when it is pumped next.
    pub fn clear_sources(&mut self)
        ensures
            final(self)@ == (ChunkDownloaderView { sources: Seq::empty(), ..old(self)@ }),
            forall|channels: Seq<ChannelView>|
                old(self)@.inv(channels) ==> final(self)@.inv(channels),
    {
        self.sources = Vec::new();
        assert(self@.sources =~= Seq::empty());
    }

    /// Whether the downloader knows a source at `target` with `referer`.
    pub fn source_exists(&self, target: &DeviceId, referer: &Option<String>) -> (b: bool)
        ensures
            b == self@.source_exists(target@, view_opt(*referer)),
    {
        let n: usize = self.sources.len();
        let mut k: usize = 0;
        while k < n
            invariant
                n == self.sources@.len(),
                k <= n,
                forall|m: int|
                    0 <= m < k ==> !((#[trigger] self@.sources[m]).target == target@
                        && self@.sources[m].referer == view_opt(*referer)),
            decreases n - k,
        {
            if self.sources[k].target.same(target) && same_text(&self.sources[k].referer, referer) {
                assert(self@.sources[k as int].target == target@);
                return true;
            }
            k += 1;
        }
        false
    }

    /// How much the downloader wants to be pumped.
    pub fn drain_score(&self) -> (s: i64)
        ensures
            s == 0,
    {
        0
    }

    /// The latest sample of the speed of the session the downloader has
    /// going; nothing where it has none.
    pub fn cur_speed(&self, channels: &ChannelManager) -> (speed: u32)
        requires
            channels.wf(),
        ensures
            speed == session_speed(
                self@,
                channels@,
                |s: crate::download::DownloadSessionView| s.cur_speed(),
            ),
    {
        match &self.session {
            Some(r) => {
                if r.channel < channels.channels.len() {
                    let channel: &Channel = &channels.channels[r.channel];
                    match channel.find_download(&r.session_id) {
                        Some(k) => channel.download_at(k).cur_speed(),
                        None => 0,
                    }
                } else {
                    0
                }
            },
            None => 0,
        }
    }

    /// The mean of the latest samples of the speed of the session the
    /// downloader has going; nothing where it has none.
    pub fn history_speed(&self, channels: &ChannelManager) -> (speed: u32)
        requires
            channels.wf(),
        ensures
            speed == session_speed(
                self@,
                channels@,
                |s: crate::download::DownloadSessionView| s.history_speed(),
            ),
    {
        match &self.session {
            Some(r) => {
                if r.channel < channels.channels.len() {
                    let channel: &Channel = &channels.channels[r.channel];
                    match channel.find_download(&r.session_id) {
                        Some(k) => channel.download_at(k).history_speed(),
                        None => 0,
                    }
                } else {
                    0
                }
            },
            None => 0,
        }
    }

    /// Pumps the downloader at `now`. One that is not `Downloading` does
    /// nothing. One that has a session going and still knows its source
    /// goes on with it, and returns its speed. One whose session's source
    /// was taken from it gives the session up for `UserCanceled`. One
    /// that has no session going then begins one with the first source it
    /// knows, on the channel to that source, for a plain stream: the
    /// `Interest` to send is returned.
    #[verifier::spinoff_prover]
    #[verifier::rlimit(60)]
    pub fn on_drain(&mut self, channels: &mut ChannelManager, now: Timestamp) -> (out: DrainOutput)
        requires
            old(channels).wf(),
            old(self)@.inv(old(channels)@),
        ensures
            final(channels).wf(),
            final(self)@.inv(final(channels)@),
            drained(
                old(self)@,
                final(self)@,
                old(channels).channels@,
                final(channels).channels@,
                out,
            ),
            final(channels).config == old(channels).config,
            old(self)@.state is Downloading && !old(self)@.keeps() ==> renewed(
                old(self)@,
                final(self)@,
                old(channels)@,
                final(channels)@,
                old(channels).config,
                now,
                out,
            ),
    {
        match self.state {
            DownloaderState::Downloading => {},
            _ => {
                return DrainOutput::none();
            },
        }
        let mut out = DrainOutput::none();
        match self.session.take() {
            Some(r) => {
                if self.source_exists(&r.target, &r.referer) {
                    let speed: u32 = if r.channel < channels.channels.len() {
                        let channel: &Channel = &channels.channels[r.channel];
                        match channel.find_download(&r.session_id) {
                            Some(k) => channel.download_at(k).cur_speed(),
                            None => 0,
                        }
                    } else {
                        0
                    };
                    self.session = Some(r);
                    out.speed = speed;
                    return out;
                }
                out.wake = self.retire(channels, &r);
            },
            None => {},
        }
        let begun: Option<(usize, Interest)> = self.begin(channels, now);
        out.interest = begun;
        out
    }

    /// Whether none of the sessions the downloader ever had going still
    /// runs, and each has a number that its channel has given out.
    pub open spec fn idle(self, channels: Seq<ChannelView>) -> bool {
        &&& self@.session is None
        &&& self@.session_source is None
        &&& forall|i: int|
            0 <= i < self@.created.len() ==> 0 <= (#[trigger] self@.created[i]).channel
                < channels.len() && self@.created[i].session_id.0
                < channels[self@.created[i].channel].next_session && !live(
                channels,
                self@.created[i],
            )
    }

    /// Gives up the session `r`, which the downloader had going: cancels it
    /// for `UserCanceled`, and returns those to wake.
    #[verifier::spinoff_prover]
    #[verifier::rlimit(60)]
    fn retire(&mut self, channels: &mut ChannelManager, r: &SessionRef) -> (wake: Option<
        (usize, SessionWake),
    >)
        requires
            old(channels).wf(),
            old(self)@.session is None,
            old(self)@.created.contains(
                SessionKey { channel: r.channel as int, session_id: r.session_id },
            ),
            forall|i: int|
                0 <= i < old(self)@.created.len() ==> 0
                    <= (#[trigger] old(self)@.created[i]).channel
                    < old(channels)@.len() && old(self)@.created[i].session_id.0
                        < old(channels)@[old(self)@.created[i].channel].next_session && (live(
                    old(channels)@,
                    old(self)@.created[i],
                ) ==> old(self)@.created[i] == (SessionKey {
                    channel: r.channel as int,
                    session_id: r.session_id,
                })),
        ensures
            final(channels).wf(),
            final(channels)@.len() == old(channels)@.len(),
            *final(self) == *old(self),
            final(self).idle(final(channels)@),
            wake is Some ==> woken_for(
                wake->0,
                SessionKey { channel: r.channel as int, session_id: r.session_id },
            ),
            final(channels).config == old(channels).config,
            final(channels)@ == retired(
                old(channels)@,
                SessionKey { channel: r.channel as int, session_id: r.session_id },
            ),
            wake == retire_wake(
                old(channels)@,
                SessionKey { channel: r.channel as int, session_id: r.session_id },
            ),
    {
        let ghost key = SessionKey { channel: r.channel as int, session_id: r.session_id };
        let ghost start_channels = channels@;
        proof {
            let i = choose|i: int| 0 <= i < self@.created.len() && self@.created[i] == key;
            assert(0 <= self@.created[i].channel < channels@.len());
        }
        let ghost before = channels.channels@[r.channel as int]@;
        let ghost all_before = channels.channels@;
        let wake = channels.channels[r.channel].cancel_download(
            &r.session_id,
            ErrorCode::UserCanceled,
        );
        proof {
            let after = channels.channels@[r.channel as int]@;
            channels.channels@[r.channel as int].lemma_wf_view();
            all_before[r.channel as int].lemma_wf_view();
            assert forall|m: int| 0 <= m < channels.channels@.len() && m
                != r.channel implies channels.channels@[m] == all_before[m] by {}
            assert forall|k: int| 0 <= k < after.downloads.len() implies (
            #[trigger] after.downloads[k]).session_id == before.downloads[k].session_id && (
            after.downloads[k].phase.is_terminal() || before.downloads[k] == after.downloads[k]
                && before.downloads[k].session_id != r.session_id) by {
                let found = before.find_download(r.session_id);
                if found is Some {
                    let f = found->0;
                    assert(0 <= f < before.downloads.len() && before.downloads[f].session_id
                        == r.session_id);
                    if k < f {
                        assert(before.downloads[k].session_id != before.downloads[f].session_id);
                    } else if f < k {
                        assert(before.downloads[f].session_id != before.downloads[k].session_id);
                    }
                } else {
                    assert(before.downloads[k].session_id != r.session_id);
                }
            }
            assert forall|i: int| 0 <= i < self@.created.len() implies !live(
                channels@,
                #[trigger] self@.created[i],
            ) by {
                let c = self@.created[i];
                if live(channels@, c) {
                    let k = choose|k: int|
                        0 <= k < channels@[c.channel].downloads.len() && (
                        #[trigger] channels@[c.channel].downloads[k]).session_id == c.session_id
                            && !channels@[c.channel].downloads[k].phase.is_terminal();
                    if c.channel == r.channel {
                        assert(before.downloads[k] == after.downloads[k]);
                        assert(start_channels[c.channel].downloads[k].session_id == c.session_id);
                    } else {
                        assert(channels@[c.channel] == start_channels[c.channel]);
                        assert(start_channels[c.channel].downloads[k].session_id == c.session_id);
                    }
                    assert(live(start_channels, c));
                }
            }
        }
        match wake {
            Some(w) => Some((r.channel, w)),
            None => None,
        }
    }

    /// Begins a session with the first source the downloader knows, and
    /// returns the `Interest` to send, with the channel to send it on. The
    /// session is asked for on the channel to that source, which is made
    /// where there is none, and started at `now`; it is a new one unless one
    /// still runs there for the chunk and the referer. An `Interest` is
    /// returned where the session had not been started before. Nothing is
    /// begun, and nothing changes, where the downloader knows no source,
    /// the first offers no plain stream, or its channel has no number left
    /// for a new session.
    #[verifier::spinoff_prover]
    #[verifier::rlimit(60)]
    fn begin(&mut self, channels: &mut ChannelManager, now: Timestamp) -> (r: Option<
        (usize, Interest),
    >)
        requires
            old(channels).wf(),
            old(self)@.state is Downloading,
            old(self).idle(old(channels)@),
        ensures
            final(channels).wf(),
            final(self)@.inv(final(channels)@),
            final(channels)@.len() >= old(channels)@.len(),
            final(self)@.chunk == old(self)@.chunk,
            final(self)@.state == old(self)@.state,
            final(self)@.sources == old(self)@.sources,
            forall|i: int|
                0 <= i < old(self)@.created.len() ==> !live(
                    final(channels)@,
                    #[trigger] old(self)@.created[i],
                ),
            final(self)@.session is None ==> final(self)@.created == old(self)@.created && r
                is None,
            final(self)@.session is Some ==> old(self)@.sources.len() > 0,
            final(self)@.session is Some ==> final(self)@.created == old(self)@.created.push(
                final(self)@.session->0,
            ),
            final(self)@.session is Some ==> final(self)@.session_source == Some(
                SourceKey {
                    target: old(self)@.sources[0].target,
                    referer: old(self)@.sources[0].referer,
                },
            ),
            final(self)@.session is Some
                ==> final(channels)@[final(self)@.session->0.channel].remote
                == old(self)@.sources[0].target,
            final(self)@.session is Some ==> session_on(
                final(channels)@,
                final(self)@.session->0,
                old(self)@.chunk,
                old(self)@.sources[0].referer,
            ),
            final(self)@.session is Some && r is Some ==> sent_for(
                r->0,
                final(self)@.session->0,
                old(self)@.chunk,
            ),
            final(channels).config == old(channels).config,
            !old(self)@.begins(old(channels)@, old(channels).config) ==> final(self)@ == old(self)@
                && final(channels)@ == old(channels)@ && r is None,
            old(self)@.begins(old(channels)@, old(channels).config) ==> final(self)@
                == old(self)@.begun(old(channels)@, old(channels).config),
            old(self)@.begins(old(channels)@, old(channels).config) ==> {
                let c = channel_to(old(channels)@, old(self)@.sources[0].target);
                &&& final(channels)@.len() == (if c < old(channels)@.len() {
                    old(channels)@.len()
                } else {
                    old(channels)@.len() + 1
                })
                &&& forall|m: int|
                    0 <= m < old(channels)@.len() && m != c ==> (#[trigger] final(channels)@[m])
                        == old(channels)@[m]
            },
            old(self)@.begins(old(channels)@, old(channels).config) ==> {
                let key = old(self)@.begun_key(old(channels)@, old(channels).config);
                let asked = old(self)@.asked(old(channels)@, old(channels).config);
                final(channels)@[key.channel] == asked.started(key.session_id, now)
            },
            old(self)@.begins(old(channels)@, old(channels).config) ==> {
                let key = old(self)@.begun_key(old(channels)@, old(channels).config);
                let asked = old(self)@.asked(old(channels)@, old(channels).config);
                &&& asked.find_download(key.session_id) is Some
                &&& r is Some <==> asked.downloads[asked.find_download(
                    key.session_id,
                )->0].phase is Init
            },
            old(self)@.begins(old(channels)@, old(channels).config) && r is Some ==> {
                let key = old(self)@.begun_key(old(channels)@, old(channels).config);
                let asked = old(self)@.asked(old(channels)@, old(channels).config);
                let sent = r.unwrap();
                sent.0 == key.channel && sent.1@ == asked.downloads[asked.find_download(
                    key.session_id,
                )->0].interest()
            },
    {
        let ghost start_view = self@;
        let ghost mid_channels = channels@;
        if self.sources.len() == 0 {
            return None;
        }
        let prefer: PieceSessionType = match fill_values(self.sources[0].encode_desc) {
            Some(p) => p,
            None => {
                return None;
            },
        };
        let target: DeviceId = self.sources[0].target;
        let referer: Option<String> = clone_text(&self.sources[0].referer);
        let kept: Option<String> = clone_text(&self.sources[0].referer);
        let c: usize = channels.create_channel(&target);
        let ghost made_channels = channels@;
        proof {
            assert forall|m: int| 0 <= m < mid_channels.len() implies made_channels[m]
                == mid_channels[m] by {
                if c >= mid_channels.len() {
                    assert(channels.channels@.take(c as int)[m] == channels.channels@[m]);
                }
            }
            assert forall|i: int| 0 <= i < self@.created.len() implies !live(
                made_channels,
                #[trigger] self@.created[i],
            ) by {
                let key = self@.created[i];
                assert(made_channels[key.channel] == mid_channels[key.channel]);
                if live(made_channels, key) {
                    assert(live(mid_channels, key));
                }
            }
        }
        let ghost before = channels.channels@[c as int]@;
        let ghost all_before = channels.channels@;
        let made = channels.channels[c].download(self.chunk, prefer, referer);
        let id: TempSeq = match made {
            Ok(id) => id,
            Err(_) => {
                proof {
                    assert(channels.channels@[c as int]@ == before);
                    assert(channels@ =~= made_channels);
                    channels.channels@[c as int].lemma_wf_view();
                }
                return None;
            },
        };
        let ghost chosen = channels.channels@[c as int]@;
        proof {
            channels.channels@[c as int].lemma_wf_view();
            all_before[c as int].lemma_wf_view();
        }
        let started = channels.channels[c].start(&id, now);
        let mut out: Option<(usize, Interest)> = None;
        match started {
            Ok((_, o)) => {
                match o.interest {
                    Some(i) => {
                        out = Some((c, i));
                    },
                    None => {},
                }
            },
            Err(_) => {},
        }
        let ghost key = SessionKey { channel: c as int, session_id: id };
        self.session = Some(SessionRef { channel: c, session_id: id, target, referer: kept });
        self.created = Ghost(self.created@.push(key));
        proof {
            let after = channels.channels@[c as int]@;
            channels.channels@[c as int].lemma_wf_view();
            let at = chosen.find_download(id);
            assert(at is Some) by {
                if before.find_running(self@.chunk, view_opt(kept)) is Some {
                    let f = before.find_running(self@.chunk, view_opt(kept))->0;
                    assert(before.runs_for(f, self@.chunk, view_opt(kept)));
                    assert(chosen.downloads[f].session_id == id);
                } else {
                    assert(chosen.downloads[before.downloads.len() as int].session_id == id);
                }
            }
            let f = at->0;
            assert(0 <= f < chosen.downloads.len() && chosen.downloads[f].session_id == id);
            assert(after.downloads.len() == chosen.downloads.len());
            assert(after.downloads[f].session_id == id);
            assert(after.downloads[f].chunk == self@.chunk && after.downloads[f].referer
                == view_opt(kept));
            assert(after.next_session == chosen.next_session);
            assert(id.0 < after.next_session);
            assert forall|m: int| 0 <= m < channels.channels@.len() && m != c implies channels@[m]
                == made_channels[m] by {
                assert(channels.channels@[m] == all_before[m]);
            }
            assert forall|i: int| 0 <= i < start_view.created.len() implies !live(
                channels@,
                #[trigger] start_view.created[i],
            ) && start_view.created[i].session_id.0
                < channels@[start_view.created[i].channel].next_session by {
                let old_key = start_view.created[i];
                assert(self@.created[i] == old_key);
                assert(!live(made_channels, old_key));
                if old_key.channel == c {
                    if live(channels@, old_key) {
                        let k = choose|k: int|
                            0 <= k < after.downloads.len()
                                && (#[trigger] after.downloads[k]).session_id
                                == old_key.session_id && !after.downloads[k].phase.is_terminal();
                        if k < before.downloads.len() {
                            assert(chosen.downloads[k] == before.downloads[k]);
                            if k != f {
                                assert(after.downloads[k] == chosen.downloads[k]);
                            } else {
                                assert(!chosen.downloads[k].phase.is_terminal()) by {
                                    if before.find_running(self@.chunk, view_opt(kept)) is Some {
                                        let g = before.find_running(
                                            self@.chunk,
                                            view_opt(kept),
                                        )->0;
                                        assert(before.runs_for(g, self@.chunk, view_opt(kept)));
                                        if g < k {
                                            assert(before.downloads[g].session_id
                                                != before.downloads[k].session_id);
                                        } else if k < g {
                                            assert(before.downloads[k].session_id
                                                != before.downloads[g].session_id);
                                        }
                                    }
                                }
                            }
                            assert(before.downloads[k].session_id == old_key.session_id);
                            assert(!before.downloads[k].phase.is_terminal());
                            assert(live(made_channels, old_key));
                        } else {
                            assert(old_key.session_id.0 < before.next_session);
                            assert(after.downloads[k].session_id == TempSeq(before.next_session));
                        }
                    }
                } else {
                    assert(channels@[old_key.channel] == made_channels[old_key.channel]);
                    if live(channels@, old_key) {
                        assert(live(made_channels, old_key));
                    }
                }
            }
            assert forall|i: int|
                0 <= i < self@.created.len() && live(
                    channels@,
                    #[trigger] self@.created[i],
                ) implies self@.session == Some(self@.created[i]) by {
                if i < start_view.created.len() {
                    assert(self@.created[i] == start_view.created[i]);
                }
            }
            assert(self@.created[start_view.created.len() as int] == key);
            assert(self@.created.contains(key));
            assert(after.remote == target@);
            assert(channels@[c as int] == after);
            assert(self@.sources[0] == self.sources@[0]@);
            assert(start_view.sources[0].referer == view_opt(kept));
            assert(channels@[key.channel].downloads[f].session_id == key.session_id
                && channels@[key.channel].downloads[f].chunk == start_view.chunk
                && channels@[key.channel].downloads[f].referer == start_view.sources[0].referer);
            assert(session_on(channels@, key, start_view.chunk, start_view.sources[0].referer));
            if out is Some {
                assert(started is Ok);
                assert(chosen.find_download(id) == Some(f));
                let sent = out.unwrap();
                assert(sent.1@ == chosen.downloads[f].interest());
            }
        }
        out
    }
}

} // verus!
