//! The chunks this peer deals with: one cache for each, and the downloaders
//! that fetch them.
//!
//! Whoever wants a cache or a downloader asks the manager, which hands out
//! the one it has where it has one: all who ask for one chunk share one
//! cache, and all who ask to share a downloader for one chunk share one.
//! Each is kept while someone holds it, and let go when the last holder
//! gives it back.

use vstd::prelude::*;
use crate::cache::ChunkCache;
use crate::channel::ChannelView;
use crate::downloader::drained;
use crate::downloader::renewed;
use crate::downloader::ChannelManager;
use crate::downloader::ChunkDownloader;
use crate::downloader::DownloaderState;
use crate::downloader::DrainOutput;
use crate::error::ErrorCode;
use crate::protocol::PieceData;
use crate::stream::StreamCacheView;
use crate::types::ChunkId;
use crate::types::ChunkIdView;
use crate::types::Timestamp;

verus! {

/// A cache with the number of those who hold it.
pub struct CacheEntry {
    pub cache: ChunkCache,
    pub holders: usize,
}

/// A downloader with the number it is known by, whether it is shared, and
/// the number of those who hold it.
pub struct DownloaderEntry {
    pub id: u64,
    pub mergable: bool,
    pub holders: usize,
    pub downloader: ChunkDownloader,
}

/// The chunks this peer deals with.
pub struct ChunkManager {
    pub caches: Vec<CacheEntry>,
    pub downloaders: Vec<DownloaderEntry>,
    pub next_id: u64,
}

/// One more holder; the count stops at the most a machine word holds.
pub open spec fn one_more(holders: usize) -> usize {
    if holders < usize::MAX {
        (holders + 1) as usize
    } else {
        holders
    }
}

/// The caches after the cache of `chunk` was given back for one holder: with
/// one holder less, or without that cache where it had no other holder; as
/// they were, where there is no cache of `chunk`.
pub open spec fn caches_released(caches: Seq<CacheEntry>, chunk: ChunkIdView) -> Seq<CacheEntry> {
    if exists|k: int| 0 <= k < caches.len() && (#[trigger] caches[k]).cache@.chunk == chunk {
        let k = choose|k: int| 0 <= k < caches.len() && (#[trigger] caches[k]).cache@.chunk == chunk;
        if caches[k].holders > 1 {
            caches.update(
                k,
                CacheEntry { cache: caches[k].cache, holders: (caches[k].holders - 1) as usize },
            )
        } else {
            caches.remove(k)
        }
    } else {
        caches
    }
}

/// Whether `after` are the caches `before` with the cache of `chunk` taken
/// for one more holder: the cache there was, with one holder more, or a
/// new cache with no piece there and one holder, behind the others.
pub open spec fn cache_taken(
    before: Seq<CacheEntry>,
    after: Seq<CacheEntry>,
    chunk: ChunkIdView,
) -> bool {
    if exists|k: int| 0 <= k < before.len() && (#[trigger] before[k]).cache@.chunk == chunk {
        let k = choose|k: int| 0 <= k < before.len() && (#[trigger] before[k]).cache@.chunk == chunk;
        after == before.update(
            k,
            CacheEntry { cache: before[k].cache, holders: one_more(before[k].holders) },
        )
    } else {
        &&& after.len() == before.len() + 1
        &&& after.take(before.len() as int) == before
        &&& after.last().holders == 1
        &&& after.last().cache.error() is None
        &&& after.last().cache@ == StreamCacheView::empty(
            chunk,
            PieceData::max_payload_spec() as nat,
        )
    }
}

impl ChunkManager {
    /// Whether the cache that stands at `k` is the cache of `chunk`.
    pub open spec fn caches_chunk(&self, k: int, chunk: ChunkIdView) -> bool {
        0 <= k < self.caches@.len() && self.caches@[k].cache@.chunk == chunk
    }

    /// Whether the downloader that stands at `k` is the shared downloader
    /// of `chunk`.
    pub open spec fn shares_chunk(&self, k: int, chunk: ChunkIdView) -> bool {
        0 <= k < self.downloaders@.len() && self.downloaders@[k].mergable
            && self.downloaders@[k].downloader@.chunk == chunk
    }

    /// Whether the downloader that stands at `k` is known by `id`.
    pub open spec fn known_by(&self, k: int, id: u64) -> bool {
        0 <= k < self.downloaders@.len() && self.downloaders@[k].id == id
    }

    /// What always holds of a manager: every cache and every downloader is
    /// held by someone; no two caches are caches of one chunk; no two
    /// downloaders are known by one number, and the numbers yet to be given
    /// are greater than those given; and no two shared downloaders fetch one
    /// chunk.
    pub open spec fn wf(&self) -> bool {
        &&& forall|k: int|
            0 <= k < self.caches@.len() ==> (#[trigger] self.caches@[k]).cache.wf()
                && self.caches@[k].holders > 0
        &&& forall|k: int, m: int|
            0 <= k < m < self.caches@.len() ==> (#[trigger] self.caches@[k]).cache@.chunk != (
            #[trigger] self.caches@[m]).cache@.chunk
        &&& forall|k: int|
            0 <= k < self.downloaders@.len() ==> (#[trigger] self.downloaders@[k]).holders > 0
                && self.downloaders@[k].id < self.next_id
        &&& forall|k: int, m: int|
            0 <= k < m < self.downloaders@.len() ==> (#[trigger] self.downloaders@[k]).id != (
            #[trigger] self.downloaders@[m]).id
        &&& forall|k: int, m: int|
            0 <= k < m < self.downloaders@.len() && (#[trigger] self.downloaders@[k]).mergable && (
            #[trigger] self.downloaders@[m]).mergable ==> self.downloaders@[k].downloader@.chunk
                != self.downloaders@[m].downloader@.chunk
    }

    /// What always holds between the downloaders and the channels: what
    /// holds between each of them and the channels.
    pub open spec fn inv(&self, channels: Seq<ChannelView>) -> bool {
        forall|k: int|
            0 <= k < self.downloaders@.len() ==> (#[trigger] self.downloaders@[k]).downloader@.inv(
                channels,
            )
    }

    /// A manager of no chunks.
    pub fn new() -> (m: ChunkManager)
        ensures
            m.wf(),
            m.caches@.len() == 0,
            m.downloaders@.len() == 0,
            m.next_id == 1,
            forall|channels: Seq<ChannelView>| m.inv(channels),
    {
        Self { caches: Vec::new(), downloaders: Vec::new(), next_id: 1 }
    }

    /// Where the cache of `chunk` stands, where there is one.
    pub fn cache_of(&self, chunk: &ChunkId) -> (r: Option<usize>)
        requires
            self.wf(),
        ensures
            r matches Some(k) ==> self.caches_chunk(k as int, chunk@),
            r is None ==> forall|k: int| !self.caches_chunk(k, chunk@),
    {
        let n: usize = self.caches.len();
        let mut k: usize = 0;
        while k < n
            invariant
                self.wf(),
                n == self.caches@.len(),
                k <= n,
                forall|m: int| 0 <= m < k ==> !self.caches_chunk(m, chunk@),
            decreases n - k,
        {
            if self.caches[k].cache.chunk().same(chunk) {
                return Some(k);
            }
            k += 1;
        }
        None
    }

    /// The cache of `chunk` for one more holder: the one there is, where
    /// there is one, and a new one with no piece there, behind the others,
    /// where there is none. Returns where it stands.
    pub fn create_cache(&mut self, chunk: &ChunkId) -> (k: usize)
        requires
            old(self).wf(),
        ensures
            final(self).wf(),
            final(self).caches_chunk(k as int, chunk@),
            final(self).downloaders == old(self).downloaders,
            final(self).next_id == old(self).next_id,
            cache_taken(old(self).caches@, final(self).caches@, chunk@),
            k < old(self).caches@.len() ==> old(self).caches_chunk(k as int, chunk@)
                && final(self).caches@.len() == old(self).caches@.len()
                && final(self).caches@[k as int].cache
                == old(self).caches@[k as int].cache && final(self).caches@[k as int].holders
                == one_more(old(self).caches@[k as int].holders) && forall|m: int|
                0 <= m < old(self).caches@.len() && m != k ==> (#[trigger] final(self).caches@[m])
                    == old(self).caches@[m],
            k >= old(self).caches@.len() ==> (forall|m: int| !old(self).caches_chunk(m, chunk@))
                && k == old(self).caches@.len() && final(self).caches@.len() == k + 1
                    && final(self).caches@[k as int].holders == 1
                    && final(self).caches@[k as int].cache@
                == StreamCacheView::empty(chunk@, PieceData::max_payload_spec() as nat)
                && forall|m: int|
                0 <= m < k ==> (#[trigger] final(self).caches@[m]) == old(self).caches@[m],
    {
        match self.cache_of(chunk) {
            Some(k) => {
                let ghost before = self.caches@;
                if self.caches[k].holders < usize::MAX {
                    self.caches[k].holders = self.caches[k].holders + 1;
                }
                proof {
                    assert forall|m: int| 0 <= m < self.caches@.len() && m != k implies (
                    #[trigger] self.caches@[m]) == before[m] by {}
                    assert(before[k as int].cache@.chunk == chunk@);
                    let d = choose|d: int|
                        0 <= d < before.len() && (#[trigger] before[d]).cache@.chunk == chunk@;
                    if d < k {
                        assert(before[d].cache@.chunk != before[k as int].cache@.chunk);
                    } else if k < d {
                        assert(before[k as int].cache@.chunk != before[d].cache@.chunk);
                    }
                    assert(self.caches@ =~= before.update(
                        k as int,
                        CacheEntry {
                            cache: before[k as int].cache,
                            holders: one_more(before[k as int].holders),
                        },
                    ));
                }
                k
            },
            None => {
                let ghost before = self.caches@;
                let cache = ChunkCache::new(*chunk);
                self.caches.push(CacheEntry { cache, holders: 1 });
                proof {
                    assert forall|k: int, m: int| 0 <= k < m < self.caches@.len() implies (
                    #[trigger] self.caches@[k]).cache@.chunk != (
                    #[trigger] self.caches@[m]).cache@.chunk by {
                        if m == before.len() {
                            assert(self.caches@[k] == before[k]);
                            assert(!old(self).caches_chunk(k, chunk@));
                        } else {
                            assert(self.caches@[k] == before[k] && self.caches@[m] == before[m]);
                        }
                    }
                }
                proof {
                    assert forall|m: int| 0 <= m < before.len() implies (
                    #[trigger] before[m]).cache@.chunk != chunk@ by {
                        assert(!old(self).caches_chunk(m, chunk@));
                    }
                    assert(self.caches@.take(before.len() as int) =~= before);
                }
                self.caches.len() - 1
            },
        }
    }

    /// Gives the cache of `chunk` back for one holder; the cache is let go
    /// when nobody holds it any more. Returns whether there was such a
    /// cache.
    pub fn release_cache(&mut self, chunk: &ChunkId) -> (held: bool)
        requires
            old(self).wf(),
        ensures
            final(self).wf(),
            final(self).downloaders == old(self).downloaders,
            final(self).next_id == old(self).next_id,
            held == (exists|k: int| old(self).caches_chunk(k, chunk@)),
            final(self).caches@ == caches_released(old(self).caches@, chunk@),
            !held ==> final(self).caches == old(self).caches,
            held ==> {
                let k = choose|k: int| old(self).caches_chunk(k, chunk@);
                if old(self).caches@[k].holders > 1 {
                    &&& final(self).caches@.len() == old(self).caches@.len()
                    &&& final(self).caches@[k].cache == old(self).caches@[k].cache
                    &&& final(self).caches@[k].holders == old(self).caches@[k].holders - 1
                } else {
                    &&& final(self).caches@.len() == old(self).caches@.len() - 1
                    &&& forall|m: int| !final(self).caches_chunk(m, chunk@)
                }
            },
    {
        match self.cache_of(chunk) {
            Some(k) => {
                let ghost before = self.caches@;
                proof {
                    let c = choose|c: int| old(self).caches_chunk(c, chunk@);
                    if c < k {
                        assert(before[c].cache@.chunk != before[k as int].cache@.chunk);
                    } else if k < c {
                        assert(before[k as int].cache@.chunk != before[c].cache@.chunk);
                    }
                    assert(before[k as int].cache@.chunk == chunk@);
                    let d = choose|d: int|
                        0 <= d < before.len() && (#[trigger] before[d]).cache@.chunk == chunk@;
                    if d < k {
                        assert(before[d].cache@.chunk != before[k as int].cache@.chunk);
                    } else if k < d {
                        assert(before[k as int].cache@.chunk != before[d].cache@.chunk);
                    }
                }
                if self.caches[k].holders > 1 {
                    self.caches[k].holders = self.caches[k].holders - 1;
                    proof {
                        assert forall|m: int| 0 <= m < self.caches@.len() && m != k implies (
                        #[trigger] self.caches@[m]) == before[m] by {}
                        assert(self.caches@ =~= before.update(
                            k as int,
                            CacheEntry {
                                cache: before[k as int].cache,
                                holders: (before[k as int].holders - 1) as usize,
                            },
                        ));
                    }
                } else {
                    let _ = self.caches.remove(k);
                    proof {
                        assert forall|m: int| 0 <= m < self.caches@.len() implies (
                        #[trigger] self.caches@[m]) == before[if m < k {
                            m
                        } else {
                            m + 1
                        }] by {}
                        assert forall|m: int| !self.caches_chunk(m, chunk@) by {
                            if 0 <= m < self.caches@.len() {
                                let from = if m < k {
                                    m
                                } else {
                                    m + 1
                                };
                                assert(self.caches@[m] == before[from]);
                                if from < k {
                                    assert(before[from].cache@.chunk
                                        != before[k as int].cache@.chunk);
                                } else {
                                    assert(before[k as int].cache@.chunk
                                        != before[from].cache@.chunk);
                                }
                            }
                        }
                    }
                }
                true
            },
            None => {
                proof {
                    assert forall|k: int| 0 <= k < self.caches@.len() implies (
                    #[trigger] self.caches@[k]).cache@.chunk != chunk@ by {
                        assert(!self.caches_chunk(k, chunk@));
                    }
                }
                false
            },
        }
    }

    /// Where the shared downloader of `chunk` stands, where there is one.
    pub fn shared_of(&self, chunk: &ChunkId) -> (r: Option<usize>)
        requires
            self.wf(),
        ensures
            r matches Some(k) ==> self.shares_chunk(k as int, chunk@),
            r is None ==> forall|k: int| !self.shares_chunk(k, chunk@),
    {
        let n: usize = self.downloaders.len();
        let mut k: usize = 0;
        while k < n
            invariant
                self.wf(),
                n == self.downloaders@.len(),
                k <= n,
                forall|m: int| 0 <= m < k ==> !self.shares_chunk(m, chunk@),
            decreases n - k,
        {
            if self.downloaders[k].mergable && self.downloaders[k].downloader.chunk().same(chunk) {
                return Some(k);
            }
            k += 1;
        }
        None
    }

    /// Where the downloader known by `id` stands, where there is one.
    pub fn downloader_of(&self, id: u64) -> (r: Option<usize>)
        requires
            self.wf(),
        ensures
            r matches Some(k) ==> self.known_by(k as int, id),
            r is None ==> forall|k: int| !self.known_by(k, id),
    {
        let n: usize = self.downloaders.len();
        let mut k: usize = 0;
        while k < n
            invariant
                self.wf(),
                n == self.downloaders@.len(),
                k <= n,
                forall|m: int| 0 <= m < k ==> !self.known_by(m, id),
            decreases n - k,
        {
            if self.downloaders[k].id == id {
                return Some(k);
            }
            k += 1;
        }
        None
    }

    /// A downloader for `chunk` for one more holder. One who asks to share
    /// is given the shared downloader of the chunk where there is one. Else
    /// a new downloader is made, which holds the cache of the chunk: it is
    /// `Finished` where the chunk is whole in the cache, and `Downloading`
    /// where it is not. Returns the number the downloader is known by.
    /// `Unknown` where no number is left for a new downloader.
    pub fn create_downloader(&mut self, chunk: &ChunkId, mergable: bool) -> (r: Result<
        u64,
        ErrorCode,
    >)
        requires
            old(self).wf(),
        ensures
            final(self).wf(),
            forall|channels: Seq<ChannelView>| old(self).inv(channels)
                ==> final(self).inv(channels),
            mergable && (exists|k: int| old(self).shares_chunk(k, chunk@)) ==> {
                let k = choose|k: int| old(self).shares_chunk(k, chunk@);
                &&& r == Ok::<u64, ErrorCode>(old(self).downloaders@[k].id)
                &&& final(self).caches == old(self).caches
                &&& final(self).next_id == old(self).next_id
                &&& final(self).downloaders@.len() == old(self).downloaders@.len()
                &&& final(self).downloaders@[k].holders == one_more(
                    old(self).downloaders@[k].holders,
                )
                &&& final(self).downloaders@[k].id == old(self).downloaders@[k].id
                &&& final(self).downloaders@[k].downloader@ == old(self).downloaders@[k].downloader@
                &&& final(self).downloaders@ == old(self).downloaders@.update(
                    k,
                    DownloaderEntry {
                        id: old(self).downloaders@[k].id,
                        mergable: true,
                        holders: one_more(old(self).downloaders@[k].holders),
                        downloader: old(self).downloaders@[k].downloader,
                    },
                )
            },
            !(mergable && (exists|k: int| old(self).shares_chunk(k, chunk@)))
                ==> if old(self).next_id == u64::MAX {
                r == Err::<u64, ErrorCode>(ErrorCode::Unknown) && final(self).caches
                    == old(self).caches && final(self).downloaders == old(self).downloaders
            } else {
                let n = old(self).downloaders@.len() as int;
                &&& r == Ok::<u64, ErrorCode>(old(self).next_id)
                &&& final(self).next_id == old(self).next_id + 1
                &&& final(self).downloaders@.len() == n + 1
                &&& final(self).downloaders@[n].id == old(self).next_id
                &&& final(self).downloaders@[n].mergable == mergable
                &&& final(self).downloaders@[n].holders == 1
                &&& final(self).downloaders@[n].downloader@.chunk == chunk@
                &&& final(self).downloaders@.take(n) == old(self).downloaders@
                &&& cache_taken(old(self).caches@, final(self).caches@, chunk@)
                &&& final(self).downloaders@[n].downloader@.session is None
                &&& final(self).downloaders@[n].downloader@.session_source is None
                &&& final(self).downloaders@[n].downloader@.sources.len() == 0
                &&& final(self).downloaders@[n].downloader@.created.len() == 0
                &&& exists|c: int|
                    final(self).caches_chunk(c, chunk@)
                        && final(self).downloaders@[n].downloader@.state
                        == (if (#[trigger] final(self).caches@[c]).cache@.complete() {
                        DownloaderState::Finished
                    } else {
                        DownloaderState::Downloading
                    })
            },
    {
        if mergable {
            match self.shared_of(chunk) {
                Some(k) => {
                    let ghost before = self.downloaders@;
                    proof {
                        let c = choose|c: int| old(self).shares_chunk(c, chunk@);
                        if c < k {
                            assert(before[c].downloader@.chunk
                                != before[k as int].downloader@.chunk);
                        } else if k < c {
                            assert(before[k as int].downloader@.chunk
                                != before[c].downloader@.chunk);
                        }
                    }
                    if self.downloaders[k].holders < usize::MAX {
                        self.downloaders[k].holders = self.downloaders[k].holders + 1;
                    }
                    proof {
                        assert forall|m: int|
                            0 <= m < self.downloaders@.len() && m != k implies (
                        #[trigger] self.downloaders@[m]) == before[m] by {}
                        assert(self.downloaders@ =~= before.update(
                            k as int,
                            DownloaderEntry {
                                id: before[k as int].id,
                                mergable: true,
                                holders: one_more(before[k as int].holders),
                                downloader: before[k as int].downloader,
                            },
                        ));
                        assert forall|channels: Seq<ChannelView>|
                            old(self).inv(channels) implies self.inv(channels) by {
                            assert forall|m: int| 0 <= m < self.downloaders@.len() implies (
                            #[trigger] self.downloaders@[m]).downloader@.inv(channels) by {
                                assert(before[m].downloader@.inv(channels));
                            }
                        }
                    }
                    return Ok(self.downloaders[k].id);
                },
                None => {},
            }
        }
        if self.next_id == u64::MAX {
            return Err(ErrorCode::Unknown);
        }
        let at: usize = self.create_cache(chunk);
        let whole: bool = self.caches[at].cache.wait_loaded();
        let mut downloader = ChunkDownloader::new(*chunk);
        downloader.on_loaded(whole);
        let id: u64 = self.next_id;
        let ghost before = self.downloaders@;
        self.downloaders.push(DownloaderEntry { id, mergable, holders: 1, downloader });
        self.next_id = id + 1;
        proof {
            assert forall|m: int| 0 <= m < before.len() implies (#[trigger] self.downloaders@[m])
                == before[m] by {}
            assert(self.downloaders@.take(before.len() as int) =~= before);
            assert forall|k: int, m: int|
                0 <= k < m < self.downloaders@.len() && (#[trigger] self.downloaders@[k]).mergable
                    && (#[trigger] self.downloaders@[m]).mergable implies self.downloaders@[k].downloader@.chunk
                != self.downloaders@[m].downloader@.chunk by {
                if m == before.len() {
                    assert(!old(self).shares_chunk(k, chunk@));
                }
            }
            assert forall|channels: Seq<ChannelView>| old(self).inv(channels) implies self.inv(
                channels,
            ) by {
                assert forall|m: int| 0 <= m < self.downloaders@.len() implies (
                #[trigger] self.downloaders@[m]).downloader@.inv(channels) by {
                    if m < before.len() {
                        assert(before[m].downloader@.inv(channels));
                    }
                }
            }
            assert(self.caches_chunk(at as int, chunk@));
            assert(self.downloaders@[before.len() as int].downloader@.state
                == (if self.caches@[at as int].cache@.complete() {
                DownloaderState::Finished
            } else {
                DownloaderState::Downloading
            }));
        }
        Ok(id)
    }

    /// Gives the downloader known by `id` back for one holder; the
    /// downloader is let go when nobody holds it any more, and the cache it
    /// holds is given back for it. Returns whether there was such a
    /// downloader.
    pub fn release_downloader(&mut self, id: u64) -> (held: bool)
        requires
            old(self).wf(),
        ensures
            final(self).wf(),
            forall|channels: Seq<ChannelView>| old(self).inv(channels)
                ==> final(self).inv(channels),
            held == (exists|k: int| old(self).known_by(k, id)),
            final(self).next_id == old(self).next_id,
            !held ==> final(self).caches == old(self).caches && final(self).downloaders
                == old(self).downloaders,
            held ==> {
                let k = choose|k: int| old(self).known_by(k, id);
                if old(self).downloaders@[k].holders > 1 {
                    &&& final(self).caches == old(self).caches
                    &&& final(self).downloaders@.len() == old(self).downloaders@.len()
                    &&& final(self).downloaders@[k].holders == old(self).downloaders@[k].holders
                        - 1
                    &&& final(self).known_by(k, id)
                    &&& final(self).downloaders@ == old(self).downloaders@.update(
                        k,
                        DownloaderEntry {
                            id,
                            mergable: old(self).downloaders@[k].mergable,
                            holders: (old(self).downloaders@[k].holders - 1) as usize,
                            downloader: old(self).downloaders@[k].downloader,
                        },
                    )
                } else {
                    &&& final(self).downloaders@.len() == old(self).downloaders@.len() - 1
                    &&& forall|m: int| !final(self).known_by(m, id)
                    &&& final(self).downloaders@ == old(self).downloaders@.remove(k)
                    &&& final(self).caches@ == caches_released(
                        old(self).caches@,
                        old(self).downloaders@[k].downloader@.chunk,
                    )
                }
            },
    {
        match self.downloader_of(id) {
            Some(k) => {
                let ghost before = self.downloaders@;
                proof {
                    let c = choose|c: int| old(self).known_by(c, id);
                    if c < k {
                        assert(before[c].id != before[k as int].id);
                    } else if k < c {
                        assert(before[k as int].id != before[c].id);
                    }
                }
                if self.downloaders[k].holders > 1 {
                    self.downloaders[k].holders = self.downloaders[k].holders - 1;
                    proof {
                        assert forall|m: int|
                            0 <= m < self.downloaders@.len() && m != k implies (
                        #[trigger] self.downloaders@[m]) == before[m] by {}
                        assert(self.downloaders@ =~= before.update(
                            k as int,
                            DownloaderEntry {
                                id,
                                mergable: before[k as int].mergable,
                                holders: (before[k as int].holders - 1) as usize,
                                downloader: before[k as int].downloader,
                            },
                        ));
                        assert forall|channels: Seq<ChannelView>|
                            old(self).inv(channels) implies self.inv(channels) by {
                            assert forall|m: int| 0 <= m < self.downloaders@.len() implies (
                            #[trigger] self.downloaders@[m]).downloader@.inv(channels) by {
                                assert(before[m].downloader@.inv(channels));
                            }
                        }
                    }
                } else {
                    let entry: DownloaderEntry = self.downloaders.remove(k);
                    proof {
                        assert forall|m: int| 0 <= m < self.downloaders@.len() implies (
                        #[trigger] self.downloaders@[m]) == before[if m < k {
                            m
                        } else {
                            m + 1
                        }] by {}
                        assert forall|m: int| !self.known_by(m, id) by {
                            if 0 <= m < self.downloaders@.len() {
                                let from = if m < k {
                                    m
                                } else {
                                    m + 1
                                };
                                assert(self.downloaders@[m] == before[from]);
                                if from < k {
                                    assert(before[from].id != before[k as int].id);
                                } else {
                                    assert(before[k as int].id != before[from].id);
                                }
                            }
                        }
                        assert forall|channels: Seq<ChannelView>|
                            old(self).inv(channels) implies self.inv(channels) by {
                            assert forall|m: int| 0 <= m < self.downloaders@.len() implies (
                            #[trigger] self.downloaders@[m]).downloader@.inv(channels) by {
                                let from = if m < k {
                                    m
                                } else {
                                    m + 1
                                };
                                assert(before[from].downloader@.inv(channels));
                            }
                        }
                    }
                    let _ = self.release_cache(entry.downloader.chunk());
                }
                true
            },
            None => false,
        }
    }

    /// Pumps the downloader that stands at `k` at `now`: as `on_drain` of
    /// that downloader does.
    pub fn on_drain(&mut self, k: usize, channels: &mut ChannelManager, now: Timestamp) -> (out:
        DrainOutput)
        requires
            old(self).wf(),
            k < old(self).downloaders@.len(),
            old(channels).wf(),
            old(self).downloaders@[k as int].downloader@.inv(old(channels)@),
        ensures
            final(self).wf(),
            final(channels).wf(),
            final(self).caches == old(self).caches,
            final(self).next_id == old(self).next_id,
            final(self).downloaders@.len() == old(self).downloaders@.len(),
            forall|m: int|
                0 <= m < old(self).downloaders@.len() && m != k ==> (
                #[trigger] final(self).downloaders@[m]) == old(self).downloaders@[m],
            final(self).downloaders@[k as int].id == old(self).downloaders@[k as int].id,
            final(self).downloaders@[k as int].mergable
                == old(self).downloaders@[k as int].mergable,
            final(self).downloaders@[k as int].holders == old(self).downloaders@[k as int].holders,
            final(self).downloaders@[k as int].downloader@.inv(final(channels)@),
            drained(
                old(self).downloaders@[k as int].downloader@,
                final(self).downloaders@[k as int].downloader@,
                old(channels).channels@,
                final(channels).channels@,
                out,
            ),
            final(channels).config == old(channels).config,
            old(self).downloaders@[k as int].downloader@.state is Downloading
                && !old(self).downloaders@[k as int].downloader@.keeps() ==> renewed(
                old(self).downloaders@[k as int].downloader@,
                final(self).downloaders@[k as int].downloader@,
                old(channels)@,
                final(channels)@,
                old(channels).config,
                now,
                out,
            ),
    {
        let ghost before = self.downloaders@;
        let out = self.downloaders[k].downloader.on_drain(channels, now);
        proof {
            assert forall|m: int| 0 <= m < self.downloaders@.len() && m != k implies (
            #[trigger] self.downloaders@[m]) == before[m] by {}
        }
        out
    }
}

} // verus!
