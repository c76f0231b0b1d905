//! How fast a session moves bytes: a counter of what came in since the last
//! sample, and a window over the latest samples.

use vstd::prelude::*;
use crate::types::Timestamp;

verus! {

/// The bytes per second that `bytes` in `micros` microseconds come to,
/// rounded down, and `u32::MAX` where that is more than a `u32` holds.
pub open spec fn speed_of(bytes: u64, micros: u64) -> u32
    recommends
        micros > 0,
{
    if bytes as int * 1_000_000 / (micros as int) > u32::MAX {
        u32::MAX
    } else {
        (bytes as int * 1_000_000 / (micros as int)) as u32
    }
}

/// Counts the bytes that came in since the last sample was taken.
#[derive(Clone, Copy, Debug, PartialEq, Eq, Structural)]
pub struct SpeedCounter {
    pub last_recv: u64,
    pub last_update: Timestamp,
    pub cur_speed: u32,
}

impl SpeedCounter {
    /// The counter after `recv` more bytes came in; the count stops at the
    /// most a `u64` holds.
    pub open spec fn received(self, recv: usize) -> SpeedCounter {
        SpeedCounter {
            last_recv: if self.last_recv + recv > u64::MAX {
                u64::MAX
            } else {
                (self.last_recv + recv) as u64
            },
            last_update: self.last_update,
            cur_speed: self.cur_speed,
        }
    }

    /// The sample taken at `now`: where time has passed since the last one,
    /// what was counted over that time; where none has, the last sample.
    pub open spec fn speed_at(self, now: Timestamp) -> u32 {
        if now > self.last_update {
            speed_of(self.last_recv, (now - self.last_update) as u64)
        } else {
            self.cur_speed
        }
    }

    /// The counter after a sample was taken at `now`.
    pub open spec fn sampled(self, now: Timestamp) -> SpeedCounter {
        if now > self.last_update {
            SpeedCounter { last_recv: 0, last_update: now, cur_speed: self.speed_at(now) }
        } else {
            self
        }
    }

    /// A counter that starts at `now` with `init_recv` bytes counted.
    pub fn new(init_recv: usize, now: Timestamp) -> (c: SpeedCounter)
        ensures
            c.last_recv == init_recv,
            c.last_update == now,
            c.cur_speed == 0,
    {
        Self { last_recv: init_recv as u64, last_update: now, cur_speed: 0 }
    }

    /// Counts `recv` more bytes.
    pub fn on_recv(&mut self, recv: usize)
        ensures
            *final(self) == old(self).received(recv),
    {
        self.last_recv = self.last_recv.saturating_add(recv as u64);
    }

    /// Takes a sample at `now`; where time has passed since the last one,
    /// the count starts again.
    pub fn update(&mut self, now: Timestamp) -> (speed: u32)
        ensures
            speed == old(self).speed_at(now),
            *final(self) == old(self).sampled(now),
    {
        if now > self.last_update {
            let span: u128 = (now - self.last_update) as u128;
            let rate: u128 = (self.last_recv as u128) * 1_000_000 / span;
            let speed: u32 = if rate > 0xffff_ffff {
                0xffff_ffff
            } else {
                rate as u32
            };
            self.last_recv = 0;
            self.last_update = now;
            self.cur_speed = speed;
            speed
        } else {
            self.cur_speed
        }
    }
}

/// The sum of the samples.
pub open spec fn sum_of(s: Seq<u32>) -> int
    decreases s.len(),
{
    if s.len() == 0 {
        0
    } else {
        sum_of(s.drop_last()) + s.last()
    }
}

/// The sum of `n` samples is at most `n` times the greatest sample.
pub proof fn lemma_sum_bound(s: Seq<u32>)
    ensures
        0 <= sum_of(s) <= s.len() * u32::MAX,
    decreases s.len(),
{
    if s.len() > 0 {
        lemma_sum_bound(s.drop_last());
        assert((s.len() - 1) * u32::MAX + u32::MAX == s.len() * u32::MAX) by (nonlinear_arith);
    }
}

/// The latest `window` samples, with `sample` as the latest.
pub open spec fn slide(samples: Seq<u32>, sample: u32, window: int) -> Seq<u32> {
    let all = samples.push(sample);
    if all.len() > window {
        all.skip(all.len() - window)
    } else {
        all
    }
}

/// The latest samples of a session's speed, oldest first, at most as many
/// as the window holds, with an estimate to go by while there are none.
#[derive(Debug)]
pub struct HistorySpeed {
    initial: u32,
    window: usize,
    samples: Vec<u32>,
}

/// A window of samples as plain values.
pub ghost struct HistorySpeedView {
    pub initial: u32,
    pub window: nat,
    pub samples: Seq<u32>,
}

impl View for HistorySpeed {
    type V = HistorySpeedView;

    closed spec fn view(&self) -> HistorySpeedView {
        HistorySpeedView {
            initial: self.initial,
            window: self.window as nat,
            samples: self.samples@,
        }
    }
}

impl HistorySpeedView {
    /// A window never holds more samples than it is wide.
    pub open spec fn wf(self) -> bool {
        self.samples.len() <= self.window
    }

    /// The mean of the samples, rounded down; the estimate while there are
    /// none.
    pub open spec fn average(self) -> u32 {
        if self.samples.len() == 0 {
            self.initial
        } else {
            (sum_of(self.samples) / (self.samples.len() as int)) as u32
        }
    }

    /// The latest sample; the estimate while there is none.
    pub open spec fn latest(self) -> u32 {
        if self.samples.len() == 0 {
            self.initial
        } else {
            self.samples.last()
        }
    }

    /// The window after one more sample.
    pub open spec fn updated(self, sample: Option<u32>) -> HistorySpeedView {
        match sample {
            Some(s) => HistorySpeedView {
                initial: self.initial,
                window: self.window,
                samples: slide(self.samples, s, self.window as int),
            },
            None => self,
        }
    }
}

impl HistorySpeed {
    /// What always holds of a window.
    pub open spec fn wf(&self) -> bool {
        self@.wf()
    }

    /// An empty window of `window` samples with the estimate `initial`.
    pub fn new(initial: u32, window: usize) -> (h: HistorySpeed)
        ensures
            h.wf(),
            h@ == (HistorySpeedView { initial, window: window as nat, samples: Seq::empty() }),
    {
        Self { initial, window, samples: Vec::new() }
    }

    /// A copy of the window.
    pub fn duplicate(&self) -> (h: HistorySpeed)
        requires
            self.wf(),
        ensures
            h.wf(),
            h@ == self@,
    {
        let mut samples: Vec<u32> = Vec::new();
        let mut i: usize = 0;
        while i < self.samples.len()
            invariant
                i <= self.samples@.len(),
                samples@ == self.samples@.take(i as int),
            decreases self.samples@.len() - i,
        {
            samples.push(self.samples[i]);
            i += 1;
            assert(samples@ =~= self.samples@.take(i as int));
        }
        assert(self.samples@.take(self.samples@.len() as int) =~= self.samples@);
        Self { initial: self.initial, window: self.window, samples }
    }

    /// Takes `cur_speed` for the latest sample, and lets the oldest go where
    /// the window is full. Without a sample, nothing changes.
    pub fn update(&mut self, cur_speed: Option<u32>, now: Timestamp)
        requires
            old(self).wf(),
        ensures
            final(self).wf(),
            final(self)@ == old(self)@.updated(cur_speed),
    {
        if let Some(s) = cur_speed {
            if self.window == 0 {
                assert(slide(self.samples@, s, 0) =~= self.samples@);
                return ;
            }
            if self.samples.len() == self.window {
                let _ = self.samples.remove(0);
            }
            self.samples.push(s);
            assert(self.samples@ =~= slide(old(self).samples@, s, self.window as int));
        }
    }

    /// The mean of the samples in the window.
    pub fn average(&self) -> (a: u32)
        requires
            self.wf(),
        ensures
            a == self@.average(),
    {
        let n: usize = self.samples.len();
        if n == 0 {
            return self.initial;
        }
        let mut total: u128 = 0;
        let mut i: usize = 0;
        while i < n
            invariant
                n == self.samples@.len(),
                i <= n,
                total == sum_of(self.samples@.take(i as int)),
            decreases n - i,
        {
            proof {
                lemma_sum_bound(self.samples@.take(i as int));
                assert(i * u32::MAX <= usize::MAX * u32::MAX) by (nonlinear_arith)
                    requires
                        i <= usize::MAX,
                ;
                let next = self.samples@.take(i + 1);
                assert(next.drop_last() =~= self.samples@.take(i as int));
            }
            total = total + self.samples[i] as u128;
            i += 1;
        }
        proof {
            assert(self.samples@.take(n as int) =~= self.samples@);
            lemma_sum_bound(self.samples@);
            assert(sum_of(self.samples@) / (n as int) <= u32::MAX) by (nonlinear_arith)
                requires
                    0 <= sum_of(self.samples@) <= n * u32::MAX,
                    n > 0,
            ;
        }
        (total / (n as u128)) as u32
    }

    /// The latest sample in the window.
    pub fn latest(&self) -> (l: u32)
        requires
            self.wf(),
        ensures
            l == self@.latest(),
    {
        let n: usize = self.samples.len();
        if n == 0 {
            self.initial
        } else {
            self.samples[n - 1]
        }
    }
}

} // verus!
