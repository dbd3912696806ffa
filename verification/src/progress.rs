use vstd::prelude::*;

verus! {

/// The shortest stretch of time, in milliseconds, over which a rate is taken.
pub const WINDOW_MS: u64 = 1000;

/// The progress of one transfer, as a model.
pub ghost struct Meter {
    /// The bytes counted so far, never more than the declared total.
    pub position: nat,
    /// The declared total, where one is known.
    pub total: Option<nat>,
    /// The bytes that came in since the rate was last taken.
    pub pending: nat,
    /// When the rate was last taken, in milliseconds.
    pub since: nat,
}

/// A count as it is held: counts beyond what 64 bits hold stay at the top.
pub open spec fn capped(n: nat) -> nat {
    if n > u64::MAX {
        u64::MAX as nat
    } else {
        n
    }
}

impl Meter {
    /// A transfer that begins at the time `now` with nothing counted.
    pub open spec fn start(total: Option<nat>, now: nat) -> Meter {
        Meter { position: 0, total, pending: 0, since: now }
    }

    /// The position after `chunk` more bytes: it stops at the declared total.
    pub open spec fn moved(self, chunk: nat) -> nat {
        match self.total {
            Some(total) => if self.position + chunk < total {
                self.position + chunk
            } else {
                total
            },
            None => capped(self.position + chunk),
        }
    }

    /// The time since the rate was last taken; a clock that went back counts as none.
    pub open spec fn elapsed(self, now: nat) -> nat {
        if now >= self.since {
            (now - self.since) as nat
        } else {
            0
        }
    }

    /// Whether a rate is due: not more often than once in a window.
    pub open spec fn due(self, now: nat) -> bool {
        self.elapsed(now) >= WINDOW_MS
    }

    /// The rate in bytes per second over the time since it was last taken:
    /// all bytes that came in since then, `chunk` among them, by the time
    /// that went by.
    pub open spec fn rate(self, chunk: nat, now: nat) -> nat
        recommends
            self.due(now),
    {
        capped(self.pending + chunk) * 1000 / self.elapsed(now)
    }

    /// The meter after `chunk` more bytes at the time `now`. Where a rate is
    /// due, the count for the next one begins anew.
    pub open spec fn record(self, chunk: nat, now: nat) -> Meter {
        if self.due(now) {
            Meter { position: self.moved(chunk), pending: 0, since: now, ..self }
        } else {
            Meter { position: self.moved(chunk), pending: capped(self.pending + chunk), ..self }
        }
    }

    /// The position lies within the declared total.
    pub open spec fn wf(self) -> bool {
        self.total matches Some(total) ==> self.position <= total
    }
}

/// The progress of one transfer: how far it has come, and how fast it went
/// over the last stretch of time.
pub struct Progress {
    position: u64,
    total: Option<u64>,
    pending: u64,
    since: u64,
}

impl View for Progress {
    type V = Meter;

    closed spec fn view(&self) -> Meter {
        Meter {
            position: self.position as nat,
            total: match self.total {
                Some(total) => Some(total as nat),
                None => None,
            },
            pending: self.pending as nat,
            since: self.since as nat,
        }
    }
}

impl Progress {
    /// A transfer that begins at the time `now`, given in milliseconds.
    pub fn new(total: Option<u64>, now: u64) -> (progress: Progress)
        ensures
            progress@ == Meter::start(
                match total {
                    Some(t) => Some(t as nat),
                    None => None,
                },
                now as nat,
            ),
            progress@.wf(),
    {
        Progress { position: 0, total, pending: 0, since: now }
    }

    /// The bytes counted so far.
    pub fn position(&self) -> (position: u64)
        ensures
            position == self@.position,
    {
        self.position
    }

    /// The declared total, where one is known.
    pub fn total(&self) -> (total: Option<u64>)
        ensures
            total is Some == self@.total is Some,
            total matches Some(t) ==> self@.total == Some(t as nat),
    {
        self.total
    }

    /// Counts `chunk` more bytes at the time `now`, given in milliseconds.
    /// Returns the rate in bytes per second where one is due.
    pub fn record(&mut self, chunk: u64, now: u64) -> (sample: Option<u64>)
        requires
            old(self)@.wf(),
        ensures
            final(self)@ == old(self)@.record(chunk as nat, now as nat),
            final(self)@.wf(),
            sample is Some == old(self)@.due(now as nat),
            sample matches Some(rate) ==> rate == old(self)@.rate(chunk as nat, now as nat),
    {
        self.position = match self.total {
            Some(total) => {
                if chunk < total - self.position {
                    self.position + chunk
                } else {
                    total
                }
            },
            None => {
                if chunk <= u64::MAX - self.position {
                    self.position + chunk
                } else {
                    u64::MAX
                }
            },
        };
        let counted: u64 = if chunk <= u64::MAX - self.pending {
            self.pending + chunk
        } else {
            u64::MAX
        };
        let elapsed: u64 = if now >= self.since {
            now - self.since
        } else {
            0
        };
        if elapsed >= WINDOW_MS {
            let scaled: u128 = counted as u128 * 1000;
            let per_second: u128 = scaled / (elapsed as u128);
            proof {
                let c = counted as int;
                let t = elapsed as int;
                assert(c * 1000 / t <= c) by (nonlinear_arith)
                    requires
                        c >= 0,
                        t >= 1000,
                ;
            }
            self.pending = 0;
            self.since = now;
            Some(per_second as u64)
        } else {
            self.pending = counted;
            None
        }
    }
}

} // verus!
