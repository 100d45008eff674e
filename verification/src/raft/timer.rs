use vstd::prelude::*;

verus! {

/// Relies on rand::random: a uniformly random word; nothing is promised of
/// the value.
#[verifier::external_body]
fn random_u64() -> u64 {
    rand::random::<u64>()
}

/// Relies on std::time::SystemTime: milliseconds of wall-clock time since
/// the Unix epoch; nothing is promised of the value.
#[verifier::external_body]
fn clock_millis() -> u64 {
    match std::time::UNIX_EPOCH.elapsed() {
        Ok(d) => d.as_millis() as u64,
        Err(_) => 0,
    }
}

/// The election timer: the clock reading at the last reset and the randomised
/// timeout drawn for the current wait. Every reset draws a fresh timeout in
/// `[base, base + jitter)`.
pub struct Timer {
    pub last: u64,
    pub timeout: u64,
    pub base: u64,
    pub jitter: u64,
}

impl Timer {
    /// The timeout always lies in the half-open window the timer was made
    /// with, and a fresh draw stays possible.
    pub open spec fn wf(self) -> bool {
        &&& 1 <= self.jitter
        &&& self.base + self.jitter <= u64::MAX
        &&& self.base <= self.timeout < self.base + self.jitter
    }

    /// Whether more than `timeout` milliseconds lie between the last reset
    /// and the reading `now`.
    pub open spec fn expired_spec(self, now: u64) -> bool {
        now > self.last && now - self.last > self.timeout
    }

    /// A timer started now, with a timeout drawn from `[base, base + jitter)`.
    pub fn new(base: u64, jitter: u64) -> (r: Self)
        requires
            1 <= jitter,
            base + jitter <= u64::MAX,
        ensures
            r.wf(),
            r.base == base,
            r.jitter == jitter,
    {
        let timeout = base + random_u64() % jitter;
        Timer { last: clock_millis(), timeout, base, jitter }
    }

    /// Whether the timer has expired by the reading `now`.
    pub fn expired_at(&self, now: u64) -> (r: bool)
        ensures
            r == self.expired_spec(now),
    {
        now > self.last && now - self.last > self.timeout
    }

    /// Whether the timer has expired by the clock's present reading. Which
    /// reading the clock hands back is not promised, so neither is the
    /// answer.
    pub fn expired(&self) -> bool {
        let now = clock_millis();
        self.expired_at(now)
    }

    /// Restarts the wait and draws a fresh timeout from `[base, base +
    /// jitter)`.
    pub fn reset(&mut self)
        requires
            old(self).wf(),
        ensures
            final(self).wf(),
            final(self).base == old(self).base,
            final(self).jitter == old(self).jitter,
    {
        self.last = clock_millis();
        self.timeout = self.base + random_u64() % self.jitter;
    }
}

} // verus!
