//! Debounced status tracking. Each device keeps a count of consecutive
//! failed pings; it is reported down only once that count reaches the
//! tracker's threshold, and reported up again on the first successful ping.

use vstd::prelude::*;
use crate::keyed::Keyed;

verus! {

/// The outcome of one check: passed, failed, or not configured for the device.
#[derive(Clone, Copy, Debug, PartialEq, Eq, Structural)]
pub enum Reading {
    Up,
    Down,
    NotApplicable,
}

/// What changed in the reported status of a device after one observation.
#[derive(Clone, Copy, Debug, PartialEq, Eq, Structural)]
pub enum Transition {
    Unchanged,
    BecameUp,
    BecameDown,
    HttpChanged(bool),
}

/// What the tracker knows of one device.
#[derive(Clone, Copy, Debug, PartialEq, Eq, Structural)]
pub struct DeviceState {
    /// Reported (debounced) ping status; `None` until first known.
    pub ping: Option<bool>,
    /// Reported HTTP status; `None` until first known.
    pub http: Option<bool>,
    /// Failed pings since the last successful one.
    pub consecutive_failures: u64,
    /// When the reported status last changed.
    pub changed_at: u64,
    /// When the device was last observed.
    pub last_update: u64,
}

/// Reported ping status and consecutive-failure count.
pub type PingStatus = (Option<bool>, u64);

/// One ping reading applied to the reported status and failure count.
pub open spec fn ping_step(p: PingStatus, r: Reading, threshold: u64) -> PingStatus {
    match r {
        Reading::Up => (Some(true), 0),
        Reading::Down => {
            let failures = if p.1 == u64::MAX {
                p.1
            } else {
                (p.1 + 1) as u64
            };
            (if failures >= threshold {
                Some(false)
            } else {
                p.0
            }, failures)
        },
        Reading::NotApplicable => p,
    }
}

/// The reading makes a device that was not reported down reported down.
pub open spec fn becomes_down(p: PingStatus, r: Reading, threshold: u64) -> bool {
    ping_step(p, r, threshold).0 == Some(false) && p.0 != Some(false)
}

/// Ping readings applied one after the other.
pub open spec fn ping_run(p: PingStatus, readings: Seq<Reading>, threshold: u64) -> PingStatus
    decreases readings.len(),
{
    if readings.len() == 0 {
        p
    } else {
        ping_step(ping_run(p, readings.drop_last(), threshold), readings.last(), threshold)
    }
}

pub open spec fn http_step(h: Option<bool>, r: Reading) -> Option<bool> {
    match r {
        Reading::Up => Some(true),
        Reading::Down => Some(false),
        Reading::NotApplicable => h,
    }
}

/// The state of a device after one observation at time `now`.
pub open spec fn next_state(
    st: DeviceState,
    ping: Reading,
    http: Reading,
    threshold: u64,
    now: u64,
) -> DeviceState {
    let p = ping_step((st.ping, st.consecutive_failures), ping, threshold);
    let h = http_step(st.http, http);
    DeviceState {
        ping: p.0,
        http: h,
        consecutive_failures: p.1,
        changed_at: if p.0 != st.ping || h != st.http {
            now
        } else {
            st.changed_at
        },
        last_update: now,
    }
}

/// The transition one observation reports; a ping change takes precedence
/// over an HTTP change made by the same observation.
pub open spec fn transition(st: DeviceState, ping: Reading, http: Reading, threshold: u64) -> Transition {
    let p = ping_step((st.ping, st.consecutive_failures), ping, threshold);
    let h = http_step(st.http, http);
    if p.0 != st.ping {
        if p.0 == Some(true) {
            Transition::BecameUp
        } else {
            Transition::BecameDown
        }
    } else if h != st.http {
        Transition::HttpChanged(h == Some(true))
    } else {
        Transition::Unchanged
    }
}

/// The state of a device first seen at `now`.
pub open spec fn fresh_state(now: u64) -> DeviceState {
    DeviceState { ping: None, http: None, consecutive_failures: 0, changed_at: now, last_update: now }
}

impl DeviceState {
    pub fn new(now: u64) -> (st: DeviceState)
        ensures
            st == fresh_state(now),
    {
        DeviceState { ping: None, http: None, consecutive_failures: 0, changed_at: now, last_update: now }
    }

    /// Applies one observation and says what the reported status did.
    pub fn apply(&mut self, ping: Reading, http: Reading, threshold: u64, now: u64) -> (t: Transition)
        ensures
            *final(self) == next_state(*old(self), ping, http, threshold, now),
            t == transition(*old(self), ping, http, threshold),
    {
        let old_ping = self.ping;
        let old_http = self.http;
        match ping {
            Reading::Up => {
                self.ping = Some(true);
                self.consecutive_failures = 0;
            },
            Reading::Down => {
                self.consecutive_failures = self.consecutive_failures.saturating_add(1);
                if self.consecutive_failures >= threshold {
                    self.ping = Some(false);
                }
            },
            Reading::NotApplicable => {},
        }
        match http {
            Reading::Up => {
                self.http = Some(true);
            },
            Reading::Down => {
                self.http = Some(false);
            },
            Reading::NotApplicable => {},
        }
        let ping_changed = self.ping != old_ping;
        let http_changed = self.http != old_http;
        if ping_changed || http_changed {
            self.changed_at = now;
        }
        self.last_update = now;
        if ping_changed {
            if self.ping == Some(true) {
                Transition::BecameUp
            } else {
                Transition::BecameDown
            }
        } else if http_changed {
            Transition::HttpChanged(self.http == Some(true))
        } else {
            Transition::Unchanged
        }
    }
}

} // verus!

verus! {

/// Debounced status of every device seen so far. A device is created on its
/// first observation and kept for the life of the tracker, also once it has
/// left the registry.
pub struct StatusTracker {
    threshold: u64,
    devices: Keyed<DeviceState>,
}

impl StatusTracker {
    /// Failed pings in a row needed before a device is reported down.
    pub closed spec fn threshold(&self) -> u64 {
        self.threshold
    }

    pub closed spec fn wf(&self) -> bool {
        self.devices.wf()
    }

    /// The state of each tracked device, by name.
    pub closed spec fn states(&self) -> Map<Seq<char>, DeviceState> {
        self.devices.view()
    }

    /// The state observation would start from for `name` at `now`.
    pub open spec fn prior(&self, name: Seq<char>, now: u64) -> DeviceState {
        if self.states().contains_key(name) {
            self.states()[name]
        } else {
            fresh_state(now)
        }
    }

    pub fn new(threshold: u64) -> (t: StatusTracker)
        ensures
            t.wf(),
            t.threshold() == threshold,
            t.states() == Map::<Seq<char>, DeviceState>::empty(),
    {
        StatusTracker { threshold, devices: Keyed::new() }
    }

    pub fn get_threshold(&self) -> (r: u64)
        ensures
            r == self.threshold(),
    {
        self.threshold
    }

    /// The current state of `name`, if it was ever observed.
    pub fn state_of(&self, name: &str) -> (r: Option<DeviceState>)
        requires
            self.wf(),
        ensures
            r == (if self.states().contains_key(name@) {
                Some(self.states()[name@])
            } else {
                None::<DeviceState>
            }),
    {
        match self.devices.get(name) {
            Some(st) => Some(*st),
            None => None,
        }
    }

    /// Feeds one observation of `name` taken at `now`; a name not seen
    /// before starts from a fresh state.
    pub fn observe(&mut self, name: &str, ping: Reading, http: Reading, now: u64) -> (t: Transition)
        requires
            old(self).wf(),
        ensures
            final(self).wf(),
            final(self).threshold() == old(self).threshold(),
            final(self).states() == old(self).states().insert(
                name@,
                next_state(old(self).prior(name@, now), ping, http, old(self).threshold(), now),
            ),
            t == transition(old(self).prior(name@, now), ping, http, old(self).threshold()),
    {
        let mut st = match self.devices.get(name) {
            Some(st) => *st,
            None => DeviceState::new(now),
        };
        let t = st.apply(ping, http, self.threshold, now);
        self.devices.insert(name, st);
        t
    }
}

/// `observe` reports `BecameDown` exactly when its ping reading makes the
/// device reported down, which ties it to `ping_run` and the laws below.
pub proof fn lemma_became_down(st: DeviceState, ping: Reading, http: Reading, threshold: u64)
    ensures
        (transition(st, ping, http, threshold) == Transition::BecameDown) == becomes_down(
            (st.ping, st.consecutive_failures),
            ping,
            threshold,
        ),
{
}

/// Along any run of ping readings, a device is reported down at most once per
/// failing episode: between two readings that each make it reported down
/// stands a successful ping.
pub proof fn lemma_down_once_per_episode(
    start: PingStatus,
    readings: Seq<Reading>,
    threshold: u64,
    i: int,
    j: int,
)
    requires
        0 <= i < j < readings.len(),
        becomes_down(ping_run(start, readings.take(i), threshold), readings[i], threshold),
        becomes_down(ping_run(start, readings.take(j), threshold), readings[j], threshold),
    ensures
        exists|k: int| i < k < j && readings[k] == Reading::Up,
{
    if forall|k: int| i < k < j ==> readings[k] != Reading::Up {
        lemma_stays_down(start, readings, threshold, i, j);
    }
}

proof fn lemma_stays_down(start: PingStatus, readings: Seq<Reading>, threshold: u64, i: int, m: int)
    requires
        0 <= i < m <= readings.len(),
        becomes_down(ping_run(start, readings.take(i), threshold), readings[i], threshold),
        forall|k: int| i < k < m ==> readings[k] != Reading::Up,
    ensures
        ping_run(start, readings.take(m), threshold).0 == Some(false),
    decreases m - i,
{
    assert(readings.take(m).drop_last() =~= readings.take(m - 1));
    if m > i + 1 {
        lemma_stays_down(start, readings, threshold, i, m - 1);
    }
}

/// Consecutive failed pings.
pub open spec fn downs(n: nat) -> Seq<Reading> {
    Seq::new(n, |k: int| Reading::Down)
}

/// Starting from a device that is not reported down and has no failures
/// counted, the failed pings before the `threshold`-th leave the reported
/// status as it was, and the `threshold`-th reports the device down.
pub proof fn lemma_down_at_threshold(start: PingStatus, threshold: u64, k: nat)
    requires
        start.0 != Some(false),
        start.1 == 0,
        k < threshold,
    ensures
        ping_run(start, downs(k), threshold) == (start.0, k as u64),
        becomes_down(ping_run(start, downs(k), threshold), Reading::Down, threshold) <==> k + 1
            == threshold,
    decreases k,
{
    if k > 0 {
        assert(downs(k).drop_last() =~= downs((k - 1) as nat));
        lemma_down_at_threshold(start, threshold, (k - 1) as nat);
    } else {
        assert(downs(k) =~= Seq::<Reading>::empty());
    }
}

/// Failed pings in a row ending with the reading at `i` (0 when it is not a failure).
pub open spec fn downs_ending_at(rs: Seq<Reading>, i: int) -> nat
    decreases i + 1,
{
    if i < 0 || i >= rs.len() || rs[i] != Reading::Down {
        0
    } else {
        downs_ending_at(rs, i - 1) + 1
    }
}

/// The reading at `i` ends a run of failed pings.
pub open spec fn run_ends_at(rs: Seq<Reading>, i: int) -> bool {
    0 <= i < rs.len() && rs[i] == Reading::Down && (i + 1 == rs.len() || rs[i + 1] != Reading::Down)
}

/// Readings among the first `n` that make the device reported down.
pub open spec fn down_reports(start: PingStatus, rs: Seq<Reading>, threshold: u64, n: int) -> nat
    decreases n,
{
    if n <= 0 {
        0
    } else {
        down_reports(start, rs, threshold, n - 1) + if becomes_down(
            ping_run(start, rs.take(n - 1), threshold),
            rs[n - 1],
            threshold,
        ) {
            1nat
        } else {
            0nat
        }
    }
}

/// Maximal runs of failed pings, at least `threshold` long, that end among
/// the first `n` readings.
pub open spec fn long_runs(rs: Seq<Reading>, threshold: u64, n: int) -> nat
    decreases n,
{
    if n <= 0 {
        0
    } else {
        long_runs(rs, threshold, n - 1) + if run_ends_at(rs, n - 1) && downs_ending_at(rs, n - 1)
            >= threshold {
            1nat
        } else {
            0nat
        }
    }
}

/// Readings among the first `n` that are the `threshold`-th failure in a row.
pub open spec fn threshold_hits(rs: Seq<Reading>, threshold: u64, n: int) -> nat
    decreases n,
{
    if n <= 0 {
        0
    } else {
        threshold_hits(rs, threshold, n - 1) + if downs_ending_at(rs, n - 1) == threshold {
            1nat
        } else {
            0nat
        }
    }
}

proof fn lemma_run_state(start: PingStatus, rs: Seq<Reading>, threshold: u64, i: int)
    requires
        threshold >= 1,
        start.0 != Some(false),
        start.1 == 0,
        0 <= i <= rs.len(),
        forall|j: int| 0 <= j < rs.len() ==> rs[j] != Reading::NotApplicable,
    ensures
        ping_run(start, rs.take(i), threshold).1 == (if downs_ending_at(rs, i - 1) >= u64::MAX {
            u64::MAX as nat
        } else {
            downs_ending_at(rs, i - 1)
        }),
        (ping_run(start, rs.take(i), threshold).0 == Some(false)) == (downs_ending_at(rs, i - 1)
            >= threshold),
    decreases i,
{
    if i > 0 {
        lemma_run_state(start, rs, threshold, i - 1);
        assert(rs.take(i).drop_last() =~= rs.take(i - 1));
        assert(rs.take(i).last() == rs[i - 1]);
    } else {
        assert(rs.take(0) =~= Seq::<Reading>::empty());
    }
}

/// Over ping results, starting from a device not reported down with no
/// failures counted, a reading reports the device down exactly when it is
/// the `threshold`-th failed ping in a row.
pub proof fn lemma_down_at_threshold_hit(start: PingStatus, rs: Seq<Reading>, threshold: u64, i: int)
    requires
        threshold >= 1,
        start.0 != Some(false),
        start.1 == 0,
        0 <= i < rs.len(),
        forall|j: int| 0 <= j < rs.len() ==> rs[j] != Reading::NotApplicable,
    ensures
        becomes_down(ping_run(start, rs.take(i), threshold), rs[i], threshold) == (downs_ending_at(rs, i)
            == threshold),
{
    lemma_run_state(start, rs, threshold, i);
}

proof fn lemma_hits_are_runs(rs: Seq<Reading>, threshold: u64, n: int)
    requires
        threshold >= 1,
        0 <= n <= rs.len(),
    ensures
        threshold_hits(rs, threshold, n) == long_runs(rs, threshold, n) + if n > 0 && downs_ending_at(
            rs,
            n - 1,
        ) >= threshold && !run_ends_at(rs, n - 1) {
            1nat
        } else {
            0nat
        },
    decreases n,
{
    if n > 0 {
        lemma_hits_are_runs(rs, threshold, n - 1);
        let i = n - 1;
        if i > 0 && downs_ending_at(rs, i - 1) >= threshold && !run_ends_at(rs, i - 1) {
            assert(rs[i] == Reading::Down);
        }
        if downs_ending_at(rs, i) >= threshold && !(i > 0 && downs_ending_at(rs, i - 1) >= threshold
            && !run_ends_at(rs, i - 1)) {
            assert(rs[i] == Reading::Down);
            if i > 0 && downs_ending_at(rs, i - 1) >= threshold {
                assert(run_ends_at(rs, i - 1) || rs[i] != Reading::Down);
            }
        }
    }
}

/// Over ping results, starting from a device not reported down with no
/// failures counted, the device is reported down once for every maximal
/// run of failed pings at least `threshold` long, and at no other time.
pub proof fn lemma_down_reports_count_runs(start: PingStatus, rs: Seq<Reading>, threshold: u64)
    requires
        threshold >= 1,
        start.0 != Some(false),
        start.1 == 0,
        forall|j: int| 0 <= j < rs.len() ==> rs[j] != Reading::NotApplicable,
    ensures
        down_reports(start, rs, threshold, rs.len() as int) == long_runs(rs, threshold, rs.len() as int),
{
    lemma_reports_are_hits(start, rs, threshold, rs.len() as int);
    lemma_hits_are_runs(rs, threshold, rs.len() as int);
    if rs.len() > 0 {
        assert(run_ends_at(rs, rs.len() - 1) || downs_ending_at(rs, rs.len() - 1) == 0);
    }
}

proof fn lemma_reports_are_hits(start: PingStatus, rs: Seq<Reading>, threshold: u64, n: int)
    requires
        threshold >= 1,
        start.0 != Some(false),
        start.1 == 0,
        0 <= n <= rs.len(),
        forall|j: int| 0 <= j < rs.len() ==> rs[j] != Reading::NotApplicable,
    ensures
        down_reports(start, rs, threshold, n) == threshold_hits(rs, threshold, n),
    decreases n,
{
    if n > 0 {
        lemma_reports_are_hits(start, rs, threshold, n - 1);
        lemma_down_at_threshold_hit(start, rs, threshold, n - 1);
    }
}

} // verus!
