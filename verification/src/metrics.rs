//! Counters of what the proxy did.

use std::time::Instant;

use vstd::prelude::*;

use crate::clock;
use crate::table::{contents, Table};
use crate::text::texts;

verus! {

/// What the proxy counts.
pub struct Metrics {
    pub start_time: Instant,
    /// How often each backend was tried.
    pub requests: Table<u64>,
    /// How often a status made the proxy try the next backend.
    pub failovers: u64,
    /// How often a fault rule fired.
    pub faults_injected: u64,
    /// The last status of each backend, 0 before the first.
    pub last_status: Table<u16>,
}

/// The contents of a `Metrics`.
pub struct MetricsView {
    pub start_time: Instant,
    pub requests: Map<Seq<char>, u64>,
    pub failovers: u64,
    pub faults_injected: u64,
    pub last_status: Map<Seq<char>, u16>,
}

impl View for Metrics {
    type V = MetricsView;

    open spec fn view(&self) -> MetricsView {
        MetricsView {
            start_time: self.start_time,
            requests: self.requests@,
            failovers: self.failovers,
            faults_injected: self.faults_injected,
            last_status: self.last_status@,
        }
    }
}

/// The number after `n` on a counter, which starts over after the highest.
pub open spec fn next_count(n: u64) -> u64 {
    if n == u64::MAX {
        0
    } else {
        (n + 1) as u64
    }
}

/// The map that gives each of `names` the value `v`.
pub open spec fn all_at<V>(names: Seq<Seq<char>>, v: V) -> Map<Seq<char>, V> {
    Map::new(|name: Seq<char>| names.contains(name), |name: Seq<char>| v)
}

/// One more name is one more entry.
proof fn lemma_all_at_push<V>(names: Seq<Seq<char>>, name: Seq<char>, v: V)
    ensures
        all_at(names.push(name), v) == all_at(names, v).insert(name, v),
{
    assert forall|n: Seq<char>| #[trigger] names.push(name).contains(n) <==> names.contains(n) || n
        == name by {
        assert(names.push(name)[names.len() as int] == name);
        if names.contains(n) {
            let j = choose|j: int| 0 <= j < names.len() && names[j] == n;
            assert(names.push(name)[j] == n);
        }
    }
    assert(all_at(names.push(name), v) =~= all_at(names, v).insert(name, v));
}

impl MetricsView {
    /// The counters of a proxy that has not done anything.
    pub open spec fn fresh(names: Seq<Seq<char>>, start_time: Instant) -> MetricsView {
        MetricsView {
            start_time,
            requests: all_at(names, 0),
            failovers: 0,
            faults_injected: 0,
            last_status: all_at(names, 0),
        }
    }

    /// After `backend` was tried once more. A name that is not counted changes nothing.
    pub open spec fn tried(self, backend: Seq<char>) -> MetricsView {
        if self.requests.contains_key(backend) {
            MetricsView {
                requests: self.requests.insert(backend, next_count(self.requests[backend])),
                ..self
            }
        } else {
            self
        }
    }

    /// After one more failover.
    pub open spec fn failed_over(self) -> MetricsView {
        MetricsView { failovers: next_count(self.failovers), ..self }
    }

    /// After one more injected fault.
    pub open spec fn faulted(self) -> MetricsView {
        MetricsView { faults_injected: next_count(self.faults_injected), ..self }
    }

    /// After `backend` answered `status`. A name that is not counted changes nothing.
    pub open spec fn answered(self, backend: Seq<char>, status: u16) -> MetricsView {
        if self.last_status.contains_key(backend) {
            MetricsView { last_status: self.last_status.insert(backend, status), ..self }
        } else {
            self
        }
    }
}

/// The counters at one moment.
pub struct MetricsSnapshot {
    pub uptime_seconds: u64,
    pub requests: Table<u64>,
    pub failovers: u64,
    pub faults_injected: u64,
    pub last_status: Table<u16>,
}

/// The contents of a `MetricsSnapshot`.
pub struct SnapshotView {
    pub uptime_seconds: nat,
    pub requests: Map<Seq<char>, u64>,
    pub failovers: u64,
    pub faults_injected: u64,
    pub last_status: Map<Seq<char>, u16>,
}

impl View for MetricsSnapshot {
    type V = SnapshotView;

    open spec fn view(&self) -> SnapshotView {
        SnapshotView {
            uptime_seconds: self.uptime_seconds as nat,
            requests: self.requests@,
            failovers: self.failovers,
            faults_injected: self.faults_injected,
            last_status: self.last_status@,
        }
    }
}

impl MetricsView {
    /// The counters at `now`, and the whole seconds since the start.
    pub open spec fn snapshot(self, now: Instant) -> SnapshotView {
        SnapshotView {
            uptime_seconds: clock::uptime(self.start_time, now),
            requests: self.requests,
            failovers: self.failovers,
            faults_injected: self.faults_injected,
            last_status: self.last_status,
        }
    }
}

/// The same names and values again.
fn copy_table<V: View + Copy>(table: &Table<V>) -> (r: Table<V>)
    ensures
        r@ == table@,
{
    let entries = table.entries();
    let mut out: Table<V> = Table::new();
    let mut i: usize = 0;
    while i < entries.len()
        invariant
            i <= entries@.len(),
            out@ == contents(entries@.take(i as int)),
        decreases entries@.len() - i,
    {
        assert(entries@.take(i + 1).drop_last() == entries@.take(i as int));
        out.insert(entries[i].0.clone(), entries[i].1);
        i = i + 1;
    }
    assert(entries@.take(i as int) == entries@);
    out
}

impl Metrics {
    /// Counters for backends with these names, all at 0.
    pub fn new(backend_names: &[String]) -> (r: Metrics)
        ensures
            r@ == MetricsView::fresh(texts(backend_names@), r.start_time),
    {
        let mut requests: Table<u64> = Table::new();
        let mut last_status: Table<u16> = Table::new();
        let ghost names = texts(backend_names@);
        let mut i: usize = 0;
        assert(requests@ == all_at(names.take(0), 0u64));
        assert(last_status@ == all_at(names.take(0), 0u16));
        while i < backend_names.len()
            invariant
                i <= backend_names@.len(),
                names == texts(backend_names@),
                requests@ == all_at(names.take(i as int), 0u64),
                last_status@ == all_at(names.take(i as int), 0u16),
            decreases backend_names@.len() - i,
        {
            let ghost name = backend_names@[i as int]@;
            requests.insert(backend_names[i].clone(), 0);
            last_status.insert(backend_names[i].clone(), 0);
            proof {
                assert(names.take(i + 1) == names.take(i as int).push(name));
                lemma_all_at_push(names.take(i as int), name, 0u64);
                lemma_all_at_push(names.take(i as int), name, 0u16);
            }
            i = i + 1;
        }
        assert(names.take(i as int) == names);
        Metrics { start_time: clock::start(), requests, failovers: 0, faults_injected: 0, last_status }
    }

    /// Counts one more try of `backend`.
    pub fn inc_requests(&mut self, backend: &str)
        ensures
            final(self)@ == old(self)@.tried(backend@),
    {
        let count: u64 = match self.requests.get(backend) {
            Some(n) => *n,
            None => {
                return;
            },
        };
        self.requests.insert(backend.to_owned(), count.wrapping_add(1));
    }

    /// Counts one more failover.
    pub fn inc_failovers(&mut self)
        ensures
            final(self)@ == old(self)@.failed_over(),
    {
        self.failovers = self.failovers.wrapping_add(1);
    }

    /// Counts one more injected fault.
    pub fn inc_faults(&mut self)
        ensures
            final(self)@ == old(self)@.faulted(),
    {
        self.faults_injected = self.faults_injected.wrapping_add(1);
    }

    /// Records what `backend` answered.
    pub fn set_last_status(&mut self, backend: &str, status: u16)
        ensures
            final(self)@ == old(self)@.answered(backend@, status),
    {
        if self.last_status.contains(backend) {
            self.last_status.insert(backend.to_owned(), status);
        }
    }

    /// The counters at `now`.
    pub fn snapshot_at(&self, now: &Instant) -> (r: MetricsSnapshot)
        ensures
            r@ == self@.snapshot(*now),
    {
        MetricsSnapshot {
            uptime_seconds: clock::uptime_seconds(&self.start_time, now),
            requests: copy_table(&self.requests),
            failovers: self.failovers,
            faults_injected: self.faults_injected,
            last_status: copy_table(&self.last_status),
        }
    }

    /// The counters as they are now. Which instant that is depends on the clock, and nothing is
    /// claimed of it.
    pub fn snapshot(&self) -> (r: MetricsSnapshot)
        ensures
            exists|now: Instant| r@ == #[trigger] self@.snapshot(now),
    {
        self.snapshot_at(&clock::instant_now())
    }
}

/// Two snapshots with nothing counted in between have the same counters, and the uptime of the later
/// one is not smaller.
pub proof fn law_snapshots_agree(m: MetricsView, earlier: Instant, later: Instant)
    requires
        clock::ticks(earlier) <= clock::ticks(later),
    ensures
        m.snapshot(earlier).uptime_seconds <= m.snapshot(later).uptime_seconds,
        m.snapshot(later) == (SnapshotView {
            uptime_seconds: m.snapshot(later).uptime_seconds,
            ..m.snapshot(earlier)
        }),
{
    clock::law_uptime_does_not_go_down(m.start_time, earlier, later);
}

/// No operation counts a new backend, drops one or moves the start.
pub proof fn law_counted_backends_are_fixed(m: MetricsView, backend: Seq<char>, status: u16)
    ensures
        m.tried(backend).requests.dom() == m.requests.dom(),
        m.tried(backend).last_status == m.last_status,
        m.answered(backend, status).last_status.dom() == m.last_status.dom(),
        m.answered(backend, status).requests == m.requests,
        m.failed_over().requests == m.requests,
        m.failed_over().last_status == m.last_status,
        m.faulted().requests == m.requests,
        m.faulted().last_status == m.last_status,
        m.tried(backend).start_time == m.start_time,
        m.answered(backend, status).start_time == m.start_time,
        m.failed_over().start_time == m.start_time,
        m.faulted().start_time == m.start_time,
{
    assert(m.tried(backend).requests.dom() =~= m.requests.dom());
    assert(m.answered(backend, status).last_status.dom() =~= m.last_status.dom());
}

/// The last status of a counted backend is the one recorded last, whatever is counted after it and
/// whatever other backends answer.
pub proof fn law_last_status_is_the_last(
    m: MetricsView,
    backend: Seq<char>,
    status: u16,
    other: Seq<char>,
    other_status: u16,
)
    requires
        m.last_status.contains_key(backend),
        other != backend,
    ensures
        m.answered(backend, status).last_status[backend] == status,
        m.answered(backend, status).failed_over().tried(other).faulted().answered(
            other,
            other_status,
        ).last_status[backend] == status,
{
}

/// Trying one backend leaves the count of every other as it is.
pub proof fn law_counts_are_separate(m: MetricsView, backend: Seq<char>, other: Seq<char>)
    requires
        backend != other,
        m.requests.contains_key(other),
    ensures
        m.tried(backend).requests[other] == m.requests[other],
{
}

/// What one more try of a backend changes: its own count goes up by one, and to 0 after the highest;
/// nothing else changes, and nothing at all for a backend that is not counted.
pub proof fn law_a_try_counts_one(m: MetricsView, backend: Seq<char>, name: Seq<char>)
    ensures
        m.tried(backend).requests.contains_key(name) <==> m.requests.contains_key(name),
        m.requests.contains_key(name) ==> m.tried(backend).requests[name] == if name == backend {
            (m.requests[name] + 1) % 0x1_0000_0000_0000_0000
        } else {
            m.requests[name] as int
        },
        m.tried(backend).start_time == m.start_time,
        m.tried(backend).failovers == m.failovers,
        m.tried(backend).faults_injected == m.faults_injected,
        m.tried(backend).last_status == m.last_status,
{
}

/// What one more failover and one more injected fault change: their own count, by one.
pub proof fn law_failovers_and_faults_count_one(m: MetricsView)
    ensures
        m.failed_over().failovers == (m.failovers + 1) % 0x1_0000_0000_0000_0000,
        m.failed_over() == (MetricsView { failovers: m.failed_over().failovers, ..m }),
        m.faulted().faults_injected == (m.faults_injected + 1) % 0x1_0000_0000_0000_0000,
        m.faulted() == (MetricsView { faults_injected: m.faulted().faults_injected, ..m }),
{
}

/// What an answer of a backend changes: its own last status, where it is counted.
pub proof fn law_an_answer_is_the_last_status(
    m: MetricsView,
    backend: Seq<char>,
    status: u16,
    name: Seq<char>,
)
    ensures
        m.answered(backend, status).last_status.contains_key(name)
            <==> m.last_status.contains_key(name),
        m.last_status.contains_key(name) ==> m.answered(backend, status).last_status[name] == if name
            == backend {
            status
        } else {
            m.last_status[name]
        },
        m.answered(backend, status).start_time == m.start_time,
        m.answered(backend, status).failovers == m.failovers,
        m.answered(backend, status).faults_injected == m.faults_injected,
        m.answered(backend, status).requests == m.requests,
{
}

/// Fresh counters are at 0, for the given names and no others.
pub proof fn law_fresh_counters_are_zero(
    names: Seq<Seq<char>>,
    start_time: Instant,
    name: Seq<char>,
)
    ensures
        ({
            let m = MetricsView::fresh(names, start_time);
            &&& m.start_time == start_time
            &&& m.failovers == 0
            &&& m.faults_injected == 0
            &&& m.requests.contains_key(name) <==> names.contains(name)
            &&& m.last_status.contains_key(name) <==> names.contains(name)
            &&& names.contains(name) ==> m.requests[name] == 0 && m.last_status[name] == 0
        }),
{
}

/// A snapshot shows the counters as they are.
pub proof fn law_snapshots_show_the_counters(m: MetricsView, now: Instant)
    ensures
        m.snapshot(now).uptime_seconds == clock::uptime(m.start_time, now),
        m.snapshot(now).requests == m.requests,
        m.snapshot(now).failovers == m.failovers,
        m.snapshot(now).faults_injected == m.faults_injected,
        m.snapshot(now).last_status == m.last_status,
{
}

/// The contents of counters and of snapshots are their fields.
pub proof fn law_contents_of_counters(m: Metrics, s: MetricsSnapshot)
    ensures
        m@.start_time == m.start_time,
        m@.requests == m.requests@,
        m@.failovers == m.failovers,
        m@.faults_injected == m.faults_injected,
        m@.last_status == m.last_status@,
        s@.uptime_seconds == s.uptime_seconds,
        s@.requests == s.requests@,
        s@.failovers == s.failovers,
        s@.faults_injected == s.faults_injected,
        s@.last_status == s.last_status@,
{
}

} // verus!
