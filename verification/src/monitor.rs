//! The monitor interface's vocabulary and the coordinator's decisions: the
//! control-first outward mailbox, skip-on-miss schedules, and command
//! handling. Threads, channels, and clocks live outside the verified core.
use vstd::prelude::*;
use crate::model::{PhysicalGpuId, Timestamp};
use crate::text::{extend_chars, string_of};
use crate::state::topology::StateEffect;

verus! {

/// Options for starting a monitor.
#[derive(Debug, Clone, Default)]
#[non_exhaustive]
pub struct MonitorOptions {
    /// Where to load/store the small daily summary. `None` disables
    /// persistence without changing telemetry semantics.
    pub summary_path: Option<std::path::PathBuf>,
    /// Test seam: a fixture root in place of `/`.
    pub host_root: Option<std::path::PathBuf>,
    /// Test seam: an injected fatal after this delay.
    pub fatal_after: Option<std::time::Duration>,
}

impl MonitorOptions {
    /// Default options: persistence disabled, the real host root, no
    /// injected fatal.
    pub fn new() -> (o: MonitorOptions)
        ensures
            o.summary_path is None,
            o.host_root is None,
            o.fatal_after is None,
    {
        MonitorOptions { summary_path: None, host_root: None, fatal_after: None }
    }

    /// Test seam: collect from a fixture root instead of `/`.
    pub fn set_debug_host_root(&mut self, root: std::path::PathBuf)
        ensures
            final(self).host_root == Some(root),
            final(self).summary_path == old(self).summary_path,
            final(self).fatal_after == old(self).fatal_after,
    {
        self.host_root = Some(root);
    }

    /// Test seam: inject a fatal after a delay.
    pub fn set_debug_fatal_after(&mut self, after: std::time::Duration)
        ensures
            final(self).fatal_after == Some(after),
            final(self).summary_path == old(self).summary_path,
            final(self).host_root == old(self).host_root,
    {
        self.fatal_after = Some(after);
    }
}

/// A factual lifecycle transition; never a log line.
#[derive(Debug, Clone, PartialEq, Eq)]
#[non_exhaustive]
pub struct Notice {
    /// What happened, e.g. `GPU disconnected: gpu-…`.
    pub message: String,
    /// When the transition was confirmed.
    pub occurred_at: Timestamp,
}

impl Notice {
    pub fn new(message: String, occurred_at: Timestamp) -> (n: Notice)
        ensures
            n.message == message,
            n.occurred_at == occurred_at,
    {
        Notice { message, occurred_at }
    }
}

/// Events delivered to a monitor's consumer.
#[derive(Debug, Clone)]
#[non_exhaustive]
pub enum MonitorEvent<S> {
    /// A new owned, immutable snapshot.
    Snapshot(S),
    /// A factual lifecycle transition.
    Notice(Notice),
    /// The monitor can produce no further snapshots.
    Fatal(MonitorError),
}

/// Bounded commands accepted while the monitor runs.
#[derive(Debug, Clone, PartialEq, Eq)]
#[non_exhaustive]
pub enum MonitorCommand {
    /// Enables the process lane scoped to one GPU, or disables it.
    SetProcessScope(Option<PhysicalGpuId>),
    /// Clears session peaks.
    ResetSessionPeaks,
}

/// Startup cannot proceed.
#[derive(Debug, Clone, Copy, PartialEq, Eq, Structural)]
#[non_exhaustive]
pub enum StartError {
    /// The host is not Linux.
    UnsupportedHost,
    /// No AMD PCI/DRM device bound to `amdgpu` was discoverable.
    NoGpu,
}

impl StartError {
    pub open spec fn spec_message(self) -> Seq<char> {
        match self {
            StartError::UnsupportedHost => "gpuflo requires Linux"@,
            StartError::NoGpu => "no AMD GPU bound to the amdgpu driver was found"@,
        }
    }

    /// The error's sentence.
    pub fn message(&self) -> (r: &'static str)
        ensures
            r@ == self.spec_message(),
    {
        match self {
            StartError::UnsupportedHost => "gpuflo requires Linux",
            StartError::NoGpu => "no AMD GPU bound to the amdgpu driver was found",
        }
    }
}

/// The coordinator cannot produce further valid snapshots.
#[derive(Debug, Clone, PartialEq, Eq)]
#[non_exhaustive]
pub enum MonitorError {
    /// XCP topology changed; a fresh process must re-enumerate.
    PartitionConfigurationChanged,
    /// An injected or internal coordinator failure.
    Internal(String),
}

impl MonitorError {
    pub open spec fn spec_message(self) -> Seq<char> {
        match self {
            MonitorError::PartitionConfigurationChanged => "GPU partition configuration changed; restart gpuflo"@,
            MonitorError::Internal(s) => "monitor failure: "@ + s@,
        }
    }

    /// The error's sentence.
    pub fn message(&self) -> (r: String)
        ensures
            r@ == self.spec_message(),
    {
        let mut out: Vec<char> = Vec::new();
        match self {
            MonitorError::PartitionConfigurationChanged => extend_chars(
                &mut out,
                "GPU partition configuration changed; restart gpuflo",
            ),
            MonitorError::Internal(s) => {
                extend_chars(&mut out, "monitor failure: ");
                extend_chars(&mut out, s.as_str());
            },
        }
        string_of(&out)
    }
}

/// The monitor terminated and delivered its final event.
#[derive(Debug, Clone, Copy, PartialEq, Eq)]
pub struct MonitorClosed;

/// Outcome of a bounded receive without an event.
#[derive(Debug, Clone, Copy, PartialEq, Eq, Structural)]
pub enum ReceiveTimeoutError {
    /// No event arrived within the timeout.
    Timeout,
    /// The monitor terminated and delivered its final event.
    Closed,
}

/// Bounded shutdown did not complete cleanly.
#[derive(Debug, Clone, PartialEq, Eq)]
#[non_exhaustive]
pub enum ShutdownError {
    /// A lane or the persistence flush exceeded the shutdown bound and was
    /// detached.
    Incomplete(String),
}

impl ShutdownError {
    /// The error's sentence.
    pub fn message(&self) -> (r: String)
        ensures
            match self {
                ShutdownError::Incomplete(s) => r@ == "shutdown incomplete: "@ + s@,
            },
    {
        let mut out: Vec<char> = Vec::new();
        match self {
            ShutdownError::Incomplete(s) => {
                extend_chars(&mut out, "shutdown incomplete: ");
                extend_chars(&mut out, s.as_str());
            },
        }
        string_of(&out)
    }
}

// ---------------------------------------------------------------------------
// Outward mailbox
// ---------------------------------------------------------------------------

/// What one non-blocking receive finds.
#[derive(Debug)]
pub enum Delivery<S> {
    /// The next event, control events first.
    Event(MonitorEvent<S>),
    /// The stream ended after its final event.
    Closed,
    /// Nothing yet; the consumer waits.
    Empty,
}

/// Outward capacity-one mailboxes behind one receive interface: a lossy
/// latest-snapshot slot and a priority notice/fatal slot.
#[derive(Debug)]
pub struct Outward<S> {
    snapshot: Option<S>,
    notice: Option<Notice>,
    fatal: Option<MonitorError>,
    /// The coordinator exited; after any pending fatal is delivered, the
    /// stream is closed.
    closed: bool,
}

/// One operation on the mailboxes, as a model of a call sequence.
pub enum MailboxOp<S> {
    PublishSnapshot(S),
    PublishNotice(Notice),
    PublishFatal(MonitorError),
    Close,
    Take,
}

impl<S> Outward<S> {
    pub closed spec fn spec_snapshot(&self) -> Option<S> {
        self.snapshot
    }

    pub closed spec fn spec_notice(&self) -> Option<Notice> {
        self.notice
    }

    pub closed spec fn spec_fatal(&self) -> Option<MonitorError> {
        self.fatal
    }

    pub closed spec fn spec_closed(&self) -> bool {
        self.closed
    }

    /// A pending fatal error stands alone: nothing else waits beside it.
    pub closed spec fn wf(&self) -> bool {
        self.fatal is Some ==> self.notice is None && self.snapshot is None
    }

    /// The stream is over and empty: every later receive finds its end.
    pub closed spec fn finished(&self) -> bool {
        self.closed && self.fatal is None && self.notice is None && self.snapshot is None
    }

    /// The mailboxes after one operation.
    pub closed spec fn after(self, op: MailboxOp<S>) -> Outward<S> {
        match op {
            MailboxOp::PublishSnapshot(x) => if self.fatal is None && !self.closed {
                Outward { snapshot: Some(x), ..self }
            } else {
                self
            },
            MailboxOp::PublishNotice(n) => if self.fatal is None && !self.closed {
                Outward { notice: Some(n), ..self }
            } else {
                self
            },
            MailboxOp::PublishFatal(e) => if !self.closed {
                Outward { snapshot: None, notice: None, fatal: Some(e), closed: self.closed }
            } else {
                self
            },
            MailboxOp::Close => Outward { closed: true, ..self },
            MailboxOp::Take => match self.fatal {
                Some(_) => Outward { fatal: None, closed: true, ..self },
                None => match self.notice {
                    Some(_) => Outward { notice: None, ..self },
                    None => Outward { snapshot: None, ..self },
                },
            },
        }
    }

    /// What a receive finds: the fatal, else the notice, else the latest
    /// snapshot, else the end of the stream or nothing yet.
    pub closed spec fn taken(self) -> Delivery<S> {
        match self.fatal {
            Some(e) => Delivery::Event(MonitorEvent::Fatal(e)),
            None => match self.notice {
                Some(n) => Delivery::Event(MonitorEvent::Notice(n)),
                None => match self.snapshot {
                    Some(x) => Delivery::Event(MonitorEvent::Snapshot(x)),
                    None => if self.closed {
                        Delivery::Closed
                    } else {
                        Delivery::Empty
                    },
                },
            },
        }
    }

    /// The mailboxes after a sequence of operations.
    pub closed spec fn run(self, ops: Seq<MailboxOp<S>>) -> Outward<S>
        decreases ops.len(),
    {
        if ops.len() == 0 {
            self
        } else {
            self.run(ops.drop_last()).after(ops.last())
        }
    }

    /// Every operation keeps a pending fatal alone.
    pub proof fn lemma_run_keeps_wf(self, ops: Seq<MailboxOp<S>>)
        requires
            self.wf(),
        ensures
            self.run(ops).wf(),
        decreases ops.len(),
    {
        if ops.len() > 0 {
            self.lemma_run_keeps_wf(ops.drop_last());
        }
    }

    /// Once a receive has delivered the fatal, the stream stays closed:
    /// whatever is published or closed afterwards, every later receive finds
    /// the end of the stream, never a snapshot or a notice.
    pub proof fn lemma_closed_after_fatal(self, ops: Seq<MailboxOp<S>>, k: int, j: int)
        requires
            self.wf(),
            0 <= k < j <= ops.len(),
            ops[k] is Take,
            self.run(ops.take(k)).taken() matches Delivery::Event(MonitorEvent::Fatal(_)),
        ensures
            self.run(ops.take(j)).finished(),
            self.run(ops.take(j)).taken() is Closed,
        decreases j - k,
    {
        if j == k + 1 {
            self.lemma_run_keeps_wf(ops.take(k));
            assert(ops.take(j).drop_last() =~= ops.take(k));
            assert(ops.take(j).last() == ops[k]);
        } else {
            self.lemma_closed_after_fatal(ops, k, j - 1);
            assert(ops.take(j).drop_last() =~= ops.take(j - 1));
        }
    }

    /// Empty, open mailboxes.
    pub fn new() -> (o: Outward<S>)
        ensures
            o.wf(),
            o.spec_snapshot() is None,
            o.spec_notice() is None,
            o.spec_fatal() is None,
            !o.spec_closed(),
    {
        Outward { snapshot: None, notice: None, fatal: None, closed: false }
    }

    /// Lossy latest-snapshot publication; never displaces control events and
    /// is dropped once a fatal is pending or the stream closed.
    pub fn publish_snapshot(&mut self, snapshot: S)
        ensures
            *final(self) == old(self).after(MailboxOp::PublishSnapshot(snapshot)),
            old(self).wf() ==> final(self).wf(),
            old(self).finished() ==> final(self).finished(),
            old(self).spec_fatal() is None && !old(self).spec_closed() ==> final(self).spec_snapshot()
                == Some(snapshot),
            !(old(self).spec_fatal() is None && !old(self).spec_closed()) ==> final(self).spec_snapshot()
                == old(self).spec_snapshot(),
            final(self).spec_notice() == old(self).spec_notice(),
            final(self).spec_fatal() == old(self).spec_fatal(),
            final(self).spec_closed() == old(self).spec_closed(),
    {
        if self.fatal.is_some() || self.closed {
            return;
        }
        self.snapshot = Some(snapshot);
    }

    /// Notice publication: a newer notice replaces an unconsumed older one.
    pub fn publish_notice(&mut self, notice: Notice)
        ensures
            *final(self) == old(self).after(MailboxOp::PublishNotice(notice)),
            old(self).wf() ==> final(self).wf(),
            old(self).finished() ==> final(self).finished(),
            old(self).spec_fatal() is None && !old(self).spec_closed() ==> final(self).spec_notice()
                == Some(notice),
            !(old(self).spec_fatal() is None && !old(self).spec_closed()) ==> final(self).spec_notice()
                == old(self).spec_notice(),
            final(self).spec_snapshot() == old(self).spec_snapshot(),
            final(self).spec_fatal() == old(self).spec_fatal(),
            final(self).spec_closed() == old(self).spec_closed(),
    {
        if self.fatal.is_some() || self.closed {
            return;
        }
        self.notice = Some(notice);
    }

    /// Fatal publication replaces any pending notice and snapshot and stops
    /// future publication.
    pub fn publish_fatal(&mut self, error: MonitorError)
        ensures
            *final(self) == old(self).after(MailboxOp::PublishFatal(error)),
            old(self).wf() ==> final(self).wf(),
            old(self).finished() ==> final(self).finished(),
            !old(self).spec_closed() ==> final(self).spec_fatal() == Some(error) && final(
                self).spec_notice() is None && final(self).spec_snapshot() is None,
            old(self).spec_closed() ==> final(self).spec_fatal() == old(self).spec_fatal() && final(
                self).spec_notice() == old(self).spec_notice() && final(self).spec_snapshot() == old(
                self).spec_snapshot(),
            final(self).spec_closed() == old(self).spec_closed(),
    {
        if self.closed {
            return;
        }
        self.notice = None;
        self.snapshot = None;
        self.fatal = Some(error);
    }

    /// The coordinator exited.
    pub fn close(&mut self)
        ensures
            *final(self) == old(self).after(MailboxOp::Close),
            old(self).wf() ==> final(self).wf(),
            old(self).finished() ==> final(self).finished(),
            final(self).spec_closed(),
            final(self).spec_snapshot() == old(self).spec_snapshot(),
            final(self).spec_notice() == old(self).spec_notice(),
            final(self).spec_fatal() == old(self).spec_fatal(),
    {
        self.closed = true;
    }

    /// Whether a receive would find something (an event or the end).
    pub fn pending(&self) -> (r: bool)
        ensures
            r == (self.spec_fatal() is Some || self.spec_notice() is Some || self.spec_snapshot() is Some
                || self.spec_closed()),
    {
        self.fatal.is_some() || self.notice.is_some() || self.snapshot.is_some() || self.closed
    }

    /// Control-first receive: a fatal (which closes the stream), else a
    /// notice, else the latest snapshot, else the end of the stream.
    pub fn take(&mut self) -> (d: Delivery<S>)
        ensures
            *final(self) == old(self).after(MailboxOp::Take),
            d == old(self).taken(),
            old(self).wf() ==> final(self).wf(),
            old(self).finished() ==> d is Closed && final(self).finished(),
            old(self).wf() && (d matches Delivery::Event(MonitorEvent::Fatal(_))) ==> final(self).finished(),
            match old(self).spec_fatal() {
                Some(e) => {
                    &&& d matches Delivery::Event(MonitorEvent::Fatal(x)) && x == e
                    &&& final(self).spec_fatal() is None
                    &&& final(self).spec_closed()
                    &&& final(self).spec_notice() == old(self).spec_notice()
                    &&& final(self).spec_snapshot() == old(self).spec_snapshot()
                },
                None => match old(self).spec_notice() {
                    Some(n) => {
                        &&& d matches Delivery::Event(MonitorEvent::Notice(x)) && x == n
                        &&& final(self).spec_notice() is None
                        &&& final(self).spec_fatal() is None
                        &&& final(self).spec_snapshot() == old(self).spec_snapshot()
                        &&& final(self).spec_closed() == old(self).spec_closed()
                    },
                    None => match old(self).spec_snapshot() {
                        Some(s) => {
                            &&& d matches Delivery::Event(MonitorEvent::Snapshot(x)) && x == s
                            &&& final(self).spec_snapshot() is None
                            &&& final(self).spec_notice() is None
                            &&& final(self).spec_fatal() is None
                            &&& final(self).spec_closed() == old(self).spec_closed()
                        },
                        None => {
                            &&& if old(self).spec_closed() {
                                d is Closed
                            } else {
                                d is Empty
                            }
                            &&& final(self).spec_snapshot() is None
                            &&& final(self).spec_notice() is None
                            &&& final(self).spec_fatal() is None
                            &&& final(self).spec_closed() == old(self).spec_closed()
                        },
                    },
                },
            },
    {
        if let Some(error) = self.fatal.take() {
            self.closed = true;
            return Delivery::Event(MonitorEvent::Fatal(error));
        }
        if let Some(notice) = self.notice.take() {
            return Delivery::Event(MonitorEvent::Notice(notice));
        }
        if let Some(snapshot) = self.snapshot.take() {
            return Delivery::Event(MonitorEvent::Snapshot(snapshot));
        }
        if self.closed {
            Delivery::Closed
        } else {
            Delivery::Empty
        }
    }
}

// ---------------------------------------------------------------------------
// Schedules
// ---------------------------------------------------------------------------

/// Fast kernel collection cadence; also the production tick (ms).
pub const FAST_CADENCE_MS: u64 = 250;
/// Slow health collection cadence (ms).
pub const SLOW_CADENCE_MS: u64 = 1000;
/// Process collection cadence while a scope is active (ms).
pub const PROCESS_CADENCE_MS: u64 = 2000;
/// Topology rescan cadence (ms).
pub const REDISCOVERY_CADENCE_MS: u64 = 2000;
/// First slow collection, after start (ms).
pub const FIRST_SLOW_MS: u64 = 50;

/// A deadline advanced past `now` by whole cadences; a deadline still in
/// the future is kept. Missed ticks are skipped, never replayed.
pub open spec fn advanced(next: int, cadence: int, now: int) -> int {
    if next > now {
        next
    } else {
        next + ((now - next) / cadence + 1) * cadence
    }
}

/// Advances one deadline past `now` (skip-on-miss).
pub fn advance(next: u64, cadence: u64, now: u64) -> (r: u64)
    requires
        cadence > 0,
        now + cadence <= u64::MAX,
    ensures
        r == advanced(next as int, cadence as int, now as int),
        r > now,
        next <= now ==> r - cadence <= now,
{
    if next > now {
        return next;
    }
    let k = (now - next) / cadence + 1;
    proof {
        let d = (now - next) as int;
        let c = cadence as int;
        assert(k * c <= d + c) by (nonlinear_arith)
            requires
                k == d / c + 1,
                c > 0,
                d >= 0,
        ;
        assert(k * c > d) by (nonlinear_arith)
            requires
                k == d / c + 1,
                c > 0,
                d >= 0,
        ;
    }
    next + k * cadence
}

/// The coordinator's monotonic deadlines, in ms since it started.
#[derive(Debug, Clone, Copy, PartialEq, Eq, Structural)]
pub struct Schedule {
    pub next_fast: u64,
    pub next_slow: u64,
    pub next_production: u64,
    pub next_process: u64,
    pub next_rediscovery: u64,
}

/// Which work falls due on one pass.
#[derive(Debug, Clone, Copy, PartialEq, Eq, Structural)]
pub struct Due {
    pub fast: bool,
    pub slow: bool,
    pub process: bool,
    pub rediscovery: bool,
    pub production: bool,
}

impl Schedule {
    /// Deadlines at start: fast and process at once, slow shortly after,
    /// the first production tick one cadence in, rediscovery after its
    /// cadence.
    pub fn start(now: u64) -> (s: Schedule)
        requires
            now + REDISCOVERY_CADENCE_MS <= u64::MAX,
        ensures
            s.next_fast == now,
            s.next_production == now + FAST_CADENCE_MS,
            s.next_slow == now + FIRST_SLOW_MS,
            s.next_process == now,
            s.next_rediscovery == now + REDISCOVERY_CADENCE_MS,
    {
        Schedule {
            next_fast: now,
            next_slow: now + FIRST_SLOW_MS,
            next_production: now + FAST_CADENCE_MS,
            next_process: now,
            next_rediscovery: now + REDISCOVERY_CADENCE_MS,
        }
    }

    /// Marks the work due at `now` and advances each due deadline past
    /// `now`. Process collection is due only while a scope is active.
    pub fn due(&mut self, now: u64, process_scoped: bool) -> (d: Due)
        requires
            now + REDISCOVERY_CADENCE_MS <= u64::MAX,
        ensures
            d.fast == (now >= old(self).next_fast),
            d.slow == (now >= old(self).next_slow),
            d.process == (process_scoped && now >= old(self).next_process),
            d.rediscovery == (now >= old(self).next_rediscovery),
            d.production == (now >= old(self).next_production),
            final(self).next_fast == (if d.fast {
                advanced(old(self).next_fast as int, FAST_CADENCE_MS as int, now as int)
            } else {
                old(self).next_fast as int
            }),
            final(self).next_slow == (if d.slow {
                advanced(old(self).next_slow as int, SLOW_CADENCE_MS as int, now as int)
            } else {
                old(self).next_slow as int
            }),
            final(self).next_process == (if d.process {
                advanced(old(self).next_process as int, PROCESS_CADENCE_MS as int, now as int)
            } else {
                old(self).next_process as int
            }),
            final(self).next_rediscovery == (if d.rediscovery {
                advanced(old(self).next_rediscovery as int, REDISCOVERY_CADENCE_MS as int, now as int)
            } else {
                old(self).next_rediscovery as int
            }),
            final(self).next_production == (if d.production {
                advanced(old(self).next_production as int, FAST_CADENCE_MS as int, now as int)
            } else {
                old(self).next_production as int
            }),
    {
        let fast = now >= self.next_fast;
        if fast {
            self.next_fast = advance(self.next_fast, FAST_CADENCE_MS, now);
        }
        let slow = now >= self.next_slow;
        if slow {
            self.next_slow = advance(self.next_slow, SLOW_CADENCE_MS, now);
        }
        let process = process_scoped && now >= self.next_process;
        if process {
            self.next_process = advance(self.next_process, PROCESS_CADENCE_MS, now);
        }
        let rediscovery = now >= self.next_rediscovery;
        if rediscovery {
            self.next_rediscovery = advance(self.next_rediscovery, REDISCOVERY_CADENCE_MS, now);
        }
        let production = now >= self.next_production;
        if production {
            self.next_production = advance(self.next_production, FAST_CADENCE_MS, now);
        }
        Due { fast, slow, process, rediscovery, production }
    }

    /// How long to sleep at `now`: until the earliest deadline (fast, slow,
    /// production, rediscovery), at most one fast cadence.
    pub fn wait_ms(&self, now: u64) -> (w: u64)
        ensures
            w <= FAST_CADENCE_MS,
            ({
                let earliest = min4(
                    self.next_fast as int,
                    self.next_slow as int,
                    self.next_production as int,
                    self.next_rediscovery as int,
                );
                let until = if earliest > now {
                    earliest - now
                } else {
                    0
                };
                w == if until < FAST_CADENCE_MS {
                    until
                } else {
                    FAST_CADENCE_MS as int
                }
            }),
    {
        let mut earliest = self.next_fast;
        if self.next_slow < earliest {
            earliest = self.next_slow;
        }
        if self.next_production < earliest {
            earliest = self.next_production;
        }
        if self.next_rediscovery < earliest {
            earliest = self.next_rediscovery;
        }
        let until = if earliest > now {
            earliest - now
        } else {
            0
        };
        if until < FAST_CADENCE_MS {
            until
        } else {
            FAST_CADENCE_MS
        }
    }
}

/// The smallest of four.
pub open spec fn min4(a: int, b: int, c: int, d: int) -> int {
    let ab = if b < a {
        b
    } else {
        a
    };
    let abc = if c < ab {
        c
    } else {
        ab
    };
    if d < abc {
        d
    } else {
        abc
    }
}

/// A production tick publishes a snapshot only once two fast samples have
/// been applied (the priming sample plus one).
pub fn publishes(fast_samples_applied: u64) -> (r: bool)
    ensures
        r == (fast_samples_applied >= 2),
{
    fast_samples_applied >= 2
}

/// The process-overlay scope the coordinator collects for.
#[derive(Debug)]
pub struct ProcessScope {
    pub scope: Option<PhysicalGpuId>,
    /// Whether a scanned overlay is retained.
    pub has_overlay: bool,
}

impl ProcessScope {
    /// Applies one command; returns whether session peaks must be reset.
    /// Closing the scope drops the retained overlay.
    pub fn handle(&mut self, command: MonitorCommand) -> (reset_peaks: bool)
        ensures
            match command {
                MonitorCommand::SetProcessScope(s) => {
                    &&& !reset_peaks
                    &&& final(self).scope == s
                    &&& final(self).has_overlay == (s is Some && old(self).has_overlay)
                },
                MonitorCommand::ResetSessionPeaks => {
                    &&& reset_peaks
                    &&& final(self).scope == old(self).scope
                    &&& final(self).has_overlay == old(self).has_overlay
                },
            },
    {
        match command {
            MonitorCommand::SetProcessScope(scope) => {
                if scope.is_none() {
                    self.has_overlay = false;
                }
                self.scope = scope;
                false
            },
            MonitorCommand::ResetSessionPeaks => true,
        }
    }
}

/// The notice of a GPU that appeared or returned.
pub fn connected_notice(id: &PhysicalGpuId) -> (r: String)
    ensures
        r@ == "GPU connected: "@ + id@,
{
    let mut out: Vec<char> = Vec::new();
    extend_chars(&mut out, "GPU connected: ");
    extend_chars(&mut out, id.as_str());
    string_of(&out)
}

/// The notice of a GPU confirmed removed.
pub fn disconnected_notice(id: &PhysicalGpuId) -> (r: String)
    ensures
        r@ == "GPU disconnected: "@ + id@,
{
    let mut out: Vec<char> = Vec::new();
    extend_chars(&mut out, "GPU disconnected: ");
    extend_chars(&mut out, id.as_str());
    string_of(&out)
}

/// The notice text of one topology effect: an arrival when arrivals are
/// announced, a departure always, a partition change never (it is fatal).
pub open spec fn notice_text(e: StateEffect, announce: bool) -> Option<Seq<char>> {
    match e {
        StateEffect::GpuAdded(id) => if announce {
            Some("GPU connected: "@ + id@)
        } else {
            None
        },
        StateEffect::GpuRemoved(id) => Some("GPU disconnected: "@ + id@),
        StateEffect::PartitionConfigurationChanged(_) => None,
    }
}

/// The notice texts of the effects, in order.
pub open spec fn notice_texts(effects: Seq<StateEffect>, announce: bool) -> Seq<Seq<char>>
    decreases effects.len(),
{
    if effects.len() == 0 {
        Seq::empty()
    } else {
        let rest = notice_texts(effects.drop_last(), announce);
        match notice_text(effects.last(), announce) {
            Some(t) => rest.push(t),
            None => rest,
        }
    }
}

/// Some effect is a partition change.
pub open spec fn any_partition_change(effects: Seq<StateEffect>) -> bool {
    exists|i: int| 0 <= i < effects.len() && #[trigger] effects[i] is PartitionConfigurationChanged
}

/// What a reconciliation tells the consumer: a partition change is fatal;
/// otherwise one notice per departure, and per arrival when `announce`, in
/// effect order, each at `now`.
pub fn topology_notices(effects: &Vec<StateEffect>, announce: bool, now: Timestamp) -> (r: Result<
    Vec<Notice>,
    MonitorError,
>)
    ensures
        r is Err <==> any_partition_change(effects@),
        r matches Err(e) ==> e == MonitorError::PartitionConfigurationChanged,
        r matches Ok(ns) ==> ns@.map_values(|n: Notice| n.message@) == notice_texts(effects@, announce)
            && forall|i: int| 0 <= i < ns@.len() ==> (#[trigger] ns@[i]).occurred_at == now,
{
    let mut out: Vec<Notice> = Vec::new();
    let mut i: usize = 0;
    while i < effects.len()
        invariant
            i <= effects@.len(),
            !any_partition_change(effects@.take(i as int)),
            out@.map_values(|n: Notice| n.message@) == notice_texts(effects@.take(i as int), announce),
            forall|k: int| 0 <= k < out@.len() ==> (#[trigger] out@[k]).occurred_at == now,
        decreases effects.len() - i,
    {
        let ghost prefix = effects@.take(i as int);
        let ghost next = effects@.take(i + 1);
        proof {
            assert(next.drop_last() =~= prefix);
            assert(next.last() == effects@[i as int]);
        }
        match &effects[i] {
            StateEffect::PartitionConfigurationChanged(_) => {
                proof {
                    assert(effects@[i as int] is PartitionConfigurationChanged);
                }
                return Err(MonitorError::PartitionConfigurationChanged);
            },
            StateEffect::GpuAdded(id) => {
                if announce {
                    let ghost before = out@;
                    out.push(Notice::new(connected_notice(id), now));
                    proof {
                        assert(out@.map_values(|n: Notice| n.message@) =~= before.map_values(
                            |n: Notice| n.message@,
                        ).push("GPU connected: "@ + id@));
                    }
                }
            },
            StateEffect::GpuRemoved(id) => {
                let ghost before = out@;
                out.push(Notice::new(disconnected_notice(id), now));
                proof {
                    assert(out@.map_values(|n: Notice| n.message@) =~= before.map_values(
                        |n: Notice| n.message@,
                    ).push("GPU disconnected: "@ + id@));
                }
            },
        }
        proof {
            assert forall|k: int| 0 <= k < next.len() implies !(#[trigger] next[k] is PartitionConfigurationChanged) by {
                if k < i {
                    assert(next[k] == prefix[k]);
                }
            }
        }
        i = i + 1;
    }
    proof {
        assert(effects@.take(effects@.len() as int) =~= effects@);
    }
    Ok(out)
}

} // verus!
