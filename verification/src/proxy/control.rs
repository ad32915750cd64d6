//! Control of a persistent proxy: capture commands, limits on a capture, and
//! the answers of the control endpoint.

use crate::capture::error::CaptureError;
use crate::number::{decimal, padded_decimal, push_decimal, push_padded};
use crate::profile::{Timestamp, WorkloadProfile};
use crate::proxy::capture::{workload_fits, CaptureEvent, EventView};
use crate::proxy::protocol::opt_view;
use crate::proxy::staging::{
    recover_profile, staged_parts, staged_profile, staging_views, StagingRow,
};
use crate::text::copy_string;
use vstd::prelude::*;

verus! {

// ── Capture commands ────────────────────────────────────────────────

/// Why a command is refused.
#[derive(Debug, Clone, Copy, PartialEq, Eq, Structural)]
pub enum CommandError {
    AlreadyCapturing,
    NotCapturing,
    NotConfigured,
    NotResponding,
}

/// The words of a refusal.
pub open spec fn refusal(e: CommandError) -> Seq<char> {
    match e {
        CommandError::AlreadyCapturing => "Already capturing"@,
        CommandError::NotCapturing => "Not currently capturing"@,
        CommandError::NotConfigured => "Proxy not configured for capture"@,
        CommandError::NotResponding => "Proxy not responding"@,
    }
}

impl CommandError {
    pub fn message(&self) -> (r: &'static str)
        ensures
            r@ == refusal(*self),
    {
        match self {
            CommandError::AlreadyCapturing => "Already capturing",
            CommandError::NotCapturing => "Not currently capturing",
            CommandError::NotConfigured => "Proxy not configured for capture",
            CommandError::NotResponding => "Proxy not responding",
        }
    }
}

/// Whether the endpoint passes a start command on.
pub fn start_refusal(capturing: bool, configured: bool) -> (r: Option<CommandError>)
    ensures
        r == (if capturing {
            Some(CommandError::AlreadyCapturing)
        } else if !configured {
            Some(CommandError::NotConfigured)
        } else {
            None
        }),
{
    if capturing {
        Some(CommandError::AlreadyCapturing)
    } else if !configured {
        Some(CommandError::NotConfigured)
    } else {
        None
    }
}

/// Whether the endpoint passes a stop command on.
pub fn stop_refusal(capturing: bool, configured: bool) -> (r: Option<CommandError>)
    ensures
        r == (if !capturing {
            Some(CommandError::NotCapturing)
        } else if !configured {
            Some(CommandError::NotConfigured)
        } else {
            None
        }),
{
    if !capturing {
        Some(CommandError::NotCapturing)
    } else if !configured {
        Some(CommandError::NotConfigured)
    } else {
        None
    }
}

/// Where a capture is written: the path of the command, else that of the
/// configuration, else one made from the time.
pub open spec fn output_path(
    requested: Option<Seq<char>>,
    configured: Option<Seq<char>>,
    time: Seq<char>,
) -> Seq<char> {
    match requested {
        Some(p) => p,
        None => match configured {
            Some(p) => p,
            None => "capture-"@ + time + ".wkl"@,
        },
    }
}

pub fn choose_output_path(requested: &Option<String>, configured: &Option<String>, time: &str) -> (r: String)
    ensures
        r@ == output_path(opt_view(*requested), opt_view(*configured), time@),
{
    match requested {
        Some(p) => copy_string(p.as_str()),
        None => match configured {
            Some(p) => copy_string(p.as_str()),
            None => {
                let mut out = String::new();
                out.push_str("capture-");
                out.push_str(time);
                out.push_str(".wkl");
                proof {
                    assert(out@ =~= "capture-"@ + time@ + ".wkl"@);
                }
                out
            },
        },
    }
}

/// The file that a recovered capture is written to.
pub fn recovered_path(capture_id: &str) -> (r: String)
    ensures
        r@ == "recovered-"@ + capture_id@ + ".wkl"@,
{
    let mut out = String::new();
    out.push_str("recovered-");
    out.push_str(capture_id);
    out.push_str(".wkl");
    proof {
        assert(out@ =~= "recovered-"@ + capture_id@ + ".wkl"@);
    }
    out
}

// ── The course of captures ──────────────────────────────────────────

/// What a proxy that stays up is doing about captures.
#[derive(Debug)]
pub enum Phase {
    /// Nothing is captured.
    Idle,
    /// The capture with this number is running.
    Capturing(String),
    /// The capture has ended and its rows are being read.
    Reading { id: String, output: Option<String>, last: bool },
    /// The workload is being written.
    Writing { id: String, path: String, sessions: u64, queries: u64, last: bool },
    /// The proxy has been shut down.
    Stopped,
}

/// The model of a phase.
pub ghost enum PhaseView {
    Idle,
    Capturing(Seq<char>),
    Reading { id: Seq<char>, output: Option<Seq<char>>, last: bool },
    Writing { id: Seq<char>, path: Seq<char>, sessions: u64, queries: u64, last: bool },
    Stopped,
}

impl View for Phase {
    type V = PhaseView;

    open spec fn view(&self) -> PhaseView {
        match *self {
            Phase::Idle => PhaseView::Idle,
            Phase::Capturing(id) => PhaseView::Capturing(id@),
            Phase::Reading { id, output, last } => PhaseView::Reading { id: id@, output: opt_view(output), last },
            Phase::Writing { id, path, sessions, queries, last } => PhaseView::Writing {
                id: id@,
                path: path@,
                sessions,
                queries,
                last,
            },
            Phase::Stopped => PhaseView::Stopped,
        }
    }
}

/// What was captured and where it was written.
#[derive(Debug)]
pub struct StopSummary {
    pub capture_id: String,
    pub output: String,
    pub total_sessions: u64,
    pub total_queries: u64,
}

/// The model of a summary.
pub ghost struct SummaryView {
    pub capture_id: Seq<char>,
    pub output: Seq<char>,
    pub total_sessions: u64,
    pub total_queries: u64,
}

impl View for StopSummary {
    type V = SummaryView;

    open spec fn view(&self) -> SummaryView {
        SummaryView {
            capture_id: self.capture_id@,
            output: self.output@,
            total_sessions: self.total_sessions,
            total_queries: self.total_queries,
        }
    }
}

/// What to do when a capture is over.
#[derive(Debug)]
pub struct Finish {
    /// The capture whose rows are removed from the staging database.
    pub clear: Option<String>,
    /// Whether the status becomes that of a proxy that does not capture.
    pub mark_idle: bool,
    /// The answer to the stop command; none at shutdown.
    pub reply: Option<Result<StopSummary, String>>,
}

/// The model of what to do.
pub ghost struct FinishView {
    pub clear: Option<Seq<char>>,
    pub mark_idle: bool,
    pub reply: Option<Result<SummaryView, Seq<char>>>,
}

pub open spec fn reply_view(r: Result<StopSummary, String>) -> Result<SummaryView, Seq<char>> {
    match r {
        Ok(s) => Ok(s@),
        Err(e) => Err(e@),
    }
}

impl View for Finish {
    type V = FinishView;

    open spec fn view(&self) -> FinishView {
        FinishView {
            clear: opt_view(self.clear),
            mark_idle: self.mark_idle,
            reply: match self.reply {
                Some(r) => Some(reply_view(r)),
                None => None,
            },
        }
    }
}

/// Whether a command can be taken: no capture is being wrapped up.
pub open spec fn takes_commands(p: PhaseView) -> bool {
    p is Idle || p is Capturing
}

/// The phase behind a start command.
pub open spec fn started(p: PhaseView, id: Seq<char>) -> PhaseView {
    if p is Idle {
        PhaseView::Capturing(id)
    } else {
        p
    }
}

/// The phase behind a stop command.
pub open spec fn stopped(p: PhaseView, output: Option<Seq<char>>) -> PhaseView {
    match p {
        PhaseView::Capturing(id) => PhaseView::Reading { id, output, last: false },
        _ => p,
    }
}

/// The phase behind a shutdown: a running capture is still saved.
pub open spec fn shut_down(p: PhaseView) -> PhaseView {
    match p {
        PhaseView::Capturing(id) => PhaseView::Reading { id, output: None, last: true },
        _ => PhaseView::Stopped,
    }
}

/// The phase behind a capture that is over.
pub open spec fn wrapped_up(last: bool) -> PhaseView {
    if last {
        PhaseView::Stopped
    } else {
        PhaseView::Idle
    }
}

/// What to do when the rows could not be read: they stay where they are.
pub open spec fn read_failed(p: PhaseView, error: Seq<char>) -> FinishView {
    FinishView {
        clear: None,
        mark_idle: false,
        reply: if p->Reading_last {
            None
        } else {
            Some(Err("Failed to read staging data: "@ + error))
        },
    }
}

/// What to do when the workload was written.
pub open spec fn written(p: PhaseView) -> FinishView {
    FinishView {
        clear: Some(p->Writing_id),
        mark_idle: true,
        reply: if p->Writing_last {
            None
        } else {
            Some(
                Ok(
                    SummaryView {
                        capture_id: p->Writing_id,
                        output: p->Writing_path,
                        total_sessions: p->Writing_sessions,
                        total_queries: p->Writing_queries,
                    },
                ),
            )
        },
    }
}

/// What to do when the workload could not be written: its rows are removed all
/// the same.
pub open spec fn write_failed(p: PhaseView, error: Seq<char>) -> FinishView {
    FinishView {
        clear: Some(p->Writing_id),
        mark_idle: true,
        reply: if p->Writing_last {
            None
        } else {
            Some(Err("Failed to write profile: "@ + error))
        },
    }
}

/// The captures of a proxy that stays up. Commands and the outcomes of reading
/// and writing come in, what to do next goes out.
#[derive(Debug)]
pub struct CaptureManager {
    pub phase: Phase,
    pub output: Option<String>,
    pub source_host: String,
    pub mask_values: bool,
}

/// Two texts joined.
fn joined(a: &str, b: &str) -> (r: String)
    ensures
        r@ == a@ + b@,
{
    let mut out = copy_string(a);
    out.push_str(b);
    out
}

impl CaptureManager {
    /// No capture is running.
    pub fn new(output: Option<String>, source_host: String, mask_values: bool) -> (r: Self)
        ensures
            r.phase@ == PhaseView::Idle,
            r.output == output,
            r.source_host == source_host,
            r.mask_values == mask_values,
    {
        CaptureManager { phase: Phase::Idle, output, source_host, mask_values }
    }

    /// Whether a capture is running.
    pub fn is_capturing(&self) -> (r: bool)
        ensures
            r == (self.phase@ is Capturing),
    {
        match &self.phase {
            Phase::Capturing(_) => true,
            _ => false,
        }
    }

    /// Starts the capture with the given number, unless one is running.
    pub fn start(&mut self, capture_id: &str) -> (r: Result<(), CommandError>)
        requires
            takes_commands(old(self).phase@),
        ensures
            r == (if old(self).phase@ is Idle {
                Ok(())
            } else {
                Err(CommandError::AlreadyCapturing)
            }),
            final(self).phase@ == started(old(self).phase@, capture_id@),
            final(self).output == old(self).output,
            final(self).source_host == old(self).source_host,
            final(self).mask_values == old(self).mask_values,
    {
        if self.is_capturing() {
            return Err(CommandError::AlreadyCapturing);
        }
        self.phase = Phase::Capturing(copy_string(capture_id));
        Ok(())
    }

    /// Stops the running capture, whose rows are read next.
    pub fn stop(&mut self, output: Option<String>) -> (r: Result<String, CommandError>)
        requires
            takes_commands(old(self).phase@),
        ensures
            match old(self).phase@ {
                PhaseView::Capturing(id) => r is Ok && r->Ok_0@ == id,
                _ => r == Err::<String, CommandError>(CommandError::NotCapturing),
            },
            final(self).phase@ == stopped(old(self).phase@, opt_view(output)),
            final(self).output == old(self).output,
            final(self).source_host == old(self).source_host,
            final(self).mask_values == old(self).mask_values,
    {
        let id = match &self.phase {
            Phase::Capturing(id) => copy_string(id.as_str()),
            _ => return Err(CommandError::NotCapturing),
        };
        self.phase = Phase::Reading { id: copy_string(id.as_str()), output, last: false };
        Ok(id)
    }

    /// Shuts down. The rows of a running capture are read next.
    pub fn shutdown(&mut self) -> (r: Option<String>)
        requires
            takes_commands(old(self).phase@),
        ensures
            match old(self).phase@ {
                PhaseView::Capturing(id) => r is Some && r->0@ == id,
                _ => r is None,
            },
            final(self).phase@ == shut_down(old(self).phase@),
            final(self).output == old(self).output,
            final(self).source_host == old(self).source_host,
            final(self).mask_values == old(self).mask_values,
    {
        let id = match &self.phase {
            Phase::Capturing(id) => copy_string(id.as_str()),
            _ => {
                self.phase = Phase::Stopped;
                return None;
            },
        };
        self.phase = Phase::Reading { id: copy_string(id.as_str()), output: None, last: true };
        Some(id)
    }

    /// The rows were read: the workload that they make up, and where it is
    /// written. Where its counts do not fit their types, the rows count as
    /// unread.
    pub fn on_rows(&mut self, rows: Vec<StagingRow>, time: &str, captured_at: Timestamp) -> (r: Result<
        (WorkloadProfile, String),
        CaptureError,
    >)
        requires
            old(self).phase@ is Reading,
        ensures
            r is Ok <==> workload_fits(staged_parts(staging_views(rows@), old(self).mask_values)),
            r matches Err(e) ==> e is TooLong && final(self).phase@ == old(self).phase@,
            r matches Ok((profile, path)) ==> {
                &&& profile@ == staged_profile(
                    staging_views(rows@),
                    old(self).source_host@,
                    old(self).mask_values,
                    captured_at,
                )
                &&& path@ == output_path(old(self).phase@->Reading_output, opt_view(old(self).output), time@)
                &&& final(self).phase@ == (PhaseView::Writing {
                    id: old(self).phase@->Reading_id,
                    path: path@,
                    sessions: profile@.metadata.total_sessions,
                    queries: profile@.metadata.total_queries,
                    last: old(self).phase@->Reading_last,
                })
            },
            final(self).output == old(self).output,
            final(self).source_host == old(self).source_host,
            final(self).mask_values == old(self).mask_values,
    {
        let profile = match recover_profile(rows, self.source_host.as_str(), self.mask_values, captured_at) {
            Ok(profile) => profile,
            Err(e) => return Err(e),
        };
        let mut path = String::new();
        if let Phase::Reading { id, output, last } = &self.phase {
            path = choose_output_path(output, &self.output, time);
            self.phase = Phase::Writing {
                id: copy_string(id.as_str()),
                path: copy_string(path.as_str()),
                sessions: profile.metadata.total_sessions,
                queries: profile.metadata.total_queries,
                last: *last,
            };
        }
        Ok((profile, path))
    }

    fn wrap_up(&mut self, last: bool)
        ensures
            final(self).phase@ == wrapped_up(last),
            final(self).output == old(self).output,
            final(self).source_host == old(self).source_host,
            final(self).mask_values == old(self).mask_values,
    {
        self.phase = if last {
            Phase::Stopped
        } else {
            Phase::Idle
        };
    }

    /// The rows could not be read.
    pub fn on_read_failed(&mut self, error: &str) -> (r: Finish)
        requires
            old(self).phase@ is Reading,
        ensures
            r@ == read_failed(old(self).phase@, error@),
            final(self).phase@ == wrapped_up(old(self).phase@->Reading_last),
            final(self).output == old(self).output,
            final(self).source_host == old(self).source_host,
            final(self).mask_values == old(self).mask_values,
    {
        let last: bool = match &self.phase {
            Phase::Reading { last, .. } => *last,
            _ => false,
        };
        self.wrap_up(last);
        Finish {
            clear: None,
            mark_idle: false,
            reply: if last {
                None
            } else {
                Some(Err(joined("Failed to read staging data: ", error)))
            },
        }
    }

    /// The workload was written.
    pub fn on_written(&mut self) -> (r: Finish)
        requires
            old(self).phase@ is Writing,
        ensures
            r@ == written(old(self).phase@),
            final(self).phase@ == wrapped_up(old(self).phase@->Writing_last),
            final(self).output == old(self).output,
            final(self).source_host == old(self).source_host,
            final(self).mask_values == old(self).mask_values,
    {
        if let Phase::Writing { id, path, sessions, queries, last } = &self.phase {
            let over: bool = *last;
            let finish = Finish {
                clear: Some(copy_string(id.as_str())),
                mark_idle: true,
                reply: if over {
                    None
                } else {
                    Some(
                        Ok(
                            StopSummary {
                                capture_id: copy_string(id.as_str()),
                                output: copy_string(path.as_str()),
                                total_sessions: *sessions,
                                total_queries: *queries,
                            },
                        ),
                    )
                },
            };
            self.wrap_up(over);
            finish
        } else {
            proof {
                assert(false);
            }
            Finish { clear: None, mark_idle: false, reply: None }
        }
    }

    /// The workload could not be written.
    pub fn on_write_failed(&mut self, error: &str) -> (r: Finish)
        requires
            old(self).phase@ is Writing,
        ensures
            r@ == write_failed(old(self).phase@, error@),
            final(self).phase@ == wrapped_up(old(self).phase@->Writing_last),
            final(self).output == old(self).output,
            final(self).source_host == old(self).source_host,
            final(self).mask_values == old(self).mask_values,
    {
        if let Phase::Writing { id, last, .. } = &self.phase {
            let over: bool = *last;
            let finish = Finish {
                clear: Some(copy_string(id.as_str())),
                mark_idle: true,
                reply: if over {
                    None
                } else {
                    Some(Err(joined("Failed to write profile: ", error)))
                },
            };
            self.wrap_up(over);
            finish
        } else {
            proof {
                assert(false);
            }
            Finish { clear: None, mark_idle: false, reply: None }
        }
    }
}

/// What is started is what is stopped: behind a start, a stop or a shutdown
/// reads the rows of that capture.
pub proof fn law_stop_reads_what_was_started(id: Seq<char>, output: Option<Seq<char>>)
    ensures
        stopped(started(PhaseView::Idle, id), output) == (PhaseView::Reading { id, output, last: false }),
        shut_down(started(PhaseView::Idle, id)) == (PhaseView::Reading { id, output: None, last: true }),
{
}

/// A second start changes nothing about the running capture.
pub proof fn law_one_capture_at_a_time(id: Seq<char>, other: Seq<char>)
    ensures
        started(started(PhaseView::Idle, id), other) == started(PhaseView::Idle, id),
{
}

/// Whether the workload was written or not, the rows of its capture are removed
/// and the proxy takes commands again, unless it was shut down.
pub proof fn law_capture_is_wrapped_up(p: PhaseView, error: Seq<char>)
    requires
        p is Writing,
    ensures
        written(p).clear == Some(p->Writing_id),
        write_failed(p, error).clear == Some(p->Writing_id),
        takes_commands(wrapped_up(p->Writing_last)) <==> !p->Writing_last,
{
}

// ── Limits on a capture ─────────────────────────────────────────────

/// How often the size of the staging database is looked at, in queries.
pub const SIZE_CHECK_INTERVAL: u64 = 1000;

/// Limits on a capture. Zero, or no duration, means no limit.
#[derive(Debug, Clone, Copy, PartialEq, Eq, Structural)]
pub struct CaptureLimits {
    pub max_queries: u64,
    pub max_bytes: u64,
    pub max_duration_ns: Option<u64>,
}

/// Why a capture is stopped by itself.
#[derive(Debug, Clone, Copy, PartialEq, Eq, Structural)]
pub enum StopReason {
    MaxQueries(u64),
    /// The duration that was allowed, in nanoseconds.
    MaxDuration(u64),
    MaxSize(u64),
}

/// Counts the events of a persistent proxy and watches the limits.
#[derive(Debug, Clone, Copy, PartialEq, Eq, Structural)]
pub struct CaptureGuard {
    pub limits: CaptureLimits,
    pub active_sessions: u64,
    pub total_queries: u64,
    pub capture_start: Option<u64>,
    pub limit_triggered: bool,
    pub last_size_check: u64,
}

/// What the proxy does behind an event.
#[derive(Debug, Clone, Copy, PartialEq, Eq, Structural)]
pub enum GuardAction {
    Continue,
    /// Stop capturing.
    Stop(StopReason),
    /// Find out how large the staging database is.
    CheckSize,
}

/// Whether an event ends a query.
pub open spec fn ends_query(e: EventView) -> bool {
    e is QueryComplete || e is QueryError
}

/// The counts behind an event.
pub open spec fn guard_counted(g: CaptureGuard, e: EventView, capturing: bool, now: u64) -> CaptureGuard {
    if e is SessionStart {
        CaptureGuard {
            active_sessions: (g.active_sessions + 1) as u64,
            capture_start: if g.capture_start is None && capturing { Some(now) } else { g.capture_start },
            ..g
        }
    } else if e is SessionEnd {
        CaptureGuard {
            active_sessions: if g.active_sessions == 0 { 0 } else { (g.active_sessions - 1) as u64 },
            ..g
        }
    } else if ends_query(e) {
        CaptureGuard { total_queries: (g.total_queries + 1) as u64, ..g }
    } else {
        g
    }
}

/// Whether the number of queries has reached its limit.
pub open spec fn queries_exceeded(g: CaptureGuard) -> bool {
    g.limits.max_queries > 0 && g.total_queries >= g.limits.max_queries
}

/// Whether the capture has lasted as long as it may.
pub open spec fn duration_exceeded(g: CaptureGuard, now: u64) -> bool {
    match (g.limits.max_duration_ns, g.capture_start) {
        (Some(max), Some(start)) => now >= start && now - start >= max || max == 0,
        _ => false,
    }
}

/// Whether the size of the staging database is due to be looked at.
pub open spec fn size_check_due(g: CaptureGuard) -> bool {
    g.limits.max_bytes > 0 && g.total_queries - g.last_size_check >= SIZE_CHECK_INTERVAL
}

/// What is done behind an event, given the counts behind it. Limits are
/// watched when a query ends, and only until one has been reached.
pub open spec fn guard_action(g: CaptureGuard, e: EventView, now: u64) -> GuardAction {
    if !ends_query(e) || g.limit_triggered {
        GuardAction::Continue
    } else if queries_exceeded(g) {
        GuardAction::Stop(StopReason::MaxQueries(g.limits.max_queries))
    } else if duration_exceeded(g, now) {
        GuardAction::Stop(StopReason::MaxDuration(g.limits.max_duration_ns->0))
    } else if size_check_due(g) {
        GuardAction::CheckSize
    } else {
        GuardAction::Continue
    }
}

/// The guard behind an event.
pub open spec fn guard_after(g: CaptureGuard, e: EventView, capturing: bool, now: u64) -> CaptureGuard {
    let c = guard_counted(g, e, capturing, now);
    match guard_action(c, e, now) {
        GuardAction::Continue => c,
        GuardAction::Stop(_) => CaptureGuard { limit_triggered: true, ..c },
        GuardAction::CheckSize => CaptureGuard { last_size_check: c.total_queries, ..c },
    }
}

impl CaptureGuard {
    /// The size was looked at no later than now.
    pub open spec fn wf(&self) -> bool {
        self.last_size_check <= self.total_queries
    }

    pub fn new(limits: CaptureLimits) -> (r: Self)
        ensures
            r.wf(),
            r == (CaptureGuard {
                limits,
                active_sessions: 0,
                total_queries: 0,
                capture_start: None,
                limit_triggered: false,
                last_size_check: 0,
            }),
    {
        CaptureGuard {
            limits,
            active_sessions: 0,
            total_queries: 0,
            capture_start: None,
            limit_triggered: false,
            last_size_check: 0,
        }
    }

    /// Takes in an event.
    pub fn on_event(&mut self, event: &CaptureEvent, capturing: bool, now: u64) -> (r: GuardAction)
        requires
            old(self).wf(),
            old(self).active_sessions < u64::MAX,
            old(self).total_queries < u64::MAX,
        ensures
            final(self).wf(),
            *final(self) == guard_after(*old(self), event@, capturing, now),
            r == guard_action(guard_counted(*old(self), event@, capturing, now), event@, now),
    {
        match event {
            CaptureEvent::SessionStart { .. } => {
                self.active_sessions = self.active_sessions + 1;
                if self.capture_start.is_none() && capturing {
                    self.capture_start = Some(now);
                }
                GuardAction::Continue
            },
            CaptureEvent::SessionEnd { .. } => {
                self.active_sessions = self.active_sessions.saturating_sub(1);
                GuardAction::Continue
            },
            CaptureEvent::QueryComplete { .. } | CaptureEvent::QueryError { .. } => {
                self.total_queries = self.total_queries + 1;
                self.check_limits(now)
            },
            _ => GuardAction::Continue,
        }
    }

    fn check_limits(&mut self, now: u64) -> (r: GuardAction)
        requires
            old(self).wf(),
        ensures
            final(self).wf(),
            ({
                let e = EventView::QueryComplete { session_id: 0, timestamp: 0 };
                &&& r == guard_action(*old(self), e, now)
                &&& *final(self) == match r {
                    GuardAction::Continue => *old(self),
                    GuardAction::Stop(_) => (CaptureGuard { limit_triggered: true, ..*old(self) }),
                    GuardAction::CheckSize => (CaptureGuard {
                        last_size_check: old(self).total_queries,
                        ..*old(self)
                    }),
                }
            }),
    {
        if self.limit_triggered {
            return GuardAction::Continue;
        }
        if self.limits.max_queries > 0 && self.total_queries >= self.limits.max_queries {
            self.limit_triggered = true;
            return GuardAction::Stop(StopReason::MaxQueries(self.limits.max_queries));
        }
        if let Some(max) = self.limits.max_duration_ns {
            if let Some(start) = self.capture_start {
                if max == 0 || (now >= start && now - start >= max) {
                    self.limit_triggered = true;
                    return GuardAction::Stop(StopReason::MaxDuration(max));
                }
            }
        }
        if self.limits.max_bytes > 0 && self.total_queries - self.last_size_check >= SIZE_CHECK_INTERVAL {
            self.last_size_check = self.total_queries;
            return GuardAction::CheckSize;
        }
        GuardAction::Continue
    }

    /// Takes in the size of the staging database.
    pub fn on_size(&mut self, size: u64) -> (r: Option<StopReason>)
        ensures
            size >= old(self).limits.max_bytes ==> r == Some(StopReason::MaxSize(size)) && *final(self) == (
            CaptureGuard { limit_triggered: true, ..*old(self) }),
            size < old(self).limits.max_bytes ==> r is None && *final(self) == *old(self),
    {
        if size >= self.limits.max_bytes {
            self.limit_triggered = true;
            Some(StopReason::MaxSize(size))
        } else {
            None
        }
    }
}

/// A capture is stopped by itself at most once: behind the first limit that is
/// reached nothing more is done.
pub proof fn law_stops_at_most_once(g: CaptureGuard, e: EventView, capturing: bool, now: u64)
    requires
        g.limit_triggered,
    ensures
        guard_action(guard_counted(g, e, capturing, now), e, now) == GuardAction::Continue,
        guard_after(g, e, capturing, now).limit_triggered,
{
}

/// With a limit on queries, and none reached before, the capture is stopped no
/// later than when that many queries have ended.
pub proof fn law_query_limit_stops(g: CaptureGuard, e: EventView, capturing: bool, now: u64)
    requires
        !g.limit_triggered,
        ends_query(e),
        g.limits.max_queries > 0,
        g.total_queries + 1 >= g.limits.max_queries,
        g.total_queries < u64::MAX,
    ensures
        guard_action(guard_counted(g, e, capturing, now), e, now) == GuardAction::Stop(
            StopReason::MaxQueries(g.limits.max_queries),
        ),
{
}

/// A part of a unit behind a point, given in `width` digits, without its last
/// zeros; empty where it is zero.
pub open spec fn fraction_text(part: nat, width: nat) -> Seq<char>
    decreases width,
{
    if part == 0 || width == 0 {
        Seq::empty()
    } else if part % 10 == 0 {
        fraction_text(part / 10, (width - 1) as nat)
    } else {
        "."@ + padded_decimal(part, width)
    }
}

/// A span of time in its largest unit from seconds down to nanoseconds.
pub open spec fn duration_text(ns: nat) -> Seq<char> {
    if ns >= 1_000_000_000 {
        decimal(ns / 1_000_000_000) + fraction_text(ns % 1_000_000_000, 9) + "s"@
    } else if ns >= 1_000_000 {
        decimal(ns / 1_000_000) + fraction_text(ns % 1_000_000, 6) + "ms"@
    } else if ns >= 1_000 {
        decimal(ns / 1_000) + fraction_text(ns % 1_000, 3) + "\u{b5}s"@
    } else {
        decimal(ns) + "ns"@
    }
}

fn push_fraction(out: &mut String, part: u64, width: usize)
    ensures
        final(out)@ == old(out)@ + fraction_text(part as nat, width as nat),
{
    let ghost before = out@;
    let mut p: u64 = part;
    let mut w: usize = width;
    while p > 0 && w > 0 && p % 10 == 0
        invariant
            fraction_text(p as nat, w as nat) == fraction_text(part as nat, width as nat),
            out@ == before,
        decreases w,
    {
        p = p / 10;
        w = w - 1;
    }
    if p > 0 && w > 0 {
        out.push_str(".");
        push_padded(out, p, w);
    }
    proof {
        assert(out@ =~= before + fraction_text(part as nat, width as nat));
    }
}

fn push_duration(out: &mut String, ns: u64)
    ensures
        final(out)@ == old(out)@ + duration_text(ns as nat),
{
    let ghost before = out@;
    if ns >= 1_000_000_000 {
        push_decimal(out, ns / 1_000_000_000);
        push_fraction(out, ns % 1_000_000_000, 9);
        out.push_str("s");
    } else if ns >= 1_000_000 {
        push_decimal(out, ns / 1_000_000);
        push_fraction(out, ns % 1_000_000, 6);
        out.push_str("ms");
    } else if ns >= 1_000 {
        push_decimal(out, ns / 1_000);
        push_fraction(out, ns % 1_000, 3);
        out.push_str("\u{b5}s");
    } else {
        push_decimal(out, ns);
        out.push_str("ns");
    }
    proof {
        assert(out@ =~= before + duration_text(ns as nat));
    }
}

/// The words for a reason that has a number.
pub open spec fn stop_reason_text(r: StopReason) -> Seq<char> {
    match r {
        StopReason::MaxQueries(n) => "max_queries_reached ("@ + decimal(n as nat) + ")"@,
        StopReason::MaxDuration(n) => "max_duration_reached ("@ + duration_text(n as nat) + ")"@,
        StopReason::MaxSize(n) => "max_size_reached ("@ + decimal(n as nat) + " bytes)"@,
    }
}

impl StopReason {
    /// The reason in words.
    pub fn describe(&self) -> (r: String)
        ensures
            r@ == stop_reason_text(*self),
    {
        let mut out = String::new();
        match self {
            StopReason::MaxQueries(n) => {
                out.push_str("max_queries_reached (");
                push_decimal(&mut out, *n);
                out.push_str(")");
            },
            StopReason::MaxDuration(n) => {
                out.push_str("max_duration_reached (");
                push_duration(&mut out, *n);
                out.push_str(")");
            },
            StopReason::MaxSize(n) => {
                out.push_str("max_size_reached (");
                push_decimal(&mut out, *n);
                out.push_str(" bytes)");
            },
        }
        proof {
            assert(out@ =~= stop_reason_text(*self));
        }
        out
    }
}

} // verus!
