//! The progress monitor's decision: what one poll does with the new
//! output, the inferred reading and the clock.
//!
//! A poll takes the unparsed tail of the run state (see
//! `RunState::take_unparsed`), obtains a reading for it — from the
//! external semantic parser or the local extractor — and hands both to
//! `Monitor::decide`, which updates the watermark and the fallback
//! timer and says which report, if any, to dispatch.  Three outcomes:
//! a reading with a percentage goes through the milestone tracker; a
//! reading with only a summary and a chunk with no reading at all are
//! both time-throttled by the fallback interval.

use vstd::prelude::*;
use crate::state::{RunState, SpecRunState};
use crate::reading::{ProgressReading, SpecReading, view_opt};
use crate::report::{Report, SpecReport, view_opt_report, spec_milestone_msg, spec_status_msg,
    spec_fallback_msg, milestone_msg, status_msg, fallback_msg};
use crate::milestone::{spec_next_milestone, next_milestone, lemma_next_milestone_fires};
use crate::lines::{spec_is_blank, is_blank, spec_tail_lines, tail_lines};
use crate::extract::{extract_progress, spec_extract};

verus! {

/// Immutable run parameters, created once at startup.
pub struct Config {
    /// Routing identity of the notification transport.
    pub channel: String,
    pub target: String,
    /// Label naming the run in every report.
    pub label: String,
    /// How often the monitor polls, in seconds.
    pub parse_interval_sec: u64,
    /// The throttle for summary and raw-tail reports, in seconds.
    pub fallback_interval_sec: u64,
    /// An attachment to send with progress and success reports.
    pub plot_path: Option<String>,
    /// Whether the external semantic parser is tried first.
    pub use_external_parser: bool,
}

/// Mathematical model of the monitor.
pub struct SpecMonitor {
    pub thresholds: Seq<u32>,
    pub label: Seq<char>,
    pub fallback_interval_ms: u64,
    pub last_fallback_ms: u64,
}

/// The monitor's own state: the configured thresholds and label, and
/// the fallback throttle.
pub struct Monitor {
    /// Milestone thresholds, ascending, in hundredths of a percent.
    pub thresholds: Vec<u32>,
    pub label: String,
    pub fallback_interval_ms: u64,
    /// When a fallback or milestone report last went out.
    pub last_fallback_ms: u64,
}

impl View for Monitor {
    type V = SpecMonitor;

    open spec fn view(&self) -> SpecMonitor {
        SpecMonitor {
            thresholds: self.thresholds@,
            label: self.label@,
            fallback_interval_ms: self.fallback_interval_ms,
            last_fallback_ms: self.last_fallback_ms,
        }
    }
}

impl Monitor {
    /// A fresh monitor; the throttle starts at `now_ms`, so the first
    /// fallback report waits a full interval, as the first poll does.
    pub fn new(thresholds: Vec<u32>, label: String, fallback_interval_ms: u64, now_ms: u64) -> (r:
        Monitor)
        ensures
            r@.thresholds == thresholds@,
            r@.label == label@,
            r@.fallback_interval_ms == fallback_interval_ms,
            r@.last_fallback_ms == now_ms,
    {
        Monitor { thresholds, label, fallback_interval_ms, last_fallback_ms: now_ms }
    }
}

/// The reading a poll works with: the external parser's, when it gave
/// one, else whatever the local extractor infers from the chunk.
pub open spec fn spec_resolve_reading(external: Option<SpecReading>, chunk: Seq<char>) -> Option<
    SpecReading,
> {
    if external is Some {
        external
    } else {
        spec_extract(chunk)
    }
}

/// Falls back from the external parser's reading to the local
/// extractor.
pub fn resolve_reading(external: Option<ProgressReading>, chunk: &str) -> (r: Option<
    ProgressReading,
>)
    ensures
        view_opt(r) == spec_resolve_reading(view_opt(external), chunk@),
        (match external {
            Option::Some(p) => p@.wf(),
            Option::None => true,
        }) ==> (r is Some ==> r->0@.wf()),
{
    match external {
        Option::Some(p) => Option::Some(p),
        Option::None => extract_progress(chunk),
    }
}

/// What one decision does: the updated monitor, the updated run
/// state, and the report to dispatch, if any.
pub open spec fn spec_decide(
    m: SpecMonitor,
    s: SpecRunState,
    chunk: Seq<char>,
    reading: Option<SpecReading>,
    now_ms: u64,
    elapsed_secs: u64,
) -> (SpecMonitor, SpecRunState, Option<SpecReport>) {
    if spec_is_blank(chunk) {
        (m, s, Option::None)
    } else {
        match reading {
            Option::Some(p) => {
                let s1 = SpecRunState {
                    buffer: s.buffer,
                    offset: s.offset,
                    milestone: s.milestone,
                    latest: Option::Some(p),
                };
                match p.percent_centi {
                    Option::Some(pc) => {
                        match spec_next_milestone(m.thresholds, s.milestone, pc) {
                            Option::Some(t) => {
                                let s2 = SpecRunState {
                                    buffer: s.buffer,
                                    offset: s.offset,
                                    milestone: t,
                                    latest: Option::Some(p),
                                };
                                let m2 = SpecMonitor {
                                    thresholds: m.thresholds,
                                    label: m.label,
                                    fallback_interval_ms: m.fallback_interval_ms,
                                    last_fallback_ms: now_ms,
                                };
                                (m2, s2, Option::Some(SpecReport {
                                    text: spec_milestone_msg(m.label, pc, p.current, p.total,
                                        elapsed_secs as nat, p.summary),
                                    attach: true,
                                }))
                            },
                            Option::None => (m, s1, Option::None),
                        }
                    },
                    Option::None => {
                        if now_ms >= m.last_fallback_ms + m.fallback_interval_ms {
                            let m2 = SpecMonitor {
                                thresholds: m.thresholds,
                                label: m.label,
                                fallback_interval_ms: m.fallback_interval_ms,
                                last_fallback_ms: now_ms,
                            };
                            (m2, s1, Option::Some(SpecReport {
                                text: spec_status_msg(m.label, elapsed_secs as nat, p.summary),
                                attach: true,
                            }))
                        } else {
                            (m, s1, Option::None)
                        }
                    },
                }
            },
            Option::None => {
                if now_ms >= m.last_fallback_ms + m.fallback_interval_ms {
                    let m2 = SpecMonitor {
                        thresholds: m.thresholds,
                        label: m.label,
                        fallback_interval_ms: m.fallback_interval_ms,
                        last_fallback_ms: now_ms,
                    };
                    (m2, s, Option::Some(SpecReport {
                        text: spec_fallback_msg(m.label, elapsed_secs as nat,
                            spec_tail_lines(chunk, 5)),
                        attach: true,
                    }))
                } else {
                    (m, s, Option::None)
                }
            },
        }
    }
}

impl Monitor {
    /// One decision of the monitor loop, from the chunk a take
    /// yielded, the reading resolved for it, the clock in
    /// milliseconds and the elapsed wall time in seconds.
    pub fn decide(
        &mut self,
        st: &mut RunState,
        chunk: &str,
        reading: Option<ProgressReading>,
        now_ms: u64,
        elapsed_secs: u64,
    ) -> (r: Option<Report>)
        ensures
            ({
                let (m2, s2, rep) = spec_decide(old(self)@, old(st)@, chunk@, view_opt(reading),
                    now_ms, elapsed_secs);
                final(self)@ == m2 && final(st)@ == s2 && view_opt_report(r) == rep
            }),
    {
        if is_blank(chunk) {
            return Option::None;
        }
        match reading {
            Option::Some(p) => {
                let pc_opt = p.percent_centi;
                let cur = p.current;
                let tot = p.total;
                let summary = p.summary.clone();
                st.latest_reading = Option::Some(p);
                match pc_opt {
                    Option::Some(pc) => {
                        let fired = next_milestone(&self.thresholds, st.last_milestone, pc);
                        match fired {
                            Option::Some(t) => {
                                st.last_milestone = t;
                                self.last_fallback_ms = now_ms;
                                let text = milestone_msg(self.label.as_str(), pc, &cur, &tot,
                                    elapsed_secs, summary.as_str());
                                Option::Some(Report { text, attach: true })
                            },
                            Option::None => Option::None,
                        }
                    },
                    Option::None => {
                        if now_ms >= self.last_fallback_ms
                            && now_ms - self.last_fallback_ms >= self.fallback_interval_ms {
                            self.last_fallback_ms = now_ms;
                            let text = status_msg(self.label.as_str(), elapsed_secs,
                                summary.as_str());
                            Option::Some(Report { text, attach: true })
                        } else {
                            Option::None
                        }
                    },
                }
            },
            Option::None => {
                if now_ms >= self.last_fallback_ms
                    && now_ms - self.last_fallback_ms >= self.fallback_interval_ms {
                    self.last_fallback_ms = now_ms;
                    let tail = tail_lines(chunk, 5);
                    let text = fallback_msg(self.label.as_str(), elapsed_secs, tail.as_str());
                    Option::Some(Report { text, attach: true })
                } else {
                    Option::None
                }
            },
        }
    }
}

// ------------------------------------------------------------------
// what holds of every decision
// ------------------------------------------------------------------

/// A decision never touches the buffer or the parse offset.
pub proof fn lemma_decide_keeps_buffer(
    m: SpecMonitor,
    s: SpecRunState,
    chunk: Seq<char>,
    reading: Option<SpecReading>,
    now_ms: u64,
    elapsed_secs: u64,
)
    ensures
        spec_decide(m, s, chunk, reading, now_ms, elapsed_secs).1.buffer == s.buffer,
        spec_decide(m, s, chunk, reading, now_ms, elapsed_secs).1.offset == s.offset,
{
}

/// The watermark never moves backwards, and moves only to a
/// configured threshold that the decisive percentage had reached.
pub proof fn lemma_decide_milestone_monotonic(
    m: SpecMonitor,
    s: SpecRunState,
    chunk: Seq<char>,
    reading: Option<SpecReading>,
    now_ms: u64,
    elapsed_secs: u64,
)
    ensures
        ({
            let s2 = spec_decide(m, s, chunk, reading, now_ms, elapsed_secs).1;
            s2.milestone == s.milestone || (s2.milestone > s.milestone && m.thresholds.contains(
                s2.milestone))
        }),
{
    if !spec_is_blank(chunk) {
        match reading {
            Option::Some(p) => {
                match p.percent_centi {
                    Option::Some(pc) => {
                        lemma_next_milestone_fires(m.thresholds, s.milestone, pc);
                    },
                    Option::None => {},
                }
            },
            Option::None => {},
        }
    }
}

/// A decision keeps the run state well-formed when the reading
/// handed to it is.
pub proof fn lemma_decide_wf(
    m: SpecMonitor,
    s: SpecRunState,
    chunk: Seq<char>,
    reading: Option<SpecReading>,
    now_ms: u64,
    elapsed_secs: u64,
)
    requires
        s.wf(),
        reading is Some ==> reading->0.wf(),
    ensures
        spec_decide(m, s, chunk, reading, now_ms, elapsed_secs).1.wf(),
{
}

/// Polling twice with no new output in between produces no further
/// report and changes nothing: after a poll the offset stands at the
/// end of the buffer, so the next take yields an empty chunk, and an
/// empty chunk decides nothing.
pub proof fn lemma_poll_idempotent(
    m: SpecMonitor,
    s: SpecRunState,
    reading: Option<SpecReading>,
    now_ms: u64,
    elapsed_secs: u64,
)
    requires
        s.offset == s.buffer.len(),
    ensures
        spec_decide(m, s, s.buffer.skip(s.offset), reading, now_ms, elapsed_secs) == (m, s,
            Option::<SpecReport>::None),
{
    assert(s.buffer.skip(s.offset) =~= Seq::<char>::empty());
}

/// Fallback reports are throttled: when a poll sends one at `now1`,
/// no poll that stays on a fallback path sends another before a full
/// interval has passed.
pub proof fn lemma_fallback_throttle(
    m: SpecMonitor,
    s: SpecRunState,
    chunk: Seq<char>,
    reading: Option<SpecReading>,
    now1: u64,
    e1: u64,
    s2: SpecRunState,
    chunk2: Seq<char>,
    reading2: Option<SpecReading>,
    now2: u64,
    e2: u64,
)
    requires
        (match reading {
            Option::Some(p) => p.percent_centi is None,
            Option::None => true,
        }),
        (match reading2 {
            Option::Some(p) => p.percent_centi is None,
            Option::None => true,
        }),
        spec_decide(m, s, chunk, reading, now1, e1).2 is Some,
        now2 < now1 + m.fallback_interval_ms,
    ensures
        spec_decide(m, s, chunk, reading, now1, e1).0.last_fallback_ms == now1,
        spec_decide(spec_decide(m, s, chunk, reading, now1, e1).0, s2, chunk2, reading2, now2, e2)
            .2 is None,
{
}

} // verus!
