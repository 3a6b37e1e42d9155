//! Report text: milestone, status and fallback messages, elapsed
//! time, signal names, and the classification of the child's exit.

use vstd::prelude::*;
use vstd::string::StringExecFns;
use crate::text::{spec_dec, dec_u64, spec_dec_int, dec_i64, spec_digit_char, digit_char, push_char};
use crate::lines::{spec_tail_lines, tail_lines};
use crate::state::RunState;

verus! {

/// A report ready for the dispatcher: the text, and whether the
/// configured attachment goes with it.
pub struct Report {
    pub text: String,
    pub attach: bool,
}

/// Mathematical model of a report.
pub struct SpecReport {
    pub text: Seq<char>,
    pub attach: bool,
}

impl View for Report {
    type V = SpecReport;

    open spec fn view(&self) -> SpecReport {
        SpecReport { text: self.text@, attach: self.attach }
    }
}

/// The model of an optional report.
pub open spec fn view_opt_report(r: Option<Report>) -> Option<SpecReport> {
    match r {
        Option::Some(p) => Option::Some(p@),
        Option::None => Option::None,
    }
}

// ------------------------------------------------------------------
// elapsed time
// ------------------------------------------------------------------

/// Elapsed wall time, rendered as whole seconds, tenths of minutes or
/// tenths of hours, rounding half up.
pub open spec fn spec_elapsed(secs: nat) -> Seq<char> {
    if secs >= 3600 {
        let t = (secs * 10 + 1800) / 3600;
        spec_dec(t / 10) + seq!['.'] + seq![spec_digit_char(t % 10)] + "h"@
    } else if secs >= 60 {
        let t = (secs * 10 + 30) / 60;
        spec_dec(t / 10) + seq!['.'] + seq![spec_digit_char(t % 10)] + "min"@
    } else {
        spec_dec(secs) + "s"@
    }
}

/// Renders an elapsed wall time given in whole seconds.
pub fn elapsed_str(secs: u64) -> (r: String)
    ensures
        r@ == spec_elapsed(secs as nat),
{
    if secs >= 3600 {
        let q = secs / 3600;
        let rem = secs % 3600;
        let t = q * 10 + (rem * 10 + 1800) / 3600;
        proof {
            vstd::arithmetic::div_mod::lemma_fundamental_div_mod(secs as int, 3600);
            vstd::arithmetic::div_mod::lemma_mod_bound(secs as int, 3600);
            vstd::arithmetic::div_mod::lemma_hoist_over_denominator(
                rem as int * 10 + 1800, 10 * q as int, 3600nat);
            assert(secs as int * 10 + 1800 == rem as int * 10 + 1800 + 10 * (q as int) * 3600);
            assert(t as int == (secs as int * 10 + 1800) / 3600);
        }
        let mut r = dec_u64(t / 10);
        push_char(&mut r, '.');
        push_char(&mut r, digit_char(t % 10));
        r.append("h");
        proof {
            assert(r@ =~= spec_elapsed(secs as nat));
        }
        r
    } else if secs >= 60 {
        let q = secs / 60;
        let rem = secs % 60;
        let t = q * 10 + (rem * 10 + 30) / 60;
        proof {
            vstd::arithmetic::div_mod::lemma_fundamental_div_mod(secs as int, 60);
            vstd::arithmetic::div_mod::lemma_mod_bound(secs as int, 60);
            vstd::arithmetic::div_mod::lemma_hoist_over_denominator(
                rem as int * 10 + 30, 10 * q as int, 60nat);
            assert(secs as int * 10 + 30 == rem as int * 10 + 30 + 10 * (q as int) * 60);
            assert(t as int == (secs as int * 10 + 30) / 60);
        }
        let mut r = dec_u64(t / 10);
        push_char(&mut r, '.');
        push_char(&mut r, digit_char(t % 10));
        r.append("min");
        proof {
            assert(r@ =~= spec_elapsed(secs as nat));
        }
        r
    } else {
        let mut r = dec_u64(secs);
        r.append("s");
        proof {
            assert(r@ =~= spec_elapsed(secs as nat));
        }
        r
    }
}

// ------------------------------------------------------------------
// signal names
// ------------------------------------------------------------------

/// The conventional name of a signal number.
pub open spec fn spec_signal_name(code: int) -> Seq<char> {
    if code == 1 { "SIGHUP"@ }
    else if code == 2 { "SIGINT"@ }
    else if code == 6 { "SIGABRT"@ }
    else if code == 9 { "SIGKILL"@ }
    else if code == 11 { "SIGSEGV"@ }
    else if code == 15 { "SIGTERM"@ }
    else { "signal "@ + spec_dec_int(code) }
}

/// Names the signal that killed a child.
pub fn signal_name(code: i32) -> (r: String)
    ensures
        r@ == spec_signal_name(code as int),
{
    if code == 1 { String::from_str("SIGHUP") }
    else if code == 2 { String::from_str("SIGINT") }
    else if code == 6 { String::from_str("SIGABRT") }
    else if code == 9 { String::from_str("SIGKILL") }
    else if code == 11 { String::from_str("SIGSEGV") }
    else if code == 15 { String::from_str("SIGTERM") }
    else {
        let mut r = String::from_str("signal ");
        let d = dec_i64(code as i64);
        r.append(d.as_str());
        r
    }
}

// ------------------------------------------------------------------
// message text
// ------------------------------------------------------------------

/// ` (current/total)`, or nothing when a pair is absent.
pub open spec fn spec_step_info(cur: Option<u64>, tot: Option<u64>) -> Seq<char> {
    if cur is Some && tot is Some {
        " ("@ + spec_dec(cur->0 as nat) + "/"@ + spec_dec(tot->0 as nat) + ")"@
    } else {
        Seq::empty()
    }
}

fn step_info(cur: &Option<u64>, tot: &Option<u64>) -> (r: String)
    ensures
        r@ == spec_step_info(*cur, *tot),
{
    match (cur, tot) {
        (Option::Some(c), Option::Some(t)) => {
            let mut r = String::from_str(" (");
            let cd = dec_u64(*c);
            r.append(cd.as_str());
            r.append("/");
            let td = dec_u64(*t);
            r.append(td.as_str());
            r.append(")");
            proof {
                assert(r@ =~= spec_step_info(*cur, *tot));
            }
            r
        },
        _ => String::new(),
    }
}

/// A percentage in hundredths, rounded to whole percent for display.
pub open spec fn spec_pct_display(pc: u32) -> nat {
    ((pc + 50) / 100) as nat
}

/// The milestone message: label, percent, step counters, elapsed
/// time, summary.
pub open spec fn spec_milestone_msg(
    label: Seq<char>,
    pc: u32,
    cur: Option<u64>,
    tot: Option<u64>,
    elapsed: nat,
    summary: Seq<char>,
) -> Seq<char> {
    "📊 **"@ + label + "** — "@ + spec_dec(spec_pct_display(pc)) + "%"@ + spec_step_info(cur, tot)
        + " · "@ + spec_elapsed(elapsed) + "\n"@ + summary
}

/// Builds the milestone message.
pub fn milestone_msg(
    label: &str,
    pc: u32,
    cur: &Option<u64>,
    tot: &Option<u64>,
    elapsed_secs: u64,
    summary: &str,
) -> (r: String)
    ensures
        r@ == spec_milestone_msg(label@, pc, *cur, *tot, elapsed_secs as nat, summary@),
{
    let mut r = String::from_str("📊 **");
    r.append(label);
    r.append("** — ");
    let pd = dec_u64((pc as u64 + 50) / 100);
    r.append(pd.as_str());
    r.append("%");
    let si = step_info(cur, tot);
    r.append(si.as_str());
    r.append(" · ");
    let el = elapsed_str(elapsed_secs);
    r.append(el.as_str());
    r.append("\n");
    r.append(summary);
    proof {
        assert(r@ =~= spec_milestone_msg(label@, pc, *cur, *tot, elapsed_secs as nat, summary@));
    }
    r
}

/// The throttled status message: label, elapsed time, summary.
pub open spec fn spec_status_msg(label: Seq<char>, elapsed: nat, summary: Seq<char>) -> Seq<char> {
    "📊 **"@ + label + "** · "@ + spec_elapsed(elapsed) + "\n"@ + summary
}

/// Builds the throttled status message.
pub fn status_msg(label: &str, elapsed_secs: u64, summary: &str) -> (r: String)
    ensures
        r@ == spec_status_msg(label@, elapsed_secs as nat, summary@),
{
    let mut r = String::from_str("📊 **");
    r.append(label);
    r.append("** · ");
    let el = elapsed_str(elapsed_secs);
    r.append(el.as_str());
    r.append("\n");
    r.append(summary);
    proof {
        assert(r@ =~= spec_status_msg(label@, elapsed_secs as nat, summary@));
    }
    r
}

/// The throttled fallback message: label, elapsed time, and the raw
/// tail of the new output in a code fence.
pub open spec fn spec_fallback_msg(label: Seq<char>, elapsed: nat, tail: Seq<char>) -> Seq<char> {
    "📊 **"@ + label + "** · "@ + spec_elapsed(elapsed) + "\n```\n"@ + tail + "\n```"@
}

/// Builds the throttled fallback message.
pub fn fallback_msg(label: &str, elapsed_secs: u64, tail: &str) -> (r: String)
    ensures
        r@ == spec_fallback_msg(label@, elapsed_secs as nat, tail@),
{
    let mut r = String::from_str("📊 **");
    r.append(label);
    r.append("** · ");
    let el = elapsed_str(elapsed_secs);
    r.append(el.as_str());
    r.append("\n```\n");
    r.append(tail);
    r.append("\n```");
    proof {
        assert(r@ =~= spec_fallback_msg(label@, elapsed_secs as nat, tail@));
    }
    r
}

// ------------------------------------------------------------------
// exit classification
// ------------------------------------------------------------------

/// How the child's run ended.
pub enum ExitOutcome {
    /// Normal exit with a code.
    Exited(i32),
    /// Killed by a signal.
    Signaled(i32),
    /// The child could not be started at all.
    LaunchFailed,
}

/// The process exit status surfaced to the caller: the child's own
/// code, `128 + signal` by shell convention, or 1 for a launch
/// failure; reduced modulo 256 as the operating system does.
pub open spec fn spec_exit_code(o: ExitOutcome) -> int {
    match o {
        ExitOutcome::Exited(c) => (c as int) % 256,
        ExitOutcome::Signaled(s) => (128 + s as int) % 256,
        ExitOutcome::LaunchFailed => 1,
    }
}

/// Reduces an integer modulo 256.
fn mod256(x: i64) -> (r: u8)
    ensures
        r as int == (x as int) % 256,
{
    if x >= 0 {
        let m: u64 = (x as u64) % 256;
        proof {
            vstd::arithmetic::div_mod::lemma_mod_bound(x as int, 256);
        }
        m as u8
    } else {
        let neg: u64 = (-(x as i128)) as u64;
        let m: u64 = neg % 256;
        proof {
            vstd::arithmetic::div_mod::lemma_fundamental_div_mod(neg as int, 256);
            vstd::arithmetic::div_mod::lemma_mod_bound(neg as int, 256);
            let q = neg as int / 256;
            if m == 0 {
                assert(x as int == 256 * (-q) + 0);
                vstd::arithmetic::div_mod::lemma_mod_multiples_vanish(-q, 0, 256);
            } else {
                assert(x as int == 256 * (-q - 1) + (256 - m));
                vstd::arithmetic::div_mod::lemma_mod_multiples_vanish(-q - 1, 256 - m as int, 256);
                vstd::arithmetic::div_mod::lemma_small_mod((256 - m) as nat, 256nat);
            }
        }
        if m == 0 {
            0
        } else {
            (256 - m) as u8
        }
    }
}

/// The process exit status for an outcome.
pub fn exit_code(o: &ExitOutcome) -> (r: u8)
    ensures
        r as int == spec_exit_code(*o),
{
    match o {
        ExitOutcome::Exited(c) => mod256(*c as i64),
        ExitOutcome::Signaled(s) => mod256(128 + *s as i64),
        ExitOutcome::LaunchFailed => 1,
    }
}

/// The success message: label, step counters of the last reading, and
/// elapsed time, then the last summary.
pub open spec fn spec_success_msg(
    label: Seq<char>,
    latest: Option<crate::reading::SpecReading>,
    elapsed: nat,
) -> Seq<char> {
    let step = match latest {
        Option::Some(p) => spec_step_info(p.current, p.total),
        Option::None => Seq::<char>::empty(),
    };
    let suffix = match latest {
        Option::Some(p) => "\n"@ + p.summary,
        Option::None => Seq::<char>::empty(),
    };
    "✅ **"@ + label + "** finished"@ + step + " in "@ + spec_elapsed(elapsed) + suffix
}

/// The failure message for a nonzero exit code, with a diagnostic
/// tail of the whole output.
pub open spec fn spec_exit_fail_msg(
    label: Seq<char>,
    code: i32,
    elapsed: nat,
    buffer: Seq<char>,
) -> Seq<char> {
    "❌ **"@ + label + "** exited with code "@ + spec_dec_int(code as int) + " after "@
        + spec_elapsed(elapsed) + "\n```\n"@ + spec_tail_lines(buffer, 10) + "\n```"@
}

/// The failure message for a signal death, naming the signal, with an
/// out-of-memory hint for the kill signal.
pub open spec fn spec_signal_msg(
    label: Seq<char>,
    sig: i32,
    elapsed: nat,
    buffer: Seq<char>,
) -> Seq<char> {
    let hint = if sig == 9 { " (likely OOM)"@ } else { Seq::<char>::empty() };
    "❌ **"@ + label + "** killed by "@ + spec_signal_name(sig as int) + " ("@
        + spec_dec_int(sig as int) + ")"@ + hint + " after "@ + spec_elapsed(elapsed)
        + "\n```\n"@ + spec_tail_lines(buffer, 10) + "\n```"@
}

/// The text of the final report for an outcome other than a launch
/// failure.
pub open spec fn spec_final_text(
    o: ExitOutcome,
    label: Seq<char>,
    elapsed: nat,
    s: crate::state::SpecRunState,
) -> Seq<char> {
    match o {
        ExitOutcome::Exited(c) => {
            if c == 0 {
                spec_success_msg(label, s.latest, elapsed)
            } else {
                spec_exit_fail_msg(label, c, elapsed, s.buffer)
            }
        },
        ExitOutcome::Signaled(sig) => spec_signal_msg(label, sig, elapsed, s.buffer),
        ExitOutcome::LaunchFailed => Seq::<char>::empty(),
    }
}

/// Whether the final report carries the configured attachment: only a
/// success report does.
pub open spec fn spec_final_attach(o: ExitOutcome) -> bool {
    o == ExitOutcome::Exited(0i32)
}

/// Classifies the exit and builds the final report and the exit
/// status to surface, from the drained run state.
pub fn final_report(o: &ExitOutcome, label: &str, elapsed_secs: u64, st: &RunState) -> (r: (
    Report,
    u8,
))
    requires
        !(o is LaunchFailed),
    ensures
        r.0@.text == spec_final_text(*o, label@, elapsed_secs as nat, st@),
        r.0@.attach == spec_final_attach(*o),
        r.1 as int == spec_exit_code(*o),
{
    let code = exit_code(o);
    match o {
        ExitOutcome::Exited(c) => {
            if *c == 0 {
                let mut r = String::from_str("✅ **");
                r.append(label);
                r.append("** finished");
                match &st.latest_reading {
                    Option::Some(p) => {
                        let si = step_info(&p.current, &p.total);
                        r.append(si.as_str());
                    },
                    Option::None => {},
                }
                r.append(" in ");
                let el = elapsed_str(elapsed_secs);
                r.append(el.as_str());
                match &st.latest_reading {
                    Option::Some(p) => {
                        r.append("\n");
                        r.append(p.summary.as_str());
                    },
                    Option::None => {},
                }
                proof {
                    assert(r@ =~= spec_final_text(*o, label@, elapsed_secs as nat, st@));
                }
                (Report { text: r, attach: true }, code)
            } else {
                let mut r = String::from_str("❌ **");
                r.append(label);
                r.append("** exited with code ");
                let cd = dec_i64(*c as i64);
                r.append(cd.as_str());
                r.append(" after ");
                let el = elapsed_str(elapsed_secs);
                r.append(el.as_str());
                r.append("\n```\n");
                let tl = tail_lines(st.output_buffer.as_str(), 10);
                r.append(tl.as_str());
                r.append("\n```");
                proof {
                    assert(r@ =~= spec_final_text(*o, label@, elapsed_secs as nat, st@));
                }
                (Report { text: r, attach: false }, code)
            }
        },
        ExitOutcome::Signaled(sig) => {
            let mut r = String::from_str("❌ **");
            r.append(label);
            r.append("** killed by ");
            let sn = signal_name(*sig);
            r.append(sn.as_str());
            r.append(" (");
            let sd = dec_i64(*sig as i64);
            r.append(sd.as_str());
            r.append(")");
            if *sig == 9 {
                r.append(" (likely OOM)");
            }
            r.append(" after ");
            let el = elapsed_str(elapsed_secs);
            r.append(el.as_str());
            r.append("\n```\n");
            let tl = tail_lines(st.output_buffer.as_str(), 10);
            r.append(tl.as_str());
            r.append("\n```");
            proof {
                assert(r@ =~= spec_final_text(*o, label@, elapsed_secs as nat, st@));
            }
            (Report { text: r, attach: false }, code)
        },
        ExitOutcome::LaunchFailed => {
            // unreachable by the precondition; an empty report keeps
            // the function total for the compiler
            proof {
                assert(false);
            }
            (Report { text: String::new(), attach: false }, 1)
        },
    }
}

/// The failure message when the child could not be launched at all.
pub open spec fn spec_launch_fail_msg(label: Seq<char>, cmd: Seq<char>, err: Seq<char>) -> Seq<char> {
    "❌ **"@ + label + "** — failed to launch `"@ + cmd + "`: "@ + err
}

/// Builds the immediate failure report for a spawn that failed; the
/// exit status for it is `spec_exit_code(LaunchFailed)`, that is 1.
pub fn launch_failure_report(label: &str, cmd: &str, err: &str) -> (r: Report)
    ensures
        r@.text == spec_launch_fail_msg(label@, cmd@, err@),
        r@.attach == false,
{
    let mut r = String::from_str("❌ **");
    r.append(label);
    r.append("** — failed to launch `");
    r.append(cmd);
    r.append("`: ");
    r.append(err);
    proof {
        assert(r@ =~= spec_launch_fail_msg(label@, cmd@, err@));
    }
    Report { text: r, attach: false }
}

} // verus!
