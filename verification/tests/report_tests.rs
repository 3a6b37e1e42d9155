use ocnotify::lines::tail_lines;
use ocnotify::monitor::{Monitor, resolve_reading};
use ocnotify::milestone::milestone_thresholds;
use ocnotify::report::{ExitOutcome, exit_code, final_report, launch_failure_report, elapsed_str,
    signal_name};
use ocnotify::state::RunState;

#[test]
fn elapsed_formats_by_magnitude() {
    assert_eq!(elapsed_str(0), "0s");
    assert_eq!(elapsed_str(5), "5s");
    assert_eq!(elapsed_str(59), "59s");
    assert_eq!(elapsed_str(90), "1.5min");
    assert_eq!(elapsed_str(3599), "60.0min");
    assert_eq!(elapsed_str(5400), "1.5h");
    assert_eq!(elapsed_str(7200), "2.0h");
}

#[test]
fn signals_have_conventional_names() {
    assert_eq!(signal_name(1), "SIGHUP");
    assert_eq!(signal_name(2), "SIGINT");
    assert_eq!(signal_name(6), "SIGABRT");
    assert_eq!(signal_name(9), "SIGKILL");
    assert_eq!(signal_name(11), "SIGSEGV");
    assert_eq!(signal_name(15), "SIGTERM");
    assert_eq!(signal_name(7), "signal 7");
}

#[test]
fn tail_keeps_the_last_lines() {
    assert_eq!(tail_lines("a\nb\nc", 2), "b\nc");
    assert_eq!(tail_lines("a\nb\nc\n", 2), "b\nc");
    assert_eq!(tail_lines("a\nb", 5), "a\nb");
    assert_eq!(tail_lines("a\nb", 0), "");
    assert_eq!(tail_lines("", 3), "");
}

#[test]
fn success_report_names_steps_and_elapsed() {
    let mut st = RunState::new();
    let mut mon = Monitor::new(milestone_thresholds(), String::from("job"), 300_000, 0);
    st.append_line("Step 10/10");
    let chunk = st.take_unparsed();
    let reading = resolve_reading(None, &chunk);
    mon.decide(&mut st, &chunk, reading, 1_000, 65);
    let (rep, code) = final_report(&ExitOutcome::Exited(0), "job", 65, &st);
    assert_eq!(code, 0);
    assert_eq!(rep.text, "✅ **job** finished (10/10) in 1.1min\nStep 10/10");
    assert!(rep.attach);
}

#[test]
fn success_without_readings_is_bare() {
    let st = RunState::new();
    let (rep, code) = final_report(&ExitOutcome::Exited(0), "job", 3, &st);
    assert_eq!(code, 0);
    assert_eq!(rep.text, "✅ **job** finished in 3s");
}

#[test]
fn nonzero_exit_reports_code_and_tail() {
    let mut st = RunState::new();
    st.append_line("something");
    st.append_line("went wrong");
    let (rep, code) = final_report(&ExitOutcome::Exited(3), "job", 5, &st);
    assert_eq!(code, 3);
    assert_eq!(rep.text, "❌ **job** exited with code 3 after 5s\n```\nsomething\nwent wrong\n```");
    assert!(!rep.attach);
}

#[test]
fn sigkill_surfaces_137_and_oom_hint() {
    let mut st = RunState::new();
    st.append_line("allocating");
    let (rep, code) = final_report(&ExitOutcome::Signaled(9), "job", 5, &st);
    assert_eq!(code, 137);
    assert_eq!(rep.text, "❌ **job** killed by SIGKILL (9) (likely OOM) after 5s\n```\nallocating\n```");
}

#[test]
fn other_signals_have_no_oom_hint() {
    let st = RunState::new();
    let (rep, code) = final_report(&ExitOutcome::Signaled(15), "job", 5, &st);
    assert_eq!(code, 143);
    assert!(rep.text.contains("SIGTERM"));
    assert!(!rep.text.contains("OOM"));
}

#[test]
fn exit_codes_follow_shell_convention() {
    assert_eq!(exit_code(&ExitOutcome::Exited(0)), 0);
    assert_eq!(exit_code(&ExitOutcome::Exited(42)), 42);
    assert_eq!(exit_code(&ExitOutcome::Signaled(9)), 137);
    assert_eq!(exit_code(&ExitOutcome::Signaled(2)), 130);
    assert_eq!(exit_code(&ExitOutcome::LaunchFailed), 1);
}

#[test]
fn launch_failure_reports_immediately() {
    let rep = launch_failure_report("job", "nosuchcmd", "No such file or directory");
    assert_eq!(
        rep.text,
        "❌ **job** — failed to launch `nosuchcmd`: No such file or directory"
    );
    assert!(!rep.attach);
    assert_eq!(exit_code(&ExitOutcome::LaunchFailed), 1);
}

#[test]
fn tail_in_failure_report_is_bounded_to_ten_lines() {
    let mut st = RunState::new();
    for i in 0..15 {
        st.append_line(&format!("line {}", i));
    }
    let (rep, _) = final_report(&ExitOutcome::Exited(1), "job", 5, &st);
    assert!(!rep.text.contains("line 4\n"));
    assert!(rep.text.contains("line 5\n"));
    assert!(rep.text.contains("line 14"));
}
