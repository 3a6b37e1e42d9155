use ocnotify::milestone::{milestone_thresholds, next_milestone};
use ocnotify::monitor::{Monitor, resolve_reading};
use ocnotify::state::RunState;

fn fresh_monitor(fallback_ms: u64, now_ms: u64) -> Monitor {
    Monitor::new(milestone_thresholds(), String::from("job"), fallback_ms, now_ms)
}

#[test]
fn smallest_unfired_threshold_fires() {
    let ths = milestone_thresholds();
    assert_eq!(next_milestone(&ths, 0, 3000), Some(1000));
    assert_eq!(next_milestone(&ths, 1000, 3000), Some(2000));
    assert_eq!(next_milestone(&ths, 3000, 2500), None);
    assert_eq!(next_milestone(&ths, 0, 999), None);
    assert_eq!(next_milestone(&ths, 10000, 10000), None);
}

#[test]
fn each_threshold_fires_at_most_once() {
    let ths = milestone_thresholds();
    let percents: Vec<u32> = vec![500, 1500, 1500, 1500, 2200, 9900, 9900];
    let mut watermark: u32 = 0;
    let mut fired: Vec<u32> = Vec::new();
    for p in percents {
        if let Some(t) = next_milestone(&ths, watermark, p) {
            assert!(t > watermark, "a firing always raises the watermark");
            assert!(p >= t, "a threshold fires only once percent reached it");
            watermark = t;
            fired.push(t);
        }
    }
    // only the nearest unfired threshold fires per poll; later polls
    // catch the next one
    assert_eq!(fired, vec![1000, 2000, 3000, 4000]);
    let mut dedup = fired.clone();
    dedup.dedup();
    assert_eq!(dedup, fired, "no threshold fired twice");
}

#[test]
fn milestone_tick_reports_and_advances_watermark() {
    let mut st = RunState::new();
    let mut mon = fresh_monitor(300_000, 0);
    st.append_line("Epoch 3/10");
    let chunk = st.take_unparsed();
    assert_eq!(chunk, "Epoch 3/10\n");
    let reading = resolve_reading(None, &chunk);
    let rep = mon.decide(&mut st, &chunk, reading, 10_000, 5).expect("report");
    assert_eq!(rep.text, "📊 **job** — 30% (3/10) · 5s\nEpoch 3/10");
    assert!(rep.attach);
    assert_eq!(st.last_milestone, 1000);
}

#[test]
fn polling_twice_without_new_output_sends_nothing() {
    let mut st = RunState::new();
    let mut mon = fresh_monitor(300_000, 0);
    st.append_line("Epoch 9/10");
    let chunk = st.take_unparsed();
    let reading = resolve_reading(None, &chunk);
    let first = mon.decide(&mut st, &chunk, reading, 1_000, 1);
    assert!(first.is_some());
    let watermark = st.last_milestone;
    let offset = st.unparsed_offset;

    // no new output: the second poll takes an empty chunk
    let chunk2 = st.take_unparsed();
    assert_eq!(chunk2, "");
    let reading2 = resolve_reading(None, &chunk2);
    let second = mon.decide(&mut st, &chunk2, reading2, 2_000, 2);
    assert!(second.is_none(), "no new output, no new report");
    assert_eq!(st.last_milestone, watermark);
    assert_eq!(st.unparsed_offset, offset);
}

#[test]
fn offset_follows_buffer_and_never_regresses() {
    let mut st = RunState::new();
    st.append_line("one");
    st.append_line("two");
    let c1 = st.take_unparsed();
    assert_eq!(c1, "one\ntwo\n");
    let o1 = st.unparsed_offset;
    assert_eq!(o1, st.output_buffer.chars().count());
    let c2 = st.take_unparsed();
    assert_eq!(c2, "");
    assert!(st.unparsed_offset >= o1);
    st.append_line("three");
    let c3 = st.take_unparsed();
    assert_eq!(c3, "three\n");
    assert!(st.unparsed_offset >= o1);
    assert_eq!(st.unparsed_offset, st.output_buffer.chars().count());
}

#[test]
fn offsets_count_characters_not_bytes() {
    let mut st = RunState::new();
    st.append_line("época 1/4 — désolé");
    let c1 = st.take_unparsed();
    assert_eq!(c1, "época 1/4 — désolé\n");
    st.append_line("época 2/4");
    let c2 = st.take_unparsed();
    assert_eq!(c2, "época 2/4\n");
    let r = resolve_reading(None, &c2).expect("reading");
    assert_eq!(r.current, Some(2));
    assert_eq!(r.summary, "época 2/4");
}

#[test]
fn unrecognized_output_falls_back_once_per_interval() {
    let mut st = RunState::new();
    let mut mon = fresh_monitor(10_000, 0);
    let mut sent: Vec<u64> = Vec::new();
    for tick in 1..=8u64 {
        let now = tick * 2_500;
        st.append_line("no recognizable progress");
        let chunk = st.take_unparsed();
        let reading = resolve_reading(None, &chunk);
        if mon.decide(&mut st, &chunk, reading, now, tick).is_some() {
            sent.push(now);
        }
    }
    // ticks at 2.5 s intervals, a 10 s throttle: exactly one report per
    // elapsed interval
    assert_eq!(sent, vec![10_000, 20_000]);
}

#[test]
fn fallback_report_carries_the_raw_tail() {
    let mut st = RunState::new();
    let mut mon = fresh_monitor(1_000, 0);
    st.append_line("alpha");
    st.append_line("beta");
    let chunk = st.take_unparsed();
    let reading = resolve_reading(None, &chunk);
    let rep = mon.decide(&mut st, &chunk, reading, 60_000, 60).expect("report");
    assert_eq!(rep.text, "📊 **job** · 1.0min\n```\nalpha\nbeta\n```");
}

#[test]
fn summary_only_reading_is_throttled_status() {
    let mut st = RunState::new();
    let mut mon = fresh_monitor(10_000, 0);
    st.append_line("compiling shaders");
    let chunk = st.take_unparsed();
    // an external reading with a summary but no percent
    let reading = ocnotify::json::parse_progress_json(
        "{\"percent\": null, \"summary\": \"compiling shaders\"}",
    );
    assert!(reading.is_some());
    let rep = mon.decide(&mut st, &chunk, reading, 12_000, 12).expect("report");
    assert_eq!(rep.text, "📊 **job** · 12s\ncompiling shaders");
    // again within the interval: throttled
    st.append_line("still compiling");
    let chunk2 = st.take_unparsed();
    let reading2 = ocnotify::json::parse_progress_json(
        "{\"percent\": null, \"summary\": \"still compiling\"}",
    );
    assert!(mon.decide(&mut st, &chunk2, reading2, 13_000, 13).is_none());
}

#[test]
fn external_reading_wins_over_local_extraction() {
    let external = ocnotify::json::parse_progress_json(
        "{\"percent\": 80, \"summary\": \"external\"}",
    );
    let r = resolve_reading(external, "Epoch 1/10").expect("reading");
    assert_eq!(r.percent_centi, Some(8000));
    assert_eq!(r.summary, "external");
    let r = resolve_reading(None, "Epoch 1/10").expect("reading");
    assert_eq!(r.percent_centi, Some(1000));
}

#[test]
fn blank_chunk_decides_nothing_even_with_a_reading() {
    let mut st = RunState::new();
    let mut mon = fresh_monitor(1, 0);
    let reading = ocnotify::json::parse_progress_json("{\"percent\": 90, \"summary\": \"x\"}");
    assert!(mon.decide(&mut st, "   \n", reading, 1_000_000, 10).is_none());
    assert_eq!(st.last_milestone, 0);
    assert!(st.latest_reading.is_none());
}
