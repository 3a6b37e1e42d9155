use ocnotify::extract::extract_progress;

#[test]
fn epoch_pair_yields_counters_and_percent() {
    let r = extract_progress("Epoch 3/10").expect("reading");
    assert_eq!(r.current, Some(3));
    assert_eq!(r.total, Some(10));
    assert_eq!(r.percent_centi, Some(3000));
    assert_eq!(r.summary, "Epoch 3/10");
}

#[test]
fn bare_percent_yields_percent_only() {
    let r = extract_progress("47%").expect("reading");
    assert_eq!(r.percent_centi, Some(4700));
    assert_eq!(r.current, None);
    assert_eq!(r.total, None);
}

#[test]
fn fractional_percent_is_kept_in_hundredths() {
    let r = extract_progress("downloading 47.5%").expect("reading");
    assert_eq!(r.percent_centi, Some(4750));
    assert_eq!(r.summary, "downloading 47.5%");
}

#[test]
fn unrecognizable_text_yields_nothing() {
    assert!(extract_progress("nothing to see here").is_none());
    assert!(extract_progress("").is_none());
    assert!(extract_progress("   \n  \n").is_none());
    assert!(extract_progress("a/b is not a fraction").is_none());
}

#[test]
fn percent_beyond_hundred_is_rejected() {
    assert!(extract_progress("200%").is_none());
    assert!(extract_progress("100.001%").is_none());
    let r = extract_progress("100%").expect("reading");
    assert_eq!(r.percent_centi, Some(10000));
}

#[test]
fn zero_total_is_no_pair() {
    assert!(extract_progress("5/0").is_none());
}

#[test]
fn counters_past_total_clamp_at_hundred_percent() {
    let r = extract_progress("Step 15/10").expect("reading");
    assert_eq!(r.percent_centi, Some(10000));
    assert_eq!(r.current, Some(15));
    assert_eq!(r.total, Some(10));
}

#[test]
fn most_recent_matching_line_wins() {
    let r = extract_progress("Epoch 1/10\nnoise\nEpoch 2/10\nmore noise\n").expect("reading");
    assert_eq!(r.current, Some(2));
    assert_eq!(r.summary, "Epoch 2/10");
}

#[test]
fn pair_with_spaces_matches() {
    let r = extract_progress("file 7 / 9 done").expect("reading");
    assert_eq!(r.current, Some(7));
    assert_eq!(r.total, Some(9));
}

#[test]
fn pair_beats_percent_on_one_line() {
    let r = extract_progress("30% through batch 3/9").expect("reading");
    assert_eq!(r.current, Some(3));
    assert_eq!(r.total, Some(9));
    assert_eq!(r.percent_centi, Some(3333));
}

#[test]
fn progress_fraction_converts_to_percent() {
    let r = extract_progress("progress: 0.75").expect("reading");
    assert_eq!(r.percent_centi, Some(7500));
    assert_eq!(r.current, None);
    assert_eq!(r.total, None);
}

#[test]
fn progress_fraction_of_one_is_complete() {
    let r = extract_progress("progress: 1.0").expect("reading");
    assert_eq!(r.percent_centi, Some(10000));
}

#[test]
fn progress_fraction_beyond_one_is_rejected() {
    assert!(extract_progress("progress: 1.5").is_none());
    assert!(extract_progress("progress: 2").is_none());
}

#[test]
fn bracketed_and_spaced_percents_match() {
    let r = extract_progress("[47%] done").expect("reading");
    assert_eq!(r.percent_centi, Some(4700));
    let r = extract_progress("47 %").expect("reading");
    assert_eq!(r.percent_centi, Some(4700));
}

#[test]
fn summary_is_the_trimmed_line() {
    let r = extract_progress("   Epoch 4/8   ").expect("reading");
    assert_eq!(r.summary, "Epoch 4/8");
}

#[test]
fn huge_counters_saturate_instead_of_failing() {
    let r = extract_progress("99999999999999999999999/7").expect("reading");
    assert_eq!(r.current, Some(u64::MAX));
    assert_eq!(r.percent_centi, Some(10000));
}
