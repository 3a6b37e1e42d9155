use ocnotify::json::{parse_progress_json, parse_external_reply};

#[test]
fn full_object_decodes() {
    let r = parse_progress_json(
        "{\"percent\": 47, \"current\": 3, \"total\": 10, \"summary\": \"training\"}",
    )
    .expect("reading");
    assert_eq!(r.percent_centi, Some(4700));
    assert_eq!(r.current, Some(3));
    assert_eq!(r.total, Some(10));
    assert_eq!(r.summary, "training");
}

#[test]
fn null_percent_keeps_summary() {
    let r = parse_progress_json("{\"percent\": null, \"summary\": \"warming up\"}")
        .expect("reading");
    assert_eq!(r.percent_centi, None);
    assert_eq!(r.summary, "warming up");
}

#[test]
fn empty_object_is_no_reading() {
    assert!(parse_progress_json("{}").is_none());
    assert!(parse_progress_json("not json at all").is_none());
}

#[test]
fn fractional_percent_decodes() {
    let r = parse_progress_json("{\"percent\": 12.5, \"summary\": \"x\"}").expect("reading");
    assert_eq!(r.percent_centi, Some(1250));
}

#[test]
fn out_of_range_percent_is_absent() {
    let r = parse_progress_json("{\"percent\": 150, \"summary\": \"x\"}").expect("reading");
    assert_eq!(r.percent_centi, None);
    assert!(parse_progress_json("{\"percent\": 150}").is_none());
    let r = parse_progress_json("{\"percent\": -5, \"summary\": \"x\"}").expect("reading");
    assert_eq!(r.percent_centi, None);
}

#[test]
fn counters_come_only_as_a_positive_pair() {
    let r = parse_progress_json("{\"percent\": 10, \"current\": 2, \"summary\": \"x\"}")
        .expect("reading");
    assert_eq!(r.current, None);
    assert_eq!(r.total, None);
    let r = parse_progress_json(
        "{\"percent\": 10, \"current\": 2, \"total\": 0, \"summary\": \"x\"}",
    )
    .expect("reading");
    assert_eq!(r.current, None);
    assert_eq!(r.total, None);
    let r = parse_progress_json(
        "{\"percent\": 10, \"current\": -2, \"total\": 4, \"summary\": \"x\"}",
    )
    .expect("reading");
    assert_eq!(r.current, None);
}

#[test]
fn escapes_in_summary_resolve() {
    let r = parse_progress_json("{\"summary\": \"loss \\\"low\\\"\\nsteady\"}")
        .expect("reading");
    assert_eq!(r.summary, "loss \"low\" steady");
}

#[test]
fn markdown_wrapped_reply_decodes() {
    let r = parse_external_reply(
        "```json\n{\"percent\": 50, \"current\": null, \"total\": null, \"summary\": \"half\"}\n```",
    )
    .expect("reading");
    assert_eq!(r.percent_centi, Some(5000));
    assert_eq!(r.summary, "half");
}

#[test]
fn reply_without_braces_is_no_reading() {
    assert!(parse_external_reply("I could not find any progress.").is_none());
    assert!(parse_external_reply("").is_none());
}

#[test]
fn reply_with_reversed_braces_is_no_reading() {
    assert!(parse_external_reply("} oops {").is_none());
}
