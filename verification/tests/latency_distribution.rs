use inputlagscope::history::{keep_last, latency_series, push_bounded, push_log_line, stamp_message, LOG_LINE_LIMIT};

#[test]
fn latency_series_keeps_recent_values() {
    let values = (0..650).map(f64::from).collect::<Vec<_>>();

    let series = latency_series(&values);

    assert_eq!(series.len(), 600);
    assert_eq!(series.first().copied(), Some(50.0));
    assert_eq!(series.last().copied(), Some(649.0));
}

#[test]
fn latency_series_keeps_short_lists_whole() {
    let values = vec![1.5_f64, 2.5, 3.5];
    assert_eq!(latency_series(&values), values);
    let empty: Vec<f64> = Vec::new();
    assert!(latency_series(&empty).is_empty());
}

#[test]
fn bounded_push_drops_oldest() {
    let mut items = vec![1, 2, 3];
    push_bounded(&mut items, 4, 3);
    assert_eq!(items, vec![2, 3, 4]);
    keep_last(&mut items, 1);
    assert_eq!(items, vec![4]);
    keep_last(&mut items, 5);
    assert_eq!(items, vec![4]);
}

#[test]
fn log_keeps_newest_lines() {
    let mut messages = Vec::new();
    for i in 0..205 {
        push_log_line(&mut messages, stamp_message("00:00:00", &format!("line {i}")));
    }
    assert_eq!(messages.len(), LOG_LINE_LIMIT);
    assert_eq!(messages[0], "[00:00:00] line 5");
    assert_eq!(messages[199], "[00:00:00] line 204");
}

#[test]
fn stamped_message_format() {
    assert_eq!(stamp_message("12:34:56", "opening pad"), "[12:34:56] opening pad");
}
