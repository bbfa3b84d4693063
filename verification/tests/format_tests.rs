use rooms::timefmt::format_time_limit;

#[test]
fn zero_minutes() {
    assert_eq!(format_time_limit(0), "00:00:00");
}

#[test]
fn under_an_hour() {
    assert_eq!(format_time_limit(30), "00:30:00");
    assert_eq!(format_time_limit(5), "00:05:00");
    assert_eq!(format_time_limit(59), "00:59:00");
}

#[test]
fn whole_hours() {
    assert_eq!(format_time_limit(60), "01:00:00");
    assert_eq!(format_time_limit(600), "10:00:00");
}

#[test]
fn hours_and_minutes() {
    assert_eq!(format_time_limit(90), "01:30:00");
    assert_eq!(format_time_limit(61), "01:01:00");
    assert_eq!(format_time_limit(1439), "23:59:00");
}

#[test]
fn hours_beyond_a_day_keep_all_digits() {
    assert_eq!(format_time_limit(6000), "100:00:00");
    assert_eq!(format_time_limit(1440), "24:00:00");
}

#[test]
fn the_largest_value_does_not_overflow() {
    let rendered = format_time_limit(u64::MAX);
    // u64::MAX minutes is 307445734561825860 hours and 15 minutes.
    assert_eq!(rendered, "307445734561825860:15:00");
}
