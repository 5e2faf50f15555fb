use linear_wireless::logger::{
    format_record, is_held_back, level_filter_from, max_level_from_setting, setup_line, LogFilter,
    LogLevel,
};

#[test]
fn level_names_parse_in_any_case() {
    assert_eq!(level_filter_from("off"), LogFilter::Off);
    assert_eq!(level_filter_from("ERROR"), LogFilter::Error);
    assert_eq!(level_filter_from("Warn"), LogFilter::Warn);
    assert_eq!(level_filter_from("info"), LogFilter::Info);
    assert_eq!(level_filter_from("dEbUg"), LogFilter::Debug);
    assert_eq!(level_filter_from("trace"), LogFilter::Trace);
}

#[test]
fn unknown_level_names_turn_logging_off() {
    assert_eq!(level_filter_from("verbose"), LogFilter::Off);
    assert_eq!(level_filter_from(""), LogFilter::Off);
    assert_eq!(level_filter_from(" info"), LogFilter::Off);
}

#[test]
fn setting_gives_maximum_level() {
    assert_eq!(max_level_from_setting(None), None);
    assert_eq!(max_level_from_setting(Some("debug")), Some(LogFilter::Debug));
    assert_eq!(max_level_from_setting(Some("loud")), Some(LogFilter::Off));
}

#[test]
fn filters_order_below_levels() {
    assert!(LogFilter::Off.is_below(LogLevel::Error));
    assert!(LogFilter::Warn.is_below(LogLevel::Info));
    assert!(!LogFilter::Warn.is_below(LogLevel::Warn));
    assert!(!LogFilter::Trace.is_below(LogLevel::Trace));
}

#[test]
fn no_target_setting_holds_nothing_back() {
    assert!(!is_held_back(None, "wifi", LogLevel::Trace));
}

#[test]
fn target_entries_hold_back_verbose_records() {
    let targets = Some("esp_wifi=warn,radio=off");
    assert!(is_held_back(targets, "esp_wifi::timer", LogLevel::Info));
    assert!(is_held_back(targets, "esp_wifi", LogLevel::Debug));
    assert!(!is_held_back(targets, "esp_wifi", LogLevel::Warn));
    assert!(!is_held_back(targets, "esp_wifi", LogLevel::Error));
    assert!(is_held_back(targets, "radio", LogLevel::Error));
    assert!(!is_held_back(targets, "receiver", LogLevel::Trace));
    assert!(!is_held_back(targets, "esp", LogLevel::Trace));
}

#[test]
fn malformed_entries() {
    assert!(!is_held_back(Some("esp_wifi"), "esp_wifi", LogLevel::Trace));
    assert!(is_held_back(Some("esp_wifi=noisy"), "esp_wifi", LogLevel::Error));
    assert!(is_held_back(Some(",,=off"), "anything", LogLevel::Error));
    assert!(!is_held_back(Some(""), "anything", LogLevel::Error));
    assert!(is_held_back(Some("a=trace=off"), "a", LogLevel::Trace));
    assert!(!is_held_back(Some("a=trace,b=off"), "a", LogLevel::Trace));
}

#[test]
fn record_line_layout() {
    assert_eq!(
        format_record(LogLevel::Info, "receiver", 42, "Red LED toggled"),
        "[\u{1b}[32mINFO receiver 42s\u{1b}[0m] Red LED toggled"
    );
    assert_eq!(
        format_record(LogLevel::Error, "t", 0, ""),
        "[\u{1b}[31mERROR t 0s\u{1b}[0m] "
    );
    assert_eq!(
        format_record(LogLevel::Trace, "x", 18446744073709551615, "m"),
        "[\u{1b}[35mTRACE x 18446744073709551615s\u{1b}[0m] m"
    );
    assert_eq!(LogLevel::Warn.colour(), "\u{1b}[33m");
    assert_eq!(LogLevel::Debug.colour(), "\u{1b}[34m");
    assert_eq!(LogLevel::Debug.as_str(), "DEBUG");
}

#[test]
fn setup_line_layout() {
    assert_eq!(setup_line("Logger is setup"), "[\u{1b}[32mLOGGER\u{1b}[0m] Logger is setup");
}
