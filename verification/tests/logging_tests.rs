use starry_modules::logging::{format_log_line, level_color, max_level_for, ColorCode, Level, LevelFilter};

#[test]
fn level_names_in_any_case() {
    assert_eq!(max_level_for("info"), LevelFilter::Info);
    assert_eq!(max_level_for("INFO"), LevelFilter::Info);
    assert_eq!(max_level_for("Trace"), LevelFilter::Trace);
    assert_eq!(max_level_for("off"), LevelFilter::Off);
    assert_eq!(max_level_for("error"), LevelFilter::Error);
    assert_eq!(max_level_for("warn"), LevelFilter::Warn);
    assert_eq!(max_level_for("debug"), LevelFilter::Debug);
}

#[test]
fn unknown_level_turns_logging_off() {
    assert_eq!(max_level_for("bogus"), LevelFilter::Off);
    assert_eq!(max_level_for(""), LevelFilter::Off);
    assert_eq!(max_level_for("infos"), LevelFilter::Off);
}

#[test]
fn level_colors() {
    assert_eq!(level_color(Level::Error), ColorCode::Red);
    assert_eq!(level_color(Level::Warn).code(), 33);
    assert_eq!(level_color(Level::Info).code(), 32);
    assert_eq!(level_color(Level::Debug).code(), 36);
    assert_eq!(level_color(Level::Trace).code(), 90);
    assert_eq!(ColorCode::BrightWhite.code(), 97);
}

#[test]
fn log_line_with_cpu_and_task() {
    let line = format_log_line(Level::Info, 5, 42, Some(0), Some(7), "axmm", Some(12), "hi");
    assert_eq!(
        String::from_utf8(line).unwrap(),
        "\u{1b}[37m[  5.000042 0:7 axmm:12] \u{1b}[32mhi\u{1b}[m\n\u{1b}[m"
    );
}

#[test]
fn log_line_with_cpu_only() {
    let line = format_log_line(Level::Error, 1234, 999_999, Some(3), None, "net", None, "x");
    assert_eq!(
        String::from_utf8(line).unwrap(),
        "\u{1b}[37m[1234.999999 3 net:0] \u{1b}[31mx\u{1b}[m\n\u{1b}[m"
    );
}

#[test]
fn log_line_without_ids() {
    let line = format_log_line(Level::Trace, 0, 0, None, Some(9), "a", Some(1), "");
    assert_eq!(
        String::from_utf8(line).unwrap(),
        "\u{1b}[37m[  0.000000 a:1] \u{1b}[90m\u{1b}[m\n\u{1b}[m"
    );
}
