use gamepath_engine::log::{
    civil_from_days, enabled, fingerprint, format_line, format_timestamp, log_path, log_path_under, needs_rotation,
    Level, Sink, MAX_BYTES, REPEAT_WINDOW,
};

#[test]
fn the_epoch_and_a_known_date_format_correctly() {
    assert_eq!(format_timestamp(0, 0), "1970-01-01T00:00:00.000Z");
    // A real session start from the service log. That file records local
    // time; this formats UTC, which is the point of moving to it.
    assert_eq!(
        format_timestamp(1_788_936_975, 42),
        "2026-09-09T06:56:15.042Z"
    );
}

#[test]
fn a_leap_day_is_not_off_by_one() {
    // 2024-02-29T00:00:00Z
    assert_eq!(format_timestamp(1_709_164_800, 0), "2024-02-29T00:00:00.000Z");
    assert_eq!(format_timestamp(1_709_251_200, 0), "2024-03-01T00:00:00.000Z");
}

#[test]
fn levels_order_from_most_to_least_severe() {
    assert!(Level::Error < Level::Warn);
    assert!(Level::Warn < Level::Info);
    assert!(Level::Info < Level::Debug);
}

#[test]
fn the_level_filter_is_parsed_leniently_and_never_silently_disables() {
    assert_eq!(Level::parse("Debug"), Some(Level::Debug));
    assert_eq!(Level::parse("  WARN "), Some(Level::Warn));
    assert_eq!(Level::parse("warning"), Some(Level::Warn));
    // Unrecognised leaves the caller to keep its default.
    assert_eq!(Level::parse("verbose"), None);
    assert_eq!(Level::parse(""), None);
}

#[test]
fn a_fingerprint_is_stable_short_and_not_the_secret() {
    let secret = b"an enrollment token that must never be logged";
    let tag = fingerprint(secret);
    assert_eq!(tag.len(), 8);
    assert_eq!(tag, fingerprint(secret));
    assert_ne!(tag, fingerprint(b"a different secret"));
    assert!(!String::from_utf8_lossy(secret).contains(&tag));
}

#[test]
fn a_repeated_message_is_collapsed_instead_of_written_each_time() {
    let mut sink = Sink::new();
    let mut written = 0;
    for _ in 0..1000 {
        written += sink
            .emit(Level::Warn, "path health check timed out".into(), 0)
            .len();
    }
    // Only the first went out; the rest are held as a count.
    assert_eq!(written, 1);
    let repeat = sink.repeat.as_ref().expect("the repeat should be pending");
    assert_eq!(repeat.count, 999);
    assert_eq!(repeat.message, "path health check timed out");
}

#[test]
fn a_different_message_releases_the_pending_repeat() {
    let mut sink = Sink::new();
    sink.emit(Level::Warn, "same".into(), 0);
    sink.emit(Level::Warn, "same".into(), 0);
    let lines = sink.emit(Level::Info, "something else".into(), 0);
    assert_eq!(lines.len(), 2);
    assert!(lines[0].message.contains("same"));
    let repeat = sink.repeat.as_ref().unwrap();
    assert_eq!(repeat.message, "something else");
    assert_eq!(repeat.count, 0);
}

#[test]
fn the_same_message_at_a_different_level_is_not_collapsed() {
    let mut sink = Sink::new();
    sink.emit(Level::Info, "route 2 is unreachable".into(), 0);
    sink.emit(Level::Error, "route 2 is unreachable".into(), 0);
    assert_eq!(sink.repeat.as_ref().unwrap().level, Level::Error);
    assert_eq!(sink.repeat.as_ref().unwrap().count, 0);
}

/// Plays the file: a line that does not fit starts a new one.
#[test]
fn a_log_file_never_outgrows_its_cap() {
    let mut sink = Sink::new();
    let mut written: u64 = 0;
    let mut largest: u64 = 0;
    let mut rotations = 0;
    // Every line is a distinct message, so nothing is collapsed away.
    let padding = "x".repeat(1000);
    for index in 0..(MAX_BYTES / 1000 + 500) {
        for line in sink.emit(Level::Info, format!("line {index} {padding}"), index) {
            let text = format_line(&format_timestamp(index, 0), line.level, "test", &line.message);
            if needs_rotation(written, text.len()) {
                rotations += 1;
                written = 0;
            }
            written += text.len() as u64;
            largest = largest.max(written);
        }
    }
    assert_eq!(rotations, 1);
    assert!(largest <= MAX_BYTES);
}

#[test]
fn a_long_repetition_is_reported_while_it_lasts() {
    let mut sink = Sink::new();
    assert_eq!(sink.emit(Level::Warn, "same".into(), 0).len(), 1);
    assert_eq!(sink.emit(Level::Warn, "same".into(), 1).len(), 0);
    assert!(!sink
        .emit(Level::Warn, "same".into(), REPEAT_WINDOW)
        .is_empty());
    assert!(sink.flush_repeat().is_none());
    assert!(sink.repeat.is_none());
}

#[test]
fn a_line_is_stamped_labelled_and_attributed() {
    let line = format_line(
        "1970-01-01T00:00:00.000Z",
        Level::Error,
        "engine",
        "it broke",
    );
    assert!(line.starts_with("1970-01-01T00:00:00.000Z ERROR"), "{line}");
    assert!(line.contains("engine"), "{line}");
    assert!(line.contains("it broke"), "{line}");
    assert_eq!(Level::Warn.label(), "WARN");
    assert!(enabled(Level::Error, Level::Info));
    assert!(!enabled(Level::Debug, Level::Info));
}

#[test]
fn days_before_the_epoch_are_dated_too() {
    assert_eq!(civil_from_days(0), (1970, 1, 1));
    assert_eq!(civil_from_days(-1), (1969, 12, 31));
    assert_eq!(civil_from_days(11_016), (2000, 2, 29));
    assert_eq!(civil_from_days(-719_468), (0, 3, 1));
}

#[test]
fn a_fingerprint_is_the_low_half_of_a_64_bit_fnv1a_hash() {
    assert_eq!(fingerprint(b""), "84222325");
    // FNV-1a of "a" is 0xaf63dc4c8601ec8c.
    assert_eq!(fingerprint(b"a"), "8601ec8c");
}

#[test]
fn every_component_logs_to_the_same_directory() {
    assert_eq!(log_path("relay"), "/var/log/gamepath/relay.log");
    assert_eq!(log_path("/tmp/relay"), "/tmp/relay.log");
    let engine = r"C:\ProgramData\GamePath\logs\engine.log";
    assert_eq!(log_path_under(r"C:\ProgramData", "engine"), engine);
    assert_eq!(log_path_under("C:\\ProgramData\\", "engine"), engine);
    assert_eq!(log_path_under("D:", "engine"), r"D:GamePath\logs\engine.log");
}
