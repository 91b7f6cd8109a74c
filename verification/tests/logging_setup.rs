use librojo::cli::ColorChoice;
use std::io::Read;
use librojo::logging::{compress_log, console_filter, file_filter_directive, log_dir, log_file_action, use_ansi, LogFileAction, LogLevel};

const DAY: u64 = 86400;

#[test]
fn console_filters_by_verbosity() {
    assert_eq!(console_filter(0), "info");
    assert_eq!(console_filter(1), "info,librojo=debug");
    assert_eq!(console_filter(2), "info,librojo=trace");
    assert_eq!(console_filter(3), "trace");
    assert_eq!(console_filter(255), "trace");
}

#[test]
fn colours_and_file_filters() {
    assert!(use_ansi(ColorChoice::Always, false));
    assert!(!use_ansi(ColorChoice::Never, true));
    assert!(use_ansi(ColorChoice::Auto, true));
    assert!(!use_ansi(ColorChoice::Auto, false));
    assert_eq!(file_filter_directive(LogLevel::Warn), "warn");
    assert_eq!(file_filter_directive(LogLevel::Trace), "trace");
}

#[test]
fn log_directory_is_inside_project() {
    assert_eq!(log_dir("/p/game"), "/p/game/.atlas/logs");
    assert_eq!(log_dir("/p/game/"), "/p/game/.atlas/logs");
}

#[test]
fn old_log_of_this_command_is_compressed() {
    let today = 20000 * DAY + 500;
    assert_eq!(
        log_file_action("atlas-serve.2020-01-01.log", "atlas-serve", today, Some(Some(18262 * DAY))),
        LogFileAction::Compress { gz_name: "atlas-serve.2020-01-01.log.gz".to_string() }
    );
}

#[test]
fn logs_of_other_commands_and_today_are_kept() {
    let today = 20000 * DAY + 500;
    assert_eq!(log_file_action("atlas-build.2020-01-01.log", "atlas-serve", today, Some(Some(18262 * DAY))), LogFileAction::Keep);
    assert_eq!(log_file_action("atlas-serve.today.log", "atlas-serve", today, Some(Some(20000 * DAY + 10))), LogFileAction::Keep);
    assert_eq!(log_file_action("notes.txt", "atlas-serve", today, Some(Some(0))), LogFileAction::Keep);
}

#[test]
fn unreadable_modification_time() {
    let today = 20000 * DAY;
    assert_eq!(
        log_file_action("atlas-serve.x.log", "atlas-serve", today, None),
        LogFileAction::Compress { gz_name: "atlas-serve.x.log.gz".to_string() }
    );
    assert_eq!(log_file_action("atlas-serve.x.log", "atlas-serve", today, Some(None)), LogFileAction::Keep);
    assert_eq!(log_file_action("atlas-serve.x.log.gz", "atlas-serve", today, None), LogFileAction::Keep);
}

#[test]
fn archives_older_than_a_week_are_deleted() {
    let today = 20000 * DAY;
    assert_eq!(log_file_action("a.log.gz", "atlas-serve", today, Some(Some(19992 * DAY))), LogFileAction::Delete);
    assert_eq!(log_file_action("a.log.gz", "atlas-serve", today, Some(Some(19993 * DAY))), LogFileAction::Keep);
    assert_eq!(log_file_action("a.log.gz", "atlas-serve", today, Some(None)), LogFileAction::Keep);
}

#[test]
fn old_log_is_gzip_compressed() {
    let data = compress_log(b"old log content").expect("compression");
    assert_eq!(&data[..10], &[0x1f, 0x8b, 8, 0, 0, 0, 0, 0, 0, 255]);
    let mut decoder = flate2::read::GzDecoder::new(&data[..]);
    let mut out = String::new();
    decoder.read_to_string(&mut out).unwrap();
    assert_eq!(out, "old log content");
}
