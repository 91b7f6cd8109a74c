//! Log levels of messages forwarded from Roblox Studio, the level named by
//! a project's `fileLogLevel` setting, and the choices made when logging is
//! set up: the console filter, colours, the log directory, and which old log
//! files are compressed or deleted.

use vstd::prelude::*;
use crate::text::{chars_from, chars_of, has_prefix, has_suffix, matches_at, push_all, push_str, string_from_chars};

verus! {

/// Severity of a log message, most severe first.
#[derive(Debug, Clone, Copy, PartialEq, Eq, Structural)]
pub enum LogLevel {
    Error,
    Warn,
    Info,
    Debug,
    Trace,
}

/// The level a Roblox `MessageType` stands for when a message carries no
/// Rojo prefix: 2 is a warning, 3 an error, anything else informational.
pub open spec fn message_type_level(message_type: u64) -> LogLevel {
    if message_type == 2 {
        LogLevel::Warn
    } else if message_type == 3 {
        LogLevel::Error
    } else {
        LogLevel::Info
    }
}

/// What [`parse_roblox_log`] returns: a `[Rojo-<Level>] ` prefix is replaced
/// by `[Rojo] ` and decides the level; otherwise the message is kept and the
/// message type decides.
pub open spec fn parse_roblox_log_spec(message: Seq<char>, message_type: u64) -> (LogLevel, Seq<char>) {
    if has_prefix(message, "[Rojo-Trace] "@) {
        (LogLevel::Trace, "[Rojo] "@ + message.skip("[Rojo-Trace] "@.len() as int))
    } else if has_prefix(message, "[Rojo-Debug] "@) {
        (LogLevel::Debug, "[Rojo] "@ + message.skip("[Rojo-Debug] "@.len() as int))
    } else if has_prefix(message, "[Rojo-Info] "@) {
        (LogLevel::Info, "[Rojo] "@ + message.skip("[Rojo-Info] "@.len() as int))
    } else if has_prefix(message, "[Rojo-Warn] "@) {
        (LogLevel::Warn, "[Rojo] "@ + message.skip("[Rojo-Warn] "@.len() as int))
    } else {
        (message_type_level(message_type), message)
    }
}

/// `"[Rojo] "` followed by `message` with its first `skip` characters removed.
fn rojo_message(message: &Vec<char>, skip: usize) -> (res: String)
    requires
        skip <= message.len(),
    ensures
        res@ == "[Rojo] "@ + message@.skip(skip as int),
{
    let mut out: Vec<char> = Vec::new();
    push_str(&mut out, "[Rojo] ");
    let rest = chars_from(message, skip);
    push_all(&mut out, &rest);
    string_from_chars(&out)
}

/// Parses a Roblox log message forwarded from the plugin, extracting the real
/// log level and a cleaned message. Plugin logs carry `[Rojo-Trace] ` and
/// similar prefixes that encode the level; these are replaced with `[Rojo] `.
/// Game script output without such a prefix falls back to the `MessageType`.
pub fn parse_roblox_log(message: &str, message_type: u64) -> (res: (LogLevel, String))
    ensures
        (res.0, res.1@) == parse_roblox_log_spec(message@, message_type),
{
    let m = chars_of(message);
    let trace = chars_of("[Rojo-Trace] ");
    let debug = chars_of("[Rojo-Debug] ");
    let info = chars_of("[Rojo-Info] ");
    let warn = chars_of("[Rojo-Warn] ");
    if matches_at(&m, 0, &trace) {
        (LogLevel::Trace, rojo_message(&m, trace.len()))
    } else if matches_at(&m, 0, &debug) {
        (LogLevel::Debug, rojo_message(&m, debug.len()))
    } else if matches_at(&m, 0, &info) {
        (LogLevel::Info, rojo_message(&m, info.len()))
    } else if matches_at(&m, 0, &warn) {
        (LogLevel::Warn, rojo_message(&m, warn.len()))
    } else {
        let level = if message_type == 2 {
            LogLevel::Warn
        } else if message_type == 3 {
            LogLevel::Error
        } else {
            LogLevel::Info
        };
        (level, string_from_chars(&m))
    }
}

/// The lowercase form of a string, as `str::to_lowercase` computes it.
pub uninterp spec fn lowercase(s: Seq<char>) -> Seq<char>;

/// `str::to_lowercase`: Unicode lowercasing, character by character.
#[verifier::external_body]
pub(crate) fn to_lowercase(s: &str) -> (res: String)
    ensures
        res@ == lowercase(s@),
{
    s.to_lowercase()
}

/// The file log level that an already lowercased `fileLogLevel` value names:
/// `None` when logging to file is switched off (`none` or `off`), the named
/// level otherwise, and `Trace` for any name it does not know.
pub open spec fn file_log_level_spec(lower: Seq<char>) -> Option<LogLevel> {
    if lower == "none"@ || lower == "off"@ {
        None
    } else if lower == "error"@ {
        Some(LogLevel::Error)
    } else if lower == "warn"@ {
        Some(LogLevel::Warn)
    } else if lower == "info"@ {
        Some(LogLevel::Info)
    } else if lower == "debug"@ {
        Some(LogLevel::Debug)
    } else {
        Some(LogLevel::Trace)
    }
}

fn is_word(v: &Vec<char>, word: &str) -> (res: bool)
    ensures
        res == (v@ == word@),
{
    let w = chars_of(word);
    crate::text::chars_eq(v, &w)
}

/// Maps a lowercased `fileLogLevel` value to the file log level it names.
pub fn file_log_level_from_lowercase(lower: &str) -> (res: Option<LogLevel>)
    ensures
        res == file_log_level_spec(lower@),
{
    let v = chars_of(lower);
    if is_word(&v, "none") || is_word(&v, "off") {
        None
    } else if is_word(&v, "error") {
        Some(LogLevel::Error)
    } else if is_word(&v, "warn") {
        Some(LogLevel::Warn)
    } else if is_word(&v, "info") {
        Some(LogLevel::Info)
    } else if is_word(&v, "debug") {
        Some(LogLevel::Debug)
    } else {
        Some(LogLevel::Trace)
    }
}

/// Maps a project's `fileLogLevel` value, in any letter case, to the file
/// log level it names (`None`: file logging switched off).
pub fn file_log_level(value: &str) -> (res: Option<LogLevel>)
    ensures
        res == file_log_level_spec(lowercase(value@)),
{
    let lower = to_lowercase(value);
    file_log_level_from_lowercase(lower.as_str())
}

// ---------------------------------------------------------------------------
// Setting up logging
// ---------------------------------------------------------------------------

/// The console filter for a verbosity count: `info` by default, this
/// crate's debug or trace messages at one or two `-v`, everything beyond.
pub fn console_filter(verbosity: u8) -> (r: &'static str)
    ensures
        r@ == (if verbosity == 0 {
            "info"@
        } else if verbosity == 1 {
            "info,librojo=debug"@
        } else if verbosity == 2 {
            "info,librojo=trace"@
        } else {
            "trace"@
        }),
{
    if verbosity == 0 {
        "info"
    } else if verbosity == 1 {
        "info,librojo=debug"
    } else if verbosity == 2 {
        "info,librojo=trace"
    } else {
        "trace"
    }
}

/// Whether console output is coloured: as the colour choice says, and for
/// `auto` when standard error is a terminal.
pub fn use_ansi(color: crate::cli::ColorChoice, stderr_is_terminal: bool) -> (r: bool)
    ensures
        r == match color {
            crate::cli::ColorChoice::Always => true,
            crate::cli::ColorChoice::Never => false,
            crate::cli::ColorChoice::Auto => stderr_is_terminal,
        },
{
    match color {
        crate::cli::ColorChoice::Always => true,
        crate::cli::ColorChoice::Never => false,
        crate::cli::ColorChoice::Auto => stderr_is_terminal,
    }
}

/// The filter directive that lets through messages up to `level`.
pub fn file_filter_directive(level: LogLevel) -> (r: &'static str)
    ensures
        r@ == match level {
            LogLevel::Error => "error"@,
            LogLevel::Warn => "warn"@,
            LogLevel::Info => "info"@,
            LogLevel::Debug => "debug"@,
            LogLevel::Trace => "trace"@,
        },
{
    match level {
        LogLevel::Error => "error",
        LogLevel::Warn => "warn",
        LogLevel::Info => "info",
        LogLevel::Debug => "debug",
        LogLevel::Trace => "trace",
    }
}

/// The directory that holds a project's log files: `.atlas/logs` inside the
/// project directory.
pub fn log_dir(project_dir: &str) -> (r: String)
    ensures
        r@ == crate::fs_path::join_spec(crate::fs_path::join_spec(project_dir@, ".atlas"@), "logs"@),
{
    let a = crate::fs_path::join_path(project_dir, ".atlas");
    crate::fs_path::join_path(a.as_str(), "logs")
}

/// What happens to a file of the log directory at start-up.
#[derive(Debug, Clone, PartialEq, Eq)]
pub enum LogFileAction {
    /// Leave the file alone.
    Keep,
    /// Delete the file: a compressed log older than a week.
    Delete,
    /// Compress the file into `gz_name` and delete it: a log of this
    /// command from an earlier day.
    Compress { gz_name: String },
}

/// The kind of [`LogFileAction`] taken on a file.
#[derive(Debug, Clone, Copy, PartialEq, Eq, Structural)]
pub enum LogFileDecision {
    Keep,
    Delete,
    Compress,
}

/// What happens at start-up to the log file `file_name` of the command
/// `command_name`, `now_secs` seconds after the epoch. `modified_secs` is
/// the file's modification time: `None` when it cannot be read, `Some(None)`
/// when it lies before the epoch. A compressed log (`.log.gz`) is deleted
/// when its day is more than seven days before today; a log (`.log`) whose
/// name starts with the command's name is compressed unless its day is not
/// before today; anything else is kept.
pub open spec fn log_file_action_spec(
    file_name: Seq<char>,
    command_name: Seq<char>,
    now_secs: nat,
    modified_secs: Option<Option<nat>>,
) -> LogFileDecision {
    let today = now_secs / 86400;
    if has_suffix(file_name, ".log.gz"@) {
        match modified_secs {
            Some(m) => {
                let age: int = match m {
                    Some(t) => if today >= t / 86400 { today - t / 86400 } else { 0 },
                    None => 0,
                };
                if age > 7 { LogFileDecision::Delete } else { LogFileDecision::Keep }
            },
            None => LogFileDecision::Keep,
        }
    } else if !has_suffix(file_name, ".log"@) || !has_prefix(file_name, command_name) {
        LogFileDecision::Keep
    } else {
        let recent = match modified_secs {
            Some(m) => match m {
                Some(t) => t / 86400 >= today,
                None => true,
            },
            None => false,
        };
        if recent {
            LogFileDecision::Keep
        } else {
            LogFileDecision::Compress
        }
    }
}

/// The name a log file is compressed into: its stem and `.log.gz`.
pub open spec fn gz_name_spec(file_name: Seq<char>) -> Seq<char> {
    crate::fs_path::file_stem_spec(file_name) + ".log.gz"@
}

/// Decides what happens at start-up to one file of the log directory (see
/// [`log_file_action_spec`]).
pub fn log_file_action(file_name: &str, command_name: &str, now_secs: u64, modified_secs: Option<Option<u64>>) -> (r: LogFileAction)
    ensures
        ({
            let d = log_file_action_spec(
                file_name@,
                command_name@,
                now_secs as nat,
                match modified_secs {
                    Some(m) => Some(match m {
                        Some(t) => Some(t as nat),
                        None => None,
                    }),
                    None => None,
                },
            );
            match r {
                LogFileAction::Keep => d == LogFileDecision::Keep,
                LogFileAction::Delete => d == LogFileDecision::Delete,
                LogFileAction::Compress { gz_name } => d == LogFileDecision::Compress && gz_name@ == gz_name_spec(
                    file_name@,
                ),
            }
        }),
{
    let today = now_secs / 86400;
    let n = chars_of(file_name);
    if ends_with_str(&n, ".log.gz") {
        match modified_secs {
            Some(m) => {
                let age: u64 = match m {
                    Some(t) => if today >= t / 86400 { today - t / 86400 } else { 0 },
                    None => 0,
                };
                if age > 7 { LogFileAction::Delete } else { LogFileAction::Keep }
            },
            None => LogFileAction::Keep,
        }
    } else if !ends_with_str(&n, ".log") || !matches_at(&n, 0, &chars_of(command_name)) {
        LogFileAction::Keep
    } else {
        let recent = match modified_secs {
            Some(m) => match m {
                Some(t) => t / 86400 >= today,
                None => true,
            },
            None => false,
        };
        if recent {
            LogFileAction::Keep
        } else {
            let stem = crate::fs_path::file_stem_of(file_name);
            let mut v = chars_of(stem.as_str());
            push_str(&mut v, ".log.gz");
            LogFileAction::Compress { gz_name: string_from_chars(&v) }
        }
    }
}

fn ends_with_str(v: &Vec<char>, suffix: &str) -> (r: bool)
    ensures
        r == has_suffix(v@, suffix@),
{
    let s = chars_of(suffix);
    if s.len() > v.len() {
        return false;
    }
    matches_at(v, v.len() - s.len(), &s)
}

/// The gzip stream that flate2's `GzEncoder` writes for `data` at the
/// default level, with the default header.
pub uninterp spec fn gzip_of(data: Seq<u8>) -> Seq<u8>;

/// The header that flate2 writes at the default level with no name,
/// comment, extra field or time: the gzip magic, deflate, no flags, time
/// zero, no level hint, and "unknown" as the operating system.
pub open spec fn default_gzip_header() -> Seq<u8> {
    seq![0x1fu8, 0x8bu8, 8u8, 0u8, 0u8, 0u8, 0u8, 0u8, 0u8, 255u8]
}

/// Compresses `data` with flate2's `GzEncoder` at the default level into a
/// vector. The stream is named by `gzip_of`; of its bytes only the header,
/// which flate2's source writes as stated, is given here. The call
/// succeeds: writing into a vector does not fail, and the deflate backend
/// (miniz_oxide) reports an error only from states (a bad parameter, a
/// failed output callback, a call after the stream ended) that a fresh
/// encoder fed once and finished once never reaches. The `Option` only
/// carries the `io::Result` of the encoder's interface.
#[verifier::external_body]
fn gzip(data: &[u8]) -> (r: Option<Vec<u8>>)
    ensures
        r is Some,
        r matches Some(v) ==> v@ == gzip_of(data@) && v@.len() >= 10 && v@.subrange(0, 10)
            == default_gzip_header(),
{
    let mut e = flate2::write::GzEncoder::new(Vec::new(), flate2::Compression::default());
    std::io::Write::write_all(&mut e, data).ok()?;
    e.finish().ok()
}

/// The contents of an old log file compressed for its `.log.gz` archive.
pub fn compress_log(contents: &[u8]) -> (r: Option<Vec<u8>>)
    ensures
        r is Some,
        r matches Some(v) ==> v@ == gzip_of(contents@) && v@.len() >= 10 && v@.subrange(0, 10)
            == default_gzip_header(),
{
    gzip(contents)
}

} // verus!
