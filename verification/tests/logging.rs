use librojo::logging::{file_log_level, file_log_level_from_lowercase, parse_roblox_log, LogLevel};

#[test]
fn parse_roblox_log_rojo_trace() {
    let (level, msg) = parse_roblox_log("[Rojo-Trace] snapshot started", 0);
    assert_eq!(level, LogLevel::Trace);
    assert_eq!(msg, "[Rojo] snapshot started");
}

#[test]
fn parse_roblox_log_rojo_debug() {
    let (level, msg) = parse_roblox_log("[Rojo-Debug] loading project", 0);
    assert_eq!(level, LogLevel::Debug);
    assert_eq!(msg, "[Rojo] loading project");
}

#[test]
fn parse_roblox_log_rojo_info() {
    let (level, msg) = parse_roblox_log("[Rojo-Info] connected to server", 0);
    assert_eq!(level, LogLevel::Info);
    assert_eq!(msg, "[Rojo] connected to server");
}

#[test]
fn parse_roblox_log_rojo_warn() {
    let (level, msg) = parse_roblox_log("[Rojo-Warn] something fishy", 0);
    assert_eq!(level, LogLevel::Warn);
    assert_eq!(msg, "[Rojo] something fishy");
}

#[test]
fn parse_roblox_log_game_print() {
    let (level, msg) = parse_roblox_log("hello from game", 0);
    assert_eq!(level, LogLevel::Info);
    assert_eq!(msg, "hello from game");
}

#[test]
fn parse_roblox_log_game_warn() {
    let (level, msg) = parse_roblox_log("something wrong", 2);
    assert_eq!(level, LogLevel::Warn);
    assert_eq!(msg, "something wrong");
}

#[test]
fn parse_roblox_log_game_error() {
    let (level, msg) = parse_roblox_log("crash!", 3);
    assert_eq!(level, LogLevel::Error);
    assert_eq!(msg, "crash!");
}

#[test]
fn parse_roblox_log_message_info_type() {
    let (level, msg) = parse_roblox_log("info message", 1);
    assert_eq!(level, LogLevel::Info);
    assert_eq!(msg, "info message");
}

#[test]
fn parse_roblox_log_unknown_message_type() {
    let (level, msg) = parse_roblox_log("weird type", 99);
    assert_eq!(level, LogLevel::Info);
    assert_eq!(msg, "weird type");
}

#[test]
fn parse_roblox_log_partial_prefix_not_stripped() {
    let (level, msg) = parse_roblox_log("[Rojo-Trace]no space", 0);
    assert_eq!(level, LogLevel::Info);
    assert_eq!(msg, "[Rojo-Trace]no space");
}

#[test]
fn parse_roblox_log_empty_message_after_prefix() {
    let (level, msg) = parse_roblox_log("[Rojo-Info] ", 0);
    assert_eq!(level, LogLevel::Info);
    assert_eq!(msg, "[Rojo] ");
}

#[test]
fn file_log_level_names() {
    assert_eq!(file_log_level_from_lowercase("none"), None);
    assert_eq!(file_log_level_from_lowercase("off"), None);
    assert_eq!(file_log_level_from_lowercase("error"), Some(LogLevel::Error));
    assert_eq!(file_log_level_from_lowercase("warn"), Some(LogLevel::Warn));
    assert_eq!(file_log_level_from_lowercase("info"), Some(LogLevel::Info));
    assert_eq!(file_log_level_from_lowercase("debug"), Some(LogLevel::Debug));
    assert_eq!(file_log_level_from_lowercase("trace"), Some(LogLevel::Trace));
    assert_eq!(file_log_level_from_lowercase("verbose"), Some(LogLevel::Trace));
}

#[test]
fn file_log_level_ignores_case() {
    assert_eq!(file_log_level("DEBUG"), Some(LogLevel::Debug));
    assert_eq!(file_log_level("Off"), None);
    assert_eq!(file_log_level("WaRn"), Some(LogLevel::Warn));
    assert_eq!(file_log_level_from_lowercase("DEBUG"), Some(LogLevel::Trace));
}

#[test]
fn parse_roblox_log_rojo_error_prefix_is_not_a_level() {
    let (level, msg) = parse_roblox_log("[Rojo-Error] boom", 3);
    assert_eq!(level, LogLevel::Error);
    assert_eq!(msg, "[Rojo-Error] boom");
}
