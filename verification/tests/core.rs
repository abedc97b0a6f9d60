use watchdog::bytes::{contains_bytes, normalize_name, split_bytes, COMMA};
use watchdog::config::{build_watch_specs, ConfigError, RestartPolicy, WatchSpec};
use watchdog::monitor::{
    initial_state, matches_any, on_line, on_stream_error, LineAction, StreamErrorAction,
};

fn bv(s: &str) -> Vec<u8> {
    s.as_bytes().to_vec()
}

fn spec_one(pattern: &str, skip_first: bool, policy: RestartPolicy) -> WatchSpec {
    WatchSpec {
        watch_name: bv("web"),
        restart_targets: vec![bv("web")],
        patterns: vec![bv(pattern)],
        skip_first,
        policy,
    }
}

#[test]
fn contains_finds_pattern() {
    assert!(contains_bytes(b"OOM killed process", b"OOM"));
    assert!(contains_bytes(b"prefix OOM suffix", b"OOM"));
    assert!(contains_bytes(b"ends with OOM", b"OOM"));
    assert!(!contains_bytes(b"nothing here", b"OOM"));
    assert!(!contains_bytes(b"OO", b"OOM"));
}

#[test]
fn contains_empty_pattern_matches_everything() {
    assert!(contains_bytes(b"", b""));
    assert!(contains_bytes(b"anything", b""));
}

#[test]
fn normalize_strips_leading_separators() {
    assert_eq!(normalize_name(b"/web"), bv("web"));
    assert_eq!(normalize_name(b"//web"), bv("web"));
    assert_eq!(normalize_name(b"web"), bv("web"));
    assert_eq!(normalize_name(b""), bv(""));
    assert_eq!(normalize_name(b"/a/b"), bv("a/b"));
}

#[test]
fn split_on_commas() {
    assert_eq!(split_bytes(b"a,b", COMMA), vec![bv("a"), bv("b")]);
    assert_eq!(split_bytes(b"a,,b", COMMA), vec![bv("a"), bv(""), bv("b")]);
    assert_eq!(split_bytes(b"", COMMA), vec![bv("")]);
    assert_eq!(split_bytes(b"abc", COMMA), vec![bv("abc")]);
    assert_eq!(split_bytes(b"a,b,c", COMMA), vec![bv("a"), bv("b"), bv("c")]);
}

#[test]
fn config_cardinality_mismatch_is_fatal() {
    let r = build_watch_specs(
        &vec![bv("web"), bv("db")],
        &vec![bv("web")],
        &vec![bv("OOM"), bv("panic")],
        &vec![false, true],
    );
    assert_eq!(r.unwrap_err(), ConfigError::CardinalityMismatch);
}

#[test]
fn config_empty_watch_name_is_fatal() {
    let r = build_watch_specs(&vec![bv("")], &vec![bv("web")], &vec![bv("OOM")], &vec![false]);
    assert_eq!(r.unwrap_err(), ConfigError::EmptyField);
}

#[test]
fn config_empty_pattern_piece_is_fatal() {
    let r = build_watch_specs(&vec![bv("web")], &vec![bv("web")], &vec![bv("OOM,")], &vec![false]);
    assert_eq!(r.unwrap_err(), ConfigError::EmptyField);
}

#[test]
fn config_empty_target_piece_is_fatal() {
    let r = build_watch_specs(&vec![bv("web")], &vec![bv(",web")], &vec![bv("OOM")], &vec![false]);
    assert_eq!(r.unwrap_err(), ConfigError::EmptyField);
}

#[test]
fn config_builds_watch_specs() {
    let r = build_watch_specs(
        &vec![bv("web"), bv("db")],
        &vec![bv("web,cache"), bv("db")],
        &vec![bv("OOM"), bv("panic,fatal")],
        &vec![false, true],
    )
    .unwrap();
    assert_eq!(r.len(), 2);
    assert_eq!(r[0].watch_name, bv("web"));
    assert_eq!(r[0].restart_targets, vec![bv("web"), bv("cache")]);
    assert_eq!(r[0].patterns, vec![bv("OOM")]);
    assert!(!r[0].skip_first);
    assert_eq!(r[0].policy, RestartPolicy::Debounced);
    assert_eq!(r[1].watch_name, bv("db"));
    assert_eq!(r[1].restart_targets, vec![bv("db")]);
    assert_eq!(r[1].patterns, vec![bv("panic"), bv("fatal")]);
    assert!(r[1].skip_first);
}

#[test]
fn clock_reading_is_a_valid_cursor() {
    let t = watchdog::now();
    assert!(t >= 0);
}

#[test]
fn initial_state_is_fresh() {
    let st = initial_state(1000);
    assert!(!st.first_occurrence_seen);
    assert_eq!(st.since, 990);
}

#[test]
fn no_debounce_first_match_restarts_once() {
    let w = spec_one("OOM", false, RestartPolicy::Debounced);
    let mut st = initial_state(1000);
    assert_eq!(on_line(&w, &mut st, b"all quiet", 1001), LineAction::Continue);
    assert_eq!(on_line(&w, &mut st, b"OOM killed process", 1002), LineAction::Restart);
    assert_eq!(st.since, 1002);
}

#[test]
fn debounce_skips_first_match_only() {
    let w = spec_one("OOM", true, RestartPolicy::Debounced);
    let mut st = initial_state(1000);
    assert_eq!(on_line(&w, &mut st, b"OOM once", 1001), LineAction::Continue);
    assert!(st.first_occurrence_seen);
    assert_eq!(st.since, 990);
    assert_eq!(on_line(&w, &mut st, b"OOM twice", 1002), LineAction::Restart);
    assert_eq!(st.since, 1002);
    assert_eq!(on_line(&w, &mut st, b"OOM thrice", 1003), LineAction::Restart);
    assert_eq!(st.since, 1003);
}

#[test]
fn debounce_flag_ignores_non_matching_lines() {
    let w = spec_one("OOM", true, RestartPolicy::Debounced);
    let mut st = initial_state(1000);
    assert_eq!(on_line(&w, &mut st, b"all quiet", 1001), LineAction::Continue);
    assert!(!st.first_occurrence_seen);
    assert_eq!(on_line(&w, &mut st, b"OOM once", 1002), LineAction::Continue);
    assert_eq!(on_line(&w, &mut st, b"OOM twice", 1003), LineAction::Restart);
}

#[test]
fn single_shot_restarts_and_stops() {
    let w = spec_one("OOM", false, RestartPolicy::SingleShot);
    let mut st = initial_state(1000);
    assert_eq!(on_line(&w, &mut st, b"OOM", 1001), LineAction::RestartAndStop);
}

#[test]
fn multiple_patterns_any_matches() {
    let mut w = spec_one("OOM", false, RestartPolicy::Debounced);
    w.patterns = vec![bv("OOM"), bv("panic")];
    assert!(matches_any(&w, b"kernel panic ahead"));
    assert!(matches_any(&w, b"OOM killer"));
    assert!(!matches_any(&w, b"all good"));
}

#[test]
fn stream_error_reopen_or_stop_follows_policy() {
    let w = spec_one("OOM", false, RestartPolicy::Debounced);
    assert_eq!(on_stream_error(&w), StreamErrorAction::Reopen);
    let w2 = spec_one("OOM", false, RestartPolicy::SingleShot);
    assert_eq!(on_stream_error(&w2), StreamErrorAction::Stop);
}
