//! The per-container log-scanning state machine. A Monitor Task owns one
//! `MonitorState` (its stream cursor and its debounce flag) and feeds every
//! log line through `on_line`, which decides whether the line is a match and
//! whether a match must trigger a restart of the entry's targets. The caller
//! performs the restart and the stream handling that each returned action
//! names; the decisions themselves are all made here.
use vstd::prelude::*;
use crate::bytes::contains_bytes;
use crate::bytes::contains_seq;
use crate::config::RestartPolicy;
use crate::config::WatchSpec;

verus! {

/// The state a Monitor Task carries between lines: whether the task has seen
/// a match yet, and the log-stream cursor in epoch seconds (lines older than
/// the cursor are not replayed when the stream reopens).
#[derive(Clone, Copy, Debug, PartialEq, Eq)]
pub struct MonitorState {
    pub first_occurrence_seen: bool,
    pub since: i64,
}

/// What the task must do after a line: keep reading, restart the targets and
/// reopen the stream at the advanced cursor, or restart once and stop.
#[derive(Clone, Copy, Debug, PartialEq, Eq)]
pub enum LineAction {
    Continue,
    Restart,
    RestartAndStop,
}

/// What the task must do after a failed stream read: reopen the stream or
/// end the task.
#[derive(Clone, Copy, Debug, PartialEq, Eq)]
pub enum StreamErrorAction {
    Reopen,
    Stop,
}

/// A line matches when it contains any of the entry's patterns.
pub open spec fn line_matches(w: WatchSpec, line: Seq<u8>) -> bool {
    exists|i: int| 0 <= i < w.patterns@.len() && contains_seq(line, w.patterns@[i]@)
}

/// A match triggers a restart unless the debounced policy's skip-first switch
/// is set and the task has not seen a match before.
pub open spec fn issues_restart(w: WatchSpec, st: MonitorState, line: Seq<u8>) -> bool {
    line_matches(w, line) && (w.policy is SingleShot || !w.skip_first
        || st.first_occurrence_seen)
}

/// The state after a line: a match records that an occurrence was seen, and
/// a restart advances the cursor to the moment the restart is issued.
pub open spec fn next_state(w: WatchSpec, st: MonitorState, line: Seq<u8>, now_ts: i64) -> MonitorState {
    if line_matches(w, line) {
        MonitorState {
            first_occurrence_seen: true,
            since: if issues_restart(w, st, line) {
                now_ts
            } else {
                st.since
            },
        }
    } else {
        st
    }
}

/// The state of a freshly started Monitor Task: no occurrence seen yet, and
/// a cursor a few seconds in the past so recent lines are not missed.
pub fn initial_state(now_ts: i64) -> (st: MonitorState)
    requires
        now_ts >= i64::MIN + 10,
    ensures
        !st.first_occurrence_seen,
        st.since == now_ts - 10,
{
    MonitorState { first_occurrence_seen: false, since: now_ts - 10 }
}

/// Whether `line` contains any of the entry's patterns.
pub fn matches_any(w: &WatchSpec, line: &[u8]) -> (r: bool)
    ensures
        r == line_matches(*w, line@),
{
    let mut i: usize = 0;
    while i < w.patterns.len()
        invariant
            i <= w.patterns@.len(),
            forall|k: int| 0 <= k < i ==> !contains_seq(line@, w.patterns@[k]@),
        decreases w.patterns@.len() - i,
    {
        if contains_bytes(line, w.patterns[i].as_slice()) {
            return true;
        }
        i += 1;
    }
    false
}

/// One step of the state machine: scans one log line, updates the task's
/// state, and says whether the entry's targets must be restarted now and
/// whether the task goes on afterwards.
pub fn on_line(w: &WatchSpec, state: &mut MonitorState, line: &[u8], now_ts: i64) -> (a:
    LineAction)
    ensures
        *final(state) == next_state(*w, *old(state), line@, now_ts),
        (a is Restart || a is RestartAndStop) == issues_restart(*w, *old(state), line@),
        a is RestartAndStop <==> (issues_restart(*w, *old(state), line@)
            && w.policy is SingleShot),
        a is Continue <==> !issues_restart(*w, *old(state), line@),
{
    if matches_any(w, line) {
        let fire = match w.policy {
            RestartPolicy::SingleShot => true,
            RestartPolicy::Debounced => !w.skip_first || state.first_occurrence_seen,
        };
        state.first_occurrence_seen = true;
        if fire {
            state.since = now_ts;
            match w.policy {
                RestartPolicy::SingleShot => LineAction::RestartAndStop,
                RestartPolicy::Debounced => LineAction::Restart,
            }
        } else {
            LineAction::Continue
        }
    } else {
        LineAction::Continue
    }
}

/// What to do when a stream read fails: the long-lived debounced policy
/// reopens the stream, the single-shot policy ends the task.
pub fn on_stream_error(w: &WatchSpec) -> (a: StreamErrorAction)
    ensures
        a is Reopen <==> w.policy is Debounced,
        a is Stop <==> w.policy is SingleShot,
{
    match w.policy {
        RestartPolicy::Debounced => StreamErrorAction::Reopen,
        RestartPolicy::SingleShot => StreamErrorAction::Stop,
    }
}

/// How many of `lines`, scanned in order from state `st`, issue a restart:
/// the fold of the very step the executable `on_line` is specified by. The
/// cursor plays no part in any decision, so one `now_ts` stands for them all.
pub open spec fn restart_count(w: WatchSpec, st: MonitorState, lines: Seq<Seq<u8>>, now_ts: i64) -> nat
    decreases lines.len(),
{
    if lines.len() == 0 {
        0
    } else {
        (if issues_restart(w, st, lines[0]) {
            1nat
        } else {
            0nat
        }) + restart_count(
            w,
            next_state(w, st, lines[0], now_ts),
            lines.subrange(1, lines.len() as int),
            now_ts,
        )
    }
}

/// A step's outcome in terms of the debounce flag: the flag afterwards
/// records exactly whether any match has been seen so far.
pub proof fn lemma_step_tracks_matches(w: WatchSpec, st: MonitorState, line: Seq<u8>, now_ts: i64)
    ensures
        next_state(w, st, line, now_ts).first_occurrence_seen == (st.first_occurrence_seen
            || line_matches(w, line)),
{
}

proof fn lemma_armed_counts_every_match(w: WatchSpec, st: MonitorState, lines: Seq<Seq<u8>>, now_ts: i64)
    requires
        st.first_occurrence_seen,
        forall|i: int| 0 <= i < lines.len() ==> line_matches(w, #[trigger] lines[i]),
    ensures
        restart_count(w, st, lines, now_ts) == lines.len(),
    decreases lines.len(),
{
    if lines.len() > 0 {
        let rest = lines.subrange(1, lines.len() as int);
        assert(forall|i: int| 0 <= i < rest.len() ==> line_matches(w, #[trigger] rest[i]));
        lemma_armed_counts_every_match(w, next_state(w, st, lines[0], now_ts), rest, now_ts);
    }
}

/// Debounce correctness: a freshly started debounced task with skip-first
/// set, fed only matching lines, issues a restart for exactly every match
/// after the first one.
pub proof fn lemma_debounce_skips_exactly_first(
    w: WatchSpec,
    st: MonitorState,
    lines: Seq<Seq<u8>>,
    now_ts: i64,
)
    requires
        w.policy is Debounced,
        w.skip_first,
        !st.first_occurrence_seen,
        lines.len() >= 1,
        forall|i: int| 0 <= i < lines.len() ==> line_matches(w, #[trigger] lines[i]),
    ensures
        restart_count(w, st, lines, now_ts) == lines.len() - 1,
{
    let rest = lines.subrange(1, lines.len() as int);
    assert(forall|i: int| 0 <= i < rest.len() ==> line_matches(w, #[trigger] rest[i]));
    lemma_armed_counts_every_match(w, next_state(w, st, lines[0], now_ts), rest, now_ts);
}

/// No debounce: with skip-first unset, any matching line issues a restart at
/// once, whatever the task has seen — a single matching line issues exactly
/// one restart.
pub proof fn lemma_first_match_restarts(w: WatchSpec, st: MonitorState, line: Seq<u8>, now_ts: i64)
    requires
        !w.skip_first,
    ensures
        issues_restart(w, st, line) == line_matches(w, line),
        line_matches(w, line) ==> restart_count(w, st, seq![line], now_ts) == 1,
{
    if line_matches(w, line) {
        assert(seq![line].subrange(1, 1) =~= Seq::<Seq<u8>>::empty());
        assert(restart_count(w, next_state(w, st, line, now_ts), Seq::<Seq<u8>>::empty(), now_ts)
            == 0);
    }
}

} // verus!
