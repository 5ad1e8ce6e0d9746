//! Session-level tests: the event state machine, timestamp validity, and
//! time accounting on concrete values.

use trk::session::{EventType, Session};

fn session_at(start: u64) -> Session {
    Session::new(Some(start))
}

#[test]
fn new_session_fields() {
    let s = session_at(5);
    assert_eq!(s.start, 5);
    assert_eq!(s.end, 6);
    assert!(s.is_running());
    assert!(!s.is_paused());
    assert_eq!(s.events.len(), 0);
    assert_eq!(s.branches.len(), 0);
}

#[test]
fn monotonic_explicit_accept_reject() {
    let mut s = session_at(100);
    // first event must lie strictly after the start
    assert!(!s.push_event(Some(100), None, EventType::Pause));
    assert_eq!(s.events.len(), 0);
    assert!(s.push_event(Some(150), None, EventType::Pause));
    assert_eq!(s.events.len(), 1);
    assert_eq!(s.events[0].timestamp, 150);
    // an equal timestamp is rejected and the log is unchanged
    assert!(!s.push_event(Some(150), None, EventType::Resume));
    assert_eq!(s.events.len(), 1);
    // a backdated timestamp is rejected and the log is unchanged
    assert!(!s.push_event(Some(140), None, EventType::Resume));
    assert_eq!(s.events.len(), 1);
    // strictly later is accepted
    assert!(s.push_event(Some(151), None, EventType::Resume));
    assert_eq!(s.events.len(), 2);
    assert_eq!(s.events[1].timestamp, 151);
}

#[test]
fn pause_resume_alternation() {
    let mut s = session_at(100);
    assert!(s.push_event(Some(110), None, EventType::Pause));
    // pausing while paused is refused
    assert!(!s.push_event(Some(120), None, EventType::Pause));
    assert_eq!(s.events.len(), 1);
    assert!(s.push_event(Some(130), None, EventType::Resume));
    // resuming while not paused is refused
    assert!(!s.push_event(Some(140), None, EventType::Resume));
    assert_eq!(s.events.len(), 2);
    assert!(s.push_event(Some(150), None, EventType::Pause));
    // the pause/resume tags strictly alternate, starting with a pause
    let tags: Vec<&str> = s
        .events
        .iter()
        .filter_map(|e| match e.ev_ty {
            EventType::Pause => Some("p"),
            EventType::Resume => Some("r"),
            _ => None,
        })
        .collect();
    assert_eq!(tags, vec!["p", "r", "p"]);
}

#[test]
fn finalize_then_push_is_refused() {
    let mut s = session_at(100);
    assert!(s.push_event(Some(110), None, EventType::Pause));
    assert!(s.push_event(Some(130), None, EventType::Resume));
    assert!(s.finalize(Some(200)).is_ok());
    assert!(!s.is_running());
    assert_eq!(s.end, 201);
    let before = s.events.len();
    assert!(!s.push_event(Some(300), Some(String::from("x")), EventType::Note));
    assert!(!s.push_event(Some(300), None, EventType::Pause));
    assert_eq!(s.events.len(), before);
    assert_eq!(s.end, 201);
}

#[test]
fn finalize_auto_resumes_open_pause() {
    let mut s = session_at(100);
    assert!(s.push_event(Some(110), None, EventType::Pause));
    assert!(s.finalize(Some(150)).is_ok());
    assert!(!s.is_running());
    assert!(!s.is_paused());
    assert_eq!(s.events.len(), 2);
    assert!(matches!(s.events[1].ev_ty, EventType::Resume));
    assert_eq!(s.events[1].timestamp, 150);
    assert_eq!(s.end, 151);
}

#[test]
fn finalize_backdated_is_fatal_and_changes_nothing() {
    let mut s = session_at(100);
    assert!(s.push_event(Some(110), None, EventType::Pause));
    let r = s.finalize(Some(105));
    assert!(r.is_err());
    assert_eq!(r, Err(trk::FatalError::InvalidTimestamp));
    assert!(s.is_running());
    assert!(s.is_paused());
    assert_eq!(s.events.len(), 1);
}

#[test]
fn time_conservation_on_finalized_session() {
    let mut s = session_at(100);
    assert!(s.push_event(Some(110), None, EventType::Pause));
    assert!(s.push_event(Some(130), None, EventType::Resume));
    assert!(s.finalize(Some(150)).is_ok());
    assert_eq!(s.end, 151);
    let pause = s.pause_time();
    let work = s.work_time();
    assert_eq!(pause, 20);
    assert_eq!(work, 31);
    assert_eq!(work + pause, s.end - s.start);
    assert_eq!(s.working_time(), work);
}

#[test]
fn pause_time_sums_closed_intervals() {
    let mut s = session_at(1000);
    assert!(s.push_event(Some(1010), None, EventType::Pause));
    assert!(s.push_event(Some(1025), None, EventType::Resume));
    assert!(s.push_event(Some(1100), None, EventType::Pause));
    assert!(s.push_event(Some(1107), None, EventType::Resume));
    assert_eq!(s.pause_time(), 22);
    assert_eq!(s.pause_time_at(2000), 22);
    // while paused, the open pause counts up to the clock
    assert!(s.push_event(Some(1200), None, EventType::Pause));
    assert_eq!(s.pause_time_at(1230), 52);
    assert_eq!(s.work_time_at(1230), 1230 - 1000 - 52);
}

#[test]
fn note_merges_into_open_pause() {
    let mut s = session_at(100);
    assert!(s.push_event(Some(110), Some(String::from("lunch")), EventType::Pause));
    assert!(s.push_event(Some(120), Some(String::from("msg")), EventType::Note));
    // no new event: the open pause absorbed the note
    assert_eq!(s.events.len(), 1);
    assert_eq!(s.events[0].note.as_deref(), Some("lunch<br>msg"));
    assert_eq!(s.end, 121);
    assert!(s.push_event(Some(130), None, EventType::Resume));
    assert!(s.push_event(Some(140), Some(String::from("n2")), EventType::Note));
    assert_eq!(s.events.len(), 3);
    assert!(matches!(s.events[2].ev_ty, EventType::Note));
    assert_eq!(s.events[2].note.as_deref(), Some("n2"));
}

#[test]
fn note_fills_empty_pause_note() {
    let mut s = session_at(100);
    assert!(s.push_event(Some(110), None, EventType::Pause));
    assert!(s.push_event(Some(120), Some(String::from("msg")), EventType::Note));
    assert_eq!(s.events.len(), 1);
    assert_eq!(s.events[0].note.as_deref(), Some("msg"));
}

#[test]
fn commit_auto_resumes_when_paused() {
    let mut s = session_at(100);
    assert!(s.push_event(Some(110), None, EventType::Pause));
    let r = s.push_event_at(
        None,
        Some(String::from("fix build")),
        EventType::Commit { hash: String::from("abc123") },
        200,
    );
    assert!(r);
    assert_eq!(s.events.len(), 3);
    assert!(matches!(s.events[1].ev_ty, EventType::Resume));
    assert_eq!(s.events[1].timestamp, 200);
    assert!(matches!(s.events[2].ev_ty, EventType::Commit { ref hash } if hash == "abc123"));
    assert_eq!(s.events[2].timestamp, 200);
    assert_eq!(s.events[2].note.as_deref(), Some("fix build"));
}

#[test]
fn implicit_timestamp_may_equal_last_event() {
    let mut s = session_at(100);
    assert!(s.push_event_at(None, None, EventType::Pause, 100));
    assert_eq!(s.events.len(), 1);
    assert_eq!(s.events[0].timestamp, 100);
    assert_eq!(s.end, 100);
    assert!(s.push_event_at(None, None, EventType::Resume, 100));
    assert_eq!(s.events[1].timestamp, 100);
}

#[test]
fn implicit_timestamp_before_log_is_refused() {
    let mut s = session_at(100);
    assert!(!s.push_event_at(None, None, EventType::Pause, 99));
    assert_eq!(s.events.len(), 0);
    assert_eq!(s.end, 101);
}

#[test]
fn update_end_follows_last_event() {
    let mut s = session_at(100);
    s.update_end();
    assert_eq!(s.end, 101);
    assert!(s.push_event(Some(130), None, EventType::Pause));
    s.update_end();
    assert_eq!(s.end, 131);
}

#[test]
fn check_wf_accepts_api_built_sessions() {
    let mut s = session_at(100);
    assert!(s.check_wf());
    assert!(s.push_event(Some(110), Some(String::from("lunch")), EventType::Pause));
    assert!(s.push_event(Some(130), None, EventType::Resume));
    s.add_branch(String::from("main"));
    assert!(s.check_wf());
    assert!(s.finalize(Some(150)).is_ok());
    assert!(s.check_wf());
}

#[test]
fn check_wf_rejects_corrupt_state() {
    // a backdated event smuggled past the API
    let mut s = session_at(100);
    assert!(s.push_event(Some(110), None, EventType::Pause));
    assert!(s.push_event(Some(130), None, EventType::Resume));
    s.events[0].timestamp = 200;
    assert!(!s.check_wf());

    // two pauses in a row
    let mut s = session_at(100);
    assert!(s.push_event(Some(110), None, EventType::Pause));
    assert!(s.push_event(Some(130), None, EventType::Resume));
    s.events[1].ev_ty = EventType::Pause;
    s.events.push(trk::session::Event {
        timestamp: 140,
        note: None,
        ev_ty: EventType::Pause,
    });
    assert!(!s.check_wf());

    // a finalized session still marked paused
    let mut s = session_at(100);
    assert!(s.push_event(Some(110), None, EventType::Pause));
    s.running = false;
    assert!(!s.check_wf());

    // duplicate branch names
    let mut s = session_at(100);
    s.add_branch(String::from("main"));
    s.branches.push(String::from("main"));
    assert!(!s.check_wf());
}

#[test]
fn largest_timestamp_cannot_stamp_an_event() {
    // an end timestamp one past the event must still fit u64
    let mut s = session_at(100);
    assert!(!s.push_event(Some(u64::MAX), None, EventType::Pause));
    assert_eq!(s.events.len(), 0);
    assert!(s.finalize(Some(u64::MAX)).is_err());
    assert!(s.is_running());
    assert!(s.push_event(Some(u64::MAX - 1), None, EventType::Pause));
    assert_eq!(s.end, u64::MAX);
}

#[test]
fn add_branch_deduplicates() {
    let mut s = session_at(100);
    s.add_branch(String::from("main"));
    s.add_branch(String::from("dev"));
    s.add_branch(String::from("main"));
    assert_eq!(s.branches, vec![String::from("main"), String::from("dev")]);
    assert!(s.finalize(Some(200)).is_ok());
    s.add_branch(String::from("late"));
    assert_eq!(s.branches.len(), 2);
}
