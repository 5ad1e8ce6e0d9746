//! Timesheet-level tests: session sequencing, delegation to the last
//! session, the one-open-session rule, and commit auto-opening.

use trk::session::EventType;
use trk::timesheet::Timesheet;
use trk::FatalError;

fn sheet() -> Timesheet {
    Timesheet::init(Some(String::from("Alice"))).expect("owner given")
}

#[test]
fn init_requires_an_owner() {
    assert!(Timesheet::init(None).is_none());
    assert!(Timesheet::init(Some(String::new())).is_none());
    let t = sheet();
    assert_eq!(t.config.user_name.as_deref(), Some("Alice"));
    assert!(t.config.show_commits);
    assert!(t.config.repository.is_none());
    assert_eq!(t.sessions.len(), 0);
    assert_eq!(t.start, t.end);
}

#[test]
fn one_open_session() {
    let mut t = sheet();
    t.start = 500;
    assert_eq!(t.new_session(Some(1000)), Ok(true));
    assert_eq!(t.sessions.len(), 1);
    // the last session still runs: refused, nothing appended
    assert_eq!(t.new_session(Some(2000)), Ok(false));
    assert_eq!(t.new_session(None), Ok(false));
    assert_eq!(t.sessions.len(), 1);
}

#[test]
fn new_session_validates_against_sheet_start() {
    let mut t = sheet();
    t.start = 500;
    assert_eq!(t.new_session(Some(500)), Err(FatalError::InvalidTimestamp));
    assert_eq!(t.sessions.len(), 0);
    assert_eq!(t.new_session(Some(501)), Ok(true));
    assert_eq!(t.sessions[0].start, 501);
    assert_eq!(t.sessions[0].end, 502);
}

#[test]
fn backdated_new_session_is_fatal_and_appends_nothing() {
    let mut t = sheet();
    t.start = 500;
    assert_eq!(t.new_session(Some(1000)), Ok(true));
    assert_eq!(t.end_session(Some(2000)), Ok(true));
    assert_eq!(t.sessions[0].end, 2001);
    // the next explicit start must lie strictly after the previous end
    assert_eq!(t.new_session(Some(2001)), Err(FatalError::InvalidTimestamp));
    assert_eq!(t.sessions.len(), 1);
    assert_eq!(t.new_session(Some(2002)), Ok(true));
    assert_eq!(t.sessions.len(), 2);
}

#[test]
fn largest_timestamp_cannot_start_a_session() {
    let mut t = sheet();
    t.start = 500;
    assert_eq!(t.new_session(Some(u64::MAX)), Err(FatalError::InvalidTimestamp));
    assert_eq!(t.sessions.len(), 0);
}

#[test]
fn end_session_updates_sheet_end() {
    let mut t = sheet();
    t.start = 500;
    assert_eq!(t.new_session(Some(1000)), Ok(true));
    assert!(t.pause(Some(1100), None));
    assert!(t.resume(Some(1160)));
    assert_eq!(t.end_session(Some(1300)), Ok(true));
    assert!(!t.sessions[0].is_running());
    assert_eq!(t.sessions[0].end, 1301);
    assert_eq!(t.end, 1302);
}

#[test]
fn end_session_without_session_reports() {
    let mut t = sheet();
    assert_eq!(t.end_session(None), Ok(false));
    assert_eq!(t.end_session(Some(1000)), Ok(false));
}

#[test]
fn end_session_backdated_is_fatal_and_changes_nothing() {
    let mut t = sheet();
    t.start = 500;
    assert_eq!(t.new_session(Some(1000)), Ok(true));
    assert!(t.pause(Some(1100), None));
    let before_end = t.end;
    assert_eq!(t.end_session(Some(1050)), Err(FatalError::InvalidTimestamp));
    assert!(t.sessions[0].is_running());
    assert!(t.sessions[0].is_paused());
    assert_eq!(t.sessions[0].events.len(), 1);
    assert_eq!(t.end, before_end);
}

#[test]
fn delegations_without_session_report_false() {
    let mut t = sheet();
    assert!(!t.pause(Some(1000), None));
    assert!(!t.resume(Some(1000)));
    assert!(!t.note(Some(1000), String::from("n")));
    assert_eq!(t.sessions.len(), 0);
}

#[test]
fn pause_twice_second_fails() {
    let mut t = sheet();
    t.start = 500;
    assert_eq!(t.new_session(None), Ok(true));
    assert!(t.pause(None, None));
    let len_after_first = t.sessions[0].events.len();
    assert_eq!(len_after_first, 1);
    assert!(!t.pause(None, None));
    assert_eq!(t.sessions[0].events.len(), len_after_first);
}

#[test]
fn resume_while_not_paused_fails() {
    let mut t = sheet();
    t.start = 500;
    assert_eq!(t.new_session(Some(1000)), Ok(true));
    assert!(!t.resume(Some(1100)));
    assert_eq!(t.sessions[0].events.len(), 0);
}

#[test]
fn commit_auto_opens_empty_sheet() {
    let mut t = sheet();
    assert!(t.add_commit(String::from("deadbeef"), Some(String::from("a message"))));
    assert_eq!(t.sessions.len(), 1);
    let s = &t.sessions[0];
    assert!(s.is_running());
    assert_eq!(s.events.len(), 1);
    assert!(matches!(s.events[0].ev_ty, EventType::Commit { ref hash } if hash == "deadbeef"));
    assert_eq!(s.events[0].note.as_deref(), Some("a message"));
    assert_eq!(s.start, s.events[0].timestamp);
}

#[test]
fn commit_auto_opens_after_finalized_session() {
    let mut t = sheet();
    t.start = 500;
    assert_eq!(t.new_session(Some(1000)), Ok(true));
    assert_eq!(t.end_session(Some(2000)), Ok(true));
    assert!(t.add_commit(String::from("cafe"), None));
    assert_eq!(t.sessions.len(), 2);
    let s = &t.sessions[1];
    assert_eq!(s.events.len(), 1);
    assert!(matches!(s.events[0].ev_ty, EventType::Commit { ref hash } if hash == "cafe"));
    // a missing commit message degrades to an empty note
    assert_eq!(s.events[0].note.as_deref(), Some(""));
}

#[test]
fn commit_lands_in_open_session() {
    let mut t = sheet();
    t.start = 500;
    assert_eq!(t.new_session(Some(1000)), Ok(true));
    assert!(t.add_commit(String::from("beef"), Some(String::from("m"))));
    assert_eq!(t.sessions.len(), 1);
    assert_eq!(t.sessions[0].events.len(), 1);
}

#[test]
fn scenario_work_and_pause_partition_elapsed() {
    let mut t = sheet();
    t.start = 500;
    assert_eq!(t.new_session(Some(1000)), Ok(true));
    assert!(t.pause(Some(1100), Some(String::from("lunch"))));
    assert!(t.resume(Some(1160)));
    assert_eq!(t.end_session(Some(1300)), Ok(true));
    let s = &t.sessions[0];
    assert!(!s.is_running());
    let pause = t.pause_time();
    let work = t.work_time();
    assert!(pause > 0);
    assert_eq!(pause, 60);
    let elapsed = s.end - s.start;
    assert_eq!(work, elapsed - pause);
    assert_eq!(t.working_time(), work);
}

#[test]
fn sums_span_all_sessions() {
    let mut t = sheet();
    t.start = 500;
    assert_eq!(t.new_session(Some(1000)), Ok(true));
    assert!(t.pause(Some(1010), None));
    assert!(t.resume(Some(1020)));
    assert_eq!(t.end_session(Some(1100)), Ok(true));
    assert_eq!(t.new_session(Some(2000)), Ok(true));
    assert!(t.pause(Some(2050), None));
    assert!(t.resume(Some(2070)));
    assert_eq!(t.end_session(Some(2100)), Ok(true));
    assert_eq!(t.pause_time(), 10 + 20);
    // each finalized session accounts (end - start) - closed pauses
    assert_eq!(t.work_time(), (1101 - 1000 - 10) + (2101 - 2000 - 20));
    assert_eq!(t.pause_time_at(9999), 30);
}

#[test]
fn add_branch_reaches_last_session() {
    let mut t = sheet();
    t.add_branch(String::from("main"));
    assert_eq!(t.sessions.len(), 0);
    t.start = 500;
    assert_eq!(t.new_session(Some(1000)), Ok(true));
    t.add_branch(String::from("main"));
    t.branch(String::from("dev"));
    t.add_branch(String::from("main"));
    assert_eq!(t.sessions[0].branches, vec![String::from("main"), String::from("dev")]);
}

#[test]
fn configuration_setters() {
    let mut t = sheet();
    t.show_commits(false);
    assert!(!t.config.show_commits);
    t.show_commits(true);
    assert!(t.config.show_commits);
    t.set_repo_url(String::from("https://example.org/repo"));
    assert_eq!(t.config.repository.as_deref(), Some("https://example.org/repo"));
    t.set_repo_url(String::new());
    assert!(t.config.repository.is_none());
}

#[test]
fn check_wf_guards_loaded_sheets() {
    let mut t = sheet();
    t.start = 500;
    assert!(t.check_wf());
    assert_eq!(t.new_session(Some(1000)), Ok(true));
    assert!(t.check_wf());
    // a second running session smuggled past the API
    t.sessions.push(trk::session::Session::new(Some(2000)));
    assert!(!t.check_wf());
}

#[test]
fn last_session_access() {
    let mut t = sheet();
    assert!(t.get_last_session().is_none());
    t.start = 500;
    assert_eq!(t.new_session(Some(1000)), Ok(true));
    let last = t.get_last_session().expect("one session");
    assert_eq!(last.start, 1000);
}
