//! Formatting tests: duration rendering, number rendering, `HH:MM`
//! parsing, and the status projections on exact expected strings.

use trk::config::Config;
use trk::session::{EventType, Session};
use trk::timesheet::Timesheet;
use trk::util::{parse_hhmm_to_seconds, sec_to_hms_string, u64_to_string};

#[test]
fn numbers_render_in_decimal() {
    assert_eq!(u64_to_string(0), "0");
    assert_eq!(u64_to_string(7), "7");
    assert_eq!(u64_to_string(42), "42");
    assert_eq!(u64_to_string(1234567890), "1234567890");
    assert_eq!(u64_to_string(u64::MAX), "18446744073709551615");
}

#[test]
fn durations_render_for_people() {
    assert_eq!(sec_to_hms_string(1), "1 second");
    assert_eq!(sec_to_hms_string(0), "0 seconds");
    assert_eq!(sec_to_hms_string(45), "45 seconds");
    assert_eq!(sec_to_hms_string(60), "1 minute");
    assert_eq!(sec_to_hms_string(119), "1 minute");
    assert_eq!(sec_to_hms_string(120), "2 minutes");
    assert_eq!(sec_to_hms_string(3540), "59 minutes");
    assert_eq!(sec_to_hms_string(3600), "1 hour");
    // up to four minutes past the hour still reads as the bare hour
    assert_eq!(sec_to_hms_string(3600 + 4 * 60), "1 hour");
    assert_eq!(sec_to_hms_string(7200), "2 hours");
    // from 56 minutes on the hour count rounds up
    assert_eq!(sec_to_hms_string(3600 + 56 * 60), "2 hours");
    assert_eq!(sec_to_hms_string(7200 + 59 * 60), "3 hours");
    assert_eq!(sec_to_hms_string(3600 + 5 * 60), "1 hours and 5 minutes");
    assert_eq!(sec_to_hms_string(7200 + 30 * 60 + 59), "2 hours and 30 minutes");
}

#[test]
fn hhmm_parses_hours_and_minutes() {
    assert_eq!(parse_hhmm_to_seconds("1:30"), Some(5400));
    assert_eq!(parse_hhmm_to_seconds("0:0"), Some(0));
    assert_eq!(parse_hhmm_to_seconds("12:05"), Some(12 * 3600 + 5 * 60));
    assert_eq!(parse_hhmm_to_seconds("00:60"), Some(3600));
    // trailing characters after the minutes are ignored
    assert_eq!(parse_hhmm_to_seconds("1:2x"), Some(3720));
    assert_eq!(parse_hhmm_to_seconds("1:30:15"), Some(5400));
}

#[test]
fn hhmm_rejects_malformed_input() {
    assert_eq!(parse_hhmm_to_seconds(""), None);
    assert_eq!(parse_hhmm_to_seconds(":30"), None);
    assert_eq!(parse_hhmm_to_seconds("12"), None);
    assert_eq!(parse_hhmm_to_seconds("12:"), None);
    assert_eq!(parse_hhmm_to_seconds("a:b"), None);
    assert_eq!(parse_hhmm_to_seconds("12:x5"), None);
    assert_eq!(parse_hhmm_to_seconds("-1:30"), None);
    // a number too large for a signed 64-bit value fails the parse
    assert_eq!(parse_hhmm_to_seconds("99999999999999999999:0"), None);
    assert_eq!(parse_hhmm_to_seconds("0:99999999999999999999"), None);
    // a total beyond what u64 seconds can count is refused
    assert_eq!(parse_hhmm_to_seconds("9223372036854775807:0"), None);
}

#[test]
fn session_status_exact_text() {
    let mut s = Session::new(Some(100));
    assert!(s.push_event(Some(110), None, EventType::Pause));
    assert!(s.push_event(Some(130), None, EventType::Resume));
    assert!(s.finalize(Some(150)).is_ok());
    let status = s.status_at(200);
    assert_eq!(
        status,
        "Session running for 51 seconds.\n    Last event: Resume, 1 minute ago.\n    \
         Total work time:  31 seconds\n    Total pause time: 20 seconds\n"
    );
}

#[test]
fn session_status_mentions_pause_and_branches() {
    let mut s = Session::new(Some(100));
    s.add_branch(String::from("main"));
    s.add_branch(String::from("dev"));
    assert!(s.push_event(Some(110), None, EventType::Pause));
    let status = s.status_at(160);
    assert_eq!(
        status,
        "Session running for 1 minute.\n    Paused since 50 seconds.\nWorked on 2 branches: \
         main dev     Total work time:  10 seconds\n    Total pause time: 50 seconds\n"
    );
}

#[test]
fn session_status_without_events() {
    let s = Session::new(Some(100));
    let status = s.status_at(130);
    assert_eq!(
        status,
        "Session running for 30 seconds.\n    No events in this session yet!\n    \
         Total work time:  30 seconds\n    Total pause time: 0 seconds\n"
    );
}

#[test]
fn timesheet_status_exact_text() {
    let t = Timesheet { start: 0, end: 0, config: Config::new(), sessions: Vec::new() };
    assert_eq!(t.timesheet_status_at(3600), "Sheet running for 1 hour\nNo sessions yet.\n");
    assert_eq!(t.last_session_status_at(3600), "No session yet.");
}

#[test]
fn timesheet_status_shows_last_session() {
    let mut t = Timesheet { start: 500, end: 500, config: Config::new(), sessions: Vec::new() };
    assert_eq!(t.new_session(Some(1000)), Ok(true));
    assert_eq!(t.end_session(Some(1100)), Ok(true));
    let status = t.timesheet_status_at(1200);
    assert_eq!(
        status,
        "Sheet running for 11 minutes\n1 session(s) so far.\nLast session:\n\
         Session running for 1 minute.\n    No events in this session yet!\n    \
         Total work time:  1 minute\n    Total pause time: 0 seconds\n"
    );
    assert_eq!(t.last_session_status_at(1200), t.sessions[0].status_at(1200));
}

#[test]
fn commit_event_reads_with_its_hash() {
    let mut s = Session::new(Some(100));
    assert!(s.push_event_at(
        None,
        Some(String::from("msg")),
        EventType::Commit { hash: String::from("abc") },
        150,
    ));
    let status = s.status_at(160);
    assert!(status.contains("Last event: Commit abc, 10 seconds ago."));
}
