//! The aggregate root: an ordered sequence of sessions plus sheet-level
//! metadata. All event mutation is delegated to the last session; at most
//! one session — the last — may be running at a time.

use crate::config::Config;
use crate::session::branch_added;
use crate::session::finalize_effect;
use crate::session::pause_sum;
use crate::session::push_effect;
use crate::session::push_evolves;
use crate::session::Event;
use crate::session::EventType;
use crate::session::Session;
use crate::util::get_seconds;
use crate::util::sec_to_hms_string;
use crate::util::spec_dec;
use crate::util::spec_elapsed;
use crate::util::spec_hms;
use crate::util::u64_to_string;
use crate::FatalError;
use vstd::prelude::*;

verus! {

/// Clamps an ideal (unbounded) total into `u64`.
pub open spec fn sat64(x: int) -> int {
    if x > u64::MAX {
        u64::MAX as int
    } else {
        x
    }
}

/// The sum of all sessions' pause times at wall-clock instant `now`.
pub open spec fn sheet_pause_sum(ss: Seq<Session>, now: u64) -> int
    decreases ss.len(),
{
    if ss.len() == 0 {
        0
    } else {
        sheet_pause_sum(ss.drop_last(), now) + ss.last().spec_pause_time(now)
    }
}

/// The sum of all sessions' work times at wall-clock instant `now`.
pub open spec fn sheet_work_sum(ss: Seq<Session>, now: u64) -> int
    decreases ss.len(),
{
    if ss.len() == 0 {
        0
    } else {
        sheet_work_sum(ss.drop_last(), now) + ss.last().spec_work_time(now)
    }
}

/// The pause total of a sheet whose sessions are all finalized: only the
/// closed pause intervals count, and the clock plays no part.
pub open spec fn sheet_pause_closed(ss: Seq<Session>) -> int
    decreases ss.len(),
{
    if ss.len() == 0 {
        0
    } else {
        sheet_pause_closed(ss.drop_last()) + pause_sum(ss.last().events@)
    }
}

/// The work total of a sheet whose sessions are all finalized.
pub open spec fn sheet_work_closed(ss: Seq<Session>) -> int
    decreases ss.len(),
{
    if ss.len() == 0 {
        0
    } else {
        sheet_work_closed(ss.drop_last()) + (ss.last().end - ss.last().start - pause_sum(
            ss.last().events@,
        ))
    }
}

/// On a sheet of finalized sessions the clock-dependent sums equal their
/// closed forms, whatever the clock reads.
pub proof fn lemma_sheet_sums_closed(ss: Seq<Session>, now: u64)
    requires
        forall|i: int| 0 <= i < ss.len() ==> (#[trigger] ss[i]).wf(),
        forall|i: int| 0 <= i < ss.len() ==> !(#[trigger] ss[i]).running,
    ensures
        sheet_pause_sum(ss, now) == sheet_pause_closed(ss),
        sheet_work_sum(ss, now) == sheet_work_closed(ss),
    decreases ss.len(),
{
    if ss.len() > 0 {
        let prev = ss.drop_last();
        assert(forall|i: int| 0 <= i < prev.len() ==> (#[trigger] prev[i]) == ss[i]);
        lemma_sheet_sums_closed(prev, now);
        assert(ss.last() == ss[ss.len() - 1]);
        assert(!ss.last().spec_is_paused());
    }
}

/// The full history of sessions for one owner, with the sheet's own span
/// and display configuration.
pub struct Timesheet {
    pub start: u64,
    pub end: u64,
    pub config: Config,
    pub sessions: Vec<Session>,
}

/// Sheet fields and all sessions but the last are untouched; the session
/// count is unchanged.
pub open spec fn delegated(pre: Timesheet, post: Timesheet) -> bool {
    &&& post.start == pre.start
    &&& post.end == pre.end
    &&& post.config == pre.config
    &&& post.sessions@.len() == pre.sessions@.len()
    &&& forall|i: int|
        0 <= i < pre.sessions@.len() - 1 ==> #[trigger] post.sessions@[i] == pre.sessions@[i]
}

/// `end_session` for a resolved timestamp `t`, on a sheet with at least one
/// session: an invalid timestamp — not strictly past the last session's
/// last event (or its start) — fails fatally with nothing changed at all;
/// otherwise the last session's end is first moved to one past its last
/// event, the session is finalized at `t`, and the sheet's end lands one
/// past the session's new end (clamped at `u64::MAX`).
pub open spec fn end_session_effect(
    pre: Timesheet,
    post: Timesheet,
    t: u64,
    res: Result<bool, FatalError>,
) -> bool {
    let s = pre.sessions@.last();
    let su = Session {
        end: if s.events@.len() == 0 {
            s.end
        } else {
            (s.events@.last().timestamp + 1) as u64
        },
        ..s
    };
    if !(s.last_bound() < t && t < u64::MAX) {
        post == pre && res == Err::<bool, FatalError>(FatalError::InvalidTimestamp)
    } else {
        &&& res == Ok::<bool, FatalError>(true)
        &&& post.start == pre.start
        &&& post.config == pre.config
        &&& post.sessions@.len() == pre.sessions@.len()
        &&& forall|i: int|
            0 <= i < pre.sessions@.len() - 1 ==> #[trigger] post.sessions@[i]
                == pre.sessions@[i]
        &&& finalize_effect(su, post.sessions@.last(), t, true)
        &&& post.end == if post.sessions@.last().end < u64::MAX {
            post.sessions@.last().end + 1
        } else {
            u64::MAX as int
        }
    }
}

/// What `msg` stands for: the supplied commit message, or the empty string
/// when the lookup produced none.
pub open spec fn msg_matches(message: Option<String>, msg: String) -> bool {
    match message {
        Some(m) => msg == m,
        None => msg@ == Seq::<char>::empty(),
    }
}

/// `add_commit` for a resolved wall-clock reading `now` and commit message
/// `msg`: with an open session the commit goes through its event machine
/// (auto-resuming an open pause); with none — no sessions, or the last one
/// finalized — exactly one fresh session is opened at `now` and the commit
/// is its sole event.
pub open spec fn commit_effect(
    pre: Timesheet,
    post: Timesheet,
    hash: String,
    message: Option<String>,
    now: u64,
    msg: String,
    r: bool,
) -> bool {
    &&& msg_matches(message, msg)
    &&& if pre.spec_has_open() {
        delegated(pre, post) && push_effect(
            pre.sessions@.last(),
            post.sessions@.last(),
            now,
            false,
            Some(msg),
            EventType::Commit { hash: hash },
            r,
        )
    } else if now == u64::MAX {
        post == pre && !r
    } else {
        &&& r
        &&& post.start == pre.start
        &&& post.end == pre.end
        &&& post.config == pre.config
        &&& post.sessions@.len() == pre.sessions@.len() + 1
        &&& forall|i: int|
            0 <= i < pre.sessions@.len() ==> #[trigger] post.sessions@[i] == pre.sessions@[i]
        &&& post.sessions@.last().running
        &&& post.sessions@.last().start == now
        &&& post.sessions@.last().end == now
        &&& post.sessions@.last().branches@.len() == 0
        &&& post.sessions@.last().events@ == seq![
            Event { timestamp: now, note: Some(msg), ev_ty: EventType::Commit { hash: hash } },
        ]
    }
}

/// A session just created: running, with an empty log and no branches.
pub open spec fn fresh_session(s: Session) -> bool {
    &&& s.wf()
    &&& s.running
    &&& s.events@.len() == 0
    &&& s.branches@.len() == 0
}

/// A fresh session was appended; everything already there is untouched.
pub open spec fn opened_new(pre: Timesheet, post: Timesheet) -> bool {
    &&& post.start == pre.start
    &&& post.end == pre.end
    &&& post.config == pre.config
    &&& post.sessions@.len() == pre.sessions@.len() + 1
    &&& forall|i: int|
        0 <= i < pre.sessions@.len() ==> #[trigger] post.sessions@[i] == pre.sessions@[i]
    &&& fresh_session(post.sessions@.last())
}

impl Timesheet {
    /// Well-formedness: every session is well-formed and only the last may
    /// still be running.
    pub open spec fn wf(self) -> bool {
        &&& forall|i: int| 0 <= i < self.sessions@.len() ==> (#[trigger] self.sessions@[i]).wf()
        &&& forall|i: int|
            0 <= i < self.sessions@.len() - 1 ==> !(#[trigger] self.sessions@[i]).running
    }

    /// Whether the sheet currently has an open (running) session.
    pub open spec fn spec_has_open(self) -> bool {
        self.sessions@.len() > 0 && self.sessions@.last().running
    }

    /// The boundary an explicitly timestamped new session must lie strictly
    /// after: the last session's end, or the sheet start if none exists.
    pub open spec fn session_bound(self) -> int {
        if self.sessions@.len() == 0 {
            self.start as int
        } else {
            self.sessions@.last().end as int
        }
    }

    /// Builds a fresh sheet for the given owner, stamped with the current
    /// wall-clock time. The owner name is required: with none, or an empty
    /// one, no sheet is produced. Whether a sheet already exists at the
    /// storage location is the caller's check, made before calling this.
    pub fn init(author_name: Option<String>) -> (res: Option<Timesheet>)
        ensures
            match author_name {
                None => res is None,
                Some(name) => if name@.len() == 0 {
                    res is None
                } else {
                    &&& res matches Some(sheet)
                    &&& sheet.wf()
                    &&& sheet.sessions@.len() == 0
                    &&& sheet.start == sheet.end
                    &&& sheet.config.show_commits
                    &&& sheet.config.repository is None
                    &&& sheet.config.user_name == Some(name)
                },
            },
    {
        match author_name {
            None => None,
            Some(name) => {
                if name.as_str().is_empty() {
                    None
                } else {
                    let now = get_seconds();
                    let mut config = Config::new();
                    config.user_name = Some(name);
                    Some(Timesheet { start: now, end: now, config, sessions: Vec::new() })
                }
            },
        }
    }

    /// Opens a new session. Refused — with nothing changed — while the last
    /// session still runs. An explicit start must lie strictly after the
    /// previous session's end (or the sheet start): violating that is the
    /// fatal validation error, and nothing is changed.
    pub fn new_session(&mut self, timestamp: Option<u64>) -> (res: Result<bool, FatalError>)
        requires
            old(self).wf(),
        ensures
            final (self).wf(),
            old(self).spec_has_open() ==> *final (self) == *old(self) && (res matches Ok(b)
                && !b),
            !old(self).spec_has_open() ==> match timestamp {
                Some(t) => if old(self).session_bound() < t && t < u64::MAX {
                    &&& res matches Ok(b) && b
                    &&& opened_new(*old(self), *final (self))
                    &&& final (self).sessions@.last().start == t
                    &&& final (self).sessions@.last().end == t + 1
                } else {
                    *final (self) == *old(self) && res == Err::<bool, FatalError>(
                        FatalError::InvalidTimestamp,
                    )
                },
                None => (res matches Ok(b) && b) && opened_new(*old(self), *final (self)),
            },
    {
        let n = self.sessions.len();
        if n > 0 && self.sessions[n - 1].is_running() {
            return Ok(false);
        }
        match timestamp {
            Some(t) => {
                let bound = if n == 0 {
                    self.start
                } else {
                    self.sessions[n - 1].end
                };
                if t > bound && t < u64::MAX {
                    self.sessions.push(Session::new(Some(t)));
                    Ok(true)
                } else {
                    Err(FatalError::InvalidTimestamp)
                }
            },
            None => {
                self.sessions.push(Session::new(None));
                Ok(true)
            },
        }
    }

    /// Finalizes the last session, at the given time or now, and moves the
    /// sheet's end past it. False — with nothing changed — when no session
    /// exists; an invalid timestamp is the fatal validation error and
    /// changes nothing, so no partial state can ever be persisted.
    pub fn end_session(&mut self, timestamp: Option<u64>) -> (res: Result<bool, FatalError>)
        requires
            old(self).wf(),
        ensures
            final (self).wf(),
            old(self).sessions@.len() == 0 ==> *final (self) == *old(self) && res == Ok::<
                bool,
                FatalError,
            >(false),
            old(self).sessions@.len() > 0 ==> match timestamp {
                Some(t) => end_session_effect(*old(self), *final (self), t, res),
                None => exists|nw: u64| end_session_effect(*old(self), *final (self), nw, res),
            },
    {
        let n = self.sessions.len();
        if n == 0 {
            return Ok(false);
        }
        let now = get_seconds();
        let t = match timestamp {
            Some(t0) => t0,
            None => now,
        };
        let m = self.sessions[n - 1].events.len();
        let lb = if m == 0 {
            self.sessions[n - 1].start
        } else {
            self.sessions[n - 1].events[m - 1].timestamp
        };
        if !(t > lb && t < u64::MAX) {
            proof {
                assert(end_session_effect(
                    *old(self),
                    *self,
                    t,
                    Err::<bool, FatalError>(FatalError::InvalidTimestamp),
                ));
            }
            return Err(FatalError::InvalidTimestamp);
        }
        let mut s = self.sessions.pop().unwrap();
        let ghost s0 = s;
        s.update_end();
        proof {
            assert(s == (Session {
                end: if s0.events@.len() == 0 {
                    s0.end
                } else {
                    (s0.events@.last().timestamp + 1) as u64
                },
                ..s0
            }));
        }
        let fin = s.finalize_at(timestamp, now);
        proof {
            assert(fin is Ok);
        }
        let new_end = if s.end < u64::MAX {
            s.end + 1
        } else {
            u64::MAX
        };
        self.sessions.push(s);
        self.end = new_end;
        proof {
            assert(end_session_effect(*old(self), *self, t, Ok::<bool, FatalError>(true)));
        }
        Ok(true)
    }

    /// Records a commit. With no open session one is first opened at the
    /// current wall-clock time, so a commit always finds a session to land
    /// in; the commit itself is stamped with the same reading (commits
    /// cannot be backdated), and its note carries the commit message the
    /// caller looked up, or stays empty when none was found.
    pub fn add_commit(&mut self, hash: String, message: Option<String>) -> (r: bool)
        requires
            old(self).wf(),
        ensures
            final (self).wf(),
            exists|nw: u64, m: String|
                commit_effect(*old(self), *final (self), hash, message, nw, m, r),
    {
        let now = get_seconds();
        let ghost ghash = hash;
        let n = self.sessions.len();
        let need_new = if n == 0 {
            true
        } else {
            !self.sessions[n - 1].is_running()
        };
        let msg = match message {
            Some(m) => m,
            None => String::new(),
        };
        let ghost gmsg = msg;
        if need_new {
            if now == u64::MAX {
                proof {
                    assert(commit_effect(
                        *old(self),
                        *self,
                        ghash,
                        message,
                        now,
                        gmsg,
                        false,
                    ));
                }
                return false;
            }
            self.sessions.push(Session::new(Some(now)));
        }
        let mut s = self.sessions.pop().unwrap();
        let ghost spre = s;
        let r = s.push_event_at(None, Some(msg), EventType::Commit { hash }, now);
        self.sessions.push(s);
        proof {
            if need_new {
                assert(self.sessions@.last().events@ =~= seq![
                    Event {
                        timestamp: now,
                        note: Some(gmsg),
                        ev_ty: EventType::Commit { hash: ghash },
                    },
                ]);
            }
            assert(commit_effect(*old(self), *self, ghash, message, now, gmsg, r));
        }
        r
    }

    /// Pauses the last session, at the given time or now. False — with the
    /// sheet unchanged — when no session exists; otherwise the last
    /// session's event machine decides.
    pub fn pause(&mut self, timestamp: Option<u64>, note: Option<String>) -> (r: bool)
        requires
            old(self).wf(),
        ensures
            final (self).wf(),
            old(self).sessions@.len() == 0 ==> *final (self) == *old(self) && !r,
            old(self).sessions@.len() > 0 ==> delegated(*old(self), *final (self))
                && push_evolves(
                old(self).sessions@.last(),
                final (self).sessions@.last(),
                timestamp,
                note,
                EventType::Pause,
                r,
            ),
    {
        let n = self.sessions.len();
        if n == 0 {
            return false;
        }
        let mut s = self.sessions.pop().unwrap();
        let r = s.push_event(timestamp, note, EventType::Pause);
        self.sessions.push(s);
        r
    }

    /// Resumes the last session's open pause, at the given time or now.
    /// False — with the sheet unchanged — when no session exists.
    pub fn resume(&mut self, timestamp: Option<u64>) -> (r: bool)
        requires
            old(self).wf(),
        ensures
            final (self).wf(),
            old(self).sessions@.len() == 0 ==> *final (self) == *old(self) && !r,
            old(self).sessions@.len() > 0 ==> delegated(*old(self), *final (self))
                && push_evolves(
                old(self).sessions@.last(),
                final (self).sessions@.last(),
                timestamp,
                None,
                EventType::Resume,
                r,
            ),
    {
        let n = self.sessions.len();
        if n == 0 {
            return false;
        }
        let mut s = self.sessions.pop().unwrap();
        let r = s.push_event(timestamp, None, EventType::Resume);
        self.sessions.push(s);
        r
    }

    /// Adds a note to the last session, at the given time or now; a note
    /// arriving while paused is merged into the open pause. False — with
    /// the sheet unchanged — when no session exists.
    pub fn note(&mut self, timestamp: Option<u64>, note_text: String) -> (r: bool)
        requires
            old(self).wf(),
        ensures
            final (self).wf(),
            old(self).sessions@.len() == 0 ==> *final (self) == *old(self) && !r,
            old(self).sessions@.len() > 0 ==> delegated(*old(self), *final (self))
                && push_evolves(
                old(self).sessions@.last(),
                final (self).sessions@.last(),
                timestamp,
                Some(note_text),
                EventType::Note,
                r,
            ),
    {
        let n = self.sessions.len();
        if n == 0 {
            return false;
        }
        let mut s = self.sessions.pop().unwrap();
        let r = s.push_event(timestamp, Some(note_text), EventType::Note);
        self.sessions.push(s);
        r
    }

    /// Records that work touched the named branch, on the last session.
    /// A sheet without sessions ignores it.
    pub fn add_branch(&mut self, name: String)
        requires
            old(self).wf(),
        ensures
            final (self).wf(),
            old(self).sessions@.len() == 0 ==> *final (self) == *old(self),
            old(self).sessions@.len() > 0 ==> delegated(*old(self), *final (self))
                && branch_added(
                old(self).sessions@.last(),
                final (self).sessions@.last(),
                name,
            ),
    {
        let n = self.sessions.len();
        if n == 0 {
            return ;
        }
        let mut s = self.sessions.pop().unwrap();
        s.add_branch(name);
        self.sessions.push(s);
    }

    /// An alias of `add_branch`, kept for backward compatibility.
    pub fn branch(&mut self, name: String)
        requires
            old(self).wf(),
        ensures
            final (self).wf(),
            old(self).sessions@.len() == 0 ==> *final (self) == *old(self),
            old(self).sessions@.len() > 0 ==> delegated(*old(self), *final (self))
                && branch_added(
                old(self).sessions@.last(),
                final (self).sessions@.last(),
                name,
            ),
    {
        self.add_branch(name);
    }

    /// Sets whether reports show git commit details.
    pub fn show_commits(&mut self, on_off: bool)
        requires
            old(self).wf(),
        ensures
            final (self).wf(),
            final (self).config.show_commits == on_off,
            final (self).config.repository == old(self).config.repository,
            final (self).config.user_name == old(self).config.user_name,
            final (self).start == old(self).start,
            final (self).end == old(self).end,
            final (self).sessions@ == old(self).sessions@,
    {
        self.config.show_commits = on_off;
    }

    /// Sets the repository URL used to link commit hashes; an empty string
    /// clears it.
    pub fn set_repo_url(&mut self, repo: String)
        requires
            old(self).wf(),
        ensures
            final (self).wf(),
            final (self).config.repository == if repo@.len() == 0 {
                Option::<String>::None
            } else {
                Some(repo)
            },
            final (self).config.show_commits == old(self).config.show_commits,
            final (self).config.user_name == old(self).config.user_name,
            final (self).start == old(self).start,
            final (self).end == old(self).end,
            final (self).sessions@ == old(self).sessions@,
    {
        if repo.as_str().is_empty() {
            self.config.repository = None;
        } else {
            self.config.repository = Some(repo);
        }
    }

    /// The sheet's total pause time at wall-clock instant `now`: the sum
    /// over all sessions, clamped at `u64::MAX`.
    pub fn pause_time_at(&self, now: u64) -> (r: u64)
        requires
            self.wf(),
        ensures
            r as int == sat64(sheet_pause_sum(self.sessions@, now)),
    {
        let ghost ss = self.sessions@;
        let n = self.sessions.len();
        let mut acc: u64 = 0;
        let mut i: usize = 0;
        while i < n
            invariant
                self.wf(),
                0 <= i <= n,
                n == ss.len(),
                ss == self.sessions@,
                acc as int == sat64(sheet_pause_sum(ss.take(i as int), now)),
                sheet_pause_sum(ss.take(i as int), now) >= 0,
            decreases n - i,
        {
            let pt = self.sessions[i].pause_time_at(now);
            proof {
                assert(ss.take(i as int + 1).drop_last() =~= ss.take(i as int));
                assert(ss.take(i as int + 1).last() == ss[i as int]);
            }
            acc = if acc <= u64::MAX - pt {
                acc + pt
            } else {
                u64::MAX
            };
            i += 1;
        }
        proof {
            assert(ss.take(n as int) =~= ss);
        }
        acc
    }

    /// The sheet's total pause time at the current wall-clock time. Once
    /// every session is finalized the result no longer depends on the clock.
    pub fn pause_time(&self) -> (r: u64)
        requires
            self.wf(),
        ensures
            exists|nw: u64| r as int == sat64(sheet_pause_sum(self.sessions@, nw)),
            (forall|i: int|
                0 <= i < self.sessions@.len() ==> !(#[trigger] self.sessions@[i]).running)
                ==> r as int == sat64(sheet_pause_closed(self.sessions@)),
    {
        let now = get_seconds();
        let r = self.pause_time_at(now);
        proof {
            assert(r as int == sat64(sheet_pause_sum(self.sessions@, now)));
            if forall|i: int|
                0 <= i < self.sessions@.len() ==> !(#[trigger] self.sessions@[i]).running {
                lemma_sheet_sums_closed(self.sessions@, now);
            }
        }
        r
    }

    /// The sheet's total work time at wall-clock instant `now`: the sum
    /// over all sessions, clamped at `u64::MAX`.
    pub fn work_time_at(&self, now: u64) -> (r: u64)
        requires
            self.wf(),
        ensures
            r as int == sat64(sheet_work_sum(self.sessions@, now)),
    {
        let ghost ss = self.sessions@;
        let n = self.sessions.len();
        let mut acc: u64 = 0;
        let mut i: usize = 0;
        while i < n
            invariant
                self.wf(),
                0 <= i <= n,
                n == ss.len(),
                ss == self.sessions@,
                acc as int == sat64(sheet_work_sum(ss.take(i as int), now)),
                sheet_work_sum(ss.take(i as int), now) >= 0,
            decreases n - i,
        {
            let wt = self.sessions[i].work_time_at(now);
            proof {
                assert(ss.take(i as int + 1).drop_last() =~= ss.take(i as int));
                assert(ss.take(i as int + 1).last() == ss[i as int]);
            }
            acc = if acc <= u64::MAX - wt {
                acc + wt
            } else {
                u64::MAX
            };
            i += 1;
        }
        proof {
            assert(ss.take(n as int) =~= ss);
        }
        acc
    }

    /// The sheet's total work time at the current wall-clock time. Once
    /// every session is finalized the result no longer depends on the clock.
    pub fn work_time(&self) -> (r: u64)
        requires
            self.wf(),
        ensures
            exists|nw: u64| r as int == sat64(sheet_work_sum(self.sessions@, nw)),
            (forall|i: int|
                0 <= i < self.sessions@.len() ==> !(#[trigger] self.sessions@[i]).running)
                ==> r as int == sat64(sheet_work_closed(self.sessions@)),
    {
        let now = get_seconds();
        let r = self.work_time_at(now);
        proof {
            assert(r as int == sat64(sheet_work_sum(self.sessions@, now)));
            if forall|i: int|
                0 <= i < self.sessions@.len() ==> !(#[trigger] self.sessions@[i]).running {
                lemma_sheet_sums_closed(self.sessions@, now);
            }
        }
        r
    }

    /// An alias of `work_time`, kept for backward compatibility.
    pub fn working_time(&self) -> (r: u64)
        requires
            self.wf(),
        ensures
            exists|nw: u64| r as int == sat64(sheet_work_sum(self.sessions@, nw)),
            (forall|i: int|
                0 <= i < self.sessions@.len() ==> !(#[trigger] self.sessions@[i]).running)
                ==> r as int == sat64(sheet_work_closed(self.sessions@)),
    {
        self.work_time()
    }

    /// The status text of the whole sheet at wall-clock instant `now`: its
    /// running duration, the session count, and the last session's status.
    pub open spec fn spec_timesheet_status(self, now: u64) -> Seq<char> {
        let head = "Sheet running for "@ + spec_hms(spec_elapsed(now, self.start)) + "\n"@;
        head + if self.sessions@.len() == 0 {
            "No sessions yet.\n"@
        } else {
            (spec_dec(self.sessions@.len() as int) + " session(s) so far.\nLast session:\n"@)
                + self.sessions@.last().spec_status(now)
        }
    }

    /// The last session's status text at wall-clock instant `now`, or a
    /// fixed line when no session exists yet.
    pub open spec fn spec_last_session_status(self, now: u64) -> Seq<char> {
        if self.sessions@.len() == 0 {
            "No session yet."@
        } else {
            self.sessions@.last().spec_status(now)
        }
    }

    /// `timesheet_status` at wall-clock instant `now`, so the text is
    /// determined by the arguments.
    pub fn timesheet_status_at(&self, now: u64) -> (r: String)
        requires
            self.wf(),
        ensures
            r@ == self.spec_timesheet_status(now),
    {
        let el = if now >= self.start {
            now - self.start
        } else {
            0
        };
        let mut out = String::from_str("Sheet running for ");
        out.append(sec_to_hms_string(el).as_str());
        out.append("\n");
        let n = self.sessions.len();
        if n == 0 {
            out.append("No sessions yet.\n");
        } else {
            let mut rest = u64_to_string(n as u64);
            rest.append(" session(s) so far.\nLast session:\n");
            rest.append(self.sessions[n - 1].status_at(now).as_str());
            out.append(rest.as_str());
        }
        out
    }

    /// The sheet's status text at the current wall-clock time: a pure
    /// projection, nothing is mutated.
    pub fn timesheet_status(&self) -> (r: String)
        requires
            self.wf(),
        ensures
            exists|nw: u64| r@ == self.spec_timesheet_status(nw),
    {
        let now = get_seconds();
        let r = self.timesheet_status_at(now);
        proof {
            assert(r@ == self.spec_timesheet_status(now));
        }
        r
    }

    /// `last_session_status` at wall-clock instant `now`, so the text is
    /// determined by the arguments.
    pub fn last_session_status_at(&self, now: u64) -> (r: String)
        requires
            self.wf(),
        ensures
            r@ == self.spec_last_session_status(now),
    {
        let n = self.sessions.len();
        if n == 0 {
            String::from_str("No session yet.")
        } else {
            self.sessions[n - 1].status_at(now)
        }
    }

    /// The last session's status text at the current wall-clock time, or a
    /// fixed line when no session exists yet.
    pub fn last_session_status(&self) -> (r: String)
        requires
            self.wf(),
        ensures
            exists|nw: u64| r@ == self.spec_last_session_status(nw),
    {
        let now = get_seconds();
        let r = self.last_session_status_at(now);
        proof {
            assert(r@ == self.spec_last_session_status(now));
        }
        r
    }

    /// Decides well-formedness at run time: true exactly when `wf()` holds.
    /// For values that arrive from outside — a deserialized state file —
    /// so a caller can reject corrupt state instead of computing on it.
    pub fn check_wf(&self) -> (r: bool)
        ensures
            r == self.wf(),
    {
        let n = self.sessions.len();
        let mut i: usize = 0;
        while i < n
            invariant
                0 <= i <= n,
                n == self.sessions@.len(),
                forall|k: int| 0 <= k < i ==> (#[trigger] self.sessions@[k]).wf(),
                forall|k: int|
                    0 <= k < i && k < n - 1 ==> !(#[trigger] self.sessions@[k]).running,
            decreases n - i,
        {
            if !self.sessions[i].check_wf() {
                return false;
            }
            if i + 1 < n && self.sessions[i].is_running() {
                return false;
            }
            i += 1;
        }
        true
    }

    /// The last session, if any exists: the only one that operations may
    /// still act on.
    pub fn get_last_session(&self) -> (r: Option<&Session>)
        ensures
            match r {
                Some(s) => self.sessions@.len() > 0 && *s == self.sessions@.last(),
                None => self.sessions@.len() == 0,
            },
    {
        let n = self.sessions.len();
        if n == 0 {
            None
        } else {
            Some(&self.sessions[n - 1])
        }
    }
}

} // verus!
