//! One contiguous block of tracked work: an append-only event log bounded by
//! a start and an end timestamp, with derived pause state and time accounting.

use crate::util::get_seconds;
use crate::util::sec_to_hms_string;
use crate::util::spec_dec;
use crate::util::spec_elapsed;
use crate::util::spec_hms;
use crate::util::u64_to_string;
use crate::FatalError;
use vstd::prelude::*;

verus! {

/// The kind of one recorded occurrence within a session.
pub enum EventType {
    Pause,
    Resume,
    Note,
    Commit { hash: String },
}

/// One recorded occurrence: a timestamp, an optional note, and the kind.
/// For `Commit` events the note carries the commit message.
pub struct Event {
    pub timestamp: u64,
    pub note: Option<String>,
    pub ev_ty: EventType,
}

/// One work session. `running` is true until the session is finalized; once
/// false the session is permanently immutable. `branches` collects the
/// distinct branch names touched while the session ran. Events are kept in
/// chronological order; whether the session is paused is derived from the
/// log's tail, never stored.
pub struct Session {
    pub start: u64,
    pub end: u64,
    pub running: bool,
    pub branches: Vec<String>,
    pub events: Vec<Event>,
}

/// Timestamps never decrease along the log, and no event precedes the
/// session start.
pub open spec fn seq_chron(s: Seq<Event>, start: u64) -> bool {
    &&& (s.len() > 0 ==> start <= s[0].timestamp)
    &&& forall|i: int, j: int|
        0 <= i <= j < s.len() ==> (#[trigger] s[i].timestamp) <= (#[trigger] s[j].timestamp)
}

/// Every `Pause` is immediately followed by a `Resume` unless it closes the
/// log, and every `Resume` immediately follows a `Pause`. Notes arriving
/// while paused are merged into the pause, and commits auto-resume first, so
/// nothing else can separate a pause from its resume.
pub open spec fn seq_pairs(s: Seq<Event>) -> bool {
    &&& (s.len() > 0 ==> !(s[0].ev_ty is Resume))
    &&& forall|i: int, j: int|
        0 <= i && j == i + 1 && j < s.len() && (#[trigger] s[i].ev_ty) is Pause ==> (
        #[trigger] s[j].ev_ty) is Resume
    &&& forall|i: int, j: int|
        0 <= i && j == i + 1 && j < s.len() && (#[trigger] s[j].ev_ty) is Resume ==> (
        #[trigger] s[i].ev_ty) is Pause
}

/// No event carries `u64::MAX`, so an end timestamp one past any event fits.
pub open spec fn seq_ts_small(s: Seq<Event>) -> bool {
    forall|i: int| 0 <= i < s.len() ==> (#[trigger] s[i].timestamp) < u64::MAX
}

/// No two entries read the same: branch names form a set.
pub open spec fn distinct_strings(b: Seq<String>) -> bool {
    forall|i: int, j: int| 0 <= i < j < b.len() ==> (#[trigger] b[i]@) != (#[trigger] b[j]@)
}

/// The time an event lands on: the explicit timestamp when one was supplied,
/// the current wall-clock reading otherwise.
pub open spec fn resolved_ts(timestamp: Option<u64>, now: u64) -> u64 {
    match timestamp {
        Some(t) => t,
        None => now,
    }
}

/// Whether a resolved timestamp may enter the log. An explicit timestamp
/// must lie strictly after the last event (or the start); an implicit
/// wall-clock one may coincide with it. `u64::MAX` never enters, so end
/// timestamps one past an event always fit.
pub open spec fn ts_acceptable(pre: Session, t: u64, explicit: bool) -> bool {
    &&& if explicit {
        pre.last_bound() < t
    } else {
        pre.last_bound() <= t
    }
    &&& t < u64::MAX
}

/// Where an accepted push moves the session end: one past an explicit
/// timestamp, exactly the wall-clock reading otherwise.
pub open spec fn new_end(t: u64, explicit: bool) -> int {
    if explicit {
        t + 1
    } else {
        t as int
    }
}

/// The push was refused after the timestamp check: only the end moved.
pub open spec fn stay(pre: Session, post: Session, e: int) -> bool {
    &&& post.start == pre.start
    &&& post.running == pre.running
    &&& post.branches@ == pre.branches@
    &&& post.events@ == pre.events@
    &&& post.end == e
}

/// The given events were appended and the end moved; nothing else changed.
pub open spec fn appended(pre: Session, post: Session, e: int, evs: Seq<Event>) -> bool {
    &&& post.start == pre.start
    &&& post.running == pre.running
    &&& post.branches@ == pre.branches@
    &&& post.events@ == pre.events@ + evs
    &&& post.end == e
}

/// How a note lands on an open pause: appended to the existing note text
/// after a `<br>` separator, or stored as the note if there was none.
pub open spec fn merged_note_ok(
    before: Option<String>,
    added: Option<String>,
    after: Option<String>,
) -> bool {
    match before {
        Some(a) => added is Some && after is Some && after.unwrap()@ == a@ + "<br>"@
            + added.unwrap()@,
        None => after == added,
    }
}

/// A note pushed while paused: the log keeps its shape and the last event —
/// the open pause — absorbs the note text; the end still moves.
pub open spec fn note_merged(pre: Session, post: Session, e: int, added: Option<String>) -> bool {
    let n = pre.events@.len() as int;
    &&& post.start == pre.start
    &&& post.running == pre.running
    &&& post.branches@ == pre.branches@
    &&& post.end == e
    &&& post.events@.len() == n
    &&& forall|i: int| 0 <= i < n - 1 ==> #[trigger] post.events@[i] == pre.events@[i]
    &&& post.events@[n - 1].timestamp == pre.events@[n - 1].timestamp
    &&& post.events@[n - 1].ev_ty == pre.events@[n - 1].ev_ty
    &&& merged_note_ok(pre.events@[n - 1].note, added, post.events@[n - 1].note)
}

/// The full event-push state machine, for a resolved timestamp `t`:
/// a finalized session refuses and stays put; an unacceptable timestamp is
/// refused with nothing changed; otherwise the end moves and the kind
/// decides — `Pause` only while not paused, `Resume` only while paused, a
/// `Note` while paused merges into the open pause, and a `Commit` first
/// synthesizes a `Resume` if paused and then lands. A `Commit` always
/// carries the wall clock: a backdate request — an explicitly supplied
/// timestamp — is refused outright, with nothing changed.
pub open spec fn push_effect(
    pre: Session,
    post: Session,
    t: u64,
    explicit: bool,
    note: Option<String>,
    kind: EventType,
    r: bool,
) -> bool {
    if !pre.running {
        post == pre && !r
    } else if !ts_acceptable(pre, t, explicit) {
        post == pre && !r
    } else {
        let e = new_end(t, explicit);
        match kind {
            EventType::Pause => if pre.spec_is_paused() {
                stay(pre, post, e) && !r
            } else {
                appended(
                    pre,
                    post,
                    e,
                    seq![Event { timestamp: t, note: note, ev_ty: EventType::Pause }],
                ) && r
            },
            EventType::Resume => if pre.spec_is_paused() {
                appended(
                    pre,
                    post,
                    e,
                    seq![Event { timestamp: t, note: note, ev_ty: EventType::Resume }],
                ) && r
            } else {
                stay(pre, post, e) && !r
            },
            EventType::Note => if pre.spec_is_paused() {
                note_merged(pre, post, e, note) && r
            } else {
                appended(
                    pre,
                    post,
                    e,
                    seq![Event { timestamp: t, note: note, ev_ty: EventType::Note }],
                ) && r
            },
            EventType::Commit { hash } => if explicit {
                post == pre && !r
            } else {
                let evs = if pre.spec_is_paused() {
                    seq![
                        Event { timestamp: t, note: None, ev_ty: EventType::Resume },
                        Event {
                            timestamp: t,
                            note: note,
                            ev_ty: EventType::Commit { hash: hash },
                        },
                    ]
                } else {
                    seq![
                        Event {
                            timestamp: t,
                            note: note,
                            ev_ty: EventType::Commit { hash: hash },
                        },
                    ]
                };
                appended(pre, post, e, evs) && r
            },
        }
    }
}

/// The finalize state machine, for a resolved timestamp `t`: a timestamp
/// not strictly past the last event (or the start) is an invalid-timestamp
/// failure with nothing changed; on a running session a valid timestamp
/// closes an open pause with a synthesized `Resume`, stops the session and
/// sets its end one past `t`; a session already finalized is left alone.
pub open spec fn finalize_effect(pre: Session, post: Session, t: u64, ok: bool) -> bool {
    if !(pre.last_bound() < t && t < u64::MAX) {
        post == pre && !ok
    } else if !pre.running {
        post == pre && ok
    } else {
        &&& ok
        &&& post.start == pre.start
        &&& post.branches@ == pre.branches@
        &&& post.running == false
        &&& post.end == t + 1
        &&& post.events@ == if pre.spec_is_paused() {
            pre.events@.push(Event { timestamp: t, note: None, ev_ty: EventType::Resume })
        } else {
            pre.events@
        }
    }
}

/// `finalize_effect` for a possibly omitted timestamp: exact when explicit,
/// quantified over the wall-clock reading when omitted.
pub open spec fn finalize_evolves(
    pre: Session,
    post: Session,
    timestamp: Option<u64>,
    ok: bool,
) -> bool {
    match timestamp {
        Some(t) => finalize_effect(pre, post, t, ok),
        None => exists|n: u64| finalize_effect(pre, post, n, ok),
    }
}

/// The summed length of the closed pause intervals in a log: each `Resume`
/// pairs with the `Pause` immediately before it.
pub open spec fn pause_sum(s: Seq<Event>) -> int
    decreases s.len(),
{
    if s.len() == 0 {
        0
    } else {
        let prev = s.drop_last();
        if s.last().ev_ty is Resume && prev.len() > 0 && prev.last().ev_ty is Pause {
            pause_sum(prev.drop_last()) + s.last().timestamp - prev.last().timestamp
        } else {
            pause_sum(prev)
        }
    }
}

/// `push_effect` for a possibly omitted timestamp: exact when explicit, and
/// quantified over the wall-clock reading when omitted.
pub open spec fn push_evolves(
    pre: Session,
    post: Session,
    timestamp: Option<u64>,
    note: Option<String>,
    kind: EventType,
    r: bool,
) -> bool {
    match timestamp {
        Some(t) => push_effect(pre, post, t, true, note, kind, r),
        None => exists|n: u64| push_effect(pre, post, n, false, note, kind, r),
    }
}

impl Session {
    /// Paused means the log's last event is a `Pause`.
    pub open spec fn spec_is_paused(self) -> bool {
        self.events@.len() > 0 && self.events@.last().ev_ty is Pause
    }

    /// The timestamp a new event must not precede: the last event's, or the
    /// session start while the log is empty.
    pub open spec fn last_bound(self) -> int {
        if self.events@.len() == 0 {
            self.start as int
        } else {
            self.events@.last().timestamp as int
        }
    }

    /// Well-formedness: a chronological, properly paired log; distinct branch
    /// names; and a finalized session is never paused and its end lies
    /// strictly past every event.
    pub open spec fn wf(self) -> bool {
        &&& seq_chron(self.events@, self.start)
        &&& seq_pairs(self.events@)
        &&& seq_ts_small(self.events@)
        &&& self.start <= self.end
        &&& (!self.running ==> !self.spec_is_paused() && self.end > self.last_bound())
        &&& distinct_strings(self.branches@)
    }

    /// Starts a fresh running session at the given time, or at the current
    /// wall-clock time when none is supplied. The end is provisionally one
    /// second past the start.
    pub fn new(timestamp: Option<u64>) -> (s: Session)
        requires
            timestamp matches Some(t) ==> t < u64::MAX,
        ensures
            s.wf(),
            s.running,
            s.events@.len() == 0,
            s.branches@.len() == 0,
            timestamp matches Some(t) ==> s.start == t,
            s.start < u64::MAX ==> s.end == s.start + 1,
    {
        let t = match timestamp {
            Some(t) => t,
            None => get_seconds(),
        };
        let e = if t < u64::MAX {
            t + 1
        } else {
            t
        };
        Session { start: t, end: e, running: true, branches: Vec::new(), events: Vec::new() }
    }

    /// Whether the session is still accepting events.
    pub fn is_running(&self) -> (r: bool)
        ensures
            r == self.running,
    {
        self.running
    }

    /// Whether the session is currently paused, i.e. the last event is a
    /// `Pause` that no `Resume` has answered yet.
    pub fn is_paused(&self) -> (r: bool)
        ensures
            r == self.spec_is_paused(),
    {
        match self.events.len() {
            0 => false,
            n => matches!(self.events[n - 1].ev_ty, EventType::Pause),
        }
    }

    /// Moves the end to one second past the last event; a session with no
    /// events keeps its end.
    pub fn update_end(&mut self)
        requires
            old(self).wf(),
        ensures
            final (self).wf(),
            final (self).start == old(self).start,
            final (self).running == old(self).running,
            final (self).branches == old(self).branches,
            final (self).events == old(self).events,
            final (self).end == if old(self).events@.len() == 0 {
                old(self).end as int
            } else {
                old(self).events@.last().timestamp + 1
            },
    {
        let n = self.events.len();
        if n > 0 {
            self.end = self.events[n - 1].timestamp + 1;
        }
    }

    /// `push_event` with the wall-clock reading passed in, so the whole
    /// transition is determined by the arguments. Returns whether the event
    /// was taken; a refused push changes nothing except, after a passed
    /// timestamp check, the session end. Commits cannot be backdated, so a
    /// `Commit` never comes with an explicit timestamp.
    pub fn push_event_at(
        &mut self,
        timestamp: Option<u64>,
        note: Option<String>,
        type_of_event: EventType,
        now: u64,
    ) -> (r: bool)
        requires
            old(self).wf(),
            type_of_event is Note ==> note is Some,
            type_of_event is Commit ==> timestamp is None,
        ensures
            final (self).wf(),
            push_effect(
                *old(self),
                *final (self),
                resolved_ts(timestamp, now),
                timestamp is Some,
                note,
                type_of_event,
                r,
            ),
    {
        if !self.running {
            return false;
        }
        let explicit = timestamp.is_some();
        let t = match timestamp {
            Some(t0) => t0,
            None => now,
        };
        let n = self.events.len();
        let bound_ok = if n == 0 {
            if explicit {
                t > self.start
            } else {
                t >= self.start
            }
        } else {
            let lt = self.events[n - 1].timestamp;
            if explicit {
                t > lt
            } else {
                t >= lt
            }
        };
        if !(bound_ok && t < u64::MAX) {
            return false;
        }
        self.end = if explicit {
            t + 1
        } else {
            t
        };
        match type_of_event {
            EventType::Pause => {
                if self.is_paused() {
                    false
                } else {
                    let ghost ev = Event { timestamp: t, note: note, ev_ty: EventType::Pause };
                    self.events.push(Event { timestamp: t, note, ev_ty: EventType::Pause });
                    proof {
                        assert(self.events@ =~= old(self).events@ + seq![ev]);
                    }
                    true
                }
            },
            EventType::Resume => {
                if self.is_paused() {
                    let ghost ev = Event { timestamp: t, note: note, ev_ty: EventType::Resume };
                    self.events.push(Event { timestamp: t, note, ev_ty: EventType::Resume });
                    proof {
                        assert(self.events@ =~= old(self).events@ + seq![ev]);
                    }
                    true
                } else {
                    false
                }
            },
            EventType::Note => {
                if self.is_paused() {
                    let popped = self.events.pop().unwrap();
                    let Event { timestamp: lts, note: lnote, ev_ty: lty } = popped;
                    let merged: Option<String> = match lnote {
                        Some(a) => {
                            let mut a = a;
                            a.append("<br>");
                            let added = note.unwrap();
                            a.append(added.as_str());
                            Some(a)
                        },
                        None => note,
                    };
                    self.events.push(Event { timestamp: lts, note: merged, ev_ty: lty });
                    proof {
                        assert(self.events@ =~= old(self).events@.drop_last().push(
                            self.events@.last(),
                        ));
                    }
                    true
                } else {
                    let ghost ev = Event { timestamp: t, note: note, ev_ty: EventType::Note };
                    self.events.push(Event { timestamp: t, note, ev_ty: EventType::Note });
                    proof {
                        assert(self.events@ =~= old(self).events@ + seq![ev]);
                    }
                    true
                }
            },
            EventType::Commit { hash } => {
                let ghost was_paused = self.spec_is_paused();
                let ghost rev = Event { timestamp: t, note: None, ev_ty: EventType::Resume };
                if self.is_paused() {
                    self.events.push(Event { timestamp: t, note: None, ev_ty: EventType::Resume });
                }
                let ghost cev = Event {
                    timestamp: t,
                    note: note,
                    ev_ty: EventType::Commit { hash: hash },
                };
                self.events.push(Event { timestamp: t, note, ev_ty: EventType::Commit { hash } });
                proof {
                    if was_paused {
                        assert(self.events@ =~= old(self).events@ + seq![rev, cev]);
                    } else {
                        assert(self.events@ =~= old(self).events@ + seq![cev]);
                    }
                }
                true
            },
        }
    }

    /// `finalize` with the wall-clock reading passed in, so the whole
    /// transition is determined by the arguments.
    pub fn finalize_at(&mut self, timestamp: Option<u64>, now: u64) -> (res: Result<
        (),
        FatalError,
    >)
        requires
            old(self).wf(),
        ensures
            final (self).wf(),
            finalize_effect(*old(self), *final (self), resolved_ts(timestamp, now), res is Ok),
    {
        let t = match timestamp {
            Some(t0) => t0,
            None => now,
        };
        let n = self.events.len();
        let bound_ok = if n == 0 {
            t > self.start
        } else {
            t > self.events[n - 1].timestamp
        };
        if !(bound_ok && t < u64::MAX) {
            return Err(FatalError::InvalidTimestamp);
        }
        if self.running {
            if self.is_paused() {
                self.events.push(Event { timestamp: t, note: None, ev_ty: EventType::Resume });
            }
            self.running = false;
            self.end = t + 1;
        }
        Ok(())
    }

    /// Closes the session permanently: validates the timestamp (strictly
    /// after the last event, or the start), auto-resumes an open pause, and
    /// sets the end one past the resolved time. An invalid timestamp is the
    /// fatal validation error and changes nothing.
    pub fn finalize(&mut self, timestamp: Option<u64>) -> (res: Result<(), FatalError>)
        requires
            old(self).wf(),
        ensures
            final (self).wf(),
            finalize_evolves(*old(self), *final (self), timestamp, res is Ok),
    {
        let now = get_seconds();
        self.finalize_at(timestamp, now)
    }

    /// Appends one occurrence to a running session, per the state machine of
    /// `push_effect`: the timestamp defaults to the current wall-clock time,
    /// an explicit one must lie strictly after the last event (or the start)
    /// and is otherwise refused with the log unchanged. Commits cannot be
    /// backdated, so a `Commit` never comes with an explicit timestamp: it
    /// is always stamped with the wall clock.
    pub fn push_event(
        &mut self,
        timestamp: Option<u64>,
        note: Option<String>,
        type_of_event: EventType,
    ) -> (r: bool)
        requires
            old(self).wf(),
            type_of_event is Note ==> note is Some,
            type_of_event is Commit ==> timestamp is None,
        ensures
            final (self).wf(),
            push_evolves(*old(self), *final (self), timestamp, note, type_of_event, r),
    {
        let now = get_seconds();
        self.push_event_at(timestamp, note, type_of_event, now)
    }
}

/// Truncating a log keeps it chronological and properly paired.
pub proof fn lemma_prefix_wf(s: Seq<Event>, start: u64, k: int)
    requires
        seq_chron(s, start),
        seq_pairs(s),
        0 <= k <= s.len(),
    ensures
        seq_chron(s.take(k), start),
        seq_pairs(s.take(k)),
{
    assert forall|i: int, j: int| 0 <= i <= j < s.take(k).len() implies (#[trigger] s.take(
        k,
    )[i].timestamp) <= (#[trigger] s.take(k)[j].timestamp) by {
        assert(s[i].timestamp <= s[j].timestamp);
    }
    assert forall|i: int, j: int|
        0 <= i && j == i + 1 && j < s.take(k).len() && (#[trigger] s.take(
            k,
        )[i].ev_ty) is Pause implies (#[trigger] s.take(k)[j].ev_ty) is Resume by {
        assert(s[i].ev_ty is Pause && s[j].ev_ty == s.take(k)[j].ev_ty);
    }
    assert forall|i: int, j: int|
        0 <= i && j == i + 1 && j < s.take(k).len() && (#[trigger] s.take(
            k,
        )[j].ev_ty) is Resume implies (#[trigger] s.take(k)[i].ev_ty) is Pause by {
        assert(s[j].ev_ty is Resume && s[i].ev_ty == s.take(k)[i].ev_ty);
    }
}

/// Unfolds `pause_sum` one event at a time along a prefix of the log.
pub proof fn lemma_pause_sum_step(s: Seq<Event>, k: int)
    requires
        0 <= k < s.len(),
    ensures
        pause_sum(s.take(k + 1)) == if s[k].ev_ty is Resume && k > 0 && s[k
            - 1].ev_ty is Pause {
            pause_sum(s.take(k - 1)) + s[k].timestamp - s[k - 1].timestamp
        } else {
            pause_sum(s.take(k))
        },
{
    let u = s.take(k + 1);
    assert(u.last() == s[k]);
    assert(u.drop_last() =~= s.take(k));
    if u.last().ev_ty is Resume && u.drop_last().len() > 0 && u.drop_last().last().ev_ty is Pause {
        assert(u.drop_last().last() == s[k - 1]);
        assert(u.drop_last().drop_last() =~= s.take(k - 1));
    }
}

/// The closed pauses of a chronological, paired log are non-negative in
/// total and fit between the session start and the last event.
pub proof fn lemma_pause_sum_bound(s: Seq<Event>, start: u64)
    requires
        seq_chron(s, start),
        seq_pairs(s),
    ensures
        0 <= pause_sum(s),
        s.len() == 0 ==> pause_sum(s) == 0,
        s.len() > 0 ==> pause_sum(s) <= s.last().timestamp - start,
    decreases s.len(),
{
    if s.len() > 0 {
        let prev = s.drop_last();
        assert(prev =~= s.take(s.len() - 1));
        lemma_prefix_wf(s, start, s.len() - 1);
        if s.last().ev_ty is Resume && prev.len() > 0 && prev.last().ev_ty is Pause {
            let pp = prev.drop_last();
            assert(pp =~= s.take(s.len() - 2));
            lemma_prefix_wf(s, start, s.len() - 2);
            lemma_pause_sum_bound(pp, start);
            assert(prev.last() == s[s.len() - 2]);
            if pp.len() > 0 {
                assert(pp.last() == s[s.len() - 3]);
                assert(s[s.len() - 3].timestamp <= s[s.len() - 2].timestamp);
            }
            assert(s[s.len() - 2].timestamp <= s[s.len() - 1].timestamp);
        } else {
            lemma_pause_sum_bound(prev, start);
            if prev.len() > 0 {
                assert(prev.last() == s[s.len() - 2]);
                assert(s[s.len() - 2].timestamp <= s[s.len() - 1].timestamp);
            }
        }
    }
}

impl Session {
    /// The session's total pause time at wall-clock instant `now`: the
    /// closed pause intervals, plus the still-open pause up to `now` when
    /// the session is currently paused.
    pub open spec fn spec_pause_time(self, now: u64) -> int {
        pause_sum(self.events@) + if self.spec_is_paused() && self.events@.last().timestamp
            <= now {
            now - self.events@.last().timestamp
        } else {
            0
        }
    }

    /// The session's accounted work at wall-clock instant `now`: for a
    /// running session the elapsed time since the start minus the pause
    /// time, clamped at zero against a clock that reads before the session's
    /// own events; for a finalized session the span from start to end minus
    /// the closed pauses, which no longer depends on the clock.
    pub open spec fn spec_work_time(self, now: u64) -> int {
        if self.running {
            let total: int = if self.start <= now {
                now - self.start
            } else {
                0
            };
            let pt = self.spec_pause_time(now);
            if pt <= total {
                total - pt
            } else {
                0
            }
        } else {
            self.end - self.start - pause_sum(self.events@)
        }
    }

    /// Walks the log summing every closed `Pause`/`Resume` interval and, if
    /// the session is currently paused, the open pause up to `now`.
    pub fn pause_time_at(&self, now: u64) -> (r: u64)
        requires
            self.wf(),
        ensures
            r as int == self.spec_pause_time(now),
    {
        let ghost evs = self.events@;
        let n = self.events.len();
        let mut acc: u64 = 0;
        let mut last_pause: u64 = 0;
        let mut i: usize = 0;
        while i < n
            invariant
                self.wf(),
                0 <= i <= n,
                n == evs.len(),
                evs == self.events@,
                acc as int == pause_sum(evs.take(i as int)),
                i > 0 && evs[i as int - 1].ev_ty is Pause ==> last_pause == evs[i as int
                    - 1].timestamp,
            decreases n - i,
        {
            proof {
                lemma_pause_sum_step(evs, i as int);
            }
            match &self.events[i].ev_ty {
                EventType::Pause => {
                    last_pause = self.events[i].timestamp;
                },
                EventType::Resume => {
                    proof {
                        assert(evs[i as int].ev_ty is Resume);
                        assert(i as int > 0) by {
                            assert(!(evs[0].ev_ty is Resume));
                        }
                        assert(evs[i as int - 1].ev_ty is Pause);
                        assert(last_pause == evs[i as int - 1].timestamp);
                        assert(evs[i as int - 1].timestamp <= evs[i as int].timestamp);
                        lemma_pause_sum_step(evs, i as int - 1);
                        lemma_prefix_wf(evs, self.start, i as int + 1);
                        lemma_pause_sum_bound(evs.take(i as int + 1), self.start);
                        assert(evs.take(i as int + 1).last() == evs[i as int]);
                    }
                    acc = acc + (self.events[i].timestamp - last_pause);
                },
                EventType::Note => {
                },
                EventType::Commit { .. } => {
                },
            }
            i += 1;
        }
        proof {
            assert(evs.take(n as int) =~= evs);
        }
        if self.is_paused() {
            let lt = self.events[n - 1].timestamp;
            if now >= lt {
                proof {
                    lemma_pause_sum_bound(evs, self.start);
                }
                acc + (now - lt)
            } else {
                acc
            }
        } else {
            acc
        }
    }

    /// `pause_time` at the current wall-clock time. Once the session is no
    /// longer paused the result does not depend on the clock at all.
    pub fn pause_time(&self) -> (r: u64)
        requires
            self.wf(),
        ensures
            exists|n: u64| r as int == self.spec_pause_time(n),
            !self.spec_is_paused() ==> r as int == pause_sum(self.events@),
    {
        let now = get_seconds();
        let r = self.pause_time_at(now);
        proof {
            assert(r as int == self.spec_pause_time(now));
        }
        r
    }

    /// The work accounted to the session at wall-clock instant `now`:
    /// elapsed (or, once finalized, recorded) span minus pause time.
    pub fn work_time_at(&self, now: u64) -> (r: u64)
        requires
            self.wf(),
        ensures
            r as int == self.spec_work_time(now),
    {
        let pt = self.pause_time_at(now);
        if self.running {
            let total = if now >= self.start {
                now - self.start
            } else {
                0
            };
            if total >= pt {
                total - pt
            } else {
                0
            }
        } else {
            proof {
                lemma_pause_sum_bound(self.events@, self.start);
            }
            (self.end - self.start) - pt
        }
    }

    /// `work_time` at the current wall-clock time. For a finalized session
    /// the result is exactly the recorded span minus the closed pauses.
    pub fn work_time(&self) -> (r: u64)
        requires
            self.wf(),
        ensures
            exists|n: u64| r as int == self.spec_work_time(n),
            !self.running ==> r as int == self.end - self.start - pause_sum(self.events@),
    {
        let now = get_seconds();
        let r = self.work_time_at(now);
        proof {
            assert(r as int == self.spec_work_time(now));
        }
        r
    }

    /// An alias of `work_time`, kept for backward compatibility.
    pub fn working_time(&self) -> (r: u64)
        requires
            self.wf(),
        ensures
            exists|n: u64| r as int == self.spec_work_time(n),
            !self.running ==> r as int == self.end - self.start - pause_sum(self.events@),
    {
        self.work_time()
    }
}

/// What `add_branch` does: on a running session the name joins the branch
/// set unless an equal name is already there; a finalized session ignores
/// it. Nothing else moves.
pub open spec fn branch_added(pre: Session, post: Session, name: String) -> bool {
    if pre.running {
        &&& post.start == pre.start
        &&& post.end == pre.end
        &&& post.running == pre.running
        &&& post.events@ == pre.events@
        &&& if exists|k: int|
            0 <= k < pre.branches@.len() && (#[trigger] pre.branches@[k]@) == name@ {
            post.branches@ == pre.branches@
        } else {
            post.branches@ == pre.branches@.push(name)
        }
    } else {
        post == pre
    }
}

impl Session {
    /// Records that work touched the named branch: inserted once, set
    /// semantics; a finalized session no longer accepts names.
    pub fn add_branch(&mut self, name: String)
        requires
            old(self).wf(),
        ensures
            final (self).wf(),
            branch_added(*old(self), *final (self), name),
    {
        if self.running {
            let n = self.branches.len();
            let mut found = false;
            let mut i: usize = 0;
            while i < n
                invariant
                    0 <= i <= n,
                    n == self.branches@.len(),
                    found <==> exists|k: int|
                        0 <= k < i && (#[trigger] self.branches@[k]@) == name@,
                decreases n - i,
            {
                let eq = self.branches[i] == name;
                proof {
                    assert(eq == (self.branches@[i as int]@ == name@));
                }
                if eq {
                    found = true;
                }
                i += 1;
            }
            if !found {
                self.branches.push(name);
            }
        }
    }
}

/// How one event kind reads in a status line.
pub open spec fn ev_ty_name(t: EventType) -> Seq<char> {
    match t {
        EventType::Pause => "Pause"@,
        EventType::Resume => "Resume"@,
        EventType::Note => "Note"@,
        EventType::Commit { hash } => "Commit "@ + hash@,
    }
}

/// The branch names joined with single trailing spaces, in insertion order.
pub open spec fn branches_joined(b: Seq<String>) -> Seq<char>
    decreases b.len(),
{
    if b.len() == 0 {
        Seq::<char>::empty()
    } else {
        branches_joined(b.drop_last()) + b.last()@ + " "@
    }
}

/// How one event kind reads in a status line.
fn event_type_name(t: &EventType) -> (r: String)
    ensures
        r@ == ev_ty_name(*t),
{
    match t {
        EventType::Pause => String::from_str("Pause"),
        EventType::Resume => String::from_str("Resume"),
        EventType::Note => String::from_str("Note"),
        EventType::Commit { hash } => {
            let mut s = String::from_str("Commit ");
            s.append(hash.as_str());
            s
        },
    }
}

impl Session {
    /// The status text of the session at wall-clock instant `now`: the
    /// running duration, the pause state or last event, the branches
    /// touched, and the work and pause totals.
    pub open spec fn spec_status(self, now: u64) -> Seq<char> {
        let pt = self.spec_pause_time(now);
        let wt = self.spec_work_time(now);
        let head = "Session running for "@ + spec_hms(pt + wt) + ".\n"@;
        let mid = if self.spec_is_paused() {
            "    Paused since "@ + spec_hms(
                spec_elapsed(now, self.events@.last().timestamp),
            ) + ".\n"@
        } else if self.events@.len() == 0 {
            "    No events in this session yet!\n"@
        } else {
            "    Last event: "@ + ev_ty_name(self.events@.last().ev_ty) + ", "@ + spec_hms(
                spec_elapsed(now, self.events@.last().timestamp),
            ) + " ago.\n"@
        };
        let tail = "    Total work time:  "@ + spec_hms(wt) + "\n    Total pause time: "@
            + spec_hms(pt) + "\n"@;
        let rest = if self.branches@.len() == 0 {
            tail
        } else {
            ("Worked on "@ + spec_dec(self.branches@.len() as int) + " branches: "@
                + branches_joined(self.branches@)) + tail
        };
        (head + mid) + rest
    }

    /// The branch names joined with single trailing spaces.
    fn joined_branches(&self) -> (r: String)
        ensures
            r@ == branches_joined(self.branches@),
    {
        let mut out = String::new();
        let n = self.branches.len();
        let mut i: usize = 0;
        while i < n
            invariant
                0 <= i <= n,
                n == self.branches@.len(),
                out@ == branches_joined(self.branches@.take(i as int)),
            decreases n - i,
        {
            out.append(self.branches[i].as_str());
            out.append(" ");
            proof {
                assert(self.branches@.take(i as int + 1).drop_last() =~= self.branches@.take(
                    i as int,
                ));
                assert(self.branches@.take(i as int + 1).last() == self.branches@[i as int]);
            }
            i += 1;
        }
        proof {
            assert(self.branches@.take(n as int) =~= self.branches@);
        }
        out
    }

    /// `status` at wall-clock instant `now`, so the text is determined by
    /// the arguments.
    pub fn status_at(&self, now: u64) -> (r: String)
        requires
            self.wf(),
        ensures
            r@ == self.spec_status(now),
    {
        let pt = self.pause_time_at(now);
        let wt = self.work_time_at(now);
        proof {
            lemma_pause_sum_bound(self.events@, self.start);
            assert(pt as int + wt as int <= u64::MAX);
        }
        let mut out = String::from_str("Session running for ");
        out.append(sec_to_hms_string(pt + wt).as_str());
        out.append(".\n");
        let n = self.events.len();
        let mid = if self.is_paused() {
            let mut mid = String::from_str("    Paused since ");
            let lt = self.events[n - 1].timestamp;
            let el = if now >= lt {
                now - lt
            } else {
                0
            };
            mid.append(sec_to_hms_string(el).as_str());
            mid.append(".\n");
            mid
        } else if n == 0 {
            String::from_str("    No events in this session yet!\n")
        } else {
            let mut mid = String::from_str("    Last event: ");
            mid.append(event_type_name(&self.events[n - 1].ev_ty).as_str());
            mid.append(", ");
            let lt = self.events[n - 1].timestamp;
            let el = if now >= lt {
                now - lt
            } else {
                0
            };
            mid.append(sec_to_hms_string(el).as_str());
            mid.append(" ago.\n");
            mid
        };
        out.append(mid.as_str());
        let mut tail = String::from_str("    Total work time:  ");
        tail.append(sec_to_hms_string(wt).as_str());
        tail.append("\n    Total pause time: ");
        tail.append(sec_to_hms_string(pt).as_str());
        tail.append("\n");
        let bn = self.branches.len();
        if bn == 0 {
            out.append(tail.as_str());
        } else {
            let mut br = String::from_str("Worked on ");
            br.append(u64_to_string(bn as u64).as_str());
            br.append(" branches: ");
            br.append(self.joined_branches().as_str());
            br.append(tail.as_str());
            out.append(br.as_str());
        }
        out
    }

    /// The status text at the current wall-clock time: a human-readable
    /// summary of the session; a pure projection, nothing is mutated.
    pub fn status(&self) -> (r: String)
        requires
            self.wf(),
        ensures
            exists|nw: u64| r@ == self.spec_status(nw),
    {
        let now = get_seconds();
        let r = self.status_at(now);
        proof {
            assert(r@ == self.spec_status(now));
        }
        r
    }
}

/// Law: for a finalized session, accounted work time and pause time
/// partition the recorded span exactly: `work + pause == end - start`,
/// whatever the clock reads.
pub proof fn lemma_time_conservation(s: Session, now: u64)
    requires
        s.wf(),
        !s.running,
    ensures
        s.spec_work_time(now) + s.spec_pause_time(now) == s.end - s.start,
{
}

/// Order between adjacent events carries along the whole log.
proof fn lemma_adjacent_implies_sorted(s: Seq<Event>, i: int, j: int)
    requires
        forall|a: int, b: int|
            0 <= a && b == a + 1 && b < s.len() ==> (#[trigger] s[a].timestamp) <= (
            #[trigger] s[b].timestamp),
        0 <= i <= j < s.len(),
    ensures
        s[i].timestamp <= s[j].timestamp,
    decreases j - i,
{
    if i < j {
        lemma_adjacent_implies_sorted(s, i, j - 1);
        assert(s[j - 1].timestamp <= s[j].timestamp);
    }
}

impl Session {
    /// Decides well-formedness at run time: true exactly when `wf()` holds.
    /// For values that arrive from outside — a deserialized state file —
    /// so a caller can reject corrupt state instead of computing on it.
    pub fn check_wf(&self) -> (r: bool)
        ensures
            r == self.wf(),
    {
        let ghost evs = self.events@;
        if self.start > self.end {
            return false;
        }
        let n = self.events.len();
        let mut i: usize = 0;
        while i < n
            invariant
                0 <= i <= n,
                n == evs.len(),
                evs == self.events@,
                self.start <= self.end,
                i > 0 ==> self.start <= evs[0].timestamp,
                i > 0 ==> !(evs[0].ev_ty is Resume),
                forall|k: int| 0 <= k < i ==> (#[trigger] evs[k].timestamp) < u64::MAX,
                forall|a: int, b: int|
                    0 <= a && b == a + 1 && b < i ==> (#[trigger] evs[a].timestamp) <= (
                    #[trigger] evs[b].timestamp),
                forall|a: int, b: int|
                    0 <= a && b == a + 1 && b < i && (#[trigger] evs[a].ev_ty) is Pause ==> (
                    #[trigger] evs[b].ev_ty) is Resume,
                forall|a: int, b: int|
                    0 <= a && b == a + 1 && b < i && (#[trigger] evs[b].ev_ty) is Resume ==> (
                    #[trigger] evs[a].ev_ty) is Pause,
            decreases n - i,
        {
            let ts = self.events[i].timestamp;
            if ts == u64::MAX {
                return false;
            }
            if i == 0 {
                if self.start > ts {
                    return false;
                }
                if matches!(self.events[0].ev_ty, EventType::Resume) {
                    return false;
                }
            } else {
                let prev_ts = self.events[i - 1].timestamp;
                if prev_ts > ts {
                    return false;
                }
                let prev_is_pause = matches!(self.events[i - 1].ev_ty, EventType::Pause);
                let cur_is_resume = matches!(self.events[i].ev_ty, EventType::Resume);
                if prev_is_pause && !cur_is_resume {
                    return false;
                }
                if cur_is_resume && !prev_is_pause {
                    return false;
                }
            }
            i += 1;
        }
        proof {
            assert forall|a: int, b: int| 0 <= a <= b < evs.len() implies (
            #[trigger] evs[a].timestamp) <= (#[trigger] evs[b].timestamp) by {
                lemma_adjacent_implies_sorted(evs, a, b);
            }
            assert(seq_chron(evs, self.start));
            assert(seq_pairs(evs));
            assert(seq_ts_small(evs));
        }
        if !self.running {
            if self.is_paused() {
                return false;
            }
            let lb = if n == 0 {
                self.start
            } else {
                self.events[n - 1].timestamp
            };
            if self.end <= lb {
                return false;
            }
        }
        let bn = self.branches.len();
        let mut x: usize = 0;
        while x < bn
            invariant
                0 <= x <= bn,
                bn == self.branches@.len(),
                seq_chron(self.events@, self.start),
                seq_pairs(self.events@),
                seq_ts_small(self.events@),
                self.start <= self.end,
                !self.running ==> !self.spec_is_paused() && self.end > self.last_bound(),
                forall|p: int, q: int|
                    0 <= p < q < bn && p < x ==> (#[trigger] self.branches@[p]@) != (
                    #[trigger] self.branches@[q]@),
            decreases bn - x,
        {
            let mut y: usize = x + 1;
            while y < bn
                invariant
                    0 <= x < bn,
                    x + 1 <= y <= bn,
                    bn == self.branches@.len(),
                    forall|q: int|
                        x < q < y ==> (#[trigger] self.branches@[q]@) != self.branches@[x as int]@,
                decreases bn - y,
            {
                let eq = self.branches[x] == self.branches[y];
                proof {
                    assert(eq == (self.branches@[x as int]@ == self.branches@[y as int]@));
                }
                if eq {
                    return false;
                }
                y += 1;
            }
            x += 1;
        }
        true
    }
}

/// Law: a finalized session is closed for good: whatever is pushed
/// afterwards, with any timestamp, any note and any kind, under any clock
/// reading, is refused and leaves the session exactly as it was.
pub proof fn lemma_finalized_is_closed(
    pre: Session,
    post: Session,
    t: u64,
    explicit: bool,
    note: Option<String>,
    kind: EventType,
    r: bool,
)
    requires
        !pre.running,
        push_effect(pre, post, t, explicit, note, kind, r),
    ensures
        post == pre,
        !r,
{
}

/// Law (scenario): a fresh session that is paused, resumed and finalized,
/// with the wall clock strictly advancing across the calls, accepts all
/// three steps and ends finalized, with a positive pause time equal to the
/// paused interval and a work time that together with it partitions the
/// recorded span — whatever the clock reads afterwards. With whole-second
/// stamps the strict advance is needed: a pause and resume inside one
/// second leave a pause time of zero.
pub proof fn lemma_pause_resume_end_scenario(
    s0: Session,
    s1: Session,
    s2: Session,
    s3: Session,
    note: Option<String>,
    n1: u64,
    n2: u64,
    n3: u64,
    r1: bool,
    r2: bool,
    ok: bool,
    nw: u64,
)
    requires
        s0.wf(),
        s0.running,
        s0.events@.len() == 0,
        s0.start <= n1,
        n1 < n2,
        n2 < n3,
        n3 < u64::MAX,
        push_effect(s0, s1, n1, false, note, EventType::Pause, r1),
        push_effect(s1, s2, n2, false, None, EventType::Resume, r2),
        finalize_effect(s2, s3, n3, ok),
    ensures
        r1 && r2 && ok,
        !s3.running,
        s3.start == s0.start,
        s3.end == n3 + 1,
        s3.spec_pause_time(nw) == n2 - n1,
        s3.spec_pause_time(nw) > 0,
        s3.spec_work_time(nw) + s3.spec_pause_time(nw) == s3.end - s3.start,
{
    let e1 = Event { timestamp: n1, note: note, ev_ty: EventType::Pause };
    let e2 = Event { timestamp: n2, note: None, ev_ty: EventType::Resume };
    assert(s1.events@ == s0.events@ + seq![e1]);
    assert(s1.events@ =~= seq![e1]);
    assert(s1.spec_is_paused());
    assert(s2.events@ == s1.events@ + seq![e2]);
    assert(s2.events@ =~= seq![e1, e2]);
    assert(s2.events@.last() == e2);
    assert(!s2.spec_is_paused());
    assert(s2.last_bound() == n2);
    assert(s3.events@ == s2.events@);
    assert(s3.events@.drop_last() =~= seq![e1]);
    assert(s3.events@.drop_last().last() == e1);
    assert(s3.events@.drop_last().drop_last() =~= Seq::<Event>::empty());
    assert(pause_sum(Seq::<Event>::empty()) == 0);
    assert(pause_sum(s3.events@.drop_last().drop_last()) == 0);
    assert(pause_sum(s3.events@) == pause_sum(s3.events@.drop_last().drop_last()) + n2 - n1);
}

/// Law: the pause and resume events of a well-formed log strictly
/// alternate, starting with a pause: two pauses enclose a resume and two
/// resumes enclose a pause.
pub proof fn lemma_pause_resume_alternate(s: Session, i: int, j: int)
    requires
        s.wf(),
        0 <= i < j < s.events@.len(),
    ensures
        s.events@[i].ev_ty is Pause && s.events@[j].ev_ty is Pause ==> exists|k: int|
            i < k < j && (#[trigger] s.events@[k].ev_ty) is Resume,
        s.events@[i].ev_ty is Resume && s.events@[j].ev_ty is Resume ==> exists|k: int|
            i < k < j && (#[trigger] s.events@[k].ev_ty) is Pause,
{
    if s.events@[i].ev_ty is Pause && s.events@[j].ev_ty is Pause {
        assert(s.events@[i + 1].ev_ty is Resume);
        assert(i < i + 1 < j);
    }
    if s.events@[i].ev_ty is Resume && s.events@[j].ev_ty is Resume {
        assert(s.events@[j - 1].ev_ty is Pause);
        assert(i < j - 1 < j);
    }
}

} // verus!
