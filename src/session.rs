//! The trace session: an enabled flag, a start time and a bounded buffer of
//! records, with the one admission rule that every append goes through.

use vstd::prelude::*;

use crate::clock::{micros_between, StopWatch, TimePoint};

verus! {

/// What a record marks.
#[derive(Clone, Copy, Debug)]
pub enum TagType {
    /// A scope with this tag opens.
    Begin(&'static str),
    /// The innermost open scope of the thread closes.
    End,
    /// A whole scope with this tag, and its duration in microseconds.
    Complete(&'static str, i64),
    /// An allocation of this many bytes.
    Allocate(usize),
    /// A deallocation of this many bytes.
    Deallocate(usize),
}

/// One captured event.
#[derive(Clone, Copy, Debug)]
pub struct ProfileRecord {
    /// When it happened.
    pub time: TimePoint,
    /// The thread that issued it.
    pub thread_id: u32,
    /// What it marks.
    pub tag: TagType,
}

/// The abstract state of a session.
pub struct SessionView {
    /// Whether records are being accepted.
    pub enabled: bool,
    /// How many records the session holds at most.
    pub capacity: nat,
    /// The reference point of reported times.
    pub start_time: TimePoint,
    /// Ticks per second of the session's clock.
    pub frequency: int,
    /// The admitted records, in order of admission.
    pub records: Seq<ProfileRecord>,
}

/// The session after `rec` is offered: appended when the session is enabled and
/// below its capacity, dropped otherwise.
pub open spec fn offer(s: SessionView, rec: ProfileRecord) -> SessionView {
    if s.enabled && s.records.len() < s.capacity {
        SessionView { records: s.records.push(rec), ..s }
    } else {
        s
    }
}

/// The session after each record of `recs` is offered in turn.
pub open spec fn offer_all(s: SessionView, recs: Seq<ProfileRecord>) -> SessionView
    decreases recs.len(),
{
    if recs.len() == 0 {
        s
    } else {
        offer(offer_all(s, recs.drop_last()), recs.last())
    }
}

/// The session that starting at `now` with room for `record_count` records
/// leaves: a running session is kept as it is, otherwise a fresh empty buffer.
pub open spec fn begun(s: SessionView, record_count: nat, now: TimePoint) -> SessionView {
    if s.enabled {
        s
    } else {
        SessionView { enabled: true, capacity: record_count, start_time: now, records: Seq::empty(), ..s }
    }
}

/// What stopping `s` leaves: `None` when it is not running (the stop fails),
/// else the session no longer running, its buffer handed over.
pub open spec fn stop_outcome(s: SessionView) -> Option<SessionView> {
    if s.enabled {
        Some(SessionView { enabled: false, records: Seq::empty(), ..s })
    } else {
        None
    }
}

/// Offering records to a running session appends them in order until the
/// capacity is reached and drops the rest.
pub proof fn lemma_offer_all(s: SessionView, recs: Seq<ProfileRecord>)
    requires
        s.enabled,
        s.records.len() <= s.capacity,
    ensures
        offer_all(s, recs).enabled,
        offer_all(s, recs).capacity == s.capacity,
        offer_all(s, recs).start_time == s.start_time,
        offer_all(s, recs).records == s.records + recs.take(
            if recs.len() <= s.capacity - s.records.len() {
                recs.len() as int
            } else {
                s.capacity - s.records.len()
            },
        ),
    decreases recs.len(),
{
    if recs.len() > 0 {
        lemma_offer_all(s, recs.drop_last());
        let room = s.capacity - s.records.len();
        let prev = offer_all(s, recs.drop_last());
        if recs.len() <= room {
            assert(recs.drop_last().take(recs.len() - 1).push(recs.last()) =~= recs.take(
                recs.len() as int,
            ));
            assert(prev.records.push(recs.last()) =~= s.records + recs.take(recs.len() as int));
        } else {
            assert(recs.drop_last().take(room) =~= recs.take(room));
        }
    } else {
        assert(recs.take(0) =~= Seq::<ProfileRecord>::empty());
        assert(s.records + recs.take(0) =~= s.records);
    }
}

/// A session started with room for `n` records and then offered more than `n`
/// records keeps exactly the first `n` of them; the others are dropped.
pub proof fn lemma_capacity_bounds_retention(
    prior: SessionView,
    n: nat,
    now: TimePoint,
    recs: Seq<ProfileRecord>,
)
    requires
        !prior.enabled,
        recs.len() > n,
    ensures
        offer_all(begun(prior, n, now), recs).records == recs.take(n as int),
        offer_all(begun(prior, n, now), recs).records.len() == n,
        offer_all(begun(prior, n, now), recs).capacity == n,
{
    let s = begun(prior, n, now);
    lemma_offer_all(s, recs);
    assert(s.records + recs.take(n as int) =~= recs.take(n as int));
}

/// Stopping succeeds exactly on a running session, and a second stop right
/// after a successful one fails.
pub proof fn lemma_stop_once(s: SessionView)
    ensures
        stop_outcome(s) is Some <==> s.enabled,
        stop_outcome(s) matches Some(t) ==> !t.enabled && stop_outcome(t) is None,
{
}

/// The later of two clock readings.
pub open spec fn later(a: TimePoint, b: TimePoint) -> TimePoint {
    if a.0 >= b.0 {
        a
    } else {
        b
    }
}

/// The session after the scope whose `Begin` record was admitted in slot
/// `index` at time `begun_at` closes at `now`: that record, if the slot still
/// holds it, becomes a `Complete` record whose duration runs from the later of
/// `begun_at` and the session start up to `now`. Anything else leaves the
/// session as it is.
pub open spec fn completed(s: SessionView, index: int, begun_at: TimePoint, now: TimePoint) -> SessionView {
    if 0 <= index < s.records.len() && s.records[index].tag is Begin && s.records[index].time
        == begun_at {
        let rec = s.records[index];
        let from = later(begun_at, s.start_time);
        let dur = micros_between(from.0 as int, now.0 as int, s.frequency);
        SessionView {
            records: s.records.update(
                index,
                ProfileRecord { tag: TagType::Complete(rec.tag->Begin_0, dur as i64), ..rec },
            ),
            ..s
        }
    } else {
        s
    }
}

/// Errors that `ProfileData::end` reports.
#[derive(Clone, Copy, PartialEq, Eq, Structural, Debug)]
pub enum ProfileError {
    /// No session is running.
    InvalidState,
}

/// The records of a stopped session, ready to be written out.
pub struct Trace {
    /// The records, in the order they were admitted.
    pub records: Vec<ProfileRecord>,
    /// The time the session started; event times are reported relative to it.
    pub start_time: TimePoint,
    /// Converts clock ticks into microseconds.
    pub stopwatch: StopWatch,
}

/// The process-wide recording state.
pub struct ProfileData {
    stopwatch: StopWatch,
    start_time: TimePoint,
    enabled: bool,
    capacity: usize,
    records: Vec<ProfileRecord>,
}

impl View for ProfileData {
    type V = SessionView;

    closed spec fn view(&self) -> SessionView {
        SessionView {
            enabled: self.enabled,
            capacity: self.capacity as nat,
            start_time: self.start_time,
            frequency: self.stopwatch.spec_frequency(),
            records: self.records@,
        }
    }
}

impl ProfileData {
    /// The buffer never holds more than the capacity, and holds nothing
    /// while no session runs.
    pub closed spec fn wf(&self) -> bool {
        &&& self.records.len() <= self.capacity
        &&& !self.enabled ==> self.records.len() == 0
    }

    /// A stopped session, with no records, whose clock runs as `stopwatch`
    /// says and whose start time is `now`.
    pub fn new(stopwatch: StopWatch, now: TimePoint) -> (r: ProfileData)
        ensures
            r.wf(),
            !r@.enabled,
            r@.records.len() == 0,
            r@.capacity == 0,
            r@.start_time == now,
            r@.frequency == stopwatch.spec_frequency(),
    {
        ProfileData { stopwatch, start_time: now, enabled: false, capacity: 0, records: Vec::new() }
    }

    /// Whether a session is running.
    pub fn is_enabled(&self) -> (r: bool)
        ensures
            r == self@.enabled,
    {
        self.enabled
    }

    /// The records admitted so far in the running session.
    pub fn records(&self) -> (r: &Vec<ProfileRecord>)
        ensures
            r@ == self@.records,
    {
        &self.records
    }

    /// How many records the running session can hold.
    pub fn capacity(&self) -> (r: usize)
        ensures
            r == self@.capacity,
    {
        self.capacity
    }

    /// When the current (or last) session started.
    pub fn start_time(&self) -> (r: TimePoint)
        ensures
            r == self@.start_time,
    {
        self.start_time
    }

    /// Starts a session at `now` sized for `record_count` records. A running
    /// session is left exactly as it is; otherwise the buffer starts empty.
    pub fn begin(&mut self, record_count: usize, now: TimePoint)
        requires
            old(self).wf(),
        ensures
            final(self).wf(),
            final(self)@ == begun(old(self)@, record_count as nat, now),
    {
        if self.enabled {
            return;
        }
        self.records = Vec::with_capacity(record_count);
        self.capacity = record_count;
        self.start_time = now;
        self.enabled = true;
    }

    /// Offers `record` to the session: it is appended when the session runs
    /// and has room, and its slot is returned; otherwise it is dropped.
    pub fn add_record(&mut self, record: ProfileRecord) -> (r: Option<usize>)
        requires
            old(self).wf(),
        ensures
            final(self).wf(),
            final(self)@ == offer(old(self)@, record),
            r == (if old(self)@.enabled && old(self)@.records.len() < old(self)@.capacity {
                Some(old(self)@.records.len() as usize)
            } else {
                None::<usize>
            }),
    {
        if !self.enabled || self.records.len() >= self.capacity {
            return None;
        }
        self.records.push(record);
        Some(self.records.len() - 1)
    }

    /// Opens a scope named `tag` on `thread_id` at `now`.
    pub fn profile_begin(&mut self, tag: &'static str, thread_id: u32, now: TimePoint)
        requires
            old(self).wf(),
        ensures
            final(self).wf(),
            final(self)@ == offer(
                old(self)@,
                ProfileRecord { time: now, thread_id, tag: TagType::Begin(tag) },
            ),
    {
        self.add_record(ProfileRecord { time: now, thread_id, tag: TagType::Begin(tag) });
    }

    /// Closes the innermost open scope of `thread_id` at `now`.
    pub fn profile_end(&mut self, thread_id: u32, now: TimePoint)
        requires
            old(self).wf(),
        ensures
            final(self).wf(),
            final(self)@ == offer(
                old(self)@,
                ProfileRecord { time: now, thread_id, tag: TagType::End },
            ),
    {
        self.add_record(ProfileRecord { time: now, thread_id, tag: TagType::End });
    }

    /// Closes at `now` the scope whose `Begin` record went to slot `index` at
    /// time `begun_at`: see `completed`.
    pub fn complete_begin(&mut self, index: usize, begun_at: TimePoint, now: TimePoint)
        requires
            old(self).wf(),
        ensures
            final(self).wf(),
            final(self)@ == completed(old(self)@, index as int, begun_at, now),
    {
        if index >= self.records.len() {
            return;
        }
        let rec = self.records[index];
        if let TagType::Begin(name) = rec.tag {
            if rec.time == begun_at {
                let from = if begun_at.0 >= self.start_time.0 {
                    begun_at
                } else {
                    self.start_time
                };
                let duration = self.stopwatch.get_milliseconds(&from, &now);
                self.records.set(
                    index,
                    ProfileRecord { time: rec.time, thread_id: rec.thread_id, tag: TagType::Complete(name, duration) },
                );
            }
        }
    }

    /// Stops the running session and hands over its records; the session is
    /// then stopped and empty. Fails with `InvalidState`, changing nothing,
    /// when no session runs.
    pub fn end(&mut self) -> (r: Result<Trace, ProfileError>)
        requires
            old(self).wf(),
        ensures
            final(self).wf(),
            r is Err <==> !old(self)@.enabled,
            r matches Err(e) ==> e == ProfileError::InvalidState && final(self)@ == old(self)@,
            r matches Ok(t) ==> {
                &&& Some(final(self)@) == stop_outcome(old(self)@)
                &&& t.records@ == old(self)@.records
                &&& t.start_time == old(self)@.start_time
                &&& t.stopwatch.spec_frequency() == old(self)@.frequency
            },
    {
        if !self.enabled {
            return Err(ProfileError::InvalidState);
        }
        let mut records: Vec<ProfileRecord> = Vec::new();
        std::mem::swap(&mut records, &mut self.records);
        self.enabled = false;
        Ok(Trace { records, start_time: self.start_time, stopwatch: self.stopwatch })
    }
}

} // verus!
