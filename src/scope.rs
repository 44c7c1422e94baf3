//! A recorder for one lexical scope: it opens with a `Begin` record and, when
//! closed, turns that record into a `Complete` record carrying the elapsed
//! time.

use vstd::prelude::*;

use crate::clock::{TimePoint, MICROS_PER_SECOND};
use crate::session::{completed, later, offer, ProfileData, ProfileRecord, SessionView, TagType};

verus! {

/// The open scope: where its `Begin` record went, if it was admitted, and when
/// the scope opened.
pub struct ProfileScope {
    /// The slot of the `Begin` record, or `None` when it was dropped.
    pub index: Option<usize>,
    /// When the scope opened.
    pub time: TimePoint,
}

impl ProfileScope {
    /// Opens a scope named `name` on `thread_id` at `now` by offering a
    /// `Begin` record to `profile`.
    pub fn new(profile: &mut ProfileData, name: &'static str, thread_id: u32, now: TimePoint) -> (r:
        ProfileScope)
        requires
            old(profile).wf(),
        ensures
            final(profile).wf(),
            final(profile)@ == offer(
                old(profile)@,
                ProfileRecord { time: now, thread_id, tag: TagType::Begin(name) },
            ),
            r.time == now,
            r.index == (if old(profile)@.enabled && old(profile)@.records.len()
                < old(profile)@.capacity {
                Some(old(profile)@.records.len() as usize)
            } else {
                None::<usize>
            }),
    {
        let index = profile.add_record(ProfileRecord { time: now, thread_id, tag: TagType::Begin(name) });
        ProfileScope { index, time: now }
    }

    /// Closes the scope at `now`: its `Begin` record, if still in place,
    /// becomes a `Complete` record (see `completed`).
    pub fn close(&self, profile: &mut ProfileData, now: TimePoint)
        requires
            old(profile).wf(),
        ensures
            final(profile).wf(),
            self.index is None ==> final(profile)@ == old(profile)@,
            self.index matches Some(i) ==> final(profile)@ == completed(
                old(profile)@,
                i as int,
                self.time,
                now,
            ),
    {
        if let Some(index) = self.index {
            profile.complete_begin(index, self.time, now);
        }
    }
}

/// Closing a scope keeps its tag and records a duration that is never
/// negative: the time from the later of the scope's opening and the session's
/// start up to the close, rounded down to whole microseconds (zero when the
/// close does not come after that point).
pub proof fn lemma_scope_duration(s: SessionView, index: int, begun_at: TimePoint, now: TimePoint)
    requires
        s.frequency > 0,
        0 <= index < s.records.len(),
        s.records[index].tag is Begin,
        s.records[index].time == begun_at,
        (now.0 - later(begun_at, s.start_time).0) * MICROS_PER_SECOND / s.frequency <= i64::MAX,
    ensures
        ({
            let span = now.0 - later(begun_at, s.start_time).0;
            let rec = completed(s, index, begun_at, now).records[index];
            &&& rec.time == begun_at
            &&& rec.thread_id == s.records[index].thread_id
            &&& rec.tag matches TagType::Complete(name, d) && {
                &&& name == s.records[index].tag->Begin_0
                &&& d >= 0
                &&& span <= 0 ==> d == 0
                &&& span > 0 ==> d * s.frequency <= span * MICROS_PER_SECOND < (d + 1)
                    * s.frequency
            }
        }),
{
    let span = now.0 - later(begun_at, s.start_time).0;
    let f = s.frequency;
    if span > 0 {
        let d = (span * MICROS_PER_SECOND) / f;
        vstd::arithmetic::div_mod::lemma_fundamental_div_mod(span * MICROS_PER_SECOND, f);
        vstd::arithmetic::div_mod::lemma_mod_bound(span * MICROS_PER_SECOND, f);
        assert(d >= 0) by (nonlinear_arith)
            requires
                d == (span * MICROS_PER_SECOND) / f,
                span > 0,
                f > 0,
        ;
        assert(d * f <= span * MICROS_PER_SECOND < (d + 1) * f) by (nonlinear_arith)
            requires
                span * MICROS_PER_SECOND == f * d + (span * MICROS_PER_SECOND) % f,
                0 <= (span * MICROS_PER_SECOND) % f < f,
        ;
    }
}

} // verus!
