//! Writing a stopped session out as a Chrome-trace JSON document, one chunk
//! at a time: the opening, one chunk per record, and the closing.
//!
//! While the records are walked, each thread gets an ordinal, in the order in
//! which threads first appear, and a stack of the tags of its open scopes, so
//! that an `End` record is reported under the tag of the scope it closes.

use vstd::prelude::*;
use vstd::string::StringSliceAdditionalSpecFns;

use crate::clock::{micros_between, TimePoint};
use crate::json::{
    clean_json_str, decimal, escape_json, lemma_escape_round_trip, push_decimal, push_signed_decimal,
    push_str, read_json_string, signed_decimal, QUOTE,
};
use crate::session::{ProfileRecord, TagType, Trace};

verus! {

/// Threads seen so far, in order of first appearance, and the tags of the
/// open scopes of each, innermost last.
#[verifier::ext_equal]
pub struct ThreadTable {
    pub ids: Seq<u32>,
    pub stacks: Seq<Seq<&'static str>>,
}

/// The position of `tid` in `ids`, or `ids.len()` when it is not there.
pub open spec fn slot_of(ids: Seq<u32>, tid: u32) -> nat
    decreases ids.len(),
{
    if ids.len() == 0 {
        0
    } else if ids[0] == tid {
        0
    } else {
        1 + slot_of(ids.drop_first(), tid)
    }
}

/// The table after `rec` is walked: its thread is added if new; a `Begin`
/// pushes its tag, an `End` pops one if any is open.
pub open spec fn table_step(t: ThreadTable, rec: ProfileRecord) -> ThreadTable {
    let i = slot_of(t.ids, rec.thread_id) as int;
    let t1 = if i == t.ids.len() {
        ThreadTable { ids: t.ids.push(rec.thread_id), stacks: t.stacks.push(Seq::empty()) }
    } else {
        t
    };
    match rec.tag {
        TagType::Begin(s) => ThreadTable { stacks: t1.stacks.update(i, t1.stacks[i].push(s)), ..t1 },
        TagType::End => if t1.stacks[i].len() > 0 {
            ThreadTable { stacks: t1.stacks.update(i, t1.stacks[i].drop_last()), ..t1 }
        } else {
            t1
        },
        _ => t1,
    }
}

/// The table after the first `n` records are walked.
pub open spec fn table_after(recs: Seq<ProfileRecord>, n: nat) -> ThreadTable
    decreases n,
{
    if n == 0 || n > recs.len() {
        ThreadTable { ids: Seq::empty(), stacks: Seq::empty() }
    } else {
        table_step(table_after(recs, (n - 1) as nat), recs[n - 1])
    }
}

/// The tag under which `rec` is reported, given the table before it: an `End`
/// takes the innermost open tag of its thread, or `"Unknown"` when none is
/// open.
pub open spec fn event_tag(t: ThreadTable, rec: ProfileRecord) -> &'static str {
    let i = slot_of(t.ids, rec.thread_id) as int;
    match rec.tag {
        TagType::Begin(s) => s,
        TagType::End => if i < t.ids.len() && t.stacks[i].len() > 0 {
            t.stacks[i].last()
        } else {
            "Unknown"
        },
        TagType::Complete(s, _) => s,
        TagType::Allocate(_) => "Allocate",
        TagType::Deallocate(_) => "Deallocate",
    }
}

/// The event phase of a record.
pub open spec fn phase(tag: TagType) -> &'static str {
    match tag {
        TagType::Begin(_) => "B",
        TagType::End => "E",
        TagType::Complete(_, _) => "X",
        TagType::Allocate(_) => "O",
        TagType::Deallocate(_) => "O",
    }
}

/// What follows the common fields of an event: the duration of a complete
/// event, the id and amount of an allocation snapshot.
pub open spec fn extra_fields(tag: TagType) -> Seq<u8> {
    match tag {
        TagType::Complete(_, d) => ",\"dur\":".spec_bytes() + signed_decimal(d as int),
        TagType::Allocate(a) => ",\"id\":0,\"args\":{\"snapshot\":{\"amount\":".spec_bytes()
            + decimal(a as nat) + "}}".spec_bytes(),
        TagType::Deallocate(a) => ",\"id\":1,\"args\":{\"snapshot\":{\"amount\":".spec_bytes()
            + decimal(a as nat) + "}}".spec_bytes(),
        _ => Seq::empty(),
    }
}

/// The JSON object of an event reported under `tag`, of kind `kind`, at `ts`
/// microseconds into the session, on the thread with ordinal `ordinal`.
pub open spec fn event_object(tag: &'static str, kind: TagType, ts: nat, ordinal: nat) -> Seq<u8> {
    "{\"name\":\"".spec_bytes() + escape_json(tag.spec_bytes()) + "\",\"ph\":\"".spec_bytes()
        + phase(kind).spec_bytes() + "\",\"ts\":".spec_bytes() + decimal(ts) + ",\"tid\":".spec_bytes()
        + decimal(ordinal) + ",\"pid\":0".spec_bytes() + extra_fields(kind) + "}".spec_bytes()
}

/// The JSON object of `rec`, given the table before it.
pub open spec fn event_json(t: ThreadTable, rec: ProfileRecord, start: TimePoint, frequency: int) -> Seq<u8> {
    event_object(
        event_tag(t, rec),
        rec.tag,
        micros_between(start.0 as int, rec.time.0 as int, frequency) as nat,
        slot_of(t.ids, rec.thread_id),
    )
}

/// The name field of an event's JSON object reads back, with JSON's escapes
/// undone, as exactly the tag the event is reported under, and ends at the
/// field's closing quote.
pub proof fn lemma_event_name_reads_back(tag: &'static str, kind: TagType, ts: nat, ordinal: nat)
    ensures
        ({
            let obj = event_object(tag, kind, ts, ordinal);
            let k = "{\"name\":\"".spec_bytes().len() as int;
            read_json_string(obj.subrange(k, obj.len() as int)) == Some(
                (tag.spec_bytes(), escape_json(tag.spec_bytes()).len()),
            )
        }),
{
    let obj = event_object(tag, kind, ts, ordinal);
    let head = "{\"name\":\"".spec_bytes();
    let sep = "\",\"ph\":\"".spec_bytes();
    reveal_strlit("\",\"ph\":\"");
    vstd::string::is_ascii_spec_bytes("\",\"ph\":\"");
    assert(sep[0] == QUOTE);
    let rest = sep.subrange(1, sep.len() as int) + phase(kind).spec_bytes() + "\",\"ts\":".spec_bytes()
        + decimal(ts) + ",\"tid\":".spec_bytes() + decimal(ordinal) + ",\"pid\":0".spec_bytes()
        + extra_fields(kind) + "}".spec_bytes();
    lemma_escape_round_trip(tag.spec_bytes(), rest);
    assert(sep =~= seq![QUOTE] + sep.subrange(1, sep.len() as int));
    assert(obj.subrange(head.len() as int, obj.len() as int) =~= escape_json(tag.spec_bytes())
        + seq![QUOTE] + rest);
}

/// Chunk `k` of the document: the opening, then one chunk per record (each
/// after the first led by a separator), then the closing.
pub open spec fn chunk(recs: Seq<ProfileRecord>, start: TimePoint, frequency: int, k: nat) -> Seq<u8> {
    if k == 0 {
        "{\"traceEvents\":[\n".spec_bytes()
    } else if k <= recs.len() {
        (if k > 1 {
            ",\n".spec_bytes()
        } else {
            Seq::empty()
        }) + event_json(table_after(recs, (k - 1) as nat), recs[k - 1], start, frequency)
    } else {
        "\n]\n}\n".spec_bytes()
    }
}

/// Finding a thread id by a scan from the front gives its slot.
proof fn lemma_slot_of_scan(ids: Seq<u32>, tid: u32, i: int)
    requires
        0 <= i <= ids.len(),
        forall|k: int| 0 <= k < i ==> ids[k] != tid,
        i == ids.len() || ids[i] == tid,
    ensures
        slot_of(ids, tid) == i,
    decreases i,
{
    if i > 0 {
        lemma_slot_of_scan(ids.drop_first(), tid, i - 1);
    }
}

/// Appends what follows the common fields of an event of kind `kind`.
fn write_extra_fields(out: &mut Vec<u8>, kind: TagType)
    ensures
        final(out)@ == old(out)@ + extra_fields(kind),
{
    match kind {
        TagType::Complete(_, d) => {
            push_str(out, ",\"dur\":");
            push_signed_decimal(out, d);
        },
        TagType::Allocate(a) => {
            push_str(out, ",\"id\":0,\"args\":{\"snapshot\":{\"amount\":");
            push_decimal(out, a as u64);
            push_str(out, "}}");
        },
        TagType::Deallocate(a) => {
            push_str(out, ",\"id\":1,\"args\":{\"snapshot\":{\"amount\":");
            push_decimal(out, a as u64);
            push_str(out, "}}");
        },
        _ => {},
    }
    assert(final(out)@ =~= old(out)@ + extra_fields(kind));
}

/// Appends the JSON object of one event (see `event_object`).
fn write_event(out: &mut Vec<u8>, tag: &'static str, kind: TagType, ts: u64, ordinal: u64)
    ensures
        final(out)@ == old(out)@ + event_object(tag, kind, ts as nat, ordinal as nat),
{
    push_str(out, "{\"name\":\"");
    clean_json_str(tag.as_bytes(), out);
    push_str(out, "\",\"ph\":\"");
    let ph: &'static str = match kind {
        TagType::Begin(_) => "B",
        TagType::End => "E",
        TagType::Complete(_, _) => "X",
        TagType::Allocate(_) => "O",
        TagType::Deallocate(_) => "O",
    };
    push_str(out, ph);
    push_str(out, "\",\"ts\":");
    push_decimal(out, ts);
    push_str(out, ",\"tid\":");
    push_decimal(out, ordinal);
    push_str(out, ",\"pid\":0");
    write_extra_fields(out, kind);
    push_str(out, "}");
    assert(final(out)@ =~= old(out)@ + event_object(tag, kind, ts as nat, ordinal as nat));
}

/// Writes the records of a stopped session out as a JSON document, one chunk
/// per call of `next_chunk`.
pub struct TraceWriter {
    trace: Trace,
    ids: Vec<u32>,
    stacks: Vec<Vec<&'static str>>,
    next: usize,
    opened: bool,
    closed: bool,
}

impl TraceWriter {
    /// The records being written.
    pub closed spec fn spec_records(&self) -> Seq<ProfileRecord> {
        self.trace.records@
    }

    /// The start time that event times are measured from.
    pub closed spec fn spec_start(&self) -> TimePoint {
        self.trace.start_time
    }

    /// Ticks per second of the clock the records were read from.
    pub closed spec fn spec_frequency(&self) -> int {
        self.trace.stopwatch.spec_frequency()
    }

    /// How many chunks have been handed out.
    pub closed spec fn position(&self) -> nat {
        if !self.opened {
            0
        } else if !self.closed {
            self.next as nat + 1
        } else {
            self.trace.records@.len() + 2
        }
    }

    closed spec fn table(&self) -> ThreadTable {
        ThreadTable {
            ids: self.ids@,
            stacks: Seq::new(self.stacks@.len(), |i: int| self.stacks@[i]@),
        }
    }

    /// The walk state matches the records walked so far.
    pub closed spec fn wf(&self) -> bool {
        &&& self.next <= self.trace.records@.len()
        &&& !self.opened ==> self.next == 0
        &&& self.closed ==> self.opened && self.next == self.trace.records@.len()
        &&& self.stacks@.len() == self.ids@.len()
        &&& self.table() == table_after(self.trace.records@, self.next as nat)
    }

    /// A writer for `trace`, about to hand out its first chunk.
    pub fn new(trace: Trace) -> (r: TraceWriter)
        ensures
            r.wf(),
            r.position() == 0,
            r.spec_records() == trace.records@,
            r.spec_start() == trace.start_time,
            r.spec_frequency() == trace.stopwatch.spec_frequency(),
    {
        let r = TraceWriter {
            trace,
            ids: Vec::new(),
            stacks: Vec::new(),
            next: 0,
            opened: false,
            closed: false,
        };
        assert(r.table() =~= table_after(r.trace.records@, 0));
        r
    }

    /// Walks `rec` through the thread table: returns its thread's ordinal and
    /// the tag it is reported under.
    fn walk(&mut self, rec: ProfileRecord) -> (r: (usize, &'static str))
        requires
            old(self).stacks@.len() == old(self).ids@.len(),
        ensures
            final(self).stacks@.len() == final(self).ids@.len(),
            final(self).table() == table_step(old(self).table(), rec),
            r.0 == slot_of(old(self).ids@, rec.thread_id),
            r.1 == event_tag(old(self).table(), rec),
            final(self).trace == old(self).trace,
            final(self).next == old(self).next,
            final(self).opened == old(self).opened,
            final(self).closed == old(self).closed,
    {
        let ghost t0 = self.table();
        let tid = rec.thread_id;
        let mut i: usize = 0;
        while i < self.ids.len() && self.ids[i] != tid
            invariant
                i <= self.ids@.len(),
                forall|k: int| 0 <= k < i ==> self.ids@[k] != tid,
            decreases self.ids@.len() - i,
        {
            i = i + 1;
        }
        proof {
            lemma_slot_of_scan(self.ids@, tid, i as int);
        }
        if i == self.ids.len() {
            self.ids.push(tid);
            self.stacks.push(Vec::new());
        }
        let ghost t1 = self.table();
        assert(t1 =~= (if i == t0.ids.len() {
            ThreadTable { ids: t0.ids.push(tid), stacks: t0.stacks.push(Seq::empty()) }
        } else {
            t0
        }));
        let tag: &'static str = match rec.tag {
            TagType::Begin(s) => {
                let mut st: Vec<&'static str> = Vec::new();
                self.stacks.set_and_swap(i, &mut st);
                st.push(s);
                self.stacks.set_and_swap(i, &mut st);
                assert(self.table() =~= ThreadTable { stacks: t1.stacks.update(i as int, t1.stacks[i as int].push(s)), ..t1 });
                s
            },
            TagType::End => {
                let mut st: Vec<&'static str> = Vec::new();
                self.stacks.set_and_swap(i, &mut st);
                let top = st.pop();
                self.stacks.set_and_swap(i, &mut st);
                match top {
                    Some(s) => {
                        assert(self.table() =~= ThreadTable { stacks: t1.stacks.update(i as int, t1.stacks[i as int].drop_last()), ..t1 });
                        s
                    },
                    None => {
                        assert(self.table() =~= t1);
                        "Unknown"
                    },
                }
            },
            TagType::Complete(s, _) => s,
            TagType::Allocate(_) => "Allocate",
            TagType::Deallocate(_) => "Deallocate",
        };
        (i, tag)
    }

    /// Hands out the next chunk of the document, or `None` once the closing
    /// has been handed out.
    pub fn next_chunk(&mut self) -> (r: Option<Vec<u8>>)
        requires
            old(self).wf(),
        ensures
            final(self).wf(),
            final(self).spec_records() == old(self).spec_records(),
            final(self).spec_start() == old(self).spec_start(),
            final(self).spec_frequency() == old(self).spec_frequency(),
            old(self).position() < old(self).spec_records().len() + 2 ==> {
                &&& r matches Some(c) && c@ == chunk(
                    old(self).spec_records(),
                    old(self).spec_start(),
                    old(self).spec_frequency(),
                    old(self).position(),
                )
                &&& final(self).position() == old(self).position() + 1
            },
            old(self).position() >= old(self).spec_records().len() + 2 ==> r is None
                && final(self).position() == old(self).position(),
    {
        let mut out: Vec<u8> = Vec::new();
        if !self.opened {
            self.opened = true;
            push_str(&mut out, "{\"traceEvents\":[\n");
            return Some(out);
        }
        if self.closed {
            return None;
        }
        if self.next == self.trace.records.len() {
            self.closed = true;
            push_str(&mut out, "\n]\n}\n");
            return Some(out);
        }
        let ghost recs = self.trace.records@;
        let ghost t = self.table();
        let k = self.next;
        let rec = self.trace.records[k];
        let (slot, tag) = self.walk(rec);
        if k > 0 {
            push_str(&mut out, ",\n");
        }
        let ghost lead = out@;
        let ts = self.trace.stopwatch.get_milliseconds(&self.trace.start_time, &rec.time);
        write_event(&mut out, tag, rec.tag, ts as u64, slot as u64);
        assert(out@ =~= lead + event_json(t, rec, self.trace.start_time, self.trace.stopwatch.spec_frequency()));
        self.next = k + 1;
        assert(table_after(recs, (k + 1) as nat) == table_step(table_after(recs, k as nat), recs[k as int]));
        assert(out@ =~= chunk(recs, self.trace.start_time, self.trace.stopwatch.spec_frequency(), (k + 1) as nat));
        Some(out)
    }
}

} // verus!
