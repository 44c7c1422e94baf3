//! How the written trace numbers threads and pairs `End` records with the
//! scopes they close, stated over the records alone.

use vstd::prelude::*;

use crate::serialize::{event_tag, slot_of, table_after, table_step, ThreadTable};
use crate::session::{ProfileRecord, TagType};

verus! {

/// How many scopes of thread `tid` are open after the first `n` records: a
/// `Begin` of that thread opens one, an `End` closes one if any is open.
pub open spec fn open_count(recs: Seq<ProfileRecord>, n: nat, tid: u32) -> nat
    decreases n,
{
    if n == 0 || n > recs.len() {
        0
    } else {
        let c = open_count(recs, (n - 1) as nat, tid);
        let r = recs[n - 1];
        if r.thread_id != tid {
            c
        } else {
            match r.tag {
                TagType::Begin(_) => c + 1,
                TagType::End => if c > 0 {
                    (c - 1) as nat
                } else {
                    0
                },
                _ => c,
            }
        }
    }
}

/// The latest of the first `n` records that is a `Begin` of thread `tid`
/// opened when `d` scopes of that thread were open; -1 when there is none.
pub open spec fn latest_open(recs: Seq<ProfileRecord>, n: nat, tid: u32, d: int) -> int
    decreases n,
{
    if n == 0 || n > recs.len() {
        -1
    } else if recs[n - 1].thread_id == tid && recs[n - 1].tag is Begin && open_count(
        recs,
        (n - 1) as nat,
        tid,
    ) == d {
        n - 1
    } else {
        latest_open(recs, (n - 1) as nat, tid, d)
    }
}

proof fn lemma_slot_of_bound(ids: Seq<u32>, tid: u32)
    ensures
        slot_of(ids, tid) <= ids.len(),
        slot_of(ids, tid) < ids.len() ==> ids[slot_of(ids, tid) as int] == tid,
        slot_of(ids, tid) == ids.len() <==> !ids.contains(tid),
    decreases ids.len(),
{
    if ids.len() > 0 {
        assert(ids[0] == tid ==> ids.contains(tid));
        if ids[0] != tid {
            lemma_slot_of_bound(ids.drop_first(), tid);
            if ids.contains(tid) {
                let k = choose|k: int| 0 <= k < ids.len() && ids[k] == tid;
                assert(ids.drop_first()[k - 1] == tid);
            }
            if ids.drop_first().contains(tid) {
                let k = choose|k: int| 0 <= k < ids.drop_first().len() && ids.drop_first()[k] == tid;
                assert(ids[k + 1] == tid);
            }
        }
    }
}

proof fn lemma_slot_of_push(ids: Seq<u32>, x: u32, tid: u32)
    ensures
        slot_of(ids.push(x), tid) == (if slot_of(ids, tid) < ids.len() {
            slot_of(ids, tid)
        } else if x == tid {
            ids.len()
        } else {
            ids.len() + 1
        }),
    decreases ids.len(),
{
    lemma_slot_of_bound(ids, tid);
    if ids.len() == 0 {
        assert(ids.push(x).drop_first() =~= Seq::<u32>::empty());
        assert(slot_of(Seq::<u32>::empty(), tid) == 0);
        assert(ids.push(x)[0] == x);
    } else {
        assert(ids.push(x)[0] == ids[0]);
        if ids[0] != tid {
            assert(ids.push(x).drop_first() =~= ids.drop_first().push(x));
            lemma_slot_of_push(ids.drop_first(), x, tid);
            lemma_slot_of_bound(ids.drop_first(), tid);
            assert(slot_of(ids, tid) == 1 + slot_of(ids.drop_first(), tid));
            assert(slot_of(ids.push(x), tid) == 1 + slot_of(ids.push(x).drop_first(), tid));
        }
    }
}

/// `t`, the table after the first `n` records, holds for thread `tid` one tag
/// per open scope: at depth `d`, the tag of the latest `Begin` opened at depth
/// `d`.
spec fn tracks_thread(recs: Seq<ProfileRecord>, n: nat, tid: u32, t: ThreadTable) -> bool {
    let i = slot_of(t.ids, tid) as int;
    &&& t.stacks.len() == t.ids.len()
    &&& i <= t.ids.len()
    &&& i == t.ids.len() ==> open_count(recs, n, tid) == 0
    &&& i < t.ids.len() ==> t.stacks[i].len() == open_count(recs, n, tid)
    &&& i < t.ids.len() ==> forall|d: int|
        #![trigger t.stacks[i][d]]
        #![trigger latest_open(recs, n, tid, d)]
        0 <= d < t.stacks[i].len() ==> {
            let m = latest_open(recs, n, tid, d);
            &&& 0 <= m < n
            &&& recs[m].thread_id == tid
            &&& recs[m].tag is Begin
            &&& t.stacks[i][d] == recs[m].tag->Begin_0
        }
}

/// The thread table after `n` records holds, for thread `tid`, one tag per
/// open scope: at depth `d`, the tag of the latest `Begin` opened at depth `d`.
proof fn lemma_table_tracks_thread(recs: Seq<ProfileRecord>, n: nat, tid: u32)
    requires
        n <= recs.len(),
    ensures
        tracks_thread(recs, n, tid, table_after(recs, n)),
    decreases n,
{
    if n == 0 {
        return;
    }
    let p = (n - 1) as nat;
    lemma_table_tracks_thread(recs, p, tid);
    let t = table_after(recs, p);
    let r = recs[p as int];
    let t2 = table_after(recs, n);
    assert(t2 == table_step(t, r));
    let i = slot_of(t.ids, tid) as int;
    let j = slot_of(t.ids, r.thread_id) as int;
    lemma_slot_of_bound(t.ids, tid);
    lemma_slot_of_bound(t.ids, r.thread_id);
    lemma_slot_of_push(t.ids, r.thread_id, tid);
    let t1 = if j == t.ids.len() {
        ThreadTable { ids: t.ids.push(r.thread_id), stacks: t.stacks.push(Seq::empty()) }
    } else {
        t
    };
    let i2 = slot_of(t2.ids, tid) as int;
    assert(t2.ids == t1.ids);
    assert(t2.stacks.len() == t1.stacks.len());
    let c = open_count(recs, p, tid);
    if r.thread_id != tid {
        assert(open_count(recs, n, tid) == c);
        if i < t.ids.len() {
            assert(i2 == i);
            assert(j != i);
            assert(t2.stacks[i] == t.stacks[i]);
            assert forall|d: int|
                #![trigger t2.stacks[i2][d]]
                #![trigger latest_open(recs, n, tid, d)]
                0 <= d < t2.stacks[i2].len() implies {
                let m = latest_open(recs, n, tid, d);
                &&& 0 <= m < n
                &&& recs[m].thread_id == tid
                &&& recs[m].tag is Begin
                &&& t2.stacks[i2][d] == recs[m].tag->Begin_0
            } by {
                let m = latest_open(recs, p, tid, d);
                assert(latest_open(recs, n, tid, d) == m);
                assert(t.stacks[i][d] == t.stacks[i][d]);
                assert(0 <= m < p);
                assert(t2.stacks[i2][d] == t.stacks[i][d]);
                assert(t.stacks[i][d] == recs[m].tag->Begin_0);
            }
            assert(tracks_thread(recs, n, tid, t2));
        } else {
            assert(i2 == t2.ids.len());
            assert(tracks_thread(recs, n, tid, t2));
        }
    } else {
        assert(j == i);
        assert(i2 == i);
        assert(t1.stacks[i].len() == c) by {
            if i == t.ids.len() {
                assert(t1.stacks[i] == Seq::<&'static str>::empty());
            }
        };
        assert forall|d: int|
                #![trigger t1.stacks[i][d]]
                #![trigger latest_open(recs, p, tid, d)]
                0 <= d < t1.stacks[i].len() implies {
            let m = latest_open(recs, p, tid, d);
            &&& 0 <= m < p
            &&& recs[m].thread_id == tid
            &&& recs[m].tag is Begin
            &&& t1.stacks[i][d] == recs[m].tag->Begin_0
        } by {
            assert(i < t.ids.len());
            assert(t.stacks[i][d] == t.stacks[i][d]);
        }
        match r.tag {
            TagType::Begin(s) => {
                assert(open_count(recs, n, tid) == c + 1);
                assert(t2.stacks[i] == t1.stacks[i].push(s));
                assert forall|d: int|
                #![trigger t2.stacks[i2][d]]
                #![trigger latest_open(recs, n, tid, d)]
                0 <= d < t2.stacks[i2].len() implies {
                    let m = latest_open(recs, n, tid, d);
                    &&& 0 <= m < n
                    &&& recs[m].thread_id == tid
                    &&& recs[m].tag is Begin
                    &&& t2.stacks[i2][d] == recs[m].tag->Begin_0
                } by {
                    if d < c {
                        assert(latest_open(recs, n, tid, d) == latest_open(
                            recs,
                            p,
                            tid,
                            d,
                        ));
                        assert(t1.stacks[i][d] == t1.stacks[i][d]);
                    } else {
                        assert(latest_open(recs, n, tid, d) == p);
                    }
                }
                assert(tracks_thread(recs, n, tid, t2));
            },
            TagType::End => {
                if c > 0 {
                    assert(open_count(recs, n, tid) == c - 1);
                    assert(t2.stacks[i] == t1.stacks[i].drop_last());
                } else {
                    assert(t2.stacks[i] == t1.stacks[i]);
                }
                assert forall|d: int|
                #![trigger t2.stacks[i2][d]]
                #![trigger latest_open(recs, n, tid, d)]
                0 <= d < t2.stacks[i2].len() implies {
                    let m = latest_open(recs, n, tid, d);
                    &&& 0 <= m < n
                    &&& recs[m].thread_id == tid
                    &&& recs[m].tag is Begin
                    &&& t2.stacks[i2][d] == recs[m].tag->Begin_0
                } by {
                    assert(latest_open(recs, n, tid, d) == latest_open(recs, p, tid, d));
                    assert(t1.stacks[i][d] == t1.stacks[i][d]);
                }
            },
            _ => {
                assert(open_count(recs, n, tid) == c);
                assert(t2.stacks[i] == t1.stacks[i]);
                assert forall|d: int|
                #![trigger t2.stacks[i2][d]]
                #![trigger latest_open(recs, n, tid, d)]
                0 <= d < t2.stacks[i2].len() implies {
                    let m = latest_open(recs, n, tid, d);
                    &&& 0 <= m < n
                    &&& recs[m].thread_id == tid
                    &&& recs[m].tag is Begin
                    &&& t2.stacks[i2][d] == recs[m].tag->Begin_0
                } by {
                    assert(latest_open(recs, n, tid, d) == latest_open(recs, p, tid, d));
                    assert(t1.stacks[i][d] == t1.stacks[i][d]);
                }
            },
        }
    }
}

/// Each `End` record that closes an open scope of its thread is reported under
/// the tag of the `Begin` that opened it: the latest `Begin` of the same thread
/// opened at the depth the `End` returns to. Records of other threads, however
/// interleaved, take no part.
pub proof fn lemma_end_reports_matching_begin(recs: Seq<ProfileRecord>, j: nat)
    requires
        j < recs.len(),
        recs[j as int].tag is End,
        open_count(recs, j, recs[j as int].thread_id) > 0,
    ensures
        ({
            let tid = recs[j as int].thread_id;
            let depth = open_count(recs, j, tid) - 1;
            let m = latest_open(recs, j, tid, depth);
            &&& 0 <= m < j
            &&& recs[m].thread_id == tid
            &&& recs[m].tag is Begin
            &&& open_count(recs, m as nat, tid) == depth
            &&& open_count(recs, j + 1, tid) == depth
            &&& event_tag(table_after(recs, j), recs[j as int]) == recs[m].tag->Begin_0
        }),
{
    let tid = recs[j as int].thread_id;
    lemma_table_tracks_thread(recs, j, tid);
    let t = table_after(recs, j);
    let i = slot_of(t.ids, tid) as int;
    let depth = open_count(recs, j, tid) - 1;
    assert(t.stacks[i][depth as int] == t.stacks[i].last());
    lemma_latest_open_depth(recs, j, tid, depth);
}

/// The `Begin` found by `latest_open` was opened at the depth asked for.
proof fn lemma_latest_open_depth(recs: Seq<ProfileRecord>, n: nat, tid: u32, d: int)
    requires
        n <= recs.len(),
    ensures
        latest_open(recs, n, tid, d) >= 0 ==> open_count(
            recs,
            latest_open(recs, n, tid, d) as nat,
            tid,
        ) == d,
    decreases n,
{
    if n > 0 {
        lemma_latest_open_depth(recs, (n - 1) as nat, tid, d);
    }
}

/// An `End` record with no open scope on its thread is reported under the tag
/// `"Unknown"`.
pub proof fn lemma_unmatched_end_is_unknown(recs: Seq<ProfileRecord>, j: nat)
    requires
        j < recs.len(),
        recs[j as int].tag is End,
        open_count(recs, j, recs[j as int].thread_id) == 0,
    ensures
        event_tag(table_after(recs, j), recs[j as int]) == "Unknown",
{
    lemma_table_tracks_thread(recs, j, recs[j as int].thread_id);
}

/// The thread ids of the first `n` records.
pub open spec fn threads_before(recs: Seq<ProfileRecord>, n: int) -> Set<u32> {
    Set::new(|x: u32| exists|i: int| 0 <= i < n && recs[i].thread_id == x)
}

/// The table after `n` records lists each thread of those records once.
proof fn lemma_ids_are_threads(recs: Seq<ProfileRecord>, n: nat)
    requires
        n <= recs.len(),
    ensures
        table_after(recs, n).ids.no_duplicates(),
        table_after(recs, n).ids.to_set() == threads_before(recs, n as int),
    decreases n,
{
    if n == 0 {
        assert(table_after(recs, 0).ids.to_set() =~= threads_before(recs, 0));
        return;
    }
    let p = (n - 1) as nat;
    lemma_ids_are_threads(recs, p);
    let ids = table_after(recs, p).ids;
    let x = recs[p as int].thread_id;
    let ids2 = table_after(recs, n).ids;
    lemma_slot_of_bound(ids, x);
    if slot_of(ids, x) == ids.len() {
        assert(ids2 == ids.push(x));
        ids.lemma_push_to_set_commute(x);
        assert(threads_before(recs, n as int) =~= threads_before(recs, p as int).insert(x));
        assert forall|a: int, b: int| 0 <= a < b < ids2.len() implies ids2[a] != ids2[b] by {
            if b == ids.len() {
                assert(ids.contains(ids2[a]));
            }
        }
    } else {
        assert(ids2 == ids);
        assert(ids.to_set().contains(x));
        assert(threads_before(recs, n as int) =~= threads_before(recs, p as int));
    }
}

/// Once a thread is in the table, its slot no longer moves.
proof fn lemma_slot_stays(recs: Seq<ProfileRecord>, f: nat, n: nat, tid: u32)
    requires
        f < n <= recs.len(),
        recs[f as int].thread_id == tid,
        !table_after(recs, f).ids.contains(tid),
    ensures
        slot_of(table_after(recs, n).ids, tid) == table_after(recs, f).ids.len(),
        slot_of(table_after(recs, n).ids, tid) < table_after(recs, n).ids.len(),
    decreases n,
{
    let p = (n - 1) as nat;
    let ids = table_after(recs, p).ids;
    let x = recs[p as int].thread_id;
    lemma_slot_of_bound(ids, x);
    lemma_slot_of_bound(ids, tid);
    lemma_slot_of_push(ids, x, tid);
    if p > f {
        lemma_slot_stays(recs, f, p, tid);
    }
    if slot_of(ids, x) == ids.len() {
        assert(table_after(recs, n).ids == ids.push(x));
    } else {
        assert(table_after(recs, n).ids == ids);
    }
}

/// Threads are numbered in the order in which they first appear: every
/// record of a thread carries the ordinal that the thread's first record `f`
/// got, which is the number of distinct threads among the records before it.
pub proof fn lemma_ordinal_is_first_appearance(recs: Seq<ProfileRecord>, j: nat, f: nat)
    requires
        j < recs.len(),
        f <= j,
        recs[f as int].thread_id == recs[j as int].thread_id,
        forall|i: int| 0 <= i < f ==> recs[i].thread_id != recs[j as int].thread_id,
    ensures
        threads_before(recs, f as int).finite(),
        slot_of(table_after(recs, j).ids, recs[j as int].thread_id) == threads_before(
            recs,
            f as int,
        ).len(),
{
    let tid = recs[j as int].thread_id;
    let ids = table_after(recs, f).ids;
    lemma_ids_are_threads(recs, f);
    ids.unique_seq_to_set();
    assert(!threads_before(recs, f as int).contains(tid));
    assert(!ids.contains(tid)) by {
        if ids.contains(tid) {
            assert(ids.to_set().contains(tid));
        }
    }
    if j == f {
        lemma_slot_of_bound(ids, tid);
    } else {
        lemma_slot_stays(recs, f, j, tid);
    }
}

} // verus!
