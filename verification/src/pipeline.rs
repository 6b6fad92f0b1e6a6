//! The staged write pipeline's data: request logs, their batching, and
//! the roll-up of a flushed batch into per-visitor visits.
//!
//! The channels, timers and store connections around this logic live in
//! the embedding binary; it hands a drained batch in and writes the
//! resulting rows out.

use vstd::prelude::*;

use crate::fingerprint::VisitorHash;
use crate::version::VersionName;

verus! {

/// A batch is flushed at the latest when it holds this many records.
pub const BATCH_MAX: usize = 1024;

/// One request on the hot path, as recorded for analytics.
#[derive(Debug)]
pub struct RequestLog {
    pub time: u64,
    pub visitor: VisitorHash,
    pub version: VersionName,
    pub uri: String,
}

impl Clone for RequestLog {
    fn clone(&self) -> (r: Self)
        ensures
            r.time == self.time,
            r.visitor == self.visitor,
            r.version@ == self.version@,
            r.uri@ == self.uri@,
    {
        RequestLog {
            time: self.time,
            visitor: self.visitor,
            version: self.version.clone(),
            uri: self.uri.clone(),
        }
    }
}

/// The aggregate of all request logs sharing one visitor: its first and
/// last request time, and how many requests it made.
#[derive(Debug)]
pub struct Visit {
    pub first_request_time: u64,
    pub last_request_time: u64,
    pub request_count: u32,
    pub visitor: VisitorHash,
    pub version: VersionName,
}

impl Clone for Visit {
    fn clone(&self) -> (r: Self)
        ensures
            r.first_request_time == self.first_request_time,
            r.last_request_time == self.last_request_time,
            r.request_count == self.request_count,
            r.visitor == self.visitor,
            r.version@ == self.version@,
    {
        Visit {
            first_request_time: self.first_request_time,
            last_request_time: self.last_request_time,
            request_count: self.request_count,
            visitor: self.visitor,
            version: self.version.clone(),
        }
    }
}

/// How many of the first `n` logs belong to visitor `v`.
pub open spec fn count_prefix(logs: Seq<RequestLog>, n: int, v: VisitorHash) -> nat
    decreases n,
{
    if n <= 0 {
        0
    } else {
        count_prefix(logs, n - 1, v) + if logs[n - 1].visitor == v {
            1nat
        } else {
            0nat
        }
    }
}

/// How many logs belong to visitor `v`.
pub open spec fn count_of(logs: Seq<RequestLog>, v: VisitorHash) -> nat {
    count_prefix(logs, logs.len() as int, v)
}

/// The total request count over a list of visits.
pub open spec fn sum_counts(vs: Seq<Visit>) -> nat
    decreases vs.len(),
{
    if vs.len() == 0 {
        0
    } else {
        sum_counts(vs.drop_last()) + vs.last().request_count as nat
    }
}

/// A visit correctly aggregates the logs of its visitor among the first
/// `n` logs: the count is exact, the first and last times are the
/// earliest and latest, and the version is the first one seen.
#[verifier::opaque]
pub open spec fn visit_matches_logs(v: Visit, logs: Seq<RequestLog>, n: int) -> bool {
    &&& v.request_count == count_prefix(logs, n, v.visitor)
    &&& exists|k: int|
        0 <= k < n && (#[trigger] logs[k]).visitor == v.visitor && logs[k].time
            == v.first_request_time
    &&& forall|k: int|
        0 <= k < n && (#[trigger] logs[k]).visitor == v.visitor ==> logs[k].time
            >= v.first_request_time
    &&& exists|k: int|
        0 <= k < n && (#[trigger] logs[k]).visitor == v.visitor && logs[k].time
            == v.last_request_time
    &&& forall|k: int|
        0 <= k < n && (#[trigger] logs[k]).visitor == v.visitor ==> logs[k].time
            <= v.last_request_time
    &&& exists|k: int|
        0 <= k < n && (#[trigger] logs[k]).visitor == v.visitor && logs[k].version@ == v.version@
            && (forall|k2: int| 0 <= k2 < k ==> (#[trigger] logs[k2]).visitor != v.visitor)
}

/// A visitor count never exceeds the number of logs counted.
proof fn lemma_count_prefix_le(logs: Seq<RequestLog>, n: int, v: VisitorHash)
    requires
        0 <= n <= logs.len(),
    ensures
        count_prefix(logs, n, v) <= n,
    decreases n,
{
    if n > 0 {
        lemma_count_prefix_le(logs, n - 1, v);
    }
}

/// Appending a visit adds its count to the total.
proof fn lemma_sum_counts_push(vs: Seq<Visit>, x: Visit)
    ensures
        sum_counts(vs.push(x)) == sum_counts(vs) + x.request_count,
{
    assert(vs.push(x).drop_last() =~= vs);
    assert(vs.push(x).last() == x);
}

/// Raising one visit's count by one raises the total by one.
proof fn lemma_sum_counts_update_inc(vs: Seq<Visit>, i: int, x: Visit)
    requires
        0 <= i < vs.len(),
        x.request_count == vs[i].request_count + 1,
    ensures
        sum_counts(vs.update(i, x)) == sum_counts(vs) + 1,
    decreases vs.len(),
{
    if i == vs.len() - 1 {
        assert(vs.update(i, x).drop_last() =~= vs.drop_last());
        assert(vs.update(i, x).last() == x);
    } else {
        assert(vs.update(i, x).drop_last() =~= vs.drop_last().update(i, x));
        assert(vs.update(i, x).last() == vs.last());
        lemma_sum_counts_update_inc(vs.drop_last(), i, x);
    }
}

/// Every counted log's visitor owns some visit in the list.
#[verifier::opaque]
pub open spec fn covers(vs: Seq<Visit>, logs: Seq<RequestLog>, n: int) -> bool {
    forall|k: int|
        0 <= k < n ==> exists|m: int|
            0 <= m < vs.len() && (#[trigger] vs[m]).visitor == (#[trigger] logs[k]).visitor
}

/// Coverage carries over to one more log once its visitor has a visit,
/// as long as no listed visitor disappears.
proof fn lemma_covers_extend(prev: Seq<Visit>, cur: Seq<Visit>, logs: Seq<RequestLog>, j: int)
    requires
        0 <= j < logs.len(),
        covers(prev, logs, j),
        prev.len() <= cur.len(),
        forall|m: int| 0 <= m < prev.len() ==> (#[trigger] cur[m]).visitor == prev[m].visitor,
        exists|m: int| 0 <= m < cur.len() && (#[trigger] cur[m]).visitor == logs[j].visitor,
    ensures
        covers(cur, logs, j + 1),
{
    reveal(covers);
    assert forall|k: int| 0 <= k < j + 1 implies exists|m: int|
        0 <= m < cur.len() && (#[trigger] cur[m]).visitor == (#[trigger] logs[k]).visitor by {
        if k < j {
            let m = choose|m: int|
                0 <= m < prev.len() && (#[trigger] prev[m]).visitor == logs[k].visitor;
            assert(cur[m].visitor == logs[k].visitor);
        }
    }
}

/// A visit for another visitor is untouched by one more log.
proof fn lemma_visit_extend_other(v: Visit, logs: Seq<RequestLog>, j: int)
    requires
        0 <= j < logs.len(),
        visit_matches_logs(v, logs, j),
        logs[j].visitor != v.visitor,
    ensures
        visit_matches_logs(v, logs, j + 1),
{
    reveal(visit_matches_logs);
    assert(count_prefix(logs, j + 1, v.visitor) == count_prefix(logs, j, v.visitor));
}

/// Folding one more log of the same visitor into its visit: the count
/// rises by one, the bounds take the new time in, the version stays.
proof fn lemma_visit_extend_same(v_old: Visit, v_new: Visit, logs: Seq<RequestLog>, j: int)
    requires
        0 <= j < logs.len(),
        visit_matches_logs(v_old, logs, j),
        logs[j].visitor == v_old.visitor,
        v_new.visitor == v_old.visitor,
        v_new.version@ == v_old.version@,
        v_new.request_count == v_old.request_count + 1,
        v_new.first_request_time == if logs[j].time < v_old.first_request_time {
            logs[j].time
        } else {
            v_old.first_request_time
        },
        v_new.last_request_time == if logs[j].time > v_old.last_request_time {
            logs[j].time
        } else {
            v_old.last_request_time
        },
    ensures
        visit_matches_logs(v_new, logs, j + 1),
{
    reveal(visit_matches_logs);
    assert(count_prefix(logs, j + 1, v_new.visitor) == count_prefix(logs, j, v_new.visitor) + 1);
    if logs[j].time < v_old.first_request_time {
        assert(logs[j].visitor == v_new.visitor && logs[j].time == v_new.first_request_time);
    }
    if logs[j].time > v_old.last_request_time {
        assert(logs[j].visitor == v_new.visitor && logs[j].time == v_new.last_request_time);
    }
}

/// The first log of a visitor opens its visit.
proof fn lemma_visit_new(v: Visit, logs: Seq<RequestLog>, j: int)
    requires
        0 <= j < logs.len(),
        forall|k: int| 0 <= k < j ==> (#[trigger] logs[k]).visitor != logs[j].visitor,
        v.visitor == logs[j].visitor,
        v.version@ == logs[j].version@,
        v.request_count == 1,
        v.first_request_time == logs[j].time,
        v.last_request_time == logs[j].time,
    ensures
        visit_matches_logs(v, logs, j + 1),
{
    reveal(visit_matches_logs);
    lemma_count_prefix_zero(logs, j, v.visitor);
    assert(count_prefix(logs, j + 1, v.visitor) == 1);
    assert(logs[j].visitor == v.visitor && logs[j].time == v.first_request_time);
}

/// The index of the visit for a visitor, if one is listed.
fn find_visit(vs: &Vec<Visit>, v: VisitorHash) -> (r: Option<usize>)
    ensures
        match r {
            Some(i) => i < vs@.len() && vs@[i as int].visitor == v,
            None => forall|m: int| 0 <= m < vs@.len() ==> (#[trigger] vs@[m]).visitor != v,
        },
{
    let n = vs.len();
    let mut i: usize = 0;
    while i < n
        invariant
            n == vs@.len(),
            i <= n,
            forall|m: int| 0 <= m < i ==> (#[trigger] vs@[m]).visitor != v,
        decreases n - i,
    {
        if vs[i].visitor.0 == v.0 {
            return Some(i);
        }
        i += 1;
    }
    None
}

/// Rolls a flushed batch of request logs into one tentative visit per
/// distinct visitor: an exact count, the earliest and latest time, and
/// the first version seen. The counts add up to the batch's length, and
/// no visit ends before it begins.
#[verifier::rlimit(100)]
pub fn merge_requests(logs: &Vec<RequestLog>) -> (r: Vec<Visit>)
    requires
        logs@.len() <= u32::MAX,
    ensures
        forall|a: int, b: int|
            0 <= a < b < r@.len() ==> (#[trigger] r@[a]).visitor != (#[trigger] r@[b]).visitor,
        covers(r@, logs@, logs@.len() as int),
        forall|m: int|
            0 <= m < r@.len() ==> visit_matches_logs(#[trigger] r@[m], logs@, logs@.len() as int),
        sum_counts(r@) == logs@.len(),
        forall|m: int|
            0 <= m < r@.len() ==> (#[trigger] r@[m]).last_request_time >= r@[m].first_request_time,
{
    let n = logs.len();
    let mut out: Vec<Visit> = Vec::new();
    let mut j: usize = 0;
    proof {
        reveal(covers);
        assert(covers(out@, logs@, 0));
    }
    while j < n
        invariant
            n == logs@.len(),
            n <= u32::MAX,
            j <= n,
            forall|a: int, b: int|
                0 <= a < b < out@.len() ==> (#[trigger] out@[a]).visitor != (
                #[trigger] out@[b]).visitor,
            covers(out@, logs@, j as int),
            forall|m: int|
                0 <= m < out@.len() ==> visit_matches_logs(#[trigger] out@[m], logs@, j as int),
            sum_counts(out@) == j,
        decreases n - j,
    {
        let t = logs[j].time;
        let v = logs[j].visitor;
        match find_visit(&out, v) {
            Some(i) => {
                proof {
                    reveal(visit_matches_logs);
                    assert(visit_matches_logs(out@[i as int], logs@, j as int));
                    assert(out@[i as int].request_count == count_prefix(logs@, j as int, v));
                    lemma_count_prefix_le(logs@, j as int, v);
                }
                let updated = Visit {
                    first_request_time: if t < out[i].first_request_time {
                        t
                    } else {
                        out[i].first_request_time
                    },
                    last_request_time: if t > out[i].last_request_time {
                        t
                    } else {
                        out[i].last_request_time
                    },
                    request_count: out[i].request_count + 1,
                    visitor: v,
                    version: out[i].version.clone(),
                };
                proof {
                    lemma_sum_counts_update_inc(out@, i as int, updated);
                }
                let ghost prev = out@;
                out[i] = updated;
                proof {
                    assert(out@[i as int].visitor == logs@[j as int].visitor);
                    assert forall|m: int| 0 <= m < prev.len() implies (#[trigger] out@[m]).visitor
                        == prev[m].visitor by {}
                    lemma_covers_extend(prev, out@, logs@, j as int);
                    assert forall|m: int| 0 <= m < out@.len() implies visit_matches_logs(
                        #[trigger] out@[m],
                        logs@,
                        j + 1,
                    ) by {
                        if m != i {
                            assert(out@[m] == prev[m]);
                            assert(prev[m].visitor != v);
                            lemma_visit_extend_other(prev[m], logs@, j as int);
                        } else {
                            lemma_visit_extend_same(prev[i as int], updated, logs@, j as int);
                        }
                    }
                }
            },
            None => {
                let visit = Visit {
                    first_request_time: t,
                    last_request_time: t,
                    request_count: 1,
                    visitor: v,
                    version: logs[j].version.clone(),
                };
                proof {
                    lemma_sum_counts_push(out@, visit);
                    reveal(covers);
                    assert forall|k: int| 0 <= k < j implies (#[trigger] logs@[k]).visitor != v by {
                        if logs@[k].visitor == v {
                            let m = choose|m: int|
                                0 <= m < out@.len() && (#[trigger] out@[m]).visitor
                                    == logs@[k].visitor;
                            assert(out@[m].visitor != v);
                        }
                    }
                }
                let ghost prev = out@;
                out.push(visit);
                proof {
                    assert(out@[prev.len() as int].visitor == logs@[j as int].visitor);
                    assert forall|m: int| 0 <= m < prev.len() implies (#[trigger] out@[m]).visitor
                        == prev[m].visitor by {}
                    lemma_covers_extend(prev, out@, logs@, j as int);
                    assert forall|m: int| 0 <= m < out@.len() implies visit_matches_logs(
                        #[trigger] out@[m],
                        logs@,
                        j + 1,
                    ) by {
                        if m < prev.len() {
                            assert(out@[m] == prev[m]);
                            assert(prev[m].visitor != v);
                            lemma_visit_extend_other(prev[m], logs@, j as int);
                        } else {
                            assert(out@[m] == visit);
                            lemma_visit_new(visit, logs@, j as int);
                        }
                    }
                }
            },
        }
        j += 1;
    }
    proof {
        assert forall|m: int| 0 <= m < out@.len() implies (#[trigger] out@[m]).last_request_time
            >= out@[m].first_request_time by {
            reveal(visit_matches_logs);
            assert(visit_matches_logs(out@[m], logs@, n as int));
            let k = choose|k: int|
                0 <= k < n && (#[trigger] logs@[k]).visitor == out@[m].visitor && logs@[k].time
                    == out@[m].last_request_time;
            assert(logs@[k].time >= out@[m].first_request_time);
        }
    }
    out
}

/// Two visit rows carry the same data.
pub open spec fn rows_equal(x: Visit, y: Visit) -> bool {
    &&& x.visitor == y.visitor
    &&& x.request_count == y.request_count
    &&& x.first_request_time == y.first_request_time
    &&& x.last_request_time == y.last_request_time
    &&& x.version@ == y.version@
}

/// Some row in the list belongs to visitor `v`.
pub open spec fn visitor_in(vs: Seq<Visit>, v: VisitorHash) -> bool {
    exists|i: int| 0 <= i < vs.len() && (#[trigger] vs[i]).visitor == v
}

/// The row carries an incoming row's data for a visitor the table did
/// not list.
pub open spec fn appended_from(row: Visit, table: Seq<Visit>, incoming: Seq<Visit>) -> bool {
    exists|c: int|
        0 <= c < incoming.len() && rows_equal(row, #[trigger] incoming[c]) && !visitor_in(
            table,
            row.visitor,
        )
}

/// No two rows share a visitor.
pub open spec fn distinct_visitors(vs: Seq<Visit>) -> bool {
    forall|a: int, b: int|
        0 <= a < b < vs.len() ==> (#[trigger] vs[a]).visitor != (#[trigger] vs[b]).visitor
}

/// The store's visit upsert, modelled on the table as a list of rows with
/// pairwise distinct visitors: a row whose visitor arrives again gains the
/// arriving count and takes the arriving last time, keeping its first time
/// and version; an unseen visitor's row is appended as it came. Into an
/// empty table, the batch is written through row for row.
pub fn upsert_visits(table: &Vec<Visit>, incoming: &Vec<Visit>) -> (r: Vec<Visit>)
    requires
        distinct_visitors(table@),
        distinct_visitors(incoming@),
        forall|a: int, b: int|
            0 <= a < table@.len() && 0 <= b < incoming@.len() && (#[trigger] table@[a]).visitor == (
            #[trigger] incoming@[b]).visitor ==> table@[a].request_count
                + incoming@[b].request_count <= u32::MAX,
    ensures
        r@.len() >= table@.len(),
        distinct_visitors(r@),
        forall|a: int|
            0 <= a < table@.len() ==> {
                let o = #[trigger] table@[a];
                let w = r@[a];
                &&& w.visitor == o.visitor
                &&& w.first_request_time == o.first_request_time
                &&& w.version@ == o.version@
                &&& if visitor_in(incoming@, o.visitor) {
                    exists|b: int|
                        0 <= b < incoming@.len() && (#[trigger] incoming@[b]).visitor == o.visitor
                            && w.request_count == o.request_count + incoming@[b].request_count
                            && w.last_request_time == incoming@[b].last_request_time
                } else {
                    w.request_count == o.request_count && w.last_request_time
                        == o.last_request_time
                }
            },
        forall|b: int|
            table@.len() <= b < r@.len() ==> appended_from(#[trigger] r@[b], table@, incoming@),
        forall|c: int|
            0 <= c < incoming@.len() ==> visitor_in(r@, (#[trigger] incoming@[c]).visitor),
        table@.len() == 0 ==> r@.len() == incoming@.len() && (forall|c: int|
            0 <= c < incoming@.len() ==> rows_equal(#[trigger] r@[c], incoming@[c])),
{
    let n = table.len();
    let m = incoming.len();
    let mut out: Vec<Visit> = Vec::new();
    let mut a: usize = 0;
    while a < n
        invariant
            n == table@.len(),
            m == incoming@.len(),
            a <= n,
            out@.len() == a,
            distinct_visitors(table@),
            forall|a2: int,
                b: int,
            |
                0 <= a2 < table@.len() && 0 <= b < incoming@.len() && (
                #[trigger] table@[a2]).visitor == (#[trigger] incoming@[b]).visitor
                    ==> table@[a2].request_count + incoming@[b].request_count <= u32::MAX,
            forall|k: int|
                0 <= k < a ==> {
                    let o = #[trigger] table@[k];
                    let w = out@[k];
                    &&& w.visitor == o.visitor
                    &&& w.first_request_time == o.first_request_time
                    &&& w.version@ == o.version@
                    &&& if visitor_in(incoming@, o.visitor) {
                        exists|b: int|
                            0 <= b < incoming@.len() && (#[trigger] incoming@[b]).visitor
                                == o.visitor && w.request_count == o.request_count
                                + incoming@[b].request_count && w.last_request_time
                                == incoming@[b].last_request_time
                    } else {
                        w.request_count == o.request_count && w.last_request_time
                            == o.last_request_time
                    }
                },
        decreases n - a,
    {
        let row = match find_visit(incoming, table[a].visitor) {
            Some(b) => Visit {
                first_request_time: table[a].first_request_time,
                last_request_time: incoming[b].last_request_time,
                request_count: table[a].request_count + incoming[b].request_count,
                visitor: table[a].visitor,
                version: table[a].version.clone(),
            },
            None => table[a].clone(),
        };
        out.push(row);
        a += 1;
    }
    let ghost updated = out@;
    proof {
        assert forall|x: int, y: int| 0 <= x < y < out@.len() implies (#[trigger] out@[x]).visitor
            != (#[trigger] out@[y]).visitor by {
            assert(out@[x].visitor == table@[x].visitor);
            assert(out@[y].visitor == table@[y].visitor);
        }
    }
    let mut c: usize = 0;
    while c < m
        invariant
            n == table@.len(),
            m == incoming@.len(),
            c <= m,
            out@.len() >= n,
            distinct_visitors(table@),
            distinct_visitors(incoming@),
            distinct_visitors(out@),
            out@.subrange(0, n as int) == updated,
            updated.len() == n,
            forall|k: int| 0 <= k < n ==> (#[trigger] updated[k]).visitor == table@[k].visitor,
            forall|b: int| n <= b < out@.len() ==> appended_from(#[trigger] out@[b], table@, incoming@),
            forall|b: int|
                n <= b < out@.len() ==> exists|c2: int|
                    0 <= c2 < c && rows_equal(#[trigger] out@[b], incoming@[c2]),
            forall|c2: int|
                0 <= c2 < c ==> visitor_in(out@, (#[trigger] incoming@[c2]).visitor),
            n == 0 ==> out@.len() == c && (forall|c2: int|
                0 <= c2 < c ==> rows_equal(#[trigger] out@[c2], incoming@[c2])),
        decreases m - c,
    {
        let ghost before = out@;
        match find_visit(table, incoming[c].visitor) {
            Some(i) => {
                proof {
                    assert(updated[i as int].visitor == incoming@[c as int].visitor);
                    assert(out@[i as int] == updated[i as int]);
                    assert(visitor_in(out@, incoming@[c as int].visitor));
                }
            },
            None => {
                out.push(incoming[c].clone());
                proof {
                    let v = incoming@[c as int].visitor;
                    let last = out@.len() - 1;
                    assert(out@[last].visitor == v);
                    assert(visitor_in(out@, v));
                    assert(out@.subrange(0, n as int) =~= before.subrange(0, n as int));
                    assert(rows_equal(out@[last], incoming@[c as int]));
                    assert(appended_from(out@[last], table@, incoming@));
                    assert forall|c2: int| 0 <= c2 < c implies visitor_in(
                        out@,
                        (#[trigger] incoming@[c2]).visitor,
                    ) by {
                        let idx = choose|idx: int|
                            0 <= idx < before.len() && (#[trigger] before[idx]).visitor
                                == incoming@[c2].visitor;
                        assert(out@[idx].visitor == incoming@[c2].visitor);
                    }
                    assert forall|x: int, y: int| 0 <= x < y < out@.len() implies (
                    #[trigger] out@[x]).visitor != (#[trigger] out@[y]).visitor by {
                        if y == last {
                            if x < n {
                                assert(out@[x] == before.subrange(0, n as int)[x]);
                                assert(out@[x].visitor == table@[x].visitor);
                                assert(visitor_in(table@, table@[x].visitor));
                            } else {
                                let c2 = choose|c2: int|
                                    0 <= c2 < c && rows_equal(#[trigger] before[x], incoming@[c2]);
                                assert(out@[x].visitor == incoming@[c2].visitor);
                            }
                        } else {
                            assert(out@[x] == before[x]);
                            assert(out@[y] == before[y]);
                        }
                    }
                }
            },
        }
        c += 1;
    }
    proof {
        assert(out@.subrange(0, n as int) == updated);
        assert forall|k: int| 0 <= k < n implies #[trigger] out@[k] == updated[k] by {
            assert(out@.subrange(0, n as int)[k] == out@[k]);
        }
    }
    out
}

/// Row-for-row equal tables carry the same total count.
proof fn lemma_sum_counts_pointwise(xs: Seq<Visit>, ys: Seq<Visit>)
    requires
        xs.len() == ys.len(),
        forall|i: int|
            0 <= i < xs.len() ==> (#[trigger] xs[i]).request_count == ys[i].request_count,
    ensures
        sum_counts(xs) == sum_counts(ys),
    decreases xs.len(),
{
    if xs.len() > 0 {
        lemma_sum_counts_pointwise(xs.drop_last(), ys.drop_last());
    }
}

/// Flushing one batch into an empty table: the table then holds one row
/// per distinct visitor of the batch's logs, the counts add up to the
/// number of logs, and no visit ends before it begins.
pub proof fn lemma_flush_into_empty(r: Seq<Visit>, incoming: Seq<Visit>, logs: Seq<RequestLog>)
    requires
        r.len() == incoming.len(),
        forall|c: int| 0 <= c < incoming.len() ==> rows_equal(#[trigger] r[c], incoming[c]),
        distinct_visitors(incoming),
        covers(incoming, logs, logs.len() as int),
        sum_counts(incoming) == logs.len(),
        forall|m: int|
            0 <= m < incoming.len() ==> (#[trigger] incoming[m]).last_request_time
                >= incoming[m].first_request_time,
    ensures
        distinct_visitors(r),
        covers(r, logs, logs.len() as int),
        sum_counts(r) == logs.len(),
        forall|m: int|
            0 <= m < r.len() ==> (#[trigger] r[m]).last_request_time >= r[m].first_request_time,
{
    reveal(covers);
    assert forall|a: int, b: int| 0 <= a < b < r.len() implies (#[trigger] r[a]).visitor != (
    #[trigger] r[b]).visitor by {
        assert(rows_equal(r[a], incoming[a]));
        assert(rows_equal(r[b], incoming[b]));
    }
    assert forall|k: int| 0 <= k < logs.len() implies exists|m: int|
        0 <= m < r.len() && (#[trigger] r[m]).visitor == (#[trigger] logs[k]).visitor by {
        let m = choose|m: int|
            0 <= m < incoming.len() && (#[trigger] incoming[m]).visitor == logs[k].visitor;
        assert(rows_equal(r[m], incoming[m]));
        assert(r[m].visitor == logs[k].visitor);
    }
    lemma_sum_counts_pointwise(r, incoming);
}

/// A bounded buffer for one batch actor: records go in one at a time, and
/// the whole buffer is taken for a flush when it is full or its deadline
/// has passed.
#[derive(Debug)]
pub struct Batcher<T> {
    buf: Vec<T>,
}

impl<T> Batcher<T> {
    /// The records buffered so far, oldest first.
    pub closed spec fn buffered(&self) -> Seq<T> {
        self.buf@
    }

    /// An empty buffer.
    pub fn new() -> (r: Batcher<T>)
        ensures
            r.buffered().len() == 0,
    {
        Batcher { buf: Vec::new() }
    }

    /// How many records are buffered.
    pub fn len(&self) -> (n: usize)
        ensures
            n == self.buffered().len(),
    {
        self.buf.len()
    }

    /// Buffers one record; reports whether the buffer has reached the
    /// batch bound and must be flushed now.
    pub fn push(&mut self, record: T) -> (full: bool)
        ensures
            final(self).buffered() == old(self).buffered().push(record),
            full <==> final(self).buffered().len() >= BATCH_MAX,
    {
        self.buf.push(record);
        self.buf.len() >= BATCH_MAX
    }

    /// Hands the whole buffer over for a flush, leaving it empty.
    pub fn take(&mut self) -> (batch: Vec<T>)
        ensures
            batch@ == old(self).buffered(),
            final(self).buffered().len() == 0,
    {
        let mut out: Vec<T> = Vec::new();
        core::mem::swap(&mut self.buf, &mut out);
        out
    }
}

/// A visitor that no counted log names has count zero.
proof fn lemma_count_prefix_zero(logs: Seq<RequestLog>, n: int, v: VisitorHash)
    requires
        0 <= n <= logs.len(),
        forall|k: int| 0 <= k < n ==> (#[trigger] logs[k]).visitor != v,
    ensures
        count_prefix(logs, n, v) == 0,
    decreases n,
{
    if n > 0 {
        lemma_count_prefix_zero(logs, n - 1, v);
    }
}

} // verus!
