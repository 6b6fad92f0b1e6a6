//! Integer aggregation behind the analytics endpoints: visits grouped by
//! version, and events counted by name and version. Turning the sums into
//! averages and percentages is presentation and happens where the JSON is
//! written.

use vstd::prelude::*;

use crate::events::SavedEventData;
use crate::pipeline::Visit;
use crate::text::str_eq;
use crate::version::VersionName;

verus! {

/// A visit shorter than this many seconds counts as a bounce.
pub const BOUNCE_VISIT_MAX_LENGTH: u64 = 5;

/// The integer totals of one version's visits: everything the averages
/// and rates are computed from.
#[derive(Debug)]
pub struct VersionTotals {
    pub name: VersionName,
    pub request_sum: u64,
    pub duration_sum: u64,
    pub bounce_count: u64,
    pub visit_count: u64,
}

/// How many of the first `n` visits belong to the named version.
pub open spec fn vcount_prefix(vs: Seq<Visit>, n: int, name: Seq<char>) -> nat
    decreases n,
{
    if n <= 0 {
        0
    } else {
        vcount_prefix(vs, n - 1, name) + if vs[n - 1].version@ == name {
            1nat
        } else {
            0nat
        }
    }
}

/// The requests of the named version's visits among the first `n`.
pub open spec fn rsum_prefix(vs: Seq<Visit>, n: int, name: Seq<char>) -> nat
    decreases n,
{
    if n <= 0 {
        0
    } else {
        rsum_prefix(vs, n - 1, name) + if vs[n - 1].version@ == name {
            vs[n - 1].request_count as nat
        } else {
            0nat
        }
    }
}

/// A visit's length in seconds, truncated to 32 bits as the duration
/// average keeps it.
pub open spec fn duration32(v: Visit) -> u32 {
    ((v.last_request_time - v.first_request_time) as u64) as u32
}

/// The truncated lengths of the named version's visits among the first
/// `n`, added up.
pub open spec fn dsum_prefix(vs: Seq<Visit>, n: int, name: Seq<char>) -> nat
    decreases n,
{
    if n <= 0 {
        0
    } else {
        dsum_prefix(vs, n - 1, name) + if vs[n - 1].version@ == name {
            duration32(vs[n - 1]) as nat
        } else {
            0nat
        }
    }
}

/// How many of the named version's visits among the first `n` were
/// bounces.
pub open spec fn bounce_prefix(vs: Seq<Visit>, n: int, name: Seq<char>) -> nat
    decreases n,
{
    if n <= 0 {
        0
    } else {
        bounce_prefix(vs, n - 1, name) + if vs[n - 1].version@ == name && vs[n
            - 1].last_request_time - vs[n - 1].first_request_time < BOUNCE_VISIT_MAX_LENGTH {
            1nat
        } else {
            0nat
        }
    }
}

/// The totals row of a version correctly aggregates the first `n`
/// visits.
#[verifier::opaque]
pub open spec fn totals_match(t: VersionTotals, vs: Seq<Visit>, n: int) -> bool {
    &&& t.visit_count == vcount_prefix(vs, n, t.name@)
    &&& t.request_sum == rsum_prefix(vs, n, t.name@)
    &&& t.duration_sum == dsum_prefix(vs, n, t.name@)
    &&& t.bounce_count == bounce_prefix(vs, n, t.name@)
    &&& exists|k: int| 0 <= k < n && (#[trigger] vs[k]).version@ == t.name@
}

/// Every counted visit's version owns a totals row.
#[verifier::opaque]
pub open spec fn totals_cover(ts: Seq<VersionTotals>, vs: Seq<Visit>, n: int) -> bool {
    forall|k: int|
        0 <= k < n ==> exists|m: int|
            0 <= m < ts.len() && (#[trigger] ts[m]).name@ == (#[trigger] vs[k]).version@
}

/// A row for another version is untouched by one more visit.
proof fn lemma_totals_extend_other(t: VersionTotals, vs: Seq<Visit>, j: int)
    requires
        0 <= j < vs.len(),
        totals_match(t, vs, j),
        vs[j].version@ != t.name@,
    ensures
        totals_match(t, vs, j + 1),
{
    reveal(totals_match);
}

/// Folding one more visit of the same version into its row.
proof fn lemma_totals_extend_same(t_old: VersionTotals, t_new: VersionTotals, vs: Seq<Visit>, j: int)
    requires
        0 <= j < vs.len(),
        totals_match(t_old, vs, j),
        vs[j].version@ == t_old.name@,
        t_new.name@ == t_old.name@,
        t_new.visit_count == t_old.visit_count + 1,
        t_new.request_sum == t_old.request_sum + vs[j].request_count,
        t_new.duration_sum == t_old.duration_sum + duration32(vs[j]),
        t_new.bounce_count == t_old.bounce_count + if vs[j].last_request_time - vs[j].first_request_time
            < BOUNCE_VISIT_MAX_LENGTH {
            1int
        } else {
            0int
        },
    ensures
        totals_match(t_new, vs, j + 1),
{
    reveal(totals_match);
}

/// The first visit of a version opens its row.
proof fn lemma_totals_new(t: VersionTotals, vs: Seq<Visit>, j: int)
    requires
        0 <= j < vs.len(),
        forall|k: int| 0 <= k < j ==> (#[trigger] vs[k]).version@ != vs[j].version@,
        t.name@ == vs[j].version@,
        t.visit_count == 1,
        t.request_sum == vs[j].request_count,
        t.duration_sum == duration32(vs[j]),
        t.bounce_count == if vs[j].last_request_time - vs[j].first_request_time
            < BOUNCE_VISIT_MAX_LENGTH {
            1int
        } else {
            0int
        },
    ensures
        totals_match(t, vs, j + 1),
{
    reveal(totals_match);
    lemma_prefix_zero(vs, j, t.name@);
}

/// A version no counted visit names has empty totals.
proof fn lemma_prefix_zero(vs: Seq<Visit>, n: int, name: Seq<char>)
    requires
        0 <= n <= vs.len(),
        forall|k: int| 0 <= k < n ==> (#[trigger] vs[k]).version@ != name,
    ensures
        vcount_prefix(vs, n, name) == 0,
        rsum_prefix(vs, n, name) == 0,
        dsum_prefix(vs, n, name) == 0,
        bounce_prefix(vs, n, name) == 0,
    decreases n,
{
    if n > 0 {
        lemma_prefix_zero(vs, n - 1, name);
    }
}

/// Request and duration sums are bounded by one 32-bit value per visit.
proof fn lemma_sums_bounded(vs: Seq<Visit>, n: int, name: Seq<char>)
    requires
        0 <= n <= vs.len(),
    ensures
        rsum_prefix(vs, n, name) <= n * 0xffff_ffff,
        dsum_prefix(vs, n, name) <= n * 0xffff_ffff,
        vcount_prefix(vs, n, name) <= n,
        bounce_prefix(vs, n, name) <= n,
    decreases n,
{
    if n > 0 {
        lemma_sums_bounded(vs, n - 1, name);
        assert((n - 1) * 0xffff_ffff + 0xffff_ffff == n * 0xffff_ffff) by (nonlinear_arith);
    }
}

/// Coverage carries over to one more visit once its version has a row.
proof fn lemma_cover_extend(
    prev: Seq<VersionTotals>,
    cur: Seq<VersionTotals>,
    vs: Seq<Visit>,
    j: int,
)
    requires
        0 <= j < vs.len(),
        totals_cover(prev, vs, j),
        prev.len() <= cur.len(),
        forall|m: int| 0 <= m < prev.len() ==> (#[trigger] cur[m]).name@ == prev[m].name@,
        exists|m: int| 0 <= m < cur.len() && (#[trigger] cur[m]).name@ == vs[j].version@,
    ensures
        totals_cover(cur, vs, j + 1),
{
    reveal(totals_cover);
    assert forall|k: int| 0 <= k < j + 1 implies exists|m: int|
        0 <= m < cur.len() && (#[trigger] cur[m]).name@ == (#[trigger] vs[k]).version@ by {
        if k < j {
            let m = choose|m: int|
                0 <= m < prev.len() && (#[trigger] prev[m]).name@ == vs[k].version@;
            assert(cur[m].name@ == vs[k].version@);
        }
    }
}

/// The index of a version's totals row, if one is listed.
fn find_totals(ts: &Vec<VersionTotals>, name: &VersionName) -> (r: Option<usize>)
    ensures
        match r {
            Some(i) => i < ts@.len() && ts@[i as int].name@ == name@,
            None => forall|m: int| 0 <= m < ts@.len() ==> (#[trigger] ts@[m]).name@ != name@,
        },
{
    let n = ts.len();
    let mut i: usize = 0;
    while i < n
        invariant
            n == ts@.len(),
            i <= n,
            forall|m: int| 0 <= m < i ==> (#[trigger] ts@[m]).name@ != name@,
        decreases n - i,
    {
        if ts[i].name.matches(name.as_str()) {
            return Some(i);
        }
        i += 1;
    }
    None
}

/// Groups visits by version: one totals row per version seen, carrying
/// the exact visit count, request sum, truncated duration sum, and
/// bounce count of that version's visits.
#[verifier::rlimit(60)]
pub fn accumulate_version_totals(visits: &Vec<Visit>) -> (r: Vec<VersionTotals>)
    requires
        visits@.len() <= u32::MAX,
        forall|k: int|
            0 <= k < visits@.len() ==> (#[trigger] visits@[k]).last_request_time
                >= visits@[k].first_request_time,
    ensures
        forall|a: int, b: int|
            0 <= a < b < r@.len() ==> (#[trigger] r@[a]).name@ != (#[trigger] r@[b]).name@,
        totals_cover(r@, visits@, visits@.len() as int),
        forall|m: int|
            0 <= m < r@.len() ==> totals_match(#[trigger] r@[m], visits@, visits@.len() as int),
{
    let n = visits.len();
    let mut out: Vec<VersionTotals> = Vec::new();
    let mut j: usize = 0;
    proof {
        reveal(totals_cover);
        assert(totals_cover(out@, visits@, 0));
    }
    while j < n
        invariant
            n == visits@.len(),
            n <= u32::MAX,
            j <= n,
            forall|k: int|
                0 <= k < n ==> (#[trigger] visits@[k]).last_request_time
                    >= visits@[k].first_request_time,
            forall|a: int, b: int|
                0 <= a < b < out@.len() ==> (#[trigger] out@[a]).name@ != (
                #[trigger] out@[b]).name@,
            totals_cover(out@, visits@, j as int),
            forall|m: int| 0 <= m < out@.len() ==> totals_match(#[trigger] out@[m], visits@, j as int),
        decreases n - j,
    {
        let length = visits[j].last_request_time - visits[j].first_request_time;
        let d32: u32 = length as u32;
        let bounce: u64 = if length < BOUNCE_VISIT_MAX_LENGTH {
            1
        } else {
            0
        };
        match find_totals(&out, &visits[j].version) {
            Some(i) => {
                proof {
                    reveal(totals_match);
                    assert(totals_match(out@[i as int], visits@, j as int));
                    lemma_sums_bounded(visits@, j as int, out@[i as int].name@);
                    assert((j as int) * 0xffff_ffff + 0xffff_ffff <= 0x1_0000_0000 * 0xffff_ffff)
                        by (nonlinear_arith)
                        requires
                            0 <= j as int <= 0xffff_ffff,
                    ;
                }
                let updated = VersionTotals {
                    name: out[i].name.clone(),
                    request_sum: out[i].request_sum + (visits[j].request_count as u64),
                    duration_sum: out[i].duration_sum + (d32 as u64),
                    bounce_count: out[i].bounce_count + bounce,
                    visit_count: out[i].visit_count + 1,
                };
                let ghost prev = out@;
                out[i] = updated;
                proof {
                    assert(out@[i as int].name@ == visits@[j as int].version@);
                    assert forall|m: int| 0 <= m < prev.len() implies (#[trigger] out@[m]).name@
                        == prev[m].name@ by {}
                    lemma_cover_extend(prev, out@, visits@, j as int);
                    assert forall|m: int| 0 <= m < out@.len() implies totals_match(
                        #[trigger] out@[m],
                        visits@,
                        j + 1,
                    ) by {
                        if m != i {
                            assert(out@[m] == prev[m]);
                            assert(prev[m].name@ != visits@[j as int].version@);
                            lemma_totals_extend_other(prev[m], visits@, j as int);
                        } else {
                            lemma_totals_extend_same(prev[i as int], updated, visits@, j as int);
                        }
                    }
                }
            },
            None => {
                let row = VersionTotals {
                    name: visits[j].version.clone(),
                    request_sum: visits[j].request_count as u64,
                    duration_sum: d32 as u64,
                    bounce_count: bounce,
                    visit_count: 1,
                };
                let ghost prev = out@;
                out.push(row);
                proof {
                    assert(out@[prev.len() as int].name@ == visits@[j as int].version@);
                    assert forall|m: int| 0 <= m < prev.len() implies (#[trigger] out@[m]).name@
                        == prev[m].name@ by {}
                    lemma_cover_extend(prev, out@, visits@, j as int);
                    reveal(totals_cover);
                    assert forall|k: int| 0 <= k < j implies (#[trigger] visits@[k]).version@
                        != visits@[j as int].version@ by {
                        if visits@[k].version@ == visits@[j as int].version@ {
                            let m = choose|m: int|
                                0 <= m < prev.len() && (#[trigger] prev[m]).name@
                                    == visits@[k].version@;
                            assert(prev[m].name@ != visits@[j as int].version@);
                        }
                    }
                    assert forall|m: int| 0 <= m < out@.len() implies totals_match(
                        #[trigger] out@[m],
                        visits@,
                        j + 1,
                    ) by {
                        if m < prev.len() {
                            assert(out@[m] == prev[m]);
                            assert(prev[m].name@ != visits@[j as int].version@);
                            lemma_totals_extend_other(prev[m], visits@, j as int);
                        } else {
                            assert(out@[m] == row);
                            lemma_totals_new(row, visits@, j as int);
                        }
                    }
                }
            },
        }
        j += 1;
    }
    out
}

/// How often one event name was sent for one version.
#[derive(Debug)]
pub struct EventCount {
    pub name: String,
    pub version: String,
    pub count: u64,
}

/// How many of the first `n` events carry the name and version.
pub open spec fn ecount_prefix(es: Seq<SavedEventData>, n: int, name: Seq<char>, version: Seq<char>)
    -> nat
    decreases n,
{
    if n <= 0 {
        0
    } else {
        ecount_prefix(es, n - 1, name, version) + if es[n - 1].event.name@ == name && es[n
            - 1].event.version@ == version {
            1nat
        } else {
            0nat
        }
    }
}

/// The count row correctly counts the first `n` events.
#[verifier::opaque]
pub open spec fn ecount_match(c: EventCount, es: Seq<SavedEventData>, n: int) -> bool {
    &&& c.count == ecount_prefix(es, n, c.name@, c.version@)
    &&& exists|k: int|
        0 <= k < n && (#[trigger] es[k]).event.name@ == c.name@ && es[k].event.version@
            == c.version@
}

/// Every counted event's name and version own a count row.
#[verifier::opaque]
pub open spec fn ecount_cover(cs: Seq<EventCount>, es: Seq<SavedEventData>, n: int) -> bool {
    forall|k: int|
        0 <= k < n ==> exists|m: int|
            0 <= m < cs.len() && (#[trigger] cs[m]).name@ == (#[trigger] es[k]).event.name@
                && cs[m].version@ == es[k].event.version@
}

/// A count never exceeds the number of events counted.
proof fn lemma_ecount_le(es: Seq<SavedEventData>, n: int, name: Seq<char>, version: Seq<char>)
    requires
        0 <= n <= es.len(),
    ensures
        ecount_prefix(es, n, name, version) <= n,
    decreases n,
{
    if n > 0 {
        lemma_ecount_le(es, n - 1, name, version);
    }
}

/// A pair no counted event carries has count zero.
proof fn lemma_ecount_zero(es: Seq<SavedEventData>, n: int, name: Seq<char>, version: Seq<char>)
    requires
        0 <= n <= es.len(),
        forall|k: int|
            0 <= k < n ==> !((#[trigger] es[k]).event.name@ == name && es[k].event.version@
                == version),
    ensures
        ecount_prefix(es, n, name, version) == 0,
    decreases n,
{
    if n > 0 {
        lemma_ecount_zero(es, n - 1, name, version);
    }
}

/// A row for another pair is untouched by one more event.
proof fn lemma_ecount_extend_other(c: EventCount, es: Seq<SavedEventData>, j: int)
    requires
        0 <= j < es.len(),
        ecount_match(c, es, j),
        !(es[j].event.name@ == c.name@ && es[j].event.version@ == c.version@),
    ensures
        ecount_match(c, es, j + 1),
{
    reveal(ecount_match);
}

/// One more event of the same pair raises its count by one.
proof fn lemma_ecount_extend_same(
    c_old: EventCount,
    c_new: EventCount,
    es: Seq<SavedEventData>,
    j: int,
)
    requires
        0 <= j < es.len(),
        ecount_match(c_old, es, j),
        es[j].event.name@ == c_old.name@,
        es[j].event.version@ == c_old.version@,
        c_new.name@ == c_old.name@,
        c_new.version@ == c_old.version@,
        c_new.count == c_old.count + 1,
    ensures
        ecount_match(c_new, es, j + 1),
{
    reveal(ecount_match);
}

/// The first event of a pair opens its row.
proof fn lemma_ecount_new(c: EventCount, es: Seq<SavedEventData>, j: int)
    requires
        0 <= j < es.len(),
        forall|k: int|
            0 <= k < j ==> !((#[trigger] es[k]).event.name@ == es[j].event.name@
                && es[k].event.version@ == es[j].event.version@),
        c.name@ == es[j].event.name@,
        c.version@ == es[j].event.version@,
        c.count == 1,
    ensures
        ecount_match(c, es, j + 1),
{
    reveal(ecount_match);
    lemma_ecount_zero(es, j, c.name@, c.version@);
}

/// Coverage carries over to one more event once its pair has a row.
proof fn lemma_ecover_extend(
    prev: Seq<EventCount>,
    cur: Seq<EventCount>,
    es: Seq<SavedEventData>,
    j: int,
)
    requires
        0 <= j < es.len(),
        ecount_cover(prev, es, j),
        prev.len() <= cur.len(),
        forall|m: int|
            0 <= m < prev.len() ==> (#[trigger] cur[m]).name@ == prev[m].name@ && cur[m].version@
                == prev[m].version@,
        exists|m: int|
            0 <= m < cur.len() && (#[trigger] cur[m]).name@ == es[j].event.name@ && cur[m].version@
                == es[j].event.version@,
    ensures
        ecount_cover(cur, es, j + 1),
{
    reveal(ecount_cover);
    assert forall|k: int| 0 <= k < j + 1 implies exists|m: int|
        0 <= m < cur.len() && (#[trigger] cur[m]).name@ == (#[trigger] es[k]).event.name@
            && cur[m].version@ == es[k].event.version@ by {
        if k < j {
            let m = choose|m: int|
                0 <= m < prev.len() && (#[trigger] prev[m]).name@ == es[k].event.name@
                    && prev[m].version@ == es[k].event.version@;
            assert(cur[m].name@ == es[k].event.name@ && cur[m].version@ == es[k].event.version@);
        }
    }
}

/// The index of a pair's count row, if one is listed.
fn find_count(cs: &Vec<EventCount>, name: &str, version: &str) -> (r: Option<usize>)
    ensures
        match r {
            Some(i) => i < cs@.len() && cs@[i as int].name@ == name@ && cs@[i as int].version@
                == version@,
            None => forall|m: int|
                0 <= m < cs@.len() ==> !((#[trigger] cs@[m]).name@ == name@ && cs@[m].version@
                    == version@),
        },
{
    let n = cs.len();
    let mut i: usize = 0;
    while i < n
        invariant
            n == cs@.len(),
            i <= n,
            forall|m: int|
                0 <= m < i ==> !((#[trigger] cs@[m]).name@ == name@ && cs@[m].version@
                    == version@),
        decreases n - i,
    {
        if str_eq(cs[i].name.as_str(), name) && str_eq(cs[i].version.as_str(), version) {
            return Some(i);
        }
        i += 1;
    }
    None
}

/// Counts stored events by event name and version: one row per pair seen,
/// carrying exactly how many of the events carry that pair.
#[verifier::rlimit(60)]
pub fn count_events_by_version(events: &Vec<SavedEventData>) -> (r: Vec<EventCount>)
    ensures
        forall|a: int, b: int|
            0 <= a < b < r@.len() ==> !((#[trigger] r@[a]).name@ == (#[trigger] r@[b]).name@
                && r@[a].version@ == r@[b].version@),
        ecount_cover(r@, events@, events@.len() as int),
        forall|m: int|
            0 <= m < r@.len() ==> ecount_match(#[trigger] r@[m], events@, events@.len() as int),
{
    let n = events.len();
    let mut out: Vec<EventCount> = Vec::new();
    let mut j: usize = 0;
    proof {
        reveal(ecount_cover);
        assert(ecount_cover(out@, events@, 0));
    }
    while j < n
        invariant
            n == events@.len(),
            j <= n,
            forall|a: int, b: int|
                0 <= a < b < out@.len() ==> !((#[trigger] out@[a]).name@ == (
                #[trigger] out@[b]).name@ && out@[a].version@ == out@[b].version@),
            ecount_cover(out@, events@, j as int),
            forall|m: int| 0 <= m < out@.len() ==> ecount_match(#[trigger] out@[m], events@, j as int),
        decreases n - j,
    {
        match find_count(&out, events[j].event.name.as_str(), events[j].event.version.as_str()) {
            Some(i) => {
                proof {
                    reveal(ecount_match);
                    assert(ecount_match(out@[i as int], events@, j as int));
                    lemma_ecount_le(events@, j as int, out@[i as int].name@, out@[i as int].version@);
                }
                let updated = EventCount {
                    name: out[i].name.clone(),
                    version: out[i].version.clone(),
                    count: out[i].count + 1,
                };
                let ghost prev = out@;
                out[i] = updated;
                proof {
                    assert(out@[i as int].name@ == events@[j as int].event.name@
                        && out@[i as int].version@ == events@[j as int].event.version@);
                    assert forall|m: int| 0 <= m < prev.len() implies (#[trigger] out@[m]).name@
                        == prev[m].name@ && out@[m].version@ == prev[m].version@ by {}
                    lemma_ecover_extend(prev, out@, events@, j as int);
                    assert forall|m: int| 0 <= m < out@.len() implies ecount_match(
                        #[trigger] out@[m],
                        events@,
                        j + 1,
                    ) by {
                        if m != i {
                            assert(out@[m] == prev[m]);
                            lemma_ecount_extend_other(prev[m], events@, j as int);
                        } else {
                            lemma_ecount_extend_same(prev[i as int], updated, events@, j as int);
                        }
                    }
                }
            },
            None => {
                let row = EventCount {
                    name: events[j].event.name.clone(),
                    version: events[j].event.version.clone(),
                    count: 1,
                };
                let ghost prev = out@;
                out.push(row);
                proof {
                    assert(out@[prev.len() as int].name@ == events@[j as int].event.name@
                        && out@[prev.len() as int].version@ == events@[j as int].event.version@);
                    assert forall|m: int| 0 <= m < prev.len() implies (#[trigger] out@[m]).name@
                        == prev[m].name@ && out@[m].version@ == prev[m].version@ by {}
                    lemma_ecover_extend(prev, out@, events@, j as int);
                    reveal(ecount_cover);
                    assert forall|k: int| 0 <= k < j implies !((#[trigger] events@[k]).event.name@
                        == events@[j as int].event.name@ && events@[k].event.version@
                        == events@[j as int].event.version@) by {
                        if events@[k].event.name@ == events@[j as int].event.name@
                            && events@[k].event.version@ == events@[j as int].event.version@ {
                            let m = choose|m: int|
                                0 <= m < prev.len() && (#[trigger] prev[m]).name@
                                    == events@[k].event.name@ && prev[m].version@
                                    == events@[k].event.version@;
                            assert(!(prev[m].name@ == events@[j as int].event.name@
                                && prev[m].version@ == events@[j as int].event.version@));
                        }
                    }
                    assert forall|m: int| 0 <= m < out@.len() implies ecount_match(
                        #[trigger] out@[m],
                        events@,
                        j + 1,
                    ) by {
                        if m < prev.len() {
                            assert(out@[m] == prev[m]);
                            lemma_ecount_extend_other(prev[m], events@, j as int);
                        } else {
                            assert(out@[m] == row);
                            lemma_ecount_new(row, events@, j as int);
                        }
                    }
                }
            },
        }
        j += 1;
    }
    out
}

} // verus!
