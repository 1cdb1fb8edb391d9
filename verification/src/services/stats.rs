//! Per-day statistics of a user's jobs: how many were created each day, and how many
//! elements they asked for.

use vstd::prelude::*;
use crate::entities::job;
use crate::json::JsonView;
use crate::text::{chars_of, lemma_lex_irreflexive, lemma_lex_total, lemma_lex_transitive, lex_less, lex_lt};
use crate::time::date_of_time;

verus! {

pub enum StatsError {
    Database(sea_orm::DbErr),
}

/// How many jobs were created on a day (`YYYY-MM-DD`).
pub struct JobsPerDay {
    pub date: String,
    pub job_count: i64,
}

/// The jobs created on a day and the elements they asked for in all; the average number
/// of elements per job of that day is `total_elements / count`.
pub struct ElementsPerDay {
    pub date: String,
    pub total_elements: u128,
    pub count: i64,
}

pub struct StatsService;

/// How many entries of `ds` are `d`.
pub open spec fn count_in(ds: Seq<Seq<char>>, d: Seq<char>) -> nat
    decreases ds.len(),
{
    if ds.len() == 0 {
        0
    } else {
        count_in(ds.drop_last(), d) + if ds.last() == d {
            1nat
        } else {
            0nat
        }
    }
}

/// The sum of the weights `ws[k]` of the entries `ds[k]` that are `d`.
pub open spec fn sum_where(ds: Seq<Seq<char>>, ws: Seq<nat>, d: Seq<char>) -> nat
    decreases ds.len(),
{
    if ds.len() == 0 || ws.len() == 0 {
        0
    } else {
        sum_where(ds.drop_last(), ws.drop_last(), d) + if ds.last() == d {
            ws.last()
        } else {
            0nat
        }
    }
}

/// The sum of all weights.
pub open spec fn total(ws: Seq<nat>) -> nat
    decreases ws.len(),
{
    if ws.len() == 0 {
        0
    } else {
        total(ws.drop_last()) + ws.last()
    }
}

/// `keys` are the distinct entries of `ds`, in increasing order.
pub open spec fn lists_days(ds: Seq<Seq<char>>, keys: Seq<Seq<char>>) -> bool {
    &&& forall|i: int, j: int| 0 <= i < j < keys.len() ==> lex_lt(#[trigger] keys[i], #[trigger] keys[j])
    &&& forall|i: int| 0 <= i < keys.len() ==> ds.contains(#[trigger] keys[i])
    &&& forall|k: int| 0 <= k < ds.len() ==> keys.contains(#[trigger] ds[k])
}

/// The creation day of each job.
pub open spec fn job_dates(jobs: Seq<job::Model>) -> Seq<Seq<char>> {
    jobs.map_values(|j: job::Model| date_of_time(j.time_created))
}

/// How many elements a job asks for: the length of its `elements` array (0 if it is not one).
pub open spec fn element_count(elements: JsonView) -> nat {
    match elements {
        JsonView::Array(xs) => xs.len(),
        _ => 0,
    }
}

pub open spec fn job_elements(jobs: Seq<job::Model>) -> Seq<nat> {
    jobs.map_values(|j: job::Model| element_count(j.elements@))
}

pub open spec fn days_of_counts(r: Seq<JobsPerDay>) -> Seq<Seq<char>> {
    r.map_values(|e: JobsPerDay| e.date@)
}

pub open spec fn days_of_totals(r: Seq<ElementsPerDay>) -> Seq<Seq<char>> {
    r.map_values(|e: ElementsPerDay| e.date@)
}

/// The sum of the counts of a per-day listing.
pub open spec fn counted(r: Seq<JobsPerDay>) -> int
    decreases r.len(),
{
    if r.len() == 0 {
        0
    } else {
        counted(r.drop_last()) + r.last().job_count
    }
}

/// The sum of the element totals of a per-day listing.
pub open spec fn totalled(r: Seq<ElementsPerDay>) -> int
    decreases r.len(),
{
    if r.len() == 0 {
        0
    } else {
        totalled(r.drop_last()) + r.last().total_elements
    }
}

/// The sum of the job counts of a per-day listing of element totals.
pub open spec fn counted_totals(r: Seq<ElementsPerDay>) -> int
    decreases r.len(),
{
    if r.len() == 0 {
        0
    } else {
        counted_totals(r.drop_last()) + r.last().count
    }
}

/// The sum, over the days `keys`, of the weights of each day.
pub open spec fn sum_keys(ds: Seq<Seq<char>>, ws: Seq<nat>, keys: Seq<Seq<char>>) -> nat
    decreases keys.len(),
{
    if keys.len() == 0 {
        0
    } else {
        sum_keys(ds, ws, keys.drop_last()) + sum_where(ds, ws, keys.last())
    }
}

/// `w` for each of `keys` that is `d`.
pub open spec fn weight_of_key(keys: Seq<Seq<char>>, d: Seq<char>, w: nat) -> nat
    decreases keys.len(),
{
    if keys.len() == 0 {
        0
    } else {
        weight_of_key(keys.drop_last(), d, w) + if keys.last() == d {
            w
        } else {
            0nat
        }
    }
}

pub open spec fn distinct(keys: Seq<Seq<char>>) -> bool {
    forall|i: int, j: int| 0 <= i < j < keys.len() ==> #[trigger] keys[i] != #[trigger] keys[j]
}

/// A weight of one for each of `n` entries.
pub open spec fn units(n: nat) -> Seq<nat> {
    Seq::new(n, |i: int| 1nat)
}

proof fn lemma_sum_keys_step(ds: Seq<Seq<char>>, ws: Seq<nat>, keys: Seq<Seq<char>>)
    requires
        ds.len() > 0,
        ws.len() == ds.len(),
    ensures
        sum_keys(ds, ws, keys) == sum_keys(ds.drop_last(), ws.drop_last(), keys) + weight_of_key(
            keys,
            ds.last(),
            ws.last(),
        ),
    decreases keys.len(),
{
    if keys.len() > 0 {
        lemma_sum_keys_step(ds, ws, keys.drop_last());
    }
}

proof fn lemma_sum_keys_empty(ds: Seq<Seq<char>>, ws: Seq<nat>, keys: Seq<Seq<char>>)
    requires
        ds.len() == 0,
    ensures
        sum_keys(ds, ws, keys) == 0,
    decreases keys.len(),
{
    if keys.len() > 0 {
        lemma_sum_keys_empty(ds, ws, keys.drop_last());
    }
}

proof fn lemma_weight_of_key(keys: Seq<Seq<char>>, d: Seq<char>, w: nat)
    requires
        distinct(keys),
    ensures
        weight_of_key(keys, d, w) == if keys.contains(d) {
            w
        } else {
            0nat
        },
    decreases keys.len(),
{
    if keys.len() > 0 {
        let k2 = keys.drop_last();
        let last = keys.len() - 1;
        assert(distinct(k2)) by {
            assert forall|i: int, j: int| 0 <= i < j < k2.len() implies #[trigger] k2[i] != #[trigger] k2[j] by {
                assert(k2[i] == keys[i] && k2[j] == keys[j]);
            }
        }
        lemma_weight_of_key(k2, d, w);
        if keys.last() == d {
            if k2.contains(d) {
                let i = choose|i: int| 0 <= i < k2.len() && k2[i] == d;
                assert(keys[i] == keys[last]);
            }
            assert(keys[last] == d);
        } else {
            if k2.contains(d) {
                let i = choose|i: int| 0 <= i < k2.len() && k2[i] == d;
                assert(keys[i] == d);
            }
            if keys.contains(d) {
                let i = choose|i: int| 0 <= i < keys.len() && keys[i] == d;
                assert(k2[i] == d);
            }
        }
    }
}

/// Summing the weights day by day over distinct days that cover every entry gives the sum
/// of all weights.
proof fn lemma_sum_keys_total(ds: Seq<Seq<char>>, ws: Seq<nat>, keys: Seq<Seq<char>>)
    requires
        ws.len() == ds.len(),
        distinct(keys),
        forall|k: int| 0 <= k < ds.len() ==> keys.contains(#[trigger] ds[k]),
    ensures
        sum_keys(ds, ws, keys) == total(ws),
    decreases ds.len(),
{
    if ds.len() == 0 {
        lemma_sum_keys_empty(ds, ws, keys);
    } else {
        let last = ds.len() - 1;
        lemma_sum_keys_step(ds, ws, keys);
        lemma_weight_of_key(keys, ds.last(), ws.last());
        assert(keys.contains(ds[last]));
        let d2 = ds.drop_last();
        assert forall|k: int| 0 <= k < d2.len() implies keys.contains(#[trigger] d2[k]) by {
            assert(d2[k] == ds[k]);
        }
        lemma_sum_keys_total(d2, ws.drop_last(), keys);
    }
}

proof fn lemma_count_as_sum(ds: Seq<Seq<char>>, d: Seq<char>)
    ensures
        count_in(ds, d) == sum_where(ds, units(ds.len()), d),
    decreases ds.len(),
{
    if ds.len() > 0 {
        lemma_count_as_sum(ds.drop_last(), d);
        assert(units(ds.len()).drop_last() =~= units((ds.len() - 1) as nat));
    }
}

proof fn lemma_units_total(n: nat)
    ensures
        total(units(n)) == n,
    decreases n,
{
    if n > 0 {
        assert(units(n).drop_last() =~= units((n - 1) as nat));
        lemma_units_total((n - 1) as nat);
    }
}

proof fn lemma_sorted_distinct(keys: Seq<Seq<char>>)
    requires
        forall|i: int, j: int| 0 <= i < j < keys.len() ==> lex_lt(#[trigger] keys[i], #[trigger] keys[j]),
    ensures
        distinct(keys),
{
    assert forall|i: int, j: int| 0 <= i < j < keys.len() implies #[trigger] keys[i] != #[trigger] keys[j] by {
        lemma_lex_irreflexive(keys[i]);
    }
}

proof fn lemma_counted_is_sum(ds: Seq<Seq<char>>, r: Seq<JobsPerDay>)
    requires
        forall|i: int| 0 <= i < r.len() ==> (#[trigger] r[i]).job_count == count_in(ds, r[i].date@),
    ensures
        counted(r) == sum_keys(ds, units(ds.len()), days_of_counts(r)),
    decreases r.len(),
{
    if r.len() > 0 {
        let r2 = r.drop_last();
        assert forall|i: int| 0 <= i < r2.len() implies (#[trigger] r2[i]).job_count == count_in(ds, r2[i].date@) by {
            assert(r2[i] == r[i]);
        }
        lemma_counted_is_sum(ds, r2);
        assert(days_of_counts(r2) =~= days_of_counts(r).drop_last());
        lemma_count_as_sum(ds, r.last().date@);
    }
}

proof fn lemma_totalled_is_sum(ds: Seq<Seq<char>>, ws: Seq<nat>, r: Seq<ElementsPerDay>)
    requires
        forall|i: int| 0 <= i < r.len() ==> (#[trigger] r[i]).total_elements == sum_where(ds, ws, r[i].date@),
    ensures
        totalled(r) == sum_keys(ds, ws, days_of_totals(r)),
    decreases r.len(),
{
    if r.len() > 0 {
        let r2 = r.drop_last();
        assert forall|i: int| 0 <= i < r2.len() implies (#[trigger] r2[i]).total_elements == sum_where(ds, ws, r2[i].date@) by {
            assert(r2[i] == r[i]);
        }
        lemma_totalled_is_sum(ds, ws, r2);
        assert(days_of_totals(r2) =~= days_of_totals(r).drop_last());
    }
}

proof fn lemma_counted_totals_is_sum(ds: Seq<Seq<char>>, r: Seq<ElementsPerDay>)
    requires
        forall|i: int| 0 <= i < r.len() ==> (#[trigger] r[i]).count == count_in(ds, r[i].date@),
    ensures
        counted_totals(r) == sum_keys(ds, units(ds.len()), days_of_totals(r)),
    decreases r.len(),
{
    if r.len() > 0 {
        let r2 = r.drop_last();
        assert forall|i: int| 0 <= i < r2.len() implies (#[trigger] r2[i]).count == count_in(ds, r2[i].date@) by {
            assert(r2[i] == r[i]);
        }
        lemma_counted_totals_is_sum(ds, r2);
        assert(days_of_totals(r2) =~= days_of_totals(r).drop_last());
        lemma_count_as_sum(ds, r.last().date@);
    }
}

/// Every job is counted on exactly one day: the counts of a per-day listing of jobs add up
/// to the number of jobs.
pub proof fn lemma_jobs_per_day_total(jobs: Seq<job::Model>, r: Seq<JobsPerDay>)
    requires
        lists_days(job_dates(jobs), days_of_counts(r)),
        forall|i: int| 0 <= i < r.len() ==> (#[trigger] r[i]).job_count == count_in(job_dates(jobs), r[i].date@),
    ensures
        counted(r) == jobs.len(),
{
    let ds = job_dates(jobs);
    lemma_counted_is_sum(ds, r);
    lemma_sorted_distinct(days_of_counts(r));
    lemma_sum_keys_total(ds, units(ds.len()), days_of_counts(r));
    lemma_units_total(ds.len());
}

/// Every job and every element it asks for is counted on exactly one day: the per-day job
/// counts add up to the number of jobs, and the per-day element totals to the elements of
/// all jobs.
pub proof fn lemma_elements_per_day_total(jobs: Seq<job::Model>, r: Seq<ElementsPerDay>)
    requires
        lists_days(job_dates(jobs), days_of_totals(r)),
        forall|i: int|
            0 <= i < r.len() ==> (#[trigger] r[i]).count == count_in(job_dates(jobs), r[i].date@)
                && r[i].total_elements == sum_where(job_dates(jobs), job_elements(jobs), r[i].date@),
    ensures
        counted_totals(r) == jobs.len(),
        totalled(r) == total(job_elements(jobs)),
{
    let ds = job_dates(jobs);
    lemma_counted_totals_is_sum(ds, r);
    lemma_totalled_is_sum(ds, job_elements(jobs), r);
    lemma_sorted_distinct(days_of_totals(r));
    lemma_sum_keys_total(ds, units(ds.len()), days_of_totals(r));
    lemma_sum_keys_total(ds, job_elements(jobs), days_of_totals(r));
    lemma_units_total(ds.len());
}

/// The largest weight an entry can have.
pub open spec fn max_weight() -> nat {
    0xFFFF_FFFF_FFFF_FFFFnat
}

/// `out` groups the first `k` entries of `ds` (weighed by `ws`) by day.
pub open spec fn grouped(ds: Seq<Seq<char>>, ws: Seq<nat>, k: int, out: Seq<ElementsPerDay>) -> bool {
    &&& lists_days(ds.take(k), days_of_totals(out))
    &&& forall|i: int|
        0 <= i < out.len() ==> (#[trigger] out[i]).count == count_in(ds.take(k), out[i].date@)
            && out[i].total_elements == sum_where(ds.take(k), ws.take(k), out[i].date@)
    &&& forall|i: int|
        0 <= i < out.len() ==> (#[trigger] out[i]).count <= k && out[i].total_elements <= k
            * max_weight()
}

proof fn lemma_take_step(ds: Seq<Seq<char>>, ws: Seq<nat>, k: int, x: Seq<char>)
    requires
        0 <= k < ds.len(),
        ws.len() == ds.len(),
    ensures
        count_in(ds.take(k + 1), x) == count_in(ds.take(k), x) + if ds[k] == x {
            1nat
        } else {
            0nat
        },
        sum_where(ds.take(k + 1), ws.take(k + 1), x) == sum_where(ds.take(k), ws.take(k), x) + if ds[k]
            == x {
            ws[k]
        } else {
            0nat
        },
{
    assert(ds.take(k + 1).drop_last() =~= ds.take(k));
    assert(ws.take(k + 1).drop_last() =~= ws.take(k));
}

proof fn lemma_absent(ds: Seq<Seq<char>>, ws: Seq<nat>, d: Seq<char>)
    requires
        !ds.contains(d),
    ensures
        count_in(ds, d) == 0,
        sum_where(ds, ws, d) == 0,
    decreases ds.len(),
{
    if ds.len() > 0 {
        let d2 = ds.drop_last();
        if d2.contains(d) {
            let i = choose|i: int| 0 <= i < d2.len() && d2[i] == d;
            assert(ds[i] == d);
        }
        assert(ds[ds.len() - 1] != d);
        lemma_absent(d2, ws.drop_last(), d);
    }
}

/// Adding an entry whose day is already listed, at `p`, keeps the grouping.
proof fn lemma_group_bump(
    ds: Seq<Seq<char>>,
    ws: Seq<nat>,
    k: int,
    out: Seq<ElementsPerDay>,
    p: int,
    e: ElementsPerDay,
)
    requires
        0 <= k < ds.len(),
        ws.len() == ds.len(),
        ws[k] <= max_weight(),
        grouped(ds, ws, k, out),
        0 <= p < out.len(),
        out[p].date@ == ds[k],
        e.date@ == ds[k],
        e.count == out[p].count + 1,
        e.total_elements == out[p].total_elements + ws[k],
    ensures
        grouped(ds, ws, k + 1, out.update(p, e)),
{
    let nw = out.update(p, e);
    let t0 = ds.take(k);
    let t1 = ds.take(k + 1);
    lemma_sorted_distinct(days_of_totals(out));
    assert forall|i: int| 0 <= i < nw.len() implies (#[trigger] nw[i]).count == count_in(t1, nw[i].date@)
        && nw[i].total_elements == sum_where(t1, ws.take(k + 1), nw[i].date@) && nw[i].count <= k + 1
        && nw[i].total_elements <= (k + 1) * max_weight() by {
        lemma_take_step(ds, ws, k, nw[i].date@);
        if i != p {
            assert(days_of_totals(out)[i] != days_of_totals(out)[p]);
        }
    }
    assert(days_of_totals(nw) =~= days_of_totals(out));
    assert forall|i: int| 0 <= i < days_of_totals(nw).len() implies t1.contains(
        #[trigger] days_of_totals(nw)[i],
    ) by {
        assert(t0.contains(days_of_totals(out)[i]));
        let j = choose|j: int| 0 <= j < t0.len() && t0[j] == days_of_totals(out)[i];
        assert(t1[j] == t0[j]);
    }
    assert forall|m: int| 0 <= m < t1.len() implies days_of_totals(nw).contains(#[trigger] t1[m]) by {
        if m < k {
            assert(t1[m] == t0[m]);
        } else {
            assert(days_of_totals(nw)[p] == t1[m]);
        }
    }
}

/// Adding an entry of a new day at its place `p` in the order keeps the grouping.
proof fn lemma_group_insert(
    ds: Seq<Seq<char>>,
    ws: Seq<nat>,
    k: int,
    out: Seq<ElementsPerDay>,
    p: int,
    e: ElementsPerDay,
)
    requires
        0 <= k < ds.len(),
        ws.len() == ds.len(),
        ws[k] <= max_weight(),
        grouped(ds, ws, k, out),
        0 <= p <= out.len(),
        forall|q: int| 0 <= q < p ==> lex_lt(#[trigger] out[q].date@, ds[k]),
        p < out.len() ==> lex_lt(ds[k], out[p].date@),
        e.date@ == ds[k],
        e.count == 1,
        e.total_elements == ws[k],
    ensures
        grouped(ds, ws, k + 1, out.insert(p, e)),
{
    let nw = out.insert(p, e);
    let t0 = ds.take(k);
    let t1 = ds.take(k + 1);
    let d = ds[k];
    let ko = days_of_totals(out);
    let kn = days_of_totals(nw);
    out.insert_ensures(p, e);
    assert(kn =~= ko.insert(p, d));
    ko.insert_ensures(p, d);
    // the new day comes after those before `p` and before those from `p` on
    assert forall|q: int| p <= q < ko.len() implies lex_lt(d, #[trigger] ko[q]) by {
        if q > p {
            lemma_lex_transitive(d, ko[p], ko[q]);
        }
    }
    // so it is none of the listed days, and none of the first `k` entries
    assert forall|q: int| 0 <= q < ko.len() implies #[trigger] ko[q] != d by {
        if q < p {
            lemma_lex_irreflexive(d);
        } else {
            lemma_lex_irreflexive(d);
        }
    }
    if t0.contains(d) {
        let m = choose|m: int| 0 <= m < t0.len() && t0[m] == d;
        assert(ko.contains(t0[m]));
    }
    lemma_absent(t0, ws.take(k), d);
    // order
    assert forall|i: int, j: int| 0 <= i < j < kn.len() implies lex_lt(#[trigger] kn[i], #[trigger] kn[j]) by {
        if j < p {
            assert(kn[i] == ko[i] && kn[j] == ko[j]);
        } else if j == p {
            assert(kn[i] == ko[i]);
        } else if i < p {
            assert(kn[i] == ko[i] && kn[j] == ko[j - 1]);
            lemma_lex_transitive(ko[i], d, ko[j - 1]);
        } else if i == p {
            assert(kn[j] == ko[j - 1]);
        } else {
            assert(kn[i] == ko[i - 1] && kn[j] == ko[j - 1]);
        }
    }
    // counts and totals
    assert forall|i: int| 0 <= i < nw.len() implies (#[trigger] nw[i]).count == count_in(t1, nw[i].date@)
        && nw[i].total_elements == sum_where(t1, ws.take(k + 1), nw[i].date@) && nw[i].count <= k + 1
        && nw[i].total_elements <= (k + 1) * max_weight() by {
        lemma_take_step(ds, ws, k, nw[i].date@);
        if i < p {
            assert(nw[i] == out[i]);
            assert(ko[i] != d);
        } else if i > p {
            assert(nw[i] == out[i - 1]);
            assert(ko[i - 1] != d);
        }
    }
    // each listed day occurs among the first `k + 1` entries
    assert forall|i: int| 0 <= i < kn.len() implies t1.contains(#[trigger] kn[i]) by {
        if i == p {
            assert(t1[k] == d);
        } else {
            let o = if i < p {
                i
            } else {
                i - 1
            };
            assert(kn[i] == ko[o]);
            assert(t0.contains(ko[o]));
            let j = choose|j: int| 0 <= j < t0.len() && t0[j] == ko[o];
            assert(t1[j] == t0[j]);
        }
    }
    // and each of those entries is listed
    assert forall|m: int| 0 <= m < t1.len() implies kn.contains(#[trigger] t1[m]) by {
        if m < k {
            assert(t1[m] == t0[m]);
            assert(ko.contains(t0[m]));
            let j = choose|j: int| 0 <= j < ko.len() && ko[j] == t0[m];
            if j < p {
                assert(kn[j] == ko[j]);
            } else {
                assert(kn[j + 1] == ko[j]);
            }
        } else {
            assert(kn[p] == t1[m]);
        }
    }
}

pub open spec fn strings_view(v: Seq<String>) -> Seq<Seq<char>> {
    v.map_values(|s: String| s@)
}

pub open spec fn sizes_view(v: Seq<usize>) -> Seq<nat> {
    v.map_values(|w: usize| w as nat)
}

/// Where `d` goes among the listed days: after those before it.
fn day_position(out: &Vec<ElementsPerDay>, d: &Vec<char>) -> (p: usize)
    ensures
        p <= out@.len(),
        forall|q: int| 0 <= q < p ==> lex_lt(#[trigger] out@[q].date@, d@),
        p < out@.len() ==> !lex_lt(out@[p as int].date@, d@),
{
    let mut p: usize = 0;
    while p < out.len()
        invariant
            p <= out@.len(),
            forall|q: int| 0 <= q < p ==> lex_lt(#[trigger] out@[q].date@, d@),
        decreases out@.len() - p,
    {
        let day = chars_of(out[p].date.as_str());
        if !lex_less(&day, d) {
            return p;
        }
        p = p + 1;
    }
    p
}

/// Groups entries by day, in increasing order of day, with how many entries each day has
/// and the sum of their weights.
fn group_days(dates: &Vec<String>, weights: &Vec<usize>) -> (r: Vec<ElementsPerDay>)
    requires
        dates@.len() == weights@.len(),
        dates@.len() <= i64::MAX,
    ensures
        grouped(strings_view(dates@), sizes_view(weights@), dates@.len() as int, r@),
{
    let ghost ds = strings_view(dates@);
    let ghost ws = sizes_view(weights@);
    let mut out: Vec<ElementsPerDay> = Vec::new();
    let mut k: usize = 0;
    proof {
        assert(ds.take(0) =~= Seq::<Seq<char>>::empty());
        assert(days_of_totals(out@) =~= Seq::<Seq<char>>::empty());
    }
    while k < dates.len()
        invariant
            ds == strings_view(dates@),
            ws == sizes_view(weights@),
            ds.len() == ws.len(),
            dates@.len() <= i64::MAX,
            k <= dates@.len(),
            grouped(ds, ws, k as int, out@),
        decreases dates@.len() - k,
    {
        let d = chars_of(dates[k].as_str());
        let w = weights[k];
        assert(ds[k as int] == d@);
        assert(ws[k as int] == w as nat);
        let p = day_position(&out, &d);
        let same = if p < out.len() {
            let day = chars_of(out[p].date.as_str());
            !lex_less(&d, &day)
        } else {
            false
        };
        if same {
            proof {
                lemma_lex_total(out@[p as int].date@, d@);
            }
            let e = ElementsPerDay {
                date: dates[k].clone(),
                total_elements: out[p].total_elements + w as u128,
                count: out[p].count + 1,
            };
            proof {
                lemma_group_bump(ds, ws, k as int, out@, p as int, e);
            }
            out.set(p, e);
        } else {
            proof {
                if p < out@.len() {
                    lemma_lex_total(out@[p as int].date@, d@);
                }
            }
            let e = ElementsPerDay { date: dates[k].clone(), total_elements: w as u128, count: 1 };
            proof {
                lemma_group_insert(ds, ws, k as int, out@, p as int, e);
            }
            out.insert(p, e);
        }
        k = k + 1;
    }
    proof {
        assert(ds.take(k as int) =~= ds);
    }
    out
}

/// The day each job was created on, and how many elements it asks for.
fn days_and_sizes(jobs: &Vec<job::Model>) -> (r: (Vec<String>, Vec<usize>))
    ensures
        r.0@.len() == jobs@.len(),
        r.1@.len() == jobs@.len(),
        strings_view(r.0@) == job_dates(jobs@),
        sizes_view(r.1@) == job_elements(jobs@),
{
    let mut dates: Vec<String> = Vec::new();
    let mut sizes: Vec<usize> = Vec::new();
    let mut k: usize = 0;
    while k < jobs.len()
        invariant
            k <= jobs@.len(),
            dates@.len() == k,
            sizes@.len() == k,
            forall|i: int| 0 <= i < k ==> (#[trigger] dates@[i])@ == date_of_time(jobs@[i].time_created),
            forall|i: int| 0 <= i < k ==> (#[trigger] sizes@[i]) as nat == element_count(jobs@[i].elements@),
        decreases jobs@.len() - k,
    {
        dates.push(jobs[k].time_created.date());
        let n = match jobs[k].elements.as_array() {
            Some(a) => a.len(),
            None => 0,
        };
        sizes.push(n);
        k = k + 1;
    }
    assert(strings_view(dates@) =~= job_dates(jobs@));
    assert(sizes_view(sizes@) =~= job_elements(jobs@));
    (dates, sizes)
}

impl StatsService {
    /// The number of jobs created each day: one entry per day on which any of `jobs` was
    /// created, in increasing order of day.
    pub fn get_jobs_per_day(jobs: &Vec<job::Model>) -> (r: Vec<JobsPerDay>)
        requires
            jobs@.len() <= i64::MAX,
        ensures
            lists_days(job_dates(jobs@), days_of_counts(r@)),
            forall|i: int|
                0 <= i < r@.len() ==> (#[trigger] r@[i]).job_count == count_in(job_dates(jobs@), r@[i].date@),
    {
        let (dates, sizes) = days_and_sizes(jobs);
        let groups = group_days(&dates, &sizes);
        let ghost ds = job_dates(jobs@);
        proof {
            assert(ds.take(ds.len() as int) =~= ds);
        }
        let mut out: Vec<JobsPerDay> = Vec::new();
        let mut i: usize = 0;
        while i < groups.len()
            invariant
                ds == job_dates(jobs@),
                grouped(ds, job_elements(jobs@), ds.len() as int, groups@),
                ds.take(ds.len() as int) == ds,
                i <= groups@.len(),
                out@.len() == i,
                forall|j: int|
                    0 <= j < i ==> (#[trigger] out@[j]).date@ == groups@[j].date@ && out@[j].job_count
                        == groups@[j].count,
            decreases groups@.len() - i,
        {
            out.push(JobsPerDay { date: groups[i].date.clone(), job_count: groups[i].count });
            i = i + 1;
        }
        assert(days_of_counts(out@) =~= days_of_totals(groups@));
        out
    }

    /// The elements the jobs of each day ask for: one entry per day on which any of `jobs` was
    /// created, in increasing order of day, with how many jobs were created that day and
    /// the lengths of their `elements` arrays added up. The average per job is
    /// `total_elements / count`, taken in floating point by the caller.
    pub fn get_avg_elements_per_link(jobs: &Vec<job::Model>) -> (r: Vec<ElementsPerDay>)
        requires
            jobs@.len() <= i64::MAX,
        ensures
            lists_days(job_dates(jobs@), days_of_totals(r@)),
            forall|i: int|
                0 <= i < r@.len() ==> (#[trigger] r@[i]).count == count_in(job_dates(jobs@), r@[i].date@)
                    && r@[i].total_elements == sum_where(job_dates(jobs@), job_elements(jobs@), r@[i].date@),
    {
        let (dates, sizes) = days_and_sizes(jobs);
        let r = group_days(&dates, &sizes);
        proof {
            let ds = job_dates(jobs@);
            assert(ds.take(ds.len() as int) =~= ds);
            assert(job_elements(jobs@).take(ds.len() as int) =~= job_elements(jobs@));
        }
        r
    }
}

} // verus!
