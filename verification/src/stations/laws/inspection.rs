//! What inspection makes of its jobs.

use vstd::prelude::*;
use vstd::utf8::*;

use crate::json::{int_view, opt_text, opt_text_view, Json, JsonView};
use crate::kafka::{
    json_keyed, metric_view, ConsumedRecord, HandlerErrorView, KafkaError,
};
use crate::stats::{a_percentile_stands_at_its_rank, ascending, how_many, lemma_how_many};
use crate::stations::inspection::{
    answer, are_items, budget_of, class_of, closing, digest_from, digest_of, is_malformed, job_fault,
    latency_of, opening, p50_of, p95_of, readable, result_record, worked_through, Item, Job,
    WorkView,
};
use crate::stations::instance::failure_metric;

verus! {

// ---------------------------------------------------------------------------
// One job

/// Of twelve strips one shows a void, one a bridge and one a lift.
pub open spec fn defect_shown(digest: u64) -> Seq<char> {
    if digest as nat % 12 == 0 {
        "void>10%"@
    } else if digest as nat % 12 == 1 {
        "bridge"@
    } else if digest as nat % 12 == 2 {
        "lift"@
    } else {
        "none"@
    }
}

/// Bytes are a job exactly where they are UTF-8, decode, and name a job and a
/// strip. The reason why they are none is the first of these that fails.
pub proof fn a_job_names_itself_and_its_strip(bytes: Seq<u8>, decoded: Result<Job, String>)
    ensures
        job_fault(bytes, decoded) is None <==> valid_utf8(bytes) && decoded is Ok
            && decoded->Ok_0.job@.len() > 0 && decoded->Ok_0.strip@.len() > 0,
        !valid_utf8(bytes) ==> job_fault(bytes, decoded) == Some("value is not valid UTF-8"@),
        valid_utf8(bytes) ==> (decoded matches Err(e) ==> job_fault(bytes, decoded) == Some(
            "bad job: "@ + e@,
        )),
        valid_utf8(bytes) ==> (decoded matches Ok(j) ==> (j.job@.len() == 0 || j.strip@.len() == 0
            ==> job_fault(bytes, decoded) == Some("job and strip ids are required"@))),
{
}

/// A job takes as long as it declares, but no less than 50 milliseconds and no
/// more than two seconds.
pub proof fn a_job_takes_what_it_declares_within_limits(cost_ms: u64)
    ensures
        cost_ms <= 50 ==> budget_of(cost_ms) == 50,
        50 <= cost_ms <= 2000 ==> budget_of(cost_ms) == cost_ms,
        2000 <= cost_ms ==> budget_of(cost_ms) == 2000,
{
}

/// A latency runs from the time of the record to now, and is nothing where
/// the record is from later. Without a time it is that of the work.
pub proof fn a_latency_runs_from_its_record(timestamp: Option<i64>, now: i64, work_ms: u64)
    ensures
        timestamp is None ==> latency_of(timestamp, now, work_ms) == work_ms,
        timestamp matches Some(t) ==> {
            &&& t <= now && now - t <= i64::MAX ==> latency_of(timestamp, now, work_ms) == now - t
            &&& now <= t && t - now <= i64::MAX ==> latency_of(timestamp, now, work_ms) == 0
        },
{
}

proof fn lemma_digest_of_both(acc: u64, a: Seq<u8>, b: Seq<u8>)
    ensures
        digest_from(digest_from(acc, a), b) == digest_from(acc, a + b),
    decreases b.len(),
{
    if b.len() == 0 {
        assert(a + b =~= a);
    } else {
        lemma_digest_of_both(acc, a, b.drop_last());
        assert((a + b).drop_last() =~= a + b.drop_last());
        assert((a + b).last() == b.last());
    }
}

/// The digest of a job is that of the bytes of its strip with those of its id
/// behind them. It starts from 14695981039346656037; each byte is laid over
/// it, and what that gives is multiplied by 1099511628211, in 64 bits.
pub proof fn a_job_is_digested_byte_by_byte(job: Job, acc: u64, bytes: Seq<u8>, b: u8)
    ensures
        digest_of(job) == digest_from(
            14695981039346656037,
            encode_utf8(job.strip@) + encode_utf8(job.job@),
        ),
        digest_from(acc, Seq::empty()) == acc,
        digest_from(acc, bytes.push(b)) as nat == ((digest_from(acc, bytes) ^ (b as u64)) as nat
            * 1099511628211) % 0x1_0000_0000_0000_0000,
{
    lemma_digest_of_both(
        14695981039346656037,
        encode_utf8(job.strip@),
        encode_utf8(job.job@),
    );
    assert(bytes.push(b).drop_last() =~= bytes);
    assert(bytes.push(b).last() == b);
}

/// A result goes out under its job. It names the job, the strip and the lot,
/// the defect, the void, how long the work took and how long the job was
/// under way, who did it and where the record came from.
pub proof fn a_result_tells_its_job(
    job: Job,
    rec: ConsumedRecord,
    digest: u64,
    void_pct: JsonView,
    work_ms: u64,
    now: i64,
    id: Seq<char>,
)
    ensures
        class_of(digest) == defect_shown(digest),
        exists|f: Map<Seq<char>, JsonView>, place: Map<Seq<char>, JsonView>|
            #![trigger json_keyed(job.job@, JsonView::Object(f)), place.dom()]
            {
                &&& result_record(job, rec, digest, void_pct, work_ms, now, id)
                    == json_keyed(job.job@, JsonView::Object(f))
                &&& f["job"@] == JsonView::Str(job.job@)
                &&& f["strip"@] == JsonView::Str(job.strip@)
                &&& f["lot"@] == opt_text_view(opt_text(job.lot))
                &&& f["defect"@] == JsonView::Str(defect_shown(digest))
                &&& f["void_pct"@] == void_pct
                &&& f["work_ms"@] == JsonView::Uint(work_ms)
                &&& f["latency_ms"@] == JsonView::Uint(latency_of(rec.timestamp, now, work_ms))
                &&& f["instance"@] == JsonView::Str(id)
                &&& f["origin"@] == JsonView::Object(place)
                &&& place["partition"@] == int_view(rec.partition as i64)
                &&& place["offset"@] == int_view(rec.offset)
            },
{
    reveal_strlit("job");
    reveal_strlit("strip");
    reveal_strlit("lot");
    reveal_strlit("defect");
    reveal_strlit("void_pct");
    reveal_strlit("work_ms");
    reveal_strlit("latency_ms");
    reveal_strlit("instance");
    reveal_strlit("origin");
    reveal_strlit("partition");
    reveal_strlit("offset");
    assert("job"@.len() == 3 && "strip"@.len() == 5 && "lot"@.len() == 3 && "defect"@.len() == 6
        && "void_pct"@.len() == 8 && "work_ms"@.len() == 7 && "latency_ms"@.len() == 10
        && "instance"@.len() == 8 && "origin"@.len() == 6 && "partition"@.len() == 9
        && "offset"@.len() == 6);
    assert("job"@[0] == 'j');
    assert("lot"@[0] == 'l');
    assert("defect"@[0] == 'd');
    assert("origin"@[0] == 'o');
    assert("offset"@[0] == 'o');
    assert("void_pct"@[0] == 'v');
    assert("instance"@[0] == 'i');
    assert("origin"@[1] == 'r');
    assert("offset"@[1] == 'f');
    let place = Map::<Seq<char>, JsonView>::empty()
        .insert("partition"@, int_view(rec.partition as i64))
        .insert("offset"@, int_view(rec.offset));
    let f = Map::<Seq<char>, JsonView>::empty()
        .insert("job"@, JsonView::Str(job.job@))
        .insert("strip"@, JsonView::Str(job.strip@))
        .insert("lot"@, opt_text_view(opt_text(job.lot)))
        .insert("defect"@, JsonView::Str(defect_shown(digest)))
        .insert("void_pct"@, void_pct)
        .insert("work_ms"@, JsonView::Uint(work_ms))
        .insert("latency_ms"@, JsonView::Uint(latency_of(rec.timestamp, now, work_ms)))
        .insert("instance"@, JsonView::Str(id))
        .insert("origin"@, JsonView::Object(place));
    assert(result_record(job, rec, digest, void_pct, work_ms, now, id)
        == json_keyed(job.job@, JsonView::Object(f)));
    assert(place.dom() =~= place.dom());
}

// ---------------------------------------------------------------------------
// A batch

/// Whether a record holds what is no job.
pub open spec fn holds_no_job(i: Item) -> bool {
    i.rec.value matches Some(v) && !(valid_utf8(v@) && i.decoded is Ok
        && i.decoded->Ok_0.job@.len() > 0 && i.decoded->Ok_0.strip@.len() > 0)
}

/// How many of the first `n` records hold something.
pub open spec fn jobs_before(items: Seq<Item>, n: nat) -> nat {
    how_many(n, |i: int| items[i].rec.value is Some)
}

proof fn lemma_jobs_of_front(items: Seq<Item>, n: nat)
    requires
        items.len() > 0,
        n < items.len(),
    ensures
        jobs_before(items.drop_last(), n) == jobs_before(items, n),
        jobs_before(items, items.len()) == jobs_before(items, (items.len() - 1) as nat) + if
            items.last().rec.value is Some {
            1nat
        } else {
            0nat
        },
        jobs_before(items, n) <= n,
{
    let rest = items.drop_last();
    let all = |i: int| items[i].rec.value is Some;
    let of_rest = |i: int| rest[i].rec.value is Some;
    assert forall|i: int| 0 <= i < n implies #[trigger] all(i) == of_rest(i) by {
        assert(items[i] == rest[i]);
    }
    lemma_how_many(n, all, of_rest);
    assert(jobs_before(items, items.len()) == how_many(items.len(), all));
}

/// A batch is worked on up to the first record that holds no job, and fails
/// for what is wrong with that record. Each job before it gets its result,
/// its latency and its defect, in the order of the records.
pub proof fn each_job_gets_its_result(items: Seq<Item>, id: Seq<char>, n: nat)
    requires
        n <= items.len(),
        forall|i: int| 0 <= i < n ==> !holds_no_job(#[trigger] items[i]),
        n < items.len() ==> holds_no_job(items[n as int]),
    ensures
        ({
            let w = worked_through(items, id);
            let jobs = jobs_before(items, n);
            &&& readable(items) == n
            &&& w.results.len() == jobs
            &&& w.latencies.len() == jobs
            &&& w.defects.len() == jobs
            &&& w.handled == if n == 0 {
                None
            } else {
                Some(items[n - 1].rec.offset)
            }
            &&& n == items.len() ==> w.failure is None
            &&& n < items.len() ==> w.failure == job_fault(
                items[n as int].rec.value->0@,
                items[n as int].decoded,
            )
            &&& forall|i: int|
                0 <= i < n && (#[trigger] items[i]).rec.value is Some ==> {
                    let it = items[i];
                    let job = it.decoded->Ok_0;
                    let digest = digest_of(job);
                    let k = jobs_before(items, i as nat) as int;
                    &&& k < jobs
                    &&& w.results[k] == result_record(
                        job,
                        it.rec,
                        digest,
                        it.void_pct@,
                        it.work_ms,
                        it.now,
                        id,
                    )
                    &&& w.latencies[k] == latency_of(it.rec.timestamp, it.now, it.work_ms)
                    &&& w.defects[k] == JsonView::Str(defect_shown(digest))
                }
        }),
    decreases items.len(),
{
    if items.len() > 0 {
        let rest = items.drop_last();
        let last = items.len() - 1;
        let m: nat = if n < items.len() {
            n
        } else {
            last as nat
        };
        assert forall|i: int| 0 <= i < m implies !holds_no_job(#[trigger] rest[i]) by {
            assert(rest[i] == items[i]);
        }
        if m < rest.len() {
            assert(rest[m as int] == items[m as int]);
        }
        each_job_gets_its_result(rest, id, m);
        lemma_jobs_of_front(items, m);
        lemma_jobs_of_front(items, last as nat);
        assert(is_malformed(items[last]) <==> holds_no_job(items[last]));
        if m < rest.len() {
            assert(items[n as int] == rest[n as int]);
        }
        let w = worked_through(items, id);
        let before = worked_through(rest, id);
        assert forall|i: int| 0 <= i < n && (#[trigger] items[i]).rec.value is Some implies ({
            let it = items[i];
            let job = it.decoded->Ok_0;
            let digest = digest_of(job);
            let k = jobs_before(items, i as nat) as int;
            &&& k < jobs_before(items, n)
            &&& w.results[k] == result_record(
                job,
                it.rec,
                digest,
                it.void_pct@,
                it.work_ms,
                it.now,
                id,
            )
            &&& w.latencies[k] == latency_of(it.rec.timestamp, it.now, it.work_ms)
            &&& w.defects[k] == JsonView::Str(defect_shown(digest))
        }) by {
            if i < m {
                assert(rest[i] == items[i]);
                lemma_jobs_of_front(items, i as nat);
            }
        }
        if 0 < n {
            assert(n <= rest.len() ==> rest[n - 1] == items[n - 1]);
        }
    }
}

// ---------------------------------------------------------------------------
// What is reported and answered

/// A latency is the middle one where as many stand before it, in ascending
/// order, as the half of all, and the 95th percentile where 95 of a hundred
/// do.
pub proof fn percentiles_are_among_the_latencies(latencies: Seq<u64>)
    requires
        latencies.len() > 0,
    ensures
        exists|row: Seq<u64>|
            {
                &&& #[trigger] row.to_multiset() == latencies.to_multiset()
                &&& row.len() == latencies.len()
                &&& forall|i: int, j: int| 0 <= i <= j < row.len() ==> row[i] <= row[j]
                &&& p50_of(latencies) == row[latencies.len() as int / 2]
                &&& p95_of(latencies) == row[latencies.len() as int * 95 / 100]
            },
{
    a_percentile_stands_at_its_rank(latencies, 95);
    assert(ascending(latencies).to_multiset() == latencies.to_multiset());
}

/// A batch with results tells how many there are, how long jobs were under
/// way and what was found, by whom and on which partition, and what went to
/// the topic of results. One without tells none of it. A failure is told
/// last.
pub proof fn a_batch_reports_its_jobs(
    w: WorkView,
    id: Seq<char>,
    jobs: u64,
    records: Seq<ConsumedRecord>,
    at: int,
)
    requires
        records.len() > 0,
    ensures
        ({
            let out = closing(w, id, jobs, records, at);
            let told: int = if w.results.len() > 0 {
                2
            } else {
                0
            };
            &&& out.len() == told + if w.failure is Some {
                1int
            } else {
                0int
            }
            &&& w.failure matches Some(reason) ==> out[told] == failure_metric(
                "st04"@,
                "job"@,
                w.handled,
                reason,
                records[at],
            )
        }),
        w.results.len() > 0 ==>
            exists|f: Map<Seq<char>, JsonView>|
                #![trigger metric_view("st04"@, "consumed"@, records.last().timestamp, f)]
                {
                    &&& closing(w, id, jobs, records, at)[0]
                        == metric_view("st04"@, "consumed"@, records.last().timestamp, f)
                    &&& f["n"@] == JsonView::Uint(w.results.len() as u64)
                    &&& f["latency_p50_ms"@] == JsonView::Uint(p50_of(w.latencies))
                    &&& f["latency_p95_ms"@] == JsonView::Uint(p95_of(w.latencies))
                    &&& f["defects"@] == JsonView::List(w.defects)
                    &&& f["instance"@] == JsonView::Str(id)
                    &&& f["jobs_on_instance"@] == JsonView::Uint(jobs)
                    &&& f["partition"@] == int_view(records[0].partition as i64)
                },
        w.results.len() > 0 ==>
            exists|f: Map<Seq<char>, JsonView>|
                #![trigger metric_view("st04"@, "produced"@, records.last().timestamp, f)]
                {
                    &&& closing(w, id, jobs, records, at)[1]
                        == metric_view("st04"@, "produced"@, records.last().timestamp, f)
                    &&& f["topic"@] == JsonView::Str("inspect.results"@)
                    &&& f["n"@] == JsonView::Uint(w.results.len() as u64)
                },
{
    reveal_strlit("n");
    reveal_strlit("latency_p50_ms");
    reveal_strlit("latency_p95_ms");
    reveal_strlit("defects");
    reveal_strlit("instance");
    reveal_strlit("jobs_on_instance");
    reveal_strlit("partition");
    reveal_strlit("topic");
    assert("n"@.len() == 1 && "latency_p50_ms"@.len() == 14 && "latency_p95_ms"@.len() == 14
        && "defects"@.len() == 7 && "instance"@.len() == 8 && "jobs_on_instance"@.len() == 16
        && "partition"@.len() == 9 && "topic"@.len() == 5);
    assert("latency_p50_ms"@[9] == '5');
    assert("latency_p95_ms"@[9] == '9');
    if w.results.len() > 0 {
        let f = Map::<Seq<char>, JsonView>::empty()
            .insert("n"@, JsonView::Uint(w.results.len() as u64))
            .insert("latency_p50_ms"@, JsonView::Uint(p50_of(w.latencies)))
            .insert("latency_p95_ms"@, JsonView::Uint(p95_of(w.latencies)))
            .insert("defects"@, JsonView::List(w.defects))
            .insert("instance"@, JsonView::Str(id))
            .insert("jobs_on_instance"@, JsonView::Uint(jobs))
            .insert("partition"@, int_view(records[0].partition as i64));
        assert(closing(w, id, jobs, records, at)[0]
            == metric_view("st04"@, "consumed"@, records.last().timestamp, f));
        let g = Map::<Seq<char>, JsonView>::empty()
            .insert("topic"@, JsonView::Str("inspect.results"@))
            .insert("n"@, JsonView::Uint(w.results.len() as u64));
        assert(closing(w, id, jobs, records, at)[1]
            == metric_view("st04"@, "produced"@, records.last().timestamp, g));
    }
}

/// An instance says that it is there when it is new, and not again.
pub proof fn a_new_instance_says_so(id: Seq<char>, fresh: bool, records: Seq<ConsumedRecord>)
    requires
        records.len() > 0,
    ensures
        opening(id, fresh, records).len() == if fresh {
            1int
        } else {
            0int
        },
        fresh ==>
            exists|f: Map<Seq<char>, JsonView>|
                #![trigger metric_view("st04"@, "instance"@, records.last().timestamp, f)]
                {
                    &&& opening(id, fresh, records)[0]
                        == metric_view("st04"@, "instance"@, records.last().timestamp, f)
                    &&& f["id"@] == JsonView::Str(id)
                },
{
    if fresh {
        let f = Map::<Seq<char>, JsonView>::empty().insert("id"@, JsonView::Str(id));
        assert(opening(id, fresh, records)[0]
            == metric_view("st04"@, "instance"@, records.last().timestamp, f));
    }
}

/// A batch whose results did not all get onto their topic is to be delivered
/// again, whatever was done of it. One whose results did is handled: wholly
/// where nothing failed, and otherwise up to the failure, which is refused
/// where nothing stands before it.
pub proof fn a_batch_is_handled_once_its_results_are_out(
    w: WorkView,
    sent: Option<Result<Vec<Result<(), KafkaError>>, KafkaError>>,
)
    ensures
        ({
            let lost = sent matches Some(s) && (s is Err || exists|i: int|
                0 <= i < s->Ok_0@.len() && (#[trigger] s->Ok_0@[i]) is Err);
            &&& lost ==> answer(w, sent) == Err::<Option<i64>, HandlerErrorView>(
                HandlerErrorView::Transient(Some("results produce failed"@)),
            )
            &&& !lost && w.failure is None ==> answer(w, sent) == Ok::<
                Option<i64>,
                HandlerErrorView,
            >(None)
            &&& !lost && w.failure is Some && w.handled is Some ==> answer(w, sent) == Ok::<
                Option<i64>,
                HandlerErrorView,
            >(w.handled)
            &&& !lost && w.failure is Some && w.handled is None ==> answer(w, sent) == Err::<
                Option<i64>,
                HandlerErrorView,
            >(HandlerErrorView::Permanent(w.failure))
        }),
{
    if let Some(s) = sent {
        if let Ok(outcomes) = s {
            if crate::kafka::all_taken(outcomes@) {
                assert forall|i: int| 0 <= i < outcomes@.len() implies !((#[trigger] outcomes@[i])
                    is Err) by {
                    assert(outcomes@[i] is Ok);
                }
            } else {
                let i = choose|i: int|
                    0 <= i < outcomes@.len() && !((#[trigger] outcomes@[i]) is Ok);
                assert(outcomes@[i] is Err);
            }
        }
    }
}

/// The work on a batch is on its records in their order, each with what it
/// decodes as and the void that goes with it, and each job takes no less than
/// it declares, nor less than 50 milliseconds.
pub proof fn work_is_on_the_records_of_the_batch(
    items: Seq<Item>,
    records: Seq<ConsumedRecord>,
    decoded: Seq<Result<Job, String>>,
    voids: Seq<Json>,
    i: int,
)
    requires
        are_items(items, records, decoded, voids),
        0 <= i < records.len(),
    ensures
        items.len() == records.len(),
        items[i].rec == records[i],
        items[i].decoded == decoded[i],
        items[i].void_pct == voids[i],
        records[i].value is Some && !holds_no_job(items[i]) ==> {
            let cost = decoded[i]->Ok_0.cost_ms;
            &&& items[i].work_ms >= 50
            &&& cost <= 2000 ==> items[i].work_ms >= cost
            &&& cost > 2000 ==> items[i].work_ms >= 2000
        },
{
    assert(items[i].rec == records[i]);
    assert(is_malformed(items[i]) <==> holds_no_job(items[i]));
}

} // verus!
