//! Inspection: a work queue. Each job takes as much work as it declares, and
//! its result follows from the job alone.

use vstd::prelude::*;
use vstd::string::*;
use vstd::utf8::*;

use super::instance::{
    batch_partition, conclude, failure_metric, fault_in, last_time, partition_of, report_failure,
    time_of_last, verdict_on,
};
use crate::clock::{elapsed_ms, moment, now_ms};
use crate::json::{
    int_view, lemma_list_view, lemma_list_view_push, list_view, opt_int_view, opt_text,
    opt_text_view, Fields, Json, JsonView,
};
use crate::kafka::{
    is_wholly_taken, json_keyed, json_record, lemma_produce_views_push, metric, metric_view,
    produce_views, verdict_view, wholly_taken, ConsumedRecord, HandlerError, HandlerErrorView,
    KafkaError, ProduceRecord, ProduceView,
};
use crate::stats::{ascending, rank, sorted_copy};
use crate::text::is_utf8;

verus! {

broadcast use {vstd::string::group_string_axioms, crate::json::lemma_list_view};

/// The least work a job takes, in milliseconds.
pub const MIN_COST_MS: u64 = 50;

/// The most work a job takes, in milliseconds.
pub const MAX_COST_MS: u64 = 2_000;

/// An inspection job.
pub struct Job {
    pub job: String,
    pub strip: String,
    pub lot: Option<String>,
    pub cost_ms: u64,
}

// ---------------------------------------------------------------------------
// Reading

/// Why bytes are no job, given what they decode as.
pub open spec fn job_fault(bytes: Seq<u8>, decoded: Result<Job, String>) -> Option<Seq<char>> {
    if !valid_utf8(bytes) {
        Some("value is not valid UTF-8"@)
    } else {
        match decoded {
            Err(e) => Some("bad job: "@ + e@),
            Ok(j) => if j.job@.len() == 0 || j.strip@.len() == 0 {
                Some("job and strip ids are required"@)
            } else {
                None
            },
        }
    }
}

fn is_empty(s: &String) -> (r: bool)
    ensures
        r == (s@.len() == 0),
{
    let r = crate::text::text_eq(s.as_str(), "");
    proof {
        reveal_strlit("");
        if s@.len() == 0 {
            assert(s@ =~= ""@);
        }
    }
    r
}

/// The job in bytes, given what they decode as; or why they are none.
pub fn parse(value: &[u8], decoded: Result<Job, String>) -> (r: Result<Job, String>)
    ensures
        fault_in(r) == job_fault(value@, decoded),
        r is Ok ==> r == decoded,
{
    if !is_utf8(value) {
        return Err("value is not valid UTF-8".to_owned());
    }
    match decoded {
        Err(e) => {
            let mut t = "bad job: ".to_owned();
            t.append(e.as_str());
            Err(t)
        },
        Ok(j) => {
            if is_empty(&j.job) || is_empty(&j.strip) {
                Err("job and strip ids are required".to_owned())
            } else {
                Ok(j)
            }
        },
    }
}

// ---------------------------------------------------------------------------
// Work

/// The digest that a byte string starts from.
pub const BASIS: u64 = 0xcbf2_9ce4_8422_2325;

/// What a digest is multiplied by for each byte.
pub const PRIME: u64 = 0x0100_0000_01b3;

/// A digest with one more byte in it.
pub open spec fn digested(acc: u64, b: u8) -> u64 {
    (acc ^ (b as u64)).wrapping_mul(PRIME)
}

/// The digest of bytes, from a digest on.
pub open spec fn digest_from(acc: u64, bytes: Seq<u8>) -> u64
    decreases bytes.len(),
{
    if bytes.len() == 0 {
        acc
    } else {
        digested(digest_from(acc, bytes.drop_last()), bytes.last())
    }
}

/// The digest of a job: that of the bytes of its strip and its id.
pub open spec fn digest_of(job: Job) -> u64 {
    digest_from(digest_from(BASIS, encode_utf8(job.strip@)), encode_utf8(job.job@))
}

/// How long a job takes, in milliseconds.
pub open spec fn budget_of(cost_ms: u64) -> u64 {
    if cost_ms < MIN_COST_MS {
        MIN_COST_MS
    } else if cost_ms > MAX_COST_MS {
        MAX_COST_MS
    } else {
        cost_ms
    }
}

/// How long a job takes, in milliseconds.
pub fn budget(cost_ms: u64) -> (r: u64)
    ensures
        r == budget_of(cost_ms),
        MIN_COST_MS <= r <= MAX_COST_MS,
{
    if cost_ms < MIN_COST_MS {
        MIN_COST_MS
    } else if cost_ms > MAX_COST_MS {
        MAX_COST_MS
    } else {
        cost_ms
    }
}

fn digest_bytes(acc: u64, bytes: &Vec<u8>) -> (r: u64)
    ensures
        r == digest_from(acc, bytes@),
{
    let mut r = acc;
    let mut i: usize = 0;
    assert(bytes@.take(0) =~= Seq::empty());
    while i < bytes.len()
        invariant
            i <= bytes@.len(),
            r == digest_from(acc, bytes@.take(i as int)),
        decreases bytes@.len() - i,
    {
        assert(bytes@.take(i + 1).drop_last() =~= bytes@.take(i as int));
        assert(bytes@.take(i + 1).last() == bytes@[i as int]);
        r = (r ^ (bytes[i] as u64)).wrapping_mul(PRIME);
        i = i + 1;
    }
    assert(bytes@.take(bytes@.len() as int) =~= bytes@);
    r
}

/// The digest of a job.
pub fn digest(job: &Job) -> (r: u64)
    ensures
        r == digest_of(*job),
{
    let strip = job.strip.as_str().as_bytes_vec();
    let id = job.job.as_str().as_bytes_vec();
    digest_bytes(digest_bytes(BASIS, &strip), &id)
}

/// Works on a job: digests it over and over until it has taken the time that
/// the job declares by the monotonic clock. The digest is that of the job,
/// however often it was made. The time is what the clock says was taken, and
/// no less than what the job declares; how much more it is rests on the
/// machine.
pub fn inspect(job: &Job) -> (r: (u64, u64))
    ensures
        r.0 == digest_of(*job),
        r.1 >= budget_of(job.cost_ms),
{
    let allowed = budget(job.cost_ms);
    let start = moment();
    let mut acc: u64 = digest(job);
    let mut iters: u64 = 1;
    let mut enough = false;
    while !enough && iters < u64::MAX
        invariant
            acc == digest_of(*job),
        decreases u64::MAX - iters,
    {
        acc = digest(job);
        iters = iters + 1;
        enough = iters % 2048 == 0 && elapsed_ms(&start) >= allowed;
    }
    let took = elapsed_ms(&start);
    (
        acc,
        if took < allowed {
            allowed
        } else {
            took
        },
    )
}

/// The defect that a digest shows.
pub open spec fn class_of(digest: u64) -> Seq<char> {
    if digest % 12 == 0 {
        "void>10%"@
    } else if digest % 12 == 1 {
        "bridge"@
    } else if digest % 12 == 2 {
        "lift"@
    } else {
        "none"@
    }
}

/// The defect that a digest shows: none for nine strips of twelve.
pub fn defect_class(digest: u64) -> (r: &'static str)
    ensures
        r@ == class_of(digest),
{
    let k = digest % 12;
    if k == 0 {
        "void>10%"
    } else if k == 1 {
        "bridge"
    } else if k == 2 {
        "lift"
    } else {
        "none"
    }
}

/// The time from a record to its result, in milliseconds: by the record's
/// time where it has one, and otherwise that of the work.
pub open spec fn latency_of(timestamp: Option<i64>, now: i64, work_ms: u64) -> u64 {
    match timestamp {
        Some(t) => if now.wrapping_sub(t) < 0 {
            0
        } else {
            now.wrapping_sub(t) as u64
        },
        None => work_ms,
    }
}

// ---------------------------------------------------------------------------
// A batch

/// The result of a job.
pub open spec fn result_record(
    job: Job,
    rec: ConsumedRecord,
    digest: u64,
    void_pct: JsonView,
    work_ms: u64,
    now: i64,
    id: Seq<char>,
) -> ProduceView {
    json_keyed(
        job.job@,
        JsonView::Object(
            Map::empty().insert("job"@, JsonView::Str(job.job@)).insert(
                "strip"@,
                JsonView::Str(job.strip@),
            ).insert("lot"@, opt_text_view(opt_text(job.lot))).insert(
                "defect"@,
                JsonView::Str(class_of(digest)),
            ).insert("void_pct"@, void_pct).insert("work_ms"@, JsonView::Uint(work_ms)).insert(
                "latency_ms"@,
                JsonView::Uint(latency_of(rec.timestamp, now, work_ms)),
            ).insert("instance"@, JsonView::Str(id)).insert(
                "origin"@,
                JsonView::Object(
                    Map::empty().insert("partition"@, int_view(rec.partition as i64)).insert(
                        "offset"@,
                        int_view(rec.offset),
                    ),
                ),
            ),
        ),
    )
}

/// What has been done of a batch.
pub struct Work {
    /// The offset the batch is handled through.
    pub handled: Option<i64>,
    pub results: Vec<ProduceRecord>,
    pub latencies: Vec<u64>,
    pub defects: Vec<Json>,
    /// Why the work stopped.
    pub failure: Option<String>,
}

/// What the work on a batch stands for.
#[verifier::ext_equal]
pub struct WorkView {
    pub handled: Option<i64>,
    pub results: Seq<ProduceView>,
    pub latencies: Seq<u64>,
    pub defects: Seq<JsonView>,
    pub failure: Option<Seq<char>>,
}

impl View for Work {
    type V = WorkView;

    open spec fn view(&self) -> WorkView {
        WorkView {
            handled: self.handled,
            results: produce_views(self.results@),
            latencies: self.latencies@,
            defects: list_view(self.defects@),
            failure: opt_text(self.failure),
        }
    }
}

/// Nothing done yet.
pub open spec fn no_work() -> WorkView {
    WorkView {
        handled: None,
        results: Seq::empty(),
        latencies: Seq::empty(),
        defects: Seq::empty(),
        failure: None,
    }
}

/// What comes next in a batch.
pub enum Step {
    /// The next record.
    Next,
    /// This job is to be inspected, and what comes of it noted.
    Inspect(Job),
    /// The end of the work.
    Stop,
}

/// The work after a record is looked at, given what its value decodes as.
pub open spec fn looked_at(w: WorkView, rec: ConsumedRecord, decoded: Result<Job, String>) -> WorkView {
    match rec.value {
        None => WorkView { handled: Some(rec.offset), ..w },
        Some(value) => match job_fault(value@, decoded) {
            Some(reason) => WorkView { failure: Some(reason), ..w },
            None => w,
        },
    }
}

/// The work after a job is inspected.
pub open spec fn inspected(
    w: WorkView,
    job: Job,
    rec: ConsumedRecord,
    digest: u64,
    void_pct: JsonView,
    work_ms: u64,
    now: i64,
    id: Seq<char>,
) -> WorkView {
    WorkView {
        handled: Some(rec.offset),
        results: w.results.push(result_record(job, rec, digest, void_pct, work_ms, now, id)),
        latencies: w.latencies.push(latency_of(rec.timestamp, now, work_ms)),
        defects: w.defects.push(JsonView::Str(class_of(digest))),
        ..w
    }
}

/// The middle of latencies.
pub open spec fn p50_of(latencies: Seq<u64>) -> u64 {
    ascending(latencies)[latencies.len() as int / 2]
}

/// The latency that at most one in twenty is above.
pub open spec fn p95_of(latencies: Seq<u64>) -> u64 {
    ascending(latencies)[rank(latencies.len() as int, 95)]
}

/// What a `consumed` metric tells.
pub open spec fn consumed_extra(
    w: WorkView,
    id: Seq<char>,
    jobs: u64,
    records: Seq<ConsumedRecord>,
) -> Map<Seq<char>, JsonView> {
    Map::empty().insert("n"@, JsonView::Uint(w.results.len() as u64)).insert(
        "latency_p50_ms"@,
        JsonView::Uint(p50_of(w.latencies)),
    ).insert("latency_p95_ms"@, JsonView::Uint(p95_of(w.latencies))).insert(
        "defects"@,
        JsonView::List(w.defects),
    ).insert("instance"@, JsonView::Str(id)).insert(
        "jobs_on_instance"@,
        JsonView::Uint(jobs),
    ).insert("partition"@, opt_int_view(partition_of(records)))
}

/// The metrics that a batch starts with: that the instance is there, when it
/// is new.
pub open spec fn opening(id: Seq<char>, fresh: bool, records: Seq<ConsumedRecord>) -> Seq<
    ProduceView,
> {
    if fresh {
        seq![
            metric_view(
                "st04"@,
                "instance"@,
                last_time(records),
                Map::empty().insert("id"@, JsonView::Str(id)),
            ),
        ]
    } else {
        Seq::empty()
    }
}

/// The metrics that a batch ends with, where its results are taken.
pub open spec fn closing(
    w: WorkView,
    id: Seq<char>,
    jobs: u64,
    records: Seq<ConsumedRecord>,
    at: int,
) -> Seq<ProduceView> {
    let ts = last_time(records);
    let a: Seq<ProduceView> = if w.results.len() > 0 {
        seq![
            metric_view("st04"@, "consumed"@, ts, consumed_extra(w, id, jobs, records)),
            metric_view(
                "st04"@,
                "produced"@,
                ts,
                Map::empty().insert("topic"@, JsonView::Str("inspect.results"@)).insert(
                    "n"@,
                    JsonView::Uint(w.results.len() as u64),
                ),
            ),
        ]
    } else {
        Seq::empty()
    };
    match w.failure {
        Some(reason) => a.push(failure_metric("st04"@, "job"@, w.handled, reason, records[at])),
        None => a,
    }
}

/// The answer for a batch: nothing counts as handled before its results are
/// on the topic.
pub open spec fn answer(
    w: WorkView,
    sent: Option<Result<Vec<Result<(), KafkaError>>, KafkaError>>,
) -> Result<Option<i64>, HandlerErrorView> {
    if is_lost(sent) {
        Err(HandlerErrorView::Transient(Some("results produce failed"@)))
    } else {
        verdict_on(w.handled, w.failure)
    }
}

/// Whether something was sent and not wholly taken.
pub open spec fn is_lost(
    sent: Option<Result<Vec<Result<(), KafkaError>>, KafkaError>>,
) -> bool {
    match sent {
        Some(s) => !wholly_taken(s),
        None => false,
    }
}

/// Whether something was sent and not wholly taken.
pub fn was_lost(sent: &Option<Result<Vec<Result<(), KafkaError>>, KafkaError>>) -> (r: bool)
    ensures
        r == is_lost(*sent),
{
    match sent {
        Some(s) => !is_wholly_taken(s),
        None => false,
    }
}

/// The metrics that a batch starts with.
pub fn open_batch(id: &str, fresh: bool, records: &Vec<ConsumedRecord>) -> (r: Vec<ProduceRecord>)
    ensures
        produce_views(r@) == opening(id@, fresh, records@),
{
    let mut r: Vec<ProduceRecord> = Vec::new();
    let ghost none: Seq<ProduceView> = Seq::empty();
    assert(produce_views(r@) =~= none);
    if fresh {
        let mut f = Fields::new();
        f.put("id", Json::text(id));
        let m = metric("st04", "instance", time_of_last(records), &f);
        proof {
            lemma_produce_views_push(r@, m);
            assert(none.push(m@) =~= seq![m@]);
        }
        r.push(m);
    }
    r
}

impl Work {
    /// Nothing done yet.
    pub fn new() -> (r: Work)
        ensures
            r@ == no_work(),
    {
        let r = Work {
            handled: None,
            results: Vec::new(),
            latencies: Vec::new(),
            defects: Vec::new(),
            failure: None,
        };
        assert(r@ =~= no_work());
        r
    }

    /// Looks at a record, given what its value decodes as.
    pub fn take(&mut self, rec: &ConsumedRecord, decoded: Result<Job, String>) -> (s: Step)
        ensures
            final(self)@ == looked_at(old(self)@, *rec, decoded),
            match s {
                Step::Next => rec.value is None,
                Step::Inspect(job) => rec.value is Some && job_fault(rec.value->0@, decoded) is None
                    && decoded == Ok::<Job, String>(job),
                Step::Stop => rec.value is Some && job_fault(rec.value->0@, decoded) is Some,
            },
    {
        match &rec.value {
            None => {
                self.handled = Some(rec.offset);
                Step::Next
            },
            Some(value) => match parse(value.as_slice(), decoded) {
                Err(reason) => {
                    self.failure = Some(reason);
                    Step::Stop
                },
                Ok(job) => Step::Inspect(job),
            },
        }
    }

    /// Notes what came of a job: its digest, the void it shows, the time the
    /// work took and the time it is.
    pub fn note(
        &mut self,
        job: &Job,
        rec: &ConsumedRecord,
        digest: u64,
        void_pct: Json,
        work_ms: u64,
        now: i64,
        id: &str,
    )
        ensures
            final(self)@ == inspected(
                old(self)@,
                *job,
                *rec,
                digest,
                void_pct@,
                work_ms,
                now,
                id@,
            ),
    {
        let latency: u64 = match rec.timestamp {
            Some(t) => {
                let d = now.wrapping_sub(t);
                if d < 0 {
                    0
                } else {
                    d as u64
                }
            },
            None => work_ms,
        };
        let class = defect_class(digest);
        let mut origin = Fields::new();
        origin.put("partition", Json::whole(rec.partition as i64));
        origin.put("offset", Json::whole(rec.offset));
        let mut f = Fields::new();
        f.put("job", Json::text(job.job.as_str()));
        f.put("strip", Json::text(job.strip.as_str()));
        f.put("lot", Json::opt_text(&job.lot));
        f.put("defect", Json::text(class));
        f.put("void_pct", void_pct);
        f.put("work_ms", Json::Uint(work_ms));
        f.put("latency_ms", Json::Uint(latency));
        f.put("instance", Json::text(id));
        f.put("origin", Json::Object(origin));
        let result = json_record(job.job.as_str(), &Json::Object(f));
        let defect = Json::text(class);
        proof {
            lemma_produce_views_push(self.results@, result);
            lemma_list_view_push(self.defects@, defect);
        }
        self.results.push(result);
        self.latencies.push(latency);
        self.defects.push(defect);
        self.handled = Some(rec.offset);
    }

    fn consumed_fields(&self, id: &str, jobs: u64, records: &Vec<ConsumedRecord>) -> (r: Fields)
        requires
            self.latencies@.len() == self.results@.len() > 0,
        ensures
            r@ == consumed_extra(self@, id@, jobs, records@),
    {
        let sorted = sorted_copy(&self.latencies);
        let n: usize = sorted.len();
        let p50 = sorted[n / 2];
        let at: usize = (n as u128 * 95 / 100) as usize;
        let p95 = sorted[if at < n - 1 {
            at
        } else {
            n - 1
        }];
        let mut f = Fields::new();
        f.put("n", Json::Uint(self.results.len() as u64));
        f.put("latency_p50_ms", Json::Uint(p50));
        f.put("latency_p95_ms", Json::Uint(p95));
        f.put("defects", Json::List(crate::json::copy_list(&self.defects)));
        f.put("instance", Json::text(id));
        f.put("jobs_on_instance", Json::Uint(jobs));
        f.put("partition", Json::opt_int(batch_partition(records)));
        f
    }

    /// Ends a batch, given what came of sending its results and, where the
    /// work failed, the record it stopped at: the metrics to send, and the
    /// answer.
    pub fn finish(
        self,
        id: &str,
        jobs: u64,
        records: &Vec<ConsumedRecord>,
        at: usize,
        sent: &Option<Result<Vec<Result<(), KafkaError>>, KafkaError>>,
    ) -> (r: (Vec<ProduceRecord>, Result<Option<i64>, HandlerError>))
        requires
            self.failure is Some ==> at < records@.len(),
            self.latencies@.len() == self.results@.len(),
        ensures
            produce_views(r.0@) == if is_lost(*sent) {
                Seq::empty()
            } else {
                closing(self@, id@, jobs, records@, at as int)
            },
            verdict_view(r.1) == answer(self@, *sent),
    {
        let mut r: Vec<ProduceRecord> = Vec::new();
        let ghost none: Seq<ProduceView> = Seq::empty();
        assert(produce_views(r@) =~= none);
        if was_lost(sent) {
            return (
                r,
                Err(HandlerError::Transient(Some("results produce failed".to_owned()))),
            );
        }
        let ts = time_of_last(records);
        if self.results.len() > 0 {
            let f = self.consumed_fields(id, jobs, records);
            let c = metric("st04", "consumed", ts, &f);
            let mut g = Fields::new();
            g.put("topic", Json::text("inspect.results"));
            g.put("n", Json::Uint(self.results.len() as u64));
            let p = metric("st04", "produced", ts, &g);
            proof {
                lemma_produce_views_push(r@, c);
                lemma_produce_views_push(r@.push(c), p);
                assert(none.push(c@).push(p@) =~= seq![c@, p@]);
            }
            r.push(c);
            r.push(p);
        }
        match &self.failure {
            Some(reason) => {
                let m = report_failure("st04", "job", self.handled, reason.as_str(), &records[at]);
                proof {
                    lemma_produce_views_push(r@, m);
                }
                r.push(m);
            },
            None => {},
        }
        let verdict = conclude(self.handled, self.failure);
        (r, verdict)
    }
}

// ---------------------------------------------------------------------------
// Laws

/// A record, what its value decodes as, and what inspecting it comes to
/// besides its digest.
pub struct Item {
    pub rec: ConsumedRecord,
    pub decoded: Result<Job, String>,
    pub void_pct: Json,
    pub work_ms: u64,
    pub now: i64,
}

/// Whether a record cannot be read.
pub open spec fn is_malformed(i: Item) -> bool {
    i.rec.value is Some && job_fault(i.rec.value->0@, i.decoded) is Some
}

/// The work after a record. Behind a failure nothing is worked on.
pub open spec fn worked_on(w: WorkView, i: Item, id: Seq<char>) -> WorkView {
    if w.failure is Some {
        w
    } else {
        let seen = looked_at(w, i.rec, i.decoded);
        if i.rec.value is Some && !is_malformed(i) {
            let job = i.decoded->Ok_0;
            inspected(seen, job, i.rec, digest_of(job), i.void_pct@, i.work_ms, i.now, id)
        } else {
            seen
        }
    }
}

/// The work after a batch.
pub open spec fn worked_through(items: Seq<Item>, id: Seq<char>) -> WorkView
    decreases items.len(),
{
    if items.len() == 0 {
        no_work()
    } else {
        worked_on(worked_through(items.drop_last(), id), items.last(), id)
    }
}

/// Whether a record that holds a job took no less time than the job declares.
pub open spec fn takes_its_time(i: Item) -> bool {
    i.rec.value is Some && !is_malformed(i) ==> i.work_ms >= budget_of(i.decoded->Ok_0.cost_ms)
}

/// Whether a row of items is made of these records, of what their values
/// decode as, and of the voids that their digests show, each with no less
/// time than its job declares.
pub open spec fn are_items(
    items: Seq<Item>,
    records: Seq<ConsumedRecord>,
    decoded: Seq<Result<Job, String>>,
    voids: Seq<Json>,
) -> bool {
    &&& items.len() == records.len()
    &&& forall|i: int|
        0 <= i < items.len() ==> (#[trigger] items[i]).rec == records[i] && items[i].decoded
            == decoded[i] && items[i].void_pct == voids[i] && takes_its_time(items[i])
}

/// Works through a batch, given what the value of each record decodes as and
/// the void that its digest shows, up to the first record that cannot be
/// read. The second part of the result is how many records stand before it:
/// its place, or where there is none the length of the batch. How much longer
/// the work takes than it is declared to, and what the clock reads, is left
/// open.
pub fn work_through(
    records: &Vec<ConsumedRecord>,
    decoded: Vec<Result<Job, String>>,
    voids: &Vec<Json>,
    id: &str,
) -> (r: (Work, usize))
    requires
        decoded@.len() == records@.len(),
        voids@.len() == records@.len(),
    ensures
        exists|items: Seq<Item>| #[trigger]
            are_items(items, records@, decoded@, voids@) && r.0@ == worked_through(items, id@)
                && r.1 == readable(items),
        r.0.failure is Some <==> r.1 < records@.len(),
        r.0.latencies@.len() == r.0.results@.len(),
{
    let ghost all = decoded@;
    let ghost mut items: Seq<Item> = Seq::empty();
    let total: usize = records.len();
    let mut work = Work::new();
    let mut at: usize = 0;
    let mut i: usize = 0;
    for d in it: decoded
        invariant
            it.seq() == all,
            i == it.index(),
            all.len() == records@.len() == voids@.len() == total,
            items.len() == i,
            forall|k: int|
                0 <= k < i ==> (#[trigger] items[k]).rec == records@[k] && items[k].decoded
                    == all[k] && items[k].void_pct == voids@[k] && takes_its_time(items[k]),
            work@ == worked_through(items, id@),
            at == readable(items),
    {
        let rec = &records[i];
        let ghost before = items;
        proof {
            every_job_gets_one_result(before, id@);
        }
        // What is not worked on has no time of its own; any that is long
        // enough stands for it.
        let ghost mut work_ms: u64 = MAX_COST_MS;
        let mut now: i64 = 0;
        if work.failure.is_none() {
            match work.take(rec, d) {
                Step::Next => {
                    at = i + 1;
                },
                Step::Stop => {},
                Step::Inspect(job) => {
                    at = i + 1;
                    let (digest, took) = inspect(&job);
                    now = now_ms();
                    work.note(&job, rec, digest, voids[i].copy(), took, now, id);
                    proof {
                        work_ms = took;
                    }
                },
            }
        }
        proof {
            items = before.push(
                Item {
                    rec: *rec,
                    decoded: all[i as int],
                    void_pct: voids@[i as int],
                    work_ms,
                    now,
                },
            );
            assert(items.drop_last() =~= before);
        }
        i = i + 1;
    }
    proof {
        assert(are_items(items, records@, all, voids@));
        every_job_gets_one_result(items, id@);
    }
    (work, at)
}

/// How many of a row of records have a value.
pub open spec fn jobs_in(items: Seq<Item>) -> nat
    decreases items.len(),
{
    if items.len() == 0 {
        0
    } else {
        jobs_in(items.drop_last()) + if items.last().rec.value is Some {
            1nat
        } else {
            0nat
        }
    }
}

/// How many records stand before the first that cannot be read.
pub open spec fn readable(items: Seq<Item>) -> nat
    decreases items.len(),
{
    if items.len() == 0 {
        0
    } else {
        let before = readable(items.drop_last());
        if before < items.len() - 1 || is_malformed(items.last()) {
            before
        } else {
            items.len()
        }
    }
}

/// Every job gets one result, one latency and one defect class, as far as the
/// batch can be read; the batch is handled through the record before the
/// first that cannot.
pub proof fn every_job_gets_one_result(items: Seq<Item>, id: Seq<char>)
    ensures
        ({
            let w = worked_through(items, id);
            let n = readable(items) as int;
            &&& 0 <= n <= items.len()
            &&& w.failure is Some <==> n < items.len()
            &&& n < items.len() ==> is_malformed(items[n])
            &&& forall|i: int| 0 <= i < n ==> !is_malformed(#[trigger] items[i])
            &&& w.results.len() == jobs_in(items.take(n))
            &&& w.latencies.len() == w.results.len()
            &&& w.defects.len() == w.results.len()
            &&& w.handled == if n == 0 {
                None
            } else {
                Some(items[n - 1].rec.offset)
            }
        }),
    decreases items.len(),
{
    if items.len() > 0 {
        let rest = items.drop_last();
        every_job_gets_one_result(rest, id);
        let n = readable(rest) as int;
        assert(items.take(n) =~= rest.take(n));
        assert forall|i: int| 0 <= i < n implies !is_malformed(#[trigger] items[i]) by {
            assert(items[i] == rest[i]);
        }
        if n == rest.len() {
            assert(rest.take(n) =~= rest);
            assert(items.take(n + 1) =~= items);
        }
    } else {
        assert(items.take(0) =~= items);
    }
}

/// Whether a job is inspected twice or once, and whenever: its defect class is
/// the same.
pub proof fn the_verdict_follows_from_the_job(a: Job, b: Job)
    requires
        a.job@ == b.job@,
        a.strip@ == b.strip@,
    ensures
        digest_of(a) == digest_of(b),
        class_of(digest_of(a)) == class_of(digest_of(b)),
{
}

} // verus!
