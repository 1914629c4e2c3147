//! What the consumer session asks for: records, dead letters, flushes,
//! commits, rebalances and seeks.

use vstd::prelude::*;
use vstd::string::*;
use vstd::utf8::*;

use super::window::{
    bonder_of, close_window, counted, ingest, ingested, is_replay, marked, window_closed, Bond,
    BonderView, Config, State, StateView, Stats,
};
use crate::json::{
    int_view, lemma_list_view, lemma_list_view_push, list_view, opt_text, opt_text_view, Fields,
    Json, JsonView,
};
use crate::kafka::{
    commit_failed, copy_bytes, copy_headers, header_views, is_first_failed,
    lemma_produce_views_push, metric, metric_view, nothing_stored, opt_bytes, produce_views,
    ConsumedRecord, Header, HeaderView, KafkaError, PartitionCommit, ProduceRecord, ProduceView,
};
use crate::measure::{finite, is_finite};
use crate::ordered_map::{listed, lists, listing_is_unique};
use crate::stations::instance::{origin_json, origin_object};
use crate::text::{parse_usize, signed_decimal, signed_decimal_text, text_eq, usize_of};

verus! {

broadcast use {vstd::string::group_string_axioms, crate::json::lemma_list_view};

// ---------------------------------------------------------------------------
// Set-up

/// The greatest batch, and the one where nothing is said.
pub const MAX_BATCH: usize = 100;

/// The batch size that a setting gives: a number from one up to a hundred; a
/// greater one is cut down, and anything else gives a hundred.
pub open spec fn batch_size_of(setting: Option<Seq<char>>) -> usize {
    match setting {
        Some(s) => match usize_of(s) {
            Some(n) => if 0 < n <= MAX_BATCH {
                n
            } else {
                MAX_BATCH
            },
            None => MAX_BATCH,
        },
        None => MAX_BATCH,
    }
}

/// The batch size that a setting gives.
pub fn batch_size(setting: Option<&str>) -> (r: usize)
    ensures
        r == batch_size_of(
            match setting {
                Some(s) => Some(s@),
                None => None,
            },
        ),
        1 <= r <= MAX_BATCH,
{
    match setting {
        Some(s) => match parse_usize(s) {
            Some(n) => if n > 0 && n <= MAX_BATCH {
                n
            } else {
                MAX_BATCH
            },
            None => MAX_BATCH,
        },
        None => MAX_BATCH,
    }
}

/// The metric of a service that started.
pub open spec fn started_view(batch: usize, cfg: Config) -> ProduceView {
    metric_view(
        "st03"@,
        "started"@,
        None,
        Map::empty().insert("batch_size"@, JsonView::Uint(batch as u64)).insert(
            "nsop_threshold_pct"@,
            JsonView::Real(cfg.nsop_pct.json@),
        ).insert("window_ms"@, int_view(cfg.window_ms)),
    )
}

/// Reports that the service started.
pub fn start(st: &mut State, batch: usize, cfg: &Config)
    ensures
        final(st)@ == (StateView {
            metrics: old(st)@.metrics.push(started_view(batch, *cfg)),
            ..old(st)@
        }),
{
    let mut f = Fields::new();
    f.put("batch_size", Json::Uint(batch as u64));
    f.put("nsop_threshold_pct", Json::Real(cfg.nsop_pct.json.clone()));
    f.put("window_ms", Json::whole(cfg.window_ms));
    let m = metric("st03", "started", None, &f);
    st.report(m);
}

// ---------------------------------------------------------------------------
// Records

/// Why a value is no bond, given what it decodes as.
pub open spec fn bond_fault(decoded: Result<Bond, String>) -> Option<Seq<char>> {
    match decoded {
        Err(e) => Some("bad bond: "@ + e@),
        Ok(b) => if is_finite(b.us_w.bits) && is_finite(b.force_gf.bits) {
            None
        } else {
            Some("non-finite reading"@)
        },
    }
}

/// Why a value is no bond, given what it decodes as.
pub fn check_bond(decoded: &Result<Bond, String>) -> (r: Option<String>)
    ensures
        opt_text(r) == bond_fault(*decoded),
{
    match decoded {
        Err(e) => {
            let mut t = "bad bond: ".to_owned();
            t.append(e.as_str());
            Some(t)
        },
        Ok(b) => {
            if finite(b.us_w.bits) && finite(b.force_gf.bits) {
                None
            } else {
                Some("non-finite reading".to_owned())
            }
        },
    }
}

/// The state after a record, given what its value decodes as and what is
/// worked out for a window that it ends. A record seen before counts as
/// replayed, whatever it holds; a malformed one that is new is to be
/// dead-lettered, and does not count before it is.
pub open spec fn received(
    st: StateView,
    cfg: Config,
    rec: ConsumedRecord,
    decoded: Result<Bond, String>,
    stats: Stats,
) -> StateView {
    if rec.value is None {
        counted(st, rec)
    } else if bond_fault(decoded) is None {
        ingested(st, cfg, rec, decoded->Ok_0, stats)
    } else if is_replay(st, rec) {
        counted(st, rec)
    } else {
        StateView { high_water: marked(st, rec), ..st }
    }
}

/// Why a record is to be dead-lettered.
pub open spec fn dead_reason(st: StateView, rec: ConsumedRecord, decoded: Result<Bond, String>) -> Option<
    Seq<char>,
> {
    if rec.value is Some && !is_replay(st, rec) {
        bond_fault(decoded)
    } else {
        None
    }
}

/// Takes a record. Where it is to be dead-lettered, the reason is the result.
pub fn receive(
    st: &mut State,
    cfg: &Config,
    rec: &ConsumedRecord,
    decoded: &Result<Bond, String>,
    stats: &Stats,
) -> (r: Option<String>)
    ensures
        final(st)@ == received(old(st)@, *cfg, *rec, *decoded, *stats),
        opt_text(r) == dead_reason(old(st)@, *rec, *decoded),
{
    if rec.value.is_none() {
        st.count(rec);
        return None;
    }
    match check_bond(decoded) {
        None => {
            match decoded {
                Ok(bond) => {
                    ingest(st, cfg, rec, bond, stats);
                },
                Err(_) => {},
            }
            None
        },
        Some(reason) => {
            if st.mark(rec) {
                st.replayed = st.replayed.wrapping_add(1);
                None
            } else {
                Some(reason)
            }
        },
    }
}

/// A record as a dead letter: as it came, with the reason and its origin in
/// headers.
pub open spec fn dead_letter_view(rec: ConsumedRecord, reason: Seq<char>) -> ProduceView {
    ProduceView {
        partition: None,
        key: opt_bytes(rec.key),
        value: opt_bytes(rec.value),
        headers: header_views(rec.headers@).push(
            HeaderView { key: "x-dlq-reason"@, value: Some(encode_utf8(reason)) },
        ).push(
            HeaderView { key: "x-origin-topic"@, value: Some(encode_utf8(rec.topic@)) },
        ).push(
            HeaderView {
                key: "x-origin-partition"@,
                value: Some(encode_utf8(signed_decimal(rec.partition as int))),
            },
        ).push(
            HeaderView {
                key: "x-origin-offset"@,
                value: Some(encode_utf8(signed_decimal(rec.offset as int))),
            },
        ),
        timestamp: None,
    }
}

fn push_header(headers: &mut Vec<Header>, key: &str, value: &str)
    ensures
        header_views(final(headers)@) == header_views(old(headers)@).push(
            HeaderView { key: key@, value: Some(encode_utf8(value@)) },
        ),
{
    let h = Header { key: key.to_owned(), value: Some(value.as_bytes_vec()) };
    assert(header_views(headers@.push(h)) =~= header_views(headers@).push(h@));
    headers.push(h);
}

/// A record as a dead letter.
pub fn dead_letter(rec: &ConsumedRecord, reason: &str) -> (r: ProduceRecord)
    ensures
        r@ == dead_letter_view(*rec, reason@),
{
    let mut headers = copy_headers(&rec.headers);
    push_header(&mut headers, "x-dlq-reason", reason);
    push_header(&mut headers, "x-origin-topic", rec.topic.as_str());
    push_header(
        &mut headers,
        "x-origin-partition",
        signed_decimal_text(rec.partition as i64).as_str(),
    );
    push_header(&mut headers, "x-origin-offset", signed_decimal_text(rec.offset).as_str());
    ProduceRecord {
        partition: None,
        key: copy_bytes(&rec.key),
        value: copy_bytes(&rec.value),
        headers,
        timestamp: None,
    }
}

/// The state after a record was dead-lettered.
pub open spec fn buried(st: StateView, rec: ConsumedRecord, reason: Seq<char>) -> StateView {
    StateView {
        dlq: st.dlq.wrapping_add(1),
        metrics: st.metrics.push(
            metric_view(
                "st03"@,
                "dlq"@,
                rec.timestamp,
                Map::empty().insert("n"@, JsonView::Uint(1)).insert(
                    "reason"@,
                    JsonView::Str(reason),
                ).insert("origin"@, origin_object(rec)),
            ),
        ),
        ..st
    }
}

/// Notes that a record was dead-lettered.
pub fn bury(st: &mut State, rec: &ConsumedRecord, reason: &str)
    ensures
        final(st)@ == buried(old(st)@, *rec, reason@),
{
    st.dlq = st.dlq.wrapping_add(1);
    let mut f = Fields::new();
    f.put("n", Json::Uint(1));
    f.put("reason", Json::text(reason));
    f.put("origin", origin_json(rec));
    let m = metric("st03", "dlq", rec.timestamp, &f);
    st.report(m);
}

// ---------------------------------------------------------------------------
// Flushes

/// Whether it is time for a flush: a batch of records was taken, or a batch of
/// windows waits.
pub open spec fn is_ready(since_flush: usize, waiting: nat, batch: usize) -> bool {
    since_flush >= batch || waiting >= batch
}

/// Whether it is time for a flush.
pub fn ready(st: &State, since_flush: usize, batch: usize) -> (r: bool)
    ensures
        r == is_ready(since_flush, st@.pending.len(), batch),
{
    assert(st@.pending.len() == st.pending@.len());
    since_flush >= batch || st.pending.len() >= batch
}

/// What a flush carries.
pub struct Flush {
    pub pending: Vec<ProduceRecord>,
    pub metrics: Vec<ProduceRecord>,
    pub consumed: u64,
    pub replayed: u64,
}

/// The state after its flush is taken out of it.
pub open spec fn drained(st: StateView) -> StateView {
    StateView {
        pending: Seq::empty(),
        metrics: Seq::empty(),
        consumed: 0,
        replayed: 0,
        ..st
    }
}

/// Takes out of the state what the next flush carries.
pub fn take_flush(st: &mut State) -> (r: Flush)
    ensures
        final(st)@ == drained(old(st)@),
        produce_views(r.pending@) == old(st)@.pending,
        produce_views(r.metrics@) == old(st)@.metrics,
        r.consumed == old(st)@.consumed,
        r.replayed == old(st)@.replayed,
{
    let mut pending: Vec<ProduceRecord> = Vec::new();
    let mut metrics: Vec<ProduceRecord> = Vec::new();
    std::mem::swap(&mut pending, &mut st.pending);
    std::mem::swap(&mut metrics, &mut st.metrics);
    let consumed = st.consumed;
    let replayed = st.replayed;
    st.consumed = 0;
    st.replayed = 0;
    assert(produce_views(st.pending@) =~= Seq::empty());
    assert(produce_views(st.metrics@) =~= Seq::empty());
    Flush { pending, metrics, consumed, replayed }
}

/// What a flush reports once its windows are sent.
pub open spec fn flush_report(
    metrics: Seq<ProduceView>,
    consumed: u64,
    replayed: u64,
    produced: u64,
    topic: Seq<char>,
) -> Seq<ProduceView> {
    let a = if consumed > 0 || replayed > 0 {
        metrics.push(
            metric_view(
                "st03"@,
                "consumed"@,
                None,
                Map::empty().insert("n"@, JsonView::Uint(consumed)),
            ),
        )
    } else {
        metrics
    };
    let b = if replayed > 0 {
        a.push(
            metric_view(
                "st03"@,
                "replayed"@,
                None,
                Map::empty().insert("n"@, JsonView::Uint(replayed)),
            ),
        )
    } else {
        a
    };
    if produced > 0 {
        b.push(
            metric_view(
                "st03"@,
                "produced"@,
                None,
                Map::empty().insert("topic"@, JsonView::Str(topic)).insert(
                    "n"@,
                    JsonView::Uint(produced),
                ),
            ),
        )
    } else {
        b
    }
}

fn push_count(metrics: &mut Vec<ProduceRecord>, kind: &str, n: u64)
    ensures
        produce_views(final(metrics)@) == produce_views(old(metrics)@).push(
            metric_view("st03"@, kind@, None, Map::empty().insert("n"@, JsonView::Uint(n))),
        ),
{
    let mut f = Fields::new();
    f.put("n", Json::Uint(n));
    let m = metric("st03", kind, None, &f);
    proof {
        lemma_produce_views_push(metrics@, m);
    }
    metrics.push(m);
}

/// What a flush reports once its windows are sent.
pub fn report_flush(
    metrics: Vec<ProduceRecord>,
    consumed: u64,
    replayed: u64,
    produced: u64,
    topic: &str,
) -> (r: Vec<ProduceRecord>)
    ensures
        produce_views(r@) == flush_report(
            produce_views(metrics@),
            consumed,
            replayed,
            produced,
            topic@,
        ),
{
    let mut r = metrics;
    if consumed > 0 || replayed > 0 {
        push_count(&mut r, "consumed", consumed);
    }
    if replayed > 0 {
        push_count(&mut r, "replayed", replayed);
    }
    if produced > 0 {
        let mut f = Fields::new();
        f.put("topic", Json::text(topic));
        f.put("n", Json::Uint(produced));
        let m = metric("st03", "produced", None, &f);
        proof {
            lemma_produce_views_push(r@, m);
        }
        r.push(m);
    }
    r
}

// ---------------------------------------------------------------------------
// Commits

/// What became of a commit.
pub enum Commit {
    /// Everything there was to commit is committed.
    Done,
    /// What was not committed is left to the next flush.
    Deferred,
    /// The session cannot go on.
    Failed(String),
}

/// What is said of a partition whose commit failed.
pub open spec fn commit_text(p: PartitionCommit) -> Seq<char> {
    "commit: partition "@ + signed_decimal(p.partition as int) + " failed: Some("@ + p.error->0@
        + ")"@
}

/// Whether a commit came to what is said of it. That nothing was stored is no
/// error; one that is fatal, or concerns a partition, ends the session; any
/// other leaves the commit to the next flush.
pub open spec fn is_commit_outcome(
    r: Result<Vec<PartitionCommit>, KafkaError>,
    c: Commit,
) -> bool {
    match r {
        Err(e) => match c {
            Commit::Done => nothing_stored(e.code@),
            Commit::Deferred => !nothing_stored(e.code@) && !e.fatal,
            Commit::Failed(why) => !nothing_stored(e.code@) && e.fatal && why@ == "commit: "@
                + e.message@,
        },
        Ok(results) => match c {
            Commit::Done => forall|i: int|
                0 <= i < results@.len() ==> !commit_failed(#[trigger] results@[i]),
            Commit::Deferred => false,
            Commit::Failed(why) => exists|i: int|
                is_first_failed(results@, i) && why@ == commit_text(results@[i]),
        },
    }
}

/// What became of a commit.
pub fn judge_commit(r: &Result<Vec<PartitionCommit>, KafkaError>) -> (c: Commit)
    ensures
        is_commit_outcome(*r, c),
{
    match r {
        Err(e) => {
            if text_eq(e.code.as_str(), "NoOffset") {
                Commit::Done
            } else if e.fatal {
                let mut t = "commit: ".to_owned();
                t.append(e.message.as_str());
                Commit::Failed(t)
            } else {
                Commit::Deferred
            }
        },
        Ok(results) => {
            let mut i: usize = 0;
            while i < results.len()
                invariant
                    i <= results@.len(),
                    *r is Ok,
                    r->Ok_0 == *results,
                    forall|j: int| 0 <= j < i ==> !commit_failed(#[trigger] results@[j]),
                decreases results@.len() - i,
            {
                match &results[i].error {
                    Some(code) => {
                        if !text_eq(code.as_str(), "NoOffset") {
                            let mut t = "commit: partition ".to_owned();
                            t.append(signed_decimal_text(results[i].partition as i64).as_str());
                            t.append(" failed: Some(");
                            t.append(code.as_str());
                            t.append(")");
                            assert(is_first_failed(results@, i as int));
                            return Commit::Failed(t);
                        }
                    },
                    None => {},
                }
                i = i + 1;
            }
            Commit::Done
        },
    }
}

// ---------------------------------------------------------------------------
// The order of a flush

/// What is to be done next in a flush.
pub enum FlushStep {
    /// The windows are to be sent.
    Send,
    /// The metrics are to be sent, whatever comes of it.
    Report,
    /// The stored positions are to be committed.
    Commit,
    /// The flush is over, and what was stored is committed.
    Flushed,
    /// The flush is over, and the commit left to the next.
    Uncommitted,
    /// The service is to exit, for this reason.
    Exit(String),
}

/// What came of a step of a flush.
pub enum FlushEvent {
    /// The windows were sent, or there were none; or why not.
    Sent(Result<(), String>),
    /// The metrics were sent, or there were none, or they were lost.
    Reported,
    /// The positions were committed; or not.
    Committed(Commit),
}

/// What is to be done next, after what came of a step. Positions are
/// committed only once the windows are acknowledged.
pub open spec fn next_flush_step(step: FlushStep, event: FlushEvent) -> FlushStep {
    match (step, event) {
        (FlushStep::Send, FlushEvent::Sent(Ok(()))) => FlushStep::Report,
        (FlushStep::Send, FlushEvent::Sent(Err(why))) => FlushStep::Exit(why),
        (FlushStep::Report, FlushEvent::Reported) => FlushStep::Commit,
        (FlushStep::Commit, FlushEvent::Committed(Commit::Done)) => FlushStep::Flushed,
        (FlushStep::Commit, FlushEvent::Committed(Commit::Deferred)) => FlushStep::Uncommitted,
        (FlushStep::Commit, FlushEvent::Committed(Commit::Failed(why))) => FlushStep::Exit(why),
        (step, _) => step,
    }
}

/// What is to be done next in a flush, after what came of a step.
pub fn advance_flush(step: FlushStep, event: FlushEvent) -> (r: FlushStep)
    ensures
        r == next_flush_step(step, event),
{
    match (step, event) {
        (FlushStep::Send, FlushEvent::Sent(Ok(()))) => FlushStep::Report,
        (FlushStep::Send, FlushEvent::Sent(Err(why))) => FlushStep::Exit(why),
        (FlushStep::Report, FlushEvent::Reported) => FlushStep::Commit,
        (FlushStep::Commit, FlushEvent::Committed(Commit::Done)) => FlushStep::Flushed,
        (FlushStep::Commit, FlushEvent::Committed(Commit::Deferred)) => FlushStep::Uncommitted,
        (FlushStep::Commit, FlushEvent::Committed(Commit::Failed(why))) => FlushStep::Exit(why),
        (step, _) => step,
    }
}

// ---------------------------------------------------------------------------
// Rebalances

/// What a rebalance does with partitions.
pub enum Rebalance {
    Assign,
    Revoke,
    Lost,
}

/// The name of what a rebalance does.
pub open spec fn rebalance_name(r: Rebalance) -> Seq<char> {
    match r {
        Rebalance::Assign => "assign"@,
        Rebalance::Revoke => "revoke"@,
        Rebalance::Lost => "lost"@,
    }
}

/// The name of what a rebalance does.
pub fn name_of(r: &Rebalance) -> (s: &'static str)
    ensures
        s@ == rebalance_name(*r),
{
    match r {
        Rebalance::Assign => "assign",
        Rebalance::Revoke => "revoke",
        Rebalance::Lost => "lost",
    }
}

/// How a rebalance is answered.
pub enum Answer {
    /// The partitions are added to the assignment.
    IncrementalAssign,
    /// The partitions are taken out of the assignment.
    IncrementalUnassign,
    /// The partitions are the assignment.
    Assign,
    /// Nothing is the assignment.
    AssignNothing,
}

/// How a rebalance is answered: piece by piece under the cooperative
/// protocol, and as a whole under the eager one.
pub open spec fn answer_to(r: Rebalance, cooperative: bool) -> Answer {
    match (r, cooperative) {
        (Rebalance::Assign, true) => Answer::IncrementalAssign,
        (Rebalance::Assign, false) => Answer::Assign,
        (_, true) => Answer::IncrementalUnassign,
        (_, false) => Answer::AssignNothing,
    }
}

/// How a rebalance is answered.
pub fn answer(r: &Rebalance, cooperative: bool) -> (a: Answer)
    ensures
        a == answer_to(*r, cooperative),
{
    match r {
        Rebalance::Assign => if cooperative {
            Answer::IncrementalAssign
        } else {
            Answer::Assign
        },
        _ => if cooperative {
            Answer::IncrementalUnassign
        } else {
            Answer::AssignNothing
        },
    }
}

/// Whether a bonder has a window open on one of these partitions.
pub open spec fn is_open_on(b: BonderView, partitions: Seq<i32>) -> bool {
    b.window.start is Some && partitions.contains(b.window.partition)
}

/// The bonders that have a window open on one of these partitions.
pub open spec fn open_set(st: StateView, partitions: Seq<i32>) -> Set<u32> {
    st.bonders.dom().filter(|id: u32| is_open_on(st.bonders[id], partitions))
}

fn contains_partition(partitions: &Vec<i32>, p: i32) -> (r: bool)
    ensures
        r == partitions@.contains(p),
{
    let mut i: usize = 0;
    while i < partitions.len()
        invariant
            i <= partitions@.len(),
            forall|j: int| 0 <= j < i ==> partitions@[j] != p,
        decreases partitions@.len() - i,
    {
        if partitions[i] == p {
            return true;
        }
        i = i + 1;
    }
    false
}

/// The bonders that have a window open on one of these partitions, in order.
pub fn open_on(st: &State, partitions: &Vec<i32>) -> (r: Vec<u32>)
    ensures
        r@ == listed::<u32>(open_set(st@, partitions@)),
        lists::<u32>(r@, open_set(st@, partitions@)),
{
    let n = st.bonders.len();
    let ghost ids = st.bonders.keys();
    let ghost want = open_set(st@, partitions@);
    let mut r: Vec<u32> = Vec::new();
    let mut i: usize = 0;
    while i < n
        invariant
            i <= n == ids.len(),
            ids == st.bonders.keys(),
            want == open_set(st@, partitions@),
            forall|i: int, j: int| 0 <= i < j < ids.len() ==> #[trigger] ids[i] < #[trigger] ids[j],
            forall|j: int| 0 <= j < r@.len() ==> want.contains(#[trigger] r@[j]),
            forall|j: int|
                0 <= j < r@.len() ==> exists|k: int|
                    0 <= k < i && #[trigger] ids[k] == #[trigger] r@[j],
            forall|j: int, k: int| 0 <= j < k < r@.len() ==> #[trigger] r@[j] < #[trigger] r@[k],
            forall|k: int|
                0 <= k < i && want.contains(#[trigger] ids[k]) ==> r@.contains(ids[k]),
        decreases n - i,
    {
        let id = *st.bonders.key_at(i);
        let b = st.bonders.value_at(i);
        let ghost before = r@;
        let open = b.window.start.is_some() && contains_partition(partitions, b.window.partition);
        assert(open == want.contains(ids[i as int]));
        if open {
            r.push(id);
            proof {
                assert(r@[before.len() as int] == id);
                assert forall|k: int|
                    0 <= k < i && want.contains(#[trigger] ids[k]) implies r@.contains(ids[k]) by {
                    let j = choose|j: int| 0 <= j < before.len() && before[j] == ids[k];
                    assert(r@[j] == ids[k]);
                }
                assert forall|j: int| 0 <= j < r@.len() implies exists|k: int|
                    0 <= k < i + 1 && #[trigger] ids[k] == #[trigger] r@[j] by {
                    if j == before.len() {
                        assert(ids[i as int] == r@[j]);
                    } else {
                        assert(r@[j] == before[j]);
                        let k = choose|k: int|
                            0 <= k < i && #[trigger] ids[k] == #[trigger] before[j];
                        assert(ids[k] == r@[j]);
                    }
                }
            }
        }
        i = i + 1;
    }
    proof {
        assert forall|id: u32| want.contains(id) <==> r@.contains(id) by {
            if want.contains(id) {
                assert(ids.contains(id));
                let k = choose|k: int| 0 <= k < ids.len() && ids[k] == id;
                assert(want.contains(ids[k]));
            }
        }
        assert(lists::<u32>(r@, want));
        listing_is_unique::<u32>(r@, listed::<u32>(want), want);
    }
    r
}

/// When a window that is cut short is taken to end: when it would have.
pub open spec fn planned_end(b: BonderView, cfg: Config) -> i64 {
    b.window.start->0.wrapping_add(cfg.window_ms)
}

/// The state after the windows of a row of bonders are closed.
pub open spec fn all_closed(
    st: StateView,
    cfg: Config,
    ids: Seq<u32>,
    reason: Seq<char>,
    stats: Seq<Stats>,
) -> StateView
    decreases ids.len(),
{
    if ids.len() == 0 {
        st
    } else {
        let before = all_closed(st, cfg, ids.drop_last(), reason, stats);
        window_closed(
            before,
            cfg,
            ids.last(),
            planned_end(bonder_of(st, ids.last()), cfg),
            reason,
            stats[ids.len() - 1],
        )
    }
}

/// Closing one window changes nothing about another bonder.
proof fn lemma_other_bonders(
    st: StateView,
    cfg: Config,
    ids: Seq<u32>,
    reason: Seq<char>,
    stats: Seq<Stats>,
    other: u32,
)
    requires
        !ids.contains(other),
    ensures
        all_closed(st, cfg, ids, reason, stats).bonders.dom().contains(other)
            <==> st.bonders.dom().contains(other),
        bonder_of(all_closed(st, cfg, ids, reason, stats), other) == bonder_of(st, other),
    decreases ids.len(),
{
    if ids.len() > 0 {
        let rest = ids.drop_last();
        assert(!rest.contains(other)) by {
            if rest.contains(other) {
                let i = choose|i: int| 0 <= i < rest.len() && rest[i] == other;
                assert(ids[i] == other);
            }
        }
        assert(ids.last() != other) by {
            assert(ids[ids.len() - 1] == ids.last());
        }
        lemma_other_bonders(st, cfg, rest, reason, stats, other);
    }
}

/// Closes the windows that are open on partitions that go, given what is
/// worked out for each in the order of their bonders. How many there were is
/// the result.
pub fn flush_revoked(
    st: &mut State,
    cfg: &Config,
    partitions: &Vec<i32>,
    reason: &str,
    stats: &Vec<Stats>,
) -> (n: usize)
    requires
        stats@.len() == listed::<u32>(open_set(old(st)@, partitions@)).len(),
    ensures
        n == listed::<u32>(open_set(old(st)@, partitions@)).len(),
        final(st)@ == all_closed(
            old(st)@,
            *cfg,
            listed::<u32>(open_set(old(st)@, partitions@)),
            reason@,
            stats@,
        ),
{
    let ghost was = st@;
    let ids = open_on(st, partitions);
    let ghost all = ids@;
    let mut i: usize = 0;
    assert(all.take(0) =~= Seq::empty());
    while i < ids.len()
        invariant
            i <= ids@.len(),
            ids@ == all,
            all.len() == stats@.len(),
            lists::<u32>(all, open_set(was, partitions@)),
            st@ == all_closed(was, *cfg, all.take(i as int), reason@, stats@),
        decreases ids@.len() - i,
    {
        let id = ids[i];
        proof {
            assert(all.take(i + 1).drop_last() =~= all.take(i as int));
            assert(all.take(i + 1).last() == id);
            assert(all.contains(id)) by {
                assert(all[i as int] == id);
            }
            assert(open_set(was, partitions@).contains(id));
            assert(!all.take(i as int).contains(id)) by {
                if all.take(i as int).contains(id) {
                    let j = choose|j: int| 0 <= j < i && all.take(i as int)[j] == id;
                    assert(all[j] < all[i as int]);
                }
            }
            lemma_other_bonders(was, *cfg, all.take(i as int), reason@, stats@, id);
        }
        let start: i64 = match st.bonders.get(&id) {
            Some(b) => match b.window.start {
                Some(s) => s,
                None => 0,
            },
            None => 0,
        };
        close_window(st, cfg, id, start.wrapping_add(cfg.window_ms), reason, &stats[i]);
        i = i + 1;
    }
    assert(all.take(all.len() as int) =~= all);
    ids.len()
}

/// Partitions as JSON.
pub open spec fn partition_list(partitions: Seq<i32>) -> Seq<JsonView> {
    partitions.map_values(|p: i32| int_view(p as i64))
}

/// The metric of a rebalance.
pub open spec fn rebalance_view(
    r: Rebalance,
    partitions: Seq<i32>,
    flushed: usize,
    cooperative: bool,
    error: Option<Seq<char>>,
) -> ProduceView {
    metric_view(
        "st03"@,
        "rebalance"@,
        None,
        Map::empty().insert("event"@, JsonView::Str(rebalance_name(r))).insert(
            "partitions"@,
            JsonView::List(partition_list(partitions)),
        ).insert("windows_flushed"@, JsonView::Uint(flushed as u64)).insert(
            "protocol"@,
            JsonView::Str(
                if cooperative {
                    "cooperative"@
                } else {
                    "eager"@
                },
            ),
        ).insert("applied"@, JsonView::Bool(error is None)).insert(
            "error"@,
            opt_text_view(error),
        ),
    )
}

fn list_partitions(partitions: &Vec<i32>) -> (r: Vec<Json>)
    ensures
        list_view(r@) == partition_list(partitions@),
{
    let mut r: Vec<Json> = Vec::new();
    let mut i: usize = 0;
    while i < partitions.len()
        invariant
            i <= partitions@.len(),
            list_view(r@) =~= partition_list(partitions@).take(i as int),
        decreases partitions@.len() - i,
    {
        let p = Json::whole(partitions[i] as i64);
        proof {
            lemma_list_view_push(r@, p);
        }
        r.push(p);
        i = i + 1;
    }
    r
}

/// Reports a rebalance, with the error that answering it gave, if it gave
/// one.
pub fn note_rebalance(
    st: &mut State,
    r: &Rebalance,
    partitions: &Vec<i32>,
    flushed: usize,
    cooperative: bool,
    error: &Option<String>,
)
    ensures
        final(st)@ == (StateView {
            rebalances: old(st)@.rebalances.wrapping_add(1),
            metrics: old(st)@.metrics.push(
                rebalance_view(*r, partitions@, flushed, cooperative, opt_text(*error)),
            ),
            ..old(st)@
        }),
{
    st.rebalances = st.rebalances.wrapping_add(1);
    let mut f = Fields::new();
    f.put("event", Json::text(name_of(r)));
    f.put("partitions", Json::List(list_partitions(partitions)));
    f.put("windows_flushed", Json::Uint(flushed as u64));
    f.put(
        "protocol",
        Json::text(
            if cooperative {
                "cooperative"
            } else {
                "eager"
            },
        ),
    );
    f.put("applied", Json::Bool(error.is_none()));
    f.put("error", Json::opt_text(error));
    let m = metric("st03", "rebalance", None, &f);
    st.report(m);
}

// ---------------------------------------------------------------------------
// Seeks

/// Takes the replay that is asked for out of the state.
pub fn take_seek(st: &mut State) -> (r: Option<(i32, i64, u32)>)
    ensures
        r == old(st)@.seek_request,
        final(st)@ == (StateView { seek_request: None, ..old(st)@ }),
{
    let r = st.seek_request;
    st.seek_request = None;
    r
}

/// The state after a replay was tried: to which offset, or why not.
pub open spec fn sought(
    st: StateView,
    request: (i32, i64, u32),
    timestamp: Option<i64>,
    result: Result<i64, String>,
) -> StateView {
    match result {
        Ok(offset) => StateView {
            seeks: st.seeks.wrapping_add(1),
            metrics: st.metrics.push(
                metric_view(
                    "st03"@,
                    "seek"@,
                    timestamp,
                    Map::empty().insert("bonder"@, JsonView::Uint(request.2 as u64)).insert(
                        "partition"@,
                        int_view(request.0 as i64),
                    ).insert("to_offset"@, int_view(offset)).insert(
                        "from_ts"@,
                        int_view(request.1),
                    ),
                ),
            ),
            ..st
        },
        Err(why) => StateView {
            metrics: st.metrics.push(
                metric_view(
                    "st03"@,
                    "fault"@,
                    timestamp,
                    Map::empty().insert("severity"@, JsonView::Str("warn"@)).insert(
                        "bonder"@,
                        JsonView::Uint(request.2 as u64),
                    ).insert("text"@, JsonView::Str("replay seek failed: "@ + why@)),
                ),
            ),
            ..st
        },
    }
}

/// Reports a replay that was tried: to which offset, or why not.
pub fn note_seek(
    st: &mut State,
    request: (i32, i64, u32),
    timestamp: Option<i64>,
    result: &Result<i64, String>,
)
    ensures
        final(st)@ == sought(old(st)@, request, timestamp, *result),
{
    let mut f = Fields::new();
    match result {
        Ok(offset) => {
            st.seeks = st.seeks.wrapping_add(1);
            f.put("bonder", Json::Uint(request.2 as u64));
            f.put("partition", Json::whole(request.0 as i64));
            f.put("to_offset", Json::whole(*offset));
            f.put("from_ts", Json::whole(request.1));
            let m = metric("st03", "seek", timestamp, &f);
            st.report(m);
        },
        Err(why) => {
            let mut t = "replay seek failed: ".to_owned();
            t.append(why.as_str());
            f.put("severity", Json::text("warn"));
            f.put("bonder", Json::Uint(request.2 as u64));
            f.put("text", Json::Str(t));
            let m = metric("st03", "fault", timestamp, &f);
            st.report(m);
        },
    }
}

} // verus!
