//! What the host's Kafka interface hands over and takes: records, errors and
//! verdicts.

use vstd::prelude::*;
use vstd::string::*;
use vstd::utf8::*;

use crate::json::{
    json_text, json_text_of, opt_int_view, opt_text, parsed_json, plain, Fields, Json, JsonView,
};
use crate::text::{bool_text, bool_word, lossy, lossy_text};

verus! {

broadcast use vstd::string::group_string_axioms;

/// The topic every station reports its metrics on.
pub const METRICS_TOPIC: &'static str = "line.metrics";

// ---------------------------------------------------------------------------
// Records

/// A record header.
pub struct Header {
    pub key: String,
    pub value: Option<Vec<u8>>,
}

/// A record as a consumer gets it.
pub struct ConsumedRecord {
    pub topic: String,
    pub partition: i32,
    pub offset: i64,
    pub timestamp: Option<i64>,
    /// The name of the timestamp's type.
    pub timestamp_type: String,
    pub leader_epoch: Option<i32>,
    pub key: Option<Vec<u8>>,
    pub value: Option<Vec<u8>>,
    pub headers: Vec<Header>,
}

/// A record as a producer takes it.
pub struct ProduceRecord {
    pub partition: Option<i32>,
    pub key: Option<Vec<u8>>,
    pub value: Option<Vec<u8>>,
    pub headers: Vec<Header>,
    pub timestamp: Option<i64>,
}

/// What a record header stands for.
#[verifier::ext_equal]
pub struct HeaderView {
    pub key: Seq<char>,
    pub value: Option<Seq<u8>>,
}

/// What a record to produce stands for.
#[verifier::ext_equal]
pub struct ProduceView {
    pub partition: Option<i32>,
    pub key: Option<Seq<u8>>,
    pub value: Option<Seq<u8>>,
    pub headers: Seq<HeaderView>,
    pub timestamp: Option<i64>,
}

/// The bytes that an optional byte string holds.
pub open spec fn opt_bytes(v: Option<Vec<u8>>) -> Option<Seq<u8>> {
    match v {
        Some(v) => Some(v@),
        None => None,
    }
}

impl View for Header {
    type V = HeaderView;

    open spec fn view(&self) -> HeaderView {
        HeaderView { key: self.key@, value: opt_bytes(self.value) }
    }
}

/// What a row of headers stands for.
pub open spec fn header_views(s: Seq<Header>) -> Seq<HeaderView> {
    s.map_values(|h: Header| h@)
}

impl View for ProduceRecord {
    type V = ProduceView;

    open spec fn view(&self) -> ProduceView {
        ProduceView {
            partition: self.partition,
            key: opt_bytes(self.key),
            value: opt_bytes(self.value),
            headers: header_views(self.headers@),
            timestamp: self.timestamp,
        }
    }
}

/// What a row of records stands for.
pub open spec fn produce_views(s: Seq<ProduceRecord>) -> Seq<ProduceView> {
    s.map_values(|r: ProduceRecord| r@)
}

/// A row with one more record shows one more.
pub proof fn lemma_produce_views_push(s: Seq<ProduceRecord>, r: ProduceRecord)
    ensures
        produce_views(s.push(r)) == produce_views(s).push(r@),
{
    assert(produce_views(s.push(r)) =~= produce_views(s).push(r@));
}

/// The text of bytes that may be there.
pub open spec fn opt_lossy(bytes: Option<Seq<u8>>) -> Option<Seq<char>> {
    match bytes {
        Some(b) => Some(lossy_text(b)),
        None => None,
    }
}

pub(crate) fn lossy_opt(bytes: &Option<Vec<u8>>) -> (r: Option<String>)
    ensures
        opt_text(r) == opt_lossy(opt_bytes(*bytes)),
{
    match bytes {
        Some(b) => Some(lossy(b.as_slice())),
        None => None,
    }
}

/// A copy of an optional byte string.
pub fn copy_bytes(v: &Option<Vec<u8>>) -> (r: Option<Vec<u8>>)
    ensures
        opt_bytes(r) == opt_bytes(*v),
{
    match v {
        Some(v) => Some(v.clone()),
        None => None,
    }
}

/// A copy of a row of headers.
pub fn copy_headers(headers: &Vec<Header>) -> (r: Vec<Header>)
    ensures
        header_views(r@) == header_views(headers@),
{
    let mut r: Vec<Header> = Vec::new();
    let mut i: usize = 0;
    while i < headers.len()
        invariant
            i <= headers@.len(),
            header_views(r@) =~= header_views(headers@).take(i as int),
        decreases headers@.len() - i,
    {
        let h = Header { key: headers[i].key.clone(), value: copy_bytes(&headers[i].value) };
        assert(h@ == header_views(headers@)[i as int]);
        assert(header_views(r@.push(h)) =~= header_views(r@).push(h@));
        r.push(h);
        i = i + 1;
    }
    assert(header_views(headers@).take(headers@.len() as int) =~= header_views(headers@));
    r
}

/// A record with a key and a value, and nothing else said.
pub open spec fn keyed(key: Seq<char>, value: Seq<u8>) -> ProduceView {
    ProduceView {
        partition: None,
        key: Some(encode_utf8(key)),
        value: Some(value),
        headers: Seq::empty(),
        timestamp: None,
    }
}

/// A record with a text for its key and a text for its value.
pub fn to_record(key: &str, value: &str) -> (r: ProduceRecord)
    ensures
        r@ == keyed(key@, encode_utf8(value@)),
{
    let r = ProduceRecord {
        partition: None,
        key: Some(key.as_bytes_vec()),
        value: Some(value.as_bytes_vec()),
        headers: Vec::new(),
        timestamp: None,
    };
    assert(header_views(r.headers@) =~= Seq::empty());
    r
}

/// A record with a JSON value.
pub open spec fn json_keyed(key: Seq<char>, value: JsonView) -> ProduceView {
    keyed(key, encode_utf8(json_text_of(value)))
}

/// Whether a record's value reads as a JSON value.
pub open spec fn carries(r: ProduceView, value: JsonView) -> bool {
    match r.value {
        Some(bytes) => match parsed_json(bytes) {
            Ok(read) => read == value,
            Err(_) => false,
        },
        None => false,
    }
}

/// A record with a JSON value. Its reader gets the value back.
pub fn json_record(key: &str, value: &Json) -> (r: ProduceRecord)
    ensures
        r@ == json_keyed(key@, value@),
        plain(value@, 100) ==> carries(r@, value@),
{
    let text = json_text(value);
    to_record(key, text.as_str())
}

// ---------------------------------------------------------------------------
// Metrics

/// The fields of `base`, and over them those of `extra`.
pub fn merged(base: Fields, extra: &Fields) -> (r: Fields)
    ensures
        r@ == base@.union_prefer_right(extra@),
{
    let mut r = base;
    let n = extra.len();
    let mut i: usize = 0;
    let ghost done = |i: int| extra@.restrict(extra.names().take(i).to_set());
    assert(base@ =~= base@.union_prefer_right(done(0)));
    while i < n
        invariant
            i <= n == extra.names().len(),
            done == |i: int| extra@.restrict(extra.names().take(i).to_set()),
            r@ == base@.union_prefer_right(done(i as int)),
        decreases n - i,
    {
        let (name, value) = extra.at(i);
        let copy = value.copy();
        let ghost before = r@;
        r.set(name.clone(), copy);
        proof {
            let k = extra.names()[i as int];
            let a = extra.names().take(i as int);
            let b = extra.names().take(i + 1);
            assert(b =~= a.push(k));
            assert forall|q: Seq<char>| b.contains(q) <==> (a.contains(q) || q == k) by {
                if a.contains(q) {
                    let j = choose|j: int| 0 <= j < a.len() && a[j] == q;
                    assert(b[j] == q);
                }
                if q == k {
                    assert(b[i as int] == q);
                }
                if b.contains(q) && q != k {
                    let j = choose|j: int| 0 <= j < b.len() && b[j] == q;
                    assert(a[j] == q);
                }
            }
            assert(r@ =~= base@.union_prefer_right(done(i + 1)));
        }
        i = i + 1;
    }
    proof {
        assert(extra.names().take(n as int) =~= extra.names());
        assert(done(n as int) =~= extra@);
    }
    r
}

/// The fields of a metric: who reports what, when, and the particulars.
pub open spec fn metric_fields(
    station: Seq<char>,
    kind: Seq<char>,
    ts: Option<i64>,
    extra: Map<Seq<char>, JsonView>,
) -> Map<Seq<char>, JsonView> {
    Map::empty().insert("station"@, JsonView::Str(station)).insert(
        "kind"@,
        JsonView::Str(kind),
    ).insert("ts"@, opt_int_view(ts)).union_prefer_right(extra)
}

/// A metric record.
pub open spec fn metric_view(
    station: Seq<char>,
    kind: Seq<char>,
    ts: Option<i64>,
    extra: Map<Seq<char>, JsonView>,
) -> ProduceView {
    json_keyed(station, JsonView::Object(metric_fields(station, kind, ts, extra)))
}

/// A metric record, keyed by the station that reports it.
pub fn metric(station: &str, kind: &str, ts: Option<i64>, extra: &Fields) -> (r: ProduceRecord)
    ensures
        r@ == metric_view(station@, kind@, ts, extra@),
        plain(JsonView::Object(metric_fields(station@, kind@, ts, extra@)), 100) ==> carries(
            r@,
            JsonView::Object(metric_fields(station@, kind@, ts, extra@)),
        ),
{
    let mut base = Fields::new();
    base.put("station", Json::text(station));
    base.put("kind", Json::text(kind));
    base.put("ts", Json::opt_int(ts));
    let fields = merged(base, extra);
    json_record(station, &Json::Object(fields))
}

// ---------------------------------------------------------------------------
// Errors

/// An error of the Kafka interface.
pub struct KafkaError {
    /// The name of the error code.
    pub code: String,
    pub message: String,
    pub fatal: bool,
    pub retriable: bool,
    pub txn_requires_abort: bool,
}

/// An error in words, behind the operation that failed.
pub open spec fn described(op: Seq<char>, e: KafkaError) -> Seq<char> {
    op + ": "@ + e.message@ + " ("@ + e.code@ + "; requires_abort="@ + bool_word(
        e.txn_requires_abort,
    ) + " fatal="@ + bool_word(e.fatal) + " retriable="@ + bool_word(e.retriable) + ")"@
}

/// An error in words, behind the operation that failed.
pub fn describe(op: &str, e: &KafkaError) -> (r: String)
    ensures
        r@ == described(op@, *e),
{
    let mut r = op.to_owned();
    r.append(": ");
    r.append(e.message.as_str());
    r.append(" (");
    r.append(e.code.as_str());
    r.append("; requires_abort=");
    r.append(bool_text(e.txn_requires_abort).as_str());
    r.append(" fatal=");
    r.append(bool_text(e.fatal).as_str());
    r.append(" retriable=");
    r.append(bool_text(e.retriable).as_str());
    r.append(")");
    r
}

/// Whether the outcome at `i` is the first error of a batch.
pub open spec fn is_first_error(outcomes: Seq<Result<(), KafkaError>>, i: int) -> bool {
    &&& 0 <= i < outcomes.len()
    &&& outcomes[i] is Err
    &&& forall|j: int| 0 <= j < i ==> (#[trigger] outcomes[j]) is Ok
}

/// Whether every record of a batch was taken.
pub open spec fn all_taken(outcomes: Seq<Result<(), KafkaError>>) -> bool {
    forall|i: int| 0 <= i < outcomes.len() ==> (#[trigger] outcomes[i]) is Ok
}

/// The place of the first error of a batch.
pub fn first_error(outcomes: &Vec<Result<(), KafkaError>>) -> (r: Option<usize>)
    ensures
        match r {
            Some(i) => is_first_error(outcomes@, i as int),
            None => all_taken(outcomes@),
        },
{
    let mut i: usize = 0;
    while i < outcomes.len()
        invariant
            i <= outcomes@.len(),
            forall|j: int| 0 <= j < i ==> (#[trigger] outcomes@[j]) is Ok,
        decreases outcomes@.len() - i,
    {
        if outcomes[i].is_err() {
            return Some(i);
        }
        i = i + 1;
    }
    None
}

/// Whether a batch was sent and every record of it taken.
pub open spec fn wholly_taken(sent: Result<Vec<Result<(), KafkaError>>, KafkaError>) -> bool {
    match sent {
        Ok(outcomes) => all_taken(outcomes@),
        Err(_) => false,
    }
}

/// Whether a batch was sent and every record of it taken.
pub fn is_wholly_taken(sent: &Result<Vec<Result<(), KafkaError>>, KafkaError>) -> (r: bool)
    ensures
        r == wholly_taken(*sent),
{
    match sent {
        Ok(outcomes) => first_error(outcomes).is_none(),
        Err(_) => false,
    }
}

/// How many records of a batch were taken.
pub open spec fn taken_count(outcomes: Seq<Result<(), KafkaError>>) -> nat {
    outcomes.filter(|o: Result<(), KafkaError>| o is Ok).len()
}

/// How many records of a batch were taken.
pub fn count_taken(outcomes: &Vec<Result<(), KafkaError>>) -> (n: u64)
    ensures
        n == taken_count(outcomes@),
        n <= outcomes@.len(),
{
    let mut n: u64 = 0;
    let mut i: usize = 0;
    let ghost ok = |o: Result<(), KafkaError>| o is Ok;
    assert(outcomes@.take(0).filter(ok) =~= Seq::empty());
    while i < outcomes.len()
        invariant
            i <= outcomes@.len(),
            ok == (|o: Result<(), KafkaError>| o is Ok),
            n == outcomes@.take(i as int).filter(ok).len(),
            n <= i,
        decreases outcomes@.len() - i,
    {
        reveal(Seq::filter);
        assert(outcomes@.take(i + 1).drop_last() =~= outcomes@.take(i as int));
        assert(outcomes@.take(i + 1).last() == outcomes@[i as int]);
        if outcomes[i].is_ok() {
            n = n + 1;
        }
        i = i + 1;
    }
    assert(outcomes@.take(outcomes@.len() as int) =~= outcomes@);
    n
}

/// What a failed `send_batch` on a topic is described as: the failure of the
/// whole, or that of the first record that was not taken.
pub open spec fn send_failure(
    r: Result<Vec<Result<(), KafkaError>>, KafkaError>,
    topic: Seq<char>,
    why: Seq<char>,
) -> bool {
    match r {
        Ok(outcomes) => exists|i: int|
            is_first_error(outcomes@, i) && why == described(
                "send-batch "@ + topic + " record"@,
                outcomes@[i]->Err_0,
            ),
        Err(e) => why == described("send-batch "@ + topic, e),
    }
}

/// Whether a whole batch was taken, and if not, why.
pub fn all_ok(r: Result<Vec<Result<(), KafkaError>>, KafkaError>, topic: &str) -> (out: Result<
    (),
    String,
>)
    ensures
        match out {
            Ok(()) => r is Ok && all_taken(r->Ok_0@),
            Err(why) => send_failure(r, topic@, why@),
        },
{
    let mut op = "send-batch ".to_owned();
    op.append(topic);
    match r {
        Ok(outcomes) => match first_error(&outcomes) {
            None => Ok(()),
            Some(i) => {
                op.append(" record");
                match &outcomes[i] {
                    Err(e) => Err(describe(op.as_str(), e)),
                    Ok(()) => Ok(()),
                }
            },
        },
        Err(e) => Err(describe(op.as_str(), &e)),
    }
}

/// Why records that were sent to a topic are not there: the failure of the
/// whole, or that of the first record that was not taken.
pub open spec fn delivery_failure(
    sent: Result<Vec<Result<(), KafkaError>>, KafkaError>,
    topic: Seq<char>,
    why: Seq<char>,
) -> bool {
    match sent {
        Ok(outcomes) => exists|i: int|
            is_first_error(outcomes@, i) && why == "send_batch "@ + topic + ": record failed: "@
                + outcomes@[i]->Err_0.message@,
        Err(e) => why == "send_batch "@ + topic + ": "@ + e.message@,
    }
}

/// Whether the records that were sent to a topic are there, and if not, why.
pub fn check_delivery(sent: &Result<Vec<Result<(), KafkaError>>, KafkaError>, topic: &str) -> (r: Result<
    (),
    String,
>)
    ensures
        match r {
            Ok(()) => sent is Ok && all_taken(sent->Ok_0@),
            Err(why) => delivery_failure(*sent, topic@, why@),
        },
{
    let mut t = "send_batch ".to_owned();
    t.append(topic);
    match sent {
        Ok(outcomes) => match first_error(outcomes) {
            None => Ok(()),
            Some(i) => {
                t.append(": record failed: ");
                match &outcomes[i] {
                    Err(e) => {
                        t.append(e.message.as_str());
                        Err(t)
                    },
                    Ok(()) => Ok(()),
                }
            },
        },
        Err(e) => {
            t.append(": ");
            t.append(e.message.as_str());
            Err(t)
        },
    }
}

// ---------------------------------------------------------------------------
// Commits

/// What became of the commit of one partition: the name of the error code, if
/// it failed.
pub struct PartitionCommit {
    pub partition: i32,
    pub error: Option<String>,
}

/// Whether an error code says that there was nothing to commit.
pub open spec fn nothing_stored(code: Seq<char>) -> bool {
    code == "NoOffset"@
}

/// Whether the commit of a partition failed.
pub open spec fn commit_failed(p: PartitionCommit) -> bool {
    match p.error {
        Some(code) => !nothing_stored(code@),
        None => false,
    }
}

/// Whether the result at `i` is the first of a partition whose commit failed.
pub open spec fn is_first_failed(results: Seq<PartitionCommit>, i: int) -> bool {
    &&& 0 <= i < results.len()
    &&& commit_failed(results[i])
    &&& forall|j: int| 0 <= j < i ==> !commit_failed(#[trigger] results[j])
}

// ---------------------------------------------------------------------------
// Verdicts

/// Why a handler did not handle a batch.
pub enum HandlerError {
    /// Retry from the first record.
    Transient(Option<String>),
    /// Dead-letter the first record.
    Permanent(Option<String>),
}

/// What a handler's error stands for.
pub enum HandlerErrorView {
    Transient(Option<Seq<char>>),
    Permanent(Option<Seq<char>>),
}

/// What a handler answers: the whole batch is handled (`Ok(None)`), it is
/// handled through an offset, or it is not.
pub open spec fn verdict_view(r: Result<Option<i64>, HandlerError>) -> Result<
    Option<i64>,
    HandlerErrorView,
> {
    match r {
        Ok(o) => Ok(o),
        Err(HandlerError::Transient(s)) => Err(
            HandlerErrorView::Transient(opt_text(s)),
        ),
        Err(HandlerError::Permanent(s)) => Err(
            HandlerErrorView::Permanent(opt_text(s)),
        ),
    }
}

// ---------------------------------------------------------------------------
// Laws

/// A record with a JSON value goes out under the bytes of its key, with the
/// text of the value, and with no partition, no headers and no time.
pub proof fn a_json_record_holds_its_value(key: Seq<char>, value: JsonView)
    ensures
        ({
            let r = json_keyed(key, value);
            &&& r.key == Some(encode_utf8(key))
            &&& r.value == Some(encode_utf8(json_text_of(value)))
            &&& r.partition is None
            &&& r.headers.len() == 0
            &&& r.timestamp is None
        }),
{
}

/// A metric goes out under its station. It names the station, its kind and
/// its time, and holds every particular as it is given.
pub proof fn a_metric_says_who_reports_what_when(
    station: Seq<char>,
    kind: Seq<char>,
    ts: Option<i64>,
    extra: Map<Seq<char>, JsonView>,
)
    ensures
        exists|f: Map<Seq<char>, JsonView>|
            {
                &&& metric_view(station, kind, ts, extra) == #[trigger] json_keyed(
                    station,
                    JsonView::Object(f),
                )
                &&& forall|name: Seq<char>|
                    #[trigger] f.dom().contains(name) <==> extra.dom().contains(name) || name
                        == "station"@ || name == "kind"@ || name == "ts"@
                &&& forall|name: Seq<char>|
                    extra.dom().contains(name) ==> #[trigger] f[name] == extra[name]
                &&& !extra.dom().contains("station"@) ==> f["station"@] == JsonView::Str(station)
                &&& !extra.dom().contains("kind"@) ==> f["kind"@] == JsonView::Str(kind)
                &&& !extra.dom().contains("ts"@) ==> f["ts"@] == match ts {
                    None => JsonView::Null,
                    Some(t) => if t < 0 {
                        JsonView::Int(t)
                    } else {
                        JsonView::Uint(t as u64)
                    },
                }
            },
{
    reveal_strlit("station");
    reveal_strlit("kind");
    reveal_strlit("ts");
    assert("station"@.len() == 7 && "kind"@.len() == 4 && "ts"@.len() == 2);
    let f = metric_fields(station, kind, ts, extra);
    assert(metric_view(station, kind, ts, extra) == json_keyed(station, JsonView::Object(f)));
}

/// An error in words starts with the operation, then the message, and then in
/// brackets the code and the three flags.
pub proof fn an_error_is_told_with_its_flags(op: Seq<char>, e: KafkaError)
    ensures
        described(op, e) == op + ": "@ + e.message@ + " ("@ + e.code@ + "; requires_abort="@ + (if
            e.txn_requires_abort {
            "true"@
        } else {
            "false"@
        }) + " fatal="@ + (if e.fatal {
            "true"@
        } else {
            "false"@
        }) + " retriable="@ + (if e.retriable {
            "true"@
        } else {
            "false"@
        }) + ")"@,
{
}

/// A batch is wholly taken exactly where it was sent and no record of it has
/// an error.
pub proof fn a_batch_is_taken_where_no_record_fails(
    sent: Result<Vec<Result<(), KafkaError>>, KafkaError>,
)
    ensures
        wholly_taken(sent) <==> sent is Ok && !exists|i: int|
            0 <= i < sent->Ok_0@.len() && (#[trigger] sent->Ok_0@[i]) is Err,
{
    if let Ok(outcomes) = sent {
        if all_taken(outcomes@) {
            assert forall|i: int| 0 <= i < outcomes@.len() implies !((#[trigger] outcomes@[i])
                is Err) by {
                assert(outcomes@[i] is Ok);
            }
        } else {
            let i = choose|i: int| 0 <= i < outcomes@.len() && !((#[trigger] outcomes@[i]) is Ok);
            assert(outcomes@[i] is Err);
        }
    }
}

/// A failure names the first record that was not taken, and where the whole
/// was not sent, the error of the whole.
pub proof fn a_failure_names_the_first_error(
    sent: Result<Vec<Result<(), KafkaError>>, KafkaError>,
    topic: Seq<char>,
    why: Seq<char>,
    i: int,
)
    requires
        delivery_failure(sent, topic, why),
    ensures
        sent matches Err(e) ==> why == "send_batch "@ + topic + ": "@ + e.message@,
        sent matches Ok(outcomes) ==> (0 <= i < outcomes@.len() && outcomes@[i] is Err && (
        forall|j: int| 0 <= j < i ==> (#[trigger] outcomes@[j]) is Ok) ==> why == "send_batch "@
            + topic + ": record failed: "@ + outcomes@[i]->Err_0.message@),
{
    if let Ok(outcomes) = sent {
        let k = choose|k: int|
            is_first_error(outcomes@, k) && why == "send_batch "@ + topic + ": record failed: "@
                + outcomes@[k]->Err_0.message@;
        if 0 <= i < outcomes@.len() && outcomes@[i] is Err && (forall|j: int|
            0 <= j < i ==> (#[trigger] outcomes@[j]) is Ok) {
            if i < k {
                assert(outcomes@[i] is Ok);
            }
            if k < i {
                assert(outcomes@[k] is Ok);
            }
        }
    }
}

/// The commit of a partition failed where it tells an error, unless that is
/// that there was nothing to commit.
pub proof fn nothing_to_commit_is_no_failure(p: PartitionCommit)
    ensures
        commit_failed(p) <==> p.error is Some && p.error->0@ != "NoOffset"@,
{
}

/// A batch that was not sent wholly is described by the first record that was
/// not taken, and where the whole was not sent, by the error of the whole.
pub proof fn a_send_failure_describes_the_first_error(
    sent: Result<Vec<Result<(), KafkaError>>, KafkaError>,
    topic: Seq<char>,
    why: Seq<char>,
    i: int,
)
    requires
        send_failure(sent, topic, why),
    ensures
        sent matches Err(e) ==> why == described("send-batch "@ + topic, e),
        sent matches Ok(outcomes) ==> (0 <= i < outcomes@.len() && outcomes@[i] is Err && (
        forall|j: int| 0 <= j < i ==> (#[trigger] outcomes@[j]) is Ok) ==> why == described(
            "send-batch "@ + topic + " record"@,
            outcomes@[i]->Err_0,
        )),
{
    if let Ok(outcomes) = sent {
        let k = choose|k: int|
            is_first_error(outcomes@, k) && why == described(
                "send-batch "@ + topic + " record"@,
                outcomes@[k]->Err_0,
            );
        if 0 <= i < outcomes@.len() && outcomes@[i] is Err && (forall|j: int|
            0 <= j < i ==> (#[trigger] outcomes@[j]) is Ok) {
            if i < k {
                assert(outcomes@[i] is Ok);
            }
            if k < i {
                assert(outcomes@[k] is Ok);
            }
        }
    }
}

} // verus!
