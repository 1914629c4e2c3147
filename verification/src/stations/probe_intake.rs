//! Probe intake: lots that are uploaded over HTTP, and synthetic batches for
//! load checks.

use vstd::arithmetic::power2::lemma2_to64_rest;
use vstd::prelude::*;
use vstd::string::*;
use vstd::utf8::*;

use crate::json::{Fields, Json, JsonView};
use crate::kafka::{
    count_taken, json_keyed, json_record, keyed, lemma_produce_views_push, metric, metric_view,
    produce_views, taken_count, KafkaError, ProduceRecord, ProduceView,
};
use crate::measure::{at_most, finite, is_finite, lemma_whole, no_greater, value, whole, Measure};
use crate::ordered_map::OrderedMap;
use crate::text::{
    before_char, chars_of, decimal, decimal_text, join_texts, joined, parse_usize, part_before,
    stands_at, starts_with_text, text_eq, text_of, texts, usize_of,
};

verus! {

broadcast use vstd::string::group_string_axioms;

/// The most wafers a lot carries.
pub const MAX_WAFERS: usize = 200;

/// The greatest number of a wafer.
pub const MAX_WAFER: u32 = 100;

/// The largest body that is read, in bytes.
pub const MAX_BODY_BYTES: usize = 4_194_304;

/// The most records of a synthetic batch.
pub const MAX_BATCH_RECORDS: usize = 10_000;

/// The largest record of a synthetic batch, in bytes.
pub const MAX_RECORD_BYTES: usize = 1_048_576;

/// The largest payload of a synthetic batch, in bytes.
pub const MAX_BATCH_BYTES: u64 = 16_777_216;

/// A yield of 100 percent, as a bit pattern.
pub const FULL_YIELD: u64 = 0x4059_0000_0000_0000;

/// A lot of wafers.
pub struct Lot {
    pub lot: String,
    pub prober: String,
    pub wafers: Vec<Wafer>,
}

/// What a prober measured on a wafer.
pub struct Wafer {
    pub wafer: u32,
    pub contact_mohm: Measure,
    pub chuck_c: Measure,
    pub yield_pct: Measure,
}

// ---------------------------------------------------------------------------
// Routes

/// What a request asks for.
pub enum Route {
    /// The request has no path.
    NoPath,
    /// A lot is uploaded.
    Lot,
    /// A synthetic batch is to be produced, as this query says.
    Batch(String),
    Health,
    Unknown,
}

/// The method of a request, as far as it matters.
pub enum Method {
    Get,
    Post,
    Other,
}

/// The query of a target: what stands behind the first question mark.
pub open spec fn query_of(target: Seq<char>) -> Seq<char> {
    let path = before_char(target, '?');
    if path.len() < target.len() {
        target.skip(path.len() as int + 1)
    } else {
        Seq::empty()
    }
}

/// Whether a request asks for what is said of it.
pub open spec fn is_route(method: Method, target: Option<Seq<char>>, r: Route) -> bool {
    match target {
        None => r is NoPath,
        Some(target) => {
            let path = before_char(target, '?');
            if method is Post && path == "/lot"@ {
                r is Lot
            } else if method is Post && path == "/produce-batch"@ {
                match r {
                    Route::Batch(query) => query@ == query_of(target),
                    _ => false,
                }
            } else if method is Get && path == "/healthz"@ {
                r is Health
            } else {
                r is Unknown
            }
        },
    }
}

fn query_in(target: &str, path_len: usize) -> (r: String)
    requires
        path_len == before_char(target@, '?').len(),
    ensures
        r@ == query_of(target@),
{
    let chars = chars_of(target);
    let len: usize = chars.len();
    if path_len < len {
        let r = text_of(&chars, path_len + 1, len);
        assert(r@ =~= target@.skip(path_len + 1));
        r
    } else {
        String::new()
    }
}

/// What a request asks for.
pub fn route(method: &Method, target: Option<&str>) -> (r: Route)
    ensures
        is_route(
            *method,
            match target {
                Some(t) => Some(t@),
                None => None,
            },
            r,
        ),
{
    let target = match target {
        Some(t) => t,
        None => {
            return Route::NoPath;
        },
    };
    let path = part_before(target, '?');
    match method {
        Method::Post => {
            if text_eq(path.as_str(), "/lot") {
                Route::Lot
            } else if text_eq(path.as_str(), "/produce-batch") {
                let path_len = chars_of(path.as_str()).len();
                Route::Batch(query_in(target, path_len))
            } else {
                Route::Unknown
            }
        },
        Method::Get => {
            if text_eq(path.as_str(), "/healthz") {
                Route::Health
            } else {
                Route::Unknown
            }
        },
        Method::Other => Route::Unknown,
    }
}

/// An answer over HTTP.
pub struct Reply {
    pub status: u16,
    pub body: String,
}

/// What an answer stands for.
#[verifier::ext_equal]
pub struct ReplyView {
    pub status: u16,
    pub body: Seq<char>,
}

impl View for Reply {
    type V = ReplyView;

    open spec fn view(&self) -> ReplyView {
        ReplyView { status: self.status, body: self.body@ }
    }
}

/// The answer to a request without a path.
pub fn no_path_reply() -> (r: Reply)
    ensures
        r@ == (ReplyView { status: 400, body: "no path"@ }),
{
    Reply { status: 400, body: "no path".to_owned() }
}

/// The answer to a request for the station's health.
pub fn health_reply() -> (r: Reply)
    ensures
        r@ == (ReplyView { status: 200, body: "ok"@ }),
{
    Reply { status: 200, body: "ok".to_owned() }
}

/// The answer to a request that nothing is known of.
pub fn unknown_reply() -> (r: Reply)
    ensures
        r@ == (ReplyView {
            status: 404,
            body: "no such route: POST /lot, POST /produce-batch, GET /healthz"@,
        }),
{
    Reply {
        status: 404,
        body: "no such route: POST /lot, POST /produce-batch, GET /healthz".to_owned(),
    }
}

// ---------------------------------------------------------------------------
// Lots

/// The answer to a body that is too large.
pub open spec fn body_fault(len: usize) -> Option<ReplyView> {
    if len > MAX_BODY_BYTES {
        Some(ReplyView { status: 400, body: "body larger than 4194304 bytes"@ })
    } else {
        None
    }
}

/// What an answer that may be there stands for.
pub open spec fn opt_reply(r: Option<Reply>) -> Option<ReplyView> {
    match r {
        Some(r) => Some(r@),
        None => None,
    }
}

/// The answer to a body that is too large.
pub fn check_body(len: usize) -> (r: Option<Reply>)
    ensures
        opt_reply(r) == body_fault(len),
{
    if len > MAX_BODY_BYTES {
        Some(Reply { status: 400, body: "body larger than 4194304 bytes".to_owned() })
    } else {
        None
    }
}

/// What is wrong with a wafer.
pub open spec fn wafer_fault(w: Wafer) -> Option<Seq<char>> {
    let name = "wafer "@ + decimal(w.wafer as nat);
    if w.wafer == 0 || w.wafer > MAX_WAFER {
        Some(name + " out of range 1..100"@)
    } else if !(is_finite(w.contact_mohm.bits) && is_finite(w.chuck_c.bits) && is_finite(
        w.yield_pct.bits,
    )) {
        Some(name + ": non-finite reading"@)
    } else if !(at_most(0, w.yield_pct.bits) && at_most(w.yield_pct.bits, FULL_YIELD)) {
        Some(name + ": yield "@ + w.yield_pct.shown@ + " % outside 0..100"@)
    } else {
        None
    }
}

/// What is wrong with the first of a row of wafers that something is wrong
/// with.
pub open spec fn wafers_fault(wafers: Seq<Wafer>) -> Option<Seq<char>>
    decreases wafers.len(),
{
    if wafers.len() == 0 {
        None
    } else {
        match wafer_fault(wafers[0]) {
            Some(e) => Some(e),
            None => wafers_fault(wafers.drop_first()),
        }
    }
}

/// What is wrong with a lot.
pub open spec fn lot_fault(lot: Lot) -> Option<Seq<char>> {
    if !stands_at(lot.lot@, "L-"@, 0) {
        Some("lot id must look like L-NNNNN-NN"@)
    } else if lot.prober@.len() == 0 {
        Some("prober id is required"@)
    } else if lot.wafers@.len() == 0 || lot.wafers@.len() > MAX_WAFERS {
        Some("a lot carries 1..200 wafers"@)
    } else {
        wafers_fault(lot.wafers@)
    }
}

/// Why a check failed, where it did.
pub open spec fn check_fault(r: Result<(), String>) -> Option<Seq<char>> {
    match r {
        Ok(()) => None,
        Err(e) => Some(e@),
    }
}

fn check_wafer(w: &Wafer) -> (r: Result<(), String>)
    ensures
        check_fault(r) == wafer_fault(*w),
{
    let mut t = "wafer ".to_owned();
    t.append(decimal_text(w.wafer as u64).as_str());
    if w.wafer == 0 || w.wafer > MAX_WAFER {
        t.append(" out of range 1..100");
        Err(t)
    } else if !(finite(w.contact_mohm.bits) && finite(w.chuck_c.bits) && finite(
        w.yield_pct.bits,
    )) {
        t.append(": non-finite reading");
        Err(t)
    } else if !(no_greater(0, w.yield_pct.bits) && no_greater(w.yield_pct.bits, FULL_YIELD)) {
        t.append(": yield ");
        t.append(w.yield_pct.shown.as_str());
        t.append(" % outside 0..100");
        Err(t)
    } else {
        Ok(())
    }
}

/// Checks a lot before anything of it is produced.
pub fn validate(lot: &Lot) -> (r: Result<(), String>)
    ensures
        check_fault(r) == lot_fault(*lot),
{
    if !starts_with_text(lot.lot.as_str(), "L-") {
        return Err("lot id must look like L-NNNNN-NN".to_owned());
    }
    let no_prober = text_eq(lot.prober.as_str(), "");
    proof {
        reveal_strlit("");
        if lot.prober@.len() == 0 {
            assert(lot.prober@ =~= ""@);
        }
    }
    if no_prober {
        return Err("prober id is required".to_owned());
    }
    if lot.wafers.len() == 0 || lot.wafers.len() > MAX_WAFERS {
        return Err("a lot carries 1..200 wafers".to_owned());
    }
    let ghost all = lot.wafers@;
    let mut i: usize = 0;
    assert(all.skip(0) =~= all);
    while i < lot.wafers.len()
        invariant
            i <= lot.wafers@.len(),
            all == lot.wafers@,
            stands_at(lot.lot@, "L-"@, 0),
            lot.prober@.len() > 0,
            0 < lot.wafers@.len() <= MAX_WAFERS,
            wafers_fault(all) == wafers_fault(all.skip(i as int)),
        decreases lot.wafers@.len() - i,
    {
        proof {
            assert(all.skip(i as int)[0] == all[i as int]);
            assert(all.skip(i as int).drop_first() =~= all.skip(i + 1));
        }
        match check_wafer(&lot.wafers[i]) {
            Err(e) => {
                return Err(e);
            },
            Ok(()) => {},
        }
        i = i + 1;
    }
    Ok(())
}

/// The record of a wafer.
pub open spec fn wafer_record(lot: Seq<char>, prober: Seq<char>, w: Wafer) -> ProduceView {
    json_keyed(
        lot,
        JsonView::Object(
            Map::empty().insert("lot"@, JsonView::Str(lot)).insert(
                "prober"@,
                JsonView::Str(prober),
            ).insert("wafer"@, JsonView::Uint(w.wafer as u64)).insert(
                "contact_mohm"@,
                JsonView::Real(w.contact_mohm.json@),
            ).insert("chuck_c"@, JsonView::Real(w.chuck_c.json@)).insert(
                "yield_pct"@,
                JsonView::Real(w.yield_pct.json@),
            ).insert("via"@, JsonView::Str("http"@)),
        ),
    )
}

/// The records of a lot: one per wafer, keyed by the lot, in their order.
pub open spec fn lot_records(lot: Lot) -> Seq<ProduceView> {
    lot.wafers@.map_values(|w: Wafer| wafer_record(lot.lot@, lot.prober@, w))
}

/// The records of a lot: one per wafer, keyed by the lot, in their order.
pub fn records_of(lot: &Lot) -> (r: Vec<ProduceRecord>)
    ensures
        produce_views(r@) == lot_records(*lot),
{
    let ghost want = lot_records(*lot);
    let mut r: Vec<ProduceRecord> = Vec::new();
    let mut i: usize = 0;
    while i < lot.wafers.len()
        invariant
            i <= lot.wafers@.len(),
            want == lot_records(*lot),
            produce_views(r@) =~= want.take(i as int),
        decreases lot.wafers@.len() - i,
    {
        let w = &lot.wafers[i];
        let mut f = Fields::new();
        f.put("lot", Json::text(lot.lot.as_str()));
        f.put("prober", Json::text(lot.prober.as_str()));
        f.put("wafer", Json::Uint(w.wafer as u64));
        f.put("contact_mohm", Json::Real(w.contact_mohm.json.clone()));
        f.put("chuck_c", Json::Real(w.chuck_c.json.clone()));
        f.put("yield_pct", Json::Real(w.yield_pct.json.clone()));
        f.put("via", Json::text("http"));
        let rec = json_record(lot.lot.as_str(), &Json::Object(f));
        proof {
            lemma_produce_views_push(r@, rec);
            assert(rec@ == want[i as int]);
        }
        r.push(rec);
        i = i + 1;
    }
    r
}

/// An upload that is turned away: the answer, and the metric that tells of it.
pub struct Rejection {
    pub reply: Reply,
    pub metric: ProduceRecord,
}

/// What an upload that is turned away stands for.
#[verifier::ext_equal]
pub struct RejectionView {
    pub reply: ReplyView,
    pub metric: ProduceView,
}

/// What a rejection that may be there stands for.
pub open spec fn opt_rejection(r: Option<Rejection>) -> Option<RejectionView> {
    match r {
        Some(r) => Some(RejectionView { reply: r.reply@, metric: r.metric@ }),
        None => None,
    }
}

/// Why an upload is turned away, given what its body decodes as: it is no
/// lot, or something is wrong with the lot.
pub open spec fn rejection_of(decoded: Result<Lot, String>, now: i64) -> Option<RejectionView> {
    match decoded {
        Err(e) => {
            let reason = "not a lot: "@ + e@;
            Some(
                RejectionView {
                    reply: ReplyView { status: 400, body: "rejected: "@ + reason },
                    metric: metric_view(
                        "st01"@,
                        "rejected"@,
                        Some(now),
                        Map::empty().insert("n"@, JsonView::Uint(1)).insert(
                            "reason"@,
                            JsonView::Str(reason),
                        ),
                    ),
                },
            )
        },
        Ok(lot) => match lot_fault(lot) {
            Some(reason) => Some(
                RejectionView {
                    reply: ReplyView { status: 400, body: "rejected: "@ + reason },
                    metric: metric_view(
                        "st01"@,
                        "rejected"@,
                        Some(now),
                        Map::empty().insert("n"@, JsonView::Uint(1)).insert(
                            "reason"@,
                            JsonView::Str(reason),
                        ).insert("lot"@, JsonView::Str(lot.lot@)).insert(
                            "prober"@,
                            JsonView::Str(lot.prober@),
                        ),
                    ),
                },
            ),
            None => None,
        },
    }
}

/// Why an upload is turned away, given what its body decodes as.
pub fn reject(decoded: &Result<Lot, String>, now: i64) -> (r: Option<Rejection>)
    ensures
        opt_rejection(r) == rejection_of(*decoded, now),
{
    let mut f = Fields::new();
    f.put("n", Json::Uint(1));
    let mut body = "rejected: ".to_owned();
    match decoded {
        Err(e) => {
            let mut reason = "not a lot: ".to_owned();
            reason.append(e.as_str());
            body.append(reason.as_str());
            f.put("reason", Json::Str(reason));
            let m = metric("st01", "rejected", Some(now), &f);
            Some(Rejection { reply: Reply { status: 400, body }, metric: m })
        },
        Ok(lot) => match validate(lot) {
            Ok(()) => None,
            Err(reason) => {
                body.append(reason.as_str());
                f.put("reason", Json::Str(reason));
                f.put("lot", Json::text(lot.lot.as_str()));
                f.put("prober", Json::text(lot.prober.as_str()));
                let m = metric("st01", "rejected", Some(now), &f);
                Some(Rejection { reply: Reply { status: 400, body }, metric: m })
            },
        },
    }
}

/// A line per outcome: `ok`, or the error code.
pub open spec fn outcome_lines(outcomes: Seq<Result<(), KafkaError>>) -> Seq<Seq<char>> {
    outcomes.map_values(
        |o: Result<(), KafkaError>|
            match o {
                Ok(()) => "ok"@,
                Err(e) => e.code@,
            },
    )
}

fn lines_for(outcomes: &Vec<Result<(), KafkaError>>) -> (r: Vec<String>)
    ensures
        texts(r@) == outcome_lines(outcomes@),
{
    let mut r: Vec<String> = Vec::new();
    let mut i: usize = 0;
    while i < outcomes.len()
        invariant
            i <= outcomes@.len(),
            texts(r@) =~= outcome_lines(outcomes@).take(i as int),
        decreases outcomes@.len() - i,
    {
        let line = match &outcomes[i] {
            Ok(()) => "ok".to_owned(),
            Err(e) => e.code.clone(),
        };
        assert(texts(r@.push(line)) =~= texts(r@).push(line@));
        r.push(line);
        i = i + 1;
    }
    r
}

/// The answer to a batch that was sent.
pub open spec fn sent_reply(
    sent: Result<Vec<Result<(), KafkaError>>, KafkaError>,
    failed: u16,
) -> ReplyView {
    match sent {
        Ok(outcomes) => ReplyView {
            status: 200,
            body: joined(outcome_lines(outcomes@), "\n"@),
        },
        Err(e) => ReplyView { status: failed, body: "send-batch failed: "@ + e.code@ },
    }
}

/// The answer to a batch that was sent: one line per record, or the failure
/// of the whole under the status `failed`.
pub fn answer_sent(sent: &Result<Vec<Result<(), KafkaError>>, KafkaError>, failed: u16) -> (r: Reply)
    ensures
        r@ == sent_reply(*sent, failed),
{
    match sent {
        Ok(outcomes) => {
            let lines = lines_for(outcomes);
            Reply { status: 200, body: join_texts(&lines, "\n") }
        },
        Err(e) => {
            let mut t = "send-batch failed: ".to_owned();
            t.append(e.code.as_str());
            Reply { status: failed, body: t }
        },
    }
}

/// The metrics of a lot that was sent: what was taken of it and how long that
/// took, or why nothing was.
pub open spec fn lot_metrics(
    lot: Lot,
    sent: Result<Vec<Result<(), KafkaError>>, KafkaError>,
    latency_ms: u64,
    now: i64,
) -> Seq<ProduceView> {
    let want = lot.wafers@.len() as u64;
    match sent {
        Ok(outcomes) => {
            let ok = taken_count(outcomes@) as u64;
            seq![
                metric_view(
                    "st01"@,
                    "produced"@,
                    Some(now),
                    Map::empty().insert("topic"@, JsonView::Str("probe.lots"@)).insert(
                        "n"@,
                        JsonView::Uint(ok),
                    ).insert("lot"@, JsonView::Str(lot.lot@)).insert(
                        "prober"@,
                        JsonView::Str(lot.prober@),
                    ).insert("wafers"@, JsonView::Uint(want)),
                ),
                metric_view(
                    "st01"@,
                    "latency"@,
                    Some(now),
                    Map::empty().insert("ms"@, JsonView::Uint(latency_ms)).insert(
                        "batch"@,
                        JsonView::Uint(want),
                    ).insert("errors"@, JsonView::Uint(want.wrapping_sub(ok))),
                ),
            ]
        },
        Err(e) => seq![
            metric_view(
                "st01"@,
                "fault"@,
                Some(now),
                Map::empty().insert(
                    "reason"@,
                    JsonView::Str("send-batch failed: "@ + e.code@),
                ).insert("lot"@, JsonView::Str(lot.lot@)),
            ),
        ],
    }
}

/// The metrics of a lot that was sent.
pub fn report_lot(
    lot: &Lot,
    sent: &Result<Vec<Result<(), KafkaError>>, KafkaError>,
    latency_ms: u64,
    now: i64,
) -> (r: Vec<ProduceRecord>)
    ensures
        produce_views(r@) == lot_metrics(*lot, *sent, latency_ms, now),
{
    let want = lot.wafers.len() as u64;
    let mut r: Vec<ProduceRecord> = Vec::new();
    match sent {
        Ok(outcomes) => {
            let ok = count_taken(outcomes);
            let mut f = Fields::new();
            f.put("topic", Json::text("probe.lots"));
            f.put("n", Json::Uint(ok));
            f.put("lot", Json::text(lot.lot.as_str()));
            f.put("prober", Json::text(lot.prober.as_str()));
            f.put("wafers", Json::Uint(want));
            r.push(metric("st01", "produced", Some(now), &f));
            let mut g = Fields::new();
            g.put("ms", Json::Uint(latency_ms));
            g.put("batch", Json::Uint(want));
            g.put("errors", Json::Uint(want.wrapping_sub(ok)));
            r.push(metric("st01", "latency", Some(now), &g));
        },
        Err(e) => {
            let mut t = "send-batch failed: ".to_owned();
            t.append(e.code.as_str());
            let mut f = Fields::new();
            f.put("reason", Json::Str(t));
            f.put("lot", Json::text(lot.lot.as_str()));
            r.push(metric("st01", "fault", Some(now), &f));
        },
    }
    assert(produce_views(r@) =~= lot_metrics(*lot, *sent, latency_ms, now));
    r
}

// ---------------------------------------------------------------------------
// Synthetic batches

/// The names and values `form_urlencoded` finds in a query.
pub uninterp spec fn form_pairs(query: Seq<char>) -> Seq<(Seq<char>, Seq<char>)>;

/// What a row of names and values stands for.
pub open spec fn pair_views(s: Seq<(String, String)>) -> Seq<(Seq<char>, Seq<char>)> {
    s.map_values(|p: (String, String)| (p.0@, p.1@))
}

/// The names and values in a query, decoded, by `form_urlencoded::parse`. They
/// are those that `form_pairs` names; an empty query has none.
#[verifier::external_body]
fn read_form(query: &str) -> (r: Vec<(String, String)>)
    ensures
        pair_views(r@) == form_pairs(query@),
        query@.len() == 0 ==> r@.len() == 0,
{
    form_urlencoded::parse(query.as_bytes()).into_owned().collect()
}

/// The parameters in a row of names and values; of two with one name the
/// later.
pub open spec fn params_of(pairs: Seq<(Seq<char>, Seq<char>)>) -> Map<Seq<char>, Seq<char>>
    decreases pairs.len(),
{
    if pairs.len() == 0 {
        Map::empty()
    } else {
        params_of(pairs.drop_last()).insert(pairs.last().0, pairs.last().1)
    }
}

/// What parameters stand for.
pub open spec fn param_views(m: Map<Seq<char>, String>) -> Map<Seq<char>, Seq<char>> {
    m.map_values(|s: String| s@)
}

/// The parameters in a row of names and values; of two with one name the
/// later.
pub fn collect_params(pairs: &Vec<(String, String)>) -> (r: OrderedMap<String, String>)
    ensures
        param_views(r@) == params_of(pair_views(pairs@)),
{
    let ghost all = pair_views(pairs@);
    let mut r: OrderedMap<String, String> = OrderedMap::new();
    let mut i: usize = 0;
    assert(all.take(0) =~= Seq::empty());
    assert(param_views(r@) =~= Map::empty());
    while i < pairs.len()
        invariant
            i <= pairs@.len(),
            all == pair_views(pairs@),
            param_views(r@) == params_of(all.take(i as int)),
        decreases pairs@.len() - i,
    {
        proof {
            assert(all.take(i + 1).drop_last() =~= all.take(i as int));
            assert(all.take(i + 1).last() == all[i as int]);
        }
        let ghost before = r@;
        let value = pairs[i].1.clone();
        r.insert(pairs[i].0.clone(), value);
        assert(param_views(r@) =~= param_views(before).insert(pairs@[i as int].0@, value@));
        i = i + 1;
    }
    assert(all.take(all.len() as int) =~= all);
    r
}

/// The parameters in a query.
pub fn parse(query: &str) -> (r: OrderedMap<String, String>)
    ensures
        param_views(r@) == params_of(form_pairs(query@)),
        query@.len() == 0 ==> r@ == Map::<Seq<char>, String>::empty(),
{
    let pairs = read_form(query);
    let r = collect_params(&pairs);
    proof {
        if query@.len() == 0 {
            assert(pair_views(pairs@) =~= Seq::empty());
            assert(param_views(r@).dom() =~= r@.dom());
            assert(r@ =~= Map::empty());
        }
    }
    r
}

/// A number that parameters give under a name, where it is in a range, and a
/// default where they give none.
pub open spec fn number_param(
    params: Map<Seq<char>, Seq<char>>,
    name: Seq<char>,
    default: usize,
    from: usize,
    to: usize,
) -> Option<usize> {
    if params.dom().contains(name) {
        match usize_of(params[name]) {
            Some(n) => if from <= n <= to {
                Some(n)
            } else {
                None
            },
            None => None,
        }
    } else {
        Some(default)
    }
}

/// What a synthetic batch is to be: how many records, and of how many bytes.
pub struct BatchRequest {
    pub count: usize,
    pub size: usize,
}

/// The batch that parameters ask for, or why they ask for none.
pub open spec fn request_of(params: Map<Seq<char>, Seq<char>>) -> Result<
    BatchRequest,
    ReplyView,
> {
    match number_param(params, "count"@, 100, 1, MAX_BATCH_RECORDS) {
        None => Err(ReplyView { status: 400, body: "count must be between 1 and 10000"@ }),
        Some(count) => match number_param(params, "size"@, 64, 0, MAX_RECORD_BYTES) {
            None => Err(ReplyView { status: 400, body: "size must be between 0 and 1048576"@ }),
            Some(size) => if count * size > MAX_BATCH_BYTES {
                Err(
                    ReplyView {
                        status: 400,
                        body: "count times size must not be above 16777216"@,
                    },
                )
            } else {
                Ok(BatchRequest { count, size })
            },
        },
    }
}

/// What a request for a batch stands for.
pub open spec fn request_view(r: Result<BatchRequest, Reply>) -> Result<BatchRequest, ReplyView> {
    match r {
        Ok(b) => Ok(b),
        Err(r) => Err(r@),
    }
}

fn number_of_param(
    params: &OrderedMap<String, String>,
    name: &str,
    default: usize,
    from: usize,
    to: usize,
) -> (r: Option<usize>)
    ensures
        r == number_param(param_views(params@), name@, default, from, to),
{
    match params.get(&name.to_owned()) {
        Some(s) => match parse_usize(s.as_str()) {
            Some(n) => if from <= n && n <= to {
                Some(n)
            } else {
                None
            },
            None => None,
        },
        None => Some(default),
    }
}

/// The batch that parameters ask for, or the answer where they ask for none.
pub fn batch_request(params: &OrderedMap<String, String>) -> (r: Result<BatchRequest, Reply>)
    ensures
        request_view(r) == request_of(param_views(params@)),
        r matches Ok(b) ==> 1 <= b.count <= 10_000 && b.size <= 1_048_576 && b.count * b.size
            <= 16_777_216,
{
    let count = match number_of_param(params, "count", 100, 1, MAX_BATCH_RECORDS) {
        Some(n) => n,
        None => {
            return Err(
                Reply { status: 400, body: "count must be between 1 and 10000".to_owned() },
            );
        },
    };
    let size = match number_of_param(params, "size", 64, 0, MAX_RECORD_BYTES) {
        Some(n) => n,
        None => {
            return Err(
                Reply { status: 400, body: "size must be between 0 and 1048576".to_owned() },
            );
        },
    };
    assert(0 <= count * size <= 10_000 * 1_048_576) by (nonlinear_arith)
        requires
            0 <= count <= 10_000,
            0 <= size <= 1_048_576,
    ;
    if count as u64 * size as u64 > MAX_BATCH_BYTES {
        return Err(
            Reply {
                status: 400,
                body: "count times size must not be above 16777216".to_owned(),
            },
        );
    }
    Ok(BatchRequest { count, size })
}

/// The batch that a query asks for, or the answer where it asks for none.
pub fn read_request(query: &str) -> (r: Result<BatchRequest, Reply>)
    ensures
        request_view(r) == request_of(params_of(form_pairs(query@))),
        query@.len() == 0 ==> request_view(r) == Ok::<BatchRequest, ReplyView>(
            BatchRequest { count: 100, size: 64 },
        ),
{
    let params = parse(query);
    let r = batch_request(&params);
    proof {
        if query@.len() == 0 {
            assert(param_views(params@) =~= Map::empty());
        }
    }
    r
}

/// A synthetic record.
pub open spec fn synthetic_record(i: nat, size: nat) -> ProduceView {
    keyed("k"@ + decimal(i), Seq::new(size, |j: int| 120u8))
}

/// The records of a synthetic batch: numbered keys, and values of one letter.
pub open spec fn synthetic_records(b: BatchRequest) -> Seq<ProduceView> {
    Seq::new(b.count as nat, |i: int| synthetic_record(i as nat, b.size as nat))
}

fn letters(size: usize) -> (r: Vec<u8>)
    ensures
        r@ == Seq::new(size as nat, |j: int| 120u8),
{
    let mut r: Vec<u8> = Vec::new();
    let mut i: usize = 0;
    while i < size
        invariant
            i <= size,
            r@ =~= Seq::new(i as nat, |j: int| 120u8),
        decreases size - i,
    {
        r.push(120u8);
        i = i + 1;
    }
    r
}

/// The records of a synthetic batch.
pub fn synthesize(b: &BatchRequest) -> (r: Vec<ProduceRecord>)
    ensures
        produce_views(r@) == synthetic_records(*b),
{
    let ghost want = synthetic_records(*b);
    let mut r: Vec<ProduceRecord> = Vec::new();
    let mut i: usize = 0;
    while i < b.count
        invariant
            i <= b.count,
            want == synthetic_records(*b),
            produce_views(r@) =~= want.take(i as int),
        decreases b.count - i,
    {
        let mut key = "k".to_owned();
        key.append(decimal_text(i as u64).as_str());
        let rec = ProduceRecord {
            partition: None,
            key: Some(key.as_str().as_bytes_vec()),
            value: Some(letters(b.size)),
            headers: Vec::new(),
            timestamp: None,
        };
        proof {
            assert(crate::kafka::header_views(rec.headers@) =~= Seq::empty());
            lemma_produce_views_push(r@, rec);
            assert(rec@ =~= want[i as int]);
        }
        r.push(rec);
        i = i + 1;
    }
    r
}

// ---------------------------------------------------------------------------
// Laws

/// A full yield is 100 percent.
pub proof fn the_limit_is_exact()
    ensures
        value(FULL_YIELD) == whole(100),
        value(0) == whole(0),
{
    lemma2_to64_rest();
    lemma_whole(FULL_YIELD, 100, 46);
}

/// A lot that is taken keeps the limits: its id starts as lot ids do, it
/// names a prober, and each of its one to two hundred wafers has a number up
/// to a hundred, finite readings and a yield from 0 to 100 percent.
pub proof fn a_lot_that_is_taken_keeps_the_limits(lot: Lot, i: int)
    requires
        lot_fault(lot) is None,
        0 <= i < lot.wafers@.len(),
    ensures
        stands_at(lot.lot@, "L-"@, 0),
        lot.prober@.len() > 0,
        1 <= lot.wafers@.len() <= MAX_WAFERS,
        ({
            let w = lot.wafers@[i];
            &&& 1 <= w.wafer <= MAX_WAFER
            &&& is_finite(w.contact_mohm.bits)
            &&& is_finite(w.chuck_c.bits)
            &&& 0 <= value(w.yield_pct.bits) <= whole(100)
        }),
{
    lemma_no_wafer_fault(lot.wafers@, i);
    the_limit_is_exact();
    assert(whole(0) == 0) by {
        assert(0 * vstd::arithmetic::power2::pow2(1074) == 0) by (nonlinear_arith);
    }
}

proof fn lemma_no_wafer_fault(wafers: Seq<Wafer>, i: int)
    requires
        wafers_fault(wafers) is None,
        0 <= i < wafers.len(),
    ensures
        wafer_fault(wafers[i]) is None,
    decreases wafers.len(),
{
    if i > 0 {
        assert(wafers.drop_first()[i - 1] == wafers[i]);
        lemma_no_wafer_fault(wafers.drop_first(), i - 1);
    }
}

/// The answer to a lot has one line per outcome, so that an error of one
/// record is one line and not a failed lot.
pub proof fn an_error_is_one_line(outcomes: Seq<Result<(), KafkaError>>, i: int)
    requires
        0 <= i < outcomes.len(),
    ensures
        outcome_lines(outcomes).len() == outcomes.len(),
        outcome_lines(outcomes)[i] == match outcomes[i] {
            Ok(()) => "ok"@,
            Err(e) => e.code@,
        },
{
}

} // verus!
