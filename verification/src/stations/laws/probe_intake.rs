//! What probe intake makes of requests.

use vstd::prelude::*;

use crate::json::JsonView;
use crate::kafka::{json_keyed, keyed, metric_view, taken_count, KafkaError};
use crate::measure::{is_finite, value, whole};
use crate::stations::probe_intake::{
    body_fault, is_route, lot_fault, lot_metrics, lot_records, outcome_lines,
    params_of, rejection_of, request_of, sent_reply, synthetic_records, the_limit_is_exact,
    wafer_fault, wafer_record, wafers_fault, BatchRequest, Lot, Method, ReplyView, Route, Wafer,
};
use crate::stats::{how_many, lemma_how_many};
use crate::text::{a_part_ends_before_its_mark, decimal, joined, stands_at, usize_of};

verus! {

// ---------------------------------------------------------------------------
// Requests

/// A request is told by its method and by its path, which ends before the
/// first question mark: a lot is posted to `/lot`, a batch is asked for by a
/// post to `/produce-batch` with the query behind the question mark, and
/// health by a get of `/healthz`. Nothing else is known.
pub proof fn a_request_is_told_by_method_and_path(
    method: Method,
    path: Seq<char>,
    query: Option<Seq<char>>,
    r: Route,
)
    requires
        !path.contains('?'),
        is_route(
            method,
            Some(
                match query {
                    Some(q) => path + seq!['?'] + q,
                    None => path,
                },
            ),
            r,
        ),
    ensures
        r is Lot <==> method is Post && path == "/lot"@,
        r is Batch <==> method is Post && path == "/produce-batch"@,
        r matches Route::Batch(q) ==> q@ == match query {
            Some(q) => q,
            None => Seq::<char>::empty(),
        },
        r is Health <==> method is Get && path == "/healthz"@,
        r is Unknown <==> !(r is Lot || r is Batch || r is Health),
        !(r is NoPath),
{
    reveal_strlit("/lot");
    reveal_strlit("/produce-batch");
    reveal_strlit("/healthz");
    assert("/lot"@.len() == 4 && "/produce-batch"@.len() == 14 && "/healthz"@.len() == 8);
    match query {
        Some(q) => {
            let target = path + seq!['?'] + q;
            a_part_ends_before_its_mark(path, '?', seq!['?'] + q);
            assert(path + (seq!['?'] + q) =~= target);
            assert(target.skip(path.len() as int + 1) =~= q);
        },
        None => {
            a_part_ends_before_its_mark(path, '?', Seq::empty());
            assert(path + Seq::<char>::empty() =~= path);
        },
    }
}

/// A body of more than four mebibytes is turned away, and no other is.
pub proof fn a_large_body_is_turned_away(len: usize)
    ensures
        body_fault(len) is Some <==> len > 4 * 1024 * 1024,
        body_fault(len) matches Some(r) ==> r.status == 400,
{
}

// ---------------------------------------------------------------------------
// Lots

/// A wafer is taken exactly where its number is from 1 to 100, its readings
/// are finite and its yield is from 0 to 100 percent.
pub proof fn a_wafer_is_taken_within_its_limits(w: Wafer)
    ensures
        wafer_fault(w) is None <==> {
            &&& 1 <= w.wafer <= 100
            &&& is_finite(w.contact_mohm.bits)
            &&& is_finite(w.chuck_c.bits)
            &&& is_finite(w.yield_pct.bits)
            &&& whole(0) <= value(w.yield_pct.bits) <= whole(100)
        },
        !(1 <= w.wafer <= 100) ==> wafer_fault(w) == Some(
            "wafer "@ + decimal(w.wafer as nat) + " out of range 1..100"@,
        ),
{
    the_limit_is_exact();
}

proof fn lemma_first_fault(wafers: Seq<Wafer>, n: nat)
    requires
        n <= wafers.len(),
        forall|i: int| 0 <= i < n ==> wafer_fault(#[trigger] wafers[i]) is None,
        n < wafers.len() ==> wafer_fault(wafers[n as int]) is Some,
    ensures
        n == wafers.len() ==> wafers_fault(wafers) is None,
        n < wafers.len() ==> wafers_fault(wafers) == wafer_fault(wafers[n as int]),
    decreases wafers.len(),
{
    if wafers.len() > 0 && n > 0 {
        let rest = wafers.drop_first();
        assert forall|i: int| 0 <= i < n - 1 implies wafer_fault(#[trigger] rest[i]) is None by {
            assert(rest[i] == wafers[i + 1]);
        }
        if n < wafers.len() {
            assert(rest[n - 1] == wafers[n as int]);
        }
        assert(wafer_fault(wafers[0]) is None);
        lemma_first_fault(rest, (n - 1) as nat);
    }
}

/// A lot is taken exactly where its id starts with `L-`, it names a prober,
/// it has from 1 to 200 wafers and each of them can be taken. Of several that
/// cannot the first is told of.
pub proof fn a_lot_is_taken_within_its_limits(lot: Lot, n: nat)
    requires
        n <= lot.wafers@.len(),
        forall|i: int| 0 <= i < n ==> wafer_fault(#[trigger] lot.wafers@[i]) is None,
        n < lot.wafers@.len() ==> wafer_fault(lot.wafers@[n as int]) is Some,
    ensures
        lot_fault(lot) is None <==> {
            &&& lot.lot@.len() >= 2 && lot.lot@[0] == 'L' && lot.lot@[1] == '-'
            &&& lot.prober@.len() > 0
            &&& 1 <= lot.wafers@.len() <= 200
            &&& n == lot.wafers@.len()
        },
        stands_at(lot.lot@, "L-"@, 0) && lot.prober@.len() > 0 && n < lot.wafers@.len() <= 200
            ==> lot_fault(lot) == wafer_fault(lot.wafers@[n as int]),
{
    lemma_first_fault(lot.wafers@, n);
    reveal_strlit("L-");
    assert("L-"@ =~= seq!['L', '-']);
    if lot.lot@.len() >= 2 {
        let start = lot.lot@.subrange(0, 2);
        assert(start.len() == 2 && start[0] == lot.lot@[0] && start[1] == lot.lot@[1]);
        if lot.lot@[0] == 'L' && lot.lot@[1] == '-' {
            assert(start =~= seq!['L', '-']);
        }
    }
}

/// The record of a wafer goes out under its lot. It names the lot and the
/// prober, and tells the number of the wafer and what was read of it.
pub proof fn a_record_tells_its_wafer(lot: Seq<char>, prober: Seq<char>, w: Wafer)
    ensures
        exists|f: Map<Seq<char>, JsonView>|
            #![trigger json_keyed(lot, JsonView::Object(f))]
            {
                &&& wafer_record(lot, prober, w) == json_keyed(lot, JsonView::Object(f))
                &&& f["lot"@] == JsonView::Str(lot)
                &&& f["prober"@] == JsonView::Str(prober)
                &&& f["wafer"@] == JsonView::Uint(w.wafer as u64)
                &&& f["contact_mohm"@] == JsonView::Real(w.contact_mohm.json@)
                &&& f["chuck_c"@] == JsonView::Real(w.chuck_c.json@)
                &&& f["yield_pct"@] == JsonView::Real(w.yield_pct.json@)
                &&& f["via"@] == JsonView::Str("http"@)
            },
{
    reveal_strlit("lot");
    reveal_strlit("prober");
    reveal_strlit("wafer");
    reveal_strlit("contact_mohm");
    reveal_strlit("chuck_c");
    reveal_strlit("yield_pct");
    reveal_strlit("via");
    assert("lot"@.len() == 3 && "prober"@.len() == 6 && "wafer"@.len() == 5
        && "contact_mohm"@.len() == 12 && "chuck_c"@.len() == 7 && "yield_pct"@.len() == 9
        && "via"@.len() == 3);
    assert("lot"@[0] == 'l');
    assert("via"@[0] == 'v');
    let f = Map::<Seq<char>, JsonView>::empty()
        .insert("lot"@, JsonView::Str(lot))
        .insert("prober"@, JsonView::Str(prober))
        .insert("wafer"@, JsonView::Uint(w.wafer as u64))
        .insert("contact_mohm"@, JsonView::Real(w.contact_mohm.json@))
        .insert("chuck_c"@, JsonView::Real(w.chuck_c.json@))
        .insert("yield_pct"@, JsonView::Real(w.yield_pct.json@))
        .insert("via"@, JsonView::Str("http"@));
    assert(wafer_record(lot, prober, w) == json_keyed(lot, JsonView::Object(f)));
}

/// A lot makes one record for each wafer, in their order.
pub proof fn a_lot_makes_a_record_for_each_wafer(lot: Lot)
    ensures
        lot_records(lot).len() == lot.wafers@.len(),
        forall|i: int|
            0 <= i < lot.wafers@.len() ==> #[trigger] lot_records(lot)[i] == wafer_record(
                lot.lot@,
                lot.prober@,
                lot.wafers@[i],
            ),
{
}

/// An upload that is no lot is answered as a bad request, with the reason,
/// and told of.
pub proof fn what_is_no_lot_is_rejected(e: String, now: i64)
    ensures
        rejection_of(Err(e), now) matches Some(r) && r.reply == (ReplyView {
            status: 400,
            body: "rejected: "@ + ("not a lot: "@ + e@),
        }),
        exists|f: Map<Seq<char>, JsonView>|
            #![trigger metric_view("st01"@, "rejected"@, Some(now), f)]
            {
                &&& rejection_of(Err(e), now)->0.metric
                    == metric_view("st01"@, "rejected"@, Some(now), f)
                &&& f["n"@] == JsonView::Uint(1)
                &&& f["reason"@] == JsonView::Str("not a lot: "@ + e@)
            },
{
    reveal_strlit("n");
    reveal_strlit("reason");
    assert("n"@.len() == 1 && "reason"@.len() == 6);
    let f = Map::<Seq<char>, JsonView>::empty()
        .insert("n"@, JsonView::Uint(1))
        .insert("reason"@, JsonView::Str("not a lot: "@ + e@));
    assert(rejection_of(Err(e), now)->0.metric == metric_view("st01"@, "rejected"@, Some(now), f));
}

/// A lot that something is wrong with is answered as a bad request, with what
/// is wrong, and told of with its id and its prober. One that nothing is
/// wrong with is not turned away.
pub proof fn a_faulty_lot_is_rejected(lot: Lot, now: i64)
    ensures
        rejection_of(Ok(lot), now) is Some <==> lot_fault(lot) is Some,
        rejection_of(Ok(lot), now) matches Some(r) ==> r.reply == (ReplyView {
            status: 400,
            body: "rejected: "@ + lot_fault(lot)->0,
        }),
        lot_fault(lot) is Some ==>
            exists|f: Map<Seq<char>, JsonView>|
                #![trigger metric_view("st01"@, "rejected"@, Some(now), f)]
                {
                    &&& rejection_of(Ok(lot), now)->0.metric
                        == metric_view("st01"@, "rejected"@, Some(now), f)
                    &&& f["n"@] == JsonView::Uint(1)
                    &&& f["reason"@] == JsonView::Str(lot_fault(lot)->0)
                    &&& f["lot"@] == JsonView::Str(lot.lot@)
                    &&& f["prober"@] == JsonView::Str(lot.prober@)
                },
{
    reveal_strlit("n");
    reveal_strlit("reason");
    reveal_strlit("lot");
    reveal_strlit("prober");
    assert("n"@.len() == 1 && "reason"@.len() == 6 && "lot"@.len() == 3 && "prober"@.len() == 6);
    assert("reason"@[0] == 'r');
    assert("prober"@[0] == 'p');
    if lot_fault(lot) is Some {
        let f = Map::<Seq<char>, JsonView>::empty()
            .insert("n"@, JsonView::Uint(1))
            .insert("reason"@, JsonView::Str(lot_fault(lot)->0))
            .insert("lot"@, JsonView::Str(lot.lot@))
            .insert("prober"@, JsonView::Str(lot.prober@));
        assert(rejection_of(Ok(lot), now)->0.metric
            == metric_view("st01"@, "rejected"@, Some(now), f));
    }
}

// ---------------------------------------------------------------------------
// What was sent

/// How many records of a batch were taken.
pub open spec fn how_many_taken(outcomes: Seq<Result<(), KafkaError>>) -> nat {
    how_many(outcomes.len(), |i: int| outcomes[i] is Ok)
}

/// The records that were taken are those whose outcome is no error.
pub proof fn what_is_taken_is_counted(outcomes: Seq<Result<(), KafkaError>>)
    ensures
        taken_count(outcomes) == how_many_taken(outcomes),
        taken_count(outcomes) <= outcomes.len(),
    decreases outcomes.len(),
{
    reveal(Seq::filter);
    if outcomes.len() > 0 {
        let rest = outcomes.drop_last();
        what_is_taken_is_counted(rest);
        let all = |i: int| outcomes[i] is Ok;
        let of_rest = |i: int| rest[i] is Ok;
        assert forall|i: int| 0 <= i < rest.len() implies #[trigger] all(i) == of_rest(i) by {
            assert(rest[i] == outcomes[i]);
        }
        lemma_how_many(rest.len(), all, of_rest);
        assert(how_many(outcomes.len(), all) == how_many(rest.len(), all) + if all(
            outcomes.len() - 1,
        ) {
            1nat
        } else {
            0nat
        });
    }
}

/// A batch that was sent is answered with a line per record: `ok`, or the
/// code of its error. One that was not is answered under the status that is
/// given for it, with the code of the error.
pub proof fn an_answer_has_a_line_per_record(
    sent: Result<Vec<Result<(), KafkaError>>, KafkaError>,
    failed: u16,
    i: int,
)
    ensures
        sent matches Ok(outcomes) ==> {
            let lines = outcome_lines(outcomes@);
            &&& sent_reply(sent, failed).status == 200
            &&& sent_reply(sent, failed).body == joined(lines, "\n"@)
            &&& lines.len() == outcomes@.len()
            &&& 0 <= i < lines.len() && outcomes@[i] is Ok ==> lines[i] == "ok"@
            &&& 0 <= i < lines.len() && outcomes@[i] is Err ==> lines[i]
                == outcomes@[i]->Err_0.code@
        },
        sent matches Err(e) ==> {
            &&& sent_reply(sent, failed).status == failed
            &&& sent_reply(sent, failed).body == "send-batch failed: "@ + e.code@
        },
{
}

/// A lot that was sent is told of with how many of its wafers were taken, and
/// its latency with how many were not.
pub proof fn a_sent_lot_is_reported(
    lot: Lot,
    outcomes: Vec<Result<(), KafkaError>>,
    latency_ms: u64,
    now: i64,
)
    requires
        lot.wafers@.len() <= u64::MAX,
        outcomes@.len() == lot.wafers@.len(),
    ensures
        lot_metrics(lot, Ok(outcomes), latency_ms, now).len() == 2,
        ({
            let ok = how_many_taken(outcomes@) as u64;
            exists|f: Map<Seq<char>, JsonView>|
                #![trigger metric_view("st01"@, "produced"@, Some(now), f)]
                {
                    &&& lot_metrics(lot, Ok(outcomes), latency_ms, now)[0]
                        == metric_view("st01"@, "produced"@, Some(now), f)
                    &&& f["topic"@] == JsonView::Str("probe.lots"@)
                    &&& f["n"@] == JsonView::Uint(ok)
                    &&& f["lot"@] == JsonView::Str(lot.lot@)
                    &&& f["prober"@] == JsonView::Str(lot.prober@)
                    &&& f["wafers"@] == JsonView::Uint(lot.wafers@.len() as u64)
                }
        }),
        ({
            let ok = how_many_taken(outcomes@) as u64;
            exists|f: Map<Seq<char>, JsonView>|
                #![trigger metric_view("st01"@, "latency"@, Some(now), f)]
                {
                    &&& lot_metrics(lot, Ok(outcomes), latency_ms, now)[1]
                        == metric_view("st01"@, "latency"@, Some(now), f)
                    &&& f["ms"@] == JsonView::Uint(latency_ms)
                    &&& f["batch"@] == JsonView::Uint(lot.wafers@.len() as u64)
                    &&& f["errors"@] == JsonView::Uint((lot.wafers@.len() - ok) as u64)
                }
        }),
{
    reveal_strlit("topic");
    reveal_strlit("n");
    reveal_strlit("lot");
    reveal_strlit("prober");
    reveal_strlit("wafers");
    reveal_strlit("ms");
    reveal_strlit("batch");
    reveal_strlit("errors");
    assert("topic"@.len() == 5 && "n"@.len() == 1 && "lot"@.len() == 3 && "prober"@.len() == 6
        && "wafers"@.len() == 6 && "ms"@.len() == 2 && "batch"@.len() == 5
        && "errors"@.len() == 6);
    assert("topic"@[0] == 't');
    assert("batch"@[0] == 'b');
    assert("prober"@[0] == 'p');
    assert("wafers"@[0] == 'w');
    assert("errors"@[0] == 'e');
    what_is_taken_is_counted(outcomes@);
    let ok = how_many_taken(outcomes@) as u64;
    let f = Map::<Seq<char>, JsonView>::empty()
        .insert("topic"@, JsonView::Str("probe.lots"@))
        .insert("n"@, JsonView::Uint(ok))
        .insert("lot"@, JsonView::Str(lot.lot@))
        .insert("prober"@, JsonView::Str(lot.prober@))
        .insert("wafers"@, JsonView::Uint(lot.wafers@.len() as u64));
    assert(lot_metrics(lot, Ok(outcomes), latency_ms, now)[0]
        == metric_view("st01"@, "produced"@, Some(now), f));
    let g = Map::<Seq<char>, JsonView>::empty()
        .insert("ms"@, JsonView::Uint(latency_ms))
        .insert("batch"@, JsonView::Uint(lot.wafers@.len() as u64))
        .insert("errors"@, JsonView::Uint((lot.wafers@.len() - ok) as u64));
    assert(lot_metrics(lot, Ok(outcomes), latency_ms, now)[1]
        == metric_view("st01"@, "latency"@, Some(now), g));
}

/// A lot that could not be sent is told of as a fault, with the code of the
/// error.
pub proof fn a_lot_that_is_not_sent_is_a_fault(lot: Lot, e: KafkaError, latency_ms: u64, now: i64)
    ensures
        lot_metrics(lot, Err(e), latency_ms, now).len() == 1,
        exists|f: Map<Seq<char>, JsonView>|
            #![trigger metric_view("st01"@, "fault"@, Some(now), f)]
            {
                &&& lot_metrics(lot, Err(e), latency_ms, now)[0]
                    == metric_view("st01"@, "fault"@, Some(now), f)
                &&& f["reason"@] == JsonView::Str("send-batch failed: "@ + e.code@)
                &&& f["lot"@] == JsonView::Str(lot.lot@)
            },
{
    reveal_strlit("reason");
    reveal_strlit("lot");
    assert("reason"@.len() == 6 && "lot"@.len() == 3);
    let f = Map::<Seq<char>, JsonView>::empty()
        .insert("reason"@, JsonView::Str("send-batch failed: "@ + e.code@))
        .insert("lot"@, JsonView::Str(lot.lot@));
    assert(lot_metrics(lot, Err(e), latency_ms, now)[0]
        == metric_view("st01"@, "fault"@, Some(now), f));
}

// ---------------------------------------------------------------------------
// Synthetic batches

/// A parameter is there where a name is; where it is there more than once,
/// the last one counts.
pub proof fn the_last_of_a_parameter_counts(pairs: Seq<(Seq<char>, Seq<char>)>, i: int)
    requires
        0 <= i < pairs.len(),
        forall|j: int| i < j < pairs.len() ==> (#[trigger] pairs[j]).0 != pairs[i].0,
    ensures
        params_of(pairs).dom().contains(pairs[i].0),
        params_of(pairs)[pairs[i].0] == pairs[i].1,
    decreases pairs.len(),
{
    if i < pairs.len() - 1 {
        let rest = pairs.drop_last();
        assert(rest[i] == pairs[i]);
        assert forall|j: int| i < j < rest.len() implies (#[trigger] rest[j]).0 != rest[i].0 by {
            assert(rest[j] == pairs[j]);
        }
        assert(pairs[pairs.len() - 1].0 != pairs[i].0);
        the_last_of_a_parameter_counts(rest, i);
    }
}

/// No parameter is there that no name is.
pub proof fn a_parameter_has_its_name(pairs: Seq<(Seq<char>, Seq<char>)>, name: Seq<char>)
    requires
        params_of(pairs).dom().contains(name),
    ensures
        exists|i: int| 0 <= i < pairs.len() && (#[trigger] pairs[i]).0 == name,
    decreases pairs.len(),
{
    if pairs.len() > 0 {
        if pairs.last().0 == name {
            assert(pairs[pairs.len() - 1].0 == name);
        } else {
            let rest = pairs.drop_last();
            a_parameter_has_its_name(rest, name);
            let i = choose|i: int| 0 <= i < rest.len() && (#[trigger] rest[i]).0 == name;
            assert(pairs[i].0 == name);
        }
    }
}

/// The count that parameters ask for: what they write under `count`, and a
/// hundred where they write nothing.
pub open spec fn count_asked(params: Map<Seq<char>, Seq<char>>) -> Option<usize> {
    if params.dom().contains("count"@) {
        usize_of(params["count"@])
    } else {
        Some(100)
    }
}

/// The size that parameters ask for: what they write under `size`, and 64
/// where they write nothing.
pub open spec fn size_asked(params: Map<Seq<char>, Seq<char>>) -> Option<usize> {
    if params.dom().contains("size"@) {
        usize_of(params["size"@])
    } else {
        Some(64)
    }
}

/// A batch is made exactly where its count is from 1 to 10000, its size up to
/// a mebibyte, and the two together up to 16 mebibytes; it then has that
/// count and that size. Any other is a bad request, and the count is looked
/// at first.
pub proof fn a_batch_is_made_within_its_limits(params: Map<Seq<char>, Seq<char>>)
    ensures
        ({
            let count_in = count_asked(params) matches Some(n) && 1 <= n <= 10000;
            let size_in = size_asked(params) matches Some(n) && n <= 1024 * 1024;
            let both_in = count_asked(params)->0 * size_asked(params)->0 <= 16 * 1024 * 1024;
            &&& request_of(params) is Ok <==> count_in && size_in && both_in
            &&& request_of(params) matches Ok(b) ==> Some(b.count) == count_asked(params)
                && Some(b.size) == size_asked(params)
            &&& !count_in ==> request_of(params) == Err::<BatchRequest, ReplyView>(
                ReplyView { status: 400, body: "count must be between 1 and 10000"@ },
            )
            &&& count_in && !size_in ==> request_of(params) == Err::<BatchRequest, ReplyView>(
                ReplyView { status: 400, body: "size must be between 0 and 1048576"@ },
            )
            &&& count_in && size_in && !both_in ==> (request_of(params) matches Err(r) && r.status
                == 400)
        }),
{
}

/// A batch has as many records as it counts, under keys that count from zero,
/// each of so many bytes, all of them the letter `x`.
pub proof fn a_batch_is_of_its_count_and_size(b: BatchRequest, i: int)
    requires
        0 <= i < b.count,
    ensures
        synthetic_records(b).len() == b.count,
        exists|bytes: Seq<u8>|
            {
                &&& synthetic_records(b)[i] == #[trigger] keyed("k"@ + decimal(i as nat), bytes)
                &&& bytes.len() == b.size
                &&& forall|j: int| 0 <= j < bytes.len() ==> bytes[j] == 0x78
            },
{
    let bytes = Seq::new(b.size as nat, |j: int| 120u8);
    assert(synthetic_records(b)[i] == keyed("k"@ + decimal(i as nat), bytes));
}

} // verus!
