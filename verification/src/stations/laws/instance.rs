//! What holds of every instance of a station, and of the twin of final test.

use vstd::prelude::*;

use crate::json::{int_view, JsonView};
use crate::kafka::{
    commit_failed, metric_view, opt_bytes, opt_lossy, ConsumedRecord, HandlerErrorView, KafkaError,
    PartitionCommit,
};
use crate::stations::instance::{
    failure_metric, first_offset, id_from, is_due, last_offset, last_time, opening, partition_of,
    raised, redelivered, verdict_on,
};
use crate::stations::twin::{
    batch_metrics, is_commit_outcome, is_first_error, next_step, setting_of, stepped, Step,
};
use crate::text::{decimal, decimal_reads_back, hex_reads_back, hex_value, usize_of};

verus! {

// ---------------------------------------------------------------------------
// Batches

/// A batch is of the partition of its first record, starts at the offset of
/// that record, ends at that of its last, and is of the time of its last.
pub proof fn a_batch_is_of_its_records(records: Seq<ConsumedRecord>)
    ensures
        records.len() == 0 ==> first_offset(records) is None && last_offset(records) is None
            && partition_of(records) is None && last_time(records) is None,
        records.len() > 0 ==> {
            &&& first_offset(records) == Some(records[0].offset)
            &&& last_offset(records) == Some(records[records.len() - 1].offset)
            &&& partition_of(records) == Some(records[0].partition as i64)
            &&& last_time(records) == records[records.len() - 1].timestamp
        },
{
}

/// A batch that nothing failed in is handled. One that something failed in is
/// handled through the offset before the failure, and where nothing stands
/// before it the failure is for good, for its reason.
pub proof fn a_batch_is_answered_by_what_was_handled(
    handled: Option<i64>,
    failure: Option<Seq<char>>,
)
    ensures
        failure is None ==> verdict_on(handled, failure) == Ok::<Option<i64>, HandlerErrorView>(
            None,
        ),
        failure is Some && handled is Some ==> verdict_on(handled, failure) == Ok::<
            Option<i64>,
            HandlerErrorView,
        >(handled),
        failure is Some && handled is None ==> verdict_on(handled, failure) == Err::<
            Option<i64>,
            HandlerErrorView,
        >(HandlerErrorView::Permanent(failure)),
{
}

/// A batch that was handled in part is told of with the offset it was handled
/// through, the partition of the record that failed, and the reason.
pub proof fn a_partial_batch_is_told_of(
    station: Seq<char>,
    subject: Seq<char>,
    offset: i64,
    reason: Seq<char>,
    rec: ConsumedRecord,
)
    ensures
        exists|f: Map<Seq<char>, JsonView>|
            #![trigger metric_view(station, "partial"@, rec.timestamp, f)]
            {
                &&& failure_metric(station, subject, Some(offset), reason, rec)
                    == metric_view(station, "partial"@, rec.timestamp, f)
                &&& f["offset"@] == int_view(offset)
                &&& f["partition"@] == int_view(rec.partition as i64)
                &&& f["reason"@] == JsonView::Str(reason)
            },
{
    reveal_strlit("offset");
    reveal_strlit("partition");
    reveal_strlit("reason");
    assert("offset"@.len() == 6 && "partition"@.len() == 9 && "reason"@.len() == 6);
    assert("offset"@[0] == 'o');
    assert("reason"@[0] == 'r');
    let f = Map::<Seq<char>, JsonView>::empty()
        .insert("offset"@, int_view(offset))
        .insert("partition"@, int_view(rec.partition as i64))
        .insert("reason"@, JsonView::Str(reason));
    assert(failure_metric(station, subject, Some(offset), reason, rec)
        == metric_view(station, "partial"@, rec.timestamp, f));
}

/// A record that is given up is told of as one, with the reason, with its key
/// under the name that the station has for it, and with where it came from.
pub proof fn a_record_given_up_is_told_of(
    station: Seq<char>,
    subject: Seq<char>,
    reason: Seq<char>,
    rec: ConsumedRecord,
)
    requires
        subject != "n"@,
        subject != "reason"@,
        subject != "origin"@,
    ensures
        exists|f: Map<Seq<char>, JsonView>, place: Map<Seq<char>, JsonView>|
            #![trigger metric_view(station, "dlq"@, rec.timestamp, f), place.dom()]
            {
                &&& failure_metric(station, subject, None, reason, rec) == metric_view(
                    station,
                    "dlq"@,
                    rec.timestamp,
                    f,
                )
                &&& f["n"@] == JsonView::Uint(1)
                &&& f["reason"@] == JsonView::Str(reason)
                &&& f["origin"@] == JsonView::Object(place)
                &&& f[subject] == match opt_lossy(opt_bytes(rec.key)) {
                    Some(k) => JsonView::Str(k),
                    None => JsonView::Null,
                }
                &&& place["topic"@] == JsonView::Str(rec.topic@)
                &&& place["partition"@] == int_view(rec.partition as i64)
                &&& place["offset"@] == int_view(rec.offset)
            },
{
    reveal_strlit("n");
    reveal_strlit("reason");
    reveal_strlit("origin");
    reveal_strlit("topic");
    reveal_strlit("partition");
    reveal_strlit("offset");
    assert("n"@.len() == 1 && "reason"@.len() == 6 && "origin"@.len() == 6 && "topic"@.len() == 5
        && "partition"@.len() == 9 && "offset"@.len() == 6);
    assert("reason"@[0] == 'r');
    assert("origin"@[0] == 'o');
    assert("offset"@[0] == 'o');
    assert("origin"@[1] == 'r');
    assert("offset"@[1] == 'f');
    let place = Map::<Seq<char>, JsonView>::empty()
        .insert("topic"@, JsonView::Str(rec.topic@))
        .insert("partition"@, int_view(rec.partition as i64))
        .insert("offset"@, int_view(rec.offset));
    let f = Map::<Seq<char>, JsonView>::empty()
        .insert("n"@, JsonView::Uint(1))
        .insert("reason"@, JsonView::Str(reason))
        .insert(subject, crate::json::opt_text_view(opt_lossy(opt_bytes(rec.key))))
        .insert("origin"@, JsonView::Object(place));
    assert(place.dom() =~= place.dom());
    assert(failure_metric(station, subject, None, reason, rec) == metric_view(
        station,
        "dlq"@,
        rec.timestamp,
        f,
    ));
}

/// A batch starts with the heartbeat of its instance where one is due, and
/// then with how many of its records were delivered before, from which offset
/// of which partition on, where any were.
pub proof fn a_batch_opens_with_what_is_due(
    station: Seq<char>,
    id: Seq<char>,
    fresh: bool,
    due: bool,
    again: u64,
    records: Seq<ConsumedRecord>,
)
    requires
        records.len() > 0,
    ensures
        opening(station, id, fresh, due, again, records).len() == if due {
            1int
        } else {
            0int
        } + if again > 0 {
            1int
        } else {
            0int
        },
        due ==>
            exists|f: Map<Seq<char>, JsonView>|
                #![trigger metric_view(station, "instance"@, records.last().timestamp, f)]
                {
                    &&& opening(station, id, fresh, due, again, records)[0]
                        == metric_view(station, "instance"@, records.last().timestamp, f)
                    &&& f["id"@] == JsonView::Str(id)
                    &&& f["fresh"@] == JsonView::Bool(fresh)
                },
        again > 0 ==>
            exists|f: Map<Seq<char>, JsonView>|
                #![trigger metric_view(station, "redelivered"@, records.last().timestamp, f)]
                {
                    &&& opening(station, id, fresh, due, again, records)[if due { 1 } else { 0 }]
                        == metric_view(station, "redelivered"@, records.last().timestamp, f)
                    &&& f["n"@] == JsonView::Uint(again)
                    &&& f["partition"@] == int_view(records[0].partition as i64)
                    &&& f["offset"@] == int_view(records[0].offset)
                },
{
    reveal_strlit("id");
    reveal_strlit("fresh");
    reveal_strlit("n");
    reveal_strlit("partition");
    reveal_strlit("offset");
    assert("id"@.len() == 2 && "fresh"@.len() == 5 && "n"@.len() == 1 && "partition"@.len() == 9
        && "offset"@.len() == 6);
    if due {
        let f = Map::<Seq<char>, JsonView>::empty()
            .insert("id"@, JsonView::Str(id))
            .insert("fresh"@, JsonView::Bool(fresh));
        assert(opening(station, id, fresh, due, again, records)[0]
            == metric_view(station, "instance"@, records.last().timestamp, f));
    }
    if again > 0 {
        let f = Map::<Seq<char>, JsonView>::empty()
            .insert("n"@, JsonView::Uint(again))
            .insert("partition"@, int_view(records[0].partition as i64))
            .insert("offset"@, int_view(records[0].offset));
        assert(opening(station, id, fresh, due, again, records)[if due { 1 } else { 0 }]
            == metric_view(station, "redelivered"@, records.last().timestamp, f));
    }
}

/// A mark only moves up, and to the last offset where that is above it.
pub proof fn a_mark_moves_up(seen: Option<i64>, last: i64)
    ensures
        raised(seen, last) >= last,
        seen matches Some(s) ==> raised(seen, last) >= s && (raised(seen, last) == s || raised(
            seen,
            last,
        ) == last),
        seen is None ==> raised(seen, last) == last && redelivered(seen, last, last) == 0,
{
}

/// A heartbeat is due at once for a new instance, and then from ten seconds
/// of record time after the last one on.
pub proof fn a_heartbeat_is_due_after_ten_seconds(last: i64, fresh: bool, ts: i64)
    requires
        i64::MIN <= ts - last <= i64::MAX,
    ensures
        is_due(last, fresh, Some(ts)) <==> fresh || ts - last >= 10 * 1000,
{
}

/// The id of an instance is the name of its station, a hyphen and eight
/// hexadecimal digits, which write the low half of the number it was minted
/// from.
pub proof fn an_id_ends_in_eight_digits(station: Seq<char>, random: u64)
    ensures
        ({
            let id = id_from(station, random);
            let n = station.len() as int;
            &&& id.len() == n + 9
            &&& id.take(n) == station
            &&& id[n] == '-'
            &&& hex_value(id.skip(n + 1)) == random as int % 0x1_0000_0000
        }),
{
    let low = (random % 0x1_0000_0000) as nat;
    hex_reads_back(low, 8);
    reveal_strlit("-");
    let id = id_from(station, random);
    let n = station.len() as int;
    assert(id.take(n) =~= station);
    assert(id.skip(n + 1) =~= crate::text::hex(low, 8));
    assert(vstd::arithmetic::power::pow(16, 8) == 0x1_0000_0000) by {
        reveal_with_fuel(vstd::arithmetic::power::pow, 9);
    }
}

// ---------------------------------------------------------------------------
// The twin

/// A setting is taken as it is written where that is a number from one up,
/// and no further than it may go. Zero, what is no number, and nothing stand
/// for the default.
pub proof fn a_setting_is_taken_as_written(text: Seq<char>, n: usize, default: usize, max: usize)
    ensures
        n > 0 ==> setting_of(Some(decimal(n as nat)), default, max) == if n <= max {
            n
        } else {
            max
        },
        default <= max ==> {
            &&& setting_of(None, default, max) == default
            &&& setting_of(Some(decimal(0)), default, max) == default
            &&& usize_of(text) is None ==> setting_of(Some(text), default, max) == default
        },
{
    decimal_reads_back(n);
    decimal_reads_back(0);
}

/// The twin tells of a batch how many records it had and how many of them
/// were malformed, and what went to each of its two topics; and where it is
/// the last of so many, that it commits behind how many.
pub proof fn the_twin_reports_its_batch(
    n: nat,
    dispositions: u64,
    malformed: u64,
    ts: Option<i64>,
    out_topic: Seq<char>,
    moves_topic: Seq<char>,
    since: usize,
    every: usize,
)
    ensures
        batch_metrics(n, dispositions, malformed, ts, out_topic, moves_topic, since, every).len()
            == if since >= every {
            4int
        } else {
            3int
        },
        exists|f: Map<Seq<char>, JsonView>|
            #![trigger metric_view("st06twin"@, "consumed"@, ts, f)]
            {
                &&& batch_metrics(n, dispositions, malformed, ts, out_topic, moves_topic, since, every)[0]
                    == metric_view("st06twin"@, "consumed"@, ts, f)
                &&& f["n"@] == JsonView::Uint(n as u64)
                &&& f["malformed"@] == JsonView::Uint(malformed)
            },
        exists|f: Map<Seq<char>, JsonView>|
            #![trigger metric_view("st06twin"@, "produced"@, ts, f)]
            {
                &&& batch_metrics(n, dispositions, malformed, ts, out_topic, moves_topic, since, every)[1]
                    == metric_view("st06twin"@, "produced"@, ts, f)
                &&& f["topic"@] == JsonView::Str(out_topic)
                &&& f["n"@] == JsonView::Uint(dispositions)
            },
        exists|f: Map<Seq<char>, JsonView>|
            #![trigger metric_view("st06twin"@, "produced"@, ts, f)]
            {
                &&& batch_metrics(n, dispositions, malformed, ts, out_topic, moves_topic, since, every)[2]
                    == metric_view("st06twin"@, "produced"@, ts, f)
                &&& f["topic"@] == JsonView::Str(moves_topic)
                &&& f["n"@] == JsonView::Uint(dispositions)
            },
        since >= every ==>
            exists|f: Map<Seq<char>, JsonView>|
                #![trigger metric_view("st06twin"@, "commit"@, ts, f)]
                {
                    &&& batch_metrics(n, dispositions, malformed, ts, out_topic, moves_topic, since, every)[3]
                        == metric_view("st06twin"@, "commit"@, ts, f)
                    &&& f["batches"@] == JsonView::Uint(since as u64)
                },
{
    reveal_strlit("n");
    reveal_strlit("malformed");
    reveal_strlit("topic");
    reveal_strlit("batches");
    assert("n"@.len() == 1 && "malformed"@.len() == 9 && "topic"@.len() == 5
        && "batches"@.len() == 7);
    let f = Map::<Seq<char>, JsonView>::empty()
        .insert("n"@, JsonView::Uint(n as u64))
        .insert("malformed"@, JsonView::Uint(malformed));
    assert(batch_metrics(n, dispositions, malformed, ts, out_topic, moves_topic, since, every)[0]
        == metric_view("st06twin"@, "consumed"@, ts, f));
    let g = Map::<Seq<char>, JsonView>::empty()
        .insert("topic"@, JsonView::Str(out_topic))
        .insert("n"@, JsonView::Uint(dispositions));
    assert(batch_metrics(n, dispositions, malformed, ts, out_topic, moves_topic, since, every)[1]
        == metric_view("st06twin"@, "produced"@, ts, g));
    let h = Map::<Seq<char>, JsonView>::empty()
        .insert("topic"@, JsonView::Str(moves_topic))
        .insert("n"@, JsonView::Uint(dispositions));
    assert(batch_metrics(n, dispositions, malformed, ts, out_topic, moves_topic, since, every)[2]
        == metric_view("st06twin"@, "produced"@, ts, h));
    if since >= every {
        let k = Map::<Seq<char>, JsonView>::empty().insert("batches"@, JsonView::Uint(since as u64));
        assert(batch_metrics(n, dispositions, malformed, ts, out_topic, moves_topic, since, every)[3]
            == metric_view("st06twin"@, "commit"@, ts, k));
    }
}

/// The twin sends its dispositions, then its moves, and then its metrics. It
/// commits behind the last of so many batches, starts counting anew where
/// that succeeds, and counts on behind any other.
pub proof fn the_twin_takes_its_steps_in_order(
    results: Seq<Result<(), String>>,
    since: usize,
    every: usize,
)
    requires
        forall|i: int| 0 <= i < results.len() && i != 2 ==> (#[trigger] results[i]) is Ok,
    ensures
        results.len() == 0 ==> stepped(results, since, every) is SendDispositions,
        results.len() == 1 ==> stepped(results, since, every) is SendMoves,
        results.len() == 2 ==> stepped(results, since, every) is Report,
        since < every && results.len() >= 3 ==> stepped(results, since, every) == Step::Done(since),
        since >= every && results.len() == 3 ==> stepped(results, since, every) is Commit,
        since >= every && results.len() >= 4 ==> stepped(results, since, every) == Step::Done(0),
    decreases results.len(),
{
    if results.len() > 0 {
        let rest = results.drop_last();
        assert forall|i: int| 0 <= i < rest.len() && i != 2 implies (#[trigger] rest[i]) is Ok by {
            assert(results[i] is Ok);
        }
        if results.len() != 3 {
            assert(results[results.len() - 1] is Ok);
        }
        the_twin_takes_its_steps_in_order(rest, since, every);
    }
}

/// Where dispositions, moves or a commit fail, the twin exits, for the reason
/// that the step gave.
pub proof fn the_twin_exits_on_a_failure(step: Step, why: String, since: usize, every: usize)
    requires
        step is SendDispositions || step is SendMoves || step is Commit,
    ensures
        next_step(step, Err(why), since, every) == Step::Exit(why),
{
}

/// A commit of the twin ends the session where it fails, unless that is that
/// there was nothing to commit. The reason is the error of the whole, or names
/// the first error that a partition tells.
pub proof fn a_commit_of_the_twin_is_judged_by_its_errors(
    r: Result<Vec<PartitionCommit>, KafkaError>,
    out: Result<(), String>,
    i: int,
)
    requires
        is_commit_outcome(r, out),
    ensures
        r matches Err(e) ==> {
            &&& out is Ok <==> e.code@ == "NoOffset"@
            &&& out matches Err(why) ==> why@ == "commit: "@ + e.message@
        },
        r matches Ok(results) ==> {
            &&& out is Ok <==> forall|k: int|
                0 <= k < results@.len() ==> ((#[trigger] results@[k]).error is None
                    || results@[k].error->0@ == "NoOffset"@)
            &&& out matches Err(why) ==> (0 <= i < results@.len() && results@[i].error is Some && (
            forall|j: int| 0 <= j < i ==> (#[trigger] results@[j]).error is None) ==> why@
                == "commit failed on a partition: Some("@ + results@[i].error->0@ + ")"@)
        },
{
    if let Ok(results) = r {
        if out is Ok {
            assert forall|k: int| 0 <= k < results@.len() implies ((
            #[trigger] results@[k]).error is None || results@[k].error->0@ == "NoOffset"@) by {
                assert(!commit_failed(results@[k]));
            }
        } else {
            let k = choose|k: int| 0 <= k < results@.len() && commit_failed(#[trigger] results@[k]);
            assert(!(results@[k].error is None || results@[k].error->0@ == "NoOffset"@));
            let why = out->Err_0;
            let f = choose|f: int|
                is_first_error(results@, f) && why@ == "commit failed on a partition: Some("@
                    + results@[f].error->0@ + ")"@;
            if 0 <= i < results@.len() && results@[i].error is Some && (forall|j: int|
                0 <= j < i ==> (#[trigger] results@[j]).error is None) {
                if i < f {
                    assert(results@[i].error is None);
                }
                if f < i {
                    assert(results@[f].error is None);
                }
            }
        }
    }
}

} // verus!
