//! What the handler stations share: the instance they run in, and the verdict
//! on a batch.

use vstd::prelude::*;
use vstd::string::*;

use crate::json::{
    int_view, opt_int_view, opt_text, opt_text_view, Fields, Json, JsonView,
};
use crate::kafka::{
    lemma_produce_views_push, lossy_opt, metric, metric_view, opt_bytes, opt_lossy,
    produce_views, verdict_view, ConsumedRecord, HandlerError, HandlerErrorView, ProduceRecord, ProduceView,
};
use crate::ordered_map::OrderedMap;
use crate::random::random_number;
use crate::text::{hex, hex_text};

verus! {

broadcast use vstd::string::group_string_axioms;

/// How long a heartbeat of an instance holds, in milliseconds of record time.
pub const HEARTBEAT_MS: i64 = 10_000;

// ---------------------------------------------------------------------------
// The batch

/// The offset of the first record of a batch.
pub open spec fn first_offset(records: Seq<ConsumedRecord>) -> Option<i64> {
    if records.len() == 0 {
        None
    } else {
        Some(records[0].offset)
    }
}

/// The offset of the last record of a batch.
pub open spec fn last_offset(records: Seq<ConsumedRecord>) -> Option<i64> {
    if records.len() == 0 {
        None
    } else {
        Some(records.last().offset)
    }
}

/// The partition of a batch.
pub open spec fn partition_of(records: Seq<ConsumedRecord>) -> Option<i64> {
    if records.len() == 0 {
        None
    } else {
        Some(records[0].partition as i64)
    }
}

/// The time of the last record of a batch.
pub open spec fn last_time(records: Seq<ConsumedRecord>) -> Option<i64> {
    if records.len() == 0 {
        None
    } else {
        records.last().timestamp
    }
}

/// The offset of the first record of a batch.
pub fn offset_of_first(records: &Vec<ConsumedRecord>) -> (r: Option<i64>)
    ensures
        r == first_offset(records@),
{
    if records.len() == 0 {
        None
    } else {
        Some(records[0].offset)
    }
}

/// The offset of the last record of a batch.
pub fn offset_of_last(records: &Vec<ConsumedRecord>) -> (r: Option<i64>)
    ensures
        r == last_offset(records@),
{
    let n = records.len();
    if n == 0 {
        None
    } else {
        Some(records[n - 1].offset)
    }
}

/// The partition of a batch.
pub fn batch_partition(records: &Vec<ConsumedRecord>) -> (r: Option<i64>)
    ensures
        r == partition_of(records@),
{
    if records.len() == 0 {
        None
    } else {
        Some(records[0].partition as i64)
    }
}

/// The time of the last record of a batch.
pub fn time_of_last(records: &Vec<ConsumedRecord>) -> (r: Option<i64>)
    ensures
        r == last_time(records@),
{
    let n = records.len();
    if n == 0 {
        None
    } else {
        records[n - 1].timestamp
    }
}

// ---------------------------------------------------------------------------
// The instance

/// The id that a random number gives an instance of a station: eight
/// hexadecimal digits behind the station's name.
pub open spec fn id_from(station: Seq<char>, random: u64) -> Seq<char> {
    station + "-"@ + hex((random % 0x1_0000_0000) as nat, 8)
}

/// The id of this instance, minted from a random number the first time it is
/// asked for, and whether it is new.
pub fn instance_id_from(slot: &mut Option<String>, station: &str, random: u64) -> (r: (String, bool))
    ensures
        match *old(slot) {
            Some(id) => r.0@ == id@ && !r.1 && *final(slot) == *old(slot),
            None => r.0@ == id_from(station@, random) && r.1 && opt_text(*final(slot)) == Some(
                r.0@,
            ),
        },
{
    match slot {
        Some(id) => (id.clone(), false),
        None => {
            let mut id = station.to_owned();
            id.append("-");
            id.append(hex_text(random % 0x1_0000_0000, 8).as_str());
            *slot = Some(id.clone());
            (id, true)
        },
    }
}

/// The id of this instance, minted the first time it is asked for, and
/// whether it is new.
pub fn instance_id(slot: &mut Option<String>, station: &str, salt: u64) -> (r: (String, bool))
    ensures
        match *old(slot) {
            Some(id) => r.0@ == id@ && !r.1 && *final(slot) == *old(slot),
            None => r.1 && opt_text(*final(slot)) == Some(r.0@) && exists|random: u64|
                r.0@ == #[trigger] id_from(station@, random),
        },
{
    if slot.is_some() {
        instance_id_from(slot, station, 0)
    } else {
        instance_id_from(slot, station, random_number(salt))
    }
}

/// Whether an instance is due to report itself at a time.
pub open spec fn is_due(last: i64, fresh: bool, ts: Option<i64>) -> bool {
    fresh || crate::json::or_else(ts, 0).wrapping_sub(last) >= HEARTBEAT_MS
}

/// Whether the instance is due to report itself: when it is new, and then
/// whenever ten seconds of record time have passed. It is taken to do so.
pub fn heartbeat_due(last: &mut i64, fresh: bool, ts: Option<i64>) -> (r: bool)
    ensures
        r == is_due(*old(last), fresh, ts),
        *final(last) == if r {
            crate::json::or_else(ts, 0)
        } else {
            *old(last)
        },
{
    let now: i64 = match ts {
        Some(t) => t,
        None => 0,
    };
    if fresh || now.wrapping_sub(*last) >= HEARTBEAT_MS {
        *last = now;
        true
    } else {
        false
    }
}

/// A heartbeat holds for ten seconds: none is due before, and one is due then.
pub proof fn heartbeats_are_ten_seconds_apart(last: i64, now: i64)
    requires
        i64::MIN <= now - last <= i64::MAX,
    ensures
        is_due(last, false, Some(now)) <==> now - last >= HEARTBEAT_MS,
        is_due(last, true, Some(now)),
{
}

// ---------------------------------------------------------------------------
// Redelivery

/// How many records of a batch were handled before, by the offset that its
/// partition was handled through.
pub open spec fn redelivered(seen: Option<i64>, first: i64, last: i64) -> u64 {
    match seen {
        Some(s) => if first <= s {
            let up_to_mark = s.wrapping_sub(first).wrapping_add(1);
            let all = last.wrapping_sub(first).wrapping_add(1);
            let n = if up_to_mark < all {
                up_to_mark
            } else {
                all
            };
            if n < 0 {
                0
            } else {
                n as u64
            }
        } else {
            0
        },
        None => 0,
    }
}

/// The offset that a partition was handled through.
pub open spec fn mark_of(marks: Map<i32, i64>, partition: i32) -> Option<i64> {
    if marks.dom().contains(partition) {
        Some(marks[partition])
    } else {
        None
    }
}

/// The mark of a partition after a batch of it: it only moves up.
pub open spec fn raised(seen: Option<i64>, last: i64) -> i64 {
    match seen {
        Some(s) => if s > last {
            s
        } else {
            last
        },
        None => last,
    }
}

/// Counts the records of a batch that lie at or below the mark of their
/// partition, and raises the mark.
pub fn note_redelivery(marks: &mut OrderedMap<i32, i64>, partition: i32, first: i64, last: i64) -> (n:
    u64)
    ensures
        n == redelivered(mark_of(old(marks)@, partition), first, last),
        final(marks)@ == old(marks)@.insert(
            partition,
            raised(mark_of(old(marks)@, partition), last),
        ),
{
    let seen: Option<i64> = match marks.get(&partition) {
        Some(s) => Some(*s),
        None => None,
    };
    let mark: i64 = match seen {
        Some(s) => if s > last {
            s
        } else {
            last
        },
        None => last,
    };
    marks.insert(partition, mark);
    match seen {
        Some(s) => {
            if first <= s {
                let up_to_mark = s.wrapping_sub(first).wrapping_add(1);
                let all = last.wrapping_sub(first).wrapping_add(1);
                let n = if up_to_mark < all {
                    up_to_mark
                } else {
                    all
                };
                if n < 0 {
                    0
                } else {
                    n as u64
                }
            } else {
                0
            }
        },
        None => 0,
    }
}

/// Of the offsets of a batch exactly those count as redelivered that lie at
/// or below the mark.
pub proof fn redelivered_are_those_up_to_the_mark(seen: i64, first: i64, last: i64)
    requires
        first <= last,
        last - first < i64::MAX,
        seen - first < i64::MAX,
    ensures
        redelivered(Some(seen), first, last) == vstd::set_lib::set_int_range(
            first as int,
            last + 1,
        ).filter(|o: int| o <= seen).len(),
        redelivered(None, first, last) == 0,
        redelivered(Some(seen), first, last) <= last - first + 1,
{
    let top: int = if seen < last {
        seen as int
    } else {
        last as int
    };
    let those = vstd::set_lib::set_int_range(first as int, last + 1).filter(|o: int| o <= seen);
    if first <= seen {
        assert(those =~= vstd::set_lib::set_int_range(first as int, top + 1));
        vstd::set_lib::lemma_int_range(first as int, top + 1);
    } else {
        assert(those =~= vstd::set_lib::set_int_range(first as int, first as int));
        vstd::set_lib::lemma_int_range(first as int, first as int);
    }
}

// ---------------------------------------------------------------------------
// The verdict

/// Why a decoding failed, where it did.
pub open spec fn fault_in<T>(r: Result<T, String>) -> Option<Seq<char>> {
    match r {
        Ok(_) => None,
        Err(e) => Some(e@),
    }
}

/// What a handler answers for a batch. A record that failed is dead-lettered
/// where it stands at the head; behind others the work done on those is kept,
/// and the rest is delivered again.
pub open spec fn verdict_on(handled: Option<i64>, failure: Option<Seq<char>>) -> Result<
    Option<i64>,
    HandlerErrorView,
> {
    match failure {
        None => Ok(None),
        Some(reason) => match handled {
            Some(offset) => Ok(Some(offset)),
            None => Err(HandlerErrorView::Permanent(Some(reason))),
        },
    }
}

/// Where a record came from.
pub open spec fn origin_object(rec: ConsumedRecord) -> JsonView {
    JsonView::Object(
        Map::empty().insert("topic"@, JsonView::Str(rec.topic@)).insert(
            "partition"@,
            int_view(rec.partition as i64),
        ).insert("offset"@, int_view(rec.offset)),
    )
}

/// The metric of a failure: that a batch was handled in part, or that its
/// head is dead-lettered.
pub open spec fn failure_metric(
    station: Seq<char>,
    subject: Seq<char>,
    handled: Option<i64>,
    reason: Seq<char>,
    rec: ConsumedRecord,
) -> ProduceView {
    match handled {
        Some(offset) => metric_view(
            station,
            "partial"@,
            rec.timestamp,
            Map::empty().insert("offset"@, int_view(offset)).insert(
                "partition"@,
                int_view(rec.partition as i64),
            ).insert("reason"@, JsonView::Str(reason)),
        ),
        None => metric_view(
            station,
            "dlq"@,
            rec.timestamp,
            Map::empty().insert("n"@, JsonView::Uint(1)).insert(
                "reason"@,
                JsonView::Str(reason),
            ).insert(subject, opt_text_view(opt_lossy(opt_bytes(rec.key)))).insert(
                "origin"@,
                origin_object(rec),
            ),
        ),
    }
}

/// Where a record came from.
pub fn origin_json(rec: &ConsumedRecord) -> (r: Json)
    ensures
        r@ == origin_object(*rec),
{
    let mut f = Fields::new();
    f.put("topic", Json::text(rec.topic.as_str()));
    f.put("partition", Json::whole(rec.partition as i64));
    f.put("offset", Json::whole(rec.offset));
    Json::Object(f)
}

/// The metric of a failure.
pub fn report_failure(
    station: &str,
    subject: &str,
    handled: Option<i64>,
    reason: &str,
    rec: &ConsumedRecord,
) -> (r: ProduceRecord)
    ensures
        r@ == failure_metric(station@, subject@, handled, reason@, *rec),
{
    let mut f = Fields::new();
    match handled {
        Some(offset) => {
            f.put("offset", Json::whole(offset));
            f.put("partition", Json::whole(rec.partition as i64));
            f.put("reason", Json::text(reason));
            metric(station, "partial", rec.timestamp, &f)
        },
        None => {
            f.put("n", Json::Uint(1));
            f.put("reason", Json::text(reason));
            f.put(subject, Json::opt_text(&lossy_opt(&rec.key)));
            f.put("origin", origin_json(rec));
            metric(station, "dlq", rec.timestamp, &f)
        },
    }
}

/// What a handler answers for a batch.
pub fn conclude(handled: Option<i64>, failure: Option<String>) -> (r: Result<
    Option<i64>,
    HandlerError,
>)
    ensures
        verdict_view(r) == verdict_on(handled, opt_text(failure)),
{
    match failure {
        None => Ok(None),
        Some(reason) => match handled {
            Some(offset) => Ok(Some(offset)),
            None => Err(HandlerError::Permanent(Some(reason))),
        },
    }
}

// ---------------------------------------------------------------------------
// What a batch starts with

/// The metrics that a batch starts with: that the instance is there, if that
/// is due, and that records were delivered again, if any were.
pub open spec fn opening(
    station: Seq<char>,
    id: Seq<char>,
    fresh: bool,
    due: bool,
    again: u64,
    records: Seq<ConsumedRecord>,
) -> Seq<ProduceView> {
    let ts = last_time(records);
    let a: Seq<ProduceView> = if due {
        seq![
            metric_view(
                station,
                "instance"@,
                ts,
                Map::empty().insert("id"@, JsonView::Str(id)).insert(
                    "fresh"@,
                    JsonView::Bool(fresh),
                ),
            ),
        ]
    } else {
        Seq::empty()
    };
    if again > 0 {
        a.push(
            metric_view(
                station,
                "redelivered"@,
                ts,
                Map::empty().insert("n"@, JsonView::Uint(again)).insert(
                    "partition"@,
                    opt_int_view(partition_of(records)),
                ).insert("offset"@, opt_int_view(first_offset(records))),
            ),
        )
    } else {
        a
    }
}

/// The metrics that a batch starts with.
pub fn open_batch(
    station: &str,
    id: &str,
    fresh: bool,
    due: bool,
    again: u64,
    records: &Vec<ConsumedRecord>,
) -> (r: Vec<ProduceRecord>)
    ensures
        produce_views(r@) == opening(station@, id@, fresh, due, again, records@),
{
    let ts = time_of_last(records);
    let mut r: Vec<ProduceRecord> = Vec::new();
    let ghost none: Seq<ProduceView> = Seq::empty();
    assert(produce_views(r@) =~= none);
    if due {
        let mut f = Fields::new();
        f.put("id", Json::text(id));
        f.put("fresh", Json::Bool(fresh));
        let m = metric(station, "instance", ts, &f);
        proof {
            lemma_produce_views_push(r@, m);
            assert(none.push(m@) =~= seq![m@]);
        }
        r.push(m);
    }
    if again > 0 {
        let mut f = Fields::new();
        f.put("n", Json::Uint(again));
        f.put("partition", Json::opt_int(batch_partition(records)));
        f.put("offset", Json::opt_int(offset_of_first(records)));
        let m = metric(station, "redelivered", ts, &f);
        proof {
            lemma_produce_views_push(r@, m);
        }
        r.push(m);
    }
    r
}

} // verus!
