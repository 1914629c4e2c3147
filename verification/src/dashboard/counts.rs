//! What the line is told of itself: every count that is served is what was
//! reported, over any run of records from the start.

use vstd::prelude::*;

use super::fold::{count_of, Computed};
use super::handle::{ledger_read, recorded};
use super::laws::lemma_folded_station;
use super::model::{
    empty_ledger, new_model, station_of, LedgerView, ModelView,
    StationView,
};
use super::serve::{state_object, validate_object, Rates};
use crate::json::{field, parsed_json, JsonView};
use crate::kafka::ConsumedRecord;

verus! {

// ---------------------------------------------------------------------------
// Runs

/// A record that came, the time it came at, and what was worked out for it.
pub struct Heard {
    pub rec: ConsumedRecord,
    pub now: i64,
    pub c: Computed,
}

/// The model after a run of records.
pub open spec fn told(started: i64, run: Seq<Heard>) -> ModelView
    decreases run.len(),
{
    if run.len() == 0 {
        new_model(started)
    } else {
        let h = run.last();
        recorded(told(started, run.drop_last()), h.rec, h.now, h.c)
    }
}

/// The JSON value of a record on a topic.
pub open spec fn said_on(h: Heard, topic: Seq<char>) -> Option<JsonView> {
    if h.rec.topic@ == topic {
        match h.rec.value {
            Some(bytes) => match parsed_json(bytes@) {
                Ok(v) => Some(v),
                Err(_) => None,
            },
            None => None,
        }
    } else {
        None
    }
}

/// Whether a record is a metric of a kind of a station.
pub open spec fn is_metric(h: Heard, station: Seq<char>, kind: Seq<char>) -> bool {
    match said_on(h, "line.metrics"@) {
        Some(v) => field(v, "station"@) == Some(JsonView::Str(station)) && field(v, "kind"@)
            == Some(JsonView::Str(kind)),
        None => false,
    }
}

/// The number that a metric tells.
pub open spec fn number_told(h: Heard) -> u64 {
    match field(said_on(h, "line.metrics"@)->0, "n"@) {
        Some(JsonView::Uint(n)) => n,
        _ => 0,
    }
}

/// The sum of the numbers in a station's metrics of a kind.
pub open spec fn reported(run: Seq<Heard>, station: Seq<char>, kind: Seq<char>) -> nat
    decreases run.len(),
{
    if run.len() == 0 {
        0
    } else {
        reported(run.drop_last(), station, kind) + if is_metric(run.last(), station, kind) {
            number_told(run.last()) as nat
        } else {
            0nat
        }
    }
}

/// How many metrics of a kind a station made.
pub open spec fn metrics_made(run: Seq<Heard>, station: Seq<char>, kind: Seq<char>) -> nat
    decreases run.len(),
{
    if run.len() == 0 {
        0
    } else {
        metrics_made(run.drop_last(), station, kind) + if is_metric(run.last(), station, kind) {
            1nat
        } else {
            0nat
        }
    }
}

/// What the simulator says it put on a topic.
pub open spec fn put_on(run: Seq<Heard>, topic: Seq<char>) -> nat
    decreases run.len(),
{
    if run.len() == 0 {
        0
    } else {
        let h = run.last();
        put_on(run.drop_last(), topic) + if is_metric(h, "sim"@, "produced"@) && field(
            said_on(h, "line.metrics"@)->0,
            "topic"@,
        ) == Some(JsonView::Str(topic)) {
            number_told(h) as nat
        } else {
            0nat
        }
    }
}

/// How many records came on a topic.
pub open spec fn came_on(run: Seq<Heard>, topic: Seq<char>) -> nat
    decreases run.len(),
{
    if run.len() == 0 {
        0
    } else {
        came_on(run.drop_last(), topic) + if run.last().rec.topic@ == topic {
            1nat
        } else {
            0nat
        }
    }
}

/// A number as 64 bits count it.
pub open spec fn in_64_bits(n: nat) -> u64 {
    (n % 0x1_0000_0000_0000_0000) as u64
}

proof fn lemma_in_64_bits(n: nat, x: u64)
    ensures
        in_64_bits(n + x as nat) == in_64_bits(n).wrapping_add(x),
{
}

// ---------------------------------------------------------------------------
// One record

proof fn lemma_topics_differ()
    ensures
        "line.metrics"@ != "lot.disposition"@,
        "line.metrics"@ != "lot.disposition.twin"@,
        "lot.disposition"@ != "lot.disposition.twin"@,
        "line.metrics"@ != "dieattach.dlq"@,
        "line.metrics"@ != "wirebond.dlq"@,
        "line.metrics"@ != "inspect.dlq"@,
        "line.metrics"@ != "mold.dlq"@,
        "lot.disposition"@ != "dieattach.dlq"@,
        "lot.disposition"@ != "wirebond.dlq"@,
        "lot.disposition"@ != "inspect.dlq"@,
        "lot.disposition"@ != "mold.dlq"@,
        "lot.disposition.twin"@ != "dieattach.dlq"@,
        "lot.disposition.twin"@ != "wirebond.dlq"@,
        "lot.disposition.twin"@ != "inspect.dlq"@,
        "lot.disposition.twin"@ != "mold.dlq"@,
        "dieattach.dlq"@ != "wirebond.dlq"@,
        "dieattach.dlq"@ != "inspect.dlq"@,
        "dieattach.dlq"@ != "mold.dlq"@,
        "wirebond.dlq"@ != "inspect.dlq"@,
        "wirebond.dlq"@ != "mold.dlq"@,
        "inspect.dlq"@ != "mold.dlq"@,
{
    reveal_strlit("line.metrics");
    reveal_strlit("lot.disposition");
    reveal_strlit("lot.disposition.twin");
    reveal_strlit("dieattach.dlq");
    reveal_strlit("wirebond.dlq");
    reveal_strlit("inspect.dlq");
    reveal_strlit("mold.dlq");
    assert("line.metrics"@.len() == 12 && "lot.disposition"@.len() == 15
        && "lot.disposition.twin"@.len() == 20 && "dieattach.dlq"@.len() == 13
        && "wirebond.dlq"@.len() == 12 && "inspect.dlq"@.len() == 11 && "mold.dlq"@.len() == 8);
    assert("line.metrics"@[0] == 'l');
    assert("wirebond.dlq"@[0] == 'w');
}

proof fn lemma_stations_differ()
    ensures
        "st02"@ != "st03"@,
        "st02"@ != "st04"@,
        "st02"@ != "st05"@,
        "st03"@ != "st04"@,
        "st03"@ != "st05"@,
        "st04"@ != "st05"@,
        "st06"@ != "st02"@,
        "st06"@ != "st03"@,
        "st06"@ != "st04"@,
        "st06"@ != "st05"@,
        "st06twin"@ != "st02"@,
        "st06twin"@ != "st03"@,
        "st06twin"@ != "st04"@,
        "st06twin"@ != "st05"@,
        "st06twin"@ != "st06"@,
        "st01"@ != "st02"@,
        "st01"@ != "st03"@,
        "st01"@ != "st04"@,
        "st01"@ != "st05"@,
        "st01"@ != "st06"@,
        "st01"@ != "st06twin"@,
        "st01"@ != "sim"@,
        "st02"@ != "sim"@,
        "st03"@ != "sim"@,
        "st04"@ != "sim"@,
        "st05"@ != "sim"@,
        "st06"@ != "sim"@,
        "st06twin"@ != "sim"@,
        "st01"@ != "ops"@,
        "st02"@ != "ops"@,
        "st03"@ != "ops"@,
        "st04"@ != "ops"@,
        "st05"@ != "ops"@,
        "st06"@ != "ops"@,
        "st06twin"@ != "ops"@,
        "st01"@ != "line"@,
        "st02"@ != "line"@,
        "st03"@ != "line"@,
        "st04"@ != "line"@,
        "st05"@ != "line"@,
        "st06"@ != "line"@,
        "st06twin"@ != "line"@,
        "sim"@ != "ops"@,
        "sim"@ != "line"@,
{
    reveal_strlit("st01");
    reveal_strlit("st02");
    reveal_strlit("st03");
    reveal_strlit("st04");
    reveal_strlit("st05");
    reveal_strlit("st06");
    reveal_strlit("st06twin");
    reveal_strlit("sim");
    reveal_strlit("ops");
    reveal_strlit("line");
    assert("st01"@.len() == 4 && "st02"@.len() == 4 && "st03"@.len() == 4 && "st04"@.len() == 4
        && "st05"@.len() == 4 && "st06"@.len() == 4 && "st06twin"@.len() == 8 && "sim"@.len() == 3
        && "ops"@.len() == 3 && "line"@.len() == 4);
    assert("st01"@[3] == '1');
    assert("st02"@[3] == '2');
    assert("st03"@[3] == '3');
    assert("st04"@[3] == '4');
    assert("st05"@[3] == '5');
    assert("st06"@[3] == '6');
    assert("st01"@[0] == 's');
    assert("line"@[0] == 'l');
    assert("st02"@[0] == 's');
    assert("st03"@[0] == 's');
    assert("st04"@[0] == 's');
    assert("st05"@[0] == 's');
    assert("st06"@[0] == 's');
    assert("sim"@[0] == 's');
    assert("ops"@[0] == 'o');
}

proof fn lemma_kinds_differ()
    ensures
        "consumed"@ != "produced"@,
        "consumed"@ != "redelivered"@,
        "consumed"@ != "replayed"@,
        "consumed"@ != "partial"@,
        "produced"@ != "redelivered"@,
        "produced"@ != "replayed"@,
        "produced"@ != "partial"@,
        "redelivered"@ != "replayed"@,
        "redelivered"@ != "partial"@,
        "replayed"@ != "partial"@,
        "consumed"@ != ""@,
        "produced"@ != ""@,
        "redelivered"@ != ""@,
        "replayed"@ != ""@,
        "partial"@ != ""@,
        "latency"@ != "redelivered"@,
        "latency"@ != "replayed"@,
        "latency"@ != "partial"@,
        "rejected"@ != "redelivered"@,
        "rejected"@ != "replayed"@,
        "rejected"@ != "partial"@,
        "instance"@ != "redelivered"@,
        "instance"@ != "replayed"@,
        "instance"@ != "partial"@,
        "sim"@ != "produced"@,
{
    reveal_strlit("consumed");
    reveal_strlit("produced");
    reveal_strlit("redelivered");
    reveal_strlit("replayed");
    reveal_strlit("partial");
    reveal_strlit("latency");
    reveal_strlit("rejected");
    reveal_strlit("instance");
    reveal_strlit("sim");
    reveal_strlit("");
    assert("consumed"@.len() == 8 && "produced"@.len() == 8 && "redelivered"@.len() == 11
        && "replayed"@.len() == 8 && "partial"@.len() == 7 && "latency"@.len() == 7
        && "rejected"@.len() == 8 && "instance"@.len() == 8 && "sim"@.len() == 3
        && ""@.len() == 0);
    assert("consumed"@[0] == 'c');
    assert("produced"@[0] == 'p');
    assert("replayed"@[0] == 'r');
    assert("rejected"@[0] == 'r');
    assert("instance"@[0] == 'i');
    assert("replayed"@[2] == 'p');
    assert("rejected"@[2] == 'j');
    assert("partial"@[0] == 'p');
    assert("latency"@[0] == 'l');
}

/// The dead-letter topic of a station, where it has one.
pub open spec fn dead_letter_topic(id: Seq<char>) -> Option<Seq<char>> {
    if id == "st02"@ {
        Some("dieattach.dlq"@)
    } else if id == "st03"@ {
        Some("wirebond.dlq"@)
    } else if id == "st04"@ {
        Some("inspect.dlq"@)
    } else if id == "st05"@ {
        Some("mold.dlq"@)
    } else {
        None
    }
}

/// `n` where something holds, and otherwise nothing.
pub open spec fn where_so(so: bool, n: u64) -> u64 {
    if so {
        n
    } else {
        0
    }
}

/// A record adds to the counts of a station what it says: a metric of the
/// station the number it tells, and a dead letter of the station one.
pub proof fn a_record_adds_what_it_says(m: ModelView, h: Heard, id: Seq<char>)
    requires
        id != "sim"@,
        id != "ops"@,
        id != "line"@,
    ensures
        ({
            let was = station_of(m, id);
            let after = station_of(recorded(m, h.rec, h.now, h.c), id);
            let n = number_told(h);
            &&& after.consumed == was.consumed.wrapping_add(
                where_so(is_metric(h, id, "consumed"@), n),
            )
            &&& after.produced == was.produced.wrapping_add(
                where_so(is_metric(h, id, "produced"@), n),
            )
            &&& after.redelivered == was.redelivered.wrapping_add(
                where_so(is_metric(h, id, "redelivered"@), n),
            )
            &&& after.replayed == was.replayed.wrapping_add(
                where_so(is_metric(h, id, "replayed"@), n),
            )
            &&& after.partial == was.partial.wrapping_add(
                where_so(is_metric(h, id, "partial"@), 1),
            )
            &&& after.dlq == was.dlq.wrapping_add(
                where_so(Some(h.rec.topic@) == dead_letter_topic(id), 1),
            )
        }),
{
    lemma_topics_differ();
    let m1 = ModelView { samples: super::handle::resampled(m.samples, h.rec), ..m };
    assert(station_of(m1, id) == station_of(m, id));
    if h.rec.topic@ == "line.metrics"@ {
        match super::handle::value_in(crate::kafka::opt_bytes(h.rec.value)) {
            Some(v) => {
                assert(said_on(h, "line.metrics"@) == Some(v));
                lemma_metric_adds(m1, v, h.rec.timestamp, h.now, h.c, id);
                lemma_kinds_differ();
                assert(is_metric(h, id, "consumed"@) == tells(v, id, "consumed"@));
                assert(is_metric(h, id, "produced"@) == tells(v, id, "produced"@));
                assert(is_metric(h, id, "redelivered"@) == tells(v, id, "redelivered"@));
                assert(is_metric(h, id, "replayed"@) == tells(v, id, "replayed"@));
                assert(is_metric(h, id, "partial"@) == tells(v, id, "partial"@));
            },
            None => {},
        }
    } else {
        lemma_other_topics_add(m1, h, id);
    }
}

/// Whether a value is a metric of a kind of a station.
spec fn tells(v: JsonView, station: Seq<char>, kind: Seq<char>) -> bool {
    field(v, "station"@) == Some(JsonView::Str(station)) && field(v, "kind"@) == Some(
        JsonView::Str(kind),
    )
}

proof fn lemma_station_counts(
    st: StationView,
    station: Seq<char>,
    kind: Seq<char>,
    ts: i64,
    n: u64,
    v: JsonView,
    now: i64,
    c: Computed,
)
    ensures
        ({
            let after = super::fold::station_after(st, station, kind, ts, n, v, now, c);
            &&& after.consumed == st.consumed.wrapping_add(where_so(kind == "consumed"@, n))
            &&& after.produced == st.produced.wrapping_add(where_so(kind == "produced"@, n))
            &&& after.redelivered == st.redelivered.wrapping_add(
                where_so(kind == "redelivered"@, n),
            )
            &&& after.replayed == st.replayed.wrapping_add(where_so(kind == "replayed"@, n))
            &&& after.partial == st.partial.wrapping_add(where_so(kind == "partial"@, 1))
            &&& after.dlq == st.dlq
        }),
{
    lemma_kinds_differ();
}

proof fn lemma_metric_adds(
    m: ModelView,
    v: JsonView,
    timestamp: Option<i64>,
    now: i64,
    c: Computed,
    id: Seq<char>,
)
    requires
        id != "sim"@,
        id != "ops"@,
        id != "line"@,
    ensures
        ({
            let was = station_of(m, id);
            let after = station_of(super::fold::folded(m, v, timestamp, now, c), id);
            let n = match field(v, "n"@) {
                Some(JsonView::Uint(n)) => n,
                _ => 0u64,
            };
            &&& after.consumed == was.consumed.wrapping_add(
                where_so(tells(v, id, "consumed"@), n),
            )
            &&& after.produced == was.produced.wrapping_add(
                where_so(tells(v, id, "produced"@), n),
            )
            &&& after.redelivered == was.redelivered.wrapping_add(
                where_so(tells(v, id, "redelivered"@), n),
            )
            &&& after.replayed == was.replayed.wrapping_add(
                where_so(tells(v, id, "replayed"@), n),
            )
            &&& after.partial == was.partial.wrapping_add(where_so(tells(v, id, "partial"@), 1))
            &&& after.dlq == was.dlq
        }),
{
    lemma_kinds_differ();
    lemma_folded_station(m, v, timestamp, now, c, id);
    let kind = super::fold::kind_of(v);
    let ts = super::fold::metric_time(v, timestamp, now);
    let was = station_of(m, id);
    if id == super::fold::reporter(v) {
        lemma_station_counts(
            StationView { last_seen: super::fold::later(ts, was.last_seen), ..was },
            id,
            kind,
            ts,
            super::fold::amount(v, "n"@),
            v,
            now,
            c,
        );
        assert(field(v, "station"@) == Some(JsonView::Str(id)));
        assert(kind != ""@ ==> field(v, "kind"@) == Some(JsonView::Str(kind)));
    } else {
        assert(field(v, "station"@) != Some(JsonView::Str(id)));
    }
}

proof fn lemma_other_topics_add(m: ModelView, h: Heard, id: Seq<char>)
    requires
        h.rec.topic@ != "line.metrics"@,
    ensures
        ({
            let was = station_of(m, id);
            let after = station_of(recorded(m, h.rec, h.now, h.c), id);
            after == (StationView {
                dlq: was.dlq.wrapping_add(
                    where_so(Some(h.rec.topic@) == dead_letter_topic(id), 1),
                ),
                faults: after.faults,
                dead_letters: after.dead_letters,
                ..was
            })
        }),
{
    lemma_topics_differ();
    lemma_stations_differ();
}

/// A record adds to what the simulator put on a topic what it says it did.
pub proof fn a_record_adds_what_was_put_on_a_topic(m: ModelView, h: Heard, topic: Seq<char>)
    requires
        topic != "?"@,
    ensures
        count_of(recorded(m, h.rec, h.now, h.c).sim_produced, topic) == count_of(
            m.sim_produced,
            topic,
        ).wrapping_add(
            where_so(
                is_metric(h, "sim"@, "produced"@) && field(
                    said_on(h, "line.metrics"@)->0,
                    "topic"@,
                ) == Some(JsonView::Str(topic)),
                number_told(h),
            ),
        ),
{
    lemma_topics_differ();
    lemma_stations_differ();
    lemma_kinds_differ();
    reveal_strlit("");
    let m1 = ModelView { samples: super::handle::resampled(m.samples, h.rec), ..m };
    if h.rec.topic@ == "line.metrics"@ {
        match super::handle::value_in(crate::kafka::opt_bytes(h.rec.value)) {
            Some(v) => {
                assert(said_on(h, "line.metrics"@) == Some(v));
                lemma_stations_keep_sim(m1, v, h.rec.timestamp, h.now, h.c);
            },
            None => {},
        }
    }
}

proof fn lemma_presses_keep_sim(
    m: ModelView,
    station: Seq<char>,
    ts: i64,
    presses: Seq<JsonView>,
    drifts: Seq<Seq<char>>,
)
    ensures
        super::fold::presses_reported(m, station, ts, presses, drifts).sim_produced
            == m.sim_produced,
        super::fold::presses_reported(m, station, ts, presses, drifts).ledger == m.ledger,
        super::fold::presses_reported(m, station, ts, presses, drifts).twin == m.twin,
        super::fold::presses_reported(m, station, ts, presses, drifts).metrics_records
            == m.metrics_records,
        super::fold::presses_reported(m, station, ts, presses, drifts).unparsed == m.unparsed,
    decreases presses.len(),
{
    if presses.len() > 0 {
        lemma_presses_keep_sim(m, station, ts, presses.drop_last(), drifts);
    }
}

proof fn lemma_stations_keep_sim(
    m: ModelView,
    v: JsonView,
    timestamp: Option<i64>,
    now: i64,
    c: Computed,
)
    ensures
        super::fold::reporter(v) != "sim"@ ==> super::fold::folded(
            m,
            v,
            timestamp,
            now,
            c,
        ).sim_produced == m.sim_produced,
        super::fold::folded(m, v, timestamp, now, c).ledger == m.ledger,
        super::fold::folded(m, v, timestamp, now, c).twin == m.twin,
        super::fold::folded(m, v, timestamp, now, c).metrics_records
            == m.metrics_records.wrapping_add(1),
        super::fold::folded(m, v, timestamp, now, c).unparsed == m.unparsed,
{
    let station = super::fold::reporter(v);
    let kind = super::fold::kind_of(v);
    let ts = super::fold::metric_time(v, timestamp, now);
    let n = super::fold::amount(v, "n"@);
    let m1 = ModelView { metrics_records: m.metrics_records.wrapping_add(1), ..m };
    if station != "sim"@ && station != "ops"@ {
        let was = station_of(m1, station);
        let st = super::fold::station_after(
            StationView { last_seen: super::fold::later(ts, was.last_seen), ..was },
            station,
            kind,
            ts,
            n,
            v,
            now,
            c,
        );
        let m2 = super::model::with_station(m1, station, st);
        match crate::json::list_field(v, "presses"@) {
            Some(presses) => {
                lemma_presses_keep_sim(m2, station, ts, presses, crate::text::texts(c.drifts@));
            },
            None => {},
        }
    }
}

// ---------------------------------------------------------------------------
// Counts

/// Over any run of records, what is counted for a station is the sum of what
/// its metrics tell, and of its dead letters how many came.
pub proof fn a_station_is_counted_by_what_it_reports(started: i64, run: Seq<Heard>, id: Seq<char>)
    requires
        id != "sim"@,
        id != "ops"@,
        id != "line"@,
    ensures
        ({
            let st = station_of(told(started, run), id);
            &&& st.consumed == in_64_bits(reported(run, id, "consumed"@))
            &&& st.produced == in_64_bits(reported(run, id, "produced"@))
            &&& st.redelivered == in_64_bits(reported(run, id, "redelivered"@))
            &&& st.replayed == in_64_bits(reported(run, id, "replayed"@))
            &&& st.partial == in_64_bits(metrics_made(run, id, "partial"@))
            &&& st.dlq == match dead_letter_topic(id) {
                Some(topic) => in_64_bits(came_on(run, topic)),
                None => 0,
            }
        }),
    decreases run.len(),
{
    if run.len() > 0 {
        let rest = run.drop_last();
        let h = run.last();
        a_station_is_counted_by_what_it_reports(started, rest, id);
        a_record_adds_what_it_says(told(started, rest), h, id);
        let n = number_told(h);
        lemma_in_64_bits(
            reported(rest, id, "consumed"@),
            where_so(is_metric(h, id, "consumed"@), n),
        );
        lemma_in_64_bits(
            reported(rest, id, "produced"@),
            where_so(is_metric(h, id, "produced"@), n),
        );
        lemma_in_64_bits(
            reported(rest, id, "redelivered"@),
            where_so(is_metric(h, id, "redelivered"@), n),
        );
        lemma_in_64_bits(
            reported(rest, id, "replayed"@),
            where_so(is_metric(h, id, "replayed"@), n),
        );
        lemma_in_64_bits(
            metrics_made(rest, id, "partial"@),
            where_so(is_metric(h, id, "partial"@), 1),
        );
        match dead_letter_topic(id) {
            Some(topic) => {
                lemma_in_64_bits(came_on(rest, topic), where_so(h.rec.topic@ == topic, 1));
            },
            None => {},
        }
    }
}

/// Over any run of records, what is counted as put on a topic is the sum of
/// what the simulator says it put there.
pub proof fn a_topic_is_counted_by_what_was_put_on_it(
    started: i64,
    run: Seq<Heard>,
    topic: Seq<char>,
)
    requires
        topic != "?"@,
    ensures
        count_of(told(started, run).sim_produced, topic) == in_64_bits(put_on(run, topic)),
    decreases run.len(),
{
    if run.len() > 0 {
        let rest = run.drop_last();
        let h = run.last();
        a_topic_is_counted_by_what_was_put_on_it(started, rest, topic);
        a_record_adds_what_was_put_on_a_topic(told(started, rest), h, topic);
        lemma_in_64_bits(
            put_on(rest, topic),
            where_so(
                is_metric(h, "sim"@, "produced"@) && field(
                    said_on(h, "line.metrics"@)->0,
                    "topic"@,
                ) == Some(JsonView::Str(topic)),
                number_told(h),
            ),
        );
    }
}

// ---------------------------------------------------------------------------
// What is served

/// Whether what is served of a station balances with a run: what was put on
/// its input topic, what it consumed, what of it was dead-lettered, and what
/// it put out.
pub open spec fn balances(served: JsonView, run: Seq<Heard>, id: Seq<char>, topic: Seq<char>) -> bool {
    &&& field(served, "input_topic"@) == Some(JsonView::Str(topic))
    &&& field(served, "produced"@) == Some(JsonView::Uint(in_64_bits(put_on(run, topic))))
    &&& field(served, "consumed"@) == Some(
        JsonView::Uint(in_64_bits(reported(run, id, "consumed"@))),
    )
    &&& field(served, "dlq"@) == Some(
        JsonView::Uint(
            match dead_letter_topic(id) {
                Some(dlq) => in_64_bits(came_on(run, dlq)),
                None => 0,
            },
        ),
    )
    &&& field(served, "redelivered"@) == Some(
        JsonView::Uint(in_64_bits(reported(run, id, "redelivered"@))),
    )
    &&& field(served, "replayed"@) == Some(
        JsonView::Uint(in_64_bits(reported(run, id, "replayed"@))),
    )
    &&& field(served, "partial"@) == Some(
        JsonView::Uint(in_64_bits(metrics_made(run, id, "partial"@))),
    )
    &&& field(served, "outputs"@) == Some(
        JsonView::Uint(in_64_bits(reported(run, id, "produced"@))),
    )
}

proof fn lemma_served_station(m: ModelView, id: Seq<char>, topic: Seq<char>)
    ensures
        ({
            let v = super::serve::validation_of(m, id, topic);
            let st = station_of(m, id);
            &&& field(v, "input_topic"@) == Some(JsonView::Str(topic))
            &&& field(v, "produced"@) == Some(JsonView::Uint(count_of(m.sim_produced, topic)))
            &&& field(v, "consumed"@) == Some(JsonView::Uint(st.consumed))
            &&& field(v, "dlq"@) == Some(JsonView::Uint(st.dlq))
            &&& field(v, "redelivered"@) == Some(JsonView::Uint(st.redelivered))
            &&& field(v, "replayed"@) == Some(JsonView::Uint(st.replayed))
            &&& field(v, "partial"@) == Some(JsonView::Uint(st.partial))
            &&& field(v, "outputs"@) == Some(JsonView::Uint(st.produced))
        }),
{
    reveal_strlit("input_topic");
    reveal_strlit("produced");
    reveal_strlit("consumed");
    reveal_strlit("dlq");
    reveal_strlit("redelivered");
    reveal_strlit("replayed");
    reveal_strlit("partial");
    reveal_strlit("outputs");
    assert("input_topic"@.len() == 11 && "produced"@.len() == 8 && "consumed"@.len() == 8
        && "dlq"@.len() == 3 && "redelivered"@.len() == 11 && "replayed"@.len() == 8
        && "partial"@.len() == 7 && "outputs"@.len() == 7);
    assert("input_topic"@[0] == 'i');
    assert("redelivered"@[0] == 'r');
    assert("produced"@[0] == 'p');
    assert("consumed"@[0] == 'c');
    assert("replayed"@[0] == 'r');
    assert("partial"@[0] == 'p');
    assert("outputs"@[0] == 'o');
}

/// What is served for validation balances: over any run of records, for each
/// station, what was produced is what the simulator says it put on the
/// station's input topic, what was consumed is the sum of what the station
/// says it consumed, what was dead-lettered is how many records came on its
/// dead-letter topic, and the outputs are the sum of what it says it produced.
/// For the probe intake what came over HTTP counts as produced too.
pub proof fn validation_balances_with_what_was_reported(started: i64, run: Seq<Heard>)
    ensures
        ({
            let v = validate_object(told(started, run));
            let stations = field(v, "stations"@);
            let of = |id: Seq<char>| field(stations->0, id);
            &&& stations is Some
            &&& of("st02"@) is Some && balances(of("st02"@)->0, run, "st02"@, "dieattach.readings"@)
            &&& of("st03"@) is Some && balances(of("st03"@)->0, run, "st03"@, "wirebond.raw"@)
            &&& of("st04"@) is Some && balances(of("st04"@)->0, run, "st04"@, "inspect.jobs"@)
            &&& of("st05"@) is Some && balances(of("st05"@)->0, run, "st05"@, "mold.telemetry"@)
            &&& of("st06"@) is Some && balances(of("st06"@)->0, run, "st06"@, "finaltest.bins"@)
            &&& of("st06twin"@) is Some
                && balances(of("st06twin"@)->0, run, "st06twin"@, "finaltest.bins"@)
            &&& of("st01"@) is Some
            &&& field(of("st01"@)->0, "input_topic"@) == Some(JsonView::Str("probe.lots"@))
            &&& field(of("st01"@)->0, "produced"@) == Some(
                JsonView::Uint(
                    in_64_bits(put_on(run, "probe.lots"@) + reported(run, "st01"@, "produced"@)),
                ),
            )
            &&& field(of("st01"@)->0, "produced_by_simulator"@) == Some(
                JsonView::Uint(in_64_bits(put_on(run, "probe.lots"@))),
            )
        }),
{
    let m = told(started, run);
    lemma_stations_differ();
    reveal_strlit("?");
    reveal_strlit("dieattach.readings");
    reveal_strlit("wirebond.raw");
    reveal_strlit("inspect.jobs");
    reveal_strlit("mold.telemetry");
    reveal_strlit("finaltest.bins");
    reveal_strlit("probe.lots");
    assert("?"@.len() == 1 && "dieattach.readings"@.len() == 18 && "wirebond.raw"@.len() == 12
        && "inspect.jobs"@.len() == 12 && "mold.telemetry"@.len() == 14
        && "finaltest.bins"@.len() == 14 && "probe.lots"@.len() == 10);
    assert("wirebond.raw"@[0] == 'w');
    assert("inspect.jobs"@[0] == 'i');
    assert("mold.telemetry"@[0] == 'm');
    assert("finaltest.bins"@[0] == 'f');
    reveal_strlit("stations");
    reveal_strlit("ledger");
    reveal_strlit("twin");
    reveal_strlit("sim");
    reveal_strlit("lag");
    assert("stations"@.len() == 8 && "ledger"@.len() == 6 && "twin"@.len() == 4
        && "sim"@.len() == 3 && "lag"@.len() == 3);
    assert("sim"@[0] == 's');
    assert("lag"@[0] == 'l');
    a_station_is_counted_by_what_it_reports(started, run, "st02"@);
    a_topic_is_counted_by_what_was_put_on_it(started, run, "dieattach.readings"@);
    lemma_served_station(m, "st02"@, "dieattach.readings"@);
    a_station_is_counted_by_what_it_reports(started, run, "st03"@);
    a_topic_is_counted_by_what_was_put_on_it(started, run, "wirebond.raw"@);
    lemma_served_station(m, "st03"@, "wirebond.raw"@);
    a_station_is_counted_by_what_it_reports(started, run, "st04"@);
    a_topic_is_counted_by_what_was_put_on_it(started, run, "inspect.jobs"@);
    lemma_served_station(m, "st04"@, "inspect.jobs"@);
    a_station_is_counted_by_what_it_reports(started, run, "st05"@);
    a_topic_is_counted_by_what_was_put_on_it(started, run, "mold.telemetry"@);
    lemma_served_station(m, "st05"@, "mold.telemetry"@);
    a_station_is_counted_by_what_it_reports(started, run, "st06"@);
    a_topic_is_counted_by_what_was_put_on_it(started, run, "finaltest.bins"@);
    lemma_served_station(m, "st06"@, "finaltest.bins"@);
    a_station_is_counted_by_what_it_reports(started, run, "st06twin"@);
    a_topic_is_counted_by_what_was_put_on_it(started, run, "finaltest.bins"@);
    lemma_served_station(m, "st06twin"@, "finaltest.bins"@);
    a_station_is_counted_by_what_it_reports(started, run, "st01"@);
    a_topic_is_counted_by_what_was_put_on_it(started, run, "probe.lots"@);
    lemma_sum_in_64_bits(put_on(run, "probe.lots"@), reported(run, "st01"@, "produced"@));
    reveal_strlit("input_topic");
    reveal_strlit("produced");
    reveal_strlit("produced_by_simulator");
    reveal_strlit("lots");
    reveal_strlit("rejected");
    assert("input_topic"@.len() == 11 && "produced"@.len() == 8
        && "produced_by_simulator"@.len() == 21 && "lots"@.len() == 4 && "rejected"@.len() == 8);
    assert("produced"@[0] == 'p');
    assert("rejected"@[0] == 'r');
}

proof fn lemma_sum_in_64_bits(a: nat, b: nat)
    ensures
        in_64_bits(a + b) == in_64_bits(a).wrapping_add(in_64_bits(b)),
{
    let m: int = 0x1_0000_0000_0000_0000;
    vstd::arithmetic::div_mod::lemma_add_mod_noop(a as int, b as int, m);
    let x = a as int % m;
    let y = b as int % m;
    if x + y < m {
        vstd::arithmetic::div_mod::lemma_small_mod((x + y) as nat, m as nat);
    } else {
        vstd::arithmetic::div_mod::lemma_small_mod((x + y - m) as nat, m as nat);
        vstd::arithmetic::div_mod::lemma_mod_sub_multiples_vanish(x + y, m);
    }
}

// ---------------------------------------------------------------------------
// Ledgers

/// The unit that a record on a topic names.
pub open spec fn unit_on(h: Heard, topic: Seq<char>) -> Option<Seq<char>> {
    match said_on(h, topic) {
        Some(v) => match field(v, "unit"@) {
            Some(JsonView::Str(u)) => Some(u),
            _ => None,
        },
        None => None,
    }
}

/// The disposition that a record on a topic gives.
pub open spec fn disposition_on(h: Heard, topic: Seq<char>) -> Option<Seq<char>> {
    match said_on(h, topic) {
        Some(v) => match field(v, "disposition"@) {
            Some(JsonView::Str(d)) => Some(d),
            _ => None,
        },
        None => None,
    }
}

/// How many records on a topic name a unit.
pub open spec fn naming(run: Seq<Heard>, topic: Seq<char>) -> nat
    decreases run.len(),
{
    if run.len() == 0 {
        0
    } else {
        naming(run.drop_last(), topic) + if unit_on(run.last(), topic) is Some {
            1nat
        } else {
            0nat
        }
    }
}

/// How many records on a topic give a disposition that is `pass`, or is not.
pub open spec fn disposed_as(run: Seq<Heard>, topic: Seq<char>, pass: bool) -> nat
    decreases run.len(),
{
    if run.len() == 0 {
        0
    } else {
        let d = disposition_on(run.last(), topic);
        disposed_as(run.drop_last(), topic, pass) + if d is Some && (d->0 == "pass"@) == pass {
            1nat
        } else {
            0nat
        }
    }
}

/// Whether a ledger holds what came on a topic: every record, each unit once,
/// and for the rest of the records that name one a duplicate each.
pub open spec fn holds_what_came(l: LedgerView, run: Seq<Heard>, topic: Seq<char>) -> bool {
    &&& l.records == came_on(run, topic)
    &&& l.units.finite()
    &&& forall|u: Seq<char>| #[trigger]
        l.units.contains(u) <==> exists|i: int|
            0 <= i < run.len() && unit_on(#[trigger] run[i], topic) == Some(u)
    &&& l.units.len() + l.duplicates == naming(run, topic)
    &&& l.pass == disposed_as(run, topic, true)
    &&& l.fail == disposed_as(run, topic, false)
}

proof fn lemma_bounds(run: Seq<Heard>, topic: Seq<char>)
    ensures
        came_on(run, topic) <= run.len(),
        naming(run, topic) <= run.len(),
        disposed_as(run, topic, true) <= run.len(),
        disposed_as(run, topic, false) <= run.len(),
    decreases run.len(),
{
    if run.len() > 0 {
        lemma_bounds(run.drop_last(), topic);
    }
}

proof fn lemma_ledger_step(l: LedgerView, run: Seq<Heard>, topic: Seq<char>)
    requires
        run.len() > 0,
        run.len() <= u64::MAX,
        holds_what_came(l, run.drop_last(), topic),
    ensures
        holds_what_came(
            if run.last().rec.topic@ == topic {
                ledger_read(
                    l,
                    super::handle::value_in(crate::kafka::opt_bytes(run.last().rec.value)),
                )
            } else {
                l
            },
            run,
            topic,
        ),
{
    let rest = run.drop_last();
    let h = run.last();
    lemma_bounds(rest, topic);
    let after = if h.rec.topic@ == topic {
        ledger_read(l, super::handle::value_in(crate::kafka::opt_bytes(h.rec.value)))
    } else {
        l
    };
    assert(h.rec.topic@ == topic ==> super::handle::value_in(
        crate::kafka::opt_bytes(h.rec.value),
    ) == said_on(h, topic));
    assert forall|u: Seq<char>| #[trigger] after.units.contains(u) <==> exists|i: int|
        0 <= i < run.len() && unit_on(#[trigger] run[i], topic) == Some(u) by {
        if l.units.contains(u) {
            let i = choose|i: int|
                0 <= i < rest.len() && unit_on(#[trigger] rest[i], topic) == Some(u);
            assert(run[i] == rest[i]);
        }
        if unit_on(h, topic) == Some(u) {
            assert(run[run.len() - 1] == h);
        }
        if exists|i: int| 0 <= i < run.len() && unit_on(#[trigger] run[i], topic) == Some(u) {
            let i = choose|i: int|
                0 <= i < run.len() && unit_on(#[trigger] run[i], topic) == Some(u);
            if i < rest.len() {
                assert(rest[i] == run[i]);
            }
        }
    }
}

/// The ledgers hold what came on their topics: every record counts, each unit
/// stands in the ledger once, every further record that names it is a
/// duplicate, and the dispositions are counted by what they say.
pub proof fn the_ledgers_hold_what_came(started: i64, run: Seq<Heard>)
    requires
        run.len() <= u64::MAX,
    ensures
        holds_what_came(told(started, run).ledger, run, "lot.disposition"@),
        holds_what_came(told(started, run).twin, run, "lot.disposition.twin"@),
    decreases run.len(),
{
    if run.len() > 0 {
        let rest = run.drop_last();
        let h = run.last();
        the_ledgers_hold_what_came(started, rest);
        let m = told(started, rest);
        lemma_ledger_step(m.ledger, run, "lot.disposition"@);
        lemma_ledger_step(m.twin, run, "lot.disposition.twin"@);
        lemma_topics_differ();
        let m1 = ModelView { samples: super::handle::resampled(m.samples, h.rec), ..m };
        if h.rec.topic@ == "line.metrics"@ {
            match super::handle::value_in(crate::kafka::opt_bytes(h.rec.value)) {
                Some(v) => {
                    lemma_stations_keep_sim(m1, v, h.rec.timestamp, h.now, h.c);
                },
                None => {},
            }
        }
    } else {
        assert(empty_ledger().units =~= Set::<Seq<char>>::empty());
    }
}

/// What is served of the ledgers is what they hold.
pub proof fn the_ledgers_are_served(m: ModelView, now: i64, rates: Seq<Rates>)
    ensures
        ({
            let served = |l: LedgerView, v: Option<JsonView>|
                {
                    &&& v is Some
                    &&& field(v->0, "records"@) == Some(JsonView::Uint(l.records))
                    &&& field(v->0, "units"@) == Some(JsonView::Uint(l.units.len() as u64))
                    &&& field(v->0, "duplicates"@) == Some(JsonView::Uint(l.duplicates))
                };
            let state = state_object(m, now, rates);
            &&& served(m.ledger, field(validate_object(m), "ledger"@))
            &&& served(m.twin, field(validate_object(m), "twin"@))
            &&& served(m.ledger, field(state, "ledger"@))
            &&& served(m.twin, field(state, "twin"@))
            &&& field(field(state, "ledger"@)->0, "pass"@) == Some(JsonView::Uint(m.ledger.pass))
            &&& field(field(state, "ledger"@)->0, "fail"@) == Some(JsonView::Uint(m.ledger.fail))
        }),
{
    reveal_strlit("records");
    reveal_strlit("units");
    reveal_strlit("duplicates");
    reveal_strlit("pass");
    reveal_strlit("fail");
    assert("records"@.len() == 7 && "units"@.len() == 5 && "duplicates"@.len() == 10
        && "pass"@.len() == 4 && "fail"@.len() == 4);
    assert("pass"@[0] == 'p');
    assert("fail"@[0] == 'f');
    reveal_strlit("stations");
    reveal_strlit("ledger");
    reveal_strlit("twin");
    reveal_strlit("sim");
    reveal_strlit("lag");
    reveal_strlit("now");
    reveal_strlit("uptime_s");
    reveal_strlit("title");
    reveal_strlit("faults");
    reveal_strlit("open_faults");
    reveal_strlit("total_lag");
    reveal_strlit("fold");
    assert("stations"@.len() == 8 && "ledger"@.len() == 6 && "twin"@.len() == 4
        && "sim"@.len() == 3 && "lag"@.len() == 3 && "now"@.len() == 3 && "uptime_s"@.len() == 8
        && "title"@.len() == 5 && "faults"@.len() == 6 && "open_faults"@.len() == 11
        && "total_lag"@.len() == 9 && "fold"@.len() == 4);
    assert("stations"@[0] == 's');
    assert("uptime_s"@[0] == 'u');
    assert("ledger"@[0] == 'l');
    assert("faults"@[0] == 'f');
    assert("twin"@[0] == 't');
    assert("fold"@[0] == 'f');
    assert("sim"@[0] == 's');
    assert("lag"@[0] == 'l');
    assert("now"@[0] == 'n');
}

} // verus!
