//! What holds of the dashboard whatever is folded into it.

use vstd::prelude::*;

use super::fold::{
    amount, fault_of, folded, kind_of, metric_time, press_fault, presses_reported, reporter,
    station_after, Computed,
};
use super::handle::{
    buried, ledger_read, recorded, resampled, samples_at, value_in, SAMPLES_OF_PARTITION,
};
use super::model::{
    new_model, station_of, station_with_fault, with_fault, with_station, ModelView, StationView,
    DEAD_LETTERS_KEPT, FAULTS_KEPT, STATION_FAULTS_KEPT,
};
use super::ring::SAMPLES_KEPT;
use crate::json::{list_field, JsonView};
use crate::kafka::{carries, metric_fields, metric_view, opt_bytes, ConsumedRecord};
use crate::simulator::tick::{produced_extra, sim_fields, sim_metric_view};
use crate::text::texts;

verus! {

// ---------------------------------------------------------------------------
// Bounds

/// Whether a station keeps no more than it is meant to.
pub open spec fn station_within_bounds(st: StationView) -> bool {
    &&& st.faults.len() <= STATION_FAULTS_KEPT
    &&& st.dead_letters.len() <= DEAD_LETTERS_KEPT
    &&& st.latency.len() <= SAMPLES_KEPT
}

/// Whether the model keeps no more than it is meant to.
pub open spec fn within_bounds(m: ModelView) -> bool {
    &&& m.faults.len() <= FAULTS_KEPT
    &&& forall|id: Seq<char>| #[trigger]
        m.stations.dom().contains(id) ==> station_within_bounds(m.stations[id])
    &&& forall|name: Seq<char>| #[trigger]
        m.samples.dom().contains(name) ==> m.samples[name].len() <= SAMPLES_OF_PARTITION
}

/// A new model is within bounds.
pub proof fn a_new_model_is_within_bounds(started: i64)
    ensures
        within_bounds(new_model(started)),
{
}

proof fn lemma_with_station_within_bounds(m: ModelView, id: Seq<char>, st: StationView)
    requires
        within_bounds(m),
        station_within_bounds(st),
    ensures
        within_bounds(with_station(m, id, st)),
{
}

proof fn lemma_with_fault_within_bounds(
    m: ModelView,
    station: Seq<char>,
    ts: i64,
    severity: Seq<char>,
    text: Seq<char>,
    state: Seq<char>,
)
    requires
        within_bounds(m),
    ensures
        within_bounds(with_fault(m, station, ts, severity, text, state)),
{
    lemma_with_station_within_bounds(
        m,
        station,
        station_with_fault(station_of(m, station), ts, severity, text, state),
    );
}

proof fn lemma_presses_within_bounds(
    m: ModelView,
    station: Seq<char>,
    ts: i64,
    presses: Seq<JsonView>,
    drifts: Seq<Seq<char>>,
)
    requires
        within_bounds(m),
    ensures
        within_bounds(presses_reported(m, station, ts, presses, drifts)),
    decreases presses.len(),
{
    if presses.len() > 0 {
        lemma_presses_within_bounds(m, station, ts, presses.drop_last(), drifts);
        let before = presses_reported(m, station, ts, presses.drop_last(), drifts);
        match press_fault(presses.last(), drifts, presses.len() - 1) {
            Some(text) => {
                lemma_with_fault_within_bounds(
                    before,
                    station,
                    ts,
                    "warn"@,
                    text,
                    "watching"@,
                );
            },
            None => {},
        }
    }
}

/// A metric keeps a model within bounds.
pub proof fn a_metric_keeps_the_bounds(
    m: ModelView,
    v: JsonView,
    timestamp: Option<i64>,
    now: i64,
    c: Computed,
)
    requires
        within_bounds(m),
    ensures
        within_bounds(folded(m, v, timestamp, now, c)),
{
    let station = reporter(v);
    let kind = kind_of(v);
    let ts = metric_time(v, timestamp, now);
    let n = amount(v, "n"@);
    let m1 = ModelView { metrics_records: m.metrics_records.wrapping_add(1), ..m };
    if station != "sim"@ && station != "ops"@ {
        let was = station_of(m1, station);
        let seen = StationView {
            last_seen: super::fold::later(ts, was.last_seen),
            ..was
        };
        let st = station_after(seen, station, kind, ts, n, v, now, c);
        assert(station_within_bounds(was));
        assert(station_within_bounds(st));
        lemma_with_station_within_bounds(m1, station, st);
        let m2 = with_station(m1, station, st);
        match fault_of(kind, v, c) {
            Some(f) => {
                lemma_with_fault_within_bounds(m2, station, ts, f.severity, f.text, f.state);
            },
            None => {
                match list_field(v, "presses"@) {
                    Some(presses) => {
                        lemma_presses_within_bounds(m2, station, ts, presses, texts(c.drifts@));
                    },
                    None => {},
                }
            },
        }
    }
}

/// Whatever record is folded, the model stays within bounds: the rows of
/// faults and of dead letters, the latency samples and the raw samples do not
/// grow beyond what is kept of them.
pub proof fn records_keep_the_bounds(m: ModelView, rec: ConsumedRecord, now: i64, c: Computed)
    requires
        within_bounds(m),
    ensures
        within_bounds(recorded(m, rec, now, c)),
{
    let m1 = ModelView { samples: resampled(m.samples, rec), ..m };
    assert(within_bounds(m1)) by {
        assert(samples_at(m.samples, super::handle::partition_name(rec)).len()
            <= SAMPLES_OF_PARTITION);
    }
    let ts = crate::json::or_else(rec.timestamp, now);
    if rec.topic@ == "line.metrics"@ {
        match value_in(opt_bytes(rec.value)) {
            Some(v) => {
                a_metric_keeps_the_bounds(m1, v, rec.timestamp, now, c);
            },
            None => {},
        }
    } else if rec.topic@ == "lot.disposition"@ {
        let l = ledger_read(m1.ledger, value_in(opt_bytes(rec.value)));
        let m2 = ModelView { ledger: l, ..m1 };
        lemma_with_fault_within_bounds(
            m2,
            "st06"@,
            ts,
            "crit"@,
            crate::text::decimal(l.duplicates as nat) + " duplicate unit(s) in lot.disposition"@,
            "must read 0"@,
        );
    } else if rec.topic@ == "lot.disposition.twin"@ {
        let l = ledger_read(m1.twin, value_in(opt_bytes(rec.value)));
        let m2 = ModelView { twin: l, ..m1 };
        lemma_with_fault_within_bounds(
            m2,
            "st06twin"@,
            ts,
            "warn"@,
            crate::text::decimal(l.duplicates as nat)
                + " duplicate unit(s) in lot.disposition.twin (at-least-once replay)"@,
            "expected"@,
        );
    } else {
        match super::model::dlq_owner(rec.topic@) {
            Some(station) => {
                lemma_buried_within_bounds(m1, station, rec, now);
            },
            None => {},
        }
    }
}

proof fn lemma_buried_within_bounds(
    m: ModelView,
    station: Seq<char>,
    rec: ConsumedRecord,
    now: i64,
)
    requires
        within_bounds(m),
    ensures
        within_bounds(buried(m, station, rec, now)),
{
    let st = station_of(m, station);
    let st = StationView {
        dlq: st.dlq.wrapping_add(1),
        dead_letters: super::model::first_of(
            seq![super::handle::dead_letter_view(rec, now)] + st.dead_letters,
            DEAD_LETTERS_KEPT as int,
        ),
        ..st
    };
    lemma_with_station_within_bounds(m, station, st);
    lemma_with_fault_within_bounds(
        with_station(m, station, st),
        station,
        crate::json::or_else(rec.timestamp, now),
        "warn"@,
        super::handle::dead_letter_text(
            rec.topic@,
            super::handle::header_fields(crate::kafka::header_views(rec.headers@)),
        ),
        "dead-lettered · partition advanced"@,
    );
}

// ---------------------------------------------------------------------------
// Counts

/// What is told of presses adds faults, and changes nothing else.
pub proof fn lemma_presses_touch_faults_only(
    m: ModelView,
    station: Seq<char>,
    ts: i64,
    presses: Seq<JsonView>,
    drifts: Seq<Seq<char>>,
    id: Seq<char>,
)
    ensures
        ({
            let after = presses_reported(m, station, ts, presses, drifts);
            &&& id != station ==> station_of(after, id) == station_of(m, id)
            &&& station_of(after, id) == (StationView {
                faults: station_of(after, id).faults,
                ..station_of(m, id)
            })
            &&& after == (ModelView { stations: after.stations, faults: after.faults, ..m })
        }),
    decreases presses.len(),
{
    if presses.len() > 0 {
        lemma_presses_touch_faults_only(m, station, ts, presses.drop_last(), drifts, id);
    }
}

/// A metric of a station changes nothing that is known of another.
pub proof fn stations_are_told_apart(
    m: ModelView,
    v: JsonView,
    timestamp: Option<i64>,
    now: i64,
    c: Computed,
    id: Seq<char>,
)
    requires
        id != reporter(v),
    ensures
        station_of(folded(m, v, timestamp, now, c), id) == station_of(m, id),
{
    lemma_folded_station(m, v, timestamp, now, c, id);
}

/// What a metric does to one station, but for its faults.
pub proof fn lemma_folded_station(
    m: ModelView,
    v: JsonView,
    timestamp: Option<i64>,
    now: i64,
    c: Computed,
    id: Seq<char>,
)
    ensures
        ({
            let after = station_of(folded(m, v, timestamp, now, c), id);
            let was = station_of(m, id);
            let ts = metric_time(v, timestamp, now);
            if id == reporter(v) && id != "sim"@ && id != "ops"@ {
                after == (StationView {
                    faults: after.faults,
                    ..station_after(
                        StationView { last_seen: super::fold::later(ts, was.last_seen), ..was },
                        id,
                        kind_of(v),
                        ts,
                        amount(v, "n"@),
                        v,
                        now,
                        c,
                    )
                })
            } else {
                after == was
            }
        }),
{
    let station = reporter(v);
    let ts = metric_time(v, timestamp, now);
    let m1 = ModelView { metrics_records: m.metrics_records.wrapping_add(1), ..m };
    if station != "sim"@ && station != "ops"@ {
        let was = station_of(m1, station);
        let st = station_after(
            StationView { last_seen: super::fold::later(ts, was.last_seen), ..was },
            station,
            kind_of(v),
            ts,
            amount(v, "n"@),
            v,
            now,
            c,
        );
        let m2 = with_station(m1, station, st);
        match list_field(v, "presses"@) {
            Some(presses) => {
                lemma_presses_touch_faults_only(m2, station, ts, presses, texts(c.drifts@), id);
            },
            None => {},
        }
    }
}

/// A station's own word that it dead-lettered a record is noted, and not
/// counted: no metric changes a count of dead letters.
pub proof fn metrics_do_not_count_dead_letters(
    m: ModelView,
    v: JsonView,
    timestamp: Option<i64>,
    now: i64,
    c: Computed,
    id: Seq<char>,
)
    ensures
        station_of(folded(m, v, timestamp, now, c), id).dlq == station_of(m, id).dlq,
        station_of(folded(m, v, timestamp, now, c), id).dead_letters == station_of(
            m,
            id,
        ).dead_letters,
{
    lemma_folded_station(m, v, timestamp, now, c, id);
}

/// A record on a dead-letter topic counts once with the station the topic
/// belongs to, and with no other.
pub proof fn a_dead_letter_counts_once(
    m: ModelView,
    rec: ConsumedRecord,
    now: i64,
    c: Computed,
    id: Seq<char>,
)
    requires
        super::model::dlq_owner(rec.topic@) is Some,
    ensures
        station_of(recorded(m, rec, now, c), id).dlq == if super::model::dlq_owner(rec.topic@)
            == Some(id) {
            station_of(m, id).dlq.wrapping_add(1)
        } else {
            station_of(m, id).dlq
        },
{
    reveal_strlit("line.metrics");
    reveal_strlit("lot.disposition");
    reveal_strlit("lot.disposition.twin");
    reveal_strlit("dieattach.dlq");
    reveal_strlit("wirebond.dlq");
    reveal_strlit("inspect.dlq");
    reveal_strlit("mold.dlq");
    assert(rec.topic@ != "line.metrics"@ && rec.topic@ != "lot.disposition"@ && rec.topic@
        != "lot.disposition.twin"@) by {
        assert("line.metrics"@.len() == 12);
        assert("lot.disposition"@.len() == 15);
        assert("lot.disposition.twin"@.len() == 20);
        assert("dieattach.dlq"@.len() == 13);
        assert("wirebond.dlq"@[0] == 'w');
        assert("line.metrics"@[0] == 'l');
        assert("inspect.dlq"@.len() == 11);
        assert("mold.dlq"@.len() == 8);
    }
}

/// What a station reports as consumed is what the dashboard counts: the
/// number in a `consumed` metric that a station produced is added to that
/// station's count when the metric comes back as a record.
pub proof fn what_is_reported_is_counted(
    m: ModelView,
    rec: ConsumedRecord,
    now: i64,
    c: Computed,
    station: Seq<char>,
    kind: Seq<char>,
    ts: Option<i64>,
    extra: Map<Seq<char>, JsonView>,
    n: u64,
)
    requires
        rec.topic@ == "line.metrics"@,
        opt_bytes(rec.value) == metric_view(station, kind, ts, extra).value,
        carries(
            metric_view(station, kind, ts, extra),
            JsonView::Object(metric_fields(station, kind, ts, extra)),
        ),
        !extra.dom().contains("station"@),
        !extra.dom().contains("kind"@),
        extra.dom().contains("n"@),
        extra["n"@] == JsonView::Uint(n),
        station != "sim"@,
        station != "ops"@,
    ensures
        ({
            let was = station_of(m, station);
            let after = station_of(recorded(m, rec, now, c), station);
            &&& kind == "consumed"@ ==> after.consumed == was.consumed.wrapping_add(n)
            &&& kind != "consumed"@ ==> after.consumed == was.consumed
            &&& kind == "produced"@ ==> after.produced == was.produced.wrapping_add(n)
            &&& kind != "produced"@ ==> after.produced == was.produced
            &&& kind == "redelivered"@ ==> after.redelivered == was.redelivered.wrapping_add(n)
            &&& kind != "redelivered"@ ==> after.redelivered == was.redelivered
            &&& kind == "replayed"@ ==> after.replayed == was.replayed.wrapping_add(n)
            &&& kind != "replayed"@ ==> after.replayed == was.replayed
        }),
{
    let v = JsonView::Object(metric_fields(station, kind, ts, extra));
    let f = metric_fields(station, kind, ts, extra);
    reveal_strlit("station");
    reveal_strlit("kind");
    reveal_strlit("ts");
    assert("station"@.len() == 7 && "kind"@.len() == 4 && "ts"@.len() == 2);
    assert(f["station"@] == JsonView::Str(station));
    assert(f["kind"@] == JsonView::Str(kind));
    assert(f["n"@] == JsonView::Uint(n));
    assert(value_in(opt_bytes(rec.value)) == Some(v));
    assert(reporter(v) == station);
    assert(kind_of(v) == kind);
    assert(amount(v, "n"@) == n);
    let m1 = ModelView { samples: resampled(m.samples, rec), ..m };
    lemma_folded_station(m1, v, rec.timestamp, now, c, station);
    lemma_kinds_differ();
}

/// What the simulator reports as produced is what the dashboard counts as put
/// on a topic.
pub proof fn what_the_simulator_reports_is_counted(
    m: ModelView,
    rec: ConsumedRecord,
    now: i64,
    c: Computed,
    topic: Seq<char>,
    n: u64,
    scenario: Seq<char>,
    frame: u32,
)
    requires
        rec.topic@ == "line.metrics"@,
        opt_bytes(rec.value) == sim_metric_view(
            "produced"@,
            produced_extra(topic, n, scenario, frame),
        ).value,
        carries(
            sim_metric_view("produced"@, produced_extra(topic, n, scenario, frame)),
            JsonView::Object(
                sim_fields("produced"@, produced_extra(topic, n, scenario, frame)),
            ),
        ),
    ensures
        recorded(m, rec, now, c).sim_produced == m.sim_produced.insert(
            topic,
            super::fold::count_of(m.sim_produced, topic).wrapping_add(n),
        ),
        recorded(m, rec, now, c).stations == m.stations,
{
    let extra = produced_extra(topic, n, scenario, frame);
    let f = sim_fields("produced"@, extra);
    let v = JsonView::Object(f);
    reveal_strlit("station");
    reveal_strlit("kind");
    reveal_strlit("topic");
    reveal_strlit("n");
    reveal_strlit("scenario");
    reveal_strlit("frame");
    assert("station"@.len() == 7 && "kind"@.len() == 4 && "topic"@.len() == 5 && "n"@.len() == 1
        && "scenario"@.len() == 8 && "frame"@.len() == 5);
    assert("topic"@[0] == 't' && "frame"@[0] == 'f');
    assert(f["station"@] == JsonView::Str("sim"@));
    assert(f["kind"@] == JsonView::Str("produced"@));
    assert(f["topic"@] == JsonView::Str(topic));
    assert(f["n"@] == JsonView::Uint(n));
    assert(value_in(opt_bytes(rec.value)) == Some(v));
    assert(reporter(v) == "sim"@);
    assert(kind_of(v) == "produced"@);
}

proof fn lemma_kinds_differ()
    ensures
        "consumed"@ != "produced"@,
        "consumed"@ != "redelivered"@,
        "consumed"@ != "replayed"@,
        "produced"@ != "redelivered"@,
        "produced"@ != "replayed"@,
        "redelivered"@ != "replayed"@,
        "redelivered"@ != "latency"@,
        "redelivered"@ != "rejected"@,
        "redelivered"@ != "instance"@,
        "replayed"@ != "latency"@,
        "replayed"@ != "rejected"@,
        "replayed"@ != "instance"@,
        "replayed"@ != "partial"@,
{
    reveal_strlit("consumed");
    reveal_strlit("produced");
    reveal_strlit("redelivered");
    reveal_strlit("replayed");
    reveal_strlit("latency");
    reveal_strlit("rejected");
    reveal_strlit("instance");
    reveal_strlit("partial");
    assert("consumed"@[0] == 'c' && "produced"@[0] == 'p' && "replayed"@[2] == 'p');
    assert("redelivered"@.len() == 11 && "latency"@.len() == 7 && "rejected"@[2] == 'j');
    assert("rejected"@.len() == 8 && "replayed"@.len() == 8 && "consumed"@.len() == 8);
    assert("produced"@.len() == 8 && "instance"@.len() == 8 && "partial"@.len() == 7);
    assert("instance"@[0] == 'i' && "replayed"@[0] == 'r');
}

} // verus!
