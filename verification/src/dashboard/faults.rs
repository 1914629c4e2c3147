//! What is shown of faults and dead letters, and what notes them.

use vstd::arithmetic::power2::is_pow2;
use vstd::prelude::*;

use super::details::lemma_kinds_are_distinct;
use super::fold::{
    fault_of, folded, lately_said, later, press_fault, presses_reported, station_after, Computed,
};
use super::handle::{
    buried, dead_letter_text, dead_letter_view, disposed, header_fields, ledger_read,
    origins_among, reason_among, recorded, resampled, sample_view, samples_at, tells_origin,
    twin_disposed, value_in,
};
use super::laws::{lemma_folded_station, lemma_presses_touch_faults_only};
use super::model::{
    dlq_of, dlq_owner, label_of, station_of, with_fault, LedgerView, ModelView, StationView,
};
use crate::json::{field, int_view, json_text_of, JsonView};
use crate::kafka::{header_views, opt_bytes, ConsumedRecord, HeaderView};
use crate::ordered_map::listed;
use crate::stats::{how_many, lemma_how_many};
use crate::text::{contains_text, decimal, joined, lossy_text, signed_decimal};

verus! {

/// A text, or null.
pub open spec fn text_or_null(s: Option<Seq<char>>) -> JsonView {
    match s {
        Some(s) => JsonView::Str(s),
        None => JsonView::Null,
    }
}

// ---------------------------------------------------------------------------
// The rows of faults

/// Whether a row is another with one more value before it, of which the first
/// so many are kept.
pub open spec fn one_before(
    after: Seq<JsonView>,
    before: Seq<JsonView>,
    x: JsonView,
    kept: int,
) -> bool {
    &&& after.len() == if before.len() < kept {
        before.len() as int + 1
    } else {
        kept
    }
    &&& after[0] == x
    &&& forall|i: int| 0 < i < after.len() ==> #[trigger] after[i] == before[i - 1]
}

/// A fault comes first among the faults of the line, of which sixty are kept,
/// and among those of its station, of which ten are. It tells its time, its
/// severity, its text and its state, and on the line its station too, by id
/// and by label. Nothing else changes.
pub proof fn a_fault_comes_first(
    m: ModelView,
    station: Seq<char>,
    ts: i64,
    severity: Seq<char>,
    text: Seq<char>,
    state: Seq<char>,
)
    ensures
        ({
            let a = with_fault(m, station, ts, severity, text, state);
            let st = station_of(a, station);
            let was = station_of(m, station);
            &&& one_before(a.faults, m.faults, a.faults[0], 60)
            &&& field(a.faults[0], "ts"@) == Some(int_view(ts))
            &&& field(a.faults[0], "severity"@) == Some(JsonView::Str(severity))
            &&& field(a.faults[0], "text"@) == Some(JsonView::Str(text))
            &&& field(a.faults[0], "state"@) == Some(JsonView::Str(state))
            &&& field(a.faults[0], "station"@) == Some(JsonView::Str(station))
            &&& field(a.faults[0], "label"@) == Some(JsonView::Str(label_of(station)))
            &&& one_before(st.faults, was.faults, st.faults[0], 10)
            &&& field(st.faults[0], "ts"@) == Some(int_view(ts))
            &&& field(st.faults[0], "severity"@) == Some(JsonView::Str(severity))
            &&& field(st.faults[0], "text"@) == Some(JsonView::Str(text))
            &&& field(st.faults[0], "state"@) == Some(JsonView::Str(state))
            &&& st == (StationView { faults: st.faults, ..was })
            &&& forall|other: Seq<char>|
                other != station ==> #[trigger] station_of(a, other) == station_of(m, other)
            &&& a == (ModelView { faults: a.faults, stations: a.stations, ..m })
        }),
{
    reveal_strlit("ts");
    reveal_strlit("severity");
    reveal_strlit("text");
    reveal_strlit("state");
    reveal_strlit("station");
    reveal_strlit("label");
    assert("ts"@.len() == 2 && "severity"@.len() == 8 && "text"@.len() == 4 && "state"@.len() == 5
        && "station"@.len() == 7 && "label"@.len() == 5);
    assert("state"@[0] == 's');
    assert("label"@[0] == 'l');
}

/// Each station is shown under its label.
pub proof fn stations_are_shown_by_label(id: Seq<char>)
    ensures
        label_of("st01"@) == "ST-01 probe intake"@,
        label_of("st02"@) == "ST-02 die attach"@,
        label_of("st03"@) == "ST-03 wire bond"@,
        label_of("st04"@) == "ST-04 inspection"@,
        label_of("st05"@) == "ST-05 mold & cure"@,
        label_of("st06"@) == "ST-06 final test"@,
        label_of("st06twin"@) == "ST-06 twin"@,
        label_of("sim"@) == "simulator"@,
        id != "st01"@ && id != "st02"@ && id != "st03"@ && id != "st04"@ && id != "st05"@
            && id != "st06"@ && id != "st06twin"@ && id != "sim"@
            ==> label_of(id) == "line"@,
{
    reveal_strlit("st01");
    reveal_strlit("st02");
    reveal_strlit("st03");
    reveal_strlit("st04");
    reveal_strlit("st05");
    reveal_strlit("st06");
    reveal_strlit("st06twin");
    reveal_strlit("sim");
    assert("st01"@.len() == 4 && "st02"@.len() == 4 && "st03"@.len() == 4 && "st04"@.len() == 4
        && "st05"@.len() == 4 && "st06"@.len() == 4 && "st06twin"@.len() == 8
        && "sim"@.len() == 3);
    assert("st01"@[3] == '1');
    assert("st02"@[3] == '2');
    assert("st03"@[3] == '3');
    assert("st04"@[3] == '4');
    assert("st05"@[3] == '5');
    assert("st06"@[3] == '6');
}

/// Dead letters go to the topic of the station that their record was for.
pub proof fn dead_letter_topics_belong_to_stations()
    ensures
        dlq_of("dieattach.readings"@) == "dieattach.dlq"@,
        dlq_of("wirebond.raw"@) == "wirebond.dlq"@,
        dlq_of("inspect.jobs"@) == "inspect.dlq"@,
        dlq_of("mold.telemetry"@) == "mold.dlq"@,
        dlq_owner("dieattach.dlq"@) == Some("st02"@),
        dlq_owner("wirebond.dlq"@) == Some("st03"@),
        dlq_owner("inspect.dlq"@) == Some("st04"@),
        dlq_owner("mold.dlq"@) == Some("st05"@),
{
    reveal_strlit("dieattach.readings");
    reveal_strlit("wirebond.raw");
    reveal_strlit("inspect.jobs");
    reveal_strlit("mold.telemetry");
    reveal_strlit("dieattach.dlq");
    reveal_strlit("wirebond.dlq");
    reveal_strlit("inspect.dlq");
    reveal_strlit("mold.dlq");
    assert("dieattach.readings"@.len() == 18 && "wirebond.raw"@.len() == 12
        && "inspect.jobs"@.len() == 12 && "mold.telemetry"@.len() == 14
        && "dieattach.dlq"@.len() == 13 && "wirebond.dlq"@.len() == 12
        && "inspect.dlq"@.len() == 11 && "mold.dlq"@.len() == 8);
    assert("wirebond.raw"@[0] == 'w');
    assert("inspect.jobs"@[0] == 'i');
    assert("wirebond.raw"@[9] == 'r');
    assert("wirebond.dlq"@[9] == 'd');
    assert("wirebond.dlq"@[0] == 'w');
}

// ---------------------------------------------------------------------------
// The faults that metrics make

/// The text in a field, or another where there is none.
pub open spec fn said(v: JsonView, name: Seq<char>, other: Seq<char>) -> Seq<char> {
    match field(v, name) {
        Some(JsonView::Str(s)) => s,
        _ => other,
    }
}

/// A place that a metric gives, in decimal digits, and -1 where it gives none.
pub open spec fn place_said(v: JsonView, name: Seq<char>) -> Seq<char> {
    match field(v, name) {
        Some(JsonView::Uint(n)) if n <= i64::MAX => decimal(n as nat),
        Some(JsonView::Int(n)) => signed_decimal(n as int),
        _ => signed_decimal(-1),
    }
}

/// A number that a metric gives, in decimal digits, and 0 where it gives none.
pub open spec fn number_said(v: JsonView, name: Seq<char>) -> Seq<char> {
    match field(v, name) {
        Some(JsonView::Uint(n)) => decimal(n as nat),
        _ => decimal(0),
    }
}

/// A metric makes a fault exactly where it is a rejection, a partial batch, a
/// rebalance, a seek, a start, an abort, a dead letter or a fault. Rejections,
/// aborts and dead letters are warnings, and a fault is one where it does not
/// say otherwise; the others are for information.
pub proof fn a_fault_is_of_the_severity_of_its_kind(kind: Seq<char>, v: JsonView, c: Computed)
    ensures
        fault_of(kind, v, c) is Some <==> kind == "rejected"@ || kind == "partial"@
            || kind == "rebalance"@ || kind == "seek"@ || kind == "started"@
            || kind == "txn_abort"@ || kind == "dlq"@ || kind == "fault"@,
        fault_of(kind, v, c) matches Some(f) ==> f.severity == if kind == "rejected"@ || kind
            == "txn_abort"@ || kind == "dlq"@ {
            "warn"@
        } else if kind == "fault"@ {
            said(v, "severity"@, "warn"@)
        } else {
            "info"@
        },
{
    lemma_kinds_are_distinct();
}

/// A rejection is told with its reason, and with its prober where it names
/// one.
pub proof fn a_rejection_is_told(v: JsonView, c: Computed)
    ensures
        ({
            let f = fault_of("rejected"@, v, c)->0;
            let text = "upload rejected 400 — "@ + said(v, "reason"@, "schema"@);
            &&& f.state == "rejected at the edge"@
            &&& f.text == match field(v, "prober"@) {
                Some(JsonView::Str(p)) => text + " · prober "@ + p,
                _ => text,
            }
        }),
{
}

/// A partial batch is told with the offset it was handled through, the
/// partition and the reason.
pub proof fn a_partial_batch_is_told(v: JsonView, c: Computed)
    ensures
        ({
            let f = fault_of("partial"@, v, c)->0;
            &&& f.state == "Ok(Some(offset))"@
            &&& f.text == "partial batch: handled through offset "@ + place_said(v, "offset"@)
                + " on partition "@ + place_said(v, "partition"@) + ", rest redelivered ("@ + said(
                v,
                "reason"@,
                ""@,
            ) + ")"@
        }),
{
    lemma_kinds_are_distinct();
}

/// A rebalance is told with its event and its partitions.
pub proof fn a_rebalance_is_told(v: JsonView, c: Computed)
    ensures
        ({
            let f = fault_of("rebalance"@, v, c)->0;
            &&& f.state == "session"@
            &&& f.text == "rebalance "@ + said(v, "event"@, "?"@) + " partitions "@ + match field(
                v,
                "partitions"@,
            ) {
                Some(p) => json_text_of(p),
                None => ""@,
            }
        }),
{
    lemma_kinds_are_distinct();
}

/// A seek is told with its partition, the offset it goes back to and the
/// bonder that is replayed.
pub proof fn a_seek_is_told(v: JsonView, c: Computed)
    ensures
        ({
            let f = fault_of("seek"@, v, c)->0;
            &&& f.state == "replay"@
            &&& f.text == "seek partition "@ + place_said(v, "partition"@) + " back to offset "@
                + place_said(v, "to_offset"@) + " — replaying bonder "@ + number_said(v, "bonder"@)
        }),
{
    lemma_kinds_are_distinct();
}

/// A start is told with its batch size and its threshold.
pub proof fn a_start_is_told(v: JsonView, c: Computed)
    ensures
        ({
            let f = fault_of("started"@, v, c)->0;
            let threshold = match field(v, "nsop_threshold_pct"@) {
                Some(x) => if x is Uint || x is Int || x is Real {
                    c.threshold@
                } else {
                    "0"@
                },
                None => "0"@,
            };
            &&& f.state == "resumed from committed offsets"@
            &&& f.text == "service started (BATCH_SIZE "@ + number_said(v, "batch_size"@)
                + ", NSOP threshold "@ + threshold + "%)"@
        }),
{
    lemma_kinds_are_distinct();
}

/// An abort is told with its reason.
pub proof fn an_abort_is_told(v: JsonView, c: Computed)
    ensures
        ({
            let f = fault_of("txn_abort"@, v, c)->0;
            &&& f.state == "replayed from committed offsets"@
            &&& f.text == "transaction aborted — "@ + said(v, "reason"@, ""@)
        }),
{
    lemma_kinds_are_distinct();
}

/// A dead letter is told with the topic it goes to, by the topic it came
/// from, with its reason, and with the die, the job or the press that it
/// names, the first of them that it has.
pub proof fn a_dead_letter_is_told(v: JsonView, c: Computed)
    ensures
        ({
            let f = fault_of("dlq"@, v, c)->0;
            let topic = match field(v, "origin"@) {
                Some(o) => match field(o, "topic"@) {
                    Some(JsonView::Str(t)) => dlq_of(t),
                    _ => "dlq"@,
                },
                None => "dlq"@,
            };
            let text = "→ "@ + topic + " · "@ + said(v, "reason"@, "permanent"@);
            let subject = if field(v, "die"@) is Some {
                field(v, "die"@)
            } else if field(v, "job"@) is Some {
                field(v, "job"@)
            } else {
                field(v, "press"@)
            };
            &&& f.state == "Err(Permanent) → dead-lettered"@
            &&& f.text == match subject {
                Some(JsonView::Str(s)) => text + " · "@ + s,
                _ => text,
            }
        }),
{
    lemma_kinds_are_distinct();
}

/// A fault is told as it says itself, by its text or else by its reason, and
/// is open.
pub proof fn a_fault_is_told(v: JsonView, c: Computed)
    ensures
        ({
            let f = fault_of("fault"@, v, c)->0;
            let told = if field(v, "text"@) is Some {
                field(v, "text"@)
            } else {
                field(v, "reason"@)
            };
            &&& f.state == "open"@
            &&& f.text == match told {
                Some(JsonView::Str(s)) => s,
                _ => "fault"@,
            }
        }),
{
    lemma_kinds_are_distinct();
}

/// The time that a metric is of: the one it tells, else that of its record,
/// else now.
pub open spec fn time_told(v: JsonView, timestamp: Option<i64>, now: i64) -> i64 {
    match field(v, "ts"@) {
        Some(JsonView::Uint(n)) if n <= i64::MAX => n as i64,
        Some(JsonView::Int(n)) => n,
        _ => match timestamp {
            Some(t) => t,
            None => now,
        },
    }
}

/// A metric is noted with the station that it names, or with the line where it
/// names none, under its kind, with the number that it tells and at the time
/// it is of. The station was then last
/// seen at that time, unless it was seen later. A fault that the metric makes
/// is noted with the station at that time; no fault is noted where it makes
/// none, but for those of presses.
pub proof fn a_metric_is_noted_with_its_station(
    m: ModelView,
    v: JsonView,
    timestamp: Option<i64>,
    now: i64,
    c: Computed,
    station: Seq<char>,
    kind: Seq<char>,
)
    requires
        station == said(v, "station"@, "line"@),
        kind == said(v, "kind"@, ""@),
        station != "sim"@,
        station != "ops"@,
    ensures
        ({
            let a = folded(m, v, timestamp, now, c);
            let ts = time_told(v, timestamp, now);
            let n = match field(v, "n"@) {
                Some(JsonView::Uint(n)) => n,
                _ => 0,
            };
            let was = station_of(m, station);
            let seen = StationView {
                last_seen: if ts >= was.last_seen {
                    ts
                } else {
                    was.last_seen
                },
                ..was
            };
            let st = station_of(a, station);
            &&& st == (StationView {
                faults: st.faults,
                ..station_after(seen, station, kind, ts, n, v, now, c)
            })
            &&& a.metrics_records == m.metrics_records.wrapping_add(1)
            &&& fault_of(kind, v, c) matches Some(f) ==> {
                &&& one_before(a.faults, m.faults, a.faults[0], 60)
                &&& field(a.faults[0], "ts"@) == Some(int_view(ts))
                &&& field(a.faults[0], "severity"@) == Some(JsonView::Str(f.severity))
                &&& field(a.faults[0], "text"@) == Some(JsonView::Str(f.text))
                &&& field(a.faults[0], "state"@) == Some(JsonView::Str(f.state))
                &&& field(a.faults[0], "station"@) == Some(JsonView::Str(station))
            }
            &&& fault_of(kind, v, c) is None && !(kind == "window"@ && station == "st05"@)
                ==> a.faults == m.faults
        }),
{
    lemma_folded_station(m, v, timestamp, now, c, station);
    let m1 = ModelView { metrics_records: m.metrics_records.wrapping_add(1), ..m };
    let ts = time_told(v, timestamp, now);
    let n: u64 = match field(v, "n"@) {
        Some(JsonView::Uint(n)) => n,
        _ => 0,
    };
    let was = station_of(m1, station);
    let st = station_after(
        StationView { last_seen: later(ts, was.last_seen), ..was },
        station,
        kind,
        ts,
        n,
        v,
        now,
        c,
    );
    let m2 = super::model::with_station(m1, station, st);
    if let Some(f) = fault_of(kind, v, c) {
        a_fault_comes_first(m2, station, ts, f.severity, f.text, f.state);
        assert(folded(m, v, timestamp, now, c) == with_fault(
            m2,
            station,
            ts,
            f.severity,
            f.text,
            f.state,
        ));
    } else if let Some(JsonView::List(presses)) = field(v, "presses"@) {
        lemma_presses_touch_faults_only(
            m2,
            station,
            ts,
            presses,
            crate::text::texts(c.drifts@),
            station,
        );
    }
}

/// A metric on the topic of metrics is noted as it says; one that cannot be
/// read is counted as such, and nothing else is noted of it.
pub proof fn metrics_are_read_from_their_topic(
    m: ModelView,
    rec: ConsumedRecord,
    now: i64,
    c: Computed,
    v: JsonView,
)
    requires
        rec.topic@ == "line.metrics"@,
    ensures
        ({
            let a = recorded(m, rec, now, c);
            let sampled = ModelView { samples: resampled(m.samples, rec), ..m };
            let read = match rec.value {
                Some(b) => crate::json::parsed_json(b@),
                None => Err(Seq::empty()),
            };
            &&& read == Ok::<JsonView, Seq<char>>(v) ==> a == folded(
                sampled,
                v,
                rec.timestamp,
                now,
                c,
            )
            &&& read is Err ==> a == (ModelView {
                unparsed: m.unparsed.wrapping_add(1),
                ..sampled
            })
        }),
{
}

/// A heartbeat of the simulator is kept as it is, and the simulator was seen
/// at the time of its record. The lag that operations publish is kept with
/// the time it came at.
pub proof fn heartbeats_and_lag_are_kept(
    m: ModelView,
    v: JsonView,
    timestamp: Option<i64>,
    now: i64,
    c: Computed,
)
    ensures
        ({
            let a = folded(m, v, timestamp, now, c);
            let one_more = m.metrics_records.wrapping_add(1);
            let from_sim = field(v, "station"@) == Some(JsonView::Str("sim"@));
            let from_ops = field(v, "station"@) == Some(JsonView::Str("ops"@));
            &&& from_sim && field(v, "kind"@) == Some(JsonView::Str("sim"@)) ==> a == (ModelView {
                sim: v,
                sim_seen: match timestamp {
                    Some(t) => t,
                    None => now,
                },
                metrics_records: one_more,
                ..m
            })
            &&& from_ops && field(v, "kind"@) == Some(JsonView::Str("lag"@)) ==> {
                &&& a == (ModelView { lag: a.lag, metrics_records: one_more, ..m })
                &&& field(a.lag, "received"@) == Some(int_view(now))
                &&& forall|name: Seq<char>|
                    name != "received"@ ==> #[trigger] field(a.lag, name) == field(v, name)
            }
        }),
{
    reveal_strlit("sim");
    reveal_strlit("ops");
    reveal_strlit("produced");
    reveal_strlit("lag");
    assert("sim"@.len() == 3 && "ops"@.len() == 3 && "produced"@.len() == 8 && "lag"@.len() == 3);
    assert("sim"@[0] == 's');
    assert("ops"@[0] == 'o');
    assert("lag"@[0] == 'l');
}

/// The simulator is seen when it tells what it put out, unless it was seen
/// later.
pub proof fn the_simulator_is_seen_at_the_latest(
    m: ModelView,
    v: JsonView,
    timestamp: Option<i64>,
    now: i64,
    c: Computed,
)
    requires
        field(v, "station"@) == Some(JsonView::Str("sim"@)),
        field(v, "kind"@) == Some(JsonView::Str("produced"@)),
    ensures
        ({
            let a = folded(m, v, timestamp, now, c);
            let ts = time_told(v, timestamp, now);
            &&& a.sim_seen >= ts
            &&& a.sim_seen >= m.sim_seen
            &&& a.sim_seen == ts || a.sim_seen == m.sim_seen
            &&& a == (ModelView {
                sim_seen: a.sim_seen,
                sim_produced: a.sim_produced,
                metrics_records: a.metrics_records,
                ..m
            })
        }),
{
}

// ---------------------------------------------------------------------------
// Presses

/// A press makes a fault where it names itself and is alarmed or held. An
/// alarm is told with the worst zone and its drift, and comes before a hold.
pub proof fn a_press_is_told(press: JsonView, drifts: Seq<Seq<char>>, i: int)
    ensures
        ({
            let alarmed = field(press, "alarm"@) == Some(JsonView::Bool(true));
            let held = field(press, "hold"@) == Some(JsonView::Bool(true));
            match field(press, "press"@) {
                Some(JsonView::Str(id)) => {
                    &&& press_fault(press, drifts, i) is Some <==> alarmed || held
                    &&& held && !alarmed ==> press_fault(press, drifts, i) == Some(
                        "humidity / particle hold · press "@ + id,
                    )
                    &&& alarmed ==> (field(press, "worst_zone"@) matches Some(w) ==> (field(
                        w,
                        "zone"@,
                    ) matches Some(JsonView::Uint(zone)) ==> (field(w, "drift_c"@) matches Some(
                        JsonView::Real(d),
                    ) ==> (i < drifts.len() ==> press_fault(press, drifts, i) == Some(
                        "zone "@ + decimal(zone as nat) + " "@ + drifts[i]
                            + " °C against the cure profile · press "@ + id,
                    )))))
                },
                _ => press_fault(press, drifts, i) is None,
            }
        }),
{
}

/// What is told of a press is noted as a warning, unless one of the last five
/// faults of the line says the same.
pub proof fn a_press_is_not_told_of_over_and_over(
    m: ModelView,
    station: Seq<char>,
    ts: i64,
    presses: Seq<JsonView>,
    press: JsonView,
    drifts: Seq<Seq<char>>,
)
    ensures
        ({
            let before = presses_reported(m, station, ts, presses, drifts);
            let a = presses_reported(m, station, ts, presses.push(press), drifts);
            match press_fault(press, drifts, presses.len() as int) {
                Some(text) => {
                    let lately = exists|i: int|
                        0 <= i < 5 && i < before.faults.len() && field(
                            #[trigger] before.faults[i],
                            "text"@,
                        ) == Some(JsonView::Str(text));
                    &&& lately ==> a == before
                    &&& !lately ==> {
                        &&& one_before(a.faults, before.faults, a.faults[0], 60)
                        &&& field(a.faults[0], "text"@) == Some(JsonView::Str(text))
                        &&& field(a.faults[0], "severity"@) == Some(JsonView::Str("warn"@))
                        &&& field(a.faults[0], "state"@) == Some(JsonView::Str("watching"@))
                        &&& field(a.faults[0], "station"@) == Some(JsonView::Str(station))
                        &&& field(a.faults[0], "ts"@) == Some(int_view(ts))
                    }
                },
                None => a == before,
            }
        }),
        presses_reported(m, station, ts, Seq::empty(), drifts) == m,
{
    let before = presses_reported(m, station, ts, presses, drifts);
    assert(presses.push(press).drop_last() =~= presses);
    if let Some(text) = press_fault(press, drifts, presses.len() as int) {
        a_fault_comes_first(before, station, ts, "warn"@, text, "watching"@);
        if lately_said(before.faults, text) {
            let i = choose|i: int|
                0 <= i < 5 && i < before.faults.len() && super::fold::says(
                    #[trigger] before.faults[i],
                    text,
                );
            assert(field(before.faults[i], "text"@) == Some(JsonView::Str(text)));
        } else {
            assert forall|i: int| 0 <= i < 5 && i < before.faults.len() implies field(
                #[trigger] before.faults[i],
                "text"@,
            ) != Some(JsonView::Str(text)) by {
                assert(!super::fold::says(before.faults[i], text));
            }
        }
    }
}

// ---------------------------------------------------------------------------
// Dead letters

/// The headers of a record are shown by name, and of two with one name the
/// later.
pub proof fn the_last_header_of_a_name_is_shown(headers: Seq<HeaderView>, i: int)
    requires
        0 <= i < headers.len(),
        forall|j: int| i < j < headers.len() ==> (#[trigger] headers[j]).key != headers[i].key,
    ensures
        header_fields(headers).dom().contains(headers[i].key),
        header_fields(headers)[headers[i].key] == text_or_null(
            match headers[i].value {
                Some(b) => Some(lossy_text(b)),
                None => None,
            },
        ),
    decreases headers.len(),
{
    if i < headers.len() - 1 {
        let rest = headers.drop_last();
        assert(rest[i] == headers[i]);
        assert forall|j: int| i < j < rest.len() implies (#[trigger] rest[j]).key
            != rest[i].key by {
            assert(rest[j] == headers[j]);
        }
        assert(headers[headers.len() - 1].key != headers[i].key);
        the_last_header_of_a_name_is_shown(rest, i);
    }
}

/// No header is shown that is not there.
pub proof fn a_shown_header_is_there(headers: Seq<HeaderView>, name: Seq<char>)
    requires
        header_fields(headers).dom().contains(name),
    ensures
        exists|i: int| 0 <= i < headers.len() && (#[trigger] headers[i]).key == name,
    decreases headers.len(),
{
    if headers.len() > 0 {
        if headers.last().key == name {
            assert(headers[headers.len() - 1].key == name);
        } else {
            let rest = headers.drop_last();
            a_shown_header_is_there(rest, name);
            let i = choose|i: int| 0 <= i < rest.len() && (#[trigger] rest[i]).key == name;
            assert(headers[i].key == name);
        }
    }
}

/// Whether a name tells why: it holds `reason`, `detail` or `error`.
pub open spec fn names_a_reason(name: Seq<char>) -> bool {
    contains_text(name, "reason"@) || contains_text(name, "detail"@) || contains_text(
        name,
        "error"@,
    )
}

/// Whether a name tells where from: it holds `origin` or `source`.
pub open spec fn names_an_origin(name: Seq<char>) -> bool {
    contains_text(name, "origin"@) || contains_text(name, "source"@)
}

/// The reason among headers is in the first of them whose name tells of one.
pub proof fn the_first_reason_counts(
    headers: Map<Seq<char>, JsonView>,
    names: Seq<Seq<char>>,
    n: nat,
)
    requires
        n <= names.len(),
        forall|i: int| 0 <= i < n ==> !names_a_reason(#[trigger] names[i]),
        n < names.len() ==> names_a_reason(names[n as int]),
    ensures
        reason_among(headers, names) == if n < names.len() {
            match headers[names[n as int]] {
                JsonView::Str(s) => Some(s),
                _ => None,
            }
        } else {
            None
        },
    decreases names.len(),
{
    if names.len() > 0 && n > 0 {
        let rest = names.drop_first();
        assert(!names_a_reason(names[0]));
        assert forall|i: int| 0 <= i < n - 1 implies !names_a_reason(#[trigger] rest[i]) by {
            assert(rest[i] == names[i + 1]);
        }
        if n < names.len() {
            assert(rest[n - 1] == names[n as int]);
        }
        the_first_reason_counts(headers, rest, (n - 1) as nat);
    }
}

/// How many of the first `n` names tell of an origin.
pub open spec fn origins_before(names: Seq<Seq<char>>, n: nat) -> nat {
    how_many(n, |i: int| names_an_origin(names[i]))
}

proof fn lemma_origins_of_front(names: Seq<Seq<char>>, n: nat)
    requires
        names.len() > 0,
        n < names.len(),
    ensures
        origins_before(names.drop_last(), n) == origins_before(names, n),
        origins_before(names, names.len()) == origins_before(names, (names.len() - 1) as nat) + if
            names_an_origin(names.last()) {
            1nat
        } else {
            0nat
        },
{
    let rest = names.drop_last();
    let all = |i: int| names_an_origin(names[i]);
    let of_rest = |i: int| names_an_origin(rest[i]);
    assert forall|i: int| 0 <= i < n implies #[trigger] all(i) == of_rest(i) by {
        assert(names[i] == rest[i]);
    }
    lemma_how_many(n, all, of_rest);
    assert(origins_before(names, names.len()) == how_many(names.len(), all));
}

/// The origins among headers are all of them whose names tell of one, each as
/// its name, an equals sign and its text.
pub proof fn each_origin_is_told(headers: Map<Seq<char>, JsonView>, names: Seq<Seq<char>>)
    ensures
        origins_among(headers, names).len() == origins_before(names, names.len()),
        forall|i: int|
            0 <= i < names.len() && names_an_origin(#[trigger] names[i]) ==> {
                let k = origins_before(names, i as nat) as int;
                &&& k < origins_among(headers, names).len()
                &&& origins_among(headers, names)[k] == names[i] + "="@ + match headers[names[i]] {
                    JsonView::Str(s) => s,
                    _ => ""@,
                }
            },
    decreases names.len(),
{
    if names.len() > 0 {
        let rest = names.drop_last();
        let last = names.len() - 1;
        each_origin_is_told(headers, rest);
        lemma_origins_of_front(names, last as nat);
        assert(tells_origin(names.last()) == names_an_origin(names[last]));
        assert forall|i: int| 0 <= i < names.len()
            && names_an_origin(#[trigger] names[i]) implies ({
            let k = origins_before(names, i as nat) as int;
            &&& k < origins_among(headers, names).len()
            &&& origins_among(headers, names)[k] == names[i] + "="@ + match headers[names[i]] {
                JsonView::Str(s) => s,
                _ => ""@,
            }
        }) by {
            if i < last {
                assert(rest[i] == names[i]);
                lemma_origins_of_front(names, i as nat);
            }
        }
    }
}

/// A dead letter is told with its topic, with the reason that its headers
/// give, and with the origins that they give.
pub proof fn a_buried_record_is_told(topic: Seq<char>, headers: Map<Seq<char>, JsonView>)
    ensures
        ({
            let names = listed::<String>(headers.dom());
            let origins = joined(origins_among(headers, names), " "@);
            let text = "1 record in "@ + topic + " · "@ + match reason_among(headers, names) {
                Some(r) => r,
                None => "permanent"@,
            };
            dead_letter_text(topic, headers) == if origins.len() > 0 {
                text + " · "@ + origins
            } else {
                text
            }
        }),
{
}

/// A dead letter is shown with its time, where it stands, its key, its
/// headers, and the first three hundred characters of its value.
pub proof fn a_dead_letter_is_shown(rec: ConsumedRecord, now: i64)
    ensures
        ({
            let shown = dead_letter_view(rec, now);
            &&& field(shown, "ts"@)
                == Some(int_view(match rec.timestamp { Some(t) => t, None => now }))
            &&& field(shown, "topic"@) == Some(JsonView::Str(rec.topic@))
            &&& field(shown, "partition"@) == Some(int_view(rec.partition as i64))
            &&& field(shown, "offset"@) == Some(int_view(rec.offset))
            &&& field(shown, "key"@)

                    == Some(text_or_null(match rec.key { Some(k) => Some(lossy_text(k@)), None => None }))
            &&& field(shown, "headers"@) == Some(
                JsonView::Object(header_fields(header_views(rec.headers@))),
            )
            &&& match rec.value {
                None => field(shown, "value"@) == Some(JsonView::Null),
                Some(b) => field(shown, "value"@) matches Some(JsonView::Str(s)) && {
                    let text = lossy_text(b@);
                    &&& s.len() == if text.len() < 300 {
                        text.len()
                    } else {
                        300
                    }
                    &&& forall|i: int| 0 <= i < s.len() ==> s[i] == text[i]
                },
            }
        }),
{
    reveal_strlit("ts");
    reveal_strlit("topic");
    reveal_strlit("partition");
    reveal_strlit("offset");
    reveal_strlit("key");
    reveal_strlit("headers");
    reveal_strlit("value");
    assert("ts"@.len() == 2 && "topic"@.len() == 5 && "partition"@.len() == 9
        && "offset"@.len() == 6 && "key"@.len() == 3 && "headers"@.len() == 7
        && "value"@.len() == 5);
    assert("topic"@[0] == 't');
    assert("value"@[0] == 'v');
}

/// A dead letter counts as one of its station, and comes first among those of
/// the station, of which five are kept. It is noted as a warning at the time
/// of its record.
pub proof fn a_dead_letter_is_noted_with_its_station(
    m: ModelView,
    station: Seq<char>,
    rec: ConsumedRecord,
    now: i64,
)
    ensures
        ({
            let a = buried(m, station, rec, now);
            let st = station_of(a, station);
            let was = station_of(m, station);
            &&& st.dlq == was.dlq.wrapping_add(1)
            &&& one_before(st.dead_letters, was.dead_letters, dead_letter_view(rec, now), 5)
            &&& st == (StationView {
                dlq: st.dlq,
                dead_letters: st.dead_letters,
                faults: st.faults,
                ..was
            })
            &&& one_before(a.faults, m.faults, a.faults[0], 60)
            &&& field(a.faults[0], "severity"@) == Some(JsonView::Str("warn"@))
            &&& field(a.faults[0], "station"@) == Some(JsonView::Str(station))
            &&& field(a.faults[0], "ts"@) == Some(
                int_view(
                    match rec.timestamp {
                        Some(t) => t,
                        None => now,
                    },
                ),
            )
            &&& field(a.faults[0], "text"@) == Some(
                JsonView::Str(
                    dead_letter_text(rec.topic@, header_fields(header_views(rec.headers@))),
                ),
            )
            &&& field(a.faults[0], "state"@) == Some(
                JsonView::Str("dead-lettered · partition advanced"@),
            )
        }),
{
    let st = station_of(m, station);
    let st = StationView {
        dlq: st.dlq.wrapping_add(1),
        dead_letters: super::model::first_of(
            seq![dead_letter_view(rec, now)] + st.dead_letters,
            super::model::DEAD_LETTERS_KEPT as int,
        ),
        ..st
    };
    let m1 = super::model::with_station(m, station, st);
    a_fault_comes_first(
        m1,
        station,
        match rec.timestamp {
            Some(t) => t,
            None => now,
        },
        "warn"@,
        dead_letter_text(rec.topic@, header_fields(header_views(rec.headers@))),
        "dead-lettered · partition advanced"@,
    );
}

// ---------------------------------------------------------------------------
// Duplicates

/// A duplicate in the ledger of dispositions is critical, and is told at the
/// first, the second, the fourth and so on, of final test.
pub proof fn duplicates_are_critical(m: ModelView, rec: ConsumedRecord, now: i64, l: LedgerView)
    requires
        l == ledger_read(m.ledger, value_in(opt_bytes(rec.value))),
    ensures
        ({
            let a = disposed(m, rec, now);
            let told = l.duplicates > 0 && exists|k: nat|
                l.duplicates == #[trigger] vstd::arithmetic::power::pow(2, k);
            &&& a.ledger == l
            &&& !told ==> a == (ModelView { ledger: l, ..m })
            &&& told ==> {
                &&& one_before(a.faults, m.faults, a.faults[0], 60)
                &&& field(a.faults[0], "severity"@) == Some(JsonView::Str("crit"@))
                &&& field(a.faults[0], "station"@) == Some(JsonView::Str("st06"@))
                &&& field(a.faults[0], "text"@) == Some(
                    JsonView::Str(
                        decimal(l.duplicates as nat) + " duplicate unit(s) in lot.disposition"@,
                    ),
                )
                &&& field(a.faults[0], "state"@) == Some(JsonView::Str("must read 0"@))
            }
        }),
{
    let m1 = ModelView { ledger: l, ..m };
    a_fault_comes_first(
        m1,
        "st06"@,
        match rec.timestamp {
            Some(t) => t,
            None => now,
        },
        "crit"@,
        decimal(l.duplicates as nat) + " duplicate unit(s) in lot.disposition"@,
        "must read 0"@,
    );
    vstd::arithmetic::power2::is_pow2_equiv(l.duplicates as int);
    assert(is_pow2(l.duplicates as int) <==> exists|k: nat|
        l.duplicates == #[trigger] vstd::arithmetic::power::pow(2, k));
}

/// A duplicate in the twin's ledger is expected, and is told as a warning at
/// the first and at each hundredth.
pub proof fn duplicates_of_the_twin_are_expected(
    m: ModelView,
    rec: ConsumedRecord,
    now: i64,
    l: LedgerView,
)
    requires
        l == ledger_read(m.twin, value_in(opt_bytes(rec.value))),
    ensures
        ({
            let a = twin_disposed(m, rec, now);
            let told = l.duplicates == 1 || (l.duplicates > 0 && l.duplicates as int % 100 == 0);
            &&& a.twin == l
            &&& !told ==> a == (ModelView { twin: l, ..m })
            &&& told ==> {
                &&& one_before(a.faults, m.faults, a.faults[0], 60)
                &&& field(a.faults[0], "severity"@) == Some(JsonView::Str("warn"@))
                &&& field(a.faults[0], "station"@) == Some(JsonView::Str("st06twin"@))
                &&& field(a.faults[0], "text"@) == Some(
                    JsonView::Str(
                        decimal(l.duplicates as nat)
                            + " duplicate unit(s) in lot.disposition.twin (at-least-once replay)"@,
                    ),
                )
                &&& field(a.faults[0], "state"@) == Some(JsonView::Str("expected"@))
            }
        }),
{
    let m1 = ModelView { twin: l, ..m };
    a_fault_comes_first(
        m1,
        "st06twin"@,
        match rec.timestamp {
            Some(t) => t,
            None => now,
        },
        "warn"@,
        decimal(l.duplicates as nat)
            + " duplicate unit(s) in lot.disposition.twin (at-least-once replay)"@,
        "expected"@,
    );
}

// ---------------------------------------------------------------------------
// Samples

/// The first three records of each partition are kept as samples, in the
/// order they came in.
pub proof fn three_records_of_a_partition_are_kept(
    m: Map<Seq<char>, Seq<JsonView>>,
    rec: ConsumedRecord,
    name: Seq<char>,
)
    ensures
        ({
            let own = rec.topic@ + "/"@ + signed_decimal(rec.partition as int);
            let before = samples_at(m, own);
            let after = samples_at(resampled(m, rec), own);
            &&& before.len() < 3 ==> after == before.push(sample_view(rec))
            &&& before.len() >= 3 ==> after == before
            &&& name != own ==> samples_at(resampled(m, rec), name) == samples_at(m, name)
        }),
{
}

/// The samples of a partition are those kept under its name.
pub proof fn samples_are_kept_by_name(
    m: Map<Seq<char>, Seq<JsonView>>,
    name: Seq<char>,
    row: Seq<JsonView>,
)
    ensures
        samples_at(m.insert(name, row), name) == row,
        !m.dom().contains(name) ==> samples_at(m, name).len() == 0,
{
}

/// A sample tells the offset and the time of its record, its key, how many
/// headers it has, how long its value is and the first 120 bytes of it.
pub proof fn a_sample_tells_its_record(rec: ConsumedRecord)
    ensures
        ({
            let shown = sample_view(rec);
            &&& field(shown, "offset"@) == Some(int_view(rec.offset))
            &&& field(shown, "ts"@)
                == Some(match rec.timestamp { Some(t) => int_view(t), None => JsonView::Null })
            &&& field(shown, "ts_type"@) == Some(JsonView::Str(rec.timestamp_type@))
            &&& field(shown, "key"@)

                    == Some(text_or_null(match rec.key { Some(k) => Some(lossy_text(k@)), None => None }))
            &&& field(shown, "headers"@) == Some(JsonView::Uint(rec.headers@.len() as u64))
            &&& match rec.value {
                None => field(shown, "value_len"@) == Some(JsonView::Null) && field(
                    shown,
                    "value_head"@,
                ) == Some(JsonView::Null),
                Some(b) => {
                    let start = b@.take(
                        if b@.len() < 120 {
                            b@.len() as int
                        } else {
                            120
                        },
                    );
                    &&& field(shown, "value_len"@) == Some(JsonView::Uint(b@.len() as u64))
                    &&& field(shown, "value_head"@) == Some(JsonView::Str(lossy_text(start)))
                },
            }
        }),
{
    reveal_strlit("offset");
    reveal_strlit("ts");
    reveal_strlit("ts_type");
    reveal_strlit("key");
    reveal_strlit("value_len");
    reveal_strlit("value_head");
    reveal_strlit("headers");
    assert("offset"@.len() == 6 && "ts"@.len() == 2 && "ts_type"@.len() == 7 && "key"@.len() == 3
        && "value_len"@.len() == 9 && "value_head"@.len() == 10 && "headers"@.len() == 7);
    assert("ts_type"@[0] == 't');
    assert("headers"@[0] == 'h');
    if let Some(b) = rec.value {
        if b@.len() <= 120 {
            assert(b@.take(b@.len() as int) =~= b@);
        }
    }
}

} // verus!
