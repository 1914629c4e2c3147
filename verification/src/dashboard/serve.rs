//! What the dashboard answers over HTTP.

use std::collections::VecDeque;

use vstd::prelude::*;
use vstd::string::*;
use vstd::utf8::*;

use super::fold::count_of;
use super::model::{
    live_ids, number_in, number_of_field, sample_views, station_of, Ledger, LedgerView, Model,
    ModelView, Station, StationView,
};
use super::ring::{count_at, percentile, toward_zero};
use crate::json::{
    copy_list, counts_json, counts_object, field, int_view, json_text, json_text_of,
    lemma_list_view, lemma_list_view_push, lemma_one_more, list_view, object_field, opt_uint_view,
    Fields, Json, JsonView,
};
use crate::ordered_map::{listed, OrderedMap};
use crate::text::{before_char, part_before, replace_all, replaced_all, text_eq};

verus! {

broadcast use {vstd::string::group_string_axioms, crate::json::lemma_list_view};

// ---------------------------------------------------------------------------
// Stations

/// How many minutes the page shows.
pub const MINUTES_SHOWN: i64 = 240;

/// The rates of a station in records per second, rounded to tenths.
pub struct Rates {
    pub ten_seconds: Json,
    pub minute: Json,
}

/// A row of JSON values as JSON.
pub open spec fn numbers(s: Seq<u64>) -> Seq<JsonView> {
    s.map_values(|n: u64| JsonView::Uint(n))
}

/// A station as the page reads it.
pub open spec fn station_object(
    id: Seq<char>,
    st: StationView,
    now: i64,
    rates: Rates,
) -> JsonView {
    JsonView::Object(
        st.detail.insert("consumed"@, JsonView::Uint(st.consumed)).insert(
            "produced"@,
            JsonView::Uint(st.produced),
        ).insert("dlq"@, JsonView::Uint(st.dlq)).insert(
            "redelivered"@,
            JsonView::Uint(st.redelivered),
        ).insert("partial"@, JsonView::Uint(st.partial)).insert(
            "replayed"@,
            JsonView::Uint(st.replayed),
        ).insert("rate_10s"@, rates.ten_seconds@).insert("rate_60s"@, rates.minute@).insert(
            "per_min"@,
            JsonView::List(
                Seq::new(
                    MINUTES_SHOWN as nat,
                    |i: int|
                        JsonView::Uint(
                            count_at(
                                st.ring.per_min,
                                toward_zero(now as int, 60_000) - (MINUTES_SHOWN - 1 - i),
                            ),
                        ),
                ),
            ),
        ).insert(
            "live_instances"@,
            JsonView::Uint(live_ids(st.instances, now).len() as u64),
        ).insert("instances_ever"@, JsonView::Uint(st.instances_ever)).insert(
            "last_seen"@,
            int_view(st.last_seen),
        ).insert("latency_p50"@, opt_uint_view(percentile(st.latency, 50))).insert(
            "latency_p95"@,
            opt_uint_view(percentile(st.latency, 95)),
        ).insert("dead_letters"@, JsonView::List(st.dead_letters)).insert(
            "faults"@,
            JsonView::List(st.faults),
        ).insert("id"@, JsonView::Str(id)),
    )
}

fn copy_row(row: &VecDeque<Json>) -> (r: Vec<Json>)
    ensures
        list_view(r@) == list_view(row@),
{
    let mut r: Vec<Json> = Vec::new();
    let mut i: usize = 0;
    while i < row.len()
        invariant
            i <= row@.len(),
            list_view(r@) =~= list_view(row@).take(i as int),
        decreases row@.len() - i,
    {
        let x = row[i].copy();
        proof {
            lemma_list_view_push(r@, x);
        }
        r.push(x);
        i = i + 1;
    }
    r
}

fn number_list(v: &Vec<u64>) -> (r: Vec<Json>)
    ensures
        list_view(r@) == numbers(v@),
{
    let mut r: Vec<Json> = Vec::new();
    let mut i: usize = 0;
    while i < v.len()
        invariant
            i <= v@.len(),
            list_view(r@) =~= numbers(v@).take(i as int),
        decreases v@.len() - i,
    {
        let x = Json::Uint(v[i]);
        proof {
            lemma_list_view_push(r@, x);
        }
        r.push(x);
        i = i + 1;
    }
    r
}

/// A station as the page reads it: its details, and over them its counts, its
/// rates and its rows.
pub fn station_json(id: &str, st: &Station, now: i64, rates: &Rates) -> (r: Json)
    ensures
        r@ == station_object(id@, st@, now, *rates),
{
    let minutes = st.ring.minutes_at(MINUTES_SHOWN, now);
    let per_min = number_list(&minutes);
    let live = st.live_instances(now);
    let mut d = st.detail.copy();
    d.put("consumed", Json::Uint(st.consumed));
    d.put("produced", Json::Uint(st.produced));
    d.put("dlq", Json::Uint(st.dlq));
    d.put("redelivered", Json::Uint(st.redelivered));
    d.put("partial", Json::Uint(st.partial));
    d.put("replayed", Json::Uint(st.replayed));
    d.put("rate_10s", rates.ten_seconds.copy());
    d.put("rate_60s", rates.minute.copy());
    proof {
        assert(list_view(per_min@) =~= Seq::new(
            MINUTES_SHOWN as nat,
            |i: int|
                JsonView::Uint(
                    count_at(
                        st@.ring.per_min,
                        toward_zero(now as int, 60_000) - (MINUTES_SHOWN - 1 - i),
                    ),
                ),
        ));
    }
    d.put("per_min", Json::List(per_min));
    d.put("live_instances", Json::Uint(live as u64));
    d.put("instances_ever", Json::Uint(st.instances_ever));
    d.put("last_seen", Json::whole(st.last_seen));
    d.put("latency_p50", Json::opt_uint(st.latency.pct(50)));
    d.put("latency_p95", Json::opt_uint(st.latency.pct(95)));
    d.put("dead_letters", Json::List(copy_row(&st.dead_letters)));
    d.put("faults", Json::List(copy_row(&st.faults)));
    d.put("id", Json::text(id));
    Json::Object(d)
}

fn station_json_of(m: &Model, id: &str, now: i64, rates: &Rates) -> (r: Json)
    ensures
        r@ == station_object(id@, station_of(m@, id@), now, *rates),
{
    match m.stations.get(&id.to_owned()) {
        Some(st) => station_json(id, st, now, rates),
        None => {
            let st = Station::new();
            station_json(id, &st, now, rates)
        },
    }
}

// ---------------------------------------------------------------------------
// The state

/// Lists by name as JSON.
pub open spec fn lists_object(m: Map<Seq<char>, Seq<JsonView>>) -> JsonView {
    JsonView::Object(m.map_values(|s: Seq<JsonView>| JsonView::List(s)))
}

fn lists_json(m: &OrderedMap<String, Vec<Json>>) -> (r: Json)
    ensures
        r@ == lists_object(sample_views(m@)),
{
    let n = m.len();
    let ghost names = m.keys();
    let ghost want = sample_views(m@).map_values(|s: Seq<JsonView>| JsonView::List(s));
    let mut f = Fields::new();
    let mut i: usize = 0;
    while i < n
        invariant
            i <= n == names.len(),
            names == m.keys(),
            want == sample_views(m@).map_values(|s: Seq<JsonView>| JsonView::List(s)),
            forall|k: Seq<char>|
                #[trigger] f@.dom().contains(k) <==> names.take(i as int).contains(k),
            forall|k: Seq<char>| #[trigger]
                f@.dom().contains(k) ==> m@.dom().contains(k) && f@[k] == want[k],
        decreases n - i,
    {
        let name = m.key_at(i).clone();
        let x = copy_list(m.value_at(i));
        proof {
            lemma_one_more(names, i as int);
        }
        f.set(name, Json::List(x));
        i = i + 1;
    }
    proof {
        assert(names.take(n as int) =~= names);
        assert(f@ =~= want);
    }
    Json::Object(f)
}

/// Whether a fault still asks for attention.
pub open spec fn is_open(fault: JsonView) -> bool {
    field(fault, "severity"@) == Some(JsonView::Str("crit"@)) || field(fault, "severity"@) == Some(
        JsonView::Str("warn"@),
    )
}

/// How many faults still ask for attention.
pub open spec fn open_count(faults: Seq<JsonView>) -> nat {
    faults.filter(|f: JsonView| is_open(f)).len()
}

fn count_open(faults: &VecDeque<Json>) -> (n: u64)
    ensures
        n == open_count(list_view(faults@)),
{
    let ghost all = list_view(faults@);
    let ghost wanted = |f: JsonView| is_open(f);
    let mut n: u64 = 0;
    let mut i: usize = 0;
    assert(all.take(0).filter(wanted) =~= Seq::empty());
    while i < faults.len()
        invariant
            i <= faults@.len(),
            all == list_view(faults@),
            wanted == (|f: JsonView| is_open(f)),
            n == all.take(i as int).filter(wanted).len(),
            n <= i,
        decreases faults@.len() - i,
    {
        proof {
            reveal(Seq::filter);
            assert(all.take(i + 1).drop_last() =~= all.take(i as int));
            assert(all.take(i + 1).last() == all[i as int]);
        }
        let f = &faults[i];
        match f.field("severity") {
            Some(Json::Str(s)) => {
                if text_eq(s.as_str(), "crit") || text_eq(s.as_str(), "warn") {
                    n = n + 1;
                }
            },
            _ => {},
        }
        i = i + 1;
    }
    assert(all.take(all.len() as int) =~= all);
    n
}

/// The sum of the numbers in the fields of these names. It wraps at 64 bits.
pub open spec fn sum_of(m: Map<Seq<char>, JsonView>, names: Seq<Seq<char>>) -> u64
    decreases names.len(),
{
    if names.len() == 0 {
        0
    } else {
        sum_of(m, names.drop_last()).wrapping_add(number_in(m, names.last()))
    }
}

/// The lag of all groups together, where it is known.
pub open spec fn total_lag(lag: JsonView) -> Option<u64> {
    match object_field(lag, "groups"@) {
        Some(g) => Some(sum_of(g, listed::<String>(g.dom()))),
        None => None,
    }
}

fn sum_groups(lag: &Json) -> (r: Option<u64>)
    ensures
        r == total_lag(lag@),
{
    match lag.object_field("groups") {
        Some(g) => {
            let n = g.len();
            let ghost names = g.names();
            let mut sum: u64 = 0;
            let mut i: usize = 0;
            assert(names.take(0) =~= Seq::empty());
            while i < n
                invariant
                    i <= n == names.len(),
                    names == g.names(),
                    sum == sum_of(g@, names.take(i as int)),
                decreases n - i,
            {
                proof {
                    assert(names.take(i + 1).drop_last() =~= names.take(i as int));
                    assert(names.take(i + 1).last() == names[i as int]);
                }
                let (name, _) = g.at(i);
                sum = sum.wrapping_add(number_of_field(g, name.as_str()));
                i = i + 1;
            }
            assert(names.take(n as int) =~= names);
            Some(sum)
        },
        None => None,
    }
}

/// Whole seconds between two times in milliseconds.
pub open spec fn seconds_between(from: i64, to: i64) -> i64 {
    toward_zero(to.wrapping_sub(from) as int, 1_000) as i64
}

fn seconds_from_to(from: i64, to: i64) -> (s: i64)
    ensures
        s == seconds_between(from, to),
{
    let d = to.wrapping_sub(from);
    if d >= 0 {
        d / 1_000
    } else if d == i64::MIN {
        -9_223_372_036_854_775
    } else {
        -((-d) / 1_000)
    }
}

/// What the page reads of the simulator.
pub open spec fn sim_object(m: ModelView, now: i64) -> JsonView {
    JsonView::Object(
        Map::empty().insert("heartbeat"@, m.sim).insert("seen"@, int_view(m.sim_seen)).insert(
            "age_s"@,
            int_view(
                if m.sim_seen > 0 {
                    seconds_between(m.sim_seen, now)
                } else {
                    -1i64
                },
            ),
        ).insert("produced"@, counts_object(m.sim_produced)),
    )
}

/// The counts of a ledger that both ledgers are shown with.
pub open spec fn ledger_fields(l: LedgerView) -> Map<Seq<char>, JsonView> {
    Map::empty().insert("records"@, JsonView::Uint(l.records)).insert(
        "units"@,
        JsonView::Uint(l.units.len() as u64),
    ).insert("duplicates"@, JsonView::Uint(l.duplicates))
}

/// The stations as the page reads them.
pub open spec fn stations_object(m: ModelView, now: i64, rates: Seq<Rates>) -> JsonView {
    JsonView::Object(
        Map::empty().insert(
            "st01"@,
            station_object("st01"@, station_of(m, "st01"@), now, rates[0]),
        ).insert(
            "st02"@,
            station_object("st02"@, station_of(m, "st02"@), now, rates[1]),
        ).insert(
            "st03"@,
            station_object("st03"@, station_of(m, "st03"@), now, rates[2]),
        ).insert(
            "st04"@,
            station_object("st04"@, station_of(m, "st04"@), now, rates[3]),
        ).insert(
            "st05"@,
            station_object("st05"@, station_of(m, "st05"@), now, rates[4]),
        ).insert(
            "st06"@,
            station_object("st06"@, station_of(m, "st06"@), now, rates[5]),
        ).insert(
            "st06twin"@,
            station_object("st06twin"@, station_of(m, "st06twin"@), now, rates[6]),
        ),
    )
}

/// The state of the line as the page reads it.
pub open spec fn state_object(m: ModelView, now: i64, rates: Seq<Rates>) -> JsonView {
    JsonView::Object(
        Map::empty().insert("now"@, int_view(now)).insert(
            "uptime_s"@,
            int_view(seconds_between(m.started, now)),
        ).insert("title"@, JsonView::Str("Fab 3 Line"@)).insert("sim"@, sim_object(m, now)).insert(
            "stations"@,
            stations_object(m, now, rates),
        ).insert(
            "ledger"@,
            JsonView::Object(
                ledger_fields(m.ledger).insert("pass"@, JsonView::Uint(m.ledger.pass)).insert(
                    "fail"@,
                    JsonView::Uint(m.ledger.fail),
                ),
            ),
        ).insert("twin"@, JsonView::Object(ledger_fields(m.twin))).insert(
            "faults"@,
            JsonView::List(m.faults),
        ).insert("open_faults"@, JsonView::Uint(open_count(m.faults) as u64)).insert(
            "lag"@,
            m.lag,
        ).insert("total_lag"@, opt_uint_view(total_lag(m.lag))).insert(
            "fold"@,
            JsonView::Object(
                Map::empty().insert("records"@, JsonView::Uint(m.metrics_records)).insert(
                    "batches"@,
                    JsonView::Uint(m.batches),
                ),
            ),
        ),
    )
}

fn ledger_json(l: &Ledger) -> (r: Fields)
    ensures
        r@ == ledger_fields(l@),
{
    let mut f = Fields::new();
    f.put("records", Json::Uint(l.records));
    f.put("units", Json::Uint(l.units.len() as u64));
    f.put("duplicates", Json::Uint(l.duplicates));
    f
}

fn sim_json(m: &Model, now: i64) -> (r: Json)
    ensures
        r@ == sim_object(m@, now),
{
    let age: i64 = if m.sim_seen > 0 {
        seconds_from_to(m.sim_seen, now)
    } else {
        -1
    };
    let mut f = Fields::new();
    f.put("heartbeat", m.sim.copy());
    f.put("seen", Json::whole(m.sim_seen));
    f.put("age_s", Json::whole(age));
    f.put("produced", counts_json(&m.sim_produced));
    Json::Object(f)
}

fn stations_json(m: &Model, now: i64, rates: &Vec<Rates>) -> (r: Json)
    requires
        rates@.len() == 7,
    ensures
        r@ == stations_object(m@, now, rates@),
{
    let mut f = Fields::new();
    f.put("st01", station_json_of(m, "st01", now, &rates[0]));
    f.put("st02", station_json_of(m, "st02", now, &rates[1]));
    f.put("st03", station_json_of(m, "st03", now, &rates[2]));
    f.put("st04", station_json_of(m, "st04", now, &rates[3]));
    f.put("st05", station_json_of(m, "st05", now, &rates[4]));
    f.put("st06", station_json_of(m, "st06", now, &rates[5]));
    f.put("st06twin", station_json_of(m, "st06twin", now, &rates[6]));
    Json::Object(f)
}

/// The state of the line as the page reads it. The rates are those of the
/// seven stations, in the order of the line.
pub fn state_json(m: &Model, now: i64, rates: &Vec<Rates>) -> (r: Json)
    requires
        rates@.len() == 7,
    ensures
        r@ == state_object(m@, now, rates@),
{
    let mut fold = Fields::new();
    fold.put("records", Json::Uint(m.metrics_records));
    fold.put("batches", Json::Uint(m.batches));
    let mut ledger = ledger_json(&m.ledger);
    ledger.put("pass", Json::Uint(m.ledger.pass));
    ledger.put("fail", Json::Uint(m.ledger.fail));
    let open = count_open(&m.faults);
    let mut f = Fields::new();
    f.put("now", Json::whole(now));
    f.put("uptime_s", Json::whole(seconds_from_to(m.started, now)));
    f.put("title", Json::text("Fab 3 Line"));
    f.put("sim", sim_json(m, now));
    f.put("stations", stations_json(m, now, rates));
    f.put("ledger", Json::Object(ledger));
    f.put("twin", Json::Object(ledger_json(&m.twin)));
    f.put("faults", Json::List(copy_row(&m.faults)));
    f.put("open_faults", Json::Uint(open));
    f.put("lag", m.lag.copy());
    f.put("total_lag", Json::opt_uint(sum_groups(&m.lag)));
    f.put("fold", Json::Object(fold));
    Json::Object(f)
}

// ---------------------------------------------------------------------------
// Validation

/// What is produced for a station, consumed, dead-lettered and delivered
/// again, side by side.
pub open spec fn validation_of(m: ModelView, id: Seq<char>, topic: Seq<char>) -> JsonView {
    let st = station_of(m, id);
    JsonView::Object(
        Map::empty().insert("input_topic"@, JsonView::Str(topic)).insert(
            "produced"@,
            JsonView::Uint(count_of(m.sim_produced, topic)),
        ).insert("consumed"@, JsonView::Uint(st.consumed)).insert(
            "dlq"@,
            JsonView::Uint(st.dlq),
        ).insert("redelivered"@, JsonView::Uint(st.redelivered)).insert(
            "replayed"@,
            JsonView::Uint(st.replayed),
        ).insert("partial"@, JsonView::Uint(st.partial)).insert(
            "outputs"@,
            JsonView::Uint(st.produced),
        ),
    )
}

/// A detail of a station, zero where it is not known.
pub open spec fn detail_or_zero(st: StationView, key: Seq<char>) -> JsonView {
    if st.detail.dom().contains(key) {
        st.detail[key]
    } else {
        JsonView::Uint(0)
    }
}

/// What was put on the probe intake's topic, by the simulator and over HTTP
/// together, and what the intake took and turned away.
pub open spec fn validation_of_intake(m: ModelView) -> JsonView {
    let st = station_of(m, "st01"@);
    JsonView::Object(
        Map::empty().insert("input_topic"@, JsonView::Str("probe.lots"@)).insert(
            "produced"@,
            JsonView::Uint(count_of(m.sim_produced, "probe.lots"@).wrapping_add(st.produced)),
        ).insert(
            "produced_by_simulator"@,
            JsonView::Uint(count_of(m.sim_produced, "probe.lots"@)),
        ).insert("lots"@, detail_or_zero(st, "lots"@)).insert(
            "rejected"@,
            detail_or_zero(st, "rejected"@),
        ),
    )
}

/// What is served for the line to be validated with.
pub open spec fn validate_object(m: ModelView) -> JsonView {
    JsonView::Object(
        Map::empty().insert(
            "stations"@,
            JsonView::Object(
                Map::empty().insert(
                    "st02"@,
                    validation_of(m, "st02"@, "dieattach.readings"@),
                ).insert("st03"@, validation_of(m, "st03"@, "wirebond.raw"@)).insert(
                    "st04"@,
                    validation_of(m, "st04"@, "inspect.jobs"@),
                ).insert("st05"@, validation_of(m, "st05"@, "mold.telemetry"@)).insert(
                    "st06"@,
                    validation_of(m, "st06"@, "finaltest.bins"@),
                ).insert("st06twin"@, validation_of(m, "st06twin"@, "finaltest.bins"@)).insert(
                    "st01"@,
                    validation_of_intake(m),
                ),
            ),
        ).insert("ledger"@, JsonView::Object(ledger_fields(m.ledger))).insert(
            "twin"@,
            JsonView::Object(ledger_fields(m.twin)),
        ).insert(
            "sim"@,
            JsonView::Object(
                Map::empty().insert("heartbeat"@, m.sim).insert(
                    "produced"@,
                    counts_object(m.sim_produced),
                ),
            ),
        ).insert("lag"@, m.lag),
    )
}

fn sim_count(m: &Model, topic: &str) -> (n: u64)
    ensures
        n == count_of(m@.sim_produced, topic@),
{
    match m.sim_produced.get(&topic.to_owned()) {
        Some(n) => *n,
        None => 0,
    }
}

fn validation_json(m: &Model, id: &str, topic: &str) -> (r: Json)
    ensures
        r@ == validation_of(m@, id@, topic@),
{
    let (consumed, dlq, redelivered, replayed, partial, outputs) = match m.stations.get(
        &id.to_owned(),
    ) {
        Some(st) => (
            st.consumed,
            st.dlq,
            st.redelivered,
            st.replayed,
            st.partial,
            st.produced,
        ),
        None => (0, 0, 0, 0, 0, 0),
    };
    let mut f = Fields::new();
    f.put("input_topic", Json::text(topic));
    f.put("produced", Json::Uint(sim_count(m, topic)));
    f.put("consumed", Json::Uint(consumed));
    f.put("dlq", Json::Uint(dlq));
    f.put("redelivered", Json::Uint(redelivered));
    f.put("replayed", Json::Uint(replayed));
    f.put("partial", Json::Uint(partial));
    f.put("outputs", Json::Uint(outputs));
    Json::Object(f)
}

fn detail_json(st: Option<&Station>, key: &str) -> (r: Json)
    ensures
        match st {
            Some(s) => r@ == detail_or_zero(s@, key@),
            None => r@ == JsonView::Uint(0),
        },
{
    match st {
        Some(st) => match st.detail.get(key) {
            Some(x) => x.copy(),
            None => Json::Uint(0),
        },
        None => Json::Uint(0),
    }
}

fn intake_json(m: &Model) -> (r: Json)
    ensures
        r@ == validation_of_intake(m@),
{
    let st = m.stations.get(&"st01".to_owned());
    let posted: u64 = match st {
        Some(st) => st.produced,
        None => 0,
    };
    let simulated = sim_count(m, "probe.lots");
    let mut f = Fields::new();
    f.put("input_topic", Json::text("probe.lots"));
    f.put("produced", Json::Uint(simulated.wrapping_add(posted)));
    f.put("produced_by_simulator", Json::Uint(simulated));
    f.put("lots", detail_json(st, "lots"));
    f.put("rejected", detail_json(st, "rejected"));
    Json::Object(f)
}

/// What is served for the line to be validated with. What was produced is
/// what was put on a station's input topic: the simulator's count, and for
/// the probe intake what came over HTTP besides. What was consumed is the
/// station's own count.
pub fn validate_json(m: &Model) -> (r: Json)
    ensures
        r@ == validate_object(m@),
{
    let mut stations = Fields::new();
    stations.put("st02", validation_json(m, "st02", "dieattach.readings"));
    stations.put("st03", validation_json(m, "st03", "wirebond.raw"));
    stations.put("st04", validation_json(m, "st04", "inspect.jobs"));
    stations.put("st05", validation_json(m, "st05", "mold.telemetry"));
    stations.put("st06", validation_json(m, "st06", "finaltest.bins"));
    stations.put("st06twin", validation_json(m, "st06twin", "finaltest.bins"));
    stations.put("st01", intake_json(m));
    let mut sim = Fields::new();
    sim.put("heartbeat", m.sim.copy());
    sim.put("produced", counts_json(&m.sim_produced));
    let mut f = Fields::new();
    f.put("stations", Json::Object(stations));
    f.put("ledger", Json::Object(ledger_json(&m.ledger)));
    f.put("twin", Json::Object(ledger_json(&m.twin)));
    f.put("sim", Json::Object(sim));
    f.put("lag", m.lag.copy());
    Json::Object(f)
}

/// What is served for debugging.
pub open spec fn debug_object(m: ModelView) -> JsonView {
    JsonView::Object(
        Map::empty().insert("samples"@, lists_object(m.samples)).insert(
            "unparsed"@,
            JsonView::Uint(m.unparsed),
        ).insert("batches"@, JsonView::Uint(m.batches)).insert(
            "metrics_records"@,
            JsonView::Uint(m.metrics_records),
        ),
    )
}

/// What is served for debugging: the first records of each partition.
pub fn debug_json(m: &Model) -> (r: Json)
    ensures
        r@ == debug_object(m@),
{
    let mut f = Fields::new();
    f.put("samples", lists_json(&m.samples));
    f.put("unparsed", Json::Uint(m.unparsed));
    f.put("batches", Json::Uint(m.batches));
    f.put("metrics_records", Json::Uint(m.metrics_records));
    Json::Object(f)
}

// ---------------------------------------------------------------------------
// Routes

/// An answer over HTTP.
pub struct Reply {
    pub status: u16,
    pub content_type: String,
    pub body: Vec<u8>,
}

/// What an answer stands for.
#[verifier::ext_equal]
pub struct ReplyView {
    pub status: u16,
    pub content_type: Seq<char>,
    pub body: Seq<u8>,
}

impl View for Reply {
    type V = ReplyView;

    open spec fn view(&self) -> ReplyView {
        ReplyView {
            status: self.status,
            content_type: self.content_type@,
            body: self.body@,
        }
    }
}

impl Reply {
    /// The headers of the answer: its type, and that it is not to be kept.
    pub fn headers(&self) -> (r: Vec<(String, String)>)
        ensures
            r@.len() == 2,
            r@[0].0@ == "content-type"@,
            r@[0].1@ == self@.content_type,
            r@[1].0@ == "cache-control"@,
            r@[1].1@ == "no-store"@,
    {
        let mut r: Vec<(String, String)> = Vec::new();
        r.push(("content-type".to_owned(), self.content_type.clone()));
        r.push(("cache-control".to_owned(), "no-store".to_owned()));
        r
    }
}

/// An answer with a text for its body.
pub open spec fn text_reply(status: u16, content_type: Seq<char>, body: Seq<char>) -> ReplyView {
    ReplyView { status, content_type, body: encode_utf8(body) }
}

fn reply(status: u16, content_type: &str, body: &str) -> (r: Reply)
    ensures
        r@ == text_reply(status, content_type@, body@),
{
    Reply { status, content_type: content_type.to_owned(), body: body.as_bytes_vec() }
}

/// What is answered to a request.
pub open spec fn answer(
    m: ModelView,
    get: bool,
    target: Seq<char>,
    now: i64,
    rates: Seq<Rates>,
    page: Seq<char>,
    icons: Seq<char>,
) -> ReplyView {
    let path = before_char(target, '?');
    if get && (path == "/"@ || path == "/index.html"@) {
        text_reply(200, "text/html; charset=utf-8"@, replaced_all(page, "<!--ICONS-->"@, icons))
    } else if get && path == "/api/state"@ {
        text_reply(200, "application/json"@, json_text_of(state_object(m, now, rates)))
    } else if get && path == "/validate"@ {
        text_reply(200, "application/json"@, json_text_of(validate_object(m)))
    } else if get && path == "/healthz"@ {
        text_reply(200, "text/plain"@, "ok"@)
    } else if get && path == "/api/debug"@ {
        text_reply(200, "application/json"@, json_text_of(debug_object(m)))
    } else if get && path == "/icons.svg"@ {
        text_reply(200, "image/svg+xml"@, icons)
    } else {
        text_reply(
            404,
            "text/plain"@,
            "no such route: /, /api/state, /validate, /healthz"@,
        )
    }
}

/// Answers a request for a target, with or without a query.
pub fn serve(
    m: &Model,
    get: bool,
    target: &str,
    now: i64,
    rates: &Vec<Rates>,
    page: &str,
    icons: &str,
) -> (r: Reply)
    requires
        rates@.len() == 7,
    ensures
        r@ == answer(m@, get, target@, now, rates@, page@, icons@),
{
    let path = part_before(target, '?');
    let p = path.as_str();
    if get && (text_eq(p, "/") || text_eq(p, "/index.html")) {
        proof {
            reveal_strlit("<!--ICONS-->");
        }
        let body = replace_all(page, "<!--ICONS-->", icons);
        reply(200, "text/html; charset=utf-8", body.as_str())
    } else if get && text_eq(p, "/api/state") {
        let v = state_json(m, now, rates);
        reply(200, "application/json", json_text(&v).as_str())
    } else if get && text_eq(p, "/validate") {
        let v = validate_json(m);
        reply(200, "application/json", json_text(&v).as_str())
    } else if get && text_eq(p, "/healthz") {
        reply(200, "text/plain", "ok")
    } else if get && text_eq(p, "/api/debug") {
        let v = debug_json(m);
        reply(200, "application/json", json_text(&v).as_str())
    } else if get && text_eq(p, "/icons.svg") {
        reply(200, "image/svg+xml", icons)
    } else {
        reply(404, "text/plain", "no such route: /, /api/state, /validate, /healthz")
    }
}

} // verus!
