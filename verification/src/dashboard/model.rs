//! The model that the dashboard folds records into.

use std::collections::VecDeque;

use vstd::prelude::*;
use vstd::string::*;

use super::ring::{empty_ring, Ring, RingView, Samples};
use crate::json::{
    int_view, lemma_list_view, list_view, Fields, Json, JsonView,
};
use crate::ordered_map::OrderedMap;
use crate::text::text_eq;

verus! {

broadcast use {vstd::string::group_string_axioms, crate::json::lemma_list_view};

/// How long after its last heartbeat an instance counts as live.
pub const INSTANCE_LIVE_MS: i64 = 30_000;

/// How many faults of the line are kept.
pub const FAULTS_KEPT: usize = 60;

/// How many faults of a station are kept.
pub const STATION_FAULTS_KEPT: usize = 10;

/// How many dead letters of a station are kept.
pub const DEAD_LETTERS_KEPT: usize = 5;

// ---------------------------------------------------------------------------
// Names

/// The station a topic's dead letters belong to.
pub open spec fn dlq_owner(topic: Seq<char>) -> Option<Seq<char>> {
    if topic == "dieattach.dlq"@ {
        Some("st02"@)
    } else if topic == "wirebond.dlq"@ {
        Some("st03"@)
    } else if topic == "inspect.dlq"@ {
        Some("st04"@)
    } else if topic == "mold.dlq"@ {
        Some("st05"@)
    } else {
        None
    }
}

/// The station a topic's dead letters belong to.
pub fn dlq_station(topic: &str) -> (r: Option<&'static str>)
    ensures
        match r {
            Some(s) => dlq_owner(topic@) == Some(s@),
            None => dlq_owner(topic@) is None,
        },
{
    if text_eq(topic, "dieattach.dlq") {
        Some("st02")
    } else if text_eq(topic, "wirebond.dlq") {
        Some("st03")
    } else if text_eq(topic, "inspect.dlq") {
        Some("st04")
    } else if text_eq(topic, "mold.dlq") {
        Some("st05")
    } else {
        None
    }
}

/// The dead-letter topic of an input topic.
pub open spec fn dlq_of(topic: Seq<char>) -> Seq<char> {
    if topic == "dieattach.readings"@ {
        "dieattach.dlq"@
    } else if topic == "wirebond.raw"@ {
        "wirebond.dlq"@
    } else if topic == "inspect.jobs"@ {
        "inspect.dlq"@
    } else if topic == "mold.telemetry"@ {
        "mold.dlq"@
    } else {
        "dlq"@
    }
}

/// The dead-letter topic of an input topic.
pub fn dlq_for(topic: &str) -> (r: &'static str)
    ensures
        r@ == dlq_of(topic@),
{
    if text_eq(topic, "dieattach.readings") {
        "dieattach.dlq"
    } else if text_eq(topic, "wirebond.raw") {
        "wirebond.dlq"
    } else if text_eq(topic, "inspect.jobs") {
        "inspect.dlq"
    } else if text_eq(topic, "mold.telemetry") {
        "mold.dlq"
    } else {
        "dlq"
    }
}

/// What a station is called on the page.
pub open spec fn label_of(id: Seq<char>) -> Seq<char> {
    if id == "st01"@ {
        "ST-01 probe intake"@
    } else if id == "st02"@ {
        "ST-02 die attach"@
    } else if id == "st03"@ {
        "ST-03 wire bond"@
    } else if id == "st04"@ {
        "ST-04 inspection"@
    } else if id == "st05"@ {
        "ST-05 mold & cure"@
    } else if id == "st06"@ {
        "ST-06 final test"@
    } else if id == "st06twin"@ {
        "ST-06 twin"@
    } else if id == "sim"@ {
        "simulator"@
    } else {
        "line"@
    }
}

/// What a station is called on the page.
pub fn station_label(id: &str) -> (r: &'static str)
    ensures
        r@ == label_of(id@),
{
    if text_eq(id, "st01") {
        "ST-01 probe intake"
    } else if text_eq(id, "st02") {
        "ST-02 die attach"
    } else if text_eq(id, "st03") {
        "ST-03 wire bond"
    } else if text_eq(id, "st04") {
        "ST-04 inspection"
    } else if text_eq(id, "st05") {
        "ST-05 mold & cure"
    } else if text_eq(id, "st06") {
        "ST-06 final test"
    } else if text_eq(id, "st06twin") {
        "ST-06 twin"
    } else if text_eq(id, "sim") {
        "simulator"
    } else {
        "line"
    }
}

/// Every input topic that has a dead-letter topic has one that belongs to
/// a station.
pub proof fn dead_letters_have_an_owner(topic: Seq<char>)
    ensures
        dlq_of(topic) != "dlq"@ ==> dlq_owner(dlq_of(topic)) is Some,
{
}

// ---------------------------------------------------------------------------
// Rows that keep their newest elements

/// The first `n` elements, or all of them.
pub open spec fn first_of(s: Seq<JsonView>, n: int) -> Seq<JsonView> {
    if s.len() <= n {
        s
    } else {
        s.take(n)
    }
}

/// Puts a value at the front of a row, and lets go of what stands behind the
/// first `n`.
pub fn push_newest(row: &mut VecDeque<Json>, v: Json, n: usize)
    ensures
        list_view(final(row)@) == first_of(seq![v@] + list_view(old(row)@), n as int),
{
    let ghost was = row@;
    row.push_front(v);
    let ghost all = row@;
    while row.len() > n
        invariant
            row@.len() <= all.len(),
            row@ =~= all.take(row@.len() as int),
            row@.len() == all.len() || row@.len() >= n,
        decreases row@.len(),
    {
        row.pop_back();
    }
    proof {
        assert(list_view(row@) =~= first_of(list_view(all), n as int));
        assert(list_view(all) =~= seq![v@] + list_view(was));
    }
}

// ---------------------------------------------------------------------------
// Stations

/// What is known of a station.
pub struct Station {
    pub consumed: u64,
    pub produced: u64,
    pub dlq: u64,
    pub redelivered: u64,
    pub partial: u64,
    pub replayed: u64,
    pub ring: Ring,
    /// When each instance was last heard of.
    pub instances: OrderedMap<String, i64>,
    pub instances_ever: u64,
    pub last_seen: i64,
    /// Numbers that the page reads as they are.
    pub detail: Fields,
    pub latency: Samples,
    /// Newest first.
    pub dead_letters: VecDeque<Json>,
    /// Newest first.
    pub faults: VecDeque<Json>,
}

/// What a station stands for.
#[verifier::ext_equal]
pub struct StationView {
    pub consumed: u64,
    pub produced: u64,
    pub dlq: u64,
    pub redelivered: u64,
    pub partial: u64,
    pub replayed: u64,
    pub ring: RingView,
    pub instances: Map<Seq<char>, i64>,
    pub instances_ever: u64,
    pub last_seen: i64,
    pub detail: Map<Seq<char>, JsonView>,
    pub latency: Seq<u64>,
    pub dead_letters: Seq<JsonView>,
    pub faults: Seq<JsonView>,
}

impl View for Station {
    type V = StationView;

    open spec fn view(&self) -> StationView {
        StationView {
            consumed: self.consumed,
            produced: self.produced,
            dlq: self.dlq,
            redelivered: self.redelivered,
            partial: self.partial,
            replayed: self.replayed,
            ring: self.ring@,
            instances: self.instances@,
            instances_ever: self.instances_ever,
            last_seen: self.last_seen,
            detail: self.detail@,
            latency: self.latency@,
            dead_letters: list_view(self.dead_letters@),
            faults: list_view(self.faults@),
        }
    }
}

/// A station nothing is known of.
pub open spec fn new_station() -> StationView {
    StationView {
        consumed: 0,
        produced: 0,
        dlq: 0,
        redelivered: 0,
        partial: 0,
        replayed: 0,
        ring: empty_ring(),
        instances: Map::empty(),
        instances_ever: 0,
        last_seen: 0,
        detail: Map::empty(),
        latency: Seq::empty(),
        dead_letters: Seq::empty(),
        faults: Seq::empty(),
    }
}

/// The number in a field, zero where there is none.
pub open spec fn number_in(m: Map<Seq<char>, JsonView>, key: Seq<char>) -> u64 {
    if m.dom().contains(key) {
        match m[key] {
            JsonView::Uint(n) => n,
            _ => 0,
        }
    } else {
        0
    }
}

/// The fields with `n` more in one of them. Numbers wrap at 64 bits.
pub open spec fn bumped(m: Map<Seq<char>, JsonView>, key: Seq<char>, n: u64) -> Map<
    Seq<char>,
    JsonView,
> {
    m.insert(key, JsonView::Uint(number_in(m, key).wrapping_add(n)))
}

/// The number in a field, zero where there is none.
pub fn number_of_field(fields: &Fields, key: &str) -> (n: u64)
    ensures
        n == number_in(fields@, key@),
{
    match fields.get(key) {
        Some(Json::Uint(n)) => *n,
        _ => 0,
    }
}

/// Adds `n` to the number in a field.
pub fn bump_field(fields: &mut Fields, key: &str, n: u64)
    ensures
        final(fields)@ == bumped(old(fields)@, key@, n),
{
    let was = number_of_field(fields, key);
    fields.put(key, Json::Uint(was.wrapping_add(n)));
}

/// A fault of a station, as the page shows it.
pub open spec fn fault_view(
    ts: i64,
    severity: Seq<char>,
    text: Seq<char>,
    state: Seq<char>,
) -> Map<Seq<char>, JsonView> {
    Map::empty().insert("ts"@, int_view(ts)).insert("severity"@, JsonView::Str(severity)).insert(
        "text"@,
        JsonView::Str(text),
    ).insert("state"@, JsonView::Str(state))
}

/// The station with one more fault.
pub open spec fn station_with_fault(
    st: StationView,
    ts: i64,
    severity: Seq<char>,
    text: Seq<char>,
    state: Seq<char>,
) -> StationView {
    StationView {
        faults: first_of(
            seq![JsonView::Object(fault_view(ts, severity, text, state))] + st.faults,
            STATION_FAULTS_KEPT as int,
        ),
        ..st
    }
}

/// The instances heard of no longer ago than they count as live.
pub open spec fn live_ids(instances: Map<Seq<char>, i64>, now: i64) -> Set<Seq<char>> {
    instances.dom().filter(|id: Seq<char>| now.wrapping_sub(instances[id]) <= INSTANCE_LIVE_MS)
}

impl Station {
    /// A station nothing is known of.
    pub fn new() -> (r: Station)
        ensures
            r@ == new_station(),
    {
        let r = Station {
            consumed: 0,
            produced: 0,
            dlq: 0,
            redelivered: 0,
            partial: 0,
            replayed: 0,
            ring: Ring::new(),
            instances: OrderedMap::new(),
            instances_ever: 0,
            last_seen: 0,
            detail: Fields::new(),
            latency: Samples::new(),
            dead_letters: VecDeque::new(),
            faults: VecDeque::new(),
        };
        assert(r@ =~= new_station());
        r
    }

    /// How many instances are live at `now`.
    pub fn live_instances(&self, now: i64) -> (n: usize)
        ensures
            n == live_ids(self@.instances, now).len(),
    {
        let total = self.instances.len();
        let mut n: usize = 0;
        let mut i: usize = 0;
        let ghost m = self.instances@;
        let ghost keys = self.instances.keys();
        let ghost counted: Set<Seq<char>> = Set::empty();
        while i < total
            invariant
                i <= total == keys.len(),
                m == self.instances@,
                keys == self.instances.keys(),
                keys.no_duplicates(),
                n <= i,
                counted.finite(),
                n == counted.len(),
                forall|id: Seq<char>|
                    counted.contains(id) <==> (keys.take(i as int).contains(id)
                        && now.wrapping_sub(m[id]) <= INSTANCE_LIVE_MS),
            decreases total - i,
        {
            let seen = *self.instances.value_at(i);
            let ghost k = keys[i as int];
            proof {
                assert(keys.take(i + 1) =~= keys.take(i as int).push(k));
                assert(!keys.take(i as int).contains(k)) by {
                    if keys.take(i as int).contains(k) {
                        let j = choose|j: int| 0 <= j < i && keys.take(i as int)[j] == k;
                        assert(keys[j] == keys[i as int]);
                    }
                }
                assert forall|id: Seq<char>| keys.take(i + 1).contains(id) <==> (keys.take(
                    i as int,
                ).contains(id) || id == k) by {
                    let a = keys.take(i as int);
                    let b = keys.take(i + 1);
                    if a.contains(id) {
                        let j = choose|j: int| 0 <= j < a.len() && a[j] == id;
                        assert(b[j] == id);
                    }
                    if id == k {
                        assert(b[i as int] == id);
                    }
                }
            }
            if now.wrapping_sub(seen) <= INSTANCE_LIVE_MS {
                n = n + 1;
                proof {
                    counted = counted.insert(k);
                }
            }
            i = i + 1;
        }
        proof {
            assert(keys.take(total as int) =~= keys);
            assert(counted =~= live_ids(m, now));
        }
        n
    }

    /// Gives a detail a value.
    pub fn num(&mut self, key: &str, v: Json)
        ensures
            final(self)@ == (StationView {
                detail: old(self)@.detail.insert(key@, v@),
                ..old(self)@
            }),
    {
        self.detail.put(key, v);
    }

    /// Adds to a detail that is a number.
    pub fn bump(&mut self, key: &str, n: u64)
        ensures
            final(self)@ == (StationView {
                detail: bumped(old(self)@.detail, key@, n),
                ..old(self)@
            }),
    {
        bump_field(&mut self.detail, key, n);
    }

    /// Notes a fault, and hands its fields back.
    pub fn fault(&mut self, ts: i64, severity: &str, text: &str, state: &str) -> (r: Fields)
        ensures
            final(self)@ == station_with_fault(old(self)@, ts, severity@, text@, state@),
            r@ == fault_view(ts, severity@, text@, state@),
    {
        let mut f = Fields::new();
        f.put("ts", Json::whole(ts));
        f.put("severity", Json::text(severity));
        f.put("text", Json::text(text));
        f.put("state", Json::text(state));
        let r = f.copy();
        push_newest(&mut self.faults, Json::Object(f), STATION_FAULTS_KEPT);
        r
    }
}

// ---------------------------------------------------------------------------
// Ledgers

/// What a disposition ledger has been found to hold.
pub struct Ledger {
    pub records: u64,
    pub units: OrderedMap<String, ()>,
    pub duplicates: u64,
    pub pass: u64,
    pub fail: u64,
}

/// What a ledger stands for.
#[verifier::ext_equal]
pub struct LedgerView {
    pub records: u64,
    pub units: Set<Seq<char>>,
    pub duplicates: u64,
    pub pass: u64,
    pub fail: u64,
}

impl View for Ledger {
    type V = LedgerView;

    open spec fn view(&self) -> LedgerView {
        LedgerView {
            records: self.records,
            units: self.units@.dom(),
            duplicates: self.duplicates,
            pass: self.pass,
            fail: self.fail,
        }
    }
}

/// A ledger that holds nothing.
pub open spec fn empty_ledger() -> LedgerView {
    LedgerView { records: 0, units: Set::empty(), duplicates: 0, pass: 0, fail: 0 }
}

impl Ledger {
    /// A ledger that holds nothing.
    pub fn new() -> (r: Ledger)
        ensures
            r@ == empty_ledger(),
    {
        let r = Ledger { records: 0, units: OrderedMap::new(), duplicates: 0, pass: 0, fail: 0 };
        assert(r@ =~= empty_ledger());
        r
    }
}

// ---------------------------------------------------------------------------
// The model

/// What is known of the line.
pub struct Model {
    pub started: i64,
    pub stations: OrderedMap<String, Station>,
    /// The simulator's last heartbeat.
    pub sim: Json,
    /// What the simulator has put on each topic.
    pub sim_produced: OrderedMap<String, u64>,
    pub sim_seen: i64,
    /// Every fault on the line, newest first.
    pub faults: VecDeque<Json>,
    /// Lag per group, as it was last published.
    pub lag: Json,
    pub ledger: Ledger,
    pub twin: Ledger,
    pub metrics_records: u64,
    pub batches: u64,
    /// The first few records seen of each partition.
    pub samples: OrderedMap<String, Vec<Json>>,
    pub unparsed: u64,
}

/// What a model stands for.
#[verifier::ext_equal]
pub struct ModelView {
    pub started: i64,
    pub stations: Map<Seq<char>, StationView>,
    pub sim: JsonView,
    pub sim_produced: Map<Seq<char>, u64>,
    pub sim_seen: i64,
    pub faults: Seq<JsonView>,
    pub lag: JsonView,
    pub ledger: LedgerView,
    pub twin: LedgerView,
    pub metrics_records: u64,
    pub batches: u64,
    pub samples: Map<Seq<char>, Seq<JsonView>>,
    pub unparsed: u64,
}

/// What stations stand for.
pub open spec fn station_views(m: Map<Seq<char>, Station>) -> Map<Seq<char>, StationView> {
    m.map_values(|s: Station| s@)
}

/// What samples stand for.
pub open spec fn sample_views(m: Map<Seq<char>, Vec<Json>>) -> Map<Seq<char>, Seq<JsonView>> {
    m.map_values(|v: Vec<Json>| list_view(v@))
}

impl View for Model {
    type V = ModelView;

    open spec fn view(&self) -> ModelView {
        ModelView {
            started: self.started,
            stations: station_views(self.stations@),
            sim: self.sim@,
            sim_produced: self.sim_produced@,
            sim_seen: self.sim_seen,
            faults: list_view(self.faults@),
            lag: self.lag@,
            ledger: self.ledger@,
            twin: self.twin@,
            metrics_records: self.metrics_records,
            batches: self.batches,
            samples: sample_views(self.samples@),
            unparsed: self.unparsed,
        }
    }
}

/// A model nothing has been folded into.
pub open spec fn new_model(started: i64) -> ModelView {
    ModelView {
        started,
        stations: Map::empty(),
        sim: JsonView::Null,
        sim_produced: Map::empty(),
        sim_seen: 0,
        faults: Seq::empty(),
        lag: JsonView::Null,
        ledger: empty_ledger(),
        twin: empty_ledger(),
        metrics_records: 0,
        batches: 0,
        samples: Map::empty(),
        unparsed: 0,
    }
}

/// What is known of a station, or a station nothing is known of.
pub open spec fn station_of(m: ModelView, id: Seq<char>) -> StationView {
    if m.stations.dom().contains(id) {
        m.stations[id]
    } else {
        new_station()
    }
}

/// The model with one station's knowledge replaced.
pub open spec fn with_station(m: ModelView, id: Seq<char>, st: StationView) -> ModelView {
    ModelView { stations: m.stations.insert(id, st), ..m }
}

/// A fault as the line's ledger shows it.
pub open spec fn line_fault_view(
    station: Seq<char>,
    ts: i64,
    severity: Seq<char>,
    text: Seq<char>,
    state: Seq<char>,
) -> JsonView {
    JsonView::Object(
        fault_view(ts, severity, text, state).insert("station"@, JsonView::Str(station)).insert(
            "label"@,
            JsonView::Str(label_of(station)),
        ),
    )
}

/// The model with one more fault of a station.
pub open spec fn with_fault(
    m: ModelView,
    station: Seq<char>,
    ts: i64,
    severity: Seq<char>,
    text: Seq<char>,
    state: Seq<char>,
) -> ModelView {
    let st = station_with_fault(station_of(m, station), ts, severity, text, state);
    ModelView {
        faults: first_of(
            seq![line_fault_view(station, ts, severity, text, state)] + m.faults,
            FAULTS_KEPT as int,
        ),
        ..with_station(m, station, st)
    }
}

impl Model {
    /// A model nothing has been folded into.
    pub fn new(started: i64) -> (r: Model)
        ensures
            r@ == new_model(started),
    {
        let r = Model {
            started,
            stations: OrderedMap::new(),
            sim: Json::Null,
            sim_produced: OrderedMap::new(),
            sim_seen: 0,
            faults: VecDeque::new(),
            lag: Json::Null,
            ledger: Ledger::new(),
            twin: Ledger::new(),
            metrics_records: 0,
            batches: 0,
            samples: OrderedMap::new(),
            unparsed: 0,
        };
        assert(r@ =~= new_model(started));
        r
    }

    /// Takes a station out of the model, or a new one where there is none.
    pub fn take_station(&mut self, id: &str) -> (st: Station)
        ensures
            st@ == station_of(old(self)@, id@),
            forall|s: StationView|
                #[trigger] with_station(final(self)@, id@, s) == with_station(old(self)@, id@, s),
    {
        let ghost before = self@;
        let taken = self.stations.remove(&id.to_owned());
        proof {
            assert forall|s: StationView|
                #[trigger] with_station(self@, id@, s) == with_station(before, id@, s) by {
                assert(with_station(self@, id@, s).stations =~= with_station(
                    before,
                    id@,
                    s,
                ).stations);
            }
        }
        match taken {
            Some(st) => st,
            None => Station::new(),
        }
    }

    /// Puts a station into the model.
    pub fn put_station(&mut self, id: &str, st: Station)
        ensures
            final(self)@ == with_station(old(self)@, id@, st@),
    {
        let ghost before = self.stations@;
        self.stations.insert(id.to_owned(), st);
        assert(station_views(self.stations@) =~= station_views(before).insert(id@, st@));
    }
}

/// Notes a fault of a station, with the station and on the line.
pub fn push_fault(m: &mut Model, station: &str, ts: i64, severity: &str, text: &str, state: &str)
    ensures
        final(m)@ == with_fault(old(m)@, station@, ts, severity@, text@, state@),
{
    let mut st = m.take_station(station);
    let mut row = st.fault(ts, severity, text, state);
    m.put_station(station, st);
    row.put("station", Json::text(station));
    row.put("label", Json::text(station_label(station)));
    push_newest(&mut m.faults, Json::Object(row), FAULTS_KEPT);
}

} // verus!
