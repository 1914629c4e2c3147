//! Mold and cure: a batch is a window. Each press is held against the cure
//! profile, zone by zone.

use vstd::arithmetic::power2::{lemma2_to64, lemma2_to64_rest};
use vstd::prelude::*;
use vstd::string::*;
use vstd::utf8::*;

use super::inspection::{is_lost, was_lost};
use super::instance::{
    batch_partition, conclude, failure_metric, fault_in, last_time, partition_of, report_failure,
    time_of_last, verdict_on,
};
use crate::json::{
    lemma_list_view, lemma_list_view_push, list_view, opt_int_view, opt_text, Fields, Json,
    JsonView,
};
use crate::kafka::{
    json_keyed, json_record, lemma_produce_views_push, metric, metric_view, produce_views,
    verdict_view, ConsumedRecord, HandlerError, HandlerErrorView, KafkaError, ProduceRecord,
    ProduceView,
};
use crate::measure::{
    above, at_most, greater, is_finite, lemma_whole, no_greater, value, whole, without_sign,
    Measure,
};
use crate::ordered_map::{listed, OrderedMap};
use crate::text::{decimal, decimal_text, is_utf8};

verus! {

broadcast use {vstd::string::group_string_axioms, crate::json::lemma_list_view};

/// How many zones an oven has.
pub const ZONES: usize = 8;

/// How many samples a zone's mean needs to tell drift from noise.
pub const MIN_ZONE_SAMPLES: usize = 4;

/// The least temperature in the band of the profile, 173 degrees: two below
/// its 175.
pub const BAND_FROM: u64 = 0x4065_A000_0000_0000;

/// The greatest temperature in the band of the profile, 177 degrees: two
/// above its 175.
pub const BAND_TO: u64 = 0x4066_2000_0000_0000;

/// How far a zone may drift off the profile, 2 degrees.
pub const PROFILE_TOL_C: u64 = 0x4000_0000_0000_0000;

/// The humidity above which a press is on hold, 60 percent.
pub const RH_HOLD: u64 = 0x404E_0000_0000_0000;

/// The particle count above which a press is on hold.
pub const PARTICLES_HOLD: u64 = 1000;

/// A sample of a press's telemetry.
pub struct Sample {
    pub press: String,
    pub zone: usize,
    pub temp_c: Measure,
    pub rh_pct: Option<Measure>,
    pub particles: Option<u64>,
}

// ---------------------------------------------------------------------------
// Reading

/// Why bytes are no sample, given what they decode as.
pub open spec fn sample_fault(bytes: Seq<u8>, decoded: Result<Sample, String>) -> Option<
    Seq<char>,
> {
    if !valid_utf8(bytes) {
        Some("value is not valid UTF-8"@)
    } else {
        match decoded {
            Err(e) => Some("bad sample: "@ + e@),
            Ok(s) => if !(1 <= s.zone <= ZONES) {
                Some("zone "@ + decimal(s.zone as nat) + " outside 1..8"@)
            } else if !is_finite(s.temp_c.bits) {
                Some("temp_c is not finite"@)
            } else {
                None
            },
        }
    }
}

/// The sample in bytes, given what they decode as; or why they are none.
pub fn parse(value: &[u8], decoded: Result<Sample, String>) -> (r: Result<Sample, String>)
    ensures
        fault_in(r) == sample_fault(value@, decoded),
        r is Ok ==> r == decoded,
{
    if !is_utf8(value) {
        return Err("value is not valid UTF-8".to_owned());
    }
    match decoded {
        Err(e) => {
            let mut t = "bad sample: ".to_owned();
            t.append(e.as_str());
            Err(t)
        },
        Ok(s) => {
            if !(1 <= s.zone && s.zone <= ZONES) {
                let mut t = "zone ".to_owned();
                t.append(decimal_text(s.zone as u64).as_str());
                t.append(" outside 1..8");
                Err(t)
            } else if !crate::measure::finite(s.temp_c.bits) {
                Err("temp_c is not finite".to_owned())
            } else {
                Ok(s)
            }
        },
    }
}

// ---------------------------------------------------------------------------
// Windows

/// What a window holds of a press.
pub struct PressWindow {
    pub(crate) n: u64,
    pub(crate) in_band: u64,
    /// The temperatures of each zone in the order they came, as bit patterns.
    pub(crate) temps: Vec<Vec<u64>>,
    /// The greatest humidity, as a bit pattern; zero where none was measured.
    pub(crate) rh_max: u64,
    pub(crate) particles_max: u64,
    pub(crate) first_ts: Option<i64>,
    pub(crate) last_ts: Option<i64>,
}

/// What a window stands for.
#[verifier::ext_equal]
pub struct WindowView {
    pub n: u64,
    pub in_band: u64,
    pub temps: Seq<Seq<u64>>,
    pub rh_max: u64,
    pub particles_max: u64,
    pub first_ts: Option<i64>,
    pub last_ts: Option<i64>,
}

/// What the temperatures of the zones stand for.
pub open spec fn temp_views(s: Seq<Vec<u64>>) -> Seq<Seq<u64>> {
    s.map_values(|v: Vec<u64>| v@)
}

impl View for PressWindow {
    type V = WindowView;

    closed spec fn view(&self) -> WindowView {
        WindowView {
            n: self.n,
            in_band: self.in_band,
            temps: temp_views(self.temps@),
            rh_max: self.rh_max,
            particles_max: self.particles_max,
            first_ts: self.first_ts,
            last_ts: self.last_ts,
        }
    }
}

/// A window without a sample.
pub open spec fn empty_window() -> WindowView {
    WindowView {
        n: 0,
        in_band: 0,
        temps: Seq::new(ZONES as nat, |i: int| Seq::empty()),
        rh_max: 0,
        particles_max: 0,
        first_ts: None,
        last_ts: None,
    }
}

/// Whether a temperature is in the band of the profile.
pub open spec fn conforms(temp: u64) -> bool {
    at_most(BAND_FROM, temp) && at_most(temp, BAND_TO)
}

/// The window with one more sample.
pub open spec fn with_sample(w: WindowView, s: Sample, ts: Option<i64>) -> WindowView {
    let z = s.zone - 1;
    WindowView {
        n: w.n.wrapping_add(1),
        in_band: if conforms(s.temp_c.bits) {
            w.in_band.wrapping_add(1)
        } else {
            w.in_band
        },
        temps: w.temps.update(z, w.temps[z].push(s.temp_c.bits)),
        rh_max: match s.rh_pct {
            Some(rh) => if above(rh.bits, w.rh_max) {
                rh.bits
            } else {
                w.rh_max
            },
            None => w.rh_max,
        },
        particles_max: match s.particles {
            Some(p) => if p > w.particles_max {
                p
            } else {
                w.particles_max
            },
            None => w.particles_max,
        },
        first_ts: if w.first_ts is None {
            ts
        } else {
            w.first_ts
        },
        last_ts: ts,
    }
}

impl PressWindow {
    #[verifier::type_invariant]
    closed spec fn has_every_zone(self) -> bool {
        self.temps@.len() == ZONES
    }

    /// A window without a sample.
    pub fn new() -> (r: PressWindow)
        ensures
            r@ == empty_window(),
    {
        let mut temps: Vec<Vec<u64>> = Vec::new();
        let mut i: usize = 0;
        while i < ZONES
            invariant
                i <= ZONES,
                temps@.len() == i,
                forall|j: int| 0 <= j < i ==> (#[trigger] temps@[j])@.len() == 0,
            decreases ZONES - i,
        {
            temps.push(Vec::new());
            i = i + 1;
        }
        let r = PressWindow {
            n: 0,
            in_band: 0,
            temps,
            rh_max: 0,
            particles_max: 0,
            first_ts: None,
            last_ts: None,
        };
        proof {
            assert forall|j: int| 0 <= j < ZONES implies temp_views(r.temps@)[j]
                == empty_window().temps[j] by {
                assert(r.temps@[j]@ =~= Seq::empty());
            }
            assert(temp_views(r.temps@) =~= empty_window().temps);
        }
        r
    }

    /// How many samples it holds.
    pub fn samples(&self) -> (r: u64)
        ensures
            r == self@.n,
    {
        self.n
    }

    /// How many of its samples are in the band of the profile.
    pub fn conforming(&self) -> (r: u64)
        ensures
            r == self@.in_band,
    {
        self.in_band
    }

    /// The temperatures of each zone, as bit patterns.
    pub fn zone_temps(&self) -> (r: &Vec<Vec<u64>>)
        ensures
            temp_views(r@) == self@.temps,
            r@.len() == ZONES,
    {
        proof {
            use_type_invariant(self);
        }
        &self.temps
    }

    /// The greatest humidity, as a bit pattern.
    pub fn humidity(&self) -> (r: u64)
        ensures
            r == self@.rh_max,
    {
        self.rh_max
    }

    /// The window with one more sample.
    pub fn with(self, s: &Sample, ts: Option<i64>) -> (r: PressWindow)
        requires
            1 <= s.zone <= ZONES,
        ensures
            r@ == with_sample(self@, *s, ts),
    {
        proof {
            use_type_invariant(&self);
        }
        let temp = s.temp_c.bits;
        let in_band: u64 = if no_greater(BAND_FROM, temp) && no_greater(temp, BAND_TO) {
            self.in_band.wrapping_add(1)
        } else {
            self.in_band
        };
        let rh_max: u64 = match &s.rh_pct {
            Some(rh) => if greater(rh.bits, self.rh_max) {
                rh.bits
            } else {
                self.rh_max
            },
            None => self.rh_max,
        };
        let particles_max: u64 = match s.particles {
            Some(p) => if p > self.particles_max {
                p
            } else {
                self.particles_max
            },
            None => self.particles_max,
        };
        let first_ts: Option<i64> = if self.first_ts.is_none() {
            ts
        } else {
            self.first_ts
        };
        let n = self.n.wrapping_add(1);
        let z: usize = s.zone - 1;
        let ghost before = self.temps@;
        let mut temps = self.temps;
        let mut zone: Vec<u64> = Vec::new();
        std::mem::swap(&mut zone, &mut temps[z]);
        zone.push(temp);
        temps.set(z, zone);
        assert(temp_views(temps@) =~= temp_views(before).update(
            z as int,
            temp_views(before)[z as int].push(temp),
        ));
        PressWindow { n, in_band, temps, rh_max, particles_max, first_ts, last_ts: ts }
    }
}

// ---------------------------------------------------------------------------
// Profiles

/// What is worked out in floating point for a press. Of a zone without
/// samples it says nothing.
pub struct Computed {
    /// The share of samples in the band, in percent, rounded to tenths.
    pub conformance: Json,
    /// The mean temperature of each zone, rounded to tenths.
    pub means: Vec<Measure>,
    /// How far each mean is off the profile, rounded to tenths.
    pub drifts: Vec<Measure>,
    /// The greatest humidity, rounded to tenths.
    pub rh_max: Json,
}

/// Whether everything is worked out that a window needs.
pub open spec fn is_complete(c: Computed) -> bool {
    c.means@.len() == ZONES && c.drifts@.len() == ZONES
}

/// A value for each zone that has samples, and nothing for the others.
pub open spec fn by_zone(temps: Seq<Seq<u64>>, values: Seq<Measure>) -> Seq<JsonView> {
    Seq::new(
        ZONES as nat,
        |i: int|
            if temps[i].len() > 0 {
                JsonView::Real(values[i].json@)
            } else {
                JsonView::Null
            },
    )
}

/// Whether the zone at `i` is the worst of the first `n`: none is further off
/// the profile, and none behind it is as far off. Zones without samples do
/// not count.
pub open spec fn is_worst(temps: Seq<Seq<u64>>, drifts: Seq<Measure>, n: int, i: int) -> bool {
    &&& 0 <= i < n
    &&& temps[i].len() > 0
    &&& forall|j: int|
        0 <= j < n && (#[trigger] temps[j]).len() > 0 ==> crate::measure::unsigned(drifts[j].bits)
            < crate::measure::unsigned(drifts[i].bits) || (crate::measure::unsigned(
            drifts[j].bits,
        ) == crate::measure::unsigned(drifts[i].bits) && j <= i)
}

/// The worst zone, where any has samples.
pub open spec fn worst_zone(temps: Seq<Seq<u64>>, drifts: Seq<Measure>) -> Option<int> {
    if exists|i: int| is_worst(temps, drifts, ZONES as int, i) {
        Some(choose|i: int| is_worst(temps, drifts, ZONES as int, i))
    } else {
        None
    }
}

/// Whether every zone has enough samples to tell drift from noise.
pub open spec fn has_enough(temps: Seq<Seq<u64>>) -> bool {
    forall|i: int| 0 <= i < ZONES ==> (#[trigger] temps[i]).len() >= MIN_ZONE_SAMPLES
}

/// Whether a zone is off the profile by more than it may.
pub open spec fn alarms(w: WindowView, c: Computed) -> bool {
    has_enough(w.temps) && match worst_zone(w.temps, c.drifts@) {
        Some(i) => above(
            crate::measure::unsigned(c.drifts@[i].bits) as u64,
            PROFILE_TOL_C,
        ),
        None => false,
    }
}

/// Whether a press is on hold for humidity or particles.
pub open spec fn holds(w: WindowView) -> bool {
    above(w.rh_max, RH_HOLD) || w.particles_max > PARTICLES_HOLD
}

/// The worst zone as JSON.
pub open spec fn worst_object(temps: Seq<Seq<u64>>, drifts: Seq<Measure>) -> JsonView {
    match worst_zone(temps, drifts) {
        Some(i) => JsonView::Object(
            Map::empty().insert("zone"@, JsonView::Uint((i + 1) as u64)).insert(
                "drift_c"@,
                JsonView::Real(drifts[i].json@),
            ),
        ),
        None => JsonView::Null,
    }
}

/// The profile of a press over a window.
pub open spec fn profile_object(press: Seq<char>, w: WindowView, c: Computed) -> JsonView {
    JsonView::Object(
        Map::empty().insert("press"@, JsonView::Str(press)).insert(
            "samples"@,
            JsonView::Uint(w.n),
        ).insert("conformance_pct"@, c.conformance@).insert(
            "zones_c"@,
            JsonView::List(by_zone(w.temps, c.means@)),
        ).insert("drift_c"@, JsonView::List(by_zone(w.temps, c.drifts@))).insert(
            "worst_zone"@,
            worst_object(w.temps, c.drifts@),
        ).insert("alarm"@, JsonView::Bool(alarms(w, c))).insert(
            "hold"@,
            JsonView::Bool(holds(w)),
        ).insert("enough_samples"@, JsonView::Bool(has_enough(w.temps))).insert(
            "rh_max"@,
            c.rh_max@,
        ).insert("particles_max"@, JsonView::Uint(w.particles_max)).insert(
            "window"@,
            JsonView::Object(
                Map::empty().insert("from"@, opt_int_view(w.first_ts)).insert(
                    "to"@,
                    opt_int_view(w.last_ts),
                ),
            ),
        ),
    )
}

fn values_by_zone(temps: &Vec<Vec<u64>>, values: &Vec<Measure>) -> (r: Vec<Json>)
    requires
        temps@.len() == ZONES,
        values@.len() == ZONES,
    ensures
        list_view(r@) == by_zone(temp_views(temps@), values@),
{
    let ghost want = by_zone(temp_views(temps@), values@);
    let mut r: Vec<Json> = Vec::new();
    let mut i: usize = 0;
    while i < ZONES
        invariant
            i <= ZONES,
            temps@.len() == ZONES,
            values@.len() == ZONES,
            want == by_zone(temp_views(temps@), values@),
            list_view(r@) =~= want.take(i as int),
        decreases ZONES - i,
    {
        let v = if temps[i].len() > 0 {
            Json::Real(values[i].json.clone())
        } else {
            Json::Null
        };
        proof {
            lemma_list_view_push(r@, v);
            assert(v@ == want[i as int]);
        }
        r.push(v);
        i = i + 1;
    }
    r
}

/// There is one worst zone.
pub proof fn the_worst_zone_is_unique(
    temps: Seq<Seq<u64>>,
    drifts: Seq<Measure>,
    n: int,
    i: int,
    j: int,
)
    requires
        is_worst(temps, drifts, n, i),
        is_worst(temps, drifts, n, j),
    ensures
        i == j,
{
    assert(temps[i].len() > 0 && temps[j].len() > 0);
}

fn find_worst(temps: &Vec<Vec<u64>>, drifts: &Vec<Measure>) -> (r: Option<usize>)
    requires
        temps@.len() == ZONES,
        drifts@.len() == ZONES,
    ensures
        match r {
            Some(i) => worst_zone(temp_views(temps@), drifts@) == Some(i as int) && i < ZONES,
            None => worst_zone(temp_views(temps@), drifts@) is None,
        },
{
    let ghost t = temp_views(temps@);
    let mut worst: Option<usize> = None;
    let mut i: usize = 0;
    while i < ZONES
        invariant
            i <= ZONES,
            temps@.len() == ZONES,
            drifts@.len() == ZONES,
            t == temp_views(temps@),
            match worst {
                Some(k) => is_worst(t, drifts@, i as int, k as int),
                None => forall|j: int| 0 <= j < i ==> (#[trigger] t[j]).len() == 0,
            },
        decreases ZONES - i,
    {
        assert(t[i as int] == temps@[i as int]@);
        if temps[i].len() > 0 {
            match worst {
                Some(k) => {
                    let a = without_sign(drifts[i].bits);
                    let b = without_sign(drifts[k].bits);
                    if a >= b {
                        worst = Some(i);
                    }
                },
                None => {
                    worst = Some(i);
                },
            }
        }
        i = i + 1;
    }
    proof {
        match worst {
            Some(k) => {
                let chosen = choose|i: int| is_worst(t, drifts@, ZONES as int, i);
                the_worst_zone_is_unique(t, drifts@, ZONES as int, k as int, chosen);
            },
            None => {
                if exists|i: int| is_worst(t, drifts@, ZONES as int, i) {
                    let chosen = choose|i: int| is_worst(t, drifts@, ZONES as int, i);
                    assert(t[chosen].len() == 0);
                }
            },
        }
    }
    worst
}

fn all_enough(temps: &Vec<Vec<u64>>) -> (r: bool)
    requires
        temps@.len() == ZONES,
    ensures
        r == has_enough(temp_views(temps@)),
{
    let ghost t = temp_views(temps@);
    let mut i: usize = 0;
    while i < ZONES
        invariant
            i <= ZONES,
            temps@.len() == ZONES,
            t == temp_views(temps@),
            forall|j: int| 0 <= j < i ==> (#[trigger] t[j]).len() >= MIN_ZONE_SAMPLES,
        decreases ZONES - i,
    {
        assert(t[i as int] == temps@[i as int]@);
        if temps[i].len() < MIN_ZONE_SAMPLES {
            return false;
        }
        i = i + 1;
    }
    true
}

/// The profile of a press over a window.
pub fn profile(press: &str, w: &PressWindow, c: &Computed) -> (r: Json)
    requires
        is_complete(*c),
    ensures
        r@ == profile_object(press@, w@, *c),
{
    proof {
        use_type_invariant(w);
    }
    let worst = find_worst(&w.temps, &c.drifts);
    let enough = all_enough(&w.temps);
    let off = match worst {
        Some(i) => greater(without_sign(c.drifts[i].bits), PROFILE_TOL_C),
        None => false,
    };
    let alarm = enough && off;
    let hold = greater(w.rh_max, RH_HOLD) || w.particles_max > PARTICLES_HOLD;
    let worst_json = match worst {
        Some(i) => {
            let mut f = Fields::new();
            f.put("zone", Json::Uint((i + 1) as u64));
            f.put("drift_c", Json::Real(c.drifts[i].json.clone()));
            Json::Object(f)
        },
        None => Json::Null,
    };
    let mut span = Fields::new();
    span.put("from", Json::opt_int(w.first_ts));
    span.put("to", Json::opt_int(w.last_ts));
    let mut f = Fields::new();
    f.put("press", Json::text(press));
    f.put("samples", Json::Uint(w.n));
    f.put("conformance_pct", c.conformance.copy());
    f.put("zones_c", Json::List(values_by_zone(&w.temps, &c.means)));
    f.put("drift_c", Json::List(values_by_zone(&w.temps, &c.drifts)));
    f.put("worst_zone", worst_json);
    f.put("alarm", Json::Bool(alarm));
    f.put("hold", Json::Bool(hold));
    f.put("enough_samples", Json::Bool(enough));
    f.put("rh_max", c.rh_max.copy());
    f.put("particles_max", Json::Uint(w.particles_max));
    f.put("window", Json::Object(span));
    Json::Object(f)
}

// ---------------------------------------------------------------------------
// A batch

/// What has been done of a batch.
pub struct Work {
    /// The offset the batch is handled through.
    pub handled: Option<i64>,
    pub consumed: u64,
    pub windows: OrderedMap<String, PressWindow>,
    /// Why the work stopped.
    pub failure: Option<String>,
}

/// What the work on a batch stands for.
#[verifier::ext_equal]
pub struct WorkView {
    pub handled: Option<i64>,
    pub consumed: u64,
    pub windows: Map<Seq<char>, WindowView>,
    pub failure: Option<Seq<char>>,
}

/// What windows stand for.
pub open spec fn window_views(m: Map<Seq<char>, PressWindow>) -> Map<Seq<char>, WindowView> {
    m.map_values(|w: PressWindow| w@)
}

impl View for Work {
    type V = WorkView;

    open spec fn view(&self) -> WorkView {
        WorkView {
            handled: self.handled,
            consumed: self.consumed,
            windows: window_views(self.windows@),
            failure: opt_text(self.failure),
        }
    }
}

/// Nothing done yet.
pub open spec fn no_work() -> WorkView {
    WorkView { handled: None, consumed: 0, windows: Map::empty(), failure: None }
}

/// The window of a press.
pub open spec fn window_of(windows: Map<Seq<char>, WindowView>, press: Seq<char>) -> WindowView {
    if windows.dom().contains(press) {
        windows[press]
    } else {
        empty_window()
    }
}

/// The work after a record, given what its value decodes as.
pub open spec fn worked(w: WorkView, rec: ConsumedRecord, decoded: Result<Sample, String>) -> WorkView {
    match rec.value {
        None => WorkView {
            handled: Some(rec.offset),
            consumed: w.consumed.wrapping_add(1),
            ..w
        },
        Some(value) => match sample_fault(value@, decoded) {
            Some(reason) => WorkView { failure: Some(reason), ..w },
            None => {
                let s = decoded->Ok_0;
                WorkView {
                    handled: Some(rec.offset),
                    consumed: w.consumed.wrapping_add(1),
                    windows: w.windows.insert(
                        s.press@,
                        with_sample(window_of(w.windows, s.press@), s, rec.timestamp),
                    ),
                    ..w
                }
            },
        },
    }
}

/// The profiles of the presses, by name, in the order of their names.
pub open spec fn summary_of(w: WorkView, computed: Seq<Computed>) -> Seq<JsonView> {
    let names = listed::<String>(w.windows.dom());
    Seq::new(
        names.len(),
        |i: int| profile_object(names[i], w.windows[names[i]], computed[i]),
    )
}

/// The profiles as records, keyed by press.
pub open spec fn profiles_of(w: WorkView, computed: Seq<Computed>) -> Seq<ProduceView> {
    let names = listed::<String>(w.windows.dom());
    Seq::new(
        names.len(),
        |i: int| json_keyed(names[i], profile_object(names[i], w.windows[names[i]], computed[i])),
    )
}

/// The metrics that a batch ends with, where its profiles are taken.
pub open spec fn closing(
    w: WorkView,
    summary: Seq<JsonView>,
    records: Seq<ConsumedRecord>,
    at: int,
) -> Seq<ProduceView> {
    let ts = last_time(records);
    let partition = opt_int_view(partition_of(records));
    let a: Seq<ProduceView> = if w.consumed > 0 {
        seq![
            metric_view(
                "st05"@,
                "window"@,
                ts,
                Map::empty().insert("n"@, JsonView::Uint(w.consumed)).insert(
                    "presses"@,
                    JsonView::List(summary),
                ).insert("batch"@, JsonView::Uint(records.len() as u64)).insert(
                    "partition"@,
                    partition,
                ),
            ),
            metric_view(
                "st05"@,
                "consumed"@,
                ts,
                Map::empty().insert("n"@, JsonView::Uint(w.consumed)).insert(
                    "partition"@,
                    partition,
                ),
            ),
        ]
    } else {
        Seq::empty()
    };
    let b = if summary.len() > 0 {
        a.push(
            metric_view(
                "st05"@,
                "produced"@,
                ts,
                Map::empty().insert("topic"@, JsonView::Str("mold.profile"@)).insert(
                    "n"@,
                    JsonView::Uint(summary.len() as u64),
                ),
            ),
        )
    } else {
        a
    };
    match w.failure {
        Some(reason) => b.push(failure_metric("st05"@, "press"@, w.handled, reason, records[at])),
        None => b,
    }
}

/// The answer for a batch: nothing counts as handled before its profiles are
/// on the topic.
pub open spec fn answer(
    w: WorkView,
    sent: Option<Result<Vec<Result<(), KafkaError>>, KafkaError>>,
) -> Result<Option<i64>, HandlerErrorView> {
    if is_lost(sent) {
        Err(HandlerErrorView::Transient(Some("profile produce failed"@)))
    } else {
        verdict_on(w.handled, w.failure)
    }
}

impl Work {
    /// Nothing done yet.
    pub fn new() -> (r: Work)
        ensures
            r@ == no_work(),
    {
        let r = Work { handled: None, consumed: 0, windows: OrderedMap::new(), failure: None };
        assert(r@ =~= no_work());
        r
    }

    /// Works on a record, given what its value decodes as. Whether the work
    /// goes on is the result.
    pub fn take(&mut self, rec: &ConsumedRecord, decoded: Result<Sample, String>) -> (more: bool)
        ensures
            final(self)@ == worked(old(self)@, *rec, decoded),
            more <==> (rec.value is None || sample_fault(rec.value->0@, decoded) is None),
    {
        let value = match &rec.value {
            Some(value) => value,
            None => {
                self.handled = Some(rec.offset);
                self.consumed = self.consumed.wrapping_add(1);
                return true;
            },
        };
        match parse(value.as_slice(), decoded) {
            Err(reason) => {
                self.failure = Some(reason);
                false
            },
            Ok(s) => {
                let ghost before = self.windows@;
                let w = match self.windows.remove(&s.press) {
                    Some(w) => w,
                    None => PressWindow::new(),
                };
                assert(w@ == window_of(window_views(before), s.press@));
                let next = w.with(&s, rec.timestamp);
                self.windows.insert(s.press.clone(), next);
                assert(window_views(self.windows@) =~= window_views(before).insert(
                    s.press@,
                    next@,
                ));
                self.consumed = self.consumed.wrapping_add(1);
                self.handled = Some(rec.offset);
                true
            },
        }
    }

    /// The profiles of the presses, given what is worked out for each in the
    /// order of their names: as records, and as they are summed up.
    pub fn profiles(&self, computed: &Vec<Computed>) -> (r: (Vec<ProduceRecord>, Vec<Json>))
        requires
            computed@.len() == self.windows@.dom().len(),
            forall|i: int| 0 <= i < computed@.len() ==> is_complete(#[trigger] computed@[i]),
        ensures
            produce_views(r.0@) == profiles_of(self@, computed@),
            list_view(r.1@) == summary_of(self@, computed@),
    {
        let n = self.windows.len();
        let ghost names = self.windows.keys();
        assert(self@.windows.dom() =~= self.windows@.dom());
        let mut records: Vec<ProduceRecord> = Vec::new();
        let mut summary: Vec<Json> = Vec::new();
        let mut i: usize = 0;
        while i < n
            invariant
                i <= n == names.len() == computed@.len(),
                names == self.windows.keys(),
                names == listed::<String>(self@.windows.dom()),
                forall|i: int| 0 <= i < computed@.len() ==> is_complete(#[trigger] computed@[i]),
                produce_views(records@) =~= profiles_of(self@, computed@).take(i as int),
                list_view(summary@) =~= summary_of(self@, computed@).take(i as int),
            decreases n - i,
        {
            let press = self.windows.key_at(i);
            let w = self.windows.value_at(i);
            let v = profile(press.as_str(), w, &computed[i]);
            let rec = json_record(press.as_str(), &v);
            proof {
                assert(v@ == summary_of(self@, computed@)[i as int]);
                assert(rec@ == profiles_of(self@, computed@)[i as int]);
                lemma_produce_views_push(records@, rec);
                lemma_list_view_push(summary@, v);
            }
            records.push(rec);
            summary.push(v);
            i = i + 1;
        }
        assert(profiles_of(self@, computed@).take(n as int) =~= profiles_of(self@, computed@));
        assert(summary_of(self@, computed@).take(n as int) =~= summary_of(self@, computed@));
        (records, summary)
    }

    /// Ends a batch, given what came of sending its profiles and, where the
    /// work failed, the record it stopped at: the metrics to send, and the
    /// answer.
    pub fn finish(
        self,
        summary: Vec<Json>,
        records: &Vec<ConsumedRecord>,
        at: usize,
        sent: &Option<Result<Vec<Result<(), KafkaError>>, KafkaError>>,
    ) -> (r: (Vec<ProduceRecord>, Result<Option<i64>, HandlerError>))
        requires
            self.failure is Some ==> at < records@.len(),
        ensures
            produce_views(r.0@) == if is_lost(*sent) {
                Seq::empty()
            } else {
                closing(self@, list_view(summary@), records@, at as int)
            },
            verdict_view(r.1) == answer(self@, *sent),
    {
        let mut r: Vec<ProduceRecord> = Vec::new();
        let ghost none: Seq<ProduceView> = Seq::empty();
        assert(produce_views(r@) =~= none);
        if was_lost(sent) {
            return (
                r,
                Err(HandlerError::Transient(Some("profile produce failed".to_owned()))),
            );
        }
        let ts = time_of_last(records);
        let produced = summary.len() as u64;
        if self.consumed > 0 {
            let mut f = Fields::new();
            f.put("n", Json::Uint(self.consumed));
            f.put("presses", Json::List(summary));
            f.put("batch", Json::Uint(records.len() as u64));
            f.put("partition", Json::opt_int(batch_partition(records)));
            let w = metric("st05", "window", ts, &f);
            let mut g = Fields::new();
            g.put("n", Json::Uint(self.consumed));
            g.put("partition", Json::opt_int(batch_partition(records)));
            let c = metric("st05", "consumed", ts, &g);
            proof {
                lemma_produce_views_push(r@, w);
                lemma_produce_views_push(r@.push(w), c);
                assert(none.push(w@).push(c@) =~= seq![w@, c@]);
            }
            r.push(w);
            r.push(c);
        }
        if produced > 0 {
            let mut f = Fields::new();
            f.put("topic", Json::text("mold.profile"));
            f.put("n", Json::Uint(produced));
            let m = metric("st05", "produced", ts, &f);
            proof {
                lemma_produce_views_push(r@, m);
            }
            r.push(m);
        }
        match &self.failure {
            Some(reason) => {
                let m = report_failure(
                    "st05",
                    "press",
                    self.handled,
                    reason.as_str(),
                    &records[at],
                );
                proof {
                    lemma_produce_views_push(r@, m);
                }
                r.push(m);
            },
            None => {},
        }
        let verdict = conclude(self.handled, self.failure);
        (r, verdict)
    }
}

// ---------------------------------------------------------------------------
// Laws

/// The limits are what they are called: a band of 173 to 177 degrees, two
/// degrees of drift, and 60 percent of humidity.
pub proof fn the_limits_are_exact()
    ensures
        value(BAND_FROM) == whole(173),
        value(BAND_TO) == whole(177),
        value(PROFILE_TOL_C) == whole(2),
        value(RH_HOLD) == whole(60),
{
    lemma2_to64_rest();
    lemma2_to64();
    lemma_whole(BAND_FROM, 173, 45);
    lemma_whole(BAND_TO, 177, 45);
    lemma_whole(PROFILE_TOL_C, 2, 51);
    lemma_whole(RH_HOLD, 60, 47);
}

/// However far a zone is off, a press does not alarm on fewer samples than
/// tell drift from noise.
pub proof fn few_samples_do_not_alarm(w: WindowView, c: Computed, zone: int)
    requires
        0 <= zone < ZONES,
        w.temps[zone].len() < MIN_ZONE_SAMPLES,
    ensures
        !alarms(w, c),
{
    assert(!has_enough(w.temps));
}

/// A record and what its value decodes as.
pub struct Item {
    pub rec: ConsumedRecord,
    pub decoded: Result<Sample, String>,
}

/// Whether a record cannot be read.
pub open spec fn is_malformed(i: Item) -> bool {
    i.rec.value is Some && sample_fault(i.rec.value->0@, i.decoded) is Some
}

/// The work after a batch. Behind a failure nothing is worked on.
pub open spec fn worked_through(items: Seq<Item>) -> WorkView
    decreases items.len(),
{
    if items.len() == 0 {
        no_work()
    } else {
        let w = worked_through(items.drop_last());
        if w.failure is Some {
            w
        } else {
            worked(w, items.last().rec, items.last().decoded)
        }
    }
}

/// Records and what their values decode as.
pub open spec fn items_of(
    records: Seq<ConsumedRecord>,
    decoded: Seq<Result<Sample, String>>,
) -> Seq<Item> {
    Seq::new(decoded.len(), |i: int| Item { rec: records[i], decoded: decoded[i] })
}

/// Works through a batch, given what the value of each record decodes as, up
/// to the first record that cannot be read. The second part of the result is
/// how many records stand before it: its place, or where there is none the
/// length of the batch.
pub fn work_through(records: &Vec<ConsumedRecord>, decoded: Vec<Result<Sample, String>>) -> (r: (
    Work,
    usize,
))
    requires
        decoded@.len() == records@.len(),
    ensures
        r.0@ == worked_through(items_of(records@, decoded@)),
        r.1 <= records@.len(),
        r.0.failure is Some <==> r.1 < records@.len(),
        r.1 < records@.len() ==> is_malformed(items_of(records@, decoded@)[r.1 as int]),
        forall|j: int|
            0 <= j < r.1 ==> !is_malformed(#[trigger] items_of(records@, decoded@)[j]),
{
    let ghost items = items_of(records@, decoded@);
    let ghost all = decoded@;
    let total: usize = records.len();
    let mut work = Work::new();
    let mut at: usize = 0;
    let mut i: usize = 0;
    assert(items.take(0) =~= Seq::empty());
    for d in it: decoded
        invariant
            it.seq() == all,
            i == it.index(),
            all.len() == records@.len() == total,
            items == items_of(records@, all),
            work@ == worked_through(items.take(i as int)),
            at <= i,
            work.failure is Some <==> at < i,
            at < i ==> is_malformed(items[at as int]),
            forall|j: int| 0 <= j < at ==> !is_malformed(#[trigger] items[j]),
    {
        proof {
            assert(items.take(i + 1).drop_last() =~= items.take(i as int));
            assert(items.take(i + 1).last() == items[i as int]);
        }
        if work.failure.is_none() {
            work.take(&records[i], d);
            if work.failure.is_none() {
                at = i + 1;
            }
        }
        i = i + 1;
    }
    assert(items.take(items.len() as int) =~= items);
    (work, at)
}

/// How many samples the first `k` zones hold.
pub open spec fn held(temps: Seq<Seq<u64>>, k: nat) -> nat
    decreases k,
{
    if k == 0 {
        0
    } else {
        held(temps, (k - 1) as nat) + temps[k - 1].len()
    }
}

proof fn lemma_held_one_more(temps: Seq<Seq<u64>>, k: nat, z: int, x: u64)
    requires
        0 <= z < temps.len(),
        k <= temps.len(),
    ensures
        held(temps.update(z, temps[z].push(x)), k) == held(temps, k) + if z < k {
            1nat
        } else {
            0nat
        },
    decreases k,
{
    if k > 0 {
        lemma_held_one_more(temps, (k - 1) as nat, z, x);
    }
}

proof fn lemma_held_nothing(k: nat)
    requires
        k <= ZONES,
    ensures
        held(empty_window().temps, k) == 0,
    decreases k,
{
    if k > 0 {
        lemma_held_nothing((k - 1) as nat);
    }
}

/// Whether a window adds up: each sample stands in one zone, and those in the
/// band are among them.
pub open spec fn adds_up(w: WindowView) -> bool {
    &&& w.temps.len() == ZONES
    &&& w.n == held(w.temps, ZONES as nat)
    &&& w.in_band <= w.n
}

/// Every record of a batch is accounted for, and every window adds up: those
/// before the first that cannot be read are consumed, the one before it is
/// the last handled, and each sample stands in one zone of its press.
pub proof fn every_record_is_accounted_for(items: Seq<Item>)
    requires
        items.len() <= u64::MAX,
    ensures
        ({
            let w = worked_through(items);
            let n = w.consumed as int;
            &&& w.failure is None ==> n == items.len()
            &&& w.failure is Some ==> n < items.len() && is_malformed(items[n])
            &&& forall|i: int| 0 <= i < n ==> !is_malformed(#[trigger] items[i])
            &&& w.handled == if n == 0 {
                None
            } else {
                Some(items[n - 1].rec.offset)
            }
            &&& forall|press: Seq<char>| #[trigger]
                w.windows.dom().contains(press) ==> adds_up(w.windows[press])
                    && w.windows[press].n <= n
        }),
    decreases items.len(),
{
    if items.len() > 0 {
        let rest = items.drop_last();
        every_record_is_accounted_for(rest);
        let before = worked_through(rest);
        let w = worked_through(items);
        let n = before.consumed as int;
        assert forall|i: int| 0 <= i < n implies !is_malformed(#[trigger] items[i]) by {
            assert(items[i] == rest[i]);
        }
        if before.failure is Some {
            assert(items[n] == rest[n]);
        } else {
            let last = items.last();
            if last.rec.value is Some && !is_malformed(last) {
                let s = last.decoded->Ok_0;
                let had = window_of(before.windows, s.press@);
                lemma_held_nothing(ZONES as nat);
                assert(adds_up(had) && had.n <= n);
                lemma_held_one_more(had.temps, ZONES as nat, s.zone - 1, s.temp_c.bits);
                let now = with_sample(had, s, last.rec.timestamp);
                assert(adds_up(now));
                assert(w.windows[s.press@] == now);
                assert forall|press: Seq<char>| #[trigger]
                    w.windows.dom().contains(press) implies adds_up(w.windows[press])
                    && w.windows[press].n <= n + 1 by {
                    if press != s.press@ {
                        assert(before.windows.dom().contains(press));
                    }
                }
            }
        }
    }
}

} // verus!
