//! What mold and cure makes of samples, in numbers.

use vstd::prelude::*;
use vstd::utf8::*;

use crate::json::{field, list_field, opt_int_view, JsonView};
use crate::kafka::{
    a_batch_is_taken_where_no_record_fails, json_keyed, metric_view, ConsumedRecord,
    HandlerErrorView, KafkaError,
};
use crate::measure::{
    is_finite, is_nan, lemma_unsigned, magnitude_orders_as_bits, unsigned, value, whole, Measure,
};
use crate::ordered_map::{a_listing_has_each_element_once, listed};
use crate::stations::instance::{failure_metric, last_time, partition_of};
use crate::stations::mold_cure::{
    alarms, answer, closing, every_record_is_accounted_for, holds, is_malformed, is_worst, profile_object,
    profiles_of, sample_fault, summary_of, the_limits_are_exact, window_of, worked_through,
    worst_zone, Computed, Item, Sample, WindowView, WorkView, ZONES,
};
use crate::text::decimal;

verus! {

// ---------------------------------------------------------------------------
// Reading

/// Bytes are a sample exactly where they are UTF-8, decode, name a zone from
/// 1 to 8 and measure a temperature.
pub proof fn a_sample_has_a_zone_and_a_temperature(bytes: Seq<u8>, decoded: Result<Sample, String>)
    ensures
        sample_fault(bytes, decoded) is None <==> {
            &&& valid_utf8(bytes)
            &&& decoded is Ok
            &&& 1 <= decoded->Ok_0.zone <= 8
            &&& is_finite(decoded->Ok_0.temp_c.bits)
        },
{
}

// ---------------------------------------------------------------------------
// Windows

/// Whether a record holds a sample of a press.
pub open spec fn is_of(i: Item, press: Seq<char>) -> bool {
    i.rec.value is Some && i.decoded->Ok_0.press@ == press
}

/// How many of the first `n` records hold a sample of a press.
pub open spec fn samples_among(items: Seq<Item>, n: nat, press: Seq<char>) -> nat
    decreases n,
{
    if n == 0 {
        0
    } else {
        samples_among(items, (n - 1) as nat, press) + if is_of(items[n - 1], press) {
            1nat
        } else {
            0nat
        }
    }
}

/// How many of them were from 173 to 177 degrees.
pub open spec fn in_band_among(items: Seq<Item>, n: nat, press: Seq<char>) -> nat
    decreases n,
{
    if n == 0 {
        0
    } else {
        let i = items[n - 1];
        in_band_among(items, (n - 1) as nat, press) + if is_of(i, press) && whole(173) <= value(
            i.decoded->Ok_0.temp_c.bits,
        ) <= whole(177) {
            1nat
        } else {
            0nat
        }
    }
}

/// The temperatures of a zone of a press among the first `n` records, in
/// their order.
pub open spec fn temps_among(items: Seq<Item>, n: nat, press: Seq<char>, zone: int) -> Seq<u64>
    decreases n,
{
    if n == 0 {
        Seq::empty()
    } else {
        let i = items[n - 1];
        let before = temps_among(items, (n - 1) as nat, press, zone);
        if is_of(i, press) && i.decoded->Ok_0.zone == zone {
            before.push(i.decoded->Ok_0.temp_c.bits)
        } else {
            before
        }
    }
}

/// Whether a number of particles is the greatest that was counted at a press.
pub open spec fn is_greatest_count(items: Seq<Item>, press: Seq<char>, max: u64) -> bool {
    &&& forall|i: int|
        0 <= i < items.len() && is_of(#[trigger] items[i], press) ==> (
        items[i].decoded->Ok_0.particles matches Some(p) ==> p <= max)
    &&& max == 0 || exists|i: int|
        0 <= i < items.len() && is_of(#[trigger] items[i], press)
            && items[i].decoded->Ok_0.particles == Some(max)
}

/// Whether a humidity is the greatest that was measured at a press.
pub open spec fn is_greatest_humidity(items: Seq<Item>, press: Seq<char>, max: u64) -> bool {
    &&& !is_nan(max)
    &&& value(max) >= 0
    &&& forall|i: int|
        0 <= i < items.len() && is_of(#[trigger] items[i], press) ==> (
        items[i].decoded->Ok_0.rh_pct matches Some(rh) ==> is_nan(rh.bits) || value(rh.bits)
            <= value(max))
    &&& max == 0 || exists|i: int|
        0 <= i < items.len() && is_of(#[trigger] items[i], press) && (
        items[i].decoded->Ok_0.rh_pct matches Some(rh) && rh.bits == max)
}

/// Whether a time is that of the first sample of a press that has one.
pub open spec fn is_first_time(items: Seq<Item>, press: Seq<char>, ts: Option<i64>) -> bool {
    match ts {
        None => forall|i: int|
            0 <= i < items.len() && is_of(#[trigger] items[i], press)
                ==> items[i].rec.timestamp is None,
        Some(t) => exists|i: int|
            {
                &&& 0 <= i < items.len()
                &&& is_of(#[trigger] items[i], press)
                &&& items[i].rec.timestamp == Some(t)
                &&& forall|j: int|
                    0 <= j < i && is_of(#[trigger] items[j], press)
                        ==> items[j].rec.timestamp is None
            },
    }
}

/// Whether a time is that of the last sample of a press.
pub open spec fn is_last_time(items: Seq<Item>, press: Seq<char>, ts: Option<i64>) -> bool {
    exists|i: int|
        {
            &&& 0 <= i < items.len()
            &&& is_of(#[trigger] items[i], press)
            &&& items[i].rec.timestamp == ts
            &&& forall|j: int| i < j < items.len() ==> !is_of(#[trigger] items[j], press)
        }
}

/// Whether a window holds what the samples of a press come to.
pub open spec fn sums_up(items: Seq<Item>, press: Seq<char>, w: WindowView) -> bool {
    &&& w.n == samples_among(items, items.len(), press)
    &&& w.in_band == in_band_among(items, items.len(), press)
    &&& w.temps.len() == 8
    &&& forall|z: int|
        0 <= z < 8 ==> #[trigger] w.temps[z] == temps_among(items, items.len(), press, z + 1)
    &&& is_greatest_count(items, press, w.particles_max)
    &&& is_greatest_humidity(items, press, w.rh_max)
    &&& is_first_time(items, press, w.first_ts)
}

proof fn lemma_same_front(a: Seq<Item>, b: Seq<Item>, n: nat, press: Seq<char>)
    requires
        n <= a.len(),
        n <= b.len(),
        forall|i: int| 0 <= i < n ==> a[i] == b[i],
    ensures
        samples_among(a, n, press) == samples_among(b, n, press),
        in_band_among(a, n, press) == in_band_among(b, n, press),
        forall|z: int| #[trigger] temps_among(a, n, press, z) == temps_among(b, n, press, z),
        samples_among(a, n, press) <= n,
        in_band_among(a, n, press) <= n,
    decreases n,
{
    if n > 0 {
        lemma_same_front(a, b, (n - 1) as nat, press);
        assert(a[n - 1] == b[n - 1]);
        assert forall|z: int| #[trigger] temps_among(a, n, press, z) == temps_among(
            b,
            n,
            press,
            z,
        ) by {
            assert(temps_among(a, (n - 1) as nat, press, z) == temps_among(
                b,
                (n - 1) as nat,
                press,
                z,
            ));
        }
    }
}

/// The maxima and the first time of a press after one more record.
proof fn lemma_one_more(items: Seq<Item>, press: Seq<char>, had: WindowView, w: WindowView)
    requires
        items.len() > 0,
        sums_up(items.drop_last(), press, had),
        ({
            let i = items.last();
            if is_of(i, press) {
                &&& w.particles_max == (match i.decoded->Ok_0.particles {
                    Some(p) => if p > had.particles_max {
                        p
                    } else {
                        had.particles_max
                    },
                    None => had.particles_max,
                })
                &&& w.rh_max == (match i.decoded->Ok_0.rh_pct {
                    Some(rh) => if !is_nan(rh.bits) && value(rh.bits) > value(had.rh_max) {
                        rh.bits
                    } else {
                        had.rh_max
                    },
                    None => had.rh_max,
                })
                &&& w.first_ts == if had.first_ts is None {
                    i.rec.timestamp
                } else {
                    had.first_ts
                }
            } else {
                w.particles_max == had.particles_max && w.rh_max == had.rh_max && w.first_ts
                    == had.first_ts
            }
        }),
    ensures
        is_greatest_count(items, press, w.particles_max),
        is_greatest_humidity(items, press, w.rh_max),
        is_first_time(items, press, w.first_ts),
{
    let rest = items.drop_last();
    let last = items.len() - 1;
    assert forall|i: int| 0 <= i < rest.len() implies #[trigger] items[i] == rest[i] by {}
    assert(items[last] == items.last());
    // The greatest count.
    if had.particles_max != 0 {
        let k = choose|k: int|
            0 <= k < rest.len() && is_of(#[trigger] rest[k], press)
                && rest[k].decoded->Ok_0.particles == Some(had.particles_max);
        assert(is_of(items[k], press));
    }
    assert forall|i: int|
        0 <= i < items.len() && is_of(#[trigger] items[i], press) implies (
    items[i].decoded->Ok_0.particles matches Some(p) ==> p <= w.particles_max) by {
        if i < last {
            assert(is_of(rest[i], press));
        }
    }
    assert(w.particles_max == 0 || exists|i: int|
        0 <= i < items.len() && is_of(#[trigger] items[i], press)
            && items[i].decoded->Ok_0.particles == Some(w.particles_max));
    // The greatest humidity.
    if had.rh_max != 0 {
        let k = choose|k: int|
            0 <= k < rest.len() && is_of(#[trigger] rest[k], press) && (
            rest[k].decoded->Ok_0.rh_pct matches Some(rh) && rh.bits == had.rh_max);
        assert(is_of(items[k], press));
    }
    assert forall|i: int|
        0 <= i < items.len() && is_of(#[trigger] items[i], press) implies (
    items[i].decoded->Ok_0.rh_pct matches Some(rh) ==> is_nan(rh.bits) || value(rh.bits) <= value(
        w.rh_max,
    )) by {
        if i < last {
            assert(is_of(rest[i], press));
        }
    }
    assert(w.rh_max == 0 || exists|i: int|
        0 <= i < items.len() && is_of(#[trigger] items[i], press) && (
        items[i].decoded->Ok_0.rh_pct matches Some(rh) && rh.bits == w.rh_max));
    // The first time.
    match had.first_ts {
        Some(t) => {
            let k = choose|i: int|
                {
                    &&& 0 <= i < rest.len()
                    &&& is_of(#[trigger] rest[i], press)
                    &&& rest[i].rec.timestamp == Some(t)
                    &&& forall|j: int|
                        0 <= j < i && is_of(#[trigger] rest[j], press)
                            ==> rest[j].rec.timestamp is None
                };
            assert(is_of(items[k], press));
            assert forall|j: int| 0 <= j < k && is_of(#[trigger] items[j], press) implies
                items[j].rec.timestamp is None by {
                assert(is_of(rest[j], press));
            }
        },
        None => {
            assert forall|j: int| 0 <= j < last && is_of(#[trigger] items[j], press) implies
                items[j].rec.timestamp is None by {
                assert(is_of(rest[j], press));
            }
            if w.first_ts is Some {
                assert(is_of(items[last], press));
            }
        },
    }
}

/// The window of a press holds what its samples come to: how many there are,
/// how many of them from 173 to 177 degrees, the temperatures of each zone in
/// the order they came, and the greatest count of particles and the greatest
/// humidity. There is one for each press that has a sample, and no other.
pub proof fn a_window_sums_up_its_samples(items: Seq<Item>, press: Seq<char>)
    requires
        items.len() <= u64::MAX,
        worked_through(items).failure is None,
    ensures
        sums_up(items, press, window_of(worked_through(items).windows, press)),
        worked_through(items).windows.dom().contains(press) <==> exists|i: int|
            0 <= i < items.len() && is_of(#[trigger] items[i], press),
        worked_through(items).windows.dom().contains(press) ==> is_last_time(
            items,
            press,
            worked_through(items).windows[press].last_ts,
        ),
        worked_through(items).consumed == items.len(),
    decreases items.len(),
{
    every_record_is_accounted_for(items);
    the_limits_are_exact();
    let w = window_of(worked_through(items).windows, press);
    if items.len() > 0 {
        let rest = items.drop_last();
        let last = items.len() - 1;
        a_window_sums_up_its_samples(rest, press);
        lemma_same_front(items, rest, rest.len(), press);
        assert forall|i: int| 0 <= i < rest.len() implies #[trigger] items[i] == rest[i] by {}
        assert(items[last] == items.last());
        let had = window_of(worked_through(rest).windows, press);
        let i = items.last();
        assert(!is_malformed(items[last]));
        lemma_one_more(items, press, had, w);
        assert forall|z: int| 0 <= z < 8 implies #[trigger] w.temps[z] == temps_among(
            items,
            items.len(),
            press,
            z + 1,
        ) by {
            assert(had.temps[z] == temps_among(rest, rest.len(), press, z + 1));
            assert(temps_among(items, rest.len(), press, z + 1) == temps_among(
                rest,
                rest.len(),
                press,
                z + 1,
            ));
        }
        if worked_through(rest).windows.dom().contains(press) {
            let k = choose|k: int| 0 <= k < rest.len() && is_of(#[trigger] rest[k], press);
            assert(is_of(items[k], press));
        }
        if exists|k: int| 0 <= k < items.len() && is_of(#[trigger] items[k], press) {
            let k = choose|k: int| 0 <= k < items.len() && is_of(#[trigger] items[k], press);
            if k < last {
                assert(is_of(rest[k], press));
            }
        }
        if worked_through(items).windows.dom().contains(press) {
            if is_of(i, press) {
                assert(is_of(items[last], press));
            } else {
                let ts = worked_through(rest).windows[press].last_ts;
                let k = choose|k: int|
                    {
                        &&& 0 <= k < rest.len()
                        &&& is_of(#[trigger] rest[k], press)
                        &&& rest[k].rec.timestamp == ts
                        &&& forall|j: int|
                            k < j < rest.len() ==> !is_of(#[trigger] rest[j], press)
                    };
                assert(is_of(items[k], press));
                assert forall|j: int| k < j < items.len() implies !is_of(
                    #[trigger] items[j],
                    press,
                ) by {
                    if j < last {
                        assert(items[j] == rest[j]);
                    }
                }
            }
        }
    } else {
        assert(value(0) == 0) by {
            assert(crate::measure::exponent(0) == 0);
        }
        assert forall|z: int| 0 <= z < 8 implies #[trigger] w.temps[z] == temps_among(
            items,
            items.len(),
            press,
            z + 1,
        ) by {
            assert(w.temps[z] =~= Seq::empty());
        }
    }
}

/// What stands behind a record that cannot be read changes nothing: the
/// windows are those of the records before it.
pub proof fn windows_end_at_the_first_failure(items: Seq<Item>)
    requires
        items.len() <= u64::MAX,
    ensures
        ({
            let w = worked_through(items);
            let front = items.take(w.consumed as int);
            worked_through(front).windows == w.windows && worked_through(front).failure is None
        }),
    decreases items.len(),
{
    every_record_is_accounted_for(items);
    if items.len() > 0 {
        let rest = items.drop_last();
        windows_end_at_the_first_failure(rest);
        every_record_is_accounted_for(rest);
        let w = worked_through(items);
        if w.failure is None {
            assert(items.take(items.len() as int) =~= items);
        } else {
            assert(w.consumed == worked_through(rest).consumed);
            assert(items.take(w.consumed as int) =~= rest.take(w.consumed as int));
        }
    } else {
        assert(items.take(0) =~= items);
    }
}

// ---------------------------------------------------------------------------
// Profiles

/// A press is on hold exactly where a sample of it counted more than 1000
/// particles or measured more than 60 percent of humidity; its profile says
/// so, and says the greatest count.
pub proof fn a_press_is_held_for_any_sample(items: Seq<Item>, press: Seq<char>, c: Computed)
    requires
        items.len() <= u64::MAX,
        worked_through(items).failure is None,
    ensures
        ({
            let w = window_of(worked_through(items).windows, press);
            let p = profile_object(press, w, c);
            &&& field(p, "hold"@) == Some(
                JsonView::Bool(
                    exists|i: int|
                        {
                            &&& 0 <= i < items.len()
                            &&& is_of(#[trigger] items[i], press)
                            &&& {
                                ||| items[i].decoded->Ok_0.particles matches Some(n) && n > 1000
                                ||| items[i].decoded->Ok_0.rh_pct matches Some(rh) && !is_nan(
                                    rh.bits,
                                ) && value(rh.bits) > whole(60)
                            }
                        },
                ),
            )
            &&& exists|max: u64| #[trigger]
                is_greatest_count(items, press, max) && field(p, "particles_max"@) == Some(
                    JsonView::Uint(max),
                )
        }),
{
    a_window_sums_up_its_samples(items, press);
    the_limits_are_exact();
    let w = window_of(worked_through(items).windows, press);
    lemma_profile_fields(press, w, c);
    crate::measure::lemma_unsigned(w.rh_max);
    assert(whole(60) > 0) by {
        vstd::arithmetic::power2::lemma_pow2_pos(1074);
        assert(60 * vstd::arithmetic::power2::pow2(1074) > 0) by (nonlinear_arith)
            requires
                vstd::arithmetic::power2::pow2(1074) > 0,
        ;
    }
    assert(value(0) == 0) by {
        assert(crate::measure::exponent(0) == 0);
    }
    assert(field(profile_object(press, w, c), "particles_max"@) == Some(
        JsonView::Uint(w.particles_max),
    ));
}

/// The fields of a profile.
proof fn lemma_profile_fields(press: Seq<char>, w: WindowView, c: Computed)
    ensures
        ({
            let p = profile_object(press, w, c);
            &&& field(p, "press"@) == Some(JsonView::Str(press))
            &&& field(p, "samples"@) == Some(JsonView::Uint(w.n))
            &&& field(p, "conformance_pct"@) == Some(c.conformance@)
            &&& field(p, "alarm"@) == Some(JsonView::Bool(alarms(w, c)))
            &&& field(p, "hold"@) == Some(JsonView::Bool(holds(w)))
            &&& field(p, "particles_max"@) == Some(JsonView::Uint(w.particles_max))
            &&& field(p, "rh_max"@) == Some(c.rh_max@)
            &&& field(p, "enough_samples"@) == Some(
                JsonView::Bool(crate::stations::mold_cure::has_enough(w.temps)),
            )
            &&& field(p, "worst_zone"@) == Some(
                crate::stations::mold_cure::worst_object(w.temps, c.drifts@),
            )
            &&& field(p, "zones_c"@) == Some(
                JsonView::List(crate::stations::mold_cure::by_zone(w.temps, c.means@)),
            )
            &&& field(p, "drift_c"@) == Some(
                JsonView::List(crate::stations::mold_cure::by_zone(w.temps, c.drifts@)),
            )
            &&& field(p, "window"@) is Some
            &&& field(field(p, "window"@)->0, "from"@) == Some(opt_int_view(w.first_ts))
            &&& field(field(p, "window"@)->0, "to"@) == Some(opt_int_view(w.last_ts))
        }),
{
    reveal_strlit("press");
    reveal_strlit("samples");
    reveal_strlit("conformance_pct");
    reveal_strlit("zones_c");
    reveal_strlit("drift_c");
    reveal_strlit("worst_zone");
    reveal_strlit("alarm");
    reveal_strlit("hold");
    reveal_strlit("enough_samples");
    reveal_strlit("rh_max");
    reveal_strlit("particles_max");
    reveal_strlit("window");
    reveal_strlit("from");
    reveal_strlit("to");
    assert("press"@.len() == 5 && "samples"@.len() == 7 && "conformance_pct"@.len() == 15
        && "zones_c"@.len() == 7 && "drift_c"@.len() == 7 && "worst_zone"@.len() == 10
        && "alarm"@.len() == 5 && "hold"@.len() == 4 && "enough_samples"@.len() == 14
        && "rh_max"@.len() == 6 && "particles_max"@.len() == 13 && "window"@.len() == 6
        && "from"@.len() == 4 && "to"@.len() == 2);
    assert("press"@[0] == 'p');
    assert("alarm"@[0] == 'a');
    assert("samples"@[0] == 's');
    assert("zones_c"@[0] == 'z');
    assert("drift_c"@[0] == 'd');
    assert("hold"@[0] == 'h');
    assert("from"@[0] == 'f');
    assert("rh_max"@[0] == 'r');
    assert("window"@[0] == 'w');
}

/// A profile tells its press, how many samples there were, what was worked
/// out of them, from when to when they came, and for each zone that has
/// samples its mean and its drift.
pub proof fn a_profile_tells_its_window(press: Seq<char>, w: WindowView, c: Computed, zone: int)
    requires
        0 <= zone < 8,
    ensures
        ({
            let p = profile_object(press, w, c);
            let means = list_field(p, "zones_c"@);
            let drifts = list_field(p, "drift_c"@);
            &&& field(p, "press"@) == Some(JsonView::Str(press))
            &&& field(p, "samples"@) == Some(JsonView::Uint(w.n))
            &&& field(p, "conformance_pct"@) == Some(c.conformance@)
            &&& field(p, "rh_max"@) == Some(c.rh_max@)
            &&& field(p, "particles_max"@) == Some(JsonView::Uint(w.particles_max))
            &&& field(field(p, "window"@)->0, "from"@) == Some(opt_int_view(w.first_ts))
            &&& field(field(p, "window"@)->0, "to"@) == Some(opt_int_view(w.last_ts))
            &&& means is Some && means->0.len() == 8
            &&& drifts is Some && drifts->0.len() == 8
            &&& w.temps[zone].len() > 0 ==> means->0[zone] == JsonView::Real(c.means@[zone].json@)
                && drifts->0[zone] == JsonView::Real(c.drifts@[zone].json@)
            &&& w.temps[zone].len() == 0 ==> means->0[zone] == JsonView::Null && drifts->0[zone]
                == JsonView::Null
        }),
{
    lemma_profile_fields(press, w, c);
}

proof fn lemma_some_worst(temps: Seq<Seq<u64>>, drifts: Seq<Measure>, n: int, j: int)
    requires
        0 <= j < n <= 8,
        temps.len() == 8,
        temps[j].len() > 0,
    ensures
        exists|i: int| is_worst(temps, drifts, n, i),
    decreases n,
{
    if exists|k: int| 0 <= k < n - 1 && (#[trigger] temps[k]).len() > 0 {
        let k = choose|k: int| 0 <= k < n - 1 && (#[trigger] temps[k]).len() > 0;
        let m = n - 1;
        lemma_some_worst(temps, drifts, m, k);
        let i = choose|i: int| is_worst(temps, drifts, m, i);
        if temps[n - 1].len() > 0 && unsigned(drifts[n - 1].bits) >= unsigned(drifts[i].bits) {
            assert(is_worst(temps, drifts, n, n - 1));
        } else {
            assert(is_worst(temps, drifts, n, i));
        }
    } else {
        assert(j == n - 1);
        assert(is_worst(temps, drifts, n, j));
    }
}

/// Whether a drift is of more than two degrees, to either side.
pub open spec fn drifts_far(m: Measure) -> bool {
    value(m.bits) > whole(2) || value(m.bits) < -whole(2)
}

/// A press alarms exactly where each of its eight zones has four samples or
/// more and some zone has drifted by more than two degrees, up or down. The
/// zone that is named as the worst has samples, and no zone that has samples
/// has drifted further.
pub proof fn a_press_alarms_on_a_far_drift(press: Seq<char>, w: WindowView, c: Computed)
    requires
        w.temps.len() == 8,
        c.drifts@.len() == 8,
        forall|z: int| 0 <= z < 8 ==> !is_nan((#[trigger] c.drifts@[z]).bits),
    ensures
        ({
            let p = profile_object(press, w, c);
            let enough = forall|z: int| 0 <= z < 8 ==> (#[trigger] w.temps[z]).len() >= 4;
            let far = exists|z: int| 0 <= z < 8 && drifts_far(#[trigger] c.drifts@[z]);
            &&& field(p, "alarm"@) == Some(JsonView::Bool(enough && far))
            &&& field(p, "enough_samples"@) == Some(JsonView::Bool(enough))
            &&& (exists|z: int| 0 <= z < 8 && (#[trigger] w.temps[z]).len() > 0) ==> exists|i: int|
                {
                    &&& 0 <= i < 8
                    &&& w.temps[i].len() > 0
                    &&& field(field(p, "worst_zone"@)->0, "zone"@) == Some(
                        JsonView::Uint((i + 1) as u64),
                    )
                    &&& field(field(p, "worst_zone"@)->0, "drift_c"@) == Some(
                        JsonView::Real((#[trigger] c.drifts@[i]).json@),
                    )
                    &&& forall|z: int|
                        0 <= z < 8
                            && (#[trigger] w.temps[z]).len() > 0 ==> crate::measure::magnitude(
                            c.drifts@[z].bits,
                        ) <= crate::measure::magnitude(c.drifts@[i].bits)
                }
        }),
{
    the_limits_are_exact();
    lemma_profile_fields(press, w, c);
    let t = w.temps;
    let d = c.drifts@;
    reveal_strlit("zone");
    reveal_strlit("drift_c");
    assert("zone"@.len() == 4 && "drift_c"@.len() == 7);
    if exists|z: int| 0 <= z < 8 && (#[trigger] t[z]).len() > 0 {
        let z0 = choose|z: int| 0 <= z < 8 && (#[trigger] t[z]).len() > 0;
        lemma_some_worst(t, d, 8, z0);
        let i = choose|i: int| is_worst(t, d, ZONES as int, i);
        assert(worst_zone(t, d) == Some(i));
        lemma_unsigned(d[i].bits);
        assert forall|z: int| 0 <= z < 8 && (#[trigger] t[z]).len() > 0 implies
            crate::measure::magnitude(d[z].bits) <= crate::measure::magnitude(d[i].bits) by {
            magnitude_orders_as_bits(d[i].bits, d[z].bits);
        }
        assert(drifts_far(d[i]) <==> crate::measure::magnitude(d[i].bits) > whole(2));
        if forall|z: int| 0 <= z < 8 ==> (#[trigger] t[z]).len() >= 4 {
            assert forall|z: int| 0 <= z < 8 && drifts_far(#[trigger] d[z]) implies drifts_far(
                d[i],
            ) by {
                assert(t[z].len() > 0);
                lemma_unsigned(d[z].bits);
            }
        }
        assert(d[i] == c.drifts@[i]);
    } else {
        assert(t[0].len() == 0);
    }
}

/// There is one profile for each press, keyed by its name, in the order of
/// the names; what is summed up are the same profiles in the same order.
pub proof fn a_press_has_one_profile(w: WorkView, computed: Seq<Computed>, press: Seq<char>)
    requires
        w.windows.dom().finite(),
    ensures
        profiles_of(w, computed).len() == w.windows.dom().len(),
        summary_of(w, computed).len() == w.windows.dom().len(),
        w.windows.dom().contains(press) ==> exists|i: int|
            {
                &&& 0 <= i < profiles_of(w, computed).len()
                &&& #[trigger] profiles_of(w, computed)[i] == json_keyed(
                    press,
                    profile_object(press, w.windows[press], computed[i]),
                )
                &&& summary_of(w, computed)[i] == profile_object(
                    press,
                    w.windows[press],
                    computed[i],
                )
            },
{
    let names = listed::<String>(w.windows.dom());
    a_listing_has_each_element_once::<String>(w.windows.dom());
    if w.windows.dom().contains(press) {
        assert(names.contains(press));
        let i = choose|i: int| 0 <= i < names.len() && names[i] == press;
        assert(profiles_of(w, computed)[i] == json_keyed(
            press,
            profile_object(press, w.windows[press], computed[i]),
        ));
    }
}

// ---------------------------------------------------------------------------
// Reports

/// A batch that consumed something reports its profiles and how many records
/// it consumed; where there are profiles, how many; and last what stopped it,
/// if anything did.
pub proof fn a_batch_reports_its_profiles(
    w: WorkView,
    summary: Seq<JsonView>,
    records: Seq<ConsumedRecord>,
    at: int,
)
    requires
        w.consumed > 0,
    ensures
        ({
            let out = closing(w, summary, records, at);
            let ts = last_time(records);
            &&& out.len() == 2 + (if summary.len() > 0 {
                1int
            } else {
                0int
            }) + (if w.failure is Some {
                1int
            } else {
                0int
            })
            &&& exists|f: Map<Seq<char>, JsonView>|
                #![trigger metric_view("st05"@, "window"@, ts, f)]
                {
                    &&& out[0] == metric_view("st05"@, "window"@, ts, f)
                    &&& f["n"@] == JsonView::Uint(w.consumed)
                    &&& f["presses"@] == JsonView::List(summary)
                    &&& f["batch"@] == JsonView::Uint(records.len() as u64)
                    &&& f["partition"@] == opt_int_view(partition_of(records))
                }
            &&& exists|f: Map<Seq<char>, JsonView>|
                #![trigger metric_view("st05"@, "consumed"@, ts, f)]
                {
                    &&& out[1] == metric_view("st05"@, "consumed"@, ts, f)
                    &&& f["n"@] == JsonView::Uint(w.consumed)
                    &&& f["partition"@] == opt_int_view(partition_of(records))
                }
            &&& summary.len() > 0 ==> exists|f: Map<Seq<char>, JsonView>|
                #![trigger metric_view("st05"@, "produced"@, ts, f)]
                {
                    &&& out[2] == metric_view("st05"@, "produced"@, ts, f)
                    &&& f["topic"@] == JsonView::Str("mold.profile"@)
                    &&& f["n"@] == JsonView::Uint(summary.len() as u64)
                }
        }),
{
    reveal_strlit("n");
    reveal_strlit("presses");
    reveal_strlit("batch");
    reveal_strlit("partition");
    reveal_strlit("topic");
    assert("n"@.len() == 1 && "presses"@.len() == 7 && "batch"@.len() == 5
        && "partition"@.len() == 9 && "topic"@.len() == 5);
    assert("batch"@[0] == 'b');
    assert("topic"@[0] == 't');
    let out = closing(w, summary, records, at);
    let ts = last_time(records);
    let partition = opt_int_view(partition_of(records));
    let f = Map::<Seq<char>, JsonView>::empty().insert("n"@, JsonView::Uint(w.consumed)).insert(
        "presses"@,
        JsonView::List(summary),
    ).insert("batch"@, JsonView::Uint(records.len() as u64)).insert("partition"@, partition);
    assert(out[0] == metric_view("st05"@, "window"@, ts, f));
    let g = Map::<Seq<char>, JsonView>::empty().insert("n"@, JsonView::Uint(w.consumed)).insert(
        "partition"@,
        partition,
    );
    assert(out[1] == metric_view("st05"@, "consumed"@, ts, g));
    if summary.len() > 0 {
        let h = Map::<Seq<char>, JsonView>::empty().insert(
            "topic"@,
            JsonView::Str("mold.profile"@),
        ).insert("n"@, JsonView::Uint(summary.len() as u64));
        assert(out[2] == metric_view("st05"@, "produced"@, ts, h));
    }
}

/// A batch whose profiles did not all get onto their topic is to be delivered
/// again. One whose profiles did is handled: wholly where nothing failed, and
/// otherwise up to the failure, which is refused where nothing stands before
/// it.
pub proof fn a_batch_is_handled_once_its_profiles_are_out(
    w: WorkView,
    sent: Option<Result<Vec<Result<(), KafkaError>>, KafkaError>>,
)
    ensures
        ({
            let lost = sent matches Some(s) && (s is Err || exists|i: int|
                0 <= i < s->Ok_0@.len() && (#[trigger] s->Ok_0@[i]) is Err);
            &&& lost ==> answer(w, sent) == Err::<Option<i64>, HandlerErrorView>(
                HandlerErrorView::Transient(Some("profile produce failed"@)),
            )
            &&& !lost && w.failure is None ==> answer(w, sent) == Ok::<
                Option<i64>,
                HandlerErrorView,
            >(None)
            &&& !lost && w.failure is Some && w.handled is Some ==> answer(w, sent) == Ok::<
                Option<i64>,
                HandlerErrorView,
            >(w.handled)
            &&& !lost && w.failure is Some && w.handled is None ==> answer(w, sent) == Err::<
                Option<i64>,
                HandlerErrorView,
            >(HandlerErrorView::Permanent(w.failure))
        }),
{
    if let Some(s) = sent {
        a_batch_is_taken_where_no_record_fails(s);
    }
}

/// What failed in a batch is told last, with the press that its record is
/// for.
pub proof fn a_failed_sample_is_told_last(
    w: WorkView,
    summary: Seq<JsonView>,
    records: Seq<ConsumedRecord>,
    at: int,
)
    requires
        w.failure is Some,
    ensures
        closing(w, summary, records, at).last() == failure_metric(
            "st05"@,
            "press"@,
            w.handled,
            w.failure->0,
            records[at],
        ),
{
}

/// A sample is refused for the first thing that is wrong with it: that it is
/// no UTF-8, that it does not decode, its zone, or its temperature.
pub proof fn a_sample_is_refused_for_what_is_wrong(bytes: Seq<u8>, decoded: Result<Sample, String>)
    ensures
        !valid_utf8(bytes) ==> sample_fault(bytes, decoded) == Some("value is not valid UTF-8"@),
        valid_utf8(bytes) ==> (decoded matches Err(e) ==> sample_fault(bytes, decoded) == Some(
            "bad sample: "@ + e@,
        )),
        valid_utf8(bytes) ==> (decoded matches Ok(s) ==> {
            &&& !(1 <= s.zone <= 8) ==> sample_fault(bytes, decoded) == Some(
                "zone "@ + decimal(s.zone as nat) + " outside 1..8"@,
            )
            &&& 1 <= s.zone <= 8 && !is_finite(s.temp_c.bits) ==> sample_fault(bytes, decoded)
                == Some("temp_c is not finite"@)
        }),
{
}

} // verus!
