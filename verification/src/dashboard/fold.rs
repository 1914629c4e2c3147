//! Folding one metric into the model.

use vstd::prelude::*;
use vstd::string::*;

use super::model::{
    bump_field, bumped, dlq_for, dlq_of, number_in, number_of_field, push_fault, station_of,
    with_fault, with_station, Model, ModelView, Station, StationView,
};
use super::ring::{last_of, ring_added, SAMPLES_KEPT};
use crate::json::{
    bool_field, field, int_field, int_view, json_text, json_text_of, lemma_list_view, list_field,
    list_view, object_field, opt_text, or_else, text_field, uint_field, Fields, Json, JsonView,
};
use crate::kafka::ConsumedRecord;
use crate::text::{
    decimal, decimal_text, signed_decimal, signed_decimal_text, text_eq, texts,
};

verus! {

broadcast use {vstd::string::group_string_axioms, crate::json::lemma_list_view};

/// What is worked out in floating point for one metric before it is folded.
pub struct Computed {
    /// The smoothed Cpk of each head the metric gives one of.
    pub cpk: Fields,
    /// The mean conformance of the presses the metric gives one of.
    pub conformance: Option<Json>,
    /// The worst drift of each press, signed and with one decimal.
    pub drifts: Vec<String>,
    /// The NSOP threshold as it is shown.
    pub threshold: String,
}

/// The value of a metric's optional parts worked out beforehand.
pub open spec fn conformance_of(c: Computed) -> Option<JsonView> {
    match c.conformance {
        Some(j) => Some(j@),
        None => None,
    }
}

// ---------------------------------------------------------------------------
// Parts of a metric

/// The fields of an object in a field, none where it is no object.
pub open spec fn fields_in(m: Map<Seq<char>, JsonView>, key: Seq<char>) -> Map<
    Seq<char>,
    JsonView,
> {
    if m.dom().contains(key) {
        match m[key] {
            JsonView::Object(f) => f,
            _ => Map::empty(),
        }
    } else {
        Map::empty()
    }
}

fn copy_fields_in(m: &Fields, key: &str) -> (r: Fields)
    ensures
        r@ == fields_in(m@, key@),
{
    match m.get(key) {
        Some(Json::Object(f)) => f.copy(),
        _ => Fields::new(),
    }
}

/// Whether a value is a number.
pub open spec fn is_number(v: JsonView) -> bool {
    v is Uint || v is Int || v is Real
}

/// The Cpk per head: the old, and over them the smoothed ones of the heads
/// that the metric gives a number of.
pub open spec fn smoothed(
    cur: Map<Seq<char>, JsonView>,
    given: Map<Seq<char>, JsonView>,
    computed: Map<Seq<char>, JsonView>,
) -> Map<Seq<char>, JsonView> {
    cur.union_prefer_right(
        computed.restrict(
            Set::new(|h: Seq<char>| given.dom().contains(h) && is_number(given[h])),
        ),
    )
}

/// The smoothed Cpk of those heads among `names` that have a number.
spec fn smoothed_part(
    given: Map<Seq<char>, JsonView>,
    computed: Map<Seq<char>, JsonView>,
    names: Seq<Seq<char>>,
) -> Map<Seq<char>, JsonView> {
    computed.restrict(
        Set::new(
            |h: Seq<char>|
                given.dom().contains(h) && is_number(given[h]) && names.contains(h),
        ),
    )
}

fn smooth(cur: Fields, given: &Fields, computed: &Fields) -> (r: Fields)
    ensures
        r@ == smoothed(cur@, given@, computed@),
{
    let mut r = cur;
    let n = given.len();
    let mut i: usize = 0;
    assert(cur@ =~= cur@.union_prefer_right(smoothed_part(given@, computed@, given.names().take(0))));
    while i < n
        invariant
            i <= n == given.names().len(),
            r@ == cur@.union_prefer_right(
                smoothed_part(given@, computed@, given.names().take(i as int)),
            ),
        decreases n - i,
    {
        let (head, value) = given.at(i);
        let numeric = match value {
            Json::Uint(_) => true,
            Json::Int(_) => true,
            Json::Real(_) => true,
            _ => false,
        };
        let ghost before = r@;
        if numeric {
            match computed.get(head.as_str()) {
                Some(x) => {
                    let copy = x.copy();
                    r.set(head.clone(), copy);
                },
                None => {},
            }
        }
        proof {
            let k = given.names()[i as int];
            let a = given.names().take(i as int);
            let b = given.names().take(i + 1);
            assert(b =~= a.push(k));
            assert forall|q: Seq<char>| b.contains(q) <==> (a.contains(q) || q == k) by {
                if a.contains(q) {
                    let j = choose|j: int| 0 <= j < a.len() && a[j] == q;
                    assert(b[j] == q);
                }
                if q == k {
                    assert(b[i as int] == q);
                }
            }
            assert(r@ =~= cur@.union_prefer_right(smoothed_part(given@, computed@, b)));
        }
        i = i + 1;
    }
    proof {
        assert(given.names().take(n as int) =~= given.names());
        assert(smoothed_part(given@, computed@, given.names()) =~= computed@.restrict(
            Set::new(|h: Seq<char>| given@.dom().contains(h) && is_number(given@[h])),
        ));
    }
    r
}

/// The tally with one more of each text in a list.
pub open spec fn tallied(cur: Map<Seq<char>, JsonView>, list: Seq<JsonView>) -> Map<
    Seq<char>,
    JsonView,
>
    decreases list.len(),
{
    if list.len() == 0 {
        cur
    } else {
        let before = tallied(cur, list.drop_last());
        match list.last() {
            JsonView::Str(d) => bumped(before, d, 1),
            _ => before,
        }
    }
}

fn tally(cur: Fields, list: &Vec<Json>) -> (r: Fields)
    ensures
        r@ == tallied(cur@, list_view(list@)),
{
    let mut r = cur;
    let mut i: usize = 0;
    let ghost all = list_view(list@);
    assert(all.take(0) =~= Seq::empty());
    while i < list.len()
        invariant
            i <= list@.len(),
            all == list_view(list@),
            r@ == tallied(cur@, all.take(i as int)),
        decreases list@.len() - i,
    {
        proof {
            assert(all.take(i + 1).drop_last() =~= all.take(i as int));
            assert(all.take(i + 1).last() == all[i as int]);
        }
        match &list[i] {
            Json::Str(d) => {
                bump_field(&mut r, d.as_str(), 1);
            },
            _ => {},
        }
        i = i + 1;
    }
    assert(all.take(all.len() as int) =~= all);
    r
}

/// Counts with those of `more` added, name by name.
pub open spec fn summed(cur: Map<Seq<char>, JsonView>, more: Map<Seq<char>, JsonView>) -> Map<
    Seq<char>,
    JsonView,
> {
    cur.union_prefer_right(
        Map::new(
            |k: Seq<char>| more.dom().contains(k),
            |k: Seq<char>|
                JsonView::Uint(number_in(cur, k).wrapping_add(number_in(more, k))),
        ),
    )
}

fn sum_fields(cur: Fields, more: &Fields) -> (r: Fields)
    ensures
        r@ == summed(cur@, more@),
{
    let mut r = cur;
    let n = more.len();
    let mut i: usize = 0;
    let ghost names = more.names();
    let ghost want = summed(cur@, more@);
    while i < n
        invariant
            i <= n == names.len(),
            names == more.names(),
            names.no_duplicates(),
            want == summed(cur@, more@),
            forall|k: Seq<char>| more@.dom().contains(k) <==> names.contains(k),
            forall|k: Seq<char>|
                #![trigger r@.dom().contains(k)]
                r@.dom().contains(k) <==> (cur@.dom().contains(k) || names.take(
                    i as int,
                ).contains(k)),
            forall|k: Seq<char>|
                #![trigger r@[k]]
                r@.dom().contains(k) ==> r@[k] == if names.take(i as int).contains(k) {
                    want[k]
                } else {
                    cur@[k]
                },
        decreases n - i,
    {
        let (name, value) = more.at(i);
        let add: u64 = match value {
            Json::Uint(x) => *x,
            _ => 0,
        };
        let ghost k = names[i as int];
        proof {
            let a = names.take(i as int);
            let b = names.take(i + 1);
            assert(b =~= a.push(k));
            assert(!a.contains(k)) by {
                if a.contains(k) {
                    let j = choose|j: int| 0 <= j < a.len() && a[j] == k;
                    assert(names[j] == names[i as int]);
                }
            }
            assert forall|q: Seq<char>| b.contains(q) <==> (a.contains(q) || q == k) by {
                if a.contains(q) {
                    let j = choose|j: int| 0 <= j < a.len() && a[j] == q;
                    assert(b[j] == q);
                }
                if q == k {
                    assert(b[i as int] == q);
                }
            }
            assert(names.contains(k));
        }
        bump_field(&mut r, name.as_str(), add);
        i = i + 1;
    }
    proof {
        assert(names.take(n as int) =~= names);
        assert(r@ =~= want);
    }
    r
}

// ---------------------------------------------------------------------------
// What each kind of metric does to its station

/// One more sample, where the metric gives one in a field.
pub open spec fn sampled(s: Seq<u64>, v: JsonView, key: Seq<char>) -> Seq<u64> {
    match uint_field(v, key) {
        Some(x) => last_of(s.push(x), SAMPLES_KEPT as int),
        None => s,
    }
}

/// The number in a field of a metric, zero where there is none.
pub open spec fn amount(v: JsonView, key: Seq<char>) -> u64 {
    or_else(uint_field(v, key), 0)
}

/// Whether a field of a metric is true.
pub open spec fn flagged(v: JsonView, key: Seq<char>) -> bool {
    or_else(bool_field(v, key), false)
}

fn amount_of(v: &Json, key: &str) -> (n: u64)
    ensures
        n == amount(v@, key@),
{
    match v.uint_field(key) {
        Some(n) => n,
        None => 0,
    }
}

fn is_flagged(v: &Json, key: &str) -> (b: bool)
    ensures
        b == flagged(v@, key@),
{
    match v.bool_field(key) {
        Some(b) => b,
        None => false,
    }
}

fn sample_field(st: &mut Station, v: &Json, key: &str)
    ensures
        final(st)@ == (StationView { latency: sampled(old(st)@.latency, v@, key@), ..old(st)@ }),
{
    match v.uint_field(key) {
        Some(x) => {
            st.latency.push(x);
        },
        None => {},
    }
}

/// The details after a station consumed records.
pub open spec fn consumed_detail(
    station: Seq<char>,
    d: Map<Seq<char>, JsonView>,
    v: JsonView,
    c: Computed,
) -> Map<Seq<char>, JsonView> {
    if station == "st02"@ {
        let d = bumped(bumped(d, "in_spec"@, amount(v, "in_spec"@)), "flags"@, amount(v, "flags"@));
        match object_field(v, "cpk"@) {
            Some(given) => d.insert(
                "cpk"@,
                JsonView::Object(smoothed(fields_in(d, "cpk"@), given, c.cpk@)),
            ),
            None => d,
        }
    } else if station == "st04"@ {
        match list_field(v, "defects"@) {
            Some(list) => d.insert(
                "defects"@,
                JsonView::Object(tallied(fields_in(d, "defects"@), list)),
            ),
            None => d,
        }
    } else if station == "st06"@ {
        let d = match object_field(v, "bins"@) {
            Some(bins) => d.insert(
                "bins"@,
                JsonView::Object(summed(fields_in(d, "bins"@), bins)),
            ),
            None => d,
        };
        bumped(d, "batches"@, 1)
    } else {
        d
    }
}

/// A station that consumed `n` records.
pub open spec fn after_consumed(
    st: StationView,
    station: Seq<char>,
    ts: i64,
    n: u64,
    v: JsonView,
    now: i64,
    c: Computed,
) -> StationView {
    StationView {
        consumed: st.consumed.wrapping_add(n),
        ring: ring_added(st.ring, ts, n, now),
        detail: consumed_detail(station, st.detail, v, c),
        latency: if station == "st04"@ {
            sampled(st.latency, v, "latency_p95_ms"@)
        } else {
            st.latency
        },
        ..st
    }
}

fn fold_consumed(st: &mut Station, station: &str, ts: i64, n: u64, v: &Json, now: i64, c: &Computed)
    ensures
        final(st)@ == after_consumed(old(st)@, station@, ts, n, v@, now, *c),
{
    proof {
        reveal_strlit("st02");
        reveal_strlit("st04");
        assert("st02"@[3] != "st04"@[3]);
    }
    st.consumed = st.consumed.wrapping_add(n);
    st.ring.add_at(ts, n, now);
    if text_eq(station, "st02") {
        st.bump("in_spec", amount_of(v, "in_spec"));
        st.bump("flags", amount_of(v, "flags"));
        match v.object_field("cpk") {
            Some(given) => {
                let cur = copy_fields_in(&st.detail, "cpk");
                let next = smooth(cur, given, &c.cpk);
                st.num("cpk", Json::Object(next));
            },
            None => {},
        }
    } else if text_eq(station, "st04") {
        sample_field(st, v, "latency_p95_ms");
        match v.list_field("defects") {
            Some(list) => {
                let cur = copy_fields_in(&st.detail, "defects");
                let next = tally(cur, list);
                st.num("defects", Json::Object(next));
            },
            None => {},
        }
    } else if text_eq(station, "st06") {
        match v.object_field("bins") {
            Some(bins) => {
                let cur = copy_fields_in(&st.detail, "bins");
                let next = sum_fields(cur, bins);
                st.num("bins", Json::Object(next));
            },
            None => {},
        }
        st.bump("batches", 1);
    }
}

/// A station that produced `n` records.
pub open spec fn after_produced(
    st: StationView,
    station: Seq<char>,
    ts: i64,
    n: u64,
    v: JsonView,
    now: i64,
) -> StationView {
    let st = StationView { produced: st.produced.wrapping_add(n), ..st };
    if station == "st01"@ {
        let d = bumped(bumped(st.detail, "lots"@, 1), "wafers"@, n);
        StationView {
            detail: match text_field(v, "prober"@) {
                Some(p) => d.insert("last_prober"@, JsonView::Str(p)),
                None => d,
            },
            ring: ring_added(st.ring, ts, 1, now),
            ..st
        }
    } else {
        st
    }
}

fn fold_produced(st: &mut Station, station: &str, ts: i64, n: u64, v: &Json, now: i64)
    ensures
        final(st)@ == after_produced(old(st)@, station@, ts, n, v@, now),
{
    st.produced = st.produced.wrapping_add(n);
    if text_eq(station, "st01") {
        st.bump("lots", 1);
        st.bump("wafers", n);
        match v.text_field("prober") {
            Some(p) => {
                st.num("last_prober", Json::Str(p));
            },
            None => {},
        }
        st.ring.add_at(ts, 1, now);
    }
}

/// A station of which an instance was heard.
pub open spec fn after_instance(st: StationView, ts: i64, v: JsonView) -> StationView {
    match text_field(v, "id"@) {
        Some(id) => StationView {
            instances: st.instances.insert(id, ts),
            instances_ever: if st.instances.dom().contains(id) {
                st.instances_ever
            } else {
                st.instances_ever.wrapping_add(1)
            },
            ..st
        },
        None => st,
    }
}

fn fold_instance(st: &mut Station, ts: i64, v: &Json)
    ensures
        final(st)@ == after_instance(old(st)@, ts, v@),
{
    match v.text_field("id") {
        Some(id) => {
            if st.instances.insert(id, ts).is_none() {
                st.instances_ever = st.instances_ever.wrapping_add(1);
            }
        },
        None => {},
    }
}

/// What is known of a bonder after one more window of it.
pub open spec fn bonder_after(e: Map<Seq<char>, JsonView>, ts: i64, v: JsonView) -> Map<
    Seq<char>,
    JsonView,
> {
    e.insert("windows"@, JsonView::Uint(number_in(e, "windows"@).wrapping_add(1))).insert(
        "nsop"@,
        JsonView::Uint(
            number_in(e, "nsop"@).wrapping_add(
                if flagged(v, "nsop"@) {
                    1
                } else {
                    0
                },
            ),
        ),
    ).insert("delta"@, or_else(field(v, "power_delta_pct"@), JsonView::Null)).insert(
        "us_w"@,
        or_else(field(v, "us_w_mean"@), JsonView::Null),
    ).insert("ts"@, int_view(ts))
}

fn copy_or_null(v: Option<&Json>) -> (r: Json)
    ensures
        match v {
            Some(j) => r@ == j@,
            None => r@ == JsonView::Null,
        },
{
    match v {
        Some(j) => j.copy(),
        None => Json::Null,
    }
}

/// The details of the wire bonders after a window of one of them.
pub open spec fn bonders_detail(d: Map<Seq<char>, JsonView>, ts: i64, v: JsonView) -> Map<
    Seq<char>,
    JsonView,
> {
    match uint_field(v, "bonder"@) {
        Some(b) => {
            let bonders = fields_in(d, "bonders"@);
            let e = bonder_after(fields_in(bonders, decimal(b as nat)), ts, v);
            let d = d.insert(
                "bonders"@,
                JsonView::Object(bonders.insert(decimal(b as nat), JsonView::Object(e))),
            );
            let d = if flagged(v, "nsop"@) {
                bumped(d, "nsop_windows"@, 1)
            } else {
                d
            };
            match uint_field(v, "n"@) {
                Some(n) => bumped(d, "window_samples"@, n),
                None => d,
            }
        },
        None => d,
    }
}

fn fold_bonder(st: &mut Station, ts: i64, v: &Json)
    ensures
        final(st)@ == (StationView {
            detail: bonders_detail(old(st)@.detail, ts, v@),
            ..old(st)@
        }),
{
    match v.uint_field("bonder") {
        Some(b) => {
            let name = decimal_text(b);
            let mut bonders = copy_fields_in(&st.detail, "bonders");
            let mut e = copy_fields_in(&bonders, name.as_str());
            let windows = number_of_field(&e, "windows").wrapping_add(1);
            let flag: u64 = if is_flagged(v, "nsop") {
                1
            } else {
                0
            };
            let nsop = number_of_field(&e, "nsop").wrapping_add(flag);
            e.put("windows", Json::Uint(windows));
            e.put("nsop", Json::Uint(nsop));
            e.put("delta", copy_or_null(v.field("power_delta_pct")));
            e.put("us_w", copy_or_null(v.field("us_w_mean")));
            e.put("ts", Json::whole(ts));
            bonders.put(name.as_str(), Json::Object(e));
            st.num("bonders", Json::Object(bonders));
            if is_flagged(v, "nsop") {
                st.bump("nsop_windows", 1);
            }
            match v.uint_field("n") {
                Some(n) => {
                    st.bump("window_samples", n);
                },
                None => {},
            }
        },
        None => {},
    }
}

/// The presses after a window: each that has an id stands under it, with the
/// time of the window.
pub open spec fn presses_after(
    cur: Map<Seq<char>, JsonView>,
    presses: Seq<JsonView>,
    ts: i64,
) -> Map<Seq<char>, JsonView>
    decreases presses.len(),
{
    if presses.len() == 0 {
        cur
    } else {
        let before = presses_after(cur, presses.drop_last(), ts);
        let p = presses.last();
        match (p, text_field(p, "press"@)) {
            (JsonView::Object(m), Some(id)) => before.insert(
                id,
                JsonView::Object(m.insert("ts"@, int_view(ts))),
            ),
            _ => before,
        }
    }
}

fn note_presses(cur: Fields, presses: &Vec<Json>, ts: i64) -> (r: Fields)
    ensures
        r@ == presses_after(cur@, list_view(presses@), ts),
{
    let mut r = cur;
    let mut i: usize = 0;
    let ghost all = list_view(presses@);
    assert(all.take(0) =~= Seq::empty());
    while i < presses.len()
        invariant
            i <= presses@.len(),
            all == list_view(presses@),
            r@ == presses_after(cur@, all.take(i as int), ts),
        decreases presses@.len() - i,
    {
        proof {
            assert(all.take(i + 1).drop_last() =~= all.take(i as int));
            assert(all.take(i + 1).last() == all[i as int]);
        }
        match &presses[i] {
            Json::Object(m) => match presses[i].text_field("press") {
                Some(id) => {
                    let mut e = m.copy();
                    e.put("ts", Json::whole(ts));
                    r.set(id, Json::Object(e));
                },
                None => {},
            },
            _ => {},
        }
        i = i + 1;
    }
    assert(all.take(all.len() as int) =~= all);
    r
}

/// Whether some press gives its conformance.
pub open spec fn gives_conformance(presses: Seq<JsonView>) -> bool {
    exists|i: int|
        0 <= i < presses.len() && gives_number(field(#[trigger] presses[i], "conformance_pct"@))
}

/// Whether a field holds a number.
pub open spec fn gives_number(v: Option<JsonView>) -> bool {
    match v {
        Some(x) => is_number(x),
        None => false,
    }
}

fn holds_number(v: Option<&Json>) -> (r: bool)
    ensures
        r == (match v {
            Some(j) => is_number(j@),
            None => false,
        }),
{
    match v {
        Some(Json::Uint(_)) => true,
        Some(Json::Int(_)) => true,
        Some(Json::Real(_)) => true,
        _ => false,
    }
}

fn any_conformance(presses: &Vec<Json>) -> (r: bool)
    ensures
        r == gives_conformance(list_view(presses@)),
{
    let mut i: usize = 0;
    while i < presses.len()
        invariant
            i <= presses@.len(),
            forall|j: int|
                0 <= j < i ==> !gives_number(
                    field(#[trigger] list_view(presses@)[j], "conformance_pct"@),
                ),
        decreases presses@.len() - i,
    {
        let p = &presses[i];
        assert(p@ == list_view(presses@)[i as int]);
        if holds_number(p.field("conformance_pct")) {
            return true;
        }
        i = i + 1;
    }
    false
}

/// The details of mold and cure after a window.
pub open spec fn presses_detail(
    d: Map<Seq<char>, JsonView>,
    ts: i64,
    v: JsonView,
    c: Computed,
) -> Map<Seq<char>, JsonView> {
    match list_field(v, "presses"@) {
        Some(presses) => {
            let d = d.insert(
                "presses"@,
                JsonView::Object(presses_after(fields_in(d, "presses"@), presses, ts)),
            );
            let d = match conformance_of(c) {
                Some(x) if gives_conformance(presses) => d.insert("conformance_pct"@, x),
                _ => d,
            };
            match uint_field(v, "batch"@) {
                Some(b) => d.insert("last_batch"@, JsonView::Uint(b)),
                None => d,
            }
        },
        None => d,
    }
}

fn fold_presses(st: &mut Station, ts: i64, v: &Json, c: &Computed)
    ensures
        final(st)@ == (StationView {
            detail: presses_detail(old(st)@.detail, ts, v@, *c),
            ..old(st)@
        }),
{
    match v.list_field("presses") {
        Some(presses) => {
            let cur = copy_fields_in(&st.detail, "presses");
            let next = note_presses(cur, presses, ts);
            st.num("presses", Json::Object(next));
            if any_conformance(presses) {
                match &c.conformance {
                    Some(x) => {
                        st.num("conformance_pct", x.copy());
                    },
                    None => {},
                }
            }
            match v.uint_field("batch") {
                Some(b) => {
                    st.num("last_batch", Json::Uint(b));
                },
                None => {},
            }
        },
        None => {},
    }
}

/// The details after a window of a station.
pub open spec fn window_detail(
    station: Seq<char>,
    d: Map<Seq<char>, JsonView>,
    ts: i64,
    v: JsonView,
    c: Computed,
) -> Map<Seq<char>, JsonView> {
    let d = bumped(d, "windows"@, 1);
    if station == "st03"@ {
        bonders_detail(d, ts, v)
    } else if station == "st05"@ {
        presses_detail(d, ts, v, c)
    } else {
        d
    }
}

/// The fields with one of the metric's copied over, where it has it.
pub open spec fn copied(d: Map<Seq<char>, JsonView>, v: JsonView, key: Seq<char>) -> Map<
    Seq<char>,
    JsonView,
> {
    match field(v, key) {
        Some(x) => d.insert(key, x),
        None => d,
    }
}

fn copy_detail(st: &mut Station, v: &Json, key: &str)
    ensures
        final(st)@ == (StationView { detail: copied(old(st)@.detail, v@, key@), ..old(st)@ }),
{
    match v.field(key) {
        Some(x) => {
            st.num(key, x.copy());
        },
        None => {},
    }
}

/// The details after a transaction was aborted.
pub open spec fn abort_detail(d: Map<Seq<char>, JsonView>, v: JsonView) -> Map<
    Seq<char>,
    JsonView,
> {
    let d = bumped(d, "aborted"@, 1);
    let d = if flagged(v, "requires_abort"@) {
        bumped(d, "requires_abort"@, 1)
    } else {
        d
    };
    if flagged(v, "fatal"@) {
        bumped(d, "fatal"@, 1)
    } else {
        d
    }
}

/// What a metric does to the station that reports it.
pub open spec fn station_after(
    st: StationView,
    station: Seq<char>,
    kind: Seq<char>,
    ts: i64,
    n: u64,
    v: JsonView,
    now: i64,
    c: Computed,
) -> StationView {
    let d = st.detail;
    if kind == "consumed"@ {
        after_consumed(st, station, ts, n, v, now, c)
    } else if kind == "produced"@ {
        after_produced(st, station, ts, n, v, now)
    } else if kind == "latency"@ {
        StationView {
            latency: sampled(st.latency, v, "ms"@),
            detail: bumped(d, "record_errors"@, amount(v, "errors"@)),
            ..st
        }
    } else if kind == "rejected"@ {
        StationView {
            detail: bumped(
                d,
                "rejected"@,
                if n > 1 {
                    n
                } else {
                    1
                },
            ),
            ..st
        }
    } else if kind == "instance"@ {
        after_instance(st, ts, v)
    } else if kind == "redelivered"@ {
        StationView { redelivered: st.redelivered.wrapping_add(n), ..st }
    } else if kind == "partial"@ {
        StationView { partial: st.partial.wrapping_add(1), ..st }
    } else if kind == "replayed"@ {
        StationView { replayed: st.replayed.wrapping_add(n), ..st }
    } else if kind == "window"@ {
        StationView { detail: window_detail(station, d, ts, v, c), ..st }
    } else if kind == "rebalance"@ {
        StationView {
            detail: bumped(
                bumped(d, "rebalances"@, 1),
                "windows_flushed_on_rebalance"@,
                amount(v, "windows_flushed"@),
            ),
            ..st
        }
    } else if kind == "seek"@ {
        StationView { detail: bumped(d, "seeks"@, 1), ..st }
    } else if kind == "started"@ {
        StationView {
            detail: bumped(
                copied(
                    copied(copied(d, v, "batch_size"@), v, "nsop_threshold_pct"@),
                    v,
                    "window_ms"@,
                ),
                "starts"@,
                1,
            ),
            ..st
        }
    } else if kind == "txn"@ {
        StationView {
            detail: bumped(d, "txns"@, 1),
            latency: sampled(st.latency, v, "ms"@),
            ..st
        }
    } else if kind == "txn_abort"@ {
        StationView { detail: abort_detail(d, v), ..st }
    } else if kind == "commit"@ {
        StationView { detail: bumped(d, "commits"@, 1), ..st }
    } else {
        st
    }
}

/// Folds a metric into the station that reports it.
pub fn fold_station(
    st: &mut Station,
    station: &str,
    kind: &str,
    ts: i64,
    n: u64,
    v: &Json,
    now: i64,
    c: &Computed,
)
    ensures
        final(st)@ == station_after(old(st)@, station@, kind@, ts, n, v@, now, *c),
{
    if text_eq(kind, "consumed") {
        fold_consumed(st, station, ts, n, v, now, c);
    } else if text_eq(kind, "produced") {
        fold_produced(st, station, ts, n, v, now);
    } else if text_eq(kind, "latency") {
        sample_field(st, v, "ms");
        st.bump("record_errors", amount_of(v, "errors"));
    } else if text_eq(kind, "rejected") {
        st.bump(
            "rejected",
            if n > 1 {
                n
            } else {
                1
            },
        );
    } else if text_eq(kind, "instance") {
        fold_instance(st, ts, v);
    } else if text_eq(kind, "redelivered") {
        st.redelivered = st.redelivered.wrapping_add(n);
    } else if text_eq(kind, "partial") {
        st.partial = st.partial.wrapping_add(1);
    } else if text_eq(kind, "replayed") {
        st.replayed = st.replayed.wrapping_add(n);
    } else if text_eq(kind, "window") {
        st.bump("windows", 1);
        if text_eq(station, "st03") {
            fold_bonder(st, ts, v);
        } else if text_eq(station, "st05") {
            fold_presses(st, ts, v, c);
        }
    } else if text_eq(kind, "rebalance") {
        st.bump("rebalances", 1);
        st.bump("windows_flushed_on_rebalance", amount_of(v, "windows_flushed"));
    } else if text_eq(kind, "seek") {
        st.bump("seeks", 1);
    } else if text_eq(kind, "started") {
        copy_detail(st, v, "batch_size");
        copy_detail(st, v, "nsop_threshold_pct");
        copy_detail(st, v, "window_ms");
        st.bump("starts", 1);
    } else if text_eq(kind, "txn") {
        st.bump("txns", 1);
        sample_field(st, v, "ms");
    } else if text_eq(kind, "txn_abort") {
        st.bump("aborted", 1);
        if is_flagged(v, "requires_abort") {
            st.bump("requires_abort", 1);
        }
        if is_flagged(v, "fatal") {
            st.bump("fatal", 1);
        }
    } else if text_eq(kind, "commit") {
        st.bump("commits", 1);
    }
}

// ---------------------------------------------------------------------------
// What each kind of metric puts on the fault row

/// A fault that a metric gives rise to.
pub struct FaultText {
    pub severity: String,
    pub text: String,
    pub state: String,
}

/// What such a fault stands for.
#[verifier::ext_equal]
pub struct FaultTextView {
    pub severity: Seq<char>,
    pub text: Seq<char>,
    pub state: Seq<char>,
}

impl View for FaultText {
    type V = FaultTextView;

    open spec fn view(&self) -> FaultTextView {
        FaultTextView { severity: self.severity@, text: self.text@, state: self.state@ }
    }
}

/// What the fault that there may be stands for.
pub open spec fn opt_fault(f: Option<FaultText>) -> Option<FaultTextView> {
    match f {
        Some(f) => Some(f@),
        None => None,
    }
}

/// A text, and behind it a label and a value where there is one.
pub open spec fn noted(t: Seq<char>, label: Seq<char>, value: Option<Seq<char>>) -> Seq<char> {
    match value {
        Some(x) => t + label + x,
        None => t,
    }
}

pub(crate) fn note(t: String, label: &str, value: Option<String>) -> (r: String)
    ensures
        r@ == noted(t@, label@, opt_text(value)),
{
    let mut r = t;
    match value {
        Some(x) => {
            r.append(label);
            r.append(x.as_str());
        },
        None => {},
    }
    r
}

/// The text of a value, where it is one.
pub open spec fn text_in(v: Option<JsonView>) -> Option<Seq<char>> {
    match v {
        Some(JsonView::Str(s)) => Some(s),
        _ => None,
    }
}

pub(crate) fn text_from(v: Option<&Json>) -> (r: Option<String>)
    ensures
        opt_text(r) == (match v {
            Some(j) => text_in(Some(j@)),
            None => None,
        }),
{
    match v {
        Some(Json::Str(s)) => Some(s.clone()),
        _ => None,
    }
}

/// The first of two fields that is there.
pub open spec fn first_field(v: JsonView, a: Seq<char>, b: Seq<char>) -> Option<JsonView> {
    match field(v, a) {
        Some(x) => Some(x),
        None => field(v, b),
    }
}

/// What a dead letter is about: the first of die, job and press that is
/// there, where it is a text.
pub open spec fn dead_letter_subject(v: JsonView) -> Option<Seq<char>> {
    match first_field(v, "die"@, "job"@) {
        Some(x) => text_in(Some(x)),
        None => text_in(field(v, "press"@)),
    }
}

/// The dead-letter topic of the record a metric names as the origin.
pub open spec fn origin_dlq(v: JsonView) -> Seq<char> {
    match field(v, "origin"@) {
        Some(o) => match text_field(o, "topic"@) {
            Some(t) => dlq_of(t),
            None => "dlq"@,
        },
        None => "dlq"@,
    }
}

/// The partitions of a rebalance, as JSON.
pub open spec fn partitions_text(v: JsonView) -> Seq<char> {
    match field(v, "partitions"@) {
        Some(p) => json_text_of(p),
        None => ""@,
    }
}

/// The NSOP threshold of a service that started.
pub open spec fn threshold_text(v: JsonView, c: Computed) -> Seq<char> {
    if gives_number(field(v, "nsop_threshold_pct"@)) {
        c.threshold@
    } else {
        "0"@
    }
}

/// The number in a field in decimal, minus one where there is none.
pub open spec fn place_text(v: JsonView, key: Seq<char>) -> Seq<char> {
    signed_decimal(or_else(int_field(v, key), -1i64) as int)
}

/// The fault that a metric of a kind gives rise to.
pub open spec fn fault_of(kind: Seq<char>, v: JsonView, c: Computed) -> Option<FaultTextView> {
    if kind == "rejected"@ {
        Some(
            FaultTextView {
                severity: "warn"@,
                text: noted(
                    "upload rejected 400 — "@ + or_else(text_field(v, "reason"@), "schema"@),
                    " · prober "@,
                    text_field(v, "prober"@),
                ),
                state: "rejected at the edge"@,
            },
        )
    } else if kind == "partial"@ {
        Some(
            FaultTextView {
                severity: "info"@,
                text: "partial batch: handled through offset "@ + place_text(v, "offset"@)
                    + " on partition "@ + place_text(v, "partition"@) + ", rest redelivered ("@
                    + or_else(text_field(v, "reason"@), ""@) + ")"@,
                state: "Ok(Some(offset))"@,
            },
        )
    } else if kind == "rebalance"@ {
        Some(
            FaultTextView {
                severity: "info"@,
                text: "rebalance "@ + or_else(text_field(v, "event"@), "?"@) + " partitions "@
                    + partitions_text(v),
                state: "session"@,
            },
        )
    } else if kind == "seek"@ {
        Some(
            FaultTextView {
                severity: "info"@,
                text: "seek partition "@ + place_text(v, "partition"@) + " back to offset "@
                    + place_text(v, "to_offset"@) + " — replaying bonder "@ + decimal(
                    amount(v, "bonder"@) as nat,
                ),
                state: "replay"@,
            },
        )
    } else if kind == "started"@ {
        Some(
            FaultTextView {
                severity: "info"@,
                text: "service started (BATCH_SIZE "@ + decimal(amount(v, "batch_size"@) as nat)
                    + ", NSOP threshold "@ + threshold_text(v, c) + "%)"@,
                state: "resumed from committed offsets"@,
            },
        )
    } else if kind == "txn_abort"@ {
        Some(
            FaultTextView {
                severity: "warn"@,
                text: "transaction aborted — "@ + or_else(text_field(v, "reason"@), ""@),
                state: "replayed from committed offsets"@,
            },
        )
    } else if kind == "dlq"@ {
        Some(
            FaultTextView {
                severity: "warn"@,
                text: noted(
                    "→ "@ + origin_dlq(v) + " · "@ + or_else(
                        text_field(v, "reason"@),
                        "permanent"@,
                    ),
                    " · "@,
                    dead_letter_subject(v),
                ),
                state: "Err(Permanent) → dead-lettered"@,
            },
        )
    } else if kind == "fault"@ {
        Some(
            FaultTextView {
                severity: or_else(text_field(v, "severity"@), "warn"@),
                text: or_else(text_in(first_field(v, "text"@, "reason"@)), "fault"@),
                state: "open"@,
            },
        )
    } else {
        None
    }
}

fn place_of(v: &Json, key: &str) -> (r: String)
    ensures
        r@ == place_text(v@, key@),
{
    match v.int_field(key) {
        Some(n) => signed_decimal_text(n),
        None => signed_decimal_text(-1),
    }
}

fn first_field_of<'a>(v: &'a Json, a: &str, b: &str) -> (r: Option<&'a Json>)
    ensures
        match r {
            Some(j) => first_field(v@, a@, b@) == Some(j@),
            None => first_field(v@, a@, b@) is None,
        },
{
    match v.field(a) {
        Some(x) => Some(x),
        None => v.field(b),
    }
}

fn dead_letter_subject_of(v: &Json) -> (r: Option<String>)
    ensures
        opt_text(r) == dead_letter_subject(v@),
{
    match first_field_of(v, "die", "job") {
        Some(x) => text_from(Some(x)),
        None => text_from(v.field("press")),
    }
}

fn origin_dlq_of(v: &Json) -> (r: &'static str)
    ensures
        r@ == origin_dlq(v@),
{
    match v.field("origin") {
        Some(o) => match o.field("topic") {
            Some(Json::Str(t)) => dlq_for(t.as_str()),
            _ => "dlq",
        },
        None => "dlq",
    }
}

fn partial_text(v: &Json) -> (t: String)
    ensures
        t@ == "partial batch: handled through offset "@ + place_text(v@, "offset"@)
            + " on partition "@ + place_text(v@, "partition"@) + ", rest redelivered ("@ + or_else(
            text_field(v@, "reason"@),
            ""@,
        ) + ")"@,
{
    let mut t = "partial batch: handled through offset ".to_owned();
    t.append(place_of(v, "offset").as_str());
    t.append(" on partition ");
    t.append(place_of(v, "partition").as_str());
    t.append(", rest redelivered (");
    t.append(v.text_field_or("reason", "").as_str());
    t.append(")");
    t
}

fn rebalance_text(v: &Json) -> (t: String)
    ensures
        t@ == "rebalance "@ + or_else(text_field(v@, "event"@), "?"@) + " partitions "@
            + partitions_text(v@),
{
    let mut t = "rebalance ".to_owned();
    t.append(v.text_field_or("event", "?").as_str());
    t.append(" partitions ");
    match v.field("partitions") {
        Some(p) => {
            t.append(json_text(p).as_str());
        },
        None => {
            t.append("");
        },
    }
    t
}

fn seek_text(v: &Json) -> (t: String)
    ensures
        t@ == "seek partition "@ + place_text(v@, "partition"@) + " back to offset "@ + place_text(
            v@,
            "to_offset"@,
        ) + " — replaying bonder "@ + decimal(amount(v@, "bonder"@) as nat),
{
    let mut t = "seek partition ".to_owned();
    t.append(place_of(v, "partition").as_str());
    t.append(" back to offset ");
    t.append(place_of(v, "to_offset").as_str());
    t.append(" — replaying bonder ");
    t.append(decimal_text(amount_of(v, "bonder")).as_str());
    t
}

fn started_text(v: &Json, c: &Computed) -> (t: String)
    ensures
        t@ == "service started (BATCH_SIZE "@ + decimal(amount(v@, "batch_size"@) as nat)
            + ", NSOP threshold "@ + threshold_text(v@, *c) + "%)"@,
{
    let mut t = "service started (BATCH_SIZE ".to_owned();
    t.append(decimal_text(amount_of(v, "batch_size")).as_str());
    t.append(", NSOP threshold ");
    if holds_number(v.field("nsop_threshold_pct")) {
        t.append(c.threshold.as_str());
    } else {
        t.append("0");
    }
    t.append("%)");
    t
}

/// The fault that a metric of a kind gives rise to.
pub fn metric_fault(kind: &str, v: &Json, c: &Computed) -> (r: Option<FaultText>)
    ensures
        opt_fault(r) == fault_of(kind@, v@, *c),
{
    if text_eq(kind, "rejected") {
        let mut t = "upload rejected 400 — ".to_owned();
        t.append(v.text_field_or("reason", "schema").as_str());
        let text = note(t, " · prober ", v.text_field("prober"));
        Some(
            FaultText {
                severity: "warn".to_owned(),
                text,
                state: "rejected at the edge".to_owned(),
            },
        )
    } else if text_eq(kind, "partial") {
        Some(
            FaultText {
                severity: "info".to_owned(),
                text: partial_text(v),
                state: "Ok(Some(offset))".to_owned(),
            },
        )
    } else if text_eq(kind, "rebalance") {
        Some(
            FaultText {
                severity: "info".to_owned(),
                text: rebalance_text(v),
                state: "session".to_owned(),
            },
        )
    } else if text_eq(kind, "seek") {
        Some(
            FaultText {
                severity: "info".to_owned(),
                text: seek_text(v),
                state: "replay".to_owned(),
            },
        )
    } else if text_eq(kind, "started") {
        Some(
            FaultText {
                severity: "info".to_owned(),
                text: started_text(v, c),
                state: "resumed from committed offsets".to_owned(),
            },
        )
    } else if text_eq(kind, "txn_abort") {
        let mut t = "transaction aborted — ".to_owned();
        t.append(v.text_field_or("reason", "").as_str());
        Some(
            FaultText {
                severity: "warn".to_owned(),
                text: t,
                state: "replayed from committed offsets".to_owned(),
            },
        )
    } else if text_eq(kind, "dlq") {
        let mut t = "→ ".to_owned();
        t.append(origin_dlq_of(v));
        t.append(" · ");
        t.append(v.text_field_or("reason", "permanent").as_str());
        let text = note(t, " · ", dead_letter_subject_of(v));
        Some(
            FaultText {
                severity: "warn".to_owned(),
                text,
                state: "Err(Permanent) → dead-lettered".to_owned(),
            },
        )
    } else if text_eq(kind, "fault") {
        let text = match text_from(first_field_of(v, "text", "reason")) {
            Some(t) => t,
            None => "fault".to_owned(),
        };
        Some(
            FaultText {
                severity: v.text_field_or("severity", "warn"),
                text,
                state: "open".to_owned(),
            },
        )
    } else {
        None
    }
}

// ---------------------------------------------------------------------------
// Faults of the presses

/// How many of the newest faults are searched before a press is named again.
pub const FAULTS_SEARCHED: usize = 5;

/// Whether a fault's text is `text`.
pub open spec fn says(fault: JsonView, text: Seq<char>) -> bool {
    field(fault, "text"@) == Some(JsonView::Str(text))
}

/// Whether a text stands among the newest faults.
pub open spec fn lately_said(faults: Seq<JsonView>, text: Seq<char>) -> bool {
    exists|i: int|
        0 <= i < FAULTS_SEARCHED && i < faults.len() && says(#[trigger] faults[i], text)
}

/// What a press's worst zone is said to be off by.
pub open spec fn drift_text(press: JsonView, drifts: Seq<Seq<char>>, i: int) -> Seq<char> {
    match field(press, "worst_zone"@) {
        Some(w) => if gives_number(field(w, "drift_c"@)) && i < drifts.len() {
            drifts[i]
        } else {
            "+0.0"@
        },
        None => "+0.0"@,
    }
}

/// The number of a press's worst zone.
pub open spec fn worst_zone_number(press: JsonView) -> u64 {
    match field(press, "worst_zone"@) {
        Some(w) => amount(w, "zone"@),
        None => 0,
    }
}

/// What there is to say of a press: that a zone is off its profile, or that
/// the press is on hold.
pub open spec fn press_fault(press: JsonView, drifts: Seq<Seq<char>>, i: int) -> Option<
    Seq<char>,
> {
    match text_field(press, "press"@) {
        Some(id) => if flagged(press, "alarm"@) {
            Some(
                "zone "@ + decimal(worst_zone_number(press) as nat) + " "@ + drift_text(
                    press,
                    drifts,
                    i,
                ) + " °C against the cure profile · press "@ + id,
            )
        } else if flagged(press, "hold"@) {
            Some("humidity / particle hold · press "@ + id)
        } else {
            None
        },
        None => None,
    }
}

/// The model after what there is to say of each press, in their order. What
/// was said lately is not said again.
pub open spec fn presses_reported(
    m: ModelView,
    station: Seq<char>,
    ts: i64,
    presses: Seq<JsonView>,
    drifts: Seq<Seq<char>>,
) -> ModelView
    decreases presses.len(),
{
    if presses.len() == 0 {
        m
    } else {
        let before = presses_reported(m, station, ts, presses.drop_last(), drifts);
        match press_fault(presses.last(), drifts, presses.len() - 1) {
            Some(text) => if lately_said(before.faults, text) {
                before
            } else {
                with_fault(before, station, ts, "warn"@, text, "watching"@)
            },
            None => before,
        }
    }
}

fn was_lately_said(faults: &std::collections::VecDeque<Json>, text: &str) -> (r: bool)
    ensures
        r == lately_said(list_view(faults@), text@),
{
    let mut i: usize = 0;
    while i < FAULTS_SEARCHED && i < faults.len()
        invariant
            i <= FAULTS_SEARCHED,
            i <= faults@.len(),
            forall|j: int| 0 <= j < i ==> !says(#[trigger] list_view(faults@)[j], text@),
        decreases FAULTS_SEARCHED - i,
    {
        let f = &faults[i];
        assert(f@ == list_view(faults@)[i as int]);
        match f.field("text") {
            Some(Json::Str(t)) => {
                if text_eq(t.as_str(), text) {
                    return true;
                }
            },
            _ => {},
        }
        i = i + 1;
    }
    false
}

fn press_fault_text(press: &Json, drifts: &Vec<String>, i: usize) -> (r: Option<String>)
    ensures
        opt_text(r) == press_fault(press@, texts(drifts@), i as int),
{
    match press.field("press") {
        Some(Json::Str(id)) => {
            if is_flagged(press, "alarm") {
                let mut t = "zone ".to_owned();
                match press.field("worst_zone") {
                    Some(w) => {
                        t.append(decimal_text(amount_of(w, "zone")).as_str());
                        t.append(" ");
                        if holds_number(w.field("drift_c")) && i < drifts.len() {
                            t.append(drifts[i].as_str());
                        } else {
                            t.append("+0.0");
                        }
                    },
                    None => {
                        t.append(decimal_text(0).as_str());
                        t.append(" ");
                        t.append("+0.0");
                    },
                }
                t.append(" °C against the cure profile · press ");
                t.append(id.as_str());
                Some(t)
            } else if is_flagged(press, "hold") {
                let mut t = "humidity / particle hold · press ".to_owned();
                t.append(id.as_str());
                Some(t)
            } else {
                None
            }
        },
        _ => None,
    }
}

fn report_presses(m: &mut Model, station: &str, ts: i64, presses: &Vec<Json>, drifts: &Vec<String>)
    ensures
        final(m)@ == presses_reported(
            old(m)@,
            station@,
            ts,
            list_view(presses@),
            texts(drifts@),
        ),
{
    let ghost start = m@;
    let ghost all = list_view(presses@);
    let mut i: usize = 0;
    assert(all.take(0) =~= Seq::empty());
    while i < presses.len()
        invariant
            i <= presses@.len(),
            all == list_view(presses@),
            m@ == presses_reported(start, station@, ts, all.take(i as int), texts(drifts@)),
        decreases presses@.len() - i,
    {
        proof {
            assert(all.take(i + 1).drop_last() =~= all.take(i as int));
            assert(all.take(i + 1).last() == all[i as int]);
        }
        match press_fault_text(&presses[i], drifts, i) {
            Some(text) => {
                if !was_lately_said(&m.faults, text.as_str()) {
                    push_fault(m, station, ts, "warn", text.as_str(), "watching");
                }
            },
            None => {},
        }
        i = i + 1;
    }
    assert(all.take(all.len() as int) =~= all);
}

// ---------------------------------------------------------------------------
// The whole metric

/// When a metric was made: what it says, else the record's time, else now.
pub open spec fn metric_time(v: JsonView, timestamp: Option<i64>, now: i64) -> i64 {
    match int_field(v, "ts"@) {
        Some(t) => t,
        None => or_else(timestamp, now),
    }
}

/// The later of two times.
pub open spec fn later(a: i64, b: i64) -> i64 {
    if a >= b {
        a
    } else {
        b
    }
}

/// The number kept for a name, zero where there is none.
pub open spec fn count_of(m: Map<Seq<char>, u64>, name: Seq<char>) -> u64 {
    if m.dom().contains(name) {
        m[name]
    } else {
        0
    }
}

/// The model after a metric of the simulator.
pub open spec fn sim_folded(
    m: ModelView,
    kind: Seq<char>,
    ts: i64,
    n: u64,
    v: JsonView,
    timestamp: Option<i64>,
    now: i64,
) -> ModelView {
    if kind == "produced"@ {
        let topic = or_else(text_field(v, "topic"@), "?"@);
        ModelView {
            sim_produced: m.sim_produced.insert(
                topic,
                count_of(m.sim_produced, topic).wrapping_add(n),
            ),
            sim_seen: later(ts, m.sim_seen),
            ..m
        }
    } else if kind == "sim"@ {
        ModelView { sim: v, sim_seen: or_else(timestamp, now), ..m }
    } else {
        m
    }
}

/// A value with one field set, where it is an object.
pub open spec fn with_field(v: JsonView, name: Seq<char>, x: JsonView) -> JsonView {
    match v {
        JsonView::Object(m) => JsonView::Object(m.insert(name, x)),
        _ => v,
    }
}

/// The model after a metric of a station.
pub open spec fn station_folded(
    m: ModelView,
    station: Seq<char>,
    kind: Seq<char>,
    ts: i64,
    n: u64,
    v: JsonView,
    now: i64,
    c: Computed,
) -> ModelView {
    let was = station_of(m, station);
    let st = station_after(
        StationView { last_seen: later(ts, was.last_seen), ..was },
        station,
        kind,
        ts,
        n,
        v,
        now,
        c,
    );
    let m = with_station(m, station, st);
    match fault_of(kind, v, c) {
        Some(f) => with_fault(m, station, ts, f.severity, f.text, f.state),
        None => if kind == "window"@ && station == "st05"@ {
            match list_field(v, "presses"@) {
                Some(presses) => presses_reported(m, station, ts, presses, texts(c.drifts@)),
                None => m,
            }
        } else {
            m
        },
    }
}

/// The station that reports a metric.
pub open spec fn reporter(v: JsonView) -> Seq<char> {
    or_else(text_field(v, "station"@), "line"@)
}

/// The kind of a metric.
pub open spec fn kind_of(v: JsonView) -> Seq<char> {
    or_else(text_field(v, "kind"@), ""@)
}

/// The model after a metric.
pub open spec fn folded(
    m: ModelView,
    v: JsonView,
    timestamp: Option<i64>,
    now: i64,
    c: Computed,
) -> ModelView {
    let station = reporter(v);
    let kind = kind_of(v);
    let ts = metric_time(v, timestamp, now);
    let n = amount(v, "n"@);
    let m = ModelView { metrics_records: m.metrics_records.wrapping_add(1), ..m };
    if station == "sim"@ {
        sim_folded(m, kind, ts, n, v, timestamp, now)
    } else if station == "ops"@ {
        if kind == "lag"@ {
            ModelView { lag: with_field(v, "received"@, int_view(now)), ..m }
        } else {
            m
        }
    } else {
        station_folded(m, station, kind, ts, n, v, now, c)
    }
}

fn fold_sim(m: &mut Model, rec: &ConsumedRecord, kind: &str, ts: i64, n: u64, v: &Json, now: i64)
    ensures
        final(m)@ == sim_folded(old(m)@, kind@, ts, n, v@, rec.timestamp, now),
{
    if text_eq(kind, "produced") {
        let topic = v.text_field_or("topic", "?");
        let was: u64 = match m.sim_produced.get(&topic) {
            Some(x) => *x,
            None => 0,
        };
        m.sim_produced.insert(topic, was.wrapping_add(n));
        if ts > m.sim_seen {
            m.sim_seen = ts;
        }
    } else if text_eq(kind, "sim") {
        m.sim = v.copy();
        m.sim_seen = match rec.timestamp {
            Some(t) => t,
            None => now,
        };
    }
}

fn set_received(v: &Json, now: i64) -> (r: Json)
    ensures
        r@ == with_field(v@, "received"@, int_view(now)),
{
    match v {
        Json::Object(f) => {
            let mut f = f.copy();
            f.put("received", Json::whole(now));
            Json::Object(f)
        },
        _ => v.copy(),
    }
}

/// Folds one metric into the model.
pub fn fold_metric(m: &mut Model, rec: &ConsumedRecord, v: &Json, now: i64, c: &Computed)
    ensures
        final(m)@ == folded(old(m)@, v@, rec.timestamp, now, *c),
{
    let station = v.text_field_or("station", "line");
    let kind = v.text_field_or("kind", "");
    let ts: i64 = match v.int_field("ts") {
        Some(t) => t,
        None => match rec.timestamp {
            Some(t) => t,
            None => now,
        },
    };
    let n = amount_of(v, "n");
    m.metrics_records = m.metrics_records.wrapping_add(1);
    if text_eq(station.as_str(), "sim") {
        fold_sim(m, rec, kind.as_str(), ts, n, v, now);
        return;
    }
    if text_eq(station.as_str(), "ops") {
        if text_eq(kind.as_str(), "lag") {
            m.lag = set_received(v, now);
        }
        return;
    }
    let mut st = m.take_station(station.as_str());
    if ts > st.last_seen {
        st.last_seen = ts;
    }
    fold_station(&mut st, station.as_str(), kind.as_str(), ts, n, v, now, c);
    m.put_station(station.as_str(), st);
    match metric_fault(kind.as_str(), v, c) {
        Some(f) => {
            push_fault(
                m,
                station.as_str(),
                ts,
                f.severity.as_str(),
                f.text.as_str(),
                f.state.as_str(),
            );
        },
        None => {
            if text_eq(kind.as_str(), "window") && text_eq(station.as_str(), "st05") {
                match v.list_field("presses") {
                    Some(presses) => {
                        report_presses(m, station.as_str(), ts, presses, &c.drifts);
                    },
                    None => {},
                }
            }
        },
    }
}

} // verus!
