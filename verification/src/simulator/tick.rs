//! What follows a frame: its counts, the next frame and the heartbeat.

use vstd::prelude::*;
use vstd::string::*;

use super::catalog::{Catalog, CatalogView};
use super::play::{
    overlay_views, Overlay, OverlayView, State, StateView, HEARTBEAT_EVERY,
};
use crate::json::{Fields, Json, JsonView};
use crate::kafka::{
    count_taken, json_keyed, json_record, lemma_produce_views_push, merged, produce_views,
    taken_count, KafkaError, ProduceRecord, ProduceView,
};

verus! {

broadcast use vstd::string::group_string_axioms;

// ---------------------------------------------------------------------------
// The next frame

/// How many frames a loop scenario lasts: at least one, and sixty where
/// nothing is declared.
pub open spec fn loop_length(c: CatalogView, scenario: Seq<char>) -> u32 {
    if c.meta.dom().contains(scenario) {
        if c.meta[scenario].frames >= 1 {
            c.meta[scenario].frames
        } else {
            1
        }
    } else {
        60
    }
}

/// How many frames an overlay lasts.
pub open spec fn overlay_length(c: CatalogView, scenario: Seq<char>) -> u32 {
    if c.meta.dom().contains(scenario) {
        c.meta[scenario].frames
    } else {
        1
    }
}

/// The loop scenario that follows one: what it declares, else itself.
pub open spec fn next_scenario(c: CatalogView, scenario: Seq<char>) -> Seq<char> {
    if c.meta.dom().contains(scenario) {
        crate::json::or_else(c.meta[scenario].next, scenario)
    } else {
        scenario
    }
}

/// The overlays a frame later: each one frame on, and those gone that were
/// in their last.
pub open spec fn overlays_advanced(c: CatalogView, overlays: Seq<OverlayView>) -> Seq<OverlayView>
    decreases overlays.len(),
{
    if overlays.len() == 0 {
        Seq::empty()
    } else {
        let rest = overlays_advanced(c, overlays.drop_last());
        let o = overlays.last();
        if o.frame.wrapping_add(1) < overlay_length(c, o.scenario) {
            rest.push(OverlayView { frame: o.frame.wrapping_add(1), ..o })
        } else {
            rest
        }
    }
}

/// The state a frame later. Behind the last frame of a scenario its successor
/// starts, in a new pass.
pub open spec fn advanced(c: CatalogView, st: StateView) -> StateView {
    let st = StateView { overlays: overlays_advanced(c, st.overlays), ..st };
    if st.frame.wrapping_add(1) >= loop_length(c, st.scenario) {
        StateView {
            frame: 0,
            passes: st.passes.wrapping_add(1),
            scenario: next_scenario(c, st.scenario),
            ..st
        }
    } else {
        StateView { frame: st.frame.wrapping_add(1), ..st }
    }
}

fn advance_overlays(catalog: &Catalog, overlays: Vec<Overlay>) -> (r: Vec<Overlay>)
    ensures
        overlay_views(r@) == overlays_advanced(catalog@, overlay_views(overlays@)),
{
    let ghost all = overlay_views(overlays@);
    let mut r: Vec<Overlay> = Vec::new();
    let mut i: usize = 0;
    assert(all.take(0) =~= Seq::empty());
    assert(overlay_views(r@) =~= Seq::empty());
    while i < overlays.len()
        invariant
            i <= overlays@.len(),
            all == overlay_views(overlays@),
            overlay_views(r@) == overlays_advanced(catalog@, all.take(i as int)),
        decreases overlays@.len() - i,
    {
        let o = &overlays[i];
        proof {
            assert(all.take(i + 1).drop_last() =~= all.take(i as int));
            assert(all.take(i + 1).last() == o@);
        }
        let length: u32 = match catalog.meta.get(&o.scenario) {
            Some(m) => m.frames,
            None => 1,
        };
        let frame = o.frame.wrapping_add(1);
        if frame < length {
            let next = Overlay { scenario: o.scenario.clone(), frame, ordinal: o.ordinal };
            assert(overlay_views(r@.push(next)) =~= overlay_views(r@).push(next@));
            r.push(next);
        }
        i = i + 1;
    }
    assert(all.take(all.len() as int) =~= all);
    r
}

/// Advances the loop and the overlays by a frame.
pub fn advance(catalog: &Catalog, st: &mut State)
    ensures
        final(st)@ == advanced(catalog@, old(st)@),
{
    let mut overlays: Vec<Overlay> = Vec::new();
    std::mem::swap(&mut overlays, &mut st.overlays);
    st.overlays = advance_overlays(catalog, overlays);
    let (length, next): (u32, Option<String>) = match catalog.meta.get(&st.scenario) {
        Some(m) => (
            if m.frames >= 1 {
                m.frames
            } else {
                1
            },
            m.next.clone(),
        ),
        None => (60, None),
    };
    let frame = st.frame.wrapping_add(1);
    if frame >= length {
        st.frame = 0;
        st.passes = st.passes.wrapping_add(1);
        match next {
            Some(next) => {
                st.scenario = next;
            },
            None => {},
        }
    } else {
        st.frame = frame;
    }
}

// ---------------------------------------------------------------------------
// Metrics

/// How many records each topic got, by topic, in the order they were sent.
pub open spec fn counts_view(produced: Seq<(String, u64)>) -> Seq<(Seq<char>, u64)> {
    produced.map_values(|p: (String, u64)| (p.0@, p.1))
}

/// The counts after a batch was sent to a topic: what was taken of it counts,
/// and a topic that took nothing is left out.
pub open spec fn counted_sent(
    produced: Seq<(Seq<char>, u64)>,
    topic: Seq<char>,
    sent: Result<Vec<Result<(), KafkaError>>, KafkaError>,
) -> Seq<(Seq<char>, u64)> {
    match sent {
        Ok(outcomes) => if taken_count(outcomes@) > 0 {
            produced.push((topic, taken_count(outcomes@) as u64))
        } else {
            produced
        },
        Err(_) => produced,
    }
}

/// Counts what was taken of a batch sent to a topic.
pub fn count_sent(
    produced: &mut Vec<(String, u64)>,
    topic: &str,
    sent: &Result<Vec<Result<(), KafkaError>>, KafkaError>,
)
    ensures
        counts_view(final(produced)@) == counted_sent(counts_view(old(produced)@), topic@, *sent),
{
    match sent {
        Ok(outcomes) => {
            let taken = count_taken(outcomes);
            if taken > 0 {
                let ghost before = produced@;
                let entry = (topic.to_owned(), taken);
                assert(counts_view(before.push(entry)) =~= counts_view(before).push(
                    (topic@, taken),
                ));
                produced.push(entry);
            }
        },
        Err(_) => {},
    }
}

/// The fields of a metric of the simulator. It says no time of its own: that
/// of its record counts.
pub open spec fn sim_fields(kind: Seq<char>, extra: Map<Seq<char>, JsonView>) -> Map<
    Seq<char>,
    JsonView,
> {
    Map::empty().insert("station"@, JsonView::Str("sim"@)).insert(
        "kind"@,
        JsonView::Str(kind),
    ).union_prefer_right(extra)
}

/// A metric of the simulator.
pub open spec fn sim_metric_view(kind: Seq<char>, extra: Map<Seq<char>, JsonView>) -> ProduceView {
    json_keyed("sim"@, JsonView::Object(sim_fields(kind, extra)))
}

/// A metric of the simulator.
pub fn sim_metric(kind: &str, extra: &Fields) -> (r: ProduceRecord)
    ensures
        r@ == sim_metric_view(kind@, extra@),
        crate::json::plain(JsonView::Object(sim_fields(kind@, extra@)), 100)
            ==> crate::kafka::carries(r@, JsonView::Object(sim_fields(kind@, extra@))),
{
    let mut base = Fields::new();
    base.put("station", Json::text("sim"));
    base.put("kind", Json::text(kind));
    let fields = merged(base, extra);
    json_record("sim", &Json::Object(fields))
}

/// What a topic got in a frame.
pub open spec fn produced_extra(
    topic: Seq<char>,
    n: u64,
    scenario: Seq<char>,
    frame: u32,
) -> Map<Seq<char>, JsonView> {
    Map::empty().insert("topic"@, JsonView::Str(topic)).insert("n"@, JsonView::Uint(n)).insert(
        "scenario"@,
        JsonView::Str(scenario),
    ).insert("frame"@, JsonView::Uint(frame as u64))
}

/// The overlay started last, as the heartbeat shows it.
pub open spec fn overlay_object(overlays: Seq<OverlayView>) -> JsonView {
    if overlays.len() == 0 {
        JsonView::Null
    } else {
        JsonView::Object(
            Map::empty().insert("scenario"@, JsonView::Str(overlays.last().scenario)).insert(
                "frame"@,
                JsonView::Uint(overlays.last().frame as u64),
            ),
        )
    }
}

/// What the heartbeat tells.
pub open spec fn heartbeat_extra(st: StateView, epoch: Seq<char>) -> Map<Seq<char>, JsonView> {
    Map::empty().insert("running"@, JsonView::Bool(st.running)).insert(
        "scenario"@,
        JsonView::Str(st.scenario),
    ).insert("frame"@, JsonView::Uint(st.frame as u64)).insert(
        "overlay"@,
        overlay_object(st.overlays),
    ).insert("passes"@, JsonView::Uint(st.passes)).insert("epoch"@, JsonView::Str(epoch)).insert(
        "controls"@,
        JsonView::Uint(st.control_seen),
    )
}

/// A frame that was played: what it was, and what each topic got of it.
pub struct Played {
    pub scenario: String,
    pub frame: u32,
    pub produced: Vec<(String, u64)>,
}

/// The counts of a frame as metrics.
pub open spec fn produced_views(
    produced: Seq<(Seq<char>, u64)>,
    scenario: Seq<char>,
    frame: u32,
) -> Seq<ProduceView> {
    produced.map_values(
        |p: (Seq<char>, u64)|
            sim_metric_view("produced"@, produced_extra(p.0, p.1, scenario, frame)),
    )
}

/// The metrics at the end of a tick: what was played, if the loop runs, and
/// in every fifth tick a heartbeat.
pub open spec fn tick_metrics(
    played: Option<Played>,
    st: StateView,
    tick: u64,
    epoch: Seq<char>,
) -> Seq<ProduceView> {
    let counts = match played {
        Some(p) => produced_views(counts_view(p.produced@), p.scenario@, p.frame),
        None => Seq::empty(),
    };
    if tick % HEARTBEAT_EVERY == 0 {
        counts.push(sim_metric_view("sim"@, heartbeat_extra(st, epoch)))
    } else {
        counts
    }
}

fn heartbeat(st: &State, epoch: &str) -> (r: ProduceRecord)
    ensures
        r@ == sim_metric_view("sim"@, heartbeat_extra(st@, epoch@)),
{
    let n = st.overlays.len();
    let overlay = if n == 0 {
        Json::Null
    } else {
        let o = &st.overlays[n - 1];
        assert(o@ == st@.overlays.last());
        let mut f = Fields::new();
        f.put("scenario", Json::text(o.scenario.as_str()));
        f.put("frame", Json::Uint(o.frame as u64));
        Json::Object(f)
    };
    let mut f = Fields::new();
    f.put("running", Json::Bool(st.running));
    f.put("scenario", Json::text(st.scenario.as_str()));
    f.put("frame", Json::Uint(st.frame as u64));
    f.put("overlay", overlay);
    f.put("passes", Json::Uint(st.passes));
    f.put("epoch", Json::text(epoch));
    f.put("controls", Json::Uint(st.control_seen));
    sim_metric("sim", &f)
}

fn produced_metrics(played: &Played) -> (r: Vec<ProduceRecord>)
    ensures
        produce_views(r@) == produced_views(
            counts_view(played.produced@),
            played.scenario@,
            played.frame,
        ),
{
    let ghost want = produced_views(counts_view(played.produced@), played.scenario@, played.frame);
    let mut r: Vec<ProduceRecord> = Vec::new();
    let mut i: usize = 0;
    while i < played.produced.len()
        invariant
            i <= played.produced@.len(),
            want == produced_views(
                counts_view(played.produced@),
                played.scenario@,
                played.frame,
            ),
            produce_views(r@) =~= want.take(i as int),
        decreases played.produced@.len() - i,
    {
        let mut f = Fields::new();
        f.put("topic", Json::text(played.produced[i].0.as_str()));
        f.put("n", Json::Uint(played.produced[i].1));
        f.put("scenario", Json::text(played.scenario.as_str()));
        f.put("frame", Json::Uint(played.frame as u64));
        let m = sim_metric("produced", &f);
        proof {
            lemma_produce_views_push(r@, m);
            assert(m@ == want[i as int]);
        }
        r.push(m);
        i = i + 1;
    }
    r
}

/// Ends a tick: advances the state, if a frame was played, and gives the
/// metrics to send.
pub fn finish_tick(
    catalog: &Catalog,
    st: &mut State,
    played: &Option<Played>,
    tick: u64,
    epoch: &str,
) -> (r: Vec<ProduceRecord>)
    ensures
        final(st)@ == if played is Some {
            advanced(catalog@, old(st)@)
        } else {
            old(st)@
        },
        produce_views(r@) == tick_metrics(*played, final(st)@, tick, epoch@),
{
    let mut r: Vec<ProduceRecord> = Vec::new();
    assert(produce_views(r@) =~= Seq::empty());
    match played {
        Some(p) => {
            r = produced_metrics(p);
            advance(catalog, st);
        },
        None => {},
    }
    if tick % HEARTBEAT_EVERY == 0 {
        let h = heartbeat(st, epoch);
        proof {
            lemma_produce_views_push(r@, h);
        }
        r.push(h);
    }
    r
}

} // verus!
