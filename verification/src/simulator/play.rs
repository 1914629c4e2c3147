//! The state of the simulator: control, the frame that is played, and what
//! comes after it.

use vstd::prelude::*;
use vstd::string::*;

use super::catalog::{lines_at, sets_of, Catalog, CatalogView, LineView};
use super::stamp::{epoch_from, epoch_of, stamp_all, stamped_all};
use crate::json::opt_text;
use crate::kafka::{produce_views, ProduceRecord, ProduceView};
use crate::ordered_map::OrderedMap;
use crate::random::random_number;
use crate::text::{text_before, text_eq, texts};

verus! {

broadcast use vstd::string::group_string_axioms;

/// How many ticks there are from one heartbeat to the next.
pub const HEARTBEAT_EVERY: u64 = 5;

/// An overlay that is being played.
pub struct Overlay {
    pub scenario: String,
    pub frame: u32,
    /// Which overlay it is of all that were ever played.
    pub ordinal: u64,
}

/// What an overlay stands for.
#[verifier::ext_equal]
pub struct OverlayView {
    pub scenario: Seq<char>,
    pub frame: u32,
    pub ordinal: u64,
}

impl View for Overlay {
    type V = OverlayView;

    open spec fn view(&self) -> OverlayView {
        OverlayView { scenario: self.scenario@, frame: self.frame, ordinal: self.ordinal }
    }
}

/// What a row of overlays stands for.
pub open spec fn overlay_views(s: Seq<Overlay>) -> Seq<OverlayView> {
    s.map_values(|o: Overlay| o@)
}

/// The state of the simulator.
pub struct State {
    pub running: bool,
    pub scenario: String,
    pub frame: u32,
    /// The overlays being played, in the order they were started in.
    pub overlays: Vec<Overlay>,
    pub passes: u64,
    pub overlays_played: u64,
    pub control_seen: u64,
}

/// What the state stands for.
#[verifier::ext_equal]
pub struct StateView {
    pub running: bool,
    pub scenario: Seq<char>,
    pub frame: u32,
    pub overlays: Seq<OverlayView>,
    pub passes: u64,
    pub overlays_played: u64,
    pub control_seen: u64,
}

impl View for State {
    type V = StateView;

    open spec fn view(&self) -> StateView {
        StateView {
            running: self.running,
            scenario: self.scenario@,
            frame: self.frame,
            overlays: overlay_views(self.overlays@),
            passes: self.passes,
            overlays_played: self.overlays_played,
            control_seen: self.control_seen,
        }
    }
}

/// The state a simulator starts in: the baseline loop runs by itself.
pub open spec fn start_state() -> StateView {
    StateView {
        running: true,
        scenario: "baseline"@,
        frame: 0,
        overlays: Seq::empty(),
        passes: 1,
        overlays_played: 0,
        control_seen: 0,
    }
}

impl State {
    /// The state a simulator starts in.
    pub fn start() -> (r: State)
        ensures
            r@ == start_state(),
    {
        let r = State {
            running: true,
            scenario: "baseline".to_owned(),
            frame: 0,
            overlays: Vec::new(),
            passes: 1,
            overlays_played: 0,
            control_seen: 0,
        };
        assert(r@ =~= start_state());
        r
    }
}

/// An epoch of four hexadecimal digits, at random.
pub fn fresh_epoch() -> (r: String)
    ensures
        exists|random: u64| r@ == #[trigger] epoch_from(random),
{
    let random = random_number(0x51);
    epoch_of(random)
}

// ---------------------------------------------------------------------------
// Control

/// A control record.
pub struct Control {
    pub cmd: String,
    pub scenario: Option<String>,
}

/// What came of a control record.
pub enum ControlOutcome {
    /// It is no control record.
    Malformed,
    /// The loop is stopped.
    Stopped,
    /// A scenario loops from its start.
    Looping,
    /// The scenario was looping already.
    AlreadyLooping,
    /// An overlay is played on top.
    Playing,
    /// An overlay was asked for without its name.
    ScenarioMissing,
    /// There is no such scenario.
    UnknownScenario,
    /// An overlay was asked to loop.
    IsOverlay,
    /// A loop scenario was asked to be an overlay.
    IsLoop,
    /// There is no such command.
    UnknownCommand,
}

/// What a control record asks for.
pub open spec fn outcome_of(
    c: CatalogView,
    st: StateView,
    cmd: Seq<char>,
    scenario: Option<Seq<char>>,
) -> ControlOutcome {
    if cmd == "stop"@ {
        ControlOutcome::Stopped
    } else if cmd == "loop"@ {
        let name = crate::json::or_else(scenario, "baseline"@);
        if !c.meta.dom().contains(name) {
            ControlOutcome::UnknownScenario
        } else if c.meta[name].overlay {
            ControlOutcome::IsOverlay
        } else if st.running && st.scenario == name {
            ControlOutcome::AlreadyLooping
        } else {
            ControlOutcome::Looping
        }
    } else if cmd == "play"@ {
        match scenario {
            None => ControlOutcome::ScenarioMissing,
            Some(name) => if !c.meta.dom().contains(name) {
                ControlOutcome::UnknownScenario
            } else if !c.meta[name].overlay {
                ControlOutcome::IsLoop
            } else {
                ControlOutcome::Playing
            },
        }
    } else {
        ControlOutcome::UnknownCommand
    }
}

/// The state after a control record.
pub open spec fn controlled(
    c: CatalogView,
    st: StateView,
    cmd: Seq<char>,
    scenario: Option<Seq<char>>,
) -> StateView {
    let seen = StateView { control_seen: st.control_seen.wrapping_add(1), ..st };
    match outcome_of(c, st, cmd, scenario) {
        ControlOutcome::Stopped => StateView { running: false, ..seen },
        ControlOutcome::Looping => StateView {
            running: true,
            scenario: crate::json::or_else(scenario, "baseline"@),
            frame: 0,
            passes: st.passes.wrapping_add(1),
            ..seen
        },
        ControlOutcome::Playing => StateView {
            overlays: st.overlays.push(
                OverlayView {
                    scenario: scenario->0,
                    frame: 0,
                    ordinal: st.overlays_played.wrapping_add(1),
                },
            ),
            overlays_played: st.overlays_played.wrapping_add(1),
            ..seen
        },
        _ => seen,
    }
}

fn apply_loop(catalog: &Catalog, st: &mut State, scenario: Option<String>) -> (r: ControlOutcome)
    ensures
        r == outcome_of(catalog@, old(st)@, "loop"@, opt_text(scenario)),
        final(st)@ == (StateView {
            control_seen: old(st)@.control_seen,
            ..controlled(catalog@, old(st)@, "loop"@, opt_text(scenario))
        }),
{
    proof {
        reveal_strlit("stop");
        reveal_strlit("loop");
        assert("stop"@[0] != "loop"@[0]);
    }
    let name = match scenario {
        Some(s) => s,
        None => "baseline".to_owned(),
    };
    match catalog.meta.get(&name) {
        None => ControlOutcome::UnknownScenario,
        Some(meta) => {
            if meta.overlay {
                ControlOutcome::IsOverlay
            } else if st.running && text_eq(st.scenario.as_str(), name.as_str()) {
                ControlOutcome::AlreadyLooping
            } else {
                st.running = true;
                st.scenario = name;
                st.frame = 0;
                st.passes = st.passes.wrapping_add(1);
                ControlOutcome::Looping
            }
        },
    }
}

fn apply_play(catalog: &Catalog, st: &mut State, scenario: Option<String>) -> (r: ControlOutcome)
    ensures
        r == outcome_of(catalog@, old(st)@, "play"@, opt_text(scenario)),
        final(st)@ == (StateView {
            control_seen: old(st)@.control_seen,
            ..controlled(catalog@, old(st)@, "play"@, opt_text(scenario))
        }),
{
    proof {
        reveal_strlit("stop");
        reveal_strlit("loop");
        reveal_strlit("play");
        assert("stop"@[0] != "play"@[0] && "loop"@[0] != "play"@[0]);
    }
    match scenario {
        None => ControlOutcome::ScenarioMissing,
        Some(name) => match catalog.meta.get(&name) {
            None => ControlOutcome::UnknownScenario,
            Some(meta) => {
                if !meta.overlay {
                    ControlOutcome::IsLoop
                } else {
                    let ghost before = st.overlays@;
                    let ordinal = st.overlays_played.wrapping_add(1);
                    let o = Overlay { scenario: name, frame: 0, ordinal };
                    st.overlays.push(o);
                    st.overlays_played = ordinal;
                    assert(overlay_views(before.push(o)) =~= overlay_views(before).push(o@));
                    ControlOutcome::Playing
                }
            },
        },
    }
}

/// Acts on a control record; one that is malformed changes nothing.
pub fn apply_control(catalog: &Catalog, st: &mut State, control: Option<Control>) -> (r:
    ControlOutcome)
    ensures
        match control {
            Some(c) => r == outcome_of(catalog@, old(st)@, c.cmd@, opt_text(c.scenario))
                && final(st)@ == controlled(catalog@, old(st)@, c.cmd@, opt_text(c.scenario)),
            None => r == ControlOutcome::Malformed && final(st)@ == old(st)@,
        },
{
    match control {
        None => ControlOutcome::Malformed,
        Some(c) => {
            if text_eq(c.cmd.as_str(), "stop") {
                st.control_seen = st.control_seen.wrapping_add(1);
                st.running = false;
                ControlOutcome::Stopped
            } else if text_eq(c.cmd.as_str(), "loop") {
                let r = apply_loop(catalog, st, c.scenario);
                st.control_seen = st.control_seen.wrapping_add(1);
                r
            } else if text_eq(c.cmd.as_str(), "play") {
                let r = apply_play(catalog, st, c.scenario);
                st.control_seen = st.control_seen.wrapping_add(1);
                r
            } else {
                st.control_seen = st.control_seen.wrapping_add(1);
                ControlOutcome::UnknownCommand
            }
        },
    }
}

// ---------------------------------------------------------------------------
// A frame

/// What the loop plays on a topic: the scenario's records, or the baseline's
/// where the scenario leaves the topic out.
pub open spec fn loop_lines(c: CatalogView, st: StateView, topic: Seq<char>) -> Option<
    Seq<LineView>,
> {
    match lines_at(c, st.scenario, topic, st.frame) {
        Some(lines) => Some(lines),
        None => lines_at(c, "baseline"@, topic, st.frame),
    }
}

/// What a row of overlays plays on a topic, in their order.
pub open spec fn overlay_records(
    c: CatalogView,
    overlays: Seq<OverlayView>,
    topic: Seq<char>,
    epoch: Seq<char>,
) -> Seq<ProduceView>
    decreases overlays.len(),
{
    if overlays.len() == 0 {
        Seq::empty()
    } else {
        let o = overlays.last();
        overlay_records(c, overlays.drop_last(), topic, epoch) + match lines_at(
            c,
            o.scenario,
            topic,
            o.frame,
        ) {
            Some(lines) => stamped_all(lines, topic, epoch, o.ordinal, true),
            None => Seq::empty(),
        }
    }
}

/// What a frame puts on a topic: what the loop plays, and behind it what the
/// overlays do.
pub open spec fn frame_records(
    c: CatalogView,
    st: StateView,
    topic: Seq<char>,
    epoch: Seq<char>,
) -> Seq<ProduceView> {
    (match loop_lines(c, st, topic) {
        Some(lines) => stamped_all(lines, topic, epoch, st.passes, false),
        None => Seq::empty(),
    }) + overlay_records(c, st.overlays, topic, epoch)
}

/// The records for one topic.
pub struct Batch {
    pub topic: String,
    pub records: Vec<ProduceRecord>,
}

/// Whether a row of batches is what a frame puts on the topics: one batch for
/// each topic that gets a record, in the order of the topics.
pub open spec fn is_frame(
    batches: Seq<Batch>,
    c: CatalogView,
    st: StateView,
    epoch: Seq<char>,
) -> bool {
    &&& forall|i: int|
        0 <= i < batches.len() ==> (#[trigger] batches[i]).records@.len() > 0 && produce_views(
            batches[i].records@,
        ) == frame_records(c, st, batches[i].topic@, epoch)
    &&& forall|i: int, j: int|
        0 <= i < j < batches.len() ==> text_before(
            (#[trigger] batches[i]).topic@,
            (#[trigger] batches[j]).topic@,
        )
    &&& forall|topic: Seq<char>|
        (#[trigger] frame_records(c, st, topic, epoch)).len() > 0 ==> exists|i: int|
            0 <= i < batches.len() && (#[trigger] batches[i]).topic@ == topic
}

fn records_of(catalog: &Catalog, st: &State, topic: &str, epoch: &str) -> (r: Vec<ProduceRecord>)
    ensures
        produce_views(r@) == frame_records(catalog@, st@, topic@, epoch@),
{
    let mut r: Vec<ProduceRecord> = Vec::new();
    assert(produce_views(r@) =~= Seq::empty());
    let lines = match catalog.lines(st.scenario.as_str(), topic, st.frame) {
        Some(lines) => Some(lines),
        None => catalog.lines("baseline", topic, st.frame),
    };
    match lines {
        Some(lines) => {
            stamp_all(&mut r, lines, topic, epoch, st.passes, false);
        },
        None => {},
    }
    let ghost first = match loop_lines(catalog@, st@, topic@) {
        Some(lines) => stamped_all(lines, topic@, epoch@, st.passes, false),
        None => Seq::empty(),
    };
    assert(produce_views(r@) =~= first);
    let ghost all = overlay_views(st.overlays@);
    let mut i: usize = 0;
    assert(all.take(0) =~= Seq::empty());
    assert(produce_views(r@) =~= first + overlay_records(catalog@, all.take(0), topic@, epoch@));
    while i < st.overlays.len()
        invariant
            i <= st.overlays@.len(),
            all == overlay_views(st.overlays@),
            produce_views(r@) == first + overlay_records(
                catalog@,
                all.take(i as int),
                topic@,
                epoch@,
            ),
        decreases st.overlays@.len() - i,
    {
        let o = &st.overlays[i];
        let ghost before = produce_views(r@);
        proof {
            assert(all.take(i + 1).drop_last() =~= all.take(i as int));
            assert(all.take(i + 1).last() == o@);
        }
        match catalog.lines(o.scenario.as_str(), topic, o.frame) {
            Some(lines) => {
                stamp_all(&mut r, lines, topic, epoch, o.ordinal, true);
            },
            None => {},
        }
        assert(produce_views(r@) =~= first + overlay_records(
            catalog@,
            all.take(i + 1),
            topic@,
            epoch@,
        ));
        i = i + 1;
    }
    assert(all.take(all.len() as int) =~= all);
    r
}

/// Whether a topic is one that a scenario has records for.
spec fn has_set(c: CatalogView, scenario: Seq<char>, topic: Seq<char>) -> bool {
    sets_of(c.frames, scenario).dom().contains(topic)
}

/// Whether one of a row of overlays has records for a topic.
spec fn overlay_has_set(c: CatalogView, overlays: Seq<OverlayView>, topic: Seq<char>) -> bool {
    exists|i: int|
        0 <= i < overlays.len() && has_set(c, (#[trigger] overlays[i]).scenario, topic)
}

fn add_topics(catalog: &Catalog, scenario: &str, topics: &mut OrderedMap<String, ()>)
    ensures
        forall|t: Seq<char>| #[trigger]
            final(topics)@.dom().contains(t) <==> (old(topics)@.dom().contains(t) || has_set(
                catalog@,
                scenario@,
                t,
            )),
{
    let names = catalog.topics_of(scenario);
    let ghost before = topics@;
    let ghost all = texts(names@);
    let mut i: usize = 0;
    while i < names.len()
        invariant
            i <= names@.len(),
            all == texts(names@),
            forall|t: Seq<char>| #[trigger]
                topics@.dom().contains(t) <==> (before.dom().contains(t) || all.take(
                    i as int,
                ).contains(t)),
        decreases names@.len() - i,
    {
        let name = names[i].clone();
        proof {
            let a = all.take(i as int);
            let b = all.take(i + 1);
            assert(b =~= a.push(name@));
            assert forall|t: Seq<char>| b.contains(t) <==> (a.contains(t) || t == name@) by {
                if a.contains(t) {
                    let j = choose|j: int| 0 <= j < a.len() && a[j] == t;
                    assert(b[j] == t);
                }
                if t == name@ {
                    assert(b[i as int] == t);
                }
            }
        }
        topics.insert(name, ());
        i = i + 1;
    }
    assert(all.take(all.len() as int) =~= all);
}

proof fn lemma_overlay_topics(
    c: CatalogView,
    overlays: Seq<OverlayView>,
    topic: Seq<char>,
    epoch: Seq<char>,
)
    requires
        overlay_records(c, overlays, topic, epoch).len() > 0,
    ensures
        overlay_has_set(c, overlays, topic),
    decreases overlays.len(),
{
    let rest = overlays.drop_last();
    if overlay_records(c, rest, topic, epoch).len() > 0 {
        lemma_overlay_topics(c, rest, topic, epoch);
        let i = choose|i: int|
            0 <= i < rest.len() && has_set(c, (#[trigger] rest[i]).scenario, topic);
        assert(overlays[i] == rest[i]);
    } else {
        let last = overlays.len() - 1;
        assert(has_set(c, overlays[last].scenario, topic));
    }
}

/// What a frame puts on the topics.
pub fn plan_frame(catalog: &Catalog, st: &State, epoch: &str) -> (r: Vec<Batch>)
    ensures
        is_frame(r@, catalog@, st@, epoch@),
{
    let mut topics: OrderedMap<String, ()> = OrderedMap::new();
    add_topics(catalog, "baseline", &mut topics);
    add_topics(catalog, st.scenario.as_str(), &mut topics);
    let ghost all = overlay_views(st.overlays@);
    let mut i: usize = 0;
    while i < st.overlays.len()
        invariant
            i <= st.overlays@.len(),
            all == overlay_views(st.overlays@),
            forall|t: Seq<char>| #[trigger]
                topics@.dom().contains(t) <==> (has_set(catalog@, "baseline"@, t) || has_set(
                    catalog@,
                    st.scenario@,
                    t,
                ) || overlay_has_set(catalog@, all.take(i as int), t)),
        decreases st.overlays@.len() - i,
    {
        let ghost before = topics@;
        add_topics(catalog, st.overlays[i].scenario.as_str(), &mut topics);
        proof {
            let a = all.take(i as int);
            let b = all.take(i + 1);
            assert(b =~= a.push(all[i as int]));
            assert forall|t: Seq<char>| #[trigger]
                topics@.dom().contains(t) <==> (has_set(catalog@, "baseline"@, t) || has_set(
                    catalog@,
                    st.scenario@,
                    t,
                ) || overlay_has_set(catalog@, b, t)) by {
                assert(topics@.dom().contains(t) <==> (before.dom().contains(t) || has_set(
                    catalog@,
                    all[i as int].scenario,
                    t,
                )));
                if overlay_has_set(catalog@, a, t) {
                    let j = choose|j: int|
                        0 <= j < a.len() && has_set(catalog@, (#[trigger] a[j]).scenario, t);
                    assert(b[j] == a[j]);
                }
                if has_set(catalog@, all[i as int].scenario, t) {
                    assert(b[i as int] == all[i as int]);
                }
                if overlay_has_set(catalog@, b, t) {
                    let j = choose|j: int|
                        0 <= j < b.len() && has_set(catalog@, (#[trigger] b[j]).scenario, t);
                    if j < i {
                        assert(a[j] == b[j]);
                    }
                }
            }
        }
        i = i + 1;
    }
    assert(all.take(all.len() as int) =~= all);
    let n = topics.len();
    let ghost names = topics.keys();
    let mut r: Vec<Batch> = Vec::new();
    let mut k: usize = 0;
    while k < n
        invariant
            k <= n == names.len(),
            names == topics.keys(),
            forall|i: int, j: int|
                0 <= i < j < names.len() ==> text_before(
                    #[trigger] names[i],
                    #[trigger] names[j],
                ),
            forall|i: int|
                0 <= i < r@.len() ==> (#[trigger] r@[i]).records@.len() > 0 && produce_views(
                    r@[i].records@,
                ) == frame_records(catalog@, st@, r@[i].topic@, epoch@),
            forall|i: int|
                0 <= i < r@.len() ==> names.take(k as int).contains(
                    (#[trigger] r@[i]).topic@,
                ),
            forall|i: int, j: int|
                0 <= i < j < r@.len() ==> text_before(
                    (#[trigger] r@[i]).topic@,
                    (#[trigger] r@[j]).topic@,
                ),
            forall|i: int|
                0 <= i < k && frame_records(
                    catalog@,
                    st@,
                    #[trigger] names[i],
                    epoch@,
                ).len() > 0 ==> has_batch(r@, names[i]),
        decreases n - k,
    {
        let topic = topics.key_at(k).clone();
        let records = records_of(catalog, st, topic.as_str(), epoch);
        let ghost before = r@;
        proof {
            assert(names.take(k + 1)[k as int] == names[k as int]);
            assert forall|i: int| 0 <= i < r@.len() implies names.take(k + 1).contains(
                (#[trigger] r@[i]).topic@,
            ) && text_before(r@[i].topic@, names[k as int]) by {
                let j = choose|j: int| 0 <= j < k && names.take(k as int)[j] == r@[i].topic@;
                assert(names.take(k + 1)[j] == r@[i].topic@);
                assert(text_before(names[j], names[k as int]));
            }
            assert(produce_views(records@).len() == records@.len());
        }
        if records.len() > 0 {
            let b = Batch { topic, records };
            r.push(b);
            proof {
                assert(r@[before.len() as int].topic@ == names[k as int]);
                assert(has_batch(r@, names[k as int]));
                assert forall|i: int|
                    0 <= i < k && frame_records(
                        catalog@,
                        st@,
                        #[trigger] names[i],
                        epoch@,
                    ).len() > 0 implies has_batch(r@, names[i]) by {
                    let j = choose|j: int|
                        0 <= j < before.len() && (#[trigger] before[j]).topic@ == names[i];
                    assert(r@[j].topic@ == names[i]);
                }
            }
        }
        k = k + 1;
    }
    proof {
        assert forall|topic: Seq<char>|
            (#[trigger] frame_records(catalog@, st@, topic, epoch@)).len() > 0 implies exists|
            i: int,
        |
            0 <= i < r@.len() && (#[trigger] r@[i]).topic@ == topic by {
            if overlay_records(catalog@, all, topic, epoch@).len() > 0 {
                lemma_overlay_topics(catalog@, all, topic, epoch@);
            } else {
                assert(loop_lines(catalog@, st@, topic) is Some);
            }
            assert(topics@.dom().contains(topic));
            assert(names.contains(topic));
            let j = choose|j: int| 0 <= j < names.len() && names[j] == topic;
            assert(has_batch(r@, names[j]));
        }
    }
    r
}

/// Whether a row of batches has one for a topic.
spec fn has_batch(batches: Seq<Batch>, topic: Seq<char>) -> bool {
    exists|i: int| 0 <= i < batches.len() && (#[trigger] batches[i]).topic@ == topic
}

} // verus!
