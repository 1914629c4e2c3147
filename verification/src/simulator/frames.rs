//! What is played when: which records of the record sets a tick puts on the
//! topics, and what is told of it.

use vstd::prelude::*;
use vstd::utf8::*;

use super::catalog::{
    frames_of, key_name, loaded, meta_of, CatalogView, DataFile, LineView, MetaView, ScenarioMeta,
};
use super::control::{next_step, Step};
use super::laws::advanced_by;
use super::play::{
    controlled, frame_records, is_frame, overlay_records, start_state, Batch, OverlayView,
    StateView,
};
use super::stamp::{epoch_from, stamped, stamped_all};
use super::tick::{
    counted_sent, heartbeat_extra, loop_length, overlay_length, overlays_advanced, produced_extra,
    sim_metric_view, tick_metrics, Played,
};
use crate::json::{field, json_text_of, parsed_json, JsonView};
use crate::kafka::{json_keyed, produce_views, KafkaError, ProduceView};
use crate::text::{
    decimal, hex_reads_back, hex_value, lemma_bytes_before_irreflexive, lines_of, replaced_first,
};

verus! {

// ---------------------------------------------------------------------------
// Record sets

/// The frame number that a line gives: the number in its `f`, or zero.
pub open spec fn frame_number(v: JsonView) -> nat {
    match field(v, "f"@) {
        Some(JsonView::Uint(f)) => f as nat,
        _ => 0,
    }
}

/// The key that a line gives.
pub open spec fn line_key(v: JsonView, name: Seq<char>) -> Seq<char> {
    match field(v, name) {
        Some(JsonView::Str(s)) => s,
        Some(other) => json_text_of(other),
        None => Seq::empty(),
    }
}

/// The lines of a frame, in their order: those that are JSON and give its
/// number.
pub open spec fn lines_of_frame(lines: Seq<Seq<char>>, name: Seq<char>, k: int) -> Seq<LineView>
    decreases lines.len(),
{
    if lines.len() == 0 {
        Seq::empty()
    } else {
        let before = lines_of_frame(lines.drop_last(), name, k);
        match parsed_json(encode_utf8(lines.last())) {
            Ok(v) => if frame_number(v) == k {
                before.push(LineView { key: line_key(v, name), value: lines.last() })
            } else {
                before
            },
            Err(_) => before,
        }
    }
}

/// Whether the number of every line fits what a frame is counted with.
pub open spec fn numbers_fit(lines: Seq<Seq<char>>) -> bool {
    forall|i: int|
        0 <= i < lines.len() ==> match parsed_json(encode_utf8(#[trigger] lines[i])) {
            Ok(v) => frame_number(v) <= usize::MAX,
            Err(_) => true,
        }
}

/// A frame of a record set holds the lines that give its number, each as it
/// stands in the file and in the file's order.
pub proof fn a_frame_holds_its_lines(n: nat, name: Seq<char>, lines: Seq<Seq<char>>, k: int)
    requires
        numbers_fit(lines),
        0 <= k < n,
    ensures
        frames_of(n, name, lines).len() == n,
        frames_of(n, name, lines)[k] == lines_of_frame(lines, name, k),
    decreases lines.len(),
{
    if lines.len() > 0 {
        let rest = lines.drop_last();
        assert(numbers_fit(rest)) by {
            assert forall|i: int| 0 <= i < rest.len() implies match parsed_json(
                encode_utf8(#[trigger] rest[i]),
            ) {
                Ok(v) => frame_number(v) <= usize::MAX,
                Err(_) => true,
            } by {
                assert(rest[i] == lines[i]);
            }
        }
        a_frame_holds_its_lines(n, name, rest, k);
        assert(lines[lines.len() - 1] == lines.last());
    } else {
        assert(frames_of(n, name, lines)[k] =~= lines_of_frame(lines, name, k));
    }
}

/// The catalog has a record set for each data file, under its scenario and
/// its topic, with as many frames as the scenario declares, and has no other;
/// of two files for the same the later counts.
pub proof fn a_file_is_found_under_its_scenario_and_topic(
    files: Seq<DataFile>,
    meta: Map<Seq<char>, MetaView>,
    i: int,
)
    requires
        0 <= i < files.len(),
        forall|j: int|
            i < j < files.len() ==> (#[trigger] files[j]).scenario@ != files[i].scenario@
                || files[j].topic@ != files[i].topic@,
    ensures
        loaded(files, meta).dom().contains(files[i].scenario@),
        loaded(files, meta)[files[i].scenario@].dom().contains(files[i].topic@),
        loaded(files, meta)[files[i].scenario@][files[i].topic@] == frames_of(
            if meta.dom().contains(files[i].scenario@) {
                meta[files[i].scenario@].frames as nat
            } else {
                1
            },
            key_name(files[i].topic@),
            lines_of(files[i].jsonl@),
        ),
    decreases files.len(),
{
    let rest = files.drop_last();
    if i < rest.len() {
        assert(rest[i] == files[i]);
        assert forall|j: int| i < j < rest.len() implies (#[trigger] rest[j]).scenario@
            != rest[i].scenario@ || rest[j].topic@ != rest[i].topic@ by {
            assert(rest[j] == files[j]);
        }
        a_file_is_found_under_its_scenario_and_topic(rest, meta, i);
        assert(files[files.len() - 1] == files.last());
    }
}

/// A record set comes from a data file.
pub proof fn a_record_set_comes_from_a_file(
    files: Seq<DataFile>,
    meta: Map<Seq<char>, MetaView>,
    scenario: Seq<char>,
    topic: Seq<char>,
)
    requires
        loaded(files, meta).dom().contains(scenario),
        loaded(files, meta)[scenario].dom().contains(topic),
    ensures
        exists|i: int|
            0 <= i < files.len() && (#[trigger] files[i]).scenario@ == scenario
                && files[i].topic@ == topic,
    decreases files.len(),
{
    if files.len() > 0 {
        let rest = files.drop_last();
        let last = files.last();
        assert(files[files.len() - 1] == last);
        if !(last.scenario@ == scenario && last.topic@ == topic) {
            a_record_set_comes_from_a_file(rest, meta, scenario, topic);
            let i = choose|i: int|
                0 <= i < rest.len() && (#[trigger] rest[i]).scenario@ == scenario
                    && rest[i].topic@ == topic;
            assert(files[i] == rest[i]);
        }
    }
}

// ---------------------------------------------------------------------------
// Stamps

/// Lots, readings, jobs and units get a new id in every pass: the id, a tilde,
/// the epoch and the pass, which an overlay marks with an `o`. It replaces the
/// id in the value where that first stands. Records of other topics stay as
/// they are.
pub proof fn ids_are_stamped_with_epoch_and_pass(
    line: LineView,
    topic: Seq<char>,
    epoch: Seq<char>,
    pass: u64,
    overlay: bool,
)
    ensures
        ({
            let r = stamped(line, topic, epoch, pass, overlay);
            let id = line.key + "~"@ + epoch + (if overlay {
                ".o"@
            } else {
                "."@
            }) + decimal(pass as nat);
            let name = if topic == "probe.lots"@ {
                "lot"@
            } else if topic == "dieattach.readings"@ {
                "die"@
            } else if topic == "inspect.jobs"@ {
                "job"@
            } else {
                "unit"@
            };
            let said = |key: Seq<char>| "\""@ + name + "\":\""@ + key + "\""@;
            if topic == "probe.lots"@ || topic == "dieattach.readings"@ || topic
                == "inspect.jobs"@ || topic == "finaltest.bins"@ {
                &&& r.key == Some(encode_utf8(id))
                &&& r.value == Some(
                    encode_utf8(replaced_first(line.value, said(line.key), said(id))),
                )
            } else {
                r.key == Some(encode_utf8(line.key)) && r.value == Some(encode_utf8(line.value))
            }
        }),
        stamped(line, topic, epoch, pass, overlay).partition is None,
        stamped(line, topic, epoch, pass, overlay).timestamp is None,
        stamped(line, topic, epoch, pass, overlay).headers.len() == 0,
{
    reveal_strlit("probe.lots");
    reveal_strlit("dieattach.readings");
    reveal_strlit("wirebond.raw");
    reveal_strlit("inspect.jobs");
    reveal_strlit("mold.telemetry");
    reveal_strlit("finaltest.bins");
    assert("probe.lots"@.len() == 10 && "dieattach.readings"@.len() == 18
        && "wirebond.raw"@.len() == 12 && "inspect.jobs"@.len() == 12
        && "mold.telemetry"@.len() == 14 && "finaltest.bins"@.len() == 14);
    assert("wirebond.raw"@[0] == 'w');
    assert("inspect.jobs"@[0] == 'i');
    assert("mold.telemetry"@[0] == 'm');
    assert("finaltest.bins"@[0] == 'f');
    let id = line.key + "~"@ + epoch + (if overlay {
        ".o"@
    } else {
        "."@
    }) + decimal(pass as nat);
    assert(id =~= super::stamp::stamped_key(
        line.key,
        super::stamp::tag_of(epoch, pass, overlay),
    ));
}

// ---------------------------------------------------------------------------
// A tick

/// Whether records are the lines of a row, stamped, in its order.
pub open spec fn are_stamped(
    records: Seq<ProduceView>,
    lines: Seq<LineView>,
    topic: Seq<char>,
    epoch: Seq<char>,
    pass: u64,
    overlay: bool,
) -> bool {
    &&& records.len() == lines.len()
    &&& forall|i: int|
        0 <= i < lines.len() ==> #[trigger] records[i] == stamped(
            lines[i],
            topic,
            epoch,
            pass,
            overlay,
        )
}

/// Whether a catalog has frames of a scenario for a topic.
pub open spec fn has_frames(c: CatalogView, scenario: Seq<char>, topic: Seq<char>) -> bool {
    &&& c.frames.dom().contains(scenario)
    &&& c.frames[scenario].dom().contains(topic)
    &&& c.frames[scenario][topic].len() > 0
}

/// An overlay adds to a frame: behind what the loop and the overlays under it
/// put on a topic come the lines of the frame that the overlay is at, stamped
/// with its ordinal. It takes nothing away.
pub proof fn an_overlay_adds_the_lines_of_its_frame(
    c: CatalogView,
    st: StateView,
    o: OverlayView,
    topic: Seq<char>,
    epoch: Seq<char>,
)
    ensures
        ({
            let without = frame_records(c, st, topic, epoch);
            let with = frame_records(
                c,
                StateView { overlays: st.overlays.push(o), ..st },
                topic,
                epoch,
            );
            let added = with.skip(without.len() as int);
            &&& with.len() >= without.len()
            &&& with.take(without.len() as int) == without
            &&& has_frames(c, o.scenario, topic) ==> are_stamped(
                added,
                c.frames[o.scenario][topic][o.frame as int
                    % c.frames[o.scenario][topic].len() as int],
                topic,
                epoch,
                o.ordinal,
                true,
            )
            &&& !has_frames(c, o.scenario, topic) ==> added.len() == 0
        }),
{
    let without = frame_records(c, st, topic, epoch);
    let more = st.overlays.push(o);
    let with = frame_records(c, StateView { overlays: more, ..st }, topic, epoch);
    assert(more.drop_last() =~= st.overlays);
    assert(more.last() == o);
    let tail: Seq<ProduceView> = if has_frames(c, o.scenario, topic) {
        stamped_all(
            c.frames[o.scenario][topic][o.frame as int % c.frames[o.scenario][topic].len() as int],
            topic,
            epoch,
            o.ordinal,
            true,
        )
    } else {
        Seq::empty()
    };
    assert(with =~= without + tail);
    assert(with.take(without.len() as int) =~= without);
    assert(with.skip(without.len() as int) =~= tail);
}

/// What the loop puts on a topic is the frame it is at: of its scenario,
/// where that has frames for the topic, and otherwise of the baseline.
pub proof fn the_loop_plays_the_frame_it_is_at(
    c: CatalogView,
    st: StateView,
    topic: Seq<char>,
    epoch: Seq<char>,
)
    requires
        st.overlays.len() == 0,
    ensures
        ({
            let records = frame_records(c, st, topic, epoch);
            let source = if has_frames(c, st.scenario, topic) {
                st.scenario
            } else {
                "baseline"@
            };
            if has_frames(c, source, topic) {
                are_stamped(
                    records,
                    c.frames[source][topic][st.frame as int % c.frames[source][topic].len() as int],
                    topic,
                    epoch,
                    st.passes,
                    false,
                )
            } else {
                records.len() == 0
            }
        }),
{
    assert(overlay_records(c, st.overlays, topic, epoch) =~= Seq::empty());
    let records = frame_records(c, st, topic, epoch);
    match super::play::loop_lines(c, st, topic) {
        Some(lines) => {
            assert(records =~= stamped_all(lines, topic, epoch, st.passes, false));
        },
        None => {
            assert(records =~= Seq::empty());
        },
    }
}

proof fn lemma_loop_ignores_overlays(c: CatalogView, a: StateView, b: StateView, n: nat)
    requires
        a == (StateView {
            overlays: a.overlays,
            overlays_played: a.overlays_played,
            control_seen: a.control_seen,
            ..b
        }),
    ensures
        ({
            let x = advanced_by(c, a, n);
            let y = advanced_by(c, b, n);
            x == (StateView {
                overlays: x.overlays,
                overlays_played: x.overlays_played,
                control_seen: x.control_seen,
                ..y
            })
        }),
    decreases n,
{
    if n > 0 {
        lemma_loop_ignores_overlays(c, a, b, (n - 1) as nat);
    }
}

proof fn lemma_one_overlay(c: CatalogView, st: StateView, o: OverlayView, n: nat)
    requires
        st.overlays == seq![o],
        o.frame == 0,
        c.meta.dom().contains(o.scenario),
    ensures
        n < c.meta[o.scenario].frames ==> advanced_by(c, st, n).overlays == seq![
            OverlayView { frame: n as u32, ..o },
        ],
        n >= c.meta[o.scenario].frames && n > 0 ==> advanced_by(c, st, n).overlays.len() == 0,
    decreases n,
{
    if n > 0 {
        lemma_one_overlay(c, st, o, (n - 1) as nat);
        let before = advanced_by(c, st, (n - 1) as nat).overlays;
        if n - 1 < c.meta[o.scenario].frames || n == 1 {
            let was = if n == 1 {
                o
            } else {
                OverlayView { frame: (n - 1) as u32, ..o }
            };
            assert(before =~= seq![was]);
            assert(before.drop_last() =~= Seq::<OverlayView>::empty());
            assert(before.last() == was);
            assert(overlays_advanced(c, before.drop_last()) =~= Seq::<OverlayView>::empty());
            if n < c.meta[o.scenario].frames {
                assert(overlays_advanced(c, before) =~= seq![OverlayView { frame: n as u32, ..o }]);
            } else {
                assert(overlays_advanced(c, before) =~= Seq::<OverlayView>::empty());
            }
        } else {
            assert(before =~= Seq::<OverlayView>::empty());
        }
    } else {
        assert(seq![o] =~= seq![OverlayView { frame: 0u32, ..o }]);
    }
}

/// An overlay is played frame by frame from its first to its last, once: `n`
/// ticks after it was asked for, where no other is being played, the lines
/// that come behind those of the loop are those of its frame `n`, as long as
/// it lasts; and then none do.
pub proof fn an_overlay_plays_each_of_its_frames(
    c: CatalogView,
    st: StateView,
    name: Seq<char>,
    topic: Seq<char>,
    epoch: Seq<char>,
    n: nat,
)
    requires
        st.overlays.len() == 0,
        c.meta.dom().contains(name),
        c.meta[name].overlay,
        c.meta[name].frames > 0,
        has_frames(c, name, topic) ==> c.frames[name][topic].len() == c.meta[name].frames,
    ensures
        ({
            let now = advanced_by(c, controlled(c, st, "play"@, Some(name)), n);
            let alone = advanced_by(c, st, n);
            let without = frame_records(c, alone, topic, epoch);
            let with = frame_records(c, now, topic, epoch);
            let added = with.skip(without.len() as int);
            &&& with.len() >= without.len()
            &&& with.take(without.len() as int) == without
            &&& n < c.meta[name].frames && has_frames(c, name, topic) ==> are_stamped(
                added,
                c.frames[name][topic][n as int],
                topic,
                epoch,
                st.overlays_played.wrapping_add(1),
                true,
            )
            &&& n >= c.meta[name].frames || !has_frames(c, name, topic) ==> added.len() == 0
        }),
{
    reveal_strlit("stop");
    reveal_strlit("loop");
    reveal_strlit("play");
    assert("stop"@[0] == 's' && "loop"@[0] == 'l' && "play"@[0] == 'p');
    let asked = controlled(c, st, "play"@, Some(name));
    let o = OverlayView {
        scenario: name,
        frame: 0,
        ordinal: st.overlays_played.wrapping_add(1),
    };
    assert(asked.overlays =~= seq![o]);
    lemma_one_overlay(c, asked, o, n);
    lemma_loop_ignores_overlays(c, asked, st, n);
    lemma_no_overlays(c, st, n);
    let now = advanced_by(c, asked, n);
    let alone = advanced_by(c, st, n);
    let bare = StateView { overlays: Seq::empty(), ..now };
    assert(alone.overlays =~= Seq::<OverlayView>::empty());
    assert(frame_records(c, bare, topic, epoch) == frame_records(c, alone, topic, epoch));
    if n < c.meta[name].frames {
        let at = OverlayView { frame: n as u32, ..o };
        assert(now.overlays =~= Seq::<OverlayView>::empty().push(at));
        assert(now == (StateView { overlays: bare.overlays.push(at), ..bare }));
        an_overlay_adds_the_lines_of_its_frame(c, bare, at, topic, epoch);
        if has_frames(c, name, topic) {
            vstd::arithmetic::div_mod::lemma_small_mod(n, c.frames[name][topic].len());
        }
    } else {
        assert(now.overlays =~= Seq::<OverlayView>::empty());
        assert(now == bare);
        let w = frame_records(c, alone, topic, epoch);
        assert(w.take(w.len() as int) =~= w);
    }
}

proof fn lemma_no_overlays(c: CatalogView, st: StateView, n: nat)
    requires
        st.overlays.len() == 0,
    ensures
        advanced_by(c, st, n).overlays.len() == 0,
    decreases n,
{
    if n > 0 {
        lemma_no_overlays(c, st, (n - 1) as nat);
    }
}

/// A loop scenario plays its frames in order: `n` ticks after its first
/// frame it is at frame `n`, as long as it lasts, in the same pass; and when
/// it is over, the scenario it declares, or else itself, starts at its first
/// frame in the next pass.
pub proof fn a_loop_plays_each_of_its_frames(c: CatalogView, st: StateView, n: nat)
    requires
        c.meta.dom().contains(st.scenario),
        st.frame == 0,
        n <= c.meta[st.scenario].frames,
        c.meta[st.scenario].frames > 0,
    ensures
        ({
            let now = advanced_by(c, st, n);
            let m = c.meta[st.scenario];
            if n < m.frames {
                now.scenario == st.scenario && now.frame == n && now.passes == st.passes
            } else {
                &&& now.scenario == match m.next {
                    Some(next) => next,
                    None => st.scenario,
                }
                &&& now.frame == 0
                &&& now.passes == st.passes.wrapping_add(1)
            }
        }),
        advanced_by(c, st, n).running == st.running,
    decreases n,
{
    if n > 0 {
        a_loop_plays_each_of_its_frames(c, st, (n - 1) as nat);
    }
}

// ---------------------------------------------------------------------------
// Control

/// A loop scenario that is asked for and does not run already runs from its
/// first frame, in a new pass. The baseline is meant where none is named. One
/// that runs already runs on, and an overlay or an unknown name changes
/// nothing.
pub proof fn a_loop_starts_where_it_does_not_run(
    c: CatalogView,
    st: StateView,
    scenario: Option<Seq<char>>,
)
    ensures
        ({
            let name = match scenario {
                Some(s) => s,
                None => "baseline"@,
            };
            let after = controlled(c, st, "loop"@, scenario);
            &&& after.control_seen == st.control_seen.wrapping_add(1)
            &&& after.overlays == st.overlays
            &&& after.overlays_played == st.overlays_played
            &&& if c.meta.dom().contains(name) && !c.meta[name].overlay && !(st.running
                && st.scenario == name) {
                after.running && after.scenario == name && after.frame == 0 && after.passes
                    == st.passes.wrapping_add(1)
            } else {
                after.running == st.running && after.scenario == st.scenario && after.frame
                    == st.frame && after.passes == st.passes
            }
        }),
{
    reveal_strlit("stop");
    reveal_strlit("loop");
    assert("stop"@[0] == 's' && "loop"@[0] == 'l');
}

/// An overlay that is asked for is played from its first frame beside what
/// runs; without a name, or with one that is unknown or names a loop scenario,
/// nothing is.
pub proof fn an_overlay_starts_where_it_is_one(
    c: CatalogView,
    st: StateView,
    scenario: Option<Seq<char>>,
)
    ensures
        ({
            let after = controlled(c, st, "play"@, scenario);
            &&& after.control_seen == st.control_seen.wrapping_add(1)
            &&& after.running == st.running
            &&& after.scenario == st.scenario
            &&& after.frame == st.frame
            &&& after.passes == st.passes
            &&& if scenario is Some && c.meta.dom().contains(scenario->0)
                && c.meta[scenario->0].overlay {
                &&& after.overlays_played == st.overlays_played.wrapping_add(1)
                &&& after.overlays == st.overlays.push(
                    OverlayView {
                        scenario: scenario->0,
                        frame: 0,
                        ordinal: after.overlays_played,
                    },
                )
            } else {
                after.overlays == st.overlays && after.overlays_played == st.overlays_played
            }
        }),
{
    reveal_strlit("stop");
    reveal_strlit("loop");
    reveal_strlit("play");
    assert("stop"@[0] == 's' && "loop"@[0] == 'l' && "play"@[0] == 'p');
}

/// A command that is none changes nothing but the count of control records.
pub proof fn an_unknown_command_changes_nothing(
    c: CatalogView,
    st: StateView,
    cmd: Seq<char>,
    scenario: Option<Seq<char>>,
)
    requires
        cmd != "stop"@,
        cmd != "loop"@,
        cmd != "play"@,
    ensures
        controlled(c, st, cmd, scenario) == (StateView {
            control_seen: st.control_seen.wrapping_add(1),
            ..st
        }),
{
}

/// The line starts itself: the baseline runs from its first frame, in the
/// first pass, without an overlay.
pub proof fn the_baseline_runs_at_the_start()
    ensures
        start_state().running,
        start_state().scenario == "baseline"@,
        start_state().frame == 0,
        start_state().passes == 1,
        start_state().overlays.len() == 0,
        start_state().overlays_played == 0,
        start_state().control_seen == 0,
{
}

// ---------------------------------------------------------------------------
// Reports

/// How many records of a batch were taken.
pub open spec fn taken(outcomes: Seq<Result<(), KafkaError>>) -> nat
    decreases outcomes.len(),
{
    if outcomes.len() == 0 {
        0
    } else {
        taken(outcomes.drop_last()) + if outcomes.last() is Ok {
            1nat
        } else {
            0nat
        }
    }
}

proof fn lemma_taken(outcomes: Seq<Result<(), KafkaError>>)
    ensures
        crate::kafka::taken_count(outcomes) == taken(outcomes),
        taken(outcomes) <= outcomes.len(),
    decreases outcomes.len(),
{
    reveal(Seq::filter);
    if outcomes.len() > 0 {
        lemma_taken(outcomes.drop_last());
    }
}

/// What counts for a topic is what was taken of its batch, record by record;
/// a topic that took nothing is not counted.
pub proof fn what_was_taken_counts(
    produced: Seq<(Seq<char>, u64)>,
    topic: Seq<char>,
    sent: Result<Vec<Result<(), KafkaError>>, KafkaError>,
)
    requires
        sent is Ok ==> sent->Ok_0@.len() <= u64::MAX,
    ensures
        ({
            let after = counted_sent(produced, topic, sent);
            if sent is Ok && taken(sent->Ok_0@) > 0 {
                &&& after.len() == produced.len() + 1
                &&& after.drop_last() == produced
                &&& after.last().0 == topic
                &&& after.last().1 == taken(sent->Ok_0@)
            } else {
                after == produced
            }
        }),
{
    if sent is Ok {
        lemma_taken(sent->Ok_0@);
        assert(counted_sent(produced, topic, sent).drop_last() =~= produced
            || counted_sent(produced, topic, sent) == produced);
    }
}

/// What a tick tells: for each topic that got records how many, with the
/// scenario and the frame they are of; and in every fifth tick what runs.
pub proof fn a_tick_tells_what_it_put_out(
    played: Option<Played>,
    st: StateView,
    tick: u64,
    epoch: Seq<char>,
    i: int,
)
    ensures
        ({
            let out = tick_metrics(played, st, tick, epoch);
            let n: int = match played {
                Some(p) => p.produced@.len() as int,
                None => 0,
            };
            let beats = tick as int % 5 == 0;
            &&& out.len() == n + if beats {
                1int
            } else {
                0int
            }
            &&& 0 <= i < n ==> exists|f: Map<Seq<char>, JsonView>|
                #![trigger sim_metric_view("produced"@, f)]
                {
                    &&& out[i] == sim_metric_view("produced"@, f)
                    &&& f["topic"@] == JsonView::Str(played->0.produced@[i].0@)
                    &&& f["n"@] == JsonView::Uint(played->0.produced@[i].1)
                    &&& f["scenario"@] == JsonView::Str(played->0.scenario@)
                    &&& f["frame"@] == JsonView::Uint(played->0.frame as u64)
                }
            &&& beats ==> exists|f: Map<Seq<char>, JsonView>|
                #![trigger sim_metric_view("sim"@, f)]
                {
                    &&& out.last() == sim_metric_view("sim"@, f)
                    &&& f["running"@] == JsonView::Bool(st.running)
                    &&& f["scenario"@] == JsonView::Str(st.scenario)
                    &&& f["frame"@] == JsonView::Uint(st.frame as u64)
                    &&& f["passes"@] == JsonView::Uint(st.passes)
                    &&& f["epoch"@] == JsonView::Str(epoch)
                    &&& f["controls"@] == JsonView::Uint(st.control_seen)
                    &&& st.overlays.len() == 0 ==> f["overlay"@] == JsonView::Null
                    &&& st.overlays.len() > 0 ==> {
                        &&& field(f["overlay"@], "scenario"@) == Some(
                            JsonView::Str(st.overlays.last().scenario),
                        )
                        &&& field(f["overlay"@], "frame"@) == Some(
                            JsonView::Uint(st.overlays.last().frame as u64),
                        )
                    }
                }
        }),
{
    reveal_strlit("topic");
    reveal_strlit("n");
    reveal_strlit("scenario");
    reveal_strlit("frame");
    reveal_strlit("running");
    reveal_strlit("overlay");
    reveal_strlit("passes");
    reveal_strlit("epoch");
    reveal_strlit("controls");
    assert("topic"@.len() == 5 && "n"@.len() == 1 && "scenario"@.len() == 8 && "frame"@.len() == 5
        && "running"@.len() == 7 && "overlay"@.len() == 7 && "passes"@.len() == 6
        && "epoch"@.len() == 5 && "controls"@.len() == 8);
    assert("topic"@[0] == 't');
    assert("frame"@[0] == 'f');
    assert("epoch"@[0] == 'e');
    assert("scenario"@[0] == 's');
    assert("controls"@[0] == 'c');
    assert("running"@[0] == 'r');
    assert("overlay"@[0] == 'o');
    let out = tick_metrics(played, st, tick, epoch);
    if let Some(p) = played {
        if 0 <= i < p.produced@.len() {
            let f = produced_extra(p.produced@[i].0@, p.produced@[i].1, p.scenario@, p.frame);
            assert(out[i] == sim_metric_view("produced"@, f));
        }
    }
    if tick as int % 5 == 0 {
        let f = heartbeat_extra(st, epoch);
        assert(out.last() == sim_metric_view("sim"@, f));
    }
}

/// The records of a topic go out under what they are of: the lot, the die,
/// the bonder, the job, the press or the unit.
pub proof fn records_go_out_under_what_they_are_of()
    ensures
        key_name("probe.lots"@) == "lot"@,
        key_name("dieattach.readings"@) == "die"@,
        key_name("wirebond.raw"@) == "bonder"@,
        key_name("inspect.jobs"@) == "job"@,
        key_name("mold.telemetry"@) == "press"@,
        key_name("finaltest.bins"@) == "unit"@,
{
    reveal_strlit("probe.lots");
    reveal_strlit("dieattach.readings");
    reveal_strlit("wirebond.raw");
    reveal_strlit("inspect.jobs");
    reveal_strlit("mold.telemetry");
    reveal_strlit("finaltest.bins");
    assert("probe.lots"@.len() == 10 && "dieattach.readings"@.len() == 18
        && "wirebond.raw"@.len() == 12 && "inspect.jobs"@.len() == 12
        && "mold.telemetry"@.len() == 14 && "finaltest.bins"@.len() == 14);
    assert("wirebond.raw"@[0] == 'w');
    assert("inspect.jobs"@[0] == 'i');
    assert("mold.telemetry"@[0] == 'm');
    assert("finaltest.bins"@[0] == 'f');
}

/// An epoch is four hexadecimal digits, which write the low 16 bits of the
/// number it was minted from.
pub proof fn an_epoch_has_four_digits(random: u64)
    ensures
        epoch_from(random).len() == 4,
        hex_value(epoch_from(random)) == random as int % 65536,
{
    hex_reads_back((random % 0x1_0000) as nat, 4);
    assert(vstd::arithmetic::power::pow(16, 4) == 0x1_0000) by {
        reveal_with_fuel(vstd::arithmetic::power::pow, 5);
    }
}

/// A scenario lasts as many frames as it says, and a loop at least one. Where
/// nothing is known of it a loop lasts sixty, and an overlay one.
pub proof fn a_scenario_lasts_its_frames(c: CatalogView, scenario: Seq<char>)
    ensures
        c.meta.dom().contains(scenario) ==> overlay_length(c, scenario) == c.meta[scenario].frames,
        c.meta.dom().contains(scenario) && c.meta[scenario].frames > 0 ==> loop_length(c, scenario)
            == c.meta[scenario].frames,
        c.meta.dom().contains(scenario) && c.meta[scenario].frames == 0 ==> loop_length(c, scenario)
            == 1,
        !c.meta.dom().contains(scenario) ==> loop_length(c, scenario) == 60 && overlay_length(
            c,
            scenario,
        ) == 1,
{
}

/// A metric of the simulator goes out under its name and says so, and says of
/// what kind it is.
pub proof fn the_simulator_says_who_it_is(kind: Seq<char>, extra: Map<Seq<char>, JsonView>)
    requires
        !extra.dom().contains("station"@),
        !extra.dom().contains("kind"@),
    ensures
        exists|f: Map<Seq<char>, JsonView>|
            {
                &&& sim_metric_view(kind, extra) == #[trigger] json_keyed(
                    "sim"@,
                    JsonView::Object(f),
                )
                &&& f["station"@] == JsonView::Str("sim"@)
                &&& f["kind"@] == JsonView::Str(kind)
                &&& forall|name: Seq<char>|
                    extra.dom().contains(name) ==> #[trigger] f[name] == extra[name]
            },
{
    reveal_strlit("station");
    reveal_strlit("kind");
    assert("station"@.len() == 7 && "kind"@.len() == 4);
    let f = super::tick::sim_fields(kind, extra);
    assert(sim_metric_view(kind, extra) == json_keyed("sim"@, JsonView::Object(f)));
}

/// A session of control is opened, subscribes, asks for records and listens
/// for as long as they come. Whatever fails ends it, and after five seconds
/// another is opened.
pub proof fn control_is_tried_again_after_five_seconds(seconds: u64)
    ensures
        next_step(Step::Open, true) is Subscribe,
        next_step(Step::Subscribe, true) is Records,
        next_step(Step::Records, true) is Listen,
        next_step(Step::Listen, true) is Listen,
        next_step(Step::Open, false) == Step::Wait(5),
        next_step(Step::Subscribe, false) is Close,
        next_step(Step::Records, false) is Close,
        next_step(Step::Listen, false) is Close,
        next_step(Step::Close, true) == Step::Wait(5),
        next_step(Step::Close, false) == Step::Wait(5),
        next_step(Step::Wait(seconds), true) is Open,
        next_step(Step::Wait(seconds), false) is Open,
{
}

/// A frame has one batch for each topic that something is played on, with all
/// that is played on it, and none for any other.
pub proof fn a_frame_has_a_batch_for_each_topic(
    batches: Seq<Batch>,
    c: CatalogView,
    st: StateView,
    epoch: Seq<char>,
    topic: Seq<char>,
)
    requires
        is_frame(batches, c, st, epoch),
    ensures
        frame_records(c, st, topic, epoch).len() > 0 <==> exists|i: int|
            0 <= i < batches.len() && (#[trigger] batches[i]).topic@ == topic,
        forall|i: int|
            0 <= i < batches.len() && (#[trigger] batches[i]).topic@ == topic ==> produce_views(
                batches[i].records@,
            ) == frame_records(c, st, topic, epoch),
        forall|i: int, j: int|
            0 <= i < j < batches.len() ==> (#[trigger] batches[i]).topic@ != (
            #[trigger] batches[j]).topic@,
{
    assert forall|i: int, j: int| 0 <= i < j < batches.len() implies (#[trigger] batches[i]).topic@
        != (#[trigger] batches[j]).topic@ by {
        lemma_bytes_before_irreflexive(encode_utf8(batches[i].topic@));
    }
    if exists|i: int| 0 <= i < batches.len() && (#[trigger] batches[i]).topic@ == topic {
        let i = choose|i: int| 0 <= i < batches.len() && (#[trigger] batches[i]).topic@ == topic;
        assert(produce_views(batches[i].records@).len() == batches[i].records@.len());
    }
}

/// What is known of a scenario is what was said of it last.
pub proof fn the_last_word_on_a_scenario_counts(
    scenarios: Seq<(String, ScenarioMeta)>,
    i: int,
)
    requires
        0 <= i < scenarios.len(),
        forall|j: int| i < j < scenarios.len() ==> (#[trigger] scenarios[j]).0@ != scenarios[i].0@,
    ensures
        meta_of(scenarios).dom().contains(scenarios[i].0@),
        ({
            let m = meta_of(scenarios)[scenarios[i].0@];
            &&& m.frames == scenarios[i].1.frames
            &&& m.overlay == scenarios[i].1.overlay
            &&& m.next == match scenarios[i].1.next {
                Some(name) => Some(name@),
                None => None,
            }
        }),
    decreases scenarios.len(),
{
    if i < scenarios.len() - 1 {
        let rest = scenarios.drop_last();
        assert(rest[i] == scenarios[i]);
        assert forall|j: int| i < j < rest.len() implies (#[trigger] rest[j]).0@ != rest[i].0@ by {
            assert(rest[j] == scenarios[j]);
        }
        assert(scenarios[scenarios.len() - 1].0@ != scenarios[i].0@);
        the_last_word_on_a_scenario_counts(rest, i);
    }
}

} // verus!
