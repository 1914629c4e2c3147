//! What holds of the simulator whatever it is told.

use vstd::prelude::*;

use super::catalog::CatalogView;
use super::play::{
    controlled, outcome_of, start_state, ControlOutcome, OverlayView, StateView,
};
use super::tick::{
    advanced, loop_length, next_scenario, overlay_length, overlays_advanced,
};
use crate::json::or_else;

verus! {

// ---------------------------------------------------------------------------
// Control

/// Asking twice for a loop is asking once: the second time changes nothing
/// but the count of control records.
pub proof fn asking_for_a_loop_is_idempotent(
    c: CatalogView,
    st: StateView,
    scenario: Option<Seq<char>>,
)
    ensures
        ({
            let once = controlled(c, st, "loop"@, scenario);
            let twice = controlled(c, once, "loop"@, scenario);
            &&& twice == (StateView { control_seen: once.control_seen.wrapping_add(1), ..once })
            &&& outcome_of(c, st, "loop"@, scenario) == ControlOutcome::Looping ==> outcome_of(
                c,
                once,
                "loop"@,
                scenario,
            ) == ControlOutcome::AlreadyLooping
        }),
{
    reveal_strlit("stop");
    reveal_strlit("loop");
    assert("stop"@[0] != "loop"@[0]);
}

/// Stopping stops the loop and leaves everything else as it was.
pub proof fn stopping_only_stops(c: CatalogView, st: StateView, scenario: Option<Seq<char>>)
    ensures
        controlled(c, st, "stop"@, scenario) == (StateView {
            running: false,
            control_seen: st.control_seen.wrapping_add(1),
            ..st
        }),
{
}

/// Overlays stack: one that is played leaves the loop as it is, and those
/// that are being played under it.
pub proof fn overlays_stack(c: CatalogView, st: StateView, name: Seq<char>)
    requires
        c.meta.dom().contains(name),
        c.meta[name].overlay,
    ensures
        ({
            let after = controlled(c, st, "play"@, Some(name));
            &&& after.overlays.len() == st.overlays.len() + 1
            &&& after.overlays.drop_last() == st.overlays
            &&& after.overlays.last().scenario == name
            &&& after.overlays.last().frame == 0
            &&& after.overlays.last().ordinal == after.overlays_played
            &&& after.running == st.running
            &&& after.scenario == st.scenario
            &&& after.frame == st.frame
            &&& after.passes == st.passes
        }),
{
    reveal_strlit("stop");
    reveal_strlit("loop");
    reveal_strlit("play");
    assert("stop"@[0] != "play"@[0] && "loop"@[0] != "play"@[0]);
    assert(controlled(c, st, "play"@, Some(name)).overlays.drop_last() =~= st.overlays);
}

/// Starting a loop anew takes a new pass, so that the ids of its first frame
/// are new ones.
pub proof fn a_new_loop_is_a_new_pass(c: CatalogView, st: StateView, scenario: Option<Seq<char>>)
    requires
        outcome_of(c, st, "loop"@, scenario) == ControlOutcome::Looping,
    ensures
        controlled(c, st, "loop"@, scenario).passes == st.passes.wrapping_add(1),
        controlled(c, st, "loop"@, scenario).frame == 0,
        controlled(c, st, "loop"@, scenario).scenario == or_else(scenario, "baseline"@),
        controlled(c, st, "loop"@, scenario).running,
{
}

// ---------------------------------------------------------------------------
// Time

/// The state `n` frames later.
pub open spec fn advanced_by(c: CatalogView, st: StateView, n: nat) -> StateView
    decreases n,
{
    if n == 0 {
        st
    } else {
        advanced(c, advanced_by(c, st, (n - 1) as nat))
    }
}

/// A loop scenario plays its frames one by one in one pass.
pub proof fn a_scenario_plays_its_frames(c: CatalogView, st: StateView, n: nat)
    requires
        st.frame + n < loop_length(c, st.scenario),
    ensures
        ({
            let after = advanced_by(c, st, n);
            &&& after.scenario == st.scenario
            &&& after.frame == st.frame + n
            &&& after.passes == st.passes
            &&& after.running == st.running
        }),
    decreases n,
{
    if n > 0 {
        a_scenario_plays_its_frames(c, st, (n - 1) as nat);
    }
}

/// Behind its last frame a loop scenario hands over to the one it declares,
/// which starts at its first frame in a new pass. One that declares none
/// starts over.
pub proof fn a_scenario_returns_to_its_next(c: CatalogView, st: StateView)
    requires
        st.frame < loop_length(c, st.scenario),
    ensures
        ({
            let after = advanced_by(
                c,
                st,
                (loop_length(c, st.scenario) - st.frame) as nat,
            );
            &&& after.scenario == next_scenario(c, st.scenario)
            &&& after.frame == 0
            &&& after.passes == st.passes.wrapping_add(1)
            &&& after.running == st.running
        }),
{
    let n = (loop_length(c, st.scenario) - st.frame) as nat;
    a_scenario_plays_its_frames(c, st, (n - 1) as nat);
}

/// The frame that is played is one of the scenario's: so it is at the start,
/// and neither time nor a control record changes that.
pub proof fn the_frame_is_one_of_the_scenario(
    c: CatalogView,
    st: StateView,
    cmd: Seq<char>,
    scenario: Option<Seq<char>>,
)
    requires
        st.frame < loop_length(c, st.scenario),
    ensures
        start_state().frame < loop_length(c, start_state().scenario),
        advanced(c, st).frame < loop_length(c, advanced(c, st).scenario),
        controlled(c, st, cmd, scenario).frame < loop_length(
            c,
            controlled(c, st, cmd, scenario).scenario,
        ),
{
}

/// Whether a state stands at an earlier frame than another: in an earlier
/// pass, or earlier in the same.
pub open spec fn comes_before(a: StateView, b: StateView) -> bool {
    a.passes < b.passes || (a.passes == b.passes && a.frame < b.frame)
}

/// No frame of a pass is played twice: time always moves on, and a control
/// record leaves the loop where it is or moves on too.
pub proof fn the_loop_never_goes_back(
    c: CatalogView,
    st: StateView,
    cmd: Seq<char>,
    scenario: Option<Seq<char>>,
)
    requires
        st.frame < loop_length(c, st.scenario),
        st.passes < u64::MAX,
    ensures
        comes_before(st, advanced(c, st)),
        ({
            let after = controlled(c, st, cmd, scenario);
            ||| comes_before(st, after)
            ||| after.passes == st.passes && after.frame == st.frame && after.scenario
                == st.scenario
        }),
{
}

/// Overlays do not disturb each other: those of two rows played together
/// advance as each row does alone.
pub proof fn overlays_advance_alone(c: CatalogView, a: Seq<OverlayView>, b: Seq<OverlayView>)
    ensures
        overlays_advanced(c, a + b) == overlays_advanced(c, a) + overlays_advanced(c, b),
    decreases b.len(),
{
    if b.len() == 0 {
        assert(a + b =~= a);
        assert(overlays_advanced(c, a) + overlays_advanced(c, b) =~= overlays_advanced(c, a));
    } else {
        assert((a + b).drop_last() =~= a + b.drop_last());
        assert((a + b).last() == b.last());
        overlays_advance_alone(c, a, b.drop_last());
        assert(overlays_advanced(c, a + b) =~= overlays_advanced(c, a) + overlays_advanced(c, b));
    }
}

/// A row of overlays `n` frames later.
pub open spec fn overlays_advanced_by(c: CatalogView, overlays: Seq<OverlayView>, n: nat) -> Seq<
    OverlayView,
>
    decreases n,
{
    if n == 0 {
        overlays
    } else {
        overlays_advanced(c, overlays_advanced_by(c, overlays, (n - 1) as nat))
    }
}

/// An overlay plays for as long as it declares, frame by frame, and then
/// removes itself.
pub proof fn an_overlay_removes_itself(c: CatalogView, o: OverlayView, n: nat)
    requires
        o.frame == 0,
    ensures
        n < overlay_length(c, o.scenario) ==> overlays_advanced_by(c, seq![o], n) == seq![
            OverlayView { frame: n as u32, ..o },
        ],
        n >= overlay_length(c, o.scenario) && n > 0 ==> overlays_advanced_by(c, seq![o], n)
            == Seq::<OverlayView>::empty(),
    decreases n,
{
    if n == 0 {
        assert(seq![o] =~= seq![OverlayView { frame: 0u32, ..o }]);
    } else {
        an_overlay_removes_itself(c, o, (n - 1) as nat);
        let before = overlays_advanced_by(c, seq![o], (n - 1) as nat);
        let length = overlay_length(c, o.scenario);
        if n - 1 < length || n == 1 {
            let was = if n == 1 {
                o
            } else {
                OverlayView { frame: (n - 1) as u32, ..o }
            };
            assert(before =~= seq![was]);
            assert(before.drop_last() =~= Seq::empty());
            assert(before.last() == was);
            assert(overlays_advanced(c, before.drop_last()) =~= Seq::empty());
            if n < length {
                assert(overlays_advanced(c, before) =~= seq![OverlayView { frame: n as u32, ..o }]);
            } else {
                assert(overlays_advanced(c, before) =~= Seq::empty());
            }
        }
    }
}

/// Whether the overlays of a row have ordinals that ascend.
pub open spec fn ordinals_ascend(overlays: Seq<OverlayView>) -> bool {
    forall|i: int, j: int|
        0 <= i < j < overlays.len() ==> (#[trigger] overlays[i]).ordinal < (
        #[trigger] overlays[j]).ordinal
}

/// Whether every overlay has an ordinal of its own, none beyond the count of
/// those that were played.
pub open spec fn overlays_told_apart(st: StateView) -> bool {
    &&& ordinals_ascend(st.overlays)
    &&& forall|i: int|
        0 <= i < st.overlays.len() ==> (#[trigger] st.overlays[i]).ordinal <= st.overlays_played
}

/// Whether a row of overlays has one with an ordinal.
pub open spec fn has_ordinal(overlays: Seq<OverlayView>, ordinal: u64) -> bool {
    exists|i: int| 0 <= i < overlays.len() && (#[trigger] overlays[i]).ordinal == ordinal
}

proof fn lemma_ordinals_stay(c: CatalogView, overlays: Seq<OverlayView>)
    requires
        ordinals_ascend(overlays),
    ensures
        ordinals_ascend(overlays_advanced(c, overlays)),
        forall|i: int|
            0 <= i < overlays_advanced(c, overlays).len() ==> has_ordinal(
                overlays,
                (#[trigger] overlays_advanced(c, overlays)[i]).ordinal,
            ),
    decreases overlays.len(),
{
    if overlays.len() > 0 {
        let rest = overlays.drop_last();
        let before = overlays_advanced(c, rest);
        let after = overlays_advanced(c, overlays);
        let last = overlays.len() - 1;
        lemma_ordinals_stay(c, rest);
        assert forall|i: int| 0 <= i < before.len() implies has_ordinal(
            overlays,
            (#[trigger] before[i]).ordinal,
        ) && before[i].ordinal < overlays[last].ordinal by {
            let j = choose|j: int|
                0 <= j < rest.len() && (#[trigger] rest[j]).ordinal == before[i].ordinal;
            assert(overlays[j] == rest[j]);
        }
        assert forall|i: int| 0 <= i < after.len() implies has_ordinal(
            overlays,
            (#[trigger] after[i]).ordinal,
        ) by {
            if i < before.len() {
                assert(after[i] == before[i]);
            } else {
                assert(overlays[last].ordinal == after[i].ordinal);
            }
        }
    }
}

/// Every overlay that is played has an ordinal of its own, so that two that
/// are played at once never stamp the same id: so it is at the start, and
/// neither time nor a control record changes that.
pub proof fn overlays_have_their_own_ordinals(
    c: CatalogView,
    st: StateView,
    cmd: Seq<char>,
    scenario: Option<Seq<char>>,
)
    requires
        overlays_told_apart(st),
        st.overlays_played < u64::MAX,
    ensures
        overlays_told_apart(start_state()),
        overlays_told_apart(advanced(c, st)),
        overlays_told_apart(controlled(c, st, cmd, scenario)),
{
    lemma_ordinals_stay(c, st.overlays);
    let after = advanced(c, st);
    assert forall|i: int| 0 <= i < after.overlays.len() implies (
    #[trigger] after.overlays[i]).ordinal <= after.overlays_played by {
        let j = choose|j: int|
            0 <= j < st.overlays.len() && (#[trigger] st.overlays[j]).ordinal
                == after.overlays[i].ordinal;
        assert(st.overlays[j].ordinal <= st.overlays_played);
    }
}

/// Time passing changes neither whether the loop runs nor what was counted of
/// the control records and the overlays.
pub proof fn time_only_moves_frames(c: CatalogView, st: StateView)
    ensures
        advanced(c, st).running == st.running,
        advanced(c, st).control_seen == st.control_seen,
        advanced(c, st).overlays_played == st.overlays_played,
{
}

} // verus!
