//! What holds of wire bond whatever records come.

use vstd::prelude::*;

use super::session::{
    all_closed, bond_fault, buried, dead_reason, is_open_on, next_flush_step, open_set, received,
    FlushEvent, FlushStep,
};
use super::window::{
    bonder_of, closed_bonder, counted, delta_of, is_replay, sagged, teaches, time_of,
    window_closed, Bond, BonderView, Config, StateView, Stats,
};
use crate::kafka::ConsumedRecord;
use crate::measure::value;
use crate::ordered_map::{finite_sets_are_listed, listed};

verus! {

// ---------------------------------------------------------------------------
// Counting

/// The state after a record, and after its dead letter where it is to be one.
pub open spec fn dealt_with(
    st: StateView,
    cfg: Config,
    rec: ConsumedRecord,
    decoded: Result<Bond, String>,
    stats: Stats,
) -> StateView {
    let after = received(st, cfg, rec, decoded, stats);
    match dead_reason(st, rec, decoded) {
        Some(reason) => buried(after, rec, reason),
        None => after,
    }
}

proof fn lemma_closing_counts_nothing(
    st: StateView,
    cfg: Config,
    id: u32,
    end_ts: i64,
    reason: Seq<char>,
    stats: Stats,
)
    ensures
        ({
            let after = window_closed(st, cfg, id, end_ts, reason, stats);
            &&& after.consumed == st.consumed
            &&& after.replayed == st.replayed
            &&& after.dlq == st.dlq
            &&& after.high_water == st.high_water
        }),
{
}

/// Every record counts exactly once: as replayed where it was seen before,
/// else as dead-lettered where it is malformed, and else as consumed. So what
/// is produced is what is consumed and what is dead-lettered.
pub proof fn every_record_counts_once(
    st: StateView,
    cfg: Config,
    rec: ConsumedRecord,
    decoded: Result<Bond, String>,
    stats: Stats,
)
    requires
        st.consumed < u64::MAX,
        st.replayed < u64::MAX,
        st.dlq < u64::MAX,
    ensures
        ({
            let after = dealt_with(st, cfg, rec, decoded, stats);
            let again = is_replay(st, rec);
            let malformed = rec.value is Some && bond_fault(decoded) is Some;
            &&& after.replayed == st.replayed + if again {
                1int
            } else {
                0
            }
            &&& after.dlq == st.dlq + if !again && malformed {
                1int
            } else {
                0
            }
            &&& after.consumed == st.consumed + if !again && !malformed {
                1int
            } else {
                0
            }
        }),
{
    if rec.value is Some && bond_fault(decoded) is None {
        let seen = counted(st, rec);
        lemma_closing_counts_nothing(
            seen,
            cfg,
            decoded->Ok_0.bonder,
            time_of(rec),
            "window"@,
            stats,
        );
    }
}

/// A record that was taken is a replay when it comes again, and so is every
/// one before it on its partition.
pub proof fn what_was_taken_is_replayed(
    st: StateView,
    cfg: Config,
    rec: ConsumedRecord,
    decoded: Result<Bond, String>,
    stats: Stats,
    later: ConsumedRecord,
)
    requires
        later.partition == rec.partition,
        later.offset <= rec.offset,
    ensures
        is_replay(dealt_with(st, cfg, rec, decoded, stats), later),
{
    lemma_marks(st, cfg, rec, decoded, stats);
}

/// The marks only rise, so that a replay stays one.
pub proof fn a_replay_stays_one(
    st: StateView,
    cfg: Config,
    rec: ConsumedRecord,
    decoded: Result<Bond, String>,
    stats: Stats,
    other: ConsumedRecord,
)
    requires
        is_replay(st, other),
    ensures
        is_replay(dealt_with(st, cfg, rec, decoded, stats), other),
{
    lemma_marks(st, cfg, rec, decoded, stats);
}

proof fn lemma_marks(
    st: StateView,
    cfg: Config,
    rec: ConsumedRecord,
    decoded: Result<Bond, String>,
    stats: Stats,
)
    ensures
        dealt_with(st, cfg, rec, decoded, stats).high_water == super::window::marked(st, rec),
{
    if rec.value is Some && bond_fault(decoded) is None {
        let seen = counted(st, rec);
        lemma_closing_counts_nothing(
            seen,
            cfg,
            decoded->Ok_0.bonder,
            time_of(rec),
            "window"@,
            stats,
        );
    }
}

// ---------------------------------------------------------------------------
// Replays

/// Whether what led from one state to another made a bonder ask for a replay.
pub open spec fn asks(before: StateView, after: StateView, id: u32) -> bool {
    after.seek_request != before.seek_request && match after.seek_request {
        Some(r) => r.2 == id,
        None => false,
    }
}

/// A bonder asks for a replay at most once: a record that makes it ask marks
/// it, the mark stays, and a marked bonder does not ask.
pub proof fn a_bonder_asks_for_one_replay(
    st: StateView,
    cfg: Config,
    rec: ConsumedRecord,
    decoded: Result<Bond, String>,
    stats: Stats,
    id: u32,
)
    ensures
        ({
            let after = received(st, cfg, rec, decoded, stats);
            &&& asks(st, after, id) ==> bonder_of(after, id).replayed && !bonder_of(
                st,
                id,
            ).replayed
            &&& bonder_of(st, id).replayed ==> bonder_of(after, id).replayed
        }),
{
}

/// A bonder asks for a replay at most once also where partitions go: closing
/// windows early marks a bonder that asks, keeps the marks, and makes no
/// marked bonder ask.
pub proof fn a_bonder_asks_once_where_partitions_go(
    st: StateView,
    cfg: Config,
    ids: Seq<u32>,
    reason: Seq<char>,
    stats: Seq<Stats>,
    id: u32,
)
    ensures
        ({
            let after = all_closed(st, cfg, ids, reason, stats);
            &&& asks(st, after, id) ==> bonder_of(after, id).replayed && !bonder_of(
                st,
                id,
            ).replayed
            &&& bonder_of(st, id).replayed ==> bonder_of(after, id).replayed
        }),
    decreases ids.len(),
{
    if ids.len() > 0 {
        a_bonder_asks_once_where_partitions_go(st, cfg, ids.drop_last(), reason, stats, id);
        a_bonder_asks_once_where_partitions_go(
            st,
            cfg,
            ids.drop_last(),
            reason,
            stats,
            ids.last(),
        );
    }
}

// ---------------------------------------------------------------------------
// The baseline

/// A window whose power sagged does not teach the trailing mean, and neither
/// does one that is off by half of the threshold or more: a sag cannot hide
/// itself by dragging its own baseline down.
pub proof fn only_healthy_windows_teach(b: BonderView, stats: Stats, cfg: Config)
    ensures
        sagged(delta_of(b, stats), cfg.nsop_pct) ==> !teaches(
            delta_of(b, stats),
            cfg.nsop_pct,
        ),
        !teaches(delta_of(b, stats), cfg.nsop_pct) ==> closed_bonder(b, stats, cfg).trailing
            == b.trailing,
        b.trailing is None ==> closed_bonder(b, stats, cfg).trailing == Some(stats.trailing@),
{
    let d = stats.delta.bits;
    crate::measure::magnitude_orders_as_bits(d, d);
}

// ---------------------------------------------------------------------------
// Rebalances

proof fn lemma_closed_is_not_open(
    st: StateView,
    cfg: Config,
    id: u32,
    end_ts: i64,
    reason: Seq<char>,
    stats: Stats,
    other: u32,
)
    ensures
        ({
            let after = window_closed(st, cfg, id, end_ts, reason, stats);
            &&& after.bonders.dom().contains(other) <==> st.bonders.dom().contains(other)
            &&& other != id ==> bonder_of(after, other) == bonder_of(st, other)
            &&& bonder_of(after, id).window.start is None
        }),
{
}

proof fn lemma_all_closed(
    st: StateView,
    cfg: Config,
    ids: Seq<u32>,
    reason: Seq<char>,
    stats: Seq<Stats>,
    id: u32,
)
    ensures
        ({
            let after = all_closed(st, cfg, ids, reason, stats);
            &&& after.bonders.dom().contains(id) <==> st.bonders.dom().contains(id)
            &&& ids.contains(id) ==> bonder_of(after, id).window.start is None
            &&& !ids.contains(id) ==> bonder_of(after, id) == bonder_of(st, id)
        }),
    decreases ids.len(),
{
    if ids.len() > 0 {
        let rest = ids.drop_last();
        lemma_all_closed(st, cfg, rest, reason, stats, id);
        let before = all_closed(st, cfg, rest, reason, stats);
        lemma_closed_is_not_open(
            before,
            cfg,
            ids.last(),
            super::session::planned_end(bonder_of(st, ids.last()), cfg),
            reason,
            stats[ids.len() - 1],
            id,
        );
        assert(ids[ids.len() - 1] == ids.last());
        assert(ids.contains(ids.last()));
        if ids.contains(id) && id != ids.last() {
            let i = choose|i: int| 0 <= i < ids.len() && ids[i] == id;
            assert(rest[i] == id);
        }
        if rest.contains(id) {
            let i = choose|i: int| 0 <= i < rest.len() && rest[i] == id;
            assert(ids[i] == id);
        }
    }
}

/// Partitions that go take no open window with them: behind the flush no
/// bonder has a window open on one of them, and the others are as they were.
pub proof fn what_is_revoked_is_flushed(
    st: StateView,
    cfg: Config,
    partitions: Seq<i32>,
    reason: Seq<char>,
    stats: Seq<Stats>,
    id: u32,
)
    requires
        st.bonders.dom().finite(),
    ensures
        ({
            let after = all_closed(
                st,
                cfg,
                listed::<u32>(open_set(st, partitions)),
                reason,
                stats,
            );
            &&& !is_open_on(bonder_of(after, id), partitions)
            &&& !(st.bonders.dom().contains(id) && is_open_on(st.bonders[id], partitions))
                ==> bonder_of(after, id) == bonder_of(st, id)
        }),
{
    let ids = listed::<u32>(open_set(st, partitions));
    finite_sets_are_listed::<u32>(open_set(st, partitions));
    lemma_all_closed(st, cfg, ids, reason, stats, id);
    assert(ids.contains(id) <==> open_set(st, partitions).contains(id));
}

/// A window that is closed with bonds in it is put out once and reported
/// once, whatever closed it.
pub proof fn a_window_is_put_out_once(
    st: StateView,
    cfg: Config,
    id: u32,
    end_ts: i64,
    reason: Seq<char>,
    stats: Stats,
)
    requires
        st.bonders.dom().contains(id),
        st.bonders[id].window.start is Some,
        st.bonders[id].window.power.len() > 0,
    ensures
        ({
            let after = window_closed(st, cfg, id, end_ts, reason, stats);
            &&& after.pending.len() == st.pending.len() + 1
            &&& after.pending.drop_last() == st.pending
            &&& st.metrics.is_prefix_of(after.metrics)
            &&& after.bonders[id].windows == st.bonders[id].windows.wrapping_add(1)
        }),
{
    let after = window_closed(st, cfg, id, end_ts, reason, stats);
    assert(after.pending.drop_last() =~= st.pending);
    assert(st.metrics =~= after.metrics.take(st.metrics.len() as int));
}

// ---------------------------------------------------------------------------
// Flushes

/// Where a flush stands after what came of each of its steps.
pub open spec fn flush_stepped(events: Seq<FlushEvent>) -> FlushStep
    decreases events.len(),
{
    if events.len() == 0 {
        FlushStep::Send
    } else {
        next_flush_step(flush_stepped(events.drop_last()), events.last())
    }
}

/// Whether an event acknowledges the windows of a flush.
pub open spec fn acknowledges(event: FlushEvent) -> bool {
    match event {
        FlushEvent::Sent(sent) => sent is Ok,
        _ => false,
    }
}

/// Whether the windows of a flush were acknowledged.
pub open spec fn acknowledged(events: Seq<FlushEvent>) -> bool {
    exists|i: int| 0 <= i < events.len() && acknowledges(#[trigger] events[i])
}

/// Positions are committed only after the windows that were made of the
/// records before them are acknowledged.
pub proof fn nothing_is_committed_before_it_is_acknowledged(events: Seq<FlushEvent>)
    ensures
        (flush_stepped(events) is Commit || flush_stepped(events) is Flushed || flush_stepped(
            events,
        ) is Uncommitted || flush_stepped(events) is Report) ==> acknowledged(events),
    decreases events.len(),
{
    if events.len() > 0 {
        let rest = events.drop_last();
        nothing_is_committed_before_it_is_acknowledged(rest);
        if acknowledged(rest) {
            let i = choose|i: int| 0 <= i < rest.len() && acknowledges(#[trigger] rest[i]);
            assert(events[i] == rest[i]);
        } else {
            assert(events[events.len() - 1] == events.last());
        }
    }
}

} // verus!
