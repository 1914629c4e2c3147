//! What wire bond makes of bonds, over whole runs of records.

use vstd::prelude::*;
use vstd::utf8::*;

use crate::json::{int_view, opt_text_view, JsonView};
use crate::kafka::{
    header_views, json_keyed, metric_view, opt_bytes, ConsumedRecord, HeaderView, KafkaError,
    PartitionCommit,
};
use crate::measure::{is_finite, is_nan, lemma_unsigned, value};
use crate::stations::wire_bond::laws::dealt_with;
use crate::stations::wire_bond::session::{
    all_closed, answer_to, batch_size_of, buried, dead_letter_view, dead_reason, drained, flush_report,
    is_commit_outcome, is_ready, next_flush_step, rebalance_view, sought, started_view, Commit,
    FlushEvent, FlushStep, Rebalance,
};
use crate::stations::wire_bond::window::{
    bonder_of, closed_bonder, is_replay, new_state, time_of, window_closed, window_fields, Bond,
    BonderView, Config, StateView, Stats,
};
use crate::text::{decimal, decimal_reads_back, signed_decimal};

verus! {

// ---------------------------------------------------------------------------
// Runs

/// A record, what its value decodes as, and what is worked out for a window
/// that it ends.
pub struct Taken {
    pub rec: ConsumedRecord,
    pub decoded: Result<Bond, String>,
    pub stats: Stats,
}

/// Whether a record holds a bond of a bonder.
pub open spec fn is_bond_of(t: Taken, id: u32) -> bool {
    &&& t.rec.value is Some
    &&& t.decoded is Ok
    &&& t.decoded->Ok_0.bonder == id
    &&& is_finite(t.decoded->Ok_0.us_w.bits)
    &&& is_finite(t.decoded->Ok_0.force_gf.bits)
}

/// When a record was made.
pub open spec fn at(t: Taken) -> int {
    match t.rec.timestamp {
        Some(ts) => ts as int,
        None => 0,
    }
}

/// The power of each bond of a bonder in a run, in their order.
pub open spec fn powers(run: Seq<Taken>, id: u32) -> Seq<u64>
    decreases run.len(),
{
    if run.len() == 0 {
        Seq::empty()
    } else if is_bond_of(run.last(), id) {
        powers(run.drop_last(), id).push(run.last().decoded->Ok_0.us_w.bits)
    } else {
        powers(run.drop_last(), id)
    }
}

/// The force of each bond of a bonder in a run, in their order.
pub open spec fn forces(run: Seq<Taken>, id: u32) -> Seq<u64>
    decreases run.len(),
{
    if run.len() == 0 {
        Seq::empty()
    } else if is_bond_of(run.last(), id) {
        forces(run.drop_last(), id).push(run.last().decoded->Ok_0.force_gf.bits)
    } else {
        forces(run.drop_last(), id)
    }
}

/// The state after a run of records, each with its dead letter where it is to
/// be one.
pub open spec fn run_through(st: StateView, cfg: Config, run: Seq<Taken>) -> StateView
    decreases run.len(),
{
    if run.len() == 0 {
        st
    } else {
        let t = run.last();
        dealt_with(run_through(st, cfg, run.drop_last()), cfg, t.rec, t.decoded, t.stats)
    }
}

/// What a record that is no bond of a bonder does to it: nothing.
proof fn lemma_others_leave_it(st: StateView, cfg: Config, t: Taken, id: u32)
    requires
        !is_bond_of(t, id),
    ensures
        bonder_of(dealt_with(st, cfg, t.rec, t.decoded, t.stats), id) == bonder_of(st, id),
{
}

/// A run without a bond of a bonder leaves what is known of it as it was.
pub proof fn bonders_are_told_apart(st: StateView, cfg: Config, run: Seq<Taken>, id: u32)
    requires
        forall|i: int| 0 <= i < run.len() ==> !is_bond_of(#[trigger] run[i], id),
    ensures
        bonder_of(run_through(st, cfg, run), id) == bonder_of(st, id),
        powers(run, id).len() == 0,
        forces(run, id).len() == 0,
    decreases run.len(),
{
    if run.len() > 0 {
        let rest = run.drop_last();
        assert forall|i: int| 0 <= i < rest.len() implies !is_bond_of(#[trigger] rest[i], id) by {
            assert(rest[i] == run[i]);
        }
        bonders_are_told_apart(st, cfg, rest, id);
        assert(!is_bond_of(run[run.len() - 1], id));
        lemma_others_leave_it(run_through(st, cfg, rest), cfg, run.last(), id);
    }
}

/// The open window of a bonder holds its bonds: over a run of records of any
/// bonders in which none ends the window of this one, its power row is the
/// power of its bonds in their order, and its force row their force. The
/// window opens at the first of them, on the partition that one came from.
pub proof fn an_open_window_holds_its_bonds(
    st: StateView,
    cfg: Config,
    run: Seq<Taken>,
    id: u32,
    first: int,
)
    requires
        bonder_of(st, id).window.start is None,
        bonder_of(st, id).window.power.len() == 0,
        bonder_of(st, id).window.force.len() == 0,
        0 <= first < run.len(),
        is_bond_of(run[first], id),
        forall|i: int| 0 <= i < first ==> !is_bond_of(#[trigger] run[i], id),
        forall|i: int|
            first < i < run.len() && is_bond_of(#[trigger] run[i], id) ==> at(run[i]) - at(
                run[first],
            ) < cfg.window_ms && at(run[first]) - at(run[i]) <= cfg.window_ms,
    ensures
        ({
            let b = bonder_of(run_through(st, cfg, run), id);
            &&& b.window.power == powers(run, id)
            &&& b.window.force == forces(run, id)
            &&& b.window.start matches Some(s) && s == at(run[first])
            &&& b.window.partition == run[first].rec.partition
            &&& b.windows == bonder_of(st, id).windows
            &&& b.nsop_windows == bonder_of(st, id).nsop_windows
            &&& b.trailing == bonder_of(st, id).trailing
            &&& b.replayed == bonder_of(st, id).replayed
        }),
    decreases run.len(),
{
    let rest = run.drop_last();
    let last = run.len() - 1;
    let before = run_through(st, cfg, rest);
    let t = run.last();
    assert forall|i: int| 0 <= i < rest.len() implies #[trigger] rest[i] == run[i] by {}
    assert(run[last] == t);
    if first == last {
        bonders_are_told_apart(st, cfg, rest, id);
        assert(powers(rest, id) =~= Seq::empty());
        assert(forces(rest, id) =~= Seq::empty());
        assert(bonder_of(before, id).window.power =~= Seq::empty());
        assert(bonder_of(before, id).window.force =~= Seq::empty());
    } else {
        an_open_window_holds_its_bonds(st, cfg, rest, id, first);
        if !is_bond_of(t, id) {
            lemma_others_leave_it(before, cfg, t, id);
        }
    }
}

/// A window lasts as long as it is set to: the first bond that comes so long
/// after the one that opened it, or more than that before it, closes it and
/// opens the next; any other is added to it, and nothing is put out. What is
/// put out of a window that was closed so ends with the bond that closed it.
pub proof fn a_window_lasts_its_time(st: StateView, cfg: Config, t: Taken, id: u32)
    requires
        is_bond_of(t, id),
        bonder_of(st, id).window.start is Some,
        bonder_of(st, id).window.power.len() > 0,
        i64::MIN <= at(t) - bonder_of(st, id).window.start->0 <= i64::MAX,
        i64::MIN <= bonder_of(st, id).window.start->0 - at(t) <= i64::MAX,
    ensures
        ({
            let s = bonder_of(st, id).window.start->0;
            let had = bonder_of(st, id);
            let bond = t.decoded->Ok_0;
            let after = run_through(st, cfg, seq![t]);
            let b = bonder_of(after, id);
            if at(t) - s >= cfg.window_ms || s - at(t) > cfg.window_ms {
                &&& after.pending == st.pending.push(
                    json_keyed(
                        decimal(id as nat),
                        JsonView::Object(
                            window_fields(id, had, t.stats, cfg, at(t) as i64, "window"@),
                        ),
                    ),
                )
                &&& b.windows == had.windows.wrapping_add(1)
                &&& b.window.start matches Some(now) && now == at(t)
                &&& b.window.partition == t.rec.partition
                &&& b.window.power == seq![bond.us_w.bits]
                &&& b.window.force == seq![bond.force_gf.bits]
            } else {
                &&& after.pending == st.pending
                &&& after.metrics == st.metrics
                &&& after.seek_request == st.seek_request
                &&& b.windows == had.windows
                &&& b.window.start == Some(s)
                &&& b.window.partition == had.window.partition
                &&& b.window.power == had.window.power.push(bond.us_w.bits)
                &&& b.window.force == had.window.force.push(bond.force_gf.bits)
            }
        }),
{
    let run = seq![t];
    assert(run.drop_last() =~= Seq::<Taken>::empty());
    assert(run.last() == t);
    assert(run_through(st, cfg, run.drop_last()) == st);
    let b = bonder_of(run_through(st, cfg, run), id);
    let s = bonder_of(st, id).window.start->0;
    if at(t) - s >= cfg.window_ms || s - at(t) > cfg.window_ms {
        assert(b.window.power =~= seq![t.decoded->Ok_0.us_w.bits]);
        assert(b.window.force =~= seq![t.decoded->Ok_0.force_gf.bits]);
    }
}

// ---------------------------------------------------------------------------
// Closed windows

/// Whether the power of a window is off its bonder's trailing mean by more
/// than the threshold, downwards.
pub open spec fn is_sag(b: BonderView, stats: Stats, cfg: Config) -> bool {
    &&& b.trailing is Some
    &&& !is_nan(stats.delta.bits)
    &&& !is_nan(cfg.nsop_pct.bits)
    &&& value(stats.delta.bits) < -value(cfg.nsop_pct.bits)
}

/// Whether it is off by less than half of the threshold, either way.
pub open spec fn is_near(stats: Stats, cfg: Config) -> bool {
    &&& !is_nan(stats.delta.bits)
    &&& !is_nan(cfg.nsop_pct.bits)
    &&& -value(cfg.nsop_pct.bits) < 2 * value(stats.delta.bits) < value(cfg.nsop_pct.bits)
}

/// A window that is closed moves its bonder on: one window more, one alarm
/// more where its power sagged by more than the threshold against the
/// trailing mean, and a new trailing mean where there was none or the window
/// is near it. A bonder alarms only against a trailing mean.
pub proof fn a_closed_window_moves_its_bonder_on(b: BonderView, stats: Stats, cfg: Config)
    ensures
        ({
            let after = closed_bonder(b, stats, cfg);
            &&& after.windows == b.windows.wrapping_add(1)
            &&& after.nsop_windows == if is_sag(b, stats, cfg) {
                b.nsop_windows.wrapping_add(1)
            } else {
                b.nsop_windows
            }
            &&& after.trailing == if b.trailing is None || is_near(stats, cfg) {
                Some(stats.trailing@)
            } else {
                b.trailing
            }
            &&& after.replayed == (b.replayed || is_sag(b, stats, cfg))
            &&& after.window.start is None
            &&& after.window.power.len() == 0
            &&& after.window.force.len() == 0
        }),
{
    lemma_unsigned(stats.delta.bits);
}

/// A window is put out under its bonder: from when to when it lasted, how
/// many bonds it holds, what was worked out of their power and force, and
/// whether the power sagged. It is reported the same way, and a sag as a
/// fault besides. The first sag of a bonder asks for a replay, on the
/// partition of the window, from as long before its end as is set.
pub proof fn a_closed_window_is_put_out(
    st: StateView,
    cfg: Config,
    id: u32,
    end_ts: i64,
    reason: Seq<char>,
    stats: Stats,
)
    requires
        st.bonders.dom().contains(id),
        st.bonders[id].window.start is Some,
        st.bonders[id].window.power.len() > 0,
    ensures
        ({
            let b = st.bonders[id];
            let after = window_closed(st, cfg, id, end_ts, reason, stats);
            let sag = is_sag(b, stats, cfg);
            &&& exists|f: Map<Seq<char>, JsonView>|
                #![trigger json_keyed(decimal(id as nat), JsonView::Object(f))]
                {
                    &&& after.pending == st.pending.push(
                        json_keyed(decimal(id as nat), JsonView::Object(f)),
                    )
                    &&& after.metrics.len() == st.metrics.len() + if sag {
                        2int
                    } else {
                        1int
                    }
                    &&& after.metrics[st.metrics.len() as int] == metric_view(
                        "st03"@,
                        "window"@,
                        Some(end_ts),
                        f,
                    )
                    &&& f["bonder"@] == JsonView::Uint(id as u64)
                    &&& f["window_start"@] == int_view(b.window.start->0)
                    &&& f["window_end"@] == int_view(end_ts)
                    &&& f["n"@] == JsonView::Uint(b.window.power.len() as u64)
                    &&& f["us_w_mean"@] == stats.power_mean@
                    &&& f["us_w_sd"@] == stats.power_sd@
                    &&& f["force_mean"@] == stats.force_mean@
                    &&& f["force_sd"@] == stats.force_sd@
                    &&& f["power_delta_pct"@] == if b.trailing is Some {
                        JsonView::Real(stats.delta.json@)
                    } else {
                        JsonView::Null
                    }
                    &&& f["trailing_us_w"@] == if b.trailing is None || is_near(stats, cfg) {
                        JsonView::Real(stats.trailing.json@)
                    } else {
                        JsonView::Real(b.trailing->0.json)
                    }
                    &&& f["nsop"@] == JsonView::Bool(sag)
                    &&& f["closed_by"@] == JsonView::Str(reason)
                }
            &&& sag ==> exists|g: Map<Seq<char>, JsonView>|
                #![trigger metric_view("st03"@, "fault"@, Some(end_ts), g)]
                {
                    &&& after.metrics.last() == metric_view("st03"@, "fault"@, Some(end_ts), g)
                    &&& g["severity"@] == JsonView::Str("crit"@)
                    &&& g["bonder"@] == JsonView::Uint(id as u64)
                    &&& g["text"@] == JsonView::Str(
                        "bonder "@ + decimal(id as nat) + " NSOP — transducer power "@
                            + stats.delta.shown@ + if b.replayed {
                            "%"@
                        } else {
                            "%; replaying last 60 s by seek"@
                        },
                    )
                }
            &&& after.seek_request == if sag && !b.replayed {
                Some((b.window.partition, end_ts.wrapping_sub(cfg.replay_ms), id))
            } else {
                st.seek_request
            }
            &&& after.consumed == st.consumed
            &&& after.replayed == st.replayed
            &&& after.dlq == st.dlq
            &&& after.high_water == st.high_water
        }),
{
    let b = st.bonders[id];
    let after = window_closed(st, cfg, id, end_ts, reason, stats);
    lemma_unsigned(stats.delta.bits);
    reveal_strlit("bonder");
    reveal_strlit("window_start");
    reveal_strlit("window_end");
    reveal_strlit("n");
    reveal_strlit("us_w_mean");
    reveal_strlit("us_w_sd");
    reveal_strlit("force_mean");
    reveal_strlit("force_sd");
    reveal_strlit("trailing_us_w");
    reveal_strlit("power_delta_pct");
    reveal_strlit("nsop");
    reveal_strlit("closed_by");
    reveal_strlit("severity");
    reveal_strlit("text");
    assert("bonder"@.len() == 6 && "window_start"@.len() == 12 && "window_end"@.len() == 10
        && "n"@.len() == 1 && "us_w_mean"@.len() == 9 && "us_w_sd"@.len() == 7
        && "force_mean"@.len() == 10 && "force_sd"@.len() == 8 && "trailing_us_w"@.len() == 13
        && "power_delta_pct"@.len() == 15 && "nsop"@.len() == 4 && "closed_by"@.len() == 9
        && "severity"@.len() == 8 && "text"@.len() == 4);
    assert("window_end"@[0] == 'w');
    assert("force_mean"@[0] == 'f');
    assert("us_w_mean"@[0] == 'u');
    assert("closed_by"@[0] == 'c');
    assert("force_sd"@[0] == 'f');
    assert("severity"@[0] == 's');
    assert("nsop"@[0] == 'n');
    assert("text"@[0] == 't');
    let f = window_fields(id, b, stats, cfg, end_ts, reason);
    assert(after.pending == st.pending.push(json_keyed(decimal(id as nat), JsonView::Object(f))));
    assert(after.metrics[st.metrics.len() as int] == metric_view(
        "st03"@,
        "window"@,
        Some(end_ts),
        f,
    ));
    if is_sag(b, stats, cfg) {
        let g = Map::<Seq<char>, JsonView>::empty().insert(
            "severity"@,
            JsonView::Str("crit"@),
        ).insert("bonder"@, JsonView::Uint(id as u64)).insert(
            "text"@,
            JsonView::Str(
                crate::stations::wire_bond::window::sag_text(id, stats.delta.shown@, !b.replayed),
            ),
        );
        assert(after.metrics.last() == metric_view("st03"@, "fault"@, Some(end_ts), g));
    }
}

/// Windows that go with their partitions end when they would have: each is
/// put out once, in the order of the bonders.
pub proof fn a_revoked_window_ends_when_it_would_have(
    st: StateView,
    cfg: Config,
    ids: Seq<u32>,
    reason: Seq<char>,
    stats: Seq<Stats>,
)
    requires
        ids.no_duplicates(),
        forall|i: int|
            0 <= i < ids.len() ==> st.bonders.dom().contains(#[trigger] ids[i])
                && st.bonders[ids[i]].window.start is Some && st.bonders[ids[i]].window.power.len()
                > 0 && st.bonders[ids[i]].window.start->0 + cfg.window_ms <= i64::MAX
                && st.bonders[ids[i]].window.start->0 + cfg.window_ms >= i64::MIN,
    ensures
        ({
            let after = all_closed(st, cfg, ids, reason, stats);
            &&& after.pending.len() == st.pending.len() + ids.len()
            &&& forall|i: int|
                0 <= i < ids.len() ==> #[trigger] after.pending[st.pending.len() + i]
                    == json_keyed(
                    decimal(ids[i] as nat),
                    JsonView::Object(
                        window_fields(
                            ids[i],
                            st.bonders[ids[i]],
                            stats[i],
                            cfg,
                            (st.bonders[ids[i]].window.start->0 + cfg.window_ms) as i64,
                            reason,
                        ),
                    ),
                )
            &&& forall|i: int|
                0 <= i < st.pending.len() ==> #[trigger] after.pending[i] == st.pending[i]
            &&& forall|other: u32|
                !ids.contains(other) ==> #[trigger] bonder_of(after, other) == bonder_of(st, other)
        }),
    decreases ids.len(),
{
    if ids.len() > 0 {
        let rest = ids.drop_last();
        let last = ids.len() - 1;
        assert forall|i: int| 0 <= i < rest.len() implies #[trigger] rest[i] == ids[i] by {}
        a_revoked_window_ends_when_it_would_have(st, cfg, rest, reason, stats);
        let before = all_closed(st, cfg, rest, reason, stats);
        let id = ids.last();
        assert(ids[last] == id);
        assert(!rest.contains(id)) by {
            if rest.contains(id) {
                let j = choose|j: int| 0 <= j < rest.len() && rest[j] == id;
                assert(ids[j] == ids[last]);
            }
        }
        assert(bonder_of(before, id) == bonder_of(st, id));
        lemma_still_known(st, cfg, rest, reason, stats, id);
        assert forall|other: u32| !ids.contains(other) implies #[trigger] bonder_of(
            all_closed(st, cfg, ids, reason, stats),
            other,
        ) == bonder_of(st, other) by {
            assert(other != id) by {
                assert(ids.contains(id));
            }
            assert(!rest.contains(other)) by {
                if rest.contains(other) {
                    let j = choose|j: int| 0 <= j < rest.len() && rest[j] == other;
                    assert(ids[j] == other);
                }
            }
            assert(bonder_of(before, other) == bonder_of(st, other));
        }
    }
}

proof fn lemma_still_known(
    st: StateView,
    cfg: Config,
    ids: Seq<u32>,
    reason: Seq<char>,
    stats: Seq<Stats>,
    id: u32,
)
    ensures
        all_closed(st, cfg, ids, reason, stats).bonders.dom().contains(id)
            <==> st.bonders.dom().contains(id),
    decreases ids.len(),
{
    if ids.len() > 0 {
        lemma_still_known(st, cfg, ids.drop_last(), reason, stats, id);
    }
}

// ---------------------------------------------------------------------------
// Counts

/// Whether a record of a run comes again: one of its partition with the same
/// offset or a higher one came before it. Offsets start at zero.
pub open spec fn comes_again(run: Seq<Taken>, rec: ConsumedRecord) -> bool {
    rec.offset < 0 || exists|j: int|
        0 <= j < run.len() && (#[trigger] run[j]).rec.partition == rec.partition && rec.offset
            <= run[j].rec.offset
}

/// Whether a record has a value that is no bond.
pub open spec fn is_no_bond(t: Taken) -> bool {
    t.rec.value is Some && !(t.decoded is Ok && is_finite(t.decoded->Ok_0.us_w.bits) && is_finite(
        t.decoded->Ok_0.force_gf.bits,
    ))
}

/// How many records of a run come again.
pub open spec fn repeats(run: Seq<Taken>) -> nat
    decreases run.len(),
{
    if run.len() == 0 {
        0
    } else {
        repeats(run.drop_last()) + if comes_again(run.drop_last(), run.last().rec) {
            1nat
        } else {
            0nat
        }
    }
}

/// How many new records of a run are no bonds.
pub open spec fn new_malformed(run: Seq<Taken>) -> nat
    decreases run.len(),
{
    if run.len() == 0 {
        0
    } else {
        new_malformed(run.drop_last()) + if !comes_again(run.drop_last(), run.last().rec)
            && is_no_bond(run.last()) {
            1nat
        } else {
            0nat
        }
    }
}

/// Over a run from the start, every record that comes again counts as
/// replayed, every other that is malformed as dead-lettered, and the rest as
/// consumed: together that is every record of the run.
pub proof fn a_run_counts_every_record(cfg: Config, run: Seq<Taken>)
    requires
        run.len() <= u64::MAX,
    ensures
        ({
            let after = run_through(new_state(), cfg, run);
            &&& after.replayed == repeats(run)
            &&& after.dlq == new_malformed(run)
            &&& after.consumed == run.len() - repeats(run) - new_malformed(run)
            &&& forall|rec: ConsumedRecord|
                #[trigger] is_replay(after, rec) <==> comes_again(run, rec)
        }),
    decreases run.len(),
{
    if run.len() > 0 {
        let rest = run.drop_last();
        let t = run.last();
        a_run_counts_every_record(cfg, rest);
        let before = run_through(new_state(), cfg, rest);
        let after = run_through(new_state(), cfg, run);
        lemma_counts_are_bounded(rest);
        assert(is_replay(before, t.rec) <==> comes_again(rest, t.rec));
        assert(crate::stations::wire_bond::session::bond_fault(t.decoded) is Some && t.rec.value
            is Some <==> is_no_bond(t));
        crate::stations::wire_bond::laws::every_record_counts_once(
            before,
            cfg,
            t.rec,
            t.decoded,
            t.stats,
        );
        assert forall|rec: ConsumedRecord|
            #[trigger] is_replay(after, rec) <==> comes_again(run, rec) by {
            lemma_marked(before, cfg, t);
            assert(is_replay(before, rec) <==> comes_again(rest, rec));
            if comes_again(rest, rec) && rec.offset >= 0 {
                let j = choose|j: int|
                    0 <= j < rest.len() && (#[trigger] rest[j]).rec.partition == rec.partition
                        && rec.offset <= rest[j].rec.offset;
                assert(run[j] == rest[j]);
            }
            if comes_again(run, rec) && rec.offset >= 0 {
                let j = choose|j: int|
                    0 <= j < run.len() && (#[trigger] run[j]).rec.partition == rec.partition
                        && rec.offset <= run[j].rec.offset;
                if j < rest.len() {
                    assert(rest[j] == run[j]);
                }
            }
            if t.rec.partition == rec.partition && rec.offset <= t.rec.offset {
                assert(run[run.len() - 1] == t);
            }
            assert(is_replay(before, t.rec) ==> t.rec.offset
                <= crate::stations::wire_bond::window::mark_of(
                before.high_water,
                t.rec.partition,
            ));
        }
    } else {
        assert forall|rec: ConsumedRecord|
            #[trigger] is_replay(new_state(), rec) <==> comes_again(run, rec) by {}
    }
}

proof fn lemma_marked(st: StateView, cfg: Config, t: Taken)
    ensures
        dealt_with(st, cfg, t.rec, t.decoded, t.stats).high_water
            == crate::stations::wire_bond::window::marked(st, t.rec),
{
}

proof fn lemma_counts_are_bounded(run: Seq<Taken>)
    ensures
        repeats(run) + new_malformed(run) <= run.len(),
    decreases run.len(),
{
    if run.len() > 0 {
        lemma_counts_are_bounded(run.drop_last());
    }
}

// ---------------------------------------------------------------------------
// Dead letters

/// A dead letter is the record as it came, with its key, its value and its
/// headers, and behind these the reason and where it came from.
pub proof fn a_dead_letter_is_the_record(rec: ConsumedRecord, reason: Seq<char>)
    ensures
        ({
            let d = dead_letter_view(rec, reason);
            let n = rec.headers@.len() as int;
            &&& d.key == opt_bytes(rec.key)
            &&& d.value == opt_bytes(rec.value)
            &&& d.partition is None && d.timestamp is None
            &&& d.headers.len() == n + 4
            &&& d.headers.take(n) == header_views(rec.headers@)
            &&& d.headers[n] == (HeaderView {
                key: "x-dlq-reason"@,
                value: Some(encode_utf8(reason)),
            })
            &&& d.headers[n + 1] == (HeaderView {
                key: "x-origin-topic"@,
                value: Some(encode_utf8(rec.topic@)),
            })
            &&& d.headers[n + 2] == (HeaderView {
                key: "x-origin-partition"@,
                value: Some(encode_utf8(signed_decimal(rec.partition as int))),
            })
            &&& d.headers[n + 3] == (HeaderView {
                key: "x-origin-offset"@,
                value: Some(encode_utf8(signed_decimal(rec.offset as int))),
            })
        }),
{
    assert(dead_letter_view(rec, reason).headers.take(rec.headers@.len() as int) =~= header_views(
        rec.headers@,
    ));
}

/// A record is to be dead-lettered exactly where it is new and no bond; the
/// reason is why it does not decode, or that a reading of it is not finite.
pub proof fn what_is_no_bond_is_dead_lettered(run: Seq<Taken>, cfg: Config, t: Taken)
    requires
        run.len() <= u64::MAX,
    ensures
        ({
            let why = dead_reason(run_through(new_state(), cfg, run), t.rec, t.decoded);
            &&& why is Some <==> !comes_again(run, t.rec) && is_no_bond(t)
            &&& why is Some && t.decoded is Err ==> why->0 == "bad bond: "@ + t.decoded->Err_0@
            &&& why is Some && t.decoded is Ok ==> why->0 == "non-finite reading"@
        }),
{
    a_run_counts_every_record(cfg, run);
}

/// A dead letter is reported as one, with the reason and where it came from.
pub proof fn a_dead_letter_is_reported(st: StateView, rec: ConsumedRecord, reason: Seq<char>)
    ensures
        ({
            let after = buried(st, rec, reason);
            exists|f: Map<Seq<char>, JsonView>, o: Map<Seq<char>, JsonView>|
                #![trigger metric_view("st03"@, "dlq"@, rec.timestamp, f), o.dom()]
                {
                    &&& after.metrics == st.metrics.push(
                        metric_view("st03"@, "dlq"@, rec.timestamp, f),
                    )
                    &&& f["n"@] == JsonView::Uint(1)
                    &&& f["reason"@] == JsonView::Str(reason)
                    &&& f["origin"@] == JsonView::Object(o)
                    &&& o["topic"@] == JsonView::Str(rec.topic@)
                    &&& o["partition"@] == int_view(rec.partition as i64)
                    &&& o["offset"@] == int_view(rec.offset)
                }
        }),
        buried(st, rec, reason).dlq == st.dlq.wrapping_add(1),
        buried(st, rec, reason).bonders == st.bonders,
        buried(st, rec, reason).pending == st.pending,
{
    reveal_strlit("n");
    reveal_strlit("reason");
    reveal_strlit("origin");
    reveal_strlit("topic");
    reveal_strlit("partition");
    reveal_strlit("offset");
    assert("n"@.len() == 1 && "reason"@.len() == 6 && "origin"@.len() == 6 && "topic"@.len() == 5
        && "partition"@.len() == 9 && "offset"@.len() == 6);
    assert("reason"@[0] == 'r');
    assert("origin"@[0] == 'o');
    assert("offset"@[0] == 'o');
    assert("origin"@[1] == 'r');
    assert("offset"@[1] == 'f');
    let o = Map::<Seq<char>, JsonView>::empty().insert("topic"@, JsonView::Str(rec.topic@)).insert(
        "partition"@,
        int_view(rec.partition as i64),
    ).insert("offset"@, int_view(rec.offset));
    let f = Map::<Seq<char>, JsonView>::empty().insert("n"@, JsonView::Uint(1)).insert(
        "reason"@,
        JsonView::Str(reason),
    ).insert("origin"@, JsonView::Object(o));
    assert(buried(st, rec, reason).metrics == st.metrics.push(
        metric_view("st03"@, "dlq"@, rec.timestamp, f),
    ));
    assert(o.dom() =~= o.dom());
}

// ---------------------------------------------------------------------------
// Flushes, commits, rebalances, seeks

/// A flush reports what had gathered, and behind it how many records were
/// consumed and how many replayed, and how many windows were put out on which
/// topic. What is zero is left out, but the consumed beside the replayed.
pub proof fn a_flush_reports_its_counts(
    metrics: Seq<crate::kafka::ProduceView>,
    consumed: u64,
    replayed: u64,
    produced: u64,
    topic: Seq<char>,
)
    ensures
        ({
            let out = flush_report(metrics, consumed, replayed, produced, topic);
            let n = metrics.len() as int;
            let counts = |k: u64| Map::<Seq<char>, JsonView>::empty().insert("n"@, JsonView::Uint(k));
            let a: int = if consumed > 0 || replayed > 0 {
                1
            } else {
                0
            };
            let b: int = if replayed > 0 {
                1
            } else {
                0
            };
            let c: int = if produced > 0 {
                1
            } else {
                0
            };
            &&& out.len() == n + a + b + c
            &&& out.take(n) == metrics
            &&& a == 1 ==> out[n] == metric_view("st03"@, "consumed"@, None, counts(consumed))
            &&& b == 1 ==> out[n + a] == metric_view("st03"@, "replayed"@, None, counts(replayed))
            &&& c == 1 ==> exists|f: Map<Seq<char>, JsonView>|
                #![trigger metric_view("st03"@, "produced"@, None, f)]
                {
                    &&& out[n + a + b] == metric_view("st03"@, "produced"@, None, f)
                    &&& f["n"@] == JsonView::Uint(produced)
                    &&& f["topic"@] == JsonView::Str(topic)
                }
        }),
{
    let out = flush_report(metrics, consumed, replayed, produced, topic);
    reveal_strlit("n");
    reveal_strlit("topic");
    assert("n"@.len() == 1 && "topic"@.len() == 5);
    assert(out.take(metrics.len() as int) =~= metrics);
    if produced > 0 {
        let f = Map::<Seq<char>, JsonView>::empty().insert("topic"@, JsonView::Str(topic)).insert(
            "n"@,
            JsonView::Uint(produced),
        );
        assert(out.last() == metric_view("st03"@, "produced"@, None, f));
    }
}

/// A commit is done exactly where nothing failed but for want of an offset;
/// it is left to the next flush where the whole of it failed for now, and
/// ends the session where it failed for good or on a partition.
pub proof fn a_commit_is_judged_by_its_errors(
    r: Result<Vec<PartitionCommit>, KafkaError>,
    c: Commit,
)
    requires
        is_commit_outcome(r, c),
    ensures
        r is Err && r->Err_0.code@ == "NoOffset"@ ==> c is Done,
        r is Err && r->Err_0.code@ != "NoOffset"@ && !r->Err_0.fatal ==> c is Deferred,
        r is Err && r->Err_0.code@ != "NoOffset"@ && r->Err_0.fatal ==> c is Failed,
        r is Ok ==> (c is Done <==> forall|i: int|
            0 <= i < r->Ok_0@.len() ==> ((#[trigger] r->Ok_0@[i]).error is None
                || r->Ok_0@[i].error->0@ == "NoOffset"@)),
        r is Ok ==> !(c is Deferred),
{
    if r is Ok {
        let results = r->Ok_0@;
        if c is Failed {
            let i = choose|i: int|
                crate::kafka::is_first_failed(results, i) && c->Failed_0@
                    == crate::stations::wire_bond::session::commit_text(results[i]);
            assert(crate::kafka::commit_failed(results[i]));
        }
        assert forall|i: int| 0 <= i < results.len() && c is Done implies ((
        #[trigger] results[i]).error is None || results[i].error->0@ == "NoOffset"@) by {
            assert(!crate::kafka::commit_failed(results[i]));
        }
    }
}

/// A rebalance is answered in kind: piece by piece under the cooperative
/// protocol and as a whole under the eager one, taking partitions on where
/// they are assigned, and giving them up where they are revoked or lost.
pub proof fn a_rebalance_is_answered_in_kind(r: Rebalance, cooperative: bool)
    ensures
        cooperative <==> (answer_to(r, cooperative) is IncrementalAssign || answer_to(
            r,
            cooperative,
        ) is IncrementalUnassign),
        r is Assign <==> (answer_to(r, cooperative) is IncrementalAssign || answer_to(
            r,
            cooperative,
        ) is Assign),
{
}

/// A rebalance is reported with what it was, on which partitions, how many
/// windows went out, under which protocol, and what came of answering it.
pub proof fn a_rebalance_is_reported(
    r: Rebalance,
    partitions: Seq<i32>,
    flushed: usize,
    cooperative: bool,
    error: Option<Seq<char>>,
)
    ensures
        exists|f: Map<Seq<char>, JsonView>, list: Seq<JsonView>|
            #![trigger metric_view("st03"@, "rebalance"@, None, f), list.len()]
            {
                &&& rebalance_view(r, partitions, flushed, cooperative, error) == metric_view(
                    "st03"@,
                    "rebalance"@,
                    None,
                    f,
                )
                &&& f["event"@] == JsonView::Str(
                    if r is Assign {
                        "assign"@
                    } else if r is Revoke {
                        "revoke"@
                    } else {
                        "lost"@
                    },
                )
                &&& f["partitions"@] == JsonView::List(list)
                &&& list.len() == partitions.len()
                &&& forall|i: int|
                    0 <= i < list.len() ==> #[trigger] list[i] == int_view(partitions[i] as i64)
                &&& f["windows_flushed"@] == JsonView::Uint(flushed as u64)
                &&& f["protocol"@] == JsonView::Str(
                    if cooperative {
                        "cooperative"@
                    } else {
                        "eager"@
                    },
                )
                &&& f["applied"@] == JsonView::Bool(error is None)
                &&& f["error"@] == opt_text_view(error)
            },
{
    reveal_strlit("event");
    reveal_strlit("partitions");
    reveal_strlit("windows_flushed");
    reveal_strlit("protocol");
    reveal_strlit("applied");
    reveal_strlit("error");
    assert("event"@.len() == 5 && "partitions"@.len() == 10 && "windows_flushed"@.len() == 15
        && "protocol"@.len() == 8 && "applied"@.len() == 7 && "error"@.len() == 5);
    assert("event"@[1] == 'v');
    assert("error"@[1] == 'r');
    let list = crate::stations::wire_bond::session::partition_list(partitions);
    let f = Map::<Seq<char>, JsonView>::empty().insert(
        "event"@,
        JsonView::Str(crate::stations::wire_bond::session::rebalance_name(r)),
    ).insert("partitions"@, JsonView::List(list)).insert(
        "windows_flushed"@,
        JsonView::Uint(flushed as u64),
    ).insert(
        "protocol"@,
        JsonView::Str(
            if cooperative {
                "cooperative"@
            } else {
                "eager"@
            },
        ),
    ).insert("applied"@, JsonView::Bool(error is None)).insert("error"@, opt_text_view(error));
    assert(rebalance_view(r, partitions, flushed, cooperative, error) == metric_view(
        "st03"@,
        "rebalance"@,
        None,
        f,
    ));
    assert(list.len() == partitions.len());
}

/// A replay that was made counts, and is reported with the bonder it is for,
/// the partition, and from where on; one that was not is a fault, and does not
/// count.
pub proof fn a_replay_is_reported(
    st: StateView,
    request: (i32, i64, u32),
    timestamp: Option<i64>,
    result: Result<i64, String>,
)
    ensures
        ({
            let after = sought(st, request, timestamp, result);
            match result {
                Ok(offset) => {
                    &&& after.seeks == st.seeks.wrapping_add(1)
                    &&& exists|f: Map<Seq<char>, JsonView>|
                        #![trigger metric_view("st03"@, "seek"@, timestamp, f)]
                        {
                            &&& after.metrics == st.metrics.push(
                                metric_view("st03"@, "seek"@, timestamp, f),
                            )
                            &&& f["bonder"@] == JsonView::Uint(request.2 as u64)
                            &&& f["partition"@] == int_view(request.0 as i64)
                            &&& f["to_offset"@] == int_view(offset)
                            &&& f["from_ts"@] == int_view(request.1)
                        }
                },
                Err(why) => {
                    &&& after.seeks == st.seeks
                    &&& exists|f: Map<Seq<char>, JsonView>|
                        #![trigger metric_view("st03"@, "fault"@, timestamp, f)]
                        {
                            &&& after.metrics == st.metrics.push(
                                metric_view("st03"@, "fault"@, timestamp, f),
                            )
                            &&& f["severity"@] == JsonView::Str("warn"@)
                            &&& f["bonder"@] == JsonView::Uint(request.2 as u64)
                            &&& f["text"@] == JsonView::Str("replay seek failed: "@ + why@)
                        }
                },
            }
        }),
        sought(st, request, timestamp, result).bonders == st.bonders,
        sought(st, request, timestamp, result).pending == st.pending,
{
    reveal_strlit("bonder");
    reveal_strlit("partition");
    reveal_strlit("to_offset");
    reveal_strlit("from_ts");
    reveal_strlit("severity");
    reveal_strlit("text");
    assert("bonder"@.len() == 6 && "partition"@.len() == 9 && "to_offset"@.len() == 9
        && "from_ts"@.len() == 7 && "severity"@.len() == 8 && "text"@.len() == 4);
    assert("partition"@[0] == 'p');
    assert("to_offset"@[0] == 't');
    let after = sought(st, request, timestamp, result);
    match result {
        Ok(offset) => {
            let f = Map::<Seq<char>, JsonView>::empty().insert(
                "bonder"@,
                JsonView::Uint(request.2 as u64),
            ).insert("partition"@, int_view(request.0 as i64)).insert(
                "to_offset"@,
                int_view(offset),
            ).insert("from_ts"@, int_view(request.1));
            assert(after.metrics == st.metrics.push(
                metric_view("st03"@, "seek"@, timestamp, f),
            ));
        },
        Err(why) => {
            let f = Map::<Seq<char>, JsonView>::empty().insert(
                "severity"@,
                JsonView::Str("warn"@),
            ).insert("bonder"@, JsonView::Uint(request.2 as u64)).insert(
                "text"@,
                JsonView::Str("replay seek failed: "@ + why@),
            );
            assert(after.metrics == st.metrics.push(
                metric_view("st03"@, "fault"@, timestamp, f),
            ));
        },
    }
}

/// A batch size from one to a hundred is taken as it is written, and any other
/// number gives a hundred.
pub proof fn a_batch_size_is_taken_as_written(n: nat)
    requires
        n <= usize::MAX,
    ensures
        batch_size_of(Some(decimal(n))) == if 1 <= n <= 100 {
            n
        } else {
            100
        },
        batch_size_of(None) == 100,
{
    decimal_reads_back(n as usize);
}

/// A start is told with the batch size, the threshold and the length of a
/// window.
pub proof fn a_start_tells_its_settings(batch: usize, cfg: Config)
    ensures
        exists|f: Map<Seq<char>, JsonView>|
            #![trigger metric_view("st03"@, "started"@, None, f)]
            {
                &&& started_view(batch, cfg) == metric_view("st03"@, "started"@, None, f)
                &&& f["batch_size"@] == JsonView::Uint(batch as u64)
                &&& f["nsop_threshold_pct"@] == JsonView::Real(cfg.nsop_pct.json@)
                &&& f["window_ms"@] == int_view(cfg.window_ms)
            },
{
    reveal_strlit("batch_size");
    reveal_strlit("nsop_threshold_pct");
    reveal_strlit("window_ms");
    assert("batch_size"@.len() == 10 && "nsop_threshold_pct"@.len() == 18
        && "window_ms"@.len() == 9);
    let f = Map::<Seq<char>, JsonView>::empty()
        .insert("batch_size"@, JsonView::Uint(batch as u64))
        .insert("nsop_threshold_pct"@, JsonView::Real(cfg.nsop_pct.json@))
        .insert("window_ms"@, int_view(cfg.window_ms));
    assert(started_view(batch, cfg) == metric_view("st03"@, "started"@, None, f));
}

/// A flush is due as soon as a batch of records has come since the last, or a
/// batch of windows is waiting.
pub proof fn a_flush_is_due_with_a_batch(since_flush: usize, waiting: nat, batch: usize)
    ensures
        since_flush >= batch ==> is_ready(since_flush, waiting, batch),
        waiting >= batch ==> is_ready(since_flush, waiting, batch),
        since_flush < batch && waiting < batch ==> !is_ready(since_flush, waiting, batch),
{
}

/// A flush takes every window and every metric that is waiting, and starts
/// counting anew. What is known of the bonders, and where each partition is
/// handled through, stays.
pub proof fn a_flush_takes_all_that_waits(st: StateView)
    ensures
        ({
            let a = drained(st);
            &&& a.pending.len() == 0
            &&& a.metrics.len() == 0
            &&& a.consumed == 0
            &&& a.replayed == 0
            &&& a == (StateView {
                pending: a.pending,
                metrics: a.metrics,
                consumed: a.consumed,
                replayed: a.replayed,
                ..st
            })
        }),
{
}

/// A failed commit names the first partition that failed, with its error; and
/// where nothing was committed at all, the error of the whole.
pub proof fn a_failed_commit_says_why(
    r: Result<Vec<PartitionCommit>, KafkaError>,
    why: String,
    i: int,
)
    requires
        is_commit_outcome(r, Commit::Failed(why)),
    ensures
        r matches Err(e) ==> why@ == "commit: "@ + e.message@,
        r matches Ok(results) ==> (0 <= i < results@.len() && crate::kafka::commit_failed(
            results@[i],
        ) && (forall|j: int|
            0 <= j < i ==> !crate::kafka::commit_failed(#[trigger] results@[j])) ==> why@
            == "commit: partition "@ + signed_decimal(results@[i].partition as int)
            + " failed: Some("@ + results@[i].error->0@ + ")"@),
{
    if let Ok(results) = r {
        let k = choose|k: int|
            crate::kafka::is_first_failed(results@, k) && why@
                == crate::stations::wire_bond::session::commit_text(results@[k]);
        if 0 <= i < results@.len() && crate::kafka::commit_failed(results@[i]) && (forall|j: int|
            0 <= j < i ==> !crate::kafka::commit_failed(#[trigger] results@[j])) {
            if i < k {
                assert(!crate::kafka::commit_failed(results@[i]));
            }
            if k < i {
                assert(!crate::kafka::commit_failed(results@[k]));
            }
        }
    }
}

/// A flush sends its windows, then its metrics, and commits only behind both.
/// A commit that is left to the next flush ends this one uncommitted; windows
/// that are not taken, and a commit that fails, end the service.
pub proof fn a_flush_sends_before_it_commits(why: String)
    ensures
        next_flush_step(FlushStep::Send, FlushEvent::Sent(Ok(()))) is Report,
        next_flush_step(FlushStep::Send, FlushEvent::Sent(Err(why))) == FlushStep::Exit(why),
        next_flush_step(FlushStep::Report, FlushEvent::Reported) is Commit,
        next_flush_step(FlushStep::Commit, FlushEvent::Committed(Commit::Done)) is Flushed,
        next_flush_step(FlushStep::Commit, FlushEvent::Committed(Commit::Deferred)) is Uncommitted,
        next_flush_step(FlushStep::Commit, FlushEvent::Committed(Commit::Failed(why)))
            == FlushStep::Exit(why),
        forall|step: FlushStep, event: FlushEvent|
            step is Flushed || step is Uncommitted || step is Exit ==> #[trigger] next_flush_step(
                step,
                event,
            ) == step,
{
}

/// A record is of the time it carries, and of the start of time where it
/// carries none.
pub proof fn a_record_is_of_the_time_it_carries(rec: ConsumedRecord)
    ensures
        rec.timestamp matches Some(t) ==> time_of(rec) == t,
        rec.timestamp is None ==> time_of(rec) == 0,
{
}

} // verus!
