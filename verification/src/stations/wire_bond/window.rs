//! The windows of the bonders.

use vstd::prelude::*;
use vstd::string::*;

use crate::json::{int_view, Fields, Json, JsonView};
use crate::kafka::{
    json_keyed, json_record, lemma_produce_views_push, metric, metric_view, produce_views,
    ConsumedRecord, ProduceRecord, ProduceView,
};
use crate::measure::{
    greater, is_within_half, negated, opt_measure, opt_real, real_or_null, value, within_half,
    Measure, MeasureView,
};
use crate::ordered_map::OrderedMap;
use crate::text::{decimal, decimal_text};

verus! {

broadcast use vstd::string::group_string_axioms;

/// How the station is set up.
pub struct Config {
    pub window_ms: i64,
    pub replay_ms: i64,
    /// How much the power may sag, in percent.
    pub nsop_pct: Measure,
}

/// A bond.
pub struct Bond {
    pub bonder: u32,
    pub us_w: Measure,
    pub force_gf: Measure,
}

/// The bonds of a bonder in a window, by the bit patterns of their power and
/// force.
pub struct Window {
    pub start: Option<i64>,
    pub partition: i32,
    pub power: Vec<u64>,
    pub force: Vec<u64>,
}

/// What a window stands for.
#[verifier::ext_equal]
pub struct WindowView {
    pub start: Option<i64>,
    pub partition: i32,
    pub power: Seq<u64>,
    pub force: Seq<u64>,
}

impl View for Window {
    type V = WindowView;

    open spec fn view(&self) -> WindowView {
        WindowView {
            start: self.start,
            partition: self.partition,
            power: self.power@,
            force: self.force@,
        }
    }
}

/// A window that is not open.
pub open spec fn no_window() -> WindowView {
    WindowView { start: None, partition: 0, power: Seq::empty(), force: Seq::empty() }
}

impl Window {
    /// A window that is not open.
    pub fn new() -> (r: Window)
        ensures
            r@ == no_window(),
    {
        let r = Window { start: None, partition: 0, power: Vec::new(), force: Vec::new() };
        assert(r@ =~= no_window());
        r
    }
}

/// What is known of a bonder.
pub struct Bonder {
    pub window: Window,
    /// The trailing mean of its power over healthy windows.
    pub trailing: Option<Measure>,
    pub windows: u64,
    pub nsop_windows: u64,
    /// Whether a replay was asked for on its account.
    pub replayed: bool,
}

/// What a bonder stands for.
#[verifier::ext_equal]
pub struct BonderView {
    pub window: WindowView,
    pub trailing: Option<MeasureView>,
    pub windows: u64,
    pub nsop_windows: u64,
    pub replayed: bool,
}

impl View for Bonder {
    type V = BonderView;

    open spec fn view(&self) -> BonderView {
        BonderView {
            window: self.window@,
            trailing: opt_measure(self.trailing),
            windows: self.windows,
            nsop_windows: self.nsop_windows,
            replayed: self.replayed,
        }
    }
}

/// A bonder nothing is known of.
pub open spec fn new_bonder() -> BonderView {
    BonderView {
        window: no_window(),
        trailing: None,
        windows: 0,
        nsop_windows: 0,
        replayed: false,
    }
}

impl Bonder {
    /// A bonder nothing is known of.
    pub fn new() -> (r: Bonder)
        ensures
            r@ == new_bonder(),
    {
        let r = Bonder {
            window: Window::new(),
            trailing: None,
            windows: 0,
            nsop_windows: 0,
            replayed: false,
        };
        assert(r@ =~= new_bonder());
        r
    }
}

/// The state of the station.
pub struct State {
    pub bonders: OrderedMap<u32, Bonder>,
    /// The highest offset seen of each partition: what lies at or below it is
    /// replayed.
    pub high_water: OrderedMap<i32, i64>,
    /// What is to be sent at the next flush.
    pub pending: Vec<ProduceRecord>,
    /// What is to be reported at the next flush.
    pub metrics: Vec<ProduceRecord>,
    pub consumed: u64,
    pub replayed: u64,
    pub dlq: u64,
    pub rebalances: u64,
    pub seeks: u64,
    /// A replay that is asked for: the partition, from when on, and for which
    /// bonder.
    pub seek_request: Option<(i32, i64, u32)>,
}

/// What the state stands for.
#[verifier::ext_equal]
pub struct StateView {
    pub bonders: Map<u32, BonderView>,
    pub high_water: Map<i32, i64>,
    pub pending: Seq<ProduceView>,
    pub metrics: Seq<ProduceView>,
    pub consumed: u64,
    pub replayed: u64,
    pub dlq: u64,
    pub rebalances: u64,
    pub seeks: u64,
    pub seek_request: Option<(i32, i64, u32)>,
}

/// What bonders stand for.
pub open spec fn bonder_views(m: Map<u32, Bonder>) -> Map<u32, BonderView> {
    m.map_values(|b: Bonder| b@)
}

impl View for State {
    type V = StateView;

    open spec fn view(&self) -> StateView {
        StateView {
            bonders: bonder_views(self.bonders@),
            high_water: self.high_water@,
            pending: produce_views(self.pending@),
            metrics: produce_views(self.metrics@),
            consumed: self.consumed,
            replayed: self.replayed,
            dlq: self.dlq,
            rebalances: self.rebalances,
            seeks: self.seeks,
            seek_request: self.seek_request,
        }
    }
}

/// The state at the start.
pub open spec fn new_state() -> StateView {
    StateView {
        bonders: Map::empty(),
        high_water: Map::empty(),
        pending: Seq::empty(),
        metrics: Seq::empty(),
        consumed: 0,
        replayed: 0,
        dlq: 0,
        rebalances: 0,
        seeks: 0,
        seek_request: None,
    }
}

impl State {
    /// The state at the start.
    pub fn new() -> (r: State)
        ensures
            r@ == new_state(),
    {
        let r = State {
            bonders: OrderedMap::new(),
            high_water: OrderedMap::new(),
            pending: Vec::new(),
            metrics: Vec::new(),
            consumed: 0,
            replayed: 0,
            dlq: 0,
            rebalances: 0,
            seeks: 0,
            seek_request: None,
        };
        assert(r@ =~= new_state());
        r
    }

    /// Puts a metric among those to report.
    pub fn report(&mut self, m: ProduceRecord)
        ensures
            final(self)@ == (StateView { metrics: old(self)@.metrics.push(m@), ..old(self)@ }),
    {
        proof {
            lemma_produce_views_push(self.metrics@, m);
        }
        self.metrics.push(m);
    }

    fn queue(&mut self, r: ProduceRecord)
        ensures
            final(self)@ == (StateView { pending: old(self)@.pending.push(r@), ..old(self)@ }),
    {
        proof {
            lemma_produce_views_push(self.pending@, r);
        }
        self.pending.push(r);
    }

    fn put_bonder(&mut self, id: u32, b: Bonder)
        ensures
            final(self)@ == (StateView { bonders: old(self)@.bonders.insert(id, b@), ..old(self)@ }),
    {
        let ghost before = self.bonders@;
        self.bonders.insert(id, b);
        assert(bonder_views(self.bonders@) =~= bonder_views(before).insert(id, b@));
    }
}

// ---------------------------------------------------------------------------
// Closing a window

/// What is worked out in floating point for a window.
pub struct Stats {
    /// Means and deviations of power and force, rounded to thousandths.
    pub power_mean: Json,
    pub power_sd: Json,
    pub force_mean: Json,
    pub force_sd: Json,
    /// How far the mean power is off the trailing mean, in percent; as JSON
    /// and in sentences rounded to tenths. It counts where there is a
    /// trailing mean.
    pub delta: Measure,
    /// The trailing mean with this window in it; as JSON rounded to
    /// thousandths.
    pub trailing: Measure,
}

/// How far the power is off, where there is a mean to be off from.
pub open spec fn delta_of(b: BonderView, stats: Stats) -> Option<Measure> {
    match b.trailing {
        Some(_) => Some(stats.delta),
        None => None,
    }
}

/// Whether the power sagged by more than it may.
pub open spec fn sagged(delta: Option<Measure>, nsop_pct: Measure) -> bool {
    match delta {
        Some(d) => !crate::measure::is_nan(d.bits) && !crate::measure::is_nan(nsop_pct.bits)
            && value(d.bits) < -value(nsop_pct.bits),
        None => false,
    }
}

/// Whether a window teaches the trailing mean: the first does, and then those
/// whose power is off by less than half of what it may be.
pub open spec fn teaches(delta: Option<Measure>, nsop_pct: Measure) -> bool {
    match delta {
        Some(d) => within_half(d.bits, nsop_pct.bits),
        None => true,
    }
}

/// The bonder after a window of it is closed.
pub open spec fn closed_bonder(b: BonderView, stats: Stats, cfg: Config) -> BonderView {
    let delta = delta_of(b, stats);
    let nsop = sagged(delta, cfg.nsop_pct);
    BonderView {
        window: no_window(),
        trailing: if teaches(delta, cfg.nsop_pct) {
            Some(stats.trailing@)
        } else {
            b.trailing
        },
        windows: b.windows.wrapping_add(1),
        nsop_windows: if nsop {
            b.nsop_windows.wrapping_add(1)
        } else {
            b.nsop_windows
        },
        replayed: b.replayed || nsop,
    }
}

/// What is put out for a window.
pub open spec fn window_fields(
    id: u32,
    b: BonderView,
    stats: Stats,
    cfg: Config,
    end_ts: i64,
    reason: Seq<char>,
) -> Map<Seq<char>, JsonView> {
    let delta = delta_of(b, stats);
    Map::empty().insert("bonder"@, JsonView::Uint(id as u64)).insert(
        "window_start"@,
        int_view(b.window.start->0),
    ).insert("window_end"@, int_view(end_ts)).insert(
        "n"@,
        JsonView::Uint(b.window.power.len() as u64),
    ).insert("us_w_mean"@, stats.power_mean@).insert("us_w_sd"@, stats.power_sd@).insert(
        "force_mean"@,
        stats.force_mean@,
    ).insert("force_sd"@, stats.force_sd@).insert(
        "trailing_us_w"@,
        opt_real(closed_bonder(b, stats, cfg).trailing),
    ).insert("power_delta_pct"@, opt_real(opt_measure(delta))).insert(
        "nsop"@,
        JsonView::Bool(sagged(delta, cfg.nsop_pct)),
    ).insert("closed_by"@, JsonView::Str(reason))
}

/// What is said of a bonder whose power sagged.
pub open spec fn sag_text(id: u32, shown: Seq<char>, first: bool) -> Seq<char> {
    "bonder "@ + decimal(id as nat) + " NSOP — transducer power "@ + shown + if first {
        "%; replaying last 60 s by seek"@
    } else {
        "%"@
    }
}

/// The metrics of a window that is closed.
pub open spec fn window_metrics(
    id: u32,
    b: BonderView,
    stats: Stats,
    cfg: Config,
    end_ts: i64,
    reason: Seq<char>,
) -> Seq<ProduceView> {
    let w = metric_view(
        "st03"@,
        "window"@,
        Some(end_ts),
        window_fields(id, b, stats, cfg, end_ts, reason),
    );
    if sagged(delta_of(b, stats), cfg.nsop_pct) {
        seq![
            w,
            metric_view(
                "st03"@,
                "fault"@,
                Some(end_ts),
                Map::empty().insert("severity"@, JsonView::Str("crit"@)).insert(
                    "bonder"@,
                    JsonView::Uint(id as u64),
                ).insert(
                    "text"@,
                    JsonView::Str(sag_text(id, stats.delta.shown@, !b.replayed)),
                ),
            ),
        ]
    } else {
        seq![w]
    }
}

/// The state after a window of a bonder is closed. A window that is not open,
/// or holds no bond, leaves nothing behind.
pub open spec fn window_closed(
    st: StateView,
    cfg: Config,
    id: u32,
    end_ts: i64,
    reason: Seq<char>,
    stats: Stats,
) -> StateView {
    if !st.bonders.dom().contains(id) {
        st
    } else {
        let b = st.bonders[id];
        if b.window.start is None || b.window.power.len() == 0 {
            StateView {
                bonders: st.bonders.insert(id, BonderView { window: no_window(), ..b }),
                ..st
            }
        } else {
            StateView {
                bonders: st.bonders.insert(id, closed_bonder(b, stats, cfg)),
                pending: st.pending.push(
                    json_keyed(
                        decimal(id as nat),
                        JsonView::Object(window_fields(id, b, stats, cfg, end_ts, reason)),
                    ),
                ),
                metrics: st.metrics + window_metrics(id, b, stats, cfg, end_ts, reason),
                seek_request: if sagged(delta_of(b, stats), cfg.nsop_pct) && !b.replayed {
                    Some((b.window.partition, end_ts.wrapping_sub(cfg.replay_ms), id))
                } else {
                    st.seek_request
                },
                ..st
            }
        }
    }
}

fn has_sagged(delta: u64, nsop_pct: u64) -> (r: bool)
    ensures
        r == (!crate::measure::is_nan(delta) && !crate::measure::is_nan(nsop_pct) && value(delta)
            < -value(nsop_pct)),
{
    greater(negated(nsop_pct), delta)
}

fn sag_report(id: u32, shown: &str, first: bool) -> (r: Fields)
    ensures
        r@ == Map::empty().insert("severity"@, JsonView::Str("crit"@)).insert(
            "bonder"@,
            JsonView::Uint(id as u64),
        ).insert("text"@, JsonView::Str(sag_text(id, shown@, first))),
{
    let mut t = "bonder ".to_owned();
    t.append(decimal_text(id as u64).as_str());
    t.append(" NSOP — transducer power ");
    t.append(shown);
    if first {
        t.append("%; replaying last 60 s by seek");
    } else {
        t.append("%");
    }
    let mut f = Fields::new();
    f.put("severity", Json::text("crit"));
    f.put("bonder", Json::Uint(id as u64));
    f.put("text", Json::Str(t));
    f
}

/// Closes a bonder's window: queues what is put out and reported of it,
/// decides whether the power sagged, and asks for a replay the first time it
/// did.
pub fn close_window(
    st: &mut State,
    cfg: &Config,
    id: u32,
    end_ts: i64,
    reason: &str,
    stats: &Stats,
)
    ensures
        final(st)@ == window_closed(old(st)@, *cfg, id, end_ts, reason@, *stats),
{
    let ghost was = st@;
    let ghost before = st.bonders@;
    let taken = st.bonders.remove(&id);
    let mut b = match taken {
        Some(b) => b,
        None => {
            assert(st.bonders@ =~= before);
            return;
        },
    };
    assert(bonder_views(st.bonders@) =~= was.bonders.remove(id));
    let ghost b0 = b@;
    let mut w = Window::new();
    std::mem::swap(&mut w, &mut b.window);
    let start = match w.start {
        Some(s) => s,
        None => {
            st.put_bonder(id, b);
            assert(was.bonders.remove(id).insert(id, b@) =~= was.bonders.insert(id, b@));
            return;
        },
    };
    if w.power.len() == 0 {
        st.put_bonder(id, b);
        assert(was.bonders.remove(id).insert(id, b@) =~= was.bonders.insert(id, b@));
        return;
    }
    let had = b.trailing.is_some();
    let delta: Option<Measure> = if had {
        Some(stats.delta.copy())
    } else {
        None
    };
    let nsop = had && has_sagged(stats.delta.bits, cfg.nsop_pct.bits);
    let learns = !had || is_within_half(stats.delta.bits, cfg.nsop_pct.bits);
    let first = !b.replayed;
    b.windows = b.windows.wrapping_add(1);
    if nsop {
        b.nsop_windows = b.nsop_windows.wrapping_add(1);
        b.replayed = true;
    }
    if learns {
        b.trailing = Some(stats.trailing.copy());
    }
    assert(b@ =~= closed_bonder(b0, *stats, *cfg));
    let mut f = Fields::new();
    f.put("bonder", Json::Uint(id as u64));
    f.put("window_start", Json::whole(start));
    f.put("window_end", Json::whole(end_ts));
    f.put("n", Json::Uint(w.power.len() as u64));
    f.put("us_w_mean", stats.power_mean.copy());
    f.put("us_w_sd", stats.power_sd.copy());
    f.put("force_mean", stats.force_mean.copy());
    f.put("force_sd", stats.force_sd.copy());
    f.put("trailing_us_w", real_or_null(&b.trailing));
    f.put("power_delta_pct", real_or_null(&delta));
    f.put("nsop", Json::Bool(nsop));
    f.put("closed_by", Json::text(reason));
    assert(f@ =~= window_fields(id, b0, *stats, *cfg, end_ts, reason@));
    let m = metric("st03", "window", Some(end_ts), &f);
    let out = json_record(decimal_text(id as u64).as_str(), &Json::Object(f));
    st.put_bonder(id, b);
    assert(was.bonders.remove(id).insert(id, b@) =~= was.bonders.insert(id, b@));
    st.queue(out);
    st.report(m);
    if nsop {
        let g = sag_report(id, stats.delta.shown.as_str(), first);
        let fault = metric("st03", "fault", Some(end_ts), &g);
        st.report(fault);
        if first {
            st.seek_request = Some((w.partition, end_ts.wrapping_sub(cfg.replay_ms), id));
        }
    }
    proof {
        assert(st@.metrics =~= was.metrics + window_metrics(
            id,
            b0,
            *stats,
            *cfg,
            end_ts,
            reason@,
        ));
        assert(st@ =~= window_closed(was, *cfg, id, end_ts, reason@, *stats));
    }
}

// ---------------------------------------------------------------------------
// Taking a bond

/// The highest offset seen of a partition, minus one where there is none.
pub open spec fn mark_of(high_water: Map<i32, i64>, partition: i32) -> i64 {
    if high_water.dom().contains(partition) {
        high_water[partition]
    } else {
        -1i64
    }
}

/// Whether a record lies at or below the highest offset seen of its
/// partition.
pub open spec fn is_replay(st: StateView, rec: ConsumedRecord) -> bool {
    rec.offset <= mark_of(st.high_water, rec.partition)
}

/// The mark of a partition with a record seen.
pub open spec fn marked(st: StateView, rec: ConsumedRecord) -> Map<i32, i64> {
    st.high_water.insert(
        rec.partition,
        if is_replay(st, rec) {
            mark_of(st.high_water, rec.partition)
        } else {
            rec.offset
        },
    )
}

/// The state with a record counted: as replayed where it was seen before, and
/// otherwise as consumed.
pub open spec fn counted(st: StateView, rec: ConsumedRecord) -> StateView {
    if is_replay(st, rec) {
        StateView {
            high_water: marked(st, rec),
            replayed: st.replayed.wrapping_add(1),
            ..st
        }
    } else {
        StateView {
            high_water: marked(st, rec),
            consumed: st.consumed.wrapping_add(1),
            ..st
        }
    }
}

impl State {
    /// Marks a record as seen, and says whether it was before.
    pub fn mark(&mut self, rec: &ConsumedRecord) -> (again: bool)
        ensures
            again == is_replay(old(self)@, *rec),
            final(self)@ == (StateView {
                high_water: marked(old(self)@, *rec),
                ..old(self)@
            }),
    {
        let seen: i64 = match self.high_water.get(&rec.partition) {
            Some(s) => *s,
            None => -1,
        };
        if rec.offset <= seen {
            self.high_water.insert(rec.partition, seen);
            true
        } else {
            self.high_water.insert(rec.partition, rec.offset);
            false
        }
    }

    /// Counts a record.
    pub fn count(&mut self, rec: &ConsumedRecord)
        ensures
            final(self)@ == counted(old(self)@, *rec),
    {
        if self.mark(rec) {
            self.replayed = self.replayed.wrapping_add(1);
        } else {
            self.consumed = self.consumed.wrapping_add(1);
        }
    }
}

/// What is known of a bonder, or a bonder nothing is known of.
pub open spec fn bonder_of(st: StateView, id: u32) -> BonderView {
    if st.bonders.dom().contains(id) {
        st.bonders[id]
    } else {
        new_bonder()
    }
}

/// Whether a record's time ends a window: the window is over, or the record
/// is from well before it opened.
pub open spec fn ends_window(w: WindowView, cfg: Config, ts: i64) -> bool {
    match w.start {
        Some(s) => ts.wrapping_sub(s) >= cfg.window_ms || s.wrapping_sub(ts) > cfg.window_ms,
        None => false,
    }
}

/// A window with a bond added to it. The first opens it.
pub open spec fn with_bond(w: WindowView, rec: ConsumedRecord, ts: i64, bond: Bond) -> WindowView {
    WindowView {
        start: if w.start is None {
            Some(ts)
        } else {
            w.start
        },
        partition: if w.start is None {
            rec.partition
        } else {
            w.partition
        },
        power: w.power.push(bond.us_w.bits),
        force: w.force.push(bond.force_gf.bits),
    }
}

/// The time of a record, zero where it has none.
pub open spec fn time_of(rec: ConsumedRecord) -> i64 {
    crate::json::or_else(rec.timestamp, 0)
}

/// The state after a bond: its record is counted, a window that it ends is
/// closed, and it is added to the window that is then open.
pub open spec fn ingested(
    st: StateView,
    cfg: Config,
    rec: ConsumedRecord,
    bond: Bond,
    stats: Stats,
) -> StateView {
    let ts = time_of(rec);
    let seen = counted(st, rec);
    let cleared = if ends_window(bonder_of(seen, bond.bonder).window, cfg, ts) {
        window_closed(seen, cfg, bond.bonder, ts, "window"@, stats)
    } else {
        seen
    };
    let b = bonder_of(cleared, bond.bonder);
    StateView {
        bonders: cleared.bonders.insert(
            bond.bonder,
            BonderView { window: with_bond(b.window, rec, ts, bond), ..b },
        ),
        ..cleared
    }
}

/// Whether a bond at a time ends its bonder's window, so that what it held
/// has to be worked out.
pub fn closes(st: &State, cfg: &Config, rec: &ConsumedRecord, id: u32) -> (r: bool)
    ensures
        r == ends_window(bonder_of(st@, id).window, *cfg, time_of(*rec)),
{
    let ts: i64 = match rec.timestamp {
        Some(t) => t,
        None => 0,
    };
    match st.bonders.get(&id) {
        Some(b) => match b.window.start {
            Some(s) => ts.wrapping_sub(s) >= cfg.window_ms || s.wrapping_sub(ts) > cfg.window_ms,
            None => false,
        },
        None => false,
    }
}

/// Takes a bond, given what is worked out for the window that it ends, if it
/// ends one.
pub fn ingest(st: &mut State, cfg: &Config, rec: &ConsumedRecord, bond: &Bond, stats: &Stats)
    ensures
        final(st)@ == ingested(old(st)@, *cfg, *rec, *bond, *stats),
{
    let ts: i64 = match rec.timestamp {
        Some(t) => t,
        None => 0,
    };
    st.count(rec);
    if closes(st, cfg, rec, bond.bonder) {
        close_window(st, cfg, bond.bonder, ts, "window", stats);
    }
    let ghost cleared = st@;
    let ghost before = st.bonders@;
    let mut b = match st.bonders.remove(&bond.bonder) {
        Some(b) => b,
        None => Bonder::new(),
    };
    assert(b@ == bonder_of(cleared, bond.bonder));
    assert(bonder_views(st.bonders@) =~= cleared.bonders.remove(bond.bonder));
    if b.window.start.is_none() {
        b.window.start = Some(ts);
        b.window.partition = rec.partition;
    }
    b.window.power.push(bond.us_w.bits);
    b.window.force.push(bond.force_gf.bits);
    st.put_bonder(bond.bonder, b);
    assert(cleared.bonders.remove(bond.bonder).insert(bond.bonder, b@) =~= cleared.bonders.insert(
        bond.bonder,
        b@,
    ));
}

} // verus!
