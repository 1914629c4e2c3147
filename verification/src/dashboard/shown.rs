//! What the dashboard serves, in terms of what is known.

use vstd::prelude::*;
use vstd::utf8::*;

use super::fold::count_of;
use super::model::{live_ids, new_model, number_in, station_of, ModelView, StationView};
use super::ring::{count_at, count_between, ring_added, RingView};
use super::serve::{
    answer, debug_object, is_open, open_count, state_object, station_object,
    sum_of, total_lag, validate_object, validation_of_intake, Rates,
};
use crate::json::{field, int_view, json_text_of, JsonView};
use crate::ordered_map::{
    a_listing_has_each_element_once, finite_sets_are_listed, listed,
};
use crate::stats::{a_percentile_stands_at_its_rank, ascending, how_many, lemma_how_many};
use crate::text::{a_part_ends_before_its_mark, replaced_all};

verus! {

// ---------------------------------------------------------------------------
// Stations

/// A station is served with its counts, its rates, its faults and its dead
/// letters as they are known, and with each detail that has a name of its
/// own.
pub proof fn a_station_is_served_as_it_is_known(
    id: Seq<char>,
    st: StationView,
    now: i64,
    rates: Rates,
)
    ensures
        ({
            let served = station_object(id, st, now, rates);
            &&& field(served, "consumed"@) == Some(JsonView::Uint(st.consumed))
            &&& field(served, "produced"@) == Some(JsonView::Uint(st.produced))
            &&& field(served, "dlq"@) == Some(JsonView::Uint(st.dlq))
            &&& field(served, "redelivered"@) == Some(JsonView::Uint(st.redelivered))
            &&& field(served, "partial"@) == Some(JsonView::Uint(st.partial))
            &&& field(served, "replayed"@) == Some(JsonView::Uint(st.replayed))
            &&& field(served, "rate_10s"@) == Some(rates.ten_seconds@)
            &&& field(served, "rate_60s"@) == Some(rates.minute@)
            &&& field(served, "instances_ever"@) == Some(JsonView::Uint(st.instances_ever))
            &&& field(served, "last_seen"@) == Some(int_view(st.last_seen))
            &&& field(served, "dead_letters"@) == Some(JsonView::List(st.dead_letters))
            &&& field(served, "faults"@) == Some(JsonView::List(st.faults))
            &&& field(served, "id"@) == Some(JsonView::Str(id))
            &&& field(served, "live_instances"@) == Some(
                JsonView::Uint(live_ids(st.instances, now).len() as u64),
            )
            &&& forall|name: Seq<char>|
                name != "consumed"@ && name != "produced"@ && name != "dlq"@
                    && name != "redelivered"@ && name != "partial"@ && name != "replayed"@
                    && name != "rate_10s"@ && name != "rate_60s"@ && name != "instances_ever"@
                    && name != "last_seen"@ && name != "dead_letters"@ && name != "faults"@
                    && name != "id"@ && name != "per_min"@ && name != "live_instances"@
                    && name != "latency_p50"@ && name != "latency_p95"@
                    ==> #[trigger] field(served, name) == if st.detail.dom().contains(name) {
                    Some(st.detail[name])
                } else {
                    None
                }
        }),
{
    reveal_strlit("consumed");
    reveal_strlit("produced");
    reveal_strlit("dlq");
    reveal_strlit("redelivered");
    reveal_strlit("partial");
    reveal_strlit("replayed");
    reveal_strlit("rate_10s");
    reveal_strlit("rate_60s");
    reveal_strlit("instances_ever");
    reveal_strlit("last_seen");
    reveal_strlit("dead_letters");
    reveal_strlit("faults");
    reveal_strlit("id");
    reveal_strlit("per_min");
    reveal_strlit("live_instances");
    reveal_strlit("latency_p50");
    reveal_strlit("latency_p95");
    assert("consumed"@.len() == 8 && "produced"@.len() == 8 && "dlq"@.len() == 3
        && "redelivered"@.len() == 11 && "partial"@.len() == 7 && "replayed"@.len() == 8
        && "rate_10s"@.len() == 8 && "rate_60s"@.len() == 8 && "instances_ever"@.len() == 14
        && "last_seen"@.len() == 9 && "dead_letters"@.len() == 12 && "faults"@.len() == 6
        && "id"@.len() == 2 && "per_min"@.len() == 7 && "live_instances"@.len() == 14
        && "latency_p50"@.len() == 11 && "latency_p95"@.len() == 11);
    assert("consumed"@[0] == 'c');
    assert("produced"@[0] == 'p');
    assert("replayed"@[0] == 'r');
    assert("rate_10s"@[0] == 'r');
    assert("rate_60s"@[0] == 'r');
    assert("redelivered"@[0] == 'r');
    assert("latency_p50"@[0] == 'l');
    assert("latency_p95"@[0] == 'l');
    assert("partial"@[1] == 'a');
    assert("per_min"@[1] == 'e');
    assert("replayed"@[1] == 'e');
    assert("rate_10s"@[1] == 'a');
    assert("rate_60s"@[1] == 'a');
    assert("rate_10s"@[5] == '1');
    assert("rate_60s"@[5] == '6');
    assert("instances_ever"@[0] == 'i');
    assert("live_instances"@[0] == 'l');
    assert("latency_p50"@[9] == '5');
    assert("latency_p95"@[9] == '9');
}

/// A station is served with what it counted in each of the last 240 minutes,
/// the oldest first and the present one last.
pub proof fn minutes_are_served_oldest_first(
    id: Seq<char>,
    st: StationView,
    now: i64,
    rates: Rates,
    i: int,
)
    requires
        0 <= i < 240,
        now >= 0,
    ensures
        ({
            let served = field(station_object(id, st, now, rates), "per_min"@);
            &&& served matches Some(JsonView::List(row)) && row.len() == 240 && row[i]
                == JsonView::Uint(count_at(st.ring.per_min, now as int / 60000 - (239 - i)))
        }),
{
    reveal_strlit("per_min");
    reveal_strlit("live_instances");
    reveal_strlit("instances_ever");
    reveal_strlit("last_seen");
    reveal_strlit("latency_p50");
    reveal_strlit("latency_p95");
    reveal_strlit("dead_letters");
    reveal_strlit("faults");
    reveal_strlit("id");
    assert("per_min"@.len() == 7 && "live_instances"@.len() == 14 && "instances_ever"@.len() == 14
        && "last_seen"@.len() == 9 && "latency_p50"@.len() == 11 && "latency_p95"@.len() == 11
        && "dead_letters"@.len() == 12 && "faults"@.len() == 6 && "id"@.len() == 2);
    assert("live_instances"@[0] == 'l');
    assert("instances_ever"@[0] == 'i');
    assert("latency_p50"@[9] == '5');
    assert("latency_p95"@[9] == '9');
}

/// An instance is live exactly where it was heard of no longer than thirty
/// seconds ago.
pub proof fn an_instance_is_live_for_thirty_seconds(
    instances: Map<Seq<char>, i64>,
    now: i64,
    id: Seq<char>,
)
    requires
        instances.dom().contains(id) ==> i64::MIN <= now - instances[id] <= i64::MAX,
    ensures
        live_ids(instances, now).contains(id) <==> instances.dom().contains(id) && now
            - instances[id] <= 30 * 1000,
{
}

/// A station is served with the latency that half of its latencies stand
/// before, in ascending order, and with the one that 95 of a hundred do; and
/// with null for each where it has none.
pub proof fn latencies_are_served_by_rank(id: Seq<char>, st: StationView, now: i64, rates: Rates)
    ensures
        ({
            let served = station_object(id, st, now, rates);
            let n = st.latency.len() as int;
            &&& n == 0 ==> field(served, "latency_p50"@) == Some(JsonView::Null) && field(
                served,
                "latency_p95"@,
            ) == Some(JsonView::Null)
            &&& n > 0 ==> exists|row: Seq<u64>|
                {
                    &&& #[trigger] row.to_multiset() == st.latency.to_multiset()
                    &&& row.len() == n
                    &&& forall|i: int, j: int| 0 <= i <= j < n ==> row[i] <= row[j]
                    &&& field(served, "latency_p50"@) == Some(JsonView::Uint(row[n * 50 / 100]))
                    &&& field(served, "latency_p95"@) == Some(JsonView::Uint(row[n * 95 / 100]))
                }
        }),
{
    reveal_strlit("latency_p50");
    reveal_strlit("latency_p95");
    reveal_strlit("dead_letters");
    reveal_strlit("faults");
    reveal_strlit("id");
    assert("latency_p50"@.len() == 11 && "latency_p95"@.len() == 11 && "dead_letters"@.len() == 12
        && "faults"@.len() == 6 && "id"@.len() == 2);
    assert("latency_p50"@[9] == '5');
    assert("latency_p95"@[9] == '9');
    if st.latency.len() > 0 {
        a_percentile_stands_at_its_rank(st.latency, 50);
        a_percentile_stands_at_its_rank(st.latency, 95);
        assert(ascending(st.latency).to_multiset() == st.latency.to_multiset());
    }
}

proof fn lemma_nothing_between(m: Map<i64, u64>, lo: int, hi: int)
    requires
        forall|i: int| lo <= i <= hi ==> #[trigger] count_at(m, i) == 0,
    ensures
        count_between(m, lo, hi) == 0,
    decreases hi - lo + 1,
{
    if lo <= hi {
        assert(count_at(m, hi) == 0);
        lemma_nothing_between(m, lo, hi - 1);
    }
}

/// A count goes to the minute and to the second that it is of, and to no
/// other. Minutes are kept for four hours and seconds for two minutes, and
/// what is older is forgotten.
pub proof fn a_count_goes_to_its_minute_and_second(
    r: RingView,
    ts: i64,
    n: u64,
    now: i64,
    k: i64,
)
    requires
        ts >= 0,
        now >= 0,
    ensures
        ({
            let a = ring_added(r, ts, n, now);
            let minute = now as int / 60000;
            let second = now as int / 1000;
            &&& count_at(a.per_min, k as int) == if k < minute - 240 {
                0
            } else if k == ts as int / 60000 {
                count_at(r.per_min, k as int).wrapping_add(n)
            } else {
                count_at(r.per_min, k as int)
            }
            &&& count_at(a.per_sec, k as int) == if k < second - 120 {
                0
            } else if k == ts as int / 1000 {
                count_at(r.per_sec, k as int).wrapping_add(n)
            } else {
                count_at(r.per_sec, k as int)
            }
        }),
{
}

/// What was counted in one second alone is what was counted over any seconds
/// that it is among.
pub proof fn a_second_counts_among_the_seconds(m: Map<i64, u64>, lo: int, hi: int, k: int)
    requires
        lo <= k <= hi,
        forall|i: int| lo <= i <= hi && i != k ==> #[trigger] count_at(m, i) == 0,
    ensures
        count_between(m, lo, hi) == count_at(m, k),
    decreases hi - lo,
{
    if k < hi {
        assert(count_at(m, hi) == 0);
        a_second_counts_among_the_seconds(m, lo, hi - 1, k);
    } else {
        lemma_nothing_between(m, lo, hi - 1);
    }
}

/// Seconds count together what each of them counts, in 64 bits, whichever is
/// taken first.
pub proof fn seconds_count_together(m: Map<i64, u64>, lo: int, hi: int)
    requires
        lo <= hi,
    ensures
        count_between(m, lo, hi) == count_at(m, lo).wrapping_add(count_between(m, lo + 1, hi)),
    decreases hi - lo,
{
    reveal_with_fuel(count_between, 2);
    if lo < hi {
        seconds_count_together(m, lo, hi - 1);
    }
}

// ---------------------------------------------------------------------------
// The line

proof fn lemma_open(faults: Seq<JsonView>)
    ensures
        open_count(faults) == how_many(faults.len(), |i: int| is_open(faults[i])),
    decreases faults.len(),
{
    reveal(Seq::filter);
    if faults.len() > 0 {
        let rest = faults.drop_last();
        lemma_open(rest);
        let all = |i: int| is_open(faults[i]);
        let of_rest = |i: int| is_open(rest[i]);
        assert forall|i: int| 0 <= i < rest.len() implies #[trigger] all(i) == of_rest(i) by {
            assert(rest[i] == faults[i]);
        }
        lemma_how_many(rest.len(), all, of_rest);
        assert(how_many(faults.len(), all) == how_many(rest.len(), all) + if all(
            faults.len() - 1,
        ) {
            1nat
        } else {
            0nat
        });
    }
}

/// A fault that asks for something: a critical one, or a warning.
pub open spec fn asks_for_something(fault: JsonView) -> bool {
    let severity = field(fault, "severity"@);
    severity == Some(JsonView::Str("crit"@)) || severity == Some(JsonView::Str("warn"@))
}

/// The open faults are the critical ones and the warnings.
pub proof fn open_faults_are_counted(faults: Seq<JsonView>)
    ensures
        open_count(faults) == how_many(faults.len(), |i: int| asks_for_something(faults[i])),
{
    lemma_open(faults);
    let a = |i: int| is_open(faults[i]);
    let b = |i: int| asks_for_something(faults[i]);
    assert forall|i: int| 0 <= i < faults.len() implies #[trigger] a(i) == b(i) by {
        assert(is_open(faults[i]) == asks_for_something(faults[i]));
    }
    lemma_how_many(faults.len(), a, b);
}

/// The sum of the numbers under names.
pub open spec fn added_up(m: Map<Seq<char>, JsonView>, names: Seq<Seq<char>>) -> nat
    decreases names.len(),
{
    if names.len() == 0 {
        0
    } else {
        added_up(m, names.drop_first()) + match m[names[0]] {
            JsonView::Uint(n) => n as nat,
            _ => 0nat,
        }
    }
}

proof fn lemma_added_up_last(m: Map<Seq<char>, JsonView>, names: Seq<Seq<char>>)
    requires
        names.len() > 0,
    ensures
        added_up(m, names) == added_up(m, names.drop_last()) + match m[names.last()] {
            JsonView::Uint(n) => n as nat,
            _ => 0nat,
        },
    decreases names.len(),
{
    if names.len() > 1 {
        let rest = names.drop_first();
        lemma_added_up_last(m, rest);
        assert(rest.drop_last() =~= names.drop_last().drop_first());
        assert(rest.last() == names.last());
    } else {
        assert(names.drop_first() =~= Seq::empty());
        assert(names.drop_last() =~= Seq::empty());
    }
}

proof fn lemma_sum_of(m: Map<Seq<char>, JsonView>, names: Seq<Seq<char>>)
    requires
        forall|i: int| 0 <= i < names.len() ==> m.dom().contains(#[trigger] names[i]),
    ensures
        sum_of(m, names) as nat == added_up(m, names) % 0x1_0000_0000_0000_0000,
    decreases names.len(),
{
    if names.len() > 0 {
        let rest = names.drop_last();
        assert forall|i: int| 0 <= i < rest.len() implies m.dom().contains(#[trigger] rest[i]) by {
            assert(rest[i] == names[i]);
        }
        lemma_sum_of(m, rest);
        lemma_added_up_last(m, names);
        assert(m.dom().contains(names[names.len() - 1]));
        let x = added_up(m, rest) as int;
        let y = number_in(m, names.last()) as int;
        vstd::arithmetic::div_mod::lemma_add_mod_noop(x, y, 0x1_0000_0000_0000_0000);
        vstd::arithmetic::div_mod::lemma_small_mod(y as nat, 0x1_0000_0000_0000_0000);
    }
}

/// The lag of the line is that of all its groups together, each once; there
/// is none where no groups are told of.
pub proof fn the_lag_is_that_of_all_groups(lag: JsonView)
    ensures
        !(field(lag, "groups"@) matches Some(JsonView::Object(g))) ==> total_lag(lag) is None,
        field(lag, "groups"@) matches Some(JsonView::Object(g)) ==> (g.dom().finite() ==> exists|
            names: Seq<Seq<char>>,
        |
            {
                &&& names.no_duplicates()
                &&& #[trigger] names.to_set() == g.dom()
                &&& total_lag(lag) matches Some(n) && n as nat == added_up(g, names)
                    % 0x1_0000_0000_0000_0000
            }),
{
    if let Some(JsonView::Object(g)) = field(lag, "groups"@) {
        if g.dom().finite() {
            let names = listed::<String>(g.dom());
            finite_sets_are_listed::<String>(g.dom());
            a_listing_has_each_element_once::<String>(g.dom());
            assert forall|i: int| 0 <= i < names.len() implies g.dom().contains(
                #[trigger] names[i],
            ) by {
                assert(names.contains(names[i]));
            }
            assert(names.to_set() =~= g.dom());
            lemma_sum_of(g, names);
        }
    }
}

/// The line is served with the time, how long it has been watched, each of
/// its seven stations, its faults and how many of them are open, its lag, and
/// how many metrics and batches were read.
pub proof fn the_line_is_served_as_it_is_known(m: ModelView, now: i64, rates: Seq<Rates>)
    requires
        now >= m.started,
        now - m.started <= i64::MAX,
    ensures
        ({
            let served = state_object(m, now, rates);
            &&& field(served, "now"@) == Some(int_view(now))
            &&& field(served, "uptime_s"@) == Some(
                JsonView::Uint(((now - m.started) / 1000) as u64),
            )
            &&& field(served, "title"@) == Some(JsonView::Str("Fab 3 Line"@))
            &&& field(served, "faults"@) == Some(JsonView::List(m.faults))
            &&& field(served, "open_faults"@) == Some(JsonView::Uint(open_count(m.faults) as u64))
            &&& field(served, "lag"@) == Some(m.lag)
            &&& field(served, "total_lag"@) == Some(
                match total_lag(m.lag) {
                    Some(n) => JsonView::Uint(n),
                    None => JsonView::Null,
                },
            )
            &&& field(served, "fold"@) matches Some(fold) && field(fold, "records"@) == Some(
                JsonView::Uint(m.metrics_records),
            ) && field(fold, "batches"@) == Some(JsonView::Uint(m.batches))
            &&& field(served, "stations"@) matches Some(stations) && {
                &&& field(stations, "st01"@) == Some(
                    station_object("st01"@, station_of(m, "st01"@), now, rates[0]),
                )
                &&& field(stations, "st02"@) == Some(
                    station_object("st02"@, station_of(m, "st02"@), now, rates[1]),
                )
                &&& field(stations, "st03"@) == Some(
                    station_object("st03"@, station_of(m, "st03"@), now, rates[2]),
                )
                &&& field(stations, "st04"@) == Some(
                    station_object("st04"@, station_of(m, "st04"@), now, rates[3]),
                )
                &&& field(stations, "st05"@) == Some(
                    station_object("st05"@, station_of(m, "st05"@), now, rates[4]),
                )
                &&& field(stations, "st06"@) == Some(
                    station_object("st06"@, station_of(m, "st06"@), now, rates[5]),
                )
                &&& field(stations, "st06twin"@) == Some(
                    station_object("st06twin"@, station_of(m, "st06twin"@), now, rates[6]),
                )
            }
        }),
{
    reveal_strlit("now");
    reveal_strlit("uptime_s");
    reveal_strlit("title");
    reveal_strlit("sim");
    reveal_strlit("stations");
    reveal_strlit("ledger");
    reveal_strlit("twin");
    reveal_strlit("faults");
    reveal_strlit("open_faults");
    reveal_strlit("lag");
    reveal_strlit("total_lag");
    reveal_strlit("fold");
    reveal_strlit("records");
    reveal_strlit("batches");
    assert("now"@.len() == 3 && "uptime_s"@.len() == 8 && "title"@.len() == 5 && "sim"@.len() == 3
        && "stations"@.len() == 8 && "ledger"@.len() == 6 && "twin"@.len() == 4
        && "faults"@.len() == 6 && "open_faults"@.len() == 11 && "lag"@.len() == 3
        && "total_lag"@.len() == 9 && "fold"@.len() == 4 && "records"@.len() == 7
        && "batches"@.len() == 7);
    assert("now"@[0] == 'n');
    assert("sim"@[0] == 's');
    assert("lag"@[0] == 'l');
    assert("uptime_s"@[0] == 'u');
    assert("stations"@[0] == 's');
    assert("ledger"@[0] == 'l');
    assert("faults"@[0] == 'f');
    assert("twin"@[0] == 't');
    assert("fold"@[0] == 'f');
    assert("records"@[0] == 'r');
    assert("batches"@[0] == 'b');
    reveal_strlit("st01");
    reveal_strlit("st02");
    reveal_strlit("st03");
    reveal_strlit("st04");
    reveal_strlit("st05");
    reveal_strlit("st06");
    reveal_strlit("st06twin");
    assert("st01"@.len() == 4 && "st02"@.len() == 4 && "st03"@.len() == 4 && "st04"@.len() == 4
        && "st05"@.len() == 4 && "st06"@.len() == 4 && "st06twin"@.len() == 8);
    assert("st01"@[3] == '1');
    assert("st02"@[3] == '2');
    assert("st03"@[3] == '3');
    assert("st04"@[3] == '4');
    assert("st05"@[3] == '5');
    assert("st06"@[3] == '6');
}

/// The simulator is served with its last heartbeat, when it was seen and how
/// many seconds ago, and what it put on each topic. Where it was never seen
/// the age is -1.
pub proof fn the_simulator_is_served_as_it_is_known(m: ModelView, now: i64, rates: Seq<Rates>)
    requires
        now >= m.sim_seen,
        now - m.sim_seen <= i64::MAX,
    ensures
        field(state_object(m, now, rates), "sim"@) matches Some(sim) && {
            &&& field(sim, "heartbeat"@) == Some(m.sim)
            &&& field(sim, "seen"@) == Some(int_view(m.sim_seen))
            &&& m.sim_seen > 0 ==> field(sim, "age_s"@) == Some(
                JsonView::Uint(((now - m.sim_seen) / 1000) as u64),
            )
            &&& m.sim_seen <= 0 ==> field(sim, "age_s"@) == Some(JsonView::Int(-1i64))
            &&& forall|topic: Seq<char>|
                m.sim_produced.dom().contains(topic) ==> #[trigger] field(
                    field(sim, "produced"@)->0,
                    topic,
                ) == Some(JsonView::Uint(m.sim_produced[topic]))
        },
{
    reveal_strlit("now");
    reveal_strlit("uptime_s");
    reveal_strlit("title");
    reveal_strlit("sim");
    reveal_strlit("stations");
    reveal_strlit("ledger");
    reveal_strlit("twin");
    reveal_strlit("faults");
    reveal_strlit("open_faults");
    reveal_strlit("lag");
    reveal_strlit("total_lag");
    reveal_strlit("fold");
    assert("now"@.len() == 3 && "uptime_s"@.len() == 8 && "title"@.len() == 5 && "sim"@.len() == 3
        && "stations"@.len() == 8 && "ledger"@.len() == 6 && "twin"@.len() == 4
        && "faults"@.len() == 6 && "open_faults"@.len() == 11 && "lag"@.len() == 3
        && "total_lag"@.len() == 9 && "fold"@.len() == 4);
    assert("now"@[0] == 'n');
    assert("sim"@[0] == 's');
    assert("lag"@[0] == 'l');
    assert("uptime_s"@[0] == 'u');
    assert("stations"@[0] == 's');
    assert("ledger"@[0] == 'l');
    assert("faults"@[0] == 'f');
    assert("twin"@[0] == 't');
    assert("fold"@[0] == 'f');
    reveal_strlit("heartbeat");
    reveal_strlit("seen");
    reveal_strlit("age_s");
    reveal_strlit("produced");
    assert("heartbeat"@.len() == 9 && "seen"@.len() == 4 && "age_s"@.len() == 5
        && "produced"@.len() == 8);
}

/// Probe intake is validated by what the simulator put on its topic and what
/// it put there itself together, by the simulator's part, and by its lots and
/// its rejections.
pub proof fn intake_is_validated_by_both_ways_in(m: ModelView)
    ensures
        ({
            let served = validation_of_intake(m);
            let st = station_of(m, "st01"@);
            let by_sim = count_of(m.sim_produced, "probe.lots"@);
            &&& field(served, "input_topic"@) == Some(JsonView::Str("probe.lots"@))
            &&& field(served, "produced"@) == Some(
                JsonView::Uint(((by_sim + st.produced) % 0x1_0000_0000_0000_0000) as u64),
            )
            &&& field(served, "produced_by_simulator"@) == Some(JsonView::Uint(by_sim))
            &&& field(served, "lots"@) == Some(
                if st.detail.dom().contains("lots"@) {
                    st.detail["lots"@]
                } else {
                    JsonView::Uint(0)
                },
            )
            &&& field(served, "rejected"@) == Some(
                if st.detail.dom().contains("rejected"@) {
                    st.detail["rejected"@]
                } else {
                    JsonView::Uint(0)
                },
            )
            &&& field(validate_object(m), "stations"@) matches Some(stations) && field(
                stations,
                "st01"@,
            ) == Some(served)
            &&& field(validate_object(m), "lag"@) == Some(m.lag)
            &&& field(validate_object(m), "sim"@) matches Some(sim) && field(sim, "heartbeat"@)
                == Some(m.sim)
        }),
{
    reveal_strlit("input_topic");
    reveal_strlit("produced");
    reveal_strlit("produced_by_simulator");
    reveal_strlit("lots");
    reveal_strlit("rejected");
    assert("input_topic"@.len() == 11 && "produced"@.len() == 8
        && "produced_by_simulator"@.len() == 21 && "lots"@.len() == 4 && "rejected"@.len() == 8);
    assert("produced"@[0] == 'p');
    assert("rejected"@[0] == 'r');
    reveal_strlit("stations");
    reveal_strlit("ledger");
    reveal_strlit("twin");
    reveal_strlit("sim");
    reveal_strlit("lag");
    reveal_strlit("heartbeat");
    reveal_strlit("produced");
    assert("stations"@.len() == 8 && "ledger"@.len() == 6 && "twin"@.len() == 4
        && "sim"@.len() == 3 && "lag"@.len() == 3 && "heartbeat"@.len() == 9
        && "produced"@.len() == 8);
    assert("stations"@[0] == 's');
    assert("produced"@[0] == 'p');
    assert("sim"@[0] == 's');
    assert("lag"@[0] == 'l');
    reveal_strlit("st01");
    reveal_strlit("st02");
    reveal_strlit("st03");
    reveal_strlit("st04");
    reveal_strlit("st05");
    reveal_strlit("st06");
    reveal_strlit("st06twin");
    assert("st01"@.len() == 4 && "st02"@.len() == 4 && "st03"@.len() == 4 && "st04"@.len() == 4
        && "st05"@.len() == 4 && "st06"@.len() == 4 && "st06twin"@.len() == 8);
    assert("st01"@[3] == '1');
    assert("st02"@[3] == '2');
    assert("st03"@[3] == '3');
    assert("st04"@[3] == '4');
    assert("st05"@[3] == '5');
    assert("st06"@[3] == '6');
}

/// What is served for debugging is the samples of each partition, and how
/// many records could not be read, how many batches came and how many
/// metrics.
pub proof fn debugging_shows_the_samples(m: ModelView, name: Seq<char>)
    ensures
        ({
            let served = debug_object(m);
            &&& field(served, "unparsed"@) == Some(JsonView::Uint(m.unparsed))
            &&& field(served, "batches"@) == Some(JsonView::Uint(m.batches))
            &&& field(served, "metrics_records"@) == Some(JsonView::Uint(m.metrics_records))
            &&& field(served, "samples"@) matches Some(samples) && field(samples, name) == if
                m.samples.dom().contains(name) {
                Some(JsonView::List(m.samples[name]))
            } else {
                None
            }
        }),
{
    reveal_strlit("unparsed");
    reveal_strlit("batches");
    reveal_strlit("metrics_records");
    reveal_strlit("samples");
    assert("unparsed"@.len() == 8 && "batches"@.len() == 7 && "metrics_records"@.len() == 15
        && "samples"@.len() == 7);
    assert("batches"@[0] == 'b');
    assert("samples"@[0] == 's');
}

// ---------------------------------------------------------------------------
// Requests

/// A get is answered by its path, whatever query stands behind it: the page,
/// with the icons where they go, the state, the validation, the health, the
/// samples and the icons. Any other path is not found, and neither is
/// anything that is asked for otherwise than by a get.
pub proof fn a_get_is_answered_by_its_path(
    m: ModelView,
    get: bool,
    path: Seq<char>,
    query: Option<Seq<char>>,
    now: i64,
    rates: Seq<Rates>,
    page: Seq<char>,
    icons: Seq<char>,
)
    requires
        !path.contains('?'),
    ensures
        ({
            let target = match query {
                Some(q) => path + seq!['?'] + q,
                None => path,
            };
            let r = answer(m, get, target, now, rates, page, icons);
            let is_page = path == "/"@ || path == "/index.html"@;
            let known = is_page || path == "/api/state"@ || path == "/validate"@ || path
                == "/healthz"@ || path == "/api/debug"@ || path == "/icons.svg"@;
            &&& get && known ==> r.status == 200
            &&& !(get && known) ==> r.status == 404 && r.content_type == "text/plain"@ && r.body
                == encode_utf8("no such route: /, /api/state, /validate, /healthz"@)
            &&& get && is_page ==> r.content_type == "text/html; charset=utf-8"@ && r.body
                == encode_utf8(replaced_all(page, "<!--ICONS-->"@, icons))
            &&& get && path == "/api/state"@ ==> r.content_type == "application/json"@ && r.body
                == encode_utf8(json_text_of(state_object(m, now, rates)))
            &&& get && path == "/validate"@ ==> r.content_type == "application/json"@ && r.body
                == encode_utf8(json_text_of(validate_object(m)))
            &&& get && path == "/healthz"@ ==> r.content_type == "text/plain"@ && r.body
                == encode_utf8("ok"@)
            &&& get && path == "/api/debug"@ ==> r.content_type == "application/json"@ && r.body
                == encode_utf8(json_text_of(debug_object(m)))
            &&& get && path == "/icons.svg"@ ==> r.content_type == "image/svg+xml"@ && r.body
                == encode_utf8(icons)
        }),
{
    reveal_strlit("/");
    reveal_strlit("/index.html");
    reveal_strlit("/api/state");
    reveal_strlit("/validate");
    reveal_strlit("/healthz");
    reveal_strlit("/api/debug");
    reveal_strlit("/icons.svg");
    assert("/"@.len() == 1 && "/index.html"@.len() == 11 && "/api/state"@.len() == 10
        && "/validate"@.len() == 9 && "/healthz"@.len() == 8 && "/api/debug"@.len() == 10
        && "/icons.svg"@.len() == 10);
    assert("/api/state"@[5] == 's');
    assert("/api/debug"@[5] == 'd');
    assert("/api/state"@[1] == 'a');
    assert("/icons.svg"@[1] == 'i');
    assert("/api/debug"@[1] == 'a');
    match query {
        Some(q) => {
            a_part_ends_before_its_mark(path, '?', seq!['?'] + q);
            assert(path + (seq!['?'] + q) =~= path + seq!['?'] + q);
        },
        None => {
            a_part_ends_before_its_mark(path, '?', Seq::empty());
            assert(path + Seq::<char>::empty() =~= path);
        },
    }
}

// ---------------------------------------------------------------------------
// The start

/// At the start nothing is known: no station, no fault, no heartbeat, no lag,
/// and nothing is counted.
pub proof fn nothing_is_known_at_the_start(started: i64, id: Seq<char>)
    ensures
        ({
            let m = new_model(started);
            let st = station_of(m, id);
            &&& m.started == started
            &&& m.faults.len() == 0
            &&& m.sim == JsonView::Null
            &&& m.lag == JsonView::Null
            &&& m.sim_seen == 0
            &&& m.metrics_records == 0
            &&& m.batches == 0
            &&& m.unparsed == 0
            &&& st.consumed == 0
            &&& st.produced == 0
            &&& st.dlq == 0
            &&& st.redelivered == 0
            &&& st.partial == 0
            &&& st.replayed == 0
            &&& st.instances_ever == 0
            &&& st.last_seen == 0
            &&& st.latency.len() == 0
            &&& st.dead_letters.len() == 0
            &&& st.faults.len() == 0
            &&& forall|name: Seq<char>| !#[trigger] st.detail.dom().contains(name)
            &&& forall|name: Seq<char>| !#[trigger] st.instances.dom().contains(name)
            &&& forall|k: int| #[trigger] count_at(st.ring.per_min, k) == 0
            &&& forall|k: int| #[trigger] count_at(st.ring.per_sec, k) == 0
        }),
{
}

} // verus!
