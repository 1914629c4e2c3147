//! What each kind of metric adds to what is known of its station.

use vstd::prelude::*;

use super::fold::{
    bonder_after, fields_in, presses_after, smoothed, station_after, summed, tallied, Computed,
};
use super::model::{number_in, StationView};
use super::ring::ring_added;
use crate::json::{field, int_view, JsonView};
use crate::stats::{how_many, lemma_how_many};
use crate::text::decimal;

verus! {

/// Kinds are told apart by their names.
pub proof fn lemma_kinds_are_distinct()
    ensures
        "consumed"@ != "produced"@,
        "consumed"@ != "latency"@,
        "consumed"@ != "rejected"@,
        "consumed"@ != "instance"@,
        "consumed"@ != "redelivered"@,
        "consumed"@ != "partial"@,
        "consumed"@ != "replayed"@,
        "consumed"@ != "window"@,
        "consumed"@ != "rebalance"@,
        "consumed"@ != "seek"@,
        "consumed"@ != "started"@,
        "consumed"@ != "txn"@,
        "consumed"@ != "txn_abort"@,
        "consumed"@ != "commit"@,
        "consumed"@ != "dlq"@,
        "consumed"@ != "fault"@,
        "produced"@ != "latency"@,
        "produced"@ != "rejected"@,
        "produced"@ != "instance"@,
        "produced"@ != "redelivered"@,
        "produced"@ != "partial"@,
        "produced"@ != "replayed"@,
        "produced"@ != "window"@,
        "produced"@ != "rebalance"@,
        "produced"@ != "seek"@,
        "produced"@ != "started"@,
        "produced"@ != "txn"@,
        "produced"@ != "txn_abort"@,
        "produced"@ != "commit"@,
        "produced"@ != "dlq"@,
        "produced"@ != "fault"@,
        "latency"@ != "rejected"@,
        "latency"@ != "instance"@,
        "latency"@ != "redelivered"@,
        "latency"@ != "partial"@,
        "latency"@ != "replayed"@,
        "latency"@ != "window"@,
        "latency"@ != "rebalance"@,
        "latency"@ != "seek"@,
        "latency"@ != "started"@,
        "latency"@ != "txn"@,
        "latency"@ != "txn_abort"@,
        "latency"@ != "commit"@,
        "latency"@ != "dlq"@,
        "latency"@ != "fault"@,
        "rejected"@ != "instance"@,
        "rejected"@ != "redelivered"@,
        "rejected"@ != "partial"@,
        "rejected"@ != "replayed"@,
        "rejected"@ != "window"@,
        "rejected"@ != "rebalance"@,
        "rejected"@ != "seek"@,
        "rejected"@ != "started"@,
        "rejected"@ != "txn"@,
        "rejected"@ != "txn_abort"@,
        "rejected"@ != "commit"@,
        "rejected"@ != "dlq"@,
        "rejected"@ != "fault"@,
        "instance"@ != "redelivered"@,
        "instance"@ != "partial"@,
        "instance"@ != "replayed"@,
        "instance"@ != "window"@,
        "instance"@ != "rebalance"@,
        "instance"@ != "seek"@,
        "instance"@ != "started"@,
        "instance"@ != "txn"@,
        "instance"@ != "txn_abort"@,
        "instance"@ != "commit"@,
        "instance"@ != "dlq"@,
        "instance"@ != "fault"@,
        "redelivered"@ != "partial"@,
        "redelivered"@ != "replayed"@,
        "redelivered"@ != "window"@,
        "redelivered"@ != "rebalance"@,
        "redelivered"@ != "seek"@,
        "redelivered"@ != "started"@,
        "redelivered"@ != "txn"@,
        "redelivered"@ != "txn_abort"@,
        "redelivered"@ != "commit"@,
        "redelivered"@ != "dlq"@,
        "redelivered"@ != "fault"@,
        "partial"@ != "replayed"@,
        "partial"@ != "window"@,
        "partial"@ != "rebalance"@,
        "partial"@ != "seek"@,
        "partial"@ != "started"@,
        "partial"@ != "txn"@,
        "partial"@ != "txn_abort"@,
        "partial"@ != "commit"@,
        "partial"@ != "dlq"@,
        "partial"@ != "fault"@,
        "replayed"@ != "window"@,
        "replayed"@ != "rebalance"@,
        "replayed"@ != "seek"@,
        "replayed"@ != "started"@,
        "replayed"@ != "txn"@,
        "replayed"@ != "txn_abort"@,
        "replayed"@ != "commit"@,
        "replayed"@ != "dlq"@,
        "replayed"@ != "fault"@,
        "window"@ != "rebalance"@,
        "window"@ != "seek"@,
        "window"@ != "started"@,
        "window"@ != "txn"@,
        "window"@ != "txn_abort"@,
        "window"@ != "commit"@,
        "window"@ != "dlq"@,
        "window"@ != "fault"@,
        "rebalance"@ != "seek"@,
        "rebalance"@ != "started"@,
        "rebalance"@ != "txn"@,
        "rebalance"@ != "txn_abort"@,
        "rebalance"@ != "commit"@,
        "rebalance"@ != "dlq"@,
        "rebalance"@ != "fault"@,
        "seek"@ != "started"@,
        "seek"@ != "txn"@,
        "seek"@ != "txn_abort"@,
        "seek"@ != "commit"@,
        "seek"@ != "dlq"@,
        "seek"@ != "fault"@,
        "started"@ != "txn"@,
        "started"@ != "txn_abort"@,
        "started"@ != "commit"@,
        "started"@ != "dlq"@,
        "started"@ != "fault"@,
        "txn"@ != "txn_abort"@,
        "txn"@ != "commit"@,
        "txn"@ != "dlq"@,
        "txn"@ != "fault"@,
        "txn_abort"@ != "commit"@,
        "txn_abort"@ != "dlq"@,
        "txn_abort"@ != "fault"@,
        "commit"@ != "dlq"@,
        "commit"@ != "fault"@,
        "dlq"@ != "fault"@,
{
    reveal_strlit("consumed");
    reveal_strlit("produced");
    reveal_strlit("latency");
    reveal_strlit("rejected");
    reveal_strlit("instance");
    reveal_strlit("redelivered");
    reveal_strlit("partial");
    reveal_strlit("replayed");
    reveal_strlit("window");
    reveal_strlit("rebalance");
    reveal_strlit("seek");
    reveal_strlit("started");
    reveal_strlit("txn");
    reveal_strlit("txn_abort");
    reveal_strlit("commit");
    reveal_strlit("dlq");
    reveal_strlit("fault");
    assert("consumed"@.len() == 8 && "produced"@.len() == 8 && "latency"@.len() == 7
        && "rejected"@.len() == 8 && "instance"@.len() == 8 && "redelivered"@.len() == 11
        && "partial"@.len() == 7 && "replayed"@.len() == 8 && "window"@.len() == 6
        && "rebalance"@.len() == 9 && "seek"@.len() == 4 && "started"@.len() == 7
        && "txn"@.len() == 3 && "txn_abort"@.len() == 9 && "commit"@.len() == 6
        && "dlq"@.len() == 3 && "fault"@.len() == 5);
    assert("consumed"@[0] == 'c');
    assert("produced"@[0] == 'p');
    assert("rejected"@[0] == 'r');
    assert("instance"@[0] == 'i');
    assert("replayed"@[0] == 'r');
    assert("latency"@[0] == 'l');
    assert("partial"@[0] == 'p');
    assert("started"@[0] == 's');
    assert("rejected"@[2] == 'j');
    assert("replayed"@[2] == 'p');
    assert("window"@[0] == 'w');
    assert("commit"@[0] == 'c');
    assert("rebalance"@[0] == 'r');
    assert("txn_abort"@[0] == 't');
    assert("txn"@[0] == 't');
    assert("dlq"@[0] == 'd');
}

/// Whether a number in one record of details is that in another and `n` more,
/// in 64 bits.
pub open spec fn has_more(
    after: Map<Seq<char>, JsonView>,
    before: Map<Seq<char>, JsonView>,
    name: Seq<char>,
    n: int,
) -> bool {
    after.dom().contains(name) && after[name] == JsonView::Uint(
        ((number_in(before, name) + n) % 0x1_0000_0000_0000_0000) as u64,
    )
}

/// Whether two records of details are the same under a name.
pub open spec fn same_at(
    after: Map<Seq<char>, JsonView>,
    before: Map<Seq<char>, JsonView>,
    name: Seq<char>,
) -> bool {
    &&& after.dom().contains(name) <==> before.dom().contains(name)
    &&& before.dom().contains(name) ==> after[name] == before[name]
}

/// A number that a metric gives, zero where it gives none.
pub open spec fn given(v: JsonView, name: Seq<char>) -> int {
    match field(v, name) {
        Some(JsonView::Uint(n)) => n as int,
        _ => 0,
    }
}

/// Whether a metric says that something is so.
pub open spec fn so_said(v: JsonView, name: Seq<char>) -> bool {
    field(v, name) == Some(JsonView::Bool(true))
}

/// Whether a row is another with one more number behind it, of which the last
/// two hundred are kept.
pub open spec fn one_sample_more(after: Seq<u64>, before: Seq<u64>, x: u64) -> bool {
    &&& after.len() == if before.len() < 200 {
        before.len() + 1
    } else {
        200
    }
    &&& after.last() == x
    &&& forall|i: int|
        0 < i < after.len() ==> #[trigger] after[after.len() - 1 - i] == before[before.len() - i]
}

/// The number in a field is the one that stands there, and zero where none
/// does.
pub proof fn a_number_is_what_stands_there(m: Map<Seq<char>, JsonView>, name: Seq<char>, n: u64)
    ensures
        number_in(m.insert(name, JsonView::Uint(n)), name) == n,
        !m.dom().contains(name) ==> number_in(m, name) == 0,
{
}

/// The fields under a name are those of the object that stands there, and
/// none where none does.
pub proof fn fields_are_what_stands_there(
    m: Map<Seq<char>, JsonView>,
    name: Seq<char>,
    fields: Map<Seq<char>, JsonView>,
)
    ensures
        fields_in(m.insert(name, JsonView::Object(fields)), name) == fields,
        !m.dom().contains(name) ==> fields_in(m, name) == Map::<Seq<char>, JsonView>::empty(),
{
}

/// A rejection counts as many as it tells, and as one where it tells no
/// number.
pub proof fn rejections_are_counted(
    st: StationView,
    station: Seq<char>,
    ts: i64,
    n: u64,
    v: JsonView,
    now: i64,
    c: Computed,
)
    ensures
        ({
            let a = station_after(st, station, "rejected"@, ts, n, v, now, c);
            &&& has_more(a.detail, st.detail, "rejected"@, if n == 0 { 1 } else { n as int })
            &&& forall|name: Seq<char>|
                name != "rejected"@ ==> #[trigger] same_at(a.detail, st.detail, name)
            &&& a == (StationView { detail: a.detail, ..st })
        }),
{
    lemma_kinds_are_distinct();
    reveal_strlit("rejected");
    assert("rejected"@.len() == 8);
}

/// A latency is kept as one more, behind those before it, and the errors that
/// it tells of are counted.
pub proof fn latencies_are_kept(
    st: StationView,
    station: Seq<char>,
    ts: i64,
    n: u64,
    v: JsonView,
    now: i64,
    c: Computed,
)
    requires
        st.latency.len() <= 200,
    ensures
        ({
            let a = station_after(st, station, "latency"@, ts, n, v, now, c);
            &&& has_more(a.detail, st.detail, "record_errors"@, given(v, "errors"@))
            &&& forall|name: Seq<char>|
                name != "record_errors"@ ==> #[trigger] same_at(a.detail, st.detail, name)
            &&& field(v, "ms"@) matches Some(JsonView::Uint(x)) ==> one_sample_more(
                a.latency,
                st.latency,
                x,
            )
            &&& !(field(v, "ms"@) matches Some(JsonView::Uint(x))) ==> a.latency == st.latency
            &&& a == (StationView { detail: a.detail, latency: a.latency, ..st })
        }),
{
    lemma_kinds_are_distinct();
    reveal_strlit("record_errors");
    assert("record_errors"@.len() == 13);
}

/// A rebalance counts as one, with the windows that it flushed.
pub proof fn rebalances_are_counted(
    st: StationView,
    station: Seq<char>,
    ts: i64,
    n: u64,
    v: JsonView,
    now: i64,
    c: Computed,
)
    ensures
        ({
            let a = station_after(st, station, "rebalance"@, ts, n, v, now, c);
            &&& has_more(a.detail, st.detail, "rebalances"@, 1)
            &&& has_more(
                a.detail,
                st.detail,
                "windows_flushed_on_rebalance"@,
                given(v, "windows_flushed"@),
            )
            &&& forall|name: Seq<char>|
                name != "rebalances"@ && name != "windows_flushed_on_rebalance"@
                    ==> #[trigger] same_at(a.detail, st.detail, name)
            &&& a == (StationView { detail: a.detail, ..st })
        }),
{
    lemma_kinds_are_distinct();
    reveal_strlit("rebalances");
    reveal_strlit("windows_flushed_on_rebalance");
    assert("rebalances"@.len() == 10 && "windows_flushed_on_rebalance"@.len() == 28);
}

/// A seek counts as one.
pub proof fn seeks_are_counted(
    st: StationView,
    station: Seq<char>,
    ts: i64,
    n: u64,
    v: JsonView,
    now: i64,
    c: Computed,
)
    ensures
        ({
            let a = station_after(st, station, "seek"@, ts, n, v, now, c);
            &&& has_more(a.detail, st.detail, "seeks"@, 1)
            &&& forall|name: Seq<char>|
                name != "seeks"@ ==> #[trigger] same_at(a.detail, st.detail, name)
            &&& a == (StationView { detail: a.detail, ..st })
        }),
{
    lemma_kinds_are_distinct();
    reveal_strlit("seeks");
    assert("seeks"@.len() == 5);
}

/// A commit counts as one.
pub proof fn commits_are_counted(
    st: StationView,
    station: Seq<char>,
    ts: i64,
    n: u64,
    v: JsonView,
    now: i64,
    c: Computed,
)
    ensures
        ({
            let a = station_after(st, station, "commit"@, ts, n, v, now, c);
            &&& has_more(a.detail, st.detail, "commits"@, 1)
            &&& forall|name: Seq<char>|
                name != "commits"@ ==> #[trigger] same_at(a.detail, st.detail, name)
            &&& a == (StationView { detail: a.detail, ..st })
        }),
{
    lemma_kinds_are_distinct();
    reveal_strlit("commits");
    assert("commits"@.len() == 7);
}

/// A transaction counts as one, and the time it took is kept as a latency.
pub proof fn transactions_are_counted(
    st: StationView,
    station: Seq<char>,
    ts: i64,
    n: u64,
    v: JsonView,
    now: i64,
    c: Computed,
)
    requires
        st.latency.len() <= 200,
    ensures
        ({
            let a = station_after(st, station, "txn"@, ts, n, v, now, c);
            &&& has_more(a.detail, st.detail, "txns"@, 1)
            &&& forall|name: Seq<char>|
                name != "txns"@ ==> #[trigger] same_at(a.detail, st.detail, name)
            &&& field(v, "ms"@) matches Some(JsonView::Uint(x)) ==> one_sample_more(
                a.latency,
                st.latency,
                x,
            )
            &&& a == (StationView { detail: a.detail, latency: a.latency, ..st })
        }),
{
    lemma_kinds_are_distinct();
    reveal_strlit("txns");
    assert("txns"@.len() == 4);
}

/// An aborted transaction counts as one, and where it says that it had to be
/// aborted, or that its error was fatal, it counts as that too.
pub proof fn aborts_are_counted(
    st: StationView,
    station: Seq<char>,
    ts: i64,
    n: u64,
    v: JsonView,
    now: i64,
    c: Computed,
)
    ensures
        ({
            let a = station_after(st, station, "txn_abort"@, ts, n, v, now, c);
            &&& has_more(a.detail, st.detail, "aborted"@, 1)
            &&& so_said(v, "requires_abort"@) ==> has_more(
                a.detail,
                st.detail,
                "requires_abort"@,
                1,
            )
            &&& so_said(v, "fatal"@) ==> has_more(a.detail, st.detail, "fatal"@, 1)
            &&& forall|name: Seq<char>|
                name != "aborted"@ && !(name == "requires_abort"@ && so_said(v, "requires_abort"@))
                    && !(name == "fatal"@ && so_said(v, "fatal"@)) ==> #[trigger] same_at(
                    a.detail,
                    st.detail,
                    name,
                )
            &&& a == (StationView { detail: a.detail, ..st })
        }),
{
    lemma_kinds_are_distinct();
    reveal_strlit("aborted");
    reveal_strlit("requires_abort");
    reveal_strlit("fatal");
    assert("aborted"@.len() == 7 && "requires_abort"@.len() == 14 && "fatal"@.len() == 5);
}

/// A start counts as one, and the settings that it tells are noted as it
/// tells them.
pub proof fn starts_are_counted(
    st: StationView,
    station: Seq<char>,
    ts: i64,
    n: u64,
    v: JsonView,
    now: i64,
    c: Computed,
)
    ensures
        ({
            let a = station_after(st, station, "started"@, ts, n, v, now, c);
            &&& has_more(a.detail, st.detail, "starts"@, 1)
            &&& forall|name: Seq<char>|
                name == "batch_size"@ || name == "nsop_threshold_pct"@ || name == "window_ms"@
                    ==> if #[trigger] field(v, name) is Some {
                    a.detail.dom().contains(name) && a.detail[name] == field(v, name)->0
                } else {
                    same_at(a.detail, st.detail, name)
                }
            &&& forall|name: Seq<char>|
                name != "starts"@ && name != "batch_size"@ && name != "nsop_threshold_pct"@ && name
                    != "window_ms"@ ==> #[trigger] same_at(a.detail, st.detail, name)
            &&& a == (StationView { detail: a.detail, ..st })
        }),
{
    lemma_kinds_are_distinct();
    reveal_strlit("starts");
    reveal_strlit("batch_size");
    reveal_strlit("nsop_threshold_pct");
    reveal_strlit("window_ms");
    assert("starts"@.len() == 6 && "batch_size"@.len() == 10 && "nsop_threshold_pct"@.len() == 18
        && "window_ms"@.len() == 9);
}

/// What probe intake put out counts as one lot of so many wafers, and the
/// prober of the lot is noted. Of any other station it is only counted.
pub proof fn lots_are_counted(
    st: StationView,
    station: Seq<char>,
    ts: i64,
    n: u64,
    v: JsonView,
    now: i64,
    c: Computed,
)
    ensures
        ({
            let a = station_after(st, station, "produced"@, ts, n, v, now, c);
            &&& a.produced == st.produced.wrapping_add(n)
            &&& station == "st01"@ ==> {
                &&& has_more(a.detail, st.detail, "lots"@, 1)
                &&& has_more(a.detail, st.detail, "wafers"@, n as int)
                &&& field(v, "prober"@) matches Some(JsonView::Str(p)) ==> a.detail.dom().contains(
                    "last_prober"@,
                ) && a.detail["last_prober"@] == JsonView::Str(p)
                &&& forall|name: Seq<char>|
                    name != "lots"@ && name != "wafers"@ && name != "last_prober"@
                        ==> #[trigger] same_at(a.detail, st.detail, name)
                &&& a.ring == ring_added(st.ring, ts, 1, now)
                &&& a == (StationView {
                    produced: a.produced,
                    detail: a.detail,
                    ring: a.ring,
                    ..st
                })
            }
            &&& station != "st01"@ ==> a == (StationView { produced: a.produced, ..st })
        }),
{
    lemma_kinds_are_distinct();
    reveal_strlit("lots");
    reveal_strlit("wafers");
    reveal_strlit("last_prober");
    assert("lots"@.len() == 4 && "wafers"@.len() == 6 && "last_prober"@.len() == 11);
}

/// An instance that tells its id is heard of at the time it tells, and is one
/// more where it was not heard of before.
pub proof fn instances_are_counted(
    st: StationView,
    station: Seq<char>,
    ts: i64,
    n: u64,
    v: JsonView,
    now: i64,
    c: Computed,
)
    ensures
        ({
            let a = station_after(st, station, "instance"@, ts, n, v, now, c);
            &&& field(v, "id"@) matches Some(JsonView::Str(id)) ==> {
                &&& a.instances.dom().contains(id)
                &&& a.instances[id] == ts
                &&& forall|other: Seq<char>|
                    other != id ==> (#[trigger] a.instances.dom().contains(other)
                        <==> st.instances.dom().contains(other)) && (st.instances.dom().contains(
                        other,
                    ) ==> a.instances[other] == st.instances[other])
                &&& a.instances_ever == if st.instances.dom().contains(id) {
                    st.instances_ever
                } else {
                    st.instances_ever.wrapping_add(1)
                }
                &&& a == (StationView {
                    instances: a.instances,
                    instances_ever: a.instances_ever,
                    ..st
                })
            }
            &&& !(field(v, "id"@) matches Some(JsonView::Str(id))) ==> a == st
        }),
{
    lemma_kinds_are_distinct();
}

/// What die attach worked on counts to what is in spec and to what is
/// flagged, as it tells, and to its rate. The Cpk of a head that it gives a
/// number for is the one worked out from it; that of any other stays.
pub proof fn readings_are_counted(
    st: StationView,
    station: Seq<char>,
    ts: i64,
    n: u64,
    v: JsonView,
    now: i64,
    c: Computed,
)
    requires
        station == "st02"@,
    ensures
        ({
            let a = station_after(st, station, "consumed"@, ts, n, v, now, c);
            &&& a.consumed == st.consumed.wrapping_add(n)
            &&& a.ring == ring_added(st.ring, ts, n, now)
            &&& has_more(a.detail, st.detail, "in_spec"@, given(v, "in_spec"@))
            &&& has_more(a.detail, st.detail, "flags"@, given(v, "flags"@))
            &&& field(v, "cpk"@) matches Some(JsonView::Object(g)) ==> {
                let was = fields_in(st.detail, "cpk"@);
                exists|cpk: Map<Seq<char>, JsonView>|
                    #![trigger cpk.dom()]
                    {
                        &&& a.detail.dom().contains("cpk"@)
                        &&& a.detail["cpk"@] == JsonView::Object(cpk)
                        &&& forall|h: Seq<char>|
                            if g.dom().contains(h) && (g[h] is Uint || g[h] is Int || g[h] is Real)
                                && c.cpk@.dom().contains(h) {
                                #[trigger] cpk.dom().contains(h) && cpk[h] == c.cpk@[h]
                            } else {
                                same_at(cpk, was, h)
                            }
                    }
            }
            &&& forall|name: Seq<char>|
                name != "in_spec"@ && name != "flags"@ && !(name == "cpk"@ && field(v, "cpk"@)
                    matches Some(JsonView::Object(g))) ==> #[trigger] same_at(
                    a.detail,
                    st.detail,
                    name,
                )
            &&& a == (StationView {
                consumed: a.consumed,
                ring: a.ring,
                detail: a.detail,
                ..st
            })
        }),
{
    lemma_kinds_are_distinct();
    reveal_strlit("in_spec");
    reveal_strlit("flags");
    reveal_strlit("cpk");
    reveal_strlit("st02");
    reveal_strlit("st04");
    reveal_strlit("st06");
    assert("in_spec"@.len() == 7 && "flags"@.len() == 5 && "cpk"@.len() == 3 && "st02"@.len() == 4
        && "st04"@.len() == 4 && "st06"@.len() == 4);
    assert("st02"@[3] == '2');
    assert("st04"@[3] == '4');
    assert("st06"@[3] == '6');
    if let Some(JsonView::Object(g)) = field(v, "cpk"@) {
        let cpk = smoothed(fields_in(st.detail, "cpk"@), g, c.cpk@);
        assert(cpk.dom() =~= cpk.dom());
        let a = station_after(st, station, "consumed"@, ts, n, v, now, c);
        assert(a.detail["cpk"@] == JsonView::Object(cpk));
    }
}

proof fn lemma_tallied(cur: Map<Seq<char>, JsonView>, list: Seq<JsonView>, name: Seq<char>)
    ensures
        number_in(tallied(cur, list), name) as int == (number_in(cur, name) + how_many(
            list.len(),
            |i: int| list[i] == JsonView::Str(name),
        )) % 0x1_0000_0000_0000_0000,
    decreases list.len(),
{
    if list.len() > 0 {
        let rest = list.drop_last();
        lemma_tallied(cur, rest, name);
        let all = |i: int| list[i] == JsonView::Str(name);
        let of_rest = |i: int| rest[i] == JsonView::Str(name);
        assert forall|i: int| 0 <= i < rest.len() implies #[trigger] all(i) == of_rest(i) by {
            assert(rest[i] == list[i]);
        }
        lemma_how_many(rest.len(), all, of_rest);
        assert(how_many(list.len(), all) == how_many(rest.len(), all) + if all(list.len() - 1) {
            1nat
        } else {
            0nat
        });
        let x = number_in(cur, name) + how_many(rest.len(), all);
        vstd::arithmetic::div_mod::lemma_add_mod_noop(x as int, 1, 0x1_0000_0000_0000_0000);
        assert(list.last() == list[list.len() - 1]);
        assert(all(list.len() - 1) == (list.last() == JsonView::Str(name)));
    }
}

/// Each defect that inspection lists counts as one of its name, and the 95th
/// percentile of its latencies is kept as one more.
pub proof fn defects_are_counted(
    st: StationView,
    station: Seq<char>,
    ts: i64,
    n: u64,
    v: JsonView,
    now: i64,
    c: Computed,
)
    requires
        station == "st04"@,
        st.latency.len() <= 200,
    ensures
        ({
            let a = station_after(st, station, "consumed"@, ts, n, v, now, c);
            &&& a.consumed == st.consumed.wrapping_add(n)
            &&& a.ring == ring_added(st.ring, ts, n, now)
            &&& field(v, "latency_p95_ms"@) matches Some(JsonView::Uint(x)) ==> one_sample_more(
                a.latency,
                st.latency,
                x,
            )
            &&& field(v, "defects"@) matches Some(JsonView::List(list)) ==> {
                let was = fields_in(st.detail, "defects"@);
                exists|tally: Map<Seq<char>, JsonView>|
                    #![trigger tally.dom()]
                    {
                        &&& a.detail.dom().contains("defects"@)
                        &&& a.detail["defects"@] == JsonView::Object(tally)
                        &&& forall|name: Seq<char>|
                            #[trigger] number_in(tally, name) as int == (number_in(was, name)
                                + how_many(list.len(), |i: int| list[i] == JsonView::Str(name)))
                                % 0x1_0000_0000_0000_0000
                    }
            }
            &&& forall|name: Seq<char>|
                name != "defects"@ ==> #[trigger] same_at(a.detail, st.detail, name)
        }),
{
    lemma_kinds_are_distinct();
    reveal_strlit("defects");
    reveal_strlit("st02");
    reveal_strlit("st04");
    reveal_strlit("st06");
    assert("defects"@.len() == 7 && "st02"@.len() == 4 && "st04"@.len() == 4 && "st06"@.len() == 4);
    assert("st02"@[3] == '2');
    assert("st04"@[3] == '4');
    assert("st06"@[3] == '6');
    if let Some(JsonView::List(list)) = field(v, "defects"@) {
        let was = fields_in(st.detail, "defects"@);
        let tally = tallied(was, list);
        let a = station_after(st, station, "consumed"@, ts, n, v, now, c);
        assert(a.detail["defects"@] == JsonView::Object(tally));
        assert(tally.dom() =~= tally.dom());
        assert forall|name: Seq<char>|
            #[trigger] number_in(tally, name) as int == (number_in(was, name) + how_many(
                list.len(),
                |i: int| list[i] == JsonView::Str(name),
            )) % 0x1_0000_0000_0000_0000 by {
            lemma_tallied(was, list, name);
        }
    }
}

/// A batch of final test counts as one, and its units to the bins that it
/// tells.
pub proof fn bins_are_counted(
    st: StationView,
    station: Seq<char>,
    ts: i64,
    n: u64,
    v: JsonView,
    now: i64,
    c: Computed,
)
    requires
        station == "st06"@,
    ensures
        ({
            let a = station_after(st, station, "consumed"@, ts, n, v, now, c);
            &&& a.consumed == st.consumed.wrapping_add(n)
            &&& a.ring == ring_added(st.ring, ts, n, now)
            &&& has_more(a.detail, st.detail, "batches"@, 1)
            &&& field(v, "bins"@) matches Some(JsonView::Object(g)) ==> {
                let was = fields_in(st.detail, "bins"@);
                exists|bins: Map<Seq<char>, JsonView>|
                    #![trigger bins.dom()]
                    {
                        &&& a.detail.dom().contains("bins"@)
                        &&& a.detail["bins"@] == JsonView::Object(bins)
                        &&& forall|b: Seq<char>|
                            if #[trigger] g.dom().contains(b) {
                                has_more(bins, was, b, number_in(g, b) as int)
                            } else {
                                same_at(bins, was, b)
                            }
                    }
            }
            &&& forall|name: Seq<char>|
                name != "batches"@ && !(name == "bins"@ && field(v, "bins"@) matches Some(
                    JsonView::Object(g),
                )) ==> #[trigger] same_at(a.detail, st.detail, name)
            &&& a == (StationView {
                consumed: a.consumed,
                ring: a.ring,
                detail: a.detail,
                ..st
            })
        }),
{
    lemma_kinds_are_distinct();
    reveal_strlit("batches");
    reveal_strlit("bins");
    reveal_strlit("st02");
    reveal_strlit("st04");
    reveal_strlit("st06");
    assert("batches"@.len() == 7 && "bins"@.len() == 4 && "st02"@.len() == 4 && "st04"@.len() == 4
        && "st06"@.len() == 4);
    assert("bins"@[0] == 'b');
    assert("st02"@[0] == 's');
    assert("st04"@[0] == 's');
    assert("st06"@[0] == 's');
    assert("st02"@[3] == '2');
    assert("st04"@[3] == '4');
    assert("st06"@[3] == '6');
    if let Some(JsonView::Object(g)) = field(v, "bins"@) {
        let was = fields_in(st.detail, "bins"@);
        let bins = summed(was, g);
        let a = station_after(st, station, "consumed"@, ts, n, v, now, c);
        assert(a.detail["bins"@] == JsonView::Object(bins));
        assert(bins.dom() =~= bins.dom());
    }
}

/// What any other station worked on is counted, and adds to its rate.
pub proof fn other_work_is_counted(
    st: StationView,
    station: Seq<char>,
    ts: i64,
    n: u64,
    v: JsonView,
    now: i64,
    c: Computed,
)
    requires
        station != "st02"@,
        station != "st04"@,
        station != "st06"@,
    ensures
        station_after(st, station, "consumed"@, ts, n, v, now, c) == (StationView {
            consumed: st.consumed.wrapping_add(n),
            ring: ring_added(st.ring, ts, n, now),
            ..st
        }),
{
    lemma_kinds_are_distinct();
    assert(station_after(st, station, "consumed"@, ts, n, v, now, c).detail =~= st.detail);
}

/// A window of a bonder counts as one of the station and as one of the
/// bonder, with what it tells of the bonder noted; where the bonder did not
/// stick it counts as that too. What is known of the other bonders stays.
pub proof fn windows_of_bonders_are_counted(
    st: StationView,
    station: Seq<char>,
    ts: i64,
    n: u64,
    v: JsonView,
    now: i64,
    c: Computed,
)
    requires
        station == "st03"@,
    ensures
        ({
            let a = station_after(st, station, "window"@, ts, n, v, now, c);
            let bonders = fields_in(a.detail, "bonders"@);
            let were = fields_in(st.detail, "bonders"@);
            &&& has_more(a.detail, st.detail, "windows"@, 1)
            &&& field(v, "bonder"@) matches Some(JsonView::Uint(b)) ==> {
                let id = decimal(b as nat);
                let e = fields_in(bonders, id);
                let was = fields_in(were, id);
                &&& has_more(e, was, "windows"@, 1)
                &&& has_more(e, was, "nsop"@, if so_said(v, "nsop"@) { 1 } else { 0 })
                &&& e.dom().contains("delta"@)
                &&& e["delta"@] == match field(v, "power_delta_pct"@) {
                    Some(x) => x,
                    None => JsonView::Null,
                }
                &&& e.dom().contains("us_w"@)
                &&& e["us_w"@] == match field(v, "us_w_mean"@) {
                    Some(x) => x,
                    None => JsonView::Null,
                }
                &&& e.dom().contains("ts"@)
                &&& e["ts"@] == int_view(ts)
                &&& forall|other: Seq<char>|
                    other != id ==> #[trigger] same_at(bonders, were, other)
                &&& so_said(v, "nsop"@) ==> has_more(a.detail, st.detail, "nsop_windows"@, 1)
                &&& !so_said(v, "nsop"@) ==> same_at(a.detail, st.detail, "nsop_windows"@)
                &&& field(v, "n"@) matches Some(JsonView::Uint(k)) ==> has_more(
                    a.detail,
                    st.detail,
                    "window_samples"@,
                    k as int,
                )
            }
            &&& forall|name: Seq<char>|
                name != "windows"@ && name != "bonders"@ && name != "nsop_windows"@ && name
                    != "window_samples"@ ==> #[trigger] same_at(a.detail, st.detail, name)
            &&& a == (StationView { detail: a.detail, ..st })
        }),
{
    lemma_kinds_are_distinct();
    reveal_strlit("windows");
    reveal_strlit("bonders");
    reveal_strlit("nsop_windows");
    reveal_strlit("window_samples");
    reveal_strlit("nsop");
    reveal_strlit("delta");
    reveal_strlit("us_w");
    reveal_strlit("ts");
    assert("windows"@.len() == 7 && "bonders"@.len() == 7 && "nsop_windows"@.len() == 12
        && "window_samples"@.len() == 14 && "nsop"@.len() == 4 && "delta"@.len() == 5
        && "us_w"@.len() == 4 && "ts"@.len() == 2);
    assert("windows"@[0] == 'w');
    assert("bonders"@[0] == 'b');
    assert("nsop"@[0] == 'n');
    assert("us_w"@[0] == 'u');
    if let Some(JsonView::Uint(b)) = field(v, "bonder"@) {
        let a = station_after(st, station, "window"@, ts, n, v, now, c);
        let were = fields_in(st.detail, "bonders"@);
        let id = decimal(b as nat);
        let e = bonder_after(fields_in(were, id), ts, v);
        assert(fields_in(a.detail, "bonders"@) == were.insert(id, JsonView::Object(e)));
        assert(fields_in(were.insert(id, JsonView::Object(e)), id) == e);
    }
}

/// Whether a report is of a press.
pub open spec fn is_of_press(press: JsonView, id: Seq<char>) -> bool {
    field(press, "press"@) == Some(JsonView::Str(id))
}

proof fn lemma_press_untouched(
    cur: Map<Seq<char>, JsonView>,
    presses: Seq<JsonView>,
    ts: i64,
    id: Seq<char>,
)
    requires
        forall|i: int| 0 <= i < presses.len() ==> !is_of_press(#[trigger] presses[i], id),
    ensures
        same_at(presses_after(cur, presses, ts), cur, id),
    decreases presses.len(),
{
    if presses.len() > 0 {
        let rest = presses.drop_last();
        assert forall|i: int| 0 <= i < rest.len() implies !is_of_press(#[trigger] rest[i], id) by {
            assert(presses[i] == rest[i]);
        }
        lemma_press_untouched(cur, rest, ts, id);
        assert(!is_of_press(presses[presses.len() - 1], id));
    }
}

proof fn lemma_press_noted(
    cur: Map<Seq<char>, JsonView>,
    presses: Seq<JsonView>,
    ts: i64,
    id: Seq<char>,
    i: int,
)
    requires
        0 <= i < presses.len(),
        is_of_press(presses[i], id),
        forall|j: int| i < j < presses.len() ==> !is_of_press(#[trigger] presses[j], id),
    ensures
        presses_after(cur, presses, ts).dom().contains(id),
        presses_after(cur, presses, ts)[id] == JsonView::Object(
            presses[i]->Object_0.insert("ts"@, int_view(ts)),
        ),
    decreases presses.len(),
{
    let rest = presses.drop_last();
    if i < rest.len() {
        assert(rest[i] == presses[i]);
        assert forall|j: int| i < j < rest.len() implies !is_of_press(#[trigger] rest[j], id) by {
            assert(rest[j] == presses[j]);
        }
        assert(!is_of_press(presses[presses.len() - 1], id));
        lemma_press_noted(cur, rest, ts, id, i);
    }
}

/// What a window tells of a press is noted as it tells it, with the time; of
/// two that tell of one press the later counts, and what is known of the
/// others stays. The window counts as one, the mean conformance is the one
/// worked out from it where it gives any, and the size of its batch is noted.
pub proof fn windows_of_presses_are_counted(
    st: StationView,
    station: Seq<char>,
    ts: i64,
    n: u64,
    v: JsonView,
    now: i64,
    c: Computed,
    id: Seq<char>,
)
    requires
        station == "st05"@,
    ensures
        ({
            let a = station_after(st, station, "window"@, ts, n, v, now, c);
            &&& has_more(a.detail, st.detail, "windows"@, 1)
            &&& field(v, "presses"@) matches Some(JsonView::List(list)) ==> {
                let presses = fields_in(a.detail, "presses"@);
                let were = fields_in(st.detail, "presses"@);
                &&& (forall|i: int| 0 <= i < list.len() ==> !is_of_press(#[trigger] list[i], id))
                    ==> same_at(presses, were, id)
                &&& forall|i: int|
                    0 <= i < list.len() && is_of_press(#[trigger] list[i], id) && (forall|j: int|
                        i < j < list.len() ==> !is_of_press(#[trigger] list[j], id)) ==> {
                        &&& presses.dom().contains(id)
                        &&& presses[id] == JsonView::Object(
                            list[i]->Object_0.insert("ts"@, int_view(ts)),
                        )
                    }
                &&& field(v, "batch"@) matches Some(JsonView::Uint(b)) ==> a.detail.dom().contains(
                    "last_batch"@,
                ) && a.detail["last_batch"@] == JsonView::Uint(b)
                &&& (exists|i: int|
                    0 <= i < list.len() && (field(#[trigger] list[i], "conformance_pct"@)
                        matches Some(x) && (x is Uint || x is Int || x is Real)))
                    && c.conformance is Some ==> a.detail.dom().contains("conformance_pct"@)
                    && a.detail["conformance_pct"@] == c.conformance->0@
            }
            &&& forall|name: Seq<char>|
                name != "windows"@ && name != "presses"@ && name != "conformance_pct"@ && name
                    != "last_batch"@ ==> #[trigger] same_at(a.detail, st.detail, name)
            &&& a == (StationView { detail: a.detail, ..st })
        }),
{
    lemma_kinds_are_distinct();
    reveal_strlit("windows");
    reveal_strlit("presses");
    reveal_strlit("conformance_pct");
    reveal_strlit("last_batch");
    reveal_strlit("st03");
    reveal_strlit("st05");
    assert("windows"@.len() == 7 && "presses"@.len() == 7 && "conformance_pct"@.len() == 15
        && "last_batch"@.len() == 10 && "st03"@.len() == 4 && "st05"@.len() == 4);
    assert("windows"@[0] == 'w');
    assert("presses"@[0] == 'p');
    assert("st03"@[3] == '3');
    assert("st05"@[3] == '5');
    if let Some(JsonView::List(list)) = field(v, "presses"@) {
        let a = station_after(st, station, "window"@, ts, n, v, now, c);
        let were = fields_in(st.detail, "presses"@);
        let presses = presses_after(were, list, ts);
        assert(fields_in(a.detail, "presses"@) == presses);
        if forall|i: int| 0 <= i < list.len() ==> !is_of_press(#[trigger] list[i], id) {
            lemma_press_untouched(were, list, ts, id);
        }
        assert forall|i: int|
            0 <= i < list.len() && is_of_press(#[trigger] list[i], id) && (forall|j: int|
                i < j < list.len() ==> !is_of_press(#[trigger] list[j], id)) implies ({
            &&& presses.dom().contains(id)
            &&& presses[id] == JsonView::Object(list[i]->Object_0.insert("ts"@, int_view(ts)))
        }) by {
            lemma_press_noted(were, list, ts, id, i);
        }
        if exists|i: int|
            0 <= i < list.len() && (field(#[trigger] list[i], "conformance_pct"@) matches Some(x)
                && (x is Uint || x is Int || x is Real)) {
            let i = choose|i: int|
                0 <= i < list.len() && (field(#[trigger] list[i], "conformance_pct"@) matches Some(
                    x,
                ) && (x is Uint || x is Int || x is Real));
            assert(super::fold::gives_number(field(list[i], "conformance_pct"@)));
            assert(super::fold::gives_conformance(list));
        }
    }
}

/// A window of any other station counts as one.
pub proof fn other_windows_are_counted(
    st: StationView,
    station: Seq<char>,
    ts: i64,
    n: u64,
    v: JsonView,
    now: i64,
    c: Computed,
)
    requires
        station != "st03"@,
        station != "st05"@,
    ensures
        ({
            let a = station_after(st, station, "window"@, ts, n, v, now, c);
            &&& has_more(a.detail, st.detail, "windows"@, 1)
            &&& forall|name: Seq<char>|
                name != "windows"@ ==> #[trigger] same_at(a.detail, st.detail, name)
            &&& a == (StationView { detail: a.detail, ..st })
        }),
{
    lemma_kinds_are_distinct();
}

/// A metric of another kind adds nothing to what is known of its station.
pub proof fn other_kinds_add_nothing(
    st: StationView,
    station: Seq<char>,
    kind: Seq<char>,
    ts: i64,
    n: u64,
    v: JsonView,
    now: i64,
    c: Computed,
)
    requires
        kind != "consumed"@,
        kind != "produced"@,
        kind != "latency"@,
        kind != "rejected"@,
        kind != "instance"@,
        kind != "redelivered"@,
        kind != "partial"@,
        kind != "replayed"@,
        kind != "window"@,
        kind != "rebalance"@,
        kind != "seek"@,
        kind != "started"@,
        kind != "txn"@,
        kind != "txn_abort"@,
        kind != "commit"@,
    ensures
        station_after(st, station, kind, ts, n, v, now, c) == st,
{
}

} // verus!
