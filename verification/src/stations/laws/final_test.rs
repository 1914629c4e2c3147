//! What final test makes of its units.

use vstd::prelude::*;

use crate::json::{int_view, JsonView};
use crate::kafka::{json_keyed, metric_view, ConsumedRecord};
use crate::measure::Measure;
use crate::ordered_map::{
    a_listing_has_each_element_once, finite_sets_are_listed, listed,
};
use crate::stations::final_test::{
    batch_metrics, disposition_record, is_latest, lemma_some_latest, lemma_sources_are_finite,
    move_record, position_behind, positions_of, source_of, sources_of, stepped, transformed,
    OutputsView, Step, Unit,
};
use crate::stats::{how_many, lemma_how_many};
use crate::text::{decimal, decimal_is_injective};

verus! {

// ---------------------------------------------------------------------------
// Dispositions and moves

/// A reading as it is passed on, or null.
pub open spec fn measured(m: Option<Measure>) -> JsonView {
    match m {
        Some(m) => JsonView::Real(m.json@),
        None => JsonView::Null,
    }
}

/// A disposition goes out under its unit. It says of the unit what was read,
/// that it passes where its bin is the first and fails in any other, and
/// where its record came from.
pub proof fn a_disposition_tells_its_unit(u: Unit, rec: ConsumedRecord)
    ensures
        exists|f: Map<Seq<char>, JsonView>, place: Map<Seq<char>, JsonView>|
            #![trigger json_keyed(u.unit@, JsonView::Object(f)), place.dom()]
            {
                &&& disposition_record(u, rec) == json_keyed(u.unit@, JsonView::Object(f))
                &&& f["unit"@] == JsonView::Str(u.unit@)
                &&& f["lot"@] == JsonView::Str(u.lot@)
                &&& f["bin"@] == JsonView::Uint(u.bin as u64)
                &&& f["disposition"@] == JsonView::Str(if u.bin == 1 { "pass"@ } else { "fail"@ })
                &&& f["vout"@] == measured(u.vout)
                &&& f["iq_ua"@] == measured(u.iq_ua)
                &&& f["origin"@] == JsonView::Object(place)
                &&& place["partition"@] == int_view(rec.partition as i64)
                &&& place["offset"@] == int_view(rec.offset)
            },
{
    reveal_strlit("unit");
    reveal_strlit("lot");
    reveal_strlit("bin");
    reveal_strlit("disposition");
    reveal_strlit("vout");
    reveal_strlit("iq_ua");
    reveal_strlit("origin");
    reveal_strlit("partition");
    reveal_strlit("offset");
    assert("unit"@.len() == 4 && "lot"@.len() == 3 && "bin"@.len() == 3
        && "disposition"@.len() == 11 && "vout"@.len() == 4 && "iq_ua"@.len() == 5
        && "origin"@.len() == 6 && "partition"@.len() == 9 && "offset"@.len() == 6);
    assert("unit"@[0] == 'u');
    assert("vout"@[0] == 'v');
    assert("lot"@[0] == 'l');
    assert("bin"@[0] == 'b');
    assert("origin"@[1] == 'r');
    assert("offset"@[1] == 'f');
    let place = Map::<Seq<char>, JsonView>::empty()
        .insert("partition"@, int_view(rec.partition as i64))
        .insert("offset"@, int_view(rec.offset));
    let f = Map::<Seq<char>, JsonView>::empty()
        .insert("unit"@, JsonView::Str(u.unit@))
        .insert("lot"@, JsonView::Str(u.lot@))
        .insert("bin"@, JsonView::Uint(u.bin as u64))
        .insert("disposition"@, JsonView::Str(if u.bin == 1 { "pass"@ } else { "fail"@ }))
        .insert("vout"@, measured(u.vout))
        .insert("iq_ua"@, measured(u.iq_ua))
        .insert("origin"@, JsonView::Object(place));
    assert(disposition_record(u, rec) == json_keyed(u.unit@, JsonView::Object(f)));
    assert(place.dom() =~= place.dom());
}

/// A unit moves on to tape and reel where its bin is the first, and is
/// scrapped in any other. The move is that of one unit out of final test and
/// goes out under the unit.
pub proof fn a_move_takes_its_unit_on(unit: Seq<char>, lot: Seq<char>, bin: u32)
    ensures
        exists|f: Map<Seq<char>, JsonView>|
            #![trigger json_keyed(unit, JsonView::Object(f))]
            {
                &&& move_record(unit, lot, bin) == json_keyed(unit, JsonView::Object(f))
                &&& f["unit"@] == JsonView::Str(unit)
                &&& f["lot"@] == JsonView::Str(lot)
                &&& f["from"@] == JsonView::Str("FT"@)
                &&& f["to"@] == JsonView::Str(if bin == 1 { "TR"@ } else { "SCRAP"@ })
                &&& f["qty"@] == JsonView::Uint(1)
            },
{
    reveal_strlit("unit");
    reveal_strlit("lot");
    reveal_strlit("from");
    reveal_strlit("to");
    reveal_strlit("qty");
    assert("unit"@.len() == 4 && "lot"@.len() == 3 && "from"@.len() == 4 && "to"@.len() == 2
        && "qty"@.len() == 3);
    assert("unit"@[0] == 'u');
    assert("from"@[0] == 'f');
    assert("lot"@[0] == 'l');
    assert("qty"@[0] == 'q');
    let f = Map::<Seq<char>, JsonView>::empty()
        .insert("unit"@, JsonView::Str(unit))
        .insert("lot"@, JsonView::Str(lot))
        .insert("from"@, JsonView::Str("FT"@))
        .insert("to"@, JsonView::Str(if bin == 1 { "TR"@ } else { "SCRAP"@ }))
        .insert("qty"@, JsonView::Uint(1));
    assert(move_record(unit, lot, bin) == json_keyed(unit, JsonView::Object(f)));
}

/// Whether a record holds a unit.
pub open spec fn holds_unit(
    batch: Seq<ConsumedRecord>,
    decoded: Seq<Option<Unit>>,
    i: int,
) -> bool {
    batch[i].value is Some && decoded[i] is Some
}

/// How many of the first `n` records hold a unit.
pub open spec fn units_before(
    batch: Seq<ConsumedRecord>,
    decoded: Seq<Option<Unit>>,
    n: nat,
) -> nat {
    how_many(n, |i: int| holds_unit(batch, decoded, i))
}

/// How many records hold a unit of a bin.
pub open spec fn units_of_bin(
    batch: Seq<ConsumedRecord>,
    decoded: Seq<Option<Unit>>,
    bin: u32,
) -> nat {
    how_many(
        batch.len(),
        |i: int| holds_unit(batch, decoded, i) && decoded[i]->0.bin == bin,
    )
}

/// Whether a record holds a unit of a lot.
pub open spec fn is_of_lot(
    batch: Seq<ConsumedRecord>,
    decoded: Seq<Option<Unit>>,
    lot: Seq<char>,
    i: int,
) -> bool {
    holds_unit(batch, decoded, i) && decoded[i]->0.lot@ == lot
}

/// How many records hold a unit of a lot.
pub open spec fn units_of_lot(
    batch: Seq<ConsumedRecord>,
    decoded: Seq<Option<Unit>>,
    lot: Seq<char>,
) -> nat {
    how_many(
        batch.len(),
        |i: int| is_of_lot(batch, decoded, lot, i),
    )
}

proof fn lemma_counts_of_front(
    batch: Seq<ConsumedRecord>,
    decoded: Seq<Option<Unit>>,
    bin: u32,
    lot: Seq<char>,
    n: nat,
)
    requires
        batch.len() > 0,
        n < batch.len(),
    ensures
        units_before(batch.drop_last(), decoded, n) == units_before(batch, decoded, n),
        ({
            let had = holds_unit(batch, decoded, batch.len() - 1);
            let u = decoded[batch.len() - 1]->0;
            &&& units_before(batch, decoded, batch.len()) == units_before(
                batch,
                decoded,
                (batch.len() - 1) as nat,
            ) + if had { 1nat } else { 0nat }
            &&& units_of_bin(batch, decoded, bin) == units_of_bin(batch.drop_last(), decoded, bin)
                + if had && u.bin == bin { 1nat } else { 0nat }
            &&& units_of_lot(batch, decoded, lot) == units_of_lot(batch.drop_last(), decoded, lot)
                + if had && u.lot@ == lot { 1nat } else { 0nat }
        }),
{
    let rest = batch.drop_last();
    let last = batch.len() - 1;
    let any = |i: int| holds_unit(batch, decoded, i);
    let any_of_rest = |i: int| holds_unit(rest, decoded, i);
    lemma_how_many(n, any, any_of_rest);
    assert(how_many(batch.len(), any) == how_many(last as nat, any) + if any(last) {
        1nat
    } else {
        0nat
    });
    let binned = |i: int| holds_unit(batch, decoded, i) && decoded[i]->0.bin == bin;
    let binned_of_rest = |i: int| holds_unit(rest, decoded, i) && decoded[i]->0.bin == bin;
    lemma_how_many(rest.len(), binned, binned_of_rest);
    assert(how_many(batch.len(), binned) == how_many(last as nat, binned) + if binned(last) {
        1nat
    } else {
        0nat
    });
    let of_lot = |i: int| is_of_lot(batch, decoded, lot, i);
    let of_lot_of_rest = |i: int| is_of_lot(rest, decoded, lot, i);
    lemma_how_many(rest.len(), of_lot, of_lot_of_rest);
    assert(how_many(batch.len(), of_lot) == how_many(last as nat, of_lot) + if of_lot(last) {
        1nat
    } else {
        0nat
    });
    assert(units_of_bin(rest, decoded, bin) == how_many(rest.len(), binned_of_rest));
    assert(units_of_lot(rest, decoded, lot) == how_many(rest.len(), of_lot_of_rest));
}

/// Each record that holds a unit gets the disposition and the move of that
/// unit, behind those of the units before it. The others are counted as
/// malformed and get nothing.
pub proof fn each_unit_gets_its_disposition(
    batch: Seq<ConsumedRecord>,
    decoded: Seq<Option<Unit>>,
)
    requires
        batch.len() <= decoded.len(),
        batch.len() <= u64::MAX,
    ensures
        ({
            let out = transformed(batch, decoded);
            let units = units_before(batch, decoded, batch.len());
            &&& out.dispositions.len() == units
            &&& out.moves.len() == units
            &&& out.malformed == batch.len() - units
            &&& forall|i: int|
                0 <= i < batch.len() && #[trigger] holds_unit(batch, decoded, i) ==> {
                    let k = units_before(batch, decoded, i as nat) as int;
                    let u = decoded[i]->0;
                    &&& k < units
                    &&& out.dispositions[k] == disposition_record(u, batch[i])
                    &&& out.moves[k] == move_record(u.unit@, u.lot@, u.bin)
                }
        }),
    decreases batch.len(),
{
    if batch.len() > 0 {
        let rest = batch.drop_last();
        let last = batch.len() - 1;
        each_unit_gets_its_disposition(rest, decoded);
        lemma_counts_of_front(batch, decoded, 0, Seq::empty(), last as nat);
        let such = |i: int| holds_unit(batch, decoded, i);
        lemma_how_many(last as nat, such, such);
        let out = transformed(batch, decoded);
        let before = transformed(rest, decoded);
        assert forall|i: int|
            0 <= i < batch.len() && #[trigger] holds_unit(batch, decoded, i) implies ({
            let k = units_before(batch, decoded, i as nat) as int;
            let u = decoded[i]->0;
            &&& k < units_before(batch, decoded, batch.len())
            &&& out.dispositions[k] == disposition_record(u, batch[i])
            &&& out.moves[k] == move_record(u.unit@, u.lot@, u.bin)
        }) by {
            if i < last {
                assert(holds_unit(rest, decoded, i));
                lemma_counts_of_front(batch, decoded, 0, Seq::empty(), i as nat);
                let k = units_before(batch, decoded, i as nat) as int;
                assert(out.dispositions[k] == before.dispositions[k]);
                assert(out.moves[k] == before.moves[k]);
            }
        }
    }
}

/// The bins and the lots of a batch are those of its units, and each is
/// counted once for every unit that is in it.
pub proof fn bins_and_lots_count_units(
    batch: Seq<ConsumedRecord>,
    decoded: Seq<Option<Unit>>,
    bin: u32,
    lot: Seq<char>,
)
    requires
        batch.len() <= decoded.len(),
        batch.len() <= u64::MAX,
    ensures
        ({
            let out = transformed(batch, decoded);
            let of_bin = units_of_bin(batch, decoded, bin);
            let of_lot = units_of_lot(batch, decoded, lot);
            &&& out.bins.dom().contains(decimal(bin as nat)) <==> of_bin > 0
            &&& of_bin > 0 ==> out.bins[decimal(bin as nat)] == of_bin
            &&& out.lots.dom().contains(lot) <==> of_lot > 0
            &&& of_lot > 0 ==> out.lots[lot] == of_lot
        }),
    decreases batch.len(),
{
    if batch.len() > 0 {
        let rest = batch.drop_last();
        bins_and_lots_count_units(rest, decoded, bin, lot);
        lemma_counts_of_front(batch, decoded, bin, lot, 0);
        let such = |i: int| holds_unit(rest, decoded, i) && decoded[i]->0.bin == bin;
        lemma_how_many(rest.len(), such, such);
        let such = |i: int| is_of_lot(rest, decoded, lot, i);
        lemma_how_many(rest.len(), such, such);
        if holds_unit(batch, decoded, batch.len() - 1) {
            let u = decoded[batch.len() - 1]->0;
            decimal_is_injective(u.bin as nat, bin as nat);
        }
    }
}

// ---------------------------------------------------------------------------
// What is reported

/// The metrics of a batch tell how many records it has, how many of them were
/// malformed, how many units each bin got and of how many lots they are, and
/// what went to each of the two topics, all at the time of the last record.
pub proof fn a_batch_reports_what_it_came_to(
    out: OutputsView,
    batch: Seq<ConsumedRecord>,
    out_topic: Seq<char>,
    moves_topic: Seq<char>,
)
    requires
        batch.len() > 0,
    ensures
        batch_metrics(out, batch, out_topic, moves_topic).len() == 3,
        exists|f: Map<Seq<char>, JsonView>, counts: Map<Seq<char>, JsonView>|
            #![trigger metric_view("st06"@, "consumed"@, batch.last().timestamp, f), counts.dom()]
            {
                &&& batch_metrics(out, batch, out_topic, moves_topic)[0] == metric_view(
                    "st06"@,
                    "consumed"@,
                    batch.last().timestamp,
                    f,
                )
                &&& f["n"@] == JsonView::Uint(batch.len() as u64)
                &&& f["malformed"@] == JsonView::Uint(out.malformed)
                &&& f["bins"@] == JsonView::Object(counts)
                &&& f["lots"@] == JsonView::Uint(out.lots.dom().len() as u64)
                &&& counts.dom() == out.bins.dom()
                &&& forall|b: Seq<char>|
                    out.bins.dom().contains(b) ==> #[trigger] counts[b] == JsonView::Uint(
                        out.bins[b],
                    )
            },
        exists|f: Map<Seq<char>, JsonView>|
            #![trigger metric_view("st06"@, "produced"@, batch.last().timestamp, f)]
            {
                &&& batch_metrics(out, batch, out_topic, moves_topic)[1]
                    == metric_view("st06"@, "produced"@, batch.last().timestamp, f)
                &&& f["topic"@] == JsonView::Str(out_topic)
                &&& f["n"@] == JsonView::Uint(out.dispositions.len() as u64)
            },
        exists|f: Map<Seq<char>, JsonView>|
            #![trigger metric_view("st06"@, "produced"@, batch.last().timestamp, f)]
            {
                &&& batch_metrics(out, batch, out_topic, moves_topic)[2]
                    == metric_view("st06"@, "produced"@, batch.last().timestamp, f)
                &&& f["topic"@] == JsonView::Str(moves_topic)
                &&& f["n"@] == JsonView::Uint(out.moves.len() as u64)
            },
{
    reveal_strlit("n");
    reveal_strlit("malformed");
    reveal_strlit("bins");
    reveal_strlit("lots");
    reveal_strlit("topic");
    assert("n"@.len() == 1 && "malformed"@.len() == 9 && "bins"@.len() == 4 && "lots"@.len() == 4
        && "topic"@.len() == 5);
    assert("bins"@[0] == 'b');
    assert("lots"@[0] == 'l');
    let counts = out.bins.map_values(|n: u64| JsonView::Uint(n));
    assert(counts.dom() =~= out.bins.dom());
    let f = Map::<Seq<char>, JsonView>::empty()
        .insert("n"@, JsonView::Uint(batch.len() as u64))
        .insert("malformed"@, JsonView::Uint(out.malformed))
        .insert("bins"@, JsonView::Object(counts))
        .insert("lots"@, JsonView::Uint(out.lots.dom().len() as u64));
    assert(batch_metrics(out, batch, out_topic, moves_topic)[0] == metric_view(
        "st06"@,
        "consumed"@,
        batch.last().timestamp,
        f,
    ));
    let g = Map::<Seq<char>, JsonView>::empty()
        .insert("topic"@, JsonView::Str(out_topic))
        .insert("n"@, JsonView::Uint(out.dispositions.len() as u64));
    assert(batch_metrics(out, batch, out_topic, moves_topic)[1]
        == metric_view("st06"@, "produced"@, batch.last().timestamp, g));
    let h = Map::<Seq<char>, JsonView>::empty()
        .insert("topic"@, JsonView::Str(moves_topic))
        .insert("n"@, JsonView::Uint(out.moves.len() as u64));
    assert(batch_metrics(out, batch, out_topic, moves_topic)[2]
        == metric_view("st06"@, "produced"@, batch.last().timestamp, h));
}

// ---------------------------------------------------------------------------
// Positions

/// A position is right behind the record of its source with the greatest
/// offset, the first of them where there are more. It carries the leader
/// epoch of that record and no metadata; and no other position is for the
/// same source.
pub proof fn a_position_follows_the_latest_record(batch: Seq<ConsumedRecord>, k: int)
    requires
        0 <= k < positions_of(batch).len(),
    ensures
        ({
            let p = positions_of(batch)[k];
            &&& p.metadata is None
            &&& exists|i: int|
                {
                    &&& 0 <= i < batch.len()
                    &&& (#[trigger] batch[i]).topic@ == p.topic
                    &&& batch[i].partition == p.partition
                    &&& batch[i].offset < i64::MAX ==> p.offset == batch[i].offset + 1
                    &&& p.leader_epoch == batch[i].leader_epoch
                    &&& forall|j: int|
                        0 <= j < batch.len() && (#[trigger] batch[j]).topic@ == p.topic
                            && batch[j].partition == p.partition ==> batch[j].offset
                            < batch[i].offset || (batch[j].offset == batch[i].offset && i <= j)
                }
            &&& forall|l: int|
                0 <= l < positions_of(batch).len() && l != k ==> (#[trigger] positions_of(
                    batch,
                )[l]).topic != p.topic || positions_of(batch)[l].partition != p.partition
        }),
{
    let names = listed::<(String, i32)>(sources_of(batch));
    lemma_sources_are_finite(batch);
    finite_sets_are_listed::<(String, i32)>(sources_of(batch));
    a_listing_has_each_element_once::<(String, i32)>(sources_of(batch));
    assert forall|l: int| 0 <= l < names.len() implies {
        let p = #[trigger] positions_of(batch)[l];
        &&& (p.topic, p.partition) == names[l]
        &&& exists|i: int| is_latest(batch, names[l], i) && p == position_behind(batch[i])
    } by {
        assert(names.contains(names[l]));
        assert(sources_of(batch).contains(names[l]));
        lemma_some_latest(batch, names[l]);
        let i = choose|i: int| is_latest(batch, names[l], i);
        assert(source_of(batch[i]) == names[l]);
        assert(positions_of(batch)[l] == position_behind(batch[i]));
    }
    let p = positions_of(batch)[k];
    let i = choose|i: int| is_latest(batch, names[k], i) && p == position_behind(batch[i]);
    assert(source_of(batch[i]) == names[k]);
    assert forall|j: int|
        0 <= j < batch.len() && (#[trigger] batch[j]).topic@ == p.topic && batch[j].partition
            == p.partition implies batch[j].offset < batch[i].offset || (batch[j].offset
        == batch[i].offset && i <= j) by {
        assert(source_of(batch[j]) == names[k]);
    }
}

// ---------------------------------------------------------------------------
// The steps of a transaction

/// A transaction that nothing fails in is begun, sends its dispositions, its
/// moves, its metrics and its offsets, and is then committed.
pub proof fn a_transaction_takes_its_steps_in_order(results: Seq<Result<(), String>>)
    requires
        forall|i: int| 0 <= i < results.len() ==> (#[trigger] results[i]) is Ok,
    ensures
        results.len() == 0 <==> stepped(results) is Begin,
        results.len() == 1 <==> stepped(results) is SendDispositions,
        results.len() == 2 <==> stepped(results) is SendMoves,
        results.len() == 3 <==> stepped(results) is SendMetrics,
        results.len() == 4 <==> stepped(results) is SendOffsets,
        results.len() == 5 <==> stepped(results) is Commit,
        results.len() >= 6 <==> stepped(results) is Committed,
    decreases results.len(),
{
    if results.len() > 0 {
        let rest = results.drop_last();
        assert forall|i: int| 0 <= i < rest.len() implies (#[trigger] rest[i]) is Ok by {
            assert(results[i] is Ok);
        }
        assert(results[results.len() - 1] is Ok);
        a_transaction_takes_its_steps_in_order(rest);
    }
}

/// A transaction that a step fails in is aborted for the reason that the step
/// gave, and has then failed for it, whatever comes of the abort. Where it
/// was not begun there is nothing to abort.
pub proof fn a_failed_step_ends_the_transaction(
    before: Seq<Result<(), String>>,
    why: String,
    after: Result<(), String>,
)
    requires
        before.len() < 6,
        forall|i: int| 0 <= i < before.len() ==> (#[trigger] before[i]) is Ok,
    ensures
        ({
            let failed = before.push(Err(why));
            &&& stepped(failed) == if before.len() == 0 {
                Step::Failed(why)
            } else {
                Step::Abort(why)
            }
            &&& stepped(failed.push(after)) == Step::Failed(why)
        }),
{
    a_transaction_takes_its_steps_in_order(before);
    let failed = before.push(Err(why));
    assert(failed.drop_last() =~= before);
    assert(failed.push(after).drop_last() =~= failed);
}

} // verus!
