//! What die attach makes of readings, in numbers.

use vstd::prelude::*;
use vstd::utf8::*;

use crate::json::{
    field, int_view, json_text_of, opt_int_view, opt_text, opt_text_view, parsed_json, JsonView,
};
use crate::kafka::{json_keyed, metric_view, ConsumedRecord, HandlerErrorView};
use crate::measure::{is_nan, lemma_unsigned, value, whole};
use crate::stations::die_attach::{
    closing, cpk_by_head, every_record_is_accounted_for, flag_for, flag_reason, reading_fault,
    refusal, refused_verdict, worked_through, Item, Reading, WorkView,
};
use crate::stations::instance::{
    failure_metric, fault_in, first_offset, last_offset, last_time, partition_of,
};
use crate::text::{contains_text, joined, stands_at};

verus! {

// ---------------------------------------------------------------------------
// The limits

/// A bond line of 20 to 30 um.
pub open spec fn bond_line_in_limits(r: Reading) -> bool {
    !is_nan(r.bl_um.bits) && whole(20) <= value(r.bl_um.bits) <= whole(30)
}

/// An epoxy weight of 2.5 to 4 mg.
pub open spec fn epoxy_in_limits(r: Reading) -> bool {
    !is_nan(r.epoxy_mg.bits) && whole(5) <= 2 * value(r.epoxy_mg.bits) && value(r.epoxy_mg.bits)
        <= whole(4)
}

/// A placement of no more than 15 um to either side along each axis.
pub open spec fn placement_in_limits(r: Reading) -> bool {
    &&& is_nan(r.dx_um.bits) || -whole(15) <= value(r.dx_um.bits) <= whole(15)
    &&& is_nan(r.dy_um.bits) || -whole(15) <= value(r.dy_um.bits) <= whole(15)
}

/// A reading is in spec exactly where its bond line is from 20 to 30 um, its
/// epoxy weight from 2.5 to 4 mg, and its placement off by no more than 15 um
/// to either side along either axis.
pub proof fn a_reading_is_in_spec_within_its_limits(r: Reading)
    ensures
        flag_reason(r) is None <==> bond_line_in_limits(r) && epoxy_in_limits(r)
            && placement_in_limits(r),
{
    crate::stations::die_attach::the_limits_are_exact();
    lemma_unsigned(r.dx_um.bits);
    lemma_unsigned(r.dy_um.bits);
}

/// To which side a die is off does not matter: readings that differ in the
/// signs of their placement alone are both in spec, or both flagged.
pub proof fn the_side_does_not_matter(a: Reading, b: Reading)
    requires
        a.bl_um.bits == b.bl_um.bits,
        a.epoxy_mg.bits == b.epoxy_mg.bits,
        is_nan(a.dx_um.bits) <==> is_nan(b.dx_um.bits),
        is_nan(a.dy_um.bits) <==> is_nan(b.dy_um.bits),
        value(a.dx_um.bits) == value(b.dx_um.bits) || value(a.dx_um.bits) == -value(b.dx_um.bits),
        value(a.dy_um.bits) == value(b.dy_um.bits) || value(a.dy_um.bits) == -value(b.dy_um.bits),
    ensures
        flag_reason(a) is None <==> flag_reason(b) is None,
{
    a_reading_is_in_spec_within_its_limits(a);
    a_reading_is_in_spec_within_its_limits(b);
}

/// Which axis is which does not matter either: a reading with its two
/// placements exchanged is in spec where it was before.
pub proof fn the_axes_are_alike(a: Reading, b: Reading)
    requires
        a.bl_um.bits == b.bl_um.bits,
        a.epoxy_mg.bits == b.epoxy_mg.bits,
        a.dx_um.bits == b.dy_um.bits,
        a.dy_um.bits == b.dx_um.bits,
    ensures
        flag_reason(a) is None <==> flag_reason(b) is None,
{
    a_reading_is_in_spec_within_its_limits(a);
    a_reading_is_in_spec_within_its_limits(b);
}

/// What is said of a bond line that is out of its limits.
pub open spec fn bond_line_said(r: Reading) -> Seq<char> {
    "bond-line "@ + r.bl_um.shown@ + " um outside 20-30"@
}

/// What is said of an epoxy weight that is out of its limits.
pub open spec fn epoxy_said(r: Reading) -> Seq<char> {
    "epoxy "@ + r.epoxy_mg.shown@ + " mg outside 2.5-4"@
}

/// What is said of a placement that is out of its limits.
pub open spec fn placement_said(r: Reading) -> Seq<char> {
    "placement ("@ + r.dx_um.shown@ + ", "@ + r.dy_um.shown@ + ") um beyond ±15"@
}

proof fn lemma_stands(a: Seq<char>, b: Seq<char>, c: Seq<char>)
    ensures
        contains_text(a + b + c, b),
{
    let s = a + b + c;
    assert(s.subrange(a.len() as int, a.len() + b.len() as int) =~= b);
    assert(stands_at(s, b, a.len() as int));
}

/// A flag says everything that is out of its limits, and where one thing is
/// it says that alone.
pub proof fn a_flag_says_what_is_out(r: Reading)
    ensures
        flag_reason(r) matches Some(why) ==> {
            let (b, e, p) = (
                !bond_line_in_limits(r),
                !epoxy_in_limits(r),
                !placement_in_limits(r),
            );
            &&& b ==> contains_text(why, bond_line_said(r))
            &&& e ==> contains_text(why, epoxy_said(r))
            &&& p ==> contains_text(why, placement_said(r))
            &&& b && !e && !p ==> why == bond_line_said(r)
            &&& !b && e && !p ==> why == epoxy_said(r)
            &&& !b && !e && p ==> why == placement_said(r)
        },
{
    crate::stations::die_attach::the_limits_are_exact();
    lemma_unsigned(r.dx_um.bits);
    lemma_unsigned(r.dy_um.bits);
    let parts = crate::stations::die_attach::reasons_against(r);
    let none: Seq<char> = Seq::empty();
    let sep = "; "@;
    if parts.len() == 1 {
        lemma_stands(none, parts[0], none);
        assert(none + parts[0] + none =~= parts[0]);
    } else if parts.len() == 2 {
        let why = joined(parts, sep);
        assert(joined(parts.drop_last(), sep) == parts[0]);
        assert(why =~= none + parts[0] + (sep + parts[1]));
        assert(why =~= (parts[0] + sep) + parts[1] + none);
        lemma_stands(none, parts[0], sep + parts[1]);
        lemma_stands(parts[0] + sep, parts[1], none);
    } else if parts.len() == 3 {
        let why = joined(parts, sep);
        let two = parts.drop_last();
        assert(joined(two.drop_last(), sep) == parts[0]);
        assert(joined(two, sep) == parts[0] + sep + parts[1]);
        assert(why =~= none + parts[0] + (sep + parts[1] + sep + parts[2]));
        assert(why =~= (parts[0] + sep) + parts[1] + (sep + parts[2]));
        assert(why =~= (parts[0] + sep + parts[1] + sep) + parts[2] + none);
        lemma_stands(none, parts[0], sep + parts[1] + sep + parts[2]);
        lemma_stands(parts[0] + sep, parts[1], sep + parts[2]);
        lemma_stands(parts[0] + sep + parts[1] + sep, parts[2], none);
    }
}

// ---------------------------------------------------------------------------
// Reading

/// Whether a value has a field that is a number.
pub open spec fn has_number(v: JsonView, name: Seq<char>) -> bool {
    match field(v, name) {
        Some(JsonView::Uint(_)) => true,
        Some(JsonView::Int(_)) => true,
        Some(JsonView::Real(_)) => true,
        _ => false,
    }
}

/// Bytes are a reading exactly where they are UTF-8, JSON, have a number in
/// each of the four measured fields, and decode. A field that is not there is
/// named.
pub proof fn a_reading_has_its_four_numbers(bytes: Seq<u8>, undecodable: Option<Seq<char>>)
    ensures
        reading_fault(bytes, undecodable) is None <==> {
            &&& valid_utf8(bytes)
            &&& parsed_json(bytes) is Ok
            &&& has_number(parsed_json(bytes)->Ok_0, "bl_um"@)
            &&& has_number(parsed_json(bytes)->Ok_0, "epoxy_mg"@)
            &&& has_number(parsed_json(bytes)->Ok_0, "dx_um"@)
            &&& has_number(parsed_json(bytes)->Ok_0, "dy_um"@)
            &&& undecodable is None
        },
        forall|v: JsonView|
            valid_utf8(bytes) && #[trigger] parsed_json(bytes) == Ok::<JsonView, Seq<char>>(v)
                && field(v, "bl_um"@) is None ==> reading_fault(bytes, undecodable) == Some(
                "bl_um"@ + " missing"@,
            ),
{
}

// ---------------------------------------------------------------------------
// A batch

/// How many of the first `n` records hold a reading within the limits.
pub open spec fn within_limits(items: Seq<Item>, n: nat) -> nat
    decreases n,
{
    if n == 0 {
        0
    } else {
        let i = items[n - 1];
        within_limits(items, (n - 1) as nat) + if i.rec.value is Some && bond_line_in_limits(
            i.decoded->Ok_0,
        ) && epoxy_in_limits(i.decoded->Ok_0) && placement_in_limits(i.decoded->Ok_0) {
            1nat
        } else {
            0nat
        }
    }
}

/// The bond lines of a head among the first `n` records, in their order.
pub open spec fn bond_lines(items: Seq<Item>, n: nat, head: Seq<char>) -> Seq<u64>
    decreases n,
{
    if n == 0 {
        Seq::empty()
    } else {
        let i = items[n - 1];
        let before = bond_lines(items, (n - 1) as nat, head);
        if i.rec.value is Some && i.decoded->Ok_0.head@ == head {
            before.push(i.decoded->Ok_0.bl_um.bits)
        } else {
            before
        }
    }
}

/// What is kept of a head's bond lines, none where nothing is.
pub open spec fn kept_of(w: WorkView, head: Seq<char>) -> Seq<u64> {
    if w.samples.dom().contains(head) {
        w.samples[head]
    } else {
        Seq::empty()
    }
}

/// Of a batch whose records can all be read, as many count as in spec as lie
/// within the limits, the other readings count as flagged, and the bond lines
/// of each head are kept in the order they came.
pub proof fn a_batch_counts_what_it_holds(items: Seq<Item>, head: Seq<char>)
    requires
        items.len() <= u64::MAX,
        worked_through(items).failure is None,
    ensures
        ({
            let w = worked_through(items);
            &&& w.in_spec == within_limits(items, items.len())
            &&& w.consumed == items.len()
            &&& w.in_spec + w.flags + crate::stations::die_attach::tombstones(items)
                == items.len()
            &&& kept_of(w, head) == bond_lines(items, items.len(), head)
        }),
    decreases items.len(),
{
    every_record_is_accounted_for(items);
    assert(items.take(items.len() as int) =~= items);
    if items.len() > 0 {
        let rest = items.drop_last();
        a_batch_counts_what_it_holds(rest, head);
        lemma_same_front(items, rest, head, rest.len());
        every_record_is_accounted_for(rest);
        let i = items.last();
        if i.rec.value is Some {
            a_reading_is_in_spec_within_its_limits(i.decoded->Ok_0);
        }
        assert(kept_of(worked_through(items), head) =~= bond_lines(items, items.len(), head));
    } else {
        assert(kept_of(worked_through(items), head) =~= bond_lines(items, items.len(), head));
    }
}

proof fn lemma_same_front(a: Seq<Item>, b: Seq<Item>, head: Seq<char>, n: nat)
    requires
        n <= a.len(),
        n <= b.len(),
        forall|i: int| 0 <= i < n ==> a[i] == b[i],
    ensures
        within_limits(a, n) == within_limits(b, n),
        bond_lines(a, n, head) == bond_lines(b, n, head),
    decreases n,
{
    if n > 0 {
        lemma_same_front(a, b, head, (n - 1) as nat);
        assert(a[n - 1] == b[n - 1]);
    }
}

/// A reading that is out of its limits is flagged under its die: the flag
/// says what was measured, why it is flagged and where it came from. One that
/// is within them, or cannot be read, is not.
pub proof fn a_flag_tells_its_reading(rec: ConsumedRecord, decoded: Result<Reading, String>)
    ensures
        flag_for(rec, decoded) is Some <==> rec.value is Some && reading_fault(
            rec.value->0@,
            fault_in(decoded),
        ) is None && !(bond_line_in_limits(decoded->Ok_0) && epoxy_in_limits(decoded->Ok_0)
            && placement_in_limits(decoded->Ok_0)),
        flag_for(rec, decoded) matches Some(flag) ==> {
            let r = decoded->Ok_0;
            exists|f: Map<Seq<char>, JsonView>, place: Map<Seq<char>, JsonView>|
                #![trigger json_keyed(r.die@, JsonView::Object(f)), place.dom()]
                {
                    &&& flag == json_keyed(r.die@, JsonView::Object(f))
                    &&& f["die"@] == JsonView::Str(r.die@)
                    &&& f["head"@] == JsonView::Str(r.head@)
                    &&& f["reason"@] == JsonView::Str(flag_reason(r)->0)
                    &&& f["bl_um"@] == JsonView::Real(r.bl_um.json@)
                    &&& f["epoxy_mg"@] == JsonView::Real(r.epoxy_mg.json@)
                    &&& f["dx_um"@] == JsonView::Real(r.dx_um.json@)
                    &&& f["dy_um"@] == JsonView::Real(r.dy_um.json@)
                    &&& f["prober"@] == opt_text_view(opt_text(r.prober))
                    &&& f["origin"@] == JsonView::Object(place)
                    &&& place["partition"@] == int_view(rec.partition as i64)
                    &&& place["offset"@] == int_view(rec.offset)
                }
        },
{
    if rec.value is Some && reading_fault(rec.value->0@, fault_in(decoded)) is None {
        let r = decoded->Ok_0;
        a_reading_is_in_spec_within_its_limits(r);
        if flag_reason(r) is Some {
            reveal_strlit("die");
            reveal_strlit("head");
            reveal_strlit("reason");
            reveal_strlit("bl_um");
            reveal_strlit("epoxy_mg");
            reveal_strlit("dx_um");
            reveal_strlit("dy_um");
            reveal_strlit("prober");
            reveal_strlit("origin");
            reveal_strlit("partition");
            reveal_strlit("offset");
            assert("die"@.len() == 3 && "head"@.len() == 4 && "reason"@.len() == 6
                && "bl_um"@.len() == 5 && "epoxy_mg"@.len() == 8 && "dx_um"@.len() == 5
                && "dy_um"@.len() == 5 && "prober"@.len() == 6 && "origin"@.len() == 6
                && "partition"@.len() == 9 && "offset"@.len() == 6);
            assert("reason"@[0] == 'r');
            assert("prober"@[0] == 'p');
            assert("origin"@[0] == 'o');
            assert("offset"@[0] == 'o');
            assert("bl_um"@[0] == 'b');
            assert("dx_um"@[0] == 'd');
            assert("dy_um"@[0] == 'd');
            assert("dx_um"@[1] == 'x');
            assert("dy_um"@[1] == 'y');
            assert("origin"@[1] == 'r');
            assert("offset"@[1] == 'f');
            let place = Map::<Seq<char>, JsonView>::empty().insert(
                "partition"@,
                int_view(rec.partition as i64),
            ).insert("offset"@, int_view(rec.offset));
            let f = Map::<Seq<char>, JsonView>::empty().insert(
                "die"@,
                JsonView::Str(r.die@),
            ).insert("head"@, JsonView::Str(r.head@)).insert(
                "reason"@,
                JsonView::Str(flag_reason(r)->0),
            ).insert("bl_um"@, JsonView::Real(r.bl_um.json@)).insert(
                "epoxy_mg"@,
                JsonView::Real(r.epoxy_mg.json@),
            ).insert("dx_um"@, JsonView::Real(r.dx_um.json@)).insert(
                "dy_um"@,
                JsonView::Real(r.dy_um.json@),
            ).insert("prober"@, opt_text_view(opt_text(r.prober))).insert(
                "origin"@,
                JsonView::Object(place),
            );
            assert(flag_for(rec, decoded)->0 == json_keyed(r.die@, JsonView::Object(f)));
            assert(place.dom() =~= place.dom());
        }
    }
}

// ---------------------------------------------------------------------------
// Reports

/// A batch that consumed something says first how many records, how many of
/// them in spec and how many flagged, and from where to where it reached; then
/// how many flags went out, if any did; and last what stopped it, if anything
/// did.
pub proof fn a_batch_reports_its_counts(
    w: WorkView,
    records: Seq<ConsumedRecord>,
    at: int,
    cpk: Map<Seq<char>, JsonView>,
)
    ensures
        ({
            let out = closing(w, records, at, cpk);
            let n = |b: bool| -> int
                {
                    if b {
                        1int
                    } else {
                        0int
                    }
                };
            &&& out.len() == n(w.consumed > 0) + n(w.flags > 0) + n(w.failure is Some)
            &&& w.consumed > 0 ==> exists|f: Map<Seq<char>, JsonView>|
                #![trigger metric_view("st02"@, "consumed"@, last_time(records), f)]
                {
                    &&& out[0] == metric_view("st02"@, "consumed"@, last_time(records), f)
                    &&& f["n"@] == JsonView::Uint(w.consumed)
                    &&& f["in_spec"@] == JsonView::Uint(w.in_spec)
                    &&& f["flags"@] == JsonView::Uint(w.flags)
                    &&& f["partition"@] == opt_int_view(partition_of(records))
                    &&& f["first"@] == opt_int_view(first_offset(records))
                    &&& f["last"@] == opt_int_view(last_offset(records))
                }
            &&& w.flags > 0 ==> exists|f: Map<Seq<char>, JsonView>|
                #![trigger metric_view("st02"@, "produced"@, last_time(records), f)]
                {
                    &&& out[n(w.consumed > 0)] == metric_view(
                        "st02"@,
                        "produced"@,
                        last_time(records),
                        f,
                    )
                    &&& f["topic"@] == JsonView::Str("dieattach.flags"@)
                    &&& f["n"@] == JsonView::Uint(w.flags)
                }
        }),
{
    reveal_strlit("n");
    reveal_strlit("in_spec");
    reveal_strlit("flags");
    reveal_strlit("cpk");
    reveal_strlit("partition");
    reveal_strlit("first");
    reveal_strlit("last");
    reveal_strlit("topic");
    assert("n"@.len() == 1 && "in_spec"@.len() == 7 && "flags"@.len() == 5 && "cpk"@.len() == 3
        && "partition"@.len() == 9 && "first"@.len() == 5 && "last"@.len() == 4
        && "topic"@.len() == 5);
    assert("flags"@[1] == 'l');
    assert("first"@[1] == 'i');
    assert("flags"@[0] == 'f');
    assert("topic"@[0] == 't');
    assert("first"@[0] == 'f');
    let out = closing(w, records, at, cpk);
    if w.consumed > 0 {
        let f = crate::stations::die_attach::consumed_extra(
            w.consumed,
            w,
            cpk,
            partition_of(records),
            first_offset(records),
            last_offset(records),
        );
        assert(out[0] == metric_view("st02"@, "consumed"@, last_time(records), f));
    }
    if w.flags > 0 {
        let f = Map::<Seq<char>, JsonView>::empty().insert(
            "topic"@,
            JsonView::Str("dieattach.flags"@),
        ).insert("n"@, JsonView::Uint(w.flags));
        let k: int = if w.consumed > 0 {
            1
        } else {
            0
        };
        assert(out[k] == metric_view("st02"@, "produced"@, last_time(records), f));
    }
}

/// The process capability is told of exactly the heads that have two samples
/// or more, as it was worked out.
pub proof fn capability_needs_two_samples(
    samples: Map<Seq<char>, Seq<u64>>,
    computed: Map<Seq<char>, JsonView>,
    head: Seq<char>,
)
    ensures
        cpk_by_head(samples, computed).dom().contains(head) <==> {
            &&& computed.dom().contains(head)
            &&& samples.dom().contains(head)
            &&& samples[head].len() >= 2
        },
        cpk_by_head(samples, computed).dom().contains(head) ==> cpk_by_head(
            samples,
            computed,
        )[head] == computed[head],
{
}

/// What is wrong with a number that a reading needs.
pub open spec fn wrong_with(v: JsonView, name: Seq<char>) -> Option<Seq<char>> {
    match field(v, name) {
        None => Some(name + " missing"@),
        Some(x) => if has_number(v, name) {
            None
        } else {
            Some(name + " is not a finite number: "@ + json_text_of(x))
        },
    }
}

/// Bytes are refused for the first thing that is wrong with them: that they
/// are no UTF-8, that they are no JSON, that the bond line, the epoxy weight
/// or one of the two placements is no number, in this order, or that they do
/// not decode.
pub proof fn a_reading_is_refused_for_what_is_wrong(
    bytes: Seq<u8>,
    undecodable: Option<Seq<char>>,
    v: JsonView,
)
    ensures
        !valid_utf8(bytes) ==> reading_fault(bytes, undecodable) == Some(
            "value is not valid UTF-8"@,
        ),
        valid_utf8(bytes) ==> (parsed_json(bytes) matches Err(e) ==> reading_fault(
            bytes,
            undecodable,
        ) == Some("not JSON: "@ + e)),
        valid_utf8(bytes) && parsed_json(bytes) == Ok::<JsonView, Seq<char>>(v) ==> {
            let bl = wrong_with(v, "bl_um"@);
            let epoxy = wrong_with(v, "epoxy_mg"@);
            let dx = wrong_with(v, "dx_um"@);
            let dy = wrong_with(v, "dy_um"@);
            let why = reading_fault(bytes, undecodable);
            &&& bl is Some ==> why == bl
            &&& bl is None && epoxy is Some ==> why == epoxy
            &&& bl is None && epoxy is None && dx is Some ==> why == dx
            &&& bl is None && epoxy is None && dx is None && dy is Some ==> why == dy
            &&& bl is None && epoxy is None && dx is None && dy is None ==> (undecodable
                matches Some(e) ==> why == Some("bad reading: "@ + e))
        },
{
}

/// A flag that could not be put out ends the batch before its reading: what
/// was consumed before it is told, up to its record, and the batch is handled
/// through the record before it, or to be delivered again where it is the
/// first.
pub proof fn a_refused_flag_ends_the_batch(
    w: WorkView,
    records: Seq<ConsumedRecord>,
    at: int,
    cpk: Map<Seq<char>, JsonView>,
)
    requires
        w.consumed > 0,
        0 <= at < records.len(),
    ensures
        exists|f: Map<Seq<char>, JsonView>|
            #![trigger metric_view("st02"@, "consumed"@, records.last().timestamp, f)]
            {
                &&& refusal(w, records, at, cpk)
                    == metric_view("st02"@, "consumed"@, records.last().timestamp, f)
                &&& f["n"@] == JsonView::Uint((w.consumed - 1) as u64)
                &&& f["in_spec"@] == JsonView::Uint(w.in_spec)
                &&& f["flags"@] == JsonView::Uint(w.flags)
                &&& f["partition"@] == int_view(records[at].partition as i64)
                &&& f["first"@] == int_view(records[0].offset)
                &&& f["last"@] == int_view(records[at].offset)
                &&& f["cpk"@] == JsonView::Object(cpk_by_head(w.samples, cpk))
            },
        w.handled is Some ==> refused_verdict(w.handled) == Ok::<Option<i64>, HandlerErrorView>(
            w.handled,
        ),
        w.handled is None ==> refused_verdict(w.handled) == Err::<Option<i64>, HandlerErrorView>(
            HandlerErrorView::Transient(Some("flag produce failed"@)),
        ),
{
    reveal_strlit("n");
    reveal_strlit("in_spec");
    reveal_strlit("flags");
    reveal_strlit("partition");
    reveal_strlit("first");
    reveal_strlit("last");
    reveal_strlit("cpk");
    assert("n"@.len() == 1 && "in_spec"@.len() == 7 && "flags"@.len() == 5
        && "partition"@.len() == 9 && "first"@.len() == 5 && "last"@.len() == 4
        && "cpk"@.len() == 3);
    assert("flags"@[1] == 'l');
    assert("first"@[1] == 'i');
    let f = Map::<Seq<char>, JsonView>::empty()
        .insert("n"@, JsonView::Uint((w.consumed - 1) as u64))
        .insert(
        "in_spec"@,
        JsonView::Uint(w.in_spec),
    ).insert("flags"@, JsonView::Uint(w.flags)).insert(
        "cpk"@,
        JsonView::Object(cpk_by_head(w.samples, cpk)),
    ).insert("partition"@, int_view(records[at].partition as i64)).insert(
        "first"@,
        int_view(records[0].offset),
    ).insert("last"@, int_view(records[at].offset));
    assert(refusal(w, records, at, cpk)
        == metric_view("st02"@, "consumed"@, records.last().timestamp, f));
}

/// What failed in a batch is told last, with the die that its record is for.
pub proof fn a_failed_reading_is_told_last(
    w: WorkView,
    records: Seq<ConsumedRecord>,
    at: int,
    cpk: Map<Seq<char>, JsonView>,
)
    requires
        w.failure is Some,
    ensures
        closing(w, records, at, cpk).last() == failure_metric(
            "st02"@,
            "die"@,
            w.handled,
            w.failure->0,
            records[at],
        ),
{
}

} // verus!
