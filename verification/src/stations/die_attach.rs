//! Die attach: each reading is checked against fixed limits, and one outside
//! of them is flagged.

use vstd::arithmetic::power2::{lemma2_to64, lemma2_to64_rest, lemma_pow2_adds, pow2};
use vstd::prelude::*;
use vstd::string::*;
use vstd::utf8::*;

use super::instance::{
    batch_partition, conclude, failure_metric, fault_in, first_offset, last_offset, last_time,
    offset_of_first, offset_of_last, partition_of, report_failure, time_of_last, verdict_on,
};
use crate::json::{
    field, int_view, json_text, json_text_of, opt_int_view, opt_text, opt_text_view, parsed_json,
    read_json, Fields, Json, JsonView,
};
use crate::kafka::{
    json_keyed, json_record, lemma_produce_views_push, metric, metric_view, produce_views,
    verdict_view, ConsumedRecord, HandlerError, HandlerErrorView, ProduceRecord, ProduceView,
};
use crate::measure::{
    above, at_most, exponent, fraction, greater, lemma_whole, no_greater, value, whole,
    without_sign, Measure, FRACTION,
};
use crate::ordered_map::OrderedMap;
use crate::text::{is_utf8, join_texts, joined, texts};

verus! {

broadcast use vstd::string::group_string_axioms;

/// The least bond-line thickness, 20 um.
pub const BL_UM_LSL: u64 = 0x4034_0000_0000_0000;

/// The greatest bond-line thickness, 30 um.
pub const BL_UM_USL: u64 = 0x403E_0000_0000_0000;

/// The least epoxy weight, 2.5 mg.
pub const EPOXY_MG_LSL: u64 = 0x4004_0000_0000_0000;

/// The greatest epoxy weight, 4 mg.
pub const EPOXY_MG_USL: u64 = 0x4010_0000_0000_0000;

/// The greatest placement offset along an axis, 15 um.
pub const PLACEMENT_UM_MAX: u64 = 0x402E_0000_0000_0000;

/// A reading of the die attach process.
pub struct Reading {
    pub die: String,
    pub head: String,
    pub bl_um: Measure,
    pub epoxy_mg: Measure,
    pub dx_um: Measure,
    pub dy_um: Measure,
    pub prober: Option<String>,
}

// ---------------------------------------------------------------------------
// Checking

/// What a reading is found to be.
pub enum Verdict {
    InSpec,
    Flag(String),
}

/// What a verdict stands for: the reason for a flag.
pub open spec fn flag_of(v: Verdict) -> Option<Seq<char>> {
    match v {
        Verdict::InSpec => None,
        Verdict::Flag(reason) => Some(reason@),
    }
}

/// Whether the bond line is as thick as it should be.
pub open spec fn bond_line_fits(r: Reading) -> bool {
    at_most(BL_UM_LSL, r.bl_um.bits) && at_most(r.bl_um.bits, BL_UM_USL)
}

/// Whether there is as much epoxy as there should be.
pub open spec fn epoxy_fits(r: Reading) -> bool {
    at_most(EPOXY_MG_LSL, r.epoxy_mg.bits) && at_most(r.epoxy_mg.bits, EPOXY_MG_USL)
}

/// How far a measured value is from zero, as a bit pattern.
pub open spec fn distance(m: Measure) -> u64 {
    crate::measure::unsigned(m.bits) as u64
}

/// Whether the die is too far off along an axis.
pub open spec fn misplaced(r: Reading) -> bool {
    above(distance(r.dx_um), PLACEMENT_UM_MAX) || above(distance(r.dy_um), PLACEMENT_UM_MAX)
}

/// What is wrong with a reading, one reason after another.
pub open spec fn reasons_against(r: Reading) -> Seq<Seq<char>> {
    let a: Seq<Seq<char>> = if bond_line_fits(r) {
        Seq::empty()
    } else {
        seq!["bond-line "@ + r.bl_um.shown@ + " um outside 20-30"@]
    };
    let b: Seq<Seq<char>> = if epoxy_fits(r) {
        a
    } else {
        a.push("epoxy "@ + r.epoxy_mg.shown@ + " mg outside 2.5-4"@)
    };
    if misplaced(r) {
        b.push(
            "placement ("@ + r.dx_um.shown@ + ", "@ + r.dy_um.shown@ + ") um beyond ±15"@,
        )
    } else {
        b
    }
}

/// The reason a reading is flagged for, where it is.
pub open spec fn flag_reason(r: Reading) -> Option<Seq<char>> {
    if reasons_against(r).len() == 0 {
        None
    } else {
        Some(joined(reasons_against(r), "; "@))
    }
}

/// Checks a reading against the limits.
pub fn check(r: &Reading) -> (v: Verdict)
    ensures
        flag_of(v) == flag_reason(*r),
{
    let mut reasons: Vec<String> = Vec::new();
    let ghost none: Seq<Seq<char>> = Seq::empty();
    assert(texts(reasons@) =~= none);
    if !(no_greater(BL_UM_LSL, r.bl_um.bits) && no_greater(r.bl_um.bits, BL_UM_USL)) {
        let mut t = "bond-line ".to_owned();
        t.append(r.bl_um.shown.as_str());
        t.append(" um outside 20-30");
        reasons.push(t);
        assert(texts(reasons@) =~= none.push(t@));
        assert(none.push(t@) =~= seq![t@]);
    }
    if !(no_greater(EPOXY_MG_LSL, r.epoxy_mg.bits) && no_greater(r.epoxy_mg.bits, EPOXY_MG_USL)) {
        let mut t = "epoxy ".to_owned();
        t.append(r.epoxy_mg.shown.as_str());
        t.append(" mg outside 2.5-4");
        assert(texts(reasons@.push(t)) =~= texts(reasons@).push(t@));
        reasons.push(t);
    }
    let dx = without_sign(r.dx_um.bits);
    let dy = without_sign(r.dy_um.bits);
    if greater(dx, PLACEMENT_UM_MAX) || greater(dy, PLACEMENT_UM_MAX) {
        let mut t = "placement (".to_owned();
        t.append(r.dx_um.shown.as_str());
        t.append(", ");
        t.append(r.dy_um.shown.as_str());
        t.append(") um beyond ±15");
        assert(texts(reasons@.push(t)) =~= texts(reasons@).push(t@));
        reasons.push(t);
    }
    assert(texts(reasons@).len() == reasons@.len());
    if reasons.len() == 0 {
        Verdict::InSpec
    } else {
        Verdict::Flag(join_texts(&reasons, "; "))
    }
}

// ---------------------------------------------------------------------------
// Reading

/// What is wrong with a field that should hold a number.
pub open spec fn number_fault(v: JsonView, name: Seq<char>) -> Option<Seq<char>> {
    match field(v, name) {
        Some(JsonView::Uint(_)) => None,
        Some(JsonView::Int(_)) => None,
        Some(JsonView::Real(_)) => None,
        Some(other) => Some(name + " is not a finite number: "@ + json_text_of(other)),
        None => Some(name + " missing"@),
    }
}

/// What is wrong with the first field that should hold a number and does not.
pub open spec fn numbers_fault(v: JsonView) -> Option<Seq<char>> {
    match number_fault(v, "bl_um"@) {
        Some(e) => Some(e),
        None => match number_fault(v, "epoxy_mg"@) {
            Some(e) => Some(e),
            None => match number_fault(v, "dx_um"@) {
                Some(e) => Some(e),
                None => number_fault(v, "dy_um"@),
            },
        },
    }
}

fn number_fault_of(v: &Json, name: &str) -> (r: Option<String>)
    ensures
        opt_text(r) == number_fault(v@, name@),
{
    match v.field(name) {
        Some(Json::Uint(_)) => None,
        Some(Json::Int(_)) => None,
        Some(Json::Real(_)) => None,
        Some(other) => {
            let mut t = name.to_owned();
            t.append(" is not a finite number: ");
            t.append(json_text(other).as_str());
            Some(t)
        },
        None => {
            let mut t = name.to_owned();
            t.append(" missing");
            Some(t)
        },
    }
}

/// What is wrong with the first field that should hold a number and does not.
pub fn check_numbers(v: &Json) -> (r: Option<String>)
    ensures
        opt_text(r) == numbers_fault(v@),
{
    match number_fault_of(v, "bl_um") {
        Some(e) => Some(e),
        None => match number_fault_of(v, "epoxy_mg") {
            Some(e) => Some(e),
            None => match number_fault_of(v, "dx_um") {
                Some(e) => Some(e),
                None => number_fault_of(v, "dy_um"),
            },
        },
    }
}

/// Why bytes are no reading, given why they do not decode as one, if they do
/// not.
pub open spec fn reading_fault(bytes: Seq<u8>, undecodable: Option<Seq<char>>) -> Option<
    Seq<char>,
> {
    if !valid_utf8(bytes) {
        Some("value is not valid UTF-8"@)
    } else {
        match parsed_json(bytes) {
            Err(e) => Some("not JSON: "@ + e),
            Ok(v) => match numbers_fault(v) {
                Some(e) => Some(e),
                None => match undecodable {
                    Some(e) => Some("bad reading: "@ + e),
                    None => None,
                },
            },
        }
    }
}

/// The reading in bytes, given what they decode as; or why they are none.
pub fn parse(value: &[u8], decoded: Result<Reading, String>) -> (r: Result<Reading, String>)
    ensures
        fault_in(r) == reading_fault(value@, fault_in(decoded)),
        r is Ok ==> r == decoded,
{
    if !is_utf8(value) {
        return Err("value is not valid UTF-8".to_owned());
    }
    match read_json(value) {
        Err(e) => {
            let mut t = "not JSON: ".to_owned();
            t.append(e.as_str());
            Err(t)
        },
        Ok(v) => match check_numbers(&v) {
            Some(e) => Err(e),
            None => match decoded {
                Ok(r) => Ok(r),
                Err(e) => {
                    let mut t = "bad reading: ".to_owned();
                    t.append(e.as_str());
                    Err(t)
                },
            },
        },
    }
}

// ---------------------------------------------------------------------------
// A batch

/// The flag of a reading that is out of spec.
pub open spec fn flag_record(r: Reading, reason: Seq<char>, rec: ConsumedRecord) -> ProduceView {
    json_keyed(
        r.die@,
        JsonView::Object(
            Map::empty().insert("die"@, JsonView::Str(r.die@)).insert(
                "head"@,
                JsonView::Str(r.head@),
            ).insert("reason"@, JsonView::Str(reason)).insert(
                "bl_um"@,
                JsonView::Real(r.bl_um.json@),
            ).insert("epoxy_mg"@, JsonView::Real(r.epoxy_mg.json@)).insert(
                "dx_um"@,
                JsonView::Real(r.dx_um.json@),
            ).insert("dy_um"@, JsonView::Real(r.dy_um.json@)).insert(
                "prober"@,
                opt_text_view(opt_text(r.prober)),
            ).insert(
                "origin"@,
                JsonView::Object(
                    Map::empty().insert("partition"@, int_view(rec.partition as i64)).insert(
                        "offset"@,
                        int_view(rec.offset),
                    ),
                ),
            ),
        ),
    )
}

fn make_flag(r: &Reading, reason: &str, rec: &ConsumedRecord) -> (f: ProduceRecord)
    ensures
        f@ == flag_record(*r, reason@, *rec),
{
    let mut origin = Fields::new();
    origin.put("partition", Json::whole(rec.partition as i64));
    origin.put("offset", Json::whole(rec.offset));
    let mut f = Fields::new();
    f.put("die", Json::text(r.die.as_str()));
    f.put("head", Json::text(r.head.as_str()));
    f.put("reason", Json::text(reason));
    f.put("bl_um", Json::Real(r.bl_um.json.clone()));
    f.put("epoxy_mg", Json::Real(r.epoxy_mg.json.clone()));
    f.put("dx_um", Json::Real(r.dx_um.json.clone()));
    f.put("dy_um", Json::Real(r.dy_um.json.clone()));
    f.put("prober", Json::opt_text(&r.prober));
    f.put("origin", Json::Object(origin));
    json_record(r.die.as_str(), &Json::Object(f))
}

/// What has been done of a batch.
pub struct Work {
    /// The offset the batch is handled through.
    pub handled: Option<i64>,
    pub consumed: u64,
    pub in_spec: u64,
    pub flags: u64,
    /// The bond-line thicknesses of each head, as bit patterns.
    pub samples: OrderedMap<String, Vec<u64>>,
    /// Why the work stopped.
    pub failure: Option<String>,
}

/// What the work on a batch stands for.
#[verifier::ext_equal]
pub struct WorkView {
    pub handled: Option<i64>,
    pub consumed: u64,
    pub in_spec: u64,
    pub flags: u64,
    pub samples: Map<Seq<char>, Seq<u64>>,
    pub failure: Option<Seq<char>>,
}

impl View for Work {
    type V = WorkView;

    open spec fn view(&self) -> WorkView {
        WorkView {
            handled: self.handled,
            consumed: self.consumed,
            in_spec: self.in_spec,
            flags: self.flags,
            samples: self.samples@.map_values(|v: Vec<u64>| v@),
            failure: opt_text(self.failure),
        }
    }
}

/// Nothing done yet.
pub open spec fn no_work() -> WorkView {
    WorkView {
        handled: None,
        consumed: 0,
        in_spec: 0,
        flags: 0,
        samples: Map::empty(),
        failure: None,
    }
}

/// What comes next in a batch.
pub enum Step {
    /// The next record.
    Next,
    /// This flag is to be sent, and what comes of it noted.
    Send(ProduceRecord),
    /// The end of the work.
    Stop,
}

/// The samples with one more of a head.
pub open spec fn sampled(samples: Map<Seq<char>, Seq<u64>>, head: Seq<char>, bits: u64) -> Map<
    Seq<char>,
    Seq<u64>,
> {
    let had = if samples.dom().contains(head) {
        samples[head]
    } else {
        Seq::empty()
    };
    samples.insert(head, had.push(bits))
}

/// The work after a record, given what its value decodes as. A flag is not
/// counted before it is sent.
pub open spec fn worked(w: WorkView, rec: ConsumedRecord, decoded: Result<Reading, String>) -> WorkView {
    match rec.value {
        None => WorkView {
            handled: Some(rec.offset),
            consumed: w.consumed.wrapping_add(1),
            ..w
        },
        Some(value) => match reading_fault(value@, fault_in(decoded)) {
            Some(reason) => WorkView { failure: Some(reason), ..w },
            None => {
                let r = decoded->Ok_0;
                let w = WorkView {
                    consumed: w.consumed.wrapping_add(1),
                    samples: sampled(w.samples, r.head@, r.bl_um.bits),
                    ..w
                };
                if flag_reason(r) is Some {
                    w
                } else {
                    WorkView {
                        in_spec: w.in_spec.wrapping_add(1),
                        handled: Some(rec.offset),
                        ..w
                    }
                }
            },
        },
    }
}

/// The flag that a record calls for, given what its value decodes as.
pub open spec fn flag_for(rec: ConsumedRecord, decoded: Result<Reading, String>) -> Option<
    ProduceView,
> {
    match rec.value {
        None => None,
        Some(value) => match reading_fault(value@, fault_in(decoded)) {
            Some(_) => None,
            None => match flag_reason(decoded->Ok_0) {
                Some(reason) => Some(flag_record(decoded->Ok_0, reason, rec)),
                None => None,
            },
        },
    }
}

/// The work after a flag was sent.
pub open spec fn flagged(w: WorkView, offset: i64) -> WorkView {
    WorkView { flags: w.flags.wrapping_add(1), handled: Some(offset), ..w }
}

impl Work {
    /// Nothing done yet.
    pub fn new() -> (r: Work)
        ensures
            r@ == no_work(),
    {
        let r = Work {
            handled: None,
            consumed: 0,
            in_spec: 0,
            flags: 0,
            samples: OrderedMap::new(),
            failure: None,
        };
        assert(r@ =~= no_work());
        r
    }

    fn sample(&mut self, head: &String, bits: u64)
        ensures
            final(self)@ == (WorkView {
                samples: sampled(old(self)@.samples, head@, bits),
                ..old(self)@
            }),
    {
        let ghost before = self.samples@;
        let mut had: Vec<u64> = match self.samples.remove(head) {
            Some(v) => v,
            None => Vec::new(),
        };
        had.push(bits);
        self.samples.insert(head.clone(), had);
        assert(self.samples@.map_values(|v: Vec<u64>| v@) =~= sampled(
            before.map_values(|v: Vec<u64>| v@),
            head@,
            bits,
        ));
    }

    /// Works on a record, given what its value decodes as.
    pub fn take(&mut self, rec: &ConsumedRecord, decoded: Result<Reading, String>) -> (s: Step)
        ensures
            final(self)@ == worked(old(self)@, *rec, decoded),
            match s {
                Step::Next => flag_for(*rec, decoded) is None && (rec.value is None
                    || reading_fault(rec.value->0@, fault_in(decoded)) is None),
                Step::Send(f) => flag_for(*rec, decoded) == Some(f@),
                Step::Stop => rec.value is Some && reading_fault(
                    rec.value->0@,
                    fault_in(decoded),
                ) is Some,
            },
    {
        let value = match &rec.value {
            Some(value) => value,
            None => {
                self.handled = Some(rec.offset);
                self.consumed = self.consumed.wrapping_add(1);
                return Step::Next;
            },
        };
        match parse(value.as_slice(), decoded) {
            Err(reason) => {
                self.failure = Some(reason);
                Step::Stop
            },
            Ok(r) => {
                self.consumed = self.consumed.wrapping_add(1);
                self.sample(&r.head, r.bl_um.bits);
                match check(&r) {
                    Verdict::InSpec => {
                        self.in_spec = self.in_spec.wrapping_add(1);
                        self.handled = Some(rec.offset);
                        Step::Next
                    },
                    Verdict::Flag(reason) => Step::Send(make_flag(&r, reason.as_str(), rec)),
                }
            },
        }
    }

    /// Notes that the flag of a record was sent.
    pub fn sent(&mut self, rec: &ConsumedRecord)
        ensures
            final(self)@ == flagged(old(self)@, rec.offset),
    {
        self.flags = self.flags.wrapping_add(1);
        self.handled = Some(rec.offset);
    }
}

// ---------------------------------------------------------------------------
// Reporting

/// The process capability of each head that has at least two samples, as it
/// was computed.
pub open spec fn cpk_by_head(
    samples: Map<Seq<char>, Seq<u64>>,
    computed: Map<Seq<char>, JsonView>,
) -> Map<Seq<char>, JsonView> {
    computed.restrict(
        Set::new(|h: Seq<char>| samples.dom().contains(h) && samples[h].len() >= 2),
    )
}

/// Whether a head has enough samples.
pub open spec fn has_enough(samples: Map<Seq<char>, Seq<u64>>, head: Seq<char>) -> bool {
    samples.dom().contains(head) && samples[head].len() >= 2
}

fn select_cpk(samples: &OrderedMap<String, Vec<u64>>, computed: &Fields) -> (r: Fields)
    ensures
        r@ == cpk_by_head(samples@.map_values(|v: Vec<u64>| v@), computed@),
{
    let ghost all = samples@.map_values(|v: Vec<u64>| v@);
    let n = computed.len();
    let ghost names = computed.names();
    let mut r = Fields::new();
    let mut i: usize = 0;
    while i < n
        invariant
            i <= n == names.len(),
            names == computed.names(),
            all == samples@.map_values(|v: Vec<u64>| v@),
            forall|k: Seq<char>| #[trigger]
                r@.dom().contains(k) <==> (names.take(i as int).contains(k) && has_enough(all, k)),
            forall|k: Seq<char>| #[trigger]
                r@.dom().contains(k) ==> computed@.dom().contains(k) && r@[k] == computed@[k],
        decreases n - i,
    {
        let (name, value) = computed.at(i);
        proof {
            let a = names.take(i as int);
            let b = names.take(i + 1);
            assert(b =~= a.push(name@));
            assert forall|k: Seq<char>| b.contains(k) <==> (a.contains(k) || k == name@) by {
                if a.contains(k) {
                    let j = choose|j: int| 0 <= j < a.len() && a[j] == k;
                    assert(b[j] == k);
                }
                if k == name@ {
                    assert(b[i as int] == k);
                }
            }
        }
        match samples.get(name) {
            Some(v) => {
                if v.len() >= 2 {
                    let copy = value.copy();
                    r.set(name.clone(), copy);
                }
            },
            None => {},
        }
        i = i + 1;
    }
    proof {
        assert(names.take(n as int) =~= names);
        assert(r@ =~= cpk_by_head(all, computed@));
    }
    r
}

/// What a `consumed` metric tells.
pub open spec fn consumed_extra(
    n: u64,
    w: WorkView,
    cpk: Map<Seq<char>, JsonView>,
    partition: Option<i64>,
    first: Option<i64>,
    last: Option<i64>,
) -> Map<Seq<char>, JsonView> {
    Map::empty().insert("n"@, JsonView::Uint(n)).insert(
        "in_spec"@,
        JsonView::Uint(w.in_spec),
    ).insert("flags"@, JsonView::Uint(w.flags)).insert(
        "cpk"@,
        JsonView::Object(cpk_by_head(w.samples, cpk)),
    ).insert("partition"@, opt_int_view(partition)).insert("first"@, opt_int_view(first)).insert(
        "last"@,
        opt_int_view(last),
    )
}

fn consumed_fields(
    n: u64,
    w: &Work,
    cpk: &Fields,
    partition: Option<i64>,
    first: Option<i64>,
    last: Option<i64>,
) -> (r: Fields)
    ensures
        r@ == consumed_extra(n, w@, cpk@, partition, first, last),
{
    let mut f = Fields::new();
    f.put("n", Json::Uint(n));
    f.put("in_spec", Json::Uint(w.in_spec));
    f.put("flags", Json::Uint(w.flags));
    f.put("cpk", Json::Object(select_cpk(&w.samples, cpk)));
    f.put("partition", Json::opt_int(partition));
    f.put("first", Json::opt_int(first));
    f.put("last", Json::opt_int(last));
    f
}

/// The metrics that a batch ends with: what was consumed, what was flagged,
/// and what failed.
pub open spec fn closing(
    w: WorkView,
    records: Seq<ConsumedRecord>,
    at: int,
    cpk: Map<Seq<char>, JsonView>,
) -> Seq<ProduceView> {
    let ts = last_time(records);
    let a: Seq<ProduceView> = if w.consumed > 0 {
        seq![
            metric_view(
                "st02"@,
                "consumed"@,
                ts,
                consumed_extra(
                    w.consumed,
                    w,
                    cpk,
                    partition_of(records),
                    first_offset(records),
                    last_offset(records),
                ),
            ),
        ]
    } else {
        Seq::empty()
    };
    let b = if w.flags > 0 {
        a.push(
            metric_view(
                "st02"@,
                "produced"@,
                ts,
                Map::empty().insert("topic"@, JsonView::Str("dieattach.flags"@)).insert(
                    "n"@,
                    JsonView::Uint(w.flags),
                ),
            ),
        )
    } else {
        a
    };
    match w.failure {
        Some(reason) => b.push(
            failure_metric("st02"@, "die"@, w.handled, reason, records[at]),
        ),
        None => b,
    }
}

/// The metrics that a batch ends with where a flag was not taken: all but the
/// record it is for counts.
pub open spec fn refusal(
    w: WorkView,
    records: Seq<ConsumedRecord>,
    at: int,
    cpk: Map<Seq<char>, JsonView>,
) -> ProduceView {
    metric_view(
        "st02"@,
        "consumed"@,
        last_time(records),
        consumed_extra(
            w.consumed.wrapping_sub(1),
            w,
            cpk,
            Some(records[at].partition as i64),
            first_offset(records),
            Some(records[at].offset),
        ),
    )
}

/// The answer where a flag was not taken: the work done so far is kept, and
/// with none the batch is retried.
pub open spec fn refused_verdict(handled: Option<i64>) -> Result<Option<i64>, HandlerErrorView> {
    match handled {
        Some(offset) => Ok(Some(offset)),
        None => Err(HandlerErrorView::Transient(Some("flag produce failed"@))),
    }
}

impl Work {
    /// Ends a batch, with the record the work stopped at where it failed:
    /// the metrics to send, and the answer.
    pub fn finish(self, records: &Vec<ConsumedRecord>, at: usize, cpk: &Fields) -> (r: (
        Vec<ProduceRecord>,
        Result<Option<i64>, HandlerError>,
    ))
        requires
            self.failure is Some ==> at < records@.len(),
        ensures
            produce_views(r.0@) == closing(self@, records@, at as int, cpk@),
            verdict_view(r.1) == verdict_on(self.handled, opt_text(self.failure)),
    {
        let ts = time_of_last(records);
        let mut r: Vec<ProduceRecord> = Vec::new();
        let ghost none: Seq<ProduceView> = Seq::empty();
        assert(produce_views(r@) =~= none);
        if self.consumed > 0 {
            let f = consumed_fields(
                self.consumed,
                &self,
                cpk,
                batch_partition(records),
                offset_of_first(records),
                offset_of_last(records),
            );
            let m = metric("st02", "consumed", ts, &f);
            proof {
                lemma_produce_views_push(r@, m);
                assert(none.push(m@) =~= seq![m@]);
            }
            r.push(m);
        }
        if self.flags > 0 {
            let mut f = Fields::new();
            f.put("topic", Json::text("dieattach.flags"));
            f.put("n", Json::Uint(self.flags));
            let m = metric("st02", "produced", ts, &f);
            proof {
                lemma_produce_views_push(r@, m);
            }
            r.push(m);
        }
        match &self.failure {
            Some(reason) => {
                let m = report_failure("st02", "die", self.handled, reason.as_str(), &records[at]);
                proof {
                    lemma_produce_views_push(r@, m);
                }
                r.push(m);
            },
            None => {},
        }
        let verdict = conclude(self.handled, self.failure);
        (r, verdict)
    }

    /// Ends a batch where the flag of a record was not taken: the metric to
    /// send, and the answer.
    pub fn refuse(self, records: &Vec<ConsumedRecord>, at: usize, cpk: &Fields) -> (r: (
        ProduceRecord,
        Result<Option<i64>, HandlerError>,
    ))
        requires
            at < records@.len(),
        ensures
            r.0@ == refusal(self@, records@, at as int, cpk@),
            verdict_view(r.1) == refused_verdict(self.handled),
    {
        let f = consumed_fields(
            self.consumed.wrapping_sub(1),
            &self,
            cpk,
            Some(records[at].partition as i64),
            offset_of_first(records),
            Some(records[at].offset),
        );
        let m = metric("st02", "consumed", time_of_last(records), &f);
        let verdict = match self.handled {
            Some(offset) => Ok(Some(offset)),
            None => Err(HandlerError::Transient(Some("flag produce failed".to_owned()))),
        };
        (m, verdict)
    }
}

// ---------------------------------------------------------------------------
// Laws

/// The limits are what they are called: 20 to 30 um of bond line, 2.5 to 4 mg
/// of epoxy, and 15 um of placement offset.
pub proof fn the_limits_are_exact()
    ensures
        value(BL_UM_LSL) == whole(20),
        value(BL_UM_USL) == whole(30),
        2 * value(EPOXY_MG_LSL) == whole(5),
        value(EPOXY_MG_USL) == whole(4),
        value(PLACEMENT_UM_MAX) == whole(15),
{
    lemma2_to64_rest();
    lemma_whole(BL_UM_LSL, 20, 48);
    lemma_whole(BL_UM_USL, 30, 48);
    lemma_whole(EPOXY_MG_USL, 4, 50);
    lemma_whole(PLACEMENT_UM_MAX, 15, 49);
    lemma_pow2_adds(1, 1073);
    lemma_pow2_adds(50, 1023);
    lemma2_to64();
    let p = pow2(1023) as int;
    assert(exponent(EPOXY_MG_LSL) == 1024);
    assert(FRACTION + fraction(EPOXY_MG_LSL) == 5 * pow2(50));
    assert((5 * pow2(50)) * p == 5 * (pow2(50) * p)) by (nonlinear_arith);
}

/// A reading within the limits is in spec, and any other is flagged.
pub proof fn a_reading_is_flagged_when_it_is_out_of_spec(r: Reading)
    ensures
        flag_reason(r) is None <==> bond_line_fits(r) && epoxy_fits(r) && !misplaced(r),
{
}

/// A record and what its value decodes as.
pub struct Item {
    pub rec: ConsumedRecord,
    pub decoded: Result<Reading, String>,
}

/// The work after a record whose flag, if it calls for one, is taken. Behind
/// a failure nothing is worked on.
pub open spec fn worked_on(w: WorkView, i: Item) -> WorkView {
    if w.failure is Some {
        w
    } else {
        let done = worked(w, i.rec, i.decoded);
        if flag_for(i.rec, i.decoded) is Some {
            flagged(done, i.rec.offset)
        } else {
            done
        }
    }
}

/// The work after a batch whose flags are all taken.
pub open spec fn worked_through(items: Seq<Item>) -> WorkView
    decreases items.len(),
{
    if items.len() == 0 {
        no_work()
    } else {
        worked_on(worked_through(items.drop_last()), items.last())
    }
}

/// Whether a record cannot be read.
pub open spec fn is_malformed(i: Item) -> bool {
    i.rec.value is Some && reading_fault(i.rec.value->0@, fault_in(i.decoded)) is Some
}

/// How many of a row of records have no value.
pub open spec fn tombstones(items: Seq<Item>) -> nat
    decreases items.len(),
{
    if items.len() == 0 {
        0
    } else {
        tombstones(items.drop_last()) + if items.last().rec.value is None {
            1nat
        } else {
            0nat
        }
    }
}

/// Every record of a batch is accounted for. Without a malformed one, all are
/// consumed and the last is handled. Otherwise those before the first
/// malformed one are consumed, and the one before it is the last handled.
/// What is consumed is in spec, flagged or without a value.
pub proof fn every_record_is_accounted_for(items: Seq<Item>)
    requires
        items.len() <= u64::MAX,
    ensures
        ({
            let w = worked_through(items);
            let n = w.consumed as int;
            &&& w.failure is None ==> n == items.len() && forall|i: int|
                0 <= i < items.len() ==> !is_malformed(#[trigger] items[i])
            &&& w.failure is Some ==> n < items.len() && is_malformed(items[n]) && forall|i: int|
                0 <= i < n ==> !is_malformed(#[trigger] items[i])
            &&& w.handled == if n == 0 {
                None
            } else {
                Some(items[n - 1].rec.offset)
            }
            &&& w.in_spec + w.flags + tombstones(items.take(n)) == n
        }),
    decreases items.len(),
{
    if items.len() > 0 {
        let rest = items.drop_last();
        every_record_is_accounted_for(rest);
        let before = worked_through(rest);
        let w = worked_through(items);
        let n = before.consumed as int;
        assert(items.take(n) =~= rest.take(n));
        assert forall|i: int| 0 <= i < rest.len() implies items[i] == rest[i] by {}
        if before.failure is Some {
            assert(items[n] == rest[n]);
            assert forall|i: int| 0 <= i < n implies !is_malformed(#[trigger] items[i]) by {
                assert(items[i] == rest[i]);
            }
        } else {
            assert(n == rest.len());
            assert forall|i: int| 0 <= i < n implies !is_malformed(#[trigger] items[i]) by {
                assert(items[i] == rest[i]);
            }
            if !is_malformed(items.last()) {
                assert(items.take(n + 1) =~= items);
                assert(items.take(n) =~= rest);
                assert(w.consumed == n + 1);
            }
        }
    } else {
        assert(items.take(0) =~= items);
    }
}

/// A record whose flag is refused does not count: behind a batch that went
/// well, the refusal reports what was consumed, put in spec and flagged before
/// it, and keeps what was handled before it.
pub proof fn a_refused_flag_is_not_counted(items: Seq<Item>, refused: Item)
    requires
        items.len() < u64::MAX,
        worked_through(items).failure is None,
        flag_for(refused.rec, refused.decoded) is Some,
    ensures
        ({
            let before = worked_through(items);
            let w = worked(before, refused.rec, refused.decoded);
            &&& w.consumed.wrapping_sub(1) == items.len()
            &&& w.in_spec == before.in_spec
            &&& w.flags == before.flags
            &&& w.handled == before.handled
            &&& w.failure is None
            &&& refused_verdict(w.handled) is Ok <==> items.len() > 0
        }),
{
    every_record_is_accounted_for(items);
}

} // verus!
