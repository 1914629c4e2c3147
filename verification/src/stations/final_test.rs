//! Final test: each unit gets one disposition and one inventory move, in a
//! transaction with the offsets it was read at.

use vstd::prelude::*;
use vstd::string::*;

use super::instance::{last_time, time_of_last};
use crate::json::{
    counts_json, counts_object, int_view, Fields, Json, JsonView,
};
use crate::kafka::{
    described, json_keyed, json_record, lemma_produce_views_push, metric, metric_view,
    produce_views, ConsumedRecord, KafkaError, ProduceRecord, ProduceView,
};
use crate::measure::{opt_measure, opt_real, real_or_null, Measure};
use crate::ordered_map::{finite_sets_are_listed, listed, OrderedMap};
use crate::text::{contains_text, decimal, decimal_text, has_text};

verus! {

broadcast use vstd::string::group_string_axioms;

/// A tested unit.
pub struct Unit {
    pub unit: String,
    pub lot: String,
    pub bin: u32,
    pub vout: Option<Measure>,
    pub iq_ua: Option<Measure>,
}

/// The bin of units that pass.
pub const PASS_BIN: u32 = 1;

// ---------------------------------------------------------------------------
// Outputs

/// Where a record came from within its topic.
pub open spec fn place_object(rec: ConsumedRecord) -> JsonView {
    JsonView::Object(
        Map::empty().insert("partition"@, int_view(rec.partition as i64)).insert(
            "offset"@,
            int_view(rec.offset),
        ),
    )
}

/// Where a record came from within its topic.
pub fn place_json(rec: &ConsumedRecord) -> (r: Json)
    ensures
        r@ == place_object(*rec),
{
    let mut f = Fields::new();
    f.put("partition", Json::whole(rec.partition as i64));
    f.put("offset", Json::whole(rec.offset));
    Json::Object(f)
}

/// What becomes of a unit.
pub open spec fn fate(bin: u32) -> Seq<char> {
    if bin == PASS_BIN {
        "pass"@
    } else {
        "fail"@
    }
}

/// Where a unit moves.
pub open spec fn destination(bin: u32) -> Seq<char> {
    if bin == PASS_BIN {
        "TR"@
    } else {
        "SCRAP"@
    }
}

/// The disposition of a unit.
pub open spec fn disposition_record(u: Unit, rec: ConsumedRecord) -> ProduceView {
    json_keyed(
        u.unit@,
        JsonView::Object(
            Map::empty().insert("unit"@, JsonView::Str(u.unit@)).insert(
                "lot"@,
                JsonView::Str(u.lot@),
            ).insert("bin"@, JsonView::Uint(u.bin as u64)).insert(
                "disposition"@,
                JsonView::Str(fate(u.bin)),
            ).insert("vout"@, opt_real(opt_measure(u.vout))).insert(
                "iq_ua"@,
                opt_real(opt_measure(u.iq_ua)),
            ).insert("origin"@, place_object(rec)),
        ),
    )
}

/// The inventory move of a unit.
pub open spec fn move_record(unit: Seq<char>, lot: Seq<char>, bin: u32) -> ProduceView {
    json_keyed(
        unit,
        JsonView::Object(
            Map::empty().insert("unit"@, JsonView::Str(unit)).insert(
                "lot"@,
                JsonView::Str(lot),
            ).insert("from"@, JsonView::Str("FT"@)).insert(
                "to"@,
                JsonView::Str(destination(bin)),
            ).insert("qty"@, JsonView::Uint(1)),
        ),
    )
}

/// The disposition of a unit.
pub fn make_disposition(u: &Unit, rec: &ConsumedRecord) -> (r: ProduceRecord)
    ensures
        r@ == disposition_record(*u, *rec),
{
    let mut f = Fields::new();
    f.put("unit", Json::text(u.unit.as_str()));
    f.put("lot", Json::text(u.lot.as_str()));
    f.put("bin", Json::Uint(u.bin as u64));
    f.put(
        "disposition",
        Json::text(
            if u.bin == PASS_BIN {
                "pass"
            } else {
                "fail"
            },
        ),
    );
    f.put("vout", real_or_null(&u.vout));
    f.put("iq_ua", real_or_null(&u.iq_ua));
    f.put("origin", place_json(rec));
    json_record(u.unit.as_str(), &Json::Object(f))
}

/// The inventory move of a unit.
pub fn make_move(unit: &str, lot: &str, bin: u32) -> (r: ProduceRecord)
    ensures
        r@ == move_record(unit@, lot@, bin),
{
    let mut f = Fields::new();
    f.put("unit", Json::text(unit));
    f.put("lot", Json::text(lot));
    f.put("from", Json::text("FT"));
    f.put(
        "to",
        Json::text(
            if bin == PASS_BIN {
                "TR"
            } else {
                "SCRAP"
            },
        ),
    );
    f.put("qty", Json::Uint(1));
    json_record(unit, &Json::Object(f))
}

/// What a batch comes to.
pub struct Outputs {
    pub dispositions: Vec<ProduceRecord>,
    pub moves: Vec<ProduceRecord>,
    /// How many units each bin got, by its number in decimal.
    pub bins: OrderedMap<String, u64>,
    /// How many units each lot has in the batch.
    pub lots: OrderedMap<String, u64>,
    pub malformed: u64,
}

/// What the outputs of a batch stand for.
#[verifier::ext_equal]
pub struct OutputsView {
    pub dispositions: Seq<ProduceView>,
    pub moves: Seq<ProduceView>,
    pub bins: Map<Seq<char>, u64>,
    pub lots: Map<Seq<char>, u64>,
    pub malformed: u64,
}

impl View for Outputs {
    type V = OutputsView;

    open spec fn view(&self) -> OutputsView {
        OutputsView {
            dispositions: produce_views(self.dispositions@),
            moves: produce_views(self.moves@),
            bins: self.bins@,
            lots: self.lots@,
            malformed: self.malformed,
        }
    }
}

/// The outputs of no records.
pub open spec fn no_outputs() -> OutputsView {
    OutputsView {
        dispositions: Seq::empty(),
        moves: Seq::empty(),
        bins: Map::empty(),
        lots: Map::empty(),
        malformed: 0,
    }
}

/// Counts with one more of a name.
pub open spec fn one_more(m: Map<Seq<char>, u64>, name: Seq<char>) -> Map<Seq<char>, u64> {
    m.insert(
        name,
        (if m.dom().contains(name) {
            m[name]
        } else {
            0
        }).wrapping_add(1),
    )
}

fn count_one(m: &mut OrderedMap<String, u64>, name: String)
    ensures
        final(m)@ == one_more(old(m)@, name@),
{
    let had: u64 = match m.get(&name) {
        Some(n) => *n,
        None => 0,
    };
    m.insert(name, had.wrapping_add(1));
}

/// The unit of a record, given what its value decodes as.
pub open spec fn unit_of<U>(rec: ConsumedRecord, decoded: Option<U>) -> Option<U> {
    if rec.value is Some {
        decoded
    } else {
        None
    }
}

/// The outputs with a record worked in.
pub open spec fn worked_in(out: OutputsView, rec: ConsumedRecord, decoded: Option<Unit>) -> OutputsView {
    match unit_of(rec, decoded) {
        Some(u) => OutputsView {
            dispositions: out.dispositions.push(disposition_record(u, rec)),
            moves: out.moves.push(move_record(u.unit@, u.lot@, u.bin)),
            bins: one_more(out.bins, decimal(u.bin as nat)),
            lots: one_more(out.lots, u.lot@),
            ..out
        },
        None => OutputsView { malformed: out.malformed.wrapping_add(1), ..out },
    }
}

/// The outputs of a batch: one disposition and one move per unit, in the
/// order of the records. A record that is no unit is counted and left out.
pub open spec fn transformed(batch: Seq<ConsumedRecord>, decoded: Seq<Option<Unit>>) -> OutputsView
    decreases batch.len(),
{
    if batch.len() == 0 {
        no_outputs()
    } else {
        worked_in(
            transformed(batch.drop_last(), decoded),
            batch.last(),
            decoded[batch.len() - 1],
        )
    }
}

/// The outputs of a batch, given what each record's value decodes as.
pub fn transform(batch: &Vec<ConsumedRecord>, decoded: &Vec<Option<Unit>>) -> (out: Outputs)
    requires
        decoded@.len() == batch@.len(),
    ensures
        out@ == transformed(batch@, decoded@),
{
    let mut out = Outputs {
        dispositions: Vec::new(),
        moves: Vec::new(),
        bins: OrderedMap::new(),
        lots: OrderedMap::new(),
        malformed: 0,
    };
    let mut i: usize = 0;
    assert(batch@.take(0) =~= Seq::empty());
    assert(out@ =~= no_outputs());
    while i < batch.len()
        invariant
            i <= batch@.len(),
            decoded@.len() == batch@.len(),
            out@ == transformed(batch@.take(i as int), decoded@),
        decreases batch@.len() - i,
    {
        proof {
            assert(batch@.take(i + 1).drop_last() =~= batch@.take(i as int));
            assert(batch@.take(i + 1).last() == batch@[i as int]);
        }
        let ghost before = out@;
        let rec = &batch[i];
        if rec.value.is_some() && decoded[i].is_some() {
            match &decoded[i] {
                Some(u) => {
                    let d = make_disposition(u, rec);
                    let m = make_move(u.unit.as_str(), u.lot.as_str(), u.bin);
                    proof {
                        lemma_produce_views_push(out.dispositions@, d);
                        lemma_produce_views_push(out.moves@, m);
                    }
                    out.dispositions.push(d);
                    out.moves.push(m);
                    count_one(&mut out.bins, decimal_text(u.bin as u64));
                    count_one(&mut out.lots, u.lot.clone());
                },
                None => {},
            }
        } else {
            out.malformed = out.malformed.wrapping_add(1);
        }
        assert(out@ =~= worked_in(before, batch@[i as int], decoded@[i as int]));
        i = i + 1;
    }
    assert(batch@.take(batch@.len() as int) =~= batch@);
    out
}

// ---------------------------------------------------------------------------
// Positions

/// A position to commit.
pub struct PartitionOffset {
    pub topic: String,
    pub partition: i32,
    pub offset: i64,
    pub leader_epoch: Option<i32>,
    pub metadata: Option<String>,
}

/// What a position stands for.
#[verifier::ext_equal]
pub struct PositionView {
    pub topic: Seq<char>,
    pub partition: i32,
    pub offset: i64,
    pub leader_epoch: Option<i32>,
    pub metadata: Option<Seq<char>>,
}

impl View for PartitionOffset {
    type V = PositionView;

    open spec fn view(&self) -> PositionView {
        PositionView {
            topic: self.topic@,
            partition: self.partition,
            offset: self.offset,
            leader_epoch: self.leader_epoch,
            metadata: crate::json::opt_text(self.metadata),
        }
    }
}

/// What a row of positions stands for.
pub open spec fn position_views(s: Seq<PartitionOffset>) -> Seq<PositionView> {
    s.map_values(|p: PartitionOffset| p@)
}

/// The topic and partition of a record.
pub open spec fn source_of(rec: ConsumedRecord) -> (Seq<char>, i32) {
    (rec.topic@, rec.partition)
}

/// Whether the record at `i` is the latest of its source: none of the source
/// has a greater offset, and none before it the same.
pub open spec fn is_latest(batch: Seq<ConsumedRecord>, source: (Seq<char>, i32), i: int) -> bool {
    &&& 0 <= i < batch.len()
    &&& source_of(batch[i]) == source
    &&& forall|j: int|
        0 <= j < batch.len() && source_of(#[trigger] batch[j]) == source ==> batch[j].offset
            < batch[i].offset || (batch[j].offset == batch[i].offset && i <= j)
}

/// The sources of a batch.
pub open spec fn sources_of(batch: Seq<ConsumedRecord>) -> Set<(Seq<char>, i32)> {
    Set::new(|s: (Seq<char>, i32)| has_source(batch, s))
}

/// Whether a batch has a record of a source.
pub open spec fn has_source(batch: Seq<ConsumedRecord>, s: (Seq<char>, i32)) -> bool {
    exists|i: int| 0 <= i < batch.len() && source_of(#[trigger] batch[i]) == s
}

/// The position behind a record, with its leader epoch.
pub open spec fn position_behind(rec: ConsumedRecord) -> PositionView {
    PositionView {
        topic: rec.topic@,
        partition: rec.partition,
        offset: rec.offset.wrapping_add(1),
        leader_epoch: rec.leader_epoch,
        metadata: None,
    }
}

/// The positions to commit for a batch: one behind the latest record of each
/// source, in the order of the sources.
pub open spec fn positions_of(batch: Seq<ConsumedRecord>) -> Seq<PositionView> {
    listed::<(String, i32)>(sources_of(batch)).map_values(
        |s: (Seq<char>, i32)| position_behind(batch[choose|i: int| is_latest(batch, s, i)]),
    )
}

proof fn lemma_latest_is_unique(
    batch: Seq<ConsumedRecord>,
    source: (Seq<char>, i32),
    i: int,
    j: int,
)
    requires
        is_latest(batch, source, i),
        is_latest(batch, source, j),
    ensures
        i == j,
{
    assert(source_of(batch[i]) == source && source_of(batch[j]) == source);
}

fn latest_of(batch: &Vec<ConsumedRecord>) -> (r: OrderedMap<(String, i32), usize>)
    ensures
        forall|s: (Seq<char>, i32)| #[trigger] r@.dom().contains(s) <==> has_source(batch@, s),
        forall|s: (Seq<char>, i32)| #[trigger]
            r@.dom().contains(s) ==> is_latest(batch@, s, r@[s] as int),
{
    let mut r: OrderedMap<(String, i32), usize> = OrderedMap::new();
    let mut i: usize = 0;
    while i < batch.len()
        invariant
            i <= batch@.len(),
            forall|s: (Seq<char>, i32)| #[trigger]
                r@.dom().contains(s) <==> has_source(batch@.take(i as int), s),
            forall|s: (Seq<char>, i32)| #[trigger]
                r@.dom().contains(s) ==> is_latest(batch@.take(i as int), s, r@[s] as int),
        decreases batch@.len() - i,
    {
        let rec = &batch[i];
        let key = (rec.topic.clone(), rec.partition);
        let ghost before = r@;
        let ghost a = batch@.take(i as int);
        let ghost b = batch@.take(i + 1);
        let ghost source = source_of(*rec);
        assert(key@ == source);
        let replace = match r.get(&key) {
            Some(k) => {
                let k = *k;
                assert(is_latest(a, source, k as int));
                rec.offset > batch[k].offset
            },
            None => true,
        };
        if replace {
            r.insert(key, i);
        }
        proof {
            assert(b[i as int] == *rec);
            assert forall|j: int| 0 <= j < i implies b[j] == a[j] by {}
            assert forall|s: (Seq<char>, i32)| has_source(b, s) <==> (has_source(a, s) || s
                == source) by {
                if has_source(a, s) {
                    let j = choose|j: int| 0 <= j < a.len() && source_of(#[trigger] a[j]) == s;
                    assert(source_of(b[j]) == s);
                }
                if s == source {
                    assert(source_of(b[i as int]) == s);
                }
                if has_source(b, s) && s != source {
                    let j = choose|j: int| 0 <= j < b.len() && source_of(#[trigger] b[j]) == s;
                    assert(source_of(a[j]) == s);
                }
            }
            assert forall|s: (Seq<char>, i32)| #[trigger]
                r@.dom().contains(s) implies is_latest(b, s, r@[s] as int) by {
                if s != source {
                    assert(before.dom().contains(s));
                    let k = before[s] as int;
                    assert(is_latest(a, s, k));
                    assert forall|j: int|
                        0 <= j < b.len() && source_of(#[trigger] b[j]) == s implies b[j].offset
                        < b[k].offset || (b[j].offset == b[k].offset && k <= j) by {
                        assert(source_of(a[j]) == s);
                    }
                } else if replace {
                    assert forall|j: int|
                        0 <= j < b.len() && source_of(#[trigger] b[j]) == s implies b[j].offset
                        < b[i as int].offset || (b[j].offset == b[i as int].offset && i <= j) by {
                        if j < i {
                            assert(source_of(a[j]) == s);
                            assert(before.dom().contains(s));
                            let k = before[s] as int;
                            assert(is_latest(a, s, k));
                        }
                    }
                } else {
                    let k = before[s] as int;
                    assert(is_latest(a, s, k));
                    assert forall|j: int|
                        0 <= j < b.len() && source_of(#[trigger] b[j]) == s implies b[j].offset
                        < b[k].offset || (b[j].offset == b[k].offset && k <= j) by {
                        if j < i {
                            assert(source_of(a[j]) == s);
                        }
                    }
                }
            }
        }
        i = i + 1;
    }
    assert(batch@.take(batch@.len() as int) =~= batch@);
    r
}

/// The positions to commit for a batch.
pub fn commit_positions(batch: &Vec<ConsumedRecord>) -> (r: Vec<PartitionOffset>)
    ensures
        position_views(r@) == positions_of(batch@),
{
    let latest = latest_of(batch);
    let n = latest.len();
    let ghost names = latest.keys();
    assert(latest@.dom() =~= sources_of(batch@));
    let ghost want = positions_of(batch@);
    let mut r: Vec<PartitionOffset> = Vec::new();
    let mut i: usize = 0;
    while i < n
        invariant
            i <= n == names.len(),
            names == latest.keys(),
            names == listed::<(String, i32)>(sources_of(batch@)),
            want == positions_of(batch@),
            forall|s: (Seq<char>, i32)| #[trigger]
                latest@.dom().contains(s) ==> is_latest(batch@, s, latest@[s] as int),
            position_views(r@) =~= want.take(i as int),
        decreases n - i,
    {
        let k = *latest.value_at(i);
        proof {
            let s = names[i as int];
            assert(is_latest(batch@, s, k as int));
            let chosen = choose|i: int| is_latest(batch@, s, i);
            lemma_latest_is_unique(batch@, s, k as int, chosen);
        }
        let rec = &batch[k];
        let p = PartitionOffset {
            topic: rec.topic.clone(),
            partition: rec.partition,
            offset: rec.offset.wrapping_add(1),
            leader_epoch: rec.leader_epoch,
            metadata: None,
        };
        proof {
            assert(p@ =~= want[i as int]);
            assert(position_views(r@.push(p)) =~= position_views(r@).push(p@));
        }
        r.push(p);
        i = i + 1;
    }
    assert(want.take(n as int) =~= want);
    r
}

// ---------------------------------------------------------------------------
// The transaction

/// The metrics that travel in the transaction of a batch.
pub open spec fn batch_metrics(
    out: OutputsView,
    batch: Seq<ConsumedRecord>,
    out_topic: Seq<char>,
    moves_topic: Seq<char>,
) -> Seq<ProduceView> {
    let ts = last_time(batch);
    seq![
        metric_view(
            "st06"@,
            "consumed"@,
            ts,
            Map::empty().insert("n"@, JsonView::Uint(batch.len() as u64)).insert(
                "malformed"@,
                JsonView::Uint(out.malformed),
            ).insert("bins"@, counts_object(out.bins)).insert(
                "lots"@,
                JsonView::Uint(out.lots.dom().len() as u64),
            ),
        ),
        metric_view(
            "st06"@,
            "produced"@,
            ts,
            Map::empty().insert("topic"@, JsonView::Str(out_topic)).insert(
                "n"@,
                JsonView::Uint(out.dispositions.len() as u64),
            ),
        ),
        metric_view(
            "st06"@,
            "produced"@,
            ts,
            Map::empty().insert("topic"@, JsonView::Str(moves_topic)).insert(
                "n"@,
                JsonView::Uint(out.moves.len() as u64),
            ),
        ),
    ]
}

/// A metric of how many records a topic got.
pub fn produced_metric(station: &str, ts: Option<i64>, topic: &str, n: u64) -> (r: ProduceRecord)
    ensures
        r@ == metric_view(
            station@,
            "produced"@,
            ts,
            Map::empty().insert("topic"@, JsonView::Str(topic@)).insert("n"@, JsonView::Uint(n)),
        ),
{
    let mut f = Fields::new();
    f.put("topic", Json::text(topic));
    f.put("n", Json::Uint(n));
    metric(station, "produced", ts, &f)
}

/// The metrics that travel in the transaction of a batch.
pub fn report_batch(
    out: &Outputs,
    batch: &Vec<ConsumedRecord>,
    out_topic: &str,
    moves_topic: &str,
) -> (r: Vec<ProduceRecord>)
    ensures
        produce_views(r@) == batch_metrics(out@, batch@, out_topic@, moves_topic@),
{
    let ts = time_of_last(batch);
    let mut f = Fields::new();
    f.put("n", Json::Uint(batch.len() as u64));
    f.put("malformed", Json::Uint(out.malformed));
    f.put("bins", counts_json(&out.bins));
    f.put("lots", Json::Uint(out.lots.len() as u64));
    let c = metric("st06", "consumed", ts, &f);
    let d = produced_metric("st06", ts, out_topic, out.dispositions.len() as u64);
    let m = produced_metric("st06", ts, moves_topic, out.moves.len() as u64);
    let mut r: Vec<ProduceRecord> = Vec::new();
    r.push(c);
    r.push(d);
    r.push(m);
    assert(produce_views(r@) =~= batch_metrics(out@, batch@, out_topic@, moves_topic@));
    r
}

/// What is to be done next in the transaction of a batch.
pub enum Step {
    Begin,
    SendDispositions,
    SendMoves,
    SendMetrics,
    SendOffsets,
    Commit,
    /// The transaction is to be aborted, for this reason.
    Abort(String),
    /// The transaction is committed.
    Committed,
    /// Nothing of the batch is committed, for this reason.
    Failed(String),
}

/// What is to be done next, after what came of a step. A failure to begin
/// leaves nothing to abort; any later one is followed by an abort, whatever
/// comes of that.
pub open spec fn next_step(step: Step, result: Result<(), String>) -> Step {
    match step {
        Step::Begin => match result {
            Ok(()) => Step::SendDispositions,
            Err(why) => Step::Failed(why),
        },
        Step::SendDispositions => match result {
            Ok(()) => Step::SendMoves,
            Err(why) => Step::Abort(why),
        },
        Step::SendMoves => match result {
            Ok(()) => Step::SendMetrics,
            Err(why) => Step::Abort(why),
        },
        Step::SendMetrics => match result {
            Ok(()) => Step::SendOffsets,
            Err(why) => Step::Abort(why),
        },
        Step::SendOffsets => match result {
            Ok(()) => Step::Commit,
            Err(why) => Step::Abort(why),
        },
        Step::Commit => match result {
            Ok(()) => Step::Committed,
            Err(why) => Step::Abort(why),
        },
        Step::Abort(why) => Step::Failed(why),
        Step::Committed => Step::Committed,
        Step::Failed(why) => Step::Failed(why),
    }
}

/// What is to be done next, after what came of a step.
pub fn advance(step: Step, result: Result<(), String>) -> (r: Step)
    ensures
        r == next_step(step, result),
{
    match step {
        Step::Begin => match result {
            Ok(()) => Step::SendDispositions,
            Err(why) => Step::Failed(why),
        },
        Step::SendDispositions => match result {
            Ok(()) => Step::SendMoves,
            Err(why) => Step::Abort(why),
        },
        Step::SendMoves => match result {
            Ok(()) => Step::SendMetrics,
            Err(why) => Step::Abort(why),
        },
        Step::SendMetrics => match result {
            Ok(()) => Step::SendOffsets,
            Err(why) => Step::Abort(why),
        },
        Step::SendOffsets => match result {
            Ok(()) => Step::Commit,
            Err(why) => Step::Abort(why),
        },
        Step::Commit => match result {
            Ok(()) => Step::Committed,
            Err(why) => Step::Abort(why),
        },
        Step::Abort(why) => Step::Failed(why),
        Step::Committed => Step::Committed,
        Step::Failed(why) => Step::Failed(why),
    }
}

/// The metric of a committed transaction.
pub fn txn_metric(ms: u64, n: usize, committed: u64, ts: Option<i64>) -> (r: ProduceRecord)
    ensures
        r@ == metric_view(
            "st06"@,
            "txn"@,
            ts,
            Map::empty().insert("ms"@, JsonView::Uint(ms)).insert(
                "n"@,
                JsonView::Uint(n as u64),
            ).insert("committed"@, JsonView::Uint(committed)),
        ),
{
    let mut f = Fields::new();
    f.put("ms", Json::Uint(ms));
    f.put("n", Json::Uint(n as u64));
    f.put("committed", Json::Uint(committed));
    metric("st06", "txn", ts, &f)
}

/// Whether a reason says that the transaction had to be aborted.
pub open spec fn says_abort(why: Seq<char>) -> bool {
    contains_text(why, "requires_abort=true"@)
}

/// Whether a reason says that the error was fatal.
pub open spec fn says_fatal(why: Seq<char>) -> bool {
    contains_text(why, "fatal=true"@)
}

/// The metric of an aborted transaction.
pub fn abort_metric(why: &str, ts: Option<i64>) -> (r: ProduceRecord)
    ensures
        r@ == metric_view(
            "st06"@,
            "txn_abort"@,
            ts,
            Map::empty().insert("reason"@, JsonView::Str(why@)).insert(
                "requires_abort"@,
                JsonView::Bool(says_abort(why@)),
            ).insert("fatal"@, JsonView::Bool(says_fatal(why@))),
        ),
{
    let mut f = Fields::new();
    f.put("reason", Json::text(why));
    f.put("requires_abort", Json::Bool(has_text(why, "requires_abort=true")));
    f.put("fatal", Json::Bool(has_text(why, "fatal=true")));
    metric("st06", "txn_abort", ts, &f)
}

// ---------------------------------------------------------------------------
// Laws

/// Where a transaction stands after what came of each of its steps.
pub open spec fn stepped(results: Seq<Result<(), String>>) -> Step
    decreases results.len(),
{
    if results.len() == 0 {
        Step::Begin
    } else {
        next_step(stepped(results.drop_last()), results.last())
    }
}

/// How far a transaction gets whose first `k` steps succeed.
pub open spec fn step_at(k: nat) -> Step {
    if k == 0 {
        Step::Begin
    } else if k == 1 {
        Step::SendDispositions
    } else if k == 2 {
        Step::SendMoves
    } else if k == 3 {
        Step::SendMetrics
    } else if k == 4 {
        Step::SendOffsets
    } else if k == 5 {
        Step::Commit
    } else {
        Step::Committed
    }
}

/// How many of a row of results are successes before the first failure.
pub open spec fn successes(results: Seq<Result<(), String>>) -> nat
    decreases results.len(),
{
    if results.len() == 0 {
        0
    } else {
        let before = successes(results.drop_last());
        if before == results.len() - 1 && results.last() is Ok {
            results.len()
        } else {
            before
        }
    }
}

/// A batch is committed with everything that belongs to it, or not at all: it
/// is committed exactly where the begin, the dispositions, the moves, the
/// metrics, the offsets and the commit all succeed, in that order. Where one
/// of them fails, an abort follows, unless it was the begin, and the batch
/// fails for the reason that step gave.
pub proof fn a_batch_commits_whole_or_not_at_all(results: Seq<Result<(), String>>)
    ensures
        ({
            let k = successes(results);
            &&& k <= results.len()
            &&& k >= 6 <==> stepped(results) is Committed
            &&& k == results.len() ==> stepped(results) == step_at(k)
            &&& k < results.len() && k < 6 ==> results[k as int] is Err && (stepped(results)
                == Step::Failed(results[k as int]->Err_0) || (k > 0 && results.len() == k + 1
                && stepped(results) == Step::Abort(results[k as int]->Err_0)))
        }),
    decreases results.len(),
{
    if results.len() > 0 {
        let rest = results.drop_last();
        a_batch_commits_whole_or_not_at_all(rest);
        let k = successes(rest);
        if k < rest.len() {
            assert(results[k as int] == rest[k as int]);
        }
    }
}

/// The units of a batch, each with the record it came in.
pub open spec fn units_in(batch: Seq<ConsumedRecord>, decoded: Seq<Option<Unit>>) -> Seq<
    (ConsumedRecord, Unit),
>
    decreases batch.len(),
{
    if batch.len() == 0 {
        Seq::empty()
    } else {
        let before = units_in(batch.drop_last(), decoded);
        match unit_of(batch.last(), decoded[batch.len() - 1]) {
            Some(u) => before.push((batch.last(), u)),
            None => before,
        }
    }
}

/// Every unit of a batch gets one disposition and one move under its own id,
/// in the order of the records; what gets none is counted as malformed.
pub proof fn every_unit_is_disposed_of_once(
    batch: Seq<ConsumedRecord>,
    decoded: Seq<Option<Unit>>,
)
    requires
        batch.len() <= decoded.len(),
        batch.len() <= u64::MAX,
    ensures
        ({
            let out = transformed(batch, decoded);
            let units = units_in(batch, decoded);
            &&& units.len() + out.malformed == batch.len()
            &&& out.dispositions == units.map_values(
                |u: (ConsumedRecord, Unit)| disposition_record(u.1, u.0),
            )
            &&& out.moves == units.map_values(
                |u: (ConsumedRecord, Unit)| move_record(u.1.unit@, u.1.lot@, u.1.bin),
            )
            &&& forall|i: int|
                0 <= i < units.len() ==> (#[trigger] out.moves[i]).key == out.dispositions[i].key
        }),
    decreases batch.len(),
{
    if batch.len() > 0 {
        let rest = batch.drop_last();
        every_unit_is_disposed_of_once(rest, decoded);
        let disposition = |u: (ConsumedRecord, Unit)| disposition_record(u.1, u.0);
        let moved = |u: (ConsumedRecord, Unit)| move_record(u.1.unit@, u.1.lot@, u.1.bin);
        let units = units_in(batch, decoded);
        assert(transformed(batch, decoded).dispositions =~= units.map_values(disposition));
        assert(transformed(batch, decoded).moves =~= units.map_values(moved));
    }
}

/// The sources of a batch are finitely many.
pub proof fn lemma_sources_are_finite(batch: Seq<ConsumedRecord>)
    ensures
        sources_of(batch).finite(),
    decreases batch.len(),
{
    if batch.len() == 0 {
        assert(sources_of(batch) =~= Set::empty());
    } else {
        let rest = batch.drop_last();
        lemma_sources_are_finite(rest);
        assert(sources_of(batch) =~= sources_of(rest).insert(source_of(batch.last()))) by {
            assert forall|s: (Seq<char>, i32)| has_source(batch, s) <==> (has_source(rest, s) || s
                == source_of(batch.last())) by {
                if has_source(rest, s) {
                    let j = choose|j: int|
                        0 <= j < rest.len() && source_of(#[trigger] rest[j]) == s;
                    assert(source_of(batch[j]) == s);
                }
                if s == source_of(batch.last()) {
                    assert(source_of(batch[batch.len() - 1]) == s);
                }
                if has_source(batch, s) && s != source_of(batch.last()) {
                    let j = choose|j: int|
                        0 <= j < batch.len() && source_of(#[trigger] batch[j]) == s;
                    assert(source_of(rest[j]) == s);
                }
            }
        }
    }
}

/// Every record of a batch has a position committed for its source.
pub proof fn every_source_has_a_position(batch: Seq<ConsumedRecord>, i: int)
    requires
        0 <= i < batch.len(),
    ensures
        exists|k: int|
            0 <= k < positions_of(batch).len() && (#[trigger] positions_of(batch)[k]).topic
                == batch[i].topic@ && positions_of(batch)[k].partition == batch[i].partition,
{
    let names = listed::<(String, i32)>(sources_of(batch));
    let s = source_of(batch[i]);
    lemma_sources_are_finite(batch);
    finite_sets_are_listed::<(String, i32)>(sources_of(batch));
    assert(has_source(batch, s));
    assert(sources_of(batch).contains(s));
    assert(names.contains(s));
    let k = choose|k: int| 0 <= k < names.len() && names[k] == s;
    lemma_some_latest(batch, s);
    let j = choose|j: int| is_latest(batch, s, j);
    assert(source_of(batch[j]) == s);
    assert(positions_of(batch)[k] == position_behind(batch[j]));
}

/// The position committed for a source lies behind every record of it in the
/// batch, and right behind one of them; a batch commits no other source.
pub proof fn positions_lie_behind_the_batch(batch: Seq<ConsumedRecord>, k: int)
    requires
        0 <= k < positions_of(batch).len(),
        forall|i: int| 0 <= i < batch.len() ==> (#[trigger] batch[i]).offset < i64::MAX,
    ensures
        ({
            let p = positions_of(batch)[k];
            &&& forall|i: int|
                0 <= i < batch.len() && source_of(#[trigger] batch[i]) == (p.topic, p.partition)
                    ==> batch[i].offset < p.offset
            &&& exists|i: int|
                0 <= i < batch.len() && source_of(#[trigger] batch[i]) == (p.topic, p.partition)
                    && p.offset == batch[i].offset + 1 && p.leader_epoch == batch[i].leader_epoch
        }),
{
    let names = listed::<(String, i32)>(sources_of(batch));
    let s = names[k];
    lemma_sources_are_finite(batch);
    finite_sets_are_listed::<(String, i32)>(sources_of(batch));
    assert(names.contains(s));
    assert(sources_of(batch).contains(s));
    lemma_some_latest(batch, s);
    let i = choose|i: int| is_latest(batch, s, i);
    assert(source_of(batch[i]) == s);
}

/// A source that a batch has a record of has a latest one.
pub proof fn lemma_some_latest(batch: Seq<ConsumedRecord>, s: (Seq<char>, i32))
    requires
        has_source(batch, s),
    ensures
        exists|i: int| is_latest(batch, s, i),
    decreases batch.len(),
{
    let rest = batch.drop_last();
    let last = batch.len() - 1;
    if has_source(rest, s) {
        lemma_some_latest(rest, s);
        let i = choose|i: int| is_latest(rest, s, i);
        if source_of(batch[last]) == s && batch[last].offset > batch[i].offset {
            assert forall|j: int|
                0 <= j < batch.len() && source_of(#[trigger] batch[j]) == s implies batch[j].offset
                < batch[last].offset || (batch[j].offset == batch[last].offset && last <= j) by {
                if j < last {
                    assert(source_of(rest[j]) == s);
                }
            }
            assert(is_latest(batch, s, last));
        } else {
            assert forall|j: int|
                0 <= j < batch.len() && source_of(#[trigger] batch[j]) == s implies batch[j].offset
                < batch[i].offset || (batch[j].offset == batch[i].offset && i <= j) by {
                if j < last {
                    assert(source_of(rest[j]) == s);
                }
            }
            assert(is_latest(batch, s, i));
        }
    } else {
        let i = choose|i: int| 0 <= i < batch.len() && source_of(#[trigger] batch[i]) == s;
        if i < last {
            assert(source_of(rest[i]) == s);
        }
        assert forall|j: int|
            0 <= j < batch.len() && source_of(#[trigger] batch[j]) == s implies j == last by {
            if j < last {
                assert(source_of(rest[j]) == s);
            }
        }
        assert(is_latest(batch, s, last));
    }
}

/// A flag that an error carries is seen in the report of the abort.
pub proof fn flags_are_seen_in_the_report(op: Seq<char>, e: KafkaError)
    ensures
        e.txn_requires_abort ==> says_abort(described(op, e)),
        e.fatal ==> says_fatal(described(op, e)),
{
    reveal_strlit("; requires_abort=");
    reveal_strlit("requires_abort=true");
    reveal_strlit(" fatal=");
    reveal_strlit("fatal=true");
    reveal_strlit("true");
    let d = described(op, e);
    let head = op + ": "@ + e.message@ + " ("@ + e.code@;
    if e.txn_requires_abort {
        let i = head.len() as int + 2;
        assert(d.subrange(i, i + 19) =~= "requires_abort=true"@);
        assert(crate::text::stands_at(d, "requires_abort=true"@, i));
    }
    if e.fatal {
        let i = head.len() as int + 17 + crate::text::bool_word(
            e.txn_requires_abort,
        ).len() as int + 1;
        assert(d.subrange(i, i + 10) =~= "fatal=true"@);
        assert(crate::text::stands_at(d, "fatal=true"@, i));
    }
}

} // verus!
