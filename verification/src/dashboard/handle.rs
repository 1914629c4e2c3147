//! Folding the records of every topic the dashboard reads.

use vstd::arithmetic::power2::is_pow2;
use vstd::prelude::*;
use vstd::slice::slice_subrange;
use vstd::string::*;

use super::fold::{fold_metric, folded, note, noted, text_from, text_in, Computed};
use super::model::{
    dlq_owner, dlq_station, push_fault, push_newest, sample_views, station_of, with_fault,
    with_station, first_of, Ledger, LedgerView, Model, ModelView, StationView, DEAD_LETTERS_KEPT,
};
use crate::json::{
    int_view, lemma_list_view, lemma_list_view_push, list_view, opt_int_view, opt_text,
    opt_text_view, opt_uint_view, or_else, parsed_json, read_json, text_field, Fields, Json,
    JsonView,
};
use crate::kafka::{
    header_views, lossy_opt, opt_bytes, opt_lossy, ConsumedRecord, Header, HeaderView,
};
use crate::ordered_map::listed;
use crate::text::{
    contains_text, decimal, decimal_text, has_text, head, head_text, join_texts, joined, lossy,
    lossy_text, signed_decimal, signed_decimal_text, text_eq, texts,
};

verus! {

broadcast use {vstd::string::group_string_axioms, crate::json::lemma_list_view};

// ---------------------------------------------------------------------------
// Texts of records

/// The JSON value of bytes that may be there, where they are one.
pub open spec fn value_in(bytes: Option<Seq<u8>>) -> Option<JsonView> {
    match bytes {
        Some(b) => match parsed_json(b) {
            Ok(v) => Some(v),
            Err(_) => None,
        },
        None => None,
    }
}

/// What a value that may be there stands for.
pub open spec fn opt_json(v: Option<Json>) -> Option<JsonView> {
    match v {
        Some(j) => Some(j@),
        None => None,
    }
}

/// The JSON value of a record, where it has one.
pub fn record_value(rec: &ConsumedRecord) -> (r: Option<Json>)
    ensures
        opt_json(r) == value_in(opt_bytes(rec.value)),
{
    match &rec.value {
        Some(b) => match read_json(b.as_slice()) {
            Ok(v) => Some(v),
            Err(_) => None,
        },
        None => None,
    }
}

// ---------------------------------------------------------------------------
// Dead letters

/// How much of a dead letter's value is kept, in characters.
pub const DEAD_LETTER_HEAD: usize = 300;

/// The headers of a record as fields; of two with one key the later.
pub open spec fn header_fields(headers: Seq<HeaderView>) -> Map<Seq<char>, JsonView>
    decreases headers.len(),
{
    if headers.len() == 0 {
        Map::empty()
    } else {
        header_fields(headers.drop_last()).insert(
            headers.last().key,
            opt_text_view(opt_lossy(headers.last().value)),
        )
    }
}

fn fields_of_headers(headers: &Vec<Header>) -> (r: Fields)
    ensures
        r@ == header_fields(header_views(headers@)),
{
    let mut r = Fields::new();
    let mut i: usize = 0;
    let ghost all = header_views(headers@);
    assert(all.take(0) =~= Seq::empty());
    while i < headers.len()
        invariant
            i <= headers@.len(),
            all == header_views(headers@),
            r@ == header_fields(all.take(i as int)),
        decreases headers@.len() - i,
    {
        proof {
            assert(all.take(i + 1).drop_last() =~= all.take(i as int));
            assert(all.take(i + 1).last() == headers@[i as int]@);
        }
        let text = lossy_opt(&headers[i].value);
        r.set(headers[i].key.clone(), Json::opt_text(&text));
        i = i + 1;
    }
    assert(all.take(all.len() as int) =~= all);
    r
}

/// Whether a header's name says that it holds the reason.
pub open spec fn tells_reason(name: Seq<char>) -> bool {
    contains_text(name, "reason"@) || contains_text(name, "detail"@) || contains_text(
        name,
        "error"@,
    )
}

/// Whether a header's name says that it holds the origin.
pub open spec fn tells_origin(name: Seq<char>) -> bool {
    contains_text(name, "origin"@) || contains_text(name, "source"@)
}

/// The reason in the first header among `names` that tells one.
pub open spec fn reason_among(headers: Map<Seq<char>, JsonView>, names: Seq<Seq<char>>) -> Option<
    Seq<char>,
>
    decreases names.len(),
{
    if names.len() == 0 {
        None
    } else if tells_reason(names[0]) {
        text_in(Some(headers[names[0]]))
    } else {
        reason_among(headers, names.drop_first())
    }
}

/// Each header among `names` that tells an origin, with its text.
pub open spec fn origins_among(headers: Map<Seq<char>, JsonView>, names: Seq<Seq<char>>) -> Seq<
    Seq<char>,
>
    decreases names.len(),
{
    if names.len() == 0 {
        Seq::empty()
    } else {
        let before = origins_among(headers, names.drop_last());
        let k = names.last();
        if tells_origin(k) {
            before.push(k + "="@ + or_else(text_in(Some(headers[k])), ""@))
        } else {
            before
        }
    }
}

/// What a dead letter is said to be there for.
pub open spec fn dead_letter_text(topic: Seq<char>, headers: Map<Seq<char>, JsonView>) -> Seq<
    char,
> {
    let names = listed::<String>(headers.dom());
    let origin = joined(origins_among(headers, names), " "@);
    noted(
        "1 record in "@ + topic + " · "@ + or_else(
            reason_among(headers, names),
            "permanent"@,
        ),
        " · "@,
        if origin.len() == 0 {
            None
        } else {
            Some(origin)
        },
    )
}

fn reason_of(headers: &Fields) -> (r: Option<String>)
    ensures
        opt_text(r) == reason_among(headers@, listed::<String>(headers@.dom())),
{
    let n = headers.len();
    let ghost names = headers.names();
    let mut i: usize = 0;
    assert(names.skip(0) =~= names);
    while i < n
        invariant
            i <= n == names.len(),
            names == headers.names(),
            names == listed::<String>(headers@.dom()),
            reason_among(headers@, names) == reason_among(headers@, names.skip(i as int)),
        decreases n - i,
    {
        let (name, value) = headers.at(i);
        assert(names.skip(i as int)[0] == names[i as int]);
        assert(names.skip(i as int).drop_first() =~= names.skip(i + 1));
        if has_text(name.as_str(), "reason") || has_text(name.as_str(), "detail") || has_text(
            name.as_str(),
            "error",
        ) {
            return text_from(Some(value));
        }
        i = i + 1;
    }
    None
}

fn origins_of(headers: &Fields) -> (r: Vec<String>)
    ensures
        texts(r@) == origins_among(headers@, listed::<String>(headers@.dom())),
{
    let n = headers.len();
    let ghost names = headers.names();
    let mut r: Vec<String> = Vec::new();
    let mut i: usize = 0;
    assert(names.take(0) =~= Seq::empty());
    assert(texts(r@) =~= Seq::empty());
    while i < n
        invariant
            i <= n == names.len(),
            names == headers.names(),
            texts(r@) == origins_among(headers@, names.take(i as int)),
        decreases n - i,
    {
        let (name, value) = headers.at(i);
        proof {
            assert(names.take(i + 1).drop_last() =~= names.take(i as int));
            assert(names.take(i + 1).last() == names[i as int]);
        }
        if has_text(name.as_str(), "origin") || has_text(name.as_str(), "source") {
            let mut t = name.clone();
            t.append("=");
            match text_from(Some(value)) {
                Some(x) => {
                    t.append(x.as_str());
                },
                None => {
                    t.append("");
                },
            }
            assert(texts(r@.push(t)) =~= texts(r@).push(t@));
            r.push(t);
        }
        i = i + 1;
    }
    assert(names.take(n as int) =~= names);
    r
}

fn text_of_dead_letter(topic: &str, headers: &Fields) -> (r: String)
    ensures
        r@ == dead_letter_text(topic@, headers@),
{
    let mut t = "1 record in ".to_owned();
    t.append(topic);
    t.append(" · ");
    match reason_of(headers) {
        Some(x) => {
            t.append(x.as_str());
        },
        None => {
            t.append("permanent");
        },
    }
    let origins = origins_of(headers);
    let origin = join_texts(&origins, " ");
    if text_eq(origin.as_str(), "") {
        proof {
            reveal_strlit("");
        }
        note(t, " · ", None)
    } else {
        proof {
            reveal_strlit("");
            if origin@.len() == 0 {
                assert(origin@ =~= ""@);
            }
        }
        note(t, " · ", Some(origin))
    }
}

/// A dead letter as the page shows it.
pub open spec fn dead_letter_view(rec: ConsumedRecord, now: i64) -> JsonView {
    JsonView::Object(
        Map::empty().insert("ts"@, int_view(or_else(rec.timestamp, now))).insert(
            "topic"@,
            JsonView::Str(rec.topic@),
        ).insert("partition"@, int_view(rec.partition as i64)).insert(
            "offset"@,
            int_view(rec.offset),
        ).insert("key"@, opt_text_view(opt_lossy(opt_bytes(rec.key)))).insert(
            "headers"@,
            JsonView::Object(header_fields(header_views(rec.headers@))),
        ).insert(
            "value"@,
            opt_text_view(
                match rec.value {
                    Some(b) => Some(head(lossy_text(b@), DEAD_LETTER_HEAD as int)),
                    None => None,
                },
            ),
        ),
    )
}

/// The model after a dead letter of a station.
pub open spec fn buried(
    m: ModelView,
    station: Seq<char>,
    rec: ConsumedRecord,
    now: i64,
) -> ModelView {
    let st = station_of(m, station);
    let st = StationView {
        dlq: st.dlq.wrapping_add(1),
        dead_letters: first_of(
            seq![dead_letter_view(rec, now)] + st.dead_letters,
            DEAD_LETTERS_KEPT as int,
        ),
        ..st
    };
    with_fault(
        with_station(m, station, st),
        station,
        or_else(rec.timestamp, now),
        "warn"@,
        dead_letter_text(rec.topic@, header_fields(header_views(rec.headers@))),
        "dead-lettered · partition advanced"@,
    )
}

fn time_of(rec: &ConsumedRecord, now: i64) -> (ts: i64)
    ensures
        ts == or_else(rec.timestamp, now),
{
    match rec.timestamp {
        Some(t) => t,
        None => now,
    }
}

fn value_head(rec: &ConsumedRecord) -> (r: Option<String>)
    ensures
        opt_text(r) == (match rec.value {
            Some(b) => Some(head(lossy_text(b@), DEAD_LETTER_HEAD as int)),
            None => None,
        }),
{
    match &rec.value {
        Some(b) => Some(head_text(lossy(b.as_slice()).as_str(), DEAD_LETTER_HEAD)),
        None => None,
    }
}

/// Counts a dead letter of a station, keeps it among the newest and notes why
/// it is there.
pub fn fold_dead_letter(m: &mut Model, station: &str, rec: &ConsumedRecord, now: i64)
    ensures
        final(m)@ == buried(old(m)@, station@, *rec, now),
{
    let headers = fields_of_headers(&rec.headers);
    let ts = time_of(rec, now);
    let text = text_of_dead_letter(rec.topic.as_str(), &headers);
    let mut letter = Fields::new();
    letter.put("ts", Json::whole(ts));
    letter.put("topic", Json::text(rec.topic.as_str()));
    letter.put("partition", Json::whole(rec.partition as i64));
    letter.put("offset", Json::whole(rec.offset));
    letter.put("key", Json::opt_text(&lossy_opt(&rec.key)));
    letter.put("headers", Json::Object(headers));
    letter.put("value", Json::opt_text(&value_head(rec)));
    let mut st = m.take_station(station);
    st.dlq = st.dlq.wrapping_add(1);
    push_newest(&mut st.dead_letters, Json::Object(letter), DEAD_LETTERS_KEPT);
    m.put_station(station, st);
    push_fault(m, station, ts, "warn", text.as_str(), "dead-lettered · partition advanced");
}

// ---------------------------------------------------------------------------
// Ledgers

/// A ledger after a record of it, with what its value reads as.
pub open spec fn ledger_read(l: LedgerView, v: Option<JsonView>) -> LedgerView {
    let l = LedgerView { records: l.records.wrapping_add(1), ..l };
    match v {
        Some(v) => {
            let l = match text_field(v, "unit"@) {
                Some(unit) => if l.units.contains(unit) {
                    LedgerView { duplicates: l.duplicates.wrapping_add(1), ..l }
                } else {
                    LedgerView { units: l.units.insert(unit), ..l }
                },
                None => l,
            };
            match text_field(v, "disposition"@) {
                Some(d) => if d == "pass"@ {
                    LedgerView { pass: l.pass.wrapping_add(1), ..l }
                } else {
                    LedgerView { fail: l.fail.wrapping_add(1), ..l }
                },
                None => l,
            }
        },
        None => l,
    }
}

/// Counts a record of a ledger, given what its value reads as.
pub fn fold_disposition(ledger: &mut Ledger, v: &Option<Json>)
    ensures
        final(ledger)@ == ledger_read(old(ledger)@, opt_json(*v)),
{
    ledger.records = ledger.records.wrapping_add(1);
    match v {
        Some(v) => {
            match v.text_field("unit") {
                Some(unit) => {
                    let ghost before = ledger.units@;
                    if ledger.units.insert(unit, ()).is_some() {
                        ledger.duplicates = ledger.duplicates.wrapping_add(1);
                        assert(before.insert(unit@, ()).dom() =~= before.dom());
                    } else {
                        assert(before.insert(unit@, ()).dom() =~= before.dom().insert(unit@));
                    }
                },
                None => {},
            }
            match v.text_field("disposition") {
                Some(d) => {
                    if text_eq(d.as_str(), "pass") {
                        ledger.pass = ledger.pass.wrapping_add(1);
                    } else {
                        ledger.fail = ledger.fail.wrapping_add(1);
                    }
                },
                None => {},
            }
        },
        None => {},
    }
}

/// Counts a record of a ledger.
pub fn fold_ledger(ledger: &mut Ledger, rec: &ConsumedRecord)
    ensures
        final(ledger)@ == ledger_read(old(ledger)@, value_in(opt_bytes(rec.value))),
{
    let v = record_value(rec);
    fold_disposition(ledger, &v);
}

/// A ledger after a row of records of it.
pub open spec fn ledger_read_all(l: LedgerView, values: Seq<Option<JsonView>>) -> LedgerView
    decreases values.len(),
{
    if values.len() == 0 {
        l
    } else {
        ledger_read(ledger_read_all(l, values.drop_last()), values.last())
    }
}

/// Whether a ledger record names a unit.
pub open spec fn names_unit(v: Option<JsonView>) -> bool {
    match v {
        Some(v) => text_field(v, "unit"@) is Some,
        None => false,
    }
}

/// How many of a row of ledger records name a unit.
pub open spec fn units_named(values: Seq<Option<JsonView>>) -> nat
    decreases values.len(),
{
    if values.len() == 0 {
        0
    } else {
        units_named(values.drop_last()) + if names_unit(values.last()) {
            1nat
        } else {
            0nat
        }
    }
}

/// Of the records of a ledger that name a unit, each is either the first of
/// its unit or a duplicate: no unit is lost, and none is counted twice.
pub proof fn units_and_duplicates_account_for_the_ledger(values: Seq<Option<JsonView>>)
    requires
        values.len() <= u64::MAX,
    ensures
        ({
            let l = ledger_read_all(super::model::empty_ledger(), values);
            &&& l.units.finite()
            &&& l.records == values.len()
            &&& l.units.len() + l.duplicates == units_named(values)
            &&& units_named(values) <= values.len()
            &&& l.pass + l.fail <= values.len()
        }),
    decreases values.len(),
{
    if values.len() > 0 {
        units_and_duplicates_account_for_the_ledger(values.drop_last());
    }
}

// ---------------------------------------------------------------------------
// Samples

/// How many records of a partition are kept as samples.
pub const SAMPLES_OF_PARTITION: usize = 3;

/// How much of a sample's value is kept, in bytes.
pub const SAMPLE_HEAD: usize = 120;

/// The first bytes of a value.
pub open spec fn first_bytes(b: Seq<u8>) -> Seq<u8> {
    if b.len() <= SAMPLE_HEAD {
        b
    } else {
        b.take(SAMPLE_HEAD as int)
    }
}

/// A record as the samples show it.
pub open spec fn sample_view(rec: ConsumedRecord) -> JsonView {
    JsonView::Object(
        Map::empty().insert("offset"@, int_view(rec.offset)).insert(
            "ts"@,
            opt_int_view(rec.timestamp),
        ).insert("ts_type"@, JsonView::Str(rec.timestamp_type@)).insert(
            "key"@,
            opt_text_view(opt_lossy(opt_bytes(rec.key))),
        ).insert(
            "value_len"@,
            opt_uint_view(
                match rec.value {
                    Some(b) => Some(b@.len() as u64),
                    None => None,
                },
            ),
        ).insert(
            "value_head"@,
            opt_text_view(
                match rec.value {
                    Some(b) => Some(lossy_text(first_bytes(b@))),
                    None => None,
                },
            ),
        ).insert("headers"@, JsonView::Uint(rec.headers@.len() as u64)),
    )
}

/// The name of a record's partition among the samples.
pub open spec fn partition_name(rec: ConsumedRecord) -> Seq<char> {
    rec.topic@ + "/"@ + signed_decimal(rec.partition as int)
}

/// The samples of a partition, none where there are none.
pub open spec fn samples_at(m: Map<Seq<char>, Seq<JsonView>>, name: Seq<char>) -> Seq<JsonView> {
    if m.dom().contains(name) {
        m[name]
    } else {
        Seq::empty()
    }
}

/// The samples after a record: it is one more of its partition, unless there
/// are enough.
pub open spec fn resampled(m: Map<Seq<char>, Seq<JsonView>>, rec: ConsumedRecord) -> Map<
    Seq<char>,
    Seq<JsonView>,
> {
    let seen = samples_at(m, partition_name(rec));
    m.insert(
        partition_name(rec),
        if seen.len() < SAMPLES_OF_PARTITION {
            seen.push(sample_view(rec))
        } else {
            seen
        },
    )
}

fn sample_of(rec: &ConsumedRecord) -> (r: Json)
    ensures
        r@ == sample_view(*rec),
{
    let mut f = Fields::new();
    f.put("offset", Json::whole(rec.offset));
    f.put("ts", Json::opt_int(rec.timestamp));
    f.put("ts_type", Json::text(rec.timestamp_type.as_str()));
    f.put("key", Json::opt_text(&lossy_opt(&rec.key)));
    match &rec.value {
        Some(b) => {
            let len: usize = b.len();
            f.put("value_len", Json::opt_uint(Some(len as u64)));
            let start = if len <= SAMPLE_HEAD {
                b.as_slice()
            } else {
                slice_subrange(b.as_slice(), 0, SAMPLE_HEAD)
            };
            assert(start@ =~= first_bytes(b@));
            let text = Some(lossy(start));
            f.put("value_head", Json::opt_text(&text));
        },
        None => {
            f.put("value_len", Json::opt_uint(None));
            f.put("value_head", Json::opt_text(&None));
        },
    }
    f.put("headers", Json::Uint(rec.headers.len() as u64));
    Json::Object(f)
}

fn take_sample(m: &mut Model, rec: &ConsumedRecord)
    ensures
        final(m)@ == (ModelView { samples: resampled(old(m)@.samples, *rec), ..old(m)@ }),
{
    let mut name = rec.topic.clone();
    name.append("/");
    name.append(signed_decimal_text(rec.partition as i64).as_str());
    let ghost before = m.samples@;
    let taken = m.samples.remove(&name);
    let mut seen: Vec<Json> = match taken {
        Some(v) => v,
        None => Vec::new(),
    };
    assert(list_view(seen@) =~= samples_at(sample_views(before), name@));
    if seen.len() < SAMPLES_OF_PARTITION {
        let s = sample_of(rec);
        proof {
            lemma_list_view_push(seen@, s);
        }
        seen.push(s);
    }
    m.samples.insert(name, seen);
    proof {
        assert(sample_views(before.remove(name@).insert(name@, seen)) =~= sample_views(
            before,
        ).insert(name@, list_view(seen@)));
    }
}

// ---------------------------------------------------------------------------
// Records

fn power_of_two(n: u64) -> (r: bool)
    ensures
        r == is_pow2(n as int),
{
    let mut k = n;
    while k > 1 && k % 2 == 0
        invariant
            is_pow2(n as int) == is_pow2(k as int),
        decreases k,
    {
        proof {
            reveal(is_pow2);
        }
        k = k / 2;
    }
    proof {
        reveal(is_pow2);
    }
    k == 1
}

/// The model after a record of the disposition ledger. A duplicate is
/// reported at each power of two.
pub open spec fn disposed(m: ModelView, rec: ConsumedRecord, now: i64) -> ModelView {
    let l = ledger_read(m.ledger, value_in(opt_bytes(rec.value)));
    let m = ModelView { ledger: l, ..m };
    if l.duplicates > 0 && is_pow2(l.duplicates as int) {
        with_fault(
            m,
            "st06"@,
            or_else(rec.timestamp, now),
            "crit"@,
            decimal(l.duplicates as nat) + " duplicate unit(s) in lot.disposition"@,
            "must read 0"@,
        )
    } else {
        m
    }
}

/// The model after a record of the twin's ledger. The first duplicate is
/// reported, and then each hundredth.
pub open spec fn twin_disposed(m: ModelView, rec: ConsumedRecord, now: i64) -> ModelView {
    let l = ledger_read(m.twin, value_in(opt_bytes(rec.value)));
    let m = ModelView { twin: l, ..m };
    if l.duplicates > 0 && (l.duplicates == 1 || l.duplicates % 100 == 0) {
        with_fault(
            m,
            "st06twin"@,
            or_else(rec.timestamp, now),
            "warn"@,
            decimal(l.duplicates as nat)
                + " duplicate unit(s) in lot.disposition.twin (at-least-once replay)"@,
            "expected"@,
        )
    } else {
        m
    }
}

/// The model after a record of any topic.
pub open spec fn recorded(m: ModelView, rec: ConsumedRecord, now: i64, c: Computed) -> ModelView {
    let m = ModelView { samples: resampled(m.samples, rec), ..m };
    if rec.topic@ == "line.metrics"@ {
        match value_in(opt_bytes(rec.value)) {
            Some(v) => folded(m, v, rec.timestamp, now, c),
            None => ModelView { unparsed: m.unparsed.wrapping_add(1), ..m },
        }
    } else if rec.topic@ == "lot.disposition"@ {
        disposed(m, rec, now)
    } else if rec.topic@ == "lot.disposition.twin"@ {
        twin_disposed(m, rec, now)
    } else {
        match dlq_owner(rec.topic@) {
            Some(station) => buried(m, station, rec, now),
            None => m,
        }
    }
}

/// Counts a batch.
pub fn begin_batch(m: &mut Model)
    ensures
        final(m)@ == (ModelView { batches: old(m)@.batches.wrapping_add(1), ..old(m)@ }),
{
    m.batches = m.batches.wrapping_add(1);
}

/// Folds a record of any topic into the model.
pub fn handle_record(m: &mut Model, rec: &ConsumedRecord, now: i64, c: &Computed)
    ensures
        final(m)@ == recorded(old(m)@, *rec, now, *c),
{
    take_sample(m, rec);
    let topic = rec.topic.as_str();
    if text_eq(topic, "line.metrics") {
        match record_value(rec) {
            Some(v) => {
                fold_metric(m, rec, &v, now, c);
            },
            None => {
                m.unparsed = m.unparsed.wrapping_add(1);
            },
        }
    } else if text_eq(topic, "lot.disposition") {
        fold_ledger(&mut m.ledger, rec);
        let dups = m.ledger.duplicates;
        if dups > 0 && power_of_two(dups) {
            let mut t = decimal_text(dups);
            t.append(" duplicate unit(s) in lot.disposition");
            push_fault(m, "st06", time_of(rec, now), "crit", t.as_str(), "must read 0");
        }
    } else if text_eq(topic, "lot.disposition.twin") {
        fold_ledger(&mut m.twin, rec);
        let dups = m.twin.duplicates;
        if dups > 0 && (dups == 1 || dups % 100 == 0) {
            let mut t = decimal_text(dups);
            t.append(" duplicate unit(s) in lot.disposition.twin (at-least-once replay)");
            push_fault(m, "st06twin", time_of(rec, now), "warn", t.as_str(), "expected");
        }
    } else {
        match dlq_station(topic) {
            Some(station) => {
                fold_dead_letter(m, station, rec, now);
            },
            None => {},
        }
    }
}

} // verus!
