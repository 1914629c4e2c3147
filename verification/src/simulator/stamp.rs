//! Ids that are unique across passes.

use vstd::prelude::*;
use vstd::string::*;
use vstd::utf8::*;

use super::catalog::{key_field, key_name, line_views, Line, LineView};
use crate::kafka::{
    keyed, lemma_produce_views_push, produce_views, to_record, ProduceRecord, ProduceView,
};
use crate::text::{
    contains_text, decimal, decimal_is_injective, decimal_text, first_place, hex, hex_text,
    lemma_decimal_digits, lemma_found_somewhere, replace_first, replaced_first, stands_at, text_eq,
};

verus! {

broadcast use vstd::string::group_string_axioms;

/// Whether a topic's records are each a thing of their own, whose id must be
/// unique across passes.
pub open spec fn has_unique_ids(topic: Seq<char>) -> bool {
    topic == "probe.lots"@ || topic == "dieattach.readings"@ || topic == "inspect.jobs"@ || topic
        == "finaltest.bins"@
}

/// Whether a topic's record ids must be unique across passes. The ids of
/// entities, bonders and presses, stay as they are.
pub fn unique_per_pass(topic: &str) -> (r: bool)
    ensures
        r == has_unique_ids(topic@),
{
    text_eq(topic, "probe.lots") || text_eq(topic, "dieattach.readings") || text_eq(
        topic,
        "inspect.jobs",
    ) || text_eq(topic, "finaltest.bins")
}

/// The tag of a pass, or of the playing of an overlay.
pub open spec fn tag_of(epoch: Seq<char>, pass: u64, overlay: bool) -> Seq<char> {
    if overlay {
        epoch + ".o"@ + decimal(pass as nat)
    } else {
        epoch + "."@ + decimal(pass as nat)
    }
}

/// An id with its tag.
pub open spec fn stamped_key(key: Seq<char>, tag: Seq<char>) -> Seq<char> {
    key + "~"@ + tag
}

/// The key field of a record as it stands in the record.
pub open spec fn quoted(name: Seq<char>, key: Seq<char>) -> Seq<char> {
    "\""@ + name + "\":\""@ + key + "\""@
}

/// A record with its id stamped, in the key and where it first stands in the
/// value, or as it is where its id is that of an entity.
pub open spec fn stamped(
    line: LineView,
    topic: Seq<char>,
    epoch: Seq<char>,
    pass: u64,
    overlay: bool,
) -> ProduceView {
    if has_unique_ids(topic) {
        let key = stamped_key(line.key, tag_of(epoch, pass, overlay));
        keyed(
            key,
            encode_utf8(
                replaced_first(
                    line.value,
                    quoted(key_name(topic), line.key),
                    quoted(key_name(topic), key),
                ),
            ),
        )
    } else {
        keyed(line.key, encode_utf8(line.value))
    }
}

fn quote(name: &str, key: &str) -> (r: String)
    ensures
        r@ == quoted(name@, key@),
{
    let mut r = "\"".to_owned();
    r.append(name);
    r.append("\":\"");
    r.append(key);
    r.append("\"");
    r
}

/// A record with its id stamped: `U-0000001` becomes `U-0000001~k7f2.3` with
/// the simulator's epoch and the pass, or `U-0000001~k7f2.o3` in an overlay.
pub fn stamp(line: &Line, topic: &str, epoch: &str, pass: u64, overlay: bool) -> (r: ProduceRecord)
    ensures
        r@ == stamped(line@, topic@, epoch@, pass, overlay),
{
    if !unique_per_pass(topic) {
        return to_record(line.key.as_str(), line.value.as_str());
    }
    let name = key_field(topic);
    let mut tag = epoch.to_owned();
    if overlay {
        tag.append(".o");
    } else {
        tag.append(".");
    }
    tag.append(decimal_text(pass).as_str());
    let mut key = line.key.clone();
    key.append("~");
    key.append(tag.as_str());
    let value = replace_first(
        line.value.as_str(),
        quote(name, line.key.as_str()).as_str(),
        quote(name, key.as_str()).as_str(),
    );
    to_record(key.as_str(), value.as_str())
}

/// Records with their ids stamped.
pub open spec fn stamped_all(
    lines: Seq<LineView>,
    topic: Seq<char>,
    epoch: Seq<char>,
    pass: u64,
    overlay: bool,
) -> Seq<ProduceView> {
    lines.map_values(|l: LineView| stamped(l, topic, epoch, pass, overlay))
}

/// Appends records with their ids stamped.
pub fn stamp_all(
    out: &mut Vec<ProduceRecord>,
    lines: &Vec<Line>,
    topic: &str,
    epoch: &str,
    pass: u64,
    overlay: bool,
)
    ensures
        produce_views(final(out)@) == produce_views(old(out)@) + stamped_all(
            line_views(lines@),
            topic@,
            epoch@,
            pass,
            overlay,
        ),
{
    let ghost before = produce_views(out@);
    let ghost want = stamped_all(line_views(lines@), topic@, epoch@, pass, overlay);
    let mut i: usize = 0;
    assert(produce_views(out@) =~= before + want.take(0));
    while i < lines.len()
        invariant
            i <= lines@.len(),
            want == stamped_all(line_views(lines@), topic@, epoch@, pass, overlay),
            produce_views(out@) == before + want.take(i as int),
        decreases lines@.len() - i,
    {
        let r = stamp(&lines[i], topic, epoch, pass, overlay);
        proof {
            lemma_produce_views_push(out@, r);
            assert(r@ == want[i as int]);
            assert((before + want.take(i as int)).push(r@) =~= before + want.take(i + 1));
        }
        out.push(r);
        i = i + 1;
    }
    assert(want.take(want.len() as int) =~= want);
}

// ---------------------------------------------------------------------------
// Epochs

/// The epoch that a random number gives: its last four hexadecimal digits.
pub open spec fn epoch_from(random: u64) -> Seq<char> {
    hex((random % 0x1_0000) as nat, 4)
}

/// The epoch that a random number gives: its last four hexadecimal digits.
pub fn epoch_of(random: u64) -> (r: String)
    ensures
        r@ == epoch_from(random),
{
    hex_text(random % 0x1_0000, 4)
}

// ---------------------------------------------------------------------------
// Uniqueness

/// An epoch is four characters long.
pub proof fn epochs_have_one_length(random: u64)
    ensures
        epoch_from(random).len() == 4,
{
    reveal_with_fuel(hex, 5);
}

proof fn lemma_tags_differ(
    epoch1: Seq<char>,
    pass1: u64,
    overlay1: bool,
    epoch2: Seq<char>,
    pass2: u64,
    overlay2: bool,
)
    requires
        epoch1.len() == epoch2.len(),
        tag_of(epoch1, pass1, overlay1) == tag_of(epoch2, pass2, overlay2),
    ensures
        epoch1 == epoch2,
        pass1 == pass2,
        overlay1 == overlay2,
{
    reveal_strlit(".");
    reveal_strlit(".o");
    let t1 = tag_of(epoch1, pass1, overlay1);
    let t2 = tag_of(epoch2, pass2, overlay2);
    let n = epoch1.len() as int;
    let d1 = decimal(pass1 as nat);
    let d2 = decimal(pass2 as nat);
    lemma_decimal_digits(pass1 as nat);
    lemma_decimal_digits(pass2 as nat);
    assert(epoch1 =~= t1.take(n));
    assert(epoch2 =~= t2.take(n));
    if overlay1 != overlay2 {
        if overlay1 {
            assert(t1[n + 1] == 'o');
            assert(t2[n + 1] == d2[0]);
        } else {
            assert(t2[n + 1] == 'o');
            assert(t1[n + 1] == d1[0]);
        }
    } else if overlay1 {
        assert(d1 =~= t1.skip(n + 2));
        assert(d2 =~= t2.skip(n + 2));
    } else {
        assert(d1 =~= t1.skip(n + 1));
        assert(d2 =~= t2.skip(n + 1));
    }
    decimal_is_injective(pass1 as nat, pass2 as nat);
}

/// Two stamped ids are the same only where the id, the epoch, the pass and
/// the loop or overlay they were stamped in are the same: a replayed pass
/// never repeats an id.
pub proof fn stamped_ids_are_unique(
    key1: Seq<char>,
    random1: u64,
    pass1: u64,
    overlay1: bool,
    key2: Seq<char>,
    random2: u64,
    pass2: u64,
    overlay2: bool,
)
    requires
        !key1.contains('~'),
        !key2.contains('~'),
        stamped_key(key1, tag_of(epoch_from(random1), pass1, overlay1)) == stamped_key(
            key2,
            tag_of(epoch_from(random2), pass2, overlay2),
        ),
    ensures
        key1 == key2,
        epoch_from(random1) == epoch_from(random2),
        pass1 == pass2,
        overlay1 == overlay2,
{
    reveal_strlit("~");
    let e1 = epoch_from(random1);
    let e2 = epoch_from(random2);
    epochs_have_one_length(random1);
    epochs_have_one_length(random2);
    let t1 = tag_of(e1, pass1, overlay1);
    let t2 = tag_of(e2, pass2, overlay2);
    let s1 = stamped_key(key1, t1);
    let s2 = stamped_key(key2, t2);
    assert(s1[key1.len() as int] == '~');
    assert(s2[key2.len() as int] == '~');
    if key1.len() < key2.len() {
        assert(s2[key1.len() as int] == key2[key1.len() as int]);
        assert(key2.contains('~'));
    }
    if key2.len() < key1.len() {
        assert(s1[key2.len() as int] == key1[key2.len() as int]);
        assert(key1.contains('~'));
    }
    let n = key1.len() as int;
    assert(key1 =~= s1.take(n));
    assert(key2 =~= s2.take(n));
    assert(t1 =~= s1.skip(n + 1));
    assert(t2 =~= s2.skip(n + 1));
    lemma_tags_differ(e1, pass1, overlay1, e2, pass2, overlay2);
}

/// An id that holds the separator does not break uniqueness within one epoch:
/// the same id stamped in two passes, or in a pass and an overlay, differs.
pub proof fn an_id_differs_in_every_pass(
    key: Seq<char>,
    random: u64,
    pass1: u64,
    overlay1: bool,
    pass2: u64,
    overlay2: bool,
)
    requires
        pass1 != pass2 || overlay1 != overlay2,
    ensures
        stamped_key(key, tag_of(epoch_from(random), pass1, overlay1)) != stamped_key(
            key,
            tag_of(epoch_from(random), pass2, overlay2),
        ),
{
    let e = epoch_from(random);
    let t1 = tag_of(e, pass1, overlay1);
    let t2 = tag_of(e, pass2, overlay2);
    if stamped_key(key, t1) == stamped_key(key, t2) {
        let n = key.len() as int;
        reveal_strlit("~");
        assert(t1 =~= stamped_key(key, t1).skip(n + 1));
        assert(t2 =~= stamped_key(key, t2).skip(n + 1));
        lemma_tags_differ(e, pass1, overlay1, e, pass2, overlay2);
    }
}

/// A stamped record says its new id where it said the old one, so that what
/// is deduplicated by the id in the value goes by the stamp too.
pub proof fn the_stamp_is_in_the_value_too(
    line: LineView,
    topic: Seq<char>,
    epoch: Seq<char>,
    pass: u64,
    overlay: bool,
)
    requires
        has_unique_ids(topic),
        contains_text(line.value, quoted(key_name(topic), line.key)),
    ensures
        ({
            let key = stamped_key(line.key, tag_of(epoch, pass, overlay));
            exists|text: Seq<char>|
                stamped(line, topic, epoch, pass, overlay) == #[trigger] keyed(
                    key,
                    encode_utf8(text),
                ) && contains_text(text, quoted(key_name(topic), key))
        }),
{
    let key = stamped_key(line.key, tag_of(epoch, pass, overlay));
    let from = quoted(key_name(topic), line.key);
    let to = quoted(key_name(topic), key);
    let text = replaced_first(line.value, from, to);
    lemma_found_somewhere(line.value, from);
    let i = choose|i: int| first_place(line.value, from, i);
    assert(text.subrange(i, i + to.len()) =~= to);
    assert(stands_at(text, to, i));
    assert(stamped(line, topic, epoch, pass, overlay) == keyed(key, encode_utf8(text)));
}

} // verus!
