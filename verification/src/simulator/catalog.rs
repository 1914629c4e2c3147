//! The static record sets, by scenario, topic and frame.

use vstd::prelude::*;
use vstd::string::*;
use vstd::utf8::*;

use crate::json::{
    field, json_text, json_text_of, or_else, parsed_json, read_json, uint_field, Json, JsonView,
};
use crate::ordered_map::{listed, lists, OrderedMap};
use crate::text::{lines_of, split_lines, text_eq, texts};

verus! {

broadcast use vstd::string::group_string_axioms;

/// The field that a topic's records are keyed by.
pub open spec fn key_name(topic: Seq<char>) -> Seq<char> {
    if topic == "probe.lots"@ {
        "lot"@
    } else if topic == "dieattach.readings"@ {
        "die"@
    } else if topic == "wirebond.raw"@ {
        "bonder"@
    } else if topic == "inspect.jobs"@ {
        "job"@
    } else if topic == "mold.telemetry"@ {
        "press"@
    } else if topic == "finaltest.bins"@ {
        "unit"@
    } else {
        "key"@
    }
}

/// The field that a topic's records are keyed by: die, bonder, job, press,
/// unit or lot.
pub fn key_field(topic: &str) -> (r: &'static str)
    ensures
        r@ == key_name(topic@),
{
    if text_eq(topic, "probe.lots") {
        "lot"
    } else if text_eq(topic, "dieattach.readings") {
        "die"
    } else if text_eq(topic, "wirebond.raw") {
        "bonder"
    } else if text_eq(topic, "inspect.jobs") {
        "job"
    } else if text_eq(topic, "mold.telemetry") {
        "press"
    } else if text_eq(topic, "finaltest.bins") {
        "unit"
    } else {
        "key"
    }
}

/// What a scenario declares of itself.
pub struct ScenarioMeta {
    pub name: String,
    /// How long it lasts.
    pub frames: u32,
    /// The loop scenario that follows it.
    pub next: Option<String>,
    /// Whether it is played on top of a loop scenario.
    pub overlay: bool,
}

/// One record of a record set.
pub struct Line {
    pub key: String,
    pub value: String,
}

/// What a record of a record set stands for.
pub struct LineView {
    pub key: Seq<char>,
    pub value: Seq<char>,
}

impl View for Line {
    type V = LineView;

    open spec fn view(&self) -> LineView {
        LineView { key: self.key@, value: self.value@ }
    }
}

/// What a row of records stands for.
pub open spec fn line_views(s: Seq<Line>) -> Seq<LineView> {
    s.map_values(|l: Line| l@)
}

/// What the frames of a topic stand for.
pub open spec fn frame_views(s: Seq<Vec<Line>>) -> Seq<Seq<LineView>> {
    s.map_values(|f: Vec<Line>| line_views(f@))
}

/// A data file: the records of a topic in a scenario, one per line.
pub struct DataFile {
    pub scenario: String,
    pub topic: String,
    pub jsonl: String,
}

// ---------------------------------------------------------------------------
// Lines

/// The key of a record: the text in its key field, or what else stands there
/// as JSON, or nothing.
pub open spec fn key_in(v: JsonView, name: Seq<char>) -> Seq<char> {
    match field(v, name) {
        Some(JsonView::Str(s)) => s,
        Some(other) => json_text_of(other),
        None => Seq::empty(),
    }
}

/// The frame that a record belongs to.
pub open spec fn frame_in(v: JsonView) -> usize {
    or_else(uint_field(v, "f"@), 0) as usize
}

/// The frame and the record of a line that reads as a value.
pub fn read_line(name: &str, text: &str, v: &Json) -> (r: (usize, Line))
    ensures
        r.0 == frame_in(v@),
        r.1@ == (LineView { key: key_in(v@, name@), value: text@ }),
{
    let f: u64 = match v.uint_field("f") {
        Some(f) => f,
        None => 0,
    };
    let key = match v.field(name) {
        Some(Json::Str(s)) => s.clone(),
        Some(other) => json_text(other),
        None => String::new(),
    };
    (f as usize, Line { key, value: text.to_owned() })
}

/// The frames with a line added to the one it belongs to. A line that is not
/// JSON, or belongs to no frame, is left out.
pub open spec fn with_line(
    frames: Seq<Seq<LineView>>,
    name: Seq<char>,
    text: Seq<char>,
) -> Seq<Seq<LineView>> {
    match parsed_json(encode_utf8(text)) {
        Ok(v) => {
            let f = frame_in(v) as int;
            if f < frames.len() {
                frames.update(
                    f,
                    frames[f].push(LineView { key: key_in(v, name), value: text }),
                )
            } else {
                frames
            }
        },
        Err(_) => frames,
    }
}

/// `n` frames filled from lines.
pub open spec fn frames_of(n: nat, name: Seq<char>, lines: Seq<Seq<char>>) -> Seq<Seq<LineView>>
    decreases lines.len(),
{
    if lines.len() == 0 {
        Seq::new(n, |i: int| Seq::empty())
    } else {
        with_line(frames_of(n, name, lines.drop_last()), name, lines.last())
    }
}

fn add_line(frames: &mut Vec<Vec<Line>>, name: &str, text: &str)
    ensures
        frame_views(final(frames)@) == with_line(frame_views(old(frames)@), name@, text@),
{
    let bytes = text.as_bytes_vec();
    match read_json(bytes.as_slice()) {
        Ok(v) => {
            let (f, line) = read_line(name, text, &v);
            if f < frames.len() {
                let ghost before = frames@;
                let mut slot: Vec<Line> = Vec::new();
                std::mem::swap(&mut slot, &mut frames[f]);
                let ghost had = slot@;
                slot.push(line);
                frames.set(f, slot);
                proof {
                    assert(had == before[f as int]@);
                    assert(line_views(slot@) =~= line_views(had).push(line@));
                    assert(frame_views(frames@) =~= frame_views(before).update(
                        f as int,
                        line_views(slot@),
                    ));
                }
            }
        },
        Err(_) => {},
    }
}

fn fill_frames(n: usize, name: &str, jsonl: &str) -> (r: Vec<Vec<Line>>)
    ensures
        frame_views(r@) == frames_of(n as nat, name@, lines_of(jsonl@)),
{
    let mut r: Vec<Vec<Line>> = Vec::new();
    let mut i: usize = 0;
    while i < n
        invariant
            i <= n,
            r@.len() == i,
            forall|j: int| 0 <= j < i ==> (#[trigger] r@[j])@.len() == 0,
        decreases n - i,
    {
        r.push(Vec::new());
        i = i + 1;
    }
    let lines = split_lines(jsonl);
    let ghost all = lines_of(jsonl@);
    let mut k: usize = 0;
    proof {
        assert(all.take(0) =~= Seq::empty());
        let want = frames_of(n as nat, name@, all.take(0));
        assert forall|j: int| 0 <= j < n implies frame_views(r@)[j] == want[j] by {
            assert(line_views(r@[j]@) =~= Seq::empty());
        }
        assert(frame_views(r@) =~= want);
    }
    while k < lines.len()
        invariant
            k <= lines@.len(),
            texts(lines@) == all,
            frame_views(r@) == frames_of(n as nat, name@, all.take(k as int)),
        decreases lines@.len() - k,
    {
        proof {
            assert(all.take(k + 1).drop_last() =~= all.take(k as int));
            assert(all.take(k + 1).last() == lines@[k as int]@);
        }
        add_line(&mut r, name, lines[k].as_str());
        k = k + 1;
    }
    assert(all.take(all.len() as int) =~= all);
    r
}

// ---------------------------------------------------------------------------
// The catalog

/// The frames of a scenario, by topic.
pub struct Frames {
    pub by_topic: OrderedMap<String, Vec<Vec<Line>>>,
}

impl View for Frames {
    type V = Map<Seq<char>, Seq<Seq<LineView>>>;

    open spec fn view(&self) -> Map<Seq<char>, Seq<Seq<LineView>>> {
        self.by_topic@.map_values(|f: Vec<Vec<Line>>| frame_views(f@))
    }
}

/// Every record set, read once.
pub struct Catalog {
    pub meta: OrderedMap<String, ScenarioMeta>,
    pub frames: OrderedMap<String, Frames>,
}

/// What is declared of a scenario.
#[verifier::ext_equal]
pub struct MetaView {
    pub frames: u32,
    pub next: Option<Seq<char>>,
    pub overlay: bool,
}

impl View for ScenarioMeta {
    type V = MetaView;

    open spec fn view(&self) -> MetaView {
        MetaView {
            frames: self.frames,
            next: crate::json::opt_text(self.next),
            overlay: self.overlay,
        }
    }
}

/// What a catalog stands for.
#[verifier::ext_equal]
pub struct CatalogView {
    pub meta: Map<Seq<char>, MetaView>,
    pub frames: Map<Seq<char>, Map<Seq<char>, Seq<Seq<LineView>>>>,
}

impl View for Catalog {
    type V = CatalogView;

    open spec fn view(&self) -> CatalogView {
        CatalogView {
            meta: self.meta@.map_values(|m: ScenarioMeta| m@),
            frames: self.frames@.map_values(|f: Frames| f@),
        }
    }
}

/// What the scenarios of a row declare; of two with one name the later.
pub open spec fn meta_of(scenarios: Seq<(String, ScenarioMeta)>) -> Map<Seq<char>, MetaView>
    decreases scenarios.len(),
{
    if scenarios.len() == 0 {
        Map::empty()
    } else {
        meta_of(scenarios.drop_last()).insert(scenarios.last().0@, scenarios.last().1@)
    }
}

/// How many frames the record sets of a scenario have.
pub open spec fn frame_count(meta: Map<Seq<char>, MetaView>, scenario: Seq<char>) -> nat {
    if meta.dom().contains(scenario) {
        meta[scenario].frames as nat
    } else {
        1
    }
}

/// The record sets of a scenario, none where it has none.
pub open spec fn sets_of(
    frames: Map<Seq<char>, Map<Seq<char>, Seq<Seq<LineView>>>>,
    scenario: Seq<char>,
) -> Map<Seq<char>, Seq<Seq<LineView>>> {
    if frames.dom().contains(scenario) {
        frames[scenario]
    } else {
        Map::empty()
    }
}

/// The record sets with a data file read into them.
pub open spec fn with_file(
    frames: Map<Seq<char>, Map<Seq<char>, Seq<Seq<LineView>>>>,
    meta: Map<Seq<char>, MetaView>,
    file: DataFile,
) -> Map<Seq<char>, Map<Seq<char>, Seq<Seq<LineView>>>> {
    frames.insert(
        file.scenario@,
        sets_of(frames, file.scenario@).insert(
            file.topic@,
            frames_of(
                frame_count(meta, file.scenario@),
                key_name(file.topic@),
                lines_of(file.jsonl@),
            ),
        ),
    )
}

/// The record sets read from a row of data files.
pub open spec fn loaded(files: Seq<DataFile>, meta: Map<Seq<char>, MetaView>) -> Map<
    Seq<char>,
    Map<Seq<char>, Seq<Seq<LineView>>>,
>
    decreases files.len(),
{
    if files.len() == 0 {
        Map::empty()
    } else {
        with_file(loaded(files.drop_last(), meta), meta, files.last())
    }
}

/// The records of a frame. Frames repeat behind the last; a set without any
/// has none.
pub open spec fn lines_at(
    c: CatalogView,
    scenario: Seq<char>,
    topic: Seq<char>,
    frame: u32,
) -> Option<Seq<LineView>> {
    let sets = sets_of(c.frames, scenario);
    if sets.dom().contains(topic) && sets[topic].len() > 0 {
        Some(sets[topic][frame as int % sets[topic].len() as int])
    } else {
        None
    }
}

impl Catalog {
    /// The catalog of these scenarios and data files.
    pub fn load(scenarios: Vec<(String, ScenarioMeta)>, data: &Vec<DataFile>) -> (r: Catalog)
        ensures
            r@ == (CatalogView {
                meta: meta_of(scenarios@),
                frames: loaded(data@, meta_of(scenarios@)),
            }),
    {
        let ghost all = scenarios@;
        let ghost metas = meta_of(all);
        let mut scenarios = scenarios;
        let n = scenarios.len();
        let mut meta: OrderedMap<String, ScenarioMeta> = OrderedMap::new();
        let mut i: usize = 0;
        assert(all.take(0) =~= Seq::empty());
        assert(meta@.map_values(|m: ScenarioMeta| m@) =~= Map::empty());
        while i < n
            invariant
                i <= n == all.len(),
                scenarios@ == all.skip(i as int),
                meta@.map_values(|m: ScenarioMeta| m@) == meta_of(all.take(i as int)),
            decreases n - i,
        {
            let ghost before = meta@;
            let (name, m) = scenarios.remove(0);
            proof {
                assert(all.take(i + 1).drop_last() =~= all.take(i as int));
                assert(all.take(i + 1).last() == all[i as int]);
                assert(all.skip(i as int).remove(0) =~= all.skip(i + 1));
            }
            meta.insert(name, m);
            assert(meta@.map_values(|m: ScenarioMeta| m@) =~= before.map_values(
                |m: ScenarioMeta| m@,
            ).insert(name@, m@));
            i = i + 1;
        }
        assert(all.take(n as int) =~= all);
        let mut frames: OrderedMap<String, Frames> = OrderedMap::new();
        let mut k: usize = 0;
        assert(data@.take(0) =~= Seq::empty());
        assert(frames@.map_values(|f: Frames| f@) =~= Map::empty());
        while k < data.len()
            invariant
                k <= data@.len(),
                meta@.map_values(|m: ScenarioMeta| m@) == metas,
                frames@.map_values(|f: Frames| f@) == loaded(data@.take(k as int), metas),
            decreases data@.len() - k,
        {
            proof {
                assert(data@.take(k + 1).drop_last() =~= data@.take(k as int));
                assert(data@.take(k + 1).last() == data@[k as int]);
            }
            let file = &data[k];
            let count: usize = match meta.get(&file.scenario) {
                Some(m) => m.frames as usize,
                None => 1,
            };
            let filled = fill_frames(
                count,
                key_field(file.topic.as_str()),
                file.jsonl.as_str(),
            );
            let ghost before = frames@;
            let mut sets = match frames.remove(&file.scenario) {
                Some(s) => s,
                None => Frames { by_topic: OrderedMap::new() },
            };
            let ghost had = sets@;
            assert(had =~= sets_of(before.map_values(|f: Frames| f@), file.scenario@));
            sets.by_topic.insert(file.topic.clone(), filled);
            assert(sets@ =~= had.insert(file.topic@, frame_views(filled@)));
            frames.insert(file.scenario.clone(), sets);
            assert(frames@.map_values(|f: Frames| f@) =~= before.map_values(
                |f: Frames| f@,
            ).insert(file.scenario@, sets@));
            k = k + 1;
        }
        assert(data@.take(data@.len() as int) =~= data@);
        Catalog { meta, frames }
    }

    /// The topics that a scenario has records for, in order.
    pub fn topics_of(&self, scenario: &str) -> (r: Vec<String>)
        ensures
            texts(r@) == listed::<String>(sets_of(self@.frames, scenario@).dom()),
            lists::<String>(texts(r@), sets_of(self@.frames, scenario@).dom()),
    {
        let mut r: Vec<String> = Vec::new();
        let empty: OrderedMap<String, Vec<Vec<Line>>> = OrderedMap::new();
        let sets = match self.frames.get(&scenario.to_owned()) {
            Some(f) => &f.by_topic,
            None => &empty,
        };
        let n = sets.len();
        assert(sets@.dom() =~= sets_of(self@.frames, scenario@).dom());
        let ghost names = sets.keys();
        let mut i: usize = 0;
        while i < n
            invariant
                i <= n == names.len(),
                names == sets.keys(),
                texts(r@) =~= names.take(i as int),
            decreases n - i,
        {
            let name = sets.key_at(i).clone();
            assert(texts(r@.push(name)) =~= texts(r@).push(name@));
            r.push(name);
            i = i + 1;
        }
        assert(names.take(n as int) =~= names);
        r
    }

    /// The records of a frame. Frames repeat behind the last.
    pub fn lines(&self, scenario: &str, topic: &str, frame: u32) -> (r: Option<&Vec<Line>>)
        ensures
            match r {
                Some(lines) => lines_at(self@, scenario@, topic@, frame) == Some(
                    line_views(lines@),
                ),
                None => lines_at(self@, scenario@, topic@, frame) is None,
            },
    {
        match self.frames.get(&scenario.to_owned()) {
            Some(f) => match f.by_topic.get(&topic.to_owned()) {
                Some(per_frame) => {
                    if per_frame.len() == 0 {
                        None
                    } else {
                        let i: usize = frame as usize % per_frame.len();
                        Some(&per_frame[i])
                    }
                },
                None => None,
            },
            None => None,
        }
    }
}

} // verus!
