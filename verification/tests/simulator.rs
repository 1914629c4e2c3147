use fab_line::kafka::KafkaError;
use fab_line::simulator::catalog::{key_field, Catalog, DataFile, Line, ScenarioMeta};
use fab_line::simulator::control;
use fab_line::simulator::play::{
    apply_control, fresh_epoch, plan_frame, Batch, Control, ControlOutcome, State,
};
use fab_line::simulator::stamp::{epoch_of, stamp, unique_per_pass};
use fab_line::simulator::tick::{advance, count_sent, finish_tick, Played};
use serde_json::Value;

fn meta(name: &str, frames: u32, next: Option<&str>, overlay: bool) -> (String, ScenarioMeta) {
    let next = next.map(|n| n.to_string());
    (name.to_string(), ScenarioMeta { name: name.to_string(), frames, next, overlay })
}

fn file(scenario: &str, topic: &str, jsonl: &str) -> DataFile {
    DataFile {
        scenario: scenario.to_string(),
        topic: topic.to_string(),
        jsonl: jsonl.to_string(),
    }
}

fn catalog() -> Catalog {
    Catalog::load(
        vec![
            meta("baseline", 3, None, false),
            meta("shift-change", 2, Some("baseline"), false),
            meta("poison", 2, None, true),
            meta("drift", 1, None, true),
        ],
        &vec![
            file(
                "baseline",
                "finaltest.bins",
                "{\"f\":0,\"unit\":\"U-1\",\"bin\":1}\n\n   \noops\n{\"f\":1,\"unit\":\"U-2\"}\n\
                 {\"f\":9,\"unit\":\"U-9\"}\n{\"unit\":\"U-3\"}\n",
            ),
            file("baseline", "wirebond.raw", "{\"f\":0,\"bonder\":7}\n{\"f\":2,\"bonder\":8}"),
            file("shift-change", "wirebond.raw", "{\"f\":0,\"bonder\":70}\n{\"f\":1,\"bonder\":71}"),
            file("shift-change", "probe.lots", "{\"f\":1,\"lot\":\"L-1\"}"),
            file("poison", "finaltest.bins", "{\"f\":0,\"unit\":\"U-1\"}\n{\"f\":1,\"unit\":\"U-1\"}"),
            file("drift", "wirebond.raw", "{\"f\":0,\"bonder\":40}"),
        ],
    )
}

fn ask(cmd: &str, scenario: Option<&str>) -> Option<Control> {
    Some(Control { cmd: cmd.to_string(), scenario: scenario.map(|s| s.to_string()) })
}

fn text(bytes: &Option<Vec<u8>>) -> String {
    String::from_utf8(bytes.clone().unwrap()).unwrap()
}

fn value(bytes: &Option<Vec<u8>>) -> Value {
    serde_json::from_slice(bytes.as_ref().unwrap()).unwrap()
}

fn keys(batches: &[Batch]) -> Vec<(String, Vec<String>)> {
    batches
        .iter()
        .map(|b| (b.topic.clone(), b.records.iter().map(|r| text(&r.key)).collect()))
        .collect()
}

fn row(topic: &str, keys: &[&str]) -> (String, Vec<String>) {
    (topic.to_string(), keys.iter().map(|k| k.to_string()).collect())
}

#[test]
fn topics_have_their_key_fields() {
    let want = [
        ("probe.lots", "lot"),
        ("dieattach.readings", "die"),
        ("wirebond.raw", "bonder"),
        ("inspect.jobs", "job"),
        ("mold.telemetry", "press"),
        ("finaltest.bins", "unit"),
        ("other", "key"),
    ];
    for (topic, field) in want {
        assert_eq!(key_field(topic), field);
    }
}

#[test]
fn record_sets_are_laid_out_by_frame() {
    let c = catalog();
    assert_eq!(c.topics_of("baseline"), vec!["finaltest.bins", "wirebond.raw"]);
    assert!(c.topics_of("nothing").is_empty());
    let lines = c.lines("baseline", "finaltest.bins", 0).unwrap();
    assert_eq!(lines.len(), 2);
    assert_eq!(lines[0].value, "{\"f\":0,\"unit\":\"U-1\",\"bin\":1}");
    assert_eq!((lines[0].key.as_str(), lines[1].key.as_str()), ("U-1", "U-3"));
    assert_eq!(c.lines("baseline", "finaltest.bins", 2).unwrap().len(), 0);
    // Frames start over.
    assert_eq!(c.lines("baseline", "finaltest.bins", 4).unwrap()[0].key, "U-2");
    // A key that is no text is written as JSON.
    assert_eq!(c.lines("baseline", "wirebond.raw", 0).unwrap()[0].key, "7");
    assert!(c.lines("baseline", "probe.lots", 0).is_none());
    assert!(c.lines("nothing", "wirebond.raw", 0).is_none());
}

#[test]
fn a_set_without_frames_has_no_lines() {
    let c = Catalog::load(
        vec![meta("baseline", 0, None, false)],
        &vec![
            file("baseline", "wirebond.raw", "{\"bonder\":1}"),
            file("undeclared", "wirebond.raw", "{\"bonder\":1}\n{\"f\":1,\"bonder\":2}"),
        ],
    );
    assert!(c.lines("baseline", "wirebond.raw", 0).is_none());
    // Where nothing is declared there is one frame.
    assert_eq!(c.lines("undeclared", "wirebond.raw", 5).unwrap().len(), 1);
}

#[test]
fn ids_are_stamped_with_epoch_and_pass() {
    let line = Line {
        key: "U-1".to_string(),
        value: "{\"unit\":\"U-1\",\"of\":{\"unit\":\"U-1\"}}".to_string(),
    };
    let r = stamp(&line, "finaltest.bins", "7f2a", 3, false);
    assert_eq!(text(&r.key), "U-1~7f2a.3");
    assert_eq!(text(&r.value), "{\"unit\":\"U-1~7f2a.3\",\"of\":{\"unit\":\"U-1\"}}");
    assert_eq!(text(&stamp(&line, "finaltest.bins", "7f2a", 3, true).key), "U-1~7f2a.o3");
    let r = stamp(&line, "wirebond.raw", "7f2a", 3, false);
    assert_eq!((text(&r.key), text(&r.value)), (line.key.clone(), line.value.clone()));
    for topic in ["probe.lots", "dieattach.readings", "inspect.jobs", "finaltest.bins"] {
        assert!(unique_per_pass(topic));
    }
    assert!(!unique_per_pass("wirebond.raw") && !unique_per_pass("mold.telemetry"));
}

#[test]
fn stamps_differ_in_every_pass() {
    let line = Line { key: "U-1".to_string(), value: "{}".to_string() };
    let mut seen: Vec<String> = Vec::new();
    for epoch in ["0001", "0011"] {
        for pass in [1u64, 2, 11, 12] {
            for overlay in [false, true] {
                seen.push(text(&stamp(&line, "finaltest.bins", epoch, pass, overlay).key));
            }
        }
    }
    let n = seen.len();
    seen.sort();
    seen.dedup();
    assert_eq!(seen.len(), n);
}

#[test]
fn epochs_are_four_hex_digits() {
    assert_eq!(epoch_of(0x1234_5678), "5678");
    assert_eq!(epoch_of(0xffff_000a), "000a");
    let drawn: Vec<String> = (0..16).map(|_| fresh_epoch()).collect();
    assert!(drawn.iter().all(|e| e.len() == 4 && e.chars().all(|c| c.is_ascii_hexdigit())));
    assert!(drawn.iter().any(|e| *e != drawn[0]));
}

#[test]
fn the_line_starts_itself() {
    let st = State::start();
    assert!(st.running);
    assert_eq!((st.scenario.as_str(), st.frame, st.passes), ("baseline", 0, 1));
    assert!(st.overlays.is_empty());
}

#[test]
fn controls_do_what_they_say() {
    let c = catalog();
    let mut st = State::start();
    let mut seen = 0u64;
    let mut go = |st: &mut State, control: Option<Control>| {
        let counted = control.is_some();
        let r = apply_control(&c, st, control);
        seen += u64::from(counted);
        assert_eq!(st.control_seen, seen);
        r
    };
    assert!(matches!(go(&mut st, None), ControlOutcome::Malformed));
    assert!(matches!(go(&mut st, ask("loop", None)), ControlOutcome::AlreadyLooping));
    assert_eq!(st.passes, 1);
    assert!(matches!(go(&mut st, ask("loop", Some("shift-change"))), ControlOutcome::Looping));
    assert_eq!((st.scenario.as_str(), st.frame, st.passes), ("shift-change", 0, 2));
    assert!(matches!(go(&mut st, ask("loop", Some("nothing"))), ControlOutcome::UnknownScenario));
    assert!(matches!(go(&mut st, ask("loop", Some("poison"))), ControlOutcome::IsOverlay));
    assert!(matches!(go(&mut st, ask("play", None)), ControlOutcome::ScenarioMissing));
    assert!(matches!(go(&mut st, ask("play", Some("nothing"))), ControlOutcome::UnknownScenario));
    assert!(matches!(go(&mut st, ask("play", Some("baseline"))), ControlOutcome::IsLoop));
    assert!(matches!(go(&mut st, ask("dance", None)), ControlOutcome::UnknownCommand));
    assert!(matches!(go(&mut st, ask("stop", None)), ControlOutcome::Stopped));
    assert!(!st.running);
    // A loop that was stopped starts over, as a new pass.
    assert!(matches!(go(&mut st, ask("loop", Some("shift-change"))), ControlOutcome::Looping));
    assert_eq!((st.running, st.passes), (true, 3));
}

#[test]
fn overlays_pile_up() {
    let c = catalog();
    let mut st = State::start();
    for name in ["poison", "drift", "poison"] {
        assert!(matches!(
            apply_control(&c, &mut st, ask("play", Some(name))),
            ControlOutcome::Playing
        ));
    }
    let seen: Vec<(String, u32, u64)> =
        st.overlays.iter().map(|o| (o.scenario.clone(), o.frame, o.ordinal)).collect();
    let want = vec![
        ("poison".to_string(), 0, 1),
        ("drift".to_string(), 0, 2),
        ("poison".to_string(), 0, 3),
    ];
    assert_eq!(seen, want);
    assert_eq!(
        keys(&plan_frame(&c, &st, "7f2a")),
        vec![
            row(
                "finaltest.bins",
                &["U-1~7f2a.1", "U-3~7f2a.1", "U-1~7f2a.o1", "U-1~7f2a.o3"]
            ),
            row("wirebond.raw", &["7", "40"]),
        ]
    );
    advance(&c, &mut st);
    let left: Vec<(String, u32)> =
        st.overlays.iter().map(|o| (o.scenario.clone(), o.frame)).collect();
    assert_eq!(left, vec![("poison".to_string(), 1), ("poison".to_string(), 1)]);
    advance(&c, &mut st);
    assert!(st.overlays.is_empty());
    assert_eq!(st.overlays_played, 3);
}

#[test]
fn a_scenario_falls_back_to_baseline() {
    let c = catalog();
    let mut st = State::start();
    apply_control(&c, &mut st, ask("loop", Some("shift-change")));
    assert_eq!(
        keys(&plan_frame(&c, &st, "e")),
        vec![row("finaltest.bins", &["U-1~e.2", "U-3~e.2"]), row("wirebond.raw", &["70"])]
    );
    advance(&c, &mut st);
    assert_eq!(
        keys(&plan_frame(&c, &st, "e")),
        vec![
            row("finaltest.bins", &["U-2~e.2"]),
            row("probe.lots", &["L-1~e.2"]),
            row("wirebond.raw", &["71"]),
        ]
    );
}

#[test]
fn a_scenario_plays_its_frames_and_returns() {
    let c = catalog();
    let mut st = State::start();
    let mut seen: Vec<(String, u32, u64)> = Vec::new();
    apply_control(&c, &mut st, ask("loop", Some("shift-change")));
    for _ in 0..6 {
        seen.push((st.scenario.clone(), st.frame, st.passes));
        advance(&c, &mut st);
    }
    let want: Vec<(String, u32, u64)> = vec![
        ("shift-change".to_string(), 0, 2),
        ("shift-change".to_string(), 1, 2),
        ("baseline".to_string(), 0, 3),
        ("baseline".to_string(), 1, 3),
        ("baseline".to_string(), 2, 3),
        ("baseline".to_string(), 0, 4),
    ];
    assert_eq!(seen, want);
}

#[test]
fn what_was_sent_is_counted_by_topic() {
    let failed = || KafkaError {
        code: "Timeout".to_string(),
        message: "no".to_string(),
        fatal: false,
        retriable: true,
        txn_requires_abort: false,
    };
    let mut counts: Vec<(String, u64)> = Vec::new();
    count_sent(&mut counts, "a", &Ok(vec![Ok(()), Err(failed()), Ok(())]));
    count_sent(&mut counts, "b", &Ok(vec![Err(failed())]));
    count_sent(&mut counts, "c", &Err(failed()));
    assert_eq!(counts, vec![("a".to_string(), 2)]);
}

#[test]
fn a_tick_reports_frames_and_heartbeats() {
    let c = catalog();
    let mut st = State::start();
    let played = Some(Played {
        scenario: "baseline".to_string(),
        frame: 0,
        produced: vec![("finaltest.bins".to_string(), 2), ("wirebond.raw".to_string(), 1)],
    });
    let ms = finish_tick(&c, &mut st, &played, 1, "7f2a");
    assert_eq!((ms.len(), st.frame), (2, 1));
    assert_eq!(text(&ms[0].key), "sim");
    let v = value(&ms[0].value);
    assert_eq!((v["station"].as_str(), v["kind"].as_str()), (Some("sim"), Some("produced")));
    assert_eq!((v["topic"].as_str(), v["n"].as_u64()), (Some("finaltest.bins"), Some(2)));
    assert_eq!((v["scenario"].as_str(), v["frame"].as_u64()), (Some("baseline"), Some(0)));
    assert!(v.get("ts").is_none());

    apply_control(&c, &mut st, ask("play", Some("poison")));
    apply_control(&c, &mut st, ask("stop", None));
    let ms = finish_tick(&c, &mut st, &None, 5, "7f2a");
    assert_eq!((ms.len(), st.frame), (1, 1));
    let v = value(&ms[0].value);
    assert_eq!((v["kind"].as_str(), v["running"].as_bool()), (Some("sim"), Some(false)));
    assert_eq!((v["epoch"].as_str(), v["controls"].as_u64()), (Some("7f2a"), Some(2)));
    assert_eq!((v["frame"].as_u64(), v["passes"].as_u64()), (Some(1), Some(1)));
    assert_eq!(v["overlay"]["scenario"], "poison");
    assert_eq!(v["overlay"]["frame"], 0);
    assert!(finish_tick(&c, &mut st, &None, 6, "7f2a").is_empty());
    let mut st = State::start();
    let ms = finish_tick(&c, &mut st, &None, 10, "7f2a");
    assert_eq!(value(&ms[0].value)["overlay"], Value::Null);
}

#[test]
fn a_control_session_is_reopened() {
    let mut step = control::Step::Open;
    for well in [true, true, true, true, false] {
        step = control::advance(step, well);
    }
    // Opened, subscribed, read one record; then the stream ended.
    assert!(matches!(step, control::Step::Close));
    step = control::advance(step, true);
    assert!(matches!(step, control::Step::Wait(5)));
    assert!(matches!(control::advance(step, true), control::Step::Open));
    assert!(matches!(control::advance(control::Step::Open, false), control::Step::Wait(5)));
    assert!(matches!(control::advance(control::Step::Subscribe, false), control::Step::Close));
    assert!(matches!(control::advance(control::Step::Records, false), control::Step::Close));
    assert!(matches!(control::advance(control::Step::Close, false), control::Step::Wait(5)));
}

#[test]
fn the_loop_only_moves_on() {
    let c = catalog();
    let mut st = State::start();
    let mut seen: Vec<(u64, u32)> = vec![(st.passes, st.frame)];
    for (cmd, scenario) in [
        ("loop", Some("shift-change")),
        ("stop", None),
        ("loop", Some("shift-change")),
        ("loop", Some("shift-change")),
        ("loop", None),
    ] {
        apply_control(&c, &mut st, ask(cmd, scenario));
        if (st.passes, st.frame) != *seen.last().unwrap() {
            seen.push((st.passes, st.frame));
        }
        for _ in 0..2 {
            advance(&c, &mut st);
            seen.push((st.passes, st.frame));
        }
    }
    assert!(seen.windows(2).all(|w| w[0] < w[1]));
}

#[test]
fn overlays_keep_ordinals_of_their_own() {
    let c = catalog();
    let mut st = State::start();
    apply_control(&c, &mut st, ask("play", Some("drift")));
    apply_control(&c, &mut st, ask("play", Some("poison")));
    advance(&c, &mut st);
    // The first has ended; the next one does not take its ordinal.
    apply_control(&c, &mut st, ask("play", Some("poison")));
    let ordinals: Vec<u64> = st.overlays.iter().map(|o| o.ordinal).collect();
    assert_eq!(ordinals, vec![2, 3]);
    assert_eq!(
        keys(&plan_frame(&c, &st, "7f2a")),
        vec![row("finaltest.bins", &["U-2~7f2a.1", "U-1~7f2a.o2", "U-1~7f2a.o3"])]
    );
}
