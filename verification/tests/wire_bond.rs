use fab_line::json::Json;
use fab_line::kafka::{ConsumedRecord, Header, KafkaError, PartitionCommit};
use fab_line::measure::Measure;
use fab_line::stations::wire_bond::session::{
    advance_flush, answer, batch_size, bury, dead_letter, flush_revoked, judge_commit, name_of,
    note_rebalance, note_seek, open_on, ready, receive, report_flush, start, take_flush, take_seek,
    Answer, Commit, FlushEvent, FlushStep, Rebalance,
};
use fab_line::stations::wire_bond::window::{Bond, Config, State, Stats};
use serde_json::Value;

fn m(x: f64) -> Measure {
    Measure {
        bits: x.to_bits(),
        json: serde_json::Number::from_f64(x).map_or("null".to_string(), |n| n.to_string()),
        shown: format!("{x:.1}"),
    }
}

fn cfg() -> Config {
    Config { window_ms: 5_000, replay_ms: 60_000, nsop_pct: m(15.0) }
}

fn bond(bonder: u32, us_w: f64) -> Result<Bond, String> {
    Ok(Bond { bonder, us_w: m(us_w), force_gf: m(30.0) })
}

fn rec(partition: i32, offset: i64, ts: i64, value: Option<&str>) -> ConsumedRecord {
    ConsumedRecord {
        topic: "wirebond.raw".to_string(),
        partition,
        offset,
        timestamp: Some(ts),
        timestamp_type: "CreateTime".to_string(),
        leader_epoch: None,
        key: Some(b"7".to_vec()),
        value: value.map(|v| v.as_bytes().to_vec()),
        headers: vec![Header { key: "trace".to_string(), value: Some(b"t".to_vec()) }],
    }
}

fn bonded(partition: i32, offset: i64, ts: i64) -> ConsumedRecord {
    rec(partition, offset, ts, Some("{}"))
}

fn stats(delta: f64, trailing: f64) -> Stats {
    Stats {
        power_mean: Json::Real("1.2".to_string()),
        power_sd: Json::Real("0.1".to_string()),
        force_mean: Json::Real("30.0".to_string()),
        force_sd: Json::Real("0.0".to_string()),
        delta: m(delta),
        trailing: m(trailing),
    }
}

fn value(bytes: &Option<Vec<u8>>) -> Value {
    serde_json::from_slice(bytes.as_ref().unwrap()).unwrap()
}

fn kinds(st: &State) -> Vec<String> {
    st.metrics
        .iter()
        .map(|r| value(&r.value)["kind"].as_str().unwrap().to_string())
        .collect()
}

fn error(code: &str, fatal: bool) -> KafkaError {
    KafkaError {
        code: code.to_string(),
        message: "down".to_string(),
        fatal,
        retriable: !fatal,
        txn_requires_abort: false,
    }
}

/// A state in which bonder 7 has closed windows with these deltas.
fn after(deltas: &[f64]) -> State {
    let mut st = State::new();
    let c = cfg();
    for i in 0..=deltas.len() {
        let d = if i == 0 { 0.0 } else { deltas[i - 1] };
        let r = bonded(2, i as i64, i as i64 * 5_000);
        let dead = receive(&mut st, &c, &r, &bond(7, 1.2), &stats(d, 2.0 + i as f64));
        assert!(dead.is_none());
    }
    st
}

#[test]
fn batch_sizes_are_bounded() {
    assert_eq!(batch_size(None), 100);
    assert_eq!(batch_size(Some("7")), 7);
    assert_eq!(batch_size(Some("0")), 100);
    assert_eq!(batch_size(Some("1000")), 100);
    assert_eq!(batch_size(Some("many")), 100);
}

#[test]
fn a_start_is_reported() {
    let mut st = State::new();
    start(&mut st, 50, &cfg());
    let v = value(&st.metrics[0].value);
    assert_eq!((v["station"].as_str(), v["kind"].as_str()), (Some("st03"), Some("started")));
    assert_eq!((v["batch_size"].as_u64(), v["window_ms"].as_i64()), (Some(50), Some(5_000)));
    assert_eq!(v["nsop_threshold_pct"], 15.0);
}

#[test]
fn a_window_closes_after_its_time() {
    let mut st = State::new();
    let c = cfg();
    for (offset, ts) in [(0i64, 1_000i64), (1, 5_999)] {
        receive(&mut st, &c, &bonded(2, offset, ts), &bond(7, 1.2), &stats(0.0, 1.2));
    }
    assert!(st.pending.is_empty());
    receive(&mut st, &c, &bonded(2, 2, 6_000), &bond(7, 1.2), &stats(0.0, 1.2));
    assert_eq!(st.pending.len(), 1);
    assert_eq!(st.pending[0].key, Some(b"7".to_vec()));
    let v = value(&st.pending[0].value);
    assert_eq!((v["bonder"].as_u64(), v["n"].as_u64()), (Some(7), Some(2)));
    assert_eq!(v["window_start"], 1_000);
    assert_eq!(v["window_end"], 6_000);
    assert_eq!(v["us_w_mean"], 1.2);
    assert_eq!(v["trailing_us_w"], 1.2);
    assert_eq!(v["power_delta_pct"], Value::Null);
    assert_eq!(v["nsop"], false);
    assert_eq!(v["closed_by"], "window");
    assert_eq!(kinds(&st), vec!["window"]);
    let b = st.bonders.get(&7).unwrap();
    assert_eq!((b.windows, b.window.start, b.window.power.len()), (1, Some(6_000), 1));
    assert_eq!(st.consumed, 3);
}

#[test]
fn a_record_from_long_before_closes_the_window_too() {
    let mut st = State::new();
    let c = cfg();
    receive(&mut st, &c, &bonded(2, 9, 20_000), &bond(7, 1.2), &stats(0.0, 1.2));
    receive(&mut st, &c, &bonded(2, 5, 15_000), &bond(7, 1.2), &stats(0.0, 1.2));
    assert!(st.pending.is_empty());
    receive(&mut st, &c, &bonded(2, 4, 14_999), &bond(7, 1.2), &stats(0.0, 1.2));
    assert_eq!(st.pending.len(), 1);
    assert_eq!((st.consumed, st.replayed), (1, 2));
}

#[test]
fn a_sag_alarms_and_asks_for_one_replay() {
    let st = after(&[0.0, -15.1, -20.0]);
    let b = st.bonders.get(&7).unwrap();
    assert_eq!((b.windows, b.nsop_windows, b.replayed), (3, 2, true));
    assert_eq!(kinds(&st), vec!["window", "window", "fault", "window", "fault"]);
    let v = value(&st.metrics[2].value);
    assert_eq!(v["severity"], "crit");
    assert_eq!(
        v["text"],
        "bonder 7 NSOP — transducer power -15.1%; replaying last 60 s by seek"
    );
    assert_eq!(value(&st.metrics[4].value)["text"], "bonder 7 NSOP — transducer power -20.0%");
    // The second alarm did not move the request of the first.
    assert_eq!(st.seek_request, Some((2, 10_000 - 60_000, 7)));
}

#[test]
fn a_sag_on_the_threshold_does_not_alarm() {
    let st = after(&[0.0, -15.0]);
    assert_eq!(st.bonders.get(&7).unwrap().nsop_windows, 0);
    assert!(st.seek_request.is_none());
    assert_eq!(after(&[0.0, 40.0]).bonders.get(&7).unwrap().nsop_windows, 0);
}

#[test]
fn windows_near_the_mean_teach() {
    let trailing = |deltas: &[f64]| {
        let st = after(deltas);
        f64::from_bits(st.bonders.get(&7).unwrap().trailing.as_ref().unwrap().bits)
    };
    // The first window is the mean; the second teaches where it is near.
    assert_eq!(trailing(&[0.0]), 3.0);
    assert_eq!(trailing(&[0.0, -7.4]), 4.0);
    assert_eq!(trailing(&[0.0, 7.4]), 4.0);
    assert_eq!(trailing(&[0.0, -7.5]), 3.0);
    assert_eq!(trailing(&[0.0, -10.0]), 3.0);
    assert_eq!(trailing(&[0.0, 12.0]), 3.0);
    assert_eq!(trailing(&[0.0, -20.0]), 3.0);
}

#[test]
fn a_seek_is_taken_once_and_noted() {
    let mut st = after(&[0.0, -20.0]);
    let request = take_seek(&mut st).unwrap();
    assert_eq!(request, (2, -50_000, 7));
    assert!(take_seek(&mut st).is_none());
    note_seek(&mut st, request, Some(9), &Ok(41));
    let v = value(&st.metrics.last().unwrap().value);
    assert_eq!((v["kind"].as_str(), v["to_offset"].as_i64()), (Some("seek"), Some(41)));
    assert_eq!((v["from_ts"].as_i64(), v["bonder"].as_u64()), (Some(-50_000), Some(7)));
    assert_eq!(st.seeks, 1);
    note_seek(&mut st, request, Some(9), &Err("no offset for that time".to_string()));
    let v = value(&st.metrics.last().unwrap().value);
    assert_eq!(v["text"], "replay seek failed: no offset for that time");
    assert_eq!(v["severity"], "warn");
    assert_eq!(st.seeks, 1);
}

#[test]
fn malformed_bonds_are_dead_lettered_once() {
    let mut st = State::new();
    let c = cfg();
    let r = rec(2, 0, 5, Some("{}"));
    let bad = Err("missing field `bonder`".to_string());
    let why = receive(&mut st, &c, &r, &bad, &stats(0.0, 1.0)).unwrap();
    assert_eq!(why, "bad bond: missing field `bonder`");
    bury(&mut st, &r, &why);
    assert_eq!((st.dlq, st.consumed, st.replayed), (1, 0, 0));
    let v = value(&st.metrics[0].value);
    assert_eq!((v["kind"].as_str(), v["n"].as_u64()), (Some("dlq"), Some(1)));
    assert_eq!(v["origin"]["topic"], "wirebond.raw");
    // A replay of it is none again.
    assert!(receive(&mut st, &c, &r, &bad, &stats(0.0, 1.0)).is_none());
    assert_eq!((st.dlq, st.replayed), (1, 1));
    let r = rec(2, 1, 5, Some("{}"));
    assert_eq!(
        receive(&mut st, &c, &r, &bond(7, f64::NAN), &stats(0.0, 1.0)),
        Some("non-finite reading".to_string())
    );
    // A tombstone is none.
    assert!(receive(&mut st, &c, &rec(2, 2, 5, None), &bad, &stats(0.0, 1.0)).is_none());
    assert_eq!(st.consumed, 1);
}

#[test]
fn a_dead_letter_carries_its_origin() {
    let d = dead_letter(&rec(2, 41, 5, Some("oops")), "bad bond: x");
    assert_eq!((d.key, d.value), (Some(b"7".to_vec()), Some(b"oops".to_vec())));
    assert!(d.partition.is_none() && d.timestamp.is_none());
    let headers: Vec<(String, String)> = d
        .headers
        .into_iter()
        .map(|h| (h.key, String::from_utf8(h.value.unwrap()).unwrap()))
        .collect();
    let want = [
        ("trace", "t"),
        ("x-dlq-reason", "bad bond: x"),
        ("x-origin-topic", "wirebond.raw"),
        ("x-origin-partition", "2"),
        ("x-origin-offset", "41"),
    ];
    let want: Vec<(String, String)> =
        want.iter().map(|(k, v)| (k.to_string(), v.to_string())).collect();
    assert_eq!(headers, want);
}

#[test]
fn replayed_records_are_counted_as_such() {
    let mut st = State::new();
    let c = cfg();
    for offset in [0i64, 1, 2, 1, 2, 3] {
        receive(&mut st, &c, &bonded(2, offset, 0), &bond(7, 1.0), &stats(0.0, 1.0));
    }
    receive(&mut st, &c, &bonded(3, 0, 0), &bond(8, 1.0), &stats(0.0, 1.0));
    assert_eq!((st.consumed, st.replayed), (5, 2));
    assert_eq!(st.high_water.get(&2), Some(&3));
}

#[test]
fn a_flush_takes_everything_once() {
    let mut st = after(&[0.0, 0.0]);
    let f = take_flush(&mut st);
    assert_eq!((f.pending.len(), f.metrics.len(), f.consumed, f.replayed), (2, 2, 3, 0));
    let g = take_flush(&mut st);
    assert_eq!((g.pending.len(), g.metrics.len(), g.consumed, g.replayed), (0, 0, 0, 0));
    let report = report_flush(f.metrics, f.consumed, 4, 2, "wirebond.metrics");
    let said: Vec<(String, u64)> = report[2..]
        .iter()
        .map(|r| {
            let v = value(&r.value);
            (v["kind"].as_str().unwrap().to_string(), v["n"].as_u64().unwrap())
        })
        .collect();
    let want = vec![
        ("consumed".to_string(), 3),
        ("replayed".to_string(), 4),
        ("produced".to_string(), 2),
    ];
    assert_eq!(said, want);
    assert!(report_flush(Vec::new(), 0, 0, 0, "wirebond.metrics").is_empty());
    assert_eq!(report_flush(Vec::new(), 0, 1, 0, "wirebond.metrics").len(), 2);
}

#[test]
fn a_flush_is_due_by_records_or_windows() {
    let st = after(&[0.0, 0.0]);
    assert!(ready(&st, 100, 100));
    assert!(!ready(&st, 99, 100));
    assert!(ready(&st, 0, 2));
    assert!(!ready(&st, 1, 3));
}

#[test]
fn commits_are_judged() {
    let part = |e: Option<&str>| PartitionCommit { partition: 1, error: e.map(|s| s.to_string()) };
    assert!(matches!(judge_commit(&Ok(Vec::new())), Commit::Done));
    assert!(matches!(judge_commit(&Ok(vec![part(None), part(Some("NoOffset"))])), Commit::Done));
    assert!(matches!(judge_commit(&Err(error("NoOffset", false))), Commit::Done));
    assert!(matches!(judge_commit(&Err(error("Timeout", false))), Commit::Deferred));
    assert!(matches!(judge_commit(&Err(error("Fenced", true))), Commit::Failed(_)));
    assert!(matches!(judge_commit(&Ok(vec![part(Some("Fenced"))])), Commit::Failed(_)));
}

#[test]
fn outputs_are_acknowledged_before_the_commit() {
    let step = advance_flush(FlushStep::Send, FlushEvent::Sent(Ok(())));
    assert!(matches!(step, FlushStep::Report));
    let step = advance_flush(step, FlushEvent::Reported);
    assert!(matches!(step, FlushStep::Commit));
    let step = advance_flush(step, FlushEvent::Committed(Commit::Done));
    assert!(matches!(step, FlushStep::Flushed));
    assert!(matches!(
        advance_flush(FlushStep::Commit, FlushEvent::Committed(Commit::Deferred)),
        FlushStep::Uncommitted
    ));
    match advance_flush(FlushStep::Send, FlushEvent::Sent(Err("no".to_string()))) {
        FlushStep::Exit(why) => assert_eq!(why, "no"),
        _ => panic!("went on"),
    }
    assert!(matches!(
        advance_flush(FlushStep::Commit, FlushEvent::Committed(Commit::Failed("x".to_string()))),
        FlushStep::Exit(_)
    ));
}

#[test]
fn rebalances_are_answered_by_protocol() {
    assert!(matches!(answer(&Rebalance::Assign, true), Answer::IncrementalAssign));
    assert!(matches!(answer(&Rebalance::Assign, false), Answer::Assign));
    assert!(matches!(answer(&Rebalance::Revoke, true), Answer::IncrementalUnassign));
    assert!(matches!(answer(&Rebalance::Lost, true), Answer::IncrementalUnassign));
    assert!(matches!(answer(&Rebalance::Revoke, false), Answer::AssignNothing));
    assert!(matches!(answer(&Rebalance::Lost, false), Answer::AssignNothing));
    assert_eq!(name_of(&Rebalance::Assign), "assign");
    assert_eq!(name_of(&Rebalance::Revoke), "revoke");
    assert_eq!(name_of(&Rebalance::Lost), "lost");
}

#[test]
fn revoked_partitions_put_out_their_windows() {
    let mut st = State::new();
    let c = cfg();
    for (p, b) in [(0i32, 9u32), (1, 3), (0, 4)] {
        receive(&mut st, &c, &bonded(p, i64::from(b), 1_000), &bond(b, 1.0), &stats(0.0, 1.0));
    }
    assert_eq!(open_on(&st, &vec![0]), vec![4, 9]);
    let sums = vec![stats(0.0, 1.0), stats(0.0, 1.0)];
    assert_eq!(flush_revoked(&mut st, &c, &vec![0], "revoke", &sums), 2);
    assert_eq!(st.pending.len(), 2);
    let v = value(&st.pending[0].value);
    assert_eq!((v["bonder"].as_u64(), v["window_end"].as_i64()), (Some(4), Some(6_000)));
    assert_eq!(v["closed_by"], "revoke");
    assert!(open_on(&st, &vec![0]).is_empty());
    assert_eq!(open_on(&st, &vec![0, 1]), vec![3]);
    note_rebalance(&mut st, &Rebalance::Revoke, &vec![0], 2, true, &Some("late".to_string()));
    let v = value(&st.metrics.last().unwrap().value);
    assert_eq!((v["kind"].as_str(), v["event"].as_str()), (Some("rebalance"), Some("revoke")));
    assert_eq!((v["windows_flushed"].as_u64(), v["protocol"].as_str()), (Some(2), Some("cooperative")));
    assert_eq!((v["applied"].as_bool(), v["error"].as_str()), (Some(false), Some("late")));
    assert_eq!(v["partitions"][0], 0);
    assert_eq!(st.rebalances, 1);
}

#[test]
fn a_revoked_window_asks_for_one_replay_too() {
    let mut st = State::new();
    let c = cfg();
    for (offset, ts) in [(0i64, 0i64), (1, 5_000)] {
        receive(&mut st, &c, &bonded(2, offset, ts), &bond(7, 1.2), &stats(0.0, 1.2));
    }
    flush_revoked(&mut st, &c, &vec![2], "revoke", &vec![stats(-20.0, 1.2)]);
    assert_eq!(take_seek(&mut st), Some((2, 10_000 - 60_000, 7)));
    receive(&mut st, &c, &bonded(2, 2, 10_000), &bond(7, 1.0), &stats(0.0, 1.2));
    flush_revoked(&mut st, &c, &vec![2], "lost", &vec![stats(-20.0, 1.2)]);
    assert_eq!(st.bonders.get(&7).unwrap().nsop_windows, 2);
    assert!(take_seek(&mut st).is_none());
}
