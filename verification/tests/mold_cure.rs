use fab_line::json::Json;
use fab_line::kafka::{ConsumedRecord, HandlerError, KafkaError};
use fab_line::measure::Measure;
use fab_line::stations::mold_cure::{parse, profile, work_through, Computed, PressWindow, Sample};
use serde_json::Value;

fn m(x: f64) -> Measure {
    Measure {
        bits: x.to_bits(),
        json: serde_json::Number::from_f64(x).map_or("null".to_string(), |n| n.to_string()),
        shown: x.to_string(),
    }
}

fn sample(press: &str, zone: usize, temp: f64) -> Sample {
    Sample { press: press.to_string(), zone, temp_c: m(temp), rh_pct: None, particles: None }
}

fn rec(offset: i64, value: Option<&str>) -> ConsumedRecord {
    ConsumedRecord {
        topic: "mold.telemetry".to_string(),
        partition: 4,
        offset,
        timestamp: Some(100 + offset),
        timestamp_type: "CreateTime".to_string(),
        leader_epoch: None,
        key: Some(b"M-1".to_vec()),
        value: value.map(|v| v.as_bytes().to_vec()),
        headers: Vec::new(),
    }
}

fn value(bytes: &Option<Vec<u8>>) -> Value {
    serde_json::from_slice(bytes.as_ref().unwrap()).unwrap()
}

fn computed(means: &[f64]) -> Computed {
    Computed {
        conformance: Json::Real("87.5".to_string()),
        means: means.iter().map(|x| m(*x)).collect(),
        drifts: means.iter().map(|x| m(x - 175.0)).collect(),
        rh_max: Json::Real("0.0".to_string()),
    }
}

/// A window with so many samples of each zone, and one zone off.
fn window(per_zone: usize, off: usize, temp: f64) -> PressWindow {
    let mut w = PressWindow::new();
    for _ in 0..per_zone {
        for z in 1..=8 {
            w = w.with(&sample("M-1", z, if z == off { temp } else { 175.0 }), Some(7));
        }
    }
    w
}

fn shown(w: &PressWindow, c: &Computed) -> Value {
    let r = fab_line::kafka::json_record("M-1", &profile("M-1", w, c));
    value(&r.value)
}

#[test]
fn malformed_samples_say_why() {
    let parse_ok = |s: Sample| parse(b"{}", Ok(s)).err();
    assert_eq!(parse(b"\xfe", Ok(sample("M", 1, 1.0))).err().unwrap(), "value is not valid UTF-8");
    assert_eq!(parse(b"{}", Err("e".to_string())).err().unwrap(), "bad sample: e");
    assert_eq!(parse_ok(sample("M", 0, 175.0)).unwrap(), "zone 0 outside 1..8");
    assert_eq!(parse_ok(sample("M", 9, 175.0)).unwrap(), "zone 9 outside 1..8");
    assert_eq!(parse_ok(sample("M", 1, f64::NAN)).unwrap(), "temp_c is not finite");
    assert_eq!(parse_ok(sample("M", 1, f64::INFINITY)).unwrap(), "temp_c is not finite");
    assert!(parse_ok(sample("M", 8, 0.0)).is_none());
}

#[test]
fn temperatures_on_the_band_conform() {
    let mut w = PressWindow::new();
    for t in [173.0, 177.0, 175.0, 172.999, 177.001, -175.0] {
        w = w.with(&sample("M-1", 1, t), None);
    }
    assert_eq!((w.samples(), w.conforming()), (6, 3));
    assert_eq!(w.zone_temps()[0].len(), 6);
    assert_eq!(w.zone_temps()[1].len(), 0);
}

#[test]
fn the_worst_zone_alarms_with_enough_samples() {
    let mut means = [175.0; 8];
    means[2] = 178.0;
    means[5] = 172.5;
    let c = computed(&means);
    let v = shown(&window(4, 3, 178.0), &c);
    assert_eq!(v["press"], "M-1");
    assert_eq!(v["samples"], 32);
    assert_eq!(v["conformance_pct"], 87.5);
    assert_eq!(v["zones_c"][2], 178.0);
    assert_eq!(v["drift_c"][5], -2.5);
    assert_eq!(v["worst_zone"]["zone"], 3);
    assert_eq!(v["worst_zone"]["drift_c"], 3.0);
    assert_eq!(v["alarm"], true);
    assert_eq!(v["enough_samples"], true);
    assert_eq!(v["hold"], false);
    assert_eq!(v["window"]["from"], 7);
    // One sample less and nothing alarms.
    let v = shown(&window(3, 3, 178.0), &c);
    assert_eq!((v["alarm"].as_bool(), v["enough_samples"].as_bool()), (Some(false), Some(false)));
}

#[test]
fn a_drift_on_the_tolerance_does_not_alarm() {
    let mut means = [175.0; 8];
    means[0] = 173.0;
    assert_eq!(shown(&window(4, 1, 173.0), &computed(&means))["alarm"], false);
    means[0] = 172.9;
    assert_eq!(shown(&window(4, 1, 172.9), &computed(&means))["alarm"], true);
}

#[test]
fn the_last_of_two_worst_zones_counts() {
    let mut means = [175.0; 8];
    means[1] = 178.0;
    means[6] = 172.0;
    let v = shown(&window(4, 2, 178.0), &computed(&means));
    assert_eq!(v["worst_zone"]["zone"], 7);
    assert_eq!(v["worst_zone"]["drift_c"], -3.0);
}

#[test]
fn zones_without_samples_have_no_mean() {
    let w = PressWindow::new().with(&sample("M-1", 2, 176.0), None);
    let mut means = [0.0; 8];
    means[1] = 176.0;
    let v = shown(&w, &computed(&means));
    assert_eq!(v["zones_c"][0], Value::Null);
    assert_eq!(v["drift_c"][0], Value::Null);
    assert_eq!(v["zones_c"][1], 176.0);
    assert_eq!(v["worst_zone"]["zone"], 2);
    assert_eq!(shown(&PressWindow::new(), &computed(&means))["worst_zone"], Value::Null);
}

#[test]
fn humidity_and_particles_hold_a_press() {
    let hold = |rh: Option<f64>, particles: Option<u64>| {
        let mut s = sample("M-1", 1, 175.0);
        s.rh_pct = rh.map(m);
        s.particles = particles;
        shown(&PressWindow::new().with(&s, None), &computed(&[175.0; 8]))["hold"] == true
    };
    assert!(!hold(Some(60.0), Some(1_000)));
    assert!(hold(Some(60.1), None));
    assert!(hold(None, Some(1_001)));
    assert!(!hold(Some(f64::NAN), None));
    assert!(!hold(None, None));
}

#[test]
fn every_sample_of_a_batch_is_accounted_for() {
    let records = vec![
        rec(0, Some("{}")),
        rec(1, None),
        rec(2, Some("{}")),
        rec(3, Some("{}")),
        rec(4, Some("{}")),
    ];
    let decoded = vec![
        Ok(sample("M-2", 1, 175.0)),
        Err("no value".to_string()),
        Ok(sample("M-1", 8, 175.0)),
        Ok(sample("M-2", 9, 175.0)),
        Ok(sample("M-2", 1, 175.0)),
    ];
    let (w, at) = work_through(&records, decoded);
    assert_eq!((at, w.consumed, w.handled), (3, 3, Some(2)));
    assert_eq!(w.windows.len(), 2);
    assert_eq!(w.windows.key_at(0), "M-1");
    let c = vec![computed(&[175.0; 8]), computed(&[175.0; 8])];
    let (profiles, summary) = w.profiles(&c);
    assert_eq!((profiles.len(), summary.len()), (2, 2));
    assert_eq!(profiles[1].key, Some(b"M-2".to_vec()));
    let (ms, verdict) = w.finish(summary, &records, at, &Some(Ok(vec![Ok(()), Ok(())])));
    assert!(matches!(verdict, Ok(Some(2))));
    let kinds: Vec<String> = ms
        .iter()
        .map(|r| value(&r.value)["kind"].as_str().unwrap().to_string())
        .collect();
    assert_eq!(kinds, vec!["window", "consumed", "produced", "partial"]);
    let v = value(&ms[0].value);
    assert_eq!((v["n"].as_u64(), v["batch"].as_u64()), (Some(3), Some(5)));
    assert_eq!(v["presses"][0]["press"], "M-1");
    assert_eq!(v["partition"], 4);
    assert_eq!(value(&ms[2].value)["n"], 2);
    assert_eq!(value(&ms[3].value)["reason"], "zone 9 outside 1..8");
}

#[test]
fn profiles_that_are_lost_are_retried() {
    let failed = KafkaError {
        code: "Timeout".to_string(),
        message: "no".to_string(),
        fatal: false,
        retriable: true,
        txn_requires_abort: false,
    };
    let records = vec![rec(0, Some("{}"))];
    let (w, at) = work_through(&records, vec![Ok(sample("M-1", 1, 175.0))]);
    let (_, summary) = w.profiles(&vec![computed(&[175.0; 8])]);
    let (ms, verdict) = w.finish(summary, &records, at, &Some(Ok(vec![Err(failed)])));
    assert!(ms.is_empty());
    match verdict {
        Err(HandlerError::Transient(Some(why))) => assert_eq!(why, "profile produce failed"),
        _ => panic!("not transient"),
    }
}

#[test]
fn the_first_sample_that_cannot_be_read_is_the_one_reported() {
    let bad = || Err("bad".to_string());
    let good = || Ok(sample("M-1", 1, 175.0));
    let records = vec![rec(0, Some("{}")), rec(1, Some("{}")), rec(2, Some("{}"))];
    assert_eq!(work_through(&records, vec![good(), bad(), bad()]).1, 1);
    assert_eq!(work_through(&records, vec![bad(), good(), bad()]).1, 0);
    assert_eq!(work_through(&records, vec![good(), good(), good()]).1, 3);
}
