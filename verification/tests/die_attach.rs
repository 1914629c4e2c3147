use fab_line::json::Fields;
use fab_line::kafka::{ConsumedRecord, HandlerError};
use fab_line::measure::Measure;
use fab_line::stations::die_attach::{check, parse, Reading, Step, Verdict, Work};
use serde_json::Value;

fn m(x: f64) -> Measure {
    Measure {
        bits: x.to_bits(),
        json: serde_json::Number::from_f64(x).map_or("null".to_string(), |n| n.to_string()),
        shown: x.to_string(),
    }
}

fn reading(bl: f64, epoxy: f64, dx: f64, dy: f64) -> Reading {
    Reading {
        die: "D-1".to_string(),
        head: "H-2".to_string(),
        bl_um: m(bl),
        epoxy_mg: m(epoxy),
        dx_um: m(dx),
        dy_um: m(dy),
        prober: Some("P-03".to_string()),
    }
}

fn rec(offset: i64, value: Option<&str>) -> ConsumedRecord {
    ConsumedRecord {
        topic: "dieattach.readings".to_string(),
        partition: 1,
        offset,
        timestamp: Some(1_000 + offset),
        timestamp_type: "CreateTime".to_string(),
        leader_epoch: None,
        key: Some(b"D-1".to_vec()),
        value: value.map(|v| v.as_bytes().to_vec()),
        headers: Vec::new(),
    }
}

fn value(bytes: &Option<Vec<u8>>) -> Value {
    serde_json::from_slice(bytes.as_ref().unwrap()).unwrap()
}

const GOOD: &str =
    "{\"die\":\"D-1\",\"head\":\"H-2\",\"bl_um\":25.0,\"epoxy_mg\":3.0,\"dx_um\":1,\"dy_um\":-1}";

fn in_spec(r: &Reading) -> bool {
    matches!(check(r), Verdict::InSpec)
}

#[test]
fn readings_on_the_limits_are_in_spec() {
    assert!(in_spec(&reading(20.0, 2.5, 15.0, -15.0)));
    assert!(in_spec(&reading(30.0, 4.0, -15.0, 15.0)));
    assert!(!in_spec(&reading(19.999, 3.0, 0.0, 0.0)));
    assert!(!in_spec(&reading(30.001, 3.0, 0.0, 0.0)));
    assert!(!in_spec(&reading(25.0, 2.499, 0.0, 0.0)));
    assert!(!in_spec(&reading(25.0, 4.001, 0.0, 0.0)));
    assert!(!in_spec(&reading(25.0, 3.0, 15.1, 0.0)));
    assert!(!in_spec(&reading(25.0, 3.0, 0.0, -15.1)));
}

#[test]
fn a_flag_gives_every_reason() {
    match check(&reading(31.5, 2.0, 16.0, -3.5)) {
        Verdict::Flag(why) => assert_eq!(
            why,
            "bond-line 31.5 um outside 20-30; epoxy 2 mg outside 2.5-4; \
             placement (16, -3.5) um beyond ±15"
        ),
        Verdict::InSpec => panic!("in spec"),
    }
}

#[test]
fn malformed_readings_say_why() {
    let ok = || Ok(reading(25.0, 3.0, 1.0, -1.0));
    let why = |bytes: &[u8]| parse(bytes, ok()).err().unwrap();
    assert_eq!(why(b"\xff{}"), "value is not valid UTF-8");
    let e = serde_json::from_str::<Value>("{oops").unwrap_err();
    assert_eq!(why(b"{oops"), format!("not JSON: {e}"));
    assert_eq!(why(b"{}"), "bl_um missing");
    assert_eq!(why(b"[1]"), "bl_um missing");
    assert_eq!(why(b"{\"bl_um\":\"NaN\"}"), "bl_um is not a finite number: \"NaN\"");
    assert_eq!(why(b"{\"bl_um\":25,\"epoxy_mg\":null}"), "epoxy_mg is not a finite number: null");
    assert_eq!(why(b"{\"bl_um\":25,\"epoxy_mg\":3,\"dx_um\":0}"), "dy_um missing");
    assert_eq!(
        parse(GOOD.as_bytes(), Err("missing field `die`".to_string())).err().unwrap(),
        "bad reading: missing field `die`"
    );
    assert_eq!(parse(GOOD.as_bytes(), ok()).ok().unwrap().die, "D-1");
}

#[test]
fn a_flag_carries_the_reading_and_its_origin() {
    let mut w = Work::new();
    match w.take(&rec(4, Some(GOOD)), Ok(reading(31.5, 3.0, 1.0, -1.0))) {
        Step::Send(flag) => {
            assert_eq!(flag.key, Some(b"D-1".to_vec()));
            let v = value(&flag.value);
            assert_eq!(v["die"], "D-1");
            assert_eq!(v["head"], "H-2");
            assert_eq!(v["reason"], "bond-line 31.5 um outside 20-30");
            assert_eq!(v["bl_um"], 31.5);
            assert_eq!(v["dy_um"], -1.0);
            assert_eq!(v["prober"], "P-03");
            assert_eq!(v["origin"]["partition"], 1);
            assert_eq!(v["origin"]["offset"], 4);
        }
        _ => panic!("no flag"),
    }
    assert_eq!((w.consumed, w.flags, w.handled), (1, 0, None));
    w.sent(&rec(4, Some(GOOD)));
    assert_eq!((w.consumed, w.flags, w.handled), (1, 1, Some(4)));
}

#[test]
fn every_reading_of_a_batch_is_accounted_for() {
    let records = vec![
        rec(0, Some(GOOD)),
        rec(1, None),
        rec(2, Some(GOOD)),
        rec(3, Some("{}")),
        rec(4, Some(GOOD)),
    ];
    let mut w = Work::new();
    assert!(matches!(w.take(&records[0], Ok(reading(25.0, 3.0, 0.0, 0.0))), Step::Next));
    assert!(matches!(w.take(&records[1], Err("no value".to_string())), Step::Next));
    assert!(matches!(w.take(&records[2], Ok(reading(35.0, 3.0, 0.0, 0.0))), Step::Send(_)));
    w.sent(&records[2]);
    assert!(matches!(w.take(&records[3], Err("x".to_string())), Step::Stop));
    assert_eq!((w.consumed, w.in_spec, w.flags, w.handled), (3, 1, 1, Some(2)));
    let (ms, verdict) = w.finish(&records, 3, &Fields::new());
    assert!(matches!(verdict, Ok(Some(2))));
    assert_eq!(ms.len(), 3);
    let v = value(&ms[0].value);
    assert_eq!(v["kind"], "consumed");
    assert_eq!((v["n"].as_u64(), v["in_spec"].as_u64()), (Some(3), Some(1)));
    assert_eq!(v["flags"], 1);
    assert_eq!((v["first"].as_i64(), v["last"].as_i64()), (Some(0), Some(4)));
    assert_eq!(v["ts"], 1_004);
    let v = value(&ms[1].value);
    assert_eq!(v["kind"], "produced");
    assert_eq!(v["topic"], "dieattach.flags");
    let v = value(&ms[2].value);
    assert_eq!(v["kind"], "partial");
    assert_eq!(v["reason"], "bl_um missing");
}

#[test]
fn a_malformed_head_is_permanent() {
    let records = vec![rec(9, Some("{}"))];
    let mut w = Work::new();
    assert!(matches!(w.take(&records[0], Err("x".to_string())), Step::Stop));
    let (ms, verdict) = w.finish(&records, 0, &Fields::new());
    assert_eq!(ms.len(), 1);
    assert_eq!(value(&ms[0].value)["kind"], "dlq");
    match verdict {
        Err(HandlerError::Permanent(Some(why))) => assert_eq!(why, "bl_um missing"),
        _ => panic!("not permanent"),
    }
}

#[test]
fn a_flag_that_is_refused_keeps_the_work_before_it() {
    let records = vec![rec(0, Some(GOOD)), rec(1, Some(GOOD))];
    let mut w = Work::new();
    w.take(&records[0], Ok(reading(25.0, 3.0, 0.0, 0.0)));
    w.take(&records[1], Ok(reading(35.0, 3.0, 0.0, 0.0)));
    let (m, verdict) = w.refuse(&records, 1, &Fields::new());
    assert!(matches!(verdict, Ok(Some(0))));
    let v = value(&m.value);
    assert_eq!((v["n"].as_u64(), v["last"].as_i64()), (Some(1), Some(1)));

    let mut w = Work::new();
    w.take(&records[1], Ok(reading(35.0, 3.0, 0.0, 0.0)));
    let (_, verdict) = w.refuse(&records, 1, &Fields::new());
    match verdict {
        Err(HandlerError::Transient(Some(why))) => assert_eq!(why, "flag produce failed"),
        _ => panic!("not transient"),
    }
}
