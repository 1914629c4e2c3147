use fab_line::kafka::KafkaError;
use fab_line::measure::Measure;
use fab_line::stations::probe_intake::{
    answer_sent, check_body, health_reply, no_path_reply, parse, read_request, records_of, reject,
    report_lot, route, synthesize, unknown_reply, validate, BatchRequest, Lot, Method, Route, Wafer,
};
use serde_json::Value;

fn m(x: f64) -> Measure {
    Measure {
        bits: x.to_bits(),
        json: serde_json::Number::from_f64(x).map_or("null".to_string(), |n| n.to_string()),
        shown: x.to_string(),
    }
}

fn wafer(n: u32, yield_pct: f64) -> Wafer {
    Wafer { wafer: n, contact_mohm: m(120.5), chuck_c: m(25.0), yield_pct: m(yield_pct) }
}

fn lot(wafers: Vec<Wafer>) -> Lot {
    Lot { lot: "L-24091-07".to_string(), prober: "P-03".to_string(), wafers }
}

fn error(code: &str) -> KafkaError {
    KafkaError {
        code: code.to_string(),
        message: "down".to_string(),
        fatal: false,
        retriable: true,
        txn_requires_abort: false,
    }
}

fn value(bytes: &Option<Vec<u8>>) -> Value {
    serde_json::from_slice(bytes.as_ref().unwrap()).unwrap()
}

#[test]
fn requests_are_routed() {
    assert!(matches!(route(&Method::Post, None), Route::NoPath));
    assert!(matches!(route(&Method::Post, Some("/lot")), Route::Lot));
    assert!(matches!(route(&Method::Post, Some("/lot?x")), Route::Lot));
    assert!(matches!(route(&Method::Get, Some("/lot")), Route::Unknown));
    assert!(matches!(route(&Method::Get, Some("/healthz?a=b")), Route::Health));
    assert!(matches!(route(&Method::Other, Some("/healthz")), Route::Unknown));
    assert!(matches!(route(&Method::Post, Some("/lots")), Route::Unknown));
    match route(&Method::Post, Some("/produce-batch?count=3&size=a?b")) {
        Route::Batch(query) => assert_eq!(query, "count=3&size=a?b"),
        _ => panic!("not a batch"),
    }
    match route(&Method::Post, Some("/produce-batch")) {
        Route::Batch(query) => assert_eq!(query, ""),
        _ => panic!("not a batch"),
    }
}

#[test]
fn plain_replies_are_fixed() {
    let r = no_path_reply();
    assert_eq!((r.status, r.body.as_str()), (400, "no path"));
    let r = health_reply();
    assert_eq!((r.status, r.body.as_str()), (200, "ok"));
    let r = unknown_reply();
    assert_eq!(r.status, 404);
    assert_eq!(r.body, "no such route: POST /lot, POST /produce-batch, GET /healthz");
}

#[test]
fn bodies_are_bounded() {
    assert!(check_body(0).is_none());
    assert!(check_body(4_194_304).is_none());
    let r = check_body(4_194_305).unwrap();
    assert_eq!((r.status, r.body.as_str()), (400, "body larger than 4194304 bytes"));
}

#[test]
fn lots_are_validated_before_anything_is_produced() {
    let why = |l: Lot| validate(&l).unwrap_err();
    assert!(validate(&lot(vec![wafer(1, 0.0), wafer(100, 100.0)])).is_ok());
    assert!(validate(&lot((0..200).map(|_| wafer(1, 50.0)).collect())).is_ok());
    for id in ["", "24091", "l-1"] {
        let mut l = lot(vec![wafer(1, 50.0)]);
        l.lot = id.to_string();
        assert_eq!(why(l), "lot id must look like L-NNNNN-NN");
    }
    let mut l = lot(vec![wafer(1, 50.0)]);
    l.prober = String::new();
    assert_eq!(why(l), "prober id is required");
    assert_eq!(why(lot(Vec::new())), "a lot carries 1..200 wafers");
    assert_eq!(
        why(lot((0..201).map(|_| wafer(1, 50.0)).collect())),
        "a lot carries 1..200 wafers"
    );
    assert_eq!(why(lot(vec![wafer(0, 50.0)])), "wafer 0 out of range 1..100");
    assert_eq!(why(lot(vec![wafer(1, 50.0), wafer(101, 50.0)])), "wafer 101 out of range 1..100");
    let mut w = wafer(7, 50.0);
    w.chuck_c = m(f64::INFINITY);
    assert_eq!(why(lot(vec![w])), "wafer 7: non-finite reading");
    assert_eq!(why(lot(vec![wafer(7, 100.5)])), "wafer 7: yield 100.5 % outside 0..100");
    assert_eq!(why(lot(vec![wafer(7, -0.5)])), "wafer 7: yield -0.5 % outside 0..100");
    assert!(validate(&lot(vec![wafer(7, -0.0)])).is_ok());
}

#[test]
fn rejected_uploads_are_answered_and_reported() {
    assert!(reject(&Ok(lot(vec![wafer(1, 50.0)])), 9).is_none());
    let r = reject(&Err("expected value at line 1 column 1".to_string()), 9).unwrap();
    assert_eq!(r.reply.status, 400);
    assert_eq!(r.reply.body, "rejected: not a lot: expected value at line 1 column 1");
    let v = value(&r.metric.value);
    assert_eq!((v["kind"].as_str(), v["ts"].as_i64()), (Some("rejected"), Some(9)));
    assert_eq!(v["reason"], "not a lot: expected value at line 1 column 1");
    assert!(v.get("lot").is_none());
    let r = reject(&Ok(lot(Vec::new())), 9).unwrap();
    assert_eq!(r.reply.body, "rejected: a lot carries 1..200 wafers");
    let v = value(&r.metric.value);
    assert_eq!((v["lot"].as_str(), v["prober"].as_str()), (Some("L-24091-07"), Some("P-03")));
    assert_eq!(v["n"], 1);
}

#[test]
fn a_lot_is_one_record_per_wafer() {
    let rs = records_of(&lot(vec![wafer(1, 98.5), wafer(2, 97.0)]));
    assert_eq!(rs.len(), 2);
    assert_eq!(rs[1].key, Some(b"L-24091-07".to_vec()));
    let v = value(&rs[0].value);
    assert_eq!((v["lot"].as_str(), v["prober"].as_str()), (Some("L-24091-07"), Some("P-03")));
    assert_eq!((v["wafer"].as_u64(), v["via"].as_str()), (Some(1), Some("http")));
    assert_eq!((v["contact_mohm"].as_f64(), v["yield_pct"].as_f64()), (Some(120.5), Some(98.5)));
}

#[test]
fn an_upload_is_answered_line_by_line() {
    let r = answer_sent(&Ok(vec![Ok(()), Err(error("Timeout")), Ok(())]), 503);
    assert_eq!((r.status, r.body.as_str()), (200, "ok\nTimeout\nok"));
    let r = answer_sent(&Err(error("Timeout")), 503);
    assert_eq!((r.status, r.body.as_str()), (503, "send-batch failed: Timeout"));
    assert_eq!(answer_sent(&Err(error("Timeout")), 500).status, 500);
    assert_eq!(answer_sent(&Ok(Vec::new()), 503).body, "");
}

#[test]
fn an_upload_is_reported() {
    let l = lot(vec![wafer(1, 98.5), wafer(2, 97.0), wafer(3, 97.0)]);
    let ms = report_lot(&l, &Ok(vec![Ok(()), Err(error("Timeout")), Ok(())]), 17, 9);
    assert_eq!(ms.len(), 2);
    let v = value(&ms[0].value);
    assert_eq!((v["kind"].as_str(), v["topic"].as_str()), (Some("produced"), Some("probe.lots")));
    assert_eq!((v["n"].as_u64(), v["wafers"].as_u64()), (Some(2), Some(3)));
    let v = value(&ms[1].value);
    assert_eq!((v["kind"].as_str(), v["ms"].as_u64()), (Some("latency"), Some(17)));
    assert_eq!((v["batch"].as_u64(), v["errors"].as_u64()), (Some(3), Some(1)));
    let ms = report_lot(&l, &Err(error("Timeout")), 17, 9);
    assert_eq!(ms.len(), 1);
    let v = value(&ms[0].value);
    assert_eq!((v["kind"].as_str(), v["lot"].as_str()), (Some("fault"), Some("L-24091-07")));
    assert_eq!(v["reason"], "send-batch failed: Timeout");
}

#[test]
fn queries_are_decoded() {
    let p = parse("count=3&size=%31%30&name=a+b&count=4&flag");
    assert_eq!(p.get(&"count".to_string()), Some(&"4".to_string()));
    assert_eq!(p.get(&"size".to_string()), Some(&"10".to_string()));
    assert_eq!(p.get(&"name".to_string()), Some(&"a b".to_string()));
    assert_eq!(p.get(&"flag".to_string()), Some(&String::new()));
    assert_eq!(p.len(), 4);
    assert_eq!(parse("").len(), 0);
}

#[test]
fn batch_requests_are_bounded() {
    let ok = |q: &str| match read_request(q) {
        Ok(b) => (b.count, b.size),
        Err(r) => panic!("{q}: {}", r.body),
    };
    let why = |q: &str| match read_request(q) {
        Ok(_) => panic!("{q}: taken"),
        Err(r) => {
            assert_eq!(r.status, 400);
            r.body
        }
    };
    assert_eq!(ok(""), (100, 64));
    assert_eq!(ok("count=%31%30&size=0"), (10, 0));
    assert_eq!(ok("count=10000&size=1677"), (10_000, 1_677));
    assert_eq!(ok("count=16&size=1048576"), (16, 1_048_576));
    for q in ["count=0", "count=10001", "count=x", "count=-1", "count="] {
        assert_eq!(why(q), "count must be between 1 and 10000");
    }
    for q in ["size=1048577", "size=big"] {
        assert_eq!(why(q), "size must be between 0 and 1048576");
    }
    // More than sixteen mebibytes in all.
    why("count=17&size=1048576");
    why("count=10000&size=1678");
}

#[test]
fn synthetic_batches_are_numbered() {
    let rs = synthesize(&BatchRequest { count: 12, size: 3 });
    assert_eq!(rs.len(), 12);
    assert_eq!((rs[0].key.as_deref(), rs[11].key.as_deref()), (Some(&b"k0"[..]), Some(&b"k11"[..])));
    assert!(rs.iter().all(|r| r.value == Some(b"xxx".to_vec())));
}
