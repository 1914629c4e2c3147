use fab_line::json::Json;
use fab_line::kafka::{ConsumedRecord, HandlerError, KafkaError};
use fab_line::stations::inspection::{
    budget, defect_class, digest, inspect, open_batch, parse, work_through, Job,
};
use serde_json::Value;

fn job(strip: &str, id: &str) -> Job {
    Job { job: id.to_string(), strip: strip.to_string(), lot: None, cost_ms: 1 }
}

fn rec(offset: i64, value: Option<&str>, ts: Option<i64>) -> ConsumedRecord {
    ConsumedRecord {
        topic: "inspect.jobs".to_string(),
        partition: 2,
        offset,
        timestamp: ts,
        timestamp_type: "CreateTime".to_string(),
        leader_epoch: None,
        key: Some(b"J-1".to_vec()),
        value: value.map(|v| v.as_bytes().to_vec()),
        headers: Vec::new(),
    }
}

fn value(bytes: &Option<Vec<u8>>) -> Value {
    serde_json::from_slice(bytes.as_ref().unwrap()).unwrap()
}

fn failed() -> KafkaError {
    KafkaError {
        code: "Timeout".to_string(),
        message: "no".to_string(),
        fatal: false,
        retriable: true,
        txn_requires_abort: false,
    }
}

#[test]
fn a_digest_is_that_of_strip_and_job() {
    assert_eq!(digest(&job("foo", "bar")), 0x8594_4171_f739_67e8);
    assert_eq!(digest(&job("a", "")), 0xaf63_dc4c_8601_ec8c);
    assert_eq!(digest(&job("", "")), 0xcbf2_9ce4_8422_2325);
    assert_ne!(digest(&job("foo", "bar")), digest(&job("bar", "foo")));
}

#[test]
fn an_inspection_takes_its_time_and_finds_the_same() {
    let j = job("S-1", "J-1");
    let (a, took) = inspect(&j);
    assert_eq!(a, digest(&j));
    assert!(took >= 50);
    assert_eq!(inspect(&j).0, a);
    let mut slow = job("S-1", "J-1");
    slow.cost_ms = 120;
    assert!(inspect(&slow).1 >= 120);
}

#[test]
fn costs_are_kept_within_bounds() {
    assert_eq!(budget(0), 50);
    assert_eq!(budget(49), 50);
    assert_eq!(budget(300), 300);
    assert_eq!(budget(2_000), 2_000);
    assert_eq!(budget(u64::MAX), 2_000);
}

#[test]
fn defect_classes_follow_the_digest() {
    assert_eq!(defect_class(0), "void>10%");
    assert_eq!(defect_class(13), "bridge");
    assert_eq!(defect_class(26), "lift");
    assert_eq!(defect_class(3), "none");
    assert_eq!(defect_class(11), "none");
}

#[test]
fn malformed_jobs_say_why() {
    let text = b"{\"job\":\"J\"}";
    assert_eq!(parse(b"\xff", Ok(job("S", "J"))).err().unwrap(), "value is not valid UTF-8");
    assert_eq!(parse(text, Err("e".to_string())).err().unwrap(), "bad job: e");
    for j in [job("", "J"), job("S", "")] {
        assert_eq!(parse(text, Ok(j)).err().unwrap(), "job and strip ids are required");
    }
    assert!(parse(text, Ok(job("S", "J"))).is_ok());
}

#[test]
fn a_new_instance_says_so() {
    let records = vec![rec(0, None, Some(5))];
    let ms = open_batch("st04-00000001", true, &records);
    assert_eq!(ms.len(), 1);
    let v = value(&ms[0].value);
    assert_eq!((v["kind"].as_str(), v["id"].as_str()), (Some("instance"), Some("st04-00000001")));
    assert_eq!(v["fresh"], Value::Null);
    assert!(open_batch("st04-00000001", false, &records).is_empty());
}

#[test]
fn every_job_of_a_batch_gets_a_result() {
    let records = vec![
        rec(0, None, None),
        rec(1, Some("{}"), None),
        rec(2, Some("{}"), Some(i64::MAX)),
        rec(3, Some("{}"), None),
    ];
    let decoded = vec![
        Err("no value".to_string()),
        Ok(job("foo", "bar")),
        Ok(job("S", "J")),
        Err("bad".to_string()),
    ];
    let voids = vec![Json::Null, Json::Real("1.5".to_string()), Json::Null, Json::Null];
    let (w, at) = work_through(&records, decoded, &voids, "st04-x");
    assert_eq!(at, 3);
    assert_eq!((w.results.len(), w.handled), (2, Some(2)));
    let v = value(&w.results[0].value);
    assert_eq!(w.results[0].key, Some(b"bar".to_vec()));
    assert_eq!((v["job"].as_str(), v["strip"].as_str()), (Some("bar"), Some("foo")));
    assert_eq!(v["lot"], Value::Null);
    assert_eq!(v["defect"], defect_class(0x8594_4171_f739_67e8));
    assert_eq!(v["void_pct"], 1.5);
    assert_eq!(v["instance"], "st04-x");
    assert_eq!(v["latency_ms"], v["work_ms"]);
    assert_eq!(v["origin"]["offset"], 1);
    // A record from the future has waited for no time.
    assert_eq!(w.latencies[1], 0);
    let slow = w.latencies[0];
    assert!(slow >= 50);

    let (ms, verdict) = w.finish("st04-x", 7, &records, at, &Some(Ok(vec![Ok(()), Ok(())])));
    assert!(matches!(verdict, Ok(Some(2))));
    assert_eq!(ms.len(), 3);
    let v = value(&ms[0].value);
    assert_eq!((v["kind"].as_str(), v["n"].as_u64()), (Some("consumed"), Some(2)));
    assert_eq!(v["jobs_on_instance"], 7);
    assert_eq!((v["latency_p50_ms"].as_u64(), v["latency_p95_ms"].as_u64()), (Some(slow), Some(slow)));
    assert_eq!(v["defects"].as_array().unwrap().len(), 2);
    assert_eq!(value(&ms[1].value)["topic"], "inspect.results");
    assert_eq!(value(&ms[2].value)["reason"], "bad job: bad");
}

#[test]
fn results_that_are_lost_are_retried() {
    for sent in [Err(failed()), Ok(vec![Err(failed())])] {
        let records = vec![rec(1, Some("{}"), None)];
        let (w, at) = work_through(&records, vec![Ok(job("S", "J"))], &vec![Json::Null], "id");
        let (ms, verdict) = w.finish("id", 1, &records, at, &Some(sent));
        assert!(ms.is_empty());
        match verdict {
            Err(HandlerError::Transient(Some(why))) => assert_eq!(why, "results produce failed"),
            _ => panic!("not transient"),
        }
    }
}

#[test]
fn a_batch_of_tombstones_is_handled() {
    let records = vec![rec(1, None, None)];
    let (w, at) = work_through(&records, vec![Err("x".to_string())], &vec![Json::Null], "id");
    let (ms, verdict) = w.finish("id", 0, &records, at, &None);
    assert!(ms.is_empty());
    assert!(matches!(verdict, Ok(None)));
}

#[test]
fn the_first_job_that_cannot_be_read_is_the_one_reported() {
    let bad = || Err("bad".to_string());
    let voids = || vec![Json::Null, Json::Null, Json::Null];
    let records = vec![rec(1, None, Some(10)), rec(2, Some("{}"), Some(20)), rec(3, Some("{}"), Some(30))];
    let (w, at) = work_through(&records, vec![bad(), bad(), bad()], &voids(), "id");
    assert_eq!((at, w.handled), (1, Some(1)));
    let (ms, verdict) = w.finish("id", 0, &records, at, &None);
    assert!(matches!(verdict, Ok(Some(1))));
    let v = value(&ms.last().unwrap().value);
    assert_eq!((v["kind"].as_str(), v["ts"].as_i64()), (Some("partial"), Some(20)));
    let tombstones = vec![rec(1, None, None), rec(2, None, None), rec(3, None, None)];
    assert_eq!(work_through(&tombstones, vec![bad(), bad(), bad()], &voids(), "id").1, 3);
}
