use fab_line::kafka::{describe, ConsumedRecord, KafkaError};
use fab_line::measure::Measure;
use fab_line::stations::final_test::{
    abort_metric, advance, commit_positions, report_batch, transform, txn_metric, Step, Unit,
};
use fab_line::stations::twin;
use serde_json::Value;

fn unit(id: &str, bin: u32) -> Unit {
    Unit {
        unit: id.to_string(),
        lot: "L-1".to_string(),
        bin,
        vout: Some(Measure {
            bits: 3.3f64.to_bits(),
            json: "3.3".to_string(),
            shown: "3.3".to_string(),
        }),
        iq_ua: None,
    }
}

fn rec(topic: &str, partition: i32, offset: i64) -> ConsumedRecord {
    ConsumedRecord {
        topic: topic.to_string(),
        partition,
        offset,
        timestamp: Some(10 * offset),
        timestamp_type: "CreateTime".to_string(),
        leader_epoch: Some(offset as i32),
        key: None,
        value: Some(b"{}".to_vec()),
        headers: Vec::new(),
    }
}

fn value(bytes: &Option<Vec<u8>>) -> Value {
    serde_json::from_slice(bytes.as_ref().unwrap()).unwrap()
}

#[test]
fn every_unit_is_disposed_of_and_moved() {
    let mut batch = vec![rec("t", 1, 5), rec("t", 1, 6), rec("t", 1, 7), rec("t", 1, 8)];
    batch[3].value = None;
    let out = transform(&batch, &vec![Some(unit("U-1", 1)), None, Some(unit("U-2", 4)), None]);
    assert_eq!((out.dispositions.len(), out.moves.len(), out.malformed), (2, 2, 2));
    assert_eq!(out.dispositions[0].key, Some(b"U-1".to_vec()));
    let v = value(&out.dispositions[0].value);
    assert_eq!((v["unit"].as_str(), v["disposition"].as_str()), (Some("U-1"), Some("pass")));
    assert_eq!(v["vout"], 3.3);
    assert_eq!(v["iq_ua"], Value::Null);
    assert_eq!(v["origin"]["offset"], 5);
    let v = value(&out.dispositions[1].value);
    assert_eq!((v["bin"].as_u64(), v["disposition"].as_str()), (Some(4), Some("fail")));
    let v = value(&out.moves[0].value);
    assert_eq!((v["from"].as_str(), v["to"].as_str()), (Some("FT"), Some("TR")));
    assert_eq!(v["qty"], 1);
    assert_eq!(value(&out.moves[1].value)["to"], "SCRAP");
    assert_eq!(out.bins.get(&"1".to_string()), Some(&1));
    assert_eq!(out.lots.get(&"L-1".to_string()), Some(&2));
}

#[test]
fn a_batch_is_reported() {
    let batch = vec![rec("t", 1, 5), rec("t", 1, 6), rec("t", 1, 7)];
    let out = transform(&batch, &vec![Some(unit("U-1", 1)), None, Some(unit("U-2", 1))]);
    let ms = report_batch(&out, &batch, "lot.disposition", "inventory.moves");
    assert_eq!(ms.len(), 3);
    let v = value(&ms[0].value);
    assert_eq!((v["station"].as_str(), v["n"].as_u64()), (Some("st06"), Some(3)));
    assert_eq!((v["malformed"].as_u64(), v["lots"].as_u64()), (Some(1), Some(1)));
    assert_eq!(v["bins"]["1"], 2);
    assert_eq!(v["ts"], 70);
    let v = value(&ms[1].value);
    assert_eq!((v["topic"].as_str(), v["n"].as_u64()), (Some("lot.disposition"), Some(2)));
    assert_eq!(value(&ms[2].value)["topic"], "inventory.moves");
}

#[test]
fn positions_are_one_past_the_last_record() {
    let batch = vec![rec("b", 0, 3), rec("a", 1, 9), rec("a", 0, 2), rec("a", 1, 4), rec("a", 0, 5)];
    let ps = commit_positions(&batch);
    let seen: Vec<(String, i32, i64, Option<i32>)> = ps
        .iter()
        .map(|p| (p.topic.clone(), p.partition, p.offset, p.leader_epoch))
        .collect();
    let want = vec![
        ("a".to_string(), 0, 6, Some(5)),
        ("a".to_string(), 1, 10, Some(9)),
        ("b".to_string(), 0, 4, Some(3)),
    ];
    assert_eq!(seen, want);
    assert!(ps.iter().all(|p| p.metadata.is_none()));
    assert!(commit_positions(&Vec::new()).is_empty());
}

fn run(results: &[Result<(), String>]) -> Step {
    results.iter().fold(Step::Begin, |step, r| advance(step, r.clone()))
}

#[test]
fn a_transaction_commits_after_every_step() {
    let ok: Vec<Result<(), String>> = vec![Ok(()); 6];
    assert!(matches!(run(&ok[..1]), Step::SendDispositions));
    assert!(matches!(run(&ok[..2]), Step::SendMoves));
    assert!(matches!(run(&ok[..3]), Step::SendMetrics));
    assert!(matches!(run(&ok[..4]), Step::SendOffsets));
    assert!(matches!(run(&ok[..5]), Step::Commit));
    assert!(matches!(run(&ok), Step::Committed));
}

#[test]
fn a_transaction_that_fails_is_aborted() {
    for failing in 1..6 {
        let mut results: Vec<Result<(), String>> = vec![Ok(()); failing];
        results.push(Err("why".to_string()));
        match run(&results) {
            Step::Abort(why) => assert_eq!(why, "why"),
            _ => panic!("not aborted at {failing}"),
        }
        // What comes of the abort does not matter.
        results.push(Err("worse".to_string()));
        match run(&results) {
            Step::Failed(why) => assert_eq!(why, "why"),
            _ => panic!("not failed at {failing}"),
        }
    }
    // Nothing was begun, so nothing is aborted.
    assert!(matches!(run(&[Err("why".to_string())]), Step::Failed(_)));
}

#[test]
fn transactions_are_reported() {
    let v = value(&txn_metric(12, 100, 3, Some(5)).value);
    assert_eq!((v["kind"].as_str(), v["ms"].as_u64()), (Some("txn"), Some(12)));
    assert_eq!((v["n"].as_u64(), v["committed"].as_u64()), (Some(100), Some(3)));
    let e = KafkaError {
        code: "Fenced".to_string(),
        message: "gone".to_string(),
        fatal: true,
        retriable: false,
        txn_requires_abort: false,
    };
    let v = value(&abort_metric(&describe("commit", &e), None).value);
    assert_eq!(v["kind"], "txn_abort");
    assert_eq!((v["fatal"].as_bool(), v["requires_abort"].as_bool()), (Some(true), Some(false)));
    assert_eq!(v["reason"], describe("commit", &e));
}

#[test]
fn the_twin_writes_the_same() {
    let batch = vec![rec("t", 1, 5), rec("t", 1, 6), rec("t", 1, 7)];
    let units = || vec![Some(unit("U-1", 1)), None, Some(unit("U-2", 4))];
    let a = transform(&batch, &units());
    let b = twin::transform(&batch, &units());
    assert_eq!((a.malformed, b.malformed), (1, 1));
    assert_eq!((b.dispositions.len(), b.moves.len()), (2, 2));
    for i in 0..2 {
        assert_eq!(a.moves[i].key, b.moves[i].key);
        assert_eq!(a.moves[i].value, b.moves[i].value);
        assert_eq!(a.dispositions[i].key, b.dispositions[i].key);
        assert_eq!(a.dispositions[i].value, b.dispositions[i].value);
    }
    let v = value(&b.dispositions[0].value);
    assert!(v.get("vout").is_some() && v.get("iq_ua").is_some());
}
