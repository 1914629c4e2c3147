use fab_line::kafka::{ConsumedRecord, KafkaError, PartitionCommit};
use fab_line::stations::twin::{advance, env_usize, judge_commit, report_batch, Step};
use serde_json::Value;

fn rec(offset: i64) -> ConsumedRecord {
    ConsumedRecord {
        topic: "finaltest.bins".to_string(),
        partition: 0,
        offset,
        timestamp: Some(offset),
        timestamp_type: "CreateTime".to_string(),
        leader_epoch: None,
        key: None,
        value: Some(b"{}".to_vec()),
        headers: Vec::new(),
    }
}

fn kind(bytes: &Option<Vec<u8>>) -> (String, Value) {
    let v: Value = serde_json::from_slice(bytes.as_ref().unwrap()).unwrap();
    (v["kind"].as_str().unwrap().to_string(), v)
}

fn error(code: &str) -> KafkaError {
    KafkaError {
        code: code.to_string(),
        message: "down".to_string(),
        fatal: false,
        retriable: true,
        txn_requires_abort: false,
    }
}

#[test]
fn settings_are_bounded() {
    assert_eq!(env_usize(None, 5, 100), 5);
    assert_eq!(env_usize(Some("20"), 5, 100), 20);
    assert_eq!(env_usize(Some("0"), 5, 100), 5);
    assert_eq!(env_usize(Some("500"), 5, 100), 100);
    assert_eq!(env_usize(Some("-3"), 5, 100), 5);
    assert_eq!(env_usize(None, 500, 100), 100);
}

#[test]
fn the_last_batch_before_a_commit_says_so() {
    let batch = vec![rec(1), rec(2)];
    let (ms, committing) = report_batch(&batch, 1, 1, "d", "m", 4, 5);
    assert!(!committing);
    assert_eq!(ms.len(), 3);
    let (k, v) = kind(&ms[0].value);
    assert_eq!((k.as_str(), v["station"].as_str()), ("consumed", Some("st06twin")));
    assert_eq!((v["n"].as_u64(), v["malformed"].as_u64()), (Some(2), Some(1)));
    assert_eq!((kind(&ms[1].value).1)["topic"], "d");
    assert_eq!((kind(&ms[2].value).1)["topic"], "m");
    let (ms, committing) = report_batch(&batch, 1, 1, "d", "m", 5, 5);
    assert!(committing);
    let (k, v) = kind(&ms[3].value);
    assert_eq!((k.as_str(), v["batches"].as_u64()), ("commit", Some(5)));
}

#[test]
fn commits_without_an_offset_are_fine() {
    let part = |e: Option<&str>| PartitionCommit { partition: 1, error: e.map(|s| s.to_string()) };
    assert!(judge_commit(&Ok(vec![part(None), part(Some("NoOffset"))])).is_ok());
    assert!(judge_commit(&Err(error("NoOffset"))).is_ok());
    assert_eq!(judge_commit(&Err(error("Timeout"))), Err("commit: down".to_string()));
    let why = judge_commit(&Ok(vec![part(None), part(Some("Fenced"))])).unwrap_err();
    assert!(why.starts_with("commit failed on a partition: "), "{why}");
    assert!(why.contains("Fenced"));
    // The first error is named, also where it is none by itself.
    let why = judge_commit(&Ok(vec![part(Some("NoOffset")), part(Some("Fenced"))])).unwrap_err();
    assert_eq!(why, "commit failed on a partition: Some(NoOffset)");
}

/// The batches after which there is a commit.
fn commits(every: usize, batches: usize) -> Vec<usize> {
    let mut since: usize = 0;
    let mut seen = Vec::new();
    for n in 1..=batches {
        since += 1;
        let mut step = Step::SendDispositions;
        loop {
            match step {
                Step::Done(left) => {
                    since = left;
                    break;
                }
                Step::Exit(_) => panic!("exit"),
                _ => {}
            }
            if matches!(step, Step::Commit) {
                seen.push(n);
            }
            step = advance(step, Ok(()), since, every);
        }
    }
    seen
}

#[test]
fn a_commit_comes_every_so_many_batches() {
    assert_eq!(commits(5, 16), vec![5, 10, 15]);
    assert_eq!(commits(1, 3), vec![1, 2, 3]);
    assert_eq!(commits(100, 50), Vec::<usize>::new());
}

#[test]
fn a_step_that_fails_ends_the_service() {
    for step in [Step::SendDispositions, Step::SendMoves, Step::Commit] {
        match advance(step, Err("why".to_string()), 5, 5) {
            Step::Exit(why) => assert_eq!(why, "why"),
            _ => panic!("went on"),
        }
    }
}
