use fab_line::kafka::{ConsumedRecord, HandlerError};
use fab_line::ordered_map::OrderedMap;
use fab_line::stations::instance::{
    conclude, heartbeat_due, instance_id, instance_id_from, note_redelivery, open_batch,
    report_failure,
};
use serde_json::Value;

fn rec(offset: i64, key: &[u8]) -> ConsumedRecord {
    ConsumedRecord {
        topic: "dieattach.readings".to_string(),
        partition: 3,
        offset,
        timestamp: Some(1_000 + offset),
        timestamp_type: "CreateTime".to_string(),
        leader_epoch: None,
        key: Some(key.to_vec()),
        value: None,
        headers: Vec::new(),
    }
}

fn value(bytes: &Option<Vec<u8>>) -> Value {
    serde_json::from_slice(bytes.as_ref().unwrap()).unwrap()
}

#[test]
fn an_instance_keeps_its_id() {
    let mut slot = None;
    assert_eq!(
        instance_id_from(&mut slot, "st02", 0x1234_0000_beef),
        ("st02-0000beef".to_string(), true)
    );
    assert_eq!(instance_id_from(&mut slot, "st02", 7), ("st02-0000beef".to_string(), false));
}

#[test]
fn an_id_is_drawn_at_random() {
    let ids: Vec<String> = (0..8)
        .map(|_| {
            let mut slot = None;
            let (id, fresh) = instance_id(&mut slot, "st04", 0x1a5b);
            assert!(fresh);
            assert_eq!(instance_id(&mut slot, "st04", 0x1a5b), (id.clone(), false));
            assert_eq!(id.len(), 13);
            assert!(id.starts_with("st04-"));
            assert!(id[5..].chars().all(|c| c.is_ascii_hexdigit() && !c.is_ascii_uppercase()));
            id
        })
        .collect();
    assert!(ids.iter().any(|id| *id != ids[0]));
}

#[test]
fn heartbeats_keep_ten_seconds_of_record_time_apart() {
    let mut last: i64 = 0;
    assert!(heartbeat_due(&mut last, true, Some(50_000)));
    assert_eq!(last, 50_000);
    assert!(!heartbeat_due(&mut last, false, Some(59_999)));
    assert!(heartbeat_due(&mut last, false, Some(60_000)));
    assert_eq!(last, 60_000);
    assert!(!heartbeat_due(&mut last, false, None));
    assert!(heartbeat_due(&mut last, true, None));
    assert_eq!(last, 0);
}

#[test]
fn redelivered_records_are_counted() {
    let mut marks: OrderedMap<i32, i64> = OrderedMap::new();
    assert_eq!(note_redelivery(&mut marks, 0, 0, 9), 0);
    assert_eq!(note_redelivery(&mut marks, 1, 0, 9), 0);
    assert_eq!(note_redelivery(&mut marks, 0, 10, 19), 0);
    // The last five of the batch before, and five more.
    assert_eq!(note_redelivery(&mut marks, 0, 15, 24), 5);
    // Wholly below the mark.
    assert_eq!(note_redelivery(&mut marks, 0, 3, 4), 2);
    assert_eq!(marks.get(&0), Some(&24));
    assert_eq!(marks.get(&1), Some(&9));
}

#[test]
fn a_batch_opens_with_what_is_due() {
    let records = vec![rec(5, b"D-1"), rec(6, b"D-2")];
    let ms = open_batch("st02", "st02-0000beef", true, true, 2, &records);
    assert_eq!(ms.len(), 2);
    let v = value(&ms[0].value);
    assert_eq!(v["kind"], "instance");
    assert_eq!(v["id"], "st02-0000beef");
    assert_eq!(v["fresh"], true);
    assert_eq!(v["ts"], 1_006);
    let v = value(&ms[1].value);
    assert_eq!(v["kind"], "redelivered");
    assert_eq!(v["n"], 2);
    assert_eq!(v["partition"], 3);
    assert_eq!(v["offset"], 5);
    assert!(open_batch("st02", "id", false, false, 0, &records).is_empty());
}

#[test]
fn a_failure_is_partial_behind_handled_records() {
    let r = rec(7, b"D-\xff");
    let v = value(&report_failure("st02", "die", Some(6), "bl_um missing", &r).value);
    assert_eq!(v["kind"], "partial");
    assert_eq!(v["offset"], 6);
    assert_eq!(v["partition"], 3);
    assert_eq!(v["reason"], "bl_um missing");
    assert!(matches!(conclude(Some(6), Some("bl_um missing".to_string())), Ok(Some(6))));
}

#[test]
fn a_failure_at_the_head_is_dead_lettered() {
    let r = rec(7, b"D-\xff");
    let v = value(&report_failure("st02", "die", None, "bl_um missing", &r).value);
    assert_eq!(v["kind"], "dlq");
    assert_eq!(v["n"], 1);
    assert_eq!(v["die"], "D-\u{fffd}");
    assert_eq!(v["origin"]["topic"], "dieattach.readings");
    assert_eq!(v["origin"]["partition"], 3);
    assert_eq!(v["origin"]["offset"], 7);
    match conclude(None, Some("bl_um missing".to_string())) {
        Err(HandlerError::Permanent(Some(why))) => assert_eq!(why, "bl_um missing"),
        _ => panic!("not permanent"),
    }
    assert!(matches!(conclude(Some(3), None), Ok(None)));
    assert!(matches!(conclude(None, None), Ok(None)));
}
