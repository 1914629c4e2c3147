use fab_line::clock::{millis_of, now_ms};
use fab_line::json::{counts_json, Fields, Json};
use fab_line::kafka::{
    all_ok, check_delivery, count_taken, describe, first_error, is_wholly_taken, json_record,
    metric, to_record, KafkaError,
};
use fab_line::ordered_map::OrderedMap;
use serde_json::Value;

fn error(code: &str) -> KafkaError {
    KafkaError {
        code: code.to_string(),
        message: "broker down".to_string(),
        fatal: false,
        retriable: true,
        txn_requires_abort: true,
    }
}

fn value(bytes: &Option<Vec<u8>>) -> Value {
    serde_json::from_slice(bytes.as_ref().unwrap()).unwrap()
}

#[test]
fn a_record_carries_key_and_value_alone() {
    let r = to_record("sim", "{}");
    assert_eq!(r.key, Some(b"sim".to_vec()));
    assert_eq!(r.value, Some(b"{}".to_vec()));
    assert!(r.partition.is_none() && r.headers.is_empty() && r.timestamp.is_none());
}

#[test]
fn json_is_written_as_serde_json_writes_it() {
    let mut f = Fields::new();
    f.put("b", Json::List(vec![Json::Bool(true), Json::Null, Json::Int(-3)]));
    f.put("a", Json::Real("2.5".to_string()));
    f.put("c", Json::text("say \"hi\" ±\n"));
    f.put("d", Json::Uint(u64::MAX));
    let r = json_record("k", &Json::Object(f));
    assert_eq!(
        String::from_utf8(r.value.unwrap()).unwrap(),
        "{\"a\":2.5,\"b\":[true,null,-3],\"c\":\"say \\\"hi\\\" ±\\n\",\"d\":18446744073709551615}"
    );
}

#[test]
fn a_metric_says_who_what_and_when() {
    let mut extra = Fields::new();
    extra.put("n", Json::Uint(3));
    let r = metric("st02", "consumed", Some(-5), &extra);
    assert_eq!(r.key, Some(b"st02".to_vec()));
    let v = value(&r.value);
    assert_eq!(v["station"], "st02");
    assert_eq!(v["kind"], "consumed");
    assert_eq!(v["ts"], -5);
    assert_eq!(v["n"], 3);
    assert_eq!(value(&metric("st03", "started", None, &Fields::new()).value)["ts"], Value::Null);
}

#[test]
fn an_extra_field_goes_over_the_base() {
    let mut extra = Fields::new();
    extra.put("kind", Json::text("other"));
    assert_eq!(value(&metric("st02", "consumed", None, &extra).value)["kind"], "other");
}

#[test]
fn counts_become_an_object() {
    let mut m: OrderedMap<String, u64> = OrderedMap::new();
    m.insert("probe.lots".to_string(), 4);
    m.insert("inspect.jobs".to_string(), 2);
    match counts_json(&m) {
        Json::Object(f) => {
            assert_eq!(f.len(), 2);
            assert!(matches!(f.get("probe.lots"), Some(Json::Uint(4))));
        }
        _ => panic!("not an object"),
    }
}

#[test]
fn fields_are_read_by_kind() {
    let mut f = Fields::new();
    f.put("u", Json::Uint(7));
    f.put("i", Json::Int(-7));
    f.put("s", Json::text("x"));
    f.put("b", Json::Bool(true));
    f.put("l", Json::List(vec![Json::Null]));
    let v = Json::Object(f);
    assert_eq!(v.uint_field("u"), Some(7));
    assert_eq!(v.uint_field("i"), None);
    assert_eq!(v.int_field("u"), Some(7));
    assert_eq!(v.int_field("i"), Some(-7));
    assert_eq!(v.text_field("s"), Some("x".to_string()));
    assert_eq!(v.text_field("u"), None);
    assert_eq!(v.text_field_or("none", "line"), "line");
    assert_eq!(v.bool_field("b"), Some(true));
    assert_eq!(v.list_field("l").map(|l| l.len()), Some(1));
    assert!(v.object_field("l").is_none());
    assert!(v.field("none").is_none());
    assert!(Json::Null.field("u").is_none());
    assert!(matches!(Json::whole(-1), Json::Int(-1)));
    assert!(matches!(Json::whole(1), Json::Uint(1)));
}

#[test]
fn what_a_broker_took_is_counted() {
    let mixed = vec![Ok(()), Err(error("Timeout")), Ok(()), Err(error("Fenced"))];
    assert_eq!(count_taken(&mixed), 2);
    assert_eq!(first_error(&mixed), Some(1));
    assert_eq!(first_error(&vec![Ok(())]), None);
    assert!(!is_wholly_taken(&Ok(mixed)));
    assert!(is_wholly_taken(&Ok(vec![Ok(()), Ok(())])));
    assert!(is_wholly_taken(&Ok(Vec::new())));
    assert!(!is_wholly_taken(&Err(error("Timeout"))));
}

#[test]
fn a_failure_is_described_with_its_flags() {
    assert_eq!(
        describe("begin", &error("Fenced")),
        "begin: broker down (Fenced; requires_abort=true fatal=false retriable=true)"
    );
    assert_eq!(
        all_ok(Ok(vec![Ok(()), Err(error("Timeout"))]), "lot.disposition"),
        Err("send-batch lot.disposition record: broker down (Timeout; requires_abort=true \
             fatal=false retriable=true)"
            .to_string())
    );
    assert_eq!(
        all_ok(Err(error("Timeout")), "inventory.moves"),
        Err("send-batch inventory.moves: broker down (Timeout; requires_abort=true fatal=false \
             retriable=true)"
            .to_string())
    );
    assert_eq!(all_ok(Ok(vec![Ok(())]), "x"), Ok(()));
    assert_eq!(
        check_delivery(&Ok(vec![Err(error("Timeout"))]), "wirebond.metrics"),
        Err("send_batch wirebond.metrics: record failed: broker down".to_string())
    );
    assert_eq!(
        check_delivery(&Err(error("Timeout")), "wirebond.metrics"),
        Err("send_batch wirebond.metrics: broker down".to_string())
    );
    assert_eq!(check_delivery(&Ok(Vec::new()), "x"), Ok(()));
}

#[test]
fn the_clock_reads_milliseconds() {
    assert_eq!(millis_of(Some((1_700_000_000, 123_999_999))), 1_700_000_000_123);
    assert_eq!(millis_of(None), 0);
    let before = std::time::SystemTime::now()
        .duration_since(std::time::UNIX_EPOCH)
        .unwrap()
        .as_millis() as i64;
    let now = now_ms();
    assert!(before <= now && now < before + 60_000);
}
