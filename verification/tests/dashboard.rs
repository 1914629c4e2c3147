use fab_line::dashboard::fold::Computed;
use fab_line::dashboard::handle::{begin_batch, handle_record, record_value};
use fab_line::dashboard::model::{dlq_for, dlq_station, push_fault, station_label, Model, Station};
use fab_line::dashboard::ring::{Ring, Samples};
use fab_line::dashboard::serve::{serve, Rates, Reply};
use fab_line::json::{Fields, Json};
use fab_line::kafka::{ConsumedRecord, Header};
use serde_json::Value;

const NOW: i64 = 1_700_000_000_000;

fn none() -> Computed {
    Computed {
        cpk: Fields::new(),
        conformance: None,
        drifts: Vec::new(),
        threshold: "0".to_string(),
    }
}

fn rec(topic: &str, value: &str) -> ConsumedRecord {
    ConsumedRecord {
        topic: topic.to_string(),
        partition: 1,
        offset: 5,
        timestamp: Some(NOW - 500),
        timestamp_type: "CreateTime".to_string(),
        leader_epoch: None,
        key: Some(b"k".to_vec()),
        value: Some(value.as_bytes().to_vec()),
        headers: Vec::new(),
    }
}

fn fold(m: &mut Model, metric: &str) {
    fold_with(m, metric, &none());
}

fn fold_with(m: &mut Model, metric: &str, c: &Computed) {
    handle_record(m, &rec("line.metrics", metric), NOW, c);
}

fn rates() -> Vec<Rates> {
    (0..7)
        .map(|_| Rates {
            ten_seconds: Json::Real("1.5".to_string()),
            minute: Json::Real("0.3".to_string()),
        })
        .collect()
}

fn get(m: &Model, target: &str) -> Reply {
    serve(m, true, target, NOW, &rates(), "<p><!--ICONS--></p>", "<svg/>")
}

fn json(m: &Model, target: &str) -> Value {
    let r = get(m, target);
    assert_eq!((r.status, r.content_type.as_str()), (200, "application/json"));
    serde_json::from_slice(&r.body).unwrap()
}

fn station(m: &Model, id: &str) -> Value {
    json(m, "/api/state")["stations"][id].clone()
}

fn last_fault(m: &Model) -> (String, String, String) {
    let v = &json(m, "/api/state")["faults"][0];
    let part = |k: &str| v[k].as_str().unwrap().to_string();
    (part("severity"), part("text"), part("state"))
}

fn fault(severity: &str, text: &str, state: &str) -> (String, String, String) {
    (severity.to_string(), text.to_string(), state.to_string())
}

#[test]
fn a_ring_forgets_and_counts() {
    let mut r = Ring::new();
    r.add_at(NOW - 130_000, 9, NOW - 130_000);
    r.add_at(NOW - 5_000, 2, NOW);
    r.add_at(NOW, 3, NOW);
    assert_eq!(r.count_over(10, NOW), 5);
    assert_eq!(r.count_over(4, NOW), 3);
    assert_eq!(r.count_over(5, NOW), 3);
    assert_eq!(r.count_over(6, NOW), 5);
    assert_eq!(r.count_over(1, NOW), 3);
    assert_eq!(r.count_over(0, NOW), 0);
    assert_eq!(r.count_over(1_000, NOW), 5);
    assert_eq!(r.count_over(10, NOW - 6_000), 0);
    let minutes = r.minutes_at(4, NOW);
    assert_eq!(minutes.len(), 4);
    assert_eq!(minutes.iter().sum::<u64>(), 14);
    // Four hours on the minutes are gone too.
    r.add_at(NOW + 241 * 60_000, 1, NOW + 241 * 60_000);
    assert_eq!(r.per_min.len(), 1);
    assert_eq!(r.per_sec.len(), 1);
    assert!(r.minutes_at(0, NOW).is_empty());
}

#[test]
fn a_steady_rate_is_read_as_such() {
    let mut r = Ring::new();
    for k in 0..=60i64 {
        r.add_at(NOW - k * 1_000, 7, NOW);
    }
    assert_eq!(r.count_over(10, NOW), 70);
    assert_eq!(r.count_over(60, NOW), 420);
}

#[test]
fn a_ring_takes_the_time_from_the_clock() {
    let mut r = Ring::new();
    r.add(0, 5);
    assert_eq!((r.per_min.len(), r.per_sec.len()), (0, 0));
    r.add(fab_line::clock::now_ms(), 5);
    assert_eq!(r.minutes(3).iter().sum::<u64>(), 5);
}

#[test]
fn samples_give_percentiles_of_the_last() {
    let mut s = Samples::new();
    assert_eq!(s.pct(50), None);
    s.push(7);
    assert_eq!((s.pct(0), s.pct(50), s.pct(100)), (Some(7), Some(7), Some(7)));
    for v in 0..300u64 {
        s.push(v);
    }
    // The last two hundred: 100 to 299.
    assert_eq!((s.pct(0), s.pct(50), s.pct(95), s.pct(100)), (Some(100), Some(200), Some(290), Some(299)));
}

#[test]
fn topics_belong_to_stations() {
    let pairs = [
        ("dieattach.readings", "dieattach.dlq", "st02"),
        ("wirebond.raw", "wirebond.dlq", "st03"),
        ("inspect.jobs", "inspect.dlq", "st04"),
        ("mold.telemetry", "mold.dlq", "st05"),
    ];
    for (topic, dlq, id) in pairs {
        assert_eq!(dlq_for(topic), dlq);
        assert_eq!(dlq_station(dlq), Some(id));
    }
    assert_eq!(dlq_for("finaltest.bins"), "dlq");
    assert_eq!(dlq_station("dlq"), None);
    assert_eq!(station_label("st05"), "ST-05 mold & cure");
    assert_eq!(station_label("st06twin"), "ST-06 twin");
    assert_eq!(station_label("sim"), "simulator");
    assert_eq!(station_label("x"), "line");
}

#[test]
fn faults_are_kept_newest_first() {
    let mut m = Model::new(NOW);
    for i in 0..70 {
        push_fault(&mut m, "st03", i, "warn", &format!("fault {i}"), "open");
    }
    assert_eq!(m.faults.len(), 60);
    let v = json(&m, "/api/state");
    assert_eq!(v["faults"][0]["text"], "fault 69");
    assert_eq!(v["faults"][0]["label"], "ST-03 wire bond");
    assert_eq!(v["faults"][59]["text"], "fault 10");
    assert_eq!(v["open_faults"], 60);
    assert_eq!(v["stations"]["st03"]["faults"].as_array().unwrap().len(), 10);
    assert_eq!(v["stations"]["st03"]["faults"][9]["text"], "fault 60");
}

#[test]
fn instances_live_for_thirty_seconds() {
    let mut st = Station::new();
    st.instances.insert("a".to_string(), NOW - 30_000);
    st.instances.insert("b".to_string(), NOW - 30_001);
    st.instances.insert("c".to_string(), NOW + 5);
    assert_eq!(st.live_instances(NOW), 2);
}

#[test]
fn counts_of_a_station_add_up() {
    let mut m = Model::new(NOW - 10_999);
    begin_batch(&mut m);
    fold(&mut m, "{\"station\":\"st02\",\"kind\":\"consumed\",\"ts\":1700000000000,\"n\":10,\"in_spec\":8,\"flags\":2}");
    fold(&mut m, "{\"station\":\"st02\",\"kind\":\"consumed\",\"ts\":1699999999000,\"n\":5,\"in_spec\":5}");
    fold(&mut m, "{\"station\":\"st02\",\"kind\":\"produced\",\"n\":2}");
    fold(&mut m, "{\"station\":\"st02\",\"kind\":\"redelivered\",\"n\":3}");
    fold(&mut m, "{\"station\":\"st02\",\"kind\":\"replayed\",\"n\":4}");
    fold(&mut m, "{\"station\":\"st02\",\"kind\":\"instance\",\"id\":\"st02-1\",\"ts\":1700000000000}");
    fold(&mut m, "{\"station\":\"st02\",\"kind\":\"instance\",\"id\":\"st02-1\",\"ts\":1600000000000}");
    let v = station(&m, "st02");
    assert_eq!((v["consumed"].as_u64(), v["produced"].as_u64()), (Some(15), Some(2)));
    assert_eq!((v["redelivered"].as_u64(), v["replayed"].as_u64()), (Some(3), Some(4)));
    assert_eq!((v["in_spec"].as_u64(), v["flags"].as_u64()), (Some(13), Some(2)));
    assert_eq!((v["instances_ever"].as_u64(), v["live_instances"].as_u64()), (Some(1), Some(0)));
    assert_eq!(v["last_seen"], NOW);
    assert_eq!((v["rate_10s"].as_f64(), v["rate_60s"].as_f64()), (Some(1.5), Some(0.3)));
    assert_eq!(v["per_min"].as_array().unwrap().len(), 240);
    assert_eq!(v["id"], "st02");
    let v = json(&m, "/api/state");
    assert_eq!((v["fold"]["records"].as_u64(), v["fold"]["batches"].as_u64()), (Some(7), Some(1)));
    assert_eq!((v["now"].as_i64(), v["uptime_s"].as_i64()), (Some(NOW), Some(10)));
    assert_eq!(v["stations"]["st04"]["consumed"], 0);
    assert_eq!(v["stations"]["st04"]["latency_p50"], Value::Null);
}

#[test]
fn capabilities_are_smoothed_per_head() {
    let mut m = Model::new(NOW);
    let with = |head: &str, x: &str| {
        let mut c = none();
        c.cpk.put(head, Json::Real(x.to_string()));
        c
    };
    fold_with(&mut m, "{\"station\":\"st02\",\"kind\":\"consumed\",\"n\":1,\"cpk\":{\"H-1\":1.5}}", &with("H-1", "1.5"));
    fold_with(&mut m, "{\"station\":\"st02\",\"kind\":\"consumed\",\"n\":1,\"cpk\":{\"H-2\":2.0,\"H-3\":\"x\"}}", &with("H-2", "2.0"));
    let v = station(&m, "st02");
    assert_eq!((v["cpk"]["H-1"].as_f64(), v["cpk"]["H-2"].as_f64()), (Some(1.5), Some(2.0)));
    assert_eq!(v["cpk"].as_object().unwrap().len(), 2);
}

#[test]
fn inspections_are_folded() {
    let mut m = Model::new(NOW);
    fold(&mut m, "{\"station\":\"st04\",\"kind\":\"consumed\",\"n\":3,\"latency_p95_ms\":400,\"defects\":[\"none\",\"lift\",\"none\",5]}");
    fold(&mut m, "{\"station\":\"st04\",\"kind\":\"consumed\",\"n\":1,\"latency_p95_ms\":200,\"defects\":[\"none\"]}");
    let v = station(&m, "st04");
    assert_eq!((v["defects"]["none"].as_u64(), v["defects"]["lift"].as_u64()), (Some(3), Some(1)));
    assert_eq!((v["latency_p50"].as_u64(), v["latency_p95"].as_u64()), (Some(400), Some(400)));
}

#[test]
fn final_tests_are_folded() {
    let mut m = Model::new(NOW);
    for _ in 0..2 {
        fold(&mut m, "{\"station\":\"st06\",\"kind\":\"consumed\",\"n\":3,\"bins\":{\"1\":2,\"4\":1}}");
        fold(&mut m, "{\"station\":\"st06\",\"kind\":\"txn\",\"ms\":12}");
    }
    fold(&mut m, "{\"station\":\"st06\",\"kind\":\"txn_abort\",\"reason\":\"r\",\"requires_abort\":true,\"fatal\":false}");
    assert_eq!(last_fault(&m), fault("warn", "transaction aborted — r", "replayed from committed offsets"));
    fold(&mut m, "{\"station\":\"st06twin\",\"kind\":\"commit\"}");
    let v = station(&m, "st06");
    assert_eq!((v["bins"]["1"].as_u64(), v["bins"]["4"].as_u64()), (Some(4), Some(2)));
    assert_eq!((v["batches"].as_u64(), v["txns"].as_u64()), (Some(2), Some(2)));
    assert_eq!((v["aborted"].as_u64(), v["requires_abort"].as_u64()), (Some(1), Some(1)));
    assert_eq!(v["fatal"], Value::Null);
    assert_eq!(station(&m, "st06twin")["commits"], 1);
}

#[test]
fn uploads_are_folded() {
    let mut m = Model::new(NOW);
    fold(&mut m, "{\"station\":\"st01\",\"kind\":\"produced\",\"n\":25,\"prober\":\"P-03\"}");
    fold(&mut m, "{\"station\":\"st01\",\"kind\":\"latency\",\"ms\":30,\"errors\":2}");
    fold(&mut m, "{\"station\":\"st01\",\"kind\":\"rejected\",\"n\":1,\"reason\":\"not a lot\",\"prober\":\"P-04\"}");
    assert_eq!(
        last_fault(&m),
        fault("warn", "upload rejected 400 — not a lot · prober P-04", "rejected at the edge")
    );
    fold(&mut m, "{\"station\":\"st01\",\"kind\":\"rejected\"}");
    assert_eq!(last_fault(&m).1, "upload rejected 400 — schema");
    let v = station(&m, "st01");
    assert_eq!((v["lots"].as_u64(), v["wafers"].as_u64()), (Some(1), Some(25)));
    assert_eq!((v["last_prober"].as_str(), v["rejected"].as_u64()), (Some("P-03"), Some(2)));
    assert_eq!((v["record_errors"].as_u64(), v["latency_p95"].as_u64()), (Some(2), Some(30)));
    let v = json(&m, "/validate");
    assert_eq!((v["stations"]["st01"]["produced"].as_u64(), v["stations"]["st01"]["lots"].as_u64()), (Some(25), Some(1)));
    assert_eq!(v["stations"]["st01"]["rejected"], 2);
    fold(&mut m, "{\"station\":\"sim\",\"kind\":\"produced\",\"topic\":\"probe.lots\",\"n\":4}");
    let v = json(&m, "/validate");
    assert_eq!(v["stations"]["st01"]["produced"], 29);
    assert_eq!(v["stations"]["st01"]["produced_by_simulator"], 4);
}

#[test]
fn wire_bond_windows_are_folded() {
    let mut m = Model::new(NOW);
    fold(&mut m, "{\"station\":\"st03\",\"kind\":\"window\",\"bonder\":7,\"n\":12,\"nsop\":false,\"us_w_mean\":1.25,\"power_delta_pct\":-3.5,\"ts\":5}");
    fold(&mut m, "{\"station\":\"st03\",\"kind\":\"window\",\"bonder\":7,\"n\":8,\"nsop\":true,\"ts\":6}");
    let v = station(&m, "st03");
    assert_eq!((v["windows"].as_u64(), v["nsop_windows"].as_u64()), (Some(2), Some(1)));
    assert_eq!(v["window_samples"], 20);
    let b = &v["bonders"]["7"];
    assert_eq!((b["windows"].as_u64(), b["nsop"].as_u64(), b["ts"].as_i64()), (Some(2), Some(1), Some(6)));
    assert_eq!(b["delta"], Value::Null);
    assert_eq!(b["us_w"], Value::Null);
}

#[test]
fn cure_windows_are_folded() {
    let mut m = Model::new(NOW);
    let mut c = none();
    c.conformance = Some(Json::Real("93.8".to_string()));
    c.drifts = vec!["+2.5".to_string(), "+0.0".to_string()];
    let metric = "{\"station\":\"st05\",\"kind\":\"window\",\"ts\":9,\"batch\":64,\"presses\":[\
                  {\"press\":\"M-1\",\"conformance_pct\":93.8,\"alarm\":true,\"worst_zone\":{\"zone\":6,\"drift_c\":2.5}},\
                  {\"press\":\"M-2\",\"hold\":true}]}";
    fold_with(&mut m, metric, &c);
    fold_with(&mut m, metric, &c);
    let v = station(&m, "st05");
    assert_eq!((v["conformance_pct"].as_f64(), v["last_batch"].as_u64()), (Some(93.8), Some(64)));
    assert_eq!(v["presses"]["M-1"]["ts"], 9);
    assert_eq!(v["windows"], 2);
    // What was said just now is not said again.
    let v = json(&m, "/api/state");
    assert_eq!(v["faults"].as_array().unwrap().len(), 2);
    assert_eq!(v["faults"][0]["text"], "humidity / particle hold · press M-2");
    assert_eq!(v["faults"][1]["text"], "zone 6 +2.5 °C against the cure profile · press M-1");
    assert_eq!(v["faults"][1]["state"], "watching");
    // Where no press gives its conformance there is no mean.
    let mut m = Model::new(NOW);
    fold_with(&mut m, "{\"station\":\"st05\",\"kind\":\"window\",\"presses\":[{\"press\":\"M-1\"}]}", &c);
    assert_eq!(station(&m, "st05")["conformance_pct"], Value::Null);
}

#[test]
fn sessions_are_folded() {
    let mut m = Model::new(NOW);
    let mut c = none();
    c.threshold = "12.5".to_string();
    fold_with(&mut m, "{\"station\":\"st03\",\"kind\":\"started\",\"batch_size\":100,\"nsop_threshold_pct\":12.5,\"window_ms\":5000}", &c);
    assert_eq!(
        last_fault(&m),
        fault("info", "service started (BATCH_SIZE 100, NSOP threshold 12.5%)", "resumed from committed offsets")
    );
    fold(&mut m, "{\"station\":\"st03\",\"kind\":\"rebalance\",\"event\":\"revoke\",\"partitions\":[0,2],\"windows_flushed\":3}");
    assert_eq!(last_fault(&m), fault("info", "rebalance revoke partitions [0,2]", "session"));
    fold(&mut m, "{\"station\":\"st03\",\"kind\":\"seek\",\"partition\":2,\"to_offset\":41,\"bonder\":7}");
    assert_eq!(
        last_fault(&m),
        fault("info", "seek partition 2 back to offset 41 — replaying bonder 7", "replay")
    );
    let v = station(&m, "st03");
    assert_eq!((v["starts"].as_u64(), v["batch_size"].as_u64()), (Some(1), Some(100)));
    assert_eq!((v["nsop_threshold_pct"].as_f64(), v["seeks"].as_u64()), (Some(12.5), Some(1)));
    assert_eq!((v["rebalances"].as_u64(), v["windows_flushed_on_rebalance"].as_u64()), (Some(1), Some(3)));
}

#[test]
fn failures_are_told() {
    let mut m = Model::new(NOW);
    fold(&mut m, "{\"station\":\"st02\",\"kind\":\"partial\",\"offset\":41,\"partition\":2,\"reason\":\"bl_um missing\"}");
    assert_eq!(
        last_fault(&m),
        fault(
            "info",
            "partial batch: handled through offset 41 on partition 2, rest redelivered (bl_um missing)",
            "Ok(Some(offset))"
        )
    );
    fold(&mut m, "{\"station\":\"st02\",\"kind\":\"dlq\",\"reason\":\"r\",\"die\":\"D-1\",\"origin\":{\"topic\":\"dieattach.readings\"}}");
    assert_eq!(
        last_fault(&m),
        fault("warn", "→ dieattach.dlq · r · D-1", "Err(Permanent) → dead-lettered")
    );
    fold(&mut m, "{\"station\":\"st04\",\"kind\":\"dlq\"}");
    assert_eq!(last_fault(&m).1, "→ dlq · permanent");
    fold(&mut m, "{\"station\":\"st03\",\"kind\":\"fault\",\"severity\":\"crit\",\"text\":\"NSOP\"}");
    assert_eq!(last_fault(&m), fault("crit", "NSOP", "open"));
    fold(&mut m, "{\"station\":\"st01\",\"kind\":\"fault\",\"reason\":\"send-batch failed\"}");
    assert_eq!(last_fault(&m), fault("warn", "send-batch failed", "open"));
    let v = station(&m, "st02");
    assert_eq!((v["partial"].as_u64(), v["dlq"].as_u64()), (Some(1), Some(0)));
    assert_eq!(json(&m, "/api/state")["open_faults"], 4);
}

#[test]
fn the_simulator_and_the_lag_are_folded() {
    let mut m = Model::new(NOW);
    assert_eq!(json(&m, "/api/state")["sim"]["age_s"], -1);
    assert_eq!(json(&m, "/api/state")["total_lag"], Value::Null);
    fold(&mut m, "{\"station\":\"sim\",\"kind\":\"produced\",\"topic\":\"inspect.jobs\",\"n\":4}");
    fold(&mut m, "{\"station\":\"sim\",\"kind\":\"produced\",\"topic\":\"inspect.jobs\",\"n\":3}");
    fold(&mut m, "{\"station\":\"sim\",\"kind\":\"sim\",\"scenario\":\"baseline\"}");
    fold(&mut m, "{\"station\":\"ops\",\"kind\":\"lag\",\"groups\":{\"a\":3,\"b\":4,\"c\":\"x\"}}");
    let v = json(&m, "/api/state");
    assert_eq!(v["sim"]["produced"]["inspect.jobs"], 7);
    assert_eq!(v["sim"]["heartbeat"]["scenario"], "baseline");
    assert_eq!((v["sim"]["seen"].as_i64(), v["sim"]["age_s"].as_i64()), (Some(NOW - 500), Some(0)));
    assert_eq!((v["total_lag"].as_u64(), v["lag"]["received"].as_i64()), (Some(7), Some(NOW)));
    let v = json(&m, "/validate");
    assert_eq!(v["stations"]["st04"]["produced"], 7);
    assert_eq!(v["stations"]["st04"]["input_topic"], "inspect.jobs");
    assert_eq!(v["stations"]["st06twin"]["input_topic"], "finaltest.bins");
    assert!(m.stations.get(&"sim".to_string()).is_none());
}

#[test]
fn a_dead_letter_is_counted_where_it_belongs() {
    let mut m = Model::new(NOW);
    let mut r = rec("dieattach.dlq", &"x".repeat(400));
    r.key = Some(b"D-\xff".to_vec());
    for (k, v) in [("x-dlq-reason", "bl_um missing"), ("x-origin-topic", "dieattach.readings"), ("x-origin-offset", "7")] {
        r.headers.push(Header { key: k.to_string(), value: Some(v.as_bytes().to_vec()) });
    }
    for _ in 0..7 {
        handle_record(&mut m, &r, NOW, &none());
    }
    assert_eq!(
        last_fault(&m),
        fault(
            "warn",
            "1 record in dieattach.dlq · bl_um missing · x-origin-offset=7 x-origin-topic=dieattach.readings",
            "dead-lettered · partition advanced"
        )
    );
    let v = station(&m, "st02");
    assert_eq!((v["dlq"].as_u64(), v["dead_letters"].as_array().unwrap().len()), (Some(7), 5));
    let d = &v["dead_letters"][0];
    assert_eq!((d["key"].as_str(), d["topic"].as_str()), (Some("D-\u{fffd}"), Some("dieattach.dlq")));
    assert_eq!(d["value"].as_str().unwrap().len(), 300);
    assert_eq!(d["headers"]["x-dlq-reason"], "bl_um missing");
    assert_eq!((d["ts"].as_i64(), d["offset"].as_i64()), (Some(NOW - 500), Some(5)));
    assert_eq!(json(&m, "/validate")["stations"]["st02"]["dlq"], 7);
    handle_record(&mut m, &rec("inspect.dlq", ""), NOW, &none());
    assert_eq!(last_fault(&m).1, "1 record in inspect.dlq · permanent");
}

#[test]
fn duplicate_units_are_found() {
    let mut m = Model::new(NOW);
    let unit = |topic: &str, u: &str, d: &str| {
        rec(topic, &format!("{{\"unit\":\"{u}\",\"disposition\":\"{d}\"}}"))
    };
    for (u, d) in [("U-1", "pass"), ("U-2", "fail"), ("U-1", "pass")] {
        handle_record(&mut m, &unit("lot.disposition", u, d), NOW, &none());
    }
    assert_eq!(last_fault(&m), fault("crit", "1 duplicate unit(s) in lot.disposition", "must read 0"));
    handle_record(&mut m, &rec("lot.disposition", "oops"), NOW, &none());
    let v = json(&m, "/api/state");
    let l = &v["ledger"];
    assert_eq!((l["records"].as_u64(), l["units"].as_u64(), l["duplicates"].as_u64()), (Some(4), Some(2), Some(1)));
    assert_eq!((l["pass"].as_u64(), l["fail"].as_u64()), (Some(2), Some(1)));
    for _ in 0..102 {
        handle_record(&mut m, &unit("lot.disposition.twin", "U-1", "pass"), NOW, &none());
    }
    let v = json(&m, "/validate");
    assert_eq!((v["twin"]["records"].as_u64(), v["twin"]["duplicates"].as_u64()), (Some(102), Some(101)));
    assert_eq!(
        last_fault(&m),
        fault("warn", "100 duplicate unit(s) in lot.disposition.twin (at-least-once replay)", "expected")
    );
}

#[test]
fn the_first_records_of_a_partition_are_sampled() {
    let mut m = Model::new(NOW);
    for _ in 0..5 {
        handle_record(&mut m, &rec("line.metrics", "not json"), NOW, &none());
    }
    let mut r = rec("other", &"y".repeat(130));
    r.partition = 4;
    handle_record(&mut m, &r, NOW, &none());
    let v = json(&m, "/api/debug");
    assert_eq!((v["unparsed"].as_u64(), v["metrics_records"].as_u64()), (Some(5), Some(0)));
    assert_eq!(v["samples"]["line.metrics/1"].as_array().unwrap().len(), 3);
    let s = &v["samples"]["other/4"][0];
    assert_eq!((s["offset"].as_i64(), s["value_len"].as_u64()), (Some(5), Some(130)));
    assert_eq!(s["value_head"].as_str().unwrap().len(), 120);
    assert_eq!((s["ts_type"].as_str(), s["key"].as_str()), (Some("CreateTime"), Some("k")));
}

#[test]
fn values_are_read_as_json() {
    assert!(record_value(&rec("line.metrics", "{\"n\":")).is_none());
    let v = record_value(&rec("line.metrics", "{\"n\":-3,\"x\":1.50,\"l\":[true]}")).unwrap();
    assert_eq!(v.int_field("n"), Some(-3));
    assert!(matches!(v.field("x"), Some(Json::Real(s)) if s == "1.5"));
    let mut r = rec("line.metrics", "");
    r.value = None;
    assert!(record_value(&r).is_none());
}

#[test]
fn pages_are_served() {
    let m = Model::new(NOW);
    for target in ["/", "/index.html", "/?x=1"] {
        let r = get(&m, target);
        assert_eq!((r.status, r.content_type.as_str()), (200, "text/html; charset=utf-8"));
        assert_eq!(r.body, b"<p><svg/></p>".to_vec());
    }
    let r = get(&m, "/healthz");
    assert_eq!((r.status, r.content_type.as_str(), r.body.as_slice()), (200, "text/plain", &b"ok"[..]));
    let r = get(&m, "/icons.svg");
    assert_eq!((r.content_type.as_str(), r.body.as_slice()), ("image/svg+xml", &b"<svg/>"[..]));
    let headers = r.headers();
    assert_eq!(headers[0], ("content-type".to_string(), "image/svg+xml".to_string()));
    assert_eq!(headers[1], ("cache-control".to_string(), "no-store".to_string()));
    assert_eq!(get(&m, "/nothing").status, 404);
    let r = serve(&m, false, "/", NOW, &rates(), "", "");
    assert_eq!(r.status, 404);
    assert_eq!(r.body, b"no such route: /, /api/state, /validate, /healthz".to_vec());
}
