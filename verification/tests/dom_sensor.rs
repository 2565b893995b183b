use std::collections::HashMap;

use xcvrd::db::DbTable;
use xcvrd::dom::db_utils::{DbCache, FlagTables};
use xcvrd::dom::dom_sensor::{DomDbUtils, DomUtils};
use xcvrd::json::{Fields, Nested, Number, Reply, Value};
use xcvrd::mock::MockDbTable;
use xcvrd::mock_hal::{MockHal, MockSfp};
use xcvrd::port::{PortChangeEvent, PortChangeEventType, PortMapping};

fn value_of(v: &serde_json::Value) -> Value {
    match v {
        serde_json::Value::Null => Value::Null,
        serde_json::Value::Bool(b) => Value::Bool(*b),
        serde_json::Value::Number(n) => Value::Number(Number {
            text: n.to_string(),
            zero: n.as_f64() == Some(0.0),
            unsigned: n.as_u64(),
        }),
        serde_json::Value::String(s) => Value::Str(s.clone()),
        serde_json::Value::Array(a) => {
            Value::Nested(Nested { text: v.to_string(), empty: a.is_empty() })
        }
        serde_json::Value::Object(m) => {
            Value::Nested(Nested { text: v.to_string(), empty: m.is_empty() })
        }
    }
}

/// The reply that a JSON text stands for.
fn reply(text: &str) -> Reply {
    let v: serde_json::Value = serde_json::from_str(text).unwrap();
    Reply {
        value: value_of(&v),
        fields: v
            .as_object()
            .map(|m| m.iter().map(|(k, v)| (k.clone(), value_of(v))).collect()),
    }
}

fn mapping_with(ports: &[(&str, usize)]) -> PortMapping {
    let mut m = PortMapping::new();
    for (name, idx) in ports {
        m.handle_port_change_event(&PortChangeEvent::new(
            name.to_string(),
            Some(*idx),
            0,
            PortChangeEventType::PortAdd,
            "CONFIG_DB".to_string(),
            "PORT".to_string(),
        ));
    }
    m
}

fn row_of(t: &MockDbTable, key: &str) -> HashMap<String, String> {
    t.get(key).unwrap().into_iter().collect()
}

fn shown<'a>(row: &'a HashMap<String, String>, field: &str) -> Option<&'a str> {
    row.get(field).map(String::as_str)
}

fn json(text: &str) -> Value {
    reply(text).value
}

fn text(s: &str) -> Value {
    Value::Str(s.to_string())
}

fn field<'a>(f: &'a Fields, name: &str) -> &'a Value {
    &f.iter().find(|(k, _)| k == name).unwrap().1
}

/// Temperature, voltage and the monitors of eight lanes, each with its unit.
fn full_dom_real_value() -> Reply {
    let mut s = r#"{"temperature": "42.5C", "voltage": "3.3Volts""#.to_string();
    for lane in 1..=8 {
        s.push_str(&format!(r#", "tx{lane}power": "-1.5dBm""#));
        s.push_str(&format!(r#", "rx{lane}power": "-2.5dBm""#));
        s.push_str(&format!(r#", "tx{lane}bias": "7.5mA""#));
    }
    s.push('}');
    reply(&s)
}

fn flag_tables() -> FlagTables<MockDbTable> {
    FlagTables {
        value: MockDbTable::new("TRANSCEIVER_DOM_FLAG"),
        change_count: MockDbTable::new("TRANSCEIVER_DOM_FLAG_CHANGE_COUNT"),
        set_time: MockDbTable::new("TRANSCEIVER_DOM_FLAG_SET_TIME"),
        clear_time: MockDbTable::new("TRANSCEIVER_DOM_FLAG_CLEAR_TIME"),
    }
}

#[test]
fn test_beautify_dom_info_dict_strips_units_and_stringifies() {
    let mut m: Fields = vec![
        ("temperature".into(), text("22.75C")),
        ("voltage".into(), text("3.30Volts")),
        ("tx1power".into(), text("-1.20dBm")),
        ("rx8power".into(), text("-2.40dBm")),
        ("tx3bias".into(), text("7.50mA")),
        ("tempHAlarm".into(), json("false")),
        ("rx_los".into(), json("true")),
    ];
    DomDbUtils::beautify_dom_info_dict(&mut m);
    assert_eq!(field(&m, "temperature"), &text("22.75"));
    assert_eq!(field(&m, "voltage"), &text("3.30"));
    assert_eq!(field(&m, "tx1power"), &text("-1.20"));
    assert_eq!(field(&m, "rx8power"), &text("-2.40"));
    assert_eq!(field(&m, "tx3bias"), &text("7.50"));
    assert_eq!(field(&m, "tempHAlarm"), &text("False"));
    assert_eq!(field(&m, "rx_los"), &text("True"));
}

#[test]
fn test_post_port_dom_sensor_info_to_db_full_row() {
    let pm = mapping_with(&[("Ethernet0", 0)]);
    let mut hal =
        MockHal::with_sfps(vec![MockSfp::present().with_dom_real_value(full_dom_real_value())]);
    let mut tbl = MockDbTable::new("TRANSCEIVER_DOM_SENSOR");
    DomDbUtils::new().post_port_dom_sensor_info_to_db(
        "Ethernet0",
        &pm,
        &mut tbl,
        &mut hal,
        &mut DbCache::off(),
    );
    let row = row_of(&tbl, "Ethernet0");
    assert_eq!(shown(&row, "temperature"), Some("42.5"));
    assert_eq!(shown(&row, "voltage"), Some("3.3"));
    for lane in 1..=8 {
        assert_eq!(shown(&row, &format!("tx{lane}power")), Some("-1.5"));
        assert_eq!(shown(&row, &format!("rx{lane}power")), Some("-2.5"));
        assert_eq!(shown(&row, &format!("tx{lane}bias")), Some("7.5"));
    }
    assert!(row.contains_key("last_update_time"));
}

#[test]
fn test_post_port_dom_sensor_absent_posts_nothing() {
    let pm = mapping_with(&[("Ethernet0", 0)]);
    let mut hal = MockHal::with_sfps(vec![MockSfp::absent()]);
    let mut tbl = MockDbTable::new("TRANSCEIVER_DOM_SENSOR");
    DomDbUtils::new().post_port_dom_sensor_info_to_db(
        "Ethernet0",
        &pm,
        &mut tbl,
        &mut hal,
        &mut DbCache::off(),
    );
    assert_eq!(tbl.get("Ethernet0"), None);
}

#[test]
fn test_post_port_dom_thresholds_to_db() {
    let pm = mapping_with(&[("Ethernet0", 0)]);
    let mut hal = MockHal::with_sfps(vec![MockSfp::present().with_threshold_info(reply(
        r#"{"temphighalarm": 75.0, "templowalarm": -5.0, "vcchighalarm": 3.63}"#,
    ))]);
    let mut tbl = MockDbTable::new("TRANSCEIVER_DOM_THRESHOLD");
    DomDbUtils::new().post_port_dom_thresholds_to_db(
        "Ethernet0",
        &pm,
        &mut tbl,
        &mut hal,
        &mut DbCache::off(),
    );
    let row = row_of(&tbl, "Ethernet0");
    assert_eq!(shown(&row, "temphighalarm"), Some("75.0"));
    assert_eq!(shown(&row, "templowalarm"), Some("-5.0"));
    assert_eq!(shown(&row, "vcchighalarm"), Some("3.63"));
    assert!(row.contains_key("last_update_time"));
}

#[test]
fn test_post_port_dom_temperature_info_to_db() {
    let pm = mapping_with(&[("Ethernet0", 0)]);
    let mut hal = MockHal::with_sfps(vec![
        MockSfp::present().with_json("get_temperature", reply("42.5"))
    ]);
    let mut tbl = MockDbTable::new("TRANSCEIVER_DOM_TEMPERATURE");
    DomDbUtils::new().post_port_dom_temperature_info_to_db(
        "Ethernet0",
        &pm,
        &mut tbl,
        &mut hal,
        &mut DbCache::off(),
    );
    let row = row_of(&tbl, "Ethernet0");
    assert_eq!(shown(&row, "temperature"), Some("42.5"));
    assert!(row.contains_key("last_update_time"));
}

#[test]
fn test_post_port_dom_flags_to_db_publishes_value_row() {
    let pm = mapping_with(&[("Ethernet0", 0)]);
    let mut hal = MockHal::with_sfps(vec![MockSfp::present().with_json(
        "get_transceiver_dom_flags",
        reply(r#"{"tempHAlarm": false, "vccHAlarm": true}"#),
    )]);
    let mut t = flag_tables();
    DomDbUtils::new().post_port_dom_flags_to_db(
        "Ethernet0",
        &pm,
        &mut hal,
        &mut t,
        &mut DbCache::off(),
    );
    let row = row_of(&t.value, "Ethernet0");
    assert_eq!(shown(&row, "tempHAlarm"), Some("False"));
    assert_eq!(shown(&row, "vccHAlarm"), Some("True"));
    assert!(row.contains_key("last_update_time"));
}

#[test]
fn test_post_port_dom_flags_to_db_reports_publish() {
    let pm = mapping_with(&[("Ethernet0", 0)]);
    let post = |dom_flags: Reply| {
        let mut hal = MockHal::with_sfps(vec![
            MockSfp::present().with_json("get_transceiver_dom_flags", dom_flags)
        ]);
        let mut t = flag_tables();
        let posted = DomDbUtils::new().post_port_dom_flags_to_db(
            "Ethernet0",
            &pm,
            &mut hal,
            &mut t,
            &mut DbCache::off(),
        );
        (posted, t.value.get("Ethernet0").is_some())
    };
    assert_eq!(
        post(reply(r#"{"tempHAlarm": false}"#)),
        (true, true),
        "a reading with flags is published"
    );
    assert_eq!(post(reply("{}")), (false, false), "a reading without flags is not");
}

#[test]
fn test_post_port_dom_flags_to_db_inits_metadata_first_publish() {
    let pm = mapping_with(&[("Ethernet0", 0)]);
    let mut hal = MockHal::with_sfps(vec![MockSfp::present()
        .with_json("get_transceiver_dom_flags", reply(r#"{"tempHAlarm": false}"#))]);
    let mut t = flag_tables();
    DomDbUtils::new().post_port_dom_flags_to_db(
        "Ethernet0",
        &pm,
        &mut hal,
        &mut t,
        &mut DbCache::off(),
    );
    assert_eq!(t.change_count.hget("Ethernet0", "tempHAlarm"), Some("0".into()));
    assert_eq!(t.set_time.hget("Ethernet0", "tempHAlarm"), Some("never".into()));
    assert_eq!(t.clear_time.hget("Ethernet0", "tempHAlarm"), Some("never".into()));
}

#[test]
fn test_dom_utils_readers_none_on_err() {
    let mut hal = MockHal::with_sfps(vec![MockSfp::present()]);
    let dom = DomUtils::new();
    assert!(dom.get_transceiver_dom_flags(&mut hal, 0).is_none());
    assert!(dom.get_transceiver_dom_temperature(&mut hal, 0).is_none());
}

#[test]
fn test_get_transceiver_dom_flags_is_pure_delegate() {
    let mut hal = MockHal::with_sfps(vec![MockSfp::present().with_json(
        "get_transceiver_dom_flags",
        reply(r#"{"tempHAlarm": false, "vccHAlarm": false, "rx_los": true}"#),
    )]);
    let flags = DomUtils::new().get_transceiver_dom_flags(&mut hal, 0).unwrap();
    let m = flags.fields.unwrap();
    assert_eq!(field(&m, "tempHAlarm"), &json("false"));
    assert_eq!(field(&m, "vccHAlarm"), &json("false"));
    assert_eq!(field(&m, "rx_los"), &json("true"));
    assert_eq!(m.len(), 3, "no flag is added or dropped");
}

#[test]
fn test_post_port_dom_flags_publishes_full_temp_vcc_group() {
    let pm = mapping_with(&[("Ethernet0", 0)]);
    let mut hal = MockHal::with_sfps(vec![MockSfp::present().with_json(
        "get_transceiver_dom_flags",
        reply(r#"{"tempHAlarm": false, "vccHAlarm": false}"#),
    )]);
    let mut t = flag_tables();
    DomDbUtils::new().post_port_dom_flags_to_db(
        "Ethernet0",
        &pm,
        &mut hal,
        &mut t,
        &mut DbCache::off(),
    );
    let row = row_of(&t.value, "Ethernet0");
    assert_eq!(shown(&row, "tempHAlarm"), Some("False"));
    assert_eq!(shown(&row, "vccHAlarm"), Some("False"));
    assert!(row.contains_key("last_update_time"));
}

#[test]
fn breakout_ports_share_one_reading() {
    let pm = mapping_with(&[("Ethernet0", 0), ("Ethernet4", 0)]);
    let mut hal =
        MockHal::with_sfps(vec![MockSfp::present().with_dom_real_value(full_dom_real_value())]);
    let mut tbl = MockDbTable::new("TRANSCEIVER_DOM_SENSOR");
    let mut cache = DbCache::new();
    let dom = DomDbUtils::new();
    dom.post_port_dom_sensor_info_to_db("Ethernet0", &pm, &mut tbl, &mut hal, &mut cache);
    dom.post_port_dom_sensor_info_to_db("Ethernet4", &pm, &mut tbl, &mut hal, &mut cache);
    assert_eq!(tbl.get("Ethernet0"), tbl.get("Ethernet4"));
    let reads =
        hal.call_log(0).into_iter().filter(|m| m == "get_transceiver_dom_real_value").count();
    assert_eq!(reads, 1);
}

#[test]
fn units_are_taken_off_monitors_alone() {
    let mut m: Fields = vec![
        ("temperature".into(), text("10 C")),
        ("vendor".into(), text("ACME C")),
        ("tx9power".into(), text("1dBm")),
        ("voltage".into(), json("3.3")),
    ];
    DomDbUtils::beautify_dom_info_dict(&mut m);
    assert_eq!(field(&m, "vendor"), &text("ACME C"));
    assert_eq!(field(&m, "tx9power"), &text("1dBm"));
    assert_eq!(field(&m, "voltage"), &text("3.3"));
}

#[test]
fn temperature_is_an_object_with_one_member() {
    let dom = DomUtils::new();
    let mut read = |t: &str| {
        let sfp = MockSfp::present().with_json("get_temperature", reply(t));
        dom.get_transceiver_dom_temperature(&mut MockHal::with_sfps(vec![sfp]), 0)
    };
    assert_eq!(read("42.5"), Some(reply(r#"{"temperature": 42.5}"#)));
    assert_eq!(read(r#""N/A""#), Some(reply(r#"{"temperature": "N/A"}"#)));
    assert_eq!(read(r#"{"a": 1}"#), Some(reply(r#"{"temperature": {"a": 1}}"#)));
}
