use std::collections::HashMap;

use xcvrd::clock::format_utc;
use xcvrd::db::{redis_key, DbTable};
use xcvrd::dom::db_utils::{
    get_current_time, is_lane_key, Beautify, DbCache, DbUtils, FlagTables, Reader,
};
use xcvrd::json::{py_truthy, strip_unit, value_to_py_str, Fields, Nested, Number, Reply, Value};
use xcvrd::mock::MockDbTable;
use xcvrd::mock_hal::{MockHal, MockSfp};
use xcvrd::port::{PortChangeEvent, PortChangeEventType, PortMapping};

fn value_of(v: &serde_json::Value) -> Value {
    match v {
        serde_json::Value::Null => Value::Null,
        serde_json::Value::Bool(b) => Value::Bool(*b),
        serde_json::Value::Number(n) => Value::Number(Number {
            text: n.to_string(),
            zero: n.as_f64() == Some(0.0),
            unsigned: n.as_u64(),
        }),
        serde_json::Value::String(s) => Value::Str(s.clone()),
        serde_json::Value::Array(a) => {
            Value::Nested(Nested { text: v.to_string(), empty: a.is_empty() })
        }
        serde_json::Value::Object(m) => {
            Value::Nested(Nested { text: v.to_string(), empty: m.is_empty() })
        }
    }
}

/// The reply that a JSON text stands for.
fn reply(text: &str) -> Reply {
    let v: serde_json::Value = serde_json::from_str(text).unwrap();
    Reply {
        value: value_of(&v),
        fields: v
            .as_object()
            .map(|m| m.iter().map(|(k, v)| (k.clone(), value_of(v))).collect()),
    }
}

fn mapping_with(ports: &[(&str, usize)]) -> PortMapping {
    let mut m = PortMapping::new();
    for (name, idx) in ports {
        m.handle_port_change_event(&PortChangeEvent::new(
            name.to_string(),
            Some(*idx),
            0,
            PortChangeEventType::PortAdd,
            "CONFIG_DB".to_string(),
            "PORT".to_string(),
        ));
    }
    m
}

fn row_of(t: &MockDbTable, key: &str) -> HashMap<String, String> {
    t.get(key).unwrap().into_iter().collect()
}

fn shown<'a>(row: &'a HashMap<String, String>, field: &str) -> Option<&'a str> {
    row.get(field).map(String::as_str)
}

fn json(text: &str) -> Value {
    reply(text).value
}

fn flag_tables() -> FlagTables<MockDbTable> {
    FlagTables {
        value: MockDbTable::new("TRANSCEIVER_DOM_FLAG"),
        change_count: MockDbTable::new("TRANSCEIVER_DOM_FLAG_CHANGE_COUNT"),
        set_time: MockDbTable::new("TRANSCEIVER_DOM_FLAG_SET_TIME"),
        clear_time: MockDbTable::new("TRANSCEIVER_DOM_FLAG_CLEAR_TIME"),
    }
}

fn single(key: &str, v: Value) -> Fields {
    vec![(key.to_string(), v)]
}

fn pair(k: &str, v: &str) -> Vec<(String, String)> {
    vec![(k.to_string(), v.to_string())]
}

#[test]
fn test_value_to_py_str_and_strip_unit() {
    assert_eq!(value_to_py_str(&json("true")), "True");
    assert_eq!(value_to_py_str(&json("false")), "False");
    assert_eq!(value_to_py_str(&Value::Null), "None");
    assert_eq!(value_to_py_str(&json("\"QSFP-DD\"")), "QSFP-DD");
    assert_eq!(value_to_py_str(&json("75.0")), "75.0");
    assert_eq!(strip_unit(&json("\"22.75C\""), "C"), "22.75");
    assert_eq!(strip_unit(&json("\"3.30Volts\""), "Volts"), "3.30");
    assert_eq!(strip_unit(&json("42"), "C"), "42");
}

#[test]
fn test_beautify_info_dict() {
    let mut m: Fields = vec![
        ("a".to_string(), json("5")),
        ("b".to_string(), json("\"already\"")),
        ("c".to_string(), json("true")),
    ];
    DbUtils::new().beautify_info_dict(&mut m);
    assert_eq!(m[0], ("a".to_string(), json("\"5\"")));
    assert_eq!(m[1], ("b".to_string(), json("\"already\"")));
    assert_eq!(m[2], ("c".to_string(), json("\"True\"")));
}

#[test]
fn test_get_current_time_format() {
    assert_eq!(format_utc(0), "Thu Jan 01 00:00:00 1970");
    let s2 = format_utc(1_609_459_200);
    assert_eq!(s2, "Fri Jan 01 00:00:00 2021");
    let mut hal = MockHal::with_sfps(vec![]);
    hal.set_clock(1_785_350_094);
    assert_eq!(DbUtils::new().get_current_time(&mut hal).len(), 24);
}

#[test]
fn test_py_truthy() {
    assert!(!py_truthy(&json("false")));
    assert!(py_truthy(&json("true")));
    assert!(!py_truthy(&Value::Null));
    assert!(!py_truthy(&json("0")));
    assert!(py_truthy(&json("1")));
    assert!(!py_truthy(&json("\"\"")));
    assert!(py_truthy(&json("\"x\"")));
}

#[test]
fn test_update_flag_metadata_tables_first_publish_initializes() {
    let mut t = flag_tables();
    let flags = single("tempHAlarm", json("false"));
    DbUtils::new().update_flag_metadata_tables(
        "Ethernet0",
        &flags,
        "Thu Jan 01 00:00:00 1970",
        &mut t,
    );
    assert_eq!(t.change_count.hget("Ethernet0", "tempHAlarm"), Some("0".into()));
    assert_eq!(t.set_time.hget("Ethernet0", "tempHAlarm"), Some("never".into()));
    assert_eq!(t.clear_time.hget("Ethernet0", "tempHAlarm"), Some("never".into()));
}

#[test]
fn test_update_flag_metadata_tables_transition_and_noop() {
    let mut t = flag_tables();
    t.value.set("Ethernet0", &pair("tempHAlarm", "False"));
    t.change_count.set("Ethernet0", &pair("tempHAlarm", "0"));

    // The flag is set: one change, and the time of setting.
    DbUtils::new().update_flag_metadata_tables(
        "Ethernet0",
        &single("tempHAlarm", json("true")),
        "Thu Jan 01 00:00:05 1970",
        &mut t,
    );
    assert_eq!(t.change_count.hget("Ethernet0", "tempHAlarm"), Some("1".into()));
    assert_eq!(
        t.set_time.hget("Ethernet0", "tempHAlarm"),
        Some("Thu Jan 01 00:00:05 1970".into())
    );
    assert_eq!(t.clear_time.hget("Ethernet0", "tempHAlarm"), None);

    t.value.set("Ethernet0", &pair("tempHAlarm", "True"));

    // The same value again is no change.
    DbUtils::new().update_flag_metadata_tables(
        "Ethernet0",
        &single("tempHAlarm", json("true")),
        "Thu Jan 01 00:00:10 1970",
        &mut t,
    );
    assert_eq!(t.change_count.hget("Ethernet0", "tempHAlarm"), Some("1".into()));
    assert_eq!(
        t.set_time.hget("Ethernet0", "tempHAlarm"),
        Some("Thu Jan 01 00:00:05 1970".into())
    );

    // The flag is cleared: a second change, and the time of clearing.
    DbUtils::new().update_flag_metadata_tables(
        "Ethernet0",
        &single("tempHAlarm", json("false")),
        "Thu Jan 01 00:00:20 1970",
        &mut t,
    );
    assert_eq!(t.change_count.hget("Ethernet0", "tempHAlarm"), Some("2".into()));
    assert_eq!(
        t.clear_time.hget("Ethernet0", "tempHAlarm"),
        Some("Thu Jan 01 00:00:20 1970".into())
    );
}

#[test]
fn test_update_flag_metadata_tables_skips_na() {
    let mut t = flag_tables();
    t.value.set("Ethernet0", &pair("tempHAlarm", "N/A"));
    t.change_count.set("Ethernet0", &pair("tempHAlarm", "0"));

    DbUtils::new().update_flag_metadata_tables(
        "Ethernet0",
        &single("tempHAlarm", json("\"N/A\"")),
        "Thu Jan 01 00:00:05 1970",
        &mut t,
    );
    assert_eq!(t.change_count.hget("Ethernet0", "tempHAlarm"), Some("0".into()));
    assert_eq!(t.set_time.hget("Ethernet0", "tempHAlarm"), None);
}

#[test]
fn test_validate_and_get_physical_port() {
    let pm = mapping_with(&[("Ethernet0", 0)]);
    let mut hal = MockHal::with_sfps(vec![MockSfp::present()]);
    let db = DbUtils::new();
    assert_eq!(db.validate_and_get_physical_port("Ethernet0", &pm, &mut hal, false), Some(0));
    // A stop has been asked for.
    hal.set_stop(true);
    assert_eq!(db.validate_and_get_physical_port("Ethernet0", &pm, &mut hal, false), None);
    hal.set_stop(false);
    // An unknown logical port.
    assert_eq!(db.validate_and_get_physical_port("Ethernet99", &pm, &mut hal, false), None);
    // No module.
    let mut hal_absent = MockHal::with_sfps(vec![MockSfp::absent()]);
    assert_eq!(
        db.validate_and_get_physical_port("Ethernet0", &pm, &mut hal_absent, false),
        None
    );
}

#[test]
fn test_post_diagnostic_values_to_db_stamps_and_beautifies() {
    let pm = mapping_with(&[("Ethernet0", 0)]);
    let mut hal = MockHal::with_sfps(vec![MockSfp::present()
        .with_dom_real_value(reply(r#"{"temperature": 22.5, "voltage": 3.3}"#))]);
    let mut table = MockDbTable::new("TRANSCEIVER_DOM_SENSOR");
    DbUtils::new().post_diagnostic_values_to_db(
        "Ethernet0",
        &pm,
        &mut table,
        &mut hal,
        Reader::Sensor,
        &mut DbCache::off(),
        Beautify::Plain,
        false,
    );
    let row = row_of(&table, "Ethernet0");
    assert_eq!(shown(&row, "temperature"), Some("22.5"));
    assert_eq!(shown(&row, "voltage"), Some("3.3"));
    assert!(row.contains_key("last_update_time"));
}

#[test]
fn test_post_diagnostic_values_to_db_empty_dict_posts_nothing() {
    let pm = mapping_with(&[("Ethernet0", 0)]);
    let mut hal =
        MockHal::with_sfps(vec![MockSfp::present().with_dom_real_value(reply("{}"))]);
    let mut table = MockDbTable::new("TRANSCEIVER_DOM_SENSOR");
    DbUtils::new().post_diagnostic_values_to_db(
        "Ethernet0",
        &pm,
        &mut table,
        &mut hal,
        Reader::Sensor,
        &mut DbCache::off(),
        Beautify::Plain,
        false,
    );
    assert_eq!(table.get("Ethernet0"), None);
}

#[test]
fn test_is_lane_key_shape() {
    assert!(is_lane_key("tx1power", "power"));
    assert!(is_lane_key("rx8power", "power"));
    assert!(is_lane_key("tx4bias", "bias"));
    assert!(!is_lane_key("tx9power", "power")); // there are eight lanes
    assert!(!is_lane_key("tx1powerHAlarm", "power")); // a flag of the lane
    assert!(!is_lane_key("temperature", "power"));
}

#[test]
fn leap_days_and_long_times_are_dated() {
    assert_eq!(format_utc(951_782_400), "Tue Feb 29 00:00:00 2000");
    assert_eq!(format_utc(1_709_251_199), "Thu Feb 29 23:59:59 2024");
    assert_eq!(format_utc(1_709_251_200), "Fri Mar 01 00:00:00 2024");
    assert_eq!(format_utc(4_107_542_400), "Mon Mar 01 00:00:00 2100");
    assert_eq!(format_utc(4_102_444_799), "Thu Dec 31 23:59:59 2099");
}

#[test]
fn stamp_is_the_time_of_the_clock() {
    let mut hal = MockHal::with_sfps(vec![]);
    hal.set_clock(1_609_459_200);
    assert_eq!(get_current_time(&mut hal), "Fri Jan 01 00:00:00 2021");
}

#[test]
fn paged_readings_leave_flat_modules_alone() {
    let pm = mapping_with(&[("Ethernet0", 0)]);
    let mut hal = MockHal::with_sfps(vec![
        MockSfp::present().with_json("is_flat_memory", reply("true"))
    ]);
    let db = DbUtils::new();
    assert_eq!(db.validate_and_get_physical_port("Ethernet0", &pm, &mut hal, true), None);
    assert_eq!(db.validate_and_get_physical_port("Ethernet0", &pm, &mut hal, false), Some(0));
}

#[test]
fn unreadable_count_starts_again() {
    let mut t = flag_tables();
    t.value.set("Ethernet0", &pair("f", "False"));
    t.change_count.set("Ethernet0", &pair("f", "many"));
    DbUtils::new().update_flag_metadata_tables("Ethernet0", &single("f", json("true")), "now", &mut t);
    assert_eq!(t.change_count.hget("Ethernet0", "f"), Some("1".into()));
}

#[test]
fn flag_without_a_published_value_is_no_change() {
    let mut t = flag_tables();
    t.value.set("Ethernet0", &pair("g", "False"));
    t.change_count.set("Ethernet0", &pair("g", "3"));
    DbUtils::new().update_flag_metadata_tables("Ethernet0", &single("f", json("true")), "now", &mut t);
    assert_eq!(t.change_count.hget("Ethernet0", "f"), None);
    assert_eq!(t.change_count.hget("Ethernet0", "g"), Some("3".into()));
}

#[test]
fn rows_of_two_tables_have_different_keys() {
    assert_eq!(redis_key("TRANSCEIVER_INFO", "|", "Ethernet0"), "TRANSCEIVER_INFO|Ethernet0");
    assert_ne!(redis_key("T", "|", "Ethernet0"), redis_key("T", "|", "Ethernet4"));
}

#[test]
fn lists_and_objects_inside_a_reading_are_shown_as_json() {
    assert_eq!(value_to_py_str(&json("[1, 2]")), "[1,2]");
    assert!(!py_truthy(&json("[]")));
    assert!(!py_truthy(&json("{}")));
    assert!(py_truthy(&json("[0]")));
    assert!(!py_truthy(&json("0.0")));
}
