use xcvrd::bridge::ChangeEvent;
use xcvrd::db::DbTable;
use xcvrd::error::XcvrdError;
use xcvrd::hal::{Hal, SfpHandle};
use xcvrd::json::{Nested, Number, Reply, Value};
use xcvrd::mock::MockDbTable;
use xcvrd::mock_hal::{MockHal, MockSfp};

fn value_of(v: &serde_json::Value) -> Value {
    match v {
        serde_json::Value::Null => Value::Null,
        serde_json::Value::Bool(b) => Value::Bool(*b),
        serde_json::Value::Number(n) => Value::Number(Number {
            text: n.to_string(),
            zero: n.as_f64() == Some(0.0),
            unsigned: n.as_u64(),
        }),
        serde_json::Value::String(s) => Value::Str(s.clone()),
        serde_json::Value::Array(a) => {
            Value::Nested(Nested { text: v.to_string(), empty: a.is_empty() })
        }
        serde_json::Value::Object(m) => {
            Value::Nested(Nested { text: v.to_string(), empty: m.is_empty() })
        }
    }
}

/// The reply that a JSON text stands for.
fn reply(text: &str) -> Reply {
    let v: serde_json::Value = serde_json::from_str(text).unwrap();
    Reply {
        value: value_of(&v),
        fields: v
            .as_object()
            .map(|m| m.iter().map(|(k, v)| (k.clone(), value_of(v))).collect()),
    }
}

fn text_field(r: &Option<Reply>, name: &str) -> Option<String> {
    let fields = r.as_ref()?.fields.as_ref()?;
    match fields.iter().find(|(k, _)| k == name) {
        Some((_, Value::Str(s))) => Some(s.clone()),
        _ => None,
    }
}

#[test]
fn mock_db_table_set_get_and_field_count() {
    let mut tbl = MockDbTable::new("TRANSCEIVER_DOM_SENSOR");
    let fvs = vec![
        ("temperature".to_string(), "22.75".to_string()),
        ("voltage".to_string(), "3.30".to_string()),
        ("last_update_time".to_string(), "Thu Jan 01 00:00:00 1970".to_string()),
    ];
    tbl.set("Ethernet0", &fvs);

    assert_eq!(tbl.get_size(), 1);
    assert_eq!(tbl.get_size_for_key("Ethernet0"), 3);
    assert_eq!(tbl.hget("Ethernet0", "temperature").as_deref(), Some("22.75"));
    assert_eq!(tbl.get_keys(), vec!["Ethernet0".to_string()]);
    assert!(tbl.get("Ethernet0").is_some());
}

#[test]
fn mock_db_table_del_and_hdel() {
    let mut tbl = MockDbTable::new("TRANSCEIVER_INFO");
    tbl.set(
        "Ethernet0",
        &vec![
            ("type".to_string(), "QSFP-DD".to_string()),
            ("vendor_rev".to_string(), "A1".to_string()),
        ],
    );
    tbl.hdel("Ethernet0", "vendor_rev");
    assert_eq!(tbl.get_size_for_key("Ethernet0"), 1);
    tbl.del("Ethernet0");
    assert_eq!(tbl.get_size(), 0);
    assert!(tbl.get("Ethernet0").is_none());
}

#[test]
fn mock_sfp_and_hal_return_canned_values() {
    let sfp = MockSfp::present()
        .with_info(reply(r#"{"type": "QSFP-DD", "vendor_rev": "A1"}"#))
        .with_json("get_temperature", reply(r#"{"temperature": "22.75"}"#));
    let hal = MockHal::with_sfps(vec![sfp]);

    assert_eq!(hal.num_sfps(), 1);
    let handle = hal.sfp(0).unwrap();
    assert!(handle.get_presence());
    assert_eq!(
        text_field(&handle.json("get_transceiver_info"), "type").as_deref(),
        Some("QSFP-DD")
    );
    assert_eq!(
        text_field(&handle.json("get_temperature"), "temperature").as_deref(),
        Some("22.75")
    );
    assert!(hal.sfp(9).is_err());
}

#[test]
fn table_replaces_a_row_and_keeps_the_others() {
    let mut tbl = MockDbTable::new("T");
    assert_eq!(tbl.table_name(), "T");
    tbl.hset("Ethernet0", "a", "1");
    tbl.hset("Ethernet4", "a", "2");
    tbl.hset("Ethernet0", "b", "3");
    assert_eq!(tbl.get_size_for_key("Ethernet0"), 2);
    tbl.set("Ethernet0", &vec![("c".to_string(), "4".to_string())]);
    assert_eq!(tbl.hget("Ethernet0", "a"), None);
    assert_eq!(tbl.hget("Ethernet0", "c").as_deref(), Some("4"));
    assert_eq!(tbl.hget("Ethernet4", "a").as_deref(), Some("2"));
}

#[test]
fn field_counts_can_be_made_unreadable() {
    let mut tbl = MockDbTable::new("T");
    tbl.hset("Ethernet0", "a", "1");
    assert_eq!(tbl.get_size_for_key_checked("Ethernet0"), Some(1));
    assert_eq!(tbl.get_size_for_key_checked("Ethernet4"), Some(0));
    tbl.set_fail_size_reads(true);
    assert_eq!(tbl.get_size_for_key_checked("Ethernet0"), None);
    tbl.set_fail_size_reads(false);
    assert_eq!(tbl.get_size_for_key_checked("Ethernet0"), Some(1));
}

#[test]
fn empty_slot_answers_nothing_of_interest() {
    let sfp = MockSfp::absent();
    assert!(!sfp.get_presence());
    assert!(!sfp.is_replaceable());
    assert!(!sfp.get_reset_status());
    assert_eq!(sfp.sfp_type(), "");
    assert_eq!(sfp.get_error_description(), None);
    assert_eq!(sfp.json("get_temperature"), None);
}

#[test]
fn memory_is_read_where_every_byte_is_there() {
    let mut sfp = MockSfp::present().with_eeprom(10, 1).with_eeprom(11, 2);
    assert_eq!(sfp.read_eeprom(10, 2), Some(vec![1, 2]));
    assert_eq!(sfp.read_eeprom(10, 3), None);
    assert!(sfp.write_eeprom(10, &vec![7]));
    assert_eq!(sfp.eeprom_writes(), vec![(10, vec![7])]);
}

#[test]
fn change_events_come_in_order_after_failed_polls() {
    let mut hal = MockHal::with_sfps(vec![]);
    hal.fail_next_polls(1);
    hal.push_change_event(ChangeEvent {
        status: true,
        sfp: vec![("1".to_string(), "1".to_string())],
        sfp_error: vec![],
    });
    assert!(matches!(hal.get_change_event(0), Err(XcvrdError::Bridge(_))));
    let e = hal.get_change_event(0).unwrap();
    assert!(e.status);
    assert_eq!(e.sfp, vec![("1".to_string(), "1".to_string())]);
    let idle = hal.get_change_event(0).unwrap();
    assert!(idle.sfp.is_empty() && idle.sfp_error.is_empty());
}

#[test]
fn time_of_the_stand_in_is_the_time_slept() {
    let mut hal = MockHal::with_sfps(vec![]);
    assert_eq!(hal.uptime(), 0);
    hal.sleep(1500);
    hal.sleep(20);
    assert_eq!(hal.uptime(), 1520);
    assert!(!hal.stop_requested());
    hal.set_stop(true);
    assert!(hal.stop_requested());
}

#[test]
fn unreadable_low_power_mode_is_no_answer() {
    let mut hal = MockHal::with_sfps(vec![
        MockSfp::present().with_lpmode(true),
        MockSfp::present().with_lpmode(true).with_lpmode_err(true),
    ]);
    assert_eq!(hal.get_lpmode(0), Some(true));
    assert_eq!(hal.get_lpmode(1), None);
}

#[test]
fn presence_reads_are_counted_by_slot() {
    let mut hal = MockHal::with_sfps(vec![MockSfp::present(), MockSfp::absent()]);
    assert_eq!(hal.get_presence(0), Some(true));
    assert_eq!(hal.get_presence(1), Some(false));
    assert_eq!(hal.get_presence(0), Some(true));
    assert_eq!(hal.presence_calls(0), 2);
    assert_eq!(hal.presence_calls(1), 1);
    assert_eq!(hal.presence_calls(2), 0);
}

#[test]
fn idle_poll_has_the_status_that_was_set() {
    let mut hal = MockHal::with_sfps(vec![]);
    hal.set_idle_poll_ready(false);
    assert!(!hal.get_change_event(0).unwrap().status);
    hal.set_idle_poll_ready(true);
    assert!(hal.get_change_event(0).unwrap().status);
}

fn field(name: &str, value: &str) -> Vec<(String, String)> {
    vec![(name.to_string(), value.to_string())]
}

#[test]
fn keys_come_in_the_order_of_their_first_writing() {
    let mut tbl = MockDbTable::new("T");
    tbl.set("Ethernet8", &field("a", "1"));
    tbl.hset("Ethernet0", "a", "1");
    tbl.set("Ethernet4", &field("a", "1"));
    // A row that is written again keeps its place.
    tbl.set("Ethernet8", &field("b", "2"));
    tbl.hset("Ethernet0", "b", "2");
    assert_eq!(tbl.get_keys(), vec!["Ethernet8", "Ethernet0", "Ethernet4"]);
    // Losing one field of two, or one that is not there, changes nothing.
    tbl.hdel("Ethernet0", "a");
    tbl.hdel("Ethernet4", "z");
    tbl.del("Ethernet12");
    assert_eq!(tbl.get_keys(), vec!["Ethernet8", "Ethernet0", "Ethernet4"]);
    // A row that has lost its last field is gone, as a deleted one is.
    tbl.hdel("Ethernet0", "b");
    assert_eq!(tbl.get_keys(), vec!["Ethernet8", "Ethernet4"]);
    tbl.del("Ethernet8");
    tbl.hset("Ethernet8", "a", "1");
    assert_eq!(tbl.get_keys(), vec!["Ethernet4", "Ethernet8"]);
    assert_eq!(tbl.get_size(), tbl.get_keys().len());
    assert_eq!(tbl.table_name(), "T");
}
