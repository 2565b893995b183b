use std::collections::HashMap;

use xcvrd::db::DbTable;
use xcvrd::dom::db_utils::{DbCache, FlagTables};
use xcvrd::dom::status::{project_config_state_by_datapath, StatusDbUtils, StatusUtils};
use xcvrd::json::{write_object, Fields, Nested, Number, Reply, Value};
use xcvrd::mock::MockDbTable;
use xcvrd::mock_hal::{MockHal, MockSfp};
use xcvrd::port::{PortChangeEvent, PortChangeEventType, PortMapping};

fn value_of(v: &serde_json::Value) -> Value {
    match v {
        serde_json::Value::Null => Value::Null,
        serde_json::Value::Bool(b) => Value::Bool(*b),
        serde_json::Value::Number(n) => Value::Number(Number {
            text: n.to_string(),
            zero: n.as_f64() == Some(0.0),
            unsigned: n.as_u64(),
        }),
        serde_json::Value::String(s) => Value::Str(s.clone()),
        serde_json::Value::Array(a) => {
            Value::Nested(Nested { text: v.to_string(), empty: a.is_empty() })
        }
        serde_json::Value::Object(m) => {
            Value::Nested(Nested { text: v.to_string(), empty: m.is_empty() })
        }
    }
}

/// The reply that a JSON text stands for.
fn reply(text: &str) -> Reply {
    let v: serde_json::Value = serde_json::from_str(text).unwrap();
    Reply {
        value: value_of(&v),
        fields: v
            .as_object()
            .map(|m| m.iter().map(|(k, v)| (k.clone(), value_of(v))).collect()),
    }
}

fn mapping_with(ports: &[(&str, usize)]) -> PortMapping {
    let mut m = PortMapping::new();
    for (name, idx) in ports {
        m.handle_port_change_event(&PortChangeEvent::new(
            name.to_string(),
            Some(*idx),
            0,
            PortChangeEventType::PortAdd,
            "CONFIG_DB".to_string(),
            "PORT".to_string(),
        ));
    }
    m
}

fn row_of(t: &MockDbTable, key: &str) -> HashMap<String, String> {
    t.get(key).unwrap().into_iter().collect()
}

fn shown<'a>(row: &'a HashMap<String, String>, field: &str) -> Option<&'a str> {
    row.get(field).map(String::as_str)
}

fn text_in<'a>(f: &'a Fields, name: &str) -> Option<&'a str> {
    match f.iter().find(|(k, _)| k == name) {
        Some((_, Value::Str(s))) => Some(s.as_str()),
        _ => None,
    }
}

fn status_dict() -> Reply {
    reply(
        r#"{
            "cmis_state": "READY",
            "module_state": "ModuleReady",
            "module_fault_cause": "No Fault detected",
            "DP1State": "DataPathActivated",
            "DP2State": "DataPathActivated",
            "DP3State": "DataPathActivated",
            "DP4State": "DataPathActivated",
            "DP5State": "DataPathActivated",
            "DP6State": "DataPathActivated",
            "DP7State": "DataPathActivated",
            "DP8State": "DataPathActivated"
        }"#,
    )
}

/// The status of a module whose port is down.
fn full_status_row() -> Reply {
    let mut s = r#"{"module_state": "ModuleLowPwr", "module_fault_cause": "No Fault detected", "tx_disabled_channel": 15"#
        .to_string();
    for lane in 1..=8 {
        s.push_str(&format!(r#", "DP{lane}State": "DataPathDeactivated""#));
        s.push_str(&format!(r#", "config_state_hostlane{lane}": "ConfigUndefined""#));
        s.push_str(&format!(r#", "dpinit_pending_hostlane{lane}": false"#));
        s.push_str(&format!(r#", "dpdeinit_hostlane{lane}": true"#));
        s.push_str(&format!(r#", "rx{lane}OutputStatusHostlane": false"#));
        s.push_str(&format!(r#", "tx{lane}OutputStatus": false"#));
        s.push_str(&format!(r#", "tx{lane}disable": true"#));
    }
    s.push('}');
    reply(&s)
}

fn assert_well_formed_last_update_time(s: &str) {
    const WDAY: [&str; 7] = ["Mon", "Tue", "Wed", "Thu", "Fri", "Sat", "Sun"];
    const MON: [&str; 12] = [
        "Jan", "Feb", "Mar", "Apr", "May", "Jun", "Jul", "Aug", "Sep", "Oct", "Nov", "Dec",
    ];
    let tok: Vec<&str> = s.split(' ').collect();
    assert_eq!(tok.len(), 5, "expected 5 space-separated fields in {s:?}");
    assert!(WDAY.contains(&tok[0]), "bad weekday in {s:?}");
    assert!(MON.contains(&tok[1]), "bad month in {s:?}");
    assert_eq!(tok[2].len(), 2, "day not 2 digits in {s:?}");
    assert!(tok[2].bytes().all(|b| b.is_ascii_digit()), "day not numeric in {s:?}");
    let hms: Vec<&str> = tok[3].split(':').collect();
    assert_eq!(hms.len(), 3, "time not HH:MM:SS in {s:?}");
    for part in &hms {
        assert_eq!(part.len(), 2, "time part not 2 digits in {s:?}");
        assert!(part.bytes().all(|b| b.is_ascii_digit()), "time not numeric in {s:?}");
    }
    assert_eq!(tok[4].len(), 4, "year not 4 digits in {s:?}");
    assert!(tok[4].bytes().all(|b| b.is_ascii_digit()), "year not numeric in {s:?}");
}

#[test]
fn test_get_transceiver_status() {
    let status = StatusUtils::new();
    let mut hal = MockHal::with_sfps(vec![MockSfp::present().with_status(status_dict())]);
    let got = status.get_transceiver_status(&mut hal, 0).unwrap().fields.unwrap();
    assert_eq!(text_in(&got, "module_state"), Some("ModuleReady"));
    assert_eq!(text_in(&got, "DP8State"), Some("DataPathActivated"));

    // An empty status is still an answer.
    let mut empty = MockHal::with_sfps(vec![MockSfp::present().with_status(reply("{}"))]);
    assert_eq!(status.get_transceiver_status(&mut empty, 0), Some(reply("{}")));
}

#[test]
fn test_post_port_transceiver_hw_status_to_db() {
    let pm = mapping_with(&[("Ethernet0", 0)]);
    let mut hal = MockHal::with_sfps(vec![MockSfp::present().with_status(status_dict())]);
    let mut tbl = MockDbTable::new("TRANSCEIVER_STATUS");
    let sdb = StatusDbUtils::new();

    // An unknown logical port.
    sdb.post_port_transceiver_hw_status_to_db(
        "Ethernet_missing",
        &pm,
        &mut tbl,
        &mut hal,
        &mut DbCache::off(),
    );
    assert_eq!(tbl.get_size(), 0);

    // A stop has been asked for.
    hal.set_stop(true);
    sdb.post_port_transceiver_hw_status_to_db(
        "Ethernet0",
        &pm,
        &mut tbl,
        &mut hal,
        &mut DbCache::off(),
    );
    assert_eq!(tbl.get_size(), 0);
    hal.set_stop(false);

    // No module.
    let mut absent = MockHal::with_sfps(vec![MockSfp::absent()]);
    sdb.post_port_transceiver_hw_status_to_db(
        "Ethernet0",
        &pm,
        &mut tbl,
        &mut absent,
        &mut DbCache::off(),
    );
    assert_eq!(tbl.get_size(), 0);

    // An empty status.
    let mut empty = MockHal::with_sfps(vec![MockSfp::present().with_status(reply("{}"))]);
    sdb.post_port_transceiver_hw_status_to_db(
        "Ethernet0",
        &pm,
        &mut tbl,
        &mut empty,
        &mut DbCache::off(),
    );
    assert_eq!(tbl.get_size(), 0);

    // A status: its 11 fields and the time; the reading is kept for the slot.
    let mut db_cache = DbCache::new();
    sdb.post_port_transceiver_hw_status_to_db(
        "Ethernet0",
        &pm,
        &mut tbl,
        &mut hal,
        &mut db_cache,
    );
    assert_eq!(tbl.get_size_for_key("Ethernet0"), 12);
    assert!(db_cache.lookup(0).is_some());

    let row = row_of(&tbl, "Ethernet0");
    assert_eq!(shown(&row, "module_state"), Some("ModuleReady"));
    assert_eq!(shown(&row, "module_fault_cause"), Some("No Fault detected"));
    assert_eq!(shown(&row, "DP1State"), Some("DataPathActivated"));
    assert_eq!(shown(&row, "DP8State"), Some("DataPathActivated"));
    assert!(row.contains_key("last_update_time"));

    // What was kept is published, whatever the module would answer now.
    let mut tbl2 = MockDbTable::new("TRANSCEIVER_STATUS");
    sdb.post_port_transceiver_hw_status_to_db(
        "Ethernet0",
        &pm,
        &mut tbl2,
        &mut empty,
        &mut db_cache,
    );
    assert_eq!(tbl2.get_size_for_key("Ethernet0"), 12);
}

#[test]
fn test_post_port_transceiver_hw_status_publishes_rich_row() {
    let pm = mapping_with(&[("Ethernet0", 0)]);
    let mut hal = MockHal::with_sfps(vec![MockSfp::present().with_status(full_status_row())]);
    let mut tbl = MockDbTable::new("TRANSCEIVER_STATUS");
    StatusDbUtils::new().post_port_transceiver_hw_status_to_db(
        "Ethernet0",
        &pm,
        &mut tbl,
        &mut hal,
        &mut DbCache::off(),
    );
    let row = row_of(&tbl, "Ethernet0");

    assert_eq!(shown(&row, "module_state"), Some("ModuleLowPwr"));
    assert!(row.contains_key("module_fault_cause"));
    assert_eq!(shown(&row, "tx_disabled_channel"), Some("15"));

    for lane in 1..=8 {
        assert_eq!(shown(&row, &format!("DP{lane}State")), Some("DataPathDeactivated"));
        assert!(row.contains_key(&format!("config_state_hostlane{lane}")));
        assert_eq!(shown(&row, &format!("dpinit_pending_hostlane{lane}")), Some("False"));
        assert_eq!(shown(&row, &format!("dpdeinit_hostlane{lane}")), Some("True"));
        assert_eq!(shown(&row, &format!("rx{lane}OutputStatusHostlane")), Some("False"));
        assert_eq!(shown(&row, &format!("tx{lane}OutputStatus")), Some("False"));
        assert_eq!(shown(&row, &format!("tx{lane}disable")), Some("True"));
    }
}

#[test]
fn test_status_last_update_time_well_formed() {
    let pm = mapping_with(&[("Ethernet0", 0)]);
    let mut hal = MockHal::with_sfps(vec![MockSfp::present().with_status(status_dict())]);
    hal.set_clock(1_785_350_094);
    let mut tbl = MockDbTable::new("TRANSCEIVER_STATUS");
    StatusDbUtils::new().post_port_transceiver_hw_status_to_db(
        "Ethernet0",
        &pm,
        &mut tbl,
        &mut hal,
        &mut DbCache::off(),
    );
    let lut = tbl.hget("Ethernet0", "last_update_time").expect("last_update_time posted");
    assert_well_formed_last_update_time(&lut);
}

/// Four active lanes and four inactive ones, all with a successful configuration.
fn sticky_config_success_row() -> Reply {
    let mut s = r#"{"module_state": "ModuleReady""#.to_string();
    for lane in 1..=8 {
        let active = lane <= 4;
        s.push_str(&format!(
            r#", "DP{lane}State": "{}""#,
            if active { "DataPathActivated" } else { "DataPathDeactivated" }
        ));
        s.push_str(&format!(r#", "config_state_hostlane{lane}": "ConfigSuccess""#));
    }
    s.push('}');
    reply(&s)
}

#[test]
fn config_state_gated_on_datapath_masks_inactive_lanes() {
    let mut m = sticky_config_success_row().fields.unwrap();
    project_config_state_by_datapath(&mut m);
    for lane in 1..=4 {
        assert_eq!(
            text_in(&m, &format!("config_state_hostlane{lane}")),
            Some("ConfigSuccess"),
            "active lane {lane} must keep ConfigSuccess"
        );
    }
    for lane in 5..=8 {
        assert_eq!(
            text_in(&m, &format!("config_state_hostlane{lane}")),
            Some("ConfigUndefined"),
            "deactivated lane {lane} must be masked to ConfigUndefined"
        );
    }
}

#[test]
fn config_state_all_deactivated_masks_all_lanes() {
    let mut s = r#"{"module_state": "ModuleLowPwr""#.to_string();
    for lane in 1..=8 {
        s.push_str(&format!(r#", "DP{lane}State": "DataPathDeactivated""#));
        s.push_str(&format!(r#", "config_state_hostlane{lane}": "ConfigSuccess""#));
    }
    s.push('}');
    let mut m = reply(&s).fields.unwrap();
    project_config_state_by_datapath(&mut m);
    assert_eq!(text_in(&m, "module_state"), Some("ModuleLowPwr"));
    for lane in 1..=8 {
        assert_eq!(
            text_in(&m, &format!("config_state_hostlane{lane}")),
            Some("ConfigUndefined")
        );
    }
}

#[test]
fn config_state_untouched_when_datapath_absent_or_transitioning() {
    let mut m = reply(
        r#"{
            "config_state_hostlane1": "ConfigSuccess",
            "DP2State": "DataPathInitialized",
            "config_state_hostlane2": "ConfigSuccess"
        }"#,
    )
    .fields
    .unwrap();
    project_config_state_by_datapath(&mut m);
    // No data path state.
    assert_eq!(text_in(&m, "config_state_hostlane1"), Some("ConfigSuccess"));
    // A data path that is coming up.
    assert_eq!(text_in(&m, "config_state_hostlane2"), Some("ConfigSuccess"));
}

#[test]
fn post_status_masks_sticky_config_success_on_deactivated_lanes() {
    let pm = mapping_with(&[("Ethernet0", 0)]);
    let mut hal =
        MockHal::with_sfps(vec![MockSfp::present().with_status(sticky_config_success_row())]);
    let mut tbl = MockDbTable::new("TRANSCEIVER_STATUS");
    StatusDbUtils::new().post_port_transceiver_hw_status_to_db(
        "Ethernet0",
        &pm,
        &mut tbl,
        &mut hal,
        &mut DbCache::off(),
    );
    let row = row_of(&tbl, "Ethernet0");
    for lane in 1..=4 {
        assert_eq!(
            shown(&row, &format!("config_state_hostlane{lane}")),
            Some("ConfigSuccess")
        );
    }
    for lane in 5..=8 {
        assert_eq!(
            shown(&row, &format!("config_state_hostlane{lane}")),
            Some("ConfigUndefined")
        );
    }
}

fn status_flags_dict() -> Reply {
    reply(
        r#"{
            "datapath_firmware_fault": "False",
            "module_firmware_fault": "False",
            "module_state_changed": "False",
            "tx1fault": "N/A",
            "tx2fault": "N/A",
            "tx3fault": "N/A",
            "tx4fault": "N/A",
            "tx5fault": "N/A",
            "tx6fault": "N/A",
            "tx7fault": "N/A",
            "tx8fault": "N/A"
        }"#,
    )
}

fn flag_tables() -> FlagTables<MockDbTable> {
    FlagTables {
        value: MockDbTable::new("TRANSCEIVER_STATUS_FLAG"),
        change_count: MockDbTable::new("TRANSCEIVER_STATUS_FLAG_CHANGE_COUNT"),
        set_time: MockDbTable::new("TRANSCEIVER_STATUS_FLAG_SET_TIME"),
        clear_time: MockDbTable::new("TRANSCEIVER_STATUS_FLAG_CLEAR_TIME"),
    }
}

#[test]
fn test_get_transceiver_status_flags() {
    let status = StatusUtils::new();
    let mut hal = MockHal::with_sfps(vec![
        MockSfp::present().with_json("get_transceiver_status_flags", status_flags_dict())
    ]);
    let got = status.get_transceiver_status_flags(&mut hal, 0).unwrap().fields.unwrap();
    assert_eq!(text_in(&got, "module_firmware_fault"), Some("False"));
    assert_eq!(text_in(&got, "tx8fault"), Some("N/A"));
    // A module without status flags.
    let mut bare = MockHal::with_sfps(vec![MockSfp::present()]);
    assert_eq!(status.get_transceiver_status_flags(&mut bare, 0), None);
}

#[test]
fn test_post_port_transceiver_hw_status_flags_to_db() {
    let pm = mapping_with(&[("Ethernet0", 0)]);
    let module = MockSfp::present().with_json("get_transceiver_status_flags", status_flags_dict());
    let mut hal = MockHal::with_sfps(vec![module]);
    let sdb = StatusDbUtils::new();
    let mut t = flag_tables();

    // An unknown logical port.
    sdb.post_port_transceiver_hw_status_flags_to_db(
        "Ethernet_missing",
        &pm,
        &mut t,
        &mut hal,
        &mut DbCache::off(),
    );
    assert_eq!(t.value.get_size(), 0);

    // A stop has been asked for.
    hal.set_stop(true);
    sdb.post_port_transceiver_hw_status_flags_to_db(
        "Ethernet0",
        &pm,
        &mut t,
        &mut hal,
        &mut DbCache::off(),
    );
    assert_eq!(t.value.get_size(), 0);
    hal.set_stop(false);

    // No module.
    let mut absent = MockHal::with_sfps(vec![MockSfp::absent()]);
    sdb.post_port_transceiver_hw_status_flags_to_db(
        "Ethernet0",
        &pm,
        &mut t,
        &mut absent,
        &mut DbCache::off(),
    );
    assert_eq!(t.value.get_size(), 0);

    // A module without status flags.
    let mut no_flags = MockHal::with_sfps(vec![MockSfp::present()]);
    sdb.post_port_transceiver_hw_status_flags_to_db(
        "Ethernet0",
        &pm,
        &mut t,
        &mut no_flags,
        &mut DbCache::off(),
    );
    assert_eq!(t.value.get_size(), 0);

    // Eleven flags and the time; the changes are tracked from here on.
    let mut db_cache = DbCache::new();
    sdb.post_port_transceiver_hw_status_flags_to_db(
        "Ethernet0",
        &pm,
        &mut t,
        &mut hal,
        &mut db_cache,
    );
    assert_eq!(t.value.get_size_for_key("Ethernet0"), 12);
    assert!(db_cache.lookup(0).is_some());
    assert_eq!(t.value.hget("Ethernet0", "tx1fault").as_deref(), Some("N/A"));
    assert_eq!(t.value.hget("Ethernet0", "module_firmware_fault").as_deref(), Some("False"));
    assert!(t.change_count.get_size() >= 1, "the changes are not tracked");

    // What was kept is published again, and is no change.
    let mut t2 = flag_tables();
    sdb.post_port_transceiver_hw_status_flags_to_db(
        "Ethernet0",
        &pm,
        &mut t2,
        &mut no_flags,
        &mut db_cache,
    );
    assert_eq!(t2.value.get_size_for_key("Ethernet0"), 12);
    assert_eq!(t2.change_count.get_size(), 0, "a kept reading is tracked");
}

#[test]
fn masking_twice_is_masking_once() {
    let mut once = sticky_config_success_row().fields.unwrap();
    project_config_state_by_datapath(&mut once);
    let mut twice = sticky_config_success_row().fields.unwrap();
    project_config_state_by_datapath(&mut twice);
    project_config_state_by_datapath(&mut twice);
    assert_eq!(once, twice);
}

#[test]
fn masked_status_is_one_object() {
    let raw = r#"{"DP1State": "DataPathDeactivated", "config_state_hostlane1": "ConfigSuccess",
        "note": "a \"b\" \\ \t \u0001 é", "n": 1.5, "ok": true, "none": null, "list": [1, "x"]}"#;
    let masked = raw.replace("ConfigSuccess", "ConfigUndefined");
    let status = StatusUtils::new();
    let mut hal = MockHal::with_sfps(vec![MockSfp::present().with_status(reply(raw))]);
    assert_eq!(status.get_transceiver_status(&mut hal, 0), Some(reply(&masked)));

    // With its data path up, and where it is no object, it stays as it is.
    let up = raw.replace("DataPathDeactivated", "DataPathActivated");
    let mut hal = MockHal::with_sfps(vec![MockSfp::present().with_status(reply(&up))]);
    assert_eq!(status.get_transceiver_status(&mut hal, 0), Some(reply(&up)));
    let mut hal = MockHal::with_sfps(vec![MockSfp::present().with_status(reply("[1]"))]);
    assert_eq!(status.get_transceiver_status(&mut hal, 0), Some(reply("[1]")));
}

#[test]
fn object_is_written_with_its_members_in_order() {
    assert_eq!(write_object(&vec![]), "{}");
    let member = |k: &str, v: &str| (k.to_string(), v.to_string());
    assert_eq!(
        write_object(&vec![member("\"b\"", "1"), member("\"a\"", "\"x\""), member("\"c\"", "[]")]),
        r#"{"b":1,"a":"x","c":[]}"#
    );
}
