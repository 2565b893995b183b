use std::collections::HashMap;

use xcvrd::db::DbTable;
use xcvrd::dom::vdm::{VdmDbUtils, VdmThresholdCache, VdmUtils};
use xcvrd::hal::Hal;
use xcvrd::json::{Nested, Number, Reply, Value};
use xcvrd::mock::MockDbTable;
use xcvrd::mock_hal::{MockHal, MockSfp};
use xcvrd::port::{PortChangeEvent, PortChangeEventType, PortMapping};
use xcvrd::tables::XcvrTableHelper;

fn value_of(v: &serde_json::Value) -> Value {
    match v {
        serde_json::Value::Null => Value::Null,
        serde_json::Value::Bool(b) => Value::Bool(*b),
        serde_json::Value::Number(n) => Value::Number(Number {
            text: n.to_string(),
            zero: n.as_f64() == Some(0.0),
            unsigned: n.as_u64(),
        }),
        serde_json::Value::String(s) => Value::Str(s.clone()),
        serde_json::Value::Array(a) => {
            Value::Nested(Nested { text: v.to_string(), empty: a.is_empty() })
        }
        serde_json::Value::Object(m) => {
            Value::Nested(Nested { text: v.to_string(), empty: m.is_empty() })
        }
    }
}

/// The reply that a JSON text stands for.
fn reply(text: &str) -> Reply {
    let v: serde_json::Value = serde_json::from_str(text).unwrap();
    Reply {
        value: value_of(&v),
        fields: v
            .as_object()
            .map(|m| m.iter().map(|(k, v)| (k.clone(), value_of(v))).collect()),
    }
}

fn mapping_with(ports: &[(&str, usize)]) -> PortMapping {
    let mut m = PortMapping::new();
    for (name, idx) in ports {
        m.handle_port_change_event(&PortChangeEvent::new(
            name.to_string(),
            Some(*idx),
            0,
            PortChangeEventType::PortAdd,
            "CONFIG_DB".to_string(),
            "PORT".to_string(),
        ));
    }
    m
}

fn row_of(t: &MockDbTable, key: &str) -> HashMap<String, String> {
    t.get(key).unwrap().into_iter().collect()
}

fn shown<'a>(row: &'a HashMap<String, String>, field: &str) -> Option<&'a str> {
    row.get(field).map(String::as_str)
}

/// Timing that makes a module that never confirms give up early.
fn fast_vdm() -> VdmUtils {
    VdmUtils::with_timing(0, 5, 1)
}

fn bare() -> MockHal {
    MockHal::with_sfps(vec![MockSfp::present()])
}

fn answering(method: &str, text: &str) -> MockHal {
    MockHal::with_sfps(vec![MockSfp::present().with_json(method, reply(text))])
}

#[test]
fn test_is_transceiver_vdm_supported() {
    let v = VdmUtils::new();
    assert!(v.is_transceiver_vdm_supported(&mut answering("is_transceiver_vdm_supported", "true"), 0));
    assert!(!v.is_transceiver_vdm_supported(&mut answering("is_transceiver_vdm_supported", "false"), 0));
    assert!(!v.is_transceiver_vdm_supported(&mut bare(), 0));
}

#[test]
fn test_is_vdm_statistic_supported() {
    let v = VdmUtils::new();
    assert!(v.is_vdm_statistic_supported(&mut answering("is_vdm_statistic_supported", "true"), 0));
    assert!(!v.is_vdm_statistic_supported(&mut answering("is_vdm_statistic_supported", "false"), 0));
    assert!(!v.is_vdm_statistic_supported(&mut bare(), 0));
}

#[test]
fn test_get_vdm_real_values_basic() {
    let v = VdmUtils::new();
    let name = "get_transceiver_vdm_real_value_basic";
    assert_eq!(
        v.get_vdm_real_values_basic(&mut answering(name, r#"{"basic_key": "basic_value"}"#), 0),
        Some(reply(r#"{"basic_key": "basic_value"}"#))
    );
    assert_eq!(v.get_vdm_real_values_basic(&mut answering(name, "{}"), 0), Some(reply("{}")));
    assert_eq!(v.get_vdm_real_values_basic(&mut bare(), 0), None);
}

#[test]
fn test_get_vdm_real_values_statistic() {
    let v = VdmUtils::new();
    let name = "get_transceiver_vdm_real_value_statistic";
    assert_eq!(
        v.get_vdm_real_values_statistic(&mut answering(name, r#"{"stat_key": "stat_value"}"#), 0),
        Some(reply(r#"{"stat_key": "stat_value"}"#))
    );
    assert_eq!(v.get_vdm_real_values_statistic(&mut bare(), 0), None);
}

#[test]
fn test_get_vdm_flags() {
    let v = VdmUtils::new();
    let name = "get_transceiver_vdm_flags";
    assert_eq!(v.get_vdm_flags(&mut answering(name, "true"), 0), Some(reply("true")));
    assert_eq!(v.get_vdm_flags(&mut answering(name, "{}"), 0), Some(reply("{}")));
    assert_eq!(v.get_vdm_flags(&mut bare(), 0), None);
}

#[test]
fn test_get_vdm_thresholds() {
    let v = VdmUtils::new();
    let name = "get_transceiver_vdm_thresholds";
    assert_eq!(v.get_vdm_thresholds(&mut answering(name, "true"), 0), Some(reply("true")));
    assert_eq!(v.get_vdm_thresholds(&mut answering(name, "{}"), 0), Some(reply("{}")));
    assert_eq!(v.get_vdm_thresholds(&mut bare(), 0), None);
}

#[test]
fn test_vdm_action_and_confirm() {
    let v = fast_vdm();
    let act = "freeze_vdm_stats";
    let status = "get_vdm_freeze_status";
    // Done and confirmed.
    let mut ok = MockHal::with_sfps(vec![MockSfp::present()
        .with_json(act, reply("true"))
        .with_json(status, reply("true"))]);
    assert!(v.vdm_action_and_confirm(&mut ok, 0, act, status));

    // Done, but never confirmed.
    let mut never = MockHal::with_sfps(vec![MockSfp::present()
        .with_json(act, reply("true"))
        .with_json(status, reply("false"))]);
    assert!(!v.vdm_action_and_confirm(&mut never, 0, act, status));

    // Refused.
    let mut failed =
        MockHal::with_sfps(vec![MockSfp::present().with_json(act, reply("false"))]);
    assert!(!v.vdm_action_and_confirm(&mut failed, 0, act, status));

    // Not known to the module.
    assert!(!v.vdm_action_and_confirm(&mut bare(), 0, act, status));
}

#[test]
fn test_vdm_freeze_context_guard_unfreezes_on_drop() {
    let mut hal = MockHal::with_sfps(vec![MockSfp::present()
        .with_json("freeze_vdm_stats", reply("true"))
        .with_json("get_vdm_freeze_status", reply("true"))
        .with_json("unfreeze_vdm_stats", reply("true"))
        .with_json("get_vdm_unfreeze_status", reply("true"))]);
    {
        let guard = fast_vdm().vdm_freeze_context(&mut hal, 0);
        assert!(guard.is_frozen());
        assert!(hal.call_log(0).iter().any(|m| m == "freeze_vdm_stats"));
        assert!(!hal.call_log(0).iter().any(|m| m == "unfreeze_vdm_stats"));
        guard.release(&mut hal);
    }
    assert!(hal.call_log(0).iter().any(|m| m == "unfreeze_vdm_stats"));
}

#[test]
fn test_post_port_vdm_real_values_from_dict_to_db() {
    let mut s = String::new();
    for i in 1..=8 {
        let v = if i <= 4 { "38" } else { "\"N/A\"" };
        s.push_str(&format!(r#""laser_temperature_media{i}": {v}, "#));
    }
    for i in 1..=8 {
        let comma = if i < 8 { ", " } else { "" };
        s.push_str(&format!(r#""esnr_media_input{i}": 23.1171875{comma}"#));
    }
    let values = || reply(&format!("{{{s}}}")).fields.unwrap();

    let pm = mapping_with(&[("Ethernet0", 0)]);
    let mut tbl = MockDbTable::new("TRANSCEIVER_VDM_REAL_VALUE");
    let vdm_db = VdmDbUtils::new();

    // No module.
    let mut absent = MockHal::with_sfps(vec![MockSfp::absent()]);
    vdm_db.post_port_vdm_real_values_from_dict_to_db(
        "Ethernet0", &pm, &mut absent, &mut tbl, values(),
    );
    assert_eq!(tbl.get_size(), 0);

    // No values.
    let mut hal = bare();
    vdm_db.post_port_vdm_real_values_from_dict_to_db(
        "Ethernet0", &pm, &mut hal, &mut tbl, vec![],
    );
    vdm_db.post_port_vdm_real_values_from_dict_to_db(
        "Ethernet0", &pm, &mut hal, &mut tbl, reply("{}").fields.unwrap(),
    );
    assert_eq!(tbl.get_size(), 0);

    // Sixteen values and the time.
    vdm_db.post_port_vdm_real_values_from_dict_to_db(
        "Ethernet0", &pm, &mut hal, &mut tbl, values(),
    );
    assert_eq!(tbl.get_size_for_key("Ethernet0"), 17);
    let row = row_of(&tbl, "Ethernet0");
    assert_eq!(shown(&row, "laser_temperature_media1"), Some("38"));
    assert_eq!(shown(&row, "laser_temperature_media5"), Some("N/A"));
    assert_eq!(shown(&row, "esnr_media_input1"), Some("23.1171875"));
}

/// Eight thresholds of each family.
fn thresholds() -> Reply {
    let mut s = String::new();
    for i in 1..=8 {
        let comma = if i < 8 { ", " } else { "" };
        s.push_str(&format!(r#""laser_temperature_media_{i}_halarm": 90.0, "#));
        s.push_str(&format!(r#""laser_temperature_media_{i}_lalarm": -5.0, "#));
        s.push_str(&format!(r#""laser_temperature_media_{i}_hwarn": 85.0, "#));
        s.push_str(&format!(r#""laser_temperature_media_{i}_lwarn": 0.0{comma}"#));
    }
    reply(&format!("{{{s}}}"))
}

#[test]
fn test_post_port_vdm_thresholds_to_db() {
    let pm = mapping_with(&[("Ethernet0", 0)]);
    let vdm_db = VdmDbUtils::new();
    let getter = "get_transceiver_vdm_thresholds";

    // A stop has been asked for.
    let mut th = XcvrTableHelper::<MockDbTable>::with_mock_tables();
    let mut hal =
        MockHal::with_sfps(vec![MockSfp::present().with_json(getter, thresholds())]);
    hal.set_stop(true);
    vdm_db.post_port_vdm_thresholds_to_db(
        "Ethernet0", &pm, &mut hal, &mut th.asics[0].vdm, &mut VdmThresholdCache::off(),
    );
    for t in 0..4 {
        assert_eq!(th.asics[0].vdm.thresholds[t].get_size(), 0);
    }

    // No module.
    let mut th = XcvrTableHelper::<MockDbTable>::with_mock_tables();
    let mut absent =
        MockHal::with_sfps(vec![MockSfp::absent().with_json(getter, thresholds())]);
    vdm_db.post_port_vdm_thresholds_to_db(
        "Ethernet0", &pm, &mut absent, &mut th.asics[0].vdm, &mut VdmThresholdCache::off(),
    );
    for t in 0..4 {
        assert_eq!(th.asics[0].vdm.thresholds[t].get_size(), 0);
    }

    // Flat memory.
    let mut th = XcvrTableHelper::<MockDbTable>::with_mock_tables();
    let mut flat = MockHal::with_sfps(vec![MockSfp::present()
        .with_json("is_flat_memory", reply("true"))
        .with_json(getter, thresholds())]);
    vdm_db.post_port_vdm_thresholds_to_db(
        "Ethernet0", &pm, &mut flat, &mut th.asics[0].vdm, &mut VdmThresholdCache::off(),
    );
    for t in 0..4 {
        assert_eq!(th.asics[0].vdm.thresholds[t].get_size(), 0);
    }

    // No thresholds.
    let mut th = XcvrTableHelper::<MockDbTable>::with_mock_tables();
    vdm_db.post_port_vdm_thresholds_to_db(
        "Ethernet0", &pm, &mut bare(), &mut th.asics[0].vdm, &mut VdmThresholdCache::off(),
    );
    for t in 0..4 {
        assert_eq!(th.asics[0].vdm.thresholds[t].get_size(), 0);
    }

    // Eight thresholds and the time for each family; the reading is kept.
    let mut th = XcvrTableHelper::<MockDbTable>::with_mock_tables();
    let mut hal =
        MockHal::with_sfps(vec![MockSfp::present().with_json(getter, thresholds())]);
    let mut cache = VdmThresholdCache::new();
    vdm_db.post_port_vdm_thresholds_to_db(
        "Ethernet0", &pm, &mut hal, &mut th.asics[0].vdm, &mut cache,
    );
    for t in 0..4 {
        assert_eq!(th.asics[0].vdm.thresholds[t].get_size_for_key("Ethernet0"), 9);
    }
    assert!(cache.lookup(0).is_some());
    // The same again from what was kept.
    vdm_db.post_port_vdm_thresholds_to_db(
        "Ethernet0", &pm, &mut hal, &mut th.asics[0].vdm, &mut cache,
    );
    for t in 0..4 {
        assert_eq!(th.asics[0].vdm.thresholds[t].get_size_for_key("Ethernet0"), 9);
        assert_eq!(
            th.asics[0].vdm.thresholds[0].hget("Ethernet0", "laser_temperature_media_1"),
            Some("90.0".to_string())
        );
    }
}

#[test]
fn test_post_port_vdm_flags_to_db_seeds_metadata_and_posts() {
    let pm = mapping_with(&[("Ethernet0", 0)]);
    let mut th = XcvrTableHelper::<MockDbTable>::with_mock_tables();
    let mut hal = answering(
        "get_transceiver_vdm_flags",
        r#"{"laser_temperature_media_1_halarm": true, "laser_temperature_media_2_halarm": false}"#,
    );
    VdmDbUtils::new().post_port_vdm_flags_to_db(
        "Ethernet0",
        &pm,
        &mut hal,
        &mut th.asics[0].vdm,
        &mut VdmThresholdCache::off(),
    );
    // Two flags and the time.
    let halarm = &th.asics[0].vdm.flags[0];
    assert_eq!(halarm.value.get_size_for_key("Ethernet0"), 3);
    assert_eq!(
        halarm.value.hget("Ethernet0", "laser_temperature_media_1"),
        Some("True".to_string())
    );
    // The changes are tracked from here on.
    assert_eq!(
        halarm.change_count.hget("Ethernet0", "laser_temperature_media_1"),
        Some("0".to_string())
    );
    assert_eq!(
        halarm.set_time.hget("Ethernet0", "laser_temperature_media_1"),
        Some("never".to_string())
    );
    // The next family has no flags.
    assert_eq!(th.asics[0].vdm.flags[1].value.get_size(), 0);
}

#[test]
fn guard_that_did_not_freeze_does_not_unfreeze() {
    let mut hal = answering("freeze_vdm_stats", "false");
    let guard = fast_vdm().vdm_freeze_context(&mut hal, 0);
    assert!(!guard.is_frozen());
    guard.release(&mut hal);
    assert!(hal.call_log(0).iter().any(|m| m == "freeze_vdm_stats"));
}

#[test]
fn confirmation_is_waited_for_no_longer_than_the_timeout() {
    let mut never = MockHal::with_sfps(vec![MockSfp::present()
        .with_json("freeze_vdm_stats", reply("true"))
        .with_json("get_vdm_freeze_status", reply("false"))]);
    let before = never.uptime();
    assert!(!VdmUtils::with_timing(10, 100, 7).freeze_vdm_stats_and_confirm(&mut never, 0));
    let waited = never.uptime() - before;
    assert!((100..=117).contains(&waited), "waited {waited} ms");
}
