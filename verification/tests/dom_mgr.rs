use std::collections::HashMap;

use xcvrd::db::DbTable;
use xcvrd::dom::db_utils::DbCache;
use xcvrd::dom::dom_mgr::{
    DomInfoUpdateTask, DomThermalInfoUpdateTask, LinkChangeReread, PendingReread,
    DEFAULT_DOM_INFO_UPDATE_PERIOD_SECS,
};
use xcvrd::hal::Hal;
use xcvrd::json::{Nested, Number, Reply, Value};
use xcvrd::mock::MockDbTable;
use xcvrd::mock_hal::{MockHal, MockSfp};
use xcvrd::port::{slot_in_row, value_in, PortChangeEvent, PortChangeEventType, PortMapping};
use xcvrd::tables::XcvrTableHelper;

fn value_of(v: &serde_json::Value) -> Value {
    match v {
        serde_json::Value::Null => Value::Null,
        serde_json::Value::Bool(b) => Value::Bool(*b),
        serde_json::Value::Number(n) => Value::Number(Number {
            text: n.to_string(),
            zero: n.as_f64() == Some(0.0),
            unsigned: n.as_u64(),
        }),
        serde_json::Value::String(s) => Value::Str(s.clone()),
        serde_json::Value::Array(a) => {
            Value::Nested(Nested { text: v.to_string(), empty: a.is_empty() })
        }
        serde_json::Value::Object(m) => {
            Value::Nested(Nested { text: v.to_string(), empty: m.is_empty() })
        }
    }
}

/// The reply that a JSON text stands for.
fn reply(text: &str) -> Reply {
    let v: serde_json::Value = serde_json::from_str(text).unwrap();
    Reply {
        value: value_of(&v),
        fields: v
            .as_object()
            .map(|m| m.iter().map(|(k, v)| (k.clone(), value_of(v))).collect()),
    }
}

fn mapping_with(ports: &[(&str, usize)]) -> PortMapping {
    let mut m = PortMapping::new();
    for (name, idx) in ports {
        m.handle_port_change_event(&PortChangeEvent::new(
            name.to_string(),
            Some(*idx),
            0,
            PortChangeEventType::PortAdd,
            "CONFIG_DB".to_string(),
            "PORT".to_string(),
        ));
    }
    m
}

fn row_of(t: &MockDbTable, key: &str) -> HashMap<String, String> {
    t.get(key).unwrap().into_iter().collect()
}

fn shown<'a>(row: &'a HashMap<String, String>, field: &str) -> Option<&'a str> {
    row.get(field).map(String::as_str)
}

type Tables = XcvrTableHelper<MockDbTable>;

fn tables() -> Tables {
    Tables::with_mock_tables()
}

fn dom_real_value(temperature: &str) -> Reply {
    let mut s = format!(r#"{{"temperature": "{temperature}C", "voltage": "3.3Volts""#);
    for lane in 1..=8 {
        s.push_str(&format!(r#", "tx{lane}power": "-1.5dBm""#));
        s.push_str(&format!(r#", "rx{lane}power": "-2.5dBm""#));
        s.push_str(&format!(r#", "tx{lane}bias": "7.5mA""#));
    }
    s.push('}');
    reply(&s)
}

fn dom_module() -> MockSfp {
    MockSfp::present()
        .with_dom_real_value(dom_real_value("42.5"))
        .with_threshold_info(reply(r#"{"temphighalarm": 75.0}"#))
        .with_json(
            "get_transceiver_dom_flags",
            reply(r#"{"tempHAlarm": false, "vccHAlarm": false}"#),
        )
        .with_json(
            "get_transceiver_status_flags",
            reply(
                r#"{"datapath_firmware_fault": false, "module_firmware_fault": false, "module_state_changed": true}"#,
            ),
        )
        .with_status(reply(
            r#"{
                "module_state": "ModuleReady",
                "module_fault_cause": "No Fault detected",
                "DP1State": "DataPathActivated",
                "config_state_hostlane1": "ConfigSuccess"
            }"#,
        ))
}

fn vdm_module() -> MockSfp {
    dom_module()
        .with_json("is_transceiver_vdm_supported", reply("true"))
        .with_json("is_vdm_statistic_supported", reply("false"))
        .with_json(
            "get_transceiver_vdm_real_value_basic",
            reply(r#"{"laser_temperature_media1": 38, "esnr_media_input1": 23.1171875}"#),
        )
        .with_json(
            "get_transceiver_vdm_flags",
            reply(
                r#"{"laser_temperature_media_1_halarm": false, "laser_temperature_media_2_halarm": true}"#,
            ),
        )
}

fn dom_module_flags(temp: bool, vcc: bool) -> MockSfp {
    dom_module().with_json(
        "get_transceiver_dom_flags",
        reply(&format!(r#"{{"tempHAlarm": {temp}, "vccHAlarm": {vcc}}}"#)),
    )
}

/// A task with its tables and its slots.
struct Rig {
    task: DomInfoUpdateTask,
    th: Tables,
    hal: MockHal,
}

impl Rig {
    fn poll_once(&mut self) {
        self.task.poll_once(&mut self.th, &mut self.hal);
    }

    fn reread(&mut self, port: usize) -> LinkChangeReread {
        self.task.update_port_db_diagnostics_on_link_change(port, &mut self.th, &mut self.hal)
    }

    fn update(&mut self, event: &PortChangeEvent) {
        self.task.on_port_update_event(event, &mut self.hal);
    }

    fn seed_from_db(&mut self) {
        self.task.seed_flap_count_baseline_from_db(&self.th);
    }

    fn reconcile(&mut self) {
        self.task.reconcile_link_change_flap_counts(&self.th, &mut self.hal);
    }

    fn republish(&mut self) {
        self.task
            .republish_missing_flag_baseline_after_cmis_bringup(&mut self.th, &mut self.hal);
    }

    fn check(&mut self) {
        self.task.check_port_update(&mut self.th, &mut self.hal, 1);
    }

    fn config_change(&mut self, event: &PortChangeEvent) {
        self.task.on_port_config_change(event, &mut self.th);
    }

    fn pending(&self, slot: usize) -> bool {
        self.task.pending_reread(slot).is_some()
    }

    fn none_pending(&self) -> bool {
        (0..8).all(|slot| !self.pending(slot))
    }

    fn clear_pending(&mut self) {
        for slot in 0..8 {
            self.task.cancel_reread(slot);
        }
    }

    /// A re-read of slot 0 that is due now and is tried for a minute.
    fn schedule_due(&mut self) {
        let now = self.hal.uptime();
        self.task
            .schedule_reread(0, PendingReread { fire_at: now, giveup_at: now + 60_000 });
    }

    fn cmis_state(&mut self, state: &str) {
        self.th.asics[0].status_sw.hset("Ethernet0", "cmis_state", state);
    }

    fn dom_flag(&self, name: &str) -> Option<String> {
        self.th.asics[0].dom_flags.value.hget("Ethernet0", name)
    }

    fn dom_flag_fields(&self) -> usize {
        self.th.asics[0].dom_flags.value.get_size_for_key("Ethernet0")
    }
}

fn task_sharing_th(
    ports: &[(&str, usize)],
    sfps: Vec<MockSfp>,
    skip_cmis_mgr: bool,
    th: Tables,
) -> Rig {
    Rig {
        task: DomInfoUpdateTask::new(mapping_with(ports), skip_cmis_mgr, Some(60)),
        th,
        hal: MockHal::with_sfps(sfps),
    }
}

fn task_with(ports: &[(&str, usize)], sfps: Vec<MockSfp>, skip_cmis_mgr: bool) -> Rig {
    task_sharing_th(ports, sfps, skip_cmis_mgr, tables())
}

fn one_port(sfp: MockSfp, skip_cmis_mgr: bool) -> Rig {
    task_with(&[("Ethernet0", 0)], vec![sfp], skip_cmis_mgr)
}

fn event(
    port: &str,
    phys: usize,
    kind: PortChangeEventType,
    db: &str,
    table: &str,
    dict: &[(&str, &str)],
) -> PortChangeEvent {
    PortChangeEvent::new(
        port.to_string(),
        Some(phys),
        0,
        kind,
        db.to_string(),
        table.to_string(),
    )
    .with_port_dict(dict.iter().map(|(k, v)| (k.to_string(), v.to_string())).collect())
}

fn appl_flap_event(port: &str, phys: usize, flap_count: &str) -> PortChangeEvent {
    event(
        port,
        phys,
        PortChangeEventType::PortSet,
        "APPL_DB",
        "PORT_TABLE",
        &[("flap_count", flap_count)],
    )
}

#[test]
fn test_dom_poll_cadence_defaults_to_reference_60s() {
    assert_eq!(DEFAULT_DOM_INFO_UPDATE_PERIOD_SECS, 60);
    let task = DomInfoUpdateTask::new(mapping_with(&[("Ethernet0", 1)]), false, None);
    assert_eq!(task.dom_update_interval(), DEFAULT_DOM_INFO_UPDATE_PERIOD_SECS);
    assert_eq!(task.dom_update_interval(), 60);
}

#[test]
fn test_dom_update_interval_parameter() {
    let make = |interval: Option<i64>| {
        DomInfoUpdateTask::new(mapping_with(&[("Ethernet0", 1)]), false, interval)
            .dom_update_interval()
    };
    assert_eq!(make(None), DEFAULT_DOM_INFO_UPDATE_PERIOD_SECS);
    assert_eq!(make(Some(0)), 0);
    assert_eq!(make(Some(120)), 120);
    assert_eq!(make(Some(1000)), 1000);
    assert_eq!(make(Some(-5)), DEFAULT_DOM_INFO_UPDATE_PERIOD_SECS);
    assert_eq!(DEFAULT_DOM_INFO_UPDATE_PERIOD_SECS, 60);
}

#[test]
fn test_get_dom_polling_from_config_db() {
    let mut rig = one_port(dom_module(), true);
    assert_eq!(rig.task.get_dom_polling_from_config_db(&rig.th, "Ethernet0"), "enabled");
    assert!(!rig.task.is_port_dom_monitoring_disabled(&rig.th, "Ethernet0"));
    rig.th.asics[0].cfg_port.hset("Ethernet0", "dom_polling", "disabled");
    assert_eq!(rig.task.get_dom_polling_from_config_db(&rig.th, "Ethernet0"), "disabled");
    assert!(rig.task.is_port_dom_monitoring_disabled(&rig.th, "Ethernet0"));
}

#[test]
fn test_is_port_in_cmis_initialization_process() {
    let mut rig = one_port(dom_module(), false);
    // The data path is being brought up.
    rig.cmis_state("INSERTED");
    assert!(rig.task.is_port_in_cmis_initialization_process(&rig.th, "Ethernet0"));
    assert!(rig.task.is_port_dom_monitoring_disabled(&rig.th, "Ethernet0"));
    // It has come to rest.
    rig.cmis_state("READY");
    assert!(!rig.task.is_port_in_cmis_initialization_process(&rig.th, "Ethernet0"));
    assert!(!rig.task.is_port_dom_monitoring_disabled(&rig.th, "Ethernet0"));
    // Nobody brings it up.
    let mut skipping = one_port(dom_module(), true);
    skipping.cmis_state("INSERTED");
    assert!(!skipping.task.is_port_in_cmis_initialization_process(&skipping.th, "Ethernet0"));
}

#[test]
fn test_cmis_bringup_complete_republishes_missing_flag_baseline() {
    let mut rig = one_port(dom_module(), false);

    // The data path is being brought up: nothing is published.
    rig.cmis_state("INSERTED");
    rig.republish();
    assert_eq!(rig.dom_flag_fields(), 0);

    // It has come to rest and the row is missing.
    rig.cmis_state("READY");
    rig.republish();
    let row = row_of(&rig.th.asics[0].dom_flags.value, "Ethernet0");
    assert_eq!(shown(&row, "tempHAlarm"), Some("False"));
    assert_eq!(shown(&row, "vccHAlarm"), Some("False"));

    // A row that is there is left alone.
    rig.th.asics[0]
        .dom_flags
        .value
        .set("Ethernet0", &vec![("tempHAlarm".to_string(), "SENTINEL".to_string())]);
    rig.republish();
    assert_eq!(rig.dom_flag("tempHAlarm"), Some("SENTINEL".to_string()));
}

#[test]
fn test_cmis_bringup_republish_gated_on_terminal_excluding_removed() {
    let mut rig = one_port(dom_module(), false);

    for st in ["INSERTED", "DP_PRE_INIT_CHECK", "DP_DEINIT", "DP_INIT", "REMOVED"] {
        rig.cmis_state(st);
        rig.republish();
        assert_eq!(rig.dom_flag_fields(), 0, "cmis_state={st} must not publish");
    }

    // A bring-up that was given up.
    rig.cmis_state("FAILED");
    rig.republish();
    let row = row_of(&rig.th.asics[0].dom_flags.value, "Ethernet0");
    assert_eq!(shown(&row, "tempHAlarm"), Some("False"));
    assert_eq!(shown(&row, "vccHAlarm"), Some("False"));

    // One that succeeded, with the row deleted again.
    rig.th.asics[0].dom_flags.value.del("Ethernet0");
    rig.cmis_state("READY");
    rig.republish();
    let row = row_of(&rig.th.asics[0].dom_flags.value, "Ethernet0");
    assert_eq!(shown(&row, "tempHAlarm"), Some("False"));
    assert_eq!(shown(&row, "vccHAlarm"), Some("False"));
}

#[test]
fn test_deleted_flag_baseline_reestablished_after_replug_settles() {
    let mut rig = one_port(dom_module(), false);
    rig.cmis_state("READY");

    rig.poll_once();
    assert_eq!(rig.dom_flag("vccHAlarm"), Some("False".to_string()));

    // The module is pulled.
    rig.th.asics[0].dom_flags.value.del("Ethernet0");
    assert_eq!(rig.dom_flag_fields(), 0);

    // It is back, without a flap.
    rig.republish();
    let row = row_of(&rig.th.asics[0].dom_flags.value, "Ethernet0");
    assert_eq!(shown(&row, "tempHAlarm"), Some("False"));
    assert_eq!(shown(&row, "vccHAlarm"), Some("False"));
}

#[test]
fn test_cmis_bringup_republish_gated_by_presence_and_dom_polling() {
    // No module.
    let mut absent = one_port(MockSfp::absent(), false);
    absent.cmis_state("READY");
    absent.republish();
    assert_eq!(absent.dom_flag_fields(), 0);

    // No monitoring.
    let mut disabled = one_port(dom_module(), false);
    disabled.cmis_state("READY");
    disabled.th.asics[0].cfg_port.hset("Ethernet0", "dom_polling", "disabled");
    disabled.republish();
    assert_eq!(disabled.dom_flag_fields(), 0);
}

#[test]
fn test_cmis_bringup_republish_publishes_and_consumes_pending_link_change_reread() {
    let mut rig = one_port(dom_module(), false);
    rig.cmis_state("READY");

    rig.update(&appl_flap_event("Ethernet0", 0, "1"));
    assert!(rig.pending(0));

    rig.republish();
    let row = row_of(&rig.th.asics[0].dom_flags.value, "Ethernet0");
    assert_eq!(shown(&row, "tempHAlarm"), Some("False"));
    assert_eq!(shown(&row, "vccHAlarm"), Some("False"));
    assert!(!rig.pending(0), "the re-read has been done");
}

#[test]
fn test_link_change_isolation_flap_before_ready_publishes_then_guard_then_recaptures() {
    let ports = &[("Ethernet0", 0)];
    let mut flapped =
        task_sharing_th(ports, vec![dom_module_flags(false, false)], false, tables());
    flapped.cmis_state("READY");

    // A flap, and no row yet.
    flapped.update(&appl_flap_event("Ethernet0", 0, "1"));
    assert_eq!(flapped.dom_flag_fields(), 0);

    // The row is published and the re-read is done.
    flapped.republish();
    assert_eq!(flapped.dom_flag("tempHAlarm"), Some("False".to_string()));
    assert!(!flapped.pending(0));

    // Alarms without a flap stay unseen between the passes.
    let mut raised =
        task_sharing_th(ports, vec![dom_module_flags(true, true)], false, flapped.th);
    raised.reconcile();
    raised.republish();
    raised.check();
    assert_eq!(raised.dom_flag("tempHAlarm"), Some("False".to_string()));

    // A flap brings them up.
    raised.update(&appl_flap_event("Ethernet0", 0, "2"));
    raised.schedule_due();
    raised.check();
    assert_eq!(raised.dom_flag("tempHAlarm"), Some("True".to_string()));
}

#[test]
fn test_link_change_present_row_flap_reread_rearms_through_cmis_init_then_recaptures() {
    let ports = &[("Ethernet0", 0)];
    let mut baseline =
        task_sharing_th(ports, vec![dom_module_flags(false, false)], false, tables());
    baseline.cmis_state("READY");
    baseline.update(&appl_flap_event("Ethernet0", 0, "1"));
    baseline.republish();
    assert_eq!(baseline.dom_flag("tempHAlarm"), Some("False".to_string()));

    // An alarm and a flap while the data path is being brought up again.
    let mut raised =
        task_sharing_th(ports, vec![dom_module_flags(true, false)], false, baseline.th);
    raised.cmis_state("INSERTED");
    raised.update(&appl_flap_event("Ethernet0", 0, "2"));
    raised.schedule_due();

    // The re-read publishes nothing and is kept.
    raised.check();
    assert_eq!(raised.dom_flag("tempHAlarm"), Some("False".to_string()));
    assert!(raised.pending(0), "the re-read is to be tried again");

    // The row is there, so it is not published for being missing.
    raised.cmis_state("READY");
    raised.republish();
    assert_eq!(raised.dom_flag("tempHAlarm"), Some("False".to_string()));
    assert!(raised.pending(0));

    // The next try publishes.
    raised.schedule_due();
    raised.check();
    assert_eq!(raised.dom_flag("tempHAlarm"), Some("True".to_string()));
    assert!(raised.none_pending());
}

#[test]
fn test_cmis_bringup_hook_inert_when_skip_cmis_mgr() {
    let mut rig = one_port(dom_module(), true);
    rig.cmis_state("INSERTED");
    rig.republish();
    rig.cmis_state("READY");
    rig.republish();
    assert_eq!(rig.dom_flag_fields(), 0);
}

#[test]
fn test_cmis_bringup_republish_skips_on_indeterminate_flag_read() {
    let mut rig = one_port(dom_module(), false);
    rig.cmis_state("READY");

    // A row that cannot be read is not a missing row.
    rig.th.asics[0].dom_flags.value.set_fail_size_reads(true);
    rig.republish();
    rig.th.asics[0].dom_flags.value.set_fail_size_reads(false);
    assert_eq!(rig.dom_flag_fields(), 0);

    rig.republish();
    let row = row_of(&rig.th.asics[0].dom_flags.value, "Ethernet0");
    assert_eq!(shown(&row, "tempHAlarm"), Some("False"));
    assert_eq!(shown(&row, "vccHAlarm"), Some("False"));
}

#[test]
fn test_poll_once_publishes_dom_sensor_and_flags() {
    let mut rig = one_port(dom_module(), true);
    rig.poll_once();

    let sensor = row_of(&rig.th.asics[0].dom, "Ethernet0");
    assert_eq!(shown(&sensor, "temperature"), Some("42.5"));
    assert_eq!(shown(&sensor, "voltage"), Some("3.3"));
    for lane in 1..=8 {
        assert!(sensor.contains_key(&format!("tx{lane}power")));
        assert!(sensor.contains_key(&format!("rx{lane}power")));
        assert!(sensor.contains_key(&format!("tx{lane}bias")));
    }
    assert!(sensor.contains_key("last_update_time"));

    let flag = row_of(&rig.th.asics[0].dom_flags.value, "Ethernet0");
    assert_eq!(shown(&flag, "tempHAlarm"), Some("False"));
    assert_eq!(
        rig.th.asics[0].dom_flags.change_count.hget("Ethernet0", "tempHAlarm"),
        Some("0".into())
    );
    assert_eq!(
        rig.th.asics[0].dom_flags.set_time.hget("Ethernet0", "tempHAlarm"),
        Some("never".into())
    );
}

#[test]
fn test_poll_once_skips_when_dom_polling_disabled() {
    let mut rig = one_port(dom_module(), true);
    rig.th.asics[0].cfg_port.hset("Ethernet0", "dom_polling", "disabled");
    rig.poll_once();
    assert_eq!(rig.th.asics[0].dom.get("Ethernet0"), None);
    assert_eq!(rig.th.asics[0].dom_flags.value.get("Ethernet0"), None);
    assert_eq!(rig.th.asics[0].status.get("Ethernet0"), None);
}

#[test]
fn test_poll_once_publishes_transceiver_status() {
    let mut rig = one_port(dom_module(), true);
    rig.poll_once();

    let status = row_of(&rig.th.asics[0].status, "Ethernet0");
    assert_eq!(shown(&status, "module_state"), Some("ModuleReady"));
    assert_eq!(shown(&status, "module_fault_cause"), Some("No Fault detected"));
    assert_eq!(shown(&status, "DP1State"), Some("DataPathActivated"));
    assert_eq!(shown(&status, "config_state_hostlane1"), Some("ConfigSuccess"));
    assert!(status.contains_key("last_update_time"));
}

#[test]
fn test_poll_once_publishes_status_flags() {
    let mut rig = one_port(dom_module(), true);
    rig.poll_once();

    let t = &rig.th.asics[0].status_flags;
    let flag = row_of(&t.value, "Ethernet0");
    assert_eq!(shown(&flag, "datapath_firmware_fault"), Some("False"));
    assert_eq!(shown(&flag, "module_state_changed"), Some("True"));
    assert!(flag.contains_key("last_update_time"));
    assert_eq!(t.change_count.hget("Ethernet0", "module_state_changed"), Some("0".into()));
    assert_eq!(t.set_time.hget("Ethernet0", "module_state_changed"), Some("never".into()));
}

#[test]
fn test_update_port_db_diagnostics_on_link_change() {
    // The flags of a module that can be read.
    let mut rig = one_port(dom_module(), true);
    rig.reread(0);
    assert!(rig.th.asics[0].dom_flags.value.get("Ethernet0").is_some());
    assert!(rig.th.asics[0].status_flags.value.get("Ethernet0").is_some());

    // A slot without a port.
    let mut rig = one_port(dom_module(), true);
    rig.reread(2);
    assert!(rig.th.asics[0].dom_flags.value.get("Ethernet0").is_none());
    assert!(rig.th.asics[0].status_flags.value.get("Ethernet0").is_none());

    // A module that may not be read.
    let mut rig = one_port(dom_module(), true);
    rig.th.asics[0].status_sw.hset("Ethernet0", "error", "Blocking EEPROM from being read");
    rig.reread(0);
    assert!(rig.th.asics[0].dom_flags.value.get("Ethernet0").is_none());
    assert!(rig.th.asics[0].status_flags.value.get("Ethernet0").is_none());

    // No module.
    let mut rig = one_port(MockSfp::absent(), true);
    rig.reread(0);
    assert!(rig.th.asics[0].dom_flags.value.get("Ethernet0").is_none());

    // A stop has been asked for.
    let mut rig = one_port(dom_module(), true);
    rig.hal.set_stop(true);
    rig.reread(0);
    assert!(rig.th.asics[0].status_flags.value.get("Ethernet0").is_none());
}

#[test]
fn test_on_port_update_event_schedules_link_change() {
    let mut rig = one_port(dom_module(), true);

    // A new flap count.
    rig.update(&appl_flap_event("Ethernet0", 0, "1"));
    assert!(rig.pending(0));

    // The same one again.
    rig.clear_pending();
    rig.update(&appl_flap_event("Ethernet0", 0, "1"));
    assert!(rig.none_pending());

    // Another one.
    rig.update(&appl_flap_event("Ethernet0", 0, "2"));
    assert!(rig.pending(0));

    // A row without one.
    let mut rig2 = one_port(dom_module(), true);
    rig2.update(&event("Ethernet0", 0, PortChangeEventType::PortSet, "APPL_DB", "PORT_TABLE", &[]));
    assert!(rig2.none_pending());

    // A row of another database.
    rig2.update(&event(
        "Ethernet0",
        0,
        PortChangeEventType::PortSet,
        "CONFIG_DB",
        "PORT_TABLE",
        &[("flap_count", "1")],
    ));
    assert!(rig2.none_pending());

    // A row that is deleted.
    rig2.update(&event(
        "Ethernet0",
        0,
        PortChangeEventType::PortDel,
        "APPL_DB",
        "PORT_TABLE",
        &[("flap_count", "3")],
    ));
    assert!(rig2.none_pending());
}

#[test]
fn test_on_port_update_event_flap_count_tracked_per_port() {
    let mut rig = task_with(
        &[("Ethernet0", 0), ("Ethernet8", 1)],
        vec![dom_module(), dom_module()],
        true,
    );

    rig.update(&appl_flap_event("Ethernet0", 0, "5"));
    rig.update(&appl_flap_event("Ethernet8", 1, "5"));
    assert!(rig.pending(0) && rig.pending(1));
    rig.clear_pending();

    rig.update(&appl_flap_event("Ethernet0", 0, "5"));
    assert!(rig.none_pending());

    rig.update(&appl_flap_event("Ethernet8", 1, "6"));
    assert!(rig.pending(1) && !rig.pending(0));
}

#[test]
fn test_seed_link_change_baseline_suppresses_boot_snapshot_reread() {
    let mut rig = one_port(dom_module(), true);

    rig.task.seed_link_change_baseline(&appl_flap_event("Ethernet0", 0, "7"));
    assert!(rig.none_pending());

    rig.update(&appl_flap_event("Ethernet0", 0, "7"));
    assert!(rig.none_pending());

    rig.update(&appl_flap_event("Ethernet0", 0, "8"));
    assert!(rig.pending(0));
}

#[test]
fn test_reconcile_flap_count_change_schedules_link_change() {
    let mut rig = one_port(dom_module(), true);

    rig.th.asics[0].app_port.hset("Ethernet0", "flap_count", "1");
    rig.reconcile();
    assert!(rig.pending(0));

    rig.clear_pending();
    rig.reconcile();
    assert!(rig.none_pending());

    rig.th.asics[0].app_port.hset("Ethernet0", "flap_count", "2");
    rig.reconcile();
    assert!(rig.pending(0));
}

#[test]
fn test_seed_flap_count_baseline_from_db_suppresses_boot_reread() {
    let mut rig = one_port(dom_module(), true);

    rig.th.asics[0].app_port.hset("Ethernet0", "flap_count", "5");
    rig.seed_from_db();
    rig.reconcile();
    assert!(rig.none_pending());

    rig.th.asics[0].app_port.hset("Ethernet0", "flap_count", "6");
    rig.reconcile();
    assert!(rig.pending(0));
}

#[test]
fn test_reconcile_absent_flap_count_no_schedule() {
    let mut rig = one_port(dom_module(), true);
    rig.reconcile();
    assert!(rig.none_pending());

    rig.th.asics[0].app_port.hset("Ethernet0", "admin_status", "up");
    rig.reconcile();
    assert!(rig.none_pending());
}

#[test]
fn test_reconcile_flap_count_tracked_per_port() {
    let mut rig = task_with(
        &[("Ethernet0", 0), ("Ethernet8", 1)],
        vec![dom_module(), dom_module()],
        true,
    );
    rig.th.asics[0].app_port.hset("Ethernet0", "flap_count", "3");
    rig.th.asics[0].app_port.hset("Ethernet8", "flap_count", "3");
    rig.seed_from_db();
    rig.reconcile();
    assert!(rig.none_pending());

    rig.th.asics[0].app_port.hset("Ethernet0", "flap_count", "4");
    rig.reconcile();
    assert!(rig.pending(0) && !rig.pending(1));
}

#[test]
fn test_check_port_update_drains_due_link_change() {
    let mut rig = one_port(dom_module(), true);
    rig.schedule_due();
    rig.check();
    assert!(rig.none_pending());
    assert!(rig.th.asics[0].status_flags.value.get("Ethernet0").is_some());
}

#[test]
fn test_poll_once_interleaved_drains_due_link_change_mid_pass() {
    let mut rig = task_with(
        &[("Ethernet0", 0), ("Ethernet8", 1)],
        vec![dom_module(), dom_module()],
        true,
    );
    rig.schedule_due();
    let next_reconcile = rig.hal.uptime() + 3_600_000;
    rig.task.poll_once_interleaved(&mut rig.th, &mut rig.hal, next_reconcile);

    assert!(rig.none_pending());
    assert!(rig.th.asics[0].dom.get("Ethernet0").is_some());
    assert!(rig.th.asics[0].dom.get("Ethernet8").is_some());
}

#[test]
fn test_poll_once_interleaved_reconciles_flap_mid_pass() {
    let mut rig = one_port(dom_module(), true);
    rig.th.asics[0].app_port.hset("Ethernet0", "flap_count", "1");
    let next_reconcile = rig.hal.uptime();
    let next = rig.task.poll_once_interleaved(&mut rig.th, &mut rig.hal, next_reconcile);

    assert!(rig.pending(0));
    assert!(next > rig.hal.uptime());
}

#[test]
fn test_check_port_update_rearms_reread_when_cmis_init_then_publishes_on_terminal() {
    let mut rig = one_port(dom_module(), false);
    rig.cmis_state("INSERTED");
    rig.schedule_due();

    rig.check();
    assert!(rig.th.asics[0].dom_flags.value.get("Ethernet0").is_none());
    assert!(rig.th.asics[0].status_flags.value.get("Ethernet0").is_none());
    assert!(rig.pending(0), "the re-read is to be tried again");

    rig.cmis_state("READY");
    rig.schedule_due();
    rig.check();
    assert!(rig.th.asics[0].dom_flags.value.get("Ethernet0").is_some());
    assert!(rig.th.asics[0].status_flags.value.get("Ethernet0").is_some());
    assert!(rig.none_pending());
}

#[test]
fn test_republish_consumes_rearmed_reread_guard_safe() {
    let mut rig = one_port(dom_module_flags(false, false), false);
    rig.cmis_state("INSERTED");
    rig.schedule_due();
    rig.check();
    assert!(rig.pending(0));
    assert!(rig.th.asics[0].dom_flags.value.get("Ethernet0").is_none());

    rig.cmis_state("READY");
    rig.republish();
    assert!(rig.th.asics[0].dom_flags.value.get("Ethernet0").is_some());
    assert!(rig.none_pending());

    rig.check();
    assert!(rig.none_pending());
}

#[test]
fn test_restart_reseed_preserves_pending_flap() {
    let mut rig = one_port(dom_module(), true);

    rig.th.asics[0].app_port.hset("Ethernet0", "flap_count", "1");
    rig.seed_from_db();
    assert_eq!(rig.task.last_flap_count(0).as_deref(), Some("1"));

    // A flap, and the task starts again before it is seen.
    rig.th.asics[0].app_port.hset("Ethernet0", "flap_count", "2");
    rig.seed_from_db();
    assert_eq!(rig.task.last_flap_count(0).as_deref(), Some("1"));

    rig.reconcile();
    assert!(rig.pending(0));
}

#[test]
fn test_flap_reconcile_surfaces_raised_dom_flag_true() {
    let mut rig = one_port(dom_module_flags(true, false), false);
    rig.cmis_state("READY");

    rig.th.asics[0].app_port.hset("Ethernet0", "flap_count", "1");
    rig.seed_from_db();

    rig.th.asics[0].app_port.hset("Ethernet0", "flap_count", "2");
    rig.reconcile();
    assert!(rig.pending(0));

    rig.schedule_due();
    rig.check();
    assert_eq!(rig.dom_flag("tempHAlarm"), Some("True".to_string()));
    assert!(rig.none_pending());
}

#[test]
fn test_poll_once_skips_absent_module() {
    let mut rig = one_port(MockSfp::absent(), true);
    rig.poll_once();
    assert_eq!(rig.th.asics[0].dom.get("Ethernet0"), None);
}

#[test]
fn test_poll_once_skips_error_status_port() {
    let mut rig = one_port(dom_module(), true);
    rig.th.asics[0].status_sw.hset("Ethernet0", "error", "Blocking EEPROM from being read");
    rig.poll_once();
    assert_eq!(rig.th.asics[0].dom.get("Ethernet0"), None);
}

#[test]
fn test_thermal_task_poll_once_publishes_temperature() {
    let task = DomThermalInfoUpdateTask::new(mapping_with(&[("Ethernet0", 0)]), 1000);
    let mut hal = MockHal::with_sfps(vec![
        MockSfp::present().with_json("get_temperature", reply("42.5"))
    ]);
    let mut th = tables();
    task.poll_once(&mut th, &mut hal);
    let row = row_of(&th.asics[0].dom_temperature, "Ethernet0");
    assert_eq!(shown(&row, "temperature"), Some("42.5"));
}

#[test]
fn test_post_port_pm_info_to_db() {
    let pm_sfp = MockSfp::present().with_json(
        "get_transceiver_pm",
        reply(
            r#"{
                "prefec_ber_avg": "0.0003407240007014899",
                "prefec_ber_min": "0.0006814479342250317",
                "prefec_ber_max": "0.0006833674050752236",
                "uncorr_frames_avg": "0.0",
                "uncorr_frames_min": "0.0",
                "uncorr_frames_max": "0.0"
            }"#,
        ),
    );
    let mut rig = one_port(pm_sfp, true);
    let mut pm = MockDbTable::new("TRANSCEIVER_PM");
    assert_eq!(pm.get_size(), 0);
    rig.task.post_port_pm_info_to_db("Ethernet0", &mut pm, &mut rig.hal, &mut DbCache::off());
    assert_eq!(pm.get_size_for_key("Ethernet0"), 6);

    // Flat memory.
    let mut flat = one_port(
        MockSfp::present()
            .with_json("is_flat_memory", reply("true"))
            .with_json("get_transceiver_pm", reply(r#"{"prefec_ber_avg": "0.1"}"#)),
        true,
    );
    let mut pm = MockDbTable::new("TRANSCEIVER_PM");
    flat.task.post_port_pm_info_to_db("Ethernet0", &mut pm, &mut flat.hal, &mut DbCache::off());
    assert_eq!(pm.get_size(), 0);

    // No module.
    let mut absent = one_port(MockSfp::absent(), true);
    let mut pm = MockDbTable::new("TRANSCEIVER_PM");
    absent.task.post_port_pm_info_to_db(
        "Ethernet0",
        &mut pm,
        &mut absent.hal,
        &mut DbCache::off(),
    );
    assert_eq!(pm.get_size(), 0);
}

fn firmware() -> Reply {
    reply(r#"{"active_firmware": "2.1.1", "inactive_firmware": "1.2.4"}"#)
}

#[test]
fn test_post_port_sfp_firmware_info_to_db() {
    let getter = "get_transceiver_info_firmware_versions";
    let ports = &[("Ethernet0", 0), ("Ethernet4", 0)];
    let mut rig =
        task_with(ports, vec![MockSfp::present().with_json(getter, firmware())], true);
    let mut tbl = MockDbTable::new("TRANSCEIVER_FIRMWARE_INFO");

    // A stop has been asked for.
    rig.hal.set_stop(true);
    rig.task.post_port_sfp_firmware_info_to_db(
        "Ethernet0",
        &mut tbl,
        &mut rig.hal,
        &mut DbCache::off(),
    );
    assert_eq!(tbl.get_size(), 0);
    rig.hal.set_stop(false);

    // The firmware of a module belongs to all its ports.
    rig.task.post_port_sfp_firmware_info_to_db(
        "Ethernet0",
        &mut tbl,
        &mut rig.hal,
        &mut DbCache::off(),
    );
    assert_eq!(tbl.get_size_for_key("Ethernet0"), 2);
    assert_eq!(tbl.get_size_for_key("Ethernet4"), 2);
    assert_eq!(tbl.get_size(), 2);

    // No module.
    let mut absent = task_with(ports, vec![MockSfp::absent()], true);
    let mut tbl = MockDbTable::new("TRANSCEIVER_FIRMWARE_INFO");
    absent.task.post_port_sfp_firmware_info_to_db(
        "Ethernet0",
        &mut tbl,
        &mut absent.hal,
        &mut DbCache::off(),
    );
    assert_eq!(tbl.get_size(), 0);
}

#[test]
fn test_post_port_sfp_firmware_info_to_db_lport_list_none() {
    // The name is a number: the slot that it spells, which has no ports.
    let mut sfps: Vec<MockSfp> = (0..5).map(|_| MockSfp::absent()).collect();
    sfps.push(
        MockSfp::present().with_json("get_transceiver_info_firmware_versions", firmware()),
    );
    let mut rig = task_with(&[], sfps, true);
    let mut tbl = MockDbTable::new("TRANSCEIVER_FIRMWARE_INFO");
    rig.task.post_port_sfp_firmware_info_to_db(
        "5",
        &mut tbl,
        &mut rig.hal,
        &mut DbCache::off(),
    );
    assert_eq!(tbl.get_size(), 0);
}

#[test]
fn test_poll_once_publishes_vdm_real_values_and_flags() {
    let mut rig = one_port(vdm_module(), true);
    rig.poll_once();

    let rv = &rig.th.asics[0].vdm.real_value;
    assert_eq!(rv.get_size_for_key("Ethernet0"), 3);
    assert_eq!(rv.hget("Ethernet0", "laser_temperature_media1"), Some("38".to_string()));
    assert_eq!(rv.hget("Ethernet0", "esnr_media_input1"), Some("23.1171875".to_string()));

    let flag = &rig.th.asics[0].vdm.flags[0];
    assert_eq!(flag.value.get_size_for_key("Ethernet0"), 3);
    assert_eq!(
        flag.value.hget("Ethernet0", "laser_temperature_media_2"),
        Some("True".to_string())
    );
    assert_eq!(
        flag.change_count.hget("Ethernet0", "laser_temperature_media_1"),
        Some("0".to_string())
    );

    assert_eq!(rig.th.asics[0].pm.get_size(), 0);
}

fn statistic_module(basic: &str, statistic: &str, flags: &str) -> MockSfp {
    dom_module()
        .with_json("is_transceiver_vdm_supported", reply("true"))
        .with_json("is_vdm_statistic_supported", reply("true"))
        .with_json("freeze_vdm_stats", reply("true"))
        .with_json("get_vdm_freeze_status", reply("true"))
        .with_json("unfreeze_vdm_stats", reply("true"))
        .with_json("get_vdm_unfreeze_status", reply("true"))
        .with_json("get_transceiver_vdm_real_value_basic", reply(basic))
        .with_json("get_transceiver_vdm_real_value_statistic", reply(statistic))
        .with_json("get_transceiver_pm", reply(r#"{"prefec_ber_avg": "0.001"}"#))
        .with_json("get_transceiver_vdm_flags", reply(flags))
}

#[test]
fn test_poll_once_vdm_statistic_freeze_captures_pm_and_merges() {
    let sfp = statistic_module(
        r#"{"esnr_media_input1": 10.0}"#,
        r#"{"esnr_media_input1": 99.0, "laser_temperature_media1": 40}"#,
        r#"{"esnr_media_input1_halarm": false}"#,
    );
    let mut rig = one_port(sfp, true);
    rig.poll_once();

    assert_eq!(rig.th.asics[0].pm.get_size_for_key("Ethernet0"), 1);

    let rv = &rig.th.asics[0].vdm.real_value;
    assert_eq!(rv.get_size_for_key("Ethernet0"), 3);
    assert_eq!(rv.hget("Ethernet0", "esnr_media_input1"), Some("99.0".to_string()));
    assert_eq!(rv.hget("Ethernet0", "laser_temperature_media1"), Some("40".to_string()));
}

#[test]
fn test_poll_once_vdm_statistic_freeze_gated_by_low_power() {
    let make = || {
        statistic_module(
            r#"{"esnr_media_input1": 10.0}"#,
            r#"{"prefec_ber_min_media_input1": 1.0e-6}"#,
            "{}",
        )
    };

    // In low power the statistics are not frozen.
    let mut rig = one_port(make().with_lpmode(true), true);
    rig.poll_once();
    assert_eq!(rig.th.asics[0].pm.get_size_for_key("Ethernet0"), 0);
    let rv = &rig.th.asics[0].vdm.real_value;
    assert!(rv.hget("Ethernet0", "prefec_ber_min_media_input1").is_none());
    assert!(rv.hget("Ethernet0", "esnr_media_input1").is_some());

    // Otherwise they are.
    let mut rig = one_port(make(), true);
    rig.poll_once();
    assert_eq!(rig.th.asics[0].pm.get_size_for_key("Ethernet0"), 1);
    assert!(rig.th.asics[0]
        .vdm
        .real_value
        .hget("Ethernet0", "prefec_ber_min_media_input1")
        .is_some());
}

#[test]
fn test_periodic_poll_always_republishes_latched_flags() {
    let sfp = vdm_module().with_json(
        "get_transceiver_dom_flags",
        reply(r#"{"tempHAlarm": true, "vccHAlarm": false}"#),
    );
    let mut rig = one_port(sfp, true);

    // A re-read that is to come does not keep the pass from publishing.
    rig.update(&appl_flap_event("Ethernet0", 0, "1"));
    rig.poll_once();

    assert_eq!(rig.dom_flag("tempHAlarm"), Some("True".to_string()));
    assert_eq!(rig.dom_flag("vccHAlarm"), Some("False".to_string()));
    assert!(rig.th.asics[0].status_flags.value.get("Ethernet0").is_some());
    assert!(rig.th.asics[0].vdm.flags[0].value.get_size_for_key("Ethernet0") > 0);
}

#[test]
fn test_periodic_poll_publishes_full_temp_vcc_baseline_group() {
    let mut rig = one_port(dom_module(), true);
    rig.poll_once();
    let row = row_of(&rig.th.asics[0].dom_flags.value, "Ethernet0");
    assert_eq!(shown(&row, "tempHAlarm"), Some("False"));
    assert_eq!(shown(&row, "vccHAlarm"), Some("False"));
}

#[test]
fn test_multiport_dom_flag_groups_isolated_per_port() {
    let resting = dom_module();
    let raised = dom_module_flags(true, true);
    let mut rig = task_with(
        &[("Ethernet0", 0), ("Ethernet4", 1)],
        vec![resting, raised],
        true,
    );
    rig.poll_once();

    let e0 = row_of(&rig.th.asics[0].dom_flags.value, "Ethernet0");
    assert_eq!(shown(&e0, "tempHAlarm"), Some("False"));
    assert_eq!(shown(&e0, "vccHAlarm"), Some("False"));

    let e4 = row_of(&rig.th.asics[0].dom_flags.value, "Ethernet4");
    assert_eq!(shown(&e4, "tempHAlarm"), Some("True"));
    assert_eq!(shown(&e4, "vccHAlarm"), Some("True"));
}

#[test]
fn test_flap_schedules_offcadence_reread() {
    let mut rig = one_port(dom_module(), true);
    assert!(!rig.pending(0));
    rig.update(&appl_flap_event("Ethernet0", 0, "1"));
    assert!(rig.pending(0));

    let mut rig2 = task_with(&[("Ethernet8", 1)], vec![dom_module()], true);
    rig2.task.seed_link_change_baseline(&appl_flap_event("Ethernet8", 1, "5"));
    rig2.update(&appl_flap_event("Ethernet8", 1, "5"));
    assert!(!rig2.pending(1));
}

#[test]
fn test_dom_flag_group_raise_then_clear_cycle_temp_and_vcc() {
    let ports = &[("Ethernet0", 0)];
    let mut th = tables();
    let phases = [
        ("baseline", false, "False"),
        ("raised", true, "True"),
        ("cleared", false, "False"),
    ];
    for (phase, alarm, want) in phases {
        let mut rig = task_sharing_th(ports, vec![dom_module_flags(alarm, alarm)], true, th);
        rig.poll_once();
        let row = row_of(&rig.th.asics[0].dom_flags.value, "Ethernet0");
        assert_eq!(shown(&row, "tempHAlarm"), Some(want), "tempHAlarm in phase {phase}");
        assert_eq!(shown(&row, "vccHAlarm"), Some(want), "vccHAlarm in phase {phase}");
        th = rig.th;
    }
}

#[test]
fn test_link_change_guard_isolates_no_flap_then_flap_recaptures() {
    let ports = &[("Ethernet0", 0)];
    let mut baseline =
        task_sharing_th(ports, vec![dom_module_flags(false, false)], false, tables());
    baseline.cmis_state("READY");
    assert!(matches!(baseline.reread(0), LinkChangeReread::Settled));
    assert_eq!(baseline.dom_flag("tempHAlarm"), Some("False".to_string()));

    let mut raised =
        task_sharing_th(ports, vec![dom_module_flags(true, true)], false, baseline.th);

    // Without a flap nothing comes up between the passes.
    raised.reconcile();
    raised.republish();
    raised.check();
    assert_eq!(raised.dom_flag("tempHAlarm"), Some("False".to_string()));
    assert_eq!(raised.dom_flag("vccHAlarm"), Some("False".to_string()));

    // With one both flags do.
    raised.update(&appl_flap_event("Ethernet0", 0, "1"));
    assert!(raised.pending(0));
    raised.schedule_due();
    raised.check();
    assert_eq!(raised.dom_flag("tempHAlarm"), Some("True".to_string()));
    assert_eq!(raised.dom_flag("vccHAlarm"), Some("True".to_string()));
}

#[test]
fn test_link_change_guard_holds_against_spurious_observer_events() {
    let ports = &[("Ethernet0", 0)];
    let mut baseline =
        task_sharing_th(ports, vec![dom_module_flags(false, false)], false, tables());
    baseline.cmis_state("READY");
    baseline.th.asics[0].app_port.hset("Ethernet0", "flap_count", "7");
    baseline.seed_from_db();
    assert!(matches!(baseline.reread(0), LinkChangeReread::Settled));
    assert_eq!(baseline.dom_flag("tempHAlarm"), Some("False".to_string()));

    let mut raised =
        task_sharing_th(ports, vec![dom_module_flags(true, true)], false, baseline.th);
    raised.seed_from_db();

    // The count that is known, and a row without a count.
    raised.update(&appl_flap_event("Ethernet0", 0, "7"));
    raised.update(&event(
        "Ethernet0",
        0,
        PortChangeEventType::PortSet,
        "APPL_DB",
        "PORT_TABLE",
        &[("admin_status", "up")],
    ));
    raised.reconcile();
    raised.republish();
    raised.check();
    assert!(raised.none_pending());
    assert_eq!(raised.dom_flag("tempHAlarm"), Some("False".to_string()));
    assert_eq!(raised.dom_flag("vccHAlarm"), Some("False".to_string()));

    // A flap.
    raised.th.asics[0].app_port.hset("Ethernet0", "flap_count", "8");
    raised.reconcile();
    assert!(raised.pending(0));
}

#[test]
fn test_link_change_transient_dom_read_rearmed_until_giveup() {
    let silent = || dom_module().with_json("get_transceiver_dom_flags", reply("{}"));
    let mut rig = one_port(silent(), false);
    rig.cmis_state("READY");
    assert!(matches!(rig.reread(0), LinkChangeReread::TransientRead));
    assert_eq!(rig.dom_flag("tempHAlarm"), None);

    // Within its time the re-read is kept.
    rig.schedule_due();
    rig.check();
    assert!(rig.pending(0));

    // After it is not.
    rig.hal.sleep(10_000);
    let now = rig.hal.uptime();
    rig.task.schedule_reread(0, PendingReread { fire_at: now, giveup_at: now - 1000 });
    rig.check();
    assert!(rig.none_pending());
}

#[test]
fn test_republish_retries_transient_dom_read_until_module_answers() {
    let ports = &[("Ethernet0", 0)];
    let silent = dom_module().with_json("get_transceiver_dom_flags", reply("{}"));
    let mut transient = task_sharing_th(ports, vec![silent], false, tables());
    transient.cmis_state("READY");
    transient.republish();
    assert_eq!(transient.dom_flag_fields(), 0);

    let mut answered =
        task_sharing_th(ports, vec![dom_module_flags(false, false)], false, transient.th);
    answered.republish();
    assert_eq!(answered.dom_flag("tempHAlarm"), Some("False".to_string()));
}

#[test]
fn test_concurrent_dom_no_crosstalk_per_port_isolation() {
    let ports =
        &[("Ethernet0", 0), ("Ethernet8", 1), ("Ethernet16", 2), ("Ethernet24", 3)];
    let temps = ["30.5", "35.5", "40.5", "45.5"];
    let sfps: Vec<MockSfp> = temps
        .iter()
        .map(|t| dom_module().with_dom_real_value(dom_real_value(t)))
        .collect();

    let mut rig = task_with(ports, sfps, true);
    rig.poll_once();

    for ((lport, _), want) in ports.iter().zip(temps.iter()) {
        let sensor = row_of(&rig.th.asics[0].dom, lport);
        assert_eq!(shown(&sensor, "temperature"), Some(*want), "{lport}");
    }
}

#[test]
fn test_on_port_config_change_add_then_remove_syncs_mapping_and_deletes_rows() {
    let mut rig = task_with(&[], vec![dom_module()], true);
    let one = |k: &str, v: &str| vec![(k.to_string(), v.to_string())];

    let a = &mut rig.th.asics[0];
    a.dom.set("Ethernet0", &one("temperature", "42.5"));
    a.status.set("Ethernet0", &one("module_state", "ModuleReady"));
    a.pm.set("Ethernet0", &one("prefec_ber_avg", "0.0"));
    a.firmware_info.set("Ethernet0", &one("active_firmware", "1.0"));
    a.vdm.real_value.set("Ethernet0", &one("laser_temperature_media1", "38"));
    a.vdm.flags[0].value.set("Ethernet0", &one("x_halarm", "False"));
    // Rows of another task.
    a.intf.set("Ethernet0", &one("type", "QSFP-DD"));
    a.dom_threshold.set("Ethernet0", &one("temphighalarm", "75.0"));

    let add = event("Ethernet0", 1, PortChangeEventType::PortAdd, "CONFIG_DB", "PORT", &[]);
    rig.config_change(&add);
    let m = rig.task.port_mapping();
    assert!(m.logical_port_list().contains(&"Ethernet0".to_string()));
    assert_eq!(m.get_asic_id_for_logical_port("Ethernet0"), Some(0));
    assert_eq!(m.get_physical_to_logical(1), Some(vec!["Ethernet0".to_string()]));
    assert_eq!(m.get_logical_to_physical("Ethernet0"), Some(vec![1]));
    assert_eq!(rig.th.asics[0].dom.get_size_for_key("Ethernet0"), 1);

    let remove =
        event("Ethernet0", 1, PortChangeEventType::PortRemove, "CONFIG_DB", "PORT", &[]);
    rig.config_change(&remove);
    let m = rig.task.port_mapping();
    assert!(m.logical_port_list().is_empty());
    assert_eq!(m.get_asic_id_for_logical_port("Ethernet0"), None);
    assert_eq!(m.get_physical_to_logical(1), None);
    assert_eq!(m.get_logical_to_physical("Ethernet0"), None);

    let a = &rig.th.asics[0];
    let dom_owned = [
        &a.dom,
        &a.status,
        &a.pm,
        &a.firmware_info,
        &a.vdm.real_value,
        &a.vdm.flags[0].value,
    ];
    for tbl in dom_owned {
        assert_eq!(tbl.get_size_for_key("Ethernet0"), 0);
    }
    assert_eq!(a.intf.get_size_for_key("Ethernet0"), 1);
    assert_eq!(a.dom_threshold.get_size_for_key("Ethernet0"), 1);
}

#[test]
fn test_on_port_config_change_add_enters_dom_poll_set() {
    let mut rig = task_with(&[], vec![dom_module()], true);
    rig.poll_once();
    assert_eq!(rig.th.asics[0].dom.get_size_for_key("Ethernet0"), 0);

    let add = event("Ethernet0", 0, PortChangeEventType::PortAdd, "CONFIG_DB", "PORT", &[]);
    rig.config_change(&add);
    rig.poll_once();
    assert_eq!(
        rig.th.asics[0].dom.hget("Ethernet0", "temperature").as_deref(),
        Some("42.5")
    );
}

#[test]
fn removal_of_one_port_leaves_the_rows_of_another() {
    let mut rig = task_with(
        &[("Ethernet0", 0), ("Ethernet8", 1)],
        vec![dom_module(), dom_module()],
        true,
    );
    rig.poll_once();
    rig.config_change(&event(
        "Ethernet0",
        0,
        PortChangeEventType::PortRemove,
        "CONFIG_DB",
        "PORT",
        &[],
    ));
    let a = &rig.th.asics[0];
    assert!(a.dom.get("Ethernet0").is_none() && a.dom_flags.value.get("Ethernet0").is_none());
    assert!(a.dom.get("Ethernet8").is_some() && a.dom_flags.value.get("Ethernet8").is_some());
}

#[test]
fn first_pass_comes_after_an_interval() {
    let mut rig = one_port(dom_module(), true);
    let s = rig.task.start(&vec![], &rig.th, &mut rig.hal);
    let mut s = Some(s);
    while rig.hal.uptime() < 55_000 {
        s = rig.task.step(&mut rig.th, &mut rig.hal, s.unwrap());
    }
    assert!(rig.th.asics[0].dom.get("Ethernet0").is_none());
    while rig.hal.uptime() < 65_000 {
        s = rig.task.step(&mut rig.th, &mut rig.hal, s.unwrap());
    }
    assert!(rig.th.asics[0].dom.get("Ethernet0").is_some());
    rig.hal.set_stop(true);
    assert!(rig.task.step(&mut rig.th, &mut rig.hal, s.unwrap()).is_none());
}

#[test]
fn temperature_task_waits_between_passes() {
    let task = DomThermalInfoUpdateTask::new(mapping_with(&[("Ethernet0", 0)]), 5_000);
    let mut hal = MockHal::with_sfps(vec![
        MockSfp::present().with_json("get_temperature", reply("42.5"))
    ]);
    let mut th = tables();
    let mut next = Some(0);
    for _ in 0..3 {
        next = task.step(&mut th, &mut hal, next.unwrap());
    }
    let polls = hal.call_log(0).into_iter().filter(|m| m == "get_temperature").count();
    assert!(polls >= 1);
    hal.set_stop(true);
    assert!(task.step(&mut th, &mut hal, next.unwrap()).is_none());
}

#[test]
fn ports_on_an_unknown_asic_are_left_alone() {
    let mut m = PortMapping::new();
    m.handle_port_change_event(&PortChangeEvent::new(
        "Ethernet0".to_string(),
        Some(0),
        3,
        PortChangeEventType::PortAdd,
        "CONFIG_DB".to_string(),
        "PORT".to_string(),
    ));
    let mut rig = Rig {
        task: DomInfoUpdateTask::new(m, true, Some(60)),
        th: tables(),
        hal: MockHal::with_sfps(vec![dom_module()]),
    };
    rig.poll_once();
    assert_eq!(rig.th.asics[0].dom.get_size(), 0);
}

#[test]
fn flag_that_moved_is_counted() {
    let ports = &[("Ethernet0", 0)];
    let mut rig = task_sharing_th(ports, vec![dom_module_flags(false, false)], true, tables());
    rig.poll_once();
    let mut rig = task_sharing_th(ports, vec![dom_module_flags(true, false)], true, rig.th);
    rig.hal.set_clock(1_609_459_200);
    rig.poll_once();
    let t = &rig.th.asics[0].dom_flags;
    assert_eq!(t.change_count.hget("Ethernet0", "tempHAlarm"), Some("1".into()));
    assert_eq!(
        t.set_time.hget("Ethernet0", "tempHAlarm"),
        Some("Fri Jan 01 00:00:00 2021".into())
    );
}

#[test]
fn polling_one_port_leaves_the_rows_of_another() {
    let ports = [("Ethernet0", 0), ("Ethernet8", 1)];
    let mut rig = task_with(&ports, vec![vdm_module(), vdm_module()], true);
    rig.poll_once();
    let before = row_of(&rig.th.asics[0].dom, "Ethernet8");
    let flags_before = row_of(&rig.th.asics[0].dom_flags.value, "Ethernet8");

    let hot = vdm_module().with_dom_real_value(dom_real_value("70.5"));
    let mut later = task_sharing_th(&ports, vec![hot, MockSfp::absent()], true, rig.th);
    later.poll_once();
    assert_eq!(
        later.th.asics[0].dom.hget("Ethernet0", "temperature").as_deref(),
        Some("70.5")
    );
    assert_eq!(row_of(&later.th.asics[0].dom, "Ethernet8"), before);
    assert_eq!(row_of(&later.th.asics[0].dom_flags.value, "Ethernet8"), flags_before);
}

#[test]
fn reread_of_one_port_leaves_the_rows_of_another() {
    let ports = [("Ethernet0", 0), ("Ethernet8", 1)];
    let mut rig = task_with(&ports, vec![vdm_module(), vdm_module()], true);
    rig.poll_once();
    let before = row_of(&rig.th.asics[0].dom_flags.value, "Ethernet8");

    let raised = dom_module_flags(true, false);
    let other = dom_module_flags(true, true);
    let mut later = task_sharing_th(&ports, vec![raised, other], true, rig.th);
    assert_eq!(later.reread(0), LinkChangeReread::Settled);
    assert_eq!(later.dom_flag("tempHAlarm").as_deref(), Some("True"));
    assert_eq!(row_of(&later.th.asics[0].dom_flags.value, "Ethernet8"), before);
}

#[test]
fn flags_that_are_there_are_not_read_again_by_the_hook() {
    let mut rig = one_port(dom_module(), false);
    rig.cmis_state("READY");
    rig.republish();
    assert_eq!(rig.dom_flag("tempHAlarm").as_deref(), Some("False"));

    let raised = dom_module_flags(true, true);
    let mut later = task_sharing_th(&[("Ethernet0", 0)], vec![raised], false, rig.th);
    later.schedule_due();
    later.republish();
    assert_eq!(later.dom_flag("tempHAlarm").as_deref(), Some("False"));
    assert!(later.pending(0));
    assert!(later.hal.call_log(0).is_empty());
}

#[test]
fn raised_flag_stays_unseen_until_the_link_flaps() {
    let mut rig = one_port(dom_module(), true);
    rig.poll_once();
    rig.seed_from_db();

    let raised = dom_module_flags(true, false);
    let mut later = task_sharing_th(&[("Ethernet0", 0)], vec![raised], true, rig.th);
    later.reconcile();
    later.republish();
    later.check();
    assert_eq!(later.dom_flag("tempHAlarm").as_deref(), Some("False"));

    later.schedule_due();
    later.check();
    assert_eq!(later.dom_flag("tempHAlarm").as_deref(), Some("True"));
}

#[test]
fn seeding_again_keeps_the_known_flap_counts() {
    let mut rig = one_port(dom_module(), true);
    rig.update(&appl_flap_event("Ethernet0", 0, "1"));
    rig.clear_pending();
    rig.seed_from_db();
    // Still a count that was known; nothing is scheduled.
    rig.update(&appl_flap_event("Ethernet0", 0, "1"));
    assert!(rig.none_pending());
    rig.update(&appl_flap_event("Ethernet0", 0, "2"));
    assert!(rig.pending(0));
}

#[test]
fn pass_leaves_the_rows_of_other_tasks() {
    let mut rig = one_port(vdm_module(), true);
    let row = vec![("temphighalarm".to_string(), "75.0".to_string())];
    rig.th.asics[0].dom_threshold.set("Ethernet0", &row);
    rig.th.asics[0].vdm.thresholds[0].set("Ethernet0", &row);
    rig.th.asics[0].status_sw.hset("Ethernet0", "cmis_state", "READY");
    rig.poll_once();
    let a = &rig.th.asics[0];
    assert_eq!(a.dom_threshold.get("Ethernet0"), Some(row.clone()));
    assert_eq!(a.vdm.thresholds[0].get("Ethernet0"), Some(row));
    assert_eq!(a.status_sw.get_size_for_key("Ethernet0"), 1);
    assert_eq!((a.intf.get_size(), a.dom_temperature.get_size()), (0, 0));
}

#[test]
fn flaps_of_two_subports_schedule_one_reread() {
    let mut rig = task_with(&[("Ethernet0", 0), ("Ethernet1", 0)], vec![dom_module()], true);
    rig.update(&appl_flap_event("Ethernet0", 0, "1"));
    rig.update(&appl_flap_event("Ethernet1", 0, "2"));
    assert!(rig.pending(0));
    rig.task.cancel_reread(0);
    assert!(rig.none_pending());
}

#[test]
fn moved_flag_has_a_count_and_a_time() {
    let mut rig = one_port(dom_module(), true);
    rig.poll_once();
    let mut later = task_sharing_th(
        &[("Ethernet0", 0)],
        vec![dom_module_flags(true, false)],
        true,
        rig.th,
    );
    later.hal.set_clock(86_400);
    later.poll_once();
    let flags = &later.th.asics[0].dom_flags;
    assert_eq!(flags.change_count.hget("Ethernet0", "tempHAlarm").as_deref(), Some("1"));
    assert_eq!(
        flags.set_time.hget("Ethernet0", "tempHAlarm").as_deref(),
        Some("Fri Jan 02 00:00:00 1970")
    );
    assert_eq!(flags.clear_time.hget("Ethernet0", "tempHAlarm").as_deref(), Some("never"));
}

#[test]
fn failed_firmware_read_is_remembered_as_an_empty_reply() {
    let mut rig = one_port(MockSfp::present(), true);
    let mut cache = DbCache::new();
    let mut tbl = MockDbTable::new("TRANSCEIVER_FIRMWARE_INFO");
    rig.task.post_port_sfp_firmware_info_to_db("Ethernet0", &mut tbl, &mut rig.hal, &mut cache);
    assert_eq!(tbl.get_size(), 0);
    let kept = cache.lookup(0).unwrap().unwrap();
    assert_eq!(kept.fields, Some(vec![]));

    let mut cache = DbCache::new();
    let mut pm = MockDbTable::new("TRANSCEIVER_PM");
    rig.task.post_port_pm_info_to_db("Ethernet0", &mut pm, &mut rig.hal, &mut cache);
    assert_eq!(pm.get_size(), 0);
    assert_eq!(cache.lookup(0).unwrap().unwrap().fields, Some(vec![]));
}

#[test]
fn ports_are_listed_in_the_order_of_adding() {
    let mut m = mapping_with(&[("Ethernet8", 2), ("Ethernet0", 0), ("Ethernet4", 1)]);
    assert_eq!(m.logical_port_list(), vec!["Ethernet8", "Ethernet0", "Ethernet4"]);
    let gone = m.config_change("Ethernet8", true, None, 0).unwrap();
    m.handle_port_change_event(&gone);
    assert_eq!(m.logical_port_list(), vec!["Ethernet0", "Ethernet4"]);
    let back = m.config_change("Ethernet8", false, Some(3), 0).unwrap();
    m.handle_port_change_event(&back);
    assert_eq!(m.logical_port_list(), vec!["Ethernet0", "Ethernet4", "Ethernet8"]);
    assert_eq!(m.physical("Ethernet8"), Some(3));
}

#[test]
fn configuration_rows_add_and_remove_ports() {
    let m = mapping_with(&[("Ethernet0", 4)]);
    // Nothing new.
    assert!(m.config_change("Ethernet0", false, Some(4), 0).is_none());
    assert!(m.config_change("Ethernet0", false, None, 0).is_none());
    assert!(m.config_change("Ethernet8", true, None, 0).is_none());
    // Another slot, another port, and a port that is gone.
    let e = m.config_change("Ethernet0", false, Some(5), 1).unwrap();
    assert_eq!(e.event_type, PortChangeEventType::PortAdd);
    assert_eq!((e.physical_port, e.asic_id), (Some(5), 1));
    let e = m.config_change("Ethernet8", false, Some(6), 0).unwrap();
    assert_eq!((e.port_name.as_str(), e.physical_port), ("Ethernet8", Some(6)));
    let e = m.config_change("Ethernet0", true, None, 0).unwrap();
    assert_eq!(e.event_type, PortChangeEventType::PortRemove);
    assert_eq!(e.physical_port, Some(4));
    assert_eq!((e.db_name.as_str(), e.table_name.as_str()), ("CONFIG_DB", "PORT"));
}

#[test]
fn slot_of_a_configuration_row_is_its_index() {
    let row = |v: &str| vec![("lanes".to_string(), "1".to_string()), ("index".to_string(), v.to_string())];
    assert_eq!(slot_in_row(&row("12")), Some(12));
    assert_eq!(slot_in_row(&row("twelve")), None);
    assert_eq!(slot_in_row(&row("-1")), None);
    assert_eq!(slot_in_row(&vec![]), None);
    assert_eq!(value_in(&row("7"), "lanes").as_deref(), Some("1"));
    assert_eq!(value_in(&row("7"), "speed"), None);
}

#[test]
fn ports_and_slots_agree_after_moves() {
    let mut m = mapping_with(&[("Ethernet0", 1), ("Ethernet4", 1), ("Ethernet8", 2)]);
    let moved = m.config_change("Ethernet0", false, Some(2), 0).unwrap();
    m.handle_port_change_event(&moved);
    assert_eq!(m.first_logical(1).as_deref(), Some("Ethernet4"));
    assert_eq!(m.get_physical_to_logical(2), Some(vec!["Ethernet8".into(), "Ethernet0".into()]));
    let moved = m.config_change("Ethernet4", false, Some(2), 0).unwrap();
    m.handle_port_change_event(&moved);
    assert_eq!(m.slots(), vec![2]);
    for name in m.logical_port_list() {
        let slot = m.physical(&name).unwrap();
        assert!(m.get_physical_to_logical(slot).unwrap().contains(&name));
    }
}
