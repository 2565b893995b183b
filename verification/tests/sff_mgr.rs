use xcvrd::db::DbTable;
use xcvrd::mock::MockDbTable;
use xcvrd::mock_hal::{MockHal, MockSfp};
use xcvrd::mock_sff::{MockSffApi, MockSffFactory};
use xcvrd::port::{PortChangeEvent, PortChangeEventType};
use xcvrd::sff_api::{
    BridgeSffApi, SffApi, SFF_DEVICE_TECH_OFFSET, SFF_HIGH_POWER_CLASS_5_7_BIT,
    SFF_HIGH_POWER_CLASS_8_BIT, SFF_LPMODE_HP_CTRL_OFFSET, SFF_OPTIONS_OFFSET,
    SFF_POWER_CLASS_OFFSET, SFF_TX_DISABLE_OFFSET,
};
use xcvrd::sff_mgr::{SffManagerTask, SffPortInfo};
use xcvrd::tables::XcvrTableHelper;

fn helper() -> XcvrTableHelper<MockDbTable> {
    XcvrTableHelper::<MockDbTable>::with_mock_tables()
}

fn one_module() -> MockHal {
    MockHal::with_sfps(vec![MockSfp::present()])
}

fn ev(
    name: &str,
    phys: Option<usize>,
    et: PortChangeEventType,
    db: &str,
    tbl: &str,
    dict: &[(&str, &str)],
) -> PortChangeEvent {
    PortChangeEvent::new(name.to_string(), phys, 0, et, db.to_string(), tbl.to_string())
        .with_port_dict(dict.iter().map(|(k, v)| (k.to_string(), v.to_string())).collect())
}

#[test]
fn test_get_active_lanes_for_lport() {
    let task = SffManagerTask::new();
    let lp = "Ethernet0";
    assert_eq!(
        task.get_active_lanes_for_lport(lp, 3, 1, 4),
        Some(vec![false, false, true, false])
    );
    assert_eq!(
        task.get_active_lanes_for_lport(lp, 1, 2, 4),
        Some(vec![true, true, false, false])
    );
    assert_eq!(
        task.get_active_lanes_for_lport(lp, 2, 2, 4),
        Some(vec![false, false, true, true])
    );
    assert_eq!(
        task.get_active_lanes_for_lport(lp, 0, 4, 4),
        Some(vec![true, true, true, true])
    );
    let mut expected = vec![false; 32];
    for e in expected.iter_mut().take(4) {
        *e = true;
    }
    assert_eq!(task.get_active_lanes_for_lport(lp, 1, 4, 32), Some(expected));
}

#[test]
fn test_get_active_lanes_for_lport_with_invalid_input() {
    let task = SffManagerTask::new();
    let lp = "Ethernet0";
    assert_eq!(task.get_active_lanes_for_lport(lp, -1, 4, 32), None);
    assert_eq!(task.get_active_lanes_for_lport(lp, 5, 1, 4), None);
}

#[test]
fn test_get_host_tx_status() {
    let mut th = helper();
    th.asics[0].state_port.hset("Ethernet0", "host_tx_ready", "true");
    let task = SffManagerTask::new();
    assert_eq!(task.get_host_tx_status("Ethernet0", 0, &th), "true");
    assert_eq!(task.get_host_tx_status("Ethernet4", 0, &th), "false");
}

#[test]
fn test_get_admin_status() {
    let mut th = helper();
    th.asics[0].cfg_port.hset("Ethernet0", "admin_status", "up");
    let task = SffManagerTask::new();
    assert_eq!(task.get_admin_status("Ethernet0", 0, &th), "up");
    assert_eq!(task.get_admin_status("Ethernet4", 0, &th), "down");
}

#[test]
fn test_enable_high_power_class() {
    let mut api = MockSffApi::new();
    let task = SffManagerTask::new();
    let lp = "Ethernet0";

    // Class 5, and the module takes it.
    api.set_power_class(Some(5));
    api.set_high_power_class_result(Some(true));
    task.enable_high_power_class(&mut api, lp);
    assert_eq!(api.call_count("get_power_class"), 1);
    assert_eq!(api.call_count("set_high_power_class"), 1);

    // The class cannot be read.
    api.set_power_class(None);
    task.enable_high_power_class(&mut api, lp);
    assert_eq!(api.call_count("get_power_class"), 2);
    assert_eq!(api.call_count("set_high_power_class"), 1);

    // Class 4 needs nothing.
    api.set_power_class(Some(4));
    task.enable_high_power_class(&mut api, lp);
    assert_eq!(api.call_count("get_power_class"), 3);
    assert_eq!(api.call_count("set_high_power_class"), 1);

    // Class 5, and the module refuses.
    api.set_power_class(Some(5));
    api.set_high_power_class_result(Some(false));
    task.enable_high_power_class(&mut api, lp);
    assert_eq!(api.call_count("get_power_class"), 4);
    assert_eq!(api.call_count("set_high_power_class"), 2);

    // Class 5, and the module does not know how.
    api.set_power_class(Some(5));
    api.set_high_power_class_result(None);
    task.enable_high_power_class(&mut api, lp);
    assert_eq!(api.call_count("get_power_class"), 5);
    assert_eq!(api.call_count("set_high_power_class"), 3);
}

#[test]
fn test_handle_port_change_event() {
    let mut task = SffManagerTask::new();

    // Names that are no front panel ports.
    task.on_port_update_event(&ev("PortConfigDone", None, PortChangeEventType::PortSet, "", "", &[]));
    assert_eq!(task.port_count(), 0);
    task.on_port_update_event(&ev("PortInitDone", None, PortChangeEventType::PortSet, "", "", &[]));
    assert_eq!(task.port_count(), 0);

    // Changes of the configuration are not taken in.
    task.on_port_update_event(&ev("Ethernet0", Some(1), PortChangeEventType::PortAdd, "", "", &[]));
    assert_eq!(task.port_count(), 0);
    task.on_port_update_event(&ev("Ethernet0", Some(1), PortChangeEventType::PortRemove, "", "", &[]));
    assert_eq!(task.port_count(), 0);

    // The deletion of a row of some other table.
    task.on_port_update_event(&ev("Ethernet0", Some(1), PortChangeEventType::PortDel, "", "", &[]));
    assert_eq!(task.port_count(), 0);

    // A row that is written makes the port known.
    task.on_port_update_event(&ev(
        "Ethernet0",
        Some(1),
        PortChangeEventType::PortSet,
        "",
        "",
        &[("type", "QSFP28"), ("subport", "0"), ("host_tx_ready", "false")],
    ));
    assert_eq!(task.port_count(), 1);

    // The module is gone, the port is not.
    task.on_port_update_event(&ev(
        "Ethernet0",
        None,
        PortChangeEventType::PortDel,
        "STATE_DB",
        "TRANSCEIVER_INFO",
        &[],
    ));
    assert_eq!(task.port_count(), 1);
    assert!(task.port_info("Ethernet0").unwrap().xcvr_type.is_none());

    // The port is gone.
    task.on_port_update_event(&ev(
        "Ethernet0",
        Some(1),
        PortChangeEventType::PortDel,
        "CONFIG_DB",
        "PORT_TABLE",
        &[],
    ));
    assert_eq!(task.port_count(), 0);
}

/// A task with one port, its tables, its slot and the module's interface.
fn tw_task(
    api: MockSffApi,
    present: bool,
    host_tx_ready: &str,
    admin_status: &str,
) -> (SffManagerTask, XcvrTableHelper<MockDbTable>, MockHal, MockSffFactory) {
    let mut th = helper();
    th.asics[0].state_port.hset("Ethernet0", "host_tx_ready", host_tx_ready);
    th.asics[0].cfg_port.hset("Ethernet0", "admin_status", admin_status);
    let sfp = if present { MockSfp::present() } else { MockSfp::absent() };
    let hal = MockHal::with_sfps(vec![sfp]);
    let mut factory = MockSffFactory::new();
    factory.put(0, api);
    let mut task = SffManagerTask::new();
    seed_insert(&mut task);
    (task, th, hal, factory)
}

fn seed_insert(task: &mut SffManagerTask) {
    task.on_port_update_event(&ev(
        "Ethernet0",
        Some(0),
        PortChangeEventType::PortSet,
        "CONFIG_DB",
        "PORT",
        &[("type", "QSFP28"), ("subport", "0"), ("lanes", "1,2,3,4")],
    ));
}

#[test]
fn test_task_worker_tx_enable() {
    let mut api = MockSffApi::new();
    api.set_tx_disable(Some(vec![true, true, true, true]));
    let (mut task, th, mut hal, mut factory) = tw_task(api, true, "true", "up");
    task.process_ports_once(&th, &mut hal, &mut factory);
    let api = factory.at(0).unwrap();
    assert_eq!(api.call_count("tx_disable_channel"), 1);
    assert_eq!(api.tx_disable_channel_args(), vec![(0xF, false)]);
}

#[test]
fn test_task_worker_tx_disable() {
    let mut api = MockSffApi::new();
    api.set_tx_disable(Some(vec![false, false, false, false]));
    let (mut task, th, mut hal, mut factory) = tw_task(api, true, "false", "up");
    task.process_ports_once(&th, &mut hal, &mut factory);
    let api = factory.at(0).unwrap();
    assert_eq!(api.call_count("tx_disable_channel"), 1);
    assert_eq!(api.tx_disable_channel_args(), vec![(0xF, true)]);
}

#[test]
fn test_task_worker_no_change() {
    let mut api = MockSffApi::new();
    api.set_tx_disable(Some(vec![true, true, true, true]));
    let (mut task, th, mut hal, mut factory) = tw_task(api, true, "true", "up");
    task.process_ports_once(&th, &mut hal, &mut factory);
    assert_eq!(factory.at(0).unwrap().call_count("tx_disable_channel"), 1);
    // Nothing has changed since.
    task.process_ports_once(&th, &mut hal, &mut factory);
    assert_eq!(factory.at(0).unwrap().call_count("tx_disable_channel"), 1);
    assert_eq!(task.port_count(), 1);
    assert!(task.port_info("Ethernet0").is_some());
    assert_eq!(task.port_info("Ethernet0"), task.port_info_prev("Ethernet0"));
}

#[test]
fn test_task_worker_mask_zero() {
    let mut api = MockSffApi::new();
    api.set_tx_disable(Some(vec![false, false, false, false]));
    let (mut task, th, mut hal, mut factory) = tw_task(api, true, "true", "up");
    task.process_ports_once(&th, &mut hal, &mut factory);
    assert_eq!(factory.at(0).unwrap().call_count("tx_disable_channel"), 0);
}

#[test]
fn test_task_worker_copper_skip() {
    let mut api = MockSffApi::new();
    api.set_is_copper(Some(true));
    let (mut task, th, mut hal, mut factory) = tw_task(api, true, "true", "up");
    task.process_ports_once(&th, &mut hal, &mut factory);
    let api = factory.at(0).unwrap();
    assert_eq!(api.call_count("is_copper"), 1);
    assert_eq!(api.call_count("tx_disable_channel"), 0);
}

#[test]
fn test_task_worker_tx_disable_not_supported() {
    let mut api = MockSffApi::new();
    api.set_tx_disable_support(Some(false));
    let (mut task, th, mut hal, mut factory) = tw_task(api, true, "true", "up");
    task.process_ports_once(&th, &mut hal, &mut factory);
    let api = factory.at(0).unwrap();
    assert_eq!(api.call_count("get_tx_disable_support"), 1);
    assert_eq!(api.call_count("tx_disable_channel"), 0);
}

#[test]
fn test_task_worker_module_not_present() {
    let (mut task, th, mut hal, mut factory) = tw_task(MockSffApi::new(), false, "true", "up");
    task.process_ports_once(&th, &mut hal, &mut factory);
    assert_eq!(factory.at(0).unwrap().call_count("tx_disable_channel"), 0);
    assert!(task.port_info("Ethernet0").unwrap().xcvr_type.is_none());
}

#[test]
fn test_task_worker_xcvr_api_none() {
    let mut th = helper();
    th.asics[0].state_port.hset("Ethernet0", "host_tx_ready", "true");
    th.asics[0].cfg_port.hset("Ethernet0", "admin_status", "up");
    let mut task = SffManagerTask::new();
    seed_insert(&mut task);
    task.process_ports_once(&th, &mut one_module(), &mut MockSffFactory::new());
    let info = task.port_info("Ethernet0");
    assert!(info.is_some());
    assert!(info.unwrap().xcvr_type.is_some());
}

#[test]
fn test_task_worker_lpmode_disabled_on_bringup() {
    let mut api = MockSffApi::new();
    api.set_lpmode_support(true);
    api.set_lpmode_result(false);
    api.set_power_class(Some(1));
    api.set_tx_disable(Some(vec![true, true, true, true]));
    let (mut task, th, mut hal, mut factory) = tw_task(api, true, "true", "up");
    task.process_ports_once(&th, &mut hal, &mut factory);
    let api = factory.at(0).unwrap();
    assert_eq!(api.call_count("set_lpmode"), 1);
    assert_eq!(api.set_lpmode_args(), vec![false]);
    // The failure does not keep the lanes from being driven.
    assert_eq!(api.call_count("tx_disable_channel"), 1);
}

#[test]
fn test_task_worker_high_power_class_enabled() {
    let mut api = MockSffApi::new();
    api.set_power_class(Some(5));
    api.set_high_power_class_result(Some(true));
    api.set_tx_disable(Some(vec![true, true, true, true]));
    let (mut task, th, mut hal, mut factory) = tw_task(api, true, "true", "up");
    task.process_ports_once(&th, &mut hal, &mut factory);
    let api = factory.at(0).unwrap();
    assert_eq!(api.call_count("get_power_class"), 1);
    assert_eq!(api.call_count("set_high_power_class"), 1);
}

fn bridge_with_ext_id(ext_id: u8) -> BridgeSffApi<MockSfp> {
    BridgeSffApi::new(MockSfp::present().with_eeprom(SFF_POWER_CLASS_OFFSET, ext_id))
}

#[test]
fn test_bridge_get_power_class_decode() {
    assert_eq!(bridge_with_ext_id(0x00).get_power_class(), Some(1));
    assert_eq!(bridge_with_ext_id(0x40).get_power_class(), Some(2));
    assert_eq!(bridge_with_ext_id(0x80).get_power_class(), Some(3));
    assert_eq!(bridge_with_ext_id(0xC0).get_power_class(), Some(4));
    assert_eq!(bridge_with_ext_id(0xC1).get_power_class(), Some(5));
    assert_eq!(bridge_with_ext_id(0xC2).get_power_class(), Some(6));
    assert_eq!(bridge_with_ext_id(0xC3).get_power_class(), Some(7));
    assert_eq!(bridge_with_ext_id(0xC4).get_power_class(), Some(8));
    // The byte cannot be read.
    assert_eq!(BridgeSffApi::new(MockSfp::present()).get_power_class(), None);
}

#[test]
fn test_bridge_set_high_power_class_registers() {
    let off = SFF_LPMODE_HP_CTRL_OFFSET;

    // Classes 5 to 7 have one bit.
    let mut api = BridgeSffApi::new(MockSfp::present().with_eeprom(off, 0x00));
    assert_eq!(api.set_high_power_class(5, true), Some(true));
    assert_eq!(
        api.into_sfp().eeprom_writes(),
        vec![(off, vec![SFF_HIGH_POWER_CLASS_5_7_BIT])]
    );

    // The other bits of the byte stay.
    let mut api = BridgeSffApi::new(MockSfp::present().with_eeprom(off, 0x01));
    assert_eq!(api.set_high_power_class(5, true), Some(true));
    assert_eq!(
        api.into_sfp().eeprom_writes(),
        vec![(off, vec![0x01 | SFF_HIGH_POWER_CLASS_5_7_BIT])]
    );

    // Class 8 has a bit of its own besides.
    let mut api = BridgeSffApi::new(MockSfp::present().with_eeprom(off, 0x00));
    assert_eq!(api.set_high_power_class(8, true), Some(true));
    assert_eq!(
        api.into_sfp().eeprom_writes(),
        vec![(off, vec![SFF_HIGH_POWER_CLASS_5_7_BIT | SFF_HIGH_POWER_CLASS_8_BIT])]
    );

    // Both are cleared, the rest stays.
    let mut api = BridgeSffApi::new(MockSfp::present().with_eeprom(off, 0xFF));
    assert_eq!(api.set_high_power_class(5, false), Some(true));
    assert_eq!(
        api.into_sfp().eeprom_writes(),
        vec![(off, vec![0xFF & !(SFF_HIGH_POWER_CLASS_5_7_BIT | SFF_HIGH_POWER_CLASS_8_BIT)])]
    );
}

#[test]
fn test_enable_high_power_class_via_bridge_class8_sets_00h93_bit2() {
    let task = SffManagerTask::new();
    let mock = MockSfp::present()
        .with_eeprom(SFF_POWER_CLASS_OFFSET, 0xC4)
        .with_eeprom(SFF_LPMODE_HP_CTRL_OFFSET, 0x00);
    let mut api = BridgeSffApi::new(mock);
    task.enable_high_power_class(&mut api, "Ethernet0");
    let w = api.into_sfp().eeprom_writes();
    assert!(
        w.iter().any(|(off, data)| *off == SFF_LPMODE_HP_CTRL_OFFSET
            && !data.is_empty()
            && data[0] & SFF_HIGH_POWER_CLASS_5_7_BIT != 0),
        "the high power class is not enabled; writes={w:?}"
    );
}

#[test]
fn test_enable_high_power_class_via_bridge_class4_noop() {
    let task = SffManagerTask::new();
    let mock = MockSfp::present()
        .with_eeprom(SFF_POWER_CLASS_OFFSET, 0xC0)
        .with_eeprom(SFF_LPMODE_HP_CTRL_OFFSET, 0x00);
    let mut api = BridgeSffApi::new(mock);
    task.enable_high_power_class(&mut api, "Ethernet0");
    assert!(
        api.into_sfp().eeprom_writes().is_empty(),
        "a module of class 4 must be left alone"
    );
}

#[test]
fn lanes_are_disabled_one_by_one() {
    let off = SFF_TX_DISABLE_OFFSET;
    let mut api = BridgeSffApi::new(MockSfp::present().with_eeprom(off, 0b1010_0001));
    assert_eq!(api.get_tx_disable(), Some(vec![true, false, false, false]));
    assert!(api.tx_disable_channel(0b0110, true));
    assert_eq!(api.into_sfp().eeprom_writes(), vec![(off, vec![0b1010_0111])]);

    let mut api = BridgeSffApi::new(MockSfp::present().with_eeprom(off, 0b1010_1111));
    assert!(api.tx_disable_channel(0b0110, false));
    assert_eq!(api.into_sfp().eeprom_writes(), vec![(off, vec![0b1010_1001])]);
}

#[test]
fn unreadable_registers_have_defaults() {
    let mut api = BridgeSffApi::new(MockSfp::present());
    assert_eq!(api.is_copper(), Some(false));
    assert_eq!(api.get_tx_disable_support(), Some(false));
    assert_eq!(api.get_tx_disable(), None);
    assert_eq!(api.get_power_class(), None);
    assert!(api.tx_disable_channel(0xF, true));
    assert_eq!(api.set_high_power_class(5, true), Some(true));
    assert_eq!(
        api.into_sfp().eeprom_writes(),
        vec![
            (SFF_TX_DISABLE_OFFSET, vec![0x0F]),
            (SFF_LPMODE_HP_CTRL_OFFSET, vec![SFF_HIGH_POWER_CLASS_5_7_BIT]),
        ]
    );
}

#[test]
fn copper_and_support_are_read_from_their_registers() {
    let copper = |b: u8| {
        BridgeSffApi::new(MockSfp::present().with_eeprom(SFF_DEVICE_TECH_OFFSET, b)).is_copper()
    };
    assert_eq!(copper(0xA0), Some(true));
    assert_eq!(copper(0x40), Some(false));
    let support = |b: u8| {
        BridgeSffApi::new(MockSfp::present().with_eeprom(SFF_OPTIONS_OFFSET, b))
            .get_tx_disable_support()
    };
    assert_eq!(support(0x10), Some(true));
    assert_eq!(support(0xEF), Some(false));
}

#[test]
fn changed_lanes_are_the_owned_ones_that_differ() {
    let task = SffManagerTask::new();
    let delta = task.calculate_tx_disable_delta_array(
        &vec![true, false, true, false],
        true,
        &vec![true, true, false, false],
    );
    assert_eq!(delta, vec![false, true, false, false]);
    assert_eq!(task.convert_bool_array_to_bit_mask(&delta), 0b0010);
    assert_eq!(task.convert_bool_array_to_bit_mask(&vec![true, false, true, true]), 0b1101);
}

#[test]
fn cmis_module_is_not_touched() {
    let mut api = MockSffApi::new();
    api.set_is_cmis(true);
    let (mut task, th, mut hal, mut factory) = tw_task(api, true, "true", "up");
    task.process_ports_once(&th, &mut hal, &mut factory);
    let api = factory.at(0).unwrap();
    assert_eq!(api.call_count("is_cmis"), 1);
    assert_eq!(api.call_count("get_tx_disable"), 0);
    assert_eq!(api.call_count("tx_disable_channel"), 0);
}

#[test]
fn unknown_port_has_no_information() {
    let info = SffPortInfo::default();
    assert_eq!(info.asic_id, 0);
    assert_eq!(info.index, None);
    assert_eq!(info.xcvr_type, None);
    assert_eq!(SffManagerTask::new().port_info("Ethernet0"), None);
}

#[test]
fn round_waits_for_updates_and_serves_them() {
    let mut api = MockSffApi::new();
    api.set_tx_disable(Some(vec![true, true, true, true]));
    let (_, th, mut hal, mut factory) = tw_task(api, true, "true", "up");
    let mut task = SffManagerTask::new();
    hal.push_port_updates(vec![ev(
        "Ethernet0",
        Some(0),
        PortChangeEventType::PortSet,
        "CONFIG_DB",
        "PORT",
        &[("type", "QSFP28"), ("subport", "0"), ("lanes", "1,2,3,4")],
    )]);
    assert!(task.step(&th, &mut hal, &mut factory));
    assert_eq!(factory.at(0).unwrap().tx_disable_channel_args(), vec![(0xF, false)]);
    // Nothing delivers updates any more.
    assert!(!task.step(&th, &mut hal, &mut factory));

    hal.push_port_updates(vec![]);
    hal.push_port_updates(vec![]);
    hal.set_stop(true);
    assert!(!task.step(&th, &mut hal, &mut factory));
    hal.set_stop(false);
    assert!(task.step(&th, &mut hal, &mut factory));
}

#[test]
fn refused_lane_change_is_asked_for_once_in_a_round() {
    let mut api = MockSffApi::new();
    api.set_tx_disable(Some(vec![true, true, true, true]));
    api.set_tx_disable_channel_result(false);
    let (mut task, th, mut hal, mut factory) = tw_task(api, true, "true", "up");
    task.process_ports_once(&th, &mut hal, &mut factory);
    assert_eq!(factory.at(0).unwrap().tx_disable_channel_args(), vec![(0xF, false)]);
}

#[test]
fn only_the_lanes_that_stand_wrong_are_switched() {
    let mut api = MockSffApi::new();
    api.set_tx_disable(Some(vec![true, false, true, false]));
    let (mut task, th, mut hal, mut factory) = tw_task(api, true, "true", "up");
    task.process_ports_once(&th, &mut hal, &mut factory);
    assert_eq!(factory.at(0).unwrap().tx_disable_channel_args(), vec![(0b0101, false)]);

    // A port that is down has its lanes switched off.
    let mut api = MockSffApi::new();
    api.set_tx_disable(Some(vec![true, false, true, false]));
    let (mut task, th, mut hal, mut factory) = tw_task(api, true, "true", "down");
    task.process_ports_once(&th, &mut hal, &mut factory);
    assert_eq!(factory.at(0).unwrap().tx_disable_channel_args(), vec![(0b1010, true)]);
}

#[test]
fn second_round_in_a_quiet_world_controls_nothing() {
    let mut api = MockSffApi::new();
    api.set_lpmode_support(true);
    api.set_lpmode_result(true);
    api.set_power_class(Some(5));
    api.set_high_power_class_result(Some(true));
    api.set_tx_disable(Some(vec![true, true, true, true]));
    let (mut task, th, mut hal, mut factory) = tw_task(api, true, "true", "up");
    let control = ["set_lpmode", "set_high_power_class", "tx_disable_channel", "get_tx_disable"];
    let counts = |f: &MockSffFactory| -> Vec<usize> {
        control.iter().map(|c| f.at(0).unwrap().call_count(c)).collect()
    };
    task.process_ports_once(&th, &mut hal, &mut factory);
    assert_eq!(counts(&factory), vec![1, 1, 1, 1]);
    task.process_ports_once(&th, &mut hal, &mut factory);
    assert_eq!(counts(&factory), vec![1, 1, 1, 1]);
}

#[test]
fn subports_own_runs_of_lanes() {
    let task = SffManagerTask::new();
    let owned = |s: i64| task.get_active_lanes_for_lport("Ethernet0", s, 3, 8);
    let runs: Vec<Vec<bool>> = (1..=2).map(|s| owned(s).unwrap()).collect();
    assert_eq!(runs[0], vec![true, true, true, false, false, false, false, false]);
    assert_eq!(runs[1], vec![false, false, false, true, true, true, false, false]);
    assert_eq!(owned(0), Some(vec![true; 8]));
    assert_eq!(owned(3), None);
}

#[test]
fn one_port_is_gone_through_alone() {
    let mut api = MockSffApi::new();
    api.set_tx_disable(Some(vec![true, true, false, false]));
    let (mut task, th, mut hal, mut factory) = tw_task(api, true, "true", "up");
    task.process_single_lport("Ethernet0", &th, &mut hal, &mut factory);
    assert_eq!(factory.at(0).unwrap().tx_disable_channel_args(), vec![(0b0011, false)]);
    // What the last sweep left is not touched.
    assert_eq!(task.port_info_prev("Ethernet0"), None);
}
