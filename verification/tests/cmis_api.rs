use xcvrd::cmis::advert::{advert_field_u32, member_as_u32, py_repr_to_json, quote_int_keys, rewrite_repr};
use xcvrd::cmis::cmis_api::{
    cmis_linear, dp_path_timing_ms, json_as_u32, BridgeCmisApi, CmisApi, ACS_DPCONFIG_BASE_OFFSET,
    ACS_PAGE, APPLY_DPINIT_OFFSET, CCMIS_CFG_SUPPORT_PAGE, CMIS_FLAT_MEM_LINEAR, CMIS_REV_LINEAR,
    DPCONFIG_BASE_OFFSET, DPDEINIT_OFFSET, DP_INIT_DEINIT_OFFSET, DP_TX_TURN_OFFSET,
    DURATIONS_PAGE, FREQ_BASE_GHZ, GRID_75GHZ_CODE, GRID_SPACING_OFFSET, HIGH_CHANNEL_OFFSET,
    LASER_CONFIG_CHANNEL_OFFSET, LOW_CHANNEL_OFFSET, MAX_PROG_POWER_OFFSET, MIN_PROG_POWER_OFFSET,
    MODULE_PWR_OFFSET, OUTPUT_DISABLE_TX_OFFSET, SCS0_PAGE, SI_ADV_RX_CDR_OFFSET,
    SI_CDR_ENABLE_RX_OFFSET, SI_FIXED_INPUT_EQ_TARGET_TX_OFFSET, SUPPORT_GRID_OFFSET,
    TUNABLE_LASER_PAGE, TX_CONFIG_POWER_OFFSET,
};
use xcvrd::cmis::mock_cmis::MockCmisApi;
use xcvrd::error::XcvrdError;
use xcvrd::json::{Fields, Nested, Number, Reply, Value};
use xcvrd::mock_hal::MockSfp;

fn value_of(v: &serde_json::Value) -> Value {
    match v {
        serde_json::Value::Null => Value::Null,
        serde_json::Value::Bool(b) => Value::Bool(*b),
        serde_json::Value::Number(n) => Value::Number(Number {
            text: n.to_string(),
            zero: n.as_f64() == Some(0.0),
            unsigned: n.as_u64(),
        }),
        serde_json::Value::String(s) => Value::Str(s.clone()),
        serde_json::Value::Array(a) => {
            Value::Nested(Nested { text: v.to_string(), empty: a.is_empty() })
        }
        serde_json::Value::Object(m) => {
            Value::Nested(Nested { text: v.to_string(), empty: m.is_empty() })
        }
    }
}

/// The reply that a JSON text stands for.
fn reply(text: &str) -> Reply {
    let v: serde_json::Value = serde_json::from_str(text).unwrap();
    Reply {
        value: value_of(&v),
        fields: v
            .as_object()
            .map(|m| m.iter().map(|(k, v)| (k.clone(), value_of(v))).collect()),
    }
}

fn fields(text: &str) -> Fields {
    reply(text).fields.unwrap()
}

fn number_in(f: &Fields, name: &str) -> Option<u64> {
    match f.iter().find(|(k, _)| k == name) {
        Some((_, Value::Number(n))) => n.unsigned,
        _ => None,
    }
}

#[test]
fn py_repr_to_json_parses_advertisement() {
    let s = "{1: {'host_electrical_interface_id': '400GAUI-8 C2M (Annex 120E)', \
             'host_lane_count': 8, 'media_lane_count': 4, 'host_lane_assignment_options': 1}, \
             2: {'host_electrical_interface_id': 'CAUI-4 C2M (Annex 83E)', 'host_lane_count': 4, \
             'media_lane_count': 4, 'host_lane_assignment_options': 17}}";
    let text = py_repr_to_json(s).expect("parse");
    let v: serde_json::Value = serde_json::from_str(&text).unwrap();
    assert_eq!(v["1"]["host_lane_count"], serde_json::Value::from(8));
    assert_eq!(
        v["1"]["host_electrical_interface_id"],
        serde_json::Value::from("400GAUI-8 C2M (Annex 120E)")
    );
    assert_eq!(v["2"]["host_lane_assignment_options"], serde_json::Value::from(17));
}

#[test]
fn cmis_linear_matches_optoe_inverse() {
    assert_eq!(cmis_linear(SCS0_PAGE, DPDEINIT_OFFSET), 2176);
    assert_eq!(cmis_linear(SCS0_PAGE, OUTPUT_DISABLE_TX_OFFSET), 2178);
    assert_eq!(cmis_linear(SCS0_PAGE, APPLY_DPINIT_OFFSET), 2191);
    assert_eq!(cmis_linear(SCS0_PAGE, DPCONFIG_BASE_OFFSET), 2193);
    assert_eq!(cmis_linear(ACS_PAGE, ACS_DPCONFIG_BASE_OFFSET), 2382);
    assert_eq!(cmis_linear(0, 26), 26);
}

#[test]
fn bridge_active_apsel_reads_acs_register_upper_nibble() {
    let base = cmis_linear(ACS_PAGE, ACS_DPCONFIG_BASE_OFFSET);
    let mut sfp = MockSfp::present();
    for lane in 0..4u8 {
        sfp = sfp.with_eeprom(base + lane as usize, 0x10 | (lane << 1));
    }
    let mut api = BridgeCmisApi::new(sfp);

    let apsel = api.get_active_apsel_hostlane().expect("acs read");
    assert_eq!(number_in(&apsel, "ActiveAppSelLane1"), Some(1));
    assert_eq!(number_in(&apsel, "ActiveAppSelLane4"), Some(1));
    // A lane that cannot be read has no application.
    assert_eq!(number_in(&apsel, "ActiveAppSelLane5"), Some(0));
    assert_eq!(number_in(&apsel, "ActiveAppSelLane8"), Some(0));
    assert_eq!(api.get_application(0), 1);
    assert_eq!(api.get_application(3), 1);
    assert_eq!(api.get_application(4), 0);
}

#[test]
fn mock_counts_calls_and_pops_sequenced_apsel() {
    let mut api = MockCmisApi::new();
    assert!(api.set_datapath_deinit(0xff));
    assert!(api.set_datapath_deinit(0xff));
    assert_eq!(api.call_count("set_datapath_deinit"), 2);

    api.set_active_apsel(fields(r#"{"ActiveAppSelLane1": 1}"#));
    api.push_active_apsel_result(Ok(fields(r#"{"ActiveAppSelLane1": 2}"#)));
    api.push_active_apsel_result(Err(XcvrdError::Other("not implemented".into())));
    // What is queued comes first.
    let first = api.get_active_apsel_hostlane().unwrap();
    assert_eq!(number_in(&first, "ActiveAppSelLane1"), Some(2));
    assert!(api.get_active_apsel_hostlane().is_err());
    let third = api.get_active_apsel_hostlane().unwrap();
    assert_eq!(number_in(&third, "ActiveAppSelLane1"), Some(1));
}

#[test]
fn bridge_durations_decode_page01h_via_dp_path_timings() {
    let paged = |sfp: MockSfp| sfp.with_status(reply(r#"{"module_state": "ModuleReady"}"#));
    let dpinit_deinit = cmis_linear(DURATIONS_PAGE, DP_INIT_DEINIT_OFFSET);
    let pwr = cmis_linear(DURATIONS_PAGE, MODULE_PWR_OFFSET);
    let tx = cmis_linear(DURATIONS_PAGE, DP_TX_TURN_OFFSET);
    assert_eq!((dpinit_deinit, pwr, tx), (272, 295, 296));

    let sfp = paged(MockSfp::present())
        .with_eeprom(dpinit_deinit, 0x07)
        .with_eeprom(pwr, 0x00)
        .with_eeprom(tx, 0x00);
    let mut api = BridgeCmisApi::new(sfp);
    assert_eq!(api.get_datapath_init_duration(), 5000);
    assert_eq!(api.get_datapath_deinit_duration(), 1);
    assert_eq!(api.get_datapath_tx_turnon_duration(), 1);
    assert_eq!(api.get_datapath_tx_turnoff_duration(), 1);
    assert_eq!(api.get_module_pwr_up_duration(), 1);
    assert_eq!(api.get_module_pwr_down_duration(), 1);

    // A short initialisation time counts ten times.
    let sfp2 = paged(MockSfp::present())
        .with_eeprom(dpinit_deinit, 0x63)
        .with_eeprom(tx, 0x9A);
    let mut api2 = BridgeCmisApi::new(sfp2);
    assert_eq!(api2.get_datapath_init_duration(), 500);
    assert_eq!(api2.get_datapath_deinit_duration(), 1000);
    assert_eq!(api2.get_datapath_tx_turnon_duration(), 300000);
    assert_eq!(api2.get_datapath_tx_turnoff_duration(), 60000);

    // Registers that cannot be read.
    let mut api3 = BridgeCmisApi::new(paged(MockSfp::present()));
    assert_eq!(api3.get_datapath_deinit_duration(), 0);
    assert_eq!(api3.get_datapath_init_duration(), 0);

    // Flat memory.
    let mut api4 = BridgeCmisApi::new(MockSfp::present().with_eeprom(dpinit_deinit, 0x07));
    assert!(api4.is_flat_memory());
    assert_eq!(api4.get_datapath_init_duration(), 0);
    assert_eq!(api4.get_datapath_deinit_duration(), 0);
}

fn seed_i16_be(sfp: MockSfp, linear: usize, val: i16) -> MockSfp {
    let b = val.to_be_bytes();
    sfp.with_eeprom(linear, b[0]).with_eeprom(linear + 1, b[1])
}

#[test]
fn bridge_is_coherent_from_supported_max_laser_freq_marker() {
    let mut coherent = BridgeCmisApi::new(
        MockSfp::present().with_info(reply(r#"{"supported_max_laser_freq": 195600}"#)),
    );
    assert!(coherent.is_coherent_module());

    let mut plain = BridgeCmisApi::new(
        MockSfp::present().with_info(reply(r#"{"manufacturer": "ACME"}"#)),
    );
    assert!(!plain.is_coherent_module());
}

#[test]
fn bridge_coherent_getters_decode_page04h_and_page12h() {
    let mut sfp = MockSfp::present();
    sfp = sfp.with_eeprom(cmis_linear(CCMIS_CFG_SUPPORT_PAGE, SUPPORT_GRID_OFFSET), 0x80);
    sfp = seed_i16_be(sfp, cmis_linear(CCMIS_CFG_SUPPORT_PAGE, LOW_CHANNEL_OFFSET), -100);
    sfp = seed_i16_be(sfp, cmis_linear(CCMIS_CFG_SUPPORT_PAGE, HIGH_CHANNEL_OFFSET), 100);
    sfp = seed_i16_be(sfp, cmis_linear(CCMIS_CFG_SUPPORT_PAGE, MIN_PROG_POWER_OFFSET), -2000);
    sfp = seed_i16_be(sfp, cmis_linear(CCMIS_CFG_SUPPORT_PAGE, MAX_PROG_POWER_OFFSET), 0);
    sfp = sfp.with_eeprom(cmis_linear(TUNABLE_LASER_PAGE, GRID_SPACING_OFFSET), 0x70);
    sfp = seed_i16_be(sfp, cmis_linear(TUNABLE_LASER_PAGE, LASER_CONFIG_CHANNEL_OFFSET), 3);
    sfp = seed_i16_be(sfp, cmis_linear(TUNABLE_LASER_PAGE, TX_CONFIG_POWER_OFFSET), -1000);
    let mut api = BridgeCmisApi::new(sfp);

    assert_eq!(api.get_supported_freq_config(), (0x80, -100, 100, 190600, 195600));
    // In hundredths of a dBm: -20.0 and 0.0.
    assert_eq!(api.get_supported_power_config(), (-2000, 0));
    assert_eq!(api.get_laser_config_freq(), 193175);
    // -10.0 dBm.
    assert_eq!(api.get_tx_config_power(), -1000);
}

#[test]
fn bridge_unseeded_coherent_reads_default_to_zero() {
    let mut api = BridgeCmisApi::new(MockSfp::present());
    assert_eq!(api.get_tx_config_power(), 0);
    assert_eq!(api.get_laser_config_freq(), FREQ_BASE_GHZ);
    assert_eq!(api.get_supported_freq_config(), (0, 0, 0, FREQ_BASE_GHZ, FREQ_BASE_GHZ));
}

#[test]
fn bridge_set_tx_power_writes_page12h_200_signed_scaled() {
    let mut api = BridgeCmisApi::new(MockSfp::present());
    // -10.0 dBm.
    assert!(api.set_tx_power(-1000));
    let writes = api.into_sfp().eeprom_writes();
    assert_eq!(writes.len(), 1);
    assert_eq!(writes[0].0, cmis_linear(TUNABLE_LASER_PAGE, TX_CONFIG_POWER_OFFSET));
    assert_eq!(writes[0].1, (-1000i16).to_be_bytes().to_vec());
}

#[test]
fn bridge_set_laser_freq_writes_grid_spacing_and_channel() {
    let mut sfp = MockSfp::present();
    sfp = sfp.with_eeprom(cmis_linear(CCMIS_CFG_SUPPORT_PAGE, SUPPORT_GRID_OFFSET), 0x80);
    sfp = seed_i16_be(sfp, cmis_linear(CCMIS_CFG_SUPPORT_PAGE, LOW_CHANNEL_OFFSET), -100);
    sfp = seed_i16_be(sfp, cmis_linear(CCMIS_CFG_SUPPORT_PAGE, HIGH_CHANNEL_OFFSET), 100);
    let mut api = BridgeCmisApi::new(sfp);

    assert!(api.set_laser_freq(193175, 75));
    let writes = api.into_sfp().eeprom_writes();
    assert_eq!(writes.len(), 2);
    assert_eq!(writes[0].0, cmis_linear(TUNABLE_LASER_PAGE, GRID_SPACING_OFFSET));
    assert_eq!(writes[0].1, vec![GRID_75GHZ_CODE]);
    assert_eq!(writes[1].0, cmis_linear(TUNABLE_LASER_PAGE, LASER_CONFIG_CHANNEL_OFFSET));
    assert_eq!(writes[1].1, 3i16.to_be_bytes().to_vec());
}

#[test]
fn bridge_set_laser_freq_rejects_unsupported_grid_and_off_grid_channel() {
    // The grid is not advertised.
    let mut api = BridgeCmisApi::new(MockSfp::present());
    assert!(!api.set_laser_freq(193175, 75));
    assert!(api.into_sfp().eeprom_writes().is_empty());

    // The channel is not on the grid.
    let mut sfp = MockSfp::present();
    sfp = sfp.with_eeprom(cmis_linear(CCMIS_CFG_SUPPORT_PAGE, SUPPORT_GRID_OFFSET), 0x80);
    sfp = seed_i16_be(sfp, cmis_linear(CCMIS_CFG_SUPPORT_PAGE, LOW_CHANNEL_OFFSET), -100);
    sfp = seed_i16_be(sfp, cmis_linear(CCMIS_CFG_SUPPORT_PAGE, HIGH_CHANNEL_OFFSET), 100);
    let mut api2 = BridgeCmisApi::new(sfp);
    assert!(!api2.set_laser_freq(193125, 75));
    assert!(api2.into_sfp().eeprom_writes().is_empty());
}

#[test]
fn advertisement_members_are_read_from_the_text() {
    let info = reply(
        r#"{"application_advertisement": "{1: {'host_lane_assignment_options': 1, 'media_lane_count': 4}, 2: {'host_lane_assignment_options': '17'}}"}"#,
    );
    let mut api = BridgeCmisApi::new(MockSfp::present().with_info(info));
    assert_eq!(api.get_host_lane_assignment_option(1), 1);
    assert_eq!(api.get_host_lane_assignment_option(2), 17);
    assert_eq!(api.get_host_lane_assignment_option(3), 0);
    assert_eq!(api.get_media_lane_count(1), 4);
    assert_eq!(api.get_media_lane_count(2), 1);
    assert_eq!(api.get_media_lane_assignment_option(1), 1);
}

#[test]
fn unreadable_advertisement_advertises_nothing() {
    assert_eq!(py_repr_to_json("{1: "), None);
    let mut api = BridgeCmisApi::new(
        MockSfp::present().with_info(reply(r#"{"application_advertisement": "{1: "}"#)),
    );
    assert_eq!(api.get_application_advertisement(), None);
    assert_eq!(api.get_media_lane_count(1), 1);
    let mut api = BridgeCmisApi::new(
        MockSfp::present().with_info(reply(r#"{"application_advertisement": "N/A"}"#)),
    );
    assert_eq!(api.get_application_advertisement(), None);
}

#[test]
fn python_text_becomes_json_text() {
    assert_eq!(rewrite_repr("{1: 'a', 2 : True}"), r#"{"1": "a", "2" : true}"#);
    assert_eq!(rewrite_repr("{'x': None, 'y': 12}"), r#"{"x": null, "y": 12}"#);
    assert_eq!(rewrite_repr("{'n': '4: 5'}"), r#"{"n": "4: 5"}"#);
}

#[test]
fn members_are_numbers_or_texts_of_numbers() {
    let text = Some(r#"{"1": {"a": 7, "b": "8", "c": -1, "d": 4294967297}}"#.to_string());
    assert_eq!(advert_field_u32(&text, 1, "a", 9), 7);
    assert_eq!(advert_field_u32(&text, 1, "b", 9), 8);
    assert_eq!(advert_field_u32(&text, 1, "c", 9), 9);
    assert_eq!(advert_field_u32(&text, 1, "d", 9), 1);
    assert_eq!(advert_field_u32(&text, 1, "e", 9), 9);
    assert_eq!(advert_field_u32(&text, 2, "a", 9), 9);
    assert_eq!(advert_field_u32(&None, 1, "a", 9), 9);
    assert_eq!(member_as_u32(&Some((None, Some("x".to_string()))), 3), 3);
    assert_eq!(json_as_u32(&reply("12").value), Some(12));
    assert_eq!(json_as_u32(&reply("null").value), None);
}

#[test]
fn timing_codes_have_their_times() {
    let times: Vec<u32> = (0..16).map(dp_path_timing_ms).collect();
    assert_eq!(times[0], 1);
    assert_eq!(times[6], 1000);
    assert_eq!(times[7], 5000);
    assert_eq!(times[9], 60000);
    assert_eq!(times[10], 300000);
    assert_eq!(times[15], 0);
}

#[test]
fn data_path_lanes_are_taken_down_and_up() {
    let reg = cmis_linear(SCS0_PAGE, DPDEINIT_OFFSET);
    // Revision 5: a set bit takes a lane down.
    let sfp = MockSfp::present().with_eeprom(CMIS_REV_LINEAR, 0x50).with_eeprom(reg, 0b0000_0011);
    let mut api = BridgeCmisApi::new(sfp);
    assert!(api.set_datapath_deinit(0b0000_1100));
    assert_eq!(api.into_sfp().eeprom_writes(), vec![(reg, vec![0b0000_1111])]);

    let sfp = MockSfp::present().with_eeprom(CMIS_REV_LINEAR, 0x50).with_eeprom(reg, 0b0000_1111);
    let mut api = BridgeCmisApi::new(sfp);
    assert!(api.set_datapath_init(0b0000_1100));
    assert_eq!(api.into_sfp().eeprom_writes(), vec![(reg, vec![0b0000_0011])]);
}

#[test]
fn application_is_written_to_each_lane() {
    let mut api = BridgeCmisApi::new(MockSfp::present());
    assert!(api.set_application(0b1100, 2, 1));
    let at = |lane: usize| cmis_linear(SCS0_PAGE, DPCONFIG_BASE_OFFSET + lane);
    assert_eq!(
        api.into_sfp().eeprom_writes(),
        vec![(at(2), vec![0x25]), (at(3), vec![0x25])]
    );
}

#[test]
fn settings_are_packed_by_lane() {
    let adv = cmis_linear(DURATIONS_PAGE, SI_ADV_RX_CDR_OFFSET);
    let sfp = MockSfp::present().with_eeprom(adv, 0x01);
    let mut api = BridgeCmisApi::new(sfp);
    let si = vec![
        (
            "FixedInputEqTargetTx".to_string(),
            fields(r#"{"FixedInputEqTargetTx1": 3, "FixedInputEqTargetTx2": 5}"#),
        ),
        ("CDREnableRx".to_string(), fields(r#"{"CDREnableRx1": 1, "CDREnableRx2": 0}"#)),
    ];
    assert!(api.stage_custom_si_settings(0b11, &si));
    // The receiving side comes first.
    assert_eq!(
        api.into_sfp().eeprom_writes(),
        vec![
            (cmis_linear(SCS0_PAGE, SI_CDR_ENABLE_RX_OFFSET), vec![0x01]),
            (cmis_linear(SCS0_PAGE, SI_FIXED_INPUT_EQ_TARGET_TX_OFFSET), vec![0x53]),
        ]
    );

    // A lane without a value, and a setting that nobody knows.
    let mut api = BridgeCmisApi::new(MockSfp::present());
    let short =
        vec![("FixedInputEqTargetTx".to_string(), fields(r#"{"FixedInputEqTargetTx1": 3}"#))];
    assert!(!api.stage_custom_si_settings(0b11, &short));
    assert!(!api.stage_custom_si_settings(0b11, &vec![("NovelRx".to_string(), vec![])]));
    assert!(api.stage_custom_si_settings(0b11, &vec![]));
    assert!(api.into_sfp().eeprom_writes().is_empty());
}

#[test]
fn flat_bit_decides_where_it_can_be_read() {
    let flat = |b: u8| {
        BridgeCmisApi::new(MockSfp::present().with_eeprom(CMIS_FLAT_MEM_LINEAR, b))
            .is_flat_memory()
    };
    assert!(flat(0x80));
    assert!(!flat(0x7F));
    let mut api =
        BridgeCmisApi::new(MockSfp::present().with_info(reply(r#"{"cmis_rev": "5.0"}"#)));
    assert!(!api.is_flat_memory());
}

#[test]
fn lasers_of_other_grids_are_tuned() {
    let tuned = |freq: i64, grid: u32, support: u8| {
        let mut sfp = MockSfp::present();
        sfp = sfp.with_eeprom(cmis_linear(CCMIS_CFG_SUPPORT_PAGE, SUPPORT_GRID_OFFSET), support);
        sfp = seed_i16_be(sfp, cmis_linear(CCMIS_CFG_SUPPORT_PAGE, LOW_CHANNEL_OFFSET), -100);
        sfp = seed_i16_be(sfp, cmis_linear(CCMIS_CFG_SUPPORT_PAGE, HIGH_CHANNEL_OFFSET), 100);
        let mut api = BridgeCmisApi::new(sfp);
        (api.set_laser_freq(freq, grid), api.into_sfp().eeprom_writes().len())
    };
    assert_eq!(tuned(193300, 100, 0x20), (true, 2));
    assert_eq!(tuned(193300, 100, 0x80), (false, 0));
    assert_eq!(tuned(193300, 33, 0xFF), (false, 0));
    // Beyond the highest channel; the grid has been written by then.
    assert_eq!(tuned(193100 + 102 * 25, 75, 0x80), (false, 1));
}

#[test]
fn stand_in_answers_as_it_is_told() {
    let mut api = MockCmisApi::new();
    api.set_flat_memory(true);
    assert!(api.is_flat_memory());
    api.set_module_state("ModuleReady");
    assert_eq!(api.get_module_state(), "ModuleReady");
    assert!(api.set_application(0xff, 1, 3));
    assert_eq!(api.last_set_application_ec(), 3);
    let si = vec![("CDREnableRx".to_string(), fields(r#"{"CDREnableRx1": 1}"#))];
    api.set_stage_custom_si_result(false);
    assert!(!api.stage_custom_si_settings(0xff, &si));
    assert_eq!(api.captured_optics_si(), si);
}

#[test]
fn stand_in_serves_every_value_that_was_set() {
    let mut api = MockCmisApi::new();
    assert!(!api.is_coherent_module());
    api.set_coherent_module(true);
    assert!(api.is_coherent_module());
    api.set_module_type_abbreviation(None);
    assert_eq!(api.get_module_type_abbreviation(), None);
    api.set_cmis_rev("4.0");
    assert_eq!(api.get_cmis_rev(), "4.0");
    api.set_datapath_state_value(fields(r#"{"DP1State": "DataPathActivated"}"#));
    assert_eq!(api.get_datapath_state(), fields(r#"{"DP1State": "DataPathActivated"}"#));
    api.set_config_status(fields(r#"{"ConfigStatusLane1": "ConfigSuccess"}"#));
    assert_eq!(
        api.get_config_datapath_hostlane_status(),
        fields(r#"{"ConfigStatusLane1": "ConfigSuccess"}"#)
    );
    api.set_dpinit_pending(fields(r#"{"DPInitPending1": true}"#));
    assert_eq!(api.get_dpinit_pending(), fields(r#"{"DPInitPending1": true}"#));
    api.set_durations_ms(1, 2, 3, 4, 5, 6);
    assert_eq!(
        (
            api.get_datapath_init_duration(),
            api.get_datapath_deinit_duration(),
            api.get_datapath_tx_turnon_duration(),
            api.get_datapath_tx_turnoff_duration(),
            api.get_module_pwr_up_duration(),
            api.get_module_pwr_down_duration(),
        ),
        (1, 2, 3, 4, 5, 6)
    );
    api.set_tx_config_power(-150);
    assert_eq!(api.get_tx_config_power(), -150);
    api.set_laser_config_freq(193_100_000);
    assert_eq!(api.get_laser_config_freq(), 193_100_000);
    api.set_supported_freq_config((0xff, -72, 120, 191_300, 196_100));
    assert_eq!(api.get_supported_freq_config(), (0xff, -72, 120, 191_300, 196_100));
    api.set_manufacturer("ACME");
    api.set_model("X1");
    assert_eq!((api.get_manufacturer(), api.get_model()), ("ACME".to_string(), "X1".to_string()));
}

#[test]
fn stand_in_reads_its_advertisement() {
    let mut api = MockCmisApi::new();
    api.set_application_advertisement(Some(
        r#"{"1": {"media_lane_count": 4, "host_lane_assignment_options": 17}}"#.to_string(),
    ));
    assert_eq!(api.get_media_lane_count(1), 4);
    assert_eq!(api.get_host_lane_assignment_option(1), 17);
    assert_eq!(api.get_media_lane_count(2), 1);
    api.set_media_lane_count_override(Some(2));
    assert_eq!(api.get_media_lane_count(1), 2);
}

#[test]
fn stand_in_has_applications_by_lane() {
    let mut api = MockCmisApi::new();
    api.set_application_by_lane(3);
    assert_eq!((api.get_application(0), api.get_application(5)), (3, 3));
    api.set_application_for_lane(5, 1);
    assert_eq!((api.get_application(0), api.get_application(5)), (0, 1));
}

#[test]
fn quotes_are_put_around_keys_alone() {
    assert_eq!(rewrite_repr("{1: 2, 34: [5, 6], 7 : '8: 9'}"), r#"{"1": 2, "34": [5, 6], "7" : "8: 9"}"#);
    // Rewriting the result changes nothing.
    let once = rewrite_repr("{1: {'a': 2}, 3: 'b'}");
    assert_eq!(once, r#"{"1": {"a": 2}, "3": "b"}"#);
    assert_eq!(rewrite_repr(&once), once);
}

#[test]
fn integer_keys_are_quoted_once() {
    let once = quote_int_keys(r#"{1: 2, "3: 4": 5,67 :[8, 9]}"#);
    assert_eq!(once, r#"{"1": 2, "3: 4": 5,"67" :[8, 9]}"#);
    assert_eq!(quote_int_keys(&once), once);
    assert_eq!(quote_int_keys("1: 2"), "1: 2");
}

#[test]
fn frequency_far_off_the_band_is_refused() {
    let sfp = MockSfp::present()
        .with_eeprom(cmis_linear(CCMIS_CFG_SUPPORT_PAGE, SUPPORT_GRID_OFFSET), 0xFF);
    let sfp = seed_i16_be(sfp, cmis_linear(CCMIS_CFG_SUPPORT_PAGE, HIGH_CHANNEL_OFFSET), 100);
    let mut api = BridgeCmisApi::new(sfp);
    assert!(!api.set_laser_freq(1 << 52, 100));
    assert!(!api.set_laser_freq(-(1 << 52), 100));
}
