//! Control of modules with a CMIS memory map.

use vstd::prelude::*;

use crate::cmis::advert::{
    advert_field, advert_field_u32, as_u32, low_u32, parsed_repr, py_repr_to_json,
};
use crate::error::XcvrdError;
use crate::hal::{read_byte, write_byte, SfpAsk, SfpHandle, SfpTrace};
use crate::json::{
    clone_fields, field, get_field, reply_view, val_view, vals, Fields, Number, Reply, ReplyView, Val, Vals,
    Value,
};
use crate::sff_api::or_zero;
use crate::text::{
    decimal, join, owned, parse_u32, parsed_u32, str_eq, strip_suffix, u64_text, without_suffix,
};

verus! {

/// The number of host lanes of a module.
pub const CMIS_MAX_HOST_LANES_USIZE: usize = 8;

/// The page of the staged control set.
pub const SCS0_PAGE: usize = 0x10;

/// Data path deinit, one bit for each host lane.
pub const DPDEINIT_OFFSET: usize = 128;

/// Transmitter disable, one bit for each lane.
pub const OUTPUT_DISABLE_TX_OFFSET: usize = 130;

/// The trigger that applies the staged data path settings.
pub const APPLY_DPINIT_OFFSET: usize = 143;

/// The data path configuration of the first host lane.
pub const DPCONFIG_BASE_OFFSET: usize = 145;

/// The revision of the memory map, the major one in the high bits.
pub const CMIS_REV_LINEAR: usize = 1;

/// The byte with the flat memory bit.
pub const CMIS_FLAT_MEM_LINEAR: usize = 2;

/// One bit for each lane.
pub const SI_ADAPTIVE_INPUT_EQ_ENABLE_TX_OFFSET: usize = 153;

/// Two bits for each lane.
pub const SI_ADAPTIVE_INPUT_EQ_RECALLED_TX_OFFSET: usize = 154;

/// Four bits for each lane.
pub const SI_FIXED_INPUT_EQ_TARGET_TX_OFFSET: usize = 156;

/// One bit for each lane.
pub const SI_CDR_ENABLE_TX_OFFSET: usize = 160;

/// One bit for each lane.
pub const SI_CDR_ENABLE_RX_OFFSET: usize = 161;

/// Four bits for each lane.
pub const SI_OUTPUT_EQ_PRE_CURSOR_TARGET_RX_OFFSET: usize = 162;

/// Four bits for each lane.
pub const SI_OUTPUT_EQ_POST_CURSOR_TARGET_RX_OFFSET: usize = 166;

/// Four bits for each lane.
pub const SI_OUTPUT_AMPLITUDE_TARGET_RX_OFFSET: usize = 170;

/// Whether the transmitters have a clock recovery.
pub const SI_ADV_TX_CDR_OFFSET: usize = 161;

/// Whether the receivers have a clock recovery.
pub const SI_ADV_RX_CDR_OFFSET: usize = 162;

/// The page of the active control set.
pub const ACS_PAGE: usize = 0x11;

/// The active data path configuration of the first host lane.
pub const ACS_DPCONFIG_BASE_OFFSET: usize = 206;

/// The page of the advertised durations.
pub const DURATIONS_PAGE: usize = 0x01;

/// The longest data path deinit and init.
pub const DP_INIT_DEINIT_OFFSET: usize = 144;

/// The longest power down and power up.
pub const MODULE_PWR_OFFSET: usize = 167;

/// The longest transmitter turn off and turn on.
pub const DP_TX_TURN_OFFSET: usize = 168;

/// The page of the tuning capabilities.
pub const CCMIS_CFG_SUPPORT_PAGE: usize = 0x04;

/// The supported grids.
pub const SUPPORT_GRID_OFFSET: usize = 128;

/// The lowest channel.
pub const LOW_CHANNEL_OFFSET: usize = 158;

/// The highest channel.
pub const HIGH_CHANNEL_OFFSET: usize = 160;

/// The lowest output power.
pub const MIN_PROG_POWER_OFFSET: usize = 198;

/// The highest output power.
pub const MAX_PROG_POWER_OFFSET: usize = 200;

/// The page of the tunable laser.
pub const TUNABLE_LASER_PAGE: usize = 0x12;

/// The grid, in the high bits.
pub const GRID_SPACING_OFFSET: usize = 128;

/// The channel.
pub const LASER_CONFIG_CHANNEL_OFFSET: usize = 136;

/// The output power.
pub const TX_CONFIG_POWER_OFFSET: usize = 200;

/// The flat memory bit.
pub const CMIS_FLAT_MEM_BIT: u8 = 0x80;

/// Channel 0, in GHz.
pub const FREQ_BASE_GHZ: i64 = 193100;

/// The code of the 75 GHz grid.
pub const GRID_75GHZ_CODE: u8 = 0x70;

/// The code of the 100 GHz grid.
pub const GRID_100GHZ_CODE: u8 = 0x50;

/// The code of the 150 GHz grid.
pub const GRID_150GHZ_CODE: u8 = 0x80;

/// The settings of the signal path, by parameter; each with its values by lane.
pub type OpticsSi = Vec<(String, Fields)>;

/// [`OpticsSi`] as contracts see it.
pub open spec fn si_view(si: Seq<(String, Fields)>) -> Seq<(Seq<char>, Vals)> {
    si.map_values(|p: (String, Fields)| (p.0@, vals(p.1@)))
}

/// The control interface of a module with a CMIS memory map. Durations are in
/// milliseconds, output powers in hundredths of a dBm and frequencies in GHz.
pub trait CmisApi {
    /// Whether the memory has no pages.
    fn is_flat_memory(&mut self) -> bool;

    /// Whether the module is coherent.
    fn is_coherent_module(&mut self) -> bool;

    /// The short name of the module type.
    fn get_module_type_abbreviation(&mut self) -> Option<String>;

    /// The state of the module.
    fn get_module_state(&mut self) -> String;

    /// The revision of the memory map.
    fn get_cmis_rev(&mut self) -> String;

    /// The JSON text of the application advertisement: an object with the
    /// applications by number. `None` where nothing readable is advertised.
    fn get_application_advertisement(&mut self) -> Option<String>;

    /// The host lanes on which an application may start.
    fn get_host_lane_assignment_option(&mut self, appl: u32) -> u32;

    /// The number of media lanes of an application.
    fn get_media_lane_count(&mut self, appl: u32) -> u32;

    /// The media lanes on which an application may start.
    fn get_media_lane_assignment_option(&mut self, appl: u32) -> u32;

    /// The state of the data path of each host lane.
    fn get_datapath_state(&mut self) -> Fields;

    /// The outcome of the last configuration of each host lane.
    fn get_config_datapath_hostlane_status(&mut self) -> Fields;

    /// Whether an init is due, by host lane.
    fn get_dpinit_pending(&mut self) -> Fields;

    /// The active application of each host lane.
    fn get_active_apsel_hostlane(&mut self) -> Result<Fields, XcvrdError>;

    /// The active application of a host lane, counted from 0.
    fn get_application(&mut self, lane: u32) -> u32
        requires
            2382 + lane <= usize::MAX,
    ;

    /// How long a data path init takes at most.
    fn get_datapath_init_duration(&mut self) -> u32;

    /// How long a data path deinit takes at most.
    fn get_datapath_deinit_duration(&mut self) -> u32;

    /// How long it takes at most to turn a transmitter on.
    fn get_datapath_tx_turnon_duration(&mut self) -> u32;

    /// How long it takes at most to turn a transmitter off.
    fn get_datapath_tx_turnoff_duration(&mut self) -> u32;

    /// How long a power up takes at most.
    fn get_module_pwr_up_duration(&mut self) -> u32;

    /// How long a power down takes at most.
    fn get_module_pwr_down_duration(&mut self) -> u32;

    /// The configured output power.
    fn get_tx_config_power(&mut self) -> i64;

    /// The configured frequency; 0 where the grid is reserved.
    fn get_laser_config_freq(&mut self) -> i64;

    /// The supported grids, the lowest and the highest channel and their
    /// frequencies.
    fn get_supported_freq_config(&mut self) -> (i64, i64, i64, i64, i64);

    /// The lowest and the highest output power.
    fn get_supported_power_config(&mut self) -> (i64, i64);

    /// Whether the laser is being tuned.
    fn get_tuning_in_progress(&mut self) -> bool;

    /// The manufacturer.
    fn get_manufacturer(&mut self) -> String;

    /// The model.
    fn get_model(&mut self) -> String;

    /// Takes the data paths of the host lanes in the mask down.
    fn set_datapath_deinit(&mut self, host_lanes_mask: u32) -> bool;

    /// Lets the data paths of the host lanes in the mask come up.
    fn set_datapath_init(&mut self, host_lanes_mask: u32) -> bool;

    /// Switches the transmitters in the mask off or on.
    fn tx_disable_channel(&mut self, media_lanes_mask: u32, disable: bool) -> bool;

    /// Enters or leaves low-power mode.
    fn set_lpmode(&mut self, lpmode: bool, wait_state_change: bool) -> bool;

    /// Stages an application on the host lanes in the mask.
    fn set_application(&mut self, host_lanes_mask: u32, appl: u32, ec: u32) -> bool;

    /// Applies the staged settings of the host lanes in the mask.
    fn scs_apply_datapath_init(&mut self, host_lanes_mask: u32) -> bool;

    /// Stages settings of the signal path on the host lanes in the mask.
    fn stage_custom_si_settings(&mut self, host_lanes_mask: u32, optics_si_dict: &OpticsSi) -> bool;

    /// Sets the output power.
    fn set_tx_power(&mut self, tx_power: i16) -> bool;

    /// Tunes the laser. The frequency is in GHz and stays within the range in
    /// which a quotient of it is rounded without error.
    fn set_laser_freq(&mut self, freq: i64, grid: u32) -> bool
        requires
            -0x10_0000_0000_0000 <= freq <= 0x10_0000_0000_0000,
    ;
}

// ---- addresses and numbers ----

/// The linear address of a byte in a page.
pub open spec fn linear(page: nat, offset: nat) -> nat {
    if page == 0 && offset < 128 {
        offset
    } else {
        page * 128 + offset
    }
}

/// The linear address of a byte in a page.
pub fn cmis_linear(page: usize, offset: usize) -> (r: usize)
    requires
        page * 128 + offset <= usize::MAX,
    ensures
        r == linear(page as nat, offset as nat),
{
    if page == 0 && offset < 128 {
        offset
    } else {
        page * 128 + offset
    }
}

/// The address of a byte of the staged control set.
pub open spec fn scs(offset: int) -> usize {
    linear(SCS0_PAGE as nat, offset as nat) as usize
}

/// The longest duration that a code stands for, in milliseconds.
pub open spec fn timing_ms(code: u8) -> u32 {
    match code & 0x0f {
        0 => 1,
        1 => 5,
        2 => 10,
        3 => 50,
        4 => 100,
        5 => 500,
        6 => 1000,
        7 => 5000,
        8 => 10000,
        9 => 60000,
        10 => 300000,
        11 => 600000,
        12 => 3000000,
        13 => 6000000,
        _ => 0,
    }
}

/// The longest duration that a code stands for, in milliseconds.
pub fn dp_path_timing_ms(code: u8) -> (r: u32)
    ensures
        r == timing_ms(code),
{
    match code & 0x0f {
        0 => 1,
        1 => 5,
        2 => 10,
        3 => 50,
        4 => 100,
        5 => 500,
        6 => 1000,
        7 => 5000,
        8 => 10000,
        9 => 60000,
        10 => 300000,
        11 => 600000,
        12 => 3000000,
        13 => 6000000,
        _ => 0,
    }
}

/// A signed number of 16 bits in two bytes, the high one first.
pub open spec fn be_bytes(v: i16) -> Seq<u8> {
    seq![((v as u16) >> 8) as u8, (v as u16) as u8]
}

/// The signed number of 16 bits in two bytes, the high one first.
pub open spec fn be_i16(a: u8, b: u8) -> i16 {
    (((a as u16) << 8) | (b as u16)) as i16
}

/// A number that is written is read back.
pub proof fn be_bytes_read_back(v: i16)
    ensures
        be_i16(be_bytes(v)[0], be_bytes(v)[1]) == v,
{
    assert((((((v as u16) >> 8) as u8) as u16) << 8 | (((v as u16) as u8) as u16)) as i16 == v)
        by (bit_vector);
}

/// The quotient of two numbers rounded to the nearest integer, halves away from
/// zero, for a positive divisor.
pub open spec fn rounded_quotient(n: int, d: int) -> int {
    if n >= 0 {
        (2 * n + d) / (2 * d)
    } else {
        -((-2 * n + d) / (2 * d))
    }
}

fn round_quotient(n: i64, d: i64) -> (r: i64)
    requires
        -0x20_0000_0000_0000 <= n <= 0x20_0000_0000_0000,
        d == 8 || d == 25 || d == 100,
    ensures
        r == rounded_quotient(n as int, d as int),
        -0x20_0000_0000_0000 <= r <= 0x20_0000_0000_0000,
{
    if n >= 0 {
        (2 * n + d) / (2 * d)
    } else {
        let m: i64 = -n;
        -((2 * m + d) / (2 * d))
    }
}

/// The value that a duration byte advertises, in milliseconds.
pub open spec fn nibble_ms(b: Option<u8>, high: bool) -> u32 {
    match b {
        Some(b) => timing_ms(
            if high {
                b >> 4
            } else {
                b & 0x0f
            },
        ),
        None => 0,
    }
}

/// A data path init of at most a second is taken as ten times as long.
pub open spec fn init_ms(b: Option<u8>) -> u32 {
    let ms = nibble_ms(b, false);
    if ms <= 1000 {
        (ms * 10) as u32
    } else {
        ms
    }
}

// ---- lane registers ----

/// Whether a mask holds lane `lane`.
pub open spec fn has_lane(mask: u32, lane: nat) -> bool {
    (mask >> (lane as u32)) & 1 != 0
}

/// A byte with the bit of lane `lane` set or cleared.
pub open spec fn with_lane(b: u8, lane: nat, on: bool) -> u8 {
    if on {
        b | (1u8 << (lane as u8))
    } else {
        b & !(1u8 << (lane as u8))
    }
}

/// A byte with the bits of the lanes in the mask from `lane` on set or cleared.
pub open spec fn with_lanes(b: u8, mask: u32, on: bool, lane: nat) -> u8
    decreases 8 - lane,
{
    if lane >= 8 {
        b
    } else {
        with_lanes(
            if has_lane(mask, lane) {
                with_lane(b, lane, on)
            } else {
                b
            },
            mask,
            on,
            lane + 1,
        )
    }
}

/// Setting or clearing the lanes in a mask changes exactly the bits of the mask.
pub proof fn with_lanes_is_masked(b: u8, mask: u32)
    ensures
        with_lanes(b, mask, true, 0) == b | (mask as u8),
        with_lanes(b, mask, false, 0) == b & !(mask as u8),
{
    reveal_with_fuel(with_lanes, 9);
    assert(({
        let b1 = if (mask >> 0u32) & 1 != 0 { b | (1u8 << 0u8) } else { b };
        let b2 = if (mask >> 1u32) & 1 != 0 { b1 | (1u8 << 1u8) } else { b1 };
        let b3 = if (mask >> 2u32) & 1 != 0 { b2 | (1u8 << 2u8) } else { b2 };
        let b4 = if (mask >> 3u32) & 1 != 0 { b3 | (1u8 << 3u8) } else { b3 };
        let b5 = if (mask >> 4u32) & 1 != 0 { b4 | (1u8 << 4u8) } else { b4 };
        let b6 = if (mask >> 5u32) & 1 != 0 { b5 | (1u8 << 5u8) } else { b5 };
        let b7 = if (mask >> 6u32) & 1 != 0 { b6 | (1u8 << 6u8) } else { b6 };
        let b8 = if (mask >> 7u32) & 1 != 0 { b7 | (1u8 << 7u8) } else { b7 };
        b8 == b | (mask as u8)
    })) by (bit_vector);
    assert(({
        let b1 = if (mask >> 0u32) & 1 != 0 { b & !(1u8 << 0u8) } else { b };
        let b2 = if (mask >> 1u32) & 1 != 0 { b1 & !(1u8 << 1u8) } else { b1 };
        let b3 = if (mask >> 2u32) & 1 != 0 { b2 & !(1u8 << 2u8) } else { b2 };
        let b4 = if (mask >> 3u32) & 1 != 0 { b3 & !(1u8 << 3u8) } else { b3 };
        let b5 = if (mask >> 4u32) & 1 != 0 { b4 & !(1u8 << 4u8) } else { b4 };
        let b6 = if (mask >> 5u32) & 1 != 0 { b5 & !(1u8 << 5u8) } else { b5 };
        let b7 = if (mask >> 6u32) & 1 != 0 { b6 & !(1u8 << 6u8) } else { b6 };
        let b8 = if (mask >> 7u32) & 1 != 0 { b7 & !(1u8 << 7u8) } else { b7 };
        b8 == b & !(mask as u8)
    })) by (bit_vector);
}

/// A deinit followed by an init of the same lanes clears their bits and leaves
/// the others as they were.
pub proof fn init_undoes_deinit(b: u8, mask: u32)
    ensures
        with_lanes(with_lanes(b, mask, true, 0), mask, false, 0) == b & !(mask as u8),
        b & (mask as u8) == 0 ==> with_lanes(with_lanes(b, mask, true, 0), mask, false, 0) == b,
{
    with_lanes_is_masked(b, mask);
    with_lanes_is_masked(b | (mask as u8), mask);
    assert((b | (mask as u8)) & !(mask as u8) == b & !(mask as u8)) by (bit_vector);
    assert(b & (mask as u8) == 0 ==> b & !(mask as u8) == b) by (bit_vector);
}

/// Whether the revision byte tells of revision 4 or later. A module that does
/// not tell is taken for such a one.
pub open spec fn is_v4(rev: Option<u8>) -> bool {
    match rev {
        Some(b) => (b >> 4) >= 4,
        None => true,
    }
}

/// The data path deinit byte with the lanes in the mask from `lane` on taken
/// down or let up, and the trace after that. The revision, which is read for
/// each lane, tells whether a set bit means down.
pub open spec fn dp_lanes(
    t: SfpTrace,
    mask: u32,
    down: bool,
    lane: nat,
    b: u8,
) -> (u8, SfpTrace)
    decreases 8 - lane,
{
    if lane >= 8 {
        (b, t)
    } else if !has_lane(mask, lane) {
        dp_lanes(t, mask, down, lane + 1, b)
    } else {
        dp_lanes(
            t.then_ask(SfpAsk::Read(CMIS_REV_LINEAR, 1)),
            mask,
            down,
            lane + 1,
            with_lane(b, lane, is_v4(t.byte(CMIS_REV_LINEAR)) == down),
        )
    }
}

/// Reading the revision for each lane makes no difference where it stays the
/// same: the bits of the lanes in the mask are set or cleared as the revision
/// asks.
pub proof fn dp_lanes_with_steady_revision(t: SfpTrace, mask: u32, down: bool, lane: nat, b: u8, v4: bool)
    requires
        lane <= 8,
        forall|h: Seq<SfpAsk>|
            is_v4((SfpTrace { answers: t.answers, asked: h }).byte(CMIS_REV_LINEAR)) == v4,
    ensures
        dp_lanes(t, mask, down, lane, b).0 == with_lanes(b, mask, v4 == down, lane),
    decreases 8 - lane,
{
    if lane < 8 {
        assert(is_v4((SfpTrace { answers: t.answers, asked: t.asked }).byte(CMIS_REV_LINEAR)) == v4);
        if has_lane(mask, lane) {
            dp_lanes_with_steady_revision(
                t.then_ask(SfpAsk::Read(CMIS_REV_LINEAR, 1)),
                mask,
                down,
                lane + 1,
                with_lane(b, lane, v4 == down),
                v4,
            );
        } else {
            dp_lanes_with_steady_revision(t, mask, down, lane + 1, b, v4);
        }
    }
}

/// Whether taking down or letting up the data paths succeeds, and the trace
/// after it.
pub open spec fn dp_driven(t: SfpTrace, mask: u32, down: bool) -> (bool, SfpTrace) {
    let at = scs(DPDEINIT_OFFSET as int);
    let r = dp_lanes(t.then_ask(SfpAsk::Read(at, 1)), mask, down, 0, or_zero(t.byte(at)));
    (r.1.writes(at, seq![r.0]), r.1.then_ask(SfpAsk::Write(at, seq![r.0])))
}

/// Whether switching transmitters succeeds, and the trace after it.
pub open spec fn tx_switched(t: SfpTrace, mask: u32, off: bool) -> (bool, SfpTrace) {
    let at = scs(OUTPUT_DISABLE_TX_OFFSET as int);
    let t1 = t.then_ask(SfpAsk::Read(at, 1));
    let b = with_lanes(or_zero(t.byte(at)), mask, off, 0);
    (t1.writes(at, seq![b]), t1.then_ask(SfpAsk::Write(at, seq![b])))
}

/// Whether applying the staged settings of the lanes in the mask succeeds, and the
/// trace after it.
pub open spec fn init_applied(t: SfpTrace, mask: u32) -> (bool, SfpTrace) {
    let at = scs(APPLY_DPINIT_OFFSET as int);
    let b = seq![mask as u8];
    (t.writes(at, b), t.then_ask(SfpAsk::Write(at, b)))
}

/// The data path configuration of a lane: the application, the first lane of
/// the data path and whether the host sets the signal path.
pub open spec fn lane_config(appl: u32, first: nat, ec: u32) -> u8 {
    ((appl << 4) | ((first as u32) << 1) | ec) as u8
}

/// The parts of a lane configuration can be told apart.
pub proof fn lane_config_reads_back(appl: u32, first: u32, ec: u32)
    requires
        appl < 16,
        first < 8,
        ec < 2,
    ensures
        lane_config(appl, first as nat, ec) >> 4 == appl as u8,
        (lane_config(appl, first as nat, ec) >> 1) & 7 == first as u8,
        lane_config(appl, first as nat, ec) & 1 == ec as u8,
{
    assert({
        let c = ((appl << 4) | (first << 1) | ec) as u8;
        &&& c >> 4 == appl as u8
        &&& (c >> 1) & 7 == first as u8
        &&& c & 1 == ec as u8
    }) by (bit_vector)
        requires
            appl < 16,
            first < 8,
            ec < 2,
    ;
}

/// Whether staging an application on the lanes in the mask from `lane` on
/// succeeds, and the trace after it. `first` is the first lane in the mask that
/// has been met; a write that fails does not keep the others from being made.
pub open spec fn appl_staged(
    t: SfpTrace,
    mask: u32,
    appl: u32,
    ec: u32,
    lane: nat,
    first: Option<nat>,
    ok: bool,
) -> (bool, SfpTrace)
    decreases 8 - lane,
{
    if lane >= 8 {
        (ok, t)
    } else if !has_lane(mask, lane) {
        appl_staged(t, mask, appl, ec, lane + 1, first, ok)
    } else {
        let f = match first {
            Some(f) => f,
            None => lane,
        };
        let at = scs(DPCONFIG_BASE_OFFSET + lane);
        let b = lane_config(appl, f, ec);
        appl_staged(
            t.then_ask(SfpAsk::Write(at, seq![b])),
            mask,
            appl,
            ec,
            lane + 1,
            Some(f),
            ok && t.writes(at, seq![b]),
        )
    }
}

// ---- signal path settings ----

/// The unsigned integer of 32 bits that a JSON value stands for.
pub open spec fn val_u32(v: Val) -> Option<u32> {
    match v {
        Val::Number { text, zero, unsigned } => as_u32(unsigned, None),
        Val::Str(s) => parsed_u32(s),
        _ => None,
    }
}

/// The unsigned integer of 32 bits that a JSON value stands for.
pub fn json_as_u32(v: &Value) -> (r: Option<u32>)
    ensures
        r == val_u32(v@),
{
    match v {
        Value::Number(n) => match n.unsigned {
            Some(u) => Some(low_u32(u)),
            None => None,
        },
        Value::Str(s) => parse_u32(s.as_str()),
        _ => None,
    }
}

/// The mask of the low bits of a field.
pub open spec fn low_mask(bits: u32) -> u32 {
    ((1u32 << bits) - 1) as u32
}

/// A byte with a value put in the field of `bits` bits at `shift`.
pub open spec fn packed(b: u8, bits: u32, shift: u32, v: u32) -> u8 {
    (b & !((low_mask(bits) as u8) << (shift as u8))) | (((v & low_mask(bits)) as u8) << (
    shift as u8))
}

/// A packed value is read back, and the bits outside its field stay.
pub proof fn packed_reads_back(b: u8, bits: u32, shift: u32, v: u32)
    requires
        bits == 1 || bits == 2 || bits == 4,
        shift + bits <= 8,
    ensures
        (packed(b, bits, shift, v) >> (shift as u8)) & (low_mask(bits) as u8) == (v & low_mask(
            bits,
        )) as u8,
        packed(b, bits, shift, v) & !((low_mask(bits) as u8) << (shift as u8)) == b & !((low_mask(
            bits,
        ) as u8) << (shift as u8)),
{
    low_masks();
    let m = low_mask(bits);
    let s = shift as u8;
    assert({
        let p = (b & !((m as u8) << s)) | (((v & m) as u8) << s);
        &&& (p >> s) & (m as u8) == (v & m) as u8
        &&& p & !((m as u8) << s) == b & !((m as u8) << s)
    }) by (bit_vector)
        requires
            (m == 1 && s <= 7) || (m == 3 && s <= 6) || (m == 15 && s <= 4),
    ;
}

proof fn low_masks()
    ensures
        low_mask(1) == 1,
        low_mask(2) == 3,
        low_mask(4) == 15,
{
    assert(1u32 << 1u32 == 2) by (bit_vector);
    assert(1u32 << 2u32 == 4) by (bit_vector);
    assert(1u32 << 4u32 == 16) by (bit_vector);
}

/// The bytes that a parameter puts in the staged control set, in order, for the
/// lanes in the mask from `lane` on, after the bytes `acc`; `None` where a lane
/// has no value. A byte is read from the module the first time that a lane
/// falls into it.
pub open spec fn si_bytes(
    t: SfpTrace,
    base: usize,
    bits: u32,
    mask: u32,
    values: Vals,
    param: Seq<char>,
    lane: nat,
    acc: Seq<(usize, u8)>,
) -> (Option<Seq<(usize, u8)>>, SfpTrace)
    decreases 8 - lane,
{
    if lane >= 8 {
        (Some(acc), t)
    } else if !has_lane(mask, lane) {
        si_bytes(t, base, bits, mask, values, param, lane + 1, acc)
    } else {
        match lane_value(values, param, lane) {
            None => (None, t),
            Some(v) => {
                let off = (base + lane * bits / 8) as usize;
                let shift = (lane * bits % 8) as u32;
                let at = scs(off as int);
                let met = acc.len() > 0 && acc.last().0 == off;
                let b = if met {
                    acc.last().1
                } else {
                    or_zero(t.byte(at))
                };
                let t1 = if met {
                    t
                } else {
                    t.then_ask(SfpAsk::Read(at, 1))
                };
                let next = if met {
                    acc.drop_last()
                } else {
                    acc
                }.push((off, packed(b, bits, shift, v)));
                si_bytes(t1, base, bits, mask, values, param, lane + 1, next)
            },
        }
    }
}

/// The value of a parameter for a lane.
pub open spec fn lane_value(values: Vals, param: Seq<char>, lane: nat) -> Option<u32> {
    match field(values, param + decimal((lane + 1) as nat)) {
        Some(v) => val_u32(v),
        None => None,
    }
}

/// Whether writing bytes to the staged control set succeeds from byte `i` on,
/// and the trace after it.
pub open spec fn si_written(
    t: SfpTrace,
    bytes: Seq<(usize, u8)>,
    i: nat,
    ok: bool,
) -> (bool, SfpTrace)
    decreases bytes.len() - i,
{
    if i >= bytes.len() {
        (ok, t)
    } else {
        let at = scs(bytes[i as int].0 as int);
        let b = seq![bytes[i as int].1];
        si_written(t.then_ask(SfpAsk::Write(at, b)), bytes, i + 1, ok && t.writes(at, b))
    }
}

/// Whether staging one parameter succeeds, and the trace after it.
pub open spec fn si_param_staged(
    t: SfpTrace,
    base: usize,
    bits: u32,
    mask: u32,
    values: Vals,
    param: Seq<char>,
) -> (bool, SfpTrace) {
    let r = si_bytes(t, base, bits, mask, values, param, 0, Seq::empty());
    match r.0 {
        Some(bytes) => si_written(r.1, bytes, 0, true),
        None => (false, r.1),
    }
}

/// Staging a parameter that the module must advertise support for.
pub open spec fn si_param_if_supported(
    t: SfpTrace,
    advert: usize,
    base: usize,
    mask: u32,
    values: Vals,
    param: Seq<char>,
) -> (bool, SfpTrace) {
    let at = linear(DURATIONS_PAGE as nat, advert as nat) as usize;
    let t1 = t.then_ask(SfpAsk::Read(at, 1));
    if or_zero(t.byte(at)) & 0x01 != 0 {
        si_param_staged(t1, base, 1, mask, values, param)
    } else {
        (true, t1)
    }
}

/// Whether staging a receiver parameter succeeds, and the trace after it.
pub open spec fn rx_staged(
    t: SfpTrace,
    param: Seq<char>,
    mask: u32,
    values: Vals,
) -> (bool, SfpTrace) {
    if param == "CDREnableRx"@ {
        si_param_if_supported(
            t,
            SI_ADV_RX_CDR_OFFSET,
            SI_CDR_ENABLE_RX_OFFSET,
            mask,
            values,
            param,
        )
    } else if param == "OutputEqPreCursorTargetRx"@ {
        si_param_staged(t, SI_OUTPUT_EQ_PRE_CURSOR_TARGET_RX_OFFSET, 4, mask, values, param)
    } else if param == "OutputEqPostCursorTargetRx"@ {
        si_param_staged(t, SI_OUTPUT_EQ_POST_CURSOR_TARGET_RX_OFFSET, 4, mask, values, param)
    } else if param == "OutputAmplitudeTargetRx"@ {
        si_param_staged(t, SI_OUTPUT_AMPLITUDE_TARGET_RX_OFFSET, 4, mask, values, param)
    } else {
        (false, t)
    }
}

/// Whether staging a transmitter parameter succeeds, and the trace after it.
pub open spec fn tx_staged(
    t: SfpTrace,
    param: Seq<char>,
    mask: u32,
    values: Vals,
) -> (bool, SfpTrace) {
    if param == "CDREnableTx"@ {
        si_param_if_supported(
            t,
            SI_ADV_TX_CDR_OFFSET,
            SI_CDR_ENABLE_TX_OFFSET,
            mask,
            values,
            param,
        )
    } else if param == "FixedInputEqTargetTx"@ {
        si_param_staged(t, SI_FIXED_INPUT_EQ_TARGET_TX_OFFSET, 4, mask, values, param)
    } else if param == "AdaptiveInputEqRecalledTx"@ {
        si_param_staged(t, SI_ADAPTIVE_INPUT_EQ_RECALLED_TX_OFFSET, 2, mask, values, param)
    } else if param == "AdaptiveInputEqEnableTx"@ {
        si_param_staged(t, SI_ADAPTIVE_INPUT_EQ_ENABLE_TX_OFFSET, 1, mask, values, param)
    } else {
        (false, t)
    }
}

/// Whether a parameter is one of the receivers or, else, of the transmitters.
pub open spec fn on_side(param: Seq<char>, rx: bool) -> bool {
    without_suffix(
        param,
        if rx {
            "Rx"@
        } else {
            "Tx"@
        },
    ) is Some
}

/// Whether staging the parameters of one side from parameter `i` on succeeds,
/// and the trace after it. The first that fails ends it.
pub open spec fn side_staged(
    t: SfpTrace,
    si: Seq<(Seq<char>, Vals)>,
    mask: u32,
    rx: bool,
    i: nat,
) -> (bool, SfpTrace)
    decreases si.len() - i,
{
    if i >= si.len() {
        (true, t)
    } else if !on_side(si[i as int].0, rx) {
        side_staged(t, si, mask, rx, i + 1)
    } else {
        let r = if rx {
            rx_staged(t, si[i as int].0, mask, si[i as int].1)
        } else {
            tx_staged(t, si[i as int].0, mask, si[i as int].1)
        };
        if r.0 {
            side_staged(r.1, si, mask, rx, i + 1)
        } else {
            r
        }
    }
}

/// Whether staging all parameters succeeds, and the trace after it: first those
/// of the receivers, after them those of the transmitters.
pub open spec fn si_staged(
    t: SfpTrace,
    si: Seq<(Seq<char>, Vals)>,
    mask: u32,
) -> (bool, SfpTrace) {
    let r = side_staged(t, si, mask, true, 0);
    if r.0 {
        side_staged(r.1, si, mask, false, 0)
    } else {
        r
    }
}

// ---- laser ----

/// The number in a register of two bytes.
pub open spec fn word(t: SfpTrace, at: usize) -> Option<i16> {
    match t.read(at, 2) {
        Some(b) => if b.len() >= 2 {
            Some(be_i16(b[0], b[1]))
        } else {
            None
        },
        None => None,
    }
}

/// The number in a register of two bytes, or 0.
pub open spec fn word_or_zero(t: SfpTrace, at: usize) -> i64 {
    match word(t, at) {
        Some(v) => v as i64,
        None => 0,
    }
}

/// The width of a grid, in eighths of a GHz; `None` for the reserved codes and
/// for the 75 and 150 GHz grids, whose channels are counted in steps of 25 GHz.
pub open spec fn grid_eighths(code: u8) -> Option<i64> {
    match code {
        6 => Some(264),
        5 => Some(800),
        4 => Some(400),
        3 => Some(200),
        2 => Some(100),
        1 => Some(50),
        0 => Some(25),
        _ => None,
    }
}

/// The frequency of a channel of a grid, in GHz; 0 for a reserved grid.
pub open spec fn channel_freq(code: u8, channel: int) -> int {
    if code == 7 {
        FREQ_BASE_GHZ + channel * 25
    } else if code == 8 {
        FREQ_BASE_GHZ + (channel + 3) * 25
    } else {
        match grid_eighths(code) {
            Some(e) => FREQ_BASE_GHZ + rounded_quotient(channel * e, 8),
            None => 0,
        }
    }
}

/// The code and the channel of a frequency on a grid; `None` where the module
/// lacks the grid or the channel is none of the grid.
pub open spec fn freq_channel(grids: i64, freq: int, grid: u32) -> Option<(u8, int)> {
    if grid == 75 {
        let ch = rounded_quotient(freq - FREQ_BASE_GHZ, 25);
        if (grids >> 7) & 1 == 1 && ch % 3 == 0 {
            Some((GRID_75GHZ_CODE, ch))
        } else {
            None
        }
    } else if grid == 100 {
        if (grids >> 5) & 1 == 1 {
            Some((GRID_100GHZ_CODE, rounded_quotient(freq - FREQ_BASE_GHZ, 100)))
        } else {
            None
        }
    } else if grid == 150 {
        let ch = rounded_quotient(freq - FREQ_BASE_GHZ, 25) - 3;
        if ch % 6 == 0 {
            Some((GRID_150GHZ_CODE, ch))
        } else {
            None
        }
    } else {
        None
    }
}

/// A frequency that lies on the grid is the frequency of its channel.
pub proof fn freq_reads_back(grids: i64, freq: int, grid: u32)
    requires
        freq_channel(grids, freq, grid) is Some,
        grid == 100 ==> (freq - FREQ_BASE_GHZ) % 100 == 0,
        grid != 100 ==> (freq - FREQ_BASE_GHZ) % 25 == 0,
    ensures
        ({
            let c = freq_channel(grids, freq, grid)->0;
            channel_freq(c.0 >> 4, c.1) == freq
        }),
{
    let x = freq - FREQ_BASE_GHZ;
    assert(0x70u8 >> 4 == 7 && 0x50u8 >> 4 == 5 && 0x80u8 >> 4 == 8) by (bit_vector);
    if grid == 100 {
        let k = x / 100;
        assert(x == 100 * k);
        assert(rounded_quotient(x, 100) == k);
        assert(rounded_quotient(k * 800, 8) == k * 100);
    } else {
        let k = x / 25;
        assert(x == 25 * k);
        if k >= 0 {
            assert((50 * k + 25) / 50 == k);
        } else {
            assert((-50 * k + 25) / 50 == -k);
        }
        assert(rounded_quotient(x, 25) == k);
    }
}

/// What the module supports, and the trace after it has been read.
pub open spec fn freq_config(t: SfpTrace) -> ((i64, i64, i64, i64, i64), SfpTrace) {
    let g = linear(CCMIS_CFG_SUPPORT_PAGE as nat, SUPPORT_GRID_OFFSET as nat) as usize;
    let l = linear(CCMIS_CFG_SUPPORT_PAGE as nat, LOW_CHANNEL_OFFSET as nat) as usize;
    let h = linear(CCMIS_CFG_SUPPORT_PAGE as nat, HIGH_CHANNEL_OFFSET as nat) as usize;
    let t1 = t.then_ask(SfpAsk::Read(g, 1));
    let t2 = t1.then_ask(SfpAsk::Read(l, 2));
    let t3 = t2.then_ask(SfpAsk::Read(h, 2));
    let low = word_or_zero(t1, l);
    let high = word_or_zero(t2, h);
    (
        (
            or_zero(t.byte(g)) as i64,
            low,
            high,
            (FREQ_BASE_GHZ + low * 25) as i64,
            (FREQ_BASE_GHZ + high * 25) as i64,
        ),
        t3,
    )
}

/// Whether tuning the laser succeeds, and the trace after it. A channel out of
/// range is found out after the grid has been written.
pub open spec fn laser_tuned(t: SfpTrace, freq: int, grid: u32) -> (bool, SfpTrace) {
    let c = freq_config(t);
    match freq_channel(c.0.0, freq, grid) {
        None => (false, c.1),
        Some((code, ch)) => {
            let g = linear(TUNABLE_LASER_PAGE as nat, GRID_SPACING_OFFSET as nat) as usize;
            let l = linear(TUNABLE_LASER_PAGE as nat, LASER_CONFIG_CHANNEL_OFFSET as nat) as usize;
            let t1 = c.1.then_ask(SfpAsk::Write(g, seq![code]));
            if !c.1.writes(g, seq![code]) || ch > c.0.2 || ch < c.0.1 {
                (false, t1)
            } else {
                let b = be_bytes(ch as i16);
                (t1.writes(l, b), t1.then_ask(SfpAsk::Write(l, b)))
            }
        },
    }
}

// ---- identity and status ----

/// The interface as contracts see it: the module, the identity where it has
/// been read, and the flat memory bit where it has been read.
pub struct CmisView {
    pub t: SfpTrace,
    pub info: Option<ReplyView>,
    pub flat: Option<bool>,
}

impl CmisView {
    /// The interface after one more request to the module.
    pub open spec fn then_ask(self, a: SfpAsk) -> CmisView {
        CmisView { t: self.t.then_ask(a), ..self }
    }
}

/// The fields of a reply that is an object.
pub open spec fn object_fields(r: Option<ReplyView>) -> Option<Vals> {
    match r {
        Some(r) => r.fields,
        None => None,
    }
}

/// The value of a field of an object.
pub open spec fn object_field(f: Option<Vals>, name: Seq<char>) -> Option<Val> {
    match f {
        Some(f) => field(f, name),
        None => None,
    }
}

/// The text of a field of an object.
pub open spec fn object_text(f: Option<Vals>, name: Seq<char>) -> Option<Seq<char>> {
    match object_field(f, name) {
        Some(Val::Str(s)) => Some(s),
        _ => None,
    }
}

/// The text of a field of an object, or `default`.
pub open spec fn object_text_or(
    f: Option<Vals>,
    name: Seq<char>,
    default: Seq<char>,
) -> Seq<char> {
    match object_text(f, name) {
        Some(s) => s,
        None => default,
    }
}

/// The identity, and the interface after it has been asked for. It is read once
/// and kept; a read that fails is made again the next time.
pub open spec fn identity(c: CmisView) -> (Option<Vals>, CmisView) {
    match c.info {
        Some(r) => (r.fields, c),
        None => (
            object_fields(c.t.info()),
            CmisView { info: c.t.info(), ..c.then_ask(SfpAsk::Info) },
        ),
    }
}

/// The status, and the interface after it has been read.
pub open spec fn status(c: CmisView) -> (Option<Vals>, CmisView) {
    (object_fields(c.t.status()), c.then_ask(SfpAsk::Status))
}

/// Whether the memory is flat, and the interface after that has been asked for.
/// The bit is read once and kept. Where it cannot be read, a module that tells
/// neither its state nor its revision is taken for a flat one.
pub open spec fn flat_memory(c: CmisView) -> (bool, CmisView) {
    match c.flat {
        Some(v) => (v, c),
        None => {
            let c1 = c.then_ask(SfpAsk::Read(CMIS_FLAT_MEM_LINEAR, 1));
            match c.t.byte(CMIS_FLAT_MEM_LINEAR) {
                Some(b) => (
                    b & CMIS_FLAT_MEM_BIT != 0,
                    CmisView { flat: Some(b & CMIS_FLAT_MEM_BIT != 0), ..c1 },
                ),
                None => {
                    let s = status(c1);
                    if object_field(s.0, "module_state"@) is Some {
                        (false, s.1)
                    } else {
                        let i = identity(s.1);
                        (object_field(i.0, "cmis_rev"@) is None, i.1)
                    }
                },
            }
        },
    }
}

/// The byte of an advertised duration, where the memory has pages, and the
/// interface after it has been read; `None` in the first part for a flat memory.
pub open spec fn duration_byte(c: CmisView, offset: usize) -> (Option<Option<u8>>, CmisView) {
    let f = flat_memory(c);
    if f.0 {
        (None, f.1)
    } else {
        let at = linear(DURATIONS_PAGE as nat, offset as nat) as usize;
        (Some(f.1.t.byte(at)), f.1.then_ask(SfpAsk::Read(at, 1)))
    }
}

/// An advertised duration, in milliseconds; 0 for a flat memory.
pub open spec fn duration(c: CmisView, offset: usize, high: bool) -> (u32, CmisView) {
    let r = duration_byte(c, offset);
    (
        match r.0 {
            Some(b) => nibble_ms(b, high),
            None => 0,
        },
        r.1,
    )
}

/// The JSON text of the application advertisement, and the interface after it
/// has been asked for.
pub open spec fn advertisement(c: CmisView) -> (Option<Seq<char>>, CmisView) {
    let i = identity(c);
    (
        match object_text(i.0, "application_advertisement"@) {
            Some(s) => if s != "N/A"@ {
                parsed_repr(s)
            } else {
                None
            },
            None => None,
        },
        i.1,
    )
}

/// The name of a field of a host lane.
pub open spec fn lane_field(prefix: Seq<char>, n: nat, suffix: Seq<char>) -> Seq<char> {
    prefix + decimal(n) + suffix
}

/// The values of the eight host lanes under other names. A lane without a value
/// has `default`.
pub open spec fn lanes_renamed(
    f: Option<Vals>,
    from: Seq<char>,
    from_end: Seq<char>,
    to: Seq<char>,
    to_end: Seq<char>,
    default: Val,
) -> Vals {
    Seq::new(
        8,
        |i: int|
            (
                lane_field(to, (i + 1) as nat, to_end),
                match object_field(f, lane_field(from, (i + 1) as nat, from_end)) {
                    Some(v) => v,
                    None => default,
                },
            ),
    )
}

/// An unsigned integer as a JSON value.
pub open spec fn number_val(n: u64) -> Val {
    Val::Number { text: decimal(n as nat), zero: n == 0, unsigned: Some(n) }
}

/// The address of the active configuration of a host lane.
pub open spec fn active_config_at(lane: nat) -> usize {
    linear(ACS_PAGE as nat, (ACS_DPCONFIG_BASE_OFFSET + lane) as nat) as usize
}

/// The application in an active configuration; 0 where it cannot be read.
pub open spec fn active_appl(b: Option<u8>) -> u8 {
    match b {
        Some(b) => b >> 4,
        None => 0,
    }
}

/// The active applications of the first `n` host lanes, and the trace after
/// they have been read.
pub open spec fn active_appls(t: SfpTrace, n: nat) -> (Vals, SfpTrace)
    decreases n,
{
    if n == 0 {
        (Seq::empty(), t)
    } else {
        let r = active_appls(t, (n - 1) as nat);
        let at = active_config_at((n - 1) as nat);
        (
            r.0.push(
                (
                    lane_field("ActiveAppSelLane"@, n, ""@),
                    number_val(active_appl(r.1.byte(at)) as u64),
                ),
            ),
            r.1.then_ask(SfpAsk::Read(at, 1)),
        )
    }
}

// ---- laws ----

/// The identity is read once: where the read succeeds, asking again makes no
/// request and gives the same. A read that failed is not kept.
pub proof fn identity_is_read_once(c: CmisView)
    requires
        c.info is None,
    ensures
        c.t.info() is Some ==> identity(identity(c).1) == identity(c),
        c.t.info() is None ==> identity(c).1.info is None,
{
}

/// The flat memory bit is read once: where the read succeeds, asking again makes
/// no request and gives the same.
pub proof fn flat_memory_is_read_once(c: CmisView)
    requires
        c.t.byte(CMIS_FLAT_MEM_LINEAR) is Some,
    ensures
        flat_memory(flat_memory(c).1) == flat_memory(c),
{
}

/// A frequency that is refused for its grid or its channel leaves the module as
/// it was: only the capabilities are read.
pub proof fn refused_frequency_writes_nothing(t: SfpTrace, freq: int, grid: u32)
    requires
        freq_channel(freq_config(t).0.0, freq, grid) is None,
    ensures
        laser_tuned(t, freq, grid) == (false, freq_config(t).1),
{
}

/// The durations of a module with a flat memory are all 0.
pub proof fn flat_memory_has_no_durations(c: CmisView, offset: usize, high: bool)
    requires
        flat_memory(c).0,
    ensures
        duration(c, offset, high).0 == 0,
{
}

// ---- the interface over a module's memory ----

fn lane_in(mask: u32, lane: u32) -> (r: bool)
    requires
        lane < 8,
    ensures
        r == has_lane(mask, lane as nat),
{
    (mask >> lane) & 1 != 0
}

fn read_i16_be<S: SfpHandle>(sfp: &mut S, at: usize) -> (r: Option<i16>)
    ensures
        r == word(old(sfp).trace(), at),
        final(sfp).trace() == old(sfp).trace().then_ask(SfpAsk::Read(at, 2)),
{
    match sfp.read_eeprom(at, 2) {
        Some(v) => if v.len() >= 2 {
            Some((((v[0] as u16) << 8) | (v[1] as u16)) as i16)
        } else {
            None
        },
        None => None,
    }
}

fn read_word<S: SfpHandle>(sfp: &mut S, at: usize) -> (r: i64)
    ensures
        r == word_or_zero(old(sfp).trace(), at),
        -0x8000 <= r <= 0x7fff,
        final(sfp).trace() == old(sfp).trace().then_ask(SfpAsk::Read(at, 2)),
{
    match read_i16_be(sfp, at) {
        Some(v) => v as i64,
        None => 0,
    }
}

fn write_i16_be<S: SfpHandle>(sfp: &mut S, at: usize, v: i16) -> (r: bool)
    ensures
        r == old(sfp).trace().writes(at, be_bytes(v)),
        final(sfp).trace() == old(sfp).trace().then_ask(SfpAsk::Write(at, be_bytes(v))),
{
    let mut b: Vec<u8> = Vec::new();
    b.push(((v as u16) >> 8) as u8);
    b.push((v as u16) as u8);
    assert(b@ =~= be_bytes(v));
    sfp.write_eeprom(at, &b)
}

fn read_or_zero<S: SfpHandle>(sfp: &mut S, at: usize) -> (r: u8)
    ensures
        r == or_zero(old(sfp).trace().byte(at)),
        final(sfp).trace() == old(sfp).trace().then_ask(SfpAsk::Read(at, 1)),
{
    match read_byte(sfp, at) {
        Some(b) => b,
        None => 0,
    }
}

fn lane_text(prefix: &str, n: u64, suffix: &str) -> (r: String)
    ensures
        r@ == lane_field(prefix@, n as nat, suffix@),
{
    join(join(prefix, u64_text(n).as_str()).as_str(), suffix)
}

fn fields_of(r: Option<Reply>) -> (f: Option<Fields>)
    ensures
        match f {
            Some(f) => object_fields(reply_view(r)) == Some(vals(f@)),
            None => object_fields(reply_view(r)) is None,
        },
{
    match r {
        Some(r) => r.fields,
        None => None,
    }
}

/// The view of the fields of an object.
pub open spec fn opt_vals(f: Option<Fields>) -> Option<Vals> {
    match f {
        Some(f) => Some(vals(f@)),
        None => None,
    }
}

fn value_of(f: &Option<Fields>, name: &str) -> (r: Option<Value>)
    ensures
        val_view(r) == object_field(opt_vals(*f), name@),
{
    match f {
        Some(f) => get_field(f, name),
        None => None,
    }
}

fn text_of(f: &Option<Fields>, name: &str) -> (r: Option<String>)
    ensures
        match r {
            Some(s) => object_text(opt_vals(*f), name@) == Some(s@),
            None => object_text(opt_vals(*f), name@) is None,
        },
{
    match value_of(f, name) {
        Some(Value::Str(s)) => Some(s),
        _ => None,
    }
}

fn text_or(f: &Option<Fields>, name: &str, default: &str) -> (r: String)
    ensures
        r@ == object_text_or(opt_vals(*f), name@, default@),
{
    match text_of(f, name) {
        Some(s) => s,
        None => owned(default),
    }
}

fn rename_lanes(
    f: &Option<Fields>,
    from: &str,
    from_end: &str,
    to: &str,
    to_end: &str,
    default: &Value,
) -> (r: Fields)
    ensures
        vals(r@) == lanes_renamed(opt_vals(*f), from@, from_end@, to@, to_end@, default@),
{
    let ghost want = lanes_renamed(opt_vals(*f), from@, from_end@, to@, to_end@, default@);
    let mut r: Fields = Vec::new();
    let mut i: u64 = 0;
    while i < 8
        invariant
            i <= 8,
            want == lanes_renamed(opt_vals(*f), from@, from_end@, to@, to_end@, default@),
            vals(r@) == want.take(i as int),
        decreases 8 - i,
    {
        let v = match value_of(f, lane_text(from, i + 1, from_end).as_str()) {
            Some(v) => v,
            None => default.clone(),
        };
        let ghost before = r@;
        r.push((lane_text(to, i + 1, to_end), v));
        assert(vals(r@) =~= vals(before).push(want[i as int]));
        i += 1;
        assert(want.take(i as int) =~= want.take(i - 1).push(want[i - 1]));
    }
    assert(want.take(i as int) =~= want);
    r
}

/// The control interface over a module's memory.
pub struct BridgeCmisApi<S: SfpHandle> {
    sfp: S,
    info_cache: Option<Reply>,
    flat_mem_cache: Option<bool>,
}

impl<S: SfpHandle> View for BridgeCmisApi<S> {
    type V = CmisView;

    closed spec fn view(&self) -> CmisView {
        CmisView {
            t: self.sfp.trace(),
            info: reply_view(self.info_cache),
            flat: self.flat_mem_cache,
        }
    }
}

impl<S: SfpHandle> BridgeCmisApi<S> {
    /// An interface over the memory of `sfp`.
    pub fn new(sfp: S) -> (a: Self)
        ensures
            a@ == (CmisView { t: sfp.trace(), info: None, flat: None }),
    {
        BridgeCmisApi { sfp, info_cache: None, flat_mem_cache: None }
    }

    /// The module.
    pub fn into_sfp(self) -> (sfp: S)
        ensures
            sfp.trace() == self@.t,
    {
        self.sfp
    }

    fn status(&mut self) -> (f: Option<Fields>)
        ensures
            (opt_vals(f), final(self)@) == status(old(self)@),
    {
        let r = self.sfp.get_transceiver_status();
        fields_of(r)
    }

    fn info(&mut self) -> (f: Option<Fields>)
        ensures
            (opt_vals(f), final(self)@) == identity(old(self)@),
    {
        if self.info_cache.is_none() {
            self.info_cache = self.sfp.get_transceiver_info();
        }
        match &self.info_cache {
            Some(r) => match &r.fields {
                Some(f) => Some(clone_fields(f)),
                None => None,
            },
            None => None,
        }
    }

    fn duration_code_ms(&mut self, offset: usize, high_nibble: bool) -> (r: u32)
        requires
            offset < 1000,
        ensures
            (r, final(self)@) == duration(old(self)@, offset, high_nibble),
    {
        if self.is_flat_memory() {
            return 0;
        }
        match read_byte(&mut self.sfp, cmis_linear(DURATIONS_PAGE, offset)) {
            Some(b) => dp_path_timing_ms(
                if high_nibble {
                    b >> 4
                } else {
                    b & 0x0f
                },
            ),
            None => 0,
        }
    }

    fn drive_datapath(&mut self, mask: u32, down: bool) -> (r: bool)
        ensures
            ({
                let want = dp_driven(old(self)@.t, mask, down);
                r == want.0 && final(self)@ == (CmisView { t: want.1, ..old(self)@ })
            }),
    {
        let at = cmis_linear(SCS0_PAGE, DPDEINIT_OFFSET);
        let mut b = read_or_zero(&mut self.sfp, at);
        let ghost t1 = self.sfp.trace();
        let ghost b1 = b;
        let mut lane: u32 = 0;
        while lane < 8
            invariant
                lane <= 8,
                self.info_cache == old(self).info_cache,
                self.flat_mem_cache == old(self).flat_mem_cache,
                dp_lanes(t1, mask, down, 0, b1) == dp_lanes(
                    self.sfp.trace(),
                    mask,
                    down,
                    lane as nat,
                    b,
                ),
            decreases 8 - lane,
        {
            if lane_in(mask, lane) {
                let v4 = match read_byte(&mut self.sfp, CMIS_REV_LINEAR) {
                    Some(rev) => (rev >> 4) >= 4,
                    None => true,
                };
                if v4 == down {
                    b = b | (1u8 << (lane as u8));
                } else {
                    b = b & !(1u8 << (lane as u8));
                }
            }
            lane += 1;
        }
        write_byte(&mut self.sfp, at, b)
    }

    fn stage_si_param(
        &mut self,
        base: usize,
        bits_per_lane: u32,
        host_lanes_mask: u32,
        sub: &Fields,
        param: &str,
    ) -> (r: bool)
        requires
            base < 1000,
            bits_per_lane == 1 || bits_per_lane == 2 || bits_per_lane == 4,
        ensures
            ({
                let want = si_param_staged(
                    old(self)@.t,
                    base,
                    bits_per_lane,
                    host_lanes_mask,
                    vals(sub@),
                    param@,
                );
                r == want.0 && final(self)@ == (CmisView { t: want.1, ..old(self)@ })
            }),
    {
        proof {
            low_masks();
        }
        let field_mask: u32 = if bits_per_lane == 1 {
            1
        } else if bits_per_lane == 2 {
            3
        } else {
            15
        };
        let ghost v = vals(sub@);
        let ghost start = si_bytes(
            self.sfp.trace(),
            base,
            bits_per_lane,
            host_lanes_mask,
            v,
            param@,
            0,
            Seq::empty(),
        );
        let mut bytes: Vec<(usize, u8)> = Vec::new();
        let mut lane: u32 = 0;
        while lane < 8
            invariant
                lane <= 8,
                base < 1000,
                bits_per_lane == 1 || bits_per_lane == 2 || bits_per_lane == 4,
                field_mask == low_mask(bits_per_lane),
                v == vals(sub@),
                start == si_bytes(
                    old(self)@.t,
                    base,
                    bits_per_lane,
                    host_lanes_mask,
                    v,
                    param@,
                    0,
                    Seq::empty(),
                ),
                self.info_cache == old(self).info_cache,
                self.flat_mem_cache == old(self).flat_mem_cache,
                forall|i: int| 0 <= i < bytes@.len() ==> (#[trigger] bytes@[i]).0 < 2000,
                start == si_bytes(
                    self.sfp.trace(),
                    base,
                    bits_per_lane,
                    host_lanes_mask,
                    v,
                    param@,
                    lane as nat,
                    bytes@,
                ),
            decreases 8 - lane,
        {
            if lane_in(host_lanes_mask, lane) {
                let key = join(param, u64_text((lane + 1) as u64).as_str());
                let val = match get_field(sub, key.as_str()) {
                    Some(x) => json_as_u32(&x),
                    None => None,
                };
                let val: u32 = match val {
                    Some(x) => x,
                    None => {
                        return false;
                    },
                };
                assert(0 <= lane * bits_per_lane <= 28) by (nonlinear_arith)
                    requires
                        lane < 8,
                        0 < bits_per_lane <= 4,
                ;
                let bit_start: u32 = lane * bits_per_lane;
                let off: usize = base + (bit_start / 8) as usize;
                let shift: u32 = bit_start % 8;
                let n = bytes.len();
                let met = n > 0 && bytes[n - 1].0 == off;
                let b: u8 = if met {
                    bytes[n - 1].1
                } else {
                    read_or_zero(&mut self.sfp, cmis_linear(SCS0_PAGE, off))
                };
                let next: u8 = (b & !((field_mask as u8) << (shift as u8))) | (((val & field_mask)
                    as u8) << (shift as u8));
                let ghost before = bytes@;
                if met {
                    bytes.set(n - 1, (off, next));
                    assert(bytes@ =~= before.drop_last().push((off, next)));
                } else {
                    bytes.push((off, next));
                }
            }
            lane += 1;
        }
        let ghost t2 = self.sfp.trace();
        let mut ok = true;
        let mut i: usize = 0;
        while i < bytes.len()
            invariant
                i <= bytes@.len(),
                self.info_cache == old(self).info_cache,
                self.flat_mem_cache == old(self).flat_mem_cache,
                forall|j: int| 0 <= j < bytes@.len() ==> (#[trigger] bytes@[j]).0 < 2000,
                si_written(t2, bytes@, 0, true) == si_written(
                    self.sfp.trace(),
                    bytes@,
                    i as nat,
                    ok,
                ),
            decreases bytes.len() - i,
        {
            let done = write_byte(
                &mut self.sfp,
                cmis_linear(SCS0_PAGE, bytes[i].0),
                bytes[i].1,
            );
            ok = ok && done;
            i += 1;
        }
        ok
    }

    fn stage_if_supported(
        &mut self,
        advert: usize,
        base: usize,
        host_lanes_mask: u32,
        sub: &Fields,
        param: &str,
    ) -> (r: bool)
        requires
            base < 1000,
            advert < 1000,
        ensures
            ({
                let want = si_param_if_supported(
                    old(self)@.t,
                    advert,
                    base,
                    host_lanes_mask,
                    vals(sub@),
                    param@,
                );
                r == want.0 && final(self)@ == (CmisView { t: want.1, ..old(self)@ })
            }),
    {
        if read_or_zero(&mut self.sfp, cmis_linear(DURATIONS_PAGE, advert)) & 0x01 != 0 {
            self.stage_si_param(base, 1, host_lanes_mask, sub, param)
        } else {
            true
        }
    }

    fn stage_rx_si_param(&mut self, param: &str, host_lanes_mask: u32, sub: &Fields) -> (r: bool)
        ensures
            ({
                let want = rx_staged(old(self)@.t, param@, host_lanes_mask, vals(sub@));
                r == want.0 && final(self)@ == (CmisView { t: want.1, ..old(self)@ })
            }),
    {
        if str_eq(param, "CDREnableRx") {
            self.stage_if_supported(
                SI_ADV_RX_CDR_OFFSET,
                SI_CDR_ENABLE_RX_OFFSET,
                host_lanes_mask,
                sub,
                param,
            )
        } else if str_eq(param, "OutputEqPreCursorTargetRx") {
            self.stage_si_param(
                SI_OUTPUT_EQ_PRE_CURSOR_TARGET_RX_OFFSET,
                4,
                host_lanes_mask,
                sub,
                param,
            )
        } else if str_eq(param, "OutputEqPostCursorTargetRx") {
            self.stage_si_param(
                SI_OUTPUT_EQ_POST_CURSOR_TARGET_RX_OFFSET,
                4,
                host_lanes_mask,
                sub,
                param,
            )
        } else if str_eq(param, "OutputAmplitudeTargetRx") {
            self.stage_si_param(
                SI_OUTPUT_AMPLITUDE_TARGET_RX_OFFSET,
                4,
                host_lanes_mask,
                sub,
                param,
            )
        } else {
            false
        }
    }

    fn stage_tx_si_param(&mut self, param: &str, host_lanes_mask: u32, sub: &Fields) -> (r: bool)
        ensures
            ({
                let want = tx_staged(old(self)@.t, param@, host_lanes_mask, vals(sub@));
                r == want.0 && final(self)@ == (CmisView { t: want.1, ..old(self)@ })
            }),
    {
        if str_eq(param, "CDREnableTx") {
            self.stage_if_supported(
                SI_ADV_TX_CDR_OFFSET,
                SI_CDR_ENABLE_TX_OFFSET,
                host_lanes_mask,
                sub,
                param,
            )
        } else if str_eq(param, "FixedInputEqTargetTx") {
            self.stage_si_param(
                SI_FIXED_INPUT_EQ_TARGET_TX_OFFSET,
                4,
                host_lanes_mask,
                sub,
                param,
            )
        } else if str_eq(param, "AdaptiveInputEqRecalledTx") {
            self.stage_si_param(
                SI_ADAPTIVE_INPUT_EQ_RECALLED_TX_OFFSET,
                2,
                host_lanes_mask,
                sub,
                param,
            )
        } else if str_eq(param, "AdaptiveInputEqEnableTx") {
            self.stage_si_param(
                SI_ADAPTIVE_INPUT_EQ_ENABLE_TX_OFFSET,
                1,
                host_lanes_mask,
                sub,
                param,
            )
        } else {
            false
        }
    }

    fn stage_side(&mut self, host_lanes_mask: u32, si: &OpticsSi, rx: bool) -> (r: bool)
        ensures
            ({
                let want = side_staged(old(self)@.t, si_view(si@), host_lanes_mask, rx, 0);
                r == want.0 && final(self)@ == (CmisView { t: want.1, ..old(self)@ })
            }),
    {
        let ghost v = si_view(si@);
        let mut i: usize = 0;
        while i < si.len()
            invariant
                i <= si@.len(),
                v == si_view(si@),
                self@.info == old(self)@.info,
                self@.flat == old(self)@.flat,
                side_staged(old(self)@.t, v, host_lanes_mask, rx, 0) == side_staged(
                    self.sfp.trace(),
                    v,
                    host_lanes_mask,
                    rx,
                    i as nat,
                ),
            decreases si.len() - i,
        {
            assert(v[i as int] == (si@[i as int].0@, vals(si@[i as int].1@)));
            let suffix = if rx {
                "Rx"
            } else {
                "Tx"
            };
            if strip_suffix(si[i].0.as_str(), suffix).is_some() {
                let done = if rx {
                    self.stage_rx_si_param(si[i].0.as_str(), host_lanes_mask, &si[i].1)
                } else {
                    self.stage_tx_si_param(si[i].0.as_str(), host_lanes_mask, &si[i].1)
                };
                if !done {
                    return false;
                }
            }
            i += 1;
        }
        true
    }
}

impl<S: SfpHandle> CmisApi for BridgeCmisApi<S> {
    fn is_flat_memory(&mut self) -> (r: bool)
        ensures
            (r, final(self)@) == flat_memory(old(self)@),
    {
        match self.flat_mem_cache {
            Some(v) => {
                return v;
            },
            None => {},
        }
        match read_byte(&mut self.sfp, CMIS_FLAT_MEM_LINEAR) {
            Some(b) => {
                let v = b & CMIS_FLAT_MEM_BIT != 0;
                self.flat_mem_cache = Some(v);
                return v;
            },
            None => {},
        }
        let s = self.status();
        if value_of(&s, "module_state").is_some() {
            return false;
        }
        let i = self.info();
        value_of(&i, "cmis_rev").is_none()
    }

    fn is_coherent_module(&mut self) -> (r: bool)
        ensures
            r == (object_field(identity(old(self)@).0, "supported_max_laser_freq"@) is Some),
            final(self)@ == identity(old(self)@).1,
    {
        let i = self.info();
        value_of(&i, "supported_max_laser_freq").is_some()
    }

    fn get_module_type_abbreviation(&mut self) -> (r: Option<String>)
        ensures
            match r {
                Some(s) => object_text(identity(old(self)@).0, "type_abbrv_name"@) == Some(s@),
                None => object_text(identity(old(self)@).0, "type_abbrv_name"@) is None,
            },
            final(self)@ == identity(old(self)@).1,
    {
        let i = self.info();
        text_of(&i, "type_abbrv_name")
    }

    fn get_module_state(&mut self) -> (r: String)
        ensures
            r@ == object_text_or(status(old(self)@).0, "module_state"@, ""@),
            final(self)@ == status(old(self)@).1,
    {
        let s = self.status();
        text_or(&s, "module_state", "")
    }

    fn get_cmis_rev(&mut self) -> (r: String)
        ensures
            r@ == object_text_or(identity(old(self)@).0, "cmis_rev"@, "5.0"@),
            final(self)@ == identity(old(self)@).1,
    {
        let i = self.info();
        text_or(&i, "cmis_rev", "5.0")
    }

    fn get_application_advertisement(&mut self) -> (r: Option<String>)
        ensures
            (
                match r {
                    Some(s) => Some(s@),
                    None => None,
                },
                final(self)@,
            ) == advertisement(old(self)@),
    {
        let i = self.info();
        match text_of(&i, "application_advertisement") {
            Some(s) => if !str_eq(s.as_str(), "N/A") {
                py_repr_to_json(s.as_str())
            } else {
                None
            },
            None => None,
        }
    }

    fn get_host_lane_assignment_option(&mut self, appl: u32) -> (r: u32)
        ensures
            r == advert_field(
                advertisement(old(self)@).0,
                appl,
                "host_lane_assignment_options"@,
                0,
            ),
            final(self)@ == advertisement(old(self)@).1,
    {
        let a = self.get_application_advertisement();
        advert_field_u32(&a, appl, "host_lane_assignment_options", 0)
    }

    fn get_media_lane_count(&mut self, appl: u32) -> (r: u32)
        ensures
            r == advert_field(advertisement(old(self)@).0, appl, "media_lane_count"@, 1),
            final(self)@ == advertisement(old(self)@).1,
    {
        let a = self.get_application_advertisement();
        advert_field_u32(&a, appl, "media_lane_count", 1)
    }

    fn get_media_lane_assignment_option(&mut self, appl: u32) -> (r: u32)
        ensures
            r == advert_field(
                advertisement(old(self)@).0,
                appl,
                "media_lane_assignment_options"@,
                1,
            ),
            final(self)@ == advertisement(old(self)@).1,
    {
        let a = self.get_application_advertisement();
        advert_field_u32(&a, appl, "media_lane_assignment_options", 1)
    }

    fn get_datapath_state(&mut self) -> (r: Fields)
        ensures
            vals(r@) == lanes_renamed(
                status(old(self)@).0,
                "DP"@,
                "State"@,
                "DP"@,
                "State"@,
                Val::Null,
            ),
            final(self)@ == status(old(self)@).1,
    {
        let s = self.status();
        rename_lanes(&s, "DP", "State", "DP", "State", &Value::Null)
    }

    fn get_config_datapath_hostlane_status(&mut self) -> (r: Fields)
        ensures
            vals(r@) == lanes_renamed(
                status(old(self)@).0,
                "config_state_hostlane"@,
                ""@,
                "ConfigStatusLane"@,
                ""@,
                Val::Null,
            ),
            final(self)@ == status(old(self)@).1,
    {
        let s = self.status();
        rename_lanes(&s, "config_state_hostlane", "", "ConfigStatusLane", "", &Value::Null)
    }

    fn get_dpinit_pending(&mut self) -> (r: Fields)
        ensures
            vals(r@) == lanes_renamed(
                status(old(self)@).0,
                "dpinit_pending_hostlane"@,
                ""@,
                "DPInitPending"@,
                ""@,
                Val::Bool(false),
            ),
            final(self)@ == status(old(self)@).1,
    {
        let s = self.status();
        rename_lanes(&s, "dpinit_pending_hostlane", "", "DPInitPending", "", &Value::Bool(false))
    }

    fn get_active_apsel_hostlane(&mut self) -> (r: Result<Fields, XcvrdError>)
        ensures
            r is Ok,
            vals(r->Ok_0@) == active_appls(old(self)@.t, 8).0,
            final(self)@ == (CmisView { t: active_appls(old(self)@.t, 8).1, ..old(self)@ }),
    {
        let mut f: Fields = Vec::new();
        let mut lane: usize = 0;
        assert(vals(f@) =~= Seq::empty());
        while lane < 8
            invariant
                lane <= 8,
                self.info_cache == old(self).info_cache,
                self.flat_mem_cache == old(self).flat_mem_cache,
                (vals(f@), self.sfp.trace()) == active_appls(old(self)@.t, lane as nat),
            decreases 8 - lane,
        {
            let ghost before = f@;
            let apsel: u64 = match read_byte(
                &mut self.sfp,
                cmis_linear(ACS_PAGE, ACS_DPCONFIG_BASE_OFFSET + lane),
            ) {
                Some(b) => (b >> 4) as u64,
                None => 0,
            };
            let n = Number { text: u64_text(apsel), zero: apsel == 0, unsigned: Some(apsel) };
            let ghost nv = Value::Number(n)@;
            let name = lane_text("ActiveAppSelLane", (lane + 1) as u64, "");
            let ghost nm = name@;
            f.push((name, Value::Number(n)));
            assert(vals(f@) =~= vals(before).push((nm, nv)));
            lane += 1;
        }
        Ok(f)
    }

    fn get_application(&mut self, lane: u32) -> (r: u32)
        ensures
            r == active_appl(old(self)@.t.byte(active_config_at(lane as nat))),
            final(self)@ == old(self)@.then_ask(SfpAsk::Read(active_config_at(lane as nat), 1)),
    {
        let at = cmis_linear(ACS_PAGE, ACS_DPCONFIG_BASE_OFFSET + lane as usize);
        match read_byte(&mut self.sfp, at) {
            Some(b) => (b >> 4) as u32,
            None => 0,
        }
    }

    fn get_datapath_init_duration(&mut self) -> (r: u32)
        ensures
            r == (match duration_byte(old(self)@, DP_INIT_DEINIT_OFFSET).0 {
                Some(b) => init_ms(b),
                None => 0,
            }),
            final(self)@ == duration_byte(old(self)@, DP_INIT_DEINIT_OFFSET).1,
    {
        let ms = self.duration_code_ms(DP_INIT_DEINIT_OFFSET, false);
        if ms <= 1000 {
            ms * 10
        } else {
            ms
        }
    }

    fn get_datapath_deinit_duration(&mut self) -> (r: u32)
        ensures
            (r, final(self)@) == duration(old(self)@, DP_INIT_DEINIT_OFFSET, true),
    {
        self.duration_code_ms(DP_INIT_DEINIT_OFFSET, true)
    }

    fn get_datapath_tx_turnon_duration(&mut self) -> (r: u32)
        ensures
            (r, final(self)@) == duration(old(self)@, DP_TX_TURN_OFFSET, false),
    {
        self.duration_code_ms(DP_TX_TURN_OFFSET, false)
    }

    fn get_datapath_tx_turnoff_duration(&mut self) -> (r: u32)
        ensures
            (r, final(self)@) == duration(old(self)@, DP_TX_TURN_OFFSET, true),
    {
        self.duration_code_ms(DP_TX_TURN_OFFSET, true)
    }

    fn get_module_pwr_up_duration(&mut self) -> (r: u32)
        ensures
            (r, final(self)@) == duration(old(self)@, MODULE_PWR_OFFSET, false),
    {
        self.duration_code_ms(MODULE_PWR_OFFSET, false)
    }

    fn get_module_pwr_down_duration(&mut self) -> (r: u32)
        ensures
            (r, final(self)@) == duration(old(self)@, MODULE_PWR_OFFSET, true),
    {
        self.duration_code_ms(MODULE_PWR_OFFSET, true)
    }

    fn get_tx_config_power(&mut self) -> (r: i64)
        ensures
            ({
                let at = linear(TUNABLE_LASER_PAGE as nat, TX_CONFIG_POWER_OFFSET as nat) as usize;
                &&& r == word_or_zero(old(self)@.t, at)
                &&& final(self)@ == old(self)@.then_ask(SfpAsk::Read(at, 2))
            }),
    {
        read_word(&mut self.sfp, cmis_linear(TUNABLE_LASER_PAGE, TX_CONFIG_POWER_OFFSET))
    }

    fn get_laser_config_freq(&mut self) -> (r: i64)
        ensures
            ({
                let g = linear(TUNABLE_LASER_PAGE as nat, GRID_SPACING_OFFSET as nat) as usize;
                let l = linear(
                    TUNABLE_LASER_PAGE as nat,
                    LASER_CONFIG_CHANNEL_OFFSET as nat,
                ) as usize;
                let c1 = old(self)@.then_ask(SfpAsk::Read(g, 1));
                &&& r == channel_freq(
                    (or_zero(old(self)@.t.byte(g)) & 0xf0) >> 4,
                    word_or_zero(c1.t, l) as int,
                )
                &&& final(self)@ == c1.then_ask(SfpAsk::Read(l, 2))
            }),
    {
        let grid = read_or_zero(
            &mut self.sfp,
            cmis_linear(TUNABLE_LASER_PAGE, GRID_SPACING_OFFSET),
        );
        let channel: i64 = read_word(
            &mut self.sfp,
            cmis_linear(TUNABLE_LASER_PAGE, LASER_CONFIG_CHANNEL_OFFSET),
        );
        let code: u8 = (grid & 0xf0) >> 4;
        let eighths: i64 = match code {
            8 => {
                return FREQ_BASE_GHZ + (channel + 3) * 25;
            },
            7 => {
                return FREQ_BASE_GHZ + channel * 25;
            },
            6 => 264,
            5 => 800,
            4 => 400,
            3 => 200,
            2 => 100,
            1 => 50,
            0 => 25,
            _ => {
                return 0;
            },
        };
        assert(-0x8000 * 800 <= channel * eighths <= 0x8000 * 800) by (nonlinear_arith)
            requires
                -0x8000 <= channel <= 0x7fff,
                25 <= eighths <= 800,
        ;
        FREQ_BASE_GHZ + round_quotient(channel * eighths, 8)
    }

    fn get_supported_freq_config(&mut self) -> (r: (i64, i64, i64, i64, i64))
        ensures
            r == freq_config(old(self)@.t).0,
            final(self)@ == (CmisView { t: freq_config(old(self)@.t).1, ..old(self)@ }),
    {
        let grid: i64 = read_or_zero(
            &mut self.sfp,
            cmis_linear(CCMIS_CFG_SUPPORT_PAGE, SUPPORT_GRID_OFFSET),
        ) as i64;
        let low: i64 = read_word(
            &mut self.sfp,
            cmis_linear(CCMIS_CFG_SUPPORT_PAGE, LOW_CHANNEL_OFFSET),
        );
        let high: i64 = read_word(
            &mut self.sfp,
            cmis_linear(CCMIS_CFG_SUPPORT_PAGE, HIGH_CHANNEL_OFFSET),
        );
        (grid, low, high, FREQ_BASE_GHZ + low * 25, FREQ_BASE_GHZ + high * 25)
    }

    fn get_supported_power_config(&mut self) -> (r: (i64, i64))
        ensures
            ({
                let a = linear(
                    CCMIS_CFG_SUPPORT_PAGE as nat,
                    MIN_PROG_POWER_OFFSET as nat,
                ) as usize;
                let b = linear(
                    CCMIS_CFG_SUPPORT_PAGE as nat,
                    MAX_PROG_POWER_OFFSET as nat,
                ) as usize;
                let c1 = old(self)@.then_ask(SfpAsk::Read(a, 2));
                &&& r == (word_or_zero(old(self)@.t, a), word_or_zero(c1.t, b))
                &&& final(self)@ == c1.then_ask(SfpAsk::Read(b, 2))
            }),
    {
        let min: i64 = read_word(
            &mut self.sfp,
            cmis_linear(CCMIS_CFG_SUPPORT_PAGE, MIN_PROG_POWER_OFFSET),
        );
        let max: i64 = read_word(
            &mut self.sfp,
            cmis_linear(CCMIS_CFG_SUPPORT_PAGE, MAX_PROG_POWER_OFFSET),
        );
        (min, max)
    }

    fn get_tuning_in_progress(&mut self) -> (r: bool)
        ensures
            !r,
            final(self)@ == old(self)@,
    {
        false
    }

    fn get_manufacturer(&mut self) -> (r: String)
        ensures
            r@ == object_text_or(identity(old(self)@).0, "manufacturer"@, ""@),
            final(self)@ == identity(old(self)@).1,
    {
        let i = self.info();
        text_or(&i, "manufacturer", "")
    }

    fn get_model(&mut self) -> (r: String)
        ensures
            r@ == object_text_or(identity(old(self)@).0, "model"@, ""@),
            final(self)@ == identity(old(self)@).1,
    {
        let i = self.info();
        text_or(&i, "model", "")
    }

    fn set_datapath_deinit(&mut self, host_lanes_mask: u32) -> (r: bool)
        ensures
            r == dp_driven(old(self)@.t, host_lanes_mask, true).0,
            final(self)@ == (CmisView {
                t: dp_driven(old(self)@.t, host_lanes_mask, true).1,
                ..old(self)@
            }),
    {
        self.drive_datapath(host_lanes_mask, true)
    }

    fn set_datapath_init(&mut self, host_lanes_mask: u32) -> (r: bool)
        ensures
            r == dp_driven(old(self)@.t, host_lanes_mask, false).0,
            final(self)@ == (CmisView {
                t: dp_driven(old(self)@.t, host_lanes_mask, false).1,
                ..old(self)@
            }),
    {
        self.drive_datapath(host_lanes_mask, false)
    }

    fn tx_disable_channel(&mut self, media_lanes_mask: u32, disable: bool) -> (r: bool)
        ensures
            r == tx_switched(old(self)@.t, media_lanes_mask, disable).0,
            final(self)@ == (CmisView {
                t: tx_switched(old(self)@.t, media_lanes_mask, disable).1,
                ..old(self)@
            }),
    {
        let at = cmis_linear(SCS0_PAGE, OUTPUT_DISABLE_TX_OFFSET);
        let mut b = read_or_zero(&mut self.sfp, at);
        let ghost b1 = b;
        let mut lane: u32 = 0;
        while lane < 8
            invariant
                lane <= 8,
                with_lanes(b1, media_lanes_mask, disable, 0) == with_lanes(
                    b,
                    media_lanes_mask,
                    disable,
                    lane as nat,
                ),
            decreases 8 - lane,
        {
            if lane_in(media_lanes_mask, lane) {
                if disable {
                    b = b | (1u8 << (lane as u8));
                } else {
                    b = b & !(1u8 << (lane as u8));
                }
            }
            lane += 1;
        }
        write_byte(&mut self.sfp, at, b)
    }

    fn set_lpmode(&mut self, lpmode: bool, wait_state_change: bool) -> (r: bool)
        ensures
            r == (old(self)@.t.answers.set_lpmode)(old(self)@.t.asked, lpmode),
            final(self)@ == old(self)@.then_ask(SfpAsk::SetLpmode(lpmode)),
    {
        self.sfp.set_lpmode(lpmode)
    }

    fn set_application(&mut self, host_lanes_mask: u32, appl: u32, ec: u32) -> (r: bool)
        ensures
            ({
                let want = appl_staged(old(self)@.t, host_lanes_mask, appl, ec, 0, None, true);
                r == want.0 && final(self)@ == (CmisView { t: want.1, ..old(self)@ })
            }),
    {
        let mut first: Option<u32> = None;
        let mut ok = true;
        let mut lane: u32 = 0;
        while lane < 8
            invariant
                lane <= 8,
                first matches Some(f) ==> f < 8,
                self.info_cache == old(self).info_cache,
                self.flat_mem_cache == old(self).flat_mem_cache,
                appl_staged(old(self)@.t, host_lanes_mask, appl, ec, 0, None, true) == appl_staged(
                    self.sfp.trace(),
                    host_lanes_mask,
                    appl,
                    ec,
                    lane as nat,
                    match first {
                        Some(f) => Some(f as nat),
                        None => None,
                    },
                    ok,
                ),
            decreases 8 - lane,
        {
            if lane_in(host_lanes_mask, lane) {
                let f: u32 = match first {
                    Some(f) => f,
                    None => lane,
                };
                let data: u8 = ((appl << 4) | (f << 1) | ec) as u8;
                let done = write_byte(
                    &mut self.sfp,
                    cmis_linear(SCS0_PAGE, DPCONFIG_BASE_OFFSET + lane as usize),
                    data,
                );
                ok = ok && done;
                first = Some(f);
            }
            lane += 1;
        }
        ok
    }

    fn scs_apply_datapath_init(&mut self, host_lanes_mask: u32) -> (r: bool)
        ensures
            ({
                let at = scs(APPLY_DPINIT_OFFSET as int);
                let b = seq![host_lanes_mask as u8];
                &&& r == old(self)@.t.writes(at, b)
                &&& final(self)@ == old(self)@.then_ask(SfpAsk::Write(at, b))
            }),
            (r, final(self)@.t) == init_applied(old(self)@.t, host_lanes_mask),
    {
        let at = cmis_linear(SCS0_PAGE, APPLY_DPINIT_OFFSET);
        write_byte(&mut self.sfp, at, host_lanes_mask as u8)
    }

    fn stage_custom_si_settings(
        &mut self,
        host_lanes_mask: u32,
        optics_si_dict: &OpticsSi,
    ) -> (r: bool)
        ensures
            ({
                let want = si_staged(old(self)@.t, si_view(optics_si_dict@), host_lanes_mask);
                r == want.0 && final(self)@ == (CmisView { t: want.1, ..old(self)@ })
            }),
    {
        if !self.stage_side(host_lanes_mask, optics_si_dict, true) {
            return false;
        }
        self.stage_side(host_lanes_mask, optics_si_dict, false)
    }

    fn set_tx_power(&mut self, tx_power: i16) -> (r: bool)
        ensures
            ({
                let at = linear(TUNABLE_LASER_PAGE as nat, TX_CONFIG_POWER_OFFSET as nat) as usize;
                let b = be_bytes(tx_power);
                &&& r == old(self)@.t.writes(at, b)
                &&& final(self)@ == old(self)@.then_ask(SfpAsk::Write(at, b)).then_ask(
                    SfpAsk::Sleep(1000),
                )
            }),
    {
        let done = write_i16_be(
            &mut self.sfp,
            cmis_linear(TUNABLE_LASER_PAGE, TX_CONFIG_POWER_OFFSET),
            tx_power,
        );
        self.sfp.sleep(1000);
        done
    }

    fn set_laser_freq(&mut self, freq: i64, grid: u32) -> (r: bool)
        ensures
            ({
                let want = laser_tuned(old(self)@.t, freq as int, grid);
                r == want.0 && final(self)@ == (CmisView { t: want.1, ..old(self)@ })
            }),
    {
        let config = self.get_supported_freq_config();
        let grids: i64 = config.0;
        let code: u8;
        let channel: i64;
        if grid == 75 {
            if (grids >> 7) & 1 != 1 {
                return false;
            }
            let ch: i64 = round_quotient(freq - FREQ_BASE_GHZ, 25);
            if !divides(3, ch) {
                return false;
            }
            code = GRID_75GHZ_CODE;
            channel = ch;
        } else if grid == 100 {
            if (grids >> 5) & 1 != 1 {
                return false;
            }
            code = GRID_100GHZ_CODE;
            channel = round_quotient(freq - FREQ_BASE_GHZ, 100);
        } else if grid == 150 {
            let ch: i64 = round_quotient(freq - FREQ_BASE_GHZ, 25) - 3;
            if !divides(6, ch) {
                return false;
            }
            code = GRID_150GHZ_CODE;
            channel = ch;
        } else {
            return false;
        }
        if !write_byte(
            &mut self.sfp,
            cmis_linear(TUNABLE_LASER_PAGE, GRID_SPACING_OFFSET),
            code,
        ) {
            return false;
        }
        if channel > config.2 || channel < config.1 {
            return false;
        }
        write_i16_be(
            &mut self.sfp,
            cmis_linear(TUNABLE_LASER_PAGE, LASER_CONFIG_CHANNEL_OFFSET),
            channel as i16,
        )
    }
}

fn divides(d: i64, n: i64) -> (r: bool)
    requires
        d == 3 || d == 6,
        i64::MIN < n,
    ensures
        r == (n % d == 0),
{
    let m: i64 = if n < 0 {
        -n
    } else {
        n
    };
    m % d == 0
}

} // verus!
