//! The tables of the databases that the transceiver tasks share.

use vstd::prelude::*;

use crate::db::{value_at, DbTable, Rows};
use crate::dom::db_utils::{FlagRows, FlagTables};
use crate::dom::vdm::{VdmRows, VdmTables};
use crate::mock::MockDbTable;
use crate::text::{contains, occurs, str_eq};

verus! {

/// The tables of one ASIC.
pub struct AsicTables<T: DbTable> {
    /// Module identity.
    pub intf: T,
    /// Monitor values.
    pub dom: T,
    /// Module temperature.
    pub dom_temperature: T,
    /// Monitor thresholds.
    pub dom_threshold: T,
    /// Latched monitor flags.
    pub dom_flags: FlagTables<T>,
    /// Observables.
    pub vdm: VdmTables<T>,
    /// Module status as the hardware reports it.
    pub status: T,
    /// Latched status flags.
    pub status_flags: FlagTables<T>,
    /// Module status as the daemon keeps it.
    pub status_sw: T,
    /// Performance monitoring.
    pub pm: T,
    /// Firmware versions.
    pub firmware_info: T,
    /// Port configuration.
    pub cfg_port: T,
    /// Ports as the application database has them.
    pub app_port: T,
    /// Ports as the state database has them.
    pub state_port: T,
}

/// The rows of the tables of one ASIC.
pub struct AsicRows {
    pub intf: Rows,
    pub dom: Rows,
    pub dom_temperature: Rows,
    pub dom_threshold: Rows,
    pub dom_flags: FlagRows,
    pub vdm: VdmRows,
    pub status: Rows,
    pub status_flags: FlagRows,
    pub status_sw: Rows,
    pub pm: Rows,
    pub firmware_info: Rows,
    pub cfg_port: Rows,
    pub app_port: Rows,
    pub state_port: Rows,
    /// Whether the number of fields of a flag row can be read.
    pub flag_sizes_readable: bool,
}

impl<T: DbTable> AsicTables<T> {
    /// The rows of the tables.
    pub open spec fn rows(&self) -> AsicRows {
        AsicRows {
            intf: self.intf.rows(),
            dom: self.dom.rows(),
            dom_temperature: self.dom_temperature.rows(),
            dom_threshold: self.dom_threshold.rows(),
            dom_flags: self.dom_flags.rows(),
            vdm: self.vdm.rows(),
            status: self.status.rows(),
            status_flags: self.status_flags.rows(),
            status_sw: self.status_sw.rows(),
            pm: self.pm.rows(),
            firmware_info: self.firmware_info.rows(),
            cfg_port: self.cfg_port.rows(),
            app_port: self.app_port.rows(),
            state_port: self.state_port.rows(),
            flag_sizes_readable: self.dom_flags.value.sizes_readable(),
        }
    }
}

/// The tables of all ASICs.
pub struct XcvrTableHelper<T: DbTable> {
    pub asics: Vec<AsicTables<T>>,
}

impl<T: DbTable> XcvrTableHelper<T> {
    /// The rows of the tables, by ASIC.
    pub open spec fn rows(&self) -> Seq<AsicRows> {
        self.asics@.map_values(|a: AsicTables<T>| a.rows())
    }

    /// Each ASIC has its tables for every family of observables.
    pub open spec fn wf(&self) -> bool {
        forall|i: int| 0 <= i < self.asics@.len() ==> (#[trigger] self.asics@[i]).vdm.wf()
    }
}

/// The state of the data path bring-up of a port.
pub open spec fn cmis_state(status_sw: Rows, name: Seq<char>) -> Seq<char> {
    match value_at(status_sw, name, "cmis_state"@) {
        Some(s) => s,
        None => "UNKNOWN"@,
    }
}

/// Whether the bring-up of a data path has come to rest.
pub open spec fn is_terminal(state: Seq<char>) -> bool {
    state == "FAILED"@ || state == "READY"@ || state == "REMOVED"@
}

/// Whether an error of the module keeps it from being read.
pub open spec fn is_blocked(status_sw: Rows, name: Seq<char>) -> bool {
    match value_at(status_sw, name, "error"@) {
        Some(s) => occurs(s, "Blocking EEPROM from being read"@),
        None => false,
    }
}

/// The state of the data path bring-up of a port.
pub fn get_cmis_state_from_state_db<T: DbTable>(name: &str, status_sw: &T) -> (r: String)
    ensures
        r@ == cmis_state(status_sw.rows(), name@),
{
    match status_sw.hget(name, "cmis_state") {
        Some(s) => s,
        None => "UNKNOWN".to_owned(),
    }
}

/// Whether the bring-up of a data path has come to rest.
pub fn is_terminal_state(state: &str) -> (r: bool)
    ensures
        r == is_terminal(state@),
{
    str_eq(state, "FAILED") || str_eq(state, "READY") || str_eq(state, "REMOVED")
}

/// Whether an error of the module keeps it from being read.
pub fn detect_port_in_error_status<T: DbTable>(name: &str, status_sw: &T) -> (r: bool)
    ensures
        r == is_blocked(status_sw.rows(), name@),
{
    match status_sw.hget(name, "error") {
        Some(s) => contains(s.as_str(), "Blocking EEPROM from being read"),
        None => false,
    }
}

/// Flag tables without rows.
pub open spec fn no_flag_rows() -> FlagRows {
    FlagRows {
        value: Map::empty(),
        change_count: Map::empty(),
        set_time: Map::empty(),
        clear_time: Map::empty(),
    }
}

/// Tables without rows.
pub open spec fn no_rows() -> AsicRows {
    AsicRows {
        intf: Map::empty(),
        dom: Map::empty(),
        dom_temperature: Map::empty(),
        dom_threshold: Map::empty(),
        dom_flags: no_flag_rows(),
        vdm: VdmRows {
            real_value: Map::empty(),
            flags: seq![no_flag_rows(), no_flag_rows(), no_flag_rows(), no_flag_rows()],
            thresholds: seq![Map::empty(), Map::empty(), Map::empty(), Map::empty()],
        },
        status: Map::empty(),
        status_flags: no_flag_rows(),
        status_sw: Map::empty(),
        pm: Map::empty(),
        firmware_info: Map::empty(),
        cfg_port: Map::empty(),
        app_port: Map::empty(),
        state_port: Map::empty(),
        flag_sizes_readable: true,
    }
}

/// Empty flag tables in memory.
fn mock_flags(name: &str) -> (t: FlagTables<MockDbTable>)
    ensures
        t.rows() == no_flag_rows(),
        t.value.sizes_readable(),
{
    FlagTables {
        value: MockDbTable::new(name),
        change_count: MockDbTable::new(name),
        set_time: MockDbTable::new(name),
        clear_time: MockDbTable::new(name),
    }
}

impl XcvrTableHelper<MockDbTable> {
    /// Empty tables in memory for one ASIC.
    pub fn with_mock_tables() -> (h: Self)
        ensures
            h.wf(),
            h.rows() == seq![no_rows()],
    {
        let mut flags: Vec<FlagTables<MockDbTable>> = Vec::new();
        flags.push(mock_flags("TRANSCEIVER_VDM_HALARM_FLAG"));
        flags.push(mock_flags("TRANSCEIVER_VDM_LALARM_FLAG"));
        flags.push(mock_flags("TRANSCEIVER_VDM_HWARN_FLAG"));
        flags.push(mock_flags("TRANSCEIVER_VDM_LWARN_FLAG"));
        let mut thresholds: Vec<MockDbTable> = Vec::new();
        thresholds.push(MockDbTable::new("TRANSCEIVER_VDM_HALARM_THRESHOLD"));
        thresholds.push(MockDbTable::new("TRANSCEIVER_VDM_LALARM_THRESHOLD"));
        thresholds.push(MockDbTable::new("TRANSCEIVER_VDM_HWARN_THRESHOLD"));
        thresholds.push(MockDbTable::new("TRANSCEIVER_VDM_LWARN_THRESHOLD"));
        let mut asics: Vec<AsicTables<MockDbTable>> = Vec::new();
        asics.push(
            AsicTables {
                intf: MockDbTable::new("TRANSCEIVER_INFO"),
                dom: MockDbTable::new("TRANSCEIVER_DOM_SENSOR"),
                dom_temperature: MockDbTable::new("TRANSCEIVER_DOM_TEMPERATURE"),
                dom_threshold: MockDbTable::new("TRANSCEIVER_DOM_THRESHOLD"),
                dom_flags: mock_flags("TRANSCEIVER_DOM_FLAG"),
                vdm: VdmTables {
                    real_value: MockDbTable::new("TRANSCEIVER_VDM_REAL_VALUE"),
                    flags,
                    thresholds,
                },
                status: MockDbTable::new("TRANSCEIVER_STATUS"),
                status_flags: mock_flags("TRANSCEIVER_STATUS_FLAG"),
                status_sw: MockDbTable::new("TRANSCEIVER_STATUS_SW"),
                pm: MockDbTable::new("TRANSCEIVER_PM"),
                firmware_info: MockDbTable::new("TRANSCEIVER_FIRMWARE_INFO"),
                cfg_port: MockDbTable::new("PORT"),
                app_port: MockDbTable::new("PORT_TABLE"),
                state_port: MockDbTable::new("PORT_TABLE"),
            },
        );
        let h = XcvrTableHelper { asics };
        assert(h.asics@[0].vdm.rows().flags =~= no_rows().vdm.flags);
        assert(h.asics@[0].vdm.rows().thresholds =~= no_rows().vdm.thresholds);
        assert(h.rows() =~= seq![no_rows()]);
        h
    }
}

} // verus!
