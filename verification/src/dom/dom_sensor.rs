//! Module monitors: temperature, voltage, and the power and bias of each lane.

use vstd::prelude::*;

use crate::db::{DbTable, Rows};
use crate::dom::db_utils::{
    beautify, posted_diag, posted_flags, Beautify, CacheView, DbCache, DbUtils, FlagRows,
    FlagTables, Reader,
};
use crate::hal::{Ask, Hal, Trace};
use crate::json::{object_of, object_reply, reply_view, vals, Fields, Reply, ReplyView, Val};
use crate::port::{MappingView, PortMapping};
use crate::text::owned;

verus! {

/// A reading of the temperature as an object with one field.
pub open spec fn temperature_reply(raw: Option<ReplyView>) -> Option<ReplyView> {
    match raw {
        Some(r) => Some(object_reply(seq![("temperature"@, r.value)])),
        None => None,
    }
}

/// Reads the monitors of a module.
pub struct DomUtils;

impl DomUtils {
    pub fn new() -> Self {
        DomUtils
    }

    /// The module temperature, as an object with the field `temperature`.
    pub fn get_transceiver_dom_temperature<H: Hal>(&self, hal: &mut H, port: usize) -> (r: Option<
        Reply,
    >)
        ensures
            reply_view(r) == temperature_reply(old(hal).trace().json(port, "get_temperature"@)),
            final(hal).trace() == old(hal).trace().then_ask(Ask::Json(port, "get_temperature"@)),
    {
        match hal.call_json(port, "get_temperature") {
            Some(temp) => {
                let mut f: Fields = Vec::new();
                let ghost v = temp.value@;
                f.push((owned("temperature"), temp.value));
                assert(vals(f@) =~= seq![("temperature"@, v)]);
                Some(object_of(f))
            },
            None => None,
        }
    }

    /// The monitor values.
    pub fn get_transceiver_dom_sensor_real_value<H: Hal>(&self, hal: &mut H, port: usize) -> (r:
        Option<Reply>)
        ensures
            reply_view(r) == old(hal).trace().json(port, "get_transceiver_dom_real_value"@),
            final(hal).trace() == old(hal).trace().then_ask(
                Ask::Json(port, "get_transceiver_dom_real_value"@),
            ),
    {
        hal.call_json(port, "get_transceiver_dom_real_value")
    }

    /// The latched monitor flags.
    pub fn get_transceiver_dom_flags<H: Hal>(&self, hal: &mut H, port: usize) -> (r: Option<Reply>)
        ensures
            reply_view(r) == old(hal).trace().json(port, "get_transceiver_dom_flags"@),
            final(hal).trace() == old(hal).trace().then_ask(
                Ask::Json(port, "get_transceiver_dom_flags"@),
            ),
    {
        hal.call_json(port, "get_transceiver_dom_flags")
    }

    /// The alarm and warning thresholds.
    pub fn get_transceiver_dom_thresholds<H: Hal>(&self, hal: &mut H, port: usize) -> (r: Option<
        Reply,
    >)
        ensures
            reply_view(r) == old(hal).trace().json(port, "get_transceiver_threshold_info"@),
            final(hal).trace() == old(hal).trace().then_ask(
                Ask::Json(port, "get_transceiver_threshold_info"@),
            ),
    {
        hal.call_json(port, "get_transceiver_threshold_info")
    }
}

/// Publishes the monitors of a module.
pub struct DomDbUtils {
    base: DbUtils,
}

/// The rows after a reading of port `name` is published, where the port is
/// served by an ASIC.
pub open spec fn posted_monitor<T: DbTable>(
    rows: Rows,
    cache: CacheView,
    m: MappingView,
    tr: Trace,
    name: Seq<char>,
    reader: Reader,
    b: Beautify,
) -> (Rows, CacheView, Trace) {
    if m.asic_of(name) is None {
        (rows, cache, tr)
    } else {
        posted_diag::<T>(rows, cache, m, tr, name, reader, b, false)
    }
}

/// The tables after the flags of port `name` are published, where the port is
/// served by an ASIC, and whether they were.
pub open spec fn posted_flag_family<T: DbTable>(
    t: FlagRows,
    cache: CacheView,
    m: MappingView,
    tr: Trace,
    name: Seq<char>,
    reader: Reader,
    b: Beautify,
) -> (FlagRows, CacheView, Trace, bool) {
    if m.asic_of(name) is None {
        (t, cache, tr, false)
    } else {
        posted_flags::<T>(t, cache, m, tr, name, reader, b)
    }
}

impl DomDbUtils {
    pub const TEMP_UNIT: &'static str = "C";

    pub const VOLT_UNIT: &'static str = "Volts";

    pub const POWER_UNIT: &'static str = "dBm";

    pub const BIAS_UNIT: &'static str = "mA";

    pub fn new() -> Self {
        DomDbUtils { base: DbUtils::new() }
    }

    /// Publishes the monitor values of a port.
    pub fn post_port_dom_sensor_info_to_db<T: DbTable, H: Hal>(
        &self,
        name: &str,
        m: &PortMapping,
        table: &mut T,
        hal: &mut H,
        cache: &mut DbCache,
    )
        ensures
            (final(table).rows(), final(cache)@, final(hal).trace()) == posted_monitor::<T>(
                old(table).rows(),
                old(cache)@,
                m@,
                old(hal).trace(),
                name@,
                Reader::Sensor,
                Beautify::Dom,
            ),
            final(table).sizes_readable() == old(table).sizes_readable(),
    {
        if m.get_asic_id_for_logical_port(name).is_none() {
            return;
        }
        self.base.post_diagnostic_values_to_db(
            name,
            m,
            table,
            hal,
            Reader::Sensor,
            cache,
            Beautify::Dom,
            false,
        );
    }

    /// Publishes the temperature of a port's module.
    pub fn post_port_dom_temperature_info_to_db<T: DbTable, H: Hal>(
        &self,
        name: &str,
        m: &PortMapping,
        table: &mut T,
        hal: &mut H,
        cache: &mut DbCache,
    )
        ensures
            (final(table).rows(), final(cache)@, final(hal).trace()) == posted_monitor::<T>(
                old(table).rows(),
                old(cache)@,
                m@,
                old(hal).trace(),
                name@,
                Reader::Temperature,
                Beautify::Dom,
            ),
            final(table).sizes_readable() == old(table).sizes_readable(),
    {
        if m.get_asic_id_for_logical_port(name).is_none() {
            return;
        }
        self.base.post_diagnostic_values_to_db(
            name,
            m,
            table,
            hal,
            Reader::Temperature,
            cache,
            Beautify::Dom,
            false,
        );
    }

    /// Publishes the alarm and warning thresholds of a port's module.
    pub fn post_port_dom_thresholds_to_db<T: DbTable, H: Hal>(
        &self,
        name: &str,
        m: &PortMapping,
        table: &mut T,
        hal: &mut H,
        cache: &mut DbCache,
    )
        ensures
            (final(table).rows(), final(cache)@, final(hal).trace()) == posted_monitor::<T>(
                old(table).rows(),
                old(cache)@,
                m@,
                old(hal).trace(),
                name@,
                Reader::Thresholds,
                Beautify::Dom,
            ),
            final(table).sizes_readable() == old(table).sizes_readable(),
    {
        if m.get_asic_id_for_logical_port(name).is_none() {
            return;
        }
        self.base.post_diagnostic_values_to_db(
            name,
            m,
            table,
            hal,
            Reader::Thresholds,
            cache,
            Beautify::Dom,
            false,
        );
    }

    /// Publishes the latched monitor flags of a port and records how they
    /// moved. Returns whether a row was published.
    pub fn post_port_dom_flags_to_db<T: DbTable, H: Hal>(
        &self,
        name: &str,
        m: &PortMapping,
        hal: &mut H,
        tables: &mut FlagTables<T>,
        cache: &mut DbCache,
    ) -> (posted: bool)
        ensures
            (final(tables).rows(), final(cache)@, final(hal).trace(), posted)
                == posted_flag_family::<T>(
                old(tables).rows(),
                old(cache)@,
                m@,
                old(hal).trace(),
                name@,
                Reader::DomFlags,
                Beautify::Dom,
            ),
            final(tables).value.sizes_readable() == old(tables).value.sizes_readable(),
    {
        if m.get_asic_id_for_logical_port(name).is_none() {
            return false;
        }
        self.base.post_flags_to_db(name, m, hal, tables, Reader::DomFlags, Beautify::Dom, cache)
    }

    /// Takes the units off the monitor values and turns every other value into
    /// its text.
    pub fn beautify_dom_info_dict(f: &mut Fields)
        ensures
            vals(final(f)@) == vals(old(f)@).map_values(
                |p: (Seq<char>, Val)| (p.0, Val::Str(crate::dom::db_utils::dom_text(p.0, p.1))),
            ),
    {
        let ghost start = vals(f@);
        beautify(Beautify::Dom, f);
        assert(vals(f@) =~= start.map_values(
            |p: (Seq<char>, Val)| (p.0, Val::Str(crate::dom::db_utils::dom_text(p.0, p.1))),
        ));
    }
}

impl Default for DomUtils {
    fn default() -> Self {
        DomUtils::new()
    }
}

impl Default for DomDbUtils {
    fn default() -> Self {
        DomDbUtils::new()
    }
}

} // verus!
