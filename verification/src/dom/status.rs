//! Module status: the state of the module and of its data paths.

use vstd::prelude::*;

use crate::db::DbTable;
use crate::dom::db_utils::{Beautify, DbCache, DbUtils, FlagTables, Reader};
use crate::dom::dom_sensor::{posted_flag_family, posted_monitor};
use crate::hal::{Ask, Hal};
use crate::json::{
    field, get_field, object_of, object_reply, put_field, reply_view, vals, with_field, Fields, Reply,
    ReplyView, Val, Vals, Value,
};
use crate::port::PortMapping;
use crate::text::{decimal, join, owned, str_eq, u64_text};

verus! {

/// The field that holds the data path state of a lane.
pub open spec fn datapath_key(lane: nat) -> Seq<char> {
    "DP"@ + decimal(lane) + "State"@
}

/// The field that holds the configuration state of a host lane.
pub open spec fn config_key(lane: nat) -> Seq<char> {
    "config_state_hostlane"@ + decimal(lane)
}

/// Whether the data path of the lane is reported as deactivated.
pub open spec fn lane_down(f: Vals, lane: nat) -> bool {
    field(f, datapath_key(lane)) == Some(Val::Str("DataPathDeactivated"@))
}

/// The status with the configuration state of one lane masked, where its data
/// path is down.
pub open spec fn lane_masked(f: Vals, lane: nat) -> Vals {
    if lane_down(f, lane) && field(f, config_key(lane)) is Some {
        with_field(f, config_key(lane), Val::Str("ConfigUndefined"@))
    } else {
        f
    }
}

/// The status with the configuration states of the lanes from `lane` to 8
/// masked.
pub open spec fn masked_from(f: Vals, lane: nat) -> Vals
    decreases 9 - lane,
{
    if lane > 8 {
        f
    } else {
        masked_from(lane_masked(f, lane), lane + 1)
    }
}

/// A status reading with the stale configuration states masked. A reading that
/// is no object stays as it is.
pub open spec fn projected(raw: Option<ReplyView>) -> Option<ReplyView> {
    match raw {
        Some(r) => match r.fields {
            Some(f) => Some(object_reply(masked_from(f, 1))),
            None => Some(r),
        },
        None => None,
    }
}

fn lane_name(prefix: &str, lane: u64, suffix: &str) -> (r: String)
    ensures
        r@ == prefix@ + decimal(lane as nat) + suffix@,
{
    let mut s = join(prefix, u64_text(lane).as_str());
    s.append(suffix);
    s
}

/// Masks the configuration state of every host lane whose data path is down: a
/// lane without a live data path has no live configuration result.
pub fn project_config_state_by_datapath(f: &mut Fields)
    ensures
        vals(final(f)@) == masked_from(vals(old(f)@), 1),
{
    let ghost start = vals(f@);
    let mut lane: u64 = 1;
    while lane <= 8
        invariant
            1 <= lane <= 9,
            masked_from(vals(f@), lane as nat) == masked_from(start, 1),
        decreases 9 - lane,
    {
        let state = get_field(f, lane_name("DP", lane, "State").as_str());
        let down = match &state {
            Some(Value::Str(s)) => str_eq(s.as_str(), "DataPathDeactivated"),
            _ => false,
        };
        assert(down == lane_down(vals(f@), lane as nat));
        if down {
            let key = lane_name("config_state_hostlane", lane, "");
            proof {
                reveal_strlit("");
                assert("config_state_hostlane"@ + decimal(lane as nat) + ""@ =~= config_key(
                    lane as nat,
                ));
            }
            if get_field(f, key.as_str()).is_some() {
                put_field(f, key, Value::Str(owned("ConfigUndefined")));
            }
        }
        lane += 1;
    }
}

/// Reads the status of a module.
pub struct StatusUtils;

impl StatusUtils {
    pub fn new() -> Self {
        StatusUtils
    }

    /// The module status, with stale configuration states masked.
    pub fn get_transceiver_status<H: Hal>(&self, hal: &mut H, port: usize) -> (r: Option<Reply>)
        ensures
            reply_view(r) == projected(old(hal).trace().json(port, "get_transceiver_status"@)),
            final(hal).trace() == old(hal).trace().then_ask(
                Ask::Json(port, "get_transceiver_status"@),
            ),
    {
        match hal.call_json(port, "get_transceiver_status") {
            Some(r) => match r.fields {
                Some(f) => {
                    let mut f = f;
                    project_config_state_by_datapath(&mut f);
                    Some(object_of(f))
                },
                None => Some(Reply { value: r.value, fields: None }),
            },
            None => None,
        }
    }

    /// The latched status flags.
    pub fn get_transceiver_status_flags<H: Hal>(&self, hal: &mut H, port: usize) -> (r: Option<
        Reply,
    >)
        ensures
            reply_view(r) == old(hal).trace().json(port, "get_transceiver_status_flags"@),
            final(hal).trace() == old(hal).trace().then_ask(
                Ask::Json(port, "get_transceiver_status_flags"@),
            ),
    {
        hal.call_json(port, "get_transceiver_status_flags")
    }
}

/// Publishes the status of a module.
pub struct StatusDbUtils {
    base: DbUtils,
}

impl StatusDbUtils {
    pub fn new() -> Self {
        StatusDbUtils { base: DbUtils::new() }
    }

    /// Publishes the status of a port's module.
    pub fn post_port_transceiver_hw_status_to_db<T: DbTable, H: Hal>(
        &self,
        name: &str,
        m: &PortMapping,
        table: &mut T,
        hal: &mut H,
        cache: &mut DbCache,
    )
        ensures
            (final(table).rows(), final(cache)@, final(hal).trace()) == posted_monitor::<T>(
                old(table).rows(),
                old(cache)@,
                m@,
                old(hal).trace(),
                name@,
                Reader::Status,
                Beautify::Plain,
            ),
            final(table).sizes_readable() == old(table).sizes_readable(),
    {
        if m.get_asic_id_for_logical_port(name).is_none() {
            return;
        }
        self.base.post_diagnostic_values_to_db(
            name,
            m,
            table,
            hal,
            Reader::Status,
            cache,
            Beautify::Plain,
            false,
        );
    }

    /// Publishes the latched status flags of a port and records how they moved.
    pub fn post_port_transceiver_hw_status_flags_to_db<T: DbTable, H: Hal>(
        &self,
        name: &str,
        m: &PortMapping,
        tables: &mut FlagTables<T>,
        hal: &mut H,
        cache: &mut DbCache,
    ) -> (posted: bool)
        ensures
            (final(tables).rows(), final(cache)@, final(hal).trace(), posted)
                == posted_flag_family::<T>(
                old(tables).rows(),
                old(cache)@,
                m@,
                old(hal).trace(),
                name@,
                Reader::StatusFlags,
                Beautify::Plain,
            ),
            final(tables).value.sizes_readable() == old(tables).value.sizes_readable(),
    {
        if m.get_asic_id_for_logical_port(name).is_none() {
            return false;
        }
        self.base.post_flags_to_db(
            name,
            m,
            hal,
            tables,
            Reader::StatusFlags,
            Beautify::Plain,
            cache,
        )
    }
}

impl Default for StatusUtils {
    fn default() -> Self {
        StatusUtils::new()
    }
}

impl Default for StatusDbUtils {
    fn default() -> Self {
        StatusDbUtils::new()
    }
}

} // verus!
