//! A stand-in for the control interface of a module with a CMIS memory map,
//! with set answers and a record of the calls.

use vstd::prelude::*;

use crate::assoc::OrderedMap;
use crate::cmis::advert::{advert_field, advert_field_u32};
use crate::cmis::cmis_api::{si_view, CmisApi, OpticsSi};
use crate::db::text_view;
use crate::error::{error_text, XcvrdError};
use crate::json::{clone_fields, vals, Fields, Vals};
use crate::text::{owned, str_eq};

verus! {

/// The view of a result.
pub open spec fn result_view(r: Result<Fields, XcvrdError>) -> Result<Vals, Seq<char>> {
    match r {
        Ok(f) => Ok(vals(f@)),
        Err(e) => Err(error_text(e)),
    }
}

/// The views of a list of results.
pub open spec fn results_view(q: Seq<Result<Fields, XcvrdError>>) -> Seq<Result<Vals, Seq<char>>> {
    q.map_values(|r: Result<Fields, XcvrdError>| result_view(r))
}

/// The answers of a [`MockCmisApi`] and what it has kept of its calls.
pub struct CmisCanned {
    pub is_flat_memory: bool,
    pub is_coherent_module: bool,
    pub module_type_abbreviation: Option<Seq<char>>,
    pub module_state: Seq<char>,
    pub cmis_rev: Seq<char>,
    pub application_advertisement: Option<Seq<char>>,
    pub datapath_state: Vals,
    pub config_status: Vals,
    pub dpinit_pending: Vals,
    pub active_apsel: Vals,
    pub active_apsel_queue: Seq<Result<Vals, Seq<char>>>,
    pub application_by_lane: u32,
    pub application_by_lane_map: Map<usize, u32>,
    pub media_lane_count_override: Option<u32>,
    pub dp_init_dur: u32,
    pub dp_deinit_dur: u32,
    pub dp_txon_dur: u32,
    pub dp_txoff_dur: u32,
    pub pwr_up_dur: u32,
    pub pwr_down_dur: u32,
    pub tx_config_power: i64,
    pub laser_config_freq: i64,
    pub tuning_in_progress: bool,
    pub supported_freq_config: (i64, i64, i64, i64, i64),
    pub supported_power_config: (i64, i64),
    pub manufacturer: Seq<char>,
    pub model: Seq<char>,
    pub captured_optics_si: Seq<(Seq<char>, Vals)>,
    pub stage_custom_si_result: bool,
    pub last_set_application_ec: u32,
}

/// The answers of a new stand-in.
pub open spec fn first_canned() -> CmisCanned {
    CmisCanned {
        is_flat_memory: false,
        is_coherent_module: false,
        module_type_abbreviation: Some("QSFP-DD"@),
        module_state: "ModuleReady"@,
        cmis_rev: "5.0"@,
        application_advertisement: None,
        datapath_state: Seq::empty(),
        config_status: Seq::empty(),
        dpinit_pending: Seq::empty(),
        active_apsel: Seq::empty(),
        active_apsel_queue: Seq::empty(),
        application_by_lane: 0,
        application_by_lane_map: Map::empty(),
        media_lane_count_override: None,
        dp_init_dur: 5000,
        dp_deinit_dur: 1,
        dp_txon_dur: 1,
        dp_txoff_dur: 1,
        pwr_up_dur: 1,
        pwr_down_dur: 1,
        tx_config_power: 0,
        laser_config_freq: 0,
        tuning_in_progress: false,
        supported_freq_config: (0, 0, 0, 0, 0),
        supported_power_config: (-4000i64, 1000i64),
        manufacturer: ""@,
        model: ""@,
        captured_optics_si: Seq::empty(),
        stage_custom_si_result: true,
        last_set_application_ec: 0,
    }
}

/// How many of the calls go to the method `name`.
pub open spec fn calls_to(calls: Seq<Seq<char>>, name: Seq<char>) -> nat
    decreases calls.len(),
{
    if calls.len() == 0 {
        0
    } else {
        calls_to(calls.drop_last(), name) + if calls.last() == name {
            1nat
        } else {
            0nat
        }
    }
}

/// A stand-in for [`CmisApi`].
pub struct MockCmisApi {
    is_flat_memory: bool,
    is_coherent_module: bool,
    module_type_abbreviation: Option<String>,
    module_state: String,
    cmis_rev: String,
    application_advertisement: Option<String>,
    datapath_state: Fields,
    config_status: Fields,
    dpinit_pending: Fields,
    active_apsel: Fields,
    active_apsel_queue: Vec<Result<Fields, XcvrdError>>,
    application_by_lane: u32,
    application_by_lane_map: OrderedMap<usize, u32>,
    media_lane_count_override: Option<u32>,
    dp_init_dur: u32,
    dp_deinit_dur: u32,
    dp_txon_dur: u32,
    dp_txoff_dur: u32,
    pwr_up_dur: u32,
    pwr_down_dur: u32,
    tx_config_power: i64,
    laser_config_freq: i64,
    tuning_in_progress: bool,
    supported_freq_config: (i64, i64, i64, i64, i64),
    supported_power_config: (i64, i64),
    manufacturer: String,
    model: String,
    captured_optics_si: OpticsSi,
    stage_custom_si_result: bool,
    last_set_application_ec: u32,
    calls: Vec<String>,
}

fn copy_opt(t: &Option<String>) -> (r: Option<String>)
    ensures
        text_view(r) == text_view(*t),
{
    match t {
        Some(s) => Some(s.clone()),
        None => None,
    }
}

fn clone_si(si: &OpticsSi) -> (r: OpticsSi)
    ensures
        si_view(r@) == si_view(si@),
{
    let ghost want = si_view(si@);
    let mut r: OpticsSi = Vec::new();
    let mut i: usize = 0;
    assert(si_view(r@) =~= want.take(0));
    while i < si.len()
        invariant
            i <= si@.len(),
            want == si_view(si@),
            si_view(r@) == want.take(i as int),
        decreases si.len() - i,
    {
        let ghost before = r@;
        let p = (si[i].0.clone(), clone_fields(&si[i].1));
        r.push(p);
        assert(si_view(r@) =~= si_view(before).push(want[i as int]));
        i += 1;
        assert(want.take(i as int) =~= want.take(i - 1).push(want[i - 1]));
    }
    assert(want.take(i as int) =~= want);
    r
}

impl MockCmisApi {
    /// The set answers and what was kept of the calls.
    pub closed spec fn canned(&self) -> CmisCanned {
        CmisCanned {
            is_flat_memory: self.is_flat_memory,
            is_coherent_module: self.is_coherent_module,
            module_type_abbreviation: text_view(self.module_type_abbreviation),
            module_state: self.module_state@,
            cmis_rev: self.cmis_rev@,
            application_advertisement: text_view(self.application_advertisement),
            datapath_state: vals(self.datapath_state@),
            config_status: vals(self.config_status@),
            dpinit_pending: vals(self.dpinit_pending@),
            active_apsel: vals(self.active_apsel@),
            active_apsel_queue: results_view(self.active_apsel_queue@),
            application_by_lane: self.application_by_lane,
            application_by_lane_map: self.application_by_lane_map@,
            media_lane_count_override: self.media_lane_count_override,
            dp_init_dur: self.dp_init_dur,
            dp_deinit_dur: self.dp_deinit_dur,
            dp_txon_dur: self.dp_txon_dur,
            dp_txoff_dur: self.dp_txoff_dur,
            pwr_up_dur: self.pwr_up_dur,
            pwr_down_dur: self.pwr_down_dur,
            tx_config_power: self.tx_config_power,
            laser_config_freq: self.laser_config_freq,
            tuning_in_progress: self.tuning_in_progress,
            supported_freq_config: self.supported_freq_config,
            supported_power_config: self.supported_power_config,
            manufacturer: self.manufacturer@,
            model: self.model@,
            captured_optics_si: si_view(self.captured_optics_si@),
            stage_custom_si_result: self.stage_custom_si_result,
            last_set_application_ec: self.last_set_application_ec,
        }
    }

    /// The names of the counted methods that were called, in order.
    pub closed spec fn calls(&self) -> Seq<Seq<char>> {
        self.calls@.map_values(|s: String| s@)
    }

    /// A stand-in with the first answers, not yet called.
    pub fn new() -> (a: Self)
        ensures
            a.canned() == first_canned(),
            a.calls() == Seq::<Seq<char>>::empty(),
    {
        let a = MockCmisApi {
            is_flat_memory: false,
            is_coherent_module: false,
            module_type_abbreviation: Some(owned("QSFP-DD")),
            module_state: owned("ModuleReady"),
            cmis_rev: owned("5.0"),
            application_advertisement: None,
            datapath_state: Vec::new(),
            config_status: Vec::new(),
            dpinit_pending: Vec::new(),
            active_apsel: Vec::new(),
            active_apsel_queue: Vec::new(),
            application_by_lane: 0,
            application_by_lane_map: OrderedMap::new(),
            media_lane_count_override: None,
            dp_init_dur: 5000,
            dp_deinit_dur: 1,
            dp_txon_dur: 1,
            dp_txoff_dur: 1,
            pwr_up_dur: 1,
            pwr_down_dur: 1,
            tx_config_power: 0,
            laser_config_freq: 0,
            tuning_in_progress: false,
            supported_freq_config: (0, 0, 0, 0, 0),
            supported_power_config: (-4000, 1000),
            manufacturer: owned(""),
            model: owned(""),
            captured_optics_si: Vec::new(),
            stage_custom_si_result: true,
            last_set_application_ec: 0,
            calls: Vec::new(),
        };
        assert(a.calls() =~= Seq::<Seq<char>>::empty());
        assert(a.canned().datapath_state =~= Seq::empty());
        assert(a.canned().config_status =~= Seq::empty());
        assert(a.canned().dpinit_pending =~= Seq::empty());
        assert(a.canned().active_apsel =~= Seq::empty());
        assert(a.canned().active_apsel_queue =~= Seq::empty());
        assert(a.canned().captured_optics_si =~= Seq::empty());
        a
    }

    fn bump(&mut self, name: &str)
        ensures
            final(self).canned() == old(self).canned(),
            final(self).calls() == old(self).calls().push(name@),
    {
        self.calls.push(owned(name));
        assert(self.calls() =~= old(self).calls().push(name@));
    }

    /// How often the method `method` was called.
    pub fn call_count(&self, method: &str) -> (n: usize)
        ensures
            n == calls_to(self.calls(), method@),
    {
        let mut n: usize = 0;
        let mut i: usize = 0;
        let ghost c = self.calls();
        assert(c.take(0) =~= Seq::<Seq<char>>::empty());
        while i < self.calls.len()
            invariant
                i <= c.len(),
                c == self.calls(),
                c.len() == self.calls@.len(),
                n <= i,
                n == calls_to(c.take(i as int), method@),
            decreases self.calls.len() - i,
        {
            assert(c.take(i + 1).drop_last() =~= c.take(i as int));
            if str_eq(self.calls[i].as_str(), method) {
                n += 1;
            }
            i += 1;
        }
        assert(c.take(i as int) =~= c);
        n
    }

    /// Sets whether the memory is flat.
    pub fn set_flat_memory(&mut self, v: bool)
        ensures
            final(self).canned() == (CmisCanned { is_flat_memory: v, ..old(self).canned() }),
            final(self).calls() == old(self).calls(),
    {
        self.is_flat_memory = v;
    }

    /// Sets whether the module is coherent.
    pub fn set_coherent_module(&mut self, v: bool)
        ensures
            final(self).canned() == (CmisCanned { is_coherent_module: v, ..old(self).canned() }),
            final(self).calls() == old(self).calls(),
    {
        self.is_coherent_module = v;
    }

    /// Sets the short name of the module type.
    pub fn set_module_type_abbreviation(&mut self, v: Option<String>)
        ensures
            final(self).canned() == (CmisCanned { module_type_abbreviation: text_view(v), ..old(self).canned() }),
            final(self).calls() == old(self).calls(),
    {
        self.module_type_abbreviation = v;
    }

    /// Sets the state of the module.
    pub fn set_module_state(&mut self, v: &str)
        ensures
            final(self).canned() == (CmisCanned { module_state: v@, ..old(self).canned() }),
            final(self).calls() == old(self).calls(),
    {
        self.module_state = owned(v);
    }

    /// Sets the revision of the memory map.
    pub fn set_cmis_rev(&mut self, v: &str)
        ensures
            final(self).canned() == (CmisCanned { cmis_rev: v@, ..old(self).canned() }),
            final(self).calls() == old(self).calls(),
    {
        self.cmis_rev = owned(v);
    }

    /// Sets the JSON text of the application advertisement.
    pub fn set_application_advertisement(&mut self, v: Option<String>)
        ensures
            final(self).canned() == (CmisCanned { application_advertisement: text_view(v), ..old(self).canned() }),
            final(self).calls() == old(self).calls(),
    {
        self.application_advertisement = v;
    }

    /// Sets the states of the data paths.
    pub fn set_datapath_state_value(&mut self, v: Fields)
        ensures
            final(self).canned() == (CmisCanned { datapath_state: vals(v@), ..old(self).canned() }),
            final(self).calls() == old(self).calls(),
    {
        self.datapath_state = v;
    }

    /// Sets the outcomes of the last configuration.
    pub fn set_config_status(&mut self, v: Fields)
        ensures
            final(self).canned() == (CmisCanned { config_status: vals(v@), ..old(self).canned() }),
            final(self).calls() == old(self).calls(),
    {
        self.config_status = v;
    }

    /// Sets where an init is due.
    pub fn set_dpinit_pending(&mut self, v: Fields)
        ensures
            final(self).canned() == (CmisCanned { dpinit_pending: vals(v@), ..old(self).canned() }),
            final(self).calls() == old(self).calls(),
    {
        self.dpinit_pending = v;
    }

    /// Sets the active applications.
    pub fn set_active_apsel(&mut self, v: Fields)
        ensures
            final(self).canned() == (CmisCanned { active_apsel: vals(v@), ..old(self).canned() }),
            final(self).calls() == old(self).calls(),
    {
        self.active_apsel = v;
    }

    /// Sets the active application of all host lanes.
    pub fn set_application_by_lane(&mut self, v: u32)
        ensures
            final(self).canned() == (CmisCanned { application_by_lane: v, ..old(self).canned() }),
            final(self).calls() == old(self).calls(),
    {
        self.application_by_lane = v;
    }

    /// Sets the number of media lanes of all applications.
    pub fn set_media_lane_count_override(&mut self, v: Option<u32>)
        ensures
            final(self).canned() == (CmisCanned { media_lane_count_override: v, ..old(self).canned() }),
            final(self).calls() == old(self).calls(),
    {
        self.media_lane_count_override = v;
    }

    /// Sets the configured output power.
    pub fn set_tx_config_power(&mut self, v: i64)
        ensures
            final(self).canned() == (CmisCanned { tx_config_power: v, ..old(self).canned() }),
            final(self).calls() == old(self).calls(),
    {
        self.tx_config_power = v;
    }

    /// Sets the configured frequency.
    pub fn set_laser_config_freq(&mut self, v: i64)
        ensures
            final(self).canned() == (CmisCanned { laser_config_freq: v, ..old(self).canned() }),
            final(self).calls() == old(self).calls(),
    {
        self.laser_config_freq = v;
    }

    /// Sets the supported grids, channels and frequencies.
    pub fn set_supported_freq_config(&mut self, v: (i64, i64, i64, i64, i64))
        ensures
            final(self).canned() == (CmisCanned { supported_freq_config: v, ..old(self).canned() }),
            final(self).calls() == old(self).calls(),
    {
        self.supported_freq_config = v;
    }

    /// Sets the manufacturer.
    pub fn set_manufacturer(&mut self, v: &str)
        ensures
            final(self).canned() == (CmisCanned { manufacturer: v@, ..old(self).canned() }),
            final(self).calls() == old(self).calls(),
    {
        self.manufacturer = owned(v);
    }

    /// Sets the model.
    pub fn set_model(&mut self, v: &str)
        ensures
            final(self).canned() == (CmisCanned { model: v@, ..old(self).canned() }),
            final(self).calls() == old(self).calls(),
    {
        self.model = owned(v);
    }

    /// Sets whether staging settings of the signal path succeeds.
    pub fn set_stage_custom_si_result(&mut self, v: bool)
        ensures
            final(self).canned() == (CmisCanned { stage_custom_si_result: v, ..old(self).canned() }),
            final(self).calls() == old(self).calls(),
    {
        self.stage_custom_si_result = v;
    }

    /// Puts a result at the end of the queue that `get_active_apsel_hostlane`
    /// serves before it falls back to the set applications.
    pub fn push_active_apsel_result(&mut self, r: Result<Fields, XcvrdError>)
        ensures
            final(self).canned() == (CmisCanned {
                active_apsel_queue: old(self).canned().active_apsel_queue.push(result_view(r)),
                ..old(self).canned()
            }),
            final(self).calls() == old(self).calls(),
    {
        let ghost v = result_view(r);
        self.active_apsel_queue.push(r);
        assert(results_view(self.active_apsel_queue@) =~= old(
            self,
        ).canned().active_apsel_queue.push(v));
    }

    /// Sets the active application of one host lane. Lanes that are not set have
    /// none from then on.
    pub fn set_application_for_lane(&mut self, lane: u32, appl: u32)
        ensures
            final(self).canned() == (CmisCanned {
                application_by_lane_map: old(self).canned().application_by_lane_map.insert(
                    lane as usize,
                    appl,
                ),
                ..old(self).canned()
            }),
            final(self).calls() == old(self).calls(),
    {
        self.application_by_lane_map.insert(lane as usize, appl);
    }

    /// Sets the longest durations, in milliseconds.
    pub fn set_durations_ms(
        &mut self,
        dp_init: u32,
        dp_deinit: u32,
        dp_txon: u32,
        dp_txoff: u32,
        pwr_up: u32,
        pwr_down: u32,
    )
        ensures
            final(self).canned() == (CmisCanned {
                dp_init_dur: dp_init,
                dp_deinit_dur: dp_deinit,
                dp_txon_dur: dp_txon,
                dp_txoff_dur: dp_txoff,
                pwr_up_dur: pwr_up,
                pwr_down_dur: pwr_down,
                ..old(self).canned()
            }),
            final(self).calls() == old(self).calls(),
    {
        self.dp_init_dur = dp_init;
        self.dp_deinit_dur = dp_deinit;
        self.dp_txon_dur = dp_txon;
        self.dp_txoff_dur = dp_txoff;
        self.pwr_up_dur = pwr_up;
        self.pwr_down_dur = pwr_down;
    }

    /// The settings that the last `stage_custom_si_settings` was called with.
    pub fn captured_optics_si(&self) -> (r: OpticsSi)
        ensures
            si_view(r@) == self.canned().captured_optics_si,
    {
        clone_si(&self.captured_optics_si)
    }

    /// The last argument of the last `set_application`.
    pub fn last_set_application_ec(&self) -> (r: u32)
        ensures
            r == self.canned().last_set_application_ec,
    {
        self.last_set_application_ec
    }
}

impl Default for MockCmisApi {
    fn default() -> (a: Self)
        ensures
            a.canned() == first_canned(),
            a.calls() == Seq::<Seq<char>>::empty(),
    {
        MockCmisApi::new()
    }
}

impl CmisApi for MockCmisApi {
    fn is_flat_memory(&mut self) -> (r: bool)
        ensures
            r == old(self).canned().is_flat_memory,
            final(self).canned() == old(self).canned(),
            final(self).calls() == old(self).calls(),
    {
        self.is_flat_memory
    }

    fn is_coherent_module(&mut self) -> (r: bool)
        ensures
            r == old(self).canned().is_coherent_module,
            final(self).canned() == old(self).canned(),
            final(self).calls() == old(self).calls(),
    {
        self.is_coherent_module
    }

    fn get_module_type_abbreviation(&mut self) -> (r: Option<String>)
        ensures
            text_view(r) == old(self).canned().module_type_abbreviation,
            final(self).canned() == old(self).canned(),
            final(self).calls() == old(self).calls(),
    {
        copy_opt(&self.module_type_abbreviation)
    }

    fn get_module_state(&mut self) -> (r: String)
        ensures
            r@ == old(self).canned().module_state,
            final(self).canned() == old(self).canned(),
            final(self).calls() == old(self).calls(),
    {
        self.module_state.clone()
    }

    fn get_cmis_rev(&mut self) -> (r: String)
        ensures
            r@ == old(self).canned().cmis_rev,
            final(self).canned() == old(self).canned(),
            final(self).calls() == old(self).calls(),
    {
        self.cmis_rev.clone()
    }

    fn get_application_advertisement(&mut self) -> (r: Option<String>)
        ensures
            text_view(r) == old(self).canned().application_advertisement,
            final(self).canned() == old(self).canned(),
            final(self).calls() == old(self).calls(),
    {
        copy_opt(&self.application_advertisement)
    }

    fn get_datapath_state(&mut self) -> (r: Fields)
        ensures
            vals(r@) == old(self).canned().datapath_state,
            final(self).canned() == old(self).canned(),
            final(self).calls() == old(self).calls(),
    {
        clone_fields(&self.datapath_state)
    }

    fn get_config_datapath_hostlane_status(&mut self) -> (r: Fields)
        ensures
            vals(r@) == old(self).canned().config_status,
            final(self).canned() == old(self).canned(),
            final(self).calls() == old(self).calls(),
    {
        clone_fields(&self.config_status)
    }

    fn get_dpinit_pending(&mut self) -> (r: Fields)
        ensures
            vals(r@) == old(self).canned().dpinit_pending,
            final(self).canned() == old(self).canned(),
            final(self).calls() == old(self).calls(),
    {
        clone_fields(&self.dpinit_pending)
    }

    fn get_datapath_init_duration(&mut self) -> (r: u32)
        ensures
            r == old(self).canned().dp_init_dur,
            final(self).canned() == old(self).canned(),
            final(self).calls() == old(self).calls(),
    {
        self.dp_init_dur
    }

    fn get_datapath_deinit_duration(&mut self) -> (r: u32)
        ensures
            r == old(self).canned().dp_deinit_dur,
            final(self).canned() == old(self).canned(),
            final(self).calls() == old(self).calls(),
    {
        self.dp_deinit_dur
    }

    fn get_datapath_tx_turnon_duration(&mut self) -> (r: u32)
        ensures
            r == old(self).canned().dp_txon_dur,
            final(self).canned() == old(self).canned(),
            final(self).calls() == old(self).calls(),
    {
        self.dp_txon_dur
    }

    fn get_datapath_tx_turnoff_duration(&mut self) -> (r: u32)
        ensures
            r == old(self).canned().dp_txoff_dur,
            final(self).canned() == old(self).canned(),
            final(self).calls() == old(self).calls(),
    {
        self.dp_txoff_dur
    }

    fn get_module_pwr_up_duration(&mut self) -> (r: u32)
        ensures
            r == old(self).canned().pwr_up_dur,
            final(self).canned() == old(self).canned(),
            final(self).calls() == old(self).calls(),
    {
        self.pwr_up_dur
    }

    fn get_module_pwr_down_duration(&mut self) -> (r: u32)
        ensures
            r == old(self).canned().pwr_down_dur,
            final(self).canned() == old(self).canned(),
            final(self).calls() == old(self).calls(),
    {
        self.pwr_down_dur
    }

    fn get_tx_config_power(&mut self) -> (r: i64)
        ensures
            r == old(self).canned().tx_config_power,
            final(self).canned() == old(self).canned(),
            final(self).calls() == old(self).calls(),
    {
        self.tx_config_power
    }

    fn get_laser_config_freq(&mut self) -> (r: i64)
        ensures
            r == old(self).canned().laser_config_freq,
            final(self).canned() == old(self).canned(),
            final(self).calls() == old(self).calls(),
    {
        self.laser_config_freq
    }

    fn get_supported_freq_config(&mut self) -> (r: (i64, i64, i64, i64, i64))
        ensures
            r == old(self).canned().supported_freq_config,
            final(self).canned() == old(self).canned(),
            final(self).calls() == old(self).calls(),
    {
        self.supported_freq_config
    }

    fn get_supported_power_config(&mut self) -> (r: (i64, i64))
        ensures
            r == old(self).canned().supported_power_config,
            final(self).canned() == old(self).canned(),
            final(self).calls() == old(self).calls(),
    {
        self.supported_power_config
    }

    fn get_tuning_in_progress(&mut self) -> (r: bool)
        ensures
            r == old(self).canned().tuning_in_progress,
            final(self).canned() == old(self).canned(),
            final(self).calls() == old(self).calls(),
    {
        self.tuning_in_progress
    }

    fn get_manufacturer(&mut self) -> (r: String)
        ensures
            r@ == old(self).canned().manufacturer,
            final(self).canned() == old(self).canned(),
            final(self).calls() == old(self).calls(),
    {
        self.manufacturer.clone()
    }

    fn get_model(&mut self) -> (r: String)
        ensures
            r@ == old(self).canned().model,
            final(self).canned() == old(self).canned(),
            final(self).calls() == old(self).calls(),
    {
        self.model.clone()
    }

    fn get_host_lane_assignment_option(&mut self, appl: u32) -> (r: u32)
        ensures
            r == advert_field(
                old(self).canned().application_advertisement,
                appl,
                "host_lane_assignment_options"@,
                0,
            ),
            final(self).canned() == old(self).canned(),
            final(self).calls() == old(self).calls(),
    {
        advert_field_u32(&self.application_advertisement, appl, "host_lane_assignment_options", 0)
    }

    fn get_media_lane_assignment_option(&mut self, appl: u32) -> (r: u32)
        ensures
            r == advert_field(
                old(self).canned().application_advertisement,
                appl,
                "media_lane_assignment_options"@,
                1,
            ),
            final(self).canned() == old(self).canned(),
            final(self).calls() == old(self).calls(),
    {
        advert_field_u32(&self.application_advertisement, appl, "media_lane_assignment_options", 1)
    }

    fn get_media_lane_count(&mut self, appl: u32) -> (r: u32)
        ensures
            r == (match old(self).canned().media_lane_count_override {
                Some(v) => v,
                None => advert_field(
                    old(self).canned().application_advertisement,
                    appl,
                    "media_lane_count"@,
                    1,
                ),
            }),
            final(self).canned() == old(self).canned(),
            final(self).calls() == old(self).calls(),
    {
        match self.media_lane_count_override {
            Some(v) => v,
            None => advert_field_u32(
                &self.application_advertisement,
                appl,
                "media_lane_count",
                1,
            ),
        }
    }

    fn get_active_apsel_hostlane(&mut self) -> (r: Result<Fields, XcvrdError>)
        ensures
            ({
                let q = old(self).canned().active_apsel_queue;
                &&& q.len() > 0 ==> {
                    &&& result_view(r) == q[0]
                    &&& final(self).canned() == (CmisCanned {
                        active_apsel_queue: q.skip(1),
                        ..old(self).canned()
                    })
                }
                &&& q.len() == 0 ==> {
                    &&& result_view(r) == Ok::<Vals, Seq<char>>(old(self).canned().active_apsel)
                    &&& final(self).canned() == old(self).canned()
                }
            }),
            final(self).calls() == old(self).calls().push("get_active_apsel_hostlane"@),
    {
        self.bump("get_active_apsel_hostlane");
        if self.active_apsel_queue.len() > 0 {
            let ghost q = self.canned().active_apsel_queue;
            let r = self.active_apsel_queue.remove(0);
            assert(results_view(self.active_apsel_queue@) =~= q.skip(1));
            return r;
        }
        Ok(clone_fields(&self.active_apsel))
    }

    fn get_application(&mut self, lane: u32) -> (r: u32)
        ensures
            ({
                let c = old(self).canned();
                r == (if c.application_by_lane_map.dom().len() == 0 {
                    c.application_by_lane
                } else if c.application_by_lane_map.dom().contains(lane as usize) {
                    c.application_by_lane_map[lane as usize]
                } else {
                    0
                })
            }),
            final(self).canned() == old(self).canned(),
            final(self).calls() == old(self).calls(),
    {
        if self.application_by_lane_map.len() == 0 {
            self.application_by_lane
        } else {
            match self.application_by_lane_map.get(&(lane as usize)) {
                Some(v) => *v,
                None => 0,
            }
        }
    }

    fn set_datapath_deinit(&mut self, host_lanes_mask: u32) -> (r: bool)
        ensures
            r,
            final(self).canned() == old(self).canned(),
            final(self).calls() == old(self).calls().push("set_datapath_deinit"@),
    {
        self.bump("set_datapath_deinit");
        true
    }

    fn set_datapath_init(&mut self, host_lanes_mask: u32) -> (r: bool)
        ensures
            r,
            final(self).canned() == old(self).canned(),
            final(self).calls() == old(self).calls().push("set_datapath_init"@),
    {
        self.bump("set_datapath_init");
        true
    }

    fn tx_disable_channel(&mut self, media_lanes_mask: u32, disable: bool) -> (r: bool)
        ensures
            r,
            final(self).canned() == old(self).canned(),
            final(self).calls() == old(self).calls().push("tx_disable_channel"@),
    {
        self.bump("tx_disable_channel");
        true
    }

    fn set_lpmode(&mut self, lpmode: bool, wait_state_change: bool) -> (r: bool)
        ensures
            r,
            final(self).canned() == old(self).canned(),
            final(self).calls() == old(self).calls().push("set_lpmode"@),
    {
        self.bump("set_lpmode");
        true
    }

    fn scs_apply_datapath_init(&mut self, host_lanes_mask: u32) -> (r: bool)
        ensures
            r,
            final(self).canned() == old(self).canned(),
            final(self).calls() == old(self).calls().push("scs_apply_datapath_init"@),
    {
        self.bump("scs_apply_datapath_init");
        true
    }

    fn set_tx_power(&mut self, tx_power: i16) -> (r: bool)
        ensures
            r,
            final(self).canned() == old(self).canned(),
            final(self).calls() == old(self).calls().push("set_tx_power"@),
    {
        self.bump("set_tx_power");
        true
    }

    fn set_laser_freq(&mut self, freq: i64, grid: u32) -> (r: bool)
        ensures
            r,
            final(self).canned() == old(self).canned(),
            final(self).calls() == old(self).calls().push("set_laser_freq"@),
    {
        self.bump("set_laser_freq");
        true
    }

    fn set_application(&mut self, host_lanes_mask: u32, appl: u32, ec: u32) -> (r: bool)
        ensures
            r,
            final(self).canned() == (CmisCanned {
                last_set_application_ec: ec,
                ..old(self).canned()
            }),
            final(self).calls() == old(self).calls().push("set_application"@),
    {
        self.bump("set_application");
        self.last_set_application_ec = ec;
        true
    }

    fn stage_custom_si_settings(
        &mut self,
        host_lanes_mask: u32,
        optics_si_dict: &OpticsSi,
    ) -> (r: bool)
        ensures
            r == old(self).canned().stage_custom_si_result,
            final(self).canned() == (CmisCanned {
                captured_optics_si: si_view(optics_si_dict@),
                ..old(self).canned()
            }),
            final(self).calls() == old(self).calls().push("stage_custom_si_settings"@),
    {
        self.bump("stage_custom_si_settings");
        self.captured_optics_si = clone_si(optics_si_dict);
        self.stage_custom_si_result
    }
}

} // verus!
