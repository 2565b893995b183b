//! Digital optical monitoring: what the modules report about themselves.

pub mod db_utils;
pub mod dom_mgr;
pub mod dom_sensor;
pub mod laws;
pub mod limits;
pub mod outcomes;
pub mod rounds;
pub mod schedule_laws;
pub mod status;
pub mod vdm;
pub mod vdm_laws;
