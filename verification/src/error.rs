//! The errors of the daemon.

use vstd::prelude::*;

use crate::text::{join, owned};

verus! {

/// What can go wrong.
#[derive(Debug)]
pub enum XcvrdError {
    /// The platform plugin failed.
    Bridge(String),
    /// The database failed.
    Db(String),
    /// The platform lacks the function.
    NotImplemented,
    /// The memory of the module cannot be read yet.
    EepromNotReady,
    /// There is no such slot.
    PhysicalPortNotExist,
    /// Anything else.
    Other(String),
}

/// The text of an error.
pub open spec fn error_text(e: XcvrdError) -> Seq<char> {
    match e {
        XcvrdError::Bridge(m) => "platform-bridge error: "@ + m@,
        XcvrdError::Db(m) => "state-db error: "@ + m@,
        XcvrdError::NotImplemented => "functionality not implemented for this platform"@,
        XcvrdError::EepromNotReady => "sfp eeprom not ready"@,
        XcvrdError::PhysicalPortNotExist => "physical port does not exist"@,
        XcvrdError::Other(m) => m@,
    }
}

impl XcvrdError {
    /// The text of the error.
    pub fn text(&self) -> (r: String)
        ensures
            r@ == error_text(*self),
    {
        match self {
            XcvrdError::Bridge(m) => join("platform-bridge error: ", m.as_str()),
            XcvrdError::Db(m) => join("state-db error: ", m.as_str()),
            XcvrdError::NotImplemented => owned("functionality not implemented for this platform"),
            XcvrdError::EepromNotReady => owned("sfp eeprom not ready"),
            XcvrdError::PhysicalPortNotExist => owned("physical port does not exist"),
            XcvrdError::Other(m) => m.clone(),
        }
    }
}

} // verus!
