//! Modules with a CMIS memory map.

pub mod advert;
pub mod advert_laws;
pub mod cmis_api;
pub mod laws;
pub mod mock_cmis;
