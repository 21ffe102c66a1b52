//! A private projection of one exact search with context, which is shown in place of the
//! search's own output only where it is smaller and keeps every record.

pub mod capture;
pub mod gateway;
pub mod laws;
pub mod lifecycle;
pub mod reading;
pub mod records;
pub mod search;
pub mod upkeep;
