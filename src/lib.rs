//! An in-memory registry of person records: validated creation with unique
//! nicknames and generated identifiers, lookup by identifier, and a count.

pub mod date;
pub mod laws;
pub mod person;
pub mod store;
