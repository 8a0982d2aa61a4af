//! Lists the special "known folders" registered with the shell, and their
//! locations: the verified part of the tool.
//!
//! - `flags` turns operator tokens into the path-resolution option mask.
//! - `query` decides, step by step, how the registry is walked and when each
//!   service-allocated block is released.
//! - `report` sorts the records and lays out the table.
pub mod flags;
pub mod query;
pub mod report;
