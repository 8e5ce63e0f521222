//! Serialized records, catalogs, and access to recordings.

pub mod local_catalog;
pub mod local_reads;
pub mod local_restore;
pub mod local_window;
pub mod mcap_facts;
pub mod mcap_records;
pub mod mcap_source;
pub mod raw;
pub mod identity;
pub mod session;
pub mod requirements;
pub mod restore;
