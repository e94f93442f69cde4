//! DICOM unique identifiers derived from UUIDs, under the root `2.25`.
//!
//! A UUID's sixteen bytes are read as one unsigned little-endian integer,
//! which is written in decimal after the prefix `2.25.`.
pub use uuid;

pub mod decimal;
pub mod uid;

pub use uid::{gen_uid, gen_uid_to, new_uid, new_uid_to, uid_from_u128, UuidBytes};
