//! Verified codecs and planners for the `series.bin` metadata file.

pub mod error;
pub mod bytes;
pub mod cold_v2;
pub mod count;
pub mod checksum;
pub mod v2_runtime;
pub mod v3;
mod capacity;
mod clock;
pub mod chunk;
pub mod entry;
pub mod health;
pub mod budget;
pub mod label_laws;
pub mod symbols;
