//! Verified core of a sensor telemetry bridge.
//!
//! The library turns an untrusted byte stream into live sensor metrics:
//! a resynchronizing frame extractor pulls delimited hex-encoded frames
//! out of the stream, a checksum stage verifies a leading CRC-32 field,
//! a decoder recognizes one fixed binary broadcast layout, and an
//! expiring registry tracks which sensors are currently alive together
//! with their latest readings.

pub mod checksum;
pub mod decode;
pub mod device;
pub mod frame;
pub mod hex;
pub mod monitor;
pub mod registry;
pub mod station;
pub mod table;
