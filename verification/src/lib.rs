//! Verified core of the sensor-station server: request validation,
//! bitmap handling, the sensor wire format and the ingest state machine.

pub mod bitmap;
pub mod wire;
pub mod http;
pub mod station;
pub mod instant;
pub mod recordings;
pub mod ingest;
pub mod weather;
pub mod encoding;
pub mod merge;
