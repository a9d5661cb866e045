//! An append-only, crash-recoverable telemetry log.
//!
//! Raw device telemetry is decoded into a closed set of typed events,
//! serialized to a byte-stable binary form, and appended to a durable,
//! ordered sequence store whose keys are monotonically increasing
//! sequence ids.
//!
//! The persisted payload bytes are this library's own format, fixed
//! byte for byte by `pipeline::spec_encode_event`; the store treats
//! payloads as opaque and nothing ever decodes them back.

pub mod codec;
pub mod model;
pub mod parse;
pub mod pipeline;
pub mod server;
pub mod store;
