//! Telemetry sampling and normalization engine for a resident hardware
//! monitor.
//!
//! Two pipelines assemble readings from two unreliable sources — an OS
//! metrics library and an external vendor GPU command-line tool — into
//! one stable schema: a static snapshot of hardware facts and a
//! per-tick dynamic sample. A name normalizer turns vendor marketing
//! strings into terse display names. Every data-source failure
//! degrades to empty or zero fields; no call in this crate returns an
//! error or panics.
//!
//! Text is carried as UTF-8 bytes (`Vec<u8>`) and modeled as `Seq<u8>`;
//! every token the engine strips or searches for is ASCII, so byte
//! operations match character semantics. Percent-like readings are
//! carried in exact integer centi-units and basis points; the adapter
//! around the crate converts for display.

pub mod bytestr;
pub mod metrics;
pub mod names;
pub mod num;
pub mod probe;
pub mod startup;
