//! Scans a filesystem subtree and classifies each regular file by whether its
//! byte content conforms to a target text encoding under a configurable
//! byte-order-mark policy, and can probe a single buffer against a registry of
//! known encodings.
//!
//! The crate is organised around a lazy breadth-first walker, an
//! encoding-conformance detector, a regular-expression path mask, and a scan
//! orchestrator that composes them. All filesystem reads are performed by the
//! caller, which feeds directory listings and file contents to the verified
//! state machines defined here.

pub mod codec;
pub mod convert;
pub mod detect;
pub mod errors;
pub mod explorer;
pub mod mask;
pub mod scan;
