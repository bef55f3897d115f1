//! A heap-allocation sanitizer core: inline red zones, a live-allocation
//! tracker, a quarantine of freed blocks, and the diagnostics they produce.
pub mod tracker;
pub mod quarantine;
pub mod redzone;
pub mod diagnostic;
pub mod epoch;
pub mod pipeline;
