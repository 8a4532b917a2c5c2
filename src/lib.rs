//! Turns recorded match telemetry into tables, trajectory series and a
//! feedback report.
pub mod json;
pub mod text;
pub mod flatten;
pub mod codec;
pub mod frame;
pub mod report;
pub mod pipeline;
