//! Supervision core for a process-wrapping progress notifier.
//!
//! The library holds the verified logic of the supervisor: inferring
//! progress readings from free-form child output, deciding when a
//! percentage milestone fires, keeping the shared run state sound under
//! repeated polling, and classifying the child's exit into a final
//! report.  All I/O (spawning the child, draining its pipes, invoking
//! the external notification transport) lives outside the library and
//! only hands plain values in and out.
//!
//! Percentages are held in hundredths of a percent, so that `4725`
//! stands for 47.25 %; this keeps every quantity an integer while
//! preserving milestone decisions exactly.

pub mod text;
pub mod lines;
pub mod reading;
pub mod scan;
pub mod extract;
pub mod milestone;
pub mod json;
pub mod state;
pub mod report;
pub mod monitor;
