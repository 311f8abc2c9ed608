//! Supervision of tunnel client and server processes, and the fan-out of
//! their lifecycle and output events to connected observers.
//!
//! The library decides; the caller does the I/O. It launches a process with
//! the arguments that a configuration gives, reports the outcome with
//! `Supervisor::start`, feeds each line of output to `Supervisor::output`,
//! reports the end with `Supervisor::exited`, and sends each observer what
//! `Supervisor::drain` hands back.

pub mod classify;
pub mod hub;
mod ids;
pub mod session;
pub mod supervisor;
pub mod table;
pub mod text;

pub use classify::classify;
pub use hub::Hub;
pub use session::{ClientConfig, Event, Role, ServerConfig, SessionConfig};
pub use supervisor::{Record, Session, StartError, StopError, Supervisor};
pub use text::decimal_string;
