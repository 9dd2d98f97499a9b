//! An in-process extensibility runtime: it tracks dynamically loaded code
//! modules ("plugins"), drives their lifecycle transitions, and routes typed
//! events between the host and every subscribed handler with ordering and
//! isolation guarantees.
//!
//! The crate holds the runtime's rules — who is loaded, what runs in which
//! order, which cleanup is owed — as verified functions. The host around it
//! performs the work only it can do (file scans, loader backends, awaiting
//! plugin hooks) and feeds the observed outcomes back in.

pub mod config;
pub mod events;
pub mod file_config;
pub mod manager;
