//! A personal activity trail: events logged by a shell integration, and the
//! queries over them (where was I at a given time, what did I run, how active was
//! each project, which sessions were there).
//!
//! The log itself is read and written by the program around this library, which
//! hands it the parsed events, the current instant and the local day boundaries.
pub mod text;
pub mod events;
pub mod time;
pub mod session;
pub mod query;
pub mod aggregate;
pub mod config;
pub mod projwarp;
pub mod cli;
pub mod logger;
