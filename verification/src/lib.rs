//! Session multiplexing core of a terminal emulator.
//!
//! A [`mux::Registry`] owns domains, windows and tabs.  A domain provides
//! terminal sessions, either on this host or by proxying a remote
//! multiplexer.  All operations that need the outside world (opening a
//! pseudo-terminal, talking to a socket) are split into a decision made
//! here and work done by the embedding program, which reports the outcome
//! back.
//!
//! The contracts are stated over mathematical values: [`model`] holds the
//! registry as such a value, and [`laws`] what is proved of it.

pub mod command;
pub mod domain;
pub mod entry;
pub mod error;
pub mod ids;
pub mod keyboard;
pub mod laws;
pub mod listing;
pub mod model;
pub mod mux;
pub mod protocol;
pub mod service;
pub mod shell;
pub mod size;
pub mod startup;
pub mod text;
pub mod wire;
