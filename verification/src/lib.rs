//! A small process supervisor: a registry of managed applications, a table of
//! their live OS processes, a graceful-termination protocol, a watchdog that
//! respawns processes that exit on their own, and a framed command protocol
//! for one-shot control clients.

pub mod config;
pub mod osproc;
pub mod protocol;
pub mod supervisor;
pub mod table;
pub mod text;
pub mod watchdog;
