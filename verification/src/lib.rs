//! Verified core of a DPI-bypass tool: strategy model and rendering to engine
//! arguments, reachability verdicts, network fingerprints, profile storage
//! logic, the strategy auto-solver, and the pure parts of the privileged
//! helper and the desktop front end.
use vstd::prelude::*;

pub mod text;
pub mod error;
pub mod strategy;
pub mod network;
pub mod engine;
pub mod prober;
pub mod profiles;
pub mod paths;
pub mod engine_linux;
pub mod engine_windows;
pub mod helper_cli;
pub mod gui;

verus! {

} // verus!
