//! Listing and watching Wayland toplevels: the verified core.
//!
//! The modules hold the pure parts of the tool: resolving the command
//! line, tracking toplevels from protocol events, deciding how an action
//! becomes a protocol request, rendering the listing, and reading the
//! commands of the interactive mode.

pub mod cli;
pub mod json;
pub mod output;
pub mod protocols;
pub mod repl;
pub mod text;
pub mod toplevel;
