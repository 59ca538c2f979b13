//! Run commands side by side while relaying connections between endpoints.
//!
//! The crate holds the decisions of the tool: how an endpoint or a directive
//! is read, how a command line becomes a process invocation, how output is cut
//! into whole lines, how input is handed to every process, and how the exit
//! statuses of all processes become one exit code. Sockets, pipes and child
//! processes are driven by the caller, which feeds each state machine the
//! events it observes and carries out the actions it gets back.

pub mod args;
pub mod command;
pub mod lines;
pub mod proxy;
pub mod run;
pub mod text;
